//! The rig's side of a connection.
//!
//! The runtime waits for the physical link, negotiates the channel as the initiator,
//! announces the rig, and then serves the daemon's commands. It decides what is done and
//! how long the hardware gets to settle afterwards; its driver does it.

use crate::channel::Side;
use crate::cipher::{aes256_encrypt_block, encrypt_block, SessionKey};
use crate::packet::{text_fits, Packet, PacketModel, MAX_TEXT_LEN};
use vstd::prelude::*;

verus! {

/// How long to wait before asking again whether the link is up, in milliseconds.
pub const LINK_POLL_MS: u64 = 1000;

/// How long the machine gets to settle after a press of its power or reset button, in
/// milliseconds.
pub const PRESS_SETTLE_MS: u64 = 3000;

/// How long the heartbeat light stays on, in milliseconds.
pub const HEARTBEAT_ON_MS: u64 = 100;

/// How long the heartbeat light stays off, in milliseconds.
pub const HEARTBEAT_OFF_MS: u64 = 2000;

/// How often the status display is refreshed in a second.
pub const MONITOR_REFRESH_HZ: u64 = 240;

/// How long the rig stays connected after its greeting, in milliseconds.
pub const GREETING_LINGER_MS: u64 = 5000;

/// Where the rig stands.
#[derive(Clone, Copy, Debug, PartialEq, Eq, Structural)]
pub enum RigPhase {
    AwaitingLink,
    Negotiating,
    Announcing,
    Serving,
}

/// What the driver of the runtime reports.
#[derive(Clone, Copy, Debug, PartialEq, Eq, Structural)]
pub enum RigEvent {
    LinkUp,
    LinkDown,
    Negotiated,
    NegotiationFailed,
    Announced,
    ConnectionLost,
}

/// What the driver of the runtime has to do next.
#[derive(Clone, Debug, PartialEq, Eq)]
pub enum RigStep {
    /// Ask whether the link is up, and if it is not, wait this long before asking again.
    PollLink { retry_millis: u64 },
    /// Negotiate the channel on this side.
    Negotiate(Side),
    /// Send this packet, the rig's announcement.
    Announce(Packet),
    /// Receive a command and hand it to `command`.
    Receive,
}

/// What a `RigStep` stands for.
pub enum RigStepModel {
    PollLink { retry_millis: u64 },
    Negotiate(Side),
    Announce(PacketModel),
    Receive,
}

impl View for RigStep {
    type V = RigStepModel;

    open spec fn view(&self) -> RigStepModel {
        match *self {
            RigStep::PollLink { retry_millis } => RigStepModel::PollLink { retry_millis },
            RigStep::Negotiate(side) => RigStepModel::Negotiate(side),
            RigStep::Announce(packet) => RigStepModel::Announce(packet@),
            RigStep::Receive => RigStepModel::Receive,
        }
    }
}

/// What becomes of a command.
#[derive(Clone, Copy, Debug, PartialEq, Eq, Structural)]
pub enum Handling {
    /// Hand it to the hardware, then let this much time pass before the next command.
    Apply { settle_millis: u64 },
    /// Log it and go on.
    Ignore,
}

/// What is to be done next in a phase, by a rig with the given identity.
pub open spec fn rig_step(phase: RigPhase, uid: Seq<u8>, version: Seq<char>) -> RigStepModel {
    match phase {
        RigPhase::AwaitingLink => RigStepModel::PollLink { retry_millis: LINK_POLL_MS },
        RigPhase::Negotiating => RigStepModel::Negotiate(Side::Initiator),
        RigPhase::Announcing => RigStepModel::Announce(PacketModel::LinkOnline { uid, version }),
        RigPhase::Serving => RigStepModel::Receive,
    }
}

/// The phase after an event. Losing the link or the connection leads back to waiting for
/// the link from anywhere; an event that does not answer the pending step changes nothing.
pub open spec fn rig_after(phase: RigPhase, event: RigEvent) -> RigPhase {
    match (phase, event) {
        (_, RigEvent::LinkDown) | (_, RigEvent::ConnectionLost) => RigPhase::AwaitingLink,
        (RigPhase::AwaitingLink, RigEvent::LinkUp) => RigPhase::Negotiating,
        (RigPhase::Negotiating, RigEvent::Negotiated) => RigPhase::Announcing,
        (RigPhase::Negotiating, RigEvent::NegotiationFailed) => RigPhase::AwaitingLink,
        (RigPhase::Announcing, RigEvent::Announced) => RigPhase::Serving,
        _ => phase,
    }
}

/// What becomes of a packet that arrives in a phase.
///
/// Only a rig that serves takes commands. Presses of the power and the reset button are
/// followed by a settle time; a packet that is no command, or of a variant that this
/// version does not know, is ignored.
pub open spec fn handling(phase: RigPhase, packet: PacketModel) -> Handling {
    if phase != RigPhase::Serving {
        Handling::Ignore
    } else {
        match packet {
            PacketModel::PressPower | PacketModel::PressReset => Handling::Apply {
                settle_millis: PRESS_SETTLE_MS,
            },
            PacketModel::LinkOnline { .. } | PacketModel::Unknown { .. } => Handling::Ignore,
            _ => Handling::Apply { settle_millis: 0 },
        }
    }
}

/// The phase after a packet arrived. A reset of the link ends the session: the rig
/// announces itself again. Nothing else changes the phase.
pub open spec fn rig_after_packet(phase: RigPhase, packet: PacketModel) -> RigPhase {
    if phase == RigPhase::Serving && packet is ResetLink {
        RigPhase::Announcing
    } else {
        phase
    }
}

/// The rig's state machine.
pub struct LinkRuntime {
    uid: [u8; 16],
    version: String,
    phase: RigPhase,
}

impl LinkRuntime {
    #[verifier::type_invariant]
    spec fn inv(self) -> bool {
        text_fits(self.version@)
    }

    /// The rig's identifier.
    pub closed spec fn uid(&self) -> Seq<u8> {
        self.uid@
    }

    /// The version of the rig's firmware.
    pub closed spec fn version(&self) -> Seq<char> {
        self.version@
    }

    /// Where the rig stands.
    pub closed spec fn phase(&self) -> RigPhase {
        self.phase
    }

    /// The runtime of a rig that waits for its link, unless the version is too long a text
    /// to announce.
    pub fn new(uid: [u8; 16], version: String) -> (res: Option<LinkRuntime>)
        ensures
            match res {
                Some(runtime) => text_fits(version@) && runtime.uid() == uid@ && runtime.version()
                    == version@ && runtime.phase() == RigPhase::AwaitingLink,
                None => !text_fits(version@),
            },
    {
        if version.as_str().as_bytes().len() > MAX_TEXT_LEN {
            return None;
        }
        Some(LinkRuntime { uid, version, phase: RigPhase::AwaitingLink })
    }

    /// Where the rig stands.
    pub fn current_phase(&self) -> (phase: RigPhase)
        ensures
            phase == self.phase(),
    {
        self.phase
    }

    /// What the driver has to do next. The announcement that it is handed can be encoded.
    pub fn pending(&self) -> (step: RigStep)
        ensures
            step@ == rig_step(self.phase(), self.uid(), self.version()),
            step matches RigStep::Announce(packet) ==> packet@.wf(),
    {
        proof {
            use_type_invariant(self);
        }
        match self.phase {
            RigPhase::AwaitingLink => RigStep::PollLink { retry_millis: LINK_POLL_MS },
            RigPhase::Negotiating => RigStep::Negotiate(Side::Initiator),
            RigPhase::Announcing => RigStep::Announce(
                Packet::LinkOnline { uid: self.uid, version: self.version.clone() },
            ),
            RigPhase::Serving => RigStep::Receive,
        }
    }

    /// Takes what the driver reports.
    pub fn advance(&mut self, event: RigEvent)
        ensures
            final(self).uid() == old(self).uid(),
            final(self).version() == old(self).version(),
            final(self).phase() == rig_after(old(self).phase(), event),
    {
        proof {
            use_type_invariant(&*self);
        }
        let phase = self.phase;
        let next = match event {
            RigEvent::LinkDown | RigEvent::ConnectionLost => RigPhase::AwaitingLink,
            RigEvent::LinkUp => match phase {
                RigPhase::AwaitingLink => RigPhase::Negotiating,
                _ => phase,
            },
            RigEvent::Negotiated => match phase {
                RigPhase::Negotiating => RigPhase::Announcing,
                _ => phase,
            },
            RigEvent::NegotiationFailed => match phase {
                RigPhase::Negotiating => RigPhase::AwaitingLink,
                _ => phase,
            },
            RigEvent::Announced => match phase {
                RigPhase::Announcing => RigPhase::Serving,
                _ => phase,
            },
        };
        self.phase = next;
    }

    /// Takes a packet that the driver received, and says what becomes of it.
    pub fn command(&mut self, packet: &Packet) -> (handling: Handling)
        ensures
            final(self).uid() == old(self).uid(),
            final(self).version() == old(self).version(),
            final(self).phase() == rig_after_packet(old(self).phase(), packet@),
            handling == crate::runtime::handling(old(self).phase(), packet@),
    {
        proof {
            use_type_invariant(&*self);
        }
        match self.phase {
            RigPhase::Serving => {},
            _ => {
                return Handling::Ignore;
            },
        }
        match packet {
            Packet::PressPower | Packet::PressReset => Handling::Apply {
                settle_millis: PRESS_SETTLE_MS,
            },
            Packet::LinkOnline { .. } | Packet::Unknown { .. } => Handling::Ignore,
            Packet::ResetLink => {
                self.phase = RigPhase::Announcing;
                Handling::Apply { settle_millis: 0 }
            },
            _ => Handling::Apply { settle_millis: 0 },
        }
    }
}

/// A packet of a variant that this version does not know is ignored in every phase, and
/// the rig stays in its phase.
pub proof fn lemma_rig_ignores_unknown(phase: RigPhase, packet: PacketModel)
    requires
        packet is Unknown,
    ensures
        handling(phase, packet) == Handling::Ignore,
        rig_after_packet(phase, packet) == phase,
{
}

/// The rig serves only on a channel that was negotiated for the connection: it gets to
/// announce itself only by a negotiation or by a reset of the link that it served, gets to
/// serve only by announcing itself, and has to negotiate anew once a connection is lost.
pub proof fn lemma_serving_follows_negotiation(
    phase: RigPhase,
    event: RigEvent,
    packet: PacketModel,
)
    ensures
        rig_after(phase, event) == RigPhase::Serving && phase != RigPhase::Serving ==> phase
            == RigPhase::Announcing && event == RigEvent::Announced,
        rig_after(phase, event) == RigPhase::Announcing && phase != RigPhase::Announcing
            ==> phase == RigPhase::Negotiating && event == RigEvent::Negotiated,
        rig_after_packet(phase, packet) == RigPhase::Serving ==> phase == RigPhase::Serving,
        rig_after_packet(phase, packet) == RigPhase::Announcing && phase != RigPhase::Announcing
            ==> phase == RigPhase::Serving && packet is ResetLink,
        rig_after(phase, RigEvent::ConnectionLost) == RigPhase::AwaitingLink,
        rig_after(phase, RigEvent::LinkDown) == RigPhase::AwaitingLink,
{
}

/// The plaintext of the rig's greeting: the words, and zero bytes up to the block's end.
pub open spec fn greeting_plain() -> Seq<u8> {
    seq![0x48u8, 0x69, 0x2C, 0x20, 0x4F, 0x72, 0x6F, 0x21, 0, 0, 0, 0, 0, 0, 0, 0]
}

/// The greeting that a rig sends right after the negotiation to show that it holds the
/// key: one block, the words `Hi, Oro!` encrypted under the session key.
pub fn greeting(key: &SessionKey) -> (block: [u8; 16])
    ensures
        block@ == aes256_encrypt_block(key@, greeting_plain()),
{
    let plain: [u8; 16] = [0x48, 0x69, 0x2C, 0x20, 0x4F, 0x72, 0x6F, 0x21, 0, 0, 0, 0, 0, 0, 0, 0];
    assert(plain@ =~= greeting_plain());
    encrypt_block(key.as_bytes(), &plain)
}

/// The heartbeat light: what to switch it to, given what it is, and for how long. It is
/// on for a short while and off for a long one.
pub fn heartbeat(lit: bool) -> (next: (bool, u64))
    ensures
        next.0 == !lit,
        next.1 == if lit {
            HEARTBEAT_OFF_MS
        } else {
            HEARTBEAT_ON_MS
        },
{
    if lit {
        (false, HEARTBEAT_OFF_MS)
    } else {
        (true, HEARTBEAT_ON_MS)
    }
}

/// The time between two refreshes of the status display, in whole milliseconds.
pub fn monitor_refresh_millis() -> (millis: u64)
    ensures
        millis == 1000u64 / MONITOR_REFRESH_HZ,
{
    1000 / MONITOR_REFRESH_HZ
}

} // verus!
