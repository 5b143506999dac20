//! The closed set of messages that may cross the channel, and their mathematical model.

use vstd::prelude::*;
use vstd::utf8::encode_utf8;

verus! {

/// The visual page shown on the rig's status display.
#[derive(Clone, Copy, Debug, PartialEq, Eq, Structural)]
pub enum Scene {
    Logo,
    Log,
    Test,
}

/// The target power state of the device under test.
#[derive(Clone, Copy, Debug, PartialEq, Eq, Structural)]
pub enum PowerState {
    On,
    Off,
}

/// How important a log entry is.
#[derive(Clone, Copy, Debug, PartialEq, Eq, Structural)]
pub enum LogSeverity {
    Info,
    Warn,
    Error,
}

/// An informational message pushed to the rig for display.
#[derive(Clone, Debug, PartialEq, Eq)]
pub struct LogEntry {
    pub severity: LogSeverity,
    pub message: String,
}

/// A message of the protocol.
#[derive(Clone, Debug, PartialEq, Eq)]
pub enum Packet {
    /// The rig announces itself; the first message after negotiation.
    LinkOnline { uid: [u8; 16], version: String },
    SetScene(Scene),
    SetPowerState(PowerState),
    PressPower,
    PressReset,
    ResetLink,
    Log(LogEntry),
    StartTestSession { total_tests: u32, author: String, title: String, ref_id: String },
    StartTest { name: String },
    /// A message whose tag this version does not know. It is carried as it came so that a
    /// receiver can report it; no state machine ever expects it.
    Unknown { tag: u8, body: Vec<u8> },
}

/// What a `Packet` stands for: the same variants over sequences.
pub enum PacketModel {
    LinkOnline { uid: Seq<u8>, version: Seq<char> },
    SetScene(Scene),
    SetPowerState(PowerState),
    PressPower,
    PressReset,
    ResetLink,
    Log { severity: LogSeverity, message: Seq<char> },
    StartTestSession { total_tests: u32, author: Seq<char>, title: Seq<char>, ref_id: Seq<char> },
    StartTest { name: Seq<char> },
    Unknown { tag: u8, body: Seq<u8> },
}

/// The longest text that a packet can carry, in bytes of UTF-8.
pub const MAX_TEXT_LEN: usize = 0xFFFF;

/// The longest encoded packet: a session start with three texts of full length.
pub const MAX_PACKET_LEN: usize = 196_616;

/// The longest body of an unknown packet: with its tag it makes a packet of full length.
pub const MAX_BODY_LEN: usize = 196_615;

/// The number of bytes in a rig identifier.
pub const UID_LEN: usize = 16;

pub const TAG_LINK_ONLINE: u8 = 1;

pub const TAG_SET_SCENE: u8 = 2;

pub const TAG_SET_POWER_STATE: u8 = 3;

pub const TAG_PRESS_POWER: u8 = 4;

pub const TAG_PRESS_RESET: u8 = 5;

pub const TAG_RESET_LINK: u8 = 6;

pub const TAG_LOG: u8 = 7;

pub const TAG_START_TEST_SESSION: u8 = 8;

pub const TAG_START_TEST: u8 = 9;

/// Whether `tag` names a variant that this version knows.
pub open spec fn is_known_tag(tag: u8) -> bool {
    TAG_LINK_ONLINE <= tag <= TAG_START_TEST
}

/// Whether a text fits the length prefix of the wire format.
pub open spec fn text_fits(text: Seq<char>) -> bool {
    encode_utf8(text).len() <= MAX_TEXT_LEN
}

impl PacketModel {
    /// The tag under which the packet travels.
    pub open spec fn tag(self) -> u8 {
        match self {
            PacketModel::LinkOnline { .. } => TAG_LINK_ONLINE,
            PacketModel::SetScene(_) => TAG_SET_SCENE,
            PacketModel::SetPowerState(_) => TAG_SET_POWER_STATE,
            PacketModel::PressPower => TAG_PRESS_POWER,
            PacketModel::PressReset => TAG_PRESS_RESET,
            PacketModel::ResetLink => TAG_RESET_LINK,
            PacketModel::Log { .. } => TAG_LOG,
            PacketModel::StartTestSession { .. } => TAG_START_TEST_SESSION,
            PacketModel::StartTest { .. } => TAG_START_TEST,
            PacketModel::Unknown { tag, .. } => tag,
        }
    }

    /// Whether the packet can be put on the wire: every text fits its length prefix, an
    /// identifier has sixteen bytes, and an unknown packet neither claims a known tag nor
    /// makes too long a packet.
    pub open spec fn wf(self) -> bool {
        match self {
            PacketModel::LinkOnline { uid, version } => uid.len() == UID_LEN && text_fits(version),
            PacketModel::Log { message, .. } => text_fits(message),
            PacketModel::StartTestSession { author, title, ref_id, .. } => text_fits(author)
                && text_fits(title) && text_fits(ref_id),
            PacketModel::StartTest { name } => text_fits(name),
            PacketModel::Unknown { tag, body } => !is_known_tag(tag) && body.len() <= MAX_BODY_LEN,
            _ => true,
        }
    }
}

impl View for Packet {
    type V = PacketModel;

    open spec fn view(&self) -> PacketModel {
        match *self {
            Packet::LinkOnline { uid, version } => PacketModel::LinkOnline {
                uid: uid@,
                version: version@,
            },
            Packet::SetScene(scene) => PacketModel::SetScene(scene),
            Packet::SetPowerState(state) => PacketModel::SetPowerState(state),
            Packet::PressPower => PacketModel::PressPower,
            Packet::PressReset => PacketModel::PressReset,
            Packet::ResetLink => PacketModel::ResetLink,
            Packet::Log(entry) => PacketModel::Log {
                severity: entry.severity,
                message: entry.message@,
            },
            Packet::StartTestSession { total_tests, author, title, ref_id } => {
                PacketModel::StartTestSession {
                    total_tests,
                    author: author@,
                    title: title@,
                    ref_id: ref_id@,
                }
            },
            Packet::StartTest { name } => PacketModel::StartTest { name: name@ },
            Packet::Unknown { tag, body } => PacketModel::Unknown { tag, body: body@ },
        }
    }
}

impl Packet {
    /// The tag under which the packet travels.
    pub fn tag(&self) -> (tag: u8)
        ensures
            tag == self@.tag(),
    {
        match self {
            Packet::LinkOnline { .. } => TAG_LINK_ONLINE,
            Packet::SetScene(_) => TAG_SET_SCENE,
            Packet::SetPowerState(_) => TAG_SET_POWER_STATE,
            Packet::PressPower => TAG_PRESS_POWER,
            Packet::PressReset => TAG_PRESS_RESET,
            Packet::ResetLink => TAG_RESET_LINK,
            Packet::Log(_) => TAG_LOG,
            Packet::StartTestSession { .. } => TAG_START_TEST_SESSION,
            Packet::StartTest { .. } => TAG_START_TEST,
            Packet::Unknown { tag, .. } => *tag,
        }
    }
}

} // verus!
