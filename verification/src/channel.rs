//! Negotiation of the session key over a raw stream.
//!
//! Each peer holds a fresh key pair. The initiator writes its public key and then reads
//! the peer's; the responder reads first and then writes. With both public keys exchanged,
//! each peer agrees on the shared secret from its own private scalar and the peer's public
//! key, and the shared secret itself becomes the session key.
//!
//! The negotiator neither touches the stream nor multiplies scalars: it says which of these
//! its driver has to do next, and is told how it went.

use crate::cipher::SessionKey;
use vstd::prelude::*;

verus! {

/// Which peer sends its public key first.
#[derive(Clone, Copy, Debug, PartialEq, Eq, Structural)]
pub enum Side {
    Initiator,
    Responder,
}

/// On which half of the stream a negotiation broke.
#[derive(Clone, Copy, Debug, PartialEq, Eq, Structural)]
pub enum NegotiationError {
    Read,
    Write,
}

/// A private scalar and the public key that belongs to it, made for one negotiation.
#[derive(Clone, Copy)]
pub struct EphemeralKeyPair {
    secret: [u8; 32],
    public: [u8; 32],
}

impl EphemeralKeyPair {
    /// The private scalar.
    pub closed spec fn secret(&self) -> Seq<u8> {
        self.secret@
    }

    /// The public key.
    pub closed spec fn public(&self) -> Seq<u8> {
        self.public@
    }

    /// The pair of a private scalar and its public key.
    pub fn new(secret: [u8; 32], public: [u8; 32]) -> (pair: EphemeralKeyPair)
        ensures
            pair.secret() == secret@,
            pair.public() == public@,
    {
        EphemeralKeyPair { secret, public }
    }

    /// The public key, which is what the peer gets to see.
    pub fn public_key(&self) -> (public: [u8; 32])
        ensures
            public@ == self.public(),
    {
        self.public
    }
}

/// What the driver of a negotiation has to do next. A step can hold key material, so it
/// has no `Debug` form.
pub enum Step {
    /// Write these bytes, the own public key, to the stream.
    Write([u8; 32]),
    /// Read thirty-two bytes, the peer's public key, from the stream.
    Read,
    /// Compute the shared secret of the own private scalar and the peer's public key.
    Agree { secret: [u8; 32], peer_public: [u8; 32] },
    /// Nothing: the channel stands, with this key.
    Established(SessionKey),
    /// Nothing: the connection is unusable and has to be dropped.
    Failed(NegotiationError),
}

/// What the driver reports back. Like a step, an event can hold key material, so it has
/// no `Debug` form either.
#[derive(Clone, Copy)]
pub enum Event {
    Written,
    WriteFailed,
    Received([u8; 32]),
    ReadFailed,
    Agreed([u8; 32]),
}

/// What a `Step` stands for.
pub enum StepModel {
    Write(Seq<u8>),
    Read,
    Agree { secret: Seq<u8>, peer_public: Seq<u8> },
    Established(Seq<u8>),
    Failed(NegotiationError),
}

/// What an `Event` stands for.
pub enum EventModel {
    Written,
    WriteFailed,
    Received(Seq<u8>),
    ReadFailed,
    Agreed(Seq<u8>),
}

/// What a `Negotiator` stands for. The key pair is part of it only while keys are being
/// exchanged.
pub enum NegotiatorModel {
    Exchanging { side: Side, secret: Seq<u8>, public: Seq<u8>, sent: bool, peer: Option<Seq<u8>> },
    Established { key: Seq<u8> },
    Failed { error: NegotiationError },
}

impl View for Step {
    type V = StepModel;

    open spec fn view(&self) -> StepModel {
        match *self {
            Step::Write(public) => StepModel::Write(public@),
            Step::Read => StepModel::Read,
            Step::Agree { secret, peer_public } => StepModel::Agree {
                secret: secret@,
                peer_public: peer_public@,
            },
            Step::Established(key) => StepModel::Established(key@),
            Step::Failed(error) => StepModel::Failed(error),
        }
    }
}

impl View for Event {
    type V = EventModel;

    open spec fn view(&self) -> EventModel {
        match *self {
            Event::Written => EventModel::Written,
            Event::WriteFailed => EventModel::WriteFailed,
            Event::Received(public) => EventModel::Received(public@),
            Event::ReadFailed => EventModel::ReadFailed,
            Event::Agreed(secret) => EventModel::Agreed(secret@),
        }
    }
}

/// A negotiation that has not begun.
pub open spec fn fresh(side: Side, secret: Seq<u8>, public: Seq<u8>) -> NegotiatorModel {
    NegotiatorModel::Exchanging { side, secret, public, sent: false, peer: None }
}

/// What is to be done next in a negotiation.
pub open spec fn pending(n: NegotiatorModel) -> StepModel {
    match n {
        NegotiatorModel::Exchanging { side, secret, public, sent, peer } => {
            if side == Side::Initiator && !sent {
                StepModel::Write(public)
            } else if peer is None {
                StepModel::Read
            } else if !sent {
                StepModel::Write(public)
            } else {
                StepModel::Agree { secret, peer_public: peer->0 }
            }
        },
        NegotiatorModel::Established { key } => StepModel::Established(key),
        NegotiatorModel::Failed { error } => StepModel::Failed(error),
    }
}

/// The negotiation after an event. An event that does not answer the pending step changes
/// nothing.
pub open spec fn after(n: NegotiatorModel, event: EventModel) -> NegotiatorModel {
    match n {
        NegotiatorModel::Exchanging { side, secret, public, sent, peer } => match (
            pending(n),
            event,
        ) {
            (StepModel::Write(_), EventModel::Written) => NegotiatorModel::Exchanging {
                side,
                secret,
                public,
                sent: true,
                peer,
            },
            (StepModel::Write(_), EventModel::WriteFailed) => NegotiatorModel::Failed {
                error: NegotiationError::Write,
            },
            (StepModel::Read, EventModel::Received(peer_public)) => NegotiatorModel::Exchanging {
                side,
                secret,
                public,
                sent,
                peer: Some(peer_public),
            },
            (StepModel::Read, EventModel::ReadFailed) => NegotiatorModel::Failed {
                error: NegotiationError::Read,
            },
            (StepModel::Agree { .. }, EventModel::Agreed(shared)) => NegotiatorModel::Established {
                key: shared,
            },
            _ => n,
        },
        _ => n,
    }
}

enum State {
    Exchanging { side: Side, pair: EphemeralKeyPair, sent: bool, peer: Option<[u8; 32]> },
    Established { key: SessionKey },
    Failed { error: NegotiationError },
}

/// One peer's half of a negotiation.
pub struct Negotiator {
    state: State,
}

impl View for Negotiator {
    type V = NegotiatorModel;

    closed spec fn view(&self) -> NegotiatorModel {
        match self.state {
            State::Exchanging { side, pair, sent, peer } => NegotiatorModel::Exchanging {
                side,
                secret: pair.secret(),
                public: pair.public(),
                sent,
                peer: match peer {
                    Some(public) => Some(public@),
                    None => None,
                },
            },
            State::Established { key } => NegotiatorModel::Established { key: key@ },
            State::Failed { error } => NegotiatorModel::Failed { error },
        }
    }
}

impl Negotiator {
    /// A negotiation that has not begun, for the peer on `side` with the key pair `pair`.
    pub fn new(side: Side, pair: EphemeralKeyPair) -> (negotiator: Negotiator)
        ensures
            negotiator@ == fresh(side, pair.secret(), pair.public()),
    {
        Negotiator { state: State::Exchanging { side, pair, sent: false, peer: None } }
    }

    /// What the driver has to do next.
    pub fn pending(&self) -> (step: Step)
        ensures
            step@ == pending(self@),
    {
        match &self.state {
            State::Exchanging { side, pair, sent, peer } => {
                let first = match side {
                    Side::Initiator => true,
                    Side::Responder => false,
                };
                if first && !*sent {
                    Step::Write(pair.public)
                } else {
                    match peer {
                        None => Step::Read,
                        Some(peer_public) => {
                            if !*sent {
                                Step::Write(pair.public)
                            } else {
                                Step::Agree { secret: pair.secret, peer_public: *peer_public }
                            }
                        },
                    }
                }
            },
            State::Established { key } => Step::Established(*key),
            State::Failed { error } => Step::Failed(*error),
        }
    }

    /// Takes what the driver reports. The shared secret becomes the session key as it is,
    /// and the key pair is gone once the negotiation has ended either way.
    pub fn advance(&mut self, event: Event)
        ensures
            final(self)@ == after(old(self)@, event@),
    {
        let step = self.pending();
        match (step, event) {
            (Step::Write(_), Event::Written) => {
                if let State::Exchanging { side, pair, peer, .. } = &self.state {
                    let next = State::Exchanging {
                        side: *side,
                        pair: *pair,
                        sent: true,
                        peer: *peer,
                    };
                    self.state = next;
                }
            },
            (Step::Write(_), Event::WriteFailed) => {
                self.state = State::Failed { error: NegotiationError::Write };
            },
            (Step::Read, Event::Received(peer_public)) => {
                if let State::Exchanging { side, pair, sent, .. } = &self.state {
                    let next = State::Exchanging {
                        side: *side,
                        pair: *pair,
                        sent: *sent,
                        peer: Some(peer_public),
                    };
                    self.state = next;
                }
            },
            (Step::Read, Event::ReadFailed) => {
                self.state = State::Failed { error: NegotiationError::Read };
            },
            (Step::Agree { .. }, Event::Agreed(shared)) => {
                self.state = State::Established { key: SessionKey::from_shared_secret(shared) };
            },
            _ => {},
        }
    }

    /// The session key, once the channel stands.
    pub fn session_key(&self) -> (key: Option<SessionKey>)
        ensures
            match key {
                Some(k) => self@ == (NegotiatorModel::Established { key: k@ }),
                None => !(self@ is Established),
            },
    {
        match &self.state {
            State::Established { key } => Some(*key),
            _ => None,
        }
    }
}

/// A negotiation that no event can change any more.
pub open spec fn ended(n: NegotiatorModel) -> bool {
    n is Established || n is Failed
}

/// The negotiation after its peer-independent step, the key agreement, where that is what
/// is pending. `agree` stands for the key agreement primitive of the driver.
pub open spec fn settled(
    n: NegotiatorModel,
    agree: spec_fn(Seq<u8>, Seq<u8>) -> Seq<u8>,
) -> NegotiatorModel {
    match pending(n) {
        StepModel::Agree { secret, peer_public } => after(
            n,
            EventModel::Agreed(agree(secret, peer_public)),
        ),
        _ => n,
    }
}

/// The negotiation of a peer whose pending write or read can never complete.
pub open spec fn stalled(n: NegotiatorModel) -> NegotiatorModel {
    match pending(n) {
        StepModel::Write(_) => after(n, EventModel::WriteFailed),
        StepModel::Read => after(n, EventModel::ReadFailed),
        _ => n,
    }
}

/// What a reliable stream pair that buffers nothing does for two negotiations.
///
/// Bytes pass when one peer writes while the other reads. Where both peers write, or both
/// read, or one waits for a peer that has ended, nothing can ever pass, and the pair
/// reports that to whoever waits: a failed write to a writer, a failed read to a reader.
pub open spec fn rendezvous_spec(a: NegotiatorModel, b: NegotiatorModel) -> (
    NegotiatorModel,
    NegotiatorModel,
) {
    match (pending(a), pending(b)) {
        (StepModel::Write(public), StepModel::Read) => (
            after(a, EventModel::Written),
            after(b, EventModel::Received(public)),
        ),
        (StepModel::Read, StepModel::Write(public)) => (
            after(a, EventModel::Received(public)),
            after(b, EventModel::Written),
        ),
        _ => (stalled(a), stalled(b)),
    }
}

/// One round of two negotiations joined by such a stream pair: what the pair does, and
/// then the key agreement of each peer that has both keys.
pub open spec fn pair_round(
    a: NegotiatorModel,
    b: NegotiatorModel,
    agree: spec_fn(Seq<u8>, Seq<u8>) -> Seq<u8>,
) -> (NegotiatorModel, NegotiatorModel) {
    (settled(rendezvous_spec(a, b).0, agree), settled(rendezvous_spec(a, b).1, agree))
}

/// Two rounds, which is as many as a negotiation can take.
pub open spec fn pair_outcome(
    a: NegotiatorModel,
    b: NegotiatorModel,
    agree: spec_fn(Seq<u8>, Seq<u8>) -> Seq<u8>,
) -> (NegotiatorModel, NegotiatorModel) {
    let first = pair_round(a, b, agree);
    pair_round(first.0, first.1, agree)
}

fn stall(n: &mut Negotiator)
    ensures
        final(n)@ == stalled(old(n)@),
{
    match n.pending() {
        Step::Write(_) => n.advance(Event::WriteFailed),
        Step::Read => n.advance(Event::ReadFailed),
        _ => {},
    }
}

/// Joins two negotiations by a reliable stream pair in memory that buffers nothing, for
/// one write and read.
pub fn rendezvous(a: &mut Negotiator, b: &mut Negotiator)
    ensures
        (final(a)@, final(b)@) == rendezvous_spec(old(a)@, old(b)@),
{
    match (a.pending(), b.pending()) {
        (Step::Write(public), Step::Read) => {
            a.advance(Event::Written);
            b.advance(Event::Received(public));
        },
        (Step::Read, Step::Write(public)) => {
            a.advance(Event::Received(public));
            b.advance(Event::Written);
        },
        _ => {
            stall(a);
            stall(b);
        },
    }
}

/// An initiator and a responder joined by a stream pair both end with a session key: each
/// has the secret that the key agreement gives for its own private scalar and the public
/// key of the other. The two keys are therefore one key wherever the key agreement gives
/// both peers the same secret, as Diffie-Hellman does.
pub proof fn lemma_matching_sides_establish(
    secret_a: Seq<u8>,
    public_a: Seq<u8>,
    secret_b: Seq<u8>,
    public_b: Seq<u8>,
    agree: spec_fn(Seq<u8>, Seq<u8>) -> Seq<u8>,
)
    ensures
        pair_outcome(
            fresh(Side::Initiator, secret_a, public_a),
            fresh(Side::Responder, secret_b, public_b),
            agree,
        ) == (
            NegotiatorModel::Established { key: agree(secret_a, public_b) },
            NegotiatorModel::Established { key: agree(secret_b, public_a) },
        ),
        pair_outcome(
            fresh(Side::Responder, secret_b, public_b),
            fresh(Side::Initiator, secret_a, public_a),
            agree,
        ) == (
            NegotiatorModel::Established { key: agree(secret_b, public_a) },
            NegotiatorModel::Established { key: agree(secret_a, public_b) },
        ),
{
}

/// The failure that two peers on the same side see.
pub open spec fn same_side_error(side: Side) -> NegotiationError {
    match side {
        Side::Initiator => NegotiationError::Write,
        Side::Responder => NegotiationError::Read,
    }
}

/// Two peers on the same side do not wait for each other for ever: the first round ends
/// both negotiations, two initiators with a failed write and two responders with a failed
/// read, and nothing changes after that.
pub proof fn lemma_same_sides_fail(
    side: Side,
    secret_a: Seq<u8>,
    public_a: Seq<u8>,
    secret_b: Seq<u8>,
    public_b: Seq<u8>,
    agree: spec_fn(Seq<u8>, Seq<u8>) -> Seq<u8>,
)
    ensures
        pair_round(fresh(side, secret_a, public_a), fresh(side, secret_b, public_b), agree) == (
            NegotiatorModel::Failed { error: same_side_error(side) },
            NegotiatorModel::Failed { error: same_side_error(side) },
        ),
        pair_outcome(fresh(side, secret_a, public_a), fresh(side, secret_b, public_b), agree)
            == pair_round(
            fresh(side, secret_a, public_a),
            fresh(side, secret_b, public_b),
            agree,
        ),
{
}

/// Whatever the driver reports, a negotiation that has ended stays as it is: it never
/// goes from failed to established or back.
pub proof fn lemma_ended_is_final(n: NegotiatorModel, event: EventModel)
    requires
        ended(n),
    ensures
        after(n, event) == n,
{
}

/// A negotiation ends with a key only through a key agreement that follows a completed
/// exchange: a failed read or write never leaves a key.
pub proof fn lemma_failure_leaves_no_key(n: NegotiatorModel, event: EventModel)
    requires
        event is WriteFailed || event is ReadFailed,
    ensures
        after(n, event) is Established ==> n is Established,
{
}

} // verus!
