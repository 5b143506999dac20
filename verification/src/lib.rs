//! Secure channel, framed packet protocol and test-session state machines shared by the
//! link daemon and the link firmware.
//!
//! Nothing here performs I/O. Each state machine reports what its driver has to do next and
//! is fed what happened, so that both peers run one protocol implementation on top of
//! whatever stream, clock and hardware they have.

pub mod channel;
pub mod cipher;
pub mod codec;
pub mod entropy;
pub mod orchestrator;
pub mod packet;
pub mod report;
pub mod runtime;
pub mod transport;

