//! Lines for the log: what there is to say about a packet that arrived, and about a failure.

use crate::channel::NegotiationError;
use crate::packet::{LogSeverity, Packet, PacketModel};
use crate::transport::TransportError;
use vstd::prelude::*;

verus! {

/// A line for the daemon's log.
#[derive(Clone, Debug, PartialEq, Eq)]
pub struct Report {
    pub severity: LogSeverity,
    pub text: String,
}

/// What a `Report` stands for.
pub struct ReportModel {
    pub severity: LogSeverity,
    pub text: Seq<char>,
}

impl View for Report {
    type V = ReportModel;

    open spec fn view(&self) -> ReportModel {
        ReportModel { severity: self.severity, text: self.text@ }
    }
}

/// The upper-case hexadecimal digit of a number below sixteen.
pub open spec fn upper_hex_digit(n: u8) -> char {
    if n < 10 {
        (0x30 + n) as char
    } else {
        (0x37 + n) as char
    }
}

/// Two upper-case hexadecimal digits for each byte: the high half first.
pub open spec fn upper_hex(data: Seq<u8>) -> Seq<char> {
    Seq::new(
        2 * data.len(),
        |i: int|
            upper_hex_digit(
                if i % 2 == 0 {
                    data[i / 2] / 16
                } else {
                    data[i / 2] % 16
                },
            ),
    )
}

/// `encode_upper` of the hex crate: two digits for each byte of `data`, the high half
/// first, with the letters in upper case.
#[verifier::external_body]
fn hex_upper(data: &[u8]) -> (text: String)
    ensures
        text@ == upper_hex(data@),
{
    hex::encode_upper(data)
}

/// What is logged when the rig announces itself: that it did, its firmware version and
/// its identifier.
pub open spec fn announcement_spec(uid: Seq<u8>, version: Seq<char>) -> Seq<ReportModel> {
    seq![
        ReportModel { severity: LogSeverity::Info, text: "oro link came online"@ },
        ReportModel {
            severity: LogSeverity::Info,
            text: "    link firmware version: "@ + version,
        },
        ReportModel {
            severity: LogSeverity::Info,
            text: "    link UID:              "@ + upper_hex(uid),
        },
    ]
}

/// What is logged about a packet that nothing waits for: a warning with its tag.
pub open spec fn unexpected_spec(packet: PacketModel) -> ReportModel {
    ReportModel {
        severity: LogSeverity::Warn,
        text: "dropping unexpected packet, tag 0x"@ + upper_hex(seq![packet.tag()]),
    }
}

/// The sequence that a vector of reports stands for.
pub open spec fn report_views(reports: Seq<Report>) -> Seq<ReportModel> {
    Seq::new(reports.len(), |i: int| reports[i]@)
}

fn report(severity: LogSeverity, head: &str, tail: &str) -> (report: Report)
    ensures
        report@ == (ReportModel { severity, text: head@ + tail@ }),
{
    let mut text = head.to_owned();
    text.append(tail);
    Report { severity, text }
}

/// The lines to log when the rig announces itself.
pub fn announcement(uid: &[u8; 16], version: &str) -> (reports: Vec<Report>)
    ensures
        report_views(reports@) == announcement_spec(uid@, version@),
{
    let hex = hex_upper(uid.as_slice());
    let mut reports: Vec<Report> = Vec::new();
    reports.push(report(LogSeverity::Info, "oro link came online", ""));
    reports.push(report(LogSeverity::Info, "    link firmware version: ", version));
    reports.push(report(LogSeverity::Info, "    link UID:              ", hex.as_str()));
    proof {
        reveal_strlit("");
        assert("oro link came online"@ + ""@ =~= "oro link came online"@);
        assert(report_views(reports@) =~= announcement_spec(uid@, version@));
    }
    reports
}

/// The line to log about a packet that nothing waits for.
pub fn unexpected(packet: &Packet) -> (report: Report)
    ensures
        report@ == unexpected_spec(packet@),
{
    let tag = [packet.tag()];
    let hex = hex_upper(tag.as_slice());
    assert(tag@ =~= seq![packet@.tag()]);
    report(LogSeverity::Warn, "dropping unexpected packet, tag 0x", hex.as_str())
}

/// What ended a connection, or kept it from beginning.
#[derive(Clone, Copy, Debug, PartialEq, Eq, Structural)]
pub enum Failure {
    /// The stream broke while the session key was negotiated.
    Negotiation(NegotiationError),
    /// The connection broke, or was found broken, after the channel stood.
    Transport(TransportError),
}

/// Whether a failure ends the connection. Only a packet that could not be encoded, and so
/// never reached the stream, leaves it standing.
pub open spec fn is_fatal(failure: Failure) -> bool {
    !(failure matches Failure::Transport(TransportError::Encode(_)))
}

/// What is logged about a failure, so that an operator can tell a failed handshake from a
/// failure in the middle of a session, and a failed read from a failed write, a malformed
/// frame and a malformed packet.
pub open spec fn failure_spec(failure: Failure) -> ReportModel {
    ReportModel {
        severity: if is_fatal(failure) {
            LogSeverity::Error
        } else {
            LogSeverity::Warn
        },
        text: match failure {
            Failure::Negotiation(_) => "failed to negotiate encrypted channel with link: "@,
            Failure::Transport(_) => "oro link peer connection encountered error: "@,
        } + match failure {
            Failure::Negotiation(NegotiationError::Read) | Failure::Transport(
                TransportError::Read,
            ) => "read failed"@,
            Failure::Negotiation(NegotiationError::Write) | Failure::Transport(
                TransportError::Write,
            ) => "write failed"@,
            Failure::Transport(TransportError::Frame(_)) => "malformed frame"@,
            Failure::Transport(TransportError::Decode(_)) => "malformed packet"@,
            Failure::Transport(TransportError::Encode(_)) => "packet cannot be encoded"@,
        },
    }
}

/// Whether a failure ends the connection.
pub fn fatal(failure: Failure) -> (fatal: bool)
    ensures
        fatal == is_fatal(failure),
{
    match failure {
        Failure::Transport(TransportError::Encode(_)) => false,
        _ => true,
    }
}

/// The line to log about a failure.
pub fn failure(cause: Failure) -> (report: Report)
    ensures
        report@ == failure_spec(cause),
{
    let severity = if fatal(cause) {
        LogSeverity::Error
    } else {
        LogSeverity::Warn
    };
    let head = match cause {
        Failure::Negotiation(_) => "failed to negotiate encrypted channel with link: ",
        Failure::Transport(_) => "oro link peer connection encountered error: ",
    };
    let tail = match cause {
        Failure::Negotiation(NegotiationError::Read) | Failure::Transport(
            TransportError::Read,
        ) => "read failed",
        Failure::Negotiation(NegotiationError::Write) | Failure::Transport(
            TransportError::Write,
        ) => "write failed",
        Failure::Transport(TransportError::Frame(_)) => "malformed frame",
        Failure::Transport(TransportError::Decode(_)) => "malformed packet",
        Failure::Transport(TransportError::Encode(_)) => "packet cannot be encoded",
    };
    report(severity, head, tail)
}

} // verus!
