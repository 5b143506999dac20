use oro_link::channel::NegotiationError;
use oro_link::codec::{DecodeError, EncodeError};
use oro_link::packet::{LogSeverity, Packet, Scene};
use oro_link::report::{announcement, failure, fatal, unexpected, Failure, Report};
use oro_link::transport::{FrameError, TransportError};

#[test]
fn an_announcement_is_logged_in_three_lines() {
    let mut uid = [0u8; 16];
    for (i, byte) in uid.iter_mut().enumerate() {
        *byte = (i as u8) * 17;
    }
    let reports = announcement(&uid, "1.0.0");
    assert_eq!(
        reports,
        vec![
            Report { severity: LogSeverity::Info, text: String::from("oro link came online") },
            Report {
                severity: LogSeverity::Info,
                text: String::from("    link firmware version: 1.0.0"),
            },
            Report {
                severity: LogSeverity::Info,
                text: String::from("    link UID:              00112233445566778899AABBCCDDEEFF"),
            },
        ]
    );
}

#[test]
fn the_identifier_is_logged_in_upper_case_hex() {
    let reports = announcement(&[0xAB; 16], "");
    assert_eq!(reports[2].text, format!("    link UID:              {}", "AB".repeat(16)));
    let reports = announcement(&[0x0F; 16], "");
    assert_eq!(reports[2].text, format!("    link UID:              {}", "0F".repeat(16)));
}

#[test]
fn an_unexpected_packet_is_logged_with_its_tag() {
    assert_eq!(
        unexpected(&Packet::Unknown { tag: 0xC8, body: vec![1] }),
        Report {
            severity: LogSeverity::Warn,
            text: String::from("dropping unexpected packet, tag 0xC8"),
        }
    );
    assert_eq!(
        unexpected(&Packet::SetScene(Scene::Logo)).text,
        "dropping unexpected packet, tag 0x02"
    );
    assert_eq!(unexpected(&Packet::PressPower).text, "dropping unexpected packet, tag 0x04");
}

#[test]
fn every_kind_of_failure_has_its_own_line() {
    let failures = vec![
        Failure::Negotiation(NegotiationError::Read),
        Failure::Negotiation(NegotiationError::Write),
        Failure::Transport(TransportError::Read),
        Failure::Transport(TransportError::Write),
        Failure::Transport(TransportError::Frame(FrameError::BadPadding)),
        Failure::Transport(TransportError::Decode(DecodeError::Truncated)),
        Failure::Transport(TransportError::Encode(EncodeError::ReservedTag)),
    ];
    let texts: Vec<String> = failures.iter().map(|f| failure(*f).text).collect();
    assert_eq!(
        texts,
        vec![
            "failed to negotiate encrypted channel with link: read failed",
            "failed to negotiate encrypted channel with link: write failed",
            "oro link peer connection encountered error: read failed",
            "oro link peer connection encountered error: write failed",
            "oro link peer connection encountered error: malformed frame",
            "oro link peer connection encountered error: malformed packet",
            "oro link peer connection encountered error: packet cannot be encoded",
        ]
    );
    for (i, text) in texts.iter().enumerate() {
        for other in &texts[i + 1..] {
            assert_ne!(text, other);
        }
    }
}

#[test]
fn only_a_packet_that_cannot_be_encoded_leaves_the_connection_standing() {
    let harmless = Failure::Transport(TransportError::Encode(EncodeError::FieldTooLong));
    assert!(!fatal(harmless));
    assert_eq!(failure(harmless).severity, LogSeverity::Warn);
    for cause in [
        Failure::Negotiation(NegotiationError::Read),
        Failure::Negotiation(NegotiationError::Write),
        Failure::Transport(TransportError::Read),
        Failure::Transport(TransportError::Write),
        Failure::Transport(TransportError::Frame(FrameError::TooLarge)),
        Failure::Transport(TransportError::Decode(DecodeError::InvalidText)),
    ] {
        assert!(fatal(cause));
        assert_eq!(failure(cause).severity, LogSeverity::Error);
    }
}
