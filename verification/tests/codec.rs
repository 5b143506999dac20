use oro_link::codec::{decode, encode, DecodeError, EncodeError};
use oro_link::packet::{LogEntry, LogSeverity, Packet, PowerState, Scene};

fn codec_link_online() -> Packet {
    Packet::LinkOnline { uid: [0xAA; 16], version: String::from("1.0.0") }
}

fn codec_session_start() -> Packet {
    Packet::StartTestSession {
        total_tests: 1337,
        author: String::from("a"),
        title: String::from("bc"),
        ref_id: String::new(),
    }
}

fn codec_samples() -> Vec<Packet> {
    vec![
        codec_link_online(),
        Packet::SetScene(Scene::Logo),
        Packet::SetScene(Scene::Log),
        Packet::SetScene(Scene::Test),
        Packet::SetPowerState(PowerState::On),
        Packet::SetPowerState(PowerState::Off),
        Packet::PressPower,
        Packet::PressReset,
        Packet::ResetLink,
        Packet::Log(LogEntry { severity: LogSeverity::Info, message: String::from("booting") }),
        Packet::Log(LogEntry { severity: LogSeverity::Warn, message: String::new() }),
        Packet::Log(LogEntry {
            severity: LogSeverity::Error,
            message: String::from("né 日本 🦀"),
        }),
        codec_session_start(),
        Packet::StartTest { name: String::from("test_hid_mouse") },
        Packet::Unknown { tag: 0, body: vec![] },
        Packet::Unknown { tag: 200, body: vec![1, 2, 3] },
    ]
}

#[test]
fn every_variant_survives_the_round_trip() {
    for packet in codec_samples() {
        let bytes = encode(&packet).unwrap();
        assert_eq!(decode(&bytes), Ok(packet));
    }
}

#[test]
fn link_online_has_its_exact_bytes() {
    let mut expected = vec![1u8];
    expected.extend_from_slice(&[0xAA; 16]);
    expected.extend_from_slice(&[0, 5]);
    expected.extend_from_slice(b"1.0.0");
    assert_eq!(encode(&codec_link_online()).unwrap(), expected);
}

#[test]
fn commands_have_their_exact_bytes() {
    assert_eq!(encode(&Packet::SetScene(Scene::Logo)).unwrap(), vec![2, 0]);
    assert_eq!(encode(&Packet::SetScene(Scene::Log)).unwrap(), vec![2, 1]);
    assert_eq!(encode(&Packet::SetScene(Scene::Test)).unwrap(), vec![2, 2]);
    assert_eq!(encode(&Packet::SetPowerState(PowerState::Off)).unwrap(), vec![3, 0]);
    assert_eq!(encode(&Packet::SetPowerState(PowerState::On)).unwrap(), vec![3, 1]);
    assert_eq!(encode(&Packet::PressPower).unwrap(), vec![4]);
    assert_eq!(encode(&Packet::PressReset).unwrap(), vec![5]);
    assert_eq!(encode(&Packet::ResetLink).unwrap(), vec![6]);
}

#[test]
fn log_has_its_exact_bytes() {
    let packet = Packet::Log(LogEntry { severity: LogSeverity::Warn, message: String::from("hi") });
    assert_eq!(encode(&packet).unwrap(), vec![7, 1, 0, 2, b'h', b'i']);
    let packet =
        Packet::Log(LogEntry { severity: LogSeverity::Error, message: String::from("é") });
    assert_eq!(encode(&packet).unwrap(), vec![7, 2, 0, 2, 0xC3, 0xA9]);
}

#[test]
fn session_start_has_its_exact_bytes() {
    assert_eq!(
        encode(&codec_session_start()).unwrap(),
        vec![8, 0, 0, 0x05, 0x39, 0, 1, b'a', 0, 2, b'b', b'c', 0, 0]
    );
    let packet = Packet::StartTestSession {
        total_tests: 0x0102_0304,
        author: String::new(),
        title: String::new(),
        ref_id: String::from("r"),
    };
    assert_eq!(encode(&packet).unwrap(), vec![8, 1, 2, 3, 4, 0, 0, 0, 0, 0, 1, b'r']);
}

#[test]
fn test_start_has_its_exact_bytes() {
    let packet = Packet::StartTest { name: String::from("t") };
    assert_eq!(encode(&packet).unwrap(), vec![9, 0, 1, b't']);
}

#[test]
fn a_long_text_has_a_two_byte_length() {
    let name = "x".repeat(0x0123);
    let bytes = encode(&Packet::StartTest { name: name.clone() }).unwrap();
    assert_eq!(&bytes[..3], &[9, 0x01, 0x23]);
    assert_eq!(bytes.len(), 3 + 0x0123);
    assert_eq!(decode(&bytes), Ok(Packet::StartTest { name }));
}

#[test]
fn the_longest_text_is_carried() {
    let name = "y".repeat(0xFFFF);
    let bytes = encode(&Packet::StartTest { name: name.clone() }).unwrap();
    assert_eq!(&bytes[..3], &[9, 0xFF, 0xFF]);
    assert_eq!(decode(&bytes), Ok(Packet::StartTest { name }));
}

#[test]
fn too_long_a_text_is_refused() {
    let name = "z".repeat(0x1_0000);
    assert_eq!(encode(&Packet::StartTest { name }), Err(EncodeError::FieldTooLong));
    let packet = Packet::StartTestSession {
        total_tests: 1,
        author: String::from("a"),
        title: "t".repeat(70_000),
        ref_id: String::from("r"),
    };
    assert_eq!(encode(&packet), Err(EncodeError::FieldTooLong));
}

#[test]
fn too_long_an_unknown_body_is_refused() {
    let packet = Packet::Unknown { tag: 77, body: vec![0; 196_616] };
    assert_eq!(encode(&packet), Err(EncodeError::FieldTooLong));
    let packet = Packet::Unknown { tag: 77, body: vec![0; 196_615] };
    assert_eq!(encode(&packet).unwrap().len(), 196_616);
}

#[test]
fn an_unknown_packet_under_a_known_tag_is_refused() {
    for tag in 1..=9u8 {
        let packet = Packet::Unknown { tag, body: vec![] };
        assert_eq!(encode(&packet), Err(EncodeError::ReservedTag));
    }
    assert!(encode(&Packet::Unknown { tag: 10, body: vec![] }).is_ok());
    assert!(encode(&Packet::Unknown { tag: 0, body: vec![] }).is_ok());
}

#[test]
fn an_unknown_tag_decodes_to_an_unknown_packet() {
    assert_eq!(decode(&[0]), Ok(Packet::Unknown { tag: 0, body: vec![] }));
    assert_eq!(decode(&[10, 9, 8]), Ok(Packet::Unknown { tag: 10, body: vec![9, 8] }));
    assert_eq!(decode(&[255, 0xFF]), Ok(Packet::Unknown { tag: 255, body: vec![0xFF] }));
}

#[test]
fn no_bytes_are_no_packet() {
    assert_eq!(decode(&[]), Err(DecodeError::Empty));
}

#[test]
fn every_cut_of_a_known_packet_is_truncated() {
    for packet in codec_samples() {
        if let Packet::Unknown { .. } = packet {
            continue;
        }
        let bytes = encode(&packet).unwrap();
        for cut in 1..bytes.len() {
            assert_eq!(decode(&bytes[..cut]), Err(DecodeError::Truncated));
        }
    }
}

#[test]
fn a_length_that_promises_too_much_is_truncated() {
    assert_eq!(decode(&[9, 0, 5, b'a', b'b']), Err(DecodeError::Truncated));
    assert_eq!(decode(&[9, 0xFF, 0xFF]), Err(DecodeError::Truncated));
    assert_eq!(decode(&[9, 0]), Err(DecodeError::Truncated));
    assert_eq!(decode(&[9]), Err(DecodeError::Truncated));
    assert_eq!(decode(&[2]), Err(DecodeError::Truncated));
    assert_eq!(decode(&[3]), Err(DecodeError::Truncated));
    assert_eq!(decode(&[7]), Err(DecodeError::Truncated));
    assert_eq!(decode(&[8, 0, 0, 0]), Err(DecodeError::Truncated));
    assert_eq!(decode(&[1, 1, 2, 3]), Err(DecodeError::Truncated));
}

#[test]
fn a_byte_that_names_no_value_is_rejected() {
    assert_eq!(decode(&[2, 3]), Err(DecodeError::InvalidValue));
    assert_eq!(decode(&[3, 2]), Err(DecodeError::InvalidValue));
    assert_eq!(decode(&[7, 3, 0, 0]), Err(DecodeError::InvalidValue));
    assert_eq!(decode(&[2, 255]), Err(DecodeError::InvalidValue));
}

#[test]
fn a_text_that_is_not_utf8_is_rejected() {
    assert_eq!(decode(&[9, 0, 1, 0xFF]), Err(DecodeError::InvalidText));
    assert_eq!(decode(&[9, 0, 2, 0xC3, 0x28]), Err(DecodeError::InvalidText));
    assert_eq!(decode(&[7, 0, 0, 3, 0xED, 0xA0, 0x80]), Err(DecodeError::InvalidText));
    assert_eq!(decode(&[9, 0, 2, 0xC0, 0x80]), Err(DecodeError::InvalidText));
}

#[test]
fn bytes_behind_a_known_packet_are_rejected() {
    assert_eq!(decode(&[4, 0]), Err(DecodeError::TrailingBytes));
    assert_eq!(decode(&[5, 1, 2]), Err(DecodeError::TrailingBytes));
    assert_eq!(decode(&[6, 6]), Err(DecodeError::TrailingBytes));
    assert_eq!(decode(&[2, 0, 0]), Err(DecodeError::TrailingBytes));
    assert_eq!(decode(&[9, 0, 1, b't', 0]), Err(DecodeError::TrailingBytes));
}

#[test]
fn a_decoded_text_is_the_text_and_not_its_bytes() {
    let decoded = decode(&[9, 0, 4, 0xF0, 0x9F, 0xA6, 0x80]).unwrap();
    assert_eq!(decoded, Packet::StartTest { name: String::from("🦀") });
}

#[test]
fn the_tag_of_a_packet_is_its_first_byte() {
    for packet in codec_samples() {
        assert_eq!(encode(&packet).unwrap()[0], packet.tag());
    }
}

#[test]
fn whatever_decodes_is_encoded_in_the_same_bytes() {
    let mut state: u64 = 0x2545_F491_4F6C_DD1D;
    let mut decoded = 0;
    for round in 0..20_000 {
        let mut bytes = Vec::new();
        state = state.wrapping_mul(6364136223846793005).wrapping_add(1442695040888963407);
        let len = (state >> 33) % 24;
        for i in 0..len {
            state = state.wrapping_mul(6364136223846793005).wrapping_add(1442695040888963407);
            let byte = (state >> 56) as u8;
            // Small tags and small lengths, so that many inputs are packets.
            bytes.push(if i < 4 && round % 2 == 0 { byte % 12 } else { byte });
        }
        if let Ok(packet) = decode(&bytes) {
            decoded += 1;
            assert_eq!(encode(&packet).unwrap(), bytes);
        }
    }
    assert!(decoded > 1000);
}
