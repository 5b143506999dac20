use aes::cipher::{BlockDecrypt, BlockEncrypt, KeyInit};
use aes::{Aes256Dec, Aes256Enc};
use oro_link::cipher::SessionKey;
use oro_link::codec::{DecodeError, EncodeError};
use oro_link::packet::{LogEntry, LogSeverity, Packet, Scene};
use oro_link::transport::{frame_len, open, seal, FrameError, Transport, TransportError};

fn transport_key(seed: u8) -> SessionKey {
    let mut secret = [0u8; 32];
    for (i, byte) in secret.iter_mut().enumerate() {
        *byte = seed.wrapping_add(i as u8);
    }
    SessionKey::from_shared_secret(secret)
}

fn transport_encrypt(key: &SessionKey, plain: &[u8]) -> Vec<u8> {
    let cipher = Aes256Enc::new(key.as_bytes().into());
    let mut out = Vec::new();
    for chunk in plain.chunks(16) {
        let mut block = [0u8; 16];
        block.copy_from_slice(chunk);
        cipher.encrypt_block((&mut block).into());
        out.extend_from_slice(&block);
    }
    out
}

fn transport_decrypt(key: &SessionKey, sealed: &[u8]) -> Vec<u8> {
    let cipher = Aes256Dec::new(key.as_bytes().into());
    let mut out = Vec::new();
    for chunk in sealed.chunks(16) {
        let mut block = [0u8; 16];
        block.copy_from_slice(chunk);
        cipher.decrypt_block((&mut block).into());
        out.extend_from_slice(&block);
    }
    out
}

fn transport_first_block(frame: &[u8]) -> [u8; 16] {
    let mut block = [0u8; 16];
    block.copy_from_slice(&frame[..16]);
    block
}

#[test]
fn the_session_key_is_the_shared_secret() {
    let mut secret = [0u8; 32];
    secret[0] = 7;
    secret[31] = 9;
    assert_eq!(SessionKey::from_shared_secret(secret).as_bytes(), &secret);
}

#[test]
fn the_cipher_is_aes_256_on_the_standard_vector() {
    // FIPS-197, appendix C.3.
    let key = transport_key(0);
    let plain = [
        0x00, 0x11, 0x22, 0x33, 0x44, 0x55, 0x66, 0x77, 0x88, 0x99, 0xaa, 0xbb, 0xcc, 0xdd, 0xee,
        0xff,
    ];
    let sealed = [
        0x8e, 0xa2, 0xb7, 0xca, 0x51, 0x67, 0x45, 0xbf, 0xea, 0xfc, 0x49, 0x90, 0x4b, 0x49, 0x60,
        0x89,
    ];
    assert_eq!(transport_encrypt(&key, &plain), sealed);
    // The block announces a packet of 0x00112233 bytes, which is too long.
    assert_eq!(frame_len(&key, &sealed), Err(FrameError::TooLarge));
}

#[test]
fn a_frame_is_the_encrypted_length_packet_and_padding() {
    let key = transport_key(3);
    let frame = seal(&key, &Packet::PressPower).unwrap();
    let mut plain = vec![0u8, 0, 0, 1, 4];
    plain.resize(16, 0);
    assert_eq!(frame, transport_encrypt(&key, &plain));
    assert_eq!(transport_decrypt(&key, &frame), plain);
}

#[test]
fn a_frame_is_a_whole_number_of_blocks() {
    let key = transport_key(1);
    assert_eq!(seal(&key, &Packet::ResetLink).unwrap().len(), 16);
    // 4 bytes of length and 12 of packet fill one block exactly.
    let packet = Packet::StartTest { name: "n".repeat(9) };
    assert_eq!(seal(&key, &packet).unwrap().len(), 16);
    // One byte more needs a second block.
    let packet = Packet::StartTest { name: "n".repeat(10) };
    assert_eq!(seal(&key, &packet).unwrap().len(), 32);
    let packet = Packet::StartTest { name: "n".repeat(0xFFFF) };
    assert_eq!(seal(&key, &packet).unwrap().len(), (4 + 3 + 0xFFFF + 15) / 16 * 16);
}

#[test]
fn a_long_frame_has_its_exact_plaintext() {
    let key = transport_key(9);
    let packet = Packet::StartTest { name: String::from("test_hid_keyboard") };
    let frame = seal(&key, &packet).unwrap();
    let mut plain = vec![0u8, 0, 0, 20, 9, 0, 17];
    plain.extend_from_slice(b"test_hid_keyboard");
    plain.resize(32, 0);
    assert_eq!(transport_decrypt(&key, &frame), plain);
}

#[test]
fn what_is_sealed_opens_to_the_same_packet() {
    let key = transport_key(42);
    let packets = vec![
        Packet::LinkOnline { uid: [0xAA; 16], version: String::from("1.0.0") },
        Packet::SetScene(Scene::Test),
        Packet::PressReset,
        Packet::Log(LogEntry { severity: LogSeverity::Error, message: "m".repeat(1000) }),
        Packet::StartTestSession {
            total_tests: u32::MAX,
            author: String::from("author"),
            title: String::from("title"),
            ref_id: String::from("abcd1234abcd1234abcd1234abcd1234"),
        },
        Packet::Unknown { tag: 99, body: vec![5; 40] },
    ];
    for packet in packets {
        let frame = seal(&key, &packet).unwrap();
        assert_eq!(frame.len() % 16, 0);
        assert_eq!(frame_len(&key, &transport_first_block(&frame)), Ok(frame.len()));
        assert_eq!(open(&key, &frame), Ok(packet));
    }
}

#[test]
fn the_first_block_gives_the_length_of_the_frame() {
    let key = transport_key(5);
    for (announced, frame) in [(0u32, 16usize), (1, 16), (12, 16), (13, 32), (28, 32), (29, 48)] {
        let mut plain = announced.to_be_bytes().to_vec();
        plain.resize(16, 0);
        let block = transport_first_block(&transport_encrypt(&key, &plain));
        assert_eq!(frame_len(&key, &block), Ok(frame));
    }
    let mut plain = 196_616u32.to_be_bytes().to_vec();
    plain.resize(16, 0);
    let block = transport_first_block(&transport_encrypt(&key, &plain));
    assert_eq!(frame_len(&key, &block), Ok(196_624));
    let mut plain = 196_617u32.to_be_bytes().to_vec();
    plain.resize(16, 0);
    let block = transport_first_block(&transport_encrypt(&key, &plain));
    assert_eq!(frame_len(&key, &block), Err(FrameError::TooLarge));
}

#[test]
fn a_frame_of_a_broken_length_is_rejected() {
    let key = transport_key(5);
    assert_eq!(open(&key, &[]), Err(TransportError::Frame(FrameError::BadLength)));
    assert_eq!(open(&key, &[0; 15]), Err(TransportError::Frame(FrameError::BadLength)));
    assert_eq!(open(&key, &[0; 17]), Err(TransportError::Frame(FrameError::BadLength)));
}

#[test]
fn a_frame_that_announces_another_length_is_rejected() {
    let key = transport_key(5);
    // A packet of one byte announced in a frame of two blocks.
    let mut plain = vec![0u8, 0, 0, 1, 4];
    plain.resize(32, 0);
    let frame = transport_encrypt(&key, &plain);
    assert_eq!(open(&key, &frame), Err(TransportError::Frame(FrameError::LengthMismatch)));
    // A packet of twenty bytes announced in a frame of one block.
    let mut plain = vec![0u8, 0, 0, 20, 4];
    plain.resize(16, 0);
    let frame = transport_encrypt(&key, &plain);
    assert_eq!(open(&key, &frame), Err(TransportError::Frame(FrameError::LengthMismatch)));
}

#[test]
fn a_frame_that_announces_too_long_a_packet_is_rejected() {
    let key = transport_key(5);
    let mut plain = vec![0xFFu8, 0xFF, 0xFF, 0xFF];
    plain.resize(16, 0);
    let frame = transport_encrypt(&key, &plain);
    assert_eq!(open(&key, &frame), Err(TransportError::Frame(FrameError::TooLarge)));
}

#[test]
fn a_frame_with_dirty_padding_is_rejected() {
    let key = transport_key(5);
    let mut plain = vec![0u8, 0, 0, 1, 4];
    plain.resize(16, 0);
    plain[15] = 1;
    let frame = transport_encrypt(&key, &plain);
    assert_eq!(open(&key, &frame), Err(TransportError::Frame(FrameError::BadPadding)));
    plain[15] = 0;
    plain[5] = 0x80;
    let frame = transport_encrypt(&key, &plain);
    assert_eq!(open(&key, &frame), Err(TransportError::Frame(FrameError::BadPadding)));
}

#[test]
fn a_frame_with_a_malformed_packet_is_rejected() {
    let key = transport_key(5);
    // Scene 9 does not exist.
    let mut plain = vec![0u8, 0, 0, 2, 2, 9];
    plain.resize(16, 0);
    let frame = transport_encrypt(&key, &plain);
    assert_eq!(open(&key, &frame), Err(TransportError::Decode(DecodeError::InvalidValue)));
    // A frame that carries no packet at all.
    let frame = transport_encrypt(&key, &[0u8; 16]);
    assert_eq!(open(&key, &frame), Err(TransportError::Decode(DecodeError::Empty)));
    // A test start whose name is cut short.
    let mut plain = vec![0u8, 0, 0, 3, 9, 0, 5];
    plain.resize(16, 0);
    let frame = transport_encrypt(&key, &plain);
    assert_eq!(open(&key, &frame), Err(TransportError::Decode(DecodeError::Truncated)));
}

#[test]
fn another_key_does_not_open_a_frame() {
    let frame = seal(&transport_key(1), &Packet::PressPower).unwrap();
    assert!(open(&transport_key(2), &frame).is_err());
    assert_ne!(frame, seal(&transport_key(2), &Packet::PressPower).unwrap());
}

#[test]
fn a_packet_that_cannot_be_encoded_is_not_sealed() {
    let key = transport_key(1);
    let packet = Packet::Unknown { tag: 1, body: vec![] };
    assert_eq!(seal(&key, &packet), Err(EncodeError::ReservedTag));
    let packet = Packet::StartTest { name: "n".repeat(70_000) };
    assert_eq!(seal(&key, &packet), Err(EncodeError::FieldTooLong));
}

#[test]
fn a_transport_sends_and_receives() {
    let mut daemon = Transport::new(transport_key(8));
    let mut rig = Transport::new(transport_key(8));
    let packet = Packet::SetScene(Scene::Logo);
    let frame = daemon.send(&packet).unwrap();
    assert_eq!(frame, seal(&transport_key(8), &packet).unwrap());
    assert_eq!(rig.frame_len(&transport_first_block(&frame)), Ok(frame.len()));
    assert_eq!(rig.receive(&frame), Ok(packet));
    assert_eq!(daemon.failed(), None);
    assert_eq!(rig.failed(), None);
}

#[test]
fn a_failed_write_is_reported_as_such_and_ends_all_writing() {
    let mut transport = Transport::new(transport_key(8));
    assert!(transport.send(&Packet::PressPower).is_ok());
    transport.write_failed();
    assert_eq!(transport.failed(), Some(TransportError::Write));
    assert_ne!(transport.failed(), Some(TransportError::Read));
    for _ in 0..3 {
        assert_eq!(transport.send(&Packet::PressPower), Err(TransportError::Write));
    }
    // Nothing is accepted any more either, and the first failure stays.
    let frame = seal(&transport_key(8), &Packet::PressPower).unwrap();
    assert_eq!(transport.receive(&frame), Err(TransportError::Write));
    assert_eq!(transport.frame_len(&transport_first_block(&frame)), Err(TransportError::Write));
    transport.read_failed();
    assert_eq!(transport.failed(), Some(TransportError::Write));
}

#[test]
fn a_failed_read_is_reported_as_such() {
    let mut transport = Transport::new(transport_key(8));
    transport.read_failed();
    assert_eq!(transport.failed(), Some(TransportError::Read));
    assert_eq!(transport.send(&Packet::PressPower), Err(TransportError::Read));
    transport.write_failed();
    assert_eq!(transport.failed(), Some(TransportError::Read));
}

#[test]
fn a_malformed_frame_ends_the_connection() {
    let key = transport_key(8);
    let mut transport = Transport::new(key);
    let mut plain = vec![0u8, 0, 0, 2, 3, 7];
    plain.resize(16, 0);
    let frame = transport_encrypt(&key, &plain);
    let failure = TransportError::Decode(DecodeError::InvalidValue);
    assert_eq!(transport.receive(&frame), Err(failure));
    assert_eq!(transport.failed(), Some(failure));
    assert_eq!(transport.send(&Packet::PressPower), Err(failure));
}

#[test]
fn too_long_a_frame_ends_the_connection() {
    let key = transport_key(8);
    let mut transport = Transport::new(key);
    let mut plain = vec![0x7Fu8, 0, 0, 0];
    plain.resize(16, 0);
    let block = transport_first_block(&transport_encrypt(&key, &plain));
    let failure = TransportError::Frame(FrameError::TooLarge);
    assert_eq!(transport.frame_len(&block), Err(failure));
    assert_eq!(transport.failed(), Some(failure));
}

#[test]
fn a_packet_that_cannot_be_encoded_leaves_the_connection_open() {
    let mut transport = Transport::new(transport_key(8));
    let packet = Packet::Unknown { tag: 2, body: vec![] };
    assert_eq!(transport.send(&packet), Err(TransportError::Encode(EncodeError::ReservedTag)));
    assert_eq!(transport.failed(), None);
    assert!(transport.send(&Packet::PressPower).is_ok());
}
