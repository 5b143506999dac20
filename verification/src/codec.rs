//! The wire format of a packet: one tag byte, then the fields of the variant.
//!
//! Integers travel big-endian. A text travels as a two-byte length followed by that many
//! bytes of UTF-8, so a reader knows after the prefix how many more bytes the field needs.
//! A packet with a tag that this version does not know keeps everything behind the tag as
//! its body.

use crate::packet::{
    LogEntry, LogSeverity, Packet, PacketModel, PowerState, Scene, MAX_BODY_LEN,
    MAX_PACKET_LEN, MAX_TEXT_LEN,
    TAG_LINK_ONLINE, TAG_LOG, TAG_PRESS_POWER, TAG_PRESS_RESET, TAG_RESET_LINK, TAG_SET_POWER_STATE,
    TAG_SET_SCENE, TAG_START_TEST, TAG_START_TEST_SESSION, UID_LEN,
};
use vstd::prelude::*;
use vstd::slice::{slice_subrange, slice_to_vec};
use vstd::utf8::{decode_utf8, encode_utf8, valid_utf8};

verus! {

/// Why a byte sequence is not a packet.
#[derive(Clone, Copy, Debug, PartialEq, Eq, Structural)]
pub enum DecodeError {
    /// There is not even a tag.
    Empty,
    /// The input ends before a field of a known variant is complete.
    Truncated,
    /// A scene, power state or severity byte names no value.
    InvalidValue,
    /// A text field is not UTF-8.
    InvalidText,
    /// Bytes follow the last field of a known variant.
    TrailingBytes,
}

/// Why a packet cannot be put on the wire.
#[derive(Clone, Copy, Debug, PartialEq, Eq, Structural)]
pub enum EncodeError {
    /// A text is longer than `MAX_TEXT_LEN` bytes, or an unknown body longer than
    /// `MAX_BODY_LEN`.
    FieldTooLong,
    /// An unknown packet carries the tag of a known variant.
    ReservedTag,
}

/// The two bytes of `n`, most significant first.
pub open spec fn be16(n: int) -> Seq<u8> {
    seq![(n / 256) as u8, (n % 256) as u8]
}

/// The number that the first two bytes of `s` spell.
pub open spec fn be16_value(s: Seq<u8>) -> int {
    s[0] as int * 256 + s[1] as int
}

/// The four bytes of `n`, most significant first.
pub open spec fn be32(n: int) -> Seq<u8> {
    seq![
        (n / 0x100_0000) as u8,
        (n / 0x1_0000 % 256) as u8,
        (n / 0x100 % 256) as u8,
        (n % 256) as u8,
    ]
}

/// The number that the first four bytes of `s` spell.
pub open spec fn be32_value(s: Seq<u8>) -> int {
    ((s[0] as int * 256 + s[1] as int) * 256 + s[2] as int) * 256 + s[3] as int
}

/// A text on the wire: the length of its UTF-8 form, then that form.
pub open spec fn text_bytes(text: Seq<char>) -> Seq<u8> {
    be16(encode_utf8(text).len() as int) + encode_utf8(text)
}

pub open spec fn scene_code(scene: Scene) -> u8 {
    match scene {
        Scene::Logo => 0,
        Scene::Log => 1,
        Scene::Test => 2,
    }
}

pub open spec fn scene_of(code: u8) -> Option<Scene> {
    if code == 0 {
        Some(Scene::Logo)
    } else if code == 1 {
        Some(Scene::Log)
    } else if code == 2 {
        Some(Scene::Test)
    } else {
        None
    }
}

pub open spec fn power_code(state: PowerState) -> u8 {
    match state {
        PowerState::Off => 0,
        PowerState::On => 1,
    }
}

pub open spec fn power_of(code: u8) -> Option<PowerState> {
    if code == 0 {
        Some(PowerState::Off)
    } else if code == 1 {
        Some(PowerState::On)
    } else {
        None
    }
}

pub open spec fn severity_code(severity: LogSeverity) -> u8 {
    match severity {
        LogSeverity::Info => 0,
        LogSeverity::Warn => 1,
        LogSeverity::Error => 2,
    }
}

pub open spec fn severity_of(code: u8) -> Option<LogSeverity> {
    if code == 0 {
        Some(LogSeverity::Info)
    } else if code == 1 {
        Some(LogSeverity::Warn)
    } else if code == 2 {
        Some(LogSeverity::Error)
    } else {
        None
    }
}

/// The bytes of a packet on the wire.
pub open spec fn encode_spec(packet: PacketModel) -> Seq<u8> {
    match packet {
        PacketModel::LinkOnline { uid, version } => seq![TAG_LINK_ONLINE] + uid + text_bytes(
            version,
        ),
        PacketModel::SetScene(scene) => seq![TAG_SET_SCENE, scene_code(scene)],
        PacketModel::SetPowerState(state) => seq![TAG_SET_POWER_STATE, power_code(state)],
        PacketModel::PressPower => seq![TAG_PRESS_POWER],
        PacketModel::PressReset => seq![TAG_PRESS_RESET],
        PacketModel::ResetLink => seq![TAG_RESET_LINK],
        PacketModel::Log { severity, message } => seq![TAG_LOG, severity_code(severity)]
            + text_bytes(message),
        PacketModel::StartTestSession { total_tests, author, title, ref_id } => seq![
            TAG_START_TEST_SESSION,
        ] + be32(total_tests as int) + text_bytes(author) + text_bytes(title) + text_bytes(
            ref_id,
        ),
        PacketModel::StartTest { name } => seq![TAG_START_TEST] + text_bytes(name),
        PacketModel::Unknown { tag, body } => seq![tag] + body,
    }
}

/// Reads one text from the front of `rest`: the text and what follows it.
#[verifier::opaque]
pub open spec fn parse_text(rest: Seq<u8>) -> Result<(Seq<char>, Seq<u8>), DecodeError> {
    if rest.len() < 2 {
        Err(DecodeError::Truncated)
    } else if rest.len() < 2 + be16_value(rest) {
        Err(DecodeError::Truncated)
    } else if !valid_utf8(rest.subrange(2, 2 + be16_value(rest))) {
        Err(DecodeError::InvalidText)
    } else {
        Ok((decode_utf8(rest.subrange(2, 2 + be16_value(rest))), rest.skip(2 + be16_value(rest))))
    }
}

/// A known variant is complete only when nothing follows its last field.
pub open spec fn parse_end(packet: PacketModel, rest: Seq<u8>) -> Result<
    PacketModel,
    DecodeError,
> {
    if rest.len() == 0 {
        Ok(packet)
    } else {
        Err(DecodeError::TrailingBytes)
    }
}

pub open spec fn decode_link_online(rest: Seq<u8>) -> Result<PacketModel, DecodeError> {
    if rest.len() < UID_LEN {
        Err(DecodeError::Truncated)
    } else {
        match parse_text(rest.skip(UID_LEN as int)) {
            Err(e) => Err(e),
            Ok((version, tail)) => parse_end(
                PacketModel::LinkOnline { uid: rest.subrange(0, UID_LEN as int), version },
                tail,
            ),
        }
    }
}

pub open spec fn decode_set_scene(rest: Seq<u8>) -> Result<PacketModel, DecodeError> {
    if rest.len() < 1 {
        Err(DecodeError::Truncated)
    } else {
        match scene_of(rest[0]) {
            None => Err(DecodeError::InvalidValue),
            Some(scene) => parse_end(PacketModel::SetScene(scene), rest.skip(1)),
        }
    }
}

pub open spec fn decode_set_power_state(rest: Seq<u8>) -> Result<PacketModel, DecodeError> {
    if rest.len() < 1 {
        Err(DecodeError::Truncated)
    } else {
        match power_of(rest[0]) {
            None => Err(DecodeError::InvalidValue),
            Some(state) => parse_end(PacketModel::SetPowerState(state), rest.skip(1)),
        }
    }
}

pub open spec fn decode_log(rest: Seq<u8>) -> Result<PacketModel, DecodeError> {
    if rest.len() < 1 {
        Err(DecodeError::Truncated)
    } else {
        match severity_of(rest[0]) {
            None => Err(DecodeError::InvalidValue),
            Some(severity) => match parse_text(rest.skip(1)) {
                Err(e) => Err(e),
                Ok((message, tail)) => parse_end(PacketModel::Log { severity, message }, tail),
            },
        }
    }
}

pub open spec fn decode_start_test_session(rest: Seq<u8>) -> Result<PacketModel, DecodeError> {
    if rest.len() < 4 {
        Err(DecodeError::Truncated)
    } else {
        match parse_text(rest.skip(4)) {
            Err(e) => Err(e),
            Ok((author, after_author)) => match parse_text(after_author) {
                Err(e) => Err(e),
                Ok((title, after_title)) => match parse_text(after_title) {
                    Err(e) => Err(e),
                    Ok((ref_id, tail)) => parse_end(
                        PacketModel::StartTestSession {
                            total_tests: be32_value(rest) as u32,
                            author,
                            title,
                            ref_id,
                        },
                        tail,
                    ),
                },
            },
        }
    }
}

pub open spec fn decode_start_test(rest: Seq<u8>) -> Result<PacketModel, DecodeError> {
    match parse_text(rest) {
        Err(e) => Err(e),
        Ok((name, tail)) => parse_end(PacketModel::StartTest { name }, tail),
    }
}

/// The packet that `bytes` spell, or why they spell none.
///
/// An unknown tag is no error: it gives `Unknown` with everything behind the tag as body.
pub open spec fn decode_spec(bytes: Seq<u8>) -> Result<PacketModel, DecodeError> {
    if bytes.len() == 0 {
        Err(DecodeError::Empty)
    } else {
        let tag = bytes[0];
        let rest = bytes.skip(1);
        if tag == TAG_LINK_ONLINE {
            decode_link_online(rest)
        } else if tag == TAG_SET_SCENE {
            decode_set_scene(rest)
        } else if tag == TAG_SET_POWER_STATE {
            decode_set_power_state(rest)
        } else if tag == TAG_PRESS_POWER {
            parse_end(PacketModel::PressPower, rest)
        } else if tag == TAG_PRESS_RESET {
            parse_end(PacketModel::PressReset, rest)
        } else if tag == TAG_RESET_LINK {
            parse_end(PacketModel::ResetLink, rest)
        } else if tag == TAG_LOG {
            decode_log(rest)
        } else if tag == TAG_START_TEST_SESSION {
            decode_start_test_session(rest)
        } else if tag == TAG_START_TEST {
            decode_start_test(rest)
        } else {
            Ok(PacketModel::Unknown { tag, body: rest })
        }
    }
}

/// What `encode` answers for a packet.
pub open spec fn encode_outcome(packet: PacketModel) -> Result<Seq<u8>, EncodeError> {
    if packet.wf() {
        Ok(encode_spec(packet))
    } else if packet is Unknown && crate::packet::is_known_tag(packet.tag()) {
        Err(EncodeError::ReservedTag)
    } else {
        Err(EncodeError::FieldTooLong)
    }
}

/// `String::from_utf8` of std: the text that `bytes` encode, where they are UTF-8, and
/// nothing where they are not.
#[verifier::external_body]
fn string_from_utf8(bytes: Vec<u8>) -> (text: Option<String>)
    ensures
        match text {
            Some(t) => valid_utf8(bytes@) && t@ == decode_utf8(bytes@),
            None => !valid_utf8(bytes@),
        },
{
    match String::from_utf8(bytes) {
        Ok(text) => Some(text),
        Err(_) => None,
    }
}

pub(crate) fn push_bytes(out: &mut Vec<u8>, data: &[u8])
    ensures
        final(out)@ == old(out)@ + data@,
{
    let mut i: usize = 0;
    while i < data.len()
        invariant
            i <= data.len(),
            out@ == old(out)@ + data@.take(i as int),
        decreases data.len() - i,
    {
        out.push(data[i]);
        i += 1;
        assert(out@ =~= old(out)@ + data@.take(i as int));
    }
    assert(data@.take(data.len() as int) =~= data@);
}

fn push_be16(out: &mut Vec<u8>, n: u16)
    ensures
        final(out)@ == old(out)@ + be16(n as int),
{
    out.push((n / 256) as u8);
    out.push((n % 256) as u8);
    assert(out@ =~= old(out)@ + be16(n as int));
}

pub(crate) fn push_be32(out: &mut Vec<u8>, n: u32)
    ensures
        final(out)@ == old(out)@ + be32(n as int),
{
    out.push((n / 0x100_0000) as u8);
    out.push((n / 0x1_0000 % 256) as u8);
    out.push((n / 0x100 % 256) as u8);
    out.push((n % 256) as u8);
    assert(out@ =~= old(out)@ + be32(n as int));
}

/// Appends `text` as a field, unless it is too long for the length prefix.
fn push_text(out: &mut Vec<u8>, text: &str) -> (fits: bool)
    ensures
        fits == crate::packet::text_fits(text@),
        fits ==> final(out)@ == old(out)@ + text_bytes(text@),
        !fits ==> final(out)@ == old(out)@,
{
    let raw = text.as_bytes();
    if raw.len() > MAX_TEXT_LEN {
        return false;
    }
    push_be16(out, raw.len() as u16);
    push_bytes(out, raw);
    assert(out@ =~= old(out)@ + text_bytes(text@));
    true
}

fn scene_byte(scene: Scene) -> (code: u8)
    ensures
        code == scene_code(scene),
{
    match scene {
        Scene::Logo => 0,
        Scene::Log => 1,
        Scene::Test => 2,
    }
}

fn power_byte(state: PowerState) -> (code: u8)
    ensures
        code == power_code(state),
{
    match state {
        PowerState::Off => 0,
        PowerState::On => 1,
    }
}

fn severity_byte(severity: LogSeverity) -> (code: u8)
    ensures
        code == severity_code(severity),
{
    match severity {
        LogSeverity::Info => 0,
        LogSeverity::Warn => 1,
        LogSeverity::Error => 2,
    }
}

/// Puts a packet on the wire.
///
/// Fails exactly on the packets that the format cannot carry: one with too long a text or
/// too long an unknown body, or an unknown packet under a known tag.
pub fn encode(packet: &Packet) -> (res: Result<Vec<u8>, EncodeError>)
    ensures
        match res {
            Ok(bytes) => encode_outcome(packet@) == Ok::<Seq<u8>, EncodeError>(bytes@),
            Err(e) => encode_outcome(packet@) == Err::<Seq<u8>, EncodeError>(e),
        },
{
    let mut out: Vec<u8> = Vec::new();
    out.push(packet.tag());
    assert(out@ =~= seq![packet@.tag()]);
    let fits = match packet {
        Packet::LinkOnline { uid, version } => {
            push_bytes(&mut out, uid.as_slice());
            push_text(&mut out, version.as_str())
        },
        Packet::SetScene(scene) => {
            out.push(scene_byte(*scene));
            assert(out@ =~= encode_spec(packet@));
            true
        },
        Packet::SetPowerState(state) => {
            out.push(power_byte(*state));
            assert(out@ =~= encode_spec(packet@));
            true
        },
        Packet::PressPower | Packet::PressReset | Packet::ResetLink => true,
        Packet::Log(entry) => {
            out.push(severity_byte(entry.severity));
            assert(out@ =~= seq![TAG_LOG, severity_code(entry.severity)]);
            push_text(&mut out, entry.message.as_str())
        },
        Packet::StartTestSession { total_tests, author, title, ref_id } => {
            push_be32(&mut out, *total_tests);
            push_text(&mut out, author.as_str()) && push_text(&mut out, title.as_str())
                && push_text(&mut out, ref_id.as_str())
        },
        Packet::StartTest { name } => push_text(&mut out, name.as_str()),
        Packet::Unknown { tag, body } => {
            if *tag >= TAG_LINK_ONLINE && *tag <= TAG_START_TEST {
                return Err(EncodeError::ReservedTag);
            }
            if body.len() > MAX_BODY_LEN {
                false
            } else {
                push_bytes(&mut out, body.as_slice());
                true
            }
        },
    };
    if fits {
        Ok(out)
    } else {
        Err(EncodeError::FieldTooLong)
    }
}

fn take_text(bytes: &[u8], pos: usize) -> (res: Result<(String, usize), DecodeError>)
    requires
        pos <= bytes.len(),
    ensures
        match res {
            Ok((text, next)) => pos <= next <= bytes.len() && parse_text(bytes@.skip(pos as int))
                == Ok::<(Seq<char>, Seq<u8>), DecodeError>((text@, bytes@.skip(next as int))),
            Err(e) => parse_text(bytes@.skip(pos as int)) == Err::<
                (Seq<char>, Seq<u8>),
                DecodeError,
            >(e),
        },
{
    let ghost rest = bytes@.skip(pos as int);
    proof {
        reveal(parse_text);
    }
    if bytes.len() - pos < 2 {
        return Err(DecodeError::Truncated);
    }
    let len: usize = bytes[pos] as usize * 256 + bytes[pos + 1] as usize;
    assert(len == be16_value(rest));
    if bytes.len() - pos - 2 < len {
        return Err(DecodeError::Truncated);
    }
    let raw = slice_to_vec(slice_subrange(bytes, pos + 2, pos + 2 + len));
    assert(raw@ =~= rest.subrange(2, 2 + len));
    assert(bytes@.skip((pos + 2 + len) as int) =~= rest.skip(2 + len));
    match string_from_utf8(raw) {
        None => Err(DecodeError::InvalidText),
        Some(text) => Ok((text, pos + 2 + len)),
    }
}

fn take_uid(bytes: &[u8], pos: usize) -> (uid: [u8; 16])
    requires
        pos + UID_LEN <= bytes.len(),
    ensures
        uid@ == bytes@.subrange(pos as int, pos + UID_LEN),
{
    let mut uid = [0u8; 16];
    let mut i: usize = 0;
    while i < UID_LEN
        invariant
            i <= UID_LEN,
            pos + UID_LEN <= bytes.len(),
            forall|j: int| 0 <= j < i ==> uid@[j] == bytes@[pos + j],
        decreases UID_LEN - i,
    {
        uid[i] = bytes[pos + i];
        i += 1;
    }
    assert(uid@ =~= bytes@.subrange(pos as int, pos + UID_LEN));
    uid
}

fn finish(packet: Packet, bytes: &[u8], pos: usize) -> (res: Result<Packet, DecodeError>)
    requires
        pos <= bytes.len(),
    ensures
        match res {
            Ok(p) => parse_end(packet@, bytes@.skip(pos as int)) == Ok::<PacketModel, DecodeError>(
                p@,
            ),
            Err(e) => parse_end(packet@, bytes@.skip(pos as int)) == Err::<
                PacketModel,
                DecodeError,
            >(e),
        },
{
    if pos == bytes.len() {
        Ok(packet)
    } else {
        Err(DecodeError::TrailingBytes)
    }
}

/// Reads a packet from the bytes of one whole message.
///
/// Fails on a known tag whose fields are cut short, hold a byte that names no value or a
/// text that is not UTF-8, or are followed by more bytes; an unknown tag gives `Unknown`.
pub fn decode(bytes: &[u8]) -> (res: Result<Packet, DecodeError>)
    ensures
        match res {
            Ok(packet) => decode_spec(bytes@) == Ok::<PacketModel, DecodeError>(packet@),
            Err(e) => decode_spec(bytes@) == Err::<PacketModel, DecodeError>(e),
        },
{
    if bytes.len() == 0 {
        return Err(DecodeError::Empty);
    }
    let tag = bytes[0];
    let ghost rest = bytes@.skip(1);
    if tag == TAG_LINK_ONLINE {
        if bytes.len() - 1 < UID_LEN {
            return Err(DecodeError::Truncated);
        }
        let uid = take_uid(bytes, 1);
        assert(uid@ =~= rest.subrange(0, UID_LEN as int));
        assert(bytes@.skip(1 + UID_LEN) =~= rest.skip(UID_LEN as int));
        let (version, next) = take_text(bytes, 1 + UID_LEN)?;
        finish(Packet::LinkOnline { uid, version }, bytes, next)
    } else if tag == TAG_SET_SCENE {
        if bytes.len() < 2 {
            return Err(DecodeError::Truncated);
        }
        assert(bytes@.skip(2) =~= rest.skip(1));
        let code = bytes[1];
        let scene = if code == 0 {
            Scene::Logo
        } else if code == 1 {
            Scene::Log
        } else if code == 2 {
            Scene::Test
        } else {
            return Err(DecodeError::InvalidValue);
        };
        finish(Packet::SetScene(scene), bytes, 2)
    } else if tag == TAG_SET_POWER_STATE {
        if bytes.len() < 2 {
            return Err(DecodeError::Truncated);
        }
        assert(bytes@.skip(2) =~= rest.skip(1));
        let code = bytes[1];
        let state = if code == 0 {
            PowerState::Off
        } else if code == 1 {
            PowerState::On
        } else {
            return Err(DecodeError::InvalidValue);
        };
        finish(Packet::SetPowerState(state), bytes, 2)
    } else if tag == TAG_PRESS_POWER {
        finish(Packet::PressPower, bytes, 1)
    } else if tag == TAG_PRESS_RESET {
        finish(Packet::PressReset, bytes, 1)
    } else if tag == TAG_RESET_LINK {
        finish(Packet::ResetLink, bytes, 1)
    } else if tag == TAG_LOG {
        if bytes.len() < 2 {
            return Err(DecodeError::Truncated);
        }
        assert(bytes@.skip(2) =~= rest.skip(1));
        let code = bytes[1];
        let severity = if code == 0 {
            LogSeverity::Info
        } else if code == 1 {
            LogSeverity::Warn
        } else if code == 2 {
            LogSeverity::Error
        } else {
            return Err(DecodeError::InvalidValue);
        };
        let (message, next) = take_text(bytes, 2)?;
        finish(Packet::Log(LogEntry { severity, message }), bytes, next)
    } else if tag == TAG_START_TEST_SESSION {
        if bytes.len() - 1 < 4 {
            return Err(DecodeError::Truncated);
        }
        assert(bytes@.skip(5) =~= rest.skip(4));
        let total_tests: u32 = ((bytes[1] as u32 * 256 + bytes[2] as u32) * 256
            + bytes[3] as u32) * 256 + bytes[4] as u32;
        assert(total_tests == be32_value(rest));
        let (author, after_author) = take_text(bytes, 5)?;
        let (title, after_title) = take_text(bytes, after_author)?;
        let (ref_id, next) = take_text(bytes, after_title)?;
        finish(Packet::StartTestSession { total_tests, author, title, ref_id }, bytes, next)
    } else if tag == TAG_START_TEST {
        let (name, next) = take_text(bytes, 1)?;
        finish(Packet::StartTest { name }, bytes, next)
    } else {
        let body = slice_to_vec(slice_subrange(bytes, 1, bytes.len()));
        assert(body@ =~= rest);
        Ok(Packet::Unknown { tag, body })
    }
}

proof fn lemma_be16_value(n: int, tail: Seq<u8>)
    requires
        0 <= n <= MAX_TEXT_LEN,
    ensures
        be16_value(be16(n) + tail) == n,
{
}

proof fn lemma_be32_value(n: u32, tail: Seq<u8>)
    ensures
        be32_value(be32(n as int) + tail) == n,
{
}

/// A text that was written is read back, and reading stops where the text ends.
proof fn lemma_parse_text(text: Seq<char>, tail: Seq<u8>)
    requires
        crate::packet::text_fits(text),
    ensures
        parse_text(text_bytes(text) + tail) == Ok::<(Seq<char>, Seq<u8>), DecodeError>(
            (text, tail),
        ),
{
    broadcast use vstd::utf8::encode_utf8_valid_utf8, vstd::utf8::encode_utf8_decode_utf8;

    reveal(parse_text);
    let raw = encode_utf8(text);
    let all = text_bytes(text) + tail;
    lemma_be16_value(raw.len() as int, raw + tail);
    assert(all =~= be16(raw.len() as int) + (raw + tail));
    assert(all.subrange(2, 2 + raw.len() as int) =~= raw);
    assert(all.skip(2 + raw.len() as int) =~= tail);
}

/// Reading a text from a prefix of what was written: cut inside the text, the input is
/// truncated; cut behind it, the text is read and the rest is cut instead.
proof fn lemma_parse_text_prefix(text: Seq<char>, tail: Seq<u8>, k: int)
    requires
        crate::packet::text_fits(text),
        0 <= k <= text_bytes(text).len() + tail.len(),
    ensures
        k < text_bytes(text).len() ==> parse_text((text_bytes(text) + tail).take(k)) == Err::<
            (Seq<char>, Seq<u8>),
            DecodeError,
        >(DecodeError::Truncated),
        k >= text_bytes(text).len() ==> parse_text((text_bytes(text) + tail).take(k)) == Ok::<
            (Seq<char>, Seq<u8>),
            DecodeError,
        >((text, tail.take(k - text_bytes(text).len()))),
{
    reveal(parse_text);
    let raw = encode_utf8(text);
    let field = text_bytes(text);
    let cut = (field + tail).take(k);
    if k >= field.len() {
        assert(cut =~= field + tail.take(k - field.len()));
        lemma_parse_text(text, tail.take(k - field.len()));
    } else if k >= 2 {
        lemma_be16_value(raw.len() as int, raw + tail);
        assert(field + tail =~= be16(raw.len() as int) + (raw + tail));
        assert(cut[0] == (field + tail)[0]);
        assert(cut[1] == (field + tail)[1]);
    }
}

proof fn lemma_link_online_fields(uid: Seq<u8>, version: Seq<char>, m: int)
    requires
        uid.len() == UID_LEN,
        crate::packet::text_fits(version),
        0 <= m <= (uid + text_bytes(version)).len(),
    ensures
        m == (uid + text_bytes(version)).len() ==> decode_link_online(uid + text_bytes(version))
            == Ok::<PacketModel, DecodeError>(PacketModel::LinkOnline { uid, version }),
        m < (uid + text_bytes(version)).len() ==> decode_link_online(
            (uid + text_bytes(version)).take(m),
        ) == Err::<PacketModel, DecodeError>(DecodeError::Truncated),
{
    let none = Seq::<u8>::empty();
    let fields = uid + text_bytes(version);
    if m == fields.len() {
        assert(fields.skip(UID_LEN as int) =~= text_bytes(version) + none);
        assert(fields.subrange(0, UID_LEN as int) =~= uid);
        lemma_parse_text(version, none);
    } else if m >= UID_LEN {
        assert(fields.take(m).skip(UID_LEN as int) =~= (text_bytes(version) + none).take(
            m - UID_LEN,
        ));
        lemma_parse_text_prefix(version, none, m - UID_LEN);
    }
}

proof fn lemma_log_fields(severity: LogSeverity, message: Seq<char>, m: int)
    requires
        crate::packet::text_fits(message),
        0 <= m <= (seq![severity_code(severity)] + text_bytes(message)).len(),
    ensures
        m == (seq![severity_code(severity)] + text_bytes(message)).len() ==> decode_log(
            seq![severity_code(severity)] + text_bytes(message),
        ) == Ok::<PacketModel, DecodeError>(PacketModel::Log { severity, message }),
        m < (seq![severity_code(severity)] + text_bytes(message)).len() ==> decode_log(
            (seq![severity_code(severity)] + text_bytes(message)).take(m),
        ) == Err::<PacketModel, DecodeError>(DecodeError::Truncated),
{
    let none = Seq::<u8>::empty();
    let fields = seq![severity_code(severity)] + text_bytes(message);
    if m == fields.len() {
        assert(fields.skip(1) =~= text_bytes(message) + none);
        lemma_parse_text(message, none);
    } else if m >= 1 {
        assert(fields.take(m)[0] == fields[0]);
        assert(fields.take(m).skip(1) =~= (text_bytes(message) + none).take(m - 1));
        lemma_parse_text_prefix(message, none, m - 1);
    }
}

/// The fields of a session start on the wire.
pub open spec fn session_fields(
    total_tests: u32,
    author: Seq<char>,
    title: Seq<char>,
    ref_id: Seq<char>,
) -> Seq<u8> {
    be32(total_tests as int) + text_bytes(author) + text_bytes(title) + text_bytes(ref_id)
}

proof fn lemma_session_fields(
    total_tests: u32,
    author: Seq<char>,
    title: Seq<char>,
    ref_id: Seq<char>,
    m: int,
)
    requires
        crate::packet::text_fits(author),
        crate::packet::text_fits(title),
        crate::packet::text_fits(ref_id),
        0 <= m <= session_fields(total_tests, author, title, ref_id).len(),
    ensures
        m == session_fields(total_tests, author, title, ref_id).len()
            ==> decode_start_test_session(session_fields(total_tests, author, title, ref_id))
            == Ok::<PacketModel, DecodeError>(
            PacketModel::StartTestSession { total_tests, author, title, ref_id },
        ),
        m < session_fields(total_tests, author, title, ref_id).len()
            ==> decode_start_test_session(
            session_fields(total_tests, author, title, ref_id).take(m),
        ) == Err::<PacketModel, DecodeError>(DecodeError::Truncated),
{
    let none = Seq::<u8>::empty();
    let a = text_bytes(author);
    let t = text_bytes(title);
    let r = text_bytes(ref_id);
    let fields = session_fields(total_tests, author, title, ref_id);
    assert(fields =~= be32(total_tests as int) + (a + (t + r)));
    if m == fields.len() {
        lemma_be32_value(total_tests, a + (t + r));
        assert(fields.skip(4) =~= a + (t + r));
        lemma_parse_text(author, t + r);
        lemma_parse_text(title, r);
        assert(r =~= r + none);
        lemma_parse_text(ref_id, none);
    } else if m >= 4 {
        let k = m - 4;
        assert(fields.take(m).skip(4) =~= (a + (t + r)).take(k));
        lemma_parse_text_prefix(author, t + r, k);
        if k >= a.len() {
            lemma_parse_text_prefix(title, r, k - a.len());
            if k - a.len() >= t.len() {
                assert(r.take(k - a.len() - t.len()) =~= (r + none).take(k - a.len() - t.len()));
                lemma_parse_text_prefix(ref_id, none, k - a.len() - t.len());
            }
        }
    }
}

proof fn lemma_start_test_fields(name: Seq<char>, m: int)
    requires
        crate::packet::text_fits(name),
        0 <= m <= text_bytes(name).len(),
    ensures
        m == text_bytes(name).len() ==> decode_start_test(text_bytes(name)) == Ok::<
            PacketModel,
            DecodeError,
        >(PacketModel::StartTest { name }),
        m < text_bytes(name).len() ==> decode_start_test(text_bytes(name).take(m)) == Err::<
            PacketModel,
            DecodeError,
        >(DecodeError::Truncated),
{
    let none = Seq::<u8>::empty();
    assert(text_bytes(name) =~= text_bytes(name) + none);
    lemma_parse_text_prefix(name, none, m);
    lemma_parse_text(name, none);
}

/// No packet that can be encoded is longer than `MAX_PACKET_LEN`.
pub proof fn lemma_encoded_len(packet: PacketModel)
    requires
        packet.wf(),
    ensures
        1 <= encode_spec(packet).len() <= MAX_PACKET_LEN,
{
}

/// Decoding what was encoded gives the packet back, for every packet that can be encoded.
pub proof fn lemma_encode_then_decode(packet: PacketModel)
    requires
        packet.wf(),
    ensures
        decode_spec(encode_spec(packet)) == Ok::<PacketModel, DecodeError>(packet),
{
    let bytes = encode_spec(packet);
    let rest = bytes.skip(1);
    let none = Seq::<u8>::empty();
    match packet {
        PacketModel::LinkOnline { uid, version } => {
            assert(rest =~= uid + text_bytes(version));
            lemma_link_online_fields(uid, version, rest.len() as int);
        },
        PacketModel::SetScene(scene) => {
            assert(rest.skip(1) =~= none);
        },
        PacketModel::SetPowerState(state) => {
            assert(rest.skip(1) =~= none);
        },
        PacketModel::PressPower | PacketModel::PressReset | PacketModel::ResetLink => {
            assert(rest =~= none);
        },
        PacketModel::Log { severity, message } => {
            assert(rest =~= seq![severity_code(severity)] + text_bytes(message));
            lemma_log_fields(severity, message, rest.len() as int);
        },
        PacketModel::StartTestSession { total_tests, author, title, ref_id } => {
            assert(rest =~= session_fields(total_tests, author, title, ref_id));
            lemma_session_fields(total_tests, author, title, ref_id, rest.len() as int);
        },
        PacketModel::StartTest { name } => {
            assert(rest =~= text_bytes(name));
            lemma_start_test_fields(name, rest.len() as int);
        },
        PacketModel::Unknown { tag, body } => {
            assert(rest =~= body);
        },
    }
}

/// A packet of a known variant that is cut short anywhere behind its tag is rejected as
/// truncated.
pub proof fn lemma_truncated_is_rejected(packet: PacketModel, n: int)
    requires
        packet.wf(),
        crate::packet::is_known_tag(packet.tag()),
        1 <= n < encode_spec(packet).len(),
    ensures
        decode_spec(encode_spec(packet).take(n)) == Err::<PacketModel, DecodeError>(
            DecodeError::Truncated,
        ),
{
    let bytes = encode_spec(packet);
    let cut = bytes.take(n);
    let rest = cut.skip(1);
    assert(cut[0] == bytes[0]);
    match packet {
        PacketModel::LinkOnline { uid, version } => {
            assert(rest =~= (uid + text_bytes(version)).take(n - 1));
            lemma_link_online_fields(uid, version, n - 1);
        },
        PacketModel::SetScene(_) | PacketModel::SetPowerState(_) => {},
        PacketModel::PressPower | PacketModel::PressReset | PacketModel::ResetLink => {},
        PacketModel::Log { severity, message } => {
            assert(rest =~= (seq![severity_code(severity)] + text_bytes(message)).take(n - 1));
            lemma_log_fields(severity, message, n - 1);
        },
        PacketModel::StartTestSession { total_tests, author, title, ref_id } => {
            assert(rest =~= session_fields(total_tests, author, title, ref_id).take(n - 1));
            lemma_session_fields(total_tests, author, title, ref_id, n - 1);
        },
        PacketModel::StartTest { name } => {
            assert(rest =~= text_bytes(name).take(n - 1));
            lemma_start_test_fields(name, n - 1);
        },
        PacketModel::Unknown { .. } => {},
    }
}

proof fn lemma_be16_bytes(rest: Seq<u8>)
    requires
        rest.len() >= 2,
    ensures
        be16(be16_value(rest)) == rest.take(2),
        0 <= be16_value(rest) <= MAX_TEXT_LEN,
{
    assert(be16(be16_value(rest)) =~= rest.take(2));
}

proof fn lemma_be32_bytes(rest: Seq<u8>)
    requires
        rest.len() >= 4,
    ensures
        be32(be32_value(rest)) == rest.take(4),
        0 <= be32_value(rest) <= u32::MAX,
{
    assert(be32(be32_value(rest)) =~= rest.take(4));
}

/// A text that was read is what stood at the front of the input, in the one way in which
/// the text can be written.
proof fn lemma_parsed_text(rest: Seq<u8>)
    ensures
        parse_text(rest) matches Ok((text, tail)) ==> crate::packet::text_fits(text) && rest
            == text_bytes(text) + tail,
{
    broadcast use vstd::utf8::decode_utf8_encode_utf8;

    reveal(parse_text);
    if rest.len() >= 2 {
        lemma_be16_bytes(rest);
        let len = be16_value(rest);
        if rest.len() >= 2 + len {
            let raw = rest.subrange(2, 2 + len);
            if valid_utf8(raw) {
                assert(encode_utf8(decode_utf8(raw)) == raw);
                assert(rest =~= rest.take(2) + raw + rest.skip(2 + len));
            }
        }
    }
}

proof fn lemma_link_online_is_canonical(rest: Seq<u8>)
    ensures
        decode_link_online(rest) matches Ok(packet) ==> packet.wf() && seq![TAG_LINK_ONLINE]
            + rest == encode_spec(packet),
{
    if rest.len() >= UID_LEN {
        lemma_parsed_text(rest.skip(UID_LEN as int));
        if let Ok((version, tail)) = parse_text(rest.skip(UID_LEN as int)) {
            if tail.len() == 0 {
                let uid = rest.subrange(0, UID_LEN as int);
                assert(rest =~= uid + rest.skip(UID_LEN as int));
                assert(seq![TAG_LINK_ONLINE] + rest =~= seq![TAG_LINK_ONLINE] + uid + text_bytes(
                    version,
                ));
            }
        }
    }
}

proof fn lemma_log_is_canonical(rest: Seq<u8>)
    ensures
        decode_log(rest) matches Ok(packet) ==> packet.wf() && seq![TAG_LOG] + rest
            == encode_spec(packet),
{
    if rest.len() >= 1 {
        lemma_parsed_text(rest.skip(1));
        if let Some(severity) = severity_of(rest[0]) {
            if let Ok((message, tail)) = parse_text(rest.skip(1)) {
                if tail.len() == 0 {
                    assert(rest =~= seq![rest[0]] + rest.skip(1));
                    assert(seq![TAG_LOG] + rest =~= seq![TAG_LOG, severity_code(severity)]
                        + text_bytes(message));
                }
            }
        }
    }
}

proof fn lemma_session_is_canonical(rest: Seq<u8>)
    ensures
        decode_start_test_session(rest) matches Ok(packet) ==> packet.wf() && seq![
            TAG_START_TEST_SESSION,
        ] + rest == encode_spec(packet),
{
    if rest.len() >= 4 {
        lemma_be32_bytes(rest);
        lemma_parsed_text(rest.skip(4));
        if let Ok((author, after_author)) = parse_text(rest.skip(4)) {
            lemma_parsed_text(after_author);
            if let Ok((title, after_title)) = parse_text(after_author) {
                lemma_parsed_text(after_title);
                if let Ok((ref_id, tail)) = parse_text(after_title) {
                    if tail.len() == 0 {
                        let total = be32_value(rest) as u32;
                        assert(rest =~= rest.take(4) + rest.skip(4));
                        assert(seq![TAG_START_TEST_SESSION] + rest =~= seq![
                            TAG_START_TEST_SESSION,
                        ] + be32(total as int) + text_bytes(author) + text_bytes(title)
                            + text_bytes(ref_id));
                    }
                }
            }
        }
    }
}

proof fn lemma_start_test_is_canonical(rest: Seq<u8>)
    ensures
        decode_start_test(rest) matches Ok(packet) ==> packet.wf() && seq![TAG_START_TEST] + rest
            == encode_spec(packet),
{
    lemma_parsed_text(rest);
    if let Ok((name, tail)) = parse_text(rest) {
        if tail.len() == 0 {
            assert(seq![TAG_START_TEST] + rest =~= seq![TAG_START_TEST] + text_bytes(name));
        }
    }
}

/// There is one way to write a packet: bytes that decode to a packet are the bytes that
/// encoding the packet gives. Bytes that make more than a packet of full length can only
/// be an unknown packet that cannot be encoded, so they are left out.
pub proof fn lemma_decode_then_encode(bytes: Seq<u8>)
    requires
        bytes.len() <= MAX_PACKET_LEN,
    ensures
        decode_spec(bytes) matches Ok(packet) ==> packet.wf() && encode_spec(packet) == bytes,
{
    if bytes.len() > 0 {
        let tag = bytes[0];
        let rest = bytes.skip(1);
        assert(bytes =~= seq![tag] + rest);
        if tag == TAG_LINK_ONLINE {
            lemma_link_online_is_canonical(rest);
        } else if tag == TAG_SET_SCENE || tag == TAG_SET_POWER_STATE {
            if rest.len() >= 1 && rest.skip(1).len() == 0 {
                assert(bytes =~= seq![tag, rest[0]]);
            }
        } else if tag == TAG_PRESS_POWER || tag == TAG_PRESS_RESET || tag == TAG_RESET_LINK {
            if rest.len() == 0 {
                assert(bytes =~= seq![tag]);
            }
        } else if tag == TAG_LOG {
            lemma_log_is_canonical(rest);
        } else if tag == TAG_START_TEST_SESSION {
            lemma_session_is_canonical(rest);
        } else if tag == TAG_START_TEST {
            lemma_start_test_is_canonical(rest);
        }
    }
}

} // verus!
