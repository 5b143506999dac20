//! Frames on the secured stream.
//!
//! A frame is a whole number of cipher blocks. Its plaintext is the length of the encoded
//! packet in four bytes, the encoded packet, and zero bytes up to the next block boundary.
//! The first block alone therefore tells a receiver how long the frame is.

use crate::cipher::{
    aes256_decrypt_block, decrypt_block, decrypt_blocks, decrypt_blocks_spec, encrypt_blocks,
    encrypt_blocks_spec, SessionKey, BLOCK_LEN,
};
use crate::codec::{
    be32, be32_value, decode, decode_spec, encode, encode_outcome, encode_spec,
    lemma_encode_then_decode, lemma_encoded_len, push_be32, push_bytes, DecodeError,
    EncodeError,
};
use crate::packet::{Packet, PacketModel, MAX_PACKET_LEN};
use vstd::prelude::*;
use vstd::slice::slice_subrange;

verus! {

/// The number of bytes in front of the packet that give its length.
pub const FRAME_HEADER_LEN: usize = 4;

/// Why the plaintext of a frame is not a frame.
#[derive(Clone, Copy, Debug, PartialEq, Eq, Structural)]
pub enum FrameError {
    /// The frame is empty or not a whole number of blocks.
    BadLength,
    /// The frame announces a packet longer than `MAX_PACKET_LEN`.
    TooLarge,
    /// The announced length does not give the length of the frame.
    LengthMismatch,
    /// A byte behind the packet is not zero.
    BadPadding,
}

/// The length of the frame that carries a packet of `packet_len` bytes.
pub open spec fn padded_len(packet_len: int) -> int {
    (FRAME_HEADER_LEN + packet_len + BLOCK_LEN - 1) / (BLOCK_LEN as int) * BLOCK_LEN
}

/// `n` zero bytes.
pub open spec fn zeros(n: int) -> Seq<u8> {
    Seq::new(n as nat, |i: int| 0u8)
}

/// The plaintext of the frame that carries `payload`.
pub open spec fn frame_plain(payload: Seq<u8>) -> Seq<u8> {
    be32(payload.len() as int) + payload + zeros(
        padded_len(payload.len() as int) - FRAME_HEADER_LEN - payload.len(),
    )
}

/// The payload that the plaintext of a frame carries.
pub open spec fn unframe_spec(plain: Seq<u8>) -> Result<Seq<u8>, FrameError> {
    if plain.len() == 0 || plain.len() as int % BLOCK_LEN as int != 0 {
        Err(FrameError::BadLength)
    } else if be32_value(plain) > MAX_PACKET_LEN {
        Err(FrameError::TooLarge)
    } else if padded_len(be32_value(plain)) != plain.len() {
        Err(FrameError::LengthMismatch)
    } else if plain.skip(FRAME_HEADER_LEN + be32_value(plain)) != zeros(
        plain.len() - FRAME_HEADER_LEN - be32_value(plain),
    ) {
        Err(FrameError::BadPadding)
    } else {
        Ok(plain.subrange(FRAME_HEADER_LEN as int, FRAME_HEADER_LEN + be32_value(plain)))
    }
}

/// The length of the frame whose first block is `first`, as its receiver sees it.
pub open spec fn frame_len_spec(key: Seq<u8>, first: Seq<u8>) -> Result<int, FrameError> {
    if be32_value(aes256_decrypt_block(key, first)) > MAX_PACKET_LEN {
        Err(FrameError::TooLarge)
    } else {
        Ok(padded_len(be32_value(aes256_decrypt_block(key, first))))
    }
}

/// A payload that was framed is found again.
pub proof fn lemma_unframe_frame(payload: Seq<u8>)
    requires
        payload.len() <= MAX_PACKET_LEN,
    ensures
        unframe_spec(frame_plain(payload)) == Ok::<Seq<u8>, FrameError>(payload),
        frame_plain(payload).len() == padded_len(payload.len() as int),
        be32_value(frame_plain(payload)) == payload.len(),
{
    let n = payload.len() as int;
    let pad = zeros(padded_len(n) - FRAME_HEADER_LEN - n);
    let plain = frame_plain(payload);
    assert(plain =~= be32(n) + (payload + pad));
    assert(be32_value(be32(n) + (payload + pad)) == n);
    assert(plain.skip(FRAME_HEADER_LEN + n) =~= pad);
    assert(plain.subrange(FRAME_HEADER_LEN as int, FRAME_HEADER_LEN + n) =~= payload);
}

/// Why a packet could not be sent or received.
#[derive(Clone, Copy, Debug, PartialEq, Eq, Structural)]
pub enum TransportError {
    /// The stream failed while it was read.
    Read,
    /// The stream failed while it was written.
    Write,
    /// What was read is not a frame.
    Frame(FrameError),
    /// The frame carries a malformed packet of a known variant.
    Decode(DecodeError),
    /// The packet to send cannot be put on the wire.
    Encode(EncodeError),
}

/// The frame that carries `packet` under `key`.
pub open spec fn seal_spec(key: Seq<u8>, packet: PacketModel) -> Seq<u8> {
    encrypt_blocks_spec(key, frame_plain(encode_spec(packet)))
}

/// The packet that `frame` carries under `key`, or why it carries none.
pub open spec fn open_spec(key: Seq<u8>, frame: Seq<u8>) -> Result<PacketModel, TransportError> {
    if frame.len() as int % BLOCK_LEN as int != 0 {
        Err(TransportError::Frame(FrameError::BadLength))
    } else {
        match unframe_spec(decrypt_blocks_spec(key, frame)) {
            Err(e) => Err(TransportError::Frame(e)),
            Ok(payload) => match decode_spec(payload) {
                Err(e) => Err(TransportError::Decode(e)),
                Ok(packet) => Ok(packet),
            },
        }
    }
}

/// The plaintext of the frame that carries `payload`.
fn frame(payload: &[u8]) -> (plain: Vec<u8>)
    requires
        payload.len() <= MAX_PACKET_LEN,
    ensures
        plain@ == frame_plain(payload@),
        plain.len() == padded_len(payload.len() as int),
{
    let mut plain: Vec<u8> = Vec::new();
    push_be32(&mut plain, payload.len() as u32);
    push_bytes(&mut plain, payload);
    let ghost head = plain@;
    assert(head =~= head + zeros(0));
    while plain.len() % BLOCK_LEN != 0
        invariant
            head.len() == FRAME_HEADER_LEN + payload.len(),
            payload.len() <= MAX_PACKET_LEN,
            head.len() <= plain.len() <= padded_len(payload.len() as int),
            plain@ == head + zeros(plain.len() - head.len()),
        decreases padded_len(payload.len() as int) - plain.len(),
    {
        plain.push(0);
        assert(plain@ =~= head + zeros(plain.len() - head.len()));
    }
    plain
}

/// Encodes `packet`, frames it and encrypts the frame under `key`.
///
/// Fails exactly where `encode` fails. The frame that comes out opens, under the same key,
/// to the same packet, and its first block tells the receiver its length.
pub fn seal(key: &SessionKey, packet: &Packet) -> (res: Result<Vec<u8>, EncodeError>)
    ensures
        match res {
            Ok(frame) => {
                &&& packet@.wf()
                &&& frame@ == seal_spec(key@, packet@)
                &&& frame.len() == padded_len(encode_spec(packet@).len() as int)
                &&& open_spec(key@, frame@) == Ok::<PacketModel, TransportError>(packet@)
                &&& frame_len_spec(key@, frame@.take(BLOCK_LEN as int)) == Ok::<int, FrameError>(
                    frame.len() as int,
                )
            },
            Err(e) => encode_outcome(packet@) == Err::<Seq<u8>, EncodeError>(e),
        },
{
    let payload = match encode(packet) {
        Ok(payload) => payload,
        Err(e) => {
            return Err(e);
        },
    };
    proof {
        lemma_encoded_len(packet@);
        lemma_unframe_frame(payload@);
        lemma_encode_then_decode(packet@);
    }
    let plain = frame(payload.as_slice());
    let sealed = encrypt_blocks(key, plain.as_slice());
    assert(be32_value(plain@.take(BLOCK_LEN as int)) == be32_value(plain@));
    Ok(sealed)
}

/// The length of the frame whose first block was read, so that its receiver knows how many
/// more bytes to wait for.
pub fn frame_len(key: &SessionKey, first_block: &[u8; 16]) -> (res: Result<usize, FrameError>)
    ensures
        match res {
            Ok(len) => frame_len_spec(key@, first_block@) == Ok::<int, FrameError>(len as int),
            Err(e) => frame_len_spec(key@, first_block@) == Err::<int, FrameError>(e),
        },
{
    let head = decrypt_block(key.as_bytes(), first_block);
    let announced: u32 = ((head[0] as u32 * 256 + head[1] as u32) * 256 + head[2] as u32) * 256
        + head[3] as u32;
    if announced > MAX_PACKET_LEN as u32 {
        return Err(FrameError::TooLarge);
    }
    Ok((FRAME_HEADER_LEN + announced as usize + BLOCK_LEN - 1) / BLOCK_LEN * BLOCK_LEN)
}

fn all_zero_from(data: &[u8], start: usize) -> (clean: bool)
    requires
        start <= data.len(),
    ensures
        clean == (data@.skip(start as int) == zeros(data.len() - start)),
{
    let mut i: usize = start;
    while i < data.len()
        invariant
            start <= i <= data.len(),
            forall|j: int| start <= j < i ==> data@[j] == 0,
        decreases data.len() - i,
    {
        if data[i] != 0 {
            assert(data@.skip(start as int)[i - start] != zeros(data.len() - start)[i - start]);
            return false;
        }
        i += 1;
    }
    assert(data@.skip(start as int) =~= zeros(data.len() - start));
    true
}

/// Decrypts a whole frame and reads the packet that it carries.
pub fn open(key: &SessionKey, frame: &[u8]) -> (res: Result<Packet, TransportError>)
    ensures
        match res {
            Ok(packet) => open_spec(key@, frame@) == Ok::<PacketModel, TransportError>(packet@),
            Err(e) => open_spec(key@, frame@) == Err::<PacketModel, TransportError>(e),
        },
{
    if frame.len() % BLOCK_LEN != 0 {
        return Err(TransportError::Frame(FrameError::BadLength));
    }
    let plain = decrypt_blocks(key, frame);
    if plain.len() == 0 {
        return Err(TransportError::Frame(FrameError::BadLength));
    }
    let announced: u32 = ((plain[0] as u32 * 256 + plain[1] as u32) * 256 + plain[2] as u32)
        * 256 + plain[3] as u32;
    if announced > MAX_PACKET_LEN as u32 {
        return Err(TransportError::Frame(FrameError::TooLarge));
    }
    let len = announced as usize;
    if (FRAME_HEADER_LEN + len + BLOCK_LEN - 1) / BLOCK_LEN * BLOCK_LEN != plain.len() {
        return Err(TransportError::Frame(FrameError::LengthMismatch));
    }
    if !all_zero_from(plain.as_slice(), FRAME_HEADER_LEN + len) {
        return Err(TransportError::Frame(FrameError::BadPadding));
    }
    let payload = slice_subrange(plain.as_slice(), FRAME_HEADER_LEN, FRAME_HEADER_LEN + len);
    match decode(payload) {
        Ok(packet) => Ok(packet),
        Err(e) => Err(TransportError::Decode(e)),
    }
}

/// What a failure leaves of a connection: the first failure stays.
pub open spec fn latch(earlier: Option<TransportError>, now: TransportError) -> Option<
    TransportError,
> {
    match earlier {
        Some(first) => Some(first),
        None => Some(now),
    }
}

/// What `send` answers on a connection with the given key and earlier failure: the frame
/// to write, unless the connection has failed or the packet cannot be encoded.
pub open spec fn send_spec(
    key: Seq<u8>,
    earlier: Option<TransportError>,
    packet: PacketModel,
) -> Result<Seq<u8>, TransportError> {
    match earlier {
        Some(failure) => Err(failure),
        None => match encode_outcome(packet) {
            Ok(_) => Ok(seal_spec(key, packet)),
            Err(e) => Err(TransportError::Encode(e)),
        },
    }
}

/// What `receive` answers on a connection with the given key and earlier failure: the
/// packet that the frame carries, unless the connection has failed.
pub open spec fn receive_spec(
    key: Seq<u8>,
    earlier: Option<TransportError>,
    frame: Seq<u8>,
) -> Result<PacketModel, TransportError> {
    match earlier {
        Some(failure) => Err(failure),
        None => open_spec(key, frame),
    }
}

/// What `frame_len` answers on a connection with the given key and earlier failure: the
/// length of the frame whose first block was read, unless the connection has failed.
pub open spec fn first_block_spec(
    key: Seq<u8>,
    earlier: Option<TransportError>,
    first: Seq<u8>,
) -> Result<int, TransportError> {
    match earlier {
        Some(failure) => Err(failure),
        None => match frame_len_spec(key, first) {
            Ok(len) => Ok(len),
            Err(e) => Err(TransportError::Frame(e)),
        },
    }
}

/// Once a write has failed on a connection that stood, the failed write is what every
/// later send and receive answers, whatever else fails afterwards: no frame is handed
/// out for writing any more, and the failure is not taken for a failed read.
pub proof fn lemma_failed_write_ends_writing(
    key: Seq<u8>,
    later: Seq<TransportError>,
    packet: PacketModel,
    frame: Seq<u8>,
)
    ensures
        latched(Some(TransportError::Write), later) == Some(TransportError::Write),
        send_spec(key, latched(latch(None, TransportError::Write), later), packet) == Err::<
            Seq<u8>,
            TransportError,
        >(TransportError::Write),
        receive_spec(key, latched(latch(None, TransportError::Write), later), frame) == Err::<
            PacketModel,
            TransportError,
        >(TransportError::Write),
    decreases later.len(),
{
    if later.len() > 0 {
        lemma_failed_write_ends_writing(key, later.drop_last(), packet, frame);
    }
}

/// What a run of failures leaves of a connection.
pub open spec fn latched(earlier: Option<TransportError>, failures: Seq<TransportError>) -> Option<
    TransportError,
>
    decreases failures.len(),
{
    if failures.len() == 0 {
        earlier
    } else {
        latch(latched(earlier, failures.drop_last()), failures.last())
    }
}

/// One end of a secured connection: the session key, and the failure that ended the
/// connection, once there is one.
///
/// The transport does no I/O. `send` hands out the bytes to write and `receive` takes the
/// bytes that were read; the driver reports a failed write or read of the stream with
/// `write_failed` and `read_failed`. After any failure the transport hands out nothing
/// more to write and accepts nothing more: it answers with the failure that came first.
pub struct Transport {
    key: SessionKey,
    failure: Option<TransportError>,
}

impl Transport {
    /// The session key.
    pub closed spec fn key(&self) -> Seq<u8> {
        self.key@
    }

    /// The failure that ended the connection, if one did.
    pub closed spec fn failure(&self) -> Option<TransportError> {
        self.failure
    }

    /// A transport for a connection whose negotiation gave `key`.
    pub fn new(key: SessionKey) -> (transport: Transport)
        ensures
            transport.key() == key@,
            transport.failure() is None,
    {
        Transport { key, failure: None }
    }

    /// The failure that ended the connection, if one did.
    pub fn failed(&self) -> (failure: Option<TransportError>)
        ensures
            failure == self.failure(),
    {
        self.failure
    }

    /// The frame to write for `packet`.
    ///
    /// On a connection that has failed nothing is handed out: the answer is the failure.
    /// A packet that cannot be encoded is refused and leaves the connection as it was.
    pub fn send(&mut self, packet: &Packet) -> (res: Result<Vec<u8>, TransportError>)
        ensures
            final(self).key() == old(self).key(),
            final(self).failure() == old(self).failure(),
            match res {
                Ok(frame) => {
                    &&& send_spec(old(self).key(), old(self).failure(), packet@) == Ok::<
                        Seq<u8>,
                        TransportError,
                    >(frame@)
                    &&& open_spec(old(self).key(), frame@) == Ok::<PacketModel, TransportError>(
                        packet@,
                    )
                    &&& frame_len_spec(old(self).key(), frame@.take(BLOCK_LEN as int)) == Ok::<
                        int,
                        FrameError,
                    >(frame.len() as int)
                },
                Err(e) => send_spec(old(self).key(), old(self).failure(), packet@) == Err::<
                    Seq<u8>,
                    TransportError,
                >(e),
            },
    {
        if let Some(failure) = self.failure {
            return Err(failure);
        }
        match seal(&self.key, packet) {
            Ok(frame) => Ok(frame),
            Err(cause) => Err(TransportError::Encode(cause)),
        }
    }

    /// The stream failed while a frame was written.
    pub fn write_failed(&mut self)
        ensures
            final(self).key() == old(self).key(),
            final(self).failure() == latch(old(self).failure(), TransportError::Write),
    {
        if self.failure.is_none() {
            self.failure = Some(TransportError::Write);
        }
    }

    /// The stream failed while a frame was read.
    pub fn read_failed(&mut self)
        ensures
            final(self).key() == old(self).key(),
            final(self).failure() == latch(old(self).failure(), TransportError::Read),
    {
        if self.failure.is_none() {
            self.failure = Some(TransportError::Read);
        }
    }

    /// The length of the frame whose first block was read.
    ///
    /// A first block that announces too long a packet ends the connection.
    pub fn frame_len(&mut self, first_block: &[u8; 16]) -> (res: Result<usize, TransportError>)
        ensures
            final(self).key() == old(self).key(),
            match res {
                Ok(len) => first_block_spec(old(self).key(), old(self).failure(), first_block@)
                    == Ok::<int, TransportError>(len as int) && final(self).failure() is None,
                Err(e) => first_block_spec(old(self).key(), old(self).failure(), first_block@)
                    == Err::<int, TransportError>(e) && final(self).failure() == latch(
                    old(self).failure(),
                    e,
                ),
            },
    {
        if let Some(failure) = self.failure {
            return Err(failure);
        }
        match frame_len(&self.key, first_block) {
            Ok(len) => Ok(len),
            Err(cause) => {
                self.failure = Some(TransportError::Frame(cause));
                Err(TransportError::Frame(cause))
            },
        }
    }

    /// The packet that a whole frame carries.
    ///
    /// A frame that is no frame, or that carries a malformed packet, ends the connection.
    pub fn receive(&mut self, frame: &[u8]) -> (res: Result<Packet, TransportError>)
        ensures
            final(self).key() == old(self).key(),
            match res {
                Ok(packet) => receive_spec(old(self).key(), old(self).failure(), frame@) == Ok::<
                    PacketModel,
                    TransportError,
                >(packet@) && final(self).failure() is None,
                Err(e) => receive_spec(old(self).key(), old(self).failure(), frame@) == Err::<
                    PacketModel,
                    TransportError,
                >(e) && final(self).failure() == latch(old(self).failure(), e),
            },
    {
        if let Some(failure) = self.failure {
            return Err(failure);
        }
        match open(&self.key, frame) {
            Ok(packet) => Ok(packet),
            Err(e) => {
                self.failure = Some(e);
                Err(e)
            },
        }
    }
}

} // verus!
