//! The block cipher under the channel: AES-256, one sixteen-byte block at a time, keyed
//! directly with the session key.

use aes::cipher::{BlockDecrypt, BlockEncrypt, KeyInit};
use aes::{Aes256Dec, Aes256Enc};
use vstd::prelude::*;

verus! {

/// The number of bytes in a session key.
pub const KEY_LEN: usize = 32;

/// The number of bytes in a cipher block.
pub const BLOCK_LEN: usize = 16;

/// The symmetric key of one connection.
///
/// It has no `Debug` form, so that it cannot end up in a log.
#[derive(Clone, Copy, PartialEq, Eq)]
pub struct SessionKey {
    bytes: [u8; 32],
}

impl View for SessionKey {
    type V = Seq<u8>;

    closed spec fn view(&self) -> Seq<u8> {
        self.bytes@
    }
}

impl SessionKey {
    /// The session key is the shared secret itself: nothing is mixed in or hashed.
    pub fn from_shared_secret(secret: [u8; 32]) -> (key: SessionKey)
        ensures
            key@ == secret@,
    {
        SessionKey { bytes: secret }
    }

    /// The bytes of the key.
    pub fn as_bytes(&self) -> (bytes: &[u8; 32])
        ensures
            bytes@ == self@,
    {
        &self.bytes
    }
}

/// The block that AES-256 under `key` makes of `block`.
pub uninterp spec fn aes256_encrypt_block(key: Seq<u8>, block: Seq<u8>) -> Seq<u8>;

/// The block that AES-256 under `key` recovers from `block`.
pub uninterp spec fn aes256_decrypt_block(key: Seq<u8>, block: Seq<u8>) -> Seq<u8>;

/// `encrypt_block` of an `Aes256Enc` that `KeyInit::new` made from `key`: the result is the
/// AES-256 encryption of `block`, and decrypting it under the same key gives `block` back,
/// as the cipher's documentation shows.
#[verifier::external_body]
pub(crate) fn encrypt_block(key: &[u8; 32], block: &[u8; 16]) -> (out: [u8; 16])
    ensures
        out@ == aes256_encrypt_block(key@, block@),
        aes256_decrypt_block(key@, out@) == block@,
{
    let mut data = *block;
    Aes256Enc::new(key.into()).encrypt_block((&mut data).into());
    data
}

/// `decrypt_block` of an `Aes256Dec` that `KeyInit::new` made from `key`: the result is the
/// AES-256 decryption of `block`.
#[verifier::external_body]
pub(crate) fn decrypt_block(key: &[u8; 32], block: &[u8; 16]) -> (out: [u8; 16])
    ensures
        out@ == aes256_decrypt_block(key@, block@),
{
    let mut data = *block;
    Aes256Dec::new(key.into()).decrypt_block((&mut data).into());
    data
}

/// The blocks of `plain`, each encrypted on its own under `key`, in their order. Bytes
/// behind the last whole block are left out.
pub open spec fn encrypt_blocks_spec(key: Seq<u8>, plain: Seq<u8>) -> Seq<u8>
    decreases plain.len(),
{
    if plain.len() < BLOCK_LEN {
        Seq::empty()
    } else {
        aes256_encrypt_block(key, plain.take(BLOCK_LEN as int)) + encrypt_blocks_spec(
            key,
            plain.skip(BLOCK_LEN as int),
        )
    }
}

/// The blocks of `cipher`, each decrypted on its own under `key`, in their order. Bytes
/// behind the last whole block are left out.
pub open spec fn decrypt_blocks_spec(key: Seq<u8>, cipher: Seq<u8>) -> Seq<u8>
    decreases cipher.len(),
{
    if cipher.len() < BLOCK_LEN {
        Seq::empty()
    } else {
        aes256_decrypt_block(key, cipher.take(BLOCK_LEN as int)) + decrypt_blocks_spec(
            key,
            cipher.skip(BLOCK_LEN as int),
        )
    }
}

/// One more block behind whole blocks is encrypted behind them.
proof fn lemma_encrypt_one_more(key: Seq<u8>, done: Seq<u8>, block: Seq<u8>)
    requires
        done.len() % BLOCK_LEN as nat == 0,
        block.len() == BLOCK_LEN,
    ensures
        encrypt_blocks_spec(key, done + block) == encrypt_blocks_spec(key, done)
            + aes256_encrypt_block(key, block),
    decreases done.len(),
{
    let all = done + block;
    if done.len() == 0 {
        assert(all.take(BLOCK_LEN as int) =~= block);
        assert(encrypt_blocks_spec(key, all.skip(BLOCK_LEN as int)) =~= Seq::<u8>::empty());
        assert(encrypt_blocks_spec(key, all) =~= aes256_encrypt_block(key, block));
        assert(encrypt_blocks_spec(key, done) + aes256_encrypt_block(key, block)
            =~= aes256_encrypt_block(key, block));
    } else {
        let rest = done.skip(BLOCK_LEN as int);
        lemma_encrypt_one_more(key, rest, block);
        assert(all.take(BLOCK_LEN as int) =~= done.take(BLOCK_LEN as int));
        assert(all.skip(BLOCK_LEN as int) =~= rest + block);
        assert(encrypt_blocks_spec(key, all) =~= encrypt_blocks_spec(key, done)
            + aes256_encrypt_block(key, block));
    }
}

/// One more block behind whole blocks is decrypted behind them.
proof fn lemma_decrypt_one_more(key: Seq<u8>, done: Seq<u8>, block: Seq<u8>)
    requires
        done.len() % BLOCK_LEN as nat == 0,
        block.len() == BLOCK_LEN,
    ensures
        decrypt_blocks_spec(key, done + block) == decrypt_blocks_spec(key, done)
            + aes256_decrypt_block(key, block),
    decreases done.len(),
{
    let all = done + block;
    if done.len() == 0 {
        assert(all.take(BLOCK_LEN as int) =~= block);
        assert(decrypt_blocks_spec(key, all.skip(BLOCK_LEN as int)) =~= Seq::<u8>::empty());
        assert(decrypt_blocks_spec(key, all) =~= aes256_decrypt_block(key, block));
        assert(decrypt_blocks_spec(key, done) + aes256_decrypt_block(key, block)
            =~= aes256_decrypt_block(key, block));
    } else {
        let rest = done.skip(BLOCK_LEN as int);
        lemma_decrypt_one_more(key, rest, block);
        assert(all.take(BLOCK_LEN as int) =~= done.take(BLOCK_LEN as int));
        assert(all.skip(BLOCK_LEN as int) =~= rest + block);
        assert(decrypt_blocks_spec(key, all) =~= decrypt_blocks_spec(key, done)
            + aes256_decrypt_block(key, block));
    }
}

fn block_at(data: &[u8], start: usize) -> (block: [u8; 16])
    requires
        start + BLOCK_LEN <= data.len(),
    ensures
        block@ == data@.subrange(start as int, start + BLOCK_LEN),
{
    let mut block = [0u8; 16];
    let mut i: usize = 0;
    while i < BLOCK_LEN
        invariant
            i <= BLOCK_LEN,
            start + BLOCK_LEN <= data.len(),
            forall|j: int| 0 <= j < i ==> block@[j] == data@[start + j],
        decreases BLOCK_LEN - i,
    {
        block[i] = data[start + i];
        i += 1;
    }
    assert(block@ =~= data@.subrange(start as int, start + BLOCK_LEN));
    block
}

fn push_block(out: &mut Vec<u8>, block: &[u8; 16])
    ensures
        final(out)@ == old(out)@ + block@,
{
    let mut i: usize = 0;
    while i < BLOCK_LEN
        invariant
            i <= BLOCK_LEN,
            out@ == old(out)@ + block@.take(i as int),
        decreases BLOCK_LEN - i,
    {
        out.push(block[i]);
        i += 1;
        assert(out@ =~= old(out)@ + block@.take(i as int));
    }
    assert(block@.take(BLOCK_LEN as int) =~= block@);
}

/// Encrypts `plain` block by block.
///
/// What comes out has the length of `plain`, and decrypting it block by block under the
/// same key gives `plain` back.
pub(crate) fn encrypt_blocks(key: &SessionKey, plain: &[u8]) -> (out: Vec<u8>)
    requires
        plain.len() % BLOCK_LEN == 0,
    ensures
        out@ == encrypt_blocks_spec(key@, plain@),
        out.len() == plain.len(),
        decrypt_blocks_spec(key@, out@) == plain@,
        plain.len() >= BLOCK_LEN ==> aes256_decrypt_block(key@, out@.take(BLOCK_LEN as int))
            == plain@.take(BLOCK_LEN as int),
{
    let mut out: Vec<u8> = Vec::new();
    let mut done: usize = 0;
    while done < plain.len()
        invariant
            done <= plain.len(),
            done % BLOCK_LEN == 0,
            plain.len() % BLOCK_LEN == 0,
            out.len() == done,
            out@ == encrypt_blocks_spec(key@, plain@.take(done as int)),
            decrypt_blocks_spec(key@, out@) == plain@.take(done as int),
            done >= BLOCK_LEN ==> aes256_decrypt_block(key@, out@.take(BLOCK_LEN as int))
                == plain@.take(BLOCK_LEN as int),
        decreases plain.len() - done,
    {
        let block = block_at(plain, done);
        let sealed = encrypt_block(key.as_bytes(), &block);
        let ghost before = out@;
        push_block(&mut out, &sealed);
        proof {
            let next = plain@.take(done + BLOCK_LEN);
            assert(next =~= plain@.take(done as int) + block@);
            lemma_encrypt_one_more(key@, plain@.take(done as int), block@);
            lemma_decrypt_one_more(key@, before, sealed@);
            if done == 0 {
                assert(out@.take(BLOCK_LEN as int) =~= sealed@);
                assert(plain@.take(BLOCK_LEN as int) =~= block@);
            } else {
                assert(out@.take(BLOCK_LEN as int) =~= before.take(BLOCK_LEN as int));
            }
        }
        done += BLOCK_LEN;
    }
    assert(plain@.take(plain.len() as int) =~= plain@);
    out
}

/// Decrypts `cipher` block by block.
pub(crate) fn decrypt_blocks(key: &SessionKey, cipher: &[u8]) -> (out: Vec<u8>)
    requires
        cipher.len() % BLOCK_LEN == 0,
    ensures
        out@ == decrypt_blocks_spec(key@, cipher@),
        out.len() == cipher.len(),
{
    let mut out: Vec<u8> = Vec::new();
    let mut done: usize = 0;
    while done < cipher.len()
        invariant
            done <= cipher.len(),
            done % BLOCK_LEN == 0,
            cipher.len() % BLOCK_LEN == 0,
            out.len() == done,
            out@ == decrypt_blocks_spec(key@, cipher@.take(done as int)),
        decreases cipher.len() - done,
    {
        let block = block_at(cipher, done);
        let opened = decrypt_block(key.as_bytes(), &block);
        push_block(&mut out, &opened);
        proof {
            let next = cipher@.take(done + BLOCK_LEN);
            assert(next =~= cipher@.take(done as int) + block@);
            lemma_decrypt_one_more(key@, cipher@.take(done as int), block@);
        }
        done += BLOCK_LEN;
    }
    assert(cipher@.take(cipher.len() as int) =~= cipher@);
    out
}

} // verus!
