//! Sealing and opening of packet bodies with ChaCha20-Poly1305.
//!
//! The cipher itself is the `chacha20poly1305` crate's. What it computes is
//! not modelled here: its results are named, and everything stated about
//! sealed bytes is stated over those names.

use vstd::prelude::*;
use vstd::bytes::{lemma_auto_spec_u64_to_from_le_bytes, spec_u64_to_le_bytes};
use chacha20poly1305::{AeadInPlace, ChaCha20Poly1305, KeyInit};
use crate::error::Error;
use crate::wire::put_u64;
use crate::MAC_SIZE;

verus! {

/// Length, in bytes, of the cipher's nonce.
pub const NONCE_SIZE: usize = 12;

/// The length, in bytes, below which a text is handed to the cipher: 2^32.
/// The cipher's block counter runs out a little below 2^38 bytes.
pub const CIPHER_LIMIT: u64 = 0x1_0000_0000;

/// The ciphertext and the tag that the cipher computes for a plaintext
/// under a key, a nonce and associated data.
pub uninterp spec fn aead_seal(
    key: Seq<u8>,
    nonce: Seq<u8>,
    associated: Seq<u8>,
    plaintext: Seq<u8>,
) -> (Seq<u8>, Seq<u8>);

/// The plaintext that the cipher recovers from a ciphertext and its tag, or
/// nothing where the tag does not authenticate them.
pub uninterp spec fn aead_open(
    key: Seq<u8>,
    nonce: Seq<u8>,
    associated: Seq<u8>,
    ciphertext: Seq<u8>,
    tag: Seq<u8>,
) -> Option<Seq<u8>>;

/// Calls `ChaCha20Poly1305::encrypt_in_place_detached` on a copy of the
/// plaintext, which must be shorter than 2^32 bytes: the keystream of the
/// cipher is not without end. Trusted: the cipher refuses no such plaintext;
/// the result is the named ciphertext and tag; the ciphertext is as long as
/// the plaintext; and opening it under the same key, nonce and associated
/// data gives the plaintext back.
#[verifier::external_body]
fn seal_detached(key: &[u8; 32], nonce: &[u8; 12], associated: &[u8], plaintext: &[u8]) -> (sealed:
    Option<(Vec<u8>, [u8; 16])>)
    requires
        plaintext@.len() < CIPHER_LIMIT,
    ensures
        sealed is Some,
        sealed matches Some((ciphertext, tag)) ==> {
            &&& (ciphertext@, tag@) == aead_seal(key@, nonce@, associated@, plaintext@)
            &&& ciphertext@.len() == plaintext@.len()
            &&& aead_open(key@, nonce@, associated@, ciphertext@, tag@) == Some(plaintext@)
        },
{
    let mut buffer = plaintext.to_vec();
    let cipher = ChaCha20Poly1305::new(key.into());
    match cipher.encrypt_in_place_detached(nonce.into(), associated, &mut buffer) {
        Ok(tag) => Some((buffer, tag.into())),
        Err(_) => None,
    }
}

/// Calls `ChaCha20Poly1305::decrypt_in_place_detached` on a copy of the
/// ciphertext, which must be shorter than 2^32 bytes. Trusted: the result is
/// the named plaintext, which is as long as the ciphertext, or nothing where
/// the cipher reports an error.
#[verifier::external_body]
fn open_detached(
    key: &[u8; 32],
    nonce: &[u8; 12],
    associated: &[u8],
    ciphertext: &[u8],
    tag: &[u8; 16],
) -> (opened: Option<Vec<u8>>)
    requires
        ciphertext@.len() < CIPHER_LIMIT,
    ensures
        match opened {
            Some(plaintext) => aead_open(key@, nonce@, associated@, ciphertext@, tag@) == Some(
                plaintext@,
            ) && plaintext@.len() == ciphertext@.len(),
            None => aead_open(key@, nonce@, associated@, ciphertext@, tag@) is None,
        },
{
    let mut buffer = ciphertext.to_vec();
    let cipher = ChaCha20Poly1305::new(key.into());
    match cipher.decrypt_in_place_detached(nonce.into(), associated, &mut buffer, tag.into()) {
        Ok(()) => Some(buffer),
        Err(_) => None,
    }
}

/// The nonce of a packet: four zero bytes, then the sequence number,
/// little-endian.
pub open spec fn nonce_of(sequence: u64) -> Seq<u8> {
    seq![0u8, 0u8, 0u8, 0u8] + spec_u64_to_le_bytes(sequence)
}

/// The associated data of a packet: the protocol id, little-endian, then the
/// prefix byte.
pub open spec fn associated_data(protocol_id: u64, prefix: u8) -> Seq<u8> {
    spec_u64_to_le_bytes(protocol_id).push(prefix)
}

/// A packet body sealed for the wire: the ciphertext, then the tag.
pub open spec fn sealed(
    key: Seq<u8>,
    sequence: u64,
    protocol_id: u64,
    prefix: u8,
    plaintext: Seq<u8>,
) -> Seq<u8> {
    let (ciphertext, tag) = aead_seal(
        key,
        nonce_of(sequence),
        associated_data(protocol_id, prefix),
        plaintext,
    );
    ciphertext + tag
}

/// What a sealed packet body opens to: nothing where it is too short to hold
/// a tag, where what stands before the tag is too long for the cipher, or
/// where the tag does not authenticate it.
pub open spec fn opened(
    key: Seq<u8>,
    sequence: u64,
    protocol_id: u64,
    prefix: u8,
    body: Seq<u8>,
) -> Option<Seq<u8>> {
    if body.len() < MAC_SIZE || body.len() - MAC_SIZE >= CIPHER_LIMIT {
        None
    } else {
        aead_open(
            key,
            nonce_of(sequence),
            associated_data(protocol_id, prefix),
            body.take(body.len() - MAC_SIZE),
            body.skip(body.len() - MAC_SIZE),
        )
    }
}

fn make_nonce(sequence: u64) -> (nonce: [u8; 12])
    ensures
        nonce@ == nonce_of(sequence),
{
    proof {
        lemma_auto_spec_u64_to_from_le_bytes();
    }
    let mut low: Vec<u8> = Vec::new();
    put_u64(&mut low, sequence);
    let mut nonce = [0u8;12];
    let mut i: usize = 0;
    while i < 8
        invariant
            i <= 8,
            low@ == spec_u64_to_le_bytes(sequence),
            low@.len() == 8,
            forall|j: int| 0 <= j < 4 ==> nonce@[j] == 0,
            forall|j: int| 0 <= j < i ==> nonce@[4 + j] == low@[j],
        decreases 8 - i,
    {
        nonce[4 + i] = low[i];
        i += 1;
    }
    assert(nonce@ =~= nonce_of(sequence));
    nonce
}

fn make_associated_data(protocol_id: u64, prefix: u8) -> (associated: Vec<u8>)
    ensures
        associated@ == associated_data(protocol_id, prefix),
{
    let mut associated: Vec<u8> = Vec::new();
    put_u64(&mut associated, protocol_id);
    associated.push(prefix);
    assert(associated@ =~= associated_data(protocol_id, prefix));
    associated
}

/// Seals a packet body. Fails, with a crypto error, exactly on a plaintext
/// of 2^32 bytes or more, which is not handed to the cipher. What comes out
/// opens to the plaintext again.
pub fn encrypt(
    plaintext: &[u8],
    key: &[u8; 32],
    sequence: u64,
    protocol_id: u64,
    prefix: u8,
) -> (body: Result<Vec<u8>, Error>)
    ensures
        match body {
            Ok(bytes) => {
                &&& plaintext@.len() < CIPHER_LIMIT
                &&& bytes@ == sealed(key@, sequence, protocol_id, prefix, plaintext@)
                &&& bytes@.len() == plaintext@.len() + MAC_SIZE
                &&& opened(key@, sequence, protocol_id, prefix, bytes@) == Some(plaintext@)
            },
            Err(e) => plaintext@.len() >= CIPHER_LIMIT && e == Error::Crypto,
        },
{
    if plaintext.len() as u64 >= CIPHER_LIMIT {
        return Err(Error::Crypto);
    }
    let nonce = make_nonce(sequence);
    let associated = make_associated_data(protocol_id, prefix);
    match seal_detached(key, &nonce, associated.as_slice(), plaintext) {
        Some((ciphertext, tag)) => {
            let mut bytes = ciphertext;
            bytes.extend_from_slice(tag.as_slice());
            proof {
                assert(bytes@.take(bytes@.len() - MAC_SIZE) =~= ciphertext@);
                assert(bytes@.skip(bytes@.len() - MAC_SIZE) =~= tag@);
            }
            Ok(bytes)
        },
        None => Err(Error::Crypto),
    }
}

/// Opens a sealed packet body: the plaintext where the body holds a tag that
/// authenticates it, a crypto error otherwise. A body that is too long for
/// the cipher is not handed to it.
pub fn decrypt(body: &[u8], key: &[u8; 32], sequence: u64, protocol_id: u64, prefix: u8) -> (plain:
    Result<Vec<u8>, Error>)
    ensures
        match plain {
            Ok(bytes) => opened(key@, sequence, protocol_id, prefix, body@) == Some(bytes@)
                && bytes@.len() + MAC_SIZE == body@.len(),
            Err(e) => e == Error::Crypto && opened(key@, sequence, protocol_id, prefix, body@)
                is None,
        },
{
    if body.len() < MAC_SIZE {
        return Err(Error::Crypto);
    }
    let split: usize = body.len() - MAC_SIZE;
    if split as u64 >= CIPHER_LIMIT {
        return Err(Error::Crypto);
    }
    let nonce = make_nonce(sequence);
    let associated = make_associated_data(protocol_id, prefix);
    let ciphertext = vstd::slice::slice_subrange(body, 0, split);
    let tag = crate::wire::get_array::<16>(body, split);
    assert(ciphertext@ =~= body@.take(split as int));
    assert(tag@ =~= body@.skip(split as int));
    match open_detached(key, &nonce, associated.as_slice(), ciphertext, &tag) {
        Some(bytes) => Ok(bytes),
        None => Err(Error::Crypto),
    }
}

} // verus!
