//! The cryptographic primitives the vault is built from.
//!
//! Every executable function in this module hands its work to an outside
//! crate. Verus does not read their bodies: what their contracts state is
//! taken on trust, and the rest of the library is proved from it.

use vstd::prelude::*;

verus! {

/// The error that `ring` reports for every failure, without detail.
#[verifier::external_type_specification]
#[verifier::external_body]
pub struct ExUnspecified(ring::error::Unspecified);

/// Length in bytes of every key this library derives or generates.
pub const KEY_SIZE: usize = 32;

/// Length in bytes of a salt.
pub const SALT_LEN: usize = 16;

/// Length in bytes of an AES-GCM nonce.
pub const NONCE_LEN: usize = 12;

/// Length in bytes of the authentication tag that ends a sealed text.
pub const TAG_LEN: usize = 16;

/// The longest input, in bytes, that SHA-256 accepts: its length in bits has
/// to fit in 64 bits.
pub const MAX_DIGEST_INPUT: u64 = 0x1FFF_FFFF_FFFF_FFFF;

/// The longest output, in bytes, that PBKDF2 with HMAC-SHA256 can give: 32
/// bytes for each of at most 2^32 - 1 blocks.
pub const MAX_KDF_OUTPUT: u64 = 0x1F_FFFF_FFE0;

/// PBKDF2 with HMAC-SHA256: the `len` bytes derived from `secret` and `salt`
/// in `iterations` rounds.
pub uninterp spec fn pbkdf2_hmac_sha256(
    iterations: u32,
    salt: Seq<u8>,
    secret: Seq<u8>,
    len: nat,
) -> Seq<u8>;

/// AES-256-GCM without associated data: the ciphertext of `plaintext` under
/// `key` and `nonce` with the tag behind it, or `None` where the cipher
/// refuses its input.
pub uninterp spec fn aes_256_gcm_seal(key: Seq<u8>, nonce: Seq<u8>, plaintext: Seq<u8>) -> Option<
    Seq<u8>,
>;

/// AES-256-GCM without associated data: the plaintext of `sealed` under `key`
/// and `nonce`, or `None` where the tag does not match or the cipher refuses
/// its input.
pub uninterp spec fn aes_256_gcm_open(key: Seq<u8>, nonce: Seq<u8>, sealed: Seq<u8>) -> Option<
    Seq<u8>,
>;

/// The SHA-256 digest of `data`.
pub uninterp spec fn sha256(data: Seq<u8>) -> Seq<u8>;

/// Whether PBKDF2 can take these inputs. A secret longer than one block is
/// hashed first; the salt is hashed behind one 64-byte block and in front of
/// a 4-byte counter.
pub open spec fn kdf_inputs_fit(salt: Seq<u8>, secret: Seq<u8>) -> bool {
    &&& secret.len() <= MAX_DIGEST_INPUT
    &&& salt.len() + 68 <= MAX_DIGEST_INPUT
}

/// Whether `expected` is the PBKDF2 value of the other inputs. An empty
/// `expected` never is, nor one that PBKDF2 could not have given.
pub open spec fn pbkdf2_matches(
    iterations: u32,
    salt: Seq<u8>,
    secret: Seq<u8>,
    expected: Seq<u8>,
) -> bool {
    &&& 0 < expected.len() <= MAX_KDF_OUTPUT
    &&& kdf_inputs_fit(salt, secret)
    &&& pbkdf2_hmac_sha256(iterations, salt, secret, expected.len()) == expected
}

/// The lower-case hexadecimal digit of a value below 16.
pub open spec fn hex_digit(value: int) -> char {
    if value < 10 {
        (value + 48) as char
    } else {
        (value + 87) as char
    }
}

/// Two lower-case hexadecimal digits for each byte, the high half first.
pub open spec fn hex_lower(data: Seq<u8>) -> Seq<char> {
    Seq::new(
        2 * data.len(),
        |i: int|
            if i % 2 == 0 {
                hex_digit(data[i / 2] as int / 16)
            } else {
                hex_digit(data[i / 2] as int % 16)
            },
    )
}

/// Calls `ring::pbkdf2::derive` with HMAC-SHA256 on a buffer of 32 bytes.
/// Trusted: the buffer then holds the PBKDF2 value of the inputs. `ring`
/// panics on inputs too long to hash, and a zero iteration count cannot be
/// handed over; the precondition leaves both out.
#[verifier::external_body]
pub(crate) fn pbkdf2_derive(iterations: u32, salt: &[u8], secret: &[u8]) -> (out: [u8; 32])
    requires
        iterations != 0,
        kdf_inputs_fit(salt@, secret@),
    ensures
        out@ == pbkdf2_hmac_sha256(iterations, salt@, secret@, 32),
{
    let mut out = [0u8; 32];
    let rounds = core::num::NonZeroU32::new(iterations).unwrap();
    ring::pbkdf2::derive(ring::pbkdf2::PBKDF2_HMAC_SHA256, rounds, salt, secret, &mut out);
    out
}

/// Calls `ring::pbkdf2::verify` with HMAC-SHA256. Trusted: it accepts exactly
/// when `expected` is not empty and equals the PBKDF2 value of the same
/// length derived from the other inputs; inputs too long to hash, and an
/// `expected` longer than PBKDF2 can give, are rejected. The comparison does
/// not stop at the first byte that differs.
#[verifier::external_body]
pub(crate) fn pbkdf2_verify(iterations: u32, salt: &[u8], secret: &[u8], expected: &[u8]) -> (ok:
    bool)
    requires
        iterations != 0,
    ensures
        ok == pbkdf2_matches(iterations, salt@, secret@, expected@),
{
    let rounds = core::num::NonZeroU32::new(iterations).unwrap();
    ring::pbkdf2::verify(ring::pbkdf2::PBKDF2_HMAC_SHA256, rounds, salt, secret, expected).is_ok()
}

/// Makes an AES-256-GCM key of `key` with `ring::aead::UnboundKey::new` and
/// seals a copy of `plaintext` with
/// `ring::aead::LessSafeKey::seal_in_place_append_tag`, without associated
/// data. Trusted: the outcome is a function of the three inputs; a sealed
/// text is 16 bytes longer than the plaintext, and opening it under the same
/// key and nonce gives the plaintext back.
#[verifier::external_body]
pub(crate) fn seal(key: &[u8], nonce: &[u8; 12], plaintext: &[u8]) -> (r: Result<
    Vec<u8>,
    ring::error::Unspecified,
>)
    ensures
        match r {
            Ok(sealed) => {
                &&& aes_256_gcm_seal(key@, nonce@, plaintext@) == Some(sealed@)
                &&& sealed@.len() == plaintext@.len() + TAG_LEN
                &&& aes_256_gcm_open(key@, nonce@, sealed@) == Some(plaintext@)
            },
            Err(_) => aes_256_gcm_seal(key@, nonce@, plaintext@) is None,
        },
{
    let unbound = ring::aead::UnboundKey::new(&ring::aead::AES_256_GCM, key)?;
    let key = ring::aead::LessSafeKey::new(unbound);
    let nonce = ring::aead::Nonce::assume_unique_for_key(*nonce);
    let mut in_out = plaintext.to_vec();
    key.seal_in_place_append_tag(nonce, ring::aead::Aad::empty(), &mut in_out)?;
    Ok(in_out)
}

/// Makes an AES-256-GCM key of `key` with `ring::aead::UnboundKey::new` and
/// opens `sealed` with `ring::aead::LessSafeKey::open_in_place`, without
/// associated data. Trusted: the outcome is a function of the three inputs,
/// and a plaintext is 16 bytes shorter than the sealed text.
#[verifier::external_body]
pub(crate) fn open(key: &[u8], nonce: &[u8; 12], sealed: Vec<u8>) -> (r: Result<
    Vec<u8>,
    ring::error::Unspecified,
>)
    ensures
        match r {
            Ok(plaintext) => {
                &&& aes_256_gcm_open(key@, nonce@, sealed@) == Some(plaintext@)
                &&& plaintext@.len() + TAG_LEN == sealed@.len()
            },
            Err(_) => aes_256_gcm_open(key@, nonce@, sealed@) is None,
        },
{
    let unbound = ring::aead::UnboundKey::new(&ring::aead::AES_256_GCM, key)?;
    let key = ring::aead::LessSafeKey::new(unbound);
    let nonce = ring::aead::Nonce::assume_unique_for_key(*nonce);
    let mut in_out = sealed;
    let plaintext = key.open_in_place(nonce, ring::aead::Aad::empty(), &mut in_out)?;
    Ok(plaintext.to_vec())
}

/// Fills `N` bytes with `ring::rand::SecureRandom::fill` on a
/// `ring::rand::SystemRandom`. Trusted; the bytes are random, so nothing is
/// claimed of them.
#[verifier::external_body]
pub(crate) fn system_random<const N: usize>() -> Result<[u8; N], ring::error::Unspecified> {
    let mut bytes = [0u8; N];
    ring::rand::SecureRandom::fill(&ring::rand::SystemRandom::new(), &mut bytes)?;
    Ok(bytes)
}

/// Fills 32 bytes with `rand::RngCore::fill_bytes` on `rand::rngs::OsRng`.
/// Trusted; the bytes are random, so nothing is claimed of them. Where the
/// operating system gives no randomness the call does not return.
#[verifier::external_body]
pub(crate) fn os_random() -> [u8; 32] {
    let mut bytes = [0u8; 32];
    rand::RngCore::fill_bytes(&mut rand::rngs::OsRng, &mut bytes);
    bytes
}

/// Calls `ring::digest::digest` with SHA-256. Trusted: the result is the
/// digest of `data`, 32 bytes long. `ring` panics on an input too long to
/// hash, which the precondition leaves out.
#[verifier::external_body]
pub(crate) fn sha256_digest(data: &[u8]) -> (out: Vec<u8>)
    requires
        data@.len() <= MAX_DIGEST_INPUT,
    ensures
        out@ == sha256(data@),
        out@.len() == 32,
{
    ring::digest::digest(&ring::digest::SHA256, data).as_ref().to_vec()
}

/// Calls `hex::encode`. Trusted: each byte becomes two lower-case
/// hexadecimal digits, in order.
#[verifier::external_body]
pub(crate) fn hex_encode(data: &[u8]) -> (text: String)
    ensures
        text@ == hex_lower(data@),
{
    hex::encode(data)
}

/// Calls `zeroize::Zeroize::zeroize` on a vector of bytes. Trusted: the
/// bytes are overwritten with zeros and the vector is left empty; the call
/// does not panic.
#[verifier::external_body]
pub(crate) fn zeroize_bytes(bytes: &mut Vec<u8>)
    ensures
        final(bytes)@ == Seq::<u8>::empty(),
    opens_invariants none
    no_unwind
{
    zeroize::Zeroize::zeroize(bytes);
}

/// Calls `zeroize::Zeroize::zeroize` on a key of 32 bytes. Trusted: every
/// byte is overwritten with zero; the call does not panic.
#[verifier::external_body]
pub(crate) fn zeroize_key(key: &mut [u8; 32])
    ensures
        final(key)@ == Seq::new(32, |i: int| 0u8),
    opens_invariants none
    no_unwind
{
    zeroize::Zeroize::zeroize(key);
}

/// Calls `zeroize::Zeroize::zeroize` on a text that may be absent.
/// Trusted: the bytes of a text that is there are overwritten with zeros,
/// and the text is absent afterwards; the call does not panic.
#[verifier::external_body]
pub(crate) fn zeroize_text(text: &mut Option<String>)
    ensures
        *final(text) == None::<String>,
    opens_invariants none
    no_unwind
{
    zeroize::Zeroize::zeroize(text);
}

} // verus!
