//! Envelope encryption: bytes sealed under key material of any strength.
//!
//! Each envelope carries its own random salt and nonce. The cipher key is
//! derived from the key material and that salt, so no two envelopes share a
//! key and nonce, whatever the caller does.

use crate::error_handling::{is_outcome, CryptoError};
use crate::primitives::{
    aes_256_gcm_open, aes_256_gcm_seal, kdf_inputs_fit, open, os_random, pbkdf2_derive,
    pbkdf2_hmac_sha256, seal, system_random, zeroize_bytes, KEY_SIZE, MAX_DIGEST_INPUT, NONCE_LEN,
    SALT_LEN, TAG_LEN,
};
use vstd::pervasive::unreached;
use vstd::prelude::*;
use vstd::slice::slice_to_vec;

verus! {

/// The number of PBKDF2 rounds used where none is asked for.
pub const ITERATIONS: u32 = 100_000;

/// A number of PBKDF2 rounds: never zero.
#[derive(Clone, Copy, Debug)]
pub struct IterationCount {
    rounds: u32,
}

impl IterationCount {
    #[verifier::type_invariant]
    spec fn is_positive(self) -> bool {
        self.rounds != 0
    }

    /// The number of rounds.
    pub closed spec fn value(self) -> u32 {
        self.rounds
    }

    /// `rounds` as a count, unless it is zero.
    pub fn new(rounds: u32) -> (count: Option<Self>)
        ensures
            rounds == 0 ==> count is None,
            rounds != 0 ==> (count matches Some(c) && c.value() == rounds),
    {
        if rounds == 0 {
            None
        } else {
            Some(IterationCount { rounds })
        }
    }

    /// The number of rounds.
    pub fn get(&self) -> (rounds: u32)
        ensures
            rounds == self.value(),
            rounds != 0,
    {
        proof {
            use_type_invariant(self);
        }
        self.rounds
    }
}

/// What an envelope is: the sealed text with its tag, and the nonce and salt
/// it was sealed with.
pub struct Envelope {
    pub ciphertext_and_tag: Seq<u8>,
    pub nonce: Seq<u8>,
    pub salt: Seq<u8>,
}

impl Envelope {
    /// The cipher key of this envelope under `key_material`.
    pub open spec fn key(self, iterations: u32, key_material: Seq<u8>) -> Seq<u8> {
        pbkdf2_hmac_sha256(iterations, self.salt, key_material, KEY_SIZE as nat)
    }

    /// The envelope that sealing `plaintext` under `key_material` gives with
    /// this salt and nonce, where the cipher accepts the plaintext.
    pub open spec fn sealed(
        iterations: u32,
        plaintext: Seq<u8>,
        key_material: Seq<u8>,
        salt: Seq<u8>,
        nonce: Seq<u8>,
    ) -> Option<Envelope> {
        let key = pbkdf2_hmac_sha256(iterations, salt, key_material, KEY_SIZE as nat);
        match aes_256_gcm_seal(key, nonce, plaintext) {
            Some(ciphertext_and_tag) => Some(Envelope { ciphertext_and_tag, nonce, salt }),
            None => None,
        }
    }

    /// What opening this envelope under `key_material` gives: the plaintext,
    /// or nothing where the key material is wrong or the envelope was
    /// changed. The two cannot be told apart.
    pub open spec fn opened(self, iterations: u32, key_material: Seq<u8>) -> Option<Seq<u8>> {
        aes_256_gcm_open(self.key(iterations, key_material), self.nonce, self.ciphertext_and_tag)
    }

    /// What decrypting this envelope under `key_material` gives: the
    /// plaintext; or `DecryptionFailed` where the envelope does not open,
    /// `KeyDerivationFailed` where its salt or the key material is too long
    /// to hash.
    pub open spec fn decrypted(self, iterations: u32, key_material: Seq<u8>) -> Result<
        Seq<u8>,
        CryptoError,
    > {
        if !kdf_inputs_fit(self.salt, key_material) {
            Err(CryptoError::KeyDerivationFailed)
        } else {
            match self.opened(iterations, key_material) {
                Some(plaintext) => Ok(plaintext),
                None => Err(CryptoError::DecryptionFailed),
            }
        }
    }

    /// Whether this envelope is an encryption of `plaintext` under
    /// `key_material`: sealed from it with a salt of 16 bytes and a nonce of
    /// 12, as long as the plaintext and the tag of 16 bytes behind it, and
    /// giving the plaintext back when opened. Nothing is sealed under key
    /// material too long to hash.
    pub open spec fn seals(self, iterations: u32, plaintext: Seq<u8>, key_material: Seq<u8>) -> bool {
        &&& key_material.len() <= MAX_DIGEST_INPUT
        &&& self.salt.len() == SALT_LEN
        &&& self.nonce.len() == NONCE_LEN
        &&& self.ciphertext_and_tag.len() == plaintext.len() + TAG_LEN
        &&& Envelope::sealed(iterations, plaintext, key_material, self.salt, self.nonce) == Some(
            self,
        )
        &&& self.opened(iterations, key_material) == Some(plaintext)
    }
}

/// Whether `e` is one of the errors that sealing an envelope can end in
/// where the key material can be hashed: no randomness for the nonce or the
/// salt, or a refusal of the cipher.
pub open spec fn is_sealing_failure(e: CryptoError) -> bool {
    e is NonceGenerationFailed || e is SaltGenerationFailed || e is EncryptionFailed
}

/// A derived cipher key. Its bytes are overwritten when it is released.
pub struct EncryptionKey {
    pub key: Vec<u8>,
}

impl EncryptionKey {
    /// Overwrites the key with zeros and leaves it empty.
    pub fn zeroize(&mut self)
        ensures
            final(self).key@ == Seq::<u8>::empty(),
    {
        zeroize_bytes(&mut self.key);
    }
}

impl Drop for EncryptionKey {
    fn drop(&mut self)
        opens_invariants none
        no_unwind
    {
        zeroize_bytes(&mut self.key);
    }
}

/// A sealed text with everything but the key material that opening it takes.
#[derive(Debug)]
pub struct SecureData {
    pub encrypted_data: Vec<u8>,
    pub nonce: [u8; 12],
    pub salt: Vec<u8>,
}

impl View for SecureData {
    type V = Envelope;

    open spec fn view(&self) -> Envelope {
        Envelope {
            ciphertext_and_tag: self.encrypted_data@,
            nonce: self.nonce@,
            salt: self.salt@,
        }
    }
}

impl Clone for SecureData {
    fn clone(&self) -> (copy: Self)
        ensures
            copy@ == self@,
    {
        SecureData {
            encrypted_data: self.encrypted_data.clone(),
            nonce: self.nonce,
            salt: self.salt.clone(),
        }
    }
}

impl Default for SecureData {
    /// An envelope of nothing: no text, no salt, a nonce of zeros.
    fn default() -> (empty: Self)
        ensures
            empty.encrypted_data@ == Seq::<u8>::empty(),
            empty.salt@ == Seq::<u8>::empty(),
            empty.nonce@ == Seq::new(12, |i: int| 0u8),
    {
        let empty = SecureData { encrypted_data: Vec::new(), nonce: [0u8; 12], salt: Vec::new() };
        assert(empty.nonce@ =~= Seq::new(12, |i: int| 0u8));
        empty
    }
}

/// Whether PBKDF2 can take this salt and this secret.
pub fn kdf_accepts(salt: &[u8], secret: &[u8]) -> (fits: bool)
    ensures
        fits == kdf_inputs_fit(salt@, secret@),
{
    secret.len() as u64 <= MAX_DIGEST_INPUT && salt.len() as u64 <= MAX_DIGEST_INPUT - 68
}

/// Seals and opens envelopes with a fixed number of PBKDF2 rounds.
#[derive(Debug)]
pub struct Cryptographer {
    pub iterations: IterationCount,
}

impl Cryptographer {
    /// The number of rounds of this cryptographer.
    pub open spec fn rounds(&self) -> u32 {
        self.iterations.value()
    }

    /// A cryptographer with `iterations` rounds, or with 100,000 where none
    /// is given. A count of zero is not accepted.
    pub fn new(iterations: Option<u32>) -> (cryptographer: Self)
        requires
            iterations != Some(0u32),
        ensures
            cryptographer.rounds() == match iterations {
                Some(rounds) => rounds,
                None => ITERATIONS,
            },
    {
        let rounds = match iterations {
            Some(rounds) => rounds,
            None => ITERATIONS,
        };
        match IterationCount::new(rounds) {
            Some(iterations) => Cryptographer { iterations },
            None => unreached(),
        }
    }

    /// 32 bytes from the operating system's random source.
    pub fn generate_random_bytes() -> (r: Result<Vec<u8>, CryptoError>)
        ensures
            (r matches Ok(bytes) && bytes@.len() == KEY_SIZE),
    {
        let bytes = os_random();
        Ok(slice_to_vec(bytes.as_slice()))
    }

    /// A fresh random salt of 16 bytes.
    pub fn generate_salt() -> (r: Result<Vec<u8>, CryptoError>)
        ensures
            match r {
                Ok(salt) => salt@.len() == SALT_LEN,
                Err(e) => e is SaltGenerationFailed,
            },
    {
        match system_random::<16>() {
            Ok(salt) => Ok(slice_to_vec(salt.as_slice())),
            Err(_) => Err(CryptoError::SaltGenerationFailed),
        }
    }

    /// A fresh random nonce of 12 bytes.
    pub fn generate_nonce() -> (r: Result<[u8; 12], CryptoError>)
        ensures
            r matches Err(e) ==> e is NonceGenerationFailed,
    {
        match system_random::<12>() {
            Ok(nonce) => Ok(nonce),
            Err(_) => Err(CryptoError::NonceGenerationFailed),
        }
    }

    /// The cipher key for `password` and `salt`.
    pub(crate) fn derive_encryption_key(&self, password: &[u8], salt: &[u8]) -> (derived:
        EncryptionKey)
        requires
            kdf_inputs_fit(salt@, password@),
        ensures
            derived.key@ == pbkdf2_hmac_sha256(self.rounds(), salt@, password@, KEY_SIZE as nat),
    {
        let key = pbkdf2_derive(self.iterations.get(), salt, password);
        EncryptionKey { key: slice_to_vec(key.as_slice()) }
    }

    /// Seals `data` under `password` with the salt and nonce given.
    ///
    /// This is `encrypt` without its randomness, for callers that bring
    /// their own. A pair of salt and nonce must never be used twice.
    pub fn encrypt_with(&self, data: &[u8], password: &[u8], salt: Vec<u8>, nonce: [u8; 12]) -> (r:
        Result<SecureData, CryptoError>)
        ensures
            !kdf_inputs_fit(salt@, password@) ==> r matches Err(CryptoError::KeyDerivationFailed),
            kdf_inputs_fit(salt@, password@) ==> match Envelope::sealed(
                self.rounds(),
                data@,
                password@,
                salt@,
                nonce@,
            ) {
                Some(envelope) => {
                    &&& r matches Ok(sealed)
                    &&& sealed@ == envelope
                    &&& envelope.ciphertext_and_tag.len() == data@.len() + TAG_LEN
                    &&& envelope.opened(self.rounds(), password@) == Some(data@)
                },
                None => r matches Err(CryptoError::EncryptionFailed),
            },
    {
        if !kdf_accepts(salt.as_slice(), password) {
            return Err(CryptoError::KeyDerivationFailed);
        }
        let mut encryption_key = self.derive_encryption_key(password, salt.as_slice());
        let sealed = seal(encryption_key.key.as_slice(), &nonce, data);
        encryption_key.zeroize();
        match sealed {
            Ok(encrypted_data) => Ok(SecureData { encrypted_data, nonce, salt }),
            Err(_) => Err(CryptoError::EncryptionFailed),
        }
    }

    /// Seals `data` under `password` in a fresh envelope.
    ///
    /// The salt and the nonce are drawn anew on every call. The envelope
    /// opens under the same password to the same data. Fails with
    /// `KeyDerivationFailed` exactly where the password is too long to hash,
    /// and else only where no randomness can be had or the cipher refuses
    /// the data.
    pub fn encrypt(&self, data: &[u8], password: &[u8]) -> (r: Result<SecureData, CryptoError>)
        ensures
            match r {
                Ok(sealed) => sealed@.seals(self.rounds(), data@, password@),
                Err(e) => is_sealing_failure(e) || e is KeyDerivationFailed,
            },
            (r matches Err(CryptoError::KeyDerivationFailed)) <==> password@.len()
                > MAX_DIGEST_INPUT,
    {
        if password.len() as u64 > MAX_DIGEST_INPUT {
            return Err(CryptoError::KeyDerivationFailed);
        }
        let nonce = match Self::generate_nonce() {
            Ok(nonce) => nonce,
            Err(e) => {
                return Err(e);
            },
        };
        let salt = match Self::generate_salt() {
            Ok(salt) => salt,
            Err(e) => {
                return Err(e);
            },
        };
        self.encrypt_with(data, password, salt, nonce)
    }

    /// Opens an envelope under `password`.
    ///
    /// Fails with `DecryptionFailed` where the password is wrong or the
    /// envelope was changed, and with `KeyDerivationFailed` where the salt or
    /// the password is too long to hash.
    pub fn decrypt(&self, secure_data: SecureData, password: &[u8]) -> (r: Result<
        Vec<u8>,
        CryptoError,
    >)
        ensures
            is_outcome(r, secure_data@.decrypted(self.rounds(), password@)),
    {
        if !kdf_accepts(secure_data.salt.as_slice(), password) {
            return Err(CryptoError::KeyDerivationFailed);
        }
        let mut encryption_key = self.derive_encryption_key(password, secure_data.salt.as_slice());
        let opened = open(
            encryption_key.key.as_slice(),
            &secure_data.nonce,
            secure_data.encrypted_data,
        );
        encryption_key.zeroize();
        match opened {
            Ok(data) => Ok(data),
            Err(_) => Err(CryptoError::DecryptionFailed),
        }
    }
}

/// Decrypting inverts encrypting: an envelope that is an encryption of
/// `plaintext` under `key_material` decrypts under the same key material to
/// `plaintext`.
pub proof fn lemma_decrypt_inverts_encrypt(
    iterations: u32,
    envelope: Envelope,
    plaintext: Seq<u8>,
    key_material: Seq<u8>,
)
    requires
        envelope.seals(iterations, plaintext, key_material),
    ensures
        envelope.decrypted(iterations, key_material) == Ok::<Seq<u8>, CryptoError>(plaintext),
{
}

} // verus!
