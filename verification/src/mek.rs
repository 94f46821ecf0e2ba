//! The key-wrap record: the vault's root key, sealed under the master secret.
//!
//! The root key (the master encryption key, MEK) is drawn once and never
//! again. Changing the master secret seals the same root key anew, so that
//! everything sealed under the root key stays as it is.

use crate::crypto::{
    is_sealing_failure, kdf_accepts, Cryptographer, Envelope, SecureData, ITERATIONS,
};
use crate::error_handling::CryptoError;
use crate::primitives::{
    kdf_inputs_fit, pbkdf2_derive, pbkdf2_hmac_sha256, zeroize_bytes, zeroize_key, KEY_SIZE,
    MAX_DIGEST_INPUT, SALT_LEN, TAG_LEN,
};
use vstd::prelude::*;

verus! {

/// What a key-wrap record is: the envelope around the root key, and the salt
/// of the key that the envelope is sealed under.
pub struct MekRecord {
    pub wrapped: Envelope,
    pub wrap_salt: Seq<u8>,
}

impl MekRecord {
    /// The wrap key of this record under `master_password`.
    pub open spec fn wrap_key(self, master_password: Seq<u8>) -> Seq<u8> {
        pbkdf2_hmac_sha256(ITERATIONS, self.wrap_salt, master_password, KEY_SIZE as nat)
    }

    /// Whether the record can be tried with `master_password` at all: both
    /// key derivations on the way can take their inputs.
    pub open spec fn can_try(self, master_password: Seq<u8>) -> bool {
        &&& kdf_inputs_fit(self.wrap_salt, master_password)
        &&& kdf_inputs_fit(self.wrapped.salt, self.wrap_key(master_password))
    }

    /// The root key that `master_password` unwraps, or nothing where it
    /// unwraps none.
    pub open spec fn unwrapped(self, master_password: Seq<u8>) -> Option<Seq<u8>> {
        if self.can_try(master_password) {
            self.wrapped.opened(ITERATIONS, self.wrap_key(master_password))
        } else {
            None
        }
    }

    /// Whether this record wraps `mek` under `master_password`: its salt has
    /// 16 bytes, and its envelope is an encryption of `mek` under the wrap
    /// key.
    pub open spec fn wraps(self, mek: Seq<u8>, master_password: Seq<u8>) -> bool {
        &&& self.wrap_salt.len() == SALT_LEN
        &&& kdf_inputs_fit(self.wrap_salt, master_password)
        &&& self.wrapped.seals(ITERATIONS, mek, self.wrap_key(master_password))
    }

    /// Whether this record is a fresh one for `master_password`: it wraps a
    /// root key of 32 bytes, which `master_password` unwraps, in a sealed
    /// text of 48 bytes.
    pub open spec fn is_fresh_for(self, master_password: Seq<u8>) -> bool {
        &&& self.unwrapped(master_password) matches Some(mek)
        &&& mek.len() == KEY_SIZE
        &&& self.wraps(mek, master_password)
        &&& self.wrapped.ciphertext_and_tag.len() == KEY_SIZE + TAG_LEN
    }

    /// Whether this record is what rotating `before` from `old` to `new`
    /// gives: the same salt, and the root key that `old` unwrapped from
    /// `before`, sealed anew under the wrap key of `new`.
    pub open spec fn is_rotation_of(self, before: MekRecord, old: Seq<u8>, new: Seq<u8>) -> bool {
        &&& self.wrap_salt == before.wrap_salt
        &&& kdf_inputs_fit(self.wrap_salt, new)
        &&& before.unwrapped(old) matches Some(mek)
        &&& self.wrapped.seals(ITERATIONS, mek, self.wrap_key(new))
    }
}

/// The key-wrap record of a vault.
#[derive(Debug)]
pub struct MekData {
    pub encrypted_mek: SecureData,
    pub mek_salt: Vec<u8>,
}

impl View for MekData {
    type V = MekRecord;

    open spec fn view(&self) -> MekRecord {
        MekRecord { wrapped: self.encrypted_mek@, wrap_salt: self.mek_salt@ }
    }
}

impl Clone for MekData {
    fn clone(&self) -> (copy: Self)
        ensures
            copy@ == self@,
    {
        MekData { encrypted_mek: self.encrypted_mek.clone(), mek_salt: self.mek_salt.clone() }
    }
}

impl MekData {
    /// The wrap key for `master_password` and `salt`.
    pub fn derive_mek_key(master_password: &[u8], salt: &[u8]) -> (key: [u8; 32])
        requires
            kdf_inputs_fit(salt@, master_password@),
        ensures
            key@ == pbkdf2_hmac_sha256(ITERATIONS, salt@, master_password@, KEY_SIZE as nat),
    {
        pbkdf2_derive(ITERATIONS, salt, master_password)
    }

    /// Seals `mek` under the wrap key of `master_password` and `mek_salt`.
    fn wrap(mek: &[u8], master_password: &[u8], mek_salt: Vec<u8>) -> (r: Result<
        Self,
        CryptoError,
    >)
        requires
            kdf_inputs_fit(mek_salt@, master_password@),
        ensures
            match r {
                Ok(record) => {
                    &&& record@.wrap_salt == mek_salt@
                    &&& record@.wrapped.seals(ITERATIONS, mek@, record@.wrap_key(master_password@))
                },
                Err(e) => is_sealing_failure(e),
            },
    {
        let cryptographer = Cryptographer::new(None);
        let mut derived_key = Self::derive_mek_key(master_password, mek_salt.as_slice());
        let sealed = cryptographer.encrypt(mek, derived_key.as_slice());
        zeroize_key(&mut derived_key);
        match sealed {
            Ok(encrypted_mek) => Ok(MekData { encrypted_mek, mek_salt }),
            Err(e) => Err(e),
        }
    }

    /// A fresh record for `master_password`: a new salt, and a new random
    /// root key of 32 bytes sealed under the wrap key.
    ///
    /// Fails with `KeyDerivationFailed` where the master secret is too long
    /// to hash, and else only where no randomness can be had or the cipher
    /// refuses.
    pub fn new(master_password: &[u8]) -> (r: Result<Self, CryptoError>)
        ensures
            match r {
                Ok(record) => record@.is_fresh_for(master_password@),
                Err(e) => is_sealing_failure(e) || e is KeyDerivationFailed,
            },
            (r matches Err(CryptoError::KeyDerivationFailed)) <==> master_password@.len()
                > MAX_DIGEST_INPUT,
    {
        if master_password.len() as u64 > MAX_DIGEST_INPUT {
            return Err(CryptoError::KeyDerivationFailed);
        }
        let mek_salt = match Cryptographer::generate_salt() {
            Ok(salt) => salt,
            Err(e) => {
                return Err(e);
            },
        };
        let mut mek = match Cryptographer::generate_random_bytes() {
            Ok(mek) => mek,
            Err(e) => {
                return Err(e);
            },
        };
        let wrapped = Self::wrap(mek.as_slice(), master_password, mek_salt);
        zeroize_bytes(&mut mek);
        wrapped
    }

    /// The root key, unwrapped with `master_password`.
    ///
    /// Fails with `KeyDerivationFailed` where `master_password` does not
    /// unwrap the record: it is the wrong secret, or the record was changed.
    /// The caller has to have checked the secret against the authentication
    /// record before, to tell the two apart.
    pub fn decrypt_mek(&self, master_password: &[u8]) -> (r: Result<Vec<u8>, CryptoError>)
        ensures
            match self@.unwrapped(master_password@) {
                Some(mek) => (r matches Ok(bytes) && bytes@ == mek),
                None => r matches Err(CryptoError::KeyDerivationFailed),
            },
    {
        if !kdf_accepts(self.mek_salt.as_slice(), master_password) {
            return Err(CryptoError::KeyDerivationFailed);
        }
        let cryptographer = Cryptographer::new(None);
        let mut derived_key = Self::derive_mek_key(master_password, self.mek_salt.as_slice());
        let opened = cryptographer.decrypt(self.encrypted_mek.clone(), derived_key.as_slice());
        zeroize_key(&mut derived_key);
        match opened {
            Ok(mek) => Ok(mek),
            Err(_) => Err(CryptoError::KeyDerivationFailed),
        }
    }

    /// A record with the salt of this one, and `mek` sealed anew under the
    /// wrap key of `master_password`.
    pub fn reencrypt_mek(&self, master_password: &[u8], mek: &[u8]) -> (r: Result<
        Self,
        CryptoError,
    >)
        ensures
            match r {
                Ok(record) => {
                    &&& record@.wrap_salt == self@.wrap_salt
                    &&& kdf_inputs_fit(self@.wrap_salt, master_password@)
                    &&& record@.wrapped.seals(ITERATIONS, mek@, record@.wrap_key(master_password@))
                },
                Err(e) => is_sealing_failure(e) || e is KeyDerivationFailed,
            },
            (r matches Err(CryptoError::KeyDerivationFailed)) <==> !kdf_inputs_fit(
                self@.wrap_salt,
                master_password@,
            ),
    {
        if !kdf_accepts(self.mek_salt.as_slice(), master_password) {
            return Err(CryptoError::KeyDerivationFailed);
        }
        Self::wrap(mek, master_password, self.mek_salt.clone())
    }

    /// Rotates the record from `old_master_password` to
    /// `new_master_password`, and returns a copy of the new record.
    ///
    /// The root key is unwrapped with the old secret and sealed anew under
    /// the wrap key of the new one. The salt of the wrap key stays, and so
    /// does the root key. Fails with `KeyDerivationFailed` where the old
    /// secret does not unwrap the record or the new one is too long to hash.
    /// On any failure the record is left as it was.
    pub fn update_mek(&mut self, old_master_password: &[u8], new_master_password: &[u8]) -> (r:
        Result<Self, CryptoError>)
        ensures
            match r {
                Ok(record) => {
                    &&& record@ == final(self)@
                    &&& final(self)@.is_rotation_of(
                        old(self)@,
                        old_master_password@,
                        new_master_password@,
                    )
                },
                Err(e) => {
                    &&& final(self)@ == old(self)@
                    &&& is_sealing_failure(e) || e is KeyDerivationFailed
                },
            },
            (r matches Err(CryptoError::KeyDerivationFailed)) <==> (old(self)@.unwrapped(
                old_master_password@,
            ) is None || !kdf_inputs_fit(old(self)@.wrap_salt, new_master_password@)),
    {
        let mut mek = match self.decrypt_mek(old_master_password) {
            Ok(mek) => mek,
            Err(e) => {
                return Err(e);
            },
        };
        let rewrapped = self.reencrypt_mek(new_master_password, mek.as_slice());
        zeroize_bytes(&mut mek);
        match rewrapped {
            Ok(record) => {
                self.encrypted_mek = record.encrypted_mek;
                Ok(self.clone())
            },
            Err(e) => Err(e),
        }
    }
}

/// Rotation keeps the root key: what the new secret unwraps from the rotated
/// record is what the old secret unwrapped from the record before.
pub proof fn lemma_rotation_preserves_mek(
    before: MekRecord,
    after: MekRecord,
    old: Seq<u8>,
    new: Seq<u8>,
)
    requires
        after.is_rotation_of(before, old, new),
    ensures
        after.unwrapped(new) == before.unwrapped(old),
        after.unwrapped(new) is Some,
{
}

/// What the old secret is worth after a rotation: it unwraps the rotated
/// record exactly where the cipher opens the new envelope under the old wrap
/// key. Where the old and the new secret are the same it does.
pub proof fn lemma_old_secret_after_rotation(
    before: MekRecord,
    after: MekRecord,
    old: Seq<u8>,
    new: Seq<u8>,
)
    requires
        after.is_rotation_of(before, old, new),
    ensures
        after.unwrapped(old) is Some <==> (kdf_inputs_fit(after.wrapped.salt, after.wrap_key(old))
            && after.wrapped.opened(ITERATIONS, after.wrap_key(old)) is Some),
        old == new ==> after.unwrapped(old) == before.unwrapped(old),
{
}

/// A record made for a master secret gives up its root key to that secret.
pub proof fn lemma_unwrap_inverts_wrap(record: MekRecord, mek: Seq<u8>, master_password: Seq<u8>)
    requires
        record.wraps(mek, master_password),
    ensures
        record.unwrapped(master_password) == Some(mek),
{
}

} // verus!
