//! The authentication record: a salted hash of the master secret.
//!
//! The record serves to check an attempt at the master secret and nothing
//! else. No encryption key is ever derived from it.

use crate::canonical::bytes_equal;
use crate::crypto::{kdf_accepts, ITERATIONS};
use crate::error_handling::CryptoError;
use crate::primitives::{
    kdf_inputs_fit, pbkdf2_derive, pbkdf2_hmac_sha256, pbkdf2_matches, pbkdf2_verify,
    system_random, MAX_DIGEST_INPUT, SALT_LEN,
};
use vstd::prelude::*;
use vstd::slice::slice_to_vec;
use vstd::std_specs::cmp::PartialEqSpecImpl;

verus! {

/// Length in bytes of the stored hash.
pub const CREDENTIAL_LEN: usize = 32;

/// What an authentication record is: a salt and the hash of the master
/// secret under it.
pub struct AuthRecord {
    pub salt: Seq<u8>,
    pub password_hash: Seq<u8>,
}

impl AuthRecord {
    /// The hash of `password` under `salt`.
    pub open spec fn hash_of(password: Seq<u8>, salt: Seq<u8>) -> Seq<u8> {
        pbkdf2_hmac_sha256(ITERATIONS, salt, password, CREDENTIAL_LEN as nat)
    }

    /// Whether this record was made of `password`: with a salt of 16 bytes
    /// and the hash of `password` under it. No record is made of a password
    /// too long to hash.
    pub open spec fn is_record_of(self, password: Seq<u8>) -> bool {
        &&& password.len() <= MAX_DIGEST_INPUT
        &&& self.salt.len() == SALT_LEN
        &&& self.password_hash == Self::hash_of(password, self.salt)
        &&& self.password_hash.len() == CREDENTIAL_LEN
    }

    /// Whether this record accepts `attempt` as the master secret: the
    /// stored hash is not empty and is what hashing `attempt` under the
    /// stored salt gives.
    pub open spec fn accepts(self, attempt: Seq<u8>) -> bool {
        pbkdf2_matches(ITERATIONS, self.salt, attempt, self.password_hash)
    }
}

/// The authentication record of a vault.
#[derive(Debug)]
pub struct MasterPasswordData {
    pub salt: Vec<u8>,
    pub password_hash: Vec<u8>,
}

impl View for MasterPasswordData {
    type V = AuthRecord;

    open spec fn view(&self) -> AuthRecord {
        AuthRecord { salt: self.salt@, password_hash: self.password_hash@ }
    }
}

impl MasterPasswordData {
    /// The record of `password` under the salt given.
    ///
    /// This is `set_new_master_password` without its randomness. Fails with
    /// `KeyDerivationFailed` where the salt or the password is too long to
    /// hash.
    pub fn with_salt(password: &[u8], salt: Vec<u8>) -> (r: Result<Self, CryptoError>)
        ensures
            match r {
                Ok(record) => {
                    &&& kdf_inputs_fit(salt@, password@)
                    &&& record@.salt == salt@
                    &&& record@.password_hash == AuthRecord::hash_of(password@, salt@)
                    &&& record@.password_hash.len() == CREDENTIAL_LEN
                },
                Err(e) => e is KeyDerivationFailed && !kdf_inputs_fit(salt@, password@),
            },
    {
        if !kdf_accepts(salt.as_slice(), password) {
            return Err(CryptoError::KeyDerivationFailed);
        }
        let hash = pbkdf2_derive(ITERATIONS, salt.as_slice(), password);
        Ok(MasterPasswordData { salt, password_hash: slice_to_vec(hash.as_slice()) })
    }

    /// A fresh record of `password`, under a salt drawn anew.
    ///
    /// Fails with `CryptoOperationFailed` where no randomness can be had, and
    /// with `KeyDerivationFailed` where the password is too long to hash.
    pub fn set_new_master_password(password: &[u8]) -> (r: Result<Self, CryptoError>)
        ensures
            match r {
                Ok(record) => record@.is_record_of(password@),
                Err(e) => e is CryptoOperationFailed || e is KeyDerivationFailed,
            },
            (r matches Err(CryptoError::KeyDerivationFailed)) <==> password@.len()
                > MAX_DIGEST_INPUT,
    {
        if password.len() as u64 > MAX_DIGEST_INPUT {
            return Err(CryptoError::KeyDerivationFailed);
        }
        let salt = match system_random::<16>() {
            Ok(salt) => slice_to_vec(salt.as_slice()),
            Err(e) => {
                return Err(CryptoError::from(e));
            },
        };
        Self::with_salt(password, salt)
    }

    /// Whether `password_attempt` is the master secret of this record.
    ///
    /// The hash of the attempt is compared with the stored one without
    /// stopping at the first byte that differs.
    pub fn verify_master_password(&self, password_attempt: &[u8]) -> (accepted: bool)
        ensures
            accepted == self@.accepts(password_attempt@),
    {
        pbkdf2_verify(
            ITERATIONS,
            self.salt.as_slice(),
            password_attempt,
            self.password_hash.as_slice(),
        )
    }
}

impl Clone for MasterPasswordData {
    fn clone(&self) -> (copy: Self)
        ensures
            copy@ == self@,
    {
        MasterPasswordData { salt: self.salt.clone(), password_hash: self.password_hash.clone() }
    }
}

impl PartialEq for MasterPasswordData {
    fn eq(&self, other: &Self) -> (same: bool) {
        bytes_equal(self.salt.as_slice(), other.salt.as_slice()) && bytes_equal(
            self.password_hash.as_slice(),
            other.password_hash.as_slice(),
        )
    }
}

impl PartialEqSpecImpl for MasterPasswordData {
    open spec fn obeys_eq_spec() -> bool {
        true
    }

    open spec fn eq_spec(&self, other: &Self) -> bool {
        self.salt@ == other.salt@ && self.password_hash@ == other.password_hash@
    }
}

impl Eq for MasterPasswordData {

}

impl Default for MasterPasswordData {
    /// A record that accepts nothing: a salt of 16 zeros and no hash.
    fn default() -> (record: Self)
        ensures
            record@.salt == Seq::new(16, |i: int| 0u8),
            record@.password_hash == Seq::<u8>::empty(),
    {
        let record = MasterPasswordData { salt: vec![0u8;16], password_hash: Vec::new() };
        assert(record@.salt =~= Seq::new(16, |i: int| 0u8));
        record
    }
}

/// A record made of a secret accepts that secret.
pub proof fn lemma_record_accepts_its_secret(record: AuthRecord, secret: Seq<u8>)
    requires
        record.is_record_of(secret),
    ensures
        record.accepts(secret),
{
}

/// A record made of one secret accepts another exactly when the two hash
/// alike under the record's salt.
pub proof fn lemma_record_accepts_only_same_hash(
    record: AuthRecord,
    secret: Seq<u8>,
    attempt: Seq<u8>,
)
    requires
        record.is_record_of(secret),
        attempt.len() <= MAX_DIGEST_INPUT,
    ensures
        record.accepts(attempt) <==> AuthRecord::hash_of(attempt, record.salt)
            == AuthRecord::hash_of(secret, record.salt),
{
}

} // verus!
