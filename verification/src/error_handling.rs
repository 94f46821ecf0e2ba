//! The one error type of the vault.

use vstd::prelude::*;
use vstd::std_specs::convert::FromSpecImpl;
use vstd::string::StringExecFns;

verus! {

/// The error of the operating system's input and output.
#[verifier::external_type_specification]
#[verifier::external_body]
pub struct ExIoError(std::io::Error);

/// The error of the JSON encoder and decoder.
#[verifier::external_type_specification]
#[verifier::external_body]
pub struct ExJsonError(serde_json::Error);

/// Everything that can go wrong in the vault.
///
/// Failures of the cryptographic primitives are final: nothing here is
/// retried. `IO` and `Serde` come from the persistence boundary and carry the
/// error they were made from.
#[derive(Debug)]
pub enum CryptoError {
    KeyDerivationFailed,
    EncryptionFailed,
    DecryptionFailed,
    NonceGenerationFailed,
    SaltGenerationFailed,
    IO(std::io::Error),
    Serde(serde_json::Error),
    InvalidInput,
    PasswordEntryNotFound,
    PasswordEntryAlreadyExists,
    MasterPasswordDataNotFound,
    MasterPasswordDataAlreadyExists,
    AuthenticationFailed,
    CryptoOperationFailed,
    MekGenerationFailed,
    MekDataAlreadyExists,
    MekUpdateFailed,
    MekDecryptionFailed,
    MekHashVerificationFailed,
    MekDataNotPresent,
}

/// Whether `r` is the outcome that `expected` describes: the same error, or
/// a value with the view given.
pub open spec fn is_outcome<T: View>(
    r: Result<T, CryptoError>,
    expected: Result<T::V, CryptoError>,
) -> bool {
    match (r, expected) {
        (Ok(value), Ok(view)) => value@ == view,
        (Err(e), Err(x)) => e == x,
        _ => false,
    }
}

/// Renders an I/O error with its own `Display`. Trusted; nothing is claimed
/// of the text.
#[verifier::external_body]
fn io_error_text(error: &std::io::Error) -> String {
    format!("{}", error)
}

/// Renders a JSON error with its own `Display`. Trusted; nothing is claimed
/// of the text.
#[verifier::external_body]
fn json_error_text(error: &serde_json::Error) -> String {
    format!("{}", error)
}

/// Makes the error of a document that is not the document of a vault, with
/// `serde::de::Error::custom`. Trusted; nothing is claimed of the error.
#[verifier::external_body]
pub(crate) fn unreadable_document() -> serde_json::Error {
    <serde_json::Error as serde::de::Error>::custom("the document is not the document of a vault")
}

impl CryptoError {
    /// The fixed part of the message: all of it, but for `IO` and `Serde`,
    /// whose messages go on with the text of the error they carry.
    pub open spec fn message_head(&self) -> Seq<char> {
        match self {
            CryptoError::KeyDerivationFailed => "Key derivation failed."@,
            CryptoError::EncryptionFailed => "Encryption process failed."@,
            CryptoError::DecryptionFailed => "Decryption process failed."@,
            CryptoError::NonceGenerationFailed => "Nonce generation failed."@,
            CryptoError::SaltGenerationFailed => "Salt generation failed."@,
            CryptoError::IO(_) => "IO error: "@,
            CryptoError::Serde(_) => "Serialization/deserialization error: "@,
            CryptoError::InvalidInput => "Invalid input."@,
            CryptoError::PasswordEntryNotFound => "Password entry not found."@,
            CryptoError::PasswordEntryAlreadyExists => "Password entry already exists."@,
            CryptoError::MasterPasswordDataNotFound => "Master password not found."@,
            CryptoError::MasterPasswordDataAlreadyExists => "Master password already exists!"@,
            CryptoError::AuthenticationFailed => "Authentication invalid or not accepted."@,
            CryptoError::CryptoOperationFailed => "Cryptographic operation failed."@,
            CryptoError::MekGenerationFailed => "MEK generation failed."@,
            CryptoError::MekDataAlreadyExists => "MEK data already exists."@,
            CryptoError::MekUpdateFailed => "MEK update failed."@,
            CryptoError::MekDecryptionFailed => "MEK decryption failed."@,
            CryptoError::MekHashVerificationFailed => "MEK hash verification failed."@,
            CryptoError::MekDataNotPresent => "MEK data not present."@,
        }
    }

    /// Whether the error carries another error, whose text ends the message.
    pub open spec fn has_detail(&self) -> bool {
        self is IO || self is Serde
    }

    /// The message of the error, for people.
    pub fn to_string(&self) -> (text: String)
        ensures
            !self.has_detail() ==> text@ == self.message_head(),
            self.has_detail() ==> self.message_head().is_prefix_of(text@),
    {
        match self {
            CryptoError::KeyDerivationFailed => String::from_str("Key derivation failed."),
            CryptoError::EncryptionFailed => String::from_str("Encryption process failed."),
            CryptoError::DecryptionFailed => String::from_str("Decryption process failed."),
            CryptoError::NonceGenerationFailed => String::from_str("Nonce generation failed."),
            CryptoError::SaltGenerationFailed => String::from_str("Salt generation failed."),
            CryptoError::IO(e) => {
                let detail = io_error_text(e);
                String::from_str("IO error: ").concat(detail.as_str())
            },
            CryptoError::Serde(e) => {
                let detail = json_error_text(e);
                String::from_str("Serialization/deserialization error: ").concat(detail.as_str())
            },
            CryptoError::InvalidInput => String::from_str("Invalid input."),
            CryptoError::PasswordEntryNotFound => String::from_str("Password entry not found."),
            CryptoError::PasswordEntryAlreadyExists => String::from_str(
                "Password entry already exists.",
            ),
            CryptoError::MasterPasswordDataNotFound => String::from_str(
                "Master password not found.",
            ),
            CryptoError::MasterPasswordDataAlreadyExists => String::from_str(
                "Master password already exists!",
            ),
            CryptoError::AuthenticationFailed => String::from_str(
                "Authentication invalid or not accepted.",
            ),
            CryptoError::CryptoOperationFailed => String::from_str(
                "Cryptographic operation failed.",
            ),
            CryptoError::MekGenerationFailed => String::from_str("MEK generation failed."),
            CryptoError::MekDataAlreadyExists => String::from_str("MEK data already exists."),
            CryptoError::MekUpdateFailed => String::from_str("MEK update failed."),
            CryptoError::MekDecryptionFailed => String::from_str("MEK decryption failed."),
            CryptoError::MekHashVerificationFailed => String::from_str(
                "MEK hash verification failed.",
            ),
            CryptoError::MekDataNotPresent => String::from_str("MEK data not present."),
        }
    }
}

impl From<std::io::Error> for CryptoError {
    fn from(error: std::io::Error) -> (converted: Self) {
        CryptoError::IO(error)
    }
}

impl FromSpecImpl<std::io::Error> for CryptoError {
    open spec fn obeys_from_spec() -> bool {
        true
    }

    open spec fn from_spec(error: std::io::Error) -> Self {
        CryptoError::IO(error)
    }
}

impl From<serde_json::Error> for CryptoError {
    fn from(error: serde_json::Error) -> (converted: Self) {
        CryptoError::Serde(error)
    }
}

impl FromSpecImpl<serde_json::Error> for CryptoError {
    open spec fn obeys_from_spec() -> bool {
        true
    }

    open spec fn from_spec(error: serde_json::Error) -> Self {
        CryptoError::Serde(error)
    }
}

impl From<ring::error::Unspecified> for CryptoError {
    fn from(error: ring::error::Unspecified) -> (converted: Self) {
        CryptoError::CryptoOperationFailed
    }
}

impl FromSpecImpl<ring::error::Unspecified> for CryptoError {
    open spec fn obeys_from_spec() -> bool {
        true
    }

    open spec fn from_spec(error: ring::error::Unspecified) -> Self {
        CryptoError::CryptoOperationFailed
    }
}

} // verus!
