//! Secret records, at rest and in use.
//!
//! A record at rest holds its secret field in an envelope sealed under the
//! root key; a record in use holds it as text. Everything else in a record
//! is plain in both. Two records are the same record when their ids are.

use crate::crypto::{is_sealing_failure, Cryptographer, Envelope, SecureData, ITERATIONS};
use crate::error_handling::{is_outcome, CryptoError};
use crate::platform::{is_hyphenated_uuid, new_uuid_v4, string_from_utf8, text_of, utc_now};
use crate::primitives::{zeroize_text, MAX_DIGEST_INPUT};
use vstd::prelude::*;
use vstd::std_specs::cmp::PartialEqSpecImpl;
use vstd::string::StringExecFns;
use vstd::utf8::{encode_utf8, encode_utf8_decode_utf8, encode_utf8_valid_utf8};

verus! {

/// The part of a record that is never sealed.
pub struct EntryFields {
    pub id: Seq<char>,
    pub title: Seq<char>,
    pub username: Option<Seq<char>>,
    pub url: Option<Seq<char>>,
    pub notes: Option<Seq<char>>,
    pub creation_date: Seq<char>,
    pub category: Option<Seq<char>>,
    pub favorite: bool,
}

/// What a record at rest is.
pub struct EntryView {
    pub fields: EntryFields,
    pub password: Option<Envelope>,
}

/// What a record in use is.
pub struct DecryptedEntryView {
    pub fields: EntryFields,
    pub password: Option<Seq<char>>,
}

impl EntryView {
    /// What revealing this record under `mek` gives: the same record with
    /// its secret field as text, or the error of the envelope that does not
    /// open. A record without a secret field is revealed as it is. Bytes
    /// that are no UTF-8 are revealed as the empty text.
    pub open spec fn revealed(self, mek: Seq<u8>) -> Result<DecryptedEntryView, CryptoError> {
        match self.password {
            None => Ok(DecryptedEntryView { fields: self.fields, password: None }),
            Some(envelope) => match envelope.decrypted(ITERATIONS, mek) {
                Ok(bytes) => Ok(
                    DecryptedEntryView { fields: self.fields, password: Some(text_of(bytes)) },
                ),
                Err(e) => Err(e),
            },
        }
    }

    /// Whether this record is `plain` protected under `mek`: the same
    /// fields, and the secret field, where there is one, in an envelope that
    /// is an encryption of its UTF-8 bytes.
    pub open spec fn protects(self, plain: DecryptedEntryView, mek: Seq<u8>) -> bool {
        &&& self.fields == plain.fields
        &&& match plain.password {
            None => self.password is None,
            Some(text) => {
                &&& self.password matches Some(envelope)
                &&& envelope.seals(ITERATIONS, encode_utf8(text), mek)
            },
        }
    }
}

/// The text in `field`, if any.
pub open spec fn text_in(field: Option<String>) -> Option<Seq<char>> {
    match field {
        Some(text) => Some(text@),
        None => None,
    }
}

/// The envelope in `field`, if any.
pub open spec fn envelope_in(field: Option<SecureData>) -> Option<Envelope> {
    match field {
        Some(sealed) => Some(sealed@),
        None => None,
    }
}

/// A copy of a text that may be absent.
fn clone_text(field: &Option<String>) -> (copy: Option<String>)
    ensures
        text_in(copy) == text_in(*field),
{
    match field {
        Some(text) => Some(text.clone()),
        None => None,
    }
}

/// The text in `field`, or the empty text.
fn text_or_empty(field: &Option<String>) -> (text: String)
    ensures
        text@ == match text_in(*field) {
            Some(t) => t,
            None => Seq::<char>::empty(),
        },
{
    match field {
        Some(text) => text.clone(),
        None => String::new(),
    }
}

/// A secret record at rest.
#[derive(Debug)]
pub struct PasswordEntry {
    pub id: String,
    pub title: String,
    pub username: Option<String>,
    pub password: Option<SecureData>,
    pub url: Option<String>,
    pub notes: Option<String>,
    pub creation_date: String,
    pub category: Option<String>,
    pub favorite: bool,
}

impl View for PasswordEntry {
    type V = EntryView;

    open spec fn view(&self) -> EntryView {
        EntryView {
            fields: EntryFields {
                id: self.id@,
                title: self.title@,
                username: text_in(self.username),
                url: text_in(self.url),
                notes: text_in(self.notes),
                creation_date: self.creation_date@,
                category: text_in(self.category),
                favorite: self.favorite,
            },
            password: envelope_in(self.password),
        }
    }
}

impl Clone for PasswordEntry {
    fn clone(&self) -> (copy: Self)
        ensures
            copy@ == self@,
    {
        PasswordEntry {
            id: self.id.clone(),
            title: self.title.clone(),
            username: clone_text(&self.username),
            password: match &self.password {
                Some(sealed) => Some(sealed.clone()),
                None => None,
            },
            url: clone_text(&self.url),
            notes: clone_text(&self.notes),
            creation_date: self.creation_date.clone(),
            category: clone_text(&self.category),
            favorite: self.favorite,
        }
    }
}

impl PartialEq for PasswordEntry {
    fn eq(&self, other: &Self) -> (same: bool) {
        self.id == other.id
    }
}

impl PartialEqSpecImpl for PasswordEntry {
    open spec fn obeys_eq_spec() -> bool {
        true
    }

    open spec fn eq_spec(&self, other: &Self) -> bool {
        self.id@ == other.id@
    }
}

impl Eq for PasswordEntry {

}

impl Default for PasswordEntry {
    /// An empty record with a fresh id, made now.
    fn default() -> (entry: Self)
        ensures
            is_hyphenated_uuid(entry@.fields.id),
            entry@.fields.title == Seq::<char>::empty(),
            entry@.fields.username is None,
            entry@.fields.url is None,
            entry@.fields.notes is None,
            entry@.fields.category is None,
            !entry@.fields.favorite,
            entry@.password is None,
    {
        PasswordEntry {
            id: new_uuid_v4(),
            title: String::new(),
            username: None,
            password: None,
            url: None,
            notes: None,
            creation_date: utc_now(),
            category: None,
            favorite: false,
        }
    }
}

impl PasswordEntry {
    /// A new record with a fresh id, made now.
    ///
    /// Where both a secret and the root key are given, the secret is sealed
    /// under the root key; else the record has no secret field. Fails only
    /// where that sealing fails.
    pub fn new(
        title_: String,
        username_: Option<String>,
        password_: Option<&[u8]>,
        url_: Option<String>,
        notes_: Option<String>,
        category_: Option<String>,
        favorite_: Option<bool>,
        mek: Option<&[u8]>,
    ) -> (r: Result<Self, CryptoError>)
        ensures
            match r {
                Ok(entry) => {
                    &&& is_hyphenated_uuid(entry@.fields.id)
                    &&& entry@.fields.title == title_@
                    &&& entry@.fields.username == text_in(username_)
                    &&& entry@.fields.url == text_in(url_)
                    &&& entry@.fields.notes == text_in(notes_)
                    &&& entry@.fields.category == text_in(category_)
                    &&& entry@.fields.favorite == (favorite_ == Some(true))
                    &&& match (password_, mek) {
                        (Some(secret), Some(key)) => {
                            &&& entry@.password matches Some(envelope)
                            &&& envelope.seals(ITERATIONS, secret@, key@)
                        },
                        _ => entry@.password is None,
                    }
                },
                Err(e) => {
                    &&& password_ is Some && mek is Some
                    &&& is_sealing_failure(e) || e is KeyDerivationFailed
                },
            },
            (r matches Err(CryptoError::KeyDerivationFailed)) <==> (password_ is Some && (
            mek matches Some(key) && key@.len() > MAX_DIGEST_INPUT)),
    {
        let cryptographer = Cryptographer::new(None);
        let sealed = match (password_, mek) {
            (Some(secret), Some(key)) => {
                match cryptographer.encrypt(secret, key) {
                    Ok(sealed) => Some(sealed),
                    Err(e) => {
                        return Err(e);
                    },
                }
            },
            _ => None,
        };
        Ok(
            PasswordEntry {
                id: new_uuid_v4(),
                title: title_,
                username: username_,
                password: sealed,
                url: url_,
                notes: notes_,
                creation_date: utc_now(),
                category: category_,
                favorite: match favorite_ {
                    Some(favorite) => favorite,
                    None => false,
                },
            },
        )
    }

    /// This record revealed under `mek`.
    pub fn to_decrypted(&self, mek: &[u8]) -> (r: Result<DecryptedPasswordEntry, CryptoError>)
        ensures
            is_outcome(r, self@.revealed(mek@)),
    {
        DecryptedPasswordEntry::new_from_password_entry(self.clone(), mek)
    }

    /// The title, the user name and the address of the record, for a list;
    /// the empty text stands for what is absent.
    pub fn display_name(&self) -> (names: [String; 3])
        ensures
            names[0]@ == self@.fields.title,
            names[1]@ == match self@.fields.username {
                Some(t) => t,
                None => Seq::<char>::empty(),
            },
            names[2]@ == match self@.fields.url {
                Some(t) => t,
                None => Seq::<char>::empty(),
            },
    {
        [self.title.clone(), text_or_empty(&self.username), text_or_empty(&self.url)]
    }

    /// A copy of this record with `data` sealed under `mek` as its secret
    /// field. Where the sealing fails, the error says so in words.
    pub fn add_password(&self, data: &[u8], mek: &[u8]) -> (r: Result<Self, String>)
        ensures
            match r {
                Ok(entry) => {
                    &&& entry@.fields == self@.fields
                    &&& entry@.password matches Some(envelope)
                    &&& envelope.seals(ITERATIONS, data@, mek@)
                },
                Err(message) => exists|e: CryptoError|
                    (if mek@.len() > MAX_DIGEST_INPUT {
                        e is KeyDerivationFailed
                    } else {
                        is_sealing_failure(e)
                    }) && message@ == "Failed to add encrypted password; "@
                        + #[trigger] e.message_head(),
            },
            mek@.len() > MAX_DIGEST_INPUT ==> r is Err,
    {
        let cryptographer = Cryptographer::new(None);
        match cryptographer.encrypt(data, mek) {
            Ok(sealed) => Ok(
                PasswordEntry {
                    id: self.id.clone(),
                    title: self.title.clone(),
                    username: clone_text(&self.username),
                    password: Some(sealed),
                    url: clone_text(&self.url),
                    notes: clone_text(&self.notes),
                    creation_date: self.creation_date.clone(),
                    category: clone_text(&self.category),
                    favorite: self.favorite,
                },
            ),
            Err(e) => {
                let head = String::from_str("Failed to add encrypted password; ");
                let detail = e.to_string();
                let message = head.concat(detail.as_str());
                assert(message@ == "Failed to add encrypted password; "@ + e.message_head());
                Err(message)
            },
        }
    }
}

/// A secret record in use. Its secret field is overwritten when the record
/// is released.
#[derive(Debug)]
pub struct DecryptedPasswordEntry {
    pub id: String,
    pub title: String,
    pub username: Option<String>,
    pub password: Option<String>,
    pub url: Option<String>,
    pub notes: Option<String>,
    pub creation_date: String,
    pub category: Option<String>,
    pub favorite: bool,
}

impl View for DecryptedPasswordEntry {
    type V = DecryptedEntryView;

    open spec fn view(&self) -> DecryptedEntryView {
        DecryptedEntryView {
            fields: EntryFields {
                id: self.id@,
                title: self.title@,
                username: text_in(self.username),
                url: text_in(self.url),
                notes: text_in(self.notes),
                creation_date: self.creation_date@,
                category: text_in(self.category),
                favorite: self.favorite,
            },
            password: text_in(self.password),
        }
    }
}

impl Clone for DecryptedPasswordEntry {
    fn clone(&self) -> (copy: Self)
        ensures
            copy@ == self@,
    {
        DecryptedPasswordEntry {
            id: self.id.clone(),
            title: self.title.clone(),
            username: clone_text(&self.username),
            password: clone_text(&self.password),
            url: clone_text(&self.url),
            notes: clone_text(&self.notes),
            creation_date: self.creation_date.clone(),
            category: clone_text(&self.category),
            favorite: self.favorite,
        }
    }
}

impl PartialEq for DecryptedPasswordEntry {
    fn eq(&self, other: &Self) -> (same: bool) {
        self.id == other.id
    }
}

impl PartialEqSpecImpl for DecryptedPasswordEntry {
    open spec fn obeys_eq_spec() -> bool {
        true
    }

    open spec fn eq_spec(&self, other: &Self) -> bool {
        self.id@ == other.id@
    }
}

impl Eq for DecryptedPasswordEntry {

}

impl Default for DecryptedPasswordEntry {
    /// An empty record with a fresh id, made now.
    fn default() -> (entry: Self)
        ensures
            is_hyphenated_uuid(entry@.fields.id),
            entry@.fields.title == Seq::<char>::empty(),
            entry@.fields.username is None,
            entry@.fields.url is None,
            entry@.fields.notes is None,
            entry@.fields.category is None,
            !entry@.fields.favorite,
            entry@.password is None,
    {
        DecryptedPasswordEntry {
            id: new_uuid_v4(),
            title: String::new(),
            username: None,
            password: None,
            url: None,
            notes: None,
            creation_date: utc_now(),
            category: None,
            favorite: false,
        }
    }
}

impl Drop for DecryptedPasswordEntry {
    fn drop(&mut self)
        opens_invariants none
        no_unwind
    {
        zeroize_text(&mut self.password);
    }
}

impl DecryptedPasswordEntry {
    /// A new record in use with a fresh id, made now. Never fails.
    pub fn new(
        title_: String,
        username_: Option<String>,
        password_: Option<String>,
        url_: Option<String>,
        notes_: Option<String>,
        category_: Option<String>,
        favorite_: Option<bool>,
    ) -> (r: Result<Self, CryptoError>)
        ensures
            r matches Ok(entry),
            ({
                let entry = r->Ok_0;
                &&& is_hyphenated_uuid(entry@.fields.id)
                &&& entry@.fields.title == title_@
                &&& entry@.fields.username == text_in(username_)
                &&& entry@.fields.url == text_in(url_)
                &&& entry@.fields.notes == text_in(notes_)
                &&& entry@.fields.category == text_in(category_)
                &&& entry@.fields.favorite == (favorite_ == Some(true))
                &&& entry@.password == text_in(password_)
            }),
    {
        Ok(
            DecryptedPasswordEntry {
                id: new_uuid_v4(),
                title: title_,
                username: username_,
                password: password_,
                url: url_,
                notes: notes_,
                creation_date: utc_now(),
                category: category_,
                favorite: match favorite_ {
                    Some(favorite) => favorite,
                    None => false,
                },
            },
        )
    }

    /// The record `entry` revealed under `mek`.
    ///
    /// Fails with `DecryptionFailed` where the envelope of the secret field
    /// does not open under `mek`, and with `KeyDerivationFailed` where its
    /// salt or `mek` is too long to hash.
    pub fn new_from_password_entry(entry: PasswordEntry, mek: &[u8]) -> (r: Result<
        Self,
        CryptoError,
    >)
        ensures
            is_outcome(r, entry@.revealed(mek@)),
    {
        let cryptographer = Cryptographer::new(None);
        let decrypted_password = match entry.password {
            Some(sealed) => {
                match cryptographer.decrypt(sealed, mek) {
                    Ok(bytes) => {
                        match string_from_utf8(bytes) {
                            Some(text) => Some(text),
                            None => Some(String::new()),
                        }
                    },
                    Err(e) => {
                        return Err(e);
                    },
                }
            },
            None => None,
        };
        Ok(
            DecryptedPasswordEntry {
                id: entry.id,
                title: entry.title,
                username: entry.username,
                password: decrypted_password,
                url: entry.url,
                notes: entry.notes,
                creation_date: entry.creation_date,
                category: entry.category,
                favorite: entry.favorite,
            },
        )
    }

    /// This record protected under `mek`: the same fields, the secret field
    /// sealed in a fresh envelope. Fails only where that sealing fails.
    pub fn convert_to_encrypted(&self, mek: &[u8]) -> (r: Result<PasswordEntry, CryptoError>)
        ensures
            match r {
                Ok(entry) => entry@.protects(self@, mek@),
                Err(e) => {
                    &&& self@.password is Some
                    &&& is_sealing_failure(e) || e is KeyDerivationFailed
                },
            },
            (r matches Err(CryptoError::KeyDerivationFailed)) <==> (self@.password is Some
                && mek@.len() > MAX_DIGEST_INPUT),
    {
        let cryptographer = Cryptographer::new(None);
        let encrypted_password = match &self.password {
            Some(text) => {
                match cryptographer.encrypt(text.as_str().as_bytes(), mek) {
                    Ok(sealed) => Some(sealed),
                    Err(e) => {
                        return Err(e);
                    },
                }
            },
            None => None,
        };
        Ok(
            PasswordEntry {
                id: self.id.clone(),
                title: self.title.clone(),
                username: clone_text(&self.username),
                password: encrypted_password,
                url: clone_text(&self.url),
                notes: clone_text(&self.notes),
                creation_date: self.creation_date.clone(),
                category: clone_text(&self.category),
                favorite: self.favorite,
            },
        )
    }

    /// The title, the user name and the address of the record, for a list;
    /// the empty text stands for what is absent.
    pub fn display_name(&self) -> (names: [String; 3])
        ensures
            names[0]@ == self@.fields.title,
            names[1]@ == match self@.fields.username {
                Some(t) => t,
                None => Seq::<char>::empty(),
            },
            names[2]@ == match self@.fields.url {
                Some(t) => t,
                None => Seq::<char>::empty(),
            },
    {
        [self.title.clone(), text_or_empty(&self.username), text_or_empty(&self.url)]
    }

    /// Overwrites the secret field with zeros and removes it.
    pub fn zeroize(&mut self)
        ensures
            final(self)@ == (DecryptedEntryView { fields: old(self)@.fields, password: None }),
    {
        zeroize_text(&mut self.password);
    }
}

/// Revealing inverts protecting: a record protected under the root key is
/// revealed under the same key as the record it was made from.
pub proof fn lemma_reveal_inverts_protect(sealed: EntryView, plain: DecryptedEntryView, mek: Seq<u8>)
    requires
        sealed.protects(plain, mek),
    ensures
        sealed.revealed(mek) == Ok::<DecryptedEntryView, CryptoError>(plain),
{
    match plain.password {
        Some(text) => {
            encode_utf8_valid_utf8(text);
            encode_utf8_decode_utf8(text);
        },
        None => {},
    }
}

} // verus!
