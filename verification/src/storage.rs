//! The vault store: the authentication record, the key-wrap record, the
//! secret records, the settings, and a digest of each of the first three.
//!
//! The store owns every change to a vault. A change either happens whole,
//! with every digest brought up to date, or not at all. The digests stand in
//! the document that they describe: they show that a stored vault was
//! damaged, not that nobody rewrote it.

use crate::canonical::{
    auth_bytes, auth_in, auth_text, entries_bytes, entries_text, entry_views, key_wrap_bytes,
    key_wrap_in, key_wrap_text,
};
use crate::config::UserSettings;
use crate::crypto::is_sealing_failure;
use crate::error_handling::{is_outcome, CryptoError};
use crate::master_password::{AuthRecord, MasterPasswordData};
use crate::mek::{MekData, MekRecord};
use crate::password_entry::{text_in, EntryView, PasswordEntry};
use crate::platform::{occurs_in, text_contains};
use crate::primitives::{
    hex_digit, hex_encode, hex_lower, kdf_inputs_fit, sha256, sha256_digest, zeroize_bytes,
    MAX_DIGEST_INPUT,
};
use vstd::prelude::*;

verus! {

/// Whether `c` is a lower-case hexadecimal digit.
pub open spec fn is_lower_hex_digit(c: char) -> bool {
    ('0' <= c <= '9') || ('a' <= c <= 'f')
}

/// Whether `text` is written as a digest is: 64 lower-case hexadecimal
/// digits, two for each of the 32 bytes of a SHA-256.
pub open spec fn is_digest_text(text: Seq<char>) -> bool {
    &&& text.len() == 64
    &&& forall|i: int| 0 <= i < text.len() ==> is_lower_hex_digit(#[trigger] text[i])
}

/// Bytes in hexadecimal are two lower-case hexadecimal digits for each byte.
pub proof fn lemma_hex_lower_is_hex(data: Seq<u8>)
    ensures
        hex_lower(data).len() == 2 * data.len(),
        forall|i: int|
            0 <= i < hex_lower(data).len() ==> is_lower_hex_digit(#[trigger] hex_lower(data)[i]),
{
    assert forall|i: int| 0 <= i < hex_lower(data).len() implies is_lower_hex_digit(
        #[trigger] hex_lower(data)[i],
    ) by {
        let byte = data[i / 2] as int;
        let value = if i % 2 == 0 {
            byte / 16
        } else {
            byte % 16
        };
        assert(0 <= value < 16);
        assert(hex_lower(data)[i] == hex_digit(value));
        assert(hex_digit(value) as u32 == if value < 10 {
            value + 48
        } else {
            value + 87
        });
    }
}

/// What a vault is.
pub struct VaultView {
    pub auth: Option<AuthRecord>,
    pub key_wrap: Option<MekRecord>,
    pub records: Seq<EntryView>,
    pub settings: UserSettings,
    pub digest_auth: Option<Seq<char>>,
    pub digest_key_wrap: Option<Seq<char>>,
    pub digest_records: Option<Seq<char>>,
}

impl VaultView {
    /// The digest of a canonical text: its SHA-256 in lower-case
    /// hexadecimal digits.
    pub open spec fn digest_of(text: Seq<u8>) -> Seq<char> {
        hex_lower(sha256(text))
    }

    /// The digest that the authentication record should have.
    pub open spec fn auth_digest(self) -> Seq<char> {
        Self::digest_of(auth_text(self.auth))
    }

    /// The digest that the key-wrap record should have.
    pub open spec fn key_wrap_digest(self) -> Seq<char> {
        Self::digest_of(key_wrap_text(self.key_wrap))
    }

    /// The digest that the records should have.
    pub open spec fn records_digest(self) -> Seq<char> {
        Self::digest_of(entries_text(self.records))
    }

    /// Whether the three canonical texts are short enough to be hashed.
    pub open spec fn digestible(self) -> bool {
        &&& auth_text(self.auth).len() <= MAX_DIGEST_INPUT
        &&& key_wrap_text(self.key_wrap).len() <= MAX_DIGEST_INPUT
        &&& entries_text(self.records).len() <= MAX_DIGEST_INPUT
    }

    /// Whether each stored digest is the digest of the part it stands for.
    pub open spec fn digests_current(self) -> bool {
        &&& self.digest_auth == Some(self.auth_digest())
        &&& self.digest_key_wrap == Some(self.key_wrap_digest())
        &&& self.digest_records == Some(self.records_digest())
    }

    /// Whether the vault passes the integrity check: its parts can be
    /// hashed, and each stored digest is the digest of its part.
    pub open spec fn is_intact(self) -> bool {
        self.digestible() && self.digests_current()
    }

    /// Whether each of the three digests is there and is written as a
    /// digest is: in 64 lower-case hexadecimal digits.
    pub open spec fn digests_are_hex(self) -> bool {
        &&& self.digest_auth matches Some(digest) && is_digest_text(digest)
        &&& self.digest_key_wrap matches Some(digest) && is_digest_text(digest)
        &&& self.digest_records matches Some(digest) && is_digest_text(digest)
    }

    /// Whether the vault is as a change leaves it: it passes the integrity
    /// check, and its digests are written as digests are.
    pub open spec fn is_settled(self) -> bool {
        self.is_intact() && self.digests_are_hex()
    }

    /// This vault with its three digests brought up to date.
    pub open spec fn with_current_digests(self) -> VaultView {
        VaultView {
            digest_auth: Some(self.auth_digest()),
            digest_key_wrap: Some(self.key_wrap_digest()),
            digest_records: Some(self.records_digest()),
            ..self
        }
    }

    /// Whether some record has the id `id`.
    pub open spec fn has_id(self, id: Seq<char>) -> bool {
        exists|i: int| 0 <= i < self.records.len() && #[trigger] self.records[i].fields.id == id
    }

    /// Whether the record at `i` is the first with the id `id`.
    pub open spec fn first_with_id(self, id: Seq<char>, i: int) -> bool {
        &&& 0 <= i < self.records.len()
        &&& self.records[i].fields.id == id
        &&& forall|j: int| 0 <= j < i ==> #[trigger] self.records[j].fields.id != id
    }

    /// Whether no two records share an id.
    pub open spec fn ids_unique(self) -> bool {
        forall|i: int, j: int|
            0 <= i < j < self.records.len() ==> #[trigger] self.records[i].fields.id
                != #[trigger] self.records[j].fields.id
    }

    /// Whether the vault has both its authentication record and its
    /// key-wrap record, or neither.
    pub open spec fn paired(self) -> bool {
        self.auth is Some <==> self.key_wrap is Some
    }

    /// Whether the vault accepts `attempt` as its master secret. A vault
    /// without an authentication record accepts nothing.
    pub open spec fn authenticates(self, attempt: Seq<u8>) -> bool {
        self.auth matches Some(record) && record.accepts(attempt)
    }

    /// What unwrapping the root key with `master_password` gives: the root
    /// key; or `AuthenticationFailed` where `master_password` is not the
    /// master secret, `MekDecryptionFailed` where the vault has no key-wrap
    /// record, `KeyDerivationFailed` where the master secret does not
    /// unwrap the record.
    pub open spec fn unwrapped(self, master_password: Seq<u8>) -> Result<Seq<u8>, CryptoError> {
        if !self.authenticates(master_password) {
            Err(CryptoError::AuthenticationFailed)
        } else {
            match self.key_wrap {
                None => Err(CryptoError::MekDecryptionFailed),
                Some(record) => match record.unwrapped(master_password) {
                    Some(mek) => Ok(mek),
                    None => Err(CryptoError::KeyDerivationFailed),
                },
            }
        }
    }

    /// Whether `e` is an error that making or sealing key material can end
    /// in, or the error of a vault too long to be hashed.
    pub open spec fn is_making_failure(e: CryptoError) -> bool {
        ||| is_sealing_failure(e)
        ||| e is KeyDerivationFailed
        ||| e is CryptoOperationFailed
    }

    /// Whether this vault is `before` with another key-wrap record and with
    /// every digest up to date.
    pub open spec fn is_rewrapped(self, before: VaultView) -> bool {
        self == (VaultView { key_wrap: self.key_wrap, ..before }).with_current_digests()
    }

    /// Whether this vault is `before` with another authentication record,
    /// another key-wrap record, and with every digest up to date.
    pub open spec fn is_rekeyed(self, before: VaultView) -> bool {
        self == (VaultView {
            auth: self.auth,
            key_wrap: self.key_wrap,
            ..before
        }).with_current_digests()
    }

    /// Whether `entry` is found by `term`: the term stands in its title or
    /// in its address.
    pub open spec fn is_found_by(entry: EntryView, term: Seq<char>) -> bool {
        ||| occurs_in(term, entry.fields.title)
        ||| entry.fields.url matches Some(url) && occurs_in(term, url)
    }

    /// This vault with the records `records` in place of its own.
    pub open spec fn with_records(self, records: Seq<EntryView>) -> VaultView {
        VaultView { records, ..self }
    }

    /// Whether the vault has no digest yet: nothing in it has changed since
    /// it was made.
    pub open spec fn no_digests(self) -> bool {
        &&& self.digest_auth is None
        &&& self.digest_key_wrap is None
        &&& self.digest_records is None
    }

    /// Whether the vault is as it should be: the two key records paired, no
    /// id twice, and every digest up to date, unless there is no digest yet.
    pub open spec fn well_formed(self) -> bool {
        &&& self.paired()
        &&& self.ids_unique()
        &&& self.no_digests() || self.digests_current()
    }
}

/// Digests follow their parts: of two vaults with every digest up to date,
/// a part that is the same in both has the same digest in both. So a change
/// that leaves a part alone leaves its digest alone.
pub proof fn lemma_untouched_parts_keep_digests(before: VaultView, after: VaultView)
    requires
        before.digests_current(),
        after.digests_current(),
    ensures
        after.auth == before.auth ==> after.digest_auth == before.digest_auth,
        after.key_wrap == before.key_wrap ==> after.digest_key_wrap == before.digest_key_wrap,
        after.records == before.records ==> after.digest_records == before.digest_records,
{
}

/// A change of the records alone moves no digest but theirs: in a vault with
/// every digest up to date, any other records with the digests brought up to
/// date leave the digests of the authentication record and of the key-wrap
/// record as they were.
pub proof fn lemma_record_changes_keep_key_digests(before: VaultView, records: Seq<EntryView>)
    requires
        before.digests_current(),
    ensures
        before.with_records(records).with_current_digests().digest_auth == before.digest_auth,
        before.with_records(records).with_current_digests().digest_key_wrap
            == before.digest_key_wrap,
        before.with_records(records).with_current_digests().digests_current(),
{
}

/// A change of the master secret moves no digest of the records: in a vault
/// with every digest up to date, other key records with the digests brought
/// up to date leave the digest of the records as it was.
pub proof fn lemma_rekeying_keeps_records_digest(before: VaultView, after: VaultView)
    requires
        before.digests_current(),
        after.is_rekeyed(before),
    ensures
        after.digest_records == before.digest_records,
        after.records == before.records,
        after.settings == before.settings,
        after.digests_current(),
{
}

/// A change of the key-wrap record alone moves no digest but its own.
pub proof fn lemma_rewrapping_keeps_other_digests(before: VaultView, after: VaultView)
    requires
        before.digests_current(),
        after.is_rewrapped(before),
    ensures
        after.digest_auth == before.digest_auth,
        after.digest_records == before.digest_records,
        after.digests_current(),
{
}

/// A record with a new id behind the others leaves no id twice.
pub proof fn lemma_added_record_keeps_ids_unique(before: VaultView, entry: EntryView)
    requires
        before.ids_unique(),
        !before.has_id(entry.fields.id),
    ensures
        before.with_records(before.records.push(entry)).ids_unique(),
{
    let after = before.records.push(entry);
    assert forall|i: int, j: int| 0 <= i < j < after.len() implies after[i].fields.id
        != after[j].fields.id by {
        if j < before.records.len() {
            assert(before.records[i].fields.id != before.records[j].fields.id);
        } else {
            assert(before.records[i].fields.id != entry.fields.id);
        }
    }
}

/// A record in the place of one with the same id leaves no id twice.
pub proof fn lemma_updated_record_keeps_ids_unique(
    before: VaultView,
    index: int,
    entry: EntryView,
)
    requires
        before.ids_unique(),
        0 <= index < before.records.len(),
        before.records[index].fields.id == entry.fields.id,
    ensures
        before.with_records(before.records.update(index, entry)).ids_unique(),
{
    let after = before.records.update(index, entry);
    assert forall|i: int, j: int| 0 <= i < j < after.len() implies after[i].fields.id
        != after[j].fields.id by {
        assert(before.records[i].fields.id != before.records[j].fields.id);
    }
}

/// Taking a record away leaves no id twice.
pub proof fn lemma_removed_record_keeps_ids_unique(before: VaultView, index: int)
    requires
        before.ids_unique(),
        0 <= index < before.records.len(),
    ensures
        before.with_records(before.records.remove(index)).ids_unique(),
{
    let after = before.records.remove(index);
    assert forall|i: int, j: int| 0 <= i < j < after.len() implies after[i].fields.id
        != after[j].fields.id by {
        let from_i = if i < index {
            i
        } else {
            i + 1
        };
        let from_j = if j < index {
            j
        } else {
            j + 1
        };
        assert(after[i] == before.records[from_i]);
        assert(after[j] == before.records[from_j]);
        assert(before.records[from_i].fields.id != before.records[from_j].fields.id);
    }
}

/// New key records keep a vault well formed, where they are paired.
pub proof fn lemma_rekeyed_stays_well_formed(before: VaultView, after: VaultView)
    requires
        before.well_formed(),
        after.is_rekeyed(before),
        after.paired(),
    ensures
        after.well_formed(),
{
    assert(after.records == before.records);
}

/// Another key-wrap record in the place of one keeps a vault well formed.
pub proof fn lemma_rewrapped_stays_well_formed(before: VaultView, after: VaultView)
    requires
        before.well_formed(),
        after.is_rewrapped(before),
        before.key_wrap is Some,
        after.key_wrap is Some,
    ensures
        after.well_formed(),
{
    assert(after.records == before.records);
}

/// The vault store.
#[derive(Debug)]
pub struct ApplicationData {
    pub master_password_data: Option<MasterPasswordData>,
    pub mek_data: Option<MekData>,
    pub password_entries: Vec<PasswordEntry>,
    pub user_settings: UserSettings,
    pub master_password_data_hash: Option<String>,
    pub mek_data_hash: Option<String>,
    pub password_entries_hash: Option<String>,
}

impl View for ApplicationData {
    type V = VaultView;

    open spec fn view(&self) -> VaultView {
        VaultView {
            auth: auth_in(self.master_password_data),
            key_wrap: key_wrap_in(self.mek_data),
            records: entry_views(self.password_entries@),
            settings: self.user_settings,
            digest_auth: text_in(self.master_password_data_hash),
            digest_key_wrap: text_in(self.mek_data_hash),
            digest_records: text_in(self.password_entries_hash),
        }
    }
}

/// The digest of `text`, or nothing where `text` is too long to be hashed.
fn digest_text(text: Vec<u8>) -> (digest: Option<String>)
    ensures
        match digest {
            Some(digest) => {
                &&& text@.len() <= MAX_DIGEST_INPUT
                &&& digest@ == VaultView::digest_of(text@)
                &&& is_digest_text(digest@)
            },
            None => text@.len() > MAX_DIGEST_INPUT,
        },
{
    if text.len() as u64 > MAX_DIGEST_INPUT {
        None
    } else {
        Some(ApplicationData::generate_hash(text.as_slice()))
    }
}

/// Whether two texts that may be absent are the same.
fn same_text(left: &Option<String>, right: &String) -> (same: bool)
    ensures
        same == (text_in(*left) == Some(right@)),
{
    match left {
        Some(left) => *left == *right,
        None => false,
    }
}

impl ApplicationData {
    /// An empty vault: no records of any kind, no digests, the default
    /// settings.
    pub fn new() -> (store: Self)
        ensures
            store@.auth is None,
            store@.key_wrap is None,
            store@.records == Seq::<EntryView>::empty(),
            store@.settings == UserSettings::default_spec(),
            store@.no_digests(),
            store@.well_formed(),
    {
        let store = ApplicationData {
            master_password_data: None,
            mek_data: None,
            password_entries: Vec::new(),
            user_settings: UserSettings::default(),
            master_password_data_hash: None,
            mek_data_hash: None,
            password_entries_hash: None,
        };
        assert(store@.records =~= Seq::<EntryView>::empty());
        store
    }

    /// The SHA-256 of `data` in lower-case hexadecimal digits.
    fn generate_hash(data: &[u8]) -> (digest: String)
        requires
            data@.len() <= MAX_DIGEST_INPUT,
        ensures
            digest@ == VaultView::digest_of(data@),
            is_digest_text(digest@),
    {
        let hash = sha256_digest(data);
        proof {
            lemma_hex_lower_is_hex(hash@);
        }
        hex_encode(hash.as_slice())
    }

    /// Brings the three digests up to date.
    ///
    /// Fails with `CryptoOperationFailed`, and changes nothing, where a part
    /// of the vault is too long to be hashed.
    pub fn update_hashes(&mut self) -> (r: Result<(), CryptoError>)
        ensures
            old(self)@.digestible() ==> r is Ok && final(self)@ == old(
                self,
            )@.with_current_digests(),
            !old(self)@.digestible() ==> (r matches Err(CryptoError::CryptoOperationFailed))
                && final(self)@ == old(self)@,
            final(self).master_password_data == old(self).master_password_data,
            final(self).mek_data == old(self).mek_data,
            final(self).password_entries == old(self).password_entries,
            final(self).user_settings == old(self).user_settings,
            old(self)@.well_formed() ==> final(self)@.well_formed(),
            r is Ok ==> final(self)@.is_settled(),
    {
        let auth = digest_text(auth_bytes(&self.master_password_data));
        let key_wrap = digest_text(key_wrap_bytes(&self.mek_data));
        let records = digest_text(entries_bytes(&self.password_entries));
        match (auth, key_wrap, records) {
            (Some(auth), Some(key_wrap), Some(records)) => {
                self.master_password_data_hash = Some(auth);
                self.mek_data_hash = Some(key_wrap);
                self.password_entries_hash = Some(records);
                Ok(())
            },
            _ => Err(CryptoError::CryptoOperationFailed),
        }
    }

    /// Whether every stored digest is the digest of the part it stands for.
    ///
    /// A vault that fails this was damaged or is inconsistent, and its
    /// contents are not to be trusted. A vault that passes it may still have
    /// been rewritten by someone who rewrote the digests too.
    pub fn verify_hashes(&self) -> (intact: bool)
        ensures
            intact == self@.is_intact(),
    {
        let auth = digest_text(auth_bytes(&self.master_password_data));
        let key_wrap = digest_text(key_wrap_bytes(&self.mek_data));
        let records = digest_text(entries_bytes(&self.password_entries));
        match (auth, key_wrap, records) {
            (Some(auth), Some(key_wrap), Some(records)) => {
                same_text(&self.master_password_data_hash, &auth) && same_text(
                    &self.mek_data_hash,
                    &key_wrap,
                ) && same_text(&self.password_entries_hash, &records)
            },
            _ => false,
        }
    }

    /// Gives a vault without a key-wrap record a fresh one for
    /// `master_password`, and brings the digests up to date.
    ///
    /// This is one half of `add_master_password_data`: alone it leaves a
    /// vault without an authentication record with one key record of two.
    ///
    /// Fails with `MekDataAlreadyExists` where the vault has a key-wrap
    /// record, and else only where the record cannot be made or the vault
    /// cannot be hashed. A vault that fails is left as it was.
    pub fn add_mek_data(&mut self, master_password: &[u8]) -> (r: Result<(), CryptoError>)
        ensures
            old(self)@.key_wrap is Some ==> (r matches Err(CryptoError::MekDataAlreadyExists))
                && final(self)@ == old(self)@,
            old(self)@.key_wrap is None ==> match r {
                Ok(()) => {
                    &&& final(self)@.key_wrap matches Some(record)
                    &&& record.is_fresh_for(master_password@)
                    &&& final(self)@.is_rewrapped(old(self)@)
                },
                Err(e) => VaultView::is_making_failure(e) && final(self)@ == old(self)@,
            },
            (r matches Err(CryptoError::KeyDerivationFailed)) <==> old(self)@.key_wrap is None
                && master_password@.len() > MAX_DIGEST_INPUT,
            r is Ok ==> final(self)@.is_settled(),
    {
        if self.mek_data.is_some() {
            return Err(CryptoError::MekDataAlreadyExists);
        }
        let record = match MekData::new(master_password) {
            Ok(record) => record,
            Err(e) => {
                return Err(e);
            },
        };
        self.mek_data = Some(record);
        match self.update_hashes() {
            Ok(()) => Ok(()),
            Err(e) => {
                self.mek_data = None;
                Err(e)
            },
        }
    }

    /// Rotates the key-wrap record from `old_master_password` to
    /// `new_master_password`, and brings the digests up to date. The
    /// authentication record is not touched.
    ///
    /// Fails with `MekUpdateFailed` where the vault has no key-wrap record,
    /// with `AuthenticationFailed` where `old_master_password` does not
    /// unwrap it, and else only where the record cannot be sealed anew or
    /// the vault cannot be hashed. A vault that fails is left as it was.
    #[verifier::rlimit(50)]
    pub fn update_mek_data(&mut self, old_master_password: &[u8], new_master_password: &[u8]) -> (r:
        Result<(), CryptoError>)
        ensures
            match old(self)@.key_wrap {
                None => (r matches Err(CryptoError::MekUpdateFailed)) && final(self)@ == old(
                    self,
                )@,
                Some(before) => if before.unwrapped(old_master_password@) is None {
                    (r matches Err(CryptoError::AuthenticationFailed)) && final(self)@ == old(
                        self,
                    )@
                } else {
                    match r {
                        Ok(()) => {
                            &&& final(self)@.key_wrap matches Some(after)
                            &&& after.is_rotation_of(
                                before,
                                old_master_password@,
                                new_master_password@,
                            )
                            &&& final(self)@.is_rewrapped(old(self)@)
                        },
                        Err(e) => VaultView::is_making_failure(e) && final(self)@ == old(self)@,
                    }
                },
            },
            (r matches Err(CryptoError::KeyDerivationFailed)) <==> (old(self)@.key_wrap matches Some(
                before,
            ) && before.unwrapped(old_master_password@) is Some && !kdf_inputs_fit(
                before.wrap_salt,
                new_master_password@,
            )),
            old(self)@.well_formed() ==> final(self)@.well_formed(),
            r is Ok ==> final(self)@.is_settled(),
    {
        let mut record = match self.mek_data.take() {
            Some(record) => record,
            None => {
                return Err(CryptoError::MekUpdateFailed);
            },
        };
        match record.decrypt_mek(old_master_password) {
            Ok(mut mek) => {
                zeroize_bytes(&mut mek);
            },
            Err(_) => {
                self.mek_data = Some(record);
                return Err(CryptoError::AuthenticationFailed);
            },
        }
        let previous = record.clone();
        let rotated = record.update_mek(old_master_password, new_master_password);
        self.mek_data = Some(record);
        if let Err(e) = rotated {
            return Err(e);
        }
        match self.update_hashes() {
            Ok(()) => {
                proof {
                    if old(self)@.well_formed() {
                        lemma_rewrapped_stays_well_formed(old(self)@, self@);
                    }
                }
                Ok(())
            },
            Err(e) => {
                self.mek_data = Some(previous);
                Err(e)
            },
        }
    }

    /// Initializes the vault with `new_password` as its master secret: a
    /// fresh authentication record and a fresh key-wrap record, made
    /// together, and the digests brought up to date.
    ///
    /// Fails with `MasterPasswordDataAlreadyExists` where the vault has an
    /// authentication record, with `MekDataAlreadyExists` where it has a
    /// key-wrap record without one, and else only where a record cannot be
    /// made or the vault cannot be hashed. A vault that fails is left as it
    /// was.
    #[verifier::rlimit(50)]
    pub fn add_master_password_data(&mut self, new_password: &[u8]) -> (r: Result<
        (),
        CryptoError,
    >)
        ensures
            old(self)@.auth is Some ==> (r matches Err(
                CryptoError::MasterPasswordDataAlreadyExists,
            )) && final(self)@ == old(self)@,
            old(self)@.auth is None && old(self)@.key_wrap is Some ==> (r matches Err(
                CryptoError::MekDataAlreadyExists,
            )) && final(self)@ == old(self)@,
            old(self)@.auth is None && old(self)@.key_wrap is None ==> match r {
                Ok(()) => {
                    &&& final(self)@.auth matches Some(auth)
                    &&& auth.is_record_of(new_password@)
                    &&& final(self)@.key_wrap matches Some(key_wrap)
                    &&& key_wrap.is_fresh_for(new_password@)
                    &&& final(self)@.is_rekeyed(old(self)@)
                },
                Err(e) => VaultView::is_making_failure(e) && final(self)@ == old(self)@,
            },
            (r matches Err(CryptoError::KeyDerivationFailed)) <==> old(self)@.auth is None && old(
                self,
            )@.key_wrap is None && new_password@.len() > MAX_DIGEST_INPUT,
            old(self)@.well_formed() ==> final(self)@.well_formed(),
            r is Ok ==> final(self)@.is_settled(),
    {
        if self.master_password_data.is_some() {
            return Err(CryptoError::MasterPasswordDataAlreadyExists);
        }
        if self.mek_data.is_some() {
            return Err(CryptoError::MekDataAlreadyExists);
        }
        let auth = match MasterPasswordData::set_new_master_password(new_password) {
            Ok(auth) => auth,
            Err(e) => {
                return Err(e);
            },
        };
        let key_wrap = match MekData::new(new_password) {
            Ok(key_wrap) => key_wrap,
            Err(e) => {
                return Err(e);
            },
        };
        self.master_password_data = Some(auth);
        self.mek_data = Some(key_wrap);
        match self.update_hashes() {
            Ok(()) => {
                proof {
                    if old(self)@.well_formed() {
                        lemma_rekeyed_stays_well_formed(old(self)@, self@);
                    }
                }
                Ok(())
            },
            Err(e) => {
                self.master_password_data = None;
                self.mek_data = None;
                Err(e)
            },
        }
    }

    /// Changes the master secret from `password_attempt` to `new_password`:
    /// the key-wrap record is rotated, the authentication record is replaced
    /// by a fresh one, and the digests are brought up to date. The root key
    /// stays, and with it every secret record.
    ///
    /// Fails with `AuthenticationFailed` where `password_attempt` is not the
    /// master secret, as no secret is of a vault without an authentication
    /// record; with `KeyDerivationFailed` where the master secret does not
    /// unwrap the key-wrap record or `new_password` is too long to hash; and
    /// else only where a record cannot be made or the vault cannot be
    /// hashed. A vault that fails is left as it was. A vault without a
    /// key-wrap record gets none.
    #[verifier::rlimit(50)]
    pub fn update_master_password_data(&mut self, password_attempt: &[u8], new_password: &[u8]) -> (r:
        Result<(), CryptoError>)
        ensures
            !old(self)@.authenticates(password_attempt@) ==> (r matches Err(
                CryptoError::AuthenticationFailed,
            )) && final(self)@ == old(self)@,
            old(self)@.authenticates(password_attempt@) ==> match r {
                Ok(()) => {
                    &&& final(self)@.auth matches Some(auth)
                    &&& auth.is_record_of(new_password@)
                    &&& match old(self)@.key_wrap {
                        Some(before) => {
                            &&& final(self)@.key_wrap matches Some(after)
                            &&& after.is_rotation_of(before, password_attempt@, new_password@)
                        },
                        None => final(self)@.key_wrap is None,
                    }
                    &&& final(self)@.is_rekeyed(old(self)@)
                },
                Err(e) => VaultView::is_making_failure(e) && final(self)@ == old(self)@,
            },
            (r matches Err(CryptoError::KeyDerivationFailed)) <==> old(self)@.authenticates(
                password_attempt@,
            ) && (new_password@.len() > MAX_DIGEST_INPUT || (old(self)@.key_wrap matches Some(before)
                && (before.unwrapped(password_attempt@) is None || !kdf_inputs_fit(
                before.wrap_salt,
                new_password@,
            )))),
            old(self)@.well_formed() ==> final(self)@.well_formed(),
            r is Ok ==> final(self)@.is_settled(),
    {
        if !self.verify_master_password(password_attempt) {
            return Err(CryptoError::AuthenticationFailed);
        }
        let rotated = match &self.mek_data {
            Some(key_wrap) => {
                let mut rotated = key_wrap.clone();
                match rotated.update_mek(password_attempt, new_password) {
                    Ok(_) => Some(rotated),
                    Err(e) => {
                        return Err(e);
                    },
                }
            },
            None => None,
        };
        let auth = match MasterPasswordData::set_new_master_password(new_password) {
            Ok(auth) => auth,
            Err(e) => {
                return Err(e);
            },
        };
        let previous_auth = self.master_password_data.take();
        let previous_key_wrap = self.mek_data.take();
        self.master_password_data = Some(auth);
        self.mek_data = rotated;
        match self.update_hashes() {
            Ok(()) => {
                proof {
                    if old(self)@.well_formed() {
                        lemma_rekeyed_stays_well_formed(old(self)@, self@);
                    }
                }
                Ok(())
            },
            Err(e) => {
                self.master_password_data = previous_auth;
                self.mek_data = previous_key_wrap;
                Err(e)
            },
        }
    }

    /// Whether `password_attempt` is the master secret of the vault. A vault
    /// without an authentication record accepts nothing.
    pub fn verify_master_password(&self, password_attempt: &[u8]) -> (accepted: bool)
        ensures
            accepted == self@.authenticates(password_attempt@),
    {
        match &self.master_password_data {
            Some(record) => record.verify_master_password(password_attempt),
            None => false,
        }
    }

    /// The root key of the vault, unwrapped with `master_password`.
    ///
    /// Fails with `AuthenticationFailed` where `master_password` is not the
    /// master secret, with `MekDecryptionFailed` where the vault has no
    /// key-wrap record, and with `KeyDerivationFailed` where the master
    /// secret does not unwrap the record: the record was changed.
    pub fn decrypt_mek_data(&self, master_password: &[u8]) -> (r: Result<Vec<u8>, CryptoError>)
        ensures
            is_outcome(r, self@.unwrapped(master_password@)),
    {
        if !self.verify_master_password(master_password) {
            return Err(CryptoError::AuthenticationFailed);
        }
        match &self.mek_data {
            Some(record) => record.decrypt_mek(master_password),
            None => Err(CryptoError::MekDecryptionFailed),
        }
    }

    /// The records that `search_term` finds, in their order: those with the
    /// term in their title or in their address.
    pub fn search_password_entries(&self, search_term: &str) -> (found: Vec<PasswordEntry>)
        ensures
            entry_views(found@) == self@.records.filter(
                |entry: EntryView| VaultView::is_found_by(entry, search_term@),
            ),
    {
        let ghost wanted = |entry: EntryView| VaultView::is_found_by(entry, search_term@);
        let ghost records = self@.records;
        let mut found: Vec<PasswordEntry> = Vec::new();
        let mut i: usize = 0;
        proof {
            reveal(Seq::filter);
            assert(records.take(0).filter(wanted) =~= Seq::<EntryView>::empty());
            assert(entry_views(found@) =~= Seq::<EntryView>::empty());
        }
        while i < self.password_entries.len()
            invariant
                i <= self.password_entries.len(),
                records == entry_views(self.password_entries@),
                wanted == |entry: EntryView| VaultView::is_found_by(entry, search_term@),
                entry_views(found@) == records.take(i as int).filter(wanted),
            decreases self.password_entries.len() - i,
        {
            let entry = &self.password_entries[i];
            let hit = text_contains(entry.title.as_str(), search_term) || match &entry.url {
                Some(url) => text_contains(url.as_str(), search_term),
                None => false,
            };
            let ghost before = found@;
            if hit {
                found.push(entry.clone());
            }
            proof {
                reveal(Seq::filter);
                let now = records.take(i + 1);
                assert(now.drop_last() == records.take(i as int));
                assert(now.last() == entry@);
                assert(hit == wanted(entry@));
                if hit {
                    assert(entry_views(found@) =~= entry_views(before).push(entry@));
                }
            }
            i = i + 1;
        }
        assert(records.take(i as int) == records);
        found
    }

    /// The place of the first record with the id of `password_entry`.
    ///
    /// Fails with `PasswordEntryNotFound` where no record has that id.
    pub fn find_password_entry(&self, password_entry: &PasswordEntry) -> (r: Result<
        usize,
        CryptoError,
    >)
        ensures
            match r {
                Ok(index) => self@.first_with_id(password_entry@.fields.id, index as int),
                Err(e) => e is PasswordEntryNotFound && !self@.has_id(password_entry@.fields.id),
            },
    {
        let mut i: usize = 0;
        while i < self.password_entries.len()
            invariant
                i <= self.password_entries.len(),
                forall|j: int|
                    0 <= j < i ==> #[trigger] self@.records[j].fields.id
                        != password_entry@.fields.id,
            decreases self.password_entries.len() - i,
        {
            if self.password_entries[i] == *password_entry {
                return Ok(i);
            }
            i = i + 1;
        }
        Err(CryptoError::PasswordEntryNotFound)
    }

    /// Adds `entry` behind the records of the vault, and brings the digests
    /// up to date.
    ///
    /// Fails with `PasswordEntryAlreadyExists` where a record has the id of
    /// `entry` already, and with `CryptoOperationFailed` where the vault
    /// would be too long to be hashed. A vault that fails is left as it was.
    #[verifier::rlimit(50)]
    pub fn add_password_entry(&mut self, entry: PasswordEntry) -> (r: Result<(), CryptoError>)
        ensures
            old(self)@.has_id(entry@.fields.id) ==> (r matches Err(
                CryptoError::PasswordEntryAlreadyExists,
            )) && final(self)@ == old(self)@,
            !old(self)@.has_id(entry@.fields.id) ==> ({
                let added = old(self)@.with_records(old(self)@.records.push(entry@));
                if added.digestible() {
                    r is Ok && final(self)@ == added.with_current_digests()
                } else {
                    (r matches Err(CryptoError::CryptoOperationFailed)) && final(self)@ == old(
                        self,
                    )@
                }
            }),
            old(self)@.ids_unique() ==> final(self)@.ids_unique(),
            old(self)@.well_formed() ==> final(self)@.well_formed(),
            r is Ok ==> final(self)@.is_settled(),
    {
        if self.find_password_entry(&entry).is_ok() {
            return Err(CryptoError::PasswordEntryAlreadyExists);
        }
        let ghost before = self.password_entries@;
        self.password_entries.push(entry);
        assert(entry_views(self.password_entries@) =~= entry_views(before).push(entry@));
        proof {
            if old(self)@.ids_unique() {
                lemma_added_record_keeps_ids_unique(old(self)@, entry@);
            }
        }
        match self.update_hashes() {
            Ok(()) => Ok(()),
            Err(e) => {
                self.password_entries.pop();
                assert(self.password_entries@ =~= before);
                Err(e)
            },
        }
    }

    /// Puts `updated_entry` in the place of the first record with its id,
    /// and brings the digests up to date.
    ///
    /// Fails with `PasswordEntryNotFound` where no record has that id, and
    /// with `CryptoOperationFailed` where the vault would be too long to be
    /// hashed. A vault that fails is left as it was.
    #[verifier::rlimit(50)]
    pub fn update_password_entry(&mut self, updated_entry: &PasswordEntry) -> (r: Result<
        (),
        CryptoError,
    >)
        ensures
            !old(self)@.has_id(updated_entry@.fields.id) ==> (r matches Err(
                CryptoError::PasswordEntryNotFound,
            )) && final(self)@ == old(self)@,
            forall|index: int| #[trigger]
                old(self)@.first_with_id(updated_entry@.fields.id, index) ==> ({
                    let updated = old(self)@.with_records(
                        old(self)@.records.update(index, updated_entry@),
                    );
                    if updated.digestible() {
                        r is Ok && final(self)@ == updated.with_current_digests()
                    } else {
                        (r matches Err(CryptoError::CryptoOperationFailed)) && final(self)@
                            == old(self)@
                    }
                }),
            old(self)@.ids_unique() ==> final(self)@.ids_unique(),
            old(self)@.well_formed() ==> final(self)@.well_formed(),
            r is Ok ==> final(self)@.is_settled(),
    {
        let index = match self.find_password_entry(updated_entry) {
            Ok(index) => index,
            Err(e) => {
                return Err(e);
            },
        };
        let ghost before = self.password_entries@;
        self.password_entries.push(updated_entry.clone());
        let previous = self.password_entries.swap_remove(index);
        assert(entry_views(self.password_entries@) =~= entry_views(before).update(
            index as int,
            updated_entry@,
        ));
        proof {
            if old(self)@.ids_unique() {
                lemma_updated_record_keeps_ids_unique(old(self)@, index as int, updated_entry@);
            }
        }
        match self.update_hashes() {
            Ok(()) => Ok(()),
            Err(e) => {
                self.password_entries.push(previous);
                self.password_entries.swap_remove(index);
                assert(self.password_entries@ =~= before);
                Err(e)
            },
        }
    }

    /// Removes the first record with the id of `password_entry`, and brings
    /// the digests up to date.
    ///
    /// Fails with `PasswordEntryNotFound` where no record has that id, and
    /// with `CryptoOperationFailed` where the vault would be too long to be
    /// hashed. A vault that fails is left as it was.
    #[verifier::rlimit(50)]
    pub fn remove_password_entry(&mut self, password_entry: PasswordEntry) -> (r: Result<
        (),
        CryptoError,
    >)
        ensures
            !old(self)@.has_id(password_entry@.fields.id) ==> (r matches Err(
                CryptoError::PasswordEntryNotFound,
            )) && final(self)@ == old(self)@,
            forall|index: int| #[trigger]
                old(self)@.first_with_id(password_entry@.fields.id, index) ==> ({
                    let removed = old(self)@.with_records(old(self)@.records.remove(index));
                    if removed.digestible() {
                        r is Ok && final(self)@ == removed.with_current_digests()
                    } else {
                        (r matches Err(CryptoError::CryptoOperationFailed)) && final(self)@
                            == old(self)@
                    }
                }),
            old(self)@.ids_unique() ==> final(self)@.ids_unique(),
            old(self)@.well_formed() ==> final(self)@.well_formed(),
            r is Ok ==> final(self)@.is_settled(),
    {
        let index = match self.find_password_entry(&password_entry) {
            Ok(index) => index,
            Err(e) => {
                return Err(e);
            },
        };
        let ghost before = self.password_entries@;
        let previous = self.password_entries.remove(index);
        assert(entry_views(self.password_entries@) =~= entry_views(before).remove(index as int));
        proof {
            if old(self)@.ids_unique() {
                lemma_removed_record_keeps_ids_unique(old(self)@, index as int);
            }
        }
        match self.update_hashes() {
            Ok(()) => Ok(()),
            Err(e) => {
                self.password_entries.insert(index, previous);
                assert(self.password_entries@ =~= before);
                Err(e)
            },
        }
    }

    /// Replaces the records and the settings of the vault, and brings the
    /// digests up to date. The authentication record and the key-wrap record
    /// stay.
    ///
    /// Fails with `CryptoOperationFailed`, and changes nothing, where the
    /// vault would be too long to be hashed.
    pub fn replace_working_set(
        &mut self,
        password_entries: Vec<PasswordEntry>,
        user_settings: UserSettings,
    ) -> (r: Result<(), CryptoError>)
        ensures
            ({
                let replaced = VaultView {
                    records: entry_views(password_entries@),
                    settings: user_settings,
                    ..old(self)@
                };
                if replaced.digestible() {
                    r is Ok && final(self)@ == replaced.with_current_digests()
                } else {
                    (r matches Err(CryptoError::CryptoOperationFailed)) && final(self)@ == old(
                        self,
                    )@
                }
            }),
            r is Ok ==> final(self)@.is_settled(),
    {
        let mut previous_entries = password_entries;
        let previous_settings = self.user_settings.clone();
        std::mem::swap(&mut self.password_entries, &mut previous_entries);
        self.user_settings = user_settings;
        match self.update_hashes() {
            Ok(()) => Ok(()),
            Err(e) => {
                std::mem::swap(&mut self.password_entries, &mut previous_entries);
                self.user_settings = previous_settings;
                Err(e)
            },
        }
    }

    /// Replaces the settings of the password generator, and brings the
    /// digests up to date.
    ///
    /// Fails with `CryptoOperationFailed`, and changes nothing, where the
    /// vault is too long to be hashed.
    pub fn update_user_settings(&mut self, new_settings: UserSettings) -> (r: Result<
        (),
        CryptoError,
    >)
        ensures
            ({
                let updated = VaultView { settings: new_settings, ..old(self)@ };
                if updated.digestible() {
                    r is Ok && final(self)@ == updated.with_current_digests()
                } else {
                    (r matches Err(CryptoError::CryptoOperationFailed)) && final(self)@ == old(
                        self,
                    )@
                }
            }),
            old(self)@.well_formed() ==> final(self)@.well_formed(),
            r is Ok ==> final(self)@.is_settled(),
    {
        let previous = self.user_settings.clone();
        self.user_settings = new_settings;
        match self.update_hashes() {
            Ok(()) => Ok(()),
            Err(e) => {
                self.user_settings = previous;
                Err(e)
            },
        }
    }

    /// A random password after the settings of the vault. The vault stays
    /// as it is.
    pub fn generate_password(&mut self) -> (password: String)
        requires
            old(self)@.settings.can_generate(),
        ensures
            *final(self) == *old(self),
            password@.len() == old(self)@.settings.generated_len(),
            exists|drawn: Seq<char>| #[trigger]
                old(self)@.settings.is_draw(drawn) && password@.to_multiset()
                    == drawn.to_multiset(),
    {
        self.user_settings.generate_password()
    }

    /// The settings of the password generator.
    pub fn get_user_settings(&self) -> (settings: &UserSettings)
        ensures
            *settings == self@.settings,
    {
        &self.user_settings
    }
}

} // verus!
