//! A session: the working set of an opened vault.
//!
//! A session holds the root key and the secret records in use for as long as
//! the vault is open. The root key is overwritten when the session is
//! released, and so is every secret field.

use crate::canonical::entry_views;
use crate::config::UserSettings;
use crate::crypto::is_sealing_failure;
use crate::error_handling::CryptoError;
use crate::password_entry::{
    DecryptedEntryView, DecryptedPasswordEntry, EntryView, PasswordEntry,
};
use crate::primitives::{zeroize_bytes, MAX_DIGEST_INPUT};
use crate::storage::{ApplicationData, VaultView};
use vstd::prelude::*;

verus! {

/// What a session is.
pub struct SessionView {
    pub mek: Seq<u8>,
    pub settings: UserSettings,
    pub records: Seq<DecryptedEntryView>,
}

impl SessionView {
    /// Whether some record has the id `id`.
    pub open spec fn has_id(self, id: Seq<char>) -> bool {
        exists|i: int| 0 <= i < self.records.len() && #[trigger] self.records[i].fields.id == id
    }

    /// Whether the record at `i` is the first with the id `id`.
    pub open spec fn first_with_id(self, id: Seq<char>, i: int) -> bool {
        &&& 0 <= i < self.records.len()
        &&& self.records[i].fields.id == id
        &&& forall|j: int| 0 <= j < i ==> #[trigger] self.records[j].fields.id != id
    }

    /// Whether this session is what opening `vault` with the root key `mek`
    /// gives: the settings of the vault, and every record revealed, in
    /// order.
    pub open spec fn is_opening_of(self, vault: VaultView, mek: Seq<u8>) -> bool {
        &&& self.mek == mek
        &&& self.settings == vault.settings
        &&& self.records.len() == vault.records.len()
        &&& forall|i: int|
            0 <= i < vault.records.len() ==> (#[trigger] vault.records[i]).revealed(mek) == Ok::<
                DecryptedEntryView,
                CryptoError,
            >(self.records[i])
    }

    /// Whether no record has a secret field.
    pub open spec fn has_no_secrets(self) -> bool {
        forall|i: int| 0 <= i < self.records.len() ==> (#[trigger] self.records[i]).password is None
    }

    /// The records as they stand at rest where none has a secret field:
    /// each with its fields, none with an envelope.
    pub open spec fn bare_records(self) -> Seq<EntryView> {
        self.records.map_values(
            |record: DecryptedEntryView| EntryView { fields: record.fields, password: None },
        )
    }

    /// Whether `sealed` are the records of the session at rest: as many, in
    /// the same order, each protected under the root key of the session.
    pub open spec fn is_protected_as(self, sealed: Seq<EntryView>) -> bool {
        &&& sealed.len() == self.records.len()
        &&& forall|i: int|
            0 <= i < self.records.len() ==> (#[trigger] sealed[i]).protects(
                self.records[i],
                self.mek,
            )
    }

    /// What storing the session in `vault` gives where the records at rest
    /// are `sealed`: their records and the settings of the session in the
    /// place of those of the vault.
    pub open spec fn stored_in(self, vault: VaultView, sealed: Seq<EntryView>) -> VaultView {
        VaultView { records: sealed, settings: self.settings, ..vault }
    }

    /// Whether one of the first `n` records has the category `category`.
    pub open spec fn has_category_among(self, category: Seq<char>, n: int) -> bool {
        exists|i: int|
            0 <= i < n && i < self.records.len() && (#[trigger] self.records[i]).fields.category
                == Some(category)
    }

    /// Whether `categories` lists the categories of the records, each once.
    pub open spec fn has_categories(self, categories: Seq<Seq<char>>) -> bool {
        &&& categories.no_duplicates()
        &&& forall|category: Seq<char>| #[trigger]
            categories.contains(category) <==> self.has_category_among(
                category,
                self.records.len() as int,
            )
    }
}

/// What the records in `entries` are, in their order.
pub open spec fn decrypted_views(entries: Seq<DecryptedPasswordEntry>) -> Seq<DecryptedEntryView> {
    entries.map_values(|entry: DecryptedPasswordEntry| entry@)
}

/// What the texts in `texts` are, in their order.
pub open spec fn text_views(texts: Seq<String>) -> Seq<Seq<char>> {
    texts.map_values(|text: String| text@)
}

/// The working set of an opened vault.
#[derive(Debug)]
pub struct SessionState {
    pub mek: Vec<u8>,
    pub user_settings: UserSettings,
    pub password_entries: Vec<DecryptedPasswordEntry>,
}

impl View for SessionState {
    type V = SessionView;

    open spec fn view(&self) -> SessionView {
        SessionView {
            mek: self.mek@,
            settings: self.user_settings,
            records: decrypted_views(self.password_entries@),
        }
    }
}

impl Default for SessionState {
    /// A session of nothing: no root key, no records, the default settings.
    fn default() -> (session: Self)
        ensures
            session@.mek == Seq::<u8>::empty(),
            session@.settings == UserSettings::default_spec(),
            session@.records == Seq::<DecryptedEntryView>::empty(),
    {
        let session = SessionState {
            mek: Vec::new(),
            user_settings: UserSettings::default(),
            password_entries: Vec::new(),
        };
        assert(session@.records =~= Seq::<DecryptedEntryView>::empty());
        session
    }
}

impl Drop for SessionState {
    fn drop(&mut self)
        opens_invariants none
        no_unwind
    {
        zeroize_bytes(&mut self.mek);
    }
}

/// Whether `texts` holds `text`.
fn holds_text(texts: &Vec<String>, text: &String) -> (found: bool)
    ensures
        found == text_views(texts@).contains(text@),
{
    let mut i: usize = 0;
    while i < texts.len()
        invariant
            i <= texts.len(),
            forall|j: int| 0 <= j < i ==> #[trigger] text_views(texts@)[j] != text@,
        decreases texts.len() - i,
    {
        if texts[i] == *text {
            assert(text_views(texts@)[i as int] == text@);
            return true;
        }
        i = i + 1;
    }
    false
}

impl SessionState {
    /// Opens `app_data` with `master_password`: unwraps the root key and
    /// reveals every record under it.
    ///
    /// Fails with the error of the unwrapping where the root key cannot be
    /// had, and with the error of the first record that cannot be revealed.
    pub fn new(app_data: ApplicationData, master_password: &[u8]) -> (r: Result<Self, CryptoError>)
        ensures
            match app_data@.unwrapped(master_password@) {
                Err(e) => r == Err::<Self, CryptoError>(e),
                Ok(mek) => match r {
                    Ok(session) => session@.is_opening_of(app_data@, mek),
                    Err(e) => exists|i: int|
                        0 <= i < app_data@.records.len() && (#[trigger] app_data@.records[i]).revealed(
                            mek,
                        ) == Err::<DecryptedEntryView, CryptoError>(e),
                },
            },
    {
        let mek = match app_data.decrypt_mek_data(master_password) {
            Ok(mek) => mek,
            Err(e) => {
                return Err(e);
            },
        };
        let mut password_entries: Vec<DecryptedPasswordEntry> = Vec::new();
        let mut i: usize = 0;
        while i < app_data.password_entries.len()
            invariant
                i <= app_data.password_entries.len(),
                password_entries@.len() == i,
                app_data@.unwrapped(master_password@) == Ok::<Seq<u8>, CryptoError>(mek@),
                forall|j: int|
                    0 <= j < i ==> (#[trigger] app_data@.records[j]).revealed(mek@) == Ok::<
                        DecryptedEntryView,
                        CryptoError,
                    >(password_entries@[j]@),
            decreases app_data.password_entries.len() - i,
        {
            match app_data.password_entries[i].to_decrypted(mek.as_slice()) {
                Ok(entry) => {
                    password_entries.push(entry);
                },
                Err(e) => {
                    let ghost key = mek@;
                    let mut mek = mek;
                    zeroize_bytes(&mut mek);
                    assert(app_data@.records[i as int].revealed(key) == Err::<
                        DecryptedEntryView,
                        CryptoError,
                    >(e));
                    return Err(e);
                },
            }
            i = i + 1;
        }
        Ok(SessionState { mek, user_settings: app_data.user_settings, password_entries })
    }

    /// Puts `entry` in the place of the first record with its id, or behind
    /// the records where none has it.
    pub fn add_decrypted_password_entry(&mut self, entry: DecryptedPasswordEntry)
        ensures
            final(self)@.mek == old(self)@.mek,
            final(self)@.settings == old(self)@.settings,
            !old(self)@.has_id(entry@.fields.id) ==> final(self)@.records == old(
                self,
            )@.records.push(entry@),
            forall|index: int| #[trigger]
                old(self)@.first_with_id(entry@.fields.id, index) ==> final(self)@.records == old(
                    self,
                )@.records.update(index, entry@),
    {
        let ghost before = self.password_entries@;
        let mut i: usize = 0;
        while i < self.password_entries.len()
            invariant
                i <= self.password_entries.len(),
                self.password_entries@ == before,
                self.mek == old(self).mek,
                self.user_settings == old(self).user_settings,
                before == old(self).password_entries@,
                forall|j: int|
                    0 <= j < i ==> #[trigger] decrypted_views(before)[j].fields.id
                        != entry@.fields.id,
            decreases self.password_entries.len() - i,
        {
            if self.password_entries[i] == entry {
                assert(old(self)@.first_with_id(entry@.fields.id, i as int));
                self.password_entries.push(entry);
                self.password_entries.swap_remove(i);
                assert(decrypted_views(self.password_entries@) =~= decrypted_views(before).update(
                    i as int,
                    entry@,
                ));
                return ;
            }
            i = i + 1;
        }
        self.password_entries.push(entry);
        assert(decrypted_views(self.password_entries@) =~= decrypted_views(before).push(entry@));
    }

    /// Replaces the settings of the password generator.
    pub fn update_user_settings(&mut self, user_settings: UserSettings)
        ensures
            final(self)@ == (SessionView { settings: user_settings, ..old(self)@ }),
    {
        self.user_settings = user_settings;
    }

    /// Closes the session: overwrites the root key and every secret field
    /// with zeros, and lets go of the records.
    pub fn zeroize(&mut self)
        ensures
            final(self)@ == (SessionView {
                mek: Seq::<u8>::empty(),
                records: Seq::<DecryptedEntryView>::empty(),
                settings: old(self)@.settings,
            }),
    {
        zeroize_bytes(&mut self.mek);
        while self.password_entries.len() > 0
            invariant
                self.mek@ == Seq::<u8>::empty(),
                self.user_settings == old(self).user_settings,
            decreases self.password_entries.len(),
        {
            match self.password_entries.pop() {
                Some(mut entry) => {
                    entry.zeroize();
                },
                None => {},
            }
        }
        assert(decrypted_views(self.password_entries@) =~= Seq::<DecryptedEntryView>::empty());
    }

    /// The first record with the id `entry_id`, if any.
    pub fn get_password_entry(&self, entry_id: &str) -> (found: Option<DecryptedPasswordEntry>)
        ensures
            match found {
                Some(entry) => exists|i: int|
                    #[trigger] self@.first_with_id(entry_id@, i) && self@.records[i] == entry@,
                None => !self@.has_id(entry_id@),
            },
    {
        let wanted = entry_id.to_owned();
        let mut i: usize = 0;
        while i < self.password_entries.len()
            invariant
                i <= self.password_entries.len(),
                wanted@ == entry_id@,
                forall|j: int| 0 <= j < i ==> #[trigger] self@.records[j].fields.id != entry_id@,
            decreases self.password_entries.len() - i,
        {
            if self.password_entries[i].id == wanted {
                assert(self@.first_with_id(entry_id@, i as int));
                return Some(self.password_entries[i].clone());
            }
            i = i + 1;
        }
        None
    }

    /// Removes every record with the id `entry_id`.
    pub fn remove_password_entry(&mut self, entry_id: &str)
        ensures
            final(self)@.mek == old(self)@.mek,
            final(self)@.settings == old(self)@.settings,
            final(self)@.records == old(self)@.records.filter(
                |entry: DecryptedEntryView| entry.fields.id != entry_id@,
            ),
    {
        let ghost kept = |entry: DecryptedEntryView| entry.fields.id != entry_id@;
        let ghost before = decrypted_views(self.password_entries@);
        let ghost mut seen: int = 0;
        let unwanted = entry_id.to_owned();
        let mut i: usize = 0;
        proof {
            reveal(Seq::filter);
            assert(before.take(0).filter(kept) =~= Seq::<DecryptedEntryView>::empty());
            assert(before.take(0) =~= Seq::<DecryptedEntryView>::empty());
            assert(before.skip(0) =~= before);
        }
        while i < self.password_entries.len()
            invariant
                self.mek == old(self).mek,
                self.user_settings == old(self).user_settings,
                kept == |entry: DecryptedEntryView| entry.fields.id != entry_id@,
                unwanted@ == entry_id@,
                i <= self.password_entries.len(),
                0 <= seen <= before.len(),
                self.password_entries.len() - i == before.len() - seen,
                decrypted_views(self.password_entries@).take(i as int) == before.take(seen).filter(
                    kept,
                ),
                decrypted_views(self.password_entries@).skip(i as int) == before.skip(seen),
            decreases self.password_entries.len() - i,
        {
            let ghost held = decrypted_views(self.password_entries@);
            let keep = self.password_entries[i].id != unwanted;
            proof {
                reveal(Seq::filter);
                assert(held[i as int] == held.skip(i as int)[0]);
                assert(before.skip(seen)[0] == before[seen]);
                assert(held[i as int] == before[seen]);
                assert(keep == kept(before[seen]));
                assert(before.take(seen + 1).drop_last() =~= before.take(seen));
                assert(before.take(seen + 1).last() == before[seen]);
            }
            if keep {
                proof {
                    assert(held.take(i + 1) =~= held.take(i as int).push(held[i as int]));
                    assert(held.skip(i + 1) =~= held.skip(i as int).skip(1));
                    assert(before.skip(seen + 1) =~= before.skip(seen).skip(1));
                }
                i = i + 1;
            } else {
                self.password_entries.remove(i);
                proof {
                    let now = decrypted_views(self.password_entries@);
                    assert(now =~= held.remove(i as int));
                    assert(now.take(i as int) =~= held.take(i as int));
                    assert(now.skip(i as int) =~= held.skip(i + 1));
                    assert(held.skip(i + 1) =~= held.skip(i as int).skip(1));
                    assert(before.skip(seen + 1) =~= before.skip(seen).skip(1));
                }
            }
            proof {
                seen = seen + 1;
            }
        }
        proof {
            let now = decrypted_views(self.password_entries@);
            assert(now.take(i as int) =~= now);
            assert(before.take(seen) =~= before);
        }
    }

    /// The records marked as favorites, in their order.
    pub fn get_favorites(&self) -> (favorites: Vec<DecryptedPasswordEntry>)
        ensures
            decrypted_views(favorites@) == self@.records.filter(
                |entry: DecryptedEntryView| entry.fields.favorite,
            ),
    {
        let ghost wanted = |entry: DecryptedEntryView| entry.fields.favorite;
        let ghost records = self@.records;
        let mut favorites: Vec<DecryptedPasswordEntry> = Vec::new();
        let mut i: usize = 0;
        proof {
            reveal(Seq::filter);
            assert(records.take(0).filter(wanted) =~= Seq::<DecryptedEntryView>::empty());
            assert(decrypted_views(favorites@) =~= Seq::<DecryptedEntryView>::empty());
        }
        while i < self.password_entries.len()
            invariant
                i <= self.password_entries.len(),
                records == decrypted_views(self.password_entries@),
                wanted == |entry: DecryptedEntryView| entry.fields.favorite,
                decrypted_views(favorites@) == records.take(i as int).filter(wanted),
            decreases self.password_entries.len() - i,
        {
            let entry = &self.password_entries[i];
            let ghost before = favorites@;
            if entry.favorite {
                favorites.push(entry.clone());
            }
            proof {
                reveal(Seq::filter);
                let now = records.take(i + 1);
                assert(now.drop_last() == records.take(i as int));
                assert(now.last() == entry@);
                if entry.favorite {
                    assert(decrypted_views(favorites@) =~= decrypted_views(before).push(entry@));
                }
            }
            i = i + 1;
        }
        assert(records.take(i as int) == records);
        favorites
    }

    /// The categories of the records, each once.
    pub fn get_categories(&self) -> (categories: Vec<String>)
        ensures
            self@.has_categories(text_views(categories@)),
    {
        let mut categories: Vec<String> = Vec::new();
        let mut i: usize = 0;
        assert(text_views(categories@) =~= Seq::<Seq<char>>::empty());
        while i < self.password_entries.len()
            invariant
                i <= self.password_entries.len(),
                text_views(categories@).no_duplicates(),
                forall|category: Seq<char>| #[trigger]
                    text_views(categories@).contains(category) <==> self@.has_category_among(
                        category,
                        i as int,
                    ),
            decreases self.password_entries.len() - i,
        {
            let ghost before = text_views(categories@);
            let ghost record = self@.records[i as int];
            let mut added = false;
            match &self.password_entries[i].category {
                Some(category) => {
                    if !holds_text(&categories, category) {
                        categories.push(category.clone());
                        added = true;
                        assert(text_views(categories@) =~= before.push(category@));
                    }
                },
                None => {},
            }
            proof {
                let now = text_views(categories@);
                assert forall|c: Seq<char>| #[trigger]
                    now.contains(c) <==> self@.has_category_among(c, i + 1) by {
                    if self@.has_category_among(c, i + 1) {
                        let j = choose|j: int|
                            0 <= j < i + 1 && j < self@.records.len() && (
                            #[trigger] self@.records[j]).fields.category == Some(c);
                        if j < i {
                            assert(self@.has_category_among(c, i as int));
                            assert(before.contains(c));
                            let k = choose|k: int| 0 <= k < before.len() && before[k] == c;
                            assert(now[k] == c);
                        } else {
                            assert(record.fields.category == Some(c));
                            if added {
                                assert(now[before.len() as int] == c);
                            } else {
                                assert(before.contains(c));
                            }
                        }
                    }
                    if now.contains(c) {
                        let k = choose|k: int| 0 <= k < now.len() && now[k] == c;
                        if k < before.len() {
                            assert(before[k] == c);
                            assert(before.contains(c));
                            assert(self@.has_category_among(c, i as int));
                            let j = choose|j: int|
                                0 <= j < i && j < self@.records.len() && (
                                #[trigger] self@.records[j]).fields.category == Some(c);
                            assert(self@.records[j].fields.category == Some(c));
                        } else {
                            assert(record.fields.category == Some(c));
                        }
                    }
                }
            }
            i = i + 1;
        }
        categories
    }

    /// Stores the session in `data`: every record protected anew under the
    /// root key, the settings, and the digests brought up to date. The
    /// authentication record and the key-wrap record of `data` stay.
    ///
    /// Fails where a record cannot be sealed, and with
    /// `CryptoOperationFailed` where the vault would be too long to be
    /// hashed, and leaves `data` as it was. A session without secret fields
    /// has nothing to seal: it is stored whenever the vault can be hashed.
    pub fn save_to(&self, data: &mut ApplicationData) -> (r: Result<(), CryptoError>)
        ensures
            match r {
                Ok(()) => {
                    &&& self@.is_protected_as(final(data)@.records)
                    &&& self@.stored_in(old(data)@, final(data)@.records).digestible()
                    &&& final(data)@ == self@.stored_in(
                        old(data)@,
                        final(data)@.records,
                    ).with_current_digests()
                },
                Err(e) => {
                    &&& final(data)@ == old(data)@
                    &&& if e is CryptoOperationFailed {
                        exists|sealed: Seq<EntryView>|
                            self@.is_protected_as(sealed) && !(#[trigger] self@.stored_in(
                                old(data)@,
                                sealed,
                            )).digestible()
                    } else {
                        &&& is_sealing_failure(e) || e is KeyDerivationFailed
                        &&& !self@.has_no_secrets()
                    }
                },
            },
            (r matches Err(CryptoError::KeyDerivationFailed)) <==> (!self@.has_no_secrets()
                && self@.mek.len() > MAX_DIGEST_INPUT),
            r is Ok ==> final(data)@.is_settled(),
            self@.has_no_secrets() ==> ({
                let stored = self@.stored_in(old(data)@, self@.bare_records());
                if stored.digestible() {
                    r is Ok && final(data)@ == stored.with_current_digests()
                } else {
                    (r matches Err(CryptoError::CryptoOperationFailed)) && final(data)@ == old(
                        data,
                    )@
                }
            }),
    {
        let mut password_entries: Vec<PasswordEntry> = Vec::new();
        let mut i: usize = 0;
        while i < self.password_entries.len()
            invariant
                i <= self.password_entries.len(),
                password_entries@.len() == i,
                forall|j: int|
                    0 <= j < i ==> (#[trigger] entry_views(password_entries@)[j]).protects(
                        self@.records[j],
                        self@.mek,
                    ),
                self@.mek.len() > MAX_DIGEST_INPUT ==> forall|j: int|
                    0 <= j < i ==> (#[trigger] self@.records[j]).password is None,
            decreases self.password_entries.len() - i,
        {
            let ghost before = entry_views(password_entries@);
            match self.password_entries[i].convert_to_encrypted(self.mek.as_slice()) {
                Ok(entry) => {
                    password_entries.push(entry);
                    proof {
                        assert(self@.records[i as int] == self.password_entries@[i as int]@);
                        assert(entry_views(password_entries@) =~= before.push(entry@));
                    }
                },
                Err(e) => {
                    proof {
                        assert(self@.records[i as int] == self.password_entries@[i as int]@);
                        assert(self@.records[i as int].password is Some);
                    }
                    return Err(e);
                },
            }
            i = i + 1;
        }
        let ghost sealed = entry_views(password_entries@);
        proof {
            assert(self@.is_protected_as(sealed));
            if self@.has_no_secrets() {
                assert forall|j: int| 0 <= j < sealed.len() implies sealed[j]
                    == self@.bare_records()[j] by {
                    assert(sealed[j].protects(self@.records[j], self@.mek));
                    assert(self@.records[j].password is None);
                }
                assert(sealed =~= self@.bare_records());
            }
        }
        data.replace_working_set(password_entries, self.user_settings.clone())
    }
}

} // verus!
