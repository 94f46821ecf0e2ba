//! The stored document: a vault as one JSON text.
//!
//! The document holds the parts of a vault under fixed names in a fixed
//! order, each part in its canonical text, so that a digest in the document
//! is the digest of a piece of the document itself. The reader takes what
//! the writer gives and nothing else: a vault is read back as it was
//! written, and a text that no vault is written as is refused.

use crate::canonical::{
    auth_text, bool_text, bytes_equal, decimal, entries_text, key_wrap_text, lemma_join, lit,
    optional_string_text, write_auth, write_decimal, write_entries, write_key_wrap, write_lit,
    write_optional_string,
};
use crate::config::UserSettings;
use crate::error_handling::{unreadable_document, CryptoError};
use crate::password_entry::text_in;
use crate::reading::{
    entries_fit, key_wrap_fits, optional_envelope_fits, read_auth, read_bool, read_decimal,
    read_entries, read_key_wrap, read_lit, read_optional_string, stands_at,
};
use crate::storage::{ApplicationData, VaultView};
use crate::unambiguous::{
    is_digit, lemma_auth_text_delimited, lemma_bool_text_delimited, lemma_decimal_delimited,
    lemma_entries_text_delimited, lemma_key_wrap_text_delimited,
    lemma_optional_string_text_delimited, lemma_same_start,
};
use vstd::prelude::*;
use vstd::utf8::{is_ascii_chars, is_ascii_chars_encode_utf8};

verus! {

/// The text of the settings, and behind it `rest`.
pub open spec fn settings_then(settings: UserSettings, rest: Seq<u8>) -> Seq<u8> {
    lit("{\"passwordLength\":") + (decimal(settings.password_length) + (lit(
        ",\"minPasswordLength\":",
    ) + (decimal(settings.min_password_length) + (lit(",\"useNum\":") + (bool_text(
        settings.use_num,
    ) + (lit(",\"minNum\":") + (decimal(settings.min_num) + (lit(",\"useSymbol\":") + (bool_text(
        settings.use_symbol,
    ) + (lit(",\"minSymbol\":") + (decimal(settings.min_symbol) + (lit(",\"useLower\":") + (
    bool_text(settings.use_lower) + (lit(",\"useUpper\":") + (bool_text(settings.use_upper) + (lit(
        "}",
    ) + rest))))))))))))))))
}

/// The text of the three digests under their names, and the brace that
/// closes the document.
pub open spec fn digests_text(vault: VaultView) -> Seq<u8> {
    lit(",\"masterPasswordDataHash\":") + (optional_string_text(vault.digest_auth) + (lit(
        ",\"mekDataHash\":",
    ) + (optional_string_text(vault.digest_key_wrap) + (lit(",\"passwordEntriesHash\":") + (
    optional_string_text(vault.digest_records) + lit("}"))))))
}

/// The document of a vault: its parts under their names, in their order.
pub open spec fn document_text(vault: VaultView) -> Seq<u8> {
    lit("{\"masterPasswordData\":") + (auth_text(vault.auth) + (lit(",\"mekData\":") + (
    key_wrap_text(vault.key_wrap) + (lit(",\"passwordEntries\":") + (entries_text(vault.records)
        + (lit(",\"userSettings\":") + settings_then(vault.settings, digests_text(vault))))))))
}

/// Appends a truth value to `out`.
fn write_bool(out: &mut Vec<u8>, value: bool)
    ensures
        final(out)@ == old(out)@ + bool_text(value),
{
    if value {
        write_lit(out, "true");
    } else {
        write_lit(out, "false");
    }
}

/// Appends a name and a number to `out`.
fn write_number_member(out: &mut Vec<u8>, name: &str, value: u8)
    ensures
        final(out)@ == old(out)@ + (lit(name) + decimal(value)),
{
    write_lit(out, name);
    write_decimal(out, value);
    proof {
        lemma_join(old(out)@, lit(name), decimal(value));
    }
}

/// Appends a name and a truth value to `out`.
fn write_bool_member(out: &mut Vec<u8>, name: &str, value: bool)
    ensures
        final(out)@ == old(out)@ + (lit(name) + bool_text(value)),
{
    write_lit(out, name);
    write_bool(out, value);
    proof {
        lemma_join(old(out)@, lit(name), bool_text(value));
    }
}

/// Appends a name and a text that may be absent to `out`.
fn write_text_member(out: &mut Vec<u8>, name: &str, value: &Option<String>)
    ensures
        final(out)@ == old(out)@ + (lit(name) + optional_string_text(text_in(*value))),
{
    write_lit(out, name);
    write_optional_string(out, value);
    proof {
        lemma_join(old(out)@, lit(name), optional_string_text(text_in(*value)));
    }
}

/// Appends the text of the settings to `out`, and a closing brace.
#[verifier::rlimit(50)]
fn write_settings(out: &mut Vec<u8>, settings: &UserSettings)
    ensures
        final(out)@ == old(out)@ + settings_then(*settings, Seq::<u8>::empty()),
{
    let ghost start = out@;
    let ghost s = *settings;
    let ghost none = Seq::<u8>::empty();
    write_number_member(out, "{\"passwordLength\":", settings.password_length);
    write_number_member(out, ",\"minPasswordLength\":", settings.min_password_length);
    write_bool_member(out, ",\"useNum\":", settings.use_num);
    write_number_member(out, ",\"minNum\":", settings.min_num);
    write_bool_member(out, ",\"useSymbol\":", settings.use_symbol);
    write_number_member(out, ",\"minSymbol\":", settings.min_symbol);
    write_bool_member(out, ",\"useLower\":", settings.use_lower);
    write_bool_member(out, ",\"useUpper\":", settings.use_upper);
    write_lit(out, "}");
    proof {
        let m1 = lit("{\"passwordLength\":") + decimal(s.password_length);
        let m2 = lit(",\"minPasswordLength\":") + decimal(s.min_password_length);
        let m3 = lit(",\"useNum\":") + bool_text(s.use_num);
        let m4 = lit(",\"minNum\":") + decimal(s.min_num);
        let m5 = lit(",\"useSymbol\":") + bool_text(s.use_symbol);
        let m6 = lit(",\"minSymbol\":") + decimal(s.min_symbol);
        let m7 = lit(",\"useLower\":") + bool_text(s.use_lower);
        let m8 = lit(",\"useUpper\":") + bool_text(s.use_upper);
        let end = lit("}");
        let t8 = m8 + (end + none);
        let t7 = m7 + t8;
        let t6 = m6 + t7;
        let t5 = m5 + t6;
        let t4 = m4 + t5;
        let t3 = m3 + t4;
        let t2 = m2 + t3;
        let t1 = m1 + t2;
        assert(end + none =~= end);
        lemma_join(start + m1 + m2 + m3 + m4 + m5 + m6 + m7, m8, end);
        lemma_join(start + m1 + m2 + m3 + m4 + m5 + m6, m7, t8);
        lemma_join(start + m1 + m2 + m3 + m4 + m5, m6, t7);
        lemma_join(start + m1 + m2 + m3 + m4, m5, t6);
        lemma_join(start + m1 + m2 + m3, m4, t5);
        lemma_join(start + m1 + m2, m3, t4);
        lemma_join(start + m1, m2, t3);
        lemma_join(start, m1, t2);
        assert(out@ == start + t1);
        lemma_join(lit(",\"useUpper\":"), bool_text(s.use_upper), end + none);
        lemma_join(lit(",\"useLower\":"), bool_text(s.use_lower), t8);
        lemma_join(lit(",\"minSymbol\":"), decimal(s.min_symbol), t7);
        lemma_join(lit(",\"useSymbol\":"), bool_text(s.use_symbol), t6);
        lemma_join(lit(",\"minNum\":"), decimal(s.min_num), t5);
        lemma_join(lit(",\"useNum\":"), bool_text(s.use_num), t4);
        lemma_join(lit(",\"minPasswordLength\":"), decimal(s.min_password_length), t3);
        lemma_join(lit("{\"passwordLength\":"), decimal(s.password_length), t2);
        assert(t1 == settings_then(s, none));
    }
}

/// Behind the settings and their brace stands what follows them.
proof fn lemma_settings_then(settings: UserSettings, rest: Seq<u8>)
    ensures
        settings_then(settings, Seq::<u8>::empty()) + rest == settings_then(settings, rest),
{
    let s = settings;
    let none = Seq::<u8>::empty();
    let end = lit("}");
    assert((end + none) + rest =~= end + rest);
    let a8 = bool_text(s.use_upper) + (end + none);
    let b8 = bool_text(s.use_upper) + (end + rest);
    lemma_join(bool_text(s.use_upper), end + none, rest);
    let a7 = lit(",\"useUpper\":") + a8;
    let b7 = lit(",\"useUpper\":") + b8;
    lemma_join(lit(",\"useUpper\":"), a8, rest);
    let a6 = bool_text(s.use_lower) + a7;
    let b6 = bool_text(s.use_lower) + b7;
    lemma_join(bool_text(s.use_lower), a7, rest);
    let a5 = lit(",\"useLower\":") + a6;
    let b5 = lit(",\"useLower\":") + b6;
    lemma_join(lit(",\"useLower\":"), a6, rest);
    let a4 = decimal(s.min_symbol) + a5;
    let b4 = decimal(s.min_symbol) + b5;
    lemma_join(decimal(s.min_symbol), a5, rest);
    let a3 = lit(",\"minSymbol\":") + a4;
    let b3 = lit(",\"minSymbol\":") + b4;
    lemma_join(lit(",\"minSymbol\":"), a4, rest);
    let a2 = bool_text(s.use_symbol) + a3;
    let b2 = bool_text(s.use_symbol) + b3;
    lemma_join(bool_text(s.use_symbol), a3, rest);
    let a1 = lit(",\"useSymbol\":") + a2;
    let b1 = lit(",\"useSymbol\":") + b2;
    lemma_join(lit(",\"useSymbol\":"), a2, rest);
    let c4 = decimal(s.min_num) + a1;
    let d4 = decimal(s.min_num) + b1;
    lemma_join(decimal(s.min_num), a1, rest);
    let c3 = lit(",\"minNum\":") + c4;
    let d3 = lit(",\"minNum\":") + d4;
    lemma_join(lit(",\"minNum\":"), c4, rest);
    let c2 = bool_text(s.use_num) + c3;
    let d2 = bool_text(s.use_num) + d3;
    lemma_join(bool_text(s.use_num), c3, rest);
    let c1 = lit(",\"useNum\":") + c2;
    let d1 = lit(",\"useNum\":") + d2;
    lemma_join(lit(",\"useNum\":"), c2, rest);
    let e2 = decimal(s.min_password_length) + c1;
    let f2 = decimal(s.min_password_length) + d1;
    lemma_join(decimal(s.min_password_length), c1, rest);
    let e1 = lit(",\"minPasswordLength\":") + e2;
    let f1 = lit(",\"minPasswordLength\":") + f2;
    lemma_join(lit(",\"minPasswordLength\":"), e2, rest);
    let g2 = decimal(s.password_length) + e1;
    let h2 = decimal(s.password_length) + f1;
    lemma_join(decimal(s.password_length), e1, rest);
    lemma_join(lit("{\"passwordLength\":"), g2, rest);
}

/// The names behind the numbers of the settings begin with a comma.
proof fn lemma_names_begin(rest: Seq<u8>)
    ensures
        (lit(",\"minPasswordLength\":") + rest).len() > 0,
        (lit(",\"minPasswordLength\":") + rest)[0] == 44,
        (lit(",\"useNum\":") + rest).len() > 0,
        (lit(",\"useNum\":") + rest)[0] == 44,
        (lit(",\"useSymbol\":") + rest).len() > 0,
        (lit(",\"useSymbol\":") + rest)[0] == 44,
        (lit(",\"useLower\":") + rest).len() > 0,
        (lit(",\"useLower\":") + rest)[0] == 44,
{
    reveal_strlit(",\"minPasswordLength\":");
    reveal_strlit(",\"useNum\":");
    reveal_strlit(",\"useSymbol\":");
    reveal_strlit(",\"useLower\":");
    assert(is_ascii_chars(",\"minPasswordLength\":"@));
    assert(is_ascii_chars(",\"useNum\":"@));
    assert(is_ascii_chars(",\"useSymbol\":"@));
    assert(is_ascii_chars(",\"useLower\":"@));
    is_ascii_chars_encode_utf8(",\"minPasswordLength\":"@);
    is_ascii_chars_encode_utf8(",\"useNum\":"@);
    is_ascii_chars_encode_utf8(",\"useSymbol\":"@);
    is_ascii_chars_encode_utf8(",\"useLower\":"@);
    assert(lit(",\"minPasswordLength\":")[0] == 44);
    assert(lit(",\"useNum\":")[0] == 44);
    assert(lit(",\"useSymbol\":")[0] == 44);
    assert(lit(",\"useLower\":")[0] == 44);
}

/// The settings end at their closing brace: two settings whose texts begin
/// equal texts are the same, and what follows them is the same.
#[verifier::rlimit(50)]
pub proof fn lemma_settings_delimited(x: UserSettings, y: UserSettings, r: Seq<u8>, s: Seq<u8>)
    requires
        settings_then(x, r) == settings_then(y, s),
    ensures
        x == y,
        r == s,
{
    let x9 = lit("}") + r;
    let y9 = lit("}") + s;
    let x8 = lit(",\"useUpper\":") + (bool_text(x.use_upper) + x9);
    let y8 = lit(",\"useUpper\":") + (bool_text(y.use_upper) + y9);
    let x7 = lit(",\"useLower\":") + (bool_text(x.use_lower) + x8);
    let y7 = lit(",\"useLower\":") + (bool_text(y.use_lower) + y8);
    let x6 = lit(",\"minSymbol\":") + (decimal(x.min_symbol) + x7);
    let y6 = lit(",\"minSymbol\":") + (decimal(y.min_symbol) + y7);
    let x5 = lit(",\"useSymbol\":") + (bool_text(x.use_symbol) + x6);
    let y5 = lit(",\"useSymbol\":") + (bool_text(y.use_symbol) + y6);
    let x4 = lit(",\"minNum\":") + (decimal(x.min_num) + x5);
    let y4 = lit(",\"minNum\":") + (decimal(y.min_num) + y5);
    let x3 = lit(",\"useNum\":") + (bool_text(x.use_num) + x4);
    let y3 = lit(",\"useNum\":") + (bool_text(y.use_num) + y4);
    let x2 = lit(",\"minPasswordLength\":") + (decimal(x.min_password_length) + x3);
    let y2 = lit(",\"minPasswordLength\":") + (decimal(y.min_password_length) + y3);
    lemma_same_start(
        lit("{\"passwordLength\":"),
        decimal(x.password_length) + x2,
        decimal(y.password_length) + y2,
    );
    lemma_names_begin(decimal(x.min_password_length) + x3);
    lemma_names_begin(decimal(y.min_password_length) + y3);
    lemma_decimal_delimited(x.password_length, y.password_length, x2, y2);
    lemma_same_start(
        lit(",\"minPasswordLength\":"),
        decimal(x.min_password_length) + x3,
        decimal(y.min_password_length) + y3,
    );
    lemma_names_begin(bool_text(x.use_num) + x4);
    lemma_names_begin(bool_text(y.use_num) + y4);
    lemma_decimal_delimited(x.min_password_length, y.min_password_length, x3, y3);
    lemma_same_start(lit(",\"useNum\":"), bool_text(x.use_num) + x4, bool_text(y.use_num) + y4);
    lemma_bool_text_delimited(x.use_num, y.use_num, x4, y4);
    lemma_same_start(lit(",\"minNum\":"), decimal(x.min_num) + x5, decimal(y.min_num) + y5);
    lemma_names_begin(bool_text(x.use_symbol) + x6);
    lemma_names_begin(bool_text(y.use_symbol) + y6);
    lemma_decimal_delimited(x.min_num, y.min_num, x5, y5);
    lemma_same_start(
        lit(",\"useSymbol\":"),
        bool_text(x.use_symbol) + x6,
        bool_text(y.use_symbol) + y6,
    );
    lemma_bool_text_delimited(x.use_symbol, y.use_symbol, x6, y6);
    lemma_same_start(
        lit(",\"minSymbol\":"),
        decimal(x.min_symbol) + x7,
        decimal(y.min_symbol) + y7,
    );
    lemma_names_begin(bool_text(x.use_lower) + x8);
    lemma_names_begin(bool_text(y.use_lower) + y8);
    lemma_decimal_delimited(x.min_symbol, y.min_symbol, x7, y7);
    lemma_same_start(
        lit(",\"useLower\":"),
        bool_text(x.use_lower) + x8,
        bool_text(y.use_lower) + y8,
    );
    lemma_bool_text_delimited(x.use_lower, y.use_lower, x8, y8);
    lemma_same_start(
        lit(",\"useUpper\":"),
        bool_text(x.use_upper) + x9,
        bool_text(y.use_upper) + y9,
    );
    lemma_bool_text_delimited(x.use_upper, y.use_upper, x9, y9);
    lemma_same_start(lit("}"), r, s);
}

/// Two vaults with the same document are the same vault.
#[verifier::rlimit(50)]
pub proof fn lemma_document_text_is_unambiguous(x: VaultView, y: VaultView)
    requires
        document_text(x) == document_text(y),
    ensures
        x == y,
{
    let x7 = lit("}");
    let x6 = lit(",\"passwordEntriesHash\":") + (optional_string_text(x.digest_records) + x7);
    let y6 = lit(",\"passwordEntriesHash\":") + (optional_string_text(y.digest_records) + x7);
    let x5 = lit(",\"mekDataHash\":") + (optional_string_text(x.digest_key_wrap) + x6);
    let y5 = lit(",\"mekDataHash\":") + (optional_string_text(y.digest_key_wrap) + y6);
    let x4 = lit(",\"userSettings\":") + settings_then(x.settings, digests_text(x));
    let y4 = lit(",\"userSettings\":") + settings_then(y.settings, digests_text(y));
    let x3 = lit(",\"passwordEntries\":") + (entries_text(x.records) + x4);
    let y3 = lit(",\"passwordEntries\":") + (entries_text(y.records) + y4);
    let x2 = lit(",\"mekData\":") + (key_wrap_text(x.key_wrap) + x3);
    let y2 = lit(",\"mekData\":") + (key_wrap_text(y.key_wrap) + y3);
    lemma_same_start(lit("{\"masterPasswordData\":"), auth_text(x.auth) + x2, auth_text(y.auth) + y2);
    lemma_auth_text_delimited(x.auth, y.auth, x2, y2);
    lemma_same_start(
        lit(",\"mekData\":"),
        key_wrap_text(x.key_wrap) + x3,
        key_wrap_text(y.key_wrap) + y3,
    );
    lemma_key_wrap_text_delimited(x.key_wrap, y.key_wrap, x3, y3);
    lemma_same_start(
        lit(",\"passwordEntries\":"),
        entries_text(x.records) + x4,
        entries_text(y.records) + y4,
    );
    lemma_entries_text_delimited(x.records, y.records, x4, y4);
    lemma_same_start(
        lit(",\"userSettings\":"),
        settings_then(x.settings, digests_text(x)),
        settings_then(y.settings, digests_text(y)),
    );
    lemma_settings_delimited(x.settings, y.settings, digests_text(x), digests_text(y));
    lemma_same_start(
        lit(",\"masterPasswordDataHash\":"),
        optional_string_text(x.digest_auth) + x5,
        optional_string_text(y.digest_auth) + y5,
    );
    lemma_optional_string_text_delimited(x.digest_auth, y.digest_auth, x5, y5);
    lemma_same_start(
        lit(",\"mekDataHash\":"),
        optional_string_text(x.digest_key_wrap) + x6,
        optional_string_text(y.digest_key_wrap) + y6,
    );
    lemma_optional_string_text_delimited(x.digest_key_wrap, y.digest_key_wrap, x6, y6);
    lemma_same_start(
        lit(",\"passwordEntriesHash\":"),
        optional_string_text(x.digest_records) + x7,
        optional_string_text(y.digest_records) + x7,
    );
    lemma_optional_string_text_delimited(x.digest_records, y.digest_records, x7, x7);
}

/// Reads the settings.
#[verifier::rlimit(50)]
fn read_settings(
    input: &[u8],
    pos: usize,
    Ghost(settings): Ghost<UserSettings>,
    Ghost(rest): Ghost<Seq<u8>>,
) -> (r: Option<(UserSettings, usize)>)
    requires
        pos <= input@.len(),
    ensures
        r matches Some((_, n)) ==> pos <= n <= input@.len(),
        stands_at(input@, pos as int, settings_then(settings, rest)) ==> (r matches Some(
            (read, n),
        ) && read == settings && stands_at(input@, n as int, rest)),
{
    let ghost s = settings;
    let ghost t9 = lit("}") + rest;
    let ghost t8 = lit(",\"useUpper\":") + (bool_text(s.use_upper) + t9);
    let ghost t7 = lit(",\"useLower\":") + (bool_text(s.use_lower) + t8);
    let ghost t6 = lit(",\"minSymbol\":") + (decimal(s.min_symbol) + t7);
    let ghost t5 = lit(",\"useSymbol\":") + (bool_text(s.use_symbol) + t6);
    let ghost t4 = lit(",\"minNum\":") + (decimal(s.min_num) + t5);
    let ghost t3 = lit(",\"useNum\":") + (bool_text(s.use_num) + t4);
    let ghost t2 = lit(",\"minPasswordLength\":") + (decimal(s.min_password_length) + t3);
    proof {
        lemma_names_begin(decimal(s.min_password_length) + t3);
        lemma_names_begin(bool_text(s.use_num) + t4);
        lemma_names_begin(bool_text(s.use_symbol) + t6);
        lemma_names_begin(bool_text(s.use_lower) + t8);
        assert(!is_digit(44u8));
    }
    let at = match read_lit(
        input,
        pos,
        "{\"passwordLength\":",
        Ghost(decimal(s.password_length) + t2),
    ) {
        Some(at) => at,
        None => {
            return None;
        },
    };
    let (password_length, at) = match read_decimal(
        input,
        at,
        Ghost(s.password_length),
        Ghost(t2),
    ) {
        Some(found) => found,
        None => {
            return None;
        },
    };
    let at = match read_lit(
        input,
        at,
        ",\"minPasswordLength\":",
        Ghost(decimal(s.min_password_length) + t3),
    ) {
        Some(at) => at,
        None => {
            return None;
        },
    };
    let (min_password_length, at) = match read_decimal(
        input,
        at,
        Ghost(s.min_password_length),
        Ghost(t3),
    ) {
        Some(found) => found,
        None => {
            return None;
        },
    };
    let at = match read_lit(input, at, ",\"useNum\":", Ghost(bool_text(s.use_num) + t4)) {
        Some(at) => at,
        None => {
            return None;
        },
    };
    let (use_num, at) = match read_bool(input, at, Ghost(s.use_num), Ghost(t4)) {
        Some(found) => found,
        None => {
            return None;
        },
    };
    let at = match read_lit(input, at, ",\"minNum\":", Ghost(decimal(s.min_num) + t5)) {
        Some(at) => at,
        None => {
            return None;
        },
    };
    let (min_num, at) = match read_decimal(input, at, Ghost(s.min_num), Ghost(t5)) {
        Some(found) => found,
        None => {
            return None;
        },
    };
    let at = match read_lit(input, at, ",\"useSymbol\":", Ghost(bool_text(s.use_symbol) + t6)) {
        Some(at) => at,
        None => {
            return None;
        },
    };
    let (use_symbol, at) = match read_bool(input, at, Ghost(s.use_symbol), Ghost(t6)) {
        Some(found) => found,
        None => {
            return None;
        },
    };
    let at = match read_lit(input, at, ",\"minSymbol\":", Ghost(decimal(s.min_symbol) + t7)) {
        Some(at) => at,
        None => {
            return None;
        },
    };
    let (min_symbol, at) = match read_decimal(input, at, Ghost(s.min_symbol), Ghost(t7)) {
        Some(found) => found,
        None => {
            return None;
        },
    };
    let at = match read_lit(input, at, ",\"useLower\":", Ghost(bool_text(s.use_lower) + t8)) {
        Some(at) => at,
        None => {
            return None;
        },
    };
    let (use_lower, at) = match read_bool(input, at, Ghost(s.use_lower), Ghost(t8)) {
        Some(found) => found,
        None => {
            return None;
        },
    };
    let at = match read_lit(input, at, ",\"useUpper\":", Ghost(bool_text(s.use_upper) + t9)) {
        Some(at) => at,
        None => {
            return None;
        },
    };
    let (use_upper, at) = match read_bool(input, at, Ghost(s.use_upper), Ghost(t9)) {
        Some(found) => found,
        None => {
            return None;
        },
    };
    let at = match read_lit(input, at, "}", Ghost(rest)) {
        Some(at) => at,
        None => {
            return None;
        },
    };
    Some(
        (
            UserSettings {
                password_length,
                min_password_length,
                use_num,
                min_num,
                use_symbol,
                min_symbol,
                use_lower,
                use_upper,
            },
            at,
        ),
    )
}

/// Whether every envelope of a vault has a nonce of 12 bytes, as it has in
/// every vault in memory.
pub open spec fn vault_fits(vault: VaultView) -> bool {
    key_wrap_fits(vault.key_wrap) && entries_fit(vault.records)
}

/// Reads a document from its first byte to its last.
#[verifier::rlimit(50)]
fn read_document(input: &[u8], Ghost(vault): Ghost<VaultView>) -> (r: Option<ApplicationData>)
    ensures
        input@ == document_text(vault) && vault_fits(vault) ==> (r matches Some(read) && read@
            == vault),
{
    let ghost v = vault;
    let ghost none = Seq::<u8>::empty();
    let ghost t7 = lit("}") + none;
    let ghost t6 = lit(",\"passwordEntriesHash\":") + (optional_string_text(v.digest_records)
        + t7);
    let ghost t5 = lit(",\"mekDataHash\":") + (optional_string_text(v.digest_key_wrap) + t6);
    let ghost t4 = digests_text(v);
    let ghost t3 = lit(",\"userSettings\":") + settings_then(v.settings, t4);
    let ghost t2 = lit(",\"passwordEntries\":") + (entries_text(v.records) + t3);
    let ghost t1 = lit(",\"mekData\":") + (key_wrap_text(v.key_wrap) + t2);
    proof {
        assert(input@.skip(0) =~= input@);
        assert(lit("}") + none =~= lit("}"));
    }
    let at = match read_lit(
        input,
        0,
        "{\"masterPasswordData\":",
        Ghost(auth_text(v.auth) + t1),
    ) {
        Some(at) => at,
        None => {
            return None;
        },
    };
    let (master_password_data, at) = match read_auth(input, at, Ghost(v.auth), Ghost(t1)) {
        Some(found) => found,
        None => {
            return None;
        },
    };
    let at = match read_lit(input, at, ",\"mekData\":", Ghost(key_wrap_text(v.key_wrap) + t2)) {
        Some(at) => at,
        None => {
            return None;
        },
    };
    let (mek_data, at) = match read_key_wrap(input, at, Ghost(v.key_wrap), Ghost(t2)) {
        Some(found) => found,
        None => {
            return None;
        },
    };
    let at = match read_lit(
        input,
        at,
        ",\"passwordEntries\":",
        Ghost(entries_text(v.records) + t3),
    ) {
        Some(at) => at,
        None => {
            return None;
        },
    };
    let (password_entries, at) = match read_entries(input, at, Ghost(v.records), Ghost(t3)) {
        Some(found) => found,
        None => {
            return None;
        },
    };
    let at = match read_lit(
        input,
        at,
        ",\"userSettings\":",
        Ghost(settings_then(v.settings, t4)),
    ) {
        Some(at) => at,
        None => {
            return None;
        },
    };
    let (user_settings, at) = match read_settings(input, at, Ghost(v.settings), Ghost(t4)) {
        Some(found) => found,
        None => {
            return None;
        },
    };
    let at = match read_lit(
        input,
        at,
        ",\"masterPasswordDataHash\":",
        Ghost(optional_string_text(v.digest_auth) + t5),
    ) {
        Some(at) => at,
        None => {
            return None;
        },
    };
    let (master_password_data_hash, at) = match read_optional_string(
        input,
        at,
        Ghost(v.digest_auth),
        Ghost(t5),
    ) {
        Some(found) => found,
        None => {
            return None;
        },
    };
    let at = match read_lit(
        input,
        at,
        ",\"mekDataHash\":",
        Ghost(optional_string_text(v.digest_key_wrap) + t6),
    ) {
        Some(at) => at,
        None => {
            return None;
        },
    };
    let (mek_data_hash, at) = match read_optional_string(
        input,
        at,
        Ghost(v.digest_key_wrap),
        Ghost(t6),
    ) {
        Some(found) => found,
        None => {
            return None;
        },
    };
    let at = match read_lit(
        input,
        at,
        ",\"passwordEntriesHash\":",
        Ghost(optional_string_text(v.digest_records) + t7),
    ) {
        Some(at) => at,
        None => {
            return None;
        },
    };
    let (password_entries_hash, at) = match read_optional_string(
        input,
        at,
        Ghost(v.digest_records),
        Ghost(t7),
    ) {
        Some(found) => found,
        None => {
            return None;
        },
    };
    match read_lit(input, at, "}", Ghost(none)) {
        Some(_) => {},
        None => {
            return None;
        },
    }
    Some(
        ApplicationData {
            master_password_data,
            mek_data,
            password_entries,
            user_settings,
            master_password_data_hash,
            mek_data_hash,
            password_entries_hash,
        },
    )
}

/// In a vault in memory every envelope has a nonce of 12 bytes.
pub proof fn lemma_held_vault_fits(data: ApplicationData)
    ensures
        vault_fits(data@),
{
    assert forall|i: int| 0 <= i < data@.records.len() implies optional_envelope_fits(
        #[trigger] data@.records[i].password,
    ) by {
        let entry = data.password_entries@[i];
        assert(data@.records[i] == entry@);
    }
}

impl ApplicationData {
    /// The vault that `document` is the document of.
    ///
    /// Only the document that `to_document` gives of a vault is read. Fails
    /// with `Serde` on every other text.
    #[verifier::rlimit(50)]
    pub fn from_document(document: &[u8]) -> (r: Result<Self, CryptoError>)
        ensures
            match r {
                Ok(data) => document@ == document_text(data@),
                Err(e) => e is Serde && forall|data: ApplicationData|
                    document@ != document_text(#[trigger] data@),
            },
            forall|data: ApplicationData|
                document@ == document_text(#[trigger] data@) ==> (r matches Ok(read) && read@
                    == data@),
    {
        let ghost written = exists|data: ApplicationData|
            document@ == document_text(#[trigger] data@);
        let ghost witness: ApplicationData = choose|data: ApplicationData|
            document@ == document_text(#[trigger] data@);
        proof {
            lemma_held_vault_fits(witness);
            assert forall|data: ApplicationData|
                document@ == document_text(#[trigger] data@) implies data@ == witness@ by {
                lemma_document_text_is_unambiguous(data@, witness@);
            }
        }
        match read_document(document, Ghost(witness@)) {
            Some(read) => {
                let again = read.to_document();
                if bytes_equal(again.as_slice(), document) {
                    Ok(read)
                } else {
                    Err(CryptoError::Serde(unreadable_document()))
                }
            },
            None => Err(CryptoError::Serde(unreadable_document())),
        }
    }

    /// The document of this vault.
    #[verifier::rlimit(50)]
    pub fn to_document(&self) -> (document: Vec<u8>)
        ensures
            document@ == document_text(self@),
    {
        let ghost v = self@;
        let ghost none = Seq::<u8>::empty();
        let mut out: Vec<u8> = Vec::new();
        write_lit(&mut out, "{\"masterPasswordData\":");
        write_auth(&mut out, &self.master_password_data);
        write_lit(&mut out, ",\"mekData\":");
        write_key_wrap(&mut out, &self.mek_data);
        write_lit(&mut out, ",\"passwordEntries\":");
        write_entries(&mut out, &self.password_entries);
        write_lit(&mut out, ",\"userSettings\":");
        write_settings(&mut out, &self.user_settings);
        let ghost body = out@;
        write_text_member(&mut out, ",\"masterPasswordDataHash\":", &self.master_password_data_hash);
        write_text_member(&mut out, ",\"mekDataHash\":", &self.mek_data_hash);
        write_text_member(&mut out, ",\"passwordEntriesHash\":", &self.password_entries_hash);
        write_lit(&mut out, "}");
        proof {
            let d1 = lit(",\"masterPasswordDataHash\":") + optional_string_text(v.digest_auth);
            let d2 = lit(",\"mekDataHash\":") + optional_string_text(v.digest_key_wrap);
            let d3 = lit(",\"passwordEntriesHash\":") + optional_string_text(v.digest_records);
            let end = lit("}");
            lemma_join(body + d1 + d2, d3, end);
            lemma_join(body + d1, d2, d3 + end);
            lemma_join(body, d1, d2 + (d3 + end));
            lemma_join(
                lit(",\"passwordEntriesHash\":"),
                optional_string_text(v.digest_records),
                end,
            );
            lemma_join(
                lit(",\"mekDataHash\":"),
                optional_string_text(v.digest_key_wrap),
                d3 + end,
            );
            lemma_join(
                lit(",\"masterPasswordDataHash\":"),
                optional_string_text(v.digest_auth),
                d2 + (d3 + end),
            );
            assert(out@ == body + digests_text(v));
            let l1 = lit("{\"masterPasswordData\":");
            let l2 = lit(",\"mekData\":");
            let l3 = lit(",\"passwordEntries\":");
            let l4 = lit(",\"userSettings\":");
            let a = auth_text(v.auth);
            let k = key_wrap_text(v.key_wrap);
            let e = entries_text(v.records);
            let s0 = settings_then(v.settings, none);
            let tail = digests_text(v);
            assert(none + l1 =~= l1);
            assert(body == l1 + a + l2 + k + l3 + e + l4 + s0);
            lemma_join(l1 + a + l2 + k + l3 + e + l4, s0, tail);
            lemma_settings_then(v.settings, tail);
            let t7 = settings_then(v.settings, tail);
            lemma_join(l1 + a + l2 + k + l3 + e, l4, t7);
            lemma_join(l1 + a + l2 + k + l3, e, l4 + t7);
            lemma_join(l1 + a + l2 + k, l3, e + (l4 + t7));
            lemma_join(l1 + a + l2, k, l3 + (e + (l4 + t7)));
            lemma_join(l1 + a, l2, k + (l3 + (e + (l4 + t7))));
            lemma_join(l1, a, l2 + (k + (l3 + (e + (l4 + t7)))));
        }
        out
    }
}

} // verus!
