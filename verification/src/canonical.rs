//! The canonical text of the parts of a vault that carry a digest.
//!
//! Each part is written as one JSON value without white space: objects with
//! their members in a fixed order, bytes as arrays of numbers, text as JSON
//! strings, what is absent as `null`. The digest of a part is the SHA-256 of
//! this text.

use crate::crypto::{Envelope, SecureData};
use crate::master_password::{AuthRecord, MasterPasswordData};
use crate::mek::{MekData, MekRecord};
use crate::password_entry::{text_in, EntryView, PasswordEntry};
use vstd::prelude::*;
use vstd::utf8::encode_utf8;

verus! {

/// The bytes of a piece of text.
pub open spec fn lit(text: &str) -> Seq<u8> {
    encode_utf8(text@)
}

/// The decimal digits of a byte, without leading zeros.
pub open spec fn decimal(value: u8) -> Seq<u8> {
    if value < 10 {
        seq![(48 + value) as u8]
    } else if value < 100 {
        seq![(48 + value / 10) as u8, (48 + value % 10) as u8]
    } else {
        seq![(48 + value / 100) as u8, (48 + (value / 10) % 10) as u8, (48 + value % 10) as u8]
    }
}

/// The numbers of `bytes`, with a comma between two of them.
pub open spec fn number_list(bytes: Seq<u8>) -> Seq<u8>
    decreases bytes.len(),
{
    if bytes.len() == 0 {
        Seq::<u8>::empty()
    } else if bytes.len() == 1 {
        decimal(bytes[0])
    } else {
        number_list(bytes.drop_last()) + seq![44u8] + decimal(bytes.last())
    }
}

/// Bytes as a JSON array of numbers.
pub open spec fn bytes_text(bytes: Seq<u8>) -> Seq<u8> {
    seq![91u8] + number_list(bytes) + seq![93u8]
}

/// The lower-case hexadecimal digit of a value below 16, as a byte.
pub open spec fn hex_byte(value: u8) -> u8 {
    if value < 10 {
        (48 + value) as u8
    } else {
        (87 + value) as u8
    }
}

/// One byte of text as it stands inside a JSON string: quotation mark,
/// backslash and control characters are escaped, every other byte stands for
/// itself.
pub open spec fn escaped_byte(byte: u8) -> Seq<u8> {
    if byte == 34 {
        seq![92u8, 34u8]
    } else if byte == 92 {
        seq![92u8, 92u8]
    } else if byte == 8 {
        seq![92u8, 98u8]
    } else if byte == 9 {
        seq![92u8, 116u8]
    } else if byte == 10 {
        seq![92u8, 110u8]
    } else if byte == 12 {
        seq![92u8, 102u8]
    } else if byte == 13 {
        seq![92u8, 114u8]
    } else if byte < 32 {
        seq![92u8, 117u8, 48u8, 48u8, hex_byte(byte / 16), hex_byte(byte % 16)]
    } else {
        seq![byte]
    }
}

/// The bytes of a text, each as it stands inside a JSON string.
pub open spec fn escaped(bytes: Seq<u8>) -> Seq<u8>
    decreases bytes.len(),
{
    if bytes.len() == 0 {
        Seq::<u8>::empty()
    } else {
        escaped(bytes.drop_last()) + escaped_byte(bytes.last())
    }
}

/// A text as a JSON string.
pub open spec fn string_text(text: Seq<char>) -> Seq<u8> {
    seq![34u8] + escaped(encode_utf8(text)) + seq![34u8]
}

/// A text that may be absent: a JSON string, or `null`.
pub open spec fn optional_string_text(text: Option<Seq<char>>) -> Seq<u8> {
    match text {
        Some(text) => string_text(text),
        None => lit("null"),
    }
}

/// A truth value as JSON.
pub open spec fn bool_text(value: bool) -> Seq<u8> {
    if value {
        lit("true")
    } else {
        lit("false")
    }
}

/// An envelope as a JSON object.
pub open spec fn envelope_text(envelope: Envelope) -> Seq<u8> {
    lit("{\"encrypted_data\":") + bytes_text(envelope.ciphertext_and_tag) + lit(",\"nonce\":")
        + bytes_text(envelope.nonce) + lit(",\"salt\":") + bytes_text(envelope.salt) + lit("}")
}

/// An envelope that may be absent: a JSON object, or `null`.
pub open spec fn optional_envelope_text(envelope: Option<Envelope>) -> Seq<u8> {
    match envelope {
        Some(envelope) => envelope_text(envelope),
        None => lit("null"),
    }
}

/// The canonical text of the authentication record of a vault, which may
/// have none.
pub open spec fn auth_text(auth: Option<AuthRecord>) -> Seq<u8> {
    match auth {
        Some(record) => lit("{\"salt\":") + bytes_text(record.salt) + lit(",\"password_hash\":")
            + bytes_text(record.password_hash) + lit("}"),
        None => lit("null"),
    }
}

/// The canonical text of the key-wrap record of a vault, which may have
/// none.
pub open spec fn key_wrap_text(key_wrap: Option<MekRecord>) -> Seq<u8> {
    match key_wrap {
        Some(record) => lit("{\"encrypted_mek\":") + envelope_text(record.wrapped) + lit(
            ",\"mek_salt\":",
        ) + bytes_text(record.wrap_salt) + lit("}"),
        None => lit("null"),
    }
}

/// The first half of the canonical text of a record: up to its secret
/// field.
pub open spec fn entry_head_text(entry: EntryView) -> Seq<u8> {
    lit("{\"id\":") + string_text(entry.fields.id) + lit(",\"title\":") + string_text(
        entry.fields.title,
    ) + lit(",\"username\":") + optional_string_text(entry.fields.username) + lit(
        ",\"password\":",
    ) + optional_envelope_text(entry.password)
}

/// The second half of the canonical text of a record: what follows its
/// secret field.
pub open spec fn entry_tail_text(entry: EntryView) -> Seq<u8> {
    lit(",\"url\":") + optional_string_text(entry.fields.url) + lit(",\"notes\":")
        + optional_string_text(entry.fields.notes) + lit(",\"creationDate\":") + string_text(
        entry.fields.creation_date,
    ) + lit(",\"category\":") + optional_string_text(entry.fields.category) + lit(
        ",\"favorite\":",
    ) + bool_text(entry.fields.favorite) + lit("}")
}

/// The canonical text of one record.
pub open spec fn entry_text(entry: EntryView) -> Seq<u8> {
    entry_head_text(entry) + entry_tail_text(entry)
}

/// The canonical texts of `entries`, with a comma between two of them.
pub open spec fn entry_list(entries: Seq<EntryView>) -> Seq<u8>
    decreases entries.len(),
{
    if entries.len() == 0 {
        Seq::<u8>::empty()
    } else if entries.len() == 1 {
        entry_text(entries[0])
    } else {
        entry_list(entries.drop_last()) + seq![44u8] + entry_text(entries.last())
    }
}

/// The canonical text of the records of a vault, in their order.
pub open spec fn entries_text(entries: Seq<EntryView>) -> Seq<u8> {
    seq![91u8] + entry_list(entries) + seq![93u8]
}

/// What the records in `entries` are, in their order.
pub open spec fn entry_views(entries: Seq<PasswordEntry>) -> Seq<EntryView> {
    entries.map_values(|entry: PasswordEntry| entry@)
}

/// What the record in `record` is, if there is one.
pub open spec fn auth_in(record: Option<MasterPasswordData>) -> Option<AuthRecord> {
    match record {
        Some(record) => Some(record@),
        None => None,
    }
}

/// What the record in `record` is, if there is one.
pub open spec fn key_wrap_in(record: Option<MekData>) -> Option<MekRecord> {
    match record {
        Some(record) => Some(record@),
        None => None,
    }
}

/// The text of an envelope, and behind it `rest`: piece by piece.
pub open spec fn envelope_then(envelope: Envelope, rest: Seq<u8>) -> Seq<u8> {
    lit("{\"encrypted_data\":") + (bytes_text(envelope.ciphertext_and_tag) + (lit(
        ",\"nonce\":",
    ) + (bytes_text(envelope.nonce) + (lit(",\"salt\":") + (bytes_text(envelope.salt) + (lit("}")
        + rest))))))
}

/// The text of an authentication record, and behind it `rest`: piece by
/// piece.
pub open spec fn auth_record_then(record: AuthRecord, rest: Seq<u8>) -> Seq<u8> {
    lit("{\"salt\":") + (bytes_text(record.salt) + (lit(",\"password_hash\":") + (bytes_text(
        record.password_hash,
    ) + (lit("}") + rest))))
}

/// The text of a key-wrap record, and behind it `rest`: piece by piece.
pub open spec fn key_wrap_record_then(record: MekRecord, rest: Seq<u8>) -> Seq<u8> {
    lit("{\"encrypted_mek\":") + envelope_then(
        record.wrapped,
        lit(",\"mek_salt\":") + (bytes_text(record.wrap_salt) + (lit("}") + rest)),
    )
}

/// The second half of the text of a record, and behind it `rest`: piece by
/// piece.
pub open spec fn entry_tail_then(entry: EntryView, rest: Seq<u8>) -> Seq<u8> {
    lit(",\"url\":") + (optional_string_text(entry.fields.url) + (lit(",\"notes\":") + (
    optional_string_text(entry.fields.notes) + (lit(",\"creationDate\":") + (string_text(
        entry.fields.creation_date,
    ) + (lit(",\"category\":") + (optional_string_text(entry.fields.category) + (lit(
        ",\"favorite\":",
    ) + (bool_text(entry.fields.favorite) + (lit("}") + rest))))))))))
}

/// The text of a record, and behind it `rest`: piece by piece.
pub open spec fn entry_then(entry: EntryView, rest: Seq<u8>) -> Seq<u8> {
    lit("{\"id\":") + (string_text(entry.fields.id) + (lit(",\"title\":") + (string_text(
        entry.fields.title,
    ) + (lit(",\"username\":") + (optional_string_text(entry.fields.username) + (lit(
        ",\"password\":",
    ) + (optional_envelope_text(entry.password) + entry_tail_then(entry, rest))))))))
}

/// Joining three texts gives the same text in either order of joining.
pub proof fn lemma_join(a: Seq<u8>, b: Seq<u8>, c: Seq<u8>)
    ensures
        (a + b) + c == a + (b + c),
{
    assert((a + b) + c =~= a + (b + c));
}

/// The text of an envelope with `rest` behind it is its pieces in a row.
pub proof fn lemma_envelope_then(envelope: Envelope, rest: Seq<u8>)
    ensures
        envelope_text(envelope) + rest == envelope_then(envelope, rest),
{
    let l1 = lit("{\"encrypted_data\":");
    let l2 = lit(",\"nonce\":");
    let l3 = lit(",\"salt\":");
    let l4 = lit("}");
    let b1 = bytes_text(envelope.ciphertext_and_tag);
    let b2 = bytes_text(envelope.nonce);
    let b3 = bytes_text(envelope.salt);
    lemma_join(l1 + b1 + l2 + b2 + l3 + b3, l4, rest);
    lemma_join(l1 + b1 + l2 + b2 + l3, b3, l4 + rest);
    lemma_join(l1 + b1 + l2 + b2, l3, b3 + (l4 + rest));
    lemma_join(l1 + b1 + l2, b2, l3 + (b3 + (l4 + rest)));
    lemma_join(l1 + b1, l2, b2 + (l3 + (b3 + (l4 + rest))));
    lemma_join(l1, b1, l2 + (b2 + (l3 + (b3 + (l4 + rest)))));
}

/// The text of an authentication record with `rest` behind it is its pieces
/// in a row.
pub proof fn lemma_auth_record_then(record: AuthRecord, rest: Seq<u8>)
    ensures
        auth_text(Some(record)) + rest == auth_record_then(record, rest),
{
    let l1 = lit("{\"salt\":");
    let l2 = lit(",\"password_hash\":");
    let l3 = lit("}");
    let b1 = bytes_text(record.salt);
    let b2 = bytes_text(record.password_hash);
    lemma_join(l1 + b1 + l2 + b2, l3, rest);
    lemma_join(l1 + b1 + l2, b2, l3 + rest);
    lemma_join(l1 + b1, l2, b2 + (l3 + rest));
    lemma_join(l1, b1, l2 + (b2 + (l3 + rest)));
}

/// The text of a key-wrap record with `rest` behind it is its pieces in a
/// row.
pub proof fn lemma_key_wrap_record_then(record: MekRecord, rest: Seq<u8>)
    ensures
        key_wrap_text(Some(record)) + rest == key_wrap_record_then(record, rest),
{
    let l1 = lit("{\"encrypted_mek\":");
    let l2 = lit(",\"mek_salt\":");
    let l3 = lit("}");
    let e = envelope_text(record.wrapped);
    let b = bytes_text(record.wrap_salt);
    lemma_join(l1 + e + l2 + b, l3, rest);
    lemma_join(l1 + e + l2, b, l3 + rest);
    lemma_join(l1 + e, l2, b + (l3 + rest));
    lemma_join(l1, e, l2 + (b + (l3 + rest)));
    lemma_envelope_then(record.wrapped, l2 + (b + (l3 + rest)));
}

/// The second half of the text of a record with `rest` behind it is its
/// pieces in a row.
pub proof fn lemma_entry_tail_then(entry: EntryView, rest: Seq<u8>)
    ensures
        entry_tail_text(entry) + rest == entry_tail_then(entry, rest),
{
    let l1 = lit(",\"url\":");
    let l2 = lit(",\"notes\":");
    let l3 = lit(",\"creationDate\":");
    let l4 = lit(",\"category\":");
    let l5 = lit(",\"favorite\":");
    let l6 = lit("}");
    let v1 = optional_string_text(entry.fields.url);
    let v2 = optional_string_text(entry.fields.notes);
    let v3 = string_text(entry.fields.creation_date);
    let v4 = optional_string_text(entry.fields.category);
    let v5 = bool_text(entry.fields.favorite);
    let t6 = l6 + rest;
    let t5 = l5 + (v5 + t6);
    let t4 = l4 + (v4 + t5);
    let t3 = l3 + (v3 + t4);
    let t2 = l2 + (v2 + t3);
    lemma_join(l1 + v1 + l2 + v2 + l3 + v3 + l4 + v4 + l5 + v5, l6, rest);
    lemma_join(l1 + v1 + l2 + v2 + l3 + v3 + l4 + v4 + l5, v5, t6);
    lemma_join(l1 + v1 + l2 + v2 + l3 + v3 + l4 + v4, l5, v5 + t6);
    lemma_join(l1 + v1 + l2 + v2 + l3 + v3 + l4, v4, t5);
    lemma_join(l1 + v1 + l2 + v2 + l3 + v3, l4, v4 + t5);
    lemma_join(l1 + v1 + l2 + v2 + l3, v3, t4);
    lemma_join(l1 + v1 + l2 + v2, l3, v3 + t4);
    lemma_join(l1 + v1 + l2, v2, t3);
    lemma_join(l1 + v1, l2, v2 + t3);
    lemma_join(l1, v1, t2);
}

/// The text of a record with `rest` behind it is its pieces in a row.
pub proof fn lemma_entry_then(entry: EntryView, rest: Seq<u8>)
    ensures
        entry_text(entry) + rest == entry_then(entry, rest),
{
    let l1 = lit("{\"id\":");
    let l2 = lit(",\"title\":");
    let l3 = lit(",\"username\":");
    let l4 = lit(",\"password\":");
    let v1 = string_text(entry.fields.id);
    let v2 = string_text(entry.fields.title);
    let v3 = optional_string_text(entry.fields.username);
    let v4 = optional_envelope_text(entry.password);
    let tail = entry_tail_then(entry, rest);
    lemma_join(entry_head_text(entry), entry_tail_text(entry), rest);
    lemma_entry_tail_then(entry, rest);
    lemma_join(l1 + v1 + l2 + v2 + l3 + v3 + l4, v4, tail);
    lemma_join(l1 + v1 + l2 + v2 + l3 + v3, l4, v4 + tail);
    lemma_join(l1 + v1 + l2 + v2 + l3, v3, l4 + (v4 + tail));
    lemma_join(l1 + v1 + l2 + v2, l3, v3 + (l4 + (v4 + tail)));
    lemma_join(l1 + v1 + l2, v2, l3 + (v3 + (l4 + (v4 + tail))));
    lemma_join(l1 + v1, l2, v2 + (l3 + (v3 + (l4 + (v4 + tail)))));
    lemma_join(l1, v1, l2 + (v2 + (l3 + (v3 + (l4 + (v4 + tail))))));
}

/// Whether two byte strings hold the same bytes.
pub(crate) fn bytes_equal(left: &[u8], right: &[u8]) -> (same: bool)
    ensures
        same == (left@ == right@),
{
    if left.len() != right.len() {
        return false;
    }
    let mut i: usize = 0;
    while i < left.len()
        invariant
            i <= left.len(),
            left.len() == right.len(),
            left@.take(i as int) == right@.take(i as int),
        decreases left.len() - i,
    {
        if left[i] != right[i] {
            return false;
        }
        assert(left@.take(i + 1) == left@.take(i as int).push(left@[i as int]));
        assert(right@.take(i + 1) == right@.take(i as int).push(right@[i as int]));
        i = i + 1;
    }
    assert(left@.take(i as int) == left@);
    assert(right@.take(i as int) == right@);
    true
}

/// Appends `bytes` to `out`.
pub(crate) fn append(out: &mut Vec<u8>, bytes: &[u8])
    ensures
        final(out)@ == old(out)@ + bytes@,
{
    out.extend_from_slice(bytes);
    assert(out@ =~= old(out)@ + bytes@);
}

/// Appends the bytes of `text` to `out`.
pub(crate) fn write_lit(out: &mut Vec<u8>, text: &str)
    ensures
        final(out)@ == old(out)@ + lit(text),
{
    append(out, text.as_bytes());
}

/// Appends the decimal digits of `value` to `out`.
pub(crate) fn write_decimal(out: &mut Vec<u8>, value: u8)
    ensures
        final(out)@ == old(out)@ + decimal(value),
{
    if value >= 100 {
        out.push(48 + value / 100);
    }
    if value >= 10 {
        out.push(48 + (value / 10) % 10);
    }
    out.push(48 + value % 10);
    assert(out@ =~= old(out)@ + decimal(value));
}

/// Appends `bytes` to `out` as a JSON array of numbers.
pub(crate) fn write_bytes(out: &mut Vec<u8>, bytes: &[u8])
    ensures
        final(out)@ == old(out)@ + bytes_text(bytes@),
{
    out.push(91);
    let mut i: usize = 0;
    while i < bytes.len()
        invariant
            i <= bytes.len(),
            out@ == old(out)@ + seq![91u8] + number_list(bytes@.take(i as int)),
        decreases bytes.len() - i,
    {
        let ghost before = out@;
        if i > 0 {
            out.push(44);
        }
        write_decimal(out, bytes[i]);
        proof {
            let now = bytes@.take(i + 1);
            assert(now.drop_last() == bytes@.take(i as int));
            assert(now.last() == bytes@[i as int]);
            assert(out@ =~= old(out)@ + seq![91u8] + number_list(now));
        }
        i = i + 1;
    }
    assert(bytes@.take(i as int) == bytes@);
    out.push(93);
    assert(out@ =~= old(out)@ + bytes_text(bytes@));
}

/// The lower-case hexadecimal digit of a value below 16.
fn hex_digit_byte(value: u8) -> (digit: u8)
    requires
        value < 16,
    ensures
        digit == hex_byte(value),
{
    if value < 10 {
        48 + value
    } else {
        87 + value
    }
}

/// Appends one byte of text to `out` as it stands inside a JSON string.
fn write_escaped_byte(out: &mut Vec<u8>, byte: u8)
    ensures
        final(out)@ == old(out)@ + escaped_byte(byte),
{
    if byte == 34 {
        out.push(92);
        out.push(34);
    } else if byte == 92 {
        out.push(92);
        out.push(92);
    } else if byte == 8 {
        out.push(92);
        out.push(98);
    } else if byte == 9 {
        out.push(92);
        out.push(116);
    } else if byte == 10 {
        out.push(92);
        out.push(110);
    } else if byte == 12 {
        out.push(92);
        out.push(102);
    } else if byte == 13 {
        out.push(92);
        out.push(114);
    } else if byte < 32 {
        out.push(92);
        out.push(117);
        out.push(48);
        out.push(48);
        out.push(hex_digit_byte(byte / 16));
        out.push(hex_digit_byte(byte % 16));
    } else {
        out.push(byte);
    }
    assert(out@ =~= old(out)@ + escaped_byte(byte));
}

/// Appends `text` to `out` as a JSON string.
pub(crate) fn write_string(out: &mut Vec<u8>, text: &str)
    ensures
        final(out)@ == old(out)@ + string_text(text@),
{
    let bytes = text.as_bytes();
    out.push(34);
    let mut i: usize = 0;
    while i < bytes.len()
        invariant
            i <= bytes.len(),
            out@ == old(out)@ + seq![34u8] + escaped(bytes@.take(i as int)),
        decreases bytes.len() - i,
    {
        write_escaped_byte(out, bytes[i]);
        proof {
            let now = bytes@.take(i + 1);
            assert(now.drop_last() == bytes@.take(i as int));
            assert(now.last() == bytes@[i as int]);
            assert(out@ =~= old(out)@ + seq![34u8] + escaped(now));
        }
        i = i + 1;
    }
    assert(bytes@.take(i as int) == bytes@);
    out.push(34);
    assert(out@ =~= old(out)@ + string_text(text@));
}

/// Appends a text that may be absent to `out`.
pub(crate) fn write_optional_string(out: &mut Vec<u8>, text: &Option<String>)
    ensures
        final(out)@ == old(out)@ + optional_string_text(text_in(*text)),
{
    match text {
        Some(text) => write_string(out, text.as_str()),
        None => write_lit(out, "null"),
    }
}

/// Appends an envelope to `out`.
pub(crate) fn write_envelope(out: &mut Vec<u8>, sealed: &SecureData)
    ensures
        final(out)@ == old(out)@ + envelope_text(sealed@),
{
    let ghost start = out@;
    write_lit(out, "{\"encrypted_data\":");
    let ghost mut done = lit("{\"encrypted_data\":");
    write_bytes(out, sealed.encrypted_data.as_slice());
    proof {
        lemma_join(start, done, bytes_text(sealed@.ciphertext_and_tag));
        done = done + bytes_text(sealed@.ciphertext_and_tag);
    }
    write_lit(out, ",\"nonce\":");
    proof {
        lemma_join(start, done, lit(",\"nonce\":"));
        done = done + lit(",\"nonce\":");
    }
    write_bytes(out, sealed.nonce.as_slice());
    proof {
        lemma_join(start, done, bytes_text(sealed@.nonce));
        done = done + bytes_text(sealed@.nonce);
    }
    write_lit(out, ",\"salt\":");
    proof {
        lemma_join(start, done, lit(",\"salt\":"));
        done = done + lit(",\"salt\":");
    }
    write_bytes(out, sealed.salt.as_slice());
    proof {
        lemma_join(start, done, bytes_text(sealed@.salt));
        done = done + bytes_text(sealed@.salt);
    }
    write_lit(out, "}");
    proof {
        lemma_join(start, done, lit("}"));
    }
}

/// The canonical text of the authentication record of a vault.
pub fn auth_bytes(record: &Option<MasterPasswordData>) -> (text: Vec<u8>)
    ensures
        text@ == auth_text(auth_in(*record)),
{
    let mut out: Vec<u8> = Vec::new();
    write_auth(&mut out, record);
    assert(Seq::<u8>::empty() + auth_text(auth_in(*record)) =~= auth_text(auth_in(*record)));
    out
}

/// Appends the canonical text of the authentication record of a vault to
/// `out`.
pub(crate) fn write_auth(out: &mut Vec<u8>, record: &Option<MasterPasswordData>)
    ensures
        final(out)@ == old(out)@ + auth_text(auth_in(*record)),
{
    let ghost start = out@;
    match record {
        Some(record) => {
            write_lit(out, "{\"salt\":");
            let ghost mut done = lit("{\"salt\":");
            write_bytes(out, record.salt.as_slice());
            proof {
                lemma_join(start, done, bytes_text(record@.salt));
                done = done + bytes_text(record@.salt);
            }
            write_lit(out, ",\"password_hash\":");
            proof {
                lemma_join(start, done, lit(",\"password_hash\":"));
                done = done + lit(",\"password_hash\":");
            }
            write_bytes(out, record.password_hash.as_slice());
            proof {
                lemma_join(start, done, bytes_text(record@.password_hash));
                done = done + bytes_text(record@.password_hash);
            }
            write_lit(out, "}");
            proof {
                lemma_join(start, done, lit("}"));
            }
        },
        None => {
            write_lit(out, "null");
        },
    }
}

/// The canonical text of the key-wrap record of a vault.
pub fn key_wrap_bytes(record: &Option<MekData>) -> (text: Vec<u8>)
    ensures
        text@ == key_wrap_text(key_wrap_in(*record)),
{
    let mut out: Vec<u8> = Vec::new();
    write_key_wrap(&mut out, record);
    assert(Seq::<u8>::empty() + key_wrap_text(key_wrap_in(*record)) =~= key_wrap_text(
        key_wrap_in(*record),
    ));
    out
}

/// Appends the canonical text of the key-wrap record of a vault to `out`.
pub(crate) fn write_key_wrap(out: &mut Vec<u8>, record: &Option<MekData>)
    ensures
        final(out)@ == old(out)@ + key_wrap_text(key_wrap_in(*record)),
{
    let ghost start = out@;
    match record {
        Some(record) => {
            write_lit(out, "{\"encrypted_mek\":");
            let ghost mut done = lit("{\"encrypted_mek\":");
            write_envelope(out, &record.encrypted_mek);
            proof {
                lemma_join(start, done, envelope_text(record@.wrapped));
                done = done + envelope_text(record@.wrapped);
            }
            write_lit(out, ",\"mek_salt\":");
            proof {
                lemma_join(start, done, lit(",\"mek_salt\":"));
                done = done + lit(",\"mek_salt\":");
            }
            write_bytes(out, record.mek_salt.as_slice());
            proof {
                lemma_join(start, done, bytes_text(record@.wrap_salt));
                done = done + bytes_text(record@.wrap_salt);
            }
            write_lit(out, "}");
            proof {
                lemma_join(start, done, lit("}"));
            }
        },
        None => {
            write_lit(out, "null");
        },
    }
}

/// Appends the text of a member with the name and colon `name` and a text
/// as its value to `out`.
fn write_string_member(out: &mut Vec<u8>, name: &str, value: &str)
    ensures
        final(out)@ == old(out)@ + (lit(name) + string_text(value@)),
{
    write_lit(out, name);
    write_string(out, value);
    proof {
        lemma_join(old(out)@, lit(name), string_text(value@));
    }
}

/// Appends the text of a member with the name and colon `name` and a text
/// that may be absent as its value to `out`.
fn write_optional_member(out: &mut Vec<u8>, name: &str, value: &Option<String>)
    ensures
        final(out)@ == old(out)@ + (lit(name) + optional_string_text(text_in(*value))),
{
    write_lit(out, name);
    write_optional_string(out, value);
    proof {
        lemma_join(old(out)@, lit(name), optional_string_text(text_in(*value)));
    }
}

/// Appends the first half of the canonical text of `entry` to `out`.
fn write_entry_head(out: &mut Vec<u8>, entry: &PasswordEntry)
    ensures
        final(out)@ == old(out)@ + entry_head_text(entry@),
{
    let ghost start = out@;
    write_string_member(out, "{\"id\":", entry.id.as_str());
    let ghost mut done = lit("{\"id\":") + string_text(entry@.fields.id);
    write_string_member(out, ",\"title\":", entry.title.as_str());
    proof {
        let piece = lit(",\"title\":") + string_text(entry@.fields.title);
        lemma_join(start, done, piece);
        lemma_join(done, lit(",\"title\":"), string_text(entry@.fields.title));
        done = done + piece;
    }
    write_optional_member(out, ",\"username\":", &entry.username);
    proof {
        let piece = lit(",\"username\":") + optional_string_text(entry@.fields.username);
        lemma_join(start, done, piece);
        lemma_join(done, lit(",\"username\":"), optional_string_text(entry@.fields.username));
        done = done + piece;
    }
    write_lit(out, ",\"password\":");
    proof {
        lemma_join(start, done, lit(",\"password\":"));
        done = done + lit(",\"password\":");
    }
    match &entry.password {
        Some(sealed) => write_envelope(out, sealed),
        None => write_lit(out, "null"),
    }
    proof {
        lemma_join(start, done, optional_envelope_text(entry@.password));
    }
}

/// Appends the second half of the canonical text of `entry` to `out`.
fn write_entry_tail(out: &mut Vec<u8>, entry: &PasswordEntry)
    ensures
        final(out)@ == old(out)@ + entry_tail_text(entry@),
{
    let ghost start = out@;
    write_optional_member(out, ",\"url\":", &entry.url);
    let ghost mut done = lit(",\"url\":") + optional_string_text(entry@.fields.url);
    write_optional_member(out, ",\"notes\":", &entry.notes);
    proof {
        let piece = lit(",\"notes\":") + optional_string_text(entry@.fields.notes);
        lemma_join(start, done, piece);
        lemma_join(done, lit(",\"notes\":"), optional_string_text(entry@.fields.notes));
        done = done + piece;
    }
    write_string_member(out, ",\"creationDate\":", entry.creation_date.as_str());
    proof {
        let piece = lit(",\"creationDate\":") + string_text(entry@.fields.creation_date);
        lemma_join(start, done, piece);
        lemma_join(
            done,
            lit(",\"creationDate\":"),
            string_text(entry@.fields.creation_date),
        );
        done = done + piece;
    }
    write_optional_member(out, ",\"category\":", &entry.category);
    proof {
        let piece = lit(",\"category\":") + optional_string_text(entry@.fields.category);
        lemma_join(start, done, piece);
        lemma_join(done, lit(",\"category\":"), optional_string_text(entry@.fields.category));
        done = done + piece;
    }
    write_lit(out, ",\"favorite\":");
    proof {
        lemma_join(start, done, lit(",\"favorite\":"));
        done = done + lit(",\"favorite\":");
    }
    if entry.favorite {
        write_lit(out, "true");
    } else {
        write_lit(out, "false");
    }
    proof {
        lemma_join(start, done, bool_text(entry@.fields.favorite));
        done = done + bool_text(entry@.fields.favorite);
    }
    write_lit(out, "}");
    proof {
        lemma_join(start, done, lit("}"));
    }
}

/// Appends the canonical text of `entry` to `out`.
pub(crate) fn write_entry(out: &mut Vec<u8>, entry: &PasswordEntry)
    ensures
        final(out)@ == old(out)@ + entry_text(entry@),
{
    write_entry_head(out, entry);
    write_entry_tail(out, entry);
    proof {
        lemma_join(old(out)@, entry_head_text(entry@), entry_tail_text(entry@));
    }
}

/// The canonical text of the records of a vault.
pub fn entries_bytes(entries: &Vec<PasswordEntry>) -> (text: Vec<u8>)
    ensures
        text@ == entries_text(entry_views(entries@)),
{
    let mut out: Vec<u8> = Vec::new();
    write_entries(&mut out, entries);
    assert(Seq::<u8>::empty() + entries_text(entry_views(entries@)) =~= entries_text(
        entry_views(entries@),
    ));
    out
}

/// Appends the canonical text of the records of a vault to `out`.
pub(crate) fn write_entries(out: &mut Vec<u8>, entries: &Vec<PasswordEntry>)
    ensures
        final(out)@ == old(out)@ + entries_text(entry_views(entries@)),
{
    let ghost views = entry_views(entries@);
    let ghost start = out@;
    out.push(91);
    let mut i: usize = 0;
    while i < entries.len()
        invariant
            i <= entries.len(),
            views == entry_views(entries@),
            out@ == start + (seq![91u8] + entry_list(views.take(i as int))),
        decreases entries.len() - i,
    {
        let ghost before = out@;
        let ghost listed = entry_list(views.take(i as int));
        if i > 0 {
            out.push(44);
        }
        let ghost separated = out@;
        write_entry(out, &entries[i]);
        proof {
            let now = views.take(i + 1);
            assert(now.drop_last() == views.take(i as int));
            assert(now.last() == entries@[i as int]@);
            let piece = entry_text(entries@[i as int]@);
            if i > 0 {
                assert(separated =~= start + (seq![91u8] + (listed + seq![44u8])));
                lemma_join(start, seq![91u8] + (listed + seq![44u8]), piece);
                lemma_join(seq![91u8], listed + seq![44u8], piece);
                assert(entry_list(now) == listed + seq![44u8] + piece);
            } else {
                assert(listed =~= Seq::<u8>::empty());
                assert(separated =~= start + seq![91u8]);
                lemma_join(start, seq![91u8], piece);
                assert(entry_list(now) == piece);
            }
        }
        i = i + 1;
    }
    assert(views.take(i as int) == views);
    out.push(93);
    assert(out@ =~= start + entries_text(views));
}

} // verus!
