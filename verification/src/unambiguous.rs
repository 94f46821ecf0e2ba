//! The canonical text can be read in one way only: two parts of a vault
//! with the same canonical text are the same part.
//!
//! So a digest that is up to date tells two parts apart as well as SHA-256
//! tells their texts apart.

use crate::canonical::{
    auth_text, bool_text, bytes_text, decimal, entries_text, entry_head_text, entry_list,
    entry_tail_then, entry_text, envelope_text, escaped, escaped_byte, hex_byte, key_wrap_text,
    lemma_auth_record_then, lemma_entry_then, lemma_envelope_then, lemma_join,
    lemma_key_wrap_record_then, lit, number_list, optional_envelope_text, optional_string_text,
    string_text,
};
use crate::crypto::Envelope;
use crate::master_password::AuthRecord;
use crate::mek::MekRecord;
use crate::password_entry::EntryView;
use crate::primitives::{hex_digit, hex_lower, sha256};
use crate::storage::VaultView;
use vstd::prelude::*;
use vstd::utf8::{encode_utf8, encode_utf8_decode_utf8, is_ascii_chars, is_ascii_chars_encode_utf8};

verus! {

/// Whether `byte` is a decimal digit.
pub open spec fn is_digit(byte: u8) -> bool {
    48 <= byte <= 57
}

/// What follows the same beginning in two equal texts is the same.
pub proof fn lemma_same_start(start: Seq<u8>, r: Seq<u8>, s: Seq<u8>)
    requires
        start + r == start + s,
    ensures
        r == s,
{
    let left = start + r;
    let right = start + s;
    assert(left.len() == start.len() + r.len());
    assert(right.len() == start.len() + s.len());
    assert forall|i: int| 0 <= i < r.len() implies r[i] == s[i] by {
        assert(left[start.len() + i] == r[i]);
        assert(right[start.len() + i] == s[i]);
    }
    assert(r =~= s);
}

/// A number ends where the digits end: two numbers that begin equal texts,
/// each followed by something that is no digit, are the same number, and
/// what follows them is the same.
pub proof fn lemma_decimal_delimited(a: u8, b: u8, r: Seq<u8>, s: Seq<u8>)
    requires
        decimal(a) + r == decimal(b) + s,
        r.len() > 0 && !is_digit(r[0]),
        s.len() > 0 && !is_digit(s[0]),
    ensures
        a == b,
        r == s,
{
    let left = decimal(a) + r;
    let right = decimal(b) + s;
    let m = decimal(a).len() as int;
    let n = decimal(b).len() as int;
    assert(1 <= m <= 3 && 1 <= n <= 3);
    assert(forall|i: int| 0 <= i < m ==> is_digit(#[trigger] decimal(a)[i]));
    assert(forall|i: int| 0 <= i < n ==> is_digit(#[trigger] decimal(b)[i]));
    if m < n {
        assert(left[m] == r[0]);
        assert(right[m] == decimal(b)[m]);
        assert(false);
    }
    if n < m {
        assert(right[n] == s[0]);
        assert(left[n] == decimal(a)[n]);
        assert(false);
    }
    assert forall|i: int| 0 <= i < m implies decimal(a)[i] == decimal(b)[i] by {
        assert(left[i] == decimal(a)[i]);
        assert(right[i] == decimal(b)[i]);
    }
    if m == 1 {
        assert(decimal(a)[0] == decimal(b)[0]);
        assert(a < 10 && b < 10);
    } else if m == 2 {
        assert(decimal(a)[0] == decimal(b)[0]);
        assert(decimal(a)[1] == decimal(b)[1]);
        assert(a / 10 == b / 10);
        assert(a % 10 == b % 10);
    } else {
        assert(decimal(a)[0] == decimal(b)[0]);
        assert(decimal(a)[1] == decimal(b)[1]);
        assert(decimal(a)[2] == decimal(b)[2]);
        assert(a / 100 == b / 100);
        assert((a / 10) % 10 == (b / 10) % 10);
        assert(a % 10 == b % 10);
        assert(a / 10 == b / 10);
    }
    assert(a == b);
    lemma_same_start(decimal(a), r, s);
}

/// A list of numbers that begins with `head` is the number of `head`, and
/// behind a comma the list of the rest, where there is a rest.
pub proof fn lemma_number_list_from_the_left(head: u8, rest: Seq<u8>)
    ensures
        number_list(seq![head] + rest) == if rest.len() == 0 {
            decimal(head)
        } else {
            decimal(head) + (seq![44u8] + number_list(rest))
        },
    decreases rest.len(),
{
    let all = seq![head] + rest;
    if rest.len() == 0 {
        assert(all =~= seq![head]);
    } else {
        assert(all.drop_last() =~= seq![head] + rest.drop_last());
        assert(all.last() == rest.last());
        lemma_number_list_from_the_left(head, rest.drop_last());
        if rest.len() == 1 {
            assert(rest.drop_last() =~= Seq::<u8>::empty());
            assert(number_list(rest) == decimal(rest[0]));
            assert(number_list(all) =~= decimal(head) + (seq![44u8] + number_list(rest)));
        } else {
            assert(number_list(all) =~= decimal(head) + (seq![44u8] + number_list(rest)));
        }
    }
}

/// What follows the first number in the text of a list of numbers that is
/// closed by its bracket: the bracket, or a comma and the numbers that are
/// left, closed by the bracket.
pub open spec fn after_first_number(bytes: Seq<u8>, r: Seq<u8>) -> Seq<u8> {
    if bytes.len() <= 1 {
        seq![93u8] + r
    } else {
        seq![44u8] + (number_list(bytes.drop_first()) + (seq![93u8] + r))
    }
}

/// The text of a list of numbers that is not empty, closed by its bracket,
/// is the first number and what follows it; and that begins with a bracket
/// or a comma, not with a digit.
pub proof fn lemma_number_list_begins(bytes: Seq<u8>, r: Seq<u8>)
    requires
        bytes.len() > 0,
    ensures
        number_list(bytes) + (seq![93u8] + r) == decimal(bytes[0]) + after_first_number(bytes, r),
        after_first_number(bytes, r).len() > 0,
        after_first_number(bytes, r)[0] == if bytes.len() == 1 {
            93u8
        } else {
            44u8
        },
        is_digit((decimal(bytes[0]) + after_first_number(bytes, r))[0]),
{
    let head = bytes[0];
    let rest = bytes.drop_first();
    assert(bytes =~= seq![head] + rest);
    lemma_number_list_from_the_left(head, rest);
    if rest.len() > 0 {
        lemma_join(decimal(head), seq![44u8] + number_list(rest), seq![93u8] + r);
        lemma_join(seq![44u8], number_list(rest), seq![93u8] + r);
    }
    assert(is_digit(decimal(head)[0]));
}

/// A list of numbers ends at its bracket: two lists that begin equal texts,
/// each followed by the closing bracket, are the same list, and what follows
/// them is the same.
pub proof fn lemma_number_list_delimited(x: Seq<u8>, y: Seq<u8>, r: Seq<u8>, s: Seq<u8>)
    requires
        number_list(x) + (seq![93u8] + r) == number_list(y) + (seq![93u8] + s),
    ensures
        x == y,
        r == s,
    decreases x.len(),
{
    let left = number_list(x) + (seq![93u8] + r);
    let right = number_list(y) + (seq![93u8] + s);
    if x.len() == 0 {
        assert(left[0] == 93);
        if y.len() > 0 {
            lemma_number_list_begins(y, s);
            assert(false);
        }
        assert(x =~= y);
        lemma_same_start(seq![93u8], r, s);
    } else {
        lemma_number_list_begins(x, r);
        if y.len() == 0 {
            assert(right[0] == 93);
            assert(false);
        }
        lemma_number_list_begins(y, s);
        let after_x = after_first_number(x, r);
        let after_y = after_first_number(y, s);
        lemma_decimal_delimited(x[0], y[0], after_x, after_y);
        let t = x.drop_first();
        let u = y.drop_first();
        if x.len() == 1 {
            assert(y.len() == 1);
            lemma_same_start(seq![93u8], r, s);
            assert(x =~= y);
        } else {
            assert(y.len() > 1);
            lemma_same_start(
                seq![44u8],
                number_list(t) + (seq![93u8] + r),
                number_list(u) + (seq![93u8] + s),
            );
            lemma_number_list_delimited(t, u, r, s);
            assert(x =~= seq![x[0]] + t);
            assert(y =~= seq![y[0]] + u);
        }
    }
}

/// Bytes end at their bracket: two byte strings whose texts begin equal
/// texts are the same, and what follows them is the same.
pub proof fn lemma_bytes_text_delimited(x: Seq<u8>, y: Seq<u8>, r: Seq<u8>, s: Seq<u8>)
    requires
        bytes_text(x) + r == bytes_text(y) + s,
    ensures
        x == y,
        r == s,
{
    let after_x = number_list(x) + (seq![93u8] + r);
    let after_y = number_list(y) + (seq![93u8] + s);
    assert(bytes_text(x) + r =~= seq![91u8] + after_x);
    assert(bytes_text(y) + s =~= seq![91u8] + after_y);
    lemma_same_start(seq![91u8], after_x, after_y);
    lemma_number_list_delimited(x, y, r, s);
}

/// One byte of text ends where its escape ends: two bytes whose escapes
/// begin equal texts are the same byte, and what follows them is the same.
pub proof fn lemma_escaped_byte_delimited(a: u8, b: u8, r: Seq<u8>, s: Seq<u8>)
    requires
        escaped_byte(a) + r == escaped_byte(b) + s,
    ensures
        a == b,
        r == s,
{
    let left = escaped_byte(a) + r;
    let right = escaped_byte(b) + s;
    let ea = escaped_byte(a);
    let eb = escaped_byte(b);
    assert(left[0] == ea[0]);
    assert(right[0] == eb[0]);
    if ea[0] == 92 {
        assert(eb[0] == 92);
        assert(ea.len() >= 2 && eb.len() >= 2);
        assert(left[1] == ea[1]);
        assert(right[1] == eb[1]);
        if ea[1] == 117 {
            assert(eb[1] == 117);
            assert(ea.len() == 6 && eb.len() == 6);
            assert(left[4] == ea[4] && right[4] == eb[4]);
            assert(left[5] == ea[5] && right[5] == eb[5]);
            assert(hex_byte(a / 16) == hex_byte(b / 16));
            assert(hex_byte(a % 16) == hex_byte(b % 16));
            assert(a / 16 == b / 16);
            assert(a % 16 == b % 16);
            assert(a == b);
        } else {
            assert(a == b);
        }
    } else {
        assert(a == b);
    }
    lemma_same_start(ea, r, s);
}

/// The escapes of a text that begins with `head` are the escape of `head`
/// and the escapes of the rest.
pub proof fn lemma_escaped_from_the_left(head: u8, rest: Seq<u8>)
    ensures
        escaped(seq![head] + rest) == escaped_byte(head) + escaped(rest),
    decreases rest.len(),
{
    let all = seq![head] + rest;
    if rest.len() == 0 {
        assert(all.drop_last() =~= Seq::<u8>::empty());
        assert(all.last() == head);
        assert(escaped(all.drop_last()) =~= Seq::<u8>::empty());
        assert(escaped(rest) =~= Seq::<u8>::empty());
        assert(escaped(all) =~= escaped_byte(head) + escaped(rest));
    } else {
        assert(all.drop_last() =~= seq![head] + rest.drop_last());
        assert(all.last() == rest.last());
        lemma_escaped_from_the_left(head, rest.drop_last());
        assert(escaped(all) =~= escaped_byte(head) + escaped(rest));
    }
}

/// The escapes of a text that is not empty, closed by the quotation mark,
/// are the escape of its first byte and what follows; and they do not begin
/// with a quotation mark.
pub proof fn lemma_escaped_begins(bytes: Seq<u8>, r: Seq<u8>)
    requires
        bytes.len() > 0,
    ensures
        escaped(bytes) + (seq![34u8] + r) == escaped_byte(bytes[0]) + (escaped(
            bytes.drop_first(),
        ) + (seq![34u8] + r)),
        (escaped(bytes) + (seq![34u8] + r))[0] != 34,
{
    let head = bytes[0];
    let rest = bytes.drop_first();
    assert(bytes =~= seq![head] + rest);
    lemma_escaped_from_the_left(head, rest);
    lemma_join(escaped_byte(head), escaped(rest), seq![34u8] + r);
    assert(escaped_byte(head)[0] != 34);
    assert((escaped_byte(head) + (escaped(rest) + (seq![34u8] + r)))[0] == escaped_byte(head)[0]);
}

/// A text ends at its quotation mark: two texts whose escapes begin equal
/// texts, each followed by the closing quotation mark, are the same text,
/// and what follows them is the same.
pub proof fn lemma_escaped_delimited(x: Seq<u8>, y: Seq<u8>, r: Seq<u8>, s: Seq<u8>)
    requires
        escaped(x) + (seq![34u8] + r) == escaped(y) + (seq![34u8] + s),
    ensures
        x == y,
        r == s,
    decreases x.len(),
{
    let left = escaped(x) + (seq![34u8] + r);
    let right = escaped(y) + (seq![34u8] + s);
    if x.len() == 0 {
        assert(left[0] == 34);
        if y.len() > 0 {
            lemma_escaped_begins(y, s);
            assert(false);
        }
        assert(x =~= y);
        lemma_same_start(seq![34u8], r, s);
    } else {
        lemma_escaped_begins(x, r);
        if y.len() == 0 {
            assert(right[0] == 34);
            assert(false);
        }
        lemma_escaped_begins(y, s);
        let t = x.drop_first();
        let u = y.drop_first();
        lemma_escaped_byte_delimited(
            x[0],
            y[0],
            escaped(t) + (seq![34u8] + r),
            escaped(u) + (seq![34u8] + s),
        );
        lemma_escaped_delimited(t, u, r, s);
        assert(x =~= seq![x[0]] + t);
        assert(y =~= seq![y[0]] + u);
    }
}

/// A JSON string ends at its closing quotation mark: two texts whose JSON
/// strings begin equal texts are the same text, and what follows them is the
/// same.
pub proof fn lemma_string_text_delimited(x: Seq<char>, y: Seq<char>, r: Seq<u8>, s: Seq<u8>)
    requires
        string_text(x) + r == string_text(y) + s,
    ensures
        x == y,
        r == s,
{
    let after_x = escaped(encode_utf8(x)) + (seq![34u8] + r);
    let after_y = escaped(encode_utf8(y)) + (seq![34u8] + s);
    assert(string_text(x) + r =~= seq![34u8] + after_x);
    assert(string_text(y) + s =~= seq![34u8] + after_y);
    lemma_same_start(seq![34u8], after_x, after_y);
    lemma_escaped_delimited(encode_utf8(x), encode_utf8(y), r, s);
    encode_utf8_decode_utf8(x);
    encode_utf8_decode_utf8(y);
}

/// `null` begins with an `n`.
pub proof fn lemma_null_begins(r: Seq<u8>)
    ensures
        (lit("null") + r).len() > 0,
        (lit("null") + r)[0] == 110,
{
    reveal_strlit("null");
    assert(is_ascii_chars("null"@));
    is_ascii_chars_encode_utf8("null"@);
    assert(lit("null")[0] == 110);
}

/// A JSON string begins with a quotation mark.
pub proof fn lemma_string_begins(text: Seq<char>, r: Seq<u8>)
    ensures
        (string_text(text) + r).len() > 0,
        (string_text(text) + r)[0] == 34,
{
    assert(string_text(text)[0] == 34);
}

/// An envelope begins with a brace.
pub proof fn lemma_envelope_begins(envelope: Envelope, r: Seq<u8>)
    ensures
        (envelope_text(envelope) + r).len() > 0,
        (envelope_text(envelope) + r)[0] == 123,
{
    reveal_strlit("{\"encrypted_data\":");
    let start = "{\"encrypted_data\":"@;
    assert(is_ascii_chars(start));
    is_ascii_chars_encode_utf8(start);
    assert(lit("{\"encrypted_data\":")[0] == 123);
    assert(envelope_text(envelope)[0] == 123);
}

/// A record begins with a brace.
pub proof fn lemma_entry_begins(entry: EntryView, r: Seq<u8>)
    ensures
        (entry_text(entry) + r).len() > 0,
        (entry_text(entry) + r)[0] == 123,
{
    reveal_strlit("{\"id\":");
    let start = "{\"id\":"@;
    assert(is_ascii_chars(start));
    is_ascii_chars_encode_utf8(start);
    assert(lit("{\"id\":")[0] == 123);
    assert(entry_head_text(entry)[0] == 123);
    assert(entry_text(entry)[0] == 123);
}

/// A text that may be absent ends where it ends: two such texts that begin
/// equal texts are the same, and what follows them is the same.
pub proof fn lemma_optional_string_text_delimited(
    x: Option<Seq<char>>,
    y: Option<Seq<char>>,
    r: Seq<u8>,
    s: Seq<u8>,
)
    requires
        optional_string_text(x) + r == optional_string_text(y) + s,
    ensures
        x == y,
        r == s,
{
    match (x, y) {
        (Some(a), Some(b)) => {
            lemma_string_text_delimited(a, b, r, s);
        },
        (None, None) => {
            lemma_same_start(lit("null"), r, s);
        },
        (Some(a), None) => {
            lemma_string_begins(a, r);
            lemma_null_begins(s);
        },
        (None, Some(b)) => {
            lemma_string_begins(b, s);
            lemma_null_begins(r);
        },
    }
}

/// A truth value ends where it ends: two truth values that begin equal
/// texts are the same, and what follows them is the same.
pub proof fn lemma_bool_text_delimited(x: bool, y: bool, r: Seq<u8>, s: Seq<u8>)
    requires
        bool_text(x) + r == bool_text(y) + s,
    ensures
        x == y,
        r == s,
{
    reveal_strlit("true");
    reveal_strlit("false");
    assert(is_ascii_chars("true"@));
    assert(is_ascii_chars("false"@));
    is_ascii_chars_encode_utf8("true"@);
    is_ascii_chars_encode_utf8("false"@);
    assert(lit("true")[0] == 116);
    assert(lit("false")[0] == 102);
    assert((bool_text(x) + r)[0] == bool_text(x)[0]);
    assert((bool_text(y) + s)[0] == bool_text(y)[0]);
    assert(x == y);
    lemma_same_start(bool_text(x), r, s);
}

/// An envelope ends at its closing brace: two envelopes whose texts begin
/// equal texts are the same, and what follows them is the same.
pub proof fn lemma_envelope_text_delimited(x: Envelope, y: Envelope, r: Seq<u8>, s: Seq<u8>)
    requires
        envelope_text(x) + r == envelope_text(y) + s,
    ensures
        x == y,
        r == s,
{
    let l1 = lit("{\"encrypted_data\":");
    let l2 = lit(",\"nonce\":");
    let l3 = lit(",\"salt\":");
    let l4 = lit("}");
    let x3 = l3 + (bytes_text(x.salt) + (l4 + r));
    let y3 = l3 + (bytes_text(y.salt) + (l4 + s));
    let x2 = l2 + (bytes_text(x.nonce) + x3);
    let y2 = l2 + (bytes_text(y.nonce) + y3);
    lemma_envelope_then(x, r);
    lemma_envelope_then(y, s);
    lemma_same_start(
        l1,
        bytes_text(x.ciphertext_and_tag) + x2,
        bytes_text(y.ciphertext_and_tag) + y2,
    );
    lemma_bytes_text_delimited(x.ciphertext_and_tag, y.ciphertext_and_tag, x2, y2);
    lemma_same_start(l2, bytes_text(x.nonce) + x3, bytes_text(y.nonce) + y3);
    lemma_bytes_text_delimited(x.nonce, y.nonce, x3, y3);
    lemma_same_start(l3, bytes_text(x.salt) + (l4 + r), bytes_text(y.salt) + (l4 + s));
    lemma_bytes_text_delimited(x.salt, y.salt, l4 + r, l4 + s);
    lemma_same_start(l4, r, s);
}

/// An envelope that may be absent ends where it ends: two such envelopes
/// whose texts begin equal texts are the same, and what follows them is the
/// same.
pub proof fn lemma_optional_envelope_text_delimited(
    x: Option<Envelope>,
    y: Option<Envelope>,
    r: Seq<u8>,
    s: Seq<u8>,
)
    requires
        optional_envelope_text(x) + r == optional_envelope_text(y) + s,
    ensures
        x == y,
        r == s,
{
    match (x, y) {
        (Some(a), Some(b)) => {
            lemma_envelope_text_delimited(a, b, r, s);
        },
        (None, None) => {
            lemma_same_start(lit("null"), r, s);
        },
        (Some(a), None) => {
            lemma_envelope_begins(a, r);
            lemma_null_begins(s);
        },
        (None, Some(b)) => {
            lemma_envelope_begins(b, s);
            lemma_null_begins(r);
        },
    }
}

/// An authentication record begins with a brace.
pub proof fn lemma_auth_record_begins(record: AuthRecord, r: Seq<u8>)
    ensures
        (auth_text(Some(record)) + r).len() > 0,
        (auth_text(Some(record)) + r)[0] == 123,
{
    reveal_strlit("{\"salt\":");
    assert(is_ascii_chars("{\"salt\":"@));
    is_ascii_chars_encode_utf8("{\"salt\":"@);
    assert(lit("{\"salt\":")[0] == 123);
    lemma_auth_record_then(record, r);
}

/// A key-wrap record begins with a brace.
pub proof fn lemma_key_wrap_record_begins(record: MekRecord, r: Seq<u8>)
    ensures
        (key_wrap_text(Some(record)) + r).len() > 0,
        (key_wrap_text(Some(record)) + r)[0] == 123,
{
    reveal_strlit("{\"encrypted_mek\":");
    assert(is_ascii_chars("{\"encrypted_mek\":"@));
    is_ascii_chars_encode_utf8("{\"encrypted_mek\":"@);
    assert(lit("{\"encrypted_mek\":")[0] == 123);
    lemma_key_wrap_record_then(record, r);
}

/// The authentication record of a vault ends where it ends: two such
/// records, each there or not, whose texts begin equal texts are the same,
/// and what follows them is the same.
pub proof fn lemma_auth_text_delimited(
    x: Option<AuthRecord>,
    y: Option<AuthRecord>,
    r: Seq<u8>,
    s: Seq<u8>,
)
    requires
        auth_text(x) + r == auth_text(y) + s,
    ensures
        x == y,
        r == s,
{
    let l1 = lit("{\"salt\":");
    let l2 = lit(",\"password_hash\":");
    let l3 = lit("}");
    match (x, y) {
        (Some(a), Some(b)) => {
            let a2 = l2 + (bytes_text(a.password_hash) + (l3 + r));
            let b2 = l2 + (bytes_text(b.password_hash) + (l3 + s));
            lemma_auth_record_then(a, r);
            lemma_auth_record_then(b, s);
            lemma_same_start(l1, bytes_text(a.salt) + a2, bytes_text(b.salt) + b2);
            lemma_bytes_text_delimited(a.salt, b.salt, a2, b2);
            lemma_same_start(
                l2,
                bytes_text(a.password_hash) + (l3 + r),
                bytes_text(b.password_hash) + (l3 + s),
            );
            lemma_bytes_text_delimited(a.password_hash, b.password_hash, l3 + r, l3 + s);
            lemma_same_start(l3, r, s);
        },
        (None, None) => {
            lemma_same_start(lit("null"), r, s);
        },
        (Some(a), None) => {
            lemma_auth_record_begins(a, r);
            lemma_null_begins(s);
        },
        (None, Some(b)) => {
            lemma_auth_record_begins(b, s);
            lemma_null_begins(r);
        },
    }
}

/// The key-wrap record of a vault ends where it ends: two such records,
/// each there or not, whose texts begin equal texts are the same, and what
/// follows them is the same.
pub proof fn lemma_key_wrap_text_delimited(
    x: Option<MekRecord>,
    y: Option<MekRecord>,
    r: Seq<u8>,
    s: Seq<u8>,
)
    requires
        key_wrap_text(x) + r == key_wrap_text(y) + s,
    ensures
        x == y,
        r == s,
{
    let l1 = lit("{\"encrypted_mek\":");
    let l2 = lit(",\"mek_salt\":");
    let l3 = lit("}");
    match (x, y) {
        (Some(a), Some(b)) => {
            let a2 = l2 + (bytes_text(a.wrap_salt) + (l3 + r));
            let b2 = l2 + (bytes_text(b.wrap_salt) + (l3 + s));
            lemma_key_wrap_record_then(a, r);
            lemma_key_wrap_record_then(b, s);
            lemma_envelope_then(a.wrapped, a2);
            lemma_envelope_then(b.wrapped, b2);
            lemma_same_start(l1, envelope_text(a.wrapped) + a2, envelope_text(b.wrapped) + b2);
            lemma_envelope_text_delimited(a.wrapped, b.wrapped, a2, b2);
            lemma_same_start(
                l2,
                bytes_text(a.wrap_salt) + (l3 + r),
                bytes_text(b.wrap_salt) + (l3 + s),
            );
            lemma_bytes_text_delimited(a.wrap_salt, b.wrap_salt, l3 + r, l3 + s);
            lemma_same_start(l3, r, s);
        },
        (None, None) => {
            lemma_same_start(lit("null"), r, s);
        },
        (Some(a), None) => {
            lemma_key_wrap_record_begins(a, r);
            lemma_null_begins(s);
        },
        (None, Some(b)) => {
            lemma_key_wrap_record_begins(b, s);
            lemma_null_begins(r);
        },
    }
}

/// Two authentication records with the same canonical text are the same
/// record; and a vault with a record has another text than one without.
pub proof fn lemma_auth_text_is_unambiguous(x: Option<AuthRecord>, y: Option<AuthRecord>)
    requires
        auth_text(x) == auth_text(y),
    ensures
        x == y,
{
    lemma_auth_text_delimited(x, y, Seq::<u8>::empty(), Seq::<u8>::empty());
}

/// Two key-wrap records with the same canonical text are the same record;
/// and a vault with a record has another text than one without.
pub proof fn lemma_key_wrap_text_is_unambiguous(x: Option<MekRecord>, y: Option<MekRecord>)
    requires
        key_wrap_text(x) == key_wrap_text(y),
    ensures
        x == y,
{
    lemma_key_wrap_text_delimited(x, y, Seq::<u8>::empty(), Seq::<u8>::empty());
}

/// The second half of a record ends at its closing brace: two records whose
/// second halves begin equal texts have the same address, notes, date,
/// category and mark, and what follows the halves is the same.
proof fn lemma_entry_tail_delimited(x: EntryView, y: EntryView, r: Seq<u8>, s: Seq<u8>)
    requires
        entry_tail_then(x, r) == entry_tail_then(y, s),
    ensures
        x.fields.url == y.fields.url,
        x.fields.notes == y.fields.notes,
        x.fields.creation_date == y.fields.creation_date,
        x.fields.category == y.fields.category,
        x.fields.favorite == y.fields.favorite,
        r == s,
{
    let l1 = lit(",\"url\":");
    let l2 = lit(",\"notes\":");
    let l3 = lit(",\"creationDate\":");
    let l4 = lit(",\"category\":");
    let l5 = lit(",\"favorite\":");
    let l6 = lit("}");
    let x6 = l6 + r;
    let y6 = l6 + s;
    let x5 = l5 + (bool_text(x.fields.favorite) + x6);
    let y5 = l5 + (bool_text(y.fields.favorite) + y6);
    let x4 = l4 + (optional_string_text(x.fields.category) + x5);
    let y4 = l4 + (optional_string_text(y.fields.category) + y5);
    let x3 = l3 + (string_text(x.fields.creation_date) + x4);
    let y3 = l3 + (string_text(y.fields.creation_date) + y4);
    let x2 = l2 + (optional_string_text(x.fields.notes) + x3);
    let y2 = l2 + (optional_string_text(y.fields.notes) + y3);
    lemma_same_start(
        l1,
        optional_string_text(x.fields.url) + x2,
        optional_string_text(y.fields.url) + y2,
    );
    lemma_optional_string_text_delimited(x.fields.url, y.fields.url, x2, y2);
    lemma_same_start(
        l2,
        optional_string_text(x.fields.notes) + x3,
        optional_string_text(y.fields.notes) + y3,
    );
    lemma_optional_string_text_delimited(x.fields.notes, y.fields.notes, x3, y3);
    lemma_same_start(
        l3,
        string_text(x.fields.creation_date) + x4,
        string_text(y.fields.creation_date) + y4,
    );
    lemma_string_text_delimited(x.fields.creation_date, y.fields.creation_date, x4, y4);
    lemma_same_start(
        l4,
        optional_string_text(x.fields.category) + x5,
        optional_string_text(y.fields.category) + y5,
    );
    lemma_optional_string_text_delimited(x.fields.category, y.fields.category, x5, y5);
    lemma_same_start(
        l5,
        bool_text(x.fields.favorite) + x6,
        bool_text(y.fields.favorite) + y6,
    );
    lemma_bool_text_delimited(x.fields.favorite, y.fields.favorite, x6, y6);
    lemma_same_start(l6, r, s);
}

/// A record ends at its closing brace: two records whose texts begin equal
/// texts are the same record, and what follows them is the same.
pub proof fn lemma_entry_text_delimited(x: EntryView, y: EntryView, r: Seq<u8>, s: Seq<u8>)
    requires
        entry_text(x) + r == entry_text(y) + s,
    ensures
        x == y,
        r == s,
{
    let l1 = lit("{\"id\":");
    let l2 = lit(",\"title\":");
    let l3 = lit(",\"username\":");
    let l4 = lit(",\"password\":");
    let x5 = entry_tail_then(x, r);
    let y5 = entry_tail_then(y, s);
    let x4 = l4 + (optional_envelope_text(x.password) + x5);
    let y4 = l4 + (optional_envelope_text(y.password) + y5);
    let x3 = l3 + (optional_string_text(x.fields.username) + x4);
    let y3 = l3 + (optional_string_text(y.fields.username) + y4);
    let x2 = l2 + (string_text(x.fields.title) + x3);
    let y2 = l2 + (string_text(y.fields.title) + y3);
    lemma_entry_then(x, r);
    lemma_entry_then(y, s);
    lemma_same_start(l1, string_text(x.fields.id) + x2, string_text(y.fields.id) + y2);
    lemma_string_text_delimited(x.fields.id, y.fields.id, x2, y2);
    lemma_same_start(l2, string_text(x.fields.title) + x3, string_text(y.fields.title) + y3);
    lemma_string_text_delimited(x.fields.title, y.fields.title, x3, y3);
    lemma_same_start(
        l3,
        optional_string_text(x.fields.username) + x4,
        optional_string_text(y.fields.username) + y4,
    );
    lemma_optional_string_text_delimited(x.fields.username, y.fields.username, x4, y4);
    lemma_same_start(
        l4,
        optional_envelope_text(x.password) + x5,
        optional_envelope_text(y.password) + y5,
    );
    lemma_optional_envelope_text_delimited(x.password, y.password, x5, y5);
    lemma_entry_tail_delimited(x, y, r, s);
    assert(x.fields == y.fields);
}

/// A list of records that begins with `head` is the text of `head`, and
/// behind a comma the list of the rest, where there is a rest.
pub proof fn lemma_entry_list_from_the_left(head: EntryView, rest: Seq<EntryView>)
    ensures
        entry_list(seq![head] + rest) == if rest.len() == 0 {
            entry_text(head)
        } else {
            entry_text(head) + (seq![44u8] + entry_list(rest))
        },
    decreases rest.len(),
{
    let all = seq![head] + rest;
    if rest.len() == 0 {
        assert(all =~= seq![head]);
    } else {
        assert(all.drop_last() =~= seq![head] + rest.drop_last());
        assert(all.last() == rest.last());
        lemma_entry_list_from_the_left(head, rest.drop_last());
        if rest.len() == 1 {
            assert(rest.drop_last() =~= Seq::<EntryView>::empty());
            assert(entry_list(rest) == entry_text(rest[0]));
            assert(entry_list(all) =~= entry_text(head) + (seq![44u8] + entry_list(rest)));
        } else {
            assert(entry_list(all) =~= entry_text(head) + (seq![44u8] + entry_list(rest)));
        }
    }
}

/// What follows the first record in the text of a list of records that is
/// closed by its bracket: the bracket, or a comma and the records that are
/// left, closed by the bracket.
pub open spec fn after_first_entry(entries: Seq<EntryView>, r: Seq<u8>) -> Seq<u8> {
    if entries.len() <= 1 {
        seq![93u8] + r
    } else {
        seq![44u8] + (entry_list(entries.drop_first()) + (seq![93u8] + r))
    }
}

/// The text of a list of records that is not empty, closed by its bracket,
/// is the text of the first record and what follows it.
pub proof fn lemma_entry_list_begins(entries: Seq<EntryView>, r: Seq<u8>)
    requires
        entries.len() > 0,
    ensures
        entry_list(entries) + (seq![93u8] + r) == entry_text(entries[0]) + after_first_entry(
            entries,
            r,
        ),
{
    let head = entries[0];
    let rest = entries.drop_first();
    assert(entries =~= seq![head] + rest);
    lemma_entry_list_from_the_left(head, rest);
    if rest.len() > 0 {
        lemma_join(entry_text(head), seq![44u8] + entry_list(rest), seq![93u8] + r);
        lemma_join(seq![44u8], entry_list(rest), seq![93u8] + r);
    }
}

/// A list of records ends at its bracket: two lists that begin equal texts,
/// each followed by the closing bracket, are the same list, and what follows
/// them is the same.
pub proof fn lemma_entry_list_delimited(
    x: Seq<EntryView>,
    y: Seq<EntryView>,
    r: Seq<u8>,
    s: Seq<u8>,
)
    requires
        entry_list(x) + (seq![93u8] + r) == entry_list(y) + (seq![93u8] + s),
    ensures
        x == y,
        r == s,
    decreases x.len(),
{
    let left = entry_list(x) + (seq![93u8] + r);
    let right = entry_list(y) + (seq![93u8] + s);
    if x.len() == 0 {
        assert(left[0] == 93);
        if y.len() > 0 {
            lemma_entry_list_begins(y, s);
            lemma_entry_begins(y[0], after_first_entry(y, s));
            assert(false);
        }
        assert(x =~= y);
        lemma_same_start(seq![93u8], r, s);
    } else {
        lemma_entry_list_begins(x, r);
        if y.len() == 0 {
            assert(right[0] == 93);
            lemma_entry_begins(x[0], after_first_entry(x, r));
            assert(false);
        }
        lemma_entry_list_begins(y, s);
        let after_x = after_first_entry(x, r);
        let after_y = after_first_entry(y, s);
        lemma_entry_text_delimited(x[0], y[0], after_x, after_y);
        let t = x.drop_first();
        let u = y.drop_first();
        if x.len() == 1 {
            assert(after_x[0] == 93);
            assert(y.len() == 1) by {
                if y.len() > 1 {
                    assert(after_y[0] == 44);
                }
            }
            lemma_same_start(seq![93u8], r, s);
            assert(x =~= y);
        } else {
            assert(after_x[0] == 44);
            assert(y.len() > 1) by {
                if y.len() == 1 {
                    assert(after_y[0] == 93);
                }
            }
            lemma_same_start(
                seq![44u8],
                entry_list(t) + (seq![93u8] + r),
                entry_list(u) + (seq![93u8] + s),
            );
            lemma_entry_list_delimited(t, u, r, s);
            assert(x =~= seq![x[0]] + t);
            assert(y =~= seq![y[0]] + u);
        }
    }
}

/// The records of a vault end at their bracket: two lists of records whose
/// texts begin equal texts are the same list, and what follows them is the
/// same.
pub proof fn lemma_entries_text_delimited(
    x: Seq<EntryView>,
    y: Seq<EntryView>,
    r: Seq<u8>,
    s: Seq<u8>,
)
    requires
        entries_text(x) + r == entries_text(y) + s,
    ensures
        x == y,
        r == s,
{
    let after_x = entry_list(x) + (seq![93u8] + r);
    let after_y = entry_list(y) + (seq![93u8] + s);
    lemma_join(seq![91u8] + entry_list(x), seq![93u8], r);
    lemma_join(seq![91u8], entry_list(x), seq![93u8] + r);
    lemma_join(seq![91u8] + entry_list(y), seq![93u8], s);
    lemma_join(seq![91u8], entry_list(y), seq![93u8] + s);
    lemma_same_start(seq![91u8], after_x, after_y);
    lemma_entry_list_delimited(x, y, r, s);
}

/// Two lists of records with the same canonical text are the same list:
/// the same records in the same order.
pub proof fn lemma_entries_text_is_unambiguous(x: Seq<EntryView>, y: Seq<EntryView>)
    requires
        entries_text(x) == entries_text(y),
    ensures
        x == y,
{
    lemma_entries_text_delimited(x, y, Seq::<u8>::empty(), Seq::<u8>::empty());
}

/// Two byte strings with the same hexadecimal digits are the same.
pub proof fn lemma_hex_lower_is_unambiguous(x: Seq<u8>, y: Seq<u8>)
    requires
        hex_lower(x) == hex_lower(y),
    ensures
        x == y,
{
    assert(hex_lower(x).len() == 2 * x.len());
    assert(hex_lower(y).len() == 2 * y.len());
    assert forall|i: int| 0 <= i < x.len() implies x[i] == y[i] by {
        let high = hex_lower(x)[2 * i];
        let low = hex_lower(x)[2 * i + 1];
        assert(high == hex_digit(x[i] as int / 16));
        assert(low == hex_digit(x[i] as int % 16));
        assert(hex_lower(y)[2 * i] == hex_digit(y[i] as int / 16));
        assert(hex_lower(y)[2 * i + 1] == hex_digit(y[i] as int % 16));
        lemma_hex_digit_is_unambiguous(x[i] as int / 16, y[i] as int / 16);
        lemma_hex_digit_is_unambiguous(x[i] as int % 16, y[i] as int % 16);
    }
    assert(x =~= y);
}

/// Two values below 16 with the same hexadecimal digit are the same.
pub proof fn lemma_hex_digit_is_unambiguous(a: int, b: int)
    requires
        0 <= a < 16,
        0 <= b < 16,
        hex_digit(a) == hex_digit(b),
    ensures
        a == b,
{
    assert(hex_digit(a) as u32 == if a < 10 {
        a + 48
    } else {
        a + 87
    });
    assert(hex_digit(b) as u32 == if b < 10 {
        b + 48
    } else {
        b + 87
    });
}

/// What equal digests mean: two vaults with every digest up to date and
/// the same digest of a part have the same part, unless SHA-256 gives two
/// different canonical texts the same digest.
pub proof fn lemma_equal_digests_mean_equal_parts(a: VaultView, b: VaultView)
    requires
        a.digests_current(),
        b.digests_current(),
    ensures
        a.digest_auth == b.digest_auth ==> a.auth == b.auth || (auth_text(a.auth) != auth_text(
            b.auth,
        ) && sha256(auth_text(a.auth)) == sha256(auth_text(b.auth))),
        a.digest_key_wrap == b.digest_key_wrap ==> a.key_wrap == b.key_wrap || (key_wrap_text(
            a.key_wrap,
        ) != key_wrap_text(b.key_wrap) && sha256(key_wrap_text(a.key_wrap)) == sha256(
            key_wrap_text(b.key_wrap),
        )),
        a.digest_records == b.digest_records ==> a.records == b.records || (entries_text(
            a.records,
        ) != entries_text(b.records) && sha256(entries_text(a.records)) == sha256(
            entries_text(b.records),
        )),
{
    if a.digest_auth == b.digest_auth {
        lemma_hex_lower_is_unambiguous(sha256(auth_text(a.auth)), sha256(auth_text(b.auth)));
        if auth_text(a.auth) == auth_text(b.auth) {
            lemma_auth_text_is_unambiguous(a.auth, b.auth);
        }
    }
    if a.digest_key_wrap == b.digest_key_wrap {
        lemma_hex_lower_is_unambiguous(
            sha256(key_wrap_text(a.key_wrap)),
            sha256(key_wrap_text(b.key_wrap)),
        );
        if key_wrap_text(a.key_wrap) == key_wrap_text(b.key_wrap) {
            lemma_key_wrap_text_is_unambiguous(a.key_wrap, b.key_wrap);
        }
    }
    if a.digest_records == b.digest_records {
        lemma_hex_lower_is_unambiguous(
            sha256(entries_text(a.records)),
            sha256(entries_text(b.records)),
        );
        if entries_text(a.records) == entries_text(b.records) {
            lemma_entries_text_is_unambiguous(a.records, b.records);
        }
    }
}

} // verus!
