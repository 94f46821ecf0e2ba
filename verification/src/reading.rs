//! Reading the stored document, piece by piece.
//!
//! Each reader starts at a place in the input and gives what it read and
//! the place behind it. Of each reader one thing is proved: where the text
//! of a value stands at the place, the reader gives that value and the place
//! behind the text. What a reader makes of any other input does not matter:
//! the document that was read is written again and compared with the input.

use crate::canonical::{
    auth_in, auth_text, bool_text, bytes_text, decimal, entries_text, entry_list,
    entry_tail_then, entry_text, entry_views, envelope_text, escaped, escaped_byte, hex_byte,
    key_wrap_in, key_wrap_text, lemma_auth_record_then, lemma_entry_then, lemma_envelope_then,
    lemma_key_wrap_record_then, lit, number_list, optional_envelope_text, optional_string_text,
    string_text,
};
use crate::crypto::{Envelope, SecureData};
use crate::master_password::{AuthRecord, MasterPasswordData};
use crate::mek::{MekData, MekRecord};
use crate::password_entry::{envelope_in, text_in, EntryView, PasswordEntry};
use crate::platform::string_from_utf8;
use crate::unambiguous::{
    after_first_entry, after_first_number, is_digit, lemma_auth_record_begins,
    lemma_entry_begins, lemma_entry_list_begins, lemma_envelope_begins, lemma_escaped_begins,
    lemma_key_wrap_record_begins, lemma_null_begins, lemma_number_list_begins,
    lemma_string_begins,
};
use vstd::prelude::*;
use vstd::utf8::{
    encode_utf8, encode_utf8_decode_utf8, encode_utf8_valid_utf8, is_ascii_chars,
    is_ascii_chars_encode_utf8,
};

verus! {

/// Whether `text` is what stands in `input` from `pos` to the end.
pub open spec fn stands_at(input: Seq<u8>, pos: int, text: Seq<u8>) -> bool {
    0 <= pos <= input.len() && input.skip(pos) == text
}

/// Behind the beginning of what stands at a place stands the rest.
pub proof fn lemma_advance(input: Seq<u8>, pos: int, head: Seq<u8>, rest: Seq<u8>)
    requires
        stands_at(input, pos, head + rest),
    ensures
        pos + head.len() <= input.len(),
        stands_at(input, pos + head.len(), rest),
        forall|i: int| 0 <= i < head.len() ==> input[pos + i] == #[trigger] head[i],
{
    let all = head + rest;
    assert(input.skip(pos).len() == input.len() - pos);
    assert(all.len() == head.len() + rest.len());
    assert forall|i: int| 0 <= i < head.len() implies input[pos + i] == #[trigger] head[i] by {
        assert(input.skip(pos)[i] == input[pos + i]);
        assert(all[i] == head[i]);
    }
    assert forall|i: int| 0 <= i < rest.len() implies input.skip(pos + head.len())[i]
        == rest[i] by {
        assert(input.skip(pos)[head.len() + i] == input[pos + head.len() + i]);
        assert(all[head.len() + i] == rest[i]);
    }
    assert(input.skip(pos + head.len()) =~= rest);
}

/// What stands first at a place is the byte there.
pub proof fn lemma_first(input: Seq<u8>, pos: int, text: Seq<u8>)
    requires
        stands_at(input, pos, text),
        text.len() > 0,
    ensures
        pos < input.len(),
        input[pos] == text[0],
{
    assert(input.skip(pos).len() == input.len() - pos);
    assert(input.skip(pos)[0] == input[pos]);
}

/// Reads the piece of text `text`.
pub(crate) fn read_lit(input: &[u8], pos: usize, text: &str, Ghost(rest): Ghost<Seq<u8>>) -> (next:
    Option<usize>)
    requires
        pos <= input@.len(),
    ensures
        next matches Some(n) ==> pos <= n <= input@.len(),
        stands_at(input@, pos as int, lit(text) + rest) ==> (next matches Some(n) && stands_at(
            input@,
            n as int,
            rest,
        )),
{
    let bytes = text.as_bytes();
    proof {
        if stands_at(input@, pos as int, lit(text) + rest) {
            lemma_advance(input@, pos as int, lit(text), rest);
        }
    }
    if bytes.len() > input.len() - pos {
        return None;
    }
    let mut i: usize = 0;
    while i < bytes.len()
        invariant
            i <= bytes.len(),
            pos + bytes.len() <= input.len(),
            bytes@ == lit(text),
            stands_at(input@, pos as int, lit(text) + rest) ==> forall|j: int|
                0 <= j < bytes.len() ==> input@[pos + j] == #[trigger] bytes@[j],
        decreases bytes.len() - i,
    {
        if input[pos + i] != bytes[i] {
            return None;
        }
        i = i + 1;
    }
    Some(pos + bytes.len())
}

/// Whether `byte` is a decimal digit.
fn digit(byte: u8) -> (yes: bool)
    ensures
        yes == is_digit(byte),
{
    48 <= byte && byte <= 57
}

/// Reads a number below 256, written with one to three digits.
pub(crate) fn read_decimal(
    input: &[u8],
    pos: usize,
    Ghost(value): Ghost<u8>,
    Ghost(rest): Ghost<Seq<u8>>,
) -> (r: Option<(u8, usize)>)
    requires
        pos <= input@.len(),
    ensures
        r matches Some((_, n)) ==> pos <= n <= input@.len(),
        stands_at(input@, pos as int, decimal(value) + rest) && rest.len() > 0 && !is_digit(
            rest[0],
        ) ==> (r matches Some((v, n)) && v == value && stands_at(input@, n as int, rest)),
{
    let ghost expected = stands_at(input@, pos as int, decimal(value) + rest) && rest.len() > 0
        && !is_digit(rest[0]);
    let ghost digits = decimal(value);
    proof {
        if expected {
            lemma_advance(input@, pos as int, digits, rest);
            lemma_first(input@, pos + digits.len(), rest);
            assert(1 <= digits.len() <= 3);
            assert(input@[pos as int] == digits[0] && is_digit(digits[0]));
            if digits.len() > 1 {
                assert(input@[pos + 1] == digits[1] && is_digit(digits[1]));
            }
            if digits.len() > 2 {
                assert(input@[pos + 2] == digits[2] && is_digit(digits[2]));
            }
            assert(input@[pos + digits.len()] == rest[0]);
        }
    }
    if pos >= input.len() || !digit(input[pos]) {
        return None;
    }
    let d0 = input[pos] - 48;
    if pos + 1 >= input.len() || !digit(input[pos + 1]) {
        proof {
            if expected {
                assert(digits.len() == 1);
                assert(d0 == value);
            }
        }
        return Some((d0, pos + 1));
    }
    let d1 = input[pos + 1] - 48;
    if pos + 2 >= input.len() || !digit(input[pos + 2]) {
        proof {
            if expected {
                assert(digits.len() == 2);
                assert(d0 * 10 + d1 == value);
            }
        }
        return Some((d0 * 10 + d1, pos + 2));
    }
    let d2 = input[pos + 2] - 48;
    let total: u16 = d0 as u16 * 100 + d1 as u16 * 10 + d2 as u16;
    proof {
        if expected {
            assert(digits.len() == 3);
            assert(total == value);
        }
    }
    if total > 255 {
        return None;
    }
    Some((total as u8, pos + 3))
}

/// Reads bytes written as an array of numbers.
#[verifier::rlimit(50)]
pub(crate) fn read_bytes(
    input: &[u8],
    pos: usize,
    Ghost(bytes): Ghost<Seq<u8>>,
    Ghost(rest): Ghost<Seq<u8>>,
) -> (r: Option<(Vec<u8>, usize)>)
    requires
        pos <= input@.len(),
    ensures
        r matches Some((_, n)) ==> pos <= n <= input@.len(),
        stands_at(input@, pos as int, bytes_text(bytes) + rest) ==> (r matches Some((read, n))
            && read@ == bytes && stands_at(input@, n as int, rest)),
{
    let ghost expected = stands_at(input@, pos as int, bytes_text(bytes) + rest);
    let ghost closed = seq![93u8] + rest;
    proof {
        if expected {
            assert(bytes_text(bytes) + rest =~= seq![91u8] + (number_list(bytes) + closed));
            lemma_advance(input@, pos as int, seq![91u8], number_list(bytes) + closed);
            assert(input@[pos as int] == seq![91u8][0]);
        }
    }
    if pos >= input.len() || input[pos] != 91 {
        return None;
    }
    let mut read: Vec<u8> = Vec::new();
    let mut at: usize = pos + 1;
    if at < input.len() && input[at] == 93 {
        proof {
            if expected {
                if bytes.len() > 0 {
                    lemma_number_list_begins(bytes, rest);
                    lemma_first(input@, at as int, number_list(bytes) + closed);
                    assert(false);
                }
                assert(read@ =~= bytes);
                assert(number_list(bytes) + closed =~= closed);
                lemma_advance(input@, at as int, seq![93u8], rest);
            }
        }
        return Some((read, at + 1));
    }
    proof {
        if expected {
            if bytes.len() == 0 {
                assert(number_list(bytes) + closed =~= closed);
                lemma_first(input@, at as int, closed);
                assert(closed[0] == 93);
                assert(false);
            }
            assert(read@ + bytes =~= bytes);
        }
    }
    let ghost mut left = bytes;
    loop
        invariant
            pos < at <= input@.len(),
            closed == seq![93u8] + rest,
            expected == stands_at(input@, pos as int, bytes_text(bytes) + rest),
            expected ==> left.len() > 0 && read@ + left == bytes && stands_at(
                input@,
                at as int,
                number_list(left) + closed,
            ),
        decreases input@.len() - at,
    {
        let ghost after = after_first_number(left, rest);
        let ghost first = if left.len() > 0 {
            left[0]
        } else {
            0u8
        };
        let ghost so_far = read@;
        proof {
            if expected {
                lemma_number_list_begins(left, rest);
                assert(!is_digit(after[0]));
            }
        }
        let (value, next) = match read_decimal(input, at, Ghost(first), Ghost(after)) {
            Some(found) => found,
            None => {
                return None;
            },
        };
        proof {
            if expected {
                lemma_first(input@, next as int, after);
                lemma_advance(input@, at as int, decimal(first), after);
            }
        }
        if next <= at || next >= input.len() {
            return None;
        }
        read.push(value);
        proof {
            if expected {
                assert(left =~= seq![first] + left.drop_first());
                assert(read@ + left.drop_first() =~= so_far + left);
            }
        }
        if input[next] == 93 {
            proof {
                if expected {
                    assert(left.len() == 1);
                    assert(left.drop_first() =~= Seq::<u8>::empty());
                    assert(read@ =~= bytes);
                    lemma_advance(input@, next as int, seq![93u8], rest);
                }
            }
            return Some((read, next + 1));
        }
        if input[next] != 44 {
            return None;
        }
        proof {
            if expected {
                assert(left.len() > 1);
                lemma_advance(
                    input@,
                    next as int,
                    seq![44u8],
                    number_list(left.drop_first()) + closed,
                );
                left = left.drop_first();
            }
        }
        at = next + 1;
    }
}

/// The value of a lower-case hexadecimal digit.
fn hex_value(digit: u8) -> (value: Option<u8>)
    ensures
        forall|v: u8| v < 16 && digit == hex_byte(v) ==> value == Some(v),
{
    if 48 <= digit && digit <= 57 {
        Some(digit - 48)
    } else if 97 <= digit && digit <= 102 {
        Some(digit - 87)
    } else {
        None
    }
}

/// Reads one byte of text as it stands inside a JSON string.
pub(crate) fn read_escaped_byte(
    input: &[u8],
    pos: usize,
    Ghost(byte): Ghost<u8>,
    Ghost(rest): Ghost<Seq<u8>>,
) -> (r: Option<(u8, usize)>)
    requires
        pos <= input@.len(),
    ensures
        r matches Some((_, n)) ==> pos < n <= input@.len(),
        stands_at(input@, pos as int, escaped_byte(byte) + rest) ==> (r matches Some((b, n))
            && b == byte && stands_at(input@, n as int, rest)),
{
    let ghost expected = stands_at(input@, pos as int, escaped_byte(byte) + rest);
    let ghost written = escaped_byte(byte);
    proof {
        if expected {
            lemma_advance(input@, pos as int, written, rest);
            assert(written.len() == 1 || written.len() == 2 || written.len() == 6);
            assert(input@[pos as int] == written[0]);
            if written.len() > 1 {
                assert(input@[pos + 1] == written[1]);
            }
            if written.len() > 2 {
                assert(input@[pos + 2] == written[2]);
                assert(input@[pos + 3] == written[3]);
                assert(input@[pos + 4] == written[4]);
                assert(input@[pos + 5] == written[5]);
                assert(byte / 16 < 16 && byte % 16 < 16);
            }
        }
    }
    if pos >= input.len() {
        return None;
    }
    let first = input[pos];
    if first != 92 {
        return Some((first, pos + 1));
    }
    if pos + 1 >= input.len() {
        return None;
    }
    let second = input[pos + 1];
    if second == 34 || second == 92 {
        return Some((second, pos + 2));
    }
    if second == 98 {
        return Some((8, pos + 2));
    }
    if second == 116 {
        return Some((9, pos + 2));
    }
    if second == 110 {
        return Some((10, pos + 2));
    }
    if second == 102 {
        return Some((12, pos + 2));
    }
    if second == 114 {
        return Some((13, pos + 2));
    }
    if second != 117 || input.len() - pos <= 5 {
        return None;
    }
    if input[pos + 2] != 48 || input[pos + 3] != 48 {
        return None;
    }
    let high = match hex_value(input[pos + 4]) {
        Some(high) => high,
        None => {
            return None;
        },
    };
    let low = match hex_value(input[pos + 5]) {
        Some(low) => low,
        None => {
            return None;
        },
    };
    if high > 15 || low > 15 {
        return None;
    }
    Some((high * 16 + low, pos + 6))
}

/// Reads a text written as a JSON string.
#[verifier::rlimit(50)]
pub(crate) fn read_string(
    input: &[u8],
    pos: usize,
    Ghost(text): Ghost<Seq<char>>,
    Ghost(rest): Ghost<Seq<u8>>,
) -> (r: Option<(String, usize)>)
    requires
        pos <= input@.len(),
    ensures
        r matches Some((_, n)) ==> pos <= n <= input@.len(),
        stands_at(input@, pos as int, string_text(text) + rest) ==> (r matches Some((read, n))
            && read@ == text && stands_at(input@, n as int, rest)),
{
    let ghost expected = stands_at(input@, pos as int, string_text(text) + rest);
    let ghost bytes = encode_utf8(text);
    let ghost closed = seq![34u8] + rest;
    proof {
        if expected {
            assert(string_text(text) + rest =~= seq![34u8] + (escaped(bytes) + closed));
            lemma_advance(input@, pos as int, seq![34u8], escaped(bytes) + closed);
            assert(input@[pos as int] == seq![34u8][0]);
        }
    }
    if pos >= input.len() || input[pos] != 34 {
        return None;
    }
    let mut read: Vec<u8> = Vec::new();
    let mut at: usize = pos + 1;
    let ghost mut left = bytes;
    proof {
        assert(read@ + bytes =~= bytes);
    }
    loop
        invariant
            pos < at <= input@.len(),
            closed == seq![34u8] + rest,
            bytes == encode_utf8(text),
            expected == stands_at(input@, pos as int, string_text(text) + rest),
            expected ==> read@ + left == bytes && stands_at(
                input@,
                at as int,
                escaped(left) + closed,
            ),
        decreases input@.len() - at,
    {
        if at >= input.len() {
            proof {
                if expected {
                    assert((escaped(left) + closed).len() > 0);
                    lemma_first(input@, at as int, escaped(left) + closed);
                }
            }
            return None;
        }
        if input[at] == 34 {
            proof {
                if expected {
                    if left.len() > 0 {
                        lemma_escaped_begins(left, rest);
                        lemma_first(input@, at as int, escaped(left) + closed);
                        assert(false);
                    }
                    assert(escaped(left) + closed =~= closed);
                    lemma_advance(input@, at as int, seq![34u8], rest);
                    assert(read@ =~= bytes);
                    encode_utf8_valid_utf8(text);
                    encode_utf8_decode_utf8(text);
                }
            }
            return match string_from_utf8(read) {
                Some(text) => Some((text, at + 1)),
                None => None,
            };
        }
        let ghost first = if left.len() > 0 {
            left[0]
        } else {
            0u8
        };
        let ghost after = escaped(left.drop_first()) + closed;
        let ghost so_far = read@;
        proof {
            if expected {
                if left.len() == 0 {
                    assert(escaped(left) + closed =~= closed);
                    lemma_first(input@, at as int, closed);
                    assert(closed[0] == 34);
                    assert(false);
                }
                lemma_escaped_begins(left, rest);
            }
        }
        let (byte, next) = match read_escaped_byte(input, at, Ghost(first), Ghost(after)) {
            Some(found) => found,
            None => {
                return None;
            },
        };
        read.push(byte);
        proof {
            if expected {
                assert(left =~= seq![first] + left.drop_first());
                assert(read@ + left.drop_first() =~= so_far + left);
                left = left.drop_first();
            }
        }
        at = next;
    }
}

/// Reads a text that may be absent: a JSON string, or `null`.
pub(crate) fn read_optional_string(
    input: &[u8],
    pos: usize,
    Ghost(text): Ghost<Option<Seq<char>>>,
    Ghost(rest): Ghost<Seq<u8>>,
) -> (r: Option<(Option<String>, usize)>)
    requires
        pos <= input@.len(),
    ensures
        r matches Some((_, n)) ==> pos <= n <= input@.len(),
        stands_at(input@, pos as int, optional_string_text(text) + rest) ==> (r matches Some(
            (read, n),
        ) && text_in(read) == text && stands_at(input@, n as int, rest)),
{
    let ghost expected = stands_at(input@, pos as int, optional_string_text(text) + rest);
    proof {
        if expected {
            match text {
                Some(t) => {
                    lemma_string_begins(t, rest);
                    lemma_first(input@, pos as int, string_text(t) + rest);
                },
                None => {
                    lemma_null_begins(rest);
                    lemma_first(input@, pos as int, lit("null") + rest);
                },
            }
        }
    }
    if pos < input.len() && input[pos] == 110 {
        match read_lit(input, pos, "null", Ghost(rest)) {
            Some(next) => Some((None, next)),
            None => None,
        }
    } else {
        let ghost wanted = match text {
            Some(t) => t,
            None => Seq::<char>::empty(),
        };
        match read_string(input, pos, Ghost(wanted), Ghost(rest)) {
            Some((read, next)) => Some((Some(read), next)),
            None => None,
        }
    }
}

/// `true` begins with a `t`, and `false` with an `f`.
pub proof fn lemma_bool_begins(value: bool, rest: Seq<u8>)
    ensures
        (bool_text(value) + rest).len() > 0,
        (bool_text(value) + rest)[0] == if value {
            116u8
        } else {
            102u8
        },
{
    reveal_strlit("true");
    reveal_strlit("false");
    assert(is_ascii_chars("true"@));
    assert(is_ascii_chars("false"@));
    is_ascii_chars_encode_utf8("true"@);
    is_ascii_chars_encode_utf8("false"@);
    assert(lit("true")[0] == 116);
    assert(lit("false")[0] == 102);
    assert((bool_text(value) + rest)[0] == bool_text(value)[0]);
}

/// Reads a truth value.
pub(crate) fn read_bool(
    input: &[u8],
    pos: usize,
    Ghost(value): Ghost<bool>,
    Ghost(rest): Ghost<Seq<u8>>,
) -> (r: Option<(bool, usize)>)
    requires
        pos <= input@.len(),
    ensures
        r matches Some((_, n)) ==> pos <= n <= input@.len(),
        stands_at(input@, pos as int, bool_text(value) + rest) ==> (r matches Some((read, n))
            && read == value && stands_at(input@, n as int, rest)),
{
    let ghost expected = stands_at(input@, pos as int, bool_text(value) + rest);
    proof {
        if expected {
            lemma_bool_begins(value, rest);
            lemma_first(input@, pos as int, bool_text(value) + rest);
        }
    }
    if pos < input.len() && input[pos] == 116 {
        match read_lit(input, pos, "true", Ghost(rest)) {
            Some(next) => Some((true, next)),
            None => None,
        }
    } else {
        match read_lit(input, pos, "false", Ghost(rest)) {
            Some(next) => Some((false, next)),
            None => None,
        }
    }
}

/// Whether an envelope has a nonce of 12 bytes, as it has in memory.
pub open spec fn envelope_fits(envelope: Envelope) -> bool {
    envelope.nonce.len() == 12
}

/// Whether an envelope that may be absent has a nonce of 12 bytes where it
/// is there.
pub open spec fn optional_envelope_fits(envelope: Option<Envelope>) -> bool {
    envelope matches Some(e) ==> envelope_fits(e)
}

/// Whether the envelope of a key-wrap record that may be absent has a nonce
/// of 12 bytes.
pub open spec fn key_wrap_fits(record: Option<MekRecord>) -> bool {
    record matches Some(k) ==> envelope_fits(k.wrapped)
}

/// Whether the envelope of each record that has one has a nonce of 12 bytes.
pub open spec fn entries_fit(entries: Seq<EntryView>) -> bool {
    forall|i: int| 0 <= i < entries.len() ==> optional_envelope_fits(#[trigger] entries[i].password)
}

/// Twelve bytes as a nonce.
fn nonce_of(bytes: &Vec<u8>) -> (nonce: [u8; 12])
    requires
        bytes@.len() == 12,
    ensures
        nonce@ == bytes@,
{
    let nonce = [
        bytes[0],
        bytes[1],
        bytes[2],
        bytes[3],
        bytes[4],
        bytes[5],
        bytes[6],
        bytes[7],
        bytes[8],
        bytes[9],
        bytes[10],
        bytes[11],
    ];
    assert(nonce@ =~= bytes@);
    nonce
}

/// Reads an envelope.
#[verifier::rlimit(50)]
pub(crate) fn read_envelope(
    input: &[u8],
    pos: usize,
    Ghost(envelope): Ghost<Envelope>,
    Ghost(rest): Ghost<Seq<u8>>,
) -> (r: Option<(SecureData, usize)>)
    requires
        pos <= input@.len(),
    ensures
        r matches Some((_, n)) ==> pos <= n <= input@.len(),
        stands_at(input@, pos as int, envelope_text(envelope) + rest) && envelope_fits(envelope)
            ==> (r matches Some((read, n)) && read@ == envelope && stands_at(
            input@,
            n as int,
            rest,
        )),
{
    let ghost t4 = lit("}") + rest;
    let ghost t3 = lit(",\"salt\":") + (bytes_text(envelope.salt) + t4);
    let ghost t2 = lit(",\"nonce\":") + (bytes_text(envelope.nonce) + t3);
    let ghost t1 = bytes_text(envelope.ciphertext_and_tag) + t2;
    proof {
        lemma_envelope_then(envelope, rest);
    }
    let at = match read_lit(input, pos, "{\"encrypted_data\":", Ghost(t1)) {
        Some(at) => at,
        None => {
            return None;
        },
    };
    let (encrypted_data, at) = match read_bytes(
        input,
        at,
        Ghost(envelope.ciphertext_and_tag),
        Ghost(t2),
    ) {
        Some(found) => found,
        None => {
            return None;
        },
    };
    let at = match read_lit(input, at, ",\"nonce\":", Ghost(bytes_text(envelope.nonce) + t3)) {
        Some(at) => at,
        None => {
            return None;
        },
    };
    let (nonce, at) = match read_bytes(input, at, Ghost(envelope.nonce), Ghost(t3)) {
        Some(found) => found,
        None => {
            return None;
        },
    };
    if nonce.len() != 12 {
        return None;
    }
    let at = match read_lit(input, at, ",\"salt\":", Ghost(bytes_text(envelope.salt) + t4)) {
        Some(at) => at,
        None => {
            return None;
        },
    };
    let (salt, at) = match read_bytes(input, at, Ghost(envelope.salt), Ghost(t4)) {
        Some(found) => found,
        None => {
            return None;
        },
    };
    let at = match read_lit(input, at, "}", Ghost(rest)) {
        Some(at) => at,
        None => {
            return None;
        },
    };
    Some((SecureData { encrypted_data, nonce: nonce_of(&nonce), salt }, at))
}

/// Reads an envelope that may be absent: an object, or `null`.
pub(crate) fn read_optional_envelope(
    input: &[u8],
    pos: usize,
    Ghost(envelope): Ghost<Option<Envelope>>,
    Ghost(rest): Ghost<Seq<u8>>,
) -> (r: Option<(Option<SecureData>, usize)>)
    requires
        pos <= input@.len(),
    ensures
        r matches Some((_, n)) ==> pos <= n <= input@.len(),
        stands_at(input@, pos as int, optional_envelope_text(envelope) + rest)
            && optional_envelope_fits(envelope) ==> (r matches Some((read, n)) && envelope_in(read)
            == envelope && stands_at(input@, n as int, rest)),
{
    let ghost expected = stands_at(input@, pos as int, optional_envelope_text(envelope) + rest);
    proof {
        if expected {
            match envelope {
                Some(e) => {
                    lemma_envelope_begins(e, rest);
                    lemma_first(input@, pos as int, envelope_text(e) + rest);
                },
                None => {
                    lemma_null_begins(rest);
                    lemma_first(input@, pos as int, lit("null") + rest);
                },
            }
        }
    }
    if pos < input.len() && input[pos] == 110 {
        match read_lit(input, pos, "null", Ghost(rest)) {
            Some(next) => Some((None, next)),
            None => None,
        }
    } else {
        let ghost wanted = match envelope {
            Some(e) => e,
            None => arbitrary(),
        };
        match read_envelope(input, pos, Ghost(wanted), Ghost(rest)) {
            Some((read, next)) => Some((Some(read), next)),
            None => None,
        }
    }
}

/// Reads the authentication record of a vault: an object, or `null`.
#[verifier::rlimit(50)]
pub(crate) fn read_auth(
    input: &[u8],
    pos: usize,
    Ghost(record): Ghost<Option<AuthRecord>>,
    Ghost(rest): Ghost<Seq<u8>>,
) -> (r: Option<(Option<MasterPasswordData>, usize)>)
    requires
        pos <= input@.len(),
    ensures
        r matches Some((_, n)) ==> pos <= n <= input@.len(),
        stands_at(input@, pos as int, auth_text(record) + rest) ==> (r matches Some((read, n))
            && auth_in(read) == record && stands_at(input@, n as int, rest)),
{
    let ghost expected = stands_at(input@, pos as int, auth_text(record) + rest);
    proof {
        if expected {
            match record {
                Some(a) => {
                    lemma_auth_record_begins(a, rest);
                    lemma_first(input@, pos as int, auth_text(record) + rest);
                },
                None => {
                    lemma_null_begins(rest);
                    lemma_first(input@, pos as int, lit("null") + rest);
                },
            }
        }
    }
    if pos < input.len() && input[pos] == 110 {
        return match read_lit(input, pos, "null", Ghost(rest)) {
            Some(next) => Some((None, next)),
            None => None,
        };
    }
    let ghost wanted: AuthRecord = match record {
        Some(a) => a,
        None => arbitrary(),
    };
    let ghost t2 = lit("}") + rest;
    let ghost t1 = lit(",\"password_hash\":") + (bytes_text(wanted.password_hash) + t2);
    proof {
        lemma_auth_record_then(wanted, rest);
    }
    let at = match read_lit(input, pos, "{\"salt\":", Ghost(bytes_text(wanted.salt) + t1)) {
        Some(at) => at,
        None => {
            return None;
        },
    };
    let (salt, at) = match read_bytes(input, at, Ghost(wanted.salt), Ghost(t1)) {
        Some(found) => found,
        None => {
            return None;
        },
    };
    let at = match read_lit(
        input,
        at,
        ",\"password_hash\":",
        Ghost(bytes_text(wanted.password_hash) + t2),
    ) {
        Some(at) => at,
        None => {
            return None;
        },
    };
    let (password_hash, at) = match read_bytes(
        input,
        at,
        Ghost(wanted.password_hash),
        Ghost(t2),
    ) {
        Some(found) => found,
        None => {
            return None;
        },
    };
    let at = match read_lit(input, at, "}", Ghost(rest)) {
        Some(at) => at,
        None => {
            return None;
        },
    };
    Some((Some(MasterPasswordData { salt, password_hash }), at))
}

/// Reads the key-wrap record of a vault: an object, or `null`.
#[verifier::rlimit(50)]
pub(crate) fn read_key_wrap(
    input: &[u8],
    pos: usize,
    Ghost(record): Ghost<Option<MekRecord>>,
    Ghost(rest): Ghost<Seq<u8>>,
) -> (r: Option<(Option<MekData>, usize)>)
    requires
        pos <= input@.len(),
    ensures
        r matches Some((_, n)) ==> pos <= n <= input@.len(),
        stands_at(input@, pos as int, key_wrap_text(record) + rest) && key_wrap_fits(record) ==> (
        r matches Some((read, n)) && key_wrap_in(read) == record && stands_at(
            input@,
            n as int,
            rest,
        )),
{
    let ghost expected = stands_at(input@, pos as int, key_wrap_text(record) + rest);
    proof {
        if expected {
            match record {
                Some(k) => {
                    lemma_key_wrap_record_begins(k, rest);
                    lemma_first(input@, pos as int, key_wrap_text(record) + rest);
                },
                None => {
                    lemma_null_begins(rest);
                    lemma_first(input@, pos as int, lit("null") + rest);
                },
            }
        }
    }
    if pos < input.len() && input[pos] == 110 {
        return match read_lit(input, pos, "null", Ghost(rest)) {
            Some(next) => Some((None, next)),
            None => None,
        };
    }
    let ghost wanted: MekRecord = match record {
        Some(k) => k,
        None => arbitrary(),
    };
    let ghost t2 = lit("}") + rest;
    let ghost t1 = lit(",\"mek_salt\":") + (bytes_text(wanted.wrap_salt) + t2);
    proof {
        lemma_key_wrap_record_then(wanted, rest);
        lemma_envelope_then(wanted.wrapped, t1);
    }
    let at = match read_lit(
        input,
        pos,
        "{\"encrypted_mek\":",
        Ghost(envelope_text(wanted.wrapped) + t1),
    ) {
        Some(at) => at,
        None => {
            return None;
        },
    };
    let (encrypted_mek, at) = match read_envelope(input, at, Ghost(wanted.wrapped), Ghost(t1)) {
        Some(found) => found,
        None => {
            return None;
        },
    };
    let at = match read_lit(
        input,
        at,
        ",\"mek_salt\":",
        Ghost(bytes_text(wanted.wrap_salt) + t2),
    ) {
        Some(at) => at,
        None => {
            return None;
        },
    };
    let (mek_salt, at) = match read_bytes(input, at, Ghost(wanted.wrap_salt), Ghost(t2)) {
        Some(found) => found,
        None => {
            return None;
        },
    };
    let at = match read_lit(input, at, "}", Ghost(rest)) {
        Some(at) => at,
        None => {
            return None;
        },
    };
    Some((Some(MekData { encrypted_mek, mek_salt }), at))
}

/// Reads a record.
#[verifier::rlimit(50)]
pub(crate) fn read_entry(
    input: &[u8],
    pos: usize,
    Ghost(entry): Ghost<EntryView>,
    Ghost(rest): Ghost<Seq<u8>>,
) -> (r: Option<(PasswordEntry, usize)>)
    requires
        pos <= input@.len(),
    ensures
        r matches Some((_, n)) ==> pos <= n <= input@.len(),
        stands_at(input@, pos as int, entry_text(entry) + rest) && optional_envelope_fits(
            entry.password,
        ) ==> (r matches Some((read, n)) && read@ == entry && stands_at(input@, n as int, rest)),
{
    let ghost f = entry.fields;
    let ghost t10 = lit("}") + rest;
    let ghost t9 = lit(",\"favorite\":") + (bool_text(f.favorite) + t10);
    let ghost t8 = lit(",\"category\":") + (optional_string_text(f.category) + t9);
    let ghost t7 = lit(",\"creationDate\":") + (string_text(f.creation_date) + t8);
    let ghost t6 = lit(",\"notes\":") + (optional_string_text(f.notes) + t7);
    let ghost t5 = entry_tail_then(entry, rest);
    let ghost t4 = lit(",\"password\":") + (optional_envelope_text(entry.password) + t5);
    let ghost t3 = lit(",\"username\":") + (optional_string_text(f.username) + t4);
    let ghost t2 = lit(",\"title\":") + (string_text(f.title) + t3);
    proof {
        lemma_entry_then(entry, rest);
    }
    let at = match read_lit(input, pos, "{\"id\":", Ghost(string_text(f.id) + t2)) {
        Some(at) => at,
        None => {
            return None;
        },
    };
    let (id, at) = match read_string(input, at, Ghost(f.id), Ghost(t2)) {
        Some(found) => found,
        None => {
            return None;
        },
    };
    let at = match read_lit(input, at, ",\"title\":", Ghost(string_text(f.title) + t3)) {
        Some(at) => at,
        None => {
            return None;
        },
    };
    let (title, at) = match read_string(input, at, Ghost(f.title), Ghost(t3)) {
        Some(found) => found,
        None => {
            return None;
        },
    };
    let at = match read_lit(
        input,
        at,
        ",\"username\":",
        Ghost(optional_string_text(f.username) + t4),
    ) {
        Some(at) => at,
        None => {
            return None;
        },
    };
    let (username, at) = match read_optional_string(input, at, Ghost(f.username), Ghost(t4)) {
        Some(found) => found,
        None => {
            return None;
        },
    };
    let at = match read_lit(
        input,
        at,
        ",\"password\":",
        Ghost(optional_envelope_text(entry.password) + t5),
    ) {
        Some(at) => at,
        None => {
            return None;
        },
    };
    let (password, at) = match read_optional_envelope(
        input,
        at,
        Ghost(entry.password),
        Ghost(t5),
    ) {
        Some(found) => found,
        None => {
            return None;
        },
    };
    let at = match read_lit(input, at, ",\"url\":", Ghost(optional_string_text(f.url) + t6)) {
        Some(at) => at,
        None => {
            return None;
        },
    };
    let (url, at) = match read_optional_string(input, at, Ghost(f.url), Ghost(t6)) {
        Some(found) => found,
        None => {
            return None;
        },
    };
    let at = match read_lit(input, at, ",\"notes\":", Ghost(optional_string_text(f.notes) + t7)) {
        Some(at) => at,
        None => {
            return None;
        },
    };
    let (notes, at) = match read_optional_string(input, at, Ghost(f.notes), Ghost(t7)) {
        Some(found) => found,
        None => {
            return None;
        },
    };
    let at = match read_lit(
        input,
        at,
        ",\"creationDate\":",
        Ghost(string_text(f.creation_date) + t8),
    ) {
        Some(at) => at,
        None => {
            return None;
        },
    };
    let (creation_date, at) = match read_string(input, at, Ghost(f.creation_date), Ghost(t8)) {
        Some(found) => found,
        None => {
            return None;
        },
    };
    let at = match read_lit(
        input,
        at,
        ",\"category\":",
        Ghost(optional_string_text(f.category) + t9),
    ) {
        Some(at) => at,
        None => {
            return None;
        },
    };
    let (category, at) = match read_optional_string(input, at, Ghost(f.category), Ghost(t9)) {
        Some(found) => found,
        None => {
            return None;
        },
    };
    let at = match read_lit(input, at, ",\"favorite\":", Ghost(bool_text(f.favorite) + t10)) {
        Some(at) => at,
        None => {
            return None;
        },
    };
    let (favorite, at) = match read_bool(input, at, Ghost(f.favorite), Ghost(t10)) {
        Some(found) => found,
        None => {
            return None;
        },
    };
    let at = match read_lit(input, at, "}", Ghost(rest)) {
        Some(at) => at,
        None => {
            return None;
        },
    };
    Some(
        (
            PasswordEntry {
                id,
                title,
                username,
                password,
                url,
                notes,
                creation_date,
                category,
                favorite,
            },
            at,
        ),
    )
}

/// Reads the records of a vault.
#[verifier::rlimit(50)]
pub(crate) fn read_entries(
    input: &[u8],
    pos: usize,
    Ghost(entries): Ghost<Seq<EntryView>>,
    Ghost(rest): Ghost<Seq<u8>>,
) -> (r: Option<(Vec<PasswordEntry>, usize)>)
    requires
        pos <= input@.len(),
    ensures
        r matches Some((_, n)) ==> pos <= n <= input@.len(),
        stands_at(input@, pos as int, entries_text(entries) + rest) && entries_fit(entries) ==> (
        r matches Some((read, n)) && entry_views(read@) == entries && stands_at(
            input@,
            n as int,
            rest,
        )),
{
    let ghost expected = stands_at(input@, pos as int, entries_text(entries) + rest)
        && entries_fit(entries);
    let ghost closed = seq![93u8] + rest;
    proof {
        if expected {
            assert(entries_text(entries) + rest =~= seq![91u8] + (entry_list(entries) + closed));
            lemma_advance(input@, pos as int, seq![91u8], entry_list(entries) + closed);
            assert(input@[pos as int] == seq![91u8][0]);
        }
    }
    if pos >= input.len() || input[pos] != 91 {
        return None;
    }
    let mut read: Vec<PasswordEntry> = Vec::new();
    let mut at: usize = pos + 1;
    if at < input.len() && input[at] == 93 {
        proof {
            if expected {
                if entries.len() > 0 {
                    lemma_entry_list_begins(entries, rest);
                    lemma_entry_begins(entries[0], after_first_entry(entries, rest));
                    lemma_first(input@, at as int, entry_list(entries) + closed);
                    assert(false);
                }
                assert(entry_views(read@) =~= entries);
                assert(entry_list(entries) + closed =~= closed);
                lemma_advance(input@, at as int, seq![93u8], rest);
            }
        }
        return Some((read, at + 1));
    }
    proof {
        if expected {
            if entries.len() == 0 {
                assert(entry_list(entries) + closed =~= closed);
                lemma_first(input@, at as int, closed);
                assert(closed[0] == 93);
                assert(false);
            }
            assert(entry_views(read@) + entries =~= entries);
        }
    }
    let ghost mut left = entries;
    loop
        invariant
            pos < at <= input@.len(),
            closed == seq![93u8] + rest,
            expected == (stands_at(input@, pos as int, entries_text(entries) + rest)
                && entries_fit(entries)),
            expected ==> left.len() > 0 && entry_views(read@) + left == entries && stands_at(
                input@,
                at as int,
                entry_list(left) + closed,
            ),
        decreases input@.len() - at,
    {
        let ghost after = after_first_entry(left, rest);
        let ghost first: EntryView = if left.len() > 0 {
            left[0]
        } else {
            arbitrary()
        };
        let ghost so_far = entry_views(read@);
        proof {
            if expected {
                lemma_entry_list_begins(left, rest);
                assert(first == entries[so_far.len() as int]) by {
                    assert((so_far + left)[so_far.len() as int] == left[0]);
                }
                assert(optional_envelope_fits(first.password));
            }
        }
        let (entry, next) = match read_entry(input, at, Ghost(first), Ghost(after)) {
            Some(found) => found,
            None => {
                return None;
            },
        };
        proof {
            if expected {
                lemma_entry_begins(first, after);
                lemma_first(input@, at as int, entry_text(first) + after);
                assert(after.len() > 0);
                lemma_first(input@, next as int, after);
            }
        }
        if next <= at || next >= input.len() {
            return None;
        }
        read.push(entry);
        proof {
            if expected {
                assert(left =~= seq![first] + left.drop_first());
                assert(entry_views(read@) =~= so_far.push(first));
                assert(entry_views(read@) + left.drop_first() =~= so_far + left);
            }
        }
        if input[next] == 93 {
            proof {
                if expected {
                    assert(left.len() == 1);
                    assert(left.drop_first() =~= Seq::<EntryView>::empty());
                    assert(entry_views(read@) =~= entries);
                    lemma_advance(input@, next as int, seq![93u8], rest);
                }
            }
            return Some((read, next + 1));
        }
        if input[next] != 44 {
            return None;
        }
        proof {
            if expected {
                assert(left.len() > 1);
                lemma_advance(
                    input@,
                    next as int,
                    seq![44u8],
                    entry_list(left.drop_first()) + closed,
                );
                left = left.drop_first();
            }
        }
        at = next + 1;
    }
}

} // verus!
