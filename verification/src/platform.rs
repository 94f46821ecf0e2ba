//! What the library takes from its surroundings: fresh identifiers, the
//! time of day, and the decoding of text.
//!
//! Every executable function in this module hands its work to an outside
//! crate or to the standard library. Verus does not read their bodies: what
//! their contracts state is taken on trust.

use vstd::prelude::*;
use vstd::utf8::{decode_utf8, valid_utf8};

verus! {

/// Whether `text` has the shape of a UUID written with hyphens: 36
/// characters, the hyphens behind the 8th, 12th, 16th and 20th digit.
pub open spec fn is_hyphenated_uuid(text: Seq<char>) -> bool {
    &&& text.len() == 36
    &&& text[8] == '-'
    &&& text[13] == '-'
    &&& text[18] == '-'
    &&& text[23] == '-'
}

/// The text that `bytes` spell in UTF-8, or the empty text where they spell
/// none.
pub open spec fn text_of(bytes: Seq<u8>) -> Seq<char> {
    if valid_utf8(bytes) {
        decode_utf8(bytes)
    } else {
        Seq::<char>::empty()
    }
}

/// Whether `needle` stands somewhere in `text`, character for character.
pub open spec fn occurs_in(needle: Seq<char>, text: Seq<char>) -> bool {
    exists|i: int|
        0 <= i <= text.len() - needle.len() && #[trigger] text.subrange(i, i + needle.len())
            == needle
}

/// Calls `str::contains` with a text as the pattern. Trusted: it finds the
/// pattern exactly where the pattern stands somewhere in the text.
#[verifier::external_body]
pub(crate) fn text_contains(text: &str, needle: &str) -> (found: bool)
    ensures
        found == occurs_in(needle@, text@),
{
    text.contains(needle)
}

/// Draws a random UUID with `uuid::Uuid::new_v4` and writes it with its
/// `Display`. Trusted: the text has the hyphenated shape. The identifier is
/// random, so nothing else is claimed of it.
#[verifier::external_body]
pub(crate) fn new_uuid_v4() -> (text: String)
    ensures
        is_hyphenated_uuid(text@),
{
    uuid::Uuid::new_v4().to_string()
}

/// Reads the clock with `chrono::Utc::now` and writes the time with its
/// `Display`. Trusted; the text depends on the clock, so nothing is claimed
/// of it.
#[verifier::external_body]
pub(crate) fn utc_now() -> String {
    chrono::Utc::now().to_string()
}

/// Calls `String::from_utf8`. Trusted: bytes that are valid UTF-8 give the
/// text they spell, and others give nothing.
#[verifier::external_body]
pub(crate) fn string_from_utf8(bytes: Vec<u8>) -> (text: Option<String>)
    ensures
        match text {
            Some(text) => valid_utf8(bytes@) && text@ == decode_utf8(bytes@),
            None => !valid_utf8(bytes@),
        },
{
    String::from_utf8(bytes).ok()
}

/// Picks one of `pool` with `rand::seq::SliceRandom::choose` on
/// `rand::rngs::OsRng`. Trusted: an empty pool gives nothing, another gives
/// one of its items. Which one is random.
#[verifier::external_body]
pub(crate) fn choose_char(pool: &[char]) -> (chosen: Option<char>)
    ensures
        match chosen {
            Some(c) => pool@.contains(c),
            None => pool@.len() == 0,
        },
{
    rand::seq::SliceRandom::choose(pool, &mut rand::rngs::OsRng).copied()
}

/// Picks `amount` of `pool` with `rand::seq::SliceRandom::choose_multiple`
/// on `rand::rngs::OsRng`. Trusted: it gives `amount` items of the pool, or
/// all of them where the pool has fewer, each place of the pool at most
/// once. Which ones, and in what order, is random.
#[verifier::external_body]
pub(crate) fn choose_chars(pool: &[char], amount: usize) -> (chosen: Vec<char>)
    ensures
        chosen@.len() == if amount <= pool@.len() {
            amount as nat
        } else {
            pool@.len()
        },
        forall|i: int| 0 <= i < chosen@.len() ==> pool@.contains(#[trigger] chosen@[i]),
        pool@.no_duplicates() ==> chosen@.no_duplicates(),
{
    rand::seq::SliceRandom::choose_multiple(pool, &mut rand::rngs::OsRng, amount).copied().collect()
}

/// Shuffles `chars` with `rand::seq::SliceRandom::shuffle` on
/// `rand::rngs::OsRng`. Trusted: the characters are the same, each as often
/// as before. Their order is random.
#[verifier::external_body]
pub(crate) fn shuffle_chars(chars: &mut Vec<char>)
    ensures
        final(chars)@.to_multiset() == old(chars)@.to_multiset(),
{
    rand::seq::SliceRandom::shuffle(chars.as_mut_slice(), &mut rand::rngs::OsRng);
}

/// Collects characters into a `String`. Trusted: the text holds the
/// characters in their order.
#[verifier::external_body]
pub(crate) fn string_of_chars(chars: &[char]) -> (text: String)
    ensures
        text@ == chars@,
{
    chars.iter().collect()
}

} // verus!
