//! Text primitives over character sequences, with the calls into std and
//! `regex` that the game relies on.

use vstd::prelude::*;
use vstd::utf8::encode_utf8;
use rand::seq::SliceRandom;

verus! {

/// The number of bytes that the UTF-8 encoding of `s` takes.
pub open spec fn byte_len(s: Seq<char>) -> int {
    encode_utf8(s).len() as int
}

/// Whether `needle` occurs in `hay` as a run of consecutive characters.
pub open spec fn contains_seq(hay: Seq<char>, needle: Seq<char>) -> bool {
    exists|i: int|
        0 <= i && i + needle.len() <= hay.len() && #[trigger] hay.subrange(i, i + needle.len())
            == needle
}

/// What `str::to_lowercase` makes of a text.
pub uninterp spec fn lower_of(s: Seq<char>) -> Seq<char>;

/// What `str::to_uppercase` makes of a text.
pub uninterp spec fn upper_of(s: Seq<char>) -> Seq<char>;

/// Decimal digits of a natural number, most significant first, without leading zeros.
pub open spec fn decimal(n: nat) -> Seq<char>
    decreases n,
{
    if n < 10 {
        seq![digit_char(n)]
    } else {
        decimal(n / 10).push(digit_char(n % 10))
    }
}

pub open spec fn digit_char(d: nat) -> char {
    if d == 0 { '0' }
    else if d == 1 { '1' }
    else if d == 2 { '2' }
    else if d == 3 { '3' }
    else if d == 4 { '4' }
    else if d == 5 { '5' }
    else if d == 6 { '6' }
    else if d == 7 { '7' }
    else if d == 8 { '8' }
    else { '9' }
}

/// A word that a regular expression reads as itself: no character of it is one
/// of the pattern syntax's ASCII operators, and it is short enough for any size limit.
pub open spec fn is_plain_word(s: Seq<char>) -> bool {
    &&& 0 < s.len() <= 64
    &&& forall|i: int|
        0 <= i < s.len() ==> ('a' <= #[trigger] s[i] <= 'z' || 'A' <= s[i] <= 'Z' || '0' <= s[i]
            <= '9' || (s[i] as u32) >= 128)
}

/// Relies on `str::contains` with a `&str` pattern: true exactly when the
/// pattern occurs in the text.
#[verifier::external_body]
pub(crate) fn text_contains(hay: &str, needle: &str) -> (r: bool)
    ensures
        r == contains_seq(hay@, needle@),
{
    hay.contains(needle)
}

/// Relies on `str::to_lowercase`: the result depends on the characters alone.
#[verifier::external_body]
pub(crate) fn lowercase(s: &str) -> (r: String)
    ensures
        r@ == lower_of(s@),
{
    s.to_lowercase()
}

/// Relies on `str::to_uppercase`: the result depends on the characters alone.
#[verifier::external_body]
pub(crate) fn uppercase(s: &str) -> (r: String)
    ensures
        r@ == upper_of(s@),
{
    s.to_uppercase()
}

/// Relies on `regex::Regex::new` and `Regex::is_match`: the pattern
/// `first|second`, made of two plain words, compiles, and it matches a text
/// exactly when one of the two words occurs in it.
#[verifier::external_body]
pub(crate) fn regex_finds_either(first: &str, second: &str, hay: &str) -> (r: bool)
    requires
        is_plain_word(first@),
        is_plain_word(second@),
    ensures
        r == (contains_seq(hay@, first@) || contains_seq(hay@, second@)),
{
    let pattern = format!("{}|{}", first, second);
    regex::Regex::new(&pattern).unwrap().is_match(hay)
}

/// Relies on `ToString::to_string` for `u128`: its decimal digits.
#[verifier::external_body]
pub(crate) fn decimal_text(n: u128) -> (r: String)
    ensures
        r@ == decimal(n as nat),
{
    n.to_string()
}

/// Relies on `rand::seq::SliceRandom::choose` over the thread's generator:
/// `None` exactly for an empty pool, else one of its entries.
#[verifier::external_body]
pub(crate) fn choose_one(pool: &Vec<String>) -> (r: Option<String>)
    ensures
        r is None <==> pool@.len() == 0,
        r matches Some(s) ==> exists|i: int| 0 <= i < pool@.len() && pool@[i]@ == s@,
{
    pool.choose(&mut rand::thread_rng()).cloned()
}

} // verus!
