//! The calls this library makes into outside crates, each with what it is
//! trusted to do.
use vstd::prelude::*;

use rand::seq::SliceRandom;
use rand::SeedableRng;
use rand::RngExt;

use crate::card::Card;

verus! {

/// Calls `rand::seq::SliceRandom::shuffle` with `rand::rng()`, the thread's
/// generator. Trusted: the cards come back in some order, none added or
/// lost (rand documents a uniformly chosen permutation). Which order is not
/// stated: it depends on the generator's state.
#[verifier::external_body]
pub(crate) fn shuffle_unseeded(cards: &mut Vec<Card>)
    ensures
        final(cards)@.to_multiset() == old(cards)@.to_multiset(),
{
    let mut rng = rand::rng();
    cards.shuffle(&mut rng);
}

/// Calls `rand::seq::SliceRandom::shuffle` with `rand::rngs::StdRng::seed_from_u64(seed)`.
/// Trusted: the cards come back as a permutation of themselves. Which one is
/// not stated: rand documents StdRng output as deterministic for a seed but
/// not portable across platforms or versions.
#[verifier::external_body]
pub(crate) fn shuffle_seeded(cards: &mut Vec<Card>, seed: u64)
    ensures
        final(cards)@.to_multiset() == old(cards)@.to_multiset(),
{
    let mut rng = rand::rngs::StdRng::seed_from_u64(seed);
    cards.shuffle(&mut rng);
}

/// Calls `rand::random_range(0..=1)`. Trusted: the result lies in the
/// range asked for (rand panics only on an empty range). Which of the two
/// values comes is not stated: it is random.
#[verifier::external_body]
pub(crate) fn random_first_seat() -> (r: usize)
    ensures
        r <= 1,
{
    rand::random_range(0..=1usize)
}

/// Calls `rand::rng().random_range(0..n)`. Trusted: the result lies below
/// `n` (rand panics on an empty range, which `requires` rules out). Which
/// value comes is not stated: it is random.
#[verifier::external_body]
pub(crate) fn random_below(n: usize) -> (r: usize)
    requires
        n > 0,
    ensures
        r < n,
{
    rand::rng().random_range(0..n)
}

/// Calls `rand::rng().random::<u64>()`. Nothing is stated of the result:
/// any `u64` may come.
#[verifier::external_body]
pub(crate) fn random_seed() -> u64 {
    rand::rng().random()
}

/// Lower-case hexadecimal digit.
pub open spec fn is_hex_digit(c: char) -> bool {
    ('0' <= c && c <= '9') || ('a' <= c && c <= 'f')
}

/// The hyphenated form of a UUID, as `Uuid`'s `Display` writes it:
/// 32 lower-case hex digits in groups of 8, 4, 4, 4 and 12, joined by `-`.
pub open spec fn is_hyphenated_uuid(s: Seq<char>) -> bool {
    &&& s.len() == 36
    &&& forall|i: int|
        0 <= i < 36 ==> if i == 8 || i == 13 || i == 18 || i == 23 {
            #[trigger] s[i] == '-'
        } else {
            is_hex_digit(s[i])
        }
}

/// Calls `uuid::Uuid::new_v4().to_string()`. Trusted: the text is the
/// hyphenated form (uuid's `Display` writes `as_hyphenated()`, lower-case).
/// Which UUID comes is not stated: it is random.
#[verifier::external_body]
pub(crate) fn new_uuid_text() -> (r: String)
    ensures
        is_hyphenated_uuid(r@),
{
    uuid::Uuid::new_v4().to_string()
}

/// Calls `rand::random::<u16>()`. Nothing is stated of the result: any
/// `u16` may come.
#[verifier::external_body]
pub(crate) fn random_u16() -> u16 {
    rand::random()
}

/// The value `uuid::Uuid::parse_str` reads from a text, if it reads one.
pub uninterp spec fn uuid_parse(text: Seq<char>) -> Option<u128>;

/// Calls `uuid::Uuid::parse_str(text)` and takes the 128 bits of the UUID
/// it gives. Trusted: the result depends on the text alone (named
/// `uuid_parse`); which texts parse, and to what, is not stated here.
#[verifier::external_body]
pub(crate) fn parse_uuid(text: &str) -> (r: Option<u128>)
    ensures
        r == uuid_parse(text@),
{
    match uuid::Uuid::parse_str(text) {
        Ok(u) => Some(u.as_u128()),
        Err(_) => None,
    }
}

/// What a request message reads as: `None` when the text is not JSON;
/// otherwise the `action` text, and the `index` and `stack` numbers, each
/// when the message has it in that form.
pub uninterp spec fn request_fields(text: Seq<char>) -> Option<(Option<Seq<char>>, Option<u64>, Option<u64>)>;

/// The fields read from a request message, as texts and numbers.
pub open spec fn fields_view(r: Option<(Option<String>, Option<u64>, Option<u64>)>) -> Option<
    (Option<Seq<char>>, Option<u64>, Option<u64>),
> {
    match r {
        None => None,
        Some((Some(a), i, s)) => Some((Some(a@), i, s)),
        Some((None, i, s)) => Some((None, i, s)),
    }
}

/// Calls `serde_json::from_str::<serde_json::Value>(text)` and reads the
/// fields `action` (`as_str`), `index` and `stack` (`as_u64`). Trusted: the
/// result depends on the text alone (named `request_fields`).
#[verifier::external_body]
pub(crate) fn read_request(text: &str) -> (r: Option<(Option<String>, Option<u64>, Option<u64>)>)
    ensures
        fields_view(r) == request_fields(text@),
{
    let val: serde_json::Value = serde_json::from_str(text).ok()?;
    Some((
        val.get("action").and_then(|v| v.as_str()).map(|s| s.to_string()),
        val.get("index").and_then(|v| v.as_u64()),
        val.get("stack").and_then(|v| v.as_u64()),
    ))
}

} // verus!
