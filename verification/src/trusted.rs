//! The library's trusted boundary: small wrappers around the outside
//! crates the fixture generator relies on.  Verus believes each
//! wrapper's contract; everything else in the crate is proved.

use vstd::prelude::*;

verus! {

/// An ASCII letter or digit.
pub open spec fn is_ascii_alnum_char(c: char) -> bool {
    ('a' <= c && c <= 'z') || ('A' <= c && c <= 'Z') || ('0' <= c && c <= '9')
}

/// Relies on rand::random_ratio: true with probability
/// `numerator / denominator`.  Its documentation guarantees true when
/// the numerator equals the denominator and false when the numerator
/// is zero; it panics only for a zero denominator or a numerator above
/// the denominator, which the precondition excludes.
#[verifier::external_body]
pub(crate) fn random_ratio_bool(numerator: u32, denominator: u32) -> (r: bool)
    requires
        0 < denominator,
        numerator <= denominator,
    ensures
        numerator == denominator ==> r,
        numerator == 0 ==> !r,
{
    rand::random_ratio(numerator, denominator)
}

/// Relies on rand::random_range over a half-open usize range: a value
/// of the (nonempty) range; panics only on an empty range, which the
/// precondition excludes.
#[verifier::external_body]
pub(crate) fn random_usize_between(lo: usize, hi: usize) -> (r: usize)
    requires
        lo < hi,
    ensures
        lo <= r < hi,
{
    rand::random_range(lo..hi)
}

/// Relies on rand::distr::Alphanumeric through SampleString: a string
/// of exactly `len` characters drawn from a-z, A-Z and 0-9.
#[verifier::external_body]
pub(crate) fn random_alphanumeric_string(len: usize) -> (r: String)
    ensures
        r@.len() == len,
        forall|i: int| 0 <= i < r@.len() ==> is_ascii_alnum_char(#[trigger] r@[i]),
{
    rand::distr::SampleString::sample_string(&rand::distr::Alphanumeric, &mut rand::rng(), len)
}

/// Relies on uuid::Uuid::new_v4 and its Display form: the hyphenated
/// lower-case encoding of 36 characters.
#[verifier::external_body]
pub(crate) fn new_uuid_string() -> (r: String)
    ensures
        r@.len() == 36,
{
    uuid::Uuid::new_v4().to_string()
}

/// Relies on time::OffsetDateTime::now_utc, reduced to its unix
/// timestamp in seconds.  Nothing is promised of the clock's value.
#[verifier::external_body]
pub(crate) fn now_unix_seconds() -> (r: i64)
{
    time::OffsetDateTime::now_utc().unix_timestamp()
}

/// The RFC 3339 rendering of a UTC instant given in unix seconds.
pub uninterp spec fn rfc3339_of(unix_seconds: i64) -> Seq<char>;

/// Relies on time::OffsetDateTime::from_unix_timestamp and the RFC 3339
/// well-known format: the rendering depends on the timestamp alone, and
/// a whole-second UTC instant between the epoch and year 9999 renders
/// as the 20-character `YYYY-MM-DDThh:mm:ssZ` form, so neither call can
/// fail within the precondition's range.
#[verifier::external_body]
pub(crate) fn format_rfc3339_utc(unix_seconds: i64) -> (r: String)
    requires
        0 <= unix_seconds <= 253402300799,
    ensures
        r@ == rfc3339_of(unix_seconds),
        r@.len() == 20,
{
    let dt = time::OffsetDateTime::from_unix_timestamp(unix_seconds).unwrap();
    dt.format(&time::format_description::well_known::Rfc3339).unwrap()
}

/// What lipsum::lipsum_words renders for a word count.
pub uninterp spec fn lipsum_words_of(n: usize) -> Seq<char>;

/// Relies on lipsum::lipsum_words: the text is deterministically
/// sampled from the crate's bundled Markov chain, a function of the
/// word count alone.
#[verifier::external_body]
pub(crate) fn lipsum_words_string(n: usize) -> (r: String)
    ensures
        r@ == lipsum_words_of(n),
{
    lipsum::lipsum_words(n)
}

/// Relies on lipsum::lipsum_title for a short title-case text.  Nothing
/// is promised of it.
#[verifier::external_body]
pub(crate) fn lipsum_title_string() -> (r: String)
{
    lipsum::lipsum_title()
}

/// Relies on String::push: appends exactly the one character.
#[verifier::external_body]
pub(crate) fn push_char(s: &mut String, c: char)
    ensures
        final(s)@ == old(s)@.push(c),
{
    s.push(c)
}

} // verus!
