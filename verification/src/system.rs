//! Digests, versions, clocks and the other services of outside crates and of the
//! standard library that the commands rest on.

use vstd::prelude::*;

use sha2::Digest;

use crate::text::{decimal, hex_digit};

verus! {

/// The SHA-256 digest of a text in UTF-8.
pub uninterp spec fn sha256_of(text: Seq<char>) -> Seq<u8>;

/// `sha2::Sha256::digest` of the bytes of `text`: thirty-two bytes.
#[verifier::external_body]
pub(crate) fn sha256(text: &str) -> (r: Vec<u8>)
    ensures
        r@ == sha256_of(text@),
        r@.len() == 32,
{
    sha2::Sha256::digest(text.as_bytes()).to_vec()
}

/// Bytes in hexadecimal notation: two small digits for each.
pub open spec fn hex_of(bytes: Seq<u8>) -> Seq<char> {
    Seq::new(
        2 * bytes.len(),
        |i: int|
            hex_digit(
                if i % 2 == 0 {
                    bytes[i / 2] as int / 16
                } else {
                    bytes[i / 2] as int % 16
                },
            ),
    )
}

/// `hex::encode`: two small hexadecimal digits for each byte, the high one first.
#[verifier::external_body]
pub(crate) fn hex_encode(bytes: &Vec<u8>) -> (r: String)
    ensures
        r@ == hex_of(bytes@),
{
    hex::encode(bytes)
}

/// The first eight of some bytes, in hexadecimal notation.
pub open spec fn shortened(bytes: Seq<u8>) -> Seq<char> {
    hex_of(bytes.subrange(0, 8))
}

/// The first eight of the bytes `all`, in hexadecimal notation.
pub fn shorten_digest(all: &Vec<u8>) -> (r: String)
    requires
        all@.len() >= 8,
    ensures
        r@ == shortened(all@),
        r@.len() == 16,
{
    let mut first: Vec<u8> = Vec::new();
    let mut i: usize = 0;
    while i < 8
        invariant
            i <= 8,
            all@.len() >= 8,
            first@ == all@.subrange(0, i as int),
        decreases 8 - i,
    {
        first.push(all[i]);
        i += 1;
        assert(all@.subrange(0, i as int) =~= all@.subrange(0, i - 1).push(all@[i - 1]));
    }
    hex_encode(&first)
}

/// The short digest of a text: the first eight bytes of its SHA-256 digest, in
/// hexadecimal notation.
pub open spec fn short_digest(text: Seq<char>) -> Seq<char> {
    shortened(sha256_of(text))
}

/// The short digest of `text`.
pub fn digest(text: &str) -> (r: String)
    ensures
        r@ == short_digest(text@),
        r@.len() == 16,
{
    shorten_digest(&sha256(text))
}

/// Whether a text is a semantic version.
pub uninterp spec fn semver_valid(text: Seq<char>) -> bool;

/// `semver::Version::parse`: whether it succeeds.
#[verifier::external_body]
pub(crate) fn is_semver(text: &str) -> (r: bool)
    ensures
        r == semver_valid(text@),
{
    semver::Version::parse(text).is_ok()
}

/// How two semantic versions are ordered: below zero where the first is the
/// earlier one, zero where they are the same.
pub uninterp spec fn semver_order(left: Seq<char>, right: Seq<char>) -> int;

/// The order of `semver::Version`, a total order, of two versions: minus one, zero
/// or one. The other way round it is the negative, and no version comes before
/// itself.
#[verifier::external_body]
pub(crate) fn semver_compare(left: &str, right: &str) -> (r: i8)
    requires
        semver_valid(left@),
        semver_valid(right@),
    ensures
        r == semver_order(left@, right@),
        -1 <= r <= 1,
        semver_order(right@, left@) == -r,
        left@ == right@ ==> r == 0,
{
    match (semver::Version::parse(left), semver::Version::parse(right)) {
        (Ok(l), Ok(r)) => match l.cmp(&r) {
            std::cmp::Ordering::Less => -1,
            std::cmp::Ordering::Equal => 0,
            std::cmp::Ordering::Greater => 1,
        },
        _ => 0,
    }
}

/// A point in time: seconds since 1970, and nanoseconds beyond them.
#[derive(Debug, Clone, Copy, PartialEq, Eq, Structural)]
pub struct Timestamp {
    pub secs: i64,
    pub nanos: u32,
}

impl Timestamp {
    /// Whether the nanoseconds are fewer than a second has, and the time is within
    /// some millions of years of 1970.
    pub open spec fn valid(self) -> bool {
        self.nanos < 1_000_000_000 && -0x1_0000_0000_0000 <= self.secs <= 0x1_0000_0000_0000
    }

    /// The nanoseconds since 1970.
    pub open spec fn in_nanos(self) -> int {
        self.secs * 1_000_000_000 + self.nanos
    }

    /// The nanoseconds since 1970.
    pub fn as_nanos(&self) -> (r: i128)
        ensures
            r == self.in_nanos(),
    {
        self.secs as i128 * 1_000_000_000 + self.nanos as i128
    }
}

/// Whether `chrono` has a date for a number of seconds since 1970: those of the years from
/// -262143 to 262142.
pub open spec fn has_date(secs: int) -> bool {
    -8_334_601_228_800 <= secs <= 8_210_266_876_799
}

/// A number of two digits at least.
pub open spec fn two_digits(n: int) -> Seq<char> {
    if n < 10 {
        seq!['0'] + decimal(n)
    } else {
        decimal(n)
    }
}

/// The time of day of a number of seconds since 1970: hours, minutes and seconds.
pub open spec fn time_of_day(secs: int) -> Seq<char> {
    let t = secs % 86400;
    two_digits(t / 3600) + seq![':'] + two_digits(t / 60 % 60) + seq![':'] + two_digits(t % 60)
}

/// `chrono::DateTime::from_timestamp` and `format("%H:%M:%S")`: the time of day in
/// UTC, where `chrono` has a date for it.
#[verifier::external_body]
pub(crate) fn utc_time(secs: i64) -> (r: Option<String>)
    ensures
        r is Some <==> has_date(secs as int),
        r matches Some(text) ==> text@ == time_of_day(secs as int),
{
    let date = chrono::DateTime::<chrono::Utc>::from_timestamp(secs, 0)?;
    Some(date.format("%H:%M:%S").to_string())
}

/// A point in time in the notation of RFC 3339, or nothing where `chrono` has no
/// date for it.
pub uninterp spec fn rfc3339_of(secs: int, nanos: int) -> Option<Seq<char>>;

/// `chrono::DateTime::to_rfc3339` of the point in time that
/// `chrono::DateTime::from_timestamp` gives, in UTC.
#[verifier::external_body]
pub(crate) fn rfc3339(secs: i64, nanos: u32) -> (r: Option<String>)
    ensures
        crate::web::maybe(r) == rfc3339_of(secs as int, nanos as int),
{
    chrono::DateTime::<chrono::Utc>::from_timestamp(secs, nanos).map(|date| date.to_rfc3339())
}

/// `rand::random`: any number.
#[verifier::external_body]
pub(crate) fn random_number() -> (r: u32) {
    rand::random()
}

/// `std::time::SystemTime::now`, in nanoseconds since 1970, zero before that.
#[verifier::external_body]
pub(crate) fn system_nanos() -> (r: u128) {
    std::time::SystemTime::now()
        .duration_since(std::time::UNIX_EPOCH)
        .map_or(0, |since| since.as_nanos())
}

/// A character in capitals.
pub uninterp spec fn upper_of(c: char) -> Seq<char>;

/// `char::to_uppercase`: one character or more.
#[verifier::external_body]
pub(crate) fn to_upper(c: char) -> (r: String)
    ensures
        r@ == upper_of(c),
{
    c.to_uppercase().to_string()
}

/// Bytes as text, with a replacement character for what is not UTF-8.
pub uninterp spec fn lossy_of(bytes: Seq<u8>) -> Seq<char>;

/// `String::from_utf8_lossy`.
#[verifier::external_body]
pub(crate) fn from_utf8_lossy(bytes: &Vec<u8>) -> (r: String)
    ensures
        r@ == lossy_of(bytes@),
{
    String::from_utf8_lossy(bytes).into_owned()
}

/// A text in quotation marks, with escapes.
pub uninterp spec fn quoted_of(text: Seq<char>) -> Seq<char>;

/// The `Debug` notation of a string.
#[verifier::external_body]
pub(crate) fn quoted(text: &str) -> (r: String)
    ensures
        r@ == quoted_of(text@),
{
    format!("{:?}", text)
}

/// Each byte has two hexadecimal digits, the high one first.
pub proof fn law_bytes_in_hexadecimal_notation(bytes: Seq<u8>, i: int)
    requires
        0 <= i < bytes.len(),
    ensures
        hex_of(bytes).len() == 2 * bytes.len(),
        hex_of(bytes)[2 * i] == hex_digit(bytes[i] as int / 16),
        hex_of(bytes)[2 * i + 1] == hex_digit(bytes[i] as int % 16),
{
    assert((2 * i) / 2 == i && (2 * i) % 2 == 0);
    assert((2 * i + 1) / 2 == i && (2 * i + 1) % 2 == 1);
}

/// A digest is shortened to its first eight bytes; the others do not count.
pub proof fn law_short_digests(first: Seq<u8>, rest: Seq<u8>)
    requires
        first.len() == 8,
    ensures
        shortened(first + rest) == hex_of(first),
        shortened(first + rest).len() == 16,
{
    assert((first + rest).subrange(0, 8) =~= first);
}

/// The short digest of a text is made of the first eight bytes of its SHA-256 digest.
pub proof fn law_the_short_digest_of_a_text(text: Seq<char>, first: Seq<u8>, rest: Seq<u8>)
    requires
        sha256_of(text) == first + rest,
        first.len() == 8,
    ensures
        short_digest(text) == hex_of(first),
{
    law_short_digests(first, rest);
}

/// The time of day is that of the clock: hours, minutes and seconds of two digits each. It is
/// the same every day.
pub proof fn law_the_time_of_day(days: int, hours: int, minutes: int, seconds: int)
    requires
        0 <= hours < 24,
        0 <= minutes < 60,
        0 <= seconds < 60,
    ensures
        time_of_day(days * 86400 + hours * 3600 + minutes * 60 + seconds) == two_digits(hours)
            + seq![':'] + two_digits(minutes) + seq![':'] + two_digits(seconds),
{
    let t = hours * 3600 + minutes * 60 + seconds;
    assert((days * 86400 + t) % 86400 == t);
    assert(t / 3600 == hours);
    assert(t / 60 % 60 == minutes);
    assert(t % 60 == seconds);
}

/// A number below ten has a zero before it.
pub proof fn law_two_digits(n: int)
    requires
        0 <= n < 100,
    ensures
        two_digits(n) == seq![crate::text::digit(n / 10), crate::text::digit(n % 10)],
{
    reveal_with_fuel(decimal, 3);
    assert(two_digits(n) =~= seq![crate::text::digit(n / 10), crate::text::digit(n % 10)]);
}

} // verus!
