//! Lengths of time, and the notation that the configuration file uses for them.

use vstd::prelude::*;

use crate::text::{
    chars_of, decimal, digit, digits, is_digit, lemma_decimal, lemma_skip_from, skip_while, trim,
    trimmed,
};

verus! {

/// A length of time of whole nanoseconds.
#[derive(Debug, Clone, Copy, PartialEq, Eq, Structural)]
pub struct Duration {
    /// Whole seconds.
    pub secs: u64,
    /// Nanoseconds beyond them, fewer than a second has.
    pub nanos: u32,
}

impl Duration {
    /// Whether the nanoseconds are fewer than a second has.
    pub open spec fn valid(self) -> bool {
        self.nanos < 1_000_000_000
    }

    /// The length in nanoseconds.
    pub open spec fn in_nanos(self) -> int {
        self.secs * 1_000_000_000 + self.nanos
    }

    pub fn from_secs(secs: u64) -> (r: Self)
        ensures
            r.valid(),
            r.in_nanos() == secs * 1_000_000_000,
    {
        Duration { secs: secs, nanos: 0 }
    }

    pub fn from_millis(millis: u64) -> (r: Self)
        ensures
            r.valid(),
            r.in_nanos() == millis * 1_000_000,
    {
        Duration { secs: millis / 1000, nanos: (millis % 1000) as u32 * 1_000_000 }
    }

    pub fn from_micros(micros: u64) -> (r: Self)
        ensures
            r.valid(),
            r.in_nanos() == micros * 1_000,
    {
        Duration { secs: micros / 1_000_000, nanos: (micros % 1_000_000) as u32 * 1_000 }
    }

    pub fn from_nanos(nanos: u64) -> (r: Self)
        ensures
            r.valid(),
            r.in_nanos() == nanos,
    {
        Duration { secs: nanos / 1_000_000_000, nanos: (nanos % 1_000_000_000) as u32 }
    }

    /// The length in nanoseconds.
    pub fn as_nanos(&self) -> (r: u128)
        ensures
            r == self.in_nanos(),
    {
        self.secs as u128 * 1_000_000_000 + self.nanos as u128
    }
}

/// Why a text is not a length of time.
#[derive(Debug, Clone, Copy, PartialEq, Eq, Structural)]
pub enum DurationError {
    Empty,
    Negative,
    MissingNumber,
    MissingUnit,
    OutOfRange,
}

impl DurationError {
    /// What is wrong, in words.
    pub open spec fn text(self) -> Seq<char> {
        match self {
            DurationError::Empty => "duration is empty"@,
            DurationError::Negative => "negative durations are not supported"@,
            DurationError::MissingNumber => "duration segment is missing a number"@,
            DurationError::MissingUnit => "duration segment is missing a unit"@,
            DurationError::OutOfRange =>
                "duration is out of range: cannot convert float seconds to Duration: value is either too big or NaN"@,
        }
    }

    /// What is wrong, in words.
    pub fn message(&self) -> (r: String)
        ensures
            r@ == self.text(),
    {
        match self {
            DurationError::Empty => "duration is empty".to_owned(),
            DurationError::Negative => "negative durations are not supported".to_owned(),
            DurationError::MissingNumber => "duration segment is missing a number".to_owned(),
            DurationError::MissingUnit => "duration segment is missing a unit".to_owned(),
            DurationError::OutOfRange =>
                "duration is out of range: cannot convert float seconds to Duration: value is either too big or NaN".to_owned(),
        }
    }
}

/// Where the number that starts at `i` ends: digits, at least one, with at most
/// one point before, between or behind them. It ends at `i` where none starts.
pub open spec fn number_end(s: Seq<char>, i: int) -> int {
    let a = skip_while(s, digits(), i);
    if 0 <= a < s.len() && s[a] == '.' {
        let b = skip_while(s, digits(), a + 1);
        if a > i || b > a + 1 {
            b
        } else {
            i
        }
    } else {
        a
    }
}

/// The unit that stands at `i`: how many characters it has and how many
/// nanoseconds it stands for.
pub open spec fn unit_at(s: Seq<char>, i: int) -> Option<(int, int)> {
    let c = if i < s.len() {
        s[i]
    } else {
        ' '
    };
    let d = if i + 1 < s.len() {
        s[i + 1]
    } else {
        ' '
    };
    if c == 'n' && d == 's' {
        Some((2, 1))
    } else if (c == 'u' || c == '\u{b5}' || c == '\u{3bc}') && d == 's' {
        Some((2, 1_000))
    } else if c == 'm' && d == 's' {
        Some((2, 1_000_000))
    } else if c == 's' {
        Some((1, 1_000_000_000))
    } else if c == 'm' {
        Some((1, 60_000_000_000))
    } else if c == 'h' {
        Some((1, 3_600_000_000_000))
    } else {
        None
    }
}

/// The number that the digits from `i` to `j` denote.
pub open spec fn whole(s: Seq<char>, i: int, j: int) -> int
    decreases j - i,
{
    if j <= i {
        0
    } else {
        whole(s, i, j - 1) * 10 + (s[j - 1] as int - '0' as int)
    }
}

/// The fraction that the digits from `i` to `j` denote, the first of them with
/// the weight `weight`; digits whose weight is below one do not count.
pub open spec fn fraction(s: Seq<char>, i: int, j: int, weight: int) -> int
    decreases j - i,
{
    if j <= i || weight <= 0 {
        0
    } else {
        (s[i] as int - '0' as int) * weight + fraction(s, i + 1, j, weight / 10)
    }
}

/// The weight of the first digit behind the point, in units of the eighteenth.
pub open spec fn tenth() -> int {
    100_000_000_000_000_000
}

/// The length of a segment in attoseconds: the number from `i` to `j`, to
/// eighteen decimal places, times a unit of `unit` nanoseconds.
pub open spec fn segment(s: Seq<char>, i: int, j: int, unit: int) -> int {
    let a = skip_while(s, digits(), i);
    whole(s, i, a) * (unit * 1_000_000_000) + fraction(s, a + 1, j, tenth()) * unit / 1_000_000_000
}

/// The sum of the segments of `s` from index `i` on, in attoseconds.
pub open spec fn total(s: Seq<char>, i: int) -> Result<int, DurationError>
    decreases s.len() - i,
{
    if i < 0 || i >= s.len() {
        Ok(0)
    } else {
        let e = number_end(s, i);
        if e == i {
            Err(DurationError::MissingNumber)
        } else {
            match unit_at(s, e) {
                None => Err(DurationError::MissingUnit),
                Some(u) => {
                    proof {
                        lemma_number_end(s, i);
                    }
                    match total(s, e + u.0) {
                        Err(e2) => Err(e2),
                        Ok(rest) => Ok(segment(s, i, e, u.1) + rest),
                    }
                },
            }
        }
    }
}

pub proof fn lemma_number_end(s: Seq<char>, i: int)
    requires
        0 <= i <= s.len(),
    ensures
        i <= number_end(s, i) <= s.len(),
{
    crate::text::lemma_skip_while(s, digits(), i);
    let a = skip_while(s, digits(), i);
    if a < s.len() {
        crate::text::lemma_skip_while(s, digits(), a + 1);
    }
}

/// Attoseconds as nanoseconds: the nearest, and the even one of two.
pub open spec fn nearest_nanos(attos: int) -> int {
    let q = attos / 1_000_000_000;
    let r = attos % 1_000_000_000;
    if r > 500_000_000 || (r == 500_000_000 && q % 2 == 1) {
        q + 1
    } else {
        q
    }
}

/// The number of nanoseconds from which on a length is out of range.
pub open spec fn nanos_limit() -> int {
    18_446_744_073_709_551_616_000_000_000
}

/// The length of time in nanoseconds that a text denotes: numbers, each with a
/// unit, whose sum counts.
pub open spec fn duration_of(text: Seq<char>) -> Result<int, DurationError> {
    let s = trimmed(text);
    if s.len() == 0 {
        Err(DurationError::Empty)
    } else if s[0] == '-' && s.len() > 1 {
        Err(DurationError::Negative)
    } else {
        let start: int = if s[0] == '+' {
            1
        } else {
            0
        };
        match total(s, start) {
            Err(e) => Err(e),
            Ok(attos) => if nearest_nanos(attos) < nanos_limit() {
                Ok(nearest_nanos(attos))
            } else {
                Err(DurationError::OutOfRange)
            },
        }
    }
}

/// Where the digits that start at `from` end.
fn skip_digits(chars: &Vec<char>, from: usize) -> (r: usize)
    requires
        from <= chars@.len(),
    ensures
        r == skip_while(chars@, digits(), from as int),
        from <= r <= chars@.len(),
        forall|k: int| from <= k < r ==> is_digit(#[trigger] chars@[k]),
{
    let mut i: usize = from;
    while i < chars.len() && '0' <= chars[i] && chars[i] <= '9'
        invariant
            from <= i <= chars@.len(),
            skip_while(chars@, digits(), from as int) == skip_while(chars@, digits(), i as int),
            forall|k: int| from <= k < i ==> is_digit(#[trigger] chars@[k]),
        decreases chars@.len() - i,
    {
        i += 1;
    }
    i
}

/// Where the number that starts at `from` ends.
pub fn duration_number_len(chars: &Vec<char>, from: usize) -> (r: usize)
    requires
        from <= chars@.len(),
    ensures
        r == number_end(chars@, from as int),
        from <= r <= chars@.len(),
{
    let a = skip_digits(chars, from);
    if a < chars.len() && chars[a] == '.' {
        let b = skip_digits(chars, a + 1);
        if a > from || b > a + 1 {
            b
        } else {
            from
        }
    } else {
        a
    }
}

/// The unit that stands at `from`: its characters and its nanoseconds.
pub fn take_duration_unit(chars: &Vec<char>, from: usize) -> (r: Option<(usize, u64)>)
    requires
        from <= chars@.len(),
    ensures
        match r {
            Some(u) => unit_at(chars@, from as int) == Some((u.0 as int, u.1 as int)) && 1 <= u.0
                && from + u.0 <= chars@.len() && 1 <= u.1 <= 3_600_000_000_000,
            None => unit_at(chars@, from as int) is None,
        },
{
    let c: char = if from < chars.len() {
        chars[from]
    } else {
        ' '
    };
    let d: char = if from < chars.len() && 1 < chars.len() - from {
        chars[from + 1]
    } else {
        ' '
    };
    if c == 'n' && d == 's' {
        Some((2, 1))
    } else if (c == 'u' || c == '\u{b5}' || c == '\u{3bc}') && d == 's' {
        Some((2, 1_000))
    } else if c == 'm' && d == 's' {
        Some((2, 1_000_000))
    } else if c == 's' {
        Some((1, 1_000_000_000))
    } else if c == 'm' {
        Some((1, 60_000_000_000))
    } else if c == 'h' {
        Some((1, 3_600_000_000_000))
    } else {
        None
    }
}

/// The attoseconds of a whole duration from which on it is out of range.
const LIMIT: u128 = 18_446_744_073_709_551_616_000_000_000_000_000_000;

/// The number that the digits from `from` to `to` denote, or a number from
/// `LIMIT` on where it is that large.
fn whole_number(chars: &Vec<char>, from: usize, to: usize) -> (r: u128)
    requires
        from <= to <= chars@.len(),
        forall|k: int| from <= k < to ==> is_digit(#[trigger] chars@[k]),
    ensures
        r < LIMIT ==> r == whole(chars@, from as int, to as int),
        r >= LIMIT ==> whole(chars@, from as int, to as int) >= LIMIT,
{
    let mut value: u128 = 0;
    let mut i: usize = from;
    while i < to
        invariant
            from <= i <= to <= chars@.len(),
            forall|k: int| from <= k < to ==> is_digit(#[trigger] chars@[k]),
            value < LIMIT ==> value == whole(chars@, from as int, i as int),
            value >= LIMIT ==> whole(chars@, from as int, i as int) >= LIMIT,
            value <= LIMIT * 10,
        decreases to - i,
    {
        assert(is_digit(chars@[i as int]));
        let d: u128 = chars[i] as u128 - 48;
        if value < LIMIT {
            value = value * 10 + d;
        }
        i += 1;
        assert(whole(chars@, from as int, i as int) == whole(chars@, from as int, i - 1) * 10 + d);
    }
    value
}

/// The fraction that the digits from `from` to `to` denote, to eighteen places.
fn fraction_number(chars: &Vec<char>, from: usize, to: usize) -> (r: u128)
    requires
        from <= to <= chars@.len(),
        forall|k: int| from <= k < to ==> is_digit(#[trigger] chars@[k]),
    ensures
        r == fraction(chars@, from as int, to as int, tenth()),
        r < 1_000_000_000_000_000_000,
{
    let mut value: u128 = 0;
    let mut weight: u128 = 100_000_000_000_000_000;
    let mut i: usize = from;
    while i < to && weight > 0
        invariant
            from <= i <= to <= chars@.len(),
            forall|k: int| from <= k < to ==> is_digit(#[trigger] chars@[k]),
            value + fraction(chars@, i as int, to as int, weight as int) == fraction(
                chars@,
                from as int,
                to as int,
                tenth(),
            ),
            weight > 0 ==> value + weight * 10 <= 1_000_000_000_000_000_000,
            weight == 0 ==> value < 1_000_000_000_000_000_000,
            weight <= 100_000_000_000_000_000,
        decreases to - i,
    {
        assert(is_digit(chars@[i as int]));
        let d: u128 = chars[i] as u128 - 48;
        assert(d <= 9);
        assert(d * weight <= 9 * weight) by (nonlinear_arith)
            requires
                0 <= d <= 9,
                0 <= weight,
        ;
        value = value + d * weight;
        weight = weight / 10;
        i += 1;
    }
    value
}

proof fn lemma_fraction_nonnegative(s: Seq<char>, i: int, j: int, weight: int)
    requires
        0 <= i,
        j <= s.len(),
        forall|k: int| i <= k < j ==> is_digit(#[trigger] s[k]),
    ensures
        fraction(s, i, j, weight) >= 0,
    decreases j - i,
{
    if j > i && weight > 0 {
        lemma_fraction_nonnegative(s, i + 1, j, weight / 10);
        assert(is_digit(s[i]));
        let d = s[i] as int - '0' as int;
        assert(d * weight >= 0) by (nonlinear_arith)
            requires
                d >= 0,
                weight > 0,
        ;
    }
}

proof fn lemma_whole_nonnegative(s: Seq<char>, i: int, j: int)
    requires
        0 <= i,
        j <= s.len(),
        forall|k: int| i <= k < j ==> is_digit(#[trigger] s[k]),
    ensures
        whole(s, i, j) >= 0,
    decreases j - i,
{
    if j > i {
        lemma_whole_nonnegative(s, i, j - 1);
        assert(is_digit(s[j - 1]));
    }
}

proof fn lemma_segment_nonnegative(s: Seq<char>, i: int, unit: int)
    requires
        0 <= i < s.len(),
        unit >= 1,
    ensures
        segment(s, i, number_end(s, i), unit) >= 0,
{
    let a = skip_while(s, digits(), i);
    let e = number_end(s, i);
    crate::text::lemma_skip_while(s, digits(), i);
    lemma_whole_nonnegative(s, i, a);
    if a < s.len() {
        crate::text::lemma_skip_while(s, digits(), a + 1);
    }
    lemma_fraction_nonnegative(s, a + 1, e, tenth());
    let w = whole(s, i, a);
    let f = fraction(s, a + 1, e, tenth());
    assert(w * (unit * 1_000_000_000) >= 0) by (nonlinear_arith)
        requires
            w >= 0,
            unit >= 1,
    ;
    assert(f * unit >= 0) by (nonlinear_arith)
        requires
            f >= 0,
            unit >= 1,
    ;
}

proof fn lemma_total_nonnegative(s: Seq<char>, i: int)
    requires
        0 <= i,
    ensures
        total(s, i) matches Ok(t) ==> t >= 0,
    decreases s.len() - i,
{
    if i < s.len() {
        let e = number_end(s, i);
        lemma_number_end(s, i);
        if e != i && unit_at(s, e) is Some {
            let u = unit_at(s, e)->0;
            lemma_segment_nonnegative(s, i, u.1);
            lemma_total_nonnegative(s, e + u.0);
        }
    }
}

proof fn lemma_digits_end(s: Seq<char>, i: int, e: int)
    requires
        0 <= i <= e < s.len(),
        forall|k: int| i <= k < e ==> is_digit(#[trigger] s[k]),
        !is_digit(s[e]),
    ensures
        skip_while(s, digits(), i) == e,
    decreases e - i,
{
    if i < e {
        assert(is_digit(s[i]));
        lemma_digits_end(s, i + 1, e);
    }
}

proof fn lemma_whole(s: Seq<char>, i: int, n: int)
    requires
        0 <= i,
        0 <= n,
        i + decimal(n).len() <= s.len(),
        s.subrange(i, i + decimal(n).len()) == decimal(n),
    ensures
        whole(s, i, i + decimal(n).len()) == n,
    decreases n,
{
    let e = i + decimal(n).len();
    assert(s[e - 1] == decimal(n)[e - 1 - i]);
    if n < 10 {
        assert(whole(s, i, e - 1) == 0);
    } else {
        assert(s.subrange(i, e - 1) =~= decimal(n / 10)) by {
            assert(decimal(n).subrange(0, decimal(n).len() - 1) =~= decimal(n / 10));
            assert(s.subrange(i, e - 1) =~= s.subrange(i, e).subrange(0, e - 1 - i));
        }
        lemma_whole(s, i, n / 10);
    }
}

/// What a whole number with the unit of an hour, a minute or a second adds to a length.
pub proof fn lemma_total_step(s: Seq<char>, i: int, n: int, unit: char)
    requires
        0 <= i,
        0 <= n,
        i + decimal(n).len() < s.len(),
        s.subrange(i, i + decimal(n).len()) == decimal(n),
        s[i + decimal(n).len()] == unit,
        unit == 'h' || unit == 'm' || unit == 's',
        i + decimal(n).len() + 1 < s.len() ==> is_digit(s[i + decimal(n).len() + 1]),
    ensures
        total(s, i + decimal(n).len() + 1) matches Ok(rest) ==> total(s, i) == Ok::<
            int,
            DurationError,
        >(
            n * (if unit == 'h' {
                3_600_000_000_000_000_000_000int
            } else if unit == 'm' {
                60_000_000_000_000_000_000
            } else {
                1_000_000_000_000_000_000
            }) + rest,
        ),
{
    let e = i + decimal(n).len();
    lemma_decimal(n);
    assert forall|k: int| i <= k < e implies is_digit(#[trigger] s[k]) by {
        assert(s[k] == s.subrange(i, e)[k - i]);
        assert(is_digit(decimal(n)[k - i]));
    }
    lemma_digits_end(s, i, e);
    lemma_whole(s, i, n);
    assert(number_end(s, i) == e);
    assert(fraction(s, e + 1, e, tenth()) == 0);
}

/// The length of the segment with the number from `from` to `to` and a unit of
/// `unit` nanoseconds, in attoseconds, or `LIMIT` where it is that long.
fn segment_attos(chars: &Vec<char>, from: usize, to: usize, unit: u64) -> (r: u128)
    requires
        from < chars@.len(),
        to == number_end(chars@, from as int),
        from < to <= chars@.len(),
        1 <= unit <= 3_600_000_000_000,
    ensures
        r <= LIMIT,
        r < LIMIT ==> r == segment(chars@, from as int, to as int, unit as int),
        r == LIMIT ==> segment(chars@, from as int, to as int, unit as int) >= LIMIT,
{
    let a = skip_digits(chars, from);
    let w = whole_number(chars, from, a);
    let f: u128 = if a < to {
        proof {
            crate::text::lemma_skip_while(chars@, digits(), a + 1);
        }
        fraction_number(chars, a + 1, to)
    } else {
        0
    };
    let ghost w0 = whole(chars@, from as int, a as int);
    let per: u128 = unit as u128 * 1_000_000_000;
    assert(f * unit <= 1_000_000_000_000_000_000 * 3_600_000_000_000) by (nonlinear_arith)
        requires
            0 <= f <= 1_000_000_000_000_000_000,
            0 <= unit <= 3_600_000_000_000,
    ;
    let fine: u128 = f * unit as u128 / 1_000_000_000;
    if w >= LIMIT || w > LIMIT / per {
        assert(w0 * per >= LIMIT) by (nonlinear_arith)
            requires
                w0 >= LIMIT || (w0 == w && w > LIMIT / per),
                per >= 1,
        ;
        return LIMIT;
    }
    assert(w * per <= LIMIT) by (nonlinear_arith)
        requires
            w <= LIMIT / per,
            per >= 1,
            w >= 0,
    ;
    let sum: u128 = w * per + fine;
    if sum >= LIMIT {
        LIMIT
    } else {
        sum
    }
}

/// The length of time that `value` denotes.
pub fn parse_duration(value: &str) -> (r: Result<Duration, DurationError>)
    ensures
        match r {
            Ok(d) => d.valid() && duration_of(value@) == Ok::<int, DurationError>(d.in_nanos()),
            Err(e) => duration_of(value@) == Err::<int, DurationError>(e),
        },
{
    let trimmed_value = trim(value);
    let chars = chars_of(trimmed_value.as_str());
    let ghost s = trimmed(value@);
    if chars.len() == 0 {
        return Err(DurationError::Empty);
    }
    if chars[0] == '-' && chars.len() > 1 {
        return Err(DurationError::Negative);
    }
    let start: usize = if chars[0] == '+' {
        1
    } else {
        0
    };
    let mut i: usize = start;
    let mut sum: u128 = 0;
    proof {
        lemma_total_nonnegative(s, start as int);
    }
    while i < chars.len()
        invariant
            chars@ == s,
            s == trimmed(value@),
            s.len() > 0,
            !(s[0] == '-' && s.len() > 1),
            start == (if s[0] == '+' {
                1int
            } else {
                0
            }),
            start <= i <= chars@.len(),
            sum <= LIMIT,
            match total(s, start as int) {
                Err(e) => total(s, i as int) == Err::<int, DurationError>(e),
                Ok(t) => total(s, i as int) is Ok && {
                    let rest = total(s, i as int)->Ok_0;
                    &&& rest >= 0
                    &&& sum < LIMIT ==> t == sum + rest
                    &&& sum == LIMIT ==> t >= LIMIT
                },
            },
        decreases chars@.len() - i,
    {
        let e = duration_number_len(&chars, i);
        if e == i {
            return Err(DurationError::MissingNumber);
        }
        match take_duration_unit(&chars, e) {
            None => {
                return Err(DurationError::MissingUnit);
            },
            Some((len, unit)) => {
                let part = segment_attos(&chars, i, e, unit);
                proof {
                    lemma_total_nonnegative(s, e + len);
                }
                if part >= LIMIT || LIMIT - part <= sum {
                    sum = LIMIT;
                } else {
                    sum = sum + part;
                }
                i = e + len;
            },
        }
    }
    let q: u128 = sum / 1_000_000_000;
    let rest: u128 = sum % 1_000_000_000;
    let nanos: u128 = if rest > 500_000_000 || (rest == 500_000_000 && q % 2 == 1) {
        q + 1
    } else {
        q
    };
    if nanos >= 18_446_744_073_709_551_616_000_000_000 {
        return Err(DurationError::OutOfRange);
    }
    Ok(Duration { secs: (nanos / 1_000_000_000) as u64, nanos: (nanos % 1_000_000_000) as u32 })
}

/// Whether a text is a unit of a number of nanoseconds.
pub open spec fn is_unit(unit: Seq<char>, nanos: int) -> bool {
    ||| unit == seq!['n', 's'] && nanos == 1
    ||| (unit == seq!['u', 's'] || unit == seq!['\u{b5}', 's'] || unit == seq!['\u{3bc}', 's'])
        && nanos == 1_000
    ||| unit == seq!['m', 's'] && nanos == 1_000_000
    ||| unit == seq!['s'] && nanos == 1_000_000_000
    ||| unit == seq!['m'] && nanos == 60_000_000_000
    ||| unit == seq!['h'] && nanos == 3_600_000_000_000
}

proof fn lemma_unit_at(front: Seq<char>, unit: Seq<char>, nanos: int, back: Seq<char>)
    requires
        is_unit(unit, nanos),
        back.len() > 0 ==> is_digit(back[0]) || back[0] == '.',
    ensures
        unit_at(front + unit + back, front.len() as int) == Some((unit.len() as int, nanos)),
        !is_digit(unit[0]),
        unit[0] != '.',
        unit.len() >= 1,
        unit.last() == 's' || unit.last() == 'm' || unit.last() == 'h',
{
    let s = front + unit + back;
    let i = front.len() as int;
    assert(s[i] == unit[0]);
    if unit.len() == 2 {
        assert(s[i + 1] == unit[1]);
    } else if back.len() > 0 {
        assert(s[i + 1] == back[0]);
    }
}

/// What a whole number with its unit adds to a length, in whatever comes behind it.
proof fn lemma_segment(
    s: Seq<char>,
    i: int,
    n: int,
    unit: Seq<char>,
    nanos: int,
    back: Seq<char>,
    front: Seq<char>,
)
    requires
        0 <= n,
        is_unit(unit, nanos),
        s == front + decimal(n) + unit + back,
        i == front.len(),
        back.len() > 0 ==> is_digit(back[0]) || back[0] == '.',
    ensures
        total(s, i) == (match total(s, i + decimal(n).len() + unit.len()) {
            Ok(rest) => Ok::<int, DurationError>(n * (nanos * 1_000_000_000) + rest),
            Err(e) => Err(e),
        }),
{
    let e = i + decimal(n).len();
    lemma_decimal(n);
    lemma_unit_at(front + decimal(n), unit, nanos, back);
    assert(s[e] == unit[0]);
    assert forall|k: int| i <= k < e implies is_digit(#[trigger] s[k]) by {
        assert(s[k] == decimal(n)[k - i]);
        assert(is_digit(decimal(n)[k - i]));
    }
    lemma_digits_end(s, i, e);
    assert(s.subrange(i, e) =~= decimal(n));
    lemma_whole(s, i, n);
    assert(number_end(s, i) == e);
    assert(fraction(s, e + 1, e, tenth()) == 0);
    assert(0 * nanos / 1_000_000_000 == 0);
}

/// A whole number with a unit is a length of as many times the unit, up to the range.
pub proof fn law_the_length_of_a_number_with_a_unit(n: int, unit: Seq<char>, nanos: int)
    requires
        0 <= n,
        is_unit(unit, nanos),
    ensures
        n * nanos < 18_446_744_073_709_551_616_000_000_000 ==> duration_of(decimal(n) + unit)
            == Ok::<int, DurationError>(n * nanos),
        n * nanos >= 18_446_744_073_709_551_616_000_000_000 ==> duration_of(decimal(n) + unit)
            == Err::<int, DurationError>(DurationError::OutOfRange),
        duration_of(seq!['+'] + decimal(n) + unit) == duration_of(decimal(n) + unit),
{
    let s = decimal(n) + unit;
    let empty = Seq::<char>::empty();
    lemma_decimal(n);
    lemma_unit_at(decimal(n), unit, nanos, empty);
    assert(s =~= empty + decimal(n) + unit + empty);
    lemma_segment(s, 0, n, unit, nanos, empty, empty);
    assert(is_digit(decimal(n)[0]));
    assert(s[0] == decimal(n)[0]);
    assert(s.last() == unit.last());
    crate::text::lemma_trimmed_already(s);
    assert(n * (nanos * 1_000_000_000) == (n * nanos) * 1_000_000_000) by (nonlinear_arith);
    let plus = seq!['+'] + decimal(n) + unit;
    assert(plus =~= seq!['+'] + decimal(n) + unit + empty);
    assert(plus.last() == unit.last());
    crate::text::lemma_trimmed_already(plus);
    lemma_segment(plus, 1, n, unit, nanos, empty, seq!['+']);
}

/// A number with one or two digits behind the point is that part of the unit.
pub proof fn law_the_length_of_a_fraction(n: int, d: int, c: int, unit: Seq<char>, nanos: int)
    requires
        0 <= n,
        0 <= d <= 9,
        0 <= c <= 9,
        is_unit(unit, nanos),
        nanos >= 1_000,
        (n + 1) * nanos < 18_446_744_073_709_551_616_000_000_000,
    ensures
        duration_of(decimal(n) + seq!['.', digit(d), digit(c)] + unit) == Ok::<int, DurationError>(
            n * nanos + (10 * d + c) * (nanos / 100),
        ),
{
    let s = decimal(n) + seq!['.', digit(d), digit(c)] + unit;
    let empty = Seq::<char>::empty();
    let front = decimal(n) + seq!['.', digit(d), digit(c)];
    lemma_decimal(n);
    lemma_unit_at(front, unit, nanos, empty);
    assert(s =~= front + unit + empty);
    let a = decimal(n).len() as int;
    let e = a + 3;
    assert(s[a] == '.');
    assert(s[a + 1] == digit(d));
    assert(s[a + 2] == digit(c));
    assert(s[e] == unit[0]);
    assert forall|k: int| 0 <= k < a implies is_digit(#[trigger] s[k]) by {
        assert(s[k] == decimal(n)[k]);
        assert(is_digit(decimal(n)[k]));
    }
    lemma_digits_end(s, 0, a);
    assert forall|k: int| a + 1 <= k < e implies is_digit(#[trigger] s[k]) by {
        if k == a + 1 {
            assert(is_digit(digit(d)));
        } else {
            assert(is_digit(digit(c)));
        }
    }
    lemma_digits_end(s, a + 1, e);
    assert(number_end(s, 0) == e);
    assert(s.subrange(0, a) =~= decimal(n));
    lemma_whole(s, 0, n);
    reveal_with_fuel(fraction, 4);
    let f = fraction(s, a + 1, e, tenth());
    assert(f == d * 100_000_000_000_000_000 + c * 10_000_000_000_000_000);
    assert(is_digit(decimal(n)[0]));
    assert(s[0] == decimal(n)[0]);
    assert(s.last() == unit.last());
    crate::text::lemma_trimmed_already(s);
    assert(total(s, s.len() as int) == Ok::<int, DurationError>(0));
    let part = (10 * d + c) * (nanos / 100);
    let h = nanos / 100;
    assert(nanos == 100 * h);
    let k = 10 * d + c;
    assert(f == k * 10_000_000_000_000_000);
    assert(f * nanos == (k * h) * 1_000_000_000_000_000_000) by (nonlinear_arith)
        requires
            f == k * 10_000_000_000_000_000,
            nanos == 100 * h,
    ;
    assert(f * nanos / 1_000_000_000 == (k * h) * 1_000_000_000);
    assert(n * (nanos * 1_000_000_000) == (n * nanos) * 1_000_000_000) by (nonlinear_arith);
    assert(k * h <= 99 * h) by (nonlinear_arith)
        requires
            0 <= k <= 99,
            h >= 0,
    ;
    assert((n + 1) * nanos == n * nanos + nanos) by (nonlinear_arith);
    let attos = (n * nanos + part) * 1_000_000_000;
    assert(nearest_nanos(attos) == n * nanos + part);
}

proof fn lemma_whole_shift(s: Seq<char>, t: Seq<char>, i: int, k: int, n: int)
    requires
        0 <= n,
        0 <= i,
        0 <= k,
        forall|m: int| i <= m < i + n ==> #[trigger] s[m] == t[m - i + k],
    ensures
        whole(s, i, i + n) == whole(t, k, k + n),
    decreases n,
{
    if n > 0 {
        lemma_whole_shift(s, t, i, k, n - 1);
        assert(s[i + n - 1] == t[k + n - 1]);
    }
}

proof fn lemma_fraction_shift(s: Seq<char>, t: Seq<char>, i: int, k: int, n: int, weight: int)
    requires
        0 <= i,
        0 <= k,
        forall|m: int| i <= m < i + n ==> #[trigger] s[m] == t[m - i + k],
    ensures
        fraction(s, i, i + n, weight) == fraction(t, k, k + n, weight),
    decreases n,
{
    if n > 0 && weight > 0 {
        assert(s[i] == t[k]);
        lemma_fraction_shift(s, t, i + 1, k + 1, n - 1, weight / 10);
    }
}

proof fn lemma_total_shift(s: Seq<char>, t: Seq<char>, i: int, k: int)
    requires
        0 <= i <= s.len(),
        0 <= k <= t.len(),
        s.skip(i) == t.skip(k),
    ensures
        total(s, i) == total(t, k),
    decreases s.len() - i,
{
    assert(s.skip(i).len() == s.len() - i);
    assert(t.skip(k).len() == t.len() - k);
    let d = i - k;
    assert forall|m: int| i <= m < s.len() implies #[trigger] s[m] == t[m - d] by {
        assert(s.skip(i)[m - i] == s[m]);
        assert(t.skip(k)[m - i] == t[m - d]);
    }
    if i < s.len() {
        lemma_number_end(s, i);
        crate::text::lemma_skip_while(s, digits(), i);
        lemma_skip_from(s, t, digits(), i, k);
        let a = skip_while(s, digits(), i);
        let e = number_end(s, i);
        if a < s.len() {
            assert(s[a] == t[a - d]);
            crate::text::lemma_skip_while(s, digits(), a + 1);
            assert(s.skip(a + 1) =~= s.skip(i).skip(a + 1 - i));
            assert(t.skip(a + 1 - d) =~= t.skip(k).skip(a + 1 - i));
            lemma_skip_from(s, t, digits(), a + 1, a + 1 - d);
        }
        assert(number_end(t, k) == e - d);
        if e < s.len() {
            assert(s[e] == t[e - d]);
        }
        if e + 1 < s.len() {
            assert(s[e + 1] == t[e + 1 - d]);
        }
        assert(unit_at(s, e) == unit_at(t, e - d));
        if e != i && unit_at(s, e) is Some {
            let u = unit_at(s, e)->0;
            lemma_whole_shift(s, t, i, k, a - i);
            lemma_fraction_shift(s, t, a + 1, a + 1 - d, e - (a + 1), tenth());
            assert(segment(s, i, e, u.1) == segment(t, k, e - d, u.1));
            assert(s.skip(e + u.0) =~= s.skip(i).skip(e + u.0 - i));
            assert(t.skip(e + u.0 - d) =~= t.skip(k).skip(e + u.0 - i));
            lemma_total_shift(s, t, e + u.0, e + u.0 - d);
        }
    }
}

/// A length with another one behind it is the sum of both, in attoseconds.
pub proof fn law_lengths_add_up(n: int, unit: Seq<char>, nanos: int, back: Seq<char>)
    requires
        0 <= n,
        is_unit(unit, nanos),
        back.len() > 0,
        is_digit(back[0]) || back[0] == '.',
    ensures
        total(back, 0) matches Ok(rest) ==> total(decimal(n) + unit + back, 0) == Ok::<
            int,
            DurationError,
        >(n * (nanos * 1_000_000_000) + rest),
        total(back, 0) matches Err(e) ==> total(decimal(n) + unit + back, 0) == Err::<
            int,
            DurationError,
        >(e),
{
    let s = decimal(n) + unit + back;
    let empty = Seq::<char>::empty();
    assert(s =~= empty + decimal(n) + unit + back);
    lemma_segment(s, 0, n, unit, nanos, back, empty);
    let at = decimal(n).len() + unit.len();
    assert(s.skip(at as int) =~= back.skip(0));
    lemma_total_shift(s, back, at as int, 0);
}

/// Nothing, something negative, a number without a unit and a unit without a number are no
/// lengths.
pub proof fn law_what_is_no_length(text: Seq<char>, n: int)
    requires
        0 <= n,
    ensures
        trimmed(text).len() == 0 ==> duration_of(text) == Err::<int, DurationError>(
            DurationError::Empty,
        ),
        trimmed(text).len() > 1 && trimmed(text)[0] == '-' ==> duration_of(text) == Err::<
            int,
            DurationError,
        >(DurationError::Negative),
        trimmed(text).len() > 0 && !is_digit(trimmed(text)[0]) && trimmed(text)[0] != '.'
            && trimmed(text)[0] != '+' && trimmed(text)[0] != '-' ==> duration_of(text) == Err::<
            int,
            DurationError,
        >(DurationError::MissingNumber),
        duration_of(decimal(n)) == Err::<int, DurationError>(DurationError::MissingUnit),
{
    let s = decimal(n);
    lemma_decimal(n);
    assert(is_digit(s[0]) && is_digit(s[s.len() - 1]));
    crate::text::lemma_trimmed_already(s);
    crate::text::lemma_skip_while(s, digits(), 0);
    let a = skip_while(s, digits(), 0);
    if a < s.len() {
        assert(is_digit(s[a]));
    }
    assert(number_end(s, 0) == s.len());
}

/// Lengths are whole nanoseconds: the nearest one counts.
pub proof fn law_lengths_are_whole_nanoseconds(nanos: int, rest: int)
    requires
        0 <= nanos,
        0 <= rest < 1_000_000_000,
    ensures
        rest < 500_000_000 ==> nearest_nanos(nanos * 1_000_000_000 + rest) == nanos,
        rest > 500_000_000 ==> nearest_nanos(nanos * 1_000_000_000 + rest) == nanos + 1,
{
}

/// The texts of the errors.
pub proof fn law_what_is_said_of_no_length()
    ensures
        DurationError::Empty.text() == "duration is empty"@,
        DurationError::Negative.text() == "negative durations are not supported"@,
        DurationError::MissingNumber.text() == "duration segment is missing a number"@,
        DurationError::MissingUnit.text() == "duration segment is missing a unit"@,
{
}

} // verus!
