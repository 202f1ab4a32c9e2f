//! Strict, unit-bearing durations used by adapter configuration.

use crate::text;
use vstd::arithmetic::power;
use vstd::prelude::*;

verus! {

pub const NANOS_PER_SECOND: u128 = 1_000_000_000;

/// A span of time in whole nanoseconds.
#[derive(Clone, Copy, Debug, PartialEq, Eq, Structural)]
pub struct Duration {
    seconds: u64,
    nanos: u32,
}

impl View for Duration {
    type V = nat;

    /// The number of nanoseconds.
    closed spec fn view(&self) -> nat {
        (self.seconds * 1_000_000_000 + self.nanos) as nat
    }
}

/// The largest duration, in nanoseconds.
pub open spec fn max_nanos() -> nat {
    (u64::MAX * 1_000_000_000 + 999_999_999) as nat
}

impl Duration {
    #[verifier::type_invariant]
    spec fn well_formed(self) -> bool {
        self.nanos < 1_000_000_000
    }

    /// The duration of that many nanoseconds, if it fits.
    pub fn checked_nanos(nanos: u128) -> (r: Option<Self>)
        ensures
            match r {
                Some(value) => value@ == nanos && nanos <= max_nanos(),
                None => nanos > max_nanos(),
            },
    {
        let seconds: u128 = nanos / NANOS_PER_SECOND;
        let rest: u32 = (nanos % NANOS_PER_SECOND) as u32;
        if seconds > u64::MAX as u128 {
            return None;
        }
        Some(Duration { seconds: seconds as u64, nanos: rest })
    }

    /// The longest time that there is.
    pub fn longest() -> (r: Self)
        ensures
            r@ == max_nanos(),
    {
        Duration { seconds: u64::MAX, nanos: 999_999_999 }
    }

    pub fn from_secs(seconds: u64) -> (r: Self)
        ensures
            r@ == seconds * 1_000_000_000,
    {
        Duration { seconds, nanos: 0 }
    }

    pub fn from_millis(millis: u64) -> (r: Self)
        ensures
            r@ == millis * 1_000_000,
    {
        Duration { seconds: millis / 1000, nanos: (millis % 1000) as u32 * 1_000_000 }
    }

    pub fn from_nanos(nanos: u64) -> (r: Self)
        ensures
            r@ == nanos,
    {
        Duration { seconds: nanos / 1_000_000_000, nanos: (nanos % 1_000_000_000) as u32 }
    }

    /// The whole duration in nanoseconds.
    pub fn as_nanos(&self) -> (r: u128)
        ensures
            r == self@,
            r <= max_nanos(),
    {
        proof {
            use_type_invariant(self);
        }
        self.seconds as u128 * NANOS_PER_SECOND + self.nanos as u128
    }

    /// The whole seconds of the duration.
    pub fn as_secs(&self) -> (r: u64)
        ensures
            r == self@ / 1_000_000_000,
    {
        proof {
            use_type_invariant(self);
        }
        self.seconds
    }

    /// Half the duration, rounded down to whole nanoseconds.
    pub fn half(&self) -> (r: Self)
        ensures
            r@ == self@ / 2,
    {
        proof {
            use_type_invariant(self);
        }
        let n: u128 = self.as_nanos() / 2;
        Duration {
            seconds: (n / NANOS_PER_SECOND) as u64,
            nanos: (n % NANOS_PER_SECOND) as u32,
        }
    }

    pub fn is_zero(&self) -> (r: bool)
        ensures
            r == (self@ == 0),
    {
        proof {
            use_type_invariant(self);
        }
        self.seconds == 0 && self.nanos == 0
    }
}

/// The position of the first character of a unit: an ASCII letter or `µ`.
pub open spec fn unit_start(s: Seq<char>, from: int) -> Option<int>
    decreases s.len() - from,
{
    if from < 0 || from >= s.len() {
        None
    } else if unit_char(s[from]) {
        Some(from)
    } else {
        unit_start(s, from + 1)
    }
}

/// A character that can start a unit.
pub open spec fn unit_char(c: char) -> bool {
    ||| 'a' <= c && c <= 'z'
    ||| 'A' <= c && c <= 'Z'
    ||| c == 'µ'
}

/// Nothing but decimal digits.
pub open spec fn all_digits(s: Seq<char>) -> bool {
    forall|i: int| 0 <= i < s.len() ==> text::is_digit(#[trigger] s[i])
}

/// A decimal number with a fraction: the digits before the first point and
/// those after it.
pub open spec fn number_parts(s: Seq<char>) -> (Seq<char>, Seq<char>) {
    match text::find(s, seq!['.']) {
        Some(at) => (s.take(at), s.skip(at + 1)),
        None => (s, Seq::empty()),
    }
}

/// A number is written by digits with at most one point among them.
pub open spec fn number_valid(s: Seq<char>) -> bool {
    let (whole, fraction) = number_parts(s);
    &&& s.len() > 0
    &&& (whole.len() > 0 || fraction.len() > 0)
    &&& all_digits(whole)
    &&& all_digits(fraction)
}

/// The nanoseconds of a unit.
pub open spec fn unit_nanos(unit: Seq<char>) -> Option<nat> {
    if unit == "ns"@ {
        Some(1)
    } else if unit == "us"@ || unit == "µs"@ {
        Some(1_000)
    } else if unit == "ms"@ {
        Some(1_000_000)
    } else if unit == "s"@ {
        Some(1_000_000_000)
    } else if unit == "m"@ {
        Some(60_000_000_000)
    } else if unit == "h"@ {
        Some(3_600_000_000_000)
    } else {
        None
    }
}

/// The text `before`, the quoted `value` and the text `after`.
pub open spec fn quoting(before: Seq<char>, value: Seq<char>, after: Seq<char>) -> Seq<char> {
    before + value + after
}

/// The nanoseconds that a fraction of a unit amounts to.
pub open spec fn fraction_nanos(
    fraction: Seq<char>,
    unit: nat,
    number: Seq<char>,
    input: Seq<char>,
) -> Result<nat, Seq<char>> {
    let denominator = power::pow(10, (fraction.len() as u32) as nat);
    let numerator = text::number_value(fraction) * unit;
    if fraction.len() == 0 {
        Ok(0)
    } else if denominator > u128::MAX {
        Err(quoting("duration '"@, input, "' has too many fractional digits"@))
    } else if text::number_value(fraction) > u128::MAX {
        Err(quoting("duration number '"@, number, "' overflows u128"@))
    } else if numerator > u128::MAX {
        Err(quoting("duration '"@, input, "' overflows"@))
    } else if numerator as int % denominator != 0 {
        Err(quoting("duration '"@, input, "' is not representable in nanoseconds"@))
    } else {
        Ok((numerator as int / denominator) as nat)
    }
}

/// The nanoseconds that a text without white space at its ends writes.
pub open spec fn written_nanos(input: Seq<char>) -> Result<nat, Seq<char>> {
    if input.len() == 0 {
        Err("duration must not be empty"@)
    } else if input[0] == '-' {
        Err("negative durations are not supported"@)
    } else {
        match unit_start(input, 0) {
            None => Err("duration must include an explicit unit"@),
            Some(split) => {
                let number = input.take(split);
                let unit = input.skip(split);
                let (whole, fraction) = number_parts(number);
                if !number_valid(number) {
                    Err(quoting("invalid duration number '"@, number, "'"@))
                } else {
                    match unit_nanos(unit) {
                        None => Err(quoting("unsupported duration unit '"@, unit, "'"@)),
                        Some(nanos) => if whole.len() == 0 || text::number_value(whole)
                            > u128::MAX {
                            Err(quoting("duration number '"@, number, "' overflows u128"@))
                        } else if text::number_value(whole) * nanos > u128::MAX {
                            Err(quoting("duration '"@, input, "' overflows"@))
                        } else {
                            match fraction_nanos(fraction, nanos, number, input) {
                                Err(error) => Err(error),
                                Ok(more) => if text::number_value(whole) * nanos + more
                                    > max_nanos() {
                                    Err(quoting("duration '"@, input, "' overflows"@))
                                } else {
                                    Ok((text::number_value(whole) * nanos + more) as nat)
                                },
                            }
                        },
                    }
                }
            },
        }
    }
}

/// The nanoseconds that a duration's text writes.
pub open spec fn parsed(input: Seq<char>) -> Result<nat, Seq<char>> {
    written_nanos(text::trim(input))
}

/// A duration's result as mathematical values.
pub open spec fn result_view(result: Result<Duration, String>) -> Result<nat, Seq<char>> {
    match result {
        Ok(value) => Ok(value@),
        Err(error) => Err(error@),
    }
}

fn quoted(before: &str, value: &str, after: &str) -> (r: String)
    ensures
        r@ == quoting(before@, value@, after@),
{
    text::joined3(before, value, after)
}

fn find_unit(input: &Vec<char>) -> (r: Option<usize>)
    ensures
        match r {
            Some(at) => unit_start(input@, 0) == Some(at as int) && at < input.len(),
            None => unit_start(input@, 0) is None,
        },
{
    let mut i: usize = 0;
    while i < input.len()
        invariant
            i <= input.len(),
            unit_start(input@, 0) == unit_start(input@, i as int),
        decreases input.len() - i,
    {
        let c = input[i];
        if ('a' <= c && c <= 'z') || ('A' <= c && c <= 'Z') || c == 'µ' {
            return Some(i);
        }
        i += 1;
    }
    None
}

fn only_digits(chars: &Vec<char>, from: usize, to: usize) -> (r: bool)
    requires
        from <= to <= chars.len(),
    ensures
        r == all_digits(chars@.subrange(from as int, to as int)),
{
    let ghost part = chars@.subrange(from as int, to as int);
    let mut i: usize = from;
    while i < to
        invariant
            from <= i <= to <= chars.len(),
            part == chars@.subrange(from as int, to as int),
            forall|j: int| 0 <= j < i - from ==> text::is_digit(#[trigger] part[j]),
        decreases to - i,
    {
        let c = chars[i];
        assert(part[i - from] == c);
        if c < '0' || c > '9' {
            return false;
        }
        i += 1;
    }
    true
}

fn ten_to_the(exponent: u32) -> (r: Option<u128>)
    ensures
        match r {
            Some(n) => n == power::pow(10, exponent as nat) && n > 0,
            None => power::pow(10, exponent as nat) > u128::MAX,
        },
{
    let mut value: u128 = 1;
    let mut i: u32 = 0;
    proof {
        power::lemma_pow0(10);
    }
    while i < exponent
        invariant
            i <= exponent,
            value == power::pow(10, i as nat),
            value > 0,
        decreases exponent - i,
    {
        proof {
            assert(power::pow(10, (i + 1) as nat) == 10 * power::pow(10, i as nat)) by {
                power::lemma_pow1(10);
                power::lemma_pow_adds(10, 1, i as nat);
            }
        }
        match value.checked_mul(10) {
            Some(n) => {
                value = n;
            },
            None => {
                proof {
                    power::lemma_pow_increases(10, (i + 1) as nat, exponent as nat);
                }
                return None;
            },
        }
        i += 1;
    }
    Some(value)
}

fn digits_value(digits: &str, max: u128) -> (r: Option<u128>)
    requires
        all_digits(digits@),
    ensures
        match r {
            Some(n) => digits@.len() > 0 && n == text::number_value(digits@) && n <= max,
            None => digits@.len() == 0 || text::number_value(digits@) > max,
        },
{
    assert(digits@.len() > 0 ==> text::is_digit(digits@[0]));
    text::parse_unsigned(digits, max)
}

fn parse_fraction(fraction: &str, unit: u128, number: &str, input: &str) -> (r: Result<
    u128,
    String,
>)
    requires
        all_digits(fraction@),
        0 < unit <= 3_600_000_000_000,
    ensures
        match r {
            Ok(nanos) => fraction_nanos(fraction@, unit as nat, number@, input@) == Ok::<
                nat,
                Seq<char>,
            >(nanos as nat),
            Err(error) => fraction_nanos(fraction@, unit as nat, number@, input@) == Err::<
                nat,
                Seq<char>,
            >(error@),
        },
{
    if fraction.is_empty() {
        return Ok(0);
    }
    let length: usize = fraction.unicode_len();
    let denominator: u128 = match ten_to_the(length as u32) {
        Some(n) => n,
        None => {
            return Err(quoted("duration '", input, "' has too many fractional digits"));
        },
    };
    let value: u128 = match digits_value(fraction, u128::MAX) {
        Some(n) => n,
        None => {
            return Err(quoted("duration number '", number, "' overflows u128"));
        },
    };
    let numerator: u128 = match value.checked_mul(unit) {
        Some(n) => n,
        None => {
            return Err(quoted("duration '", input, "' overflows"));
        },
    };
    if numerator % denominator != 0 {
        return Err(quoted("duration '", input, "' is not representable in nanoseconds"));
    }
    Ok(numerator / denominator)
}

fn find_unit_nanos(unit: &str) -> (r: Option<u128>)
    ensures
        match r {
            Some(n) => unit_nanos(unit@) == Some(n as nat) && 0 < n <= 3_600_000_000_000,
            None => unit_nanos(unit@) is None,
        },
{
    if text::same(unit, "ns") {
        Some(1)
    } else if text::same(unit, "us") || text::same(unit, "µs") {
        Some(1_000)
    } else if text::same(unit, "ms") {
        Some(1_000_000)
    } else if text::same(unit, "s") {
        Some(1_000_000_000)
    } else if text::same(unit, "m") {
        Some(60_000_000_000)
    } else if text::same(unit, "h") {
        Some(3_600_000_000_000)
    } else {
        None
    }
}

/// Reads a duration: a decimal number and a unit.
pub fn parse(input: &str) -> (r: Result<Duration, String>)
    ensures
        result_view(r) == parsed(input@),
{
    let input = text::trimmed(input);
    let chars = text::chars_of(input.as_str());
    if chars.len() == 0 {
        return Err("duration must not be empty".to_owned());
    }
    if chars[0] == '-' {
        return Err("negative durations are not supported".to_owned());
    }
    let split: usize = match find_unit(&chars) {
        Some(at) => at,
        None => {
            return Err("duration must include an explicit unit".to_owned());
        },
    };
    let number = text::slice(&chars, 0, split);
    let unit = text::slice(&chars, split, chars.len());
    let ghost number_text = input@.take(split as int);
    assert(number@ =~= number_text);
    assert(unit@ =~= input@.skip(split as int));
    let digits = text::chars_of(number.as_str());
    let point: Vec<char> = vec!['.'];
    assert(point@ =~= seq!['.']);
    let (whole_end, fraction_start) = match text::position(&digits, &point, 0) {
        Some(at) => (at, at + 1),
        None => (digits.len(), digits.len()),
    };
    let whole = text::slice(&digits, 0, whole_end);
    let fraction = text::slice(&digits, fraction_start, digits.len());
    assert(whole@ =~= number_parts(number@).0);
    assert(fraction@ =~= number_parts(number@).1);
    if digits.len() == 0 || (whole_end == 0 && fraction_start == digits.len()) || !only_digits(
        &digits,
        0,
        whole_end,
    ) || !only_digits(&digits, fraction_start, digits.len()) {
        return Err(quoted("invalid duration number '", number.as_str(), "'"));
    }
    let nanos: u128 = match find_unit_nanos(unit.as_str()) {
        Some(n) => n,
        None => {
            return Err(quoted("unsupported duration unit '", unit.as_str(), "'"));
        },
    };
    let whole_value: u128 = match digits_value(whole.as_str(), u128::MAX) {
        Some(n) => n,
        None => {
            return Err(quoted("duration number '", number.as_str(), "' overflows u128"));
        },
    };
    let whole_nanos: u128 = match whole_value.checked_mul(nanos) {
        Some(n) => n,
        None => {
            return Err(quoted("duration '", input.as_str(), "' overflows"));
        },
    };
    let more: u128 = match parse_fraction(
        fraction.as_str(),
        nanos,
        number.as_str(),
        input.as_str(),
    ) {
        Ok(n) => n,
        Err(error) => {
            return Err(error);
        },
    };
    let total: u128 = match whole_nanos.checked_add(more) {
        Some(n) => n,
        None => {
            return Err(quoted("duration '", input.as_str(), "' overflows"));
        },
    };
    match Duration::checked_nanos(total) {
        Some(value) => Ok(value),
        None => Err(quoted("duration '", input.as_str(), "' overflows")),
    }
}

/// The largest unit of which a duration is a whole multiple.
pub open spec fn unit_of(nanos: nat) -> (Seq<char>, nat) {
    if nanos % 3_600_000_000_000 == 0 {
        ("h"@, 3_600_000_000_000)
    } else if nanos % 60_000_000_000 == 0 {
        ("m"@, 60_000_000_000)
    } else if nanos % 1_000_000_000 == 0 {
        ("s"@, 1_000_000_000)
    } else if nanos % 1_000_000 == 0 {
        ("ms"@, 1_000_000)
    } else if nanos % 1_000 == 0 {
        ("us"@, 1_000)
    } else {
        ("ns"@, 1)
    }
}

/// The text of a duration: a whole number of the largest unit that fits.
pub open spec fn formatted(nanos: nat) -> Seq<char> {
    if nanos == 0 {
        "0s"@
    } else {
        text::decimal(nanos / unit_of(nanos).1) + unit_of(nanos).0
    }
}

/// The text of a duration: a whole number of the largest unit that fits.
pub fn format(value: &Duration) -> (r: String)
    ensures
        r@ == formatted(value@),
{
    let total: u128 = value.as_nanos();
    if total == 0 {
        return "0s".to_owned();
    }
    let (unit, nanos): (&str, u128) = if total % 3_600_000_000_000 == 0 {
        ("h", 3_600_000_000_000)
    } else if total % 60_000_000_000 == 0 {
        ("m", 60_000_000_000)
    } else if total % 1_000_000_000 == 0 {
        ("s", 1_000_000_000)
    } else if total % 1_000_000 == 0 {
        ("ms", 1_000_000)
    } else if total % 1_000 == 0 {
        ("us", 1_000)
    } else {
        ("ns", 1)
    };
    let count = text::number(total / nanos);
    text::joined(count.as_str(), unit)
}

proof fn lemma_unit_start(s: Seq<char>, from: int, at: int)
    requires
        0 <= from <= at < s.len(),
        forall|i: int| from <= i < at ==> !unit_char(#[trigger] s[i]),
        unit_char(s[at]),
    ensures
        unit_start(s, from) == Some(at),
    decreases at - from,
{
    if from < at {
        lemma_unit_start(s, from + 1, at);
    }
}

/// The text of every duration reads back as that duration.
pub proof fn format_then_parse(nanos: nat)
    requires
        nanos <= max_nanos(),
    ensures
        parsed(formatted(nanos)) == Ok::<nat, Seq<char>>(nanos),
{
    let (unit, per_unit) = if nanos == 0 {
        ("s"@, 1_000_000_000)
    } else {
        unit_of(nanos)
    };
    let count = nanos / per_unit;
    let digits = text::decimal(count);
    let whole = digits + unit;
    reveal_strlit("h");
    reveal_strlit("m");
    reveal_strlit("s");
    reveal_strlit("ms");
    reveal_strlit("us");
    reveal_strlit("ns");
    reveal_strlit("µs");
    reveal_strlit("0s");
    text::lemma_decimal(count);
    assert(formatted(nanos) =~= whole) by {
        if nanos == 0 {
            assert(count == 0);
            assert(digits =~= seq!['0']);
        }
    }
    assert(text::is_digit(digits[0]));
    assert(whole[0] == digits[0]);
    let n = digits.len() as int;
    assert(whole.last() == unit.last());
    assert(text::trim_start(whole) == whole);
    assert(text::trim_end(whole) == whole);
    assert forall|i: int| 0 <= i < n implies !unit_char(#[trigger] whole[i]) by {
        assert(text::is_digit(digits[i]));
    }
    assert(whole[n] == unit[0]);
    lemma_unit_start(whole, 0, n);
    assert(whole.take(n) =~= digits);
    assert(whole.skip(n) =~= unit);
    text::lemma_find_from(digits, seq!['.'], 0);
    if let Some(at) = text::find(digits, seq!['.']) {
        assert(digits.subrange(at, at + 1)[0] == '.');
        assert(text::is_digit(digits[at]));
    }
    assert(unit_nanos(unit) == Some(per_unit)) by {
        assert("h"@.len() == 1 && "h"@[0] == 'h');
        assert("m"@.len() == 1 && "m"@[0] == 'm');
        assert("s"@.len() == 1 && "s"@[0] == 's');
        assert("ms"@[0] == 'm' && "ms"@.len() == 2);
        assert("us"@[0] == 'u' && "us"@.len() == 2);
        assert("ns"@[0] == 'n' && "ns"@.len() == 2);
        assert("µs"@[0] == 'µ' && "µs"@.len() == 2);
    }
    assert(count * per_unit == nanos) by (nonlinear_arith)
        requires
            count == nanos / per_unit,
            nanos % per_unit == 0,
            per_unit > 0,
    ;
    assert(count <= nanos) by (nonlinear_arith)
        requires
            count * per_unit == nanos,
            per_unit > 0,
    ;
}

/// A whole number of units that fits in 64 bits, or why there is none.
pub open spec fn wire_units(nanos: nat, per_unit: nat, unit: Seq<char>) -> Result<nat, Seq<char>> {
    if nanos % per_unit != 0 {
        Err("duration is not an exact whole "@ + unit)
    } else if nanos / per_unit > u64::MAX {
        Err("duration overflows "@ + unit)
    } else {
        Ok(nanos / per_unit)
    }
}

/// A wire number's result as mathematical values.
pub open spec fn wire_view(result: Result<u64, String>) -> Result<nat, Seq<char>> {
    match result {
        Ok(value) => Ok(value as nat),
        Err(error) => Err(error@),
    }
}

/// The whole milliseconds of a duration that has no smaller part.
pub fn to_millis(value: Duration) -> (r: Result<u64, String>)
    ensures
        wire_view(r) == wire_units(value@, 1_000_000, "milliseconds"@),
{
    to_wire_unit(value, 1_000_000, "milliseconds")
}

/// The whole seconds of a duration that has no smaller part.
pub fn to_seconds(value: Duration) -> (r: Result<u64, String>)
    ensures
        wire_view(r) == wire_units(value@, 1_000_000_000, "seconds"@),
{
    to_wire_unit(value, NANOS_PER_SECOND, "seconds")
}

fn to_wire_unit(value: Duration, nanos_per_unit: u128, unit: &str) -> (r: Result<u64, String>)
    requires
        nanos_per_unit > 0,
    ensures
        wire_view(r) == wire_units(value@, nanos_per_unit as nat, unit@),
{
    let nanos: u128 = value.as_nanos();
    if nanos % nanos_per_unit != 0 {
        return Err(text::joined("duration is not an exact whole ", unit));
    }
    let count: u128 = nanos / nanos_per_unit;
    if count > u64::MAX as u128 {
        return Err(text::joined("duration overflows ", unit));
    }
    Ok(count as u64)
}

} // verus!
