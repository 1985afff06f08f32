use vstd::prelude::*;

verus! {

/// An ASCII decimal digit.
pub open spec fn is_digit(c: char) -> bool {
    '0' <= c && c <= '9'
}

/// The number written by a sequence of decimal digits (most significant first).
pub open spec fn digits_value(s: Seq<char>) -> nat
    decreases s.len(),
{
    if s.len() == 0 {
        0
    } else {
        digits_value(s.drop_last()) * 10 + ((s.last() as int) - ('0' as int)) as nat
    }
}

/// The digits of an unsigned literal: the text without one optional leading `+`.
pub open spec fn unsigned_digits(s: Seq<char>) -> Seq<char> {
    if s.len() > 0 && s[0] == '+' {
        s.subrange(1, s.len() as int)
    } else {
        s
    }
}

/// The value of `s` read as an unsigned decimal literal no larger than `max`,
/// or `None` when `s` is not one.
pub open spec fn parse_unsigned(s: Seq<char>, max: nat) -> Option<nat> {
    let d = unsigned_digits(s);
    if d.len() > 0 && (forall|i: int| 0 <= i < d.len() ==> is_digit(#[trigger] d[i]))
        && digits_value(d) <= max {
        Some(digits_value(d))
    } else {
        None
    }
}

/// Whether `p` occurs in `s` as a contiguous run.
pub open spec fn has_substring(s: Seq<char>, p: Seq<char>) -> bool {
    exists|i: int| 0 <= i && i + p.len() <= s.len() && #[trigger] s.subrange(i, i + p.len()) == p
}

/// The decimal precision written in `s`, or 18 where `s` is not a `u32` literal.
pub open spec fn decimals_spec(s: Seq<char>) -> u32 {
    match parse_unsigned(s, u32::MAX as nat) {
        Some(v) => v as u32,
        None => 18,
    }
}

/// The seconds written in `s`, or 0 where `s` is not a `u64` literal.
pub open spec fn timestamp_spec(s: Seq<char>) -> u64 {
    match parse_unsigned(s, u64::MAX as nat) {
        Some(v) => v as u64,
        None => 0,
    }
}

/// Relies on `<u32 as FromStr>::from_str` (through `str::parse`): ASCII digits
/// after an optional `+`, within range.
#[verifier::external_body]
fn parse_u32(s: &str) -> (r: Option<u32>)
    ensures
        parse_unsigned(s@, u32::MAX as nat) == match r {
            Some(v) => Some(v as nat),
            None => None::<nat>,
        },
{
    s.parse::<u32>().ok()
}

/// Relies on `<u64 as FromStr>::from_str` (through `str::parse`): ASCII digits
/// after an optional `+`, within range.
#[verifier::external_body]
fn parse_u64(s: &str) -> (r: Option<u64>)
    ensures
        parse_unsigned(s@, u64::MAX as nat) == match r {
            Some(v) => Some(v as nat),
            None => None::<nat>,
        },
{
    s.parse::<u64>().ok()
}

/// Relies on `str::contains` with a `&str` pattern: whether `p` occurs in `s`.
#[verifier::external_body]
pub(crate) fn str_contains(s: &str, p: &str) -> (r: bool)
    ensures
        r == has_substring(s@, p@),
{
    s.contains(p)
}

/// Decimal precision from the text the event source reports; 18 when it does
/// not parse.
pub fn parse_decimals(s: &str) -> (r: u32)
    ensures
        r == decimals_spec(s@),
{
    match parse_u32(s) {
        Some(v) => v,
        None => 18,
    }
}

/// Block timestamp in seconds from its text form; 0 when it does not parse.
pub fn parse_timestamp(s: &str) -> (r: u64)
    ensures
        r == timestamp_spec(s@),
{
    match parse_u64(s) {
        Some(v) => v,
        None => 0,
    }
}

} // verus!
