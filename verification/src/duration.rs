//! Parsing of a relative idle-period expression such as `"30m"` or `"2d"`:
//! a non-empty decimal number followed by a single unit letter.

use vstd::prelude::*;

verus! {

/// Why an idle-period expression was rejected.
#[derive(Clone, Copy, Debug, PartialEq, Eq, Structural)]
pub enum DurationError {
    /// The part before the unit letter is not a decimal number that fits,
    /// or the resulting number of seconds does not fit, in a `u64`.
    InvalidFormat,
    /// The trailing letter is none of `m`, `h`, `d`, `w`.
    UnknownUnit,
}

/// A decimal digit character.
pub open spec fn is_digit(c: char) -> bool {
    48 <= c as u32 && c as u32 <= 57
}

/// The numeric value of a decimal digit character.
pub open spec fn char_digit(c: char) -> nat
    recommends
        is_digit(c),
{
    (c as u32 - 48) as nat
}

/// Every character of `s` is a decimal digit.
pub open spec fn all_digits(s: Seq<char>) -> bool {
    forall|k: int| 0 <= k < s.len() ==> is_digit(#[trigger] s[k])
}

/// The value of a sequence of decimal digit characters, most significant
/// digit first. The empty sequence has value zero.
pub open spec fn digits_value(s: Seq<char>) -> nat
    recommends
        all_digits(s),
    decreases s.len(),
{
    if s.len() == 0 {
        0
    } else {
        10 * digits_value(s.drop_last()) + char_digit(s.last())
    }
}

/// How many seconds one step of the given unit letter lasts: minutes,
/// hours, days or weeks. Any other letter is not a unit.
pub open spec fn unit_seconds(u: char) -> Option<nat> {
    if u == 'm' {
        Some(60 as nat)
    } else if u == 'h' {
        Some(3600 as nat)
    } else if u == 'd' {
        Some(86400 as nat)
    } else if u == 'w' {
        Some(604800 as nat)
    } else {
        None
    }
}

/// What parsing an idle-period expression yields: the number before the
/// final unit letter, times the seconds of that unit. A prefix that is not
/// a plain decimal number, or a value that does not fit in a `u64`, is
/// `InvalidFormat`; an unrecognized unit letter is `UnknownUnit`. The
/// prefix is judged before the unit letter, as the errors' order.
pub open spec fn duration_spec(s: Seq<char>) -> Result<u64, DurationError>
    recommends
        s.len() >= 1,
{
    let prefix = s.take(s.len() - 1);
    let unit = s[s.len() - 1];
    if prefix.len() == 0 || !all_digits(prefix) || digits_value(prefix) > u64::MAX {
        Err(DurationError::InvalidFormat)
    } else {
        match unit_seconds(unit) {
            None => Err(DurationError::UnknownUnit),
            Some(f) => if digits_value(prefix) * f > u64::MAX {
                Err(DurationError::InvalidFormat)
            } else {
                Ok((digits_value(prefix) * f) as u64)
            },
        }
    }
}

/// Appending one more digit multiplies the value of a digit prefix by ten;
/// hence the value of a digit sequence never falls below the value of any
/// of its prefixes.
proof fn lemma_digits_value_take_le(s: Seq<char>, j: int)
    requires
        all_digits(s),
        0 <= j <= s.len(),
    ensures
        digits_value(s.take(j)) <= digits_value(s),
    decreases s.len() - j,
{
    if j < s.len() {
        lemma_digits_value_take_le(s, j + 1);
        assert(s.take(j + 1).drop_last() =~= s.take(j));
        assert(s.take(j + 1).last() == s[j]);
        assert(digits_value(s.take(j + 1)) == 10 * digits_value(s.take(j)) + char_digit(s[j]));
    } else {
        assert(s.take(j) =~= s);
    }
}

/// Reads expressions like `"30m"`, `"12h"`, `"7d"`, `"2w"`.
pub struct TimeParser;

impl TimeParser {
    /// Parses an idle-period expression into a whole number of seconds:
    /// the leading decimal number times 60, 3600, 86400 or 604800 for the
    /// unit letters `m`, `h`, `d`, `w` respectively.
    pub fn parse_duration(time_str: &str) -> (r: Result<u64, DurationError>)
        requires
            time_str@.len() >= 1,
        ensures
            r == duration_spec(time_str@),
    {
        let ghost s = time_str@;
        let n = time_str.unicode_len();
        let ghost prefix = s.take(s.len() - 1);
        if n == 1 {
            assert(prefix.len() == 0);
            return Err(DurationError::InvalidFormat);
        }
        let mut i: usize = 0;
        let mut acc: u64 = 0;
        while i < n - 1
            invariant
                s == time_str@,
                n == s.len(),
                2 <= n <= usize::MAX,
                0 <= i <= n - 1,
                prefix == s.take(s.len() - 1),
                all_digits(prefix.take(i as int)),
                acc == digits_value(prefix.take(i as int)),
            decreases n - i,
        {
            let c = time_str.get_char(i);
            assert(prefix[i as int] == c);
            let code = c as u32;
            if code < 48 || code > 57 {
                assert(!is_digit(prefix[i as int]));
                return Err(DurationError::InvalidFormat);
            }
            let d = (code - 48) as u64;
            proof {
                assert(prefix.take(i + 1).drop_last() =~= prefix.take(i as int));
                assert(prefix.take(i + 1).last() == prefix[i as int]);
            }
            let step = match acc.checked_mul(10) {
                Some(m) => m.checked_add(d),
                None => None,
            };
            match step {
                Some(v) => {
                    acc = v;
                }
                None => {
                    // The digits read so far already exceed `u64::MAX`, so
                    // the whole prefix does too, whether or not the rest
                    // of it is numeric.
                    proof {
                        if all_digits(prefix) {
                            lemma_digits_value_take_le(prefix, i + 1);
                        }
                    }
                    return Err(DurationError::InvalidFormat);
                }
            }
            i += 1;
        }
        assert(prefix.take(i as int) =~= prefix);
        let unit = time_str.get_char(n - 1);
        let factor: u64 = if unit == 'm' {
            60
        } else if unit == 'h' {
            3600
        } else if unit == 'd' {
            86400
        } else if unit == 'w' {
            604800
        } else {
            return Err(DurationError::UnknownUnit);
        };
        match acc.checked_mul(factor) {
            Some(seconds) => Ok(seconds),
            None => Err(DurationError::InvalidFormat),
        }
    }
}

/// Law: a well-formed expression — digits followed by a recognized unit
/// letter — parses to the digit value times that unit's seconds, whenever
/// that product is representable.
pub proof fn lemma_duration_valid(digits: Seq<char>, unit: char)
    requires
        digits.len() >= 1,
        all_digits(digits),
        digits_value(digits) <= u64::MAX,
        unit_seconds(unit) is Some,
        digits_value(digits) * unit_seconds(unit)->0 <= u64::MAX,
    ensures
        duration_spec(digits.push(unit)) == Ok::<u64, DurationError>(
            (digits_value(digits) * unit_seconds(unit)->0) as u64,
        ),
{
    let s = digits.push(unit);
    assert(s.take(s.len() - 1) =~= digits);
    assert(s[s.len() - 1] == unit);
}

/// Law: an expression whose prefix is not a plain decimal number, or whose
/// trailing letter is not a recognized unit, never parses successfully.
pub proof fn lemma_duration_invalid(s: Seq<char>)
    requires
        s.len() >= 1,
        s.take(s.len() - 1).len() == 0 || !all_digits(s.take(s.len() - 1)) || unit_seconds(
            s[s.len() - 1],
        ) is None,
    ensures
        duration_spec(s) is Err,
{
}

} // verus!

