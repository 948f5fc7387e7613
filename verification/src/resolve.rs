//! Resolving the reference instant from a reproducible-build override value.
//!
//! The override is a decimal count of seconds since the Unix epoch, with an
//! optional sign. A value that is not such an integer is a configuration
//! error; an integer outside the supported year range is one too.

use vstd::prelude::*;
use crate::{Instant, MIN_EPOCH_SECS, MAX_EPOCH_SECS};

verus! {

pub open spec fn is_digit_char(ch: char) -> bool {
    ('0' as int) <= ch as int && ch as int <= ('9' as int)
}

pub open spec fn digit_value(ch: char) -> int {
    ch as int - ('0' as int)
}

pub open spec fn all_digits(s: Seq<char>) -> bool {
    forall|k: int| 0 <= k < s.len() ==> is_digit_char(#[trigger] s[k])
}

/// The number a sequence of decimal digits denotes.
pub open spec fn digits_value(s: Seq<char>) -> int
    decreases s.len(),
{
    if s.len() == 0 {
        0
    } else {
        digits_value(s.drop_last()) * 10 + digit_value(s.last())
    }
}

/// A decimal integer: an optional sign, then at least one digit.
pub open spec fn is_int_string(s: Seq<char>) -> bool {
    if s.len() > 0 && (s[0] == '+' || s[0] == '-') {
        s.len() >= 2 && all_digits(s.skip(1))
    } else {
        s.len() >= 1 && all_digits(s)
    }
}

pub open spec fn int_string_value(s: Seq<char>) -> int {
    if s.len() > 0 && s[0] == '-' {
        -digits_value(s.skip(1))
    } else if s.len() > 0 && s[0] == '+' {
        digits_value(s.skip(1))
    } else {
        digits_value(s)
    }
}

/// Why the reference instant could not be resolved.
#[derive(Clone, Copy, PartialEq, Eq, Structural, Debug)]
pub enum ResolveError {
    /// The override value is not a decimal integer.
    NotAnInteger,
    /// The instant lies outside the supported year range 0 through 9999.
    OutOfRange,
}

proof fn lemma_digits_value_nonneg(s: Seq<char>)
    requires
        all_digits(s),
    ensures
        digits_value(s) >= 0,
    decreases s.len(),
{
    if s.len() > 0 {
        assert(all_digits(s.drop_last())) by {
            assert(forall|k: int| 0 <= k < s.len() - 1 ==> s.drop_last()[k] == s[k]);
        }
        lemma_digits_value_nonneg(s.drop_last());
    }
}

/// Parses the override as epoch seconds; exact about every outcome. The
/// accumulator saturates at one more than the largest supported magnitude,
/// 253402300800, so overlong inputs stay out of range without overflowing.
pub fn parse_override(s: &str) -> (r: Result<i64, ResolveError>)
    ensures
        r matches Ok(v) ==> is_int_string(s@) && v == int_string_value(s@) && MIN_EPOCH_SECS <= v
            <= MAX_EPOCH_SECS,
        r == Err::<i64, ResolveError>(ResolveError::NotAnInteger) <==> !is_int_string(s@),
        r == Err::<i64, ResolveError>(ResolveError::OutOfRange) <==> is_int_string(s@) && !(
        MIN_EPOCH_SECS <= int_string_value(s@) <= MAX_EPOCH_SECS),
{
    let n = s.unicode_len();
    if n == 0 {
        return Err(ResolveError::NotAnInteger);
    }
    let first = s.get_char(0);
    let neg: bool = first == '-';
    let start: usize = if first == '-' || first == '+' {
        1
    } else {
        0
    };
    if n == start {
        proof {
            assert(!is_int_string(s@));
        }
        return Err(ResolveError::NotAnInteger);
    }
    let mut acc: u64 = 0;
    let mut i: usize = start;
    while i < n
        invariant
            start <= i <= n,
            n == s@.len(),
            n > start,
            start == 1 <==> (s@[0] == '-' || s@[0] == '+'),
            start == 0 || start == 1,
            neg <==> s@[0] == '-',
            all_digits(s@.subrange(start as int, i as int)),
            acc <= 253402300800,
            if digits_value(s@.subrange(start as int, i as int)) >= 253402300800 {
                acc == 253402300800
            } else {
                acc == digits_value(s@.subrange(start as int, i as int))
            },
        decreases n - i,
    {
        let ghost pre = s@.subrange(start as int, i as int);
        let ch = s.get_char(i);
        let code = ch as u32;
        if code < 48 || code > 57 {
            proof {
                assert(s@[i as int] == ch);
                assert(('0' as int) == 48 && ('9' as int) == 57);
                assert(!is_digit_char(ch));
                if start == 1 {
                    assert(s@.skip(1)[i as int - 1] == ch);
                    assert(!all_digits(s@.skip(1)));
                } else {
                    assert(!all_digits(s@));
                }
                assert(!is_int_string(s@));
            }
            return Err(ResolveError::NotAnInteger);
        }
        let d: u64 = (code - 48) as u64;
        proof {
            let cur = s@.subrange(start as int, i as int + 1);
            assert(cur.drop_last() =~= pre);
            assert(cur.last() == ch);
            assert(('0' as int) == 48);
            assert(digit_value(ch) == d);
            assert(is_digit_char(ch));
            assert(all_digits(cur)) by {
                assert(forall|k: int| 0 <= k < pre.len() ==> cur[k] == pre[k]);
            }
            assert(digits_value(cur) == digits_value(pre) * 10 + d);
            lemma_digits_value_nonneg(pre);
            if digits_value(pre) >= 253402300800 {
                assert(digits_value(pre) * 10 >= digits_value(pre)) by (nonlinear_arith)
                    requires
                        digits_value(pre) >= 0,
                ;
            }
        }
        if acc >= 25340230081 {
            proof {
                assert(digits_value(pre) * 10 >= 253402300810) by (nonlinear_arith)
                    requires
                        digits_value(pre) >= 25340230081,
                ;
            }
            acc = 253402300800;
        } else {
            let next = acc * 10 + d;
            if next >= 253402300800 {
                acc = 253402300800;
            } else {
                acc = next;
            }
        }
        i = i + 1;
    }
    let ghost digits = s@.subrange(start as int, n as int);
    proof {
        if start == 1 {
            assert(digits =~= s@.skip(1));
        } else {
            assert(digits =~= s@);
        }
        assert(is_int_string(s@));
        lemma_digits_value_nonneg(digits);
    }
    if neg {
        // The magnitude may reach 62167219200, the seconds back to year 0.
        if acc > 62167219200 {
            proof {
                assert(int_string_value(s@) < MIN_EPOCH_SECS);
            }
            return Err(ResolveError::OutOfRange);
        }
        proof {
            assert(acc == digits_value(digits));
        }
        Ok(-(acc as i64))
    } else {
        if acc >= 253402300800 {
            proof {
                assert(int_string_value(s@) > MAX_EPOCH_SECS);
            }
            return Err(ResolveError::OutOfRange);
        }
        proof {
            assert(acc == digits_value(digits));
        }
        Ok(acc as i64)
    }
}

/// Builds the reference instant from a parsed override: whole seconds, no
/// sub-second part.
pub fn instant_from_override(s: &str) -> (r: Result<Instant, ResolveError>)
    ensures
        r matches Ok(i) ==> i.wf() && i.secs == int_string_value(s@) && i.nanos == 0,
        r is Ok <==> is_int_string(s@) && MIN_EPOCH_SECS <= int_string_value(s@)
            <= MAX_EPOCH_SECS,
        r == Err::<Instant, ResolveError>(ResolveError::NotAnInteger) <==> !is_int_string(s@),
        r == Err::<Instant, ResolveError>(ResolveError::OutOfRange) <==> is_int_string(s@) && !(
        MIN_EPOCH_SECS <= int_string_value(s@) <= MAX_EPOCH_SECS),
{
    match parse_override(s) {
        Ok(v) => Ok(Instant { secs: v, nanos: 0 }),
        Err(e) => Err(e),
    }
}

} // verus!
