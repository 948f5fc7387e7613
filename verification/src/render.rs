//! Rendering a civil date-time as text: RFC 3339 and a strftime-style
//! pattern mini-language.
//!
//! The pattern directives are `%Y` `%m` `%d` `%H` `%M` `%S` `%f` `%.f` `%z`
//! `%:z` and `%%`; every other character of the pattern is copied through.
//! A `%` followed by anything else is an invalid directive.

use vstd::prelude::*;
use crate::civil::CivilDateTime;

verus! {

pub open spec fn digit_char(d: int) -> char {
    if d == 0 {
        '0'
    } else if d == 1 {
        '1'
    } else if d == 2 {
        '2'
    } else if d == 3 {
        '3'
    } else if d == 4 {
        '4'
    } else if d == 5 {
        '5'
    } else if d == 6 {
        '6'
    } else if d == 7 {
        '7'
    } else if d == 8 {
        '8'
    } else {
        '9'
    }
}

/// The last `w` decimal digits of `n`, zero-padded to exactly `w` characters.
pub open spec fn pad_chars(n: int, w: nat) -> Seq<char>
    decreases w,
{
    if w == 0 {
        Seq::empty()
    } else {
        pad_chars(n / 10, (w - 1) as nat) + seq![digit_char(n % 10)]
    }
}

/// The sub-second part as rendered by `%.f`: empty when zero, otherwise a dot
/// and the shortest of 3, 6 or 9 digits that carries the full value.
pub open spec fn frac_chars(nanos: int) -> Seq<char> {
    if nanos == 0 {
        Seq::empty()
    } else if nanos % 1000000 == 0 {
        seq!['.'] + pad_chars(nanos / 1000000, 3)
    } else if nanos % 1000 == 0 {
        seq!['.'] + pad_chars(nanos / 1000, 6)
    } else {
        seq!['.'] + pad_chars(nanos, 9)
    }
}

/// A UTC offset as rendered by `%z` and `%:z`: a sign (`+` for zero), then
/// hours and minutes, the seconds rounded to the nearest minute.
pub open spec fn offset_chars(off: int, colon: bool) -> Seq<char> {
    let a = if off < 0 { -off } else { off };
    let minutes = (a + 30) / 60;
    seq![if off < 0 { '-' } else { '+' }] + pad_chars(minutes / 60, 2) + (if colon {
        seq![':']
    } else {
        Seq::<char>::empty()
    }) + pad_chars(minutes % 60, 2)
}

/// The directives that follow a single `%`.
pub open spec fn is_directive_char(ch: char) -> bool {
    ch == 'Y' || ch == 'm' || ch == 'd' || ch == 'H' || ch == 'M' || ch == 'S' || ch == 'f'
        || ch == 'z' || ch == '%'
}

pub open spec fn directive_chars(c: CivilDateTime, ch: char) -> Seq<char> {
    if ch == 'Y' {
        pad_chars(c.year as int, 4)
    } else if ch == 'm' {
        pad_chars(c.month as int, 2)
    } else if ch == 'd' {
        pad_chars(c.day as int, 2)
    } else if ch == 'H' {
        pad_chars(c.hour as int, 2)
    } else if ch == 'M' {
        pad_chars(c.minute as int, 2)
    } else if ch == 'S' {
        pad_chars(c.second as int, 2)
    } else if ch == 'f' {
        pad_chars(c.nanos as int, 9)
    } else if ch == 'z' {
        offset_chars(c.offset_seconds as int, false)
    } else {
        seq!['%']
    }
}

/// What a pattern renders to, or `None` when it holds an invalid directive.
pub open spec fn render_pattern(c: CivilDateTime, pat: Seq<char>) -> Option<Seq<char>>
    decreases pat.len(),
{
    if pat.len() == 0 {
        Some(Seq::empty())
    } else if pat[0] != '%' {
        match render_pattern(c, pat.skip(1)) {
            Some(r) => Some(seq![pat[0]] + r),
            None => None,
        }
    } else if pat.len() >= 3 && pat[1] == '.' && pat[2] == 'f' {
        match render_pattern(c, pat.skip(3)) {
            Some(r) => Some(frac_chars(c.nanos as int) + r),
            None => None,
        }
    } else if pat.len() >= 3 && pat[1] == ':' && pat[2] == 'z' {
        match render_pattern(c, pat.skip(3)) {
            Some(r) => Some(offset_chars(c.offset_seconds as int, true) + r),
            None => None,
        }
    } else if pat.len() >= 2 && is_directive_char(pat[1]) {
        match render_pattern(c, pat.skip(2)) {
            Some(r) => Some(directive_chars(c, pat[1]) + r),
            None => None,
        }
    } else {
        None
    }
}

/// The RFC 3339 form: date, `T`, time, sub-second part, offset with colon.
pub open spec fn rfc3339_chars(c: CivilDateTime) -> Seq<char> {
    pad_chars(c.year as int, 4) + seq!['-'] + pad_chars(c.month as int, 2) + seq!['-'] + pad_chars(
        c.day as int,
        2,
    ) + seq!['T'] + pad_chars(c.hour as int, 2) + seq![':'] + pad_chars(c.minute as int, 2)
        + seq![':'] + pad_chars(c.second as int, 2) + frac_chars(c.nanos as int) + offset_chars(
        c.offset_seconds as int,
        true,
    )
}

/// A pattern could not be rendered.
#[derive(Clone, Copy, PartialEq, Eq, Structural, Debug)]
pub enum PatternError {
    InvalidDirective,
}

fn digit_str(d: u64) -> (r: &'static str)
    requires
        d < 10,
    ensures
        r@ == seq![digit_char(d as int)],
{
    proof {
        reveal_strlit("0");
        reveal_strlit("1");
        reveal_strlit("2");
        reveal_strlit("3");
        reveal_strlit("4");
        reveal_strlit("5");
        reveal_strlit("6");
        reveal_strlit("7");
        reveal_strlit("8");
        reveal_strlit("9");
    }
    match d {
        0 => "0",
        1 => "1",
        2 => "2",
        3 => "3",
        4 => "4",
        5 => "5",
        6 => "6",
        7 => "7",
        8 => "8",
        _ => "9",
    }
}

fn padded_dec(n: u64, w: u64) -> (r: String)
    ensures
        r@ == pad_chars(n as int, w as nat),
    decreases w,
{
    if w == 0 {
        let r = String::new();
        proof {
            assert(r@ =~= pad_chars(n as int, 0));
        }
        r
    } else {
        let mut r = padded_dec(n / 10, w - 1);
        r.append(digit_str(n % 10));
        proof {
            assert(r@ =~= pad_chars(n as int, w as nat));
        }
        r
    }
}

fn push_frac(out: &mut String, nanos: u32)
    requires
        nanos < crate::NANOS_PER_SEC,
    ensures
        final(out)@ == old(out)@ + frac_chars(nanos as int),
{
    proof {
        reveal_strlit(".");
    }
    if nanos == 0 {
        proof {
            assert(out@ =~= old(out)@ + frac_chars(nanos as int));
        }
    } else if nanos % 1000000 == 0 {
        out.append(".");
        let p = padded_dec((nanos / 1000000) as u64, 3);
        out.append(p.as_str());
        proof {
            assert(out@ =~= old(out)@ + frac_chars(nanos as int));
        }
    } else if nanos % 1000 == 0 {
        out.append(".");
        let p = padded_dec((nanos / 1000) as u64, 6);
        out.append(p.as_str());
        proof {
            assert(out@ =~= old(out)@ + frac_chars(nanos as int));
        }
    } else {
        out.append(".");
        let p = padded_dec(nanos as u64, 9);
        out.append(p.as_str());
        proof {
            assert(out@ =~= old(out)@ + frac_chars(nanos as int));
        }
    }
}

fn push_offset(out: &mut String, off: i32, colon: bool)
    requires
        -86400 < off < 86400,
    ensures
        final(out)@ == old(out)@ + offset_chars(off as int, colon),
{
    proof {
        reveal_strlit("+");
        reveal_strlit("-");
        reveal_strlit(":");
    }
    let a: u64 = if off < 0 {
        (-(off as i64)) as u64
    } else {
        off as u64
    };
    let minutes: u64 = (a + 30) / 60;
    if off < 0 {
        out.append("-");
    } else {
        out.append("+");
    }
    let h = padded_dec(minutes / 60, 2);
    out.append(h.as_str());
    if colon {
        out.append(":");
    }
    let m = padded_dec(minutes % 60, 2);
    out.append(m.as_str());
    proof {
        assert(out@ =~= old(out)@ + offset_chars(off as int, colon));
    }
}

/// Renders the civil form as RFC 3339 text.
pub fn render_rfc3339(c: &CivilDateTime) -> (r: String)
    requires
        c.wf(),
    ensures
        r@ == rfc3339_chars(*c),
{
    proof {
        reveal_strlit("-");
        reveal_strlit("T");
        reveal_strlit(":");
    }
    let mut out = String::new();
    let p = padded_dec(c.year as u64, 4);
    out.append(p.as_str());
    out.append("-");
    let p = padded_dec(c.month as u64, 2);
    out.append(p.as_str());
    out.append("-");
    let p = padded_dec(c.day as u64, 2);
    out.append(p.as_str());
    out.append("T");
    let p = padded_dec(c.hour as u64, 2);
    out.append(p.as_str());
    out.append(":");
    let p = padded_dec(c.minute as u64, 2);
    out.append(p.as_str());
    out.append(":");
    let p = padded_dec(c.second as u64, 2);
    out.append(p.as_str());
    push_frac(&mut out, c.nanos);
    push_offset(&mut out, c.offset_seconds, true);
    proof {
        assert(out@ =~= rfc3339_chars(*c));
    }
    out
}

/// Renders the civil form through a pattern; fails exactly when the pattern
/// holds an invalid directive.
pub fn render_with_pattern(c: &CivilDateTime, pattern: &str) -> (r: Result<String, PatternError>)
    requires
        c.wf(),
    ensures
        r matches Ok(s) ==> render_pattern(*c, pattern@) == Some(s@),
        r is Err <==> render_pattern(*c, pattern@) is None,
{
    let n = pattern.unicode_len();
    let mut out = String::new();
    let mut i: usize = 0;
    proof {
        assert(pattern@.skip(0) =~= pattern@);
        assert(out@ + pattern@ =~= pattern@);
    }
    while i < n
        invariant
            i <= n,
            n == pattern@.len(),
            c.wf(),
            match render_pattern(*c, pattern@.skip(i as int)) {
                Some(rest) => render_pattern(*c, pattern@) == Some(out@ + rest),
                None => render_pattern(*c, pattern@) is None,
            },
        decreases n - i,
    {
        let ghost pat = pattern@;
        let ghost tail = pattern@.skip(i as int);
        let ghost out0 = out@;
        proof {
            assert(tail[0] == pat[i as int]);
        }
        let ch = pattern.get_char(i);
        if ch != '%' {
            let piece = pattern.substring_char(i, i + 1);
            out.append(piece);
            proof {
                assert(piece@ =~= seq![pat[i as int]]);
                assert(tail.skip(1) =~= pat.skip(i as int + 1));
                match render_pattern(*c, pat.skip(i as int + 1)) {
                    Some(rest) => {
                        assert(render_pattern(*c, tail) == Some(seq![tail[0]] + rest));
                        assert(out0 + (seq![tail[0]] + rest) =~= out@ + rest);
                    },
                    None => {},
                }
            }
            i = i + 1;
        } else if n - i == 1 {
            proof {
                assert(tail.len() == 1);
                assert(render_pattern(*c, tail) is None);
            }
            return Err(PatternError::InvalidDirective);
        } else {
            let d1 = pattern.get_char(i + 1);
            proof {
                assert(tail[1] == pat[i as int + 1]);
            }
            if d1 == '.' || d1 == ':' {
                if n - i == 2 {
                    proof {
                        assert(tail.len() == 2);
                        assert(!is_directive_char(tail[1]));
                        assert(render_pattern(*c, tail) is None);
                    }
                    return Err(PatternError::InvalidDirective);
                }
                let d2 = pattern.get_char(i + 2);
                proof {
                    assert(tail[2] == pat[i as int + 2]);
                    assert(tail.skip(3) =~= pat.skip(i as int + 3));
                }
                if d1 == '.' && d2 == 'f' {
                    push_frac(&mut out, c.nanos);
                    proof {
                        match render_pattern(*c, pat.skip(i as int + 3)) {
                            Some(rest) => {
                                assert(render_pattern(*c, tail) == Some(
                                    frac_chars(c.nanos as int) + rest,
                                ));
                                assert(out0 + (frac_chars(c.nanos as int) + rest) =~= out@ + rest);
                            },
                            None => {},
                        }
                    }
                    i = i + 3;
                } else if d1 == ':' && d2 == 'z' {
                    push_offset(&mut out, c.offset_seconds, true);
                    proof {
                        match render_pattern(*c, pat.skip(i as int + 3)) {
                            Some(rest) => {
                                assert(render_pattern(*c, tail) == Some(
                                    offset_chars(c.offset_seconds as int, true) + rest,
                                ));
                                assert(out0 + (offset_chars(c.offset_seconds as int, true) + rest)
                                    =~= out@ + rest);
                            },
                            None => {},
                        }
                    }
                    i = i + 3;
                } else {
                    proof {
                        assert(!is_directive_char(tail[1]));
                        assert(render_pattern(*c, tail) is None);
                    }
                    return Err(PatternError::InvalidDirective);
                }
            } else if d1 == 'Y' || d1 == 'm' || d1 == 'd' || d1 == 'H' || d1 == 'M' || d1 == 'S'
                || d1 == 'f' || d1 == 'z' || d1 == '%' {
                proof {
                    reveal_strlit("%");
                    assert(tail.skip(2) =~= pat.skip(i as int + 2));
                }
                if d1 == 'Y' {
                    let p = padded_dec(c.year as u64, 4);
                    out.append(p.as_str());
                } else if d1 == 'm' {
                    let p = padded_dec(c.month as u64, 2);
                    out.append(p.as_str());
                } else if d1 == 'd' {
                    let p = padded_dec(c.day as u64, 2);
                    out.append(p.as_str());
                } else if d1 == 'H' {
                    let p = padded_dec(c.hour as u64, 2);
                    out.append(p.as_str());
                } else if d1 == 'M' {
                    let p = padded_dec(c.minute as u64, 2);
                    out.append(p.as_str());
                } else if d1 == 'S' {
                    let p = padded_dec(c.second as u64, 2);
                    out.append(p.as_str());
                } else if d1 == 'f' {
                    let p = padded_dec(c.nanos as u64, 9);
                    out.append(p.as_str());
                } else if d1 == 'z' {
                    push_offset(&mut out, c.offset_seconds, false);
                } else {
                    out.append("%");
                }
                proof {
                    assert(is_directive_char(tail[1]));
                    assert(out@ =~= out0 + directive_chars(*c, tail[1]));
                    match render_pattern(*c, pat.skip(i as int + 2)) {
                        Some(rest) => {
                            assert(render_pattern(*c, tail) == Some(
                                directive_chars(*c, tail[1]) + rest,
                            ));
                            assert(out0 + (directive_chars(*c, tail[1]) + rest) =~= out@ + rest);
                        },
                        None => {},
                    }
                }
                i = i + 2;
            } else {
                proof {
                    assert(!is_directive_char(tail[1]));
                    assert(render_pattern(*c, tail) is None);
                }
                return Err(PatternError::InvalidDirective);
            }
        }
    }
    proof {
        assert(pattern@.skip(n as int) =~= Seq::<char>::empty());
        assert(render_pattern(*c, pattern@.skip(n as int)) == Some(Seq::<char>::empty()));
        match render_pattern(*c, pattern@) {
            Some(whole) => {
                assert(whole =~= out@ + Seq::<char>::empty());
                assert(whole =~= out@);
            },
            None => {},
        }
    }
    Ok(out)
}

} // verus!
