//! Build-timestamp rendering with verified calendar arithmetic.
//!
//! A build instant (seconds and nanoseconds since the Unix epoch) is resolved
//! once per build, either from a reproducible-build override value or from the
//! system clock, and rendered as RFC 3339 text or through a strftime-style
//! pattern, in UTC or shifted to the local timezone offset. The calendar
//! conversion, the override parsing and the rendering are verified; only the
//! clock read and the timezone lookup are taken from chrono on trust.

use vstd::prelude::*;

pub mod civil;
mod clock;
pub mod render;
pub mod resolve;

use civil::{CivilDateTime, civil_from_instant, is_civil_of, lemma_civil_unique};
use render::{PatternError, render_pattern, render_rfc3339, render_with_pattern, rfc3339_chars};
use resolve::{ResolveError, instant_from_override, is_int_string, int_string_value};

verus! {

/// Earliest supported instant: 0000-01-01T00:00:00 UTC, in seconds since the
/// Unix epoch.
pub const MIN_EPOCH_SECS: i64 = -62167219200;

/// Latest supported instant: 9999-12-31T23:59:59 UTC, in seconds since the
/// Unix epoch.
pub const MAX_EPOCH_SECS: i64 = 253402300799;

pub const NANOS_PER_SEC: u32 = 1000000000;

/// A point in time with nanosecond precision, counted from the Unix epoch.
#[derive(Clone, Copy, PartialEq, Eq, Structural, Debug)]
pub struct Instant {
    pub secs: i64,
    pub nanos: u32,
}

impl Instant {
    /// The instant lies in the supported year range 0..=9999 and carries a
    /// normalized sub-second part.
    pub open spec fn wf(self) -> bool {
        &&& MIN_EPOCH_SECS <= self.secs <= MAX_EPOCH_SECS
        &&& self.nanos < NANOS_PER_SEC
    }

    /// Builds an instant, rejecting values outside the supported range.
    pub fn from_epoch(secs: i64, nanos: u32) -> (r: Option<Instant>)
        ensures
            r matches Some(i) ==> i.wf() && i.secs == secs && i.nanos == nanos,
            r is Some <==> MIN_EPOCH_SECS <= secs <= MAX_EPOCH_SECS && nanos < NANOS_PER_SEC,
    {
        if MIN_EPOCH_SECS <= secs && secs <= MAX_EPOCH_SECS && nanos < NANOS_PER_SEC {
            Some(Instant { secs, nanos })
        } else {
            None
        }
    }
}

/// Resolves the reference instant: a present override value must be a decimal
/// count of epoch seconds in the supported range, and pins the instant with
/// whole-second precision; without one, the system clock decides.
pub fn resolve_build_time(override_val: Option<&str>) -> (r: Result<Instant, ResolveError>)
    ensures
        r matches Ok(i) ==> i.wf(),
        match override_val {
            Some(s) => {
                &&& (r matches Ok(i) ==> i.secs == int_string_value(s@) && i.nanos == 0)
                &&& (r is Ok <==> is_int_string(s@) && MIN_EPOCH_SECS <= int_string_value(s@)
                    <= MAX_EPOCH_SECS)
                &&& (r == Err::<Instant, ResolveError>(ResolveError::NotAnInteger)
                    <==> !is_int_string(s@))
            },
            None => r is Err ==> r == Err::<Instant, ResolveError>(ResolveError::OutOfRange),
        },
{
    match override_val {
        Some(s) => instant_from_override(s),
        None => {
            let (secs, nanos) = clock::now_utc();
            match Instant::from_epoch(secs, nanos) {
                Some(i) => Ok(i),
                None => Err(ResolveError::OutOfRange),
            }
        },
    }
}

pub open spec fn pattern_view(pattern: Option<&str>) -> Option<Seq<char>> {
    match pattern {
        None => None,
        Some(p) => Some(p@),
    }
}

/// What a format request renders a civil form to: RFC 3339 when no pattern is
/// given, else the pattern's output, `None` on an invalid directive.
pub open spec fn spec_render(c: CivilDateTime, pattern: Option<Seq<char>>) -> Option<Seq<char>> {
    match pattern {
        None => Some(rfc3339_chars(c)),
        Some(p) => render_pattern(c, p),
    }
}

/// `r` is the outcome the format request owes: the rendered text, or the
/// pattern error exactly when the pattern is invalid.
pub open spec fn renders_to(
    c: CivilDateTime,
    pattern: Option<Seq<char>>,
    r: Result<String, PatternError>,
) -> bool {
    &&& (r matches Ok(s) ==> spec_render(c, pattern) == Some(s@))
    &&& (r is Err <==> spec_render(c, pattern) is None)
}

/// Renders the instant in UTC: RFC 3339 without a pattern, else through the
/// pattern. The civil form rendered is the UTC form of the instant, unique by
/// `civil::lemma_civil_unique`.
pub fn build_time_utc(instant: &Instant, pattern: Option<&str>) -> (r: Result<
    String,
    PatternError,
>)
    requires
        instant.wf(),
    ensures
        exists|c: CivilDateTime|
            #[trigger] is_civil_of(c, instant.secs as int, instant.nanos as int, 0)
                && renders_to(c, pattern_view(pattern), r),
        pattern is None ==> r is Ok,
{
    let c = civil_from_instant(instant.secs, instant.nanos, 0);
    let r = match pattern {
        None => Ok(render_rfc3339(&c)),
        Some(p) => render_with_pattern(&c, p),
    };
    proof {
        assert(is_civil_of(c, instant.secs as int, instant.nanos as int, 0) && renders_to(
            c,
            pattern_view(pattern),
            r,
        ));
    }
    r
}

/// Renders the instant in the host's local timezone: the instant is shifted
/// by the offset chrono reports for it, or by zero when the timezone cannot
/// be determined or the shifted value would leave the supported range.
pub fn build_time_local(instant: &Instant, pattern: Option<&str>) -> (r: Result<
    String,
    PatternError,
>)
    requires
        instant.wf(),
    ensures
        exists|off: int, c: CivilDateTime|
            {
                &&& -86400 < off < 86400
                &&& MIN_EPOCH_SECS <= instant.secs + off <= MAX_EPOCH_SECS
                &&& #[trigger] is_civil_of(c, instant.secs as int, instant.nanos as int, off)
                &&& renders_to(c, pattern_view(pattern), r)
            },
        pattern is None ==> r is Ok,
{
    let raw: i32 = match clock::local_offset_seconds(instant.secs, instant.nanos) {
        Some(o) => o,
        None => 0,
    };
    let shifted: i64 = instant.secs + raw as i64;
    let off: i32 = if MIN_EPOCH_SECS <= shifted && shifted <= MAX_EPOCH_SECS {
        raw
    } else {
        0
    };
    let c = civil_from_instant(instant.secs, instant.nanos, off);
    let r = match pattern {
        None => Ok(render_rfc3339(&c)),
        Some(p) => render_with_pattern(&c, p),
    };
    proof {
        assert(is_civil_of(c, instant.secs as int, instant.nanos as int, off as int) && renders_to(
            c,
            pattern_view(pattern),
            r,
        ));
    }
    r
}

/// The no-argument form: always RFC 3339, in UTC.
pub fn build_timestamp_utc(instant: &Instant) -> (r: String)
    requires
        instant.wf(),
    ensures
        exists|c: CivilDateTime|
            #[trigger] is_civil_of(c, instant.secs as int, instant.nanos as int, 0) && r@
                == rfc3339_chars(c),
{
    let c = civil_from_instant(instant.secs, instant.nanos, 0);
    render_rfc3339(&c)
}

/// The no-argument form: always RFC 3339, in the local timezone.
pub fn build_timestamp_local(instant: &Instant) -> (r: String)
    requires
        instant.wf(),
    ensures
        exists|off: int, c: CivilDateTime|
            {
                &&& -86400 < off < 86400
                &&& MIN_EPOCH_SECS <= instant.secs + off <= MAX_EPOCH_SECS
                &&& #[trigger] is_civil_of(c, instant.secs as int, instant.nanos as int, off)
                &&& r@ == rfc3339_chars(c)
            },
{
    let raw: i32 = match clock::local_offset_seconds(instant.secs, instant.nanos) {
        Some(o) => o,
        None => 0,
    };
    let shifted: i64 = instant.secs + raw as i64;
    let off: i32 = if MIN_EPOCH_SECS <= shifted && shifted <= MAX_EPOCH_SECS {
        raw
    } else {
        0
    };
    let c = civil_from_instant(instant.secs, instant.nanos, off);
    render_rfc3339(&c)
}

/// The pattern whose output is the RFC 3339 default.
pub fn canonical_pattern() -> (r: &'static str)
    ensures
        r@ == "%Y-%m-%dT%H:%M:%S%.f%:z"@,
{
    "%Y-%m-%dT%H:%M:%S%.f%:z"
}

/// The rendering depends only on the resolved instant and the format request:
/// any two renderings of the same instant under the same offset and request
/// agree, however much time passes between them.
pub proof fn lemma_rendering_deterministic(
    c1: CivilDateTime,
    c2: CivilDateTime,
    secs: int,
    nanos: int,
    off: int,
    pattern: Option<Seq<char>>,
    r1: Result<String, PatternError>,
    r2: Result<String, PatternError>,
)
    requires
        is_civil_of(c1, secs, nanos, off),
        is_civil_of(c2, secs, nanos, off),
        renders_to(c1, pattern, r1),
        renders_to(c2, pattern, r2),
    ensures
        r1 is Ok <==> r2 is Ok,
        match (r1, r2) {
            (Ok(s1), Ok(s2)) => s1@ == s2@,
            _ => true,
        },
{
    lemma_civil_unique(c1, c2);
    match (r1, r2) {
        (Ok(s1), Ok(s2)) => {
            assert(spec_render(c1, pattern) == Some(s1@));
            assert(spec_render(c2, pattern) == Some(s2@));
        },
        _ => {},
    }
}

/// The UTC civil form and any local civil form of one instant denote the same
/// absolute time: only the displayed offset and wall-clock fields differ.
pub proof fn lemma_local_utc_same_instant(
    cu: CivilDateTime,
    cl: CivilDateTime,
    secs: int,
    nanos: int,
    off: int,
)
    requires
        is_civil_of(cu, secs, nanos, 0),
        is_civil_of(cl, secs, nanos, off),
    ensures
        cu.abs_seconds() == cl.abs_seconds(),
        cu.nanos == cl.nanos,
{
}

/// The default rendering equals the canonical pattern's: RFC 3339 text is
/// exactly what `%Y-%m-%dT%H:%M:%S%.f%:z` produces for the same civil form.
#[verifier::rlimit(100)]
#[verifier::spinoff_prover]
pub proof fn lemma_default_matches_canonical_pattern(c: CivilDateTime)
    requires
        c.wf(),
    ensures
        render_pattern(c, "%Y-%m-%dT%H:%M:%S%.f%:z"@) == Some(rfc3339_chars(c)),
{
    reveal_strlit("%Y-%m-%dT%H:%M:%S%.f%:z");
    let p = "%Y-%m-%dT%H:%M:%S%.f%:z"@;
    assert(p.len() == 23);
    let r23 = Seq::<char>::empty();
    assert(p.skip(23) =~= Seq::<char>::empty());
    assert(render_pattern(c, p.skip(23)) == Some(r23));
    let r20 = render::offset_chars(c.offset_seconds as int, true) + r23;
    assert(p.skip(20).skip(3) =~= p.skip(23));
    assert(render_pattern(c, p.skip(20)) == Some(r20));
    let r17 = render::frac_chars(c.nanos as int) + r20;
    assert(p.skip(17).skip(3) =~= p.skip(20));
    assert(render_pattern(c, p.skip(17)) == Some(r17));
    let r15 = render::pad_chars(c.second as int, 2) + r17;
    assert(p.skip(15).skip(2) =~= p.skip(17));
    assert(render_pattern(c, p.skip(15)) == Some(r15));
    let r14 = seq![':'] + r15;
    assert(p.skip(14).skip(1) =~= p.skip(15));
    assert(render_pattern(c, p.skip(14)) == Some(r14));
    let r12 = render::pad_chars(c.minute as int, 2) + r14;
    assert(p.skip(12).skip(2) =~= p.skip(14));
    assert(render_pattern(c, p.skip(12)) == Some(r12));
    let r11 = seq![':'] + r12;
    assert(p.skip(11).skip(1) =~= p.skip(12));
    assert(render_pattern(c, p.skip(11)) == Some(r11));
    let r9 = render::pad_chars(c.hour as int, 2) + r11;
    assert(p.skip(9).skip(2) =~= p.skip(11));
    assert(render_pattern(c, p.skip(9)) == Some(r9));
    let r8 = seq!['T'] + r9;
    assert(p.skip(8).skip(1) =~= p.skip(9));
    assert(render_pattern(c, p.skip(8)) == Some(r8));
    let r6 = render::pad_chars(c.day as int, 2) + r8;
    assert(p.skip(6).skip(2) =~= p.skip(8));
    assert(render_pattern(c, p.skip(6)) == Some(r6));
    let r5 = seq!['-'] + r6;
    assert(p.skip(5).skip(1) =~= p.skip(6));
    assert(render_pattern(c, p.skip(5)) == Some(r5));
    let r3 = render::pad_chars(c.month as int, 2) + r5;
    assert(p.skip(3).skip(2) =~= p.skip(5));
    assert(render_pattern(c, p.skip(3)) == Some(r3));
    let r2 = seq!['-'] + r3;
    assert(p.skip(2).skip(1) =~= p.skip(3));
    assert(render_pattern(c, p.skip(2)) == Some(r2));
    let r0 = render::pad_chars(c.year as int, 4) + r2;
    assert(p.skip(0).skip(2) =~= p.skip(2));
    assert(render_pattern(c, p.skip(0)) == Some(r0));
    assert(p.skip(0) =~= p);
    assert(r0 =~= rfc3339_chars(c));
}

} // verus!
