//! Duration literals.
//!
//! A duration literal is one of four shapes, tried in this order:
//! `H:M:S`, `NhNmNs`, `NwNdNh` (weeks, days, hours) and `NdNhNm`
//! (days, hours, minutes). Every shape is three decimal numbers with fixed
//! separators and nothing else around them; all reduce to seconds.

use vstd::prelude::*;
use crate::ParseError;
use crate::num::{
    dec_value,
    lemma_all_digits_radix,
    lemma_radix_value_bounds,
    scan_u64_range,
    NumScan,
};
use crate::text::{all_digits, find_off, str_chars};

verus! {

pub const SECS_PER_MINUTE: u64 = 60;

pub const SECS_PER_HOUR: u64 = 3600;

pub const SECS_PER_DAY: u64 = 86400;

pub const SECS_PER_WEEK: u64 = 604800;

/// Three numbers `a`, `b`, `c` written `AsBsC` or `AsBsCs'` for separators
/// `s`, `s'`: the first separator character ends the first number, and the
/// whole literal must be consumed.
#[verifier::opaque]
pub open spec fn triple_of(s: Seq<char>, c1: char, c2: char, c3: Option<char>) -> Option<
    (int, int, int),
> {
    let i = find_off(s, c1) as int;
    if i >= s.len() {
        None
    } else {
        let t1 = s.take(i);
        let r1 = s.skip(i + 1);
        let j = find_off(r1, c2) as int;
        if j >= r1.len() {
            None
        } else {
            let t2 = r1.take(j);
            let r2 = r1.skip(j + 1);
            if !(t1.len() > 0 && all_digits(t1) && t2.len() > 0 && all_digits(t2)) {
                None
            } else {
                match c3 {
                    None => if r2.len() > 0 && all_digits(r2) {
                        Some((dec_value(t1), dec_value(t2), dec_value(r2)))
                    } else {
                        None
                    },
                    Some(c) => if r2.len() > 1 && r2.last() == c && all_digits(r2.drop_last()) {
                        Some((dec_value(t1), dec_value(t2), dec_value(r2.drop_last())))
                    } else {
                        None
                    },
                }
            }
        }
    }
}

/// The seconds denoted by a duration literal, if it matches any of the
/// four supported shapes; the first matching shape decides.
#[verifier::opaque]
pub open spec fn duration_secs(s: Seq<char>) -> Option<int> {
    match triple_of(s, ':', ':', None) {
        Some(t) => Some(t.0 * SECS_PER_HOUR + t.1 * SECS_PER_MINUTE + t.2),
        None => match triple_of(s, 'h', 'm', Some('s')) {
            Some(t) => Some(t.0 * SECS_PER_HOUR + t.1 * SECS_PER_MINUTE + t.2),
            None => match triple_of(s, 'w', 'd', Some('h')) {
                Some(t) => Some(t.0 * SECS_PER_WEEK + t.1 * SECS_PER_DAY + t.2 * SECS_PER_HOUR),
                None => match triple_of(s, 'd', 'h', Some('m')) {
                    Some(t) => Some(
                        t.0 * SECS_PER_DAY + t.1 * SECS_PER_HOUR + t.2 * SECS_PER_MINUTE,
                    ),
                    None => None,
                },
            },
        },
    }
}

/// A non-negative count of seconds.
#[derive(Clone, Copy, Debug, PartialEq, Eq, Structural)]
pub struct Duration {
    pub secs: u64,
}

/// What parsing one triple shape found.
enum TripleScan {
    /// All three numbers, each fitting in a `u64`.
    Found(u64, u64, u64),
    /// The shape matched but a number exceeds `u64::MAX`.
    TooLarge,
    /// The shape did not match.
    NoMatch,
}

#[verifier::loop_isolation(false)]
fn scan_triple(s: &Vec<char>, c1: char, c2: char, c3: Option<char>) -> (r: TripleScan)
    ensures
        match r {
            TripleScan::Found(a, b, c) => triple_of(s@, c1, c2, c3) == Some(
                (a as int, b as int, c as int),
            ),
            TripleScan::TooLarge => match triple_of(s@, c1, c2, c3) {
                Some(t) => t.0 > u64::MAX || t.1 > u64::MAX || t.2 > u64::MAX,
                None => false,
            },
            TripleScan::NoMatch => triple_of(s@, c1, c2, c3) is None,
        },
{
    proof {
        reveal(triple_of);
        assert(s@.skip(0) =~= s@);
    }
    let i = crate::text::find_char(s, 0, c1);
    if i == s.len() {
        return TripleScan::NoMatch;
    }
    let ghost r1 = s@.skip(i + 1);
    let j = crate::text::find_char(s, i + 1, c2);
    proof {
        assert(r1 =~= s@.skip(i as int + 1));
    }
    if j == s.len() {
        proof {
            assert(find_off(r1, c2) as int >= r1.len());
        }
        return TripleScan::NoMatch;
    }
    proof {
        assert(s@.take(i as int) =~= s@.subrange(0, i as int));
        assert(r1.take(j - i - 1) =~= s@.subrange(i as int + 1, j as int));
        assert(r1.skip(j - i - 1 + 1) =~= s@.subrange(j as int + 1, s@.len() as int));
    }
    let ghost t1 = s@.take(i as int);
    let ghost t2 = r1.take(j - i - 1);
    let ghost r2 = r1.skip(j - i);
    proof {
        assert(r2 =~= s@.subrange(j as int + 1, s@.len() as int));
    }
    let a = scan_u64_range(s, 0, i);
    let b = scan_u64_range(s, i + 1, j);
    match c3 {
        None => {
            let c = scan_u64_range(s, j + 1, s.len());
            finish_triple(a, b, c, Ghost(t1), Ghost(t2), Ghost(r2))
        },
        Some(cc) => {
            if j + 1 == s.len() || s[s.len() - 1] != cc {
                proof {
                    if r2.len() > 0 {
                        assert(r2.last() == s@[s@.len() - 1]);
                    }
                }
                return TripleScan::NoMatch;
            }
            proof {
                assert(r2.drop_last() =~= s@.subrange(j as int + 1, s@.len() - 1));
                assert(r2.last() == s@[s@.len() - 1]);
            }
            let c = scan_u64_range(s, j + 1, s.len() - 1);
            finish_triple(a, b, c, Ghost(t1), Ghost(t2), Ghost(r2.drop_last()))
        },
    }
}

/// Combines the three number fields once the separators have matched.
fn finish_triple(
    a: NumScan,
    b: NumScan,
    c: NumScan,
    Ghost(t1): Ghost<Seq<char>>,
    Ghost(t2): Ghost<Seq<char>>,
    Ghost(t3): Ghost<Seq<char>>,
) -> (r: TripleScan)
    requires
        field_scanned(a, t1),
        field_scanned(b, t2),
        field_scanned(c, t3),
    ensures
        ({
            let whole = if t1.len() > 0 && all_digits(t1) && t2.len() > 0 && all_digits(t2)
                && t3.len() > 0 && all_digits(t3) {
                Some((dec_value(t1), dec_value(t2), dec_value(t3)))
            } else {
                None::<(int, int, int)>
            };
            match r {
                TripleScan::Found(x, y, z) => whole == Some((x as int, y as int, z as int)),
                TripleScan::TooLarge => match whole {
                    Some(t) => t.0 > u64::MAX || t.1 > u64::MAX || t.2 > u64::MAX,
                    None => false,
                },
                TripleScan::NoMatch => whole is None,
            }
        }),
{
    match (a, b, c) {
        (NumScan::Val(x), NumScan::Val(y), NumScan::Val(z)) => TripleScan::Found(x, y, z),
        (NumScan::Bad, _, _) => TripleScan::NoMatch,
        (_, NumScan::Bad, _) => TripleScan::NoMatch,
        (_, _, NumScan::Bad) => TripleScan::NoMatch,
        _ => TripleScan::TooLarge,
    }
}

/// What `scan_u64_range` guarantees of a field and its text.
spec fn field_scanned(a: NumScan, t: Seq<char>) -> bool {
    match a {
        NumScan::Val(v) => t.len() > 0 && all_digits(t) && dec_value(t) == v as int,
        NumScan::Big => t.len() > 0 && all_digits(t) && dec_value(t) > u64::MAX,
        NumScan::Bad => !(t.len() > 0 && all_digits(t)),
    }
}

/// A matched triple's fields are values of digit strings, hence non-negative.
proof fn lemma_triple_nonneg(s: Seq<char>, c1: char, c2: char, c3: Option<char>)
    ensures
        match triple_of(s, c1, c2, c3) {
            Some(t) => t.0 >= 0 && t.1 >= 0 && t.2 >= 0,
            None => true,
        },
{
    reveal(triple_of);
    if triple_of(s, c1, c2, c3) is Some {
        let i = find_off(s, c1) as int;
        let t1 = s.take(i);
        let r1 = s.skip(i + 1);
        let j = find_off(r1, c2) as int;
        let t2 = r1.take(j);
        let r2 = r1.skip(j + 1);
        lemma_all_digits_radix(t1);
        lemma_radix_value_bounds(t1, 10);
        lemma_all_digits_radix(t2);
        lemma_radix_value_bounds(t2, 10);
        match c3 {
            None => {
                lemma_all_digits_radix(r2);
                lemma_radix_value_bounds(r2, 10);
            },
            Some(_) => {
                lemma_all_digits_radix(r2.drop_last());
                lemma_radix_value_bounds(r2.drop_last(), 10);
            },
        }
    }
}

impl Duration {
    /// Parses a duration literal; the result is its exact seconds count.
    /// Fails with `UnrecognizedDurationFormat` when the literal matches no
    /// supported shape or its seconds count does not fit in a `u64`.
    pub fn parse(s: &str) -> (r: Result<Duration, ParseError>)
        ensures
            match r {
                Ok(d) => duration_secs(s@) == Some(d.secs as int),
                Err(e) => e == ParseError::UnrecognizedDurationFormat && match duration_secs(s@) {
                    Some(v) => v > u64::MAX,
                    None => true,
                },
            },
    {
        let chars = str_chars(s);
        parse_duration_chars(&chars)
    }
}

/// `Duration::parse` on an already-split character buffer.
pub fn parse_duration_chars(s: &Vec<char>) -> (r: Result<Duration, ParseError>)
    ensures
        match r {
            Ok(d) => duration_secs(s@) == Some(d.secs as int),
            Err(e) => e == ParseError::UnrecognizedDurationFormat && match duration_secs(s@) {
                Some(v) => v > u64::MAX,
                None => true,
            },
        },
{
    proof {
        reveal(duration_secs);
    }
    match scan_triple(s, ':', ':', None) {
        TripleScan::Found(h, m, sec) => {
            return combine(h, m, sec, SECS_PER_HOUR, SECS_PER_MINUTE, 1);
        },
        TripleScan::TooLarge => {
            proof {
                lemma_triple_nonneg(s@, ':', ':', None);
                lemma_component_large(triple_of(s@, ':', ':', None).unwrap(), 3600, 60, 1);
            }
            return Err(ParseError::UnrecognizedDurationFormat);
        },
        TripleScan::NoMatch => {},
    }
    match scan_triple(s, 'h', 'm', Some('s')) {
        TripleScan::Found(h, m, sec) => {
            return combine(h, m, sec, SECS_PER_HOUR, SECS_PER_MINUTE, 1);
        },
        TripleScan::TooLarge => {
            proof {
                lemma_triple_nonneg(s@, 'h', 'm', Some('s'));
                lemma_component_large(triple_of(s@, 'h', 'm', Some('s')).unwrap(), 3600, 60, 1);
            }
            return Err(ParseError::UnrecognizedDurationFormat);
        },
        TripleScan::NoMatch => {},
    }
    match scan_triple(s, 'w', 'd', Some('h')) {
        TripleScan::Found(w, d, h) => {
            return combine(w, d, h, SECS_PER_WEEK, SECS_PER_DAY, SECS_PER_HOUR);
        },
        TripleScan::TooLarge => {
            proof {
                lemma_triple_nonneg(s@, 'w', 'd', Some('h'));
                lemma_component_large(
                    triple_of(s@, 'w', 'd', Some('h')).unwrap(),
                    604800,
                    86400,
                    3600,
                );
            }
            return Err(ParseError::UnrecognizedDurationFormat);
        },
        TripleScan::NoMatch => {},
    }
    match scan_triple(s, 'd', 'h', Some('m')) {
        TripleScan::Found(d, h, m) => {
            return combine(d, h, m, SECS_PER_DAY, SECS_PER_HOUR, SECS_PER_MINUTE);
        },
        TripleScan::TooLarge => {
            proof {
                lemma_triple_nonneg(s@, 'd', 'h', Some('m'));
                lemma_component_large(
                    triple_of(s@, 'd', 'h', Some('m')).unwrap(),
                    86400,
                    3600,
                    60,
                );
            }
            return Err(ParseError::UnrecognizedDurationFormat);
        },
        TripleScan::NoMatch => {},
    }
    Err(ParseError::UnrecognizedDurationFormat)
}

/// When a triple's field exceeds `u64::MAX` and the triple's fields are
/// non-negative, the weighted sum exceeds `u64::MAX` too.
proof fn lemma_component_large(t: (int, int, int), ma: int, mb: int, mc: int)
    requires
        t.0 >= 0 && t.1 >= 0 && t.2 >= 0,
        t.0 > u64::MAX || t.1 > u64::MAX || t.2 > u64::MAX,
        ma >= 1 && mb >= 1 && mc >= 1,
    ensures
        t.0 * ma + t.1 * mb + t.2 * mc > u64::MAX,
{
    assert(t.0 * ma >= t.0 && t.0 * ma >= 0) by (nonlinear_arith)
        requires
            t.0 >= 0,
            ma >= 1,
    ;
    assert(t.1 * mb >= t.1 && t.1 * mb >= 0) by (nonlinear_arith)
        requires
            t.1 >= 0,
            mb >= 1,
    ;
    assert(t.2 * mc >= t.2 && t.2 * mc >= 0) by (nonlinear_arith)
        requires
            t.2 >= 0,
            mc >= 1,
    ;
}

/// The weighted sum of the three fields, when it fits in a `u64`.
fn combine(a: u64, b: u64, c: u64, ma: u64, mb: u64, mc: u64) -> (r: Result<Duration, ParseError>)
    requires
        ma >= 1 && mb >= 1 && mc >= 1,
        ma <= 604800 && mb <= 604800 && mc <= 604800,
    ensures
        ({
            let v = (a as int) * (ma as int) + (b as int) * (mb as int) + (c as int) * (mc as int);
            match r {
                Ok(d) => d.secs as int == v,
                Err(e) => e == ParseError::UnrecognizedDurationFormat && v > u64::MAX,
            }
        }),
{
    proof {
        assert((a as int) * (ma as int) <= 0xffff_ffff_ffff_ffff * 604800) by (nonlinear_arith)
            requires
                0 <= a as int <= 0xffff_ffff_ffff_ffff,
                1 <= ma as int <= 604800,
        ;
        assert((b as int) * (mb as int) <= 0xffff_ffff_ffff_ffff * 604800) by (nonlinear_arith)
            requires
                0 <= b as int <= 0xffff_ffff_ffff_ffff,
                1 <= mb as int <= 604800,
        ;
        assert((c as int) * (mc as int) <= 0xffff_ffff_ffff_ffff * 604800) by (nonlinear_arith)
            requires
                0 <= c as int <= 0xffff_ffff_ffff_ffff,
                1 <= mc as int <= 604800,
        ;
        assert((a as int) * (ma as int) >= 0) by (nonlinear_arith)
            requires
                a as int >= 0,
                ma as int >= 1,
        ;
        assert((b as int) * (mb as int) >= 0) by (nonlinear_arith)
            requires
                b as int >= 0,
                mb as int >= 1,
        ;
        assert((c as int) * (mc as int) >= 0) by (nonlinear_arith)
            requires
                c as int >= 0,
                mc as int >= 1,
        ;
    }
    let total: u128 = (a as u128) * (ma as u128) + (b as u128) * (mb as u128) + (c as u128) * (
    mc as u128);
    if total > u64::MAX as u128 {
        Err(ParseError::UnrecognizedDurationFormat)
    } else {
        Ok(Duration { secs: total as u64 })
    }
}

} // verus!
