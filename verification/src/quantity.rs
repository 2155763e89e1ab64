//! Scaled quantities: a decimal mantissa with a magnitude suffix.
//!
//! The router prints large counters as `34.8K` or `10Gi`. Both the decimal
//! and the binary suffix families scale by powers of 1024, after the
//! convention of the tool that prints them. The supported ceiling is the
//! exa range: the zetta and yotta suffixes are recognized but always
//! reported as `QuantityOverflow`, as is any value above `u64::MAX`.

use vstd::prelude::*;
use vstd::arithmetic::div_mod::lemma_hoist_over_denominator;
use crate::ParseError;
use crate::num::{dec_value, lemma_all_digits_radix, lemma_radix_value_bounds, pow_radix, scan_u64_range, NumScan};
use crate::text::{all_digits, is_digit_char, str_chars};

verus! {

/// A magnitude suffix: either family scales by powers of 1024.
#[derive(Clone, Copy, Debug, PartialEq, Eq, Structural)]
pub enum ScalePrefix {
    Unit,
    Kilo,
    Mega,
    Giga,
    Tera,
    Peta,
    Exa,
    Zetta,
    Yotta,
    Kibi,
    Mebi,
    Gibi,
    Tebi,
    Pebi,
    Exbi,
    Zebi,
    Yobi,
}

/// The largest rank whose scaling is supported.
pub const MAX_SUPPORTED_RANK: u32 = 6;

impl ScalePrefix {
    /// How many factors of 1024 the prefix denotes.
    pub open spec fn rank(self) -> nat {
        match self {
            ScalePrefix::Unit => 0,
            ScalePrefix::Kilo | ScalePrefix::Kibi => 1,
            ScalePrefix::Mega | ScalePrefix::Mebi => 2,
            ScalePrefix::Giga | ScalePrefix::Gibi => 3,
            ScalePrefix::Tera | ScalePrefix::Tebi => 4,
            ScalePrefix::Peta | ScalePrefix::Pebi => 5,
            ScalePrefix::Exa | ScalePrefix::Exbi => 6,
            ScalePrefix::Zetta | ScalePrefix::Zebi => 7,
            ScalePrefix::Yotta | ScalePrefix::Yobi => 8,
        }
    }

    /// The rank, computed.
    pub fn rank_u32(self) -> (r: u32)
        ensures
            r == self.rank(),
    {
        match self {
            ScalePrefix::Unit => 0,
            ScalePrefix::Kilo | ScalePrefix::Kibi => 1,
            ScalePrefix::Mega | ScalePrefix::Mebi => 2,
            ScalePrefix::Giga | ScalePrefix::Gibi => 3,
            ScalePrefix::Tera | ScalePrefix::Tebi => 4,
            ScalePrefix::Peta | ScalePrefix::Pebi => 5,
            ScalePrefix::Exa | ScalePrefix::Exbi => 6,
            ScalePrefix::Zetta | ScalePrefix::Zebi => 7,
            ScalePrefix::Yotta | ScalePrefix::Yobi => 8,
        }
    }
}

/// The prefix written by a suffix string, if it is one.
pub open spec fn prefix_of(p: Seq<char>) -> Option<ScalePrefix> {
    if p.len() == 0 {
        Some(ScalePrefix::Unit)
    } else if p.len() == 1 {
        if p[0] == 'K' {
            Some(ScalePrefix::Kilo)
        } else if p[0] == 'M' {
            Some(ScalePrefix::Mega)
        } else if p[0] == 'G' {
            Some(ScalePrefix::Giga)
        } else if p[0] == 'T' {
            Some(ScalePrefix::Tera)
        } else if p[0] == 'P' {
            Some(ScalePrefix::Peta)
        } else if p[0] == 'E' {
            Some(ScalePrefix::Exa)
        } else if p[0] == 'Z' {
            Some(ScalePrefix::Zetta)
        } else if p[0] == 'Y' {
            Some(ScalePrefix::Yotta)
        } else {
            None
        }
    } else if p.len() == 2 && p[1] == 'i' {
        if p[0] == 'K' {
            Some(ScalePrefix::Kibi)
        } else if p[0] == 'M' {
            Some(ScalePrefix::Mebi)
        } else if p[0] == 'G' {
            Some(ScalePrefix::Gibi)
        } else if p[0] == 'T' {
            Some(ScalePrefix::Tebi)
        } else if p[0] == 'P' {
            Some(ScalePrefix::Pebi)
        } else if p[0] == 'E' {
            Some(ScalePrefix::Exbi)
        } else if p[0] == 'Z' {
            Some(ScalePrefix::Zebi)
        } else if p[0] == 'Y' {
            Some(ScalePrefix::Yobi)
        } else {
            None
        }
    } else {
        None
    }
}

/// Length of the leading run of decimal digits.
pub open spec fn digit_run(s: Seq<char>) -> nat
    decreases s.len(),
{
    if s.len() == 0 {
        0
    } else if is_digit_char(s[0]) {
        1 + digit_run(s.skip(1))
    } else {
        0
    }
}

pub proof fn lemma_digit_run(s: Seq<char>)
    ensures
        digit_run(s) <= s.len(),
        digit_run(s) < s.len() ==> !is_digit_char(s[digit_run(s) as int]),
        forall|j: int| 0 <= j < digit_run(s) ==> is_digit_char(#[trigger] s[j]),
    decreases s.len(),
{
    if s.len() > 0 && is_digit_char(s[0]) {
        lemma_digit_run(s.skip(1));
        assert forall|j: int| 0 <= j < digit_run(s) implies is_digit_char(s[j]) by {
            if j > 0 {
                assert(s.skip(1)[j - 1] == s[j]);
            }
        }
    }
}

/// How many fractional digits a mantissa may carry.
pub const MAX_FRACTION_DIGITS: u32 = 18;

/// Decomposes a magnitude literal into the whole digits, the fraction
/// digits (empty when there is no point) and the suffix: digits, an
/// optional point with one to eighteen digits, then a recognized suffix,
/// with nothing around them.
#[verifier::opaque]
pub open spec fn quantity_parts(s: Seq<char>) -> Option<(Seq<char>, Seq<char>, ScalePrefix)> {
    let i = digit_run(s) as int;
    if i == 0 {
        None
    } else {
        let rest = s.skip(i);
        if rest.len() > 0 && rest[0] == '.' {
            let f = digit_run(rest.skip(1)) as int;
            if f == 0 || f > MAX_FRACTION_DIGITS {
                None
            } else {
                match prefix_of(rest.skip(1).skip(f)) {
                    Some(p) => Some((s.take(i), rest.skip(1).take(f), p)),
                    None => None,
                }
            }
        } else {
            match prefix_of(rest) {
                Some(p) => Some((s.take(i), Seq::empty(), p)),
                None => None,
            }
        }
    }
}

/// The integer a magnitude literal denotes: the whole and fractional
/// digits scaled by `1024^rank`, truncated toward zero.
pub open spec fn scaled_value_of(whole: int, frac: int, frac_scale: nat, rank: nat) -> int {
    (whole * pow_radix(10, frac_scale) + frac) * pow_radix(1024, rank) / pow_radix(10, frac_scale)
}

/// A parsed magnitude literal: `whole.frac × 1024^rank(prefix)`, with
/// `frac` carrying `frac_scale` decimal digits.
#[derive(Clone, Copy, Debug, PartialEq, Eq, Structural)]
pub struct ScaledQuantity {
    pub whole: u64,
    pub frac: u64,
    pub frac_scale: u32,
    pub prefix: ScalePrefix,
}

impl ScaledQuantity {
    /// Whether the parts are in range: the fraction is a proper decimal
    /// fraction of at most eighteen digits.
    pub open spec fn wf(self) -> bool {
        self.frac_scale <= MAX_FRACTION_DIGITS && self.frac < pow_radix(
            10,
            self.frac_scale as nat,
        )
    }

    /// The denoted integer.
    pub open spec fn spec_value(self) -> int {
        scaled_value_of(
            self.whole as int,
            self.frac as int,
            self.frac_scale as nat,
            self.prefix.rank(),
        )
    }

    /// A whole number with no suffix.
    pub fn standalone(n: u64) -> (r: ScaledQuantity)
        ensures
            r.wf(),
            r == (ScaledQuantity {
                whole: n,
                frac: 0,
                frac_scale: 0,
                prefix: ScalePrefix::Unit,
            }),
    {
        ScaledQuantity { whole: n, frac: 0, frac_scale: 0, prefix: ScalePrefix::Unit }
    }

    /// A whole number with a suffix.
    pub fn prefixed(n: u64, p: ScalePrefix) -> (r: ScaledQuantity)
        ensures
            r.wf(),
            r == (ScaledQuantity { whole: n, frac: 0, frac_scale: 0, prefix: p }),
    {
        ScaledQuantity { whole: n, frac: 0, frac_scale: 0, prefix: p }
    }

    /// The denoted integer, exactly; `QuantityOverflow` when the suffix is
    /// beyond the exa range or the value exceeds `u64::MAX` — never a
    /// wrapped or truncated stand-in.
    pub fn to_u64(&self) -> (r: Result<u64, ParseError>)
        requires
            self.wf(),
        ensures
            match r {
                Ok(v) => self.prefix.rank() <= MAX_SUPPORTED_RANK && self.spec_value() == v as int,
                Err(e) => e == ParseError::QuantityOverflow && (self.prefix.rank()
                    > MAX_SUPPORTED_RANK || self.spec_value() > u64::MAX),
            },
    {
        let rank = self.prefix.rank_u32();
        if rank > MAX_SUPPORTED_RANK {
            return Err(ParseError::QuantityOverflow);
        }
        proof {
            reveal_with_fuel(pow_radix, 19);
            assert(pow_radix(10, 18) == 0xde0b6b3a7640000);
            reveal_with_fuel(pow_radix, 7);
            assert(pow_radix(1024, 6) == 0x1000000000000000);
        }
        let scale: u64 = pow1024_u64(rank);
        let denom: u64 = pow10_u64(self.frac_scale);
        proof {
            let w = self.whole as int;
            let f = self.frac as int;
            let p = pow_radix(1024, rank as nat);
            let d = pow_radix(10, self.frac_scale as nat);
            assert(w * p <= 0xffff_ffff_ffff_ffff * 0x1000000000000000 && w * p >= 0)
                by (nonlinear_arith)
                requires
                    0 <= w <= 0xffff_ffff_ffff_ffff,
                    1 <= p <= 0x1000000000000000,
            ;
            assert(f * p <= 0xde0b6b3a7640000 * 0x1000000000000000 && f * p >= 0)
                by (nonlinear_arith)
                requires
                    0 <= f < 0xde0b6b3a7640000,
                    1 <= p <= 0x1000000000000000,
            ;
            // (w * d + f) * p == (w * p) * d + f * p
            assert((w * d + f) * p == (w * p) * d + f * p) by (nonlinear_arith);
            lemma_hoist_over_denominator(f * p, w * p, d as nat);
            assert(self.spec_value() == w * p + (f * p) / d);
        }
        let a: u128 = (self.whole as u128) * (scale as u128);
        let b: u128 = (self.frac as u128) * (scale as u128);
        let c: u128 = b / (denom as u128);
        let total: u128 = a + c;
        if total > u64::MAX as u128 {
            Err(ParseError::QuantityOverflow)
        } else {
            Ok(total as u64)
        }
    }
}

/// A whole-number magnitude literal denotes exactly its number scaled by
/// `1024^rank`: truncation only ever acts on a fractional mantissa.
pub proof fn lemma_whole_quantity_value(q: ScaledQuantity)
    requires
        q.frac == 0,
        q.frac_scale == 0,
    ensures
        q.spec_value() == q.whole * pow_radix(1024, q.prefix.rank()),
{
    reveal_with_fuel(pow_radix, 1);
    assert(pow_radix(10, 0) == 1);
    let v = (q.whole as int) * pow_radix(1024, q.prefix.rank());
    crate::num::lemma_pow_radix_pos(1024, q.prefix.rank());
    assert((q.whole as int) * 1 == q.whole as int) by (nonlinear_arith);
    vstd::arithmetic::div_mod::lemma_div_multiples_vanish(v, 1);
    assert((1int * v) == v) by (nonlinear_arith);
}

/// `1024^rank` for the supported ranks.
fn pow1024_u64(rank: u32) -> (r: u64)
    requires
        rank <= 6,
    ensures
        r == pow_radix(1024, rank as nat),
        1 <= r <= 0x1000000000000000,
{
    proof {
        reveal_with_fuel(pow_radix, 7);
    }
    if rank == 0 {
        1
    } else if rank == 1 {
        1024
    } else if rank == 2 {
        0x100000
    } else if rank == 3 {
        0x40000000
    } else if rank == 4 {
        0x10000000000
    } else if rank == 5 {
        0x4000000000000
    } else {
        0x1000000000000000
    }
}

/// `10^n` for `n` up to eighteen.
#[verifier::loop_isolation(false)]
fn pow10_u64(n: u32) -> (r: u64)
    requires
        n <= 18,
    ensures
        r == pow_radix(10, n as nat),
        1 <= r <= 0xde0b6b3a7640000,
{
    proof {
        reveal_with_fuel(pow_radix, 19);
    }
    let mut r: u64 = 1;
    let mut i: u32 = 0;
    while i < n
        invariant
            i <= n <= 18,
            r == pow_radix(10, i as nat),
            r <= 0xde0b6b3a7640000,
        decreases n - i,
    {
        proof {
            assert(pow_radix(10, (i + 1) as nat) == 10 * pow_radix(10, i as nat));
            crate::num::lemma_pow_radix_mono(10, (i + 1) as nat, 18);
            assert(pow_radix(10, 18) == 0xde0b6b3a7640000);
        }
        r = r * 10;
        i += 1;
    }
    proof {
        crate::num::lemma_pow_radix_pos(10, n as nat);
    }
    r
}

/// Parses a magnitude literal from a character buffer. `Ok` carries the
/// exact decomposition; `MalformedHeader` reports a literal outside the
/// format; `QuantityOverflow` reports whole digits beyond `u64::MAX`.
#[verifier::loop_isolation(false)]
pub fn parse_scaled_chars(s: &Vec<char>) -> (r: Result<ScaledQuantity, ParseError>)
    ensures
        match r {
            Ok(q) => q.wf() && match quantity_parts(s@) {
                Some(parts) => q.whole as int == dec_value(parts.0) && q.frac as int == dec_value(
                    parts.1,
                ) && q.frac_scale == parts.1.len() && q.prefix == parts.2,
                None => false,
            },
            Err(e) => match quantity_parts(s@) {
                Some(parts) => e == ParseError::QuantityOverflow && dec_value(parts.0) > u64::MAX,
                None => e == ParseError::MalformedHeader,
            },
        },
{
    proof {
        reveal(quantity_parts);
        assert(s@.skip(0) =~= s@);
        lemma_digit_run(s@);
    }
    let i = digit_run_end(s, 0);
    if i == 0 {
        return Err(ParseError::MalformedHeader);
    }
    let ghost parts_whole = s@.take(i as int);
    proof {
        assert(parts_whole =~= s@.subrange(0, i as int));
    }
    let ghost rest = s@.skip(i as int);
    let mut frac_lo = i;
    let mut frac_hi = i;
    let mut suffix_lo = i;
    if i < s.len() && s[i] == '.' {
        proof {
            assert(rest[0] == s@[i as int]);
            lemma_digit_run(rest.skip(1));
            assert(rest.skip(1) =~= s@.skip(i as int + 1));
        }
        let f_end = digit_run_end(s, i + 1);
        let f = f_end - (i + 1);
        if f == 0 || f > MAX_FRACTION_DIGITS as usize {
            return Err(ParseError::MalformedHeader);
        }
        frac_lo = i + 1;
        frac_hi = f_end;
        suffix_lo = f_end;
        proof {
            assert(rest.skip(1).take(f as int) =~= s@.subrange(i as int + 1, f_end as int));
            assert(rest.skip(1).skip(f as int) =~= s@.skip(f_end as int));
        }
    } else {
        proof {
            if rest.len() > 0 {
                assert(rest[0] == s@[i as int]);
            }
        }
    }
    let prefix = match parse_prefix(s, suffix_lo) {
        Some(p) => p,
        None => {
            return Err(ParseError::MalformedHeader);
        },
    };
    let ghost parts_frac = s@.subrange(frac_lo as int, frac_hi as int);
    let frac: u64 = if frac_lo == frac_hi {
        proof {
            assert(parts_frac =~= Seq::<char>::empty());
            reveal_with_fuel(pow_radix, 1);
        }
        0
    } else {
        match scan_u64_range(s, frac_lo, frac_hi) {
            NumScan::Val(v) => {
                proof {
                    lemma_all_digits_radix(parts_frac);
                    lemma_radix_value_bounds(parts_frac, 10);
                }
                v
            },
            _ => {
                proof {
                    assert forall|j: int| 0 <= j < parts_frac.len() implies is_digit_char(
                        #[trigger] parts_frac[j],
                    ) by {
                        assert(parts_frac[j] == s@[frac_lo + j]);
                    }
                    lemma_all_digits_radix(parts_frac);
                    lemma_radix_value_bounds(parts_frac, 10);
                    crate::num::lemma_pow_radix_mono(10, parts_frac.len() as nat, 18);
                    reveal_with_fuel(pow_radix, 19);
                    assert(pow_radix(10, 18) == 0xde0b6b3a7640000);
                    assert(false);
                }
                0
            },
        }
    };
    match scan_u64_range(s, 0, i) {
        NumScan::Val(w) => {
            proof {
                lemma_all_digits_radix(parts_frac);
                lemma_radix_value_bounds(parts_frac, 10);
                crate::num::lemma_pow_radix_mono(10, parts_frac.len() as nat, 18);
            }
            Ok(
                ScaledQuantity {
                    whole: w,
                    frac,
                    frac_scale: (frac_hi - frac_lo) as u32,
                    prefix,
                },
            )
        },
        NumScan::Big => Err(ParseError::QuantityOverflow),
        NumScan::Bad => {
            proof {
                assert forall|j: int| 0 <= j < parts_whole.len() implies is_digit_char(
                    #[trigger] parts_whole[j],
                ) by {
                    assert(parts_whole[j] == s@[j]);
                }
                assert(false);
            }
            Err(ParseError::MalformedHeader)
        },
    }
}

/// Parses a magnitude literal from a borrowed string.
pub fn parse_scaled(s: &str) -> (r: Result<ScaledQuantity, ParseError>)
    ensures
        match r {
            Ok(q) => q.wf() && match quantity_parts(s@) {
                Some(parts) => q.whole as int == dec_value(parts.0) && q.frac as int == dec_value(
                    parts.1,
                ) && q.frac_scale == parts.1.len() && q.prefix == parts.2,
                None => false,
            },
            Err(e) => match quantity_parts(s@) {
                Some(parts) => e == ParseError::QuantityOverflow && dec_value(parts.0) > u64::MAX,
                None => e == ParseError::MalformedHeader,
            },
        },
{
    let chars = str_chars(s);
    parse_scaled_chars(&chars)
}

/// The end of the run of decimal digits starting at `from`.
fn digit_run_end(s: &Vec<char>, from: usize) -> (r: usize)
    requires
        from <= s@.len(),
    ensures
        r == from + digit_run(s@.skip(from as int)),
        from <= r <= s@.len(),
    decreases s@.len() - from,
{
    proof {
        lemma_digit_run(s@.skip(from as int));
    }
    if from == s.len() {
        assert(s@.skip(from as int) =~= Seq::<char>::empty());
        from
    } else if crate::text::digit_char(s[from]) {
        let r = digit_run_end(s, from + 1);
        proof {
            assert(s@.skip(from as int).skip(1) =~= s@.skip(from as int + 1));
        }
        r
    } else {
        from
    }
}

/// Recognizes the magnitude suffix beginning at `from`.
fn parse_prefix(s: &Vec<char>, from: usize) -> (r: Option<ScalePrefix>)
    requires
        from <= s@.len(),
    ensures
        r == prefix_of(s@.skip(from as int)),
{
    let ghost p = s@.skip(from as int);
    let n = s.len() - from;
    proof {
        assert(p.len() == n);
        if n >= 1 {
            assert(p[0] == s@[from as int]);
        }
        if n >= 2 {
            assert(p[1] == s@[from as int + 1]);
        }
    }
    if n == 0 {
        Some(ScalePrefix::Unit)
    } else if n == 1 {
        match s[from] {
            'K' => Some(ScalePrefix::Kilo),
            'M' => Some(ScalePrefix::Mega),
            'G' => Some(ScalePrefix::Giga),
            'T' => Some(ScalePrefix::Tera),
            'P' => Some(ScalePrefix::Peta),
            'E' => Some(ScalePrefix::Exa),
            'Z' => Some(ScalePrefix::Zetta),
            'Y' => Some(ScalePrefix::Yotta),
            _ => None,
        }
    } else if n == 2 && s[from + 1] == 'i' {
        match s[from] {
            'K' => Some(ScalePrefix::Kibi),
            'M' => Some(ScalePrefix::Mebi),
            'G' => Some(ScalePrefix::Gibi),
            'T' => Some(ScalePrefix::Tebi),
            'P' => Some(ScalePrefix::Pebi),
            'E' => Some(ScalePrefix::Exbi),
            'Z' => Some(ScalePrefix::Zebi),
            'Y' => Some(ScalePrefix::Yobi),
            _ => None,
        }
    } else {
        None
    }
}

} // verus!
