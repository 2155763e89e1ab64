//! Numeric literals: decimal and hexadecimal integers.
//!
//! `radix_value` is the mathematical value of a digit string; the exec
//! parsers return exactly that value, or `None` when the string is not a
//! digit string or its value does not fit the result type.

use vstd::prelude::*;
use crate::text::{all_digits, digit_char, digit_value, is_digit_char};

verus! {

/// `b` to the power `n`.
pub open spec fn pow_radix(b: int, n: nat) -> int
    decreases n,
{
    if n == 0 {
        1
    } else {
        b * pow_radix(b, (n - 1) as nat)
    }
}

/// The value of `c` as a digit, letters covering values ten to fifteen;
/// anything else maps outside every radix.
pub open spec fn radix_digit_val(c: char) -> int {
    if is_digit_char(c) {
        digit_value(c)
    } else if 'a' <= c && c <= 'f' {
        10 + c as int - 'a' as int
    } else if 'A' <= c && c <= 'F' {
        10 + c as int - 'A' as int
    } else {
        16
    }
}

pub open spec fn is_radix_digit(c: char, b: int) -> bool {
    0 <= radix_digit_val(c) < b
}

pub open spec fn all_radix_digits(s: Seq<char>, b: int) -> bool {
    forall|i: int| 0 <= i < s.len() ==> is_radix_digit(#[trigger] s[i], b)
}

/// The value of the digit string `s` in radix `b`.
pub open spec fn radix_value(s: Seq<char>, b: int) -> int
    decreases s.len(),
{
    if s.len() == 0 {
        0
    } else {
        radix_value(s.drop_last(), b) * b + radix_digit_val(s.last())
    }
}

/// The value of a decimal digit string.
pub open spec fn dec_value(s: Seq<char>) -> int {
    radix_value(s, 10)
}

pub proof fn lemma_pow_radix_pos(b: int, n: nat)
    requires
        b >= 1,
    ensures
        pow_radix(b, n) >= 1,
    decreases n,
{
    if n > 0 {
        lemma_pow_radix_pos(b, (n - 1) as nat);
        let p = pow_radix(b, (n - 1) as nat);
        assert(b * p >= 1) by (nonlinear_arith)
            requires
                b >= 1,
                p >= 1,
        ;
    }
}

pub proof fn lemma_pow_radix_mono(b: int, m: nat, n: nat)
    requires
        b >= 1,
        m <= n,
    ensures
        pow_radix(b, m) <= pow_radix(b, n),
    decreases n,
{
    lemma_pow_radix_pos(b, m);
    if m < n && n > 0 {
        lemma_pow_radix_mono(b, m, (n - 1) as nat);
        lemma_pow_radix_pos(b, (n - 1) as nat);
        let p = pow_radix(b, (n - 1) as nat);
        assert(b * p >= p) by (nonlinear_arith)
            requires
                b >= 1,
                p >= 1,
        ;
    }
}

pub proof fn lemma_radix_value_bounds(s: Seq<char>, b: int)
    requires
        b >= 2,
        all_radix_digits(s, b),
    ensures
        0 <= radix_value(s, b) < pow_radix(b, s.len()),
    decreases s.len(),
{
    if s.len() > 0 {
        assert forall|i: int| 0 <= i < s.drop_last().len() implies is_radix_digit(
            #[trigger] s.drop_last()[i],
            b,
        ) by {
            assert(s.drop_last()[i] == s[i]);
        }
        lemma_radix_value_bounds(s.drop_last(), b);
        assert(is_radix_digit(s[s.len() - 1], b));
        assert(s.last() == s[s.len() - 1]);
        let v = radix_value(s.drop_last(), b);
        let p = pow_radix(b, (s.len() - 1) as nat);
        let d = radix_digit_val(s.last());
        assert(0 <= v * b + d < p * b) by (nonlinear_arith)
            requires
                0 <= v < p,
                0 <= d < b,
                b >= 2,
        ;
        assert(radix_value(s, b) == v * b + d);
        assert(pow_radix(b, s.len()) == b * p);
    }
}

/// A digit string without a leading zero is at least `b^(len-1)`.
pub proof fn lemma_radix_value_lower(s: Seq<char>, b: int)
    requires
        b >= 2,
        all_radix_digits(s, b),
        s.len() > 0,
        radix_digit_val(s[0]) != 0,
    ensures
        radix_value(s, b) >= pow_radix(b, (s.len() - 1) as nat),
    decreases s.len(),
{
    if s.len() == 1 {
        assert(s.drop_last().len() == 0);
    } else {
        assert forall|i: int| 0 <= i < s.drop_last().len() implies is_radix_digit(
            #[trigger] s.drop_last()[i],
            b,
        ) by {
            assert(s.drop_last()[i] == s[i]);
        }
        assert(s.drop_last()[0] == s[0]);
        lemma_radix_value_lower(s.drop_last(), b);
        lemma_pow_radix_pos(b, (s.len() - 2) as nat);
        assert(is_radix_digit(s[s.len() - 1], b));
        assert(s.last() == s[s.len() - 1]);
        let v = radix_value(s.drop_last(), b);
        let q = pow_radix(b, (s.len() - 2) as nat);
        let d = radix_digit_val(s.last());
        assert(v * b + d >= q * b) by (nonlinear_arith)
            requires
                v >= q,
                d >= 0,
                b >= 2,
        ;
        assert(radix_value(s, b) == v * b + d);
        assert(pow_radix(b, (s.len() - 1) as nat) == b * q);
    }
}

/// Leading zero digits do not change the value.
pub proof fn lemma_radix_value_zeros(s: Seq<char>, b: int, k: int)
    requires
        0 <= k <= s.len(),
        forall|j: int| 0 <= j < k ==> radix_digit_val(#[trigger] s[j]) == 0,
    ensures
        radix_value(s, b) == radix_value(s.skip(k), b),
    decreases s.len(),
{
    if k == 0 {
        assert(s.skip(0) =~= s);
    } else if s.len() == k {
        assert(radix_digit_val(s.last()) == 0);
        lemma_radix_value_zeros(s.drop_last(), b, k - 1);
        assert(s.drop_last().skip(k - 1) =~= Seq::<char>::empty());
        assert(s.skip(k) =~= Seq::<char>::empty());
    } else {
        assert forall|j: int| 0 <= j < k implies radix_digit_val(
            #[trigger] s.drop_last()[j],
        ) == 0 by {
            assert(s.drop_last()[j] == s[j]);
        }
        lemma_radix_value_zeros(s.drop_last(), b, k);
        assert(s.drop_last().skip(k) =~= s.skip(k).drop_last());
        assert(s.skip(k).last() == s.last());
    }
}

pub proof fn lemma_radix_value_step(s: Seq<char>, b: int, from: int, i: int)
    requires
        0 <= from <= i < s.len(),
    ensures
        radix_value(s.subrange(from, i + 1), b) == radix_value(s.subrange(from, i), b) * b
            + radix_digit_val(s[i]),
{
    assert(s.subrange(from, i + 1).drop_last() =~= s.subrange(from, i));
    assert(s.subrange(from, i + 1).last() == s[i]);
}

/// The value of `c` as a digit of radix `b`, if it is one.
pub fn radix_digit(c: char, b: u32) -> (r: Option<u32>)
    requires
        b == 10 || b == 16,
    ensures
        match r {
            Some(v) => is_radix_digit(c, b as int) && v == radix_digit_val(c),
            None => !is_radix_digit(c, b as int),
        },
{
    if '0' <= c && c <= '9' {
        Some(c as u32 - 48)
    } else if b == 16 && 'a' <= c && c <= 'f' {
        Some(c as u32 - 97 + 10)
    } else if b == 16 && 'A' <= c && c <= 'F' {
        Some(c as u32 - 65 + 10)
    } else {
        None
    }
}

/// Parses the digits of `s` between `from` and `to` in radix `b`.
/// Returns the exact value, or `None` when the range is empty, holds a
/// non-digit, or exceeds `u64::MAX`.
#[verifier::loop_isolation(false)]
pub fn parse_radix_u64(s: &Vec<char>, from: usize, to: usize, b: u32) -> (r: Option<u64>)
    requires
        from <= to <= s@.len(),
        b == 10 || b == 16,
    ensures
        ({
            let t = s@.subrange(from as int, to as int);
            match r {
                Some(v) => from < to && all_radix_digits(t, b as int) && radix_value(t, b as int)
                    == v as int,
                None => !(from < to && all_radix_digits(t, b as int) && radix_value(t, b as int)
                    <= u64::MAX),
            }
        }),
{
    let ghost t = s@.subrange(from as int, to as int);
    if from == to {
        return None;
    }
    // every character must be a digit of the radix
    let mut i = from;
    while i < to
        invariant
            from <= i <= to <= s@.len(),
            b == 10 || b == 16,
            forall|j: int| from <= j < i ==> is_radix_digit(#[trigger] s@[j], b as int),
        decreases to - i,
    {
        if radix_digit(s[i], b).is_none() {
            proof {
                assert(t.len() == to - from);
                assert(t[i - from] == s@[i as int]);
            }
            return None;
        }
        i += 1;
    }
    proof {
        assert forall|j: int| 0 <= j < t.len() implies is_radix_digit(#[trigger] t[j], b as int) by {
            assert(t[j] == s@[from + j]);
        }
    }
    // skip leading zeros
    let mut z = from;
    while z < to && s[z] == '0'
        invariant
            from <= z <= to <= s@.len(),
            forall|j: int| from <= j < z ==> s@[j] == '0',
        decreases to - z,
    {
        z += 1;
    }
    proof {
        assert forall|j: int| 0 <= j < z - from implies radix_digit_val(#[trigger] t[j]) == 0 by {
            assert(t[j] == s@[from + j]);
        }
        lemma_radix_value_zeros(t, b as int, z as int - from);
        assert(t.skip(z as int - from) =~= s@.subrange(z as int, to as int));
    }
    let ghost u = s@.subrange(z as int, to as int);
    proof {
        assert forall|j: int| 0 <= j < u.len() implies is_radix_digit(#[trigger] u[j], b as int) by {
            assert(u[j] == s@[z + j]);
        }
    }
    if z == to {
        assert(u =~= Seq::<char>::empty());
        return Some(0);
    }
    // a value above u64::MAX is rejected; past this length it is certain
    let cap: usize = if b == 10 {
        20
    } else {
        16
    };
    if to - z > cap {
        proof {
            assert(u[0] == s@[z as int]);
            assert(radix_digit_val(u[0]) != 0);
            lemma_radix_value_lower(u, b as int);
            lemma_pow_radix_mono(b as int, cap as nat, (u.len() - 1) as nat);
            if b == 10 {
                reveal_with_fuel(pow_radix, 21);
                assert(pow_radix(10, 20) > u64::MAX);
            } else {
                reveal_with_fuel(pow_radix, 17);
                assert(pow_radix(16, 16) > u64::MAX);
            }
        }
        return None;
    }
    proof {
        reveal_with_fuel(pow_radix, 21);
        assert(pow_radix(10, 20) == 0x56bc75e2d63100000);
        reveal_with_fuel(pow_radix, 17);
        assert(pow_radix(16, 16) == 0x10000000000000000);
    }
    let mut acc: u128 = 0;
    let mut i = z;
    while i < to
        invariant
            z <= i <= to <= s@.len(),
            to - z <= cap,
            cap == if b == 10 { 20int } else { 16int },
            b == 10 || b == 16,
            u == s@.subrange(z as int, to as int),
            forall|j: int| 0 <= j < u.len() ==> is_radix_digit(#[trigger] u[j], b as int),
            acc == radix_value(s@.subrange(z as int, i as int), b as int),
            0 <= acc < pow_radix(b as int, (i - z) as nat),
            pow_radix(10, 20) == 0x56bc75e2d63100000,
            pow_radix(16, 16) == 0x10000000000000000,
        decreases to - i,
    {
        proof {
            assert(u[i - z] == s@[i as int]);
            lemma_radix_value_step(s@, b as int, z as int, i as int);
            lemma_pow_radix_mono(b as int, (i + 1 - z) as nat, (to - z) as nat);
            lemma_pow_radix_mono(b as int, (to - z) as nat, cap as nat);
        }
        let d = match radix_digit(s[i], b) {
            Some(d) => d,
            None => {
                proof {
                    assert(false);
                }
                0
            },
        };
        proof {
            let pv = pow_radix(b as int, (i - z) as nat);
            assert((acc as int) * (b as int) + (d as int) < pv * (b as int)) by (nonlinear_arith)
                requires
                    0 <= acc < pv,
                    0 <= d as int,
                    (d as int) < b as int,
                    2 <= b as int,
            ;
        }
        acc = acc * (b as u128) + (d as u128);
        i += 1;
    }
    proof {
        assert(s@.subrange(z as int, i as int) =~= u);
    }
    if acc > u64::MAX as u128 {
        return None;
    }
    Some(acc as u64)
}

/// What scanning a decimal field found.
pub enum NumScan {
    /// A digit string with this value.
    Val(u64),
    /// A digit string whose value exceeds `u64::MAX`.
    Big,
    /// Empty, or holding a non-digit.
    Bad,
}

/// Scans a decimal field, telling a malformed field apart from one that is
/// well-formed but out of range.
#[verifier::loop_isolation(false)]
pub fn scan_u64_range(s: &Vec<char>, from: usize, to: usize) -> (r: NumScan)
    requires
        from <= to <= s@.len(),
    ensures
        ({
            let t = s@.subrange(from as int, to as int);
            match r {
                NumScan::Val(v) => from < to && all_digits(t) && dec_value(t) == v as int,
                NumScan::Big => from < to && all_digits(t) && dec_value(t) > u64::MAX,
                NumScan::Bad => !(from < to && all_digits(t)),
            }
        }),
{
    let ghost t = s@.subrange(from as int, to as int);
    if from == to {
        return NumScan::Bad;
    }
    let mut i = from;
    while i < to
        invariant
            from <= i <= to,
            forall|j: int| from <= j < i ==> is_digit_char(#[trigger] s@[j]),
        decreases to - i,
    {
        if !digit_char(s[i]) {
            proof {
                assert(t[i - from] == s@[i as int]);
            }
            return NumScan::Bad;
        }
        i += 1;
    }
    proof {
        assert forall|j: int| 0 <= j < t.len() implies is_digit_char(#[trigger] t[j]) by {
            assert(t[j] == s@[from + j]);
        }
    }
    match parse_u64_range(s, from, to) {
        Some(v) => NumScan::Val(v),
        None => NumScan::Big,
    }
}

/// Parses a decimal range into a `u64`.
pub fn parse_u64_range(s: &Vec<char>, from: usize, to: usize) -> (r: Option<u64>)
    requires
        from <= to <= s@.len(),
    ensures
        ({
            let t = s@.subrange(from as int, to as int);
            match r {
                Some(v) => from < to && all_digits(t) && dec_value(t) == v as int,
                None => !(from < to && all_digits(t) && dec_value(t) <= u64::MAX),
            }
        }),
{
    let ghost t = s@.subrange(from as int, to as int);
    proof {
        lemma_all_digits_radix(t);
    }
    parse_radix_u64(s, from, to, 10)
}

/// Decimal digits and radix-ten digits are the same class.
pub proof fn lemma_all_digits_radix(s: Seq<char>)
    ensures
        all_digits(s) == all_radix_digits(s, 10),
{
    if all_digits(s) {
        assert forall|i: int| 0 <= i < s.len() implies is_radix_digit(#[trigger] s[i], 10) by {
            assert(is_digit_char(s[i]));
        }
    }
    if all_radix_digits(s, 10) {
        assert forall|i: int| 0 <= i < s.len() implies is_digit_char(#[trigger] s[i]) by {
            assert(is_radix_digit(s[i], 10));
        }
    }
}

/// Parses a whole token as a decimal `u64`.
pub fn parse_u64_chars(s: &Vec<char>) -> (r: Option<u64>)
    ensures
        match r {
            Some(v) => s@.len() > 0 && all_digits(s@) && dec_value(s@) == v as int,
            None => !(s@.len() > 0 && all_digits(s@) && dec_value(s@) <= u64::MAX),
        },
{
    let r = parse_u64_range(s, 0, s.len());
    proof {
        assert(s@.subrange(0, s@.len() as int) =~= s@);
    }
    r
}

/// Parses a decimal range into a `u32`.
pub fn parse_u32_range(s: &Vec<char>, from: usize, to: usize) -> (r: Option<u32>)
    requires
        from <= to <= s@.len(),
    ensures
        ({
            let t = s@.subrange(from as int, to as int);
            match r {
                Some(v) => from < to && all_digits(t) && dec_value(t) == v as int,
                None => !(from < to && all_digits(t) && dec_value(t) <= u32::MAX),
            }
        }),
{
    match parse_u64_range(s, from, to) {
        Some(v) => if v <= u32::MAX as u64 {
            Some(v as u32)
        } else {
            None
        },
        None => None,
    }
}

/// Parses a hexadecimal range into a `u32`.
pub fn parse_hex_u32_range(s: &Vec<char>, from: usize, to: usize) -> (r: Option<u32>)
    requires
        from <= to <= s@.len(),
    ensures
        ({
            let t = s@.subrange(from as int, to as int);
            match r {
                Some(v) => from < to && all_radix_digits(t, 16) && radix_value(t, 16) == v as int,
                None => !(from < to && all_radix_digits(t, 16) && radix_value(t, 16) <= u32::MAX),
            }
        }),
{
    match parse_radix_u64(s, from, to, 16) {
        Some(v) => if v <= u32::MAX as u64 {
            Some(v as u32)
        } else {
            None
        },
        None => None,
    }
}

} // verus!
