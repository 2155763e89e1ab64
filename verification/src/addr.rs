//! Address literals.
//!
//! The router prints addresses as plain text, and the parsers only ever
//! read them back as text: what matters is which family a literal belongs
//! to and its exact characters. A four-octet dotted literal is the
//! familiar form; a colon-grouped literal has eight hexadecimal groups, or
//! fewer with a single `::` run standing for the elided zero groups.
//! Dotted-quad tails inside colon-grouped literals are not recognized.

use vstd::prelude::*;
use crate::num::{all_radix_digits, dec_value, lemma_all_digits_radix, parse_u64_range, radix_digit};
use crate::text::{all_digits, is_digit_char, sep_split, sep_split_chars, str_chars};

verus! {

/// A well-formed four-octet piece: one to three digits, no superfluous
/// leading zero, value at most 255.
pub open spec fn is_octet(g: Seq<char>) -> bool {
    1 <= g.len() <= 3 && all_digits(g) && (g.len() > 1 ==> g[0] != '0') && dec_value(g) <= 255
}

/// A well-formed dotted-quad literal.
#[verifier::opaque]
pub open spec fn is_ipv4_literal(s: Seq<char>) -> bool {
    let p = sep_split(s, '.');
    p.len() == 4 && forall|j: int| 0 <= j < 4 ==> is_octet(#[trigger] p[j])
}

/// A well-formed group of a colon-grouped literal.
pub open spec fn is_hex_group(g: Seq<char>) -> bool {
    1 <= g.len() <= 4 && all_radix_digits(g, 16)
}

pub open spec fn hex_groups(p: Seq<Seq<char>>, lo: int, hi: int) -> bool {
    forall|j: int| lo <= j < hi ==> is_hex_group(#[trigger] p[j])
}

/// The colon-split pieces of a well-formed colon-grouped literal: eight
/// groups, or at most seven groups around one `::` run (written as empty
/// pieces at the start, the end, or one interior position).
pub open spec fn is_ipv6_pieces(p: Seq<Seq<char>>) -> bool {
    let n = p.len() as int;
    if n == 8 && hex_groups(p, 0, 8) {
        true
    } else if n == 3 && p[0].len() == 0 && p[1].len() == 0 && p[2].len() == 0 {
        true
    } else if n >= 3 && p[0].len() == 0 && p[1].len() == 0 && n - 2 <= 7 && hex_groups(p, 2, n) {
        true
    } else if n >= 3 && p[n - 1].len() == 0 && p[n - 2].len() == 0 && n - 2 <= 7 && hex_groups(
        p,
        0,
        n - 2,
    ) {
        true
    } else {
        n >= 3 && n - 1 <= 7 && exists|i: int|
            0 < i < n - 1 && p[i].len() == 0 && hex_groups(p, 0, i) && hex_groups(p, i + 1, n)
    }
}

/// A well-formed colon-grouped literal. Dotted-quad tails after the
/// groups are not part of this grammar: such a literal reads as no
/// address at all.
#[verifier::opaque]
pub open spec fn is_ipv6_literal(s: Seq<char>) -> bool {
    is_ipv6_pieces(sep_split(s, ':'))
}

/// An address literal of either family, kept as its exact text.
#[derive(Clone, Debug, PartialEq, Eq, Hash)]
pub struct IpAddress {
    /// The literal, character for character as printed.
    pub text: String,
    /// Whether the literal is colon-grouped.
    pub v6: bool,
}

impl IpAddress {
    /// The text is a well-formed literal of the family the flag names.
    pub open spec fn wf(self) -> bool {
        if self.v6 {
            is_ipv6_literal(self.text@)
        } else {
            is_ipv4_literal(self.text@)
        }
    }

    /// An owned copy carrying the same literal.
    pub fn duplicate(&self) -> (r: IpAddress)
        ensures
            r.text@ == self.text@,
            r.v6 == self.v6,
    {
        IpAddress { text: self.text.clone(), v6: self.v6 }
    }

    pub fn is_ipv4(&self) -> (r: bool)
        ensures
            r == !self.v6,
    {
        !self.v6
    }

    pub fn is_ipv6(&self) -> (r: bool)
        ensures
            r == self.v6,
    {
        self.v6
    }

    /// Parses an address literal from a character buffer. A literal
    /// belongs to at most one family: a dotted quad has no colon. A
    /// colon-grouped literal with a dotted-quad tail is outside the
    /// grammar and parses as `None`.
    pub fn parse_chars(t: &Vec<char>) -> (r: Option<IpAddress>)
        ensures
            match r {
                Some(a) => a.wf() && a.text@ == t@ && (if a.v6 {
                    is_ipv6_literal(t@)
                } else {
                    is_ipv4_literal(t@)
                }),
                None => !is_ipv4_literal(t@) && !is_ipv6_literal(t@),
            },
    {
        if ipv4_chars(t) {
            Some(IpAddress { text: crate::text::chars_string(t.as_slice()), v6: false })
        } else if ipv6_chars(t) {
            Some(IpAddress { text: crate::text::chars_string(t.as_slice()), v6: true })
        } else {
            None
        }
    }

    /// Parses an address literal from a borrowed string.
    pub fn parse(s: &str) -> (r: Option<IpAddress>)
        ensures
            match r {
                Some(a) => a.wf() && a.text@ == s@ && (if a.v6 {
                    is_ipv6_literal(s@)
                } else {
                    is_ipv4_literal(s@)
                }),
                None => !is_ipv4_literal(s@) && !is_ipv6_literal(s@),
            },
    {
        let chars = str_chars(s);
        IpAddress::parse_chars(&chars)
    }
}

/// Whether `g` is a well-formed octet.
fn octet_chars(g: &Vec<char>) -> (r: bool)
    ensures
        r == is_octet(g@),
{
    if g.len() < 1 || g.len() > 3 {
        return false;
    }
    if g.len() > 1 && g[0] == '0' {
        return false;
    }
    proof {
        assert(g@.subrange(0, g@.len() as int) =~= g@);
    }
    match parse_u64_range(g, 0, g.len()) {
        Some(v) => v <= 255,
        None => {
            proof {
                if all_digits(g@) {
                    lemma_all_digits_radix(g@);
                    crate::num::lemma_radix_value_bounds(g@, 10);
                    crate::num::lemma_pow_radix_mono(10, g@.len() as nat, 3);
                    reveal_with_fuel(crate::num::pow_radix, 4);
                }
            }
            false
        },
    }
}

/// Whether `t` is a well-formed dotted-quad literal.
#[verifier::loop_isolation(false)]
pub fn ipv4_chars(t: &Vec<char>) -> (r: bool)
    ensures
        r == is_ipv4_literal(t@),
{
    proof {
        reveal(is_ipv4_literal);
    }
    let pieces = sep_split_chars(t, '.');
    let ghost p = sep_split(t@, '.');
    if pieces.len() != 4 {
        return false;
    }
    let mut j: usize = 0;
    while j < 4
        invariant
            j <= 4,
            pieces.deep_view() == p,
            pieces@.len() == 4,
            p.len() == 4,
            forall|k: int| 0 <= k < j ==> is_octet(#[trigger] p[k]),
        decreases 4 - j,
    {
        proof {
            assert(pieces@[j as int]@ == p[j as int]);
        }
        if !octet_chars(&pieces[j]) {
            return false;
        }
        j += 1;
    }
    true
}

/// Whether `g` is a well-formed hexadecimal group.
#[verifier::loop_isolation(false)]
fn hex_group_chars(g: &Vec<char>) -> (r: bool)
    ensures
        r == is_hex_group(g@),
{
    if g.len() < 1 || g.len() > 4 {
        return false;
    }
    let mut j: usize = 0;
    while j < g.len()
        invariant
            j <= g@.len(),
            forall|k: int| 0 <= k < j ==> crate::num::is_radix_digit(#[trigger] g@[k], 16),
        decreases g@.len() - j,
    {
        if radix_digit(g[j], 16).is_none() {
            return false;
        }
        j += 1;
    }
    true
}

/// Whether the pieces between `lo` and `hi` are all hexadecimal groups.
#[verifier::loop_isolation(false)]
fn hex_groups_chars(pieces: &Vec<Vec<char>>, lo: usize, hi: usize) -> (r: bool)
    requires
        lo <= hi <= pieces@.len(),
    ensures
        r == hex_groups(pieces.deep_view(), lo as int, hi as int),
{
    let ghost p = pieces.deep_view();
    let mut j = lo;
    while j < hi
        invariant
            lo <= j <= hi <= pieces@.len(),
            p == pieces.deep_view(),
            forall|k: int| lo <= k < j ==> is_hex_group(#[trigger] p[k]),
        decreases hi - j,
    {
        proof {
            assert(pieces@[j as int]@ == p[j as int]);
        }
        if !hex_group_chars(&pieces[j]) {
            return false;
        }
        j += 1;
    }
    true
}

/// Whether `t` is a well-formed colon-grouped literal.
#[verifier::loop_isolation(false)]
pub fn ipv6_chars(t: &Vec<char>) -> (r: bool)
    ensures
        r == is_ipv6_literal(t@),
{
    proof {
        reveal(is_ipv6_literal);
    }
    let pieces = sep_split_chars(t, ':');
    let ghost p = pieces.deep_view();
    let n = pieces.len();
    proof {
        assert(p.len() == n);
    }
    if n == 8 && hex_groups_chars(&pieces, 0, 8) {
        return true;
    }
    if n < 3 {
        return false;
    }
    proof {
        assert(pieces@[0]@ == p[0]);
        assert(pieces@[1]@ == p[1]);
        assert(pieces@[2]@ == p[2]);
        assert(pieces@[n - 1]@ == p[n - 1]);
        assert(pieces@[n - 2]@ == p[n - 2]);
    }
    if n == 3 && pieces[0].len() == 0 && pieces[1].len() == 0 && pieces[2].len() == 0 {
        return true;
    }
    if pieces[0].len() == 0 && pieces[1].len() == 0 && n - 2 <= 7 && hex_groups_chars(
        &pieces,
        2,
        n,
    ) {
        return true;
    }
    if pieces[n - 1].len() == 0 && pieces[n - 2].len() == 0 && n - 2 <= 7 && hex_groups_chars(
        &pieces,
        0,
        n - 2,
    ) {
        return true;
    }
    if n - 1 > 7 {
        return false;
    }
    // look for the single interior empty piece of an interior `::`
    let mut i: usize = 1;
    while i < n - 1
        invariant
            1 <= i <= n - 1,
            n == p.len(),
            n >= 3,
            p == pieces.deep_view(),
            forall|k: int| 1 <= k < i ==> (#[trigger] p[k]).len() > 0,
        decreases n - 1 - i,
    {
        proof {
            assert(pieces@[i as int]@ == p[i as int]);
        }
        if pieces[i].len() == 0 {
            let ok = hex_groups_chars(&pieces, 0, i) && hex_groups_chars(&pieces, i + 1, n);
            proof {
                if !ok {
                    // any other interior empty piece is preceded by this
                    // one, which is not a hexadecimal group
                    assert forall|k: int|
                        0 < k < n - 1 && p[k].len() == 0 && hex_groups(p, 0, k) && hex_groups(
                            p,
                            k + 1,
                            n as int,
                        ) implies false by {
                        if k < i {
                        } else if k > i {
                            assert(!is_hex_group(p[i as int]));
                        }
                    }
                }
            }
            return ok;
        }
        i += 1;
    }
    proof {
        assert forall|k: int| 0 < k < n - 1 implies (#[trigger] p[k]).len() > 0 by {}
    }
    false
}

} // verus!
