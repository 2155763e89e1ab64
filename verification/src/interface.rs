//! The interface address listing: one line per interface.
//!
//! Each line carries the interface name, its operational state, and any
//! number of address entries: a bare address (with the family's full
//! prefix length implied), an `address/prefix` pair, or a
//! `local peer address/prefix` triple. Blank lines are skipped; the first
//! line that does not read as a row ends the listing, and whatever follows
//! is ignored.

use vstd::prelude::*;
use crate::addr::{is_ipv4_literal, is_ipv6_literal, IpAddress};
use crate::num::{dec_value, parse_u64_range};
use crate::text::{all_digits, is_blank, line_split, line_tokens, sep_split, sep_split_chars, split_lines, str_chars};

verus! {

/// One address entry of an interface.
#[derive(Clone, Debug, PartialEq, Eq)]
pub struct AddrInfo {
    /// The interface's own address.
    pub local: IpAddress,
    /// The peer's address, on point-to-point links.
    pub address: Option<IpAddress>,
    /// The prefix length; a bare address means the family's full length.
    pub prefixlen: u32,
}

/// One interface and its addresses.
#[derive(Clone, Debug, PartialEq, Eq)]
pub struct Interface {
    pub ifname: String,
    pub operstate: String,
    pub addr_info: Vec<AddrInfo>,
}

/// What one address entry said, at the specification level.
pub struct AddrSpecView {
    pub local: Seq<char>,
    pub address: Option<Seq<char>>,
    pub prefixlen: int,
}

/// What one row said, at the specification level.
pub struct RowView {
    pub ifname: Seq<char>,
    pub operstate: Seq<char>,
    pub addrs: Seq<AddrSpecView>,
}

/// The full prefix length of the family a literal belongs to.
pub open spec fn full_prefix_of(t: Seq<char>) -> int {
    if is_ipv6_literal(t) {
        128
    } else {
        32
    }
}

/// An `address/prefix` token: a well-formed literal, a slash, and a
/// decimal prefix length.
pub open spec fn cidr_of(t: Seq<char>) -> Option<(Seq<char>, int)> {
    let p = sep_split(t, '/');
    if p.len() == 2 && (is_ipv4_literal(p[0]) || is_ipv6_literal(p[0])) && p[1].len() > 0
        && all_digits(p[1]) && dec_value(p[1]) <= u32::MAX {
        Some((p[0], dec_value(p[1])))
    } else {
        None
    }
}

/// The address entries among the row's tokens from `i` on: a
/// `local peer cidr` triple, a cidr, or a bare address, repeated to the
/// end of the row.
pub open spec fn addr_specs_of(toks: Seq<Seq<char>>, i: int) -> Option<Seq<AddrSpecView>>
    decreases toks.len() - i,
{
    if i < 0 || i > toks.len() {
        None
    } else if i == toks.len() {
        Some(Seq::empty())
    } else if i + 2 < toks.len() && toks[i + 1] == "peer"@ {
        if (is_ipv4_literal(toks[i]) || is_ipv6_literal(toks[i])) && cidr_of(toks[i + 2]) is Some {
            let c = cidr_of(toks[i + 2]).unwrap();
            match addr_specs_of(toks, i + 3) {
                Some(rest) => Some(
                    seq![
                        AddrSpecView { local: toks[i], address: Some(c.0), prefixlen: c.1 },
                    ] + rest,
                ),
                None => None,
            }
        } else {
            None
        }
    } else if cidr_of(toks[i]) is Some {
        let c = cidr_of(toks[i]).unwrap();
        match addr_specs_of(toks, i + 1) {
            Some(rest) => Some(
                seq![AddrSpecView { local: c.0, address: None, prefixlen: c.1 }] + rest,
            ),
            None => None,
        }
    } else if is_ipv4_literal(toks[i]) || is_ipv6_literal(toks[i]) {
        match addr_specs_of(toks, i + 1) {
            Some(rest) => Some(
                seq![
                    AddrSpecView {
                        local: toks[i],
                        address: None,
                        prefixlen: full_prefix_of(toks[i]),
                    },
                ] + rest,
            ),
            None => None,
        }
    } else {
        None
    }
}

/// What a row of the listing says, if it reads as one.
pub open spec fn interface_row_of(line: Seq<char>) -> Option<RowView> {
    let toks = line_tokens(line);
    if toks.len() < 2 {
        None
    } else {
        match addr_specs_of(toks, 2) {
            Some(axs) => Some(RowView { ifname: toks[0], operstate: toks[1], addrs: axs }),
            None => None,
        }
    }
}

/// The rows of the listing: blank lines skipped, ended by the first line
/// that does not read as a row.
pub open spec fn interface_rows(ls: Seq<Seq<char>>, i: int) -> Seq<RowView>
    decreases ls.len() - i,
{
    if i < 0 || i >= ls.len() {
        seq![]
    } else if is_blank(ls[i]) {
        interface_rows(ls, i + 1)
    } else {
        match interface_row_of(ls[i]) {
            Some(rv) => seq![rv] + interface_rows(ls, i + 1),
            None => seq![],
        }
    }
}

/// The entry carries exactly what the view says.
pub open spec fn addr_matches(a: AddrInfo, v: AddrSpecView) -> bool {
    &&& a.local.text@ == v.local
    &&& a.local.wf()
    &&& match (a.address, v.address) {
        (Some(x), Some(w)) => x.text@ == w && x.wf(),
        (None, None) => true,
        _ => false,
    }
    &&& a.prefixlen as int == v.prefixlen
}

/// The record carries exactly what the row view says.
pub open spec fn interface_matches(itf: Interface, v: RowView) -> bool {
    &&& itf.ifname@ == v.ifname
    &&& itf.operstate@ == v.operstate
    &&& itf.addr_info@.len() == v.addrs.len()
    &&& forall|j: int|
        0 <= j < v.addrs.len() ==> addr_matches(#[trigger] itf.addr_info@[j], v.addrs[j])
}

/// Reads an `address/prefix` token.
fn parse_cidr(t: &Vec<char>) -> (r: Option<(IpAddress, u32)>)
    ensures
        match r {
            Some((a, p)) => match cidr_of(t@) {
                Some(c) => a.text@ == c.0 && a.wf() && p as int == c.1,
                None => false,
            },
            None => cidr_of(t@) is None,
        },
{
    let pieces = sep_split_chars(t, '/');
    let ghost ps = sep_split(t@, '/');
    if pieces.len() != 2 {
        return None;
    }
    proof {
        assert(pieces@[0]@ == ps[0]);
        assert(pieces@[1]@ == ps[1]);
    }
    let addr = match IpAddress::parse_chars(&pieces[0]) {
        Some(a) => a,
        None => {
            return None;
        },
    };
    let plen = &pieces[1];
    match parse_u64_range(plen, 0, plen.len()) {
        Some(v) => {
            proof {
                assert(plen@.subrange(0, plen@.len() as int) =~= plen@);
            }
            if v <= u32::MAX as u64 {
                Some((addr, v as u32))
            } else {
                None
            }
        },
        None => {
            proof {
                assert(plen@.subrange(0, plen@.len() as int) =~= plen@);
                if ps[1].len() > 0 && all_digits(ps[1]) {
                    crate::num::lemma_all_digits_radix(ps[1]);
                    crate::num::lemma_radix_value_bounds(ps[1], 10);
                }
            }
            None
        },
    }
}

/// Prepending matching items keeps the lists matching, entrywise.
proof fn lemma_cons_addr(
    list: Seq<AddrInfo>,
    old_list: Seq<AddrInfo>,
    a: AddrInfo,
    v: AddrSpecView,
    vs: Seq<AddrSpecView>,
    old_vs: Seq<AddrSpecView>,
)
    requires
        list == old_list.insert(0, a),
        vs == seq![v] + old_vs,
        addr_matches(a, v),
        old_list.len() == old_vs.len(),
        forall|j: int| 0 <= j < old_vs.len() ==> addr_matches(#[trigger] old_list[j], old_vs[j]),
    ensures
        list.len() == vs.len(),
        forall|j: int| 0 <= j < vs.len() ==> addr_matches(#[trigger] list[j], vs[j]),
{
    assert forall|j: int| 0 <= j < vs.len() implies addr_matches(#[trigger] list[j], vs[j]) by {
        if j == 0 {
            assert(list[0] == a);
            assert(vs[0] == v);
        } else {
            assert(list[j] == old_list[j - 1]);
            assert(vs[j] == old_vs[j - 1]);
        }
    }
}

/// Reads the address entries of a row from token `i` on.
fn parse_addrs(toks: &Vec<Vec<char>>, i: usize) -> (r: Option<Vec<AddrInfo>>)
    requires
        i <= toks@.len(),
    ensures
        match r {
            Some(list) => match addr_specs_of(toks.deep_view(), i as int) {
                Some(vs) => list@.len() == vs.len() && forall|j: int|
                    0 <= j < vs.len() ==> addr_matches(#[trigger] list@[j], vs[j]),
                None => false,
            },
            None => addr_specs_of(toks.deep_view(), i as int) is None,
        },
    decreases toks@.len() - i,
{
    let ghost tv = toks.deep_view();
    if i == toks.len() {
        let r: Vec<AddrInfo> = Vec::new();
        return Some(r);
    }
    proof {
        assert(toks@[i as int]@ == tv[i as int]);
        if i + 1 < toks@.len() {
            assert(toks@[i as int + 1]@ == tv[i as int + 1]);
        }
        if i + 2 < toks@.len() {
            assert(toks@[i as int + 2]@ == tv[i as int + 2]);
        }
    }
    if toks.len() - i > 2 && crate::text::chars_eq_str(&toks[i + 1], "peer") {
        let local = match IpAddress::parse_chars(&toks[i]) {
            Some(a) => a,
            None => {
                return None;
            },
        };
        let (peer, plen) = match parse_cidr(&toks[i + 2]) {
            Some(c) => c,
            None => {
                return None;
            },
        };
        match parse_addrs(toks, i + 3) {
            Some(mut rest) => {
                let ghost old_rest = rest@;
                let a = AddrInfo { local, address: Some(peer), prefixlen: plen };
                rest.insert(0, a);
                proof {
                    let c = cidr_of(tv[i as int + 2]).unwrap();
                    let v = AddrSpecView {
                        local: tv[i as int],
                        address: Some(c.0),
                        prefixlen: c.1,
                    };
                    lemma_cons_addr(
                        rest@,
                        old_rest,
                        a,
                        v,
                        addr_specs_of(tv, i as int).unwrap(),
                        addr_specs_of(tv, i as int + 3).unwrap(),
                    );
                }
                Some(rest)
            },
            None => None,
        }
    } else {
        match parse_cidr(&toks[i]) {
            Some((local, plen)) => {
                match parse_addrs(toks, i + 1) {
                    Some(mut rest) => {
                        let ghost old_rest = rest@;
                        let a = AddrInfo { local, address: None, prefixlen: plen };
                        rest.insert(0, a);
                        proof {
                            let c = cidr_of(tv[i as int]).unwrap();
                            let v = AddrSpecView { local: c.0, address: None, prefixlen: c.1 };
                            lemma_cons_addr(
                                rest@,
                                old_rest,
                                a,
                                v,
                                addr_specs_of(tv, i as int).unwrap(),
                                addr_specs_of(tv, i as int + 1).unwrap(),
                            );
                        }
                        Some(rest)
                    },
                    None => None,
                }
            },
            None => {
                let local = match IpAddress::parse_chars(&toks[i]) {
                    Some(a) => a,
                    None => {
                        return None;
                    },
                };
                let plen: u32 = if crate::addr::ipv6_chars(&toks[i]) {
                    128
                } else {
                    32
                };
                match parse_addrs(toks, i + 1) {
                    Some(mut rest) => {
                        let ghost old_rest = rest@;
                        let a = AddrInfo { local, address: None, prefixlen: plen };
                        rest.insert(0, a);
                        proof {
                            let v = AddrSpecView {
                                local: tv[i as int],
                                address: None,
                                prefixlen: full_prefix_of(tv[i as int]),
                            };
                            lemma_cons_addr(
                                rest@,
                                old_rest,
                                a,
                                v,
                                addr_specs_of(tv, i as int).unwrap(),
                                addr_specs_of(tv, i as int + 1).unwrap(),
                            );
                        }
                        Some(rest)
                    },
                    None => None,
                }
            },
        }
    }
}

/// Reads one row of the listing.
pub fn parse_interface_row(line: &Vec<char>) -> (r: Option<Interface>)
    ensures
        match r {
            Some(itf) => match interface_row_of(line@) {
                Some(rv) => interface_matches(itf, rv),
                None => false,
            },
            None => interface_row_of(line@) is None,
        },
{
    let toks = crate::text::tokenize(line);
    if toks.len() < 2 {
        return None;
    }
    proof {
        assert(toks@[0]@ == line_tokens(line@)[0]);
        assert(toks@[1]@ == line_tokens(line@)[1]);
    }
    match parse_addrs(&toks, 2) {
        Some(addr_info) => Some(
            Interface {
                ifname: crate::text::chars_string(toks[0].as_slice()),
                operstate: crate::text::chars_string(toks[1].as_slice()),
                addr_info,
            },
        ),
        None => None,
    }
}

/// A parser for the interface address listing.
#[derive(Clone, Copy, Debug, PartialEq, Eq, Structural)]
pub struct InterfaceParser;

impl InterfaceParser {
    /// Parses the listing: every readable row, in order.
    pub fn parse(&self, input: &str) -> (r: Vec<Interface>)
        ensures
            ({
                let rows = interface_rows(line_split(input@), 0);
                r@.len() == rows.len() && forall|k: int|
                    0 <= k < rows.len() ==> interface_matches(#[trigger] r@[k], rows[k])
            }),
    {
        let chars = str_chars(input);
        let lines = split_lines(&chars);
        parse_interface_lines(&lines, 0)
    }
}

fn parse_interface_lines(lines: &Vec<Vec<char>>, i: usize) -> (r: Vec<Interface>)
    requires
        i <= lines@.len(),
    ensures
        ({
            let rows = interface_rows(lines.deep_view(), i as int);
            r@.len() == rows.len() && forall|k: int|
                0 <= k < rows.len() ==> interface_matches(#[trigger] r@[k], rows[k])
        }),
    decreases lines@.len() - i,
{
    let ghost ls = lines.deep_view();
    if i == lines.len() {
        let r: Vec<Interface> = Vec::new();
        return r;
    }
    proof {
        assert(lines@[i as int]@ == ls[i as int]);
    }
    if crate::fields::line_blank(&lines[i]) {
        return parse_interface_lines(lines, i + 1);
    }
    match parse_interface_row(&lines[i]) {
        Some(itf) => {
            let mut rest = parse_interface_lines(lines, i + 1);
            let ghost old_rest = rest@;
            rest.insert(0, itf);
            proof {
                let rows = interface_rows(ls, i as int);
                let tail = interface_rows(ls, i as int + 1);
                assert(rows == seq![interface_row_of(ls[i as int]).unwrap()] + tail);
                assert forall|k: int| 0 <= k < rows.len() implies interface_matches(
                    #[trigger] rest@[k],
                    rows[k],
                ) by {
                    if k == 0 {
                        assert(rest@[0] == itf);
                        assert(rows[0] == interface_row_of(ls[i as int]).unwrap());
                    } else {
                        assert(rest@[k] == old_rest[k - 1]);
                        assert(rows[k] == tail[k - 1]);
                    }
                }
            }
            rest
        },
        None => {
            let r: Vec<Interface> = Vec::new();
            r
        },
    }
}

} // verus!
