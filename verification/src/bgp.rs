//! The BGP summary report: a header block, a neighbor table, two totals.
//!
//! The neighbor table's columns are whitespace-delimited with no fixed
//! widths, so each data row is zipped positionally against the header row.
//! One genuine ambiguity occurs: a long neighbor address can run into the
//! protocol-version column. When a row is one token short and the version
//! column does not hold the expected version, the offending token is split
//! back apart by stripping the version off its tail, and the row is read
//! again.

use vstd::prelude::*;
use crate::ParseError;
use crate::addr::{is_ipv4_literal, is_ipv6_literal, IpAddress};
use crate::duration::{duration_secs, parse_duration_chars, Duration};
use crate::num::dec_value;
use crate::text::{all_digits, is_blank, line_split, line_tokens, nonspace_run, space_run, split_lines, str_chars};

verus! {

/// The expected protocol version in the `V` column.
pub open spec fn bgp_version_token() -> Seq<char> {
    "4"@
}

/// One row of the neighbor table.
#[derive(Clone, Debug, PartialEq, Eq)]
pub struct BGPNeighbor {
    pub neighbor: IpAddress,
    pub version: u32,
    pub remote_as: u32,
    pub messages_received: u64,
    pub messages_sent: u64,
    pub table_version: u32,
    pub in_queue: u64,
    pub out_queue: u64,
    pub uptime: Option<Duration>,
    /// The session state, exactly when the trailing column is not numeric.
    pub state: Option<String>,
    /// The received-prefix count, exactly when the trailing column is numeric.
    pub prefixes_received: Option<u64>,
}

/// The whole summary.
#[derive(Clone, Debug, PartialEq, Eq)]
pub struct BGPStatus {
    pub router_id: String,
    pub local_as: u32,
    pub table_version: u32,
    pub as_paths: u64,
    pub communities: u64,
    pub ebgp_maximum_paths: Option<u64>,
    pub ibgp_maximum_paths: Option<u64>,
    pub neighbors: Vec<BGPNeighbor>,
    pub sessions: u64,
}

/// What one neighbor row said, at the specification level.
pub struct NeighborView {
    pub neighbor: Seq<char>,
    pub version: int,
    pub remote_as: int,
    pub messages_received: int,
    pub messages_sent: int,
    pub table_version: int,
    pub in_queue: int,
    pub out_queue: int,
    pub uptime: Option<int>,
    pub state: Option<Seq<char>>,
    pub prefixes_received: Option<int>,
}

/// What the whole report said, at the specification level.
pub struct StatusView {
    pub router_id: Seq<char>,
    pub local_as: int,
    pub table_version: int,
    pub as_paths: int,
    pub communities: int,
    pub ebgp_maximum_paths: Option<int>,
    pub ibgp_maximum_paths: Option<int>,
    pub neighbors: Seq<NeighborView>,
    pub sessions: int,
}

/// The first index in `[0, n)` whose token equals `name`, if any.
pub open spec fn col_index(header: Seq<Seq<char>>, name: Seq<char>, i: int) -> Option<int>
    decreases header.len() - i,
{
    if i < 0 || i >= header.len() {
        None
    } else if header[i] == name {
        Some(i)
    } else {
        col_index(header, name, i + 1)
    }
}

/// The token under the named column, when the row is long enough.
pub open spec fn col_value(header: Seq<Seq<char>>, toks: Seq<Seq<char>>, name: Seq<char>) -> Option<
    Seq<char>,
> {
    match col_index(header, name, 0) {
        Some(j) => if j < toks.len() {
            Some(toks[j])
        } else {
            None
        },
        None => None,
    }
}

/// A column value as a decimal number within `bound`.
pub open spec fn col_num(
    header: Seq<Seq<char>>,
    toks: Seq<Seq<char>>,
    name: Seq<char>,
    bound: int,
) -> Option<int> {
    match col_value(header, toks, name) {
        Some(t) => if t.len() > 0 && all_digits(t) && dec_value(t) <= bound {
            Some(dec_value(t))
        } else {
            None
        },
        None => None,
    }
}

/// The row's tokens after the corrective re-split: when the row is one or
/// more tokens short and the version column does not read the expected
/// version, the token before the version column is cut apart by stripping
/// the version constant off its tail.
pub open spec fn resplit_tokens(header: Seq<Seq<char>>, toks: Seq<Seq<char>>) -> Option<
    Seq<Seq<char>>,
> {
    if toks.len() < header.len() && (match col_value(header, toks, "V"@) {
        Some(v) => v != bgp_version_token(),
        None => false,
    }) {
        match col_index(header, "V"@, 0) {
            Some(vi) => if vi >= 1 && toks[vi - 1].len() > 1 && toks[vi - 1].last() == '4' {
                Some(
                    toks.take(vi - 1) + seq![toks[vi - 1].drop_last(), bgp_version_token()]
                        + toks.skip(vi),
                )
            } else {
                None
            },
            None => None,
        }
    } else {
        Some(toks)
    }
}

/// What a neighbor row says once its tokens stand under the right columns.
pub open spec fn neighbor_fields_of(header: Seq<Seq<char>>, toks: Seq<Seq<char>>) -> Option<
    NeighborView,
> {
    let neighbor = col_value(header, toks, "Neighbor"@);
    let version = col_num(header, toks, "V"@, u32::MAX as int);
    let remote_as = col_num(header, toks, "AS"@, u32::MAX as int);
    let msg_rcv = col_num(header, toks, "MsgRcv"@, u64::MAX as int);
    let msg_sen = col_num(header, toks, "MsgSen"@, u64::MAX as int);
    let tbl_ver = col_num(header, toks, "TblVer"@, u32::MAX as int);
    let in_q = col_num(header, toks, "InQ"@, u64::MAX as int);
    let out_q = col_num(header, toks, "OutQ"@, u64::MAX as int);
    let up_down = col_value(header, toks, "Up/Down"@);
    let state_pfx = col_value(header, toks, "State/PfxRcd"@);
    if neighbor is Some && (is_ipv4_literal(neighbor.unwrap()) || is_ipv6_literal(
        neighbor.unwrap(),
    )) && version is Some && remote_as is Some && msg_rcv is Some && msg_sen is Some && tbl_ver
        is Some && in_q is Some && out_q is Some && up_down is Some && state_pfx is Some {
        let sp = state_pfx.unwrap();
        let numeric = sp.len() > 0 && all_digits(sp) && dec_value(sp) <= u64::MAX;
        Some(
            NeighborView {
                neighbor: neighbor.unwrap(),
                version: version.unwrap(),
                remote_as: remote_as.unwrap(),
                messages_received: msg_rcv.unwrap(),
                messages_sent: msg_sen.unwrap(),
                table_version: tbl_ver.unwrap(),
                in_queue: in_q.unwrap(),
                out_queue: out_q.unwrap(),
                uptime: match duration_secs(up_down.unwrap()) {
                    Some(secs) => if secs <= u64::MAX {
                        Some(secs)
                    } else {
                        None
                    },
                    None => None,
                },
                state: if numeric {
                    None
                } else {
                    Some(sp)
                },
                prefixes_received: if numeric {
                    Some(dec_value(sp))
                } else {
                    None
                },
            },
        )
    } else {
        None
    }
}

/// What a neighbor row says, after the corrective re-split if one is due.
#[verifier::opaque]
pub open spec fn bgp_neighbor_of(header: Seq<Seq<char>>, row: Seq<char>) -> Option<NeighborView> {
    match resplit_tokens(header, line_tokens(row)) {
        Some(toks) => neighbor_fields_of(header, toks),
        None => None,
    }
}

/// Of every readable neighbor row, the session state and the
/// received-prefix count exclude each other: the count is set exactly
/// when the trailing column is numeric, and the state exactly otherwise —
/// never both, never neither.
pub proof fn lemma_neighbor_state_exclusive(header: Seq<Seq<char>>, row: Seq<char>)
    ensures
        match bgp_neighbor_of(header, row) {
            Some(v) => (v.state is Some <==> v.prefixes_received is None),
            None => true,
        },
{
    reveal(bgp_neighbor_of);
}

/// The record carries exactly what the row view says. The state and the
/// received-prefix count exclude each other: exactly one is set.
pub open spec fn neighbor_matches(n: BGPNeighbor, v: NeighborView) -> bool {
    &&& n.neighbor.text@ == v.neighbor
    &&& n.neighbor.wf()
    &&& n.version as int == v.version
    &&& n.remote_as as int == v.remote_as
    &&& n.messages_received as int == v.messages_received
    &&& n.messages_sent as int == v.messages_sent
    &&& n.table_version as int == v.table_version
    &&& n.in_queue as int == v.in_queue
    &&& n.out_queue as int == v.out_queue
    &&& match (n.uptime, v.uptime) {
        (Some(d), Some(secs)) => d.secs as int == secs,
        (None, None) => true,
        _ => false,
    }
    &&& match (n.state, v.state) {
        (Some(t), Some(w)) => t@ == w,
        (None, None) => true,
        _ => false,
    }
    &&& match (n.prefixes_received, v.prefixes_received) {
        (Some(p), Some(q)) => p as int == q,
        (None, None) => true,
        _ => false,
    }
    &&& (n.state is Some <==> n.prefixes_received is None)
}

// --- header and total lines ---

/// `<tag><spaces><decimal>` filling the whole line.
pub open spec fn tagged_u64_line(line: Seq<char>, tag: Seq<char>) -> Option<int> {
    if line.len() > tag.len() && line.take(tag.len() as int) == tag {
        let a = tag.len() + space_run(line.skip(tag.len() as int));
        let d = line.skip(a as int);
        if a > tag.len() && d.len() > 0 && all_digits(d) && dec_value(d) <= u64::MAX {
            Some(dec_value(d))
        } else {
            None
        }
    } else {
        None
    }
}

/// `<decimal><spaces><tag>`, the tag ending the line or not as asked.
pub open spec fn leading_u64_line(line: Seq<char>, tag: Seq<char>, exact: bool) -> Option<int> {
    let e = nonspace_run(line) as int;
    let d = line.take(e);
    if e > 0 && all_digits(d) && dec_value(d) <= u64::MAX {
        let a = e + space_run(line.skip(e));
        if a > e && a + tag.len() <= line.len() && line.subrange(a, a + tag.len()) == tag && (
        !exact || a + tag.len() == line.len()) {
            Some(dec_value(d))
        } else {
            None
        }
    } else {
        None
    }
}

/// The identity line: the router tag, the identifier up to the comma, the
/// local AS tag and number.
pub open spec fn router_line_of(line: Seq<char>) -> Option<(Seq<char>, int)> {
    let tag = "BGP router identifier"@;
    if line.len() > tag.len() && line.take(tag.len() as int) == tag {
        let a = tag.len() + space_run(line.skip(tag.len() as int));
        if a > tag.len() {
            let rest = line.skip(a as int);
            let c = crate::text::find_off(rest, ',') as int;
            if c < rest.len() {
                let rid = rest.take(c);
                let after = rest.skip(c + 1);
                let tag2 = "local AS number"@;
                let b = space_run(after) as int;
                if b > 0 && b + tag2.len() < after.len() && after.subrange(b, b + tag2.len())
                    == tag2 {
                    let n = after.skip(b + tag2.len());
                    let s = space_run(n) as int;
                    let num = n.skip(s);
                    if s > 0 && num.len() > 0 && all_digits(num) && dec_value(num)
                        <= u32::MAX {
                        Some((rid, dec_value(num)))
                    } else {
                        None
                    }
                } else {
                    None
                }
            } else {
                None
            }
        } else {
            None
        }
    } else {
        None
    }
}

// --- first-match searches over the lines ---

/// The first line reading `<tag><spaces><decimal>`.
pub open spec fn first_tagged_u64(ls: Seq<Seq<char>>, i: int, tag: Seq<char>) -> Option<int>
    decreases ls.len() - i,
{
    if i < 0 || i >= ls.len() {
        None
    } else {
        match tagged_u64_line(ls[i], tag) {
            Some(v) => Some(v),
            None => first_tagged_u64(ls, i + 1, tag),
        }
    }
}

/// The first line reading `<decimal><spaces><tag>`.
pub open spec fn first_leading_u64(ls: Seq<Seq<char>>, i: int, tag: Seq<char>, exact: bool) -> Option<
    int,
>
    decreases ls.len() - i,
{
    if i < 0 || i >= ls.len() {
        None
    } else {
        match leading_u64_line(ls[i], tag, exact) {
            Some(v) => Some(v),
            None => first_leading_u64(ls, i + 1, tag, exact),
        }
    }
}

/// The first identity line.
pub open spec fn first_router_line(ls: Seq<Seq<char>>, i: int) -> Option<(Seq<char>, int)>
    decreases ls.len() - i,
{
    if i < 0 || i >= ls.len() {
        None
    } else {
        match router_line_of(ls[i]) {
            Some(v) => Some(v),
            None => first_router_line(ls, i + 1),
        }
    }
}

/// The index of the first table header line: its first token reads
/// `Neighbor`.
pub open spec fn table_header_at(ls: Seq<Seq<char>>, i: int) -> Option<int>
    decreases ls.len() - i,
{
    if i < 0 || i >= ls.len() {
        None
    } else if line_tokens(ls[i]).len() > 0 && line_tokens(ls[i])[0] == "Neighbor"@ {
        Some(i)
    } else {
        table_header_at(ls, i + 1)
    }
}

/// The consecutive neighbor rows from `i` on, ended by the first blank
/// line or the end; an unreadable row fails the scan.
pub open spec fn neighbor_rows(ls: Seq<Seq<char>>, i: int, header: Seq<Seq<char>>) -> Option<
    Seq<NeighborView>,
>
    decreases ls.len() - i,
{
    if i < 0 || i >= ls.len() || is_blank(ls[i]) {
        Some(seq![])
    } else {
        match bgp_neighbor_of(header, ls[i]) {
            Some(v) => match neighbor_rows(ls, i + 1, header) {
                Some(rest) => Some(seq![v] + rest),
                None => None,
            },
            None => None,
        }
    }
}

/// What the whole report says when it is not blank: every header line and
/// both totals found somewhere (first match wins, stray lines ignored),
/// and every row of the neighbor table readable.
#[verifier::opaque]
pub open spec fn bgp_status_of(s: Seq<char>) -> Option<StatusView> {
    let ls = line_split(s);
    let n = ls.len() as int;
    let router = first_router_line(ls, 0);
    let tblver = first_tagged_u64(ls, 0, "BGP table version is"@);
    let as_paths = first_leading_u64(ls, 0, "BGP AS-PATH entries"@, true);
    let communities = first_leading_u64(ls, 0, "BGP community entries"@, true);
    let ebgp = first_leading_u64(ls, 0, "Configured ebgp ECMP multipath"@, false);
    let ibgp = first_leading_u64(ls, 0, "Configured ibgp ECMP multipath"@, false);
    let total_n = first_tagged_u64(ls, 0, "Total number of neighbors"@);
    let total_s = first_tagged_u64(ls, 0, "Total number of Established sessions"@);
    let hdr = table_header_at(ls, 0);
    if router is Some && tblver is Some && as_paths is Some && communities is Some && total_n
        is Some && total_s is Some && hdr is Some && tblver.unwrap() <= u32::MAX {
        match neighbor_rows(ls, hdr.unwrap() + 1, line_tokens(ls[hdr.unwrap()])) {
            Some(neighbors) => Some(
                StatusView {
                    router_id: router.unwrap().0,
                    local_as: router.unwrap().1,
                    table_version: tblver.unwrap(),
                    as_paths: as_paths.unwrap(),
                    communities: communities.unwrap(),
                    ebgp_maximum_paths: ebgp,
                    ibgp_maximum_paths: ibgp,
                    neighbors,
                    sessions: total_s.unwrap(),
                },
            ),
            None => None,
        }
    } else {
        None
    }
}

/// The record carries exactly what the report view says.
pub open spec fn status_matches(st: BGPStatus, v: StatusView) -> bool {
    &&& st.router_id@ == v.router_id
    &&& st.local_as as int == v.local_as
    &&& st.table_version as int == v.table_version
    &&& st.as_paths as int == v.as_paths
    &&& st.communities as int == v.communities
    &&& match (st.ebgp_maximum_paths, v.ebgp_maximum_paths) {
        (Some(a), Some(b)) => a as int == b,
        (None, None) => true,
        _ => false,
    }
    &&& match (st.ibgp_maximum_paths, v.ibgp_maximum_paths) {
        (Some(a), Some(b)) => a as int == b,
        (None, None) => true,
        _ => false,
    }
    &&& st.neighbors@.len() == v.neighbors.len()
    &&& forall|k: int|
        0 <= k < v.neighbors.len() ==> neighbor_matches(#[trigger] st.neighbors@[k], v.neighbors[k])
    &&& st.sessions as int == v.sessions
}

// --- computed mirrors ---

/// Reads `<tag><spaces><decimal>` out of a line.
fn match_tagged_u64(line: &Vec<char>, tag: &str) -> (r: Option<u64>)
    ensures
        match r {
            Some(v) => tagged_u64_line(line@, tag@) == Some(v as int),
            None => tagged_u64_line(line@, tag@) is None,
        },
{
    let tn = tag.unicode_len();
    if line.len() <= tn {
        return None;
    }
    if !crate::text::range_eq_str(line, 0, tn, tag) {
        proof {
            assert(line@.take(tn as int) =~= line@.subrange(0, tn as int));
        }
        return None;
    }
    proof {
        assert(line@.take(tn as int) =~= line@.subrange(0, tn as int));
    }
    let a = crate::text::skip_spaces(line, tn);
    if a == tn {
        return None;
    }
    proof {
        assert(line@.skip(a as int) =~= line@.subrange(a as int, line@.len() as int));
    }
    match crate::num::parse_u64_range(line, a, line.len()) {
        Some(v) => Some(v),
        None => None,
    }
}

/// Reads `<decimal><spaces><tag>` out of a line.
fn match_leading_u64(line: &Vec<char>, tag: &str, exact: bool) -> (r: Option<u64>)
    ensures
        match r {
            Some(v) => leading_u64_line(line@, tag@, exact) == Some(v as int),
            None => leading_u64_line(line@, tag@, exact) is None,
        },
{
    proof {
        assert(line@.skip(0) =~= line@);
    }
    let e = crate::text::token_end(line, 0);
    if e == 0 {
        return None;
    }
    proof {
        assert(line@.take(e as int) =~= line@.subrange(0, e as int));
    }
    let d = match crate::num::parse_u64_range(line, 0, e) {
        Some(v) => v,
        None => {
            return None;
        },
    };
    let a = crate::text::skip_spaces(line, e);
    if a == e {
        return None;
    }
    let tn = tag.unicode_len();
    if line.len() - a < tn {
        return None;
    }
    if !crate::text::range_eq_str(line, a, a + tn, tag) {
        return None;
    }
    if exact && a + tn != line.len() {
        return None;
    }
    Some(d)
}

/// Reads the identity line.
fn match_router_line(line: &Vec<char>) -> (r: Option<(String, u32)>)
    ensures
        match r {
            Some((rid, las)) => match router_line_of(line@) {
                Some(v) => rid@ == v.0 && las as int == v.1,
                None => false,
            },
            None => router_line_of(line@) is None,
        },
{
    let tag = "BGP router identifier";
    let tn = tag.unicode_len();
    if line.len() <= tn {
        return None;
    }
    if !crate::text::range_eq_str(line, 0, tn, tag) {
        proof {
            assert(line@.take(tn as int) =~= line@.subrange(0, tn as int));
        }
        return None;
    }
    proof {
        assert(line@.take(tn as int) =~= line@.subrange(0, tn as int));
    }
    let a = crate::text::skip_spaces(line, tn);
    if a == tn {
        return None;
    }
    let ghost rest = line@.skip(a as int);
    let c = crate::text::find_char(line, a, ',');
    proof {
        assert(c - a == crate::text::find_off(rest, ','));
    }
    if c == line.len() {
        return None;
    }
    let rid = crate::text::extract(line, a, c);
    proof {
        assert(rid@ =~= rest.take(c - a));
    }
    let ghost after = rest.skip(c - a + 1);
    proof {
        assert(after =~= line@.skip(c as int + 1));
    }
    let b = crate::text::skip_spaces(line, c + 1);
    if b == c + 1 {
        return None;
    }
    let tag2 = "local AS number";
    let t2 = tag2.unicode_len();
    if line.len() - b <= t2 {
        return None;
    }
    if !crate::text::range_eq_str(line, b, b + t2, tag2) {
        proof {
            assert(after.subrange(b - (c + 1), b - (c + 1) + t2 as int) =~= line@.subrange(
                b as int,
                b as int + t2 as int,
            ));
        }
        return None;
    }
    proof {
        assert(after.subrange(b - (c + 1), b - (c + 1) + t2 as int) =~= line@.subrange(
            b as int,
            b as int + t2 as int,
        ));
        assert(after.skip(b - (c + 1) + t2 as int) =~= line@.skip(b as int + t2 as int));
    }
    let s = crate::text::skip_spaces(line, b + t2);
    if s == b + t2 {
        return None;
    }
    proof {
        assert(line@.skip(b + t2 as int).skip(s - (b + t2) as int) =~= line@.subrange(
            s as int,
            line@.len() as int,
        ));
    }
    match crate::num::parse_u64_range(line, s, line.len()) {
        Some(v) => {
            if v <= u32::MAX as u64 {
                Some((rid, v as u32))
            } else {
                None
            }
        },
        None => None,
    }
}

/// First-match searches over the lines.
fn find_tagged_u64(lines: &Vec<Vec<char>>, i: usize, tag: &str) -> (r: Option<u64>)
    requires
        i <= lines@.len(),
    ensures
        match r {
            Some(v) => first_tagged_u64(lines.deep_view(), i as int, tag@) == Some(v as int),
            None => first_tagged_u64(lines.deep_view(), i as int, tag@) is None,
        },
    decreases lines@.len() - i,
{
    if i == lines.len() {
        return None;
    }
    proof {
        assert(lines@[i as int]@ == lines.deep_view()[i as int]);
    }
    match match_tagged_u64(&lines[i], tag) {
        Some(v) => Some(v),
        None => find_tagged_u64(lines, i + 1, tag),
    }
}

fn find_leading_u64(lines: &Vec<Vec<char>>, i: usize, tag: &str, exact: bool) -> (r: Option<u64>)
    requires
        i <= lines@.len(),
    ensures
        match r {
            Some(v) => first_leading_u64(lines.deep_view(), i as int, tag@, exact) == Some(
                v as int,
            ),
            None => first_leading_u64(lines.deep_view(), i as int, tag@, exact) is None,
        },
    decreases lines@.len() - i,
{
    if i == lines.len() {
        return None;
    }
    proof {
        assert(lines@[i as int]@ == lines.deep_view()[i as int]);
    }
    match match_leading_u64(&lines[i], tag, exact) {
        Some(v) => Some(v),
        None => find_leading_u64(lines, i + 1, tag, exact),
    }
}

fn find_router_line(lines: &Vec<Vec<char>>, i: usize) -> (r: Option<(String, u32)>)
    requires
        i <= lines@.len(),
    ensures
        match r {
            Some((rid, las)) => match first_router_line(lines.deep_view(), i as int) {
                Some(v) => rid@ == v.0 && las as int == v.1,
                None => false,
            },
            None => first_router_line(lines.deep_view(), i as int) is None,
        },
    decreases lines@.len() - i,
{
    if i == lines.len() {
        return None;
    }
    proof {
        assert(lines@[i as int]@ == lines.deep_view()[i as int]);
    }
    match match_router_line(&lines[i]) {
        Some(v) => Some(v),
        None => find_router_line(lines, i + 1),
    }
}

fn find_table_header(lines: &Vec<Vec<char>>, i: usize) -> (r: Option<usize>)
    requires
        i <= lines@.len(),
    ensures
        match r {
            Some(h) => i <= h < lines@.len() && table_header_at(lines.deep_view(), i as int)
                == Some(h as int),
            None => table_header_at(lines.deep_view(), i as int) is None,
        },
    decreases lines@.len() - i,
{
    if i == lines.len() {
        return None;
    }
    proof {
        assert(lines@[i as int]@ == lines.deep_view()[i as int]);
    }
    let toks = crate::text::tokenize(&lines[i]);
    if toks.len() > 0 {
        proof {
            assert(toks@[0]@ == line_tokens(lines.deep_view()[i as int])[0]);
        }
        if crate::text::chars_eq_str(&toks[0], "Neighbor") {
            return Some(i);
        }
    }
    find_table_header(lines, i + 1)
}

/// The first index in `[from, n)` whose token equals `name`, computed.
fn col_index_exec(header: &Vec<Vec<char>>, name: &str, from: usize) -> (r: Option<usize>)
    requires
        from <= header@.len(),
    ensures
        match r {
            Some(j) => from <= j < header@.len() && col_index(header.deep_view(), name@, from as int)
                == Some(j as int),
            None => col_index(header.deep_view(), name@, from as int) is None,
        },
    decreases header@.len() - from,
{
    if from == header.len() {
        return None;
    }
    proof {
        assert(header@[from as int]@ == header.deep_view()[from as int]);
    }
    if crate::text::chars_eq_str(&header[from], name) {
        Some(from)
    } else {
        col_index_exec(header, name, from + 1)
    }
}

/// The token under the named column, copied out.
fn col_value_exec(header: &Vec<Vec<char>>, toks: &Vec<Vec<char>>, name: &str) -> (r: Option<
    Vec<char>,
>)
    ensures
        match r {
            Some(v) => col_value(header.deep_view(), toks.deep_view(), name@) == Some(v@),
            None => col_value(header.deep_view(), toks.deep_view(), name@) is None,
        },
{
    match col_index_exec(header, name, 0) {
        Some(j) => {
            if j < toks.len() {
                proof {
                    assert(toks@[j as int]@ == toks.deep_view()[j as int]);
                }
                let mut v: Vec<char> = Vec::new();
                v.extend_from_slice(toks[j].as_slice());
                proof {
                    assert(v@ =~= toks.deep_view()[j as int]);
                }
                Some(v)
            } else {
                None
            }
        },
        None => None,
    }
}

/// The named column as a decimal number within `bound`.
fn col_num_exec(header: &Vec<Vec<char>>, toks: &Vec<Vec<char>>, name: &str, bound: u64) -> (r:
    Option<u64>)
    ensures
        match r {
            Some(v) => col_num(header.deep_view(), toks.deep_view(), name@, bound as int) == Some(
                v as int,
            ),
            None => col_num(header.deep_view(), toks.deep_view(), name@, bound as int) is None,
        },
{
    match col_value_exec(header, toks, name) {
        Some(v) => {
            match crate::num::parse_u64_chars(&v) {
                Some(n) => if n <= bound {
                    Some(n)
                } else {
                    None
                },
                None => {
                    proof {
                        if v@.len() > 0 && all_digits(v@) {
                            crate::num::lemma_all_digits_radix(v@);
                            crate::num::lemma_radix_value_bounds(v@, 10);
                        }
                    }
                    None
                },
            }
        },
        None => None,
    }
}

/// Reads one neighbor row against the header tokens, re-splitting the
/// merged version column when it is due.
#[verifier::rlimit(50)]
#[verifier::loop_isolation(false)]
pub fn parse_bgp_neighbor(header: &Vec<Vec<char>>, row: &Vec<char>) -> (r: Result<
    BGPNeighbor,
    ParseError,
>)
    ensures
        match r {
            Ok(n) => match bgp_neighbor_of(header.deep_view(), row@) {
                Some(v) => neighbor_matches(n, v),
                None => false,
            },
            Err(_) => bgp_neighbor_of(header.deep_view(), row@) is None,
        },
{
    proof {
        reveal(bgp_neighbor_of);
    }
    let ghost hv = header.deep_view();
    let toks0 = crate::text::tokenize(row);
    let mut toks = toks0;
    // the corrective re-split
    let mut short = toks.len() < header.len();
    if short {
        let bad_version = match col_value_exec(header, &toks, "V") {
            Some(v) => !crate::text::chars_eq_str(&v, "4"),
            None => false,
        };
        if bad_version {
            match col_index_exec(header, "V", 0) {
                Some(vi) => {
                    proof {
                        if vi >= 1 {
                            assert(toks@[vi - 1]@ == toks.deep_view()[vi - 1]);
                        }
                    }
                    if vi >= 1 && toks[vi - 1].len() > 1 && toks[vi - 1][toks[vi - 1].len() - 1]
                        == '4' {
                        let ghost pre = toks.deep_view();
                        let merged = &toks[vi - 1];
                        let stripped = crate::text::copy_range(merged, 0, merged.len() - 1);
                        proof {
                            assert(stripped@ =~= pre[vi - 1].drop_last());
                            assert(pre[vi - 1].last() == '4');
                        }
                        let mut four: Vec<char> = Vec::new();
                        four.push('4');
                        proof {
                            assert(four@ =~= bgp_version_token()) by {
                                reveal_strlit("4");
                            }
                        }
                        let mut out: Vec<Vec<char>> = Vec::new();
                        let mut j: usize = 0;
                        while j < vi - 1
                            invariant
                                j <= vi - 1,
                                vi - 1 < toks@.len(),
                                toks.deep_view() == pre,
                                out@.len() == j,
                                forall|m: int| 0 <= m < j ==> (#[trigger] out@[m])@ == pre[m],
                            decreases vi - 1 - j,
                        {
                            proof {
                                assert(toks@[j as int]@ == pre[j as int]);
                            }
                            let mut piece: Vec<char> = Vec::new();
                            piece.extend_from_slice(toks[j].as_slice());
                            proof {
                                assert(piece@ =~= pre[j as int]);
                            }
                            out.push(piece);
                            j += 1;
                        }
                        out.push(stripped);
                        out.push(four);
                        let mut j2: usize = vi;
                        while j2 < toks.len()
                            invariant
                                vi <= j2 <= toks@.len(),
                                vi >= 1,
                                toks.deep_view() == pre,
                                out@.len() == j2 + 1,
                                forall|m: int| 0 <= m < vi - 1 ==> (#[trigger] out@[m])@ == pre[m],
                                out@[vi - 1]@ == pre[vi - 1].drop_last(),
                                out@[vi as int]@ == bgp_version_token(),
                                forall|m: int|
                                    vi < m <= j2 ==> (#[trigger] out@[m])@ == pre[m - 1],
                            decreases toks@.len() - j2,
                        {
                            proof {
                                assert(toks@[j2 as int]@ == pre[j2 as int]);
                            }
                            let mut piece: Vec<char> = Vec::new();
                            piece.extend_from_slice(toks[j2].as_slice());
                            proof {
                                assert(piece@ =~= pre[j2 as int]);
                            }
                            out.push(piece);
                            j2 += 1;
                        }
                        proof {
                            let target = pre.take(vi - 1) + seq![
                                pre[vi - 1].drop_last(),
                                bgp_version_token(),
                            ] + pre.skip(vi as int);
                            assert(out@.len() == target.len());
                            assert forall|m: int| 0 <= m < target.len() implies out.deep_view()[m]
                                == target[m] by {
                                assert(out.deep_view()[m] == out@[m]@);
                                if m < vi - 1 {
                                } else if m == vi - 1 {
                                } else if m == vi {
                                } else {
                                    assert(out@[m]@ == pre[m - 1]);
                                    assert(target[m] == pre.skip(vi as int)[m - vi - 1]);
                                }
                            }
                            assert(out.deep_view() =~~= target);
                            assert(resplit_tokens(hv, pre) == Some(out.deep_view()));
                        }
                        toks = out;
                    } else {
                        return Err(ParseError::AmbiguousColumnUnresolved);
                    }
                },
                None => {
                    proof {
                        assert(false);
                    }
                    return Err(ParseError::AmbiguousColumnUnresolved);
                },
            }
        }
    }
    let ghost tv = toks.deep_view();
    proof {
        assert(resplit_tokens(hv, line_tokens(row@)) == Some(tv));
    }
    neighbor_from_columns(header, &toks, Ghost(row@))
}

/// Builds the neighbor record once the tokens stand under the columns.
#[verifier::rlimit(50)]
fn neighbor_from_columns(header: &Vec<Vec<char>>, toks: &Vec<Vec<char>>, Ghost(row): Ghost<
    Seq<char>,
>) -> (r: Result<BGPNeighbor, ParseError>)
    requires
        resplit_tokens(header.deep_view(), line_tokens(row)) == Some(toks.deep_view()),
    ensures
        match r {
            Ok(n) => match bgp_neighbor_of(header.deep_view(), row) {
                Some(v) => neighbor_matches(n, v),
                None => false,
            },
            Err(_) => bgp_neighbor_of(header.deep_view(), row) is None,
        },
{
    proof {
        reveal(bgp_neighbor_of);
    }
    let neighbor_tok = match col_value_exec(header, toks, "Neighbor") {
        Some(v) => v,
        None => {
            return Err(ParseError::MissingRequiredField);
        },
    };
    let neighbor = match IpAddress::parse_chars(&neighbor_tok) {
        Some(a) => a,
        None => {
            return Err(ParseError::MalformedHeader);
        },
    };
    let version = match col_num_exec(header, toks, "V", u32::MAX as u64) {
        Some(v) => v as u32,
        None => {
            return Err(ParseError::MissingRequiredField);
        },
    };
    let remote_as = match col_num_exec(header, toks, "AS", u32::MAX as u64) {
        Some(v) => v as u32,
        None => {
            return Err(ParseError::MissingRequiredField);
        },
    };
    let messages_received = match col_num_exec(header, toks, "MsgRcv", u64::MAX) {
        Some(v) => v,
        None => {
            return Err(ParseError::MissingRequiredField);
        },
    };
    let messages_sent = match col_num_exec(header, toks, "MsgSen", u64::MAX) {
        Some(v) => v,
        None => {
            return Err(ParseError::MissingRequiredField);
        },
    };
    let table_version = match col_num_exec(header, toks, "TblVer", u32::MAX as u64) {
        Some(v) => v as u32,
        None => {
            return Err(ParseError::MissingRequiredField);
        },
    };
    let in_queue = match col_num_exec(header, toks, "InQ", u64::MAX) {
        Some(v) => v,
        None => {
            return Err(ParseError::MissingRequiredField);
        },
    };
    let out_queue = match col_num_exec(header, toks, "OutQ", u64::MAX) {
        Some(v) => v,
        None => {
            return Err(ParseError::MissingRequiredField);
        },
    };
    let up_down = match col_value_exec(header, toks, "Up/Down") {
        Some(v) => v,
        None => {
            return Err(ParseError::MissingRequiredField);
        },
    };
    let state_pfx = match col_value_exec(header, toks, "State/PfxRcd") {
        Some(v) => v,
        None => {
            return Err(ParseError::MissingRequiredField);
        },
    };
    let uptime = match parse_duration_chars(&up_down) {
        Ok(d) => Some(d),
        Err(_) => None,
    };
    let (state, prefixes_received) = match crate::num::parse_u64_chars(&state_pfx) {
        Some(n) => (None, Some(n)),
        None => {
            proof {
                if state_pfx@.len() > 0 && all_digits(state_pfx@) {
                    crate::num::lemma_all_digits_radix(state_pfx@);
                    crate::num::lemma_radix_value_bounds(state_pfx@, 10);
                }
            }
            (Some(crate::text::chars_string(state_pfx.as_slice())), None)
        },
    };
    Ok(
        BGPNeighbor {
            neighbor,
            version,
            remote_as,
            messages_received,
            messages_sent,
            table_version,
            in_queue,
            out_queue,
            uptime,
            state,
            prefixes_received,
        },
    )
}

/// A parser for the BGP summary.
#[derive(Clone, Copy, Debug, PartialEq, Eq, Structural)]
pub struct BGPParser;

impl BGPParser {
    /// Parses the summary. A blank report is the explicit "no result",
    /// not an error; otherwise the header lines and both totals must all
    /// be found and every neighbor row must be readable.
    #[verifier::loop_isolation(false)]
    #[verifier::rlimit(50)]
    pub fn parse(&self, input: &str) -> (r: Result<Option<BGPStatus>, ParseError>)
        ensures
            match r {
                Ok(opt) => match opt {
                    None => is_blank(input@),
                    Some(st) => !is_blank(input@) && match bgp_status_of(input@) {
                        Some(v) => status_matches(st, v),
                        None => false,
                    },
                },
                Err(_) => !is_blank(input@) && bgp_status_of(input@) is None,
            },
    {
        proof {
            reveal(bgp_status_of);
        }
        let chars = str_chars(input);
        if crate::text::chars_blank(&chars) {
            return Ok(None);
        }
        let lines = split_lines(&chars);
        let ghost ls = lines.deep_view();
        let (router_id, local_as) = match find_router_line(&lines, 0) {
            Some(v) => v,
            None => {
                return Err(ParseError::MissingRequiredField);
            },
        };
        let table_version = match find_tagged_u64(&lines, 0, "BGP table version is") {
            Some(v) => if v <= u32::MAX as u64 {
                v as u32
            } else {
                return Err(ParseError::MalformedHeader);
            },
            None => {
                return Err(ParseError::MissingRequiredField);
            },
        };
        let as_paths = match find_leading_u64(&lines, 0, "BGP AS-PATH entries", true) {
            Some(v) => v,
            None => {
                return Err(ParseError::MissingRequiredField);
            },
        };
        let communities = match find_leading_u64(&lines, 0, "BGP community entries", true) {
            Some(v) => v,
            None => {
                return Err(ParseError::MissingRequiredField);
            },
        };
        let ebgp_maximum_paths = find_leading_u64(&lines, 0, "Configured ebgp ECMP multipath", false);
        let ibgp_maximum_paths = find_leading_u64(&lines, 0, "Configured ibgp ECMP multipath", false);
        if find_tagged_u64(&lines, 0, "Total number of neighbors").is_none() {
            return Err(ParseError::MissingRequiredField);
        }
        let sessions = match find_tagged_u64(&lines, 0, "Total number of Established sessions") {
            Some(v) => v,
            None => {
                return Err(ParseError::MissingRequiredField);
            },
        };
        let hdr = match find_table_header(&lines, 0) {
            Some(h) => h,
            None => {
                return Err(ParseError::MissingRequiredField);
            },
        };
        proof {
            assert(lines@[hdr as int]@ == ls[hdr as int]);
        }
        let header = crate::text::tokenize(&lines[hdr]);
        let ghost hv = line_tokens(ls[hdr as int]);
        let nl = lines.len();
        let mut neighbors: Vec<BGPNeighbor> = Vec::new();
        let mut i = hdr + 1;
        while crate::pppoe::row_pending(&lines, i)
            invariant
                hdr + 1 <= i <= lines@.len(),
                header.deep_view() == hv,
                match neighbor_rows(ls, i as int, hv) {
                    Some(rest) => match neighbor_rows(ls, hdr + 1, hv) {
                        Some(whole) => whole.len() == neighbors@.len() + rest.len() && (forall|
                            k: int,
                        |
                            0 <= k < neighbors@.len() ==> neighbor_matches(
                                #[trigger] neighbors@[k],
                                whole[k],
                            )) && (forall|k: int|
                            0 <= k < rest.len() ==> whole[neighbors@.len() + k]
                                == #[trigger] rest[k]),
                        None => false,
                    },
                    None => neighbor_rows(ls, hdr + 1, hv) is None,
                },
            decreases lines@.len() - i,
        {
            proof {
                assert(lines@[i as int]@ == ls[i as int]);
            }
            match parse_bgp_neighbor(&header, &lines[i]) {
                Ok(n) => {
                    let ghost v = bgp_neighbor_of(hv, ls[i as int]).unwrap();
                    let ghost old_out = neighbors@;
                    neighbors.push(n);
                    proof {
                        match neighbor_rows(ls, i as int + 1, hv) {
                            Some(nr) => {
                                assert(neighbor_rows(ls, i as int, hv) == Some(seq![v] + nr));
                                match neighbor_rows(ls, hdr + 1, hv) {
                                    Some(whole) => {
                                        assert(whole[old_out.len() as int] == (seq![v] + nr)[0]);
                                        assert forall|k: int|
                                            0 <= k < neighbors@.len() implies neighbor_matches(
                                            #[trigger] neighbors@[k],
                                            whole[k],
                                        ) by {
                                            if k < old_out.len() {
                                                assert(neighbor_matches(old_out[k], whole[k]));
                                            } else {
                                                assert(neighbors@[k] == n);
                                            }
                                        }
                                        assert forall|k: int|
                                            0 <= k < nr.len() implies whole[neighbors@.len() + k]
                                            == #[trigger] nr[k] by {
                                            assert(whole[old_out.len() + (k + 1)] == (seq![v]
                                                + nr)[k + 1]);
                                        }
                                    },
                                    None => {
                                        assert(false);
                                    },
                                }
                            },
                            None => {},
                        }
                    }
                },
                Err(e) => {
                    return Err(e);
                },
            }
            i += 1;
        }
        proof {
            if i < lines@.len() {
                assert(lines@[i as int]@ == ls[i as int]);
            }
            assert(neighbor_rows(ls, i as int, hv) == Some(Seq::<NeighborView>::empty()));
        }
        Ok(
            Some(
                BGPStatus {
                    router_id,
                    local_as,
                    table_version,
                    as_paths,
                    communities,
                    ebgp_maximum_paths,
                    ibgp_maximum_paths,
                    neighbors,
                    sessions,
                },
            ),
        )
    }
}

/// The neighbors of both summaries, the first's rows before the second's.
pub fn chain_neighbors(bgp4: Option<BGPStatus>, bgp6: Option<BGPStatus>) -> (r: Vec<BGPNeighbor>)
    ensures
        r@ == (match bgp4 {
            Some(st) => st.neighbors@,
            None => Seq::<BGPNeighbor>::empty(),
        }) + (match bgp6 {
            Some(st) => st.neighbors@,
            None => Seq::<BGPNeighbor>::empty(),
        }),
{
    let ghost g4 = bgp4;
    let ghost g6 = bgp6;
    let mut r: Vec<BGPNeighbor> = Vec::new();
    match bgp4 {
        Some(st) => {
            let mut v = st.neighbors;
            r.append(&mut v);
        },
        None => {},
    }
    match bgp6 {
        Some(st) => {
            let mut v = st.neighbors;
            r.append(&mut v);
        },
        None => {},
    }
    proof {
        assert(r@ =~= (match g4 {
            Some(st) => st.neighbors@,
            None => Seq::<BGPNeighbor>::empty(),
        }) + (match g6 {
            Some(st) => st.neighbors@,
            None => Seq::<BGPNeighbor>::empty(),
        }));
    }
    r
}

/// Keeps the neighbors of one address family.
#[verifier::loop_isolation(false)]
pub fn retain_family(neighbors: Vec<BGPNeighbor>, v6: bool) -> (r: Vec<BGPNeighbor>)
    ensures
        r@ == neighbors@.filter(|n: BGPNeighbor| n.neighbor.v6 == v6),
{
    let ghost whole = neighbors@;
    let mut src = neighbors;
    let mut r: Vec<BGPNeighbor> = Vec::new();
    let ghost k: int = 0;
    while src.len() > 0
        invariant
            0 <= k <= whole.len(),
            src@ == whole.skip(k),
            r@ == whole.take(k).filter(|n: BGPNeighbor| n.neighbor.v6 == v6),
        decreases src@.len(),
    {
        let item = src.remove(0);
        proof {
            assert(item == whole[k]);
            assert(src@ =~= whole.skip(k + 1));
            reveal_with_fuel(Seq::filter, 2);
            assert(whole.take(k + 1).drop_last() =~= whole.take(k));
            assert(whole.take(k + 1).last() == whole[k]);
        }
        if item.neighbor.v6 == v6 {
            r.push(item);
        }
        proof {
            k = k + 1;
        }
    }
    proof {
        assert(whole.take(k) =~= whole);
    }
    r
}

} // verus!
