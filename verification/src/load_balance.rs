//! The load-balance status and watchdog reports.
//!
//! Both reports are named groups, each with per-interface sub-blocks of
//! `key : value` lines. The two reports are produced independently; the
//! watchdog records join onto the status records by group and interface
//! name, and an interface with no watchdog match simply carries none.

use vstd::prelude::*;
use crate::ParseError;
use crate::fields::{block_kv, block_kv_value, trim_end, trim_end_spec};
use crate::num::{all_radix_digits, dec_value, radix_value};
use crate::quantity::{parse_scaled_chars, ScaledQuantity};
use crate::text::{all_digits, is_blank, line_split, nonspace_run, space_run, split_lines, str_chars};
use crate::timestamp::{datetime_of, parse_datetime_chars, Timestamp};

verus! {

/// A flow counter: a whole-number magnitude literal.
#[derive(Clone, Copy, Debug, PartialEq, Eq, Structural)]
pub struct FlowSize(pub ScaledQuantity);

impl FlowSize {
    /// The counter's exact integer value; see `ScaledQuantity::to_u64`.
    pub fn to_u64(&self) -> (r: Result<u64, ParseError>)
        requires
            self.0.wf(),
        ensures
            match r {
                Ok(v) => self.0.prefix.rank() <= crate::quantity::MAX_SUPPORTED_RANK
                    && self.0.spec_value() == v as int,
                Err(e) => e == ParseError::QuantityOverflow && (self.0.prefix.rank()
                    > crate::quantity::MAX_SUPPORTED_RANK || self.0.spec_value() > u64::MAX),
            },
    {
        self.0.to_u64()
    }
}

/// The balancing state of one interface.
#[derive(Clone, Debug, PartialEq, Eq)]
pub enum LoadBalanceStatusStatus {
    Inactive,
    Active,
    Failover,
    /// A state outside the table, kept as printed.
    Unknown(String),
}

/// The watchdog's state for one interface.
#[derive(Clone, Debug, PartialEq, Eq)]
pub enum LoadBalanceWatchdogStatus {
    Okay,
    Running,
    /// Waiting on recovery, `m` of `n` checks passed.
    WaitOnRecovery(u64, u64),
    /// A state outside the table, kept as printed.
    Unknown(String),
}

/// The watchdog's last ping outcome, with the pinged gateway.
#[derive(Clone, Debug, PartialEq, Eq)]
pub enum LoadBalancePing {
    Reachable(String),
    Down(String),
    /// An outcome outside the table: the outcome, then the gateway.
    Unknown(String, String),
}

/// One interface's watchdog record.
#[derive(Clone, Debug, PartialEq, Eq)]
pub struct LoadBalanceWatchdogInterface {
    pub interface: String,
    pub status: LoadBalanceWatchdogStatus,
    pub failover_only_mode: bool,
    pub pings: u64,
    pub fails: u64,
    /// The failed and allowed counts of the `run fails` pair.
    pub run_fails: u64,
    pub run_fails_limit: u64,
    pub route_drops: u64,
    pub ping: LoadBalancePing,
    pub last_route_drop: Option<Timestamp>,
    pub last_route_recover: Option<Timestamp>,
}

/// One watchdog group.
#[derive(Clone, Debug, PartialEq, Eq)]
pub struct LoadBalanceWatchdog {
    pub name: String,
    pub interfaces: Vec<LoadBalanceWatchdogInterface>,
}

/// One interface's status record. The weight is kept as the printed
/// percentage; the watchdog field is filled by the join, never by the
/// status parser.
#[derive(Clone, Debug, PartialEq, Eq)]
pub struct LoadBalanceStatusInterface {
    pub interface: String,
    pub reachable: bool,
    pub status: LoadBalanceStatusStatus,
    pub gateway: Option<String>,
    pub route_table: u32,
    pub weight_percent: u32,
    pub fo_priority: u32,
    pub flows: Vec<(String, FlowSize)>,
    pub watchdog: Option<LoadBalanceWatchdogInterface>,
}

/// One status group.
#[derive(Clone, Debug, PartialEq, Eq)]
pub struct LoadBalanceStatus {
    pub name: String,
    pub balance_local: bool,
    pub lock_local_dns: bool,
    pub conntrack_flush: bool,
    pub sticky_bits: u32,
    pub interfaces: Vec<LoadBalanceStatusInterface>,
}

/// Whether the report is the "not configured" sentinel.
pub open spec fn lb_not_configured(ls: Seq<Seq<char>>) -> bool {
    let sent = "load-balance is not configured"@;
    ls.len() > 0 && ls[0].len() >= sent.len() && ls[0].take(sent.len() as int) == sent
}

/// A group heading: the word `Group`, blanks, then the name to the end.
pub open spec fn group_name_of(line: Seq<char>) -> Option<Seq<char>> {
    let tag = "Group"@;
    if line.len() > tag.len() && line.take(tag.len() as int) == tag {
        let a = tag.len() + space_run(line.skip(tag.len() as int));
        if a > tag.len() {
            Some(line.skip(a as int))
        } else {
            None
        }
    } else {
        None
    }
}

pub open spec fn is_group_line(line: Seq<char>) -> bool {
    group_name_of(line) is Some
}

/// A boolean field: exactly `true` or `false`.
pub open spec fn bool_of(v: Seq<char>) -> Option<bool> {
    if v == "true"@ {
        Some(true)
    } else if v == "false"@ {
        Some(false)
    } else {
        None
    }
}

/// The sticky-bits field: `0x` then hexadecimal digits.
pub open spec fn sticky_of(v: Seq<char>) -> Option<int> {
    if v.len() > 2 && v.take(2) == "0x"@ {
        let d = v.skip(2);
        if all_radix_digits(d, 16) && radix_value(d, 16) <= u32::MAX {
            Some(radix_value(d, 16))
        } else {
            None
        }
    } else {
        None
    }
}

/// The weight field: a decimal percentage with a trailing percent sign.
pub open spec fn percent_of(v: Seq<char>) -> Option<int> {
    if v.len() > 1 && v.last() == '%' {
        let d = v.drop_last();
        if all_digits(d) && dec_value(d) <= u32::MAX {
            Some(dec_value(d))
        } else {
            None
        }
    } else {
        None
    }
}

/// The balancing state a raw field value names.
pub open spec fn lb_status_matches(st: LoadBalanceStatusStatus, v: Seq<char>) -> bool {
    if v == "inactive"@ {
        st == LoadBalanceStatusStatus::Inactive
    } else if v == "active"@ {
        st == LoadBalanceStatusStatus::Active
    } else if v == "failover"@ {
        st == LoadBalanceStatusStatus::Failover
    } else {
        match st {
            LoadBalanceStatusStatus::Unknown(t) => t@ == v,
            _ => false,
        }
    }
}

/// The watchdog state a raw field value names: the well-formed
/// parameterized "waiting on recovery" form, or a single token from the
/// table. Every other value falls into the catch-all, which carries the
/// value's first token; no status value is ever a parse failure.
pub open spec fn wd_status_matches(st: LoadBalanceWatchdogStatus, v: Seq<char>) -> bool {
    match wait_recovery_of(v) {
        Some(p) => match st {
            LoadBalanceWatchdogStatus::WaitOnRecovery(m, n) => p == (m as int, n as int),
            _ => false,
        },
        None => {
            let tok = v.take(nonspace_run(v) as int);
            if tok == "OK"@ {
                st == LoadBalanceWatchdogStatus::Okay
            } else if tok == "Running"@ {
                st == LoadBalanceWatchdogStatus::Running
            } else {
                match st {
                    LoadBalanceWatchdogStatus::Unknown(t) => t@ == tok,
                    _ => false,
                }
            }
        },
    }
}

/// The two counters of the "waiting on recovery" form:
/// `Waiting on recovery`, blanks, `(m/n)` to the end of the value.
pub open spec fn wait_recovery_of(v: Seq<char>) -> Option<(int, int)> {
    let tag = "Waiting on recovery"@;
    if v.len() > tag.len() && v.take(tag.len() as int) == tag {
        let a = tag.len() + space_run(v.skip(tag.len() as int));
        if a > tag.len() && a < v.len() && v[a as int] == '(' {
            let w = trim_end_spec(v);
            if w.len() > a + 1 && w.last() == ')' {
                pair_of(w.subrange(a as int + 1, w.len() - 1))
            } else {
                None
            }
        } else {
            None
        }
    } else {
        None
    }
}

/// A `m/n` pair of decimals.
pub open spec fn pair_of(v: Seq<char>) -> Option<(int, int)> {
    let c = crate::text::find_off(v, '/') as int;
    if c < v.len() {
        let m = v.take(c);
        let n = v.skip(c + 1);
        if m.len() > 0 && all_digits(m) && dec_value(m) <= u64::MAX && n.len() > 0 && all_digits(n)
            && dec_value(n) <= u64::MAX {
            Some((dec_value(m), dec_value(n)))
        } else {
            None
        }
    } else {
        None
    }
}

/// The ping outcome a raw field value names: the gateway, blanks, a dash,
/// blanks, then the outcome to the end.
pub open spec fn ping_parts_of(v: Seq<char>) -> Option<(Seq<char>, Seq<char>)> {
    let e = nonspace_run(v) as int;
    let host = v.take(e);
    let a = e + space_run(v.skip(e));
    if e > 0 && a > e && a < v.len() && v[a as int] == '-' {
        let b = a + 1 + space_run(v.skip(a + 1));
        if b > a + 1 {
            Some((host, v.skip(b)))
        } else {
            None
        }
    } else {
        None
    }
}

pub open spec fn ping_matches(p: LoadBalancePing, v: Seq<char>) -> bool {
    match ping_parts_of(v) {
        Some((host, outcome)) => if outcome == "REACHABLE"@ {
            match p {
                LoadBalancePing::Reachable(h) => h@ == host,
                _ => false,
            }
        } else if outcome == "DOWN"@ {
            match p {
                LoadBalancePing::Down(h) => h@ == host,
                _ => false,
            }
        } else {
            match p {
                LoadBalancePing::Unknown(o, h) => o@ == outcome && h@ == host,
                _ => false,
            }
        },
        None => false,
    }
}

// --- per-block obligations ---

/// A line holding exactly this word between its indentation and its
/// trailing blanks.
pub open spec fn line_word_is(line: Seq<char>, w: Seq<char>) -> bool {
    let st = space_run(line) as int;
    let te = line.len() - crate::fields::space_run_end(line);
    st + w.len() == te && line.subrange(st, te) == w
}

/// The status record of one interface block `ls[lo..hi]`: each field is
/// the value of the first line carrying its key; the gateway may be
/// empty; the flows stand after the `flows` marker line.
pub open spec fn si_ok(ls: Seq<Seq<char>>, lo: int, hi: int, itf: LoadBalanceStatusInterface) -> bool {
    &&& match block_kv(ls, lo, hi, "interface"@) {
        Some(v) => itf.interface@ == v,
        None => false,
    }
    &&& match block_kv(ls, lo, hi, "reachable"@) {
        Some(v) => bool_of(v) == Some(itf.reachable),
        None => false,
    }
    &&& match block_kv(ls, lo, hi, "status"@) {
        Some(v) => lb_status_matches(itf.status, v),
        None => false,
    }
    &&& match block_kv(ls, lo, hi, "gateway"@) {
        Some(v) => if v.len() == 0 {
            itf.gateway is None
        } else {
            match itf.gateway {
                Some(g) => g@ == v,
                None => false,
            }
        },
        None => false,
    }
    &&& match block_kv(ls, lo, hi, "route table"@) {
        Some(v) => v.len() > 0 && all_digits(v) && dec_value(v) == itf.route_table as int,
        None => false,
    }
    &&& match block_kv(ls, lo, hi, "weight"@) {
        Some(v) => percent_of(v) == Some(itf.weight_percent as int),
        None => false,
    }
    &&& match block_kv(ls, lo, hi, "fo_priority"@) {
        Some(v) => v.len() > 0 && all_digits(v) && dec_value(v) == itf.fo_priority as int,
        None => false,
    }
    &&& flows_ok(ls, lo, hi, itf.flows@)
    &&& forall|a: int, b: int|
        0 <= a < b < itf.flows@.len() ==> (#[trigger] itf.flows@[a]).0@ != (
        #[trigger] itf.flows@[b]).0@
    &&& itf.watchdog is None
}

/// The first `flows` marker line of the block.
pub open spec fn flows_marker(ls: Seq<Seq<char>>, lo: int, hi: int) -> Option<int>
    decreases hi - lo,
{
    if lo < 0 || lo >= hi || hi > ls.len() {
        None
    } else if line_word_is(ls[lo], "flows"@) {
        Some(lo)
    } else {
        flows_marker(ls, lo + 1, hi)
    }
}

/// One flow line: a name, a colon, a whole-number magnitude counter.
pub open spec fn flow_line_of(line: Seq<char>) -> Option<(Seq<char>, ScaledQuantity)> {
    let c = crate::text::find_off(line, ':') as int;
    if c < line.len() {
        let name = trim_end_spec(line.take(c).skip(space_run(line.take(c)) as int));
        let v = line.skip(c + 1 + space_run(line.skip(c + 1)));
        match crate::pppoe::quantity_of_token(v) {
            Some(q) => if q.frac_scale == 0 {
                Some((name, q))
            } else {
                None
            },
            None => None,
        }
    } else {
        None
    }
}

/// The consecutive flow lines from `i` on, up to the first blank line or
/// the end of the block.
pub open spec fn flow_scan(ls: Seq<Seq<char>>, i: int, hi: int) -> Option<
    Seq<(Seq<char>, ScaledQuantity)>,
>
    decreases hi - i,
{
    if i < 0 || i >= hi || hi > ls.len() || is_blank(ls[i]) {
        Some(seq![])
    } else {
        match flow_line_of(ls[i]) {
            Some(f) => match flow_scan(ls, i + 1, hi) {
                Some(rest) => if has_flow_name(rest, f.0) {
                    None
                } else {
                    Some(seq![f] + rest)
                },
                None => None,
            },
            None => None,
        }
    }
}

/// Whether one of the scanned flows already carries this name.
pub open spec fn has_flow_name(fs: Seq<(Seq<char>, ScaledQuantity)>, name: Seq<char>) -> bool {
    exists|j: int| 0 <= j < fs.len() && (#[trigger] fs[j]).0 == name
}

/// The block's flow listing reads as these pairs.
pub open spec fn flows_ok(ls: Seq<Seq<char>>, lo: int, hi: int, flows: Seq<(String, FlowSize)>) -> bool {
    match flows_marker(ls, lo, hi) {
        Some(m) => match flow_scan(ls, m + 1, hi) {
            Some(views) => flows.len() == views.len() && forall|j: int|
                0 <= j < views.len() ==> (#[trigger] flows[j]).0@ == views[j].0 && flows[j].1.0
                    == views[j].1 && flows[j].1.0.wf(),
            None => false,
        },
        None => false,
    }
}

/// The watchdog record of one interface block: the name stands alone on
/// the first line; the fields follow in any order; the two timestamps are
/// optional.
pub open spec fn wi_ok(ls: Seq<Seq<char>>, lo: int, hi: int, w: LoadBalanceWatchdogInterface) -> bool {
    &&& 0 <= lo < hi <= ls.len()
    &&& w.interface@ == ls[lo].skip(space_run(ls[lo]) as int)
    &&& match block_kv(ls, lo, hi, "status"@) {
        Some(v) => wd_status_matches(w.status, v),
        None => false,
    }
    &&& w.failover_only_mode == has_failover_line(ls, lo, hi)
    &&& match block_kv(ls, lo, hi, "pings"@) {
        Some(v) => v.len() > 0 && all_digits(v) && dec_value(v) == w.pings as int,
        None => false,
    }
    &&& match block_kv(ls, lo, hi, "fails"@) {
        Some(v) => v.len() > 0 && all_digits(v) && dec_value(v) == w.fails as int,
        None => false,
    }
    &&& match block_kv(ls, lo, hi, "run fails"@) {
        Some(v) => pair_of(v) == Some((w.run_fails as int, w.run_fails_limit as int)),
        None => false,
    }
    &&& match block_kv(ls, lo, hi, "route drops"@) {
        Some(v) => v.len() > 0 && all_digits(v) && dec_value(v) == w.route_drops as int,
        None => false,
    }
    &&& match block_kv(ls, lo, hi, "ping gateway"@) {
        Some(v) => ping_matches(w.ping, v),
        None => false,
    }
    &&& match block_kv(ls, lo, hi, "last route drop"@) {
        Some(v) => {
            let tv = trim_end_spec(v);
            tv.len() > 0 && w.last_route_drop == datetime_of(
                crate::ddns::status_time_format(),
                tv,
            ) && w.last_route_drop is Some
        },
        None => w.last_route_drop is None,
    }
    &&& match block_kv(ls, lo, hi, "last route recover"@) {
        Some(v) => {
            let tv = trim_end_spec(v);
            tv.len() > 0 && w.last_route_recover == datetime_of(
                crate::ddns::status_time_format(),
                tv,
            ) && w.last_route_recover is Some
        },
        None => w.last_route_recover is None,
    }
}

/// A mandatory decimal field is missing, malformed or out of `bound`.
pub open spec fn num_field_err(
    ls: Seq<Seq<char>>,
    lo: int,
    hi: int,
    key: Seq<char>,
    bound: int,
) -> bool {
    match block_kv(ls, lo, hi, key) {
        Some(v) => !(v.len() > 0 && all_digits(v) && dec_value(v) <= bound),
        None => true,
    }
}

/// What makes a status interface block unreadable: a missing mandatory
/// key, a malformed boolean, number or weight, or a flow listing with an
/// unreadable line or a repeated name.
pub open spec fn si_err(ls: Seq<Seq<char>>, lo: int, hi: int) -> bool {
    ||| block_kv(ls, lo, hi, "interface"@) is None
    ||| match block_kv(ls, lo, hi, "reachable"@) {
        Some(v) => bool_of(v) is None,
        None => true,
    }
    ||| block_kv(ls, lo, hi, "status"@) is None
    ||| block_kv(ls, lo, hi, "gateway"@) is None
    ||| num_field_err(ls, lo, hi, "route table"@, u32::MAX as int)
    ||| match block_kv(ls, lo, hi, "weight"@) {
        Some(v) => percent_of(v) is None,
        None => true,
    }
    ||| num_field_err(ls, lo, hi, "fo_priority"@, u32::MAX as int)
    ||| match flows_marker(ls, lo, hi) {
        Some(m) => flow_scan(ls, m + 1, hi) is None,
        None => true,
    }
}

/// What makes a watchdog interface block unreadable: a missing mandatory
/// key, a malformed number, pair or ping field, or a present timestamp
/// outside its format.
pub open spec fn wi_err(ls: Seq<Seq<char>>, lo: int, hi: int) -> bool {
    ||| block_kv(ls, lo, hi, "status"@) is None
    ||| num_field_err(ls, lo, hi, "pings"@, u64::MAX as int)
    ||| num_field_err(ls, lo, hi, "fails"@, u64::MAX as int)
    ||| match block_kv(ls, lo, hi, "run fails"@) {
        Some(v) => pair_of(v) is None,
        None => true,
    }
    ||| num_field_err(ls, lo, hi, "route drops"@, u64::MAX as int)
    ||| match block_kv(ls, lo, hi, "ping gateway"@) {
        Some(v) => ping_parts_of(v) is None,
        None => true,
    }
    ||| match block_kv(ls, lo, hi, "last route drop"@) {
        Some(v) => {
            let w = trim_end_spec(v);
            w.len() == 0 || datetime_of(crate::ddns::status_time_format(), w) is None
        },
        None => false,
    }
    ||| match block_kv(ls, lo, hi, "last route recover"@) {
        Some(v) => {
            let w = trim_end_spec(v);
            w.len() == 0 || datetime_of(crate::ddns::status_time_format(), w) is None
        },
        None => false,
    }
}

/// What makes a group heading block unreadable: a bad heading line, or a
/// global flag missing or malformed.
pub open spec fn sg_header_err(ls: Seq<Seq<char>>, lo: int, hi: int) -> bool {
    ||| group_name_of(ls[lo]) is None
    ||| match block_kv(ls, lo, hi, "Balance Local"@) {
        Some(v) => bool_of(v) is None,
        None => true,
    }
    ||| match block_kv(ls, lo, hi, "Lock Local DNS"@) {
        Some(v) => bool_of(v) is None,
        None => true,
    }
    ||| match block_kv(ls, lo, hi, "Conntrack Flush"@) {
        Some(v) => bool_of(v) is None,
        None => true,
    }
    ||| match block_kv(ls, lo, hi, "Sticky Bits"@) {
        Some(v) => sticky_of(v) is None,
        None => true,
    }
}

/// Whether a `failover-only mode` line stands in the block.
pub open spec fn has_failover_line(ls: Seq<Seq<char>>, lo: int, hi: int) -> bool
    decreases hi - lo,
{
    if lo < 0 || lo >= hi || hi > ls.len() {
        false
    } else if line_word_is(ls[lo], "failover-only mode"@) {
        true
    } else {
        has_failover_line(ls, lo + 1, hi)
    }
}

/// The global header of one status group `ls[lo..hi]`, whose first line
/// names the group.
pub open spec fn sg_header_ok(ls: Seq<Seq<char>>, lo: int, hi: int, g: LoadBalanceStatus) -> bool {
    &&& 0 <= lo < hi <= ls.len()
    &&& match group_name_of(ls[lo]) {
        Some(n) => g.name@ == n,
        None => false,
    }
    &&& match block_kv(ls, lo, hi, "Balance Local"@) {
        Some(v) => bool_of(v) == Some(g.balance_local),
        None => false,
    }
    &&& match block_kv(ls, lo, hi, "Lock Local DNS"@) {
        Some(v) => bool_of(v) == Some(g.lock_local_dns),
        None => false,
    }
    &&& match block_kv(ls, lo, hi, "Conntrack Flush"@) {
        Some(v) => bool_of(v) == Some(g.conntrack_flush),
        None => false,
    }
    &&& match block_kv(ls, lo, hi, "Sticky Bits"@) {
        Some(v) => sticky_of(v) == Some(g.sticky_bits as int),
        None => false,
    }
}

// --- computed field readers ---

/// Reads a group heading.
fn match_group_line(line: &Vec<char>) -> (r: Option<String>)
    ensures
        match r {
            Some(n) => group_name_of(line@) == Some(n@),
            None => group_name_of(line@) is None,
        },
{
    let tag = "Group";
    let tn = tag.unicode_len();
    if line.len() <= tn {
        return None;
    }
    if !crate::text::range_eq_str(line, 0, tn, tag) {
        proof {
            assert(line@.take(tn as int) =~= line@.subrange(0, tn as int));
        }
        return None;
    }
    proof {
        assert(line@.take(tn as int) =~= line@.subrange(0, tn as int));
    }
    let a = crate::text::skip_spaces(line, tn);
    if a == tn {
        return None;
    }
    proof {
        assert(line@.skip(a as int) =~= line@.subrange(a as int, line@.len() as int));
    }
    Some(crate::text::extract(line, a, line.len()))
}

/// Reads a boolean field value.
fn read_bool(v: &Vec<char>) -> (r: Option<bool>)
    ensures
        r == bool_of(v@),
{
    if crate::text::chars_eq_str(v, "true") {
        Some(true)
    } else if crate::text::chars_eq_str(v, "false") {
        Some(false)
    } else {
        None
    }
}

/// Reads the sticky-bits field value.
fn read_sticky(v: &Vec<char>) -> (r: Option<u32>)
    ensures
        match r {
            Some(b) => sticky_of(v@) == Some(b as int),
            None => sticky_of(v@) is None,
        },
{
    if v.len() <= 2 {
        return None;
    }
    if !crate::text::range_eq_str(v, 0, 2, "0x") {
        proof {
            assert(v@.take(2) =~= v@.subrange(0, 2));
        }
        return None;
    }
    proof {
        assert(v@.take(2) =~= v@.subrange(0, 2));
        assert(v@.skip(2) =~= v@.subrange(2, v@.len() as int));
    }
    crate::num::parse_hex_u32_range(v, 2, v.len())
}

/// Reads the weight field value.
fn read_percent(v: &Vec<char>) -> (r: Option<u32>)
    ensures
        match r {
            Some(b) => percent_of(v@) == Some(b as int),
            None => percent_of(v@) is None,
        },
{
    if v.len() <= 1 || v[v.len() - 1] != '%' {
        return None;
    }
    proof {
        assert(v@.last() == v@[v@.len() - 1]);
        assert(v@.drop_last() =~= v@.subrange(0, v@.len() - 1));
    }
    match crate::num::parse_u64_range(v, 0, v.len() - 1) {
        Some(n) => if n <= u32::MAX as u64 {
            Some(n as u32)
        } else {
            None
        },
        None => {
            proof {
                let d = v@.drop_last();
                if d.len() > 0 && all_digits(d) {
                    crate::num::lemma_all_digits_radix(d);
                    crate::num::lemma_radix_value_bounds(d, 10);
                }
            }
            None
        },
    }
}

/// Maps a raw status value onto the balancing state.
fn read_lb_status(v: &Vec<char>) -> (st: LoadBalanceStatusStatus)
    ensures
        lb_status_matches(st, v@),
{
    if crate::text::chars_eq_str(v, "inactive") {
        LoadBalanceStatusStatus::Inactive
    } else if crate::text::chars_eq_str(v, "active") {
        LoadBalanceStatusStatus::Active
    } else if crate::text::chars_eq_str(v, "failover") {
        LoadBalanceStatusStatus::Failover
    } else {
        LoadBalanceStatusStatus::Unknown(crate::text::chars_string(v.as_slice()))
    }
}

/// Reads a `m/n` pair.
fn read_pair(v: &Vec<char>) -> (r: Option<(u64, u64)>)
    ensures
        match r {
            Some((m, n)) => pair_of(v@) == Some((m as int, n as int)),
            None => pair_of(v@) is None,
        },
{
    proof {
        assert(v@.skip(0) =~= v@);
    }
    let c = crate::text::find_char(v, 0, '/');
    if c == v.len() {
        return None;
    }
    proof {
        assert(v@.take(c as int) =~= v@.subrange(0, c as int));
        assert(v@.skip(c as int + 1) =~= v@.subrange(c as int + 1, v@.len() as int));
    }
    let m = match crate::num::parse_u64_range(v, 0, c) {
        Some(m) => m,
        None => {
            return None;
        },
    };
    match crate::num::parse_u64_range(v, c + 1, v.len()) {
        Some(n) => Some((m, n)),
        None => None,
    }
}

/// The counters of a well-formed "waiting on recovery" value, computed.
fn read_wait_recovery(v: &Vec<char>) -> (r: Option<(u64, u64)>)
    ensures
        match r {
            Some((m, n)) => wait_recovery_of(v@) == Some((m as int, n as int)),
            None => wait_recovery_of(v@) is None,
        },
{
    let tag = "Waiting on recovery";
    let tn = tag.unicode_len();
    let waiting = v.len() > tn && crate::text::range_eq_str(v, 0, tn, tag);
    proof {
        if v@.len() > tn {
            assert(v@.take(tn as int) =~= v@.subrange(0, tn as int));
        }
    }
    if !waiting {
        return None;
    }
    let a = crate::text::skip_spaces(v, tn);
    if a == tn || a == v.len() || v[a] != '(' {
        return None;
    }
    let we = trim_end(v);
    let ghost w = trim_end_spec(v@);
    if we <= a + 1 || v[we - 1] != ')' {
        proof {
            if w.len() > a + 1 {
                assert(w.last() == v@[we - 1]);
            }
        }
        return None;
    }
    proof {
        assert(w.last() == v@[we - 1]);
        assert(w.subrange(a as int + 1, w.len() - 1) =~= v@.subrange(a as int + 1, we - 1));
    }
    let inner = crate::text::copy_range(v, a + 1, we - 1);
    read_pair(&inner)
}

/// Maps a raw status value onto the watchdog state. Total: a value that
/// is neither a well-formed waiting form nor a table token becomes the
/// catch-all carrying its first token.
fn read_wd_status(v: &Vec<char>) -> (st: LoadBalanceWatchdogStatus)
    ensures
        wd_status_matches(st, v@),
{
    match read_wait_recovery(v) {
        Some((m, n)) => LoadBalanceWatchdogStatus::WaitOnRecovery(m, n),
        None => {
            proof {
                assert(v@.skip(0) =~= v@);
            }
            let e = crate::text::token_end(v, 0);
            let tok = crate::text::copy_range(v, 0, e);
            proof {
                assert(tok@ =~= v@.take(nonspace_run(v@) as int));
            }
            if crate::text::chars_eq_str(&tok, "OK") {
                LoadBalanceWatchdogStatus::Okay
            } else if crate::text::chars_eq_str(&tok, "Running") {
                LoadBalanceWatchdogStatus::Running
            } else {
                LoadBalanceWatchdogStatus::Unknown(crate::text::chars_string(tok.as_slice()))
            }
        },
    }
}

/// Reads a `gateway - OUTCOME` ping field.
fn read_ping(v: &Vec<char>) -> (r: Option<LoadBalancePing>)
    ensures
        match r {
            Some(p) => ping_matches(p, v@),
            None => ping_parts_of(v@) is None,
        },
{
    proof {
        assert(v@.skip(0) =~= v@);
    }
    let e = crate::text::token_end(v, 0);
    if e == 0 {
        return None;
    }
    let a = crate::text::skip_spaces(v, e);
    if a == e || a == v.len() || v[a] != '-' {
        return None;
    }
    let b = crate::text::skip_spaces(v, a + 1);
    if b == a + 1 {
        return None;
    }
    let host = crate::text::extract(v, 0, e);
    proof {
        assert(host@ =~= v@.take(nonspace_run(v@) as int));
        assert(v@.skip(b as int) =~= v@.subrange(b as int, v@.len() as int));
    }
    if crate::text::range_eq_str(v, b, v.len(), "REACHABLE") {
        Some(LoadBalancePing::Reachable(host))
    } else if crate::text::range_eq_str(v, b, v.len(), "DOWN") {
        Some(LoadBalancePing::Down(host))
    } else {
        Some(LoadBalancePing::Unknown(crate::text::extract(v, b, v.len()), host))
    }
}

// --- block parsers ---

/// Whether the line holds exactly this word.
fn line_word_eq(line: &Vec<char>, lit: &str) -> (r: bool)
    ensures
        r == line_word_is(line@, lit@),
{
    let st = crate::text::skip_spaces(line, 0);
    let te = trim_end(line);
    let wl = lit.unicode_len();
    proof {
        assert(line@.skip(0) =~= line@);
        crate::fields::lemma_space_run_end(line@);
        assert(line@.subrange(0, te as int).len() == te);
    }
    if te < st || wl != te - st {
        return false;
    }
    crate::text::range_eq_str(line, st, te, lit)
}

/// Finds the `flows` marker line of a block.
fn find_flows_marker(lines: &Vec<Vec<char>>, lo: usize, hi: usize) -> (r: Option<usize>)
    requires
        lo <= hi <= lines@.len(),
    ensures
        match r {
            Some(m) => lo <= m < hi && flows_marker(lines.deep_view(), lo as int, hi as int)
                == Some(m as int),
            None => flows_marker(lines.deep_view(), lo as int, hi as int) is None,
        },
    decreases hi - lo,
{
    if lo == hi {
        return None;
    }
    proof {
        assert(lines@[lo as int]@ == lines.deep_view()[lo as int]);
    }
    if line_word_eq(&lines[lo], "flows") {
        Some(lo)
    } else {
        find_flows_marker(lines, lo + 1, hi)
    }
}

/// Whether a `failover-only mode` line stands in the block, computed.
fn find_failover_line(lines: &Vec<Vec<char>>, lo: usize, hi: usize) -> (r: bool)
    requires
        lo <= hi <= lines@.len(),
    ensures
        r == has_failover_line(lines.deep_view(), lo as int, hi as int),
    decreases hi - lo,
{
    if lo == hi {
        return false;
    }
    proof {
        assert(lines@[lo as int]@ == lines.deep_view()[lo as int]);
    }
    if line_word_eq(&lines[lo], "failover-only mode") {
        true
    } else {
        find_failover_line(lines, lo + 1, hi)
    }
}

/// Reads one flow line.
fn parse_flow_line(line: &Vec<char>) -> (r: Option<(String, FlowSize)>)
    ensures
        match r {
            Some((n, f)) => match flow_line_of(line@) {
                Some(v) => n@ == v.0 && f.0 == v.1 && f.0.wf(),
                None => false,
            },
            None => flow_line_of(line@) is None,
        },
{
    proof {
        assert(line@.skip(0) =~= line@);
    }
    let c = crate::text::find_char(line, 0, ':');
    if c == line.len() {
        return None;
    }
    let st = crate::text::skip_spaces(line, 0);
    let ghost head = line@.take(c as int);
    proof {
        crate::text::lemma_space_run(line@);
        crate::text::lemma_space_run(head);
        assert forall|j: int| 0 <= j < head.len() implies head[j] == line@[j] by {}
        // the leading blank runs of the line and its head agree
        if space_run(line@) <= c {
            if space_run(line@) < c {
                assert(head[space_run(line@) as int] == line@[space_run(line@) as int]);
            }
            assert forall|j: int| 0 <= j < space_run(line@) implies
                crate::text::is_space_char(#[trigger] head[j]) by {}
            if space_run(head) != space_run(line@) {
                if space_run(head) < space_run(line@) {
                    assert(crate::text::is_space_char(head[space_run(head) as int]));
                } else {
                    assert(crate::text::is_space_char(line@[space_run(line@) as int]));
                }
            }
        } else {
            assert(crate::text::is_space_char(line@[c as int]));
            assert(false);
        }
    }
    let ghost hd = head.skip(space_run(head) as int);
    let ne = trim_end_in(line, st, c);
    proof {
        assert(head.skip(space_run(head) as int) =~= line@.subrange(st as int, c as int));
    }
    let name = crate::text::extract(line, st, ne);
    let vs = crate::text::skip_spaces(line, c + 1);
    proof {
        assert(line@.skip(c as int + 1).skip(vs - (c + 1)) =~= line@.subrange(
            vs as int,
            line@.len() as int,
        ));
    }
    let vtok = crate::text::copy_range(line, vs, line.len());
    match parse_scaled_chars(&vtok) {
        Ok(q) => {
            if q.frac_scale == 0 {
                Some((name, FlowSize(q)))
            } else {
                None
            }
        },
        Err(_) => None,
    }
}

/// The end of the trimmed word inside `[st, c)`: `subrange(st, r)` equals
/// the trailing-trimmed `subrange(st, c)`.
fn trim_end_in(line: &Vec<char>, st: usize, c: usize) -> (r: usize)
    requires
        st <= c <= line@.len(),
    ensures
        st <= r <= c,
        line@.subrange(st as int, r as int) == trim_end_spec(line@.subrange(st as int, c as int)),
    decreases c,
{
    let ghost w = line@.subrange(st as int, c as int);
    proof {
        crate::fields::lemma_space_run_end(w);
    }
    if c == st {
        proof {
            assert(w =~= Seq::<char>::empty());
            assert(line@.subrange(st as int, st as int) =~= trim_end_spec(w));
        }
        return st;
    }
    if crate::text::space_char(line[c - 1]) {
        proof {
            assert(w.last() == line@[c - 1]);
            assert(w.drop_last() =~= line@.subrange(st as int, c as int - 1));
        }
        let r = trim_end_in(line, st, c - 1);
        proof {
            assert(trim_end_spec(w) =~= trim_end_spec(w.drop_last()));
        }
        r
    } else {
        proof {
            assert(w.last() == line@[c - 1]);
            assert(line@.subrange(st as int, c as int) =~= trim_end_spec(w));
        }
        c
    }
}

/// A readable flow listing never repeats a name.
proof fn lemma_flow_scan_unique(ls: Seq<Seq<char>>, i: int, hi: int)
    ensures
        match flow_scan(ls, i, hi) {
            Some(vs) => forall|a: int, b: int|
                0 <= a < b < vs.len() ==> (#[trigger] vs[a]).0 != (#[trigger] vs[b]).0,
            None => true,
        },
    decreases hi - i,
{
    if !(i < 0 || i >= hi || hi > ls.len() || is_blank(ls[i])) {
        lemma_flow_scan_unique(ls, i + 1, hi);
        match flow_line_of(ls[i]) {
            Some(f) => {
                match flow_scan(ls, i + 1, hi) {
                    Some(rest) => {
                        if !has_flow_name(rest, f.0) {
                            let vs = flow_scan(ls, i, hi).unwrap();
                            assert forall|a: int, b: int|
                                0 <= a < b < vs.len() implies (#[trigger] vs[a]).0 != (
                            #[trigger] vs[b]).0 by {
                                if a == 0 {
                                    assert(vs[b] == rest[b - 1]);
                                } else {
                                    assert(vs[a] == rest[a - 1]);
                                    assert(vs[b] == rest[b - 1]);
                                }
                            }
                        }
                    },
                    None => {},
                }
            },
            None => {},
        }
    }
}

/// Whether one of the parsed flows already carries this name.
fn flows_contain(
    rest: &Vec<(String, FlowSize)>,
    name: &String,
    Ghost(views): Ghost<Seq<(Seq<char>, ScaledQuantity)>>,
) -> (r: bool)
    requires
        rest@.len() == views.len(),
        forall|j: int| 0 <= j < views.len() ==> (#[trigger] rest@[j]).0@ == views[j].0,
    ensures
        r == has_flow_name(views, name@),
{
    let mut j: usize = 0;
    while j < rest.len()
        invariant
            j <= rest@.len(),
            rest@.len() == views.len(),
            forall|m: int| 0 <= m < views.len() ==> (#[trigger] rest@[m]).0@ == views[m].0,
            forall|m: int| 0 <= m < j ==> (#[trigger] views[m]).0 != name@,
        decreases rest@.len() - j,
    {
        if rest[j].0 == *name {
            proof {
                assert(views[j as int].0 == name@);
            }
            return true;
        }
        j += 1;
    }
    false
}

/// Reads the flow listing after the marker, up to a blank line.
fn parse_flows(lines: &Vec<Vec<char>>, i: usize, hi: usize) -> (r: Option<Vec<(String, FlowSize)>>)
    requires
        i <= hi <= lines@.len(),
    ensures
        match r {
            Some(list) => match flow_scan(lines.deep_view(), i as int, hi as int) {
                Some(views) => list@.len() == views.len() && forall|j: int|
                    0 <= j < views.len() ==> (#[trigger] list@[j]).0@ == views[j].0 && list@[j].1.0
                        == views[j].1 && list@[j].1.0.wf(),
                None => false,
            },
            None => flow_scan(lines.deep_view(), i as int, hi as int) is None,
        },
    decreases hi - i,
{
    let ghost ls = lines.deep_view();
    if i == hi {
        let r: Vec<(String, FlowSize)> = Vec::new();
        return Some(r);
    }
    proof {
        assert(lines@[i as int]@ == ls[i as int]);
    }
    if crate::fields::line_blank(&lines[i]) {
        let r: Vec<(String, FlowSize)> = Vec::new();
        return Some(r);
    }
    match parse_flow_line(&lines[i]) {
        Some(f) => {
            match parse_flows(lines, i + 1, hi) {
                Some(mut rest) => {
                    if flows_contain(&rest, &f.0, Ghost(flow_scan(ls, i as int + 1, hi as int).unwrap())) {
                        return None;
                    }
                    let ghost old_rest = rest@;
                    rest.insert(0, f);
                    proof {
                        let views = flow_scan(ls, i as int, hi as int).unwrap();
                        let tail = flow_scan(ls, i as int + 1, hi as int).unwrap();
                        assert forall|j: int| 0 <= j < views.len() implies (#[trigger] rest@[j]).0@
                            == views[j].0 && rest@[j].1.0 == views[j].1 && rest@[j].1.0.wf() by {
                            if j == 0 {
                                assert(rest@[0] == f);
                                assert(views[0] == flow_line_of(ls[i as int]).unwrap());
                            } else {
                                assert(rest@[j] == old_rest[j - 1]);
                                assert(views[j] == tail[j - 1]);
                            }
                        }
                    }
                    Some(rest)
                },
                None => None,
            }
        },
        None => None,
    }
}

/// Reads one status interface block.
#[verifier::rlimit(50)]
pub fn parse_status_interface_block(lines: &Vec<Vec<char>>, lo: usize, hi: usize) -> (r: Result<
    LoadBalanceStatusInterface,
    ParseError,
>)
    requires
        lo <= hi <= lines@.len(),
    ensures
        match r {
            Ok(itf) => si_ok(lines.deep_view(), lo as int, hi as int, itf),
            Err(e) => si_err(lines.deep_view(), lo as int, hi as int) && (e
                == ParseError::MissingRequiredField || e == ParseError::MalformedHeader),
        },
{
    let interface = match block_kv_value(lines, lo, hi, "interface") {
        Some(v) => crate::text::chars_string(v.as_slice()),
        None => {
            return Err(ParseError::MissingRequiredField);
        },
    };
    let reachable = match block_kv_value(lines, lo, hi, "reachable") {
        Some(v) => match read_bool(&v) {
            Some(b) => b,
            None => {
                return Err(ParseError::MalformedHeader);
            },
        },
        None => {
            return Err(ParseError::MissingRequiredField);
        },
    };
    let status = match block_kv_value(lines, lo, hi, "status") {
        Some(v) => read_lb_status(&v),
        None => {
            return Err(ParseError::MissingRequiredField);
        },
    };
    let gateway = match block_kv_value(lines, lo, hi, "gateway") {
        Some(v) => if v.len() == 0 {
            None
        } else {
            Some(crate::text::chars_string(v.as_slice()))
        },
        None => {
            return Err(ParseError::MissingRequiredField);
        },
    };
    let route_table = match block_kv_value(lines, lo, hi, "route table") {
        Some(v) => match crate::num::parse_u64_chars(&v) {
            Some(n) => if n <= u32::MAX as u64 {
                n as u32
            } else {
                return Err(ParseError::MalformedHeader);
            },
            None => {
                return Err(ParseError::MalformedHeader);
            },
        },
        None => {
            return Err(ParseError::MissingRequiredField);
        },
    };
    let weight_percent = match block_kv_value(lines, lo, hi, "weight") {
        Some(v) => match read_percent(&v) {
            Some(p) => p,
            None => {
                return Err(ParseError::MalformedHeader);
            },
        },
        None => {
            return Err(ParseError::MissingRequiredField);
        },
    };
    let fo_priority = match block_kv_value(lines, lo, hi, "fo_priority") {
        Some(v) => match crate::num::parse_u64_chars(&v) {
            Some(n) => if n <= u32::MAX as u64 {
                n as u32
            } else {
                return Err(ParseError::MalformedHeader);
            },
            None => {
                return Err(ParseError::MalformedHeader);
            },
        },
        None => {
            return Err(ParseError::MissingRequiredField);
        },
    };
    let flows = match find_flows_marker(lines, lo, hi) {
        Some(m) => match parse_flows(lines, m + 1, hi) {
            Some(fl) => fl,
            None => {
                return Err(ParseError::MalformedHeader);
            },
        },
        None => {
            return Err(ParseError::MissingRequiredField);
        },
    };
    proof {
        let lsv = lines.deep_view();
        let v = block_kv(lsv, lo as int, hi as int, "route table"@);
        if v is Some && all_digits(v.unwrap()) && v.unwrap().len() > 0 {
            crate::num::lemma_all_digits_radix(v.unwrap());
            crate::num::lemma_radix_value_bounds(v.unwrap(), 10);
        }
        let v2 = block_kv(lsv, lo as int, hi as int, "fo_priority"@);
        if v2 is Some && all_digits(v2.unwrap()) && v2.unwrap().len() > 0 {
            crate::num::lemma_all_digits_radix(v2.unwrap());
            crate::num::lemma_radix_value_bounds(v2.unwrap(), 10);
        }
        // the flow names are pairwise distinct
        let m = flows_marker(lsv, lo as int, hi as int).unwrap();
        lemma_flow_scan_unique(lsv, m + 1, hi as int);
        let views = flow_scan(lsv, m + 1, hi as int).unwrap();
        assert forall|a: int, b: int|
            0 <= a < b < flows@.len() implies (#[trigger] flows@[a]).0@ != (
        #[trigger] flows@[b]).0@ by {
            assert(flows@[a].0@ == views[a].0);
            assert(flows@[b].0@ == views[b].0);
            assert(views[a].0 != views[b].0);
        }
    }
    Ok(
        LoadBalanceStatusInterface {
            interface,
            reachable,
            status,
            gateway,
            route_table,
            weight_percent,
            fo_priority,
            flows,
            watchdog: None,
        },
    )
}

/// Reads one watchdog interface block; its first line is the name.
#[verifier::rlimit(50)]
pub fn parse_watchdog_interface_block(lines: &Vec<Vec<char>>, lo: usize, hi: usize) -> (r: Result<
    LoadBalanceWatchdogInterface,
    ParseError,
>)
    requires
        lo < hi <= lines@.len(),
    ensures
        match r {
            Ok(w) => wi_ok(lines.deep_view(), lo as int, hi as int, w),
            Err(e) => wi_err(lines.deep_view(), lo as int, hi as int) && (e
                == ParseError::MissingRequiredField || e == ParseError::MalformedHeader),
        },
{
    proof {
        assert(lines@[lo as int]@ == lines.deep_view()[lo as int]);
    }
    let name_line = &lines[lo];
    let st = crate::text::skip_spaces(name_line, 0);
    proof {
        assert(name_line@.skip(0) =~= name_line@);
        assert(name_line@.skip(st as int) =~= name_line@.subrange(
            st as int,
            name_line@.len() as int,
        ));
    }
    let interface = crate::text::extract(name_line, st, name_line.len());
    let status = match block_kv_value(lines, lo, hi, "status") {
        Some(v) => read_wd_status(&v),
        None => {
            return Err(ParseError::MissingRequiredField);
        },
    };
    let failover_only_mode = find_failover_line(lines, lo, hi);
    let pings = match block_kv_value(lines, lo, hi, "pings") {
        Some(v) => match crate::num::parse_u64_chars(&v) {
            Some(n) => n,
            None => {
                return Err(ParseError::MalformedHeader);
            },
        },
        None => {
            return Err(ParseError::MissingRequiredField);
        },
    };
    let fails = match block_kv_value(lines, lo, hi, "fails") {
        Some(v) => match crate::num::parse_u64_chars(&v) {
            Some(n) => n,
            None => {
                return Err(ParseError::MalformedHeader);
            },
        },
        None => {
            return Err(ParseError::MissingRequiredField);
        },
    };
    let (run_fails, run_fails_limit) = match block_kv_value(lines, lo, hi, "run fails") {
        Some(v) => match read_pair(&v) {
            Some(p) => p,
            None => {
                return Err(ParseError::MalformedHeader);
            },
        },
        None => {
            return Err(ParseError::MissingRequiredField);
        },
    };
    let route_drops = match block_kv_value(lines, lo, hi, "route drops") {
        Some(v) => match crate::num::parse_u64_chars(&v) {
            Some(n) => n,
            None => {
                return Err(ParseError::MalformedHeader);
            },
        },
        None => {
            return Err(ParseError::MissingRequiredField);
        },
    };
    let ping = match block_kv_value(lines, lo, hi, "ping gateway") {
        Some(v) => match read_ping(&v) {
            Some(p) => p,
            None => {
                return Err(ParseError::MalformedHeader);
            },
        },
        None => {
            return Err(ParseError::MissingRequiredField);
        },
    };
    let last_route_drop = match block_kv_value(lines, lo, hi, "last route drop") {
        Some(v) => {
            let te = trim_end(&v);
            if te == 0 {
                return Err(ParseError::MalformedHeader);
            }
            let w = crate::text::copy_range(&v, 0, te);
            match parse_datetime_chars(&w, "%a %b %e %H:%M:%S %Y") {
                Some(ts) => Some(ts),
                None => {
                    return Err(ParseError::MalformedHeader);
                },
            }
        },
        None => None,
    };
    let last_route_recover = match block_kv_value(lines, lo, hi, "last route recover") {
        Some(v) => {
            let te = trim_end(&v);
            if te == 0 {
                return Err(ParseError::MalformedHeader);
            }
            let w = crate::text::copy_range(&v, 0, te);
            match parse_datetime_chars(&w, "%a %b %e %H:%M:%S %Y") {
                Some(ts) => Some(ts),
                None => {
                    return Err(ParseError::MalformedHeader);
                },
            }
        },
        None => None,
    };
    proof {
        let lsv = lines.deep_view();
        let v = block_kv(lsv, lo as int, hi as int, "pings"@);
        if v is Some && all_digits(v.unwrap()) && v.unwrap().len() > 0 {
            crate::num::lemma_all_digits_radix(v.unwrap());
            crate::num::lemma_radix_value_bounds(v.unwrap(), 10);
        }
        let v2 = block_kv(lsv, lo as int, hi as int, "fails"@);
        if v2 is Some && all_digits(v2.unwrap()) && v2.unwrap().len() > 0 {
            crate::num::lemma_all_digits_radix(v2.unwrap());
            crate::num::lemma_radix_value_bounds(v2.unwrap(), 10);
        }
        let v3 = block_kv(lsv, lo as int, hi as int, "route drops"@);
        if v3 is Some && all_digits(v3.unwrap()) && v3.unwrap().len() > 0 {
            crate::num::lemma_all_digits_radix(v3.unwrap());
            crate::num::lemma_radix_value_bounds(v3.unwrap(), 10);
        }
    }
    Ok(
        LoadBalanceWatchdogInterface {
            interface,
            status,
            failover_only_mode,
            pings,
            fails,
            run_fails,
            run_fails_limit,
            route_drops,
            ping,
            last_route_drop,
            last_route_recover,
        },
    )
}

/// Reads one group heading block: the name line and the four globals.
#[verifier::rlimit(30)]
pub fn parse_status_group_header(lines: &Vec<Vec<char>>, lo: usize, hi: usize) -> (r: Result<
    LoadBalanceStatus,
    ParseError,
>)
    requires
        lo < hi <= lines@.len(),
    ensures
        match r {
            Ok(g) => sg_header_ok(lines.deep_view(), lo as int, hi as int, g)
                && g.interfaces@.len() == 0,
            Err(e) => sg_header_err(lines.deep_view(), lo as int, hi as int) && (e
                == ParseError::MissingRequiredField || e == ParseError::MalformedHeader),
        },
{
    proof {
        assert(lines@[lo as int]@ == lines.deep_view()[lo as int]);
    }
    let name = match match_group_line(&lines[lo]) {
        Some(n) => n,
        None => {
            return Err(ParseError::MalformedHeader);
        },
    };
    let balance_local = match block_kv_value(lines, lo, hi, "Balance Local") {
        Some(v) => match read_bool(&v) {
            Some(b) => b,
            None => {
                return Err(ParseError::MalformedHeader);
            },
        },
        None => {
            return Err(ParseError::MissingRequiredField);
        },
    };
    let lock_local_dns = match block_kv_value(lines, lo, hi, "Lock Local DNS") {
        Some(v) => match read_bool(&v) {
            Some(b) => b,
            None => {
                return Err(ParseError::MalformedHeader);
            },
        },
        None => {
            return Err(ParseError::MissingRequiredField);
        },
    };
    let conntrack_flush = match block_kv_value(lines, lo, hi, "Conntrack Flush") {
        Some(v) => match read_bool(&v) {
            Some(b) => b,
            None => {
                return Err(ParseError::MalformedHeader);
            },
        },
        None => {
            return Err(ParseError::MissingRequiredField);
        },
    };
    let sticky_bits = match block_kv_value(lines, lo, hi, "Sticky Bits") {
        Some(v) => match read_sticky(&v) {
            Some(b) => b,
            None => {
                return Err(ParseError::MalformedHeader);
            },
        },
        None => {
            return Err(ParseError::MissingRequiredField);
        },
    };
    Ok(
        LoadBalanceStatus {
            name,
            balance_local,
            lock_local_dns,
            conntrack_flush,
            sticky_bits,
            interfaces: Vec::new(),
        },
    )
}

// --- the two report parsers ---

/// One group against a span of segments: segment `lo` is its heading
/// block, and the segments before `k` are its interface blocks, in order.
pub open spec fn status_group_span(
    ls: Seq<Seq<char>>,
    segs: Seq<(usize, usize)>,
    lo: int,
    k: int,
    g: LoadBalanceStatus,
) -> bool {
    &&& 0 <= lo < k <= segs.len()
    &&& sg_header_ok(ls, segs[lo].0 as int, segs[lo].1 as int, g)
    &&& g.interfaces@.len() == k - lo - 1
    &&& forall|p: int| #![trigger segs[p]] lo < p < k ==> !is_group_line(ls[segs[p].0 as int])
    &&& forall|j: int|
        #![trigger g.interfaces@[j]]
        0 <= j < g.interfaces@.len() ==> si_ok(
            ls,
            segs[lo + 1 + j].0 as int,
            segs[lo + 1 + j].1 as int,
            g.interfaces@[j],
        )
}

/// The first `k` segments read as the status listing `gs`: `starts`
/// names each group's heading segment; each group spans from its heading
/// to the next (the last to `k`), so the listing covers the segments
/// completely and in order.
pub open spec fn status_groups_ok(
    ls: Seq<Seq<char>>,
    segs: Seq<(usize, usize)>,
    starts: Seq<int>,
    gs: Seq<LoadBalanceStatus>,
    k: int,
) -> bool
    decreases gs.len(),
{
    if gs.len() == 0 {
        starts.len() == 0 && k == 0
    } else {
        &&& starts.len() == gs.len()
        &&& status_groups_ok(ls, segs, starts.drop_last(), gs.drop_last(), starts.last())
        &&& status_group_span(ls, segs, starts.last(), k, gs.last())
    }
}

/// What makes the status report unreadable: no block at all, a first
/// block that opens no group, an unreadable heading block, or an
/// unreadable interface block.
pub open spec fn status_parse_err(ls: Seq<Seq<char>>, segs: Seq<(usize, usize)>) -> bool {
    ||| segs.len() == 0
    ||| !is_group_line(ls[segs[0].0 as int])
    ||| exists|x: int|
        0 <= x < segs.len() && is_group_line(ls[(#[trigger] segs[x]).0 as int]) && sg_header_err(
            ls,
            segs[x].0 as int,
            segs[x].1 as int,
        )
    ||| exists|x: int|
        0 <= x < segs.len() && !is_group_line(ls[(#[trigger] segs[x]).0 as int]) && si_err(
            ls,
            segs[x].0 as int,
            segs[x].1 as int,
        )
}

/// One watchdog group against a span of segments: as for the status
/// listing, except that a heading segment with lines under the heading
/// carries the group's first interface block itself.
pub open spec fn watchdog_group_span(
    ls: Seq<Seq<char>>,
    segs: Seq<(usize, usize)>,
    lo: int,
    k: int,
    g: LoadBalanceWatchdog,
) -> bool {
    let extra: int = if segs[lo].0 + 1 < segs[lo].1 {
        1
    } else {
        0
    };
    &&& 0 <= lo < k <= segs.len()
    &&& match group_name_of(ls[segs[lo].0 as int]) {
        Some(n) => g.name@ == n,
        None => false,
    }
    &&& g.interfaces@.len() == extra + (k - lo - 1)
    &&& (extra == 1 ==> wi_ok(ls, segs[lo].0 as int + 1, segs[lo].1 as int, g.interfaces@[0]))
    &&& forall|p: int| #![trigger segs[p]] lo < p < k ==> !is_group_line(ls[segs[p].0 as int])
    &&& forall|i: int|
        #![trigger g.interfaces@[i]]
        extra <= i < g.interfaces@.len() ==> wi_ok(
            ls,
            segs[lo + 1 + i - extra].0 as int,
            segs[lo + 1 + i - extra].1 as int,
            g.interfaces@[i],
        )
}

/// The first `k` segments read as the watchdog listing `gs`.
pub open spec fn watchdog_groups_ok(
    ls: Seq<Seq<char>>,
    segs: Seq<(usize, usize)>,
    starts: Seq<int>,
    gs: Seq<LoadBalanceWatchdog>,
    k: int,
) -> bool
    decreases gs.len(),
{
    if gs.len() == 0 {
        starts.len() == 0 && k == 0
    } else {
        &&& starts.len() == gs.len()
        &&& watchdog_groups_ok(ls, segs, starts.drop_last(), gs.drop_last(), starts.last())
        &&& watchdog_group_span(ls, segs, starts.last(), k, gs.last())
    }
}

/// What makes the watchdog report unreadable: no block at all, a first
/// block that opens no group, or an unreadable interface block, under a
/// heading or on its own.
pub open spec fn watchdog_parse_err(ls: Seq<Seq<char>>, segs: Seq<(usize, usize)>) -> bool {
    ||| segs.len() == 0
    ||| !is_group_line(ls[segs[0].0 as int])
    ||| exists|x: int|
        0 <= x < segs.len() && is_group_line(ls[(#[trigger] segs[x]).0 as int]) && segs[x].0 + 1
            < segs[x].1 && wi_err(ls, segs[x].0 as int + 1, segs[x].1 as int)
    ||| exists|x: int|
        0 <= x < segs.len() && !is_group_line(ls[(#[trigger] segs[x]).0 as int]) && wi_err(
            ls,
            segs[x].0 as int,
            segs[x].1 as int,
        )
}

/// Opening a group with segment `k` extends a readable status prefix.
proof fn lemma_status_open_group(
    ls: Seq<Seq<char>>,
    segs: Seq<(usize, usize)>,
    starts: Seq<int>,
    gs: Seq<LoadBalanceStatus>,
    g: LoadBalanceStatus,
    k: int,
)
    requires
        status_groups_ok(ls, segs, starts, gs, k),
        0 <= k < segs.len(),
        sg_header_ok(ls, segs[k].0 as int, segs[k].1 as int, g),
        g.interfaces@.len() == 0,
    ensures
        status_groups_ok(ls, segs, starts.push(k), gs.push(g), k + 1),
{
    let starts2 = starts.push(k);
    let gs2 = gs.push(g);
    assert(starts2.drop_last() =~= starts);
    assert(gs2.drop_last() =~= gs);
    assert(starts2.last() == k);
    assert(gs2.last() == g);
    assert(status_group_span(ls, segs, k, k + 1, g));
}

/// Reading segment `k` as an interface of the last group extends a
/// readable status prefix: `gs2` is `gs` with the new interface appended
/// to its last group.
#[verifier::rlimit(60)]
proof fn lemma_status_push_interface(
    ls: Seq<Seq<char>>,
    segs: Seq<(usize, usize)>,
    starts: Seq<int>,
    gs: Seq<LoadBalanceStatus>,
    gs2: Seq<LoadBalanceStatus>,
    itf: LoadBalanceStatusInterface,
    k: int,
)
    requires
        status_groups_ok(ls, segs, starts, gs, k),
        k < segs.len(),
        gs.len() > 0,
        !is_group_line(ls[segs[k].0 as int]),
        si_ok(ls, segs[k].0 as int, segs[k].1 as int, itf),
        gs2.len() == gs.len(),
        forall|m: int| 0 <= m < gs.len() - 1 ==> #[trigger] gs2[m] == gs[m],
        ({
            let last = gs.len() - 1;
            &&& gs2[last].name == gs[last].name
            &&& gs2[last].balance_local == gs[last].balance_local
            &&& gs2[last].lock_local_dns == gs[last].lock_local_dns
            &&& gs2[last].conntrack_flush == gs[last].conntrack_flush
            &&& gs2[last].sticky_bits == gs[last].sticky_bits
            &&& gs2[last].interfaces@ == gs[last].interfaces@.push(itf)
        }),
    ensures
        status_groups_ok(ls, segs, starts, gs2, k + 1),
{
    let lo = starts.last();
    let gl = gs.last();
    let gl2 = gs2.last();
    assert(gs2.drop_last() =~= gs.drop_last());
    assert(gl == gs[gs.len() - 1]);
    assert(gl2 == gs2[gs.len() - 1]);
    assert(status_group_span(ls, segs, lo, k, gl));
    assert(gl2.interfaces@ == gl.interfaces@.push(itf));
    assert(status_group_span(ls, segs, lo, k + 1, gl2)) by {
        assert(0 <= lo < k + 1 <= segs.len());
        assert(sg_header_ok(ls, segs[lo].0 as int, segs[lo].1 as int, gl2));
        assert(gl2.interfaces@.len() == (k + 1) - lo - 1);
        assert forall|p: int| #![trigger segs[p]] lo < p < k + 1 implies !is_group_line(
            ls[segs[p].0 as int],
        ) by {
            if p < k {
                assert(!is_group_line(ls[segs[p].0 as int]));
            }
        }
        assert forall|j: int|
            #![trigger gl2.interfaces@[j]]
            0 <= j < gl2.interfaces@.len() implies si_ok(
            ls,
            segs[lo + 1 + j].0 as int,
            segs[lo + 1 + j].1 as int,
            gl2.interfaces@[j],
        ) by {
            if j < gl.interfaces@.len() {
                assert(gl2.interfaces@[j] == gl.interfaces@[j]);
            } else {
                assert(gl2.interfaces@[j] == itf);
                assert(lo + 1 + j == k);
            }
        }
    }
}

/// Opening a group with segment `k` extends a readable watchdog prefix;
/// the group may carry its first interface from under the heading.
proof fn lemma_watchdog_open_group(
    ls: Seq<Seq<char>>,
    segs: Seq<(usize, usize)>,
    starts: Seq<int>,
    gs: Seq<LoadBalanceWatchdog>,
    g: LoadBalanceWatchdog,
    k: int,
)
    requires
        watchdog_groups_ok(ls, segs, starts, gs, k),
        0 <= k < segs.len(),
        match group_name_of(ls[segs[k].0 as int]) {
            Some(n) => g.name@ == n,
            None => false,
        },
        ({
            let extra: int = if segs[k].0 + 1 < segs[k].1 {
                1
            } else {
                0
            };
            &&& g.interfaces@.len() == extra
            &&& (extra == 1 ==> wi_ok(ls, segs[k].0 as int + 1, segs[k].1 as int, g.interfaces@[0]))
        }),
    ensures
        watchdog_groups_ok(ls, segs, starts.push(k), gs.push(g), k + 1),
{
    let starts2 = starts.push(k);
    let gs2 = gs.push(g);
    assert(starts2.drop_last() =~= starts);
    assert(gs2.drop_last() =~= gs);
    assert(starts2.last() == k);
    assert(gs2.last() == g);
    assert(watchdog_group_span(ls, segs, k, k + 1, g));
}

/// Reading segment `k` as an interface of the last group extends a
/// readable watchdog prefix: `gs2` is `gs` with the new interface
/// appended to its last group.
proof fn lemma_watchdog_push_interface(
    ls: Seq<Seq<char>>,
    segs: Seq<(usize, usize)>,
    starts: Seq<int>,
    gs: Seq<LoadBalanceWatchdog>,
    gs2: Seq<LoadBalanceWatchdog>,
    w: LoadBalanceWatchdogInterface,
    k: int,
)
    requires
        watchdog_groups_ok(ls, segs, starts, gs, k),
        k < segs.len(),
        gs.len() > 0,
        !is_group_line(ls[segs[k].0 as int]),
        wi_ok(ls, segs[k].0 as int, segs[k].1 as int, w),
        gs2.len() == gs.len(),
        forall|m: int| 0 <= m < gs.len() - 1 ==> #[trigger] gs2[m] == gs[m],
        ({
            let last = gs.len() - 1;
            &&& gs2[last].name == gs[last].name
            &&& gs2[last].interfaces@ == gs[last].interfaces@.push(w)
        }),
    ensures
        watchdog_groups_ok(ls, segs, starts, gs2, k + 1),
{
    let lo = starts.last();
    let gl = gs.last();
    let gl2 = gs2.last();
    assert(gs2.drop_last() =~= gs.drop_last());
    assert(gl == gs[gs.len() - 1]);
    assert(gl2 == gs2[gs.len() - 1]);
    assert(watchdog_group_span(ls, segs, lo, k, gl));
    assert(gl2.interfaces@ == gl.interfaces@.push(w));
    let extra: int = if segs[lo].0 + 1 < segs[lo].1 {
        1
    } else {
        0
    };
    assert(watchdog_group_span(ls, segs, lo, k + 1, gl2)) by {
        assert(0 <= lo < k + 1 <= segs.len());
        assert(gl2.interfaces@.len() == extra + ((k + 1) - lo - 1));
        if extra == 1 {
            assert(gl2.interfaces@[0] == gl.interfaces@[0]);
        }
        assert forall|p: int| #![trigger segs[p]] lo < p < k + 1 implies !is_group_line(
            ls[segs[p].0 as int],
        ) by {
            if p < k {
                assert(!is_group_line(ls[segs[p].0 as int]));
            }
        }
        assert forall|i: int|
            #![trigger gl2.interfaces@[i]]
            extra <= i < gl2.interfaces@.len() implies wi_ok(
            ls,
            segs[lo + 1 + i - extra].0 as int,
            segs[lo + 1 + i - extra].1 as int,
            gl2.interfaces@[i],
        ) by {
            if i < gl.interfaces@.len() {
                assert(gl2.interfaces@[i] == gl.interfaces@[i]);
            } else {
                assert(gl2.interfaces@[i] == w);
                assert(lo + 1 + i - extra == k);
            }
        }
    }
}

/// A parser for the load-balance status report.
#[derive(Clone, Copy, Debug, PartialEq, Eq, Structural)]
pub struct LoadBalanceStatusParser;

/// A parser for the load-balance watchdog report.
#[derive(Clone, Copy, Debug, PartialEq, Eq, Structural)]
pub struct LoadBalanceWatchdogParser;

impl LoadBalanceStatusParser {
    /// Parses the status report. The sentinel and only the sentinel gives
    /// the empty listing; otherwise the blank-separated blocks must read
    /// as one or more groups — each heading block satisfying
    /// `sg_header_ok`, each interface block `si_ok`, attached in order to
    /// the group opened last — and the parse fails exactly when some
    /// block is unreadable.
    #[verifier::loop_isolation(false)]
    #[verifier::rlimit(100)]
    pub fn parse(&self, input: &str) -> (r: Result<Vec<LoadBalanceStatus>, ParseError>)
        ensures
            ({
                let ls = line_split(input@);
                match r {
                    Ok(gs) => if lb_not_configured(ls) {
                        gs@.len() == 0
                    } else {
                        gs@.len() > 0 && (exists|segs: Seq<(usize, usize)>, starts: Seq<int>|
                            crate::blocks::seg_chain(ls, segs) && #[trigger] status_groups_ok(
                                ls,
                                segs,
                                starts,
                                gs@,
                                segs.len() as int,
                            ))
                    },
                    Err(_) => !lb_not_configured(ls) && (exists|segs: Seq<(usize, usize)>|
                        #[trigger] crate::blocks::seg_chain(ls, segs) && status_parse_err(
                            ls,
                            segs,
                        )),
                }
            }),
    {
        let chars = str_chars(input);
        let lines = split_lines(&chars);
        let ghost ls = lines.deep_view();
        if lines.len() > 0 {
            let sent = "load-balance is not configured";
            let n = sent.unicode_len();
            proof {
                assert(lines@[0]@ == ls[0]);
            }
            if lines[0].len() >= n && crate::text::range_eq_str(&lines[0], 0, n, sent) {
                proof {
                    assert(ls[0].take(n as int) =~= lines@[0]@.subrange(0, n as int));
                }
                return Ok(Vec::new());
            }
            proof {
                if ls[0].len() >= n {
                    assert(ls[0].take(n as int) =~= lines@[0]@.subrange(0, n as int));
                }
            }
        }
        let segs = crate::blocks::segment_lines(&lines);
        if segs.len() == 0 {
            return Err(ParseError::MalformedHeader);
        }
        let mut groups: Vec<LoadBalanceStatus> = Vec::new();
        let ghost mut starts: Seq<int> = Seq::empty();
        let mut k: usize = 0;
        while k < segs.len()
            invariant
                crate::blocks::seg_chain(ls, segs@),
                status_groups_ok(ls, segs@, starts, groups@, k as int),
            decreases segs@.len() - k,
        {
            let (lo, hi) = (segs[k].0, segs[k].1);
            proof {
                assert(lines@[lo as int]@ == ls[lo as int]);
            }
            match match_group_line(&lines[lo]) {
                Some(_) => {
                    match parse_status_group_header(&lines, lo, hi) {
                        Ok(g) => {
                            let ghost old_groups = groups@;
                            let ghost gv = g;
                            groups.push(g);
                            proof {
                                lemma_status_open_group(ls, segs@, starts, old_groups, gv, k as int);
                                starts = starts.push(k as int);
                                assert(groups@ == old_groups.push(gv));
                            }
                        },
                        Err(e) => {
                            proof {
                                assert(is_group_line(ls[segs@[k as int].0 as int]));
                                assert(status_parse_err(ls, segs@));
                            }
                            return Err(e);
                        },
                    }
                },
                None => {
                    if groups.len() == 0 {
                        proof {
                            assert(k == 0);
                            assert(!is_group_line(ls[segs@[0].0 as int]));
                            assert(status_parse_err(ls, segs@));
                        }
                        return Err(ParseError::MalformedHeader);
                    }
                    match parse_status_interface_block(&lines, lo, hi) {
                        Ok(itf) => {
                            let ghost old_groups = groups@;
                            let ghost iv = itf;
                            let mut g = match groups.pop() {
                                Some(g) => g,
                                None => {
                                    proof {
                                        assert(false);
                                    }
                                    return Err(ParseError::MalformedHeader);
                                },
                            };
                            g.interfaces.push(itf);
                            groups.push(g);
                            proof {
                                assert(groups@.len() == old_groups.len());
                                assert forall|m: int|
                                    0 <= m < old_groups.len() - 1 implies #[trigger] groups@[m]
                                    == old_groups[m] by {}
                                lemma_status_push_interface(
                                    ls,
                                    segs@,
                                    starts,
                                    old_groups,
                                    groups@,
                                    iv,
                                    k as int,
                                );
                            }
                        },
                        Err(e) => {
                            proof {
                                assert(!is_group_line(ls[segs@[k as int].0 as int]));
                                assert(status_parse_err(ls, segs@));
                            }
                            return Err(e);
                        },
                    }
                },
            }
            k += 1;
        }
        proof {
            assert(status_groups_ok(ls, segs@, starts, groups@, segs@.len() as int));
        }
        Ok(groups)
    }
}

impl LoadBalanceWatchdogParser {
    /// Parses the watchdog report. The sentinel and only the sentinel
    /// gives the empty listing; otherwise the blank-separated blocks must
    /// read as one or more groups — a heading block may carry the group's
    /// first interface under the heading line, every other block is one
    /// interface (`wi_ok`) of the group opened last — and the parse fails
    /// exactly when some block is unreadable.
    #[verifier::loop_isolation(false)]
    #[verifier::rlimit(100)]
    pub fn parse(&self, input: &str) -> (r: Result<Vec<LoadBalanceWatchdog>, ParseError>)
        ensures
            ({
                let ls = line_split(input@);
                match r {
                    Ok(gs) => if lb_not_configured(ls) {
                        gs@.len() == 0
                    } else {
                        gs@.len() > 0 && (exists|segs: Seq<(usize, usize)>, starts: Seq<int>|
                            crate::blocks::seg_chain(ls, segs) && #[trigger] watchdog_groups_ok(
                                ls,
                                segs,
                                starts,
                                gs@,
                                segs.len() as int,
                            ))
                    },
                    Err(_) => !lb_not_configured(ls) && (exists|segs: Seq<(usize, usize)>|
                        #[trigger] crate::blocks::seg_chain(ls, segs) && watchdog_parse_err(
                            ls,
                            segs,
                        )),
                }
            }),
    {
        let chars = str_chars(input);
        let lines = split_lines(&chars);
        let ghost ls = lines.deep_view();
        if lines.len() > 0 {
            let sent = "load-balance is not configured";
            let n = sent.unicode_len();
            proof {
                assert(lines@[0]@ == ls[0]);
            }
            if lines[0].len() >= n && crate::text::range_eq_str(&lines[0], 0, n, sent) {
                proof {
                    assert(ls[0].take(n as int) =~= lines@[0]@.subrange(0, n as int));
                }
                return Ok(Vec::new());
            }
            proof {
                if ls[0].len() >= n {
                    assert(ls[0].take(n as int) =~= lines@[0]@.subrange(0, n as int));
                }
            }
        }
        let segs = crate::blocks::segment_lines(&lines);
        if segs.len() == 0 {
            return Err(ParseError::MalformedHeader);
        }
        let mut groups: Vec<LoadBalanceWatchdog> = Vec::new();
        let ghost mut starts: Seq<int> = Seq::empty();
        let mut k: usize = 0;
        while k < segs.len()
            invariant
                crate::blocks::seg_chain(ls, segs@),
                watchdog_groups_ok(ls, segs@, starts, groups@, k as int),
            decreases segs@.len() - k,
        {
            let (lo, hi) = (segs[k].0, segs[k].1);
            proof {
                assert(lines@[lo as int]@ == ls[lo as int]);
            }
            match match_group_line(&lines[lo]) {
                Some(name) => {
                    let mut interfaces: Vec<LoadBalanceWatchdogInterface> = Vec::new();
                    if lo + 1 < hi {
                        match parse_watchdog_interface_block(&lines, lo + 1, hi) {
                            Ok(w) => {
                                interfaces.push(w);
                            },
                            Err(e) => {
                                proof {
                                    assert(is_group_line(ls[segs@[k as int].0 as int]));
                                    assert(watchdog_parse_err(ls, segs@));
                                }
                                return Err(e);
                            },
                        }
                    }
                    let ghost old_groups = groups@;
                    let g = LoadBalanceWatchdog { name, interfaces };
                    let ghost gv = g;
                    groups.push(g);
                    proof {
                        lemma_watchdog_open_group(ls, segs@, starts, old_groups, gv, k as int);
                        starts = starts.push(k as int);
                        assert(groups@ == old_groups.push(gv));
                    }
                },
                None => {
                    if groups.len() == 0 {
                        proof {
                            assert(k == 0);
                            assert(!is_group_line(ls[segs@[0].0 as int]));
                            assert(watchdog_parse_err(ls, segs@));
                        }
                        return Err(ParseError::MalformedHeader);
                    }
                    match parse_watchdog_interface_block(&lines, lo, hi) {
                        Ok(w) => {
                            let ghost old_groups = groups@;
                            let ghost wv = w;
                            let mut g = match groups.pop() {
                                Some(g) => g,
                                None => {
                                    proof {
                                        assert(false);
                                    }
                                    return Err(ParseError::MalformedHeader);
                                },
                            };
                            g.interfaces.push(w);
                            groups.push(g);
                            proof {
                                assert(groups@.len() == old_groups.len());
                                assert forall|m: int|
                                    0 <= m < old_groups.len() - 1 implies #[trigger] groups@[m]
                                    == old_groups[m] by {}
                                lemma_watchdog_push_interface(
                                    ls,
                                    segs@,
                                    starts,
                                    old_groups,
                                    groups@,
                                    wv,
                                    k as int,
                                );
                            }
                        },
                        Err(e) => {
                            proof {
                                assert(!is_group_line(ls[segs@[k as int].0 as int]));
                                assert(watchdog_parse_err(ls, segs@));
                            }
                            return Err(e);
                        },
                    }
                },
            }
            k += 1;
        }
        proof {
            assert(watchdog_groups_ok(ls, segs@, starts, groups@, segs@.len() as int));
        }
        Ok(groups)
    }
}


// --- the watchdog join ---

/// The watchdog record for this group and interface name: the first group
/// with the name, then its first interface with the name; no match leaves
/// none.
pub open spec fn wd_lookup(
    wds: Seq<LoadBalanceWatchdog>,
    gname: Seq<char>,
    iname: Seq<char>,
) -> Option<LoadBalanceWatchdogInterface>
    decreases wds.len(),
{
    if wds.len() == 0 {
        None
    } else if wds[0].name@ == gname {
        wd_iface_lookup(wds[0].interfaces@, iname)
    } else {
        wd_lookup(wds.skip(1), gname, iname)
    }
}

pub open spec fn wd_iface_lookup(
    ws: Seq<LoadBalanceWatchdogInterface>,
    iname: Seq<char>,
) -> Option<LoadBalanceWatchdogInterface>
    decreases ws.len(),
{
    if ws.len() == 0 {
        None
    } else if ws[0].interface@ == iname {
        Some(ws[0])
    } else {
        wd_iface_lookup(ws.skip(1), iname)
    }
}

/// Two watchdog records carrying the same reading.
pub open spec fn wd_iface_eq(a: LoadBalanceWatchdogInterface, b: LoadBalanceWatchdogInterface) -> bool {
    &&& a.interface@ == b.interface@
    &&& match (a.status, b.status) {
        (LoadBalanceWatchdogStatus::Okay, LoadBalanceWatchdogStatus::Okay) => true,
        (LoadBalanceWatchdogStatus::Running, LoadBalanceWatchdogStatus::Running) => true,
        (
            LoadBalanceWatchdogStatus::WaitOnRecovery(m1, n1),
            LoadBalanceWatchdogStatus::WaitOnRecovery(m2, n2),
        ) => m1 == m2 && n1 == n2,
        (LoadBalanceWatchdogStatus::Unknown(t1), LoadBalanceWatchdogStatus::Unknown(t2)) => t1@
            == t2@,
        _ => false,
    }
    &&& a.failover_only_mode == b.failover_only_mode
    &&& a.pings == b.pings
    &&& a.fails == b.fails
    &&& a.run_fails == b.run_fails
    &&& a.run_fails_limit == b.run_fails_limit
    &&& a.route_drops == b.route_drops
    &&& match (a.ping, b.ping) {
        (LoadBalancePing::Reachable(h1), LoadBalancePing::Reachable(h2)) => h1@ == h2@,
        (LoadBalancePing::Down(h1), LoadBalancePing::Down(h2)) => h1@ == h2@,
        (LoadBalancePing::Unknown(o1, h1), LoadBalancePing::Unknown(o2, h2)) => o1@ == o2@ && h1@
            == h2@,
        _ => false,
    }
    &&& a.last_route_drop == b.last_route_drop
    &&& a.last_route_recover == b.last_route_recover
}

/// One joined interface: every status field kept, the watchdog field
/// filled from the lookup.
pub open spec fn itf_join_ok(
    o: LoadBalanceStatusInterface,
    s: LoadBalanceStatusInterface,
    wds: Seq<LoadBalanceWatchdog>,
    gname: Seq<char>,
) -> bool {
    &&& o.interface == s.interface
    &&& o.reachable == s.reachable
    &&& o.status == s.status
    &&& o.gateway == s.gateway
    &&& o.route_table == s.route_table
    &&& o.weight_percent == s.weight_percent
    &&& o.fo_priority == s.fo_priority
    &&& o.flows == s.flows
    &&& match wd_lookup(wds, gname, s.interface@) {
        Some(w) => match o.watchdog {
            Some(x) => wd_iface_eq(x, w),
            None => false,
        },
        None => o.watchdog is None,
    }
}

/// One joined group: name and globals kept, every interface joined.
pub open spec fn group_join_ok(
    o: LoadBalanceStatus,
    s: LoadBalanceStatus,
    wds: Seq<LoadBalanceWatchdog>,
) -> bool {
    &&& o.name == s.name
    &&& o.balance_local == s.balance_local
    &&& o.lock_local_dns == s.lock_local_dns
    &&& o.conntrack_flush == s.conntrack_flush
    &&& o.sticky_bits == s.sticky_bits
    &&& o.interfaces@.len() == s.interfaces@.len()
    &&& forall|j: int|
        0 <= j < s.interfaces@.len() ==> itf_join_ok(
            #[trigger] o.interfaces@[j],
            s.interfaces@[j],
            wds,
            s.name@,
        )
}

/// Finds the watchdog record for a group and interface name.
fn lookup_watchdog<'a>(
    wds: &'a Vec<LoadBalanceWatchdog>,
    gname: &String,
    iname: &String,
) -> (r: Option<&'a LoadBalanceWatchdogInterface>)
    ensures
        match r {
            Some(w) => wd_lookup(wds@, gname@, iname@) == Some(*w),
            None => wd_lookup(wds@, gname@, iname@) is None,
        },
{
    proof {
        assert(wds@.skip(0) =~= wds@);
    }
    lookup_watchdog_from(wds, gname, iname, 0)
}

fn lookup_watchdog_from<'a>(
    wds: &'a Vec<LoadBalanceWatchdog>,
    gname: &String,
    iname: &String,
    from: usize,
) -> (r: Option<&'a LoadBalanceWatchdogInterface>)
    requires
        from <= wds@.len(),
    ensures
        match r {
            Some(w) => wd_lookup(wds@.skip(from as int), gname@, iname@) == Some(*w),
            None => wd_lookup(wds@.skip(from as int), gname@, iname@) is None,
        },
    decreases wds@.len() - from,
{
    if from == wds.len() {
        assert(wds@.skip(from as int) =~= Seq::<LoadBalanceWatchdog>::empty());
        return None;
    }
    proof {
        assert(wds@.skip(from as int)[0] == wds@[from as int]);
        assert(wds@.skip(from as int).skip(1) =~= wds@.skip(from as int + 1));
    }
    if wds[from].name == *gname {
        proof {
            assert(wds@[from as int].interfaces@.skip(0) =~= wds@[from as int].interfaces@);
        }
        lookup_iface_from(&wds[from].interfaces, iname, 0)
    } else {
        lookup_watchdog_from(wds, gname, iname, from + 1)
    }
}

fn lookup_iface_from<'a>(
    ws: &'a Vec<LoadBalanceWatchdogInterface>,
    iname: &String,
    from: usize,
) -> (r: Option<&'a LoadBalanceWatchdogInterface>)
    requires
        from <= ws@.len(),
    ensures
        match r {
            Some(w) => wd_iface_lookup(ws@.skip(from as int), iname@) == Some(*w),
            None => wd_iface_lookup(ws@.skip(from as int), iname@) is None,
        },
    decreases ws@.len() - from,
{
    if from == ws.len() {
        assert(ws@.skip(from as int) =~= Seq::<LoadBalanceWatchdogInterface>::empty());
        return None;
    }
    proof {
        assert(ws@.skip(from as int)[0] == ws@[from as int]);
        assert(ws@.skip(from as int).skip(1) =~= ws@.skip(from as int + 1));
    }
    if ws[from].interface == *iname {
        Some(&ws[from])
    } else {
        lookup_iface_from(ws, iname, from + 1)
    }
}

/// An owned copy of a watchdog record, carrying the same reading.
fn copy_wd_iface(w: &LoadBalanceWatchdogInterface) -> (r: LoadBalanceWatchdogInterface)
    ensures
        wd_iface_eq(r, *w),
{
    LoadBalanceWatchdogInterface {
        interface: w.interface.clone(),
        status: match &w.status {
            LoadBalanceWatchdogStatus::Okay => LoadBalanceWatchdogStatus::Okay,
            LoadBalanceWatchdogStatus::Running => LoadBalanceWatchdogStatus::Running,
            LoadBalanceWatchdogStatus::WaitOnRecovery(m, n) =>
                LoadBalanceWatchdogStatus::WaitOnRecovery(*m, *n),
            LoadBalanceWatchdogStatus::Unknown(t) => LoadBalanceWatchdogStatus::Unknown(t.clone()),
        },
        failover_only_mode: w.failover_only_mode,
        pings: w.pings,
        fails: w.fails,
        run_fails: w.run_fails,
        run_fails_limit: w.run_fails_limit,
        route_drops: w.route_drops,
        ping: match &w.ping {
            LoadBalancePing::Reachable(h) => LoadBalancePing::Reachable(h.clone()),
            LoadBalancePing::Down(h) => LoadBalancePing::Down(h.clone()),
            LoadBalancePing::Unknown(o, h) => LoadBalancePing::Unknown(o.clone(), h.clone()),
        },
        last_route_drop: w.last_route_drop,
        last_route_recover: w.last_route_recover,
    }
}

/// Joins the watchdog records onto the status records by group and
/// interface name. An interface with no watchdog match carries none; the
/// join never fails.
#[verifier::loop_isolation(false)]
pub fn join_watchdogs(
    statuses: Vec<LoadBalanceStatus>,
    watchdogs: &Vec<LoadBalanceWatchdog>,
) -> (r: Vec<LoadBalanceStatus>)
    ensures
        r@.len() == statuses@.len(),
        forall|k: int|
            0 <= k < r@.len() ==> group_join_ok(#[trigger] r@[k], statuses@[k], watchdogs@),
{
    let ghost whole = statuses@;
    let mut src = statuses;
    let mut out: Vec<LoadBalanceStatus> = Vec::new();
    let ghost k: int = 0;
    while src.len() > 0
        invariant
            0 <= k <= whole.len(),
            src@ == whole.skip(k),
            out@.len() == k,
            forall|j: int|
                0 <= j < k ==> group_join_ok(#[trigger] out@[j], whole[j], watchdogs@),
        decreases src@.len(),
    {
        let g = src.remove(0);
        proof {
            assert(g == whole[k]);
            assert(src@ =~= whole.skip(k + 1));
        }
        let ghost gsrc = g;
        let name = g.name;
        let mut itfs = g.interfaces;
        let ghost iwhole = itfs@;
        let mut joined: Vec<LoadBalanceStatusInterface> = Vec::new();
        let ghost jk: int = 0;
        while itfs.len() > 0
            invariant
                0 <= jk <= iwhole.len(),
                itfs@ == iwhole.skip(jk),
                joined@.len() == jk,
                name@ == gsrc.name@,
                forall|j: int|
                    0 <= j < jk ==> itf_join_ok(
                        #[trigger] joined@[j],
                        iwhole[j],
                        watchdogs@,
                        gsrc.name@,
                    ),
            decreases itfs@.len(),
        {
            let itf = itfs.remove(0);
            proof {
                assert(itf == iwhole[jk]);
                assert(itfs@ =~= iwhole.skip(jk + 1));
            }
            let wd = match lookup_watchdog(watchdogs, &name, &itf.interface) {
                Some(w) => Some(copy_wd_iface(w)),
                None => None,
            };
            joined.push(
                LoadBalanceStatusInterface {
                    interface: itf.interface,
                    reachable: itf.reachable,
                    status: itf.status,
                    gateway: itf.gateway,
                    route_table: itf.route_table,
                    weight_percent: itf.weight_percent,
                    fo_priority: itf.fo_priority,
                    flows: itf.flows,
                    watchdog: wd,
                },
            );
            proof {
                jk = jk + 1;
            }
        }
        proof {
            assert(iwhole.skip(jk) =~= Seq::<LoadBalanceStatusInterface>::empty());
        }
        out.push(
            LoadBalanceStatus {
                name,
                balance_local: g.balance_local,
                lock_local_dns: g.lock_local_dns,
                conntrack_flush: g.conntrack_flush,
                sticky_bits: g.sticky_bits,
                interfaces: joined,
            },
        );
        proof {
            k = k + 1;
        }
    }
    proof {
        assert(whole.skip(k) =~= Seq::<LoadBalanceStatus>::empty());
    }
    out
}

} // verus!
