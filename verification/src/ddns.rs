//! The dynamic-DNS status report: per-interface key/value blocks.
//!
//! The report is either the "not configured" sentinel or blocks separated
//! by blank lines. Within a block the key lines come in any order; the
//! interface key is mandatory, the rest are optional, and unrecognized
//! lines (such as the bracketed diagnostic) are ignored. Provider status
//! codes map case-insensitively onto a fixed table, with a catch-all for
//! codes the table does not know.

use vstd::prelude::*;
use crate::ParseError;
use crate::addr::{is_ipv4_literal, is_ipv6_literal, IpAddress};
use crate::blocks::{seg_chain, segment_lines};
use crate::fields::{block_kv, block_kv_value, trim_end, trim_end_spec};
use crate::text::{line_split, nonspace_run, split_lines, str_chars, token_end};
use crate::timestamp::{datetime_of, parse_datetime_chars, Timestamp};

verus! {

/// The outcome code of the last update, as the provider reported it.
#[derive(Clone, Debug, PartialEq, Eq)]
pub enum DdnsUpdateStatus {
    Abuse,
    BadAgent,
    BadAuth,
    BadSystemParameter,
    Blocked,
    DNSError,
    Failed,
    Good,
    Illegal,
    NoAccess,
    NoChange,
    NoConnect,
    NoError,
    NoFQDN,
    NoHost,
    NoService,
    NotActive,
    NotDonator,
    NotDynamicHost,
    NotYours,
    NumHost,
    TooSoon,
    Unauthenticated,
    /// A code outside the table, kept as printed.
    Unknown(String),
}

/// One interface's dynamic-DNS status block.
#[derive(Clone, Debug, PartialEq, Eq)]
pub struct DdnsStatus {
    pub interface: String,
    pub ip_address: Option<IpAddress>,
    pub host_name: Option<String>,
    pub last_update: Option<Timestamp>,
    pub update_status: Option<DdnsUpdateStatus>,
}

/// The format string of the `last update` timestamp.
pub open spec fn status_time_format() -> Seq<char> {
    "%a %b %e %H:%M:%S %Y"@
}

/// An upper-case letter lowered, anything else unchanged.
pub open spec fn lower_char(c: char) -> char {
    if 'A' <= c && c <= 'Z' {
        ((c as u8) + 32) as char
    } else {
        c
    }
}

pub open spec fn spec_lower(s: Seq<char>) -> Seq<char> {
    s.map_values(|c: char| lower_char(c))
}

/// The status code a lowered token names, if the table knows it.
pub open spec fn known_code_of(lw: Seq<char>) -> Option<DdnsUpdateStatus> {
    if lw == "abuse"@ {
        Some(DdnsUpdateStatus::Abuse)
    } else if lw == "badagent"@ {
        Some(DdnsUpdateStatus::BadAgent)
    } else if lw == "badauth"@ {
        Some(DdnsUpdateStatus::BadAuth)
    } else if lw == "badsys"@ {
        Some(DdnsUpdateStatus::BadSystemParameter)
    } else if lw == "blocked"@ {
        Some(DdnsUpdateStatus::Blocked)
    } else if lw == "dnserr"@ {
        Some(DdnsUpdateStatus::DNSError)
    } else if lw == "failed"@ {
        Some(DdnsUpdateStatus::Failed)
    } else if lw == "good"@ {
        Some(DdnsUpdateStatus::Good)
    } else if lw == "illegal"@ {
        Some(DdnsUpdateStatus::Illegal)
    } else if lw == "noaccess"@ {
        Some(DdnsUpdateStatus::NoAccess)
    } else if lw == "nochg"@ || lw == "nochange"@ {
        Some(DdnsUpdateStatus::NoChange)
    } else if lw == "noconnect"@ {
        Some(DdnsUpdateStatus::NoConnect)
    } else if lw == "noerror"@ {
        Some(DdnsUpdateStatus::NoError)
    } else if lw == "nofqdn"@ || lw == "notfqdn"@ {
        Some(DdnsUpdateStatus::NoFQDN)
    } else if lw == "nohost"@ {
        Some(DdnsUpdateStatus::NoHost)
    } else if lw == "noservice"@ {
        Some(DdnsUpdateStatus::NoService)
    } else if lw == "!active"@ {
        Some(DdnsUpdateStatus::NotActive)
    } else if lw == "!donator"@ {
        Some(DdnsUpdateStatus::NotDonator)
    } else if lw == "notdyn"@ {
        Some(DdnsUpdateStatus::NotDynamicHost)
    } else if lw == "!yours"@ {
        Some(DdnsUpdateStatus::NotYours)
    } else if lw == "numhost"@ {
        Some(DdnsUpdateStatus::NumHost)
    } else if lw == "toosoon"@ {
        Some(DdnsUpdateStatus::TooSoon)
    } else if lw == "unauth"@ {
        Some(DdnsUpdateStatus::Unauthenticated)
    } else {
        None
    }
}

/// `c` is the status the token `w` names: the table's code for it, or the
/// catch-all carrying `w` itself.
pub open spec fn ddns_code_matches(c: DdnsUpdateStatus, w: Seq<char>) -> bool {
    match known_code_of(spec_lower(w)) {
        Some(k) => c == k,
        None => match c {
            DdnsUpdateStatus::Unknown(t) => t@ == w,
            _ => false,
        },
    }
}

/// Lowers every character of the token.
fn lower_chars(w: &Vec<char>) -> (r: Vec<char>)
    ensures
        r@ == spec_lower(w@),
{
    let mut r: Vec<char> = Vec::new();
    let mut i: usize = 0;
    while i < w.len()
        invariant
            i <= w@.len(),
            r@ =~= spec_lower(w@).take(i as int),
        decreases w@.len() - i,
    {
        let c = w[i];
        let lc: char = if 'A' <= c && c <= 'Z' {
            ((c as u8) + 32) as char
        } else {
            c
        };
        r.push(lc);
        proof {
            assert(spec_lower(w@)[i as int] == lower_char(c));
            assert(spec_lower(w@).take(i as int + 1) =~= spec_lower(w@).take(i as int).push(
                lower_char(c),
            ));
        }
        i += 1;
    }
    proof {
        assert(spec_lower(w@).take(w@.len() as int) =~= spec_lower(w@));
    }
    r
}

/// Maps a status token onto its code, case-insensitively.
pub fn ddns_code(w: &Vec<char>) -> (c: DdnsUpdateStatus)
    ensures
        ddns_code_matches(c, w@),
{
    let lw = lower_chars(w);
    if crate::text::chars_eq_str(&lw, "abuse") {
        DdnsUpdateStatus::Abuse
    } else if crate::text::chars_eq_str(&lw, "badagent") {
        DdnsUpdateStatus::BadAgent
    } else if crate::text::chars_eq_str(&lw, "badauth") {
        DdnsUpdateStatus::BadAuth
    } else if crate::text::chars_eq_str(&lw, "badsys") {
        DdnsUpdateStatus::BadSystemParameter
    } else if crate::text::chars_eq_str(&lw, "blocked") {
        DdnsUpdateStatus::Blocked
    } else if crate::text::chars_eq_str(&lw, "dnserr") {
        DdnsUpdateStatus::DNSError
    } else if crate::text::chars_eq_str(&lw, "failed") {
        DdnsUpdateStatus::Failed
    } else if crate::text::chars_eq_str(&lw, "good") {
        DdnsUpdateStatus::Good
    } else if crate::text::chars_eq_str(&lw, "illegal") {
        DdnsUpdateStatus::Illegal
    } else if crate::text::chars_eq_str(&lw, "noaccess") {
        DdnsUpdateStatus::NoAccess
    } else if crate::text::chars_eq_str(&lw, "nochg") || crate::text::chars_eq_str(&lw, "nochange")
        {
        DdnsUpdateStatus::NoChange
    } else if crate::text::chars_eq_str(&lw, "noconnect") {
        DdnsUpdateStatus::NoConnect
    } else if crate::text::chars_eq_str(&lw, "noerror") {
        DdnsUpdateStatus::NoError
    } else if crate::text::chars_eq_str(&lw, "nofqdn") || crate::text::chars_eq_str(&lw, "notfqdn")
        {
        DdnsUpdateStatus::NoFQDN
    } else if crate::text::chars_eq_str(&lw, "nohost") {
        DdnsUpdateStatus::NoHost
    } else if crate::text::chars_eq_str(&lw, "noservice") {
        DdnsUpdateStatus::NoService
    } else if crate::text::chars_eq_str(&lw, "!active") {
        DdnsUpdateStatus::NotActive
    } else if crate::text::chars_eq_str(&lw, "!donator") {
        DdnsUpdateStatus::NotDonator
    } else if crate::text::chars_eq_str(&lw, "notdyn") {
        DdnsUpdateStatus::NotDynamicHost
    } else if crate::text::chars_eq_str(&lw, "!yours") {
        DdnsUpdateStatus::NotYours
    } else if crate::text::chars_eq_str(&lw, "numhost") {
        DdnsUpdateStatus::NumHost
    } else if crate::text::chars_eq_str(&lw, "toosoon") {
        DdnsUpdateStatus::TooSoon
    } else if crate::text::chars_eq_str(&lw, "unauth") {
        DdnsUpdateStatus::Unauthenticated
    } else {
        DdnsUpdateStatus::Unknown(crate::text::chars_string(w.as_slice()))
    }
}

/// Whether the report is the "not configured" sentinel.
pub open spec fn ddns_not_configured(ls: Seq<Seq<char>>) -> bool {
    let sent = "Dynamic DNS not configured"@;
    ls.len() > 0 && ls[0].len() >= sent.len() && ls[0].take(sent.len() as int) == sent
}

/// The record `d` reads the block `ls[lo..hi]`: each field is the value
/// of the first line carrying its key, the interface being its first
/// token, and absent optional keys leave their fields empty.
pub open spec fn ddns_block_ok(ls: Seq<Seq<char>>, lo: int, hi: int, d: DdnsStatus) -> bool {
    &&& match block_kv(ls, lo, hi, "interface"@) {
        Some(v) => d.interface@ == v.take(nonspace_run(v) as int),
        None => false,
    }
    &&& match block_kv(ls, lo, hi, "ip address"@) {
        Some(v) => {
            let w = trim_end_spec(v);
            if w.len() == 0 {
                d.ip_address is None
            } else {
                match d.ip_address {
                    Some(a) => a.text@ == w && a.wf(),
                    None => false,
                }
            }
        },
        None => d.ip_address is None,
    }
    &&& match block_kv(ls, lo, hi, "host-name"@) {
        Some(v) => match d.host_name {
            Some(h) => h@ == v,
            None => false,
        },
        None => d.host_name is None,
    }
    &&& match block_kv(ls, lo, hi, "last update"@) {
        Some(v) => {
            let w = trim_end_spec(v);
            if w.len() == 0 {
                d.last_update is None
            } else {
                d.last_update == datetime_of(status_time_format(), w) && d.last_update is Some
            }
        },
        None => d.last_update is None,
    }
    &&& match block_kv(ls, lo, hi, "update-status"@) {
        Some(v) => {
            let w = trim_end_spec(v);
            if w.len() == 0 {
                d.update_status is None
            } else {
                match d.update_status {
                    Some(c) => ddns_code_matches(c, w),
                    None => false,
                }
            }
        },
        None => d.update_status is None,
    }
}

/// What makes the block `ls[lo..hi]` unreadable: no interface key, an
/// address value outside both families, or a timestamp outside its format.
pub open spec fn ddns_block_err(ls: Seq<Seq<char>>, lo: int, hi: int) -> bool {
    ||| block_kv(ls, lo, hi, "interface"@) is None
    ||| match block_kv(ls, lo, hi, "ip address"@) {
        Some(v) => {
            let w = trim_end_spec(v);
            w.len() > 0 && !is_ipv4_literal(w) && !is_ipv6_literal(w)
        },
        None => false,
    }
    ||| match block_kv(ls, lo, hi, "last update"@) {
        Some(v) => {
            let w = trim_end_spec(v);
            w.len() > 0 && datetime_of(status_time_format(), w) is None
        },
        None => false,
    }
}

/// Every segment reads as the corresponding record of the listing.
pub open spec fn ddns_blocks_ok(
    ls: Seq<Seq<char>>,
    segs: Seq<(usize, usize)>,
    list: Seq<DdnsStatus>,
) -> bool {
    &&& list.len() == segs.len()
    &&& forall|k: int|
        0 <= k < segs.len() ==> ddns_block_ok(
            ls,
            (#[trigger] segs[k]).0 as int,
            segs[k].1 as int,
            list[k],
        )
}

/// Some segment is unreadable.
pub open spec fn ddns_some_block_err(ls: Seq<Seq<char>>, segs: Seq<(usize, usize)>) -> bool {
    exists|k: int|
        0 <= k < segs.len() && ddns_block_err(ls, (#[trigger] segs[k]).0 as int, segs[k].1 as int)
}

/// Some chain of segments covers the report and reads as the listing.
pub open spec fn ddns_parse_ok(ls: Seq<Seq<char>>, list: Seq<DdnsStatus>) -> bool {
    exists|segs: Seq<(usize, usize)>|
        #[trigger] seg_chain(ls, segs) && segs.len() > 0 && ddns_blocks_ok(ls, segs, list)
}

/// The report has no block, or one of its blocks is unreadable.
pub open spec fn ddns_parse_err(ls: Seq<Seq<char>>) -> bool {
    exists|segs: Seq<(usize, usize)>|
        #[trigger] seg_chain(ls, segs) && (segs.len() == 0 || ddns_some_block_err(ls, segs))
}

/// Reads one block.
pub fn parse_ddns_block(lines: &Vec<Vec<char>>, lo: usize, hi: usize) -> (r: Result<
    DdnsStatus,
    ParseError,
>)
    requires
        lo <= hi <= lines@.len(),
    ensures
        match r {
            Ok(d) => ddns_block_ok(lines.deep_view(), lo as int, hi as int, d),
            Err(e) => ddns_block_err(lines.deep_view(), lo as int, hi as int) && (e
                == ParseError::MissingRequiredField || e == ParseError::MalformedHeader),
        },
{
    let interface = match block_kv_value(lines, lo, hi, "interface") {
        Some(v) => {
            let e = token_end(&v, 0);
            proof {
                assert(v@.skip(0) =~= v@);
                assert(v@.subrange(0, e as int) =~= v@.take(nonspace_run(v@) as int));
            }
            crate::text::extract(&v, 0, e)
        },
        None => {
            return Err(ParseError::MissingRequiredField);
        },
    };
    let ip_address = match block_kv_value(lines, lo, hi, "ip address") {
        Some(v) => {
            let te = trim_end(&v);
            if te == 0 {
                proof {
                    assert(trim_end_spec(v@).len() == 0);
                }
                None
            } else {
                let w = crate::text::copy_range(&v, 0, te);
                match IpAddress::parse_chars(&w) {
                    Some(a) => Some(a),
                    None => {
                        return Err(ParseError::MalformedHeader);
                    },
                }
            }
        },
        None => None,
    };
    let host_name = match block_kv_value(lines, lo, hi, "host-name") {
        Some(v) => Some(crate::text::chars_string(v.as_slice())),
        None => None,
    };
    let last_update = match block_kv_value(lines, lo, hi, "last update") {
        Some(v) => {
            let te = trim_end(&v);
            if te == 0 {
                proof {
                    assert(trim_end_spec(v@).len() == 0);
                }
                None
            } else {
                let w = crate::text::copy_range(&v, 0, te);
                match parse_datetime_chars(&w, "%a %b %e %H:%M:%S %Y") {
                    Some(ts) => Some(ts),
                    None => {
                        return Err(ParseError::MalformedHeader);
                    },
                }
            }
        },
        None => None,
    };
    let update_status = match block_kv_value(lines, lo, hi, "update-status") {
        Some(v) => {
            let te = trim_end(&v);
            if te == 0 {
                proof {
                    assert(trim_end_spec(v@).len() == 0);
                }
                None
            } else {
                let w = crate::text::copy_range(&v, 0, te);
                Some(ddns_code(&w))
            }
        },
        None => None,
    };
    Ok(DdnsStatus { interface, ip_address, host_name, last_update, update_status })
}

/// A parser for the dynamic-DNS status report.
#[derive(Clone, Copy, Debug, PartialEq, Eq, Structural)]
pub struct DdnsParser;

impl DdnsParser {
    /// Parses the report. The sentinel gives the empty listing; otherwise
    /// every blank-line-separated block must read as a status record, and
    /// a report with no block at all is malformed.
    #[verifier::loop_isolation(false)]
    pub fn parse(&self, input: &str) -> (r: Result<Vec<DdnsStatus>, ParseError>)
        ensures
            ({
                let ls = line_split(input@);
                match r {
                    Ok(list) => if ddns_not_configured(ls) {
                        list@.len() == 0
                    } else {
                        ddns_parse_ok(ls, list@)
                    },
                    Err(_) => !ddns_not_configured(ls) && ddns_parse_err(ls),
                }
            }),
    {
        let chars = str_chars(input);
        let lines = split_lines(&chars);
        let ghost ls = lines.deep_view();
        if lines.len() > 0 {
            let sent = "Dynamic DNS not configured";
            let n = sent.unicode_len();
            proof {
                assert(lines@[0]@ == ls[0]);
            }
            if lines[0].len() >= n && crate::text::range_eq_str(&lines[0], 0, n, sent) {
                proof {
                    assert(ls[0].take(n as int) =~= lines@[0]@.subrange(0, n as int));
                }
                return Ok(Vec::new());
            }
            proof {
                if ls[0].len() >= n {
                    assert(ls[0].take(n as int) =~= lines@[0]@.subrange(0, n as int));
                }
            }
        }
        let segs = segment_lines(&lines);
        if segs.len() == 0 {
            return Err(ParseError::MalformedHeader);
        }
        let mut out: Vec<DdnsStatus> = Vec::new();
        let mut k: usize = 0;
        while k < segs.len()
            invariant
                k <= segs@.len(),
                out@.len() == k,
                seg_chain(ls, segs@),
                ls == lines.deep_view(),
                forall|j: int|
                    0 <= j < k ==> ddns_block_ok(
                        ls,
                        (#[trigger] segs@[j]).0 as int,
                        segs@[j].1 as int,
                        out@[j],
                    ),
            decreases segs@.len() - k,
        {
            let (lo, hi) = (segs[k].0, segs[k].1);
            match parse_ddns_block(&lines, lo, hi) {
                Ok(d) => {
                    out.push(d);
                },
                Err(e) => {
                    return Err(e);
                },
            }
            k += 1;
        }
        Ok(out)
    }
}

} // verus!
