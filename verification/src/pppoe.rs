//! The PPPoE client session table.
//!
//! The report is either the "no sessions" sentinel or a fixed header
//! followed by one row per session and a trailing total. A row's remote
//! address is not reliably separated from the counter after it: when the
//! interface stands in the address inventory with a known peer address,
//! the row takes exactly that many characters for the address, closing the
//! ambiguity; otherwise it falls back to whitespace splitting.

use vstd::prelude::*;
use crate::ParseError;
use crate::addr::{is_ipv4_literal, is_ipv6_literal, IpAddress};
use crate::blocks::skip_blank_lines;
use crate::duration::{duration_secs, parse_duration_chars, Duration};
use crate::fields::{kv_line, kv_value, trim_end_spec};
use crate::interface::Interface;
use crate::num::dec_value;
use crate::quantity::{quantity_parts, parse_scaled_chars, ScaledQuantity};
use crate::text::{
    all_digits,
    is_blank,
    line_split,
    nonspace_run,
    space_run,
    split_lines,
    str_chars,
    tokens_from,
};

verus! {

/// A transmit or receive packet counter, as printed.
#[derive(Clone, Copy, Debug, PartialEq, Eq, Structural)]
pub struct PacketSize(pub ScaledQuantity);

/// A transmit or receive byte counter, as printed.
#[derive(Clone, Copy, Debug, PartialEq, Eq, Structural)]
pub struct ByteSize(pub ScaledQuantity);

impl PacketSize {
    /// The counter's exact integer value; see `ScaledQuantity::to_u64`.
    pub fn to_u64(&self) -> (r: Result<u64, ParseError>)
        requires
            self.0.wf(),
        ensures
            match r {
                Ok(v) => self.0.prefix.rank() <= crate::quantity::MAX_SUPPORTED_RANK
                    && self.0.spec_value() == v as int,
                Err(e) => e == ParseError::QuantityOverflow && (self.0.prefix.rank()
                    > crate::quantity::MAX_SUPPORTED_RANK || self.0.spec_value() > u64::MAX),
            },
    {
        self.0.to_u64()
    }
}

impl ByteSize {
    /// The counter's exact integer value; see `ScaledQuantity::to_u64`.
    pub fn to_u64(&self) -> (r: Result<u64, ParseError>)
        requires
            self.0.wf(),
        ensures
            match r {
                Ok(v) => self.0.prefix.rank() <= crate::quantity::MAX_SUPPORTED_RANK
                    && self.0.spec_value() == v as int,
                Err(e) => e == ParseError::QuantityOverflow && (self.0.prefix.rank()
                    > crate::quantity::MAX_SUPPORTED_RANK || self.0.spec_value() > u64::MAX),
            },
    {
        self.0.to_u64()
    }
}

/// One active PPPoE client session.
#[derive(Clone, Debug, PartialEq, Eq)]
pub struct PPPoEClientSession {
    pub user: String,
    pub time: Duration,
    pub protocol: String,
    pub interface: String,
    pub remote_ip: IpAddress,
    pub local_ip: Option<IpAddress>,
    pub transmit_packets: PacketSize,
    pub transmit_bytes: ByteSize,
    pub receive_packets: PacketSize,
    pub receive_bytes: ByteSize,
}

/// What one row said, at the specification level.
pub struct SessionView {
    pub user: Seq<char>,
    pub secs: int,
    pub protocol: Seq<char>,
    pub interface: Seq<char>,
    pub remote: Seq<char>,
    pub local: Option<IpAddress>,
    pub tx_packets: ScaledQuantity,
    pub tx_bytes: ScaledQuantity,
    pub rx_packets: ScaledQuantity,
    pub rx_bytes: ScaledQuantity,
}

/// The quantity a magnitude token denotes, with its parts in range.
pub open spec fn quantity_of_token(t: Seq<char>) -> Option<ScaledQuantity> {
    match quantity_parts(t) {
        Some(parts) => if dec_value(parts.0) <= u64::MAX {
            Some(
                ScaledQuantity {
                    whole: dec_value(parts.0) as u64,
                    frac: dec_value(parts.1) as u64,
                    frac_scale: parts.1.len() as u32,
                    prefix: parts.2,
                },
            )
        } else {
            None
        },
        None => None,
    }
}

/// The first inventory entry with this interface name.
pub open spec fn find_interface(inv: Seq<Interface>, name: Seq<char>) -> Option<Interface>
    decreases inv.len(),
{
    if inv.len() == 0 {
        None
    } else if inv[0].ifname@ == name {
        Some(inv[0])
    } else {
        find_interface(inv.skip(1), name)
    }
}

/// How the remote-address field is cut out of the row at position `p`:
/// with a known peer-address text, exactly its length, provided those
/// characters read as an address literal; otherwise, and as the fallback,
/// the whitespace-delimited token, which must read as a literal and must
/// not end the line.
pub open spec fn remote_split(line: Seq<char>, p: int, known: Option<Seq<char>>) -> Option<
    (Seq<char>, int),
> {
    let e = p + nonspace_run(line.skip(p));
    let tok = line.subrange(p, e);
    let fall: Option<(Seq<char>, int)> = if e > p && e < line.len() && (is_ipv4_literal(tok)
        || is_ipv6_literal(tok)) {
        Some((tok, e))
    } else {
        None
    };
    match known {
        Some(a) => {
            let cand = line.subrange(p, p + a.len());
            if p + a.len() <= line.len() && (is_ipv4_literal(cand) || is_ipv6_literal(cand)) {
                Some((cand, p + a.len()))
            } else {
                fall
            }
        },
        None => fall,
    }
}

/// What the inventory knows of the interface: its first local address and
/// the text of its first peer address.
pub open spec fn inventory_local(inv: Seq<Interface>, name: Seq<char>) -> Option<IpAddress> {
    match find_interface(inv, name) {
        Some(itf) => if itf.addr_info@.len() > 0 {
            Some(itf.addr_info@[0].local)
        } else {
            None
        },
        None => None,
    }
}

pub open spec fn inventory_peer_text(inv: Seq<Interface>, name: Seq<char>) -> Option<Seq<char>> {
    match find_interface(inv, name) {
        Some(itf) => if itf.addr_info@.len() > 0 {
            match itf.addr_info@[0].address {
                Some(a) => Some(a.text@),
                None => None,
            }
        } else {
            None
        },
        None => None,
    }
}

/// What a session row says: four whitespace-delimited fields (user, a
/// duration literal, protocol, interface), the remote address cut out by
/// `remote_split` against the inventory, then exactly four magnitude
/// counters.
#[verifier::opaque]
pub open spec fn session_row_of(line: Seq<char>, inv: Seq<Interface>) -> Option<SessionView> {
    let p0 = space_run(line) as int;
    let e0 = p0 + nonspace_run(line.skip(p0));
    let p1 = e0 + space_run(line.skip(e0));
    let e1 = p1 + nonspace_run(line.skip(p1));
    let p2 = e1 + space_run(line.skip(e1));
    let e2 = p2 + nonspace_run(line.skip(p2));
    let p3 = e2 + space_run(line.skip(e2));
    let e3 = p3 + nonspace_run(line.skip(p3));
    let p4 = e3 + space_run(line.skip(e3));
    if e0 == p0 || e1 == p1 || e2 == p2 || e3 == p3 {
        None
    } else {
        let user = line.subrange(p0, e0);
        let dur = line.subrange(p1, e1);
        let proto = line.subrange(p2, e2);
        let iface = line.subrange(p3, e3);
        match duration_secs(dur) {
            Some(secs) => if secs > u64::MAX {
                None
            } else {
                match remote_split(line, p4, inventory_peer_text(inv, iface)) {
                    Some((remote, next)) => {
                        let counters = tokens_from(line, next);
                        if counters.len() == 4 && quantity_of_token(counters[0]) is Some
                            && quantity_of_token(counters[1]) is Some && quantity_of_token(
                            counters[2],
                        ) is Some && quantity_of_token(counters[3]) is Some {
                            Some(
                                SessionView {
                                    user,
                                    secs,
                                    protocol: proto,
                                    interface: iface,
                                    remote,
                                    local: inventory_local(inv, iface),
                                    tx_packets: quantity_of_token(counters[0]).unwrap(),
                                    tx_bytes: quantity_of_token(counters[1]).unwrap(),
                                    rx_packets: quantity_of_token(counters[2]).unwrap(),
                                    rx_bytes: quantity_of_token(counters[3]).unwrap(),
                                },
                            )
                        } else {
                            None
                        }
                    },
                    None => None,
                }
            },
            None => None,
        }
    }
}

/// The record carries exactly what the row view says.
pub open spec fn session_matches(s: PPPoEClientSession, v: SessionView) -> bool {
    &&& s.user@ == v.user
    &&& s.time.secs as int == v.secs
    &&& s.protocol@ == v.protocol
    &&& s.interface@ == v.interface
    &&& s.remote_ip.text@ == v.remote
    &&& s.remote_ip.wf()
    &&& match (s.local_ip, v.local) {
        (Some(a), Some(b)) => a.text@ == b.text@ && a.v6 == b.v6,
        (None, None) => true,
        _ => false,
    }
    &&& s.transmit_packets.0 == v.tx_packets
    &&& s.transmit_bytes.0 == v.tx_bytes
    &&& s.receive_packets.0 == v.rx_packets
    &&& s.receive_bytes.0 == v.rx_bytes
    &&& s.transmit_packets.0.wf() && s.transmit_bytes.0.wf() && s.receive_packets.0.wf()
        && s.receive_bytes.0.wf()
}

/// The column-header tokens of the session table.
pub open spec fn session_header_tokens() -> Seq<Seq<char>> {
    seq![
        "User"@,
        "Time"@,
        "Proto"@,
        "Iface"@,
        "Remote"@,
        "IP"@,
        "TX"@,
        "pkt/byte"@,
        "RX"@,
        "pkt/byte"@,
    ]
}

/// A separator line of dashes and blanks only, not all blanks.
pub open spec fn is_dash_line(line: Seq<char>) -> bool {
    !is_blank(line) && forall|j: int|
        0 <= j < line.len() ==> (#[trigger] line[j]) == '-' || line[j] == ' '
}

/// The consecutive session rows from `i` on, ended by the first blank
/// line or the end; an unreadable row fails the scan.
pub open spec fn session_rows(ls: Seq<Seq<char>>, i: int, inv: Seq<Interface>) -> Option<
    (Seq<SessionView>, int),
>
    decreases ls.len() - i,
{
    if i < 0 || i >= ls.len() || is_blank(ls[i]) {
        Some((seq![], i))
    } else {
        match session_row_of(ls[i], inv) {
            Some(v) => match session_rows(ls, i + 1, inv) {
                Some(r) => Some((seq![v] + r.0, r.1)),
                None => None,
            },
            None => None,
        }
    }
}

/// Whether the report is the "no sessions" sentinel.
pub open spec fn pppoe_not_configured(ls: Seq<Seq<char>>) -> bool {
    let sent = "No active PPPoE client sessions"@;
    ls.len() > 0 && ls[0].len() >= sent.len() && ls[0].take(sent.len() as int) == sent
}

/// What the whole report says when it is not the sentinel: the title, the
/// column header, the dash line, the rows, and a decimal total, in that
/// order with blank lines between the parts.
#[verifier::opaque]
pub open spec fn pppoe_sessions_of(s: Seq<char>, inv: Seq<Interface>) -> Option<Seq<SessionView>> {
    let ls = line_split(s);
    let t0 = skip_blank_lines(ls, 0);
    if t0 >= ls.len() || trim_end_spec(ls[t0]) != "Active PPPoE client sessions:"@ {
        None
    } else {
        let t1 = skip_blank_lines(ls, t0 + 1);
        if t1 >= ls.len() || crate::text::line_tokens(ls[t1]) != session_header_tokens() {
            None
        } else {
            let t2 = skip_blank_lines(ls, t1 + 1);
            if t2 >= ls.len() || !is_dash_line(ls[t2]) {
                None
            } else {
                match session_rows(ls, t2 + 1, inv) {
                    Some(r) => {
                        let tt = skip_blank_lines(ls, r.1);
                        if tt >= ls.len() {
                            None
                        } else {
                            match kv_line(ls[tt], "Total sessions"@) {
                                Some(v) => {
                                    let w = trim_end_spec(v);
                                    if w.len() > 0 && all_digits(w) && dec_value(w) <= u64::MAX {
                                        Some(r.0)
                                    } else {
                                        None
                                    }
                                },
                                None => None,
                            }
                        }
                    },
                    None => None,
                }
            }
        }
    }
}

/// Splitting by the known peer-address length and splitting by
/// whitespace agree on well-separated input: when the whitespace token at
/// `p` is exactly the known address text and does not end the line, both
/// strategies cut the same remote address at the same place, so the rows
/// read identically.
pub proof fn lemma_remote_split_agrees(line: Seq<char>, p: int, a: Seq<char>)
    requires
        0 <= p <= line.len(),
        ({
            let e = p + nonspace_run(line.skip(p));
            let tok = line.subrange(p, e);
            tok == a && e < line.len() && e > p && (is_ipv4_literal(tok) || is_ipv6_literal(tok))
        }),
    ensures
        remote_split(line, p, Some(a)) == remote_split(line, p, None),
{
    let e = p + nonspace_run(line.skip(p));
    let tok = line.subrange(p, e);
    assert(a.len() == e - p);
    assert(line.subrange(p, p + a.len()) == tok);
}

/// The first inventory entry with this name, computed.
fn find_interface_idx(inv: &Vec<Interface>, name: &Vec<char>) -> (r: Option<usize>)
    ensures
        match r {
            Some(k) => k < inv@.len() && find_interface(inv@, name@) == Some(inv@[k as int]),
            None => find_interface(inv@, name@) is None,
        },
    decreases inv@.len(),
{
    proof {
        assert(inv@.skip(0) =~= inv@);
    }
    find_interface_idx_from(inv, name, 0)
}

fn find_interface_idx_from(inv: &Vec<Interface>, name: &Vec<char>, from: usize) -> (r: Option<
    usize,
>)
    requires
        from <= inv@.len(),
    ensures
        match r {
            Some(k) => from <= k < inv@.len() && find_interface(inv@.skip(from as int), name@)
                == Some(inv@[k as int]),
            None => find_interface(inv@.skip(from as int), name@) is None,
        },
    decreases inv@.len() - from,
{
    if from == inv.len() {
        assert(inv@.skip(from as int) =~= Seq::<Interface>::empty());
        return None;
    }
    proof {
        assert(inv@.skip(from as int)[0] == inv@[from as int]);
    }
    let itf = &inv[from];
    if crate::text::chars_eq_str(name, itf.ifname.as_str()) {
        Some(from)
    } else {
        let r = find_interface_idx_from(inv, name, from + 1);
        proof {
            assert(inv@.skip(from as int).skip(1) =~= inv@.skip(from as int + 1));
        }
        r
    }
}

/// Reads one session row against the inventory.
/// The token spans of a row's first four fields and the position after.
struct FieldSpans {
    p0: usize,
    e0: usize,
    p1: usize,
    e1: usize,
    p2: usize,
    e2: usize,
    p3: usize,
    e3: usize,
    p4: usize,
}

impl FieldSpans {
    /// The spans are the leading four whitespace-delimited tokens.
    spec fn wf(self, line: Seq<char>) -> bool {
        &&& self.p0 == space_run(line)
        &&& self.e0 == self.p0 + nonspace_run(line.skip(self.p0 as int))
        &&& self.p1 == self.e0 + space_run(line.skip(self.e0 as int))
        &&& self.e1 == self.p1 + nonspace_run(line.skip(self.p1 as int))
        &&& self.p2 == self.e1 + space_run(line.skip(self.e1 as int))
        &&& self.e2 == self.p2 + nonspace_run(line.skip(self.p2 as int))
        &&& self.p3 == self.e2 + space_run(line.skip(self.e2 as int))
        &&& self.e3 == self.p3 + nonspace_run(line.skip(self.p3 as int))
        &&& self.p4 == self.e3 + space_run(line.skip(self.e3 as int))
        &&& self.p0 <= self.e0 <= self.p1 <= self.e1 <= self.p2 <= self.e2 <= self.p3 <= self.e3
            <= self.p4 <= line.len()
    }

    /// Whether all four fields are non-empty.
    spec fn complete(self) -> bool {
        self.p0 < self.e0 && self.p1 < self.e1 && self.p2 < self.e2 && self.p3 < self.e3
    }
}

/// Scans the four leading fields of a row.
fn scan_fields(line: &Vec<char>) -> (r: FieldSpans)
    ensures
        r.wf(line@),
{
    proof {
        assert(line@.skip(0) =~= line@);
    }
    let p0 = crate::text::skip_spaces(line, 0);
    let e0 = crate::text::token_end(line, p0);
    let p1 = crate::text::skip_spaces(line, e0);
    let e1 = crate::text::token_end(line, p1);
    let p2 = crate::text::skip_spaces(line, e1);
    let e2 = crate::text::token_end(line, p2);
    let p3 = crate::text::skip_spaces(line, e2);
    let e3 = crate::text::token_end(line, p3);
    let p4 = crate::text::skip_spaces(line, e3);
    FieldSpans { p0, e0, p1, e1, p2, e2, p3, e3, p4 }
}

/// What the inventory knows of the named interface, as owned values: the
/// first entry's local address and the peer address's text length.
fn inventory_lookup(inv: &Vec<Interface>, name: &Vec<char>) -> (r: (
    Option<IpAddress>,
    Option<usize>,
))
    ensures
        match (r.0, inventory_local(inv@, name@)) {
            (Some(a), Some(b)) => a.text@ == b.text@ && a.v6 == b.v6,
            (None, None) => true,
            _ => false,
        },
        match (r.1, inventory_peer_text(inv@, name@)) {
            (Some(n), Some(t)) => n == t.len(),
            (None, None) => true,
            _ => false,
        },
{
    match find_interface_idx(inv, name) {
        Some(k) => {
            let itf = &inv[k];
            if itf.addr_info.len() > 0 {
                let local = Some(itf.addr_info[0].local.duplicate());
                let known = match &itf.addr_info[0].address {
                    Some(a) => Some(a.text.unicode_len()),
                    None => None,
                };
                (local, known)
            } else {
                (None, None)
            }
        },
        None => (None, None),
    }
}

/// Cuts the remote-address field out, as `remote_split` directs.
fn resolve_remote(
    line: &Vec<char>,
    p4: usize,
    known: Option<usize>,
    Ghost(ktext): Ghost<Option<Seq<char>>>,
) -> (r: Option<(Vec<char>, usize)>)
    requires
        p4 <= line@.len(),
        match (known, ktext) {
            (Some(n), Some(t)) => n == t.len(),
            (None, None) => true,
            _ => false,
        },
    ensures
        match (r, remote_split(line@, p4 as int, ktext)) {
            (Some((v, next)), Some(w)) => v@ == w.0 && next as int == w.1 && next <= line@.len()
                && (is_ipv4_literal(v@) || is_ipv6_literal(v@)),
            (None, None) => true,
            _ => false,
        },
{
    match known {
        Some(klen) => {
            if klen <= line.len() - p4 {
                let cand = crate::text::copy_range(line, p4, p4 + klen);
                if crate::addr::ipv4_chars(&cand) || crate::addr::ipv6_chars(&cand) {
                    Some((cand, p4 + klen))
                } else {
                    fallback_remote(line, p4)
                }
            } else {
                fallback_remote(line, p4)
            }
        },
        None => fallback_remote(line, p4),
    }
}

/// Reads the four trailing magnitude counters.
fn read_counters(line: &Vec<char>, next: usize) -> (r: Result<
    (ScaledQuantity, ScaledQuantity, ScaledQuantity, ScaledQuantity),
    ParseError,
>)
    requires
        next <= line@.len(),
    ensures
        ({
            let counters = tokens_from(line@, next as int);
            match r {
                Ok((a, b, c, d)) => counters.len() == 4 && Some(a) == quantity_of_token(
                    counters[0],
                ) && Some(b) == quantity_of_token(counters[1]) && Some(c) == quantity_of_token(
                    counters[2],
                ) && Some(d) == quantity_of_token(counters[3]) && a.wf() && b.wf() && c.wf()
                    && d.wf(),
                Err(_) => !(counters.len() == 4 && quantity_of_token(counters[0]) is Some
                    && quantity_of_token(counters[1]) is Some && quantity_of_token(
                    counters[2],
                ) is Some && quantity_of_token(counters[3]) is Some),
            }
        }),
{
    let counters = crate::text::tokenize_from(line, next);
    let ghost cs = tokens_from(line@, next as int);
    if counters.len() != 4 {
        return Err(ParseError::MalformedHeader);
    }
    proof {
        assert(counters@[0]@ == cs[0]);
        assert(counters@[1]@ == cs[1]);
        assert(counters@[2]@ == cs[2]);
        assert(counters@[3]@ == cs[3]);
    }
    let a = match parse_scaled_chars(&counters[0]) {
        Ok(q) => q,
        Err(e) => {
            return Err(e);
        },
    };
    let b = match parse_scaled_chars(&counters[1]) {
        Ok(q) => q,
        Err(e) => {
            return Err(e);
        },
    };
    let c = match parse_scaled_chars(&counters[2]) {
        Ok(q) => q,
        Err(e) => {
            return Err(e);
        },
    };
    let d = match parse_scaled_chars(&counters[3]) {
        Ok(q) => q,
        Err(e) => {
            return Err(e);
        },
    };
    Ok((a, b, c, d))
}

/// Reads one session row against the inventory.
#[verifier::rlimit(50)]
pub fn parse_session_row(line: &Vec<char>, inv: &Vec<Interface>) -> (r: Result<
    PPPoEClientSession,
    ParseError,
>)
    ensures
        match r {
            Ok(s) => match session_row_of(line@, inv@) {
                Some(v) => session_matches(s, v),
                None => false,
            },
            Err(_) => session_row_of(line@, inv@) is None,
        },
{
    proof {
        reveal(session_row_of);
    }
    let f = scan_fields(line);
    if f.e0 == f.p0 || f.e1 == f.p1 || f.e2 == f.p2 || f.e3 == f.p3 {
        return Err(ParseError::MalformedHeader);
    }
    let dur = crate::text::copy_range(line, f.p1, f.e1);
    let time = match parse_duration_chars(&dur) {
        Ok(d) => d,
        Err(_) => {
            return Err(ParseError::UnrecognizedDurationFormat);
        },
    };
    let iface = crate::text::copy_range(line, f.p3, f.e3);
    let (local_ip, known) = inventory_lookup(inv, &iface);
    let ghost ktext = inventory_peer_text(inv@, iface@);
    let (remote_vec, next) = match resolve_remote(line, f.p4, known, Ghost(ktext)) {
        Some(t) => t,
        None => {
            return Err(ParseError::AmbiguousColumnUnresolved);
        },
    };
    let remote_ip = match IpAddress::parse_chars(&remote_vec) {
        Some(a) => a,
        None => {
            proof {
                assert(false);
            }
            return Err(ParseError::AmbiguousColumnUnresolved);
        },
    };
    let (tx_packets, tx_bytes, rx_packets, rx_bytes) = match read_counters(line, next) {
        Ok(t) => t,
        Err(e) => {
            return Err(e);
        },
    };
    Ok(
        PPPoEClientSession {
            user: crate::text::extract(line, f.p0, f.e0),
            time,
            protocol: crate::text::extract(line, f.p2, f.e2),
            interface: crate::text::extract(line, f.p3, f.e3),
            remote_ip,
            local_ip,
            transmit_packets: PacketSize(tx_packets),
            transmit_bytes: ByteSize(tx_bytes),
            receive_packets: PacketSize(rx_packets),
            receive_bytes: ByteSize(rx_bytes),
        },
    )
}


/// The whitespace-delimited remote token, when it reads as a literal and
/// does not end the line.
fn fallback_remote(line: &Vec<char>, p4: usize) -> (r: Option<(Vec<char>, usize)>)
    requires
        p4 <= line@.len(),
    ensures
        ({
            let e = p4 + nonspace_run(line@.skip(p4 as int));
            let tok = line@.subrange(p4 as int, e as int);
            match r {
                Some((v, next)) => next == e && e > p4 && e < line@.len() && v@ == tok && (
                is_ipv4_literal(tok) || is_ipv6_literal(tok)),
                None => !(e > p4 && e < line@.len() && (is_ipv4_literal(tok) || is_ipv6_literal(
                    tok,
                ))),
            }
        }),
{
    let e = crate::text::token_end(line, p4);
    if e == p4 || e == line.len() {
        return None;
    }
    let tok = crate::text::copy_range(line, p4, e);
    if crate::addr::ipv4_chars(&tok) || crate::addr::ipv6_chars(&tok) {
        Some((tok, e))
    } else {
        None
    }
}

/// A parser for the PPPoE session table. The address inventory must be
/// parsed first and handed in: the remote-address column depends on it.
#[derive(Clone, Copy, Debug, PartialEq, Eq, Structural)]
pub struct PPPoEParser;

impl PPPoEParser {
    /// Parses the report: the sentinel gives the empty listing; otherwise
    /// exactly the rows of the table, against the inventory.
    #[verifier::loop_isolation(false)]
    pub fn parse(&self, input: &str, interfaces: &Vec<Interface>) -> (r: Result<
        Vec<PPPoEClientSession>,
        ParseError,
    >)
        ensures
            ({
                let ls = line_split(input@);
                match r {
                    Ok(list) => if pppoe_not_configured(ls) {
                        list@.len() == 0
                    } else {
                        match pppoe_sessions_of(input@, interfaces@) {
                            Some(views) => list@.len() == views.len() && forall|k: int|
                                0 <= k < views.len() ==> session_matches(
                                    #[trigger] list@[k],
                                    views[k],
                                ),
                            None => false,
                        }
                    },
                    Err(_) => !pppoe_not_configured(ls) && pppoe_sessions_of(
                        input@,
                        interfaces@,
                    ) is None,
                }
            }),
    {
        proof {
            reveal(pppoe_sessions_of);
        }
        let chars = str_chars(input);
        let lines = split_lines(&chars);
        let ghost ls = lines.deep_view();
        if lines.len() > 0 {
            let sent = "No active PPPoE client sessions";
            let n = sent.unicode_len();
            proof {
                assert(lines@[0]@ == ls[0]);
            }
            if lines[0].len() >= n && crate::text::range_eq_str(&lines[0], 0, n, sent) {
                proof {
                    assert(ls[0].take(n as int) =~= lines@[0]@.subrange(0, n as int));
                }
                return Ok(Vec::new());
            }
            proof {
                if ls[0].len() >= n {
                    assert(ls[0].take(n as int) =~= lines@[0]@.subrange(0, n as int));
                }
            }
        }
        let t0 = crate::blocks::find_nonblank(&lines, 0);
        if t0 == lines.len() {
            return Err(ParseError::MalformedHeader);
        }
        proof {
            assert(lines@[t0 as int]@ == ls[t0 as int]);
        }
        let te = crate::fields::trim_end(&lines[t0]);
        if !crate::text::range_eq_str(&lines[t0], 0, te, "Active PPPoE client sessions:") {
            return Err(ParseError::MalformedHeader);
        }
        let t1 = crate::blocks::find_nonblank(&lines, t0 + 1);
        if t1 == lines.len() {
            return Err(ParseError::MalformedHeader);
        }
        proof {
            assert(lines@[t1 as int]@ == ls[t1 as int]);
        }
        if !header_line_ok(&lines[t1]) {
            return Err(ParseError::MalformedHeader);
        }
        let t2 = crate::blocks::find_nonblank(&lines, t1 + 1);
        if t2 == lines.len() {
            return Err(ParseError::MalformedHeader);
        }
        proof {
            assert(lines@[t2 as int]@ == ls[t2 as int]);
        }
        if !dash_line_ok(&lines[t2]) {
            return Err(ParseError::MalformedHeader);
        }
        // the rows
        let mut out: Vec<PPPoEClientSession> = Vec::new();
        let mut i = t2 + 1;
        while row_pending(&lines, i)
            invariant
                t2 + 1 <= i <= lines@.len(),
                match session_rows(ls, i as int, interfaces@) {
                    Some(rr) => match session_rows(ls, t2 + 1, interfaces@) {
                        Some(whole) => whole.1 == rr.1 && whole.0.len() == out@.len() + rr.0.len()
                            && (forall|k: int|
                            0 <= k < out@.len() ==> session_matches(
                                #[trigger] out@[k],
                                whole.0[k],
                            )) && (forall|k: int|
                            0 <= k < rr.0.len() ==> whole.0[out@.len() + k] == #[trigger] rr.0[k]),
                        None => false,
                    },
                    None => session_rows(ls, t2 + 1, interfaces@) is None,
                },
            decreases lines@.len() - i,
        {
            proof {
                assert(lines@[i as int]@ == ls[i as int]);
            }
            match parse_session_row(&lines[i], interfaces) {
                Ok(s) => {
                    let ghost v = session_row_of(ls[i as int], interfaces@).unwrap();
                    let ghost old_out = out@;
                    out.push(s);
                    proof {
                        match session_rows(ls, i as int + 1, interfaces@) {
                            Some(nr) => {
                                assert(session_rows(ls, i as int, interfaces@) == Some(
                                    (seq![v] + nr.0, nr.1),
                                ));
                                match session_rows(ls, t2 + 1, interfaces@) {
                                    Some(whole) => {
                                        assert(whole.0[old_out.len() as int] == (seq![v] + nr.0)[0]);
                                        assert forall|k: int|
                                            0 <= k < out@.len() implies session_matches(
                                            #[trigger] out@[k],
                                            whole.0[k],
                                        ) by {
                                            if k < old_out.len() {
                                                assert(session_matches(old_out[k], whole.0[k]));
                                            } else {
                                                assert(out@[k] == s);
                                            }
                                        }
                                        assert forall|k: int|
                                            0 <= k < nr.0.len() implies whole.0[out@.len() + k]
                                            == #[trigger] nr.0[k] by {
                                            assert(whole.0[old_out.len() + (k + 1)] == (seq![v]
                                                + nr.0)[k + 1]);
                                        }
                                    },
                                    None => {
                                        assert(false);
                                    },
                                }
                            },
                            None => {},
                        }
                    }
                },
                Err(e) => {
                    return Err(e);
                },
            }
            i += 1;
        }
        proof {
            if i < lines@.len() {
                assert(lines@[i as int]@ == ls[i as int]);
            }
            assert(session_rows(ls, i as int, interfaces@) == Some(
                (Seq::<SessionView>::empty(), i as int),
            ));
        }
        let tt = crate::blocks::find_nonblank(&lines, i);
        if tt == lines.len() {
            return Err(ParseError::MalformedHeader);
        }
        proof {
            assert(lines@[tt as int]@ == ls[tt as int]);
        }
        match kv_value(&lines[tt], "Total sessions") {
            Some(v) => {
                let we = crate::fields::trim_end(&v);
                match crate::num::parse_u64_range(&v, 0, we) {
                    Some(_) => Ok(out),
                    None => Err(ParseError::MalformedHeader),
                }
            },
            None => Err(ParseError::MalformedHeader),
        }
    }
}

/// Whether a session row stands at line `i`: in range and not blank.
pub fn row_pending(lines: &Vec<Vec<char>>, i: usize) -> (r: bool)
    requires
        i <= lines@.len(),
    ensures
        r == (i < lines@.len() && !is_blank(lines.deep_view()[i as int])),
{
    if i == lines.len() {
        return false;
    }
    proof {
        assert(lines@[i as int]@ == lines.deep_view()[i as int]);
    }
    !crate::fields::line_blank(&lines[i])
}

/// Whether the line's tokens are the session table's column header.
fn header_line_ok(line: &Vec<char>) -> (r: bool)
    ensures
        r == (crate::text::line_tokens(line@) == session_header_tokens()),
{
    let toks = crate::text::tokenize(line);
    let ghost tv = crate::text::line_tokens(line@);
    if toks.len() != 10 {
        proof {
            assert(tv.len() != session_header_tokens().len());
        }
        return false;
    }
    proof {
        assert forall|k: int| 0 <= k < 10 implies toks@[k]@ == tv[k] by {}
    }
    let ok = crate::text::chars_eq_str(&toks[0], "User") && crate::text::chars_eq_str(
        &toks[1],
        "Time",
    ) && crate::text::chars_eq_str(&toks[2], "Proto") && crate::text::chars_eq_str(
        &toks[3],
        "Iface",
    ) && crate::text::chars_eq_str(&toks[4], "Remote") && crate::text::chars_eq_str(&toks[5], "IP")
        && crate::text::chars_eq_str(&toks[6], "TX") && crate::text::chars_eq_str(
        &toks[7],
        "pkt/byte",
    ) && crate::text::chars_eq_str(&toks[8], "RX") && crate::text::chars_eq_str(
        &toks[9],
        "pkt/byte",
    );
    proof {
        if ok {
            assert(tv =~~= session_header_tokens());
        } else {
            assert(tv != session_header_tokens());
        }
    }
    ok
}

/// Whether the line is the dash separator.
fn dash_line_ok(line: &Vec<char>) -> (r: bool)
    ensures
        r == is_dash_line(line@),
{
    if crate::fields::line_blank(line) {
        return false;
    }
    let mut j: usize = 0;
    while j < line.len()
        invariant
            j <= line@.len(),
            forall|k: int| 0 <= k < j ==> (#[trigger] line@[k]) == '-' || line@[k] == ' ',
        decreases line@.len() - j,
    {
        if line[j] != '-' && line[j] != ' ' {
            return false;
        }
        j += 1;
    }
    true
}

} // verus!
