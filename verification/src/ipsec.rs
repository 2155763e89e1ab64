//! IPsec security associations, as reported by the key daemon.
//!
//! These records arrive over the daemon's control socket, already typed;
//! no text parsing happens here. The crate holds the fields the metrics
//! read and the state classification.

use vstd::prelude::*;

verus! {

/// The state of a security association.
#[derive(Clone, Copy, Debug, PartialEq, Eq, Structural)]
pub enum SAState {
    Created,
    Connecting,
    Established,
    Passive,
    Rekeying,
    Rekeyed,
    Deleting,
    Destroying,
    /// A state outside the table.
    Unknown,
}

/// The state of a child security association.
#[derive(Clone, Copy, Debug, PartialEq, Eq, Structural)]
pub enum ChildSAState {
    Created,
    Routed,
    Installing,
    Installed,
    Updating,
    Rekeying,
    Rekeyed,
    Retrying,
    Deleting,
    Destroying,
    /// A state outside the table.
    Unknown,
}

/// A child security association: the tunnel and its counters.
#[derive(Clone, Debug, PartialEq, Eq)]
pub struct ChildSA {
    pub name: String,
    pub uniqueid: u32,
    pub reqid: u32,
    pub state: ChildSAState,
    pub mode: String,
    pub protocol: Option<String>,
    pub bytes_in: Option<u64>,
    pub packets_in: Option<u64>,
    pub bytes_out: Option<u64>,
    pub packets_out: Option<u64>,
    pub local_ts: Vec<String>,
    pub remote_ts: Vec<String>,
}

/// A security association with its children, in reported order.
#[derive(Clone, Debug, PartialEq, Eq)]
pub struct SA {
    pub uniqueid: u32,
    pub version: String,
    pub state: SAState,
    pub local_host: String,
    pub local_port: u32,
    pub local_id: String,
    pub remote_host: String,
    pub remote_port: u32,
    pub remote_id: String,
    pub established: Option<u64>,
    pub rekey_time: Option<u64>,
    pub child_sas: Vec<(String, ChildSA)>,
}

/// The gauge value of a tunnel's state: up and installed, up but the
/// child not installed, down, or unknown to the table.
pub open spec fn spec_ipsec_status(sa: SAState, child: Option<ChildSAState>) -> int {
    if sa == SAState::Unknown || child is None || child == Some(ChildSAState::Unknown) {
        3
    } else if sa == SAState::Established && (child == Some(ChildSAState::Installed) || child
        == Some(ChildSAState::Rekeying) || child == Some(ChildSAState::Rekeyed)) {
        0
    } else if sa == SAState::Established {
        1
    } else {
        2
    }
}

/// The gauge value of a tunnel's state, computed.
pub fn ipsec_status_value(sa: SAState, child: Option<ChildSAState>) -> (r: i64)
    ensures
        r as int == spec_ipsec_status(sa, child),
{
    match (sa, child) {
        (SAState::Unknown, _) => 3,
        (_, None) => 3,
        (_, Some(ChildSAState::Unknown)) => 3,
        (SAState::Established, Some(ChildSAState::Installed)) => 0,
        (SAState::Established, Some(ChildSAState::Rekeying)) => 0,
        (SAState::Established, Some(ChildSAState::Rekeyed)) => 0,
        (SAState::Established, Some(_)) => 1,
        _ => 2,
    }
}

impl SA {
    /// The first child association, which names the tunnel.
    pub fn first_child(&self) -> (r: Option<&ChildSA>)
        ensures
            match r {
                Some(c) => self.child_sas@.len() > 0 && *c == self.child_sas@[0].1,
                None => self.child_sas@.len() == 0,
            },
    {
        if self.child_sas.len() > 0 {
            Some(&self.child_sas[0].1)
        } else {
            None
        }
    }
}

} // verus!
