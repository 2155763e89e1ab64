//! Label sets and gauge values derived from the parsed records.
//!
//! The exposition layer turns these into labeled gauges; everything it
//! needs from a record — which labels, which value — is computed here.

use vstd::prelude::*;
use crate::bgp::BGPNeighbor;
use crate::ddns::{DdnsStatus, DdnsUpdateStatus};
use crate::load_balance::{
    LoadBalancePing,
    LoadBalanceStatusStatus,
    LoadBalanceWatchdogInterface,
    LoadBalanceWatchdogStatus,
};
use crate::pppoe::PPPoEClientSession;
use crate::version::Version;

verus! {

/// The labels of one BGP neighbor's gauges.
#[derive(Clone, Debug, PartialEq, Eq)]
pub struct BGPNeighborLabel {
    pub neighbor: String,
    pub remote_as: u32,
    pub table_version: u32,
}

impl BGPNeighborLabel {
    /// The labels a neighbor row carries.
    pub fn from_neighbor(n: &BGPNeighbor) -> (r: BGPNeighborLabel)
        ensures
            r.neighbor@ == n.neighbor.text@,
            r.remote_as == n.remote_as,
            r.table_version == n.table_version,
    {
        BGPNeighborLabel {
            neighbor: n.neighbor.text.clone(),
            remote_as: n.remote_as,
            table_version: n.table_version,
        }
    }
}

/// The labels of one dynamic-DNS status gauge.
#[derive(Clone, Debug, PartialEq, Eq)]
pub struct DdnsStatusLabel {
    pub interface_name: String,
    pub ip_address: String,
    pub hostname: String,
}

impl DdnsStatusLabel {
    /// The labels a status record carries; absent fields label as empty.
    pub fn from_status(s: &DdnsStatus) -> (r: DdnsStatusLabel)
        ensures
            r.interface_name@ == s.interface@,
            match s.ip_address {
                Some(a) => r.ip_address@ == a.text@,
                None => r.ip_address@.len() == 0,
            },
            match s.host_name {
                Some(h) => r.hostname@ == h@,
                None => r.hostname@.len() == 0,
            },
    {
        DdnsStatusLabel {
            interface_name: s.interface.clone(),
            ip_address: match &s.ip_address {
                Some(a) => a.text.clone(),
                None => String::new(),
            },
            hostname: match &s.host_name {
                Some(h) => h.clone(),
                None => String::new(),
            },
        }
    }
}

/// The label of one IPsec tunnel's gauges.
#[derive(Clone, Debug, PartialEq, Eq)]
pub struct IPsecTunnelLabel {
    pub tunnel: String,
}

impl IPsecTunnelLabel {
    /// The tunnel name of an association: its first child's name, or
    /// empty with no child.
    pub fn from_sa(sa: &crate::ipsec::SA) -> (r: IPsecTunnelLabel)
        ensures
            sa.child_sas@.len() == 0 ==> r.tunnel@.len() == 0,
            sa.child_sas@.len() > 0 ==> r.tunnel@ == sa.child_sas@[0].1.name@,
    {
        IPsecTunnelLabel {
            tunnel: match sa.first_child() {
                Some(c) => c.name.clone(),
                None => String::new(),
            },
        }
    }
}

/// A partial label set: the interface, before its group is known.
#[derive(Clone, Debug, PartialEq, Eq)]
pub struct LoadBalanceHealthLabelBuilder {
    pub interface_name: String,
}

/// The labels of one load-balanced interface's gauges.
#[derive(Clone, Debug, PartialEq, Eq)]
pub struct LoadBalanceHealthLabel {
    pub group_name: String,
    pub interface_name: String,
}

/// The labels of one flow counter.
#[derive(Clone, Debug, PartialEq, Eq)]
pub struct LoadBalanceFlowLabel {
    pub group_name: String,
    pub interface_name: String,
    pub flow: String,
}

/// The labels of one ping gauge.
#[derive(Clone, Debug, PartialEq, Eq)]
pub struct LoadBalancePingLabel {
    pub group_name: String,
    pub interface_name: String,
    pub gateway: String,
}

impl LoadBalanceHealthLabelBuilder {
    pub fn new(interface_name: String) -> (r: LoadBalanceHealthLabelBuilder)
        ensures
            r.interface_name@ == interface_name@,
    {
        LoadBalanceHealthLabelBuilder { interface_name }
    }

    pub fn group(self, group_name: String) -> (r: LoadBalanceHealthLabel)
        ensures
            r.group_name@ == group_name@,
            r.interface_name@ == self.interface_name@,
    {
        let interface_name = self.interface_name;
        LoadBalanceHealthLabel { group_name, interface_name }
    }
}

impl LoadBalanceHealthLabel {
    pub fn flow(self, flow: String) -> (r: LoadBalanceFlowLabel)
        ensures
            r.group_name@ == self.group_name@,
            r.interface_name@ == self.interface_name@,
            r.flow@ == flow@,
    {
        let group_name = self.group_name;
        let interface_name = self.interface_name;
        LoadBalanceFlowLabel { group_name, interface_name, flow }
    }

    pub fn ping(self, gateway: String) -> (r: LoadBalancePingLabel)
        ensures
            r.group_name@ == self.group_name@,
            r.interface_name@ == self.interface_name@,
            r.gateway@ == gateway@,
    {
        let group_name = self.group_name;
        let interface_name = self.interface_name;
        LoadBalancePingLabel { group_name, interface_name, gateway }
    }
}

/// The labels of one PPPoE session's gauges.
#[derive(Clone, Debug, PartialEq, Eq)]
pub struct PPPoEClientSessionLabel {
    pub user: String,
    pub protocol: String,
    pub interface_name: String,
    pub ip_address: String,
    pub local_ip_address: String,
}

impl PPPoEClientSessionLabel {
    /// The labels a session carries; an unknown local address labels as
    /// empty.
    pub fn from_session(s: &PPPoEClientSession) -> (r: PPPoEClientSessionLabel)
        ensures
            r.user@ == s.user@,
            r.protocol@ == s.protocol@,
            r.interface_name@ == s.interface@,
            r.ip_address@ == s.remote_ip.text@,
            match s.local_ip {
                Some(a) => r.local_ip_address@ == a.text@,
                None => r.local_ip_address@.len() == 0,
            },
    {
        PPPoEClientSessionLabel {
            user: s.user.clone(),
            protocol: s.protocol.clone(),
            interface_name: s.interface.clone(),
            ip_address: s.remote_ip.text.clone(),
            local_ip_address: match &s.local_ip {
                Some(a) => a.text.clone(),
                None => String::new(),
            },
        }
    }
}

/// The labels of the version gauge.
#[derive(Clone, Debug, PartialEq, Eq)]
pub struct VersionLabel {
    pub version: String,
    pub build_id: String,
    pub model: String,
}

impl VersionLabel {
    pub fn from_version(v: &Version) -> (r: VersionLabel)
        ensures
            r.version@ == v.version@,
            r.build_id@ == v.build_id@,
            r.model@ == v.hw_model@,
    {
        VersionLabel {
            version: v.version.clone(),
            build_id: v.build_id.clone(),
            model: v.hw_model.clone(),
        }
    }
}

// --- gauge values ---

/// The status gauge of a balancing state: inactive and unknown states
/// count as zero, active as one, failover as two.
pub fn lb_status_value(st: &LoadBalanceStatusStatus) -> (r: i64)
    ensures
        r == (match st {
            LoadBalanceStatusStatus::Active => 1int,
            LoadBalanceStatusStatus::Failover => 2int,
            _ => 0int,
        }),
{
    match st {
        LoadBalanceStatusStatus::Active => 1,
        LoadBalanceStatusStatus::Failover => 2,
        _ => 0,
    }
}

/// The health gauge of a watchdog state: healthy exactly when the
/// watchdog reports it settled or running.
pub fn wd_health_value(st: &LoadBalanceWatchdogStatus) -> (r: i64)
    ensures
        r == (match st {
            LoadBalanceWatchdogStatus::Okay | LoadBalanceWatchdogStatus::Running => 1int,
            _ => 0int,
        }),
{
    match st {
        LoadBalanceWatchdogStatus::Okay | LoadBalanceWatchdogStatus::Running => 1,
        _ => 0,
    }
}

/// The ping gauge and gateway of a watchdog record: reachable counts as
/// one; a down or unrecognized outcome counts as zero.
pub fn wd_ping_value(w: &LoadBalanceWatchdogInterface) -> (r: (i64, String))
    ensures
        match w.ping {
            LoadBalancePing::Reachable(g) => r.0 == 1int && r.1@ == g@,
            LoadBalancePing::Down(g) => r.0 == 0int && r.1@ == g@,
            LoadBalancePing::Unknown(_, g) => r.0 == 0int && r.1@ == g@,
        },
{
    match &w.ping {
        LoadBalancePing::Reachable(g) => (1, g.clone()),
        LoadBalancePing::Down(g) => (0, g.clone()),
        LoadBalancePing::Unknown(_, g) => (0, g.clone()),
    }
}

/// The update-status gauge: one exactly for a successful or unchanged
/// update, zero for anything else including no report.
pub fn ddns_status_value(s: &Option<DdnsUpdateStatus>) -> (r: i64)
    ensures
        r == (match s {
            Some(DdnsUpdateStatus::Good) | Some(DdnsUpdateStatus::NoChange) | Some(
                DdnsUpdateStatus::NoError,
            ) => 1int,
            _ => 0int,
        }),
{
    match s {
        Some(DdnsUpdateStatus::Good) | Some(DdnsUpdateStatus::NoChange) | Some(
            DdnsUpdateStatus::NoError,
        ) => 1,
        _ => 0,
    }
}

} // verus!
