use edgerouter_exporter::ddns::DdnsUpdateStatus;
use edgerouter_exporter::ipsec::{ipsec_status_value, ChildSAState, SAState};
use edgerouter_exporter::load_balance::{
    LoadBalancePing, LoadBalanceStatusStatus, LoadBalanceWatchdogInterface,
    LoadBalanceWatchdogStatus,
};
use edgerouter_exporter::metrics::{
    ddns_status_value, lb_status_value, wd_health_value, wd_ping_value,
    LoadBalanceHealthLabelBuilder,
};

#[test]
fn status_gauge_values() {
    assert_eq!(lb_status_value(&LoadBalanceStatusStatus::Inactive), 0);
    assert_eq!(lb_status_value(&LoadBalanceStatusStatus::Active), 1);
    assert_eq!(lb_status_value(&LoadBalanceStatusStatus::Failover), 2);
    assert_eq!(
        lb_status_value(&LoadBalanceStatusStatus::Unknown("x".to_string())),
        0
    );
}

#[test]
fn health_gauge_values() {
    assert_eq!(wd_health_value(&LoadBalanceWatchdogStatus::Okay), 1);
    assert_eq!(wd_health_value(&LoadBalanceWatchdogStatus::Running), 1);
    assert_eq!(
        wd_health_value(&LoadBalanceWatchdogStatus::WaitOnRecovery(0, 3)),
        0
    );
    assert_eq!(
        wd_health_value(&LoadBalanceWatchdogStatus::Unknown("x".to_string())),
        0
    );
}

#[test]
fn ping_gauge_values() {
    let mut w = LoadBalanceWatchdogInterface {
        interface: "eth0".to_string(),
        status: LoadBalanceWatchdogStatus::Okay,
        failover_only_mode: false,
        pings: 7,
        fails: 1,
        run_fails: 0,
        run_fails_limit: 3,
        route_drops: 0,
        ping: LoadBalancePing::Reachable("gw.example.com".to_string()),
        last_route_drop: None,
        last_route_recover: None,
    };
    assert_eq!(wd_ping_value(&w), (1, "gw.example.com".to_string()));
    w.ping = LoadBalancePing::Down("gw.example.com".to_string());
    assert_eq!(wd_ping_value(&w), (0, "gw.example.com".to_string()));
    w.ping = LoadBalancePing::Unknown("ODD".to_string(), "gw.example.com".to_string());
    assert_eq!(wd_ping_value(&w), (0, "gw.example.com".to_string()));
}

#[test]
fn ddns_gauge_values() {
    assert_eq!(ddns_status_value(&Some(DdnsUpdateStatus::Good)), 1);
    assert_eq!(ddns_status_value(&Some(DdnsUpdateStatus::NoChange)), 1);
    assert_eq!(ddns_status_value(&Some(DdnsUpdateStatus::NoError)), 1);
    assert_eq!(ddns_status_value(&Some(DdnsUpdateStatus::BadAuth)), 0);
    assert_eq!(ddns_status_value(&None), 0);
}

#[test]
fn ipsec_gauge_values() {
    assert_eq!(
        ipsec_status_value(SAState::Established, Some(ChildSAState::Installed)),
        0
    );
    assert_eq!(
        ipsec_status_value(SAState::Established, Some(ChildSAState::Rekeying)),
        0
    );
    assert_eq!(
        ipsec_status_value(SAState::Established, Some(ChildSAState::Created)),
        1
    );
    assert_eq!(
        ipsec_status_value(SAState::Connecting, Some(ChildSAState::Installed)),
        2
    );
    assert_eq!(ipsec_status_value(SAState::Unknown, Some(ChildSAState::Installed)), 3);
    assert_eq!(ipsec_status_value(SAState::Established, None), 3);
}

#[test]
fn label_builders() {
    let label = LoadBalanceHealthLabelBuilder::new("eth0".to_string()).group("G1".to_string());
    assert_eq!(label.group_name, "G1");
    assert_eq!(label.interface_name, "eth0");

    let flow = label.clone().flow("WAN Out".to_string());
    assert_eq!(flow.flow, "WAN Out");
    assert_eq!(flow.group_name, "G1");

    let ping = label.ping("gw".to_string());
    assert_eq!(ping.gateway, "gw");
    assert_eq!(ping.interface_name, "eth0");
}
