use edgerouter_exporter::load_balance::{
    join_watchdogs, FlowSize, LoadBalancePing, LoadBalanceStatus, LoadBalanceStatusInterface,
    LoadBalanceStatusParser, LoadBalanceStatusStatus, LoadBalanceWatchdog,
    LoadBalanceWatchdogInterface, LoadBalanceWatchdogParser, LoadBalanceWatchdogStatus,
};
use edgerouter_exporter::quantity::ScaledQuantity;
use edgerouter_exporter::timestamp::Timestamp;

fn flows(v: &[(&str, u64)]) -> Vec<(String, FlowSize)> {
    v.iter()
        .map(|(n, x)| (n.to_string(), FlowSize(ScaledQuantity::standalone(*x))))
        .collect()
}

const STATUS_SINGLE: &str = "Group FAILOVER_01\n\
\x20   Balance Local  : false\n\
\x20   Lock Local DNS : false\n\
\x20   Conntrack Flush: false\n\
\x20   Sticky Bits    : 0x00000000\n\
\n\
\x20 interface   : eth0\n\
\x20 reachable   : true\n\
\x20 status      : active\n\
\x20 gateway     : \n\
\x20 route table : 1\n\
\x20 weight      : 100%\n\
\x20 fo_priority : 60\n\
\x20 flows\n\
\x20     WAN Out   : 2000\n\
\x20     WAN In    : 2100\n\
\x20     Local ICMP: 1000\n\
\x20     Local DNS : 0\n\
\x20     Local Data: 0\n\
\n\
\x20 interface   : eth1\n\
\x20 reachable   : false\n\
\x20 status      : inactive\n\
\x20 gateway     : \n\
\x20 route table : 2\n\
\x20 weight      : 0%\n\
\x20 fo_priority : 60\n\
\x20 flows\n\
\x20     WAN Out   : 3000\n\
\x20     WAN In    : 3100\n\
\x20     Local ICMP: 1000\n\
\x20     Local DNS : 0\n\
\x20     Local Data: 0\n\
\n";

const WATCHDOG_SINGLE: &str = "Group FAILOVER_01\n\
\x20 eth0\n\
\x20 status: OK\n\
\x20 failover-only mode\n\
\x20 pings: 1000\n\
\x20 fails: 1\n\
\x20 run fails: 0/3\n\
\x20 route drops: 0\n\
\x20 ping gateway: ping.ubnt.com - REACHABLE\n\
\n\
\x20 eth1\n\
\x20 status: Waiting on recovery (0/3)\n\
\x20 pings: 1000\n\
\x20 fails: 10\n\
\x20 run fails: 3/3\n\
\x20 route drops: 1\n\
\x20 ping gateway: ping.ubnt.com - DOWN\n\
\x20 last route drop   : Mon Jan  2 15:04:05 2006\n\
\x20 last route recover: Mon Jan  2 15:04:00 2006\n\
\n";

fn eth0_status() -> LoadBalanceStatusInterface {
    LoadBalanceStatusInterface {
        interface: "eth0".to_string(),
        reachable: true,
        status: LoadBalanceStatusStatus::Active,
        gateway: None,
        route_table: 1,
        weight_percent: 100,
        fo_priority: 60,
        flows: flows(&[
            ("WAN Out", 2000),
            ("WAN In", 2100),
            ("Local ICMP", 1000),
            ("Local DNS", 0),
            ("Local Data", 0),
        ]),
        watchdog: None,
    }
}

fn eth1_status() -> LoadBalanceStatusInterface {
    LoadBalanceStatusInterface {
        interface: "eth1".to_string(),
        reachable: false,
        status: LoadBalanceStatusStatus::Inactive,
        gateway: None,
        route_table: 2,
        weight_percent: 0,
        fo_priority: 60,
        flows: flows(&[
            ("WAN Out", 3000),
            ("WAN In", 3100),
            ("Local ICMP", 1000),
            ("Local DNS", 0),
            ("Local Data", 0),
        ]),
        watchdog: None,
    }
}

fn eth0_watchdog() -> LoadBalanceWatchdogInterface {
    LoadBalanceWatchdogInterface {
        interface: "eth0".to_string(),
        status: LoadBalanceWatchdogStatus::Okay,
        failover_only_mode: true,
        pings: 1000,
        fails: 1,
        run_fails: 0,
        run_fails_limit: 3,
        route_drops: 0,
        ping: LoadBalancePing::Reachable("ping.ubnt.com".to_string()),
        last_route_drop: None,
        last_route_recover: None,
    }
}

fn eth1_watchdog() -> LoadBalanceWatchdogInterface {
    LoadBalanceWatchdogInterface {
        interface: "eth1".to_string(),
        status: LoadBalanceWatchdogStatus::WaitOnRecovery(0, 3),
        failover_only_mode: false,
        pings: 1000,
        fails: 10,
        run_fails: 3,
        run_fails_limit: 3,
        route_drops: 1,
        ping: LoadBalancePing::Down("ping.ubnt.com".to_string()),
        last_route_drop: Some(Timestamp {
            year: 2006,
            month: 1,
            day: 2,
            hour: 15,
            minute: 4,
            second: 5,
        }),
        last_route_recover: Some(Timestamp {
            year: 2006,
            month: 1,
            day: 2,
            hour: 15,
            minute: 4,
            second: 0,
        }),
    }
}

#[test]
fn load_balance_empty() {
    let parser = LoadBalanceStatusParser;
    assert!(parser.parse("").is_err());

    let parser = LoadBalanceWatchdogParser;
    assert!(parser.parse("").is_err());
}

#[test]
fn load_balance_no_config() {
    let parser = LoadBalanceStatusParser;
    let actual = parser.parse("load-balance is not configured").unwrap();
    assert_eq!(actual, vec![]);

    let parser = LoadBalanceWatchdogParser;
    let actual = parser.parse("load-balance is not configured").unwrap();
    assert_eq!(actual, vec![]);
}

#[test]
fn no_interfaces() {
    let parser = LoadBalanceStatusParser;
    let input = "Group FAILOVER_01\n\
\x20   Balance Local  : false\n\
\x20   Lock Local DNS : false\n\
\x20   Conntrack Flush: false\n\
\x20   Sticky Bits    : 0x00000000\n\
\n";

    let actual = parser.parse(input).unwrap();
    assert_eq!(
        actual,
        vec![LoadBalanceStatus {
            name: "FAILOVER_01".to_string(),
            balance_local: false,
            lock_local_dns: false,
            conntrack_flush: false,
            sticky_bits: 0,
            interfaces: vec![],
        }]
    );

    let parser = LoadBalanceWatchdogParser;
    let actual = parser.parse("Group FAILOVER_01").unwrap();
    assert_eq!(
        actual,
        vec![LoadBalanceWatchdog {
            name: "FAILOVER_01".to_string(),
            interfaces: vec![],
        }]
    );
}

#[test]
fn single_group() {
    let parser = LoadBalanceStatusParser;
    let actual = parser.parse(STATUS_SINGLE).unwrap();
    assert_eq!(
        actual,
        vec![LoadBalanceStatus {
            name: "FAILOVER_01".to_string(),
            balance_local: false,
            lock_local_dns: false,
            conntrack_flush: false,
            sticky_bits: 0,
            interfaces: vec![eth0_status(), eth1_status()],
        }]
    );

    let parser = LoadBalanceWatchdogParser;
    let actual = parser.parse(WATCHDOG_SINGLE).unwrap();
    assert_eq!(
        actual,
        vec![LoadBalanceWatchdog {
            name: "FAILOVER_01".to_string(),
            interfaces: vec![eth0_watchdog(), eth1_watchdog()],
        }]
    );
}

#[test]
fn multiple_groups() {
    let parser = LoadBalanceStatusParser;
    let input = format!(
        "{STATUS_SINGLE}\
         Group FAILOVER_02\n\
\x20   Balance Local  : true\n\
\x20   Lock Local DNS : true\n\
\x20   Conntrack Flush: true\n\
\x20   Sticky Bits    : 0x000000ff\n\
\n\
\x20 interface   : eth2\n\
\x20 reachable   : true\n\
\x20 status      : failover\n\
\x20 gateway     : \n\
\x20 route table : 3\n\
\x20 weight      : 0%\n\
\x20 fo_priority : 60\n\
\x20 flows\n\
\x20     WAN Out   : 2000\n\
\x20     WAN In    : 2100\n\
\x20     Local ICMP: 1000\n\
\x20     Local DNS : 0\n\
\x20     Local Data: 0\n\
\n"
    );

    let actual = parser.parse(&input).unwrap();
    assert_eq!(actual.len(), 2);
    assert_eq!(actual[0].name, "FAILOVER_01");
    assert_eq!(actual[0].interfaces.len(), 2);
    assert_eq!(actual[1].name, "FAILOVER_02");
    assert_eq!(actual[1].balance_local, true);
    assert_eq!(actual[1].sticky_bits, 0xff);
    assert_eq!(actual[1].interfaces.len(), 1);
    assert_eq!(
        actual[1].interfaces[0].status,
        LoadBalanceStatusStatus::Failover
    );

    let parser = LoadBalanceWatchdogParser;
    let input = format!(
        "{WATCHDOG_SINGLE}\
         Group FAILOVER_02\n\
\x20 eth2\n\
\x20 status: OK\n\
\x20 pings: 1000\n\
\x20 fails: 0\n\
\x20 run fails: 0/3\n\
\x20 route drops: 0\n\
\x20 ping gateway: ping.ubnt.com - REACHABLE\n\
\n"
    );

    let actual = parser.parse(&input).unwrap();
    assert_eq!(actual.len(), 2);
    assert_eq!(actual[0].interfaces, vec![eth0_watchdog(), eth1_watchdog()]);
    assert_eq!(actual[1].name, "FAILOVER_02");
    assert_eq!(actual[1].interfaces.len(), 1);
    assert_eq!(
        actual[1].interfaces[0].status,
        LoadBalanceWatchdogStatus::Okay
    );
}

#[test]
fn watchdog_joins_by_group_and_interface() {
    let statuses = LoadBalanceStatusParser.parse(STATUS_SINGLE).unwrap();
    let watchdogs = LoadBalanceWatchdogParser.parse(WATCHDOG_SINGLE).unwrap();

    let joined = join_watchdogs(statuses, &watchdogs);
    assert_eq!(joined.len(), 1);
    assert_eq!(joined[0].interfaces[0].watchdog, Some(eth0_watchdog()));
    assert_eq!(joined[0].interfaces[1].watchdog, Some(eth1_watchdog()));
}

#[test]
fn missing_watchdog_leaves_none() {
    let statuses = LoadBalanceStatusParser.parse(STATUS_SINGLE).unwrap();
    // a watchdog listing for another group only
    let watchdogs = vec![LoadBalanceWatchdog {
        name: "FAILOVER_02".to_string(),
        interfaces: vec![eth0_watchdog()],
    }];

    let joined = join_watchdogs(statuses, &watchdogs);
    assert_eq!(joined[0].interfaces[0].watchdog, None);
    assert_eq!(joined[0].interfaces[1].watchdog, None);

    // and a matching group with only one of the two interfaces
    let statuses = LoadBalanceStatusParser.parse(STATUS_SINGLE).unwrap();
    let watchdogs = vec![LoadBalanceWatchdog {
        name: "FAILOVER_01".to_string(),
        interfaces: vec![eth1_watchdog()],
    }];
    let joined = join_watchdogs(statuses, &watchdogs);
    assert_eq!(joined[0].interfaces[0].watchdog, None);
    assert_eq!(joined[0].interfaces[1].watchdog, Some(eth1_watchdog()));
}

#[test]
fn malformed_waiting_form_is_kept_as_unknown() {
    // a drifted waiting form must not abort the scrape: the catch-all
    // carries its first token
    let parser = LoadBalanceWatchdogParser;
    let input = "Group G\n\
\x20 eth0\n\
\x20 status: Waiting on recovery (3 of 5)\n\
\x20 pings: 1\n\
\x20 fails: 0\n\
\x20 run fails: 0/3\n\
\x20 route drops: 0\n\
\x20 ping gateway: gw.example.com - REACHABLE\n\
\n";

    let actual = parser.parse(input).unwrap();
    assert_eq!(
        actual[0].interfaces[0].status,
        LoadBalanceWatchdogStatus::Unknown("Waiting".to_string())
    );
}

#[test]
fn repeated_flow_name_is_an_error() {
    let parser = LoadBalanceStatusParser;
    let input = "Group G\n\
\x20   Balance Local  : false\n\
\x20   Lock Local DNS : false\n\
\x20   Conntrack Flush: false\n\
\x20   Sticky Bits    : 0x00000000\n\
\n\
\x20 interface   : eth0\n\
\x20 reachable   : true\n\
\x20 status      : active\n\
\x20 gateway     : \n\
\x20 route table : 1\n\
\x20 weight      : 100%\n\
\x20 fo_priority : 60\n\
\x20 flows\n\
\x20     WAN Out   : 2000\n\
\x20     WAN Out   : 2100\n\
\n";

    assert!(parser.parse(input).is_err());
}

#[test]
fn unknown_states_are_kept() {
    let parser = LoadBalanceStatusParser;
    let input = "Group G\n\
\x20   Balance Local  : false\n\
\x20   Lock Local DNS : false\n\
\x20   Conntrack Flush: false\n\
\x20   Sticky Bits    : 0x00000000\n\
\n\
\x20 interface   : eth0\n\
\x20 reachable   : true\n\
\x20 status      : defrosting\n\
\x20 gateway     : \n\
\x20 route table : 1\n\
\x20 weight      : 100%\n\
\x20 fo_priority : 60\n\
\x20 flows\n\
\n";

    let actual = parser.parse(input).unwrap();
    assert_eq!(
        actual[0].interfaces[0].status,
        LoadBalanceStatusStatus::Unknown("defrosting".to_string())
    );
}
