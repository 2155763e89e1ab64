use edgerouter_exporter::addr::IpAddress;
use edgerouter_exporter::bgp::{chain_neighbors, retain_family, BGPNeighbor, BGPParser, BGPStatus};
use edgerouter_exporter::duration::Duration;

fn addr(s: &str) -> IpAddress {
    IpAddress::parse(s).unwrap()
}

fn neighbor(
    ip: &str,
    msg_rcv: u64,
    msg_sen: u64,
    tbl: u32,
    in_q: u64,
    out_q: u64,
    uptime: Option<u64>,
    state: Option<&str>,
    pfx: Option<u64>,
) -> BGPNeighbor {
    BGPNeighbor {
        neighbor: addr(ip),
        version: 4,
        remote_as: 64497,
        messages_received: msg_rcv,
        messages_sent: msg_sen,
        table_version: tbl,
        in_queue: in_q,
        out_queue: out_q,
        uptime: uptime.map(|secs| Duration { secs }),
        state: state.map(|s| s.to_string()),
        prefixes_received: pfx,
    }
}

const TABLE: &str = "Neighbor                 V   AS   MsgRcv    MsgSen TblVer   InQ   OutQ    Up/Down   State/PfxRcd\n\
192.0.2.2                4 64497 1000       5000     128      1      5  01:11:11               9\n\
192.0.2.3                4 64497 2000       6000     128      2      6  1d02h03m              10\n\
192.0.2.4                4 64497    0          0       0      0      0     never     Connect\n\
2001:db8::2              4 64497 3000       7000     128      3      7  03:33:33               0\n\
2001:db8::3              4 64497 4000       8000     128      4      8  4d05h06m               0\n\
2001:db8::ffff:ffff:ffff:ffff4 64497    0          0       0      0      0     never     Connect\n";

fn expected_neighbors() -> Vec<BGPNeighbor> {
    vec![
        neighbor("192.0.2.2", 1000, 5000, 128, 1, 5, Some(4271), None, Some(9)),
        neighbor("192.0.2.3", 2000, 6000, 128, 2, 6, Some(93780), None, Some(10)),
        neighbor("192.0.2.4", 0, 0, 0, 0, 0, None, Some("Connect"), None),
        neighbor("2001:db8::2", 3000, 7000, 128, 3, 7, Some(12813), None, Some(0)),
        neighbor("2001:db8::3", 4000, 8000, 128, 4, 8, Some(363960), None, Some(0)),
        neighbor(
            "2001:db8::ffff:ffff:ffff:ffff",
            0,
            0,
            0,
            0,
            0,
            None,
            Some("Connect"),
            None,
        ),
    ]
}

#[test]
fn invalid() {
    let parser = BGPParser;
    let input = "command not found";

    let actual = parser.parse(input);
    assert!(actual.is_err());
}

#[test]
fn bgp_empty() {
    let parser = BGPParser;
    let input = "";

    let actual = parser.parse(input).unwrap();
    assert_eq!(actual, None);
}

#[test]
fn neighbors_without_maximum_paths() {
    let parser = BGPParser;
    let input = format!(
        "BGP router identifier 192.0.2.1, local AS number 64496\n\
         BGP table version is 128\n\
         1 BGP AS-PATH entries\n\
         2 BGP community entries\n\
         \n\
         {TABLE}\
         \n\
         Total number of neighbors 6\n\
         \n\
         Total number of Established sessions 4\n"
    );

    let actual = parser.parse(&input).unwrap();
    assert_eq!(
        actual,
        Some(BGPStatus {
            router_id: "192.0.2.1".to_string(),
            local_as: 64496,
            table_version: 128,
            as_paths: 1,
            communities: 2,
            ebgp_maximum_paths: None,
            ibgp_maximum_paths: None,
            neighbors: expected_neighbors(),
            sessions: 4,
        })
    );
}

#[test]
fn neighbors_with_maximum_paths() {
    let parser = BGPParser;
    let input = format!(
        "BGP router identifier 192.0.2.1, local AS number 64496\n\
         BGP table version is 128\n\
         1 BGP AS-PATH entries\n\
         2 BGP community entries\n\
         8  Configured ebgp ECMP multipath: Currently set at 8\n\
         4  Configured ibgp ECMP multipath: Currently set at 4\n\
         \n\
         {TABLE}\
         \n\
         Total number of neighbors 6\n\
         \n\
         Total number of Established sessions 4\n"
    );

    let actual = parser.parse(&input).unwrap();
    assert_eq!(
        actual,
        Some(BGPStatus {
            router_id: "192.0.2.1".to_string(),
            local_as: 64496,
            table_version: 128,
            as_paths: 1,
            communities: 2,
            ebgp_maximum_paths: Some(8),
            ibgp_maximum_paths: Some(4),
            neighbors: expected_neighbors(),
            sessions: 4,
        })
    );
}

#[test]
fn iterate_empty() {
    let neighbors = chain_neighbors(None, None);
    assert_eq!(neighbors, vec![]);
}

#[test]
fn iterate_all() {
    let status4 = BGPStatus {
        router_id: "192.0.2.1".to_string(),
        local_as: 64496,
        table_version: 128,
        as_paths: 1,
        communities: 2,
        ebgp_maximum_paths: None,
        ibgp_maximum_paths: None,
        neighbors: vec![
            neighbor("192.0.2.2", 1000, 5000, 128, 1, 5, Some(4271), None, Some(9)),
            neighbor("192.0.2.3", 2000, 6000, 128, 2, 6, Some(93780), None, Some(10)),
            neighbor("192.0.2.4", 0, 0, 0, 0, 0, None, Some("Connect"), None),
        ],
        sessions: 3,
    };
    let status6 = BGPStatus {
        router_id: "192.0.2.1".to_string(),
        local_as: 64496,
        table_version: 128,
        as_paths: 1,
        communities: 2,
        ebgp_maximum_paths: None,
        ibgp_maximum_paths: None,
        neighbors: vec![
            neighbor("2001:db8::2", 3000, 7000, 128, 3, 7, Some(12813), None, Some(0)),
            neighbor("2001:db8::3", 4000, 8000, 128, 4, 8, Some(363960), None, Some(0)),
            neighbor("2001:db8::4", 0, 0, 0, 0, 0, None, Some("Connect"), None),
        ],
        sessions: 4,
    };

    let all = chain_neighbors(Some(status4), Some(status6));
    assert_eq!(
        all,
        vec![
            neighbor("192.0.2.2", 1000, 5000, 128, 1, 5, Some(4271), None, Some(9)),
            neighbor("192.0.2.3", 2000, 6000, 128, 2, 6, Some(93780), None, Some(10)),
            neighbor("192.0.2.4", 0, 0, 0, 0, 0, None, Some("Connect"), None),
            neighbor("2001:db8::2", 3000, 7000, 128, 3, 7, Some(12813), None, Some(0)),
            neighbor("2001:db8::3", 4000, 8000, 128, 4, 8, Some(363960), None, Some(0)),
            neighbor("2001:db8::4", 0, 0, 0, 0, 0, None, Some("Connect"), None),
        ]
    );
}

#[test]
fn family_split() {
    let parser = BGPParser;
    let input = format!(
        "BGP router identifier 192.0.2.1, local AS number 64496\n\
         BGP table version is 128\n\
         1 BGP AS-PATH entries\n\
         2 BGP community entries\n\
         \n\
         {TABLE}\
         \n\
         Total number of neighbors 6\n\
         \n\
         Total number of Established sessions 4\n"
    );
    let status = parser.parse(&input).unwrap().unwrap();

    let v4 = retain_family(status.neighbors.clone(), false);
    assert_eq!(v4.len(), 3);
    assert!(v4.iter().all(|n| n.neighbor.is_ipv4()));

    let v6 = retain_family(status.neighbors, true);
    assert_eq!(v6.len(), 3);
    assert!(v6.iter().all(|n| n.neighbor.is_ipv6()));
}

#[test]
fn state_and_prefixes_exclude_each_other() {
    let parser = BGPParser;
    let input = format!(
        "BGP router identifier 192.0.2.1, local AS number 64496\n\
         BGP table version is 128\n\
         1 BGP AS-PATH entries\n\
         2 BGP community entries\n\
         \n\
         {TABLE}\
         \n\
         Total number of neighbors 6\n\
         \n\
         Total number of Established sessions 4\n"
    );
    let status = parser.parse(&input).unwrap().unwrap();
    for n in &status.neighbors {
        assert_eq!(n.state.is_some(), n.prefixes_received.is_none());
    }
}
