use edgerouter_exporter::addr::IpAddress;
use edgerouter_exporter::duration::Duration;
use edgerouter_exporter::interface::{AddrInfo, Interface, InterfaceParser};
use edgerouter_exporter::pppoe::{ByteSize, PacketSize, PPPoEClientSession, PPPoEParser};
use edgerouter_exporter::quantity::{ScalePrefix, ScaledQuantity};

fn kilo(whole: u64, tenths: u64) -> ScaledQuantity {
    ScaledQuantity {
        whole,
        frac: tenths,
        frac_scale: 1,
        prefix: ScalePrefix::Kilo,
    }
}

fn session(
    user: &str,
    secs: u64,
    iface: &str,
    remote: &str,
    local: Option<&str>,
    tx_p: ScaledQuantity,
    tx_b: ScaledQuantity,
    rx_p: ScaledQuantity,
    rx_b: ScaledQuantity,
) -> PPPoEClientSession {
    PPPoEClientSession {
        user: user.to_string(),
        time: Duration { secs },
        protocol: "PPPoE".to_string(),
        interface: iface.to_string(),
        remote_ip: IpAddress::parse(remote).unwrap(),
        local_ip: local.map(|a| IpAddress::parse(a).unwrap()),
        transmit_packets: PacketSize(tx_p),
        transmit_bytes: ByteSize(tx_b),
        receive_packets: PacketSize(rx_p),
        receive_bytes: ByteSize(rx_b),
    }
}

fn inventory() -> Vec<Interface> {
    vec![
        Interface {
            ifname: "pppoe0".to_string(),
            operstate: "UNKNOWN".to_string(),
            addr_info: vec![AddrInfo {
                local: IpAddress::parse("203.0.113.1").unwrap(),
                address: Some(IpAddress::parse("192.0.2.255").unwrap()),
                prefixlen: 32,
            }],
        },
        Interface {
            ifname: "pppoe1".to_string(),
            operstate: "UNKNOWN".to_string(),
            addr_info: vec![AddrInfo {
                local: IpAddress::parse("203.0.113.2").unwrap(),
                address: Some(IpAddress::parse("198.51.100.255").unwrap()),
                prefixlen: 32,
            }],
        },
    ]
}

const WELL_SEPARATED: &str = "Active PPPoE client sessions:\n\
\n\
User       Time      Proto Iface   Remote IP       TX pkt/byte   RX pkt/byte\n\
---------- --------- ----- -----   --------------- ------ ------ ------ ------\n\
user01     01h02m03s PPPoE pppoe0  192.0.2.255   384  34.8K   1.2K  58.2K\n\
user02     04d05h06m PPPoE pppoe1  198.51.100.255   768  76.8K   2.4K 116.4K\n\
\n\
Total sessions: 2\n";

const GLUED: &str = "Active PPPoE client sessions:\n\
\n\
User       Time      Proto Iface   Remote IP       TX pkt/byte   RX pkt/byte\n\
---------- --------- ----- -----   --------------- ------ ------ ------ ------\n\
user01     01h02m03s PPPoE pppoe0  192.0.2.255384  34.8K   1.2K  58.2K\n\
user02     04d05h06m PPPoE pppoe1  198.51.100.255768  76.8K   2.4K 116.4K\n\
\n\
Total sessions: 2\n";

#[test]
fn pppoe_empty() {
    let parser = PPPoEParser;
    let interfaces = Vec::new();

    assert!(parser.parse("", &interfaces).is_err());
}

#[test]
fn pppoe_no_config() {
    let parser = PPPoEParser;
    let interfaces = Vec::new();

    let actual = parser.parse("No active PPPoE client sessions", &interfaces).unwrap();
    assert_eq!(actual, vec![]);
}

#[test]
fn sessions_without_interfaces() {
    let parser = PPPoEParser;
    let interfaces = Vec::new();

    let actual = parser.parse(WELL_SEPARATED, &interfaces).unwrap();
    assert_eq!(
        actual,
        vec![
            session(
                "user01",
                3723,
                "pppoe0",
                "192.0.2.255",
                None,
                ScaledQuantity::standalone(384),
                kilo(34, 8),
                kilo(1, 2),
                kilo(58, 2),
            ),
            session(
                "user02",
                363960,
                "pppoe1",
                "198.51.100.255",
                None,
                ScaledQuantity::standalone(768),
                kilo(76, 8),
                kilo(2, 4),
                kilo(116, 4),
            ),
        ]
    );
}

#[test]
fn sessions_with_interfaces() {
    let parser = PPPoEParser;
    let interfaces = inventory();

    let actual = parser.parse(WELL_SEPARATED, &interfaces).unwrap();
    assert_eq!(
        actual,
        vec![
            session(
                "user01",
                3723,
                "pppoe0",
                "192.0.2.255",
                Some("203.0.113.1"),
                ScaledQuantity::standalone(384),
                kilo(34, 8),
                kilo(1, 2),
                kilo(58, 2),
            ),
            session(
                "user02",
                363960,
                "pppoe1",
                "198.51.100.255",
                Some("203.0.113.2"),
                ScaledQuantity::standalone(768),
                kilo(76, 8),
                kilo(2, 4),
                kilo(116, 4),
            ),
        ]
    );
}

#[test]
fn sessions_ill_formed_with_interfaces() {
    let parser = PPPoEParser;
    let interfaces = inventory();

    let actual = parser.parse(GLUED, &interfaces).unwrap();
    assert_eq!(
        actual,
        vec![
            session(
                "user01",
                3723,
                "pppoe0",
                "192.0.2.255",
                Some("203.0.113.1"),
                ScaledQuantity::standalone(384),
                kilo(34, 8),
                kilo(1, 2),
                kilo(58, 2),
            ),
            session(
                "user02",
                363960,
                "pppoe1",
                "198.51.100.255",
                Some("203.0.113.2"),
                ScaledQuantity::standalone(768),
                kilo(76, 8),
                kilo(2, 4),
                kilo(116, 4),
            ),
        ]
    );
}

#[test]
fn split_strategies_agree_on_well_separated_rows() {
    // the same well-separated table, with and without the inventory,
    // reads the same sessions up to the joined local address
    let parser = PPPoEParser;
    let with = parser.parse(WELL_SEPARATED, &inventory()).unwrap();
    let without = parser.parse(WELL_SEPARATED, &Vec::new()).unwrap();
    assert_eq!(with.len(), without.len());
    for (a, b) in with.iter().zip(without.iter()) {
        assert_eq!(a.user, b.user);
        assert_eq!(a.time, b.time);
        assert_eq!(a.protocol, b.protocol);
        assert_eq!(a.interface, b.interface);
        assert_eq!(a.remote_ip, b.remote_ip);
        assert_eq!(a.transmit_packets, b.transmit_packets);
        assert_eq!(a.transmit_bytes, b.transmit_bytes);
        assert_eq!(a.receive_packets, b.receive_packets);
        assert_eq!(a.receive_bytes, b.receive_bytes);
    }
}

#[test]
fn unresolvable_remote_column_is_an_error() {
    let parser = PPPoEParser;
    let input = "Active PPPoE client sessions:\n\
\n\
User       Time      Proto Iface   Remote IP       TX pkt/byte   RX pkt/byte\n\
---------- --------- ----- -----   --------------- ------ ------ ------ ------\n\
user01     01h02m03s PPPoE pppoe0  notanaddress   384  34.8K   1.2K  58.2K\n\
\n\
Total sessions: 1\n";

    assert_eq!(
        parser.parse(input, &Vec::new()),
        Err(edgerouter_exporter::ParseError::AmbiguousColumnUnresolved)
    );
}

#[test]
fn interface_interfaces() {
    let parser = InterfaceParser;
    let input = "lo               UNKNOWN        127.0.0.1/8 ::1/128 \n\
                 imq0             DOWN           \n\
                 pppoe0           UP             203.0.113.1 peer 192.0.2.255/32 \n";

    let actual = parser.parse(input);
    assert_eq!(
        actual,
        vec![
            Interface {
                ifname: "lo".to_string(),
                operstate: "UNKNOWN".to_string(),
                addr_info: vec![
                    AddrInfo {
                        local: IpAddress::parse("127.0.0.1").unwrap(),
                        address: None,
                        prefixlen: 8,
                    },
                    AddrInfo {
                        local: IpAddress::parse("::1").unwrap(),
                        address: None,
                        prefixlen: 128,
                    },
                ],
            },
            Interface {
                ifname: "imq0".to_string(),
                operstate: "DOWN".to_string(),
                addr_info: vec![],
            },
            Interface {
                ifname: "pppoe0".to_string(),
                operstate: "UP".to_string(),
                addr_info: vec![AddrInfo {
                    local: IpAddress::parse("203.0.113.1").unwrap(),
                    address: Some(IpAddress::parse("192.0.2.255").unwrap()),
                    prefixlen: 32,
                }],
            },
        ]
    );
}

#[test]
fn bare_addresses_take_the_family_prefix() {
    let parser = InterfaceParser;
    let input = "eth0 UP 10.0.0.1 2001:db8::1\n";

    let actual = parser.parse(input);
    assert_eq!(actual.len(), 1);
    assert_eq!(actual[0].addr_info[0].prefixlen, 32);
    assert_eq!(actual[0].addr_info[1].prefixlen, 128);
}
