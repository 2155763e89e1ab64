use edgerouter_exporter::addr::IpAddress;
use edgerouter_exporter::ddns::{DdnsParser, DdnsStatus, DdnsUpdateStatus};
use edgerouter_exporter::timestamp::Timestamp;

#[test]
fn ddns_empty() {
    let parser = DdnsParser;
    let input = "";

    assert!(parser.parse(input).is_err());
}

#[test]
fn ddns_no_config() {
    let parser = DdnsParser;
    let input = "Dynamic DNS not configured\n\n";

    let actual = parser.parse(input).unwrap();
    assert_eq!(actual, vec![]);
}

#[test]
fn no_statuses() {
    let parser = DdnsParser;
    let input = "interface    : eth0 \n\
                 [ Status will be updated within 60 seconds ]\n\
                 \n\
                 interface    : eth1 \n\
                 [ Status will be updated within 60 seconds ]\n\
                 \n";

    let actual = parser.parse(input).unwrap();
    assert_eq!(
        actual,
        vec![
            DdnsStatus {
                interface: "eth0".to_string(),
                ip_address: None,
                host_name: None,
                last_update: None,
                update_status: None,
            },
            DdnsStatus {
                interface: "eth1".to_string(),
                ip_address: None,
                host_name: None,
                last_update: None,
                update_status: None,
            },
        ]
    );
}

#[test]
fn ddns_statuses() {
    let parser = DdnsParser;
    let input = "interface    : eth0\n\
                 ip address   : 192.0.2.1\n\
                 host-name    : 1.example.com\n\
                 last update  : Mon Jan  2 15:04:05 2006\n\
                 update-status: good\n\
                 \n\
                 interface    : eth1 [ Currently no IP address ]\n\
                 host-name    : 2.example.com\n\
                 last update  : Mon Jan  2 15:04:06 2006\n\
                 update-status: \n\
                 \n";

    let actual = parser.parse(input).unwrap();
    assert_eq!(
        actual,
        vec![
            DdnsStatus {
                interface: "eth0".to_string(),
                ip_address: Some(IpAddress::parse("192.0.2.1").unwrap()),
                host_name: Some("1.example.com".to_string()),
                last_update: Some(Timestamp {
                    year: 2006,
                    month: 1,
                    day: 2,
                    hour: 15,
                    minute: 4,
                    second: 5,
                }),
                update_status: Some(DdnsUpdateStatus::Good),
            },
            DdnsStatus {
                interface: "eth1".to_string(),
                ip_address: None,
                host_name: Some("2.example.com".to_string()),
                last_update: Some(Timestamp {
                    year: 2006,
                    month: 1,
                    day: 2,
                    hour: 15,
                    minute: 4,
                    second: 6,
                }),
                update_status: None,
            },
        ]
    );
}

#[test]
fn single_block_scenario() {
    // the literal block: interface, address, host name and a good status
    let parser = DdnsParser;
    let input = "interface : eth0\nip address : 192.0.2.1\nhost-name : 1.example.com\nupdate-status: good\n";

    let actual = parser.parse(input).unwrap();
    assert_eq!(actual.len(), 1);
    assert_eq!(actual[0].update_status, Some(DdnsUpdateStatus::Good));
    assert_eq!(
        actual[0].ip_address,
        Some(IpAddress::parse("192.0.2.1").unwrap())
    );
    assert_eq!(actual[0].interface, "eth0");
    assert_eq!(actual[0].host_name, Some("1.example.com".to_string()));
}

#[test]
fn unknown_status_code_is_kept() {
    let parser = DdnsParser;
    let input = "interface    : eth0\nupdate-status: brandnewcode\n";

    let actual = parser.parse(input).unwrap();
    assert_eq!(
        actual[0].update_status,
        Some(DdnsUpdateStatus::Unknown("brandnewcode".to_string()))
    );
}

#[test]
fn status_codes_map_case_insensitively() {
    let parser = DdnsParser;
    let input = "interface    : eth0\nupdate-status: NoChg\n";

    let actual = parser.parse(input).unwrap();
    assert_eq!(actual[0].update_status, Some(DdnsUpdateStatus::NoChange));
}

#[test]
fn repeated_keys_take_the_first_value() {
    let parser = DdnsParser;
    let input = "interface    : eth0
interface    : eth9
host-name    : a.example.com
host-name    : b.example.com
";

    let actual = parser.parse(input).unwrap();
    assert_eq!(actual[0].interface, "eth0");
    assert_eq!(actual[0].host_name, Some("a.example.com".to_string()));
}

#[test]
fn missing_interface_is_an_error() {
    let parser = DdnsParser;
    let input = "host-name    : 1.example.com\n";

    assert!(parser.parse(input).is_err());
}

#[test]
fn malformed_address_is_an_error() {
    let parser = DdnsParser;
    let input = "interface    : eth0\nip address   : not-an-address\n";

    assert!(parser.parse(input).is_err());
}
