use edgerouter_exporter::timestamp::Timestamp;
use edgerouter_exporter::version::{Version, VersionParser};
use edgerouter_exporter::ParseError;

#[test]
fn version_empty() {
    let parser = VersionParser;
    let input = "";

    assert!(parser.parse(input).is_err());
}

#[test]
fn version_version() {
    let parser = VersionParser;
    let input = "Version:      v2.0.6\n\
                 Build ID:     5208541\n\
                 Build on:     01/02/06 15:04\n\
                 Copyright:    2012-2018 Ubiquiti Networks, Inc.\n\
                 HW model:     EdgeRouter X 5-Port\n\
                 HW S/N:       000000000000\n\
                 Uptime:       01:00:00 up  1:00,  1 user,  load average: 1.00, 1.00, 1.00\n";

    let actual = parser.parse(input).unwrap();
    assert_eq!(
        actual,
        Version {
            version: "v2.0.6".to_string(),
            build_id: "5208541".to_string(),
            build_on: Timestamp {
                year: 2006,
                month: 1,
                day: 2,
                hour: 15,
                minute: 4,
                second: 0,
            },
            copyright: "2012-2018 Ubiquiti Networks, Inc.".to_string(),
            hw_model: "EdgeRouter X 5-Port".to_string(),
            hw_serial_number: "000000000000".to_string(),
            uptime: "01:00:00 up  1:00,  1 user,  load average: 1.00, 1.00, 1.00".to_string(),
        }
    );
}

#[test]
fn missing_key_is_an_error() {
    let parser = VersionParser;
    // no Uptime line
    let input = "Version:      v2.0.6\n\
                 Build ID:     5208541\n\
                 Build on:     01/02/06 15:04\n\
                 Copyright:    2012-2018 Ubiquiti Networks, Inc.\n\
                 HW model:     EdgeRouter X 5-Port\n\
                 HW S/N:       000000000000\n";

    assert_eq!(parser.parse(input), Err(ParseError::MissingRequiredField));
}

#[test]
fn malformed_build_time_is_an_error() {
    let parser = VersionParser;
    let input = "Version:      v2.0.6\n\
                 Build ID:     5208541\n\
                 Build on:     not a time\n\
                 Copyright:    2012-2018 Ubiquiti Networks, Inc.\n\
                 HW model:     EdgeRouter X 5-Port\n\
                 HW S/N:       000000000000\n\
                 Uptime:       01:00:00\n";

    assert_eq!(parser.parse(input), Err(ParseError::MalformedHeader));
}
