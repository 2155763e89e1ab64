use edgerouter_exporter::duration::Duration;
use edgerouter_exporter::load_balance::FlowSize;
use edgerouter_exporter::pppoe::{ByteSize, PacketSize};
use edgerouter_exporter::quantity::{parse_scaled, ScalePrefix, ScaledQuantity};
use edgerouter_exporter::ParseError;

#[test]
fn duration_literals() {
    assert_eq!(Duration::parse("01:11:11"), Ok(Duration { secs: 4271 }));
    assert_eq!(Duration::parse("4d05h06m"), Ok(Duration { secs: 363960 }));
    assert_eq!(Duration::parse("1d02h03m"), Ok(Duration { secs: 93780 }));
    assert_eq!(Duration::parse("01h02m03s"), Ok(Duration { secs: 3723 }));
    assert_eq!(Duration::parse("1w2d3h"), Ok(Duration { secs: 788400 }));
}

#[test]
fn duration_rejects_garbage() {
    assert_eq!(
        Duration::parse("never"),
        Err(ParseError::UnrecognizedDurationFormat)
    );
    assert_eq!(
        Duration::parse("01:11:11x"),
        Err(ParseError::UnrecognizedDurationFormat)
    );
    assert_eq!(
        Duration::parse("x01:11:11"),
        Err(ParseError::UnrecognizedDurationFormat)
    );
    assert_eq!(
        Duration::parse(""),
        Err(ParseError::UnrecognizedDurationFormat)
    );
}

#[test]
fn scaled_literals() {
    let q = parse_scaled("10Ki").unwrap();
    assert_eq!(q.to_u64(), Ok(10240));
    let q = parse_scaled("10Gi").unwrap();
    assert_eq!(q.to_u64(), Ok(10 * 1024 * 1024 * 1024));
    let q = parse_scaled("34.8K").unwrap();
    assert_eq!(q.to_u64(), Ok(35635));
    let q = parse_scaled("2000").unwrap();
    assert_eq!(q.to_u64(), Ok(2000));
    assert_eq!(parse_scaled("x"), Err(ParseError::MalformedHeader));
}

#[test]
fn convert_flow_size() {
    let k = 1024u64;
    assert_eq!(FlowSize(ScaledQuantity::standalone(10)).to_u64(), Ok(10));

    for (p, rank) in [
        (ScalePrefix::Kilo, 1u32),
        (ScalePrefix::Mega, 2),
        (ScalePrefix::Giga, 3),
        (ScalePrefix::Tera, 4),
        (ScalePrefix::Peta, 5),
        (ScalePrefix::Exa, 6),
        (ScalePrefix::Kibi, 1),
        (ScalePrefix::Mebi, 2),
        (ScalePrefix::Gibi, 3),
        (ScalePrefix::Tebi, 4),
        (ScalePrefix::Pebi, 5),
        (ScalePrefix::Exbi, 6),
    ] {
        assert_eq!(
            FlowSize(ScaledQuantity::prefixed(10, p)).to_u64(),
            Ok(10 * k.pow(rank))
        );
    }
}

#[test]
fn convert_flow_size_overflow() {
    for p in [
        ScalePrefix::Yotta,
        ScalePrefix::Zetta,
        ScalePrefix::Yobi,
        ScalePrefix::Zebi,
    ] {
        assert_eq!(
            FlowSize(ScaledQuantity::prefixed(10, p)).to_u64(),
            Err(ParseError::QuantityOverflow)
        );
    }
}

#[test]
fn convert_packet_size() {
    let k = 1024u64;
    assert_eq!(PacketSize(ScaledQuantity::standalone(10)).to_u64(), Ok(10));

    for (p, rank) in [
        (ScalePrefix::Kilo, 1u32),
        (ScalePrefix::Mega, 2),
        (ScalePrefix::Giga, 3),
        (ScalePrefix::Tera, 4),
        (ScalePrefix::Peta, 5),
        (ScalePrefix::Exa, 6),
        (ScalePrefix::Kibi, 1),
        (ScalePrefix::Mebi, 2),
        (ScalePrefix::Gibi, 3),
        (ScalePrefix::Tebi, 4),
        (ScalePrefix::Pebi, 5),
        (ScalePrefix::Exbi, 6),
    ] {
        assert_eq!(
            PacketSize(ScaledQuantity::prefixed(10, p)).to_u64(),
            Ok(10 * k.pow(rank))
        );
    }
}

#[test]
fn convert_packet_size_overflow() {
    for p in [
        ScalePrefix::Yotta,
        ScalePrefix::Zetta,
        ScalePrefix::Yobi,
        ScalePrefix::Zebi,
    ] {
        assert_eq!(
            PacketSize(ScaledQuantity::prefixed(10, p)).to_u64(),
            Err(ParseError::QuantityOverflow)
        );
    }
}

#[test]
fn convert_byte_size() {
    let k = 1024u64;
    assert_eq!(ByteSize(ScaledQuantity::standalone(10)).to_u64(), Ok(10));

    for (p, rank) in [
        (ScalePrefix::Kilo, 1u32),
        (ScalePrefix::Mega, 2),
        (ScalePrefix::Giga, 3),
        (ScalePrefix::Tera, 4),
        (ScalePrefix::Peta, 5),
        (ScalePrefix::Exa, 6),
        (ScalePrefix::Kibi, 1),
        (ScalePrefix::Mebi, 2),
        (ScalePrefix::Gibi, 3),
        (ScalePrefix::Tebi, 4),
        (ScalePrefix::Pebi, 5),
        (ScalePrefix::Exbi, 6),
    ] {
        assert_eq!(
            ByteSize(ScaledQuantity::prefixed(10, p)).to_u64(),
            Ok(10 * k.pow(rank))
        );
    }
}

#[test]
fn convert_byte_size_overflow() {
    for p in [
        ScalePrefix::Yotta,
        ScalePrefix::Zetta,
        ScalePrefix::Yobi,
        ScalePrefix::Zebi,
    ] {
        assert_eq!(
            ByteSize(ScaledQuantity::prefixed(10, p)).to_u64(),
            Err(ParseError::QuantityOverflow)
        );
    }
}

#[test]
fn largest_values() {
    // the largest representable counter, and one past it
    let q = parse_scaled("18446744073709551615").unwrap();
    assert_eq!(q.to_u64(), Ok(u64::MAX));
    assert_eq!(
        parse_scaled("18446744073709551616"),
        Err(ParseError::QuantityOverflow)
    );
    // a duration whose seconds count exceeds the representable range
    assert_eq!(
        Duration::parse("18446744073709551615:0:1"),
        Err(ParseError::UnrecognizedDurationFormat)
    );
    assert_eq!(
        Duration::parse("18446744073709551615:0:0x"),
        Err(ParseError::UnrecognizedDurationFormat)
    );
}

#[test]
fn fractional_truncation() {
    // 1.5K scales to 1536 exactly; 0.1K truncates to 102
    let q = parse_scaled("1.5K").unwrap();
    assert_eq!(q.to_u64(), Ok(1536));
    let q = parse_scaled("0.1K").unwrap();
    assert_eq!(q.to_u64(), Ok(102));
    let q = parse_scaled("116.4K").unwrap();
    assert_eq!(q.to_u64(), Ok(119193));
}
