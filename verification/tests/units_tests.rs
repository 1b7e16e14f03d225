use netmeter::error::ConfigError;
use netmeter::units::{parse_traffic_limit, signed_percent, traffic_show, TrafficUnit, GB, KB, MB, TB};

#[test]
fn unit_constants() {
    assert_eq!(KB, 1024);
    assert_eq!(MB, 1024 * 1024);
    assert_eq!(GB, 1024 * 1024 * 1024);
    assert_eq!(TB, 1024u64 * 1024 * 1024 * 1024);
}

#[test]
fn limit_one_hundred_gigabytes() {
    // the documented scenario: "100GB" is exactly 107374182400 bytes
    assert_eq!(parse_traffic_limit("100GB"), Ok(107374182400));
}

#[test]
fn limit_suffixes_and_separators() {
    assert_eq!(parse_traffic_limit("1KB"), Ok(1024));
    assert_eq!(parse_traffic_limit("1MB"), Ok(1024 * 1024));
    assert_eq!(parse_traffic_limit("2TB"), Ok(2 * 1024u64 * 1024 * 1024 * 1024));
    assert_eq!(parse_traffic_limit("1 000 GB"), Ok(1000 * GB));
    assert_eq!(parse_traffic_limit("1,000GB"), Ok(1000 * GB));
    assert_eq!(parse_traffic_limit("1_000_000 KB"), Ok(1000000 * KB));
}

#[test]
fn limit_fractions_must_come_to_whole_bytes() {
    assert_eq!(parse_traffic_limit("1.5GB"), Ok(GB + GB / 2));
    assert_eq!(parse_traffic_limit("0.25KB"), Ok(256));
    assert_eq!(parse_traffic_limit("0.1GB"), Err(ConfigError::BadTrafficLimit));
    assert_eq!(parse_traffic_limit("1. KB"), Ok(1024));
    assert_eq!(parse_traffic_limit(".5KB"), Ok(512));
}

#[test]
fn limit_rejects_malformed_strings() {
    assert_eq!(parse_traffic_limit(""), Err(ConfigError::BadTrafficLimit));
    assert_eq!(parse_traffic_limit("GB"), Err(ConfigError::BadTrafficLimit));
    assert_eq!(parse_traffic_limit("100"), Err(ConfigError::BadTrafficLimit));
    assert_eq!(parse_traffic_limit("100PB"), Err(ConfigError::BadTrafficLimit));
    assert_eq!(parse_traffic_limit("1.2.3GB"), Err(ConfigError::BadTrafficLimit));
    assert_eq!(parse_traffic_limit("-5GB"), Err(ConfigError::BadTrafficLimit));
    assert_eq!(parse_traffic_limit("1e3GB"), Err(ConfigError::BadTrafficLimit));
}

#[test]
fn traffic_show_picks_units() {
    assert_eq!(traffic_show(512), (TrafficUnit::Bytes, 512));
    assert_eq!(traffic_show(1024), (TrafficUnit::Kilobytes, 100));
    assert_eq!(traffic_show(1536), (TrafficUnit::Kilobytes, 150));
    assert_eq!(traffic_show(5 * MB), (TrafficUnit::Megabytes, 500));
    assert_eq!(traffic_show(GB + GB / 2), (TrafficUnit::Gigabytes, 150));
    assert_eq!(traffic_show(100 * GB), (TrafficUnit::Gigabytes, 10000));
    assert_eq!(traffic_show(3 * TB), (TrafficUnit::Terabytes, 300));
}

#[test]
fn traffic_show_rounds_half_up() {
    // 1434 bytes = 1.400390625 KB -> 1.40; 1435.52 rounds to 1.40 as well
    assert_eq!(traffic_show(1434), (TrafficUnit::Kilobytes, 140));
    // 1541 bytes = 1.5048828125 KB -> 1.50
    assert_eq!(traffic_show(1541), (TrafficUnit::Kilobytes, 150));
    // 1546 bytes = 1.509765625 KB -> 1.51
    assert_eq!(traffic_show(1546), (TrafficUnit::Kilobytes, 151));
}

#[test]
fn unit_suffixes() {
    assert_eq!(TrafficUnit::Bytes.suffix(), "B");
    assert_eq!(TrafficUnit::Terabytes.suffix(), "TB");
}

#[test]
fn signed_percent_rounds_and_keeps_sign() {
    assert_eq!(signed_percent(50, 200), 25);
    assert_eq!(signed_percent(1, 3), 33);
    assert_eq!(signed_percent(2, 3), 67);
    assert_eq!(signed_percent(1, 200), 1); // 0.5 rounds half up
    assert_eq!(signed_percent(0, 7), 0);
    assert_eq!(signed_percent(-50, 200), -25);
    assert_eq!(signed_percent(-1, 200), -1);
}
