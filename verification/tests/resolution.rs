use pinger::addr::parse_ip;
use pinger::resolver::classify_target;
use pinger::resolver::resolve_from_lookup;
use pinger::IpAddress;
use pinger::LookupOutcome;
use pinger::ResolutionError;
use pinger::ResolveStep;

fn bytes(s: &str) -> Vec<u8> {
    s.as_bytes().to_vec()
}

#[test]
fn parses_ipv4_literals() {
    assert_eq!(parse_ip(&bytes("1.2.3.4")), Some(IpAddress::V4(1, 2, 3, 4)));
    assert_eq!(parse_ip(&bytes("0.0.0.0")), Some(IpAddress::V4(0, 0, 0, 0)));
    assert_eq!(parse_ip(&bytes("127.0.0.1")), Some(IpAddress::V4(127, 0, 0, 1)));
    assert_eq!(
        parse_ip(&bytes("255.255.255.255")),
        Some(IpAddress::V4(255, 255, 255, 255))
    );
    assert_eq!(parse_ip(&bytes("8.8.8.8")), Some(IpAddress::V4(8, 8, 8, 8)));
}

#[test]
fn rejects_bad_ipv4_literals() {
    assert_eq!(parse_ip(&bytes("")), None);
    assert_eq!(parse_ip(&bytes("256.0.0.1")), None);
    assert_eq!(parse_ip(&bytes("01.2.3.4")), None);
    assert_eq!(parse_ip(&bytes("1.2.3")), None);
    assert_eq!(parse_ip(&bytes("1.2.3.4.5")), None);
    assert_eq!(parse_ip(&bytes("1..2.3")), None);
    assert_eq!(parse_ip(&bytes("1.2.3.")), None);
    assert_eq!(parse_ip(&bytes(".1.2.3")), None);
    assert_eq!(parse_ip(&bytes("1.2.3.a")), None);
    assert_eq!(parse_ip(&bytes("1000.2.3.4")), None);
    assert_eq!(parse_ip(&bytes("example.com")), None);
}

#[test]
fn parses_full_ipv6_literals() {
    assert_eq!(
        parse_ip(&bytes("1:2:3:4:5:6:7:8")),
        Some(IpAddress::V6(1, 2, 3, 4, 5, 6, 7, 8))
    );
    assert_eq!(
        parse_ip(&bytes("0:0:0:0:0:0:0:1")),
        Some(IpAddress::V6(0, 0, 0, 0, 0, 0, 0, 1))
    );
    assert_eq!(
        parse_ip(&bytes("fe80:0:0:0:0:0:0:1")),
        Some(IpAddress::V6(0xfe80, 0, 0, 0, 0, 0, 0, 1))
    );
}

#[test]
fn parses_compressed_ipv6_literals() {
    assert_eq!(parse_ip(&bytes("::")), Some(IpAddress::V6(0, 0, 0, 0, 0, 0, 0, 0)));
    assert_eq!(parse_ip(&bytes("::1")), Some(IpAddress::V6(0, 0, 0, 0, 0, 0, 0, 1)));
    assert_eq!(parse_ip(&bytes("1::")), Some(IpAddress::V6(1, 0, 0, 0, 0, 0, 0, 0)));
    assert_eq!(
        parse_ip(&bytes("fe80::1")),
        Some(IpAddress::V6(0xfe80, 0, 0, 0, 0, 0, 0, 1))
    );
    assert_eq!(
        parse_ip(&bytes("2001:db8::8a2e:370:7334")),
        Some(IpAddress::V6(0x2001, 0x0db8, 0, 0, 0, 0x8a2e, 0x0370, 0x7334))
    );
    assert_eq!(
        parse_ip(&bytes("1:2:3:4:5:6:7::")),
        Some(IpAddress::V6(1, 2, 3, 4, 5, 6, 7, 0))
    );
    assert_eq!(
        parse_ip(&bytes("::1:2:3:4:5:6:7")),
        Some(IpAddress::V6(0, 1, 2, 3, 4, 5, 6, 7))
    );
}

#[test]
fn ipv6_hex_digits_may_be_upper_case() {
    assert_eq!(
        parse_ip(&bytes("FE80::A")),
        Some(IpAddress::V6(0xfe80, 0, 0, 0, 0, 0, 0, 0xa))
    );
    assert_eq!(
        parse_ip(&bytes("AbCd::eF")),
        Some(IpAddress::V6(0xabcd, 0, 0, 0, 0, 0, 0, 0xef))
    );
}

#[test]
fn rejects_bad_ipv6_literals() {
    assert_eq!(parse_ip(&bytes(":")), None);
    assert_eq!(parse_ip(&bytes(":::")), None);
    assert_eq!(parse_ip(&bytes("1::2::3")), None);
    assert_eq!(parse_ip(&bytes("1:::2")), None);
    assert_eq!(parse_ip(&bytes("12345::")), None);
    assert_eq!(parse_ip(&bytes("g::1")), None);
    assert_eq!(parse_ip(&bytes("1:2:3:4:5:6:7")), None);
    assert_eq!(parse_ip(&bytes("1:2:3:4:5:6:7:8:9")), None);
    assert_eq!(parse_ip(&bytes(":1:2:3:4:5:6:7")), None);
    assert_eq!(parse_ip(&bytes("1:2:3:4:5:6:7:")), None);
    assert_eq!(parse_ip(&bytes("::1:2:3:4:5:6:7:8")), None);
    assert_eq!(parse_ip(&bytes("1:2:3:4:5:6:7::8")), None);
}

#[test]
fn literal_targets_resolve_without_lookup() {
    assert_eq!(
        classify_target(&bytes("192.168.1.10")),
        ResolveStep::Literal(IpAddress::V4(192, 168, 1, 10))
    );
    assert_eq!(
        classify_target(&bytes("::1")),
        ResolveStep::Literal(IpAddress::V6(0, 0, 0, 0, 0, 0, 0, 1))
    );
}

#[test]
fn hostname_targets_need_a_lookup() {
    assert_eq!(classify_target(&bytes("example.com")), ResolveStep::NeedsLookup);
    assert_eq!(classify_target(&bytes("localhost")), ResolveStep::NeedsLookup);
}

#[test]
fn lookup_resolution_takes_the_first_listed_address() {
    let addrs = vec![
        IpAddress::V4(10, 0, 0, 1),
        IpAddress::V4(10, 0, 0, 2),
        IpAddress::V6(0, 0, 0, 0, 0, 0, 0, 1),
    ];
    assert_eq!(
        resolve_from_lookup(&LookupOutcome::Addresses(addrs)),
        Ok(IpAddress::V4(10, 0, 0, 1))
    );
    let one = vec![IpAddress::V6(0xfe80, 0, 0, 0, 0, 0, 0, 9)];
    assert_eq!(
        resolve_from_lookup(&LookupOutcome::Addresses(one)),
        Ok(IpAddress::V6(0xfe80, 0, 0, 0, 0, 0, 0, 9))
    );
}

#[test]
fn empty_lookup_fails_resolution() {
    assert_eq!(
        resolve_from_lookup(&LookupOutcome::Addresses(Vec::new())),
        Err(ResolutionError::NoAddresses)
    );
}

#[test]
fn failed_lookup_fails_resolution() {
    assert_eq!(
        resolve_from_lookup(&LookupOutcome::Failed),
        Err(ResolutionError::LookupFailed)
    );
}
