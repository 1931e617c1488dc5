use memview::memory::{parse_address, ParseAddressError};
use memview::process_info::{MemoryMap, ProcessInfo};

fn region(start: usize, end: usize) -> MemoryMap {
    MemoryMap { start, end, perms: String::from("r--p"), path: String::new() }
}

fn target(maps: Vec<MemoryMap>) -> ProcessInfo {
    ProcessInfo { pid: 1, comm: String::from("test"), maps }
}

#[test]
fn validate_inside_region() {
    let info = target(vec![region(0x1000, 0x2000)]);
    assert_eq!(parse_address("0x1500", &info), Ok(0x1500));
}

#[test]
fn validate_end_is_exclusive() {
    let info = target(vec![region(0x1000, 0x2000)]);
    assert_eq!(parse_address("0x2000", &info), Err(ParseAddressError::AddressNotMapped));
}

#[test]
fn validate_start_is_inclusive() {
    let info = target(vec![region(0x1000, 0x2000)]);
    assert_eq!(parse_address("0x1000", &info), Ok(0x1000));
}

#[test]
fn validate_rejects_garbage() {
    let info = target(vec![region(0x1000, 0x2000)]);
    assert_eq!(parse_address("zz", &info), Err(ParseAddressError::MalformedAddress));
}

#[test]
fn validate_empty_region_list() {
    let info = target(vec![]);
    assert_eq!(parse_address("0x1500", &info), Err(ParseAddressError::AddressNotMapped));
}

#[test]
fn validate_second_region_wins() {
    let info = target(vec![region(0x1000, 0x2000), region(0x8000, 0x9000)]);
    assert_eq!(parse_address("8abc", &info), Ok(0x8abc));
}

#[test]
fn prefix_and_bare_text_agree() {
    let info = target(vec![region(0x1000, 0x2000)]);
    assert_eq!(parse_address("0x1500", &info), parse_address("1500", &info));
    assert_eq!(parse_address("1a2f", &info), Ok(0x1a2f));
    assert_eq!(parse_address("0x1a2f", &info), Ok(0x1a2f));
}

#[test]
fn uppercase_digits_accepted() {
    let info = target(vec![region(0x1000, 0x2000)]);
    assert_eq!(parse_address("0x1A2F", &info), Ok(0x1a2f));
}

#[test]
fn uppercase_marker_rejected() {
    let info = target(vec![region(0, usize::MAX)]);
    assert_eq!(parse_address("0X10", &info), Err(ParseAddressError::MalformedAddress));
}

#[test]
fn empty_text_rejected() {
    let info = target(vec![region(0x1000, 0x2000)]);
    assert_eq!(parse_address("", &info), Err(ParseAddressError::MalformedAddress));
    assert_eq!(parse_address("0x", &info), Err(ParseAddressError::MalformedAddress));
}

#[test]
fn oversized_value_rejected() {
    let info = target(vec![region(0, usize::MAX)]);
    assert_eq!(
        parse_address("10000000000000000", &info),
        Err(ParseAddressError::MalformedAddress)
    );
    // the largest address parses, but the end of a region is exclusive,
    // so no region can contain it
    assert_eq!(
        parse_address("ffffffffffffffff", &info),
        Err(ParseAddressError::AddressNotMapped)
    );
}

#[test]
fn address_error_messages() {
    assert_eq!(ParseAddressError::MalformedAddress.to_text(), "Failed to parse address");
    assert_eq!(ParseAddressError::AddressNotMapped.to_text(), "Address not in process map");
}
