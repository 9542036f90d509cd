use phenolrs::info::{
    parse_version, select_load_strategy, DeploymentType, InfoError, LoadStrategy, ParsedVersion,
};

#[test]
fn version_parses_major_and_minor() {
    let v = parse_version(&b"3.12.5".to_vec()).unwrap();
    assert_eq!(v, ParsedVersion { major: 3, minor: 12 });
}

#[test]
fn version_with_suffix_part_parses() {
    let v = parse_version(&b"3.11.0-nightly".to_vec()).unwrap();
    assert_eq!(v, ParsedVersion { major: 3, minor: 11 });
}

#[test]
fn version_with_two_parts_is_malformed() {
    assert_eq!(parse_version(&b"3.12".to_vec()).unwrap_err(), InfoError::MalformedVersion);
}

#[test]
fn version_with_text_is_malformed() {
    assert_eq!(parse_version(&b"abc.def.ghi".to_vec()).unwrap_err(), InfoError::MalformedVersion);
}

#[test]
fn version_overflowing_a_byte_is_malformed() {
    assert_eq!(parse_version(&b"3.1000.0".to_vec()).unwrap_err(), InfoError::MalformedVersion);
}

#[test]
fn single_server_below_dump_support_falls_back_to_cursors() {
    let s = select_load_strategy(&b"3.11.3".to_vec(), DeploymentType::Single).unwrap();
    assert_eq!(s, LoadStrategy::Aql);
}

#[test]
fn cluster_at_three_eleven_uses_dump() {
    let s = select_load_strategy(&b"3.11.3".to_vec(), DeploymentType::Cluster).unwrap();
    assert_eq!(s, LoadStrategy::Dump);
}

#[test]
fn single_server_at_three_twelve_uses_dump() {
    let s = select_load_strategy(&b"3.12.0".to_vec(), DeploymentType::Single).unwrap();
    assert_eq!(s, LoadStrategy::Dump);
}

#[test]
fn malformed_version_is_fatal() {
    assert!(select_load_strategy(&b"tip".to_vec(), DeploymentType::Single).is_err());
}
