use sea_lantern::version::{compare_versions, parse_version, ParsedVersion, PreIdent};

#[test]
fn compare_versions_handles_prerelease() {
    assert!(compare_versions("1.2.3-beta.1", "1.2.3"));
    assert!(!compare_versions("1.2.3", "1.2.3-beta.1"));
    assert!(compare_versions("1.2.3-beta.1", "1.2.3-beta.2"));
    assert!(!compare_versions("1.2.3-rc.2", "1.2.3-rc.1"));
}

#[test]
fn compare_versions_handles_basic_semver() {
    assert!(compare_versions("1.2.3", "1.2.4"));
    assert!(!compare_versions("1.2.4", "1.2.3"));
    assert!(compare_versions("v1.9.9", "2.0.0"));
    assert!(!compare_versions("2.0.0", "2.0.0"));
}

#[test]
fn parse_version_ignores_build_metadata() {
    assert_eq!(parse_version("1.2.3+abc"), parse_version("1.2.3+def"));
}

#[test]
fn parse_version_reads_core_and_prerelease() {
    let v = parse_version("  V10.20.30-RC.7.beta+build.5 ");
    assert_eq!(
        v,
        ParsedVersion {
            core: [10, 20, 30],
            pre: Some(vec![
                PreIdent::AlphaNum("rc".chars().collect()),
                PreIdent::Numeric(7),
                PreIdent::AlphaNum("beta".chars().collect()),
            ]),
        }
    );
}

#[test]
fn parse_version_defaults_missing_and_bad_numbers_to_zero() {
    assert_eq!(parse_version("3"), ParsedVersion { core: [3, 0, 0], pre: None });
    assert_eq!(parse_version("1.x.4"), ParsedVersion { core: [1, 0, 4], pre: None });
    assert_eq!(parse_version("1.x.+4"), ParsedVersion { core: [1, 0, 0], pre: None });
    assert_eq!(parse_version("1.2.99999999999999999999"), ParsedVersion { core: [1, 2, 0], pre: None });
    assert_eq!(parse_version("1.2.3-"), ParsedVersion { core: [1, 2, 3], pre: None });
    assert_eq!(parse_version("1.2.3-..a"), ParsedVersion { core: [1, 2, 3], pre: Some(vec![PreIdent::AlphaNum(vec!['a'])]) });
}

#[test]
fn numeric_identifiers_precede_alphanumeric_ones() {
    assert!(compare_versions("1.0.0-1", "1.0.0-alpha"));
    assert!(!compare_versions("1.0.0-alpha", "1.0.0-1"));
    assert!(compare_versions("1.0.0-alpha", "1.0.0-alpha.1"));
    assert!(compare_versions("1.0.0-2", "1.0.0-10"));
}
