use openstranded_plugin_api::version::parse_version_num;
use openstranded_plugin_api::{ApiVersion, VersionMismatch};

#[test]
fn test_current_version_parsed() {
    let v = ApiVersion::current();
    // Version values are non-negative by definition; this test confirms
    // that the version numbers were read as valid numbers.
    assert_eq!(v.major, 0);
    assert!(v.minor < 100);
    assert!(v.patch < 100);
}

#[test]
fn test_display() {
    let v = ApiVersion {
        major: 0,
        minor: 2,
        patch: 2,
    };
    assert_eq!(v.to_string(), "0.2.2");
}

#[test]
fn test_compatible_same_version() {
    let v = ApiVersion { major: 1, minor: 0, patch: 0 };
    assert!(v.compatible_with(&v).is_ok());
}

#[test]
fn test_compatible_minor_mismatch_still_ok() {
    let plugin = ApiVersion { major: 1, minor: 1, patch: 0 };
    let engine = ApiVersion { major: 1, minor: 2, patch: 0 };
    assert!(plugin.compatible_with(&engine).is_ok());
}

#[test]
fn test_compatible_major_mismatch_error() {
    let plugin = ApiVersion { major: 2, minor: 0, patch: 0 };
    let engine = ApiVersion { major: 1, minor: 0, patch: 0 };
    let err = plugin.compatible_with(&engine).unwrap_err();
    assert!(matches!(err, VersionMismatch::Incompatible { .. }));
}

#[test]
fn test_version_mismatch_display() {
    let mismatch = VersionMismatch::Incompatible {
        plugin: ApiVersion { major: 2, minor: 0, patch: 0 },
        engine: ApiVersion { major: 1, minor: 0, patch: 0 },
    };
    let msg = mismatch.to_string();
    assert!(msg.contains("2.0.0"));
    assert!(msg.contains("1.0.0"));
}

#[test]
fn version_mismatch_full_text() {
    let mismatch = VersionMismatch::Incompatible {
        plugin: ApiVersion { major: 3, minor: 14, patch: 159 },
        engine: ApiVersion { major: 10, minor: 0, patch: 7 },
    };
    assert_eq!(
        mismatch.to_string(),
        "plugin API v3.14.159 is incompatible with engine API v10.0.7 \
         (major version mismatch; expected 10, got 3)"
    );
}

#[test]
fn current_version_is_package_version() {
    assert_eq!(ApiVersion::current(), ApiVersion { major: 0, minor: 2, patch: 2 });
    assert_eq!(ApiVersion::current().to_string(), "0.2.2");
}

#[test]
fn mismatch_carries_both_versions() {
    let plugin = ApiVersion { major: 4, minor: 1, patch: 2 };
    let engine = ApiVersion { major: 5, minor: 1, patch: 2 };
    assert_eq!(
        plugin.compatible_with(&engine),
        Err(VersionMismatch::Incompatible { plugin, engine })
    );
}

#[test]
fn compatibility_is_reflexive_and_symmetric() {
    let a = ApiVersion { major: 7, minor: 0, patch: 1 };
    let b = ApiVersion { major: 7, minor: 9, patch: 0 };
    let c = ApiVersion { major: 8, minor: 0, patch: 1 };
    assert!(a.compatible_with(&a).is_ok());
    assert_eq!(a.compatible_with(&b).is_ok(), b.compatible_with(&a).is_ok());
    assert_eq!(a.compatible_with(&c).is_ok(), c.compatible_with(&a).is_ok());
    assert!(a.compatible_with(&c).is_err());
}

#[test]
fn parse_version_num_reads_leading_digits() {
    assert_eq!(parse_version_num("0"), 0);
    assert_eq!(parse_version_num("42"), 42);
    assert_eq!(parse_version_num("17-beta"), 17);
    assert_eq!(parse_version_num("4294967295"), u32::MAX);
    assert_eq!(parse_version_num("x1"), 0);
    assert_eq!(parse_version_num(""), 0);
}

#[test]
fn version_text_round_trip() {
    let v = ApiVersion { major: 1234, minor: 0, patch: 99 };
    let text = v.to_string();
    assert_eq!(text, "1234.0.99");
    assert_eq!(parse_version_num(&text), v.major);
    assert_eq!(ApiVersion { major: u32::MAX, minor: 10, patch: 0 }.to_string(), "4294967295.10.0");
}
