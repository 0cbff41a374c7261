use cargo_msrv::errors::CargoMSRVError;
use cargo_msrv::manifest::{BareVersion, CargoManifest, CargoManifestParser, ManifestVersionFields};

/// Parses manifest text the way the application shell does: the TOML
/// mechanics run here at the edge, and only the two optional version field
/// strings cross into the library.
fn parse_manifest(contents: &str) -> Result<CargoManifest, CargoMSRVError> {
    let map = decent_toml_rs_alternative::parse_toml(contents).map_err(CargoMSRVError::ParseToml)?;
    let package = map.get("package");
    let rust_version = package
        .and_then(|p| p.get("rust-version"))
        .and_then(|v| v.as_string());
    let metadata_msrv = package
        .and_then(|p| p.get("metadata"))
        .and_then(|meta| meta.get("msrv"))
        .and_then(|v| v.as_string());
    CargoManifestParser::default().parse(ManifestVersionFields {
        rust_version,
        metadata_msrv,
    })
}

#[test]
fn invalid_toml_yields_parse_toml_error() {
    let res = parse_manifest("-[package]");
    assert!(matches!(res, Err(CargoMSRVError::ParseToml(_))));
}

#[test]
fn parse_toml() {
    let contents = r#"[package]
name = "some"
version = "0.1.0"
edition = "2018"

[dependencies]
"#;

    assert!(parse_manifest(contents).is_ok());
}

#[test]
fn parse_invalid_toml() {
    let contents = r#"-[package]
name = "some"
version = "0.1.0"
edition = "2018"

[dependencies]
"#;

    assert!(parse_manifest(contents).is_err());
}

#[test]
fn parse_no_minimum_rust_version() {
    let contents = r#"[package]
name = "some"
version = "0.1.0"
edition = "2018"

[dependencies]
"#;

    let manifest = parse_manifest(contents).unwrap();

    assert!(manifest.minimum_rust_version().is_none());
}

#[test]
fn parse_rust_version_three_components() {
    let contents = r#"[package]
name = "some"
version = "0.1.0"
edition = "2018"
rust-version = "1.56.0"

[dependencies]
"#;

    let manifest = parse_manifest(contents).unwrap();
    let version = manifest.minimum_rust_version().unwrap();

    assert_eq!(*version, BareVersion::ThreeComponents(1, 56, 0));
}

#[test]
fn parse_rust_version_three_components_with_pre_release() {
    let contents = r#"[package]
name = "some"
version = "0.1.0"
edition = "2018"
rust-version = "1.56.0-nightly"

[dependencies]
"#;

    let manifest = parse_manifest(contents).unwrap();
    let version = manifest.minimum_rust_version().unwrap();

    assert_eq!(*version, BareVersion::ThreeComponents(1, 56, 0));
}

#[test]
fn parse_rust_version_two_components() {
    let contents = r#"[package]
name = "some"
version = "0.1.0"
edition = "2018"
rust-version = "1.56"

[dependencies]
"#;

    let manifest = parse_manifest(contents).unwrap();
    let version = manifest.minimum_rust_version().unwrap();

    assert_eq!(*version, BareVersion::TwoComponents(1, 56));
}

#[test]
fn parse_rust_version_two_components_with_pre_release() {
    let contents = r#"[package]
name = "some"
version = "0.1.0"
edition = "2018"
rust-version = "1.56-nightly"

[dependencies]
"#;

    let manifest = parse_manifest(contents).unwrap();
    let version = manifest.minimum_rust_version().unwrap();

    assert_eq!(*version, BareVersion::TwoComponents(1, 56));
}

#[test]
fn parse_rust_version_faulty_versions() {
    let faulty = [
        "",
        "1",
        "1.",
        "1.1.",
        "1.1.1.",
        "1.x",
        "1.1.x",
        "1.1.0.0",
    ];

    for version in faulty {
        let contents = format!(
            r#"[package]
name = "some"
version = "0.1.0"
edition = "2018"
rust-version = "{}"

[dependencies]
"#,
            version
        );

        let manifest = parse_manifest(&contents);

        assert!(manifest.is_err(), "expected a parse failure for {:?}", version);
    }
}

#[test]
fn parse_metadata_msrv_three_components() {
    let contents = r#"[package]
name = "some"
version = "0.1.0"
edition = "2018"

[package.metadata]
msrv = "1.51.0"

[dependencies]
"#;

    let manifest = parse_manifest(contents).unwrap();
    let version = manifest.minimum_rust_version().unwrap();

    assert_eq!(*version, BareVersion::ThreeComponents(1, 51, 0));
}

#[test]
fn parse_metadata_msrv_two_components() {
    let contents = r#"[package]
name = "some"
version = "0.1.0"
edition = "2018"

[package.metadata]
msrv = "1.51"

[dependencies]
"#;

    let manifest = parse_manifest(contents).unwrap();
    let version = manifest.minimum_rust_version().unwrap();

    assert_eq!(*version, BareVersion::TwoComponents(1, 51));
}

#[test]
fn parse_metadata_msrv_two_components_with_pre_release() {
    let contents = r#"[package]
name = "some"
version = "0.1.0"
edition = "2018"

[package.metadata]
msrv = "1.51-beta"

[dependencies]
"#;

    let manifest = parse_manifest(contents).unwrap();
    let version = manifest.minimum_rust_version().unwrap();

    assert_eq!(*version, BareVersion::TwoComponents(1, 51));
}

#[test]
fn parse_metadata_msrv_faulty_versions() {
    let faulty = [
        "",
        "1",
        "1.",
        "1.1.",
        "1.1.1.",
        "1.x",
        "1.1.x",
        "1.1.0.0",
    ];

    for version in faulty {
        let contents = format!(
            r#"[package]
name = "some"
version = "0.1.0"
edition = "2018"

[package.metadata]
msrv = "{}"

[dependencies]
"#,
            version
        );

        let manifest = parse_manifest(&contents);

        assert!(manifest.is_err(), "expected a parse failure for {:?}", version);
    }
}

#[test]
fn rust_version_preferred_over_metadata_msrv() {
    let contents = r#"[package]
name = "some"
version = "0.1.0"
edition = "2018"
rust-version = "1.56"

[package.metadata]
msrv = "1.51"

[dependencies]
"#;

    let manifest = parse_manifest(contents).unwrap();
    let version = manifest.minimum_rust_version().unwrap();

    assert_eq!(*version, BareVersion::TwoComponents(1, 56));
}

#[test]
fn malformed_declared_version_propagates_the_parse_error() {
    let contents = r#"[package]
name = "some"
version = "0.1.0"
edition = "2018"
rust-version = "1.x"

[dependencies]
"#;

    match parse_manifest(contents) {
        Err(CargoMSRVError::UnableToParseBareVersionNumber(token)) => {
            assert_eq!(token, "x");
        }
        other => panic!("unexpected result: {:?}", other),
    }
}
