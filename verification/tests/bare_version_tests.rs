use cargo_msrv::errors::CargoMSRVError;
use cargo_msrv::manifest::{parse_bare_version, BareVersion};
use cargo_msrv::version::Version;

fn v(major: u64, minor: u64, patch: u64) -> Version {
    Version::new(major, minor, patch)
}

/// The available versions, newest first, as a release index would hand
/// them out.
fn release_versions() -> Vec<Version> {
    vec![
        v(2, 56, 0),
        v(1, 56, 0),
        v(1, 55, 0),
        v(1, 54, 2),
        v(1, 54, 1),
        v(1, 0, 0),
    ]
}

#[test]
fn try_from_ok() {
    let cases: Vec<(&str, BareVersion)> = vec![
        ("2.56", BareVersion::TwoComponents(2, 56)),
        ("2.56.0", BareVersion::ThreeComponents(2, 56, 0)),
        ("1.55", BareVersion::TwoComponents(1, 55)),
        ("1.55.0", BareVersion::ThreeComponents(1, 55, 0)),
        ("1.54.0", BareVersion::ThreeComponents(1, 54, 0)),
        ("1.54.1", BareVersion::ThreeComponents(1, 54, 1)),
        ("1.54.10", BareVersion::ThreeComponents(1, 54, 10)),
        ("0.0", BareVersion::TwoComponents(0, 0)),
        ("0.0.0", BareVersion::ThreeComponents(0, 0, 0)),
        (
            "18446744073709551615.0",
            BareVersion::TwoComponents(18446744073709551615, 0),
        ),
        (
            "0.18446744073709551615",
            BareVersion::TwoComponents(0, 18446744073709551615),
        ),
        (
            "18446744073709551615.0.0",
            BareVersion::ThreeComponents(18446744073709551615, 0, 0),
        ),
        (
            "0.18446744073709551615.0",
            BareVersion::ThreeComponents(0, 18446744073709551615, 0),
        ),
        (
            "0.0.18446744073709551615",
            BareVersion::ThreeComponents(0, 0, 18446744073709551615),
        ),
        ("0.0.0-nightly", BareVersion::ThreeComponents(0, 0, 0)),
        ("0.0.0-anything", BareVersion::ThreeComponents(0, 0, 0)),
        ("0.0.0-anything+build", BareVersion::ThreeComponents(0, 0, 0)),
        ("1.1-nightly", BareVersion::TwoComponents(1, 1)),
        ("0.0-nightly", BareVersion::TwoComponents(0, 0)),
        ("0.0-anything+build", BareVersion::TwoComponents(0, 0)),
    ];

    for (input, expected) in cases {
        let version = parse_bare_version(input).unwrap();
        assert_eq!(version, expected, "for input {:?}", input);
    }
}

#[test]
fn try_from_err() {
    let cases = [
        "",
        "1 36 0",
        "1,36,0",
        "x.0.0",
        "1.",
        "1.x",
        "1.0.",
        "1.36.x",
        "18446744073709551616.0",
        "0.18446744073709551616",
        "18446744073709551616.0.0",
        "0.18446744073709551616.0",
        "0.0.18446744073709551616",
        "-1.0.0",
        "0.-1.0",
        "0.0.-1",
        "0.0.0+some",
    ];

    for input in cases {
        let res = parse_bare_version(input);
        assert!(res.is_err(), "expected a parse failure for {:?}", input);
    }
}

#[test]
fn parse_round_trips_rendering() {
    let cases = [
        BareVersion::TwoComponents(0, 0),
        BareVersion::TwoComponents(1, 54),
        BareVersion::ThreeComponents(1, 54, 2),
        BareVersion::ThreeComponents(18446744073709551615, 0, 7),
    ];

    for bare in cases {
        let rendered = match &bare {
            BareVersion::TwoComponents(major, minor) => format!("{}.{}", major, minor),
            BareVersion::ThreeComponents(major, minor, patch) => {
                format!("{}.{}.{}", major, minor, patch)
            }
        };
        assert_eq!(parse_bare_version(&rendered).unwrap(), bare);
        let with_pre_release = format!("{}-nightly", rendered);
        assert_eq!(parse_bare_version(&with_pre_release).unwrap(), bare);
    }
}

#[test]
fn render_joins_components_with_dots() {
    assert_eq!(BareVersion::TwoComponents(1, 54).render(), "1.54");
    assert_eq!(BareVersion::ThreeComponents(1, 54, 2).render(), "1.54.2");
    assert_eq!(
        BareVersion::ThreeComponents(18446744073709551615, 0, 10).render(),
        "18446744073709551615.0.10"
    );
}

#[test]
fn bare_to_version_fills_missing_patch_with_zero() {
    assert_eq!(BareVersion::TwoComponents(1, 54).to_version(), v(1, 54, 0));
    assert_eq!(
        BareVersion::ThreeComponents(1, 54, 2).to_version(),
        v(1, 54, 2)
    );
}

#[test]
fn parse_error_names_offending_token() {
    match parse_bare_version("1.x") {
        Err(CargoMSRVError::UnableToParseBareVersionNumber(token)) => {
            assert_eq!(token, "x");
        },
        other => panic!("unexpected result: {:?}", other),
    }
}

#[test]
fn parse_error_missing_second_component() {
    match parse_bare_version("1") {
        Err(CargoMSRVError::UnableToParseBareVersion { version, message }) => {
            assert_eq!(version, "1");
            assert_eq!(message, "Couldn't find second component");
        },
        other => panic!("unexpected result: {:?}", other),
    }
}

#[test]
fn parse_error_trailing_components() {
    match parse_bare_version("1.2.3.4") {
        Err(CargoMSRVError::UnableToParseBareVersion { version, message }) => {
            assert_eq!(version, "1.2.3.4");
            assert_eq!(
                message,
                "Unexpected tokens at the end of version number: '4'"
            );
        },
        other => panic!("unexpected result: {:?}", other),
    }
}

#[test]
fn two_components_to_semver() {
    let cases = [
        (BareVersion::TwoComponents(2, 56), v(2, 56, 0)),
        (BareVersion::TwoComponents(1, 56), v(1, 56, 0)),
        (BareVersion::TwoComponents(1, 55), v(1, 55, 0)),
        (BareVersion::TwoComponents(1, 54), v(1, 54, 2)),
        (BareVersion::TwoComponents(1, 0), v(1, 0, 0)),
    ];

    let available = release_versions();
    for (version, expected) in cases {
        let got = version.try_to_semver(&available).unwrap();
        assert_eq!(got, expected, "for requirement {:?}", version);
    }
}

#[test]
fn three_components_to_semver() {
    let cases = [
        (BareVersion::ThreeComponents(2, 56, 0), v(2, 56, 0)),
        (BareVersion::ThreeComponents(1, 56, 0), v(1, 56, 0)),
        (BareVersion::ThreeComponents(1, 55, 0), v(1, 55, 0)),
        (BareVersion::ThreeComponents(1, 54, 2), v(1, 54, 2)),
        (BareVersion::ThreeComponents(1, 54, 1), v(1, 54, 2)),
        (BareVersion::ThreeComponents(1, 54, 0), v(1, 54, 2)),
        (BareVersion::ThreeComponents(1, 0, 0), v(1, 0, 0)),
    ];

    let available = release_versions();
    for (version, expected) in cases {
        let got = version.try_to_semver(&available).unwrap();
        assert_eq!(got, expected, "for requirement {:?}", version);
    }
}

#[test]
fn to_semver_error_carries_requirement_and_available() {
    let available = release_versions();
    let missing = BareVersion::TwoComponents(1, 57);
    match missing.try_to_semver(&available) {
        Err(CargoMSRVError::NoVersionMatchesManifestMSRV(requirement, versions)) => {
            assert_eq!(requirement, missing);
            assert_eq!(versions, available);
        },
        other => panic!("unexpected result: {:?}", other),
    }
}
