use cargo_msrv::config::{CmdMatches, CmdMatchesBuilder};
use cargo_msrv::version::Version;

fn v(major: u64, minor: u64, patch: u64) -> Version {
    Version::new(major, minor, patch)
}

#[test]
fn new_config_has_defaults() {
    let config = CmdMatches::new(String::from("x86_64-unknown-linux-gnu"));
    assert_eq!(config.target(), "x86_64-unknown-linux-gnu");
    assert_eq!(config.check_command(), &vec![
        String::from("cargo"),
        String::from("build"),
        String::from("--all")
    ]);
    assert!(config.seek_path().is_none());
    assert!(!config.include_all_patch_releases());
    assert!(config.minimum_version().is_none());
    assert!(config.maximum_version().is_none());
}

#[test]
fn builder_sets_every_field() {
    let config = CmdMatchesBuilder::new("default-target")
        .target("other-target")
        .check_command(vec![String::from("cargo"), String::from("test")])
        .seek_path(Some("Cargo.toml"))
        .include_all_patch_releases(true)
        .minimum_version(Some(v(1, 54, 0)))
        .maximum_version(Some(v(1, 56, 0)))
        .build();

    assert_eq!(config.target(), "other-target");
    assert_eq!(config.check_command(), &vec![
        String::from("cargo"),
        String::from("test")
    ]);
    assert_eq!(config.seek_path().unwrap(), "Cargo.toml");
    assert!(config.include_all_patch_releases());
    assert_eq!(config.minimum_version(), Some(&v(1, 54, 0)));
    assert_eq!(config.maximum_version(), Some(&v(1, 56, 0)));
}

#[test]
fn builder_keeps_unset_fields_at_defaults() {
    let config = CmdMatchesBuilder::new("default-target").build();
    assert_eq!(config.target(), "default-target");
    assert!(config.seek_path().is_none());
    assert!(config.minimum_version().is_none());
    assert!(config.maximum_version().is_none());
}

#[test]
fn version_ordering_is_component_wise() {
    assert!(v(1, 54, 2).lt(&v(1, 55, 0)));
    assert!(v(1, 54, 0).lt(&v(1, 54, 1)));
    assert!(v(1, 54, 0).lt(&v(2, 0, 0)));
    assert!(!v(2, 0, 0).lt(&v(1, 99, 99)));
    assert!(v(1, 54, 0).le(&v(1, 54, 0)));
    assert!(!v(1, 54, 1).le(&v(1, 54, 0)));
}
