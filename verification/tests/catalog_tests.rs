use cargo_msrv::catalog::ReleaseCatalog;
use cargo_msrv::version::{Release, Version};

fn v(major: u64, minor: u64, patch: u64) -> Version {
    Version::new(major, minor, patch)
}

fn catalog_of(versions: &[Version]) -> ReleaseCatalog {
    let releases: Vec<Release> = versions.iter().map(|&ver| Release::new_stable(ver)).collect();
    ReleaseCatalog::from_releases(&releases)
}

fn versions_of(catalog: &ReleaseCatalog) -> Vec<Version> {
    catalog.versions()
}

#[test]
fn from_releases_sorts_descending_and_dedups() {
    let catalog = catalog_of(&[
        v(1, 54, 1),
        v(1, 0, 0),
        v(1, 55, 0),
        v(1, 54, 1),
        v(2, 56, 0),
        v(1, 54, 0),
    ]);

    assert_eq!(
        versions_of(&catalog),
        vec![v(2, 56, 0), v(1, 55, 0), v(1, 54, 1), v(1, 54, 0), v(1, 0, 0)]
    );
}

#[test]
fn bounds_filtering_keeps_inclusive_range() {
    // The catalog of the bounds-filtering scenario.
    let catalog = catalog_of(&[
        v(1, 0, 0),
        v(1, 54, 0),
        v(1, 54, 1),
        v(1, 55, 0),
        v(2, 56, 0),
    ]);

    let bounded = catalog.filter_by_bounds(Some(v(1, 54, 0)), Some(v(1, 55, 0)));
    assert_eq!(
        versions_of(&bounded),
        vec![v(1, 55, 0), v(1, 54, 1), v(1, 54, 0)]
    );
}

#[test]
fn bounds_filtering_then_patch_collapse() {
    let catalog = catalog_of(&[
        v(1, 0, 0),
        v(1, 54, 0),
        v(1, 54, 1),
        v(1, 55, 0),
        v(2, 56, 0),
    ]);

    let narrowed = catalog.narrow(Some(v(1, 54, 0)), Some(v(1, 55, 0)), false);
    assert_eq!(versions_of(&narrowed), vec![v(1, 55, 0), v(1, 54, 1)]);

    let kept_all = catalog.narrow(Some(v(1, 54, 0)), Some(v(1, 55, 0)), true);
    assert_eq!(
        versions_of(&kept_all),
        vec![v(1, 55, 0), v(1, 54, 1), v(1, 54, 0)]
    );
}

#[test]
fn collapse_patches_keeps_newest_per_minor_line() {
    let catalog = catalog_of(&[
        v(1, 54, 0),
        v(1, 54, 1),
        v(1, 54, 2),
        v(1, 55, 0),
        v(1, 55, 3),
        v(2, 0, 0),
    ]);

    let collapsed = catalog.collapse_patches();
    assert_eq!(
        versions_of(&collapsed),
        vec![v(2, 0, 0), v(1, 55, 3), v(1, 54, 2)]
    );
}

#[test]
fn versions_ascending_reverses_catalog_order() {
    let catalog = catalog_of(&[v(1, 54, 0), v(1, 55, 0), v(1, 0, 0)]);
    assert_eq!(
        catalog.versions_ascending(),
        vec![v(1, 0, 0), v(1, 54, 0), v(1, 55, 0)]
    );
}

#[test]
fn empty_bounds_leave_no_candidates() {
    let catalog = catalog_of(&[v(1, 54, 0), v(1, 55, 0)]);
    let bounded = catalog.filter_by_bounds(Some(v(2, 0, 0)), None);
    assert!(bounded.is_empty());
}
