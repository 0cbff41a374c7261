use cargo_msrv::catalog::ReleaseCatalog;
use cargo_msrv::check::classify_check;
use cargo_msrv::config::ModeIntent;
use cargo_msrv::errors::CargoMSRVError;
use cargo_msrv::manifest::{parse_bare_version, BareVersion};
use cargo_msrv::reporter::Event;
use cargo_msrv::search::{SearchEngine, SearchResult};
use cargo_msrv::version::{Release, Version};

fn v(major: u64, minor: u64, patch: u64) -> Version {
    Version::new(major, minor, patch)
}

fn catalog_of(versions: &[Version]) -> ReleaseCatalog {
    let releases: Vec<Release> = versions.iter().map(|&ver| Release::new_stable(ver)).collect();
    ReleaseCatalog::from_releases(&releases)
}

/// Drives an engine against an oracle; returns the result, the number of
/// checks performed, and every event emitted after the opening ones.
fn drive(
    mut engine: SearchEngine,
    mut oracle: impl FnMut(Version) -> bool,
) -> (SearchResult, usize, Vec<Event>) {
    let mut checks = 0;
    let mut events = Vec::new();
    while !engine.is_finished() {
        let target = engine.current_target().unwrap();
        let passed = oracle(target);
        events.extend(engine.step(passed));
        checks += 1;
        assert!(checks <= 10_000, "the search does not terminate");
    }
    (engine.result().unwrap(), checks, events)
}

fn ceil_log2(mut n: usize) -> usize {
    let mut bound = 0;
    while n > 1 {
        n = (n + 1) / 2;
        bound += 1;
    }
    bound
}

#[test]
fn matcher_two_components_takes_first_in_iteration_order() {
    // Tilde semantics accept any 1.54.x; the first match in newest-first
    // iteration order is the highest 1.54 patch.
    let catalog = catalog_of(&[v(1, 54, 0), v(1, 54, 1), v(1, 54, 2), v(1, 55, 0)]);
    let available = catalog.versions();

    let resolved = BareVersion::TwoComponents(1, 54).try_to_semver(&available).unwrap();
    assert_eq!(resolved, v(1, 54, 2));
}

#[test]
fn matcher_three_components_stays_within_minor_line() {
    let catalog = catalog_of(&[v(1, 54, 0), v(1, 54, 1), v(1, 54, 2), v(1, 55, 0)]);
    let available = catalog.versions();

    let resolved = BareVersion::ThreeComponents(1, 54, 1).try_to_semver(&available).unwrap();
    assert_eq!(resolved.major, 1);
    assert_eq!(resolved.minor, 54);
    assert!(resolved.patch >= 1);
    assert_ne!(resolved, v(1, 55, 0));
}

#[test]
fn verify_passing_check() {
    let catalog = catalog_of(&[v(1, 55, 0), v(1, 56, 0), v(1, 57, 0)]);
    let declared = parse_bare_version("1.56.0").unwrap();
    let resolved = declared.try_to_semver(&catalog.versions()).unwrap();
    assert_eq!(resolved, v(1, 56, 0));

    let (engine, opening) = SearchEngine::new_verify(resolved);
    assert_eq!(
        opening,
        vec![
            Event::ModeAnnounced(ModeIntent::VerifyMSRV),
            Event::StepsSet(1)
        ]
    );
    let (result, checks, events) = drive(engine, |_| true);
    assert_eq!(result, SearchResult::VerificationPassed);
    assert_eq!(checks, 1);
    assert_eq!(
        events,
        vec![
            Event::StepCompleted(v(1, 56, 0), true),
            Event::FinishedSuccess(ModeIntent::VerifyMSRV, v(1, 56, 0))
        ]
    );
}

#[test]
fn verify_failing_check() {
    let (engine, _) = SearchEngine::new_verify(v(1, 56, 0));
    let (result, checks, events) = drive(engine, |_| false);
    assert_eq!(result, SearchResult::VerificationFailed(v(1, 56, 0)));
    assert_eq!(checks, 1);
    assert_eq!(
        events,
        vec![
            Event::StepCompleted(v(1, 56, 0), false),
            Event::FinishedFailure(ModeIntent::VerifyMSRV)
        ]
    );
}

#[test]
fn verify_absent_version_is_resolution_error_not_check_failure() {
    let catalog = catalog_of(&[v(1, 55, 0), v(1, 57, 0)]);
    let declared = parse_bare_version("1.56.0").unwrap();
    let res = declared.try_to_semver(&catalog.versions());
    assert!(matches!(
        res,
        Err(CargoMSRVError::NoVersionMatchesManifestMSRV(_, _))
    ));
}

#[test]
fn determine_all_failing_catalog_yields_no_candidate() {
    let candidates: Vec<Version> = (0..7).map(|minor| v(1, 50 + minor, 0)).collect();
    let (engine, _) = SearchEngine::new_determine_bisect(candidates.clone()).unwrap();
    let (result, checks, events) = drive(engine, |_| false);

    assert_eq!(result, SearchResult::NoCandidateSatisfies);
    assert!(checks <= ceil_log2(candidates.len() + 1));

    let failures = events
        .iter()
        .filter(|e| matches!(e, Event::FinishedFailure(_)))
        .count();
    assert_eq!(failures, 1);
    let successes = events
        .iter()
        .filter(|e| matches!(e, Event::FinishedSuccess(_, _)))
        .count();
    assert_eq!(successes, 0);
}

#[test]
fn bisection_finds_threshold_and_matches_linear() {
    let candidates: Vec<Version> = (0..10).map(|minor| v(1, 40 + minor, 0)).collect();

    for threshold in 0..=candidates.len() {
        let oracle = |version: Version| {
            threshold < candidates.len() && !version.lt(&candidates[threshold])
        };

        let (bisect, _) = SearchEngine::new_determine_bisect(candidates.clone()).unwrap();
        let (bisect_result, bisect_checks, _) = drive(bisect, oracle);

        let (linear, _) = SearchEngine::new_determine_linear(candidates.clone()).unwrap();
        let (linear_result, linear_checks, _) = drive(linear, oracle);

        let expected = if threshold < candidates.len() {
            SearchResult::MinimalVersionFound(candidates[threshold])
        } else {
            SearchResult::NoCandidateSatisfies
        };
        assert_eq!(bisect_result, expected, "bisection, threshold {}", threshold);
        assert_eq!(linear_result, expected, "linear, threshold {}", threshold);
        assert_eq!(bisect_result, linear_result);

        assert!(
            bisect_checks <= ceil_log2(candidates.len() + 1),
            "threshold {}: {} checks",
            threshold,
            bisect_checks
        );
        assert!(linear_checks <= candidates.len() + 1);
    }
}

#[test]
fn determine_single_candidate() {
    let (engine, opening) = SearchEngine::new_determine_bisect(vec![v(1, 54, 0)]).unwrap();
    assert_eq!(
        opening,
        vec![
            Event::ModeAnnounced(ModeIntent::DetermineMSRV),
            Event::StepsSet(1)
        ]
    );
    let (result, checks, _) = drive(engine, |_| true);
    assert_eq!(result, SearchResult::MinimalVersionFound(v(1, 54, 0)));
    assert_eq!(checks, 1);
}

#[test]
fn determine_lowest_candidate_passing_needs_no_probe_above() {
    let candidates = vec![v(1, 50, 0), v(1, 51, 0), v(1, 52, 0)];
    let (engine, _) = SearchEngine::new_determine_linear(candidates).unwrap();
    let (result, checks, _) = drive(engine, |_| true);
    assert_eq!(result, SearchResult::MinimalVersionFound(v(1, 50, 0)));
    assert_eq!(checks, 1);
}

#[test]
fn empty_candidates_are_a_fatal_resolution_error() {
    assert!(matches!(
        SearchEngine::new_determine_bisect(Vec::new()),
        Err(CargoMSRVError::NoCandidatesInRange)
    ));
    assert!(matches!(
        SearchEngine::new_determine_linear(Vec::new()),
        Err(CargoMSRVError::NoCandidatesInRange)
    ));
}

#[test]
fn classify_install_failure_is_fatal() {
    let res = classify_check(v(1, 54, 0), false, Some(0), String::new());
    assert!(matches!(
        res,
        Err(CargoMSRVError::ToolchainInstallFailed(ver)) if ver == v(1, 54, 0)
    ));
}

#[test]
fn classify_zero_exit_passes() {
    let outcome = classify_check(v(1, 54, 0), true, Some(0), String::from("ok")).unwrap();
    assert_eq!(outcome.version, v(1, 54, 0));
    assert!(outcome.passed);
    assert_eq!(outcome.diagnostic, "ok");
}

#[test]
fn classify_nonzero_exit_fails_without_aborting() {
    let outcome = classify_check(v(1, 54, 0), true, Some(101), String::from("boom")).unwrap();
    assert!(!outcome.passed);
    assert_eq!(outcome.diagnostic, "boom");
}

#[test]
fn classify_unrunnable_command_fails_without_aborting() {
    let outcome = classify_check(v(1, 54, 0), true, None, String::new()).unwrap();
    assert!(!outcome.passed);
}
