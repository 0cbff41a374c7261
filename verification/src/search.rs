//! The search engine: finds the minimal passing version over an ascending
//! candidate list by exhaustive linear scan or monotonicity-assuming
//! bisection, or verifies one resolved version.
//!
//! Each check is an expensive external install-and-run cycle, so the engine
//! is a step machine: it names the candidate to probe, the caller performs
//! the check, and `step` folds the pass/fail answer into the search state
//! and yields the events to report. A failing check is ordinary search
//! data; only the caller's infrastructure failures abort a run.

use vstd::prelude::*;
use crate::config::ModeIntent;
use crate::errors::CargoMSRVError;
use crate::reporter::{count_terminal, is_terminal_event, lemma_count_terminal_add, Event, ProgressAction};
use crate::version::Version;

verus! {

/// The terminal value of a run.
#[derive(Clone, Copy, Debug, PartialEq, Eq, Structural)]
pub enum SearchResult {
    MinimalVersionFound(Version),
    VerificationPassed,
    VerificationFailed(Version),
    NoCandidateSatisfies,
}

/// Where a search stands, over ascending candidate indices.
#[derive(Clone, Copy, Debug, PartialEq, Eq, Structural)]
pub enum SearchStep {
    /// Bisection window `[lo, hi]`. `hi_passed` records that the candidate
    /// at `hi` is known to pass; until a pass is seen, `hi` stays at the
    /// top of the catalog. When `lo == hi` with `hi` untested, that single
    /// candidate is probed directly.
    Bisect { lo: usize, hi: usize, hi_passed: bool },
    /// Ascending linear scan, currently probing `idx`.
    Linear { idx: usize },
    /// A single verification probe of `idx`.
    Verify { idx: usize },
    Finished(SearchResult),
}

/// The candidate index a live state probes.
pub open spec fn spec_probe_index(s: SearchStep) -> int {
    match s {
        SearchStep::Bisect { lo, hi, .. } => if lo < hi {
            lo + (hi - lo) / 2
        } else {
            lo as int
        },
        SearchStep::Linear { idx } => idx as int,
        SearchStep::Verify { idx } => idx as int,
        SearchStep::Finished(_) => arbitrary(),
    }
}

/// A state is well formed over `n` candidates.
pub open spec fn step_wf(s: SearchStep, n: int) -> bool {
    match s {
        SearchStep::Bisect { lo, hi, hi_passed } => lo <= hi < n && !(lo == hi && hi_passed),
        SearchStep::Linear { idx } => idx < n,
        SearchStep::Verify { idx } => idx < n,
        SearchStep::Finished(_) => true,
    }
}

/// The transition of the search on one pass/fail answer for the probed
/// candidate.
pub open spec fn spec_step(s: SearchStep, cs: Seq<Version>, passed: bool) -> SearchStep {
    match s {
        SearchStep::Bisect { lo, hi, hi_passed } => {
            if lo < hi {
                let mid = ((lo + (hi - lo) / 2) as usize);
                if passed {
                    if lo == mid {
                        SearchStep::Finished(SearchResult::MinimalVersionFound(cs[lo as int]))
                    } else {
                        SearchStep::Bisect { lo, hi: mid, hi_passed: true }
                    }
                } else {
                    if mid + 1 == hi && hi_passed {
                        SearchStep::Finished(SearchResult::MinimalVersionFound(cs[hi as int]))
                    } else {
                        SearchStep::Bisect { lo: ((mid + 1) as usize), hi, hi_passed }
                    }
                }
            } else {
                if passed {
                    SearchStep::Finished(SearchResult::MinimalVersionFound(cs[lo as int]))
                } else {
                    SearchStep::Finished(SearchResult::NoCandidateSatisfies)
                }
            }
        },
        SearchStep::Linear { idx } => {
            if passed {
                SearchStep::Finished(SearchResult::MinimalVersionFound(cs[idx as int]))
            } else if idx + 1 < cs.len() {
                SearchStep::Linear { idx: ((idx + 1) as usize) }
            } else {
                SearchStep::Finished(SearchResult::NoCandidateSatisfies)
            }
        },
        SearchStep::Verify { idx } => {
            if passed {
                SearchStep::Finished(SearchResult::VerificationPassed)
            } else {
                SearchStep::Finished(SearchResult::VerificationFailed(cs[idx as int]))
            }
        },
        SearchStep::Finished(_) => s,
    }
}

/// The terminal event a finished run reports. `probe` is the candidate the
/// final step probed, which names the verified version on success.
pub open spec fn spec_terminal_event(mode: ModeIntent, probe: Version, res: SearchResult) -> Event {
    match res {
        SearchResult::MinimalVersionFound(v) => Event::FinishedSuccess(mode, v),
        SearchResult::VerificationPassed => Event::FinishedSuccess(mode, probe),
        SearchResult::VerificationFailed(_) => Event::FinishedFailure(mode),
        SearchResult::NoCandidateSatisfies => Event::FinishedFailure(mode),
    }
}

/// The events one step emits: the completed check, and — exactly when the
/// step finishes the run — the terminal event.
pub open spec fn spec_step_events(mode: ModeIntent, cs: Seq<Version>, s: SearchStep, passed:
    bool) -> Seq<Event> {
    let probe = cs[spec_probe_index(s)];
    match spec_step(s, cs, passed) {
        SearchStep::Finished(res) => seq![
            Event::StepCompleted(probe, passed),
            spec_terminal_event(mode, probe, res),
        ],
        _ => seq![Event::StepCompleted(probe, passed)],
    }
}

/// The search engine of one run. The candidates are ascending and the
/// engine owns the whole in-progress search state.
pub struct SearchEngine {
    mode: ModeIntent,
    candidates: Vec<Version>,
    state: SearchStep,
}

impl SearchEngine {
    pub closed spec fn spec_mode(&self) -> ModeIntent {
        self.mode
    }

    pub closed spec fn spec_candidates(&self) -> Seq<Version> {
        self.candidates@
    }

    pub closed spec fn spec_state(&self) -> SearchStep {
        self.state
    }

    pub open spec fn wf(&self) -> bool {
        step_wf(self.spec_state(), self.spec_candidates().len() as int)
    }

    pub open spec fn spec_finished(&self) -> bool {
        self.spec_state() is Finished
    }

    /// Begins a bisection run over ascending candidates. An empty candidate
    /// list is a fatal resolution error. The returned events announce the
    /// mode and the step total.
    pub fn new_determine_bisect(candidates: Vec<Version>) -> (r: Result<
        (SearchEngine, Vec<Event>),
        CargoMSRVError,
    >)
        ensures
            r is Ok <==> candidates@.len() > 0,
            r is Err ==> r matches Err(CargoMSRVError::NoCandidatesInRange),
            r matches Ok(p) ==> {
                &&& p.0.wf()
                &&& p.0.spec_mode() == ModeIntent::DetermineMSRV
                &&& p.0.spec_candidates() == candidates@
                &&& p.0.spec_state() == (SearchStep::Bisect {
                    lo: 0,
                    hi: ((candidates@.len() - 1) as usize),
                    hi_passed: false,
                })
                &&& p.1@ == seq![
                    Event::ModeAnnounced(ModeIntent::DetermineMSRV),
                    Event::StepsSet(candidates@.len() as u64),
                ]
            },
    {
        let n = candidates.len();
        if n == 0 {
            return Err(CargoMSRVError::NoCandidatesInRange);
        }
        let mut events: Vec<Event> = Vec::new();
        events.push(Event::ModeAnnounced(ModeIntent::DetermineMSRV));
        events.push(Event::StepsSet(n as u64));
        proof {
            assert(events@ =~= seq![
                Event::ModeAnnounced(ModeIntent::DetermineMSRV),
                Event::StepsSet(n as u64),
            ]);
        }
        let engine = SearchEngine {
            mode: ModeIntent::DetermineMSRV,
            candidates,
            state: SearchStep::Bisect { lo: 0, hi: n - 1, hi_passed: false },
        };
        Ok((engine, events))
    }

    /// Begins an exhaustive ascending linear run, the fallback when
    /// monotonicity cannot be assumed.
    pub fn new_determine_linear(candidates: Vec<Version>) -> (r: Result<
        (SearchEngine, Vec<Event>),
        CargoMSRVError,
    >)
        ensures
            r is Ok <==> candidates@.len() > 0,
            r is Err ==> r matches Err(CargoMSRVError::NoCandidatesInRange),
            r matches Ok(p) ==> {
                &&& p.0.wf()
                &&& p.0.spec_mode() == ModeIntent::DetermineMSRV
                &&& p.0.spec_candidates() == candidates@
                &&& p.0.spec_state() == (SearchStep::Linear { idx: 0 })
                &&& p.1@ == seq![
                    Event::ModeAnnounced(ModeIntent::DetermineMSRV),
                    Event::StepsSet(candidates@.len() as u64),
                ]
            },
    {
        let n = candidates.len();
        if n == 0 {
            return Err(CargoMSRVError::NoCandidatesInRange);
        }
        let mut events: Vec<Event> = Vec::new();
        events.push(Event::ModeAnnounced(ModeIntent::DetermineMSRV));
        events.push(Event::StepsSet(n as u64));
        proof {
            assert(events@ =~= seq![
                Event::ModeAnnounced(ModeIntent::DetermineMSRV),
                Event::StepsSet(n as u64),
            ]);
        }
        let engine = SearchEngine {
            mode: ModeIntent::DetermineMSRV,
            candidates,
            state: SearchStep::Linear { idx: 0 },
        };
        Ok((engine, events))
    }

    /// Begins a verification run: exactly one check of the already resolved
    /// version.
    pub fn new_verify(version: Version) -> (r: (SearchEngine, Vec<Event>))
        ensures
            r.0.wf(),
            r.0.spec_mode() == ModeIntent::VerifyMSRV,
            r.0.spec_candidates() == seq![version],
            r.0.spec_state() == (SearchStep::Verify { idx: 0 }),
            r.1@ == seq![Event::ModeAnnounced(ModeIntent::VerifyMSRV), Event::StepsSet(1u64)],
    {
        let mut candidates: Vec<Version> = Vec::new();
        candidates.push(version);
        let mut events: Vec<Event> = Vec::new();
        events.push(Event::ModeAnnounced(ModeIntent::VerifyMSRV));
        events.push(Event::StepsSet(1));
        proof {
            assert(candidates@ =~= seq![version]);
            assert(events@ =~= seq![
                Event::ModeAnnounced(ModeIntent::VerifyMSRV),
                Event::StepsSet(1u64),
            ]);
        }
        let engine = SearchEngine {
            mode: ModeIntent::VerifyMSRV,
            candidates,
            state: SearchStep::Verify { idx: 0 },
        };
        (engine, events)
    }

    fn probe_index(&self) -> (i: usize)
        requires
            self.wf(),
            !self.spec_finished(),
        ensures
            i as int == spec_probe_index(self.spec_state()),
            i < self.spec_candidates().len(),
    {
        match self.state {
            SearchStep::Bisect { lo, hi, .. } => if lo < hi {
                lo + (hi - lo) / 2
            } else {
                lo
            },
            SearchStep::Linear { idx } => idx,
            SearchStep::Verify { idx } => idx,
            SearchStep::Finished(_) => {
                proof {
                    assert(false);
                }
                0
            },
        }
    }

    pub fn is_finished(&self) -> (b: bool)
        ensures
            b == self.spec_finished(),
    {
        match self.state {
            SearchStep::Finished(_) => true,
            _ => false,
        }
    }

    /// The run's result, once the search has finished.
    pub fn result(&self) -> (r: Option<SearchResult>)
        ensures
            match self.spec_state() {
                SearchStep::Finished(res) => r == Some(res),
                _ => r is None,
            },
    {
        match self.state {
            SearchStep::Finished(res) => Some(res),
            _ => None,
        }
    }

    /// The candidate the caller must check next, or `None` once finished.
    pub fn current_target(&self) -> (r: Option<Version>)
        requires
            self.wf(),
        ensures
            !self.spec_finished() ==> r == Some(
                self.spec_candidates()[spec_probe_index(self.spec_state())],
            ),
            self.spec_finished() ==> r is None,
    {
        if self.is_finished() {
            None
        } else {
            let i = self.probe_index();
            Some(self.candidates[i])
        }
    }

    /// The progress event announcing the installation of the probed
    /// candidate's toolchain.
    pub fn installing_event(&self) -> (e: Event)
        requires
            self.wf(),
            !self.spec_finished(),
        ensures
            e == Event::Progress(
                ProgressAction::Installing(
                    self.spec_candidates()[spec_probe_index(self.spec_state())],
                ),
            ),
    {
        let i = self.probe_index();
        Event::Progress(ProgressAction::Installing(self.candidates[i]))
    }

    /// The progress event announcing the validation command run for the
    /// probed candidate.
    pub fn checking_event(&self) -> (e: Event)
        requires
            self.wf(),
            !self.spec_finished(),
        ensures
            e == Event::Progress(
                ProgressAction::Checking(
                    self.spec_candidates()[spec_probe_index(self.spec_state())],
                ),
            ),
    {
        let i = self.probe_index();
        Event::Progress(ProgressAction::Checking(self.candidates[i]))
    }

    /// Folds one pass/fail answer for the probed candidate into the search
    /// state, returning the events to report: the completed step and, when
    /// the run finishes, its single terminal event.
    pub fn step(&mut self, passed: bool) -> (events: Vec<Event>)
        requires
            old(self).wf(),
            !old(self).spec_finished(),
        ensures
            final(self).wf(),
            final(self).spec_mode() == old(self).spec_mode(),
            final(self).spec_candidates() == old(self).spec_candidates(),
            final(self).spec_state() == spec_step(
                old(self).spec_state(),
                old(self).spec_candidates(),
                passed,
            ),
            events@ == spec_step_events(
                old(self).spec_mode(),
                old(self).spec_candidates(),
                old(self).spec_state(),
                passed,
            ),
    {
        let probe_idx = self.probe_index();
        let probe = self.candidates[probe_idx];
        let n = self.candidates.len();
        let next: SearchStep = match self.state {
            SearchStep::Bisect { lo, hi, hi_passed } => {
                if lo < hi {
                    let mid = lo + (hi - lo) / 2;
                    if passed {
                        if lo == mid {
                            SearchStep::Finished(
                                SearchResult::MinimalVersionFound(self.candidates[lo]),
                            )
                        } else {
                            SearchStep::Bisect { lo, hi: mid, hi_passed: true }
                        }
                    } else {
                        if mid + 1 == hi && hi_passed {
                            SearchStep::Finished(
                                SearchResult::MinimalVersionFound(self.candidates[hi]),
                            )
                        } else {
                            SearchStep::Bisect { lo: mid + 1, hi, hi_passed }
                        }
                    }
                } else {
                    if passed {
                        SearchStep::Finished(SearchResult::MinimalVersionFound(self.candidates[lo]))
                    } else {
                        SearchStep::Finished(SearchResult::NoCandidateSatisfies)
                    }
                }
            },
            SearchStep::Linear { idx } => {
                if passed {
                    SearchStep::Finished(SearchResult::MinimalVersionFound(self.candidates[idx]))
                } else if idx + 1 < n {
                    SearchStep::Linear { idx: idx + 1 }
                } else {
                    SearchStep::Finished(SearchResult::NoCandidateSatisfies)
                }
            },
            SearchStep::Verify { idx } => {
                if passed {
                    SearchStep::Finished(SearchResult::VerificationPassed)
                } else {
                    SearchStep::Finished(SearchResult::VerificationFailed(self.candidates[idx]))
                }
            },
            SearchStep::Finished(res) => {
                proof {
                    assert(false);
                }
                SearchStep::Finished(res)
            },
        };
        self.state = next;
        let mut events: Vec<Event> = Vec::new();
        events.push(Event::StepCompleted(probe, passed));
        match next {
            SearchStep::Finished(res) => {
                let terminal = match res {
                    SearchResult::MinimalVersionFound(v) => Event::FinishedSuccess(self.mode, v),
                    SearchResult::VerificationPassed => Event::FinishedSuccess(self.mode, probe),
                    SearchResult::VerificationFailed(_) => Event::FinishedFailure(self.mode),
                    SearchResult::NoCandidateSatisfies => Event::FinishedFailure(self.mode),
                };
                events.push(terminal);
                proof {
                    assert(events@ =~= spec_step_events(
                        old(self).spec_mode(),
                        old(self).spec_candidates(),
                        old(self).spec_state(),
                        passed,
                    ));
                }
            },
            _ => {
                proof {
                    assert(events@ =~= spec_step_events(
                        old(self).spec_mode(),
                        old(self).spec_candidates(),
                        old(self).spec_state(),
                        passed,
                    ));
                }
            },
        }
        events
    }
}

// ---------------------------------------------------------------------------
// Laws of the search.
//
// The step machine above is deterministic, so a whole run against any
// oracle — any assignment of pass/fail to the probed candidates — is a spec
// function of the start state. The laws below describe complete runs:
// bisection finds exactly the threshold of a monotonic oracle within a
// logarithmic number of checks, agrees with the exhaustive linear scan, and
// every completed run emits exactly one terminal event.
// ---------------------------------------------------------------------------

/// The state after up to `fuel` steps, when every probe of index `i` is
/// answered `oracle(i)`. Each step is exactly one check, so reaching a
/// finished state within `fuel` steps means at most `fuel` checks.
pub open spec fn spec_run(s: SearchStep, cs: Seq<Version>, oracle: spec_fn(int) -> bool, fuel:
    nat) -> SearchStep
    decreases fuel,
{
    if fuel == 0 || s is Finished {
        s
    } else {
        spec_run(spec_step(s, cs, oracle(spec_probe_index(s))), cs, oracle, (fuel - 1) as nat)
    }
}

/// All events of such a run, in emission order.
pub open spec fn spec_run_events(mode: ModeIntent, s: SearchStep, cs: Seq<Version>, oracle:
    spec_fn(int) -> bool, fuel: nat) -> Seq<Event>
    decreases fuel,
{
    if fuel == 0 || s is Finished {
        Seq::empty()
    } else {
        spec_step_events(mode, cs, s, oracle(spec_probe_index(s))) + spec_run_events(
            mode,
            spec_step(s, cs, oracle(spec_probe_index(s))),
            cs,
            oracle,
            (fuel - 1) as nat,
        )
    }
}

/// A monotonic oracle over `n` candidates with threshold `k`: checks pass
/// exactly from candidate index `k` upward. `k == n` means no candidate
/// passes.
pub open spec fn monotonic_from(oracle: spec_fn(int) -> bool, k: int, n: int) -> bool {
    0 <= k <= n && forall|i: int| 0 <= i < n ==> ((#[trigger] oracle(i)) <==> i >= k)
}

/// The result a threshold-`k` oracle owes: the threshold candidate, or no
/// candidate at all.
pub open spec fn threshold_result(cs: Seq<Version>, k: int) -> SearchResult {
    if k < cs.len() {
        SearchResult::MinimalVersionFound(cs[k])
    } else {
        SearchResult::NoCandidateSatisfies
    }
}

/// Ceiling of the base-2 logarithm, 0 for arguments up to 1.
pub open spec fn clog2(a: int) -> nat
    decreases a,
{
    if a <= 1 {
        0
    } else {
        (1 + clog2((a + 1) / 2)) as nat
    }
}

/// How many distinct answers are still possible from a live bisection
/// state: the candidates of the window, plus the no-candidate answer while
/// the window's top is untested.
pub open spec fn bisect_measure(s: SearchStep) -> int {
    match s {
        SearchStep::Bisect { lo, hi, hi_passed } => hi - lo + 1 + if hi_passed {
            0int
        } else {
            1int
        },
        _ => 1,
    }
}

/// The invariant bisection maintains against a threshold-`k` oracle: every
/// candidate below the window fails, the window's top passes once tested,
/// and the top stays at the catalog's end until a pass is seen.
pub open spec fn bisect_inv(s: SearchStep, k: int, n: int) -> bool {
    match s {
        SearchStep::Bisect { lo, hi, hi_passed } => {
            &&& lo <= hi < n
            &&& !(lo == hi && hi_passed)
            &&& lo <= k
            &&& (hi_passed ==> k <= hi)
            &&& (!hi_passed ==> hi == n - 1)
        },
        _ => false,
    }
}

/// Once a run has finished, more fuel does not change it.
proof fn lemma_run_fuel_mono(s: SearchStep, cs: Seq<Version>, oracle: spec_fn(int) -> bool, f1:
    nat, f2: nat)
    requires
        f1 <= f2,
        spec_run(s, cs, oracle, f1) is Finished,
    ensures
        spec_run(s, cs, oracle, f2) == spec_run(s, cs, oracle, f1),
    decreases f1,
{
    if s is Finished {
    } else {
        assert(f1 > 0);
        let s2 = spec_step(s, cs, oracle(spec_probe_index(s)));
        lemma_run_fuel_mono(s2, cs, oracle, (f1 - 1) as nat, (f2 - 1) as nat);
    }
}

proof fn lemma_clog2_mono(a: int, b: int)
    requires
        a <= b,
    ensures
        clog2(a) <= clog2(b),
    decreases b,
{
    if b <= 1 {
    } else if a <= 1 {
    } else {
        lemma_clog2_mono((a + 1) / 2, (b + 1) / 2);
    }
}

/// The bisection induction: from any state satisfying the invariant, the
/// run finishes with the threshold result, within `clog2` of the measure.
proof fn lemma_bisect_run(s: SearchStep, cs: Seq<Version>, oracle: spec_fn(int) -> bool, k: int)
    requires
        cs.len() <= usize::MAX,
        monotonic_from(oracle, k, cs.len() as int),
        bisect_inv(s, k, cs.len() as int),
    ensures
        spec_run(s, cs, oracle, clog2(bisect_measure(s))) == SearchStep::Finished(
            threshold_result(cs, k),
        ),
    decreases bisect_measure(s),
{
    let n = cs.len() as int;
    match s {
        SearchStep::Bisect { lo, hi, hi_passed } => {
            let m = bisect_measure(s);
            let probe = spec_probe_index(s);
            let passed = oracle(probe);
            let s2 = spec_step(s, cs, passed);
            let fuel = clog2(m);
            assert(m >= 2);
            assert(fuel == 1 + clog2((m + 1) / 2));
            assert(spec_run(s, cs, oracle, fuel) == spec_run(s2, cs, oracle, (fuel - 1) as nat));
            if lo < hi {
                let midi = lo + (hi - lo) / 2;
                let mid = ((lo + (hi - lo) / 2) as usize);
                assert(lo <= midi < hi);
                assert(mid as int == midi);
                assert(probe == midi);
                assert(passed <==> midi >= k);
                if passed {
                    assert(k <= midi);
                    if lo == mid {
                        assert(k == lo);
                        assert(s2 == SearchStep::Finished(threshold_result(cs, k)));
                        assert(spec_run(s2, cs, oracle, (fuel - 1) as nat) == s2);
                    } else {
                        let s2m = bisect_measure(s2);
                        assert(s2 == SearchStep::Bisect { lo, hi: mid, hi_passed: true });
                        assert(bisect_inv(s2, k, n));
                        assert(s2m <= (m + 1) / 2);
                        assert(s2m < m);
                        lemma_bisect_run(s2, cs, oracle, k);
                        lemma_clog2_mono(s2m, (m + 1) / 2);
                        lemma_run_fuel_mono(s2, cs, oracle, clog2(s2m), (fuel - 1) as nat);
                    }
                } else {
                    assert(k >= midi + 1);
                    if mid + 1 == hi && hi_passed {
                        assert(k == hi as int);
                        assert(s2 == SearchStep::Finished(threshold_result(cs, k)));
                        assert(spec_run(s2, cs, oracle, (fuel - 1) as nat) == s2);
                    } else {
                        let s2m = bisect_measure(s2);
                        assert(s2 == SearchStep::Bisect {
                            lo: ((midi + 1) as usize),
                            hi,
                            hi_passed,
                        });
                        assert(bisect_inv(s2, k, n));
                        assert(s2m <= (m + 1) / 2);
                        assert(s2m < m);
                        lemma_bisect_run(s2, cs, oracle, k);
                        lemma_clog2_mono(s2m, (m + 1) / 2);
                        lemma_run_fuel_mono(s2, cs, oracle, clog2(s2m), (fuel - 1) as nat);
                    }
                }
            } else {
                // The last untested candidate, at the catalog's end.
                assert(!hi_passed && hi as int == n - 1);
                assert(probe == lo as int);
                assert(passed <==> lo as int >= k);
                if passed {
                    assert(k == lo as int);
                } else {
                    assert(k == n);
                }
                assert(s2 == SearchStep::Finished(threshold_result(cs, k)));
                assert(spec_run(s2, cs, oracle, (fuel - 1) as nat) == s2);
            }
        },
        _ => {
            assert(false);
        },
    }
}

/// Bisection over the whole ascending catalog finds exactly the threshold
/// of a monotonic oracle — the lowest passing candidate, or no candidate at
/// all when none passes — using at most ceiling(log2(n + 1)) checks for a
/// catalog of n candidates.
pub proof fn lemma_bisection_finds_threshold(cs: Seq<Version>, oracle: spec_fn(int) -> bool, k:
    int)
    requires
        1 <= cs.len() <= usize::MAX,
        monotonic_from(oracle, k, cs.len() as int),
    ensures
        spec_run(
            SearchStep::Bisect { lo: 0, hi: ((cs.len() - 1) as usize), hi_passed: false },
            cs,
            oracle,
            clog2(cs.len() as int + 1),
        ) == SearchStep::Finished(threshold_result(cs, k)),
{
    let s = SearchStep::Bisect { lo: 0, hi: ((cs.len() - 1) as usize), hi_passed: false };
    assert(bisect_measure(s) == cs.len() as int + 1);
    lemma_bisect_run(s, cs, oracle, k);
}

/// The linear induction: from candidate `idx`, with everything below known
/// to fail, the ascending scan finishes with the threshold result.
proof fn lemma_linear_run(idx: usize, cs: Seq<Version>, oracle: spec_fn(int) -> bool, k: int)
    requires
        cs.len() <= usize::MAX,
        monotonic_from(oracle, k, cs.len() as int),
        idx as int <= k,
        (idx as int) < cs.len(),
    ensures
        spec_run(SearchStep::Linear { idx }, cs, oracle, (cs.len() - idx as int) as nat)
            == SearchStep::Finished(threshold_result(cs, k)),
    decreases cs.len() - idx as int,
{
    let n = cs.len() as int;
    let s = SearchStep::Linear { idx };
    let passed = oracle(idx as int);
    let s2 = spec_step(s, cs, passed);
    let fuel = (n - idx as int) as nat;
    assert(spec_run(s, cs, oracle, fuel) == spec_run(s2, cs, oracle, (fuel - 1) as nat));
    assert(passed <==> idx as int >= k);
    if passed {
        assert(idx as int == k);
        assert(s2 == SearchStep::Finished(threshold_result(cs, k)));
        assert(spec_run(s2, cs, oracle, (fuel - 1) as nat) == s2);
    } else {
        assert((idx as int) < k);
        if (idx as int) + 1 < n {
            assert(s2 == SearchStep::Linear { idx: ((idx + 1) as usize) });
            lemma_linear_run((idx + 1) as usize, cs, oracle, k);
        } else {
            assert(k == n);
            assert(s2 == SearchStep::Finished(threshold_result(cs, k)));
            assert(spec_run(s2, cs, oracle, (fuel - 1) as nat) == s2);
        }
    }
}

/// The exhaustive ascending scan stops at the first passing candidate: on a
/// monotonic oracle it finds exactly the threshold, within n checks.
pub proof fn lemma_linear_finds_threshold(cs: Seq<Version>, oracle: spec_fn(int) -> bool, k: int)
    requires
        1 <= cs.len() <= usize::MAX,
        monotonic_from(oracle, k, cs.len() as int),
    ensures
        spec_run(SearchStep::Linear { idx: 0 }, cs, oracle, cs.len() as nat)
            == SearchStep::Finished(threshold_result(cs, k)),
{
    lemma_linear_run(0, cs, oracle, k);
}

/// On any monotonic oracle, bisection and exhaustive linear search reach
/// the same result.
pub proof fn lemma_bisection_equals_linear(cs: Seq<Version>, oracle: spec_fn(int) -> bool, k: int)
    requires
        1 <= cs.len() <= usize::MAX,
        monotonic_from(oracle, k, cs.len() as int),
    ensures
        spec_run(
            SearchStep::Bisect { lo: 0, hi: ((cs.len() - 1) as usize), hi_passed: false },
            cs,
            oracle,
            clog2(cs.len() as int + 1),
        ) == spec_run(SearchStep::Linear { idx: 0 }, cs, oracle, cs.len() as nat),
{
    lemma_bisection_finds_threshold(cs, oracle, k);
    lemma_linear_finds_threshold(cs, oracle, k);
}

/// A run that ends emits exactly one terminal event, whatever the oracle:
/// the step that finishes the search contributes it, and no other step
/// contributes any.
pub proof fn lemma_run_emits_one_terminal(mode: ModeIntent, s: SearchStep, cs: Seq<Version>,
    oracle: spec_fn(int) -> bool, fuel: nat)
    requires
        !(s is Finished),
        spec_run(s, cs, oracle, fuel) is Finished,
    ensures
        count_terminal(spec_run_events(mode, s, cs, oracle, fuel)) == 1,
    decreases fuel,
{
    assert(fuel > 0);
    let passed = oracle(spec_probe_index(s));
    let s2 = spec_step(s, cs, passed);
    let es1 = spec_step_events(mode, cs, s, passed);
    let rest = spec_run_events(mode, s2, cs, oracle, (fuel - 1) as nat);
    lemma_count_terminal_add(es1, rest);
    let probe = cs[spec_probe_index(s)];
    let sc = Event::StepCompleted(probe, passed);
    assert(count_terminal(Seq::<Event>::empty()) == 0);
    if s2 is Finished {
        let res = s2->Finished_0;
        let term = spec_terminal_event(mode, probe, res);
        assert(es1 =~= seq![sc, term]);
        assert(es1.drop_last() =~= seq![sc]);
        assert(seq![sc].drop_last() =~= Seq::<Event>::empty());
        assert(seq![sc].last() == sc);
        assert(!is_terminal_event(sc));
        assert(count_terminal(seq![sc]) == 0);
        assert(es1.last() == term);
        assert(is_terminal_event(term));
        assert(count_terminal(es1) == count_terminal(
            es1.drop_last(),
        ) + 1);
        assert(count_terminal(es1) == 1);
        assert(rest =~= Seq::<Event>::empty());
        assert(count_terminal(rest) == 0);
    } else {
        assert(es1 =~= seq![sc]);
        assert(es1.drop_last() =~= Seq::<Event>::empty());
        assert(es1.last() == sc);
        assert(!is_terminal_event(sc));
        assert(count_terminal(es1) == count_terminal(
            es1.drop_last(),
        ));
        assert(count_terminal(es1) == 0);
        assert(spec_run(s2, cs, oracle, (fuel - 1) as nat) is Finished);
        lemma_run_emits_one_terminal(mode, s2, cs, oracle, (fuel - 1) as nat);
    }
}

} // verus!
