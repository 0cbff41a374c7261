//! The release catalog: an ordered, deduplicated collection of concrete
//! released versions, newest first, narrowed by inclusive bounds and by
//! whether every patch release (rather than only the newest per minor line)
//! is kept as a candidate.

use vstd::prelude::*;
use crate::version::{Release, Version, spec_version_le, spec_version_lt};

verus! {

/// Strictly newest-first: every later entry has a strictly smaller version.
pub open spec fn strictly_descending(s: Seq<Release>) -> bool {
    forall|i: int, j: int|
        0 <= i < j < s.len() ==> spec_version_lt(
            #[trigger] s[j].spec_version(),
            #[trigger] s[i].spec_version(),
        )
}

/// Some entry of `s` carries version `v`.
pub open spec fn has_version(s: Seq<Release>, v: Version) -> bool {
    exists|i: int| 0 <= i < s.len() && (#[trigger] s[i]).spec_version() == v
}

/// `v` respects the optional inclusive minimum and maximum bounds.
pub open spec fn spec_in_bounds(v: Version, min: Option<Version>, max: Option<Version>) -> bool {
    (match min {
        Some(m) => spec_version_le(m, v),
        None => true,
    }) && (match max {
        Some(m) => spec_version_le(v, m),
        None => true,
    })
}

/// `a` and `b` lie on the same major.minor line.
pub open spec fn spec_same_minor(a: Version, b: Version) -> bool {
    a.major == b.major && a.minor == b.minor
}

/// `v` is the highest patch of its major.minor line within `s`.
pub open spec fn is_latest_patch_in(s: Seq<Release>, v: Version) -> bool {
    forall|w: Version| has_version(s, w) && spec_same_minor(v, w) ==> w.patch <= v.patch
}

/// An ordered, deduplicated (by version) collection of released versions,
/// strictly descending: the newest release comes first.
pub struct ReleaseCatalog {
    releases: Vec<Release>,
}

impl View for ReleaseCatalog {
    type V = Seq<Release>;

    closed spec fn view(&self) -> Seq<Release> {
        self.releases@
    }
}

/// Inserts `r` into a strictly descending list, keeping it strictly
/// descending; a release whose version is already present is dropped.
fn insert_release(releases: &mut Vec<Release>, r: Release)
    requires
        strictly_descending(old(releases)@),
    ensures
        strictly_descending(final(releases)@),
        forall|v: Version|
            has_version(final(releases)@, v) <==> (has_version(old(releases)@, v) || v
                == r.spec_version()),
        forall|k: int|
            0 <= k < final(releases)@.len() ==> old(releases)@.contains(final(releases)@[k])
                || final(releases)@[k] == r,
{
    let ghost orig = releases@;
    let mut pos: usize = 0;
    loop
        invariant_except_break
            releases@ == orig,
            strictly_descending(orig),
            0 <= pos <= orig.len(),
            forall|k: int|
                0 <= k < pos ==> spec_version_lt(
                    r.spec_version(),
                    #[trigger] orig[k].spec_version(),
                ),
        ensures
            releases@ == orig,
            0 <= pos <= orig.len(),
            forall|k: int|
                0 <= k < pos ==> spec_version_lt(
                    r.spec_version(),
                    #[trigger] orig[k].spec_version(),
                ),
            pos < orig.len() ==> spec_version_lt(orig[pos as int].spec_version(), r.spec_version()),
        decreases releases@.len() - pos,
    {
        if pos >= releases.len() {
            break ;
        }
        let cur = releases[pos].version();
        if cur == r.version() {
            // The version is already present: nothing to insert.
            proof {
                assert(orig[pos as int].spec_version() == r.spec_version());
                assert(has_version(orig, r.spec_version()));
                assert(forall|k: int|
                    0 <= k < orig.len() ==> orig.contains(#[trigger] orig[k]));
            }
            return ;
        }
        if cur.lt(&r.version()) {
            break ;
        }
        proof {
            assert(spec_version_lt(r.spec_version(), orig[pos as int].spec_version()));
        }
        pos = pos + 1;
    }
    releases.insert(pos, r);
    proof {
        let s = releases@;
        assert(s == orig.insert(pos as int, r));
        assert forall|i: int, j: int| 0 <= i < j < s.len() implies spec_version_lt(
            s[j].spec_version(),
            s[i].spec_version(),
        ) by {
            assert(forall|k: int| 0 <= k < pos ==> s[k] == orig[k]);
            assert(s[pos as int] == r);
            assert(forall|k: int| pos < k < s.len() ==> s[k] == orig[k - 1]);
            if i < pos && j == pos {
            } else if i == pos && j > pos {
                // orig[j-1] has an index >= pos in the old list, so its
                // version is below r's.
                if pos < orig.len() {
                    if j - 1 > pos {
                        assert(spec_version_lt(
                            orig[j - 1].spec_version(),
                            orig[pos as int].spec_version(),
                        ));
                    }
                }
            } else {
            }
        }
        assert forall|v: Version| has_version(s, v) implies (has_version(orig, v) || v
            == r.spec_version()) by {
            let i = choose|i: int| 0 <= i < s.len() && (#[trigger] s[i]).spec_version() == v;
            if i < pos {
                assert(orig[i].spec_version() == v);
            } else if i > pos {
                assert(orig[i - 1].spec_version() == v);
            }
        }
        assert forall|v: Version| (has_version(orig, v) || v == r.spec_version()) implies
            has_version(s, v) by {
            if has_version(orig, v) {
                let i = choose|i: int|
                    0 <= i < orig.len() && (#[trigger] orig[i]).spec_version() == v;
                if i < pos {
                    assert(s[i].spec_version() == v);
                } else {
                    assert(s[i + 1].spec_version() == v);
                }
            } else {
                assert(s[pos as int].spec_version() == v);
            }
        }
        assert forall|k: int| 0 <= k < s.len() implies orig.contains(s[k]) || s[k] == r by {
            if k < pos {
                assert(s[k] == orig[k]);
            } else if k > pos {
                assert(s[k] == orig[k - 1]);
            }
        }
    }
}

impl ReleaseCatalog {
    /// The catalog is strictly descending by version, which also makes its
    /// versions unique.
    pub open spec fn wf(&self) -> bool {
        strictly_descending(self@)
    }

    /// Builds a catalog from an arbitrarily ordered collection of releases:
    /// deduplicated by version and sorted newest first. Which of several
    /// equal-versioned releases survives is unspecified.
    pub fn from_releases(input: &Vec<Release>) -> (c: ReleaseCatalog)
        ensures
            c.wf(),
            forall|v: Version| has_version(c@, v) <==> has_version(input@, v),
            forall|k: int| 0 <= k < c@.len() ==> input@.contains(c@[k]),
    {
        let mut releases: Vec<Release> = Vec::new();
        let mut i: usize = 0;
        while i < input.len()
            invariant
                0 <= i <= input@.len(),
                strictly_descending(releases@),
                forall|v: Version|
                    has_version(releases@, v) <==> has_version(input@.take(i as int), v),
                forall|k: int| 0 <= k < releases@.len() ==> input@.take(i as int).contains(releases@[k]),
            decreases input@.len() - i,
        {
            let ghost pre = releases@;
            let r = input[i];
            insert_release(&mut releases, r);
            proof {
                assert(input@.take(i as int + 1).drop_last() =~= input@.take(i as int));
                assert(input@.take(i as int + 1).last() == r);
                assert forall|v: Version| has_version(releases@, v) implies has_version(
                    input@.take(i as int + 1),
                    v,
                ) by {
                    if has_version(pre, v) {
                        let k = choose|k: int|
                            0 <= k < pre.len() && (#[trigger] pre[k]).spec_version() == v;
                        let j = choose|j: int|
                            0 <= j < input@.take(i as int).len() && input@.take(i as int)[j]
                                == pre[k];
                        assert(input@.take(i as int + 1)[j].spec_version() == v);
                    } else {
                        assert(v == r.spec_version());
                        assert(input@.take(i as int + 1)[i as int].spec_version() == v);
                    }
                }
                assert forall|v: Version| has_version(input@.take(i as int + 1), v) implies
                    has_version(releases@, v) by {
                    let j = choose|j: int|
                        0 <= j < input@.take(i as int + 1).len() && (#[trigger] input@.take(
                            i as int + 1,
                        )[j]).spec_version() == v;
                    if j < i {
                        assert(input@.take(i as int)[j].spec_version() == v);
                        assert(has_version(input@.take(i as int), v));
                    } else {
                        assert(v == r.spec_version());
                    }
                }
                assert forall|k: int| 0 <= k < releases@.len() implies input@.take(
                    i as int + 1,
                ).contains(releases@[k]) by {
                    if pre.contains(releases@[k]) {
                        let j = choose|j: int| 0 <= j < pre.len() && pre[j] == releases@[k];
                        let m = choose|m: int|
                            0 <= m < input@.take(i as int).len() && input@.take(i as int)[m]
                                == releases@[k];
                        assert(input@.take(i as int + 1)[m] == releases@[k]);
                    } else {
                        assert(releases@[k] == r);
                        assert(input@.take(i as int + 1)[i as int] == r);
                    }
                }
            }
            i = i + 1;
        }
        proof {
            assert(input@.take(input@.len() as int) =~= input@);
        }
        ReleaseCatalog { releases }
    }

    /// Keeps exactly the releases within the optional inclusive bounds.
    pub fn filter_by_bounds(&self, min: Option<Version>, max: Option<Version>) -> (c:
        ReleaseCatalog)
        requires
            self.wf(),
        ensures
            c.wf(),
            forall|v: Version|
                has_version(c@, v) <==> (has_version(self@, v) && spec_in_bounds(v, min, max)),
            forall|k: int| 0 <= k < c@.len() ==> self@.contains(c@[k]),
    {
        let mut out: Vec<Release> = Vec::new();
        let mut i: usize = 0;
        while i < self.releases.len()
            invariant
                0 <= i <= self@.len(),
                strictly_descending(self@),
                strictly_descending(out@),
                forall|v: Version|
                    has_version(out@, v) <==> (has_version(self@.take(i as int), v)
                        && spec_in_bounds(v, min, max)),
                forall|k: int|
                    0 <= k < out@.len() ==> exists|j: int|
                        0 <= j < i && #[trigger] out@[k] == self@[j],
            decreases self@.len() - i,
        {
            let ghost pre = out@;
            let r = self.releases[i];
            let ver = r.version();
            let keep_min = match min {
                Some(m) => m.le(&ver),
                None => true,
            };
            let keep_max = match max {
                Some(m) => ver.le(&m),
                None => true,
            };
            if keep_min && keep_max {
                out.push(r);
                proof {
                    assert(out@ == pre.push(r));
                    assert forall|a: int, b: int| 0 <= a < b < out@.len() implies spec_version_lt(
                        out@[b].spec_version(),
                        out@[a].spec_version(),
                    ) by {
                        if b == out@.len() - 1 {
                            let j = choose|j: int| 0 <= j < i && pre[a] == self@[j];
                            assert(spec_version_lt(
                                self@[i as int].spec_version(),
                                self@[j].spec_version(),
                            ));
                        }
                    }
                }
            }
            proof {
                assert(self@.take(i as int + 1).drop_last() =~= self@.take(i as int));
                assert(self@.take(i as int + 1).last() == r);
                assert forall|v: Version| has_version(out@, v) implies (has_version(
                    self@.take(i as int + 1),
                    v,
                ) && spec_in_bounds(v, min, max)) by {
                    let k = choose|k: int|
                        0 <= k < out@.len() && (#[trigger] out@[k]).spec_version() == v;
                    if k < pre.len() {
                        assert(has_version(pre, v));
                        let m = choose|m: int|
                            0 <= m < self@.take(i as int).len() && (#[trigger] self@.take(
                                i as int,
                            )[m]).spec_version() == v;
                        assert(self@.take(i as int + 1)[m].spec_version() == v);
                    } else {
                        assert(v == r.spec_version());
                        assert(self@.take(i as int + 1)[i as int].spec_version() == v);
                    }
                }
                assert forall|v: Version| (has_version(self@.take(i as int + 1), v)
                    && spec_in_bounds(v, min, max)) implies has_version(out@, v) by {
                    let m = choose|m: int|
                        0 <= m < self@.take(i as int + 1).len() && (#[trigger] self@.take(
                            i as int + 1,
                        )[m]).spec_version() == v;
                    if m < i {
                        assert(self@.take(i as int)[m].spec_version() == v);
                        assert(has_version(self@.take(i as int), v));
                        assert(has_version(pre, v));
                        let k = choose|k: int|
                            0 <= k < pre.len() && (#[trigger] pre[k]).spec_version() == v;
                        assert(out@[k].spec_version() == v);
                    } else {
                        assert(v == r.spec_version());
                        assert(out@[out@.len() - 1].spec_version() == v);
                    }
                }
            }
            i = i + 1;
        }
        proof {
            assert(self@.take(self@.len() as int) =~= self@);
            assert forall|k: int| 0 <= k < out@.len() implies self@.contains(out@[k]) by {
                let j = choose|j: int| 0 <= j < self@.len() && out@[k] == self@[j];
            }
        }
        ReleaseCatalog { releases: out }
    }

    /// Collapses each major.minor line to its single highest patch release.
    pub fn collapse_patches(&self) -> (c: ReleaseCatalog)
        requires
            self.wf(),
        ensures
            c.wf(),
            forall|v: Version|
                has_version(c@, v) <==> (has_version(self@, v) && is_latest_patch_in(self@, v)),
            forall|k: int| 0 <= k < c@.len() ==> self@.contains(c@[k]),
    {
        let mut out: Vec<Release> = Vec::new();
        let mut i: usize = 0;
        while i < self.releases.len()
            invariant
                0 <= i <= self@.len(),
                strictly_descending(self@),
                strictly_descending(out@),
                forall|v: Version|
                    has_version(out@, v) <==> (has_version(self@.take(i as int), v)
                        && is_latest_patch_in(self@, v)),
                forall|k: int|
                    0 <= k < out@.len() ==> exists|j: int|
                        0 <= j < i && #[trigger] out@[k] == self@[j],
            decreases self@.len() - i,
        {
            let ghost pre = out@;
            let r = self.releases[i];
            let ver = r.version();
            let keep = if i == 0 {
                true
            } else {
                let prev = self.releases[i - 1].version();
                !(prev.major == ver.major && prev.minor == ver.minor)
            };
            proof {
                let s = self@;
                let vi = s[i as int].spec_version();
                if keep {
                    // First release of its major.minor line: every release
                    // sharing the line sits at a later index, hence below.
                    assert forall|w: Version| has_version(s, w) && spec_same_minor(vi, w) implies
                        w.patch <= vi.patch by {
                        let j = choose|j: int|
                            0 <= j < s.len() && (#[trigger] s[j]).spec_version() == w;
                        if j < i {
                            // The entry just before i would share the line.
                            if j < i - 1 {
                                assert(spec_version_lt(
                                    s[i as int].spec_version(),
                                    s[i - 1].spec_version(),
                                ));
                                assert(spec_version_lt(
                                    s[i - 1].spec_version(),
                                    s[j].spec_version(),
                                ));
                            }
                            assert(spec_same_minor(vi, s[i - 1].spec_version()));
                            assert(false);
                        } else if j > i {
                            assert(spec_version_lt(w, vi));
                        }
                    }
                    assert(is_latest_patch_in(s, vi));
                } else {
                    // The previous entry shares the line and sits above.
                    let vp = s[i - 1].spec_version();
                    assert(spec_version_lt(vi, vp));
                    assert(spec_same_minor(vi, vp));
                    assert(has_version(s, vp)) by {
                        assert(s[i - 1].spec_version() == vp);
                    }
                    assert(vp.patch > vi.patch);
                    assert(!is_latest_patch_in(s, vi));
                }
            }
            if keep {
                out.push(r);
                proof {
                    assert(out@ == pre.push(r));
                    assert forall|a: int, b: int| 0 <= a < b < out@.len() implies spec_version_lt(
                        out@[b].spec_version(),
                        out@[a].spec_version(),
                    ) by {
                        if b == out@.len() - 1 {
                            let j = choose|j: int| 0 <= j < i && pre[a] == self@[j];
                            assert(spec_version_lt(
                                self@[i as int].spec_version(),
                                self@[j].spec_version(),
                            ));
                        }
                    }
                }
            }
            proof {
                assert(self@.take(i as int + 1).drop_last() =~= self@.take(i as int));
                assert(self@.take(i as int + 1).last() == r);
                assert forall|v: Version| has_version(out@, v) implies (has_version(
                    self@.take(i as int + 1),
                    v,
                ) && is_latest_patch_in(self@, v)) by {
                    let k = choose|k: int|
                        0 <= k < out@.len() && (#[trigger] out@[k]).spec_version() == v;
                    if k < pre.len() {
                        assert(has_version(pre, v));
                        let m = choose|m: int|
                            0 <= m < self@.take(i as int).len() && (#[trigger] self@.take(
                                i as int,
                            )[m]).spec_version() == v;
                        assert(self@.take(i as int + 1)[m].spec_version() == v);
                    } else {
                        assert(v == r.spec_version());
                        assert(self@.take(i as int + 1)[i as int].spec_version() == v);
                    }
                }
                assert forall|v: Version| (has_version(self@.take(i as int + 1), v)
                    && is_latest_patch_in(self@, v)) implies has_version(out@, v) by {
                    let m = choose|m: int|
                        0 <= m < self@.take(i as int + 1).len() && (#[trigger] self@.take(
                            i as int + 1,
                        )[m]).spec_version() == v;
                    if m < i {
                        assert(self@.take(i as int)[m].spec_version() == v);
                        assert(has_version(self@.take(i as int), v));
                        assert(has_version(pre, v));
                        let k = choose|k: int|
                            0 <= k < pre.len() && (#[trigger] pre[k]).spec_version() == v;
                        assert(out@[k].spec_version() == v);
                    } else {
                        assert(v == r.spec_version());
                        assert(keep);
                        assert(out@[out@.len() - 1].spec_version() == v);
                    }
                }
            }
            i = i + 1;
        }
        proof {
            assert(self@.take(self@.len() as int) =~= self@);
            assert forall|k: int| 0 <= k < out@.len() implies self@.contains(out@[k]) by {
                let j = choose|j: int| 0 <= j < self@.len() && out@[k] == self@[j];
            }
        }
        ReleaseCatalog { releases: out }
    }

    /// Narrows the catalog as one run asks: the bounds first, then — unless
    /// every patch release is wanted as a candidate — the collapse of each
    /// major.minor line to its newest patch within the bounds.
    pub fn narrow(&self, min: Option<Version>, max: Option<Version>, include_all_patches:
        bool) -> (c: ReleaseCatalog)
        requires
            self.wf(),
        ensures
            c.wf(),
            include_all_patches ==> forall|v: Version|
                has_version(c@, v) <==> (has_version(self@, v) && spec_in_bounds(v, min, max)),
            !include_all_patches ==> forall|v: Version|
                has_version(c@, v) <==> (has_version(self@, v) && spec_in_bounds(v, min, max) && (
                forall|w: Version|
                    (has_version(self@, w) && spec_in_bounds(w, min, max) && spec_same_minor(
                        v,
                        w,
                    )) ==> w.patch <= v.patch)),
            forall|k: int| 0 <= k < c@.len() ==> self@.contains(c@[k]),
    {
        let bounded = self.filter_by_bounds(min, max);
        if include_all_patches {
            bounded
        } else {
            let collapsed = bounded.collapse_patches();
            proof {
                assert forall|v: Version| has_version(collapsed@, v) implies (has_version(
                    self@,
                    v,
                ) && spec_in_bounds(v, min, max) && (forall|w: Version|
                    (has_version(self@, w) && spec_in_bounds(w, min, max) && spec_same_minor(v, w))
                        ==> w.patch <= v.patch)) by {
                    assert(has_version(bounded@, v));
                    assert(is_latest_patch_in(bounded@, v));
                    assert forall|w: Version| (has_version(self@, w) && spec_in_bounds(w, min, max)
                        && spec_same_minor(v, w)) implies w.patch <= v.patch by {
                        assert(has_version(bounded@, w));
                    }
                }
                assert forall|v: Version| (has_version(self@, v) && spec_in_bounds(v, min, max) && (
                forall|w: Version|
                    (has_version(self@, w) && spec_in_bounds(w, min, max) && spec_same_minor(v, w))
                        ==> w.patch <= v.patch)) implies has_version(collapsed@, v) by {
                    assert(has_version(bounded@, v));
                    assert forall|w: Version| has_version(bounded@, w) && spec_same_minor(v, w)
                        implies w.patch <= v.patch by {
                        assert(has_version(self@, w) && spec_in_bounds(w, min, max));
                    }
                    assert(is_latest_patch_in(bounded@, v));
                }
                assert forall|k: int| 0 <= k < collapsed@.len() implies self@.contains(
                    collapsed@[k],
                ) by {
                    assert(bounded@.contains(collapsed@[k]));
                    let j = choose|j: int|
                        0 <= j < bounded@.len() && bounded@[j] == collapsed@[k];
                }
            }
            collapsed
        }
    }

    pub fn len(&self) -> (n: usize)
        ensures
            n == self@.len(),
    {
        self.releases.len()
    }

    pub fn is_empty(&self) -> (b: bool)
        ensures
            b == (self@.len() == 0),
    {
        self.releases.len() == 0
    }

    pub fn get(&self, i: usize) -> (r: Release)
        requires
            i < self@.len(),
        ensures
            r == self@[i as int],
    {
        self.releases[i]
    }

    pub fn releases(&self) -> (r: &Vec<Release>)
        ensures
            r@ == self@,
    {
        &self.releases
    }

    /// The catalog's versions in catalog (newest-first) order.
    pub fn versions(&self) -> (vs: Vec<Version>)
        ensures
            vs@.len() == self@.len(),
            forall|i: int| 0 <= i < vs@.len() ==> vs@[i] == self@[i].spec_version(),
    {
        let mut vs: Vec<Version> = Vec::new();
        let mut i: usize = 0;
        while i < self.releases.len()
            invariant
                0 <= i <= self@.len(),
                vs@.len() == i,
                forall|k: int| 0 <= k < i ==> vs@[k] == self@[k].spec_version(),
            decreases self@.len() - i,
        {
            vs.push(self.releases[i].version());
            i = i + 1;
        }
        vs
    }

    /// The catalog's versions oldest first: the candidate order the search
    /// engine probes.
    pub fn versions_ascending(&self) -> (vs: Vec<Version>)
        ensures
            vs@.len() == self@.len(),
            forall|i: int|
                0 <= i < vs@.len() ==> vs@[i] == self@[self@.len() - 1 - i].spec_version(),
    {
        let n = self.releases.len();
        let mut vs: Vec<Version> = Vec::new();
        let mut i: usize = 0;
        while i < n
            invariant
                n == self@.len(),
                0 <= i <= n,
                vs@.len() == i,
                forall|k: int| 0 <= k < i ==> vs@[k] == self@[n - 1 - k].spec_version(),
            decreases n - i,
        {
            vs.push(self.releases[n - 1 - i].version());
            i = i + 1;
        }
        vs
    }
}

} // verus!
