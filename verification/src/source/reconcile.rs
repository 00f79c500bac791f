//! Lazy reconciliation — dirtiness discovered at query/freeze time.
//!
//! A stored manifest represents the world as of a snapshot; reconciliation
//! compares it against the current one and produces the **exact**
//! changed-file set. Deterministic and side-effect free: identical inputs
//! always produce identical output.
use vstd::prelude::*;

use crate::ids::ContentHash;
use crate::order::{views, Ordered};
use crate::source::manifest::{paths_strictly_sorted, Manifest, ManifestEntry};
use crate::text::owned;

verus! {

/// Entries (path, digest), as views.
pub type Entries = Seq<(Seq<char>, ContentHash)>;

/// Some entry has path `p`.
pub open spec fn has_path(e: Entries, p: Seq<char>) -> bool {
    exists|i: int| 0 <= i < e.len() && (#[trigger] e[i]).0 == p
}

/// Paths of `cur`, in order, that `old` does not have.
pub open spec fn added_paths(cur: Entries, old: Entries) -> Seq<Seq<char>>
    decreases cur.len(),
{
    if cur.len() == 0 {
        Seq::empty()
    } else {
        let init = added_paths(cur.drop_last(), old);
        if !has_path(old, cur.last().0) {
            init.push(cur.last().0)
        } else {
            init
        }
    }
}

/// Paths of `cur`, in order, that `old` has with another digest.
pub open spec fn modified_paths(cur: Entries, old: Entries) -> Seq<Seq<char>>
    decreases cur.len(),
{
    if cur.len() == 0 {
        Seq::empty()
    } else {
        let init = modified_paths(cur.drop_last(), old);
        if has_path(old, cur.last().0) && !old.contains(cur.last()) {
            init.push(cur.last().0)
        } else {
            init
        }
    }
}

/// The exact changed-file set between a stored manifest and the current
/// tree. All vectors are sorted by path. A rename appears as removal +
/// addition.
#[derive(Debug, PartialEq, Eq)]
pub struct ChangedSet {
    /// Paths present now but absent from the stored manifest.
    pub added: Vec<String>,
    /// Paths present in both with different content digests.
    pub modified: Vec<String>,
    /// Paths present in the stored manifest but absent now.
    pub removed: Vec<String>,
}

impl Default for ChangedSet {
    fn default() -> (r: Self)
        ensures
            r.added@.len() == 0,
            r.modified@.len() == 0,
            r.removed@.len() == 0,
    {
        ChangedSet { added: Vec::new(), modified: Vec::new(), removed: Vec::new() }
    }
}

impl Clone for ChangedSet {
    fn clone(&self) -> (r: Self)
        ensures
            views(r.added@) == views(self.added@),
            views(r.modified@) == views(self.modified@),
            views(r.removed@) == views(self.removed@),
    {
        ChangedSet {
            added: crate::coverage::clone_strings(self.added.as_slice()),
            modified: crate::coverage::clone_strings(self.modified.as_slice()),
            removed: crate::coverage::clone_strings(self.removed.as_slice()),
        }
    }
}

impl ChangedSet {
    /// Whether the working tree is unchanged relative to the manifest.
    pub fn is_empty(&self) -> (r: bool)
        ensures
            r == (self.added@.len() == 0 && self.modified@.len() == 0 && self.removed@.len() == 0),
    {
        self.added.len() == 0 && self.modified.len() == 0 && self.removed.len() == 0
    }

    /// Total number of changed paths.
    pub fn len(&self) -> (r: usize)
        requires
            self.added@.len() + self.modified@.len() + self.removed@.len() <= usize::MAX,
        ensures
            r == self.added@.len() + self.modified@.len() + self.removed@.len(),
    {
        self.added.len() + self.modified.len() + self.removed.len()
    }
}

/// The index of the entry with path `path`, if any.
fn find_path(e: &[ManifestEntry], path: &String) -> (r: Option<usize>)
    ensures
        match r {
            Some(i) => i < e@.len() && e@[i as int].path@ == path@,
            None => !has_path(views(e@), path@),
        },
{
    let mut i: usize = 0;
    while i < e.len()
        invariant
            i <= e@.len(),
            forall|k: int| 0 <= k < i ==> (#[trigger] e@[k]).path@ != path@,
        decreases e.len() - i,
    {
        if e[i].path == *path {
            return Some(i);
        }
        i = i + 1;
    }
    proof {
        if has_path(views(e@), path@) {
            let k = choose|k: int| 0 <= k < views(e@).len() && (#[trigger] views(e@)[k]).0 == path@;
            assert(views(e@)[k] == e@[k]@);
        }
    }
    None
}

/// With unique paths, the entry found for a path decides containment of
/// any `(path, digest)` pair.
proof fn lemma_unique_path_contains(e: Entries, i: int, x: (Seq<char>, ContentHash))
    requires
        paths_strictly_sorted(e),
        0 <= i < e.len(),
        e[i].0 == x.0,
    ensures
        e.contains(x) <==> e[i].1 == x.1,
{
    if e.contains(x) {
        let k = choose|k: int| 0 <= k < e.len() && e[k] == x;
        if k < i {
            assert(e[k].0 != e[i].0);
        } else if k > i {
            assert(e[i].0 != e[k].0);
        }
    }
    if e[i].1 == x.1 {
        assert(e[i] == x);
    }
}

/// Paths of `cur` not in `old`, in order (the stored side of a removal is
/// the same computation with the roles swapped).
fn paths_missing_from(cur: &[ManifestEntry], old: &[ManifestEntry]) -> (r: Vec<String>)
    ensures
        views(r@) == added_paths(views(cur@), views(old@)),
{
    let ghost cv = views(cur@);
    let mut out: Vec<String> = Vec::new();
    let mut i: usize = 0;
    while i < cur.len()
        invariant
            i <= cur@.len(),
            cv == views(cur@),
            views(out@) == added_paths(cv.subrange(0, i as int), views(old@)),
        decreases cur.len() - i,
    {
        let ghost pre = out@;
        let ghost a = cv.subrange(0, i as int);
        let ghost b = cv.subrange(0, i + 1);
        proof {
            assert(b.drop_last() =~= a);
            assert(b.last() == cur@[i as int]@);
        }
        match find_path(old, &cur[i].path) {
            None => {
                let p = cur[i].path.clone();
                out.push(p);
                proof {
                    crate::order::lemma_views_push(pre, p);
                }
            },
            Some(k) => {
                proof {
                    assert(views(old@)[k as int] == old@[k as int]@);
                    assert(has_path(views(old@), cv[i as int].0));
                }
            },
        }
        i = i + 1;
    }
    assert(cv.subrange(0, cur@.len() as int) =~= cv);
    out
}

/// Diff two manifests. Pure: deterministic, side-effect free, and exact —
/// identical manifests reconcile to an empty changed set.
pub fn reconcile(stored: &Manifest, current: &Manifest) -> (r: ChangedSet)
    ensures
        views(r.added@) == added_paths(current@.entries, stored@.entries),
        views(r.modified@) == modified_paths(current@.entries, stored@.entries),
        views(r.removed@) == added_paths(stored@.entries, current@.entries),
{
    let old = stored.entries();
    let cur = current.entries();
    let ghost ov = views(old@);
    let ghost cv = views(cur@);
    let added = paths_missing_from(cur, old);
    let removed = paths_missing_from(old, cur);
    let mut modified: Vec<String> = Vec::new();
    let mut i: usize = 0;
    while i < cur.len()
        invariant
            i <= cur@.len(),
            cv == views(cur@),
            ov == views(old@),
            paths_strictly_sorted(ov),
            views(modified@) == modified_paths(cv.subrange(0, i as int), ov),
        decreases cur.len() - i,
    {
        let ghost pre = modified@;
        let ghost a = cv.subrange(0, i as int);
        let ghost b = cv.subrange(0, i + 1);
        proof {
            assert(b.drop_last() =~= a);
            assert(b.last() == cur@[i as int]@);
        }
        match find_path(old, &cur[i].path) {
            Some(k) => {
                proof {
                    assert(ov[k as int] == old@[k as int]@);
                    assert(has_path(ov, cv[i as int].0));
                    lemma_unique_path_contains(ov, k as int, cv[i as int]);
                }
                if !old[k].digest.eq_exec(&cur[i].digest) {
                    let p = cur[i].path.clone();
                    modified.push(p);
                    proof {
                        crate::order::lemma_views_push(pre, p);
                    }
                }
            },
            None => {},
        }
        i = i + 1;
    }
    assert(cv.subrange(0, cur@.len() as int) =~= cv);
    ChangedSet { added, modified, removed }
}

/// Reconciling a manifest against itself yields the empty changed set:
/// identical trees have no added, modified, or removed paths.
pub proof fn lemma_reconcile_identical(e: Entries)
    ensures
        added_paths(e, e).len() == 0,
        modified_paths(e, e).len() == 0,
{
    lemma_no_changes_against_superset(e, e);
}

proof fn lemma_no_changes_against_superset(cur: Entries, old: Entries)
    requires
        forall|i: int| 0 <= i < cur.len() ==> old.contains(#[trigger] cur[i]),
    ensures
        added_paths(cur, old).len() == 0,
        modified_paths(cur, old).len() == 0,
    decreases cur.len(),
{
    if cur.len() > 0 {
        let init = cur.drop_last();
        assert forall|i: int| 0 <= i < init.len() implies old.contains(#[trigger] init[i]) by {
            assert(init[i] == cur[i]);
        }
        lemma_no_changes_against_superset(init, old);
        assert(old.contains(cur[cur.len() - 1]));
        let k = choose|k: int| 0 <= k < old.len() && old[k] == cur.last();
        assert(has_path(old, cur.last().0));
    }
}

} // verus!
