//! The bookkeeping of one red/green round that needs no store: which
//! recorded observations a round reevaluates, grouped per projection, and
//! how the dependency evaluations of the artifact pass collect per
//! artifact.

use vstd::prelude::*;

use crate::engine::discovery::{RecordedModel, RecordedObservation};
use crate::engine::redgreen::{DependencyEvaluation, DependencyModel};
use crate::ids::{ArtifactId, ContentHash, ProjectionId, ProjectionObservationId};
use crate::order::{canonical_set, canonical_set_of, contains_ordered, lemma_filter_push, lemma_views_push, views, Ordered};

verus! {

/// A recorded observation takes part in the round: it is a discovered
/// candidate, or its projection's completeness binding went stale.
pub open spec fn is_selected(r: RecordedModel, candidates: Seq<ContentHash>, forced: Seq<ContentHash>) -> bool {
    candidates.contains(r.observation.id) || forced.contains(r.observation.projection)
}

/// The observation ids of the selected records, in recorded order.
pub open spec fn selected_ids(recs: Seq<RecordedModel>, candidates: Seq<ContentHash>, forced: Seq<ContentHash>) -> Seq<ContentHash>
    decreases recs.len(),
{
    if recs.len() == 0 {
        Seq::empty()
    } else {
        let init = selected_ids(recs.drop_last(), candidates, forced);
        if is_selected(recs.last(), candidates, forced) {
            init.push(recs.last().observation.id)
        } else {
            init
        }
    }
}

/// The position of the last selected record with the observation id, or
/// `-1` when there is none: a later record of one id replaces an earlier.
pub open spec fn last_selected(recs: Seq<RecordedModel>, candidates: Seq<ContentHash>, forced: Seq<ContentHash>, id: ContentHash) -> int
    decreases recs.len(),
{
    if recs.len() == 0 {
        -1
    } else if is_selected(recs.last(), candidates, forced) && recs.last().observation.id == id {
        recs.len() - 1
    } else {
        last_selected(recs.drop_last(), candidates, forced, id)
    }
}

/// The projection of the record at a position.
pub open spec fn projection_at(recs: Seq<RecordedModel>, p: int) -> ContentHash {
    recs[p].observation.projection
}

/// The positions (in `lasts` order) whose record observes `pid`.
pub open spec fn positions_of(recs: Seq<RecordedModel>, lasts: Seq<int>, pid: ContentHash) -> Seq<int> {
    lasts.filter(|p: int| projection_at(recs, p) == pid)
}

/// The positions of a group as integers.
pub open spec fn as_ints(v: Seq<usize>) -> Seq<int> {
    v.map_values(|p: usize| p as int)
}

/// The candidate groups of a round over the recorded observations: the
/// distinct selected observation ids in id order, each taken at its last
/// selected record, grouped by projection, projections in id order.
pub open spec fn is_grouping(
    recs: Seq<RecordedModel>,
    candidates: Seq<ContentHash>,
    forced: Seq<ContentHash>,
    groups: Seq<(ContentHash, Seq<int>)>,
) -> bool {
    exists|ids: Seq<ContentHash>| #[trigger] canonical_set_of::<ProjectionObservationId>(ids, selected_ids(recs, candidates, forced)) && {
        let lasts = ids.map_values(|id: ContentHash| last_selected(recs, candidates, forced, id));
        &&& canonical_set_of::<ProjectionId>(
            groups.map_values(|g: (ContentHash, Seq<int>)| g.0),
            lasts.map_values(|p: int| projection_at(recs, p)),
        )
        &&& forall|i: int| 0 <= i < groups.len() ==> (#[trigger] groups[i]).1 == positions_of(recs, lasts, groups[i].0)
    }
}

proof fn lemma_last_selected(recs: Seq<RecordedModel>, candidates: Seq<ContentHash>, forced: Seq<ContentHash>, id: ContentHash)
    ensures
        -1 <= last_selected(recs, candidates, forced, id) < recs.len(),
        last_selected(recs, candidates, forced, id) >= 0 ==> {
            let p = last_selected(recs, candidates, forced, id);
            is_selected(recs[p], candidates, forced) && recs[p].observation.id == id
        },
        selected_ids(recs, candidates, forced).contains(id) ==> last_selected(recs, candidates, forced, id) >= 0,
    decreases recs.len(),
{
    if recs.len() > 0 {
        let init = recs.drop_last();
        lemma_last_selected(init, candidates, forced, id);
        let si = selected_ids(init, candidates, forced);
        if selected_ids(recs, candidates, forced).contains(id) && !(is_selected(recs.last(), candidates, forced)
            && recs.last().observation.id == id) {
            let k = choose|k: int| 0 <= k < selected_ids(recs, candidates, forced).len()
                && selected_ids(recs, candidates, forced)[k] == id;
            if is_selected(recs.last(), candidates, forced) {
                assert(k < si.len());
            }
            assert(si[k] == id);
            assert(si.contains(id));
        }
    }
}

/// Whether a record takes part in the round.
fn record_selected(rec: &RecordedObservation, candidates: &Vec<ProjectionObservationId>, forced: &Vec<ProjectionId>) -> (r: bool)
    ensures
        r == is_selected(rec@, views(candidates@), views(forced@)),
{
    contains_ordered(candidates, &rec.observation.id()) || contains_ordered(forced, &rec.observation.projection())
}

/// The position of the last selected record with the id.
fn find_last_selected(
    recorded: &[RecordedObservation],
    candidates: &Vec<ProjectionObservationId>,
    forced: &Vec<ProjectionId>,
    id: &ProjectionObservationId,
) -> (r: usize)
    requires
        selected_ids(recorded@.map_values(|x: RecordedObservation| x@), views(candidates@), views(forced@)).contains(id@),
    ensures
        r as int == last_selected(recorded@.map_values(|x: RecordedObservation| x@), views(candidates@), views(forced@), id@),
        r < recorded@.len(),
{
    let ghost recs = recorded@.map_values(|x: RecordedObservation| x@);
    let ghost c = views(candidates@);
    let ghost f = views(forced@);
    proof {
        lemma_last_selected(recs, c, f, id@);
    }
    let mut j: usize = recorded.len();
    proof {
        assert(recs.subrange(0, j as int) =~= recs);
    }
    while j > 0
        invariant
            j <= recorded@.len(),
            recs == recorded@.map_values(|x: RecordedObservation| x@),
            c == views(candidates@),
            f == views(forced@),
            last_selected(recs, c, f, id@) == last_selected(recs.subrange(0, j as int), c, f, id@),
            last_selected(recs, c, f, id@) >= 0,
        decreases j,
    {
        let ghost sub = recs.subrange(0, j as int);
        proof {
            assert(sub.drop_last() =~= recs.subrange(0, j - 1));
            assert(sub.last() == recorded@[j - 1]@);
        }
        let rec = &recorded[j - 1];
        if record_selected(rec, candidates, forced) && rec.observation.id().eq_exec(id) {
            return j - 1;
        }
        j = j - 1;
    }
    proof {
        assert(recs.subrange(0, 0).len() == 0);
    }
    0
}

/// Select and group the observations a round reevaluates: the recorded
/// observations whose id is a discovered candidate or whose projection is
/// forced (its completeness binding went stale), one per distinct
/// observation id (the last such record), grouped by projection. Groups
/// come in projection-id order, positions (into `recorded`) in
/// observation-id order.
pub fn group_candidates(
    recorded: &[RecordedObservation],
    candidates: &Vec<ProjectionObservationId>,
    forced: &Vec<ProjectionId>,
) -> (r: Vec<(ProjectionId, Vec<usize>)>)
    ensures
        is_grouping(
            recorded@.map_values(|x: RecordedObservation| x@),
            views(candidates@),
            views(forced@),
            r@.map_values(|g: (ProjectionId, Vec<usize>)| (g.0@, as_ints(g.1@))),
        ),
        forall|i: int, k: int| 0 <= i < r@.len() && 0 <= k < r@[i].1@.len() ==> #[trigger] r@[i].1@[k] < recorded@.len(),
        forall|i: int| 0 <= i < r@.len() ==> (#[trigger] r@[i]).1@.len() > 0,
{
    let ghost recs = recorded@.map_values(|x: RecordedObservation| x@);
    let ghost c = views(candidates@);
    let ghost f = views(forced@);
    // Selected observation ids, in recorded order.
    let mut sel: Vec<ProjectionObservationId> = Vec::new();
    let mut i: usize = 0;
    while i < recorded.len()
        invariant
            i <= recorded@.len(),
            recs == recorded@.map_values(|x: RecordedObservation| x@),
            c == views(candidates@),
            f == views(forced@),
            views(sel@) == selected_ids(recs.subrange(0, i as int), c, f),
        decreases recorded.len() - i,
    {
        let ghost sub = recs.subrange(0, i + 1);
        proof {
            assert(sub.drop_last() =~= recs.subrange(0, i as int));
            assert(sub.last() == recorded@[i as int]@);
        }
        if record_selected(&recorded[i], candidates, forced) {
            let ghost pre = sel@;
            let id = recorded[i].observation.id();
            sel.push(id);
            proof {
                lemma_views_push(pre, id);
            }
        }
        i = i + 1;
    }
    proof {
        assert(recs.subrange(0, recorded@.len() as int) =~= recs);
    }
    let ids = canonical_set(sel);
    let ghost idv = views(ids@);
    let ghost all_lasts = idv.map_values(|id: ContentHash| last_selected(recs, c, f, id));
    // The last selected record of each id, in id order.
    let mut lasts: Vec<usize> = Vec::new();
    let mut projs: Vec<ProjectionId> = Vec::new();
    let mut k: usize = 0;
    while k < ids.len()
        invariant
            k <= ids@.len(),
            recs == recorded@.map_values(|x: RecordedObservation| x@),
            c == views(candidates@),
            f == views(forced@),
            idv == views(ids@),
            canonical_set_of::<ProjectionObservationId>(idv, selected_ids(recs, c, f)),
            all_lasts == idv.map_values(|id: ContentHash| last_selected(recs, c, f, id)),
            as_ints(lasts@) == all_lasts.subrange(0, k as int),
            views(projs@) == all_lasts.subrange(0, k as int).map_values(|p: int| projection_at(recs, p)),
            forall|q: int| 0 <= q < lasts@.len() ==> #[trigger] lasts@[q] < recorded@.len(),
        decreases ids.len() - k,
    {
        proof {
            assert(idv.to_set().contains(idv[k as int]));
            assert(selected_ids(recs, c, f).to_set().contains(idv[k as int]));
        }
        let p = find_last_selected(recorded, candidates, forced, &ids[k]);
        let ghost pre = projs@;
        let pid = recorded[p].observation.projection();
        lasts.push(p);
        projs.push(pid);
        proof {
            lemma_views_push(pre, pid);
            assert(as_ints(lasts@) =~= all_lasts.subrange(0, k + 1));
            assert(all_lasts.subrange(0, k + 1).map_values(|p: int| projection_at(recs, p))
                =~= all_lasts.subrange(0, k as int).map_values(|p: int| projection_at(recs, p)).push(
                projection_at(recs, p as int)));
        }
        k = k + 1;
    }
    proof {
        assert(all_lasts.subrange(0, ids@.len() as int) =~= all_lasts);
    }
    let pids = canonical_set(projs);
    let ghost pv = views(pids@);
    let mut groups: Vec<(ProjectionId, Vec<usize>)> = Vec::new();
    let mut g: usize = 0;
    while g < pids.len()
        invariant
            g <= pids@.len(),
            recs == recorded@.map_values(|x: RecordedObservation| x@),
            pv == views(pids@),
            as_ints(lasts@) == all_lasts,
            forall|q: int| 0 <= q < lasts@.len() ==> #[trigger] lasts@[q] < recorded@.len(),
            groups@.len() == g,
            forall|a: int| 0 <= a < g ==> (#[trigger] groups@[a]).0@ == pv[a],
            forall|a: int| 0 <= a < g ==> as_ints((#[trigger] groups@[a]).1@) == positions_of(recs, all_lasts, pv[a]),
            forall|a: int, b: int| 0 <= a < g && 0 <= b < groups@[a].1@.len() ==> #[trigger] groups@[a].1@[b] < recorded@.len(),
            forall|a: int| 0 <= a < g ==> (#[trigger] groups@[a]).1@.len() > 0,
            canonical_set_of::<ProjectionId>(pv, all_lasts.map_values(|p: int| projection_at(recs, p))),
        decreases pids.len() - g,
    {
        let pid = pids[g];
        let mut members: Vec<usize> = Vec::new();
        let mut q: usize = 0;
        while q < lasts.len()
            invariant
                q <= lasts@.len(),
                recs == recorded@.map_values(|x: RecordedObservation| x@),
                as_ints(lasts@) == all_lasts,
                forall|t: int| 0 <= t < lasts@.len() ==> #[trigger] lasts@[t] < recorded@.len(),
                as_ints(members@) == all_lasts.subrange(0, q as int).filter(|p: int| projection_at(recs, p) == pid@),
                forall|t: int| 0 <= t < members@.len() ==> #[trigger] members@[t] < recorded@.len(),
            decreases lasts.len() - q,
        {
            let p = lasts[q];
            proof {
                assert(all_lasts.subrange(0, q + 1) =~= all_lasts.subrange(0, q as int).push(p as int));
                lemma_filter_push(all_lasts.subrange(0, q as int), |p: int| projection_at(recs, p) == pid@, p as int);
                assert(recorded@[p as int]@ == recs[p as int]);
            }
            if recorded[p].observation.projection().eq_exec(&pid) {
                let ghost pre = members@;
                members.push(p);
                proof {
                    assert(as_ints(members@) =~= as_ints(pre).push(p as int));
                }
            }
            q = q + 1;
        }
        proof {
            assert(all_lasts.subrange(0, lasts@.len() as int) =~= all_lasts);
            let pl = all_lasts.map_values(|p: int| projection_at(recs, p));
            assert(pv.to_set().contains(pv[g as int]));
            assert(pl.to_set().contains(pid@));
            let t = choose|t: int| 0 <= t < pl.len() && pl[t] == pid@;
            all_lasts.lemma_filter_contains(|p: int| projection_at(recs, p) == pid@, t);
            assert(as_ints(members@).len() > 0);
        }
        groups.push((pid, members));
        g = g + 1;
    }
    proof {
        let gv = groups@.map_values(|g: (ProjectionId, Vec<usize>)| (g.0@, as_ints(g.1@)));
        assert(gv.map_values(|g: (ContentHash, Seq<int>)| g.0) =~= pv);
        assert forall|a: int| 0 <= a < gv.len() implies (#[trigger] gv[a]).1 == positions_of(recs, all_lasts, gv[a].0) by {
            assert(gv[a] == (groups@[a].0@, as_ints(groups@[a].1@)));
        }
        assert(canonical_set_of::<ProjectionObservationId>(idv, selected_ids(recs, c, f)));
    }
    groups
}

/// The position of the first entry for an artifact.
pub open spec fn entry_of(entries: Seq<(ContentHash, Seq<DependencyModel>)>, a: ContentHash) -> Option<int>
    decreases entries.len(),
{
    if entries.len() == 0 {
        None
    } else {
        match entry_of(entries.drop_last(), a) {
            Some(k) => Some(k),
            None => if entries.last().0 == a {
                Some(entries.len() - 1)
            } else {
                None
            },
        }
    }
}

/// The dependency evaluations of the artifact pass collected per artifact:
/// artifacts in order of first appearance, each with its evaluations in
/// arrival order.
pub open spec fn collate(pairs: Seq<(ContentHash, DependencyModel)>) -> Seq<(ContentHash, Seq<DependencyModel>)>
    decreases pairs.len(),
{
    if pairs.len() == 0 {
        Seq::empty()
    } else {
        let init = collate(pairs.drop_last());
        let (a, d) = pairs.last();
        match entry_of(init, a) {
            Some(k) => init.update(k, (a, init[k].1.push(d))),
            None => init.push((a, seq![d])),
        }
    }
}

proof fn lemma_entry_of(entries: Seq<(ContentHash, Seq<DependencyModel>)>, a: ContentHash)
    ensures
        entry_of(entries, a) matches Some(k) ==> 0 <= k < entries.len() && entries[k].0 == a,
        entry_of(entries, a) is None ==> forall|k: int| 0 <= k < entries.len() ==> entries[k].0 != a,
    decreases entries.len(),
{
    if entries.len() > 0 {
        lemma_entry_of(entries.drop_last(), a);
        if entry_of(entries, a) is None {
            assert forall|k: int| 0 <= k < entries.len() implies entries[k].0 != a by {
                if k < entries.len() - 1 {
                    assert(entries.drop_last()[k] == entries[k]);
                }
            }
        }
    }
}

/// The views of collated entries.
pub open spec fn collated_views(v: Seq<(ArtifactId, Vec<DependencyEvaluation>)>) -> Seq<(ContentHash, Seq<DependencyModel>)> {
    v.map_values(|e: (ArtifactId, Vec<DependencyEvaluation>)| (e.0@, views(e.1@)))
}

/// The views of artifact/evaluation pairs.
pub open spec fn pair_views(v: Seq<(ArtifactId, DependencyEvaluation)>) -> Seq<(ContentHash, DependencyModel)> {
    v.map_values(|e: (ArtifactId, DependencyEvaluation)| (e.0@, e.1@))
}

/// Collect the artifact pass's (dependent artifact, dependency evaluation)
/// pairs per artifact: each artifact once, in order of first appearance,
/// with its evaluations in arrival order.
pub fn collate_dependents(pairs: Vec<(ArtifactId, DependencyEvaluation)>) -> (r: Vec<(ArtifactId, Vec<DependencyEvaluation>)>)
    ensures
        collated_views(r@) == collate(pair_views(pairs@)),
{
    let ghost all = pair_views(pairs@);
    let mut rest = pairs;
    let mut ids: Vec<ArtifactId> = Vec::new();
    let mut evals: Vec<Vec<DependencyEvaluation>> = Vec::new();
    let ghost mut done: int = 0;
    while rest.len() > 0
        invariant
            0 <= done <= all.len(),
            pair_views(rest@) == all.subrange(done, all.len() as int),
            ids@.len() == evals@.len(),
            collate(all.subrange(0, done)) == collated_views(ids@.zip_with(evals@)),
        decreases rest.len(),
    {
        let ghost pre_rest = rest@;
        let (a, d) = rest.remove(0);
        let ghost pre = collated_views(ids@.zip_with(evals@));
        proof {
            assert(pair_views(rest@) =~= pair_views(pre_rest).drop_first());
            assert(all.subrange(0, done + 1).drop_last() =~= all.subrange(0, done));
            assert(pair_views(pre_rest)[0] == (a@, d@));
            assert(all.subrange(done, all.len() as int)[0] == all[done]);
            assert(all.subrange(0, done + 1).last() == all[done]);
            lemma_entry_of(pre, a@);
        }
        let mut k: usize = 0;
        let mut found = false;
        while k < ids.len() && !found
            invariant
                k <= ids@.len(),
                ids@.len() == evals@.len(),
                pre == collated_views(ids@.zip_with(evals@)),
                found ==> k < ids@.len() && ids@[k as int]@ == a@,
                forall|t: int| 0 <= t < k ==> ids@[t]@ != a@,
            decreases (ids@.len() - k) * 2 + (if found { 0int } else { 1int }),
        {
            if ids[k].eq_exec(&a) {
                found = true;
            } else {
                k = k + 1;
            }
        }
        proof {
            done = done + 1;
        }
        if found {
            proof {
                assert forall|t: int| 0 <= t < k implies pre[t].0 != a@ by {
                    assert(pre[t].0 == ids@[t]@);
                }
                assert(pre[k as int].0 == a@);
                lemma_entry_first(pre, a@, k as int);
            }
            let mut inner = evals.remove(k);
            let ghost pre_inner = inner@;
            inner.push(d);
            evals.insert(k, inner);
            proof {
                lemma_views_push(pre_inner, d);
                assert(collated_views(ids@.zip_with(evals@)) =~= pre.update(k as int, (a@, pre[k as int].1.push(d@))));
            }
        } else {
            proof {
                lemma_entry_of(pre, a@);
                if let Some(e) = entry_of(pre, a@) {
                    assert(pre[e].0 == ids@[e]@);
                    assert(false);
                }
            }
            ids.push(a);
            let mut fresh: Vec<DependencyEvaluation> = Vec::new();
            fresh.push(d);
            evals.push(fresh);
            proof {
                assert(views(fresh@) =~= seq![d@]);
                assert(collated_views(ids@.zip_with(evals@)) =~= pre.push((a@, seq![d@])));
            }
        }
    }
    proof {
        assert(all.subrange(0, done) =~= all);
    }
    let mut out: Vec<(ArtifactId, Vec<DependencyEvaluation>)> = Vec::new();
    let ghost target = collated_views(ids@.zip_with(evals@));
    let ghost n = ids@.len();
    while ids.len() > 0
        invariant
            ids@.len() == evals@.len(),
            ids@.len() + out@.len() == n,
            target.len() == n,
            collated_views(out@) == target.subrange(0, out@.len() as int),
            collated_views(ids@.zip_with(evals@)) == target.subrange(out@.len() as int, n as int),
        decreases ids.len(),
    {
        let ghost pre_tail = collated_views(ids@.zip_with(evals@));
        let a = ids.remove(0);
        let e = evals.remove(0);
        proof {
            assert(pre_tail[0] == (a@, views(e@)));
            assert(collated_views(ids@.zip_with(evals@)) =~= pre_tail.drop_first());
        }
        let ghost pre_out = out@;
        out.push((a, e));
        proof {
            assert(collated_views(out@) =~= collated_views(pre_out).push((a@, views(e@))));
            assert(target.subrange(0, out@.len() as int) =~= target.subrange(0, pre_out.len() as int).push(target[pre_out.len() as int]));
        }
    }
    proof {
        assert(target.subrange(0, n as int) =~= target);
    }
    out
}

proof fn lemma_entry_first(entries: Seq<(ContentHash, Seq<DependencyModel>)>, a: ContentHash, k: int)
    requires
        0 <= k < entries.len(),
        entries[k].0 == a,
        forall|t: int| 0 <= t < k ==> entries[t].0 != a,
    ensures
        entry_of(entries, a) == Some(k),
    decreases entries.len(),
{
    if k < entries.len() - 1 {
        lemma_entry_first(entries.drop_last(), a, k);
    } else {
        lemma_entry_of(entries.drop_last(), a);
        if let Some(e) = entry_of(entries.drop_last(), a) {
            assert(entries.drop_last()[e] == entries[e]);
        }
    }
}

} // verus!
