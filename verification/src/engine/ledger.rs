//! The attestation ledger a round commits into: the histories of the
//! artifacts it settles. Committing appends each attestation to its
//! artifact's history when the history accepts it (same artifact, a new
//! id, in creation order) and changes nothing else, so histories only grow,
//! each by at most the attestations naming it, and committing the same
//! attestations again changes nothing.
use vstd::prelude::*;

use crate::attestation::{append_accepted, has_id, AttestationHistory, AttestationModel, HistoryModel, ValidationAttestation};
use crate::ids::ContentHash;
use crate::order::Ordered;

verus! {

/// `k` is the first history of the artifact.
pub open spec fn is_first(hs: Seq<HistoryModel>, id: ContentHash, k: int) -> bool {
    &&& 0 <= k < hs.len()
    &&& hs[k].artifact_id == id
    &&& forall|j: int| 0 <= j < k ==> (#[trigger] hs[j]).artifact_id != id
}

/// The position of the first history of an artifact, if any.
pub open spec fn history_index(hs: Seq<HistoryModel>, id: ContentHash) -> Option<int> {
    if exists|k: int| is_first(hs, id, k) {
        Some(choose|k: int| is_first(hs, id, k))
    } else {
        None
    }
}

/// One attestation committed: appended to its artifact's history when
/// that history accepts it; otherwise nothing changes.
pub open spec fn commit_one(hs: Seq<HistoryModel>, a: AttestationModel) -> Seq<HistoryModel> {
    match history_index(hs, a.artifact_id) {
        None => hs,
        Some(k) => if append_accepted(hs[k], a) {
            hs.update(k, HistoryModel { artifact_id: hs[k].artifact_id, entries: hs[k].entries.push(a) })
        } else {
            hs
        },
    }
}

/// Attestations committed in order.
pub open spec fn commit_all(hs: Seq<HistoryModel>, atts: Seq<AttestationModel>) -> Seq<HistoryModel>
    decreases atts.len(),
{
    if atts.len() == 0 {
        hs
    } else {
        commit_one(commit_all(hs, atts.drop_last()), atts.last())
    }
}

/// Committing the attestation would change nothing.
pub open spec fn settled_in(hs: Seq<HistoryModel>, a: AttestationModel) -> bool {
    match history_index(hs, a.artifact_id) {
        None => true,
        Some(k) => !append_accepted(hs[k], a),
    }
}

/// How many attestations name the artifact.
pub open spec fn count_for(atts: Seq<AttestationModel>, id: ContentHash) -> nat
    decreases atts.len(),
{
    if atts.len() == 0 {
        0
    } else {
        count_for(atts.drop_last(), id) + if atts.last().artifact_id == id {
            1nat
        } else {
            0nat
        }
    }
}

/// Two ledgers hold the same artifacts at the same positions.
pub open spec fn same_artifacts(hs: Seq<HistoryModel>, gs: Seq<HistoryModel>) -> bool {
    &&& hs.len() == gs.len()
    &&& forall|k: int| 0 <= k < hs.len() ==> (#[trigger] hs[k]).artifact_id == gs[k].artifact_id
}

proof fn lemma_first_unique(hs: Seq<HistoryModel>, id: ContentHash, a: int, b: int)
    requires
        is_first(hs, id, a),
        is_first(hs, id, b),
    ensures
        a == b,
{
    if a < b {
        assert(hs[a].artifact_id != id);
    }
    if b < a {
        assert(hs[b].artifact_id != id);
    }
}

proof fn lemma_index_same(hs: Seq<HistoryModel>, gs: Seq<HistoryModel>, id: ContentHash)
    requires
        same_artifacts(hs, gs),
    ensures
        history_index(hs, id) == history_index(gs, id),
        history_index(hs, id) matches Some(k) ==> is_first(hs, id, k),
{
    if exists|k: int| is_first(hs, id, k) {
        let k = choose|k: int| is_first(hs, id, k);
        assert forall|j: int| 0 <= j < k implies (#[trigger] gs[j]).artifact_id != id by {
            assert(hs[j].artifact_id == gs[j].artifact_id);
        }
        assert(is_first(gs, id, k));
        let k2 = choose|k: int| is_first(gs, id, k);
        lemma_first_unique(gs, id, k, k2);
    } else if exists|k: int| is_first(gs, id, k) {
        let k = choose|k: int| is_first(gs, id, k);
        assert forall|j: int| 0 <= j < k implies (#[trigger] hs[j]).artifact_id != id by {
            assert(hs[j].artifact_id == gs[j].artifact_id);
        }
        assert(is_first(hs, id, k));
    }
}

/// One commit keeps the artifacts in place and extends at most the
/// history of the attestation's artifact, by at most that attestation.
proof fn lemma_commit_one_grows(hs: Seq<HistoryModel>, a: AttestationModel)
    ensures
        same_artifacts(hs, commit_one(hs, a)),
        forall|k: int| 0 <= k < hs.len() ==> {
            let n = #[trigger] commit_one(hs, a)[k];
            &&& n.entries.subrange(0, hs[k].entries.len() as int) == hs[k].entries
            &&& hs[k].entries.len() <= n.entries.len() <= hs[k].entries.len() + if a.artifact_id
                == hs[k].artifact_id {
                1int
            } else {
                0int
            }
        },
{
    lemma_index_same(hs, hs, a.artifact_id);
    let r = commit_one(hs, a);
    assert forall|k: int| 0 <= k < hs.len() implies {
        let n = #[trigger] commit_one(hs, a)[k];
        &&& n.entries.subrange(0, hs[k].entries.len() as int) == hs[k].entries
        &&& hs[k].entries.len() <= n.entries.len() <= hs[k].entries.len() + if a.artifact_id
            == hs[k].artifact_id {
            1int
        } else {
            0int
        }
    } by {
        assert(hs[k].entries.subrange(0, hs[k].entries.len() as int) =~= hs[k].entries);
        assert(hs[k].entries.push(a).subrange(0, hs[k].entries.len() as int) =~= hs[k].entries);
    }
}

/// An attestation that would change nothing still changes nothing after
/// another commit.
proof fn lemma_settled_stays(hs: Seq<HistoryModel>, b: AttestationModel, a: AttestationModel)
    requires
        settled_in(hs, a),
    ensures
        settled_in(commit_one(hs, b), a),
{
    let r = commit_one(hs, b);
    lemma_commit_one_grows(hs, b);
    lemma_index_same(hs, r, a.artifact_id);
    lemma_index_same(hs, hs, b.artifact_id);
    if let Some(k) = history_index(hs, a.artifact_id) {
        if r[k] != hs[k] {
            // b was appended to this history.
            assert(history_index(hs, b.artifact_id) == Some(k));
            assert(append_accepted(hs[k], b));
            assert(r[k].entries == hs[k].entries.push(b));
            if has_id(hs[k].entries, a.id) {
                let i = choose|i: int| 0 <= i < hs[k].entries.len() && (#[trigger] hs[k].entries[i]).id == a.id;
                assert(r[k].entries[i] == hs[k].entries[i]);
            } else {
                assert(hs[k].entries.len() > 0 && a.created_at < hs[k].entries.last().created_at);
                assert(r[k].entries.last() == b);
            }
        }
    }
}

/// An attestation just committed would change nothing if committed again.
proof fn lemma_settled_self(hs: Seq<HistoryModel>, a: AttestationModel)
    ensures
        settled_in(commit_one(hs, a), a),
{
    let r = commit_one(hs, a);
    lemma_commit_one_grows(hs, a);
    lemma_index_same(hs, r, a.artifact_id);
    if let Some(k) = history_index(hs, a.artifact_id) {
        if append_accepted(hs[k], a) {
            assert(r[k].entries == hs[k].entries.push(a));
            assert(r[k].entries[hs[k].entries.len() as int] == a);
            assert(has_id(r[k].entries, a.id));
        }
    }
}

proof fn lemma_commit_all_settles(hs: Seq<HistoryModel>, atts: Seq<AttestationModel>)
    ensures
        forall|j: int| 0 <= j < atts.len() ==> settled_in(commit_all(hs, atts), #[trigger] atts[j]),
    decreases atts.len(),
{
    if atts.len() > 0 {
        let init = atts.drop_last();
        lemma_commit_all_settles(hs, init);
        let before = commit_all(hs, init);
        assert forall|j: int| 0 <= j < atts.len() implies settled_in(commit_all(hs, atts), #[trigger] atts[j]) by {
            if j < atts.len() - 1 {
                assert(atts[j] == init[j]);
                lemma_settled_stays(before, atts.last(), atts[j]);
            } else {
                lemma_settled_self(before, atts.last());
            }
        }
    }
}

proof fn lemma_commit_all_noop(hs: Seq<HistoryModel>, atts: Seq<AttestationModel>)
    requires
        forall|j: int| 0 <= j < atts.len() ==> settled_in(hs, #[trigger] atts[j]),
    ensures
        commit_all(hs, atts) == hs,
    decreases atts.len(),
{
    if atts.len() > 0 {
        let init = atts.drop_last();
        assert forall|j: int| 0 <= j < init.len() implies settled_in(hs, #[trigger] init[j]) by {
            assert(init[j] == atts[j]);
        }
        lemma_commit_all_noop(hs, init);
        assert(settled_in(hs, atts[atts.len() - 1]));
    }
}

/// Committing is idempotent: committing a round's attestations into the
/// ledger they were already committed into changes nothing, so a re-run
/// that settles to the same attestations appends nothing.
pub proof fn lemma_commit_idempotent(hs: Seq<HistoryModel>, atts: Seq<AttestationModel>)
    ensures
        commit_all(commit_all(hs, atts), atts) == commit_all(hs, atts),
{
    lemma_commit_all_settles(hs, atts);
    lemma_commit_all_noop(commit_all(hs, atts), atts);
}

/// Committing is append-only: the ledger keeps its artifacts in place,
/// every old history is a prefix of its new history, and a history grows
/// by at most the number of committed attestations naming its artifact
/// (at most one when a round settles each artifact once).
pub proof fn lemma_commit_append_only(hs: Seq<HistoryModel>, atts: Seq<AttestationModel>)
    ensures
        same_artifacts(hs, commit_all(hs, atts)),
        forall|k: int| 0 <= k < hs.len() ==> {
            let n = #[trigger] commit_all(hs, atts)[k];
            &&& n.entries.subrange(0, hs[k].entries.len() as int) == hs[k].entries
            &&& hs[k].entries.len() <= n.entries.len() <= hs[k].entries.len() + count_for(atts, hs[k].artifact_id)
        },
    decreases atts.len(),
{
    if atts.len() > 0 {
        let init = atts.drop_last();
        lemma_commit_append_only(hs, init);
        let mid = commit_all(hs, init);
        lemma_commit_one_grows(mid, atts.last());
        assert forall|k: int| 0 <= k < hs.len() implies {
            let n = #[trigger] commit_all(hs, atts)[k];
            &&& n.entries.subrange(0, hs[k].entries.len() as int) == hs[k].entries
            &&& hs[k].entries.len() <= n.entries.len() <= hs[k].entries.len() + count_for(atts, hs[k].artifact_id)
        } by {
            let m = mid[k];
            let n = commit_all(hs, atts)[k];
            assert(n == commit_one(mid, atts.last())[k]);
            assert(m.artifact_id == hs[k].artifact_id);
            assert(n.entries.subrange(0, hs[k].entries.len() as int) =~= n.entries.subrange(0, m.entries.len() as int).subrange(
                0,
                hs[k].entries.len() as int,
            ));
        }
    }
}

/// The views of a list of histories.
pub open spec fn history_views(hs: Seq<AttestationHistory>) -> Seq<HistoryModel> {
    hs.map_values(|h: AttestationHistory| h@)
}

/// The views of a list of attestations.
pub open spec fn attestation_views(atts: Seq<ValidationAttestation>) -> Seq<AttestationModel> {
    atts.map_values(|a: ValidationAttestation| a@)
}

/// The attestation histories of the artifacts a round settles.
pub struct Ledger {
    histories: Vec<AttestationHistory>,
}

impl View for Ledger {
    type V = Seq<HistoryModel>;

    closed spec fn view(&self) -> Seq<HistoryModel> {
        history_views(self.histories@)
    }
}

impl Ledger {
    /// A ledger over the given histories.
    pub fn new(histories: Vec<AttestationHistory>) -> (r: Self)
        ensures
            r@ == history_views(histories@),
    {
        Ledger { histories }
    }

    /// The histories, in the order the ledger was made with.
    pub fn histories(&self) -> (r: &[AttestationHistory])
        ensures
            history_views(r@) == self@,
    {
        self.histories.as_slice()
    }

    fn find(&self, id: &ContentHash) -> (r: Option<usize>)
        ensures
            match r {
                Some(k) => history_index(self@, *id) == Some(k as int) && k < self.histories@.len(),
                None => history_index(self@, *id) is None,
            },
    {
        let ghost hs = self@;
        let mut i: usize = 0;
        while i < self.histories.len()
            invariant
                i <= self.histories@.len(),
                hs == self@,
                hs.len() == self.histories@.len(),
                forall|j: int| 0 <= j < i ==> (#[trigger] hs[j]).artifact_id != *id,
            decreases self.histories.len() - i,
        {
            assert(hs[i as int] == self.histories@[i as int]@);
            if self.histories[i].artifact_id().0.eq_exec(id) {
                proof {
                    assert(is_first(hs, *id, i as int));
                    let k = choose|k: int| is_first(hs, *id, k);
                    lemma_first_unique(hs, *id, i as int, k);
                }
                return Some(i);
            }
            i = i + 1;
        }
        None
    }

    /// Commit a round's attestations in order: each is appended to its
    /// artifact's history when that history accepts it. Returns, for each
    /// attestation, whether it was appended.
    pub fn commit(&mut self, attestations: &[ValidationAttestation]) -> (r: Vec<bool>)
        ensures
            final(self)@ == commit_all(old(self)@, attestation_views(attestations@)),
            r@.len() == attestations@.len(),
            forall|i: int| 0 <= i < attestations@.len() ==> r@[i] == (commit_all(
                old(self)@,
                attestation_views(attestations@).take(i + 1),
            ) != commit_all(old(self)@, attestation_views(attestations@).take(i))),
    {
        let ghost start = self@;
        let ghost av = attestation_views(attestations@);
        let mut out: Vec<bool> = Vec::new();
        let mut i: usize = 0;
        while i < attestations.len()
            invariant
                i <= attestations@.len(),
                av == attestation_views(attestations@),
                self@ == commit_all(start, av.take(i as int)),
                out@.len() == i,
                forall|j: int| 0 <= j < i ==> out@[j] == (commit_all(start, av.take(j + 1)) != commit_all(
                    start,
                    av.take(j),
                )),
            decreases attestations.len() - i,
        {
            let ghost before = self@;
            proof {
                assert(av.take(i + 1).drop_last() =~= av.take(i as int));
                assert(av.take(i + 1).last() == attestations@[i as int]@);
            }
            let a = attestations[i].clone();
            let mut appended = false;
            match self.find(&a.artifact_id().0) {
                None => {},
                Some(k) => {
                    let mut h = self.histories.remove(k);
                    let ghost hv = h@;
                    assert(hv == before[k as int]);
                    let res = h.append(a);
                    appended = res.is_ok();
                    self.histories.insert(k, h);
                    proof {
                        if appended {
                            assert(history_views(self.histories@) =~= before.update(
                                k as int,
                                HistoryModel { artifact_id: before[k as int].artifact_id, entries: before[k as int].entries.push(attestations@[i as int]@) },
                            ));
                            assert(self@[k as int] != before[k as int]);
                        } else {
                            assert(history_views(self.histories@) =~= before);
                        }
                    }
                },
            }
            out.push(appended);
            proof {
                assert(self@ == commit_all(start, av.take(i + 1)));
            }
            i = i + 1;
        }
        proof {
            assert(av.take(attestations@.len() as int) =~= av);
        }
        out
    }
}

} // verus!
