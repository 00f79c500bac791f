//! The freeze rule and authoritative freeze production.
//!
//! A freeze is required only when the requested authoritative decision
//! depends on semantic projections whose current snapshot is not provably
//! compatible with the current source state. A change classifier proves
//! compatibility: changes to files that cannot affect the Python semantic
//! universe leave the frozen snapshot applicable; any Python source change
//! potentially invalidates it.
use vstd::prelude::*;

use crate::coverage::{digest_of, CoverageCertificate, CoverageState};
use crate::hash::blake3_digest;
use crate::ids::{ContentHash, HashAlgo, SemanticSnapshotId};
use crate::order::views;
use crate::semantic::graph::{graph_material, grouped, identity_text, ScipGraph, ScipIdentity};
use crate::semantic::ingest::{all_pairs, ingest, metadata_identity, python_count, python_paths, IngestReport, PairKind, ScipIndex};
use crate::order::canonical_set_of;
use crate::text::{chars_end_with, chars_of, owned, utf8, ends_with};

verus! {

/// Which changes can affect the Python semantic universe. The classifier
/// is conservative: a Python-source change is never provably compatible
/// with an existing snapshot; non-Python changes are.
#[derive(Debug, Clone, Copy, PartialEq, Eq, Structural)]
pub enum ChangeClass {
    /// The changed files cannot affect the Python semantic universe.
    NonPython,
    /// At least one Python source file changed: the frozen snapshot is not
    /// provably compatible.
    PythonSource,
}

/// The suffix of a Python source file.
pub open spec fn python_suffix() -> Seq<char> {
    seq!['.', 'p', 'y']
}

/// Some changed path is a Python source file.
pub open spec fn touches_python(paths: Seq<Seq<char>>) -> bool {
    exists|i: int| 0 <= i < paths.len() && ends_with(#[trigger] paths[i], python_suffix())
}

/// Any Python path among the changes, at any position, makes them touch
/// Python.
pub proof fn lemma_python_path_anywhere(paths: Seq<Seq<char>>, i: int)
    requires
        0 <= i < paths.len(),
        ends_with(paths[i], seq!['.', 'p', 'y']),
    ensures
        touches_python(paths),
{
    assert(python_suffix() =~= seq!['.', 'p', 'y']);
}

/// Whether changes touch Python depends only on which paths changed, not
/// on their order or repetition.
pub proof fn lemma_touches_python_order_free(a: Seq<Seq<char>>, b: Seq<Seq<char>>)
    requires
        a.to_set() == b.to_set(),
    ensures
        touches_python(a) == touches_python(b),
{
    if touches_python(a) {
        let i = choose|i: int| 0 <= i < a.len() && ends_with(#[trigger] a[i], python_suffix());
        assert(a.to_set().contains(a[i]));
        assert(b.contains(a[i]));
        let j = choose|j: int| 0 <= j < b.len() && b[j] == a[i];
        assert(ends_with(b[j], python_suffix()));
    }
    if touches_python(b) {
        let i = choose|i: int| 0 <= i < b.len() && ends_with(#[trigger] b[i], python_suffix());
        assert(b.to_set().contains(b[i]));
        assert(a.contains(b[i]));
        let j = choose|j: int| 0 <= j < a.len() && a[j] == b[i];
        assert(ends_with(a[j], python_suffix()));
    }
}

/// Classify a reconciled changed-file set (`README.md` → NonPython;
/// `auth/service.py` → PythonSource).
pub fn classify_changes(changed_paths: &[String]) -> (r: ChangeClass)
    ensures
        (r == ChangeClass::PythonSource) <==> touches_python(views(changed_paths@)),
{
    let suffix: Vec<char> = vec!['.', 'p', 'y'];
    let ghost pv = views(changed_paths@);
    let mut i: usize = 0;
    while i < changed_paths.len()
        invariant
            i <= changed_paths@.len(),
            pv == views(changed_paths@),
            suffix@ == python_suffix(),
            forall|j: int| 0 <= j < i ==> !ends_with(#[trigger] pv[j], python_suffix()),
        decreases changed_paths.len() - i,
    {
        let cs = chars_of(changed_paths[i].as_str());
        if chars_end_with(&cs, suffix.as_slice()) {
            assert(ends_with(pv[i as int], python_suffix()));
            return ChangeClass::PythonSource;
        }
        i = i + 1;
    }
    ChangeClass::NonPython
}

/// The frozen authoritative semantic state.
#[derive(Debug, PartialEq, Eq)]
pub struct SemanticFreeze {
    /// Deterministic identity of the frozen semantic snapshot.
    pub semantic_snapshot_id: SemanticSnapshotId,
    /// The normalized program graph.
    pub graph: ScipGraph,
    /// Coverage evidence: the indexer identity rendering.
    pub indexer_identity: String,
    /// Ingest accounting for the run log.
    pub report: IngestReport,
}

/// Whether a freeze is required, and the fresh freeze when it runs.
#[derive(Debug)]
pub enum FreezeDecision {
    /// The existing snapshot is provably compatible: no rerun.
    Reuse {
        /// The semantic snapshot that remains applicable.
        semantic_snapshot_id: SemanticSnapshotId,
        /// Why the classifier proved compatibility.
        reason: String,
    },
    /// A freeze is required; here is the fresh authoritative state.
    Freeze(SemanticFreeze),
}

/// The reason recorded when the classifier proves compatibility.
pub const REUSE_REASON: &'static str =
    "change classifier: no Python source files changed; the frozen semantic snapshot is provably compatible";

/// `g` and `rep` are what ingesting `index` yields.
pub open spec fn ingested(index: ScipIndex, g: ScipGraph, rep: IngestReport) -> bool {
    &&& grouped(g.callers@, all_pairs(index, index.documents@, PairKind::Callers))
    &&& grouped(g.references@, all_pairs(index, index.documents@, PairKind::References))
    &&& grouped(g.implementations@, all_pairs(index, index.documents@, PairKind::Implementations))
    &&& grouped(g.subclasses@, all_pairs(index, index.documents@, PairKind::Subclasses))
    &&& canonical_set_of::<String>(views(g.documents@), python_paths(index.documents@))
    &&& rep.documents_ingested == python_count(index.documents@)
    &&& rep.documents_ingested + rep.documents_non_python == index.documents@.len()
    &&& rep.references_consumed == all_pairs(index, index.documents@, PairKind::Callers).len()
    &&& rep.identity@ == metadata_identity(index.metadata)
}

/// `f` is the freeze of `index` under `identity`: the ingested graph, its
/// snapshot identity, and the rendered indexer identity.
pub open spec fn is_freeze_of(f: SemanticFreeze, index: ScipIndex, identity: ScipIdentity) -> bool {
    let id_text = identity_text(identity.adapter@, identity.tool@, identity.version@);
    &&& ingested(index, f.graph, f.report)
    &&& f.semantic_snapshot_id.0.algo == HashAlgo::Blake3
    &&& f.semantic_snapshot_id.0.digest@ == blake3_digest(utf8(graph_material(f.graph, id_text)))
    &&& f.indexer_identity@ == id_text
}

/// Run the freeze rule: given the parsed index (the potential freeze
/// input), the identity it declares, the changed paths, and the last frozen
/// snapshot (if any), decide whether authoritative semantics need a new
/// freeze. The snapshot is reused exactly when no Python source changed and
/// a frozen snapshot exists; otherwise the index is frozen.
pub fn freeze_semantic_snapshot(
    fresh_index: &ScipIndex,
    identity: &ScipIdentity,
    changed_paths: &[String],
    last_frozen: Option<SemanticSnapshotId>,
    _eligible_universe: &[String],
) -> (r: FreezeDecision)
    ensures
        (r is Reuse) <==> (!touches_python(views(changed_paths@)) && last_frozen is Some),
        match r {
            FreezeDecision::Reuse { semantic_snapshot_id, reason } => {
                &&& last_frozen == Some(semantic_snapshot_id)
                &&& reason@ == REUSE_REASON@
            },
            FreezeDecision::Freeze(f) => is_freeze_of(f, *fresh_index, *identity),
        },
{
    match classify_changes(changed_paths) {
        ChangeClass::NonPython => {
            if let Some(existing) = last_frozen {
                return FreezeDecision::Reuse { semantic_snapshot_id: existing, reason: owned(REUSE_REASON) };
            }
            FreezeDecision::Freeze(run_freeze(fresh_index, identity))
        },
        ChangeClass::PythonSource => FreezeDecision::Freeze(run_freeze(fresh_index, identity)),
    }
}

/// Ingest the index, identify the graph, and record the indexer identity.
pub fn run_freeze(index: &ScipIndex, identity: &ScipIdentity) -> (r: SemanticFreeze)
    ensures
        is_freeze_of(r, *index, *identity),
{
    let (graph, report) = ingest(index);
    let semantic_snapshot_id = graph.semantic_snapshot_id(identity);
    SemanticFreeze { semantic_snapshot_id, graph, indexer_identity: identity.render(), report }
}

/// The certificate a freeze establishes over the eligible universe: every
/// eligible unit absent from the frozen graph is an explicit failure.
pub fn freeze_certificate(graph: &ScipGraph, eligible_universe: &[String]) -> (r: CoverageCertificate)
    ensures
        views(r.failures@) == views(eligible_universe@).filter(|p: Seq<char>| !views(graph.documents@).contains(p)),
        r.universe_complete == CoverageState::Established,
        r.failures@.len() == 0 ==> r.all_units_participated == CoverageState::Established,
        r.failures@.len() > 0 ==> r.all_units_participated == CoverageState::Failed,
{
    graph.coverage_certificate(eligible_universe)
}

/// BLAKE3 digest for freeze-site evidence encoding.
pub fn freeze_digest(bytes: &[u8]) -> (r: ContentHash)
    ensures
        r.algo == HashAlgo::Blake3,
        r.digest@ == blake3_digest(bytes@),
{
    digest_of(bytes)
}

} // verus!
