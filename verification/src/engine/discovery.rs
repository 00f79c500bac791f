//! Conservative dirty-candidate discovery.
//!
//! Given a reconcile [`ChangedSet`], determine which stored projection
//! observations **may** be affected. Soundness rule: never omit a
//! potentially affected observation; over-approximation is allowed and
//! documented.
//!
//! Discovery classes — every observation is anchored to its recording-time
//! source unit; a change to that unit selects the observation:
//!
//! 1. **File-scoped** (`FileContent`): subject IS the changed path.
//! 2. **Unit-anchored** (`Definition`, `Signature`, `Imports`): the
//!    observation's anchor path is in the changed set, OR the module/symbol
//!    inventory changed (any added or removed `.py` file), since inventory
//!    changes can rebind which unit backs a symbol.
//! 3. **Completeness-sensitive** (`Callers`, `References`,
//!    `Implementations`, `Subclasses`, `RepositorySearch`): candidates on
//!    **any** file-level change.
//! 4. **Conservative fallback** (all remaining kinds): inputs not yet
//!    modeled → candidate on any file-level change.
//!
//! An empty changed set selects nothing.
use vstd::prelude::*;

use crate::error::DomainError;
use crate::ids::{ContentHash, ProjectionId, ProjectionObservationId};
use crate::order::{canonical_set, canonical_set_of, contains_ordered, copy_all, strictly_sorted, views, Ordered};
use crate::program::model::{module_name_of, ModuleId};
use crate::projection::{
    completeness_sensitive, kind_keyword, kind_property, projection_wf, scope_name, subject_text,
    ObservationModel, Projection, ProjectionKind, ProjectionModel, ProjectionObservation, Property,
    Scope, Subject, SubjectModel,
};
use crate::source::reconcile::ChangedSet;
use crate::text::{contains_string, owned, str_eq};

verus! {

/// A recorded observation plus its full canonical projection key and
/// recording-time source anchor.
#[derive(Debug, Clone, PartialEq, Eq)]
pub struct RecordedObservation {
    /// The full canonical projection key (kind, subject, property, scope).
    pub projection: Projection,
    /// The persisted observation.
    pub observation: ProjectionObservation,
    /// The source unit the observation was evaluated against.
    pub anchor_path: String,
}

/// What a [`RecordedObservation`] records.
pub struct RecordedModel {
    /// The projection key.
    pub projection: ProjectionModel,
    /// The observation.
    pub observation: ObservationModel,
    /// The recording-time source anchor.
    pub anchor_path: Seq<char>,
}

impl View for RecordedObservation {
    type V = RecordedModel;

    open spec fn view(&self) -> RecordedModel {
        RecordedModel {
            projection: self.projection@,
            observation: self.observation@,
            anchor_path: self.anchor_path@,
        }
    }
}

/// A recorded symbol location (symbol→file reverse-index row).
#[derive(Debug, Clone, PartialEq, Eq)]
pub struct SymbolLocation {
    /// Canonical symbol path.
    pub symbol: String,
    /// The file that defined it at recording time.
    pub source_path: String,
}

/// Every changed path: added, modified, removed.
pub open spec fn changed_paths(c: ChangedSet) -> Seq<Seq<char>> {
    views(c.added@) + views(c.modified@) + views(c.removed@)
}

/// A canonical Python unit was added or removed (non-Python files cannot
/// rebind program resolution).
pub open spec fn inventory_changed(c: ChangedSet) -> bool {
    exists|p: Seq<char>|
        #[trigger] (views(c.added@) + views(c.removed@)).contains(p) && module_name_of(p) is Some
}

/// Whether a recorded observation may be affected by the change.
pub open spec fn may_be_affected(r: RecordedModel, c: ChangedSet) -> bool {
    match r.projection.kind {
        ProjectionKind::FileContent => changed_paths(c).contains(subject_text(r.projection.subject)),
        ProjectionKind::Definition | ProjectionKind::Signature | ProjectionKind::Imports => changed_paths(
            c,
        ).contains(r.anchor_path) || inventory_changed(c),
        _ => changed_paths(c).len() > 0,
    }
}

/// The ids of the recorded observations that may be affected, in input
/// order.
pub open spec fn affected_ids(recs: Seq<RecordedModel>, c: ChangedSet) -> Seq<ContentHash>
    decreases recs.len(),
{
    if recs.len() == 0 {
        Seq::empty()
    } else {
        let init = affected_ids(recs.drop_last(), c);
        if may_be_affected(recs.last(), c) {
            init.push(recs.last().observation.id)
        } else {
            init
        }
    }
}

/// The conservative reevaluation candidate set.
///
/// **Semantics:** membership means *may be affected* — the projection value
/// must be reevaluated before any conclusion. It does NOT mean the value
/// changed and it does NOT mean any artifact is stale.
#[derive(Debug, PartialEq, Eq)]
pub struct ReevaluationCandidates {
    observations: Vec<ProjectionObservationId>,
}

impl View for ReevaluationCandidates {
    type V = Seq<ContentHash>;

    closed spec fn view(&self) -> Seq<ContentHash> {
        views(self.observations@)
    }
}

impl Clone for ReevaluationCandidates {
    fn clone(&self) -> (r: Self)
        ensures
            r@ == self@,
    {
        proof {
            use_type_invariant(self);
        }
        ReevaluationCandidates { observations: copy_all(self.observations.as_slice()) }
    }
}

impl ReevaluationCandidates {
    #[verifier::type_invariant]
    spec fn canonical(self) -> bool {
        strictly_sorted::<ProjectionObservationId>(views(self.observations@))
    }

    /// Candidate observation ids in deterministic (canonical id) order.
    pub fn ids(&self) -> (r: Vec<ProjectionObservationId>)
        ensures
            views(r@) == self@,
            strictly_sorted::<ProjectionObservationId>(self@),
    {
        proof {
            use_type_invariant(self);
        }
        copy_all(self.observations.as_slice())
    }

    /// Number of candidates.
    pub fn len(&self) -> (r: usize)
        ensures
            r == self@.len(),
    {
        self.observations.len()
    }

    /// Whether there are no candidates.
    pub fn is_empty(&self) -> (r: bool)
        ensures
            r == (self@.len() == 0),
    {
        self.observations.len() == 0
    }

    /// Whether a specific observation is a candidate.
    pub fn contains(&self, id: &ProjectionObservationId) -> (r: bool)
        ensures
            r == self@.contains(id.0),
    {
        contains_ordered(&self.observations, id)
    }

    fn from_ids(ids: Vec<ProjectionObservationId>) -> (r: Self)
        ensures
            canonical_set_of::<ProjectionObservationId>(r@, views(ids@)),
    {
        ReevaluationCandidates { observations: canonical_set(ids) }
    }
}

/// Whether a projection kind makes completeness/absence claims and
/// therefore reacts to eligible-universe or symbol-inventory changes.
pub fn is_completeness_sensitive(kind: ProjectionKind) -> (r: bool)
    ensures
        r == completeness_sensitive(kind),
{
    kind.is_completeness_sensitive()
}

fn any_python_unit(paths: &[String]) -> (r: bool)
    ensures
        r == exists|i: int| 0 <= i < paths@.len() && module_name_of((#[trigger] paths@[i])@) is Some,
{
    let mut i: usize = 0;
    while i < paths.len()
        invariant
            i <= paths@.len(),
            forall|k: int| 0 <= k < i ==> module_name_of((#[trigger] paths@[k])@) is None,
        decreases paths.len() - i,
    {
        if ModuleId::from_path(paths[i].as_str()).is_some() {
            return true;
        }
        i = i + 1;
    }
    false
}

fn in_changed(c: &ChangedSet, p: &str) -> (r: bool)
    ensures
        r == changed_paths(*c).contains(p@),
{
    let r = contains_string(c.added.as_slice(), p) || contains_string(c.modified.as_slice(), p)
        || contains_string(c.removed.as_slice(), p);
    proof {
        let a = views(c.added@);
        let m = views(c.modified@);
        let d = views(c.removed@);
        if (a + m + d).contains(p@) {
            let k = choose|k: int| 0 <= k < (a + m + d).len() && (a + m + d)[k] == p@;
            if k < a.len() {
                assert(a[k] == p@);
            } else if k < a.len() + m.len() {
                assert(m[k - a.len()] == p@);
            } else {
                assert(d[k - a.len() - m.len()] == p@);
            }
        }
        if a.contains(p@) {
            let k = choose|k: int| 0 <= k < a.len() && a[k] == p@;
            assert((a + m + d)[k] == p@);
        }
        if m.contains(p@) {
            let k = choose|k: int| 0 <= k < m.len() && m[k] == p@;
            assert((a + m + d)[a.len() + k] == p@);
        }
        if d.contains(p@) {
            let k = choose|k: int| 0 <= k < d.len() && d[k] == p@;
            assert((a + m + d)[a.len() + m.len() + k] == p@);
        }
    }
    r
}

fn inventory_changed_exec(c: &ChangedSet) -> (r: bool)
    ensures
        r == inventory_changed(*c),
{
    let r = any_python_unit(c.added.as_slice()) || any_python_unit(c.removed.as_slice());
    proof {
        let a = views(c.added@);
        let d = views(c.removed@);
        if r {
            if exists|i: int| 0 <= i < c.added@.len() && module_name_of((#[trigger] c.added@[i])@) is Some {
                let i = choose|i: int| 0 <= i < c.added@.len() && module_name_of((#[trigger] c.added@[i])@) is Some;
                assert((a + d)[i] == c.added@[i]@);
                assert((a + d).contains(c.added@[i]@));
            } else {
                let i = choose|i: int| 0 <= i < c.removed@.len() && module_name_of((#[trigger] c.removed@[i])@) is Some;
                assert((a + d)[a.len() + i] == c.removed@[i]@);
                assert((a + d).contains(c.removed@[i]@));
            }
        } else {
            assert forall|p: Seq<char>| #[trigger] (a + d).contains(p) implies module_name_of(p) is None by {
                let k = choose|k: int| 0 <= k < (a + d).len() && (a + d)[k] == p;
                if k < a.len() {
                    assert(c.added@[k]@ == p);
                } else {
                    assert(c.removed@[k - a.len()]@ == p);
                }
            }
        }
    }
    r
}

/// Discover reevaluation candidates for a changed-file set over the
/// recorded observations (with persisted anchors).
///
/// Deterministic: candidates are deduplicated and ordered by canonical
/// observation id; the changed-set iteration order does not influence the
/// result.
pub fn reevaluation_candidates(changed: &ChangedSet, recorded: &[RecordedObservation]) -> (r:
    ReevaluationCandidates)
    ensures
        canonical_set_of::<ProjectionObservationId>(
            r@,
            affected_ids(recorded@.map_values(|x: RecordedObservation| x@), *changed),
        ),
{
    let ghost recs = recorded@.map_values(|x: RecordedObservation| x@);
    let universe_changed = changed.added.len() > 0 || changed.modified.len() > 0
        || changed.removed.len() > 0;
    let inventory = inventory_changed_exec(changed);
    let mut ids: Vec<ProjectionObservationId> = Vec::new();
    let mut i: usize = 0;
    while i < recorded.len()
        invariant
            i <= recorded@.len(),
            recs == recorded@.map_values(|x: RecordedObservation| x@),
            universe_changed == (changed_paths(*changed).len() > 0),
            inventory == inventory_changed(*changed),
            views(ids@) == affected_ids(recs.subrange(0, i as int), *changed),
        decreases recorded.len() - i,
    {
        let ghost sub = recs.subrange(0, i + 1);
        proof {
            assert(sub.drop_last() =~= recs.subrange(0, i as int));
            assert(sub.last() == recorded@[i as int]@);
        }
        let rec = &recorded[i];
        let selected = match rec.projection.kind() {
            ProjectionKind::FileContent => in_changed(changed, rec.projection.subject().canonical()),
            ProjectionKind::Definition | ProjectionKind::Signature | ProjectionKind::Imports => {
                in_changed(changed, rec.anchor_path.as_str()) || inventory
            },
            _ => universe_changed,
        };
        if selected {
            let ghost pre = ids@;
            let id = rec.observation.id();
            ids.push(id);
            proof {
                crate::order::lemma_views_push(pre, id);
            }
        }
        i = i + 1;
    }
    proof {
        assert(recs.subrange(0, recorded@.len() as int) =~= recs);
    }
    ReevaluationCandidates::from_ids(ids)
}

/// With no change, nothing may be affected: an empty changed set selects
/// no observation of any kind.
pub proof fn lemma_empty_change_selects_nothing(recs: Seq<RecordedModel>, c: ChangedSet)
    requires
        c.added@.len() == 0,
        c.modified@.len() == 0,
        c.removed@.len() == 0,
    ensures
        affected_ids(recs, c).len() == 0,
    decreases recs.len(),
{
    assert(changed_paths(c) =~= Seq::<Seq<char>>::empty());
    assert(views(c.added@) + views(c.removed@) =~= Seq::<Seq<char>>::empty());
    if recs.len() > 0 {
        lemma_empty_change_selects_nothing(recs.drop_last(), c);
    }
}

/// Discovery depends on the changed paths as sets: two changed sets with
/// the same changed paths, and the same added-or-removed paths, select the
/// same observations in the same order, whatever the order or repetition
/// of their lists.
pub proof fn lemma_discovery_order_insensitive(recs: Seq<RecordedModel>, c1: ChangedSet, c2: ChangedSet)
    requires
        changed_paths(c1).to_set() == changed_paths(c2).to_set(),
        (views(c1.added@) + views(c1.removed@)).to_set() == (views(c2.added@) + views(c2.removed@)).to_set(),
    ensures
        affected_ids(recs, c1) == affected_ids(recs, c2),
    decreases recs.len(),
{
    if recs.len() > 0 {
        lemma_discovery_order_insensitive(recs.drop_last(), c1, c2);
        let r = recs.last();
        let p1 = changed_paths(c1);
        let p2 = changed_paths(c2);
        assert forall|x: Seq<char>| p1.contains(x) == p2.contains(x) by {
            assert(p1.contains(x) == p1.to_set().contains(x));
            assert(p2.contains(x) == p2.to_set().contains(x));
        }
        if p1.len() > 0 {
            assert(p1.contains(p1[0]));
            assert(p2.contains(p1[0]));
        }
        if p2.len() > 0 {
            assert(p2.contains(p2[0]));
            assert(p1.contains(p2[0]));
        }
        let a1 = views(c1.added@) + views(c1.removed@);
        let a2 = views(c2.added@) + views(c2.removed@);
        assert forall|x: Seq<char>| a1.contains(x) == a2.contains(x) by {
            assert(a1.contains(x) == a1.to_set().contains(x));
            assert(a2.contains(x) == a2.to_set().contains(x));
        }
        if inventory_changed(c1) {
            let p = choose|p: Seq<char>| #[trigger] a1.contains(p) && module_name_of(p) is Some;
            assert(a2.contains(p));
        }
        if inventory_changed(c2) {
            let p = choose|p: Seq<char>| #[trigger] a2.contains(p) && module_name_of(p) is Some;
            assert(a1.contains(p));
        }
        assert(may_be_affected(r, c1) == may_be_affected(r, c2));
    }
}

/// Why a persisted projection descriptor could not be reconstructed.
/// Missing or inconsistent descriptors are corrupt state: discovery fails
/// closed rather than silently dropping an observation.
#[derive(Debug, PartialEq, Eq)]
pub enum DescriptorError {
    /// The kind keyword is not a known projection kind.
    UnknownKind(String),
    /// The scope name is not a known scope.
    UnknownScope(String),
    /// The subject variant name is not a known variant.
    UnknownVariant(String),
    /// The reconstructed projection violates a domain invariant.
    Invalid(DomainError),
    /// The reconstructed descriptor does not hash to the recorded
    /// projection id.
    IdMismatch,
}

/// The projection kind named by a keyword.
pub fn parse_kind(s: &str) -> (r: Option<ProjectionKind>)
    ensures
        match r {
            Some(k) => kind_keyword(k) == s@,
            None => forall|k: ProjectionKind| kind_keyword(k) != s@,
        },
{
    if str_eq(s, "file") {
        Some(ProjectionKind::FileContent)
    } else if str_eq(s, "definition") {
        Some(ProjectionKind::Definition)
    } else if str_eq(s, "signature") {
        Some(ProjectionKind::Signature)
    } else if str_eq(s, "references") {
        Some(ProjectionKind::References)
    } else if str_eq(s, "callers") {
        Some(ProjectionKind::Callers)
    } else if str_eq(s, "implementations") {
        Some(ProjectionKind::Implementations)
    } else if str_eq(s, "imports") {
        Some(ProjectionKind::Imports)
    } else if str_eq(s, "subclasses") {
        Some(ProjectionKind::Subclasses)
    } else if str_eq(s, "repository_search") {
        Some(ProjectionKind::RepositorySearch)
    } else if str_eq(s, "config_value") {
        Some(ProjectionKind::ConfigValue)
    } else if str_eq(s, "tool_version") {
        Some(ProjectionKind::ToolVersion)
    } else {
        None
    }
}

/// The scope named by its name.
pub fn parse_scope(s: &str) -> (r: Option<Scope>)
    ensures
        match r {
            Some(sc) => scope_name(sc) == s@,
            None => forall|sc: Scope| scope_name(sc) != s@,
        },
{
    if str_eq(s, "File") {
        Some(Scope::File)
    } else if str_eq(s, "Module") {
        Some(Scope::Module)
    } else if str_eq(s, "Package") {
        Some(Scope::Package)
    } else if str_eq(s, "Repository") {
        Some(Scope::Repository)
    } else {
        None
    }
}

/// The persisted name of a subject variant.
pub open spec fn variant_name(s: SubjectModel) -> Seq<char> {
    match s {
        SubjectModel::File(_) => "File"@,
        SubjectModel::Symbol(_) => "Symbol"@,
        SubjectModel::Module(_) => "Module"@,
        SubjectModel::Text(_) => "Text"@,
        SubjectModel::ConfigKey(_) => "ConfigKey"@,
        SubjectModel::Tool(_) => "Tool"@,
    }
}

/// Reconstruct the exact subject from the persisted variant + payload. The
/// variant is identity-bearing, so it must round-trip exactly.
pub fn subject_from_variant(variant: &str, subject: &str) -> (r: Option<Subject>)
    ensures
        match r {
            Some(s) => variant_name(s@) == variant@ && subject_text(s@) == subject@,
            None => forall|s: SubjectModel| variant_name(s) != variant@,
        },
{
    let text = owned(subject);
    if str_eq(variant, "File") {
        Some(Subject::File(text))
    } else if str_eq(variant, "Symbol") {
        Some(Subject::Symbol(text))
    } else if str_eq(variant, "Module") {
        Some(Subject::Module(text))
    } else if str_eq(variant, "Text") {
        Some(Subject::Text(text))
    } else if str_eq(variant, "ConfigKey") {
        Some(Subject::ConfigKey(text))
    } else if str_eq(variant, "Tool") {
        Some(Subject::Tool(text))
    } else {
        None
    }
}

/// The property consistent with a kind.
pub fn property_of(kind: ProjectionKind) -> (r: Property)
    ensures
        r == kind_property(kind),
{
    match Property::for_kind(kind) {
        Some(p) => p,
        None => Property::Content,
    }
}

/// Reconstruct a recorded projection from its persisted descriptor and
/// check that it hashes to the recorded projection id. **Fail closed**: a
/// descriptor that does not round-trip is corrupt persisted state.
///
/// # Errors
/// In order: [`DescriptorError::UnknownKind`], [`DescriptorError::UnknownScope`],
/// [`DescriptorError::UnknownVariant`], [`DescriptorError::Invalid`] for a
/// blank subject, [`DescriptorError::IdMismatch`] when the identity does
/// not re-derive.
pub fn projection_from_descriptor(
    kind: &str,
    variant: &str,
    subject: &str,
    scope: &str,
    expected: &ProjectionId,
) -> (r: Result<Projection, DescriptorError>)
    ensures
        match r {
            Ok(p) => {
                &&& kind_keyword(p@.kind) == kind@
                &&& variant_name(p@.subject) == variant@
                &&& subject_text(p@.subject) == subject@
                &&& scope_name(p@.scope) == scope@
                &&& p@.property == kind_property(p@.kind)
                &&& projection_wf(p@)
                &&& crate::hash::blake3_digest(crate::projection::projection_encoding(p@))
                    == expected.0.digest@
            },
            Err(DescriptorError::UnknownKind(s)) => s@ == kind@ && forall|k: ProjectionKind|
                kind_keyword(k) != kind@,
            Err(DescriptorError::UnknownScope(s)) => s@ == scope@ && forall|sc: Scope|
                scope_name(sc) != scope@,
            Err(DescriptorError::UnknownVariant(s)) => s@ == variant@ && forall|v: SubjectModel|
                variant_name(v) != variant@,
            Err(DescriptorError::Invalid(e)) => e == DomainError::EmptySubject
                && crate::text::blank(subject@),
            Err(DescriptorError::IdMismatch) => !crate::text::blank(subject@),
        },
{
    let k = match parse_kind(kind) {
        Some(k) => k,
        None => return Err(DescriptorError::UnknownKind(owned(kind))),
    };
    let sc = match parse_scope(scope) {
        Some(sc) => sc,
        None => return Err(DescriptorError::UnknownScope(owned(scope))),
    };
    let subj = match subject_from_variant(variant, subject) {
        Some(s) => s,
        None => return Err(DescriptorError::UnknownVariant(owned(variant))),
    };
    let projection = match Projection::new(k, subj, property_of(k), sc) {
        Ok(p) => p,
        Err(e) => {
            proof {
                crate::projection::lemma_kind_property_bijection(k, kind_property(k));
            }
            return Err(DescriptorError::Invalid(e));
        },
    };
    let id = projection.id();
    if !id.0.eq_exec(&expected.0) {
        return Err(DescriptorError::IdMismatch);
    }
    proof {
        assert(id.0.digest == expected.0.digest);
    }
    Ok(projection)
}

} // verus!
