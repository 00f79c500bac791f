//! Projection-observation production.
//!
//! Each helper turns one proven syntactic answer for a projection —
//! supplied as the full canonical projection so the observation's identity
//! is the canonical projection identity — into a projection observation
//! bound to a snapshot. Value digests are computed over canonical value
//! renderings. Unsupported answers produce no observation: nothing
//! synthetic is ever recorded.
use vstd::prelude::*;

use crate::hash::blake3_digest;
use crate::ids::{hash_text, ContentHash, HashAlgo, ProjectionId, SnapshotId};
use crate::observation_id::{canonical_observation_id, observation_encoding};
use crate::order::{canonical_set, canonical_set_of, views};
use crate::ids::{blake3_prefix_text, hex_text};
use crate::program::index::{Answer, ProgramIndex};
use crate::program::model::{canonical_signature, has_empty_part, module_name_of, Definition, DefKind, Import, ModuleId, Param, Signature, SymbolPath};
use crate::program::python::{dots_to_slashes, path_source, first_with_symbol, import_view, imports_view, prefix_module, resolve, sig_view, unit_defs, unit_for, unit_imports, unit_parsed, ImportModel, PythonSyntaxIndex, UnitModel};
use crate::projection::{kind_name, projection_encoding, subject_text, ObservationModel, Projection, ProjectionKind, ProjectionObservation};
use crate::text::{chars_of, owned, push_str, string_of_chars, utf8};

verus! {

/// Observation-production errors. Explicit, never silent.
#[derive(Debug, Clone, Copy, PartialEq, Eq, Structural)]
pub enum ObserveError {
    /// The supplied projection's kind does not match the helper's query
    /// family — associating one kind's identity with another kind's value
    /// would corrupt the observation record.
    KindMismatch {
        /// The kind the helper evaluates.
        expected: ProjectionKind,
        /// The kind the caller supplied.
        got: ProjectionKind,
    },
}

/// The human-readable rendering of an observation error.
pub open spec fn observe_message(e: ObserveError) -> Seq<char> {
    match e {
        ObserveError::KindMismatch { expected, got } => "kind mismatch: expected "@ + kind_name(expected)
            + ", got "@ + kind_name(got),
    }
}

impl ObserveError {
    /// The error rendered for people.
    pub fn to_string(&self) -> (r: String)
        ensures
            r@ == observe_message(*self),
    {
        match self {
            ObserveError::KindMismatch { expected, got } => {
                let mut s = owned("kind mismatch: expected ");
                push_str(&mut s, expected.name());
                push_str(&mut s, ", got ");
                push_str(&mut s, got.name());
                s
            },
        }
    }
}

/// Refuse a projection of another kind.
pub fn check_kind(projection: &Projection, expected: ProjectionKind) -> (r: Result<(), ObserveError>)
    ensures
        r is Ok <==> projection@.kind == expected,
        r is Err ==> r == Err::<(), ObserveError>(
            ObserveError::KindMismatch { expected, got: projection@.kind },
        ),
{
    if projection.kind() == expected {
        Ok(())
    } else {
        Err(ObserveError::KindMismatch { expected, got: projection.kind() })
    }
}

/// The value digest of a canonical value rendering.
pub open spec fn value_digest(canonical: Seq<char>) -> Seq<u8> {
    blake3_digest(utf8(canonical))
}

/// Canonical value digest: BLAKE3 over the canonical value rendering.
pub fn digest_of(canonical: &str) -> (r: ContentHash)
    ensures
        r.algo == HashAlgo::Blake3,
        r.digest@ == value_digest(canonical@),
{
    ContentHash::compute(HashAlgo::Blake3, canonical.as_bytes())
}

/// The observation a canonical value yields for a projection at a
/// snapshot: the value digest, and the canonical observation identity
/// over `(projection id, value digest, snapshot)`.
pub open spec fn observation_of(
    projection: ContentHash,
    snapshot: ContentHash,
    value: Seq<char>,
    o: ObservationModel,
) -> bool {
    &&& o.projection == projection
    &&& o.snapshot == snapshot
    &&& o.value_digest.algo == HashAlgo::Blake3
    &&& o.value_digest.digest@ == value_digest(value)
    &&& o.id.algo == HashAlgo::Blake3
    &&& o.id.digest@ == blake3_digest(observation_encoding(projection, o.value_digest, snapshot))
    &&& o.canonical_value is None
}

/// The identity of a projection, as `Projection::id` computes it.
pub open spec fn projection_identity(p: Projection, id: ContentHash) -> bool {
    id.algo == HashAlgo::Blake3 && id.digest@ == blake3_digest(projection_encoding(p@))
}

/// Build the observation of a canonical value.
pub fn observation(projection: &Projection, snapshot: SnapshotId, value_canonical: &str) -> (r:
    ProjectionObservation)
    ensures
        projection_identity(*projection, r@.projection),
        observation_of(r@.projection, snapshot.0, value_canonical@, r@),
{
    let value_hash = digest_of(value_canonical);
    let pid = projection.id();
    ProjectionObservation::new(
        canonical_observation_id(&pid, &value_hash, &snapshot),
        pid,
        snapshot,
        value_hash,
        None,
    )
}

/// An observation together with the authoritative source unit it was
/// evaluated against. The resolved source path is the path that MUST be
/// persisted as the observation's discovery anchor.
#[derive(Debug, PartialEq, Eq)]
pub struct ObservedObservation {
    observation: ProjectionObservation,
    resolved_source_path: String,
}

/// What an [`ObservedObservation`] records.
pub struct ObservedModel {
    /// The produced observation.
    pub observation: ObservationModel,
    /// The resolved source unit.
    pub resolved_source_path: Seq<char>,
}

impl View for ObservedObservation {
    type V = ObservedModel;

    closed spec fn view(&self) -> ObservedModel {
        ObservedModel {
            observation: self.observation@,
            resolved_source_path: self.resolved_source_path@,
        }
    }
}

impl ObservedObservation {
    /// The produced observation.
    pub fn observation(&self) -> (r: &ProjectionObservation)
        ensures
            r@ == self@.observation,
    {
        &self.observation
    }

    /// The authoritative current source unit for the evaluation.
    pub fn resolved_source_path(&self) -> (r: &str)
        ensures
            r@ == self@.resolved_source_path,
    {
        self.resolved_source_path.as_str()
    }
}

/// The rendering of a definition kind (its variant name).
pub open spec fn def_kind_name(k: DefKind) -> Seq<char> {
    match k {
        DefKind::Module => "Module"@,
        DefKind::Class => "Class"@,
        DefKind::Function => "Function"@,
        DefKind::AsyncFunction => "AsyncFunction"@,
        DefKind::Method => "Method"@,
        DefKind::AsyncMethod => "AsyncMethod"@,
    }
}

fn def_kind_name_exec(k: DefKind) -> (r: &'static str)
    ensures
        r@ == def_kind_name(k),
{
    match k {
        DefKind::Module => "Module",
        DefKind::Class => "Class",
        DefKind::Function => "Function",
        DefKind::AsyncFunction => "AsyncFunction",
        DefKind::Method => "Method",
        DefKind::AsyncMethod => "AsyncMethod",
    }
}

/// The canonical value of a present definition: `<kind>@<symbol>`.
pub fn definition_value(def: &Definition) -> (r: String)
    ensures
        r@ == def_kind_name(def.kind) + "@"@ + def.symbol@,
{
    let mut s = owned(def_kind_name_exec(def.kind));
    push_str(&mut s, "@");
    push_str(&mut s, def.symbol.as_str());
    s
}

/// The canonical rendering of one import, line excluded:
/// `<target> as <binding> (<from_import>)`.
pub open spec fn import_text(i: Import) -> Seq<char> {
    import_model_text(import_view(i))
}

fn import_rendering(i: &Import) -> (r: String)
    ensures
        r@ == import_text(*i),
{
    let mut s = owned(i.target.as_str());
    push_str(&mut s, " as ");
    push_str(&mut s, i.binding.as_str());
    push_str(&mut s, " (");
    push_str(&mut s, if i.from_import { "true" } else { "false" });
    push_str(&mut s, ")");
    s
}

/// The canonical value of a module's imports: the distinct import
/// renderings in byte order, joined by `; `. Line numbers are excluded:
/// they are formatting, not semantics.
pub fn imports_value(imports: &[Import]) -> (r: String)
    ensures
        exists|set: Seq<Seq<char>>|
            canonical_set_of::<String>(
                set,
                imports@.map_values(|i: Import| import_text(i)),
            ) && r@ == crate::program::model::join_with(set, "; "@),
{
    let mut rendered: Vec<String> = Vec::new();
    let mut k: usize = 0;
    while k < imports.len()
        invariant
            k <= imports@.len(),
            views(rendered@) == imports@.subrange(0, k as int).map_values(|i: Import| import_text(i)),
        decreases imports.len() - k,
    {
        let ghost pre = rendered@;
        let s = import_rendering(&imports[k]);
        rendered.push(s);
        proof {
            crate::order::lemma_views_push(pre, s);
            assert(imports@.subrange(0, k + 1).map_values(|i: Import| import_text(i)) =~= imports@.subrange(
                0,
                k as int,
            ).map_values(|i: Import| import_text(i)).push(import_text(imports@[k as int])));
        }
        k = k + 1;
    }
    assert(imports@.subrange(0, imports@.len() as int) =~= imports@);
    let set = canonical_set(rendered);
    let joined = crate::program::model::join_strings_pub(&set, "; ");
    joined
}

/// The canonical text of a BLAKE3 digest: `blake3:<hex>`.
pub open spec fn digest_text(d: Seq<u8>) -> Seq<char> {
    blake3_prefix_text().push(':') + hex_text(d)
}

/// The value and anchor of a file projection: the digest of the unit's
/// source, anchored at the path itself. Nothing for a path outside the
/// indexed universe or absent from it.
pub open spec fn file_value_spec(index: PythonSyntaxIndex, subj: Seq<char>) -> Option<(Seq<char>, Seq<char>)> {
    match module_name_of(subj) {
        None => None,
        Some(_) => match path_source(index.files_view(), subj) {
            None => None,
            Some(src) => Some((digest_text(blake3_digest(utf8(src))), subj)),
        },
    }
}

/// The cleanly parsed unit a symbol subject resolves to.
pub open spec fn parsed_symbol_unit(us: Seq<UnitModel>, subj: Seq<char>) -> Option<UnitModel> {
    if has_empty_part(subj) {
        None
    } else {
        match resolve(us, subj) {
            None => None,
            Some(m) => if unit_parsed(us, m) {
                unit_for(us, m)
            } else {
                None
            },
        }
    }
}

/// The canonical definition value a unit gives a symbol:
/// `<kind>@<symbol>`, or `absent` — proven absence is evidence too.
pub open spec fn definition_value_of(u: UnitModel, sym: Seq<char>) -> Seq<char> {
    match first_with_symbol(unit_defs(u), sym) {
        Some(d) => def_kind_name(d.kind) + "@"@ + d.symbol,
        None => "absent"@,
    }
}

/// The canonical signature value a unit gives a symbol, or `absent`.
pub open spec fn signature_value_of(u: UnitModel, sym: Seq<char>) -> Seq<char> {
    match first_with_symbol(unit_defs(u), sym) {
        Some(d) => match d.sig {
            Some(sg) => canonical_signature(sg.params, sg.ret),
            None => "absent"@,
        },
        None => "absent"@,
    }
}

/// The value and anchor of a definition projection.
pub open spec fn definition_value_spec(us: Seq<UnitModel>, subj: Seq<char>) -> Option<(Seq<char>, Seq<char>)> {
    match parsed_symbol_unit(us, subj) {
        None => None,
        Some(u) => Some((definition_value_of(u, subj), u.path)),
    }
}

/// The value and anchor of a signature projection.
pub open spec fn signature_value_spec(us: Seq<UnitModel>, subj: Seq<char>) -> Option<(Seq<char>, Seq<char>)> {
    match parsed_symbol_unit(us, subj) {
        None => None,
        Some(u) => Some((signature_value_of(u, subj), u.path)),
    }
}

/// The rendering of one import model, line excluded.
pub open spec fn import_model_text(i: ImportModel) -> Seq<char> {
    i.target + " as "@ + i.binding + " ("@ + (if i.from_import { "true"@ } else { "false"@ }) + ")"@
}

/// `v` is the canonical imports value of the models: their distinct
/// renderings in byte order, joined by `; `.
pub open spec fn imports_canonical(ms: Seq<ImportModel>, v: Seq<char>) -> bool {
    exists|set: Seq<Seq<char>>|
        canonical_set_of::<String>(set, ms.map_values(|i: ImportModel| import_model_text(i)))
            && v == crate::program::model::join_with(set, "; "@)
}

/// The cleanly parsed unit an imports subject (a dotted module) names.
pub open spec fn parsed_module_unit(us: Seq<UnitModel>, subj: Seq<char>) -> Option<UnitModel> {
    match prefix_module(subj) {
        None => None,
        Some(m) => if unit_parsed(us, m) {
            unit_for(us, m)
        } else {
            None
        },
    }
}

fn file_value_for(index: &PythonSyntaxIndex, subject: &str) -> (r: Option<(String, String)>)
    ensures
        match file_value_spec(*index, subject@) {
            None => r is None,
            Some(e) => r matches Some(x) && x.0@ == e.0 && x.1@ == e.1,
        },
{
    match index.file_digest_impl(subject) {
        Answer::Proven(Some(digest)) => Some((digest.to_string(), owned(subject))),
        _ => None,
    }
}

fn definition_value_for(index: &PythonSyntaxIndex, subject: &str) -> (r: Option<(String, String)>)
    ensures
        match definition_value_spec(index@, subject@) {
            None => r is None,
            Some(e) => r matches Some(x) && x.0@ == e.0 && x.1@ == e.1,
        },
{
    let symbol = match SymbolPath::new(subject) {
        Some(s) => s,
        None => {
            return None;
        },
    };
    let (_module, resolved) = match index.resolve_symbol_unit(&symbol) {
        Some(x) => x,
        None => {
            return None;
        },
    };
    match index.definition(&symbol) {
        Answer::Proven(Some(def)) => Some((definition_value(&def), resolved)),
        Answer::Proven(None) => Some((owned("absent"), resolved)),
        Answer::Unsupported(_) => None,
    }
}

fn signature_value_for(index: &PythonSyntaxIndex, subject: &str) -> (r: Option<(String, String)>)
    ensures
        match signature_value_spec(index@, subject@) {
            None => r is None,
            Some(e) => r matches Some(x) && x.0@ == e.0 && x.1@ == e.1,
        },
{
    let symbol = match SymbolPath::new(subject) {
        Some(s) => s,
        None => {
            return None;
        },
    };
    let (_module, resolved) = match index.resolve_symbol_unit(&symbol) {
        Some(x) => x,
        None => {
            return None;
        },
    };
    match index.signature(&symbol) {
        Answer::Proven(Some(sig)) => {
            let text = sig.canonical();
            proof {
                assert(sig.params@.map_values(|p: Param| p@) =~= sig_view(sig).params);
            }
            Some((text, resolved))
        },
        Answer::Proven(None) => Some((owned("absent"), resolved)),
        Answer::Unsupported(_) => None,
    }
}

fn imports_value_for(index: &PythonSyntaxIndex, subject: &str) -> (r: Option<(String, String)>)
    ensures
        match parsed_module_unit(index@, subject@) {
            None => r is None,
            Some(u) => r matches Some(x) && imports_canonical(unit_imports(u), x.0@) && x.1@ == u.path,
        },
{
    let cs = chars_of(subject);
    let mut path: Vec<char> = Vec::new();
    let mut k: usize = 0;
    while k < cs.len()
        invariant
            k <= cs@.len(),
            cs@ == subject@,
            path@ == dots_to_slashes(cs@.subrange(0, k as int)),
        decreases cs.len() - k,
    {
        path.push(if cs[k] == '.' { '/' } else { cs[k] });
        assert(dots_to_slashes(cs@.subrange(0, k + 1)) =~= dots_to_slashes(cs@.subrange(0, k as int)).push(
            if cs@[k as int] == '.' { '/' } else { cs@[k as int] },
        ));
        k = k + 1;
    }
    assert(cs@.subrange(0, cs@.len() as int) =~= cs@);
    let mut text = string_of_chars(path.as_slice());
    push_str(&mut text, ".py");
    let module = match ModuleId::from_path(text.as_str()) {
        Some(m) => m,
        None => {
            return None;
        },
    };
    let imports = match index.extract_imports(&module) {
        Answer::Proven(v) => v,
        Answer::Unsupported(_) => {
            return None;
        },
    };
    let value = imports_value(imports.as_slice());
    proof {
        assert(imports@.map_values(|i: Import| import_text(i)) =~= imports_view(imports@).map_values(
            |i: ImportModel| import_model_text(i),
        ));
    }
    match index.unit_path(&module) {
        Some(p) => Some((value, owned(p))),
        None => None,
    }
}

/// The canonical value of one of the four syntactic projection kinds
/// (file content, definition, signature, imports) at the current index,
/// when proven; nothing for other kinds or without proven evidence.
pub fn syntactic_value_canonical(index: &PythonSyntaxIndex, projection: &Projection) -> (r: Option<String>)
    ensures
        match projection@.kind {
            ProjectionKind::FileContent => match file_value_spec(*index, subject_text(projection@.subject)) {
                None => r is None,
                Some(e) => r matches Some(v) && v@ == e.0,
            },
            ProjectionKind::Definition => match definition_value_spec(index@, subject_text(projection@.subject)) {
                None => r is None,
                Some(e) => r matches Some(v) && v@ == e.0,
            },
            ProjectionKind::Signature => match signature_value_spec(index@, subject_text(projection@.subject)) {
                None => r is None,
                Some(e) => r matches Some(v) && v@ == e.0,
            },
            ProjectionKind::Imports => match parsed_module_unit(index@, subject_text(projection@.subject)) {
                None => r is None,
                Some(u) => r matches Some(v) && imports_canonical(unit_imports(u), v@),
            },
            _ => r is None,
        },
{
    let subject = projection.subject().canonical();
    let found = match projection.kind() {
        ProjectionKind::FileContent => file_value_for(index, subject),
        ProjectionKind::Definition => definition_value_for(index, subject),
        ProjectionKind::Signature => signature_value_for(index, subject),
        ProjectionKind::Imports => imports_value_for(index, subject),
        _ => None,
    };
    match found {
        Some((v, _)) => Some(v),
        None => None,
    }
}

fn observed(projection: &Projection, snapshot: SnapshotId, found: Option<(String, String)>) -> (r: Option<ObservedObservation>)
    ensures
        match found {
            None => r is None,
            Some(x) => r matches Some(o) && observation_of(o@.observation.projection, snapshot.0, x.0@, o@.observation)
                && projection_identity(*projection, o@.observation.projection) && o@.resolved_source_path == x.1@,
        },
{
    match found {
        Some((value, path)) => Some(ObservedObservation { observation: observation(projection, snapshot, value.as_str()), resolved_source_path: path }),
        None => None,
    }
}

/// The mismatch error of a helper for `expected` given `projection`.
pub open spec fn mismatch(projection: Projection, expected: ProjectionKind) -> ObserveError {
    ObserveError::KindMismatch { expected, got: projection@.kind }
}

/// Observe a file content digest (`file(path)` projection). Proven absence
/// or an out-of-universe path produce no observation: removal is surfaced
/// by the reconcile changed set, not by an observation value.
///
/// # Errors
/// [`ObserveError::KindMismatch`] unless the projection is a file
/// projection.
pub fn observe_file_digest(index: &PythonSyntaxIndex, projection: &Projection, snapshot: SnapshotId) -> (r: Result<Option<ObservedObservation>, ObserveError>)
    ensures
        projection@.kind != ProjectionKind::FileContent ==> r == Err::<Option<ObservedObservation>, ObserveError>(mismatch(*projection, ProjectionKind::FileContent)),
        projection@.kind == ProjectionKind::FileContent ==> match file_value_spec(*index, subject_text(projection@.subject)) {
            None => r matches Ok(None),
            Some(e) => r matches Ok(Some(o)) && observation_of(o@.observation.projection, snapshot.0, e.0, o@.observation)
                && projection_identity(*projection, o@.observation.projection) && o@.resolved_source_path == e.1,
        },
{
    if let Err(e) = check_kind(projection, ProjectionKind::FileContent) {
        return Err(e);
    }
    Ok(observed(projection, snapshot, file_value_for(index, projection.subject().canonical())))
}

/// Observe a symbol's syntactic definition (`definition(symbol)`): the
/// definition's `<kind>@<symbol>`, or `absent` for a proven absence in a
/// cleanly parsed unit, anchored at the unit the symbol resolves to.
///
/// # Errors
/// [`ObserveError::KindMismatch`] unless the projection is a definition
/// projection.
pub fn observe_definition(index: &PythonSyntaxIndex, projection: &Projection, snapshot: SnapshotId) -> (r: Result<Option<ObservedObservation>, ObserveError>)
    ensures
        projection@.kind != ProjectionKind::Definition ==> r == Err::<Option<ObservedObservation>, ObserveError>(mismatch(*projection, ProjectionKind::Definition)),
        projection@.kind == ProjectionKind::Definition ==> match definition_value_spec(index@, subject_text(projection@.subject)) {
            None => r matches Ok(None),
            Some(e) => r matches Ok(Some(o)) && observation_of(o@.observation.projection, snapshot.0, e.0, o@.observation)
                && projection_identity(*projection, o@.observation.projection) && o@.resolved_source_path == e.1,
        },
{
    if let Err(e) = check_kind(projection, ProjectionKind::Definition) {
        return Err(e);
    }
    Ok(observed(projection, snapshot, definition_value_for(index, projection.subject().canonical())))
}

/// Observe a symbol's normalized signature (`signature(symbol)`): its
/// canonical rendering, or `absent`.
///
/// # Errors
/// [`ObserveError::KindMismatch`] unless the projection is a signature
/// projection.
pub fn observe_signature(index: &PythonSyntaxIndex, projection: &Projection, snapshot: SnapshotId) -> (r: Result<Option<ObservedObservation>, ObserveError>)
    ensures
        projection@.kind != ProjectionKind::Signature ==> r == Err::<Option<ObservedObservation>, ObserveError>(mismatch(*projection, ProjectionKind::Signature)),
        projection@.kind == ProjectionKind::Signature ==> match signature_value_spec(index@, subject_text(projection@.subject)) {
            None => r matches Ok(None),
            Some(e) => r matches Ok(Some(o)) && observation_of(o@.observation.projection, snapshot.0, e.0, o@.observation)
                && projection_identity(*projection, o@.observation.projection) && o@.resolved_source_path == e.1,
        },
{
    if let Err(e) = check_kind(projection, ProjectionKind::Signature) {
        return Err(e);
    }
    Ok(observed(projection, snapshot, signature_value_for(index, projection.subject().canonical())))
}

/// Observe a module's syntactic imports (`imports(module, scope)`) as a
/// canonical sorted set. Line numbers are excluded: they are formatting,
/// not semantics.
///
/// # Errors
/// [`ObserveError::KindMismatch`] unless the projection is an imports
/// projection.
pub fn observe_imports(index: &PythonSyntaxIndex, projection: &Projection, snapshot: SnapshotId) -> (r: Result<Option<ObservedObservation>, ObserveError>)
    ensures
        projection@.kind != ProjectionKind::Imports ==> r == Err::<Option<ObservedObservation>, ObserveError>(mismatch(*projection, ProjectionKind::Imports)),
        projection@.kind == ProjectionKind::Imports ==> match parsed_module_unit(index@, subject_text(projection@.subject)) {
            None => r matches Ok(None),
            Some(u) => r matches Ok(Some(o)) && (exists|v: Seq<char>| imports_canonical(unit_imports(u), v)
                && observation_of(o@.observation.projection, snapshot.0, v, o@.observation))
                && projection_identity(*projection, o@.observation.projection) && o@.resolved_source_path == u.path,
        },
{
    if let Err(e) = check_kind(projection, ProjectionKind::Imports) {
        return Err(e);
    }
    let found = imports_value_for(index, projection.subject().canonical());
    let ghost f = found;
    let r = observed(projection, snapshot, found);
    proof {
        if f is Some {
            assert(imports_canonical(unit_imports(parsed_module_unit(index@, subject_text(projection@.subject)).unwrap()), f.unwrap().0@));
        }
    }
    Ok(r)
}

} // verus!
