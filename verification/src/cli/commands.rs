//! The decisions of the command surface: which projections an artifact
//! depends on, where each observation is anchored, how published pins are
//! named and checked, and the identities of what a publication writes.

use vstd::prelude::*;

use crate::cli::lexical::{split_at_char, split_char};
use crate::json::{member_of, as_text, get_index, get_key, json_at, json_document, json_get, json_text, json_view, json_views, member_views, parse_json, Json, JsonView};
use crate::cli::semantic::{approx_members, lookup_content, tree_lookup, CliSemanticSource, APPROX_BACKEND, SYNTAX_BACKEND};
use crate::cli::state::{digest_str, module_source_path};
use crate::error::{domain_message, DomainError};
use crate::hash::blake3_digest;
use crate::engine::redgreen::{validity_name, validity_name_exec, OutcomeModel, ProjectionOutcome, ProjectionOutcomeKind, ReevaluationSource};
use crate::engine::sources::{eval_value, syntactic_answer};
use crate::ids::{blake3_prefix_text, hex_text, ArtifactId, AttestationId, ContentHash, DerivationId, HashAlgo, ProjectionId};
use crate::order::{canonical_set_of, contains_ordered, Ordered};
use crate::program::python::PythonSyntaxIndex;
use crate::projection::projection_encoding;
use crate::coverage::{CoverageCertificate, CoverageState, Universe};
use crate::engine::redgreen::CoverageContext;
use crate::ids::{parse_hash_text, EnvironmentFingerprintId, ManifestId, RepositoryId, SnapshotId};
use crate::snapshot::{Snapshot, SnapshotModel};
use crate::source::manifest::{has_conflict, is_canonical_path, least_conflict, manifest_encoding, Manifest, ManifestEntry, ManifestError};
use crate::source::reconcile::ChangedSet;
use crate::validity::Validity;
use crate::order::views;
use crate::program::model::{join_strings_pub, join_with};
use crate::program::python::{dots_to_slashes, entry_views};
use crate::projection::{
    kind_name, scope_name, simple_model, subject_text, Projection, ProjectionKind, ProjectionModel, Scope,
    SubjectModel,
};
use vstd::string::StringSliceAdditionalSpecFns;
use crate::text::{blank, chars_of, decimal, is_ws, owned, push_str, str_eq, string_of_chars, u64_to_decimal, utf8};

verus! {

/// The pin keyword of a projection kind.
pub open spec fn pin_kind_text(k: ProjectionKind) -> Seq<char> {
    match k {
        ProjectionKind::Callers => "callers"@,
        ProjectionKind::FileContent => "file"@,
        ProjectionKind::Imports => "imports"@,
        ProjectionKind::Definition => "definition"@,
        ProjectionKind::Signature => "signature"@,
        _ => "other"@,
    }
}

/// The pin keyword of a projection.
pub fn pin_kind(projection: &Projection) -> (r: &'static str)
    ensures
        r@ == pin_kind_text(projection@.kind),
{
    match projection.kind() {
        ProjectionKind::Callers => "callers",
        ProjectionKind::FileContent => "file",
        ProjectionKind::Imports => "imports",
        ProjectionKind::Definition => "definition",
        ProjectionKind::Signature => "signature",
        _ => "other",
    }
}

/// The pin scope of a projection: its scope's name.
pub fn pin_scope(projection: &Projection) -> (r: String)
    ensures
        r@ == scope_name(projection@.scope),
{
    owned(projection.scope().name())
}

/// What a projection constructor call yields: the model, or the rendered
/// construction error (a blank subject).
pub open spec fn built_model(kind: ProjectionKind, subject: SubjectModel, scope: Scope) -> Result<ProjectionModel, Seq<char>> {
    if blank(subject_text(subject)) {
        Err(domain_message(DomainError::EmptySubject))
    } else {
        Ok(simple_model(kind, subject, scope))
    }
}

/// The projection a pin `(keyword, subject, scope)` names.
pub open spec fn pin_model(kind: Seq<char>, subject: Seq<char>, scope: Seq<char>) -> Result<ProjectionModel, Seq<char>> {
    if kind == "callers"@ && scope == "Repository"@ {
        built_model(ProjectionKind::Callers, SubjectModel::Symbol(subject), Scope::Repository)
    } else if kind == "file"@ {
        built_model(ProjectionKind::FileContent, SubjectModel::File(subject), Scope::File)
    } else if kind == "imports"@ && scope == "Module"@ {
        built_model(ProjectionKind::Imports, SubjectModel::Module(subject), Scope::Module)
    } else if kind == "definition"@ {
        built_model(ProjectionKind::Definition, SubjectModel::Symbol(subject), Scope::Repository)
    } else if kind == "signature"@ {
        built_model(ProjectionKind::Signature, SubjectModel::Symbol(subject), Scope::Repository)
    } else {
        Err("unknown pin kind "@ + kind)
    }
}

/// A projection result by its model.
pub open spec fn projection_result(r: Result<Projection, String>) -> Result<ProjectionModel, Seq<char>> {
    match r {
        Ok(p) => Ok(p@),
        Err(e) => Err(e@),
    }
}

fn rendered(r: Result<Projection, DomainError>) -> (out: Result<Projection, String>)
    ensures
        match r {
            Ok(p) => out == Ok::<Projection, String>(p),
            Err(e) => out matches Err(m) && m@ == domain_message(e),
        },
{
    match r {
        Ok(p) => Ok(p),
        Err(e) => Err(e.to_string()),
    }
}

/// The projection a stored pin names.
///
/// # Errors
/// `unknown pin kind <kind>` for a keyword/scope pair no pin is written
/// with; the construction error when the subject is blank.
pub fn pin_projection(kind: &str, subject: &str, scope: &str) -> (r: Result<Projection, String>)
    ensures
        projection_result(r) == pin_model(kind@, subject@, scope@),
{
    if str_eq(kind, "callers") && str_eq(scope, "Repository") {
        rendered(Projection::callers(subject, Scope::Repository))
    } else if str_eq(kind, "file") {
        rendered(Projection::file(subject))
    } else if str_eq(kind, "imports") && str_eq(scope, "Module") {
        rendered(Projection::imports(subject, Scope::Module))
    } else if str_eq(kind, "definition") {
        rendered(Projection::definition(subject))
    } else if str_eq(kind, "signature") {
        rendered(Projection::signature(subject))
    } else {
        let mut e = owned("unknown pin kind ");
        push_str(&mut e, kind);
        Err(e)
    }
}

/// The source file of a dotted module.
pub open spec fn module_file(module: Seq<char>) -> Seq<char> {
    dots_to_slashes(module) + ".py"@
}

/// The tree holds the path.
pub open spec fn has_path(tree: Seq<(Seq<char>, Seq<char>)>, path: Seq<char>) -> bool {
    tree_lookup(tree, path) is Some
}

fn tree_has(tree: &[(String, String)], path: &str) -> (r: bool)
    ensures
        r == has_path(entry_views(tree@), path@),
{
    lookup_content(tree, path).is_some()
}

proof fn lemma_module_file_not_blank(module: Seq<char>)
    ensures
        !blank(module_file(module)),
{
    reveal_strlit(".py");
    let f = module_file(module);
    assert(f[f.len() - 1] == 'y');
    assert(!is_ws('y'));
}

/// One projection, or the construction error.
pub open spec fn one_dependency(kind: ProjectionKind, subject: SubjectModel, scope: Scope) -> Result<Seq<ProjectionModel>, Seq<char>> {
    match built_model(kind, subject, scope) {
        Ok(m) => Ok(seq![m]),
        Err(e) => Err(e),
    }
}

/// The file projections of a note's dependencies, or the first missing
/// module.
pub open spec fn note_dependencies(deps: Seq<Seq<char>>, tree: Seq<(Seq<char>, Seq<char>)>) -> Result<Seq<ProjectionModel>, Seq<char>>
    decreases deps.len(),
{
    if deps.len() == 0 {
        Ok(Seq::empty())
    } else {
        match note_dependencies(deps.drop_last(), tree) {
            Err(e) => Err(e),
            Ok(ps) => {
                let path = module_file(deps.last());
                if !has_path(tree, path) {
                    Err("notes dep must be a dotted module name present in the tree (e.g. users.service); '"@
                        + deps.last() + "' resolves to missing "@ + path)
                } else {
                    Ok(ps.push(simple_model(ProjectionKind::FileContent, SubjectModel::File(path), Scope::File)))
                }
            },
        }
    }
}

/// The dependency projections of an artifact kind.
pub open spec fn dependency_spec(
    kind: Seq<char>,
    key: Seq<char>,
    deps: Seq<Seq<char>>,
    tree: Seq<(Seq<char>, Seq<char>)>,
) -> Result<Seq<ProjectionModel>, Seq<char>> {
    if kind == "callers"@ || kind == "references"@ {
        one_dependency(ProjectionKind::Callers, SubjectModel::Symbol(key), Scope::Repository)
    } else if kind == "definitions"@ {
        one_dependency(ProjectionKind::Definition, SubjectModel::Symbol(key), Scope::Repository)
    } else if kind == "imports"@ {
        one_dependency(ProjectionKind::Imports, SubjectModel::Module(key), Scope::Module)
    } else if kind == "filemap"@ {
        let path = module_file(key);
        if !has_path(tree, path) {
            Err("filemap key must be a dotted module name present in the tree (e.g. auth.tokens); '"@ + key
                + "' resolves to missing "@ + path)
        } else {
            Ok(seq![simple_model(ProjectionKind::FileContent, SubjectModel::File(path), Scope::File)])
        }
    } else if kind == "notes"@ {
        match note_dependencies(deps, tree) {
            Ok(ps) => if ps.len() == 0 {
                Err("notes artifacts require at least one --dep FILE (dotted module names the note depends on)"@)
            } else {
                Ok(ps)
            },
            Err(e) => Err(e),
        }
    } else {
        Err("unknown artifact kind "@ + kind)
    }
}

/// The result of a dependency computation, by views.
pub open spec fn dependency_result(r: Result<Vec<Projection>, String>) -> Result<Seq<ProjectionModel>, Seq<char>> {
    match r {
        Ok(v) => Ok(views(v@)),
        Err(e) => Err(e@),
    }
}

fn single(r: Result<Projection, DomainError>) -> (out: Result<Vec<Projection>, String>)
    ensures
        match r {
            Ok(p) => out matches Ok(v) && views(v@) == seq![p@],
            Err(e) => out matches Err(m) && m@ == domain_message(e),
        },
{
    match r {
        Ok(p) => {
            let mut v: Vec<Projection> = Vec::new();
            v.push(p);
            proof {
                assert(views(v@) =~= seq![p@]);
            }
            Ok(v)
        },
        Err(e) => Err(e.to_string()),
    }
}

/// The projections an artifact of a kind depends on: the callers set for
/// `callers`/`references` keys, the definition for `definitions`, the
/// import set for `imports`, the module's file for `filemap`, and the files
/// of the dotted modules a note names for `notes`.
///
/// # Errors
/// The messages of [`dependency_spec`]: a module missing from the tree, a
/// note without dependencies, an unknown kind, a blank key.
pub fn dependency_projections(kind: &str, key: &str, deps: &[String], tree: &[(String, String)]) -> (r: Result<
    Vec<Projection>,
    String,
>)
    ensures
        dependency_result(r) == dependency_spec(kind@, key@, views(deps@), entry_views(tree@)),
{
    if str_eq(kind, "callers") || str_eq(kind, "references") {
        single(Projection::callers(key, Scope::Repository))
    } else if str_eq(kind, "definitions") {
        single(Projection::definition(key))
    } else if str_eq(kind, "imports") {
        single(Projection::imports(key, Scope::Module))
    } else if str_eq(kind, "filemap") {
        let path = module_source_path(key);
        if !tree_has(tree, path.as_str()) {
            let mut e = owned("filemap key must be a dotted module name present in the tree (e.g. auth.tokens); '");
            push_str(&mut e, key);
            push_str(&mut e, "' resolves to missing ");
            push_str(&mut e, path.as_str());
            return Err(e);
        }
        proof {
            lemma_module_file_not_blank(key@);
        }
        single(Projection::file(path.as_str()))
    } else if str_eq(kind, "notes") {
        let ghost dv = views(deps@);
        let ghost tv = entry_views(tree@);
        let mut out: Vec<Projection> = Vec::new();
        let mut i: usize = 0;
        proof {
            assert(dv.subrange(0, 0).len() == 0);
            assert(views(out@) =~= Seq::<ProjectionModel>::empty());
        }
        while i < deps.len()
            invariant
                i <= deps@.len(),
                dv == views(deps@),
                tv == entry_views(tree@),
                !(kind@ == "callers"@ || kind@ == "references"@),
                kind@ != "definitions"@,
                kind@ != "imports"@,
                kind@ != "filemap"@,
                kind@ == "notes"@,
                note_dependencies(dv.subrange(0, i as int), tv) == Ok::<Seq<ProjectionModel>, Seq<char>>(views(out@)),
            decreases deps.len() - i,
        {
            let ghost sub = dv.subrange(0, i + 1);
            proof {
                assert(sub.drop_last() =~= dv.subrange(0, i as int));
                assert(sub.last() == deps@[i as int]@);
            }
            let path = module_source_path(deps[i].as_str());
            if !tree_has(tree, path.as_str()) {
                let mut e = owned("notes dep must be a dotted module name present in the tree (e.g. users.service); '");
                push_str(&mut e, deps[i].as_str());
                push_str(&mut e, "' resolves to missing ");
                push_str(&mut e, path.as_str());
                proof {
                    assert(note_dependencies(dv.subrange(0, i + 1), tv) == Err::<Seq<ProjectionModel>, Seq<char>>(e@));
                    lemma_note_error_persists(dv, tv, i as int + 1);
                }
                return Err(e);
            }
            proof {
                lemma_module_file_not_blank(deps@[i as int]@);
            }
            let p = match Projection::file(path.as_str()) {
                Ok(p) => p,
                Err(_) => {
                    proof {
                        assert(false);
                    }
                    return Err(owned(""));
                },
            };
            let ghost pre = out@;
            out.push(p);
            proof {
                crate::order::lemma_views_push(pre, p);
            }
            i = i + 1;
        }
        proof {
            assert(dv.subrange(0, deps@.len() as int) =~= dv);
        }
        if out.len() == 0 {
            return Err(owned("notes artifacts require at least one --dep FILE (dotted module names the note depends on)"));
        }
        Ok(out)
    } else {
        let mut e = owned("unknown artifact kind ");
        push_str(&mut e, kind);
        Err(e)
    }
}

/// Once a prefix of the dependencies fails, the whole list fails with the
/// same message.
proof fn lemma_note_error_persists(deps: Seq<Seq<char>>, tree: Seq<(Seq<char>, Seq<char>)>, k: int)
    requires
        0 <= k <= deps.len(),
        note_dependencies(deps.subrange(0, k), tree) is Err,
    ensures
        note_dependencies(deps, tree) == note_dependencies(deps.subrange(0, k), tree),
    decreases deps.len() - k,
{
    if k < deps.len() {
        let next = deps.subrange(0, k + 1);
        assert(next.drop_last() =~= deps.subrange(0, k));
        lemma_note_error_persists(deps, tree, k + 1);
    } else {
        assert(deps.subrange(0, k) =~= deps);
    }
}

/// The module file of the longest dotted prefix of `parts` with at most
/// `n` parts (and at least one) that the tree holds.
pub open spec fn prefix_anchor(tree: Seq<(Seq<char>, Seq<char>)>, parts: Seq<Seq<char>>, n: nat) -> Option<Seq<char>>
    decreases n,
{
    if n == 0 {
        None
    } else {
        let path = module_file(join_with(parts.take(n as int), "."@));
        if has_path(tree, path) {
            Some(path)
        } else {
            prefix_anchor(tree, parts, (n - 1) as nat)
        }
    }
}

/// Where an observation of a projection is anchored: the file whose
/// content the projection depends on.
pub open spec fn anchor_spec(p: ProjectionModel, tree: Seq<(Seq<char>, Seq<char>)>) -> Result<Seq<char>, Seq<char>> {
    let subj = subject_text(p.subject);
    let parts = split_char(subj, '.');
    let missing = "definition site of "@ + subj + " not found in tree"@;
    let by_prefix = match prefix_anchor(tree, parts, (parts.len() - 1) as nat) {
        Some(a) => Ok(a),
        None => Err(missing),
    };
    match p.kind {
        ProjectionKind::FileContent => Ok(subj),
        ProjectionKind::Imports => Ok(module_file(subj)),
        ProjectionKind::Definition => if has_path(tree, module_file(subj)) {
            Ok(module_file(subj))
        } else {
            by_prefix
        },
        ProjectionKind::Callers | ProjectionKind::References | ProjectionKind::Signature => by_prefix,
        k => Err("no anchor rule for kind "@ + kind_name(k)),
    }
}

fn anchor_by_prefix(subject: &str, tree: &[(String, String)]) -> (r: Result<String, String>)
    ensures
        ({
            let parts = split_char(subject@, '.');
            match prefix_anchor(entry_views(tree@), parts, (parts.len() - 1) as nat) {
                Some(a) => r matches Ok(s) && s@ == a,
                None => r matches Err(e) && e@ == "definition site of "@ + subject@ + " not found in tree"@,
            }
        }),
{
    let ghost tv = entry_views(tree@);
    let cs = chars_of(subject);
    let pieces = split_at_char(&cs, '.');
    let ghost parts = split_char(subject@, '.');
    let mut names: Vec<String> = Vec::new();
    let mut i: usize = 0;
    while i < pieces.len()
        invariant
            i <= pieces@.len(),
            pieces@.map_values(|p: Vec<char>| p@) == parts,
            views(names@) == parts.subrange(0, i as int),
        decreases pieces.len() - i,
    {
        let ghost pre = names@;
        let s = string_of_chars(pieces[i].as_slice());
        names.push(s);
        proof {
            crate::order::lemma_views_push(pre, s);
            assert(parts.subrange(0, i + 1) =~= parts.subrange(0, i as int).push(parts[i as int]));
        }
        i = i + 1;
    }
    proof {
        assert(parts.subrange(0, pieces@.len() as int) =~= parts);
        crate::cli::lexical::lemma_split_len(subject@, '.');
    }
    let mut n: usize = names.len() - 1;
    while n > 0
        invariant
            n < names@.len(),
            views(names@) == parts,
            parts == split_char(subject@, '.'),
            tv == entry_views(tree@),
            prefix_anchor(tv, parts, (parts.len() - 1) as nat) == prefix_anchor(tv, parts, n as nat),
        decreases n,
    {
        let mut prefix: Vec<String> = Vec::new();
        let mut k: usize = 0;
        while k < n
            invariant
                k <= n,
                n < names@.len(),
                views(names@) == parts,
                views(prefix@) == parts.take(k as int),
                parts == split_char(subject@, '.'),
                tv == entry_views(tree@),
                prefix_anchor(tv, parts, (parts.len() - 1) as nat) == prefix_anchor(tv, parts, n as nat),
            decreases n - k,
        {
            let ghost pre = prefix@;
            let s = owned(names[k].as_str());
            prefix.push(s);
            proof {
                crate::order::lemma_views_push(pre, s);
                assert(parts.take(k + 1) =~= parts.take(k as int).push(parts[k as int]));
            }
            k = k + 1;
        }
        let module = join_strings_pub(&prefix, ".");
        let path = module_source_path(module.as_str());
        proof {
            assert(views(prefix@) == parts.take(n as int));
            assert(path@ == module_file(join_with(parts.take(n as int), "."@)));
        }
        if tree_has(tree, path.as_str()) {
            assert(prefix_anchor(tv, parts, n as nat) == Some(path@));
            return Ok(path);
        }
        n = n - 1;
    }
    let mut e = owned("definition site of ");
    push_str(&mut e, subject);
    push_str(&mut e, " not found in tree");
    Err(e)
}

/// The anchor path of an observation of the projection.
///
/// # Errors
/// `definition site of <subject> not found in tree` when no dotted prefix
/// of a symbol names a file of the tree; `no anchor rule for kind <Kind>`
/// for kinds the CLI never records.
pub fn anchor_for(projection: &Projection, tree: &[(String, String)]) -> (r: Result<String, String>)
    ensures
        match anchor_spec(projection@, entry_views(tree@)) {
            Ok(a) => r matches Ok(s) && s@ == a,
            Err(m) => r matches Err(e) && e@ == m,
        },
{
    let subject = projection.subject().canonical();
    match projection.kind() {
        ProjectionKind::FileContent => Ok(owned(subject)),
        ProjectionKind::Imports => Ok(module_source_path(subject)),
        ProjectionKind::Definition => {
            let own = module_source_path(subject);
            if tree_has(tree, own.as_str()) {
                Ok(own)
            } else {
                anchor_by_prefix(subject, tree)
            }
        },
        ProjectionKind::Callers | ProjectionKind::References | ProjectionKind::Signature => anchor_by_prefix(
            subject,
            tree,
        ),
        k => {
            let mut e = owned("no anchor rule for kind ");
            push_str(&mut e, k.name());
            Err(e)
        },
    }
}

/// The text a per-publication identity hashes: `<prefix><key>:<created>`.
pub open spec fn keyed_text(prefix: Seq<char>, key: Seq<char>, created: u64) -> Seq<char> {
    prefix + key + ":"@ + decimal(created as nat)
}

fn keyed_digest(prefix: &str, key: &str, created: u64) -> (r: ContentHash)
    ensures
        r.algo == HashAlgo::Blake3,
        r.digest@ == blake3_digest(utf8(keyed_text(prefix@, key@, created))),
{
    let mut s = owned(prefix);
    push_str(&mut s, key);
    push_str(&mut s, ":");
    let c = u64_to_decimal(created);
    push_str(&mut s, c.as_str());
    digest_str(s.as_str())
}

/// The identity of one publication of a key: the store is append-only, so
/// each republish writes a new artifact.
pub fn artifact_key_id(key: &str, created: u64) -> (r: ArtifactId)
    ensures
        r.0.algo == HashAlgo::Blake3,
        r.0.digest@ == blake3_digest(utf8(keyed_text("trellis.cli.artifact:"@, key@, created))),
{
    ArtifactId::from_hash(keyed_digest("trellis.cli.artifact:", key, created))
}

/// The derivation identity of one publication of a key.
pub fn derivation_key_id(key: &str, created: u64) -> (r: DerivationId)
    ensures
        r.0.algo == HashAlgo::Blake3,
        r.0.digest@ == blake3_digest(utf8(keyed_text("trellis.cli.derivation:"@, key@, created))),
{
    DerivationId::from_hash(keyed_digest("trellis.cli.derivation:", key, created))
}

/// The identity of the seed attestation of one publication of a key.
pub fn seed_attestation_id(key: &str, created: u64) -> (r: AttestationId)
    ensures
        r.0.algo == HashAlgo::Blake3,
        r.0.digest@ == blake3_digest(utf8(keyed_text("trellis.cli.seed:"@, key@, created))),
{
    AttestationId::from_hash(keyed_digest("trellis.cli.seed:", key, created))
}

/// A value the command source may give for a projection: the labeled
/// approximate caller set for callers, the syntactic answer otherwise.
pub open spec fn source_answer(tree: Seq<(Seq<char>, Seq<char>)>, index: PythonSyntaxIndex, p: ProjectionModel, v: Option<Seq<char>>) -> bool {
    match p.kind {
        ProjectionKind::Callers => v matches Some(x) && exists|set: Seq<Seq<char>>|
            canonical_set_of::<String>(set, approx_members(tree, subject_text(p.subject))) && x == join_with(set, "; "@),
        _ => exists|q: Projection| q@ == p && #[trigger] syntactic_answer(index, q, v),
    }
}

/// The command source is deterministic: for one projection it admits at
/// most one answer.
pub proof fn lemma_source_answer_unique(
    tree: Seq<(Seq<char>, Seq<char>)>,
    index: PythonSyntaxIndex,
    p: ProjectionModel,
    v1: Option<Seq<char>>,
    v2: Option<Seq<char>>,
)
    requires
        source_answer(tree, index, p, v1),
        source_answer(tree, index, p, v2),
    ensures
        v1 == v2,
{
    if p.kind == ProjectionKind::Callers {
        let ms = approx_members(tree, subject_text(p.subject));
        let x1 = v1->0;
        let x2 = v2->0;
        let s1 = choose|set: Seq<Seq<char>>| canonical_set_of::<String>(set, ms) && x1 == join_with(set, "; "@);
        let s2 = choose|set: Seq<Seq<char>>| canonical_set_of::<String>(set, ms) && x2 == join_with(set, "; "@);
        crate::order::lemma_canonical_unique::<String>(s1, s2);
    } else {
        let q1 = choose|q: Projection| q@ == p && #[trigger] syntactic_answer(index, q, v1);
        let q2 = choose|q: Projection| q@ == p && #[trigger] syntactic_answer(index, q, v2);
        crate::engine::sources::lemma_syntactic_answer_unique(index, q1, q2, v1, v2);
    }
}

/// The value text of an optional answer (empty without one).
pub open spec fn answer_text(v: Option<Seq<char>>) -> Seq<char> {
    match v {
        Some(x) => x,
        None => Seq::empty(),
    }
}

fn evaluate_model(source: &CliSemanticSource, p: &Projection) -> (r: Option<String>)
    ensures
        source_answer(source.tree_view(), source.index_view(), p@, match r {
            Some(s) => Some(s@),
            None => None,
        }),
{
    let e = match source.evaluate(p) {
        Ok(e) => e,
        Err(_) => {
            proof {
                assert(false);
            }
            None
        },
    };
    proof {
        if p@.kind != ProjectionKind::Callers {
            assert(syntactic_answer(source.index_view(), *p, eval_value(e)));
        }
    }
    match e {
        Some(ev) => Some(owned(ev.value())),
        None => None,
    }
}

/// The value of a deterministic tool query over the tree: the labeled
/// approximate callers for `callers` and `references`, the syntactic
/// definition or import value (empty when the backend has none) for
/// `definitions` and `imports`.
pub open spec fn fresh_spec(
    tree: Seq<(Seq<char>, Seq<char>)>,
    index: PythonSyntaxIndex,
    kind: Seq<char>,
    subject: Seq<char>,
    r: Result<String, String>,
) -> bool {
    if kind == "callers"@ || kind == "references"@ {
        r matches Ok(v) && source_answer(
            tree,
            index,
            simple_model(ProjectionKind::Callers, SubjectModel::Symbol(subject), Scope::Repository),
            Some(v@),
        )
    } else if kind == "definitions"@ || kind == "imports"@ {
        let built = if kind == "definitions"@ {
            built_model(ProjectionKind::Definition, SubjectModel::Symbol(subject), Scope::Repository)
        } else {
            built_model(ProjectionKind::Imports, SubjectModel::Module(subject), Scope::Module)
        };
        match built {
            Err(m) => r matches Err(e) && e@ == m,
            Ok(p) => r matches Ok(v) && exists|a: Option<Seq<char>>| source_answer(tree, index, p, a) && v@ == answer_text(a),
        }
    } else {
        r matches Err(e) && e@ == "unknown tool kind "@ + kind
    }
}

/// Compute a deterministic tool query fresh: the identical computation
/// whether or not a stored artifact could serve it.
///
/// # Errors
/// `unknown tool kind <kind>`; the construction error for a blank subject.
pub fn compute_fresh(kind: &str, subject: &str, tree: &Vec<(String, String)>, index: &PythonSyntaxIndex) -> (r: Result<String, String>)
    ensures
        fresh_spec(entry_views(tree@), *index, kind@, subject@, r),
{
    let source = CliSemanticSource::new(index, tree);
    if str_eq(kind, "callers") || str_eq(kind, "references") {
        let v = source.approx_callers(subject);
        proof {
            let m = simple_model(ProjectionKind::Callers, SubjectModel::Symbol(subject@), Scope::Repository);
            assert(subject_text(m.subject) == subject@);
            assert(m.kind == ProjectionKind::Callers);
            let set = choose|set: Seq<Seq<char>>|
                canonical_set_of::<String>(set, approx_members(source.tree_view(), subject@)) && v@ == join_with(set, "; "@);
            assert(canonical_set_of::<String>(set, approx_members(entry_views(tree@), subject_text(m.subject))));
            assert(source_answer(entry_views(tree@), *index, m, Some(v@)));
        }
        Ok(v)
    } else if str_eq(kind, "definitions") || str_eq(kind, "imports") {
        let built = if str_eq(kind, "definitions") {
            Projection::definition(subject)
        } else {
            Projection::imports(subject, Scope::Module)
        };
        match built {
            Err(e) => Err(e.to_string()),
            Ok(p) => {
                let a = evaluate_model(&source, &p);
                let ghost av = match &a {
                    Some(x) => Some(x@),
                    None => None::<Seq<char>>,
                };
                let out = match a {
                    Some(v) => v,
                    None => String::new(),
                };
                proof {
                    assert(source_answer(entry_views(tree@), *index, p@, av));
                    assert(out@ == answer_text(av));
                }
                Ok(out)
            },
        }
    } else {
        let mut e = owned("unknown tool kind ");
        push_str(&mut e, kind);
        Err(e)
    }
}

/// The verdict a retrieval reports for the latest validity.
pub open spec fn verdict_text(v: Option<Validity>) -> Seq<char> {
    match v {
        Some(Validity::Valid) => "valid"@,
        Some(Validity::Stale) => "stale"@,
        _ => "unknown"@,
    }
}

/// The verdict of a retrieval: `valid` and `stale` from the latest
/// attestation, `unknown` otherwise.
pub fn retrieval_verdict(latest: Option<Validity>) -> (r: &'static str)
    ensures
        r@ == verdict_text(latest),
{
    match latest {
        Some(Validity::Valid) => "valid",
        Some(Validity::Stale) => "stale",
        _ => "unknown",
    }
}

/// One line of a retrieval explanation.
pub open spec fn outcome_part(o: OutcomeModel) -> Seq<char> {
    let head = kind_name(o.projection.kind) + "("@ + subject_text(o.projection.subject) + ")"@;
    if o.outcome == ProjectionOutcomeKind::Changed && o.new_value is Some {
        head + " changed to ["@ + o.new_value->0 + "]"@
    } else if o.outcome == ProjectionOutcomeKind::Unobserved {
        head + " unobserved under current coverage"@
    } else {
        head + " unchanged"@
    }
}

/// The projection is one of the dependencies.
pub open spec fn is_dependency(deps: Seq<ContentHash>, p: ProjectionModel) -> bool {
    exists|i: int| 0 <= i < deps.len() && (#[trigger] deps[i]).algo == HashAlgo::Blake3
        && deps[i].digest@ == blake3_digest(projection_encoding(p))
}

/// The explanation lines of the outcomes of the dependencies, in order.
pub open spec fn dependency_parts(outs: Seq<OutcomeModel>, deps: Seq<ContentHash>) -> Seq<Seq<char>>
    decreases outs.len(),
{
    if outs.len() == 0 {
        Seq::empty()
    } else {
        let init = dependency_parts(outs.drop_last(), deps);
        if is_dependency(deps, outs.last().projection) {
            init.push(outcome_part(outs.last()))
        } else {
            init
        }
    }
}

/// The explanation of a non-valid retrieval.
pub open spec fn explanation_text(outs: Seq<OutcomeModel>, deps: Seq<ContentHash>) -> Seq<char> {
    let parts = dependency_parts(outs, deps);
    if parts.len() == 0 {
        "no dependency evidence this round; standing is conservative UNKNOWN"@
    } else {
        join_with(parts, "; "@)
    }
}

fn outcome_line(o: &ProjectionOutcome) -> (r: String)
    ensures
        r@ == outcome_part(o@),
{
    let p = o.projection();
    let mut s = owned(p.kind().name());
    push_str(&mut s, "(");
    push_str(&mut s, p.subject().canonical());
    push_str(&mut s, ")");
    let kind = o.outcome();
    let nv = o.new_value();
    if matches!(kind, ProjectionOutcomeKind::Changed) && nv.is_some() {
        push_str(&mut s, " changed to [");
        match nv {
            Some(v) => push_str(&mut s, v),
            None => {},
        }
        push_str(&mut s, "]");
    } else if matches!(kind, ProjectionOutcomeKind::Unobserved) {
        push_str(&mut s, " unobserved under current coverage");
    } else {
        push_str(&mut s, " unchanged");
    }
    s
}

/// The projection is one of the dependencies (exec).
fn dependency_holds(deps: &Vec<ProjectionId>, p: &Projection) -> (r: bool)
    ensures
        r == is_dependency(views(deps@), p@),
{
    let id = p.id();
    let r = contains_ordered(deps, &id);
    proof {
        let dv = views(deps@);
        if r {
            let i = choose|i: int| 0 <= i < dv.len() && dv[i] == id@;
            assert(dv[i].algo == HashAlgo::Blake3);
        }
        if is_dependency(dv, p@) {
            let i = choose|i: int| 0 <= i < dv.len() && (#[trigger] dv[i]).algo == HashAlgo::Blake3
                && dv[i].digest@ == blake3_digest(projection_encoding(p@));
            assert(dv[i].digest =~= id@.digest);
            assert(dv[i] == id@);
            assert(dv.contains(id@));
        }
    }
    r
}

/// Explain a non-valid retrieval from the round's outcomes: one line per
/// outcome of a dependency (changed with its new value, unobserved, or
/// unchanged), joined by `; `, or a note that nothing was evidenced.
pub fn explain_outcomes(outcomes: &[ProjectionOutcome], dependencies: &[ProjectionId]) -> (r: String)
    ensures
        r@ == explanation_text(outcomes@.map_values(|o: ProjectionOutcome| o@), views(dependencies@)),
{
    let deps = crate::order::copy_all(dependencies);
    let ghost outs = outcomes@.map_values(|o: ProjectionOutcome| o@);
    let ghost dv = views(dependencies@);
    let mut parts: Vec<String> = Vec::new();
    let mut i: usize = 0;
    while i < outcomes.len()
        invariant
            i <= outcomes@.len(),
            outs == outcomes@.map_values(|o: ProjectionOutcome| o@),
            dv == views(dependencies@),
            deps@ == dependencies@,
            views(parts@) == dependency_parts(outs.subrange(0, i as int), dv),
        decreases outcomes.len() - i,
    {
        let ghost sub = outs.subrange(0, i + 1);
        proof {
            assert(sub.drop_last() =~= outs.subrange(0, i as int));
            assert(sub.last() == outcomes@[i as int]@);
        }
        if dependency_holds(&deps, outcomes[i].projection()) {
            let ghost pre = parts@;
            let line = outcome_line(&outcomes[i]);
            parts.push(line);
            proof {
                crate::order::lemma_views_push(pre, line);
            }
        }
        i = i + 1;
    }
    proof {
        assert(outs.subrange(0, outcomes@.len() as int) =~= outs);
    }
    if parts.len() == 0 {
        owned("no dependency evidence this round; standing is conservative UNKNOWN")
    } else {
        join_strings_pub(&parts, "; ")
    }
}

/// The digest text of an answer's value (empty without one).
pub open spec fn answer_digest_text(v: Option<Seq<char>>) -> Seq<char> {
    match v {
        Some(x) => blake3_prefix_text().push(':') + hex_text(blake3_digest(utf8(x))),
        None => Seq::empty(),
    }
}

fn answer_digest(v: &Option<String>) -> (r: String)
    ensures
        r@ == answer_digest_text(match v {
            Some(s) => Some(s@),
            None => None,
        }),
{
    match v {
        Some(s) => digest_str(s.as_str()).to_string(),
        None => String::new(),
    }
}

/// The views of stored pins `(keyword, subject, scope, digest text)`.
pub open spec fn pin_views(pins: Seq<(String, String, String, String)>) -> Seq<(Seq<char>, Seq<char>, Seq<char>, Seq<char>)> {
    pins.map_values(|p: (String, String, String, String)| (p.0@, p.1@, p.2@, p.3@))
}

/// The digest pinned by the first pin with the key, or empty.
pub open spec fn first_pinned(pins: Seq<(Seq<char>, Seq<char>, Seq<char>, Seq<char>)>, k: Seq<char>, s: Seq<char>, sc: Seq<char>) -> Seq<char>
    decreases pins.len(),
{
    if pins.len() == 0 {
        Seq::empty()
    } else if pins[0].0 == k && pins[0].1 == s && pins[0].2 == sc {
        pins[0].3
    } else {
        first_pinned(pins.drop_first(), k, s, sc)
    }
}

/// The first pin whose projection cannot be built, by its message.
pub open spec fn first_bad_pin(pins: Seq<(Seq<char>, Seq<char>, Seq<char>, Seq<char>)>) -> Option<Seq<char>>
    decreases pins.len(),
{
    if pins.len() == 0 {
        None
    } else {
        match pin_model(pins[0].0, pins[0].1, pins[0].2) {
            Err(m) => Some(m),
            Ok(_) => first_bad_pin(pins.drop_first()),
        }
    }
}

/// The projection a pin names, when it can be built.
pub open spec fn pin_projection_model(pin: (Seq<char>, Seq<char>, Seq<char>, Seq<char>)) -> ProjectionModel {
    match pin_model(pin.0, pin.1, pin.2) {
        Ok(p) => p,
        Err(_) => arbitrary(),
    }
}

fn first_pinned_exec(pins: &[(String, String, String, String)], k: &str, s: &str, sc: &str) -> (r: String)
    ensures
        r@ == first_pinned(pin_views(pins@), k@, s@, sc@),
{
    let ghost pv = pin_views(pins@);
    let mut i: usize = 0;
    proof {
        assert(pv.subrange(0, pv.len() as int) =~= pv);
    }
    while i < pins.len()
        invariant
            i <= pins@.len(),
            pv == pin_views(pins@),
            first_pinned(pv, k@, s@, sc@) == first_pinned(pv.subrange(i as int, pv.len() as int), k@, s@, sc@),
        decreases pins.len() - i,
    {
        let ghost rest = pv.subrange(i as int, pv.len() as int);
        proof {
            assert(rest.drop_first() =~= pv.subrange(i + 1, pv.len() as int));
            assert(rest[0] == pv[i as int]);
        }
        if str_eq(pins[i].0.as_str(), k) && str_eq(pins[i].1.as_str(), s) && str_eq(pins[i].2.as_str(), sc) {
            return owned(pins[i].3.as_str());
        }
        i = i + 1;
    }
    proof {
        assert(pv.subrange(pins@.len() as int, pv.len() as int).len() == 0);
    }
    String::new()
}

proof fn lemma_bad_pin_prefix(pins: Seq<(Seq<char>, Seq<char>, Seq<char>, Seq<char>)>, i: int)
    requires
        0 <= i <= pins.len(),
        forall|j: int| 0 <= j < i ==> pin_model(pins[j].0, pins[j].1, pins[j].2) is Ok,
    ensures
        first_bad_pin(pins) == first_bad_pin(pins.subrange(i, pins.len() as int)),
    decreases i,
{
    if i > 0 {
        let rest = pins.drop_first();
        assert forall|j: int| 0 <= j < i - 1 implies pin_model(rest[j].0, rest[j].1, rest[j].2) is Ok by {
            assert(rest[j] == pins[j + 1]);
        }
        lemma_bad_pin_prefix(rest, i - 1);
        assert(rest.subrange(i - 1, rest.len() as int) =~= pins.subrange(i, pins.len() as int));
    } else {
        assert(pins.subrange(0, pins.len() as int) =~= pins);
    }
}

/// The digest pinned for the key of pin `j` equals the digest of its
/// current answer.
pub open spec fn pin_agrees(
    pv: Seq<(Seq<char>, Seq<char>, Seq<char>, Seq<char>)>,
    vals: Seq<Option<Seq<char>>>,
    j: int,
) -> bool {
    first_pinned(pv, pv[j].0, pv[j].1, pv[j].2) == answer_digest_text(vals[j])
}

/// Whether the pins of a stored payload still match the current
/// dependency values: each pin's projection is reevaluated and the digest
/// of its value compared with the digest pinned for that key.
///
/// # Errors
/// The message of the first pin that names no projection.
pub fn pins_current(source: &CliSemanticSource, pins: &[(String, String, String, String)]) -> (r: Result<bool, String>)
    ensures
        ({
            let pv = pin_views(pins@);
            match first_bad_pin(pv) {
                Some(m) => r matches Err(e) && e@ == m,
                None => r matches Ok(b) && exists|vals: Seq<Option<Seq<char>>>| {
                    &&& vals.len() == pv.len()
                    &&& forall|i: int| 0 <= i < pv.len() ==> #[trigger] source_answer(
                        source.tree_view(),
                        source.index_view(),
                        pin_projection_model(pv[i]),
                        vals[i],
                    )
                    &&& b == forall|i: int| 0 <= i < pv.len() ==> #[trigger] pin_agrees(pv, vals, i)
                },
            }
        }),
{
    let ghost pv = pin_views(pins@);
    let ghost mut vals: Seq<Option<Seq<char>>> = Seq::empty();
    let mut all = true;
    let mut i: usize = 0;
    while i < pins.len()
        invariant
            i <= pins@.len(),
            pv == pin_views(pins@),
            vals.len() == i,
            forall|j: int| 0 <= j < i ==> pin_model(pv[j].0, pv[j].1, pv[j].2) is Ok,
            forall|j: int| 0 <= j < i ==> #[trigger] source_answer(
                source.tree_view(),
                source.index_view(),
                pin_projection_model(pv[j]),
                vals[j],
            ),
            all == forall|j: int| 0 <= j < i ==> #[trigger] pin_agrees(pv, vals, j),
        decreases pins.len() - i,
    {
        let (k, s, sc) = (pins[i].0.as_str(), pins[i].1.as_str(), pins[i].2.as_str());
        let p = match pin_projection(k, s, sc) {
            Ok(p) => p,
            Err(e) => {
                proof {
                    lemma_bad_pin_prefix(pv, i as int);
                    let rest = pv.subrange(i as int, pv.len() as int);
                    assert(rest[0] == pv[i as int]);
                }
                return Err(e);
            },
        };
        let current = evaluate_model(source, &p);
        let current_text = answer_digest(&current);
        let pinned = first_pinned_exec(pins, k, s, sc);
        let ghost v = match &current {
            Some(x) => Some(x@),
            None => None::<Seq<char>>,
        };
        let ghost ov = vals;
        proof {
            vals = vals.push(v);
            assert(pin_projection_model(pv[i as int]) == p@);
            assert(pv[i as int] == (pins@[i as int].0@, pins@[i as int].1@, pins@[i as int].2@, pins@[i as int].3@));
            assert(pinned@ == first_pinned(pv, pv[i as int].0, pv[i as int].1, pv[i as int].2));
            assert(current_text@ == answer_digest_text(vals[i as int]));
            assert forall|j: int| 0 <= j < i implies vals[j] == ov[j] by {}
        }
        let matched = str_eq(pinned.as_str(), current_text.as_str());
        let ghost before = all;
        if !matched {
            all = false;
        }
        proof {
            assert(before == forall|j: int| 0 <= j < i ==> #[trigger] pin_agrees(pv, ov, j));
            assert forall|j: int| 0 <= j < i implies pin_agrees(pv, vals, j) == #[trigger] pin_agrees(pv, ov, j) by {}
            assert(matched == pin_agrees(pv, vals, i as int));
            if all {
                assert forall|j: int| 0 <= j < i + 1 implies #[trigger] pin_agrees(pv, vals, j) by {
                    if j < i {
                        assert(pin_agrees(pv, ov, j));
                    }
                }
            } else {
                if before {
                    assert(!pin_agrees(pv, vals, i as int));
                } else {
                    let w = choose|j: int| 0 <= j < i && !#[trigger] pin_agrees(pv, ov, j);
                    assert(!pin_agrees(pv, vals, w));
                }
            }
            assert forall|j: int| 0 <= j < i + 1 implies #[trigger] source_answer(
                source.tree_view(),
                source.index_view(),
                pin_projection_model(pv[j]),
                vals[j],
            ) by {
                if j < i {
                } else {
                    assert(vals[j] == v);
                }
            }
            assert(answer_digest_text(vals[i as int]) == current_text@);
        }
        i = i + 1;
    }
    proof {
        lemma_bad_pin_prefix(pv, pins@.len() as int);
        assert(pv.subrange(pins@.len() as int, pv.len() as int).len() == 0);
    }
    Ok(all)
}

/// The pin keyword a tool query is covered by.
pub open spec fn query_pin_text(kind: Seq<char>) -> Seq<char> {
    if kind == "callers"@ || kind == "references"@ {
        "callers"@
    } else if kind == "definitions"@ {
        "definition"@
    } else if kind == "imports"@ {
        "imports"@
    } else {
        kind
    }
}

/// The pin keyword a tool query is covered by.
pub fn query_pin_kind(kind: &str) -> (r: String)
    ensures
        r@ == query_pin_text(kind@),
{
    if str_eq(kind, "callers") || str_eq(kind, "references") {
        owned("callers")
    } else if str_eq(kind, "definitions") {
        owned("definition")
    } else if str_eq(kind, "imports") {
        owned("imports")
    } else {
        owned(kind)
    }
}

/// A stored artifact of a kind can serve a tool query of a kind:
/// `references` queries are served by `callers` artifacts too.
pub fn kind_serves(entry_kind: &str, kind: &str) -> (r: bool)
    ensures
        r == (entry_kind@ == kind@ || (kind@ == "references"@ && entry_kind@ == "callers"@)),
{
    str_eq(entry_kind, kind) || (str_eq(kind, "references") && str_eq(entry_kind, "callers"))
}

/// Some pin covers the query: it has the query's pin keyword and subject.
pub fn covers_query(pins: &[(String, String, String, String)], kind: &str, subject: &str) -> (r: bool)
    ensures
        r == exists|i: int| 0 <= i < pins@.len() && (#[trigger] pins@[i]).0@ == query_pin_text(kind@)
            && pins@[i].1@ == subject@,
{
    let want = query_pin_kind(kind);
    let mut i: usize = 0;
    while i < pins.len()
        invariant
            i <= pins@.len(),
            want@ == query_pin_text(kind@),
            forall|j: int| 0 <= j < i ==> !((#[trigger] pins@[j]).0@ == want@ && pins@[j].1@ == subject@),
        decreases pins.len() - i,
    {
        if str_eq(pins[i].0.as_str(), want.as_str()) && str_eq(pins[i].1.as_str(), subject) {
            return true;
        }
        i = i + 1;
    }
    false
}

/// Whether a stored payload can serve a tool query: every pin names a
/// projection and its pinned digest equals the digest of the current value.
/// Stops at the first pin that fails.
pub fn pins_hold(source: &CliSemanticSource, pins: &[(String, String, String, String)]) -> (r: bool)
    ensures
        ({
            let pv = pin_views(pins@);
            &&& r ==> first_bad_pin(pv) is None && exists|vals: Seq<Option<Seq<char>>>| {
                &&& vals.len() == pv.len()
                &&& forall|i: int| 0 <= i < pv.len() ==> #[trigger] source_answer(
                    source.tree_view(),
                    source.index_view(),
                    pin_projection_model(pv[i]),
                    vals[i],
                ) && pv[i].3 == answer_digest_text(vals[i])
            }
            &&& !r ==> first_bad_pin(pv) is Some || exists|i: int, v: Option<Seq<char>>| 0 <= i < pv.len()
                && first_bad_pin(pv.subrange(0, i)) is None && #[trigger] source_answer(
                source.tree_view(),
                source.index_view(),
                pin_projection_model(pv[i]),
                v,
            ) && pv[i].3 != answer_digest_text(v)
        }),
{
    let ghost pv = pin_views(pins@);
    let ghost mut vals: Seq<Option<Seq<char>>> = Seq::empty();
    let mut i: usize = 0;
    while i < pins.len()
        invariant
            i <= pins@.len(),
            pv == pin_views(pins@),
            vals.len() == i,
            forall|j: int| 0 <= j < i ==> pin_model(pv[j].0, pv[j].1, pv[j].2) is Ok,
            forall|j: int| 0 <= j < i ==> #[trigger] source_answer(
                source.tree_view(),
                source.index_view(),
                pin_projection_model(pv[j]),
                vals[j],
            ) && pv[j].3 == answer_digest_text(vals[j]),
        decreases pins.len() - i,
    {
        let p = match pin_projection(pins[i].0.as_str(), pins[i].1.as_str(), pins[i].2.as_str()) {
            Ok(p) => p,
            Err(_) => {
                proof {
                    lemma_bad_pin_prefix(pv, i as int);
                    let rest = pv.subrange(i as int, pv.len() as int);
                    assert(rest[0] == pv[i as int]);
                }
                return false;
            },
        };
        let current = evaluate_model(source, &p);
        let current_text = answer_digest(&current);
        let ghost v = match &current {
            Some(x) => Some(x@),
            None => None::<Seq<char>>,
        };
        proof {
            assert(pin_projection_model(pv[i as int]) == p@);
        }
        if !str_eq(pins[i].3.as_str(), current_text.as_str()) {
            proof {
                assert(pv[i as int].3 == pins@[i as int].3@);
                lemma_bad_pin_prefix(pv.subrange(0, i as int), i as int);
                assert forall|j: int| 0 <= j < i implies pin_model(pv.subrange(0, i as int)[j].0, pv.subrange(0, i as int)[j].1, pv.subrange(0, i as int)[j].2) is Ok by {
                    assert(pv.subrange(0, i as int)[j] == pv[j]);
                }
                lemma_bad_pin_prefix(pv.subrange(0, i as int), i as int);
                assert(pv.subrange(0, i as int).subrange(i as int, i as int).len() == 0);
                assert(source_answer(source.tree_view(), source.index_view(), pin_projection_model(pv[i as int]), v));
            }
            return false;
        }
        proof {
            vals = vals.push(v);
            assert forall|j: int| 0 <= j < i + 1 implies #[trigger] source_answer(
                source.tree_view(),
                source.index_view(),
                pin_projection_model(pv[j]),
                vals[j],
            ) && pv[j].3 == answer_digest_text(vals[j]) by {
                if j == i {
                    assert(vals[j] == v);
                    assert(pv[j].3 == pins@[j].3@);
                }
            }
        }
        i = i + 1;
    }
    proof {
        lemma_bad_pin_prefix(pv, pins@.len() as int);
        assert(pv.subrange(pins@.len() as int, pv.len() as int).len() == 0);
    }
    true
}

/// The indexer identity of the command surface's own textual backend.
pub const INDEXER: &'static str = "trellis-cli-textual-v1";

/// The coverage context of the textual backend over a tree: every tracked
/// file is in the universe and scanned, so its capabilities are
/// established within the textual class (its answers stay provisional).
pub fn coverage_for(tree: &[(String, String)]) -> (r: CoverageContext)
    ensures
        canonical_set_of::<String>(r.universe@, entry_views(tree@).map_values(|e: (Seq<char>, Seq<char>)| e.0)),
        r.certificate.universe_complete == CoverageState::Established,
        r.certificate.all_units_participated == CoverageState::Established,
        r.certificate.declaration_inventory_complete == CoverageState::Established,
        r.certificate.resolved_reference_coverage == CoverageState::Established,
        r.certificate.inheritance_relationships == CoverageState::Established,
        r.certificate.failures@.len() == 0,
        r.indexer@ == INDEXER@,
{
    let mut paths: Vec<String> = Vec::new();
    let ghost keys = entry_views(tree@).map_values(|e: (Seq<char>, Seq<char>)| e.0);
    let mut i: usize = 0;
    while i < tree.len()
        invariant
            i <= tree@.len(),
            keys == entry_views(tree@).map_values(|e: (Seq<char>, Seq<char>)| e.0),
            views(paths@) == keys.subrange(0, i as int),
        decreases tree.len() - i,
    {
        let ghost pre = paths@;
        let p = owned(tree[i].0.as_str());
        paths.push(p);
        proof {
            crate::order::lemma_views_push(pre, p);
            assert(keys.subrange(0, i + 1) =~= keys.subrange(0, i as int).push(keys[i as int]));
        }
        i = i + 1;
    }
    proof {
        assert(keys.subrange(0, tree@.len() as int) =~= keys);
    }
    CoverageContext { universe: Universe::new(paths), certificate: CoverageCertificate::complete(), indexer: owned(INDEXER) }
}

/// The stored manifest entries whose digest text parses, in order.
pub open spec fn parsed_entries(e: Seq<(Seq<char>, Seq<char>)>) -> Seq<(Seq<char>, ContentHash)>
    decreases e.len(),
{
    if e.len() == 0 {
        Seq::empty()
    } else {
        let init = parsed_entries(e.drop_last());
        match parse_hash_text(utf8(e.last().1)) {
            Ok(h) => init.push((e.last().0, h)),
            Err(_) => init,
        }
    }
}

/// Rebuild the persisted manifest from the stored `(path, digest text)`
/// entries: entries whose digest does not parse are dropped; `None` when
/// the rest does not form a manifest.
pub fn manifest_from_state(entries: &[(String, String)]) -> (r: Option<Manifest>)
    ensures
        ({
            let parsed = parsed_entries(entry_views(entries@));
            match r {
                Some(m) => {
                    &&& forall|k: int| 0 <= k < parsed.len() ==> is_canonical_path(#[trigger] parsed[k].0)
                    &&& !has_conflict(parsed)
                    &&& canonical_set_of::<ManifestEntry>(m@.entries, parsed)
                    &&& m@.id.algo == HashAlgo::Blake3
                    &&& m@.id.digest@ == blake3_digest(manifest_encoding(m@.entries))
                },
                None => (exists|k: int| 0 <= k < parsed.len() && !is_canonical_path(#[trigger] parsed[k].0))
                    || has_conflict(parsed),
            }
        }),
{
    let ghost ev = entry_views(entries@);
    let mut out: Vec<ManifestEntry> = Vec::new();
    let mut i: usize = 0;
    while i < entries.len()
        invariant
            i <= entries@.len(),
            ev == entry_views(entries@),
            views(out@) == parsed_entries(ev.subrange(0, i as int)),
        decreases entries.len() - i,
    {
        let ghost sub = ev.subrange(0, i + 1);
        proof {
            assert(sub.drop_last() =~= ev.subrange(0, i as int));
            assert(sub.last() == ev[i as int]);
        }
        match ContentHash::from_str(entries[i].1.as_str()) {
            Ok(h) => {
                let ghost pre = out@;
                let e = ManifestEntry { path: owned(entries[i].0.as_str()), digest: h };
                out.push(e);
                proof {
                    crate::order::lemma_views_push(pre, e);
                }
            },
            Err(_) => {},
        }
        i = i + 1;
    }
    proof {
        assert(ev.subrange(0, entries@.len() as int) =~= ev);
    }
    let ghost parsed = views(out@);
    let ghost outv = out@;
    match Manifest::from_entries(out) {
        Ok(m) => {
            proof {
                assert forall|k: int| 0 <= k < parsed.len() implies is_canonical_path(#[trigger] parsed[k].0) by {
                    assert(parsed[k] == outv[k]@);
                    assert(is_canonical_path(outv[k].path@));
                }
            }
            Some(m)
        },
        Err(e) => {
            proof {
                if let ManifestError::ConflictingDigest(p) = &e {
                    assert(least_conflict(parsed, p@));
                }
                if let ManifestError::NonCanonicalPath(p) = &e {
                    let i = choose|i: int|
                        0 <= i < outv.len() && p@ == (#[trigger] outv[i]).path@ && !is_canonical_path(p@)
                            && forall|k: int| 0 <= k < i ==> is_canonical_path(#[trigger] outv[k].path@);
                    assert(parsed[i] == outv[i]@);
                    assert(!is_canonical_path(parsed[i].0));
                }
            }
            None
        },
    }
}

/// The snapshot row the command surface records for a tree snapshot: its
/// repository, manifest and environment identities are derived from fixed
/// labels (the manifest's from the snapshot id).
pub fn snapshot_row(id: SnapshotId, parent: Option<SnapshotId>, at: u64) -> (r: Result<Snapshot, DomainError>)
    ensures
        match r {
            Ok(s) => parent != Some(id) && s@.id == id.0 && s@.parent == parent && s@.created_at == at
                && s@.git_commit is None && s@.semantic_snapshot is None
                && s@.working_tree_manifest.digest@ == blake3_digest(utf8("manifest:"@ + crate::ids::hash_text(id.0)))
                && s@.repository_id.digest@ == blake3_digest(utf8("trellis.cli.repo"@))
                && s@.environment.digest@ == blake3_digest(utf8("trellis.cli.env"@)),
            Err(e) => parent == Some(id) && e == DomainError::SelfParent,
        },
{
    let mut label = owned("manifest:");
    let t = id.to_string();
    push_str(&mut label, t.as_str());
    let manifest = ManifestId::from_hash(digest_str(label.as_str()));
    let repo = RepositoryId::from_hash(digest_str("trellis.cli.repo"));
    let env = EnvironmentFingerprintId::from_hash(digest_str("trellis.cli.env"));
    Snapshot::new(id, repo, None, manifest, None, env, parent, at)
}

/// The changes a first reconciliation reports when no manifest was stored:
/// every file of the current manifest is added.
pub fn first_run_changes(current: &Manifest) -> (r: ChangedSet)
    ensures
        views(r.added@) == current@.entries.map_values(|e: (Seq<char>, ContentHash)| e.0),
        r.modified@.len() == 0,
        r.removed@.len() == 0,
{
    let entries = current.entries();
    let ghost keys = current@.entries.map_values(|e: (Seq<char>, ContentHash)| e.0);
    let mut added: Vec<String> = Vec::new();
    let mut i: usize = 0;
    while i < entries.len()
        invariant
            i <= entries@.len(),
            views(entries@) == current@.entries,
            keys == current@.entries.map_values(|e: (Seq<char>, ContentHash)| e.0),
            views(added@) == keys.subrange(0, i as int),
        decreases entries.len() - i,
    {
        let ghost pre = added@;
        let p = owned(entries[i].path.as_str());
        added.push(p);
        proof {
            crate::order::lemma_views_push(pre, p);
            assert(views(entries@)[i as int] == entries@[i as int]@);
            assert(keys.subrange(0, i + 1) =~= keys.subrange(0, i as int).push(keys[i as int]));
        }
        i = i + 1;
    }
    proof {
        assert(keys.subrange(0, entries@.len() as int) =~= keys);
    }
    ChangedSet { added, modified: Vec::new(), removed: Vec::new() }
}

/// The parent of a new head snapshot: the recorded head when it parses and
/// differs from the new snapshot.
pub fn head_parent(head: Option<&str>, snapshot: SnapshotId) -> (r: Option<SnapshotId>)
    ensures
        match head {
            None => r is None,
            Some(h) => match parse_hash_text(h.spec_bytes()) {
                Ok(p) => if p == snapshot.0 {
                    r is None
                } else {
                    r == Some(SnapshotId(p))
                },
                Err(_) => r is None,
            },
        },
{
    match head {
        None => None,
        Some(h) => match SnapshotId::from_str(h) {
            Ok(p) => {
                if p.0.eq_exec(&snapshot.0) {
                    None
                } else {
                    Some(p)
                }
            },
            Err(_) => None,
        },
    }
}

/// The standing a status report lists for an artifact: the variant name
/// of its latest validity, `None` without one.
pub fn standing_label(latest: Option<Validity>) -> (r: &'static str)
    ensures
        r@ == match latest {
            Some(v) => validity_name(v),
            None => "None"@,
        },
{
    match latest {
        Some(v) => validity_name_exec(v),
        None => "None",
    }
}

/// The answer of a fresh query: the backend label with the value, or
/// `None` when the syntactic backend has no evidence for the subject.
pub open spec fn query_spec(
    tree: Seq<(Seq<char>, Seq<char>)>,
    index: PythonSyntaxIndex,
    kind: Seq<char>,
    subject: Seq<char>,
    r: Result<(String, Option<String>), String>,
) -> bool {
    if kind == "callers"@ || kind == "references"@ {
        r matches Ok((b, Some(v))) && b@ == APPROX_BACKEND@ && source_answer(
            tree,
            index,
            simple_model(ProjectionKind::Callers, SubjectModel::Symbol(subject), Scope::Repository),
            Some(v@),
        )
    } else if kind == "definitions"@ || kind == "imports"@ {
        let built = if kind == "definitions"@ {
            built_model(ProjectionKind::Definition, SubjectModel::Symbol(subject), Scope::Repository)
        } else {
            built_model(ProjectionKind::Imports, SubjectModel::Module(subject), Scope::Module)
        };
        match built {
            Err(m) => r matches Err(e) && e@ == m,
            Ok(p) => r matches Ok((b, a)) && b@ == SYNTAX_BACKEND@ && source_answer(tree, index, p, match a {
                Some(v) => Some(v@),
                None => None,
            }),
        }
    } else {
        r matches Err(e) && e@ == "unknown query kind "@ + kind
    }
}

/// Answer a query fresh over the tree: callers and references from the
/// labeled approximate resolver, definitions and imports from the
/// syntactic backend, each with its backend label.
///
/// # Errors
/// `unknown query kind <kind>`; the construction error for a blank subject.
pub fn query_answer(kind: &str, subject: &str, tree: &Vec<(String, String)>, index: &PythonSyntaxIndex) -> (r: Result<
    (String, Option<String>),
    String,
>)
    ensures
        query_spec(entry_views(tree@), *index, kind@, subject@, r),
{
    let source = CliSemanticSource::new(index, tree);
    if str_eq(kind, "callers") || str_eq(kind, "references") {
        let v = source.approx_callers(subject);
        proof {
            let m = simple_model(ProjectionKind::Callers, SubjectModel::Symbol(subject@), Scope::Repository);
            assert(subject_text(m.subject) == subject@);
            let set = choose|set: Seq<Seq<char>>|
                canonical_set_of::<String>(set, approx_members(source.tree_view(), subject@)) && v@ == join_with(set, "; "@);
            assert(canonical_set_of::<String>(set, approx_members(entry_views(tree@), subject_text(m.subject))));
        }
        Ok((owned(APPROX_BACKEND), Some(v)))
    } else if str_eq(kind, "definitions") || str_eq(kind, "imports") {
        let built = if str_eq(kind, "definitions") {
            Projection::definition(subject)
        } else {
            Projection::imports(subject, Scope::Module)
        };
        match built {
            Err(e) => Err(e.to_string()),
            Ok(p) => Ok((owned(SYNTAX_BACKEND), evaluate_model(&source, &p))),
        }
    } else {
        let mut e = owned("unknown query kind ");
        push_str(&mut e, kind);
        Err(e)
    }
}

/// The pins of a stored payload hold: every pin names a projection, and
/// each pinned digest is the digest of that projection's current answer.
pub open spec fn pins_hold_spec(
    tree: Seq<(Seq<char>, Seq<char>)>,
    index: PythonSyntaxIndex,
    pv: Seq<(Seq<char>, Seq<char>, Seq<char>, Seq<char>)>,
) -> bool {
    first_bad_pin(pv) is None && exists|vals: Seq<Option<Seq<char>>>| {
        &&& vals.len() == pv.len()
        &&& forall|i: int| 0 <= i < pv.len() ==> #[trigger] source_answer(
            tree,
            index,
            pin_projection_model(pv[i]),
            vals[i],
        ) && pv[i].3 == answer_digest_text(vals[i])
    }
}

/// A pin whose current answer disagrees with its digest rules out that
/// the pins hold.
proof fn lemma_pin_disagreement(
    tree: Seq<(Seq<char>, Seq<char>)>,
    index: PythonSyntaxIndex,
    pv: Seq<(Seq<char>, Seq<char>, Seq<char>, Seq<char>)>,
    i: int,
    v: Option<Seq<char>>,
)
    requires
        0 <= i < pv.len(),
        source_answer(tree, index, pin_projection_model(pv[i]), v),
        pv[i].3 != answer_digest_text(v),
    ensures
        !pins_hold_spec(tree, index, pv),
{
    if pins_hold_spec(tree, index, pv) {
        let vals = choose|vals: Seq<Option<Seq<char>>>| {
            &&& vals.len() == pv.len()
            &&& forall|i: int| 0 <= i < pv.len() ==> #[trigger] source_answer(
                tree,
                index,
                pin_projection_model(pv[i]),
                vals[i],
            ) && pv[i].3 == answer_digest_text(vals[i])
        };
        assert(source_answer(tree, index, pin_projection_model(pv[i]), vals[i]));
        lemma_source_answer_unique(tree, index, pin_projection_model(pv[i]), v, vals[i]);
    }
}

/// Whether a stored artifact can serve a tool query: its kind serves the
/// query, its latest attestation is `Valid`, one of its pins covers the
/// query, and its pins still hold.
pub fn stored_serves(
    source: &CliSemanticSource,
    entry_kind: &str,
    latest: Option<Validity>,
    pins: &[(String, String, String, String)],
    kind: &str,
    subject: &str,
) -> (r: bool)
    ensures
        r == ((entry_kind@ == kind@ || (kind@ == "references"@ && entry_kind@ == "callers"@))
            && latest == Some(Validity::Valid)
            && (exists|i: int| 0 <= i < pins@.len() && (#[trigger] pins@[i]).0@ == query_pin_text(kind@)
                && pins@[i].1@ == subject@)
            && pins_hold_spec(source.tree_view(), source.index_view(), pin_views(pins@))),
{
    if !kind_serves(entry_kind, kind) {
        return false;
    }
    match latest {
        Some(Validity::Valid) => {},
        _ => return false,
    }
    if !covers_query(pins, kind, subject) {
        return false;
    }
    let r = pins_hold(source, pins);
    proof {
        let pv = pin_views(pins@);
        if !r && first_bad_pin(pv) is None {
            let (i, v) = choose|i: int, v: Option<Seq<char>>| 0 <= i < pv.len()
                && first_bad_pin(pv.subrange(0, i)) is None && #[trigger] source_answer(
                source.tree_view(),
                source.index_view(),
                pin_projection_model(pv[i]),
                v,
            ) && pv[i].3 != answer_digest_text(v);
            lemma_pin_disagreement(source.tree_view(), source.index_view(), pv, i, v);
        }
    }
    r
}

/// Why a `Valid` stored value is withheld: its pins no longer match.
pub const STALE_PINS_EXPLANATION: &'static str =
    "artifact payload pins no longer match current dependency values; recompute required";

/// The stored value a `Valid` retrieval releases: the value when every
/// pin still matches its dependency's current value, nothing otherwise.
///
/// # Errors
/// The message of the first pin that names no projection.
pub fn release_value(source: &CliSemanticSource, pins: &[(String, String, String, String)], value: &str) -> (r: Result<
    Option<String>,
    String,
>)
    ensures
        ({
            let pv = pin_views(pins@);
            match first_bad_pin(pv) {
                Some(m) => r matches Err(e) && e@ == m,
                None => r matches Ok(o) && (o matches Some(v) ==> v@ == value@) && exists|vals: Seq<Option<Seq<char>>>| {
                    &&& vals.len() == pv.len()
                    &&& forall|i: int| 0 <= i < pv.len() ==> #[trigger] source_answer(
                        source.tree_view(),
                        source.index_view(),
                        pin_projection_model(pv[i]),
                        vals[i],
                    )
                    &&& (o is Some) == forall|i: int| 0 <= i < pv.len() ==> #[trigger] pin_agrees(pv, vals, i)
                },
            }
        }),
{
    match pins_current(source, pins) {
        Err(e) => Err(e),
        Ok(true) => Ok(Some(owned(value))),
        Ok(false) => Ok(None),
    }
}

/// The seed attestation of a publication: `Valid`, authoritative, at the
/// structural-query level, checked by the set-equality contract, targeting
/// the publication snapshot, with the publication's evidence and time.
pub fn seed_attestation(
    key: &str,
    created: u64,
    artifact: ArtifactId,
    derivation: &crate::artifact::Derivation,
    snapshot: SnapshotId,
    evidence: Vec<crate::attestation::EvidenceRef>,
) -> (r: crate::attestation::ValidationAttestation)
    ensures
        r@.id.algo == HashAlgo::Blake3,
        r@.id.digest@ == blake3_digest(utf8(keyed_text("trellis.cli.seed:"@, key@, created))),
        r@.artifact_id == artifact.0,
        r@.target_source_snapshot == snapshot.0,
        r@.target_semantic_snapshot is None,
        r@.validity == Validity::Valid,
        r@.authority == crate::validity::Authority::Authoritative,
        r@.verification_level == crate::validity::VerificationLevel::StructuralQuery,
        r@.verifier matches Some(v) && v.0.algo == HashAlgo::Blake3 && v.0.digest@
            == crate::engine::redgreen::verifier_digest(crate::engine::redgreen::SET_EQUALITY_CONTRACT@),
        r@.evidence == evidence@,
        r@.capture_trust == derivation@.capture_trust,
        r@.created_at == created,
{
    crate::attestation::ValidationAttestation::for_derivation(
        seed_attestation_id(key, created),
        artifact,
        derivation,
        snapshot,
        None,
        Validity::Valid,
        crate::validity::Authority::Authoritative,
        crate::validity::VerificationLevel::StructuralQuery,
        Some(crate::engine::redgreen::contract_verifier_id(crate::engine::redgreen::SET_EQUALITY_CONTRACT)),
        evidence,
        created,
    )
}

/// The pin a payload entry holds: four strings at positions 0 to 3.
pub open spec fn pin_of_json(p: JsonView) -> Option<(Seq<char>, Seq<char>, Seq<char>, Seq<char>)> {
    match (as_text(get_index(p, 0)), as_text(get_index(p, 1)), as_text(get_index(p, 2)), as_text(get_index(p, 3))) {
        (Some(a), Some(b), Some(c), Some(d)) => Some((a, b, c, d)),
        _ => None,
    }
}

/// The pins of payload entries, in order; entries that hold no pin are
/// skipped.
pub open spec fn pins_of_json(vs: Seq<JsonView>) -> Seq<(Seq<char>, Seq<char>, Seq<char>, Seq<char>)>
    decreases vs.len(),
{
    if vs.len() == 0 {
        Seq::empty()
    } else {
        let init = pins_of_json(vs.drop_last());
        match pin_of_json(vs.last()) {
            Some(p) => init.push(p),
            None => init,
        }
    }
}

/// What a stored payload document holds: its pins and its value (empty
/// when it has no string value), or why it holds no pins.
pub open spec fn payload_of(doc: JsonView) -> Result<(Seq<(Seq<char>, Seq<char>, Seq<char>, Seq<char>)>, Seq<char>), Seq<char>> {
    match get_key(doc, "pins"@) {
        JsonView::Array(vs) => Ok(
            (
                pins_of_json(vs),
                match as_text(get_key(doc, "value"@)) {
                    Some(v) => v,
                    None => Seq::empty(),
                },
            ),
        ),
        _ => Err("payload missing pins"@),
    }
}

/// What stored payload bytes hold.
pub open spec fn stored_payload(bytes: Seq<u8>) -> Result<(Seq<(Seq<char>, Seq<char>, Seq<char>, Seq<char>)>, Seq<char>), Seq<char>> {
    match json_document(bytes) {
        Err(e) => Err("payload corrupt: "@ + e),
        Ok(None) => Err("payload corrupt: not one JSON value"@),
        Ok(Some(doc)) => payload_of(doc),
    }
}

/// The pins and value of a payload document.
///
/// # Errors
/// `payload missing pins` when the document has no pins array.
pub fn decode_payload(doc: &Json) -> (r: Result<(Vec<(String, String, String, String)>, String), String>)
    ensures
        match payload_of(json_view(*doc)) {
            Err(e) => r matches Err(m) && m@ == e,
            Ok((pins, value)) => r matches Ok((ps, v)) && pin_views(ps@) == pins && v@ == value,
        },
{
    proof {
        reveal_strlit("pins");
        reveal_strlit("value");
    }
    let list = match json_get(doc, "pins") {
        Some(Json::Array(vs)) => vs,
        _ => return Err(owned("payload missing pins")),
    };
    let ghost lv = json_views(list@);
    proof {
        crate::json::lemma_json_views_index(list@);
        assert(lv.subrange(0, 0) =~= Seq::<JsonView>::empty());
    }
    let mut pins: Vec<(String, String, String, String)> = Vec::new();
    let mut i: usize = 0;
    while i < list.len()
        invariant
            i <= list@.len(),
            lv == json_views(list@),
            lv.len() == list@.len(),
            forall|t: int| 0 <= t < list@.len() ==> #[trigger] lv[t] == json_view(list@[t]),
            pin_views(pins@) == pins_of_json(lv.subrange(0, i as int)),
        decreases list.len() - i,
    {
        let p = &list[i];
        let a = json_text(json_at(p, 0));
        let b = json_text(json_at(p, 1));
        let c = json_text(json_at(p, 2));
        let d = json_text(json_at(p, 3));
        let ghost pre = pins@;
        proof {
            assert(lv.subrange(0, i + 1).drop_last() =~= lv.subrange(0, i as int));
            assert(lv.subrange(0, i + 1).last() == json_view(*p));
        }
        match (a, b, c, d) {
            (Some(a), Some(b), Some(c), Some(d)) => {
                pins.push((owned(a), owned(b), owned(c), owned(d)));
                proof {
                    assert(pin_views(pins@) =~= pin_views(pre).push((a@, b@, c@, d@)));
                }
            },
            _ => {},
        }
        i = i + 1;
    }
    proof {
        assert(lv.subrange(0, list@.len() as int) =~= lv);
    }
    let value = match json_text(json_get(doc, "value")) {
        Some(v) => owned(v),
        None => String::new(),
    };
    Ok((pins, value))
}

/// The pins and value a stored payload's bytes hold.
///
/// # Errors
/// `payload corrupt: ...` for bytes that hold no JSON value, or the
/// refusal of [`decode_payload`].
pub fn read_payload(bytes: &[u8]) -> (r: Result<(Vec<(String, String, String, String)>, String), String>)
    ensures
        match stored_payload(bytes@) {
            Err(e) => r matches Err(m) && m@ == e,
            Ok((pins, value)) => r matches Ok((ps, v)) && pin_views(ps@) == pins && v@ == value,
        },
{
    match parse_json(bytes) {
        Err(e) => {
            let mut m = owned("payload corrupt: ");
            push_str(&mut m, e.as_str());
            Err(m)
        },
        Ok(None) => Err(owned("payload corrupt: not one JSON value")),
        Ok(Some(doc)) => decode_payload(&doc),
    }
}

/// The payload document of a publication: its pins (each as a four-string
/// array) and its value.
pub fn encode_payload(pins: &[(String, String, String, String)], value: &str) -> (r: Json)
    ensures
        payload_of(json_view(r)) == Ok::<(Seq<(Seq<char>, Seq<char>, Seq<char>, Seq<char>)>, Seq<char>), Seq<char>>(
            (pin_views(pins@), value@),
        ),
{
    let mut list: Vec<Json> = Vec::new();
    let mut i: usize = 0;
    while i < pins.len()
        invariant
            i <= pins@.len(),
            list@.len() == i,
            pins_of_json(json_views(list@)) == pin_views(pins@.subrange(0, i as int)),
            forall|t: int| 0 <= t < i ==> pin_of_json(#[trigger] json_view(list@[t])) is Some,
        decreases pins.len() - i,
    {
        let (a, b, c, d) = &pins[i];
        let parts = vec![
            Json::Str(a.clone()),
            Json::Str(b.clone()),
            Json::Str(c.clone()),
            Json::Str(d.clone()),
        ];
        let entry = Json::Array(parts);
        let ghost pre = list@;
        proof {
            crate::json::lemma_json_views_index(parts@);
            assert(pin_of_json(json_view(entry)) == Some((a@, b@, c@, d@)));
        }
        list.push(entry);
        proof {
            assert(list@.drop_last() =~= pre);
            assert(json_views(list@) == json_views(pre).push(json_view(entry)));
            assert(json_views(list@).drop_last() =~= json_views(pre));
            assert(pins@.subrange(0, i + 1).drop_last() =~= pins@.subrange(0, i as int));
            assert(pin_views(pins@.subrange(0, i + 1)) =~= pin_views(pins@.subrange(0, i as int)).push((a@, b@, c@, d@)));
        }
        i = i + 1;
    }
    proof {
        assert(pins@.subrange(0, pins@.len() as int) =~= pins@);
        reveal_strlit("pins");
        reveal_strlit("value");
    }
    let members = vec![(owned("pins"), Json::Array(list)), (owned("value"), Json::Str(owned(value)))];
    proof {
        crate::json::lemma_member_views_index(members@);
        let mv = member_views(members@);
        assert(mv[0].0 == "pins"@);
        assert(mv[1].0 == "value"@);
        assert("pins"@ != "value"@) by {
            assert("pins"@[0] != "value"@[0]);
        }
        assert(mv.drop_first()[0] == mv[1]);
        assert(member_of(mv, "pins"@) == Some(mv[0].1));
        assert(member_of(mv.drop_first(), "value"@) == Some(mv[1].1));
        assert(member_of(mv, "value"@) == Some(mv[1].1));
        assert(mv[1].1 == JsonView::Str(value@));
    }
    Json::Object(members)
}

} // verus!
