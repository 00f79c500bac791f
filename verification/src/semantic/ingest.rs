//! SCIP index → normalized graph ingest.
//!
//! The index is read into the plain model below at the edge; this module
//! owns the mapping from that model into Trellis's graph. Nothing is
//! silently dropped: every document is ingested, skipped (non-Python), or
//! accounted for in the [`IngestReport`].
//!
//! Normalization contract (scip-python shape):
//! - The dotted subject of a symbol is `path→module` (`auth/tokens.py` →
//!   `auth.tokens`) followed by the term/method descriptors
//!   (`auth.service.AuthService.verify`).
//! - A reference occurrence of symbol S contributes the caller member
//!   `<enclosing def scope>` when its range is enclosed by a definition of
//!   the same document, else the module member. References never include
//!   a module's own occurrences of itself.
//! - Implementation / type-definition relationships are precise:
//!   implementations/subclasses are taken as given.
use vstd::prelude::*;

use crate::order::{views, canonical_set, canonical_set_of, lemma_views_push};
use crate::program::model::{join_strings_pub, join_with, slashes_to_dots};
use crate::semantic::graph::{grouped, identity_text, MemberMap, ScipGraph, ScipIdentity};
use crate::text::{chars_end_with, chars_of, contains_string, ends_with, owned, string_of_chars, str_eq};

verus! {

/// Tool information of a SCIP index's metadata.
#[derive(Debug, PartialEq, Eq)]
pub struct ScipToolInfo {
    /// Tool name.
    pub name: String,
    /// Tool version.
    pub version: String,
}

/// Metadata of a SCIP index.
#[derive(Debug, PartialEq, Eq)]
pub struct ScipMetadata {
    /// The producing tool, if declared.
    pub tool_info: Option<ScipToolInfo>,
}

/// One relationship of a symbol.
#[derive(Debug, PartialEq, Eq)]
pub struct ScipRelationship {
    /// The related symbol.
    pub symbol: String,
    /// The symbol implements the related one.
    pub is_implementation: bool,
    /// The related symbol is a type definition (superclass) of this one.
    pub is_type_definition: bool,
}

/// Symbol information emitted for a defined symbol.
#[derive(Debug, PartialEq, Eq)]
pub struct ScipSymbolInfo {
    /// The SCIP symbol string.
    pub symbol: String,
    /// Relationships to other symbols.
    pub relationships: Vec<ScipRelationship>,
}

/// One occurrence of a symbol in a document.
#[derive(Debug, PartialEq, Eq)]
pub struct ScipOccurrence {
    /// The SCIP symbol string.
    pub symbol: String,
    /// Symbol role bits (bit 0: definition).
    pub symbol_roles: i32,
    /// `[start_line, start_char, end_char]` or
    /// `[start_line, start_char, end_line, end_char]`.
    pub range: Vec<i32>,
}

/// One document of a SCIP index.
#[derive(Debug, PartialEq, Eq)]
pub struct ScipDocument {
    /// Path relative to the project root.
    pub relative_path: String,
    /// Source language.
    pub language: String,
    /// Symbols defined in the document.
    pub symbols: Vec<ScipSymbolInfo>,
    /// Occurrences in the document.
    pub occurrences: Vec<ScipOccurrence>,
}

/// A SCIP index: metadata, documents, external symbols.
#[derive(Debug, PartialEq, Eq)]
pub struct ScipIndex {
    /// Index metadata, if present.
    pub metadata: Option<ScipMetadata>,
    /// Documents.
    pub documents: Vec<ScipDocument>,
    /// Symbols referenced but defined outside the indexed documents.
    pub external_symbols: Vec<ScipSymbolInfo>,
}

/// The descriptors of a SCIP symbol string as `scip::symbol::parse_symbol`
/// decodes them (name and suffix code), or `None` when it rejects the
/// string.
pub uninterp spec fn scip_symbol_descriptors(raw: Seq<char>) -> Option<Seq<(Seq<char>, i32)>>;

/// The views of a descriptor list.
pub open spec fn descriptor_views(d: Option<Vec<(String, i32)>>) -> Option<Seq<(Seq<char>, i32)>> {
    match d {
        Some(v) => Some(v@.map_values(|x: (String, i32)| (x.0@, x.1))),
        None => None,
    }
}

/// Calls `scip::symbol::parse_symbol` and hands out each descriptor's name
/// and numeric suffix code. The contract names the result as a function of
/// the symbol string alone; no property of the SCIP grammar is claimed.
#[verifier::external_body]
fn parse_descriptors(raw: &str) -> (r: Option<Vec<(String, i32)>>)
    ensures
        descriptor_views(r) == scip_symbol_descriptors(raw@),
{
    let parsed = scip::symbol::parse_symbol(raw).ok()?;
    Some(parsed.descriptors.into_iter().map(|d| (d.name, d.suffix.value())).collect())
}

/// The module parts and scope parts after some descriptors, or `None` when
/// a descriptor of an unsupported suffix appears. A `.py` namespace
/// restarts the module (its path, `/__init__` dropped, dotted) and clears
/// the scope; other namespaces extend the module; terms and methods extend
/// the scope.
pub open spec fn dotted_state(d: Seq<(Seq<char>, i32)>) -> Option<(Seq<Seq<char>>, Seq<Seq<char>>)>
    decreases d.len(),
{
    if d.len() == 0 {
        Some((Seq::empty(), Seq::empty()))
    } else {
        match dotted_state(d.drop_last()) {
            None => None,
            Some((m, s)) => {
                let (name, code) = d.last();
                if code == 1 {
                    if ends_with(name, ".py"@) {
                        let stem = name.subrange(0, name.len() - 3);
                        let stem2 = if ends_with(stem, "/__init__"@) {
                            stem.subrange(0, stem.len() - 9)
                        } else {
                            stem
                        };
                        Some((seq![slashes_to_dots(stem2)], Seq::empty()))
                    } else {
                        Some((m.push(name), s))
                    }
                } else if code == 3 || code == 4 {
                    Some((m, s.push(name)))
                } else {
                    None
                }
            },
        }
    }
}

/// The dotted Trellis form of a SCIP symbol, e.g.
/// `scip-python pip pkg 1 \`auth/service.py\`/AuthService.verify().` →
/// `auth.service.AuthService.verify`.
pub open spec fn symbol_dotted(raw: Seq<char>) -> Option<Seq<char>> {
    match scip_symbol_descriptors(raw) {
        None => None,
        Some(d) => descriptors_dotted(d),
    }
}

/// The dotted form of decoded descriptors: the module parts, then the
/// scope parts, joined by `.`; `None` for an unsupported suffix or when no
/// module part appears.
pub open spec fn descriptors_dotted(d: Seq<(Seq<char>, i32)>) -> Option<Seq<char>> {
    match dotted_state(d) {
        None => None,
        Some((m, s)) => if m.len() == 0 {
            None
        } else {
            Some(join_with(m + s, "."@))
        },
    }
}

fn strip_suffix_chars(s: Vec<char>, suffix: &str) -> (r: Vec<char>)
    ensures
        r@ == if ends_with(s@, suffix@) {
            s@.subrange(0, s@.len() - suffix@.len())
        } else {
            s@
        },
{
    let suf = chars_of(suffix);
    if chars_end_with(&s, suf.as_slice()) {
        let keep = s.len() - suf.len();
        crate::text::chars_range(&s, 0, keep)
    } else {
        s
    }
}

fn dots_for_slashes(s: &Vec<char>) -> (r: Vec<char>)
    ensures
        r@ == slashes_to_dots(s@),
{
    let mut r: Vec<char> = Vec::new();
    let mut i: usize = 0;
    while i < s.len()
        invariant
            i <= s@.len(),
            r@ == slashes_to_dots(s@.subrange(0, i as int)),
        decreases s.len() - i,
    {
        let c = s[i];
        r.push(if c == '/' { '.' } else { c });
        proof {
            assert(slashes_to_dots(s@.subrange(0, i + 1)) =~= slashes_to_dots(s@.subrange(0, i as int)).push(
                if c == '/' { '.' } else { c },
            ));
        }
        i = i + 1;
    }
    assert(s@.subrange(0, s@.len() as int) =~= s@);
    r
}

/// Decode a SCIP symbol string into its Trellis dotted form.
pub fn symbol_to_dotted(raw: &str) -> (r: Option<String>)
    ensures
        match r {
            Some(s) => symbol_dotted(raw@) == Some(s@),
            None => symbol_dotted(raw@) is None,
        },
{
    match parse_descriptors(raw) {
        Some(d) => dotted_from_descriptors(&d),
        None => None,
    }
}

/// The dotted Trellis form of decoded SCIP descriptors (name and suffix
/// code each): a `.py` namespace gives the module, other namespaces extend
/// it, terms and methods extend the scope; any other suffix, or no module
/// part, gives `None`.
pub fn dotted_from_descriptors(descriptors: &Vec<(String, i32)>) -> (r: Option<String>)
    ensures
        match r {
            Some(s) => descriptors_dotted(descriptors@.map_values(|x: (String, i32)| (x.0@, x.1))) == Some(s@),
            None => descriptors_dotted(descriptors@.map_values(|x: (String, i32)| (x.0@, x.1))) is None,
        },
{
    let ghost dv = descriptors@.map_values(|x: (String, i32)| (x.0@, x.1));
    let mut module_parts: Vec<String> = Vec::new();
    let mut scope_parts: Vec<String> = Vec::new();
    let mut i: usize = 0;
    while i < descriptors.len()
        invariant
            i <= descriptors@.len(),
            dv == descriptors@.map_values(|x: (String, i32)| (x.0@, x.1)),
            dotted_state(dv.subrange(0, i as int)) == Some((views(module_parts@), views(scope_parts@))),
        decreases descriptors.len() - i,
    {
        let ghost sub = dv.subrange(0, i + 1);
        proof {
            assert(sub.drop_last() =~= dv.subrange(0, i as int));
            assert(sub.last() == dv[i as int]);
            reveal_strlit(".py");
            reveal_strlit("/__init__");
        }
        let code = descriptors[i].1;
        if code == 1 {
            let name = chars_of(descriptors[i].0.as_str());
            let py = chars_of(".py");
            if chars_end_with(&name, py.as_slice()) {
                let stem = strip_suffix_chars(name, ".py");
                let stem = strip_suffix_chars(stem, "/__init__");
                let dotted = dots_for_slashes(&stem);
                let part = string_of_chars(dotted.as_slice());
                module_parts = Vec::new();
                module_parts.push(part);
                scope_parts = Vec::new();
                proof {
                    assert(views(module_parts@) =~= seq![part@]);
                    assert(views(scope_parts@) =~= Seq::<Seq<char>>::empty());
                }
            } else {
                let ghost pre = module_parts@;
                let p = descriptors[i].0.clone();
                module_parts.push(p);
                proof {
                    lemma_views_push(pre, p);
                }
            }
        } else if code == 3 || code == 4 {
            let ghost pre = scope_parts@;
            let p = descriptors[i].0.clone();
            scope_parts.push(p);
            proof {
                lemma_views_push(pre, p);
            }
        } else {
            proof {
                lemma_dotted_state_none_extends(dv, i as int + 1);
            }
            return None;
        }
        i = i + 1;
    }
    proof {
        assert(dv.subrange(0, descriptors@.len() as int) =~= dv);
    }
    if module_parts.len() == 0 {
        return None;
    }
    let mut all = module_parts;
    let mut k: usize = 0;
    let ghost base = views(all@);
    while k < scope_parts.len()
        invariant
            k <= scope_parts@.len(),
            views(all@) == base + views(scope_parts@).subrange(0, k as int),
        decreases scope_parts.len() - k,
    {
        let ghost pre = all@;
        let p = scope_parts[k].clone();
        all.push(p);
        proof {
            lemma_views_push(pre, p);
            assert(views(scope_parts@).subrange(0, k + 1) =~= views(scope_parts@).subrange(0, k as int).push(scope_parts@[k as int]@));
        }
        k = k + 1;
    }
    proof {
        assert(views(scope_parts@).subrange(0, scope_parts@.len() as int) =~= views(scope_parts@));
    }
    Some(join_strings_pub(&all, "."))
}

proof fn lemma_dotted_state_none_extends(d: Seq<(Seq<char>, i32)>, i: int)
    requires
        0 < i <= d.len(),
        dotted_state(d.subrange(0, i)) is None,
    ensures
        dotted_state(d) is None,
    decreases d.len() - i,
{
    if i < d.len() {
        let sub = d.subrange(0, i + 1);
        assert(sub.drop_last() =~= d.subrange(0, i));
        lemma_dotted_state_none_extends(d, i + 1);
    } else {
        assert(d.subrange(0, i) =~= d);
    }
}

/// A SCIP occurrence range normalized to `[start_line, start_char,
/// end_line, end_char]` (three-element single-line ranges infer the end
/// line; malformed ranges are all zero).
pub open spec fn range_of(r: Seq<i32>) -> [i32; 4] {
    if r.len() == 3 {
        [r[0], r[1], r[0], r[2]]
    } else if r.len() == 4 {
        [r[0], r[1], r[2], r[3]]
    } else {
        [0i32, 0i32, 0i32, 0i32]
    }
}

/// Normalize a SCIP occurrence range.
pub fn range4(range: &[i32]) -> (r: [i32; 4])
    ensures
        r == range_of(range@),
{
    if range.len() == 3 {
        [range[0], range[1], range[0], range[2]]
    } else if range.len() == 4 {
        [range[0], range[1], range[2], range[3]]
    } else {
        [0, 0, 0, 0]
    }
}

/// Definition range `d` encloses occurrence range `o`.
pub open spec fn encloses(d: [i32; 4], o: [i32; 4]) -> bool {
    &&& (d[0] < o[0] || (d[0] == o[0] && d[1] <= o[1]))
    &&& (d[2] > o[2] || (d[2] == o[2] && d[3] >= o[3]))
}

/// The span of a best-so-far candidate.
pub open spec fn best_span(b: Option<(int, Seq<char>)>) -> int {
    match b {
        Some((span, _)) => span,
        None => 0,
    }
}

/// The innermost enclosing definition so far: the first one of the
/// smallest line span.
pub open spec fn best_enclosing(o: [i32; 4], defs: Seq<(Seq<char>, [i32; 4])>) -> Option<(int, Seq<char>)>
    decreases defs.len(),
{
    if defs.len() == 0 {
        None
    } else {
        let best = best_enclosing(o, defs.drop_last());
        let (dotted, d) = defs.last();
        let span = d[2] - d[0];
        if encloses(d, o) && (best is None || span < best_span(best)) {
            Some((span, dotted))
        } else {
            best
        }
    }
}

/// The line span of a range.
pub open spec fn line_span(d: [i32; 4]) -> int {
    d[2] - d[0]
}

proof fn lemma_best_enclosing_innermost(o: [i32; 4], defs: Seq<(Seq<char>, [i32; 4])>)
    ensures
        best_enclosing(o, defs) is None <==> forall|j: int| 0 <= j < defs.len() ==> !encloses(#[trigger] defs[j].1, o),
        best_enclosing(o, defs) matches Some((span, dotted)) ==> exists|k: int| {
            &&& 0 <= k < defs.len()
            &&& encloses(defs[k].1, o)
            &&& dotted == defs[k].0
            &&& span == line_span(defs[k].1)
            &&& forall|j: int| 0 <= j < defs.len() && encloses(#[trigger] defs[j].1, o) ==> span <= line_span(defs[j].1)
        },
    decreases defs.len(),
{
    if defs.len() > 0 {
        let init = defs.drop_last();
        lemma_best_enclosing_innermost(o, init);
        let n = defs.len() - 1;
        assert forall|j: int| 0 <= j < init.len() implies init[j] == defs[j] by {}
        let best = best_enclosing(o, init);
        let (dotted, d) = defs.last();
        assert(defs[n] == defs.last());
        if encloses(d, o) && (best is None || line_span(d) < best_span(best)) {
            if let Some((bs, bd)) = best {
                let k = choose|k: int| {
                    &&& 0 <= k < init.len()
                    &&& encloses(init[k].1, o)
                    &&& bd == init[k].0
                    &&& bs == line_span(init[k].1)
                    &&& forall|j: int| 0 <= j < init.len() && encloses(#[trigger] init[j].1, o) ==> bs <= line_span(init[j].1)
                };
                assert forall|j: int| 0 <= j < defs.len() && encloses(#[trigger] defs[j].1, o) implies line_span(d) <= line_span(defs[j].1) by {
                    if j < n {
                        assert(init[j] == defs[j]);
                    }
                }
            } else {
                assert forall|j: int| 0 <= j < defs.len() && encloses(#[trigger] defs[j].1, o) implies line_span(d) <= line_span(defs[j].1) by {
                    if j < n {
                        assert(init[j] == defs[j]);
                    }
                }
            }
        } else {
            if let Some((bs, bd)) = best {
                let k = choose|k: int| {
                    &&& 0 <= k < init.len()
                    &&& encloses(init[k].1, o)
                    &&& bd == init[k].0
                    &&& bs == line_span(init[k].1)
                    &&& forall|j: int| 0 <= j < init.len() && encloses(#[trigger] init[j].1, o) ==> bs <= line_span(init[j].1)
                };
                assert(defs[k] == init[k]);
                assert forall|j: int| 0 <= j < defs.len() && encloses(#[trigger] defs[j].1, o) implies bs <= line_span(defs[j].1) by {
                    if j < n {
                        assert(init[j] == defs[j]);
                    }
                }
            } else {
                assert forall|j: int| 0 <= j < defs.len() implies !encloses(#[trigger] defs[j].1, o) by {
                    if j < n {
                        assert(init[j] == defs[j]);
                    }
                }
            }
        }
    }
}

/// An occurrence belongs to its innermost enclosing definition: the member
/// is a definition whose range encloses the occurrence and whose line span
/// is no larger than that of any other enclosing definition; only when no
/// definition encloses it is it the module member.
pub proof fn lemma_member_is_innermost(o: [i32; 4], defs: Seq<(Seq<char>, [i32; 4])>, module: Seq<char>)
    ensures
        (forall|j: int| 0 <= j < defs.len() ==> !encloses(#[trigger] defs[j].1, o)) ==> member_for(o, defs, module) == module,
        (exists|j: int| 0 <= j < defs.len() && encloses(#[trigger] defs[j].1, o)) ==> exists|k: int| {
            &&& 0 <= k < defs.len()
            &&& encloses(defs[k].1, o)
            &&& member_for(o, defs, module) == defs[k].0
            &&& forall|j: int| 0 <= j < defs.len() && encloses(#[trigger] defs[j].1, o) ==> line_span(defs[k].1) <= line_span(defs[j].1)
        },
{
    lemma_best_enclosing_innermost(o, defs);
}

/// The dotted member an occurrence belongs to: the innermost definition
/// whose range encloses it, else the module member (module-level code).
pub open spec fn member_for(o: [i32; 4], defs: Seq<(Seq<char>, [i32; 4])>, module: Seq<char>) -> Seq<char> {
    match best_enclosing(o, defs) {
        Some((_, dotted)) => dotted,
        None => module,
    }
}

/// The dotted member an occurrence belongs to.
pub fn enclosing_member(occurrence_range: &[i32], def_ranges: &[(String, [i32; 4])], module: &str) -> (r:
    String)
    ensures
        r@ == member_for(
            range_of(occurrence_range@),
            def_ranges@.map_values(|x: (String, [i32; 4])| (x.0@, x.1)),
            module@,
        ),
{
    let o = range4(occurrence_range);
    let ghost dv = def_ranges@.map_values(|x: (String, [i32; 4])| (x.0@, x.1));
    let mut best: Option<(i64, usize)> = None;
    let mut i: usize = 0;
    while i < def_ranges.len()
        invariant
            i <= def_ranges@.len(),
            o == range_of(occurrence_range@),
            dv == def_ranges@.map_values(|x: (String, [i32; 4])| (x.0@, x.1)),
            match best {
                None => best_enclosing(o, dv.subrange(0, i as int)) is None,
                Some((span, k)) => k < i && best_enclosing(o, dv.subrange(0, i as int)) == Some(
                    (span as int, dv[k as int].0),
                ),
            },
        decreases def_ranges.len() - i,
    {
        let ghost sub = dv.subrange(0, i + 1);
        proof {
            assert(sub.drop_last() =~= dv.subrange(0, i as int));
            assert(sub.last() == dv[i as int]);
        }
        let d = def_ranges[i].1;
        let inside = (d[0] < o[0] || (d[0] == o[0] && d[1] <= o[1])) && (d[2] > o[2] || (d[2]
            == o[2] && d[3] >= o[3]));
        if inside {
            let span: i64 = d[2] as i64 - d[0] as i64;
            let better = match best {
                None => true,
                Some((b, _)) => span < b,
            };
            if better {
                best = Some((span, i));
            }
        }
        i = i + 1;
    }
    proof {
        assert(dv.subrange(0, def_ranges@.len() as int) =~= dv);
    }
    match best {
        Some((_, k)) => def_ranges[k].0.clone(),
        None => owned(module),
    }
}

/// The module of a document path: `.py` and `/__init__` dropped, `/`
/// becomes `.`.
pub open spec fn document_module(path: Seq<char>) -> Seq<char> {
    let stem = if ends_with(path, ".py"@) {
        path.subrange(0, path.len() - 3)
    } else {
        path
    };
    let stem2 = if ends_with(stem, "/__init__"@) {
        stem.subrange(0, stem.len() - 9)
    } else {
        stem
    };
    slashes_to_dots(stem2)
}

/// The module of a document path.
pub fn module_of_document(path: &str) -> (r: String)
    ensures
        r@ == document_module(path@),
{
    proof {
        reveal_strlit(".py");
        reveal_strlit("/__init__");
    }
    let cs = chars_of(path);
    let stem = strip_suffix_chars(cs, ".py");
    let stem = strip_suffix_chars(stem, "/__init__");
    let dotted = dots_for_slashes(&stem);
    string_of_chars(dotted.as_slice())
}

/// Ingest accounting: what was consumed, skipped, and how. Nothing is
/// silently dropped.
#[derive(Debug, PartialEq, Eq)]
pub struct IngestReport {
    /// Python documents ingested into the graph.
    pub documents_ingested: usize,
    /// Documents skipped because they are not Python — counted explicitly.
    pub documents_non_python: usize,
    /// Reference occurrences consumed into caller/reference sets.
    pub references_consumed: usize,
    /// Implementation/subclass relationships consumed.
    pub relationships_consumed: usize,
    /// The indexer identity derived from SCIP metadata + adapter version.
    pub identity: String,
}

impl Default for IngestReport {
    fn default() -> (r: Self)
        ensures
            r.documents_ingested == 0,
            r.documents_non_python == 0,
            r.references_consumed == 0,
            r.relationships_consumed == 0,
            r.identity@.len() == 0,
    {
        IngestReport {
            documents_ingested: 0,
            documents_non_python: 0,
            references_consumed: 0,
            relationships_consumed: 0,
            identity: String::new(),
        }
    }
}

/// The document is a Python document.
pub open spec fn is_python(d: ScipDocument) -> bool {
    d.language@ == "python"@
}

/// The symbol names of a list of symbol informations.
pub open spec fn symbol_names(syms: Seq<ScipSymbolInfo>) -> Seq<Seq<char>> {
    syms.map_values(|si: ScipSymbolInfo| si.symbol@)
}

/// The symbols with symbol information in Python documents.
pub open spec fn python_symbol_names(docs: Seq<ScipDocument>) -> Seq<Seq<char>>
    decreases docs.len(),
{
    if docs.len() == 0 {
        Seq::empty()
    } else {
        python_symbol_names(docs.drop_last()) + if is_python(docs.last()) {
            symbol_names(docs.last().symbols@)
        } else {
            Seq::empty()
        }
    }
}

/// The symbol has symbol information in the index: as an external symbol
/// or in a Python document.
pub open spec fn declared_symbol(index: ScipIndex, s: Seq<char>) -> bool {
    (symbol_names(index.external_symbols@) + python_symbol_names(index.documents@)).contains(s)
}

/// The dotted subject a symbol resolves to: declared symbols decode,
/// others are unknown.
pub open spec fn dotted_of(index: ScipIndex, s: Seq<char>) -> Option<Seq<char>> {
    if declared_symbol(index, s) {
        symbol_dotted(s)
    } else {
        None
    }
}

/// The occurrence is a definition (role bit 0).
pub open spec fn is_definition(o: ScipOccurrence) -> bool {
    o.symbol_roles & 1 != 0
}

/// Definition ranges of one symbol among a document's occurrences.
pub open spec fn def_occs(dd: Seq<char>, sym: Seq<char>, occs: Seq<ScipOccurrence>) -> Seq<(Seq<char>, [i32; 4])>
    decreases occs.len(),
{
    if occs.len() == 0 {
        Seq::empty()
    } else {
        let o = occs.last();
        def_occs(dd, sym, occs.drop_last()) + if o.symbol@ == sym && is_definition(o) {
            seq![(dd, range_of(o.range@))]
        } else {
            Seq::empty()
        }
    }
}

/// Definition ranges of a document, symbol by symbol.
pub open spec fn def_ranges_syms(index: ScipIndex, syms: Seq<ScipSymbolInfo>, occs: Seq<ScipOccurrence>) -> Seq<(Seq<char>, [i32; 4])>
    decreases syms.len(),
{
    if syms.len() == 0 {
        Seq::empty()
    } else {
        def_ranges_syms(index, syms.drop_last(), occs) + match dotted_of(index, syms.last().symbol@) {
            Some(dd) => def_occs(dd, syms.last().symbol@, occs),
            None => Seq::empty(),
        }
    }
}

/// The kind of pair a pass collects.
pub enum PairKind {
    /// symbol → caller member.
    Callers,
    /// symbol → referencing module.
    References,
    /// interface → implementing symbol.
    Implementations,
    /// superclass → subclass symbol.
    Subclasses,
}

/// Relationship pairs of one symbol's relationships.
pub open spec fn rel_pairs(subject: Seq<char>, rels: Seq<ScipRelationship>, implementations: bool) -> Seq<(Seq<char>, Seq<char>)>
    decreases rels.len(),
{
    if rels.len() == 0 {
        Seq::empty()
    } else {
        let r = rels.last();
        rel_pairs(subject, rels.drop_last(), implementations) + match symbol_dotted(r.symbol@) {
            Some(t) => if (implementations && r.is_implementation) || (!implementations && r.is_type_definition) {
                seq![(t, subject)]
            } else {
                Seq::empty()
            },
            None => Seq::empty(),
        }
    }
}

/// Relationship pairs of a document's symbols.
pub open spec fn rel_pairs_syms(index: ScipIndex, syms: Seq<ScipSymbolInfo>, implementations: bool) -> Seq<(Seq<char>, Seq<char>)>
    decreases syms.len(),
{
    if syms.len() == 0 {
        Seq::empty()
    } else {
        rel_pairs_syms(index, syms.drop_last(), implementations) + match dotted_of(index, syms.last().symbol@) {
            Some(subject) => rel_pairs(subject, syms.last().relationships@, implementations),
            None => Seq::empty(),
        }
    }
}

/// Reference pairs of a document's occurrences: for each non-definition
/// occurrence of a known subject other than the module itself, the caller
/// member (enclosing definition, else the module) or the referencing
/// module.
pub open spec fn occ_pairs(
    index: ScipIndex,
    occs: Seq<ScipOccurrence>,
    module: Seq<char>,
    defs: Seq<(Seq<char>, [i32; 4])>,
    callers: bool,
) -> Seq<(Seq<char>, Seq<char>)>
    decreases occs.len(),
{
    if occs.len() == 0 {
        Seq::empty()
    } else {
        let o = occs.last();
        occ_pairs(index, occs.drop_last(), module, defs, callers) + if !is_definition(o) {
            match dotted_of(index, o.symbol@) {
                Some(s) => if s != module {
                    seq![(s, if callers { member_for(range_of(o.range@), defs, module) } else { module })]
                } else {
                    Seq::empty()
                },
                None => Seq::empty(),
            }
        } else {
            Seq::empty()
        }
    }
}

/// The pairs one document contributes.
pub open spec fn doc_pairs(index: ScipIndex, d: ScipDocument, kind: PairKind) -> Seq<(Seq<char>, Seq<char>)> {
    let module = document_module(d.relative_path@);
    let defs = def_ranges_syms(index, d.symbols@, d.occurrences@);
    match kind {
        PairKind::Callers => occ_pairs(index, d.occurrences@, module, defs, true),
        PairKind::References => occ_pairs(index, d.occurrences@, module, defs, false),
        PairKind::Implementations => rel_pairs_syms(index, d.symbols@, true),
        PairKind::Subclasses => rel_pairs_syms(index, d.symbols@, false),
    }
}

/// The pairs all Python documents contribute, in document order.
pub open spec fn all_pairs(index: ScipIndex, docs: Seq<ScipDocument>, kind: PairKind) -> Seq<(Seq<char>, Seq<char>)>
    decreases docs.len(),
{
    if docs.len() == 0 {
        Seq::empty()
    } else {
        all_pairs(index, docs.drop_last(), kind) + if is_python(docs.last()) {
            doc_pairs(index, docs.last(), kind)
        } else {
            Seq::empty()
        }
    }
}

/// The paths of the Python documents, in order.
pub open spec fn python_paths(docs: Seq<ScipDocument>) -> Seq<Seq<char>>
    decreases docs.len(),
{
    if docs.len() == 0 {
        Seq::empty()
    } else {
        python_paths(docs.drop_last()) + if is_python(docs.last()) {
            seq![docs.last().relative_path@]
        } else {
            Seq::empty()
        }
    }
}

/// The indexer identity the metadata declares.
pub open spec fn metadata_identity(m: Option<ScipMetadata>) -> Seq<char> {
    let (tool, version) = match m {
        Some(meta) => match meta.tool_info {
            Some(t) => (t.name@, t.version@),
            None => (Seq::<char>::empty(), Seq::<char>::empty()),
        },
        None => (Seq::<char>::empty(), Seq::<char>::empty()),
    };
    identity_text(crate::semantic::graph::ADAPTER_VERSION@, tool, version)
}

fn is_python_doc(d: &ScipDocument) -> (r: bool)
    ensures
        r == is_python(*d),
{
    str_eq(d.language.as_str(), "python")
}

fn push_symbol_names(out: &mut Vec<String>, syms: &Vec<ScipSymbolInfo>)
    ensures
        views(final(out)@) == views(old(out)@) + symbol_names(syms@),
{
    let ghost start = views(out@);
    let mut i: usize = 0;
    while i < syms.len()
        invariant
            i <= syms@.len(),
            views(out@) == start + symbol_names(syms@).subrange(0, i as int),
        decreases syms.len() - i,
    {
        let ghost pre = out@;
        let sym = syms[i].symbol.clone();
        out.push(sym);
        proof {
            lemma_views_push(pre, sym);
            assert(symbol_names(syms@).subrange(0, i + 1) =~= symbol_names(syms@).subrange(0, i as int).push(syms@[i as int].symbol@));
        }
        i = i + 1;
    }
    assert(symbol_names(syms@).subrange(0, syms@.len() as int) =~= symbol_names(syms@));
}

fn declared_symbols(index: &ScipIndex) -> (r: Vec<String>)
    ensures
        views(r@) == symbol_names(index.external_symbols@) + python_symbol_names(index.documents@),
{
    let mut out: Vec<String> = Vec::new();
    push_symbol_names(&mut out, &index.external_symbols);
    let ghost ext = symbol_names(index.external_symbols@);
    let mut d: usize = 0;
    proof {
        assert(views(out@) =~= ext + python_symbol_names(index.documents@.subrange(0, 0)));
    }
    while d < index.documents.len()
        invariant
            d <= index.documents@.len(),
            ext == symbol_names(index.external_symbols@),
            views(out@) == ext + python_symbol_names(index.documents@.subrange(0, d as int)),
        decreases index.documents.len() - d,
    {
        let ghost sub = index.documents@.subrange(0, d + 1);
        proof {
            assert(sub.drop_last() =~= index.documents@.subrange(0, d as int));
            assert(sub.last() == index.documents@[d as int]);
        }
        if is_python_doc(&index.documents[d]) {
            push_symbol_names(&mut out, &index.documents[d].symbols);
        }
        proof {
            assert(views(out@) =~= ext + python_symbol_names(sub));
        }
        d = d + 1;
    }
    proof {
        assert(index.documents@.subrange(0, index.documents@.len() as int) =~= index.documents@);
    }
    out
}

fn dotted_lookup(declared: &Vec<String>, index: &ScipIndex, s: &str) -> (r: Option<String>)
    requires
        views(declared@) == symbol_names(index.external_symbols@) + python_symbol_names(index.documents@),
    ensures
        match r {
            Some(t) => dotted_of(*index, s@) == Some(t@),
            None => dotted_of(*index, s@) is None,
        },
{
    if contains_string(declared.as_slice(), s) {
        symbol_to_dotted(s)
    } else {
        None
    }
}

/// The views of a definition-range list.
pub open spec fn def_views(d: Seq<(String, [i32; 4])>) -> Seq<(Seq<char>, [i32; 4])> {
    d.map_values(|x: (String, [i32; 4])| (x.0@, x.1))
}

fn def_ranges_of_doc(declared: &Vec<String>, index: &ScipIndex, doc: &ScipDocument) -> (r: Vec<(String, [i32; 4])>)
    requires
        views(declared@) == symbol_names(index.external_symbols@) + python_symbol_names(index.documents@),
    ensures
        def_views(r@) == def_ranges_syms(*index, doc.symbols@, doc.occurrences@),
{
    let mut out: Vec<(String, [i32; 4])> = Vec::new();
    let mut i: usize = 0;
    while i < doc.symbols.len()
        invariant
            i <= doc.symbols@.len(),
            views(declared@) == symbol_names(index.external_symbols@) + python_symbol_names(index.documents@),
            def_views(out@) == def_ranges_syms(*index, doc.symbols@.subrange(0, i as int), doc.occurrences@),
        decreases doc.symbols.len() - i,
    {
        let ghost sub = doc.symbols@.subrange(0, i + 1);
        proof {
            assert(sub.drop_last() =~= doc.symbols@.subrange(0, i as int));
            assert(sub.last() == doc.symbols@[i as int]);
        }
        let ghost before = def_views(out@);
        match dotted_lookup(declared, index, doc.symbols[i].symbol.as_str()) {
            Some(dd) => {
                let mut j: usize = 0;
                let ghost sym = doc.symbols@[i as int].symbol@;
                while j < doc.occurrences.len()
                    invariant
                        j <= doc.occurrences@.len(),
                        i < doc.symbols@.len(),
                        sym == doc.symbols@[i as int].symbol@,
                        def_views(out@) == before + def_occs(dd@, sym, doc.occurrences@.subrange(0, j as int)),
                    decreases doc.occurrences.len() - j,
                {
                    let ghost osub = doc.occurrences@.subrange(0, j + 1);
                    proof {
                        assert(osub.drop_last() =~= doc.occurrences@.subrange(0, j as int));
                        assert(osub.last() == doc.occurrences@[j as int]);
                    }
                    let occ = &doc.occurrences[j];
                    if occ.symbol == doc.symbols[i].symbol && occ.symbol_roles & 1 != 0 {
                        let ghost pre = out@;
                        let item = (dd.clone(), range4(occ.range.as_slice()));
                        out.push(item);
                        proof {
                            assert(def_views(out@) =~= def_views(pre).push((item.0@, item.1)));
                        }
                    }
                    proof {
                        assert(def_views(out@) =~= before + def_occs(dd@, sym, osub));
                    }
                    j = j + 1;
                }
                proof {
                    assert(doc.occurrences@.subrange(0, doc.occurrences@.len() as int) =~= doc.occurrences@);
                    assert(def_views(out@) =~= def_ranges_syms(*index, sub, doc.occurrences@));
                }
            },
            None => {
                proof {
                    assert(def_views(out@) =~= def_ranges_syms(*index, sub, doc.occurrences@));
                }
            },
        }
        i = i + 1;
    }
    proof {
        assert(doc.symbols@.subrange(0, doc.symbols@.len() as int) =~= doc.symbols@);
    }
    out
}

fn rel_pairs_of_doc(declared: &Vec<String>, index: &ScipIndex, doc: &ScipDocument, implementations: bool) -> (r: Vec<(String, String)>)
    requires
        views(declared@) == symbol_names(index.external_symbols@) + python_symbol_names(index.documents@),
    ensures
        views(r@) == rel_pairs_syms(*index, doc.symbols@, implementations),
{
    let mut out: Vec<(String, String)> = Vec::new();
    let mut i: usize = 0;
    while i < doc.symbols.len()
        invariant
            i <= doc.symbols@.len(),
            views(declared@) == symbol_names(index.external_symbols@) + python_symbol_names(index.documents@),
            views(out@) == rel_pairs_syms(*index, doc.symbols@.subrange(0, i as int), implementations),
        decreases doc.symbols.len() - i,
    {
        let ghost sub = doc.symbols@.subrange(0, i + 1);
        proof {
            assert(sub.drop_last() =~= doc.symbols@.subrange(0, i as int));
            assert(sub.last() == doc.symbols@[i as int]);
        }
        let ghost before = views(out@);
        match dotted_lookup(declared, index, doc.symbols[i].symbol.as_str()) {
            Some(subject) => {
                let rels = &doc.symbols[i].relationships;
                let mut j: usize = 0;
                while j < rels.len()
                    invariant
                        j <= rels@.len(),
                        views(out@) == before + rel_pairs(subject@, rels@.subrange(0, j as int), implementations),
                    decreases rels.len() - j,
                {
                    let ghost rsub = rels@.subrange(0, j + 1);
                    proof {
                        assert(rsub.drop_last() =~= rels@.subrange(0, j as int));
                        assert(rsub.last() == rels@[j as int]);
                    }
                    match symbol_to_dotted(rels[j].symbol.as_str()) {
                        Some(t) => {
                            if (implementations && rels[j].is_implementation) || (!implementations
                                && rels[j].is_type_definition) {
                                let ghost pre = out@;
                                let item = (t, subject.clone());
                                out.push(item);
                                proof {
                                    lemma_views_push(pre, item);
                                }
                            }
                        },
                        None => {},
                    }
                    proof {
                        assert(views(out@) =~= before + rel_pairs(subject@, rsub, implementations));
                    }
                    j = j + 1;
                }
                proof {
                    assert(rels@.subrange(0, rels@.len() as int) =~= rels@);
                    assert(views(out@) =~= rel_pairs_syms(*index, sub, implementations));
                }
            },
            None => {
                proof {
                    assert(views(out@) =~= rel_pairs_syms(*index, sub, implementations));
                }
            },
        }
        i = i + 1;
    }
    proof {
        assert(doc.symbols@.subrange(0, doc.symbols@.len() as int) =~= doc.symbols@);
    }
    out
}

fn occ_pairs_of_doc(
    declared: &Vec<String>,
    index: &ScipIndex,
    doc: &ScipDocument,
    module: &String,
    defs: &Vec<(String, [i32; 4])>,
    callers: bool,
) -> (r: Vec<(String, String)>)
    requires
        views(declared@) == symbol_names(index.external_symbols@) + python_symbol_names(index.documents@),
    ensures
        views(r@) == occ_pairs(*index, doc.occurrences@, module@, def_views(defs@), callers),
{
    let mut out: Vec<(String, String)> = Vec::new();
    let mut i: usize = 0;
    while i < doc.occurrences.len()
        invariant
            i <= doc.occurrences@.len(),
            views(declared@) == symbol_names(index.external_symbols@) + python_symbol_names(index.documents@),
            views(out@) == occ_pairs(*index, doc.occurrences@.subrange(0, i as int), module@, def_views(defs@), callers),
        decreases doc.occurrences.len() - i,
    {
        let ghost sub = doc.occurrences@.subrange(0, i + 1);
        proof {
            assert(sub.drop_last() =~= doc.occurrences@.subrange(0, i as int));
            assert(sub.last() == doc.occurrences@[i as int]);
        }
        let occ = &doc.occurrences[i];
        if occ.symbol_roles & 1 == 0 {
            match dotted_lookup(declared, index, occ.symbol.as_str()) {
                Some(subject) => {
                    if !str_eq(subject.as_str(), module.as_str()) {
                        let member = if callers {
                            enclosing_member(occ.range.as_slice(), defs.as_slice(), module.as_str())
                        } else {
                            module.clone()
                        };
                        let ghost pre = out@;
                        let item = (subject, member);
                        out.push(item);
                        proof {
                            lemma_views_push(pre, item);
                        }
                    }
                },
                None => {},
            }
        }
        proof {
            assert(views(out@) =~= occ_pairs(*index, sub, module@, def_views(defs@), callers));
        }
        i = i + 1;
    }
    proof {
        assert(doc.occurrences@.subrange(0, doc.occurrences@.len() as int) =~= doc.occurrences@);
    }
    out
}

fn append_pairs(out: &mut Vec<(String, String)>, more: Vec<(String, String)>)
    ensures
        views(final(out)@) == views(old(out)@) + views(more@),
{
    let mut more = more;
    let ghost start = views(out@);
    let ghost mv = views(more@);
    out.append(&mut more);
    proof {
        assert(views(out@) =~= start + mv);
    }
}

/// The number of Python documents.
pub open spec fn python_count(docs: Seq<ScipDocument>) -> nat {
    python_paths(docs).len()
}

/// Ingest a SCIP index into the normalized graph.
///
/// Every member set is the canonical grouping of the pairs the documents
/// contribute (see [`doc_pairs`]); the document list is the canonical set
/// of Python document paths; the report counts exactly what was consumed.
pub fn ingest(index: &ScipIndex) -> (r: (ScipGraph, IngestReport))
    ensures
        grouped(r.0.callers@, all_pairs(*index, index.documents@, PairKind::Callers)),
        grouped(r.0.references@, all_pairs(*index, index.documents@, PairKind::References)),
        grouped(r.0.implementations@, all_pairs(*index, index.documents@, PairKind::Implementations)),
        grouped(r.0.subclasses@, all_pairs(*index, index.documents@, PairKind::Subclasses)),
        canonical_set_of::<String>(views(r.0.documents@), python_paths(index.documents@)),
        r.1.documents_ingested == python_count(index.documents@),
        r.1.documents_ingested + r.1.documents_non_python == index.documents@.len(),
        r.1.references_consumed == all_pairs(*index, index.documents@, PairKind::Callers).len(),
        r.1.relationships_consumed == if all_pairs(*index, index.documents@, PairKind::Implementations).len()
            + all_pairs(*index, index.documents@, PairKind::Subclasses).len() <= usize::MAX {
            all_pairs(*index, index.documents@, PairKind::Implementations).len()
                + all_pairs(*index, index.documents@, PairKind::Subclasses).len()
        } else {
            usize::MAX as nat
        },
        r.1.identity@ == metadata_identity(index.metadata),
{
    let identity = match &index.metadata {
        Some(meta) => match &meta.tool_info {
            Some(t) => ScipIdentity::new(t.name.as_str(), t.version.as_str()),
            None => ScipIdentity::new("", ""),
        },
        None => ScipIdentity::new("", ""),
    };
    let rendered = identity.render();
    proof {
        reveal_strlit("");
        assert(""@ =~= Seq::<char>::empty());
    }
    let declared = declared_symbols(index);
    let mut callers: Vec<(String, String)> = Vec::new();
    let mut references: Vec<(String, String)> = Vec::new();
    let mut implementations: Vec<(String, String)> = Vec::new();
    let mut subclasses: Vec<(String, String)> = Vec::new();
    let mut paths: Vec<String> = Vec::new();
    let mut ingested: usize = 0;
    let mut non_python: usize = 0;
    let ghost docs = index.documents@;
    let mut d: usize = 0;
    while d < index.documents.len()
        invariant
            d <= docs.len(),
            docs == index.documents@,
            views(declared@) == symbol_names(index.external_symbols@) + python_symbol_names(index.documents@),
            views(callers@) == all_pairs(*index, docs.subrange(0, d as int), PairKind::Callers),
            views(references@) == all_pairs(*index, docs.subrange(0, d as int), PairKind::References),
            views(implementations@) == all_pairs(*index, docs.subrange(0, d as int), PairKind::Implementations),
            views(subclasses@) == all_pairs(*index, docs.subrange(0, d as int), PairKind::Subclasses),
            views(paths@) == python_paths(docs.subrange(0, d as int)),
            ingested == python_count(docs.subrange(0, d as int)),
            ingested + non_python == d,
        decreases docs.len() - d,
    {
        let ghost sub = docs.subrange(0, d + 1);
        proof {
            assert(sub.drop_last() =~= docs.subrange(0, d as int));
            assert(sub.last() == docs[d as int]);
        }
        let doc = &index.documents[d];
        if is_python_doc(doc) {
            let ghost pre = paths@;
            let p = doc.relative_path.clone();
            paths.push(p);
            proof {
                lemma_views_push(pre, p);
            }
            ingested = ingested + 1;
            let module = module_of_document(doc.relative_path.as_str());
            let defs = def_ranges_of_doc(&declared, index, doc);
            append_pairs(&mut callers, occ_pairs_of_doc(&declared, index, doc, &module, &defs, true));
            append_pairs(&mut references, occ_pairs_of_doc(&declared, index, doc, &module, &defs, false));
            append_pairs(&mut implementations, rel_pairs_of_doc(&declared, index, doc, true));
            append_pairs(&mut subclasses, rel_pairs_of_doc(&declared, index, doc, false));
        } else {
            non_python = non_python + 1;
        }
        proof {
            assert(views(callers@) =~= all_pairs(*index, sub, PairKind::Callers));
            assert(views(references@) =~= all_pairs(*index, sub, PairKind::References));
            assert(views(implementations@) =~= all_pairs(*index, sub, PairKind::Implementations));
            assert(views(subclasses@) =~= all_pairs(*index, sub, PairKind::Subclasses));
            assert(views(paths@) =~= python_paths(sub));
        }
        d = d + 1;
    }
    proof {
        assert(docs.subrange(0, docs.len() as int) =~= docs);
    }
    let references_consumed = callers.len();
    let relationships_consumed = implementations.len().saturating_add(subclasses.len());
    let graph = ScipGraph {
        callers: MemberMap::from_pairs(callers.as_slice()),
        references: MemberMap::from_pairs(references.as_slice()),
        implementations: MemberMap::from_pairs(implementations.as_slice()),
        subclasses: MemberMap::from_pairs(subclasses.as_slice()),
        documents: canonical_set(paths),
    };
    let report = IngestReport {
        documents_ingested: ingested,
        documents_non_python: non_python,
        references_consumed,
        relationships_consumed,
        identity: rendered,
    };
    (graph, report)
}

} // verus!
