//! Deterministic syntax-grounded Python extraction.
//!
//! This backend proves **syntactic facts only** (definitions, signatures,
//! imports, parse status — per unit). Every semantic cross-file query
//! answers [`Answer::Unsupported`]: a syntax tree is not a semantic
//! resolver. Uncertainty is never rendered as an empty set.
use vstd::prelude::*;

use crate::artifact::opt_view;
use crate::hash::blake3_digest;
use crate::ids::{ContentHash, HashAlgo};
use crate::program::index::{Answer, ProgramIndex, Unsupported};
use crate::order::Ordered;
use crate::program::model::{has_empty_part, opt_text, DefKind, Definition, Import, ModuleId, Param, ParamKind, ParamModel, ParseStatus, Signature, SourceSpan, SymbolPath};
use crate::program::syntax::{node_text, normalize_ws, normalized, slice_of, slice_text, text_of, SyntaxNode, SyntaxRow};
use crate::text::{chars_of, str_eq, string_of_chars, starts_with};

verus! {

// ---------------------------------------------------------------------
// Reading nodes
// ---------------------------------------------------------------------

/// The node's kind.
pub open spec fn kind_of(n: SyntaxNode) -> Seq<char> {
    n.row.kind@
}

/// The node's text, or the empty text where its range cannot be read.
pub open spec fn text_or_empty(src: Seq<char>, n: SyntaxNode) -> Seq<char> {
    match node_text(src, n.row) {
        Some(t) => t,
        None => Seq::empty(),
    }
}

fn read_text(source: &str, n: &SyntaxNode) -> (r: String)
    ensures
        r@ == text_or_empty(source@, *n),
{
    match text_of(source, &n.row) {
        Some(t) => t,
        None => String::new(),
    }
}

fn kind_eq(n: &SyntaxNode, k: &str) -> (r: bool)
    ensures
        r == (kind_of(*n) == k@),
{
    str_eq(n.row.kind.as_str(), k)
}

/// The node is held under the given field.
pub open spec fn field_is(n: SyntaxNode, name: Seq<char>) -> bool {
    match n.row.field {
        Some(f) => f@ == name,
        None => false,
    }
}

/// An optional position moved back by `d`.
pub open spec fn shift(o: Option<int>, d: int) -> Option<int> {
    match o {
        Some(k) => Some(k - d),
        None => None,
    }
}

/// The index of the first child held under the given field.
pub open spec fn field_index(ns: Seq<SyntaxNode>, name: Seq<char>) -> Option<int>
    decreases ns.len(),
{
    if ns.len() == 0 {
        None
    } else if field_is(ns[0], name) {
        Some(0)
    } else {
        match field_index(ns.drop_first(), name) {
            Some(i) => Some(i + 1),
            None => None,
        }
    }
}

proof fn lemma_field_index_step(ns: Seq<SyntaxNode>, name: Seq<char>, i: int)
    requires
        0 <= i < ns.len(),
        field_index(ns.subrange(i, ns.len() as int), name) == shift(field_index(ns, name), i),
    ensures
        field_index(ns.subrange(i + 1, ns.len() as int), name) == (if field_is(ns[i], name) {
            field_index(ns.subrange(i + 1, ns.len() as int), name)
        } else {
            shift(field_index(ns, name), i + 1)
        }),
        field_is(ns[i], name) ==> field_index(ns, name) == Some(i),
        field_index(ns, name) is None || field_index(ns, name).unwrap() >= i,
{
    lemma_field_index_range(ns.subrange(i, ns.len() as int), name);
    assert(ns.subrange(i, ns.len() as int).drop_first() =~= ns.subrange(i + 1, ns.len() as int));
    assert(ns.subrange(i, ns.len() as int)[0] == ns[i]);
}

pub proof fn lemma_field_index_range(ns: Seq<SyntaxNode>, name: Seq<char>)
    ensures
        field_index(ns, name) matches Some(k) ==> 0 <= k < ns.len() && field_is(ns[k], name),
    decreases ns.len(),
{
    if ns.len() > 0 && !field_is(ns[0], name) {
        lemma_field_index_range(ns.drop_first(), name);
    }
}

/// The position of the first child under the given field.
fn find_field(children: &Vec<SyntaxNode>, name: &str) -> (r: Option<usize>)
    ensures
        match r {
            Some(i) => field_index(children@, name@) == Some(i as int) && i < children@.len(),
            None => field_index(children@, name@) is None,
        },
{
    let mut i: usize = 0;
    proof {
        assert(children@.subrange(0, children@.len() as int) =~= children@);
    }
    while i < children.len()
        invariant
            i <= children@.len(),
            field_index(children@.subrange(i as int, children@.len() as int), name@) == shift(field_index(children@, name@), i as int),
        decreases children.len() - i,
    {
        proof {
            lemma_field_index_step(children@, name@, i as int);
        }
        let hit = match &children[i].row.field {
            Some(f) => str_eq(f.as_str(), name),
            None => false,
        };
        if hit {
            return Some(i);
        }
        i = i + 1;
    }
    proof {
        assert(children@.subrange(i as int, children@.len() as int) =~= Seq::<SyntaxNode>::empty());
        let fi = field_index(children@, name@);
        if fi is Some {
            assert(shift(fi, i as int) is Some);
        }
    }
    None
}

/// Some child has the given kind.
pub open spec fn has_kind_child(ns: Seq<SyntaxNode>, k: Seq<char>) -> bool {
    exists|i: int| 0 <= i < ns.len() && kind_of(#[trigger] ns[i]) == k
}

fn any_child_kind(children: &Vec<SyntaxNode>, k: &str) -> (r: bool)
    ensures
        r == has_kind_child(children@, k@),
{
    let mut i: usize = 0;
    while i < children.len()
        invariant
            i <= children@.len(),
            forall|j: int| 0 <= j < i ==> kind_of(#[trigger] children@[j]) != k@,
        decreases children.len() - i,
    {
        if kind_eq(&children[i], k) {
            return true;
        }
        i = i + 1;
    }
    false
}

/// `x` truncated to 32 bits (what `as u32` keeps).
pub open spec fn low32(x: usize) -> u32 {
    (x as int % 0x1_0000_0000) as u32
}

fn to_u32(x: usize) -> (r: u32)
    ensures
        r == low32(x),
{
    ((x as u64) % 0x1_0000_0000u64) as u32
}

/// The source span of a node, with 32-bit line and column numbers.
pub open spec fn span_of(r: SyntaxRow) -> SourceSpan {
    SourceSpan {
        start_line: low32(r.start.0),
        start_column: low32(r.start.1),
        end_line: low32(r.end.0),
        end_column: low32(r.end.1),
    }
}

fn span_exec(r: &SyntaxRow) -> (s: SourceSpan)
    ensures
        s == span_of(*r),
{
    SourceSpan {
        start_line: to_u32(r.start.0),
        start_column: to_u32(r.start.1),
        end_line: to_u32(r.end.0),
        end_column: to_u32(r.end.1),
    }
}

// ---------------------------------------------------------------------
// Parse errors
// ---------------------------------------------------------------------

/// The node is an error or a missing-token node.
pub open spec fn flagged(n: SyntaxNode) -> bool {
    n.row.error || n.row.missing
}

/// The number of error and missing-token nodes in a tree.
pub open spec fn error_nodes(n: SyntaxNode) -> nat
    decreases n, 0nat,
{
    (if flagged(n) { 1nat } else { 0nat }) + error_nodes_all(n.children@)
}

/// The number of error and missing-token nodes in sibling trees.
pub open spec fn error_nodes_all(ns: Seq<SyntaxNode>) -> nat
    decreases ns, ns.len(),
{
    if ns.len() == 0 {
        0
    } else {
        error_nodes_all(ns.drop_last()) + error_nodes(ns.last())
    }
}

/// The span of the first error or missing-token node, in preorder.
pub open spec fn first_error(n: SyntaxNode) -> Option<SourceSpan>
    decreases n, 0nat,
{
    if flagged(n) {
        Some(span_of(n.row))
    } else {
        first_error_all(n.children@)
    }
}

/// The span of the first error node among sibling trees.
pub open spec fn first_error_all(ns: Seq<SyntaxNode>) -> Option<SourceSpan>
    decreases ns, ns.len(),
{
    if ns.len() == 0 {
        None
    } else {
        match first_error_all(ns.drop_last()) {
            Some(s) => Some(s),
            None => first_error(ns.last()),
        }
    }
}

/// A count held in 32 bits, stopping at the maximum.
pub open spec fn sat32(x: int) -> u32 {
    if x > u32::MAX { u32::MAX } else { x as u32 }
}

/// Counts error and missing-token nodes (saturating at `u32::MAX`) and
/// records the first one's span, in preorder.
fn scan_errors(node: &SyntaxNode, count: &mut u32, first: &mut Option<SourceSpan>)
    ensures
        *final(count) == sat32(*old(count) + error_nodes(*node)),
        *final(first) == match *old(first) {
            Some(s) => Some(s),
            None => first_error(*node),
        },
    decreases node,
{
    if node.row.error || node.row.missing {
        *count = count.saturating_add(1);
        if first.is_none() {
            *first = Some(span_exec(&node.row));
        }
    }
    let ghost c0 = *count;
    let ghost f0 = *first;
    let mut i: usize = 0;
    while i < node.children.len()
        invariant
            i <= node.children@.len(),
            *count == sat32(c0 + error_nodes_all(node.children@.subrange(0, i as int))),
            *first == match f0 {
                Some(s) => Some(s),
                None => first_error_all(node.children@.subrange(0, i as int)),
            },
        decreases node.children.len() - i,
    {
        let ghost pre = node.children@.subrange(0, i as int);
        scan_errors(&node.children[i], count, first);
        proof {
            let nxt = node.children@.subrange(0, i + 1);
            assert(nxt.drop_last() =~= pre);
            assert(nxt.last() == node.children@[i as int]);
        }
        i = i + 1;
    }
    assert(node.children@.subrange(0, node.children@.len() as int) =~= node.children@);
}

/// The parse status a tree supports: clean when it holds no error node.
pub open spec fn status_of_tree(t: Option<SyntaxNode>) -> ParseStatus {
    match t {
        Some(n) => if error_nodes(n) == 0 {
            ParseStatus::Parsed
        } else {
            ParseStatus::Failed { error_count: sat32(error_nodes(n) as int), first_error: first_error(n) }
        },
        None => ParseStatus::Failed { error_count: 0, first_error: None },
    }
}

fn status_exec(t: &Option<SyntaxNode>) -> (r: ParseStatus)
    ensures
        r == status_of_tree(*t),
{
    match t {
        Some(n) => {
            let mut count: u32 = 0;
            let mut first: Option<SourceSpan> = None;
            scan_errors(n, &mut count, &mut first);
            if count == 0 {
                ParseStatus::Parsed
            } else {
                ParseStatus::Failed { error_count: count, first_error: first }
            }
        },
        None => ParseStatus::Failed { error_count: 0, first_error: None },
    }
}

// ---------------------------------------------------------------------
// Parameters and signatures
// ---------------------------------------------------------------------

/// Some descendant of the node has the given kind.
pub open spec fn contains_kind(n: SyntaxNode, want: Seq<char>) -> bool
    decreases n,
{
    exists|i: int|
        0 <= i < n.children@.len() && (kind_of(#[trigger] n.children@[i]) == want || contains_kind(
            n.children@[i],
            want,
        ))
}

fn contains_splat(node: &SyntaxNode, want: &str) -> (r: bool)
    ensures
        r == contains_kind(*node, want@),
    decreases node,
{
    let mut i: usize = 0;
    while i < node.children.len()
        invariant
            i <= node.children@.len(),
            forall|j: int|
                0 <= j < i ==> !(kind_of(#[trigger] node.children@[j]) == want@ || contains_kind(
                    node.children@[j],
                    want@,
                )),
        decreases node.children.len() - i,
    {
        if kind_eq(&node.children[i], want) {
            return true;
        }
        if contains_splat(&node.children[i], want) {
            return true;
        }
        i = i + 1;
    }
    false
}

/// The kind a plain parameter takes from the markers seen before it.
pub open spec fn positional_kind(pos_only_open: bool, kw_only_open: bool) -> ParamKind {
    if kw_only_open {
        ParamKind::KeywordOnly
    } else if pos_only_open {
        ParamKind::PositionalOnly
    } else {
        ParamKind::Positional
    }
}

/// The parameter kind of a child of a parameter list, or nothing when the
/// child is not a parameter. Annotated splats (`**kw: T`) parse as typed
/// parameters; their text or their splat child decides the kind.
pub open spec fn param_kind(n: SyntaxNode, src: Seq<char>, pos_only_open: bool, kw_only_open: bool) -> Option<ParamKind> {
    let k = kind_of(n);
    if k == "identifier"@ || k == "default_parameter"@ || k == "typed_default_parameter"@ {
        Some(positional_kind(pos_only_open, kw_only_open))
    } else if k == "typed_parameter"@ {
        let t = text_or_empty(src, n);
        if starts_with(t, seq!['*', '*']) {
            Some(ParamKind::KwArgs)
        } else if starts_with(t, seq!['*']) {
            Some(ParamKind::VarArgs)
        } else if contains_kind(n, "dictionary_splat_pattern"@) {
            Some(ParamKind::KwArgs)
        } else if contains_kind(n, "list_splat_pattern"@) {
            Some(ParamKind::VarArgs)
        } else {
            Some(positional_kind(pos_only_open, kw_only_open))
        }
    } else if k == "list_splat_pattern"@ {
        Some(ParamKind::VarArgs)
    } else if k == "dictionary_splat_pattern"@ {
        Some(ParamKind::KwArgs)
    } else {
        None
    }
}

fn positional_kind_exec(pos_only_open: bool, kw_only_open: bool) -> (r: ParamKind)
    ensures
        r == positional_kind(pos_only_open, kw_only_open),
{
    if kw_only_open {
        ParamKind::KeywordOnly
    } else if pos_only_open {
        ParamKind::PositionalOnly
    } else {
        ParamKind::Positional
    }
}

fn param_kind_for(node: &SyntaxNode, source: &str, pos_only_open: bool, kw_only_open: bool) -> (r: Option<ParamKind>)
    ensures
        r == param_kind(*node, source@, pos_only_open, kw_only_open),
{
    if kind_eq(node, "identifier") || kind_eq(node, "default_parameter") || kind_eq(node, "typed_default_parameter") {
        Some(positional_kind_exec(pos_only_open, kw_only_open))
    } else if kind_eq(node, "typed_parameter") {
        let t = chars_of(read_text(source, node).as_str());
        let two = vec!['*', '*'];
        let one = vec!['*'];
        assert(two@ == seq!['*', '*']);
        assert(one@ == seq!['*']);
        if crate::text::chars_start_with(&t, two.as_slice()) {
            Some(ParamKind::KwArgs)
        } else if crate::text::chars_start_with(&t, one.as_slice()) {
            Some(ParamKind::VarArgs)
        } else if contains_splat(node, "dictionary_splat_pattern") {
            Some(ParamKind::KwArgs)
        } else if contains_splat(node, "list_splat_pattern") {
            Some(ParamKind::VarArgs)
        } else {
            Some(positional_kind_exec(pos_only_open, kw_only_open))
        }
    } else if kind_eq(node, "list_splat_pattern") {
        Some(ParamKind::VarArgs)
    } else if kind_eq(node, "dictionary_splat_pattern") {
        Some(ParamKind::KwArgs)
    } else {
        None
    }
}

/// A parameter's name: the node itself when it is an identifier, else its
/// first identifier child, descending into a splat pattern.
pub open spec fn param_name(n: SyntaxNode, src: Seq<char>) -> Seq<char>
    decreases n, 0nat,
{
    if kind_of(n) == "identifier"@ {
        text_or_empty(src, n)
    } else {
        param_name_in(n.children@, src)
    }
}

/// The name found among sibling nodes, scanning from the first.
pub open spec fn param_name_in(ns: Seq<SyntaxNode>, src: Seq<char>) -> Seq<char>
    decreases ns, ns.len(),
{
    if ns.len() == 0 {
        Seq::empty()
    } else {
        let c = ns[0];
        if kind_of(c) == "identifier"@ {
            text_or_empty(src, c)
        } else if kind_of(c) == "list_splat_pattern"@ || kind_of(c) == "dictionary_splat_pattern"@ {
            param_name(c, src)
        } else {
            param_name_in(ns.subrange(1, ns.len() as int), src)
        }
    }
}

fn extract_param_name(node: &SyntaxNode, source: &str) -> (r: String)
    ensures
        r@ == param_name(*node, source@),
    decreases node,
{
    if kind_eq(node, "identifier") {
        return read_text(source, node);
    }
    let ghost cs = node.children@;
    let mut i: usize = 0;
    assert(cs.subrange(0, cs.len() as int) =~= cs);
    while i < node.children.len()
        invariant
            i <= cs.len(),
            cs == node.children@,
            kind_of(*node) != "identifier"@,
            param_name(*node, source@) == param_name_in(cs.subrange(i as int, cs.len() as int), source@),
        decreases node.children.len() - i,
    {
        let ghost rest = cs.subrange(i as int, cs.len() as int);
        assert(rest[0] == cs[i as int]);
        assert(rest.subrange(1, rest.len() as int) =~= cs.subrange(i + 1, cs.len() as int));
        let child = &node.children[i];
        if kind_eq(child, "identifier") {
            return read_text(source, child);
        }
        if kind_eq(child, "list_splat_pattern") || kind_eq(child, "dictionary_splat_pattern") {
            return extract_param_name(child, source);
        }
        i = i + 1;
    }
    String::new()
}

/// The first position at or after `j` holding an `=` child, or the end.
pub open spec fn next_eq(ns: Seq<SyntaxNode>, j: int) -> int
    decreases ns.len() - j,
{
    if j < 0 || j >= ns.len() {
        j
    } else if kind_of(ns[j]) == "="@ {
        j
    } else {
        next_eq(ns, j + 1)
    }
}

pub proof fn lemma_next_eq(ns: Seq<SyntaxNode>, j: int)
    requires
        0 <= j <= ns.len(),
    ensures
        j <= next_eq(ns, j) <= ns.len(),
    decreases ns.len() - j,
{
    if j < ns.len() && kind_of(ns[j]) != "="@ {
        lemma_next_eq(ns, j + 1);
    }
}

/// The text from the start of child `a` to the end of child `b`, or the
/// empty text where that range cannot be read.
pub open spec fn span_text(src: Seq<char>, ns: Seq<SyntaxNode>, a: int, b: int) -> Seq<char> {
    match slice_text(src, ns[a].row.bytes.start as int, ns[b].row.bytes.end as int) {
        Some(t) => t,
        None => Seq::empty(),
    }
}

/// A default value: the normalized text of everything after the `=` at
/// position `i`.
pub open spec fn default_after(src: Seq<char>, ns: Seq<SyntaxNode>, i: int) -> Seq<char> {
    if i + 1 < ns.len() {
        normalized(span_text(src, ns, i + 1, ns.len() - 1))
    } else {
        Seq::empty()
    }
}

/// An annotation: the normalized text of the children strictly between the
/// `:` at `i` and the next `=` at `j`, when there are any.
pub open spec fn annotation_between(src: Seq<char>, ns: Seq<SyntaxNode>, i: int, j: int, ann: Option<Seq<char>>) -> Option<Seq<char>> {
    if j > i + 1 {
        Some(normalized(span_text(src, ns, i + 1, j - 1)))
    } else {
        ann
    }
}

/// Annotation and default of a splat parameter, scanning its children from
/// position `i`: a `:` starts an annotation that runs to the next `=`; an
/// `=` starts the default, which runs to the end.
pub open spec fn scan_splat(ns: Seq<SyntaxNode>, src: Seq<char>, i: int, ann: Option<Seq<char>>) -> (Option<Seq<char>>, Option<Seq<char>>)
    decreases ns.len() - i,
{
    if i < 0 || i >= ns.len() {
        (ann, None)
    } else if kind_of(ns[i]) == ":"@ {
        let j = next_eq(ns, i + 1);
        proof {
            lemma_next_eq(ns, i + 1);
        }
        scan_splat(ns, src, j, annotation_between(src, ns, i, j, ann))
    } else if kind_of(ns[i]) == "="@ {
        (ann, Some(default_after(src, ns, i)))
    } else {
        scan_splat(ns, src, i + 1, ann)
    }
}

/// Annotation and default of a typed or defaulted parameter: an `=` starts
/// the default; the first `:` starts an annotation that runs to the next
/// `=`.
pub open spec fn scan_plain(ns: Seq<SyntaxNode>, src: Seq<char>, i: int, ann: Option<Seq<char>>) -> (Option<Seq<char>>, Option<Seq<char>>)
    decreases ns.len() - i,
{
    if i < 0 || i >= ns.len() {
        (ann, None)
    } else if kind_of(ns[i]) == "="@ {
        (ann, Some(default_after(src, ns, i)))
    } else if kind_of(ns[i]) == ":"@ && ann is None {
        let j = next_eq(ns, i + 1);
        proof {
            lemma_next_eq(ns, i + 1);
        }
        scan_plain(ns, src, j, annotation_between(src, ns, i, j, ann))
    } else {
        scan_plain(ns, src, i + 1, ann)
    }
}

/// A parameter node split into name, annotation and default.
pub open spec fn decompose(n: SyntaxNode, src: Seq<char>, kind: ParamKind) -> (Seq<char>, Option<Seq<char>>, Option<Seq<char>>) {
    if kind == ParamKind::VarArgs || kind == ParamKind::KwArgs {
        let (a, d) = scan_splat(n.children@, src, 0, None);
        (param_name(n, src), a, d)
    } else if kind_of(n) == "identifier"@ {
        (text_or_empty(src, n), None, None)
    } else if kind_of(n) == "typed_parameter"@ || kind_of(n) == "typed_default_parameter"@ || kind_of(n) == "default_parameter"@ {
        let (a, d) = scan_plain(n.children@, src, 0, None);
        (param_name(n, src), a, d)
    } else {
        (Seq::empty(), None, None)
    }
}

fn next_eq_exec(children: &Vec<SyntaxNode>, j: usize) -> (r: usize)
    requires
        j <= children@.len(),
    ensures
        r == next_eq(children@, j as int),
        j <= r <= children@.len(),
{
    let mut k = j;
    proof {
        lemma_next_eq(children@, j as int);
    }
    while k < children.len() && !kind_eq(&children[k], "=")
        invariant
            j <= k <= children@.len(),
            next_eq(children@, j as int) == next_eq(children@, k as int),
        decreases children.len() - k,
    {
        k = k + 1;
    }
    k
}

fn text_between(source: &str, children: &Vec<SyntaxNode>, a: usize, b: usize) -> (r: String)
    requires
        a < children@.len(),
        b < children@.len(),
    ensures
        r@ == normalized(span_text(source@, children@, a as int, b as int)),
{
    let t = match slice_of(source, children[a].row.bytes.start, children[b].row.bytes.end) {
        Some(t) => t,
        None => String::new(),
    };
    normalize_ws(t.as_str())
}

fn default_exec(source: &str, children: &Vec<SyntaxNode>, i: usize) -> (r: String)
    requires
        i < children@.len(),
    ensures
        r@ == default_after(source@, children@, i as int),
{
    if i < children.len() - 1 {
        text_between(source, children, i + 1, children.len() - 1)
    } else {
        String::new()
    }
}

fn scan_splat_exec(children: &Vec<SyntaxNode>, source: &str) -> (r: (Option<String>, Option<String>))
    ensures
        (opt_view(r.0), opt_view(r.1)) == scan_splat(children@, source@, 0, None),
{
    let mut annotation: Option<String> = None;
    let mut i: usize = 0;
    while i < children.len()
        invariant
            i <= children@.len(),
            scan_splat(children@, source@, 0, None) == scan_splat(children@, source@, i as int, opt_view(annotation)),
        decreases children.len() - i,
    {
        if kind_eq(&children[i], ":") {
            let j = next_eq_exec(children, i + 1);
            if j > i + 1 {
                annotation = Some(text_between(source, children, i + 1, j - 1));
            }
            i = j;
            continue;
        }
        if kind_eq(&children[i], "=") {
            return (annotation, Some(default_exec(source, children, i)));
        }
        i = i + 1;
    }
    (annotation, None)
}

fn scan_plain_exec(children: &Vec<SyntaxNode>, source: &str) -> (r: (Option<String>, Option<String>))
    ensures
        (opt_view(r.0), opt_view(r.1)) == scan_plain(children@, source@, 0, None),
{
    let mut annotation: Option<String> = None;
    let mut i: usize = 0;
    while i < children.len()
        invariant
            i <= children@.len(),
            scan_plain(children@, source@, 0, None) == scan_plain(children@, source@, i as int, opt_view(annotation)),
        decreases children.len() - i,
    {
        if kind_eq(&children[i], "=") {
            return (annotation, Some(default_exec(source, children, i)));
        }
        if kind_eq(&children[i], ":") && annotation.is_none() {
            let j = next_eq_exec(children, i + 1);
            if j > i + 1 {
                annotation = Some(text_between(source, children, i + 1, j - 1));
            }
            i = j;
            continue;
        }
        i = i + 1;
    }
    (annotation, None)
}

fn decompose_param(node: &SyntaxNode, source: &str, kind: ParamKind) -> (r: (String, Option<String>, Option<String>))
    ensures
        (r.0@, opt_view(r.1), opt_view(r.2)) == decompose(*node, source@, kind),
{
    match kind {
        ParamKind::VarArgs | ParamKind::KwArgs => {
            let name = extract_param_name(node, source);
            let (a, d) = scan_splat_exec(&node.children, source);
            (name, a, d)
        },
        _ => {
            if kind_eq(node, "identifier") {
                (read_text(source, node), None, None)
            } else if kind_eq(node, "typed_parameter") || kind_eq(node, "typed_default_parameter") || kind_eq(node, "default_parameter") {
                let name = extract_param_name(node, source);
                let (a, d) = scan_plain_exec(&node.children, source);
                (name, a, d)
            } else {
                (String::new(), None, None)
            }
        },
    }
}

/// What a normalized signature records.
pub struct SigModel {
    /// Declared `async def`.
    pub is_async: bool,
    /// The parameters, in order.
    pub params: Seq<ParamModel>,
    /// The return annotation, if any.
    pub ret: Option<Seq<char>>,
}

/// The model of a signature.
pub open spec fn sig_view(s: Signature) -> SigModel {
    SigModel { is_async: s.is_async, params: s.params@.map_values(|p: Param| p@), ret: opt_text(s.ret) }
}

/// The model of an optional signature.
pub open spec fn opt_sig_view(s: Option<Signature>) -> Option<SigModel> {
    match s {
        Some(x) => Some(sig_view(x)),
        None => None,
    }
}

/// The parameter-list state after some children: a `/` seen, a `*` seen,
/// the parameters so far. Children that are not parameters, or whose name
/// is empty, contribute nothing.
pub open spec fn params_state(cs: Seq<SyntaxNode>, src: Seq<char>) -> (bool, bool, Seq<ParamModel>)
    decreases cs.len(),
{
    if cs.len() == 0 {
        (false, false, Seq::empty())
    } else {
        let (pos, kw, ps) = params_state(cs.drop_last(), src);
        let c = cs.last();
        let k = kind_of(c);
        if k == "positional_separator"@ {
            (true, kw, ps)
        } else if k == "keyword_separator"@ {
            (pos, true, ps)
        } else if k == "comment"@ {
            (pos, kw, ps)
        } else {
            match param_kind(c, src, pos, kw) {
                None => (pos, kw, ps),
                Some(pk) => {
                    let (name, ann, def) = decompose(c, src, pk);
                    if name.len() == 0 {
                        (pos, kw, ps)
                    } else {
                        (pos, kw, ps.push(ParamModel { name, kind: pk, annotation: ann, default: def }))
                    }
                },
            }
        }
    }
}

/// The normalized signature of a function definition node: its async
/// marker, its parameter list, its whitespace-normalized return
/// annotation; nothing when it has no parameter list.
pub open spec fn function_signature(n: SyntaxNode, src: Seq<char>) -> Option<SigModel> {
    match field_index(n.children@, "parameters"@) {
        None => None,
        Some(pi) => Some(SigModel {
            is_async: has_kind_child(n.children@, "async"@),
            params: params_state(n.children@[pi].children@, src).2,
            ret: match field_index(n.children@, "return_type"@) {
                Some(ri) => Some(normalized(text_or_empty(src, n.children@[ri]))),
                None => None,
            },
        }),
    }
}

fn signature_of_function(node: &SyntaxNode, source: &str) -> (r: Option<Signature>)
    ensures
        opt_sig_view(r) == function_signature(*node, source@),
{
    let is_async = any_child_kind(&node.children, "async");
    let pi = match find_field(&node.children, "parameters") {
        Some(pi) => pi,
        None => {
            return None;
        },
    };
    let params_node = &node.children[pi];
    let ghost cs = params_node.children@;
    let mut params: Vec<Param> = Vec::new();
    let mut pos_only = false;
    let mut kw_only = false;
    let mut i: usize = 0;
    while i < params_node.children.len()
        invariant
            i <= cs.len(),
            cs == params_node.children@,
            (pos_only, kw_only, params@.map_values(|p: Param| p@)) == params_state(cs.subrange(0, i as int), source@),
        decreases params_node.children.len() - i,
    {
        let ghost pre = cs.subrange(0, i as int);
        proof {
            let nxt = cs.subrange(0, i + 1);
            assert(nxt.drop_last() =~= pre);
            assert(nxt.last() == cs[i as int]);
        }
        let child = &params_node.children[i];
        if kind_eq(child, "positional_separator") {
            pos_only = true;
        } else if kind_eq(child, "keyword_separator") {
            kw_only = true;
        } else if kind_eq(child, "comment") {
        } else {
            match param_kind_for(child, source, pos_only, kw_only) {
                None => {},
                Some(kind) => {
                    let (name, annotation, default) = decompose_param(child, source, kind);
                    if !name.as_str().is_empty() {
                        let ghost before = params@.map_values(|p: Param| p@);
                        let p = Param { name, kind, annotation, default };
                        params.push(p);
                        proof {
                            assert(params@.map_values(|p: Param| p@) =~= before.push(p@));
                        }
                    } else {
                        proof {
                            assert(name@.len() == 0);
                        }
                    }
                },
            }
        }
        i = i + 1;
    }
    assert(cs.subrange(0, cs.len() as int) =~= cs);
    let ret = match find_field(&node.children, "return_type") {
        Some(ri) => Some(normalize_ws(read_text(source, &node.children[ri]).as_str())),
        None => None,
    };
    Some(Signature { is_async, params, ret })
}

// ---------------------------------------------------------------------
// Definitions
// ---------------------------------------------------------------------

/// A definition as the index records it.
pub struct DefModel {
    /// Canonical symbol path.
    pub symbol: Seq<char>,
    /// Declaration kind.
    pub kind: DefKind,
    /// Source span of the declaration.
    pub span: SourceSpan,
    /// Normalized signature, for functions.
    pub sig: Option<SigModel>,
}

/// The model of an extracted definition.
pub open spec fn def_view(d: (Definition, Option<Signature>)) -> DefModel {
    DefModel { symbol: d.0.symbol@, kind: d.0.kind, span: d.0.span, sig: opt_sig_view(d.1) }
}

/// The models of extracted definitions.
pub open spec fn defs_view(v: Seq<(Definition, Option<Signature>)>) -> Seq<DefModel> {
    v.map_values(|d: (Definition, Option<Signature>)| def_view(d))
}

/// The optional path of an enclosing symbol.
pub open spec fn scope_view(o: Option<SymbolPath>) -> Option<Seq<char>> {
    match o {
        Some(p) => Some(p@),
        None => None,
    }
}

/// The kind of a function definition by where it stands.
pub open spec fn function_kind(in_class: bool, is_async: bool) -> DefKind {
    if in_class {
        if is_async { DefKind::AsyncMethod } else { DefKind::Method }
    } else {
        if is_async { DefKind::AsyncFunction } else { DefKind::Function }
    }
}

/// The canonical path of a name declared in a scope: the enclosing
/// symbol's path (or the module's name), a dot, the name; nothing when
/// that path has an empty part.
pub open spec fn declared_path(scope: Option<Seq<char>>, module: Seq<char>, name: Seq<char>) -> Option<Seq<char>> {
    let base = match scope {
        Some(p) => p,
        None => module,
    };
    let t = base + "."@ + name;
    if has_empty_part(t) {
        None
    } else {
        Some(t)
    }
}

/// Statement kinds whose children may hold definitions.
pub open spec fn is_container(k: Seq<char>) -> bool {
    ||| k == "module"@
    ||| k == "block"@
    ||| k == "decorated_definition"@
    ||| k == "if_statement"@
    ||| k == "elif_clause"@
    ||| k == "else_clause"@
    ||| k == "for_statement"@
    ||| k == "while_statement"@
    ||| k == "try_statement"@
    ||| k == "except_clause"@
    ||| k == "finally_clause"@
    ||| k == "with_statement"@
    ||| k == "match_statement"@
    ||| k == "case_clause"@
}

/// The definitions a node declares, in preorder: a function or class
/// definition yields itself and then what its body declares (a class body
/// declares methods; a function body nested functions); a container
/// statement yields what its children declare; anything else nothing.
pub open spec fn defs_of(n: SyntaxNode, src: Seq<char>, module: Seq<char>, scope: Option<Seq<char>>, in_class: bool) -> Seq<DefModel>
    decreases n, 0nat,
{
    let k = kind_of(n);
    if k == "function_definition"@ || k == "class_definition"@ {
        match field_index(n.children@, "name"@) {
            None => Seq::empty(),
            Some(ni) => {
                proof {
                    lemma_field_index_range(n.children@, "name"@);
                }
                match declared_path(scope, module, text_or_empty(src, n.children@[ni])) {
                    None => Seq::empty(),
                    Some(sym) => {
                        let is_fn = k == "function_definition"@;
                        let d = DefModel {
                            symbol: sym,
                            kind: if is_fn {
                                function_kind(in_class, has_kind_child(n.children@, "async"@))
                            } else {
                                DefKind::Class
                            },
                            span: span_of(n.row),
                            sig: if is_fn { function_signature(n, src) } else { None },
                        };
                        seq![d] + match field_index(n.children@, "body"@) {
                            Some(bi) => {
                                proof {
                                    lemma_field_index_range(n.children@, "body"@);
                                }
                                defs_of(n.children@[bi], src, module, Some(sym), !is_fn)
                            },
                            None => Seq::empty(),
                        }
                    },
                }
            },
        }
    } else if is_container(k) {
        defs_of_all(n.children@, src, module, scope, in_class)
    } else {
        Seq::empty()
    }
}

/// The definitions sibling nodes declare, in order.
pub open spec fn defs_of_all(ns: Seq<SyntaxNode>, src: Seq<char>, module: Seq<char>, scope: Option<Seq<char>>, in_class: bool) -> Seq<DefModel>
    decreases ns, ns.len(),
{
    if ns.len() == 0 {
        Seq::empty()
    } else {
        defs_of_all(ns.drop_last(), src, module, scope, in_class) + defs_of(ns.last(), src, module, scope, in_class)
    }
}

fn is_container_exec(n: &SyntaxNode) -> (r: bool)
    ensures
        r == is_container(kind_of(*n)),
{
    kind_eq(n, "module") || kind_eq(n, "block") || kind_eq(n, "decorated_definition") || kind_eq(n, "if_statement")
        || kind_eq(n, "elif_clause") || kind_eq(n, "else_clause") || kind_eq(n, "for_statement") || kind_eq(
        n,
        "while_statement",
    ) || kind_eq(n, "try_statement") || kind_eq(n, "except_clause") || kind_eq(n, "finally_clause") || kind_eq(
        n,
        "with_statement",
    ) || kind_eq(n, "match_statement") || kind_eq(n, "case_clause")
}

fn declare(scope: &Option<SymbolPath>, module: &ModuleId, name: &str) -> (r: Option<SymbolPath>)
    ensures
        scope_view(r) == declared_path(scope_view(*scope), module@, name@),
{
    match scope {
        Some(parent) => parent.child(name),
        None => {
            let mut t = String::new();
            crate::text::push_str(&mut t, module.name());
            crate::text::push_str(&mut t, ".");
            crate::text::push_str(&mut t, name);
            assert(t@ =~= module@ + "."@ + name@);
            SymbolPath::new(t.as_str())
        },
    }
}

/// Appends the definitions a node declares.
fn walk_defs(
    node: &SyntaxNode,
    source: &str,
    module: &ModuleId,
    scope: &Option<SymbolPath>,
    in_class: bool,
    out: &mut Vec<(Definition, Option<Signature>)>,
)
    ensures
        defs_view(final(out)@) == defs_view(old(out)@) + defs_of(*node, source@, module@, scope_view(*scope), in_class),
    decreases node,
{
    let ghost sv = scope_view(*scope);
    let is_fn = kind_eq(node, "function_definition");
    if is_fn || kind_eq(node, "class_definition") {
        let ni = match find_field(&node.children, "name") {
            Some(ni) => ni,
            None => {
                assert(defs_view(out@) =~= defs_view(old(out)@) + Seq::<DefModel>::empty());
                return;
            },
        };
        let name = read_text(source, &node.children[ni]);
        let sym = match declare(scope, module, name.as_str()) {
            Some(sym) => sym,
            None => {
                assert(defs_view(out@) =~= defs_view(old(out)@) + Seq::<DefModel>::empty());
                return;
            },
        };
        let kind = if is_fn {
            let is_async = any_child_kind(&node.children, "async");
            if in_class {
                if is_async { DefKind::AsyncMethod } else { DefKind::Method }
            } else {
                if is_async { DefKind::AsyncFunction } else { DefKind::Function }
            }
        } else {
            DefKind::Class
        };
        let sig = if is_fn { signature_of_function(node, source) } else { None };
        let ghost before = defs_view(out@);
        let entry = (Definition { symbol: sym.clone(), kind, span: span_exec(&node.row) }, sig);
        out.push(entry);
        proof {
            assert(defs_view(out@) =~= before.push(def_view(entry)));
        }
        let ghost mid = defs_view(out@);
        match find_field(&node.children, "body") {
            Some(bi) => {
                let inner = Some(sym);
                walk_defs(&node.children[bi], source, module, &inner, !is_fn, out);
            },
            None => {},
        }
        proof {
            assert(defs_view(out@) =~= defs_view(old(out)@) + defs_of(*node, source@, module@, sv, in_class));
        }
    } else if is_container_exec(node) {
        let ghost base = defs_view(out@);
        let mut i: usize = 0;
        while i < node.children.len()
            invariant
                i <= node.children@.len(),
                base == defs_view(old(out)@),
                defs_view(out@) == base + defs_of_all(node.children@.subrange(0, i as int), source@, module@, scope_view(*scope), in_class),
            decreases node.children.len() - i,
        {
            let ghost pre = defs_view(out@);
            walk_defs(&node.children[i], source, module, scope, in_class, out);
            proof {
                let nxt = node.children@.subrange(0, i + 1);
                assert(nxt.drop_last() =~= node.children@.subrange(0, i as int));
                assert(nxt.last() == node.children@[i as int]);
            }
            i = i + 1;
        }
        assert(node.children@.subrange(0, node.children@.len() as int) =~= node.children@);
    } else {
        assert(defs_view(out@) =~= defs_view(old(out)@) + Seq::<DefModel>::empty());
    }
}

// ---------------------------------------------------------------------
// Imports
// ---------------------------------------------------------------------

/// An import as the index records it.
pub struct ImportModel {
    /// The imported module or symbol path as written.
    pub target: Seq<char>,
    /// The local binding name.
    pub binding: Seq<char>,
    /// A `from X import y` statement.
    pub from_import: bool,
    /// 1-based line of the statement.
    pub line: u32,
}

/// The model of an import.
pub open spec fn import_view(i: Import) -> ImportModel {
    ImportModel { target: i.target@, binding: i.binding@, from_import: i.from_import, line: i.line }
}

/// The models of imports.
pub open spec fn imports_view(v: Seq<Import>) -> Seq<ImportModel> {
    v.map_values(|i: Import| import_view(i))
}

/// The 1-based line of a 0-based row, in 32 bits.
pub open spec fn line_of(row: usize) -> u32 {
    ((row as int + 1) % 0x1_0000_0000) as u32
}

fn line_exec(row: usize) -> (r: u32)
    ensures
        r == line_of(row),
{
    let low = ((row as u64) % 0x1_0000_0000u64) as u32;
    if low == u32::MAX {
        0
    } else {
        low + 1
    }
}

/// The text before the first `.` (all of it when there is none).
pub open spec fn first_component(s: Seq<char>) -> Seq<char>
    decreases s.len(),
{
    if s.len() == 0 {
        s
    } else if s[0] == '.' {
        Seq::empty()
    } else {
        seq![s[0]] + first_component(s.drop_first())
    }
}

/// The text after the last `.` (all of it when there is none).
pub open spec fn last_component(s: Seq<char>) -> Seq<char>
    decreases s.len(),
{
    if s.len() == 0 {
        s
    } else if s.last() == '.' {
        Seq::empty()
    } else {
        last_component(s.drop_last()).push(s.last())
    }
}

fn first_component_exec(s: &str) -> (r: String)
    ensures
        r@ == first_component(s@),
{
    let cs = chars_of(s);
    let mut i: usize = 0;
    assert(cs@.subrange(0, 0) =~= Seq::<char>::empty());
    assert(cs@.subrange(0, cs@.len() as int) =~= cs@);
    while i < cs.len() && cs[i] != '.'
        invariant
            i <= cs@.len(),
            cs@ == s@,
            first_component(s@) == cs@.subrange(0, i as int) + first_component(cs@.subrange(i as int, cs@.len() as int)),
        decreases cs.len() - i,
    {
        proof {
            let rest = cs@.subrange(i as int, cs@.len() as int);
            assert(rest.drop_first() =~= cs@.subrange(i + 1, cs@.len() as int));
            assert(cs@.subrange(0, i + 1) =~= cs@.subrange(0, i as int) + seq![rest[0]]);
        }
        i = i + 1;
    }
    proof {
        let rest = cs@.subrange(i as int, cs@.len() as int);
        assert(first_component(rest) =~= Seq::<char>::empty());
    }
    string_of_chars(&cs.as_slice()[0..i])
}

fn last_component_exec(s: &str) -> (r: String)
    ensures
        r@ == last_component(s@),
{
    let cs = chars_of(s);
    let mut i: usize = cs.len();
    assert(cs@.subrange(cs@.len() as int, cs@.len() as int) =~= Seq::<char>::empty());
    assert(cs@.subrange(0, cs@.len() as int) =~= cs@);
    while i > 0 && cs[i - 1] != '.'
        invariant
            i <= cs@.len(),
            cs@ == s@,
            last_component(s@) == last_component(cs@.subrange(0, i as int)) + cs@.subrange(i as int, cs@.len() as int),
        decreases i,
    {
        proof {
            let pre = cs@.subrange(0, i as int);
            assert(pre.drop_last() =~= cs@.subrange(0, i - 1));
            assert(cs@.subrange(i - 1, cs@.len() as int) =~= seq![pre.last()] + cs@.subrange(i as int, cs@.len() as int));
        }
        i = i - 1;
    }
    proof {
        assert(last_component(cs@.subrange(0, i as int)) =~= Seq::<char>::empty());
    }
    string_of_chars(&cs.as_slice()[i..cs.len()])
}

/// `import m`/`import m as a`: the target is the first dotted name (taken
/// while the target is still empty); the alias is the last identifier.
pub open spec fn aliased_parts(ps: Seq<SyntaxNode>, src: Seq<char>) -> (Seq<char>, Option<Seq<char>>)
    decreases ps.len(),
{
    if ps.len() == 0 {
        (Seq::empty(), None)
    } else {
        let (t, a) = aliased_parts(ps.drop_last(), src);
        let p = ps.last();
        if kind_of(p) == "dotted_name"@ && t.len() == 0 {
            (text_or_empty(src, p), a)
        } else if kind_of(p) == "identifier"@ {
            (t, Some(text_or_empty(src, p)))
        } else {
            (t, a)
        }
    }
}

/// `from m import n as a`: the name is the first dotted name; the alias is
/// the last identifier.
pub open spec fn from_aliased_parts(ps: Seq<SyntaxNode>, src: Seq<char>) -> (Option<Seq<char>>, Option<Seq<char>>)
    decreases ps.len(),
{
    if ps.len() == 0 {
        (None, None)
    } else {
        let (n, a) = from_aliased_parts(ps.drop_last(), src);
        let p = ps.last();
        if kind_of(p) == "dotted_name"@ && n is None {
            (Some(text_or_empty(src, p)), a)
        } else if kind_of(p) == "identifier"@ {
            (n, Some(text_or_empty(src, p)))
        } else {
            (n, a)
        }
    }
}

/// The imports one clause of an `import` statement yields.
pub open spec fn import_clause(c: SyntaxNode, src: Seq<char>, line: u32) -> Seq<ImportModel> {
    let k = kind_of(c);
    if k == "dotted_name"@ {
        let m = text_or_empty(src, c);
        seq![ImportModel { target: m, binding: first_component(m), from_import: false, line }]
    } else if k == "aliased_import"@ {
        let (t, a) = aliased_parts(c.children@, src);
        seq![ImportModel {
            target: t,
            binding: match a {
                Some(x) => x,
                None => first_component(t),
            },
            from_import: false,
            line,
        }]
    } else {
        Seq::empty()
    }
}

proof fn lemma_first_component_facts(s: Seq<char>)
    ensures
        first_component(s).len() <= s.len(),
        first_component(s) == s.subrange(0, first_component(s).len() as int),
        !first_component(s).contains('.'),
        first_component(s).len() < s.len() ==> s[first_component(s).len() as int] == '.',
    decreases s.len(),
{
    if s.len() > 0 && s[0] != '.' {
        let t = s.drop_first();
        lemma_first_component_facts(t);
        let f = first_component(t);
        assert(first_component(s) == seq![s[0]] + f);
        assert(first_component(s) =~= s.subrange(0, f.len() as int + 1)) by {
            assert forall|k: int| 0 <= k < f.len() + 1 implies #[trigger] first_component(s)[k] == s[k] by {
                if k > 0 {
                    assert(f[k - 1] == t[k - 1]);
                }
            }
        }
        if first_component(s).contains('.') {
            let k = choose|k: int| 0 <= k < first_component(s).len() && first_component(s)[k] == '.';
            assert(k > 0);
            assert(f[k - 1] == '.');
        }
    } else if s.len() > 0 {
        assert(first_component(s) =~= s.subrange(0, 0));
    } else {
        assert(first_component(s) =~= s.subrange(0, 0));
    }
}

/// A plain `import a.b.c` clause binds the top-level package: it yields
/// one import of the dotted name, whose binding is the name's text before
/// its first `.` (the whole name when it has none).
pub proof fn lemma_plain_import_binds_top_package(c: SyntaxNode, src: Seq<char>, line: u32)
    requires
        kind_of(c) == "dotted_name"@,
    ensures
        ({
            let r = import_clause(c, src, line);
            let m = text_or_empty(src, c);
            let b = r[0].binding;
            &&& r.len() == 1
            &&& r[0].target == m
            &&& !r[0].from_import
            &&& r[0].line == line
            &&& b.len() <= m.len()
            &&& b == m.subrange(0, b.len() as int)
            &&& !b.contains('.')
            &&& (b.len() < m.len() ==> m[b.len() as int] == '.')
        }),
{
    lemma_first_component_facts(text_or_empty(src, c));
}

/// The imports the clauses of an `import` statement yield.
pub open spec fn import_clauses(cs: Seq<SyntaxNode>, src: Seq<char>, line: u32) -> Seq<ImportModel>
    decreases cs.len(),
{
    if cs.len() == 0 {
        Seq::empty()
    } else {
        import_clauses(cs.drop_last(), src, line) + import_clause(cs.last(), src, line)
    }
}

/// The imports one clause of a `from` statement yields.
pub open spec fn from_clause(c: SyntaxNode, src: Seq<char>, module: Seq<char>, line: u32) -> Seq<ImportModel> {
    let k = kind_of(c);
    if k == "identifier"@ || k == "dotted_name"@ {
        let name = text_or_empty(src, c);
        seq![ImportModel { target: module + "."@ + name, binding: last_component(name), from_import: true, line }]
    } else if k == "aliased_import"@ {
        let (n, a) = from_aliased_parts(c.children@, src);
        seq![ImportModel {
            target: module + "."@ + match n {
                Some(x) => x,
                None => Seq::empty(),
            },
            binding: match a {
                Some(x) => x,
                None => match n {
                    Some(x) => x,
                    None => "*"@,
                },
            },
            from_import: true,
            line,
        }]
    } else if k == "wildcard_import"@ {
        seq![ImportModel { target: module + ".*"@, binding: "*"@, from_import: true, line }]
    } else {
        Seq::empty()
    }
}

/// The imports the clauses of a `from` statement yield; the module-name
/// clause (at `mi`) imports nothing.
pub open spec fn from_clauses(cs: Seq<SyntaxNode>, src: Seq<char>, module: Seq<char>, mi: Option<int>, line: u32) -> Seq<ImportModel>
    decreases cs.len(),
{
    if cs.len() == 0 {
        Seq::empty()
    } else {
        from_clauses(cs.drop_last(), src, module, mi, line) + if mi == Some(cs.len() - 1) {
            Seq::empty()
        } else {
            from_clause(cs.last(), src, module, line)
        }
    }
}

/// The imports found under a node: each child that is an import statement
/// yields its imports; any other child is searched through its own
/// children.
pub open spec fn imports_in(n: SyntaxNode, src: Seq<char>) -> Seq<ImportModel>
    decreases n,
{
    imports_children(n.children@, src)
}

/// The imports sibling nodes yield, in order.
pub open spec fn imports_children(ns: Seq<SyntaxNode>, src: Seq<char>) -> Seq<ImportModel>
    decreases ns,
{
    if ns.len() == 0 {
        Seq::empty()
    } else {
        imports_children(ns.drop_last(), src) + import_item(ns.last(), src)
    }
}

/// The imports one child yields.
pub open spec fn import_item(c: SyntaxNode, src: Seq<char>) -> Seq<ImportModel>
    decreases c,
{
    let k = kind_of(c);
    let line = line_of(c.row.start.0);
    if k == "import_statement"@ {
        import_clauses(c.children@, src, line)
    } else if k == "import_from_statement"@ {
        let mi = field_index(c.children@, "module_name"@);
        let module = match mi {
            Some(i) => if 0 <= i < c.children@.len() { text_or_empty(src, c.children@[i]) } else { Seq::empty() },
            None => Seq::empty(),
        };
        from_clauses(c.children@, src, module, mi, line)
    } else {
        imports_grand(c.children@, src)
    }
}

/// The imports found under each of some nodes, in order.
pub open spec fn imports_grand(gs: Seq<SyntaxNode>, src: Seq<char>) -> Seq<ImportModel>
    decreases gs,
{
    if gs.len() == 0 {
        Seq::empty()
    } else {
        imports_grand(gs.drop_last(), src) + imports_in(gs.last(), src)
    }
}

fn aliased_exec(parts: &Vec<SyntaxNode>, source: &str) -> (r: (String, Option<String>))
    ensures
        (r.0@, opt_view(r.1)) == aliased_parts(parts@, source@),
{
    let mut target = String::new();
    let mut alias: Option<String> = None;
    let mut i: usize = 0;
    while i < parts.len()
        invariant
            i <= parts@.len(),
            (target@, opt_view(alias)) == aliased_parts(parts@.subrange(0, i as int), source@),
        decreases parts.len() - i,
    {
        proof {
            let nxt = parts@.subrange(0, i + 1);
            assert(nxt.drop_last() =~= parts@.subrange(0, i as int));
            assert(nxt.last() == parts@[i as int]);
        }
        if kind_eq(&parts[i], "dotted_name") && target.as_str().is_empty() {
            target = read_text(source, &parts[i]);
        } else if kind_eq(&parts[i], "identifier") {
            alias = Some(read_text(source, &parts[i]));
        }
        i = i + 1;
    }
    assert(parts@.subrange(0, parts@.len() as int) =~= parts@);
    (target, alias)
}

fn from_aliased_exec(parts: &Vec<SyntaxNode>, source: &str) -> (r: (Option<String>, Option<String>))
    ensures
        (opt_view(r.0), opt_view(r.1)) == from_aliased_parts(parts@, source@),
{
    let mut name: Option<String> = None;
    let mut alias: Option<String> = None;
    let mut i: usize = 0;
    while i < parts.len()
        invariant
            i <= parts@.len(),
            (opt_view(name), opt_view(alias)) == from_aliased_parts(parts@.subrange(0, i as int), source@),
        decreases parts.len() - i,
    {
        proof {
            let nxt = parts@.subrange(0, i + 1);
            assert(nxt.drop_last() =~= parts@.subrange(0, i as int));
            assert(nxt.last() == parts@[i as int]);
        }
        if kind_eq(&parts[i], "dotted_name") && name.is_none() {
            name = Some(read_text(source, &parts[i]));
        } else if kind_eq(&parts[i], "identifier") {
            alias = Some(read_text(source, &parts[i]));
        }
        i = i + 1;
    }
    assert(parts@.subrange(0, parts@.len() as int) =~= parts@);
    (name, alias)
}

fn joined_dot(module: &str, name: &str) -> (r: String)
    ensures
        r@ == module@ + "."@ + name@,
{
    let mut t = String::new();
    crate::text::push_str(&mut t, module);
    crate::text::push_str(&mut t, ".");
    crate::text::push_str(&mut t, name);
    assert(t@ =~= module@ + "."@ + name@);
    t
}

fn push_import(out: &mut Vec<Import>, imp: Import)
    ensures
        imports_view(final(out)@) == imports_view(old(out)@).push(import_view(imp)),
{
    out.push(imp);
    assert(imports_view(out@) =~= imports_view(old(out)@).push(import_view(imp)));
}

fn import_statement_clauses(stmt: &SyntaxNode, source: &str, line: u32, out: &mut Vec<Import>)
    ensures
        imports_view(final(out)@) == imports_view(old(out)@) + import_clauses(stmt.children@, source@, line),
{
    let ghost base = imports_view(out@);
    let mut i: usize = 0;
    while i < stmt.children.len()
        invariant
            i <= stmt.children@.len(),
            base == imports_view(old(out)@),
            imports_view(out@) == base + import_clauses(stmt.children@.subrange(0, i as int), source@, line),
        decreases stmt.children.len() - i,
    {
        let ghost pre = imports_view(out@);
        let clause = &stmt.children[i];
        proof {
            let nxt = stmt.children@.subrange(0, i + 1);
            assert(nxt.drop_last() =~= stmt.children@.subrange(0, i as int));
            assert(nxt.last() == *clause);
        }
        if kind_eq(clause, "dotted_name") {
            let target = read_text(source, clause);
            let binding = first_component_exec(target.as_str());
            push_import(out, Import { target, binding, from_import: false, line });
        } else if kind_eq(clause, "aliased_import") {
            let (target, alias) = aliased_exec(&clause.children, source);
            let binding = match alias {
                Some(a) => a,
                None => first_component_exec(target.as_str()),
            };
            push_import(out, Import { target, binding, from_import: false, line });
        } else {
            assert(imports_view(out@) =~= pre + Seq::<ImportModel>::empty());
        }
        i = i + 1;
    }
    assert(stmt.children@.subrange(0, stmt.children@.len() as int) =~= stmt.children@);
}

fn from_statement_clauses(stmt: &SyntaxNode, source: &str, line: u32, out: &mut Vec<Import>)
    ensures
        imports_view(final(out)@) == imports_view(old(out)@) + ({
            let mi = field_index(stmt.children@, "module_name"@);
            let module = match mi {
                Some(i) => if 0 <= i < stmt.children@.len() { text_or_empty(source@, stmt.children@[i]) } else { Seq::empty() },
                None => Seq::empty(),
            };
            from_clauses(stmt.children@, source@, module, mi, line)
        }),
{
    let mi = find_field(&stmt.children, "module_name");
    let module = match mi {
        Some(i) => read_text(source, &stmt.children[i]),
        None => String::new(),
    };
    let ghost gmi: Option<int> = match mi {
        Some(i) => Some(i as int),
        None => None,
    };
    let ghost base = imports_view(out@);
    let mut i: usize = 0;
    while i < stmt.children.len()
        invariant
            i <= stmt.children@.len(),
            base == imports_view(old(out)@),
            gmi == field_index(stmt.children@, "module_name"@),
            gmi == match mi {
                Some(k) => Some(k as int),
                None => None::<int>,
            },
            imports_view(out@) == base + from_clauses(stmt.children@.subrange(0, i as int), source@, module@, gmi, line),
        decreases stmt.children.len() - i,
    {
        let ghost pre = imports_view(out@);
        let clause = &stmt.children[i];
        proof {
            let nxt = stmt.children@.subrange(0, i + 1);
            assert(nxt.drop_last() =~= stmt.children@.subrange(0, i as int));
            assert(nxt.last() == *clause);
        }
        let skip = match mi {
            Some(k) => k == i,
            None => false,
        };
        if skip {
            assert(imports_view(out@) =~= pre + Seq::<ImportModel>::empty());
        } else if kind_eq(clause, "identifier") || kind_eq(clause, "dotted_name") {
            let name = read_text(source, clause);
            let target = joined_dot(module.as_str(), name.as_str());
            let binding = last_component_exec(name.as_str());
            push_import(out, Import { target, binding, from_import: true, line });
        } else if kind_eq(clause, "aliased_import") {
            let (name, alias) = from_aliased_exec(&clause.children, source);
            let target = match &name {
                Some(n) => joined_dot(module.as_str(), n.as_str()),
                None => joined_dot(module.as_str(), ""),
            };
            proof {
                reveal_strlit("");
                assert(""@ =~= Seq::<char>::empty());
            }
            let binding = match alias {
                Some(a) => a,
                None => match name {
                    Some(n) => n,
                    None => crate::text::owned("*"),
                },
            };
            push_import(out, Import { target, binding, from_import: true, line });
        } else if kind_eq(clause, "wildcard_import") {
            let mut target = String::new();
            crate::text::push_str(&mut target, module.as_str());
            crate::text::push_str(&mut target, ".*");
            push_import(out, Import { target, binding: crate::text::owned("*"), from_import: true, line });
        } else {
            assert(imports_view(out@) =~= pre + Seq::<ImportModel>::empty());
        }
        i = i + 1;
    }
    proof {
        assert(stmt.children@.subrange(0, stmt.children@.len() as int) =~= stmt.children@);
        lemma_field_index_range(stmt.children@, "module_name"@);
    }
}

/// Appends the imports found under a node, in source order.
fn collect_imports(node: &SyntaxNode, source: &str, out: &mut Vec<Import>)
    ensures
        imports_view(final(out)@) == imports_view(old(out)@) + imports_in(*node, source@),
    decreases node,
{
    let ghost base = imports_view(out@);
    let mut i: usize = 0;
    while i < node.children.len()
        invariant
            i <= node.children@.len(),
            base == imports_view(old(out)@),
            imports_view(out@) == base + imports_children(node.children@.subrange(0, i as int), source@),
        decreases node.children.len() - i,
    {
        let child = &node.children[i];
        let ghost pre = imports_view(out@);
        proof {
            let nxt = node.children@.subrange(0, i + 1);
            assert(nxt.drop_last() =~= node.children@.subrange(0, i as int));
            assert(nxt.last() == *child);
        }
        if kind_eq(child, "import_statement") {
            let line = line_exec(child.row.start.0);
            import_statement_clauses(child, source, line, out);
            assert(import_item(*child, source@) == import_clauses(child.children@, source@, line));
        } else if kind_eq(child, "import_from_statement") {
            let line = line_exec(child.row.start.0);
            from_statement_clauses(child, source, line, out);
            assert(import_item(*child, source@) == ({
                let mi = field_index(child.children@, "module_name"@);
                let module = match mi {
                    Some(k) => if 0 <= k < child.children@.len() { text_or_empty(source@, child.children@[k]) } else { Seq::empty() },
                    None => Seq::empty(),
                };
                from_clauses(child.children@, source@, module, mi, line)
            }));
        } else {
            let mut j: usize = 0;
            while j < child.children.len()
                invariant
                    j <= child.children@.len(),
                    i < node.children@.len(),
                    *child == node.children@[i as int],
                    base == imports_view(old(out)@),
                    pre == base + imports_children(node.children@.subrange(0, i as int), source@),
                    imports_view(out@) == pre + imports_grand(child.children@.subrange(0, j as int), source@),
                decreases child.children.len() - j,
            {
                proof {
                    let nxt = child.children@.subrange(0, j + 1);
                    assert(nxt.drop_last() =~= child.children@.subrange(0, j as int));
                    assert(nxt.last() == child.children@[j as int]);
                    assert(decreases_to!(*node => node.children@[i as int]));
                    assert(decreases_to!(node.children@[i as int] => child.children@[j as int]));
                }
                collect_imports(&child.children[j], source, out);
                j = j + 1;
            }
            assert(child.children@.subrange(0, child.children@.len() as int) =~= child.children@);
            assert(import_item(*child, source@) == imports_grand(child.children@, source@));
        }
        proof {
            let nxt = node.children@.subrange(0, i + 1);
            assert(imports_children(nxt, source@) == imports_children(node.children@.subrange(0, i as int), source@)
                + import_item(*child, source@));
        }
        i = i + 1;
    }
    assert(node.children@.subrange(0, node.children@.len() as int) =~= node.children@);
}

// ---------------------------------------------------------------------
// Source order of definitions
// ---------------------------------------------------------------------

/// Spans in their derived order: start line, start column, end line, end
/// column.
pub open spec fn span_lt(a: SourceSpan, b: SourceSpan) -> bool {
    ||| a.start_line < b.start_line
    ||| a.start_line == b.start_line && a.start_column < b.start_column
    ||| a.start_line == b.start_line && a.start_column == b.start_column && a.end_line < b.end_line
    ||| a.start_line == b.start_line && a.start_column == b.start_column && a.end_line == b.end_line
        && a.end_column < b.end_column
}

/// `a` sorts strictly before `b`: by span, then by symbol.
pub open spec fn def_before(a: DefModel, b: DefModel) -> bool {
    ||| span_lt(a.span, b.span)
    ||| a.span == b.span && String::view_le(a.symbol, b.symbol) && a.symbol != b.symbol
}

/// `x` inserted after every element that does not sort after it.
pub open spec fn insert_def(s: Seq<DefModel>, x: DefModel) -> Seq<DefModel>
    decreases s.len(),
{
    if s.len() == 0 {
        seq![x]
    } else if def_before(x, s.last()) {
        insert_def(s.drop_last(), x).push(s.last())
    } else {
        s.push(x)
    }
}

/// The definitions in source order: stably sorted by span, then symbol.
pub open spec fn sort_defs(s: Seq<DefModel>) -> Seq<DefModel>
    decreases s.len(),
{
    if s.len() == 0 {
        s
    } else {
        insert_def(sort_defs(s.drop_last()), s.last())
    }
}

fn span_lt_exec(a: &SourceSpan, b: &SourceSpan) -> (r: bool)
    ensures
        r == span_lt(*a, *b),
{
    a.start_line < b.start_line || (a.start_line == b.start_line && a.start_column < b.start_column) || (a.start_line
        == b.start_line && a.start_column == b.start_column && a.end_line < b.end_line) || (a.start_line
        == b.start_line && a.start_column == b.start_column && a.end_line == b.end_line && a.end_column
        < b.end_column)
}

fn def_before_exec(a: &(Definition, Option<Signature>), b: &(Definition, Option<Signature>)) -> (r: bool)
    ensures
        r == def_before(def_view(*a), def_view(*b)),
{
    if span_lt_exec(&a.0.span, &b.0.span) {
        return true;
    }
    let same = a.0.span.start_line == b.0.span.start_line && a.0.span.start_column == b.0.span.start_column
        && a.0.span.end_line == b.0.span.end_line && a.0.span.end_column == b.0.span.end_column;
    same && a.0.symbol.le_exec(&b.0.symbol) && !a.0.symbol.eq_exec(&b.0.symbol)
}

/// Sorts definitions stably by span, then symbol.
fn sort_definitions(v: Vec<(Definition, Option<Signature>)>) -> (r: Vec<(Definition, Option<Signature>)>)
    ensures
        defs_view(r@) == sort_defs(defs_view(v@)),
{
    let ghost orig = defs_view(v@);
    let mut rest = v;
    let mut rev: Vec<(Definition, Option<Signature>)> = Vec::new();
    while rest.len() > 0
        invariant
            orig == defs_view(rest@) + defs_view(rev@).reverse(),
        decreases rest.len(),
    {
        let ghost before_rest = defs_view(rest@);
        let ghost before_rev = defs_view(rev@);
        let x = rest.pop().unwrap();
        rev.push(x);
        proof {
            assert(defs_view(rest@) =~= before_rest.drop_last());
            assert(defs_view(rev@) =~= before_rev.push(def_view(x)));
            assert(defs_view(rev@).reverse() =~= seq![def_view(x)] + before_rev.reverse());
            assert(before_rest =~= before_rest.drop_last().push(def_view(x)));
        }
    }
    assert(defs_view(rest@) =~= Seq::<DefModel>::empty());
    let mut sorted: Vec<(Definition, Option<Signature>)> = Vec::new();
    let ghost mut done: Seq<DefModel> = Seq::empty();
    while rev.len() > 0
        invariant
            orig == done + defs_view(rev@).reverse(),
            defs_view(sorted@) == sort_defs(done),
        decreases rev.len(),
    {
        let ghost before_rev = defs_view(rev@);
        let x = rev.pop().unwrap();
        proof {
            assert(defs_view(rev@) =~= before_rev.drop_last());
            assert(before_rev.reverse() =~= seq![def_view(x)] + defs_view(rev@).reverse());
        }
        let mut tail: Vec<(Definition, Option<Signature>)> = Vec::new();
        let ghost start = defs_view(sorted@);
        while sorted.len() > 0 && def_before_exec(&x, &sorted[sorted.len() - 1])
            invariant
                insert_def(start, def_view(x)) == insert_def(defs_view(sorted@), def_view(x)) + defs_view(tail@).reverse(),
            decreases sorted.len(),
        {
            let ghost cur = defs_view(sorted@);
            let ghost tl = defs_view(tail@);
            let y = sorted.pop().unwrap();
            tail.push(y);
            proof {
                assert(defs_view(sorted@) =~= cur.drop_last());
                assert(defs_view(tail@) =~= tl.push(def_view(y)));
                assert(defs_view(tail@).reverse() =~= seq![def_view(y)] + tl.reverse());
                assert(insert_def(cur, def_view(x)) == insert_def(cur.drop_last(), def_view(x)).push(cur.last()));
                assert(insert_def(cur.drop_last(), def_view(x)).push(cur.last()) + tl.reverse() =~= insert_def(cur.drop_last(), def_view(x)) + defs_view(tail@).reverse());
            }
        }
        let ghost cur = defs_view(sorted@);
        sorted.push(x);
        proof {
            assert(insert_def(cur, def_view(x)) =~= cur.push(def_view(x)));
            assert(defs_view(sorted@) =~= cur.push(def_view(x)));
        }
        while tail.len() > 0
            invariant
                insert_def(start, def_view(x)) == defs_view(sorted@) + defs_view(tail@).reverse(),
            decreases tail.len(),
        {
            let ghost cur2 = defs_view(sorted@);
            let ghost tl = defs_view(tail@);
            let y = tail.pop().unwrap();
            sorted.push(y);
            proof {
                assert(defs_view(tail@) =~= tl.drop_last());
                assert(tl.reverse() =~= seq![def_view(y)] + defs_view(tail@).reverse());
                assert(defs_view(sorted@) =~= cur2.push(def_view(y)));
            }
        }
        proof {
            assert(defs_view(tail@).reverse() =~= Seq::<DefModel>::empty());
            let nd = done.push(def_view(x));
            assert(nd.drop_last() =~= done);
            done = nd;
            assert(orig =~= done + defs_view(rev@).reverse());
        }
    }
    assert(done =~= orig);
    sorted
}

// ---------------------------------------------------------------------
// The index
// ---------------------------------------------------------------------

/// What the index holds for one source unit.
pub struct UnitModel {
    /// The unit's module name.
    pub module: Seq<char>,
    /// The relative path the unit was read from.
    pub path: Seq<char>,
    /// Its source text.
    pub source: Seq<char>,
    /// Its syntax tree, when the parser produced one.
    pub tree: Option<SyntaxNode>,
    /// Its parse status.
    pub status: ParseStatus,
}

/// A unit is consistent: its tree is the one the parser produced for its
/// source (none exactly when the parser produced no tree), and its status
/// is what that tree supports.
pub open spec fn unit_wf(u: UnitModel) -> bool {
    &&& u.status == status_of_tree(u.tree)
    &&& (u.tree matches Some(n) ==> crate::program::syntax::python_syntax_events(u.source) == Some(
        crate::program::syntax::events_of(n),
    ))
    &&& (u.tree is None ==> forall|w: SyntaxNode| crate::program::syntax::python_syntax_events(u.source) != Some(
        #[trigger] crate::program::syntax::events_of(w),
    ))
}

struct IndexedUnit {
    module: ModuleId,
    path: String,
    source: String,
    tree: Option<SyntaxNode>,
    status: ParseStatus,
}

impl IndexedUnit {
    spec fn model(self) -> UnitModel {
        UnitModel { module: self.module@, path: self.path@, source: self.source@, tree: self.tree, status: self.status }
    }
}

spec fn models(units: Seq<IndexedUnit>) -> Seq<UnitModel> {
    units.map_values(|u: IndexedUnit| u.model())
}

/// Deterministic syntax-grounded index over a set of Python source units.
pub struct PythonSyntaxIndex {
    units: Vec<IndexedUnit>,
    files: Vec<(String, String)>,
}

/// A copy of `(path, source)` entries.
pub fn copy_entries(tree: &[(String, String)]) -> (r: Vec<(String, String)>)
    ensures
        entry_views(r@) == entry_views(tree@),
{
    let mut out: Vec<(String, String)> = Vec::new();
    let mut i: usize = 0;
    while i < tree.len()
        invariant
            i <= tree@.len(),
            entry_views(out@) == entry_views(tree@).subrange(0, i as int),
        decreases tree.len() - i,
    {
        let ghost pre = entry_views(out@);
        out.push((tree[i].0.clone(), tree[i].1.clone()));
        assert(entry_views(out@) =~= pre.push((tree@[i as int].0@, tree@[i as int].1@)));
        assert(entry_views(tree@).subrange(0, i + 1) =~= entry_views(tree@).subrange(0, i as int).push((tree@[i as int].0@, tree@[i as int].1@)));
        i = i + 1;
    }
    assert(entry_views(tree@).subrange(0, tree@.len() as int) =~= entry_views(tree@));
    out
}

/// The content of the last entry with exactly this path.
pub open spec fn path_source(entries: Seq<(Seq<char>, Seq<char>)>, path: Seq<char>) -> Option<Seq<char>>
    decreases entries.len(),
{
    if entries.len() == 0 {
        None
    } else if entries.last().0 == path {
        Some(entries.last().1)
    } else {
        path_source(entries.drop_last(), path)
    }
}

/// No two units share a module.
pub open spec fn distinct_modules(us: Seq<UnitModel>) -> bool {
    forall|i: int, j: int| #![trigger us[i], us[j]] 0 <= i < us.len() && 0 <= j < us.len() && i != j ==> us[i].module != us[j].module
}

/// The position of the unit for a module, if indexed.
pub open spec fn unit_index(us: Seq<UnitModel>, m: Seq<char>) -> Option<int> {
    if exists|i: int| 0 <= i < us.len() && (#[trigger] us[i]).module == m {
        Some(choose|i: int| 0 <= i < us.len() && (#[trigger] us[i]).module == m)
    } else {
        None
    }
}

/// The unit for a module, if indexed.
pub open spec fn unit_for(us: Seq<UnitModel>, m: Seq<char>) -> Option<UnitModel> {
    match unit_index(us, m) {
        Some(i) => Some(us[i]),
        None => None,
    }
}

/// The module's unit is indexed and parsed cleanly.
pub open spec fn unit_parsed(us: Seq<UnitModel>, m: Seq<char>) -> bool {
    unit_for(us, m) matches Some(u) && u.status is Parsed
}

/// The refusal owed for a module whose unit is not cleanly parsed: not
/// indexed, or indexed with an incomplete parse.
pub open spec fn refused(u: Unsupported, us: Seq<UnitModel>, m: Seq<char>) -> bool {
    match unit_for(us, m) {
        None => u matches Unsupported::UnitNotIndexed(s) && s@ == m,
        Some(_) => u matches Unsupported::ParseIncomplete(s) && s@ == m,
    }
}

/// The definitions a unit declares, in source order.
pub open spec fn unit_defs(u: UnitModel) -> Seq<DefModel> {
    match u.tree {
        Some(t) => sort_defs(defs_of(t, u.source, u.module, None, false)),
        None => Seq::empty(),
    }
}

/// The imports a unit declares, in source order.
pub open spec fn unit_imports(u: UnitModel) -> Seq<ImportModel> {
    match u.tree {
        Some(t) => imports_in(t, u.source),
        None => Seq::empty(),
    }
}

/// The last entry whose path names the module.
pub open spec fn last_source(entries: Seq<(Seq<char>, Seq<char>)>, m: Seq<char>) -> Option<(Seq<char>, Seq<char>)>
    decreases entries.len(),
{
    if entries.len() == 0 {
        None
    } else if crate::program::model::module_name_of(entries.last().0) == Some(m) {
        Some(entries.last())
    } else {
        last_source(entries.drop_last(), m)
    }
}

/// The `(path, source)` entries as text.
pub open spec fn entry_views(t: Seq<(String, String)>) -> Seq<(Seq<char>, Seq<char>)> {
    t.map_values(|e: (String, String)| (e.0@, e.1@))
}

/// The definition part of a definition model.
pub open spec fn def_part(d: DefModel) -> (Seq<char>, DefKind, SourceSpan) {
    (d.symbol, d.kind, d.span)
}

/// The first definition with the given symbol.
pub open spec fn first_with_symbol(ds: Seq<DefModel>, sym: Seq<char>) -> Option<DefModel>
    decreases ds.len(),
{
    if ds.len() == 0 {
        None
    } else if ds[0].symbol == sym {
        Some(ds[0])
    } else {
        first_with_symbol(ds.drop_first(), sym)
    }
}

/// The optional definition part of a definition.
pub open spec fn opt_def_part(o: Option<Definition>) -> Option<(Seq<char>, DefKind, SourceSpan)> {
    match o {
        Some(d) => Some((d.symbol@, d.kind, d.span)),
        None => None,
    }
}

/// `.` replaced by `/`.
pub open spec fn dots_to_slashes(s: Seq<char>) -> Seq<char> {
    s.map_values(|c: char| if c == '.' { '/' } else { c })
}

/// The module a dotted prefix names as a path: dots become separators and
/// `.py` is appended.
pub open spec fn prefix_module(pre: Seq<char>) -> Option<Seq<char>> {
    crate::program::model::module_name_of(dots_to_slashes(pre) + ".py"@)
}

/// The unit a symbol belongs to: the longest dotted prefix (ending before
/// a `.` at or before position `p`) that names an indexed module.
pub open spec fn resolve_at(us: Seq<UnitModel>, s: Seq<char>, p: int) -> Option<Seq<char>>
    decreases p,
{
    if p <= 0 || p >= s.len() {
        None
    } else if s[p] == '.' && (prefix_module(s.subrange(0, p)) matches Some(m) && unit_index(us, m) is Some) {
        prefix_module(s.subrange(0, p))
    } else {
        resolve_at(us, s, p - 1)
    }
}

/// The unit a symbol resolves to: the longest dotted prefix that names an
/// indexed module.
pub open spec fn resolve(us: Seq<UnitModel>, s: Seq<char>) -> Option<Seq<char>> {
    resolve_at(us, s, s.len() - 1)
}

/// The symbols a changed-path list affects, in path order, or the first
/// refusal: `(false, m)` for a unit not indexed, `(true, m)` for one that
/// did not parse cleanly. Non-Python paths affect nothing.
pub open spec fn changed_fold(us: Seq<UnitModel>, ps: Seq<Seq<char>>) -> Result<Seq<Seq<char>>, (bool, Seq<char>)>
    decreases ps.len(),
{
    if ps.len() == 0 {
        Ok(Seq::empty())
    } else {
        match changed_fold(us, ps.drop_last()) {
            Err(e) => Err(e),
            Ok(acc) => match crate::program::model::module_name_of(ps.last()) {
                None => Ok(acc),
                Some(m) => match unit_for(us, m) {
                    None => Err((false, m)),
                    Some(u) => if u.status is Parsed {
                        Ok(acc + unit_defs(u).map_values(|d: DefModel| d.symbol))
                    } else {
                        Err((true, m))
                    },
                },
            },
        }
    }
}

impl View for PythonSyntaxIndex {
    type V = Seq<UnitModel>;

    closed spec fn view(&self) -> Seq<UnitModel> {
        models(self.units@)
    }
}

impl PythonSyntaxIndex {
    /// The `(path, source)` entries the index was built from.
    pub closed spec fn files_view(&self) -> Seq<(Seq<char>, Seq<char>)> {
        entry_views(self.files@)
    }
}

/// The refusal for a module: not indexed, or indexed with an incomplete
/// parse.
fn refusal(found: bool, module: &ModuleId) -> (r: Unsupported)
    ensures
        found ==> (r matches Unsupported::ParseIncomplete(s) && s@ == module@),
        !found ==> (r matches Unsupported::UnitNotIndexed(s) && s@ == module@),
{
    let name = crate::text::owned(module.name());
    if found {
        Unsupported::ParseIncomplete(name)
    } else {
        Unsupported::UnitNotIndexed(name)
    }
}

impl PythonSyntaxIndex {
    #[verifier::type_invariant]
    spec fn well_formed(self) -> bool {
        &&& distinct_modules(self@)
        &&& forall|i: int| 0 <= i < self@.len() ==> unit_wf(#[trigger] self@[i])
    }

    /// Index source files (canonical relative paths with contents). Only
    /// `.py` files are indexed; where two paths name one module, the later
    /// entry wins. Each unit keeps its parse tree and parse status.
    pub fn index(tree: &[(String, String)]) -> (r: Self)
        ensures
            r.files_view() == entry_views(tree@),
            forall|m: Seq<char>| #![trigger unit_for(r@, m)]
                match last_source(entry_views(tree@), m) {
                    None => unit_for(r@, m) is None,
                    Some(e) => unit_for(r@, m) matches Some(u) && u.path == e.0 && u.source == e.1 && u.module == m,
                },
            forall|i: int| 0 <= i < r@.len() ==> unit_wf(#[trigger] r@[i]),
    {
        let mut units: Vec<IndexedUnit> = Vec::new();
        let ghost ev = entry_views(tree@);
        let mut i: usize = 0;
        while i < tree.len()
            invariant
                i <= tree@.len(),
                ev == entry_views(tree@),
                distinct_modules(models(units@)),
                forall|k: int| 0 <= k < units@.len() ==> unit_wf(#[trigger] units@[k].model()),
                forall|m: Seq<char>| #![trigger unit_for(models(units@), m)]
                    match last_source(ev.subrange(0, i as int), m) {
                        None => unit_for(models(units@), m) is None,
                        Some(e) => unit_for(models(units@), m) matches Some(u)
                            && u.path == e.0 && u.source == e.1 && u.module == m,
                    },
            decreases tree.len() - i,
        {
            let ghost us = models(units@);
            let ghost nxt = ev.subrange(0, i + 1);
            proof {
                assert(nxt.drop_last() =~= ev.subrange(0, i as int));
                assert(nxt.last() == (tree@[i as int].0@, tree@[i as int].1@));
            }
            match ModuleId::from_path(tree[i].0.as_str()) {
                None => {
                    proof {
                        assert forall|m: Seq<char>| #[trigger] last_source(nxt, m) == last_source(ev.subrange(0, i as int), m) by {}
                    }
                },
                Some(module) => {
                    let source = tree[i].1.clone();
                    let path = tree[i].0.clone();
                    let parsed = crate::program::syntax::parse_python(source.as_str());
                    let status = status_exec(&parsed);
                    let unit = IndexedUnit { module, path, source, tree: parsed, status };
                    let pos = Self::position(&units, &unit.module);
                    let ghost um = unit.model();
                    match pos {
                        Some(p) => {
                            units.set(p, unit);
                            proof {
                                let us2 = models(units@);
                                assert(us2 =~= us.update(p as int, um));
                                Self::lemma_replace(us, p as int, um);
                            }
                        },
                        None => {
                            units.push(unit);
                            proof {
                                let us2 = models(units@);
                                assert(us2 =~= us.push(um));
                                Self::lemma_append(us, um);
                            }
                        },
                    }
                    proof {
                        let us2 = models(units@);
                        assert forall|m: Seq<char>| #![trigger unit_for(us2, m)]
                            match last_source(nxt, m) {
                                None => unit_for(us2, m) is None,
                                Some(e) => unit_for(us2, m) matches Some(u) && u.path == e.0 && u.source == e.1 && u.module == m,
                            } by {
                            if m != um.module {
                                assert(last_source(nxt, m) == last_source(ev.subrange(0, i as int), m));
                                assert(unit_for(us2, m) == unit_for(us, m));
                            }
                        }
                    }
                },
            }
            i = i + 1;
        }
        proof {
            assert(ev.subrange(0, tree@.len() as int) =~= ev);
            assert forall|k: int| 0 <= k < models(units@).len() implies unit_wf(#[trigger] models(units@)[k]) by {
                assert(models(units@)[k] == units@[k].model());
            }
        }
        PythonSyntaxIndex { units, files: copy_entries(tree) }
    }

    proof fn lemma_replace(us: Seq<UnitModel>, p: int, u: UnitModel)
        requires
            distinct_modules(us),
            0 <= p < us.len(),
            us[p].module == u.module,
        ensures
            distinct_modules(us.update(p, u)),
            unit_for(us.update(p, u), u.module) == Some(u),
            forall|m: Seq<char>| m != u.module ==> #[trigger] unit_for(us.update(p, u), m) == unit_for(us, m),
    {
        let us2 = us.update(p, u);
        assert forall|i: int, j: int| #![trigger us2[i], us2[j]] 0 <= i < us2.len() && 0 <= j < us2.len() && i != j implies us2[i].module != us2[j].module by {
            assert(us2[i].module == us[i].module);
            assert(us2[j].module == us[j].module);
        }
        assert(us2[p].module == u.module);
        let k = choose|i: int| 0 <= i < us2.len() && (#[trigger] us2[i]).module == u.module;
        assert(k == p);
        assert forall|m: Seq<char>| m != u.module implies #[trigger] unit_for(us2, m) == unit_for(us, m) by {
            assert forall|i: int| 0 <= i < us.len() implies ((#[trigger] us2[i]).module == m <==> us[i].module == m) by {}
            if exists|i: int| 0 <= i < us.len() && (#[trigger] us[i]).module == m {
                let a = choose|i: int| 0 <= i < us.len() && (#[trigger] us[i]).module == m;
                assert(us2[a].module == m);
                let b = choose|i: int| 0 <= i < us2.len() && (#[trigger] us2[i]).module == m;
                assert(us[b].module == m);
                assert(a == b);
                assert(us2[a] == us[a]);
            } else {
                assert(!exists|i: int| 0 <= i < us2.len() && (#[trigger] us2[i]).module == m);
            }
        }
    }

    proof fn lemma_append(us: Seq<UnitModel>, u: UnitModel)
        requires
            distinct_modules(us),
            unit_index(us, u.module) is None,
        ensures
            distinct_modules(us.push(u)),
            unit_for(us.push(u), u.module) == Some(u),
            forall|m: Seq<char>| m != u.module ==> #[trigger] unit_for(us.push(u), m) == unit_for(us, m),
    {
        let us2 = us.push(u);
        assert forall|i: int, j: int| #![trigger us2[i], us2[j]] 0 <= i < us2.len() && 0 <= j < us2.len() && i != j implies us2[i].module != us2[j].module by {
            if i < us.len() && j < us.len() {
                assert(us2[i] == us[i] && us2[j] == us[j]);
            } else if i < us.len() {
                assert(us2[i] == us[i]);
            } else {
                assert(us2[j] == us[j]);
            }
        }
        assert(us2[us.len() as int].module == u.module);
        let k = choose|i: int| 0 <= i < us2.len() && (#[trigger] us2[i]).module == u.module;
        assert(k == us.len());
        assert forall|m: Seq<char>| m != u.module implies #[trigger] unit_for(us2, m) == unit_for(us, m) by {
            if exists|i: int| 0 <= i < us.len() && (#[trigger] us[i]).module == m {
                let a = choose|i: int| 0 <= i < us.len() && (#[trigger] us[i]).module == m;
                assert(us2[a].module == m);
                let b = choose|i: int| 0 <= i < us2.len() && (#[trigger] us2[i]).module == m;
                assert(b < us.len());
                assert(us[b] == us2[b]);
                assert(a == b);
            } else {
                assert forall|i: int| 0 <= i < us2.len() implies (#[trigger] us2[i]).module != m by {
                    if i < us.len() {
                        assert(us2[i] == us[i]);
                    }
                }
            }
        }
    }

    /// The position of a module's unit in a unit list.
    fn position(units: &Vec<IndexedUnit>, module: &ModuleId) -> (r: Option<usize>)
        requires
            distinct_modules(models(units@)),
        ensures
            match r {
                Some(p) => p < units@.len() && unit_index(models(units@), module@) == Some(p as int),
                None => unit_index(models(units@), module@) is None,
            },
    {
        let ghost us = models(units@);
        let mut i: usize = 0;
        while i < units.len()
            invariant
                i <= units@.len(),
                us == models(units@),
                distinct_modules(us),
                forall|k: int| 0 <= k < i ==> (#[trigger] us[k]).module != module@,
            decreases units.len() - i,
        {
            if str_eq(units[i].module.name(), module.name()) {
                proof {
                    assert(us[i as int].module == module@);
                    let k = choose|j: int| 0 <= j < us.len() && (#[trigger] us[j]).module == module@;
                    assert(us[k].module == module@);
                    if k != i {
                        assert(us[i as int].module != us[k].module);
                    }
                }
                return Some(i);
            }
            i = i + 1;
        }
        None
    }

    fn lookup(&self, module: &ModuleId) -> (r: Option<usize>)
        ensures
            match r {
                Some(p) => p < self.units@.len() && unit_index(self@, module@) == Some(p as int),
                None => unit_index(self@, module@) is None,
            },
    {
        proof {
            use_type_invariant(self);
        }
        Self::position(&self.units, module)
    }

    /// The relative path a module's unit was read from.
    pub fn unit_path(&self, module: &ModuleId) -> (r: Option<&str>)
        ensures
            match unit_for(self@, module@) {
                Some(u) => r matches Some(p) && p@ == u.path,
                None => r is None,
            },
    {
        match self.lookup(module) {
            Some(p) => Some(self.units[p].path.as_str()),
            None => None,
        }
    }

    /// Whether some indexed unit is the module with this dotted name.
    pub fn indexes_module(&self, module: &str) -> (r: bool)
        ensures
            r == (unit_index(self@, module@) is Some),
    {
        let ghost us = self@;
        let mut i: usize = 0;
        while i < self.units.len()
            invariant
                i <= self.units@.len(),
                us == models(self.units@),
                forall|k: int| 0 <= k < i ==> (#[trigger] us[k]).module != module@,
            decreases self.units.len() - i,
        {
            if str_eq(self.units[i].module.name(), module) {
                proof {
                    assert(us[i as int].module == module@);
                }
                return true;
            }
            i = i + 1;
        }
        proof {
            assert(!exists|k: int| 0 <= k < us.len() && (#[trigger] us[k]).module == module@);
        }
        false
    }

    /// The unit a symbol resolves to (longest indexed dotted prefix) and
    /// the relative path that unit was read from.
    pub fn resolve_symbol_unit(&self, symbol: &SymbolPath) -> (r: Option<(ModuleId, String)>)
        ensures
            match resolve(self@, symbol@) {
                Some(m) => (r matches Some((module, path)) && module@ == m && (unit_for(self@, m) matches Some(u)
                    && path@ == u.path)),
                None => r is None,
            },
    {
        match self.resolve_symbol(symbol) {
            Some(module) => {
                proof {
                    assert(resolve(self@, symbol@) == Some(module@));
                    Self::lemma_resolved_indexed(self@, symbol@, symbol@.len() - 1);
                }
                match self.unit_path(&module) {
                    Some(p) => {
                        let path = crate::text::owned(p);
                        Some((module, path))
                    },
                    None => None,
                }
            },
            None => None,
        }
    }

    proof fn lemma_resolved_indexed(us: Seq<UnitModel>, s: Seq<char>, p: int)
        ensures
            resolve_at(us, s, p) matches Some(m) ==> unit_index(us, m) is Some,
        decreases p,
    {
        if p > 0 && p < s.len() {
            Self::lemma_resolved_indexed(us, s, p - 1);
        }
    }

    /// An index with no units.
    pub fn empty() -> (r: Self)
        ensures
            r@.len() == 0,
            r.files_view().len() == 0,
    {
        PythonSyntaxIndex { units: Vec::new(), files: Vec::new() }
    }

    /// Number of indexed units (including explicit parse failures).
    pub fn unit_count(&self) -> (r: usize)
        ensures
            r == self@.len(),
    {
        self.units.len()
    }

    /// The position of a module's unit when it parsed cleanly, else the
    /// refusal owed.
    fn proven_unit(&self, module: &ModuleId) -> (r: Result<usize, Unsupported>)
        ensures
            match r {
                Ok(p) => p < self.units@.len() && unit_parsed(self@, module@) && unit_for(self@, module@) == Some(self@[p as int]),
                Err(u) => !unit_parsed(self@, module@) && refused(u, self@, module@),
            },
    {
        match self.lookup(module) {
            Some(p) => {
                if self.units[p].status.is_ok() {
                    Ok(p)
                } else {
                    Err(refusal(true, module))
                }
            },
            None => Err(refusal(false, module)),
        }
    }

    fn unit_definitions(&self, p: usize) -> (r: Vec<(Definition, Option<Signature>)>)
        requires
            p < self.units@.len(),
        ensures
            defs_view(r@) == unit_defs(self@[p as int]),
    {
        let unit = &self.units[p];
        let mut out: Vec<(Definition, Option<Signature>)> = Vec::new();
        match &unit.tree {
            Some(t) => {
                walk_defs(t, unit.source.as_str(), &unit.module, &None, false, &mut out);
                assert(defs_view(out@) =~= Seq::<DefModel>::empty() + defs_of(*t, unit.source@, unit.module@, None, false));
                sort_definitions(out)
            },
            None => {
                assert(defs_view(out@) =~= Seq::<DefModel>::empty());
                out
            },
        }
    }

    /// Extract all definitions (with signatures where applicable) of a
    /// unit, in source order. Unsupported for units not indexed or not
    /// cleanly parsed: extraction from incomplete evidence is never proven.
    pub fn extract_definitions(&self, module: &ModuleId) -> (r: Answer<Vec<(Definition, Option<Signature>)>>)
        ensures
            match r {
                Answer::Proven(v) => unit_parsed(self@, module@) && defs_view(v@) == unit_defs(unit_for(self@, module@).unwrap()),
                Answer::Unsupported(u) => !unit_parsed(self@, module@) && refused(u, self@, module@),
            },
    {
        match self.proven_unit(module) {
            Ok(p) => Answer::Proven(self.unit_definitions(p)),
            Err(u) => Answer::Unsupported(u),
        }
    }

    /// Extract the syntactic imports of a unit, in source order.
    pub fn extract_imports(&self, module: &ModuleId) -> (r: Answer<Vec<Import>>)
        ensures
            match r {
                Answer::Proven(v) => unit_parsed(self@, module@) && imports_view(v@) == unit_imports(unit_for(self@, module@).unwrap()),
                Answer::Unsupported(u) => !unit_parsed(self@, module@) && refused(u, self@, module@),
            },
    {
        match self.proven_unit(module) {
            Ok(p) => {
                let unit = &self.units[p];
                let mut out: Vec<Import> = Vec::new();
                match &unit.tree {
                    Some(t) => {
                        collect_imports(t, unit.source.as_str(), &mut out);
                        assert(imports_view(out@) =~= Seq::<ImportModel>::empty() + imports_in(*t, unit.source@));
                    },
                    None => {
                        assert(imports_view(out@) =~= Seq::<ImportModel>::empty());
                    },
                }
                Answer::Proven(out)
            },
            Err(u) => Answer::Unsupported(u),
        }
    }

    /// Map a changed-file set to syntactically affected symbols, as a
    /// canonical set. Proven only when every changed Python unit parsed
    /// cleanly; the first changed unit that is not indexed or did not parse
    /// cleanly is the refusal.
    pub fn changed_symbols_impl(&self, changed_paths: &[String]) -> (r: Answer<Vec<SymbolPath>>)
        ensures
            match r {
                Answer::Proven(v) => changed_fold(self@, crate::order::views(changed_paths@)) matches Ok(acc)
                    && crate::order::canonical_set_of::<SymbolPath>(crate::order::views(v@), acc),
                Answer::Unsupported(u) => changed_fold(self@, crate::order::views(changed_paths@)) matches Err(e)
                    && (if e.0 {
                    u matches Unsupported::ParseIncomplete(s) && s@ == e.1
                } else {
                    u matches Unsupported::UnitNotIndexed(s) && s@ == e.1
                }),
            },
    {
        let ghost pv = crate::order::views(changed_paths@);
        let mut symbols: Vec<SymbolPath> = Vec::new();
        let mut i: usize = 0;
        proof {
            assert(pv.subrange(0, 0) =~= Seq::<Seq<char>>::empty());
            assert(crate::order::views(symbols@) =~= Seq::<Seq<char>>::empty());
        }
        while i < changed_paths.len()
            invariant
                i <= changed_paths@.len(),
                pv == crate::order::views(changed_paths@),
                changed_fold(self@, pv.subrange(0, i as int)) == Ok::<Seq<Seq<char>>, (bool, Seq<char>)>(crate::order::views(symbols@)),
            decreases changed_paths.len() - i,
        {
            let ghost nxt = pv.subrange(0, i + 1);
            proof {
                assert(nxt.drop_last() =~= pv.subrange(0, i as int));
                assert(nxt.last() == changed_paths@[i as int]@);
            }
            match ModuleId::from_path(changed_paths[i].as_str()) {
                None => {},
                Some(module) => {
                    match self.proven_unit(&module) {
                        Ok(p) => {
                            let defs = self.unit_definitions(p);
                            let ghost start = crate::order::views(symbols@);
                            let mut k: usize = 0;
                            while k < defs.len()
                                invariant
                                    k <= defs@.len(),
                                    crate::order::views(symbols@) == start + defs_view(defs@).subrange(0, k as int).map_values(|d: DefModel| d.symbol),
                                decreases defs.len() - k,
                            {
                                let ghost old_syms = symbols@;
                                let sym = defs[k].0.symbol.clone();
                                let ghost gs = sym;
                                symbols.push(sym);
                                proof {
                                    crate::order::lemma_views_push(old_syms, gs);
                                    assert(symbols@ =~= old_syms.push(gs));
                                    assert(defs_view(defs@).subrange(0, k + 1).map_values(|d: DefModel| d.symbol) =~= defs_view(defs@).subrange(0, k as int).map_values(|d: DefModel| d.symbol).push(defs@[k as int].0.symbol@));
                                }
                                k = k + 1;
                            }
                            assert(defs_view(defs@).subrange(0, defs@.len() as int) =~= defs_view(defs@));
                        },
                        Err(u) => {
                            proof {
                                let f = changed_fold(self@, nxt);
                                if unit_for(self@, module@) is None {
                                    assert(f == Err::<Seq<Seq<char>>, (bool, Seq<char>)>((false, module@)));
                                } else {
                                    assert(f == Err::<Seq<Seq<char>>, (bool, Seq<char>)>((true, module@)));
                                }
                                crate::program::python::lemma_changed_fold_err(self@, pv, i as int + 1);
                            }
                            return Answer::Unsupported(u);
                        },
                    }
                },
            }
            i = i + 1;
        }
        assert(pv.subrange(0, pv.len() as int) =~= pv);
        Answer::Proven(crate::order::canonical_set(symbols))
    }

    /// Content digest of a tracked Python file: BLAKE3 of the source at
    /// exactly that path. `None` for a canonical `.py` path absent from the
    /// indexed tree — proven absence, since the index was built from the
    /// full tree. Non-Python or non-canonical paths are outside the indexed
    /// universe: Unsupported, never a proven absence.
    pub fn file_digest_impl(&self, path: &str) -> (r: Answer<Option<ContentHash>>)
        ensures
            match crate::program::model::module_name_of(path@) {
                None => r matches Answer::Unsupported(Unsupported::UnitNotIndexed(s)) && s@ == path@,
                Some(_) => match path_source(self.files_view(), path@) {
                    Some(src) => r matches Answer::Proven(Some(h)) && h.algo == HashAlgo::Blake3
                        && h.digest@ == blake3_digest(crate::text::utf8(src)),
                    None => r matches Answer::Proven(None),
                },
            },
    {
        if ModuleId::from_path(path).is_none() {
            return Answer::Unsupported(Unsupported::UnitNotIndexed(crate::text::owned(path)));
        }
        let ghost fv = self.files_view();
        let mut i: usize = self.files.len();
        assert(fv.subrange(0, fv.len() as int) =~= fv);
        while i > 0
            invariant
                i <= self.files@.len(),
                fv == entry_views(self.files@),
                crate::program::model::module_name_of(path@) is Some,
                path_source(fv, path@) == path_source(fv.subrange(0, i as int), path@),
            decreases i,
        {
            let ghost pre = fv.subrange(0, i as int);
            assert(pre.drop_last() =~= fv.subrange(0, i - 1));
            assert(pre.last() == (self.files@[i - 1].0@, self.files@[i - 1].1@));
            if str_eq(self.files[i - 1].0.as_str(), path) {
                assert(path_source(pre, path@) == Some(self.files@[i - 1].1@));
                let src = self.files[i - 1].1.as_str();
                let h = ContentHash::compute(HashAlgo::Blake3, src.as_bytes());
                assert(h.digest@ == blake3_digest(crate::text::utf8(self.files@[i - 1].1@)));
                return Answer::Proven(Some(h));
            }
            i = i - 1;
        }
        Answer::Proven(None)
    }

    /// The unit a symbol belongs to: the longest dotted prefix that names
    /// an indexed module (`auth.service.AuthService.login` → unit
    /// `auth.service`).
    fn resolve_symbol(&self, symbol: &SymbolPath) -> (r: Option<ModuleId>)
        ensures
            match r {
                Some(m) => resolve(self@, symbol@) == Some(m@),
                None => resolve(self@, symbol@) is None,
            },
    {
        let cs = chars_of(symbol.as_str());
        if cs.len() == 0 {
            return None;
        }
        let mut p: usize = cs.len() - 1;
        while p > 0
            invariant
                p < cs@.len(),
                cs@ == symbol@,
                resolve(self@, symbol@) == resolve_at(self@, symbol@, p as int),
            decreases p,
        {
            if cs[p] == '.' {
                let mut path: Vec<char> = Vec::new();
                let mut k: usize = 0;
                while k < p
                    invariant
                        k <= p < cs@.len(),
                        path@ == dots_to_slashes(cs@.subrange(0, k as int)),
                    decreases p - k,
                {
                    path.push(if cs[k] == '.' { '/' } else { cs[k] });
                    assert(dots_to_slashes(cs@.subrange(0, k + 1)) =~= dots_to_slashes(cs@.subrange(0, k as int)).push(if cs@[k as int] == '.' { '/' } else { cs@[k as int] }));
                    k = k + 1;
                }
                let mut text = string_of_chars(path.as_slice());
                crate::text::push_str(&mut text, ".py");
                match ModuleId::from_path(text.as_str()) {
                    Some(m) => {
                        if self.lookup(&m).is_some() {
                            return Some(m);
                        }
                    },
                    None => {},
                }
            }
            p = p - 1;
        }
        None
    }

    /// The definitions of a symbol's unit, or the refusal owed.
    fn symbol_unit_defs(&self, symbol: &SymbolPath) -> (r: Result<Vec<(Definition, Option<Signature>)>, Unsupported>)
        ensures
            match resolve(self@, symbol@) {
                None => r matches Err(Unsupported::UnitNotIndexed(s)) && s@ == symbol@,
                Some(m) => match r {
                    Ok(v) => unit_parsed(self@, m) && defs_view(v@) == unit_defs(unit_for(self@, m).unwrap()),
                    Err(u) => !unit_parsed(self@, m) && refused(u, self@, m),
                },
            },
    {
        match self.resolve_symbol(symbol) {
            None => Err(Unsupported::UnitNotIndexed(crate::text::owned(symbol.as_str()))),
            Some(module) => match self.proven_unit(&module) {
                Ok(p) => Ok(self.unit_definitions(p)),
                Err(u) => Err(u),
            },
        }
    }
}

/// Once the changed-symbol fold refuses, it keeps refusing.
pub proof fn lemma_changed_fold_err(us: Seq<UnitModel>, ps: Seq<Seq<char>>, i: int)
    requires
        0 < i <= ps.len(),
        changed_fold(us, ps.subrange(0, i)) is Err,
    ensures
        changed_fold(us, ps) == changed_fold(us, ps.subrange(0, i)),
    decreases ps.len() - i,
{
    if i < ps.len() {
        let nxt = ps.subrange(0, i + 1);
        assert(nxt.drop_last() =~= ps.subrange(0, i));
        lemma_changed_fold_err(us, ps, i + 1);
    } else {
        assert(ps.subrange(0, i) =~= ps);
    }
}

/// Finds the first definition with a symbol.
fn find_symbol(defs: Vec<(Definition, Option<Signature>)>, symbol: &SymbolPath) -> (r: Option<(Definition, Option<Signature>)>)
    ensures
        match r {
            Some(d) => first_with_symbol(defs_view(defs@), symbol@) == Some(def_view(d)),
            None => first_with_symbol(defs_view(defs@), symbol@) is None,
        },
{
    let ghost dv = defs_view(defs@);
    let mut rest = defs;
    let mut rev: Vec<(Definition, Option<Signature>)> = Vec::new();
    while rest.len() > 0
        invariant
            dv == defs_view(rest@) + defs_view(rev@).reverse(),
        decreases rest.len(),
    {
        let ghost br = defs_view(rest@);
        let ghost bv = defs_view(rev@);
        let x = rest.pop().unwrap();
        rev.push(x);
        proof {
            assert(defs_view(rest@) =~= br.drop_last());
            assert(defs_view(rev@).reverse() =~= seq![def_view(x)] + bv.reverse());
            assert(br =~= br.drop_last().push(def_view(x)));
        }
    }
    assert(defs_view(rest@) =~= Seq::<DefModel>::empty());
    assert(dv =~= defs_view(rev@).reverse());
    while rev.len() > 0
        invariant
            dv == defs_view(defs@),
            first_with_symbol(dv, symbol@) == first_with_symbol(defs_view(rev@).reverse(), symbol@),
        decreases rev.len(),
    {
        let ghost bv = defs_view(rev@);
        let x = rev.pop().unwrap();
        proof {
            assert(defs_view(rev@) =~= bv.drop_last());
            let rr = bv.reverse();
            assert(rr[0] == def_view(x));
            assert(rr.drop_first() =~= defs_view(rev@).reverse());
        }
        proof {
            let rr = bv.reverse();
            assert(first_with_symbol(rr, symbol@) == if rr[0].symbol == symbol@ {
                Some(rr[0])
            } else {
                first_with_symbol(rr.drop_first(), symbol@)
            });
        }
        if x.0.symbol.eq_exec(symbol) {
            return Some(x);
        }
    }
    None
}

impl ProgramIndex for PythonSyntaxIndex {
    fn parse_status(&self, module: &ModuleId) -> (r: Answer<ParseStatus>)
        ensures
            match unit_for(self@, module@) {
                Some(u) => r == Answer::<ParseStatus>::Proven(u.status),
                None => r matches Answer::Unsupported(Unsupported::UnitNotIndexed(s)) && s@ == module@,
            },
    {
        match self.lookup(module) {
            Some(p) => Answer::Proven(self.units[p].status),
            None => Answer::Unsupported(refusal(false, module)),
        }
    }

    fn definition(&self, symbol: &SymbolPath) -> (r: Answer<Option<Definition>>)
        ensures
            match resolve(self@, symbol@) {
                None => r matches Answer::Unsupported(Unsupported::UnitNotIndexed(s)) && s@ == symbol@,
                Some(m) => match r {
                    Answer::Proven(o) => unit_parsed(self@, m) && opt_def_part(o) == match first_with_symbol(
                        unit_defs(unit_for(self@, m).unwrap()),
                        symbol@,
                    ) {
                        Some(d) => Some(def_part(d)),
                        None => None,
                    },
                    Answer::Unsupported(u) => !unit_parsed(self@, m) && refused(u, self@, m),
                },
            },
    {
        match self.symbol_unit_defs(symbol) {
            Ok(defs) => match find_symbol(defs, symbol) {
                Some((d, _)) => Answer::Proven(Some(d)),
                None => Answer::Proven(None),
            },
            Err(u) => Answer::Unsupported(u),
        }
    }

    fn signature(&self, symbol: &SymbolPath) -> (r: Answer<Option<Signature>>)
        ensures
            match resolve(self@, symbol@) {
                None => r matches Answer::Unsupported(Unsupported::UnitNotIndexed(s)) && s@ == symbol@,
                Some(m) => match r {
                    Answer::Proven(o) => unit_parsed(self@, m) && opt_sig_view(o) == match first_with_symbol(
                        unit_defs(unit_for(self@, m).unwrap()),
                        symbol@,
                    ) {
                        Some(d) => d.sig,
                        None => None,
                    },
                    Answer::Unsupported(u) => !unit_parsed(self@, m) && refused(u, self@, m),
                },
            },
    {
        match self.symbol_unit_defs(symbol) {
            Ok(defs) => match find_symbol(defs, symbol) {
                Some((_, s)) => Answer::Proven(s),
                None => Answer::Proven(None),
            },
            Err(u) => Answer::Unsupported(u),
        }
    }

    fn definitions_in(&self, module: &ModuleId) -> (r: Answer<Vec<Definition>>)
        ensures
            match r {
                Answer::Proven(v) => unit_parsed(self@, module@) && v@.map_values(|d: Definition| (d.symbol@, d.kind, d.span))
                    == unit_defs(unit_for(self@, module@).unwrap()).map_values(|d: DefModel| def_part(d)),
                Answer::Unsupported(u) => !unit_parsed(self@, module@) && refused(u, self@, module@),
            },
    {
        match self.proven_unit(module) {
            Ok(p) => {
                let defs = self.unit_definitions(p);
                let ghost dv = defs_view(defs@);
                let mut rest = defs;
                let mut out: Vec<Definition> = Vec::new();
                let mut rev: Vec<Definition> = Vec::new();
                while rest.len() > 0
                    invariant
                        dv.map_values(|d: DefModel| def_part(d)) == defs_view(rest@).map_values(|d: DefModel| def_part(d))
                            + rev@.map_values(|d: Definition| (d.symbol@, d.kind, d.span)).reverse(),
                    decreases rest.len(),
                {
                    let ghost br = defs_view(rest@);
                    let ghost bv = rev@.map_values(|d: Definition| (d.symbol@, d.kind, d.span));
                    let (d, _) = rest.pop().unwrap();
                    rev.push(d);
                    proof {
                        assert(defs_view(rest@) =~= br.drop_last());
                        assert(rev@.map_values(|d: Definition| (d.symbol@, d.kind, d.span)).reverse() =~= seq![(d.symbol@, d.kind, d.span)] + bv.reverse());
                        assert(br.map_values(|d: DefModel| def_part(d)) =~= br.drop_last().map_values(|d: DefModel| def_part(d)).push((d.symbol@, d.kind, d.span)));
                    }
                }
                assert(defs_view(rest@).map_values(|d: DefModel| def_part(d)) =~= Seq::<(Seq<char>, DefKind, SourceSpan)>::empty());
                while rev.len() > 0
                    invariant
                        dv.map_values(|d: DefModel| def_part(d)) == out@.map_values(|d: Definition| (d.symbol@, d.kind, d.span))
                            + rev@.map_values(|d: Definition| (d.symbol@, d.kind, d.span)).reverse(),
                    decreases rev.len(),
                {
                    let ghost bo = out@.map_values(|d: Definition| (d.symbol@, d.kind, d.span));
                    let ghost bv = rev@.map_values(|d: Definition| (d.symbol@, d.kind, d.span));
                    let d = rev.pop().unwrap();
                    out.push(d);
                    proof {
                        assert(rev@.map_values(|d: Definition| (d.symbol@, d.kind, d.span)) =~= bv.drop_last());
                        assert(bv.reverse() =~= seq![(d.symbol@, d.kind, d.span)] + rev@.map_values(|d: Definition| (d.symbol@, d.kind, d.span)).reverse());
                        assert(out@.map_values(|d: Definition| (d.symbol@, d.kind, d.span)) =~= bo.push((d.symbol@, d.kind, d.span)));
                    }
                }
                assert(rev@.map_values(|d: Definition| (d.symbol@, d.kind, d.span)).reverse() =~= Seq::<(Seq<char>, DefKind, SourceSpan)>::empty());
                assert(out@.map_values(|d: Definition| (d.symbol@, d.kind, d.span)) =~= dv.map_values(|d: DefModel| def_part(d)));
                Answer::Proven(out)
            },
            Err(u) => Answer::Unsupported(u),
        }
    }

    fn imports(&self, module: &ModuleId) -> (r: Answer<Vec<Import>>)
        ensures
            match r {
                Answer::Proven(v) => unit_parsed(self@, module@) && imports_view(v@) == unit_imports(unit_for(self@, module@).unwrap()),
                Answer::Unsupported(u) => !unit_parsed(self@, module@) && refused(u, self@, module@),
            },
    {
        self.extract_imports(module)
    }

    fn changed_symbols(&self, changed_paths: &[String]) -> (r: Answer<Vec<SymbolPath>>)
        ensures
            match r {
                Answer::Proven(v) => changed_fold(self@, crate::order::views(changed_paths@)) matches Ok(acc)
                    && crate::order::canonical_set_of::<SymbolPath>(crate::order::views(v@), acc),
                Answer::Unsupported(u) => changed_fold(self@, crate::order::views(changed_paths@)) is Err,
            },
    {
        self.changed_symbols_impl(changed_paths)
    }

    fn file_digest(&self, path: &str) -> (r: Answer<Option<ContentHash>>)
        ensures
            match crate::program::model::module_name_of(path@) {
                None => r is Unsupported,
                Some(_) => match path_source(self.files_view(), path@) {
                    Some(src) => r matches Answer::Proven(Some(h)) && h.algo == HashAlgo::Blake3
                        && h.digest@ == blake3_digest(crate::text::utf8(src)),
                    None => r matches Answer::Proven(None),
                },
            },
    {
        self.file_digest_impl(path)
    }

    fn references(&self, _symbol: &SymbolPath) -> (r: Answer<Vec<SymbolPath>>)
        ensures
            r matches Answer::Unsupported(Unsupported::RequiresSemanticResolution),
    {
        Answer::Unsupported(Unsupported::RequiresSemanticResolution)
    }

    fn callers(&self, _symbol: &SymbolPath) -> (r: Answer<Vec<SymbolPath>>)
        ensures
            r matches Answer::Unsupported(Unsupported::RequiresSemanticResolution),
    {
        Answer::Unsupported(Unsupported::RequiresSemanticResolution)
    }

    fn implementations(&self, _symbol: &SymbolPath) -> (r: Answer<Vec<SymbolPath>>)
        ensures
            r matches Answer::Unsupported(Unsupported::RequiresSemanticResolution),
    {
        Answer::Unsupported(Unsupported::RequiresSemanticResolution)
    }

    fn subclasses(&self, _symbol: &SymbolPath) -> (r: Answer<Vec<SymbolPath>>)
        ensures
            r matches Answer::Unsupported(Unsupported::RequiresSemanticResolution),
    {
        Answer::Unsupported(Unsupported::RequiresSemanticResolution)
    }
}

} // verus!
