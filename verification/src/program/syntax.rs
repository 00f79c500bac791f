//! Python syntax trees as plain values.
//!
//! The grammar parser hands back a preorder list of open/close events; the
//! library rebuilds the tree from it and reads every syntactic fact from
//! that tree. Node text is read from the unit's source by byte range, and
//! only where the range falls on character boundaries.
use vstd::prelude::*;
use core::ops::Range;
use tree_sitter::Tree;
use vstd::string::StringSliceAdditionalSpecFns;
use vstd::utf8::*;

use crate::artifact::opt_view;
use crate::text::{char_is_ws, chars_of, is_ws, push_char, string_of_chars, utf8};

verus! {

broadcast use vstd::utf8::encode_utf8_decode_utf8;

/// One node of a parsed syntax tree, without its children.
#[derive(Debug, PartialEq, Eq)]
pub struct SyntaxRow {
    /// The grammar's node kind (`function_definition`, `identifier`, ...).
    pub kind: String,
    /// The field under which the parent holds this node, if any.
    pub field: Option<String>,
    /// Byte range `[start, end)` of the node in the source.
    pub bytes: Range<usize>,
    /// 0-based (row, column) of the node's start.
    pub start: (usize, usize),
    /// 0-based (row, column) of the node's end.
    pub end: (usize, usize),
    /// The node is a syntax error.
    pub error: bool,
    /// The node was inserted by error recovery (a missing token).
    pub missing: bool,
}

impl Clone for SyntaxRow {
    fn clone(&self) -> (r: Self)
        ensures
            r == *self,
    {
        let field = match &self.field {
            Some(f) => Some(f.clone()),
            None => None,
        };
        SyntaxRow {
            kind: self.kind.clone(),
            field,
            bytes: Range { start: self.bytes.start, end: self.bytes.end },
            start: self.start,
            end: self.end,
            error: self.error,
            missing: self.missing,
        }
    }
}

/// A preorder event: a node opens (with its row) or the last open node
/// closes.
pub type SyntaxEvent = Option<SyntaxRow>;

/// A syntax tree node with its children in source order.
#[derive(Debug)]
pub struct SyntaxNode {
    /// The node itself.
    pub row: SyntaxRow,
    /// Its children, in source order.
    pub children: Vec<SyntaxNode>,
}

/// The preorder events of a node: open, the children's events, close.
pub open spec fn events_of(n: SyntaxNode) -> Seq<SyntaxEvent>
    decreases n, 0nat,
{
    seq![Some(n.row)] + events_of_all(n.children@) + seq![None]
}

/// The preorder events of a sequence of sibling nodes.
pub open spec fn events_of_all(ns: Seq<SyntaxNode>) -> Seq<SyntaxEvent>
    decreases ns, ns.len(),
{
    if ns.len() == 0 {
        Seq::empty()
    } else {
        events_of_all(ns.drop_last()) + events_of(ns.last())
    }
}

/// What the Python grammar parser yields for a source text: the preorder
/// open/close events of its syntax tree, or nothing when the parser could
/// not be set up.
pub uninterp spec fn python_syntax_events(source: Seq<char>) -> Option<Seq<SyntaxEvent>>;

/// The preorder open/close events of a parsed tree's nodes.
pub uninterp spec fn tree_events(tree: Tree) -> Seq<SyntaxEvent>;

#[verifier::external_type_specification]
#[verifier::external_body]
pub struct ExTree(Tree);

/// Parses Python source with a `tree_sitter::Parser` set to
/// `tree_sitter_python::LANGUAGE`. The contract names the result only:
/// the same source always gives a tree with the same events, and nothing
/// exactly when the grammar cannot be loaded.
#[verifier::external_body]
fn parse_tree(source: &str) -> (r: Option<Tree>)
    ensures
        match r {
            Some(t) => python_syntax_events(source@) == Some(tree_events(t)),
            None => python_syntax_events(source@) is None,
        },
{
    let mut parser = tree_sitter::Parser::new();
    parser.set_language(&tree_sitter_python::LANGUAGE.into()).ok()?;
    parser.parse(source, None)
}

/// Walks a `tree_sitter::Tree` with a `tree_sitter::TreeCursor` in
/// preorder, recording for each node its kind, the cursor's field name,
/// byte range, start and end points and error flags when it opens, and a
/// close event when the walk leaves it.
#[verifier::external_body]
fn events_of_tree(tree: &Tree) -> (r: Vec<SyntaxEvent>)
    ensures
        r@ == tree_events(*tree),
{
    let (mut c, mut events) = (tree.walk(), Vec::new());
    loop {
        let (n, field) = (c.node(), c.field_name().map(String::from));
        let (s, e) = (n.start_position(), n.end_position());
        events.push(Some(SyntaxRow { kind: n.kind().into(), field, bytes: n.byte_range(), start: (s.row, s.column),
            end: (e.row, e.column), error: n.is_error(), missing: n.is_missing() }));
        if c.goto_first_child() { continue; }
        loop {
            events.push(None);
            if c.goto_next_sibling() { break; }
            if !c.goto_parent() { return events; }
        }
    }
}

/// The events of node `w` stand at position `i` of `events`.
pub open spec fn node_at(events: Seq<SyntaxEvent>, i: int, w: SyntaxNode) -> bool {
    &&& 0 <= i
    &&& i + events_of(w).len() <= events.len()
    &&& events.subrange(i, i + events_of(w).len()) == events_of(w)
}

/// The events of the first `m` siblings open the events of all of them.
proof fn lemma_events_prefix(ns: Seq<SyntaxNode>, m: int)
    requires
        0 <= m <= ns.len(),
    ensures
        events_of_all(ns.take(m)).len() <= events_of_all(ns).len(),
        events_of_all(ns).subrange(0, events_of_all(ns.take(m)).len() as int) == events_of_all(ns.take(m)),
    decreases ns.len(),
{
    if m == ns.len() {
        assert(ns.take(m) =~= ns);
        assert(events_of_all(ns).subrange(0, events_of_all(ns).len() as int) =~= events_of_all(ns));
    } else {
        let init = ns.drop_last();
        assert(init.take(m) =~= ns.take(m));
        lemma_events_prefix(init, m);
        let a = events_of_all(init);
        let b = events_of(ns.last());
        assert(events_of_all(ns) == a + b);
        let p = events_of_all(ns.take(m));
        assert((a + b).subrange(0, p.len() as int) =~= a.subrange(0, p.len() as int));
    }
}

/// The events of the first `m + 1` siblings: those of the first `m`, then
/// those of sibling `m`.
proof fn lemma_events_step(ns: Seq<SyntaxNode>, m: int)
    requires
        0 <= m < ns.len(),
    ensures
        events_of_all(ns.take(m + 1)) == events_of_all(ns.take(m)) + events_of(ns[m]),
{
    let t = ns.take(m + 1);
    assert(t.drop_last() =~= ns.take(m));
    assert(t.last() == ns[m]);
}

/// Inside the events of `w`, sibling `m` of its children stands right after
/// the events of the siblings before it.
proof fn lemma_child_at(events: Seq<SyntaxEvent>, i: int, w: SyntaxNode, m: int)
    requires
        node_at(events, i, w),
        0 <= m <= w.children@.len(),
    ensures
        ({
            let k = i + 1 + events_of_all(w.children@.take(m)).len();
            &&& k < i + events_of(w).len()
            &&& (m < w.children@.len() ==> node_at(events, k, w.children@[m]) && events[k] == Some(w.children@[m].row))
            &&& (m == w.children@.len() ==> k == i + events_of(w).len() - 1 && events[k] is None)
        }),
{
    let cs = w.children@;
    let e = events_of_all(cs);
    let ew = events_of(w);
    assert(ew == seq![Some(w.row)] + e + seq![None::<SyntaxRow>]);
    lemma_events_prefix(cs, m);
    let p = events_of_all(cs.take(m));
    let k = i + 1 + p.len();
    assert(events.subrange(i, i + ew.len()) == ew);
    if m < cs.len() {
        lemma_events_step(cs, m);
        lemma_events_prefix(cs, m + 1);
        let c = events_of(cs[m]);
        let q = events_of_all(cs.take(m + 1));
        assert(q == p + c);
        assert forall|t: int| 0 <= t < c.len() implies events[k + t] == c[t] by {
            assert(events[k + t] == ew[1 + p.len() + t]);
            assert(ew[1 + p.len() + t] == e[p.len() + t]);
            assert(e[p.len() + t] == e.subrange(0, q.len() as int)[p.len() + t]);
            assert(q[p.len() + t] == c[t]);
        }
        assert(events.subrange(k, k + c.len()) =~= c);
        assert(c[0] == Some(cs[m].row));
    } else {
        assert(cs.take(m) =~= cs);
        assert(events[k] == ew[1 + e.len() as int]);
    }
}

/// Rebuilds the node that opens at `i`, and the position after its close:
/// whenever some node's events stand at `i`, the rebuild succeeds and ends
/// right after them.
fn build_node(events: &Vec<SyntaxEvent>, i: usize) -> (r: Option<(SyntaxNode, usize)>)
    requires
        i < events@.len(),
    ensures
        r matches Some((n, j)) ==> {
            &&& i < j <= events@.len()
            &&& events_of(n) == events@.subrange(i as int, j as int)
        },
        forall|w: SyntaxNode| #[trigger] node_at(events@, i as int, w) ==> (r matches Some((n, j)) && j == i
            + events_of(w).len()),
    decreases events@.len() - i,
{
    proof {
        assert forall|w: SyntaxNode| #[trigger] node_at(events@, i as int, w) implies events@[i as int] == Some(
            w.row,
        ) by {
            assert(events_of(w)[0] == Some(w.row));
            assert(events@.subrange(i as int, i + events_of(w).len())[0] == events@[i as int]);
        }
    }
    let row = match &events[i] {
        Some(row) => row.clone(),
        None => {
            return None;
        },
    };
    let len = events.len();
    let mut children: Vec<SyntaxNode> = Vec::new();
    let mut k: usize = i + 1;
    proof {
        assert forall|w: SyntaxNode| #[trigger] node_at(events@, i as int, w) implies exists|m: int|
            0 <= m <= w.children@.len() && k == i + 1 + events_of_all(w.children@.take(m)).len() by {
            assert(w.children@.take(0) =~= Seq::<SyntaxNode>::empty());
            assert(events_of_all(w.children@.take(0)).len() == 0);
        }
    }
    while k < len && events[k].is_some()
        invariant
            i < k <= events@.len(),
            len == events@.len(),
            events_of_all(children@) == events@.subrange(i + 1, k as int),
            forall|w: SyntaxNode| #[trigger] node_at(events@, i as int, w) ==> exists|m: int|
                0 <= m <= w.children@.len() && k == i + 1 + events_of_all(w.children@.take(m)).len(),
        decreases events@.len() - k,
    {
        let built = build_node(events, k);
        proof {
            assert forall|w: SyntaxNode| #[trigger] node_at(events@, i as int, w) implies built matches Some((c, next))
                && exists|m: int| 0 <= m <= w.children@.len() && next == i + 1 + events_of_all(w.children@.take(m)).len() by {
                let m = choose|m: int| 0 <= m <= w.children@.len() && k == i + 1 + events_of_all(w.children@.take(m)).len();
                lemma_child_at(events@, i as int, w, m);
                if m == w.children@.len() {
                    assert(events@[k as int] is None);
                }
                assert(m < w.children@.len());
                assert(node_at(events@, k as int, w.children@[m]));
                lemma_events_step(w.children@, m);
            }
        }
        match built {
            Some((child, next)) => {
                let ghost before = children@;
                children.push(child);
                proof {
                    assert(children@.drop_last() =~= before);
                    assert(events@.subrange(i + 1, next as int) =~= events@.subrange(i + 1, k as int)
                        + events@.subrange(k as int, next as int));
                }
                k = next;
            },
            None => {
                return None;
            },
        }
    }
    proof {
        assert forall|w: SyntaxNode| #[trigger] node_at(events@, i as int, w) implies k < len && k + 1 == i
            + events_of(w).len() by {
            let m = choose|m: int| 0 <= m <= w.children@.len() && k == i + 1 + events_of_all(w.children@.take(m)).len();
            lemma_child_at(events@, i as int, w, m);
            if m < w.children@.len() {
                assert(events@[k as int] is Some);
            }
        }
    }
    if k < len {
        let n = SyntaxNode { row, children };
        proof {
            assert(events@.subrange(i as int, k + 1) =~= seq![Some(n.row)] + events@.subrange(i + 1, k as int)
                + seq![events@[k as int]]);
        }
        Some((n, k + 1))
    } else {
        None
    }
}

/// The tree whose preorder events are exactly `events`: found whenever the
/// list is the events of some node.
fn tree_of_events(events: &Vec<SyntaxEvent>) -> (r: Option<SyntaxNode>)
    ensures
        r matches Some(n) ==> events_of(n) == events@,
        r is None ==> forall|w: SyntaxNode| events_of(w) != events@,
{
    if events.len() == 0 {
        proof {
            assert forall|w: SyntaxNode| events_of(w) != events@ by {
                assert(events_of(w).len() >= 2);
            }
        }
        return None;
    }
    let built = build_node(events, 0);
    proof {
        assert forall|w: SyntaxNode| events_of(w) == events@ implies #[trigger] node_at(events@, 0, w) by {
            assert(events@.subrange(0, events@.len() as int) =~= events@);
        }
    }
    match built {
        Some((n, j)) => {
            if j == events.len() {
                assert(events@.subrange(0, j as int) =~= events@);
                Some(n)
            } else {
                proof {
                    assert forall|w: SyntaxNode| events_of(w) != events@ by {
                        if events_of(w) == events@ {
                            assert(node_at(events@, 0, w));
                        }
                    }
                }
                None
            }
        },
        None => {
            proof {
                assert forall|w: SyntaxNode| events_of(w) != events@ by {
                    if events_of(w) == events@ {
                        assert(node_at(events@, 0, w));
                    }
                }
            }
            None
        },
    }
}

/// The parsed syntax tree of a Python source text: the tree whose events
/// the grammar parser produced, or nothing when it produced none.
pub fn parse_python(source: &str) -> (r: Option<SyntaxNode>)
    ensures
        r matches Some(n) ==> python_syntax_events(source@) == Some(events_of(n)),
        r is None ==> forall|w: SyntaxNode| python_syntax_events(source@) != Some(events_of(w)),
{
    match parse_tree(source) {
        Some(tree) => tree_of_events(&events_of_tree(&tree)),
        None => None,
    }
}

/// The text of the byte range `[start, end)` of a source, when the range
/// lies within it and on character boundaries.
pub open spec fn slice_text(src: Seq<char>, start: int, end: int) -> Option<Seq<char>> {
    let b = utf8(src);
    if 0 <= start <= end <= b.len() && is_char_boundary(b, start) && is_char_boundary(b, end) {
        Some(decode_utf8(b.subrange(start, end)))
    } else {
        None
    }
}

/// The text of a node.
pub open spec fn node_text(src: Seq<char>, n: SyntaxRow) -> Option<Seq<char>> {
    slice_text(src, n.bytes.start as int, n.bytes.end as int)
}

/// The text of a byte range of a source.
pub fn slice_of(source: &str, start: usize, end: usize) -> (r: Option<String>)
    ensures
        opt_view(r) == slice_text(source@, start as int, end as int),
{
    broadcast use vstd::utf8::encode_utf8_valid_utf8;

    let ghost b = utf8(source@);
    let total = source.as_bytes().len();
    if start <= end && end <= total && source.is_char_boundary(start) && source.is_char_boundary(end) {
        let (head, _) = source.split_at(end);
        proof {
            let h = b.subrange(0, end as int);
            valid_utf8_split(b, end as int);
            assert(head.spec_bytes() =~= h);
            if start < end {
                is_char_boundary_iff_not_is_continuation_byte(b, start as int);
                is_char_boundary_iff_not_is_continuation_byte(h, start as int);
            } else {
                is_char_boundary_start_end_of_seq(h);
            }
        }
        let (_, mid) = head.split_at(start);
        proof {
            assert(mid.spec_bytes() =~= b.subrange(start as int, end as int));
            assert(decode_utf8(mid.spec_bytes()) == mid@);
        }
        Some(mid.to_owned())
    } else {
        None
    }
}

/// The text of a node, read from the source.
pub fn text_of(source: &str, n: &SyntaxRow) -> (r: Option<String>)
    ensures
        opt_view(r) == node_text(source@, *n),
{
    slice_of(source, n.bytes.start, n.bytes.end)
}

/// The whitespace-separated words of a text.
pub open spec fn words(s: Seq<char>) -> Seq<Seq<char>>
    decreases s.len(),
{
    if s.len() == 0 {
        Seq::empty()
    } else {
        let w = words(s.drop_last());
        let c = s.last();
        if is_ws(c) {
            w
        } else if s.len() >= 2 && !is_ws(s[s.len() - 2]) {
            w.drop_last().push(w.last().push(c))
        } else {
            w.push(seq![c])
        }
    }
}

/// Words joined by single spaces.
pub open spec fn spaced(ws: Seq<Seq<char>>) -> Seq<char>
    decreases ws.len(),
{
    if ws.len() == 0 {
        Seq::empty()
    } else if ws.len() == 1 {
        ws[0]
    } else {
        spaced(ws.drop_last()) + seq![' '] + ws.last()
    }
}

/// Whitespace-normalized text: the words joined by single spaces.
pub open spec fn normalized(s: Seq<char>) -> Seq<char> {
    spaced(words(s))
}

proof fn lemma_words_nonempty(s: Seq<char>)
    requires
        s.len() > 0,
        !is_ws(s.last()),
    ensures
        words(s).len() > 0,
{
}

/// Collapse every run of whitespace to one space and trim both ends
/// (`split_whitespace` joined by `" "`).
pub fn normalize_ws(source: &str) -> (r: String)
    ensures
        r@ == normalized(source@),
{
    let cs = chars_of(source);
    let mut ws: Vec<Vec<char>> = Vec::new();
    let mut i: usize = 0;
    while i < cs.len()
        invariant
            i <= cs@.len(),
            cs@ == source@,
            ws@.map_values(|w: Vec<char>| w@) == words(cs@.subrange(0, i as int)),
        decreases cs.len() - i,
    {
        let c = cs[i];
        let ghost pre = cs@.subrange(0, i as int);
        let ghost cur = cs@.subrange(0, i + 1);
        proof {
            assert(cur.drop_last() =~= pre);
            assert(cur.last() == c);
        }
        if char_is_ws(c) {
        } else if i >= 1 && !char_is_ws(cs[i - 1]) {
            proof {
                assert(cur[cur.len() - 2] == pre.last());
                lemma_words_nonempty(pre);
            }
            let mut last = ws.pop().unwrap();
            last.push(c);
            ws.push(last);
            proof {
                assert(ws@.map_values(|w: Vec<char>| w@) =~= words(pre).drop_last().push(words(pre).last().push(c)));
            }
        } else {
            proof {
                if i >= 1 {
                    assert(cur[cur.len() - 2] == cs@[i - 1]);
                }
            }
            let mut fresh: Vec<char> = Vec::new();
            fresh.push(c);
            ws.push(fresh);
            proof {
                assert(ws@.map_values(|w: Vec<char>| w@) =~= words(pre).push(seq![c]));
            }
        }
        i = i + 1;
    }
    assert(cs@.subrange(0, cs@.len() as int) =~= cs@);
    let ghost all = ws@.map_values(|w: Vec<char>| w@);
    let mut out: Vec<char> = Vec::new();
    let mut k: usize = 0;
    while k < ws.len()
        invariant
            k <= ws@.len(),
            all == ws@.map_values(|w: Vec<char>| w@),
            out@ == spaced(all.subrange(0, k as int)),
        decreases ws.len() - k,
    {
        let ghost pre = all.subrange(0, k as int);
        if k > 0 {
            out.push(' ');
        }
        let mut j: usize = 0;
        let ghost base = out@;
        while j < ws[k].len()
            invariant
                k < ws@.len(),
                j <= ws@[k as int]@.len(),
                all == ws@.map_values(|w: Vec<char>| w@),
                pre == all.subrange(0, k as int),
                base == if k == 0 { spaced(pre) } else { spaced(pre) + seq![' '] },
                out@ == base + ws@[k as int]@.subrange(0, j as int),
            decreases ws@[k as int]@.len() - j,
        {
            out.push(ws[k][j]);
            assert(ws@[k as int]@.subrange(0, j + 1) =~= ws@[k as int]@.subrange(0, j as int).push(ws@[k as int]@[j as int]));
            j = j + 1;
        }
        proof {
            let nxt = all.subrange(0, k + 1);
            assert(nxt.drop_last() =~= pre);
            assert(ws@[k as int]@.subrange(0, ws@[k as int]@.len() as int) =~= ws@[k as int]@);
            if k == 0 {
                assert(out@ =~= nxt[0]);
            } else {
                assert(out@ =~= spaced(pre) + seq![' '] + nxt.last());
            }
        }
        k = k + 1;
    }
    assert(all.subrange(0, ws@.len() as int) =~= all);
    string_of_chars(out.as_slice())
}

} // verus!
