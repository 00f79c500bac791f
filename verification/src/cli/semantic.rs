//! The command-line reevaluation source: syntactic kinds from the program
//! index (proven), callers from a clearly labeled approximate textual
//! resolver. The approximate resolver never claims provenance it does not
//! have: its answers are provisional.
use vstd::prelude::*;

use crate::cli::lexical::{
    after_prefix, has_prefix, lines, lines_of, split_at_char, split_char, split_once, split_once_chars,
    strip_prefix_chars, to_string, trim, trim_chars, trim_start, trim_start_chars,
};
use crate::cli::state::{cli_module_name, module_name};
use crate::engine::redgreen::{Evaluated, ReevaluationSource, TransitionError};
use crate::engine::sources::{eval_value, last_dot, syntactic_answer, SyntacticSource};
use crate::order::{canonical_set, canonical_set_of, views};
use crate::program::model::{join_strings_pub, join_with};
use crate::program::python::{entry_views, PythonSyntaxIndex, UnitModel};
use crate::projection::{subject_text, Projection, ProjectionKind};
use crate::text::{chars_of, push_char, push_str, string_of_chars, utf8};

verus! {

/// The backend label of the approximate textual resolver.
pub const APPROX_BACKEND: &'static str = "cli-textual-approx";

/// The backend label of the syntactic program index.
pub const SYNTAX_BACKEND: &'static str = "trellis-program-syntax";

/// One call candidate on a line.
#[derive(Debug, PartialEq, Eq)]
pub enum CallExpr {
    /// `name(`.
    Name(String),
    /// `alias.attr(`.
    Attribute(String, String),
}

/// What a call candidate records.
pub enum CallModel {
    /// `name(`.
    Name(Seq<char>),
    /// `alias.attr(`.
    Attribute(Seq<char>, Seq<char>),
}

/// The model of a call candidate.
pub open spec fn call_view(c: CallExpr) -> CallModel {
    match c {
        CallExpr::Name(n) => CallModel::Name(n@),
        CallExpr::Attribute(a, t) => CallModel::Attribute(a@, t@),
    }
}

/// The models of call candidates.
pub open spec fn calls_view(v: Seq<CallExpr>) -> Seq<CallModel> {
    v.map_values(|c: CallExpr| call_view(c))
}

/// An ASCII letter or `_`.
pub open spec fn ident_start(c: u8) -> bool {
    (65 <= c <= 90) || (97 <= c <= 122) || c == 95
}

/// An ASCII letter, digit or `_`.
pub open spec fn ident_byte(c: u8) -> bool {
    ident_start(c) || (48 <= c <= 57)
}

/// The end of the identifier bytes starting at `i`.
pub open spec fn ident_end(b: Seq<u8>, i: int) -> int
    decreases b.len() - i,
{
    if i < 0 || i >= b.len() || !ident_byte(b[i]) {
        i
    } else {
        ident_end(b, i + 1)
    }
}

/// The first position at or after `i` that is not a space.
pub open spec fn skip_spaces(b: Seq<u8>, i: int) -> int
    decreases b.len() - i,
{
    if i < 0 || i >= b.len() || b[i] != 32 {
        i
    } else {
        skip_spaces(b, i + 1)
    }
}

/// ASCII bytes as characters.
pub open spec fn ascii_text(b: Seq<u8>) -> Seq<char> {
    b.map_values(|x: u8| x as char)
}

/// The call candidate the identifier at `[i, e)` starts: `ident(` is a
/// call by name; `ident.attr(` a call through an attribute.
pub open spec fn call_at(b: Seq<u8>, i: int, e: int) -> Seq<CallModel> {
    let j = skip_spaces(b, e);
    if j < b.len() && b[j] == 40 {
        seq![CallModel::Name(ascii_text(b.subrange(i, e)))]
    } else if j < b.len() && b[j] == 46 {
        let k = ident_end(b, j + 1);
        let m = skip_spaces(b, k);
        if k > j + 1 && m < b.len() && b[m] == 40 {
            seq![CallModel::Attribute(ascii_text(b.subrange(i, e)), ascii_text(b.subrange(j + 1, k)))]
        } else {
            Seq::empty()
        }
    } else {
        Seq::empty()
    }
}

pub proof fn lemma_ident_end(b: Seq<u8>, i: int)
    requires
        0 <= i <= b.len(),
    ensures
        i <= ident_end(b, i) <= b.len(),
        forall|k: int| i <= k < ident_end(b, i) ==> ident_byte(#[trigger] b[k]),
        ident_end(b, i) < b.len() ==> !ident_byte(b[ident_end(b, i)]),
    decreases b.len() - i,
{
    if i < b.len() && ident_byte(b[i]) {
        lemma_ident_end(b, i + 1);
    }
}

pub proof fn lemma_skip_spaces(b: Seq<u8>, i: int)
    requires
        0 <= i <= b.len(),
    ensures
        i <= skip_spaces(b, i) <= b.len(),
    decreases b.len() - i,
{
    if i < b.len() && b[i] == 32 {
        lemma_skip_spaces(b, i + 1);
    }
}

/// The call candidates of a line's bytes, scanning from `i`.
pub open spec fn scan_from(b: Seq<u8>, i: int) -> Seq<CallModel>
    decreases b.len() - i,
{
    if i < 0 || i >= b.len() {
        Seq::empty()
    } else if ident_start(b[i]) {
        let e = ident_end(b, i);
        proof {
            lemma_ident_end(b, i);
            lemma_ident_end(b, i + 1);
        }
        call_at(b, i, e) + scan_from(b, e)
    } else {
        scan_from(b, i + 1)
    }
}

fn is_ident_start(c: u8) -> (r: bool)
    ensures
        r == ident_start(c),
{
    (65 <= c && c <= 90) || (97 <= c && c <= 122) || c == 95
}

fn is_ident_byte(c: u8) -> (r: bool)
    ensures
        r == ident_byte(c),
{
    is_ident_start(c) || (48 <= c && c <= 57)
}

fn ident_end_exec(b: &[u8], i: usize) -> (r: usize)
    requires
        i <= b@.len(),
    ensures
        r == ident_end(b@, i as int),
        i <= r <= b@.len(),
{
    let mut k = i;
    while k < b.len() && is_ident_byte(b[k])
        invariant
            i <= k <= b@.len(),
            ident_end(b@, i as int) == ident_end(b@, k as int),
        decreases b.len() - k,
    {
        k = k + 1;
    }
    k
}

fn skip_spaces_exec(b: &[u8], i: usize) -> (r: usize)
    requires
        i <= b@.len(),
    ensures
        r == skip_spaces(b@, i as int),
        i <= r <= b@.len(),
{
    let mut k = i;
    while k < b.len() && b[k] == 32
        invariant
            i <= k <= b@.len(),
            skip_spaces(b@, i as int) == skip_spaces(b@, k as int),
        decreases b.len() - k,
    {
        k = k + 1;
    }
    k
}

fn ascii_string(b: &[u8], from: usize, to: usize) -> (r: String)
    requires
        from <= to <= b@.len(),
    ensures
        r@ == ascii_text(b@.subrange(from as int, to as int)),
{
    let mut s = String::new();
    let mut i = from;
    while i < to
        invariant
            from <= i <= to <= b@.len(),
            s@ == ascii_text(b@.subrange(from as int, i as int)),
        decreases to - i,
    {
        push_char(&mut s, b[i] as char);
        assert(ascii_text(b@.subrange(from as int, i + 1)) =~= ascii_text(b@.subrange(from as int, i as int)).push(
            b@[i as int] as char,
        ));
        i = i + 1;
    }
    s
}

/// The call candidates on a line: each identifier followed (after spaces)
/// by `(`, or by `.attr` and then `(`.
pub fn scan_calls(line: &str) -> (r: Vec<CallExpr>)
    ensures
        calls_view(r@) == scan_from(utf8(line@), 0),
{
    let bytes = line.as_bytes();
    let ghost b = bytes@;
    let mut calls: Vec<CallExpr> = Vec::new();
    let mut i: usize = 0;
    while i < bytes.len()
        invariant
            i <= b.len(),
            b == bytes@,
            b == utf8(line@),
            scan_from(b, 0) == calls_view(calls@) + scan_from(b, i as int),
        decreases bytes.len() - i,
    {
        let c = bytes[i];
        if is_ident_start(c) {
            let start = i;
            let e = ident_end_exec(bytes, i);
            let j = skip_spaces_exec(bytes, e);
            let ghost before = calls_view(calls@);
            proof {
                lemma_ident_end(b, i as int);
            }
            if j < bytes.len() && bytes[j] == 40 {
                let ident = ascii_string(bytes, start, e);
                calls.push(CallExpr::Name(ident));
                assert(calls_view(calls@) =~= before + call_at(b, start as int, e as int));
            } else if j < bytes.len() && bytes[j] == 46 {
                let k = ident_end_exec(bytes, j + 1);
                let m = skip_spaces_exec(bytes, k);
                if k > j + 1 && m < bytes.len() && bytes[m] == 40 {
                    let ident = ascii_string(bytes, start, e);
                    let attr = ascii_string(bytes, j + 1, k);
                    calls.push(CallExpr::Attribute(ident, attr));
                    assert(calls_view(calls@) =~= before + call_at(b, start as int, e as int));
                } else {
                    assert(calls_view(calls@) =~= before + call_at(b, start as int, e as int));
                }
            } else {
                assert(calls_view(calls@) =~= before + call_at(b, start as int, e as int));
            }
            i = e;
        } else {
            i = i + 1;
        }
    }
    assert(calls_view(calls@) =~= calls_view(calls@) + Seq::<CallModel>::empty());
    calls
}

/// The number of leading dots.
pub open spec fn leading_dots(s: Seq<char>) -> nat
    decreases s.len(),
{
    if s.len() == 0 || s[0] != '.' {
        0
    } else {
        1 + leading_dots(s.drop_first())
    }
}

proof fn lemma_leading_dots(s: Seq<char>)
    ensures
        leading_dots(s) <= s.len(),
    decreases s.len(),
{
    if s.len() > 0 && s[0] == '.' {
        lemma_leading_dots(s.drop_first());
    }
}

/// The absolute module a `from <base> import` names from the current
/// module: absolute bases stand as written; `n` leading dots keep the
/// current package minus `n - 1` levels, then the rest of the base.
pub open spec fn from_import_base(current: Seq<char>, base: Seq<char>) -> Seq<char> {
    let dots = leading_dots(base);
    if dots == 0 {
        base
    } else {
        let rest = base.subrange(dots as int, base.len() as int);
        let comps = split_char(current, '.');
        let package_len: int = if comps.len() >= 1 { comps.len() - 1 } else { 0 };
        let up: int = dots - 1;
        let keep: int = if package_len >= up { package_len - up } else { 0 };
        join_with(
            comps.subrange(0, keep) + if rest.len() > 0 { split_char(rest, '.') } else { Seq::empty() },
            "."@,
        )
    }
}

fn join_parts(parts: &Vec<Vec<char>>, sep: &str) -> (r: String)
    ensures
        r@ == join_with(parts@.map_values(|p: Vec<char>| p@), sep@),
{
    let mut strs: Vec<String> = Vec::new();
    let mut i: usize = 0;
    while i < parts.len()
        invariant
            i <= parts@.len(),
            views(strs@) == parts@.subrange(0, i as int).map_values(|p: Vec<char>| p@),
        decreases parts.len() - i,
    {
        let ghost pre = strs@;
        let s = to_string(&parts[i]);
        strs.push(s);
        proof {
            crate::order::lemma_views_push(pre, s);
            assert(parts@.subrange(0, i + 1).map_values(|p: Vec<char>| p@) =~= parts@.subrange(0, i as int).map_values(
                |p: Vec<char>| p@,
            ).push(parts@[i as int]@));
        }
        i = i + 1;
    }
    assert(parts@.subrange(0, parts@.len() as int) =~= parts@);
    join_strings_pub(&strs, sep)
}

/// `from X import n` base resolution, relative imports included.
pub fn resolve_from_import(current_module: &str, base: &str) -> (r: String)
    ensures
        r@ == from_import_base(current_module@, base@),
{
    let bc = chars_of(base);
    let mut dots: usize = 0;
    proof {
        assert(bc@.subrange(0, bc@.len() as int) =~= bc@);
    }
    while dots < bc.len() && bc[dots] == '.'
        invariant
            dots <= bc@.len(),
            bc@ == base@,
            leading_dots(base@) == dots + leading_dots(bc@.subrange(dots as int, bc@.len() as int)),
        decreases bc.len() - dots,
    {
        proof {
            assert(bc@.subrange(dots as int, bc@.len() as int).drop_first() =~= bc@.subrange(dots + 1, bc@.len() as int));
        }
        dots = dots + 1;
    }
    if dots == 0 {
        return crate::text::owned(base);
    }
    let rest = crate::cli::lexical::slice_chars(&bc, dots, bc.len());
    let cur = chars_of(current_module);
    let comps = split_at_char(&cur, '.');
    let ghost cv = comps@.map_values(|p: Vec<char>| p@);
    let package_len: usize = if comps.len() >= 1 { comps.len() - 1 } else { 0 };
    let up: usize = dots - 1;
    let keep: usize = if package_len >= up { package_len - up } else { 0 };
    let mut resolved: Vec<Vec<char>> = Vec::new();
    let mut i: usize = 0;
    while i < keep
        invariant
            i <= keep <= comps@.len(),
            cv == comps@.map_values(|p: Vec<char>| p@),
            resolved@.map_values(|p: Vec<char>| p@) == cv.subrange(0, i as int),
        decreases keep - i,
    {
        let ghost pre = resolved@.map_values(|p: Vec<char>| p@);
        resolved.push(crate::cli::lexical::copy_chars(&comps[i]));
        assert(resolved@.map_values(|p: Vec<char>| p@) =~= pre.push(cv[i as int]));
        assert(cv.subrange(0, i + 1) =~= cv.subrange(0, i as int).push(cv[i as int]));
        i = i + 1;
    }
    let ghost kept = resolved@.map_values(|p: Vec<char>| p@);
    if rest.len() > 0 {
        let more = split_at_char(&rest, '.');
        let ghost mv = more@.map_values(|p: Vec<char>| p@);
        let mut k: usize = 0;
        while k < more.len()
            invariant
                k <= more@.len(),
                mv == more@.map_values(|p: Vec<char>| p@),
                resolved@.map_values(|p: Vec<char>| p@) == kept + mv.subrange(0, k as int),
            decreases more.len() - k,
        {
            let ghost pre = resolved@.map_values(|p: Vec<char>| p@);
            resolved.push(crate::cli::lexical::copy_chars(&more[k]));
            assert(resolved@.map_values(|p: Vec<char>| p@) =~= pre.push(mv[k as int]));
            assert(mv.subrange(0, k + 1) =~= mv.subrange(0, k as int).push(mv[k as int]));
            k = k + 1;
        }
        assert(mv.subrange(0, more@.len() as int) =~= mv);
    } else {
        assert(resolved@.map_values(|p: Vec<char>| p@) =~= kept + Seq::<Seq<char>>::empty());
    }
    proof {
        lemma_leading_dots(base@);
        assert(bc@.subrange(dots as int, bc@.len() as int) =~= Seq::<char>::empty() || bc@[dots as int] != '.');
    }
    join_parts(&resolved, ".")
}

/// A `(name, binding)` from one imported item: `n as a` binds `a` to `n`;
/// a bare item binds itself.
pub open spec fn item_parts(x: Seq<char>) -> (Seq<char>, Seq<char>) {
    let item = trim(x);
    match split_once(item, " as "@) {
        Some((n, a)) => (trim(n), trim(a)),
        None => (item, item),
    }
}

/// The bindings of `from <absolute> import <items>`: each binding to
/// `<absolute>.<name>`.
pub open spec fn from_bindings(items: Seq<Seq<char>>, absolute: Seq<char>) -> Seq<(Seq<char>, Seq<char>)>
    decreases items.len(),
{
    if items.len() == 0 {
        Seq::empty()
    } else {
        let (n, b) = item_parts(items.last());
        from_bindings(items.drop_last(), absolute).push((b, absolute + "."@ + n))
    }
}

/// The bindings of `import <items>`: each binding to its target.
pub open spec fn import_bindings(items: Seq<Seq<char>>) -> Seq<(Seq<char>, Seq<char>)>
    decreases items.len(),
{
    if items.len() == 0 {
        Seq::empty()
    } else {
        let (t, b) = item_parts(items.last());
        import_bindings(items.drop_last()).push((b, t))
    }
}

/// The bindings one line introduces, as `(binding, target)`.
pub open spec fn line_bindings(line: Seq<char>, module: Seq<char>) -> Seq<(Seq<char>, Seq<char>)> {
    let l = trim(line);
    match after_prefix(l, "from "@) {
        Some(rest) => match split_once(rest, " import "@) {
            None => Seq::empty(),
            Some((base, names)) => from_bindings(split_char(names, ','), from_import_base(module, trim(base))),
        },
        None => match after_prefix(l, "import "@) {
            Some(rest) => import_bindings(split_char(rest, ',')),
            None => Seq::empty(),
        },
    }
}

/// The bindings a file's lines introduce, in order.
pub open spec fn file_bindings(ls: Seq<Seq<char>>, module: Seq<char>) -> Seq<(Seq<char>, Seq<char>)>
    decreases ls.len(),
{
    if ls.len() == 0 {
        Seq::empty()
    } else {
        file_bindings(ls.drop_last(), module) + line_bindings(ls.last(), module)
    }
}

/// What a local name is bound to: the last binding of that name wins.
pub open spec fn binding_of(bs: Seq<(Seq<char>, Seq<char>)>, name: Seq<char>) -> Option<Seq<char>>
    decreases bs.len(),
{
    if bs.len() == 0 {
        None
    } else if bs.last().0 == name {
        Some(bs.last().1)
    } else {
        binding_of(bs.drop_last(), name)
    }
}

/// The content of the first entry with the path.
pub open spec fn tree_lookup(entries: Seq<(Seq<char>, Seq<char>)>, path: Seq<char>) -> Option<Seq<char>>
    decreases entries.len(),
{
    if entries.len() == 0 {
        None
    } else if entries[0].0 == path {
        Some(entries[0].1)
    } else {
        tree_lookup(entries.drop_first(), path)
    }
}

fn push_binding(out: &mut Vec<(String, String)>, binding: String, target: String)
    ensures
        views(final(out)@) == views(old(out)@).push((binding@, target@)),
{
    let ghost pre = out@;
    let e = (binding, target);
    out.push(e);
    proof {
        crate::order::lemma_views_push(pre, e);
    }
}

fn item_parts_exec(x: &Vec<char>) -> (r: (String, String))
    ensures
        (r.0@, r.1@) == item_parts(x@),
{
    let item = trim_chars(x);
    match split_once_chars(&item, " as ") {
        Some((n, a)) => (to_string(&trim_chars(&n)), to_string(&trim_chars(&a))),
        None => (to_string(&item), to_string(&item)),
    }
}

fn line_bindings_exec(line: &Vec<char>, module: &str, out: &mut Vec<(String, String)>)
    ensures
        views(final(out)@) == views(old(out)@) + line_bindings(line@, module@),
{
    let l = trim_chars(line);
    match strip_prefix_chars(&l, "from ") {
        Some(rest) => {
            match split_once_chars(&rest, " import ") {
                None => {
                    assert(views(out@) =~= views(old(out)@) + Seq::<(Seq<char>, Seq<char>)>::empty());
                },
                Some((base, names)) => {
                    let absolute = resolve_from_import(module, to_string(&trim_chars(&base)).as_str());
                    let items = split_at_char(&names, ',');
                    let ghost iv = items@.map_values(|p: Vec<char>| p@);
                    let ghost start = views(out@);
                    let mut i: usize = 0;
                    while i < items.len()
                        invariant
                            i <= items@.len(),
                            iv == items@.map_values(|p: Vec<char>| p@),
                            start == views(old(out)@),
                            views(out@) == start + from_bindings(iv.subrange(0, i as int), absolute@),
                        decreases items.len() - i,
                    {
                        let (n, b) = item_parts_exec(&items[i]);
                        let mut target = String::new();
                        push_str(&mut target, absolute.as_str());
                        push_str(&mut target, ".");
                        push_str(&mut target, n.as_str());
                        proof {
                            let nxt = iv.subrange(0, i + 1);
                            assert(nxt.drop_last() =~= iv.subrange(0, i as int));
                            assert(nxt.last() == items@[i as int]@);
                        }
                        push_binding(out, b, target);
                        i = i + 1;
                    }
                    assert(iv.subrange(0, items@.len() as int) =~= iv);
                },
            }
        },
        None => {
            match strip_prefix_chars(&l, "import ") {
                Some(rest) => {
                    let items = split_at_char(&rest, ',');
                    let ghost iv = items@.map_values(|p: Vec<char>| p@);
                    let ghost start = views(out@);
                    let mut i: usize = 0;
                    while i < items.len()
                        invariant
                            i <= items@.len(),
                            iv == items@.map_values(|p: Vec<char>| p@),
                            start == views(old(out)@),
                            views(out@) == start + import_bindings(iv.subrange(0, i as int)),
                        decreases items.len() - i,
                    {
                        let (t, b) = item_parts_exec(&items[i]);
                        proof {
                            let nxt = iv.subrange(0, i + 1);
                            assert(nxt.drop_last() =~= iv.subrange(0, i as int));
                            assert(nxt.last() == items@[i as int]@);
                        }
                        push_binding(out, b, t);
                        i = i + 1;
                    }
                    assert(iv.subrange(0, items@.len() as int) =~= iv);
                },
                None => {
                    assert(views(out@) =~= views(old(out)@) + Seq::<(Seq<char>, Seq<char>)>::empty());
                },
            }
        },
    }
}

fn content_bindings(content: &str, module: &str) -> (r: Vec<(String, String)>)
    ensures
        views(r@) == file_bindings(lines_of(content@), module@),
{
    let ls = lines(content);
    let ghost lv = ls@.map_values(|p: Vec<char>| p@);
    let mut out: Vec<(String, String)> = Vec::new();
    let mut i: usize = 0;
    assert(views(out@) =~= Seq::<(Seq<char>, Seq<char>)>::empty());
    while i < ls.len()
        invariant
            i <= ls@.len(),
            lv == ls@.map_values(|p: Vec<char>| p@),
            views(out@) == file_bindings(lv.subrange(0, i as int), module@),
        decreases ls.len() - i,
    {
        line_bindings_exec(&ls[i], module, &mut out);
        proof {
            let nxt = lv.subrange(0, i + 1);
            assert(nxt.drop_last() =~= lv.subrange(0, i as int));
            assert(nxt.last() == ls@[i as int]@);
        }
        i = i + 1;
    }
    assert(lv.subrange(0, ls@.len() as int) =~= lv);
    out
}

pub(crate) fn lookup_content<'a>(tree: &'a [(String, String)], path: &str) -> (r: Option<&'a String>)
    ensures
        match tree_lookup(entry_views(tree@), path@) {
            Some(c) => r matches Some(s) && s@ == c,
            None => r is None,
        },
{
    let ghost ev = entry_views(tree@);
    let mut i: usize = 0;
    assert(ev.subrange(0, ev.len() as int) =~= ev);
    while i < tree.len()
        invariant
            i <= tree@.len(),
            ev == entry_views(tree@),
            tree_lookup(ev, path@) == tree_lookup(ev.subrange(i as int, ev.len() as int), path@),
        decreases tree.len() - i,
    {
        let ghost rest = ev.subrange(i as int, ev.len() as int);
        assert(rest.drop_first() =~= ev.subrange(i + 1, ev.len() as int));
        assert(rest[0] == (tree@[i as int].0@, tree@[i as int].1@));
        if crate::text::str_eq(tree[i].0.as_str(), path) {
            return Some(&tree[i].1);
        }
        i = i + 1;
    }
    None
}

/// Import bindings of one file, as `(local name, dotted target)` in the
/// order the lines introduce them (a later binding of a name replaces an
/// earlier one: see [`binding_of`]).
pub fn bindings_for(tree: &[(String, String)], path: &str, module: &str) -> (r: Vec<(String, String)>)
    ensures
        views(r@) == match tree_lookup(entry_views(tree@), path@) {
            Some(content) => file_bindings(lines_of(content), module@),
            None => Seq::empty(),
        },
{
    match lookup_content(tree, path) {
        Some(content) => content_bindings(content.as_str(), module),
        None => Vec::new(),
    }
}

/// The scan state over a file's lines: open scopes (indent, name) and the
/// call sites found so far.
pub struct SiteState {
    /// Open `def`/`class` scopes, outermost first.
    pub scopes: Seq<(int, Seq<char>)>,
    /// (enclosing dotted scope, call candidates) per scanned line.
    pub sites: Seq<(Option<Seq<char>>, Seq<CallModel>)>,
}

/// Scopes closed by a line at the given indentation removed.
pub open spec fn pop_scopes(sc: Seq<(int, Seq<char>)>, indent: int) -> Seq<(int, Seq<char>)>
    decreases sc.len(),
{
    if sc.len() > 0 && sc.last().0 >= indent {
        pop_scopes(sc.drop_last(), indent)
    } else {
        sc
    }
}

/// The name a `def`/`class` header declares: the text before the first
/// `(`, trimmed.
pub open spec fn header_name(rest: Seq<char>) -> Seq<char> {
    trim(split_char(rest, '(')[0])
}

/// The byte width of a line's indentation.
pub open spec fn indent_of(line: Seq<char>) -> int {
    utf8(line).len() - utf8(trim_start(line)).len()
}

/// The scan state after one more line.
pub open spec fn site_step(st: SiteState, line: Seq<char>) -> SiteState {
    let indent = indent_of(line);
    let sc = pop_scopes(st.scopes, indent);
    let t = trim(line);
    match after_prefix(t, "def "@) {
        Some(rest) => SiteState { scopes: sc.push((indent, header_name(rest))), sites: st.sites },
        None => match after_prefix(t, "class "@) {
            Some(rest) => SiteState { scopes: sc.push((indent, header_name(rest))), sites: st.sites },
            None => if has_prefix(t, "from "@) || has_prefix(t, "import "@) {
                SiteState { scopes: sc, sites: st.sites }
            } else {
                SiteState {
                    scopes: sc,
                    sites: st.sites.push(
                        (
                            if sc.len() == 0 {
                                None
                            } else {
                                Some(join_with(sc.map_values(|x: (int, Seq<char>)| x.1), "."@))
                            },
                            scan_from(utf8(line), 0),
                        ),
                    ),
                }
            },
        },
    }
}

/// The scan state after the lines.
pub open spec fn sites_state(ls: Seq<Seq<char>>) -> SiteState
    decreases ls.len(),
{
    if ls.len() == 0 {
        SiteState { scopes: Seq::empty(), sites: Seq::empty() }
    } else {
        site_step(sites_state(ls.drop_last()), ls.last())
    }
}

/// The view of a call site.
pub open spec fn site_view(s: (Option<String>, Vec<CallExpr>)) -> (Option<Seq<char>>, Seq<CallModel>) {
    (crate::artifact::opt_view(s.0), calls_view(s.1@))
}

/// The views of call sites.
pub open spec fn sites_view(v: Seq<(Option<String>, Vec<CallExpr>)>) -> Seq<(Option<Seq<char>>, Seq<CallModel>)> {
    v.map_values(|s: (Option<String>, Vec<CallExpr>)| site_view(s))
}

fn scope_names(scopes: &Vec<(usize, String)>) -> (r: String)
    ensures
        r@ == join_with(scopes@.map_values(|x: (usize, String)| x.1@), "."@),
{
    let mut names: Vec<String> = Vec::new();
    let mut i: usize = 0;
    while i < scopes.len()
        invariant
            i <= scopes@.len(),
            views(names@) == scopes@.subrange(0, i as int).map_values(|x: (usize, String)| x.1@),
        decreases scopes.len() - i,
    {
        let ghost pre = names@;
        let n = scopes[i].1.clone();
        names.push(n);
        proof {
            crate::order::lemma_views_push(pre, n);
            assert(scopes@.subrange(0, i + 1).map_values(|x: (usize, String)| x.1@) =~= scopes@.subrange(0, i as int).map_values(
                |x: (usize, String)| x.1@,
            ).push(scopes@[i as int].1@));
        }
        i = i + 1;
    }
    assert(scopes@.subrange(0, scopes@.len() as int) =~= scopes@);
    join_strings_pub(&names, ".")
}

/// The model of the exec scope stack.
pub open spec fn scopes_view(v: Seq<(usize, String)>) -> Seq<(int, Seq<char>)> {
    v.map_values(|x: (usize, String)| (x.0 as int, x.1@))
}

fn content_sites(content: &str) -> (r: Vec<(Option<String>, Vec<CallExpr>)>)
    ensures
        sites_view(r@) == sites_state(lines_of(content@)).sites,
{
    let ls = lines(content);
    let ghost lv = ls@.map_values(|p: Vec<char>| p@);
    let mut sites: Vec<(Option<String>, Vec<CallExpr>)> = Vec::new();
    let mut scopes: Vec<(usize, String)> = Vec::new();
    let mut i: usize = 0;
    proof {
        assert(sites_view(sites@) =~= Seq::<(Option<Seq<char>>, Seq<CallModel>)>::empty());
        assert(scopes_view(scopes@) =~= Seq::<(int, Seq<char>)>::empty());
    }
    while i < ls.len()
        invariant
            i <= ls@.len(),
            lv == ls@.map_values(|p: Vec<char>| p@),
            sites_view(sites@) == sites_state(lv.subrange(0, i as int)).sites,
            scopes_view(scopes@) == sites_state(lv.subrange(0, i as int)).scopes,
        decreases ls.len() - i,
    {
        let ghost st = sites_state(lv.subrange(0, i as int));
        proof {
            let nxt = lv.subrange(0, i + 1);
            assert(nxt.drop_last() =~= lv.subrange(0, i as int));
            assert(nxt.last() == ls@[i as int]@);
        }
        let line = &ls[i];
        let line_text = to_string(line);
        let ts = trim_start_chars(line);
        let ts_text = to_string(&ts);
        let full = line_text.as_str().as_bytes().len();
        let part = ts_text.as_str().as_bytes().len();
        proof {
            crate::cli::lexical::lemma_trim_start_bytes(line@);
        }
        let indent: usize = full - part;
        let ghost sc0 = scopes_view(scopes@);
        while scopes.len() > 0 && scopes[scopes.len() - 1].0 >= indent
            invariant
                pop_scopes(sc0, indent as int) == pop_scopes(scopes_view(scopes@), indent as int),
            decreases scopes.len(),
        {
            let ghost before = scopes_view(scopes@);
            scopes.pop();
            proof {
                assert(scopes_view(scopes@) =~= before.drop_last());
            }
        }
        let ghost sc = scopes_view(scopes@);
        assert(sc == pop_scopes(sc0, indent as int));
        let t = trim_chars(line);
        match strip_prefix_chars(&t, "def ") {
            Some(rest) => {
                let parts = split_at_char(&rest, '(');
                proof {
                    crate::cli::lexical::lemma_split_len(rest@, '(');
                }
                let name = to_string(&trim_chars(&parts[0]));
                let ghost nm = name@;
                scopes.push((indent, name));
                assert(scopes_view(scopes@) =~= sc.push((indent as int, nm)));
            },
            None => {
                match strip_prefix_chars(&t, "class ") {
                    Some(rest) => {
                        let parts = split_at_char(&rest, '(');
                        proof {
                            crate::cli::lexical::lemma_split_len(rest@, '(');
                        }
                        let name = to_string(&trim_chars(&parts[0]));
                        let ghost nm = name@;
                        scopes.push((indent, name));
                        assert(scopes_view(scopes@) =~= sc.push((indent as int, nm)));
                    },
                    None => {
                        let is_from = strip_prefix_chars(&t, "from ").is_some();
                        let is_import = strip_prefix_chars(&t, "import ").is_some();
                        if !(is_from || is_import) {
                            let scope = if scopes.len() == 0 {
                                None
                            } else {
                                Some(scope_names(&scopes))
                            };
                            let calls = scan_calls(line_text.as_str());
                            let ghost pre = sites_view(sites@);
                            let site = (scope, calls);
                            sites.push(site);
                            proof {
                                assert(sites_view(sites@) =~= pre.push(site_view(site)));
                                if scopes@.len() > 0 {
                                    assert(scopes@.map_values(|x: (usize, String)| x.1@) =~= sc.map_values(|x: (int, Seq<char>)| x.1));
                                }
                            }
                        }
                    },
                }
            },
        }
        i = i + 1;
    }
    assert(lv.subrange(0, ls@.len() as int) =~= lv);
    sites
}

/// (enclosing dotted scope, call candidates) per non-import line of a
/// file: scopes open at `def`/`class` headers and close at the first later
/// line indented no deeper.
pub fn call_sites(tree: &[(String, String)], path: &str) -> (r: Vec<(Option<String>, Vec<CallExpr>)>)
    ensures
        sites_view(r@) == match tree_lookup(entry_views(tree@), path@) {
            Some(content) => sites_state(lines_of(content)).sites,
            None => Seq::empty(),
        },
{
    match lookup_content(tree, path) {
        Some(content) => content_sites(content.as_str()),
        None => Vec::new(),
    }
}

/// The module part of a dotted subject (before its last `.`; empty when
/// it has none).
pub open spec fn subject_module(s: Seq<char>) -> Seq<char> {
    let k = last_dot(s);
    if k < 0 {
        Seq::empty()
    } else {
        s.subrange(0, k)
    }
}

/// The function part of a dotted subject (after its last `.`; the whole
/// subject when it has none).
pub open spec fn subject_function(s: Seq<char>) -> Seq<char> {
    let k = last_dot(s);
    if k < 0 {
        s
    } else {
        s.subrange(k + 1, s.len() as int)
    }
}

/// The caller member one call contributes: the member when the call
/// resolves (through the file's bindings) to the subject.
pub open spec fn call_member(call: CallModel, bs: Seq<(Seq<char>, Seq<char>)>, subject: Seq<char>, member: Seq<char>) -> Seq<Seq<char>> {
    match call {
        CallModel::Name(n) => if binding_of(bs, n) == Some(subject) {
            seq![member]
        } else {
            Seq::empty()
        },
        CallModel::Attribute(a, t) => match binding_of(bs, a) {
            Some(x) => if x + "."@ + t == subject {
                seq![member]
            } else {
                Seq::empty()
            },
            None => Seq::empty(),
        },
    }
}

/// The caller members the calls of one site contribute.
pub open spec fn calls_members(calls: Seq<CallModel>, bs: Seq<(Seq<char>, Seq<char>)>, subject: Seq<char>, member: Seq<char>) -> Seq<Seq<char>>
    decreases calls.len(),
{
    if calls.len() == 0 {
        Seq::empty()
    } else {
        calls_members(calls.drop_last(), bs, subject, member) + call_member(calls.last(), bs, subject, member)
    }
}

/// The caller members a file's call sites contribute: sites outside any
/// scope, and the subject's own body, contribute nothing.
pub open spec fn sites_members(
    sites: Seq<(Option<Seq<char>>, Seq<CallModel>)>,
    module: Seq<char>,
    bs: Seq<(Seq<char>, Seq<char>)>,
    subject: Seq<char>,
) -> Seq<Seq<char>>
    decreases sites.len(),
{
    if sites.len() == 0 {
        Seq::empty()
    } else {
        let site = sites.last();
        sites_members(sites.drop_last(), module, bs, subject) + match site.0 {
            None => Seq::empty(),
            Some(sc) => if module == subject_module(subject) && sc == subject_function(subject) {
                Seq::empty()
            } else {
                calls_members(site.1, bs, subject, module + "."@ + sc)
            },
        }
    }
}

/// The approximate caller members over a tree's files, in file order.
pub open spec fn approx_members(entries: Seq<(Seq<char>, Seq<char>)>, subject: Seq<char>) -> Seq<Seq<char>>
    decreases entries.len(),
{
    if entries.len() == 0 {
        Seq::empty()
    } else {
        let (path, content) = entries.last();
        let module = cli_module_name(path);
        approx_members(entries.drop_last(), subject) + sites_members(
            sites_state(lines_of(content)).sites,
            module,
            file_bindings(lines_of(content), module),
            subject,
        )
    }
}

fn lookup_binding<'a>(bs: &'a Vec<(String, String)>, name: &str) -> (r: Option<&'a String>)
    ensures
        match binding_of(views(bs@), name@) {
            Some(t) => r matches Some(x) && x@ == t,
            None => r is None,
        },
{
    let ghost bv = views(bs@);
    let mut i: usize = bs.len();
    assert(bv.subrange(0, bv.len() as int) =~= bv);
    while i > 0
        invariant
            i <= bs@.len(),
            bv == views(bs@),
            binding_of(bv, name@) == binding_of(bv.subrange(0, i as int), name@),
        decreases i,
    {
        let ghost pre = bv.subrange(0, i as int);
        assert(pre.drop_last() =~= bv.subrange(0, i - 1));
        assert(pre.last() == (bs@[i - 1].0@, bs@[i - 1].1@));
        if crate::text::str_eq(bs[i - 1].0.as_str(), name) {
            return Some(&bs[i - 1].1);
        }
        i = i - 1;
    }
    None
}

fn split_subject(subject: &str) -> (r: (String, String))
    ensures
        r.0@ == subject_module(subject@),
        r.1@ == subject_function(subject@),
{
    let cs = chars_of(subject);
    let mut i: usize = cs.len();
    while i > 0 && cs[i - 1] != '.'
        invariant
            i <= cs@.len(),
            cs@ == subject@,
            forall|k: int| i <= k < cs@.len() ==> cs@[k] != '.',
        decreases i,
    {
        i = i - 1;
    }
    proof {
        crate::engine::sources::lemma_last_dot(cs@, i as int);
    }
    if i == 0 {
        (String::new(), string_of_chars(cs.as_slice()))
    } else {
        (string_of_chars(&cs.as_slice()[0..i - 1]), string_of_chars(&cs.as_slice()[i..cs.len()]))
    }
}

/// The command-line reevaluation source: syntactic kinds from the program
/// index, callers from the approximate textual resolver over the tree.
pub struct CliSemanticSource<'a> {
    syntactic: SyntacticSource<'a>,
    tree: &'a Vec<(String, String)>,
}

impl<'a> CliSemanticSource<'a> {
    /// Compose the index with the current tree (entries in path order).
    pub fn new(index: &'a PythonSyntaxIndex, tree: &'a Vec<(String, String)>) -> (r: Self)
        ensures
            r.index_view() == *index,
            r.tree_view() == entry_views(tree@),
    {
        CliSemanticSource { syntactic: SyntacticSource::new(index), tree }
    }

    /// The units of the wrapped index.
    pub closed spec fn index_view(&self) -> PythonSyntaxIndex {
        self.syntactic.index_view()
    }

    /// The tree entries.
    pub closed spec fn tree_view(&self) -> Seq<(Seq<char>, Seq<char>)> {
        entry_views(self.tree@)
    }

    /// Approximate callers over the current tree: an import-binding-aware
    /// textual call scan, labeled approximate and never authoritative. The
    /// distinct members in byte order, joined by `; `.
    pub fn approx_callers(&self, subject: &str) -> (r: String)
        ensures
            exists|set: Seq<Seq<char>>|
                canonical_set_of::<String>(set, approx_members(self.tree_view(), subject@)) && r@ == join_with(set, "; "@),
    {
        let (def_module, def_fn) = split_subject(subject);
        let ghost ev = self.tree_view();
        let mut members: Vec<String> = Vec::new();
        let mut i: usize = 0;
        assert(views(members@) =~= Seq::<Seq<char>>::empty());
        while i < self.tree.len()
            invariant
                i <= self.tree@.len(),
                ev == entry_views(self.tree@),
                def_module@ == subject_module(subject@),
                def_fn@ == subject_function(subject@),
                views(members@) == approx_members(ev.subrange(0, i as int), subject@),
            decreases self.tree.len() - i,
        {
            let path = self.tree[i].0.as_str();
            let content = self.tree[i].1.as_str();
            let module = module_name(path);
            let bindings = content_bindings(content, module.as_str());
            let sites = content_sites(content);
            let ghost start = views(members@);
            let ghost sv = sites_view(sites@);
            let same_module = crate::text::str_eq(module.as_str(), def_module.as_str());
            let mut k: usize = 0;
            while k < sites.len()
                invariant
                    k <= sites@.len(),
                    sv == sites_view(sites@),
                    same_module == (module@ == subject_module(subject@)),
                    def_fn@ == subject_function(subject@),
                    views(members@) == start + sites_members(sv.subrange(0, k as int), module@, views(bindings@), subject@),
                decreases sites.len() - k,
            {
                let ghost pre_k = views(members@);
                proof {
                    let nxt = sv.subrange(0, k + 1);
                    assert(nxt.drop_last() =~= sv.subrange(0, k as int));
                    assert(nxt.last() == site_view(sites@[k as int]));
                }
                match &sites[k].0 {
                    None => {
                        assert(views(members@) =~= pre_k + Seq::<Seq<char>>::empty());
                    },
                    Some(scope) => {
                        if same_module && crate::text::str_eq(scope.as_str(), def_fn.as_str()) {
                            assert(views(members@) =~= pre_k + Seq::<Seq<char>>::empty());
                        } else {
                            let mut member = String::new();
                            push_str(&mut member, module.as_str());
                            push_str(&mut member, ".");
                            push_str(&mut member, scope.as_str());
                            let calls = &sites[k].1;
                            let ghost cv = calls_view(calls@);
                            let mut c: usize = 0;
                            while c < calls.len()
                                invariant
                                    c <= calls@.len(),
                                    cv == calls_view(calls@),
                                    views(members@) == pre_k + calls_members(cv.subrange(0, c as int), views(bindings@), subject@, member@),
                                decreases calls.len() - c,
                            {
                                let ghost pre_c = views(members@);
                                proof {
                                    let nxt = cv.subrange(0, c + 1);
                                    assert(nxt.drop_last() =~= cv.subrange(0, c as int));
                                    assert(nxt.last() == call_view(calls@[c as int]));
                                }
                                let hit = match &calls[c] {
                                    CallExpr::Name(name) => match lookup_binding(&bindings, name.as_str()) {
                                        Some(t) => crate::text::str_eq(t.as_str(), subject),
                                        None => false,
                                    },
                                    CallExpr::Attribute(alias, tail) => match lookup_binding(&bindings, alias.as_str()) {
                                        Some(t) => {
                                            let mut full = String::new();
                                            push_str(&mut full, t.as_str());
                                            push_str(&mut full, ".");
                                            push_str(&mut full, tail.as_str());
                                            crate::text::str_eq(full.as_str(), subject)
                                        },
                                        None => false,
                                    },
                                };
                                if hit {
                                    let m = member.clone();
                                    let ghost old_m = members@;
                                    members.push(m);
                                    proof {
                                        crate::order::lemma_views_push(old_m, m);
                                    }
                                } else {
                                    assert(views(members@) =~= pre_c + Seq::<Seq<char>>::empty());
                                }
                                c = c + 1;
                            }
                            assert(cv.subrange(0, calls@.len() as int) =~= cv);
                        }
                    },
                }
                k = k + 1;
            }
            proof {
                assert(sv.subrange(0, sites@.len() as int) =~= sv);
                let nxt = ev.subrange(0, i + 1);
                assert(nxt.drop_last() =~= ev.subrange(0, i as int));
                assert(nxt.last() == (self.tree@[i as int].0@, self.tree@[i as int].1@));
            }
            i = i + 1;
        }
        assert(ev.subrange(0, self.tree@.len() as int) =~= ev);
        let set = canonical_set(members);
        join_strings_pub(&set, "; ")
    }
}

impl<'a> ReevaluationSource for CliSemanticSource<'a> {
    fn evaluate(&self, projection: &Projection) -> (r: Result<Option<Evaluated>, TransitionError>)
        ensures
            r matches Ok(e) && match projection@.kind {
                ProjectionKind::Callers => e matches Some(x) && !x@.1 && exists|set: Seq<Seq<char>>|
                    canonical_set_of::<String>(set, approx_members(self.tree_view(), subject_text(projection@.subject)))
                        && x@.0 == join_with(set, "; "@),
                _ => syntactic_answer(self.index_view(), *projection, eval_value(e)) && (e matches Some(x) ==> x@.1),
            },
    {
        match projection.kind() {
            ProjectionKind::Callers => {
                let v = self.approx_callers(projection.subject().canonical());
                Ok(Some(Evaluated::new(v.as_str(), false)))
            },
            _ => self.syntactic.evaluate(projection),
        }
    }
}

} // verus!
