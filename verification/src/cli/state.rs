//! Command-line state: tree and snapshot identity, module naming, and the
//! sidecar registry mapping artifact keys to stored identities.
use vstd::prelude::*;

use crate::hash::blake3_digest;
use crate::ids::{ContentHash, HashAlgo, SnapshotId};
use crate::json::{member_of, as_text, get_key, json_document, json_get, json_text, json_view, json_views, member_views, parse_json, Json, JsonView};
use crate::order::Ordered;
use crate::program::model::slashes_to_dots;
use crate::program::python::dots_to_slashes;
use crate::text::{chars_end_with, chars_of, ends_with, push_char, push_str, string_of_chars, utf8};

verus! {

/// BLAKE3 identity of a text.
pub fn digest_str(s: &str) -> (r: ContentHash)
    ensures
        r.algo == HashAlgo::Blake3,
        r.digest@ == blake3_digest(utf8(s@)),
{
    ContentHash::compute(HashAlgo::Blake3, s.as_bytes())
}

/// A text without a suffix, when it ends with it.
pub open spec fn without_suffix(s: Seq<char>, suffix: Seq<char>) -> Seq<char> {
    if ends_with(s, suffix) {
        s.subrange(0, s.len() - suffix.len())
    } else {
        s
    }
}

/// The module name of a relative `.py` path: `.py` dropped, a trailing
/// `/__init__` dropped, separators made dots.
pub open spec fn cli_module_name(path: Seq<char>) -> Seq<char> {
    slashes_to_dots(without_suffix(without_suffix(path, ".py"@), "/__init__"@))
}

fn strip_suffix_vec(s: Vec<char>, suffix: &[char]) -> (r: Vec<char>)
    ensures
        r@ == without_suffix(s@, suffix@),
{
    if chars_end_with(&s, suffix) {
        let mut out: Vec<char> = Vec::new();
        let n = s.len() - suffix.len();
        let mut i: usize = 0;
        while i < n
            invariant
                i <= n <= s@.len(),
                out@ == s@.subrange(0, i as int),
            decreases n - i,
        {
            out.push(s[i]);
            assert(s@.subrange(0, i + 1) =~= s@.subrange(0, i as int).push(s@[i as int]));
            i = i + 1;
        }
        out
    } else {
        s
    }
}

/// Canonical module name for a relative `.py` path.
pub fn module_name(path: &str) -> (r: String)
    ensures
        r@ == cli_module_name(path@),
{
    let cs = chars_of(path);
    let py: Vec<char> = vec!['.', 'p', 'y'];
    let init: Vec<char> = vec!['/', '_', '_', 'i', 'n', 'i', 't', '_', '_'];
    proof {
        reveal_strlit(".py");
        reveal_strlit("/__init__");
        assert(py@ =~= ".py"@);
        assert(init@ =~= "/__init__"@);
    }
    let stem = strip_suffix_vec(cs, py.as_slice());
    let stem = strip_suffix_vec(stem, init.as_slice());
    let mut out: Vec<char> = Vec::new();
    let mut i: usize = 0;
    while i < stem.len()
        invariant
            i <= stem@.len(),
            out@ == slashes_to_dots(stem@.subrange(0, i as int)),
        decreases stem.len() - i,
    {
        out.push(if stem[i] == '/' { '.' } else { stem[i] });
        assert(slashes_to_dots(stem@.subrange(0, i + 1)) =~= slashes_to_dots(stem@.subrange(0, i as int)).push(
            if stem@[i as int] == '/' { '.' } else { stem@[i as int] },
        ));
        i = i + 1;
    }
    assert(stem@.subrange(0, stem@.len() as int) =~= stem@);
    string_of_chars(out.as_slice())
}

/// The relative path of a module: dots made separators, `.py` appended.
pub fn module_source_path(module: &str) -> (r: String)
    ensures
        r@ == dots_to_slashes(module@) + ".py"@,
{
    let cs = chars_of(module);
    let mut out: Vec<char> = Vec::new();
    let mut i: usize = 0;
    while i < cs.len()
        invariant
            i <= cs@.len(),
            cs@ == module@,
            out@ == dots_to_slashes(cs@.subrange(0, i as int)),
        decreases cs.len() - i,
    {
        out.push(if cs[i] == '.' { '/' } else { cs[i] });
        assert(dots_to_slashes(cs@.subrange(0, i + 1)) =~= dots_to_slashes(cs@.subrange(0, i as int)).push(
            if cs@[i as int] == '.' { '/' } else { cs@[i as int] },
        ));
        i = i + 1;
    }
    assert(cs@.subrange(0, cs@.len() as int) =~= cs@);
    let mut s = string_of_chars(out.as_slice());
    push_str(&mut s, ".py");
    s
}

/// The canonical tree encoding: `path \0 content \n` per entry, in order.
pub open spec fn tree_encoding(entries: Seq<(Seq<char>, Seq<char>)>) -> Seq<char>
    decreases entries.len(),
{
    if entries.len() == 0 {
        Seq::empty()
    } else {
        tree_encoding(entries.drop_last()) + entries.last().0 + seq!['\0'] + entries.last().1 + seq!['\n']
    }
}

/// The entries can be read back from their encoding: no path holds a NUL
/// or a newline, and no content holds a NUL.
pub open spec fn tree_entries_delimited(entries: Seq<(Seq<char>, Seq<char>)>) -> bool {
    forall|i: int| 0 <= i < entries.len() ==> {
        &&& !(#[trigger] entries[i]).0.contains('\0')
        &&& !entries[i].0.contains('\n')
        &&& !entries[i].1.contains('\0')
    }
}

proof fn lemma_tree_encoding_ends_newline(e: Seq<(Seq<char>, Seq<char>)>)
    requires
        e.len() > 0,
    ensures
        tree_encoding(e).len() > 0,
        tree_encoding(e).last() == '\n',
{
}

/// The canonical tree encoding is injective over delimited entries: equal
/// encodings come from equal entry lists, so distinct trees have distinct
/// snapshot encodings.
pub proof fn lemma_tree_encoding_injective(e1: Seq<(Seq<char>, Seq<char>)>, e2: Seq<(Seq<char>, Seq<char>)>)
    requires
        tree_entries_delimited(e1),
        tree_entries_delimited(e2),
        tree_encoding(e1) == tree_encoding(e2),
    ensures
        e1 == e2,
    decreases e1.len() + e2.len(),
{
    if e1.len() == 0 && e2.len() == 0 {
        assert(e1 =~= e2);
    } else if e1.len() == 0 {
        lemma_tree_encoding_ends_newline(e2);
    } else if e2.len() == 0 {
        lemma_tree_encoding_ends_newline(e1);
    } else {
        let s = tree_encoding(e1);
        let q1 = tree_encoding(e1.drop_last());
        let q2 = tree_encoding(e2.drop_last());
        let (p1, c1) = e1.last();
        let (p2, c2) = e2.last();
        assert(e1.last() == e1[e1.len() - 1]);
        assert(e2.last() == e2[e2.len() - 1]);
        assert(s == q1 + p1 + seq!['\0'] + c1 + seq!['\n']);
        assert(s == q2 + p2 + seq!['\0'] + c2 + seq!['\n']);
        let n = s.len() as int;
        // The contents have equal length: the other NUL would fall inside.
        if c1.len() < c2.len() {
            let k = n - 2 - c1.len();
            assert(s[k] == '\0');
            assert(c2[k - (n - 1 - c2.len())] == s[k]);
            assert(c2.contains('\0'));
        }
        if c2.len() < c1.len() {
            let k = n - 2 - c2.len();
            assert(s[k] == '\0');
            assert(c1[k - (n - 1 - c1.len())] == s[k]);
            assert(c1.contains('\0'));
        }
        assert(c1.len() == c2.len());
        assert(c1 =~= s.subrange(n - 1 - c1.len(), n - 1));
        assert(c2 =~= s.subrange(n - 1 - c2.len(), n - 1));
        let m = n - 2 - c1.len();
        assert(q1 + p1 =~= s.subrange(0, m));
        assert(q2 + p2 =~= s.subrange(0, m));
        let t = s.subrange(0, m);
        // The paths have equal length: the other newline would fall inside.
        if p1.len() < p2.len() {
            assert(q1.len() > 0);
            assert(e1.drop_last().len() > 0);
            lemma_tree_encoding_ends_newline(e1.drop_last());
            let k = q1.len() - 1;
            assert(t[k] == '\n');
            assert(p2[k - q2.len()] == t[k]);
            assert(p2.contains('\n'));
        }
        if p2.len() < p1.len() {
            assert(q2.len() > 0);
            assert(e2.drop_last().len() > 0);
            lemma_tree_encoding_ends_newline(e2.drop_last());
            let k = q2.len() - 1;
            assert(t[k] == '\n');
            assert(p1[k - q1.len()] == t[k]);
            assert(p1.contains('\n'));
        }
        assert(p1.len() == p2.len());
        assert(p1 =~= t.subrange(q1.len() as int, m));
        assert(p2 =~= t.subrange(q2.len() as int, m));
        assert(q1 =~= t.subrange(0, q1.len() as int));
        assert(q2 =~= t.subrange(0, q2.len() as int));
        assert forall|i: int| 0 <= i < e1.drop_last().len() implies {
            &&& !(#[trigger] e1.drop_last()[i]).0.contains('\0')
            &&& !e1.drop_last()[i].0.contains('\n')
            &&& !e1.drop_last()[i].1.contains('\0')
        } by {
            assert(e1.drop_last()[i] == e1[i]);
        }
        assert forall|i: int| 0 <= i < e2.drop_last().len() implies {
            &&& !(#[trigger] e2.drop_last()[i]).0.contains('\0')
            &&& !e2.drop_last()[i].0.contains('\n')
            &&& !e2.drop_last()[i].1.contains('\0')
        } by {
            assert(e2.drop_last()[i] == e2[i]);
        }
        lemma_tree_encoding_injective(e1.drop_last(), e2.drop_last());
        assert(e1 =~= e1.drop_last().push(e1.last()));
        assert(e2 =~= e2.drop_last().push(e2.last()));
    }
}

/// Snapshot identity over the canonical tree encoding of the entries (in
/// the order given: a map's key order).
pub fn snapshot_id_for(tree: &[(String, String)]) -> (r: SnapshotId)
    ensures
        r.0.algo == HashAlgo::Blake3,
        r.0.digest@ == blake3_digest(utf8(tree_encoding(crate::program::python::entry_views(tree@)))),
{
    let ghost ev = crate::program::python::entry_views(tree@);
    let mut canonical = String::new();
    let mut i: usize = 0;
    while i < tree.len()
        invariant
            i <= tree@.len(),
            ev == crate::program::python::entry_views(tree@),
            canonical@ == tree_encoding(ev.subrange(0, i as int)),
        decreases tree.len() - i,
    {
        push_str(&mut canonical, tree[i].0.as_str());
        push_char(&mut canonical, '\0');
        push_str(&mut canonical, tree[i].1.as_str());
        push_char(&mut canonical, '\n');
        proof {
            let nxt = ev.subrange(0, i + 1);
            assert(nxt.drop_last() =~= ev.subrange(0, i as int));
            assert(nxt.last() == (tree@[i as int].0@, tree@[i as int].1@));
        }
        i = i + 1;
    }
    assert(ev.subrange(0, tree@.len() as int) =~= ev);
    SnapshotId::from_hash(digest_str(canonical.as_str()))
}

/// One sidecar registry entry: an artifact's stored identity and kind.
#[derive(Debug, Clone, PartialEq, Eq)]
pub struct ArtifactEntry {
    /// The stored artifact identity.
    pub id: String,
    /// The artifact kind keyword.
    pub kind: String,
}

/// The sidecar registry: artifact keys to stored identities, the last
/// manifest's entries, and the head snapshot.
#[derive(Debug, Clone, PartialEq, Eq)]
pub struct CliState {
    /// Artifact key → stored entry, in key order.
    pub artifacts: Vec<(String, ArtifactEntry)>,
    /// `(path, digest)` entries of the last recorded manifest.
    pub manifest_entries: Vec<(String, String)>,
    /// The head snapshot identity, if any.
    pub head: Option<String>,
}

impl Default for CliState {
    fn default() -> (r: Self)
        ensures
            r.artifacts@.len() == 0,
            r.manifest_entries@.len() == 0,
            r.head is None,
    {
        CliState { artifacts: Vec::new(), manifest_entries: Vec::new(), head: None }
    }
}

/// The text of a registry entry: its identity and kind.
pub open spec fn entry_view(e: ArtifactEntry) -> (Seq<char>, Seq<char>) {
    (e.id@, e.kind@)
}

/// The registry as text.
pub open spec fn table_views(t: Seq<(String, ArtifactEntry)>) -> Seq<(Seq<char>, (Seq<char>, Seq<char>))> {
    t.map_values(|x: (String, ArtifactEntry)| (x.0@, entry_view(x.1)))
}

/// Registry keys strictly increase.
pub open spec fn table_sorted(t: Seq<(Seq<char>, (Seq<char>, Seq<char>))>) -> bool {
    forall|i: int, j: int| #![trigger t[i], t[j]] 0 <= i < j < t.len() ==> String::view_le(t[i].0, t[j].0) && t[i].0 != t[j].0
}

/// The entry recorded under a key.
pub open spec fn table_get(t: Seq<(Seq<char>, (Seq<char>, Seq<char>))>, k: Seq<char>) -> Option<(Seq<char>, Seq<char>)> {
    if exists|i: int| 0 <= i < t.len() && (#[trigger] t[i]).0 == k {
        Some(t[choose|i: int| 0 <= i < t.len() && (#[trigger] t[i]).0 == k].1)
    } else {
        None
    }
}

/// The registry as a map from key to entry.
pub open spec fn table_map(t: Seq<(Seq<char>, (Seq<char>, Seq<char>))>) -> Map<Seq<char>, (Seq<char>, Seq<char>)> {
    Map::new(|k: Seq<char>| table_get(t, k) is Some, |k: Seq<char>| table_get(t, k).unwrap())
}

proof fn lemma_table_get_at(t: Seq<(Seq<char>, (Seq<char>, Seq<char>))>, i: int)
    requires
        table_sorted(t),
        0 <= i < t.len(),
    ensures
        table_get(t, t[i].0) == Some(t[i].1),
{
    let j = choose|j: int| 0 <= j < t.len() && (#[trigger] t[j]).0 == t[i].0;
    if j != i {
        if j < i {
            assert(t[j].0 != t[i].0);
        } else {
            assert(t[i].0 != t[j].0);
        }
    }
}

/// Record or replace the registry entry of a key, keeping key order.
pub fn put_artifact(state: &mut CliState, key: &str, entry: ArtifactEntry)
    requires
        table_sorted(table_views(old(state).artifacts@)),
    ensures
        table_sorted(table_views(final(state).artifacts@)),
        table_map(table_views(final(state).artifacts@)) == table_map(table_views(old(state).artifacts@)).insert(
            key@,
            entry_view(entry),
        ),
        final(state).manifest_entries == old(state).manifest_entries,
        final(state).head == old(state).head,
{
    let ghost before = table_views(state.artifacts@);
    let ghost ev = entry_view(entry);
    proof {
        crate::text::lemma_string_le_facts();
    }
    let k = crate::text::owned(key);
    let mut i: usize = 0;
    while i < state.artifacts.len() && state.artifacts[i].0.le_exec(&k) && !crate::text::str_eq(
        state.artifacts[i].0.as_str(),
        key,
    )
        invariant
            i <= state.artifacts@.len(),
            k@ == key@,
            before == table_views(state.artifacts@),
            table_sorted(before),
            forall|j: int| 0 <= j < i ==> String::view_le(#[trigger] before[j].0, key@) && before[j].0 != key@,
        decreases state.artifacts.len() - i,
    {
        i = i + 1;
    }
    let found = i < state.artifacts.len() && crate::text::str_eq(state.artifacts[i].0.as_str(), key);
    proof {
        if !found && i < before.len() {
            assert forall|j: int| i <= j < before.len() implies String::view_le(key@, #[trigger] before[j].0)
                && before[j].0 != key@ by {
                assert(!String::view_le(before[i as int].0, key@));
                assert(String::view_le(key@, before[i as int].0));
                if j > i {
                    assert(String::view_le(before[i as int].0, before[j].0) && before[i as int].0 != before[j].0);
                }
                if before[j].0 == key@ {
                    assert(String::view_le(before[i as int].0, key@));
                }
            }
        }
    }
    let item = (k, entry);
    if found {
        state.artifacts.set(i, item);
        let ghost after = table_views(state.artifacts@);
        proof {
            assert(after =~= before.update(i as int, (key@, ev)));
            assert forall|a: int, b: int| #![trigger after[a], after[b]] 0 <= a < b < after.len() implies String::view_le(
                after[a].0,
                after[b].0,
            ) && after[a].0 != after[b].0 by {
                assert(before[a].0 == after[a].0 && before[b].0 == after[b].0);
            }
            lemma_table_get_at(after, i as int);
            assert forall|q: Seq<char>| #[trigger] table_map(after).dom().contains(q) == table_map(before).insert(key@, ev).dom().contains(q)
                && (table_map(after).dom().contains(q) ==> table_map(after)[q] == table_map(before).insert(key@, ev)[q]) by {
                if q != key@ {
                    if exists|j: int| 0 <= j < before.len() && (#[trigger] before[j]).0 == q {
                        let j = choose|j: int| 0 <= j < before.len() && (#[trigger] before[j]).0 == q;
                        lemma_table_get_at(before, j);
                        assert(after[j] == before[j]);
                        lemma_table_get_at(after, j);
                    } else {
                        assert forall|j: int| 0 <= j < after.len() implies (#[trigger] after[j]).0 != q by {
                            if j != i {
                                assert(after[j] == before[j]);
                            }
                        }
                    }
                }
            }
            assert(table_map(after) =~= table_map(before).insert(key@, ev));
        }
    } else {
        state.artifacts.insert(i, item);
        let ghost after = table_views(state.artifacts@);
        proof {
            assert(after =~= before.subrange(0, i as int).push((key@, ev)) + before.subrange(i as int, before.len() as int));
            assert forall|j: int| 0 <= j < after.len() implies #[trigger] after[j] == if j < i {
                before[j]
            } else if j == i {
                (key@, ev)
            } else {
                before[j - 1]
            } by {}
            assert forall|a: int, b: int| #![trigger after[a], after[b]] 0 <= a < b < after.len() implies String::view_le(
                after[a].0,
                after[b].0,
            ) && after[a].0 != after[b].0 by {
                if a < i && b < i {
                    assert(before[a] == after[a] && before[b] == after[b]);
                } else if a < i && b == i {
                    assert(before[a] == after[a]);
                } else if a < i && b > i {
                    assert(before[a] == after[a] && before[b - 1] == after[b]);
                } else if a == i {
                    assert(before[b - 1] == after[b]);
                } else {
                    assert(before[a - 1] == after[a] && before[b - 1] == after[b]);
                }
            }
            lemma_table_get_at(after, i as int);
            assert forall|q: Seq<char>| #[trigger] table_map(after).dom().contains(q) == table_map(before).insert(key@, ev).dom().contains(q)
                && (table_map(after).dom().contains(q) ==> table_map(after)[q] == table_map(before).insert(key@, ev)[q]) by {
                if q != key@ {
                    if exists|j: int| 0 <= j < before.len() && (#[trigger] before[j]).0 == q {
                        let j = choose|j: int| 0 <= j < before.len() && (#[trigger] before[j]).0 == q;
                        lemma_table_get_at(before, j);
                        if j < i {
                            assert(after[j] == before[j]);
                            lemma_table_get_at(after, j);
                        } else {
                            assert(after[j + 1] == before[j]);
                            lemma_table_get_at(after, j + 1);
                        }
                    } else {
                        assert forall|j: int| 0 <= j < after.len() implies (#[trigger] after[j]).0 != q by {
                            if j < i {
                                assert(after[j] == before[j]);
                            } else if j > i {
                                assert(after[j] == before[j - 1]);
                            }
                        }
                    }
                }
            }
            assert(table_map(after) =~= table_map(before).insert(key@, ev));
        }
    }
}

/// The text of a string value, empty for anything else.
pub open spec fn text_or_empty(v: JsonView) -> Seq<char> {
    match as_text(v) {
        Some(t) => t,
        None => Seq::empty(),
    }
}

/// The registry entry a sidecar member holds.
pub open spec fn entry_of_json(v: JsonView) -> (Seq<char>, Seq<char>) {
    (text_or_empty(get_key(v, "id"@)), text_or_empty(get_key(v, "kind"@)))
}

/// The registry the sidecar's artifact members record: each key maps to
/// the entry of its last member.
pub open spec fn registry_of(ms: Seq<(Seq<char>, JsonView)>) -> Map<Seq<char>, (Seq<char>, Seq<char>)>
    decreases ms.len(),
{
    if ms.len() == 0 {
        Map::empty()
    } else {
        registry_of(ms.drop_last()).insert(ms.last().0, entry_of_json(ms.last().1))
    }
}

/// The sidecar's artifact members.
pub open spec fn registry_members(doc: JsonView) -> Seq<(Seq<char>, JsonView)> {
    match get_key(doc, "artifacts"@) {
        JsonView::Object(ms) => ms,
        _ => Seq::empty(),
    }
}

/// The manifest entries of sidecar entries: those with a string path and
/// digest, in order.
pub open spec fn manifest_of_json(vs: Seq<JsonView>) -> Seq<(Seq<char>, Seq<char>)>
    decreases vs.len(),
{
    if vs.len() == 0 {
        Seq::empty()
    } else {
        let init = manifest_of_json(vs.drop_last());
        match (as_text(get_key(vs.last(), "path"@)), as_text(get_key(vs.last(), "digest"@))) {
            (Some(p), Some(d)) => init.push((p, d)),
            _ => init,
        }
    }
}

/// The manifest the sidecar records.
pub open spec fn sidecar_manifest(doc: JsonView) -> Seq<(Seq<char>, Seq<char>)> {
    match get_key(get_key(doc, "manifest"@), "entries"@) {
        JsonView::Array(vs) => manifest_of_json(vs),
        _ => Seq::empty(),
    }
}

/// The registry state a sidecar document holds: artifacts in key order
/// with the registry of its members, its manifest and its head.
pub open spec fn state_of_json(doc: JsonView, st: CliState) -> bool {
    &&& table_sorted(table_views(st.artifacts@))
    &&& table_map(table_views(st.artifacts@)) == registry_of(registry_members(doc))
    &&& crate::program::python::entry_views(st.manifest_entries@) == sidecar_manifest(doc)
    &&& match st.head {
        Some(h) => as_text(get_key(doc, "head"@)) == Some(h@),
        None => as_text(get_key(doc, "head"@)) is None,
    }
}

fn text_owned(v: Option<&Json>) -> (r: String)
    ensures
        r@ == match v {
            Some(x) => text_or_empty(json_view(*x)),
            None => Seq::empty(),
        },
{
    match json_text(v) {
        Some(t) => crate::text::owned(t),
        None => String::new(),
    }
}

/// The registry state a sidecar document holds.
pub fn cli_state_from_json(doc: &Json) -> (r: CliState)
    ensures
        state_of_json(json_view(*doc), r),
{
    proof {
        reveal_strlit("artifacts");
        reveal_strlit("manifest");
        reveal_strlit("entries");
        reveal_strlit("head");
        reveal_strlit("id");
        reveal_strlit("kind");
        reveal_strlit("path");
        reveal_strlit("digest");
    }
    let mut state = CliState { artifacts: Vec::new(), manifest_entries: Vec::new(), head: None };
    let ghost dv = json_view(*doc);
    match json_get(doc, "artifacts") {
        Some(Json::Object(ms)) => {
            let ghost mv = member_views(ms@);
            proof {
                crate::json::lemma_member_views_index(ms@);
                assert(mv.subrange(0, 0) =~= Seq::<(Seq<char>, JsonView)>::empty());
                assert(table_map(table_views(state.artifacts@)) =~= Map::<Seq<char>, (Seq<char>, Seq<char>)>::empty());
            }
            let mut i: usize = 0;
            while i < ms.len()
                invariant
                    i <= ms@.len(),
                    mv == member_views(ms@),
                    mv.len() == ms@.len(),
                    forall|t: int| 0 <= t < ms@.len() ==> #[trigger] mv[t] == (ms@[t].0@, json_view(ms@[t].1)),
                    table_sorted(table_views(state.artifacts@)),
                    table_map(table_views(state.artifacts@)) == registry_of(mv.subrange(0, i as int)),
                    state.manifest_entries@.len() == 0,
                    state.head is None,
                decreases ms.len() - i,
            {
                let v = &ms[i].1;
                let entry = ArtifactEntry { id: text_owned(json_get(v, "id")), kind: text_owned(json_get(v, "kind")) };
                proof {
                    assert(mv.subrange(0, i + 1).drop_last() =~= mv.subrange(0, i as int));
                    assert(mv.subrange(0, i + 1).last() == mv[i as int]);
                    assert(entry_view(entry) == entry_of_json(json_view(*v)));
                }
                put_artifact(&mut state, ms[i].0.as_str(), entry);
                i = i + 1;
            }
            proof {
                assert(mv.subrange(0, ms@.len() as int) =~= mv);
            }
        },
        _ => {
            proof {
                assert(table_map(table_views(state.artifacts@)) =~= Map::<Seq<char>, (Seq<char>, Seq<char>)>::empty());
            }
        },
    }
    let ghost arts = state.artifacts@;
    assert(table_sorted(table_views(arts)));
    assert(table_map(table_views(arts)) == registry_of(registry_members(dv)));
    let entries = match json_get(doc, "manifest") {
        Some(m) => json_get(m, "entries"),
        None => None,
    };
    match entries {
        Some(Json::Array(vs)) => {
            let ghost lv = json_views(vs@);
            proof {
                crate::json::lemma_json_views_index(vs@);
                assert(lv.subrange(0, 0) =~= Seq::<JsonView>::empty());
            }
            let mut i: usize = 0;
            while i < vs.len()
                invariant
                    i <= vs@.len(),
                    lv == json_views(vs@),
                    lv.len() == vs@.len(),
                    forall|t: int| 0 <= t < vs@.len() ==> #[trigger] lv[t] == json_view(vs@[t]),
                    crate::program::python::entry_views(state.manifest_entries@) == manifest_of_json(lv.subrange(0, i as int)),
                    state.artifacts@ == arts,
                decreases vs.len() - i,
            {
                let e = &vs[i];
                let ghost pre = state.manifest_entries@;
                proof {
                    assert(lv.subrange(0, i + 1).drop_last() =~= lv.subrange(0, i as int));
                    assert(lv.subrange(0, i + 1).last() == json_view(*e));
                }
                match (json_text(json_get(e, "path")), json_text(json_get(e, "digest"))) {
                    (Some(p), Some(d)) => {
                        state.manifest_entries.push((crate::text::owned(p), crate::text::owned(d)));
                        proof {
                            assert(crate::program::python::entry_views(state.manifest_entries@) =~= crate::program::python::entry_views(pre).push((p@, d@)));
                        }
                    },
                    _ => {},
                }
                i = i + 1;
            }
            proof {
                assert(lv.subrange(0, vs@.len() as int) =~= lv);
            }
        },
        _ => {
            proof {
                assert(crate::program::python::entry_views(state.manifest_entries@) =~= Seq::<(Seq<char>, Seq<char>)>::empty());
            }
        },
    }
    state.head = match json_text(json_get(doc, "head")) {
        Some(h) => Some(crate::text::owned(h)),
        None => None,
    };
    proof {
        assert(table_sorted(table_views(state.artifacts@)));
        assert(table_map(table_views(state.artifacts@)) == registry_of(registry_members(dv)));
        assert(crate::program::python::entry_views(state.manifest_entries@) == sidecar_manifest(dv));
    }
    state
}

/// The registry state a sidecar's bytes hold: a text that holds no JSON
/// document gives the empty registry.
pub fn load_cli_state(bytes: &[u8]) -> (r: CliState)
    ensures
        match json_document(bytes@) {
            Ok(Some(doc)) => state_of_json(doc, r),
            _ => r.artifacts@.len() == 0 && r.manifest_entries@.len() == 0 && r.head is None,
        },
{
    match parse_json(bytes) {
        Ok(Some(doc)) => cli_state_from_json(&doc),
        _ => CliState { artifacts: Vec::new(), manifest_entries: Vec::new(), head: None },
    }
}

proof fn lemma_table_map_push(t: Seq<(Seq<char>, (Seq<char>, Seq<char>))>)
    requires
        table_sorted(t),
        t.len() > 0,
    ensures
        table_map(t) == table_map(t.drop_last()).insert(t.last().0, t.last().1),
{
    let d = t.drop_last();
    let n = t.len() - 1;
    assert(table_sorted(d)) by {
        assert forall|a: int, b: int| #![trigger d[a], d[b]] 0 <= a < b < d.len() implies String::view_le(d[a].0, d[b].0)
            && d[a].0 != d[b].0 by {
            assert(d[a] == t[a] && d[b] == t[b]);
        }
    }
    lemma_table_get_at(t, n);
    assert forall|q: Seq<char>| #[trigger] table_map(t).dom().contains(q) == table_map(d).insert(t.last().0, t.last().1).dom().contains(q)
        && (table_map(t).dom().contains(q) ==> table_map(t)[q] == table_map(d).insert(t.last().0, t.last().1)[q]) by {
        if q != t.last().0 {
            if exists|j: int| 0 <= j < t.len() && (#[trigger] t[j]).0 == q {
                let j = choose|j: int| 0 <= j < t.len() && (#[trigger] t[j]).0 == q;
                assert(j < n);
                lemma_table_get_at(t, j);
                assert(d[j] == t[j]);
                lemma_table_get_at(d, j);
            } else {
                assert forall|j: int| 0 <= j < d.len() implies (#[trigger] d[j]).0 != q by {
                    assert(d[j] == t[j]);
                }
            }
        }
    }
    assert(table_map(t) =~= table_map(d).insert(t.last().0, t.last().1));
}

fn text_pair(a: &str, x: &str, b: &str, y: &str) -> (r: Json)
    ensures
        json_view(r) == JsonView::Object(seq![(a@, JsonView::Str(x@)), (b@, JsonView::Str(y@))]),
{
    let members = vec![(crate::text::owned(a), Json::Str(crate::text::owned(x))), (crate::text::owned(b), Json::Str(crate::text::owned(y)))];
    proof {
        crate::json::lemma_member_views_index(members@);
        assert(member_views(members@) =~= seq![(a@, JsonView::Str(x@)), (b@, JsonView::Str(y@))]);
    }
    Json::Object(members)
}

/// The sidecar document of a registry state: its artifacts (each an
/// object of `id` and `kind`), its head, and its manifest entries (each an
/// object of `digest` and `path`). Read back, it gives the same state.
pub fn cli_state_to_json(st: &CliState) -> (r: Json)
    requires
        table_sorted(table_views(st.artifacts@)),
    ensures
        registry_of(registry_members(json_view(r))) == table_map(table_views(st.artifacts@)),
        sidecar_manifest(json_view(r)) == crate::program::python::entry_views(st.manifest_entries@),
        match st.head {
            Some(h) => as_text(get_key(json_view(r), "head"@)) == Some(h@),
            None => as_text(get_key(json_view(r), "head"@)) is None,
        },
{
    proof {
        reveal_strlit("artifacts");
        reveal_strlit("manifest");
        reveal_strlit("entries");
        reveal_strlit("head");
        reveal_strlit("id");
        reveal_strlit("kind");
        reveal_strlit("path");
        reveal_strlit("digest");
        assert("id"@ != "kind"@) by {
            assert("id"@[0] != "kind"@[0]);
        }
        assert("digest"@ != "path"@) by {
            assert("digest"@[0] != "path"@[0]);
        }
    }
    let ghost tv = table_views(st.artifacts@);
    let mut arts: Vec<(String, Json)> = Vec::new();
    let mut i: usize = 0;
    proof {
        assert(tv.subrange(0, 0) =~= Seq::<(Seq<char>, (Seq<char>, Seq<char>))>::empty());
        assert(table_map(tv.subrange(0, 0)) =~= Map::<Seq<char>, (Seq<char>, Seq<char>)>::empty());
    }
    while i < st.artifacts.len()
        invariant
            i <= st.artifacts@.len(),
            tv == table_views(st.artifacts@),
            table_sorted(tv),
            "id"@ != "kind"@,
            registry_of(member_views(arts@)) == table_map(tv.subrange(0, i as int)),
        decreases st.artifacts.len() - i,
    {
        let (k, e) = &st.artifacts[i];
        let entry = text_pair("id", e.id.as_str(), "kind", e.kind.as_str());
        let ghost pre = arts@;
        arts.push((crate::text::owned(k.as_str()), entry));
        proof {
            let ev = json_view(entry);
            let mv = seq![("id"@, JsonView::Str(e.id@)), ("kind"@, JsonView::Str(e.kind@))];
            assert(member_of(mv, "id"@) == Some(JsonView::Str(e.id@)));
            assert(member_of(mv.drop_first(), "kind"@) == Some(JsonView::Str(e.kind@)));
            assert(member_of(mv, "kind"@) == Some(JsonView::Str(e.kind@)));
            assert(entry_of_json(ev) == entry_view(*e));
            assert(arts@.drop_last() =~= pre);
            assert(member_views(arts@).drop_last() =~= member_views(pre));
            let sub = tv.subrange(0, i + 1);
            assert(table_sorted(sub)) by {
                assert forall|a: int, b: int| #![trigger sub[a], sub[b]] 0 <= a < b < sub.len() implies String::view_le(
                    sub[a].0,
                    sub[b].0,
                ) && sub[a].0 != sub[b].0 by {
                    assert(sub[a] == tv[a] && sub[b] == tv[b]);
                }
            }
            lemma_table_map_push(sub);
            assert(sub.drop_last() =~= tv.subrange(0, i as int));
            assert(sub.last() == tv[i as int]);
        }
        i = i + 1;
    }
    proof {
        assert(tv.subrange(0, st.artifacts@.len() as int) =~= tv);
    }
    let ghost mfv = crate::program::python::entry_views(st.manifest_entries@);
    let mut list: Vec<Json> = Vec::new();
    let mut j: usize = 0;
    while j < st.manifest_entries.len()
        invariant
            j <= st.manifest_entries@.len(),
            mfv == crate::program::python::entry_views(st.manifest_entries@),
            "digest"@ != "path"@,
            manifest_of_json(json_views(list@)) == mfv.subrange(0, j as int),
        decreases st.manifest_entries.len() - j,
    {
        let (p, d) = &st.manifest_entries[j];
        let entry = text_pair("digest", d.as_str(), "path", p.as_str());
        let ghost pre = list@;
        list.push(entry);
        proof {
            let mv = seq![("digest"@, JsonView::Str(d@)), ("path"@, JsonView::Str(p@))];
            assert(member_of(mv, "digest"@) == Some(JsonView::Str(d@)));
            assert(member_of(mv.drop_first(), "path"@) == Some(JsonView::Str(p@)));
            assert(member_of(mv, "path"@) == Some(JsonView::Str(p@)));
            assert(list@.drop_last() =~= pre);
            assert(json_views(list@).drop_last() =~= json_views(pre));
            assert(mfv.subrange(0, j + 1) =~= mfv.subrange(0, j as int).push((p@, d@)));
        }
        j = j + 1;
    }
    proof {
        assert(mfv.subrange(0, st.manifest_entries@.len() as int) =~= mfv);
    }
    let head = match &st.head {
        Some(h) => Json::Str(crate::text::owned(h.as_str())),
        None => Json::Null,
    };
    let entries = vec![(crate::text::owned("entries"), Json::Array(list))];
    let ghost av = member_views(arts@);
    let ghost hv = json_view(head);
    let ghost lv = json_views(list@);
    proof {
        crate::json::lemma_member_views_index(entries@);
    }
    let manifest = Json::Object(entries);
    let root = vec![
        (crate::text::owned("artifacts"), Json::Object(arts)),
        (crate::text::owned("head"), head),
        (crate::text::owned("manifest"), manifest),
    ];
    proof {
        crate::json::lemma_member_views_index(root@);
        let rv = member_views(root@);
        assert(rv[0] == ("artifacts"@, JsonView::Object(av)));
        assert(rv[1] == ("head"@, hv));
        assert("artifacts"@ != "head"@) by {
            assert("artifacts"@[0] != "head"@[0]);
        }
        assert("artifacts"@ != "manifest"@) by {
            assert("artifacts"@[0] != "manifest"@[0]);
        }
        assert("head"@ != "manifest"@) by {
            assert("head"@[0] != "manifest"@[0]);
        }
        assert(member_of(rv, "artifacts"@) == Some(JsonView::Object(av)));
        assert(rv.drop_first()[0] == rv[1]);
        assert(member_of(rv.drop_first(), "head"@) == Some(hv));
        assert(member_of(rv, "head"@) == Some(hv));
        assert(rv.drop_first().drop_first()[0] == rv[2]);
        assert(member_of(rv.drop_first().drop_first(), "manifest"@) == Some(rv[2].1));
        assert(member_of(rv.drop_first(), "manifest"@) == Some(rv[2].1));
        assert(member_of(rv, "manifest"@) == Some(rv[2].1));
        let ev = member_views(entries@);
        assert(ev[0] == ("entries"@, JsonView::Array(lv)));
        assert(member_of(ev, "entries"@) == Some(JsonView::Array(lv)));
    }
    Json::Object(root)
}

} // verus!
