//! Working-tree manifests — one version of the tracked file state.
//!
//! Walking the file system and hashing file contents happen at the edge of
//! the library; this module owns path normalization, the exclusion rule of
//! the walk, and the canonical manifest built from hashed entries.
use vstd::prelude::*;

use crate::canonical::{framed, leb128, write_bytes, write_str, write_u64};
use crate::hash::blake3_digest;
use crate::ids::{ContentHash, HashAlgo, ManifestId};
use crate::order::{
    bytes_le, canonical_set, canonical_set_of, lemma_bytes_le_antisymmetric,
    lemma_bytes_le_reflexive, lemma_bytes_le_total, lemma_bytes_le_transitive, strictly_sorted,
    views, Ordered,
};
use crate::text::{chars_of, lemma_string_le_facts, owned, push_char, push_str, str_eq, utf8};

verus! {

/// Directory names excluded from manifest walks, at any depth: build, VCS
/// and control-plane artifacts, never repository source.
pub open spec fn default_excludes() -> Seq<Seq<char>> {
    seq![".git"@, ".agent"@, ".trellis"@, "target"@, "node_modules"@]
}

/// The default exclusion set, in declaration order.
pub fn default_exclude_dirs() -> (r: Vec<String>)
    ensures
        views(r@) == default_excludes(),
{
    let mut r: Vec<String> = Vec::new();
    r.push(owned(".git"));
    r.push(owned(".agent"));
    r.push(owned(".trellis"));
    r.push(owned("target"));
    r.push(owned("node_modules"));
    assert(views(r@) =~= default_excludes());
    r
}

/// Options for building a working-tree manifest.
#[derive(Debug)]
pub struct ManifestOptions {
    /// Repository root to walk.
    pub root: String,
    /// Directory names to exclude at any depth.
    pub exclude_dirs: Vec<String>,
}

impl ManifestOptions {
    /// Options for `root` with the default exclusion set.
    pub fn new(root: &str) -> (r: Self)
        ensures
            r.root@ == root@,
            views(r.exclude_dirs@) == default_excludes(),
    {
        ManifestOptions { root: owned(root), exclude_dirs: default_exclude_dirs() }
    }

    /// Whether the walk prunes a directory of this name.
    pub fn is_excluded(&self, name: &str) -> (r: bool)
        ensures
            r == views(self.exclude_dirs@).contains(name@),
    {
        let mut i: usize = 0;
        while i < self.exclude_dirs.len()
            invariant
                i <= self.exclude_dirs@.len(),
                forall|k: int| 0 <= k < i ==> (#[trigger] self.exclude_dirs@[k])@ != name@,
            decreases self.exclude_dirs.len() - i,
        {
            if str_eq(self.exclude_dirs[i].as_str(), name) {
                assert(views(self.exclude_dirs@)[i as int] == name@);
                return true;
            }
            i = i + 1;
        }
        proof {
            if views(self.exclude_dirs@).contains(name@) {
                let k = choose|k: int|
                    0 <= k < views(self.exclude_dirs@).len() && views(self.exclude_dirs@)[k]
                        == name@;
                assert(self.exclude_dirs@[k]@ == name@);
            }
        }
        false
    }
}

/// The `/`-separated pieces of a path text, empty pieces included.
pub open spec fn split_slash(s: Seq<char>) -> Seq<Seq<char>>
    decreases s.len(),
{
    if s.len() == 0 {
        seq![Seq::empty()]
    } else {
        let init = split_slash(s.drop_last());
        if s.last() == '/' {
            init.push(Seq::empty())
        } else {
            init.update(init.len() - 1, init.last().push(s.last()))
        }
    }
}

/// The pieces that name something: neither empty nor `.`.
pub open spec fn keep_parts(parts: Seq<Seq<char>>) -> Seq<Seq<char>>
    decreases parts.len(),
{
    if parts.len() == 0 {
        Seq::empty()
    } else {
        let init = keep_parts(parts.drop_last());
        let p = parts.last();
        if p.len() == 0 || p == "."@ {
            init
        } else {
            init.push(p)
        }
    }
}

/// The pieces joined with `/`.
pub open spec fn join_slash(parts: Seq<Seq<char>>) -> Seq<char>
    decreases parts.len(),
{
    if parts.len() == 0 {
        Seq::empty()
    } else if parts.len() == 1 {
        parts[0]
    } else {
        join_slash(parts.drop_last()).push('/') + parts.last()
    }
}

/// Canonical manifest form of a relative path: `/`-separated, no leading
/// `./`, no empty or `.` components. `None` for absolute paths, `..`
/// components, or paths that normalize to nothing.
pub open spec fn normalized(s: Seq<char>) -> Option<Seq<char>> {
    if s.len() > 0 && s[0] == '/' {
        None
    } else if split_slash(s).contains(".."@) {
        None
    } else if keep_parts(split_slash(s)).len() == 0 {
        None
    } else {
        Some(join_slash(keep_parts(split_slash(s))))
    }
}

/// A path already in canonical manifest form.
pub open spec fn is_canonical_path(s: Seq<char>) -> bool {
    normalized(s) == Some(s)
}

proof fn lemma_split_nonempty(s: Seq<char>)
    ensures
        split_slash(s).len() >= 1,
    decreases s.len(),
{
    if s.len() > 0 {
        lemma_split_nonempty(s.drop_last());
    }
}

fn chars_eq_lit(cs: &Vec<char>, lit: &str) -> (r: bool)
    ensures
        r == (cs@ == lit@),
{
    let l = chars_of(lit);
    if cs.len() != l.len() {
        return false;
    }
    let mut i: usize = 0;
    while i < cs.len()
        invariant
            i <= cs@.len(),
            cs@.len() == l@.len(),
            l@ == lit@,
            forall|k: int| 0 <= k < i ==> cs@[k] == l@[k],
        decreases cs.len() - i,
    {
        if cs[i] != l[i] {
            return false;
        }
        i = i + 1;
    }
    assert(cs@ =~= l@);
    true
}

/// Normalize a relative path to canonical manifest form: `/`-separated,
/// no leading `./`, no empty or `.` components. Returns `None` for
/// absolute paths, `..` components, or paths that normalize to nothing.
pub fn normalize_rel_path(path: &str) -> (r: Option<String>)
    ensures
        match r {
            Some(s) => normalized(path@) == Some(s@),
            None => normalized(path@) is None,
        },
{
    let cs = chars_of(path);
    if cs.len() > 0 && cs[0] == '/' {
        return None;
    }
    let mut kept: Vec<Vec<char>> = Vec::new();
    let mut parent = false;
    let mut cur: Vec<char> = Vec::new();
    let mut i: usize = 0;
    proof {
        assert(cs@.subrange(0, 0) =~= Seq::<char>::empty());
    }
    while i < cs.len()
        invariant
            i <= cs@.len(),
            cs@ == path@,
            split_slash(cs@.subrange(0, i as int)).len() >= 1,
            cur@ == split_slash(cs@.subrange(0, i as int)).last(),
            kept@.map_values(|v: Vec<char>| v@) == keep_parts(
                split_slash(cs@.subrange(0, i as int)).drop_last(),
            ),
            parent == split_slash(cs@.subrange(0, i as int)).drop_last().contains(".."@),
        decreases cs.len() - i,
    {
        let c = cs[i];
        let ghost pre = cs@.subrange(0, i as int);
        let ghost next = cs@.subrange(0, i + 1);
        proof {
            assert(next.drop_last() =~= pre);
            assert(next.last() == c);
            lemma_split_nonempty(pre);
        }
        if c == '/' {
            let ghost sp = split_slash(pre);
            proof {
                assert(split_slash(next) == sp.push(Seq::empty()));
                assert(split_slash(next).drop_last() =~= sp);
                assert(sp =~= sp.drop_last().push(sp.last()));
            }
            if chars_eq_lit(&cur, "..") {
                parent = true;
            }
            let is_dot = chars_eq_lit(&cur, ".");
            let ghost kept_pre = kept@.map_values(|v: Vec<char>| v@);
            if cur.len() > 0 && !is_dot {
                let piece = cur;
                kept.push(piece);
                proof {
                    assert(kept@.map_values(|v: Vec<char>| v@) =~= kept_pre.push(piece@));
                }
            }
            proof {
                assert(keep_parts(sp) == keep_parts(sp.drop_last().push(sp.last())));
                assert(sp.drop_last().push(sp.last()).drop_last() =~= sp.drop_last());
                assert forall|x: Seq<char>| sp.contains(x) <==> (sp.drop_last().contains(x) || x
                    == sp.last()) by {
                    if sp.contains(x) {
                        let k = choose|k: int| 0 <= k < sp.len() && sp[k] == x;
                        if k < sp.len() - 1 {
                            assert(sp.drop_last()[k] == x);
                        }
                    }
                    if sp.drop_last().contains(x) {
                        let k = choose|k: int| 0 <= k < sp.drop_last().len() && sp.drop_last()[k] == x;
                        assert(sp[k] == x);
                    }
                }
            }
            cur = Vec::new();
            proof {
                assert(cur@ =~= split_slash(next).last());
            }
        } else {
            let ghost sp = split_slash(pre);
            proof {
                assert(split_slash(next) == sp.update(sp.len() - 1, sp.last().push(c)));
                assert(split_slash(next).drop_last() =~= sp.drop_last());
            }
            cur.push(c);
        }
        i = i + 1;
    }
    proof {
        assert(cs@.subrange(0, cs@.len() as int) =~= cs@);
    }
    let ghost sp = split_slash(cs@);
    if chars_eq_lit(&cur, "..") {
        parent = true;
    }
    proof {
        assert forall|x: Seq<char>| sp.contains(x) <==> (sp.drop_last().contains(x) || x
            == sp.last()) by {
            if sp.contains(x) {
                let k = choose|k: int| 0 <= k < sp.len() && sp[k] == x;
                if k < sp.len() - 1 {
                    assert(sp.drop_last()[k] == x);
                }
            }
            if sp.drop_last().contains(x) {
                let k = choose|k: int| 0 <= k < sp.drop_last().len() && sp.drop_last()[k] == x;
                assert(sp[k] == x);
            }
        }
    }
    if parent {
        return None;
    }
    let is_dot = chars_eq_lit(&cur, ".");
    let ghost kept_pre = kept@.map_values(|v: Vec<char>| v@);
    if cur.len() > 0 && !is_dot {
        let piece = cur;
        kept.push(piece);
        proof {
            assert(kept@.map_values(|v: Vec<char>| v@) =~= kept_pre.push(piece@));
        }
    }
    proof {
        assert(sp =~= sp.drop_last().push(sp.last()));
        assert(sp.drop_last().push(sp.last()).drop_last() =~= sp.drop_last());
    }
    let ghost parts = kept@.map_values(|v: Vec<char>| v@);
    assert(parts == keep_parts(sp));
    if kept.len() == 0 {
        return None;
    }
    let mut out = String::new();
    let mut j: usize = 0;
    while j < kept.len()
        invariant
            j <= kept@.len(),
            kept@.len() >= 1,
            parts == kept@.map_values(|v: Vec<char>| v@),
            out@ == join_slash(parts.subrange(0, j as int)),
        decreases kept.len() - j,
    {
        let ghost before = out@;
        if j > 0 {
            push_char(&mut out, '/');
        }
        let mut k: usize = 0;
        let ghost base = out@;
        while k < kept[j].len()
            invariant
                j < kept@.len(),
                k <= kept@[j as int]@.len(),
                out@ == base + kept@[j as int]@.subrange(0, k as int),
            decreases kept@[j as int]@.len() - k,
        {
            push_char(&mut out, kept[j][k]);
            proof {
                assert(kept@[j as int]@.subrange(0, k + 1) =~= kept@[j as int]@.subrange(
                    0,
                    k as int,
                ).push(kept@[j as int]@[k as int]));
            }
            k = k + 1;
        }
        proof {
            assert(kept@[j as int]@.subrange(0, kept@[j as int]@.len() as int) =~= kept@[j as int]@);
            let a = parts.subrange(0, j as int);
            let b = parts.subrange(0, j + 1);
            assert(b.drop_last() =~= a);
            assert(b.last() == kept@[j as int]@);
            if j == 0 {
                assert(b.len() == 1);
                assert(out@ =~= b[0]);
            } else {
                assert(out@ =~= before.push('/') + b.last());
            }
        }
        j = j + 1;
    }
    proof {
        assert(parts.subrange(0, kept@.len() as int) =~= parts);
    }
    Some(out)
}

/// One manifest entry: a normalized relative path and its content digest.
#[derive(Debug, PartialEq, Eq)]
pub struct ManifestEntry {
    /// Path relative to the repository root, `/`-separated, canonical form.
    pub path: String,
    /// BLAKE3 digest of the file content.
    pub digest: ContentHash,
}

impl View for ManifestEntry {
    type V = (Seq<char>, ContentHash);

    open spec fn view(&self) -> (Seq<char>, ContentHash) {
        (self.path@, self.digest)
    }
}

impl Clone for ManifestEntry {
    fn clone(&self) -> (r: Self)
        ensures
            r@ == self@,
    {
        ManifestEntry { path: self.path.clone(), digest: self.digest }
    }
}

/// Entries ordered by path, then digest bytes.
impl Ordered for ManifestEntry {
    open spec fn view_le(a: (Seq<char>, ContentHash), b: (Seq<char>, ContentHash)) -> bool {
        (String::view_le(a.0, b.0) && a.0 != b.0) || (a.0 == b.0 && ContentHash::view_le(a.1, b.1))
    }

    proof fn le_total_ordering() {
        lemma_string_le_facts();
        ContentHash::le_total_ordering();
        let h = |a: ContentHash, b: ContentHash| ContentHash::view_le(a, b);
        let f = |a: (Seq<char>, ContentHash), b: (Seq<char>, ContentHash)| Self::view_le(a, b);
        assert forall|a: (Seq<char>, ContentHash)| #[trigger] f(a, a) by {
            assert(h(a.1, a.1));
        }
        assert forall|a: (Seq<char>, ContentHash), b: (Seq<char>, ContentHash)| #[trigger] f(a, b)
            && #[trigger] f(b, a) implies a == b by {
            if a.0 == b.0 {
                assert(h(a.1, b.1) && h(b.1, a.1));
            }
        }
        assert forall|
            a: (Seq<char>, ContentHash),
            b: (Seq<char>, ContentHash),
            c: (Seq<char>, ContentHash),
        | #[trigger] f(a, b) && #[trigger] f(b, c) implies f(a, c) by {
            if a.0 == b.0 && b.0 == c.0 {
                assert(h(a.1, b.1) && h(b.1, c.1));
            }
        }
        assert forall|a: (Seq<char>, ContentHash), b: (Seq<char>, ContentHash)| #[trigger] f(a, b)
            || #[trigger] f(b, a) by {
            assert(h(a.1, b.1) || h(b.1, a.1));
        }
    }

    fn le_exec(&self, other: &Self) -> (r: bool) {
        if self.path == other.path {
            self.digest.le_exec(&other.digest)
        } else {
            self.path.le_exec(&other.path)
        }
    }

    fn eq_exec(&self, other: &Self) -> (r: bool) {
        self.path == other.path && self.digest.eq_exec(&other.digest)
    }
}

/// A manifest is order-insensitive: entry lists holding the same entries
/// canonicalize to the same entries, hence the same identity.
pub proof fn lemma_manifest_order_insensitive(
    a: Seq<(Seq<char>, ContentHash)>,
    b: Seq<(Seq<char>, ContentHash)>,
    ma: Seq<(Seq<char>, ContentHash)>,
    mb: Seq<(Seq<char>, ContentHash)>,
)
    requires
        canonical_set_of::<ManifestEntry>(ma, a),
        canonical_set_of::<ManifestEntry>(mb, b),
        a.to_set() == b.to_set(),
    ensures
        ma == mb,
        manifest_encoding(ma) == manifest_encoding(mb),
{
    crate::order::lemma_canonical_unique::<ManifestEntry>(ma, mb);
}

/// Two entries for `p` disagree on its digest.
pub open spec fn conflicting(d: Seq<(Seq<char>, ContentHash)>, p: Seq<char>) -> bool {
    exists|i: int, j: int|
        0 <= i < d.len() && 0 <= j < d.len() && #[trigger] d[i].0 == p && #[trigger] d[j].0 == p
            && d[i].1 != d[j].1
}

/// Some path is listed with two different digests.
pub open spec fn has_conflict(d: Seq<(Seq<char>, ContentHash)>) -> bool {
    exists|p: Seq<char>| conflicting(d, p)
}

/// `p` is the least conflicting path.
pub open spec fn least_conflict(d: Seq<(Seq<char>, ContentHash)>, p: Seq<char>) -> bool {
    &&& conflicting(d, p)
    &&& forall|p2: Seq<char>| conflicting(d, p2) ==> #[trigger] String::view_le(p, p2)
}

/// Paths strictly increasing: sorted by path, each path once.
pub open spec fn paths_strictly_sorted(e: Seq<(Seq<char>, ContentHash)>) -> bool {
    forall|i: int, j: int|
        0 <= i < j < e.len() ==> String::view_le(#[trigger] e[i].0, #[trigger] e[j].0) && e[i].0
            != e[j].0
}

/// Concatenated encodings of manifest entries: path, then digest.
pub open spec fn manifest_items(e: Seq<(Seq<char>, ContentHash)>) -> Seq<u8>
    decreases e.len(),
{
    if e.len() == 0 {
        Seq::empty()
    } else {
        manifest_items(e.drop_last()) + framed(utf8(e.last().0)) + framed(e.last().1.digest@)
    }
}

/// The canonical bytes a manifest identity is computed over.
pub open spec fn manifest_encoding(e: Seq<(Seq<char>, ContentHash)>) -> Seq<u8> {
    framed(utf8("trellis.manifest.v1"@)) + leb128(e.len()) + manifest_items(e)
}

/// What a [`Manifest`] records.
pub struct ManifestModel {
    /// Content identity of the manifest.
    pub id: ContentHash,
    /// Entries, sorted by path.
    pub entries: Seq<(Seq<char>, ContentHash)>,
}

/// The tracked file state of one snapshot: entries sorted by path, bound to
/// a content identity over the canonical encoding.
#[derive(Debug, PartialEq, Eq)]
pub struct Manifest {
    id: ManifestId,
    entries: Vec<ManifestEntry>,
}

impl View for Manifest {
    type V = ManifestModel;

    closed spec fn view(&self) -> ManifestModel {
        ManifestModel { id: self.id.0, entries: views(self.entries@) }
    }
}

/// Manifest construction errors.
#[derive(Debug, PartialEq, Eq)]
pub enum ManifestError {
    /// An entry path was not in canonical relative form.
    NonCanonicalPath(String),
    /// The same path appeared with two different content digests. This is a
    /// provenance conflict that must never be silently resolved.
    ConflictingDigest(String),
    /// The repository root could not be read (path, reason).
    RootUnreadable(String, String),
    /// A file could not be read while hashing (path, reason).
    FileUnreadable(String, String),
}

/// The human-readable rendering of a manifest error.
pub open spec fn manifest_message(e: ManifestError) -> Seq<char> {
    match e {
        ManifestError::NonCanonicalPath(p) => "manifest path not canonical: "@ + p@,
        ManifestError::ConflictingDigest(p) => "conflicting digests for path `"@ + p@
            + "` — resolve instead of deduplicating"@,
        ManifestError::RootUnreadable(p, why) => "cannot read root "@ + p@ + ": "@ + why@,
        ManifestError::FileUnreadable(p, why) => "cannot read "@ + p@ + ": "@ + why@,
    }
}

impl ManifestError {
    /// The error rendered for people.
    pub fn to_string(&self) -> (r: String)
        ensures
            r@ == manifest_message(*self),
    {
        match self {
            ManifestError::NonCanonicalPath(p) => {
                let mut s = owned("manifest path not canonical: ");
                push_str(&mut s, p.as_str());
                s
            },
            ManifestError::ConflictingDigest(p) => {
                let mut s = owned("conflicting digests for path `");
                push_str(&mut s, p.as_str());
                push_str(&mut s, "` — resolve instead of deduplicating");
                s
            },
            ManifestError::RootUnreadable(p, why) => {
                let mut s = owned("cannot read root ");
                push_str(&mut s, p.as_str());
                push_str(&mut s, ": ");
                push_str(&mut s, why.as_str());
                s
            },
            ManifestError::FileUnreadable(p, why) => {
                let mut s = owned("cannot read ");
                push_str(&mut s, p.as_str());
                push_str(&mut s, ": ");
                push_str(&mut s, why.as_str());
                s
            },
        }
    }
}

/// The index of the first entry whose path is not canonical, if any.
fn first_non_canonical(entries: &Vec<ManifestEntry>) -> (r: Option<usize>)
    ensures
        match r {
            Some(i) => i < entries@.len() && !is_canonical_path(entries@[i as int].path@) && forall|
                k: int,
            | 0 <= k < i ==> is_canonical_path(#[trigger] entries@[k].path@),
            None => forall|k: int|
                0 <= k < entries@.len() ==> is_canonical_path(#[trigger] entries@[k].path@),
        },
{
    let mut i: usize = 0;
    while i < entries.len()
        invariant
            i <= entries@.len(),
            forall|k: int| 0 <= k < i ==> is_canonical_path(#[trigger] entries@[k].path@),
        decreases entries.len() - i,
    {
        let ok = match normalize_rel_path(entries[i].path.as_str()) {
            Some(n) => str_eq(n.as_str(), entries[i].path.as_str()),
            None => false,
        };
        if !ok {
            return Some(i);
        }
        i = i + 1;
    }
    None
}

/// The least conflicting path, if any.
fn least_conflicting_path(entries: &Vec<ManifestEntry>) -> (r: Option<usize>)
    ensures
        match r {
            Some(i) => i < entries@.len() && least_conflict(views(entries@), entries@[i as int].path@),
            None => !has_conflict(views(entries@)),
        },
{
    let ghost dv = views(entries@);
    let mut best: Option<usize> = None;
    let mut i: usize = 0;
    while i < entries.len()
        invariant
            i <= entries@.len(),
            dv == views(entries@),
            match best {
                Some(b) => b < entries@.len() && conflicting(dv, dv[b as int].0),
                None => true,
            },
            forall|a: int, c: int|
                0 <= a < i && 0 <= c < dv.len() && #[trigger] dv[a].0 == #[trigger] dv[c].0 && dv[a].1
                    != dv[c].1 ==> (best matches Some(b) && String::view_le(dv[b as int].0, dv[a].0)),
        decreases entries.len() - i,
    {
        assert(dv[i as int] == entries@[i as int]@);
        let mut found = false;
        let mut j: usize = 0;
        while j < entries.len()
            invariant
                i < entries@.len(),
                j <= entries@.len(),
                dv == views(entries@),
                found ==> conflicting(dv, dv[i as int].0),
                !found ==> forall|c: int|
                    0 <= c < j ==> !(#[trigger] dv[c].0 == dv[i as int].0 && dv[i as int].1 != dv[c].1),
            decreases entries.len() - j,
        {
            assert(dv[j as int] == entries@[j as int]@);
            if !found && entries[j].path == entries[i].path && !entries[j].digest.eq_exec(
                &entries[i].digest,
            ) {
                found = true;
                proof {
                    assert(dv[i as int].0 == dv[i as int].0 && dv[j as int].0 == dv[i as int].0
                        && dv[i as int].1 != dv[j as int].1);
                }
            }
            j = j + 1;
        }
        let ghost old_best = best;
        proof {
            lemma_string_le_facts();
        }
        if found {
            let better = match best {
                None => true,
                Some(b) => {
                    assert(dv[b as int] == entries@[b as int]@);
                    !entries[b].path.le_exec(&entries[i].path)
                },
            };
            if better {
                best = Some(i);
            }
            proof {
                assert forall|a: int, c: int|
                    0 <= a < i + 1 && 0 <= c < dv.len() && #[trigger] dv[a].0 == #[trigger] dv[c].0
                        && dv[a].1 != dv[c].1 implies (best matches Some(b) && String::view_le(
                    dv[b as int].0,
                    dv[a].0,
                )) by {
                    if a < i {
                        if better {
                            if let Some(ob) = old_best {
                                assert(String::view_le(dv[ob as int].0, dv[a].0));
                                assert(String::view_le(dv[i as int].0, dv[ob as int].0));
                            }
                        }
                    } else {
                        if let Some(ob) = old_best {
                            if !better {
                                assert(String::view_le(dv[ob as int].0, dv[i as int].0));
                            }
                        }
                    }
                }
            }
        } else {
            proof {
                assert forall|a: int, c: int|
                    0 <= a < i + 1 && 0 <= c < dv.len() && #[trigger] dv[a].0 == #[trigger] dv[c].0
                        && dv[a].1 != dv[c].1 implies (best matches Some(b) && String::view_le(
                    dv[b as int].0,
                    dv[a].0,
                )) by {
                    if a == i {
                        assert(!(dv[c].0 == dv[i as int].0 && dv[i as int].1 != dv[c].1));
                    }
                }
            }
        }
        i = i + 1;
    }
    proof {
        lemma_string_le_facts();
        match best {
            Some(b) => {
                assert forall|p2: Seq<char>| conflicting(dv, p2) implies #[trigger] String::view_le(
                    dv[b as int].0,
                    p2,
                ) by {
                    let (a, c) = choose|a: int, c: int|
                        0 <= a < dv.len() && 0 <= c < dv.len() && #[trigger] dv[a].0 == p2
                            && #[trigger] dv[c].0 == p2 && dv[a].1 != dv[c].1;
                }
                assert(dv[b as int] == entries@[b as int]@);
            },
            None => {
                if has_conflict(dv) {
                    let p2 = choose|p2: Seq<char>| conflicting(dv, p2);
                    let (a, c) = choose|a: int, c: int|
                        0 <= a < dv.len() && 0 <= c < dv.len() && #[trigger] dv[a].0 == p2
                            && #[trigger] dv[c].0 == p2 && dv[a].1 != dv[c].1;
                }
            },
        }
    }
    best
}

impl Manifest {
    #[verifier::type_invariant]
    spec fn sorted_by_path(self) -> bool {
        paths_strictly_sorted(views(self.entries@))
    }

    /// Build a manifest from pre-hashed entries. Entries are sorted by path;
    /// duplicates of the same path with the **same** digest collapse, while
    /// conflicting digests for one path are a hard error. The manifest
    /// identity is computed over the canonical encoding.
    ///
    /// # Errors
    /// [`ManifestError::NonCanonicalPath`] with the first entry path (in
    /// input order) that is not canonical; otherwise
    /// [`ManifestError::ConflictingDigest`] with the least path listed with
    /// two different digests.
    pub fn from_entries(entries: Vec<ManifestEntry>) -> (r: Result<Self, ManifestError>)
        ensures
            match r {
                Ok(m) => {
                    &&& forall|k: int|
                        0 <= k < entries@.len() ==> is_canonical_path(#[trigger] entries@[k].path@)
                    &&& !has_conflict(views(entries@))
                    &&& canonical_set_of::<ManifestEntry>(m@.entries, views(entries@))
                    &&& paths_strictly_sorted(m@.entries)
                    &&& m@.id.algo == HashAlgo::Blake3
                    &&& m@.id.digest@ == blake3_digest(manifest_encoding(m@.entries))
                },
                Err(ManifestError::NonCanonicalPath(p)) => exists|i: int|
                    0 <= i < entries@.len() && p@ == (#[trigger] entries@[i]).path@
                        && !is_canonical_path(p@) && forall|k: int|
                        0 <= k < i ==> is_canonical_path(#[trigger] entries@[k].path@),
                Err(ManifestError::ConflictingDigest(p)) => {
                    &&& forall|k: int|
                        0 <= k < entries@.len() ==> is_canonical_path(#[trigger] entries@[k].path@)
                    &&& least_conflict(views(entries@), p@)
                },
                Err(_) => false,
            },
    {
        if let Some(i) = first_non_canonical(&entries) {
            return Err(ManifestError::NonCanonicalPath(entries[i].path.clone()));
        }
        if let Some(i) = least_conflicting_path(&entries) {
            return Err(ManifestError::ConflictingDigest(entries[i].path.clone()));
        }
        let ghost input = views(entries@);
        let set = canonical_set(entries);
        proof {
            let sv = views(set@);
            lemma_string_le_facts();
            assert(canonical_set_of::<ManifestEntry>(sv, input));
            assert(strictly_sorted::<ManifestEntry>(sv));
            assert forall|i: int, j: int| 0 <= i < j < sv.len() implies String::view_le(
                #[trigger] sv[i].0,
                #[trigger] sv[j].0,
            ) && sv[i].0 != sv[j].0 by {
                assert(ManifestEntry::view_le(sv[i], sv[j]) && sv[i] != sv[j]);
                if sv[i].0 == sv[j].0 {
                    assert(sv.to_set().contains(sv[i]));
                    assert(sv.to_set().contains(sv[j]));
                    assert(input.to_set().contains(sv[i]));
                    assert(input.to_set().contains(sv[j]));
                    let a = choose|a: int| 0 <= a < input.len() && input[a] == sv[i];
                    let c = choose|c: int| 0 <= c < input.len() && input[c] == sv[j];
                    assert(conflicting(input, sv[i].0));
                }
            }
        }
        let mut buf: Vec<u8> = Vec::new();
        write_str(&mut buf, "trellis.manifest.v1");
        write_u64(&mut buf, set.len() as u64);
        let ghost ev = views(set@);
        let mut k: usize = 0;
        while k < set.len()
            invariant
                k <= set@.len(),
                ev == views(set@),
                buf@ == framed(utf8("trellis.manifest.v1"@)) + leb128(set@.len() as nat)
                    + manifest_items(ev.subrange(0, k as int)),
            decreases set.len() - k,
        {
            write_str(&mut buf, set[k].path.as_str());
            write_bytes(&mut buf, set[k].digest.digest.as_slice());
            proof {
                let a = ev.subrange(0, k as int);
                let b = ev.subrange(0, k + 1);
                assert(b.drop_last() =~= a);
                assert(b.last() == set@[k as int]@);
            }
            k = k + 1;
        }
        assert(ev.subrange(0, set@.len() as int) =~= ev);
        let id = ManifestId::from_hash(ContentHash::compute(HashAlgo::Blake3, buf.as_slice()));
        Ok(Manifest { id, entries: set })
    }

    /// Content identity of this manifest.
    pub fn id(&self) -> (r: ManifestId)
        ensures
            r.0 == self@.id,
    {
        self.id
    }

    /// Entries, sorted by path.
    pub fn entries(&self) -> (r: &[ManifestEntry])
        ensures
            views(r@) == self@.entries,
            paths_strictly_sorted(self@.entries),
    {
        proof {
            use_type_invariant(self);
        }
        self.entries.as_slice()
    }
}

} // verus!
