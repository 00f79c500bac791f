//! The oracle catalog of labeled mutations over a pristine fixture tree,
//! and the folding of a mutation's ancestor chain onto that tree.
//!
//! Oracle labels stay independent of the implementation under test: this
//! module depends on no part of the engine.
use vstd::prelude::*;

use crate::order::Ordered;
use crate::program::python::entry_views;
use crate::text::{lemma_string_le_facts, owned, push_str, str_eq};

verus! {

/// A projection key: `kind(subject, scope)` in canonical form.
#[derive(Debug, Clone, PartialEq, Eq, PartialOrd, Ord)]
pub struct ProjectionKey {
    /// Projection kind keyword.
    pub kind: String,
    /// Subject text.
    pub subject: String,
    /// Scope keyword.
    pub scope: String,
}

impl ProjectionKey {
    /// Canonical rendering used for uniqueness checks:
    /// `kind(subject, scope=scope)`.
    pub fn render(&self) -> (r: String)
        ensures
            r@ == self.kind@ + "("@ + self.subject@ + ", scope="@ + self.scope@ + ")"@,
    {
        let mut s = owned(self.kind.as_str());
        push_str(&mut s, "(");
        push_str(&mut s, self.subject.as_str());
        push_str(&mut s, ", scope=");
        push_str(&mut s, self.scope.as_str());
        push_str(&mut s, ")");
        s
    }
}

/// An expected projection value.
#[derive(Debug, Clone, PartialEq, Eq)]
pub struct ExpectedValue {
    /// The value type (`set`, `value`, ...).
    pub kind: String,
    /// Expected members, for set values.
    pub members: Vec<String>,
    /// Expected scalar value, if any.
    pub value: Option<String>,
}

/// One labeled projection expectation inside a mutation.
#[derive(Debug, Clone, PartialEq, Eq)]
pub struct ProjectionLabel {
    /// The labeled projection.
    pub key: ProjectionKey,
    /// Its expected value.
    pub expected: ExpectedValue,
    /// Why the label holds.
    pub why: String,
}

/// One artifact validity consequence.
#[derive(Debug, Clone, PartialEq, Eq)]
pub struct ArtifactConsequence {
    /// The artifact.
    pub artifact: String,
    /// Its validity before the mutation.
    pub before: String,
    /// Its validity after the mutation.
    pub after: String,
    /// Why.
    pub why: String,
}

/// One file operation within a mutation.
#[derive(Debug, Clone, PartialEq, Eq)]
pub struct Op {
    /// `add_file`, `replace_file` or `delete_file`.
    pub op: String,
    /// The relative path it applies to.
    pub path: String,
    /// The new content, for additions and replacements.
    pub content: Option<String>,
}

/// A mutation entry in the catalog.
#[derive(Debug, Clone, PartialEq, Eq)]
pub struct Mutation {
    /// Mutation identity.
    pub id: String,
    /// Title.
    pub title: Option<String>,
    /// Parent mutation identity (`BASE` for the pristine fixture).
    pub parent: String,
    /// Purpose.
    pub purpose: Option<String>,
    /// File operations, applied in order.
    pub ops: Vec<Op>,
    /// The semantic change it intends.
    pub intended_semantic_change: Option<String>,
    /// Projections it changes.
    pub affected_projections: Vec<ProjectionLabel>,
    /// Projections it leaves unchanged.
    pub unchanged_projections: Vec<ProjectionLabel>,
    /// Artifact validity consequences.
    pub artifact_consequences: Vec<ArtifactConsequence>,
    /// Whether completeness-sensitive absence is involved.
    pub completeness_absence_involved: bool,
    /// Ground-truth rationale.
    pub ground_truth_rationale: Option<String>,
    /// Provenance notes.
    pub provenance: Vec<String>,
}

impl Mutation {
    /// Whether this mutation labels the pristine state (no ops).
    pub fn is_baseline(&self) -> (r: bool)
        ensures
            r == (self.parent@ == "BASE"@ && self.ops@.len() == 0),
    {
        str_eq(self.parent.as_str(), "BASE") && self.ops.len() == 0
    }
}

/// A seeded artifact declaration.
#[derive(Debug, Clone, PartialEq, Eq)]
pub struct ArtifactDecl {
    /// Artifact identity.
    pub id: String,
    /// Artifact kind keyword.
    pub kind: String,
    /// Proposition text, if any.
    pub proposition: Option<String>,
    /// Projection keys it depends on.
    pub depends_on: Vec<String>,
    /// Validity at the base state.
    pub base_validity: Option<String>,
    /// Authority at the base state.
    pub base_authority: Option<String>,
    /// Validity note.
    pub validity_note: Option<String>,
}

/// The declared fixture shape.
#[derive(Debug, Clone, PartialEq, Eq)]
pub struct FixtureDecl {
    /// Fixture root.
    pub root: String,
    /// Test modules the fixture holds.
    pub test_modules: Vec<String>,
    /// Number of `.py` files, if declared.
    pub file_count_py: Option<u64>,
}

/// The full oracle catalog.
#[derive(Debug, Clone, PartialEq, Eq)]
pub struct Catalog {
    /// Schema identity.
    pub schema: String,
    /// The fixture declaration.
    pub fixture: FixtureDecl,
    /// Seeded artifacts.
    pub seeded_artifacts: Vec<ArtifactDecl>,
    /// Mutations.
    pub mutations: Vec<Mutation>,
}

/// The position of the first mutation with the identity.
pub open spec fn mutation_index(ms: Seq<Mutation>, id: Seq<char>) -> Option<int>
    decreases ms.len(),
{
    if ms.len() == 0 {
        None
    } else if ms[0].id@ == id {
        Some(0)
    } else {
        match mutation_index(ms.drop_first(), id) {
            Some(k) => Some(k + 1),
            None => None,
        }
    }
}

proof fn lemma_mutation_index(ms: Seq<Mutation>, id: Seq<char>)
    ensures
        mutation_index(ms, id) matches Some(k) ==> 0 <= k < ms.len() && ms[k].id@ == id,
    decreases ms.len(),
{
    if ms.len() > 0 && ms[0].id@ != id {
        lemma_mutation_index(ms.drop_first(), id);
    }
}

impl Catalog {
    /// The required R-series mutation identities.
    pub const REQUIRED_SERIES: [&'static str; 5] = ["R0", "R1", "R2", "R3", "R4"];

    /// The adversarial X-series identities.
    pub const ADVERSARIAL_SERIES: [&'static str; 5] = ["X1", "X2", "X3", "X4", "X5"];

    /// Mutation lookup by identity: the first mutation with that id.
    pub fn mutation(&self, id: &str) -> (r: Option<&Mutation>)
        ensures
            match mutation_index(self.mutations@, id@) {
                Some(k) => r == Some(&self.mutations@[k]),
                None => r is None,
            },
    {
        let ghost ms = self.mutations@;
        let mut i: usize = 0;
        assert(ms.subrange(0, ms.len() as int) =~= ms);
        while i < self.mutations.len()
            invariant
                i <= ms.len(),
                ms == self.mutations@,
                mutation_index(ms, id@) == match mutation_index(ms.subrange(i as int, ms.len() as int), id@) {
                    Some(k) => Some(k + i),
                    None => None,
                },
            decreases self.mutations.len() - i,
        {
            let ghost rest = ms.subrange(i as int, ms.len() as int);
            assert(rest.drop_first() =~= ms.subrange(i + 1, ms.len() as int));
            assert(rest[0] == ms[i as int]);
            if str_eq(self.mutations[i].id.as_str(), id) {
                return Some(&self.mutations[i]);
            }
            i = i + 1;
        }
        None
    }
}

/// Tree entries with strictly increasing paths (a map in key order).
pub open spec fn keys_sorted(t: Seq<(Seq<char>, Seq<char>)>) -> bool {
    forall|i: int, j: int| #![trigger t[i], t[j]] 0 <= i < j < t.len() ==> String::view_le(t[i].0, t[j].0) && t[i].0 != t[j].0
}

/// The content at a path.
pub open spec fn tree_get(t: Seq<(Seq<char>, Seq<char>)>, k: Seq<char>) -> Option<Seq<char>> {
    if exists|i: int| 0 <= i < t.len() && (#[trigger] t[i]).0 == k {
        Some(t[choose|i: int| 0 <= i < t.len() && (#[trigger] t[i]).0 == k].1)
    } else {
        None
    }
}

/// The entries as a map from path to content.
pub open spec fn tree_as_map(t: Seq<(Seq<char>, Seq<char>)>) -> Map<Seq<char>, Seq<char>> {
    Map::new(|k: Seq<char>| tree_get(t, k) is Some, |k: Seq<char>| tree_get(t, k).unwrap())
}

/// What a file operation does to a tree: the new tree, or why it does not
/// apply.
pub open spec fn op_on_map(m: Map<Seq<char>, Seq<char>>, op: Op) -> Result<Map<Seq<char>, Seq<char>>, Seq<char>> {
    let path = op.path@;
    if op.op@ == "add_file"@ {
        if m.dom().contains(path) {
            Err("add_file: path already exists: "@ + path)
        } else if op.content is None {
            Err("add_file without content: "@ + path)
        } else {
            Ok(m.insert(path, op.content.unwrap()@))
        }
    } else if op.op@ == "replace_file"@ {
        if !m.dom().contains(path) {
            Err("replace_file: path missing: "@ + path)
        } else if op.content is None {
            Err("replace_file without content: "@ + path)
        } else if m[path] == op.content.unwrap()@ {
            Err("replace_file: content identical: "@ + path)
        } else {
            Ok(m.insert(path, op.content.unwrap()@))
        }
    } else if op.op@ == "delete_file"@ {
        if !m.dom().contains(path) {
            Err("delete_file: path missing: "@ + path)
        } else {
            Ok(m.remove(path))
        }
    } else {
        Err("unknown op `"@ + op.op@ + "`"@)
    }
}

/// `after` is `before` with the path set (or removed).
pub open spec fn tree_updated(before: Seq<(Seq<char>, Seq<char>)>, after: Seq<(Seq<char>, Seq<char>)>, path: Seq<char>, v: Option<Seq<char>>) -> bool {
    &&& keys_sorted(after)
    &&& tree_get(after, path) == v
    &&& forall|k: Seq<char>| k != path ==> #[trigger] tree_get(after, k) == tree_get(before, k)
}

/// The insertion position of a key in sorted entries, and whether the key
/// is present there.
fn position(tree: &Vec<(String, String)>, key: &str) -> (r: (usize, bool))
    requires
        keys_sorted(entry_views(tree@)),
    ensures
        r.0 <= tree@.len(),
        forall|i: int| 0 <= i < r.0 ==> String::view_le(#[trigger] tree@[i].0@, key@) && tree@[i].0@ != key@,
        r.1 == (r.0 < tree@.len() && tree@[r.0 as int].0@ == key@),
        !r.1 ==> forall|i: int| r.0 <= i < tree@.len() ==> String::view_le(key@, #[trigger] tree@[i].0@) && tree@[i].0@ != key@,
{
    let k = owned(key);
    let mut i: usize = 0;
    proof {
        lemma_string_le_facts();
    }
    while i < tree.len() && tree[i].0.le_exec(&k) && !str_eq(tree[i].0.as_str(), key)
        invariant
            i <= tree@.len(),
            k@ == key@,
            keys_sorted(entry_views(tree@)),
            forall|j: int| 0 <= j < i ==> String::view_le(#[trigger] tree@[j].0@, key@) && tree@[j].0@ != key@,
        decreases tree.len() - i,
    {
        i = i + 1;
    }
    let found = i < tree.len() && str_eq(tree[i].0.as_str(), key);
    proof {
        lemma_string_le_facts();
        if !found && i < tree@.len() {
            let ev = entry_views(tree@);
            assert forall|j: int| i <= j < tree@.len() implies String::view_le(key@, #[trigger] tree@[j].0@) && tree@[j].0@ != key@ by {
                assert(ev[i as int].0 == tree@[i as int].0@);
                assert(ev[j].0 == tree@[j].0@);
                assert(!String::view_le(tree@[i as int].0@, key@));
                assert(String::view_le(tree@[i as int].0@, key@) || String::view_le(key@, tree@[i as int].0@));
                assert(String::view_le(key@, tree@[i as int].0@));
                if j > i {
                    assert(String::view_le(ev[i as int].0, ev[j].0) && ev[i as int].0 != ev[j].0);
                }
                if tree@[j].0@ == key@ {
                    assert(String::view_le(tree@[i as int].0@, key@));
                    assert(String::view_le(key@, tree@[i as int].0@));
                }
            }
        }
    }
    (i, found)
}

proof fn lemma_get_at(t: Seq<(Seq<char>, Seq<char>)>, i: int)
    requires
        keys_sorted(t),
        0 <= i < t.len(),
    ensures
        tree_get(t, t[i].0) == Some(t[i].1),
{
    let j = choose|j: int| 0 <= j < t.len() && (#[trigger] t[j]).0 == t[i].0;
    if j != i {
        if j < i {
            assert(t[j].0 != t[i].0);
        } else {
            assert(t[i].0 != t[j].0);
        }
    }
}

proof fn lemma_get_absent(t: Seq<(Seq<char>, Seq<char>)>, k: Seq<char>)
    requires
        forall|i: int| 0 <= i < t.len() ==> (#[trigger] t[i]).0 != k,
    ensures
        tree_get(t, k) is None,
{
}

/// Set a path's content in sorted entries.
fn tree_put(tree: &mut Vec<(String, String)>, path: &str, content: &str)
    requires
        keys_sorted(entry_views(old(tree)@)),
    ensures
        tree_updated(entry_views(old(tree)@), entry_views(final(tree)@), path@, Some(content@)),
{
    let ghost before = entry_views(tree@);
    let (i, found) = position(tree, path);
    proof {
        lemma_string_le_facts();
    }
    if found {
        tree.set(i, (owned(path), owned(content)));
        let ghost after = entry_views(tree@);
        proof {
            assert(after =~= before.update(i as int, (path@, content@)));
            assert forall|a: int, b: int| #![trigger after[a], after[b]] 0 <= a < b < after.len() implies String::view_le(after[a].0, after[b].0) && after[a].0 != after[b].0 by {
                assert(before[a].0 == after[a].0 && before[b].0 == after[b].0);
            }
            lemma_get_at(after, i as int);
            assert forall|k: Seq<char>| k != path@ implies #[trigger] tree_get(after, k) == tree_get(before, k) by {
                if exists|j: int| 0 <= j < before.len() && (#[trigger] before[j]).0 == k {
                    let j = choose|j: int| 0 <= j < before.len() && (#[trigger] before[j]).0 == k;
                    lemma_get_at(before, j);
                    assert(after[j] == before[j]);
                    lemma_get_at(after, j);
                } else {
                    assert forall|j: int| 0 <= j < after.len() implies (#[trigger] after[j]).0 != k by {
                        if j != i {
                            assert(after[j] == before[j]);
                        }
                    }
                    lemma_get_absent(after, k);
                }
            }
        }
    } else {
        tree.insert(i, (owned(path), owned(content)));
        let ghost after = entry_views(tree@);
        proof {
            assert(after =~= before.subrange(0, i as int).push((path@, content@)) + before.subrange(i as int, before.len() as int));
            assert forall|j: int| 0 <= j < after.len() implies #[trigger] after[j] == if j < i {
                before[j]
            } else if j == i {
                (path@, content@)
            } else {
                before[j - 1]
            } by {}
            assert forall|a: int, b: int| #![trigger after[a], after[b]] 0 <= a < b < after.len() implies String::view_le(after[a].0, after[b].0) && after[a].0 != after[b].0 by {
                if a < i && b < i {
                    assert(before[a] == after[a] && before[b] == after[b]);
                } else if a < i && b == i {
                    assert(before[a] == after[a]);
                    assert(tree@[a].0@ == before[a].0);
                } else if a < i && b > i {
                    assert(before[a] == after[a] && before[b - 1] == after[b]);
                    assert(tree@[a].0@ == before[a].0);
                    assert(old(tree)@[b - 1].0@ == before[b - 1].0);
                } else if a == i {
                    assert(before[b - 1] == after[b]);
                    assert(old(tree)@[b - 1].0@ == before[b - 1].0);
                } else {
                    assert(before[a - 1] == after[a] && before[b - 1] == after[b]);
                }
            }
            lemma_get_at(after, i as int);
            assert forall|k: Seq<char>| k != path@ implies #[trigger] tree_get(after, k) == tree_get(before, k) by {
                if exists|j: int| 0 <= j < before.len() && (#[trigger] before[j]).0 == k {
                    let j = choose|j: int| 0 <= j < before.len() && (#[trigger] before[j]).0 == k;
                    lemma_get_at(before, j);
                    if j < i {
                        assert(after[j] == before[j]);
                        lemma_get_at(after, j);
                    } else {
                        assert(after[j + 1] == before[j]);
                        lemma_get_at(after, j + 1);
                    }
                } else {
                    assert forall|j: int| 0 <= j < after.len() implies (#[trigger] after[j]).0 != k by {
                        if j < i {
                            assert(after[j] == before[j]);
                        } else if j > i {
                            assert(after[j] == before[j - 1]);
                        }
                    }
                    lemma_get_absent(after, k);
                }
            }
        }
    }
}

/// Remove a present path from sorted entries.
fn tree_delete(tree: &mut Vec<(String, String)>, i: usize)
    requires
        keys_sorted(entry_views(old(tree)@)),
        i < old(tree)@.len(),
    ensures
        tree_updated(entry_views(old(tree)@), entry_views(final(tree)@), old(tree)@[i as int].0@, None),
{
    let ghost before = entry_views(tree@);
    let ghost key = tree@[i as int].0@;
    tree.remove(i);
    let ghost after = entry_views(tree@);
    proof {
        assert(after =~= before.subrange(0, i as int) + before.subrange(i + 1, before.len() as int));
        assert forall|j: int| 0 <= j < after.len() implies #[trigger] after[j] == if j < i {
            before[j]
        } else {
            before[j + 1]
        } by {}
        assert forall|a: int, b: int| #![trigger after[a], after[b]] 0 <= a < b < after.len() implies String::view_le(after[a].0, after[b].0) && after[a].0 != after[b].0 by {
            if a < i && b < i {
                assert(before[a] == after[a] && before[b] == after[b]);
            } else if a < i {
                assert(before[a] == after[a] && before[b + 1] == after[b]);
            } else {
                assert(before[a + 1] == after[a] && before[b + 1] == after[b]);
            }
        }
        assert forall|j: int| 0 <= j < after.len() implies (#[trigger] after[j]).0 != key by {
            if j < i {
                assert(after[j] == before[j]);
                assert(before[j].0 != before[i as int].0);
            } else {
                assert(after[j] == before[j + 1]);
                assert(before[i as int].0 != before[j + 1].0);
            }
        }
        lemma_get_absent(after, key);
        assert forall|k: Seq<char>| k != key implies #[trigger] tree_get(after, k) == tree_get(before, k) by {
            if exists|j: int| 0 <= j < before.len() && (#[trigger] before[j]).0 == k {
                let j = choose|j: int| 0 <= j < before.len() && (#[trigger] before[j]).0 == k;
                lemma_get_at(before, j);
                assert(j != i);
                if j < i {
                    assert(after[j] == before[j]);
                    lemma_get_at(after, j);
                } else {
                    assert(after[j - 1] == before[j]);
                    lemma_get_at(after, j - 1);
                }
            } else {
                assert forall|j: int| 0 <= j < after.len() implies (#[trigger] after[j]).0 != k by {
                    if j < i {
                        assert(after[j] == before[j]);
                    } else {
                        assert(after[j] == before[j + 1]);
                    }
                }
                lemma_get_absent(after, k);
            }
        }
    }
}

proof fn lemma_map_get(t: Seq<(Seq<char>, Seq<char>)>, k: Seq<char>)
    ensures
        tree_as_map(t).dom().contains(k) <==> tree_get(t, k) is Some,
        tree_get(t, k) is Some ==> tree_as_map(t)[k] == tree_get(t, k).unwrap(),
{
}

proof fn lemma_updated_map(before: Seq<(Seq<char>, Seq<char>)>, after: Seq<(Seq<char>, Seq<char>)>, path: Seq<char>, v: Option<Seq<char>>)
    requires
        tree_updated(before, after, path, v),
    ensures
        tree_as_map(after) == match v {
            Some(c) => tree_as_map(before).insert(path, c),
            None => tree_as_map(before).remove(path),
        },
{
    let m = match v {
        Some(c) => tree_as_map(before).insert(path, c),
        None => tree_as_map(before).remove(path),
    };
    assert forall|k: Seq<char>| #[trigger] tree_as_map(after).dom().contains(k) <==> m.dom().contains(k) by {
        if k != path {
            assert(tree_get(after, k) == tree_get(before, k));
        }
    }
    assert forall|k: Seq<char>| tree_as_map(after).dom().contains(k) implies #[trigger] tree_as_map(after)[k] == m[k] by {
        if k != path {
            assert(tree_get(after, k) == tree_get(before, k));
        }
    }
    assert(tree_as_map(after) =~= m);
}

fn message(prefix: &str, path: &str) -> (r: String)
    ensures
        r@ == prefix@ + path@,
{
    let mut s = owned(prefix);
    push_str(&mut s, path);
    s
}

/// Apply one file operation to a tree (entries in path order). An
/// operation that does not apply cleanly leaves the tree unchanged and
/// says why.
pub fn apply_op(tree: &mut Vec<(String, String)>, op: &Op) -> (r: Result<(), String>)
    requires
        keys_sorted(entry_views(old(tree)@)),
    ensures
        keys_sorted(entry_views(final(tree)@)),
        match op_on_map(tree_as_map(entry_views(old(tree)@)), *op) {
            Err(e) => r matches Err(m) && m@ == e && final(tree)@ == old(tree)@,
            Ok(m) => r is Ok && tree_as_map(entry_views(final(tree)@)) == m,
        },
{
    let path = op.path.as_str();
    let ghost before = entry_views(tree@);
    let (i, found) = position(tree, path);
    proof {
        if found {
            lemma_get_at(before, i as int);
        } else {
            lemma_string_le_facts();
            assert forall|j: int| 0 <= j < before.len() implies (#[trigger] before[j]).0 != path@ by {
                assert(before[j].0 == tree@[j].0@);
            }
            lemma_get_absent(before, path@);
        }
    }
    proof {
        lemma_map_get(before, path@);
    }
    if str_eq(op.op.as_str(), "add_file") {
        if found {
            return Err(message("add_file: path already exists: ", path));
        }
        match &op.content {
            None => Err(message("add_file without content: ", path)),
            Some(c) => {
                tree_put(tree, path, c.as_str());
                proof {
                    lemma_updated_map(before, entry_views(tree@), path@, Some(c@));
                }
                Ok(())
            },
        }
    } else if str_eq(op.op.as_str(), "replace_file") {
        if !found {
            return Err(message("replace_file: path missing: ", path));
        }
        match &op.content {
            None => Err(message("replace_file without content: ", path)),
            Some(c) => {
                if str_eq(tree[i].1.as_str(), c.as_str()) {
                    return Err(message("replace_file: content identical: ", path));
                }
                tree_put(tree, path, c.as_str());
                proof {
                    lemma_updated_map(before, entry_views(tree@), path@, Some(c@));
                }
                Ok(())
            },
        }
    } else if str_eq(op.op.as_str(), "delete_file") {
        if !found {
            return Err(message("delete_file: path missing: ", path));
        }
        tree_delete(tree, i);
        proof {
            lemma_updated_map(before, entry_views(tree@), path@, None);
        }
        Ok(())
    } else {
        let mut m = owned("unknown op `");
        push_str(&mut m, op.op.as_str());
        push_str(&mut m, "`");
        Err(m)
    }
}

/// The walk from a mutation up its parents, leaf first, within `fuel`
/// steps: the positions of the mutations met before `BASE`, or the error
/// for the first unknown identity met; nothing when the walk has not ended.
pub open spec fn walk(ms: Seq<Mutation>, id: Seq<char>, fuel: nat) -> Option<Result<Seq<int>, Seq<char>>>
    decreases fuel,
{
    if id == "BASE"@ {
        Some(Ok(Seq::empty()))
    } else if fuel == 0 {
        None
    } else {
        match mutation_index(ms, id) {
            None => Some(Err("unknown parent id `"@ + id + "`"@)),
            Some(k) => match walk(ms, ms[k].parent@, (fuel - 1) as nat) {
                Some(Ok(c)) => Some(Ok(seq![k] + c)),
                other => other,
            },
        }
    }
}

/// The parent walk from a mutation ends (at `BASE` or an unknown id).
pub open spec fn walk_ends(ms: Seq<Mutation>, id: Seq<char>) -> bool {
    exists|n: nat| #[trigger] walk(ms, id, n) is Some
}

/// The outcome of the parent walk from a mutation.
pub open spec fn walk_result(ms: Seq<Mutation>, id: Seq<char>) -> Option<Result<Seq<int>, Seq<char>>> {
    walk(ms, id, choose|n: nat| #[trigger] walk(ms, id, n) is Some)
}

/// Operations applied in order.
pub open spec fn ops_on_map(m: Map<Seq<char>, Seq<char>>, ops: Seq<Op>) -> Result<Map<Seq<char>, Seq<char>>, Seq<char>>
    decreases ops.len(),
{
    if ops.len() == 0 {
        Ok(m)
    } else {
        match ops_on_map(m, ops.drop_last()) {
            Err(e) => Err(e),
            Ok(m1) => op_on_map(m1, ops.last()),
        }
    }
}

/// The mutations at the given positions applied in order; an operation
/// that does not apply names its mutation.
pub open spec fn chain_on_map(m: Map<Seq<char>, Seq<char>>, ms: Seq<Mutation>, chain: Seq<int>) -> Result<Map<Seq<char>, Seq<char>>, Seq<char>>
    decreases chain.len(),
{
    if chain.len() == 0 {
        Ok(m)
    } else {
        match chain_on_map(m, ms, chain.drop_last()) {
            Err(e) => Err(e),
            Ok(m1) => match ops_on_map(m1, ms[chain.last()].ops@) {
                Ok(m2) => Ok(m2),
                Err(e) => Err("in mutation "@ + ms[chain.last()].id@ + ": "@ + e),
            },
        }
    }
}

/// The walk that ended stays ended, with the same outcome, given more
/// steps.
proof fn lemma_walk_more(ms: Seq<Mutation>, id: Seq<char>, a: nat, b: nat)
    requires
        a <= b,
        walk(ms, id, a) is Some,
    ensures
        walk(ms, id, b) == walk(ms, id, a),
    decreases a,
{
    if id != "BASE"@ && a > 0 {
        match mutation_index(ms, id) {
            None => {},
            Some(k) => {
                lemma_walk_more(ms, ms[k].parent@, (a - 1) as nat, (b - 1) as nat);
            },
        }
    }
}

/// Whether the parent walk from a mutation ends (at `BASE` or an unknown
/// id) within one step more than there are catalogued mutations: the check
/// that lets [`tree_at`] be called.
pub fn walk_ends_within(catalog: &Catalog, id: &str) -> (r: bool)
    ensures
        r == (walk(catalog.mutations@, id@, (catalog.mutations@.len() + 1) as nat) is Some),
        r ==> walk_ends(catalog.mutations@, id@),
{
    let ghost ms = catalog.mutations@;
    let ghost total = (ms.len() + 1) as nat;
    let mut current = owned(id);
    let mut rem: usize = catalog.mutations.len();
    loop
        invariant
            ms == catalog.mutations@,
            total == (ms.len() + 1) as nat,
            rem <= ms.len(),
            (walk(ms, id@, total) is Some) == (walk(ms, current@, (rem + 1) as nat) is Some),
        decreases rem,
    {
        proof {
            reveal_strlit("BASE");
            lemma_mutation_index(ms, current@);
            reveal_with_fuel(walk, 2);
        }
        if str_eq(current.as_str(), "BASE") {
            proof {
                assert(walk(ms, id@, total) is Some);
            }
            return true;
        }
        match catalog.mutation(current.as_str()) {
            None => {
                proof {
                    assert(walk(ms, id@, total) is Some);
                }
                return true;
            },
            Some(m) => {
                let ghost k = mutation_index(ms, current@).unwrap();
                assert(*m == ms[k]);
                if rem == 0 {
                    let ends = str_eq(m.parent.as_str(), "BASE");
                    proof {
                        if ends {
                            assert(walk(ms, id@, total) is Some);
                        }
                    }
                    return ends;
                }
                current = m.parent.clone();
                rem = rem - 1;
            },
        }
    }
}

/// Fold the tree for a mutation identity: the base tree (entries in path
/// order) with the operations of its ancestor chain applied root first.
/// Requires that the parent walk from `id` ends.
pub fn tree_at(catalog: &Catalog, id: &str, base: Vec<(String, String)>) -> (r: Result<Vec<(String, String)>, String>)
    requires
        keys_sorted(entry_views(base@)),
        walk_ends(catalog.mutations@, id@),
    ensures
        match walk_result(catalog.mutations@, id@) {
            Some(Err(e)) => r matches Err(m) && m@ == e,
            Some(Ok(leaf_first)) => match chain_on_map(tree_as_map(entry_views(base@)), catalog.mutations@, leaf_first.reverse()) {
                Err(e) => r matches Err(m) && m@ == e,
                Ok(mp) => r matches Ok(t) && keys_sorted(entry_views(t@)) && tree_as_map(entry_views(t@)) == mp,
            },
            None => false,
        },
{
    let ghost ms = catalog.mutations@;
    let ghost n = choose|n: nat| #[trigger] walk(ms, id@, n) is Some;
    let ghost total = walk(ms, id@, n);
    let mut chain: Vec<usize> = Vec::new();
    let mut current = owned(id);
    let ghost mut fuel: nat = n;
    loop
        invariant_except_break
            ms == catalog.mutations@,
            total == walk_result(ms, id@),
            walk(ms, current@, fuel) is Some,
            total == match walk(ms, current@, fuel) {
                Some(Ok(c)) => Some(Ok(chain@.map_values(|k: usize| k as int) + c)),
                other => other,
            },
            forall|j: int| 0 <= j < chain@.len() ==> chain@[j] < ms.len(),
        ensures
            ms == catalog.mutations@,
            total == walk_result(ms, id@),
            forall|j: int| 0 <= j < chain@.len() ==> chain@[j] < ms.len(),
            total == Some(Ok::<Seq<int>, Seq<char>>(chain@.map_values(|k: usize| k as int))),
        decreases fuel,
    {
        if str_eq(current.as_str(), "BASE") {
            assert(chain@.map_values(|k: usize| k as int) + Seq::<int>::empty() =~= chain@.map_values(|k: usize| k as int));
            break;
        }
        proof {
            lemma_mutation_index(ms, current@);
        }
        let m = match catalog.mutation(current.as_str()) {
            Some(m) => m,
            None => {
                let mut e = owned("unknown parent id `");
                push_str(&mut e, current.as_str());
                push_str(&mut e, "`");
                proof {
                    assert(fuel > 0);
                    assert(mutation_index(ms, current@) is None);
                    assert(walk(ms, current@, fuel) == Some(Err::<Seq<int>, Seq<char>>("unknown parent id `"@ + current@ + "`"@)));
                    assert(total == walk_result(ms, id@));
                }
                return Err(e);
            },
        };
        let ghost k = mutation_index(ms, current@).unwrap();
        let mut k_exec: usize = 0;
        while k_exec < catalog.mutations.len() && !str_eq(catalog.mutations[k_exec].id.as_str(), current.as_str())
            invariant
                k_exec <= ms.len(),
                ms == catalog.mutations@,
                0 <= k < ms.len(),
                ms[k].id@ == current@,
                k_exec <= k,
                mutation_index(ms, current@) == Some(k),
                forall|j: int| 0 <= j < k_exec ==> ms[j].id@ != current@,
            decreases catalog.mutations.len() - k_exec,
        {
            k_exec = k_exec + 1;
        }
        proof {
            lemma_first_index(ms, current@, k_exec as int);
        }
        let ghost before = chain@.map_values(|k: usize| k as int);
        chain.push(k_exec);
        proof {
            assert(chain@.map_values(|k: usize| k as int) =~= before.push(k_exec as int));
            let c = walk(ms, ms[k].parent@, (fuel - 1) as nat);
            if let Some(Ok(cc)) = c {
                assert(before + (seq![k] + cc) =~= before.push(k) + cc);
            }
        }
        current = m.parent.clone();
        proof {
            fuel = (fuel - 1) as nat;
        }
    }
    let mut tree = base;
    let ghost leaf_first = chain@.map_values(|k: usize| k as int);
    let ghost root_first = leaf_first.reverse();
    let mut step: usize = chain.len();
    let ghost mut applied: nat = 0;
    while step > 0
        invariant
            step <= chain@.len(),
            applied == chain@.len() - step,
            ms == catalog.mutations@,
            total == walk_result(ms, id@),
            total == Some(Ok::<Seq<int>, Seq<char>>(leaf_first)),
            forall|j: int| 0 <= j < chain@.len() ==> chain@[j] < ms.len(),
            leaf_first == chain@.map_values(|k: usize| k as int),
            root_first == leaf_first.reverse(),
            keys_sorted(entry_views(tree@)),
            keys_sorted(entry_views(base@)),
            chain_on_map(tree_as_map(entry_views(base@)), ms, root_first.subrange(0, applied as int)) == Ok::<Map<Seq<char>, Seq<char>>, Seq<char>>(tree_as_map(entry_views(tree@))),
        decreases step,
    {
        let k = chain[step - 1];
        let m = &catalog.mutations[k];
        let ghost start = tree_as_map(entry_views(tree@));
        let mut o: usize = 0;
        while o < m.ops.len()
            invariant
                o <= m.ops@.len(),
                keys_sorted(entry_views(tree@)),
                0 < step <= chain@.len(),
                applied == chain@.len() - step,
                k == chain@[step - 1],
                ms == catalog.mutations@,
                total == walk_result(ms, id@),
                total == Some(Ok::<Seq<int>, Seq<char>>(leaf_first)),
                k < ms.len(),
                *m == ms[k as int],
                leaf_first == chain@.map_values(|k: usize| k as int),
                root_first == leaf_first.reverse(),
                chain_on_map(tree_as_map(entry_views(base@)), ms, root_first.subrange(0, applied as int)) == Ok::<Map<Seq<char>, Seq<char>>, Seq<char>>(start),
                ops_on_map(start, m.ops@.subrange(0, o as int)) == Ok::<Map<Seq<char>, Seq<char>>, Seq<char>>(tree_as_map(entry_views(tree@))),
            decreases m.ops.len() - o,
        {
            let ghost cur = tree_as_map(entry_views(tree@));
            proof {
                let nxt = m.ops@.subrange(0, o + 1);
                assert(nxt.drop_last() =~= m.ops@.subrange(0, o as int));
                assert(nxt.last() == m.ops@[o as int]);
            }
            match apply_op(&mut tree, &m.ops[o]) {
                Ok(()) => {},
                Err(e) => {
                    proof {
                        lemma_ops_err(start, m.ops@, o as int + 1);
                        assert(root_first[applied as int] == k as int);
                        let pre = root_first.subrange(0, applied as int);
                        let nxt = root_first.subrange(0, applied as int + 1);
                        assert(nxt.drop_last() =~= pre);
                        assert(m.ops@.subrange(0, m.ops@.len() as int) =~= m.ops@);
                        lemma_chain_err(tree_as_map(entry_views(base@)), ms, root_first, applied as int + 1);
                    }
                    let mut msg = owned("in mutation ");
                    push_str(&mut msg, m.id.as_str());
                    push_str(&mut msg, ": ");
                    push_str(&mut msg, e.as_str());
                    return Err(msg);
                },
            }
            o = o + 1;
        }
        proof {
            assert(m.ops@.subrange(0, m.ops@.len() as int) =~= m.ops@);
            assert(root_first[applied as int] == k as int);
            let nxt = root_first.subrange(0, applied as int + 1);
            assert(nxt.drop_last() =~= root_first.subrange(0, applied as int));
            applied = applied + 1;
        }
        step = step - 1;
    }
    assert(root_first.subrange(0, chain@.len() as int) =~= root_first);
    Ok(tree)
}

proof fn lemma_first_index(ms: Seq<Mutation>, id: Seq<char>, i: int)
    requires
        0 <= i < ms.len(),
        ms[i].id@ == id,
        forall|j: int| 0 <= j < i ==> ms[j].id@ != id,
    ensures
        mutation_index(ms, id) == Some(i),
    decreases i,
{
    if i > 0 {
        lemma_first_index(ms.drop_first(), id, i - 1);
    }
}

proof fn lemma_ops_err(m: Map<Seq<char>, Seq<char>>, ops: Seq<Op>, i: int)
    requires
        0 < i <= ops.len(),
        ops_on_map(m, ops.subrange(0, i)) is Err,
    ensures
        ops_on_map(m, ops) == ops_on_map(m, ops.subrange(0, i)),
    decreases ops.len() - i,
{
    if i < ops.len() {
        let nxt = ops.subrange(0, i + 1);
        assert(nxt.drop_last() =~= ops.subrange(0, i));
        lemma_ops_err(m, ops, i + 1);
    } else {
        assert(ops.subrange(0, i) =~= ops);
    }
}

proof fn lemma_chain_err(m: Map<Seq<char>, Seq<char>>, ms: Seq<Mutation>, chain: Seq<int>, i: int)
    requires
        0 < i <= chain.len(),
        chain_on_map(m, ms, chain.subrange(0, i)) is Err,
    ensures
        chain_on_map(m, ms, chain) == chain_on_map(m, ms, chain.subrange(0, i)),
    decreases chain.len() - i,
{
    if i < chain.len() {
        let nxt = chain.subrange(0, i + 1);
        assert(nxt.drop_last() =~= chain.subrange(0, i));
        lemma_chain_err(m, ms, chain, i + 1);
    } else {
        assert(chain.subrange(0, i) =~= chain);
    }
}

} // verus!
