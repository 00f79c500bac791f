//! The normalized semantic graph a SCIP index is ingested into.
use vstd::prelude::*;

use crate::coverage::{joined, CoverageCertificate, CoverageState};
use crate::hash::blake3_digest;
use crate::ids::{ContentHash, HashAlgo, SemanticSnapshotId};
use crate::order::{canonical_set, canonical_set_of, strictly_sorted, views, Ordered};
use crate::program::model::{join_strings_pub, join_with};
use crate::text::{contains_string, lemma_string_le_facts, owned, push_char, push_str, utf8};

verus! {

/// The indexer identity recorded in coverage evidence: adapter version +
/// tool name + tool version from the SCIP metadata.
#[derive(Debug, PartialEq, Eq)]
pub struct ScipIdentity {
    /// The SCIP tool that produced the index (e.g. "scip-python").
    pub tool: String,
    /// The tool's declared version.
    pub version: String,
    /// The adapter's own ingest version (bump on normalization changes).
    pub adapter: String,
}

/// The adapter ingest identity: bumped when normalization semantics
/// change.
pub const ADAPTER_VERSION: &'static str = "trellis-scip-ingest/1";

/// `<adapter> (<tool> <version>)`.
pub open spec fn identity_text(adapter: Seq<char>, tool: Seq<char>, version: Seq<char>) -> Seq<char> {
    adapter + " ("@ + tool + " "@ + version + ")"@
}

impl ScipIdentity {
    /// Identity from SCIP metadata fields.
    pub fn new(tool: &str, version: &str) -> (r: Self)
        ensures
            r.tool@ == tool@,
            r.version@ == version@,
            r.adapter@ == ADAPTER_VERSION@,
    {
        ScipIdentity { tool: owned(tool), version: owned(version), adapter: owned(ADAPTER_VERSION) }
    }

    /// Canonical rendering for coverage evidence.
    pub fn render(&self) -> (r: String)
        ensures
            r@ == identity_text(self.adapter@, self.tool@, self.version@),
    {
        let mut s = owned(self.adapter.as_str());
        push_str(&mut s, " (");
        push_str(&mut s, self.tool.as_str());
        push_str(&mut s, " ");
        push_str(&mut s, self.version.as_str());
        push_str(&mut s, ")");
        s
    }
}

/// A key with its member list, as views.
pub type MemberEntries = Seq<(Seq<char>, Seq<Seq<char>>)>;

/// The members recorded for a key (empty when the key is absent).
pub open spec fn members_of(e: MemberEntries, key: Seq<char>) -> Seq<Seq<char>>
    decreases e.len(),
{
    if e.len() == 0 {
        Seq::empty()
    } else if e[0].0 == key {
        e[0].1
    } else {
        members_of(e.drop_first(), key)
    }
}

/// The members paired with a key, in pair order.
pub open spec fn pair_members(pairs: Seq<(Seq<char>, Seq<char>)>, key: Seq<char>) -> Seq<Seq<char>> {
    pairs.filter(key_is(key)).map_values(|p: (Seq<char>, Seq<char>)| p.1)
}

/// The pairs whose key is `key`.
pub open spec fn key_is(key: Seq<char>) -> spec_fn((Seq<char>, Seq<char>)) -> bool {
    |p: (Seq<char>, Seq<char>)| p.0 == key
}

/// The keys of a pair list.
pub open spec fn pair_keys(pairs: Seq<(Seq<char>, Seq<char>)>) -> Seq<Seq<char>> {
    pairs.map_values(|p: (Seq<char>, Seq<char>)| p.0)
}

/// `e` is the canonical grouping of `pairs`: one entry per distinct key in
/// byte order, each with the distinct members paired with it in byte
/// order.
pub open spec fn grouped(e: MemberEntries, pairs: Seq<(Seq<char>, Seq<char>)>) -> bool {
    &&& canonical_set_of::<String>(e.map_values(|x: (Seq<char>, Seq<Seq<char>>)| x.0), pair_keys(pairs))
    &&& forall|i: int|
        0 <= i < e.len() ==> canonical_set_of::<String>(#[trigger] e[i].1, pair_members(pairs, e[i].0))
}

/// Canonical symbol → members sets: keys in byte order, each member list
/// sorted and duplicate-free.
#[derive(Debug, PartialEq, Eq)]
pub struct MemberMap {
    entries: Vec<(String, Vec<String>)>,
}

/// The views of an entry list.
pub open spec fn entry_views(e: Seq<(String, Vec<String>)>) -> MemberEntries {
    e.map_values(|x: (String, Vec<String>)| (x.0@, views(x.1@)))
}

impl View for MemberMap {
    type V = MemberEntries;

    closed spec fn view(&self) -> MemberEntries {
        entry_views(self.entries@)
    }
}

/// The distinct string in a canonical list: each member list and the key
/// list are strictly increasing.
pub open spec fn entries_canonical(e: MemberEntries) -> bool {
    &&& strictly_sorted::<String>(e.map_values(|x: (Seq<char>, Seq<Seq<char>>)| x.0))
    &&& forall|i: int| 0 <= i < e.len() ==> strictly_sorted::<String>(#[trigger] e[i].1)
}

fn clone_members(v: &Vec<String>) -> (r: Vec<String>)
    ensures
        views(r@) == views(v@),
{
    crate::coverage::clone_strings(v.as_slice())
}

impl MemberMap {
    #[verifier::type_invariant]
    spec fn canonical(self) -> bool {
        entries_canonical(self@)
    }

    /// The empty map.
    pub fn new() -> (r: Self)
        ensures
            r@.len() == 0,
    {
        MemberMap { entries: Vec::new() }
    }

    /// Group `(key, member)` pairs canonically.
    pub fn from_pairs(pairs: &[(String, String)]) -> (r: Self)
        ensures
            grouped(r@, views(pairs@)),
    {
        let ghost pv = views(pairs@);
        let mut keys: Vec<String> = Vec::new();
        let mut i: usize = 0;
        while i < pairs.len()
            invariant
                i <= pairs@.len(),
                pv == views(pairs@),
                views(keys@) == pair_keys(pv.subrange(0, i as int)),
            decreases pairs.len() - i,
        {
            let ghost pre = keys@;
            let k = pairs[i].0.clone();
            keys.push(k);
            proof {
                crate::order::lemma_views_push(pre, k);
                assert(pair_keys(pv.subrange(0, i + 1)) =~= pair_keys(pv.subrange(0, i as int)).push(pv[i as int].0));
            }
            i = i + 1;
        }
        assert(pv.subrange(0, pairs@.len() as int) =~= pv);
        let keys = canonical_set(keys);
        let mut entries: Vec<(String, Vec<String>)> = Vec::new();
        let mut j: usize = 0;
        while j < keys.len()
            invariant
                j <= keys@.len(),
                pv == views(pairs@),
                canonical_set_of::<String>(views(keys@), pair_keys(pv)),
                entries@.len() == j,
                forall|q: int| 0 <= q < j ==> (#[trigger] entries@[q]).0@ == keys@[q]@,
                forall|q: int|
                    0 <= q < j ==> canonical_set_of::<String>(views((#[trigger] entries@[q]).1@), pair_members(pv, keys@[q]@)),
            decreases keys.len() - j,
        {
            let mut ms: Vec<String> = Vec::new();
            let ghost key = keys@[j as int]@;
            let mut k: usize = 0;
            while k < pairs.len()
                invariant
                    k <= pairs@.len(),
                    pv == views(pairs@),
                    j < keys@.len(),
                    key == keys@[j as int]@,
                    views(ms@) == pair_members(pv.subrange(0, k as int), key),
                decreases pairs.len() - k,
            {
                let ghost pre = ms@;
                let ghost sub = pv.subrange(0, k + 1);
                proof {
                    assert(sub.drop_last() =~= pv.subrange(0, k as int));
                    assert(sub.last() == pv[k as int]);
                    crate::order::lemma_filter_push(pv.subrange(0, k as int), key_is(key), pv[k as int]);
                    assert(pv.subrange(0, k as int).push(pv[k as int]) =~= sub);
                }
                let ghost prefix = pv.subrange(0, k as int);
                if pairs[k].0 == keys[j] {
                    let m = pairs[k].1.clone();
                    ms.push(m);
                    proof {
                        crate::order::lemma_views_push(pre, m);
                        assert(pv[k as int] == pairs@[k as int]@);
                        assert(pair_members(sub, key) =~= pair_members(prefix, key).push(pv[k as int].1));
                    }
                } else {
                    proof {
                        assert(pv[k as int] == pairs@[k as int]@);
                        assert(pair_members(sub, key) =~= pair_members(prefix, key));
                    }
                }
                k = k + 1;
            }
            assert(pv.subrange(0, pairs@.len() as int) =~= pv);
            let ms = canonical_set(ms);
            let key_copy = keys[j].clone();
            entries.push((key_copy, ms));
            j = j + 1;
        }
        proof {
            let e = entry_views(entries@);
            assert(e.map_values(|x: (Seq<char>, Seq<Seq<char>>)| x.0) =~= views(keys@));
            assert forall|q: int| 0 <= q < e.len() implies strictly_sorted::<String>(#[trigger] e[q].1) by {
                assert(e[q] == (entries@[q].0@, views(entries@[q].1@)));
            }
        }
        let r = MemberMap { entries };
        proof {
            let e = r@;
            assert(e.map_values(|x: (Seq<char>, Seq<Seq<char>>)| x.0) =~= views(keys@));
            assert forall|q: int| 0 <= q < e.len() implies canonical_set_of::<String>(
                #[trigger] e[q].1,
                pair_members(pv, e[q].0),
            ) by {
                assert(e[q] == (entries@[q].0@, views(entries@[q].1@)));
            }
            assert forall|q: int| 0 <= q < e.len() implies strictly_sorted::<String>(#[trigger] e[q].1) by {
                assert(e[q] == (entries@[q].0@, views(entries@[q].1@)));
            }
        }
        r
    }

    /// The entries in key order.
    pub fn entries(&self) -> (r: &[(String, Vec<String>)])
        ensures
            entry_views(r@) == self@,
            entries_canonical(self@),
    {
        proof {
            use_type_invariant(self);
        }
        self.entries.as_slice()
    }

    /// The members of a key (empty when absent), in canonical order.
    pub fn members(&self, key: &str) -> (r: Vec<String>)
        ensures
            views(r@) == members_of(self@, key@),
    {
        let ghost e = self@;
        let mut i: usize = 0;
        proof {
            assert(e.subrange(0, e.len() as int) =~= e);
        }
        while i < self.entries.len()
            invariant
                i <= self.entries@.len(),
                e == self@,
                members_of(e, key@) == members_of(e.subrange(i as int, e.len() as int), key@),
            decreases self.entries.len() - i,
        {
            let ghost rest = e.subrange(i as int, e.len() as int);
            proof {
                assert(rest.drop_first() =~= e.subrange(i + 1, e.len() as int));
                assert(rest[0] == e[i as int]);
                assert(e[i as int] == (self.entries@[i as int].0@, views(self.entries@[i as int].1@)));
            }
            if crate::text::str_eq(self.entries[i].0.as_str(), key) {
                return clone_members(&self.entries[i].1);
            }
            i = i + 1;
        }
        proof {
            assert(e.subrange(i as int, e.len() as int).len() == 0);
        }
        Vec::new()
    }
}

impl Clone for MemberMap {
    fn clone(&self) -> (r: Self)
        ensures
            r@ == self@,
    {
        proof {
            use_type_invariant(self);
        }
        let mut entries: Vec<(String, Vec<String>)> = Vec::new();
        let mut i: usize = 0;
        while i < self.entries.len()
            invariant
                i <= self.entries@.len(),
                entry_views(entries@) == entry_views(self.entries@).subrange(0, i as int),
            decreases self.entries.len() - i,
        {
            let ghost pre = entries@;
            let item = (self.entries[i].0.clone(), clone_members(&self.entries[i].1));
            entries.push(item);
            proof {
                assert(entry_views(entries@) =~= entry_views(pre).push((item.0@, views(item.1@))));
                assert(entry_views(self.entries@).subrange(0, i + 1) =~= entry_views(self.entries@).subrange(0, i as int).push(entry_views(self.entries@)[i as int]));
            }
            i = i + 1;
        }
        assert(entry_views(self.entries@).subrange(0, self.entries@.len() as int) =~= entry_views(self.entries@));
        MemberMap { entries }
    }
}

/// The normalized semantic graph Trellis ingests a SCIP index into.
/// Canonical sets: sorted, deduplicated, member form
/// `<dotted module>.<dotted scope>`.
#[derive(Debug, PartialEq, Eq)]
pub struct ScipGraph {
    /// symbol → callers (precise call/reference resolution).
    pub callers: MemberMap,
    /// symbol → referencing modules/units (non-definition occurrences).
    pub references: MemberMap,
    /// interface/trait symbol → implementing symbols.
    pub implementations: MemberMap,
    /// interface/trait symbol → subclass symbols.
    pub subclasses: MemberMap,
    /// Relative paths of the documents present in the index.
    pub documents: Vec<String>,
}

impl Default for ScipGraph {
    fn default() -> (r: Self)
        ensures
            r.callers@.len() == 0,
            r.references@.len() == 0,
            r.implementations@.len() == 0,
            r.subclasses@.len() == 0,
            r.documents@.len() == 0,
    {
        ScipGraph {
            callers: MemberMap::new(),
            references: MemberMap::new(),
            implementations: MemberMap::new(),
            subclasses: MemberMap::new(),
            documents: Vec::new(),
        }
    }
}

/// The digest items of one member map: `<label><subject>=<members joined
/// by ,>` per entry.
pub open spec fn map_items(label: Seq<char>, e: MemberEntries) -> Seq<Seq<char>> {
    e.map_values(|x: (Seq<char>, Seq<Seq<char>>)| label + x.0 + "="@ + join_with(x.1, ","@))
}

/// The digest material of a graph under an indexer identity.
pub open spec fn graph_material(g: ScipGraph, identity: Seq<char>) -> Seq<char> {
    joined(
        "trellis.semantic-snapshot.v1"@,
        seq![identity] + map_items("callers:"@, g.callers@) + map_items("references:"@, g.references@)
            + map_items("implementations:"@, g.implementations@) + map_items(
            "subclasses:"@,
            g.subclasses@,
        ) + views(g.documents@).map_values(|d: Seq<char>| "doc:"@ + d),
    )
}

/// For one graph, the snapshot material determines the backend identity:
/// identities whose renderings differ give different materials.
pub proof fn lemma_graph_material_identity_injective(g: ScipGraph, id1: Seq<char>, id2: Seq<char>)
    requires
        graph_material(g, id1) == graph_material(g, id2),
    ensures
        id1 == id2,
{
    let tag = "trellis.semantic-snapshot.v1"@;
    let rest = map_items("callers:"@, g.callers@) + map_items("references:"@, g.references@)
        + map_items("implementations:"@, g.implementations@) + map_items("subclasses:"@, g.subclasses@)
        + views(g.documents@).map_values(|d: Seq<char>| "doc:"@ + d);
    assert(seq![id1] + map_items("callers:"@, g.callers@) + map_items("references:"@, g.references@)
        + map_items("implementations:"@, g.implementations@) + map_items("subclasses:"@, g.subclasses@)
        + views(g.documents@).map_values(|d: Seq<char>| "doc:"@ + d) =~= seq![id1] + rest);
    assert(seq![id2] + map_items("callers:"@, g.callers@) + map_items("references:"@, g.references@)
        + map_items("implementations:"@, g.implementations@) + map_items("subclasses:"@, g.subclasses@)
        + views(g.documents@).map_values(|d: Seq<char>| "doc:"@ + d) =~= seq![id2] + rest);
    crate::coverage::lemma_joined_concat(tag, seq![id1], rest);
    crate::coverage::lemma_joined_concat(tag, seq![id2], rest);
    let a = joined(tag, seq![id1]);
    let b = joined(tag, seq![id2]);
    let j = joined(Seq::<char>::empty(), rest);
    assert(a + j == b + j);
    assert(seq![id1].drop_last() =~= Seq::<Seq<char>>::empty());
    assert(seq![id2].drop_last() =~= Seq::<Seq<char>>::empty());
    assert(joined(tag, Seq::<Seq<char>>::empty()) == tag);
    assert(seq![id1].last() == id1);
    assert(seq![id2].last() == id2);
    assert(a == joined(tag, seq![id1].drop_last()).push(crate::coverage::sep()) + seq![id1].last());
    assert(b == joined(tag, seq![id2].drop_last()).push(crate::coverage::sep()) + seq![id2].last());
    assert(a == tag.push(crate::coverage::sep()) + id1);
    assert(b == tag.push(crate::coverage::sep()) + id2);
    assert(a.len() == b.len());
    assert(a =~= (a + j).subrange(0, a.len() as int));
    assert(b =~= (b + j).subrange(0, b.len() as int));
    assert(id1 =~= a.subrange(tag.len() as int + 1, a.len() as int));
    assert(id2 =~= b.subrange(tag.len() as int + 1, b.len() as int));
}

fn push_map_items(material: &mut String, label: &str, map: &MemberMap, Ghost(tag): Ghost<Seq<char>>, Ghost(before): Ghost<Seq<Seq<char>>>)
    requires
        old(material)@ == joined(tag, before),
    ensures
        final(material)@ == joined(tag, before + map_items(label@, map@)),
{
    let entries = map.entries();
    let ghost items = map_items(label@, map@);
    let mut i: usize = 0;
    while i < entries.len()
        invariant
            i <= entries@.len(),
            entry_views(entries@) == map@,
            items == map_items(label@, map@),
            material@ == joined(tag, before + items.subrange(0, i as int)),
        decreases entries.len() - i,
    {
        push_char(material, '\u{1f}');
        push_str(material, label);
        push_str(material, entries[i].0.as_str());
        push_str(material, "=");
        let joined_members = join_strings_pub(&entries[i].1, ",");
        push_str(material, joined_members.as_str());
        proof {
            let a = before + items.subrange(0, i as int);
            let b = before + items.subrange(0, i + 1);
            assert(b =~= a.push(items[i as int]));
            assert(map@[i as int] == (entries@[i as int].0@, views(entries@[i as int].1@)));
            assert(b.drop_last() =~= a);
        }
        i = i + 1;
    }
    assert(items.subrange(0, entries@.len() as int) =~= items);
}

impl ScipGraph {
    /// The canonical value rendering for a Callers projection subject, or
    /// the empty string for proven absence.
    pub fn callers_value(&self, dotted_symbol: &str) -> (r: String)
        ensures
            r@ == join_with(members_of(self.callers@, dotted_symbol@), "; "@),
    {
        let members = self.callers.members(dotted_symbol);
        join_strings_pub(&members, "; ")
    }

    /// The canonical value rendering for an Implementations projection
    /// subject.
    pub fn implementations_value(&self, dotted_symbol: &str) -> (r: String)
        ensures
            r@ == join_with(members_of(self.implementations@, dotted_symbol@), "; "@),
    {
        let members = self.implementations.members(dotted_symbol);
        join_strings_pub(&members, "; ")
    }

    /// Deterministic semantic snapshot identity: BLAKE3 over the canonical
    /// graph encoding plus the indexer identity (same graph + same backend
    /// → same identity).
    pub fn semantic_snapshot_id(&self, identity: &ScipIdentity) -> (r: SemanticSnapshotId)
        ensures
            r.0.algo == HashAlgo::Blake3,
            r.0.digest@ == blake3_digest(
                utf8(
                    graph_material(
                        *self,
                        identity_text(identity.adapter@, identity.tool@, identity.version@),
                    ),
                ),
            ),
    {
        let ghost tag = "trellis.semantic-snapshot.v1"@;
        let mut material = owned("trellis.semantic-snapshot.v1");
        push_char(&mut material, '\u{1f}');
        let rendered = identity.render();
        push_str(&mut material, rendered.as_str());
        let ghost first = seq![rendered@];
        proof {
            assert(joined(tag, first) == joined(tag, Seq::<Seq<char>>::empty()).push('\u{1f}') + rendered@) by {
                assert(first.drop_last() =~= Seq::<Seq<char>>::empty());
            }
        }
        push_map_items(&mut material, "callers:", &self.callers, Ghost(tag), Ghost(first));
        let ghost s1 = first + map_items("callers:"@, self.callers@);
        push_map_items(&mut material, "references:", &self.references, Ghost(tag), Ghost(s1));
        let ghost s2 = s1 + map_items("references:"@, self.references@);
        push_map_items(&mut material, "implementations:", &self.implementations, Ghost(tag), Ghost(s2));
        let ghost s3 = s2 + map_items("implementations:"@, self.implementations@);
        push_map_items(&mut material, "subclasses:", &self.subclasses, Ghost(tag), Ghost(s3));
        let ghost s4 = s3 + map_items("subclasses:"@, self.subclasses@);
        let ghost docs = views(self.documents@).map_values(|d: Seq<char>| "doc:"@ + d);
        let mut i: usize = 0;
        while i < self.documents.len()
            invariant
                i <= self.documents@.len(),
                docs == views(self.documents@).map_values(|d: Seq<char>| "doc:"@ + d),
                material@ == joined(tag, s4 + docs.subrange(0, i as int)),
            decreases self.documents.len() - i,
        {
            push_char(&mut material, '\u{1f}');
            push_str(&mut material, "doc:");
            push_str(&mut material, self.documents[i].as_str());
            proof {
                let a = s4 + docs.subrange(0, i as int);
                let b = s4 + docs.subrange(0, i + 1);
                assert(b =~= a.push(docs[i as int]));
                assert(b.drop_last() =~= a);
            }
            i = i + 1;
        }
        proof {
            assert(docs.subrange(0, self.documents@.len() as int) =~= docs);
            assert(s4 + docs =~= seq![identity_text(identity.adapter@, identity.tool@, identity.version@)] + map_items("callers:"@, self.callers@)
                + map_items("references:"@, self.references@) + map_items("implementations:"@, self.implementations@)
                + map_items("subclasses:"@, self.subclasses@) + docs);
        }
        SemanticSnapshotId::from_hash(ContentHash::compute(HashAlgo::Blake3, material.as_str().as_bytes()))
    }

    /// The coverage certificate this adapter can honestly establish for
    /// the given eligible universe: every eligible unit absent from the
    /// index is an explicit failure (never a silent gap that could look
    /// like proven absence).
    pub fn coverage_certificate(&self, universe_paths: &[String]) -> (r: CoverageCertificate)
        ensures
            views(r.failures@) == views(universe_paths@).filter(|p: Seq<char>| !views(self.documents@).contains(p)),
            r.universe_complete == CoverageState::Established,
            r.failures@.len() == 0 ==> {
                &&& r.all_units_participated == CoverageState::Established
                &&& r.declaration_inventory_complete == CoverageState::Established
                &&& r.resolved_reference_coverage == CoverageState::Established
                &&& r.inheritance_relationships == CoverageState::Established
            },
            r.failures@.len() > 0 ==> {
                &&& r.all_units_participated == CoverageState::Failed
                &&& r.declaration_inventory_complete == CoverageState::Failed
                &&& r.resolved_reference_coverage == CoverageState::Failed
                &&& r.inheritance_relationships == CoverageState::Failed
            },
    {
        let ghost uv = views(universe_paths@);
        let ghost dv = views(self.documents@);
        let mut failures: Vec<String> = Vec::new();
        let mut i: usize = 0;
        while i < universe_paths.len()
            invariant
                i <= universe_paths@.len(),
                uv == views(universe_paths@),
                dv == views(self.documents@),
                views(failures@) == uv.subrange(0, i as int).filter(|p: Seq<char>| !dv.contains(p)),
            decreases universe_paths.len() - i,
        {
            let ghost pre = failures@;
            proof {
                crate::order::lemma_filter_push(uv.subrange(0, i as int), |p: Seq<char>| !dv.contains(p), uv[i as int]);
                assert(uv.subrange(0, i as int).push(uv[i as int]) =~= uv.subrange(0, i + 1));
            }
            if !contains_string(self.documents.as_slice(), universe_paths[i].as_str()) {
                let p = universe_paths[i].clone();
                failures.push(p);
                proof {
                    crate::order::lemma_views_push(pre, p);
                }
            }
            i = i + 1;
        }
        assert(uv.subrange(0, universe_paths@.len() as int) =~= uv);
        if failures.len() == 0 {
            CoverageCertificate {
                universe_complete: CoverageState::Established,
                all_units_participated: CoverageState::Established,
                declaration_inventory_complete: CoverageState::Established,
                resolved_reference_coverage: CoverageState::Established,
                inheritance_relationships: CoverageState::Established,
                failures,
            }
        } else {
            CoverageCertificate {
                universe_complete: CoverageState::Established,
                all_units_participated: CoverageState::Failed,
                declaration_inventory_complete: CoverageState::Failed,
                resolved_reference_coverage: CoverageState::Failed,
                inheritance_relationships: CoverageState::Failed,
                failures,
            }
        }
    }
}

} // verus!
