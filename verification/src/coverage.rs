//! Universe and coverage certificates.
//!
//! Absence and completeness claims are only as sound as the universe they
//! were evaluated over: `callers(x) = {}` is a claim about a query **and**
//! the universe it covered **and** the evidence that coverage held.
//!
//! - [`CoverageCertificate`] declares the *capabilities* a backend actually
//!   established for one snapshot over one universe. It is produced by the
//!   backend, never by the engine.
//! - [`CompletenessEvaluator`] checks `Requirements(Q) ⊆ Capabilities(C)`
//!   and answers [`Completeness::Complete`] or [`Completeness::Unknown`] —
//!   nothing else.
use vstd::prelude::*;

use crate::hash::blake3_digest;
use crate::ids::{ContentHash, HashAlgo};
use crate::order::{canonical_set, canonical_set_of, lemma_canonical_unique, strictly_sorted, views};
use crate::projection::{completeness_sensitive, ProjectionKind};
use crate::text::{owned, push_char, push_str, utf8};

verus! {

/// Domain-tagged BLAKE3 digest over canonical bytes.
pub fn digest_of(bytes: &[u8]) -> (r: ContentHash)
    ensures
        r.algo == HashAlgo::Blake3,
        r.digest@ == blake3_digest(bytes@),
{
    ContentHash::compute(HashAlgo::Blake3, bytes)
}

/// The unit separator that joins digest material.
pub open spec fn sep() -> char {
    '\u{1f}'
}

/// `"<tag>" + ("\u{1f}" + item)*`.
pub open spec fn joined(tag: Seq<char>, items: Seq<Seq<char>>) -> Seq<char>
    decreases items.len(),
{
    if items.len() == 0 {
        tag
    } else {
        joined(tag, items.drop_last()).push(sep()) + items.last()
    }
}

/// The text holds no separator.
pub open spec fn sep_free(s: Seq<char>) -> bool {
    !s.contains(sep())
}

/// Every item holds no separator.
pub open spec fn all_sep_free(items: Seq<Seq<char>>) -> bool {
    forall|i: int| 0 <= i < items.len() ==> sep_free(#[trigger] items[i])
}

/// A separator followed by a separator-free tail splits a text uniquely.
pub proof fn lemma_sep_split(p: Seq<char>, x: Seq<char>, q: Seq<char>, y: Seq<char>)
    requires
        p.push(sep()) + x == q.push(sep()) + y,
        sep_free(x),
        sep_free(y),
    ensures
        p == q,
        x == y,
{
    let s = p.push(sep()) + x;
    assert(s.len() == p.len() + 1 + x.len());
    assert(s.len() == q.len() + 1 + y.len());
    if x.len() < y.len() {
        let k = p.len() as int;
        assert(s[k] == sep());
        let j = k - (q.len() + 1);
        assert(0 <= j < y.len());
        assert(y[j] == (q.push(sep()) + y)[k]);
        assert(y.contains(sep()));
    }
    if y.len() < x.len() {
        let k = q.len() as int;
        assert((q.push(sep()) + y)[k] == sep());
        let j = k - (p.len() + 1);
        assert(0 <= j < x.len());
        assert(x[j] == s[k]);
        assert(x.contains(sep()));
    }
    assert(x.len() == y.len());
    assert(x =~= s.subrange(p.len() as int + 1, s.len() as int));
    assert(y =~= (q.push(sep()) + y).subrange(q.len() as int + 1, s.len() as int));
    assert(p =~= s.subrange(0, p.len() as int));
    assert(q =~= (q.push(sep()) + y).subrange(0, q.len() as int));
}

/// The joined form is injective over separator-free items under a
/// separator-free tag.
pub proof fn lemma_joined_injective(tag: Seq<char>, a: Seq<Seq<char>>, b: Seq<Seq<char>>)
    requires
        sep_free(tag),
        all_sep_free(a),
        all_sep_free(b),
        joined(tag, a) == joined(tag, b),
    ensures
        a == b,
    decreases a.len() + b.len(),
{
    if a.len() == 0 && b.len() == 0 {
        assert(a =~= b);
    } else if a.len() == 0 {
        let s = joined(tag, b);
        let k = joined(tag, b.drop_last()).len() as int;
        assert(s[k] == sep());
        assert(tag.contains(sep()));
    } else if b.len() == 0 {
        let s = joined(tag, a);
        let k = joined(tag, a.drop_last()).len() as int;
        assert(s[k] == sep());
        assert(tag.contains(sep()));
    } else {
        assert(sep_free(a.last()));
        assert(sep_free(b.last()));
        lemma_sep_split(joined(tag, a.drop_last()), a.last(), joined(tag, b.drop_last()), b.last());
        assert forall|i: int| 0 <= i < a.drop_last().len() implies sep_free(#[trigger] a.drop_last()[i]) by {
            assert(a.drop_last()[i] == a[i]);
        }
        assert forall|i: int| 0 <= i < b.drop_last().len() implies sep_free(#[trigger] b.drop_last()[i]) by {
            assert(b.drop_last()[i] == b[i]);
        }
        lemma_joined_injective(tag, a.drop_last(), b.drop_last());
        assert(a =~= a.drop_last().push(a.last()));
        assert(b =~= b.drop_last().push(b.last()));
    }
}

/// Joining a concatenation appends the joined tail (under an empty tag).
pub proof fn lemma_joined_concat(tag: Seq<char>, a: Seq<Seq<char>>, r: Seq<Seq<char>>)
    ensures
        joined(tag, a + r) == joined(tag, a) + joined(Seq::empty(), r),
    decreases r.len(),
{
    if r.len() == 0 {
        assert(a + r =~= a);
        assert(joined(tag, a) + Seq::<char>::empty() =~= joined(tag, a));
    } else {
        assert((a + r).drop_last() =~= a + r.drop_last());
        lemma_joined_concat(tag, a, r.drop_last());
        assert(joined(tag, a + r) =~= joined(tag, a) + joined(Seq::empty(), r));
    }
}

/// The digest material of a universe determines its paths: universes over
/// separator-free paths with equal material have equal paths.
pub proof fn lemma_universe_material_injective(a: Seq<Seq<char>>, b: Seq<Seq<char>>)
    requires
        all_sep_free(a),
        all_sep_free(b),
        universe_material(a) == universe_material(b),
    ensures
        a == b,
{
    reveal_strlit("trellis.universe.v1");
    lemma_joined_injective("trellis.universe.v1"@, a, b);
}

/// The digest material of a universe: its tag and its sorted paths.
pub open spec fn universe_material(paths: Seq<Seq<char>>) -> Seq<char> {
    joined("trellis.universe.v1"@, paths)
}

/// The explicit eligible universe a completeness-sensitive query was
/// evaluated over. The descriptor is canonical content: sorted relative
/// paths of eligible units, so its digest is deterministic and
/// machine-independent.
#[derive(Debug, PartialEq, Eq)]
pub struct Universe {
    paths: Vec<String>,
}

impl View for Universe {
    type V = Seq<Seq<char>>;

    closed spec fn view(&self) -> Seq<Seq<char>> {
        views(self.paths@)
    }
}

/// A universe is order- and duplicate-insensitive: path lists holding the
/// same paths canonicalize to the same universe, hence the same digest
/// material.
pub proof fn lemma_universe_order_insensitive(a: Seq<Seq<char>>, b: Seq<Seq<char>>, ua: Seq<Seq<char>>, ub: Seq<Seq<char>>)
    requires
        canonical_set_of::<String>(ua, a),
        canonical_set_of::<String>(ub, b),
        a.to_set() == b.to_set(),
    ensures
        ua == ub,
        universe_material(ua) == universe_material(ub),
{
    lemma_canonical_unique::<String>(ua, ub);
}

impl Universe {
    #[verifier::type_invariant]
    spec fn canonical(self) -> bool {
        strictly_sorted::<String>(views(self.paths@))
    }

    /// Build a universe from eligible paths. Duplicates collapse; order is
    /// canonicalized.
    pub fn new(paths: Vec<String>) -> (r: Self)
        ensures
            canonical_set_of::<String>(r@, views(paths@)),
    {
        Universe { paths: canonical_set(paths) }
    }

    /// Eligible paths in canonical order.
    pub fn paths(&self) -> (r: &[String])
        ensures
            views(r@) == self@,
            strictly_sorted::<String>(self@),
    {
        proof {
            use_type_invariant(self);
        }
        self.paths.as_slice()
    }

    /// Canonical digest: BLAKE3 over domain-tagged sorted paths.
    pub fn digest(&self) -> (r: ContentHash)
        ensures
            r.algo == HashAlgo::Blake3,
            r.digest@ == blake3_digest(utf8(universe_material(self@))),
    {
        let mut material = owned("trellis.universe.v1");
        let mut i: usize = 0;
        while i < self.paths.len()
            invariant
                i <= self.paths.len(),
                material@ == joined("trellis.universe.v1"@, self@.subrange(0, i as int)),
            decreases self.paths.len() - i,
        {
            push_char(&mut material, '\u{1f}');
            push_str(&mut material, self.paths[i].as_str());
            proof {
                let a = self@.subrange(0, i as int);
                let b = self@.subrange(0, i + 1);
                assert(b.drop_last() =~= a);
            }
            i = i + 1;
        }
        proof {
            assert(self@.subrange(0, self.paths.len() as int) =~= self@);
        }
        digest_of(material.as_str().as_bytes())
    }
}

/// Whether a specific coverage capability was established, is known to be
/// violated, or was never proven. `Unproven` never satisfies a required
/// capability.
#[derive(Debug, Clone, Copy, PartialEq, Eq, Structural)]
pub enum CoverageState {
    /// The backend established the capability.
    Established,
    /// The backend proved the capability is violated.
    Failed,
    /// The backend has no evidence either way.
    Unproven,
}

/// The digest name of a coverage state.
pub open spec fn state_name(s: CoverageState) -> Seq<char> {
    match s {
        CoverageState::Established => "established"@,
        CoverageState::Failed => "failed"@,
        CoverageState::Unproven => "unproven"@,
    }
}

fn state_name_exec(s: CoverageState) -> (r: &'static str)
    ensures
        r@ == state_name(s),
{
    match s {
        CoverageState::Established => "established",
        CoverageState::Failed => "failed",
        CoverageState::Unproven => "unproven",
    }
}

/// The capabilities one semantic backend established for one snapshot over
/// one universe. Produced by the backend adapter; the engine never
/// fabricates one.
#[derive(Debug, PartialEq, Eq)]
pub struct CoverageCertificate {
    /// Every eligible unit in the universe was enumerated and indexed.
    pub universe_complete: CoverageState,
    /// Every relevant semantic unit participated in the analysis.
    pub all_units_participated: CoverageState,
    /// The declaration inventory of every unit is complete (cross-
    /// validation evidence only — never proof of reference resolution).
    pub declaration_inventory_complete: CoverageState,
    /// Call/reference edges were resolved (not merely enumerated).
    pub resolved_reference_coverage: CoverageState,
    /// Inheritance/subclass relationships are known.
    pub inheritance_relationships: CoverageState,
    /// Units with known indexing failures; any entry makes scope-affecting
    /// capabilities non-establishable.
    pub failures: Vec<String>,
}

/// A copy of a list of strings.
pub fn clone_strings(v: &[String]) -> (r: Vec<String>)
    ensures
        views(r@) == views(v@),
{
    let mut r: Vec<String> = Vec::new();
    let mut i: usize = 0;
    while i < v.len()
        invariant
            i <= v.len(),
            views(r@) == views(v@).subrange(0, i as int),
        decreases v.len() - i,
    {
        let ghost pre = r@;
        let s = v[i].clone();
        r.push(s);
        proof {
            crate::order::lemma_views_push(pre, s);
            assert(views(v@).subrange(0, i + 1) =~= views(v@).subrange(0, i as int).push(v@[i as int]@));
        }
        i = i + 1;
    }
    assert(views(v@).subrange(0, v.len() as int) =~= views(v@));
    r
}

impl Clone for CoverageCertificate {
    fn clone(&self) -> (r: Self)
        ensures
            r.universe_complete == self.universe_complete,
            r.all_units_participated == self.all_units_participated,
            r.declaration_inventory_complete == self.declaration_inventory_complete,
            r.resolved_reference_coverage == self.resolved_reference_coverage,
            r.inheritance_relationships == self.inheritance_relationships,
            views(r.failures@) == views(self.failures@),
    {
        CoverageCertificate {
            universe_complete: self.universe_complete,
            all_units_participated: self.all_units_participated,
            declaration_inventory_complete: self.declaration_inventory_complete,
            resolved_reference_coverage: self.resolved_reference_coverage,
            inheritance_relationships: self.inheritance_relationships,
            failures: clone_strings(self.failures.as_slice()),
        }
    }
}

/// The failure entries of a certificate's digest material.
pub open spec fn failure_items(failures: Seq<Seq<char>>) -> Seq<Seq<char>> {
    failures.map_values(|f: Seq<char>| "failure:"@ + f)
}

/// The digest material of a certificate: tag, the five capability states
/// in declaration order, then one `failure:` entry per failed unit.
pub open spec fn certificate_material(c: CoverageCertificate) -> Seq<char> {
    joined(
        "trellis.coverage-certificate.v1"@,
        seq![
            state_name(c.universe_complete),
            state_name(c.all_units_participated),
            state_name(c.declaration_inventory_complete),
            state_name(c.resolved_reference_coverage),
            state_name(c.inheritance_relationships),
        ] + failure_items(views(c.failures@)),
    )
}

proof fn lemma_state_name_facts(a: CoverageState, b: CoverageState)
    ensures
        sep_free(state_name(a)),
        state_name(a) == state_name(b) ==> a == b,
{
    reveal_strlit("established");
    reveal_strlit("failed");
    reveal_strlit("unproven");
    if state_name(a) == state_name(b) && a != b {
        assert(state_name(a).len() != state_name(b).len());
    }
}

/// The digest material of a certificate determines it: certificates whose
/// failed units hold no separator and whose materials are equal have the
/// same capability states and the same failed units.
pub proof fn lemma_certificate_material_injective(c1: CoverageCertificate, c2: CoverageCertificate)
    requires
        all_sep_free(views(c1.failures@)),
        all_sep_free(views(c2.failures@)),
        certificate_material(c1) == certificate_material(c2),
    ensures
        c1.universe_complete == c2.universe_complete,
        c1.all_units_participated == c2.all_units_participated,
        c1.declaration_inventory_complete == c2.declaration_inventory_complete,
        c1.resolved_reference_coverage == c2.resolved_reference_coverage,
        c1.inheritance_relationships == c2.inheritance_relationships,
        views(c1.failures@) == views(c2.failures@),
{
    reveal_strlit("trellis.coverage-certificate.v1");
    reveal_strlit("failure:");
    let f1 = views(c1.failures@);
    let f2 = views(c2.failures@);
    let i1 = seq![
        state_name(c1.universe_complete),
        state_name(c1.all_units_participated),
        state_name(c1.declaration_inventory_complete),
        state_name(c1.resolved_reference_coverage),
        state_name(c1.inheritance_relationships),
    ] + failure_items(f1);
    let i2 = seq![
        state_name(c2.universe_complete),
        state_name(c2.all_units_participated),
        state_name(c2.declaration_inventory_complete),
        state_name(c2.resolved_reference_coverage),
        state_name(c2.inheritance_relationships),
    ] + failure_items(f2);
    lemma_state_name_facts(c1.universe_complete, c2.universe_complete);
    lemma_state_name_facts(c1.all_units_participated, c2.all_units_participated);
    lemma_state_name_facts(c1.declaration_inventory_complete, c2.declaration_inventory_complete);
    lemma_state_name_facts(c1.resolved_reference_coverage, c2.resolved_reference_coverage);
    lemma_state_name_facts(c1.inheritance_relationships, c2.inheritance_relationships);
    lemma_state_name_facts(c2.universe_complete, c1.universe_complete);
    lemma_state_name_facts(c2.all_units_participated, c1.all_units_participated);
    lemma_state_name_facts(c2.declaration_inventory_complete, c1.declaration_inventory_complete);
    lemma_state_name_facts(c2.resolved_reference_coverage, c1.resolved_reference_coverage);
    lemma_state_name_facts(c2.inheritance_relationships, c1.inheritance_relationships);
    assert forall|i: int| 0 <= i < i1.len() implies sep_free(#[trigger] i1[i]) by {
        if i >= 5 {
            let f = f1[i - 5];
            assert(sep_free(f));
            assert(i1[i] == "failure:"@ + f);
            if i1[i].contains(sep()) {
                let k = choose|k: int| 0 <= k < i1[i].len() && i1[i][k] == sep();
                if k >= 8 {
                    assert(f[k - 8] == sep());
                }
            }
        }
    }
    assert forall|i: int| 0 <= i < i2.len() implies sep_free(#[trigger] i2[i]) by {
        if i >= 5 {
            let f = f2[i - 5];
            assert(sep_free(f));
            assert(i2[i] == "failure:"@ + f);
            if i2[i].contains(sep()) {
                let k = choose|k: int| 0 <= k < i2[i].len() && i2[i][k] == sep();
                if k >= 8 {
                    assert(f[k - 8] == sep());
                }
            }
        }
    }
    lemma_joined_injective("trellis.coverage-certificate.v1"@, i1, i2);
    assert(i1[0] == i2[0]);
    assert(i1[1] == i2[1]);
    assert(i1[2] == i2[2]);
    assert(i1[3] == i2[3]);
    assert(i1[4] == i2[4]);
    assert(f1.len() == f2.len());
    assert forall|i: int| 0 <= i < f1.len() implies f1[i] == f2[i] by {
        assert(i1[i + 5] == i2[i + 5]);
        assert(f1[i] =~= i1[i + 5].subrange(8, i1[i + 5].len() as int));
        assert(f2[i] =~= i2[i + 5].subrange(8, i2[i + 5].len() as int));
    }
    assert(f1 =~= f2);
}

/// `joined` over a concatenation extends the joined prefix.
proof fn lemma_joined_push(tag: Seq<char>, items: Seq<Seq<char>>, x: Seq<char>)
    ensures
        joined(tag, items.push(x)) == joined(tag, items).push(sep()) + x,
{
    assert(items.push(x).drop_last() =~= items);
}

impl CoverageCertificate {
    /// The certificate a fully-capable backend produces over a fully
    /// indexed universe.
    pub fn complete() -> (r: Self)
        ensures
            r.universe_complete == CoverageState::Established,
            r.all_units_participated == CoverageState::Established,
            r.declaration_inventory_complete == CoverageState::Established,
            r.resolved_reference_coverage == CoverageState::Established,
            r.inheritance_relationships == CoverageState::Established,
            r.failures@.len() == 0,
    {
        CoverageCertificate {
            universe_complete: CoverageState::Established,
            all_units_participated: CoverageState::Established,
            declaration_inventory_complete: CoverageState::Established,
            resolved_reference_coverage: CoverageState::Established,
            inheritance_relationships: CoverageState::Established,
            failures: Vec::new(),
        }
    }

    /// A certificate from a backend that failed to index the given units:
    /// participation and reference resolution are explicitly `Failed` for
    /// the affected scope (a failed unit can never look like proven
    /// absence).
    pub fn with_failed_units(units: &[String]) -> (r: Self)
        ensures
            r.universe_complete == CoverageState::Established,
            r.all_units_participated == CoverageState::Failed,
            r.declaration_inventory_complete == CoverageState::Failed,
            r.resolved_reference_coverage == CoverageState::Failed,
            r.inheritance_relationships == CoverageState::Unproven,
            views(r.failures@) == views(units@),
    {
        CoverageCertificate {
            universe_complete: CoverageState::Established,
            all_units_participated: CoverageState::Failed,
            declaration_inventory_complete: CoverageState::Failed,
            resolved_reference_coverage: CoverageState::Failed,
            inheritance_relationships: CoverageState::Unproven,
            failures: clone_strings(units),
        }
    }

    /// Canonical digest over every field.
    pub fn digest(&self) -> (r: ContentHash)
        ensures
            r.algo == HashAlgo::Blake3,
            r.digest@ == blake3_digest(utf8(certificate_material(*self))),
    {
        let ghost tag = "trellis.coverage-certificate.v1"@;
        let ghost states = seq![
            state_name(self.universe_complete),
            state_name(self.all_units_participated),
            state_name(self.declaration_inventory_complete),
            state_name(self.resolved_reference_coverage),
            state_name(self.inheritance_relationships),
        ];
        let mut material = owned("trellis.coverage-certificate.v1");
        let fields: [CoverageState; 5] = [
            self.universe_complete,
            self.all_units_participated,
            self.declaration_inventory_complete,
            self.resolved_reference_coverage,
            self.inheritance_relationships,
        ];
        let mut k: usize = 0;
        while k < 5
            invariant
                k <= 5,
                fields@ == seq![
                    self.universe_complete,
                    self.all_units_participated,
                    self.declaration_inventory_complete,
                    self.resolved_reference_coverage,
                    self.inheritance_relationships,
                ],
                states == seq![
                    state_name(self.universe_complete),
                    state_name(self.all_units_participated),
                    state_name(self.declaration_inventory_complete),
                    state_name(self.resolved_reference_coverage),
                    state_name(self.inheritance_relationships),
                ],
                tag == "trellis.coverage-certificate.v1"@,
                material@ == joined(tag, states.subrange(0, k as int)),
            decreases 5 - k,
        {
            push_char(&mut material, '\u{1f}');
            push_str(&mut material, state_name_exec(fields[k]));
            proof {
                lemma_joined_push(tag, states.subrange(0, k as int), states[k as int]);
                assert(states.subrange(0, k + 1) =~= states.subrange(0, k as int).push(
                    states[k as int],
                ));
            }
            k = k + 1;
        }
        assert(states.subrange(0, 5) =~= states);
        let ghost fails = failure_items(views(self.failures@));
        let mut i: usize = 0;
        while i < self.failures.len()
            invariant
                i <= self.failures.len(),
                tag == "trellis.coverage-certificate.v1"@,
                fails == failure_items(views(self.failures@)),
                material@ == joined(tag, states + fails.subrange(0, i as int)),
            decreases self.failures.len() - i,
        {
            push_char(&mut material, '\u{1f}');
            push_str(&mut material, "failure:");
            push_str(&mut material, self.failures[i].as_str());
            proof {
                lemma_joined_push(tag, states + fails.subrange(0, i as int), fails[i as int]);
                assert(states + fails.subrange(0, i + 1) =~= (states + fails.subrange(
                    0,
                    i as int,
                )).push(fails[i as int]));
            }
            i = i + 1;
        }
        assert(fails.subrange(0, self.failures.len() as int) =~= fails);
        digest_of(material.as_str().as_bytes())
    }
}

/// Whether a query's completeness requirements are satisfied by a
/// certificate: the only two honest answers.
#[derive(Debug, Clone, Copy, PartialEq, Eq, Structural)]
pub enum Completeness {
    /// Requirements(Q) ⊆ Capabilities(C): an empty result is potentially
    /// authoritative absence.
    Complete,
    /// Requirements unsatisfied: an empty result is UNKNOWN, never
    /// authoritative absence.
    Unknown,
}

/// `Requirements(Q) ⊆ Capabilities(C)`: kinds that make no absence claim
/// are always complete; completeness-sensitive kinds need the universe
/// enumerated, every unit participating, references resolved, and no
/// recorded failure.
pub open spec fn requirements_met(kind: ProjectionKind, c: CoverageCertificate) -> bool {
    !completeness_sensitive(kind) || {
        &&& c.universe_complete == CoverageState::Established
        &&& c.all_units_participated == CoverageState::Established
        &&& c.resolved_reference_coverage == CoverageState::Established
        &&& c.failures@.len() == 0
    }
}

/// Backend-independent completeness evaluator.
pub struct CompletenessEvaluator;

impl CompletenessEvaluator {
    /// `Requirements(Q) ⊆ Capabilities(C) → Complete, otherwise Unknown`.
    pub fn evaluate(kind: ProjectionKind, certificate: &CoverageCertificate) -> (r: Completeness)
        ensures
            r == (if requirements_met(kind, *certificate) {
                Completeness::Complete
            } else {
                Completeness::Unknown
            }),
    {
        if !kind.is_completeness_sensitive() {
            return Completeness::Complete;
        }
        let all_established = matches!(certificate.universe_complete, CoverageState::Established)
            && matches!(certificate.all_units_participated, CoverageState::Established)
            && matches!(certificate.resolved_reference_coverage, CoverageState::Established);
        if all_established && certificate.failures.len() == 0 {
            Completeness::Complete
        } else {
            Completeness::Unknown
        }
    }
}

} // verus!
