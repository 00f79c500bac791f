//! Environment fingerprints — explicitly declared inputs only.
//!
//! The ambient machine is never hashed indiscriminately. A fingerprint
//! contains exactly the entries the caller declares; environment variables
//! are **deny-by-default** (nothing in this module reads the process
//! environment), and only digests of declared values are retained — raw
//! values are dropped after hashing so secrets cannot leak into stored
//! state.
use vstd::prelude::*;

use crate::canonical::{framed, leb128, write_bytes, write_str, write_u64};
use crate::hash::blake3_digest;
use crate::ids::{ContentHash, EnvironmentFingerprintId, HashAlgo};
use crate::order::{le_of, sort_ordered, views, lemma_views_push, Ordered};
use crate::text::{blank, is_blank, lemma_string_le_facts, owned, push_str, utf8};

verus! {

/// A declared key/value list, as views.
pub type Declared = Seq<(Seq<char>, Seq<char>)>;

/// `k` is declared at two different positions.
pub open spec fn declared_twice(d: Declared, k: Seq<char>) -> bool {
    exists|i: int, j: int| 0 <= i < j < d.len() && #[trigger] d[i].0 == k && #[trigger] d[j].0 == k
}

/// Some key is declared twice.
pub open spec fn has_duplicate_key(d: Declared) -> bool {
    exists|i: int, j: int| 0 <= i < j < d.len() && #[trigger] d[i].0 == #[trigger] d[j].0
}

/// `k` is the least key (in byte order) that is declared twice.
pub open spec fn least_duplicate(d: Declared, k: Seq<char>) -> bool {
    &&& declared_twice(d, k)
    &&& forall|k2: Seq<char>| declared_twice(d, k2) ==> #[trigger] String::view_le(k, k2)
}

/// Some declared key is blank.
pub open spec fn has_blank_key(d: Declared) -> bool {
    exists|i: int| 0 <= i < d.len() && blank(#[trigger] d[i].0)
}

/// The canonical entry list of a declaration: pairs sorted by key (then
/// value), each value replaced by its BLAKE3 digest.
pub open spec fn entries_of(d: Declared, e: Seq<(Seq<char>, ContentHash)>) -> bool {
    let sorted = d.sort_by(le_of::<(String, String)>());
    &&& e.len() == sorted.len()
    &&& forall|i: int|
        0 <= i < e.len() ==> {
            &&& (#[trigger] e[i]).0 == sorted[i].0
            &&& e[i].1.algo == HashAlgo::Blake3
            &&& e[i].1.digest@ == blake3_digest(utf8(sorted[i].1))
        }
}

/// Declaration order does not matter: two declarations of the same
/// (key, value) pairs, in any order, give the same entries, hence the same
/// fingerprint identity.
pub proof fn lemma_declaration_order_irrelevant(
    d1: Declared,
    d2: Declared,
    e1: Seq<(Seq<char>, ContentHash)>,
    e2: Seq<(Seq<char>, ContentHash)>,
)
    requires
        d1.to_multiset() == d2.to_multiset(),
        entries_of(d1, e1),
        entries_of(d2, e2),
    ensures
        e1 == e2,
        env_encoding(e1) == env_encoding(e2),
{
    let leq = le_of::<(String, String)>();
    <(String, String) as Ordered>::le_total_ordering();
    d1.lemma_sort_by_ensures(leq);
    d2.lemma_sort_by_ensures(leq);
    vstd::seq_lib::lemma_sorted_unique(d1.sort_by(leq), d2.sort_by(leq), leq);
    assert(d1.sort_by(leq) == d2.sort_by(leq));
    assert(e1 =~= e2) by {
        assert forall|i: int| 0 <= i < e1.len() implies e1[i] == e2[i] by {
            assert(e1[i].1.digest =~= e2[i].1.digest);
        }
    }
}

/// A fingerprint's identity does not depend on declaration order: the
/// fingerprints of two declarations of the same (key, value) pairs, in any
/// order, are equal, identity included.
pub proof fn lemma_fingerprint_order_irrelevant(d1: Declared, d2: Declared, f1: EnvironmentModel, f2: EnvironmentModel)
    requires
        d1.to_multiset() == d2.to_multiset(),
        entries_of(d1, f1.entries),
        entries_of(d2, f2.entries),
        f1.id.algo == HashAlgo::Blake3,
        f2.id.algo == HashAlgo::Blake3,
        f1.id.digest@ == blake3_digest(env_encoding(f1.entries)),
        f2.id.digest@ == blake3_digest(env_encoding(f2.entries)),
    ensures
        f1.id == f2.id,
        f1.entries == f2.entries,
{
    lemma_declaration_order_irrelevant(d1, d2, f1.entries, f2.entries);
    crate::ids::lemma_digest_array(f1.id.digest);
    crate::ids::lemma_digest_array(f2.id.digest);
}

proof fn lemma_permuted_blank(d1: Declared, d2: Declared)
    requires
        d1.to_multiset() == d2.to_multiset(),
        has_blank_key(d1),
    ensures
        has_blank_key(d2),
{
    let i = choose|i: int| 0 <= i < d1.len() && blank(#[trigger] d1[i].0);
    d1.to_multiset_ensures();
    d2.to_multiset_ensures();
    assert(d1.contains(d1[i]));
    assert(d1.to_multiset().count(d1[i]) > 0);
    assert(d2.to_multiset().count(d1[i]) > 0);
    assert(d2.contains(d1[i]));
    let a = choose|a: int| 0 <= a < d2.len() && d2[a] == d1[i];
    assert(blank(d2[a].0));
}

proof fn lemma_permuted_duplicate(d1: Declared, d2: Declared)
    requires
        d1.to_multiset() == d2.to_multiset(),
        has_duplicate_key(d1),
    ensures
        has_duplicate_key(d2),
{
    let (i, j) = choose|i: int, j: int| 0 <= i < j < d1.len() && #[trigger] d1[i].0 == #[trigger] d1[j].0;
    d1.to_multiset_ensures();
    d2.to_multiset_ensures();
    assert(d1.contains(d1[i]));
    assert(d1.to_multiset().count(d1[i]) > 0);
    assert(d2.to_multiset().count(d1[i]) > 0);
    assert(d2.contains(d1[i]));
    let a = choose|a: int| 0 <= a < d2.len() && d2[a] == d1[i];
    let r1 = d1.remove(i);
    let r2 = d2.remove(a);
    r1.to_multiset_ensures();
    r2.to_multiset_ensures();
    assert(r1.to_multiset() == r2.to_multiset());
    assert(r1[j - 1] == d1[j]);
    assert(r1.contains(d1[j]));
    assert(r1.to_multiset().count(d1[j]) > 0);
    assert(r2.to_multiset().count(d1[j]) > 0);
    assert(r2.contains(d1[j]));
    let b2 = choose|b: int| 0 <= b < r2.len() && r2[b] == d1[j];
    let b = if b2 < a { b2 } else { b2 + 1 };
    assert(d2[b] == d1[j]);
    assert(b != a);
    if a < b {
        assert(d2[a].0 == d2[b].0);
    } else {
        assert(d2[b].0 == d2[a].0);
    }
}

/// A permutation keeps a declaration's standing: the same length, and a
/// blank or repeated key exactly when the original has one; so both
/// declarations succeed or fail alike.
pub proof fn lemma_permutation_keeps_standing(d1: Declared, d2: Declared)
    requires
        d1.to_multiset() == d2.to_multiset(),
    ensures
        d1.len() == d2.len(),
        has_blank_key(d1) == has_blank_key(d2),
        has_duplicate_key(d1) == has_duplicate_key(d2),
{
    d1.to_multiset_ensures();
    d2.to_multiset_ensures();
    if has_blank_key(d1) {
        lemma_permuted_blank(d1, d2);
    }
    if has_blank_key(d2) {
        lemma_permuted_blank(d2, d1);
    }
    if has_duplicate_key(d1) {
        lemma_permuted_duplicate(d1, d2);
    }
    if has_duplicate_key(d2) {
        lemma_permuted_duplicate(d2, d1);
    }
}

/// Concatenated encodings of the entries: key, then value digest.
pub open spec fn env_items(e: Seq<(Seq<char>, ContentHash)>) -> Seq<u8>
    decreases e.len(),
{
    if e.len() == 0 {
        Seq::empty()
    } else {
        env_items(e.drop_last()) + framed(utf8(e.last().0)) + framed(e.last().1.digest@)
    }
}

/// The canonical bytes a fingerprint identity is computed over.
pub open spec fn env_encoding(e: Seq<(Seq<char>, ContentHash)>) -> Seq<u8> {
    framed(utf8("trellis.env.v1"@)) + leb128(e.len()) + env_items(e)
}

/// What an [`EnvironmentFingerprint`] records.
pub struct EnvironmentModel {
    /// Content identity of the fingerprint.
    pub id: ContentHash,
    /// Declared entries sorted by key, values as digests.
    pub entries: Seq<(Seq<char>, ContentHash)>,
}

/// A declared environment fingerprint.
#[derive(Debug, PartialEq, Eq)]
pub struct EnvironmentFingerprint {
    id: EnvironmentFingerprintId,
    entries: Vec<(String, ContentHash)>,
}

impl View for EnvironmentFingerprint {
    type V = EnvironmentModel;

    closed spec fn view(&self) -> EnvironmentModel {
        EnvironmentModel { id: self.id.0, entries: views(self.entries@) }
    }
}

/// Environment fingerprint construction errors.
#[derive(Debug, PartialEq, Eq)]
pub enum EnvironmentError {
    /// No entries declared — a fingerprint must assert *something*.
    Empty,
    /// The same key was declared twice.
    DuplicateKey(String),
    /// A key was empty or whitespace.
    EmptyKey,
}

/// The human-readable rendering of an environment error.
pub open spec fn environment_message(e: EnvironmentError) -> Seq<char> {
    match e {
        EnvironmentError::Empty => "environment fingerprint has no declared entries"@,
        EnvironmentError::DuplicateKey(k) => "duplicate declared key `"@ + k@ + "`"@,
        EnvironmentError::EmptyKey => "declared environment key is empty"@,
    }
}

impl EnvironmentError {
    /// The error rendered for people.
    pub fn to_string(&self) -> (r: String)
        ensures
            r@ == environment_message(*self),
    {
        match self {
            EnvironmentError::Empty => owned("environment fingerprint has no declared entries"),
            EnvironmentError::DuplicateKey(k) => {
                let mut s = owned("duplicate declared key `");
                push_str(&mut s, k.as_str());
                push_str(&mut s, "`");
                s
            },
            EnvironmentError::EmptyKey => owned("declared environment key is empty"),
        }
    }
}

/// Whether the key at `i` is declared again later.
fn key_repeats_after(d: &[(String, String)], i: usize) -> (r: bool)
    requires
        i < d.len(),
    ensures
        r == exists|j: int| i < j < d@.len() && #[trigger] d@[j].0@ == d@[i as int].0@,
{
    let mut j: usize = i + 1;
    while j < d.len()
        invariant
            i < j <= d@.len(),
            forall|k: int| i < k < j ==> #[trigger] d@[k].0@ != d@[i as int].0@,
        decreases d.len() - j,
    {
        if d[j].0 == d[i].0 {
            return true;
        }
        j = j + 1;
    }
    false
}

/// The least key declared twice, if any.
fn least_duplicate_key(d: &[(String, String)]) -> (r: Option<usize>)
    ensures
        match r {
            Some(i) => i < d@.len() && least_duplicate(views(d@), d@[i as int].0@),
            None => !has_duplicate_key(views(d@)),
        },
{
    let ghost dv = views(d@);
    let mut best: Option<usize> = None;
    let mut i: usize = 0;
    while i < d.len()
        invariant
            i <= d@.len(),
            dv == views(d@),
            dv.len() == d@.len(),
            match best {
                Some(b) => b < d@.len() && declared_twice(dv, dv[b as int].0),
                None => true,
            },
            forall|a: int, c: int|
                0 <= a < i && a < c < dv.len() && #[trigger] dv[a].0 == #[trigger] dv[c].0
                    ==> (best matches Some(b) && String::view_le(dv[b as int].0, dv[a].0)),
        decreases d.len() - i,
    {
        assert(dv[i as int] == d@[i as int]@);
        let ghost old_best = best;
        proof {
            lemma_string_le_facts();
        }
        if key_repeats_after(d, i) {
            proof {
                let j = choose|j: int| i < j < d@.len() && #[trigger] d@[j].0@ == d@[i as int].0@;
                assert(dv[j] == d@[j]@);
                assert(dv[i as int].0 == dv[i as int].0 && dv[j].0 == dv[i as int].0);
                assert(declared_twice(dv, dv[i as int].0));
            }
            let better = match best {
                None => true,
                Some(b) => {
                    assert(dv[b as int] == d@[b as int]@);
                    !d[b].0.le_exec(&d[i].0)
                },
            };
            if better {
                best = Some(i);
            }
            proof {
                assert forall|a: int, c: int|
                    0 <= a < i + 1 && a < c < dv.len() && #[trigger] dv[a].0 == #[trigger] dv[c].0
                        implies (best matches Some(b) && String::view_le(dv[b as int].0, dv[a].0)) by {
                    if a < i {
                        if better {
                            if let Some(ob) = old_best {
                                assert(String::view_le(dv[ob as int].0, dv[a].0));
                                assert(String::view_le(dv[i as int].0, dv[ob as int].0));
                            }
                        }
                    } else {
                        if let Some(ob) = old_best {
                            if !better {
                                assert(String::view_le(dv[ob as int].0, dv[i as int].0));
                            }
                        }
                    }
                }
            }
        } else {
            proof {
                assert forall|c: int| i < c < dv.len() implies dv[i as int].0 != #[trigger] dv[c].0 by {
                    assert(dv[c] == d@[c]@);
                }
                assert forall|a: int, c: int|
                    0 <= a < i + 1 && a < c < dv.len() && #[trigger] dv[a].0 == #[trigger] dv[c].0
                        implies (best matches Some(b) && String::view_le(dv[b as int].0, dv[a].0)) by {
                    if a == i {
                        assert(dv[i as int].0 != dv[c].0);
                    }
                }
            }
        }
        i = i + 1;
    }
    proof {
        String::le_total_ordering();
        match best {
            Some(b) => {
                assert forall|k2: Seq<char>| declared_twice(dv, k2) implies #[trigger] String::view_le(
                    dv[b as int].0,
                    k2,
                ) by {
                    let (a, c) = choose|a: int, c: int|
                        0 <= a < c < dv.len() && #[trigger] dv[a].0 == k2 && #[trigger] dv[c].0 == k2;
                }
                assert(dv[b as int] == d@[b as int]@);
            },
            None => {
                if has_duplicate_key(dv) {
                    let (a, c) = choose|a: int, c: int|
                        0 <= a < c < dv.len() && #[trigger] dv[a].0 == #[trigger] dv[c].0;
                }
            },
        }
    }
    best
}

/// Whether some declared key is blank.
fn any_blank_key(d: &[(String, String)]) -> (r: bool)
    ensures
        r == has_blank_key(views(d@)),
{
    let ghost dv = views(d@);
    let mut i: usize = 0;
    while i < d.len()
        invariant
            i <= d@.len(),
            dv == views(d@),
            forall|k: int| 0 <= k < i ==> !blank(#[trigger] dv[k].0),
        decreases d.len() - i,
    {
        assert(dv[i as int] == d@[i as int]@);
        if is_blank(d[i].0.as_str()) {
            assert(blank(dv[i as int].0));
            return true;
        }
        i = i + 1;
    }
    false
}

impl EnvironmentFingerprint {
    /// Build a fingerprint from explicitly declared `(key, value)` pairs.
    ///
    /// Only declared inputs participate; nothing ambient is consulted. Keys
    /// must be non-blank and unique. Values are hashed (BLAKE3) and the raw
    /// values are discarded. Callers must never declare secret values here:
    /// declared values are hashed into the fingerprint identity.
    ///
    /// # Errors
    /// [`EnvironmentError::Empty`] for an empty declaration; otherwise
    /// [`EnvironmentError::DuplicateKey`] with the least key declared twice;
    /// otherwise [`EnvironmentError::EmptyKey`] if some key is blank.
    pub fn from_declared(declared: &[(String, String)]) -> (r: Result<Self, EnvironmentError>)
        ensures
            match r {
                Ok(fp) => {
                    &&& declared@.len() > 0
                    &&& !has_duplicate_key(views(declared@))
                    &&& !has_blank_key(views(declared@))
                    &&& entries_of(views(declared@), fp@.entries)
                    &&& fp@.id.algo == HashAlgo::Blake3
                    &&& fp@.id.digest@ == blake3_digest(env_encoding(fp@.entries))
                },
                Err(EnvironmentError::Empty) => declared@.len() == 0,
                Err(EnvironmentError::DuplicateKey(k)) => declared@.len() > 0 && least_duplicate(
                    views(declared@),
                    k@,
                ),
                Err(EnvironmentError::EmptyKey) => {
                    &&& declared@.len() > 0
                    &&& !has_duplicate_key(views(declared@))
                    &&& has_blank_key(views(declared@))
                },
            },
    {
        if declared.len() == 0 {
            return Err(EnvironmentError::Empty);
        }
        if let Some(i) = least_duplicate_key(declared) {
            return Err(EnvironmentError::DuplicateKey(declared[i].0.clone()));
        }
        if any_blank_key(declared) {
            return Err(EnvironmentError::EmptyKey);
        }
        let mut copy: Vec<(String, String)> = Vec::new();
        let mut i: usize = 0;
        while i < declared.len()
            invariant
                i <= declared@.len(),
                views(copy@) == views(declared@).subrange(0, i as int),
            decreases declared.len() - i,
        {
            let ghost pre = copy@;
            let pair = (declared[i].0.clone(), declared[i].1.clone());
            copy.push(pair);
            proof {
                lemma_views_push(pre, pair);
                assert(views(declared@).subrange(0, i + 1) =~= views(declared@).subrange(
                    0,
                    i as int,
                ).push(declared@[i as int]@));
            }
            i = i + 1;
        }
        assert(views(declared@).subrange(0, declared@.len() as int) =~= views(declared@));
        let sorted = sort_ordered(copy);
        let ghost sv = views(sorted@);
        let mut entries: Vec<(String, ContentHash)> = Vec::new();
        let mut j: usize = 0;
        while j < sorted.len()
            invariant
                j <= sorted@.len(),
                sv == views(sorted@),
                sv == views(declared@).sort_by(le_of::<(String, String)>()),
                entries@.len() == j,
                forall|k: int|
                    0 <= k < j ==> {
                        &&& (#[trigger] entries@[k]).0@ == sv[k].0
                        &&& entries@[k].1.algo == HashAlgo::Blake3
                        &&& entries@[k].1.digest@ == blake3_digest(utf8(sv[k].1))
                    },
            decreases sorted.len() - j,
        {
            let digest = ContentHash::compute(HashAlgo::Blake3, sorted[j].1.as_str().as_bytes());
            entries.push((sorted[j].0.clone(), digest));
            j = j + 1;
        }
        let ghost ev = views(entries@);
        assert(entries_of(views(declared@), ev)) by {
            assert forall|k: int| 0 <= k < ev.len() implies (#[trigger] ev[k]).0 == sv[k].0 by {
                assert(ev[k] == entries@[k]@);
            }
        }
        let mut buf: Vec<u8> = Vec::new();
        write_str(&mut buf, "trellis.env.v1");
        write_u64(&mut buf, entries.len() as u64);
        let mut k: usize = 0;
        while k < entries.len()
            invariant
                k <= entries@.len(),
                ev == views(entries@),
                buf@ == framed(utf8("trellis.env.v1"@)) + leb128(entries@.len() as nat) + env_items(
                    ev.subrange(0, k as int),
                ),
            decreases entries.len() - k,
        {
            write_str(&mut buf, entries[k].0.as_str());
            write_bytes(&mut buf, entries[k].1.digest.as_slice());
            proof {
                let a = ev.subrange(0, k as int);
                let b = ev.subrange(0, k + 1);
                assert(b.drop_last() =~= a);
                assert(b.last() == entries@[k as int]@);
            }
            k = k + 1;
        }
        assert(ev.subrange(0, entries@.len() as int) =~= ev);
        let id = EnvironmentFingerprintId::from_hash(
            ContentHash::compute(HashAlgo::Blake3, buf.as_slice()),
        );
        Ok(EnvironmentFingerprint { id, entries })
    }

    /// Content identity of this fingerprint.
    pub fn id(&self) -> (r: EnvironmentFingerprintId)
        ensures
            r.0 == self@.id,
    {
        self.id
    }

    /// Declared entries sorted by key. Values appear **only as digests** —
    /// raw declared values are never retained.
    pub fn entries(&self) -> (r: &[(String, ContentHash)])
        ensures
            views(r@) == self@.entries,
    {
        self.entries.as_slice()
    }
}

} // verus!
