//! Lexicographic byte order and the sorting / set-building helpers that
//! every canonical encoding relies on.
//!
//! Canonical identities are only meaningful when the order of sets and
//! maps is fixed; this module owns that order. Rust's `Ord` on `str` and
//! `String` is the lexicographic order of their UTF-8 bytes, which is
//! exactly [`bytes_le`] applied to the encoded bytes.
use vstd::prelude::*;
use vstd::relations::*;
use vstd::seq_lib::*;
use vstd::multiset::*;

verus! {

broadcast use vstd::seq_lib::group_to_multiset_ensures;

/// Lexicographic order on byte sequences (shorter prefix first).
pub open spec fn bytes_le(a: Seq<u8>, b: Seq<u8>) -> bool
    decreases a.len(),
{
    if a.len() == 0 {
        true
    } else if b.len() == 0 {
        false
    } else if a[0] < b[0] {
        true
    } else if a[0] > b[0] {
        false
    } else {
        bytes_le(a.drop_first(), b.drop_first())
    }
}

pub proof fn lemma_bytes_le_reflexive(a: Seq<u8>)
    ensures
        bytes_le(a, a),
    decreases a.len(),
{
    if a.len() > 0 {
        lemma_bytes_le_reflexive(a.drop_first());
    }
}

pub proof fn lemma_bytes_le_antisymmetric(a: Seq<u8>, b: Seq<u8>)
    requires
        bytes_le(a, b),
        bytes_le(b, a),
    ensures
        a == b,
    decreases a.len(),
{
    if a.len() == 0 {
        assert(b.len() == 0);
        assert(a =~= b);
    } else {
        lemma_bytes_le_antisymmetric(a.drop_first(), b.drop_first());
        assert(a =~= seq![a[0]] + a.drop_first());
        assert(b =~= seq![b[0]] + b.drop_first());
    }
}

pub proof fn lemma_bytes_le_transitive(a: Seq<u8>, b: Seq<u8>, c: Seq<u8>)
    requires
        bytes_le(a, b),
        bytes_le(b, c),
    ensures
        bytes_le(a, c),
    decreases a.len(),
{
    if a.len() > 0 && b.len() > 0 && c.len() > 0 {
        if a[0] == b[0] && b[0] == c[0] {
            lemma_bytes_le_transitive(a.drop_first(), b.drop_first(), c.drop_first());
        }
    }
}

pub proof fn lemma_bytes_le_total(a: Seq<u8>, b: Seq<u8>)
    ensures
        bytes_le(a, b) || bytes_le(b, a),
    decreases a.len(),
{
    if a.len() > 0 && b.len() > 0 && a[0] == b[0] {
        lemma_bytes_le_total(a.drop_first(), b.drop_first());
    }
}

/// `bytes_le` restricted to a prefix-equal pair reduces to the tails.
proof fn lemma_bytes_le_skip(a: Seq<u8>, b: Seq<u8>, i: int)
    requires
        0 <= i <= a.len(),
        i <= b.len(),
        a.subrange(0, i) == b.subrange(0, i),
    ensures
        bytes_le(a, b) == bytes_le(a.skip(i), b.skip(i)),
    decreases i,
{
    if i > 0 {
        assert(a[0] == a.subrange(0, i)[0]);
        assert(b[0] == b.subrange(0, i)[0]);
        assert(a.drop_first().subrange(0, i - 1) =~= a.subrange(0, i).drop_first());
        assert(b.drop_first().subrange(0, i - 1) =~= b.subrange(0, i).drop_first());
        lemma_bytes_le_skip(a.drop_first(), b.drop_first(), i - 1);
        assert(a.drop_first().skip(i - 1) =~= a.skip(i));
        assert(b.drop_first().skip(i - 1) =~= b.skip(i));
    } else {
        assert(a.skip(0) =~= a);
        assert(b.skip(0) =~= b);
    }
}

/// Exec lexicographic comparison of two byte slices.
pub fn bytes_le_exec(a: &[u8], b: &[u8]) -> (r: bool)
    ensures
        r == bytes_le(a@, b@),
{
    let mut i: usize = 0;
    while i < a.len() && i < b.len()
        invariant
            i <= a.len(),
            i <= b.len(),
            a@.subrange(0, i as int) == b@.subrange(0, i as int),
        decreases a.len() - i,
    {
        if a[i] != b[i] {
            proof {
                lemma_bytes_le_skip(a@, b@, i as int);
                assert(a@.skip(i as int)[0] == a@[i as int]);
                assert(b@.skip(i as int)[0] == b@[i as int]);
            }
            return a[i] < b[i];
        }
        assert(a@.subrange(0, i + 1) =~= a@.subrange(0, i as int).push(a@[i as int]));
        assert(b@.subrange(0, i + 1) =~= b@.subrange(0, i as int).push(b@[i as int]));
        i = i + 1;
    }
    proof {
        lemma_bytes_le_skip(a@, b@, i as int);
    }
    i == a.len()
}

/// Exec equality of two byte slices.
pub fn bytes_eq_exec(a: &[u8], b: &[u8]) -> (r: bool)
    ensures
        r == (a@ == b@),
{
    if a.len() != b.len() {
        return false;
    }
    let mut i: usize = 0;
    while i < a.len()
        invariant
            i <= a.len(),
            a.len() == b.len(),
            forall|j: int| 0 <= j < i ==> a@[j] == b@[j],
        decreases a.len() - i,
    {
        if a[i] != b[i] {
            return false;
        }
        i = i + 1;
    }
    assert(a@ =~= b@);
    true
}

/// The views of a sequence of values.
pub open spec fn views<T: View>(s: Seq<T>) -> Seq<T::V> {
    s.map_values(|x: T| x@)
}

/// A value type whose views are totally ordered; the canonical sorting
/// helpers order values by their views.
pub trait Ordered: Sized + View {
    /// The order relation on views.
    spec fn view_le(a: Self::V, b: Self::V) -> bool;

    /// The relation is a total order.
    proof fn le_total_ordering()
        ensures
            total_ordering(|a: Self::V, b: Self::V| Self::view_le(a, b)),
    ;

    /// Exec evaluation of the relation.
    fn le_exec(&self, other: &Self) -> (r: bool)
        ensures
            r == Self::view_le(self@, other@),
    ;

    /// Exec equality of views.
    fn eq_exec(&self, other: &Self) -> (r: bool)
        ensures
            r == (self@ == other@),
    ;
}

/// The order relation of an [`Ordered`] type as a spec closure on views.
pub open spec fn le_of<T: Ordered>() -> spec_fn(T::V, T::V) -> bool {
    |a: T::V, b: T::V| T::view_le(a, b)
}

/// Strictly increasing sequence of views.
pub open spec fn strictly_sorted<T: Ordered>(s: Seq<T::V>) -> bool {
    forall|i: int, j: int| #![trigger s[i], s[j]] 0 <= i < j < s.len() ==> T::view_le(s[i], s[j]) && s[i] != s[j]
}

/// `r` is the canonical sorted, duplicate-free form of the views in `s`.
pub open spec fn canonical_set_of<T: Ordered>(r: Seq<T::V>, s: Seq<T::V>) -> bool {
    &&& strictly_sorted::<T>(r)
    &&& r.to_set() == s.to_set()
}

/// The canonical set form is unique: two strictly sorted sequences holding
/// the same elements are equal.
pub proof fn lemma_canonical_unique<T: Ordered>(r1: Seq<T::V>, r2: Seq<T::V>)
    requires
        strictly_sorted::<T>(r1),
        strictly_sorted::<T>(r2),
        r1.to_set() == r2.to_set(),
    ensures
        r1 == r2,
    decreases r1.len(),
{
    T::le_total_ordering();
    let leq = le_of::<T>();
    if r1.len() == 0 {
        if r2.len() > 0 {
            assert(r2.to_set().contains(r2[0]));
            assert(r1.contains(r2[0]));
        }
        assert(r1 =~= r2);
    } else if r2.len() == 0 {
        assert(r1.to_set().contains(r1[0]));
        assert(r2.contains(r1[0]));
    } else {
        assert(r1.to_set().contains(r1[0]));
        assert(r2.contains(r1[0]));
        let j = choose|j: int| 0 <= j < r2.len() && r2[j] == r1[0];
        assert(r2.to_set().contains(r2[0]));
        assert(r1.contains(r2[0]));
        let i = choose|i: int| 0 <= i < r1.len() && r1[i] == r2[0];
        assert(leq(r1[0], r1[0]));
        assert(leq(r2[0], r2[0]));
        if i > 0 {
            assert(T::view_le(r1[0], r1[i]));
        }
        if j > 0 {
            assert(T::view_le(r2[0], r2[j]));
        }
        assert(leq(r1[0], r2[0]) && leq(r2[0], r1[0]));
        assert(r1[0] == r2[0]);
        let t1 = r1.drop_first();
        let t2 = r2.drop_first();
        assert(strictly_sorted::<T>(t1)) by {
            assert forall|a: int, b: int| #![trigger t1[a], t1[b]] 0 <= a < b < t1.len() implies T::view_le(t1[a], t1[b])
                && t1[a] != t1[b] by {
                assert(t1[a] == r1[a + 1] && t1[b] == r1[b + 1]);
            }
        }
        assert(strictly_sorted::<T>(t2)) by {
            assert forall|a: int, b: int| #![trigger t2[a], t2[b]] 0 <= a < b < t2.len() implies T::view_le(t2[a], t2[b])
                && t2[a] != t2[b] by {
                assert(t2[a] == r2[a + 1] && t2[b] == r2[b + 1]);
            }
        }
        assert(t1.to_set() =~= t2.to_set()) by {
            assert forall|x: T::V| t1.to_set().contains(x) implies t2.to_set().contains(x) by {
                let k = choose|k: int| 0 <= k < t1.len() && t1[k] == x;
                assert(r1[k + 1] == x);
                assert(r1[0] != r1[k + 1]);
                assert(r1.to_set().contains(x));
                assert(r2.contains(x));
                let m = choose|m: int| 0 <= m < r2.len() && r2[m] == x;
                assert(m != 0);
                assert(t2[m - 1] == x);
            }
            assert forall|x: T::V| t2.to_set().contains(x) implies t1.to_set().contains(x) by {
                let k = choose|k: int| 0 <= k < t2.len() && t2[k] == x;
                assert(r2[k + 1] == x);
                assert(r2[0] != r2[k + 1]);
                assert(r2.to_set().contains(x));
                assert(r1.contains(x));
                let m = choose|m: int| 0 <= m < r1.len() && r1[m] == x;
                assert(m != 0);
                assert(t1[m - 1] == x);
            }
        }
        lemma_canonical_unique::<T>(t1, t2);
        assert(r1 =~= r2) by {
            assert forall|k: int| 0 <= k < r1.len() implies r1[k] == r2[k] by {
                if k > 0 {
                    assert(r1[k] == t1[k - 1] && r2[k] == t2[k - 1]);
                }
            }
        }
    }
}

pub proof fn lemma_views_push<T: View>(s: Seq<T>, x: T)
    ensures
        views(s.push(x)) == views(s).push(x@),
{
    assert(views(s.push(x)) =~= views(s).push(x@));
}

proof fn lemma_views_insert<T: View>(s: Seq<T>, i: int, x: T)
    requires
        0 <= i <= s.len(),
    ensures
        views(s.insert(i, x)) == views(s).insert(i, x@),
{
    assert(views(s.insert(i, x)) =~= views(s).insert(i, x@));
}

/// Sort a vector into the unique order-sorted permutation of its views.
pub fn sort_ordered<T: Ordered>(v: Vec<T>) -> (r: Vec<T>)
    ensures
        views(r@) == views(v@).sort_by(le_of::<T>()),
{
    let ghost orig = views(v@);
    let mut v = v;
    let mut r: Vec<T> = Vec::new();
    proof {
        T::le_total_ordering();
        assert(views(r@) =~= Seq::<T::V>::empty());
    }
    while v.len() > 0
        invariant
            total_ordering(le_of::<T>()),
            sorted_by(views(r@), le_of::<T>()),
            views(r@).to_multiset().add(views(v@).to_multiset()) == orig.to_multiset(),
        decreases v.len(),
    {
        let ghost pre_v = v@;
        let x = v.pop().unwrap();
        proof {
            assert(pre_v =~= v@.push(x));
            lemma_views_push(v@, x);
            assert(views(pre_v).to_multiset() =~= views(v@).to_multiset().insert(x@));
        }
        let ghost rv = views(r@);
        let mut j: usize = 0;
        while j < r.len() && r[j].le_exec(&x)
            invariant
                total_ordering(le_of::<T>()),
                j <= r.len(),
                rv == views(r@),
                forall|k: int| 0 <= k < j ==> T::view_le(rv[k], x@),
            decreases r.len() - j,
        {
            j = j + 1;
        }
        let ghost pre_r = r@;
        proof {
            assert forall|k: int| j <= k < rv.len() implies T::view_le(x@, rv[k]) by {
                assert(le_of::<T>()(rv[j as int], rv[k]) || j == k);
                assert(!T::view_le(rv[j as int], x@));
                assert(le_of::<T>()(x@, rv[j as int]) || le_of::<T>()(rv[j as int], x@));
            }
        }
        r.insert(j, x);
        proof {
            assert(r@ =~= pre_r.insert(j as int, x));
            lemma_views_insert(pre_r, j as int, x);
            to_multiset_insert(rv, j as int, x@);
            let nv = views(r@);
            assert forall|a: int, b: int| 0 <= a < b < nv.len() implies #[trigger] le_of::<T>()(
                nv[a],
                nv[b],
            ) by {
                if a < j && b < j {
                    assert(le_of::<T>()(rv[a], rv[b]));
                } else if a < j && b == j {
                } else if a < j && b > j {
                    assert(le_of::<T>()(rv[a], x@));
                    assert(le_of::<T>()(x@, rv[b - 1]));
                } else if a == j {
                    assert(T::view_le(x@, rv[b - 1]));
                } else {
                    assert(le_of::<T>()(rv[a - 1], rv[b - 1]));
                }
            }
            assert(views(r@).to_multiset().add(views(v@).to_multiset()) =~= orig.to_multiset());
        }
    }
    proof {
        assert(views(v@) =~= Seq::<T::V>::empty());
        assert(views(r@).to_multiset() =~= orig.to_multiset());
        orig.lemma_sort_by_ensures(le_of::<T>());
        lemma_sorted_unique(views(r@), orig.sort_by(le_of::<T>()), le_of::<T>());
    }
    r
}

proof fn lemma_to_set_push<A>(s: Seq<A>, x: A)
    ensures
        s.push(x).to_set() == s.to_set().insert(x),
{
    assert forall|y: A| s.push(x).to_set().contains(y) <==> s.to_set().insert(x).contains(y) by {
        if s.push(x).contains(y) && y != x {
            let i = choose|i: int| 0 <= i < s.push(x).len() && s.push(x)[i] == y;
            assert(s[i] == y);
        }
        if s.contains(y) {
            let i = choose|i: int| 0 <= i < s.len() && s[i] == y;
            assert(s.push(x)[i] == y);
        }
        if y == x {
            assert(s.push(x)[s.len() as int] == y);
        }
    }
    assert(s.push(x).to_set() =~= s.to_set().insert(x));
}

/// Collapse adjacent duplicates of a sorted vector into the canonical set form.
pub fn dedup_sorted<T: Ordered>(v: Vec<T>) -> (r: Vec<T>)
    requires
        sorted_by(views(v@), le_of::<T>()),
    ensures
        canonical_set_of::<T>(views(r@), views(v@)),
{
    proof {
        T::le_total_ordering();
    }
    let ghost orig = views(v@);
    let mut v = v;
    let mut rev: Vec<T> = Vec::new();
    // Take elements from the back; keep one representative per run.
    while v.len() > 0
        invariant
            total_ordering(le_of::<T>()),
            sorted_by(views(v@), le_of::<T>()),
            orig.to_set() == views(v@).to_set() + views(rev@).to_set(),
            forall|i: int, j: int|
                #![trigger rev@[i], rev@[j]]
                0 <= i < j < rev@.len() ==> T::view_le(rev@[j]@, rev@[i]@) && rev@[i]@
                    != rev@[j]@,
            forall|i: int, k: int|
                0 <= i < rev@.len() && 0 <= k < v@.len() ==> T::view_le(v@[k]@, rev@[i]@),
            forall|i: int, k: int|
                0 <= i < rev@.len() - 1 && 0 <= k < v@.len() ==> v@[k]@ != rev@[i]@,
        decreases v.len(),
    {
        let ghost pre_v = v@;
        let ghost pre_rev = rev@;
        let x = v.pop().unwrap();
        proof {
            assert(pre_v =~= v@.push(x));
            let pv = views(pre_v);
            assert forall|k: int| 0 <= k < v@.len() implies #[trigger] T::view_le(v@[k]@, x@) by {
                assert(pv[k] == pre_v[k]@);
                assert(pv[pre_v.len() - 1] == x@);
                assert(le_of::<T>()(pv[k], pv[pre_v.len() - 1]));
            }
            assert(views(v@) =~= pv.drop_last());
            assert forall|a: int, b: int| 0 <= a < b < views(v@).len() implies #[trigger] le_of::<
                T,
            >()(views(v@)[a], views(v@)[b]) by {
                assert(le_of::<T>()(pv[a], pv[b]));
            }
            assert forall|i: int| 0 <= i < pre_rev.len() implies T::view_le(x@, #[trigger] pre_rev[i]@) by {
                assert(pre_v[pre_v.len() - 1] == x);
            }
            assert forall|i: int| 0 <= i < pre_rev.len() - 1 implies x@ != #[trigger] pre_rev[i]@ by {
                assert(pre_v[pre_v.len() - 1] == x);
            }
        }
        let mut drop = false;
        if rev.len() > 0 {
            let last = rev.len() - 1;
            if rev[last].eq_exec(&x) {
                drop = true;
            }
        }
        if !drop {
            rev.push(x);
            proof {
                assert(rev@ =~= pre_rev.push(x));
                assert forall|i: int| 0 <= i < pre_rev.len() implies x@ != #[trigger] pre_rev[i]@ by {
                    if i == pre_rev.len() - 1 {
                    }
                }
                assert forall|i: int, k: int|
                    0 <= i < rev@.len() - 1 && 0 <= k < v@.len() implies v@[k]@ != rev@[i]@ by {
                    assert(rev@[i] == pre_rev[i]);
                    assert(T::view_le(v@[k]@, x@));
                    assert(T::view_le(x@, pre_rev[i]@));
                    if v@[k]@ == rev@[i]@ {
                        assert(le_of::<T>()(x@, pre_rev[i]@));
                        assert(le_of::<T>()(pre_rev[i]@, x@));
                    }
                }
            }
        }
        proof {
            lemma_views_push(v@, x);
            lemma_to_set_push(views(v@), x@);
            assert(views(pre_v) == views(v@).push(x@));
            if !drop {
                lemma_views_push(pre_rev, x);
                lemma_to_set_push(views(pre_rev), x@);
            } else {
                assert(views(pre_rev)[pre_rev.len() - 1] == x@);
                assert(views(pre_rev).to_set().contains(x@));
            }
            assert(orig.to_set() =~= views(v@).to_set() + views(rev@).to_set());
        }
    }
    // Reverse into ascending order.
    let mut r: Vec<T> = Vec::new();
    let ghost full = rev@;
    assert(views(v@) =~= Seq::<T::V>::empty());
    assert forall|i: int, j: int| 0 <= i < j < full.len() implies T::view_le(full[j]@, full[i]@)
        && full[i]@ != full[j]@ by {
        assert(full[i] == rev@[i]);
        assert(full[j] == rev@[j]);
    }
    while rev.len() > 0
        invariant
            forall|i: int, j: int|
                #![trigger full[i], full[j]]
                0 <= i < j < full.len() ==> T::view_le(full[j]@, full[i]@) && full[i]@
                    != full[j]@,
            rev@ == full.subrange(0, rev@.len() as int),
            r@.len() + rev@.len() == full.len(),
            forall|i: int| 0 <= i < r@.len() ==> r@[i] == full[full.len() - 1 - i],
        decreases rev.len(),
    {
        let ghost pre = rev@;
        let x = rev.pop().unwrap();
        r.push(x);
        proof {
            assert(x == pre[pre.len() - 1]);
            assert(rev@ =~= full.subrange(0, rev@.len() as int));
        }
    }
    proof {
        let rv = views(r@);
        let fv = views(full);
        assert(rv.to_set() =~= fv.to_set()) by {
            assert forall|x: T::V| rv.to_set().contains(x) implies fv.to_set().contains(x) by {
                let i = choose|i: int| 0 <= i < rv.len() && rv[i] == x;
                assert(fv[full.len() - 1 - i] == x);
            }
            assert forall|x: T::V| fv.to_set().contains(x) implies rv.to_set().contains(x) by {
                let i = choose|i: int| 0 <= i < fv.len() && fv[i] == x;
                assert(rv[full.len() - 1 - i] == x);
            }
        }
        assert forall|i: int, j: int| 0 <= i < j < rv.len() implies T::view_le(rv[i], rv[j])
            && rv[i] != rv[j] by {
            assert(rv[i] == full[full.len() - 1 - i]@);
            assert(rv[j] == full[full.len() - 1 - j]@);
        }
        assert(orig.to_set() =~= fv.to_set());
    }
    r
}

/// Sort and deduplicate: the canonical set form of a vector.
pub fn canonical_set<T: Ordered>(v: Vec<T>) -> (r: Vec<T>)
    ensures
        canonical_set_of::<T>(views(r@), views(v@)),
{
    let ghost orig = views(v@);
    let s = sort_ordered(v);
    proof {
        T::le_total_ordering();
        orig.lemma_sort_by_ensures(le_of::<T>());
        let sv = views(s@);
        assert(sv.to_set() =~= orig.to_set()) by {
            assert forall|x: T::V| sv.to_set().contains(x) <==> orig.to_set().contains(x) by {
                if sv.contains(x) {
                    assert(sv.to_multiset().count(x) > 0);
                }
                if orig.contains(x) {
                    assert(orig.to_multiset().count(x) > 0);
                }
            }
        }
    }
    dedup_sorted(s)
}

/// Filtering a sequence extended by one element.
pub proof fn lemma_filter_push<A>(s: Seq<A>, p: spec_fn(A) -> bool, x: A)
    ensures
        s.push(x).filter(p) == (if p(x) {
            s.filter(p).push(x)
        } else {
            s.filter(p)
        }),
{
    reveal(Seq::filter);
    assert(s.push(x).drop_last() =~= s);
}

/// An element-wise copy of a slice of `Copy` values.
pub fn copy_all<T: Copy>(v: &[T]) -> (r: Vec<T>)
    ensures
        r@ == v@,
{
    let mut r: Vec<T> = Vec::new();
    let mut i: usize = 0;
    while i < v.len()
        invariant
            i <= v.len(),
            r@ == v@.subrange(0, i as int),
        decreases v.len() - i,
    {
        r.push(v[i]);
        assert(v@.subrange(0, i + 1) =~= v@.subrange(0, i as int).push(v@[i as int]));
        i = i + 1;
    }
    assert(v@.subrange(0, v.len() as int) =~= v@);
    r
}

/// Membership test by view (linear scan).
pub fn contains_ordered<T: Ordered>(v: &Vec<T>, x: &T) -> (r: bool)
    ensures
        r == views(v@).contains(x@),
{
    let mut i: usize = 0;
    while i < v.len()
        invariant
            i <= v.len(),
            forall|k: int| 0 <= k < i ==> v@[k]@ != x@,
        decreases v.len() - i,
    {
        if v[i].eq_exec(x) {
            assert(views(v@)[i as int] == x@);
            return true;
        }
        i = i + 1;
    }
    proof {
        if views(v@).contains(x@) {
            let k = choose|k: int| 0 <= k < views(v@).len() && views(v@)[k] == x@;
            assert(v@[k]@ == x@);
        }
    }
    false
}

/// Proof that the byte order is a total order.
pub proof fn lemma_bytes_total_ordering()
    ensures
        total_ordering(|a: Seq<u8>, b: Seq<u8>| bytes_le(a, b)),
{
    let f = |a: Seq<u8>, b: Seq<u8>| bytes_le(a, b);
    assert forall|a: Seq<u8>| #[trigger] f(a, a) by {
        lemma_bytes_le_reflexive(a);
    }
    assert forall|a: Seq<u8>, b: Seq<u8>| #[trigger] f(a, b) && #[trigger] f(b, a) implies a
        == b by {
        lemma_bytes_le_antisymmetric(a, b);
    }
    assert forall|a: Seq<u8>, b: Seq<u8>, c: Seq<u8>| #[trigger] f(a, b) && #[trigger] f(
        b,
        c,
    ) implies f(a, c) by {
        lemma_bytes_le_transitive(a, b, c);
    }
    assert forall|a: Seq<u8>, b: Seq<u8>| #[trigger] f(a, b) || #[trigger] f(b, a) by {
        lemma_bytes_le_total(a, b);
    }
}

/// Byte strings ordered lexicographically.
impl Ordered for Vec<u8> {
    open spec fn view_le(a: Seq<u8>, b: Seq<u8>) -> bool {
        bytes_le(a, b)
    }

    proof fn le_total_ordering() {
        lemma_bytes_total_ordering();
        assert((|a: Seq<u8>, b: Seq<u8>| Self::view_le(a, b)) =~= (|a: Seq<u8>, b: Seq<u8>| bytes_le(
            a,
            b,
        )));
    }

    fn le_exec(&self, other: &Self) -> (r: bool) {
        bytes_le_exec(self.as_slice(), other.as_slice())
    }

    fn eq_exec(&self, other: &Self) -> (r: bool) {
        bytes_eq_exec(self.as_slice(), other.as_slice())
    }
}

} // verus!
