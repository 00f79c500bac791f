//! Canonical serialization — the hashing layer owned by Trellis.
//!
//! Hashes are meaningless if equivalent values serialize differently, so
//! every content identity is computed over bytes produced here:
//!
//! - integers as unsigned LEB128 varints;
//! - byte/string payloads as varint length prefix + raw bytes;
//! - lists/maps written in sorted order (helpers sort defensively);
//! - every structured encoding starts with a domain-separation tag string
//!   (e.g. `"trellis.manifest.v1"`) so identities of different domain
//!   objects can never collide.
use vstd::prelude::*;
use vstd::string::*;

use crate::order::{sort_ordered, le_of, views, lemma_views_push, Ordered};
use crate::text::utf8;

verus! {

/// Unsigned LEB128 encoding: 7 bits per byte, low group first, high bit
/// set on every byte but the last.
pub open spec fn leb128(v: nat) -> Seq<u8>
    decreases v,
{
    if v < 128 {
        seq![v as u8]
    } else {
        seq![(v % 128 + 128) as u8] + leb128(v / 128)
    }
}

/// Length-prefixed payload encoding.
pub open spec fn framed(data: Seq<u8>) -> Seq<u8> {
    leb128(data.len()) + data
}

/// Concatenation of the framed encodings of a sequence of payloads.
pub open spec fn framed_all(items: Seq<Seq<u8>>) -> Seq<u8>
    decreases items.len(),
{
    if items.len() == 0 {
        Seq::empty()
    } else {
        framed_all(items.drop_last()) + framed(items.last())
    }
}

/// Append an unsigned LEB128 varint.
pub fn write_u64(buf: &mut Vec<u8>, v: u64)
    ensures
        final(buf)@ == old(buf)@ + leb128(v as nat),
{
    let ghost start = buf@;
    let ghost orig = v;
    let mut v = v;
    loop
        invariant_except_break
            buf@ + leb128(v as nat) == start + leb128(orig as nat),
        ensures
            buf@ == start + leb128(orig as nat),
        decreases v,
    {
        let byte: u8 = (v % 128) as u8;
        let ghost pre = buf@;
        let ghost pv = v;
        v = v / 128;
        if v == 0 {
            buf.push(byte);
            proof {
                assert(leb128(pv as nat) == seq![byte]);
                assert(buf@ =~= pre + leb128(pv as nat));
            }
            break;
        }
        buf.push(byte + 128);
        proof {
            assert(leb128(pv as nat) == seq![(byte + 128) as u8] + leb128(v as nat));
            assert(buf@ + leb128(v as nat) =~= pre + leb128(pv as nat));
        }
    }
}

/// Append raw bytes.
pub fn append_bytes(buf: &mut Vec<u8>, data: &[u8])
    ensures
        final(buf)@ == old(buf)@ + data@,
{
    let ghost start = buf@;
    let mut i: usize = 0;
    while i < data.len()
        invariant
            i <= data.len(),
            buf@ == start + data@.subrange(0, i as int),
        decreases data.len() - i,
    {
        buf.push(data[i]);
        assert(data@.subrange(0, i + 1) =~= data@.subrange(0, i as int).push(data@[i as int]));
        i = i + 1;
    }
    assert(data@.subrange(0, data.len() as int) =~= data@);
}

/// Append a length-prefixed byte payload.
pub fn write_bytes(buf: &mut Vec<u8>, data: &[u8])
    ensures
        final(buf)@ == old(buf)@ + framed(data@),
{
    let ghost start = buf@;
    write_u64(buf, data.len() as u64);
    append_bytes(buf, data);
    assert(buf@ =~= start + framed(data@));
}

/// Append a length-prefixed UTF-8 string.
pub fn write_str(buf: &mut Vec<u8>, s: &str)
    ensures
        final(buf)@ == old(buf)@ + framed(utf8(s@)),
{
    write_bytes(buf, s.as_bytes());
}

/// The UTF-8 bytes of each string in a sequence.
pub open spec fn utf8_all(items: Seq<Seq<char>>) -> Seq<Seq<u8>> {
    items.map_values(|s: Seq<char>| utf8(s))
}

/// Canonical encoding of a string list: item count, then the strings in
/// byte order, each length-prefixed.
pub open spec fn sorted_strs_encoding(items: Seq<Seq<char>>) -> Seq<u8> {
    leb128(items.len()) + framed_all(utf8_all(items.sort_by(le_of::<String>())))
}

/// Canonical encoding of a `(key, value)` list: pair count, then the pairs
/// sorted by key then value, each as two length-prefixed strings.
pub open spec fn sorted_pairs_encoding(pairs: Seq<(Seq<char>, Seq<char>)>) -> Seq<u8> {
    leb128(pairs.len()) + framed_pairs(pairs.sort_by(le_of::<(String, String)>()))
}

/// Concatenated encodings of a sequence of string pairs.
pub open spec fn framed_pairs(pairs: Seq<(Seq<char>, Seq<char>)>) -> Seq<u8>
    decreases pairs.len(),
{
    if pairs.len() == 0 {
        Seq::empty()
    } else {
        framed_pairs(pairs.drop_last()) + framed(utf8(pairs.last().0)) + framed(
            utf8(pairs.last().1),
        )
    }
}

proof fn lemma_sort_len<T>(s: Seq<T>, leq: spec_fn(T, T) -> bool)
    requires
        vstd::relations::total_ordering(leq),
    ensures
        s.sort_by(leq).len() == s.len(),
{
    s.lemma_sort_by_ensures(leq);
    vstd::seq_lib::to_multiset_len(s);
    vstd::seq_lib::to_multiset_len(s.sort_by(leq));
}

/// Append a varint item count followed by the strings in sorted order.
/// Sorts defensively: canonical order is enforced here, not trusted from
/// the caller.
pub fn write_sorted_strs(buf: &mut Vec<u8>, items: &[String])
    ensures
        final(buf)@ == old(buf)@ + sorted_strs_encoding(views(items@)),
{
    let ghost start = buf@;
    let mut copy: Vec<String> = Vec::new();
    let mut i: usize = 0;
    while i < items.len()
        invariant
            i <= items.len(),
            views(copy@) == views(items@).subrange(0, i as int),
        decreases items.len() - i,
    {
        let ghost pre = copy@;
        let item = items[i].clone();
        copy.push(item);
        proof {
            lemma_views_push(pre, item);
            assert(views(items@).subrange(0, i + 1) =~= views(items@).subrange(0, i as int).push(items@[i as int]@));
        }
        i = i + 1;
    }
    assert(views(items@).subrange(0, items.len() as int) =~= views(items@));
    let sorted = sort_ordered(copy);
    proof {
        String::le_total_ordering();
        lemma_sort_len(views(items@), le_of::<String>());
    }
    write_u64(buf, sorted.len() as u64);
    let ghost sv = views(sorted@);
    let mut j: usize = 0;
    while j < sorted.len()
        invariant
            j <= sorted.len(),
            sv == views(sorted@),
            sv.len() == items@.len(),
            buf@ == start + leb128(items@.len() as nat) + framed_all(
                utf8_all(sv.subrange(0, j as int)),
            ),
        decreases sorted.len() - j,
    {
        write_str(buf, sorted[j].as_str());
        proof {
            let a = sv.subrange(0, j as int);
            let b = sv.subrange(0, j + 1);
            assert(utf8_all(b).drop_last() =~= utf8_all(a));
            assert(utf8_all(b).last() == utf8(sv[j as int]));
        }
        j = j + 1;
    }
    assert(sv.subrange(0, sorted.len() as int) =~= sv);
}

/// Append a varint item count followed by `(key, value)` string pairs
/// sorted by key then value. Duplicate keys produce an ambiguous encoding
/// and are a caller-contract violation: map builders must reject
/// duplicates before encoding.
pub fn write_sorted_str_pairs(buf: &mut Vec<u8>, pairs: &[(String, String)])
    ensures
        final(buf)@ == old(buf)@ + sorted_pairs_encoding(views(pairs@)),
{
    let ghost start = buf@;
    let mut copy: Vec<(String, String)> = Vec::new();
    let mut i: usize = 0;
    while i < pairs.len()
        invariant
            i <= pairs.len(),
            views(copy@) == views(pairs@).subrange(0, i as int),
        decreases pairs.len() - i,
    {
        let k = pairs[i].0.clone();
        let v = pairs[i].1.clone();
        let ghost pre = copy@;
        let pair = (k, v);
        copy.push(pair);
        proof {
            lemma_views_push(pre, pair);
            assert(views(pairs@).subrange(0, i + 1) =~= views(pairs@).subrange(0, i as int).push(pairs@[i as int]@));
        }
        i = i + 1;
    }
    assert(views(pairs@).subrange(0, pairs.len() as int) =~= views(pairs@));
    let sorted = sort_ordered(copy);
    proof {
        <(String, String)>::le_total_ordering();
        lemma_sort_len(views(pairs@), le_of::<(String, String)>());
    }
    write_u64(buf, sorted.len() as u64);
    let ghost sv = views(sorted@);
    let mut j: usize = 0;
    while j < sorted.len()
        invariant
            j <= sorted.len(),
            sv == views(sorted@),
            sv.len() == pairs@.len(),
            buf@ == start + leb128(pairs@.len() as nat) + framed_pairs(sv.subrange(0, j as int)),
        decreases sorted.len() - j,
    {
        write_str(buf, sorted[j].0.as_str());
        write_str(buf, sorted[j].1.as_str());
        proof {
            let a = sv.subrange(0, j as int);
            let b = sv.subrange(0, j + 1);
            assert(b.drop_last() =~= a);
            assert(b.last() == sv[j as int]);
        }
        j = j + 1;
    }
    assert(sv.subrange(0, sorted.len() as int) =~= sv);
}

} // verus!
