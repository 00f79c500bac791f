use trellis::canonical::{write_sorted_str_pairs, write_sorted_strs, write_str, write_u64};

#[test]
fn uvarint_is_compact_and_unambiguous() {
    let mut a = Vec::new();
    write_u64(&mut a, 0);
    assert_eq!(a, vec![0x00]);
    let mut b = Vec::new();
    write_u64(&mut b, 127);
    assert_eq!(b, vec![0x7f]);
    let mut c = Vec::new();
    write_u64(&mut c, 128);
    assert_eq!(c, vec![0x80, 0x01]);
}

#[test]
fn strings_are_length_prefixed() {
    let mut buf = Vec::new();
    write_str(&mut buf, "abc");
    assert_eq!(buf, vec![3, b'a', b'b', b'c']);
}

#[test]
fn sorted_helpers_sort_defensively() {
    let mut buf = Vec::new();
    write_sorted_strs(&mut buf, &["b".into(), "a".into(), "c".into()]);
    assert_eq!(buf, vec![3, 1, b'a', 1, b'b', 1, b'c']);
}

#[test]
fn pair_sorting_is_key_then_value() {
    let mut buf = Vec::new();
    write_sorted_str_pairs(&mut buf, &[("a".into(), "z".into()), ("a".into(), "b".into())]);
    assert_eq!(buf[0], 2);
    assert_eq!(&buf[1..], &[1, b'a', 1, b'b', 1, b'a', 1, b'z']);
}

#[test]
fn large_values_use_seven_bit_groups() {
    let mut buf = Vec::new();
    write_u64(&mut buf, 300);
    assert_eq!(buf, vec![0xac, 0x02]);
    let mut max = Vec::new();
    write_u64(&mut max, u64::MAX);
    assert_eq!(max.len(), 10);
    assert_eq!(max[9], 0x01);
}
