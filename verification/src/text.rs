//! Text helpers: character and byte views of strings, string building,
//! and the byte order of strings.
use vstd::prelude::*;
use vstd::relations::*;
use vstd::string::*;
use vstd::utf8::*;

use crate::order::{bytes_le, bytes_le_exec, lemma_bytes_le_antisymmetric, lemma_bytes_le_reflexive, lemma_bytes_le_total, lemma_bytes_le_transitive, lemma_bytes_total_ordering, Ordered};

verus! {

broadcast use vstd::utf8::encode_utf8_decode_utf8;

/// The UTF-8 bytes of a character sequence (what `str::as_bytes` yields).
pub open spec fn utf8(s: Seq<char>) -> Seq<u8> {
    encode_utf8(s)
}

/// The characters of a string slice, in order.
pub fn chars_of(s: &str) -> (v: Vec<char>)
    ensures
        v@ == s@,
{
    let mut v: Vec<char> = Vec::new();
    for c in it: s.chars()
        invariant
            v@ == it.seq().take(it.index() as int),
    {
        v.push(c);
    }
    v
}

/// Appends one character (`String::push`).
#[verifier::external_body]
pub(crate) fn push_char(s: &mut String, c: char)
    ensures
        final(s)@ == old(s)@.push(c),
{
    s.push(c);
}

/// Appends a string slice.
pub fn push_str(s: &mut String, t: &str)
    ensures
        final(s)@ == old(s)@ + t@,
{
    s.append(t);
}

/// A new string holding the given characters.
pub fn string_of_chars(cs: &[char]) -> (r: String)
    ensures
        r@ == cs@,
{
    let mut r = String::new();
    let mut i: usize = 0;
    while i < cs.len()
        invariant
            i <= cs.len(),
            r@ == cs@.subrange(0, i as int),
        decreases cs.len() - i,
    {
        push_char(&mut r, cs[i]);
        assert(cs@.subrange(0, i + 1) =~= cs@.subrange(0, i as int).push(cs@[i as int]));
        i = i + 1;
    }
    assert(cs@.subrange(0, cs.len() as int) =~= cs@);
    r
}

/// An owned copy of a string slice.
pub fn owned(s: &str) -> (r: String)
    ensures
        r@ == s@,
{
    s.to_owned()
}

/// Whether two string slices hold the same characters.
pub fn str_eq(a: &str, b: &str) -> (r: bool)
    ensures
        r == (a@ == b@),
{
    let x = chars_of(a);
    let y = chars_of(b);
    if x.len() != y.len() {
        return false;
    }
    let mut i: usize = 0;
    while i < x.len()
        invariant
            i <= x.len(),
            x.len() == y.len(),
            x@ == a@,
            y@ == b@,
            forall|j: int| 0 <= j < i ==> x@[j] == y@[j],
        decreases x.len() - i,
    {
        if x[i] != y[i] {
            return false;
        }
        i = i + 1;
    }
    assert(x@ =~= y@);
    true
}

/// Unicode `White_Space` (what `char::is_whitespace` tests).
pub open spec fn is_ws(c: char) -> bool {
    ||| '\u{9}' <= c <= '\u{d}'
    ||| c == ' '
    ||| c == '\u{85}'
    ||| c == '\u{a0}'
    ||| c == '\u{1680}'
    ||| '\u{2000}' <= c <= '\u{200a}'
    ||| c == '\u{2028}'
    ||| c == '\u{2029}'
    ||| c == '\u{202f}'
    ||| c == '\u{205f}'
    ||| c == '\u{3000}'
}

/// Whether a character is Unicode whitespace.
pub fn char_is_ws(c: char) -> (r: bool)
    ensures
        r == is_ws(c),
{
    ('\u{9}' <= c && c <= '\u{d}') || c == ' ' || c == '\u{85}' || c == '\u{a0}' || c
        == '\u{1680}' || ('\u{2000}' <= c && c <= '\u{200a}') || c == '\u{2028}' || c
        == '\u{2029}' || c == '\u{202f}' || c == '\u{205f}' || c == '\u{3000}'
}

/// Text that is empty once surrounding whitespace is trimmed: every
/// character is whitespace.
pub open spec fn blank(s: Seq<char>) -> bool {
    forall|i: int| 0 <= i < s.len() ==> is_ws(#[trigger] s[i])
}

/// Whether `s.trim()` is empty.
pub fn is_blank(s: &str) -> (r: bool)
    ensures
        r == blank(s@),
{
    let cs = chars_of(s);
    let mut i: usize = 0;
    while i < cs.len()
        invariant
            i <= cs.len(),
            cs@ == s@,
            forall|j: int| 0 <= j < i ==> is_ws(#[trigger] s@[j]),
        decreases cs.len() - i,
    {
        if !char_is_ws(cs[i]) {
            return false;
        }
        i = i + 1;
    }
    true
}

/// The decimal digit character of `d < 10`.
pub open spec fn digit_char(d: nat) -> char {
    ((48 + d) as u8) as char
}

/// Decimal rendering of a natural number (what `u64::to_string` yields).
pub open spec fn decimal(n: nat) -> Seq<char>
    decreases n,
{
    if n < 10 {
        seq![digit_char(n)]
    } else {
        decimal(n / 10).push(digit_char(n % 10))
    }
}

proof fn lemma_digit_char_injective(a: nat, b: nat)
    requires
        a < 10,
        b < 10,
    ensures
        '0' <= digit_char(a) <= '9',
        digit_char(a) == digit_char(b) ==> a == b,
{
    assert(((48 + a) as u8) as int == 48 + a);
    assert(((48 + b) as u8) as int == 48 + b);
    assert((((48 + a) as u8) as char) as u32 == ((48 + a) as u8) as u32);
    assert((((48 + b) as u8) as char) as u32 == ((48 + b) as u8) as u32);
}

/// A decimal rendering is made of digits, and it determines its number.
pub proof fn lemma_decimal_injective(n: nat, m: nat)
    ensures
        decimal(n).len() >= 1,
        forall|k: int| 0 <= k < decimal(n).len() ==> '0' <= #[trigger] decimal(n)[k] <= '9',
        decimal(n) == decimal(m) ==> n == m,
    decreases n + m,
{
    if n < 10 {
        lemma_digit_char_injective(n, n);
    }
    if n >= 10 {
        lemma_digit_char_injective(n % 10, n % 10);
        lemma_decimal_injective(n / 10, m / 10);
        let p = decimal(n / 10);
        assert forall|k: int| 0 <= k < decimal(n).len() implies '0' <= #[trigger] decimal(n)[k] <= '9' by {
            if k < p.len() {
                assert(decimal(n)[k] == p[k]);
            }
        }
    }
    if m >= 10 {
        lemma_decimal_injective(m / 10, n / 10);
    }
    if decimal(n) == decimal(m) {
        if n < 10 && m < 10 {
            lemma_digit_char_injective(n, m);
            assert(decimal(n)[0] == digit_char(n));
            assert(decimal(m)[0] == digit_char(m));
        } else if n < 10 && m >= 10 {
            assert(decimal(n).len() == 1);
            assert(decimal(m).len() == decimal(m / 10).len() + 1);
            assert(decimal(m).len() >= 2);
        } else if m < 10 && n >= 10 {
            assert(decimal(m).len() == 1);
            assert(decimal(n).len() == decimal(n / 10).len() + 1);
            assert(decimal(n).len() >= 2);
        } else if n >= 10 && m >= 10 {
            assert(decimal(n).last() == digit_char(n % 10));
            assert(decimal(m).last() == digit_char(m % 10));
            lemma_digit_char_injective(n % 10, m % 10);
            assert(n % 10 == m % 10);
            assert(decimal(n / 10) =~= decimal(n).drop_last());
            assert(decimal(m / 10) =~= decimal(m).drop_last());
            assert(n / 10 == m / 10);
            assert(n == 10 * (n / 10) + n % 10);
            assert(m == 10 * (m / 10) + m % 10);
        }
    }
}

/// Decimal rendering of a `u64`.
pub fn u64_to_decimal(n: u64) -> (r: String)
    ensures
        r@ == decimal(n as nat),
    decreases n,
{
    let d: u8 = (n % 10) as u8;
    let c: char = (48u8 + d) as char;
    if n < 10 {
        let mut s = String::new();
        push_char(&mut s, c);
        proof {
            assert(s@ =~= seq![digit_char(n as nat)]);
        }
        s
    } else {
        let mut s = u64_to_decimal(n / 10);
        push_char(&mut s, c);
        s
    }
}

/// Whether a list of strings holds the given text.
pub fn contains_string(v: &[String], s: &str) -> (r: bool)
    ensures
        r == crate::order::views(v@).contains(s@),
{
    let mut i: usize = 0;
    while i < v.len()
        invariant
            i <= v@.len(),
            forall|k: int| 0 <= k < i ==> (#[trigger] v@[k])@ != s@,
        decreases v.len() - i,
    {
        if str_eq(v[i].as_str(), s) {
            assert(crate::order::views(v@)[i as int] == s@);
            return true;
        }
        i = i + 1;
    }
    proof {
        if crate::order::views(v@).contains(s@) {
            let k = choose|k: int| 0 <= k < crate::order::views(v@).len() && crate::order::views(v@)[k] == s@;
            assert(v@[k]@ == s@);
        }
    }
    false
}

/// Whether a character sequence ends with the given suffix.
pub open spec fn ends_with(s: Seq<char>, suffix: Seq<char>) -> bool {
    suffix.len() <= s.len() && s.subrange(s.len() - suffix.len(), s.len() as int) == suffix
}

/// Whether a character sequence starts with the given prefix.
pub open spec fn starts_with(s: Seq<char>, prefix: Seq<char>) -> bool {
    prefix.len() <= s.len() && s.subrange(0, prefix.len() as int) == prefix
}

/// Exec suffix test on character vectors.
pub fn chars_end_with(s: &Vec<char>, suffix: &[char]) -> (r: bool)
    ensures
        r == ends_with(s@, suffix@),
{
    if suffix.len() > s.len() {
        return false;
    }
    let off = s.len() - suffix.len();
    let mut i: usize = 0;
    while i < suffix.len()
        invariant
            i <= suffix.len(),
            off + suffix.len() == s.len(),
            forall|j: int| 0 <= j < i ==> s@[off + j] == suffix@[j],
        decreases suffix.len() - i,
    {
        if s[off + i] != suffix[i] {
            assert(s@.subrange(off as int, s.len() as int)[i as int] == s@[off + i]);
            return false;
        }
        i = i + 1;
    }
    assert(s@.subrange(off as int, s.len() as int) =~= suffix@);
    true
}

/// Exec prefix test on character vectors.
pub fn chars_start_with(s: &Vec<char>, prefix: &[char]) -> (r: bool)
    ensures
        r == starts_with(s@, prefix@),
{
    if prefix.len() > s.len() {
        return false;
    }
    let mut i: usize = 0;
    while i < prefix.len()
        invariant
            i <= prefix.len(),
            prefix.len() <= s.len(),
            forall|j: int| 0 <= j < i ==> s@[j] == prefix@[j],
        decreases prefix.len() - i,
    {
        if s[i] != prefix[i] {
            assert(s@.subrange(0, prefix.len() as int)[i as int] == s@[i as int]);
            return false;
        }
        i = i + 1;
    }
    assert(s@.subrange(0, prefix.len() as int) =~= prefix@);
    true
}

/// A sub-vector of characters.
pub fn chars_range(s: &Vec<char>, from: usize, to: usize) -> (r: Vec<char>)
    requires
        from <= to <= s.len(),
    ensures
        r@ == s@.subrange(from as int, to as int),
{
    let mut r: Vec<char> = Vec::new();
    let mut i = from;
    while i < to
        invariant
            from <= i <= to,
            to <= s.len(),
            r@ == s@.subrange(from as int, i as int),
        decreases to - i,
    {
        r.push(s[i]);
        assert(s@.subrange(from as int, i + 1) =~= s@.subrange(from as int, i as int).push(
            s@[i as int],
        ));
        i = i + 1;
    }
    r
}

/// Strings ordered by their UTF-8 bytes (the order of `String::cmp`).
impl Ordered for String {
    open spec fn view_le(a: Seq<char>, b: Seq<char>) -> bool {
        bytes_le(utf8(a), utf8(b))
    }

    proof fn le_total_ordering() {
        lemma_bytes_total_ordering();
        let f = |a: Seq<char>, b: Seq<char>| Self::view_le(a, b);
        assert forall|a: Seq<char>| #[trigger] f(a, a) by {
            lemma_bytes_le_reflexive(utf8(a));
        }
        assert forall|a: Seq<char>, b: Seq<char>| #[trigger] f(a, b) && #[trigger] f(b, a) implies a
            == b by {
            lemma_bytes_le_antisymmetric(utf8(a), utf8(b));
            encode_utf8_decode_utf8(a);
            encode_utf8_decode_utf8(b);
        }
        assert forall|a: Seq<char>, b: Seq<char>, c: Seq<char>| #[trigger] f(a, b) && #[trigger] f(
            b,
            c,
        ) implies f(a, c) by {
            lemma_bytes_le_transitive(utf8(a), utf8(b), utf8(c));
        }
        assert forall|a: Seq<char>, b: Seq<char>| #[trigger] f(a, b) || #[trigger] f(b, a) by {
            lemma_bytes_le_total(utf8(a), utf8(b));
        }
    }

    fn le_exec(&self, other: &Self) -> (r: bool) {
        bytes_le_exec(self.as_str().as_bytes(), other.as_str().as_bytes())
    }

    fn eq_exec(&self, other: &Self) -> (r: bool) {
        *self == *other
    }
}

/// The string order as plain facts: reflexive, total, transitive and
/// antisymmetric.
pub proof fn lemma_string_le_facts()
    ensures
        forall|a: Seq<char>| #[trigger] String::view_le(a, a),
        forall|a: Seq<char>, b: Seq<char>|
            #[trigger] String::view_le(a, b) || #[trigger] String::view_le(b, a),
        forall|a: Seq<char>, b: Seq<char>, c: Seq<char>|
            #[trigger] String::view_le(a, b) && #[trigger] String::view_le(b, c) ==> String::view_le(
                a,
                c,
            ),
        forall|a: Seq<char>, b: Seq<char>|
            #[trigger] String::view_le(a, b) && #[trigger] String::view_le(b, a) ==> a == b,
{
    String::le_total_ordering();
    let f = |a: Seq<char>, b: Seq<char>| String::view_le(a, b);
    assert forall|a: Seq<char>| #[trigger] String::view_le(a, a) by {
        assert(f(a, a));
    }
    assert forall|a: Seq<char>, b: Seq<char>|
        #[trigger] String::view_le(a, b) || #[trigger] String::view_le(b, a) by {
        assert(f(a, b) || f(b, a));
    }
    assert forall|a: Seq<char>, b: Seq<char>, c: Seq<char>|
        #[trigger] String::view_le(a, b) && #[trigger] String::view_le(b, c) implies String::view_le(
        a,
        c,
    ) by {
        assert(f(a, b) && f(b, c) ==> f(a, c));
    }
    assert forall|a: Seq<char>, b: Seq<char>|
        #[trigger] String::view_le(a, b) && #[trigger] String::view_le(b, a) implies a == b by {
        assert(f(a, b) && f(b, a) ==> a == b);
    }
}

/// String pairs ordered by key, then value (the order of `(String,
/// String)::cmp`).
impl Ordered for (String, String) {
    open spec fn view_le(a: (Seq<char>, Seq<char>), b: (Seq<char>, Seq<char>)) -> bool {
        (String::view_le(a.0, b.0) && a.0 != b.0) || (a.0 == b.0 && String::view_le(a.1, b.1))
    }

    proof fn le_total_ordering() {
        String::le_total_ordering();
        let s = |a: Seq<char>, b: Seq<char>| String::view_le(a, b);
        let f = |a: (Seq<char>, Seq<char>), b: (Seq<char>, Seq<char>)| Self::view_le(a, b);
        assert forall|a: (Seq<char>, Seq<char>)| #[trigger] f(a, a) by {
            assert(s(a.1, a.1));
        }
        assert forall|a: (Seq<char>, Seq<char>), b: (Seq<char>, Seq<char>)| #[trigger] f(a, b)
            && #[trigger] f(b, a) implies a == b by {
            if a.0 == b.0 {
                assert(s(a.1, b.1) && s(b.1, a.1));
            } else {
                assert(s(a.0, b.0) && s(b.0, a.0));
            }
        }
        assert forall|a: (Seq<char>, Seq<char>), b: (Seq<char>, Seq<char>), c: (
            Seq<char>,
            Seq<char>,
        )| #[trigger] f(a, b) && #[trigger] f(b, c) implies f(a, c) by {
            if a.0 == b.0 && b.0 == c.0 {
                assert(s(a.1, b.1) && s(b.1, c.1));
            } else if a.0 == b.0 {
                assert(s(b.0, c.0));
            } else if b.0 == c.0 {
                assert(s(a.0, b.0));
            } else {
                assert(s(a.0, b.0) && s(b.0, c.0));
                assert(s(a.0, c.0));
                if a.0 == c.0 {
                    assert(s(c.0, b.0));
                }
            }
        }
        assert forall|a: (Seq<char>, Seq<char>), b: (Seq<char>, Seq<char>)| #[trigger] f(a, b)
            || #[trigger] f(b, a) by {
            assert(s(a.0, b.0) || s(b.0, a.0));
            assert(s(a.1, b.1) || s(b.1, a.1));
        }
    }

    fn le_exec(&self, other: &Self) -> (r: bool) {
        if self.0 == other.0 {
            self.1.le_exec(&other.1)
        } else {
            self.0.le_exec(&other.0)
        }
    }

    fn eq_exec(&self, other: &Self) -> (r: bool) {
        self.0 == other.0 && self.1 == other.1
    }
}

} // verus!
