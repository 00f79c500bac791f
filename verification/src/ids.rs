//! Content identities and typed identifiers.
//!
//! Every persistent domain object is identified by a content hash whose
//! algorithm is encoded into the ID (`blake3:…`) so future migration is
//! possible. IDs render as `<algo>:<hex>` with lowercase hex and parse
//! back (upper- or lowercase hex) to the same value.
use vstd::prelude::*;
use vstd::relations::*;
use vstd::utf8::*;
use vstd::string::*;

use crate::error::DomainError;
use crate::hash::{blake3_digest, blake3_hash, blake3_hasher_finalize, blake3_hasher_new, blake3_hasher_update, hasher_input};
use crate::order::{
    bytes_le, bytes_le_exec, lemma_bytes_le_antisymmetric, lemma_bytes_le_reflexive,
    lemma_bytes_le_total, lemma_bytes_le_transitive, Ordered,
};
use crate::text::{push_char, str_eq, utf8};

verus! {

broadcast use vstd::array::group_array_axioms;

/// Hash algorithm used for a content identity. The algorithm is part of
/// the identity itself: IDs render as `<algo>:<hex>` and never silently
/// change algorithm.
#[derive(Debug, Clone, Copy, PartialEq, Eq, PartialOrd, Ord, Hash)]
pub enum HashAlgo {
    /// BLAKE3, 256-bit digest. The only algorithm in this version.
    Blake3,
}

/// The characters of the `blake3` algorithm prefix.
pub open spec fn blake3_prefix_text() -> Seq<char> {
    seq!['b', 'l', 'a', 'k', 'e', '3']
}

/// The UTF-8 bytes of the `blake3` algorithm prefix.
pub open spec fn blake3_prefix_bytes() -> Seq<u8> {
    seq![98u8, 108u8, 97u8, 107u8, 101u8, 51u8]
}

impl HashAlgo {
    /// Canonical lowercase prefix used in rendered IDs.
    pub fn prefix(self) -> (r: &'static str)
        ensures
            r@ == blake3_prefix_text(),
    {
        proof {
            reveal_strlit("blake3");
        }
        "blake3"
    }

    /// Digest length in bytes for this algorithm.
    pub fn digest_len(self) -> (r: usize)
        ensures
            r == 32,
    {
        match self {
            HashAlgo::Blake3 => 32,
        }
    }

    /// Parse an algorithm from its canonical prefix.
    pub fn from_prefix(prefix: &str) -> (r: Option<Self>)
        ensures
            r == (if prefix@ == blake3_prefix_text() {
                Some(HashAlgo::Blake3)
            } else {
                None
            }),
    {
        proof {
            reveal_strlit("blake3");
            assert("blake3"@ =~= blake3_prefix_text());
        }
        if str_eq(prefix, "blake3") {
            Some(HashAlgo::Blake3)
        } else {
            None
        }
    }
}

/// The lowercase hex digit for a nibble.
pub open spec fn hex_digit(n: u8) -> char {
    if n < 10 {
        (48 + n) as char
    } else {
        (87 + n) as char
    }
}

/// Lowercase hex rendering of a byte sequence (two digits per byte,
/// high nibble first).
pub open spec fn hex_text(d: Seq<u8>) -> Seq<char> {
    Seq::new(
        (d.len() * 2) as nat,
        |i: int|
            if i % 2 == 0 {
                hex_digit(d[i / 2] / 16)
            } else {
                hex_digit(d[i / 2] % 16)
            },
    )
}

/// The value of one hex digit byte (either case).
pub open spec fn hex_val(b: u8) -> Option<u8> {
    if 48 <= b <= 57 {
        Some((b - 48) as u8)
    } else if 97 <= b <= 102 {
        Some((b - 87) as u8)
    } else if 65 <= b <= 70 {
        Some((b - 55) as u8)
    } else {
        None
    }
}

/// Hex decoding of a byte string: `None` for odd length or any non-hex byte.
pub open spec fn hex_decode(s: Seq<u8>) -> Option<Seq<u8>> {
    if s.len() % 2 != 0 {
        None
    } else if exists|i: int| 0 <= i < s.len() && hex_val(s[i]) is None {
        None
    } else {
        Some(
            Seq::new(
                s.len() / 2,
                |i: int| (hex_val(s[2 * i])->0 * 16 + hex_val(s[2 * i + 1])->0) as u8,
            ),
        )
    }
}

fn hex_digit_exec(n: u8) -> (c: char)
    requires
        n < 16,
    ensures
        c == hex_digit(n),
{
    if n < 10 {
        (48 + n) as char
    } else {
        (87 + n) as char
    }
}

fn hex_val_exec(b: u8) -> (r: Option<u8>)
    ensures
        r == hex_val(b),
{
    if 48 <= b && b <= 57 {
        Some(b - 48)
    } else if 97 <= b && b <= 102 {
        Some(b - 87)
    } else if 65 <= b && b <= 70 {
        Some(b - 55)
    } else {
        None
    }
}

/// Append the lowercase hex rendering of `bytes` to `out`.
pub fn push_hex(out: &mut String, bytes: &[u8])
    ensures
        final(out)@ == old(out)@ + hex_text(bytes@),
{
    let ghost start = out@;
    let mut i: usize = 0;
    while i < bytes.len()
        invariant
            i <= bytes.len(),
            out@ == start + hex_text(bytes@.subrange(0, i as int)),
        decreases bytes.len() - i,
    {
        let b = bytes[i];
        push_char(out, hex_digit_exec(b / 16));
        push_char(out, hex_digit_exec(b % 16));
        proof {
            let p = bytes@.subrange(0, i as int);
            let q = bytes@.subrange(0, i + 1);
            assert(hex_text(q) =~= hex_text(p).push(hex_digit(b / 16)).push(hex_digit(b % 16))) by {
                assert forall|k: int| 0 <= k < hex_text(p).len() implies #[trigger] hex_text(q)[k]
                    == hex_text(p)[k] by {
                    assert(q[k / 2] == p[k / 2]);
                }
                assert(q[i as int] == b);
            }
        }
        i = i + 1;
    }
    assert(bytes@.subrange(0, bytes.len() as int) =~= bytes@);
}

/// Exec hex decoding of a byte slice.
pub fn hex_decode_exec(s: &[u8]) -> (r: Option<Vec<u8>>)
    ensures
        match r {
            Some(v) => hex_decode(s@) == Some(v@),
            None => hex_decode(s@) is None,
        },
{
    if s.len() % 2 != 0 {
        return None;
    }
    let mut out: Vec<u8> = Vec::new();
    let mut i: usize = 0;
    while i < s.len() / 2
        invariant
            s.len() % 2 == 0,
            i <= s.len() / 2,
            out@.len() == i,
            forall|k: int| 0 <= k < 2 * i ==> hex_val(#[trigger] s@[k]) is Some,
            forall|k: int|
                0 <= k < i ==> out@[k] == (hex_val(s@[2 * k])->0 * 16 + hex_val(
                    s@[2 * k + 1],
                )->0) as u8,
        decreases s.len() / 2 - i,
    {
        let hi = hex_val_exec(s[2 * i]);
        let lo = hex_val_exec(s[2 * i + 1]);
        match (hi, lo) {
            (Some(h), Some(l)) => {
                out.push(h * 16 + l);
            },
            _ => {
                return None;
            },
        }
        i = i + 1;
    }
    assert(!(exists|k: int| 0 <= k < s@.len() && hex_val(s@[k]) is None));
    assert(out@ =~= Seq::new(
        s@.len() / 2,
        |k: int| (hex_val(s@[2 * k])->0 * 16 + hex_val(s@[2 * k + 1])->0) as u8,
    ));
    Some(out)
}

/// The first position of byte `x` in `b`, if any.
pub open spec fn first_index_of(b: Seq<u8>, x: u8) -> Option<int>
    decreases b.len(),
{
    if b.len() == 0 {
        None
    } else if b[0] == x {
        Some(0)
    } else {
        match first_index_of(b.drop_first(), x) {
            Some(i) => Some(i + 1),
            None => None,
        }
    }
}

proof fn lemma_first_index_of(b: Seq<u8>, x: u8, i: int)
    requires
        0 <= i <= b.len(),
        forall|j: int| 0 <= j < i ==> b[j] != x,
        i < b.len() ==> b[i] == x,
    ensures
        first_index_of(b, x) == (if i < b.len() {
            Some(i)
        } else {
            None::<int>
        }),
    decreases b.len(),
{
    if b.len() > 0 && i > 0 {
        lemma_first_index_of(b.drop_first(), x, i - 1);
    }
}

/// A found position is in range, holds `x`, and is the first such.
pub proof fn lemma_first_index_of_found(b: Seq<u8>, x: u8)
    ensures
        first_index_of(b, x) matches Some(i) ==> 0 <= i < b.len() && b[i] == x && forall|j: int|
            0 <= j < i ==> b[j] != x,
        first_index_of(b, x) is None ==> forall|j: int| 0 <= j < b.len() ==> b[j] != x,
    decreases b.len(),
{
    if b.len() > 0 {
        lemma_first_index_of_found(b.drop_first(), x);
        if b[0] != x {
            assert forall|j: int| 1 <= j < b.len() implies b[j] == b.drop_first()[j - 1] by {}
        }
    }
}

/// Exec search for the first position of byte `x`.
pub fn find_byte(b: &[u8], x: u8) -> (r: Option<usize>)
    ensures
        match r {
            Some(i) => first_index_of(b@, x) == Some(i as int),
            None => first_index_of(b@, x) is None,
        },
{
    let mut i: usize = 0;
    while i < b.len()
        invariant
            i <= b.len(),
            forall|j: int| 0 <= j < i ==> b@[j] != x,
        decreases b.len() - i,
    {
        if b[i] == x {
            proof {
                lemma_first_index_of(b@, x, i as int);
            }
            return Some(i);
        }
        i = i + 1;
    }
    proof {
        lemma_first_index_of(b@, x, i as int);
    }
    None
}

/// A content identity: algorithm tag + raw digest. Equality and ordering
/// are over the full `(algo, digest)` pair.
#[derive(Debug, Clone, Copy, PartialEq, Eq, PartialOrd, Ord, Hash)]
pub struct ContentHash {
    /// The hash algorithm.
    pub algo: HashAlgo,
    /// The raw digest bytes.
    pub digest: [u8; 32],
}

impl View for ContentHash {
    type V = ContentHash;

    open spec fn view(&self) -> ContentHash {
        *self
    }
}

/// The rendering of a content identity: `<algo>:<lowercase hex>`.
pub open spec fn hash_text(h: ContentHash) -> Seq<char> {
    blake3_prefix_text().push(':') + hex_text(h.digest@)
}

/// Why a rendered identity failed to parse (the shape of the
/// corresponding [`DomainError`]).
pub enum HashTextError {
    /// No `:` separator.
    MissingSeparator,
    /// The prefix (these bytes) names no known algorithm.
    UnknownAlgo(Seq<u8>),
    /// The digest text (of this byte length) is not hex.
    InvalidHex(nat),
    /// The decoded digest has this (wrong) length.
    WrongLength(nat),
}

/// The parse of a rendered identity's UTF-8 bytes.
pub open spec fn parse_hash_text(b: Seq<u8>) -> Result<ContentHash, HashTextError> {
    match first_index_of(b, 58) {
        None => Err(HashTextError::MissingSeparator),
        Some(i) => {
            let prefix = b.subrange(0, i);
            let hex = b.subrange(i + 1, b.len() as int);
            if prefix != blake3_prefix_bytes() {
                Err(HashTextError::UnknownAlgo(prefix))
            } else {
                match hex_decode(hex) {
                    None => Err(HashTextError::InvalidHex(hex.len())),
                    Some(d) => if d.len() == 32 {
                        Ok(ContentHash { algo: HashAlgo::Blake3, digest: digest_array(d) })
                    } else {
                        Err(HashTextError::WrongLength(d.len()))
                    },
                }
            }
        },
    }
}

/// The 32-byte array holding a 32-byte sequence.
pub open spec fn digest_array(d: Seq<u8>) -> [u8; 32] {
    choose|a: [u8; 32]| a@ == d
}

/// A domain error carries exactly the parse failure `e`.
pub open spec fn hash_error_matches(err: DomainError, e: HashTextError) -> bool {
    match e {
        HashTextError::MissingSeparator => err == DomainError::MissingHashSeparator,
        HashTextError::UnknownAlgo(p) => err matches DomainError::UnknownHashAlgo(s) && utf8(s@)
            == p,
        HashTextError::InvalidHex(n) => err == DomainError::InvalidHexDigest(n as usize),
        HashTextError::WrongLength(n) => err == DomainError::DigestLength {
            algo: HashAlgo::Blake3,
            got: n as usize,
        },
    }
}

/// A parse outcome agrees with the parse of the bytes `b`.
pub open spec fn hash_parse_agrees(r: Result<ContentHash, DomainError>, b: Seq<u8>) -> bool {
    match r {
        Ok(h) => parse_hash_text(b) == Ok::<ContentHash, HashTextError>(h),
        Err(e) => parse_hash_text(b) matches Err(pe) && hash_error_matches(e, pe),
    }
}

pub proof fn lemma_digest_array(a: [u8; 32])
    ensures
        digest_array(a@) == a,
{
    let c = digest_array(a@);
    assert(exists|x: [u8; 32]| x@ == a@);
    assert(c@ == a@);
    assert(c@ =~= a@);
}

impl ContentHash {
    /// Hash a canonical byte sequence with the given algorithm and wrap the
    /// digest.
    pub fn compute(algo: HashAlgo, data: &[u8]) -> (r: Self)
        ensures
            r.algo == algo,
            r.digest@ == blake3_digest(data@),
    {
        match algo {
            HashAlgo::Blake3 => ContentHash { algo, digest: blake3_hash(data) },
        }
    }

    /// Wrap a raw digest. Returns `None` if the length does not match the
    /// algorithm's digest length.
    pub fn from_bytes(algo: HashAlgo, digest: &[u8]) -> (r: Option<Self>)
        ensures
            digest@.len() != 32 ==> r is None,
            digest@.len() == 32 ==> (r matches Some(h) && h.algo == algo && h.digest@ == digest@),
    {
        if digest.len() != algo.digest_len() {
            return None;
        }
        let mut buf = [0u8; 32];
        let mut i: usize = 0;
        while i < 32
            invariant
                digest@.len() == 32,
                i <= 32,
                forall|k: int| 0 <= k < i ==> buf@[k] == digest@[k],
            decreases 32 - i,
        {
            buf.set(i, digest[i]);
            i = i + 1;
        }
        assert(buf@ =~= digest@);
        Some(ContentHash { algo, digest: buf })
    }

    /// The algorithm of this content identity.
    pub fn algo(&self) -> (r: HashAlgo)
        ensures
            r == self.algo,
    {
        self.algo
    }

    /// The raw digest bytes.
    pub fn digest(&self) -> (r: &[u8; 32])
        ensures
            *r == self.digest,
    {
        &self.digest
    }

    /// Render as `<algo>:<lowercase hex>`.
    pub fn to_string(&self) -> (r: String)
        ensures
            r@ == hash_text(*self),
    {
        let mut out = String::new();
        let p = self.algo.prefix();
        crate::text::push_str(&mut out, p);
        push_char(&mut out, ':');
        push_hex(&mut out, self.digest.as_slice());
        r_is(out)
    }

    /// Parse `<algo>:<hex>` (hex in either case).
    ///
    /// # Errors
    /// The [`DomainError`] naming the first violated rule: missing
    /// separator, unknown algorithm, invalid hex, wrong digest length.
    pub fn from_str(s: &str) -> (r: Result<Self, DomainError>)
        ensures
            hash_parse_agrees(r, s.spec_bytes()),
    {
        let b = s.as_bytes();
        let pos = find_byte(b, 58);
        match pos {
            None => Err(DomainError::MissingHashSeparator),
            Some(i) => {
                proof {
                    lemma_first_index_of_found(b@, 58);
                    encode_utf8_valid_utf8(s@);
                    is_char_boundary_iff_is_leading_byte(s.spec_bytes(), i as int);
                }
                let (prefix, rest) = s.split_at(i);
                let pb = prefix.as_bytes();
                let lit: [u8; 6] = [98, 108, 97, 107, 101, 51];
                if !crate::order::bytes_eq_exec(pb, lit.as_slice()) {
                    proof {
                        assert(lit@ =~= blake3_prefix_bytes());
                    }
                    return Err(DomainError::UnknownHashAlgo(crate::text::owned(prefix)));
                }
                proof {
                    assert(lit@ =~= blake3_prefix_bytes());
                }
                let hex = slice_from(b, i + 1);
                match hex_decode_exec(hex) {
                    None => Err(DomainError::InvalidHexDigest(hex.len())),
                    Some(d) => {
                        match ContentHash::from_bytes(HashAlgo::Blake3, d.as_slice()) {
                            Some(h) => {
                                proof {
                                    lemma_digest_array(h.digest);
                                }
                                Ok(h)
                            },
                            None => Err(
                                DomainError::DigestLength { algo: HashAlgo::Blake3, got: d.len() },
                            ),
                        }
                    },
                }
            },
        }
    }
}

fn r_is(s: String) -> (r: String)
    ensures
        r == s,
{
    s
}

/// The tail of a byte slice from position `from`.
pub fn slice_from(b: &[u8], from: usize) -> (r: &[u8])
    requires
        from <= b@.len(),
    ensures
        r@ == b@.subrange(from as int, b@.len() as int),
{
    let (_, tail) = b.split_at(from);
    tail
}

/// Digest bytes ordered lexicographically (the derived order of
/// [`ContentHash`], whose algorithm part is constant).
impl Ordered for ContentHash {
    open spec fn view_le(a: ContentHash, b: ContentHash) -> bool {
        bytes_le(a.digest@, b.digest@)
    }

    proof fn le_total_ordering() {
        let f = |a: ContentHash, b: ContentHash| Self::view_le(a, b);
        assert forall|a: ContentHash| #[trigger] f(a, a) by {
            lemma_bytes_le_reflexive(a.digest@);
        }
        assert forall|a: ContentHash, b: ContentHash| #[trigger] f(a, b) && #[trigger] f(
            b,
            a,
        ) implies a == b by {
            lemma_bytes_le_antisymmetric(a.digest@, b.digest@);
            assert(a.digest =~= b.digest);
        }
        assert forall|a: ContentHash, b: ContentHash, c: ContentHash| #[trigger] f(a, b)
            && #[trigger] f(b, c) implies f(a, c) by {
            lemma_bytes_le_transitive(a.digest@, b.digest@, c.digest@);
        }
        assert forall|a: ContentHash, b: ContentHash| #[trigger] f(a, b) || #[trigger] f(b, a) by {
            lemma_bytes_le_total(a.digest@, b.digest@);
        }
    }

    fn le_exec(&self, other: &Self) -> (r: bool) {
        bytes_le_exec(self.digest.as_slice(), other.digest.as_slice())
    }

    fn eq_exec(&self, other: &Self) -> (r: bool) {
        let r = crate::order::bytes_eq_exec(self.digest.as_slice(), other.digest.as_slice());
        proof {
            if r {
                assert(self.digest =~= other.digest);
            }
        }
        r
    }
}

proof fn lemma_hex_digit_val(n: u8)
    requires
        n < 16,
    ensures
        (hex_digit(n) as u8) as int == (if n < 10 { 48 + n } else { 87 + n }),
        hex_val(hex_digit(n) as u8) == Some(n),
        '\0' <= hex_digit(n) <= '\u{7f}',
        hex_digit(n) as u8 != 58,
{
}

/// A rendered identity is 71 characters, none of them a control
/// character, and it determines the identity it renders.
pub proof fn lemma_hash_text_injective(h1: ContentHash, h2: ContentHash)
    ensures
        hash_text(h1).len() == 71,
        forall|k: int| 0 <= k < hash_text(h1).len() ==> (#[trigger] hash_text(h1)[k]) as u32 >= 32,
        hash_text(h1) == hash_text(h2) ==> h1 == h2,
{
    let d = h1.digest@;
    let t = hash_text(h1);
    let hx = hex_text(d);
    assert(d.len() == 32);
    assert forall|k: int| 0 <= k < hx.len() implies (#[trigger] hx[k]) as u32 >= 32 by {
        lemma_hex_digit_val(d[k / 2] / 16);
        lemma_hex_digit_val(d[k / 2] % 16);
    }
    assert forall|k: int| 0 <= k < t.len() implies (#[trigger] t[k]) as u32 >= 32 by {
        if k >= 7 {
            assert(t[k] == hx[k - 7]);
        }
    }
    lemma_hash_text_roundtrip(h1);
    lemma_hash_text_roundtrip(h2);
}

/// Every content identity renders to text that parses back to it:
/// `parse(render(h)) == h`.
pub proof fn lemma_hash_text_roundtrip(h: ContentHash)
    ensures
        parse_hash_text(utf8(hash_text(h))) == Ok::<ContentHash, HashTextError>(h),
{
    let d = h.digest@;
    let t = hash_text(h);
    let hx = hex_text(d);
    assert(d.len() == 32);
    assert(t.len() == 71);
    assert forall|k: int| 0 <= k < hx.len() implies '\0' <= #[trigger] hx[k] <= '\u{7f}'
        && hx[k] as u8 != 58 by {
        lemma_hex_digit_val(d[k / 2] / 16);
        lemma_hex_digit_val(d[k / 2] % 16);
    }
    assert forall|k: int| 0 <= k < t.len() implies '\0' <= #[trigger] t[k] <= '\u{7f}' by {
        if k >= 7 {
            assert(t[k] == hx[k - 7]);
        }
    }
    assert(is_ascii_chars(t));
    is_ascii_chars_encode_utf8(t);
    let b = utf8(t);
    assert(b.len() == 71);
    assert forall|k: int| 0 <= k < 71 implies b[k] == t[k] as u8 by {}
    assert(b[6] == 58u8);
    assert forall|j: int| 0 <= j < 6 implies b[j] != 58u8 by {
        assert(b[j] == t[j] as u8);
    }
    lemma_first_index_of(b, 58, 6);
    let prefix = b.subrange(0, 6);
    assert(prefix =~= blake3_prefix_bytes()) by {
        assert(b[0] == t[0] as u8);
        assert(b[1] == t[1] as u8);
        assert(b[2] == t[2] as u8);
        assert(b[3] == t[3] as u8);
        assert(b[4] == t[4] as u8);
        assert(b[5] == t[5] as u8);
    }
    let hex = b.subrange(7, 71);
    assert forall|k: int| 0 <= k < 64 implies #[trigger] hex[k] == hx[k] as u8 by {
        assert(hex[k] == b[k + 7]);
        assert(t[k + 7] == hx[k]);
    }
    assert forall|i: int| 0 <= i < 32 implies hex_val(#[trigger] hex[2 * i]) == Some(d[i] / 16)
        && hex_val(hex[2 * i + 1]) == Some(d[i] % 16) by {
        lemma_hex_digit_val(d[i] / 16);
        lemma_hex_digit_val(d[i] % 16);
        assert(hx[2 * i] == hex_digit(d[i] / 16));
        assert(hx[2 * i + 1] == hex_digit(d[i] % 16));
    }
    assert forall|k: int| 0 <= k < hex.len() implies hex_val(#[trigger] hex[k]) is Some by {
        let i = k / 2;
        assert(k == 2 * i || k == 2 * i + 1);
        assert(hex_val(hex[2 * i]) == Some(d[i] / 16));
    }
    let dec = Seq::new(
        hex.len() / 2,
        |i: int| (hex_val(hex[2 * i])->0 * 16 + hex_val(hex[2 * i + 1])->0) as u8,
    );
    assert(hex_decode(hex) == Some(dec));
    assert(dec =~= d) by {
        assert forall|i: int| 0 <= i < 32 implies dec[i] == d[i] by {
            assert(hex_val(hex[2 * i]) == Some(d[i] / 16));
            assert(hex_val(hex[2 * i + 1]) == Some(d[i] % 16));
        }
    }
    lemma_digest_array(h.digest);
}

/// Exec equality of content identities.
pub fn hash_eq(a: &ContentHash, b: &ContentHash) -> (r: bool)
    ensures
        r == (*a == *b),
{
    a.eq_exec(b)
}

/// Incremental content hasher over canonical bytes, for payloads too
/// large to assemble in one buffer. Streaming the same bytes in any
/// chunking yields the one-shot [`ContentHash::compute`] identity.
pub struct ContentHasher {
    algo: HashAlgo,
    inner: blake3::Hasher,
}

impl ContentHasher {
    /// The bytes fed so far, in order.
    pub closed spec fn absorbed(&self) -> Seq<u8> {
        hasher_input(self.inner)
    }

    /// The algorithm being computed.
    pub closed spec fn spec_algo(&self) -> HashAlgo {
        self.algo
    }

    /// Start hashing with the given algorithm.
    pub fn new(algo: HashAlgo) -> (r: Self)
        ensures
            r.absorbed() == Seq::<u8>::empty(),
            r.spec_algo() == algo,
    {
        let inner = match algo {
            HashAlgo::Blake3 => blake3_hasher_new(),
        };
        ContentHasher { algo, inner }
    }

    /// Feed the next chunk of canonical bytes.
    pub fn update(&mut self, data: &[u8])
        ensures
            final(self).absorbed() == old(self).absorbed() + data@,
            final(self).spec_algo() == old(self).spec_algo(),
    {
        blake3_hasher_update(&mut self.inner, data);
    }

    /// Finish and wrap the digest: the identity of everything fed so far.
    pub fn finish(&self) -> (r: ContentHash)
        ensures
            r.algo == self.spec_algo(),
            r.digest@ == blake3_digest(self.absorbed()),
    {
        ContentHash { algo: self.algo, digest: blake3_hasher_finalize(&self.inner) }
    }
}

/// A git object ID (SHA-1, 20 bytes). Distinct from [`ContentHash`]: git
/// object identity is git's, not Trellis's.
#[derive(Debug, Clone, Copy, PartialEq, Eq, PartialOrd, Ord, Hash)]
pub struct GitOid(pub [u8; 20]);

impl GitOid {
    /// Wrap raw git SHA-1 bytes. Returns `None` unless exactly 20 bytes.
    pub fn from_bytes(bytes: &[u8]) -> (r: Option<Self>)
        ensures
            bytes@.len() != 20 ==> r is None,
            bytes@.len() == 20 ==> (r matches Some(o) && o.0@ == bytes@),
    {
        if bytes.len() != 20 {
            return None;
        }
        let mut buf = [0u8; 20];
        let mut i: usize = 0;
        while i < 20
            invariant
                bytes@.len() == 20,
                i <= 20,
                forall|k: int| 0 <= k < i ==> buf@[k] == bytes@[k],
            decreases 20 - i,
        {
            buf.set(i, bytes[i]);
            i = i + 1;
        }
        assert(buf@ =~= bytes@);
        Some(GitOid(buf))
    }

    /// Raw SHA-1 bytes.
    pub fn as_bytes(&self) -> (r: &[u8; 20])
        ensures
            *r == self.0,
    {
        &self.0
    }

    /// Lowercase hex rendering (40 characters).
    pub fn to_string(&self) -> (r: String)
        ensures
            r@ == hex_text(self.0@),
    {
        let mut out = String::new();
        push_hex(&mut out, self.0.as_slice());
        out
    }

    /// Parse 40 hex digits.
    ///
    /// # Errors
    /// [`DomainError::InvalidHexDigest`] for non-hex text,
    /// [`DomainError::GitOidLength`] when the decoded length is not 20.
    pub fn from_str(s: &str) -> (r: Result<Self, DomainError>)
        ensures
            match hex_decode(s.spec_bytes()) {
                None => r == Err::<GitOid, DomainError>(
                    DomainError::InvalidHexDigest(s.spec_bytes().len() as usize),
                ),
                Some(d) => if d.len() == 20 {
                    r matches Ok(o) && o.0@ == d
                } else {
                    r == Err::<GitOid, DomainError>(DomainError::GitOidLength(d.len() as usize))
                },
            },
    {
        let b = s.as_bytes();
        match hex_decode_exec(b) {
            None => Err(DomainError::InvalidHexDigest(b.len())),
            Some(d) => match GitOid::from_bytes(d.as_slice()) {
                Some(o) => Ok(o),
                None => Err(DomainError::GitOidLength(d.len())),
            },
        }
    }
}

/// Identity of an immutable artifact value.
#[derive(Debug, Clone, Copy, PartialEq, Eq, PartialOrd, Ord, Hash)]
pub struct ArtifactId(pub ContentHash);

impl ArtifactId {
    /// Wrap an existing content hash into this typed ID.
    pub fn from_hash(hash: ContentHash) -> (r: Self)
        ensures
            r.0 == hash,
    {
        ArtifactId(hash)
    }

    /// The underlying content identity.
    pub fn hash(&self) -> (r: &ContentHash)
        ensures
            *r == self.0,
    {
        &self.0
    }

    /// Render as `<algo>:<hex>`.
    pub fn to_string(&self) -> (r: String)
        ensures
            r@ == hash_text(self.0),
    {
        self.0.to_string()
    }

    /// Parse `<algo>:<hex>`.
    ///
    /// # Errors
    /// As [`ContentHash::from_str`].
    pub fn from_str(s: &str) -> (r: Result<Self, DomainError>)
        ensures
            hash_parse_agrees(
                match r {
                    Ok(id) => Ok(id.0),
                    Err(e) => Err(e),
                },
                s.spec_bytes(),
            ),
    {
        match ContentHash::from_str(s) {
            Ok(h) => Ok(ArtifactId(h)),
            Err(e) => Err(e),
        }
    }
}

impl View for ArtifactId {
    type V = ContentHash;

    open spec fn view(&self) -> ContentHash {
        self.0
    }
}

impl Ordered for ArtifactId {
    open spec fn view_le(a: ContentHash, b: ContentHash) -> bool {
        bytes_le(a.digest@, b.digest@)
    }

    proof fn le_total_ordering() {
        ContentHash::le_total_ordering();
        assert((|a: ContentHash, b: ContentHash| Self::view_le(a, b)) =~= (|a: ContentHash, b: ContentHash| ContentHash::view_le(a, b)));
    }

    fn le_exec(&self, other: &Self) -> (r: bool) {
        self.0.le_exec(&other.0)
    }

    fn eq_exec(&self, other: &Self) -> (r: bool) {
        self.0.eq_exec(&other.0)
    }
}

/// Identity of a derivation — how an artifact was produced.
#[derive(Debug, Clone, Copy, PartialEq, Eq, PartialOrd, Ord, Hash)]
pub struct DerivationId(pub ContentHash);

impl DerivationId {
    /// Wrap an existing content hash into this typed ID.
    pub fn from_hash(hash: ContentHash) -> (r: Self)
        ensures
            r.0 == hash,
    {
        DerivationId(hash)
    }

    /// The underlying content identity.
    pub fn hash(&self) -> (r: &ContentHash)
        ensures
            *r == self.0,
    {
        &self.0
    }

    /// Render as `<algo>:<hex>`.
    pub fn to_string(&self) -> (r: String)
        ensures
            r@ == hash_text(self.0),
    {
        self.0.to_string()
    }

    /// Parse `<algo>:<hex>`.
    ///
    /// # Errors
    /// As [`ContentHash::from_str`].
    pub fn from_str(s: &str) -> (r: Result<Self, DomainError>)
        ensures
            hash_parse_agrees(
                match r {
                    Ok(id) => Ok(id.0),
                    Err(e) => Err(e),
                },
                s.spec_bytes(),
            ),
    {
        match ContentHash::from_str(s) {
            Ok(h) => Ok(DerivationId(h)),
            Err(e) => Err(e),
        }
    }
}

impl View for DerivationId {
    type V = ContentHash;

    open spec fn view(&self) -> ContentHash {
        self.0
    }
}

impl Ordered for DerivationId {
    open spec fn view_le(a: ContentHash, b: ContentHash) -> bool {
        bytes_le(a.digest@, b.digest@)
    }

    proof fn le_total_ordering() {
        ContentHash::le_total_ordering();
        assert((|a: ContentHash, b: ContentHash| Self::view_le(a, b)) =~= (|a: ContentHash, b: ContentHash| ContentHash::view_le(a, b)));
    }

    fn le_exec(&self, other: &Self) -> (r: bool) {
        self.0.le_exec(&other.0)
    }

    fn eq_exec(&self, other: &Self) -> (r: bool) {
        self.0.eq_exec(&other.0)
    }
}

/// Identity of a single validation attestation.
#[derive(Debug, Clone, Copy, PartialEq, Eq, PartialOrd, Ord, Hash)]
pub struct AttestationId(pub ContentHash);

impl AttestationId {
    /// Wrap an existing content hash into this typed ID.
    pub fn from_hash(hash: ContentHash) -> (r: Self)
        ensures
            r.0 == hash,
    {
        AttestationId(hash)
    }

    /// The underlying content identity.
    pub fn hash(&self) -> (r: &ContentHash)
        ensures
            *r == self.0,
    {
        &self.0
    }

    /// Render as `<algo>:<hex>`.
    pub fn to_string(&self) -> (r: String)
        ensures
            r@ == hash_text(self.0),
    {
        self.0.to_string()
    }

    /// Parse `<algo>:<hex>`.
    ///
    /// # Errors
    /// As [`ContentHash::from_str`].
    pub fn from_str(s: &str) -> (r: Result<Self, DomainError>)
        ensures
            hash_parse_agrees(
                match r {
                    Ok(id) => Ok(id.0),
                    Err(e) => Err(e),
                },
                s.spec_bytes(),
            ),
    {
        match ContentHash::from_str(s) {
            Ok(h) => Ok(AttestationId(h)),
            Err(e) => Err(e),
        }
    }
}

impl View for AttestationId {
    type V = ContentHash;

    open spec fn view(&self) -> ContentHash {
        self.0
    }
}

impl Ordered for AttestationId {
    open spec fn view_le(a: ContentHash, b: ContentHash) -> bool {
        bytes_le(a.digest@, b.digest@)
    }

    proof fn le_total_ordering() {
        ContentHash::le_total_ordering();
        assert((|a: ContentHash, b: ContentHash| Self::view_le(a, b)) =~= (|a: ContentHash, b: ContentHash| ContentHash::view_le(a, b)));
    }

    fn le_exec(&self, other: &Self) -> (r: bool) {
        self.0.le_exec(&other.0)
    }

    fn eq_exec(&self, other: &Self) -> (r: bool) {
        self.0.eq_exec(&other.0)
    }
}

/// Identity of a snapshot — a coherent frozen world state.
#[derive(Debug, Clone, Copy, PartialEq, Eq, PartialOrd, Ord, Hash)]
pub struct SnapshotId(pub ContentHash);

impl SnapshotId {
    /// Wrap an existing content hash into this typed ID.
    pub fn from_hash(hash: ContentHash) -> (r: Self)
        ensures
            r.0 == hash,
    {
        SnapshotId(hash)
    }

    /// The underlying content identity.
    pub fn hash(&self) -> (r: &ContentHash)
        ensures
            *r == self.0,
    {
        &self.0
    }

    /// Render as `<algo>:<hex>`.
    pub fn to_string(&self) -> (r: String)
        ensures
            r@ == hash_text(self.0),
    {
        self.0.to_string()
    }

    /// Parse `<algo>:<hex>`.
    ///
    /// # Errors
    /// As [`ContentHash::from_str`].
    pub fn from_str(s: &str) -> (r: Result<Self, DomainError>)
        ensures
            hash_parse_agrees(
                match r {
                    Ok(id) => Ok(id.0),
                    Err(e) => Err(e),
                },
                s.spec_bytes(),
            ),
    {
        match ContentHash::from_str(s) {
            Ok(h) => Ok(SnapshotId(h)),
            Err(e) => Err(e),
        }
    }
}

impl View for SnapshotId {
    type V = ContentHash;

    open spec fn view(&self) -> ContentHash {
        self.0
    }
}

impl Ordered for SnapshotId {
    open spec fn view_le(a: ContentHash, b: ContentHash) -> bool {
        bytes_le(a.digest@, b.digest@)
    }

    proof fn le_total_ordering() {
        ContentHash::le_total_ordering();
        assert((|a: ContentHash, b: ContentHash| Self::view_le(a, b)) =~= (|a: ContentHash, b: ContentHash| ContentHash::view_le(a, b)));
    }

    fn le_exec(&self, other: &Self) -> (r: bool) {
        self.0.le_exec(&other.0)
    }

    fn eq_exec(&self, other: &Self) -> (r: bool) {
        self.0.eq_exec(&other.0)
    }
}

/// Identity of a working-tree manifest backing a snapshot.
#[derive(Debug, Clone, Copy, PartialEq, Eq, PartialOrd, Ord, Hash)]
pub struct ManifestId(pub ContentHash);

impl ManifestId {
    /// Wrap an existing content hash into this typed ID.
    pub fn from_hash(hash: ContentHash) -> (r: Self)
        ensures
            r.0 == hash,
    {
        ManifestId(hash)
    }

    /// The underlying content identity.
    pub fn hash(&self) -> (r: &ContentHash)
        ensures
            *r == self.0,
    {
        &self.0
    }

    /// Render as `<algo>:<hex>`.
    pub fn to_string(&self) -> (r: String)
        ensures
            r@ == hash_text(self.0),
    {
        self.0.to_string()
    }

    /// Parse `<algo>:<hex>`.
    ///
    /// # Errors
    /// As [`ContentHash::from_str`].
    pub fn from_str(s: &str) -> (r: Result<Self, DomainError>)
        ensures
            hash_parse_agrees(
                match r {
                    Ok(id) => Ok(id.0),
                    Err(e) => Err(e),
                },
                s.spec_bytes(),
            ),
    {
        match ContentHash::from_str(s) {
            Ok(h) => Ok(ManifestId(h)),
            Err(e) => Err(e),
        }
    }
}

impl View for ManifestId {
    type V = ContentHash;

    open spec fn view(&self) -> ContentHash {
        self.0
    }
}

impl Ordered for ManifestId {
    open spec fn view_le(a: ContentHash, b: ContentHash) -> bool {
        bytes_le(a.digest@, b.digest@)
    }

    proof fn le_total_ordering() {
        ContentHash::le_total_ordering();
        assert((|a: ContentHash, b: ContentHash| Self::view_le(a, b)) =~= (|a: ContentHash, b: ContentHash| ContentHash::view_le(a, b)));
    }

    fn le_exec(&self, other: &Self) -> (r: bool) {
        self.0.le_exec(&other.0)
    }

    fn eq_exec(&self, other: &Self) -> (r: bool) {
        self.0.eq_exec(&other.0)
    }
}

/// Identity of an authoritative semantic snapshot produced by a freeze.
#[derive(Debug, Clone, Copy, PartialEq, Eq, PartialOrd, Ord, Hash)]
pub struct SemanticSnapshotId(pub ContentHash);

impl SemanticSnapshotId {
    /// Wrap an existing content hash into this typed ID.
    pub fn from_hash(hash: ContentHash) -> (r: Self)
        ensures
            r.0 == hash,
    {
        SemanticSnapshotId(hash)
    }

    /// The underlying content identity.
    pub fn hash(&self) -> (r: &ContentHash)
        ensures
            *r == self.0,
    {
        &self.0
    }

    /// Render as `<algo>:<hex>`.
    pub fn to_string(&self) -> (r: String)
        ensures
            r@ == hash_text(self.0),
    {
        self.0.to_string()
    }

    /// Parse `<algo>:<hex>`.
    ///
    /// # Errors
    /// As [`ContentHash::from_str`].
    pub fn from_str(s: &str) -> (r: Result<Self, DomainError>)
        ensures
            hash_parse_agrees(
                match r {
                    Ok(id) => Ok(id.0),
                    Err(e) => Err(e),
                },
                s.spec_bytes(),
            ),
    {
        match ContentHash::from_str(s) {
            Ok(h) => Ok(SemanticSnapshotId(h)),
            Err(e) => Err(e),
        }
    }
}

impl View for SemanticSnapshotId {
    type V = ContentHash;

    open spec fn view(&self) -> ContentHash {
        self.0
    }
}

impl Ordered for SemanticSnapshotId {
    open spec fn view_le(a: ContentHash, b: ContentHash) -> bool {
        bytes_le(a.digest@, b.digest@)
    }

    proof fn le_total_ordering() {
        ContentHash::le_total_ordering();
        assert((|a: ContentHash, b: ContentHash| Self::view_le(a, b)) =~= (|a: ContentHash, b: ContentHash| ContentHash::view_le(a, b)));
    }

    fn le_exec(&self, other: &Self) -> (r: bool) {
        self.0.le_exec(&other.0)
    }

    fn eq_exec(&self, other: &Self) -> (r: bool) {
        self.0.eq_exec(&other.0)
    }
}

/// Identity of a repository within the local store.
#[derive(Debug, Clone, Copy, PartialEq, Eq, PartialOrd, Ord, Hash)]
pub struct RepositoryId(pub ContentHash);

impl RepositoryId {
    /// Wrap an existing content hash into this typed ID.
    pub fn from_hash(hash: ContentHash) -> (r: Self)
        ensures
            r.0 == hash,
    {
        RepositoryId(hash)
    }

    /// The underlying content identity.
    pub fn hash(&self) -> (r: &ContentHash)
        ensures
            *r == self.0,
    {
        &self.0
    }

    /// Render as `<algo>:<hex>`.
    pub fn to_string(&self) -> (r: String)
        ensures
            r@ == hash_text(self.0),
    {
        self.0.to_string()
    }

    /// Parse `<algo>:<hex>`.
    ///
    /// # Errors
    /// As [`ContentHash::from_str`].
    pub fn from_str(s: &str) -> (r: Result<Self, DomainError>)
        ensures
            hash_parse_agrees(
                match r {
                    Ok(id) => Ok(id.0),
                    Err(e) => Err(e),
                },
                s.spec_bytes(),
            ),
    {
        match ContentHash::from_str(s) {
            Ok(h) => Ok(RepositoryId(h)),
            Err(e) => Err(e),
        }
    }
}

impl View for RepositoryId {
    type V = ContentHash;

    open spec fn view(&self) -> ContentHash {
        self.0
    }
}

impl Ordered for RepositoryId {
    open spec fn view_le(a: ContentHash, b: ContentHash) -> bool {
        bytes_le(a.digest@, b.digest@)
    }

    proof fn le_total_ordering() {
        ContentHash::le_total_ordering();
        assert((|a: ContentHash, b: ContentHash| Self::view_le(a, b)) =~= (|a: ContentHash, b: ContentHash| ContentHash::view_le(a, b)));
    }

    fn le_exec(&self, other: &Self) -> (r: bool) {
        self.0.le_exec(&other.0)
    }

    fn eq_exec(&self, other: &Self) -> (r: bool) {
        self.0.eq_exec(&other.0)
    }
}

/// Identity of an explicitly declared environment fingerprint.
#[derive(Debug, Clone, Copy, PartialEq, Eq, PartialOrd, Ord, Hash)]
pub struct EnvironmentFingerprintId(pub ContentHash);

impl EnvironmentFingerprintId {
    /// Wrap an existing content hash into this typed ID.
    pub fn from_hash(hash: ContentHash) -> (r: Self)
        ensures
            r.0 == hash,
    {
        EnvironmentFingerprintId(hash)
    }

    /// The underlying content identity.
    pub fn hash(&self) -> (r: &ContentHash)
        ensures
            *r == self.0,
    {
        &self.0
    }

    /// Render as `<algo>:<hex>`.
    pub fn to_string(&self) -> (r: String)
        ensures
            r@ == hash_text(self.0),
    {
        self.0.to_string()
    }

    /// Parse `<algo>:<hex>`.
    ///
    /// # Errors
    /// As [`ContentHash::from_str`].
    pub fn from_str(s: &str) -> (r: Result<Self, DomainError>)
        ensures
            hash_parse_agrees(
                match r {
                    Ok(id) => Ok(id.0),
                    Err(e) => Err(e),
                },
                s.spec_bytes(),
            ),
    {
        match ContentHash::from_str(s) {
            Ok(h) => Ok(EnvironmentFingerprintId(h)),
            Err(e) => Err(e),
        }
    }
}

impl View for EnvironmentFingerprintId {
    type V = ContentHash;

    open spec fn view(&self) -> ContentHash {
        self.0
    }
}

impl Ordered for EnvironmentFingerprintId {
    open spec fn view_le(a: ContentHash, b: ContentHash) -> bool {
        bytes_le(a.digest@, b.digest@)
    }

    proof fn le_total_ordering() {
        ContentHash::le_total_ordering();
        assert((|a: ContentHash, b: ContentHash| Self::view_le(a, b)) =~= (|a: ContentHash, b: ContentHash| ContentHash::view_le(a, b)));
    }

    fn le_exec(&self, other: &Self) -> (r: bool) {
        self.0.le_exec(&other.0)
    }

    fn eq_exec(&self, other: &Self) -> (r: bool) {
        self.0.eq_exec(&other.0)
    }
}

/// Identity of an immutable content-addressed blob.
#[derive(Debug, Clone, Copy, PartialEq, Eq, PartialOrd, Ord, Hash)]
pub struct BlobId(pub ContentHash);

impl BlobId {
    /// Wrap an existing content hash into this typed ID.
    pub fn from_hash(hash: ContentHash) -> (r: Self)
        ensures
            r.0 == hash,
    {
        BlobId(hash)
    }

    /// The underlying content identity.
    pub fn hash(&self) -> (r: &ContentHash)
        ensures
            *r == self.0,
    {
        &self.0
    }

    /// Render as `<algo>:<hex>`.
    pub fn to_string(&self) -> (r: String)
        ensures
            r@ == hash_text(self.0),
    {
        self.0.to_string()
    }

    /// Parse `<algo>:<hex>`.
    ///
    /// # Errors
    /// As [`ContentHash::from_str`].
    pub fn from_str(s: &str) -> (r: Result<Self, DomainError>)
        ensures
            hash_parse_agrees(
                match r {
                    Ok(id) => Ok(id.0),
                    Err(e) => Err(e),
                },
                s.spec_bytes(),
            ),
    {
        match ContentHash::from_str(s) {
            Ok(h) => Ok(BlobId(h)),
            Err(e) => Err(e),
        }
    }
}

impl View for BlobId {
    type V = ContentHash;

    open spec fn view(&self) -> ContentHash {
        self.0
    }
}

impl Ordered for BlobId {
    open spec fn view_le(a: ContentHash, b: ContentHash) -> bool {
        bytes_le(a.digest@, b.digest@)
    }

    proof fn le_total_ordering() {
        ContentHash::le_total_ordering();
        assert((|a: ContentHash, b: ContentHash| Self::view_le(a, b)) =~= (|a: ContentHash, b: ContentHash| ContentHash::view_le(a, b)));
    }

    fn le_exec(&self, other: &Self) -> (r: bool) {
        self.0.le_exec(&other.0)
    }

    fn eq_exec(&self, other: &Self) -> (r: bool) {
        self.0.eq_exec(&other.0)
    }
}

/// Identity of a dependency projection.
#[derive(Debug, Clone, Copy, PartialEq, Eq, PartialOrd, Ord, Hash)]
pub struct ProjectionId(pub ContentHash);

impl ProjectionId {
    /// Wrap an existing content hash into this typed ID.
    pub fn from_hash(hash: ContentHash) -> (r: Self)
        ensures
            r.0 == hash,
    {
        ProjectionId(hash)
    }

    /// The underlying content identity.
    pub fn hash(&self) -> (r: &ContentHash)
        ensures
            *r == self.0,
    {
        &self.0
    }

    /// Render as `<algo>:<hex>`.
    pub fn to_string(&self) -> (r: String)
        ensures
            r@ == hash_text(self.0),
    {
        self.0.to_string()
    }

    /// Parse `<algo>:<hex>`.
    ///
    /// # Errors
    /// As [`ContentHash::from_str`].
    pub fn from_str(s: &str) -> (r: Result<Self, DomainError>)
        ensures
            hash_parse_agrees(
                match r {
                    Ok(id) => Ok(id.0),
                    Err(e) => Err(e),
                },
                s.spec_bytes(),
            ),
    {
        match ContentHash::from_str(s) {
            Ok(h) => Ok(ProjectionId(h)),
            Err(e) => Err(e),
        }
    }
}

impl View for ProjectionId {
    type V = ContentHash;

    open spec fn view(&self) -> ContentHash {
        self.0
    }
}

impl Ordered for ProjectionId {
    open spec fn view_le(a: ContentHash, b: ContentHash) -> bool {
        bytes_le(a.digest@, b.digest@)
    }

    proof fn le_total_ordering() {
        ContentHash::le_total_ordering();
        assert((|a: ContentHash, b: ContentHash| Self::view_le(a, b)) =~= (|a: ContentHash, b: ContentHash| ContentHash::view_le(a, b)));
    }

    fn le_exec(&self, other: &Self) -> (r: bool) {
        self.0.le_exec(&other.0)
    }

    fn eq_exec(&self, other: &Self) -> (r: bool) {
        self.0.eq_exec(&other.0)
    }
}

/// Identity of one projection observation at one snapshot.
#[derive(Debug, Clone, Copy, PartialEq, Eq, PartialOrd, Ord, Hash)]
pub struct ProjectionObservationId(pub ContentHash);

impl ProjectionObservationId {
    /// Wrap an existing content hash into this typed ID.
    pub fn from_hash(hash: ContentHash) -> (r: Self)
        ensures
            r.0 == hash,
    {
        ProjectionObservationId(hash)
    }

    /// The underlying content identity.
    pub fn hash(&self) -> (r: &ContentHash)
        ensures
            *r == self.0,
    {
        &self.0
    }

    /// Render as `<algo>:<hex>`.
    pub fn to_string(&self) -> (r: String)
        ensures
            r@ == hash_text(self.0),
    {
        self.0.to_string()
    }

    /// Parse `<algo>:<hex>`.
    ///
    /// # Errors
    /// As [`ContentHash::from_str`].
    pub fn from_str(s: &str) -> (r: Result<Self, DomainError>)
        ensures
            hash_parse_agrees(
                match r {
                    Ok(id) => Ok(id.0),
                    Err(e) => Err(e),
                },
                s.spec_bytes(),
            ),
    {
        match ContentHash::from_str(s) {
            Ok(h) => Ok(ProjectionObservationId(h)),
            Err(e) => Err(e),
        }
    }
}

impl View for ProjectionObservationId {
    type V = ContentHash;

    open spec fn view(&self) -> ContentHash {
        self.0
    }
}

impl Ordered for ProjectionObservationId {
    open spec fn view_le(a: ContentHash, b: ContentHash) -> bool {
        bytes_le(a.digest@, b.digest@)
    }

    proof fn le_total_ordering() {
        ContentHash::le_total_ordering();
        assert((|a: ContentHash, b: ContentHash| Self::view_le(a, b)) =~= (|a: ContentHash, b: ContentHash| ContentHash::view_le(a, b)));
    }

    fn le_exec(&self, other: &Self) -> (r: bool) {
        self.0.le_exec(&other.0)
    }

    fn eq_exec(&self, other: &Self) -> (r: bool) {
        self.0.eq_exec(&other.0)
    }
}

/// Identity of a verifier — the implementation of a validity contract.
#[derive(Debug, Clone, Copy, PartialEq, Eq, PartialOrd, Ord, Hash)]
pub struct VerifierId(pub ContentHash);

impl VerifierId {
    /// Wrap an existing content hash into this typed ID.
    pub fn from_hash(hash: ContentHash) -> (r: Self)
        ensures
            r.0 == hash,
    {
        VerifierId(hash)
    }

    /// The underlying content identity.
    pub fn hash(&self) -> (r: &ContentHash)
        ensures
            *r == self.0,
    {
        &self.0
    }

    /// Render as `<algo>:<hex>`.
    pub fn to_string(&self) -> (r: String)
        ensures
            r@ == hash_text(self.0),
    {
        self.0.to_string()
    }

    /// Parse `<algo>:<hex>`.
    ///
    /// # Errors
    /// As [`ContentHash::from_str`].
    pub fn from_str(s: &str) -> (r: Result<Self, DomainError>)
        ensures
            hash_parse_agrees(
                match r {
                    Ok(id) => Ok(id.0),
                    Err(e) => Err(e),
                },
                s.spec_bytes(),
            ),
    {
        match ContentHash::from_str(s) {
            Ok(h) => Ok(VerifierId(h)),
            Err(e) => Err(e),
        }
    }
}

impl View for VerifierId {
    type V = ContentHash;

    open spec fn view(&self) -> ContentHash {
        self.0
    }
}

impl Ordered for VerifierId {
    open spec fn view_le(a: ContentHash, b: ContentHash) -> bool {
        bytes_le(a.digest@, b.digest@)
    }

    proof fn le_total_ordering() {
        ContentHash::le_total_ordering();
        assert((|a: ContentHash, b: ContentHash| Self::view_le(a, b)) =~= (|a: ContentHash, b: ContentHash| ContentHash::view_le(a, b)));
    }

    fn le_exec(&self, other: &Self) -> (r: bool) {
        self.0.le_exec(&other.0)
    }

    fn eq_exec(&self, other: &Self) -> (r: bool) {
        self.0.eq_exec(&other.0)
    }
}

/// Unix epoch milliseconds. All timestamps in the domain model are UTC.
pub type Timestamp = u64;

} // verus!
