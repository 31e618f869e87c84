//! The order and equality of names.
//!
//! Names (authors, branches, dates) are compared the way `str` compares:
//! lexicographically, byte by byte, over their UTF-8 encoding.

use vstd::prelude::*;
use vstd::string::*;
use vstd::utf8::*;

verus! {

/// `a` and `b` agree on their first `k` bytes and `a` comes first at
/// position `k`: either `a` ends there and `b` goes on, or `a` holds the
/// smaller byte.
pub open spec fn splits_at(a: Seq<u8>, b: Seq<u8>, k: int) -> bool {
    &&& 0 <= k <= a.len()
    &&& k < b.len()
    &&& forall|i: int| 0 <= i < k ==> a[i] == b[i]
    &&& (k < a.len() ==> a[k] < b[k])
}

/// Strict lexicographic order on byte sequences.
pub open spec fn bytes_lt(a: Seq<u8>, b: Seq<u8>) -> bool {
    exists|k: int| splits_at(a, b, k)
}

/// Strict order on texts: the lexicographic order of their UTF-8 bytes.
pub open spec fn text_lt(a: Seq<char>, b: Seq<char>) -> bool {
    bytes_lt(encode_utf8(a), encode_utf8(b))
}

/// `text_lt` or equal.
pub open spec fn text_le(a: Seq<char>, b: Seq<char>) -> bool {
    a == b || text_lt(a, b)
}

/// The length of the longest common prefix of `a` and `b`, counted from `from`.
pub open spec fn first_difference(a: Seq<u8>, b: Seq<u8>, from: int) -> int
    decreases a.len() - from,
{
    if 0 <= from < a.len() && from < b.len() && a[from] == b[from] {
        first_difference(a, b, from + 1)
    } else {
        from
    }
}

/// `first_difference` lies within both sequences, which agree before it and
/// differ at it where both go on.
proof fn lemma_first_difference(a: Seq<u8>, b: Seq<u8>, from: int)
    requires
        0 <= from <= a.len(),
        from <= b.len(),
    ensures
        from <= first_difference(a, b, from) <= a.len(),
        first_difference(a, b, from) <= b.len(),
        forall|i: int| from <= i < first_difference(a, b, from) ==> a[i] == b[i],
        first_difference(a, b, from) < a.len() && first_difference(a, b, from) < b.len()
            ==> a[first_difference(a, b, from)] != b[first_difference(a, b, from)],
    decreases a.len() - from,
{
    if from < a.len() && from < b.len() && a[from] == b[from] {
        lemma_first_difference(a, b, from + 1);
    }
}

/// No byte sequence comes before itself.
pub proof fn lemma_bytes_lt_irreflexive(a: Seq<u8>)
    ensures
        !bytes_lt(a, a),
{
}

/// The byte order is transitive.
pub proof fn lemma_bytes_lt_transitive(a: Seq<u8>, b: Seq<u8>, c: Seq<u8>)
    requires
        bytes_lt(a, b),
        bytes_lt(b, c),
    ensures
        bytes_lt(a, c),
{
    let k1 = choose|k: int| splits_at(a, b, k);
    let k2 = choose|k: int| splits_at(b, c, k);
    let k = if k1 <= k2 { k1 } else { k2 };
    assert(splits_at(a, c, k));
}

/// Of two byte sequences one comes first, or they are equal.
pub proof fn lemma_bytes_lt_total(a: Seq<u8>, b: Seq<u8>)
    ensures
        bytes_lt(a, b) || a == b || bytes_lt(b, a),
{
    let k = first_difference(a, b, 0);
    lemma_first_difference(a, b, 0);
    if k == a.len() && k == b.len() {
        assert(a =~= b);
    } else if k == a.len() {
        assert(splits_at(a, b, k));
    } else if k == b.len() {
        assert(splits_at(b, a, k));
    } else if a[k] < b[k] {
        assert(splits_at(a, b, k));
    } else {
        assert(splits_at(b, a, k));
    }
}

/// Two byte sequences are never each before the other.
pub proof fn lemma_bytes_lt_asymmetric(a: Seq<u8>, b: Seq<u8>)
    requires
        bytes_lt(a, b),
    ensures
        !bytes_lt(b, a),
{
    if bytes_lt(b, a) {
        lemma_bytes_lt_transitive(a, b, a);
    }
}

/// Texts with the same UTF-8 encoding are the same text.
pub proof fn lemma_encoding_injective(a: Seq<char>, b: Seq<char>)
    requires
        encode_utf8(a) == encode_utf8(b),
    ensures
        a == b,
{
    encode_utf8_decode_utf8(a);
    encode_utf8_decode_utf8(b);
}

/// No text comes before itself.
pub proof fn lemma_text_lt_irreflexive(a: Seq<char>)
    ensures
        !text_lt(a, a),
{
}

/// The text order is transitive.
pub proof fn lemma_text_lt_transitive(a: Seq<char>, b: Seq<char>, c: Seq<char>)
    requires
        text_lt(a, b),
        text_lt(b, c),
    ensures
        text_lt(a, c),
{
    lemma_bytes_lt_transitive(encode_utf8(a), encode_utf8(b), encode_utf8(c));
}

/// Of two texts one comes first, or they are equal.
pub proof fn lemma_text_lt_total(a: Seq<char>, b: Seq<char>)
    ensures
        text_lt(a, b) || a == b || text_lt(b, a),
{
    lemma_bytes_lt_total(encode_utf8(a), encode_utf8(b));
    if encode_utf8(a) == encode_utf8(b) {
        lemma_encoding_injective(a, b);
    }
}

/// Two texts are never each before the other.
pub proof fn lemma_text_lt_asymmetric(a: Seq<char>, b: Seq<char>)
    requires
        text_lt(a, b),
    ensures
        !text_lt(b, a),
{
    lemma_bytes_lt_asymmetric(encode_utf8(a), encode_utf8(b));
}

/// The position at which two byte slices first differ, or the length of the
/// shorter one where it is a prefix of the other.
fn first_difference_of(a: &[u8], b: &[u8]) -> (k: usize)
    ensures
        k == first_difference(a@, b@, 0),
{
    let mut k: usize = 0;
    while k < a.len() && k < b.len() && a[k] == b[k]
        invariant
            0 <= k <= a.len(),
            k <= b.len(),
            first_difference(a@, b@, 0) == first_difference(a@, b@, k as int),
        decreases a.len() - k,
    {
        k += 1;
    }
    k
}

/// Whether `a` and `b` are the same text.
pub fn text_equal(a: &str, b: &str) -> (same: bool)
    ensures
        same == (a@ == b@),
{
    let x = a.as_bytes();
    let y = b.as_bytes();
    let k = first_difference_of(x, y);
    proof {
        lemma_first_difference(x@, y@, 0);
        if k == x.len() && k == y.len() {
            assert(x@ =~= y@);
            lemma_encoding_injective(a@, b@);
        }
    }
    k == x.len() && k == y.len()
}

/// Whether `a` comes strictly before `b`.
pub fn text_precedes(a: &str, b: &str) -> (before: bool)
    ensures
        before == text_lt(a@, b@),
{
    let x = a.as_bytes();
    let y = b.as_bytes();
    let k = first_difference_of(x, y);
    proof {
        lemma_first_difference(x@, y@, 0);
        if k < y.len() && (k == x.len() || x[k as int] < y[k as int]) {
            assert(splits_at(x@, y@, k as int));
        } else if bytes_lt(x@, y@) {
            // The sequences split where they first differ, and nowhere else.
            let j = choose|j: int| splits_at(x@, y@, j);
            assert(j == k);
        }
    }
    k < y.len() && (k == x.len() || x[k] < y[k])
}

/// The first `count` characters of a text, or all of it where it is shorter.
pub open spec fn leading(text: Seq<char>, count: nat) -> Seq<char> {
    if text.len() <= count {
        text
    } else {
        text.take(count as int)
    }
}

/// A copy of the first `count` characters of `text`, or of all of it where
/// it has fewer.
pub fn leading_chars(text: &str, count: usize) -> (head: String)
    ensures
        head@ == leading(text@, count as nat),
{
    let len = text.unicode_len();
    if len <= count {
        text.to_owned()
    } else {
        text.substring_char(0, count).to_owned()
    }
}

} // verus!
