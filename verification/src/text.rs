//! The order in which identifiers are filed: byte-wise lexicographic order on
//! the UTF-8 encoding, which is the order `str` has in the standard library.

use vstd::prelude::*;
use vstd::string::*;
use vstd::utf8::*;

verus! {

/// Lexicographic "strictly less" on byte sequences: a proper prefix sorts
/// before its extensions, otherwise the first differing byte decides.
pub open spec fn bytes_lt(a: Seq<u8>, b: Seq<u8>) -> bool
    decreases a.len(),
{
    if b.len() == 0 {
        false
    } else if a.len() == 0 {
        true
    } else if a[0] != b[0] {
        a[0] < b[0]
    } else {
        bytes_lt(a.drop_first(), b.drop_first())
    }
}

/// Strict order on strings, by their UTF-8 bytes.
pub open spec fn str_lt(a: Seq<char>, b: Seq<char>) -> bool {
    bytes_lt(encode_utf8(a), encode_utf8(b))
}

/// No byte sequence sorts before itself.
pub proof fn lemma_bytes_lt_irreflexive(a: Seq<u8>)
    ensures
        !bytes_lt(a, a),
    decreases a.len(),
{
    if a.len() > 0 {
        lemma_bytes_lt_irreflexive(a.drop_first());
    }
}

/// The order on byte sequences is transitive.
pub proof fn lemma_bytes_lt_transitive(a: Seq<u8>, b: Seq<u8>, c: Seq<u8>)
    requires
        bytes_lt(a, b),
        bytes_lt(b, c),
    ensures
        bytes_lt(a, c),
    decreases a.len(),
{
    if a.len() > 0 && a[0] == b[0] && b[0] == c[0] {
        lemma_bytes_lt_transitive(a.drop_first(), b.drop_first(), c.drop_first());
    }
}

/// Any two different byte sequences are ordered one way or the other.
pub proof fn lemma_bytes_lt_total(a: Seq<u8>, b: Seq<u8>)
    ensures
        a == b || bytes_lt(a, b) || bytes_lt(b, a),
    decreases a.len(),
{
    if a.len() == 0 || b.len() == 0 {
        if a.len() == 0 && b.len() == 0 {
            assert(a =~= b);
        }
    } else if a[0] == b[0] {
        lemma_bytes_lt_total(a.drop_first(), b.drop_first());
        if a.drop_first() == b.drop_first() {
            assert(a =~= seq![a[0]] + a.drop_first());
            assert(b =~= seq![b[0]] + b.drop_first());
        }
    }
}

/// No string sorts before itself.
pub proof fn lemma_str_lt_irreflexive(a: Seq<char>)
    ensures
        !str_lt(a, a),
{
    lemma_bytes_lt_irreflexive(encode_utf8(a));
}

/// The order is transitive.
pub proof fn lemma_str_lt_transitive(a: Seq<char>, b: Seq<char>, c: Seq<char>)
    requires
        str_lt(a, b),
        str_lt(b, c),
    ensures
        str_lt(a, c),
{
    lemma_bytes_lt_transitive(encode_utf8(a), encode_utf8(b), encode_utf8(c));
}

/// Two strings never sort before each other.
pub proof fn lemma_str_lt_asymmetric(a: Seq<char>, b: Seq<char>)
    requires
        str_lt(a, b),
    ensures
        !str_lt(b, a),
{
    if str_lt(b, a) {
        lemma_str_lt_transitive(a, b, a);
        lemma_str_lt_irreflexive(a);
    }
}

/// Any two different strings are ordered one way or the other.
pub proof fn lemma_str_lt_total(a: Seq<char>, b: Seq<char>)
    ensures
        a == b || str_lt(a, b) || str_lt(b, a),
{
    lemma_bytes_lt_total(encode_utf8(a), encode_utf8(b));
    if encode_utf8(a) == encode_utf8(b) {
        encode_utf8_decode_utf8(a);
        encode_utf8_decode_utf8(b);
    }
}

/// Decides [`str_lt`].
pub fn str_less(a: &str, b: &str) -> (less: bool)
    ensures
        less == str_lt(a@, b@),
{
    let x = a.as_bytes();
    let y = b.as_bytes();
    let mut i: usize = 0;
    assert(x@.skip(0) =~= x@ && y@.skip(0) =~= y@);
    while i < x.len() && i < y.len()
        invariant
            x@ == encode_utf8(a@),
            y@ == encode_utf8(b@),
            i <= x@.len(),
            i <= y@.len(),
            bytes_lt(x@, y@) == bytes_lt(x@.skip(i as int), y@.skip(i as int)),
        decreases x@.len() - i,
    {
        assert(x@.skip(i as int).drop_first() =~= x@.skip(i as int + 1));
        assert(y@.skip(i as int).drop_first() =~= y@.skip(i as int + 1));
        assert(x@.skip(i as int)[0] == x@[i as int]);
        assert(y@.skip(i as int)[0] == y@[i as int]);
        if x[i] != y[i] {
            return x[i] < y[i];
        }
        i += 1;
    }
    i < y.len()
}

/// Decides whether two strings are the same.
pub fn str_equal(a: &str, b: &str) -> (same: bool)
    ensures
        same == (a@ == b@),
{
    proof {
        lemma_str_lt_total(a@, b@);
        lemma_str_lt_irreflexive(a@);
    }
    !str_less(a, b) && !str_less(b, a)
}

} // verus!
