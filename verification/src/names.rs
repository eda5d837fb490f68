//! Names that are ordered byte by byte.

use vstd::prelude::*;

verus! {

/// Whether `a` stands before `b`, or is the same, in the order in which bytes
/// are compared one by one and a shorter string stands before a longer one
/// that begins with it.
pub open spec fn lexical_leq(a: Seq<u8>, b: Seq<u8>) -> bool
    decreases a.len(),
{
    if a.len() == 0 {
        true
    } else if b.len() == 0 {
        false
    } else if a[0] != b[0] {
        a[0] < b[0]
    } else {
        lexical_leq(a.drop_first(), b.drop_first())
    }
}

/// The order is reflexive.
pub proof fn lemma_lexical_reflexive(a: Seq<u8>)
    ensures
        lexical_leq(a, a),
    decreases a.len(),
{
    if a.len() > 0 {
        lemma_lexical_reflexive(a.drop_first());
    }
}

/// Of two strings, one stands before the other.
pub proof fn lemma_lexical_total(a: Seq<u8>, b: Seq<u8>)
    ensures
        lexical_leq(a, b) || lexical_leq(b, a),
    decreases a.len(),
{
    if a.len() > 0 && b.len() > 0 && a[0] == b[0] {
        lemma_lexical_total(a.drop_first(), b.drop_first());
    }
}

/// Two strings that stand before each other are the same.
pub proof fn lemma_lexical_antisymmetric(a: Seq<u8>, b: Seq<u8>)
    requires
        lexical_leq(a, b),
        lexical_leq(b, a),
    ensures
        a == b,
    decreases a.len(),
{
    if a.len() > 0 && b.len() > 0 {
        lemma_lexical_antisymmetric(a.drop_first(), b.drop_first());
        assert(a =~= seq![a[0]] + a.drop_first());
        assert(b =~= seq![b[0]] + b.drop_first());
    } else {
        assert(a =~= b);
    }
}

/// The order is transitive.
pub proof fn lemma_lexical_transitive(a: Seq<u8>, b: Seq<u8>, c: Seq<u8>)
    requires
        lexical_leq(a, b),
        lexical_leq(b, c),
    ensures
        lexical_leq(a, c),
    decreases a.len(),
{
    if a.len() > 0 && b.len() > 0 && c.len() > 0 && a[0] == b[0] && b[0] == c[0] {
        lemma_lexical_transitive(a.drop_first(), b.drop_first(), c.drop_first());
    }
}

/// A string stands before every string that begins with it.
pub proof fn lemma_lexical_prefix(a: Seq<u8>, b: Seq<u8>)
    ensures
        lexical_leq(a, a + b),
    decreases a.len(),
{
    if a.len() > 0 {
        lemma_lexical_prefix(a.drop_first(), b);
        assert((a + b).drop_first() =~= a.drop_first() + b);
    }
}

/// Compares two strings of bytes.
pub fn bytes_leq(a: &[u8], b: &[u8]) -> (leq: bool)
    ensures
        leq == lexical_leq(a@, b@),
{
    let mut i: usize = 0;
    assert(a@.skip(0) =~= a@);
    assert(b@.skip(0) =~= b@);
    while i < a.len() && i < b.len()
        invariant
            i <= a@.len(),
            i <= b@.len(),
            lexical_leq(a@, b@) == lexical_leq(a@.skip(i as int), b@.skip(i as int)),
        decreases a@.len() - i,
    {
        if a[i] != b[i] {
            return a[i] < b[i];
        }
        assert(a@.skip(i as int).drop_first() =~= a@.skip(i + 1));
        assert(b@.skip(i as int).drop_first() =~= b@.skip(i + 1));
        i += 1;
    }
    i == a.len()
}

} // verus!
