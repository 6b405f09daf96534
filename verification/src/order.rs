//! The order of keys: byte strings compared byte by byte, a proper prefix
//! before any string that continues it.

use vstd::prelude::*;

verus! {

/// Whether `a` comes before `b`, given that they agree before place `from`.
pub open spec fn precedes_from(a: Seq<u8>, b: Seq<u8>, from: int) -> bool
    decreases a.len() - from,
{
    if from >= b.len() {
        false
    } else if from >= a.len() {
        true
    } else if a[from] != b[from] {
        a[from] < b[from]
    } else {
        precedes_from(a, b, from + 1)
    }
}

/// Whether `a` comes strictly before `b`.
pub open spec fn precedes(a: Seq<u8>, b: Seq<u8>) -> bool {
    precedes_from(a, b, 0)
}

/// How two keys stand to each other.
#[derive(Copy, Clone, PartialEq, Eq, Debug)]
pub enum Rank {
    /// The first comes before the second.
    Before,
    /// They are the same.
    Same,
    /// The first comes after the second.
    After,
}

/// No key comes before itself.
pub proof fn lemma_precedes_irreflexive(a: Seq<u8>, from: int)
    requires
        0 <= from,
    ensures
        !precedes_from(a, a, from),
    decreases a.len() - from,
{
    if from < a.len() {
        lemma_precedes_irreflexive(a, from + 1);
    }
}

/// What comes before a key comes before all that the key comes before.
pub proof fn lemma_precedes_transitive(a: Seq<u8>, b: Seq<u8>, c: Seq<u8>, from: int)
    requires
        0 <= from,
        precedes_from(a, b, from),
        precedes_from(b, c, from),
    ensures
        precedes_from(a, c, from),
    decreases a.len() - from,
{
    if from < a.len() && from < b.len() && from < c.len() && a[from] == b[from] && b[from]
        == c[from] {
        lemma_precedes_transitive(a, b, c, from + 1);
    }
}

/// Of two keys that agree before `from`, one comes before the other unless
/// they are the same.
pub proof fn lemma_precedes_total(a: Seq<u8>, b: Seq<u8>, from: int)
    requires
        0 <= from <= a.len(),
        from <= b.len(),
        a.subrange(0, from) == b.subrange(0, from),
        !precedes_from(a, b, from),
        !precedes_from(b, a, from),
    ensures
        a == b,
    decreases a.len() - from,
{
    if from < a.len() && from < b.len() {
        assert(a.subrange(0, from + 1) =~= a.subrange(0, from).push(a[from]));
        assert(b.subrange(0, from + 1) =~= b.subrange(0, from).push(b[from]));
        lemma_precedes_total(a, b, from + 1);
    } else {
        assert(a =~= a.subrange(0, from));
        assert(b =~= b.subrange(0, from));
    }
}

/// Of two keys at most one comes before the other.
pub proof fn lemma_precedes_asymmetric(a: Seq<u8>, b: Seq<u8>)
    ensures
        !(precedes(a, b) && precedes(b, a)),
{
    if precedes(a, b) && precedes(b, a) {
        lemma_precedes_transitive(a, b, a, 0);
        lemma_precedes_irreflexive(a, 0);
    }
}

/// Compares two keys.
pub fn rank(a: &[u8], b: &[u8]) -> (r: Rank)
    ensures
        r == Rank::Before <==> precedes(a@, b@),
        r == Rank::Same <==> a@ == b@,
        r == Rank::After <==> precedes(b@, a@),
{
    let mut i: usize = 0;
    assert(a@.subrange(0, 0) =~= b@.subrange(0, 0));
    while i < a.len() && i < b.len() && a[i] == b[i]
        invariant
            i <= a@.len(),
            i <= b@.len(),
            a@.subrange(0, i as int) == b@.subrange(0, i as int),
            precedes(a@, b@) == precedes_from(a@, b@, i as int),
            precedes(b@, a@) == precedes_from(b@, a@, i as int),
        decreases a@.len() - i,
    {
        assert(a@.subrange(0, i + 1) =~= a@.subrange(0, i as int).push(a@[i as int]));
        assert(b@.subrange(0, i + 1) =~= b@.subrange(0, i as int).push(b@[i as int]));
        i = i + 1;
    }
    proof {
        lemma_precedes_asymmetric(a@, b@);
        if a@ == b@ {
            lemma_precedes_irreflexive(a@, 0);
        }
        if !precedes_from(a@, b@, i as int) && !precedes_from(b@, a@, i as int) {
            lemma_precedes_total(a@, b@, i as int);
        }
    }
    if i >= b.len() {
        if i >= a.len() {
            Rank::Same
        } else {
            Rank::After
        }
    } else if i >= a.len() {
        Rank::Before
    } else if a[i] < b[i] {
        Rank::Before
    } else {
        Rank::After
    }
}

} // verus!
