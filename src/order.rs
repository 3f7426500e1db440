//! Lexicographic order on sequences of unsigned integers.
//!
//! Every value of the asset model has a sort key: a sequence of integers whose
//! lexicographic order is the canonical order of the values. This module holds
//! that order, the facts about it that the rest of the crate builds on, and the
//! executable comparisons of two keys.
use vstd::prelude::*;

verus! {

/// Strict lexicographic order; a proper prefix sorts before the longer sequence.
pub open spec fn lex_lt(a: Seq<int>, b: Seq<int>) -> bool
    decreases a.len(),
{
    if a.len() == 0 {
        b.len() > 0
    } else if b.len() == 0 {
        false
    } else if a[0] != b[0] {
        a[0] < b[0]
    } else {
        lex_lt(a.drop_first(), b.drop_first())
    }
}

/// `a` and `b` differ at a position that both of them have, so that neither
/// is a prefix of the other.
pub open spec fn separated(a: Seq<int>, b: Seq<int>) -> bool {
    exists|i: int| 0 <= i < a.len() && i < b.len() && a[i] != b[i]
}

pub proof fn lemma_lex_irreflexive(a: Seq<int>)
    ensures
        !lex_lt(a, a),
    decreases a.len(),
{
    if a.len() > 0 {
        lemma_lex_irreflexive(a.drop_first());
    }
}

pub proof fn lemma_lex_transitive(a: Seq<int>, b: Seq<int>, c: Seq<int>)
    requires
        lex_lt(a, b),
        lex_lt(b, c),
    ensures
        lex_lt(a, c),
    decreases a.len(),
{
    if a.len() > 0 && b.len() > 0 && c.len() > 0 && a[0] == b[0] && b[0] == c[0] {
        lemma_lex_transitive(a.drop_first(), b.drop_first(), c.drop_first());
    }
}

pub proof fn lemma_lex_asymmetric(a: Seq<int>, b: Seq<int>)
    requires
        lex_lt(a, b),
    ensures
        !lex_lt(b, a),
{
    if lex_lt(b, a) {
        lemma_lex_transitive(a, b, a);
        lemma_lex_irreflexive(a);
    }
}

pub proof fn lemma_lex_total(a: Seq<int>, b: Seq<int>)
    requires
        a != b,
    ensures
        lex_lt(a, b) || lex_lt(b, a),
    decreases a.len(),
{
    if a.len() == 0 && b.len() == 0 {
        assert(a =~= b);
    } else if a.len() > 0 && b.len() > 0 && a[0] == b[0] {
        if a.drop_first() == b.drop_first() {
            assert(a =~= seq![a[0]] + a.drop_first());
            assert(b =~= seq![b[0]] + b.drop_first());
        }
        lemma_lex_total(a.drop_first(), b.drop_first());
    }
}

/// A shared prefix does not change the order.
pub proof fn lemma_lex_common_prefix(p: Seq<int>, x: Seq<int>, y: Seq<int>)
    ensures
        lex_lt(p + x, p + y) == lex_lt(x, y),
    decreases p.len(),
{
    if p.len() == 0 {
        assert(p + x =~= x);
        assert(p + y =~= y);
    } else {
        assert((p + x).drop_first() =~= p.drop_first() + x);
        assert((p + y).drop_first() =~= p.drop_first() + y);
        lemma_lex_common_prefix(p.drop_first(), x, y);
    }
}

/// Once two sequences are separated, what follows them does not change their order.
pub proof fn lemma_lex_separated(p: Seq<int>, q: Seq<int>, x: Seq<int>, y: Seq<int>)
    requires
        separated(p, q),
    ensures
        lex_lt(p + x, q + y) == lex_lt(p, q),
        separated(p + x, q + y),
        p + x != q + y,
    decreases p.len(),
{
    let i = choose|i: int| 0 <= i < p.len() && i < q.len() && p[i] != q[i];
    assert((p + x)[i] == p[i] && (q + y)[i] == q[i]);
    if p[0] == q[0] {
        assert(p.drop_first()[i - 1] != q.drop_first()[i - 1]);
        assert((p + x).drop_first() =~= p.drop_first() + x);
        assert((q + y).drop_first() =~= q.drop_first() + y);
        lemma_lex_separated(p.drop_first(), q.drop_first(), x, y);
    }
}

pub proof fn lemma_separated_differ(p: Seq<int>, q: Seq<int>)
    requires
        separated(p, q),
    ensures
        p != q,
{
    let i = choose|i: int| 0 <= i < p.len() && i < q.len() && p[i] != q[i];
}

pub proof fn lemma_separated_common_prefix(p: Seq<int>, x: Seq<int>, y: Seq<int>)
    requires
        separated(x, y),
    ensures
        separated(p + x, p + y),
{
    let i = choose|i: int| 0 <= i < x.len() && i < y.len() && x[i] != y[i];
    assert((p + x)[p.len() + i] == x[i] && (p + y)[p.len() + i] == y[i]);
}

/// A shared head, then separated middles: separated, whatever follows.
pub proof fn lemma_separated_middle(
    h: Seq<int>,
    x1: Seq<int>,
    x2: Seq<int>,
    y1: Seq<int>,
    y2: Seq<int>,
)
    requires
        separated(x1, x2),
    ensures
        separated(h + x1 + y1, h + x2 + y2),
{
    lemma_lex_separated(x1, x2, y1, y2);
    lemma_separated_common_prefix(h, x1 + y1, x2 + y2);
    assert(h + x1 + y1 =~= h + (x1 + y1));
    assert(h + x2 + y2 =~= h + (x2 + y2));
}

/// Two sequences that start with different heads are separated.
pub proof fn lemma_separated_heads(p: Seq<int>, q: Seq<int>)
    requires
        p.len() > 0,
        q.len() > 0,
        p[0] != q[0],
    ensures
        separated(p, q),
{
}

/// Equal-length sequences that differ are separated.
pub proof fn lemma_separated_same_len(p: Seq<int>, q: Seq<int>)
    requires
        p.len() == q.len(),
        p != q,
    ensures
        separated(p, q),
{
    if !separated(p, q) {
        assert(p =~= q);
    }
}

/// An executable key, read as integers.
pub open spec fn ints(s: Seq<u128>) -> Seq<int> {
    Seq::new(s.len(), |i: int| s[i] as int)
}

/// The key of a byte string: each byte as one integer.
pub open spec fn bytes_key(b: Seq<u8>) -> Seq<int> {
    Seq::new(b.len(), |i: int| b[i] as int)
}

pub proof fn lemma_bytes_key_injective(a: Seq<u8>, b: Seq<u8>)
    requires
        bytes_key(a) == bytes_key(b),
    ensures
        a == b,
{
    assert(bytes_key(a).len() == a.len() && bytes_key(b).len() == b.len());
    assert forall|i: int| 0 <= i < a.len() implies a[i] == b[i] by {
        assert(bytes_key(a)[i] == a[i] as int);
        assert(bytes_key(b)[i] == b[i] as int);
    }
    assert(a =~= b);
}

/// Appends the key of a byte string to `k`.
pub fn push_bytes(k: &mut Vec<u128>, b: &[u8])
    ensures
        ints(final(k)@) == ints(old(k)@) + bytes_key(b@),
{
    let ghost start = ints(k@);
    let mut i: usize = 0;
    while i < b.len()
        invariant
            i <= b.len(),
            ints(k@) == start + bytes_key(b@.subrange(0, i as int)),
        decreases b.len() - i,
    {
        let ghost before = k@;
        k.push(b[i] as u128);
        i += 1;
        proof {
            assert(ints(k@) =~= ints(before).push(b@[i - 1] as int));
            assert(bytes_key(b@.subrange(0, i as int)) =~= bytes_key(b@.subrange(0, i - 1)).push(
                b@[i - 1] as int,
            ));
        }
    }
    proof {
        assert(b@.subrange(0, i as int) =~= b@);
    }
}

/// Lexicographic `<` on two keys.
pub fn lex_less(a: &Vec<u128>, b: &Vec<u128>) -> (r: bool)
    ensures
        r == lex_lt(ints(a@), ints(b@)),
{
    let mut i: usize = 0;
    while i < a.len() && i < b.len()
        invariant
            i <= a.len(),
            i <= b.len(),
            a@.subrange(0, i as int) == b@.subrange(0, i as int),
            ints(a@).subrange(0, i as int) == ints(b@).subrange(0, i as int),
        decreases a.len() - i,
    {
        if a[i] != b[i] {
            proof {
                lemma_lex_from(ints(a@), ints(b@), i as int);
                assert(ints(a@).subrange(i as int, a.len() as int)[0] == a@[i as int] as int);
                assert(ints(b@).subrange(i as int, b.len() as int)[0] == b@[i as int] as int);
            }
            return a[i] < b[i];
        }
        proof {
            assert(a@.subrange(0, i + 1) =~= a@.subrange(0, i as int).push(a@[i as int]));
            assert(b@.subrange(0, i + 1) =~= b@.subrange(0, i as int).push(b@[i as int]));
            assert(ints(a@).subrange(0, i + 1) =~= ints(b@).subrange(0, i + 1));
        }
        i += 1;
    }
    proof {
        lemma_lex_from(ints(a@), ints(b@), i as int);
    }
    i < b.len()
}

/// Equality of two keys.
pub fn keys_equal(a: &Vec<u128>, b: &Vec<u128>) -> (r: bool)
    ensures
        r == (ints(a@) == ints(b@)),
{
    if a.len() != b.len() {
        proof {
            assert(ints(a@).len() != ints(b@).len());
        }
        return false;
    }
    let mut i: usize = 0;
    while i < a.len()
        invariant
            i <= a.len(),
            a.len() == b.len(),
            a@.subrange(0, i as int) == b@.subrange(0, i as int),
        decreases a.len() - i,
    {
        if a[i] != b[i] {
            proof {
                assert(ints(a@)[i as int] != ints(b@)[i as int]);
            }
            return false;
        }
        proof {
            assert(a@.subrange(0, i + 1) =~= a@.subrange(0, i as int).push(a@[i as int]));
            assert(b@.subrange(0, i + 1) =~= b@.subrange(0, i as int).push(b@[i as int]));
        }
        i += 1;
    }
    proof {
        assert(a@ =~= a@.subrange(0, i as int));
        assert(b@ =~= b@.subrange(0, i as int));
        assert(ints(a@) =~= ints(b@));
    }
    true
}

proof fn lemma_lex_from(a: Seq<int>, b: Seq<int>, i: int)
    requires
        0 <= i <= a.len(),
        i <= b.len(),
        a.subrange(0, i) == b.subrange(0, i),
    ensures
        lex_lt(a, b) == lex_lt(a.subrange(i, a.len() as int), b.subrange(i, b.len() as int)),
{
    let p = a.subrange(0, i);
    assert(a =~= p + a.subrange(i, a.len() as int));
    assert(b =~= p + b.subrange(i, b.len() as int));
    lemma_lex_common_prefix(p, a.subrange(i, a.len() as int), b.subrange(i, b.len() as int));
}

} // verus!
