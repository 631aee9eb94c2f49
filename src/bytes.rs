//! Big-endian byte strings as unsigned numbers, and their lexicographic order.

use std::cmp::Ordering;
use vstd::prelude::*;

verus! {

/// 256 to the power `n`.
pub open spec fn pow256(n: nat) -> nat
    decreases n,
{
    if n == 0 {
        1
    } else {
        256 * pow256((n - 1) as nat)
    }
}

/// The unsigned number that `s` writes in big-endian order.
pub open spec fn be_value(s: Seq<u8>) -> nat
    decreases s.len(),
{
    if s.len() == 0 {
        0
    } else {
        (be_value(s.drop_last()) * 256 + s.last()) as nat
    }
}

/// The order of two integers.
pub open spec fn int_order(a: int, b: int) -> Ordering {
    if a < b {
        Ordering::Less
    } else if a == b {
        Ordering::Equal
    } else {
        Ordering::Greater
    }
}

/// Lexicographic order of byte strings; a proper prefix comes first.
pub open spec fn lex_order(a: Seq<u8>, b: Seq<u8>) -> Ordering
    decreases a.len(),
{
    if a.len() == 0 {
        if b.len() == 0 {
            Ordering::Equal
        } else {
            Ordering::Less
        }
    } else if b.len() == 0 {
        Ordering::Greater
    } else if a[0] != b[0] {
        int_order(a[0] as int, b[0] as int)
    } else {
        lex_order(a.drop_first(), b.drop_first())
    }
}

pub proof fn lemma_pow256_positive(n: nat)
    ensures
        pow256(n) >= 1,
    decreases n,
{
    if n > 0 {
        lemma_pow256_positive((n - 1) as nat);
    }
}

pub proof fn lemma_pow256_widths()
    ensures
        pow256(8) == 0x1_0000_0000_0000_0000,
        pow256(16) == 0x1_0000_0000_0000_0000_0000_0000_0000_0000,
{
    reveal_with_fuel(pow256, 17);
}

pub proof fn lemma_pow256_monotone(m: nat, n: nat)
    requires
        m <= n,
    ensures
        pow256(m) <= pow256(n),
    decreases n,
{
    if m < n {
        lemma_pow256_monotone(m, (n - 1) as nat);
        lemma_pow256_positive((n - 1) as nat);
    }
}

pub proof fn lemma_be_bound(s: Seq<u8>)
    ensures
        be_value(s) < pow256(s.len()),
    decreases s.len(),
{
    if s.len() > 0 {
        let p = be_value(s.drop_last());
        let q = pow256((s.len() - 1) as nat);
        lemma_be_bound(s.drop_last());
        assert(p * 256 + s.last() < q * 256) by (nonlinear_arith)
            requires
                p < q,
                s.last() < 256,
        ;
    }
}

pub proof fn lemma_be_prepend(b: u8, s: Seq<u8>)
    ensures
        be_value(seq![b] + s) == b * pow256(s.len()) + be_value(s),
    decreases s.len(),
{
    let t = seq![b] + s;
    if s.len() > 0 {
        assert(t.drop_last() =~= seq![b] + s.drop_last());
        lemma_be_prepend(b, s.drop_last());
        assert(t.last() == s.last());
        let q = pow256((s.len() - 1) as nat);
        assert(pow256(s.len()) == 256 * q);
        assert((b * q + be_value(s.drop_last())) * 256 + s.last() == b * (256 * q) + (be_value(
            s.drop_last(),
        ) * 256 + s.last())) by (nonlinear_arith);
    } else {
        assert(t.drop_last() =~= Seq::<u8>::empty());
        assert(be_value(Seq::<u8>::empty()) == 0);
        assert(s =~= Seq::<u8>::empty());
        assert(pow256(0) == 1);
    }
}

/// The `n` bytes that write `u` in big-endian order.
pub fn be_encode(u: u128, n: usize) -> (r: Vec<u8>)
    requires
        n <= 16,
        u < pow256(n as nat),
    ensures
        r@.len() == n,
        be_value(r@) == u,
{
    let mut v: Vec<u8> = Vec::new();
    let mut k: usize = 0;
    while k < n
        invariant
            k <= n,
            v@.len() == k,
            forall|j: int| 0 <= j < k ==> v@[j] == 0,
        decreases n - k,
    {
        v.push(0);
        k = k + 1;
    }
    let mut q: u128 = u;
    let mut i: usize = n;
    assert(v@.subrange(n as int, n as int) =~= Seq::<u8>::empty());
    assert(be_value(Seq::<u8>::empty()) == 0);
    assert(pow256(0) == 1);
    assert((n - i) as nat == 0nat);
    assert(pow256(0nat) == 1) by {
        reveal_with_fuel(pow256, 1);
    }
    assert(q * pow256((n - i) as nat) == q);
    while i > 0
        invariant
            i <= n,
            v@.len() == n,
            u == q * pow256((n - i) as nat) + be_value(v@.subrange(i as int, n as int)),
        decreases i,
    {
        let b: u8 = (q % 256) as u8;
        let q2: u128 = q / 256;
        let ghost tail = v@.subrange(i as int, n as int);
        v.set(i - 1, b);
        assert(v@.subrange(i - 1, n as int) =~= seq![b] + tail);
        proof {
            lemma_be_prepend(b, tail);
        }
        let ghost p = pow256((n - i) as nat);
        assert(pow256((n - i + 1) as nat) == 256 * p);
        assert(q * p == q2 * (256 * p) + b * p) by (nonlinear_arith)
            requires
                q == q2 * 256 + b,
        ;
        q = q2;
        i = i - 1;
    }
    assert(v@.subrange(0, n as int) =~= v@);
    proof {
        lemma_pow256_positive(n as nat);
    }
    assert(q == 0) by (nonlinear_arith)
        requires
            u == q * pow256(n as nat) + be_value(v@),
            u < pow256(n as nat),
    ;
    v
}

/// The unsigned number that the bytes write in big-endian order.
pub fn be_decode(b: &[u8]) -> (r: u128)
    requires
        b@.len() <= 16,
    ensures
        r == be_value(b@),
{
    let mut acc: u128 = 0;
    let mut i: usize = 0;
    assert(b@.subrange(0, 0) =~= Seq::<u8>::empty());
    while i < b.len()
        invariant
            i <= b@.len() <= 16,
            acc == be_value(b@.subrange(0, i as int)),
        decreases b@.len() - i,
    {
        let ghost pre = b@.subrange(0, i as int);
        let ghost next = b@.subrange(0, i + 1);
        assert(next.drop_last() =~= pre);
        proof {
            lemma_be_bound(next);
            lemma_pow256_monotone((i + 1) as nat, 16);
            lemma_pow256_widths();
        }
        acc = acc * 256 + b[i] as u128;
        i = i + 1;
    }
    assert(b@.subrange(0, b@.len() as int) =~= b@);
    acc
}

/// Compares two byte strings lexicographically.
pub fn lex_compare(a: &[u8], b: &[u8]) -> (r: Ordering)
    ensures
        r == lex_order(a@, b@),
{
    let mut i: usize = 0;
    assert(a@.subrange(0, a@.len() as int) =~= a@);
    assert(b@.subrange(0, b@.len() as int) =~= b@);
    while i < a.len() && i < b.len()
        invariant
            i <= a@.len(),
            i <= b@.len(),
            lex_order(a@, b@) == lex_order(
                a@.subrange(i as int, a@.len() as int),
                b@.subrange(i as int, b@.len() as int),
            ),
        decreases a@.len() - i,
    {
        let ghost sa = a@.subrange(i as int, a@.len() as int);
        let ghost sb = b@.subrange(i as int, b@.len() as int);
        if a[i] < b[i] {
            return Ordering::Less;
        } else if a[i] > b[i] {
            return Ordering::Greater;
        }
        assert(sa.drop_first() =~= a@.subrange(i + 1, a@.len() as int));
        assert(sb.drop_first() =~= b@.subrange(i + 1, b@.len() as int));
        i = i + 1;
    }
    if i < a.len() {
        Ordering::Greater
    } else if i < b.len() {
        Ordering::Less
    } else {
        Ordering::Equal
    }
}

pub proof fn lemma_lex_antisymmetric(a: Seq<u8>, b: Seq<u8>)
    ensures
        lex_order(a, b) == Ordering::Less <==> lex_order(b, a) == Ordering::Greater,
        lex_order(a, b) == Ordering::Equal <==> lex_order(b, a) == Ordering::Equal,
    decreases a.len(),
{
    if a.len() > 0 && b.len() > 0 && a[0] == b[0] {
        lemma_lex_antisymmetric(a.drop_first(), b.drop_first());
    }
}

pub proof fn lemma_lex_transitive(a: Seq<u8>, b: Seq<u8>, c: Seq<u8>)
    requires
        lex_order(a, b) == Ordering::Less,
        lex_order(b, c) == Ordering::Less,
    ensures
        lex_order(a, c) == Ordering::Less,
    decreases a.len(),
{
    if a.len() > 0 && b.len() > 0 && c.len() > 0 && a[0] == b[0] && b[0] == c[0] {
        lemma_lex_transitive(a.drop_first(), b.drop_first(), c.drop_first());
    }
}

pub proof fn lemma_lex_equal(a: Seq<u8>, b: Seq<u8>)
    ensures
        lex_order(a, b) == Ordering::Equal <==> a == b,
    decreases a.len(),
{
    if a.len() > 0 && b.len() > 0 {
        lemma_lex_equal(a.drop_first(), b.drop_first());
        if a[0] == b[0] && a.drop_first() == b.drop_first() {
            assert(a =~= seq![a[0]] + a.drop_first());
            assert(b =~= seq![b[0]] + b.drop_first());
        }
    } else if a.len() == 0 && b.len() != 0 {
        assert(a != b);
    } else if a.len() != 0 && b.len() == 0 {
        assert(a != b);
    } else {
        assert(a =~= b);
    }
}

} // verus!
