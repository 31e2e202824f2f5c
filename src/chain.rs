//! Pointer-chase rings: each visited slot of the pool holds the index of the next one.
use vstd::prelude::*;

verus! {

/// The slots a ring over `csize` elements with step `stride` is made of:
/// the multiples of `stride` below `csize`.
pub open spec fn slots(csize: nat, stride: nat) -> Set<int> {
    Set::new(|i: int| 0 <= i < csize && i % (stride as int) == 0)
}

/// `pool` holds a ring over `slots(csize, stride)`: every slot but the last holds the
/// next slot's index, and the last slot holds the sentinel `0`.
pub open spec fn is_chain(pool: Seq<usize>, csize: nat, stride: nat) -> bool {
    &&& 0 < stride <= csize
    &&& csize % stride == 0
    &&& csize <= pool.len()
    &&& forall|i: int|
        0 <= i < csize - stride && i % (stride as int) == 0 ==> #[trigger] pool[i] == i + stride
    &&& pool[csize - stride] == 0
}

/// The index reached after `k` dependent loads starting from index 0.
pub open spec fn hop(pool: Seq<usize>, k: nat) -> int
    decreases k,
{
    if k == 0 {
        0
    } else {
        let p = hop(pool, (k - 1) as nat);
        if 0 <= p < pool.len() {
            pool[p] as int
        } else {
            0
        }
    }
}

/// The first `n` indices of a traversal from index 0.
pub open spec fn lap(pool: Seq<usize>, n: nat) -> Seq<int> {
    Seq::new(n, |k: int| hop(pool, k as nat))
}

pub(crate) proof fn lemma_next_multiple(a: int, b: int, s: int)
    requires
        0 <= a < b,
        s > 0,
        a % s == 0,
        b % s == 0,
    ensures
        a + s <= b,
{
    vstd::arithmetic::div_mod::lemma_fundamental_div_mod(a, s);
    vstd::arithmetic::div_mod::lemma_fundamental_div_mod(b, s);
    let qa = a / s;
    let qb = b / s;
    assert(qa < qb) by (nonlinear_arith)
        requires
            a == s * qa,
            b == s * qb,
            a < b,
            s > 0,
    ;
    assert(s * qa + s <= s * qb) by (nonlinear_arith)
        requires
            qa < qb,
            s > 0,
    ;
}

proof fn lemma_hop_walks(pool: Seq<usize>, csize: nat, stride: nat, k: nat)
    requires
        is_chain(pool, csize, stride),
        k < csize / stride,
    ensures
        hop(pool, k) == k * stride,
    decreases k,
{
    if k > 0 {
        let km1 = (k - 1) as nat;
        lemma_hop_walks(pool, csize, stride, km1);
        let n = csize / stride;
        vstd::arithmetic::div_mod::lemma_fundamental_div_mod(csize as int, stride as int);
        vstd::arithmetic::div_mod::lemma_mod_multiples_basic(km1 as int, stride as int);
        assert(km1 * stride + stride <= csize - stride) by (nonlinear_arith)
            requires
                km1 + 1 < n,
                csize == stride * n,
                stride > 0,
        ;
        assert(km1 * stride + stride == k * stride) by (nonlinear_arith)
            requires
                km1 + 1 == k,
        ;
        let p = hop(pool, km1);
        assert(p == km1 * stride);
        assert(0 <= p < csize - stride);
        assert(p % (stride as int) == 0);
        assert(pool[p] == p + stride);
        assert(hop(pool, k) == pool[p]);
    } else {
        assert(0 * stride == 0);
    }
}

/// A ring built over `csize` elements with step `stride` is a single lap of
/// `csize / stride` loads: starting from index 0 the traversal meets the sentinel
/// after exactly `csize / stride` loads and not before, and on the way it visits
/// every slot of the ring once, with no slot repeated and none left out.
pub proof fn lemma_lap_visits_each_slot_once(pool: Seq<usize>, csize: nat, stride: nat)
    requires
        is_chain(pool, csize, stride),
    ensures
        hop(pool, csize / stride) == 0,
        forall|k: nat| 0 < k < csize / stride ==> #[trigger] hop(pool, k) != 0,
        lap(pool, csize / stride).len() == csize / stride,
        lap(pool, csize / stride).no_duplicates(),
        lap(pool, csize / stride).to_set() == slots(csize, stride),
{
    let n = csize / stride;
    let s = stride as int;
    vstd::arithmetic::div_mod::lemma_fundamental_div_mod(csize as int, s);
    assert(n >= 1) by (nonlinear_arith)
        requires
            csize == stride * n,
            0 < stride <= csize,
    ;
    let last = (n - 1) as nat;
    lemma_hop_walks(pool, csize, stride, last);
    assert(last * stride == csize - stride) by (nonlinear_arith)
        requires
            last + 1 == n,
            csize == stride * n,
    ;
    assert forall|k: nat| 0 < k < n implies #[trigger] hop(pool, k) != 0 by {
        lemma_hop_walks(pool, csize, stride, k);
        assert(k * stride > 0) by (nonlinear_arith)
            requires
                k > 0,
                stride > 0,
        ;
    }
    let l = lap(pool, n);
    assert forall|i: int, j: int| 0 <= i < l.len() && 0 <= j < l.len() && i != j implies l[i]
        != l[j] by {
        lemma_hop_walks(pool, csize, stride, i as nat);
        lemma_hop_walks(pool, csize, stride, j as nat);
        assert(i * s != j * s) by (nonlinear_arith)
            requires
                i != j,
                s > 0,
        ;
    }
    assert forall|x: int| l.to_set().contains(x) <==> slots(csize, stride).contains(x) by {
        if l.to_set().contains(x) {
            let i = choose|i: int| 0 <= i < l.len() && l[i] == x;
            lemma_hop_walks(pool, csize, stride, i as nat);
            vstd::arithmetic::div_mod::lemma_mod_multiples_basic(i, s);
            assert(i * s < csize) by (nonlinear_arith)
                requires
                    i < n,
                    csize == s * n,
                    s > 0,
            ;
        }
        if slots(csize, stride).contains(x) {
            vstd::arithmetic::div_mod::lemma_fundamental_div_mod(x, s);
            let i = x / s;
            assert(0 <= i < n) by (nonlinear_arith)
                requires
                    x == s * i,
                    0 <= x < csize,
                    csize == s * n,
                    s > 0,
            ;
            lemma_hop_walks(pool, csize, stride, i as nat);
            assert(l[i] == x) by (nonlinear_arith)
                requires
                    l[i] == i * s,
                    x == s * i,
            ;
        }
    }
    assert(l.to_set() =~= slots(csize, stride));
}

/// Writes a ring over the first `csize` elements of `pool` with step `stride`:
/// slot `i` gets `i + stride`, and the last slot gets the sentinel `0`.
/// Elements outside the ring keep their values.
pub fn build_chain(pool: &mut Vec<usize>, csize: usize, stride: usize)
    requires
        0 < stride <= csize,
        csize % stride == 0,
        csize <= old(pool).len(),
    ensures
        final(pool).len() == old(pool).len(),
        is_chain(final(pool)@, csize as nat, stride as nat),
        forall|i: int|
            0 <= i < old(pool).len() && !slots(csize as nat, stride as nat).contains(i)
                ==> #[trigger] final(pool)[i] == old(pool)[i],
{
    let ghost s = stride as int;
    let mut index: usize = 0;
    while index < csize
        invariant
            s == stride,
            0 < stride <= csize,
            csize % stride == 0,
            csize <= pool.len(),
            pool.len() == old(pool).len(),
            index <= csize,
            index % stride == 0,
            forall|i: int| 0 <= i < index && i % s == 0 ==> #[trigger] pool[i] == i + stride,
            forall|i: int|
                0 <= i < pool.len() && !(0 <= i < index && i % s == 0) ==> #[trigger] pool[i]
                    == old(pool)[i],
        decreases csize - index,
    {
        proof {
            lemma_next_multiple(index as int, csize as int, s);
            vstd::arithmetic::div_mod::lemma_mod_add_multiples_vanish(index as int, s);
        }
        pool.set(index, index + stride);
        index = index + stride;
        proof {
            assert forall|i: int| 0 <= i < index && i % s == 0 implies #[trigger] pool[i] == i
                + stride by {
                if i > index - stride {
                    lemma_next_multiple(i, index as int, s);
                }
            }
        }
    }
    proof {
        vstd::arithmetic::div_mod::lemma_sub_mod_noop(csize as int, s, s);
        vstd::arithmetic::div_mod::lemma_mod_self_0(s);
    }
    pool.set(index - stride, 0);
    proof {
        assert((csize - stride) as int % s == 0) by {
            vstd::arithmetic::div_mod::lemma_mod_sub_multiples_vanish(csize as int, s);
        }
    }
}

} // verus!
