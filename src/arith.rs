//! Powers of two and their logarithms.
use vstd::prelude::*;

verus! {

/// `2^e`.
pub open spec fn pow2(e: nat) -> nat
    decreases e,
{
    if e == 0 {
        1
    } else {
        2 * pow2((e - 1) as nat)
    }
}

/// Floor of the base-two logarithm (zero for 0 and 1).
pub open spec fn log2(n: nat) -> nat
    decreases n,
{
    if n <= 1 {
        0
    } else {
        1 + log2(n / 2)
    }
}

/// `n` is a power of two.
pub open spec fn is_pow2(n: nat) -> bool {
    n == pow2(log2(n))
}

/// Every power of two is at least one.
pub proof fn lemma_pow2_pos(e: nat)
    ensures
        pow2(e) >= 1,
    decreases e,
{
    if e > 0 {
        lemma_pow2_pos((e - 1) as nat);
    }
}

/// `2^(a+b) = 2^a * 2^b`.
pub proof fn lemma_pow2_adds(a: nat, b: nat)
    ensures
        pow2(a + b) == pow2(a) * pow2(b),
    decreases b,
{
    if b > 0 {
        lemma_pow2_adds(a, (b - 1) as nat);
        assert((a + b - 1) as nat == a + (b - 1) as nat);
        assert(pow2(a + b) == 2 * pow2((a + b - 1) as nat));
        assert(pow2(a) * pow2(b) == pow2(a) * (2 * pow2((b - 1) as nat)));
        assert(pow2(a) * (2 * pow2((b - 1) as nat)) == 2 * (pow2(a) * pow2((b - 1) as nat)))
            by (nonlinear_arith);
    } else {
        assert(pow2(b) == 1);
        assert(pow2(a) * 1 == pow2(a));
    }
}

/// Powers of two grow with the exponent.
pub proof fn lemma_pow2_mono(a: nat, b: nat)
    requires
        a <= b,
    ensures
        pow2(a) <= pow2(b),
{
    lemma_pow2_adds(a, (b - a) as nat);
    lemma_pow2_pos((b - a) as nat);
    lemma_pow2_pos(a);
    assert(pow2(a) * pow2((b - a) as nat) >= pow2(a) * 1) by (nonlinear_arith)
        requires
            pow2((b - a) as nat) >= 1,
            pow2(a) >= 1,
    ;
}

/// A smaller power of two divides a larger one.
pub proof fn lemma_pow2_divides(a: nat, b: nat)
    requires
        a <= b,
    ensures
        pow2(b) % pow2(a) == 0,
        pow2(b) / pow2(a) == pow2((b - a) as nat),
{
    lemma_pow2_adds(a, (b - a) as nat);
    lemma_pow2_pos(a);
    vstd::arithmetic::div_mod::lemma_mod_multiples_basic(pow2((b - a) as nat) as int, pow2(a) as int);
    vstd::arithmetic::div_mod::lemma_div_multiples_vanish(pow2((b - a) as nat) as int, pow2(a) as int);
    assert(pow2((b - a) as nat) * pow2(a) == pow2(a) * pow2((b - a) as nat)) by (nonlinear_arith);
}

/// `2^e` is at most `n` exactly when `e` is at most `log2(n)` (for positive `n`).
pub proof fn lemma_pow2_le_iff_log2(e: nat, n: nat)
    requires
        n >= 1,
    ensures
        pow2(e) <= n <==> e <= log2(n),
    decreases n,
{
    if n > 1 {
        if e > 0 {
            lemma_pow2_le_iff_log2((e - 1) as nat, n / 2);
        } else {
            lemma_pow2_pos(0);
        }
    } else {
        if e > 0 {
            lemma_pow2_pos((e - 1) as nat);
        }
    }
}

/// The logarithm of a power of two is its exponent.
pub proof fn lemma_log2_pow2(e: nat)
    ensures
        log2(pow2(e)) == e,
        is_pow2(pow2(e)),
    decreases e,
{
    if e > 0 {
        lemma_log2_pow2((e - 1) as nat);
        lemma_pow2_pos((e - 1) as nat);
        assert(pow2(e) / 2 == pow2((e - 1) as nat));
    }
}

} // verus!
