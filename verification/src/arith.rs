use vstd::prelude::*;

verus! {

use vstd::arithmetic::div_mod::{
    lemma_fundamental_div_mod,
    lemma_mod_bound,
    lemma_mod_self_0,
    lemma_multiply_divide_lt,
    lemma_small_mod,
};
use vstd::arithmetic::power2::{lemma2_to64, lemma_pow2_adds, lemma_pow2_pos, pow2};

/// Number of bits in the final meaningful symbol of an encoded string that are
/// left unconstrained by a decoded payload of `n` bytes, when each symbol
/// carries `w` bits.
pub open spec fn slack_bits(n: int, w: int) -> int
    recommends
        0 <= n,
        1 <= w,
{
    (((8 * n) / w + 1) * w - 8 * n) % w
}

/// The slack-bit formula reduces to the distance from the payload's bit count
/// up to the next symbol boundary, and is zero exactly when the payload lands
/// on a boundary.
pub proof fn lemma_slack_bits_form(n: int, w: int)
    requires
        0 <= n,
        1 <= w,
    ensures
        slack_bits(n, w) == (w - (8 * n) % w) % w,
        0 <= slack_bits(n, w) < w,
        slack_bits(n, w) == 0 <==> (8 * n) % w == 0,
{
    let t = 8 * n;
    let q = t / w;
    let r = t % w;
    lemma_fundamental_div_mod(t, w);
    lemma_mod_bound(t, w);
    assert((q + 1) * w == w * q + w) by (nonlinear_arith);
    assert((q + 1) * w - t == w - r);
    if r == 0 {
        lemma_mod_self_0(w);
    } else {
        lemma_small_mod((w - r) as nat, w as nat);
    }
    lemma_mod_bound(w - r, w);
}

/// Computes the slack-bit count for a payload of `n` bytes at `w` bits per
/// symbol, with exact integer arithmetic.
pub(crate) fn compute_slack(n: usize, w: usize) -> (r: u8)
    requires
        1 <= w <= 6,
    ensures
        r as int == slack_bits(n as int, w as int),
        r < w,
{
    let t: u128 = 8 * (n as u128);
    let wd: u128 = w as u128;
    proof {
        let ti = t as int;
        let wi = wd as int;
        lemma_fundamental_div_mod(ti, wi);
        lemma_mod_bound(ti, wi);
        let q = ti / wi;
        let r = ti % wi;
        assert(0 <= q && q <= ti) by (nonlinear_arith)
            requires
                ti == wi * q + r,
                0 <= ti,
                0 <= r < wi,
                1 <= wi,
        ;
        assert((q + 1) * wi == wi * q + wi) by (nonlinear_arith);
    }
    let q: u128 = t / wd;
    let p: u128 = ((q + 1) * wd - t) % wd;
    proof {
        lemma_mod_bound((q + 1) as int * (wd as int) - (t as int), wd as int);
    }
    p as u8
}

/// Returns `2^e` for the small exponents that a symbol bit-width allows.
pub(crate) fn pow2_exec(e: u8) -> (r: usize)
    requires
        e <= 6,
    ensures
        r as nat == pow2(e as nat),
        1 <= r <= 64,
{
    proof {
        lemma2_to64();
    }
    if e == 0 {
        1
    } else if e == 1 {
        2
    } else if e == 2 {
        4
    } else if e == 3 {
        8
    } else if e == 4 {
        16
    } else if e == 5 {
        32
    } else {
        64
    }
}

/// Clearing the low `p` bits of an index below `2^w` yields a block
/// `[base, base + 2^p)` of indices that stays within `[0, 2^w)` and contains
/// the given index.
pub proof fn lemma_base_block_in_range(idx: int, p: nat, w: nat)
    requires
        p <= w,
        0 <= idx < pow2(w),
    ensures
        0 <= (idx / pow2(p) as int) * pow2(p) as int <= idx,
        idx < (idx / pow2(p) as int) * pow2(p) as int + pow2(p) as int,
        (idx / pow2(p) as int) * pow2(p) as int + pow2(p) as int <= pow2(w) as int,
{
    let c = pow2(p) as int;
    lemma_pow2_pos(p);
    lemma_fundamental_div_mod(idx, c);
    lemma_mod_bound(idx, c);
    let q = idx / c;
    let r = idx % c;
    assert(q * c == c * q) by (nonlinear_arith);
    assert(0 <= q) by (nonlinear_arith)
        requires
            idx == c * q + r,
            0 <= idx,
            0 <= r < c,
            1 <= c,
    ;
    lemma_pow2_adds(p, (w - p) as nat);
    let h = pow2((w - p) as nat) as int;
    lemma_multiply_divide_lt(idx, c, h);
    assert((q + 1) * c <= h * c) by (nonlinear_arith)
        requires
            q + 1 <= h,
            0 < c,
    ;
    assert(h * c == c * h) by (nonlinear_arith);
    assert((q + 1) * c == q * c + c) by (nonlinear_arith);
}

} // verus!
