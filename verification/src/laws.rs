//! Laws of the pool, proved once and for all inputs they speak of.

use vstd::prelude::*;

use crate::decimal::{dec_mul, trunc_div, DEC_ONE};
use crate::pool::{spec_swap_output, spec_weight, LinearBootstrapPool, SECONDS_PER_DAY};

verus! {

use vstd::arithmetic::div_mod::{
    lemma_div_by_multiple, lemma_div_is_ordered, lemma_div_pos_is_pos, lemma_fundamental_div_mod,
    lemma_mod_bound,
};
use vstd::arithmetic::mul::{lemma_mul_inequality, lemma_mul_nonnegative};
use vstd::arithmetic::power::{lemma_pow_distributes, pow};
use vstd::math::abs;

/// Truncation toward zero is an odd function of the dividend.
proof fn lemma_trunc_div_neg(x: int, k: int)
    requires
        k > 0,
    ensures
        trunc_div(-x, k) == -trunc_div(x, k),
{
    assert(abs(-x) == abs(x));
}

/// Truncation toward zero of a nonnegative dividend is plain division.
proof fn lemma_trunc_div_nonneg(a: int, b: int)
    requires
        a >= 0,
        b > 0,
    ensures
        trunc_div(a, b) == a / b,
{
}

/// Weight-sum conservation: whenever the initial pair and the target pair
/// have the same sum, the scheduled weights at any time sum to that same
/// value, truncation notwithstanding — the two interpolation corrections
/// are exact negations of each other.
pub proof fn lemma_weight_sum_conserved(pool: LinearBootstrapPool, now: int)
    requires
        pool.wf(),
        pool.initial_weight1@ + pool.initial_weight2@ == pool.target_weight1@
            + pool.target_weight2@,
    ensures
        pool.scheduled_weight1(now) + pool.scheduled_weight2(now) == pool.initial_weight1@
            + pool.initial_weight2@,
{
    let p = pool.spec_progress(now);
    if p < DEC_ONE as int {
        let d1 = pool.target_weight1@ - pool.initial_weight1@;
        let d2 = pool.target_weight2@ - pool.initial_weight2@;
        assert(d2 == -d1);
        assert(d2 * p == -(d1 * p)) by (nonlinear_arith)
            requires
                d2 == -d1,
        ;
        lemma_trunc_div_neg(d1 * p, DEC_ONE as int);
    }
}

/// At the start time the scheduled weights are exactly the initial weights:
/// progress is zero and the truncated interpolation adds nothing.
pub proof fn lemma_weights_start_at_initial(pool: LinearBootstrapPool)
    requires
        pool.wf(),
    ensures
        pool.scheduled_weight1(pool.start as int) == pool.initial_weight1@,
        pool.scheduled_weight2(pool.start as int) == pool.initial_weight2@,
{
    let k = DEC_ONE as int;
    assert(pool.spec_progress(pool.start as int) == 0) by {
        assert(abs(0) == 0);
    }
    lemma_trunc_div_nonneg(0, k);
}

/// Once elapsed time reaches the schedule's full span, the scheduled
/// weights are pinned exactly at the target weights, however far past the
/// duration the clock runs: there is no overshoot.
pub proof fn lemma_weights_pinned_after_duration(pool: LinearBootstrapPool, now: int)
    requires
        pool.wf(),
        now - pool.start as int >= pool.duration as int * (SECONDS_PER_DAY as int),
    ensures
        pool.scheduled_weight1(now) == pool.target_weight1@,
        pool.scheduled_weight2(now) == pool.target_weight2@,
{
    let k = DEC_ONE as int;
    let e = now - pool.start as int;
    let total = pool.duration as int * (SECONDS_PER_DAY as int);
    lemma_mul_inequality(total, e, k);
    lemma_trunc_div_nonneg(e * k, total);
    lemma_div_is_ordered(total * k, e * k, total);
    lemma_div_by_multiple(k, total);
    assert(k * total == total * k) by (nonlinear_arith);
    assert(pool.spec_progress(now) >= k);
}

/// For any progress within one whole transition, the interpolated weight
/// lies between its initial and target values, whichever way they are
/// ordered: the interpolation is monotonic and never overshoots.
pub proof fn lemma_weight_between_endpoints(initial: int, target: int, p: int)
    requires
        0 <= p <= DEC_ONE as int,
    ensures
        ({
            let w = spec_weight(initial, target, p);
            (initial <= target ==> initial <= w <= target) && (target <= initial ==> target <= w
                <= initial)
        }),
{
    let k = DEC_ONE as int;
    if p < k {
        let d = target - initial;
        if d >= 0 {
            lemma_mul_nonnegative(d, p);
            lemma_trunc_div_nonneg(d * p, k);
            lemma_div_pos_is_pos(d * p, k);
            assert(d * p <= d * k) by (nonlinear_arith)
                requires
                    d >= 0,
                    p <= k,
            ;
            lemma_div_is_ordered(d * p, d * k, k);
            lemma_div_by_multiple(d, k);
        } else {
            let m = -d;
            assert(d * p == -(m * p)) by (nonlinear_arith)
                requires
                    m == -d,
            ;
            lemma_trunc_div_neg(m * p, k);
            lemma_mul_nonnegative(m, p);
            lemma_trunc_div_nonneg(m * p, k);
            lemma_div_pos_is_pos(m * p, k);
            assert(m * p <= m * k) by (nonlinear_arith)
                requires
                    m >= 0,
                    p <= k,
            ;
            lemma_div_is_ordered(m * p, m * k, k);
            lemma_div_by_multiple(m, k);
        }
    }
}

/// The automated-market-maker law for a fee-free swap at equal weights: the
/// product of the two reserve balances does not decrease across the swap,
/// so the weighted product of the reserves (both weights being equal) does
/// not decrease either. Stated where the fixed-point products on the
/// denominator's side divide evenly, so that truncation cannot inflate the
/// quotient; the output also never exceeds the output-side reserve.
pub proof fn lemma_swap_grows_reserve_product(in_amt: int, in_res: int, out_res: int, w: int)
    requires
        0 <= in_amt,
        0 < in_res,
        0 <= out_res,
        0 < w <= DEC_ONE as int,
        (in_res * w) % (DEC_ONE as int) == 0,
        (in_amt * w) % (DEC_ONE as int) == 0,
        in_res * w >= DEC_ONE as int,
    ensures
        ({
            let out = spec_swap_output(in_amt, in_res, out_res, w, w, 0);
            (in_res + in_amt) * (out_res - out) >= in_res * out_res && 0 <= out <= out_res
        }),
{
    let k = DEC_ONE as int;
    lemma_mul_nonnegative(in_amt, out_res);
    lemma_trunc_div_nonneg(in_amt * out_res, k);
    let n1 = (in_amt * out_res) / k;
    lemma_div_pos_is_pos(in_amt * out_res, k);
    lemma_mul_nonnegative(n1, w);
    lemma_trunc_div_nonneg(n1 * w, k);
    let n2 = (n1 * w) / k;
    lemma_div_pos_is_pos(n1 * w, k);
    lemma_mul_nonnegative(n2, k);
    lemma_trunc_div_nonneg(n2 * k, k);
    lemma_div_by_multiple(n2, k);
    assert(dec_mul(dec_mul(dec_mul(in_amt, out_res), w), k - 0) == n2);

    lemma_mul_nonnegative(in_res, w);
    lemma_trunc_div_nonneg(in_res * w, k);
    let d1 = (in_res * w) / k;
    lemma_mul_nonnegative(in_amt, w);
    lemma_trunc_div_nonneg(in_amt * w, k);
    let d2 = (in_amt * w) / k;
    lemma_div_pos_is_pos(in_amt * w, k);
    lemma_mul_nonnegative(d2, k);
    lemma_trunc_div_nonneg(d2 * k, k);
    lemma_div_by_multiple(d2, k);
    assert(dec_mul(dec_mul(in_amt, w), k - 0) == d2);

    // The divisibility hypotheses make both denominator terms exact.
    lemma_fundamental_div_mod(in_res * w, k);
    lemma_fundamental_div_mod(in_amt * w, k);
    assert(in_res * w == k * d1);
    assert(in_amt * w == k * d2);

    // d1 >= 1, hence the denominator is positive.
    lemma_div_is_ordered(k, in_res * w, k);
    vstd::arithmetic::div_mod::lemma_div_by_self(k);
    let den = d1 + d2;
    assert(den >= 1);

    assert(den * k == (in_res + in_amt) * w) by (nonlinear_arith)
        requires
            in_res * w == k * d1,
            in_amt * w == k * d2,
            den == d1 + d2,
    ;

    lemma_mul_nonnegative(n2, k);
    lemma_trunc_div_nonneg(n2 * k, den);
    let out = (n2 * k) / den;
    lemma_div_pos_is_pos(n2 * k, den);
    assert(spec_swap_output(in_amt, in_res, out_res, w, w, 0) == out);

    // out * den <= n2 * k, from the division's remainder.
    lemma_fundamental_div_mod(n2 * k, den);
    lemma_mod_bound(n2 * k, den);
    assert(den * out <= n2 * k);

    // n2 * k <= n1 * w and n1 * k <= in_amt * out_res, likewise.
    lemma_fundamental_div_mod(n1 * w, k);
    lemma_mod_bound(n1 * w, k);
    assert(k * n2 <= n1 * w);
    lemma_fundamental_div_mod(in_amt * out_res, k);
    lemma_mod_bound(in_amt * out_res, k);
    assert(k * n1 <= in_amt * out_res);

    assert(out * (in_res + in_amt) <= in_amt * out_res) by (nonlinear_arith)
        requires
            den * out <= n2 * k,
            k * n2 <= n1 * w,
            k * n1 <= in_amt * out_res,
            den * k == (in_res + in_amt) * w,
            k > 0,
            w > 0,
            out >= 0,
            den > 0,
            n1 >= 0,
            n2 >= 0,
    ;

    assert((in_res + in_amt) * (out_res - out) >= in_res * out_res) by (nonlinear_arith)
        requires
            out * (in_res + in_amt) <= in_amt * out_res,
    ;

    assert(out <= out_res) by (nonlinear_arith)
        requires
            out * (in_res + in_amt) <= in_amt * out_res,
            in_res > 0,
            in_amt >= 0,
            out_res >= 0,
            out >= 0,
    ;
}

/// Powers with a fixed exponent are monotone in a nonnegative base.
proof fn lemma_pow_base_monotone(x: int, y: int, e: nat)
    requires
        0 <= x <= y,
    ensures
        0 <= pow(x, e) <= pow(y, e),
    decreases e,
{
    reveal(pow);
    if e > 0 {
        lemma_pow_base_monotone(x, y, (e - 1) as nat);
        assert(pow(x, e) == x * pow(x, (e - 1) as nat));
        assert(pow(y, e) == y * pow(y, (e - 1) as nat));
        assert(x * pow(x, (e - 1) as nat) <= y * pow(y, (e - 1) as nat) && 0 <= x * pow(
            x,
            (e - 1) as nat,
        )) by (nonlinear_arith)
            requires
                0 <= x <= y,
                0 <= pow(x, (e - 1) as nat) <= pow(y, (e - 1) as nat),
        ;
    }
}

/// The fee-free law in the weighted-product reading: for any common
/// exponent standing for the two equal weights, the product of the powered
/// reserve balances does not decrease across the swap.
pub proof fn lemma_swap_preserves_weighted_product(
    in_amt: int,
    in_res: int,
    out_res: int,
    w: int,
    e: nat,
)
    requires
        0 <= in_amt,
        0 < in_res,
        0 <= out_res,
        0 < w <= DEC_ONE as int,
        (in_res * w) % (DEC_ONE as int) == 0,
        (in_amt * w) % (DEC_ONE as int) == 0,
        in_res * w >= DEC_ONE as int,
    ensures
        ({
            let out = spec_swap_output(in_amt, in_res, out_res, w, w, 0);
            pow(in_res + in_amt, e) * pow(out_res - out, e) >= pow(in_res, e) * pow(out_res, e)
        }),
{
    let out = spec_swap_output(in_amt, in_res, out_res, w, w, 0);
    lemma_swap_grows_reserve_product(in_amt, in_res, out_res, w);
    lemma_mul_nonnegative(in_res, out_res);
    lemma_pow_base_monotone(in_res * out_res, (in_res + in_amt) * (out_res - out), e);
    lemma_pow_distributes(in_res, out_res, e);
    lemma_pow_distributes(in_res + in_amt, out_res - out, e);
}

/// The strict half of the automated-market-maker law: with a positive fee,
/// a swap of a positive amount at equal weights strictly grows the product
/// of the two reserve balances — the fee margin strictly outweighs what
/// rounding can give back. Stated where the fixed-point products on the
/// denominator's side divide evenly, so that truncation cannot inflate the
/// quotient.
pub proof fn lemma_swap_with_fee_strictly_grows_product(
    in_amt: int,
    in_res: int,
    out_res: int,
    w: int,
    fee: int,
)
    requires
        1 <= in_amt,
        1 <= out_res,
        0 < w <= DEC_ONE as int,
        1 <= fee < DEC_ONE as int,
        (in_res * w) % (DEC_ONE as int) == 0,
        (in_amt * w) % (DEC_ONE as int) == 0,
        (((in_amt * w) / (DEC_ONE as int)) * (DEC_ONE as int - fee)) % (DEC_ONE as int) == 0,
        in_res * w >= DEC_ONE as int,
    ensures
        ({
            let out = spec_swap_output(in_amt, in_res, out_res, w, w, fee);
            (in_res + in_amt) * (out_res - out) > in_res * out_res && 0 <= out < out_res
        }),
{
    let k = DEC_ONE as int;
    let omf = k - fee;
    assert(in_res >= 1) by (nonlinear_arith)
        requires
            in_res * w >= DEC_ONE as int,
            0 < w <= DEC_ONE as int,
    ;

    lemma_mul_nonnegative(in_amt, out_res);
    lemma_trunc_div_nonneg(in_amt * out_res, k);
    let n1 = (in_amt * out_res) / k;
    lemma_div_pos_is_pos(in_amt * out_res, k);
    lemma_mul_nonnegative(n1, w);
    lemma_trunc_div_nonneg(n1 * w, k);
    let n2 = (n1 * w) / k;
    lemma_div_pos_is_pos(n1 * w, k);
    lemma_mul_nonnegative(n2, omf);
    lemma_trunc_div_nonneg(n2 * omf, k);
    let num = (n2 * omf) / k;
    lemma_div_pos_is_pos(n2 * omf, k);

    lemma_mul_nonnegative(in_res, w);
    lemma_trunc_div_nonneg(in_res * w, k);
    let d1 = (in_res * w) / k;
    lemma_mul_nonnegative(in_amt, w);
    lemma_trunc_div_nonneg(in_amt * w, k);
    let d2 = (in_amt * w) / k;
    lemma_div_pos_is_pos(in_amt * w, k);
    lemma_mul_nonnegative(d2, omf);
    lemma_trunc_div_nonneg(d2 * omf, k);
    let d3 = (d2 * omf) / k;
    lemma_div_pos_is_pos(d2 * omf, k);

    // The divisibility hypotheses make the denominator exact.
    lemma_fundamental_div_mod(in_res * w, k);
    lemma_fundamental_div_mod(in_amt * w, k);
    lemma_fundamental_div_mod(d2 * omf, k);
    assert(in_res * w == k * d1);
    assert(in_amt * w == k * d2);
    assert(d2 * omf == k * d3);

    lemma_div_is_ordered(k, in_res * w, k);
    vstd::arithmetic::div_mod::lemma_div_by_self(k);
    let den = d1 + d3;
    assert(den >= 1);

    lemma_mul_nonnegative(num, k);
    lemma_trunc_div_nonneg(num * k, den);
    let out = (num * k) / den;
    lemma_div_pos_is_pos(num * k, den);
    assert(spec_swap_output(in_amt, in_res, out_res, w, w, fee) == out);

    // Each division's remainder bounds the scaled-back value.
    lemma_fundamental_div_mod(num * k, den);
    lemma_mod_bound(num * k, den);
    assert(den * out <= num * k);
    lemma_fundamental_div_mod(n2 * omf, k);
    lemma_mod_bound(n2 * omf, k);
    assert(k * num <= n2 * omf);
    lemma_fundamental_div_mod(n1 * w, k);
    lemma_mod_bound(n1 * w, k);
    assert(k * n2 <= n1 * w);
    lemma_fundamental_div_mod(in_amt * out_res, k);
    lemma_mod_bound(in_amt * out_res, k);
    assert(k * n1 <= in_amt * out_res);

    assert(den * (k * k) == (in_res * w) * k + (in_amt * w) * omf) by (nonlinear_arith)
        requires
            in_res * w == k * d1,
            in_amt * w == k * d2,
            d2 * omf == k * d3,
            den == d1 + d3,
    ;

    assert(out * ((in_res * w) * k + (in_amt * w) * omf) <= num * ((k * k) * k))
        by (nonlinear_arith)
        requires
            den * out <= num * k,
            den * (k * k) == (in_res * w) * k + (in_amt * w) * omf,
            k > 0,
            out >= 0,
    ;

    assert(num * ((k * k) * k) <= (in_amt * out_res) * (w * omf)) by (nonlinear_arith)
        requires
            k * num <= n2 * omf,
            k * n2 <= n1 * w,
            k * n1 <= in_amt * out_res,
            k > 0,
            w > 0,
            omf > 0,
            n1 >= 0,
            n2 >= 0,
            num >= 0,
    ;

    assert(out * ((in_res * w) * k + (in_amt * w) * omf) <= (in_amt * out_res) * (w * omf));

    assert(out * (in_res * k + in_amt * omf) <= (in_amt * out_res) * omf) by (nonlinear_arith)
        requires
            out * ((in_res * w) * k + (in_amt * w) * omf) <= (in_amt * out_res) * (w * omf),
            k > 0,
            w > 0,
            omf > 0,
            out >= 0,
    ;

    assert(out < out_res) by (nonlinear_arith)
        requires
            out * (in_res * k + in_amt * omf) <= (in_amt * out_res) * omf,
            in_res >= 1,
            in_amt >= 1,
            out_res >= 1,
            k > omf,
            omf >= 1,
            out >= 0,
    ;

    assert(out * (in_res + in_amt) < in_amt * out_res) by (nonlinear_arith)
        requires
            out * (in_res * k + in_amt * omf) <= (in_amt * out_res) * omf,
            out < out_res,
            in_amt >= 1,
            k == omf + fee,
            fee >= 1,
            k > 0,
            out >= 0,
    ;

    assert((in_res + in_amt) * (out_res - out) > in_res * out_res) by (nonlinear_arith)
        requires
            out * (in_res + in_amt) < in_amt * out_res,
    ;
}

} // verus!
