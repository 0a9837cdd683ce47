//! The liquidity-bootstrapping pool: weight scheduling and swap pricing.
//!
//! The pool owns its immutable configuration (fee, initial and target
//! weights, duration, the two resource identifiers, start time) and the pair
//! of current weights. Custody of the assets lives in an external reserve:
//! the caller reads the reserve's balances and the clock and passes them in,
//! and a successful `swap` answers with the withdrawal it has priced, to be
//! executed against the reserve with rounding toward zero. Every
//! state-changing operation first refreshes the weights from the schedule;
//! on any error the pool is left unchanged.

use vstd::prelude::*;

use crate::decimal::{dec_div, dec_mul, div_trunc_i128, in_range, trunc_div, Decimal, DEC_MAX,
    DEC_ONE};

verus! {

/// Seconds in one calendar day of the schedule.
pub const SECONDS_PER_DAY: i64 = 86400;

/// Why an operation failed. Arithmetic failures cover division by zero and
/// any fixed-point result out of range; an unrecognized input asset is
/// rejected before any pricing. Errors raised by the external reserve are
/// the caller's to propagate; the pool never sees them.
#[derive(Clone, Copy, Debug, PartialEq, Eq, Structural)]
pub enum PoolError {
    InvalidAsset,
    ArithmeticError,
}

/// What a successful swap asks the caller to do against the reserve: after
/// depositing the full input amount, withdraw `output_amount` of
/// `output_resource`, rounding toward zero if the reserve cannot satisfy the
/// amount exactly.
#[derive(Clone, Copy, Debug, PartialEq, Eq, Structural)]
pub struct SwapOutcome {
    pub output_resource: u64,
    pub output_amount: Decimal,
}

/// A two-asset pool whose weights slide linearly from the initial to the
/// target pair over `duration` days from `start`.
#[derive(Clone, Copy, Debug, PartialEq, Eq, Structural)]
pub struct LinearBootstrapPool {
    pub fee: Decimal,
    pub initial_weight1: Decimal,
    pub initial_weight2: Decimal,
    pub target_weight1: Decimal,
    pub target_weight2: Decimal,
    pub weight1: Decimal,
    pub weight2: Decimal,
    pub duration: i64,
    pub resource1: u64,
    pub resource2: u64,
    pub start: i64,
}

/// The weight an endpoint pair yields at a given progress: the target
/// exactly once progress reaches one whole unit, otherwise the truncated
/// linear interpolation from the initial value. Progress below zero is not
/// clamped: a caller earlier than the start extrapolates backward.
pub open spec fn spec_weight(initial: int, target: int, progress: int) -> int {
    if progress >= DEC_ONE as int {
        target
    } else {
        initial + dec_mul(target - initial, progress)
    }
}

/// The swap formula: `in_amt * out_res * out_w * (1 - fee)` over
/// `in_res * in_w + in_amt * out_w * (1 - fee)`, every product and the final
/// quotient truncating toward zero in fixed point, in exactly the
/// association the pool computes them.
pub open spec fn spec_swap_output(
    in_amt: int,
    in_res: int,
    out_res: int,
    in_w: int,
    out_w: int,
    fee: int,
) -> int {
    let omf = DEC_ONE as int - fee;
    dec_div(
        dec_mul(dec_mul(dec_mul(in_amt, out_res), out_w), omf),
        dec_mul(in_res, in_w) + dec_mul(dec_mul(in_amt, out_w), omf),
    )
}

/// Whether every intermediate of the swap formula stays in range and the
/// denominator is nonzero: exactly when the pool can price the swap.
pub open spec fn swap_fits(
    in_amt: int,
    in_res: int,
    out_res: int,
    in_w: int,
    out_w: int,
    fee: int,
) -> bool {
    let omf = DEC_ONE as int - fee;
    let n1 = dec_mul(in_amt, out_res);
    let n2 = dec_mul(n1, out_w);
    let num = dec_mul(n2, omf);
    let d1 = dec_mul(in_res, in_w);
    let d2 = dec_mul(in_amt, out_w);
    let d3 = dec_mul(d2, omf);
    let den = d1 + d3;
    in_range(n1) && in_range(n2) && in_range(num) && in_range(d1) && in_range(d2) && in_range(d3)
        && in_range(den) && den != 0 && in_range(dec_div(num, den))
}

impl LinearBootstrapPool {
    /// Well-formedness: every stored decimal in range, the fee a fraction in
    /// `[0, 1)`, a positive duration, and two distinct resource kinds.
    pub open spec fn wf(&self) -> bool {
        &&& self.fee.wf()
        &&& 0 <= self.fee@ < DEC_ONE as int
        &&& self.initial_weight1.wf()
        &&& self.initial_weight2.wf()
        &&& self.target_weight1.wf()
        &&& self.target_weight2.wf()
        &&& self.weight1.wf()
        &&& self.weight2.wf()
        &&& self.duration >= 1
        &&& self.resource1 != self.resource2
    }

    /// Elapsed seconds over the schedule's total seconds, as a truncated
    /// fixed-point fraction; negative when `now` precedes the start.
    pub open spec fn spec_progress(&self, now: int) -> int {
        trunc_div(
            (now - self.start as int) * (DEC_ONE as int),
            self.duration as int * (SECONDS_PER_DAY as int),
        )
    }

    /// The weight pair the schedule yields at `now`.
    pub open spec fn scheduled_weight1(&self, now: int) -> int {
        spec_weight(self.initial_weight1@, self.target_weight1@, self.spec_progress(now))
    }

    /// The weight pair the schedule yields at `now`.
    pub open spec fn scheduled_weight2(&self, now: int) -> int {
        spec_weight(self.initial_weight2@, self.target_weight2@, self.spec_progress(now))
    }

    /// Whether the schedule's arithmetic stays in range at `now`. Once
    /// progress has reached one whole unit the target weights are returned
    /// verbatim and nothing can overflow.
    pub open spec fn schedule_fits(&self, now: int) -> bool {
        let p = self.spec_progress(now);
        p >= DEC_ONE as int || {
            &&& in_range(p)
            &&& in_range(self.target_weight1@ - self.initial_weight1@)
            &&& in_range(dec_mul(self.target_weight1@ - self.initial_weight1@, p))
            &&& in_range(self.scheduled_weight1(now))
            &&& in_range(self.target_weight2@ - self.initial_weight2@)
            &&& in_range(dec_mul(self.target_weight2@ - self.initial_weight2@, p))
            &&& in_range(self.scheduled_weight2(now))
        }
    }

    /// Whether `res` is one of the pool's two registered resource kinds.
    pub open spec fn is_pool_resource(&self, res: u64) -> bool {
        res == self.resource1 || res == self.resource2
    }

    /// The registered resource kind opposite to `res`.
    pub open spec fn other_resource(&self, res: u64) -> u64 {
        if res == self.resource1 {
            self.resource2
        } else {
            self.resource1
        }
    }

    /// The input-side reserve balance a swap of `input` sees.
    pub open spec fn swap_in_reserve(&self, input: u64, r1: int, r2: int) -> int {
        if input == self.resource1 {
            r1
        } else {
            r2
        }
    }

    /// The output-side reserve balance a swap of `input` sees.
    pub open spec fn swap_out_reserve(&self, input: u64, r1: int, r2: int) -> int {
        if input == self.resource1 {
            r2
        } else {
            r1
        }
    }

    /// The refreshed weight on the input side of a swap of `input`.
    pub open spec fn swap_in_weight(&self, input: u64, now: int) -> int {
        if input == self.resource1 {
            self.scheduled_weight1(now)
        } else {
            self.scheduled_weight2(now)
        }
    }

    /// The refreshed weight on the output side of a swap of `input`.
    pub open spec fn swap_out_weight(&self, input: u64, now: int) -> int {
        if input == self.resource1 {
            self.scheduled_weight2(now)
        } else {
            self.scheduled_weight1(now)
        }
    }

    /// Whether a swap succeeds: the schedule refreshes in range, the input
    /// kind is registered, and the formula's arithmetic stays in range.
    pub open spec fn swap_ok(&self, input: u64, in_amt: int, r1: int, r2: int, now: int) -> bool {
        &&& self.schedule_fits(now)
        &&& self.is_pool_resource(input)
        &&& swap_fits(
            in_amt,
            self.swap_in_reserve(input, r1, r2),
            self.swap_out_reserve(input, r1, r2),
            self.swap_in_weight(input, now),
            self.swap_out_weight(input, now),
            self.fee@,
        )
    }

    /// The amount a successful swap pays out.
    pub open spec fn spec_swap_result(
        &self,
        input: u64,
        in_amt: int,
        r1: int,
        r2: int,
        now: int,
    ) -> int {
        spec_swap_output(
            in_amt,
            self.swap_in_reserve(input, r1, r2),
            self.swap_out_reserve(input, r1, r2),
            self.swap_in_weight(input, now),
            self.swap_out_weight(input, now),
            self.fee@,
        )
    }

    /// Whether everything but the pair of current weights agrees with
    /// `other`: the configuration is immutable after construction.
    pub open spec fn same_config(&self, other: &LinearBootstrapPool) -> bool {
        &&& self.fee == other.fee
        &&& self.initial_weight1 == other.initial_weight1
        &&& self.initial_weight2 == other.initial_weight2
        &&& self.target_weight1 == other.target_weight1
        &&& self.target_weight2 == other.target_weight2
        &&& self.duration == other.duration
        &&& self.resource1 == other.resource1
        &&& self.resource2 == other.resource2
        &&& self.start == other.start
    }

    /// Creates the pool at time `now` with the weights at their initial
    /// values. The caller contributes the two initial deposits to the
    /// reserve itself; the pool records only the two resource kinds.
    pub fn new(
        resource1: u64,
        resource2: u64,
        initial_weight1: Decimal,
        initial_weight2: Decimal,
        target_weight1: Decimal,
        target_weight2: Decimal,
        fee: Decimal,
        duration: i64,
        now: i64,
    ) -> (p: LinearBootstrapPool)
        requires
            resource1 != resource2,
            initial_weight1.wf(),
            initial_weight2.wf(),
            target_weight1.wf(),
            target_weight2.wf(),
            fee.wf(),
            0 <= fee@ < DEC_ONE as int,
            duration >= 1,
        ensures
            p.wf(),
            p.fee == fee,
            p.initial_weight1 == initial_weight1,
            p.initial_weight2 == initial_weight2,
            p.target_weight1 == target_weight1,
            p.target_weight2 == target_weight2,
            p.weight1 == initial_weight1,
            p.weight2 == initial_weight2,
            p.duration == duration,
            p.resource1 == resource1,
            p.resource2 == resource2,
            p.start == now,
    {
        LinearBootstrapPool {
            fee,
            initial_weight1,
            initial_weight2,
            target_weight1,
            target_weight2,
            weight1: initial_weight1,
            weight2: initial_weight2,
            duration,
            resource1,
            resource2,
            start: now,
        }
    }

    /// One endpoint's truncated interpolation toward its target.
    fn lerp(initial: Decimal, target: Decimal, progress: Decimal) -> (r: Option<Decimal>)
        requires
            initial.wf(),
            target.wf(),
            progress.wf(),
        ensures
            r is Some <==> {
                &&& in_range(target@ - initial@)
                &&& in_range(dec_mul(target@ - initial@, progress@))
                &&& in_range(initial@ + dec_mul(target@ - initial@, progress@))
            },
            r matches Some(d) ==> d@ == initial@ + dec_mul(target@ - initial@, progress@)
                && d.wf(),
    {
        let diff: Decimal = match target.checked_sub(initial) {
            Some(v) => v,
            None => {
                return None;
            },
        };
        let scaled: Decimal = match diff.checked_mul(progress) {
            Some(v) => v,
            None => {
                return None;
            },
        };
        initial.checked_add(scaled)
    }

    /// The weight pair the schedule yields at `now`, or an arithmetic error
    /// when some intermediate leaves the representable range.
    fn compute_weights(&self, now: i64) -> (r: Result<(Decimal, Decimal), PoolError>)
        requires
            self.wf(),
        ensures
            r is Ok <==> self.schedule_fits(now as int),
            match r {
                Ok(ws) => ws.0@ == self.scheduled_weight1(now as int) && ws.1@
                    == self.scheduled_weight2(now as int) && ws.0.wf() && ws.1.wf(),
                Err(e) => e == PoolError::ArithmeticError,
            },
    {
        let elapsed: i128 = (now as i128) - (self.start as i128);
        let total: i128 = (self.duration as i128) * (SECONDS_PER_DAY as i128);
        let scaled: i128 = elapsed * (DEC_ONE as i128);
        let p: i128 = div_trunc_i128(scaled, total);
        if p >= DEC_ONE {
            return Ok((self.target_weight1, self.target_weight2));
        }
        if p < -DEC_MAX {
            return Err(PoolError::ArithmeticError);
        }
        let progress = Decimal { picos: p };
        let w1: Decimal = match Self::lerp(self.initial_weight1, self.target_weight1, progress) {
            Some(v) => v,
            None => {
                return Err(PoolError::ArithmeticError);
            },
        };
        let w2: Decimal = match Self::lerp(self.initial_weight2, self.target_weight2, progress) {
            Some(v) => v,
            None => {
                return Err(PoolError::ArithmeticError);
            },
        };
        Ok((w1, w2))
    }

    /// Refreshes the current weights from the schedule at `now`. On an
    /// arithmetic error the pool is unchanged.
    pub fn set_weights(&mut self, now: i64) -> (r: Result<(), PoolError>)
        requires
            old(self).wf(),
        ensures
            r is Ok <==> old(self).schedule_fits(now as int),
            final(self).wf(),
            match r {
                Ok(()) => final(self).same_config(old(self)) && final(self).weight1@ == old(
                    self,
                ).scheduled_weight1(now as int) && final(self).weight2@ == old(
                    self,
                ).scheduled_weight2(now as int),
                Err(e) => e == PoolError::ArithmeticError && *final(self) == *old(self),
            },
    {
        let ws: (Decimal, Decimal) = match self.compute_weights(now) {
            Ok(ws) => ws,
            Err(e) => {
                return Err(e);
            },
        };
        self.weight1 = ws.0;
        self.weight2 = ws.1;
        Ok(())
    }

    /// Burns pool shares for a proportional slice of both reserves. The
    /// redemption itself is the reserve's own proportional rule, performed
    /// by the caller; the pool's contribution is the weight refresh that
    /// precedes every state-changing operation.
    pub fn remove_liquidity(&mut self, now: i64) -> (r: Result<(), PoolError>)
        requires
            old(self).wf(),
        ensures
            r is Ok <==> old(self).schedule_fits(now as int),
            final(self).wf(),
            match r {
                Ok(()) => final(self).same_config(old(self)) && final(self).weight1@ == old(
                    self,
                ).scheduled_weight1(now as int) && final(self).weight2@ == old(
                    self,
                ).scheduled_weight2(now as int),
                Err(e) => e == PoolError::ArithmeticError && *final(self) == *old(self),
            },
    {
        self.set_weights(now)
    }

    /// Prices and commits a swap: refreshes the weights at `now`, checks the
    /// input kind, and computes the output amount from the reserve balances
    /// `reserve1` and `reserve2` (read before the input deposit). On success
    /// the weights are updated and the returned outcome names the withdrawal
    /// the caller performs; on any error the pool is unchanged.
    pub fn swap(
        &mut self,
        input_resource: u64,
        input_amount: Decimal,
        reserve1: Decimal,
        reserve2: Decimal,
        now: i64,
    ) -> (r: Result<SwapOutcome, PoolError>)
        requires
            old(self).wf(),
            input_amount.wf(),
            reserve1.wf(),
            reserve2.wf(),
        ensures
            r is Ok <==> old(self).swap_ok(
                input_resource,
                input_amount@,
                reserve1@,
                reserve2@,
                now as int,
            ),
            final(self).wf(),
            match r {
                Ok(out) => {
                    &&& final(self).same_config(old(self))
                    &&& final(self).weight1@ == old(self).scheduled_weight1(now as int)
                    &&& final(self).weight2@ == old(self).scheduled_weight2(now as int)
                    &&& out.output_resource == old(self).other_resource(input_resource)
                    &&& out.output_amount@ == old(self).spec_swap_result(
                        input_resource,
                        input_amount@,
                        reserve1@,
                        reserve2@,
                        now as int,
                    )
                    &&& out.output_amount.wf()
                },
                Err(e) => *final(self) == *old(self) && (if !old(self).schedule_fits(
                    now as int,
                ) {
                    e == PoolError::ArithmeticError
                } else if !old(self).is_pool_resource(input_resource) {
                    e == PoolError::InvalidAsset
                } else {
                    e == PoolError::ArithmeticError
                }),
            },
    {
        let ws: (Decimal, Decimal) = match self.compute_weights(now) {
            Ok(ws) => ws,
            Err(e) => {
                return Err(e);
            },
        };
        if input_resource != self.resource1 && input_resource != self.resource2 {
            return Err(PoolError::InvalidAsset);
        }
        let is_first: bool = input_resource == self.resource1;
        let in_res: Decimal = if is_first {
            reserve1
        } else {
            reserve2
        };
        let out_res: Decimal = if is_first {
            reserve2
        } else {
            reserve1
        };
        let in_w: Decimal = if is_first {
            ws.0
        } else {
            ws.1
        };
        let out_w: Decimal = if is_first {
            ws.1
        } else {
            ws.0
        };
        let output_resource: u64 = if is_first {
            self.resource2
        } else {
            self.resource1
        };
        let omf = Decimal { picos: DEC_ONE - self.fee.picos };
        let n1: Decimal = match input_amount.checked_mul(out_res) {
            Some(v) => v,
            None => {
                return Err(PoolError::ArithmeticError);
            },
        };
        let n2: Decimal = match n1.checked_mul(out_w) {
            Some(v) => v,
            None => {
                return Err(PoolError::ArithmeticError);
            },
        };
        let num: Decimal = match n2.checked_mul(omf) {
            Some(v) => v,
            None => {
                return Err(PoolError::ArithmeticError);
            },
        };
        let d1: Decimal = match in_res.checked_mul(in_w) {
            Some(v) => v,
            None => {
                return Err(PoolError::ArithmeticError);
            },
        };
        let d2: Decimal = match input_amount.checked_mul(out_w) {
            Some(v) => v,
            None => {
                return Err(PoolError::ArithmeticError);
            },
        };
        let d3: Decimal = match d2.checked_mul(omf) {
            Some(v) => v,
            None => {
                return Err(PoolError::ArithmeticError);
            },
        };
        let den: Decimal = match d1.checked_add(d3) {
            Some(v) => v,
            None => {
                return Err(PoolError::ArithmeticError);
            },
        };
        let output_amount: Decimal = match num.checked_div(den) {
            Some(v) => v,
            None => {
                return Err(PoolError::ArithmeticError);
            },
        };
        self.weight1 = ws.0;
        self.weight2 = ws.1;
        Ok(SwapOutcome { output_resource, output_amount })
    }

    /// The spot ratio of the two reserve balances in registration order:
    /// the second balance over the first, truncated toward zero. Reads the
    /// balances only; the weights are deliberately not refreshed and do not
    /// enter the ratio. Fails with an arithmetic error when the first
    /// balance is zero or the quotient leaves the representable range.
    pub fn get_resource1_price(&self, reserve1: Decimal, reserve2: Decimal) -> (r: Result<
        Decimal,
        PoolError,
    >)
        requires
            reserve1.wf(),
            reserve2.wf(),
        ensures
            r is Ok <==> reserve1@ != 0 && in_range(dec_div(reserve2@, reserve1@)),
            match r {
                Ok(p) => p@ == dec_div(reserve2@, reserve1@) && p.wf(),
                Err(e) => e == PoolError::ArithmeticError,
            },
    {
        match reserve2.checked_div(reserve1) {
            Some(p) => Ok(p),
            None => Err(PoolError::ArithmeticError),
        }
    }
}

} // verus!
