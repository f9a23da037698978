//! The degree clock: spends the fixed time step of each update tick against a
//! budget, and turns the indicator by one degree each time the budget runs out.

use vstd::prelude::*;

verus! {

/// Real time, in nanoseconds, that one degree of the indicator's turn takes:
/// a full turn takes very nearly one second.
pub const NANOS_PER_DEGREE: u64 = 2_777_800;

/// Degrees in a full turn; the angle wraps to 0 on reaching it.
pub const DEGREES_PER_TURN: u16 = 360;

/// The number of whole degrees that a step of `step` nanoseconds crosses when
/// `budget` nanoseconds were left before the next degree: the least `k >= 0`
/// with `budget - step + k * NANOS_PER_DEGREE >= 0`.
pub open spec fn degrees_crossed(budget: int, step: int) -> int {
    if step <= budget {
        0
    } else {
        (step - budget - 1) / (NANOS_PER_DEGREE as int) + 1
    }
}

/// The budget left once a step of `step` nanoseconds has been spent and each
/// crossed degree has paid one period back into it.
pub open spec fn budget_after(budget: int, step: int) -> int {
    budget - step + degrees_crossed(budget, step) * (NANOS_PER_DEGREE as int)
}

/// The angle after a step: one degree forward per crossed degree, wrapping at
/// a full turn.
pub open spec fn angle_after(angle: int, budget: int, step: int) -> int {
    (angle + degrees_crossed(budget, step)) % (DEGREES_PER_TURN as int)
}

/// What a clock holds: the indicator's angle in whole degrees, and the
/// nanoseconds left before its next degree.
pub ghost struct ClockView {
    pub angle: int,
    pub budget: int,
}

/// A clock in its valid range: angle within one turn, budget at most one period.
pub open spec fn clock_in_range(v: ClockView) -> bool {
    0 <= v.angle < DEGREES_PER_TURN as int && 0 <= v.budget <= NANOS_PER_DEGREE as int
}

/// The indicator's angle and the budget towards its next degree.
pub struct DegreeClock {
    degrees: u16,
    budget_ns: u64,
}

impl View for DegreeClock {
    type V = ClockView;

    closed spec fn view(&self) -> ClockView {
        ClockView { angle: self.degrees as int, budget: self.budget_ns as int }
    }
}

impl DegreeClock {
    #[verifier::type_invariant]
    spec fn in_range(&self) -> bool {
        &&& self.degrees < DEGREES_PER_TURN
        &&& self.budget_ns <= NANOS_PER_DEGREE
    }

    /// A clock at angle 0 with a full period to go before its first degree.
    pub fn new() -> (r: Self)
        ensures
            r@ == (ClockView { angle: 0, budget: NANOS_PER_DEGREE as int }),
    {
        DegreeClock { degrees: 0, budget_ns: NANOS_PER_DEGREE }
    }

    /// The angle in whole degrees.
    pub fn degrees(&self) -> (r: u16)
        ensures
            r == self@.angle,
            r < DEGREES_PER_TURN,
    {
        proof {
            use_type_invariant(self);
        }
        self.degrees
    }

    /// The nanoseconds left before the next degree.
    pub fn budget_ns(&self) -> (r: u64)
        ensures
            r == self@.budget,
            r <= NANOS_PER_DEGREE,
    {
        proof {
            use_type_invariant(self);
        }
        self.budget_ns
    }

    /// Spends one update tick's fixed step of `step_ns` nanoseconds. Each time
    /// the budget would fall below zero a period is paid back into it and the
    /// angle moves one degree on, wrapping at a full turn; a step may cross
    /// any number of degrees.
    pub fn advance(&mut self, step_ns: u64)
        ensures
            final(self)@.angle == angle_after(old(self)@.angle, old(self)@.budget, step_ns as int),
            final(self)@.budget == budget_after(old(self)@.budget, step_ns as int),
            clock_in_range(old(self)@),
            clock_in_range(final(self)@),
    {
        proof {
            use_type_invariant(&*self);
        }
        if step_ns <= self.budget_ns {
            self.budget_ns = self.budget_ns - step_ns;
        } else {
            let deficit: u64 = step_ns - self.budget_ns;
            let crossed: u64 = (deficit - 1) / NANOS_PER_DEGREE + 1;
            let rem: u64 = deficit % NANOS_PER_DEGREE;
            proof {
                lemma_settle(deficit as int);
            }
            self.budget_ns = if rem == 0 { 0 } else { NANOS_PER_DEGREE - rem };
            let turn: u64 = DEGREES_PER_TURN as u64;
            self.degrees = ((self.degrees as u64 + crossed % turn) % turn) as u16;
            assert((self.degrees as int) == angle_after(old(self)@.angle, old(self)@.budget, step_ns as int)) by {
                lemma_wrap(old(self)@.angle, crossed as int);
            }
        }
    }
}

/// One step keeps a clock in range, whatever its length: the angle stays
/// within a turn and the budget within one period.
pub proof fn lemma_step_stays_in_range(v: ClockView, step: int)
    requires
        clock_in_range(v),
        step >= 0,
    ensures
        clock_in_range(
            ClockView { angle: angle_after(v.angle, v.budget, step), budget: budget_after(v.budget, step) },
        ),
{
    if step > v.budget {
        lemma_settle(step - v.budget);
    }
}

/// The degrees crossed are exactly as many as paying one period back at a
/// time needs: the budget ends non-negative, and had one period fewer been
/// paid back it would have stayed below zero.
pub proof fn lemma_crossed_is_least(budget: int, step: int)
    requires
        0 <= budget,
        0 <= step,
    ensures
        degrees_crossed(budget, step) >= 0,
        budget_after(budget, step) >= 0,
        degrees_crossed(budget, step) > 0 ==> budget_after(budget, step) < NANOS_PER_DEGREE as int,
{
    if step > budget {
        lemma_settle(step - budget);
    }
}

/// A step of `n` whole periods, taken while less than a period is left in the
/// budget, moves the clock on by exactly `n` degrees and leaves the budget
/// where it was.
pub proof fn lemma_whole_periods(budget: int, n: int)
    requires
        0 <= budget < NANOS_PER_DEGREE as int,
        0 <= n,
    ensures
        degrees_crossed(budget, n * NANOS_PER_DEGREE as int) == n,
        budget_after(budget, n * NANOS_PER_DEGREE as int) == budget,
{
    let p = NANOS_PER_DEGREE as int;
    if n * p > budget {
        assert(n >= 1) by (nonlinear_arith)
            requires n * p > budget, budget >= 0, n >= 0;
        assert((n * p - budget - 1) / p == n - 1) by (nonlinear_arith)
            requires n >= 1, 0 <= budget < p, p > 0;
    } else {
        assert(n == 0) by (nonlinear_arith)
            requires n * p <= budget, budget < p, n >= 0, p > 0;
    }
}

/// The angle wraps: a step that carries it onto a full turn leaves it at 0,
/// never at 360.
pub proof fn lemma_wraps_to_zero(angle: int, budget: int, step: int)
    requires
        0 <= angle < DEGREES_PER_TURN as int,
        angle + degrees_crossed(budget, step) == DEGREES_PER_TURN as int,
    ensures
        angle_after(angle, budget, step) == 0,
{
}

/// A deficit of `d > 0` nanoseconds takes `(d - 1) / P + 1` periods to pay
/// off, leaving `P - d % P` over, or nothing when `d` is a whole number of
/// periods.
proof fn lemma_settle(d: int)
    requires
        d > 0,
    ensures
        ({
            let p = NANOS_PER_DEGREE as int;
            let k = (d - 1) / p + 1;
            &&& k * p - d == (if d % p == 0 { 0 } else { p - d % p })
            &&& k >= 1
        }),
{
    let p = NANOS_PER_DEGREE as int;
    let q = d / p;
    let r = d % p;
    assert(d == q * p + r && 0 <= r < p) by (nonlinear_arith)
        requires p > 0, q == d / p, r == d % p;
    if r == 0 {
        assert((d - 1) / p == q - 1) by (nonlinear_arith)
            requires d == q * p, p > 0, d > 0;
    } else {
        assert((d - 1) / p == q) by (nonlinear_arith)
            requires d == q * p + r, 0 < r < p;
    }
}

/// Adding `k % 360` and wrapping is the same as adding `k` and wrapping.
proof fn lemma_wrap(a: int, k: int)
    requires
        0 <= a,
        0 <= k,
    ensures
        (a + k % 360) % 360 == (a + k) % 360,
{
    vstd::arithmetic::div_mod::lemma_add_mod_noop(a, k, 360);
    vstd::arithmetic::div_mod::lemma_mod_twice(k, 360);
    vstd::arithmetic::div_mod::lemma_add_mod_noop(a, k % 360, 360);
}

} // verus!
