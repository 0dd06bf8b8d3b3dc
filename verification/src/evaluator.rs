//! The escape-time iteration `z ← z² + c`.

use crate::arith::{
    fixed_mul, lemma_quot_bound, lemma_quot_exact, lemma_quot_negate, lemma_unit_bounds, mul_fixed,
    unit, unit_of, MAX_PRECISION,
};
use crate::point::{ComplexPoint, PointModel};
use vstd::prelude::*;

verus! {

/// A value of the iteration: the complex number `(re + im·i) / unit`.
pub struct Iterate {
    pub re: int,
    pub im: int,
}

impl Iterate {
    /// The starting value `0 + 0i`.
    pub open spec fn zero() -> Iterate {
        Iterate { re: 0, im: 0 }
    }

    /// Whether the squared magnitude exceeds four. The comparison is exact:
    /// both sides carry twice the fractional bits of the components.
    pub open spec fn outside(self, one: int) -> bool {
        self.re * self.re + self.im * self.im > 4 * one * one
    }

    /// The mirror image of the value in the real axis.
    pub open spec fn conjugate(self) -> Iterate {
        Iterate { im: -self.im, ..self }
    }

    /// One application of `z ← z² + c` in fixed-point arithmetic.
    pub open spec fn step(self, c: PointModel) -> Iterate {
        Iterate {
            re: fixed_mul(self.re, self.re, c.unit()) - fixed_mul(self.im, self.im, c.unit())
                + c.re,
            im: 2 * fixed_mul(self.re, self.im, c.unit()) + c.im,
        }
    }
}

/// The value of `z` after `n` applications of `z ← z² + c`, starting from zero.
pub open spec fn orbit(c: PointModel, n: nat) -> Iterate
    decreases n,
{
    if n == 0 {
        Iterate::zero()
    } else {
        orbit(c, (n - 1) as nat).step(c)
    }
}

/// Whether the iteration with index `i`, the one that produces the value
/// number `i + 1` of the orbit, leaves the disc of radius two.
pub open spec fn escapes_at(c: PointModel, i: nat) -> bool {
    orbit(c, i + 1).outside(c.unit())
}

/// The index of the first iteration among the first `budget` that escapes.
pub open spec fn escape_time(c: PointModel, budget: nat) -> Option<nat>
    decreases budget,
{
    if budget == 0 {
        None
    } else {
        match escape_time(c, (budget - 1) as nat) {
            Some(i) => Some(i),
            None => if escapes_at(c, (budget - 1) as nat) {
                Some((budget - 1) as nat)
            } else {
                None
            },
        }
    }
}

/// The outcome of evaluating one point.
#[derive(Clone, Copy, Debug, PartialEq, Eq)]
pub struct IterationResult {
    /// Whether the orbit left the disc of radius two within the budget.
    pub escaped: bool,
    /// The index of the iteration at which it did.
    pub escape_iteration: Option<u32>,
}

impl IterationResult {
    /// The result that reports the given escape time.
    pub open spec fn of(time: Option<nat>) -> IterationResult {
        match time {
            Some(i) => IterationResult { escaped: true, escape_iteration: Some(i as u32) },
            None => IterationResult { escaped: false, escape_iteration: None },
        }
    }

    /// The two fields agree, and an escape lies within the budget.
    pub open spec fn valid_for(self, max_iterations: u32) -> bool {
        &&& self.escaped <==> self.escape_iteration is Some
        &&& self.escape_iteration matches Some(i) ==> i < max_iterations
    }
}

/// `escape_time` is `None` exactly when no iteration below the budget
/// escapes, and otherwise names the least one that does.
pub proof fn lemma_escape_time_is_least(c: PointModel, budget: nat)
    ensures
        escape_time(c, budget) is None <==> forall|j: nat| j < budget ==> !escapes_at(c, j),
        escape_time(c, budget) matches Some(i) ==> {
            &&& i < budget
            &&& escapes_at(c, i)
            &&& forall|j: nat| j < i ==> !escapes_at(c, j)
        },
    decreases budget,
{
    if budget > 0 {
        lemma_escape_time_is_least(c, (budget - 1) as nat);
    }
}

/// Once an escape is found, a larger budget finds the same one.
pub proof fn lemma_escape_time_stable(c: PointModel, small: nat, large: nat)
    requires
        small <= large,
        escape_time(c, small) is Some,
    ensures
        escape_time(c, large) == escape_time(c, small),
    decreases large,
{
    if small < large {
        lemma_escape_time_stable(c, small, (large - 1) as nat);
    }
}

/// The first value of every orbit is the point itself.
pub proof fn lemma_orbit_starts_at_point(c: PointModel)
    requires
        c.wf(),
    ensures
        orbit(c, 1) == (Iterate { re: c.re, im: c.im }),
{
    lemma_unit_bounds(c.precision);
    lemma_quot_exact(0, c.unit());
    assert(orbit(c, 0) == Iterate::zero());
    assert(orbit(c, 1) == orbit(c, 0).step(c));
}

/// A point whose squared magnitude exceeds four escapes at iteration zero,
/// whatever the budget, as long as there is one iteration to run.
pub proof fn lemma_outer_point_escapes_at_once(c: PointModel, budget: nat)
    requires
        c.wf(),
        c.norm_sq() > 4 * c.unit() * c.unit(),
        budget >= 1,
    ensures
        escape_time(c, budget) == Some(0nat),
        IterationResult::of(escape_time(c, budget)) == (IterationResult {
            escaped: true,
            escape_iteration: Some(0u32),
        }),
{
    lemma_orbit_starts_at_point(c);
    assert(escapes_at(c, 0));
    assert(escape_time(c, 0) is None);
    assert(escape_time(c, 1) == Some(0nat));
    lemma_escape_time_stable(c, 1, budget);
}

/// The orbit of the origin stays at zero.
pub proof fn lemma_origin_orbit(precision: nat, n: nat)
    requires
        precision <= MAX_PRECISION,
    ensures
        orbit(PointModel::integral(0, 0, precision), n) == Iterate::zero(),
    decreases n,
{
    let c = PointModel::integral(0, 0, precision);
    if n > 0 {
        lemma_origin_orbit(precision, (n - 1) as nat);
        lemma_unit_bounds(precision);
        lemma_quot_exact(0, c.unit());
        assert(orbit(c, n) == orbit(c, (n - 1) as nat).step(c));
    }
}

/// The origin never escapes, whatever the budget.
pub proof fn lemma_origin_never_escapes(precision: nat, budget: nat)
    requires
        precision <= MAX_PRECISION,
    ensures
        escape_time(PointModel::integral(0, 0, precision), budget) is None,
        IterationResult::of(escape_time(PointModel::integral(0, 0, precision), budget)) == (
        IterationResult { escaped: false, escape_iteration: None }),
{
    let c = PointModel::integral(0, 0, precision);
    lemma_unit_bounds(precision);
    assert forall|j: nat| j < budget implies !escapes_at(c, j) by {
        lemma_origin_orbit(precision, j + 1);
        assert(4 * c.unit() * c.unit() >= 0) by (nonlinear_arith);
    }
    lemma_escape_time_is_least(c, budget);
}

/// The orbit of `-1` alternates between `0` and `-1`.
pub proof fn lemma_minus_one_orbit(precision: nat, n: nat)
    requires
        precision <= MAX_PRECISION,
    ensures
        orbit(PointModel::integral(-1, 0, precision), n) == (if n % 2 == 0 {
            Iterate::zero()
        } else {
            Iterate { re: -unit(precision), im: 0 }
        }),
    decreases n,
{
    let c = PointModel::integral(-1, 0, precision);
    let one = unit(precision);
    if n > 0 {
        lemma_minus_one_orbit(precision, (n - 1) as nat);
        lemma_unit_bounds(precision);
        lemma_quot_exact(0, one);
        lemma_quot_exact(one, one);
        assert((-one) * (-one) == one * one) by (nonlinear_arith);
        assert((-one) * 0 == 0 && 0 * one == 0 && -1 * one == -one) by (nonlinear_arith);
        assert(orbit(c, n) == orbit(c, (n - 1) as nat).step(c));
    }
}

/// The point `-1`, whose orbit has period two, never escapes, whatever the
/// budget.
pub proof fn lemma_minus_one_never_escapes(precision: nat, budget: nat)
    requires
        precision <= MAX_PRECISION,
    ensures
        escape_time(PointModel::integral(-1, 0, precision), budget) is None,
        IterationResult::of(escape_time(PointModel::integral(-1, 0, precision), budget)) == (
        IterationResult { escaped: false, escape_iteration: None }),
{
    let c = PointModel::integral(-1, 0, precision);
    let one = unit(precision);
    lemma_unit_bounds(precision);
    assert forall|j: nat| j < budget implies !escapes_at(c, j) by {
        lemma_minus_one_orbit(precision, j + 1);
        assert(4 * one * one >= 0 && (-one) * (-one) + 0 * 0 <= 4 * one * one)
            by (nonlinear_arith);
    }
    lemma_escape_time_is_least(c, budget);
}

/// The orbit of the mirror image of a point is the mirror image of its
/// orbit: rounding toward zero treats both signs alike.
pub proof fn lemma_orbit_conjugate(c: PointModel, n: nat)
    requires
        c.precision <= MAX_PRECISION,
    ensures
        orbit(c.conjugate(), n) == orbit(c, n).conjugate(),
    decreases n,
{
    if n > 0 {
        lemma_orbit_conjugate(c, (n - 1) as nat);
        lemma_unit_bounds(c.precision);
        let z = orbit(c, (n - 1) as nat);
        assert((-z.im) * (-z.im) == z.im * z.im && z.re * (-z.im) == -(z.re * z.im))
            by (nonlinear_arith);
        lemma_quot_negate(z.re * z.im, c.unit());
        assert(orbit(c, n) == z.step(c));
        assert(orbit(c.conjugate(), n) == z.conjugate().step(c.conjugate()));
    }
}

/// A point and its mirror image in the real axis escape at the same
/// iteration, or both not at all.
pub proof fn lemma_conjugate_symmetry(c: PointModel, budget: nat)
    requires
        c.precision <= MAX_PRECISION,
    ensures
        escape_time(c.conjugate(), budget) == escape_time(c, budget),
    decreases budget,
{
    if budget > 0 {
        lemma_conjugate_symmetry(c, (budget - 1) as nat);
        lemma_orbit_conjugate(c, budget);
        let z = orbit(c, budget);
        assert((-z.im) * (-z.im) == z.im * z.im) by (nonlinear_arith);
    }
}

/// A value inside the disc of radius two has components of magnitude at most two.
proof fn lemma_inside_bounds(z: Iterate, one: int)
    requires
        one > 0,
        !z.outside(one),
    ensures
        -2 * one <= z.re <= 2 * one,
        -2 * one <= z.im <= 2 * one,
{
    assert(-2 * one <= z.re <= 2 * one && -2 * one <= z.im <= 2 * one) by (nonlinear_arith)
        requires
            one > 0,
            z.re * z.re + z.im * z.im <= 4 * one * one,
    ;
}

/// A value with a component of magnitude above two lies outside the disc.
proof fn lemma_component_outside(z: Iterate, one: int)
    requires
        one > 0,
        z.re > 2 * one || z.re < -2 * one || z.im > 2 * one || z.im < -2 * one,
    ensures
        z.outside(one),
{
    assert(z.re * z.re + z.im * z.im > 4 * one * one) by (nonlinear_arith)
        requires
            one > 0,
            z.re > 2 * one || z.re < -2 * one || z.im > 2 * one || z.im < -2 * one,
    ;
}

/// The products that one step forms from a value inside the disc are at most
/// four in magnitude.
proof fn lemma_step_products(z: Iterate, one: int)
    requires
        one > 0,
        !z.outside(one),
    ensures
        0 <= fixed_mul(z.re, z.re, one) <= 4 * one,
        0 <= fixed_mul(z.im, z.im, one) <= 4 * one,
        -4 * one <= fixed_mul(z.re, z.im, one) <= 4 * one,
{
    lemma_inside_bounds(z, one);
    assert(0 <= z.re * z.re <= 4 * one * one && 0 <= z.im * z.im <= 4 * one * one && -(4 * one
        * one) <= z.re * z.im <= 4 * one * one) by (nonlinear_arith)
        requires
            -2 * one <= z.re <= 2 * one,
            -2 * one <= z.im <= 2 * one,
            one > 0,
    ;
    assert(4 * one * one == (4 * one) * one) by (nonlinear_arith);
    lemma_quot_bound(z.re * z.re, one, 4 * one);
    lemma_quot_bound(z.im * z.im, one, 4 * one);
    lemma_quot_bound(z.re * z.im, one, 4 * one);
    assert((z.re * z.re) / one >= 0 && (z.im * z.im) / one >= 0) by (nonlinear_arith)
        requires
            one > 0,
            z.re * z.re >= 0,
            z.im * z.im >= 0,
    ;
}

/// Runs the escape-time iteration for `c` with a budget of `max_iterations`.
///
/// Starting from `z = 0`, iteration `i` replaces `z` by `z² + c` and then
/// tests whether `|z|² > 4`. The result names the first iteration whose test
/// succeeds; when none of the first `max_iterations` does, the point counts as
/// not escaped.
pub fn evaluate(c: ComplexPoint, max_iterations: u32) -> (result: IterationResult)
    ensures
        result == IterationResult::of(escape_time(c@, max_iterations as nat)),
        result.valid_for(max_iterations),
        !result.escaped <==> forall|j: nat| j < max_iterations ==> !escapes_at(c@, j),
        result.escape_iteration matches Some(i) ==> {
            &&& escapes_at(c@, i as nat)
            &&& forall|j: nat| j < i ==> !escapes_at(c@, j)
        },
        c@.norm_sq() > 4 * c@.unit() * c@.unit() && max_iterations >= 1
            ==> result.escape_iteration == Some(0u32),
{
    proof {
        use_type_invariant(&c);
    }
    let one: i64 = unit_of(c.precision());
    let c_re: i64 = c.re_raw();
    let c_im: i64 = c.im_raw();
    let mut z_re: i64 = 0;
    let mut z_im: i64 = 0;
    let mut i: u32 = 0;
    proof {
        assert(4 * one * one >= 0) by (nonlinear_arith);
        if c@.norm_sq() > 4 * c@.unit() * c@.unit() && max_iterations >= 1 {
            lemma_outer_point_escapes_at_once(c@, max_iterations as nat);
        }
    }
    while i < max_iterations
        invariant
            i <= max_iterations,
            c@.norm_sq() > 4 * c@.unit() * c@.unit() && max_iterations >= 1 ==> escape_time(
                c@,
                max_iterations as nat,
            ) == Some(0nat),
            c@.wf(),
            one == c@.unit(),
            1 <= one <= 0x1000_0000_0000_0000,
            c_re == c@.re,
            c_im == c@.im,
            orbit(c@, i as nat) == (Iterate { re: z_re as int, im: z_im as int }),
            !orbit(c@, i as nat).outside(one as int),
            escape_time(c@, i as nat) is None,
        decreases max_iterations - i,
    {
        let ghost z = orbit(c@, i as nat);
        let ghost next = orbit(c@, (i + 1) as nat);
        proof {
            lemma_step_products(z, one as int);
            assert(next == z.step(c@));
        }
        let re_sq: i128 = mul_fixed(z_re, z_re, one);
        let im_sq: i128 = mul_fixed(z_im, z_im, one);
        let cross: i128 = mul_fixed(z_re, z_im, one);
        let next_re: i128 = re_sq - im_sq + c_re as i128;
        let next_im: i128 = 2 * cross + c_im as i128;
        let two: i128 = 2 * (one as i128);
        let far: bool = next_re > two || next_re < -two || next_im > two || next_im < -two;
        let mut outside: bool = far;
        if !far {
            assert(next_re * next_re + next_im * next_im <= 8 * one * one && 8 * one * one
                <= 0x0800_0000_0000_0000_0000_0000_0000_0000 && 0 <= next_re * next_re
                && 0 <= next_im * next_im && next_re * next_re <= 4 * one * one) by (nonlinear_arith)
                requires
                    -2 * one <= next_re <= 2 * one,
                    -2 * one <= next_im <= 2 * one,
                    1 <= one <= 0x1000_0000_0000_0000,
            ;
            assert(two * two == 4 * one * one && 0 <= two * two
                <= 0x0400_0000_0000_0000_0000_0000_0000_0000) by (nonlinear_arith)
                requires
                    two == 2 * one,
                    1 <= one <= 0x1000_0000_0000_0000,
            ;
            let norm_sq: i128 = next_re * next_re + next_im * next_im;
            let four: i128 = two * two;
            outside = norm_sq > four;
        } else {
            proof {
                lemma_component_outside(next, one as int);
            }
        }
        assert(outside == next.outside(one as int));
        if outside {
            proof {
                lemma_escape_time_stable(c@, (i + 1) as nat, max_iterations as nat);
                lemma_escape_time_is_least(c@, max_iterations as nat);
            }
            return IterationResult { escaped: true, escape_iteration: Some(i) };
        }
        proof {
            lemma_inside_bounds(next, one as int);
        }
        z_re = next_re as i64;
        z_im = next_im as i64;
        i = i + 1;
    }
    proof {
        lemma_escape_time_is_least(c@, max_iterations as nat);
    }
    IterationResult { escaped: false, escape_iteration: None }
}

} // verus!
