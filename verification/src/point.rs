//! Points of the complex plane in fixed-point representation.

use crate::arith::{unit, unit_of, MAX_PRECISION};
use vstd::prelude::*;

verus! {

/// The mathematical content of a [`ComplexPoint`]: the point
/// `(re + im·i) / 2^precision`.
pub struct PointModel {
    pub re: int,
    pub im: int,
    pub precision: nat,
}

impl PointModel {
    /// The components fit a machine word and the precision is admissible.
    pub open spec fn wf(self) -> bool {
        &&& self.precision <= MAX_PRECISION
        &&& i64::MIN <= self.re <= i64::MAX
        &&& i64::MIN <= self.im <= i64::MAX
    }

    /// The raw value of one at this point's precision.
    pub open spec fn unit(self) -> int {
        unit(self.precision)
    }

    /// The squared magnitude, with twice the point's fractional bits.
    pub open spec fn norm_sq(self) -> int {
        self.re * self.re + self.im * self.im
    }

    /// The mirror image of the point in the real axis.
    pub open spec fn conjugate(self) -> PointModel {
        PointModel { im: -self.im, ..self }
    }

    /// The point `re + im·i` with integer components, at the given precision.
    pub open spec fn integral(re: int, im: int, precision: nat) -> PointModel {
        PointModel { re: re * unit(precision), im: im * unit(precision), precision }
    }
}

/// A complex number whose real and imaginary parts are fixed-point values
/// with `precision` fractional bits.
#[derive(Clone, Copy, Debug, PartialEq, Eq)]
pub struct ComplexPoint {
    re: i64,
    im: i64,
    precision: u32,
}

impl View for ComplexPoint {
    type V = PointModel;

    closed spec fn view(&self) -> PointModel {
        PointModel { re: self.re as int, im: self.im as int, precision: self.precision as nat }
    }
}

impl ComplexPoint {
    #[verifier::type_invariant]
    pub open spec fn wf(&self) -> bool {
        self@.wf()
    }

    /// The point with the given raw components, or `None` when `precision`
    /// exceeds [`MAX_PRECISION`].
    pub fn new(re: i64, im: i64, precision: u32) -> (point: Option<ComplexPoint>)
        ensures
            point is Some <==> precision <= MAX_PRECISION,
            point matches Some(p) ==> p@ == (PointModel {
                re: re as int,
                im: im as int,
                precision: precision as nat,
            }),
    {
        if precision <= MAX_PRECISION {
            Some(ComplexPoint { re, im, precision })
        } else {
            None
        }
    }

    /// The point `re + im·i` for integers `re` and `im`, or `None` when the
    /// precision is not admissible or a component does not fit.
    pub fn from_integers(re: i32, im: i32, precision: u32) -> (point: Option<ComplexPoint>)
        ensures
            point is Some <==> PointModel::integral(re as int, im as int, precision as nat).wf(),
            point matches Some(p) ==> p@ == PointModel::integral(
                re as int,
                im as int,
                precision as nat,
            ),
    {
        if precision > MAX_PRECISION {
            return None;
        }
        let one: i128 = unit_of(precision) as i128;
        assert(-0x8000_0000_0000_0000_0000_0000 <= re * one <= 0x8000_0000_0000_0000_0000_0000
            && -0x8000_0000_0000_0000_0000_0000 <= im * one <= 0x8000_0000_0000_0000_0000_0000)
            by (nonlinear_arith)
            requires
                -0x8000_0000 <= re <= 0x8000_0000,
                -0x8000_0000 <= im <= 0x8000_0000,
                1 <= one <= 0x1000_0000_0000_0000,
        ;
        let wide_re: i128 = (re as i128) * one;
        let wide_im: i128 = (im as i128) * one;
        if wide_re < i64::MIN as i128 || wide_re > i64::MAX as i128 || wide_im < i64::MIN as i128
            || wide_im > i64::MAX as i128 {
            None
        } else {
            Some(ComplexPoint { re: wide_re as i64, im: wide_im as i64, precision })
        }
    }

    /// The raw real part.
    pub fn re_raw(&self) -> (re: i64)
        ensures
            re == self@.re,
    {
        self.re
    }

    /// The raw imaginary part.
    pub fn im_raw(&self) -> (im: i64)
        ensures
            im == self@.im,
    {
        self.im
    }

    /// The number of fractional bits.
    pub fn precision(&self) -> (precision: u32)
        ensures
            precision == self@.precision,
            precision <= MAX_PRECISION,
    {
        proof {
            use_type_invariant(self);
        }
        self.precision
    }
}

} // verus!
