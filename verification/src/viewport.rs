//! The viewport: the square region of the complex plane that an image shows,
//! and the mapping from pixels to points.

use crate::arith::{lemma_quot_bound, lemma_quot_negate, quot, unit, unit_of, MAX_PRECISION};
use crate::image::{ImageSize, MAX_SIDE};
use crate::point::{ComplexPoint, PointModel};
use vstd::prelude::*;

verus! {

/// The largest magnitude of a raw centre coordinate, and the largest raw
/// width: 2^61, so that every point of a viewport fits a machine word.
pub const COORDINATE_LIMIT: i64 = 0x2000_0000_0000_0000;

/// The percentage to which one scroll tick outward brings the width.
pub const WIDEN_PERCENT: i64 = 105;

/// The percentage to which one scroll tick inward brings the width.
pub const NARROW_PERCENT: i64 = 95;

/// The raw width below which a viewport asks for more fractional bits.
pub const DEEPEN_BELOW: i64 = 0x1_0000_0000;

/// The number of fractional bits that a viewport gains when it deepens.
pub const DEEPEN_BITS: u32 = 8;

/// The nearest raw coordinate within the limit.
pub open spec fn clamp_coordinate(x: int) -> int {
    if x < -COORDINATE_LIMIT {
        -COORDINATE_LIMIT
    } else if x > COORDINATE_LIMIT {
        COORDINATE_LIMIT as int
    } else {
        x
    }
}

/// The raw distance of the middle of pixel `p` from the centre of a viewport
/// of the given raw width, in an image with `side` pixels in a row.
pub open spec fn pixel_offset(p: int, width: int, side: int) -> int {
    quot((2 * p + 1 - side) * width, 2 * side)
}

/// The width after one scroll tick outward.
pub open spec fn widen(width: int) -> int {
    let scaled = (width * WIDEN_PERCENT) / 100;
    if scaled > COORDINATE_LIMIT {
        COORDINATE_LIMIT as int
    } else {
        scaled
    }
}

/// The width after one scroll tick inward.
pub open spec fn narrow(width: int) -> int {
    let scaled = (width * NARROW_PERCENT) / 100;
    if scaled < 1 {
        1
    } else {
        scaled
    }
}

/// The width after `ticks` scroll ticks: outward when positive, inward when
/// negative.
pub open spec fn zoom_width(width: int, ticks: int) -> int
    decreases (if ticks >= 0 { ticks } else { -ticks }),
{
    if ticks == 0 {
        width
    } else if ticks > 0 {
        zoom_width(widen(width), ticks - 1)
    } else {
        zoom_width(narrow(width), ticks + 1)
    }
}

/// The mathematical content of a [`Viewport`]: raw fixed-point values with
/// `precision` fractional bits.
pub struct ViewportModel {
    pub center_re: int,
    pub center_im: int,
    pub width: int,
    pub precision: nat,
}

impl ViewportModel {
    /// The width is positive, and the centre and the width are within the
    /// coordinate limit.
    pub open spec fn wf(self) -> bool {
        &&& self.precision <= MAX_PRECISION
        &&& -COORDINATE_LIMIT <= self.center_re <= COORDINATE_LIMIT
        &&& -COORDINATE_LIMIT <= self.center_im <= COORDINATE_LIMIT
        &&& 1 <= self.width <= COORDINATE_LIMIT
    }

    /// The point in the middle of pixel `(px, py)`.
    pub open spec fn sample_point(self, side: nat, px: nat, py: nat) -> PointModel {
        PointModel {
            re: self.center_re + pixel_offset(px as int, self.width, side as int),
            im: self.center_im + pixel_offset(py as int, self.width, side as int),
            precision: self.precision,
        }
    }

    /// The viewport after a drag by `(dx, dy)` pixels: the centre moves
    /// against the drag, by the width scaled with the drag's share of the
    /// image, and stops at the coordinate limit.
    pub open spec fn pan(self, dx: int, dy: int, side: nat) -> ViewportModel {
        ViewportModel {
            center_re: clamp_coordinate(self.center_re - quot(self.width * dx, side as int)),
            center_im: clamp_coordinate(self.center_im - quot(self.width * dy, side as int)),
            ..self
        }
    }

    /// The viewport after `ticks` scroll ticks.
    pub open spec fn zoom(self, ticks: int) -> ViewportModel {
        ViewportModel { width: zoom_width(self.width, ticks), ..self }
    }

    /// The viewport that shows the square around the rectangle with the
    /// corner pixels `(x0, y0)` and `(x1, y1)`: centred between the two
    /// corner points, as wide as the longer side. A rectangle whose corners
    /// map to the same point selects nothing.
    pub open spec fn select(self, side: nat, x0: nat, y0: nat, x1: nat, y1: nat) -> Option<
        ViewportModel,
    > {
        let a = self.sample_point(side, x0, y0);
        let b = self.sample_point(side, x1, y1);
        let across = if b.re >= a.re {
            b.re - a.re
        } else {
            a.re - b.re
        };
        let down = if b.im >= a.im {
            b.im - a.im
        } else {
            a.im - b.im
        };
        let extent = if across >= down {
            across
        } else {
            down
        };
        if extent == 0 {
            None
        } else {
            Some(
                ViewportModel {
                    center_re: clamp_coordinate(quot(a.re + b.re, 2)),
                    center_im: clamp_coordinate(quot(a.im + b.im, 2)),
                    width: extent,
                    precision: self.precision,
                },
            )
        }
    }

    /// The viewport with more fractional bits where its width has become
    /// small and there is room for them, and the viewport itself otherwise.
    pub open spec fn deepen(self) -> ViewportModel {
        let finer = self.refine(self.precision + DEEPEN_BITS as nat);
        if self.width < DEEPEN_BELOW && finer.wf() {
            finer
        } else {
            self
        }
    }

    /// The same region at a precision that is no lower: every raw value
    /// gains the additional fractional bits.
    pub open spec fn refine(self, precision: nat) -> ViewportModel {
        let factor = unit((precision - self.precision) as nat);
        ViewportModel {
            center_re: self.center_re * factor,
            center_im: self.center_im * factor,
            width: self.width * factor,
            precision,
        }
    }
}

/// A pixel of the image lies at most half the width from the centre.
pub proof fn lemma_pixel_offset_bound(p: int, width: int, side: int)
    requires
        0 <= p < side,
        1 <= width,
    ensures
        -((width + 1) / 2) <= pixel_offset(p, width, side) <= (width + 1) / 2,
{
    let half = (width + 1) / 2;
    let n = (2 * p + 1 - side) * width;
    assert(-(half * (2 * side)) <= n <= half * (2 * side)) by (nonlinear_arith)
        requires
            0 <= p < side,
            1 <= width,
            2 * half >= width,
            n == (2 * p + 1 - side) * width,
    ;
    lemma_quot_bound(n, 2 * side, half);
}

/// Pixels at the same distance from the two ends of a row or a column lie
/// at opposite offsets from the centre.
pub proof fn lemma_pixel_offset_mirror(p: int, width: int, side: int)
    requires
        side >= 1,
    ensures
        pixel_offset(side - 1 - p, width, side) == -pixel_offset(p, width, side),
{
    assert((2 * (side - 1 - p) + 1 - side) * width == -((2 * p + 1 - side) * width))
        by (nonlinear_arith);
    lemma_quot_negate((2 * p + 1 - side) * width, 2 * side);
}

/// Every sample point of a well-formed viewport is a well-formed point.
pub proof fn lemma_sample_point_wf(v: ViewportModel, side: nat, px: nat, py: nat)
    requires
        v.wf(),
        px < side,
        py < side,
    ensures
        v.sample_point(side, px, py).wf(),
{
    lemma_pixel_offset_bound(px as int, v.width, side as int);
    lemma_pixel_offset_bound(py as int, v.width, side as int);
}

/// A selection, where it selects anything, is a well-formed viewport of the
/// same precision, and so is what it deepens to.
pub proof fn lemma_select_wf(v: ViewportModel, side: nat, x0: nat, y0: nat, x1: nat, y1: nat)
    requires
        v.wf(),
        x0 < side,
        y0 < side,
        x1 < side,
        y1 < side,
    ensures
        v.select(side, x0, y0, x1, y1) matches Some(chosen) ==> chosen.wf() && chosen.precision
            == v.precision && chosen.deepen().wf() && chosen.deepen().precision >= v.precision,
{
    lemma_pixel_offset_bound(x0 as int, v.width, side as int);
    lemma_pixel_offset_bound(y0 as int, v.width, side as int);
    lemma_pixel_offset_bound(x1 as int, v.width, side as int);
    lemma_pixel_offset_bound(y1 as int, v.width, side as int);
}

/// One scroll tick keeps the width positive and within the limit.
pub proof fn lemma_zoom_step_bounds(width: int)
    requires
        1 <= width <= COORDINATE_LIMIT,
    ensures
        1 <= widen(width) <= COORDINATE_LIMIT,
        1 <= narrow(width) <= COORDINATE_LIMIT,
{
}

/// Any number of scroll ticks keeps the width positive and within the limit.
pub proof fn lemma_zoom_width_bounds(width: int, ticks: int)
    requires
        1 <= width <= COORDINATE_LIMIT,
    ensures
        1 <= zoom_width(width, ticks) <= COORDINATE_LIMIT,
    decreases (if ticks >= 0 { ticks } else { -ticks }),
{
    lemma_zoom_step_bounds(width);
    if ticks > 0 {
        lemma_zoom_width_bounds(widen(width), ticks - 1);
    } else if ticks < 0 {
        lemma_zoom_width_bounds(narrow(width), ticks + 1);
    }
}

fn clamp_to_limit(x: i128) -> (clamped: i64)
    ensures
        clamped == clamp_coordinate(x as int),
{
    if x < -(COORDINATE_LIMIT as i128) {
        -COORDINATE_LIMIT
    } else if x > COORDINATE_LIMIT as i128 {
        COORDINATE_LIMIT
    } else {
        x as i64
    }
}

fn offset_of(p: u32, width: i64, side: u32) -> (offset: i64)
    requires
        p < side <= MAX_SIDE,
        1 <= width <= COORDINATE_LIMIT,
    ensures
        offset == pixel_offset(p as int, width as int, side as int),
        -((width + 1) / 2) <= offset <= (width + 1) / 2,
{
    proof {
        lemma_pixel_offset_bound(p as int, width as int, side as int);
    }
    let steps: i128 = 2 * (p as i128) + 1 - (side as i128);
    assert(-0x4000 * 0x2000_0000_0000_0000 <= steps * width <= 0x4000 * 0x2000_0000_0000_0000)
        by (nonlinear_arith)
        requires
            -0x4000 <= steps <= 0x4000,
            1 <= width <= 0x2000_0000_0000_0000,
    ;
    let wide: i128 = steps * (width as i128);
    let offset: i128 = wide / (2 * (side as i128));
    offset as i64
}

/// The region of the complex plane that an image shows: a square around
/// `center`, `width` wide, in fixed-point values with `precision` fractional
/// bits.
#[derive(Clone, Copy, Debug, PartialEq, Eq)]
pub struct Viewport {
    center_re: i64,
    center_im: i64,
    width: i64,
    precision: u32,
}

impl View for Viewport {
    type V = ViewportModel;

    closed spec fn view(&self) -> ViewportModel {
        ViewportModel {
            center_re: self.center_re as int,
            center_im: self.center_im as int,
            width: self.width as int,
            precision: self.precision as nat,
        }
    }
}

impl Viewport {
    #[verifier::type_invariant]
    pub open spec fn wf(&self) -> bool {
        self@.wf()
    }

    /// The viewport with the given raw values, if they are admissible.
    pub fn new(center_re: i64, center_im: i64, width: i64, precision: u32) -> (viewport: Option<
        Viewport,
    >)
        ensures
            viewport is Some <==> (ViewportModel {
                center_re: center_re as int,
                center_im: center_im as int,
                width: width as int,
                precision: precision as nat,
            }).wf(),
            viewport matches Some(v) ==> v@ == (ViewportModel {
                center_re: center_re as int,
                center_im: center_im as int,
                width: width as int,
                precision: precision as nat,
            }),
    {
        if precision <= MAX_PRECISION && -COORDINATE_LIMIT <= center_re && center_re
            <= COORDINATE_LIMIT && -COORDINATE_LIMIT <= center_im && center_im <= COORDINATE_LIMIT
            && 1 <= width && width <= COORDINATE_LIMIT {
            Some(Viewport { center_re, center_im, width, precision })
        } else {
            None
        }
    }

    /// The raw real part of the centre.
    pub fn center_re(&self) -> (center_re: i64)
        ensures
            center_re == self@.center_re,
    {
        self.center_re
    }

    /// The raw imaginary part of the centre.
    pub fn center_im(&self) -> (center_im: i64)
        ensures
            center_im == self@.center_im,
    {
        self.center_im
    }

    /// The raw width.
    pub fn width(&self) -> (width: i64)
        ensures
            width == self@.width,
            width >= 1,
    {
        proof {
            use_type_invariant(self);
        }
        self.width
    }

    /// The number of fractional bits.
    pub fn precision(&self) -> (precision: u32)
        ensures
            precision == self@.precision,
            precision <= MAX_PRECISION,
    {
        proof {
            use_type_invariant(self);
        }
        self.precision
    }

    /// Whether two viewports show the same region at the same precision.
    pub fn same(&self, other: &Viewport) -> (same: bool)
        ensures
            same == (self@ == other@),
    {
        self.center_re == other.center_re && self.center_im == other.center_im && self.width
            == other.width && self.precision == other.precision
    }

    /// The viewport after a drag by `(dx, dy)` pixels across an image of the
    /// given size.
    pub fn panned(&self, dx: i32, dy: i32, size: ImageSize) -> (moved: Viewport)
        ensures
            moved@ == self@.pan(dx as int, dy as int, size@),
    {
        proof {
            use_type_invariant(self);
        }
        let side: i128 = size.side() as i128;
        assert(-0x2000_0000_0000_0000 * 0x8000_0000 <= self.width * dx <= 0x2000_0000_0000_0000
            * 0x8000_0000 && -0x2000_0000_0000_0000 * 0x8000_0000 <= self.width * dy
            <= 0x2000_0000_0000_0000 * 0x8000_0000) by (nonlinear_arith)
            requires
                1 <= self.width <= 0x2000_0000_0000_0000,
                -0x8000_0000 <= dx <= 0x8000_0000,
                -0x8000_0000 <= dy <= 0x8000_0000,
        ;
        let shift_re: i128 = ((self.width as i128) * (dx as i128)) / side;
        let shift_im: i128 = ((self.width as i128) * (dy as i128)) / side;
        proof {
            lemma_quot_bound(self.width * dx, side as int, 0x1000_0000_0000_0000_0000_0000int);
            lemma_quot_bound(self.width * dy, side as int, 0x1000_0000_0000_0000_0000_0000int);
        }
        Viewport {
            center_re: clamp_to_limit(self.center_re as i128 - shift_re),
            center_im: clamp_to_limit(self.center_im as i128 - shift_im),
            width: self.width,
            precision: self.precision,
        }
    }

    /// The viewport after `ticks` scroll ticks: each tick outward multiplies
    /// the width by 1.05, each tick inward by 0.95, never leaving the
    /// admissible widths.
    pub fn zoomed(&self, ticks: i32) -> (scaled: Viewport)
        ensures
            scaled@ == self@.zoom(ticks as int),
    {
        proof {
            use_type_invariant(self);
        }
        let mut width: i64 = self.width;
        let mut left: i32 = ticks;
        while left != 0
            invariant
                1 <= width <= COORDINATE_LIMIT,
                zoom_width(width as int, left as int) == zoom_width(
                    self.width as int,
                    ticks as int,
                ),
            decreases (if left >= 0 { left as int } else { -(left as int) }),
        {
            proof {
                lemma_zoom_step_bounds(width as int);
            }
            if left > 0 {
                let scaled: i128 = ((width as i128) * (WIDEN_PERCENT as i128)) / 100;
                width = if scaled > COORDINATE_LIMIT as i128 {
                    COORDINATE_LIMIT
                } else {
                    scaled as i64
                };
                left = left - 1;
            } else {
                let scaled: i128 = ((width as i128) * (NARROW_PERCENT as i128)) / 100;
                width = if scaled < 1 {
                    1
                } else {
                    scaled as i64
                };
                left = left + 1;
            }
        }
        Viewport {
            center_re: self.center_re,
            center_im: self.center_im,
            width,
            precision: self.precision,
        }
    }

    /// The viewport that a selection rectangle with the corner pixels
    /// `(x0, y0)` and `(x1, y1)` asks for, or `None` when a corner lies
    /// outside the image or the rectangle selects nothing.
    pub fn selected(&self, size: ImageSize, x0: u32, y0: u32, x1: u32, y1: u32) -> (chosen: Option<
        Viewport,
    >)
        ensures
            chosen is Some <==> x0 < size@ && y0 < size@ && x1 < size@ && y1 < size@
                && self@.select(size@, x0 as nat, y0 as nat, x1 as nat, y1 as nat) is Some,
            chosen matches Some(v) ==> self@.select(
                size@,
                x0 as nat,
                y0 as nat,
                x1 as nat,
                y1 as nat,
            ) == Some(v@),
    {
        proof {
            use_type_invariant(self);
        }
        let side: u32 = size.side();
        if x0 >= side || y0 >= side || x1 >= side || y1 >= side {
            return None;
        }
        let a_re: i64 = self.center_re + offset_of(x0, self.width, side);
        let a_im: i64 = self.center_im + offset_of(y0, self.width, side);
        let b_re: i64 = self.center_re + offset_of(x1, self.width, side);
        let b_im: i64 = self.center_im + offset_of(y1, self.width, side);
        let across: i64 = if b_re >= a_re {
            b_re - a_re
        } else {
            a_re - b_re
        };
        let down: i64 = if b_im >= a_im {
            b_im - a_im
        } else {
            a_im - b_im
        };
        let extent: i64 = if across >= down {
            across
        } else {
            down
        };
        if extent == 0 {
            None
        } else {
            let mid_re: i128 = (a_re as i128 + b_re as i128) / 2;
            let mid_im: i128 = (a_im as i128 + b_im as i128) / 2;
            Some(
                Viewport {
                    center_re: clamp_to_limit(mid_re),
                    center_im: clamp_to_limit(mid_im),
                    width: extent,
                    precision: self.precision,
                },
            )
        }
    }

    /// The same region with `precision` fractional bits, or `None` when
    /// `precision` is lower than the present one, is not admissible, or
    /// leaves no room for the centre or the width.
    pub fn refined(&self, precision: u32) -> (finer: Option<Viewport>)
        ensures
            finer is Some <==> self@.precision <= precision && self@.refine(precision as nat).wf(),
            finer matches Some(v) ==> v@ == self@.refine(precision as nat),
    {
        proof {
            use_type_invariant(self);
        }
        if precision < self.precision || precision > MAX_PRECISION {
            return None;
        }
        let factor: i128 = unit_of(precision - self.precision) as i128;
        let limit: i128 = COORDINATE_LIMIT as i128;
        assert(-0x2000_0000_0000_0000 * 0x1000_0000_0000_0000 <= self.center_re * factor
            <= 0x2000_0000_0000_0000 * 0x1000_0000_0000_0000 && -0x2000_0000_0000_0000
            * 0x1000_0000_0000_0000 <= self.center_im * factor <= 0x2000_0000_0000_0000
            * 0x1000_0000_0000_0000 && 1 <= self.width * factor <= 0x2000_0000_0000_0000
            * 0x1000_0000_0000_0000) by (nonlinear_arith)
            requires
                -0x2000_0000_0000_0000 <= self.center_re <= 0x2000_0000_0000_0000,
                -0x2000_0000_0000_0000 <= self.center_im <= 0x2000_0000_0000_0000,
                1 <= self.width <= 0x2000_0000_0000_0000,
                1 <= factor <= 0x1000_0000_0000_0000,
        ;
        let center_re: i128 = (self.center_re as i128) * factor;
        let center_im: i128 = (self.center_im as i128) * factor;
        let width: i128 = (self.width as i128) * factor;
        if center_re < -limit || center_re > limit || center_im < -limit || center_im > limit
            || width > limit {
            None
        } else {
            Some(
                Viewport {
                    center_re: center_re as i64,
                    center_im: center_im as i64,
                    width: width as i64,
                    precision,
                },
            )
        }
    }

    /// The viewport with [`DEEPEN_BITS`] more fractional bits where its raw
    /// width is below [`DEEPEN_BELOW`] and the finer values are admissible,
    /// and the viewport itself otherwise.
    pub fn deepened(&self) -> (deeper: Viewport)
        ensures
            deeper@ == self@.deepen(),
    {
        proof {
            use_type_invariant(self);
        }
        if self.width < DEEPEN_BELOW && self.precision <= MAX_PRECISION - DEEPEN_BITS {
            match self.refined(self.precision + DEEPEN_BITS) {
                Some(finer) => finer,
                None => *self,
            }
        } else {
            *self
        }
    }
}

/// The point of the complex plane in the middle of pixel `(px, py)` of an
/// image of the given size that shows `viewport`.
pub fn pixel_to_point(px: u32, py: u32, viewport: Viewport, image_size: ImageSize) -> (point:
    ComplexPoint)
    requires
        px < image_size@,
        py < image_size@,
    ensures
        point@ == viewport@.sample_point(image_size@, px as nat, py as nat),
{
    proof {
        use_type_invariant(&viewport);
        lemma_sample_point_wf(viewport@, image_size@, px as nat, py as nat);
    }
    let side: u32 = image_size.side();
    let re: i64 = viewport.center_re() + offset_of(px, viewport.width(), side);
    let im: i64 = viewport.center_im() + offset_of(py, viewport.width(), side);
    ComplexPoint::new(re, im, viewport.precision()).unwrap()
}

} // verus!
