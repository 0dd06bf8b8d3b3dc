//! The mapping from escape times to colours.

use vstd::prelude::*;

verus! {

/// The factor by which the red channel grows per remaining iteration.
pub const RED_SCALE: u32 = 9;

/// The factor by which the green channel grows per remaining iteration.
pub const GREEN_SCALE: u32 = 5;

/// The factor by which the blue channel grows per remaining iteration.
pub const BLUE_SCALE: u32 = 3;

/// A colour with an opacity, eight bits per channel.
#[derive(Clone, Copy, Debug, PartialEq, Eq)]
pub struct Rgba {
    pub red: u8,
    pub green: u8,
    pub blue: u8,
    pub alpha: u8,
}

impl Rgba {
    /// Opaque black, the colour of points that do not escape.
    pub open spec fn black() -> Rgba {
        Rgba { red: 0, green: 0, blue: 0, alpha: 255 }
    }

    /// The four channels in the order red, green, blue, alpha.
    pub open spec fn channels(self) -> Seq<u8> {
        seq![self.red, self.green, self.blue, self.alpha]
    }
}

/// The number of iterations of the budget that an escape left unused,
/// counting the escaping one. An escape outside the budget leaves none.
pub open spec fn remaining(escape_iteration: nat, max_iterations: nat) -> nat {
    if escape_iteration < max_iterations {
        (max_iterations - escape_iteration) as nat
    } else {
        0
    }
}

/// One channel: linear in the remaining iterations, wrapping around at 256.
pub open spec fn channel(remaining: nat, scale: nat) -> u8 {
    ((remaining * scale) % 256) as u8
}

/// The colour of a point, given when it escaped, if it did.
pub open spec fn palette(escape_iteration: Option<u32>, max_iterations: u32) -> Rgba {
    match escape_iteration {
        None => Rgba::black(),
        Some(i) => {
            let left = remaining(i as nat, max_iterations as nat);
            Rgba {
                red: channel(left, RED_SCALE as nat),
                green: channel(left, GREEN_SCALE as nat),
                blue: channel(left, BLUE_SCALE as nat),
                alpha: 255,
            }
        },
    }
}

fn channel_of(left: u32, scale: u32) -> (value: u8)
    ensures
        value == channel(left as nat, scale as nat),
{
    assert(0 <= left * scale <= 0xffff_ffff * 0xffff_ffff) by (nonlinear_arith)
        requires
            0 <= left <= 0xffff_ffff,
            0 <= scale <= 0xffff_ffff,
    ;
    let product: u64 = (left as u64) * (scale as u64);
    (product % 256) as u8
}

/// The colour of a point that escaped at `escape_iteration`, or of one that
/// did not escape within `max_iterations`.
///
/// The colour depends on nothing but the two arguments.
pub fn color_of(escape_iteration: Option<u32>, max_iterations: u32) -> (color: Rgba)
    ensures
        color == palette(escape_iteration, max_iterations),
{
    match escape_iteration {
        None => Rgba { red: 0, green: 0, blue: 0, alpha: 255 },
        Some(i) => {
            let left: u32 = if i < max_iterations {
                max_iterations - i
            } else {
                0
            };
            Rgba {
                red: channel_of(left, RED_SCALE),
                green: channel_of(left, GREEN_SCALE),
                blue: channel_of(left, BLUE_SCALE),
                alpha: 255,
            }
        },
    }
}

} // verus!
