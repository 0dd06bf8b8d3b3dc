//! Square images: their size and their pixels in row-major order.

use crate::palette::Rgba;
use vstd::prelude::*;

verus! {

/// The largest admissible side length of an image, in pixels.
pub const MAX_SIDE: u32 = 16384;

/// The side length of a square image: at least one pixel, at most
/// [`MAX_SIDE`].
#[derive(Clone, Copy, Debug, PartialEq, Eq)]
pub struct ImageSize {
    side: u32,
}

impl View for ImageSize {
    type V = nat;

    closed spec fn view(&self) -> nat {
        self.side as nat
    }
}

impl ImageSize {
    #[verifier::type_invariant]
    pub open spec fn wf(&self) -> bool {
        1 <= self@ <= MAX_SIDE
    }

    /// The size with the given side length, if that is admissible.
    pub fn new(side: u32) -> (size: Option<ImageSize>)
        ensures
            size is Some <==> 1 <= side <= MAX_SIDE,
            size matches Some(s) ==> s@ == side,
    {
        if 1 <= side && side <= MAX_SIDE {
            Some(ImageSize { side })
        } else {
            None
        }
    }

    /// The number of pixels in a row, which is also the number of rows.
    pub fn side(&self) -> (side: u32)
        ensures
            side == self@,
            1 <= side <= MAX_SIDE,
    {
        proof {
            use_type_invariant(self);
        }
        self.side
    }

    /// The number of pixels in the image.
    pub fn pixel_count(&self) -> (count: usize)
        ensures
            count == self@ * self@,
            1 <= count <= 0x1000_0000,
    {
        proof {
            use_type_invariant(self);
            assert(1 <= self.side * self.side <= 0x1000_0000) by (nonlinear_arith)
                requires
                    1 <= self.side <= 16384,
            ;
        }
        (self.side as usize) * (self.side as usize)
    }

    /// Whether two sizes are the same.
    pub fn same(&self, other: &ImageSize) -> (same: bool)
        ensures
            same == (self@ == other@),
    {
        self.side == other.side
    }
}

/// The bytes of a sequence of pixels: four per pixel, in the order red,
/// green, blue, alpha.
pub open spec fn rgba_bytes(pixels: Seq<Rgba>) -> Seq<u8> {
    Seq::new(4 * pixels.len(), |k: int| pixels[k / 4].channels()[k % 4])
}

/// Flattens pixels into bytes, four per pixel.
pub fn flatten_rgba(pixels: &Vec<Rgba>) -> (bytes: Vec<u8>)
    ensures
        bytes@ == rgba_bytes(pixels@),
{
    let mut bytes: Vec<u8> = Vec::new();
    let mut i: usize = 0;
    while i < pixels.len()
        invariant
            i <= pixels.len(),
            bytes@ == rgba_bytes(pixels@.subrange(0, i as int)),
        decreases pixels.len() - i,
    {
        let pixel: Rgba = pixels[i];
        let ghost before = bytes@;
        bytes.push(pixel.red);
        bytes.push(pixel.green);
        bytes.push(pixel.blue);
        bytes.push(pixel.alpha);
        proof {
            let done = pixels@.subrange(0, i as int);
            let more = pixels@.subrange(0, i + 1);
            assert(bytes@ =~= rgba_bytes(more)) by {
                assert(bytes@.len() == 4 * more.len());
                assert forall|k: int| 0 <= k < bytes@.len() implies bytes@[k] == rgba_bytes(
                    more,
                )[k] by {
                    if k < 4 * i {
                        assert(bytes@[k] == before[k]);
                        assert(done[k / 4] == more[k / 4]);
                    } else {
                        assert(k / 4 == i);
                        assert(more[k / 4] == pixel);
                    }
                }
            }
        }
        i = i + 1;
    }
    assert(pixels@.subrange(0, i as int) =~= pixels@);
    bytes
}

/// The pixels of a square image, row after row.
#[derive(Debug, PartialEq, Eq)]
pub struct PixelBuffer {
    size: ImageSize,
    pixels: Vec<Rgba>,
}

impl View for PixelBuffer {
    type V = Seq<Rgba>;

    closed spec fn view(&self) -> Seq<Rgba> {
        self.pixels@
    }
}

impl Clone for PixelBuffer {
    fn clone(&self) -> (copy: PixelBuffer)
        ensures
            copy@ == self@,
            copy.side() == self.side(),
    {
        proof {
            use_type_invariant(self);
        }
        let mut pixels: Vec<Rgba> = Vec::new();
        let mut i: usize = 0;
        while i < self.pixels.len()
            invariant
                i <= self.pixels.len(),
                pixels@ == self.pixels@.subrange(0, i as int),
            decreases self.pixels.len() - i,
        {
            pixels.push(self.pixels[i]);
            assert(pixels@ =~= self.pixels@.subrange(0, i + 1));
            i = i + 1;
        }
        assert(self.pixels@.subrange(0, i as int) =~= self.pixels@);
        PixelBuffer { size: self.size, pixels }
    }
}

impl PixelBuffer {
    /// The side length of the image.
    pub closed spec fn side(&self) -> nat {
        self.size@
    }

    #[verifier::type_invariant]
    pub open spec fn wf(&self) -> bool {
        &&& 1 <= self.side() <= MAX_SIDE
        &&& self@.len() == self.side() * self.side()
    }

    /// The image of the given size with the given pixels, when there are as
    /// many pixels as the size asks for.
    pub fn from_pixels(size: ImageSize, pixels: Vec<Rgba>) -> (buffer: Option<PixelBuffer>)
        ensures
            buffer is Some <==> pixels@.len() == size@ * size@,
            buffer matches Some(b) ==> b@ == pixels@ && b.side() == size@,
    {
        if pixels.len() == size.pixel_count() {
            proof {
                use_type_invariant(size);
            }
            Some(PixelBuffer { size, pixels })
        } else {
            None
        }
    }

    /// The size of the image.
    pub fn size(&self) -> (size: ImageSize)
        ensures
            size@ == self.side(),
    {
        self.size
    }

    /// The pixels, row after row.
    pub fn pixels(&self) -> (pixels: &Vec<Rgba>)
        ensures
            pixels@ == self@,
    {
        &self.pixels
    }

    /// The pixel in column `x` of row `y`, if the image has one there.
    pub fn pixel(&self, x: u32, y: u32) -> (pixel: Option<Rgba>)
        ensures
            pixel is Some <==> x < self.side() && y < self.side(),
            pixel matches Some(p) ==> p == self@[y * self.side() + x],
    {
        proof {
            use_type_invariant(self);
        }
        let side: u32 = self.size.side();
        if x < side && y < side {
            assert(0 <= y * side + x < side * side) by (nonlinear_arith)
                requires
                    0 <= x < side,
                    0 <= y < side,
            ;
            assert(side * side <= 0x1000_0000) by (nonlinear_arith)
                requires
                    0 <= side <= 16384,
            ;
            let index: usize = (y as usize) * (side as usize) + (x as usize);
            Some(self.pixels[index])
        } else {
            None
        }
    }

    /// The bytes of the image, four per pixel, as a presentation surface
    /// takes them.
    pub fn to_rgba_bytes(&self) -> (bytes: Vec<u8>)
        ensures
            bytes@ == rgba_bytes(self@),
            bytes@.len() == 4 * (self.side() * self.side()),
    {
        proof {
            use_type_invariant(self);
        }
        flatten_rgba(&self.pixels)
    }
}

} // verus!
