//! Grayscale images.

use vstd::prelude::*;

verus! {

/// An 8-bit image, row by row.
#[derive(Debug, Clone, Copy)]
pub struct GrayImage<'a> {
    pub width: usize,
    pub height: usize,
    pub pixels: &'a [u8],
}

impl<'a> GrayImage<'a> {
    /// There is a pixel for each row and column.
    pub open spec fn wf(&self) -> bool {
        self.pixels@.len() == self.height * self.width
    }

    /// The pixel at row `v` and column `u`.
    pub open spec fn at(&self, v: int, u: int) -> u8 {
        self.pixels@[v * self.width + u]
    }

    /// The image is not empty, and the period in which its rows and columns recur when it is
    /// reflected at its borders can be held in 32 bits.
    pub open spec fn is_sized(&self) -> bool {
        &&& self.wf()
        &&& 0 < self.width
        &&& 0 < self.height
        &&& 2 * (self.width - 1) <= i32::MAX
        &&& 2 * (self.height - 1) <= i32::MAX
    }

    /// The pixels of the image can be counted in 32 bits.
    pub open spec fn is_countable(&self) -> bool {
        self.width * self.height <= u32::MAX
    }

    /// Width, height and pixels.
    pub open spec fn content(&self) -> (usize, usize, Seq<u8>) {
        (self.width, self.height, self.pixels@)
    }
}

/// The rows of an image follow one another, each as long as the image is wide: the pixel next to
/// another comes next, and the one below it a width later.
pub proof fn lemma_rows_follow(image: GrayImage<'_>, v: int, u: int)
    ensures
        image.at(0, u) == image.pixels@[u],
        image.at(v + 1, u) == image.at(v, u + image.width),
{
    assert((v + 1) * image.width + u == v * image.width + (u + image.width)) by (nonlinear_arith);
}

} // verus!
