//! The size of an image in pixels.

use vstd::prelude::*;

verus! {

/// The pixel counts of an image along its two axes.
#[derive(Clone, Copy, Debug, PartialEq, Eq, Structural)]
pub struct Resolution {
    pub width: u32,
    pub height: u32,
}

/// The product of two 32-bit counts fits 64 bits.
pub proof fn lemma_product_fits(a: u32, b: u32)
    ensures
        0 <= a as int * b as int <= 0xffff_fffe_0000_0001,
{
    assert(0 <= a as int * b as int <= 0xffff_fffe_0000_0001) by (nonlinear_arith)
        requires
            0 <= a <= 0xffff_ffff,
            0 <= b <= 0xffff_ffff,
    ;
}

impl Resolution {
    /// An image has at least one pixel along each axis.
    pub open spec fn valid(&self) -> bool {
        self.width > 0 && self.height > 0
    }

    /// The number of pixels of the image, row by row.
    pub open spec fn spec_pixel_count(&self) -> int {
        self.width as int * self.height as int
    }

    /// The resolution of `width` by `height` pixels, if there is such an image.
    pub fn new(width: u32, height: u32) -> (made: Option<Resolution>)
        ensures
            made == if width > 0 && height > 0 {
                Some(Resolution { width, height })
            } else {
                None
            },
    {
        if width > 0 && height > 0 {
            Some(Resolution { width, height })
        } else {
            None
        }
    }

    /// The number of pixels, where a buffer in memory can hold that many.
    pub fn pixel_count(&self) -> (count: Option<usize>)
        ensures
            count == if self.spec_pixel_count() <= usize::MAX {
                Some(self.spec_pixel_count() as usize)
            } else {
                None
            },
    {
        proof {
            lemma_product_fits(self.width, self.height);
        }
        let total: u64 = self.width as u64 * self.height as u64;
        if total <= usize::MAX as u64 {
            Some(total as usize)
        } else {
            None
        }
    }

    /// Whether a buffer of `len` pixels is one image of this resolution.
    pub fn fits(&self, len: usize) -> (ok: bool)
        ensures
            ok == (len == self.spec_pixel_count()),
    {
        proof {
            lemma_product_fits(self.width, self.height);
        }
        let total: u64 = self.width as u64 * self.height as u64;
        len as u64 == total
    }
}

} // verus!
