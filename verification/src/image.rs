use crate::color::Color;
use crate::surface::{lemma_pixel_index_in_range, GridView, Surface};
use crate::vec2::{ivec2, IVec2};
use vstd::pervasive::VecAdditionalExecFns;
use vstd::prelude::*;

verus! {

/// A surface that owns its pixel storage: a contiguous row-major array of
/// packed colors, `width * height` of them, together with the size.
pub struct Image {
    pixels: Vec<u32>,
    size: IVec2,
}

impl Image {
    /// A `width` by `height` image with every pixel set to `color`. The
    /// dimensions must each fit a signed 32-bit coordinate and their
    /// product must be addressable.
    #[verifier::loop_isolation(false)]
    pub fn new(width: u32, height: u32, color: Color) -> (img: Image)
        requires
            width <= 0x7FFF_FFFFu32,
            height <= 0x7FFF_FFFFu32,
            width as int * height as int <= usize::MAX as int,
        ensures
            img.inv(),
            img.grid().wf(),
            img.grid().width == width as int,
            img.grid().height == height as int,
            forall|x: int, y: int| img.grid().contains(x, y) ==> img.grid().pixel(x, y) == color,
    {
        let n = (width as usize) * (height as usize);
        let mut pixels: Vec<u32> = Vec::new();
        while pixels.len() < n
            invariant
                pixels@.len() <= n,
                forall|j: int| 0 <= j < pixels@.len() ==> pixels@[j] == color.0,
            decreases n - pixels@.len(),
        {
            pixels.push(color.as_u32());
        }
        let img = Image { pixels, size: ivec2(width as i32, height as i32) };
        proof {
            assert forall|x: int, y: int| img.grid().contains(x, y) implies img.grid().pixel(
                x,
                y,
            ) == color by {
                lemma_pixel_index_in_range(img.grid(), x, y);
            }
        }
        img
    }

    /// Builds an image from `width * height` straight-alpha RGBA pixels,
    /// four bytes per pixel (red, green, blue, alpha) in row-major order,
    /// exactly as a decoded image file hands them over.
    #[verifier::loop_isolation(false)]
    pub fn from_rgba_bytes(width: u32, height: u32, bytes: &Vec<u8>) -> (img: Image)
        requires
            width <= 0x7FFF_FFFFu32,
            height <= 0x7FFF_FFFFu32,
            4 * (width as int * height as int) <= usize::MAX as int,
            bytes@.len() == 4 * (width as int * height as int),
        ensures
            img.inv(),
            img.grid().wf(),
            img.grid().width == width as int,
            img.grid().height == height as int,
            forall|x: int, y: int|
                img.grid().contains(x, y) ==> img.grid().pixel(x, y) == Color(
                    Color::spec_pack(
                        bytes@[4 * (y * width + x)],
                        bytes@[4 * (y * width + x) + 1],
                        bytes@[4 * (y * width + x) + 2],
                        bytes@[4 * (y * width + x) + 3],
                    ),
                ),
    {
        let n = (width as usize) * (height as usize);
        let mut pixels: Vec<u32> = Vec::new();
        let mut i: usize = 0;
        while i < n
            invariant
                i <= n,
                pixels@.len() == i,
                forall|j: int| 0 <= j < i ==> pixels@[j] == Color::spec_pack(
                    bytes@[4 * j],
                    bytes@[4 * j + 1],
                    bytes@[4 * j + 2],
                    bytes@[4 * j + 3],
                ),
            decreases n - i,
        {
            let r = bytes[4 * i];
            let g = bytes[4 * i + 1];
            let b = bytes[4 * i + 2];
            let a = bytes[4 * i + 3];
            pixels.push(Color::from_rgba(r, g, b, a).as_u32());
            i = i + 1;
        }
        let img = Image { pixels, size: ivec2(width as i32, height as i32) };
        proof {
            assert forall|x: int, y: int| img.grid().contains(x, y) implies img.grid().pixel(
                x,
                y,
            ) == Color(
                Color::spec_pack(
                    bytes@[4 * (y * width + x)],
                    bytes@[4 * (y * width + x) + 1],
                    bytes@[4 * (y * width + x) + 2],
                    bytes@[4 * (y * width + x) + 3],
                ),
            ) by {
                lemma_pixel_index_in_range(img.grid(), x, y);
            }
        }
        img
    }
}

impl Surface for Image {
    closed spec fn grid(&self) -> GridView {
        GridView {
            width: self.size.x as int,
            height: self.size.y as int,
            pixels: self.pixels@.map_values(|v: u32| Color(v)),
        }
    }

    closed spec fn inv(&self) -> bool {
        &&& 0 <= self.size.x
        &&& 0 <= self.size.y
        &&& self.pixels@.len() == self.size.x as int * self.size.y as int
    }

    fn get_pixel(&self, pos: IVec2) -> (c: Color) {
        proof {
            assert(self.pixels@.len() == self.pixels.len());
            lemma_pixel_index_in_range(self.grid(), pos.x as int, pos.y as int);
        }
        let idx = (pos.y as usize) * (self.size.x as usize) + (pos.x as usize);
        Color::from_u32(self.pixels[idx])
    }

    fn set_pixel(&mut self, pos: IVec2, color: Color) {
        proof {
            assert(self.pixels@.len() == self.pixels.len());
            lemma_pixel_index_in_range(self.grid(), pos.x as int, pos.y as int);
        }
        let idx = (pos.y as usize) * (self.size.x as usize) + (pos.x as usize);
        let ghost pixels0 = self.grid().pixels;
        self.pixels.set(idx, color.as_u32());
        proof {
            assert(self.grid().pixels =~= pixels0.update(idx as int, color));
        }
    }

    fn size(&self) -> (s: IVec2) {
        self.size
    }

    fn clear(&mut self, color: Color) {
        let n = self.pixels.len();
        let ghost size0 = self.size;
        let mut i: usize = 0;
        #[verifier::loop_isolation(false)]
        while i < n
            invariant
                i <= n,
                self.size == size0,
                self.pixels@.len() == n,
                forall|j: int| 0 <= j < i ==> self.pixels@[j] == color.0,
            decreases n - i,
        {
            self.pixels.set(i, color.as_u32());
            i = i + 1;
        }
        proof {
            assert forall|x: int, y: int| self.grid().contains(x, y) implies self.grid().pixel(
                x,
                y,
            ) == color by {
                lemma_pixel_index_in_range(self.grid(), x, y);
            }
        }
    }

}

} // verus!
