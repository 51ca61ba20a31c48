use crate::color::Color;
use crate::vec2::{ivec2, IVec2};
use vstd::prelude::*;

verus! {

/// The mathematical model of a 2D pixel grid: a width, a height, and the
/// pixels as one row-major sequence, so that the pixel at `(x, y)` sits at
/// index `y * width + x`.
pub struct GridView {
    pub width: int,
    pub height: int,
    pub pixels: Seq<Color>,
}

impl GridView {
    /// A well-formed grid: non-negative dimensions and exactly
    /// `width * height` pixels.
    pub open spec fn wf(self) -> bool {
        &&& 0 <= self.width
        &&& 0 <= self.height
        &&& self.pixels.len() == self.width * self.height
    }

    /// Whether `(x, y)` lies inside the grid.
    pub open spec fn contains(self, x: int, y: int) -> bool {
        0 <= x < self.width && 0 <= y < self.height
    }

    /// The pixel at `(x, y)`, through the canonical row-major mapping.
    pub open spec fn pixel(self, x: int, y: int) -> Color {
        self.pixels[y * self.width + x]
    }
}

/// The row-major index of an in-bounds position lies inside the pixel
/// sequence.
pub proof fn lemma_pixel_index_in_range(g: GridView, x: int, y: int)
    requires
        g.wf(),
        g.contains(x, y),
    ensures
        0 <= y * g.width + x < g.pixels.len(),
{
    let w = g.width;
    let h = g.height;
    assert(0 <= y * w + x < w * h) by (nonlinear_arith)
        requires
            0 <= x < w,
            0 <= y < h,
    ;
}

/// The row-major mapping is injective on in-bounds positions: two positions
/// with the same index are the same position.
pub proof fn lemma_pixel_index_injective(g: GridView, x1: int, y1: int, x2: int, y2: int)
    requires
        g.wf(),
        g.contains(x1, y1),
        g.contains(x2, y2),
        y1 * g.width + x1 == y2 * g.width + x2,
    ensures
        x1 == x2,
        y1 == y2,
{
    let w = g.width;
    assert(x1 == x2 && y1 == y2) by (nonlinear_arith)
        requires
            0 <= x1 < w,
            0 <= x2 < w,
            y1 * w + x1 == y2 * w + x2,
    ;
}

/// Two well-formed grids of the same dimensions whose pixels agree at every
/// in-bounds position hold equal pixel sequences.
pub proof fn lemma_pixelwise_eq(a: GridView, b: GridView)
    requires
        a.wf(),
        b.wf(),
        a.width == b.width,
        a.height == b.height,
        forall|x: int, y: int| a.contains(x, y) ==> a.pixel(x, y) == b.pixel(x, y),
    ensures
        a.pixels =~= b.pixels,
{
    assert forall|i: int| 0 <= i < a.pixels.len() implies a.pixels[i] == b.pixels[i] by {
        let w = a.width;
        vstd::arithmetic::div_mod::lemma_fundamental_div_mod(i, w);
        vstd::arithmetic::div_mod::lemma_mod_division_less_than_divisor(i, w);
        let x = i % w;
        let y = i / w;
        assert(0 <= y < a.height) by (nonlinear_arith)
            requires
                i == w * y + x,
                0 <= i < w * a.height,
                0 <= x < w,
        ;
        assert(i == y * w + x);
        assert(a.contains(x, y));
        assert(a.pixel(x, y) == b.pixel(x, y));
    }
}

/// The capability any 2D pixel store offers: read an in-bounds pixel, write
/// an in-bounds pixel, and report the current size. The model of a surface
/// is its `grid`; `inv` is the implementer's well-formedness invariant,
/// which every method preserves.
pub trait Surface: Sized {
    /// The abstract pixel grid this surface currently holds.
    spec fn grid(&self) -> GridView;

    /// The implementer's internal invariant; established at construction
    /// and preserved by every method.
    spec fn inv(&self) -> bool;

    /// The color stored at the in-bounds position `pos`.
    fn get_pixel(&self, pos: IVec2) -> (c: Color)
        requires
            self.inv(),
            self.grid().contains(pos.x as int, pos.y as int),
        ensures
            c == self.grid().pixel(pos.x as int, pos.y as int),
    ;

    /// Overwrites the pixel at the in-bounds position `pos` with `color`,
    /// leaving every other pixel and the size unchanged.
    fn set_pixel(&mut self, pos: IVec2, color: Color)
        requires
            old(self).inv(),
            old(self).grid().contains(pos.x as int, pos.y as int),
        ensures
            final(self).inv(),
            final(self).grid().width == old(self).grid().width,
            final(self).grid().height == old(self).grid().height,
            final(self).grid().pixels == old(self).grid().pixels.update(
                pos.y as int * old(self).grid().width + pos.x as int,
                color,
            ),
    ;

    /// The current size of the surface; reporting it also shows the grid
    /// is well formed.
    fn size(&self) -> (s: IVec2)
        requires
            self.inv(),
        ensures
            s.x as int == self.grid().width,
            s.y as int == self.grid().height,
            self.grid().wf(),
    ;

    /// Sets every pixel of the surface to `color`, row by row.
    #[verifier::loop_isolation(false)]
    fn clear(&mut self, color: Color)
        requires
            old(self).inv(),
        ensures
            final(self).inv(),
            final(self).grid().wf(),
            final(self).grid().width == old(self).grid().width,
            final(self).grid().height == old(self).grid().height,
            forall|x: int, y: int|
                final(self).grid().contains(x, y) ==> final(self).grid().pixel(x, y) == color,
    {
        let size = self.size();
        let ghost g0 = self.grid();
        let mut y: i32 = 0;
        while y < size.y
            invariant
                self.inv(),
                self.grid().wf(),
                self.grid().width == g0.width,
                self.grid().height == g0.height,
                0 <= y <= size.y,
                forall|px: int, py: int|
                    self.grid().contains(px, py) && py < y ==> self.grid().pixel(px, py) == color,
            decreases size.y - y,
        {
            let mut x: i32 = 0;
            while x < size.x
                invariant
                    self.inv(),
                    self.grid().wf(),
                    self.grid().width == g0.width,
                    self.grid().height == g0.height,
                    0 <= x <= size.x,
                    forall|px: int, py: int|
                        self.grid().contains(px, py) && (py < y || (py == y && px < x))
                            ==> self.grid().pixel(px, py) == color,
                decreases size.x - x,
            {
                let ghost before = self.grid();
                self.set_pixel(ivec2(x, y), color);
                proof {
                    lemma_pixel_index_in_range(before, x as int, y as int);
                    assert forall|px: int, py: int|
                        self.grid().contains(px, py) && (py < y || (py == y && px < x + 1))
                            implies self.grid().pixel(px, py) == color by {
                        lemma_pixel_index_in_range(before, px, py);
                        if !(px == x as int && py == y as int) {
                            if py * before.width + px == y as int * before.width + x as int {
                                lemma_pixel_index_injective(before, px, py, x as int, y as int);
                            }
                            assert(self.grid().pixel(px, py) == before.pixel(px, py));
                        }
                    }
                }
                x = x + 1;
            }
            y = y + 1;
        }
    }

    /// The canonical linear-storage index of `pos` in a row of length
    /// `width`: `pos.y * width + pos.x`.
    fn index(pos: IVec2, width: i32) -> (r: i32)
        requires
            0 <= pos.x < width,
            0 <= pos.y,
            pos.y * width + pos.x <= i32::MAX,
        ensures
            r == pos.y * width + pos.x,
    {
        pos.y * width + pos.x
    }
}

} // verus!
