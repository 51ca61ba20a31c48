use crate::color::Color;
use crate::surface::{
    lemma_pixel_index_in_range, lemma_pixel_index_injective, lemma_pixelwise_eq, GridView, Surface,
};
use crate::vec2::{ivec2, IVec2};
use vstd::prelude::*;

verus! {

/// The geometry of a same-size copy: where the copied rectangle starts in
/// the source, where it lands in the destination, and its size.
pub struct CopyGeom {
    pub src_x: int,
    pub src_y: int,
    pub dst_x: int,
    pub dst_y: int,
    pub size_x: int,
    pub size_y: int,
}

/// Whether the same-size copy writes the destination position `(dx, dy)`:
/// the position lies in the copied rectangle, the matching source position
/// is inside the source, and the source pixel there is not fully
/// transparent.
pub open spec fn same_size_hit(src: GridView, g: CopyGeom, dx: int, dy: int) -> bool {
    let xo = dx - g.dst_x;
    let yo = dy - g.dst_y;
    &&& 0 <= xo < g.size_x
    &&& 0 <= yo < g.size_y
    &&& src.contains(g.src_x + xo, g.src_y + yo)
    &&& src.pixel(g.src_x + xo, g.src_y + yo).spec_a() != 0
}

/// The value a destination pixel holds after a same-size copy: the matching
/// source pixel where the copy hits, the old destination pixel everywhere
/// else.
pub open spec fn same_size_pixel(
    dst0: GridView,
    src: GridView,
    g: CopyGeom,
    dx: int,
    dy: int,
) -> Color {
    if same_size_hit(src, g, dx, dy) {
        src.pixel(g.src_x + (dx - g.dst_x), g.src_y + (dy - g.dst_y))
    } else {
        dst0.pixel(dx, dy)
    }
}

/// Relates the destination before (`dst0`) and after (`dst1`) a same-size
/// copy from `src` with geometry `g`: the size is unchanged and every
/// in-bounds pixel holds exactly `same_size_pixel`.
pub open spec fn same_size_post(
    dst0: GridView,
    dst1: GridView,
    src: GridView,
    g: CopyGeom,
) -> bool {
    &&& dst1.width == dst0.width
    &&& dst1.height == dst0.height
    &&& forall|dx: int, dy: int|
        dst1.contains(dx, dy) ==> dst1.pixel(dx, dy) == same_size_pixel(dst0, src, g, dx, dy)
}

/// The destination pixel after the copy has handled the first `rows` full
/// rows of the rectangle and, in row `rows`, the first `cols` columns.
spec fn same_size_pixel_upto(
    dst0: GridView,
    src: GridView,
    g: CopyGeom,
    rows: int,
    cols: int,
    dx: int,
    dy: int,
) -> Color {
    let xo = dx - g.dst_x;
    let yo = dy - g.dst_y;
    if same_size_hit(src, g, dx, dy) && (yo < rows || (yo == rows && xo < cols)) {
        src.pixel(g.src_x + xo, g.src_y + yo)
    } else {
        dst0.pixel(dx, dy)
    }
}

/// Copies the `size` rectangle of `src` starting at `src_pos` onto `dst` at
/// `dst_pos`, one source pixel to one destination pixel, clipped against
/// both surfaces' bounds, skipping source pixels whose alpha is exactly 0.
#[verifier::loop_isolation(false)]
pub fn blit_same_size<A: Surface, B: Surface>(
    dst: &mut A,
    src: &B,
    src_pos: IVec2,
    dst_pos: IVec2,
    size: IVec2,
)
    requires
        old(dst).inv(),
        src.inv(),
    ensures
        final(dst).inv(),
        final(dst).grid().wf(),
        same_size_post(
            old(dst).grid(),
            final(dst).grid(),
            src.grid(),
            (CopyGeom {
                src_x: src_pos.x as int,
                src_y: src_pos.y as int,
                dst_x: dst_pos.x as int,
                dst_y: dst_pos.y as int,
                size_x: size.x as int,
                size_y: size.y as int,
            }),
        ),
{
    let dst_size = dst.size();
    let src_size = src.size();
    let ghost dst0 = dst.grid();
    let ghost srcg = src.grid();
    let ghost g = CopyGeom {
        src_x: src_pos.x as int,
        src_y: src_pos.y as int,
        dst_x: dst_pos.x as int,
        dst_y: dst_pos.y as int,
        size_x: size.x as int,
        size_y: size.y as int,
    };
    let mut y: i32 = 0;
    while y < size.y
        invariant
            dst.inv(),
            dst.grid().wf(),
            dst.grid().width == dst0.width,
            dst.grid().height == dst0.height,
            0 <= y,
            size.y > 0 ==> y <= size.y,
            size.y <= 0 ==> y == 0,
            forall|dx: int, dy: int|
                dst.grid().contains(dx, dy) ==> dst.grid().pixel(dx, dy)
                    == same_size_pixel_upto(dst0, srcg, g, y as int, 0, dx, dy),
        decreases size.y - y,
    {
        let dst_offset_y = dst_pos.y as i64 + y as i64;
        let src_offset_y = src_pos.y as i64 + y as i64;
        if dst_offset_y >= 0 && dst_offset_y < dst_size.y as i64 && src_offset_y >= 0
            && src_offset_y < src_size.y as i64 {
            let mut x: i32 = 0;
            while x < size.x
                invariant
                    dst.inv(),
                    dst.grid().wf(),
                    dst.grid().width == dst0.width,
                    dst.grid().height == dst0.height,
                    0 <= x,
                    size.x > 0 ==> x <= size.x,
                    size.x <= 0 ==> x == 0,
                    forall|dx: int, dy: int|
                        dst.grid().contains(dx, dy) ==> dst.grid().pixel(dx, dy)
                            == same_size_pixel_upto(dst0, srcg, g, y as int, x as int, dx, dy),
                decreases size.x - x,
            {
                let dst_offset_x = dst_pos.x as i64 + x as i64;
                let src_offset_x = src_pos.x as i64 + x as i64;
                if dst_offset_x >= 0 && dst_offset_x < dst_size.x as i64 && src_offset_x >= 0
                    && src_offset_x < src_size.x as i64 {
                    let src_color = src.get_pixel(
                        ivec2(src_offset_x as i32, src_offset_y as i32),
                    );
                    if src_color.a() != 0x00 {
                        let ghost before = dst.grid();
                        dst.set_pixel(ivec2(dst_offset_x as i32, dst_offset_y as i32), src_color);
                        proof {
                            let wx = dst_pos.x as int + x as int;
                            let wy = dst_pos.y as int + y as int;
                            lemma_pixel_index_in_range(before, wx, wy);
                            assert forall|dx: int, dy: int| dst.grid().contains(dx, dy) implies
                                dst.grid().pixel(dx, dy) == same_size_pixel_upto(
                                    dst0, srcg, g, y as int, x as int + 1, dx, dy,
                                ) by {
                                lemma_pixel_index_in_range(before, dx, dy);
                                if dx == wx && dy == wy {
                                    assert(dst.grid().pixel(dx, dy) == src_color);
                                    assert(same_size_hit(srcg, g, dx, dy));
                                } else {
                                    if dy * before.width + dx == wy * before.width + wx {
                                        lemma_pixel_index_injective(before, dx, dy, wx, wy);
                                    }
                                    assert(dst.grid().pixel(dx, dy) == before.pixel(dx, dy));
                                }
                            }
                        }
                    } else {
                        proof {
                            assert forall|dx: int, dy: int| dst.grid().contains(dx, dy) implies
                                dst.grid().pixel(dx, dy) == same_size_pixel_upto(
                                    dst0, srcg, g, y as int, x as int + 1, dx, dy,
                                ) by {
                                let wx = dst_pos.x as int + x as int;
                                let wy = dst_pos.y as int + y as int;
                                if dx == wx && dy == wy {
                                    assert(!same_size_hit(srcg, g, dx, dy));
                                }
                            }
                        }
                    }
                } else {
                    proof {
                        assert forall|dx: int, dy: int| dst.grid().contains(dx, dy) implies
                            dst.grid().pixel(dx, dy) == same_size_pixel_upto(
                                dst0, srcg, g, y as int, x as int + 1, dx, dy,
                            ) by {
                            let wx = dst_pos.x as int + x as int;
                            let wy = dst_pos.y as int + y as int;
                            if dx == wx && dy == wy {
                                assert(!(0 <= dst_offset_x < dst0.width)
                                    || !srcg.contains(g.src_x + (dx - g.dst_x), g.src_y + (dy - g.dst_y)));
                                assert(!same_size_hit(srcg, g, dx, dy));
                            }
                        }
                    }
                }
                x = x + 1;
            }
            proof {
                assert forall|dx: int, dy: int| dst.grid().contains(dx, dy) implies
                    dst.grid().pixel(dx, dy) == same_size_pixel_upto(
                        dst0, srcg, g, y as int + 1, 0, dx, dy,
                    ) by {
                    if same_size_hit(srcg, g, dx, dy) {
                        assert(dx - g.dst_x < g.size_x);
                    }
                }
            }
        } else {
            proof {
                assert forall|dx: int, dy: int| dst.grid().contains(dx, dy) implies
                    dst.grid().pixel(dx, dy) == same_size_pixel_upto(
                        dst0, srcg, g, y as int + 1, 0, dx, dy,
                    ) by {
                    if dy - g.dst_y == y as int && same_size_hit(srcg, g, dx, dy) {
                        assert(0 <= dy < dst0.height);
                        assert(srcg.contains(g.src_x + (dx - g.dst_x), g.src_y + (dy - g.dst_y)));
                    }
                }
            }
        }
        y = y + 1;
    }
    proof {
        assert forall|dx: int, dy: int| dst.grid().contains(dx, dy) implies
            dst.grid().pixel(dx, dy) == same_size_pixel(dst0, srcg, g, dx, dy) by {
            if same_size_hit(srcg, g, dx, dy) {
                assert(dy - g.dst_y < g.size_y);
            }
        }
    }
}

/// The geometry of a scaled copy: the requested source rectangle, and the
/// destination rectangle it is resampled into.
pub struct ScaleGeom {
    pub src_x: int,
    pub src_y: int,
    pub src_w: int,
    pub src_h: int,
    pub dst_x: int,
    pub dst_y: int,
    pub dst_w: int,
    pub dst_h: int,
}

/// The source coordinate sampled for destination offset `off` along one
/// axis: the rectangle start plus `floor(off * src_extent / dst_extent)`,
/// the floor-based nearest-neighbor rule.
pub open spec fn scale_sample(src_start: int, src_extent: int, dst_extent: int, off: int) -> int {
    src_start + (off * src_extent) / dst_extent
}

/// Whether the scaled copy writes the destination position `(dx, dy)`: the
/// position lies in the destination rectangle and the sampled source pixel
/// is not fully transparent.
pub open spec fn scale_hit(src: GridView, s: ScaleGeom, dx: int, dy: int) -> bool {
    let xo = dx - s.dst_x;
    let yo = dy - s.dst_y;
    &&& 0 <= xo < s.dst_w
    &&& 0 <= yo < s.dst_h
    &&& src.pixel(
        scale_sample(s.src_x, s.src_w, s.dst_w, xo),
        scale_sample(s.src_y, s.src_h, s.dst_h, yo),
    ).spec_a() != 0
}

/// The value a destination pixel holds after a scaled copy: the sampled
/// source pixel where the copy hits, the old destination pixel everywhere
/// else.
pub open spec fn scale_pixel(
    dst0: GridView,
    src: GridView,
    s: ScaleGeom,
    dx: int,
    dy: int,
) -> Color {
    if scale_hit(src, s, dx, dy) {
        src.pixel(
            scale_sample(s.src_x, s.src_w, s.dst_w, dx - s.dst_x),
            scale_sample(s.src_y, s.src_h, s.dst_h, dy - s.dst_y),
        )
    } else {
        dst0.pixel(dx, dy)
    }
}

/// What the scaled copy asks of its caller: sizes are non-negative, and
/// whenever both destination extents are positive (so that sampling can
/// happen at all) the requested source rectangle is non-empty and lies
/// entirely inside the source surface, which keeps every sampled read in
/// bounds.
pub open spec fn scale_pre(src: GridView, s: ScaleGeom) -> bool {
    &&& 0 <= s.src_w
    &&& 0 <= s.src_h
    &&& (0 < s.dst_w && 0 < s.dst_h) ==> {
        &&& 1 <= s.src_w
        &&& 1 <= s.src_h
        &&& 0 <= s.src_x
        &&& 0 <= s.src_y
        &&& s.src_x + s.src_w <= src.width
        &&& s.src_y + s.src_h <= src.height
    }
}

/// Relates the destination before (`dst0`) and after (`dst1`) a scaled copy
/// from `src` with geometry `s`: the size is unchanged and every in-bounds
/// pixel holds exactly `scale_pixel`.
pub open spec fn scale_post(dst0: GridView, dst1: GridView, src: GridView, s: ScaleGeom) -> bool {
    &&& dst1.width == dst0.width
    &&& dst1.height == dst0.height
    &&& forall|dx: int, dy: int|
        dst1.contains(dx, dy) ==> dst1.pixel(dx, dy) == scale_pixel(dst0, src, s, dx, dy)
}

/// The destination pixel after the scaled copy has handled the first `rows`
/// full rows of the destination rectangle and, in row `rows`, the first
/// `cols` columns.
spec fn scale_pixel_upto(
    dst0: GridView,
    src: GridView,
    s: ScaleGeom,
    rows: int,
    cols: int,
    dx: int,
    dy: int,
) -> Color {
    let xo = dx - s.dst_x;
    let yo = dy - s.dst_y;
    if scale_hit(src, s, dx, dy) && (yo < rows || (yo == rows && xo < cols)) {
        src.pixel(
            scale_sample(s.src_x, s.src_w, s.dst_w, xo),
            scale_sample(s.src_y, s.src_h, s.dst_h, yo),
        )
    } else {
        dst0.pixel(dx, dy)
    }
}

/// A destination offset inside the rectangle samples a source offset inside
/// the source extent.
proof fn lemma_sample_in_extent(src_extent: int, dst_extent: int, off: int)
    requires
        0 <= off < dst_extent,
        1 <= src_extent,
    ensures
        0 <= (off * src_extent) / dst_extent < src_extent,
{
    assert(0 <= off * src_extent) by (nonlinear_arith)
        requires
            0 <= off,
            0 <= src_extent,
    ;
    assert(off * src_extent < dst_extent * src_extent) by (nonlinear_arith)
        requires
            0 <= off < dst_extent,
            1 <= src_extent,
    ;
    vstd::arithmetic::div_mod::lemma_div_pos_is_pos(off * src_extent, dst_extent);
    vstd::arithmetic::div_mod::lemma_multiply_divide_lt(
        off * src_extent,
        dst_extent,
        src_extent,
    );
}

/// Copies the `src_size` rectangle of `src` starting at `src_pos` into the
/// `dst_size` rectangle of `dst` starting at `dst_pos`, resampling by the
/// floor-based nearest-neighbor rule, clipped against the destination
/// surface's bounds, skipping source pixels whose alpha is exactly 0.
#[verifier::loop_isolation(false)]
pub fn blit_scale<A: Surface, B: Surface>(
    dst: &mut A,
    src: &B,
    src_pos: IVec2,
    src_size: IVec2,
    dst_pos: IVec2,
    dst_size: IVec2,
)
    requires
        old(dst).inv(),
        src.inv(),
        scale_pre(
            src.grid(),
            (ScaleGeom {
                src_x: src_pos.x as int,
                src_y: src_pos.y as int,
                src_w: src_size.x as int,
                src_h: src_size.y as int,
                dst_x: dst_pos.x as int,
                dst_y: dst_pos.y as int,
                dst_w: dst_size.x as int,
                dst_h: dst_size.y as int,
            }),
        ),
    ensures
        final(dst).inv(),
        final(dst).grid().wf(),
        scale_post(
            old(dst).grid(),
            final(dst).grid(),
            src.grid(),
            (ScaleGeom {
                src_x: src_pos.x as int,
                src_y: src_pos.y as int,
                src_w: src_size.x as int,
                src_h: src_size.y as int,
                dst_x: dst_pos.x as int,
                dst_y: dst_pos.y as int,
                dst_w: dst_size.x as int,
                dst_h: dst_size.y as int,
            }),
        ),
{
    let base_size = dst.size();
    // Reading the source's size shows its grid is well formed and its
    // dimensions fit 32-bit coordinates, which bounds every sampled read.
    let _src_bounds = src.size();
    let ghost dst0 = dst.grid();
    let ghost srcg = src.grid();
    let ghost s = ScaleGeom {
        src_x: src_pos.x as int,
        src_y: src_pos.y as int,
        src_w: src_size.x as int,
        src_h: src_size.y as int,
        dst_x: dst_pos.x as int,
        dst_y: dst_pos.y as int,
        dst_w: dst_size.x as int,
        dst_h: dst_size.y as int,
    };
    let mut y: i32 = 0;
    while y < dst_size.y
        invariant
            dst.inv(),
            dst.grid().wf(),
            dst.grid().width == dst0.width,
            dst.grid().height == dst0.height,
            0 <= y,
            dst_size.y > 0 ==> y <= dst_size.y,
            dst_size.y <= 0 ==> y == 0,
            forall|dx: int, dy: int|
                dst.grid().contains(dx, dy) ==> dst.grid().pixel(dx, dy)
                    == scale_pixel_upto(dst0, srcg, s, y as int, 0, dx, dy),
        decreases dst_size.y - y,
    {
        let dst_offset_y = dst_pos.y as i64 + y as i64;
        if dst_offset_y >= 0 && dst_offset_y < base_size.y as i64 {
            proof {
                let yi = y as int;
                let ssy = src_size.y as int;
                assert(0 <= yi * ssy && yi * ssy < 0x4000_0000_0000_0000) by (nonlinear_arith)
                    requires
                        0 <= yi < 0x8000_0000,
                        0 <= ssy < 0x8000_0000,
                ;
                vstd::arithmetic::div_mod::lemma_div_pos_is_pos(yi * ssy, dst_size.y as int);
                vstd::arithmetic::div_mod::lemma_div_nonincreasing(yi * ssy, dst_size.y as int);
            }
            let sample_y = (y as u64 * src_size.y as u64) / (dst_size.y as u64);
            let src_offset_y = src_pos.y as i64 + sample_y as i64;
            let mut x: i32 = 0;
            while x < dst_size.x
                invariant
                    dst.inv(),
                    dst.grid().wf(),
                    dst.grid().width == dst0.width,
                    dst.grid().height == dst0.height,
                    0 <= x,
                    dst_size.x > 0 ==> x <= dst_size.x,
                    dst_size.x <= 0 ==> x == 0,
                    forall|dx: int, dy: int|
                        dst.grid().contains(dx, dy) ==> dst.grid().pixel(dx, dy)
                            == scale_pixel_upto(dst0, srcg, s, y as int, x as int, dx, dy),
                decreases dst_size.x - x,
            {
                let dst_offset_x = dst_pos.x as i64 + x as i64;
                if dst_offset_x >= 0 && dst_offset_x < base_size.x as i64 {
                    proof {
                        let xi = x as int;
                        let ssx = src_size.x as int;
                        assert(0 <= xi * ssx && xi * ssx < 0x4000_0000_0000_0000)
                            by (nonlinear_arith)
                            requires
                                0 <= xi < 0x8000_0000,
                                0 <= ssx < 0x8000_0000,
                        ;
                        lemma_sample_in_extent(s.src_w, s.dst_w, xi);
                        lemma_sample_in_extent(s.src_h, s.dst_h, y as int);
                    }
                    let sample_x = (x as u64 * src_size.x as u64) / (dst_size.x as u64);
                    let src_offset_x = src_pos.x as i64 + sample_x as i64;
                    let src_color = src.get_pixel(
                        ivec2(src_offset_x as i32, src_offset_y as i32),
                    );
                    if src_color.a() != 0x00 {
                        let ghost before = dst.grid();
                        dst.set_pixel(ivec2(dst_offset_x as i32, dst_offset_y as i32), src_color);
                        proof {
                            let wx = dst_pos.x as int + x as int;
                            let wy = dst_pos.y as int + y as int;
                            lemma_pixel_index_in_range(before, wx, wy);
                            assert forall|dx: int, dy: int| dst.grid().contains(dx, dy) implies
                                dst.grid().pixel(dx, dy) == scale_pixel_upto(
                                    dst0, srcg, s, y as int, x as int + 1, dx, dy,
                                ) by {
                                lemma_pixel_index_in_range(before, dx, dy);
                                if dx == wx && dy == wy {
                                    assert(dst.grid().pixel(dx, dy) == src_color);
                                    assert(scale_hit(srcg, s, dx, dy));
                                } else {
                                    if dy * before.width + dx == wy * before.width + wx {
                                        lemma_pixel_index_injective(before, dx, dy, wx, wy);
                                    }
                                    assert(dst.grid().pixel(dx, dy) == before.pixel(dx, dy));
                                }
                            }
                        }
                    } else {
                        proof {
                            assert forall|dx: int, dy: int| dst.grid().contains(dx, dy) implies
                                dst.grid().pixel(dx, dy) == scale_pixel_upto(
                                    dst0, srcg, s, y as int, x as int + 1, dx, dy,
                                ) by {
                                let wx = dst_pos.x as int + x as int;
                                let wy = dst_pos.y as int + y as int;
                                if dx == wx && dy == wy {
                                    assert(!scale_hit(srcg, s, dx, dy));
                                }
                            }
                        }
                    }
                } else {
                    proof {
                        assert forall|dx: int, dy: int| dst.grid().contains(dx, dy) implies
                            dst.grid().pixel(dx, dy) == scale_pixel_upto(
                                dst0, srcg, s, y as int, x as int + 1, dx, dy,
                            ) by {
                            let wx = dst_pos.x as int + x as int;
                            if dx == wx && dy == dst_pos.y as int + y as int {
                                assert(!(0 <= dx < dst0.width));
                            }
                        }
                    }
                }
                x = x + 1;
            }
            proof {
                assert forall|dx: int, dy: int| dst.grid().contains(dx, dy) implies
                    dst.grid().pixel(dx, dy) == scale_pixel_upto(
                        dst0, srcg, s, y as int + 1, 0, dx, dy,
                    ) by {
                    if scale_hit(srcg, s, dx, dy) {
                        assert(dx - s.dst_x < s.dst_w);
                    }
                }
            }
        } else {
            proof {
                assert forall|dx: int, dy: int| dst.grid().contains(dx, dy) implies
                    dst.grid().pixel(dx, dy) == scale_pixel_upto(
                        dst0, srcg, s, y as int + 1, 0, dx, dy,
                    ) by {
                    if dy - s.dst_y == y as int && scale_hit(srcg, s, dx, dy) {
                        assert(0 <= dy < dst0.height);
                    }
                }
            }
        }
        y = y + 1;
    }
    proof {
        assert forall|dx: int, dy: int| dst.grid().contains(dx, dy) implies
            dst.grid().pixel(dx, dy) == scale_pixel(dst0, srcg, s, dx, dy) by {
            if scale_hit(srcg, s, dx, dy) {
                assert(dy - s.dst_y < s.dst_h);
            }
        }
    }
}

/// The resolved x of an optional position: the given one, or the origin.
pub open spec fn resolved_pos_x(p: Option<IVec2>) -> int {
    match p {
        Some(v) => v.x as int,
        None => 0,
    }
}

/// The resolved y of an optional position: the given one, or the origin.
pub open spec fn resolved_pos_y(p: Option<IVec2>) -> int {
    match p {
        Some(v) => v.y as int,
        None => 0,
    }
}

/// The resolved width of an optional source size: the given one, or the
/// full width of the source surface.
pub open spec fn resolved_size_x(sz: Option<IVec2>, src: GridView) -> int {
    match sz {
        Some(v) => v.x as int,
        None => src.width,
    }
}

/// The resolved height of an optional source size: the given one, or the
/// full height of the source surface.
pub open spec fn resolved_size_y(sz: Option<IVec2>, src: GridView) -> int {
    match sz {
        Some(v) => v.y as int,
        None => src.height,
    }
}

/// Whether `Surface::blit` dispatches to the scaled algorithm: a
/// destination size was given and differs from the resolved source size.
pub open spec fn blit_scales(src: GridView, src_size: Option<IVec2>, dst_size: Option<IVec2>) -> bool {
    match dst_size {
        Some(ds) => !(ds.x as int == resolved_size_x(src_size, src) && ds.y as int
            == resolved_size_y(src_size, src)),
        None => false,
    }
}

/// The same-size geometry `Surface::blit` uses once its optional arguments
/// are resolved.
pub open spec fn blit_copy_geom(
    src: GridView,
    src_pos: Option<IVec2>,
    src_size: Option<IVec2>,
    dst_pos: Option<IVec2>,
) -> CopyGeom {
    CopyGeom {
        src_x: resolved_pos_x(src_pos),
        src_y: resolved_pos_y(src_pos),
        dst_x: resolved_pos_x(dst_pos),
        dst_y: resolved_pos_y(dst_pos),
        size_x: resolved_size_x(src_size, src),
        size_y: resolved_size_y(src_size, src),
    }
}

/// The scaled geometry `Surface::blit` uses once its optional arguments are
/// resolved; meaningful only when a destination size was given.
pub open spec fn blit_scale_geom(
    src: GridView,
    src_pos: Option<IVec2>,
    src_size: Option<IVec2>,
    dst_pos: Option<IVec2>,
    dst_size: Option<IVec2>,
) -> ScaleGeom {
    ScaleGeom {
        src_x: resolved_pos_x(src_pos),
        src_y: resolved_pos_y(src_pos),
        src_w: resolved_size_x(src_size, src),
        src_h: resolved_size_y(src_size, src),
        dst_x: resolved_pos_x(dst_pos),
        dst_y: resolved_pos_y(dst_pos),
        dst_w: match dst_size {
            Some(v) => v.x as int,
            None => 0,
        },
        dst_h: match dst_size {
            Some(v) => v.y as int,
            None => 0,
        },
    }
}

/// What `Surface::blit` asks of its caller: only when it dispatches to the
/// scaled algorithm, that algorithm's own precondition on the resolved
/// geometry.
pub open spec fn blit_pre(
    src: GridView,
    src_pos: Option<IVec2>,
    src_size: Option<IVec2>,
    dst_pos: Option<IVec2>,
    dst_size: Option<IVec2>,
) -> bool {
    blit_scales(src, src_size, dst_size) ==> scale_pre(
        src,
        blit_scale_geom(src, src_pos, src_size, dst_pos, dst_size),
    )
}

/// What `Surface::blit` did: the same-size postcondition when source and
/// destination sizes agree (or no destination size was given), the scaled
/// postcondition otherwise, each over the resolved geometry.
pub open spec fn blit_post(
    dst0: GridView,
    dst1: GridView,
    src: GridView,
    src_pos: Option<IVec2>,
    src_size: Option<IVec2>,
    dst_pos: Option<IVec2>,
    dst_size: Option<IVec2>,
) -> bool {
    if blit_scales(src, src_size, dst_size) {
        scale_post(dst0, dst1, src, blit_scale_geom(src, src_pos, src_size, dst_pos, dst_size))
    } else {
        same_size_post(dst0, dst1, src, blit_copy_geom(src, src_pos, src_size, dst_pos))
    }
}

/// The single compositing entry point, derived purely from the `Surface`
/// primitives: resolves the optional arguments (positions default to the
/// origin, the source size to the source surface's full size) and
/// dispatches to the same-size copy when no distinct destination size is
/// requested, to the scaled copy otherwise.
pub fn blit<A: Surface, B: Surface>(
    dst: &mut A,
    src: &B,
    src_pos: Option<IVec2>,
    src_size: Option<IVec2>,
    dst_pos: Option<IVec2>,
    dst_size: Option<IVec2>,
)
    requires
        old(dst).inv(),
        src.inv(),
        blit_pre(src.grid(), src_pos, src_size, dst_pos, dst_size),
    ensures
        final(dst).inv(),
        final(dst).grid().wf(),
        blit_post(
            old(dst).grid(),
            final(dst).grid(),
            src.grid(),
            src_pos,
            src_size,
            dst_pos,
            dst_size,
        ),
{
    let src_pos_r = match src_pos {
        Some(p) => p,
        None => ivec2(0, 0),
    };
    let src_size_r = match src_size {
        Some(sz) => sz,
        None => src.size(),
    };
    let dst_pos_r = match dst_pos {
        Some(p) => p,
        None => ivec2(0, 0),
    };
    match dst_size {
        Some(ds) => {
            if ds == src_size_r {
                blit_same_size(dst, src, src_pos_r, dst_pos_r, ds);
            } else {
                blit_scale(dst, src, src_pos_r, src_size_r, dst_pos_r, ds);
            }
        },
        None => {
            blit_same_size(dst, src, src_pos_r, dst_pos_r, src_size_r);
        },
    }
}

/// Whether every pixel of the grid is opaque to the alpha key: no pixel
/// has alpha exactly 0.
pub open spec fn all_opaque(g: GridView) -> bool {
    forall|x: int, y: int| g.contains(x, y) ==> g.pixel(x, y).spec_a() != 0
}

/// Identity copy: a same-size blit of a fully opaque source onto a
/// destination of the same dimensions, at the origin and covering the whole
/// surface, reproduces the source exactly, pixel for pixel.
pub proof fn lemma_identity_copy(dst0: GridView, dst1: GridView, src: GridView)
    requires
        dst0.wf(),
        dst1.wf(),
        src.wf(),
        dst0.width == src.width,
        dst0.height == src.height,
        all_opaque(src),
        same_size_post(
            dst0,
            dst1,
            src,
            (CopyGeom {
                src_x: 0,
                src_y: 0,
                dst_x: 0,
                dst_y: 0,
                size_x: src.width,
                size_y: src.height,
            }),
        ),
    ensures
        dst1.pixels =~= src.pixels,
{
    let g = CopyGeom {
        src_x: 0,
        src_y: 0,
        dst_x: 0,
        dst_y: 0,
        size_x: src.width,
        size_y: src.height,
    };
    assert forall|x: int, y: int| dst1.contains(x, y) implies dst1.pixel(x, y) == src.pixel(
        x,
        y,
    ) by {
        assert(same_size_hit(src, g, x, y));
    }
    lemma_pixelwise_eq(dst1, src);
}

/// Zero-size no-op: a same-size blit whose rectangle has a zero (or
/// negative) width or height writes nothing, so the destination keeps all
/// its pixels.
pub proof fn lemma_zero_size_noop(dst0: GridView, dst1: GridView, src: GridView, g: CopyGeom)
    requires
        dst0.wf(),
        dst1.wf(),
        g.size_x <= 0 || g.size_y <= 0,
        same_size_post(dst0, dst1, src, g),
    ensures
        dst1.pixels =~= dst0.pixels,
{
    assert forall|x: int, y: int| dst1.contains(x, y) implies dst1.pixel(x, y) == dst0.pixel(
        x,
        y,
    ) by {
        assert(!same_size_hit(src, g, x, y));
    }
    lemma_pixelwise_eq(dst1, dst0);
}

/// Zero-size no-op for the scaled copy: a destination rectangle with a
/// zero (or negative) width or height writes nothing, so the destination
/// keeps all its pixels.
pub proof fn lemma_zero_size_noop_scale(dst0: GridView, dst1: GridView, src: GridView, s: ScaleGeom)
    requires
        dst0.wf(),
        dst1.wf(),
        s.dst_w <= 0 || s.dst_h <= 0,
        scale_post(dst0, dst1, src, s),
    ensures
        dst1.pixels =~= dst0.pixels,
{
    assert forall|x: int, y: int| dst1.contains(x, y) implies dst1.pixel(x, y) == dst0.pixel(
        x,
        y,
    ) by {
        assert(!scale_hit(src, s, x, y));
    }
    lemma_pixelwise_eq(dst1, dst0);
}

} // verus!
