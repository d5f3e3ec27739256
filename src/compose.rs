//! Alpha-over compositing of one buffer onto another.

use vstd::prelude::*;
use crate::color::Rgba;
use crate::raster::{Image, Raster};

verus! {

/// The source alpha after scaling by the layer's opacity multiplier (0..=255),
/// truncated.
pub open spec fn effective_alpha(src_alpha: u8, alpha_mult: u8) -> int {
    (src_alpha as int * alpha_mult as int) / 255
}

/// One channel of `src` laid over `dst` with weight `e` out of 255, truncated.
pub open spec fn mix(src: u8, dst: u8, e: int) -> int {
    (src as int * e + dst as int * (255 - e)) / 255
}

/// `src` laid over `dst` at the given opacity multiplier. A source pixel whose
/// effective alpha is zero leaves the destination as it was; otherwise each
/// color channel is mixed and the alpha is the larger of the two.
pub open spec fn over(dst: Rgba, src: Rgba, alpha_mult: u8) -> Rgba {
    let e = effective_alpha(src.a, alpha_mult);
    if e == 0 {
        dst
    } else {
        Rgba {
            r: mix(src.r, dst.r, e) as u8,
            g: mix(src.g, dst.g, e) as u8,
            b: mix(src.b, dst.b, e) as u8,
            a: if e >= dst.a {
                e as u8
            } else {
                dst.a
            },
        }
    }
}

/// The canvas pixel `(x, y)` after `layer` has been laid over it with its top
/// left corner at `(left, top)`; canvas pixels that the layer does not cover
/// keep their color.
pub open spec fn composited(
    canvas: Raster,
    layer: Raster,
    left: int,
    top: int,
    alpha_mult: u8,
    x: int,
    y: int,
) -> Rgba {
    if layer.contains(x - left, y - top) {
        over(canvas.at(x, y), layer.at(x - left, y - top), alpha_mult)
    } else {
        canvas.at(x, y)
    }
}

fn mix_channel(src: u8, dst: u8, e: u32) -> (c: u8)
    requires
        e <= 255,
    ensures
        c == mix(src, dst, e as int),
{
    proof {
        assert(src as int * e as int + dst as int * (255 - e as int) <= 255 * 255)
            by (nonlinear_arith)
            requires
                src <= 255,
                dst <= 255,
                e <= 255,
        ;
        assert(0 <= src as int * e as int && 0 <= dst as int * (255 - e as int))
            by (nonlinear_arith)
            requires
                e <= 255,
        ;
    }
    ((src as u32 * e + dst as u32 * (255 - e)) / 255) as u8
}

/// Lays one pixel over another.
pub fn blend_pixel(dst: Rgba, src: Rgba, alpha_mult: u8) -> (c: Rgba)
    ensures
        c == over(dst, src, alpha_mult),
{
    proof {
        assert(src.a as int * alpha_mult as int <= 255 * 255) by (nonlinear_arith)
            requires
                src.a <= 255,
                alpha_mult <= 255,
        ;
    }
    let e: u32 = (src.a as u32 * alpha_mult as u32) / 255;
    if e == 0 {
        dst
    } else {
        Rgba {
            r: mix_channel(src.r, dst.r, e),
            g: mix_channel(src.g, dst.g, e),
            b: mix_channel(src.b, dst.b, e),
            a: if e >= dst.a as u32 {
                e as u8
            } else {
                dst.a
            },
        }
    }
}

/// Lays `layer` over `canvas` with its top left corner at `(left, top)` in
/// canvas coordinates, scaling every source alpha by `alpha_mult` (0..=255).
/// Layer pixels that fall outside the canvas are dropped.
pub fn blend(canvas: &mut Image, layer: &Image, left: i64, top: i64, alpha_mult: u8)
    ensures
        final(canvas)@.same_size(old(canvas)@),
        final(canvas)@.well_shaped(),
        forall|x: int, y: int|
            #![trigger final(canvas)@.at(x, y)]
            old(canvas)@.contains(x, y) ==> final(canvas)@.at(x, y) == composited(
                old(canvas)@,
                layer@,
                left as int,
                top as int,
                alpha_mult,
                x,
                y,
            ),
{
    let ghost c0 = canvas@;
    let cw = canvas.width();
    let ch = canvas.height();
    let lw = layer.width();
    let lh = layer.height();
    let l = left as i128;
    let t = top as i128;
    let x0: i128 = if l > 0 { l } else { 0 };
    let y0: i128 = if t > 0 { t } else { 0 };
    let x1: i128 = if l + (lw as i128) < (cw as i128) { l + (lw as i128) } else { cw as i128 };
    let y1: i128 = if t + (lh as i128) < (ch as i128) { t + (lh as i128) } else { ch as i128 };
    if x0 >= x1 || y0 >= y1 {
        return;
    }
    let xs = x0 as u32;
    let xe = x1 as u32;
    let ye = y1 as u32;
    let mut y: u32 = y0 as u32;
    while y < ye
        invariant
            c0 == old(canvas)@,
            l == left,
            t == top,
            canvas@.same_size(c0),
            canvas@.well_shaped(),
            cw == c0.width,
            ch == c0.height,
            lw == layer@.width,
            lh == layer@.height,
            x0 == xs,
            x1 == xe,
            y0 <= y <= ye,
            y1 == ye,
            0 <= x0 < x1 <= cw,
            y1 <= ch,
            x0 == if left > 0 { left } else { 0 },
            y0 == if top > 0 { top } else { 0 },
            x1 == if left + lw < cw { left + lw } else { cw as int },
            y1 == if top + lh < ch { top + lh } else { ch as int },
            forall|i: int, j: int|
                #![trigger canvas@.at(i, j)]
                c0.contains(i, j) ==> canvas@.at(i, j) == if j < y {
                    composited(c0, layer@, left as int, top as int, alpha_mult, i, j)
                } else {
                    c0.at(i, j)
                },
        decreases ye - y,
    {
        let mut x: u32 = xs;
        while x < xe
            invariant
                c0 == old(canvas)@,
                l == left,
                t == top,
                canvas@.same_size(c0),
                canvas@.well_shaped(),
                cw == c0.width,
                ch == c0.height,
                lw == layer@.width,
                lh == layer@.height,
                x0 == xs,
                x1 == xe,
                y0 <= y < ye,
                y1 == ye,
                x0 <= x <= x1,
                0 <= x0 < x1 <= cw,
                y1 <= ch,
                x0 == if left > 0 { left } else { 0 },
                y0 == if top > 0 { top } else { 0 },
                x1 == if left + lw < cw { left + lw } else { cw as int },
                y1 == if top + lh < ch { top + lh } else { ch as int },
                forall|i: int, j: int|
                    #![trigger canvas@.at(i, j)]
                    c0.contains(i, j) ==> canvas@.at(i, j) == if j < y || (j == y && i < x) {
                        composited(c0, layer@, left as int, top as int, alpha_mult, i, j)
                    } else {
                        c0.at(i, j)
                    },
            decreases xe - x,
        {
            let lx = (x as i128 - l) as u32;
            let ly = (y as i128 - t) as u32;
            let d = canvas.get_pixel(x, y);
            let s = layer.get_pixel(lx, ly);
            let c = blend_pixel(d, s, alpha_mult);
            canvas.set_pixel(x, y, c);
            x = x + 1;
        }
        y = y + 1;
    }
}

/// At full opacity an opaque source pixel replaces the destination exactly; at
/// zero opacity the destination is left as it was.
pub proof fn lemma_over_extremes(dst: Rgba, src: Rgba)
    ensures
        src.a == 255 ==> over(dst, src, 255) == src,
        over(dst, src, 0) == dst,
{
    assert(effective_alpha(src.a, 0) == 0);
    if src.a == 255 {
        assert(effective_alpha(src.a, 255) == 255);
        assert forall|c: u8| mix(c, 0, 255) == c && #[trigger] mix(c, dst.r, 255) == c && mix(c, dst.g, 255)
            == c && mix(c, dst.b, 255) == c by {
            assert(c as int * 255 + dst.r as int * 0 == c as int * 255) by (nonlinear_arith);
            assert(c as int * 255 + dst.g as int * 0 == c as int * 255) by (nonlinear_arith);
            assert(c as int * 255 + dst.b as int * 0 == c as int * 255) by (nonlinear_arith);
            assert(c as int * 255 + 0 * 0 == c as int * 255) by (nonlinear_arith);
        }
        assert(mix(src.r, dst.r, 255) == src.r);
        assert(mix(src.g, dst.g, 255) == src.g);
        assert(mix(src.b, dst.b, 255) == src.b);
    }
}

} // verus!
