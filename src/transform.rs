//! Resizing, aspect-preserving fitting, and the canvas expansion that precedes
//! a rotation.

use vstd::prelude::*;
use crate::color::{Rgba, transparent};
use crate::raster::{Image, Raster, channels, pixels_of, lemma_encodes};

verus! {

/// The channels that Lanczos3 resampling of a `width` × `height` RGBA buffer to
/// `new_width` × `new_height` produces.
pub uninterp spec fn lanczos3_resized(
    bytes: Seq<u8>,
    width: nat,
    height: nat,
    new_width: nat,
    new_height: nat,
) -> Seq<u8>;

/// Relies on `image::imageops::resize` with `FilterType::Lanczos3`: the result
/// is `new_width` × `new_height` RGBA and depends on the source channels and the
/// two sizes alone. Empty buffers are left out; callers handle them without
/// resampling.
#[verifier::external_body]
fn lanczos3_resize(bytes: &Vec<u8>, width: u32, height: u32, new_width: u32, new_height: u32) -> (r:
    Vec<u8>)
    requires
        bytes@.len() == 4 * (width as int * height as int),
        width > 0,
        height > 0,
        new_width > 0,
        new_height > 0,
        4 * (width as int * new_height as int) <= usize::MAX,
        4 * (new_width as int * new_height as int) <= usize::MAX,
    ensures
        r@ == lanczos3_resized(
            bytes@,
            width as nat,
            height as nat,
            new_width as nat,
            new_height as nat,
        ),
        r@.len() == 4 * (new_width as int * new_height as int),
{
    match image::RgbaImage::from_raw(width, height, bytes.clone()) {
        Some(src) => image::imageops::resize(
            &src,
            new_width,
            new_height,
            image::imageops::FilterType::Lanczos3,
        ).into_raw(),
        None => Vec::new(),
    }
}

/// A fully transparent raster.
pub open spec fn blank_raster(width: nat, height: nat) -> Raster {
    Raster { width, height, pixels: Seq::new(width * height, |i: int| transparent()) }
}

/// `src` stretched to exactly `width` × `height` (aspect ratio not kept). An
/// empty source or an empty target gives a transparent buffer.
pub open spec fn stretched(src: Raster, width: nat, height: nat) -> Raster {
    if src.width == 0 || src.height == 0 || width == 0 || height == 0 {
        blank_raster(width, height)
    } else {
        Raster {
            width,
            height,
            pixels: pixels_of(lanczos3_resized(channels(src.pixels), src.width, src.height, width, height)),
        }
    }
}

/// Resamples `src` to exactly `width` × `height` with a Lanczos3 filter.
pub fn resize_exact(src: &Image, width: u32, height: u32) -> (r: Image)
    requires
        4 * (width as int * height as int) <= usize::MAX,
        4 * (src@.width * height as int) <= usize::MAX,
    ensures
        r@ == stretched(src@, width as nat, height as nat),
{
    let sw = src.width();
    let sh = src.height();
    if sw == 0 || sh == 0 || width == 0 || height == 0 {
        let r = Image::blank(width, height);
        assert(r@.pixels =~= blank_raster(width as nat, height as nat).pixels);
        return r;
    }
    let bytes = src.to_rgba_bytes();
    proof {
        lemma_encodes(bytes@, src@.pixels);
    }
    let out = lanczos3_resize(&bytes, sw, sh, width, height);
    match Image::from_rgba_bytes(width, height, &out) {
        Some(r) => {
            proof {
                lemma_encodes(out@, r@.pixels);
            }
            r
        },
        None => {
            assert(false);
            Image::blank(width, height)
        },
    }
}

/// The size that a `sw` × `sh` picture takes when fitted into a `tw` × `th` box
/// with its aspect ratio kept: a picture wider than the box fills its width,
/// any other fills its height; the other side is rounded down.
pub open spec fn fit_size(sw: nat, sh: nat, tw: nat, th: nat) -> (nat, nat) {
    if sw * th > tw * sh {
        (tw, tw * sh / sw)
    } else {
        (th * sw / sh, th)
    }
}

/// The fitted size of a `sw` × `sh` picture in a `tw` × `th` box. The result
/// lies within the box, one side equals the box's side (exactly one where the
/// two aspect ratios differ), and the other side is the kept aspect ratio
/// rounded down.
pub fn fit_dimensions(sw: u32, sh: u32, tw: u32, th: u32) -> (r: (u32, u32))
    requires
        sw > 0,
        sh > 0,
    ensures
        (r.0 as nat, r.1 as nat) == fit_size(sw as nat, sh as nat, tw as nat, th as nat),
        r.0 <= tw,
        r.1 <= th,
        r.0 == tw || r.1 == th,
        (sw as int) * (th as int) != (tw as int) * (sh as int) ==> (r.0 == tw) != (r.1 == th),
        r.0 == tw && (sw as int) * (th as int) > (tw as int) * (sh as int) ==> (r.1 as int) * (
        sw as int) <= (r.0 as int) * (sh as int) < (r.1 as int + 1) * (sw as int),
        r.1 == th && (sw as int) * (th as int) <= (tw as int) * (sh as int) ==> (r.0 as int) * (
        sh as int) <= (r.1 as int) * (sw as int) < (r.0 as int + 1) * (sh as int),
{
    proof {
        assert(sw as int * th as int <= u64::MAX && tw as int * sh as int <= u64::MAX)
            by (nonlinear_arith)
            requires
                sw <= u32::MAX,
                sh <= u32::MAX,
                tw <= u32::MAX,
                th <= u32::MAX,
        ;
    }
    let wide = sw as u64 * th as u64;
    let tall = tw as u64 * sh as u64;
    if wide > tall {
        let h = tall / sw as u64;
        proof {
            let q = h as int;
            assert(q * (sw as int) <= (tall as int) < (q + 1) * (sw as int)) by (nonlinear_arith)
                requires
                    q == tall as int / sw as int,
                    sw > 0,
            ;
            assert(q < th) by (nonlinear_arith)
                requires
                    q * sw as int <= tall as int,
                    tall < wide,
                    wide == sw as int * th as int,
                    sw > 0,
            ;
        }
        (tw, h as u32)
    } else {
        let w = wide / sh as u64;
        proof {
            let q = w as int;
            assert(q * (sh as int) <= (wide as int) < (q + 1) * (sh as int)) by (nonlinear_arith)
                requires
                    q == wide as int / sh as int,
                    sh > 0,
            ;
            assert(q <= tw) by (nonlinear_arith)
                requires
                    q * sh as int <= wide as int,
                    wide <= tall,
                    tall == tw as int * sh as int,
                    sh > 0,
            ;
            if wide < tall {
                assert(q < tw) by (nonlinear_arith)
                    requires
                        q * sh as int <= wide as int,
                        wide < tall,
                        tall == tw as int * sh as int,
                        sh > 0,
                ;
            }
        }
        (w as u32, th)
    }
}

/// Copies every pixel of `layer` onto `canvas` with the layer's top left
/// corner at `(left, top)`; the layer lies wholly inside the canvas.
fn paste(canvas: &mut Image, layer: &Image, left: u32, top: u32)
    requires
        left + layer@.width <= old(canvas)@.width,
        top + layer@.height <= old(canvas)@.height,
    ensures
        final(canvas)@.same_size(old(canvas)@),
        final(canvas)@.well_shaped(),
        forall|x: int, y: int|
            #![trigger final(canvas)@.at(x, y)]
            old(canvas)@.contains(x, y) ==> final(canvas)@.at(x, y) == if layer@.contains(
                x - left,
                y - top,
            ) {
                layer@.at(x - left, y - top)
            } else {
                old(canvas)@.at(x, y)
            },
{
    let ghost c0 = canvas@;
    let lw = layer.width();
    let lh = layer.height();
    let cw = canvas.width();
    let ch = canvas.height();
    let mut j: u32 = 0;
    while j < lh
        invariant
            c0 == old(canvas)@,
            canvas@.same_size(c0),
            canvas@.well_shaped(),
            lw == layer@.width,
            lh == layer@.height,
            left + lw <= c0.width,
            top + lh <= c0.height,
            cw == c0.width,
            ch == c0.height,
            j <= lh,
            forall|x: int, y: int|
                #![trigger canvas@.at(x, y)]
                c0.contains(x, y) ==> canvas@.at(x, y) == if layer@.contains(x - left, y - top)
                    && y - top < j {
                    layer@.at(x - left, y - top)
                } else {
                    c0.at(x, y)
                },
        decreases lh - j,
    {
        let mut i: u32 = 0;
        while i < lw
            invariant
                c0 == old(canvas)@,
                canvas@.same_size(c0),
                canvas@.well_shaped(),
                lw == layer@.width,
                lh == layer@.height,
                left + lw <= c0.width,
                top + lh <= c0.height,
                cw == c0.width,
                ch == c0.height,
                j < lh,
                i <= lw,
                forall|x: int, y: int|
                    #![trigger canvas@.at(x, y)]
                    c0.contains(x, y) ==> canvas@.at(x, y) == if layer@.contains(x - left, y - top)
                        && (y - top < j || (y - top == j && x - left < i)) {
                        layer@.at(x - left, y - top)
                    } else {
                        c0.at(x, y)
                    },
            decreases lw - i,
        {
            let p = layer.get_pixel(i, j);
            canvas.set_pixel(left + i, top + j, p);
            i = i + 1;
        }
        j = j + 1;
    }
}

/// Resizes `src` to its fitted size in a `width` × `height` box (see
/// [`fit_dimensions`]) and places it at the box's top left corner on a
/// transparent buffer the size of the box.
pub fn resize_fit(src: &Image, width: u32, height: u32) -> (r: Image)
    requires
        src@.width > 0,
        src@.height > 0,
        4 * (width as int * height as int) <= usize::MAX,
        4 * (src@.width * height as int) <= usize::MAX,
    ensures
        r@.width == width,
        r@.height == height,
        r@.well_shaped(),
        forall|x: int, y: int|
            #![trigger r@.at(x, y)]
            r@.contains(x, y) ==> r@.at(x, y) == ({
                let fit = fit_size(src@.width, src@.height, width as nat, height as nat);
                if x < fit.0 && y < fit.1 {
                    stretched(src@, fit.0, fit.1).at(x, y)
                } else {
                    transparent()
                }
            }),
{
    let sw = src.width();
    let sh = src.height();
    let (fw, fh) = fit_dimensions(sw, sh, width, height);
    proof {
        assert(fw as int * fh as int <= width as int * height as int) by (nonlinear_arith)
            requires
                fw <= width,
                fh <= height,
        ;
        assert(sw as int * fh as int <= sw as int * height as int) by (nonlinear_arith)
            requires
                fh <= height,
        ;
    }
    let fitted = resize_exact(src, fw, fh);
    let mut out = Image::blank(width, height);
    paste(&mut out, &fitted, 0, 0);
    out
}

/// `src` centered on a transparent `width` × `height` buffer, which is at
/// least as large in both directions.
pub open spec fn centered_in(src: Raster, width: nat, height: nat, x: int, y: int) -> Rgba {
    let ox = (width - src.width) / 2;
    let oy = (height - src.height) / 2;
    if src.contains(x - ox, y - oy) {
        src.at(x - ox, y - oy)
    } else {
        transparent()
    }
}

/// Centers `src` on a larger transparent buffer, the canvas that a rotation
/// by any angle turns without cutting off a corner. Every source pixel is kept.
pub fn expand_centered(src: &Image, width: u32, height: u32) -> (r: Image)
    requires
        src@.width <= width,
        src@.height <= height,
        4 * (width as int * height as int) <= usize::MAX,
    ensures
        r@.width == width,
        r@.height == height,
        r@.well_shaped(),
        forall|x: int, y: int|
            #![trigger r@.at(x, y)]
            r@.contains(x, y) ==> r@.at(x, y) == centered_in(src@, width as nat, height as nat, x, y),
{
    let sw = src.width();
    let sh = src.height();
    let ox = (width - sw) / 2;
    let oy = (height - sh) / 2;
    let mut out = Image::blank(width, height);
    paste(&mut out, src, ox, oy);
    out
}

/// The expansion step crops nothing: every pixel of the source is found,
/// unchanged, at its offset in the expanded buffer, which is at least as
/// large as the source.
pub proof fn lemma_expansion_keeps_every_pixel(src: Raster, width: nat, height: nat, px: int, py: int)
    requires
        src.width <= width,
        src.height <= height,
        src.contains(px, py),
    ensures
        ({
            let x = px + (width - src.width) / 2;
            let y = py + (height - src.height) / 2;
            &&& 0 <= x < width
            &&& 0 <= y < height
            &&& centered_in(src, width, height, x, y) == src.at(px, py)
        }),
{
}

/// Clamps an integer to the range of `i64`.
pub open spec fn saturate(v: int) -> i64 {
    if v < i64::MIN {
        i64::MIN
    } else if v > i64::MAX {
        i64::MAX
    } else {
        v as i64
    }
}

/// The top left coordinate (along one axis) that puts the center of a rotated
/// buffer of extent `rotated` on the center of the unrotated box that starts
/// at `pos` with extent `extent`, saturated to the `i64` range.
pub open spec fn rotated_origin(pos: int, extent: nat, rotated: nat) -> i64 {
    saturate(pos + extent / 2 - rotated / 2)
}

/// See [`rotated_origin`].
pub fn place_rotated(pos: i64, extent: u32, rotated: u32) -> (r: i64)
    ensures
        r == rotated_origin(pos as int, extent as nat, rotated as nat),
{
    let v: i128 = pos as i128 + (extent / 2) as i128 - (rotated / 2) as i128;
    if v < i64::MIN as i128 {
        i64::MIN
    } else if v > i64::MAX as i128 {
        i64::MAX
    } else {
        v as i64
    }
}

} // verus!
