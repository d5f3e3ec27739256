//! Owned RGBA pixel buffers.

use vstd::prelude::*;
use crate::color::{Rgba, transparent};

verus! {

/// What an [`Image`] holds: its size and its pixels, row by row.
pub ghost struct Raster {
    pub width: nat,
    pub height: nat,
    pub pixels: Seq<Rgba>,
}

impl Raster {
    pub open spec fn well_shaped(self) -> bool {
        self.pixels.len() == self.width * self.height
    }

    pub open spec fn contains(self, x: int, y: int) -> bool {
        0 <= x < self.width && 0 <= y < self.height
    }

    /// The pixel in column `x` of row `y`.
    pub open spec fn at(self, x: int, y: int) -> Rgba {
        self.pixels[y * self.width + x]
    }

    pub open spec fn same_size(self, other: Raster) -> bool {
        self.width == other.width && self.height == other.height
    }
}

/// Row-major offset of pixel `(x, y)` in a buffer `w` pixels wide.
pub proof fn lemma_offset(w: int, h: int, x: int, y: int)
    requires
        0 <= x < w,
        0 <= y < h,
    ensures
        0 <= y * w + x < w * h,
        y * w + x >= y * w,
        (y + 1) * w == y * w + w,
{
    assert(0 <= y * w) by (nonlinear_arith)
        requires
            0 <= y,
            0 <= w,
    ;
    assert(y * w + w <= w * h) by (nonlinear_arith)
        requires
            0 <= y < h,
            0 <= w,
    ;
    assert((y + 1) * w == y * w + w) by (nonlinear_arith);
}

/// Distinct pixels of one buffer have distinct offsets.
pub proof fn lemma_offset_unique(w: int, h: int, x1: int, y1: int, x2: int, y2: int)
    requires
        0 <= x1 < w,
        0 <= y1 < h,
        0 <= x2 < w,
        0 <= y2 < h,
        x1 != x2 || y1 != y2,
    ensures
        y1 * w + x1 != y2 * w + x2,
{
    if y1 == y2 {
    } else if y1 < y2 {
        assert(y1 * w + w <= y2 * w) by (nonlinear_arith)
            requires
                y1 < y2,
                0 <= w,
        ;
    } else {
        assert(y2 * w + w <= y1 * w) by (nonlinear_arith)
            requires
                y2 < y1,
                0 <= w,
        ;
    }
}

/// `bytes` lists the pixels' channels in the order red, green, blue, alpha.
pub open spec fn encodes(bytes: Seq<u8>, pixels: Seq<Rgba>) -> bool {
    &&& bytes.len() == 4 * pixels.len()
    &&& forall|i: int|
        0 <= i < pixels.len() ==> {
            &&& #[trigger] pixels[i].r == bytes[4 * i]
            &&& pixels[i].g == bytes[4 * i + 1]
            &&& pixels[i].b == bytes[4 * i + 2]
            &&& pixels[i].a == bytes[4 * i + 3]
        }
}

/// The pixels that a channel sequence lists, four bytes each.
pub open spec fn pixels_of(bytes: Seq<u8>) -> Seq<Rgba> {
    Seq::new(
        bytes.len() / 4,
        |i: int| Rgba { r: bytes[4 * i], g: bytes[4 * i + 1], b: bytes[4 * i + 2], a: bytes[4 * i + 3] },
    )
}

/// The channels of a pixel sequence, four bytes per pixel.
pub open spec fn channels(pixels: Seq<Rgba>) -> Seq<u8> {
    Seq::new(
        4 * pixels.len(),
        |i: int|
            {
                let p = pixels[i / 4];
                if i % 4 == 0 {
                    p.r
                } else if i % 4 == 1 {
                    p.g
                } else if i % 4 == 2 {
                    p.b
                } else {
                    p.a
                }
            },
    )
}

/// A channel sequence determines its pixels and is determined by them.
pub proof fn lemma_encodes(bytes: Seq<u8>, pixels: Seq<Rgba>)
    requires
        encodes(bytes, pixels),
    ensures
        bytes == channels(pixels),
        pixels == pixels_of(bytes),
{
    assert forall|i: int| 0 <= i < bytes.len() implies bytes[i] == channels(pixels)[i] by {
        let k = i / 4;
        let m = i % 4;
        assert(0 <= k < pixels.len());
        assert(i == 4 * k + m);
        let p = pixels[k];
        assert(p.r == bytes[4 * k]);
        assert(channels(pixels)[i] == if m == 0 {
            p.r
        } else if m == 1 {
            p.g
        } else if m == 2 {
            p.b
        } else {
            p.a
        });
    }
    assert(bytes =~= channels(pixels));
    assert forall|i: int| 0 <= i < pixels.len() implies pixels[i] == pixels_of(bytes)[i] by {
        let _ = pixels[i].r;
    }
    assert(pixels =~= pixels_of(bytes));
}

/// A width × height buffer of RGBA pixels.
pub struct Image {
    width: u32,
    height: u32,
    pixels: Vec<Rgba>,
}

impl View for Image {
    type V = Raster;

    closed spec fn view(&self) -> Raster {
        Raster { width: self.width as nat, height: self.height as nat, pixels: self.pixels@ }
    }
}

impl Image {
    #[verifier::type_invariant]
    spec fn shape_holds(&self) -> bool {
        self.pixels@.len() == self.width as int * self.height as int
    }

    /// A buffer of the given size with every pixel set to `color`.
    pub fn filled(width: u32, height: u32, color: Rgba) -> (img: Image)
        requires
            width as int * height as int <= usize::MAX,
        ensures
            img@.width == width,
            img@.height == height,
            img@.well_shaped(),
            img@.pixels == Seq::new(width as nat * height as nat, |i: int| color),
            forall|x: int, y: int| img@.contains(x, y) ==> img@.at(x, y) == color,
    {
        let n: usize = width as usize * height as usize;
        let mut pixels: Vec<Rgba> = Vec::with_capacity(n);
        while pixels.len() < n
            invariant
                pixels.len() <= n,
                forall|i: int| 0 <= i < pixels.len() ==> pixels@[i] == color,
            decreases n - pixels.len(),
        {
            pixels.push(color);
        }
        let img = Image { width, height, pixels };
        assert(img@.pixels =~= Seq::new(width as nat * height as nat, |i: int| color));
        assert forall|x: int, y: int| img@.contains(x, y) implies img@.at(x, y) == color by {
            lemma_offset(width as int, height as int, x, y);
        }
        img
    }

    /// A fully transparent buffer of the given size.
    pub fn blank(width: u32, height: u32) -> (img: Image)
        requires
            width as int * height as int <= usize::MAX,
        ensures
            img@.width == width,
            img@.height == height,
            img@.well_shaped(),
            img@.pixels == Seq::new(width as nat * height as nat, |i: int| transparent()),
            forall|x: int, y: int| img@.contains(x, y) ==> img@.at(x, y) == transparent(),
    {
        Image::filled(width, height, Rgba::transparent())
    }

    pub fn width(&self) -> (r: u32)
        ensures
            r == self@.width,
            self@.well_shaped(),
    {
        proof {
            use_type_invariant(self);
        }
        self.width
    }

    pub fn height(&self) -> (r: u32)
        ensures
            r == self@.height,
            self@.well_shaped(),
    {
        proof {
            use_type_invariant(self);
        }
        self.height
    }

    pub fn get_pixel(&self, x: u32, y: u32) -> (c: Rgba)
        requires
            self@.contains(x as int, y as int),
        ensures
            c == self@.at(x as int, y as int),
    {
        proof {
            use_type_invariant(self);
            lemma_offset(self.width as int, self.height as int, x as int, y as int);
        }
        let _n = self.pixels.len();
        self.pixels[y as usize * self.width as usize + x as usize]
    }

    pub fn set_pixel(&mut self, x: u32, y: u32, c: Rgba)
        requires
            old(self)@.contains(x as int, y as int),
        ensures
            final(self)@.same_size(old(self)@),
            final(self)@.well_shaped(),
            final(self)@.at(x as int, y as int) == c,
            forall|i: int, j: int|
                old(self)@.contains(i, j) && (i != x || j != y) ==> final(self)@.at(i, j) == old(
                    self,
                )@.at(i, j),
    {
        proof {
            use_type_invariant(&*self);
            lemma_offset(self.width as int, self.height as int, x as int, y as int);
        }
        let _n = self.pixels.len();
        let k = y as usize * self.width as usize + x as usize;
        let mut taken = Image { width: 0, height: 0, pixels: Vec::new() };
        core::mem::swap(self, &mut taken);
        let Image { width, height, mut pixels } = taken;
        pixels.set(k, c);
        *self = Image { width, height, pixels };
        proof {
            let w = self.width as int;
            let h = self.height as int;
            assert forall|i: int, j: int|
                old(self)@.contains(i, j) && (i != x || j != y) implies self@.at(i, j) == old(
                self,
            )@.at(i, j) by {
                lemma_offset_unique(w, h, i, j, x as int, y as int);
                lemma_offset(w, h, i, j);
            }
        }
    }

    /// Reads a buffer from its channels, four bytes per pixel, row by row;
    /// `None` where the byte count does not match the size.
    pub fn from_rgba_bytes(width: u32, height: u32, bytes: &Vec<u8>) -> (r: Option<Image>)
        ensures
            r is Some <==> bytes@.len() == 4 * (width as int * height as int),
            r matches Some(img) ==> {
                &&& img@.width == width
                &&& img@.height == height
                &&& img@.well_shaped()
                &&& encodes(bytes@, img@.pixels)
            },
    {
        let n = bytes.len();
        proof {
            assert(width as int * height as int <= u64::MAX) by (nonlinear_arith)
                requires
                    width <= u32::MAX,
                    height <= u32::MAX,
            ;
        }
        let area: u64 = width as u64 * height as u64;
        if n % 4 != 0 || (n / 4) as u64 != area {
            return None;
        }
        let count: usize = n / 4;
        let mut pixels: Vec<Rgba> = Vec::with_capacity(count);
        let mut i: usize = 0;
        while i < count
            invariant
                count * 4 == n,
                n == bytes@.len(),
                i <= count,
                pixels@.len() == i,
                forall|k: int|
                    0 <= k < i ==> {
                        &&& #[trigger] pixels@[k].r == bytes@[4 * k]
                        &&& pixels@[k].g == bytes@[4 * k + 1]
                        &&& pixels@[k].b == bytes@[4 * k + 2]
                        &&& pixels@[k].a == bytes@[4 * k + 3]
                    },
            decreases count - i,
        {
            let b = 4 * i;
            pixels.push(Rgba { r: bytes[b], g: bytes[b + 1], b: bytes[b + 2], a: bytes[b + 3] });
            i = i + 1;
        }
        let img = Image { width, height, pixels };
        assert(img@.well_shaped());
        assert(bytes@.len() == 4 * img@.pixels.len());
        assert(encodes(bytes@, img@.pixels));
        Some(img)
    }

    /// The channels of every pixel, four bytes per pixel, row by row.
    pub fn to_rgba_bytes(&self) -> (bytes: Vec<u8>)
        ensures
            encodes(bytes@, self@.pixels),
    {
        let n = self.pixels.len();
        let mut bytes: Vec<u8> = Vec::new();
        let mut i: usize = 0;
        while i < n
            invariant
                n == self.pixels@.len(),
                i <= n,
                bytes@.len() == 4 * i,
                forall|k: int|
                    0 <= k < i ==> {
                        &&& #[trigger] self.pixels@[k].r == bytes@[4 * k]
                        &&& self.pixels@[k].g == bytes@[4 * k + 1]
                        &&& self.pixels@[k].b == bytes@[4 * k + 2]
                        &&& self.pixels@[k].a == bytes@[4 * k + 3]
                    },
            decreases n - i,
        {
            let p = self.pixels[i];
            let ghost prev = bytes@;
            bytes.push(p.r);
            bytes.push(p.g);
            bytes.push(p.b);
            bytes.push(p.a);
            proof {
                assert forall|k: int| 0 <= k < i + 1 implies {
                    &&& #[trigger] self.pixels@[k].r == bytes@[4 * k]
                    &&& self.pixels@[k].g == bytes@[4 * k + 1]
                    &&& self.pixels@[k].b == bytes@[4 * k + 2]
                    &&& self.pixels@[k].a == bytes@[4 * k + 3]
                } by {
                    if k < i {
                        assert(bytes@[4 * k] == prev[4 * k]);
                        assert(bytes@[4 * k + 1] == prev[4 * k + 1]);
                        assert(bytes@[4 * k + 2] == prev[4 * k + 2]);
                        assert(bytes@[4 * k + 3] == prev[4 * k + 3]);
                    } else {
                        assert(bytes@ == prev.push(p.r).push(p.g).push(p.b).push(p.a));
                        assert(bytes@[4 * k] == p.r);
                        assert(bytes@[4 * k + 1] == p.g);
                        assert(bytes@[4 * k + 2] == p.b);
                        assert(bytes@[4 * k + 3] == p.a);
                    }
                }
            }
            i = i + 1;
        }
        assert(self@.pixels == self.pixels@);
        assert(bytes@.len() == 4 * self@.pixels.len());
        bytes
    }
}

} // verus!
