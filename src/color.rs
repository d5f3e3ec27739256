//! RGBA pixels and the `#rrggbb[aa]` notation used for frame and text colors.

use vstd::prelude::*;

verus! {

/// One 8-bit-per-channel sRGB pixel with straight (non-premultiplied) alpha.
#[derive(Clone, Copy, Debug, PartialEq, Eq, Structural)]
pub struct Rgba {
    pub r: u8,
    pub g: u8,
    pub b: u8,
    pub a: u8,
}

/// Fully transparent black, the fill of every padding area.
pub open spec fn transparent() -> Rgba {
    Rgba { r: 0, g: 0, b: 0, a: 0 }
}

/// Opaque white, used when a background color cannot be read.
pub open spec fn opaque_white() -> Rgba {
    Rgba { r: 255, g: 255, b: 255, a: 255 }
}

/// Opaque black, used when a text object names no fill color.
pub open spec fn opaque_black() -> Rgba {
    Rgba { r: 0, g: 0, b: 0, a: 255 }
}

impl Rgba {
    pub fn transparent() -> (c: Rgba)
        ensures
            c == transparent(),
    {
        Rgba { r: 0, g: 0, b: 0, a: 0 }
    }

    pub fn opaque_white() -> (c: Rgba)
        ensures
            c == opaque_white(),
    {
        Rgba { r: 255, g: 255, b: 255, a: 255 }
    }

    pub fn opaque_black() -> (c: Rgba)
        ensures
            c == opaque_black(),
    {
        Rgba { r: 0, g: 0, b: 0, a: 255 }
    }
}

/// Value of one hexadecimal digit, either case.
pub open spec fn hex_value(c: char) -> Option<u8> {
    let u = c as u32;
    if 48 <= u <= 57 {
        Some((u - 48) as u8)
    } else if 97 <= u <= 102 {
        Some((u - 87) as u8)
    } else if 65 <= u <= 70 {
        Some((u - 55) as u8)
    } else {
        None
    }
}

/// The channel written as the two hex digits at `i` and `i + 1`.
pub open spec fn channel_at(h: Seq<char>, i: int) -> u8 {
    (16 * (hex_value(h[i])->0 as int) + hex_value(h[i + 1])->0 as int) as u8
}

/// Number of `#` characters at the start of `s`.
pub open spec fn leading_hashes(s: Seq<char>) -> nat
    decreases s.len(),
{
    if s.len() > 0 && s[0] == '#' {
        1 + leading_hashes(s.drop_first())
    } else {
        0
    }
}

/// What follows the leading `#`s.
pub open spec fn hex_body(s: Seq<char>) -> Seq<char> {
    s.subrange(leading_hashes(s) as int, s.len() as int)
}

/// A well-formed color: after any leading `#`s, exactly 6 or 8 hex digits.
pub open spec fn is_hex_color(s: Seq<char>) -> bool {
    let h = hex_body(s);
    &&& (h.len() == 6 || h.len() == 8)
    &&& forall|i: int| 0 <= i < h.len() ==> (#[trigger] hex_value(h[i])) is Some
}

/// The color that a hex string denotes: `rrggbb` or `rrggbbaa` after any
/// leading `#`s (alpha 255 when absent); anything else is opaque white.
pub open spec fn color_of(s: Seq<char>) -> Rgba {
    let h = hex_body(s);
    if is_hex_color(s) {
        Rgba {
            r: channel_at(h, 0),
            g: channel_at(h, 2),
            b: channel_at(h, 4),
            a: if h.len() == 8 {
                channel_at(h, 6)
            } else {
                255
            },
        }
    } else {
        opaque_white()
    }
}

proof fn lemma_leading_hashes(s: Seq<char>, k: int)
    requires
        0 <= k <= s.len(),
        forall|i: int| 0 <= i < k ==> s[i] == '#',
        k == s.len() || s[k] != '#',
    ensures
        leading_hashes(s) == k,
    decreases k,
{
    if k > 0 {
        let t = s.drop_first();
        assert forall|i: int| 0 <= i < k - 1 implies t[i] == '#' by {
            assert(t[i] == s[i + 1]);
        }
        if k < s.len() {
            assert(t[k - 1] == s[k]);
        }
        lemma_leading_hashes(t, k - 1);
    }
}

fn hex_digit(c: char) -> (r: Option<u8>)
    ensures
        r == hex_value(c),
{
    let u = c as u32;
    if 48 <= u && u <= 57 {
        Some((u - 48) as u8)
    } else if 97 <= u && u <= 102 {
        Some((u - 87) as u8)
    } else if 65 <= u && u <= 70 {
        Some((u - 55) as u8)
    } else {
        None
    }
}

fn read_channel(s: &str, i: usize) -> (v: u8)
    requires
        i + 1 < s@.len(),
        s@.len() <= usize::MAX,
        hex_value(s@[i as int]) is Some,
        hex_value(s@[i + 1]) is Some,
    ensures
        v == (16 * (hex_value(s@[i as int])->0 as int) + hex_value(s@[i + 1])->0 as int) as u8,
{
    match (hex_digit(s.get_char(i)), hex_digit(s.get_char(i + 1))) {
        (Some(h), Some(l)) => 16 * h + l,
        _ => 0,
    }
}

/// Reads a color written as hex digits. Never fails: anything but 6 or 8 hex
/// digits after the leading `#`s gives opaque white.
pub fn parse_hex_color(s: &str) -> (c: Rgba)
    ensures
        c == color_of(s@),
{
    let n = s.unicode_len();
    let mut k: usize = 0;
    while k < n && s.get_char(k) == '#'
        invariant
            n == s@.len(),
            k <= n,
            forall|i: int| 0 <= i < k ==> s@[i] == '#',
        decreases n - k,
    {
        k = k + 1;
    }
    proof {
        lemma_leading_hashes(s@, k as int);
    }
    let ghost h = s@.subrange(k as int, n as int);
    assert(h == hex_body(s@));
    let m = n - k;
    if m != 6 && m != 8 {
        return Rgba::opaque_white();
    }
    let mut i: usize = k;
    while i < n
        invariant
            n == s@.len(),
            k <= i <= n,
            h == s@.subrange(k as int, n as int),
            h == hex_body(s@),
            forall|j: int| 0 <= j < i - k ==> (#[trigger] hex_value(h[j])) is Some,
        decreases n - i,
    {
        if hex_digit(s.get_char(i)).is_none() {
            assert(h[i - k] == s@[i as int]);
            assert(hex_value(h[i - k]) is None);
            assert(!is_hex_color(s@));
            return Rgba::opaque_white();
        }
        assert(h[i - k] == s@[i as int]);
        i = i + 1;
    }
    assert(is_hex_color(s@));
    assert forall|j: int| 0 <= j < m implies h[j] == s@[k + j] by {}
    assert(hex_value(h[0]) is Some && hex_value(h[1]) is Some && hex_value(h[2]) is Some);
    assert(hex_value(h[3]) is Some && hex_value(h[4]) is Some && hex_value(h[5]) is Some);
    let r = read_channel(s, k);
    let g = read_channel(s, k + 2);
    let b = read_channel(s, k + 4);
    let a = if m == 8 {
        assert(hex_value(h[6]) is Some && hex_value(h[7]) is Some);
        read_channel(s, k + 6)
    } else {
        255
    };
    Rgba { r, g, b, a }
}

/// Whether a string is a well-formed hex color (see [`is_hex_color`]).
pub fn is_well_formed_color(s: &str) -> (r: bool)
    ensures
        r == is_hex_color(s@),
{
    let n = s.unicode_len();
    let mut k: usize = 0;
    while k < n && s.get_char(k) == '#'
        invariant
            n == s@.len(),
            k <= n,
            forall|i: int| 0 <= i < k ==> s@[i] == '#',
        decreases n - k,
    {
        k = k + 1;
    }
    proof {
        lemma_leading_hashes(s@, k as int);
    }
    let ghost h = s@.subrange(k as int, n as int);
    assert(h == hex_body(s@));
    let m = n - k;
    if m != 6 && m != 8 {
        return false;
    }
    let mut i: usize = k;
    while i < n
        invariant
            n == s@.len(),
            k <= i <= n,
            h == s@.subrange(k as int, n as int),
            h == hex_body(s@),
            forall|j: int| 0 <= j < i - k ==> (#[trigger] hex_value(h[j])) is Some,
        decreases n - i,
    {
        if hex_digit(s.get_char(i)).is_none() {
            assert(h[i - k] == s@[i as int]);
            assert(hex_value(h[i - k]) is None);
            assert(!is_hex_color(s@));
            return false;
        }
        assert(h[i - k] == s@[i as int]);
        i = i + 1;
    }
    true
}

/// The fill of a text object: its own color where it names a well-formed one,
/// else opaque black.
pub open spec fn fill_color(fill: Option<Seq<char>>) -> Rgba {
    match fill {
        Some(f) => if is_hex_color(f) {
            color_of(f)
        } else {
            opaque_black()
        },
        None => opaque_black(),
    }
}

/// See [`fill_color`].
pub fn text_color(fill: Option<&str>) -> (c: Rgba)
    ensures
        c == fill_color(
            match fill {
                Some(f) => Some(f@),
                None => None,
            },
        ),
{
    match fill {
        Some(f) => if is_well_formed_color(f) {
            parse_hex_color(f)
        } else {
            Rgba::opaque_black()
        },
        None => Rgba::opaque_black(),
    }
}

} // verus!
