//! The scene: frame, layered objects, and what each object asks of the
//! renderer for one source image.

use vstd::prelude::*;
use vstd::string::StringExecFns;
use crate::color::{Rgba, color_of, fill_color, parse_hex_color, text_color, transparent};
use crate::compose::{blend, composited};
use crate::raster::{Image, Raster};
use crate::text::{DataTable, displayed_text, resolve_text, same_text};
use crate::transform::{
    fit_size,
    place_rotated,
    resize_exact,
    resize_fit,
    rotated_origin,
    stretched,
};

verus! {

/// Font size of a text layer that names none.
pub const DEFAULT_FONT_SIZE: u32 = 32;

/// The smallest font size that fitting a text to its box goes down to.
pub const MIN_FONT_SIZE: u32 = 8;

/// The fixed-size output canvas.
pub struct Frame {
    pub width: u32,
    pub height: u32,
    /// Hex color of the canvas; an unreadable one gives opaque white.
    pub background_color: String,
}

/// What a layer draws.
#[derive(Clone, Copy, Debug, PartialEq, Eq, Structural)]
pub enum ObjectKind {
    /// An external picture stretched over the layer's box.
    Background,
    /// The batch's current source image, fitted into the layer's box.
    Hero,
    /// An external picture stretched over the layer's box.
    Image,
    /// A single line of text bound to the lookup table.
    Text,
    /// Anything else; never drawn.
    Other,
}

/// The kind that a type name denotes.
pub open spec fn kind_named(name: Seq<char>) -> ObjectKind {
    if name == "background"@ {
        ObjectKind::Background
    } else if name == "hero"@ {
        ObjectKind::Hero
    } else if name == "image"@ {
        ObjectKind::Image
    } else if name == "text"@ {
        ObjectKind::Text
    } else {
        ObjectKind::Other
    }
}

/// See [`kind_named`].
pub fn object_kind(name: &str) -> (k: ObjectKind)
    ensures
        k == kind_named(name@),
{
    if same_text(name, "background") {
        ObjectKind::Background
    } else if same_text(name, "hero") {
        ObjectKind::Hero
    } else if same_text(name, "image") {
        ObjectKind::Image
    } else if same_text(name, "text") {
        ObjectKind::Text
    } else {
        ObjectKind::Other
    }
}

/// One layer of the scene, in pixel units.
pub struct SceneObject {
    pub kind: ObjectKind,
    pub visible: bool,
    /// Top left corner of the layer's box on the canvas.
    pub x: i64,
    pub y: i64,
    /// Size of the layer's box.
    pub width: u32,
    pub height: u32,
    /// Whether the layer is turned by a nonzero angle.
    pub rotated: bool,
    /// Opacity as a multiplier out of 255.
    pub alpha_mult: u8,
    /// Literal text shown where the table has no value.
    pub content: Option<String>,
    /// Column of the lookup table that a text layer shows.
    pub key: Option<String>,
    pub font_size: Option<u32>,
    /// Hex color of a text layer.
    pub fill: Option<String>,
    /// File of a background or image layer.
    pub source: Option<String>,
}

/// What the renderer does for one layer.
pub enum LayerPlan {
    /// Nothing is drawn.
    Skip,
    /// Read the picture at `path`; if it can be read, stretch it over the box.
    Stretch { path: String },
    /// Fit the source image into the box.
    Fit,
    /// Draw `text` in `color`, starting from `font_size` and shrunk to fit.
    Text { text: String, font_size: u32, color: Rgba },
}

pub open spec fn opt_view(o: Option<String>) -> Option<Seq<char>> {
    match o {
        Some(s) => Some(s@),
        None => None,
    }
}

/// The text that a text layer shows for the image at `image_path`.
pub open spec fn layer_text(
    obj: SceneObject,
    table: Seq<(Seq<char>, Seq<char>, Seq<char>)>,
    image_path: Seq<char>,
) -> Seq<char> {
    displayed_text(table, image_path, opt_view(obj.key), opt_view(obj.content))
}

/// Decides what one layer draws for the image at `image_path`. Hidden layers
/// and layers of another kind draw nothing; a background or image layer
/// without a file draws nothing; a text layer whose text comes out empty
/// draws nothing.
pub fn plan_layer(obj: &SceneObject, table: &DataTable, image_path: &str) -> (r: LayerPlan)
    ensures
        !obj.visible ==> r is Skip,
        obj.visible ==> match obj.kind {
            ObjectKind::Background | ObjectKind::Image => match obj.source {
                Some(s) => r matches LayerPlan::Stretch { path } && path@ == s@,
                None => r is Skip,
            },
            ObjectKind::Hero => r is Fit,
            ObjectKind::Text => {
                let t = layer_text(*obj, table@, image_path@);
                if t.len() == 0 {
                    r is Skip
                } else {
                    r matches LayerPlan::Text { text, font_size, color } && text@ == t && font_size
                        == match obj.font_size {
                        Some(f) => f,
                        None => DEFAULT_FONT_SIZE,
                    } && color == fill_color(opt_view(obj.fill))
                }
            },
            ObjectKind::Other => r is Skip,
        },
{
    if !obj.visible {
        return LayerPlan::Skip;
    }
    match obj.kind {
        ObjectKind::Background | ObjectKind::Image => match &obj.source {
            Some(s) => LayerPlan::Stretch { path: s.clone() },
            None => LayerPlan::Skip,
        },
        ObjectKind::Hero => LayerPlan::Fit,
        ObjectKind::Text => {
            let text = resolve_text(table, image_path, &obj.key, &obj.content);
            if text.unicode_len() == 0 {
                LayerPlan::Skip
            } else {
                let font_size = match obj.font_size {
                    Some(f) => f,
                    None => DEFAULT_FONT_SIZE,
                };
                let color = match &obj.fill {
                    Some(f) => text_color(Some(f.as_str())),
                    None => text_color(None),
                };
                LayerPlan::Text { text, font_size, color }
            }
        },
        ObjectKind::Other => LayerPlan::Skip,
    }
}

/// The canvas of one image before any layer: the frame filled with its
/// background color. `None` where the frame does not fit in memory.
pub fn background_canvas(frame: &Frame) -> (r: Option<Image>)
    ensures
        r is Some <==> frame.width as int * frame.height as int <= usize::MAX,
        r matches Some(img) ==> {
            &&& img@.width == frame.width
            &&& img@.height == frame.height
            &&& forall|x: int, y: int|
                img@.contains(x, y) ==> img@.at(x, y) == color_of(frame.background_color@)
        },
{
    if product(frame.width, frame.height) as u128 > usize::MAX as u128 {
        return None;
    }
    let color = parse_hex_color(frame.background_color.as_str());
    Some(Image::filled(frame.width, frame.height, color))
}

fn product(a: u32, b: u32) -> (r: u64)
    ensures
        r == a as int * b as int,
{
    proof {
        assert(a as int * b as int <= u64::MAX) by (nonlinear_arith)
            requires
                a <= u32::MAX,
                b <= u32::MAX,
        ;
    }
    a as u64 * b as u64
}

/// Whether buffers for resampling a picture `src_width` pixels wide into a
/// `width` × `height` box fit in memory.
pub open spec fn resample_fits(src_width: nat, width: nat, height: nat) -> bool {
    &&& 4 * (width * height) <= usize::MAX
    &&& 4 * (src_width * height) <= usize::MAX
}

fn resample_fits_exec(src_width: u32, width: u32, height: u32) -> (r: bool)
    ensures
        r == resample_fits(src_width as nat, width as nat, height as nat),
{
    4 * (product(width, height) as u128) <= usize::MAX as u128 && 4 * (product(src_width, height)
        as u128) <= usize::MAX as u128
}

/// A background or image layer: the picture stretched over the layer's box.
pub fn stretch_layer(picture: &Image, obj: &SceneObject) -> (r: Option<Image>)
    ensures
        r is Some <==> resample_fits(picture@.width, obj.width as nat, obj.height as nat),
        r matches Some(img) ==> img@ == stretched(picture@, obj.width as nat, obj.height as nat),
{
    if !resample_fits_exec(picture.width(), obj.width, obj.height) {
        return None;
    }
    Some(resize_exact(picture, obj.width, obj.height))
}

/// A hero layer: the source image fitted into the layer's box, anchored at its
/// top left corner, on a transparent buffer the size of the box. `None` for an
/// empty source image or a box too large for memory.
pub fn fit_layer(hero: &Image, obj: &SceneObject) -> (r: Option<Image>)
    ensures
        r is Some <==> hero@.width > 0 && hero@.height > 0 && resample_fits(
            hero@.width,
            obj.width as nat,
            obj.height as nat,
        ),
        r matches Some(img) ==> {
            &&& img@.width == obj.width
            &&& img@.height == obj.height
            &&& forall|x: int, y: int|
                #![trigger img@.at(x, y)]
                img@.contains(x, y) ==> img@.at(x, y) == ({
                    let fit = fit_size(hero@.width, hero@.height, obj.width as nat, obj.height as nat);
                    if x < fit.0 && y < fit.1 {
                        stretched(hero@, fit.0, fit.1).at(x, y)
                    } else {
                        transparent()
                    }
                })
        },
{
    let w = hero.width();
    let h = hero.height();
    if w == 0 || h == 0 || !resample_fits_exec(w, obj.width, obj.height) {
        return None;
    }
    Some(resize_fit(hero, obj.width, obj.height))
}

/// Where a finished layer buffer goes: a turned layer is centered on the
/// center of the object's unturned box, any other starts at the box's corner.
pub open spec fn layer_origin(obj: SceneObject, layer: Raster) -> (i64, i64) {
    if obj.rotated {
        (
            rotated_origin(obj.x as int, obj.width as nat, layer.width),
            rotated_origin(obj.y as int, obj.height as nat, layer.height),
        )
    } else {
        (obj.x, obj.y)
    }
}

/// Lays a finished layer buffer over the canvas at the layer's origin (see
/// [`layer_origin`]) with the layer's opacity.
pub fn composite_layer(canvas: &mut Image, layer: &Image, obj: &SceneObject)
    ensures
        final(canvas)@.same_size(old(canvas)@),
        final(canvas)@.well_shaped(),
        forall|x: int, y: int|
            #![trigger final(canvas)@.at(x, y)]
            old(canvas)@.contains(x, y) ==> final(canvas)@.at(x, y) == composited(
                old(canvas)@,
                layer@,
                layer_origin(*obj, layer@).0 as int,
                layer_origin(*obj, layer@).1 as int,
                obj.alpha_mult,
                x,
                y,
            ),
{
    let (left, top) = if obj.rotated {
        (place_rotated(obj.x, obj.width, layer.width()), place_rotated(obj.y, obj.height, layer.height()))
    } else {
        (obj.x, obj.y)
    };
    blend(canvas, layer, left, top, obj.alpha_mult);
}

/// What `std::path::Path::file_stem` gives for a path.
pub uninterp spec fn file_stem_of(path: Seq<char>) -> Option<Seq<char>>;

/// Relies on `std::path::Path::file_stem`: the final component of the path
/// without its extension, if there is a final component. A stem of a `&str`
/// path is valid UTF-8, so the conversion back to a string loses nothing.
#[verifier::external_body]
fn file_stem(path: &str) -> (r: Option<String>)
    ensures
        match r {
            Some(s) => file_stem_of(path@) == Some(s@),
            None => file_stem_of(path@) is None,
        },
{
    match std::path::Path::new(path).file_stem() {
        Some(s) => Some(s.to_string_lossy().into_owned()),
        None => None,
    }
}

/// Name of the file written for the source image at `path`: its stem (or
/// `output` where it has none) followed by `_infographic.png`.
pub fn output_file_name(path: &str) -> (r: String)
    ensures
        r@ == match file_stem_of(path@) {
            Some(s) => s,
            None => "output"@,
        } + "_infographic.png"@,
{
    let mut name = match file_stem(path) {
        Some(s) => s,
        None => String::from_str("output"),
    };
    name.append("_infographic.png");
    name
}

} // verus!
