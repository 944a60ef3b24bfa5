use crate::image::{
    coord_of, dist2, lemma_split_index, ColorImage, Coord, CoordImage, Rgba,
};
use crate::settings::OutlineSettings;
use vstd::prelude::*;

verus! {

/// One channel of `c` laid over `o` with weight `a` out of 255, rounded
/// down.
pub open spec fn blend_channel(o: int, c: int, a: int) -> int {
    (o * (255 - a) + c * a) / 255
}

/// `color` laid over `orig` with the weight of its own alpha; the pixel
/// keeps its alpha.
pub open spec fn blend(orig: Rgba, color: Rgba) -> Rgba {
    Rgba {
        r: blend_channel(orig.r as int, color.r as int, color.a as int) as u8,
        g: blend_channel(orig.g as int, color.g as int, color.a as int) as u8,
        b: blend_channel(orig.b as int, color.b as int, color.a as int) as u8,
        a: orig.a,
    }
}

/// Texel `p` lies on the outline: its nearest seed is at most `thickness`
/// texels away. The boundary is included.
pub open spec fn within_outline(nearest: Option<Coord>, p: Coord, thickness: int) -> bool {
    match nearest {
        Some(q) => dist2(q, p) <= thickness * thickness,
        None => false,
    }
}

/// The output pixel at `p`: the outline color blended over the original
/// inside the outline, the original unchanged elsewhere.
pub open spec fn composite_pixel(orig: Rgba, nearest: Option<Coord>, p: Coord, settings: OutlineSettings) -> Rgba {
    if within_outline(nearest, p, settings.outline_thickness as int) {
        blend(orig, settings.outline_color)
    } else {
        orig
    }
}

/// The composited image of a `w` by `h` view.
pub open spec fn composite_pixels(color: Seq<Rgba>, nearest: Seq<Option<Coord>>, w: int, h: int, settings: OutlineSettings) -> Seq<Rgba> {
    Seq::new(
        (w * h) as nat,
        |i: int| composite_pixel(color[i], nearest[i], coord_of(w, i), settings),
    )
}

fn blend_channel_exec(o: u8, c: u8, a: u8) -> (r: u8)
    ensures
        r == blend_channel(o as int, c as int, a as int),
{
    let o32 = o as u32;
    let c32 = c as u32;
    let a32 = a as u32;
    assert(o32 * (255 - a32) + c32 * a32 <= 255 * 255) by (nonlinear_arith)
        requires
            o32 <= 255,
            c32 <= 255,
            a32 <= 255,
    ;
    let v = (o32 * (255 - a32) + c32 * a32) / 255;
    assert(v <= 255) by (nonlinear_arith)
        requires
            v == (o32 * (255 - a32) + c32 * a32) / 255,
            o32 * (255 - a32) + c32 * a32 <= 255 * 255,
    ;
    v as u8
}

/// `color` laid over `orig` with the weight of its own alpha.
pub fn blend_color(orig: Rgba, color: Rgba) -> (r: Rgba)
    ensures
        r == blend(orig, color),
{
    Rgba {
        r: blend_channel_exec(orig.r, color.r, color.a),
        g: blend_channel_exec(orig.g, color.g, color.a),
        b: blend_channel_exec(orig.b, color.b, color.a),
        a: orig.a,
    }
}

/// Whether texel `p` lies within `thickness` texels of its nearest seed.
pub fn is_within_outline(nearest: Option<Coord>, p: Coord, thickness: u32) -> (r: bool)
    ensures
        r == within_outline(nearest, p, thickness as int),
{
    match nearest {
        None => false,
        Some(q) => {
            let dx: u64 = if q.x >= p.x { (q.x - p.x) as u64 } else { (p.x - q.x) as u64 };
            let dy: u64 = if q.y >= p.y { (q.y - p.y) as u64 } else { (p.y - q.y) as u64 };
            let t = thickness as u64;
            assert(dx * dx <= 0xffff_ffff * 0xffff_ffff) by (nonlinear_arith)
                requires
                    dx <= 0xffff_ffff,
            ;
            assert(dy * dy <= 0xffff_ffff * 0xffff_ffff) by (nonlinear_arith)
                requires
                    dy <= 0xffff_ffff,
            ;
            assert(t * t <= 0xffff_ffff * 0xffff_ffff) by (nonlinear_arith)
                requires
                    t <= 0xffff_ffff,
            ;
            assert((q.x - p.x) * (q.x - p.x) == dx * dx) by (nonlinear_arith)
                requires
                    dx == q.x - p.x || dx == p.x - q.x,
            ;
            assert((q.y - p.y) * (q.y - p.y) == dy * dy) by (nonlinear_arith)
                requires
                    dy == q.y - p.y || dy == p.y - q.y,
            ;
            (dx as u128) * (dx as u128) + (dy as u128) * (dy as u128) <= (t as u128) * (t as u128)
        },
    }
}

/// The output pixel at `p`, given the original pixel and the nearest seed
/// that propagation found for `p`.
pub fn composite_texel(orig: Rgba, nearest: Option<Coord>, p: Coord, settings: &OutlineSettings) -> (r: Rgba)
    ensures
        r == composite_pixel(orig, nearest, p, *settings),
{
    if is_within_outline(nearest, p, settings.outline_thickness) {
        blend_color(orig, settings.outline_color)
    } else {
        orig
    }
}

/// Compositing: blends the outline color into `color` wherever the nearest
/// seed in `nearest` is at most the outline thickness away.
pub fn composite(color: &ColorImage, nearest: &CoordImage, settings: &OutlineSettings) -> (r: ColorImage)
    requires
        color.wf(),
        nearest.wf(),
        nearest.width == color.width,
        nearest.height == color.height,
    ensures
        r.wf(),
        r.width == color.width,
        r.height == color.height,
        r.pixels@ == composite_pixels(color.pixels@, nearest.texels@, color.width as int, color.height as int, *settings),
{
    let w = color.width;
    let h = color.height;
    let n = color.pixels.len();
    let mut pixels: Vec<Rgba> = Vec::with_capacity(n);
    let mut i: usize = 0;
    while i < n
        invariant
            color.wf(),
            nearest.wf(),
            color.width == w,
            color.height == h,
            nearest.width == w,
            nearest.height == h,
            n == w * h,
            i <= n,
            pixels@.len() == i,
            forall|j: int| 0 <= j < i ==> pixels@[j] == composite_pixels(color.pixels@, nearest.texels@, w as int, h as int, *settings)[j],
        decreases n - i,
    {
        assert(w > 0) by (nonlinear_arith)
            requires
                i < n,
                n == w * h,
        ;
        proof {
            lemma_split_index(w as int, h as int, i as int);
        }
        let p = Coord { x: (i % (w as usize)) as u32, y: (i / (w as usize)) as u32 };
        pixels.push(composite_texel(color.pixels[i], nearest.texels[i], p, settings));
        i = i + 1;
    }
    proof {
        assert(pixels@ =~= composite_pixels(color.pixels@, nearest.texels@, w as int, h as int, *settings));
    }
    ColorImage { width: w, height: h, pixels }
}

} // verus!
