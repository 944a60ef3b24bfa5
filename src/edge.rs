use crate::image::{
    coord_of, index_of, lemma_index_coord, lemma_split_index, texel_index, ColorImage, Coord,
    CoordImage, DepthImage, Rgba,
};
use crate::settings::OutlineSettings;
use vstd::prelude::*;

verus! {

/// `|a - b|`.
pub open spec fn abs_diff(a: int, b: int) -> int {
    if a >= b {
        a - b
    } else {
        b - a
    }
}

/// The largest difference between two colors over the red, green and blue
/// channels.
pub open spec fn color_delta(a: Rgba, b: Rgba) -> int {
    let dr = abs_diff(a.r as int, b.r as int);
    let dg = abs_diff(a.g as int, b.g as int);
    let db = abs_diff(a.b as int, b.b as int);
    if dr >= dg && dr >= db {
        dr
    } else if dg >= db {
        dg
    } else {
        db
    }
}

/// Texels `i` and `j` differ by more than the thresholds allow, in depth or
/// in color.
pub open spec fn differs(color: Seq<Rgba>, depth: Seq<u16>, i: int, j: int, settings: OutlineSettings) -> bool {
    abs_diff(depth[i] as int, depth[j] as int) > settings.depth_threshold
        || color_delta(color[i], color[j]) > settings.edge_threshold
}

/// Texel `(x, y)` lies on a silhouette: it differs from one of its four
/// direct neighbours inside the image.
pub open spec fn is_edge(color: Seq<Rgba>, depth: Seq<u16>, w: int, h: int, x: int, y: int, settings: OutlineSettings) -> bool {
    let i = texel_index(w, x, y);
    ||| x > 0 && differs(color, depth, i, texel_index(w, x - 1, y), settings)
    ||| x + 1 < w && differs(color, depth, i, texel_index(w, x + 1, y), settings)
    ||| y > 0 && differs(color, depth, i, texel_index(w, x, y - 1), settings)
    ||| y + 1 < h && differs(color, depth, i, texel_index(w, x, y + 1), settings)
}

/// The seed image: an edge texel holds its own position, any other the
/// sentinel.
pub open spec fn seed_texels(color: Seq<Rgba>, depth: Seq<u16>, w: int, h: int, settings: OutlineSettings) -> Seq<Option<Coord>> {
    Seq::new(
        (w * h) as nat,
        |i: int|
            if is_edge(color, depth, w, h, i % w, i / w, settings) {
                Some(coord_of(w, i))
            } else {
                None
            },
    )
}

fn abs_diff_exec(a: u8, b: u8) -> (r: u8)
    ensures
        r == abs_diff(a as int, b as int),
{
    if a >= b {
        a - b
    } else {
        b - a
    }
}

fn color_delta_exec(a: Rgba, b: Rgba) -> (r: u8)
    ensures
        r == color_delta(a, b),
{
    let dr = abs_diff_exec(a.r, b.r);
    let dg = abs_diff_exec(a.g, b.g);
    let db = abs_diff_exec(a.b, b.b);
    if dr >= dg && dr >= db {
        dr
    } else if dg >= db {
        dg
    } else {
        db
    }
}

fn differs_exec(color: &ColorImage, depth: &DepthImage, i: usize, j: usize, settings: &OutlineSettings) -> (r: bool)
    requires
        color.wf(),
        depth.wf(),
        color.width == depth.width,
        color.height == depth.height,
        i < color.pixels@.len(),
        j < color.pixels@.len(),
    ensures
        r == differs(color.pixels@, depth.depth@, i as int, j as int, *settings),
{
    let di = depth.depth[i];
    let dj = depth.depth[j];
    let dd: u16 = if di >= dj {
        di - dj
    } else {
        dj - di
    };
    dd > settings.depth_threshold || color_delta_exec(color.pixels[i], color.pixels[j])
        > settings.edge_threshold
}

/// Whether texel `(x, y)` lies on a silhouette.
pub fn is_edge_at(color: &ColorImage, depth: &DepthImage, x: u32, y: u32, settings: &OutlineSettings) -> (r: bool)
    requires
        color.wf(),
        depth.wf(),
        color.width == depth.width,
        color.height == depth.height,
        x < color.width,
        y < color.height,
    ensures
        r == is_edge(color.pixels@, depth.depth@, color.width as int, color.height as int, x as int, y as int, *settings),
{
    let w = color.width;
    let h = color.height;
    let i = index_of(w, h, x, y);
    if x > 0 && differs_exec(color, depth, i, index_of(w, h, x - 1, y), settings) {
        return true;
    }
    if x + 1 < w && differs_exec(color, depth, i, index_of(w, h, x + 1, y), settings) {
        return true;
    }
    if y > 0 && differs_exec(color, depth, i, index_of(w, h, x, y - 1), settings) {
        return true;
    }
    y + 1 < h && differs_exec(color, depth, i, index_of(w, h, x, y + 1), settings)
}

/// Edge detection: the seed image of a view, in which each silhouette
/// texel holds its own position and every other texel the sentinel.
pub fn detect_edges(color: &ColorImage, depth: &DepthImage, settings: &OutlineSettings) -> (r: CoordImage)
    requires
        color.wf(),
        depth.wf(),
        color.width == depth.width,
        color.height == depth.height,
    ensures
        r.wf(),
        r.width == color.width,
        r.height == color.height,
        r.texels@ == seed_texels(color.pixels@, depth.depth@, color.width as int, color.height as int, *settings),
{
    let w = color.width;
    let h = color.height;
    let n = color.pixels.len();
    let mut texels: Vec<Option<Coord>> = Vec::with_capacity(n);
    let mut i: usize = 0;
    while i < n
        invariant
            color.wf(),
            depth.wf(),
            color.width == w,
            color.height == h,
            depth.width == w,
            depth.height == h,
            n == w * h,
            i <= n,
            texels@.len() == i,
            forall|j: int| 0 <= j < i ==> texels@[j] == seed_texels(color.pixels@, depth.depth@, w as int, h as int, *settings)[j],
        decreases n - i,
    {
        assert(w > 0) by (nonlinear_arith)
            requires
                i < n,
                n == w * h,
        ;
        proof {
            lemma_split_index(w as int, h as int, i as int);
        }
        let x = (i % (w as usize)) as u32;
        let y = (i / (w as usize)) as u32;
        if is_edge_at(color, depth, x, y, settings) {
            texels.push(Some(Coord { x, y }));
        } else {
            texels.push(None);
        }
        i = i + 1;
    }
    proof {
        assert(texels@ =~= seed_texels(color.pixels@, depth.depth@, w as int, h as int, *settings));
    }
    CoordImage { width: w, height: h, texels }
}

/// In the seed image, an edge texel holds its own position.
pub proof fn lemma_edge_is_seed(color: Seq<Rgba>, depth: Seq<u16>, w: int, h: int, x: int, y: int, settings: OutlineSettings)
    requires
        0 <= x < w <= u32::MAX,
        0 <= y < h <= u32::MAX,
        is_edge(color, depth, w, h, x, y, settings),
    ensures
        seed_texels(color, depth, w, h, settings)[texel_index(w, x, y)] == Some(Coord { x: x as u32, y: y as u32 }),
{
    crate::image::lemma_index_in_bounds(w, h, x, y);
    lemma_index_coord(w, h, x, y);
}

} // verus!
