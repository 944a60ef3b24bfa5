use vstd::prelude::*;

verus! {

/// A texel position in a 2D image, in whole texels.
#[derive(Clone, Copy, Debug, PartialEq, Eq, Structural)]
pub struct Coord {
    pub x: u32,
    pub y: u32,
}

/// Squared Euclidean distance between two texel positions.
pub open spec fn dist2(a: Coord, b: Coord) -> int {
    (a.x - b.x) * (a.x - b.x) + (a.y - b.y) * (a.y - b.y)
}

/// Position in a row-major buffer of the texel at column `x`, row `y`.
pub open spec fn texel_index(width: int, x: int, y: int) -> int {
    y * width + x
}

/// The texel position that a row-major index names.
pub open spec fn coord_of(width: int, i: int) -> Coord {
    Coord { x: (i % width) as u32, y: (i / width) as u32 }
}

pub proof fn lemma_index_in_bounds(width: int, height: int, x: int, y: int)
    requires
        0 <= x < width,
        0 <= y < height,
    ensures
        0 <= texel_index(width, x, y) < width * height,
{
    assert(0 <= y * width) by (nonlinear_arith)
        requires
            0 <= y,
            0 < width,
    ;
    assert(y * width + x < width * height) by (nonlinear_arith)
        requires
            0 <= x < width,
            0 <= y < height,
    ;
}

/// A row-major index splits into the column and row it names.
pub proof fn lemma_split_index(width: int, height: int, i: int)
    requires
        0 < width,
        0 <= i < width * height,
    ensures
        0 <= i % width < width,
        0 <= i / width < height,
        texel_index(width, i % width, i / width) == i,
{
    vstd::arithmetic::div_mod::lemma_fundamental_div_mod(i, width);
    let q = i / width;
    let r = i % width;
    assert(0 <= r < width);
    assert(q >= 0) by {
        vstd::arithmetic::div_mod::lemma_div_pos_is_pos(i, width);
    }
    assert(q < height) by (nonlinear_arith)
        requires
            i == width * q + r,
            0 <= r,
            i < width * height,
            0 < width,
    ;
    assert(q * width == width * q) by (nonlinear_arith);
}

/// The index of a texel gives its column and row back.
pub proof fn lemma_index_coord(width: int, height: int, x: int, y: int)
    requires
        0 <= x < width,
        0 <= y < height,
    ensures
        texel_index(width, x, y) % width == x,
        texel_index(width, x, y) / width == y,
{
    vstd::arithmetic::div_mod::lemma_fundamental_div_mod_converse(
        texel_index(width, x, y),
        width,
        y,
        x,
    );
}

/// Row-major index of the texel at column `x`, row `y`.
pub fn index_of(width: u32, height: u32, x: u32, y: u32) -> (r: usize)
    requires
        width * height <= usize::MAX,
        x < width,
        y < height,
    ensures
        r == texel_index(width as int, x as int, y as int),
        r < width * height,
{
    proof {
        lemma_index_in_bounds(width as int, height as int, x as int, y as int);
    }
    y as usize * width as usize + x as usize
}

/// An 8-bit RGBA color.
#[derive(Clone, Copy, Debug, PartialEq, Eq, Structural)]
pub struct Rgba {
    pub r: u8,
    pub g: u8,
    pub b: u8,
    pub a: u8,
}

/// A rendered color image, one pixel per texel in row-major order.
pub struct ColorImage {
    pub width: u32,
    pub height: u32,
    pub pixels: Vec<Rgba>,
}

impl ColorImage {
    /// The buffer holds exactly one pixel per texel.
    pub open spec fn wf(&self) -> bool {
        &&& self.pixels@.len() == self.width * self.height
        &&& self.width * self.height <= usize::MAX
    }

    /// The pixel at column `x`, row `y`.
    pub open spec fn at(&self, x: int, y: int) -> Rgba {
        self.pixels@[texel_index(self.width as int, x, y)]
    }

    /// An image of the given size in which every pixel is `color`.
    pub fn filled(width: u32, height: u32, color: Rgba) -> (r: ColorImage)
        requires
            width * height <= usize::MAX,
        ensures
            r.wf(),
            r.width == width,
            r.height == height,
            forall|i: int| 0 <= i < r.pixels@.len() ==> r.pixels@[i] == color,
    {
        let n = width as usize * height as usize;
        let mut pixels: Vec<Rgba> = Vec::with_capacity(n);
        let mut i: usize = 0;
        while i < n
            invariant
                i <= n,
                pixels@.len() == i,
                forall|j: int| 0 <= j < i ==> pixels@[j] == color,
            decreases n - i,
        {
            pixels.push(color);
            i = i + 1;
        }
        ColorImage { width, height, pixels }
    }

    /// A pixel-for-pixel copy of the image.
    pub fn duplicate(&self) -> (r: ColorImage)
        requires
            self.wf(),
        ensures
            r.wf(),
            r.width == self.width,
            r.height == self.height,
            r.pixels@ == self.pixels@,
    {
        let n = self.pixels.len();
        let mut pixels: Vec<Rgba> = Vec::with_capacity(n);
        let mut i: usize = 0;
        while i < n
            invariant
                n == self.pixels@.len(),
                i <= n,
                pixels@ == self.pixels@.take(i as int),
            decreases n - i,
        {
            pixels.push(self.pixels[i]);
            i = i + 1;
            proof {
                assert(pixels@ =~= self.pixels@.take(i as int));
            }
        }
        proof {
            assert(pixels@ =~= self.pixels@);
        }
        ColorImage { width: self.width, height: self.height, pixels }
    }

    /// The pixel at column `x`, row `y`.
    pub fn get(&self, x: u32, y: u32) -> (r: Rgba)
        requires
            self.wf(),
            x < self.width,
            y < self.height,
        ensures
            r == self.at(x as int, y as int),
    {
        self.pixels[index_of(self.width, self.height, x, y)]
    }

    /// Sets the pixel at column `x`, row `y` to `color`.
    pub fn set(&mut self, x: u32, y: u32, color: Rgba)
        requires
            old(self).wf(),
            x < old(self).width,
            y < old(self).height,
        ensures
            final(self).wf(),
            final(self).width == old(self).width,
            final(self).height == old(self).height,
            final(self).pixels@ == old(self).pixels@.update(
                texel_index(old(self).width as int, x as int, y as int),
                color,
            ),
    {
        let i = index_of(self.width, self.height, x, y);
        self.pixels.set(i, color);
    }
}

/// A depth buffer as the edge detector reads it: the first sample of each
/// texel, in row-major order, and the number of samples per texel that the
/// buffer was rendered with.
pub struct DepthImage {
    pub width: u32,
    pub height: u32,
    pub sample_count: u32,
    pub depth: Vec<u16>,
}

impl DepthImage {
    /// The buffer holds exactly one depth per texel.
    pub open spec fn wf(&self) -> bool {
        &&& self.depth@.len() == self.width * self.height
        &&& self.width * self.height <= usize::MAX
    }

    /// A depth buffer of the given size and sample count in which every
    /// texel has depth `value`.
    pub fn filled(width: u32, height: u32, sample_count: u32, value: u16) -> (r: DepthImage)
        requires
            width * height <= usize::MAX,
        ensures
            r.wf(),
            r.width == width,
            r.height == height,
            r.sample_count == sample_count,
            forall|i: int| 0 <= i < r.depth@.len() ==> r.depth@[i] == value,
    {
        let n = width as usize * height as usize;
        let mut depth: Vec<u16> = Vec::with_capacity(n);
        let mut i: usize = 0;
        while i < n
            invariant
                i <= n,
                depth@.len() == i,
                forall|j: int| 0 <= j < i ==> depth@[j] == value,
            decreases n - i,
        {
            depth.push(value);
            i = i + 1;
        }
        DepthImage { width, height, sample_count, depth }
    }

    /// Sets the depth at column `x`, row `y`.
    pub fn set(&mut self, x: u32, y: u32, value: u16)
        requires
            old(self).wf(),
            x < old(self).width,
            y < old(self).height,
        ensures
            final(self).wf(),
            final(self).width == old(self).width,
            final(self).height == old(self).height,
            final(self).sample_count == old(self).sample_count,
            final(self).depth@ == old(self).depth@.update(
                texel_index(old(self).width as int, x as int, y as int),
                value,
            ),
    {
        let i = index_of(self.width, self.height, x, y);
        self.depth.set(i, value);
    }
}

/// A grid of nearest-seed coordinates, one per texel, in row-major order.
/// `None` is the sentinel: no seed has reached that texel.
pub struct CoordImage {
    pub width: u32,
    pub height: u32,
    pub texels: Vec<Option<Coord>>,
}

impl CoordImage {
    /// The buffer holds exactly one entry per texel.
    pub open spec fn wf(&self) -> bool {
        &&& self.texels@.len() == self.width * self.height
        &&& self.width * self.height <= usize::MAX
    }

    /// The entry at column `x`, row `y`.
    pub open spec fn at(&self, x: int, y: int) -> Option<Coord> {
        self.texels@[texel_index(self.width as int, x, y)]
    }

    /// An image of the given size in which every texel holds the sentinel.
    pub fn sentinel(width: u32, height: u32) -> (r: CoordImage)
        requires
            width * height <= usize::MAX,
        ensures
            r.wf(),
            r.width == width,
            r.height == height,
            forall|i: int| 0 <= i < r.texels@.len() ==> r.texels@[i] is None,
    {
        let n = width as usize * height as usize;
        let mut texels: Vec<Option<Coord>> = Vec::with_capacity(n);
        let mut i: usize = 0;
        while i < n
            invariant
                i <= n,
                texels@.len() == i,
                forall|j: int| 0 <= j < i ==> texels@[j] is None,
            decreases n - i,
        {
            texels.push(None);
            i = i + 1;
        }
        CoordImage { width, height, texels }
    }

    /// The entry at column `x`, row `y`.
    pub fn get(&self, x: u32, y: u32) -> (r: Option<Coord>)
        requires
            self.wf(),
            x < self.width,
            y < self.height,
        ensures
            r == self.at(x as int, y as int),
    {
        self.texels[index_of(self.width, self.height, x, y)]
    }

    /// Marks the texel at column `x`, row `y` as a seed: it holds its own
    /// position.
    pub fn set_seed(&mut self, x: u32, y: u32)
        requires
            old(self).wf(),
            x < old(self).width,
            y < old(self).height,
        ensures
            final(self).wf(),
            final(self).width == old(self).width,
            final(self).height == old(self).height,
            final(self).texels@ == old(self).texels@.update(
                texel_index(old(self).width as int, x as int, y as int),
                Some(Coord { x, y }),
            ),
    {
        let i = index_of(self.width, self.height, x, y);
        self.texels.set(i, Some(Coord { x, y }));
    }
}

} // verus!
