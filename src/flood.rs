use crate::image::{
    dist2, index_of, lemma_index_coord, lemma_index_in_bounds, lemma_split_index, texel_index, Coord,
    CoordImage,
};
use vstd::prelude::*;

verus! {

/// 2 raised to the power `n`.
pub open spec fn two_pow(n: nat) -> nat
    decreases n,
{
    if n == 0 {
        1
    } else {
        2 * two_pow((n - 1) as nat)
    }
}

/// `ceil(log2(m))`, with 0 for `m <= 1`.
pub open spec fn ceil_log2(m: nat) -> nat
    decreases m,
{
    if m <= 1 {
        0
    } else {
        1 + ceil_log2(((m + 1) / 2) as nat)
    }
}

/// Number of propagation rounds for a view of the given size:
/// `ceil(log2(max(width, height)))`.
pub open spec fn rounds_for(width: nat, height: nat) -> nat {
    ceil_log2(if width >= height { width } else { height })
}

/// `2^a <= 2^b` whenever `a <= b`.
pub proof fn lemma_two_pow_monotone(a: nat, b: nat)
    requires
        a <= b,
    ensures
        two_pow(a) <= two_pow(b),
    decreases b - a,
{
    if a < b {
        lemma_two_pow_monotone(a, (b - 1) as nat);
    }
}

/// `ceil_log2(m)` is the least `k` with `2^k >= m`.
pub proof fn lemma_ceil_log2_bounds(m: nat)
    ensures
        two_pow(ceil_log2(m)) >= m,
        ceil_log2(m) == 0 || two_pow((ceil_log2(m) - 1) as nat) < m,
    decreases m,
{
    if m > 1 {
        let h = ((m + 1) / 2) as nat;
        lemma_ceil_log2_bounds(h);
    }
}

/// Only one `k` is the least with `2^k >= m`.
pub proof fn lemma_ceil_log2_unique(m: nat, k: nat)
    requires
        two_pow(k) >= m,
        k == 0 || two_pow((k - 1) as nat) < m,
    ensures
        k == ceil_log2(m),
{
    let c = ceil_log2(m);
    lemma_ceil_log2_bounds(m);
    if k < c {
        lemma_two_pow_monotone(k, (c - 1) as nat);
    } else if c < k {
        lemma_two_pow_monotone(c, (k - 1) as nat);
    }
}

/// Number of jump-flood rounds for a view of `width` by `height` texels:
/// the least `k` with `2^k >= max(width, height)`, that is
/// `ceil(log2(max(width, height)))`; 0 for an empty or single-texel view.
pub fn step_count(width: u32, height: u32) -> (r: u32)
    ensures
        r == rounds_for(width as nat, height as nat),
        two_pow(r as nat) >= width,
        two_pow(r as nat) >= height,
        r == 0 || two_pow((r - 1) as nat) < width || two_pow((r - 1) as nat) < height,
        r <= 32,
{
    let m: u32 = if width >= height { width } else { height };
    let mut k: u32 = 0;
    let mut p: u64 = 1;
    while p < m as u64
        invariant
            p == two_pow(k as nat),
            k == 0 || two_pow((k - 1) as nat) < m,
            1 <= p,
            p == 1 || p <= 2 * (m as u64),
            k <= 32,
        decreases 2 * m as int - p as int,
    {
        proof {
            if k >= 32 {
                lemma_two_pow_32();
                lemma_two_pow_monotone(32, k as nat);
            }
        }
        p = p * 2;
        k = k + 1;
    }
    proof {
        lemma_ceil_log2_unique(m as nat, k as nat);
    }
    k
}

/// Offset along one axis for neighbour slot `d` (0, 1 or 2) at step `s`.
pub open spec fn axis_offset(d: int, s: int) -> int {
    if d == 0 {
        -s
    } else if d == 1 {
        0
    } else {
        s
    }
}

/// The `k`-th of the nine samples that texel `(x, y)` reads in a round of
/// step `s`: `k % 3` picks the column offset and `k / 3` the row offset, each
/// among `-s`, `0`, `+s`. A sample outside the image reads as the sentinel.
pub open spec fn sample(texels: Seq<Option<Coord>>, w: int, h: int, s: int, x: int, y: int, k: int) -> Option<Coord> {
    let nx = x + axis_offset(k % 3, s);
    let ny = y + axis_offset(k / 3, s);
    if 0 <= nx < w && 0 <= ny < h {
        texels[texel_index(w, nx, ny)]
    } else {
        None
    }
}

/// The nine samples of texel `(x, y)` in a round of step `s`, in order.
pub open spec fn samples(texels: Seq<Option<Coord>>, w: int, h: int, s: int, x: int, y: int) -> Seq<Option<Coord>> {
    Seq::new(9, |k: int| sample(texels, w, h, s, x, y, k))
}

/// Keeps `best` unless `cand` is a real seed strictly nearer to `p`; a
/// sentinel never displaces a seed.
pub open spec fn nearer(best: Option<Coord>, cand: Option<Coord>, p: Coord) -> Option<Coord> {
    match cand {
        None => best,
        Some(c) => match best {
            None => cand,
            Some(b) => if dist2(c, p) < dist2(b, p) {
                cand
            } else {
                best
            },
        },
    }
}

/// The first of the candidates whose seed is nearest to `p`, or the
/// sentinel when every candidate is the sentinel.
pub open spec fn nearest_of(cands: Seq<Option<Coord>>, p: Coord) -> Option<Coord>
    decreases cands.len(),
{
    if cands.len() == 0 {
        None
    } else {
        nearer(nearest_of(cands.drop_last(), p), cands.last(), p)
    }
}

/// What texel `(x, y)` holds after a round of step `s`.
pub open spec fn flood_texel(texels: Seq<Option<Coord>>, w: int, h: int, s: int, x: int, y: int) -> Option<Coord> {
    nearest_of(samples(texels, w, h, s, x, y), Coord { x: x as u32, y: y as u32 })
}

/// One jump-flood round of step `s` over a `w` by `h` image.
pub open spec fn flood_step(texels: Seq<Option<Coord>>, w: int, h: int, s: int) -> Seq<Option<Coord>> {
    Seq::new((w * h) as nat, |i: int| flood_texel(texels, w, h, s, i % w, i / w))
}

/// `n` rounds with steps `2^(n-1)`, ..., 2, 1, in that order.
pub open spec fn flood_rounds(texels: Seq<Option<Coord>>, w: int, h: int, n: nat) -> Seq<Option<Coord>>
    decreases n,
{
    if n == 0 {
        texels
    } else {
        flood_rounds(flood_step(texels, w, h, two_pow((n - 1) as nat) as int), w, h, (n - 1) as nat)
    }
}

/// The full propagation: `ceil(log2(max(w, h)))` rounds.
pub open spec fn jump_flood_texels(texels: Seq<Option<Coord>>, w: int, h: int) -> Seq<Option<Coord>> {
    flood_rounds(texels, w, h, rounds_for(w as nat, h as nat))
}

/// `2^e` as a step size.
pub fn step_size(e: u32) -> (r: u32)
    requires
        e < 32,
    ensures
        r == two_pow(e as nat),
{
    let mut r: u32 = 1;
    let mut i: u32 = 0;
    while i < e
        invariant
            i <= e < 32,
            r == two_pow(i as nat),
        decreases e - i,
    {
        proof {
            lemma_two_pow_32();
            assert(two_pow(32) == 2 * two_pow(31));
            lemma_two_pow_monotone((i + 1) as nat, 31);
            assert(two_pow((i + 1) as nat) == 2 * two_pow(i as nat));
        }
        r = r * 2;
        i = i + 1;
    }
    r
}

/// Squared distance between two texel positions.
fn dist2_exec(a: Coord, b: Coord) -> (r: u128)
    ensures
        r == dist2(a, b),
{
    let dx: u64 = if a.x >= b.x { (a.x - b.x) as u64 } else { (b.x - a.x) as u64 };
    let dy: u64 = if a.y >= b.y { (a.y - b.y) as u64 } else { (b.y - a.y) as u64 };
    assert(dx * dx <= 0xffff_ffff * 0xffff_ffff) by (nonlinear_arith)
        requires
            dx <= 0xffff_ffff,
    ;
    assert(dy * dy <= 0xffff_ffff * 0xffff_ffff) by (nonlinear_arith)
        requires
            dy <= 0xffff_ffff,
    ;
    assert((a.x - b.x) * (a.x - b.x) == dx * dx) by (nonlinear_arith)
        requires
            dx == a.x - b.x || dx == b.x - a.x,
    ;
    assert((a.y - b.y) * (a.y - b.y) == dy * dy) by (nonlinear_arith)
        requires
            dy == a.y - b.y || dy == b.y - a.y,
    ;
    (dx as u128) * (dx as u128) + (dy as u128) * (dy as u128)
}

/// Executable form of `nearer`.
fn nearer_exec(best: Option<Coord>, cand: Option<Coord>, p: Coord) -> (r: Option<Coord>)
    ensures
        r == nearer(best, cand, p),
{
    match cand {
        None => best,
        Some(c) => match best {
            None => cand,
            Some(b) => if dist2_exec(c, p) < dist2_exec(b, p) {
                cand
            } else {
                best
            },
        },
    }
}

/// The neighbour of `v` along one axis for slot `d`, if it lies in `0..limit`.
fn shifted(v: u32, d: u32, s: u32, limit: u32) -> (r: Option<u32>)
    requires
        v < limit,
        d < 3,
    ensures
        r matches Some(n) ==> n == v + axis_offset(d as int, s as int) && n < limit,
        r is None ==> !(0 <= v + axis_offset(d as int, s as int) < limit),
{
    if d == 0 {
        if v >= s {
            Some(v - s)
        } else {
            None
        }
    } else if d == 1 {
        Some(v)
    } else {
        if (v as u64) + (s as u64) < limit as u64 {
            Some(v + s)
        } else {
            None
        }
    }
}

/// The `k`-th sample of texel `(x, y)` in a round of step `s`.
fn sample_exec(input: &CoordImage, s: u32, x: u32, y: u32, k: u32) -> (r: Option<Coord>)
    requires
        input.wf(),
        x < input.width,
        y < input.height,
        k < 9,
    ensures
        r == sample(input.texels@, input.width as int, input.height as int, s as int, x as int, y as int, k as int),
{
    match shifted(x, k % 3, s, input.width) {
        None => None,
        Some(nx) => match shifted(y, k / 3, s, input.height) {
            None => None,
            Some(ny) => input.texels[index_of(input.width, input.height, nx, ny)],
        },
    }
}

/// What texel `(x, y)` holds after a round of step `s`.
fn flood_texel_exec(input: &CoordImage, s: u32, x: u32, y: u32) -> (r: Option<Coord>)
    requires
        input.wf(),
        x < input.width,
        y < input.height,
    ensures
        r == flood_texel(input.texels@, input.width as int, input.height as int, s as int, x as int, y as int),
{
    let ghost cands = samples(input.texels@, input.width as int, input.height as int, s as int, x as int, y as int);
    let p = Coord { x, y };
    let mut best: Option<Coord> = None;
    let mut k: u32 = 0;
    while k < 9
        invariant
            input.wf(),
            x < input.width,
            y < input.height,
            p == (Coord { x, y }),
            cands == samples(input.texels@, input.width as int, input.height as int, s as int, x as int, y as int),
            k <= 9,
            best == nearest_of(cands.take(k as int), p),
        decreases 9 - k,
    {
        let c = sample_exec(input, s, x, y, k);
        proof {
            assert(cands.take(k + 1).drop_last() =~= cands.take(k as int));
        }
        best = nearer_exec(best, c, p);
        k = k + 1;
    }
    proof {
        assert(cands.take(9) =~= cands);
    }
    best
}

/// Runs one jump-flood round of step `s`, reading `input` and writing every
/// texel of `output`.
pub fn flood_step_into(input: &CoordImage, output: &mut CoordImage, s: u32)
    requires
        input.wf(),
        old(output).wf(),
        old(output).width == input.width,
        old(output).height == input.height,
    ensures
        final(output).wf(),
        final(output).width == input.width,
        final(output).height == input.height,
        final(output).texels@ == flood_step(input.texels@, input.width as int, input.height as int, s as int),
{
    let w = input.width;
    let h = input.height;
    let n = output.texels.len();
    let mut i: usize = 0;
    while i < n
        invariant
            input.wf(),
            output.wf(),
            output.width == w,
            output.height == h,
            input.width == w,
            input.height == h,
            n == w * h,
            i <= n,
            forall|j: int| 0 <= j < i ==> output.texels@[j] == flood_texel(input.texels@, w as int, h as int, s as int, j % (w as int), j / (w as int)),
        decreases n - i,
    {
        assert(w > 0) by (nonlinear_arith)
            requires
                i < n,
                n == w * h,
        ;
        proof {
            lemma_split_index(w as int, h as int, i as int);
        }
        let x = (i % (w as usize)) as u32;
        let y = (i / (w as usize)) as u32;
        let v = flood_texel_exec(input, s, x, y);
        output.texels.set(i, v);
        i = i + 1;
    }
    proof {
        assert(output.texels@ =~= flood_step(input.texels@, w as int, h as int, s as int));
    }
}

/// Propagates the seeds of `seeds` to every texel: after
/// `ceil(log2(max(width, height)))` rounds of halving step, each texel holds
/// the position of the seed that the jump-flood rounds found nearest, or the
/// sentinel when the image holds no seed.
pub fn jump_flood(seeds: CoordImage) -> (r: CoordImage)
    requires
        seeds.wf(),
    ensures
        r.wf(),
        r.width == seeds.width,
        r.height == seeds.height,
        r.texels@ == jump_flood_texels(seeds.texels@, seeds.width as int, seeds.height as int),
{
    let w = seeds.width;
    let h = seeds.height;
    let ghost start = seeds.texels@;
    let steps = step_count(w, h);
    let mut current = seeds;
    let mut spare = CoordImage::sentinel(w, h);
    let mut remaining: u32 = steps;
    while remaining > 0
        invariant
            current.wf(),
            spare.wf(),
            current.width == w,
            current.height == h,
            spare.width == w,
            spare.height == h,
            remaining <= 32,
            flood_rounds(current.texels@, w as int, h as int, remaining as nat)
                == flood_rounds(start, w as int, h as int, steps as nat),
            steps == rounds_for(w as nat, h as nat),
        decreases remaining,
    {
        let s = step_size(remaining - 1);
        flood_step_into(&current, &mut spare, s);
        std::mem::swap(&mut current, &mut spare);
        remaining = remaining - 1;
    }
    current
}

/// The selection returns one of the candidates, returns the sentinel only
/// when every candidate is the sentinel, and no candidate seed is nearer to
/// `p` than the one it returns.
pub proof fn lemma_nearest_of(cands: Seq<Option<Coord>>, p: Coord)
    ensures
        nearest_of(cands, p) is None || cands.contains(nearest_of(cands, p)),
        nearest_of(cands, p) is None ==> forall|k: int| 0 <= k < cands.len() ==> cands[k] is None,
        forall|k: int|
            0 <= k < cands.len() && (#[trigger] cands[k]) is Some ==> nearest_of(cands, p) is Some
                && dist2(nearest_of(cands, p)->Some_0, p) <= dist2(cands[k]->Some_0, p),
    decreases cands.len(),
{
    if cands.len() > 0 {
        let rest = cands.drop_last();
        lemma_nearest_of(rest, p);
        let r = nearest_of(rest, p);
        if r is Some {
            let k0 = choose|k: int| 0 <= k < rest.len() && rest[k] == r;
            assert(cands[k0] == r);
        }
        assert forall|k: int|
            0 <= k < cands.len() && (#[trigger] cands[k]) is Some implies nearest_of(cands, p) is Some
                && dist2(nearest_of(cands, p)->Some_0, p) <= dist2(cands[k]->Some_0, p) by {
            if k < cands.len() - 1 {
                assert(rest[k] == cands[k]);
            }
        }
        assert forall|k: int| 0 <= k < cands.len() && nearest_of(cands, p) is None implies cands[k] is None by {
            if k < cands.len() - 1 {
                assert(rest[k] == cands[k]);
            }
        }
    }
}

/// A texel that holds its own position keeps it through one round.
proof fn lemma_round_keeps_seed(texels: Seq<Option<Coord>>, w: int, h: int, s: int, x: int, y: int)
    requires
        texels.len() == w * h,
        0 <= x < w,
        0 <= y < h,
        x <= u32::MAX,
        y <= u32::MAX,
        texels[texel_index(w, x, y)] == Some(Coord { x: x as u32, y: y as u32 }),
    ensures
        flood_step(texels, w, h, s)[texel_index(w, x, y)] == Some(Coord { x: x as u32, y: y as u32 }),
{
    let p = Coord { x: x as u32, y: y as u32 };
    lemma_index_in_bounds(w, h, x, y);
    lemma_index_coord(w, h, x, y);
    let cands = samples(texels, w, h, s, x, y);
    assert(cands[4] == Some(p));
    lemma_nearest_of(cands, p);
    let q = nearest_of(cands, p)->Some_0;
    assert(dist2(p, p) == 0) by (nonlinear_arith);
    assert(dist2(q, p) <= dist2(cands[4]->Some_0, p));
    assert((q.x - p.x) * (q.x - p.x) >= 0) by (nonlinear_arith);
    assert((q.y - p.y) * (q.y - p.y) >= 0) by (nonlinear_arith);
    assert(q.x == p.x) by (nonlinear_arith)
        requires
            (q.x - p.x) * (q.x - p.x) == 0,
    ;
    assert(q.y == p.y) by (nonlinear_arith)
        requires
            (q.y - p.y) * (q.y - p.y) == 0,
    ;
}

/// A texel that holds its own position keeps it through any number of rounds.
proof fn lemma_rounds_keep_seed(texels: Seq<Option<Coord>>, w: int, h: int, n: nat, x: int, y: int)
    requires
        texels.len() == w * h,
        0 <= x < w,
        0 <= y < h,
        x <= u32::MAX,
        y <= u32::MAX,
        texels[texel_index(w, x, y)] == Some(Coord { x: x as u32, y: y as u32 }),
    ensures
        flood_rounds(texels, w, h, n)[texel_index(w, x, y)] == Some(Coord { x: x as u32, y: y as u32 }),
    decreases n,
{
    if n > 0 {
        let s = two_pow((n - 1) as nat) as int;
        lemma_round_keeps_seed(texels, w, h, s, x, y);
        lemma_rounds_keep_seed(flood_step(texels, w, h, s), w, h, (n - 1) as nat, x, y);
    }
}

/// Seed idempotence: a seed texel, one that holds its own position before
/// propagation, still holds its own position (distance 0) afterwards.
pub proof fn seed_is_kept(seeds: Seq<Option<Coord>>, w: int, h: int, x: int, y: int)
    requires
        seeds.len() == w * h,
        0 <= x < w <= u32::MAX,
        0 <= y < h <= u32::MAX,
        seeds[texel_index(w, x, y)] == Some(Coord { x: x as u32, y: y as u32 }),
    ensures
        jump_flood_texels(seeds, w, h)[texel_index(w, x, y)] == Some(Coord { x: x as u32, y: y as u32 }),
{
    lemma_rounds_keep_seed(seeds, w, h, rounds_for(w as nat, h as nat), x, y);
}

/// An offset that is a multiple of `hs` is either a multiple of `2 * hs`, or
/// one step of `hs` towards zero makes it one.
proof fn lemma_halve_multiple(d: int, hs: int)
    requires
        hs > 0,
        d % hs == 0,
    ensures
        d % (2 * hs) == 0 || (d > 0 && d - hs >= 0 && (d - hs) % (2 * hs) == 0) || (d < 0 && d
            + hs <= 0 && (d + hs) % (2 * hs) == 0),
{
    vstd::arithmetic::div_mod::lemma_fundamental_div_mod(d, hs);
    let q = d / hs;
    assert(d == q * hs) by (nonlinear_arith)
        requires
            d == hs * q + d % hs,
            d % hs == 0,
    ;
    vstd::arithmetic::div_mod::lemma_fundamental_div_mod(q, 2);
    let p = q / 2;
    if q % 2 == 0 {
        assert(d == p * (2 * hs)) by (nonlinear_arith)
            requires
                d == q * hs,
                q == 2 * p,
        ;
        vstd::arithmetic::div_mod::lemma_mod_multiples_basic(p, 2 * hs);
    } else {
        assert(q % 2 == 1);
        assert(d - hs == p * (2 * hs)) by (nonlinear_arith)
            requires
                d == q * hs,
                q == 2 * p + 1,
        ;
        assert(d + hs == (p + 1) * (2 * hs)) by (nonlinear_arith)
            requires
                d == q * hs,
                q == 2 * p + 1,
        ;
        vstd::arithmetic::div_mod::lemma_mod_multiples_basic(p, 2 * hs);
        vstd::arithmetic::div_mod::lemma_mod_multiples_basic(p + 1, 2 * hs);
        if d > 0 {
            assert(p >= 0) by (nonlinear_arith)
                requires
                    d == q * hs,
                    q == 2 * p + 1,
                    hs > 0,
                    d > 0,
            ;
            assert(d - hs >= 0) by (nonlinear_arith)
                requires
                    d - hs == p * (2 * hs),
                    p >= 0,
                    hs > 0,
            ;
        } else if d < 0 {
            assert(p + 1 <= 0) by (nonlinear_arith)
                requires
                    d == q * hs,
                    q == 2 * p + 1,
                    hs > 0,
                    d < 0,
            ;
            assert(d + hs <= 0) by (nonlinear_arith)
                requires
                    d + hs == (p + 1) * (2 * hs),
                    p + 1 <= 0,
                    hs > 0,
            ;
        } else {
            assert(false) by (nonlinear_arith)
                requires
                    d == q * hs,
                    q == 2 * p + 1,
                    hs > 0,
                    d == 0,
            ;
        }
    }
}

/// A multiple of `m` smaller than `m` in absolute value is 0.
proof fn lemma_small_multiple(d: int, m: int)
    requires
        m > 0,
        -m < d < m,
        d % m == 0,
    ensures
        d == 0,
{
    vstd::arithmetic::div_mod::lemma_fundamental_div_mod(d, m);
    let q = d / m;
    assert(q == 0) by (nonlinear_arith)
        requires
            d == m * q,
            -m < d < m,
            m > 0,
    ;
}

/// Where every texel holds the sentinel or `s`, so does every sample, and so
/// does the selection among them.
proof fn lemma_samples_single(t: Seq<Option<Coord>>, w: int, h: int, s: Coord, hs: int, x: int, y: int)
    requires
        t.len() == w * h,
        forall|i: int| 0 <= i < w * h ==> (#[trigger] t[i]) is None || t[i] == Some(s),
        0 <= x < w,
        0 <= y < h,
    ensures
        forall|k: int| 0 <= k < 9 ==> (#[trigger] samples(t, w, h, hs, x, y)[k]) is None
            || samples(t, w, h, hs, x, y)[k] == Some(s),
        flood_texel(t, w, h, hs, x, y) is None || flood_texel(t, w, h, hs, x, y) == Some(s),
{
    let cands = samples(t, w, h, hs, x, y);
    let p = Coord { x: x as u32, y: y as u32 };
    assert forall|k: int| 0 <= k < 9 implies (#[trigger] cands[k]) is None || cands[k] == Some(s) by {
        let nx = x + axis_offset(k % 3, hs);
        let ny = y + axis_offset(k / 3, hs);
        if 0 <= nx < w && 0 <= ny < h {
            lemma_index_in_bounds(w, h, nx, ny);
        }
    }
    lemma_nearest_of(cands, p);
}

/// Where every texel holds the sentinel or `s`, so does every texel after
/// any number of rounds.
proof fn lemma_only_seed_rounds(t: Seq<Option<Coord>>, w: int, h: int, s: Coord, n: nat)
    requires
        w > 0,
        t.len() == w * h,
        forall|i: int| 0 <= i < w * h ==> (#[trigger] t[i]) is None || t[i] == Some(s),
    ensures
        forall|i: int|
            0 <= i < w * h ==> (#[trigger] flood_rounds(t, w, h, n)[i]) is None || flood_rounds(t, w, h, n)[i]
                == Some(s),
    decreases n,
{
    if n > 0 {
        let hs = two_pow((n - 1) as nat) as int;
        let t2 = flood_step(t, w, h, hs);
        assert forall|i: int| 0 <= i < w * h implies (#[trigger] t2[i]) is None || t2[i] == Some(s) by {
            lemma_split_index(w, h, i);
            lemma_samples_single(t, w, h, s, hs, i % w, i / w);
        }
        lemma_only_seed_rounds(t2, w, h, s, (n - 1) as nat);
    }
}

proof fn lemma_two_pow_positive(n: nat)
    ensures
        two_pow(n) >= 1,
    decreases n,
{
    if n > 0 {
        lemma_two_pow_positive((n - 1) as nat);
    }
}

/// Every texel whose offset from `s` is a multiple of `m` along both axes
/// holds some seed.
spec fn seed_reach(t: Seq<Option<Coord>>, w: int, h: int, s: Coord, m: int) -> bool {
    &&& t.len() == w * h
    &&& forall|x: int, y: int|
        0 <= x < w && 0 <= y < h && (x - s.x) % m == 0 && (y - s.y) % m == 0 ==> (#[trigger] t[texel_index(w, x, y)]) is Some
}

/// A round of step `hs` takes the texels that hold some seed from spacing
/// `2 * hs` around `s` to spacing `hs`.
proof fn lemma_seed_reach_round(t: Seq<Option<Coord>>, w: int, h: int, s: Coord, hs: int)
    requires
        hs > 0,
        s.x < w,
        s.y < h,
        seed_reach(t, w, h, s, 2 * hs),
    ensures
        seed_reach(flood_step(t, w, h, hs), w, h, s, hs),
{
    let t2 = flood_step(t, w, h, hs);
    let m = 2 * hs;
    assert forall|x: int, y: int|
        0 <= x < w && 0 <= y < h && (x - s.x) % hs == 0 && (y - s.y) % hs == 0 implies (#[trigger] t2[texel_index(w, x, y)]) is Some by {
        lemma_index_coord(w, h, x, y);
        lemma_index_in_bounds(w, h, x, y);
        let dx = x - s.x;
        let dy = y - s.y;
        lemma_halve_multiple(dx, hs);
        lemma_halve_multiple(dy, hs);
        let kx: int = if dx % m == 0 {
            1
        } else if dx > 0 {
            0
        } else {
            2
        };
        let ky: int = if dy % m == 0 {
            1
        } else if dy > 0 {
            0
        } else {
            2
        };
        let k = ky * 3 + kx;
        vstd::arithmetic::div_mod::lemma_fundamental_div_mod_converse(k, 3, ky, kx);
        let nx = x + axis_offset(kx, hs);
        let ny = y + axis_offset(ky, hs);
        assert(0 <= nx < w && (nx - s.x) % m == 0);
        assert(0 <= ny < h && (ny - s.y) % m == 0);
        let cands = samples(t, w, h, hs, x, y);
        assert(cands[k] == t[texel_index(w, nx, ny)]);
        lemma_nearest_of(cands, Coord { x: x as u32, y: y as u32 });
    }
}

proof fn lemma_seed_reach_rounds(t: Seq<Option<Coord>>, w: int, h: int, s: Coord, n: nat)
    requires
        s.x < w,
        s.y < h,
        seed_reach(t, w, h, s, two_pow(n) as int),
    ensures
        forall|x: int, y: int|
            0 <= x < w && 0 <= y < h ==> (#[trigger] flood_rounds(t, w, h, n)[texel_index(w, x, y)]) is Some,
    decreases n,
{
    if n == 0 {
        assert forall|x: int, y: int| 0 <= x < w && 0 <= y < h implies (#[trigger] flood_rounds(t, w, h, n)[texel_index(w, x, y)]) is Some by {
            vstd::arithmetic::div_mod::lemma_mod_multiples_basic(x - s.x, 1);
            vstd::arithmetic::div_mod::lemma_mod_multiples_basic(y - s.y, 1);
        }
    } else {
        let hs = two_pow((n - 1) as nat) as int;
        lemma_two_pow_positive((n - 1) as nat);
        lemma_seed_reach_round(t, w, h, s, hs);
        lemma_seed_reach_rounds(flood_step(t, w, h, hs), w, h, s, (n - 1) as nat);
    }
}

/// The sentinel does not survive propagation: when the seed image holds at
/// least one seed, every texel of the propagated image holds a seed.
pub proof fn seeds_reach_every_texel(seeds: Seq<Option<Coord>>, w: int, h: int, s: Coord)
    requires
        seeds.len() == w * h,
        s.x < w,
        s.y < h,
        seeds[texel_index(w, s.x as int, s.y as int)] == Some(s),
    ensures
        forall|x: int, y: int|
            0 <= x < w && 0 <= y < h ==> (#[trigger] jump_flood_texels(seeds, w, h)[texel_index(w, x, y)]) is Some,
{
    let n = rounds_for(w as nat, h as nat);
    let m = if w >= h { w } else { h };
    lemma_ceil_log2_bounds(m as nat);
    let big = two_pow(n) as int;
    assert forall|x: int, y: int|
        0 <= x < w && 0 <= y < h && (x - s.x) % big == 0 && (y - s.y) % big == 0 implies (#[trigger] seeds[texel_index(w, x, y)]) is Some by {
        lemma_small_multiple(x - s.x, big);
        lemma_small_multiple(y - s.y, big);
    }
    lemma_seed_reach_rounds(seeds, w, h, s, n);
}

/// A single seed reaches everything: when the seed image holds exactly one
/// seed `s`, every texel of the propagated image holds `s`.
pub proof fn single_seed_reaches_all(seeds: Seq<Option<Coord>>, w: int, h: int, s: Coord)
    requires
        seeds.len() == w * h,
        s.x < w,
        s.y < h,
        seeds[texel_index(w, s.x as int, s.y as int)] == Some(s),
        forall|i: int| 0 <= i < w * h && i != texel_index(w, s.x as int, s.y as int) ==> (#[trigger] seeds[i]) is None,
    ensures
        forall|x: int, y: int|
            0 <= x < w && 0 <= y < h ==> #[trigger] jump_flood_texels(seeds, w, h)[texel_index(w, x, y)] == Some(s),
{
    let n = rounds_for(w as nat, h as nat);
    assert forall|i: int| 0 <= i < w * h implies (#[trigger] seeds[i]) is None || seeds[i] == Some(s) by {
        if i != texel_index(w, s.x as int, s.y as int) {
            assert(seeds[i] is None);
        }
    }
    seeds_reach_every_texel(seeds, w, h, s);
    lemma_only_seed_rounds(seeds, w, h, s, n);
    assert forall|x: int, y: int| 0 <= x < w && 0 <= y < h implies #[trigger] jump_flood_texels(seeds, w, h)[texel_index(w, x, y)]
        == Some(s) by {
        lemma_index_in_bounds(w, h, x, y);
        assert(jump_flood_texels(seeds, w, h)[texel_index(w, x, y)] is Some);
    }
}

proof fn lemma_two_pow_32()
    ensures
        two_pow(32) == 0x1_0000_0000,
{
    reveal_with_fuel(two_pow, 33);
}

} // verus!
