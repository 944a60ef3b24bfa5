use crate::composite::{composite, composite_pixels};
use crate::edge::{detect_edges, is_edge, lemma_edge_is_seed, seed_texels};
use crate::flood::{jump_flood, jump_flood_texels, rounds_for, seed_is_kept, step_count, step_size, two_pow};
use crate::image::{texel_index, ColorImage, Coord, DepthImage, Rgba};
use crate::settings::OutlineSettings;
use vstd::prelude::*;

verus! {

/// The long-lived part of the pipeline: whether each pass's compiled
/// program is ready, and the sample count its depth input was laid out for.
#[derive(Clone, Copy, Debug, PartialEq, Eq, Structural)]
pub struct PipelineState {
    pub edge_ready: bool,
    pub flood_ready: bool,
    pub composite_ready: bool,
    pub depth_sample_count: u32,
}

impl PipelineState {
    /// Every pass's program is ready.
    pub open spec fn all_ready(&self) -> bool {
        self.edge_ready && self.flood_ready && self.composite_ready
    }
}

/// The outline passes can run on a `width` by `height` view: every program
/// is ready, and the depth buffer is there, of the view's size and of the
/// expected sample count.
pub open spec fn can_run(state: PipelineState, width: u32, height: u32, depth: Option<&DepthImage>) -> bool {
    &&& state.all_ready()
    &&& depth matches Some(d)
    &&& d.sample_count == state.depth_sample_count
    &&& d.width == width
    &&& d.height == height
}

/// The outlined image of a view: edge detection, propagation, compositing.
pub open spec fn outlined_pixels(color: Seq<Rgba>, depth: Seq<u16>, w: int, h: int, settings: OutlineSettings) -> Seq<Rgba> {
    composite_pixels(
        color,
        jump_flood_texels(seed_texels(color, depth, w, h, settings), w, h),
        w,
        h,
        settings,
    )
}

/// What the pipeline makes of one view: the outlined image where the
/// passes can run, the color image unchanged where they cannot.
pub open spec fn view_output(state: PipelineState, color: &ColorImage, depth: Option<&DepthImage>, settings: OutlineSettings) -> Seq<Rgba> {
    if can_run(state, color.width, color.height, depth) {
        outlined_pixels(color.pixels@, depth->Some_0.depth@, color.width as int, color.height as int, settings)
    } else {
        color.pixels@
    }
}

/// Runs the outline pipeline on one view. When a program is not ready or
/// the depth buffer is missing or does not fit, the view passes through
/// unchanged.
pub fn run_outline(state: &PipelineState, color: &ColorImage, depth: Option<&DepthImage>, settings: &OutlineSettings) -> (r: ColorImage)
    requires
        color.wf(),
        depth matches Some(d) ==> d.wf(),
    ensures
        r.wf(),
        r.width == color.width,
        r.height == color.height,
        can_run(*state, color.width, color.height, depth) ==> r.pixels@ == outlined_pixels(
            color.pixels@,
            depth->Some_0.depth@,
            color.width as int,
            color.height as int,
            *settings,
        ),
        !can_run(*state, color.width, color.height, depth) ==> r.pixels@ == color.pixels@,
        r.pixels@ == view_output(*state, color, depth, *settings),
{
    if !(state.edge_ready && state.flood_ready && state.composite_ready) {
        return color.duplicate();
    }
    match depth {
        None => color.duplicate(),
        Some(d) => {
            if d.sample_count != state.depth_sample_count || d.width != color.width || d.height
                != color.height {
                color.duplicate()
            } else {
                let seeds = detect_edges(color, d, settings);
                let nearest = jump_flood(seeds);
                composite(color, &nearest, settings)
            }
        },
    }
}

/// One view of a frame: its rendered color, its depth buffer if it has
/// one, and its own outline settings.
pub struct ViewInput {
    pub color: ColorImage,
    pub depth: Option<DepthImage>,
    pub settings: OutlineSettings,
}

impl ViewInput {
    /// The images hold one entry per texel.
    pub open spec fn wf(&self) -> bool {
        &&& self.color.wf()
        &&& self.depth matches Some(d) ==> d.wf()
    }
}

/// Runs the pipeline on each view of a frame, independently: every view
/// has its own size, settings and transient buffers, and shares only the
/// pipeline state. Zero views give zero outputs.
pub fn run_views(state: &PipelineState, views: &Vec<ViewInput>) -> (r: Vec<ColorImage>)
    requires
        forall|i: int| 0 <= i < views@.len() ==> (#[trigger] views@[i]).wf(),
    ensures
        r@.len() == views@.len(),
        forall|i: int|
            0 <= i < r@.len() ==> (#[trigger] r@[i]).wf() && r@[i].width == views@[i].color.width
                && r@[i].height == views@[i].color.height && r@[i].pixels@ == view_output(
                *state,
                &views@[i].color,
                match views@[i].depth {
                    Some(d) => Some(&d),
                    None => None,
                },
                views@[i].settings,
            ),
{
    let mut out: Vec<ColorImage> = Vec::with_capacity(views.len());
    let mut i: usize = 0;
    while i < views.len()
        invariant
            i <= views@.len(),
            out@.len() == i,
            forall|j: int| 0 <= j < views@.len() ==> (#[trigger] views@[j]).wf(),
            forall|j: int|
                0 <= j < i ==> (#[trigger] out@[j]).wf() && out@[j].width == views@[j].color.width
                    && out@[j].height == views@[j].color.height && out@[j].pixels@ == view_output(
                    *state,
                    &views@[j].color,
                    match views@[j].depth {
                        Some(d) => Some(&d),
                        None => None,
                    },
                    views@[j].settings,
                ),
        decreases views@.len() - i,
    {
        let view = &views[i];
        let image = run_outline(state, &view.color, view.depth.as_ref(), &view.settings);
        out.push(image);
        i = i + 1;
    }
    out
}

/// Seed idempotence through the whole pipeline: a texel that edge detection
/// marks as a silhouette holds its own position after propagation, at
/// distance 0 from itself.
pub proof fn edge_seed_is_kept(color: Seq<Rgba>, depth: Seq<u16>, w: int, h: int, x: int, y: int, settings: OutlineSettings)
    requires
        0 <= x < w <= u32::MAX,
        0 <= y < h <= u32::MAX,
        is_edge(color, depth, w, h, x, y, settings),
    ensures
        jump_flood_texels(seed_texels(color, depth, w, h, settings), w, h)[texel_index(w, x, y)]
            == Some(Coord { x: x as u32, y: y as u32 }),
{
    lemma_edge_is_seed(color, depth, w, h, x, y, settings);
    seed_is_kept(seed_texels(color, depth, w, h, settings), w, h, x, y);
}

/// One of the two transient coordinate buffers of a view.
#[derive(Clone, Copy, Debug, PartialEq, Eq, Structural)]
pub enum Slot {
    Ping,
    Pong,
}

/// One full-screen pass of the outline pipeline, as handed to the GPU.
#[derive(Clone, Copy, Debug, PartialEq, Eq, Structural)]
pub enum Pass {
    /// Edge detection over the view's color and depth, writing the seeds.
    EdgeDetect { output: Slot },
    /// One propagation round of step `step_size == 2^step_log2`.
    JumpFlood { input: Slot, output: Slot, step_log2: u32, step_size: u32 },
    /// Compositing of the view's color with the final coordinate buffer.
    Composite { distance_map: Slot },
}

/// The buffer that holds the result after `k` propagation rounds: the seeds
/// go to ping, and each round writes the other buffer.
pub open spec fn slot_after(k: int) -> Slot {
    if k % 2 == 0 {
        Slot::Ping
    } else {
        Slot::Pong
    }
}

/// The `k`-th pass of a view that needs `n` propagation rounds.
pub open spec fn planned_pass(n: nat, k: int) -> Pass {
    if k == 0 {
        Pass::EdgeDetect { output: Slot::Ping }
    } else if k <= n {
        Pass::JumpFlood {
            input: slot_after(k - 1),
            output: slot_after(k),
            step_log2: (n - k) as u32,
            step_size: two_pow((n - k) as nat) as u32,
        }
    } else {
        Pass::Composite { distance_map: slot_after(n as int) }
    }
}

/// The buffer that holds the propagated coordinates after `rounds` rounds.
pub fn final_slot(rounds: u32) -> (r: Slot)
    ensures
        r == slot_after(rounds as int),
{
    if rounds % 2 == 0 {
        Slot::Ping
    } else {
        Slot::Pong
    }
}

/// The passes to submit for a `width` by `height` view: edge detection
/// into ping, `ceil(log2(max(width, height)))` propagation rounds of
/// halving step that alternate between the two buffers, and compositing
/// from the buffer the last round wrote. No pass at all when a program is
/// not ready, the settings are not bound, or the depth buffer is missing
/// or of another sample count.
pub fn plan_passes(state: &PipelineState, width: u32, height: u32, depth_sample_count: Option<u32>, settings_bound: bool) -> (r: Vec<Pass>)
    ensures
        (state.all_ready() && settings_bound && depth_sample_count == Some(state.depth_sample_count))
            ==> r@ == Seq::new(
            rounds_for(width as nat, height as nat) + 2,
            |k: int| planned_pass(rounds_for(width as nat, height as nat), k),
        ),
        !(state.all_ready() && settings_bound && depth_sample_count == Some(state.depth_sample_count))
            ==> r@.len() == 0,
{
    let mut passes: Vec<Pass> = Vec::new();
    if !(state.edge_ready && state.flood_ready && state.composite_ready && settings_bound) {
        return passes;
    }
    match depth_sample_count {
        None => {
            return passes;
        },
        Some(c) => {
            if c != state.depth_sample_count {
                return passes;
            }
        },
    }
    let n = step_count(width, height);
    let ghost plan = Seq::new((n + 2) as nat, |k: int| planned_pass(n as nat, k));
    passes.push(Pass::EdgeDetect { output: Slot::Ping });
    let mut k: u32 = 1;
    while k <= n
        invariant
            1 <= k <= n + 1,
            n <= 32,
            plan == Seq::new((n + 2) as nat, |j: int| planned_pass(n as nat, j)),
            passes@ == plan.take(k as int),
        decreases n + 1 - k,
    {
        let e = n - k;
        let pass = Pass::JumpFlood {
            input: final_slot(k - 1),
            output: final_slot(k),
            step_log2: e,
            step_size: step_size(e),
        };
        passes.push(pass);
        k = k + 1;
        proof {
            assert(passes@ =~= plan.take(k as int));
        }
    }
    passes.push(Pass::Composite { distance_map: final_slot(n) });
    proof {
        assert(passes@ =~= plan);
    }
    passes
}

} // verus!
