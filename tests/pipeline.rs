use jump_flood::edge::{detect_edges, is_edge_at};
use jump_flood::image::{ColorImage, Coord, DepthImage, Rgba};
use jump_flood::pipeline::{
    final_slot, plan_passes, run_outline, run_views, Pass, PipelineState, Slot, ViewInput,
};
use jump_flood::settings::OutlineSettings;
use jump_flood::uniform::step_uniform;

fn ready(samples: u32) -> PipelineState {
    PipelineState { edge_ready: true, flood_ready: true, composite_ready: true, depth_sample_count: samples }
}

fn grey() -> Rgba {
    Rgba { r: 90, g: 90, b: 90, a: 255 }
}

fn box_scene(w: u32, h: u32) -> (ColorImage, DepthImage) {
    let color = ColorImage::filled(w, h, grey());
    let mut depth = DepthImage::filled(w, h, 4, 0);
    for y in 4..8u32 {
        for x in 4..8u32 {
            depth.set(x, y, 40000);
        }
    }
    (color, depth)
}

#[test]
fn depth_step_makes_edges_on_both_sides() {
    let (color, depth) = box_scene(12, 12);
    let seeds = detect_edges(&color, &depth, &OutlineSettings::new());
    assert_eq!(seeds.get(4, 4), Some(Coord { x: 4, y: 4 }));
    assert_eq!(seeds.get(3, 5), Some(Coord { x: 3, y: 5 }));
    assert_eq!(seeds.get(7, 7), Some(Coord { x: 7, y: 7 }));
    assert_eq!(seeds.get(8, 6), Some(Coord { x: 8, y: 6 }));
    assert_eq!(seeds.get(5, 5), None);
    assert_eq!(seeds.get(0, 0), None);
    assert_eq!(seeds.get(3, 3), None);
    assert_eq!(seeds.texels.iter().filter(|t| t.is_some()).count(), 28);
}

#[test]
fn depth_difference_must_exceed_threshold() {
    let color = ColorImage::filled(2, 1, grey());
    let mut depth = DepthImage::filled(2, 1, 1, 100);
    let s = OutlineSettings::new();
    depth.set(1, 0, 100 + s.depth_threshold);
    assert!(!is_edge_at(&color, &depth, 0, 0, &s));
    depth.set(1, 0, 101 + s.depth_threshold);
    assert!(is_edge_at(&color, &depth, 0, 0, &s));
    assert!(is_edge_at(&color, &depth, 1, 0, &s));
}

#[test]
fn color_difference_makes_an_edge() {
    let mut color = ColorImage::filled(1, 3, grey());
    let depth = DepthImage::filled(1, 3, 1, 0);
    let s = OutlineSettings::new().with_threshold(10);
    color.set(0, 2, Rgba { r: 90, g: 101, b: 90, a: 255 });
    assert!(!is_edge_at(&color, &depth, 0, 0, &s));
    assert!(is_edge_at(&color, &depth, 0, 1, &s));
    assert!(is_edge_at(&color, &depth, 0, 2, &s));
    color.set(0, 2, Rgba { r: 90, g: 100, b: 90, a: 0 });
    assert!(!is_edge_at(&color, &depth, 0, 1, &s));
}

#[test]
fn outline_drawn_around_the_box() {
    let (color, depth) = box_scene(16, 16);
    let red = Rgba { r: 255, g: 0, b: 0, a: 255 };
    let s = OutlineSettings::new().with_thickness(1).with_color(red);
    let out = run_outline(&ready(4), &color, Some(&depth), &s);
    assert_eq!(out.width, 16);
    assert_eq!(out.get(4, 4), red);
    assert_eq!(out.get(2, 5), red);
    assert_eq!(out.get(9, 7), red);
    assert_eq!(out.get(9, 9), grey());
    assert_eq!(out.get(0, 0), grey());
    assert_eq!(out.get(15, 15), grey());
    assert_eq!(out.get(6, 6), red);
}

#[test]
fn missing_depth_passes_color_through() {
    let (mut color, depth) = box_scene(10, 10);
    color.set(3, 3, Rgba { r: 1, g: 2, b: 3, a: 4 });
    let s = OutlineSettings::new();
    let out = run_outline(&ready(4), &color, None, &s);
    assert_eq!(out.pixels, color.pixels);
    let out = run_outline(&ready(1), &color, Some(&depth), &s);
    assert_eq!(out.pixels, color.pixels);
    let small = DepthImage::filled(9, 10, 4, 0);
    let out = run_outline(&ready(4), &color, Some(&small), &s);
    assert_eq!(out.pixels, color.pixels);
    let mut not_ready = ready(4);
    not_ready.flood_ready = false;
    let out = run_outline(&not_ready, &color, Some(&depth), &s);
    assert_eq!(out.pixels, color.pixels);
    let out = run_outline(&ready(4), &color, Some(&depth), &s);
    assert_ne!(out.pixels, color.pixels);
}

#[test]
fn empty_view_runs_without_work() {
    let color = ColorImage::filled(0, 0, grey());
    let depth = DepthImage::filled(0, 0, 4, 0);
    let out = run_outline(&ready(4), &color, Some(&depth), &OutlineSettings::new());
    assert_eq!(out.pixels.len(), 0);
}

#[test]
fn plan_alternates_buffers_with_halving_steps() {
    let plan = plan_passes(&ready(4), 256, 256, Some(4), true);
    assert_eq!(plan.len(), 10);
    assert_eq!(plan[0], Pass::EdgeDetect { output: Slot::Ping });
    assert_eq!(plan[1], Pass::JumpFlood { input: Slot::Ping, output: Slot::Pong, step_log2: 7, step_size: 128 });
    assert_eq!(plan[2], Pass::JumpFlood { input: Slot::Pong, output: Slot::Ping, step_log2: 6, step_size: 64 });
    assert_eq!(plan[8], Pass::JumpFlood { input: Slot::Pong, output: Slot::Ping, step_log2: 0, step_size: 1 });
    assert_eq!(plan[9], Pass::Composite { distance_map: Slot::Ping });

    let plan = plan_passes(&ready(4), 300, 180, Some(4), true);
    let rounds = plan.iter().filter(|p| matches!(p, Pass::JumpFlood { .. })).count();
    assert_eq!(rounds, 9);
    assert_eq!(plan[1], Pass::JumpFlood { input: Slot::Ping, output: Slot::Pong, step_log2: 8, step_size: 256 });
    assert_eq!(plan[10], Pass::Composite { distance_map: Slot::Pong });
}

#[test]
fn plan_is_empty_when_something_is_missing() {
    assert!(plan_passes(&ready(4), 64, 64, None, true).is_empty());
    assert!(plan_passes(&ready(4), 64, 64, Some(1), true).is_empty());
    assert!(plan_passes(&ready(4), 64, 64, Some(4), false).is_empty());
    let mut state = ready(4);
    state.composite_ready = false;
    assert!(plan_passes(&state, 64, 64, Some(4), true).is_empty());
}

#[test]
fn plan_for_single_texel_view() {
    let plan = plan_passes(&ready(1), 1, 1, Some(1), true);
    assert_eq!(plan, vec![Pass::EdgeDetect { output: Slot::Ping }, Pass::Composite { distance_map: Slot::Ping }]);
}

#[test]
fn final_slot_follows_parity() {
    assert_eq!(final_slot(0), Slot::Ping);
    assert_eq!(final_slot(1), Slot::Pong);
    assert_eq!(final_slot(8), Slot::Ping);
    assert_eq!(final_slot(9), Slot::Pong);
}

#[test]
fn step_uniform_holds_the_step_as_float() {
    let mut expected = vec![0u8; 32];
    expected[0..4].copy_from_slice(&8.0f32.to_ne_bytes());
    assert_eq!(step_uniform(3), expected);
    expected[0..4].copy_from_slice(&1.0f32.to_ne_bytes());
    assert_eq!(step_uniform(0), expected);
    expected[0..4].copy_from_slice(&2147483648.0f32.to_ne_bytes());
    assert_eq!(step_uniform(31), expected);
}

#[test]
fn default_settings_and_builders() {
    let s = OutlineSettings::new();
    assert_eq!(s, OutlineSettings::default());
    assert_eq!(s.outline_thickness, 2);
    assert_eq!(s.outline_color, Rgba { r: 0, g: 0, b: 0, a: 255 });
    assert_eq!(s.texture_width, 1920);
    assert_eq!(s.texture_height, 1080);
    let t = s.with_thickness(5).with_threshold(3).with_color(Rgba { r: 1, g: 2, b: 3, a: 4 });
    assert_eq!(t.outline_thickness, 5);
    assert_eq!(t.edge_threshold, 3);
    assert_eq!(t.outline_color, Rgba { r: 1, g: 2, b: 3, a: 4 });
    assert_eq!(t.depth_threshold, s.depth_threshold);
}

#[test]
fn views_are_processed_independently() {
    let state = ready(4);
    assert!(run_views(&state, &Vec::new()).is_empty());

    let (color_a, depth_a) = box_scene(12, 12);
    let (color_b, _) = box_scene(10, 10);
    let red = Rgba { r: 255, g: 0, b: 0, a: 255 };
    let thin = OutlineSettings::new().with_thickness(0).with_color(red);
    let thick = OutlineSettings::new().with_thickness(2).with_color(red);
    let expected_a = run_outline(&state, &color_a, Some(&depth_a), &thin);
    let views = vec![
        ViewInput { color: color_a, depth: Some(depth_a), settings: thin },
        ViewInput { color: color_b, depth: None, settings: thick },
    ];
    let out = run_views(&state, &views);
    assert_eq!(out.len(), 2);
    assert_eq!(out[0].pixels, expected_a.pixels);
    assert_eq!(out[0].get(4, 4), red);
    assert_eq!(out[0].get(2, 5), grey());
    assert_eq!(out[1].width, 10);
    assert_eq!(out[1].pixels, views[1].color.pixels);
}
