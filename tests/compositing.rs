use jump_flood::composite::{blend_color, composite, composite_texel, is_within_outline};
use jump_flood::image::{ColorImage, Coord, CoordImage, Rgba};
use jump_flood::settings::OutlineSettings;

fn rgba(r: u8, g: u8, b: u8, a: u8) -> Rgba {
    Rgba { r, g, b, a }
}

#[test]
fn outline_boundary_is_inclusive() {
    let s = OutlineSettings::new().with_thickness(3).with_color(rgba(255, 0, 0, 255));
    let orig = rgba(10, 20, 30, 255);
    let seed = Some(Coord { x: 10, y: 10 });
    // distance sqrt(8), just under the thickness
    assert_eq!(composite_texel(orig, seed, Coord { x: 12, y: 12 }, &s), rgba(255, 0, 0, 255));
    // distance exactly 3
    assert_eq!(composite_texel(orig, seed, Coord { x: 13, y: 10 }, &s), rgba(255, 0, 0, 255));
    // distance sqrt(10), just over the thickness
    assert_eq!(composite_texel(orig, seed, Coord { x: 13, y: 11 }, &s), orig);
}

#[test]
fn within_outline_compares_squared_distance() {
    let p = Coord { x: 0, y: 0 };
    assert!(is_within_outline(Some(Coord { x: 3, y: 4 }), p, 5));
    assert!(!is_within_outline(Some(Coord { x: 3, y: 4 }), p, 4));
    assert!(!is_within_outline(None, p, 1000));
    assert!(is_within_outline(Some(p), p, 0));
    assert!(is_within_outline(Some(Coord { x: u32::MAX, y: u32::MAX }), Coord { x: 0, y: 0 }, u32::MAX) == false);
}

#[test]
fn sentinel_never_blends() {
    let s = OutlineSettings::new().with_thickness(u32::MAX);
    let orig = rgba(1, 2, 3, 4);
    assert_eq!(composite_texel(orig, None, Coord { x: 0, y: 0 }, &s), orig);
}

#[test]
fn blend_weighs_by_outline_alpha() {
    assert_eq!(blend_color(rgba(200, 100, 50, 255), rgba(0, 0, 0, 255)), rgba(0, 0, 0, 255));
    assert_eq!(blend_color(rgba(0, 0, 0, 77), rgba(255, 255, 255, 128)), rgba(128, 128, 128, 77));
    assert_eq!(blend_color(rgba(100, 100, 100, 9), rgba(200, 0, 255, 51)), rgba(120, 80, 131, 9));
    assert_eq!(blend_color(rgba(7, 8, 9, 10), rgba(200, 0, 255, 0)), rgba(7, 8, 9, 10));
}

#[test]
fn composite_marks_texels_near_the_seed() {
    let color = ColorImage::filled(5, 1, rgba(50, 50, 50, 255));
    let mut nearest = CoordImage::sentinel(5, 1);
    for x in 0..5u32 {
        nearest.texels[x as usize] = Some(Coord { x: 0, y: 0 });
    }
    let s = OutlineSettings::new().with_thickness(2).with_color(rgba(0, 0, 255, 255));
    let out = composite(&color, &nearest, &s);
    let blue = rgba(0, 0, 255, 255);
    let grey = rgba(50, 50, 50, 255);
    assert_eq!(out.pixels, vec![blue, blue, blue, grey, grey]);
}
