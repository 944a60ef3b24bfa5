use jump_flood::flood::{jump_flood, step_count};
use jump_flood::image::{Coord, CoordImage};

#[test]
fn step_count_follows_ceil_log2_of_larger_side() {
    assert_eq!(step_count(256, 256), 8);
    assert_eq!(step_count(300, 180), 9);
    assert_eq!(step_count(180, 300), 9);
    assert_eq!(step_count(257, 1), 9);
    assert_eq!(step_count(3, 3), 2);
    assert_eq!(step_count(2, 1), 1);
    assert_eq!(step_count(1, 1), 0);
    assert_eq!(step_count(0, 0), 0);
    assert_eq!(step_count(u32::MAX, 1), 32);
}

#[test]
fn seeds_keep_their_own_position() {
    let mut seeds = CoordImage::sentinel(16, 12);
    let marked = [(0u32, 0u32), (3, 4), (4, 4), (15, 11), (9, 2)];
    for &(x, y) in marked.iter() {
        seeds.set_seed(x, y);
    }
    let out = jump_flood(seeds);
    for &(x, y) in marked.iter() {
        assert_eq!(out.get(x, y), Some(Coord { x, y }));
    }
}

#[test]
fn single_seed_reaches_every_texel() {
    let mut seeds = CoordImage::sentinel(64, 64);
    seeds.set_seed(10, 10);
    let out = jump_flood(seeds);
    for y in 0..64u32 {
        for x in 0..64u32 {
            assert_eq!(out.get(x, y), Some(Coord { x: 10, y: 10 }));
        }
    }
}

#[test]
fn single_seed_in_a_wide_strip() {
    let mut seeds = CoordImage::sentinel(300, 3);
    seeds.set_seed(299, 0);
    let out = jump_flood(seeds);
    for y in 0..3u32 {
        for x in 0..300u32 {
            assert_eq!(out.get(x, y), Some(Coord { x: 299, y: 0 }));
        }
    }
}

#[test]
fn two_seeds_resolve_to_the_nearer() {
    let mut seeds = CoordImage::sentinel(64, 64);
    seeds.set_seed(5, 5);
    seeds.set_seed(50, 50);
    let out = jump_flood(seeds);
    assert_eq!(out.get(6, 6), Some(Coord { x: 5, y: 5 }));
    assert_eq!(out.get(49, 49), Some(Coord { x: 50, y: 50 }));
    assert_eq!(out.get(0, 0), Some(Coord { x: 5, y: 5 }));
    assert_eq!(out.get(63, 63), Some(Coord { x: 50, y: 50 }));
}

#[test]
fn no_seed_leaves_every_texel_sentinel() {
    let seeds = CoordImage::sentinel(20, 7);
    let out = jump_flood(seeds);
    assert_eq!(out.width, 20);
    assert_eq!(out.height, 7);
    assert!(out.texels.iter().all(|t| t.is_none()));
}

#[test]
fn empty_view_propagates_to_empty() {
    let seeds = CoordImage::sentinel(0, 0);
    let out = jump_flood(seeds);
    assert_eq!(out.texels.len(), 0);
}

#[test]
fn single_texel_seed() {
    let mut seeds = CoordImage::sentinel(1, 1);
    seeds.set_seed(0, 0);
    let out = jump_flood(seeds);
    assert_eq!(out.get(0, 0), Some(Coord { x: 0, y: 0 }));
}

#[test]
fn set_seed_marks_one_texel() {
    let mut seeds = CoordImage::sentinel(4, 3);
    seeds.set_seed(2, 1);
    assert_eq!(seeds.get(2, 1), Some(Coord { x: 2, y: 1 }));
    assert_eq!(seeds.texels[1 * 4 + 2], Some(Coord { x: 2, y: 1 }));
    assert_eq!(seeds.texels.iter().filter(|t| t.is_some()).count(), 1);
}

#[test]
fn every_texel_gets_one_of_the_seeds() {
    let seeds_at = [(3u32, 17u32), (40, 2), (25, 30)];
    let mut seeds = CoordImage::sentinel(48, 33);
    for &(x, y) in seeds_at.iter() {
        seeds.set_seed(x, y);
    }
    let out = jump_flood(seeds);
    for t in out.texels.iter() {
        let c = t.expect("a seed reaches every texel");
        assert!(seeds_at.contains(&(c.x, c.y)));
    }
}
