use rpu::buffer::ColorBuffer;
use rpu::context::RenderContext;
use rpu::misc::{hash3_2, HitRecord, Ray, Side};
use rpu::tile::{Tile, PREVIEW_BG};
use rpu::vec3::{Vec3fx, Vec3i};
use rpu::world::World;
use rpu::{FX_ONE, TILE_SIZE};

fn solid_tile() -> Tile {
    let mut t = Tile::new(TILE_SIZE);
    for z in 0..TILE_SIZE {
        for y in 0..TILE_SIZE {
            for x in 0..TILE_SIZE {
                t.set_voxel(x, y, z, Some((1, 1)));
            }
        }
    }
    t
}

#[test]
fn traverse_empty_map_finds_nothing() {
    let w = World::new();
    let rays = [
        Ray::new(Vec3fx { x: 0, y: 0, z: 5 * FX_ONE }, Vec3fx { x: 0, y: 0, z: -FX_ONE }),
        Ray::new(
            Vec3fx { x: -3 * FX_ONE, y: FX_ONE, z: 0 },
            Vec3fx { x: FX_ONE, y: -FX_ONE / 2, z: FX_ONE / 3 },
        ),
        Ray::new(Vec3fx { x: 0, y: 0, z: 0 }, Vec3fx { x: 0, y: 0, z: 0 }),
    ];
    for ray in rays {
        assert!(w.traverse(&ray).is_none());
    }
}

#[test]
fn traverse_hits_a_solid_tile_head_on() {
    let mut w = World::new();
    w.set_tile(Vec3i { x: 0, y: 0, z: 0 }, solid_tile());
    // from outside the map box, aimed straight at the tile's center
    let ray = Ray::new(
        Vec3fx { x: FX_ONE / 2, y: FX_ONE / 2, z: 5 * FX_ONE },
        Vec3fx { x: 0, y: 0, z: -FX_ONE },
    );
    let h = w.traverse(&ray).expect("the solid tile must be hit");
    assert_eq!(h.key, Vec3i { x: 0, y: 0, z: 0 });
    assert_eq!(h.value, (1, 1));
    // the normal is one of the six axis unit vectors
    let n = (h.normal.x, h.normal.y, h.normal.z);
    let axis_units = [
        (FX_ONE, 0, 0),
        (-FX_ONE, 0, 0),
        (0, FX_ONE, 0),
        (0, -FX_ONE, 0),
        (0, 0, FX_ONE),
        (0, 0, -FX_ONE),
    ];
    assert!(axis_units.contains(&n));
    assert!(h.distance >= 0);
}

#[test]
fn tile_dda_reports_the_first_voxel_entered() {
    let mut t = Tile::new(TILE_SIZE);
    t.set_voxel(10, 5, 5, Some((9, 2)));
    t.set_voxel(20, 5, 5, Some((8, 3)));
    t.build_aabb();
    // marching along +x through both voxels: the nearer one wins
    let ray = Ray::new(
        Vec3fx {
            x: 0,
            y: 5 * FX_ONE + FX_ONE / 2,
            z: 5 * FX_ONE + FX_ONE / 2,
        },
        Vec3fx { x: FX_ONE, y: 0, z: 0 },
    );
    let h = t.dda(&ray).expect("a voxel lies on the ray");
    assert_eq!(h.tile_key, Vec3i { x: 10, y: 5, z: 5 });
    assert_eq!(h.value, (9, 2));
    assert_eq!((h.normal.x, h.normal.y, h.normal.z), (FX_ONE, 0, 0));
}

#[test]
fn tile_dda_misses_without_a_box() {
    let mut t = Tile::new(TILE_SIZE);
    t.set_voxel(10, 5, 5, Some((9, 2)));
    // no build_aabb: the slab gate rejects everything
    let ray = Ray::new(
        Vec3fx { x: 0, y: 5 * FX_ONE, z: 5 * FX_ONE },
        Vec3fx { x: FX_ONE, y: 0, z: 0 },
    );
    assert!(t.dda(&ray).is_none());
}

#[test]
fn ray_aabb_slab_test() {
    let t = Tile::new(TILE_SIZE);
    let bb = rpu::misc::AABB {
        min: Vec3fx { x: 0, y: 0, z: 0 },
        max: Vec3fx { x: FX_ONE, y: FX_ONE, z: FX_ONE },
    };
    let toward = Ray::new(
        Vec3fx { x: -FX_ONE, y: FX_ONE / 2, z: FX_ONE / 2 },
        Vec3fx { x: FX_ONE, y: 0, z: 0 },
    );
    assert!(t.ray_aabb(&toward, &bb));
    let away = Ray::new(
        Vec3fx { x: -FX_ONE, y: FX_ONE / 2, z: FX_ONE / 2 },
        Vec3fx { x: -FX_ONE, y: 0, z: 0 },
    );
    assert!(!t.ray_aabb(&away, &bb));
    let parallel_inside = Ray::new(
        Vec3fx { x: FX_ONE / 2, y: FX_ONE / 2, z: FX_ONE / 2 },
        Vec3fx { x: 0, y: 0, z: FX_ONE },
    );
    assert!(t.ray_aabb(&parallel_inside, &bb));
    let parallel_outside = Ray::new(
        Vec3fx { x: 2 * FX_ONE, y: FX_ONE / 2, z: FX_ONE / 2 },
        Vec3fx { x: 0, y: 0, z: FX_ONE },
    );
    assert!(!t.ray_aabb(&parallel_outside, &bb));
}

#[test]
fn map_ray_aabb_agrees_with_tile_ray_aabb() {
    let w = World::new();
    let t = Tile::new(TILE_SIZE);
    let bb = rpu::misc::AABB {
        min: Vec3fx { x: -FX_ONE, y: 0, z: 0 },
        max: Vec3fx { x: FX_ONE, y: 2 * FX_ONE, z: FX_ONE },
    };
    let ray = Ray::new(
        Vec3fx { x: 0, y: 5 * FX_ONE, z: FX_ONE / 2 },
        Vec3fx { x: 0, y: -FX_ONE, z: 0 },
    );
    assert_eq!(w.map.ray_aabb(&ray, &bb), t.ray_aabb(&ray, &bb));
    assert!(w.map.ray_aabb(&ray, &bb));
}

#[test]
fn render_iteration_zero_overwrites_the_buffer() {
    let mut w = World::new();
    w.set_tile(Vec3i { x: 0, y: 0, z: 0 }, solid_tile());
    w.map.build_aabb();
    let mut buffer = ColorBuffer::new(4, 3);
    // stale content that a zero-iteration render must fully replace
    for y in 0..3 {
        for x in 0..4 {
            buffer.set_pixel(x, y, (-31415, -31415, -31415, -31415));
        }
    }
    let ctx = RenderContext::new();
    w.render(&mut buffer, &ctx, 0);
    assert_eq!(buffer.width, 4);
    assert_eq!(buffer.height, 3);
    for v in &buffer.pixels {
        // every channel is now a fresh sample: a color within one unit
        assert!((0..=FX_ONE).contains(v));
    }
}

#[test]
fn render_later_iterations_move_pixels_at_most_halfway() {
    let w = World::new();
    let mut buffer = ColorBuffer::new(2, 2);
    let ctx = RenderContext::new();
    w.render(&mut buffer, &ctx, 0);
    let before = buffer.pixels.clone();
    w.render(&mut buffer, &ctx, 1);
    for (a, b) in before.iter().zip(buffer.pixels.iter()) {
        // with weight one half, the new value stays between the old value
        // and a color sample
        let lo = (*a).min(0) - 1;
        let hi = (*a).max(FX_ONE) + 1;
        assert!((lo..=hi).contains(b));
        assert!((b - a).abs() <= (FX_ONE - *a).abs() / 2 + a.abs() / 2 + 1);
    }
}

#[test]
fn hit_at_picks_the_focused_tile() {
    let mut w = World::new();
    assert!(w.hit_at((0, 0), &ColorBuffer::new(8, 8), false).is_none());
    w.set_tile(Vec3i { x: 0, y: 0, z: 0 }, solid_tile());
    // the default camera looks at the origin from (0, 1, 2): the center
    // pixel's ray points into the solid tile's unit cube
    let h = w.hit_at((4, 4), &ColorBuffer::new(8, 8), false);
    assert!(h.is_some());
    assert_eq!(h.unwrap().key, Vec3i { x: 0, y: 0, z: 0 });
}

#[test]
fn tile_preview_paints_background_on_an_empty_tile() {
    let mut t = Tile::new(TILE_SIZE);
    let mut buffer = ColorBuffer::new(4, 4);
    t.render(&mut buffer);
    for y in 0..4 {
        for x in 0..4 {
            let p = buffer.get_pixel(x, y);
            assert_eq!(p, (PREVIEW_BG, PREVIEW_BG, PREVIEW_BG, FX_ONE));
        }
    }
}

#[test]
fn tile_preview_paints_voxels_in_the_middle() {
    let mut t = solid_tile();
    t.build_aabb();
    let mut buffer = ColorBuffer::new(9, 9);
    t.render(&mut buffer);
    // the center pixel looks straight at the solid grid: not background
    let center = buffer.get_pixel(4, 4);
    assert_ne!(center.0, PREVIEW_BG);
}

#[test]
fn key_at_finds_the_front_voxel() {
    let mut t = solid_tile();
    t.build_aabb();
    let buffer = ColorBuffer::new(9, 9);
    let k = t.key_at((4, 4), &buffer).expect("the solid tile fills the view");
    // the preview camera sits inside the fully solid grid, so the march
    // reports its own starting cell, the floor of the eye position
    assert_eq!(k, Vec3i { x: 25, y: 25, z: 45 });
}

#[test]
fn to_u8_vec_scales_channels() {
    let mut buffer = ColorBuffer::new(2, 1);
    buffer.set_pixel(0, 0, (0, FX_ONE, FX_ONE / 2, -5));
    let bytes = buffer.to_u8_vec();
    assert_eq!(bytes.len(), 8);
    assert_eq!(bytes[0], 0);
    assert_eq!(bytes[1], 255);
    assert_eq!(bytes[2], 127);
    assert_eq!(bytes[3], 0);
}

#[test]
fn hash3_2_stays_in_the_unit_square() {
    let pts = [
        Vec3fx { x: 0, y: 0, z: 0 },
        Vec3fx { x: 123456, y: -654321, z: 42 },
        Vec3fx { x: -FX_ONE, y: FX_ONE, z: 7 * FX_ONE },
    ];
    for p in pts {
        let (u, v) = hash3_2(p);
        assert!((0..FX_ONE).contains(&u));
        assert!((0..FX_ONE).contains(&v));
    }
}

#[test]
fn compute_side_picks_the_dominant_axis() {
    let mut h = HitRecord::new();
    h.normal = Vec3fx { x: 0, y: FX_ONE, z: 0 };
    h.compute_side();
    assert_eq!(h.get_side(), Side::Bottom);
    h.normal = Vec3fx { x: -FX_ONE, y: 0, z: 0 };
    h.compute_side();
    assert_eq!(h.get_side(), Side::Right);
    h.normal = Vec3fx { x: 0, y: 0, z: FX_ONE };
    h.compute_side();
    assert_eq!(h.get_side(), Side::Back);
}

#[test]
fn ray_new_fills_signs_and_reciprocals() {
    let r = Ray::new(
        Vec3fx { x: 0, y: 0, z: 0 },
        Vec3fx { x: FX_ONE, y: -FX_ONE / 2, z: 0 },
    );
    assert_eq!((r.sign_x, r.sign_y, r.sign_z), (0, 1, 0));
    assert_eq!(r.inv_direction.x, FX_ONE);
    assert_eq!(r.inv_direction.y, -2 * FX_ONE);
    assert_eq!(r.inv_direction.z, i64::MAX);
    let at = r.at(2 * FX_ONE);
    assert_eq!(at.x, 2 * FX_ONE);
    assert_eq!(at.y, -FX_ONE);
}
