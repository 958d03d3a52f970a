use rpu::buffer::blend_channel;
use rpu::map::WorldMap;
use rpu::sdf3d::{SDF3D, SDF3DType};
use rpu::tile::Tile;
use rpu::value::Value;
use rpu::vec3::{Vec3fx, Vec3i};
use rpu::world::World;
use rpu::{FX_ONE, FX_VOXEL, TILE_SIZE};

#[test]
fn set_then_get_returns_written_voxel() {
    let mut t = Tile::new(TILE_SIZE);
    t.set_voxel(3, 4, 5, Some((7, 9)));
    assert_eq!(t.get_voxel(3, 4, 5), Some((7, 9)));
    assert!(t.voxel_exists(3, 4, 5));
    t.set_voxel(3, 4, 5, None);
    assert_eq!(t.get_voxel(3, 4, 5), None);
}

#[test]
fn out_of_range_reads_empty_and_writes_are_ignored() {
    let mut t = Tile::new(TILE_SIZE);
    assert_eq!(t.get_voxel(TILE_SIZE, 0, 0), None);
    assert_eq!(t.get_voxel(0, 9999, 0), None);
    let before = t.data.clone();
    t.set_voxel(TILE_SIZE, 0, 0, Some((1, 1)));
    t.set_voxel(0, 0, usize::MAX, Some((1, 1)));
    assert_eq!(t.data, before);
}

#[test]
fn empty_tile_has_no_aabb() {
    let mut t = Tile::new(TILE_SIZE);
    t.build_aabb();
    assert!(t.aabb.is_none());
}

#[test]
fn single_voxel_aabb_is_its_unit_cube() {
    let mut t = Tile::new(TILE_SIZE);
    t.set_voxel(11, 22, 33, Some((1, 2)));
    t.build_aabb();
    let bb = t.aabb.expect("one voxel must produce a box");
    assert_eq!(bb.min.x, 11 * FX_ONE);
    assert_eq!(bb.min.y, 22 * FX_ONE);
    assert_eq!(bb.min.z, 33 * FX_ONE);
    assert_eq!(bb.max.x, 12 * FX_ONE);
    assert_eq!(bb.max.y, 23 * FX_ONE);
    assert_eq!(bb.max.z, 34 * FX_ONE);
}

#[test]
fn aabb_bounds_all_occupied_voxels() {
    let mut t = Tile::new(TILE_SIZE);
    t.set_voxel(2, 8, 5, Some((1, 1)));
    t.set_voxel(40, 3, 9, Some((1, 1)));
    t.build_aabb();
    let bb = t.aabb.unwrap();
    assert_eq!(bb.min.x, 2 * FX_ONE);
    assert_eq!(bb.max.x, 41 * FX_ONE);
    assert_eq!(bb.min.y, 3 * FX_ONE);
    assert_eq!(bb.max.y, 9 * FX_ONE);
    assert_eq!(bb.min.z, 5 * FX_ONE);
    assert_eq!(bb.max.z, 10 * FX_ONE);
}

#[test]
fn clear_all_empties_the_grid() {
    let mut t = Tile::new(TILE_SIZE);
    t.set_voxel(1, 1, 1, Some((3, 3)));
    t.build_aabb();
    t.clear_all();
    assert!(t.aabb.is_none());
    assert_eq!(t.get_voxel(1, 1, 1), None);
}

#[test]
fn resize_resamples_nearest_neighbor() {
    let mut t = Tile::new(2);
    t.set_voxel(1, 0, 0, Some((5, 5)));
    t.resize(4);
    assert_eq!(t.size, 4);
    // new x in {2, 3} maps back to old x == 1
    assert_eq!(t.get_voxel(2, 0, 0), Some((5, 5)));
    assert_eq!(t.get_voxel(3, 1, 1), Some((5, 5)));
    assert_eq!(t.get_voxel(1, 0, 0), None);
}

#[test]
fn tile_size_is_fifty() {
    assert_eq!(WorldMap::tile_size(), 50);
    assert_eq!(FX_VOXEL * TILE_SIZE as i64, FX_ONE);
}

#[test]
fn world_coord_round_trip_recovers_keys() {
    let w = World::new();
    let cases = [
        (Vec3i { x: 0, y: 0, z: 0 }, Vec3i { x: 0, y: 0, z: 0 }),
        (Vec3i { x: 3, y: -2, z: 7 }, Vec3i { x: 49, y: 1, z: 25 }),
        (Vec3i { x: -1, y: -1, z: -1 }, Vec3i { x: 0, y: 49, z: 13 }),
    ];
    for (key, tk) in cases {
        let wc = w.to_world_coord(key, tk);
        let (key2, tk2) = w.to_tile_coord(wc);
        assert_eq!(key, key2);
        assert_eq!(tk, tk2);
    }
}

#[test]
fn sphere_distance_is_exact_at_center_and_surface() {
    let sdf = SDF3D::new(SDF3DType::Sphere);
    let origin = Vec3fx { x: 0, y: 0, z: 0 };
    // default radius is half a unit
    assert_eq!(sdf.distance(origin, origin), -FX_ONE / 2);
    let on_axis = Vec3fx { x: FX_ONE, y: 0, z: 0 };
    assert_eq!(sdf.distance(on_axis, origin), FX_ONE / 2);
}

#[test]
fn box_distance_is_negative_inside() {
    let mut sdf = SDF3D::new(SDF3DType::Box);
    sdf.size = Vec3fx { x: FX_ONE / 2, y: FX_ONE / 2, z: FX_ONE / 2 };
    let origin = Vec3fx { x: 0, y: 0, z: 0 };
    assert_eq!(sdf.distance(origin, origin), -FX_ONE / 2);
    let outside = Vec3fx { x: 2 * FX_ONE, y: 0, z: 0 };
    assert!(sdf.distance(outside, origin) > 0);
}

#[test]
fn compile_sphere_marks_exactly_the_inside_voxels() {
    let mut w = World::new();
    let sdf = SDF3D::new(SDF3DType::Sphere);
    let center = Vec3fx { x: FX_ONE / 2, y: FX_ONE / 2, z: FX_ONE / 2 };
    w.compile(sdf, center);
    let tile = w.get_tile(Vec3i { x: 0, y: 0, z: 0 }).expect("covering tile must exist");
    // the voxel whose sample point is the center itself
    assert_eq!(tile.get_voxel(25, 25, 25), Some((10, 10)));
    // a corner voxel: its sample point is well outside the radius
    assert_eq!(tile.get_voxel(0, 0, 0), None);
    // a voxel just inside the surface along an axis
    assert_eq!(tile.get_voxel(49, 25, 25), Some((10, 10)));
    // a sample point exactly on the surface is not strictly inside
    assert_eq!(tile.get_voxel(0, 25, 25), None);
    // no tile outside the sphere's bounding box was created
    assert!(w.get_tile(Vec3i { x: 2, y: 0, z: 0 }).is_none());
    assert!(w.get_tile(Vec3i { x: -1, y: 0, z: 0 }).is_none());
    // the world box covers exactly the one tile
    let bb = w.map.aabb.expect("world box after compile");
    assert_eq!(bb.min.x, 0);
    assert_eq!(bb.max.x, FX_ONE);
}

#[test]
fn compile_keeps_prior_voxels_outside_the_shape() {
    let mut w = World::new();
    let mut seeded = Tile::new(TILE_SIZE);
    seeded.set_voxel(0, 0, 0, Some((3, 4)));
    w.set_tile(Vec3i { x: 0, y: 0, z: 0 }, seeded);
    let sdf = SDF3D::new(SDF3DType::Sphere);
    let center = Vec3fx { x: FX_ONE / 2, y: FX_ONE / 2, z: FX_ONE / 2 };
    w.compile(sdf, center);
    let tile = w.get_tile(Vec3i { x: 0, y: 0, z: 0 }).unwrap();
    assert_eq!(tile.get_voxel(0, 0, 0), Some((3, 4)));
    assert_eq!(tile.get_voxel(25, 25, 25), Some((10, 10)));
}

#[test]
fn blend_at_iteration_zero_overwrites() {
    assert_eq!(blend_channel(123456, 777, 0), 777);
    assert_eq!(blend_channel(-99999, 0, 0), 0);
}

#[test]
fn blend_weight_decreases_with_iteration() {
    // a fresh sample of one unit against a zero history
    assert_eq!(blend_channel(0, FX_ONE, 1), FX_ONE / 2);
    assert_eq!(blend_channel(0, FX_ONE, 3), FX_ONE / 4);
    assert_eq!(blend_channel(0, FX_ONE, 9), FX_ONE / 10);
}

#[test]
fn value_conversions() {
    assert_eq!(Value::Number(3 * FX_ONE).to_number(), Some(3 * FX_ONE));
    assert_eq!(Value::Command(String::from("BAKE")).to_number(), None);
    assert_eq!(Value::Number(5 * FX_ONE).to_color(), Some(5));
    assert_eq!(Value::Number(-FX_ONE).to_color(), Some(0));
    assert_eq!(Value::Number(300 * FX_ONE).to_color(), Some(255));
    assert_eq!(Value::Config(String::from("STACK")).to_color(), None);
}

#[test]
fn read_properties_sphere_reads_radius_and_textures() {
    let mut sdf = SDF3D::new(SDF3DType::Sphere);
    let mut stack = vec![Value::Array(vec![5 * FX_ONE]), Value::Number(2 * FX_ONE)];
    assert!(sdf.read_properties(&mut stack).is_ok());
    assert_eq!(sdf.radius, 2 * FX_ONE);
    assert_eq!(sdf.textures, vec![5 * FX_ONE]);
    assert_eq!(sdf.get_color(), 5);
    assert!(stack.is_empty());
}

#[test]
fn read_properties_box_reads_width_height_depth() {
    let mut sdf = SDF3D::new(SDF3DType::Box);
    let mut stack = vec![
        Value::Number(1 * FX_ONE),
        Value::Number(2 * FX_ONE),
        Value::Number(3 * FX_ONE),
    ];
    assert!(sdf.read_properties(&mut stack).is_ok());
    assert_eq!(sdf.size.x, 1 * FX_ONE);
    assert_eq!(sdf.size.y, 2 * FX_ONE);
    assert_eq!(sdf.size.z, 3 * FX_ONE);
    assert!(stack.is_empty());
}

#[test]
fn read_properties_reports_missing_and_wrong_values() {
    let mut sdf = SDF3D::new(SDF3DType::Sphere);
    let mut empty: Vec<Value> = vec![];
    let e = sdf.read_properties(&mut empty).unwrap_err();
    assert_eq!(e, "Stack is empty. Expected number for \"radius\" of Sphere.");
    let mut wrong = vec![Value::Command(String::from("BAKE"))];
    let e2 = sdf.read_properties(&mut wrong).unwrap_err();
    assert_eq!(e2, "Wrong value on stack. Expected number for \"radius\" of Sphere.");
    assert!(wrong.is_empty());
    let mut sdfb = SDF3D::new(SDF3DType::Box);
    let mut one = vec![Value::Number(FX_ONE)];
    let e3 = sdfb.read_properties(&mut one).unwrap_err();
    assert_eq!(e3, "Stack is empty. Expected number for \"height\" of Box.");
}

#[test]
fn get_color_defaults_to_zero_without_textures() {
    let mut sdf = SDF3D::new(SDF3DType::Sphere);
    sdf.textures = vec![];
    assert_eq!(sdf.get_color(), 0);
    assert_eq!(SDF3D::new(SDF3DType::Box).get_color(), 10);
}

#[test]
fn shape_names() {
    assert_eq!(SDF3D::new(SDF3DType::Sphere).to_string(), "Sphere");
    assert_eq!(SDF3D::new(SDF3DType::Box).to_string(), "Box");
}

#[test]
fn create_bbox_spans_the_extent() {
    let sdf = SDF3D::new(SDF3DType::Sphere);
    let p = Vec3fx { x: FX_ONE, y: 0, z: -FX_ONE };
    let bb = sdf.create_bbox(p);
    assert_eq!(bb.min.x, FX_ONE - FX_ONE / 2);
    assert_eq!(bb.max.x, FX_ONE + FX_ONE / 2);
    assert_eq!(bb.min.z, -FX_ONE - FX_ONE / 2);
}

#[test]
fn create_tiles_covers_the_box_and_only_it() {
    let mut w = World::new();
    let sdf = SDF3D::new(SDF3DType::Sphere);
    let bb = sdf.create_bbox(Vec3fx { x: 0, y: 0, z: 0 });
    let keys = w.map.create_tiles_aabb(&bb);
    // the box [-0.5, 0.5] per axis covers cells -1 and 0: eight tiles
    assert_eq!(keys.len(), 8);
    for k in &keys {
        assert!(w.get_tile(*k).is_some());
        assert!((-1..=0).contains(&k.x));
        assert!((-1..=0).contains(&k.y));
        assert!((-1..=0).contains(&k.z));
    }
    assert!(w.get_tile(Vec3i { x: 1, y: 0, z: 0 }).is_none());
}

#[test]
fn map_aabb_is_union_of_key_cubes() {
    let mut w = World::new();
    w.set_tile(Vec3i { x: -2, y: 0, z: 1 }, Tile::new(TILE_SIZE));
    w.set_tile(Vec3i { x: 3, y: 1, z: 1 }, Tile::new(TILE_SIZE));
    w.map.build_aabb();
    let bb = w.map.aabb.unwrap();
    assert_eq!(bb.min.x, -2 * FX_ONE);
    assert_eq!(bb.max.x, 4 * FX_ONE);
    assert_eq!(bb.min.y, 0);
    assert_eq!(bb.max.y, 2 * FX_ONE);
    assert_eq!(bb.min.z, 1 * FX_ONE);
    assert_eq!(bb.max.z, 2 * FX_ONE);
}

#[test]
fn compile_box_marks_a_z_tunnel() {
    // the box distance deliberately folds only the x and y excesses into
    // its inside term, so a flat box marks voxels far past its z extent
    // while their x and y margins absorb the z excess
    let mut w = World::new();
    let mut sdf = SDF3D::new(SDF3DType::Box);
    sdf.size = Vec3fx {
        x: 4 * FX_ONE / 10,
        y: 4 * FX_ONE / 10,
        z: FX_ONE / 10,
    };
    let center = Vec3fx { x: FX_ONE / 2, y: FX_ONE / 2, z: FX_ONE / 2 };
    w.compile(sdf, center);
    let tile = w.get_tile(Vec3i { x: 0, y: 0, z: 0 }).unwrap();
    // inside all three extents
    assert_eq!(tile.get_voxel(25, 25, 25), Some((10, 10)));
    // well past the z extent, but centered in x and y: still marked
    assert_eq!(tile.get_voxel(25, 25, 40), Some((10, 10)));
    // past the z extent with little x margin left: not marked
    assert_eq!(tile.get_voxel(44, 25, 40), None);
    // past the x extent: never marked
    assert_eq!(tile.get_voxel(48, 25, 25), None);
}

#[test]
fn set_focus_recenters_the_camera() {
    let mut w = World::new();
    w.set_focus(Vec3i { x: 2, y: 1, z: 0 });
    assert_eq!(w.camera.center.x, 2 * FX_ONE + FX_ONE / 2);
    assert_eq!(w.camera.center.y, FX_ONE + FX_ONE / 2);
    assert_eq!(w.camera.origin.x, w.camera.center.x);
    assert!(w.camera.origin.z > w.camera.center.z);
}

#[test]
fn clear_forgets_every_tile() {
    let mut w = World::new();
    w.set_tile(Vec3i { x: 1, y: 0, z: 0 }, Tile::new(TILE_SIZE));
    assert!(w.get_tile(Vec3i { x: 1, y: 0, z: 0 }).is_some());
    w.clear();
    assert!(w.get_tile(Vec3i { x: 1, y: 0, z: 0 }).is_none());
}

#[test]
fn aabb_get_size_is_the_extent() {
    let bb = rpu::misc::AABB {
        min: Vec3fx { x: -FX_ONE, y: 0, z: 2 * FX_ONE },
        max: Vec3fx { x: FX_ONE, y: FX_ONE, z: 5 * FX_ONE },
    };
    let s = bb.get_size();
    assert_eq!(s.x, 2 * FX_ONE);
    assert_eq!(s.y, FX_ONE);
    assert_eq!(s.z, 3 * FX_ONE);
}

#[test]
fn camera_rays_start_where_expected() {
    let w = World::new();
    let screen = (64i64, 48i64);
    let uv = (FX_ONE / 2, FX_ONE / 2);
    let off = (FX_ONE / 2, FX_ONE / 2);
    let p = w.camera.create_ray(uv, screen, off);
    assert_eq!((p.o.x, p.o.y, p.o.z), (0, FX_ONE, 2 * FX_ONE));
    let i = w.camera.create_iso_ray(uv, screen, off);
    // the isometric eye is pulled back from the center along the view
    assert_ne!((i.o.x, i.o.y, i.o.z), (p.o.x, p.o.y, p.o.z));
    let o = w.camera.create_orbit_ray(uv, screen, off);
    assert_eq!((o.d.x, o.d.y, o.d.z), (p.d.x, p.d.y, p.d.z));
}
