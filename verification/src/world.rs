use vstd::prelude::*;

verus! {

use crate::{FX_ONE, FX_BOUND, FX_VOXEL, TILE_SIZE, UNIT_BOUND};
use crate::buffer::ColorBuffer;
use crate::camera::Camera;
use crate::context::RenderContext;
use crate::fx::fx_frac_spec;
use crate::misc::{HitRecord, Ray};
use crate::map::{key_wf, WorldMap};
use crate::sdf3d::SDF3D;
use crate::tile::Tile;
use crate::vec3::{Vec3fx, Vec3i};

/// The world: the sparse tile map and the scene camera.
#[derive(Debug)]
pub struct World {
    pub camera: Camera,
    pub map: WorldMap,
}

/// The world position of a tile-local voxel: the tile key in whole units
/// plus the local coordinate scaled to voxel widths.
pub open spec fn world_coord_spec(key: Vec3i, tile_key: Vec3i) -> Vec3fx {
    Vec3fx {
        x: (key.x * FX_ONE + tile_key.x * FX_VOXEL) as i64,
        y: (key.y * FX_ONE + tile_key.y * FX_VOXEL) as i64,
        z: (key.z * FX_ONE + tile_key.z * FX_VOXEL) as i64,
    }
}

/// A tile-local voxel coordinate: each component within the tile edge.
pub open spec fn tile_coord_wf(tk: Vec3i) -> bool {
    0 <= tk.x < TILE_SIZE && 0 <= tk.y < TILE_SIZE && 0 <= tk.z < TILE_SIZE
}

impl World {
    /// Every tile has the project's fixed edge length, and the camera and
    /// map are sound.
    pub open spec fn wf(self) -> bool {
        &&& self.camera.wf()
        &&& self.map.wf()
        &&& forall|i: int|
            0 <= i < self.map.tiles@.len() ==> (#[trigger] self.map.tiles@[i].1).size == TILE_SIZE
                && (self.map.tiles@[i].1.aabb matches Some(b) ==> b.min.wf() && b.max.wf())
        &&& (self.map.aabb matches Some(b) ==> b.min.wf() && b.max.wf())
    }

    /// A fresh world: an empty map with no box, and the default camera a
    /// little above and behind the origin.
    pub fn new() -> (r: World)
        ensures
            r.wf(),
            r.map.is_empty_map(),
            r.map.aabb is None,
            r.camera.origin == (Vec3fx { x: 0i64, y: FX_ONE as i64, z: (2 * FX_ONE) as i64 }),
            r.camera.center == (Vec3fx { x: 0i64, y: 0i64, z: 0i64 }),
            r.camera.fov == 120 * FX_ONE,
    {
        let camera = Camera::new(
            Vec3fx { x: 0, y: FX_ONE, z: 2 * FX_ONE },
            Vec3fx::zero(),
            120 * FX_ONE,
        );
        let mut map = WorldMap::new();
        map.build_aabb();
        World { camera, map }
    }

    /// A copy of the tile at the given key, when one exists.
    pub fn get_tile(&self, at: Vec3i) -> (r: Option<Tile>)
        requires
            self.wf(),
        ensures
            (r is Some) <==> self.map.contains_key(at),
            r matches Some(t) ==> {
                &&& t.camera == self.map.tile_at_key(at).camera
                &&& t.size == self.map.tile_at_key(at).size
                &&& t.data@ == self.map.tile_at_key(at).data@
                &&& t.aabb == self.map.tile_at_key(at).aabb
                &&& t.grid_wf()
                &&& t.size == TILE_SIZE
            },
    {
        match self.map.find_tile(at) {
            Some(i) => {
                let (_, ref tile) = self.map.tiles[i];
                proof {
                    crate::map::lemma_tile_at(self.map, i as int, at);
                }
                Some(tile.clone())
            },
            None => None,
        }
    }

    /// Store a tile at the given key, rebuilding its box first: no tile
    /// enters the map with a stale box.
    pub fn set_tile(&mut self, at: Vec3i, tile: Tile)
        requires
            old(self).wf(),
            key_wf(at),
            tile.grid_wf(),
            tile.size == TILE_SIZE,
        ensures
            final(self).wf(),
            final(self).camera == old(self).camera,
            final(self).map.aabb == old(self).map.aabb,
            final(self).map.contains_key(at),
            forall|k: Vec3i| #[trigger]
                final(self).map.contains_key(k) <==> (old(self).map.contains_key(k) || k == at),
            forall|k: Vec3i|
                k != at && old(self).map.contains_key(k)
                    ==> #[trigger] final(self).map.tile_at_key(k) == old(self).map.tile_at_key(k),
            final(self).map.tile_at_key(at).size == tile.size,
            final(self).map.tile_at_key(at).camera == tile.camera,
            final(self).map.tile_at_key(at).data@ == tile.data@,
            crate::tile::has_tight_aabb(final(self).map.tile_at_key(at)),
    {
        let mut t = tile;
        t.build_aabb();
        match self.map.find_tile(at) {
            Some(i) => {
                let ghost pre = self.map;
                self.map.tiles.set(i, (at, t));
                proof {
                    lemma_set_key(pre, self.map, i as int, at, t);
                }
            },
            None => {
                let ghost pre = self.map;
                self.map.tiles.push((at, t));
                proof {
                    crate::map::lemma_push_new_key(pre, self.map, at, t);
                }
            },
        }
    }

    /// Aim the camera at the unit cube of the given key and re-seat the eye
    /// on its orbit.
    pub fn set_focus(&mut self, at: Vec3i)
        requires
            old(self).wf(),
            key_wf(at),
            -FX_BOUND / 4 + FX_ONE <= at.x * FX_ONE <= FX_BOUND / 4 - FX_ONE,
            -FX_BOUND / 4 + FX_ONE <= at.y * FX_ONE <= FX_BOUND / 4 - FX_ONE,
            -FX_BOUND / 4 <= old(self).camera.center.z <= FX_BOUND / 4,
        ensures
            final(self).map == old(self).map,
            final(self).camera.center.x == at.x * FX_ONE + FX_ONE / 2,
            final(self).camera.center.y == at.y * FX_ONE + FX_ONE / 2,
            final(self).camera.center.z == old(self).camera.center.z,
            final(self).camera.origin.x == final(self).camera.center.x,
            final(self).camera.origin.y == final(self).camera.center.y + crate::camera::ORBIT_UP,
            final(self).camera.origin.z == final(self).camera.center.z
                + crate::camera::ORBIT_BACK,
    {
        self.camera.center.x = (at.x as i64) * FX_ONE + FX_ONE / 2;
        self.camera.center.y = (at.y as i64) * FX_ONE + FX_ONE / 2;
        self.camera.compute_orbit((0, 0));
    }

    /// Drop every tile.
    pub fn clear(&mut self)
        ensures
            final(self).camera == old(self).camera,
            final(self).map.is_empty_map(),
            final(self).map.wf(),
            final(self).map.aabb == old(self).map.aabb,
    {
        self.map.clear();
    }

    /// The world position of a voxel: the tile key's whole units plus the
    /// local coordinate in voxel widths.
    pub fn to_world_coord(&self, key: Vec3i, tile_key: Vec3i) -> (r: Vec3fx)
        requires
            key_wf(key),
            tile_coord_wf(tile_key),
        ensures
            r == world_coord_spec(key, tile_key),
            r.wf(),
    {
        proof {
            crate::vec3::lemma_unit_scale_bound(key.x as int);
            crate::vec3::lemma_unit_scale_bound(key.y as int);
            crate::vec3::lemma_unit_scale_bound(key.z as int);
        }
        Vec3fx {
            x: (key.x as i64) * FX_ONE + (tile_key.x as i64) * FX_VOXEL,
            y: (key.y as i64) * FX_ONE + (tile_key.y as i64) * FX_VOXEL,
            z: (key.z as i64) * FX_ONE + (tile_key.z as i64) * FX_VOXEL,
        }
    }

    /// Rasterize a shape into the map: create every tile its box reaches,
    /// mark as occupied exactly the voxels whose world position the shape
    /// occupies, and rebuild the touched boxes and the world box.
    pub fn compile(&mut self, sdf: SDF3D, position: Vec3fx)
        requires
            old(self).wf(),
            sdf.shape_wf(),
            -FX_BOUND / 2 <= position.x <= FX_BOUND / 2,
            -FX_BOUND / 2 <= position.y <= FX_BOUND / 2,
            -FX_BOUND / 2 <= position.z <= FX_BOUND / 2,
        ensures
            final(self).wf(),
            final(self).camera == old(self).camera,
            forall|k: Vec3i| #[trigger]
                final(self).map.contains_key(k) <==> (old(self).map.contains_key(k)
                    || crate::map::covers(sdf.bbox_spec(position), k)),
            forall|k: Vec3i|
                !crate::map::covers(sdf.bbox_spec(position), k) && old(self).map.contains_key(k)
                    ==> #[trigger] final(self).map.tile_at_key(k) == old(self).map.tile_at_key(k),
            forall|k: Vec3i| #[trigger]
                crate::map::covers(sdf.bbox_spec(position), k) ==> voxelized(
                    final(self).map.tile_at_key(k),
                    sdf,
                    position,
                    k,
                    prior_of(old(self).map, k),
                ),
            crate::map::has_tight_map_aabb(final(self).map),
    {
        let bbox = sdf.create_bbox(position);
        let keys = self.map.create_tiles_aabb(&bbox);
        let ghost mid = self.map;
        let ghost bb = sdf.bbox_spec(position);
        proof {
            assert forall|ii: int| 0 <= ii < self.map.tiles@.len() implies (#[trigger] self
                .map.tiles@[ii].1).size == TILE_SIZE && (self.map.tiles@[ii].1.aabb matches Some(b)
                ==> b.min.wf() && b.max.wf()) by {
                let k = self.map.tiles@[ii].0;
                crate::map::lemma_tile_at(self.map, ii, k);
                if old(self).map.contains_key(k) {
                    let jj = choose|jj: int|
                        0 <= jj < old(self).map.tiles@.len() && (#[trigger] old(
                            self,
                        ).map.tiles@[jj].0) == k;
                    crate::map::lemma_tile_at(old(self).map, jj, k);
                }
            }
            assert forall|k: Vec3i|
                !crate::map::covers(bb, k) && old(self).map.contains_key(k) implies #[trigger] self
                .map.tile_at_key(k) == old(self).map.tile_at_key(k) by {
                assert(self.map.contains_key(k));
            }
        }
        let color = sdf.get_color();
        let mut i: usize = 0;
        while i < keys.len()
            invariant
                old(self).wf(),
                sdf.shape_wf(),
                -FX_BOUND / 2 <= position.x <= FX_BOUND / 2,
                -FX_BOUND / 2 <= position.y <= FX_BOUND / 2,
                -FX_BOUND / 2 <= position.z <= FX_BOUND / 2,
                bb == sdf.bbox_spec(position),
                crate::map::inner_box(bb),
                color == sdf.color_spec(),
                i <= keys@.len(),
                self.wf(),
                self.camera == old(self).camera,
                forall|k: Vec3i| #[trigger]
                    mid.contains_key(k) <==> (old(self).map.contains_key(k) || crate::map::covers(
                        bb,
                        k,
                    )),
                forall|k: Vec3i|
                    old(self).map.contains_key(k) ==> #[trigger] mid.contains_key(k)
                        && mid.tile_at_key(k) == old(self).map.tile_at_key(k),
                forall|k: Vec3i|
                    crate::map::covers(bb, k) && !old(self).map.contains_key(k)
                        ==> (#[trigger] mid.tile_at_key(k)).grid_wf() && mid.tile_at_key(k).size
                        == TILE_SIZE && mid.tile_at_key(k).empty_grid(),
                forall|j: int| 0 <= j < keys@.len() ==> crate::map::covers(bb, #[trigger] keys@[j]),
                forall|k: Vec3i| #[trigger] crate::map::covers(bb, k) ==> keys@.contains(k),
                forall|a: int, b: int| 0 <= a < b < keys@.len() ==> keys@[a] != keys@[b],
                forall|k: Vec3i| #[trigger]
                    self.map.contains_key(k) <==> mid.contains_key(k),
                forall|j: int|
                    0 <= j < i ==> voxelized(
                        self.map.tile_at_key(#[trigger] keys@[j]),
                        sdf,
                        position,
                        keys@[j],
                        prior_of(old(self).map, keys@[j]),
                    ),
                forall|j: int|
                    i <= j < keys@.len() ==> #[trigger] self.map.tile_at_key(keys@[j])
                        == mid.tile_at_key(keys@[j]),
                forall|k: Vec3i|
                    !crate::map::covers(bb, k) && old(self).map.contains_key(k) ==> #[trigger] self
                        .map.tile_at_key(k) == old(self).map.tile_at_key(k),
            decreases keys@.len() - i,
        {
            let key = keys[i];
            proof {
                lemma_covers_key_wf(bb, key);
                assert(mid.contains_key(key));
                assert(self.map.contains_key(key));
            }
            let topt = self.get_tile(key);
            let mut tile = topt.unwrap();
            let ghost t0 = tile;
            let ghost prior = prior_of(old(self).map, key);
            proof {
                assert(tile.size == TILE_SIZE && tile.grid_wf());
                assert(self.map.tile_at_key(key) == mid.tile_at_key(key));
                assert forall|a: int, b: int, c: int| tile.in_bounds(a, b, c) implies (
                match prior {
                    Some(pt) => pt.voxel_at(a, b, c),
                    None => None,
                }) == #[trigger] t0.voxel_at(a, b, c) by {
                    if old(self).map.contains_key(key) {
                        let pt = old(self).map.tile_at_key(key);
                        assert(mid.tile_at_key(key) == pt);
                        assert(tile.data@ == pt.data@ && tile.size == pt.size);
                    } else {
                        assert(mid.tile_at_key(key).empty_grid());
                        assert(!mid.tile_at_key(key).occupied_at(a, b, c));
                        assert(tile.data@ == mid.tile_at_key(key).data@);
                        assert(!t0.occupied_at(a, b, c));
                    }
                }
            }
            let size = tile.size;
            let mut y: usize = 0;
            while y < size
                invariant
                    sdf.shape_wf(),
                    -FX_BOUND / 2 <= position.x <= FX_BOUND / 2,
                    -FX_BOUND / 2 <= position.y <= FX_BOUND / 2,
                    -FX_BOUND / 2 <= position.z <= FX_BOUND / 2,
                    color == sdf.color_spec(),
                    key_wf(key),
                    size == TILE_SIZE,
                    y <= size,
                    tile.size == TILE_SIZE,
                    tile.grid_wf(),
                    forall|a: int, b: int, c: int|
                        tile.in_bounds(a, b, c) ==> (match prior {
                            Some(pt) => pt.voxel_at(a, b, c),
                            None => None,
                        }) == #[trigger] t0.voxel_at(a, b, c),
                    t0.size == TILE_SIZE,
                    forall|a: int, b: int, c: int|
                        tile.in_bounds(a, b, c) ==> #[trigger] tile.voxel_at(a, b, c) == (
                        if vox_scanned(a, b, c, y as int, 0, 0) {
                            compiled_voxel(sdf, position, key, prior, a, b, c)
                        } else {
                            t0.voxel_at(a, b, c)
                        }),
                decreases size - y,
            {
                let mut x: usize = 0;
                while x < size
                    invariant
                        sdf.shape_wf(),
                        -FX_BOUND / 2 <= position.x <= FX_BOUND / 2,
                        -FX_BOUND / 2 <= position.y <= FX_BOUND / 2,
                        -FX_BOUND / 2 <= position.z <= FX_BOUND / 2,
                        color == sdf.color_spec(),
                        key_wf(key),
                        size == TILE_SIZE,
                        y < size,
                        x <= size,
                        tile.size == TILE_SIZE,
                        tile.grid_wf(),
                        forall|a: int, b: int, c: int|
                            tile.in_bounds(a, b, c) ==> (match prior {
                                Some(pt) => pt.voxel_at(a, b, c),
                                None => None,
                            }) == #[trigger] t0.voxel_at(a, b, c),
                        t0.size == TILE_SIZE,
                        forall|a: int, b: int, c: int|
                            tile.in_bounds(a, b, c) ==> #[trigger] tile.voxel_at(a, b, c) == (
                            if vox_scanned(a, b, c, y as int, x as int, 0) {
                                compiled_voxel(sdf, position, key, prior, a, b, c)
                            } else {
                                t0.voxel_at(a, b, c)
                            }),
                    decreases size - x,
                {
                    let mut z: usize = 0;
                    while z < size
                        invariant
                            sdf.shape_wf(),
                            -FX_BOUND / 2 <= position.x <= FX_BOUND / 2,
                            -FX_BOUND / 2 <= position.y <= FX_BOUND / 2,
                            -FX_BOUND / 2 <= position.z <= FX_BOUND / 2,
                            color == sdf.color_spec(),
                            key_wf(key),
                            size == TILE_SIZE,
                            y < size,
                            x < size,
                            z <= size,
                            tile.size == TILE_SIZE,
                            tile.grid_wf(),
                            forall|a: int, b: int, c: int|
                                tile.in_bounds(a, b, c) ==> (match prior {
                                    Some(pt) => pt.voxel_at(a, b, c),
                                    None => None,
                                }) == #[trigger] t0.voxel_at(a, b, c),
                            t0.size == TILE_SIZE,
                            forall|a: int, b: int, c: int|
                                tile.in_bounds(a, b, c) ==> #[trigger] tile.voxel_at(a, b, c) == (
                                if vox_scanned(a, b, c, y as int, x as int, z as int) {
                                    compiled_voxel(sdf, position, key, prior, a, b, c)
                                } else {
                                    t0.voxel_at(a, b, c)
                                }),
                        decreases size - z,
                    {
                        let lv = Vec3i { x: x as i32, y: y as i32, z: z as i32 };
                        let pos = self.to_world_coord(key, lv);
                        let d = sdf.distance(pos, position);
                        if d < 0 {
                            tile.set_voxel(x, y, z, Some((color, 10)));
                        }
                        proof {
                            assert(pos == world_coord_spec(key, lv));
                            assert((d < 0) == sdf.occupies(
                                world_coord_spec(key, lv),
                                position,
                            ));
                            assert forall|a: int, b: int, c: int|
                                tile.in_bounds(a, b, c) implies #[trigger] tile.voxel_at(a, b, c)
                                == (if vox_scanned(a, b, c, y as int, x as int, z as int + 1) {
                                compiled_voxel(sdf, position, key, prior, a, b, c)
                            } else {
                                t0.voxel_at(a, b, c)
                            }) by {
                                if a == x && b == y && c == z {
                                    assert(lv.x as int == a && lv.y as int == b && lv.z as int
                                        == c);
                                } else {
                                    assert(!(a == x && b == y && c == z));
                                }
                            }
                        }
                        z = z + 1;
                    }
                    proof {
                        assert forall|a: int, b: int, c: int| tile.in_bounds(a, b, c) implies (
                        vox_scanned(a, b, c, y as int, x as int + 1, 0) == vox_scanned(
                            a,
                            b,
                            c,
                            y as int,
                            x as int,
                            size as int,
                        )) by {}
                    }
                    x = x + 1;
                }
                proof {
                    assert forall|a: int, b: int, c: int| tile.in_bounds(a, b, c) implies (
                    vox_scanned(a, b, c, y as int + 1, 0, 0) == vox_scanned(
                        a,
                        b,
                        c,
                        y as int,
                        size as int,
                        0,
                    )) by {}
                }
                y = y + 1;
            }
            let ghost pre_store = self.map;
            self.set_tile(key, tile);
            proof {
                let stored = self.map.tile_at_key(key);
                assert(stored.data@ == tile.data@ && stored.size == tile.size);
                assert forall|a: int, b: int, c: int| stored.in_bounds(a, b, c) implies #[trigger]
                stored.voxel_at(a, b, c) == compiled_voxel(sdf, position, key, prior, a, b, c) by {
                    assert(stored.voxel_at(a, b, c) == tile.voxel_at(a, b, c));
                    assert(vox_scanned(a, b, c, size as int, 0, 0));
                }
                assert(voxelized(stored, sdf, position, key, prior));
                assert forall|k: Vec3i| #[trigger]
                    self.map.contains_key(k) <==> mid.contains_key(k) by {
                    if k == key {
                        assert(mid.contains_key(key));
                    }
                }
                assert forall|j: int| 0 <= j < i + 1 implies voxelized(
                    self.map.tile_at_key(#[trigger] keys@[j]),
                    sdf,
                    position,
                    keys@[j],
                    prior_of(old(self).map, keys@[j]),
                ) by {
                    if j < i {
                        assert(keys@[j] != keys@[i as int]);
                        assert(self.map.tile_at_key(keys@[j]) == pre_store.tile_at_key(keys@[j]));
                    }
                }
                assert forall|j: int| i + 1 <= j < keys@.len() implies #[trigger] self
                    .map.tile_at_key(keys@[j]) == mid.tile_at_key(keys@[j]) by {
                    assert(keys@[j] != keys@[i as int]);
                }
                assert forall|k: Vec3i|
                    !crate::map::covers(bb, k) && old(self).map.contains_key(k) implies #[trigger]
                self.map.tile_at_key(k) == old(self).map.tile_at_key(k) by {
                    assert(k != key);
                }
            }
            i = i + 1;
        }
        let ghost done = self.map;
        self.map.build_aabb();
        proof {
            assert(self.map.tiles@ == done.tiles@);
            assert forall|k: Vec3i| #[trigger]
                self.map.contains_key(k) <==> done.contains_key(k) by {}
            assert forall|k: Vec3i| done.contains_key(k) implies #[trigger] self.map.tile_at_key(k)
                == done.tile_at_key(k) by {
                let j = choose|j: int|
                    0 <= j < done.tiles@.len() && (#[trigger] done.tiles@[j].0) == k;
                crate::map::lemma_tile_at(done, j, k);
                crate::map::lemma_tile_at(self.map, j, k);
            }
            assert forall|k: Vec3i| #[trigger]
                crate::map::covers(bb, k) implies voxelized(
                self.map.tile_at_key(k),
                sdf,
                position,
                k,
                prior_of(old(self).map, k),
            ) by {
                assert(keys@.contains(k));
                let j = choose|j: int| 0 <= j < keys@.len() && keys@[j] == k;
                assert(voxelized(
                    self.map.tile_at_key(keys@[j]),
                    sdf,
                    position,
                    keys@[j],
                    prior_of(old(self).map, keys@[j]),
                ));
            }
        }
    }

    /// March the ray over tile coordinates, twenty tiles at most; at each
    /// existing tile, hand a tile-local ray to the tile's own traversal,
    /// and return the first tile-level hit rescaled to world coordinates.
    pub fn traverse(&self, ray: &Ray) -> (r: Option<HitRecord>)
        requires
            self.wf(),
            ray.wf(),
        ensures
            (r is Some) <==> (traverse_spec(self.map, *ray) is Some),
            r matches Some(h) ==> world_hit_matches(
                self.map,
                *ray,
                traverse_spec(self.map, *ray).unwrap(),
                h,
            ),
            self.map.is_empty_map() ==> r is None,
    {
        let ghost full = traverse_spec(self.map, *ray);
        let mut cx: i64 = crate::fx::fx_floor(ray.o.x);
        let mut cy: i64 = crate::fx::fx_floor(ray.o.y);
        let mut cz: i64 = crate::fx::fx_floor(ray.o.z);
        let mut dn: i64 = 0;
        let mut dd: i64 = 1;
        let max_steps: usize = 20;
        let mut ii: usize = 0;
        let mut result: Option<HitRecord> = None;
        proof {
            assert(full == world_march(
                self.map,
                *ray,
                cx as int,
                cy as int,
                cz as int,
                0,
                1,
                19,
            ));
            if self.map.is_empty_map() {
                lemma_empty_world_march(self.map, *ray, cx as int, cy as int, cz as int, 0, 1, 19);
            }
        }
        while ii < max_steps && result.is_none()
            invariant
                self.wf(),
                ray.wf(),
                max_steps == 20,
                ii <= max_steps,
                1 <= dd <= FX_BOUND,
                0 <= dn <= 3 * FX_BOUND,
                -UNIT_BOUND - ii <= cx <= UNIT_BOUND + ii,
                -UNIT_BOUND - ii <= cy <= UNIT_BOUND + ii,
                -UNIT_BOUND - ii <= cz <= UNIT_BOUND + ii,
                ray.d.x > 0 ==> (cx + 1) * FX_ONE - ray.o.x >= 0,
                ray.d.x < 0 ==> ray.o.x - cx * FX_ONE >= 0,
                ray.d.y > 0 ==> (cy + 1) * FX_ONE - ray.o.y >= 0,
                ray.d.y < 0 ==> ray.o.y - cy * FX_ONE >= 0,
                ray.d.z > 0 ==> (cz + 1) * FX_ONE - ray.o.z >= 0,
                ray.d.z < 0 ==> ray.o.z - cz * FX_ONE >= 0,
                result is None && ii < max_steps ==> world_march(
                    self.map,
                    *ray,
                    cx as int,
                    cy as int,
                    cz as int,
                    dn as int,
                    dd as int,
                    (max_steps - 1 - ii) as nat,
                ) == full,
                result is None && ii == max_steps ==> full is None,
                result matches Some(h) ==> (full is Some && world_hit_matches(
                    self.map,
                    *ray,
                    full.unwrap(),
                    h,
                )),
            decreases max_steps - ii, (if result is Some {
                0int
            } else {
                1int
            }),
        {
            let key = Vec3i { x: cx as i32, y: cy as i32, z: cz as i32 };
            let dist = crate::fx::frac_to_fx_exec(dn, dd);
            let mut tile_hit: Option<HitRecord> = None;
            let ghost lray_g = local_ray_spec(
                *ray,
                cx as int,
                cy as int,
                cz as int,
                dn as int,
                dd as int,
            );
            match self.map.find_tile(key) {
                Some(ti) => {
                    proof {
                        crate::map::lemma_tile_at(self.map, ti as int, key);
                    }
                    let px = ray.o.x + crate::fx::fx_mul_sat(ray.d.x, dist);
                    let py = ray.o.y + crate::fx::fx_mul_sat(ray.d.y, dist);
                    let pz = ray.o.z + crate::fx::fx_mul_sat(ray.d.z, dist);
                    let lro = Vec3fx {
                        x: local_axis_exec(px, cx, ray.d.x),
                        y: local_axis_exec(py, cy, ray.d.y),
                        z: local_axis_exec(pz, cz, ray.d.z),
                    };
                    let lray = crate::misc::Ray::new(lro, ray.d);
                    proof {
                        assert(lray == lray_g);
                    }
                    let (_, ref tile) = self.map.tiles[ti];
                    tile_hit = tile.dda(&lray);
                },
                None => {
                },
            }
            if tile_hit.is_some() {
                let mut h = tile_hit.unwrap();
                let ghost th = crate::tile::dda_spec(self.map.tile_at_key(key), lray_g).unwrap();
                h.key = key;
                let local50: i64 = ((h.distance as u64) / (TILE_SIZE as u64)) as i64;
                let total = dist + local50;
                h.hitpoint = Vec3fx {
                    x: ray.o.x + crate::fx::fx_mul_sat(ray.d.x, total),
                    y: ray.o.y + crate::fx::fx_mul_sat(ray.d.y, total),
                    z: ray.o.z + crate::fx::fx_mul_sat(ray.d.z, total),
                };
                h.distance = total;
                proof {
                    assert(full == Some(
                        (cx as int, cy as int, cz as int, dn as int, dd as int, th),
                    ));
                    assert(world_hit_matches(self.map, *ray, full.unwrap(), h));
                }
                result = Some(h);
            } else {
                if ray.d.x == 0 && ray.d.y == 0 && ray.d.z == 0 {
                    proof {
                        assert(full is None);
                    }
                    ii = max_steps;
                } else {
                    let (sx, sy, sz, mn, md) = crate::tile::march_step(ray, cx, cy, cz);
                    cx = cx + sx;
                    cy = cy + sy;
                    cz = cz + sz;
                    dn = mn;
                    dd = md;
                    ii = ii + 1;
                }
            }
        }
        result
    }

    /// The color of one sample of the scene along a primary ray.
    pub fn render_sample(&self, context: &RenderContext, ray: &Ray) -> (r: (i64, i64, i64, i64))
        requires
            self.wf(),
            context.wf(),
            ray.wf(),
        ensures
            (r.0 as int, r.1 as int, r.2 as int, r.3 as int) == sample_spec(
                self.map,
                context.palette@,
                context.render_state,
                *ray,
            ),
            0 <= r.0 <= FX_ONE,
            0 <= r.1 <= FX_ONE,
            0 <= r.2 <= FX_ONE,
            0 <= r.3 <= FX_ONE,
    {
        let mut hit_color: Option<(i64, i64, i64, i64)> = None;
        match self.map.aabb {
            Some(bb) => {
                if self.map.ray_aabb(ray, &bb) && !context.render_state {
                    match self.traverse(ray) {
                        Some(h) => {
                            let idx = h.value.0;
                            if (idx as usize) < context.palette.len() {
                                hit_color = Some(context.palette[idx as usize]);
                            } else {
                                hit_color = Some((0, 0, 0, FX_ONE));
                            }
                        },
                        None => {
                        },
                    }
                }
            },
            None => {
            },
        }
        match hit_color {
            Some(c) => c,
            None => ground_sample(ray),
        }
    }

    /// Progressively render one frame into the buffer: every pixel casts
    /// one primary ray under the selected projection, jittered inside the
    /// pixel by two fresh draws, and blends the sample that `sample_spec`
    /// fixes for that ray into the running average with weight one part in
    /// `iteration + 1`. At iteration zero the prior content is exactly
    /// overwritten by this call's samples. Only the jitter pair is left
    /// existential: it is drawn fresh on every call.
    #[verifier::rlimit(100)]
    pub fn render(&self, buffer: &mut ColorBuffer, context: &RenderContext, iteration: i32)
        requires
            self.wf(),
            context.wf(),
            old(buffer).wf(),
            0 <= iteration,
        ensures
            final(buffer).wf(),
            final(buffer).width == old(buffer).width,
            final(buffer).height == old(buffer).height,
            forall|px: int, py: int|
                0 <= px < final(buffer).width && 0 <= py < final(buffer).height
                    ==> #[trigger] pixel_sampled(
                    *self,
                    *context,
                    final(buffer).pixels@,
                    old(buffer).pixels@,
                    px,
                    py,
                    final(buffer).width as int,
                    final(buffer).height as int,
                    iteration as int,
                ),
            forall|i: int|
                0 <= i < final(buffer).pixels@.len() ==> #[trigger] pixel_blended(
                    final(buffer).pixels@,
                    old(buffer).pixels@,
                    i,
                    iteration as int,
                ),
    {
        let width = buffer.width;
        let height = buffer.height;
        let ghost obuf = old(buffer).pixels@;
        let mut py: usize = 0;
        while py < height
            invariant
                self.wf(),
                context.wf(),
                buffer.wf(),
                0 <= iteration,
                buffer.width == width,
                buffer.height == height,
                1 <= width <= 8192,
                1 <= height <= 8192,
                obuf.len() == buffer.pixels@.len(),
                obuf == old(buffer).pixels@,
                py <= height,
                forall|i: int|
                    py * width * 4 <= i < buffer.pixels@.len() ==> #[trigger] buffer.pixels@[i]
                        == obuf[i],
                forall|i: int|
                    0 <= i < py * width * 4 ==> #[trigger] pixel_blended(
                        buffer.pixels@,
                        obuf,
                        i,
                        iteration as int,
                    ),
                forall|qx: int, qy: int|
                    0 <= qx < width && 0 <= qy < py ==> #[trigger] pixel_sampled(
                        *self,
                        *context,
                        buffer.pixels@,
                        obuf,
                        qx,
                        qy,
                        width as int,
                        height as int,
                        iteration as int,
                    ),
            decreases height - py,
        {
            let mut px: usize = 0;
            proof {
                assert(py * width * 4 == (py * width) * 4) by (nonlinear_arith);
            }
            while px < width
                invariant
                    self.wf(),
                    context.wf(),
                    buffer.wf(),
                    0 <= iteration,
                    buffer.width == width,
                    buffer.height == height,
                    1 <= width <= 8192,
                    1 <= height <= 8192,
                    obuf.len() == buffer.pixels@.len(),
                    obuf == old(buffer).pixels@,
                    py < height,
                    px <= width,
                    forall|i: int|
                        (py * width + px) * 4 <= i < buffer.pixels@.len()
                            ==> #[trigger] buffer.pixels@[i] == obuf[i],
                    forall|i: int|
                        0 <= i < (py * width + px) * 4 ==> #[trigger] pixel_blended(
                            buffer.pixels@,
                            obuf,
                            i,
                            iteration as int,
                        ),
                    forall|qx: int, qy: int|
                        0 <= qx < width && 0 <= qy < py ==> #[trigger] pixel_sampled(
                            *self,
                            *context,
                            buffer.pixels@,
                            obuf,
                            qx,
                            qy,
                            width as int,
                            height as int,
                            iteration as int,
                        ),
                    forall|qx: int|
                        0 <= qx < px ==> #[trigger] pixel_sampled(
                            *self,
                            *context,
                            buffer.pixels@,
                            obuf,
                            qx,
                            py as int,
                            width as int,
                            height as int,
                            iteration as int,
                        ),
                decreases width - px,
            {
                proof {
                    assert(0 <= (px as int) * (FX_ONE as int) / (width as int) <= FX_ONE) by (
                    nonlinear_arith)
                        requires
                            0 <= px as int && (px as int) < width as int,
                            1 <= width as int,
                            FX_ONE == 100000,
                    ;
                    assert(0 <= ((py as int) + 1) * (FX_ONE as int) / (height as int) <= FX_ONE)
                        by (nonlinear_arith)
                        requires
                            0 <= py as int && (py as int) < height as int,
                            1 <= height as int,
                            FX_ONE == 100000,
                    ;
                }
                let ux = (((px as u64) * (FX_ONE as u64)) / (width as u64)) as i64;
                let uy = FX_ONE - ((((py as u64) + 1) * (FX_ONE as u64)) / (height as u64)) as i64;
                proof {
                    assert((ux, uy) == crate::camera::uv_spec(
                        px as int,
                        py as int,
                        width as int,
                        height as int,
                    ));
                }
                let jx = sample_jitter();
                let jy = sample_jitter();
                let ray = if context.iso_state {
                    self.camera.create_iso_ray((ux, uy), (width as i64, height as i64), (jx, jy))
                } else {
                    self.camera.create_ray((ux, uy), (width as i64, height as i64), (jx, jy))
                };
                proof {
                    assert(ray == mode_ray_spec(
                        self.camera,
                        context.iso_state,
                        (ux, uy),
                        (width as i64, height as i64),
                        (jx, jy),
                    ));
                }
                let old_p = buffer.get_pixel(px, py);
                let s = self.render_sample(context, &ray);
                let c = (
                    crate::buffer::blend_channel(old_p.0, s.0, iteration),
                    crate::buffer::blend_channel(old_p.1, s.1, iteration),
                    crate::buffer::blend_channel(old_p.2, s.2, iteration),
                    crate::buffer::blend_channel(old_p.3, s.3, iteration),
                );
                let ghost pre = buffer.pixels@;
                let ghost b = buffer.pix_of(px as int, py as int);
                buffer.set_pixel(px, py, c);
                proof {
                    assert(b == (py * width + px) * 4);
                    assert((py * width + px + 1) * 4 == (py * width + px) * 4 + 4) by (
                    nonlinear_arith);
                    lemma_render_blend_step(
                        buffer.pixels@,
                        pre,
                        obuf,
                        b,
                        c,
                        s,
                        iteration as int,
                    );
                    assert(pixel_matches_jitter(
                        *self,
                        *context,
                        buffer.pixels@,
                        obuf,
                        px as int,
                        py as int,
                        width as int,
                        height as int,
                        iteration as int,
                        jx,
                        jy,
                    ));
                    assert(pixel_sampled(
                        *self,
                        *context,
                        buffer.pixels@,
                        obuf,
                        px as int,
                        py as int,
                        width as int,
                        height as int,
                        iteration as int,
                    ));
                    lemma_render_pixel_frame(
                        *self,
                        *context,
                        buffer.pixels@,
                        pre,
                        obuf,
                        px as int,
                        py as int,
                        width as int,
                        height as int,
                        iteration as int,
                        c,
                    );
                }
                px = px + 1;
            }
            proof {
                assert((py * width + width) * 4 == (py + 1) * width * 4) by (nonlinear_arith);
            }
            py = py + 1;
        }
        proof {
            assert(height * width * 4 == width * height * 4) by (nonlinear_arith);
        }
    }

    /// The single-ray pick query: the traversal hit, if any, along the
    /// primary ray through one pixel, with the jitter held at the pixel
    /// center.
    pub fn hit_at(&self, pos: (i64, i64), buffer: &ColorBuffer, iso_state: bool) -> (r: Option<
        HitRecord,
    >)
        requires
            self.wf(),
            buffer.wf(),
            0 <= pos.0 < buffer.width,
            0 <= pos.1 < buffer.height,
        ensures
            (r is Some) <==> (traverse_spec(
                self.map,
                pick_ray_spec(self.camera, iso_state, pos, buffer.width as int, buffer.height as int),
            ) is Some),
            r matches Some(h) ==> world_hit_matches(
                self.map,
                pick_ray_spec(self.camera, iso_state, pos, buffer.width as int, buffer.height as int),
                traverse_spec(
                    self.map,
                    pick_ray_spec(
                        self.camera,
                        iso_state,
                        pos,
                        buffer.width as int,
                        buffer.height as int,
                    ),
                ).unwrap(),
                h,
            ),
    {
        proof {
            assert(0 <= (pos.0 as int) * (FX_ONE as int) / (buffer.width as int) <= FX_ONE) by (
            nonlinear_arith)
                requires
                    0 <= pos.0 as int && (pos.0 as int) < buffer.width as int,
                    1 <= buffer.width as int,
                    FX_ONE == 100000,
            ;
            assert(0 <= ((pos.1 as int) + 1) * (FX_ONE as int) / (buffer.height as int) <= FX_ONE)
                by (nonlinear_arith)
                requires
                    0 <= pos.1 as int && (pos.1 as int) < buffer.height as int,
                    1 <= buffer.height as int,
                    FX_ONE == 100000,
            ;
        }
        let ux = (((pos.0 as u64) * (FX_ONE as u64)) / (buffer.width as u64)) as i64;
        let uy = FX_ONE - ((((pos.1 as u64) + 1) * (FX_ONE as u64)) / (buffer.height as u64)) as i64;
        let ray = if iso_state {
            self.camera.create_iso_ray(
                (ux, uy),
                (buffer.width as i64, buffer.height as i64),
                (crate::misc::FX_HALF, crate::misc::FX_HALF),
            )
        } else {
            self.camera.create_orbit_ray(
                (ux, uy),
                (buffer.width as i64, buffer.height as i64),
                (crate::misc::FX_HALF, crate::misc::FX_HALF),
            )
        };
        self.traverse(&ray)
    }

    /// Relies on std::time::SystemTime: the milliseconds since the epoch,
    /// or zero if the clock reads before it; nothing is promised of the
    /// clock's value.
    #[verifier::external_body]
    pub fn get_time(&self) -> u128 {
        match std::time::SystemTime::now().duration_since(std::time::UNIX_EPOCH) {
            Ok(d) => d.as_millis(),
            Err(_) => 0,
        }
    }

    /// The tile key and tile-local voxel coordinate that contain a world
    /// position: the floor in whole units, and the fractional part in
    /// voxel widths.
    pub fn to_tile_coord(&self, wc: Vec3fx) -> (r: (Vec3i, Vec3i))
        requires
            wc.wf(),
        ensures
            r.0.x as int == crate::map::floor_units(wc.x),
            r.0.y as int == crate::map::floor_units(wc.y),
            r.0.z as int == crate::map::floor_units(wc.z),
            r.1.x as int == fx_frac_spec(wc.x as int) / (FX_VOXEL as int),
            r.1.y as int == fx_frac_spec(wc.y as int) / (FX_VOXEL as int),
            r.1.z as int == fx_frac_spec(wc.z as int) / (FX_VOXEL as int),
            tile_coord_wf(r.1),
    {
        let kx = crate::fx::fx_floor(wc.x);
        let ky = crate::fx::fx_floor(wc.y);
        let kz = crate::fx::fx_floor(wc.z);
        let tx = ((crate::fx::fx_frac(wc.x) as u64) / (FX_VOXEL as u64)) as i64;
        let ty = ((crate::fx::fx_frac(wc.y) as u64) / (FX_VOXEL as u64)) as i64;
        let tz = ((crate::fx::fx_frac(wc.z) as u64) / (FX_VOXEL as u64)) as i64;
        proof {
            lemma_frac_to_voxel(wc.x as int);
            lemma_frac_to_voxel(wc.y as int);
            lemma_frac_to_voxel(wc.z as int);
        }
        (
            Vec3i { x: kx as i32, y: ky as i32, z: kz as i32 },
            Vec3i { x: tx as i32, y: ty as i32, z: tz as i32 },
        )
    }
}

/// Backward nudge, in fixed-point steps, applied to a tile-local ray
/// origin to avoid self-intersection at the tile boundary: a hundredth of
/// a unit.
pub const EPS_NUDGE: i64 = 1000;

/// One axis of a tile-local ray origin: the world point relative to the
/// tile key, scaled to voxel coordinates, nudged backward along the
/// direction; saturated at the coordinate budget.
pub open spec fn local_axis(p: int, c: int, d: int) -> int {
    crate::fx::sat_fx(
        (p - c * (FX_ONE as int)) * (TILE_SIZE as int) - crate::fx::fx_mul_spec(
            d,
            EPS_NUDGE as int,
        ),
    )
}

/// The ray handed to a tile at the given cell and chunk-entry distance:
/// the same direction, from the local origin.
pub open spec fn local_ray_spec(ray: Ray, cx: int, cy: int, cz: int, dn: int, dd: int) -> Ray {
    let dist = crate::fx::frac_to_fx(dn, dd);
    let px = ray.o.x + crate::fx::sat_fx(crate::fx::fx_mul_spec(ray.d.x as int, dist));
    let py = ray.o.y + crate::fx::sat_fx(crate::fx::fx_mul_spec(ray.d.y as int, dist));
    let pz = ray.o.z + crate::fx::sat_fx(crate::fx::fx_mul_spec(ray.d.z as int, dist));
    Ray {
        o: Vec3fx {
            x: local_axis(px, cx, ray.d.x as int) as i64,
            y: local_axis(py, cy, ray.d.y as int) as i64,
            z: local_axis(pz, cz, ray.d.z as int) as i64,
        },
        d: ray.d,
        inv_direction: ray.inv_direction,
        sign_x: ray.sign_x,
        sign_y: ray.sign_y,
        sign_z: ray.sign_z,
    }
}

/// The bounded march over tile coordinates: at each visited cell where a
/// tile exists, delegate to the tile's own traversal on the local ray; the
/// first tile-level hit wins, and the step budget bounds the walk.
pub open spec fn world_march(
    m: WorldMap,
    ray: Ray,
    cx: int,
    cy: int,
    cz: int,
    dn: int,
    dd: int,
    fuel: nat,
) -> Option<(int, int, int, int, int, (int, int, int, int, int, int, int, int))>
    decreases fuel,
{
    let key = Vec3i { x: cx as i32, y: cy as i32, z: cz as i32 };
    let here = if m.contains_key(key) {
        crate::tile::dda_spec(m.tile_at_key(key), local_ray_spec(ray, cx, cy, cz, dn, dd))
    } else {
        None
    };
    if here is Some {
        Some((cx, cy, cz, dn, dd, here.unwrap()))
    } else if fuel == 0 || (ray.d.x == 0 && ray.d.y == 0 && ray.d.z == 0) {
        None
    } else {
        let mfr = crate::tile::min_frac(ray.o, ray.d, cx, cy, cz);
        let sx = crate::tile::step_of(ray.o.x as int, ray.d.x as int, cx, mfr.0, mfr.1);
        let sy = crate::tile::step_of(ray.o.y as int, ray.d.y as int, cy, mfr.0, mfr.1);
        let sz = crate::tile::step_of(ray.o.z as int, ray.d.z as int, cz, mfr.0, mfr.1);
        world_march(m, ray, cx + sx, cy + sy, cz + sz, mfr.0, mfr.1, (fuel - 1) as nat)
    }
}

/// What the world traversal yields: the march from the origin's tile cell
/// with the fixed step budget of twenty tiles.
pub open spec fn traverse_spec(m: WorldMap, ray: Ray) -> Option<
    (int, int, int, int, int, (int, int, int, int, int, int, int, int)),
> {
    world_march(
        m,
        ray,
        (ray.o.x as int) / (FX_ONE as int),
        (ray.o.y as int) / (FX_ONE as int),
        (ray.o.z as int) / (FX_ONE as int),
        0,
        1,
        19,
    )
}

/// How a returned hit record reflects a world-march result: the tile key
/// and the tile-level cell, payload and normal, the combined world
/// distance (the chunk-entry distance plus the tile-local distance scaled
/// back to world units), and the hit point on the ray at that distance.
pub open spec fn world_hit_matches(
    m: WorldMap,
    ray: Ray,
    w: (int, int, int, int, int, (int, int, int, int, int, int, int, int)),
    h: HitRecord,
) -> bool {
    let key = Vec3i { x: w.0 as i32, y: w.1 as i32, z: w.2 as i32 };
    let th = w.5;
    let t = m.tile_at_key(key);
    let dist = crate::fx::frac_to_fx(w.3, w.4);
    let total = dist + crate::fx::frac_to_fx(th.3, th.4) / (TILE_SIZE as int);
    &&& h.key == key
    &&& h.tile_key.x as int == th.0 && h.tile_key.y as int == th.1 && h.tile_key.z as int == th.2
    &&& Some(h.value) == t.voxel_at(th.0, th.1, th.2)
    &&& h.normal.x as int == th.5 * FX_ONE && h.normal.y as int == th.6 * FX_ONE
        && h.normal.z as int == th.7 * FX_ONE
    &&& h.distance as int == total
    &&& h.hitpoint.x as int == ray.o.x + crate::fx::sat_fx(
        crate::fx::fx_mul_spec(ray.d.x as int, total),
    )
    &&& h.hitpoint.y as int == ray.o.y + crate::fx::sat_fx(
        crate::fx::fx_mul_spec(ray.d.y as int, total),
    )
    &&& h.hitpoint.z as int == ray.o.z + crate::fx::sat_fx(
        crate::fx::fx_mul_spec(ray.d.z as int, total),
    )
    &&& h.side == crate::misc::Side::Top
}

/// Threshold below which a direction component counts as parallel to the
/// ground plane: a ten-thousandth of a unit.
pub const GROUND_EPS: i64 = 10;

/// The darker ground check tile.
pub const GROUND_DARK: i64 = 10000;

/// The lighter ground check tile.
pub const GROUND_LIGHT: i64 = 15000;

/// The shade of the procedural ground: where the ray meets the plane at
/// height zero, two grays alternate by the parity of the cell it lands
/// in; a ray missing the plane shades black.
pub open spec fn ground_color_spec(ray: Ray) -> (int, int, int, int) {
    if crate::fx::iabs(ray.d.y as int) > GROUND_EPS {
        let t = crate::fx::sat_fx((-ray.o.y * FX_ONE) / (ray.d.y as int));
        if t >= 0 {
            let phx = ray.o.x + crate::fx::sat_fx(crate::fx::fx_mul_spec(ray.d.x as int, t));
            let phz = ray.o.z + crate::fx::sat_fx(crate::fx::fx_mul_spec(ray.d.z as int, t));
            let zp = crate::fx::iabs(phz / (FX_ONE as int)) % 2;
            let xp = crate::fx::iabs(phx / (FX_ONE as int)) % 2;
            if (zp == 0 && xp == 0) || (zp != 0 && xp == 1) {
                (GROUND_DARK as int, GROUND_DARK as int, GROUND_DARK as int, 50000int)
            } else {
                (GROUND_LIGHT as int, GROUND_LIGHT as int, GROUND_LIGHT as int, 50000int)
            }
        } else {
            (0int, 0int, 0int, FX_ONE as int)
        }
    } else {
        (0int, 0int, 0int, FX_ONE as int)
    }
}

/// The color of one scene sample: on a traversal hit, the palette color of
/// the hit voxel (black past the palette's end); on a miss, or when the
/// world box rejects the ray or the reserved shading path is selected, the
/// ground shade.
pub open spec fn sample_spec(
    m: WorldMap,
    palette: Seq<(i64, i64, i64, i64)>,
    render_state: bool,
    ray: Ray,
) -> (int, int, int, int) {
    let gate = (m.aabb matches Some(bb) && crate::misc::slab_pass(ray, bb)) && !render_state;
    if gate && traverse_spec(m, ray) is Some {
        let w = traverse_spec(m, ray).unwrap();
        let key = Vec3i { x: w.0 as i32, y: w.1 as i32, z: w.2 as i32 };
        let idx = m.tile_at_key(key).voxel_at(w.5.0, w.5.1, w.5.2).unwrap().0;
        if idx < palette.len() {
            let c = palette[idx as int];
            (c.0 as int, c.1 as int, c.2 as int, c.3 as int)
        } else {
            (0int, 0int, 0int, FX_ONE as int)
        }
    } else {
        ground_color_spec(ray)
    }
}

/// One buffer channel carries a blended sample: some color value within
/// one unit was averaged into the prior channel value with the iteration's
/// weight.
pub open spec fn pixel_blended(cur: Seq<i64>, orig: Seq<i64>, i: int, iteration: int) -> bool {
    exists|s: int|
        0 <= s <= FX_ONE && cur[i] as int == crate::buffer::blend_channel_spec(
            orig[i] as int,
            s,
            iteration,
        )
}

/// One pixel carries this call's scene sample under a given jitter pair:
/// all four of its channels blend the prior values with the components of
/// the color that `sample_spec` fixes for the pixel's jittered primary ray
/// under the selected projection.
pub open spec fn pixel_matches_jitter(
    w: World,
    ctx: RenderContext,
    cur: Seq<i64>,
    orig: Seq<i64>,
    px: int,
    py: int,
    width: int,
    height: int,
    iteration: int,
    jx: i64,
    jy: i64,
) -> bool {
    let b = (py * width + px) * 4;
    let s = sample_spec(
        w.map,
        ctx.palette@,
        ctx.render_state,
        mode_ray_spec(
            w.camera,
            ctx.iso_state,
            crate::camera::uv_spec(px, py, width, height),
            (width as i64, height as i64),
            (jx, jy),
        ),
    );
    &&& cur[b] as int == crate::buffer::blend_channel_spec(orig[b] as int, s.0, iteration)
    &&& cur[b + 1] as int == crate::buffer::blend_channel_spec(orig[b + 1] as int, s.1, iteration)
    &&& cur[b + 2] as int == crate::buffer::blend_channel_spec(orig[b + 2] as int, s.2, iteration)
    &&& cur[b + 3] as int == crate::buffer::blend_channel_spec(orig[b + 3] as int, s.3, iteration)
}

/// One pixel carries this call's scene sample for some jitter within one
/// unit. At iteration zero the blend weight is one, so the pixel then
/// equals that sample exactly, whatever the buffer held before.
pub open spec fn pixel_sampled(
    w: World,
    ctx: RenderContext,
    cur: Seq<i64>,
    orig: Seq<i64>,
    px: int,
    py: int,
    width: int,
    height: int,
    iteration: int,
) -> bool {
    exists|jx: i64, jy: i64|
        0 <= jx <= FX_ONE && 0 <= jy <= FX_ONE && #[trigger] pixel_matches_jitter(
            w,
            ctx,
            cur,
            orig,
            px,
            py,
            width,
            height,
            iteration,
            jx,
            jy,
        )
}


/// After one pixel write, every channel up to and including the written
/// pixel carries a blended sample.
proof fn lemma_render_blend_step(
    cur: Seq<i64>,
    pre: Seq<i64>,
    orig: Seq<i64>,
    b: int,
    c: (i64, i64, i64, i64),
    s: (i64, i64, i64, i64),
    iteration: int,
)
    requires
        0 <= b,
        b + 4 <= pre.len(),
        orig.len() == pre.len(),
        cur == pre.update(b, c.0).update(b + 1, c.1).update(b + 2, c.2).update(b + 3, c.3),
        forall|i: int| 0 <= i < b ==> #[trigger] pixel_blended(pre, orig, i, iteration),
        pre[b] == orig[b],
        pre[b + 1] == orig[b + 1],
        pre[b + 2] == orig[b + 2],
        pre[b + 3] == orig[b + 3],
        0 <= s.0 <= FX_ONE,
        0 <= s.1 <= FX_ONE,
        0 <= s.2 <= FX_ONE,
        0 <= s.3 <= FX_ONE,
        c.0 as int == crate::buffer::blend_channel_spec(orig[b] as int, s.0 as int, iteration),
        c.1 as int == crate::buffer::blend_channel_spec(orig[b + 1] as int, s.1 as int, iteration),
        c.2 as int == crate::buffer::blend_channel_spec(orig[b + 2] as int, s.2 as int, iteration),
        c.3 as int == crate::buffer::blend_channel_spec(orig[b + 3] as int, s.3 as int, iteration),
    ensures
        forall|i: int| 0 <= i < b + 4 ==> #[trigger] pixel_blended(cur, orig, i, iteration),
{
    assert forall|i: int| 0 <= i < b + 4 implies #[trigger] pixel_blended(
        cur,
        orig,
        i,
        iteration,
    ) by {
        if i < b {
            assert(cur[i] == pre[i]);
            assert(pixel_blended(pre, orig, i, iteration));
            let s3 = choose|s3: int|
                0 <= s3 <= FX_ONE && pre[i] as int == crate::buffer::blend_channel_spec(
                    orig[i] as int,
                    s3,
                    iteration,
                );
            assert(0 <= s3 <= FX_ONE && cur[i] as int == crate::buffer::blend_channel_spec(
                orig[i] as int,
                s3,
                iteration,
            ));
        } else {
            let sv: int = if i == b {
                assert(cur[i] == c.0);
                s.0 as int
            } else if i == b + 1 {
                assert(cur[i] == c.1);
                s.1 as int
            } else if i == b + 2 {
                assert(cur[i] == c.2);
                s.2 as int
            } else {
                assert(cur[i] == c.3);
                s.3 as int
            };
            assert(0 <= sv <= FX_ONE && cur[i] as int == crate::buffer::blend_channel_spec(
                orig[i] as int,
                sv,
                iteration,
            ));
        }
    }
}

/// Writing one pixel's four channels leaves every earlier pixel's sample
/// claim standing.
proof fn lemma_render_pixel_frame(
    w: World,
    ctx: RenderContext,
    cur: Seq<i64>,
    pre: Seq<i64>,
    orig: Seq<i64>,
    px: int,
    py: int,
    width: int,
    height: int,
    iteration: int,
    c: (i64, i64, i64, i64),
)
    requires
        1 <= width <= 8192,
        1 <= height <= 8192,
        0 <= px < width,
        0 <= py < height,
        pre.len() == width * height * 4,
        orig.len() == pre.len(),
        cur == pre.update((py * width + px) * 4, c.0).update((py * width + px) * 4 + 1, c.1).update(
            (py * width + px) * 4 + 2,
            c.2,
        ).update((py * width + px) * 4 + 3, c.3),
        forall|qx: int, qy: int|
            0 <= qx < width && 0 <= qy < py ==> #[trigger] pixel_sampled(
                w,
                ctx,
                pre,
                orig,
                qx,
                qy,
                width,
                height,
                iteration,
            ),
        forall|qx: int|
            0 <= qx < px ==> #[trigger] pixel_sampled(
                w,
                ctx,
                pre,
                orig,
                qx,
                py,
                width,
                height,
                iteration,
            ),
    ensures
        forall|qx: int, qy: int|
            0 <= qx < width && (0 <= qy < py || (qy == py && 0 <= qx < px))
                ==> #[trigger] pixel_sampled(w, ctx, cur, orig, qx, qy, width, height, iteration),
{
    let b = (py * width + px) * 4;
    crate::tile::lemma_pix_distinct(px, py, px, py, width, height);
    assert(0 <= b && b + 4 <= pre.len());
    assert forall|qx: int, qy: int|
        0 <= qx < width && (0 <= qy < py || (qy == py && 0 <= qx < px)) implies #[trigger] pixel_sampled(
        w,
        ctx,
        cur,
        orig,
        qx,
        qy,
        width,
        height,
        iteration,
    ) by {
        crate::tile::lemma_pix_distinct(qx, qy, px, py, width, height);
        assert(pixel_sampled(w, ctx, pre, orig, qx, qy, width, height, iteration));
        let (jx2, jy2) = choose|jx2: i64, jy2: i64|
            0 <= jx2 <= FX_ONE && 0 <= jy2 <= FX_ONE && #[trigger] pixel_matches_jitter(
                w,
                ctx,
                pre,
                orig,
                qx,
                qy,
                width,
                height,
                iteration,
                jx2,
                jy2,
            );
        let b2 = (qy * width + qx) * 4;
        assert(0 <= b2 && b2 + 4 <= pre.len());
        assert(b2 + 4 <= b || b + 4 <= b2);
        assert(cur.len() == pre.len());
        if b2 + 4 <= b {
            assert(cur[b2] == pre[b2] && cur[b2 + 1] == pre[b2 + 1] && cur[b2 + 2] == pre[b2 + 2]
                && cur[b2 + 3] == pre[b2 + 3]);
        } else {
            assert(b + 4 <= b2);
            assert(cur[b2] == pre[b2] && cur[b2 + 1] == pre[b2 + 1] && cur[b2 + 2] == pre[b2 + 2]
                && cur[b2 + 3] == pre[b2 + 3]);
        }
        assert(pixel_matches_jitter(w, ctx, cur, orig, qx, qy, width, height, iteration, jx2, jy2));
    }
}

/// A ray assembled in specification: signs and reciprocals derived from
/// the direction, as `Ray::new` computes them.
pub open spec fn ray_of(o: Vec3fx, d: Vec3fx) -> Ray {
    Ray {
        o,
        d,
        inv_direction: Vec3fx {
            x: crate::misc::inv_of(d.x) as i64,
            y: crate::misc::inv_of(d.y) as i64,
            z: crate::misc::inv_of(d.z) as i64,
        },
        sign_x: (if d.x < 0 {
            1int
        } else {
            0int
        }) as usize,
        sign_y: (if d.y < 0 {
            1int
        } else {
            0int
        }) as usize,
        sign_z: (if d.z < 0 {
            1int
        } else {
            0int
        }) as usize,
    }
}

/// The primary ray of one pixel under the selected projection mode.
pub open spec fn mode_ray_spec(
    cam: Camera,
    iso: bool,
    uv: (i64, i64),
    screen: (i64, i64),
    off: (i64, i64),
) -> Ray {
    if iso {
        ray_of(cam.iso_origin_spec(uv, screen, off), cam.frame_spec().0)
    } else {
        ray_of(cam.origin, cam.ray_dir_spec(uv, screen, off))
    }
}

/// The primary ray of the pick query through one pixel: the perspective
/// or isometric ray with the jitter held at the pixel center.
pub open spec fn pick_ray_spec(cam: Camera, iso: bool, pos: (i64, i64), w: int, h: int) -> Ray {
    mode_ray_spec(
        cam,
        iso,
        crate::camera::uv_spec(pos.0 as int, pos.1 as int, w, h),
        (w as i64, h as i64),
        (crate::misc::FX_HALF, crate::misc::FX_HALF),
    )
}

/// The color of the procedural ground along a ray, computed.
fn ground_sample(ray: &Ray) -> (r: (i64, i64, i64, i64))
    requires
        ray.wf(),
    ensures
        (r.0 as int, r.1 as int, r.2 as int, r.3 as int) == ground_color_spec(*ray),
        0 <= r.0 <= FX_ONE,
        0 <= r.1 <= FX_ONE,
        0 <= r.2 <= FX_ONE,
        0 <= r.3 <= FX_ONE,
{
    let ady: i64 = if ray.d.y >= 0 {
        ray.d.y
    } else {
        -ray.d.y
    };
    if ady > GROUND_EPS {
        proof {
            crate::misc::lemma_i64_prod_in_i128(-(ray.o.y as int), FX_ONE as int);
        }
        let num: i128 = (-(ray.o.y as i128)) * (FX_ONE as i128);
        proof {
            assert(ray.d.y != 0);
            assert(-200000000000000000 <= num as int <= 200000000000000000) by (nonlinear_arith)
                requires
                    num as int == -(ray.o.y as int) * (FX_ONE as int),
                    -FX_BOUND <= ray.o.y as int <= FX_BOUND,
                    FX_ONE == 100000,
                    FX_BOUND == 1000000000000i64,
            ;
            assert(i128::MIN <= (num as int) / (ray.d.y as int) <= i128::MAX) by (nonlinear_arith)
                requires
                    ray.d.y as int != 0,
                    -200000000000000000 <= num as int <= 200000000000000000,
            ;
        }
        let tw: i128 = num.checked_div_euclid(ray.d.y as i128).unwrap();
        let t: i64 = if tw < -(FX_BOUND as i128) {
            -FX_BOUND
        } else if tw > FX_BOUND as i128 {
            FX_BOUND
        } else {
            tw as i64
        };
        if t >= 0 {
            let phx = ray.o.x + crate::fx::fx_mul_sat(ray.d.x, t);
            let phz = ray.o.z + crate::fx::fx_mul_sat(ray.d.z, t);
            let fx_ = phx.checked_div_euclid(FX_ONE).unwrap();
            let fz = phz.checked_div_euclid(FX_ONE).unwrap();
            let xp: i64 = (if fx_ >= 0 {
                fx_
            } else {
                -fx_
            }) % 2;
            let zp: i64 = (if fz >= 0 {
                fz
            } else {
                -fz
            }) % 2;
            if (zp == 0 && xp == 0) || (zp != 0 && xp == 1) {
                (GROUND_DARK, GROUND_DARK, GROUND_DARK, 50000)
            } else {
                (GROUND_LIGHT, GROUND_LIGHT, GROUND_LIGHT, 50000)
            }
        } else {
            (0, 0, 0, FX_ONE)
        }
    } else {
        (0, 0, 0, FX_ONE)
    }
}

/// Relies on rand::random_range: a sample from the given nonempty range;
/// nothing more is promised of it.
#[verifier::external_body]
fn sample_jitter() -> (r: i64)
    ensures
        0 <= r <= FX_ONE,
{
    rand::random_range(0i64..=FX_ONE)
}

/// One axis of the tile-local origin, computed wide then saturated.
fn local_axis_exec(p: i64, c: i64, d: i64) -> (r: i64)
    requires
        -2 * FX_BOUND <= p <= 2 * FX_BOUND,
        -UNIT_BOUND - 20 <= c <= UNIT_BOUND + 20,
        crate::fx::fx_wf(d),
    ensures
        r as int == local_axis(p as int, c as int, d as int),
        crate::fx::fx_wf(r),
{
    proof {
        crate::misc::lemma_i64_prod_in_i128(d as int, EPS_NUDGE as int);
    }
    let nudge: i128 = ((d as i128) * (EPS_NUDGE as i128)).checked_div_euclid(
        FX_ONE as i128,
    ).unwrap();
    proof {
        assert(nudge as int == crate::fx::fx_mul_spec(d as int, EPS_NUDGE as int));
        assert(-FX_BOUND <= nudge as int <= FX_BOUND) by (nonlinear_arith)
            requires
                nudge as int == (d as int) * (EPS_NUDGE as int) / (FX_ONE as int),
                -FX_BOUND <= d as int <= FX_BOUND,
                EPS_NUDGE == 1000,
                FX_ONE == 100000,
                FX_BOUND == 1000000000000i64,
        ;
    }
    let rel: i128 = (p as i128) - (c as i128) * (FX_ONE as i128);
    proof {
        assert(-4 * (FX_BOUND as int) <= rel as int <= 4 * (FX_BOUND as int));
    }
    let v: i128 = rel * 50 - nudge;
    proof {
        assert(rel * 50 == rel * (TILE_SIZE as int)) by (nonlinear_arith)
            requires
                TILE_SIZE == 50,
        ;
    }
    if v < -(FX_BOUND as i128) {
        -FX_BOUND
    } else if v > FX_BOUND as i128 {
        FX_BOUND
    } else {
        v as i64
    }
}

/// Law: against an empty map the march finds nothing, whatever the ray,
/// the starting cell, the entry distance or the budget.
pub proof fn lemma_empty_world_march(
    m: WorldMap,
    ray: Ray,
    cx: int,
    cy: int,
    cz: int,
    dn: int,
    dd: int,
    fuel: nat,
)
    requires
        m.is_empty_map(),
    ensures
        world_march(m, ray, cx, cy, cz, dn, dd, fuel) is None,
    decreases fuel,
{
    let key = Vec3i { x: cx as i32, y: cy as i32, z: cz as i32 };
    assert(!m.contains_key(key));
    if !(fuel == 0 || (ray.d.x == 0 && ray.d.y == 0 && ray.d.z == 0)) {
        let mfr = crate::tile::min_frac(ray.o, ray.d, cx, cy, cz);
        let sx = crate::tile::step_of(ray.o.x as int, ray.d.x as int, cx, mfr.0, mfr.1);
        let sy = crate::tile::step_of(ray.o.y as int, ray.d.y as int, cy, mfr.0, mfr.1);
        let sz = crate::tile::step_of(ray.o.z as int, ray.d.z as int, cz, mfr.0, mfr.1);
        lemma_empty_world_march(m, ray, cx + sx, cy + sy, cz + sz, mfr.0, mfr.1, (fuel - 1) as nat);
    }
}

/// The tile a key held before a compilation, when it held one.
pub open spec fn prior_of(m: WorldMap, k: Vec3i) -> Option<Tile> {
    if m.contains_key(k) {
        Some(m.tile_at_key(k))
    } else {
        None
    }
}

/// What a compiled tile shows at one cell: the shape's payload where the
/// shape occupies the cell's world position, else whatever was there.
pub open spec fn compiled_voxel(
    sdf: SDF3D,
    position: Vec3fx,
    k: Vec3i,
    prior: Option<Tile>,
    x: int,
    y: int,
    z: int,
) -> Option<(u8, u8)> {
    if sdf.occupies(
        world_coord_spec(k, Vec3i { x: x as i32, y: y as i32, z: z as i32 }),
        position,
    ) {
        Some((sdf.color_spec(), 10u8))
    } else {
        match prior {
            Some(pt) => pt.voxel_at(x, y, z),
            None => None,
        }
    }
}

/// A tile fully voxelized for a shape: cell by cell the compiled voxel,
/// with a sound grid and a tight box.
pub open spec fn voxelized(
    t: Tile,
    sdf: SDF3D,
    position: Vec3fx,
    k: Vec3i,
    prior: Option<Tile>,
) -> bool {
    &&& t.size == TILE_SIZE
    &&& t.grid_wf()
    &&& crate::tile::has_tight_aabb(t)
    &&& forall|x: int, y: int, z: int|
        t.in_bounds(x, y, z) ==> #[trigger] t.voxel_at(x, y, z) == compiled_voxel(
            sdf,
            position,
            k,
            prior,
            x,
            y,
            z,
        )
}

/// A cell is behind the voxel-scan counters (`y` outermost, then `x`,
/// then `z`).
pub open spec fn vox_scanned(x: int, y: int, z: int, cy: int, cx: int, cz: int) -> bool {
    y < cy || (y == cy && (x < cx || (x == cx && z < cz)))
}

/// A key covered by a box that sits inside the budget is itself in budget.
proof fn lemma_covers_key_wf(bb: crate::misc::AABB, k: Vec3i)
    requires
        crate::map::inner_box(bb),
        crate::map::covers(bb, k),
    ensures
        key_wf(k),
{
    assert((-FX_BOUND + FX_ONE) / (FX_ONE as int) == -UNIT_BOUND + 1) by (nonlinear_arith);
    assert((FX_BOUND - FX_ONE + FX_ONE - 1) / (FX_ONE as int) == UNIT_BOUND - 1) by (
    nonlinear_arith);
    assert(crate::map::floor_units(bb.min.x) >= (-FX_BOUND + FX_ONE) / (FX_ONE as int)) by (
    nonlinear_arith)
        requires
            bb.min.x >= -FX_BOUND + FX_ONE,
            FX_ONE == 100000,
    ;
    assert(crate::map::floor_units(bb.min.y) >= (-FX_BOUND + FX_ONE) / (FX_ONE as int)) by (
    nonlinear_arith)
        requires
            bb.min.y >= -FX_BOUND + FX_ONE,
            FX_ONE == 100000,
    ;
    assert(crate::map::floor_units(bb.min.z) >= (-FX_BOUND + FX_ONE) / (FX_ONE as int)) by (
    nonlinear_arith)
        requires
            bb.min.z >= -FX_BOUND + FX_ONE,
            FX_ONE == 100000,
    ;
    assert(crate::map::ceil_units(bb.max.x) <= (FX_BOUND - 1) / (FX_ONE as int)) by (
    nonlinear_arith)
        requires
            bb.max.x <= FX_BOUND - FX_ONE,
            FX_ONE == 100000,
    ;
    assert(crate::map::ceil_units(bb.max.y) <= (FX_BOUND - 1) / (FX_ONE as int)) by (
    nonlinear_arith)
        requires
            bb.max.y <= FX_BOUND - FX_ONE,
            FX_ONE == 100000,
    ;
    assert(crate::map::ceil_units(bb.max.z) <= (FX_BOUND - 1) / (FX_ONE as int)) by (
    nonlinear_arith)
        requires
            bb.max.z <= FX_BOUND - FX_ONE,
            FX_ONE == 100000,
    ;
    assert((FX_BOUND - 1) / (FX_ONE as int) == UNIT_BOUND - 1) by (nonlinear_arith);
}

/// A fractional part measured in voxel widths is a tile-local coordinate,
/// and exec truncating division agrees with the Euclidean quotient here.
proof fn lemma_frac_to_voxel(v: int)
    by (nonlinear_arith)
    ensures
        0 <= (v % (FX_ONE as int)) / (FX_VOXEL as int) < TILE_SIZE,
{
    assert(0 <= v % (FX_ONE as int) < FX_ONE);
}

/// Law: converting a tile key and local voxel coordinate to a world
/// position and back recovers exactly the key and the local coordinate.
pub proof fn lemma_world_coord_round_trip(key: Vec3i, tile_key: Vec3i)
    requires
        key_wf(key),
        tile_coord_wf(tile_key),
    ensures
        crate::map::floor_units(world_coord_spec(key, tile_key).x) == key.x as int,
        crate::map::floor_units(world_coord_spec(key, tile_key).y) == key.y as int,
        crate::map::floor_units(world_coord_spec(key, tile_key).z) == key.z as int,
        fx_frac_spec(world_coord_spec(key, tile_key).x as int) / (FX_VOXEL as int)
            == tile_key.x as int,
        fx_frac_spec(world_coord_spec(key, tile_key).y as int) / (FX_VOXEL as int)
            == tile_key.y as int,
        fx_frac_spec(world_coord_spec(key, tile_key).z as int) / (FX_VOXEL as int)
            == tile_key.z as int,
{
    lemma_round_trip_axis(key.x as int, tile_key.x as int);
    lemma_round_trip_axis(key.y as int, tile_key.y as int);
    lemma_round_trip_axis(key.z as int, tile_key.z as int);
}

/// One axis of the round trip: with the local part strictly inside one
/// unit, the floor gives back the key and the remainder the local part.
proof fn lemma_round_trip_axis(k: int, t: int)
    by (nonlinear_arith)
    requires
        -UNIT_BOUND < k < UNIT_BOUND,
        0 <= t < TILE_SIZE,
    ensures
        (k * FX_ONE + t * FX_VOXEL) / (FX_ONE as int) == k,
        ((k * FX_ONE + t * FX_VOXEL) % (FX_ONE as int)) / (FX_VOXEL as int) == t,
{
    assert(0 <= t * FX_VOXEL < FX_ONE);
}

/// Overwriting the entry at an existing key's index keeps the map sound and
/// leaves every other key's tile as it was.
proof fn lemma_set_key(pre: WorldMap, post: WorldMap, i: int, k: Vec3i, t: Tile)
    requires
        pre.wf(),
        0 <= i < pre.tiles@.len(),
        pre.tiles@[i].0 == k,
        key_wf(k),
        t.grid_wf(),
        post.tiles@ == pre.tiles@.update(i, (k, t)),
    ensures
        post.wf(),
        post.contains_key(k),
        post.tile_at_key(k) == t,
        forall|kk: Vec3i| #[trigger] post.contains_key(kk) <==> pre.contains_key(kk),
        forall|kk: Vec3i|
            kk != k && pre.contains_key(kk) ==> #[trigger] post.tile_at_key(kk) == pre.tile_at_key(
                kk,
            ),
{
    assert forall|a: int, b: int| 0 <= a < b < post.tiles@.len() implies (
    #[trigger] post.tiles@[a].0) != (#[trigger] post.tiles@[b].0) by {
        assert(post.tiles@[a].0 == pre.tiles@[a].0 && post.tiles@[b].0 == pre.tiles@[b].0);
    }
    crate::map::lemma_tile_at(post, i, k);
    assert forall|kk: Vec3i| #[trigger] post.contains_key(kk) implies pre.contains_key(kk) by {
        let j = choose|j: int| 0 <= j < post.tiles@.len() && (#[trigger] post.tiles@[j].0) == kk;
        assert(pre.tiles@[j].0 == kk);
    }
    assert forall|kk: Vec3i| #[trigger] pre.contains_key(kk) implies post.contains_key(kk) by {
        let j = choose|j: int| 0 <= j < pre.tiles@.len() && (#[trigger] pre.tiles@[j].0) == kk;
        assert(post.tiles@[j].0 == kk);
    }
    assert forall|kk: Vec3i| kk != k && pre.contains_key(kk) implies #[trigger] post.tile_at_key(
        kk,
    ) == pre.tile_at_key(kk) by {
        let j = choose|j: int| 0 <= j < pre.tiles@.len() && (#[trigger] pre.tiles@[j].0) == kk;
        assert(j != i);
        crate::map::lemma_tile_at(pre, j, kk);
        crate::map::lemma_tile_at(post, j, kk);
    }
}

} // verus!
