use vstd::prelude::*;

verus! {

use crate::{FX_ONE, FX_BOUND, TILE_SIZE, UNIT_BOUND};
use crate::misc::{AABB, Ray};
use crate::tile::Tile;
use crate::vec3::{Vec3fx, Vec3i};

/// The sparse world store: tiles addressed by integer tile coordinate,
/// with the box over all existing tile cells. Keys are kept unique.
#[derive(Clone, Debug)]
pub struct WorldMap {
    pub tiles: Vec<(Vec3i, Tile)>,
    pub aabb: Option<AABB>,
}

/// A tile key stays strictly inside the unit budget, leaving room for the
/// `key + 1` corner of its unit cube.
pub open spec fn key_wf(k: Vec3i) -> bool {
    -UNIT_BOUND < k.x < UNIT_BOUND && -UNIT_BOUND < k.y < UNIT_BOUND && -UNIT_BOUND < k.z
        < UNIT_BOUND
}

/// The whole-unit cell at or below a fixed-point coordinate.
pub open spec fn floor_units(v: i64) -> int {
    (v as int) / (FX_ONE as int)
}

/// The whole-unit cell at or above a fixed-point coordinate.
pub open spec fn ceil_units(v: i64) -> int {
    ((v as int) + FX_ONE - 1) / (FX_ONE as int)
}

/// The tile coordinates whose unit cube the box reaches: every whole-unit
/// cell from the floor of the low corner up to the ceiling of the high one.
pub open spec fn covers(bb: AABB, k: Vec3i) -> bool {
    &&& floor_units(bb.min.x) <= k.x as int && (k.x as int) < ceil_units(bb.max.x)
    &&& floor_units(bb.min.y) <= k.y as int && (k.y as int) < ceil_units(bb.max.y)
    &&& floor_units(bb.min.z) <= k.z as int && (k.z as int) < ceil_units(bb.max.z)
}

impl WorldMap {
    /// Keys are unique and in budget, and every stored tile is a sound grid.
    pub open spec fn wf(self) -> bool {
        &&& forall|i: int, j: int|
            0 <= i < j < self.tiles@.len() ==> (#[trigger] self.tiles@[i].0) != (
            #[trigger] self.tiles@[j].0)
        &&& forall|i: int|
            0 <= i < self.tiles@.len() ==> key_wf(#[trigger] self.tiles@[i].0) && self.tiles@[i].1
                .grid_wf()
    }

    /// Whether a tile exists at the given key.
    pub open spec fn contains_key(self, k: Vec3i) -> bool {
        exists|i: int| 0 <= i < self.tiles@.len() && (#[trigger] self.tiles@[i].0) == k
    }

    /// The tile stored at an existing key.
    pub open spec fn tile_at_key(self, k: Vec3i) -> Tile {
        self.tiles@[choose|i: int| 0 <= i < self.tiles@.len() && (#[trigger] self.tiles@[i].0) == k].1
    }

    /// No tile exists anywhere.
    pub open spec fn is_empty_map(self) -> bool {
        self.tiles@.len() == 0
    }

    pub fn new() -> (r: WorldMap)
        ensures
            r.wf(),
            r.is_empty_map(),
            r.aabb is None,
            forall|k: Vec3i| !(#[trigger] r.contains_key(k)),
    {
        WorldMap { tiles: Vec::new(), aabb: None }
    }

    /// Drop every tile; the box is rebuilt only on request.
    pub fn clear(&mut self)
        ensures
            final(self).wf(),
            final(self).is_empty_map(),
            final(self).aabb == old(self).aabb,
            forall|k: Vec3i| !(#[trigger] final(self).contains_key(k)),
    {
        self.tiles = Vec::new();
    }

    /// The fixed edge length, in voxels, of every tile this project makes.
    pub fn tile_size() -> (r: usize)
        ensures
            r == TILE_SIZE,
    {
        TILE_SIZE
    }

    /// Create a tile (empty) at every key whose unit cube the box reaches
    /// and that has none yet, and return every covering key, row-major.
    #[verifier::rlimit(60)]
    pub fn create_tiles_aabb(&mut self, bbox: &AABB) -> (r: Vec<Vec3i>)
        requires
            old(self).wf(),
            bbox.wf(),
            inner_box(*bbox),
        ensures
            final(self).wf(),
            final(self).aabb == old(self).aabb,
            forall|k: Vec3i| #[trigger]
                final(self).contains_key(k) <==> (old(self).contains_key(k) || covers(*bbox, k)),
            forall|k: Vec3i|
                old(self).contains_key(k) ==> #[trigger] final(self).contains_key(k)
                    && final(self).tile_at_key(k) == old(self).tile_at_key(k),
            forall|k: Vec3i|
                covers(*bbox, k) && !old(self).contains_key(k)
                    ==> (#[trigger] final(self).tile_at_key(k)).grid_wf()
                    && final(self).tile_at_key(k).size == TILE_SIZE
                    && final(self).tile_at_key(k).empty_grid()
                    && final(self).tile_at_key(k).aabb is None,
            forall|i: int| 0 <= i < r@.len() ==> covers(*bbox, #[trigger] r@[i]),
            forall|k: Vec3i| #[trigger] covers(*bbox, k) ==> r@.contains(k),
            forall|i: int, j: int| 0 <= i < j < r@.len() ==> r@[i] != r@[j],
            forall|i: int, j: int|
                0 <= i < j < r@.len() ==> key_scanned(
                    #[trigger] r@[i],
                    (#[trigger] r@[j]).x as int,
                    r@[j].y as int,
                    r@[j].z as int,
                ),
    {
        let x0 = crate::fx::fx_floor(bbox.min.x);
        let x1 = crate::fx::fx_ceil(bbox.max.x);
        let y0 = crate::fx::fx_floor(bbox.min.y);
        let y1 = crate::fx::fx_ceil(bbox.max.y);
        let z0 = crate::fx::fx_floor(bbox.min.z);
        let z1 = crate::fx::fx_ceil(bbox.max.z);
        let mut keys: Vec<Vec3i> = Vec::new();
        let mut x = x0;
        while x < x1
            invariant
                old(self).wf(),
                self.wf(),
                self.aabb == old(self).aabb,
                bbox.wf(),
                inner_box(*bbox),
                x0 == floor_units(bbox.min.x),
                x1 == ceil_units(bbox.max.x),
                y0 == floor_units(bbox.min.y),
                y1 == ceil_units(bbox.max.y),
                z0 == floor_units(bbox.min.z),
                z1 == ceil_units(bbox.max.z),
                -crate::UNIT_BOUND < x0 <= x,
                x <= x1 < crate::UNIT_BOUND,
                forall|k: Vec3i| #[trigger]
                    self.contains_key(k) <==> (old(self).contains_key(k) || (covers(*bbox, k)
                        && key_scanned(k, x as int, y0 as int, z0 as int))),
                forall|k: Vec3i|
                    old(self).contains_key(k) ==> #[trigger] self.contains_key(k)
                        && self.tile_at_key(k) == old(self).tile_at_key(k),
                forall|k: Vec3i|
                    covers(*bbox, k) && key_scanned(k, x as int, y0 as int, z0 as int) && !old(
                        self,
                    ).contains_key(k) ==> (#[trigger] self.tile_at_key(k)).grid_wf()
                        && self.tile_at_key(k).size == TILE_SIZE && self.tile_at_key(k).empty_grid()
                        && self.tile_at_key(k).aabb is None,
                forall|i: int|
                    0 <= i < keys@.len() ==> covers(*bbox, #[trigger] keys@[i]) && key_scanned(
                        keys@[i],
                        x as int,
                        y0 as int,
                        z0 as int,
                    ),
                forall|k: Vec3i|
                    #[trigger] covers(*bbox, k) && key_scanned(k, x as int, y0 as int, z0 as int)
                        ==> keys@.contains(k),
                forall|i: int, j: int| 0 <= i < j < keys@.len() ==> keys@[i] != keys@[j],
                forall|i: int, j: int|
                    0 <= i < j < keys@.len() ==> key_scanned(
                        #[trigger] keys@[i],
                        (#[trigger] keys@[j]).x as int,
                        keys@[j].y as int,
                        keys@[j].z as int,
                    ),
            decreases x1 - x,
        {
            let mut y = y0;
            while y < y1
                invariant
                    old(self).wf(),
                    self.wf(),
                    self.aabb == old(self).aabb,
                    bbox.wf(),
                    inner_box(*bbox),
                    x0 == floor_units(bbox.min.x),
                    x1 == ceil_units(bbox.max.x),
                    y0 == floor_units(bbox.min.y),
                    y1 == ceil_units(bbox.max.y),
                    z0 == floor_units(bbox.min.z),
                    z1 == ceil_units(bbox.max.z),
                    -crate::UNIT_BOUND < x0 <= x,
                    x < x1 < crate::UNIT_BOUND,
                    -crate::UNIT_BOUND < y0 <= y,
                    y <= y1 < crate::UNIT_BOUND,
                    forall|k: Vec3i| #[trigger]
                        self.contains_key(k) <==> (old(self).contains_key(k) || (covers(*bbox, k)
                            && key_scanned(k, x as int, y as int, z0 as int))),
                    forall|k: Vec3i|
                        old(self).contains_key(k) ==> #[trigger] self.contains_key(k)
                            && self.tile_at_key(k) == old(self).tile_at_key(k),
                    forall|k: Vec3i|
                        covers(*bbox, k) && key_scanned(k, x as int, y as int, z0 as int) && !old(
                            self,
                        ).contains_key(k) ==> (#[trigger] self.tile_at_key(k)).grid_wf()
                            && self.tile_at_key(k).size == TILE_SIZE && self.tile_at_key(
                            k,
                        ).empty_grid() && self.tile_at_key(k).aabb is None,
                    forall|i: int|
                        0 <= i < keys@.len() ==> covers(*bbox, #[trigger] keys@[i]) && key_scanned(
                            keys@[i],
                            x as int,
                            y as int,
                            z0 as int,
                        ),
                    forall|k: Vec3i|
                        #[trigger] covers(*bbox, k) && key_scanned(
                            k,
                            x as int,
                            y as int,
                            z0 as int,
                        ) ==> keys@.contains(k),
                    forall|i: int, j: int| 0 <= i < j < keys@.len() ==> keys@[i] != keys@[j],
                    forall|i: int, j: int|
                        0 <= i < j < keys@.len() ==> key_scanned(
                            #[trigger] keys@[i],
                            (#[trigger] keys@[j]).x as int,
                            keys@[j].y as int,
                            keys@[j].z as int,
                        ),
                decreases y1 - y,
            {
                let mut z = z0;
                while z < z1
                    invariant
                        old(self).wf(),
                        self.wf(),
                        self.aabb == old(self).aabb,
                        bbox.wf(),
                        inner_box(*bbox),
                        x0 == floor_units(bbox.min.x),
                        x1 == ceil_units(bbox.max.x),
                        y0 == floor_units(bbox.min.y),
                        y1 == ceil_units(bbox.max.y),
                        z0 == floor_units(bbox.min.z),
                        z1 == ceil_units(bbox.max.z),
                        -crate::UNIT_BOUND < x0 <= x,
                        x < x1 < crate::UNIT_BOUND,
                        -crate::UNIT_BOUND < y0 <= y,
                        y < y1 < crate::UNIT_BOUND,
                        -crate::UNIT_BOUND < z0 <= z,
                        z <= z1 < crate::UNIT_BOUND,
                        forall|k: Vec3i| #[trigger]
                            self.contains_key(k) <==> (old(self).contains_key(k) || (covers(
                                *bbox,
                                k,
                            ) && key_scanned(k, x as int, y as int, z as int))),
                        forall|k: Vec3i|
                            old(self).contains_key(k) ==> #[trigger] self.contains_key(k)
                                && self.tile_at_key(k) == old(self).tile_at_key(k),
                        forall|k: Vec3i|
                            covers(*bbox, k) && key_scanned(k, x as int, y as int, z as int)
                                && !old(self).contains_key(k) ==> (#[trigger] self.tile_at_key(
                                k,
                            )).grid_wf() && self.tile_at_key(k).size == TILE_SIZE
                                && self.tile_at_key(k).empty_grid() && self.tile_at_key(k).aabb
                                is None,
                        forall|i: int|
                            0 <= i < keys@.len() ==> covers(*bbox, #[trigger] keys@[i])
                                && key_scanned(keys@[i], x as int, y as int, z as int),
                        forall|k: Vec3i|
                            #[trigger] covers(*bbox, k) && key_scanned(
                                k,
                                x as int,
                                y as int,
                                z as int,
                            ) ==> keys@.contains(k),
                        forall|i: int, j: int| 0 <= i < j < keys@.len() ==> keys@[i] != keys@[j],
                        forall|i: int, j: int|
                            0 <= i < j < keys@.len() ==> key_scanned(
                                #[trigger] keys@[i],
                                (#[trigger] keys@[j]).x as int,
                                keys@[j].y as int,
                                keys@[j].z as int,
                            ),
                        decreases z1 - z,
                {
                    let k = Vec3i::new(x as i32, y as i32, z as i32);
                    proof {
                        assert(k.x as int == x as int && k.y as int == y as int && k.z as int
                            == z as int);
                        assert(covers(*bbox, k));
                    }
                    if self.find_tile(k).is_none() {
                        let t = Tile::new(WorldMap::tile_size());
                        let ghost pre = *self;
                        self.tiles.push((k, t));
                        proof {
                            lemma_push_new_key(pre, *self, k, t);
                        }
                    }
                    let ghost okeys = keys@;
                    keys.push(k);
                    proof {
                        assert forall|kk: Vec3i|
                            #[trigger] covers(*bbox, kk) && key_scanned(
                                kk,
                                x as int,
                                y as int,
                                z as int + 1,
                            ) implies keys@.contains(kk) by {
                            if key_scanned(kk, x as int, y as int, z as int) {
                                assert(okeys.contains(kk));
                                let i = choose|i: int| 0 <= i < okeys.len() && okeys[i] == kk;
                                assert(keys@[i] == kk);
                            } else {
                                assert(kk == k);
                                assert(keys@[keys@.len() - 1] == kk);
                            }
                        }
                    }
                    proof {
                        assert forall|kk: Vec3i| old(self).contains_key(kk) implies #[trigger] self
                            .contains_key(kk) && self.tile_at_key(kk) == old(self).tile_at_key(
                            kk,
                        ) by {}
                    }
                    z = z + 1;
                }
                proof {
                    assert forall|k: Vec3i| covers(*bbox, k) implies (key_scanned(
                        k,
                        x as int,
                        y as int + 1,
                        z0 as int,
                    ) <==> key_scanned(k, x as int, y as int, z1 as int)) by {}
                }
                y = y + 1;
            }
            proof {
                assert forall|k: Vec3i| covers(*bbox, k) implies (key_scanned(
                    k,
                    x as int + 1,
                    y0 as int,
                    z0 as int,
                ) <==> key_scanned(k, x as int, y1 as int, z0 as int)) by {}
                assert forall|k: Vec3i| old(self).contains_key(k) implies #[trigger] self
                    .contains_key(k) && self.tile_at_key(k) == old(self).tile_at_key(k) by {}
            }
            x = x + 1;
        }
        keys
    }

    /// Rebuild the world box: the union of the unit cubes of all existing
    /// tile keys, or nothing when the map is empty.
    pub fn build_aabb(&mut self)
        requires
            old(self).wf(),
        ensures
            final(self).wf(),
            final(self).tiles@ == old(self).tiles@,
            has_tight_map_aabb(*final(self)),
    {
        if self.tiles.len() == 0 {
            self.aabb = None;
            return ;
        }
        let (ref k0, _) = self.tiles[0];
        let mut mnx: i32 = k0.x;
        let mut mny: i32 = k0.y;
        let mut mnz: i32 = k0.z;
        let mut mxx: i32 = k0.x;
        let mut mxy: i32 = k0.y;
        let mut mxz: i32 = k0.z;
        let mut i: usize = 1;
        while i < self.tiles.len()
            invariant
                *self == *old(self),
                old(self).wf(),
                1 <= i <= self.tiles@.len(),
                -UNIT_BOUND < mnx <= mxx < UNIT_BOUND,
                -UNIT_BOUND < mny <= mxy < UNIT_BOUND,
                -UNIT_BOUND < mnz <= mxz < UNIT_BOUND,
                forall|j: int|
                    0 <= j < i ==> mnx <= (#[trigger] self.tiles@[j].0).x <= mxx && mny
                        <= self.tiles@[j].0.y <= mxy && mnz <= self.tiles@[j].0.z <= mxz,
                exists|j: int| 0 <= j < i && (#[trigger] self.tiles@[j].0).x == mnx,
                exists|j: int| 0 <= j < i && (#[trigger] self.tiles@[j].0).x == mxx,
                exists|j: int| 0 <= j < i && (#[trigger] self.tiles@[j].0).y == mny,
                exists|j: int| 0 <= j < i && (#[trigger] self.tiles@[j].0).y == mxy,
                exists|j: int| 0 <= j < i && (#[trigger] self.tiles@[j].0).z == mnz,
                exists|j: int| 0 <= j < i && (#[trigger] self.tiles@[j].0).z == mxz,
            decreases self.tiles@.len() - i,
        {
            let (ref k, _) = self.tiles[i];
            if k.x < mnx {
                mnx = k.x;
            }
            if k.x > mxx {
                mxx = k.x;
            }
            if k.y < mny {
                mny = k.y;
            }
            if k.y > mxy {
                mxy = k.y;
            }
            if k.z < mnz {
                mnz = k.z;
            }
            if k.z > mxz {
                mxz = k.z;
            }
            i = i + 1;
        }
        let bb = AABB {
            min: Vec3fx {
                x: (mnx as i64) * FX_ONE,
                y: (mny as i64) * FX_ONE,
                z: (mnz as i64) * FX_ONE,
            },
            max: Vec3fx {
                x: (mxx as i64 + 1) * FX_ONE,
                y: (mxy as i64 + 1) * FX_ONE,
                z: (mxz as i64 + 1) * FX_ONE,
            },
        };
        self.aabb = Some(bb);
        proof {
            assert forall|k: Vec3i| #[trigger]
                self.contains_key(k) implies bb.min.x <= k.x * FX_ONE && (k.x + 1) * FX_ONE
                <= bb.max.x && bb.min.y <= k.y * FX_ONE && (k.y + 1) * FX_ONE <= bb.max.y
                && bb.min.z <= k.z * FX_ONE && (k.z + 1) * FX_ONE <= bb.max.z by {
                let j = choose|j: int|
                    0 <= j < self.tiles@.len() && (#[trigger] self.tiles@[j].0) == k;
                assert(mnx <= k.x <= mxx && mny <= k.y <= mxy && mnz <= k.z <= mxz);
            }
            let jx0 = choose|j: int|
                0 <= j < self.tiles@.len() && (#[trigger] self.tiles@[j].0).x == mnx;
            assert(self.contains_key(self.tiles@[jx0].0));
            let jx1 = choose|j: int|
                0 <= j < self.tiles@.len() && (#[trigger] self.tiles@[j].0).x == mxx;
            assert(self.contains_key(self.tiles@[jx1].0));
            let jy0 = choose|j: int|
                0 <= j < self.tiles@.len() && (#[trigger] self.tiles@[j].0).y == mny;
            assert(self.contains_key(self.tiles@[jy0].0));
            let jy1 = choose|j: int|
                0 <= j < self.tiles@.len() && (#[trigger] self.tiles@[j].0).y == mxy;
            assert(self.contains_key(self.tiles@[jy1].0));
            let jz0 = choose|j: int|
                0 <= j < self.tiles@.len() && (#[trigger] self.tiles@[j].0).z == mnz;
            assert(self.contains_key(self.tiles@[jz0].0));
            let jz1 = choose|j: int|
                0 <= j < self.tiles@.len() && (#[trigger] self.tiles@[j].0).z == mxz;
            assert(self.contains_key(self.tiles@[jz1].0));
        }
    }

    /// The slab intersection test against a box, in exact arithmetic.
    pub fn ray_aabb(&self, ray: &Ray, aabb: &AABB) -> (r: bool)
        requires
            ray.wf(),
            aabb.min.wf(),
            aabb.max.wf(),
        ensures
            r == crate::misc::slab_pass(*ray, *aabb),
    {
        crate::misc::slab_hit(ray, aabb)
    }

    /// Index of the entry holding the given key, if one does.
    pub(crate) fn find_tile(&self, k: Vec3i) -> (r: Option<usize>)
        ensures
            match r {
                Some(i) => 0 <= i < self.tiles@.len() && self.tiles@[i as int].0 == k
                    && self.contains_key(k),
                None => !self.contains_key(k),
            },
    {
        let mut i: usize = 0;
        while i < self.tiles.len()
            invariant
                i <= self.tiles@.len(),
                forall|j: int| 0 <= j < i ==> (#[trigger] self.tiles@[j].0) != k,
            decreases self.tiles@.len() - i,
        {
            let (ref key, _) = self.tiles[i];
            if key.x == k.x && key.y == k.y && key.z == k.z {
                proof {
                    assert(self.tiles@[i as int].0 == k);
                }
                return Some(i);
            }
            i = i + 1;
        }
        None
    }
}

/// The map's box is exactly the union bound of its keys' unit cubes: it is
/// present exactly when some tile exists, it contains every key's unit
/// cube, and each of its six faces is attained by one.
pub open spec fn has_tight_map_aabb(m: WorldMap) -> bool {
    &&& (m.aabb is Some) <==> !m.is_empty_map()
    &&& m.aabb matches Some(bb) ==> {
        &&& bb.wf()
        &&& forall|k: Vec3i|
            #[trigger] m.contains_key(k) ==> bb.min.x <= k.x * FX_ONE && (k.x + 1) * FX_ONE
                <= bb.max.x && bb.min.y <= k.y * FX_ONE && (k.y + 1) * FX_ONE <= bb.max.y
                && bb.min.z <= k.z * FX_ONE && (k.z + 1) * FX_ONE <= bb.max.z
        &&& exists|k: Vec3i| #[trigger] m.contains_key(k) && k.x * FX_ONE == bb.min.x
        &&& exists|k: Vec3i| #[trigger] m.contains_key(k) && (k.x + 1) * FX_ONE == bb.max.x
        &&& exists|k: Vec3i| #[trigger] m.contains_key(k) && k.y * FX_ONE == bb.min.y
        &&& exists|k: Vec3i| #[trigger] m.contains_key(k) && (k.y + 1) * FX_ONE == bb.max.y
        &&& exists|k: Vec3i| #[trigger] m.contains_key(k) && k.z * FX_ONE == bb.min.z
        &&& exists|k: Vec3i| #[trigger] m.contains_key(k) && (k.z + 1) * FX_ONE == bb.max.z
    }
}

/// A box with one unit of headroom on every side of the coordinate budget,
/// so that the cells covering it are themselves in budget.
pub open spec fn inner_box(bb: AABB) -> bool {
    &&& -FX_BOUND + FX_ONE <= bb.min.x && bb.max.x <= FX_BOUND - FX_ONE
    &&& -FX_BOUND + FX_ONE <= bb.min.y && bb.max.y <= FX_BOUND - FX_ONE
    &&& -FX_BOUND + FX_ONE <= bb.min.z && bb.max.z <= FX_BOUND - FX_ONE
}

/// A key is behind the creation counters `(cx, cy, cz)` when the row-major
/// walk, `x` outermost, has already visited it.
pub open spec fn key_scanned(k: Vec3i, cx: int, cy: int, cz: int) -> bool {
    (k.x as int) < cx || ((k.x as int) == cx && ((k.y as int) < cy || ((k.y as int) == cy && (
    k.z as int) < cz)))
}

/// Appending a tile under a fresh key keeps the map sound and leaves every
/// other key's tile as it was.
pub proof fn lemma_push_new_key(pre: WorldMap, post: WorldMap, k: Vec3i, t: Tile)
    requires
        pre.wf(),
        !pre.contains_key(k),
        key_wf(k),
        t.grid_wf(),
        post.tiles@ == pre.tiles@.push((k, t)),
    ensures
        post.wf(),
        post.contains_key(k),
        post.tile_at_key(k) == t,
        forall|kk: Vec3i| #[trigger] post.contains_key(kk) <==> (pre.contains_key(kk) || kk == k),
        forall|kk: Vec3i|
            pre.contains_key(kk) ==> #[trigger] post.tile_at_key(kk) == pre.tile_at_key(kk),
{
    let n = pre.tiles@.len() as int;
    assert forall|i: int, j: int| 0 <= i < j < post.tiles@.len() implies (
    #[trigger] post.tiles@[i].0) != (#[trigger] post.tiles@[j].0) by {
        if j == n {
            assert(post.tiles@[i].0 == pre.tiles@[i].0);
            if post.tiles@[i].0 == k {
                assert(pre.contains_key(k));
            }
        }
    }
    assert(post.tiles@[n] == (k, t));
    lemma_tile_at(post, n, k);
    assert forall|kk: Vec3i| #[trigger] post.contains_key(kk) implies (pre.contains_key(kk) || kk
        == k) by {
        let i = choose|i: int| 0 <= i < post.tiles@.len() && (#[trigger] post.tiles@[i].0) == kk;
        if i < n {
            assert(pre.tiles@[i].0 == kk);
        }
    }
    assert forall|kk: Vec3i| pre.contains_key(kk) implies #[trigger] post.contains_key(kk) by {
        let i = choose|i: int| 0 <= i < pre.tiles@.len() && (#[trigger] pre.tiles@[i].0) == kk;
        assert(post.tiles@[i].0 == kk);
    }
    assert forall|kk: Vec3i| pre.contains_key(kk) implies #[trigger] post.tile_at_key(kk)
        == pre.tile_at_key(kk) by {
        let i = choose|i: int| 0 <= i < pre.tiles@.len() && (#[trigger] pre.tiles@[i].0) == kk;
        lemma_tile_at(pre, i, kk);
        lemma_tile_at(post, i, kk);
    }
}

/// An existing key's stored tile is the one at any index that holds the key.
pub proof fn lemma_tile_at(m: WorldMap, i: int, k: Vec3i)
    requires
        m.wf(),
        0 <= i < m.tiles@.len(),
        m.tiles@[i].0 == k,
    ensures
        m.contains_key(k),
        m.tile_at_key(k) == m.tiles@[i].1,
{
    let j = choose|j: int| 0 <= j < m.tiles@.len() && (#[trigger] m.tiles@[j].0) == k;
    if i != j {
        assert(m.tiles@[i].0 != m.tiles@[j].0);
    }
}

} // verus!
