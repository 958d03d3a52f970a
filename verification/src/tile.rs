use vstd::prelude::*;

verus! {

use crate::{FX_ONE, FX_BOUND, UNIT_BOUND};
use crate::buffer::ColorBuffer;
use crate::camera::Camera;
use crate::misc::{AABB, HitRecord, Ray};
use crate::vec3::{Vec3fx, Vec3i};

/// A tile: a dense cubic grid of optional `(color, material)` voxels, the
/// tight box around its occupied cells, and a camera for standalone preview.
#[derive(Debug)]
pub struct Tile {
    pub camera: Camera,
    pub size: usize,
    pub data: Vec<Option<(u8, u8)>>,
    pub aabb: Option<AABB>,
}

impl Tile {
    /// The voxel store matches the cubic size, and the size is modest
    /// enough that every index computation stays in range.
    pub open spec fn grid_wf(self) -> bool {
        1 <= self.size <= 1024 && self.data@.len() == self.size * self.size * self.size
    }

    /// The coordinates name a cell of the grid.
    pub open spec fn in_bounds(self, x: int, y: int, z: int) -> bool {
        0 <= x < self.size && 0 <= y < self.size && 0 <= z < self.size
    }

    /// Row-major position of a cell in the voxel store.
    pub open spec fn idx_of(self, x: int, y: int, z: int) -> int {
        x + y * self.size + z * self.size * self.size
    }

    /// The voxel at a cell; any out-of-range coordinate reads as empty.
    pub open spec fn voxel_at(self, x: int, y: int, z: int) -> Option<(u8, u8)> {
        if self.in_bounds(x, y, z) {
            self.data@[self.idx_of(x, y, z)]
        } else {
            None
        }
    }

    /// Whether a cell holds a voxel.
    pub open spec fn occupied_at(self, x: int, y: int, z: int) -> bool {
        self.voxel_at(x, y, z) is Some
    }

    /// No cell of the grid holds a voxel.
    pub open spec fn empty_grid(self) -> bool {
        forall|x: int, y: int, z: int| !(#[trigger] self.occupied_at(x, y, z))
    }

    /// A fresh tile: all cells empty, no box, the preview camera centered
    /// on the grid's middle and pulled back along depth.
    pub fn new(size: usize) -> (r: Tile)
        requires
            1 <= size <= 1024,
        ensures
            r.grid_wf(),
            r.size == size,
            r.empty_grid(),
            r.aabb is None,
            forall|i: int| 0 <= i < r.data@.len() ==> r.data@[i] is None,
            r.camera.center.x == (size as int) / 2 * FX_ONE + FX_ONE / 2,
            r.camera.center.y == r.camera.center.x,
            r.camera.center.z == r.camera.center.x,
            r.camera.origin.x == r.camera.center.x,
            r.camera.origin.y == r.camera.center.y,
            r.camera.origin.z == r.camera.center.z + 20 * FX_ONE,
            r.camera.fov == 70 * FX_ONE,
            r.camera.wf(),
    {
        let m: i64 = (size as i64 / 2) * FX_ONE + FX_ONE / 2;
        proof {
            assert(0 < m <= 1024 * FX_ONE);
        }
        let center = Vec3fx { x: m, y: m, z: m };
        let origin = Vec3fx { x: m, y: m, z: m + 20 * FX_ONE };
        let camera = Camera::new(origin, center, 70 * FX_ONE);
        proof {
            lemma_cube_small(size as int);
        }
        let total: usize = size * size * size;
        let mut data: Vec<Option<(u8, u8)>> = Vec::new();
        while data.len() < total
            invariant
                data@.len() <= total,
                forall|i: int| 0 <= i < data@.len() ==> data@[i] is None,
            decreases total - data@.len(),
        {
            data.push(None);
        }
        let t = Tile { camera, size, data, aabb: None };
        proof {
            assert forall|x: int, y: int, z: int| !(#[trigger] t.occupied_at(x, y, z)) by {
                if t.in_bounds(x, y, z) {
                    lemma_idx_bounds(t, x, y, z);
                }
            }
        }
        t
    }

    /// Row-major position of an in-range cell.
    fn index(&self, x: usize, y: usize, z: usize) -> (r: usize)
        requires
            self.grid_wf(),
            self.in_bounds(x as int, y as int, z as int),
        ensures
            r == self.idx_of(x as int, y as int, z as int),
            r < self.data@.len(),
    {
        proof {
            lemma_idx_bounds(*self, x as int, y as int, z as int);
        }
        x + y * self.size + z * self.size * self.size
    }

    /// Whether the given cell holds a voxel; out-of-range reads as absent.
    pub fn voxel_exists(&self, x: usize, y: usize, z: usize) -> (r: bool)
        requires
            self.grid_wf(),
        ensures
            r == self.occupied_at(x as int, y as int, z as int),
    {
        if x < self.size && y < self.size && z < self.size {
            let i = self.index(x, y, z);
            if self.data[i].is_some() {
                true
            } else {
                false
            }
        } else {
            false
        }
    }

    /// Read a voxel; any out-of-range coordinate yields empty.
    pub fn get_voxel(&self, x: usize, y: usize, z: usize) -> (r: Option<(u8, u8)>)
        requires
            self.grid_wf(),
        ensures
            r == self.voxel_at(x as int, y as int, z as int),
    {
        if x < self.size && y < self.size && z < self.size {
            let i = self.index(x, y, z);
            self.data[i]
        } else {
            None
        }
    }

    /// Write a voxel; any out-of-range coordinate leaves the tile untouched.
    pub fn set_voxel(&mut self, x: usize, y: usize, z: usize, voxel: Option<(u8, u8)>)
        requires
            old(self).grid_wf(),
        ensures
            final(self).camera == old(self).camera,
            final(self).size == old(self).size,
            final(self).aabb == old(self).aabb,
            final(self).grid_wf(),
            old(self).in_bounds(x as int, y as int, z as int) ==> final(self).data@ == old(
                self,
            ).data@.update(old(self).idx_of(x as int, y as int, z as int), voxel),
            !old(self).in_bounds(x as int, y as int, z as int) ==> final(self).data@ == old(
                self,
            ).data@,
            final(self).voxel_at(x as int, y as int, z as int) == if old(self).in_bounds(
                x as int,
                y as int,
                z as int,
            ) {
                voxel
            } else {
                Option::<(u8, u8)>::None
            },
            forall|a: int, b: int, c: int|
                !(a == x && b == y && c == z) ==> #[trigger] final(self).voxel_at(a, b, c) == old(
                    self,
                ).voxel_at(a, b, c),
    {
        if x < self.size && y < self.size && z < self.size {
            let i = self.index(x, y, z);
            self.data.set(i, voxel);
            proof {
                lemma_voxel_frame(*old(self), *self, x as int, y as int, z as int, voxel);
            }
        }
    }

    /// Replace every voxel and drop the box.
    pub fn clear_all(&mut self)
        requires
            old(self).grid_wf(),
        ensures
            final(self).camera == old(self).camera,
            final(self).size == old(self).size,
            final(self).grid_wf(),
            final(self).empty_grid(),
            final(self).aabb is None,
    {
        proof {
            lemma_cube_small(self.size as int);
        }
        let total: usize = self.size * self.size * self.size;
        let mut data: Vec<Option<(u8, u8)>> = Vec::new();
        while data.len() < total
            invariant
                data@.len() <= total,
                forall|i: int| 0 <= i < data@.len() ==> data@[i] is None,
            decreases total - data@.len(),
        {
            data.push(None);
        }
        self.data = data;
        self.aabb = None;
        proof {
            assert forall|x: int, y: int, z: int| !(#[trigger] self.occupied_at(x, y, z)) by {
                if self.in_bounds(x, y, z) {
                    lemma_idx_bounds(*self, x, y, z);
                }
            }
        }
    }

    /// Rebuild the box over the occupied cells: the tight bound in
    /// fixed-point tile-local coordinates, or nothing when no cell is
    /// occupied.
    pub fn build_aabb(&mut self)
        requires
            old(self).grid_wf(),
        ensures
            final(self).camera == old(self).camera,
            final(self).size == old(self).size,
            final(self).data@ == old(self).data@,
            final(self).grid_wf(),
            has_tight_aabb(*final(self)),
    {
        let size = self.size;
        let mut found = false;
        let mut mnx: usize = 0;
        let mut mny: usize = 0;
        let mut mnz: usize = 0;
        let mut mxx: usize = 0;
        let mut mxy: usize = 0;
        let mut mxz: usize = 0;
        let mut z: usize = 0;
        while z < size
            invariant
                *self == *old(self),
                old(self).grid_wf(),
                size == self.size,
                z <= size,
                scan_state(
                    *old(self),
                    found,
                    mnx as int,
                    mny as int,
                    mnz as int,
                    mxx as int,
                    mxy as int,
                    mxz as int,
                    0,
                    0,
                    z as int,
                ),
            decreases size - z,
        {
            let mut y: usize = 0;
            while y < size
                invariant
                    *self == *old(self),
                    old(self).grid_wf(),
                    size == self.size,
                    z < size,
                    y <= size,
                    scan_state(
                        *old(self),
                        found,
                        mnx as int,
                        mny as int,
                        mnz as int,
                        mxx as int,
                        mxy as int,
                        mxz as int,
                        0,
                        y as int,
                        z as int,
                    ),
                decreases size - y,
            {
                let mut x: usize = 0;
                while x < size
                    invariant
                        *self == *old(self),
                        old(self).grid_wf(),
                        size == self.size,
                        z < size,
                        y < size,
                        x <= size,
                        scan_state(
                            *old(self),
                            found,
                            mnx as int,
                            mny as int,
                            mnz as int,
                            mxx as int,
                            mxy as int,
                            mxz as int,
                            x as int,
                            y as int,
                            z as int,
                        ),
                    decreases size - x,
                {
                    if self.voxel_exists(x, y, z) {
                        if !found {
                            found = true;
                            mnx = x;
                            mxx = x;
                            mny = y;
                            mxy = y;
                            mnz = z;
                            mxz = z;
                        } else {
                            if x < mnx {
                                mnx = x;
                            }
                            if x > mxx {
                                mxx = x;
                            }
                            if y < mny {
                                mny = y;
                            }
                            if y > mxy {
                                mxy = y;
                            }
                            if z < mnz {
                                mnz = z;
                            }
                            if z > mxz {
                                mxz = z;
                            }
                        }
                    }
                    x = x + 1;
                }
                y = y + 1;
            }
            z = z + 1;
        }
        if found {
            self.aabb = Some(
                AABB {
                    min: Vec3fx {
                        x: (mnx as i64) * FX_ONE,
                        y: (mny as i64) * FX_ONE,
                        z: (mnz as i64) * FX_ONE,
                    },
                    max: Vec3fx {
                        x: (mxx as i64 + 1) * FX_ONE,
                        y: (mxy as i64 + 1) * FX_ONE,
                        z: (mxz as i64 + 1) * FX_ONE,
                    },
                },
            );
        } else {
            self.aabb = None;
        }
        proof {
            assert forall|x: int, y: int, z: int| #[trigger] self.occupied_at(x, y, z)
                == old(self).occupied_at(x, y, z) by {
                assert(self.data@ == old(self).data@ && self.size == old(self).size);
            }
            assert forall|x: int, y: int, z: int| #[trigger] old(self).occupied_at(x, y, z)
                implies scanned(x, y, z, 0, 0, size as int) by {
                assert(old(self).in_bounds(x, y, z));
            }
            if found {
                let w1 = choose|x: int, y: int, z: int|
                    #[trigger] old(self).occupied_at(x, y, z) && scanned(
                        x,
                        y,
                        z,
                        0,
                        0,
                        size as int,
                    ) && x == mnx;
                assert(self.occupied_at(w1.0, w1.1, w1.2));
                let w2 = choose|x: int, y: int, z: int|
                    #[trigger] old(self).occupied_at(x, y, z) && scanned(
                        x,
                        y,
                        z,
                        0,
                        0,
                        size as int,
                    ) && x == mxx;
                assert(self.occupied_at(w2.0, w2.1, w2.2));
                let w3 = choose|x: int, y: int, z: int|
                    #[trigger] old(self).occupied_at(x, y, z) && scanned(
                        x,
                        y,
                        z,
                        0,
                        0,
                        size as int,
                    ) && y == mny;
                assert(self.occupied_at(w3.0, w3.1, w3.2));
                let w4 = choose|x: int, y: int, z: int|
                    #[trigger] old(self).occupied_at(x, y, z) && scanned(
                        x,
                        y,
                        z,
                        0,
                        0,
                        size as int,
                    ) && y == mxy;
                assert(self.occupied_at(w4.0, w4.1, w4.2));
                let w5 = choose|x: int, y: int, z: int|
                    #[trigger] old(self).occupied_at(x, y, z) && scanned(
                        x,
                        y,
                        z,
                        0,
                        0,
                        size as int,
                    ) && z == mnz;
                assert(self.occupied_at(w5.0, w5.1, w5.2));
                let w6 = choose|x: int, y: int, z: int|
                    #[trigger] old(self).occupied_at(x, y, z) && scanned(
                        x,
                        y,
                        z,
                        0,
                        0,
                        size as int,
                    ) && z == mxz;
                assert(self.occupied_at(w6.0, w6.1, w6.2));
            }
        }
    }

    /// The slab intersection test against a box, in exact arithmetic.
    pub fn ray_aabb(&self, ray: &Ray, aabb: &AABB) -> (r: bool)
        requires
            ray.wf(),
            aabb.min.wf(),
            aabb.max.wf(),
        ensures
            r == crate::misc::slab_pass(*ray, *aabb),
    {
        crate::misc::slab_hit(ray, aabb)
    }

    /// March a ray through the grid: reject in one test when the box is
    /// absent or missed, else step cell to cell along the least boundary
    /// distance, for at most three tile edges, and report the first
    /// occupied cell entered.
    pub fn dda(&self, ray: &Ray) -> (r: Option<HitRecord>)
        requires
            self.grid_wf(),
            ray.wf(),
            self.aabb matches Some(bb) ==> bb.min.wf() && bb.max.wf(),
        ensures
            (r is Some) <==> (dda_spec(*self, *ray) is Some),
            r matches Some(h) ==> hit_matches_march(*self, *ray, dda_spec(*self, *ray).unwrap(), h),
    {
        let bb = match &self.aabb {
            None => {
                return None;
            },
            Some(b) => *b,
        };
        if !self.ray_aabb(ray, &bb) {
            return None;
        }
        let ghost full = dda_spec(*self, *ray);
        let mut cx: i64 = crate::fx::fx_floor(ray.o.x);
        let mut cy: i64 = crate::fx::fx_floor(ray.o.y);
        let mut cz: i64 = crate::fx::fx_floor(ray.o.z);
        let mut dn: i64 = 0;
        let mut dd: i64 = 1;
        let mut nx: i64 = 0;
        let mut ny: i64 = 0;
        let mut nz: i64 = 0;
        let max_steps: usize = 3 * self.size;
        let mut ii: usize = 0;
        let mut hit = false;
        let mut value: (u8, u8) = (0, 0);
        proof {
            assert(full == tile_march(
                *self,
                ray.o,
                ray.d,
                cx as int,
                cy as int,
                cz as int,
                0,
                1,
                0,
                0,
                0,
                (3 * self.size - 1) as nat,
            ));
        }
        while ii < max_steps && !hit
            invariant
                self.grid_wf(),
                ray.wf(),
                max_steps == 3 * self.size,
                max_steps <= 3072,
                ii <= max_steps,
                1 <= dd <= FX_BOUND,
                0 <= dn <= 3 * FX_BOUND,
                -1 <= nx <= 1 && -1 <= ny <= 1 && -1 <= nz <= 1,
                -UNIT_BOUND - ii <= cx <= UNIT_BOUND + ii,
                -UNIT_BOUND - ii <= cy <= UNIT_BOUND + ii,
                -UNIT_BOUND - ii <= cz <= UNIT_BOUND + ii,
                ray.d.x > 0 ==> (cx + 1) * FX_ONE - ray.o.x >= 0,
                ray.d.x < 0 ==> ray.o.x - cx * FX_ONE >= 0,
                ray.d.y > 0 ==> (cy + 1) * FX_ONE - ray.o.y >= 0,
                ray.d.y < 0 ==> ray.o.y - cy * FX_ONE >= 0,
                ray.d.z > 0 ==> (cz + 1) * FX_ONE - ray.o.z >= 0,
                ray.d.z < 0 ==> ray.o.z - cz * FX_ONE >= 0,
                !hit && ii < max_steps ==> tile_march(
                    *self,
                    ray.o,
                    ray.d,
                    cx as int,
                    cy as int,
                    cz as int,
                    dn as int,
                    dd as int,
                    nx as int,
                    ny as int,
                    nz as int,
                    (max_steps - 1 - ii) as nat,
                ) == full,
                !hit && ii == max_steps ==> full is None,
                hit ==> full == Some(
                    (
                        cx as int,
                        cy as int,
                        cz as int,
                        dn as int,
                        dd as int,
                        nx as int,
                        ny as int,
                        nz as int,
                    ),
                ) && self.voxel_at(cx as int, cy as int, cz as int) == Some(value) && 0 <= cx
                    < self.size && 0 <= cy < self.size && 0 <= cz < self.size && dn >= 0,
            decreases max_steps - ii, (if hit {
                0int
            } else {
                1int
            }),
        {
            let mut found: Option<(u8, u8)> = None;
            if 0 <= cx && cx < self.size as i64 && 0 <= cy && cy < self.size as i64 && 0 <= cz
                && cz < self.size as i64 {
                found = self.get_voxel(cx as usize, cy as usize, cz as usize);
            }
            if let Some(v) = found {
                hit = true;
                value = v;
            } else {
                proof {
                    assert(!self.occupied_at(cx as int, cy as int, cz as int));
                }
                if ray.d.x == 0 && ray.d.y == 0 && ray.d.z == 0 {
                    proof {
                        assert(full is None);
                    }
                    ii = max_steps;
                } else {
                    let (sx, sy, sz, mn, md) = march_step(ray, cx, cy, cz);
                    cx = cx + sx;
                    cy = cy + sy;
                    cz = cz + sz;
                    dn = mn;
                    dd = md;
                    nx = sx;
                    ny = sy;
                    nz = sz;
                    ii = ii + 1;
                }
            }
        }
        if hit {
            let dist = crate::fx::frac_to_fx_exec(dn, dd);
            let hx = ray.o.x + crate::fx::fx_mul_sat(ray.d.x, dist);
            let hy = ray.o.y + crate::fx::fx_mul_sat(ray.d.y, dist);
            let hz = ray.o.z + crate::fx::fx_mul_sat(ray.d.z, dist);
            let mut rec = HitRecord::new();
            rec.distance = dist;
            rec.hitpoint = Vec3fx { x: hx, y: hy, z: hz };
            rec.normal = Vec3fx { x: nx * FX_ONE, y: ny * FX_ONE, z: nz * FX_ONE };
            rec.value = value;
            rec.tile_key = Vec3i { x: cx as i32, y: cy as i32, z: cz as i32 };
            Some(rec)
        } else {
            None
        }
    }

    /// Render a standalone preview of the tile into the buffer through its
    /// own camera: each pixel casts the center ray of its cell and paints
    /// the first voxel hit, darkened near voxel edges, over a flat
    /// background. Deterministic: every pixel's color is pinned exactly.
    pub fn render(&mut self, buffer: &mut ColorBuffer)
        requires
            old(self).grid_wf(),
            old(self).camera.wf(),
            old(self).aabb matches Some(b) ==> b.min.wf() && b.max.wf(),
            old(buffer).wf(),
        ensures
            *final(self) == *old(self),
            final(buffer).wf(),
            final(buffer).width == old(buffer).width,
            final(buffer).height == old(buffer).height,
            forall|px: int, py: int|
                0 <= px < final(buffer).width && 0 <= py < final(buffer).height
                    ==> #[trigger] preview_pixel_ok(
                    *old(self),
                    final(buffer).pixels@,
                    px,
                    py,
                    final(buffer).width as int,
                    final(buffer).height as int,
                ),
    {
        let width = buffer.width;
        let height = buffer.height;
        let mut py: usize = 0;
        while py < height
            invariant
                *self == *old(self),
                self.grid_wf(),
                self.camera.wf(),
                self.aabb matches Some(b) ==> b.min.wf() && b.max.wf(),
                buffer.wf(),
                buffer.width == width,
                buffer.height == height,
                1 <= width <= 8192,
                1 <= height <= 8192,
                py <= height,
                forall|qx: int, qy: int|
                    0 <= qx < width && 0 <= qy < py ==> #[trigger] preview_pixel_ok(
                        *old(self),
                        buffer.pixels@,
                        qx,
                        qy,
                        width as int,
                        height as int,
                    ),
            decreases height - py,
        {
            let mut px: usize = 0;
            while px < width
                invariant
                    *self == *old(self),
                    self.grid_wf(),
                    self.camera.wf(),
                    self.aabb matches Some(b) ==> b.min.wf() && b.max.wf(),
                    buffer.wf(),
                    buffer.width == width,
                    buffer.height == height,
                    1 <= width <= 8192,
                    1 <= height <= 8192,
                    py < height,
                    px <= width,
                    forall|qx: int, qy: int|
                        0 <= qx < width && 0 <= qy < py ==> #[trigger] preview_pixel_ok(
                            *old(self),
                            buffer.pixels@,
                            qx,
                            qy,
                            width as int,
                            height as int,
                        ),
                    forall|qx: int|
                        0 <= qx < px ==> #[trigger] preview_pixel_ok(
                            *old(self),
                            buffer.pixels@,
                            qx,
                            py as int,
                            width as int,
                            height as int,
                        ),
                decreases width - px,
            {
                let c = self.preview_pixel(px, py, width, height);
                let ghost pre = buffer.pixels@;
                buffer.set_pixel(px, py, c);
                proof {
                    assert forall|qx: int, qy: int|
                        0 <= qx < width && (qy < py || (qy == py && qx <= px)) && 0 <= qy implies #[trigger] preview_pixel_ok(
                        *old(self),
                        buffer.pixels@,
                        qx,
                        qy,
                        width as int,
                        height as int,
                    ) by {
                        lemma_pix_distinct(qx, qy, px as int, py as int, width as int, height as int);
                        if !(qx == px && qy == py) {
                            assert(preview_pixel_ok(
                                *old(self),
                                pre,
                                qx,
                                qy,
                                width as int,
                                height as int,
                            ));
                        }
                    }
                }
                px = px + 1;
            }
            py = py + 1;
        }
    }

    /// The color of one preview pixel.
    fn preview_pixel(&self, px: usize, py: usize, width: usize, height: usize) -> (c: (
        i64,
        i64,
        i64,
        i64,
    ))
        requires
            self.grid_wf(),
            self.camera.wf(),
            self.aabb matches Some(b) ==> b.min.wf() && b.max.wf(),
            1 <= width <= 8192,
            1 <= height <= 8192,
            px < width,
            py < height,
        ensures
            (c.0 as int, c.1 as int, c.2 as int, c.3 as int) == preview_color(
                *self,
                preview_ray_spec(self.camera, px as int, py as int, width as int, height as int),
            ),
            -FX_BOUND <= c.0 <= FX_BOUND,
            -FX_BOUND <= c.1 <= FX_BOUND,
            -FX_BOUND <= c.2 <= FX_BOUND,
            -FX_BOUND <= c.3 <= FX_BOUND,
    {
        proof {
            assert(0 <= (px as int) * (FX_ONE as int) / (width as int) <= FX_ONE) by (
            nonlinear_arith)
                requires
                    0 <= px as int && (px as int) < width as int,
                    1 <= width as int,
                    FX_ONE == 100000,
            ;
            assert(0 <= ((py as int) + 1) * (FX_ONE as int) / (height as int) <= FX_ONE) by (
            nonlinear_arith)
                requires
                    0 <= py as int && (py as int) < height as int,
                    1 <= height as int,
                    FX_ONE == 100000,
            ;
        }
        let ux = (((px as u64) * (FX_ONE as u64)) / (width as u64)) as i64;
        let uy = FX_ONE - ((((py as u64) + 1) * (FX_ONE as u64)) / (height as u64)) as i64;
        let ray = self.camera.create_ray(
            (ux, uy),
            (width as i64, height as i64),
            (crate::misc::FX_HALF, crate::misc::FX_HALF),
        );
        match self.dda(&ray) {
            None => (PREVIEW_BG, PREVIEW_BG, PREVIEW_BG, FX_ONE),
            Some(h) => {
                let edge = if h.normal.y != 0 {
                    near_edge_exec(h.hitpoint.x) || near_edge_exec(h.hitpoint.z)
                } else if h.normal.z != 0 {
                    near_edge_exec(h.hitpoint.x) || near_edge_exec(h.hitpoint.y)
                } else {
                    near_edge_exec(h.hitpoint.y) || near_edge_exec(h.hitpoint.z)
                };
                if edge {
                    (PREVIEW_EDGE, PREVIEW_EDGE, PREVIEW_EDGE, FX_ONE)
                } else {
                    (0, FX_ONE / 2, FX_ONE, FX_ONE)
                }
            },
        }
    }

    /// The tile cell that the preview pixel's center ray first hits.
    pub fn key_at(&self, pos: (i64, i64), buffer: &ColorBuffer) -> (r: Option<Vec3i>)
        requires
            self.grid_wf(),
            self.camera.wf(),
            self.aabb matches Some(b) ==> b.min.wf() && b.max.wf(),
            buffer.wf(),
            0 <= pos.0 < buffer.width,
            0 <= pos.1 < buffer.height,
        ensures
            (r is Some) <==> (dda_spec(
                *self,
                preview_ray_spec(
                    self.camera,
                    pos.0 as int,
                    pos.1 as int,
                    buffer.width as int,
                    buffer.height as int,
                ),
            ) is Some),
            r matches Some(k) ==> {
                let m = dda_spec(
                    *self,
                    preview_ray_spec(
                        self.camera,
                        pos.0 as int,
                        pos.1 as int,
                        buffer.width as int,
                        buffer.height as int,
                    ),
                ).unwrap();
                k.x as int == m.0 && k.y as int == m.1 && k.z as int == m.2
            },
    {
        proof {
            assert(0 <= (pos.0 as int) * (FX_ONE as int) / (buffer.width as int) <= FX_ONE) by (
            nonlinear_arith)
                requires
                    0 <= pos.0 as int && (pos.0 as int) < buffer.width as int,
                    1 <= buffer.width as int,
                    FX_ONE == 100000,
            ;
            assert(0 <= ((pos.1 as int) + 1) * (FX_ONE as int) / (buffer.height as int) <= FX_ONE)
                by (nonlinear_arith)
                requires
                    0 <= pos.1 as int && (pos.1 as int) < buffer.height as int,
                    1 <= buffer.height as int,
                    FX_ONE == 100000,
            ;
        }
        let ux = (((pos.0 as u64) * (FX_ONE as u64)) / (buffer.width as u64)) as i64;
        let uy = FX_ONE - ((((pos.1 as u64) + 1) * (FX_ONE as u64)) / (buffer.height as u64)) as i64;
        let ray = self.camera.create_ray(
            (ux, uy),
            (buffer.width as i64, buffer.height as i64),
            (crate::misc::FX_HALF, crate::misc::FX_HALF),
        );
        match self.dda(&ray) {
            Some(h) => Some(h.tile_key),
            None => None,
        }
    }

    /// Edge length of the grid.
    pub fn get_size(&mut self) -> (r: i32)
        requires
            old(self).grid_wf(),
        ensures
            *final(self) == *old(self),
            r == old(self).size,
    {
        self.size as i32
    }

    /// Resample the grid to a new resolution by nearest-neighbor mapping:
    /// the new cell `(x, y, z)` takes the old cell at each coordinate
    /// scaled by `old_size / new_size`, rounding down.
    pub fn resize(&mut self, new_size: usize)
        requires
            old(self).grid_wf(),
            1 <= new_size <= 1024,
        ensures
            final(self).camera == old(self).camera,
            final(self).aabb == old(self).aabb,
            final(self).size == new_size,
            final(self).grid_wf(),
            forall|x: int, y: int, z: int|
                final(self).in_bounds(x, y, z) ==> #[trigger] final(self).voxel_at(x, y, z) == old(
                    self,
                ).voxel_at(
                    x * old(self).size / new_size as int,
                    y * old(self).size / new_size as int,
                    z * old(self).size / new_size as int,
                ),
    {
        let ns = new_size;
        let mut new_data: Vec<Option<(u8, u8)>> = Vec::new();
        let mut z: usize = 0;
        while z < ns
            invariant
                *self == *old(self),
                old(self).grid_wf(),
                1 <= ns <= 1024,
                z <= ns,
                new_data@.len() == z * ns * ns,
                forall|a: int, b: int, c: int|
                    0 <= a < ns && 0 <= b < ns && 0 <= c < z ==> new_data@[a + b * ns + c * ns * ns]
                        == #[trigger] old(self).voxel_at(
                        a * old(self).size / ns as int,
                        b * old(self).size / ns as int,
                        c * old(self).size / ns as int,
                    ),
            decreases ns - z,
        {
            let mut y: usize = 0;
            while y < ns
                invariant
                    *self == *old(self),
                    old(self).grid_wf(),
                    1 <= ns <= 1024,
                    z < ns,
                    y <= ns,
                    new_data@.len() == z * ns * ns + y * ns,
                    forall|a: int, b: int, c: int|
                        0 <= a < ns && 0 <= b < ns && (0 <= c < z || (c == z && 0 <= b < y))
                            ==> new_data@[a + b * ns + c * ns * ns] == #[trigger] old(
                            self,
                        ).voxel_at(
                            a * old(self).size / ns as int,
                            b * old(self).size / ns as int,
                            c * old(self).size / ns as int,
                        ),
                decreases ns - y,
            {
                let mut x: usize = 0;
                while x < ns
                    invariant
                        *self == *old(self),
                        old(self).grid_wf(),
                        1 <= ns <= 1024,
                        z < ns,
                        y < ns,
                        x <= ns,
                        new_data@.len() == z * ns * ns + y * ns + x,
                        forall|a: int, b: int, c: int|
                            0 <= a < ns && 0 <= b < ns && (0 <= c < z || (c == z && (0 <= b < y || (
                            b == y && 0 <= a < x)))) ==> new_data@[a + b * ns + c * ns * ns]
                                == #[trigger] old(self).voxel_at(
                                a * old(self).size / ns as int,
                                b * old(self).size / ns as int,
                                c * old(self).size / ns as int,
                            ),
                    decreases ns - x,
                {
                    proof {
                        lemma_scale_in_bounds(x as int, old(self).size as int, ns as int);
                        lemma_scale_in_bounds(y as int, old(self).size as int, ns as int);
                        lemma_scale_in_bounds(z as int, old(self).size as int, ns as int);
                    }
                    let old_x = x * self.size / ns;
                    let old_y = y * self.size / ns;
                    let old_z = z * self.size / ns;
                    let v = self.get_voxel(old_x, old_y, old_z);
                    proof {
                        lemma_row_major_bound(x as int, y as int, z as int, ns as int);
                    }
                    new_data.push(v);
                    proof {
                        assert forall|a: int, b: int, c: int|
                            0 <= a < ns && 0 <= b < ns && (0 <= c < z || (c == z && (0 <= b < y || (
                            b == y && 0 <= a < x + 1)))) implies new_data@[a + b * ns + c * ns * ns]
                                == #[trigger] old(self).voxel_at(
                                a * old(self).size / ns as int,
                                b * old(self).size / ns as int,
                                c * old(self).size / ns as int,
                            ) by {
                            lemma_row_major_bound(a, b, c, ns as int);
                            if c < z || (c == z && (b < y || (b == y && a < x))) {
                                lemma_row_major_order(a, b, c, x as int, y as int, z as int, ns as int);
                            }
                        }
                    }
                    x = x + 1;
                }
                proof {
                    assert((y + 1) * ns == y * ns + ns) by (nonlinear_arith);
                }
                y = y + 1;
            }
            proof {
                assert((z + 1) * ns * ns == z * ns * ns + ns * ns) by (nonlinear_arith);
            }
            z = z + 1;
        }
        self.size = ns;
        self.data = new_data;
        proof {
            assert(self.grid_wf());
            assert forall|x: int, y: int, z: int| self.in_bounds(x, y, z) implies #[trigger] self
                .voxel_at(x, y, z) == old(self).voxel_at(
                x * old(self).size / ns as int,
                y * old(self).size / ns as int,
                z * old(self).size / ns as int,
            ) by {
                lemma_idx_bounds(*self, x, y, z);
            }
        }
    }
}

/// The tile's box is exactly the tight bound of its occupied cells: it is
/// present exactly when some cell is occupied, it contains the unit cube of
/// every occupied cell, and each of its six faces is attained by one.
pub open spec fn has_tight_aabb(t: Tile) -> bool {
    &&& (t.aabb is Some) <==> exists|x: int, y: int, z: int| #[trigger] t.occupied_at(x, y, z)
    &&& t.aabb matches Some(bb) ==> {
        &&& bb.wf()
        &&& forall|x: int, y: int, z: int|
            #[trigger] t.occupied_at(x, y, z) ==> bb.min.x <= x * FX_ONE && (x + 1) * FX_ONE
                <= bb.max.x && bb.min.y <= y * FX_ONE && (y + 1) * FX_ONE <= bb.max.y && bb.min.z
                <= z * FX_ONE && (z + 1) * FX_ONE <= bb.max.z
        &&& exists|x: int, y: int, z: int|
            #[trigger] t.occupied_at(x, y, z) && x * FX_ONE == bb.min.x
        &&& exists|x: int, y: int, z: int|
            #[trigger] t.occupied_at(x, y, z) && (x + 1) * FX_ONE == bb.max.x
        &&& exists|x: int, y: int, z: int|
            #[trigger] t.occupied_at(x, y, z) && y * FX_ONE == bb.min.y
        &&& exists|x: int, y: int, z: int|
            #[trigger] t.occupied_at(x, y, z) && (y + 1) * FX_ONE == bb.max.y
        &&& exists|x: int, y: int, z: int|
            #[trigger] t.occupied_at(x, y, z) && z * FX_ONE == bb.min.z
        &&& exists|x: int, y: int, z: int|
            #[trigger] t.occupied_at(x, y, z) && (z + 1) * FX_ONE == bb.max.z
    }
}

/// A cell is behind the scan counters `(cx, cy, cz)` when the scan, which
/// walks `z` outermost, then `y`, then `x`, has already visited it.
pub open spec fn scanned(x: int, y: int, z: int, cx: int, cy: int, cz: int) -> bool {
    z < cz || (z == cz && (y < cy || (y == cy && x < cx)))
}

/// The running extremes of the box scan: `found` says whether any visited
/// cell was occupied; if so, the six extremes bound every visited occupied
/// cell and each is attained by one.
pub open spec fn scan_state(
    t: Tile,
    found: bool,
    mnx: int,
    mny: int,
    mnz: int,
    mxx: int,
    mxy: int,
    mxz: int,
    cx: int,
    cy: int,
    cz: int,
) -> bool {
    &&& (found <==> exists|x: int, y: int, z: int|
        #[trigger] t.occupied_at(x, y, z) && scanned(x, y, z, cx, cy, cz))
    &&& (found ==> {
        &&& 0 <= mnx <= mxx < t.size
        &&& 0 <= mny <= mxy < t.size
        &&& 0 <= mnz <= mxz < t.size
        &&& forall|x: int, y: int, z: int|
            #[trigger] t.occupied_at(x, y, z) && scanned(x, y, z, cx, cy, cz) ==> mnx <= x <= mxx
                && mny <= y <= mxy && mnz <= z <= mxz
        &&& exists|x: int, y: int, z: int|
            #[trigger] t.occupied_at(x, y, z) && scanned(x, y, z, cx, cy, cz) && x == mnx
        &&& exists|x: int, y: int, z: int|
            #[trigger] t.occupied_at(x, y, z) && scanned(x, y, z, cx, cy, cz) && x == mxx
        &&& exists|x: int, y: int, z: int|
            #[trigger] t.occupied_at(x, y, z) && scanned(x, y, z, cx, cy, cz) && y == mny
        &&& exists|x: int, y: int, z: int|
            #[trigger] t.occupied_at(x, y, z) && scanned(x, y, z, cx, cy, cz) && y == mxy
        &&& exists|x: int, y: int, z: int|
            #[trigger] t.occupied_at(x, y, z) && scanned(x, y, z, cx, cy, cz) && z == mnz
        &&& exists|x: int, y: int, z: int|
            #[trigger] t.occupied_at(x, y, z) && scanned(x, y, z, cx, cy, cz) && z == mxz
    })
}

/// An in-range cell's row-major index lies inside the store, and every
/// partial sum on the way there stays small.
proof fn lemma_idx_bounds(t: Tile, x: int, y: int, z: int)
    by (nonlinear_arith)
    requires
        t.grid_wf(),
        t.in_bounds(x, y, z),
    ensures
        0 <= t.idx_of(x, y, z) < t.size * t.size * t.size,
        0 <= y * t.size <= t.size * t.size,
        0 <= z * t.size <= t.size * t.size,
        0 <= z * t.size * t.size <= t.size * t.size * t.size,
        t.size * t.size <= 0x100000,
        t.size * t.size * t.size <= 0x40000000,
{
}

/// The cubic cell count of a modest grid fits comfortably in a machine word.
proof fn lemma_cube_small(size: int)
    by (nonlinear_arith)
    requires
        1 <= size <= 1024,
    ensures
        size * size * size <= 0x40000000,
        size * size <= 0x100000,
{
}

/// Row-major indexing is injective over in-range cells.
proof fn lemma_idx_inject(t: Tile, x1: int, y1: int, z1: int, x2: int, y2: int, z2: int)
    by (nonlinear_arith)
    requires
        t.grid_wf(),
        t.in_bounds(x1, y1, z1),
        t.in_bounds(x2, y2, z2),
        t.idx_of(x1, y1, z1) == t.idx_of(x2, y2, z2),
    ensures
        x1 == x2 && y1 == y2 && z1 == z2,
{
}

/// The flat index of the next cell pushed in row-major z, y, x order.
proof fn lemma_row_major_bound(x: int, y: int, z: int, ns: int)
    by (nonlinear_arith)
    requires
        1 <= ns <= 1024,
        0 <= x < ns,
        0 <= y < ns,
        0 <= z < ns,
    ensures
        x + y * ns + z * ns * ns + 1 <= ns * ns * ns,
        z * ns * ns + y * ns + x == x + y * ns + z * ns * ns,
{
}

/// Row-major order agrees with the z, y, x scanning order.
proof fn lemma_row_major_order(a: int, b: int, c: int, x: int, y: int, z: int, ns: int)
    by (nonlinear_arith)
    requires
        1 <= ns <= 1024,
        0 <= a < ns,
        0 <= b < ns,
        0 <= c < ns,
        0 <= x < ns,
        0 <= y < ns,
        0 <= z < ns,
        c < z || (c == z && (b < y || (b == y && a < x))),
    ensures
        a + b * ns + c * ns * ns < x + y * ns + z * ns * ns,
{
}

/// Nearest-neighbor source indices stay inside the old grid.
proof fn lemma_scale_in_bounds(x: int, osz: int, ns: int)
    by (nonlinear_arith)
    requires
        0 <= x < ns,
        1 <= ns <= 1024,
        1 <= osz <= 1024,
    ensures
        0 <= x * osz / ns < osz,
        0 <= x * osz <= 1024 * 1024,
{
}

/// Writing one cell changes no other cell's reading.
proof fn lemma_voxel_frame(t1: Tile, t2: Tile, x: int, y: int, z: int, v: Option<(u8, u8)>)
    requires
        t1.grid_wf(),
        t1.in_bounds(x, y, z),
        t2.size == t1.size,
        t2.data@ == t1.data@.update(t1.idx_of(x, y, z), v),
    ensures
        t2.grid_wf(),
        t2.voxel_at(x, y, z) == v,
        forall|a: int, b: int, c: int|
            !(a == x && b == y && c == z) ==> #[trigger] t2.voxel_at(a, b, c) == t1.voxel_at(
                a,
                b,
                c,
            ),
{
    lemma_idx_bounds(t1, x, y, z);
    assert forall|a: int, b: int, c: int| !(a == x && b == y && c == z) implies #[trigger] t2
        .voxel_at(a, b, c) == t1.voxel_at(a, b, c) by {
        if t1.in_bounds(a, b, c) {
            lemma_idx_bounds(t1, a, b, c);
            if t1.idx_of(a, b, c) == t1.idx_of(x, y, z) {
                lemma_idx_inject(t1, a, b, c, x, y, z);
            }
        }
    }
}

/// The numerator of the parametric distance from the ray's origin to the
/// boundary of the current cell along one axis, over `axis_den` of the
/// direction component. Nonnegative whenever the cell tracks the ray.
pub open spec fn cand_num(o: int, d: int, c: int) -> int {
    if d > 0 {
        (c + 1) * (FX_ONE as int) - o
    } else {
        o - c * (FX_ONE as int)
    }
}

/// The smaller of two positive-denominator fractions; the first on ties.
pub open spec fn min2(an: int, ad: int, bn: int, bd: int) -> (int, int) {
    if an * bd <= bn * ad {
        (an, ad)
    } else {
        (bn, bd)
    }
}

/// The least parametric boundary distance over the axes the ray moves on.
/// Meaningful only when some direction component is not zero.
pub open spec fn min_frac(ro: Vec3fx, rd: Vec3fx, cx: int, cy: int, cz: int) -> (int, int) {
    let fx_ = (cand_num(ro.x as int, rd.x as int, cx), crate::misc::axis_den(rd.x as int));
    let fy = (cand_num(ro.y as int, rd.y as int, cy), crate::misc::axis_den(rd.y as int));
    let fz = (cand_num(ro.z as int, rd.z as int, cz), crate::misc::axis_den(rd.z as int));
    if rd.x != 0 {
        let m1 = fx_;
        let m2 = if rd.y != 0 {
            min2(m1.0, m1.1, fy.0, fy.1)
        } else {
            m1
        };
        if rd.z != 0 {
            min2(m2.0, m2.1, fz.0, fz.1)
        } else {
            m2
        }
    } else if rd.y != 0 {
        if rd.z != 0 {
            min2(fy.0, fy.1, fz.0, fz.1)
        } else {
            fy
        }
    } else {
        fz
    }
}

/// The step a marching ray takes along one axis: the direction's sign when
/// this axis's boundary distance equals the minimal one, else nothing.
pub open spec fn step_of(o: int, d: int, c: int, mn: int, md: int) -> int {
    if d != 0 && cand_num(o, d, c) * md == mn * crate::misc::axis_den(d) {
        if d > 0 {
            1int
        } else {
            -1int
        }
    } else {
        0int
    }
}

/// The bounded grid march: starting at a cell with an entry distance and
/// entry normal, yield the first occupied cell together with the distance
/// and normal at which it was entered, or nothing once the step budget or
/// a standstill direction runs out.
pub open spec fn tile_march(
    t: Tile,
    ro: Vec3fx,
    rd: Vec3fx,
    cx: int,
    cy: int,
    cz: int,
    dn: int,
    dd: int,
    nx: int,
    ny: int,
    nz: int,
    fuel: nat,
) -> Option<(int, int, int, int, int, int, int, int)>
    decreases fuel,
{
    if t.occupied_at(cx, cy, cz) {
        Some((cx, cy, cz, dn, dd, nx, ny, nz))
    } else if fuel == 0 || (rd.x == 0 && rd.y == 0 && rd.z == 0) {
        None
    } else {
        let m = min_frac(ro, rd, cx, cy, cz);
        let sx = step_of(ro.x as int, rd.x as int, cx, m.0, m.1);
        let sy = step_of(ro.y as int, rd.y as int, cy, m.0, m.1);
        let sz = step_of(ro.z as int, rd.z as int, cz, m.0, m.1);
        tile_march(
            t,
            ro,
            rd,
            cx + sx,
            cy + sy,
            cz + sz,
            m.0,
            m.1,
            sx,
            sy,
            sz,
            (fuel - 1) as nat,
        )
    }
}

/// What the tile's ray traversal yields: nothing without a box or when the
/// slab test rejects the box, else the march from the origin's cell with a
/// step budget of three tile edges.
pub open spec fn dda_spec(t: Tile, ray: Ray) -> Option<(int, int, int, int, int, int, int, int)> {
    match t.aabb {
        None => None,
        Some(bb) => if !crate::misc::slab_pass(ray, bb) {
            None
        } else {
            tile_march(
                t,
                ray.o,
                ray.d,
                (ray.o.x as int) / (FX_ONE as int),
                (ray.o.y as int) / (FX_ONE as int),
                (ray.o.z as int) / (FX_ONE as int),
                0,
                1,
                0,
                0,
                0,
                (3 * t.size - 1) as nat,
            )
        },
    }
}

/// How a returned hit record reflects a march result: the entered cell and
/// its payload, the entry distance rounded to fixed point, the entry
/// normal scaled to a unit vector, and the hit point on the ray at that
/// distance (displacements saturate at the coordinate budget).
pub open spec fn hit_matches_march(
    t: Tile,
    ray: Ray,
    m: (int, int, int, int, int, int, int, int),
    h: HitRecord,
) -> bool {
    &&& h.tile_key.x as int == m.0 && h.tile_key.y as int == m.1 && h.tile_key.z as int == m.2
    &&& h.distance == crate::fx::frac_to_fx(m.3, m.4)
    &&& 0 <= h.distance <= FX_BOUND
    &&& h.normal.x as int == m.5 * FX_ONE && h.normal.y as int == m.6 * FX_ONE && h.normal.z as int
        == m.7 * FX_ONE
    &&& Some(h.value) == t.voxel_at(m.0, m.1, m.2)
    &&& h.hitpoint.x == ray.o.x + crate::fx::sat_fx(
        crate::fx::fx_mul_spec(ray.d.x as int, h.distance as int),
    )
    &&& h.hitpoint.y == ray.o.y + crate::fx::sat_fx(
        crate::fx::fx_mul_spec(ray.d.y as int, h.distance as int),
    )
    &&& h.hitpoint.z == ray.o.z + crate::fx::sat_fx(
        crate::fx::fx_mul_spec(ray.d.z as int, h.distance as int),
    )
    &&& h.key == (Vec3i { x: 0i32, y: 0i32, z: 0i32 })
    &&& h.side == crate::misc::Side::Top
}


/// The preview's flat background level.
pub const PREVIEW_BG: i64 = 9412;

/// The preview's edge-highlight gray level.
pub const PREVIEW_EDGE: i64 = 30000;

/// How close, in fixed-point steps, a coordinate must come to a whole
/// voxel boundary to count as on an edge in the preview.
pub const EDGE_EPS: i64 = 5000;

/// Whether a coordinate lies within the edge margin of a voxel boundary.
pub open spec fn near_edge(v: int) -> bool {
    let f = v % (FX_ONE as int);
    f < EDGE_EPS || f > FX_ONE - EDGE_EPS
}

/// Whether a coordinate lies within the edge margin, computed.
fn near_edge_exec(v: i64) -> (r: bool)
    ensures
        r == near_edge(v as int),
{
    let f = v.checked_rem_euclid(FX_ONE).unwrap();
    f < EDGE_EPS || f > FX_ONE - EDGE_EPS
}

/// The preview's center ray through one pixel.
pub open spec fn preview_ray_spec(cam: crate::camera::Camera, px: int, py: int, w: int, h: int) -> Ray {
    crate::world::ray_of(
        cam.origin,
        cam.ray_dir_spec(
            crate::camera::uv_spec(px, py, w, h),
            (w as i64, h as i64),
            (crate::misc::FX_HALF, crate::misc::FX_HALF),
        ),
    )
}

/// The color the preview paints for a ray: the background on a miss; on a
/// hit, the base blue, darkened to the edge gray when the hit point lies
/// near a voxel boundary on either axis across the entry face.
pub open spec fn preview_color(t: Tile, ray: Ray) -> (int, int, int, int) {
    match dda_spec(t, ray) {
        None => (PREVIEW_BG as int, PREVIEW_BG as int, PREVIEW_BG as int, FX_ONE as int),
        Some(m) => {
            let dist = crate::fx::frac_to_fx(m.3, m.4);
            let hx = ray.o.x + crate::fx::sat_fx(crate::fx::fx_mul_spec(ray.d.x as int, dist));
            let hy = ray.o.y + crate::fx::sat_fx(crate::fx::fx_mul_spec(ray.d.y as int, dist));
            let hz = ray.o.z + crate::fx::sat_fx(crate::fx::fx_mul_spec(ray.d.z as int, dist));
            let edge = if m.6 != 0 {
                near_edge(hx) || near_edge(hz)
            } else if m.7 != 0 {
                near_edge(hx) || near_edge(hy)
            } else {
                near_edge(hy) || near_edge(hz)
            };
            if edge {
                (PREVIEW_EDGE as int, PREVIEW_EDGE as int, PREVIEW_EDGE as int, FX_ONE as int)
            } else {
                (0int, (FX_ONE / 2) as int, FX_ONE as int, FX_ONE as int)
            }
        },
    }
}

/// One pixel of the preview shows exactly its ray's color.
pub open spec fn preview_pixel_ok(
    t: Tile,
    pix: Seq<i64>,
    px: int,
    py: int,
    w: int,
    h: int,
) -> bool {
    let b = (py * w + px) * 4;
    let c = preview_color(t, preview_ray_spec(t.camera, px, py, w, h));
    &&& pix[b] as int == c.0
    &&& pix[b + 1] as int == c.1
    &&& pix[b + 2] as int == c.2
    &&& pix[b + 3] as int == c.3
}

/// Two distinct pixels occupy disjoint channel ranges.
pub(crate) proof fn lemma_pix_distinct(qx: int, qy: int, px: int, py: int, w: int, h: int)
    by (nonlinear_arith)
    requires
        1 <= w <= 8192,
        1 <= h <= 8192,
        0 <= qx < w,
        0 <= qy < h,
        0 <= px < w,
        0 <= py < h,
    ensures
        !(qx == px && qy == py) ==> (qy * w + qx) * 4 + 4 <= (py * w + px) * 4 || (py * w + px) * 4
            + 4 <= (qy * w + qx) * 4,
        0 <= (qy * w + qx) * 4,
        (qy * w + qx) * 4 + 4 <= w * h * 4,
{
}

/// One step of the grid march: the per-axis steps (each the direction's
/// sign or nothing) and the minimal boundary fraction that triggered them.
pub(crate) fn march_step(ray: &Ray, cx: i64, cy: i64, cz: i64) -> (r: (i64, i64, i64, i64, i64))
    requires
        ray.wf(),
        !(ray.d.x == 0 && ray.d.y == 0 && ray.d.z == 0),
        -UNIT_BOUND - 3072 <= cx <= UNIT_BOUND + 3072,
        -UNIT_BOUND - 3072 <= cy <= UNIT_BOUND + 3072,
        -UNIT_BOUND - 3072 <= cz <= UNIT_BOUND + 3072,
        ray.d.x > 0 ==> (cx + 1) * FX_ONE - ray.o.x >= 0,
        ray.d.x < 0 ==> ray.o.x - cx * FX_ONE >= 0,
        ray.d.y > 0 ==> (cy + 1) * FX_ONE - ray.o.y >= 0,
        ray.d.y < 0 ==> ray.o.y - cy * FX_ONE >= 0,
        ray.d.z > 0 ==> (cz + 1) * FX_ONE - ray.o.z >= 0,
        ray.d.z < 0 ==> ray.o.z - cz * FX_ONE >= 0,
    ensures
        r.0 as int == step_of(
            ray.o.x as int,
            ray.d.x as int,
            cx as int,
            r.3 as int,
            r.4 as int,
        ),
        r.1 as int == step_of(
            ray.o.y as int,
            ray.d.y as int,
            cy as int,
            r.3 as int,
            r.4 as int,
        ),
        r.2 as int == step_of(
            ray.o.z as int,
            ray.d.z as int,
            cz as int,
            r.3 as int,
            r.4 as int,
        ),
        (r.3 as int, r.4 as int) == min_frac(ray.o, ray.d, cx as int, cy as int, cz as int),
        -1 <= r.0 <= 1,
        -1 <= r.1 <= 1,
        -1 <= r.2 <= 1,
        0 <= r.3 <= 3 * FX_BOUND,
        1 <= r.4 <= FX_BOUND,
{
    let numx: i64 = if ray.d.x > 0 {
        (cx + 1) * FX_ONE - ray.o.x
    } else {
        ray.o.x - cx * FX_ONE
    };
    let numy: i64 = if ray.d.y > 0 {
        (cy + 1) * FX_ONE - ray.o.y
    } else {
        ray.o.y - cy * FX_ONE
    };
    let numz: i64 = if ray.d.z > 0 {
        (cz + 1) * FX_ONE - ray.o.z
    } else {
        ray.o.z - cz * FX_ONE
    };
    let denx: i64 = if ray.d.x >= 0 {
        ray.d.x
    } else {
        -ray.d.x
    };
    let deny: i64 = if ray.d.y >= 0 {
        ray.d.y
    } else {
        -ray.d.y
    };
    let denz: i64 = if ray.d.z >= 0 {
        ray.d.z
    } else {
        -ray.d.z
    };
    let mut mn: i64 = 0;
    let mut md: i64 = 1;
    if ray.d.x != 0 {
        mn = numx;
        md = denx;
        if ray.d.y != 0 {
            if !crate::misc::frac_le(mn, md, numy, deny) {
                mn = numy;
                md = deny;
            }
        }
        if ray.d.z != 0 {
            if !crate::misc::frac_le(mn, md, numz, denz) {
                mn = numz;
                md = denz;
            }
        }
    } else if ray.d.y != 0 {
        mn = numy;
        md = deny;
        if ray.d.z != 0 {
            if !crate::misc::frac_le(mn, md, numz, denz) {
                mn = numz;
                md = denz;
            }
        }
    } else {
        mn = numz;
        md = denz;
    }
    proof {
        assert(min_frac(ray.o, ray.d, cx as int, cy as int, cz as int) == (mn as int, md as int));
    }
    let sx: i64 = if ray.d.x != 0 && crate::misc::frac_eq(numx, denx, mn, md) {
        if ray.d.x > 0 {
            1
        } else {
            -1
        }
    } else {
        0
    };
    let sy: i64 = if ray.d.y != 0 && crate::misc::frac_eq(numy, deny, mn, md) {
        if ray.d.y > 0 {
            1
        } else {
            -1
        }
    } else {
        0
    };
    let sz: i64 = if ray.d.z != 0 && crate::misc::frac_eq(numz, denz, mn, md) {
        if ray.d.z > 0 {
            1
        } else {
            -1
        }
    } else {
        0
    };
    (sx, sy, sz, mn, md)
}

impl Clone for Tile {
    /// A deep copy: the same grid, box and camera.
    fn clone(&self) -> (r: Tile)
        ensures
            r.camera == self.camera,
            r.size == self.size,
            r.data@ == self.data@,
            r.aabb == self.aabb,
    {
        let mut data: Vec<Option<(u8, u8)>> = Vec::new();
        let mut i: usize = 0;
        while i < self.data.len()
            invariant
                i <= self.data@.len(),
                data@.len() == i,
                forall|j: int| 0 <= j < i ==> data@[j] == self.data@[j],
            decreases self.data@.len() - i,
        {
            data.push(self.data[i]);
            i = i + 1;
        }
        proof {
            assert(data@ =~= self.data@);
        }
        Tile { camera: self.camera, size: self.size, data, aabb: self.aabb }
    }
}

/// Law: a tile whose only occupied cell is `(a, b, c)` carries, once its
/// box is tight, exactly that cell's unit cube as its box.
pub proof fn lemma_single_voxel_aabb(t: Tile, a: int, b: int, c: int)
    requires
        t.grid_wf(),
        has_tight_aabb(t),
        t.occupied_at(a, b, c),
        forall|x: int, y: int, z: int| #[trigger] t.occupied_at(x, y, z) ==> x == a && y == b && z
            == c,
    ensures
        t.aabb matches Some(bb) && bb.min.x == a * FX_ONE && bb.min.y == b * FX_ONE && bb.min.z
            == c * FX_ONE && bb.max.x == (a + 1) * FX_ONE && bb.max.y == (b + 1) * FX_ONE
            && bb.max.z == (c + 1) * FX_ONE,
{
    assert(t.aabb is Some);
    let bb = t.aabb.unwrap();
    let w1 = choose|x: int, y: int, z: int| #[trigger] t.occupied_at(x, y, z) && x * FX_ONE
        == bb.min.x;
    assert(w1.0 == a && bb.min.x == a * FX_ONE);
    let w2 = choose|x: int, y: int, z: int| #[trigger] t.occupied_at(x, y, z) && (x + 1) * FX_ONE
        == bb.max.x;
    assert(w2.0 == a && bb.max.x == (a + 1) * FX_ONE);
    let w3 = choose|x: int, y: int, z: int| #[trigger] t.occupied_at(x, y, z) && y * FX_ONE
        == bb.min.y;
    assert(w3.1 == b && bb.min.y == b * FX_ONE);
    let w4 = choose|x: int, y: int, z: int| #[trigger] t.occupied_at(x, y, z) && (y + 1) * FX_ONE
        == bb.max.y;
    assert(w4.1 == b && bb.max.y == (b + 1) * FX_ONE);
    let w5 = choose|x: int, y: int, z: int| #[trigger] t.occupied_at(x, y, z) && z * FX_ONE
        == bb.min.z;
    assert(w5.2 == c && bb.min.z == c * FX_ONE);
    let w6 = choose|x: int, y: int, z: int| #[trigger] t.occupied_at(x, y, z) && (z + 1) * FX_ONE
        == bb.max.z;
    assert(w6.2 == c && bb.max.z == (c + 1) * FX_ONE);
}

/// Law: writing a voxel in bounds and reading the same coordinates back
/// yields exactly the written value, and no other cell changes.
pub proof fn lemma_set_then_get(
    t_old: Tile,
    t_new: Tile,
    x: int,
    y: int,
    z: int,
    v: Option<(u8, u8)>,
)
    requires
        t_old.grid_wf(),
        t_old.in_bounds(x, y, z),
        t_new.size == t_old.size,
        t_new.data@ == t_old.data@.update(t_old.idx_of(x, y, z), v),
    ensures
        t_new.voxel_at(x, y, z) == v,
        forall|a: int, b: int, c: int|
            !(a == x && b == y && c == z) ==> #[trigger] t_new.voxel_at(a, b, c) == t_old.voxel_at(
                a,
                b,
                c,
            ),
{
    lemma_voxel_frame(t_old, t_new, x, y, z, v);
}

} // verus!
