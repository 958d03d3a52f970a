use vstd::prelude::*;

verus! {

use crate::FX_BOUND;
use crate::misc::Ray;
use crate::vec3::Vec3fx;

/// Distance, in fixed-point units, from a focused tile's center to the eye
/// position that `compute_orbit` selects.
pub const ORBIT_BACK: i64 = 200000;

/// Height, in fixed-point units, of the orbiting eye above the center.
pub const ORBIT_UP: i64 = 100000;

/// A pinhole camera: an eye position, the point it looks at, and a linear
/// field-of-view factor (image-plane half-width per unit of focal depth,
/// in hundredths of a unit).
#[derive(Clone, Copy, Debug, PartialEq, Eq, Structural)]
pub struct Camera {
    pub origin: Vec3fx,
    pub center: Vec3fx,
    pub fov: i64,
}

impl Camera {
    /// The camera stays inside the shared coordinate budget, with room for
    /// the orbit offsets, and looks at a point distinct from its eye.
    pub open spec fn wf(self) -> bool {
        -FX_BOUND / 2 <= self.origin.x <= FX_BOUND / 2 && -FX_BOUND / 2 <= self.origin.y
            <= FX_BOUND / 2 && -FX_BOUND / 2 <= self.origin.z <= FX_BOUND / 2 && -FX_BOUND / 2
            <= self.center.x <= FX_BOUND / 2 && -FX_BOUND / 2 <= self.center.y <= FX_BOUND / 2
            && -FX_BOUND / 2 <= self.center.z <= FX_BOUND / 2 && 0 < self.fov <= 200 * crate::FX_ONE
            && self.origin != self.center
    }

    pub fn new(origin: Vec3fx, center: Vec3fx, fov: i64) -> (r: Camera)
        ensures
            r == (Camera { origin, center, fov }),
    {
        Camera { origin, center, fov }
    }

    /// Re-seat the eye on its standing orbit around the center: behind it in
    /// depth, above it in height, displaced sideways by the given offset.
    pub fn compute_orbit(&mut self, offset: (i64, i64))
        requires
            -FX_BOUND / 4 <= old(self).center.x <= FX_BOUND / 4,
            -FX_BOUND / 4 <= old(self).center.y <= FX_BOUND / 4,
            -FX_BOUND / 4 <= old(self).center.z <= FX_BOUND / 4,
            -FX_BOUND / 8 <= offset.0 <= FX_BOUND / 8,
            -FX_BOUND / 8 <= offset.1 <= FX_BOUND / 8,
        ensures
            final(self).center == old(self).center,
            final(self).fov == old(self).fov,
            final(self).origin.x == old(self).center.x + offset.0,
            final(self).origin.y == old(self).center.y + ORBIT_UP + offset.1,
            final(self).origin.z == old(self).center.z + ORBIT_BACK,
    {
        self.origin = Vec3fx {
            x: self.center.x + offset.0,
            y: self.center.y + ORBIT_UP + offset.1,
            z: self.center.z + ORBIT_BACK,
        };
    }
}

/// Distance, in fixed-point units, that the isometric eye pulls back from
/// the image-plane point along the view direction.
pub const ISO_BACK: i64 = 1000000;

impl Camera {
    /// The camera's frame: unit view direction, unit right axis (a fixed
    /// one when the view is vertical), and the up axis completing them.
    pub open spec fn frame_spec(self) -> (Vec3fx, Vec3fx, Vec3fx) {
        let fwd = normalize_spec(
            Vec3fx {
                x: (self.center.x - self.origin.x) as i64,
                y: (self.center.y - self.origin.y) as i64,
                z: (self.center.z - self.origin.z) as i64,
            },
        );
        let rn = normalize_spec(cross_spec(fwd, Vec3fx { x: 0i64, y: crate::FX_ONE as i64, z: 0i64 }));
        let right = if rn == (Vec3fx { x: 0i64, y: 0i64, z: 0i64 }) {
            Vec3fx { x: crate::FX_ONE as i64, y: 0i64, z: 0i64 }
        } else {
            rn
        };
        let up2 = cross_spec(right, fwd);
        (fwd, right, up2)
    }

    /// The image-plane offsets of a pixel: its coordinates centered, the
    /// jitter spread over one pixel, the horizontal one scaled by the
    /// field of view and the aspect ratio, the vertical one by the field
    /// of view alone.
    pub open spec fn plane_offsets_spec(
        self,
        uv: (i64, i64),
        screen: (i64, i64),
        off: (i64, i64),
    ) -> (int, int) {
        let u = uv.0 + (off.0 - crate::misc::FX_HALF) / (screen.0 as int) - crate::misc::FX_HALF;
        let v = uv.1 + (off.1 - crate::misc::FX_HALF) / (screen.1 as int) - crate::misc::FX_HALF;
        let sfov = (self.fov as int) / 100;
        let aspect = (screen.0 as int) * (crate::FX_ONE as int) / (screen.1 as int);
        (
            crate::fx::fx_mul_spec(crate::fx::fx_mul_spec(u, sfov), aspect),
            crate::fx::fx_mul_spec(v, sfov),
        )
    }

    /// The direction of the primary ray through a pixel: the view
    /// direction plus the image-plane offsets along the frame's axes.
    pub open spec fn ray_dir_spec(self, uv: (i64, i64), screen: (i64, i64), off: (i64, i64)) -> Vec3fx {
        let fr = self.frame_spec();
        let pl = self.plane_offsets_spec(uv, screen, off);
        Vec3fx {
            x: (fr.0.x + crate::fx::fx_mul_spec(fr.1.x as int, pl.0) + crate::fx::fx_mul_spec(
                fr.2.x as int,
                pl.1,
            )) as i64,
            y: (fr.0.y + crate::fx::fx_mul_spec(fr.1.y as int, pl.0) + crate::fx::fx_mul_spec(
                fr.2.y as int,
                pl.1,
            )) as i64,
            z: (fr.0.z + crate::fx::fx_mul_spec(fr.1.z as int, pl.0) + crate::fx::fx_mul_spec(
                fr.2.z as int,
                pl.1,
            )) as i64,
        }
    }

    /// The eye position of the isometric ray through a pixel: the center
    /// displaced along the frame's axes by the image-plane offsets, pulled
    /// back along the view direction.
    pub open spec fn iso_origin_spec(self, uv: (i64, i64), screen: (i64, i64), off: (i64, i64)) -> Vec3fx {
        let fr = self.frame_spec();
        let pl = self.plane_offsets_spec(uv, screen, off);
        Vec3fx {
            x: (self.center.x + crate::fx::fx_mul_spec(fr.1.x as int, pl.0)
                + crate::fx::fx_mul_spec(fr.2.x as int, pl.1) - crate::fx::fx_mul_spec(
                fr.0.x as int,
                ISO_BACK as int,
            )) as i64,
            y: (self.center.y + crate::fx::fx_mul_spec(fr.1.y as int, pl.0)
                + crate::fx::fx_mul_spec(fr.2.y as int, pl.1) - crate::fx::fx_mul_spec(
                fr.0.y as int,
                ISO_BACK as int,
            )) as i64,
            z: (self.center.z + crate::fx::fx_mul_spec(fr.1.z as int, pl.0)
                + crate::fx::fx_mul_spec(fr.2.z as int, pl.1) - crate::fx::fx_mul_spec(
                fr.0.z as int,
                ISO_BACK as int,
            )) as i64,
        }
    }

    /// The camera's frame, computed.
    fn frame(&self) -> (r: (Vec3fx, Vec3fx, Vec3fx))
        requires
            self.wf(),
        ensures
            r == self.frame_spec(),
            -crate::FX_ONE <= r.0.x <= crate::FX_ONE,
            -crate::FX_ONE <= r.0.y <= crate::FX_ONE,
            -crate::FX_ONE <= r.0.z <= crate::FX_ONE,
            -crate::FX_ONE <= r.1.x <= crate::FX_ONE,
            -crate::FX_ONE <= r.1.y <= crate::FX_ONE,
            -crate::FX_ONE <= r.1.z <= crate::FX_ONE,
            -32 * crate::FX_ONE <= r.2.x <= 32 * crate::FX_ONE,
            -32 * crate::FX_ONE <= r.2.y <= 32 * crate::FX_ONE,
            -32 * crate::FX_ONE <= r.2.z <= 32 * crate::FX_ONE,
    {
        let fwd = normalize(
            Vec3fx {
                x: self.center.x - self.origin.x,
                y: self.center.y - self.origin.y,
                z: self.center.z - self.origin.z,
            },
        );
        let rn = normalize(cross(fwd, Vec3fx { x: 0, y: crate::FX_ONE, z: 0 }));
        let right = if rn.x == 0 && rn.y == 0 && rn.z == 0 {
            Vec3fx { x: crate::FX_ONE, y: 0, z: 0 }
        } else {
            rn
        };
        let up2 = cross(right, fwd);
        (fwd, right, up2)
    }

    /// The image-plane offsets of a pixel, computed.
    fn plane_offsets(&self, uv: (i64, i64), screen: (i64, i64), off: (i64, i64)) -> (r: (i64, i64))
        requires
            self.wf(),
            0 <= uv.0 <= crate::FX_ONE,
            0 <= uv.1 <= crate::FX_ONE,
            1 <= screen.0 <= 8192,
            1 <= screen.1 <= 8192,
            0 <= off.0 <= crate::FX_ONE,
            0 <= off.1 <= crate::FX_ONE,
        ensures
            (r.0 as int, r.1 as int) == self.plane_offsets_spec(uv, screen, off),
            -3300000000 <= r.0 as int <= 3300000000,
            -400000 <= r.1 as int <= 400000,
    {
        proof {
            assert(-crate::FX_ONE <= (off.0 - crate::misc::FX_HALF) / (screen.0 as int)
                <= crate::FX_ONE) by (nonlinear_arith)
                requires
                    -crate::FX_ONE <= off.0 - crate::misc::FX_HALF <= crate::FX_ONE,
                    screen.0 as int >= 1,
            ;
            assert(-crate::FX_ONE <= (off.1 - crate::misc::FX_HALF) / (screen.1 as int)
                <= crate::FX_ONE) by (nonlinear_arith)
                requires
                    -crate::FX_ONE <= off.1 - crate::misc::FX_HALF <= crate::FX_ONE,
                    screen.1 as int >= 1,
            ;
        }
        let ju = (off.0 - crate::misc::FX_HALF).checked_div_euclid(screen.0).unwrap();
        let jv = (off.1 - crate::misc::FX_HALF).checked_div_euclid(screen.1).unwrap();
        let u = uv.0 + ju - crate::misc::FX_HALF;
        let v = uv.1 + jv - crate::misc::FX_HALF;
        let sfov = self.fov / 100;
        let aspect = (screen.0 * crate::FX_ONE).checked_div_euclid(screen.1).unwrap();
        proof {
            assert(0 < aspect as int <= 8192 * (crate::FX_ONE as int)) by (nonlinear_arith)
                requires
                    aspect as int == (screen.0 as int) * (crate::FX_ONE as int) / (
                    screen.1 as int),
                    1 <= screen.0 as int <= 8192,
                    1 <= screen.1 as int <= 8192,
                    crate::FX_ONE == 100000,
            ;
            lemma_mul_fits(u as int, sfov as int, 200000, 200000);
        }
        let t = crate::fx::fx_mul(u, sfov);
        proof {
            assert(-400000 <= t as int <= 400000) by (nonlinear_arith)
                requires
                    t as int == (u as int) * (sfov as int) / (crate::FX_ONE as int),
                    -200000 <= u as int <= 200000,
                    0 <= sfov as int <= 200000,
                    crate::FX_ONE == 100000,
            ;
            lemma_mul_fits(t as int, aspect as int, 400000, 819200000);
            lemma_mul_fits(v as int, sfov as int, 200000, 200000);
        }
        let du = crate::fx::fx_mul(t, aspect);
        let dv = crate::fx::fx_mul(v, sfov);
        proof {
            assert(-3300000000 <= du as int <= 3300000000) by (nonlinear_arith)
                requires
                    du as int == (t as int) * (aspect as int) / (crate::FX_ONE as int),
                    -400000 <= t as int <= 400000,
                    0 < aspect as int <= 819200000,
                    crate::FX_ONE == 100000,
            ;
            assert(-400000 <= dv as int <= 400000) by (nonlinear_arith)
                requires
                    dv as int == (v as int) * (sfov as int) / (crate::FX_ONE as int),
                    -200000 <= v as int <= 200000,
                    0 <= sfov as int <= 200000,
                    crate::FX_ONE == 100000,
            ;
        }
        (du, dv)
    }

    /// The perspective primary ray through a pixel: from the eye, along
    /// the view direction offset on the image plane, jittered inside the
    /// pixel.
    pub fn create_ray(&self, uv: (i64, i64), screen: (i64, i64), off: (i64, i64)) -> (r: Ray)
        requires
            self.wf(),
            0 <= uv.0 <= crate::FX_ONE,
            0 <= uv.1 <= crate::FX_ONE,
            1 <= screen.0 <= 8192,
            1 <= screen.1 <= 8192,
            0 <= off.0 <= crate::FX_ONE,
            0 <= off.1 <= crate::FX_ONE,
        ensures
            r.o == self.origin,
            r.d == self.ray_dir_spec(uv, screen, off),
            r.wf(),
    {
        let fr = self.frame();
        let pl = self.plane_offsets(uv, screen, off);
        let d = Vec3fx {
            x: fr.0.x + axis_term(fr.1.x, pl.0) + axis_term(fr.2.x, pl.1),
            y: fr.0.y + axis_term(fr.1.y, pl.0) + axis_term(fr.2.y, pl.1),
            z: fr.0.z + axis_term(fr.1.z, pl.0) + axis_term(fr.2.z, pl.1),
        };
        Ray::new(self.origin, d)
    }

    /// The isometric primary ray through a pixel: always along the view
    /// direction, from an eye displaced on the image plane.
    pub fn create_iso_ray(&self, uv: (i64, i64), screen: (i64, i64), off: (i64, i64)) -> (r: Ray)
        requires
            self.wf(),
            0 <= uv.0 <= crate::FX_ONE,
            0 <= uv.1 <= crate::FX_ONE,
            1 <= screen.0 <= 8192,
            1 <= screen.1 <= 8192,
            0 <= off.0 <= crate::FX_ONE,
            0 <= off.1 <= crate::FX_ONE,
        ensures
            r.o == self.iso_origin_spec(uv, screen, off),
            r.d == self.frame_spec().0,
            r.wf(),
    {
        let fr = self.frame();
        let pl = self.plane_offsets(uv, screen, off);
        proof {
            lemma_mul_fits(fr.0.x as int, ISO_BACK as int, 100000, 1000000);
            lemma_mul_fits(fr.0.y as int, ISO_BACK as int, 100000, 1000000);
            lemma_mul_fits(fr.0.z as int, ISO_BACK as int, 100000, 1000000);
        }
        let o = Vec3fx {
            x: self.center.x + axis_term(fr.1.x, pl.0) + axis_term(fr.2.x, pl.1) - crate::fx::fx_mul(
                fr.0.x,
                ISO_BACK,
            ),
            y: self.center.y + axis_term(fr.1.y, pl.0) + axis_term(fr.2.y, pl.1) - crate::fx::fx_mul(
                fr.0.y,
                ISO_BACK,
            ),
            z: self.center.z + axis_term(fr.1.z, pl.0) + axis_term(fr.2.z, pl.1) - crate::fx::fx_mul(
                fr.0.z,
                ISO_BACK,
            ),
        };
        Ray::new(o, fr.0)
    }

    /// The orbit-view primary ray: the perspective ray from the orbiting
    /// eye that `compute_orbit` placed.
    pub fn create_orbit_ray(&self, uv: (i64, i64), screen: (i64, i64), off: (i64, i64)) -> (r: Ray)
        requires
            self.wf(),
            0 <= uv.0 <= crate::FX_ONE,
            0 <= uv.1 <= crate::FX_ONE,
            1 <= screen.0 <= 8192,
            1 <= screen.1 <= 8192,
            0 <= off.0 <= crate::FX_ONE,
            0 <= off.1 <= crate::FX_ONE,
        ensures
            r.o == self.origin,
            r.d == self.ray_dir_spec(uv, screen, off),
            r.wf(),
    {
        self.create_ray(uv, screen, off)
    }
}

/// One image-plane term of a ray direction: a frame axis component scaled
/// by a plane offset.
fn axis_term(c: i64, o: i64) -> (r: i64)
    requires
        -3200000 <= c <= 3200000,
        -3300000000 <= o <= 3300000000,
    ensures
        r == crate::fx::fx_mul_spec(c as int, o as int),
        -105600000000 <= r <= 105600000000,
{
    proof {
        lemma_mul_fits(c as int, o as int, 3200000, 3300000000);
        assert(-105600000000 <= (c as int) * (o as int) / (crate::FX_ONE as int) <= 105600000000)
            by (nonlinear_arith)
            requires
                -3200000 <= c as int <= 3200000,
                -3300000000 <= o as int <= 3300000000,
                crate::FX_ONE == 100000,
        ;
    }
    crate::fx::fx_mul(c, o)
}

/// A product of bounded scalars stays inside the range that fixed-point
/// multiplication accepts.
pub proof fn lemma_mul_fits(a: int, b: int, ma: int, mb: int)
    by (nonlinear_arith)
    requires
        -ma <= a <= ma,
        -mb <= b <= mb,
        0 <= ma,
        0 <= mb,
        ma * mb <= 100000000000000000,
    ensures
        -(crate::FX_BOUND as int) * (crate::FX_ONE as int) <= a * b < ((crate::FX_BOUND + 1) as int)
            * (crate::FX_ONE as int),
{
}

/// The texture coordinates of one pixel of a screen: its column scaled
/// into `[0, 1)` and its row flipped so that the bottom row maps to zero,
/// as every render loop of this crate derives them.
pub open spec fn uv_spec(px: int, py: int, w: int, h: int) -> (i64, i64) {
    (
        (px * (crate::FX_ONE as int) / w) as i64,
        (crate::FX_ONE - (py + 1) * (crate::FX_ONE as int) / h) as i64,
    )
}

/// Length of a vector, floored to fixed point.
pub open spec fn vlen_spec(v: Vec3fx) -> int {
    crate::fx::sqrt_floor(
        crate::fx::sq(v.x as int) + crate::fx::sq(v.y as int) + crate::fx::sq(v.z as int),
    )
}

/// A vector scaled to unit length (componentwise floor); the zero vector
/// stays zero.
pub open spec fn normalize_spec(v: Vec3fx) -> Vec3fx {
    let l = vlen_spec(v);
    if l == 0 {
        Vec3fx { x: 0i64, y: 0i64, z: 0i64 }
    } else {
        Vec3fx {
            x: crate::fx::fx_div_spec(v.x as int, l) as i64,
            y: crate::fx::fx_div_spec(v.y as int, l) as i64,
            z: crate::fx::fx_div_spec(v.z as int, l) as i64,
        }
    }
}

/// The cross product of two short vectors.
pub open spec fn cross_spec(a: Vec3fx, b: Vec3fx) -> Vec3fx {
    Vec3fx {
        x: (crate::fx::fx_mul_spec(a.y as int, b.z as int) - crate::fx::fx_mul_spec(
            a.z as int,
            b.y as int,
        )) as i64,
        y: (crate::fx::fx_mul_spec(a.z as int, b.x as int) - crate::fx::fx_mul_spec(
            a.x as int,
            b.z as int,
        )) as i64,
        z: (crate::fx::fx_mul_spec(a.x as int, b.y as int) - crate::fx::fx_mul_spec(
            a.y as int,
            b.x as int,
        )) as i64,
    }
}

/// Scale a vector to unit length; the zero vector stays zero.
pub fn normalize(v: Vec3fx) -> (r: Vec3fx)
    requires
        v.wf(),
    ensures
        r == normalize_spec(v),
        -crate::FX_ONE <= r.x <= crate::FX_ONE,
        -crate::FX_ONE <= r.y <= crate::FX_ONE,
        -crate::FX_ONE <= r.z <= crate::FX_ONE,
{
    let ax: i64 = if v.x >= 0 {
        v.x
    } else {
        -v.x
    };
    let ay: i64 = if v.y >= 0 {
        v.y
    } else {
        -v.y
    };
    let az: i64 = if v.z >= 0 {
        v.z
    } else {
        -v.z
    };
    let n: u128 = crate::sdf3d::sq_u128(ax) + crate::sdf3d::sq_u128(ay) + crate::sdf3d::sq_u128(az);
    proof {
        assert(crate::fx::sq(ax as int) == crate::fx::sq(v.x as int) && crate::fx::sq(ay as int)
            == crate::fx::sq(v.y as int) && crate::fx::sq(az as int) == crate::fx::sq(v.z as int))
            by (nonlinear_arith)
            requires
                ax as int == crate::fx::iabs(v.x as int),
                ay as int == crate::fx::iabs(v.y as int),
                az as int == crate::fx::iabs(v.z as int),
        ;
    }
    let l = crate::fx::isqrt_u128(n);
    proof {
        crate::fx::lemma_sqrt_floor(n as int, l as int);
    }
    if l == 0 {
        Vec3fx { x: 0, y: 0, z: 0 }
    } else {
        proof {
            assert(l as int <= 2000000000000) by (nonlinear_arith)
                requires
                    crate::fx::is_isqrt(n as int, l as int),
                    n as int == crate::fx::sq(v.x as int) + crate::fx::sq(v.y as int)
                        + crate::fx::sq(v.z as int),
                    -FX_BOUND <= v.x as int <= FX_BOUND,
                    -FX_BOUND <= v.y as int <= FX_BOUND,
                    -FX_BOUND <= v.z as int <= FX_BOUND,
                    FX_BOUND == 1000000000000i64,
            ;
            lemma_component_below_length(v.x as int, n as int, l as int);
            lemma_component_below_length(v.y as int, n as int, l as int);
            lemma_component_below_length(v.z as int, n as int, l as int);
        }
        Vec3fx {
            x: crate::fx::fx_div(v.x, l as i64),
            y: crate::fx::fx_div(v.y, l as i64),
            z: crate::fx::fx_div(v.z, l as i64),
        }
    }
}

/// No component of a vector exceeds the vector's length, so dividing a
/// component by the length lands within one unit.
proof fn lemma_component_below_length(c: int, n: int, l: int)
    by (nonlinear_arith)
    requires
        crate::fx::is_isqrt(n, l),
        n >= crate::fx::sq(c),
        l >= 1,
    ensures
        -(crate::FX_ONE as int) <= c * crate::FX_ONE / l <= crate::FX_ONE as int,
        -(crate::FX_BOUND as int) <= c * crate::FX_ONE / l <= crate::FX_BOUND as int,
{
    assert(-l <= c <= l);
}

/// The cross product of two short vectors.
pub fn cross(a: Vec3fx, b: Vec3fx) -> (r: Vec3fx)
    requires
        -4 * crate::FX_ONE <= a.x <= 4 * crate::FX_ONE,
        -4 * crate::FX_ONE <= a.y <= 4 * crate::FX_ONE,
        -4 * crate::FX_ONE <= a.z <= 4 * crate::FX_ONE,
        -4 * crate::FX_ONE <= b.x <= 4 * crate::FX_ONE,
        -4 * crate::FX_ONE <= b.y <= 4 * crate::FX_ONE,
        -4 * crate::FX_ONE <= b.z <= 4 * crate::FX_ONE,
    ensures
        r == cross_spec(a, b),
        -32 * crate::FX_ONE <= r.x <= 32 * crate::FX_ONE,
        -32 * crate::FX_ONE <= r.y <= 32 * crate::FX_ONE,
        -32 * crate::FX_ONE <= r.z <= 32 * crate::FX_ONE,
{
    proof {
        lemma_short_product(a.y as int, b.z as int);
        lemma_short_product(a.z as int, b.y as int);
        lemma_short_product(a.z as int, b.x as int);
        lemma_short_product(a.x as int, b.z as int);
        lemma_short_product(a.x as int, b.y as int);
        lemma_short_product(a.y as int, b.x as int);
    }
    Vec3fx {
        x: crate::fx::fx_mul(a.y, b.z) - crate::fx::fx_mul(a.z, b.y),
        y: crate::fx::fx_mul(a.z, b.x) - crate::fx::fx_mul(a.x, b.z),
        z: crate::fx::fx_mul(a.x, b.y) - crate::fx::fx_mul(a.y, b.x),
    }
}

/// The scaled product of two short scalars stays short.
proof fn lemma_short_product(a: int, b: int)
    by (nonlinear_arith)
    requires
        -4 * crate::FX_ONE <= a <= 4 * crate::FX_ONE,
        -4 * crate::FX_ONE <= b <= 4 * crate::FX_ONE,
    ensures
        -(crate::FX_BOUND as int) * (crate::FX_ONE as int) <= a * b <= (crate::FX_BOUND as int) * (
        crate::FX_ONE as int),
        -16 * (crate::FX_ONE as int) <= a * b / (crate::FX_ONE as int) <= 16 * (
        crate::FX_ONE as int),
{
}

} // verus!
