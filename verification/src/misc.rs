use vstd::prelude::*;

verus! {

use crate::{FX_ONE, FX_BOUND};
use crate::vec3::{Vec3fx, Vec3i};
use crate::fx::{fx_div_spec, fx_div, fx_frac, fx_mul_spec, fx_wf};

/// Half a unit, in fixed-point steps; the threshold that picks a hit side.
pub const FX_HALF: i64 = 50000;

/// An axis-aligned box between two corners, `min` componentwise below `max`.
#[derive(Clone, Copy, Debug, PartialEq, Eq, Structural)]
pub struct AABB {
    pub min: Vec3fx,
    pub max: Vec3fx,
}

impl AABB {
    pub open spec fn wf(self) -> bool {
        self.min.wf() && self.max.wf() && self.min.x <= self.max.x && self.min.y <= self.max.y
            && self.min.z <= self.max.z
    }

    /// Extent of the box along each axis.
    pub fn get_size(&self) -> (r: Vec3fx)
        requires
            self.wf(),
        ensures
            r.x == self.max.x - self.min.x,
            r.y == self.max.y - self.min.y,
            r.z == self.max.z - self.min.z,
    {
        Vec3fx {
            x: self.max.x - self.min.x,
            y: self.max.y - self.min.y,
            z: self.max.z - self.min.z,
        }
    }
}

/// A ray with its origin, direction, reciprocal direction and per-axis
/// direction signs. A zero direction component has no reciprocal; the
/// largest scalar stands in for its unbounded value.
#[derive(Clone, Copy, Debug, PartialEq, Eq, Structural)]
pub struct Ray {
    pub o: Vec3fx,
    pub d: Vec3fx,
    pub inv_direction: Vec3fx,
    pub sign_x: usize,
    pub sign_y: usize,
    pub sign_z: usize,
}

/// The stored reciprocal of one direction component.
pub open spec fn inv_of(d: i64) -> int {
    if d == 0 {
        i64::MAX as int
    } else {
        fx_div_spec(FX_ONE as int, d as int)
    }
}

/// The stored sign flag of one direction component: set exactly when the
/// component is negative.
pub open spec fn sign_of(d: i64) -> int {
    if d < 0 {
        1
    } else {
        0
    }
}

impl Ray {
    pub open spec fn wf(self) -> bool {
        self.o.wf() && self.d.wf() && self.inv_direction.x == inv_of(self.d.x)
            && self.inv_direction.y == inv_of(self.d.y) && self.inv_direction.z == inv_of(self.d.z)
            && self.sign_x == sign_of(self.d.x) && self.sign_y == sign_of(self.d.y)
            && self.sign_z == sign_of(self.d.z)
    }

    pub fn new(o: Vec3fx, d: Vec3fx) -> (r: Ray)
        requires
            o.wf(),
            d.wf(),
        ensures
            r.o == o,
            r.d == d,
            r.wf(),
    {
        Ray {
            o,
            d,
            inv_direction: Vec3fx {
                x: inv_component(d.x),
                y: inv_component(d.y),
                z: inv_component(d.z),
            },
            sign_x: if d.x < 0 {
                1
            } else {
                0
            },
            sign_y: if d.y < 0 {
                1
            } else {
                0
            },
            sign_z: if d.z < 0 {
                1
            } else {
                0
            },
        }
    }

    /// The position on the ray at the given distance.
    pub fn at(&self, d: i64) -> (r: Vec3fx)
        requires
            self.wf(),
            fx_wf(d),
            -FX_BOUND <= fx_mul_spec(self.d.x as int, d as int) <= FX_BOUND,
            -FX_BOUND <= fx_mul_spec(self.d.y as int, d as int) <= FX_BOUND,
            -FX_BOUND <= fx_mul_spec(self.d.z as int, d as int) <= FX_BOUND,
            -FX_BOUND <= self.o.x + fx_mul_spec(self.d.x as int, d as int) <= FX_BOUND,
            -FX_BOUND <= self.o.y + fx_mul_spec(self.d.y as int, d as int) <= FX_BOUND,
            -FX_BOUND <= self.o.z + fx_mul_spec(self.d.z as int, d as int) <= FX_BOUND,
        ensures
            r.x == self.o.x + fx_mul_spec(self.d.x as int, d as int),
            r.y == self.o.y + fx_mul_spec(self.d.y as int, d as int),
            r.z == self.o.z + fx_mul_spec(self.d.z as int, d as int),
            r.wf(),
    {
        proof {
            lemma_fx_product_in_budget(self.d.x as int, d as int);
            lemma_fx_product_in_budget(self.d.y as int, d as int);
            lemma_fx_product_in_budget(self.d.z as int, d as int);
        }
        let sx = crate::fx::fx_mul(self.d.x, d);
        let sy = crate::fx::fx_mul(self.d.y, d);
        let sz = crate::fx::fx_mul(self.d.z, d);
        Vec3fx { x: self.o.x + sx, y: self.o.y + sy, z: self.o.z + sz }
    }
}

/// Two coordinates in budget keep their raw product inside the range that
/// fixed-point multiplication accepts.
pub proof fn lemma_fx_product_in_budget(a: int, b: int)
    by (nonlinear_arith)
    requires
        -FX_BOUND <= a <= FX_BOUND,
        -FX_BOUND <= b <= FX_BOUND,
        -FX_BOUND <= (a * b) / (FX_ONE as int) <= FX_BOUND,
    ensures
        -(FX_BOUND as int) * (FX_ONE as int) <= a * b < ((FX_BOUND + 1) as int) * (FX_ONE as int),
{
    assert((a * b) / (FX_ONE as int) * (FX_ONE as int) <= a * b
        < (a * b) / (FX_ONE as int) * (FX_ONE as int) + FX_ONE);
}

/// Reciprocal of one direction component, with the sentinel for zero.
fn inv_component(d: i64) -> (r: i64)
    requires
        fx_wf(d),
    ensures
        r == inv_of(d),
{
    if d == 0 {
        i64::MAX
    } else {
        proof {
            assert(-FX_BOUND <= (FX_ONE * FX_ONE) / (d as int) <= FX_BOUND) by (nonlinear_arith)
                requires
                    d != 0,
                    -FX_BOUND <= d as int <= FX_BOUND,
                    FX_ONE == 100000,
                    FX_BOUND == 1000000000000i64,
            ;
        }
        fx_div(FX_ONE, d)
    }
}

/// Parametric distance to the near face of one axis slab, as the fraction
/// `axis_near / axis_den`; meaningful only when the direction component is
/// not zero.
pub open spec fn axis_near(o: int, d: int, lo: int, hi: int) -> int {
    if d > 0 {
        lo - o
    } else {
        o - hi
    }
}

/// Parametric distance to the far face of one axis slab, as the fraction
/// `axis_far / axis_den`.
pub open spec fn axis_far(o: int, d: int, lo: int, hi: int) -> int {
    if d > 0 {
        hi - o
    } else {
        o - lo
    }
}

/// The positive denominator of one axis's parametric distances.
pub open spec fn axis_den(d: int) -> int {
    if d >= 0 {
        d
    } else {
        -d
    }
}

/// The slab test, in exact arithmetic: a ray reaches a box exactly when
/// every axis parallel to the ray starts inside its slab, no slab is
/// exited before the ray's origin, and no slab is entered after another
/// is exited. Fractions with the positive denominators `axis_den` are
/// compared by cross-multiplication, so no division is involved.
pub open spec fn slab_pass(r: Ray, bb: AABB) -> bool {
    &&& (r.d.x == 0 ==> bb.min.x <= r.o.x <= bb.max.x)
    &&& (r.d.y == 0 ==> bb.min.y <= r.o.y <= bb.max.y)
    &&& (r.d.z == 0 ==> bb.min.z <= r.o.z <= bb.max.z)
    &&& (r.d.x != 0 ==> axis_far(r.o.x as int, r.d.x as int, bb.min.x as int, bb.max.x as int) >= 0)
    &&& (r.d.y != 0 ==> axis_far(r.o.y as int, r.d.y as int, bb.min.y as int, bb.max.y as int) >= 0)
    &&& (r.d.z != 0 ==> axis_far(r.o.z as int, r.d.z as int, bb.min.z as int, bb.max.z as int) >= 0)
    &&& (r.d.x != 0 && r.d.y != 0 ==> entry_before_exit(
        r.o.x as int,
        r.d.x as int,
        bb.min.x as int,
        bb.max.x as int,
        r.o.y as int,
        r.d.y as int,
        bb.min.y as int,
        bb.max.y as int,
    ) && entry_before_exit(
        r.o.y as int,
        r.d.y as int,
        bb.min.y as int,
        bb.max.y as int,
        r.o.x as int,
        r.d.x as int,
        bb.min.x as int,
        bb.max.x as int,
    ))
    &&& (r.d.x != 0 && r.d.z != 0 ==> entry_before_exit(
        r.o.x as int,
        r.d.x as int,
        bb.min.x as int,
        bb.max.x as int,
        r.o.z as int,
        r.d.z as int,
        bb.min.z as int,
        bb.max.z as int,
    ) && entry_before_exit(
        r.o.z as int,
        r.d.z as int,
        bb.min.z as int,
        bb.max.z as int,
        r.o.x as int,
        r.d.x as int,
        bb.min.x as int,
        bb.max.x as int,
    ))
    &&& (r.d.y != 0 && r.d.z != 0 ==> entry_before_exit(
        r.o.y as int,
        r.d.y as int,
        bb.min.y as int,
        bb.max.y as int,
        r.o.z as int,
        r.d.z as int,
        bb.min.z as int,
        bb.max.z as int,
    ) && entry_before_exit(
        r.o.z as int,
        r.d.z as int,
        bb.min.z as int,
        bb.max.z as int,
        r.o.y as int,
        r.d.y as int,
        bb.min.y as int,
        bb.max.y as int,
    ))
    &&& (r.d.x != 0 ==> axis_near(r.o.x as int, r.d.x as int, bb.min.x as int, bb.max.x as int)
        <= axis_far(r.o.x as int, r.d.x as int, bb.min.x as int, bb.max.x as int))
    &&& (r.d.y != 0 ==> axis_near(r.o.y as int, r.d.y as int, bb.min.y as int, bb.max.y as int)
        <= axis_far(r.o.y as int, r.d.y as int, bb.min.y as int, bb.max.y as int))
    &&& (r.d.z != 0 ==> axis_near(r.o.z as int, r.d.z as int, bb.min.z as int, bb.max.z as int)
        <= axis_far(r.o.z as int, r.d.z as int, bb.min.z as int, bb.max.z as int))
}

/// One axis's slab is entered no later than another's is exited:
/// `near_a / den_a <= far_b / den_b`, cross-multiplied.
pub open spec fn entry_before_exit(
    oa: int,
    da: int,
    loa: int,
    hia: int,
    ob: int,
    db: int,
    lob: int,
    hib: int,
) -> bool {
    axis_near(oa, da, loa, hia) * axis_den(db) <= axis_far(ob, db, lob, hib) * axis_den(da)
}

/// The point `o + (tn/td)·d` lies inside `[lo, hi]` along one axis, the
/// rational parameter cleared of its denominator.
pub open spec fn slab_ok_at(o: int, d: int, lo: int, hi: int, tn: int, td: int) -> bool {
    lo * td <= o * td + d * tn && o * td + d * tn <= hi * td
}

/// At a nonnegative parameter inside a slab, the slab's near face is not
/// past the parameter.
proof fn lemma_axis_lower(o: int, d: int, lo: int, hi: int, tn: int, td: int)
    by (nonlinear_arith)
    requires
        td > 0,
        d != 0,
        slab_ok_at(o, d, lo, hi, tn, td),
    ensures
        axis_near(o, d, lo, hi) * td <= axis_den(d) * tn,
{
}

/// At a nonnegative parameter inside a slab, the slab's far face is not
/// before the parameter.
proof fn lemma_axis_upper(o: int, d: int, lo: int, hi: int, tn: int, td: int)
    by (nonlinear_arith)
    requires
        td > 0,
        d != 0,
        slab_ok_at(o, d, lo, hi, tn, td),
    ensures
        axis_den(d) * tn <= axis_far(o, d, lo, hi) * td,
{
}

/// Chaining one axis's lower bound through another's upper bound at the
/// same parameter yields the cross-multiplied pair condition.
proof fn lemma_axis_pair(na: int, ea: int, fb: int, eb: int, tn: int, td: int)
    by (nonlinear_arith)
    requires
        td > 0,
        ea > 0,
        eb > 0,
        na * td <= ea * tn,
        eb * tn <= fb * td,
    ensures
        na * eb <= fb * ea,
{
}

/// Law: the slab test misses no intersection. Whenever some nonnegative
/// rational parameter `tn / td` places the ray's point inside the box on
/// all three axes, the test passes.
pub proof fn lemma_slab_pass_necessary(r: Ray, bb: AABB, tn: int, td: int)
    requires
        td > 0,
        tn >= 0,
        slab_ok_at(r.o.x as int, r.d.x as int, bb.min.x as int, bb.max.x as int, tn, td),
        slab_ok_at(r.o.y as int, r.d.y as int, bb.min.y as int, bb.max.y as int, tn, td),
        slab_ok_at(r.o.z as int, r.d.z as int, bb.min.z as int, bb.max.z as int, tn, td),
    ensures
        slab_pass(r, bb),
{
    let ox = r.o.x as int;
    let oy = r.o.y as int;
    let oz = r.o.z as int;
    let dx = r.d.x as int;
    let dy = r.d.y as int;
    let dz = r.d.z as int;
    let lx = bb.min.x as int;
    let ly = bb.min.y as int;
    let lz = bb.min.z as int;
    let hx = bb.max.x as int;
    let hy = bb.max.y as int;
    let hz = bb.max.z as int;
    if dx == 0 {
        assert(lx <= ox <= hx) by (nonlinear_arith)
            requires
                td > 0,
                lx * td <= ox * td <= hx * td,
        ;
    }
    if dy == 0 {
        assert(ly <= oy <= hy) by (nonlinear_arith)
            requires
                td > 0,
                ly * td <= oy * td <= hy * td,
        ;
    }
    if dz == 0 {
        assert(lz <= oz <= hz) by (nonlinear_arith)
            requires
                td > 0,
                lz * td <= oz * td <= hz * td,
        ;
    }
    if dx != 0 {
        lemma_axis_lower(ox, dx, lx, hx, tn, td);
        lemma_axis_upper(ox, dx, lx, hx, tn, td);
        lemma_far_nonneg(axis_near(ox, dx, lx, hx), axis_far(ox, dx, lx, hx), axis_den(dx), tn, td);
    }
    if dy != 0 {
        lemma_axis_lower(oy, dy, ly, hy, tn, td);
        lemma_axis_upper(oy, dy, ly, hy, tn, td);
        lemma_far_nonneg(axis_near(oy, dy, ly, hy), axis_far(oy, dy, ly, hy), axis_den(dy), tn, td);
    }
    if dz != 0 {
        lemma_axis_lower(oz, dz, lz, hz, tn, td);
        lemma_axis_upper(oz, dz, lz, hz, tn, td);
        lemma_far_nonneg(axis_near(oz, dz, lz, hz), axis_far(oz, dz, lz, hz), axis_den(dz), tn, td);
    }
    if dx != 0 && dy != 0 {
        lemma_axis_pair(
            axis_near(ox, dx, lx, hx),
            axis_den(dx),
            axis_far(oy, dy, ly, hy),
            axis_den(dy),
            tn,
            td,
        );
        lemma_axis_pair(
            axis_near(oy, dy, ly, hy),
            axis_den(dy),
            axis_far(ox, dx, lx, hx),
            axis_den(dx),
            tn,
            td,
        );
    }
    if dx != 0 && dz != 0 {
        lemma_axis_pair(
            axis_near(ox, dx, lx, hx),
            axis_den(dx),
            axis_far(oz, dz, lz, hz),
            axis_den(dz),
            tn,
            td,
        );
        lemma_axis_pair(
            axis_near(oz, dz, lz, hz),
            axis_den(dz),
            axis_far(ox, dx, lx, hx),
            axis_den(dx),
            tn,
            td,
        );
    }
    if dy != 0 && dz != 0 {
        lemma_axis_pair(
            axis_near(oy, dy, ly, hy),
            axis_den(dy),
            axis_far(oz, dz, lz, hz),
            axis_den(dz),
            tn,
            td,
        );
        lemma_axis_pair(
            axis_near(oz, dz, lz, hz),
            axis_den(dz),
            axis_far(oy, dy, ly, hy),
            axis_den(dy),
            tn,
            td,
        );
    }
}

/// A slab whose far face is reached by a nonnegative parameter has a
/// nonnegative far distance, and its near face precedes its far face.
proof fn lemma_far_nonneg(na: int, fa: int, ea: int, tn: int, td: int)
    by (nonlinear_arith)
    requires
        td > 0,
        ea > 0,
        tn >= 0,
        na * td <= ea * tn,
        ea * tn <= fa * td,
    ensures
        fa >= 0,
        na <= fa,
{
}

/// Bounds against one axis's near and far numerators put the parameter's
/// point inside the slab.
proof fn lemma_axis_from_bounds(o: int, d: int, lo: int, hi: int, tn: int, td: int)
    by (nonlinear_arith)
    requires
        td > 0,
        d != 0,
        axis_near(o, d, lo, hi) * td <= axis_den(d) * tn,
        axis_den(d) * tn <= axis_far(o, d, lo, hi) * td,
    ensures
        slab_ok_at(o, d, lo, hi, tn, td),
{
}

/// The chosen parameter, the largest clamped entry fraction, satisfies one
/// axis's near and far bounds, given that axis's pair conditions.
proof fn lemma_witness_axis(
    n1: int,
    f1: int,
    e1: int,
    n2: int,
    e2: int,
    n3: int,
    e3: int,
    tn: int,
    td: int,
)
    by (nonlinear_arith)
    requires
        e1 > 0,
        e2 > 0,
        e3 > 0,
        f1 >= 0,
        n1 <= f1,
        n2 * e1 <= f1 * e2,
        n3 * e1 <= f1 * e3,
        tn >= 0,
        tn >= n1 * (e2 * e3),
        tn == 0 || tn == n1 * (e2 * e3) || tn == n2 * (e1 * e3) || tn == n3 * (e1 * e2),
        td == e1 * (e2 * e3),
    ensures
        n1 * td <= e1 * tn,
        e1 * tn <= f1 * td,
{
}

/// Law: the slab test reports no false intersection either. Whenever it
/// passes, some nonnegative rational parameter places the ray's point
/// inside the box on all three axes; together with
/// `lemma_slab_pass_necessary` the test equals that existence exactly.
pub proof fn lemma_slab_pass_sufficient(r: Ray, bb: AABB)
    requires
        crate::misc::slab_pass(r, bb),
    ensures
        exists|tn: int, td: int|
            td > 0 && tn >= 0 && #[trigger] slab_ok_at(
                r.o.x as int,
                r.d.x as int,
                bb.min.x as int,
                bb.max.x as int,
                tn,
                td,
            ) && slab_ok_at(
                r.o.y as int,
                r.d.y as int,
                bb.min.y as int,
                bb.max.y as int,
                tn,
                td,
            ) && slab_ok_at(r.o.z as int, r.d.z as int, bb.min.z as int, bb.max.z as int, tn, td),
{
    let ox = r.o.x as int;
    let oy = r.o.y as int;
    let oz = r.o.z as int;
    let dx = r.d.x as int;
    let dy = r.d.y as int;
    let dz = r.d.z as int;
    let lx = bb.min.x as int;
    let ly = bb.min.y as int;
    let lz = bb.min.z as int;
    let hx = bb.max.x as int;
    let hy = bb.max.y as int;
    let hz = bb.max.z as int;
    let n1 = if dx != 0 {
        axis_near(ox, dx, lx, hx)
    } else {
        0
    };
    let f1 = if dx != 0 {
        axis_far(ox, dx, lx, hx)
    } else {
        0
    };
    let e1 = if dx != 0 {
        axis_den(dx)
    } else {
        1
    };
    let n2 = if dy != 0 {
        axis_near(oy, dy, ly, hy)
    } else {
        0
    };
    let f2 = if dy != 0 {
        axis_far(oy, dy, ly, hy)
    } else {
        0
    };
    let e2 = if dy != 0 {
        axis_den(dy)
    } else {
        1
    };
    let n3 = if dz != 0 {
        axis_near(oz, dz, lz, hz)
    } else {
        0
    };
    let f3 = if dz != 0 {
        axis_far(oz, dz, lz, hz)
    } else {
        0
    };
    let e3 = if dz != 0 {
        axis_den(dz)
    } else {
        1
    };
    let td = e1 * (e2 * e3);
    let p1 = n1 * (e2 * e3);
    let p2 = n2 * (e1 * e3);
    let p3 = n3 * (e1 * e2);
    let tn = crate::fx::imax(crate::fx::imax(crate::fx::imax(0, p1), p2), p3);
    assert(e1 > 0 && e2 > 0 && e3 > 0);
    assert(td > 0) by (nonlinear_arith)
        requires
            e1 > 0,
            e2 > 0,
            e3 > 0,
            td == e1 * (e2 * e3),
    ;
    assert(f1 >= 0 && f2 >= 0 && f3 >= 0);
    assert(n1 <= f1 && n2 <= f2 && n3 <= f3);
    if dx != 0 {
        if dy != 0 {
            assert(n2 * e1 <= f1 * e2);
        } else {
            assert(n2 * e1 <= f1 * e2) by (nonlinear_arith)
                requires
                    n2 == 0,
                    e2 == 1,
                    e1 > 0,
                    f1 >= 0,
            ;
        }
        if dz != 0 {
            assert(n3 * e1 <= f1 * e3);
        } else {
            assert(n3 * e1 <= f1 * e3) by (nonlinear_arith)
                requires
                    n3 == 0,
                    e3 == 1,
                    e1 > 0,
                    f1 >= 0,
            ;
        }
        lemma_witness_axis(n1, f1, e1, n2, e2, n3, e3, tn, td);
    }
    if dy != 0 {
        if dx != 0 {
            assert(n1 * e2 <= f2 * e1);
        } else {
            assert(n1 * e2 <= f2 * e1) by (nonlinear_arith)
                requires
                    n1 == 0,
                    e1 == 1,
                    e2 > 0,
                    f2 >= 0,
            ;
        }
        if dz != 0 {
            assert(n3 * e2 <= f2 * e3);
        } else {
            assert(n3 * e2 <= f2 * e3) by (nonlinear_arith)
                requires
                    n3 == 0,
                    e3 == 1,
                    e2 > 0,
                    f2 >= 0,
            ;
        }
        assert(td == e2 * (e1 * e3)) by (nonlinear_arith)
            requires
                td == e1 * (e2 * e3),
        ;
        assert(tn == 0 || tn == n2 * (e1 * e3) || tn == n1 * (e2 * e3) || tn == n3 * (e2 * e1)) by (
        nonlinear_arith)
            requires
                tn == 0 || tn == p1 || tn == p2 || tn == p3,
                p1 == n1 * (e2 * e3),
                p2 == n2 * (e1 * e3),
                p3 == n3 * (e1 * e2),
        ;
        lemma_witness_axis(n2, f2, e2, n1, e1, n3, e3, tn, td);
    }
    if dz != 0 {
        if dx != 0 {
            assert(n1 * e3 <= f3 * e1);
        } else {
            assert(n1 * e3 <= f3 * e1) by (nonlinear_arith)
                requires
                    n1 == 0,
                    e1 == 1,
                    e3 > 0,
                    f3 >= 0,
            ;
        }
        if dy != 0 {
            assert(n2 * e3 <= f3 * e2);
        } else {
            assert(n2 * e3 <= f3 * e2) by (nonlinear_arith)
                requires
                    n2 == 0,
                    e2 == 1,
                    e3 > 0,
                    f3 >= 0,
            ;
        }
        assert(td == e3 * (e1 * e2)) by (nonlinear_arith)
            requires
                td == e1 * (e2 * e3),
        ;
        assert(tn >= n3 * (e1 * e2));
        assert(tn == 0 || tn == n3 * (e1 * e2) || tn == n1 * (e3 * e2) || tn == n2 * (e3 * e1)) by (
        nonlinear_arith)
            requires
                tn == 0 || tn == p1 || tn == p2 || tn == p3,
                p1 == n1 * (e2 * e3),
                p2 == n2 * (e1 * e3),
                p3 == n3 * (e1 * e2),
        ;
        lemma_witness_axis(n3, f3, e3, n1, e1, n2, e2, tn, td);
    }
    if dx != 0 {
        lemma_axis_from_bounds(ox, dx, lx, hx, tn, td);
    } else {
        assert(slab_ok_at(ox, dx, lx, hx, tn, td)) by (nonlinear_arith)
            requires
                dx == 0,
                lx <= ox <= hx,
                td > 0,
        ;
    }
    if dy != 0 {
        lemma_axis_from_bounds(oy, dy, ly, hy, tn, td);
    } else {
        assert(slab_ok_at(oy, dy, ly, hy, tn, td)) by (nonlinear_arith)
            requires
                dy == 0,
                ly <= oy <= hy,
                td > 0,
        ;
    }
    if dz != 0 {
        lemma_axis_from_bounds(oz, dz, lz, hz, tn, td);
    } else {
        assert(slab_ok_at(oz, dz, lz, hz, tn, td)) by (nonlinear_arith)
            requires
                dz == 0,
                lz <= oz <= hz,
                td > 0,
        ;
    }
    assert(td > 0 && tn >= 0 && slab_ok_at(ox, dx, lx, hx, tn, td) && slab_ok_at(
        oy,
        dy,
        ly,
        hy,
        tn,
        td,
    ) && slab_ok_at(oz, dz, lz, hz, tn, td));
}



/// One axis's contribution to the slab test, reduced to plain values:
/// `None` when the axis excludes the box outright (a parallel ray outside
/// the slab), else the near and far numerators with their denominator.
fn axis_interval(o: i64, d: i64, lo: i64, hi: i64) -> (r: Option<(i64, i64, i64)>)
    requires
        crate::fx::fx_wf(o),
        crate::fx::fx_wf(d),
        crate::fx::fx_wf(lo),
        crate::fx::fx_wf(hi),
    ensures
        (r is None) <==> (d == 0 && !(lo <= o <= hi)),
        d != 0 ==> (r matches Some(t) && t.0 == axis_near(o as int, d as int, lo as int, hi as int)
            && t.1 == axis_far(o as int, d as int, lo as int, hi as int) && t.2 == axis_den(
            d as int,
        ) && t.2 > 0),
{
    if d == 0 {
        if lo <= o && o <= hi {
            Some((0, 0, 0))
        } else {
            None
        }
    } else if d > 0 {
        Some((lo - o, hi - o, d))
    } else {
        Some((o - hi, o - lo, -d))
    }
}

/// The slab test over the exact fractions; shared by the map- and
/// tile-level intersection tests.
pub(crate) fn slab_hit(ray: &Ray, aabb: &AABB) -> (r: bool)
    requires
        ray.wf(),
        aabb.min.wf(),
        aabb.max.wf(),
    ensures
        r == slab_pass(*ray, *aabb),
{
    let ax = axis_interval(ray.o.x, ray.d.x, aabb.min.x, aabb.max.x);
    let ay = axis_interval(ray.o.y, ray.d.y, aabb.min.y, aabb.max.y);
    let az = axis_interval(ray.o.z, ray.d.z, aabb.min.z, aabb.max.z);
    if ax.is_none() || ay.is_none() || az.is_none() {
        return false;
    }
    let mut ok = true;
    if ray.d.x != 0 {
        let (nx, fx_, dx) = ax.unwrap();
        ok = ok && fx_ >= 0;
        if ray.d.y != 0 {
            let (ny, fy, dy) = ay.unwrap();
            ok = ok && frac_le(nx, dx, fy, dy) && frac_le(ny, dy, fx_, dx);
        }
        if ray.d.z != 0 {
            let (nz, fz, dz) = az.unwrap();
            ok = ok && frac_le(nx, dx, fz, dz) && frac_le(nz, dz, fx_, dx);
        }
        ok = ok && nx <= fx_;
    }
    if ray.d.y != 0 {
        let (ny, fy, dy) = ay.unwrap();
        ok = ok && fy >= 0;
        if ray.d.z != 0 {
            let (nz, fz, dz) = az.unwrap();
            ok = ok && frac_le(ny, dy, fz, dz) && frac_le(nz, dz, fy, dy);
        }
        ok = ok && ny <= fy;
    }
    if ray.d.z != 0 {
        let (nz, fz, dz) = az.unwrap();
        ok = ok && fz >= 0;
        ok = ok && nz <= fz;
    }
    ok
}

/// Whether `a/b <= c/d` for positive denominators, by cross-multiplication
/// in wide arithmetic.
pub(crate) fn frac_le(a: i64, b: i64, c: i64, d: i64) -> (r: bool)
    requires
        b > 0,
        d > 0,
    ensures
        r == (a * d <= c * b),
{
    proof {
        lemma_i64_prod_in_i128(a as int, d as int);
        lemma_i64_prod_in_i128(c as int, b as int);
    }
    (a as i128) * (d as i128) <= (c as i128) * (b as i128)
}

/// Whether `a/b == c/d` for positive denominators, by cross-multiplication
/// in wide arithmetic.
pub(crate) fn frac_eq(a: i64, b: i64, c: i64, d: i64) -> (r: bool)
    requires
        b > 0,
        d > 0,
    ensures
        r == (a * d == c * b),
{
    proof {
        lemma_i64_prod_in_i128(a as int, d as int);
        lemma_i64_prod_in_i128(c as int, b as int);
    }
    (a as i128) * (d as i128) == (c as i128) * (b as i128)
}

/// The product of two machine words fits in a double-width word, clear of
/// its lowest value.
pub proof fn lemma_i64_prod_in_i128(a: int, b: int)
    by (nonlinear_arith)
    requires
        -0x8000_0000_0000_0000 <= a <= 0x7fff_ffff_ffff_ffff,
        -0x8000_0000_0000_0000 <= b <= 0x7fff_ffff_ffff_ffff,
    ensures
        -0x4000_0000_0000_0000_0000_0000_0000_0000 < a * b
            <= 0x7fff_ffff_ffff_ffff_ffff_ffff_ffff_ffff,
{
}

/// The face of a voxel that a ray entered through.
#[derive(Debug, Clone, Copy, Eq, PartialEq, Structural, Hash)]
pub enum Side {
    Top,
    Bottom,
    Left,
    Right,
    Front,
    Back,
}

/// One intersection between a ray and an occupied voxel.
#[derive(Debug, Clone, Copy)]
pub struct HitRecord {
    pub hitpoint: Vec3fx,
    pub key: Vec3i,
    pub tile_key: Vec3i,
    pub distance: i64,
    pub normal: Vec3fx,
    pub uv: Vec3fx,
    pub value: (u8, u8),
    pub side: Side,
}

/// The side that a normal selects: the vertical axes are checked first,
/// then the horizontal ones, then depth; a normal near no axis keeps the
/// previous side.
pub open spec fn side_of_normal(n: Vec3fx, prior: Side) -> Side {
    if n.y > FX_HALF {
        Side::Bottom
    } else if n.y < -FX_HALF {
        Side::Top
    } else if n.x > FX_HALF {
        Side::Left
    } else if n.x < -FX_HALF {
        Side::Right
    } else if n.z > FX_HALF {
        Side::Back
    } else if n.z < -FX_HALF {
        Side::Front
    } else {
        prior
    }
}

impl HitRecord {
    pub fn new() -> (r: HitRecord)
        ensures
            r.hitpoint == (Vec3fx { x: 0i64, y: 0i64, z: 0i64 }),
            r.key == (Vec3i { x: 0i32, y: 0i32, z: 0i32 }),
            r.tile_key == (Vec3i { x: 0i32, y: 0i32, z: 0i32 }),
            r.distance == 0,
            r.normal == (Vec3fx { x: 0i64, y: 0i64, z: 0i64 }),
            r.uv == (Vec3fx { x: 0i64, y: 0i64, z: 0i64 }),
            r.value == (0u8, 0u8),
            r.side == Side::Top,
    {
        HitRecord {
            hitpoint: Vec3fx::zero(),
            key: Vec3i::zero(),
            tile_key: Vec3i::zero(),
            distance: 0,
            normal: Vec3fx::zero(),
            uv: Vec3fx::zero(),
            value: (0, 0),
            side: Side::Top,
        }
    }

    /// Derive the hit side from the dominant axis of the normal.
    pub fn compute_side(&mut self)
        ensures
            *final(self) == (HitRecord {
                side: side_of_normal(old(self).normal, old(self).side),
                ..*old(self)
            }),
    {
        if self.normal.y > FX_HALF {
            self.side = Side::Bottom;
        } else if self.normal.y < -FX_HALF {
            self.side = Side::Top;
        } else if self.normal.x > FX_HALF {
            self.side = Side::Left;
        } else if self.normal.x < -FX_HALF {
            self.side = Side::Right;
        } else if self.normal.z > FX_HALF {
            self.side = Side::Back;
        } else if self.normal.z < -FX_HALF {
            self.side = Side::Front;
        }
    }

    pub fn get_side(&mut self) -> (r: Side)
        ensures
            *final(self) == *old(self),
            r == old(self).side,
    {
        self.side
    }
}

/// A coarse placement on the ground grid, as the baking commands name one.
#[derive(Clone, Copy, Debug, PartialEq, Eq, Structural)]
pub enum Location {
    BackLeft,
    BackMiddle,
    BackRight,
    MiddleLeft,
    Middle,
    FrontLeft,
    FrontMiddle,
    FrongRight,
}

/// One pending bake command: the shape to rasterize, where on the ground
/// grid it goes, and which way it faces.
#[derive(Clone, Debug)]
pub struct Bake {
    pub sdf: Option<crate::sdf3d::SDF3D>,
    pub location: Location,
    pub facing: Side,
}

impl Bake {
    /// A fresh bake command: no shape yet, placed front-left, facing front.
    pub fn new() -> (r: Bake)
        ensures
            r.sdf is None,
            r.location == Location::FrontLeft,
            r.facing == Side::Front,
    {
        Bake { sdf: None, location: Location::FrontLeft, facing: Side::Front }
    }
}

/// Scrambles a point into a pair of fixed-point values in `[0, 1)`; used
/// only as a cheap jitter source.
pub fn hash3_2(p3: Vec3fx) -> (r: (i64, i64))
    requires
        p3.wf(),
    ensures
        0 <= r.0 < FX_ONE,
        0 <= r.1 < FX_ONE,
{
    let ax = fx_frac(mul_frac(fx_frac(p3.x), 539830));
    let ay = fx_frac(mul_frac(fx_frac(p3.y), 544270));
    let az = fx_frac(mul_frac(fx_frac(p3.z), 693710));
    let dot3: i64 = ax + ay + az + 1919000;
    let bx = fx_frac(ax + dot3);
    let by = fx_frac(ay + dot3);
    let bz = fx_frac(az + dot3);
    let u = fx_frac(mul_frac(bx + by, bz));
    let v = fx_frac(mul_frac(bx + bz, by));
    (u, v)
}

/// Fixed-point product used by the hash; inputs are clamped into budget.
fn mul_frac(a: i64, b: i64) -> (r: i64)
    requires
        0 <= a <= FX_ONE * 2,
        0 <= b <= FX_ONE * 7,
    ensures
        fx_wf(r),
{
    proof {
        assert(-(FX_BOUND as int) * (FX_ONE as int) <= a * b <= (FX_BOUND as int) * (FX_ONE as int))
            by (nonlinear_arith)
            requires
                0 <= a <= FX_ONE * 2,
                0 <= b <= FX_ONE * 7,
                FX_ONE == 100000,
                FX_BOUND == 1000000000000i64,
        ;
        assert(-FX_BOUND <= (a * b) / (FX_ONE as int) <= FX_BOUND) by (nonlinear_arith)
            requires
                -(FX_BOUND as int) * (FX_ONE as int) <= a * b <= (FX_BOUND as int) * (FX_ONE as int),
                FX_ONE == 100000,
                FX_BOUND == 1000000000000i64,
        ;
    }
    crate::fx::fx_mul(a, b)
}

} // verus!
