use vstd::prelude::*;

verus! {

use crate::{FX_ONE, FX_BOUND};
use crate::fx::{iabs, imax, imin, is_isqrt, lemma_sqrt_floor, sq, sqrt_floor};
use crate::misc::AABB;
use crate::value::Value;
use crate::vec3::Vec3fx;

/// The kind of implicit shape.
#[derive(Clone, Copy, Debug, PartialEq, Eq, Structural)]
pub enum SDF3DType {
    Box,
    Sphere,
}

/// An implicit shape: its kind, extents, and numeric texture parameters
/// (the first one is its color index).
#[derive(Clone, Debug)]
pub struct SDF3D {
    pub sdf_type: SDF3DType,
    pub radius: i64,
    pub size: Vec3fx,
    pub textures: Vec<i64>,
}

/// The signed distance of a point to a sphere's surface: the (floored)
/// length of the offset, less the radius.
pub open spec fn sphere_dist_spec(p: Vec3fx, c: Vec3fx, radius: i64) -> int {
    sqrt_floor(sq(p.x - c.x) + sq(p.y - c.y) + sq(p.z - c.z)) - radius
}

/// The signed distance of a point to a box, in the axis-reduced form this
/// project has always used: the outside term is the (floored) length of the
/// componentwise excess, and the inside term deliberately reads only the
/// `x` and `y` components.
pub open spec fn box_dist_spec(p: Vec3fx, c: Vec3fx, size: Vec3fx) -> int {
    let qx = iabs(p.x - c.x) - size.x;
    let qy = iabs(p.y - c.y) - size.y;
    let qz = iabs(p.z - c.z) - size.z;
    sqrt_floor(sq(imax(qx, 0)) + sq(imax(qy, 0)) + sq(imax(qz, 0))) + imin(imax(qx, qy), 0)
}

/// A point is inside the box exactly when it is strictly within the `x`
/// and `y` extents and its `z` excess is under both of those margins.
pub open spec fn box_occupied_spec(p: Vec3fx, c: Vec3fx, size: Vec3fx) -> bool {
    let qx = iabs(p.x - c.x) - size.x;
    let qy = iabs(p.y - c.y) - size.y;
    let qz = iabs(p.z - c.z) - size.z;
    qx < 0 && qy < 0 && qz < imin(-qx, -qy)
}

/// A point is inside the sphere exactly when its squared offset is under
/// the squared radius.
pub open spec fn sphere_occupied_spec(p: Vec3fx, c: Vec3fx, radius: i64) -> bool {
    sq(p.x - c.x) + sq(p.y - c.y) + sq(p.z - c.z) < sq(radius as int)
}

impl SDF3D {
    /// Extents are nonnegative and stay well inside the coordinate budget.
    pub open spec fn shape_wf(self) -> bool {
        &&& 0 <= self.radius <= FX_BOUND / 4
        &&& 0 <= self.size.x <= FX_BOUND / 4
        &&& 0 <= self.size.y <= FX_BOUND / 4
        &&& 0 <= self.size.z <= FX_BOUND / 4
    }

    /// The signed distance of a point to this shape.
    pub open spec fn dist_spec(self, p: Vec3fx, position: Vec3fx) -> int {
        match self.sdf_type {
            SDF3DType::Box => box_dist_spec(p, position, self.size),
            SDF3DType::Sphere => sphere_dist_spec(p, position, self.radius),
        }
    }

    /// Whether the distance marks the point as inside the shape.
    pub open spec fn occupies(self, p: Vec3fx, position: Vec3fx) -> bool {
        match self.sdf_type {
            SDF3DType::Box => box_occupied_spec(p, position, self.size),
            SDF3DType::Sphere => sphere_occupied_spec(p, position, self.radius),
        }
    }

    /// The color index of the shape: the first texture parameter when it is
    /// numeric, zero otherwise.
    pub open spec fn color_spec(self) -> u8 {
        if self.textures@.len() == 0 {
            0u8
        } else {
            crate::value::color_of_number(self.textures@[0])
        }
    }

    /// A fresh shape of the given kind: a half-unit radius, no box extent,
    /// and the default color index of ten.
    pub fn new(sdf_type: SDF3DType) -> (r: SDF3D)
        ensures
            r.sdf_type == sdf_type,
            r.radius == FX_ONE / 2,
            r.size == (Vec3fx { x: 0i64, y: 0i64, z: 0i64 }),
            r.textures@.len() == 1,
            r.textures@[0] == ((10 * FX_ONE) as i64),
            r.shape_wf(),
            r.color_spec() == 10u8,
    {
        let mut textures: Vec<i64> = Vec::new();
        textures.push(10 * FX_ONE);
        let r = SDF3D { sdf_type, radius: FX_ONE / 2, size: Vec3fx::zero(), textures };
        proof {
            assert(r.color_spec() == crate::value::color_of_number(((10 * FX_ONE) as i64)));
        }
        r
    }

    /// The signed distance from `p` to this shape placed at `position`,
    /// and with it the exact inside test that voxelization relies on.
    pub fn distance(&self, p: Vec3fx, position: Vec3fx) -> (d: i64)
        requires
            p.wf(),
            position.wf(),
            self.shape_wf(),
        ensures
            d == self.dist_spec(p, position),
            (d < 0) <==> self.occupies(p, position),
    {
        match self.sdf_type {
            SDF3DType::Box => {
                let qx = abs_diff(p.x, position.x) - self.size.x;
                let qy = abs_diff(p.y, position.y) - self.size.y;
                let qz = abs_diff(p.z, position.z) - self.size.z;
                let ox: i64 = if qx > 0 {
                    qx
                } else {
                    0
                };
                let oy: i64 = if qy > 0 {
                    qy
                } else {
                    0
                };
                let oz: i64 = if qz > 0 {
                    qz
                } else {
                    0
                };
                let n: u128 = sq_u128(ox) + sq_u128(oy) + sq_u128(oz);
                let root = crate::fx::isqrt_u128(n);
                proof {
                    lemma_sqrt_floor(n as int, root as int);
                    lemma_root_bound(n as int, root as int);
                }
                let inner: i64 = if qx >= qy {
                    if qx < 0 {
                        qx
                    } else {
                        0
                    }
                } else {
                    if qy < 0 {
                        qy
                    } else {
                        0
                    }
                };
                let d = (root as i64) + inner;
                proof {
                    lemma_box_inside(p, position, self.size, n as int, root as int, d as int);
                }
                d
            },
            SDF3DType::Sphere => {
                let dx = abs_diff(p.x, position.x);
                let dy = abs_diff(p.y, position.y);
                let dz = abs_diff(p.z, position.z);
                let n: u128 = sq_u128(dx) + sq_u128(dy) + sq_u128(dz);
                proof {
                    assert(sq(p.x - position.x) == sq(dx as int) && sq(p.y - position.y) == sq(
                        dy as int,
                    ) && sq(p.z - position.z) == sq(dz as int)) by (nonlinear_arith)
                        requires
                            dx as int == iabs(p.x - position.x),
                            dy as int == iabs(p.y - position.y),
                            dz as int == iabs(p.z - position.z),
                    ;
                }
                let root = crate::fx::isqrt_u128(n);
                proof {
                    lemma_sqrt_floor(n as int, root as int);
                    lemma_root_bound(n as int, root as int);
                    crate::fx::lemma_isqrt_lt(n as int, root as int, self.radius as int);
                }
                (root as i64) - self.radius
            },
        }
    }

    /// The box the shape can reach: the position offset by the extent on
    /// each side.
    pub open spec fn bbox_spec(self, position: Vec3fx) -> AABB {
        AABB {
            min: Vec3fx {
                x: (position.x - self.extent_x()) as i64,
                y: (position.y - self.extent_y()) as i64,
                z: (position.z - self.extent_z()) as i64,
            },
            max: Vec3fx {
                x: (position.x + self.extent_x()) as i64,
                y: (position.y + self.extent_y()) as i64,
                z: (position.z + self.extent_z()) as i64,
            },
        }
    }

    /// Build the box the shape can reach.
    pub fn create_bbox(&self, position: Vec3fx) -> (r: AABB)
        requires
            self.shape_wf(),
            -FX_BOUND / 2 <= position.x <= FX_BOUND / 2,
            -FX_BOUND / 2 <= position.y <= FX_BOUND / 2,
            -FX_BOUND / 2 <= position.z <= FX_BOUND / 2,
        ensures
            r.wf(),
            crate::map::inner_box(r),
            r == self.bbox_spec(position),
    {
        match self.sdf_type {
            SDF3DType::Box => {
                AABB {
                    min: Vec3fx {
                        x: position.x - self.size.x,
                        y: position.y - self.size.y,
                        z: position.z - self.size.z,
                    },
                    max: Vec3fx {
                        x: position.x + self.size.x,
                        y: position.y + self.size.y,
                        z: position.z + self.size.z,
                    },
                }
            },
            SDF3DType::Sphere => {
                AABB {
                    min: Vec3fx {
                        x: position.x - self.radius,
                        y: position.y - self.radius,
                        z: position.z - self.radius,
                    },
                    max: Vec3fx {
                        x: position.x + self.radius,
                        y: position.y + self.radius,
                        z: position.z + self.radius,
                    },
                }
            },
        }
    }

    /// The shape's reach from its position along `x`.
    pub open spec fn extent_x(self) -> i64 {
        match self.sdf_type {
            SDF3DType::Box => self.size.x,
            SDF3DType::Sphere => self.radius,
        }
    }

    /// The shape's reach from its position along `y`.
    pub open spec fn extent_y(self) -> i64 {
        match self.sdf_type {
            SDF3DType::Box => self.size.y,
            SDF3DType::Sphere => self.radius,
        }
    }

    /// The shape's reach from its position along `z`.
    pub open spec fn extent_z(self) -> i64 {
        match self.sdf_type {
            SDF3DType::Box => self.size.z,
            SDF3DType::Sphere => self.radius,
        }
    }

    /// Read the shape's parameters off the value stack: for a box its
    /// depth, height and width in that order, for a sphere its radius;
    /// then replace the texture parameters with the deepest array of the
    /// trailing run of arrays, if there is one. A missing or non-numeric
    /// value aborts with a message; what was already popped stays consumed.
    pub fn read_properties(&mut self, stack: &mut Vec<Value>) -> (r: Result<(), String>)
        ensures
            final(self).sdf_type == old(self).sdf_type,
            old(self).sdf_type == SDF3DType::Sphere ==> sphere_read_ok(
                *old(self),
                *final(self),
                old(stack)@,
                final(stack)@,
                r,
            ),
            old(self).sdf_type == SDF3DType::Box ==> box_read_ok(
                *old(self),
                *final(self),
                old(stack)@,
                final(stack)@,
                r,
            ),
    {
        if matches!(self.sdf_type, SDF3DType::Box) {
            match stack.pop() {
                Some(Value::Number(n)) => {
                    self.size.z = n;
                },
                Some(_) => {
                    return Err(
                        "Wrong value on stack. Expected number for \"depth\" of Box.".to_owned(),
                    );
                },
                None => {
                    return Err(
                        "Stack is empty. Expected number for \"depth\" of Box.".to_owned(),
                    );
                },
            }
            match stack.pop() {
                Some(Value::Number(n)) => {
                    self.size.y = n;
                },
                Some(_) => {
                    return Err(
                        "Wrong value on stack. Expected number for \"height\" of Box.".to_owned(),
                    );
                },
                None => {
                    return Err(
                        "Stack is empty. Expected number for \"height\" of Box.".to_owned(),
                    );
                },
            }
            match stack.pop() {
                Some(Value::Number(n)) => {
                    self.size.x = n;
                },
                Some(_) => {
                    return Err(
                        "Wrong value on stack. Expected number for \"width\" of Box.".to_owned(),
                    );
                },
                None => {
                    return Err(
                        "Stack is empty. Expected number for \"width\" of Box.".to_owned(),
                    );
                },
            }
        } else {
            match stack.pop() {
                Some(Value::Number(n)) => {
                    self.radius = n;
                },
                Some(_) => {
                    return Err(
                        "Wrong value on stack. Expected number for \"radius\" of Sphere.".to_owned(
                        ),
                    );
                },
                None => {
                    return Err(
                        "Stack is empty. Expected number for \"radius\" of Sphere.".to_owned(),
                    );
                },
            }
        }
        let ghost s1 = stack@;
        let ghost k = array_run(s1);
        let ghost shape0 = *self;
        let ghost mut popped: int = 0int;
        proof {
            lemma_array_run_bounds(s1);
            assert(s1.take(s1.len() - 0) =~= s1);
        }
        let mut any = true;
        while any
            invariant
                0 <= popped <= k,
                k <= s1.len(),
                k == array_run(s1),
                stack@ == s1.take(s1.len() as int - popped),
                array_run(stack@) == k - popped,
                !any ==> popped == k,
                self.sdf_type == shape0.sdf_type,
                self.radius == shape0.radius,
                self.size == shape0.size,
                popped > 0 ==> (s1[s1.len() - popped] matches Value::Array(ns) && self.textures@
                    == ns@),
                popped == 0 ==> self.textures@ == shape0.textures@,
            decreases k - popped + (if any {
                1int
            } else {
                0int
            }),
        {
            let n = stack.len();
            let last_is_array = n > 0 && matches!(stack[n - 1], Value::Array(_));
            if last_is_array {
                proof {
                    assert(stack@.last() matches Value::Array(_));
                    lemma_array_run_bounds(stack@.drop_last());
                    assert(array_run(stack@) == 1 + array_run(stack@.drop_last()));
                    assert(array_run(stack@) > 0);
                }
                match stack.pop() {
                    Some(Value::Array(ns)) => {
                        proof {
                            assert(s1.take(s1.len() as int - popped).drop_last() =~= s1.take(
                                s1.len() as int - (popped + 1),
                            ));
                            assert(s1.take(s1.len() as int - popped).last() == s1[s1.len()
                                - popped - 1]);
                        }
                        self.textures = ns;
                        proof {
                            popped = popped + 1;
                        }
                    },
                    _ => {
                        proof {
                            assert(false);
                        }
                    },
                }
            } else {
                proof {
                    assert(array_run(stack@) == 0);
                }
                any = false;
            }
        }
        Ok(())
    }

    /// The color index: the first texture parameter when numeric, else zero.
    pub fn get_color(&self) -> (r: u8)
        ensures
            r == self.color_spec(),
    {
        if self.textures.len() == 0 {
            return 0;
        }
        let v = self.textures[0];
        if v < 0 {
            0
        } else {
            let u = crate::fx::fx_floor_nonneg(v);
            if u > 255 {
                255
            } else {
                u as u8
            }
        }
    }

    /// The shape's name.
    pub fn to_string(&self) -> (r: String)
        ensures
            self.sdf_type == SDF3DType::Sphere ==> r@ == "Sphere"@,
            self.sdf_type == SDF3DType::Box ==> r@ == "Box"@,
    {
        match self.sdf_type {
            SDF3DType::Sphere => "Sphere".to_owned(),
            SDF3DType::Box => "Box".to_owned(),
        }
    }
}

/// The square of a bounded nonnegative scalar, computed wide.
pub(crate) fn sq_u128(a: i64) -> (r: u128)
    requires
        0 <= a <= 4 * FX_BOUND,
    ensures
        r == sq(a as int),
        r <= 16000000000000000000000000,
{
    proof {
        lemma_sq_bound(a as int);
    }
    (a as u128) * (a as u128)
}

/// Magnitude of the difference of two in-budget scalars.
fn abs_diff(a: i64, b: i64) -> (r: i64)
    requires
        -FX_BOUND <= a <= FX_BOUND,
        -2 * FX_BOUND <= b <= 2 * FX_BOUND,
    ensures
        r == iabs(a - b),
        0 <= r <= 3 * FX_BOUND,
{
    if a >= b {
        a - b
    } else {
        b - a
    }
}

/// The square of an in-budget value stays inside the square-sum budget.
proof fn lemma_sq_bound(a: int)
    by (nonlinear_arith)
    requires
        0 <= a <= 4 * FX_BOUND,
    ensures
        0 <= a * a <= 16000000000000000000000000,
{
}

/// A root of a bounded square sum is itself bounded.
proof fn lemma_root_bound(n: int, root: int)
    by (nonlinear_arith)
    requires
        is_isqrt(n, root),
        0 <= n <= 48000000000000000000000000,
    ensures
        0 <= root <= 7 * FX_BOUND,
{
}

/// The computed box distance is negative exactly on the inside test.
proof fn lemma_box_inside(p: Vec3fx, c: Vec3fx, size: Vec3fx, n: int, root: int, d: int)
    requires
        is_isqrt(n, root),
        n == sq(imax(iabs(p.x - c.x) - size.x, 0)) + sq(imax(iabs(p.y - c.y) - size.y, 0)) + sq(
            imax(iabs(p.z - c.z) - size.z, 0),
        ),
        d == root + imin(imax(iabs(p.x - c.x) - size.x, iabs(p.y - c.y) - size.y), 0),
    ensures
        (d < 0) <==> box_occupied_spec(p, c, size),
{
    let qx = iabs(p.x - c.x) - size.x;
    let qy = iabs(p.y - c.y) - size.y;
    let qz = iabs(p.z - c.z) - size.z;
    if qx < 0 && qy < 0 {
        let oz = imax(qz, 0);
        assert(imax(qx, 0) == 0 && imax(qy, 0) == 0);
        assert(sq(0) == 0) by (nonlinear_arith);
        assert(n == sq(oz));
        assert(is_isqrt(sq(oz), oz)) by (nonlinear_arith)
            requires
                oz >= 0,
        ;
        crate::fx::lemma_isqrt_unique(n, root, oz);
        assert(d == oz + imax(qx, qy));
    } else {
        assert(d == root);
        assert(root >= 0);
    }
}

/// The number a value carries; zero when it carries none.
pub open spec fn num_of(v: Value) -> i64 {
    match v {
        Value::Number(n) => n,
        _ => 0i64,
    }
}

/// The numbers an array value carries; empty when it is no array.
pub open spec fn arr_of(v: Value) -> Seq<i64> {
    match v {
        Value::Array(ns) => ns@,
        _ => Seq::empty(),
    }
}

/// The length of the maximal trailing run of array values.
pub open spec fn array_run(s: Seq<Value>) -> int
    decreases s.len(),
{
    if s.len() > 0 && (s.last() matches Value::Array(_)) {
        1 + array_run(s.drop_last())
    } else {
        0
    }
}

/// The trailing array run never exceeds the stack.
pub proof fn lemma_array_run_bounds(s: Seq<Value>)
    ensures
        0 <= array_run(s) <= s.len(),
    decreases s.len(),
{
    if s.len() > 0 && (s.last() matches Value::Array(_)) {
        lemma_array_run_bounds(s.drop_last());
    }
}

/// After the parameters are read, the trailing run of arrays is consumed
/// and the deepest of them, if any, becomes the texture parameters.
pub open spec fn arrays_taken(
    s: Seq<Value>,
    s_final: Seq<Value>,
    t_pre: Seq<i64>,
    t_post: Seq<i64>,
) -> bool {
    let k = array_run(s);
    &&& s_final == s.take(s.len() - k)
    &&& if k == 0 {
        t_post == t_pre
    } else {
        t_post == arr_of(s[s.len() - k])
    }
}

/// What reading a sphere's parameters does: an empty stack or a
/// non-numeric top aborts with its message; otherwise the radius is the
/// popped number and the trailing arrays are consumed into the textures.
pub open spec fn sphere_read_ok(
    pre: SDF3D,
    post: SDF3D,
    s0: Seq<Value>,
    s_final: Seq<Value>,
    r: Result<(), String>,
) -> bool {
    if s0.len() == 0 {
        &&& (r matches Err(e) && e@ == "Stack is empty. Expected number for \"radius\" of Sphere."@)
        &&& s_final == s0
        &&& post == pre
    } else if !(s0.last() matches Value::Number(_)) {
        &&& (r matches Err(e) && e@
            == "Wrong value on stack. Expected number for \"radius\" of Sphere."@)
        &&& s_final == s0.drop_last()
        &&& post == pre
    } else {
        &&& r is Ok
        &&& post.radius == num_of(s0.last())
        &&& post.size == pre.size
        &&& arrays_taken(s0.drop_last(), s_final, pre.textures@, post.textures@)
    }
}

/// What reading a box's parameters does: three numbers leave the stack as
/// its depth, height and width, any failure aborting with its message and
/// keeping what was set so far; then the trailing arrays are consumed.
pub open spec fn box_read_ok(
    pre: SDF3D,
    post: SDF3D,
    s0: Seq<Value>,
    s_final: Seq<Value>,
    r: Result<(), String>,
) -> bool {
    if s0.len() == 0 {
        &&& (r matches Err(e) && e@ == "Stack is empty. Expected number for \"depth\" of Box."@)
        &&& s_final == s0
        &&& post == pre
    } else if !(s0.last() matches Value::Number(_)) {
        &&& (r matches Err(e) && e@
            == "Wrong value on stack. Expected number for \"depth\" of Box."@)
        &&& s_final == s0.drop_last()
        &&& post == pre
    } else {
        let d = num_of(s0.last());
        let s1 = s0.drop_last();
        if s1.len() == 0 {
            &&& (r matches Err(e) && e@ == "Stack is empty. Expected number for \"height\" of Box."@)
            &&& s_final == s1
            &&& post.size.z == d && post.size.x == pre.size.x && post.size.y == pre.size.y
            &&& post.radius == pre.radius && post.textures@ == pre.textures@
        } else if !(s1.last() matches Value::Number(_)) {
            &&& (r matches Err(e) && e@
                == "Wrong value on stack. Expected number for \"height\" of Box."@)
            &&& s_final == s1.drop_last()
            &&& post.size.z == d && post.size.x == pre.size.x && post.size.y == pre.size.y
            &&& post.radius == pre.radius && post.textures@ == pre.textures@
        } else {
            let h = num_of(s1.last());
            let s2 = s1.drop_last();
            if s2.len() == 0 {
                &&& (r matches Err(e) && e@
                    == "Stack is empty. Expected number for \"width\" of Box."@)
                &&& s_final == s2
                &&& post.size.z == d && post.size.y == h && post.size.x == pre.size.x
                &&& post.radius == pre.radius && post.textures@ == pre.textures@
            } else if !(s2.last() matches Value::Number(_)) {
                &&& (r matches Err(e) && e@
                    == "Wrong value on stack. Expected number for \"width\" of Box."@)
                &&& s_final == s2.drop_last()
                &&& post.size.z == d && post.size.y == h && post.size.x == pre.size.x
                &&& post.radius == pre.radius && post.textures@ == pre.textures@
            } else {
                &&& r is Ok
                &&& post.size.z == d && post.size.y == h && post.size.x == num_of(s2.last())
                &&& post.radius == pre.radius
                &&& arrays_taken(s2.drop_last(), s_final, pre.textures@, post.textures@)
            }
        }
    }
}

} // verus!
