use vstd::prelude::*;

verus! {


use crate::fx::fx_wf;

/// An ordered triple of fixed-point scalars: positions, directions, normals.
#[derive(Clone, Copy, Debug, PartialEq, Eq, Structural)]
pub struct Vec3fx {
    pub x: i64,
    pub y: i64,
    pub z: i64,
}

/// An ordered triple of 32-bit integers: grid and tile coordinates.
#[derive(Clone, Copy, Debug, PartialEq, Eq, Structural, Hash)]
pub struct Vec3i {
    pub x: i32,
    pub y: i32,
    pub z: i32,
}

impl Vec3fx {
    /// Every component stays inside the shared coordinate budget.
    pub open spec fn wf(self) -> bool {
        fx_wf(self.x) && fx_wf(self.y) && fx_wf(self.z)
    }

    pub fn new(x: i64, y: i64, z: i64) -> (r: Vec3fx)
        ensures
            r == (Vec3fx { x, y, z }),
    {
        Vec3fx { x, y, z }
    }

    pub fn zero() -> (r: Vec3fx)
        ensures
            r == (Vec3fx { x: 0i64, y: 0i64, z: 0i64 }),
            r.wf(),
    {
        Vec3fx { x: 0, y: 0, z: 0 }
    }
}

/// A whole-unit coordinate scales into the fixed-point budget, with one
/// unit of headroom when it is strictly inside the unit budget.
pub proof fn lemma_unit_scale_bound(u: int)
    by (nonlinear_arith)
    requires
        -crate::UNIT_BOUND < u < crate::UNIT_BOUND,
    ensures
        -(crate::FX_BOUND - crate::FX_ONE) <= u * crate::FX_ONE <= crate::FX_BOUND - crate::FX_ONE,
{
}

impl Vec3i {
    pub fn new(x: i32, y: i32, z: i32) -> (r: Vec3i)
        ensures
            r == (Vec3i { x, y, z }),
    {
        Vec3i { x, y, z }
    }

    pub fn zero() -> (r: Vec3i)
        ensures
            r == (Vec3i { x: 0i32, y: 0i32, z: 0i32 }),
    {
        Vec3i { x: 0, y: 0, z: 0 }
    }

}

} // verus!
