use vstd::prelude::*;

verus! {

use crate::FX_ONE;

/// What a render call needs beyond the world: the projection flag, the
/// reserved accumulation-shading flag, and the palette, already converted
/// to linear fixed-point RGBA by the caller.
#[derive(Clone, Debug)]
pub struct RenderContext {
    pub iso_state: bool,
    pub render_state: bool,
    pub palette: Vec<(i64, i64, i64, i64)>,
}

impl RenderContext {
    /// Every palette entry is a color: each channel within one unit.
    pub open spec fn wf(self) -> bool {
        forall|i: int|
            0 <= i < self.palette@.len() ==> {
                let c = #[trigger] self.palette@[i];
                0 <= c.0 <= FX_ONE && 0 <= c.1 <= FX_ONE && 0 <= c.2 <= FX_ONE && 0 <= c.3
                    <= FX_ONE
            }
    }

    /// A context with no palette and both flags down.
    pub fn new() -> (r: RenderContext)
        ensures
            r.wf(),
            r.iso_state == false,
            r.render_state == false,
            r.palette@.len() == 0,
    {
        RenderContext { iso_state: false, render_state: false, palette: Vec::new() }
    }

    /// Append one palette color.
    pub fn add_color(&mut self, c: (i64, i64, i64, i64))
        requires
            old(self).wf(),
            0 <= c.0 <= FX_ONE,
            0 <= c.1 <= FX_ONE,
            0 <= c.2 <= FX_ONE,
            0 <= c.3 <= FX_ONE,
        ensures
            final(self).wf(),
            final(self).iso_state == old(self).iso_state,
            final(self).render_state == old(self).render_state,
            final(self).palette@ == old(self).palette@.push(c),
    {
        self.palette.push(c);
    }
}

} // verus!
