use vstd::prelude::*;

verus! {

use crate::{FX_ONE, FX_BOUND};

/// The accumulation target: a width-by-height grid of RGBA pixels, each
/// channel a fixed-point scalar, stored row-major, four channels a pixel.
#[derive(Clone, Debug)]
pub struct ColorBuffer {
    pub width: usize,
    pub height: usize,
    pub pixels: Vec<i64>,
}

/// The running average after one more sample: the old value carries
/// `iteration` parts, the sample one part, floored.
pub open spec fn blend_channel_spec(oldv: int, sample: int, iteration: int) -> int {
    (oldv * iteration + sample) / (iteration + 1)
}

/// A channel scaled to a byte: clamped to one unit, then spread over 255.
pub open spec fn channel_to_u8_spec(v: int) -> u8 {
    if v < 0 {
        0u8
    } else if v > FX_ONE {
        255u8
    } else {
        ((v * 255) / (FX_ONE as int)) as u8
    }
}

impl ColorBuffer {
    /// The pixel store matches the dimensions, which stay modest enough
    /// for every index computation.
    pub open spec fn wf(self) -> bool {
        &&& 1 <= self.width <= 8192
        &&& 1 <= self.height <= 8192
        &&& self.pixels@.len() == self.width * self.height * 4
        &&& forall|i: int|
            0 <= i < self.pixels@.len() ==> -FX_BOUND <= #[trigger] self.pixels@[i] <= FX_BOUND
    }

    /// The flat position of a pixel's first channel.
    pub open spec fn pix_of(self, x: int, y: int) -> int {
        (y * self.width + x) * 4
    }

    /// A buffer of the given dimensions with every channel zero.
    pub fn new(width: usize, height: usize) -> (r: ColorBuffer)
        requires
            1 <= width <= 8192,
            1 <= height <= 8192,
        ensures
            r.wf(),
            r.width == width,
            r.height == height,
            forall|i: int| 0 <= i < r.pixels@.len() ==> r.pixels@[i] == 0,
    {
        proof {
            assert(width * height * 4 <= 8192 * 8192 * 4) by (nonlinear_arith)
                requires
                    1 <= width <= 8192,
                    1 <= height <= 8192,
            ;
        }
        let total: usize = width * height * 4;
        let mut pixels: Vec<i64> = Vec::new();
        while pixels.len() < total
            invariant
                pixels@.len() <= total,
                forall|i: int| 0 <= i < pixels@.len() ==> pixels@[i] == 0,
            decreases total - pixels@.len(),
        {
            pixels.push(0);
        }
        ColorBuffer { width, height, pixels }
    }

    /// The channel index of a pixel is inside the store.
    proof fn lemma_pix(self, x: int, y: int)
        by (nonlinear_arith)
        requires
            self.wf(),
            0 <= x < self.width,
            0 <= y < self.height,
        ensures
            0 <= self.pix_of(x, y),
            self.pix_of(x, y) + 4 <= self.pixels@.len(),
            y * self.width + x < self.width * self.height,
            0 <= y * self.width,
            y * self.width + x < 0x4000000,
            (y * self.width + x) * 4 + 4 <= self.pixels@.len(),
    {
    }

    /// Read a pixel's four channels.
    pub fn get_pixel(&self, x: usize, y: usize) -> (r: (i64, i64, i64, i64))
        requires
            self.wf(),
            x < self.width,
            y < self.height,
        ensures
            r.0 == self.pixels@[self.pix_of(x as int, y as int)],
            r.1 == self.pixels@[self.pix_of(x as int, y as int) + 1],
            r.2 == self.pixels@[self.pix_of(x as int, y as int) + 2],
            r.3 == self.pixels@[self.pix_of(x as int, y as int) + 3],
            -FX_BOUND <= r.0 <= FX_BOUND,
            -FX_BOUND <= r.1 <= FX_BOUND,
            -FX_BOUND <= r.2 <= FX_BOUND,
            -FX_BOUND <= r.3 <= FX_BOUND,
    {
        proof {
            self.lemma_pix(x as int, y as int);
        }
        let i = (y * self.width + x) * 4;
        (self.pixels[i], self.pixels[i + 1], self.pixels[i + 2], self.pixels[i + 3])
    }

    /// Overwrite a pixel's four channels.
    pub fn set_pixel(&mut self, x: usize, y: usize, c: (i64, i64, i64, i64))
        requires
            old(self).wf(),
            x < old(self).width,
            y < old(self).height,
            -FX_BOUND <= c.0 <= FX_BOUND,
            -FX_BOUND <= c.1 <= FX_BOUND,
            -FX_BOUND <= c.2 <= FX_BOUND,
            -FX_BOUND <= c.3 <= FX_BOUND,
        ensures
            final(self).wf(),
            final(self).width == old(self).width,
            final(self).height == old(self).height,
            final(self).pixels@ == old(self).pixels@.update(
                old(self).pix_of(x as int, y as int),
                c.0,
            ).update(old(self).pix_of(x as int, y as int) + 1, c.1).update(
                old(self).pix_of(x as int, y as int) + 2,
                c.2,
            ).update(old(self).pix_of(x as int, y as int) + 3, c.3),
            0 <= old(self).pix_of(x as int, y as int),
            old(self).pix_of(x as int, y as int) + 4 <= old(self).pixels@.len(),
    {
        proof {
            self.lemma_pix(x as int, y as int);
        }
        let i = (y * self.width + x) * 4;
        self.pixels.set(i, c.0);
        self.pixels.set(i + 1, c.1);
        self.pixels.set(i + 2, c.2);
        self.pixels.set(i + 3, c.3);
    }

    /// The buffer flattened to bytes, channel by channel.
    pub fn to_u8_vec(&self) -> (r: Vec<u8>)
        requires
            self.wf(),
        ensures
            r@.len() == self.pixels@.len(),
            forall|i: int|
                0 <= i < r@.len() ==> r@[i] == channel_to_u8_spec(#[trigger] self.pixels@[i] as int),
    {
        let mut out: Vec<u8> = Vec::new();
        let mut i: usize = 0;
        while i < self.pixels.len()
            invariant
                self.wf(),
                i <= self.pixels@.len(),
                out@.len() == i,
                forall|j: int|
                    0 <= j < i ==> out@[j] == channel_to_u8_spec(
                        #[trigger] self.pixels@[j] as int,
                    ),
            decreases self.pixels@.len() - i,
        {
            let v = self.pixels[i];
            let b: u8 = if v < 0 {
                0
            } else if v > FX_ONE {
                255
            } else {
                proof {
                    assert(0 <= (v as int) * 255 / (FX_ONE as int) <= 255) by (nonlinear_arith)
                        requires
                            0 <= v as int <= FX_ONE,
                            FX_ONE == 100000,
                    ;
                }
                ((v * 255) / FX_ONE) as u8
            };
            out.push(b);
            i = i + 1;
        }
        out
    }
}

/// Blend one channel of a fresh sample into the running average with
/// weight one part in `iteration + 1`; at iteration zero this is exactly
/// the sample.
pub fn blend_channel(oldv: i64, sample: i64, iteration: i32) -> (r: i64)
    requires
        0 <= iteration,
        -FX_BOUND <= oldv <= FX_BOUND,
        -FX_BOUND <= sample <= FX_BOUND,
    ensures
        r as int == blend_channel_spec(oldv as int, sample as int, iteration as int),
        iteration == 0 ==> r == sample,
        -FX_BOUND <= r <= FX_BOUND,
{
    proof {
        crate::misc::lemma_i64_prod_in_i128(oldv as int, iteration as int);
        assert(-(FX_BOUND as int) * ((iteration as int) + 1) <= (oldv as int) * (iteration as int)
            + sample <= (FX_BOUND as int) * ((iteration as int) + 1)) by (nonlinear_arith)
            requires
                0 <= iteration as int,
                -FX_BOUND <= oldv as int <= FX_BOUND,
                -FX_BOUND <= sample as int <= FX_BOUND,
        ;
        assert(-(FX_BOUND as int) <= ((oldv as int) * (iteration as int) + sample) / ((
        iteration as int) + 1) <= FX_BOUND) by (nonlinear_arith)
            requires
                -(FX_BOUND as int) * ((iteration as int) + 1) <= (oldv as int) * (iteration as int)
                    + sample <= (FX_BOUND as int) * ((iteration as int) + 1),
                iteration as int + 1 >= 1,
        ;
    }
    let num: i128 = (oldv as i128) * (iteration as i128) + (sample as i128);
    proof {
        assert(iteration == 0 ==> ((oldv as int) * (iteration as int) + sample) / ((
        iteration as int) + 1) == sample) by (nonlinear_arith)
            requires
                -FX_BOUND <= sample as int <= FX_BOUND,
        ;
    }
    let q = num.checked_div_euclid((iteration as i128) + 1);
    q.unwrap() as i64
}

/// Law: the blend weighs each fresh sample by one part in `iteration + 1`.
/// At iteration zero it returns the sample exactly, and as the iteration
/// grows the sample's influence on the pixel, `blend - old`, shrinks as
/// the fraction `(sample - old) / (iteration + 1)`, up to rounding: its
/// product with `iteration + 1` stays within `iteration` of `sample - old`.
pub proof fn lemma_blend_influence(oldv: int, sample: int, it: int)
    by (nonlinear_arith)
    requires
        0 <= it,
    ensures
        it == 0 ==> blend_channel_spec(oldv, sample, 0) == sample,
        (blend_channel_spec(oldv, sample, it) - oldv) * (it + 1) <= sample - oldv,
        sample - oldv - it <= (blend_channel_spec(oldv, sample, it) - oldv) * (it + 1),
{
    assert(blend_channel_spec(oldv, sample, it) * (it + 1) <= oldv * it + sample < (
    blend_channel_spec(oldv, sample, it) + 1) * (it + 1));
}

} // verus!
