//! The accumulation buffer: a flat array of fixed-point radiance sums with a
//! gamma-2 byte export.

use vstd::prelude::*;
use crate::fixed::FP_ONE;
use crate::fixed::tdiv;
use crate::fixed::isqrt;
use crate::fixed::div64;
use crate::fixed::div128;
use crate::fixed::mul_wide;
use crate::fixed::isqrt_u128;
use crate::fixed::lemma_tdiv_bound;
use crate::fixed::lemma_mul_abs_bound;
use crate::vec3::Vec3;
use crate::vec3::in_bounds;

verus! {

/// Largest magnitude an accumulator cell may reach; callers keep below it by
/// bounding the number of accumulated samples.
pub const ACCUM_LIMIT: i64 = 0x4_0000_0000_0000;

pub struct Framebuffer {
    pub data: Vec<Vec3>,
    pub width: usize,
    pub height: usize,
}

pub open spec fn fb_wf(fb: Framebuffer) -> bool {
    &&& fb.data.len() == fb.width * fb.height
    &&& forall|i: int|
        0 <= i < fb.data.len() ==> in_bounds(#[trigger] fb.data@[i], ACCUM_LIMIT as int)
}

/// One tone-mapped byte: `sqrt((c / samples) / FP_ONE) * 255`, computed as an
/// integer square root; nonpositive channels (which a debug pass can write)
/// export as zero, since no real radiance is negative.
pub open spec fn tone_byte(c: int, samples: int) -> int {
    if c <= 0 {
        0
    } else {
        let v = tdiv(c, samples);
        let g = tdiv(v * 65025, FP_ONE as int);
        if isqrt(g) > 255 {
            255
        } else {
            isqrt(g)
        }
    }
}

/// Tone-map one channel.
fn byte_of(c: i64, samples: i64) -> (r: u8)
    requires
        samples >= 1,
        -ACCUM_LIMIT <= c <= ACCUM_LIMIT,
    ensures
        r as int == tone_byte(c as int, samples as int),
{
    if c <= 0 {
        return 0;
    }
    proof {
        lemma_tdiv_bound(c as int, samples as int);
    }
    let v = div64(c, samples);
    proof {
        lemma_mul_abs_bound(v as int, 65025, ACCUM_LIMIT as int, 65025);
        lemma_tdiv_bound(v * 65025, FP_ONE as int);
    }
    let w = mul_wide(v, 65025);
    let g = div128(w, FP_ONE as i128);
    if g <= 0 {
        proof {
            let gi = tdiv((v * 65025) as int, FP_ONE as int);
            crate::fixed::lemma_isqrt_exists(0);
            if gi == 0 {
                crate::fixed::lemma_isqrt_unique(0, 0);
            }
        }
        return 0;
    }
    let sq = isqrt_u128(g as u128);
    if sq > 255 {
        255
    } else {
        sq as u8
    }
}

impl Framebuffer {
    /// A zeroed buffer of `width * height` cells.
    pub fn new(width: usize, height: usize) -> (r: Framebuffer)
        requires
            width * height <= 0x1000_0000,
        ensures
            r.width == width,
            r.height == height,
            fb_wf(r),
            r.data.len() == width * height,
            forall|i: int| 0 <= i < r.data.len() ==> #[trigger] r.data@[i] == (Vec3 {
                x: 0i64,
                y: 0i64,
                z: 0i64,
            }),
    {
        let n = width * height;
        let mut data: Vec<Vec3> = Vec::new();
        let mut i: usize = 0;
        while i < n
            invariant
                i <= n,
                data.len() == i,
                forall|j: int| 0 <= j < i ==> #[trigger] data@[j] == (Vec3 {
                    x: 0i64,
                    y: 0i64,
                    z: 0i64,
                }),
            decreases n - i,
        {
            data.push(Vec3 { x: 0, y: 0, z: 0 });
            i = i + 1;
        }
        Framebuffer { data, width, height }
    }

    /// The flat index of pixel (x, y), in bounds by the size invariant.
    fn idx(&self, x: usize, y: usize) -> (r: usize)
        requires
            x < self.width,
            y < self.height,
            fb_wf(*self),
        ensures
            r == x + y * self.width,
            r < self.data.len(),
    {
        proof {
            assert((y as int) * (self.width as int) + x < (self.height as int) * (self.width
                as int)) by (nonlinear_arith)
                requires
                    x < self.width,
                    y < self.height,
            ;
            assert((self.height as int) * (self.width as int) == (self.width as int) * (self.height
                as int)) by (nonlinear_arith);
        }
        x + y * self.width
    }

    pub fn set_pixel(&mut self, x: usize, y: usize, color: Vec3)
        requires
            x < old(self).width,
            y < old(self).height,
            fb_wf(*old(self)),
            in_bounds(color, ACCUM_LIMIT as int),
        ensures
            fb_wf(*final (self)),
            final (self).width == old(self).width,
            final (self).height == old(self).height,
            final (self).data@ == old(self).data@.update(
                x + y * old(self).width,
                color,
            ),
    {
        let i = self.idx(x, y);
        self.data.set(i, color);
    }

    pub fn get_pixel(&self, x: usize, y: usize) -> (r: Vec3)
        requires
            x < self.width,
            y < self.height,
            fb_wf(*self),
        ensures
            r == self.data@[x + y * self.width],
    {
        let i = self.idx(x, y);
        self.data[i]
    }

    /// Add one radiance sample into a pixel's accumulator.
    pub fn accum_pixel(&mut self, x: usize, y: usize, color: Vec3)
        requires
            x < old(self).width,
            y < old(self).height,
            fb_wf(*old(self)),
            ({
                let c = old(self).data@[x + y * old(self).width];
                &&& -ACCUM_LIMIT <= c.x + color.x <= ACCUM_LIMIT
                &&& -ACCUM_LIMIT <= c.y + color.y <= ACCUM_LIMIT
                &&& -ACCUM_LIMIT <= c.z + color.z <= ACCUM_LIMIT
            }),
        ensures
            fb_wf(*final (self)),
            final (self).width == old(self).width,
            final (self).height == old(self).height,
            ({
                let i = x + y * old(self).width;
                let c = old(self).data@[i];
                final (self).data@ == old(self).data@.update(
                    i,
                    Vec3 {
                        x: (c.x + color.x) as i64,
                        y: (c.y + color.y) as i64,
                        z: (c.z + color.z) as i64,
                    },
                )
            }),
    {
        let i = self.idx(x, y);
        let c = self.data[i];
        self.data.set(
            i,
            Vec3 { x: c.x + color.x, y: c.y + color.y, z: c.z + color.z },
        );
    }

    /// Zero every accumulator cell.
    pub fn clear(&mut self)
        requires
            fb_wf(*old(self)),
        ensures
            fb_wf(*final (self)),
            final (self).width == old(self).width,
            final (self).height == old(self).height,
            final (self).data.len() == old(self).data.len(),
            forall|i: int|
                0 <= i < final (self).data.len() ==> #[trigger] final (self).data@[i] == (Vec3 {
                    x: 0i64,
                    y: 0i64,
                    z: 0i64,
                }),
    {
        let n = self.data.len();
        let mut i: usize = 0;
        while i < n
            invariant
                fb_wf(*self),
                i <= n,
                n == self.data.len(),
                self.width == old(self).width,
                self.height == old(self).height,
                forall|j: int| 0 <= j < i ==> #[trigger] self.data@[j] == (Vec3 {
                    x: 0i64,
                    y: 0i64,
                    z: 0i64,
                }),
            decreases n - i,
        {
            self.data.set(i, Vec3 { x: 0, y: 0, z: 0 });
            i = i + 1;
        }
    }

    /// Divide every cell by `scale`, truncating toward zero.
    pub fn normalize(&mut self, scale: i64)
        requires
            fb_wf(*old(self)),
            scale >= 1,
        ensures
            fb_wf(*final (self)),
            final (self).width == old(self).width,
            final (self).height == old(self).height,
            final (self).data.len() == old(self).data.len(),
            forall|i: int|
                0 <= i < final (self).data.len() ==> #[trigger] final (self).data@[i] == (Vec3 {
                    x: tdiv(old(self).data@[i].x as int, scale as int) as i64,
                    y: tdiv(old(self).data@[i].y as int, scale as int) as i64,
                    z: tdiv(old(self).data@[i].z as int, scale as int) as i64,
                }),
    {
        let n = self.data.len();
        let mut i: usize = 0;
        while i < n
            invariant
                fb_wf(*self),
                i <= n,
                scale >= 1,
                n == self.data.len() == old(self).data.len(),
                self.width == old(self).width,
                self.height == old(self).height,
                forall|j: int| i <= j < n ==> #[trigger] self.data@[j] == old(self).data@[j],
                forall|j: int|
                    0 <= j < i ==> #[trigger] self.data@[j] == (Vec3 {
                        x: tdiv(old(self).data@[j].x as int, scale as int) as i64,
                        y: tdiv(old(self).data@[j].y as int, scale as int) as i64,
                        z: tdiv(old(self).data@[j].z as int, scale as int) as i64,
                    }),
            decreases n - i,
        {
            let c = self.data[i];
            proof {
                lemma_tdiv_bound(c.x as int, scale as int);
                lemma_tdiv_bound(c.y as int, scale as int);
                lemma_tdiv_bound(c.z as int, scale as int);
            }
            self.data.set(
                i,
                Vec3 { x: div64(c.x, scale), y: div64(c.y, scale), z: div64(c.z, scale) },
            );
            i = i + 1;
        }
    }

    /// The RGBA byte image of the accumulator divided by `samples`, row
    /// major, tone-mapped by the gamma-2 square root; alpha is always 255.
    pub fn to_bytes_s(&self, samples: u32) -> (r: Vec<u8>)
        requires
            fb_wf(*self),
            samples >= 1,
        ensures
            r.len() == 4 * self.data.len(),
            forall|p: int|
                0 <= p < self.data.len() ==> {
                    &&& #[trigger] r@[4 * p] as int == tone_byte(
                        self.data@[p].x as int,
                        samples as int,
                    )
                    &&& r@[4 * p + 1] as int == tone_byte(self.data@[p].y as int, samples as int)
                    &&& r@[4 * p + 2] as int == tone_byte(self.data@[p].z as int, samples as int)
                    &&& r@[4 * p + 3] == 255u8
                },
    {
        let n = self.data.len();
        let mut bytes: Vec<u8> = Vec::new();
        let mut i: usize = 0;
        while i < n
            invariant
                fb_wf(*self),
                samples >= 1,
                i <= n,
                n == self.data.len(),
                bytes.len() == 4 * i,
                forall|p: int|
                    0 <= p < i ==> {
                        &&& #[trigger] bytes@[4 * p] as int == tone_byte(
                            self.data@[p].x as int,
                            samples as int,
                        )
                        &&& bytes@[4 * p + 1] as int == tone_byte(
                            self.data@[p].y as int,
                            samples as int,
                        )
                        &&& bytes@[4 * p + 2] as int == tone_byte(
                            self.data@[p].z as int,
                            samples as int,
                        )
                        &&& bytes@[4 * p + 3] == 255u8
                    },
            decreases n - i,
        {
            let c = self.data[i];
            let s64: i64 = samples as i64;
            let ghost pre = bytes@;
            bytes.push(byte_of(c.x, s64));
            bytes.push(byte_of(c.y, s64));
            bytes.push(byte_of(c.z, s64));
            bytes.push(255);
            proof {
                assert(bytes@.len() == 4 * i + 4);
                assert(bytes@[4 * (i as int)] as int == tone_byte(
                    self.data@[i as int].x as int,
                    samples as int,
                ));
                assert(bytes@[4 * (i as int) + 1] as int == tone_byte(
                    self.data@[i as int].y as int,
                    samples as int,
                ));
                assert(bytes@[4 * (i as int) + 2] as int == tone_byte(
                    self.data@[i as int].z as int,
                    samples as int,
                ));
                assert(bytes@[4 * (i as int) + 3] == 255u8);
                assert forall|p: int| 0 <= p < i implies {
                    &&& #[trigger] bytes@[4 * p] == pre[4 * p]
                    &&& bytes@[4 * p + 1] == pre[4 * p + 1]
                    &&& bytes@[4 * p + 2] == pre[4 * p + 2]
                    &&& bytes@[4 * p + 3] == pre[4 * p + 3]
                } by {
                    assert(4 * p + 3 < pre.len());
                }
            }
            i = i + 1;
        }
        bytes
    }

    /// The byte image of the raw accumulator (used for debug passes, where a
    /// cell holds a direct value rather than a sum).
    pub fn to_bytes(&self) -> (r: Vec<u8>)
        requires
            fb_wf(*self),
        ensures
            r.len() == 4 * self.data.len(),
            forall|p: int|
                0 <= p < self.data.len() ==> {
                    &&& #[trigger] r@[4 * p] as int == tone_byte(self.data@[p].x as int, 1)
                    &&& r@[4 * p + 1] as int == tone_byte(self.data@[p].y as int, 1)
                    &&& r@[4 * p + 2] as int == tone_byte(self.data@[p].z as int, 1)
                    &&& r@[4 * p + 3] == 255u8
                },
    {
        self.to_bytes_s(1)
    }
}

} // verus!
