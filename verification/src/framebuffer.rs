//! The framebuffer: a row-major array of radiance samples, a
//! normalize-to-maximum pass, and the packing into bytes.

use vstd::prelude::*;

use crate::fixed::SCALE;
use crate::fixed::div_exec;
use crate::fixed::div_fx;
use crate::fixed::div_trunc;
use crate::fixed::lemma_tdiv_bound;
use crate::fixed::lemma_tdiv_mono;
use crate::fixed::lemma_tdiv_mul_cancel;
use crate::fixed::tdiv;
use crate::vec3::V3;
use crate::vec3::Vec3;
use crate::vec3::nonneg_v;
use crate::vec3::zero_s;

verus! {

/// Bound on a stored radiance sample (the most a shading call returns).
pub const SAMPLE_MAX: i128 = 0x4_0000_0000_0000;

/// The mathematical model of a framebuffer.
pub struct FbM {
    pub width: int,
    pub height: int,
    pub buffer: Seq<V3>,
}

/// A framebuffer: `width * height` radiance samples, row-major (the sample
/// of pixel column `i`, row `j` sits at index `j * width + i`).
pub struct FrameBuffer {
    pub width: usize,
    pub height: usize,
    pub buffer: Vec<Vec3>,
}

impl View for FrameBuffer {
    type V = FbM;

    open spec fn view(&self) -> FbM {
        FbM {
            width: self.width as int,
            height: self.height as int,
            buffer: self.buffer@.map_values(|v: Vec3| v@),
        }
    }
}

/// A framebuffer in range: the sample count matches the dimensions and
/// every sample is a bounded, non-negative radiance.
pub open spec fn fb_wf(f: FbM) -> bool {
    &&& 1 <= f.width <= 16384
    &&& 1 <= f.height <= 16384
    &&& f.buffer.len() == f.width * f.height
    &&& forall|k: int| 0 <= k < f.buffer.len() ==> nonneg_v(#[trigger] f.buffer[k]) && f.buffer[
        k
    ].x <= SAMPLE_MAX && f.buffer[k].y <= SAMPLE_MAX && f.buffer[k].z <= SAMPLE_MAX
}

/// An all-black framebuffer of the given size.
pub fn create_frame_buffer(width: usize, height: usize) -> (r: FrameBuffer)
    requires
        1 <= width <= 16384,
        1 <= height <= 16384,
    ensures
        r@.width == width,
        r@.height == height,
        r@.buffer.len() == width * height,
        forall|k: int| 0 <= k < r@.buffer.len() ==> #[trigger] r@.buffer[k] == zero_s(),
        fb_wf(r@),
{
    proof {
        assert(width * height <= 16384 * 16384) by (nonlinear_arith)
            requires
                1 <= width <= 16384,
                1 <= height <= 16384,
        ;
    }
    let total = width * height;
    let mut buffer: Vec<Vec3> = Vec::new();
    let mut n: usize = 0;
    while n < total
        invariant
            0 <= n <= total,
            buffer@.len() == n,
            forall|k: int| 0 <= k < n ==> #[trigger] buffer@[k]@ == zero_s(),
        decreases total - n,
    {
        buffer.push(Vec3::zero());
        n = n + 1;
    }
    let r = FrameBuffer { width, height, buffer };
    r
}

/// The greatest of a sample's three channels.
pub open spec fn cell_max_s(v: V3) -> int {
    let xy = if v.x >= v.y {
        v.x
    } else {
        v.y
    };
    if xy >= v.z {
        xy
    } else {
        v.z
    }
}

/// The greatest channel over the first `i` samples, at least zero.
pub open spec fn fb_max_upto(buf: Seq<V3>, i: int) -> int
    decreases i,
{
    if i <= 0 {
        0
    } else {
        let m = fb_max_upto(buf, i - 1);
        let c = cell_max_s(buf[i - 1]);
        if c > m {
            c
        } else {
            m
        }
    }
}

/// One sample divided by the frame's maximum channel.
pub open spec fn cell_div_s(v: V3, m: int) -> V3 {
    V3 { x: div_fx(v.x, m), y: div_fx(v.y, m), z: div_fx(v.z, m) }
}

/// Normalization: when some channel is positive, every sample is divided
/// by the greatest channel, so that the new greatest channel is one.
pub open spec fn normalize_spec(f: FbM) -> FbM {
    let m = fb_max_upto(f.buffer, f.buffer.len() as int);
    if m > 0 {
        FbM { width: f.width, height: f.height, buffer: f.buffer.map_values(|v: V3| cell_div_s(v, m)) }
    } else {
        f
    }
}

/// Every channel of every sample among the first `i` is at most the
/// running maximum.
proof fn lemma_fb_max_ge(buf: Seq<V3>, i: int, k: int)
    requires
        0 <= k < i <= buf.len(),
    ensures
        buf[k].x <= fb_max_upto(buf, i),
        buf[k].y <= fb_max_upto(buf, i),
        buf[k].z <= fb_max_upto(buf, i),
    decreases i,
{
    if k < i - 1 {
        lemma_fb_max_ge(buf, i - 1, k);
    }
}

/// The running maximum stays below any bound that every channel and zero
/// respect.
proof fn lemma_fb_max_le(buf: Seq<V3>, i: int, b: int)
    requires
        0 <= i <= buf.len(),
        b >= 0,
        forall|k: int| 0 <= k < buf.len() ==> cell_max_s(#[trigger] buf[k]) <= b,
    ensures
        fb_max_upto(buf, i) <= b,
    decreases i,
{
    if i > 0 {
        lemma_fb_max_le(buf, i - 1, b);
    }
}

/// A positive running maximum is the greatest channel of some sample.
proof fn lemma_fb_max_witness(buf: Seq<V3>, i: int)
    requires
        0 <= i <= buf.len(),
        fb_max_upto(buf, i) > 0,
    ensures
        exists|k: int| 0 <= k < i && cell_max_s(#[trigger] buf[k]) == fb_max_upto(buf, i),
    decreases i,
{
    if i > 0 {
        if cell_max_s(buf[i - 1]) == fb_max_upto(buf, i) {
            assert(0 <= i - 1 < i && cell_max_s(buf[i - 1]) == fb_max_upto(buf, i));
        } else {
            lemma_fb_max_witness(buf, i - 1);
        }
    }
}

/// Normalizing twice is normalizing once: after one pass the greatest
/// channel is exactly one, and dividing by one returns every sample
/// unchanged.
pub proof fn lemma_normalize_idempotent(f: FbM)
    requires
        fb_wf(f),
    ensures
        normalize_spec(normalize_spec(f)) == normalize_spec(f),
{
    let n = f.buffer.len() as int;
    let m = fb_max_upto(f.buffer, n);
    if m > 0 {
        let g = normalize_spec(f);
        let gbuf = f.buffer.map_values(|v: V3| cell_div_s(v, m));
        assert(g.buffer == gbuf);
        assert(gbuf.len() == n);

        // Every channel of the scaled frame is at most one.
        assert forall|k: int| 0 <= k < n implies cell_max_s(#[trigger] gbuf[k])
            <= SCALE as int by {
            assert(gbuf[k] == cell_div_s(f.buffer[k], m));
            lemma_fb_max_ge(f.buffer, n, k);
            lemma_tdiv_mono(f.buffer[k].x * SCALE as int, m * SCALE as int, m);
            lemma_tdiv_mono(f.buffer[k].y * SCALE as int, m * SCALE as int, m);
            lemma_tdiv_mono(f.buffer[k].z * SCALE as int, m * SCALE as int, m);
            lemma_tdiv_mul_cancel(SCALE as int, m);
            assert(f.buffer[k].x * SCALE as int <= m * SCALE as int) by (nonlinear_arith)
                requires
                    f.buffer[k].x <= m,
                    SCALE as int > 0,
            ;
            assert(f.buffer[k].y * SCALE as int <= m * SCALE as int) by (nonlinear_arith)
                requires
                    f.buffer[k].y <= m,
                    SCALE as int > 0,
            ;
            assert(f.buffer[k].z * SCALE as int <= m * SCALE as int) by (nonlinear_arith)
                requires
                    f.buffer[k].z <= m,
                    SCALE as int > 0,
            ;
            assert(m * SCALE as int == SCALE as int * m) by (nonlinear_arith);
        };
        lemma_fb_max_le(gbuf, n, SCALE as int);

        // The sample that carried the old maximum now carries exactly one.
        lemma_fb_max_witness(f.buffer, n);
        let w = choose|k: int| 0 <= k < n && cell_max_s(#[trigger] f.buffer[k]) == m;
        assert(gbuf[w] == cell_div_s(f.buffer[w], m));
        lemma_tdiv_mul_cancel(SCALE as int, m);
        assert(m * SCALE as int == SCALE as int * m) by (nonlinear_arith);
        assert(cell_max_s(gbuf[w]) == SCALE as int) by {
            if f.buffer[w].x == m {
                assert(gbuf[w].x == SCALE as int);
                lemma_fb_max_ge(f.buffer, n, w);
                lemma_tdiv_mono(f.buffer[w].y * SCALE as int, m * SCALE as int, m);
                lemma_tdiv_mono(f.buffer[w].z * SCALE as int, m * SCALE as int, m);
                assert(f.buffer[w].y * SCALE as int <= m * SCALE as int) by (nonlinear_arith)
                    requires
                        f.buffer[w].y <= m,
                        SCALE as int > 0,
                ;
                assert(f.buffer[w].z * SCALE as int <= m * SCALE as int) by (nonlinear_arith)
                    requires
                        f.buffer[w].z <= m,
                        SCALE as int > 0,
                ;
            } else if f.buffer[w].y == m {
                assert(gbuf[w].y == SCALE as int);
                lemma_tdiv_mono(f.buffer[w].x * SCALE as int, m * SCALE as int, m);
                lemma_tdiv_mono(f.buffer[w].z * SCALE as int, m * SCALE as int, m);
                assert(f.buffer[w].x * SCALE as int <= m * SCALE as int) by (nonlinear_arith)
                    requires
                        f.buffer[w].x <= m,
                        SCALE as int > 0,
                ;
                assert(f.buffer[w].z * SCALE as int <= m * SCALE as int) by (nonlinear_arith)
                    requires
                        f.buffer[w].z <= m,
                        SCALE as int > 0,
                ;
            } else {
                assert(f.buffer[w].z == m);
                assert(gbuf[w].z == SCALE as int);
                lemma_tdiv_mono(f.buffer[w].x * SCALE as int, m * SCALE as int, m);
                lemma_tdiv_mono(f.buffer[w].y * SCALE as int, m * SCALE as int, m);
                assert(f.buffer[w].x * SCALE as int <= m * SCALE as int) by (nonlinear_arith)
                    requires
                        f.buffer[w].x <= m,
                        SCALE as int > 0,
                ;
                assert(f.buffer[w].y * SCALE as int <= m * SCALE as int) by (nonlinear_arith)
                    requires
                        f.buffer[w].y <= m,
                        SCALE as int > 0,
                ;
            }
        };
        lemma_fb_max_ge(gbuf, n, w);
        assert(fb_max_upto(gbuf, n) == SCALE as int);

        // Dividing by one changes nothing.
        let gbuf2 = gbuf.map_values(|v: V3| cell_div_s(v, SCALE as int));
        assert forall|k: int| 0 <= k < n implies gbuf2[k] == #[trigger] gbuf[k] by {
            assert(gbuf2[k] == cell_div_s(gbuf[k], SCALE as int));
            lemma_tdiv_mul_cancel(gbuf[k].x, SCALE as int);
            lemma_tdiv_mul_cancel(gbuf[k].y, SCALE as int);
            lemma_tdiv_mul_cancel(gbuf[k].z, SCALE as int);
        };
        assert(gbuf2 =~= gbuf);
        assert(normalize_spec(g) == g);
    }
}

impl FrameBuffer {
    /// Scale every sample so that the greatest channel becomes one, when
    /// any channel is positive; a black frame stays as it is.
    pub fn normalize(&mut self)
        requires
            fb_wf(old(self)@),
        ensures
            final(self)@ == normalize_spec(old(self)@),
            fb_wf(final(self)@),
    {
        let n = self.buffer.len();
        let mut max_val: i128 = 0;
        let mut k: usize = 0;
        while k < n
            invariant
                fb_wf(self@),
                self == old(self),
                n == self.buffer@.len(),
                0 <= k <= n,
                max_val == fb_max_upto(self@.buffer, k as int),
                0 <= max_val <= SAMPLE_MAX,
            decreases n - k,
        {
            proof {
                assert(self.buffer@[k as int]@ == self@.buffer[k as int]);
                assert(nonneg_v(self@.buffer[k as int]));
            }
            let c = self.buffer[k].max();
            if c > max_val {
                max_val = c;
            }
            k = k + 1;
        }

        if max_val > 0 {
            let ghost m = max_val as int;
            let mut out: Vec<Vec3> = Vec::new();
            let mut k: usize = 0;
            while k < n
                invariant
                    fb_wf(self@),
                    self == old(self),
                    n == self.buffer@.len(),
                    0 < max_val <= SAMPLE_MAX,
                    m == max_val as int,
                    m == fb_max_upto(self@.buffer, n as int),
                    0 <= k <= n,
                    out@.len() == k,
                    forall|j: int| 0 <= j < k ==> #[trigger] out@[j]@ == cell_div_s(
                        self@.buffer[j],
                        m,
                    ),
                    forall|j: int| 0 <= j < k ==> nonneg_v(#[trigger] out@[j]@) && out@[j]@.x
                        <= SAMPLE_MAX && out@[j]@.y <= SAMPLE_MAX && out@[j]@.z <= SAMPLE_MAX,
                decreases n - k,
            {
                proof {
                    assert(self.buffer@[k as int]@ == self@.buffer[k as int]);
                    assert(nonneg_v(self@.buffer[k as int]));
                    let c = self@.buffer[k as int];
                    lemma_fb_max_ge(self@.buffer, n as int, k as int);
                    lemma_tdiv_mono(0, c.x * SCALE as int, m);
                    lemma_tdiv_mono(0, c.y * SCALE as int, m);
                    lemma_tdiv_mono(0, c.z * SCALE as int, m);
                    assert(c.x * SCALE as int >= 0 && c.y * SCALE as int >= 0 && c.z * SCALE as int
                        >= 0) by (nonlinear_arith)
                        requires
                            c.x >= 0 && c.y >= 0 && c.z >= 0,
                    ;
                    assert(c.x * SCALE as int <= m * SCALE as int) by (nonlinear_arith)
                        requires
                            c.x <= m,
                            SCALE as int > 0,
                    ;
                    assert(c.y * SCALE as int <= m * SCALE as int) by (nonlinear_arith)
                        requires
                            c.y <= m,
                            SCALE as int > 0,
                    ;
                    assert(c.z * SCALE as int <= m * SCALE as int) by (nonlinear_arith)
                        requires
                            c.z <= m,
                            SCALE as int > 0,
                    ;
                    lemma_tdiv_mono(c.x * SCALE as int, m * SCALE as int, m);
                    lemma_tdiv_mono(c.y * SCALE as int, m * SCALE as int, m);
                    lemma_tdiv_mono(c.z * SCALE as int, m * SCALE as int, m);
                    lemma_tdiv_mul_cancel(SCALE as int, m);
                    assert(m * SCALE as int == SCALE as int * m) by (nonlinear_arith);
                }
                let cell = &self.buffer[k];
                out.push(
                    Vec3 {
                        x: div_exec(cell.x, max_val),
                        y: div_exec(cell.y, max_val),
                        z: div_exec(cell.z, max_val),
                    },
                );
                k = k + 1;
            }
            self.buffer = out;
            proof {
                assert(final(self)@.buffer =~= old(self)@.buffer.map_values(
                    |v: V3| cell_div_s(v, m),
                ));
            }
        }
    }

    /// One channel packed to a byte: the sample clamped into `[0, 1]` and
    /// scaled to 255.
    pub open spec fn quantize_s(c: int) -> int {
        let clamped = if c < 0 {
            0
        } else if c > SCALE as int {
            SCALE as int
        } else {
            c
        };
        tdiv(255 * clamped, SCALE as int)
    }

    /// The whole frame packed into bytes, three per pixel, row-major, in
    /// R, G, B order.
    pub fn to_vec(&self) -> (r: Vec<u8>)
        requires
            fb_wf(self@),
        ensures
            r@.len() == 3 * self@.buffer.len(),
            forall|k: int| 0 <= k < self@.buffer.len() ==> r@[3 * k] == Self::quantize_s(
                #[trigger] self@.buffer[k].x,
            ) && r@[3 * k + 1] == Self::quantize_s(self@.buffer[k].y) && r@[3 * k + 2]
                == Self::quantize_s(self@.buffer[k].z),
    {
        let n = self.buffer.len();
        let mut write_buffer: Vec<u8> = Vec::new();
        let mut k: usize = 0;
        while k < n
            invariant
                fb_wf(self@),
                n == self.buffer@.len(),
                0 <= k <= n,
                write_buffer@.len() == 3 * k,
                forall|j: int| 0 <= j < k ==> write_buffer@[3 * j] == Self::quantize_s(
                    #[trigger] self@.buffer[j].x,
                ) && write_buffer@[3 * j + 1] == Self::quantize_s(self@.buffer[j].y)
                    && write_buffer@[3 * j + 2] == Self::quantize_s(self@.buffer[j].z),
            decreases n - k,
        {
            proof {
                assert(self.buffer@[k as int]@ == self@.buffer[k as int]);
            }
            let cell = &self.buffer[k];
            write_buffer.push(quantize(cell.x));
            write_buffer.push(quantize(cell.y));
            write_buffer.push(quantize(cell.z));
            k = k + 1;
        }
        write_buffer
    }
}

/// One channel packed to a byte, exactly as `quantize_s` states it.
fn quantize(c: i128) -> (r: u8)
    ensures
        r == FrameBuffer::quantize_s(c as int),
        r <= 255,
{
    let clamped = if c < 0 {
        0
    } else if c > SCALE {
        SCALE
    } else {
        c
    };
    proof {
        lemma_tdiv_bound(255 * clamped as int, SCALE as int, 255 * SCALE as int);
        vstd::arithmetic::div_mod::lemma_div_multiples_vanish(255, SCALE as int);
        assert(255 * SCALE as int == SCALE as int * 255) by (nonlinear_arith);
        vstd::arithmetic::div_mod::lemma_div_pos_is_pos(255 * clamped as int, SCALE as int);
    }
    div_trunc(255 * clamped, SCALE) as u8
}

} // verus!
