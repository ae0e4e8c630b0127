//! The raster transforms: flip, shade quantization, grayscale bucketing,
//! brightness shift, resampling, gradient magnitude, seam carving,
//! luminance-threshold compositing, and luminance-to-glyph mapping.

use vstd::prelude::*;

use crate::energy::{
    grid_rect, grid_view, grid_width, gray_px_spec, lum_grid_spec, magnitude_grid_spec, Energy,
    Kernel,
};
use crate::error::TransformError;
use crate::frame::{wf_image, Image, Size};
use crate::seam::{remove_pending_spec, seam_start_spec};
use crate::pixel::{
    brighten_channel_spec, lum_spec, quantize_px_spec, PxData, Vector2,
};

verus! {

/// The resampling mode of `scale`.
#[derive(Clone, Copy, Debug, PartialEq, Eq, Structural)]
pub enum Scaling {
    Nearest,
    Bilinear,
}

/// One gray level of the grayscale bucketing: the channel mean is rounded
/// up to the next multiple of the integer step `255 / (shades - 1)` and
/// clamped into channel range.
pub open spec fn gray_level_spec(r: u8, g: u8, b: u8, shades: u8) -> int
    recommends
        shades >= 2,
{
    let factor = 255int / ((shades - 1) as int);
    let k = ((r + g + b) + 3 * factor - 1) / (3 * factor);
    let v = k * factor;
    if v > 255 {
        255
    } else {
        v
    }
}

/// A sample after grayscale bucketing: its gray level in all three
/// channels, everything else untouched.
pub open spec fn gray_bucket_px_spec(p: PxData, shades: u8) -> PxData {
    PxData {
        r: gray_level_spec(p.r, p.g, p.b, shades) as u8,
        g: gray_level_spec(p.r, p.g, p.b, shades) as u8,
        b: gray_level_spec(p.r, p.g, p.b, shades) as u8,
        ..p
    }
}

/// A sample after a brightness shift: each channel shifted and clamped,
/// everything else untouched.
pub open spec fn brighten_px_spec(p: PxData, value: i32) -> PxData {
    PxData {
        r: brighten_channel_spec(p.r, value) as u8,
        g: brighten_channel_spec(p.g, value) as u8,
        b: brighten_channel_spec(p.b, value) as u8,
        ..p
    }
}

/// The composited sample at one position: the base sample where the
/// luminance difference strictly exceeds the threshold, the overlay sample
/// otherwise.
pub open spec fn mask_px_spec(base: PxData, overlay: PxData, threshold: u8) -> PxData {
    let lb = lum_spec(base.r, base.g, base.b);
    let lo = lum_spec(overlay.r, overlay.g, overlay.b);
    let d = if lb >= lo {
        lb - lo
    } else {
        lo - lb
    };
    if d > threshold {
        base
    } else {
        overlay
    }
}

/// The row-major source index a flipped destination index reads from.
pub open spec fn flip_src_index(i: int, w: int, h: int, horizontal: bool, vertical: bool) -> int {
    let x = i % w;
    let y = i / w;
    let sx = if horizontal {
        w - 1 - x
    } else {
        x
    };
    let sy = if vertical {
        h - 1 - y
    } else {
        y
    };
    sy * w + sx
}

/// The source sample nearest resampling reads for destination cell
/// `(x, y)`: integer floor scaling of each coordinate. The sample keeps its
/// channels and glyph; its position becomes the destination cell's.
pub open spec fn nearest_px_spec(
    src: Seq<PxData>,
    x: int,
    y: int,
    sw: int,
    sh: int,
    dw: int,
    dh: int,
) -> PxData {
    let sx = x * sw / dw;
    let sy = y * sh / dh;
    PxData { position: Vector2 { x: x as u32, y: y as u32 }, ..src[sy * sw + sx] }
}

/// The denominator of the rational source coordinate along one axis: the
/// destination extent less one, or one for single-cell targets, whose
/// coordinate formula would otherwise divide by zero.
pub open spec fn axis_den(d: int) -> int {
    if d <= 1 {
        1
    } else {
        d - 1
    }
}

/// The integer part of the rational source coordinate
/// `t * (s - 1) / (d - 1)`; single-cell targets sample the first source
/// line.
pub open spec fn axis_base(t: int, s: int, d: int) -> int {
    if d <= 1 {
        0
    } else {
        t * (s - 1) / (d - 1)
    }
}

/// The fractional numerator of the rational source coordinate.
pub open spec fn axis_frac(t: int, s: int, d: int) -> int {
    if d <= 1 {
        0
    } else {
        t * (s - 1) % (d - 1)
    }
}

/// The far corner index along one axis, clamped to the last source line so
/// the far edge never reads out of range.
pub open spec fn axis_second(t: int, s: int, d: int) -> int {
    let b = axis_base(t, s, d);
    if b + 1 < s {
        b + 1
    } else {
        s - 1
    }
}

/// An exact rational division rounded to the nearest integer, halves up.
pub open spec fn round_div(a: int, b: int) -> int {
    (2 * a + b) / (2 * b)
}

/// The standard bilinear weighting of the four corner channels, with the
/// fractional coordinates `rx / den_x` and `ry / den_y`, rounded to the
/// nearest integer.
pub open spec fn bilerp_channel_spec(
    q11: u8,
    q21: u8,
    q12: u8,
    q22: u8,
    rx: int,
    den_x: int,
    ry: int,
    den_y: int,
) -> int {
    round_div(
        q11 * (den_x - rx) * (den_y - ry) + q21 * rx * (den_y - ry) + q12 * (den_x - rx) * ry + q22
            * rx * ry,
        den_x * den_y,
    )
}

/// The sample bilinear resampling builds for destination cell `(x, y)`:
/// each channel interpolated independently from the four clamped corner
/// samples, rounded to nearest and within channel range by construction.
pub open spec fn bilinear_px_spec(
    src: Seq<PxData>,
    x: int,
    y: int,
    sw: int,
    sh: int,
    dw: int,
    dh: int,
) -> PxData {
    let x1 = axis_base(x, sw, dw);
    let x2 = axis_second(x, sw, dw);
    let rx = axis_frac(x, sw, dw);
    let den_x = axis_den(dw);
    let y1 = axis_base(y, sh, dh);
    let y2 = axis_second(y, sh, dh);
    let ry = axis_frac(y, sh, dh);
    let den_y = axis_den(dh);
    let q11 = src[y1 * sw + x1];
    let q21 = src[y1 * sw + x2];
    let q12 = src[y2 * sw + x1];
    let q22 = src[y2 * sw + x2];
    PxData {
        r: bilerp_channel_spec(q11.r, q21.r, q12.r, q22.r, rx, den_x, ry, den_y) as u8,
        g: bilerp_channel_spec(q11.g, q21.g, q12.g, q22.g, rx, den_x, ry, den_y) as u8,
        b: bilerp_channel_spec(q11.b, q21.b, q12.b, q22.b, rx, den_x, ry, den_y) as u8,
        position: Vector2 { x: x as u32, y: y as u32 },
        glyph: None,
    }
}

/// The destination sample of a resampling pass at cell `(x, y)`.
pub open spec fn scale_px_spec(
    src: Seq<PxData>,
    scaling: Scaling,
    x: int,
    y: int,
    sw: int,
    sh: int,
    dw: int,
    dh: int,
) -> PxData {
    match scaling {
        Scaling::Nearest => nearest_px_spec(src, x, y, sw, sh, dw, dh),
        Scaling::Bilinear => bilinear_px_spec(src, x, y, sw, sh, dw, dh),
    }
}

/// One gray level of the grayscale bucketing; see `gray_level_spec`.
pub fn gray_level(r: u8, g: u8, b: u8, shades: u8) -> (v: u8)
    requires
        shades >= 2,
    ensures
        v == gray_level_spec(r, g, b, shades),
{
    let factor: u32 = 255 / ((shades - 1) as u32);
    proof {
        vstd::arithmetic::div_mod::lemma_div_pos_is_pos(255, (shades - 1) as int);
        vstd::arithmetic::div_mod::lemma_div_nonincreasing(255, (shades - 1) as int);
        assert(factor >= 1) by {
            vstd::arithmetic::div_mod::lemma_fundamental_div_mod(255, (shades - 1) as int);
            vstd::arithmetic::div_mod::lemma_mod_bound(255, (shades - 1) as int);
            if factor == 0 {
                assert(255int == (shades - 1) * 0 + 255int % ((shades - 1) as int));
                assert(255int % ((shades - 1) as int) < (shades - 1) as int);
            }
        }
    }
    let sum: u32 = r as u32 + g as u32 + b as u32;
    let k: u32 = (sum + 3 * factor - 1) / (3 * factor);
    proof {
        vstd::arithmetic::div_mod::lemma_div_pos_is_pos((sum + 3 * factor - 1) as int, 3 * factor);
        vstd::arithmetic::div_mod::lemma_div_nonincreasing(
            (sum + 3 * factor - 1) as int,
            3 * factor,
        );
        assert((k as int) * (factor as int) <= 1530 * 255) by (nonlinear_arith)
            requires
                0 <= k <= 1530,
                0 <= factor <= 255,
        ;
    }
    let v: u32 = k * factor;
    if v > 255 {
        255
    } else {
        v as u8
    }
}

impl Image {
    /// Mirrors the raster horizontally, vertically, or both. Positions keep
    /// covering the grid row-major: the sample moved to a cell takes that
    /// cell's position.
    pub fn flip(&mut self, horizontal: bool, vertical: bool)
        requires
            old(self).pixel_data@.len() == old(self).size.width * old(self).size.height,
            old(self).size.width >= 1,
            old(self).size.height >= 1,
        ensures
            final(self).size == old(self).size,
            final(self).multiplier == old(self).multiplier,
            final(self).pixel_data@.len() == old(self).pixel_data@.len(),
            wf_image(*final(self)),
            forall|i: int|
                0 <= i < final(self).pixel_data@.len() ==> #[trigger] final(self).pixel_data@[i]
                    == (PxData {
                    position: Vector2 {
                        x: (i % (old(self).size.width as int)) as u32,
                        y: (i / (old(self).size.width as int)) as u32,
                    },
                    ..old(self).pixel_data@[flip_src_index(
                        i,
                        old(self).size.width as int,
                        old(self).size.height as int,
                        horizontal,
                        vertical,
                    )]
                }),
    {
        let ghost orig = *self;
        let w = self.size.width as usize;
        let h = self.size.height as usize;
        let n = self.pixel_data.len();
        let mut flipped: Vec<PxData> = Vec::new();
        let mut y: usize = 0;
        while y < h
            invariant
                y <= h,
                w == orig.size.width,
                h == orig.size.height,
                w >= 1,
                h >= 1,
                *self == orig,
                n == orig.pixel_data@.len(),
                n == w * h,
                flipped@.len() == y * w,
                forall|i: int|
                    0 <= i < flipped@.len() ==> #[trigger] flipped@[i] == (PxData {
                        position: Vector2 { x: (i % (w as int)) as u32, y: (i / (w as int)) as u32 },
                        ..orig.pixel_data@[flip_src_index(
                            i,
                            w as int,
                            h as int,
                            horizontal,
                            vertical,
                        )]
                    }),
            decreases h - y,
        {
            let mut x: usize = 0;
            while x < w
                invariant
                    x <= w,
                    y < h,
                    w == orig.size.width,
                    h == orig.size.height,
                    w >= 1,
                    h >= 1,
                    *self == orig,
                    n == orig.pixel_data@.len(),
                    n == w * h,
                    flipped@.len() == y * w + x,
                    forall|i: int|
                        0 <= i < flipped@.len() ==> #[trigger] flipped@[i] == (PxData {
                            position: Vector2 {
                                x: (i % (w as int)) as u32,
                                y: (i / (w as int)) as u32,
                            },
                            ..orig.pixel_data@[flip_src_index(
                                i,
                                w as int,
                                h as int,
                                horizontal,
                                vertical,
                            )]
                        }),
                decreases w - x,
            {
                let sx = if horizontal {
                    w - 1 - x
                } else {
                    x
                };
                let sy = if vertical {
                    h - 1 - y
                } else {
                    y
                };
                proof {
                    crate::frame::lemma_row_major_bound(sx as int, sy as int, w as int, h as int);
                    crate::frame::lemma_row_major_bound(x as int, y as int, w as int, h as int);
                    crate::frame::lemma_row_major_decompose(x as int, y as int, w as int);
                }
                let src = self.pixel_data[sy * w + sx];
                let px = PxData {
                    position: Vector2 { x: x as u32, y: y as u32 },
                    ..src
                };
                flipped.push(px);
                x = x + 1;
            }
            y = y + 1;
            proof {
                assert(y * w == (y - 1) * w + w) by (nonlinear_arith);
            }
        }
        proof {
            assert(y == h);
            assert(flipped@.len() == (h as int) * (w as int));
            assert((h as int) * (w as int) == (w as int) * (h as int)) by (nonlinear_arith);
        }
        self.pixel_data = flipped;
        proof {
            assert(self.pixel_data@.len() == w * h);
            assert forall|i: int| 0 <= i < self.pixel_data@.len() implies {
                &&& (#[trigger] self.pixel_data@[i]).position.x == i % (w as int)
                &&& self.pixel_data@[i].position.y == i / (w as int)
            } by {
                assert(self.pixel_data@[i] == (PxData {
                    position: Vector2 { x: (i % (w as int)) as u32, y: (i / (w as int)) as u32 },
                    ..orig.pixel_data@[flip_src_index(i, w as int, h as int, horizontal, vertical)]
                }));
                assert(w <= u32::MAX);
                vstd::arithmetic::div_mod::lemma_mod_bound(i, w as int);
                vstd::arithmetic::div_mod::lemma_div_pos_is_pos(i, w as int);
                vstd::arithmetic::div_mod::lemma_multiply_divide_lt(i, w as int, h as int);
            }
        }
    }

    /// Resamples the raster to the target dimensions, by nearest-neighbor
    /// or bilinear interpolation. `original_size` declares the source
    /// dimensions the sample buffer is laid out with. Single-row or
    /// single-column bilinear targets are sampled from the first reachable
    /// source line instead of dividing by zero.
    pub fn scale(&mut self, size: Size, scaling: Scaling, original_size: Size)
        requires
            old(self).pixel_data@.len() == original_size.width * original_size.height,
            original_size.width >= 1,
            original_size.height >= 1,
            size.width * size.height <= usize::MAX,
        ensures
            final(self).size == size,
            final(self).multiplier == old(self).multiplier,
            final(self).pixel_data@.len() == size.width * size.height,
            wf_image(*final(self)),
            forall|i: int|
                0 <= i < final(self).pixel_data@.len() ==> #[trigger] final(self).pixel_data@[i]
                    == scale_px_spec(
                    old(self).pixel_data@,
                    scaling,
                    i % (size.width as int),
                    i / (size.width as int),
                    original_size.width as int,
                    original_size.height as int,
                    size.width as int,
                    size.height as int,
                ),
    {
        let ghost orig = *self;
        let sw = original_size.width as usize;
        let sh = original_size.height as usize;
        let dw = size.width as usize;
        let dh = size.height as usize;
        let n = self.pixel_data.len();
        let mut out: Vec<PxData> = Vec::new();
        let mut y: usize = 0;
        while y < dh
            invariant
                y <= dh,
                sw == original_size.width,
                sh == original_size.height,
                dw == size.width,
                dh == size.height,
                sw >= 1,
                sh >= 1,
                *self == orig,
                n == orig.pixel_data@.len(),
                n == sw * sh,
                dw * dh <= usize::MAX,
                out@.len() == y * dw,
                forall|i: int|
                    0 <= i < out@.len() ==> #[trigger] out@[i] == scale_px_spec(
                        orig.pixel_data@,
                        scaling,
                        i % (dw as int),
                        i / (dw as int),
                        sw as int,
                        sh as int,
                        dw as int,
                        dh as int,
                    ),
            decreases dh - y,
        {
            let mut x: usize = 0;
            while x < dw
                invariant
                    x <= dw,
                    y < dh,
                    sw == original_size.width,
                    sh == original_size.height,
                    dw == size.width,
                    dh == size.height,
                    sw >= 1,
                    sh >= 1,
                    *self == orig,
                    n == orig.pixel_data@.len(),
                    n == sw * sh,
                    dw * dh <= usize::MAX,
                    out@.len() == y * dw + x,
                    forall|i: int|
                        0 <= i < out@.len() ==> #[trigger] out@[i] == scale_px_spec(
                            orig.pixel_data@,
                            scaling,
                            i % (dw as int),
                            i / (dw as int),
                            sw as int,
                            sh as int,
                            dw as int,
                            dh as int,
                        ),
                decreases dw - x,
            {
                let px = match scaling {
                    Scaling::Nearest => {
                        proof {
                            assert((x as int) * (sw as int) < (dw as int) * (sw as int))
                                by (nonlinear_arith)
                                requires
                                    0 <= x < dw as int,
                                    sw >= 1,
                            ;
                            assert((dw as int) * (sw as int) < 0x10000000000000000)
                                by (nonlinear_arith)
                                requires
                                    0 <= dw <= 0xffff_ffff,
                                    0 <= sw <= 0xffff_ffff,
                            ;
                            vstd::arithmetic::div_mod::lemma_multiply_divide_lt(
                                (x as int) * (sw as int),
                                dw as int,
                                sw as int,
                            );
                            vstd::arithmetic::div_mod::lemma_div_pos_is_pos(
                                (x as int) * (sw as int),
                                dw as int,
                            );
                            assert((y as int) * (sh as int) < (dh as int) * (sh as int))
                                by (nonlinear_arith)
                                requires
                                    0 <= y < dh as int,
                                    sh >= 1,
                            ;
                            assert((dh as int) * (sh as int) < 0x10000000000000000)
                                by (nonlinear_arith)
                                requires
                                    0 <= dh <= 0xffff_ffff,
                                    0 <= sh <= 0xffff_ffff,
                            ;
                            vstd::arithmetic::div_mod::lemma_multiply_divide_lt(
                                (y as int) * (sh as int),
                                dh as int,
                                sh as int,
                            );
                            vstd::arithmetic::div_mod::lemma_div_pos_is_pos(
                                (y as int) * (sh as int),
                                dh as int,
                            );
                        }
                        let sx = ((x as u64) * (sw as u64) / (dw as u64)) as usize;
                        let sy = ((y as u64) * (sh as u64) / (dh as u64)) as usize;
                        proof {
                            crate::frame::lemma_row_major_bound(
                                sx as int,
                                sy as int,
                                sw as int,
                                sh as int,
                            );
                        }
                        let src = self.pixel_data[sy * sw + sx];
                        PxData { position: Vector2 { x: x as u32, y: y as u32 }, ..src }
                    },
                    Scaling::Bilinear => {
                        let (x1, x2, rx, den_x) = axis_params(x as u32, original_size.width, size.width);
                        let (y1, y2, ry, den_y) = axis_params(y as u32, original_size.height, size.height);
                        proof {
                            crate::frame::lemma_row_major_bound(
                                x1 as int,
                                y1 as int,
                                sw as int,
                                sh as int,
                            );
                            crate::frame::lemma_row_major_bound(
                                x2 as int,
                                y1 as int,
                                sw as int,
                                sh as int,
                            );
                            crate::frame::lemma_row_major_bound(
                                x1 as int,
                                y2 as int,
                                sw as int,
                                sh as int,
                            );
                            crate::frame::lemma_row_major_bound(
                                x2 as int,
                                y2 as int,
                                sw as int,
                                sh as int,
                            );
                        }
                        let q11 = self.pixel_data[y1 * sw + x1];
                        let q21 = self.pixel_data[y1 * sw + x2];
                        let q12 = self.pixel_data[y2 * sw + x1];
                        let q22 = self.pixel_data[y2 * sw + x2];
                        let r = bilerp_channel(q11.r, q21.r, q12.r, q22.r, rx, den_x, ry, den_y);
                        let g = bilerp_channel(q11.g, q21.g, q12.g, q22.g, rx, den_x, ry, den_y);
                        let b = bilerp_channel(q11.b, q21.b, q12.b, q22.b, rx, den_x, ry, den_y);
                        PxData {
                            r,
                            g,
                            b,
                            position: Vector2 { x: x as u32, y: y as u32 },
                            glyph: None,
                        }
                    },
                };
                proof {
                    crate::frame::lemma_row_major_decompose(x as int, y as int, dw as int);
                }
                out.push(px);
                x = x + 1;
            }
            y = y + 1;
            proof {
                assert(y * dw == (y - 1) * dw + dw) by (nonlinear_arith);
            }
        }
        proof {
            assert(y == dh);
            assert((dh as int) * (dw as int) == (dw as int) * (dh as int)) by (nonlinear_arith);
        }
        self.size = size;
        self.pixel_data = out;
        proof {
            assert(self.pixel_data@.len() == dw * dh);
            if dw >= 1 {
                assert forall|i: int| 0 <= i < self.pixel_data@.len() implies {
                    &&& (#[trigger] self.pixel_data@[i]).position.x == i % (dw as int)
                    &&& self.pixel_data@[i].position.y == i / (dw as int)
                } by {
                    assert(self.pixel_data@[i] == scale_px_spec(
                        orig.pixel_data@,
                        scaling,
                        i % (dw as int),
                        i / (dw as int),
                        sw as int,
                        sh as int,
                        dw as int,
                        dh as int,
                    ));
                    vstd::arithmetic::div_mod::lemma_mod_bound(i, dw as int);
                    vstd::arithmetic::div_mod::lemma_div_pos_is_pos(i, dw as int);
                    vstd::arithmetic::div_mod::lemma_multiply_divide_lt(i, dw as int, dh as int);
                }
            }
        }
    }

    /// Snaps every sample's channels to shade buckets.
    pub fn quantize(&mut self, shades: u8)
        requires
            shades >= 1,
        ensures
            final(self).size == old(self).size,
            final(self).multiplier == old(self).multiplier,
            final(self).pixel_data@.len() == old(self).pixel_data@.len(),
            forall|i: int|
                0 <= i < old(self).pixel_data@.len() ==> #[trigger] final(self).pixel_data@[i]
                    == quantize_px_spec(old(self).pixel_data@[i], shades),
    {
        let ghost orig = *self;
        let len = self.pixel_data.len();
        let mut i: usize = 0;
        while i < len
            invariant
                i <= len,
                shades >= 1,
                len == orig.pixel_data@.len(),
                self.size == orig.size,
                self.multiplier == orig.multiplier,
                self.pixel_data@.len() == len,
                forall|q: int|
                    0 <= q < i ==> #[trigger] self.pixel_data@[q] == quantize_px_spec(
                        orig.pixel_data@[q],
                        shades,
                    ),
                forall|q: int| i <= q < len ==> #[trigger] self.pixel_data@[q] == orig.pixel_data@[q],
            decreases len - i,
        {
            let mut p = self.pixel_data[i];
            p.quantize(shades);
            self.pixel_data.set(i, p);
            i = i + 1;
        }
    }

    /// Replaces every sample by its gray bucket level in all three
    /// channels. Fails if and only if fewer than two shades are asked for,
    /// leaving the raster untouched.
    pub fn grayscale(&mut self, shades: u8) -> (res: Result<(), TransformError>)
        ensures
            final(self).size == old(self).size,
            final(self).multiplier == old(self).multiplier,
            final(self).pixel_data@.len() == old(self).pixel_data@.len(),
            shades < 2 ==> {
                &&& res == Err::<(), TransformError>(TransformError::InvalidParameter)
                &&& final(self).pixel_data@ == old(self).pixel_data@
            },
            shades >= 2 ==> {
                &&& res == Ok::<(), TransformError>(())
                &&& forall|i: int|
                    0 <= i < old(self).pixel_data@.len() ==> #[trigger] final(self).pixel_data@[i]
                        == gray_bucket_px_spec(old(self).pixel_data@[i], shades)
            },
    {
        if shades < 2 {
            return Err(TransformError::InvalidParameter);
        }
        let ghost orig = *self;
        let len = self.pixel_data.len();
        let mut i: usize = 0;
        while i < len
            invariant
                i <= len,
                shades >= 2,
                len == orig.pixel_data@.len(),
                self.size == orig.size,
                self.multiplier == orig.multiplier,
                self.pixel_data@.len() == len,
                forall|q: int|
                    0 <= q < i ==> #[trigger] self.pixel_data@[q] == gray_bucket_px_spec(
                        orig.pixel_data@[q],
                        shades,
                    ),
                forall|q: int| i <= q < len ==> #[trigger] self.pixel_data@[q] == orig.pixel_data@[q],
            decreases len - i,
        {
            let p = self.pixel_data[i];
            let v = gray_level(p.r, p.g, p.b, shades);
            let mut np = p;
            np.set_color_raw(v, v, v);
            self.pixel_data.set(i, np);
            i = i + 1;
        }
        Ok(())
    }

    /// Shifts every sample's channels by `value`, clamped into channel
    /// range.
    pub fn brightness(&mut self, value: i32)
        ensures
            final(self).size == old(self).size,
            final(self).multiplier == old(self).multiplier,
            final(self).pixel_data@.len() == old(self).pixel_data@.len(),
            forall|i: int|
                0 <= i < old(self).pixel_data@.len() ==> #[trigger] final(self).pixel_data@[i]
                    == brighten_px_spec(old(self).pixel_data@[i], value),
    {
        let ghost orig = *self;
        let len = self.pixel_data.len();
        let mut i: usize = 0;
        while i < len
            invariant
                i <= len,
                len == orig.pixel_data@.len(),
                self.size == orig.size,
                self.multiplier == orig.multiplier,
                self.pixel_data@.len() == len,
                forall|q: int|
                    0 <= q < i ==> #[trigger] self.pixel_data@[q] == brighten_px_spec(
                        orig.pixel_data@[q],
                        value,
                    ),
                forall|q: int| i <= q < len ==> #[trigger] self.pixel_data@[q] == orig.pixel_data@[q],
            decreases len - i,
        {
            let p = self.pixel_data[i];
            let r = brighten_channel(p.r, value);
            let g = brighten_channel(p.g, value);
            let b = brighten_channel(p.b, value);
            let mut np = p;
            np.set_color_raw(r, g, b);
            self.pixel_data.set(i, np);
            i = i + 1;
        }
    }

    /// Composites `other` onto this raster by luminance difference: where
    /// the two samples' luminance differs by strictly more than `threshold`
    /// this raster's sample is kept, elsewhere the overlay's sample wins.
    /// Fails if and only if the two rasters' dimensions differ, leaving the
    /// raster untouched.
    pub fn mask_ontop(&mut self, other: &Image, threshold: u8) -> (res: Result<
        (),
        TransformError,
    >)
        requires
            old(self).pixel_data@.len() == old(self).size.width * old(self).size.height,
            other.pixel_data@.len() == other.size.width * other.size.height,
        ensures
            final(self).size == old(self).size,
            final(self).multiplier == old(self).multiplier,
            final(self).pixel_data@.len() == old(self).pixel_data@.len(),
            (old(self).size.width != other.size.width || old(self).size.height
                != other.size.height) ==> {
                &&& res == Err::<(), TransformError>(TransformError::DimensionMismatch)
                &&& final(self).pixel_data@ == old(self).pixel_data@
            },
            (old(self).size.width == other.size.width && old(self).size.height
                == other.size.height) ==> {
                &&& res == Ok::<(), TransformError>(())
                &&& forall|i: int|
                    0 <= i < old(self).pixel_data@.len() ==> #[trigger] final(self).pixel_data@[i]
                        == mask_px_spec(old(self).pixel_data@[i], other.pixel_data@[i], threshold)
            },
    {
        if self.size.width != other.size.width || self.size.height != other.size.height {
            return Err(TransformError::DimensionMismatch);
        }
        let ghost orig = *self;
        let len = self.pixel_data.len();
        let mut i: usize = 0;
        while i < len
            invariant
                i <= len,
                len == orig.pixel_data@.len(),
                len == other.pixel_data@.len(),
                self.size == orig.size,
                self.multiplier == orig.multiplier,
                self.pixel_data@.len() == len,
                forall|q: int|
                    0 <= q < i ==> #[trigger] self.pixel_data@[q] == mask_px_spec(
                        orig.pixel_data@[q],
                        other.pixel_data@[q],
                        threshold,
                    ),
                forall|q: int| i <= q < len ==> #[trigger] self.pixel_data@[q] == orig.pixel_data@[q],
            decreases len - i,
        {
            let p = self.pixel_data[i];
            let q = other.pixel_data[i];
            let lp = p.luminance();
            let lq = q.luminance();
            let d = if lp >= lq {
                lp - lq
            } else {
                lq - lp
            };
            if d > threshold {
                // base sample stays
            } else {
                self.pixel_data.set(i, q);
            }
            i = i + 1;
        }
        Ok(())
    }
}

/// The corner indices, fractional numerator and denominator of the rational
/// source coordinate along one axis.
fn axis_params(t: u32, s: u32, d: u32) -> (a: (usize, usize, u64, u64))
    requires
        s >= 1,
        t < d || d <= 1,
    ensures
        a.0 as int == axis_base(t as int, s as int, d as int),
        a.1 as int == axis_second(t as int, s as int, d as int),
        a.2 as int == axis_frac(t as int, s as int, d as int),
        a.3 as int == axis_den(d as int),
        a.0 < s,
        a.1 < s,
        a.2 < a.3,
        1 <= a.3 <= u32::MAX,
{
    if d <= 1 {
        let second: usize = if s > 1 {
            1
        } else {
            0
        };
        (0, second, 0, 1)
    } else {
        let den: u64 = (d - 1) as u64;
        proof {
            assert((t as int) * ((s - 1) as int) <= ((d - 1) as int) * ((s - 1) as int))
                by (nonlinear_arith)
                requires
                    0 <= t <= (d - 1) as int,
                    s >= 1,
            ;
            assert(((d - 1) as int) * ((s - 1) as int) < 0x10000000000000000) by (nonlinear_arith)
                requires
                    0 <= (d - 1) as int <= 0xffff_ffff,
                    0 <= (s - 1) as int <= 0xffff_ffff,
            ;
        }
        let num: u64 = (t as u64) * ((s - 1) as u64);
        let base64: u64 = num / den;
        let rx: u64 = num % den;
        proof {
            vstd::arithmetic::div_mod::lemma_div_is_ordered(
                num as int,
                ((d - 1) as int) * ((s - 1) as int),
                (d - 1) as int,
            );
            vstd::arithmetic::div_mod::lemma_div_multiples_vanish((s - 1) as int, (d - 1) as int);
            vstd::arithmetic::div_mod::lemma_div_pos_is_pos(num as int, (d - 1) as int);
            vstd::arithmetic::div_mod::lemma_mod_bound(num as int, (d - 1) as int);
        }
        let base = base64 as usize;
        let second: usize = if base + 1 < s as usize {
            base + 1
        } else {
            (s - 1) as usize
        };
        (base, second, rx, den)
    }
}

/// The standard bilinear weighting of four corner channels, rounded to
/// nearest; see `bilerp_channel_spec`. The result is a convex combination
/// of the corners, so it stays within channel range.
fn bilerp_channel(q11: u8, q21: u8, q12: u8, q22: u8, rx: u64, den_x: u64, ry: u64, den_y: u64) -> (v:
    u8)
    requires
        1 <= den_x <= u32::MAX,
        1 <= den_y <= u32::MAX,
        rx < den_x,
        ry < den_y,
    ensures
        v == bilerp_channel_spec(
            q11,
            q21,
            q12,
            q22,
            rx as int,
            den_x as int,
            ry as int,
            den_y as int,
        ),
{
    let wx0: u128 = (den_x - rx) as u128;
    let wx1: u128 = rx as u128;
    let wy0: u128 = (den_y - ry) as u128;
    let wy1: u128 = ry as u128;
    proof {
        lemma_bilerp_term_bound(q11 as int, wx0 as int, wy0 as int);
        lemma_bilerp_term_bound(q21 as int, wx1 as int, wy0 as int);
        lemma_bilerp_term_bound(q12 as int, wx0 as int, wy1 as int);
        lemma_bilerp_term_bound(q22 as int, wx1 as int, wy1 as int);
    }
    let t11: u128 = (q11 as u128) * wx0 * wy0;
    let t21: u128 = (q21 as u128) * wx1 * wy0;
    let t12: u128 = (q12 as u128) * wx0 * wy1;
    let t22: u128 = (q22 as u128) * wx1 * wy1;
    let a: u128 = t11 + t21 + t12 + t22;
    proof {
        assert(1 <= (den_x as int) * (den_y as int) <= 0x10000000000000000) by (nonlinear_arith)
            requires
                1 <= den_x <= 0x1_0000_0000,
                1 <= den_y <= 0x1_0000_0000,
        ;
    }
    let b: u128 = (den_x as u128) * (den_y as u128);
    proof {
        lemma_bilerp_sum_bound(
            q11 as int,
            q21 as int,
            q12 as int,
            q22 as int,
            wx0 as int,
            wx1 as int,
            wy0 as int,
            wy1 as int,
            b as int,
        );
        assert(2 * (a as int) + b as int <= 511 * (b as int));
        vstd::arithmetic::div_mod::lemma_div_is_ordered(
            2 * (a as int) + b as int,
            511 * (b as int),
            2 * (b as int),
        );
        assert(511 * (b as int) == 255 * (2 * (b as int)) + b as int) by (nonlinear_arith);
        vstd::arithmetic::div_mod::lemma_fundamental_div_mod_converse_div(
            511 * (b as int),
            2 * (b as int),
            255,
            b as int,
        );
        vstd::arithmetic::div_mod::lemma_div_pos_is_pos(2 * (a as int) + b as int, 2 * (b as int));
    }
    let v: u128 = (2 * a + b) / (2 * b);
    v as u8
}

/// A weighted corner term is bounded by the channel maximum times the
/// weight product.
proof fn lemma_bilerp_term_bound(q: int, w0: int, w1: int)
    requires
        0 <= q <= 255,
        0 <= w0 <= 0x1_0000_0000,
        0 <= w1 <= 0x1_0000_0000,
    ensures
        0 <= q * w0 <= 255 * 0x1_0000_0000,
        0 <= q * w0 * w1 <= 255 * 0x1_0000_0000 * 0x1_0000_0000,
        q * w0 * w1 <= 255 * (w0 * w1),
{
    assert(0 <= q * w0 <= 255 * 0x1_0000_0000 && 0 <= q * w0 * w1 <= 255 * 0x1_0000_0000
        * 0x1_0000_0000 && q * w0 * w1 <= 255 * (w0 * w1)) by (nonlinear_arith)
        requires
            0 <= q <= 255,
            0 <= w0 <= 0x1_0000_0000,
            0 <= w1 <= 0x1_0000_0000,
    ;
}

/// The four weight products sum to the full denominator, so the weighted
/// sum of corners is at most the channel maximum times the denominator.
proof fn lemma_bilerp_sum_bound(
    q11: int,
    q21: int,
    q12: int,
    q22: int,
    wx0: int,
    wx1: int,
    wy0: int,
    wy1: int,
    b: int,
)
    requires
        0 <= q11 <= 255,
        0 <= q21 <= 255,
        0 <= q12 <= 255,
        0 <= q22 <= 255,
        wx0 >= 0,
        wx1 >= 0,
        wy0 >= 0,
        wy1 >= 0,
        b == (wx0 + wx1) * (wy0 + wy1),
    ensures
        q11 * wx0 * wy0 + q21 * wx1 * wy0 + q12 * wx0 * wy1 + q22 * wx1 * wy1 <= 255 * b,
{
    assert(q11 * wx0 * wy0 + q21 * wx1 * wy0 + q12 * wx0 * wy1 + q22 * wx1 * wy1 <= 255 * ((wx0
        + wx1) * (wy0 + wy1))) by (nonlinear_arith)
        requires
            0 <= q11 <= 255,
            0 <= q21 <= 255,
            0 <= q12 <= 255,
            0 <= q22 <= 255,
            wx0 >= 0,
            wx1 >= 0,
            wy0 >= 0,
            wy1 >= 0,
    ;
}

/// One channel shifted by `value` and clamped into channel range.
pub fn brighten_channel(c: u8, value: i32) -> (v: u8)
    ensures
        v == brighten_channel_spec(c, value),
{
    let shifted: i64 = c as i64 + value as i64;
    if shifted < 0 {
        0
    } else if shifted > 255 {
        255
    } else {
        shifted as u8
    }
}

/// The ramp index a luminance maps to: `floor(l * len / 255)`, clamped to
/// the last ramp entry.
pub open spec fn glyph_index_spec(l: int, len: int) -> int
    recommends
        0 <= l <= 255,
        len >= 1,
{
    let i = l * len / 255;
    if i >= len {
        len - 1
    } else {
        i
    }
}

/// The glyph a sample maps to under a ramp: the ramp entry its luminance
/// selects.
pub open spec fn glyph_of_spec(p: PxData, ramp: Seq<char>) -> char
    recommends
        ramp.len() >= 1,
{
    ramp[glyph_index_spec(lum_spec(p.r, p.g, p.b), ramp.len() as int)]
}

/// The ramp index a luminance maps to; see `glyph_index_spec`.
pub fn glyph_index(l: u8, len: usize) -> (gi: usize)
    requires
        len >= 1,
    ensures
        gi as int == glyph_index_spec(l as int, len as int),
        gi < len,
{
    proof {
        assert(0 <= (l as int) * (len as int) <= 255 * 0xffff_ffff_ffff_ffff) by (nonlinear_arith)
            requires
                0 <= l <= 255,
                0 <= len <= 0xffff_ffff_ffff_ffff,
        ;
        vstd::arithmetic::div_mod::lemma_div_pos_is_pos((l as int) * (len as int), 255);
    }
    let v: u128 = (l as u128) * (len as u128) / 255;
    if v >= len as u128 {
        len - 1
    } else {
        v as usize
    }
}

/// The characters of a glyph ramp, in order.
fn ramp_chars(shades: &str) -> (v: Vec<char>)
    ensures
        v@ == shades@,
{
    let n = shades.unicode_len();
    let mut v: Vec<char> = Vec::new();
    let mut i: usize = 0;
    while i < n
        invariant
            i <= n,
            n == shades@.len(),
            v@ == shades@.subrange(0, i as int),
        decreases n - i,
    {
        v.push(shades.get_char(i));
        proof {
            assert(v@ =~= shades@.subrange(0, i + 1));
        }
        i = i + 1;
    }
    proof {
        assert(v@ =~= shades@);
    }
    v
}

/// Relies on `String`'s `FromIterator` over `char`: collecting characters
/// yields the string of exactly those characters, in order.
#[verifier::external_body]
fn chars_to_string(v: &Vec<char>) -> (s: String)
    ensures
        s@ == v@,
{
    v.iter().collect()
}

impl Image {
    /// Assigns every sample the ramp glyph its luminance selects.
    pub fn map_to_glyphs(&mut self, shades: &str)
        requires
            shades@.len() >= 1,
        ensures
            final(self).size == old(self).size,
            final(self).multiplier == old(self).multiplier,
            final(self).pixel_data@.len() == old(self).pixel_data@.len(),
            forall|i: int|
                0 <= i < old(self).pixel_data@.len() ==> #[trigger] final(self).pixel_data@[i]
                    == (PxData {
                    glyph: Some(glyph_of_spec(old(self).pixel_data@[i], shades@)),
                    ..old(self).pixel_data@[i]
                }),
    {
        let ghost orig = *self;
        let ramp = ramp_chars(shades);
        let rn = ramp.len();
        let len = self.pixel_data.len();
        let mut i: usize = 0;
        while i < len
            invariant
                i <= len,
                ramp@ == shades@,
                rn == ramp@.len(),
                rn >= 1,
                len == orig.pixel_data@.len(),
                self.size == orig.size,
                self.multiplier == orig.multiplier,
                self.pixel_data@.len() == len,
                forall|q: int|
                    0 <= q < i ==> #[trigger] self.pixel_data@[q] == (PxData {
                        glyph: Some(glyph_of_spec(orig.pixel_data@[q], shades@)),
                        ..orig.pixel_data@[q]
                    }),
                forall|q: int| i <= q < len ==> #[trigger] self.pixel_data@[q] == orig.pixel_data@[q],
            decreases len - i,
        {
            let p = self.pixel_data[i];
            let l = p.luminance();
            let gi = glyph_index(l, rn);
            let c = ramp[gi];
            let mut np = p;
            np.set_character(c);
            self.pixel_data.set(i, np);
            i = i + 1;
        }
    }

    /// Renders the raster as one glyph per sample, row-major with no line
    /// breaks, drawing from the supplied shade ramp.
    pub fn get_ascii(&self, shades: String) -> (out: String)
        requires
            shades@.len() >= 1,
        ensures
            out@.len() == self.pixel_data@.len(),
            forall|i: int|
                0 <= i < self.pixel_data@.len() ==> #[trigger] out@[i] == glyph_of_spec(
                    self.pixel_data@[i],
                    shades@,
                ),
    {
        let ramp = ramp_chars(shades.as_str());
        let rn = ramp.len();
        let len = self.pixel_data.len();
        let mut glyphs: Vec<char> = Vec::new();
        let mut i: usize = 0;
        while i < len
            invariant
                i <= len,
                ramp@ == shades@,
                rn == ramp@.len(),
                rn >= 1,
                len == self.pixel_data@.len(),
                glyphs@.len() == i,
                forall|q: int|
                    0 <= q < i ==> #[trigger] glyphs@[q] == glyph_of_spec(
                        self.pixel_data@[q],
                        shades@,
                    ),
            decreases len - i,
        {
            let p = self.pixel_data[i];
            let l = p.luminance();
            let gi = glyph_index(l, rn);
            glyphs.push(ramp[gi]);
            i = i + 1;
        }
        chars_to_string(&glyphs)
    }
}

impl Image {
    /// Replaces the raster by the grayscale visualization of its gradient
    /// magnitude: the luminance grid convolved against the selected kernel
    /// family, each magnitude clamped into channel range and replicated
    /// into the three channels.
    pub fn gradient_magnitude(&mut self, kernel: Kernel)
        requires
            old(self).pixel_data@.len() == old(self).size.width * old(self).size.height,
        ensures
            final(self).size == old(self).size,
            final(self).multiplier == old(self).multiplier,
            final(self).pixel_data@.len() == old(self).pixel_data@.len(),
            wf_image(*final(self)),
            ({
                let w = old(self).size.width as int;
                let h = old(self).size.height as int;
                let mg = magnitude_grid_spec(lum_grid_spec(old(self).pixel_data@, w, h), kernel);
                forall|i: int|
                    0 <= i < final(self).pixel_data@.len() ==> #[trigger] final(self).pixel_data@[i]
                        == gray_px_spec(mg[i / w][i % w], i % w, i / w)
            }),
    {
        let ghost orig = *self;
        let w = self.size.width;
        let h = self.size.height;
        let ghost wi = w as int;
        let ghost hi = h as int;
        let ghost lg = lum_grid_spec(orig.pixel_data@, wi, hi);
        let ghost mg = magnitude_grid_spec(lg, kernel);
        let n = self.pixel_data.len();
        let data = crate::frame::clone_pixels(&self.pixel_data);
        let mut en = Energy::new(data, w, h, kernel);
        en.compute_gradient_magnitude();
        proof {
            crate::energy::lemma_lum_grid_shape(orig.pixel_data@, wi, hi);
            crate::energy::lemma_magnitude_grid_shape(lg, kernel);
            assert(grid_view(en.pixels) == mg);
            if hi >= 1 {
                assert(grid_width(mg) == wi);
            }
            assert(grid_width(mg) * mg.len() == wi * hi || hi == 0);
            if hi == 0 {
                assert(mg.len() == 0);
                assert(grid_width(mg) == 0);
            }
            assert(grid_width(mg) * mg.len() == wi * hi) by (nonlinear_arith)
                requires
                    hi >= 1 ==> grid_width(mg) == wi,
                    mg.len() == hi,
                    hi == 0 ==> grid_width(mg) == 0,
                    hi >= 0,
            ;
        }
        let d = en.get_pixel_data();
        self.pixel_data = d;
        proof {
            assert(self.pixel_data@.len() == wi * hi);
            if wi == 0 || hi == 0 {
                assert(wi * hi == 0) by (nonlinear_arith)
                    requires
                        wi == 0 || hi == 0,
                ;
            }
            if wi >= 1 {
                assert forall|i: int| 0 <= i < self.pixel_data@.len() implies {
                    &&& (#[trigger] self.pixel_data@[i]).position.x == i % wi
                    &&& self.pixel_data@[i].position.y == i / wi
                } by {
                    assert(self.pixel_data@[i] == gray_px_spec(mg[i / wi][i % wi], i % wi, i / wi));
                    vstd::arithmetic::div_mod::lemma_mod_bound(i, wi);
                    vstd::arithmetic::div_mod::lemma_div_pos_is_pos(i, wi);
                    vstd::arithmetic::div_mod::lemma_multiply_divide_lt(i, wi, hi);
                }
            }
        }
    }

    /// Content-aware narrowing: computes the Sobel gradient magnitude of
    /// the raster, finds `count` greedy seams, removes their recorded
    /// top-row columns in one pass, and replaces the raster by the
    /// grayscale visualization of the carved grid, with the width updated
    /// to the carved row length. Fails if and only if `count` exceeds the
    /// raster's width, leaving the raster untouched.
    pub fn seam_carve(&mut self, count: usize) -> (res: Result<(), TransformError>)
        requires
            old(self).pixel_data@.len() == old(self).size.width * old(self).size.height,
            old(self).size.height >= 1,
        ensures
            final(self).multiplier == old(self).multiplier,
            ({
                let w = old(self).size.width as int;
                let h = old(self).size.height as int;
                let mg = magnitude_grid_spec(
                    lum_grid_spec(old(self).pixel_data@, w, h),
                    Kernel::Sobel,
                );
                if count > w {
                    &&& res == Err::<(), TransformError>(TransformError::InvalidParameter)
                    &&& *final(self) == *old(self)
                } else {
                    let starts = Seq::new(count as nat, |i: int| seam_start_spec(mg, i) as usize);
                    let carved = Seq::new(
                        h as nat,
                        |r: int| remove_pending_spec(mg[r], starts, 0, 0),
                    );
                    let cw = carved[0].len() as int;
                    &&& res == Ok::<(), TransformError>(())
                    &&& final(self).size.height == h
                    &&& final(self).size.width == cw
                    &&& final(self).pixel_data@.len() == cw * h
                    &&& wf_image(*final(self))
                    &&& forall|i: int|
                        0 <= i < final(self).pixel_data@.len() ==> #[trigger] final(self).pixel_data@[i]
                            == gray_px_spec(carved[i / cw][i % cw], i % cw, i / cw)
                }
            }),
    {
        let ghost orig = *self;
        let w = self.size.width;
        let h = self.size.height;
        let ghost wi = w as int;
        let ghost hi = h as int;
        let ghost lg = lum_grid_spec(orig.pixel_data@, wi, hi);
        let ghost mg = magnitude_grid_spec(lg, Kernel::Sobel);
        let n = self.pixel_data.len();
        let data = crate::frame::clone_pixels(&self.pixel_data);
        let mut en = Energy::new(data, w, h, Kernel::Sobel);
        en.compute_gradient_magnitude();
        proof {
            crate::energy::lemma_lum_grid_shape(orig.pixel_data@, wi, hi);
            crate::energy::lemma_magnitude_grid_shape(lg, Kernel::Sobel);
            assert(grid_view(en.pixels) == mg);
            assert(mg.len() == hi);
            assert(grid_width(mg) == wi);
        }
        let seams = match en.find_seams(count) {
            Ok(s) => s,
            Err(e) => {
                return Err(e);
            },
        };
        let ghost starts = Seq::new(count as nat, |i: int| seam_start_spec(mg, i) as usize);
        proof {
            assert(seams@ =~= starts);
        }
        let ghost carved = Seq::new(hi as nat, |r: int| remove_pending_spec(mg[r], starts, 0, 0));
        let fill = en.remove_seams(seams, false);
        proof {
            assert(fill == Ok::<(), TransformError>(()));
            assert forall|r: int| 0 <= r < hi implies #[trigger] grid_view(en.pixels)[r]
                == carved[r] by {}
            assert(grid_view(en.pixels) =~= carved);
            // The carved grid is rectangular: removal shrinks equal-length
            // rows alike.
            assert forall|r: int| 0 <= r < carved.len() implies (#[trigger] carved[r]).len()
                == grid_width(carved) by {
                crate::seam::lemma_remove_pending_len_eq(mg[r], mg[0], starts, 0, 0);
            }
            crate::seam::lemma_remove_pending_len_le(mg[0], starts, 0, 0);
            assert(grid_width(carved) <= wi);
            assert(grid_width(carved) * carved.len() <= wi * hi) by (nonlinear_arith)
                requires
                    0 <= grid_width(carved) <= wi,
                    carved.len() == hi,
                    hi >= 0,
            ;
        }
        let neww = en.pixels[0].len();
        proof {
            assert(grid_view(en.pixels)[0] == en.pixels@[0]@);
            assert(neww == grid_width(carved));
        }
        let d = en.get_pixel_data();
        self.size = Size { width: neww as u32, height: h };
        self.pixel_data = d;
        proof {
            let cw = grid_width(carved);
            assert(self.pixel_data@.len() == cw * carved.len());
            if cw >= 1 {
                assert forall|i: int| 0 <= i < self.pixel_data@.len() implies {
                    &&& (#[trigger] self.pixel_data@[i]).position.x == i % cw
                    &&& self.pixel_data@[i].position.y == i / cw
                } by {
                    assert(self.pixel_data@[i] == gray_px_spec(carved[i / cw][i % cw], i % cw, i
                        / cw));
                    vstd::arithmetic::div_mod::lemma_mod_bound(i, cw);
                    vstd::arithmetic::div_mod::lemma_div_pos_is_pos(i, cw);
                    vstd::arithmetic::div_mod::lemma_multiply_divide_lt(i, cw, hi);
                }
            }
            if cw == 0 {
                assert(self.pixel_data@.len() == 0) by (nonlinear_arith)
                    requires
                        self.pixel_data@.len() == cw * carved.len(),
                        cw == 0,
                ;
            }
        }
        Ok(())
    }
}

/// A higher luminance never maps to an earlier ramp index: the glyph
/// mapping is non-decreasing along the ramp, whichever direction the caller
/// ordered it in.
pub proof fn lemma_glyph_index_monotone(l1: int, l2: int, len: int)
    requires
        0 <= l1 <= l2,
        len >= 1,
    ensures
        glyph_index_spec(l1, len) <= glyph_index_spec(l2, len),
{
    vstd::arithmetic::mul::lemma_mul_inequality(l1, l2, len);
    vstd::arithmetic::div_mod::lemma_div_is_ordered(l1 * len, l2 * len, 255);
    vstd::arithmetic::div_mod::lemma_div_pos_is_pos(l1 * len, 255);
}

/// The luminance projection is the identity on gray samples: when the three
/// channels agree, the unweighted mean equals the channel value read
/// directly.
pub proof fn lemma_lum_of_gray(c: u8)
    ensures
        lum_spec(c, c, c) == c,
{
    assert((c + c + c) as int == 3 * c);
    vstd::arithmetic::div_mod::lemma_div_multiples_vanish(c as int, 3);
}

/// On an already-gray raster the energy engine's luminance grid equals the
/// direct channel read at every cell.
pub proof fn lemma_lum_grid_of_gray(pixels: Seq<PxData>, w: int, h: int)
    requires
        pixels.len() == w * h,
        forall|i: int|
            0 <= i < pixels.len() ==> (#[trigger] pixels[i]).r == pixels[i].g && pixels[i].g
                == pixels[i].b,
    ensures
        forall|y: int, x: int|
            0 <= y < h && 0 <= x < w ==> #[trigger] lum_grid_spec(pixels, w, h)[y][x] == pixels[y
                * w + x].r,
{
    assert forall|y: int, x: int| 0 <= y < h && 0 <= x < w implies #[trigger] lum_grid_spec(
        pixels,
        w,
        h,
    )[y][x] == pixels[y * w + x].r by {
        crate::frame::lemma_row_major_bound(x, y, w, h);
        let p = pixels[y * w + x];
        lemma_lum_of_gray(p.r);
    }
}

} // verus!
