//! A single color sample: three 8-bit channels, an integer 2D position, and
//! an optional display glyph.

use vstd::prelude::*;

verus! {

/// An integer 2D position.
#[derive(Clone, Copy, Debug)]
pub struct Vector2 {
    pub x: u32,
    pub y: u32,
}

impl Vector2 {
    pub fn new(x: u32, y: u32) -> (v: Vector2)
        ensures
            v.x == x,
            v.y == y,
    {
        Vector2 { x, y }
    }

    pub fn get_x(&self) -> (r: u32)
        ensures
            r == self.x,
    {
        self.x
    }

    pub fn get_y(&self) -> (r: u32)
        ensures
            r == self.y,
    {
        self.y
    }

    pub fn set_x(&mut self, x: u32)
        ensures
            final(self).x == x,
            final(self).y == old(self).y,
    {
        self.x = x;
    }

    pub fn set_y(&mut self, y: u32)
        ensures
            final(self).x == old(self).x,
            final(self).y == y,
    {
        self.y = y;
    }
}

/// One pixel sample: color channels, position, and an optional glyph that the
/// glyph mapper assigns.
#[derive(Clone, Copy, Debug)]
pub struct PxData {
    pub r: u8,
    pub g: u8,
    pub b: u8,
    pub position: Vector2,
    pub glyph: Option<char>,
}

/// The unweighted mean of the three channels, as integer division.
/// This is the luminance every stage of the pipeline projects a pixel to.
pub open spec fn lum_spec(r: u8, g: u8, b: u8) -> int {
    (r + g + b) / 3
}

/// One channel after shade quantization: the channel is snapped to one of
/// `shades + 1` levels by rounding `shades * c / 255` to the nearest integer
/// (halves up) and scaling back by the integer step `255 / shades`.
pub open spec fn quantize_channel_spec(c: u8, shades: u8) -> int
    recommends
        shades >= 1,
{
    let k = (2 * shades * c + 255) / 510;
    (k * 255) / (shades as int)
}

/// A sample after shade quantization: each channel snapped to its bucket,
/// everything else untouched.
pub open spec fn quantize_px_spec(p: PxData, shades: u8) -> PxData {
    PxData {
        r: quantize_channel_spec(p.r, shades) as u8,
        g: quantize_channel_spec(p.g, shades) as u8,
        b: quantize_channel_spec(p.b, shades) as u8,
        ..p
    }
}

/// One channel after a brightness shift: the channel plus `value`, clamped
/// into `[0, 255]`.
pub open spec fn brighten_channel_spec(c: u8, value: i32) -> int {
    if c + value < 0 {
        0
    } else if c + value > 255 {
        255
    } else {
        c + value
    }
}

impl PxData {
    pub fn new(r: u8, g: u8, b: u8, position: Vector2) -> (p: PxData)
        ensures
            p.r == r,
            p.g == g,
            p.b == b,
            p.position == position,
            p.glyph is None,
    {
        PxData { r, g, b, position, glyph: None }
    }

    pub fn get_r(&self) -> (r: u8)
        ensures
            r == self.r,
    {
        self.r
    }

    pub fn get_g(&self) -> (r: u8)
        ensures
            r == self.g,
    {
        self.g
    }

    pub fn get_b(&self) -> (r: u8)
        ensures
            r == self.b,
    {
        self.b
    }

    pub fn get_color_raw(&self) -> (c: (u8, u8, u8))
        ensures
            c == (self.r, self.g, self.b),
    {
        (self.r, self.g, self.b)
    }

    pub fn get_x(&self) -> (r: u32)
        ensures
            r == self.position.x,
    {
        self.position.x
    }

    pub fn get_y(&self) -> (r: u32)
        ensures
            r == self.position.y,
    {
        self.position.y
    }

    pub fn set_x(&mut self, x: u32)
        ensures
            *final(self) == (PxData { position: Vector2 { x, y: old(self).position.y }, ..*old(self) }),
    {
        self.position.x = x;
    }

    pub fn set_y(&mut self, y: u32)
        ensures
            *final(self) == (PxData { position: Vector2 { x: old(self).position.x, y }, ..*old(self) }),
    {
        self.position.y = y;
    }

    pub fn set_position(&mut self, position: Vector2)
        ensures
            *final(self) == (PxData { position, ..*old(self) }),
    {
        self.position = position;
    }

    pub fn set_color_raw(&mut self, r: u8, g: u8, b: u8)
        ensures
            *final(self) == (PxData { r, g, b, ..*old(self) }),
    {
        self.r = r;
        self.g = g;
        self.b = b;
    }

    pub fn set_character(&mut self, glyph: char)
        ensures
            *final(self) == (PxData { glyph: Some(glyph), ..*old(self) }),
    {
        self.glyph = Some(glyph);
    }

    /// The assigned glyph, or a space when none has been assigned.
    pub fn get_character(&self) -> (c: char)
        ensures
            c == (if self.glyph is Some {
                self.glyph->0
            } else {
                ' '
            }),
    {
        match self.glyph {
            Some(c) => c,
            None => ' ',
        }
    }

    /// The unweighted mean of the three channels.
    pub fn luminance(&self) -> (l: u8)
        ensures
            l == lum_spec(self.r, self.g, self.b),
    {
        let sum: u16 = self.r as u16 + self.g as u16 + self.b as u16;
        (sum / 3) as u8
    }

    /// Snaps each channel to a shade bucket.
    pub fn quantize(&mut self, shades: u8)
        requires
            shades >= 1,
        ensures
            *final(self) == (PxData {
                r: quantize_channel_spec(old(self).r, shades) as u8,
                g: quantize_channel_spec(old(self).g, shades) as u8,
                b: quantize_channel_spec(old(self).b, shades) as u8,
                ..*old(self)
            }),
    {
        self.r = quantize_channel(self.r, shades);
        self.g = quantize_channel(self.g, shades);
        self.b = quantize_channel(self.b, shades);
    }
}

/// The quantized value of a channel stays inside the channel's range.
pub proof fn lemma_quantize_channel_bound(c: u8, shades: u8)
    requires
        shades >= 1,
    ensures
        0 <= quantize_channel_spec(c, shades) <= 255,
{
    let s = shades as int;
    let ci = c as int;
    let x = 2 * s * ci + 255;
    let k = x / 510;
    assert(2 * s * ci <= 510 * s) by (nonlinear_arith)
        requires
            0 <= ci <= 255,
            0 <= s,
    ;
    vstd::arithmetic::div_mod::lemma_div_pos_is_pos(x, 510);
    vstd::arithmetic::div_mod::lemma_fundamental_div_mod(x, 510);
    vstd::arithmetic::div_mod::lemma_mod_bound(x, 510);
    // 510 * k <= x <= 510 * s + 255 < 510 * (s + 1), so k <= s.
    assert(510 * k <= 510 * s + 255);
    assert(k <= s);
    vstd::arithmetic::mul::lemma_mul_inequality(k, s, 255);
    vstd::arithmetic::div_mod::lemma_div_is_ordered(k * 255, s * 255, s);
    vstd::arithmetic::div_mod::lemma_div_multiples_vanish(255, s);
    assert(s * 255 == 255 * s) by (nonlinear_arith);
    vstd::arithmetic::div_mod::lemma_div_pos_is_pos(k * 255, s);
}

/// Snaps one channel to a shade bucket; see `quantize_channel_spec`.
pub fn quantize_channel(c: u8, shades: u8) -> (q: u8)
    requires
        shades >= 1,
    ensures
        q == quantize_channel_spec(c, shades),
{
    proof {
        assert(2 * (shades as int) * (c as int) <= 130050) by (nonlinear_arith)
            requires
                shades <= 255,
                c <= 255,
                shades >= 0,
                c >= 0,
        ;
        lemma_quantize_channel_bound(c, shades);
    }
    let k: u32 = (2 * (shades as u32) * (c as u32) + 255) / 510;
    let q: u32 = (k * 255) / (shades as u32);
    q as u8
}

} // verus!
