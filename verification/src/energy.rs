//! The convolution / energy engine: projects a raster to an integer
//! luminance grid and convolves it against a selectable 3x3 kernel family to
//! get a per-pixel gradient magnitude (the "energy" that seam carving
//! consumes).

use vstd::prelude::*;

use crate::pixel::{lum_spec, PxData, Vector2};

verus! {

/// The selectable 3x3 kernel family.
#[derive(Clone, Copy, Debug, PartialEq, Eq, Structural)]
pub enum Kernel {
    Sobel,
    Prewitt,
}

/// A per-pixel scalar cost grid, row-major, with the kernel family the
/// gradient pass will use.
#[derive(Clone, Debug)]
pub struct Energy {
    pub pixels: Vec<Vec<i32>>,
    pub kernel: Kernel,
}

/// The mathematical view of a grid: a sequence of rows.
pub open spec fn grid_view(g: Vec<Vec<i32>>) -> Seq<Seq<i32>> {
    Seq::new(g@.len() as nat, |i: int| g@[i]@)
}

/// The width of a grid: the length of its first row (zero when empty).
pub open spec fn grid_width(g: Seq<Seq<i32>>) -> int {
    if g.len() == 0 {
        0
    } else {
        g[0].len() as int
    }
}

/// A rectangular grid: every row has the width of the first.
pub open spec fn grid_rect(g: Seq<Seq<i32>>) -> bool {
    forall|r: int| 0 <= r < g.len() ==> (#[trigger] g[r]).len() == grid_width(g)
}

/// The x-direction coefficient of the 3x3 kernel at offset `(dy, dx)`,
/// row-major: Sobel's x matrix is `[[-1,0,1],[-2,0,2],[-1,0,1]]` and
/// Prewitt's is `[[-1,0,1],[-1,0,1],[-1,0,1]]`.
pub open spec fn kernel_x_coeff(k: Kernel, dy: int, dx: int) -> int {
    match k {
        Kernel::Sobel => if dx == -1 {
            if dy == 0 {
                -2int
            } else {
                -1int
            }
        } else if dx == 1 {
            if dy == 0 {
                2int
            } else {
                1int
            }
        } else {
            0int
        },
        Kernel::Prewitt => dx,
    }
}

/// The y-direction coefficient at offset `(dy, dx)`: Sobel's y matrix is
/// `[[-1,-2,-1],[0,0,0],[1,2,1]]` and Prewitt's is `[[-1,-1,-1],[0,0,0],[1,1,1]]`.
pub open spec fn kernel_y_coeff(k: Kernel, dy: int, dx: int) -> int {
    match k {
        Kernel::Sobel => if dy == -1 {
            if dx == 0 {
                -2int
            } else {
                -1int
            }
        } else if dy == 1 {
            if dx == 0 {
                2int
            } else {
                1int
            }
        } else {
            0int
        },
        Kernel::Prewitt => dy,
    }
}

/// Whether the neighborhood cell at offset `(dy, dx)` from `(x, y)` lies
/// inside the grid. Cells outside contribute zero to a convolution: the
/// boundary is skipped, not reflected or clamped.
pub open spec fn conv_in_bounds(g: Seq<Seq<i32>>, x: int, y: int, dy: int, dx: int) -> bool {
    0 <= y + dy < g.len() && 0 <= x + dx < g[y + dy].len()
}

/// One guarded convolution term: coefficient times the neighbor cell, or
/// zero when the neighbor is outside the grid.
pub open spec fn conv_term(g: Seq<Seq<i32>>, c: int, x: int, y: int, dy: int, dx: int) -> int {
    if conv_in_bounds(g, x, y, dy, dx) {
        c * g[y + dy][x + dx]
    } else {
        0
    }
}

/// The x-gradient at `(x, y)`: the 3x3 neighborhood convolved against the
/// family's x kernel, with out-of-grid cells contributing zero.
pub open spec fn grad_x_spec(g: Seq<Seq<i32>>, k: Kernel, x: int, y: int) -> int {
    conv_term(g, kernel_x_coeff(k, -1, -1), x, y, -1, -1) + conv_term(
        g,
        kernel_x_coeff(k, -1, 0),
        x,
        y,
        -1,
        0,
    ) + conv_term(g, kernel_x_coeff(k, -1, 1), x, y, -1, 1) + conv_term(
        g,
        kernel_x_coeff(k, 0, -1),
        x,
        y,
        0,
        -1,
    ) + conv_term(g, kernel_x_coeff(k, 0, 0), x, y, 0, 0) + conv_term(
        g,
        kernel_x_coeff(k, 0, 1),
        x,
        y,
        0,
        1,
    ) + conv_term(g, kernel_x_coeff(k, 1, -1), x, y, 1, -1) + conv_term(
        g,
        kernel_x_coeff(k, 1, 0),
        x,
        y,
        1,
        0,
    ) + conv_term(g, kernel_x_coeff(k, 1, 1), x, y, 1, 1)
}

/// The y-gradient at `(x, y)`, as `grad_x_spec` but with the y kernel.
pub open spec fn grad_y_spec(g: Seq<Seq<i32>>, k: Kernel, x: int, y: int) -> int {
    conv_term(g, kernel_y_coeff(k, -1, -1), x, y, -1, -1) + conv_term(
        g,
        kernel_y_coeff(k, -1, 0),
        x,
        y,
        -1,
        0,
    ) + conv_term(g, kernel_y_coeff(k, -1, 1), x, y, -1, 1) + conv_term(
        g,
        kernel_y_coeff(k, 0, -1),
        x,
        y,
        0,
        -1,
    ) + conv_term(g, kernel_y_coeff(k, 0, 0), x, y, 0, 0) + conv_term(
        g,
        kernel_y_coeff(k, 0, 1),
        x,
        y,
        0,
        1,
    ) + conv_term(g, kernel_y_coeff(k, 1, -1), x, y, 1, -1) + conv_term(
        g,
        kernel_y_coeff(k, 1, 0),
        x,
        y,
        1,
        0,
    ) + conv_term(g, kernel_y_coeff(k, 1, 1), x, y, 1, 1)
}

/// `r` is `sqrt(v)` rounded to the nearest integer (halves up): equivalent
/// to `(r - 1/2)^2 <= v < (r + 1/2)^2`, stated over integers.
pub open spec fn is_rounded_sqrt(v: int, r: int) -> bool {
    &&& r >= 0
    &&& 4 * v < (2 * r + 1) * (2 * r + 1)
    &&& (r == 0 || (2 * r - 1) * (2 * r - 1) <= 4 * v)
}

/// `sqrt(v)` rounded to the nearest integer; meaningful for `v >= 0`, where
/// exactly one integer satisfies `is_rounded_sqrt`.
pub open spec fn sqrt_round_spec(v: int) -> int {
    choose|r: int| is_rounded_sqrt(v, r)
}

/// At most one integer is the rounded square root of `v`.
pub proof fn lemma_rounded_sqrt_unique(v: int, r1: int, r2: int)
    requires
        is_rounded_sqrt(v, r1),
        is_rounded_sqrt(v, r2),
    ensures
        r1 == r2,
{
    if r1 < r2 {
        assert((2 * r2 - 1) * (2 * r2 - 1) <= 4 * v);
        assert((2 * r2 - 1) * (2 * r2 - 1) >= (2 * r1 + 1) * (2 * r1 + 1)) by (nonlinear_arith)
            requires
                r1 < r2,
                r1 >= 0,
        ;
        assert(false);
    }
    if r2 < r1 {
        assert((2 * r1 - 1) * (2 * r1 - 1) >= (2 * r2 + 1) * (2 * r2 + 1)) by (nonlinear_arith)
            requires
                r2 < r1,
                r2 >= 0,
        ;
        assert(false);
    }
}

/// A witness pins down `sqrt_round_spec`.
pub proof fn lemma_sqrt_round_spec_is(v: int, r: int)
    requires
        is_rounded_sqrt(v, r),
    ensures
        sqrt_round_spec(v) == r,
{
    assert(exists|q: int| is_rounded_sqrt(v, q));
    let c = choose|q: int| is_rounded_sqrt(v, q);
    lemma_rounded_sqrt_unique(v, r, c);
}

/// The gradient magnitude stored per cell: `sqrt(gx^2 + gy^2)` rounded to
/// the nearest integer, saturated at the cell's maximum rather than wrapped.
pub open spec fn magnitude_spec(gx: int, gy: int) -> int {
    let m = sqrt_round_spec(gx * gx + gy * gy);
    if m > i32::MAX {
        i32::MAX as int
    } else {
        m
    }
}

/// The grid after a gradient-magnitude pass: every cell replaced by the
/// magnitude at its position, computed against the original grid.
pub open spec fn magnitude_grid_spec(g: Seq<Seq<i32>>, k: Kernel) -> Seq<Seq<i32>> {
    Seq::new(
        g.len(),
        |y: int|
            Seq::new(
                g[y].len(),
                |x: int| magnitude_spec(grad_x_spec(g, k, x, y), grad_y_spec(g, k, x, y)) as i32,
            ),
    )
}

/// The integer luminance projection of a raster: cell `(x, y)` is the
/// unweighted mean of the channels of the sample at row-major index
/// `y * w + x`.
pub open spec fn lum_grid_spec(pixels: Seq<PxData>, w: int, h: int) -> Seq<Seq<i32>> {
    Seq::new(
        h as nat,
        |y: int|
            Seq::new(
                w as nat,
                |x: int|
                    lum_spec(
                        pixels[y * w + x].r,
                        pixels[y * w + x].g,
                        pixels[y * w + x].b,
                    ) as i32,
            ),
    )
}

/// `sqrt(v)` rounded to nearest, by binary search for the floor square root
/// and one comparison for the rounding.
fn sqrt_round_u128(v: u128) -> (r: u64)
    requires
        v < 0x10000000000000000000,  // 2^76
    ensures
        is_rounded_sqrt(v as int, r as int),
        r as int == sqrt_round_spec(v as int),
{
    let mut lo: u64 = 0;
    let mut hi: u64 = 0x4000000000;  // 2^38
    while lo + 1 < hi
        invariant
            lo < hi,
            hi <= 0x4000000000,
            (lo as int) * (lo as int) <= v as int,
            (v as int) < (hi as int) * (hi as int),
        decreases hi - lo,
    {
        let mid = lo + (hi - lo) / 2;
        proof {
            assert((mid as int) * (mid as int) < 0x10000000000000000000) by (nonlinear_arith)
                requires
                    0 <= mid < 0x4000000000,
            ;
        }
        let sq: u128 = (mid as u128) * (mid as u128);
        if sq <= v {
            lo = mid;
        } else {
            hi = mid;
        }
    }
    let s = lo;
    let rem: u128 = v - (s as u128) * (s as u128);
    let r = if rem > s as u128 {
        s + 1
    } else {
        s
    };
    proof {
        let vi = v as int;
        let si = s as int;
        assert(hi == lo + 1);
        assert(vi < (si + 1) * (si + 1));
        if rem > s as u128 {
            assert(is_rounded_sqrt(vi, si + 1)) by (nonlinear_arith)
                requires
                    si >= 0,
                    si * si <= vi,
                    vi < (si + 1) * (si + 1),
                    vi - si * si > si,
            ;
        } else {
            assert(is_rounded_sqrt(vi, si)) by (nonlinear_arith)
                requires
                    si >= 0,
                    si * si <= vi,
                    vi < (si + 1) * (si + 1),
                    vi - si * si <= si,
            ;
        }
        lemma_sqrt_round_spec_is(vi, r as int);
    }
    r
}

/// The pair of kernel coefficients (x-direction, y-direction) at offset
/// `(dy, dx)`.
fn kernel_coeff(kernel: &Kernel, dy: i32, dx: i32) -> (c: (i32, i32))
    requires
        -1 <= dy <= 1,
        -1 <= dx <= 1,
    ensures
        c.0 == kernel_x_coeff(*kernel, dy as int, dx as int),
        c.1 == kernel_y_coeff(*kernel, dy as int, dx as int),
        -2 <= c.0 <= 2,
        -2 <= c.1 <= 2,
{
    match kernel {
        Kernel::Sobel => {
            let cx = dx * (if dy == 0 {
                2
            } else {
                1
            });
            let cy = dy * (if dx == 0 {
                2
            } else {
                1
            });
            (cx, cy)
        },
        Kernel::Prewitt => (dx, dy),
    }
}

/// A product of a coefficient in `[-2, 2]` with a cell value, without
/// general multiplication.
fn mul_small(c: i64, v: i64) -> (r: i64)
    requires
        -2 <= c <= 2,
        -0x8000_0000 <= v <= 0x8000_0000,
    ensures
        r == c * v,
{
    if c == 0 {
        proof {
            assert(c * v == 0) by (nonlinear_arith)
                requires
                    c == 0,
            ;
        }
        0
    } else if c == 1 {
        proof {
            assert(c * v == v) by (nonlinear_arith)
                requires
                    c == 1,
            ;
        }
        v
    } else if c == -1 {
        proof {
            assert(c * v == -v) by (nonlinear_arith)
                requires
                    c == -1,
            ;
        }
        -v
    } else if c == 2 {
        proof {
            assert(c * v == v + v) by (nonlinear_arith)
                requires
                    c == 2,
            ;
        }
        v + v
    } else {
        proof {
            assert(c * v == -v - v) by (nonlinear_arith)
                requires
                    c == -2,
            ;
        }
        -v - v
    }
}

/// The luminance grid of a raster has the raster's dimensions.
pub proof fn lemma_lum_grid_shape(pixels: Seq<PxData>, w: int, h: int)
    requires
        w >= 0,
        h >= 0,
    ensures
        lum_grid_spec(pixels, w, h).len() == h,
        forall|y: int| 0 <= y < h ==> (#[trigger] lum_grid_spec(pixels, w, h)[y]).len() == w,
        grid_rect(lum_grid_spec(pixels, w, h)),
        h >= 1 ==> grid_width(lum_grid_spec(pixels, w, h)) == w,
{
    let g = lum_grid_spec(pixels, w, h);
    assert forall|y: int| 0 <= y < h implies (#[trigger] g[y]).len() == w by {}
    if h >= 1 {
        assert(g[0].len() == w);
    }
}

/// A gradient-magnitude pass keeps the grid's dimensions, row by row.
pub proof fn lemma_magnitude_grid_shape(g: Seq<Seq<i32>>, k: Kernel)
    ensures
        magnitude_grid_spec(g, k).len() == g.len(),
        forall|y: int|
            0 <= y < g.len() ==> (#[trigger] magnitude_grid_spec(g, k)[y]).len() == g[y].len(),
        grid_rect(g) ==> grid_rect(magnitude_grid_spec(g, k)),
        grid_rect(g) ==> grid_width(magnitude_grid_spec(g, k)) == grid_width(g),
{
    let mg = magnitude_grid_spec(g, k);
    assert forall|y: int| 0 <= y < g.len() implies (#[trigger] mg[y]).len() == g[y].len() by {}
    if grid_rect(g) {
        assert forall|y: int| 0 <= y < mg.len() implies (#[trigger] mg[y]).len() == grid_width(
            mg,
        ) by {
            assert(g[y].len() == grid_width(g));
            if g.len() >= 1 {
                assert(mg[0].len() == g[0].len());
            }
        }
    }
}

/// A cell clamped into a channel's range.
pub open spec fn clamp_cell_spec(v: i32) -> int {
    if v < 0 {
        0
    } else if v > 255 {
        255
    } else {
        v as int
    }
}

/// The gray sample a grid cell becomes when the grid is turned back into a
/// raster: the clamped cell replicated into all three channels.
pub open spec fn gray_px_spec(v: i32, x: int, y: int) -> PxData {
    PxData {
        r: clamp_cell_spec(v) as u8,
        g: clamp_cell_spec(v) as u8,
        b: clamp_cell_spec(v) as u8,
        position: Vector2 { x: x as u32, y: y as u32 },
        glyph: None,
    }
}

/// A cell clamped into a channel's range.
pub fn clamp_cell(v: i32) -> (c: u8)
    ensures
        c == clamp_cell_spec(v),
{
    if v < 0 {
        0
    } else if v > 255 {
        255
    } else {
        v as u8
    }
}

/// The saturated gradient magnitude from a gradient pair.
fn magnitude_of(gx: i64, gy: i64) -> (m: i32)
    requires
        -0x9_0000_0000 <= gx <= 0x9_0000_0000,
        -0x9_0000_0000 <= gy <= 0x9_0000_0000,
    ensures
        m == magnitude_spec(gx as int, gy as int),
        m >= 0,
{
    proof {
        assert(0 <= (gx as int) * (gx as int) <= 0x51_0000_0000_0000_0000) by (nonlinear_arith)
            requires
                -0x9_0000_0000 <= gx <= 0x9_0000_0000,
        ;
        assert(0 <= (gy as int) * (gy as int) <= 0x51_0000_0000_0000_0000) by (nonlinear_arith)
            requires
                -0x9_0000_0000 <= gy <= 0x9_0000_0000,
        ;
    }
    let vx: i128 = (gx as i128) * (gx as i128);
    let vy: i128 = (gy as i128) * (gy as i128);
    let v: u128 = (vx + vy) as u128;
    let s = sqrt_round_u128(v);
    if s > 0x7fff_ffff {
        0x7fff_ffff
    } else {
        s as i32
    }
}

/// One guarded convolution term against both kernels: the pair
/// `(x-term, y-term)` at offset `(dy, dx)` from `(x, y)`.
fn conv_terms_at(pixels: &Vec<Vec<i32>>, kernel: &Kernel, x: usize, y: usize, dy: i32, dx: i32) -> (t: (
    i64,
    i64,
))
    requires
        -1 <= dy <= 1,
        -1 <= dx <= 1,
    ensures
        t.0 == conv_term(
            grid_view(*pixels),
            kernel_x_coeff(*kernel, dy as int, dx as int),
            x as int,
            y as int,
            dy as int,
            dx as int,
        ),
        t.1 == conv_term(
            grid_view(*pixels),
            kernel_y_coeff(*kernel, dy as int, dx as int),
            x as int,
            y as int,
            dy as int,
            dx as int,
        ),
        -0x1_0000_0000 <= t.0 <= 0x1_0000_0000,
        -0x1_0000_0000 <= t.1 <= 0x1_0000_0000,
{
    let h = pixels.len();
    let yy_opt: Option<usize> = if dy == -1 {
        if y >= 1 {
            Some(y - 1)
        } else {
            None
        }
    } else if dy == 0 {
        Some(y)
    } else {
        if y < usize::MAX {
            Some(y + 1)
        } else {
            None
        }
    };
    match yy_opt {
        None => (0, 0),
        Some(yy) => {
            if yy < h {
                let row = &pixels[yy];
                let wrow = row.len();
                let xx_opt: Option<usize> = if dx == -1 {
                    if x >= 1 {
                        Some(x - 1)
                    } else {
                        None
                    }
                } else if dx == 0 {
                    Some(x)
                } else {
                    if x < usize::MAX {
                        Some(x + 1)
                    } else {
                        None
                    }
                };
                match xx_opt {
                    None => (0, 0),
                    Some(xx) => {
                        if xx < wrow {
                            let v = row[xx];
                            let (cx, cy) = kernel_coeff(kernel, dy, dx);
                            (mul_small(cx as i64, v as i64), mul_small(cy as i64, v as i64))
                        } else {
                            (0, 0)
                        }
                    },
                }
            } else {
                (0, 0)
            }
        },
    }
}

impl Energy {
    /// Projects a raster to its integer luminance grid; the grid keeps the
    /// raster's dimensions and remembers the kernel family for the gradient
    /// pass.
    pub fn new(pixel_data: Vec<PxData>, width: u32, height: u32, kernel: Kernel) -> (en: Energy)
        requires
            pixel_data@.len() == width * height,
        ensures
            en.kernel == kernel,
            grid_view(en.pixels) == lum_grid_spec(pixel_data@, width as int, height as int),
    {
        let w = width as usize;
        let h = height as usize;
        let n = pixel_data.len();
        let ghost target = lum_grid_spec(pixel_data@, width as int, height as int);
        let mut rows: Vec<Vec<i32>> = Vec::new();
        let mut y: usize = 0;
        while y < h
            invariant
                y <= h,
                w == width,
                h == height,
                pixel_data@.len() == width * height,
                pixel_data@.len() <= usize::MAX,
                target == lum_grid_spec(pixel_data@, width as int, height as int),
                rows@.len() == y,
                forall|r: int| 0 <= r < y ==> (#[trigger] rows@[r])@ == target[r],
            decreases h - y,
        {
            let mut row: Vec<i32> = Vec::new();
            let mut x: usize = 0;
            while x < w
                invariant
                    x <= w,
                    y < h,
                    w == width,
                    h == height,
                    pixel_data@.len() == width * height,
                    pixel_data@.len() <= usize::MAX,
                    target == lum_grid_spec(pixel_data@, width as int, height as int),
                    row@.len() == x,
                    forall|j: int| 0 <= j < x ==> #[trigger] row@[j] == target[y as int][j],
                decreases w - x,
            {
                proof {
                    lemma_row_major_index(x as int, y as int, w as int, h as int);
                }
                let index = y * w + x;
                let p = &pixel_data[index];
                let l: u16 = p.r as u16 + p.g as u16 + p.b as u16;
                row.push((l / 3) as i32);
                x = x + 1;
            }
            proof {
                assert(row@ =~= target[y as int]);
            }
            rows.push(row);
            y = y + 1;
        }
        proof {
            assert(grid_view(rows) =~= target);
        }
        Energy { pixels: rows, kernel }
    }

    /// A copy of the cost grid.
    pub fn get_pixels(&self) -> (g: Vec<Vec<i32>>)
        ensures
            grid_view(g) == grid_view(self.pixels),
    {
        let mut rows: Vec<Vec<i32>> = Vec::new();
        let h = self.pixels.len();
        let mut y: usize = 0;
        while y < h
            invariant
                y <= h,
                h == self.pixels@.len(),
                rows@.len() == y,
                forall|r: int| 0 <= r < y ==> (#[trigger] rows@[r])@ == self.pixels@[r]@,
            decreases h - y,
        {
            let src = &self.pixels[y];
            let w = src.len();
            let mut row: Vec<i32> = Vec::new();
            let mut x: usize = 0;
            while x < w
                invariant
                    x <= w,
                    w == src@.len(),
                    row@.len() == x,
                    forall|j: int| 0 <= j < x ==> #[trigger] row@[j] == src@[j],
                decreases w - x,
            {
                row.push(src[x]);
                x = x + 1;
            }
            proof {
                assert(row@ =~= src@);
            }
            rows.push(row);
            y = y + 1;
        }
        proof {
            assert(grid_view(rows) =~= grid_view(self.pixels));
        }
        rows
    }

    /// A mutable borrow of the cost grid.
    pub fn get_pixels_mut(&mut self) -> (g: &mut Vec<Vec<i32>>)
        ensures
            *g == old(self).pixels,
            final(self).pixels == *final(g),
            final(self).kernel == old(self).kernel,
    {
        &mut self.pixels
    }

    /// The pair of 3x3 kernel matrices (x-direction, y-direction) of the
    /// grid's kernel family, row-major.
    pub fn get_kernel_matrix(&self) -> (m: (Vec<Vec<i32>>, Vec<Vec<i32>>))
        ensures
            m.0@.len() == 3 && m.1@.len() == 3,
            forall|r: int| 0 <= r < 3 ==> (#[trigger] m.0@[r])@.len() == 3,
            forall|r: int| 0 <= r < 3 ==> (#[trigger] m.1@[r])@.len() == 3,
            forall|r: int, c: int|
                0 <= r < 3 && 0 <= c < 3 ==> #[trigger] m.0@[r]@[c] == kernel_x_coeff(
                    self.kernel,
                    r - 1,
                    c - 1,
                ),
            forall|r: int, c: int|
                0 <= r < 3 && 0 <= c < 3 ==> #[trigger] m.1@[r]@[c] == kernel_y_coeff(
                    self.kernel,
                    r - 1,
                    c - 1,
                ),
    {
        match self.kernel {
            Kernel::Sobel => {
                let x = vec![vec![-1i32, 0, 1], vec![-2i32, 0, 2], vec![-1i32, 0, 1]];
                let y = vec![vec![-1i32, -2, -1], vec![0i32, 0, 0], vec![1i32, 2, 1]];
                (x, y)
            },
            Kernel::Prewitt => {
                let x = vec![vec![-1i32, 0, 1], vec![-1i32, 0, 1], vec![-1i32, 0, 1]];
                let y = vec![vec![-1i32, -1, -1], vec![0i32, 0, 0], vec![1i32, 1, 1]];
                (x, y)
            },
        }
    }

    /// The gradient pair at `(x, y)` of the current grid: the 3x3
    /// neighborhood convolved against the family's two kernels, with cells
    /// outside the grid contributing zero.
    pub fn compute_gradient(&self, x: usize, y: usize) -> (g: (i64, i64))
        ensures
            g.0 == grad_x_spec(grid_view(self.pixels), self.kernel, x as int, y as int),
            g.1 == grad_y_spec(grid_view(self.pixels), self.kernel, x as int, y as int),
            -0x9_0000_0000 <= g.0 <= 0x9_0000_0000,
            -0x9_0000_0000 <= g.1 <= 0x9_0000_0000,
    {
        let t1 = conv_terms_at(&self.pixels, &self.kernel, x, y, -1, -1);
        let t2 = conv_terms_at(&self.pixels, &self.kernel, x, y, -1, 0);
        let t3 = conv_terms_at(&self.pixels, &self.kernel, x, y, -1, 1);
        let t4 = conv_terms_at(&self.pixels, &self.kernel, x, y, 0, -1);
        let t5 = conv_terms_at(&self.pixels, &self.kernel, x, y, 0, 0);
        let t6 = conv_terms_at(&self.pixels, &self.kernel, x, y, 0, 1);
        let t7 = conv_terms_at(&self.pixels, &self.kernel, x, y, 1, -1);
        let t8 = conv_terms_at(&self.pixels, &self.kernel, x, y, 1, 0);
        let t9 = conv_terms_at(&self.pixels, &self.kernel, x, y, 1, 1);
        let gx = t1.0 + t2.0 + t3.0 + t4.0 + t5.0 + t6.0 + t7.0 + t8.0 + t9.0;
        let gy = t1.1 + t2.1 + t3.1 + t4.1 + t5.1 + t6.1 + t7.1 + t8.1 + t9.1;
        (gx, gy)
    }

    /// Replaces every cell by the gradient magnitude at its position,
    /// computed against the grid as it was on entry.
    pub fn compute_gradient_magnitude(&mut self)
        ensures
            grid_view(final(self).pixels) == magnitude_grid_spec(
                grid_view(old(self).pixels),
                old(self).kernel,
            ),
            final(self).kernel == old(self).kernel,
    {
        let ghost g0 = grid_view(self.pixels);
        let ghost target = magnitude_grid_spec(g0, self.kernel);
        let h = self.pixels.len();
        let mut result: Vec<Vec<i32>> = Vec::new();
        let mut y: usize = 0;
        while y < h
            invariant
                y <= h,
                h == self.pixels@.len(),
                g0 == grid_view(self.pixels),
                target == magnitude_grid_spec(g0, self.kernel),
                result@.len() == y,
                forall|r: int| 0 <= r < y ==> (#[trigger] result@[r])@ == target[r],
            decreases h - y,
        {
            let w = self.pixels[y].len();
            let mut row: Vec<i32> = Vec::new();
            let mut x: usize = 0;
            while x < w
                invariant
                    x <= w,
                    y < h,
                    h == self.pixels@.len(),
                    w == self.pixels@[y as int]@.len(),
                    g0 == grid_view(self.pixels),
                    target == magnitude_grid_spec(g0, self.kernel),
                    row@.len() == x,
                    forall|j: int| 0 <= j < x ==> #[trigger] row@[j] == target[y as int][j],
                decreases w - x,
            {
                let (gx, gy) = self.compute_gradient(x, y);
                let m = magnitude_of(gx, gy);
                row.push(m);
                x = x + 1;
            }
            proof {
                assert(row@ =~= target[y as int]);
            }
            result.push(row);
            y = y + 1;
        }
        self.pixels = result;
        proof {
            assert(grid_view(final(self).pixels) =~= target);
        }
    }

    /// Converts the grid back to a raster: each cell, clamped into channel
    /// range, replicated into all three channels of a gray sample whose
    /// position is the cell's own.
    pub fn get_pixel_data(&self) -> (d: Vec<PxData>)
        requires
            grid_rect(grid_view(self.pixels)),
            grid_width(grid_view(self.pixels)) <= u32::MAX,
            grid_view(self.pixels).len() <= u32::MAX,
            grid_width(grid_view(self.pixels)) * grid_view(self.pixels).len() <= usize::MAX,
        ensures
            ({
                let g = grid_view(self.pixels);
                let w = grid_width(g);
                &&& d@.len() == w * g.len()
                &&& forall|i: int|
                    0 <= i < d@.len() ==> #[trigger] d@[i] == gray_px_spec(
                        g[i / w][i % w],
                        i % w,
                        i / w,
                    )
            }),
    {
        let ghost g = grid_view(self.pixels);
        let ghost wg = grid_width(g);
        let h = self.pixels.len();
        let w = if h == 0 {
            0
        } else {
            self.pixels[0].len()
        };
        proof {
            assert(w * h == wg * g.len()) by (nonlinear_arith)
                requires
                    w == wg,
                    h == g.len(),
            ;
        }
        let mut data: Vec<PxData> = Vec::new();
        let mut y: usize = 0;
        while y < h
            invariant
                y <= h,
                h == g.len(),
                w == wg,
                wg == grid_width(g),
                g == grid_view(self.pixels),
                grid_rect(g),
                wg <= u32::MAX,
                g.len() <= u32::MAX,
                wg * g.len() <= usize::MAX,
                data@.len() == y * w,
                forall|i: int|
                    0 <= i < data@.len() ==> #[trigger] data@[i] == gray_px_spec(
                        g[i / wg][i % wg],
                        i % wg,
                        i / wg,
                    ),
            decreases h - y,
        {
            let row = &self.pixels[y];
            let mut x: usize = 0;
            proof {
                assert(g[y as int] == self.pixels@[y as int]@);
                assert(g[y as int].len() == wg);
                assert(row@.len() == wg);
            }
            while x < w
                invariant
                    x <= w,
                    y < h,
                    h == g.len(),
                    w == wg,
                    wg == grid_width(g),
                    g == grid_view(self.pixels),
                    grid_rect(g),
                    wg <= u32::MAX,
                    g.len() <= u32::MAX,
                    wg * g.len() <= usize::MAX,
                    row == &self.pixels[y as int],
                    row@.len() == wg,
                    data@.len() == y * w + x,
                    forall|i: int|
                        0 <= i < data@.len() ==> #[trigger] data@[i] == gray_px_spec(
                            g[i / wg][i % wg],
                            i % wg,
                            i / wg,
                        ),
                decreases w - x,
            {
                proof {
                    lemma_row_major_index(x as int, y as int, w as int, h as int);
                    lemma_row_major_pos(x as int, y as int, w as int);
                }
                let v = row[x];
                let c = clamp_cell(v);
                data.push(PxData::new(c, c, c, Vector2::new(x as u32, y as u32)));
                x = x + 1;
            }
            y = y + 1;
            proof {
                assert(y * w == (y - 1) * w + w) by (nonlinear_arith);
            }
        }
        proof {
            assert(data@.len() == h * w);
            assert(h * w == wg * g.len()) by (nonlinear_arith)
                requires
                    w == wg,
                    h == g.len(),
            ;
        }
        data
    }
}

/// A magnitude of zero gradients is zero.
pub proof fn lemma_magnitude_of_zero()
    ensures
        magnitude_spec(0, 0) == 0,
{
    assert((2int * 0 + 1) * (2int * 0 + 1) == 1) by (nonlinear_arith);
    assert(is_rounded_sqrt(0, 0));
    lemma_sqrt_round_spec_is(0, 0);
}

/// The energy boundary rule on interior cells: on a flat (zero-variance)
/// grid, every cell whose full 3x3 neighborhood lies inside the grid has
/// gradient magnitude zero, for either kernel family. At edge cells the
/// skipped out-of-grid neighbors leave the kernel weights unbalanced, so a
/// nonzero flat value can produce a nonzero edge magnitude there; a flat
/// zero grid is covered everywhere by `lemma_zero_grid_magnitude_zero`.
pub proof fn lemma_flat_grid_interior_magnitude_zero(
    g: Seq<Seq<i32>>,
    k: Kernel,
    c: i32,
    x: int,
    y: int,
)
    requires
        grid_rect(g),
        forall|r: int, q: int|
            0 <= r < g.len() && 0 <= q < g[r].len() ==> #[trigger] g[r][q] == c,
        1 <= y < g.len() - 1,
        1 <= x < grid_width(g) - 1,
    ensures
        magnitude_grid_spec(g, k)[y][x] == 0,
{
    assert(g[y - 1].len() == grid_width(g));
    assert(g[y].len() == grid_width(g));
    assert(g[y + 1].len() == grid_width(g));
    assert(g[y - 1][x - 1] == c);
    assert(g[y - 1][x] == c);
    assert(g[y - 1][x + 1] == c);
    assert(g[y][x - 1] == c);
    assert(g[y][x] == c);
    assert(g[y][x + 1] == c);
    assert(g[y + 1][x - 1] == c);
    assert(g[y + 1][x] == c);
    assert(g[y + 1][x + 1] == c);
    match k {
        Kernel::Sobel => {
            assert(grad_x_spec(g, k, x, y) == 0);
            assert(grad_y_spec(g, k, x, y) == 0);
        },
        Kernel::Prewitt => {
            assert(grad_x_spec(g, k, x, y) == 0);
            assert(grad_y_spec(g, k, x, y) == 0);
        },
    }
    lemma_magnitude_of_zero();
    assert(magnitude_grid_spec(g, k)[y][x] == magnitude_spec(
        grad_x_spec(g, k, x, y),
        grad_y_spec(g, k, x, y),
    ) as i32);
}

/// The energy boundary rule on an all-zero grid: gradient magnitude is zero
/// at every cell, edges and corners included, for either kernel family.
pub proof fn lemma_zero_grid_magnitude_zero(g: Seq<Seq<i32>>, k: Kernel, x: int, y: int)
    requires
        forall|r: int, q: int|
            0 <= r < g.len() && 0 <= q < g[r].len() ==> #[trigger] g[r][q] == 0,
        0 <= y < g.len(),
        0 <= x < g[y].len(),
    ensures
        magnitude_grid_spec(g, k)[y][x] == 0,
{
    assert forall|c: int, dy: int, dx: int| true implies #[trigger] conv_term(g, c, x, y, dy, dx)
        == (if conv_in_bounds(g, x, y, dy, dx) {
        c * g[y + dy][x + dx]
    } else {
        0
    }) by {}
    assert(grad_x_spec(g, k, x, y) == 0) by {
        lemma_flat_zero_term(g, kernel_x_coeff(k, -1, -1), x, y, -1, -1);
        lemma_flat_zero_term(g, kernel_x_coeff(k, -1, 0), x, y, -1, 0);
        lemma_flat_zero_term(g, kernel_x_coeff(k, -1, 1), x, y, -1, 1);
        lemma_flat_zero_term(g, kernel_x_coeff(k, 0, -1), x, y, 0, -1);
        lemma_flat_zero_term(g, kernel_x_coeff(k, 0, 0), x, y, 0, 0);
        lemma_flat_zero_term(g, kernel_x_coeff(k, 0, 1), x, y, 0, 1);
        lemma_flat_zero_term(g, kernel_x_coeff(k, 1, -1), x, y, 1, -1);
        lemma_flat_zero_term(g, kernel_x_coeff(k, 1, 0), x, y, 1, 0);
        lemma_flat_zero_term(g, kernel_x_coeff(k, 1, 1), x, y, 1, 1);
    }
    assert(grad_y_spec(g, k, x, y) == 0) by {
        lemma_flat_zero_term(g, kernel_y_coeff(k, -1, -1), x, y, -1, -1);
        lemma_flat_zero_term(g, kernel_y_coeff(k, -1, 0), x, y, -1, 0);
        lemma_flat_zero_term(g, kernel_y_coeff(k, -1, 1), x, y, -1, 1);
        lemma_flat_zero_term(g, kernel_y_coeff(k, 0, -1), x, y, 0, -1);
        lemma_flat_zero_term(g, kernel_y_coeff(k, 0, 0), x, y, 0, 0);
        lemma_flat_zero_term(g, kernel_y_coeff(k, 0, 1), x, y, 0, 1);
        lemma_flat_zero_term(g, kernel_y_coeff(k, 1, -1), x, y, 1, -1);
        lemma_flat_zero_term(g, kernel_y_coeff(k, 1, 0), x, y, 1, 0);
        lemma_flat_zero_term(g, kernel_y_coeff(k, 1, 1), x, y, 1, 1);
    }
    lemma_magnitude_of_zero();
    assert(magnitude_grid_spec(g, k)[y][x] == magnitude_spec(
        grad_x_spec(g, k, x, y),
        grad_y_spec(g, k, x, y),
    ) as i32);
}

/// The energy boundary rule, stated on rasters: a flat-color raster of any
/// size has gradient magnitude zero at every interior pixel, whichever
/// kernel family is selected. At the edges the skipped out-of-grid
/// neighbors leave the kernel weights unbalanced, so only a flat *black*
/// raster is zero there too (see `lemma_black_raster_energy_zero`).
pub proof fn lemma_flat_raster_energy_zero_interior(
    pixels: Seq<PxData>,
    w: int,
    h: int,
    k: Kernel,
    x: int,
    y: int,
)
    requires
        pixels.len() == w * h,
        forall|i: int|
            0 <= i < pixels.len() ==> {
                &&& (#[trigger] pixels[i]).r == pixels[0].r
                &&& pixels[i].g == pixels[0].g
                &&& pixels[i].b == pixels[0].b
            },
        1 <= y < h - 1,
        1 <= x < w - 1,
    ensures
        magnitude_grid_spec(lum_grid_spec(pixels, w, h), k)[y][x] == 0,
{
    let g = lum_grid_spec(pixels, w, h);
    let c = lum_spec(pixels[0].r, pixels[0].g, pixels[0].b) as i32;
    lemma_lum_grid_shape(pixels, w, h);
    assert forall|r: int, q: int| 0 <= r < g.len() && 0 <= q < g[r].len() implies #[trigger] g[r][q]
        == c by {
        lemma_row_major_index(q, r, w, h);
        assert(pixels[r * w + q].r == pixels[0].r);
    }
    lemma_flat_grid_interior_magnitude_zero(g, k, c, x, y);
}

/// The energy boundary rule on an all-black raster: gradient magnitude is
/// zero at every pixel, edges and corners included, for either kernel
/// family.
pub proof fn lemma_black_raster_energy_zero(
    pixels: Seq<PxData>,
    w: int,
    h: int,
    k: Kernel,
    x: int,
    y: int,
)
    requires
        pixels.len() == w * h,
        forall|i: int|
            0 <= i < pixels.len() ==> {
                &&& (#[trigger] pixels[i]).r == 0
                &&& pixels[i].g == 0
                &&& pixels[i].b == 0
            },
        0 <= y < h,
        0 <= x < w,
    ensures
        magnitude_grid_spec(lum_grid_spec(pixels, w, h), k)[y][x] == 0,
{
    let g = lum_grid_spec(pixels, w, h);
    lemma_lum_grid_shape(pixels, w, h);
    assert forall|r: int, q: int| 0 <= r < g.len() && 0 <= q < g[r].len() implies #[trigger] g[r][q]
        == 0 by {
        lemma_row_major_index(q, r, w, h);
        assert(pixels[r * w + q].r == 0);
    }
    lemma_zero_grid_magnitude_zero(g, k, x, y);
}

/// One convolution term over an all-zero grid is zero.
proof fn lemma_flat_zero_term(g: Seq<Seq<i32>>, c: int, x: int, y: int, dy: int, dx: int)
    requires
        forall|r: int, q: int|
            0 <= r < g.len() && 0 <= q < g[r].len() ==> #[trigger] g[r][q] == 0,
    ensures
        conv_term(g, c, x, y, dy, dx) == 0,
{
    if conv_in_bounds(g, x, y, dy, dx) {
        assert(g[y + dy][x + dx] == 0);
        assert(c * 0 == 0) by (nonlinear_arith);
    }
}

/// A row-major index built from an in-bounds column and row is in bounds.
proof fn lemma_row_major_index(x: int, y: int, w: int, h: int)
    requires
        0 <= x < w,
        0 <= y < h,
    ensures
        0 <= y * w + x < w * h,
        y * w + x == y * w + x,
{
    assert(y * w + x < w * h) by (nonlinear_arith)
        requires
            0 <= x < w,
            0 <= y < h,
    ;
}

/// A row-major index decomposes back into its column and row.
proof fn lemma_row_major_pos(x: int, y: int, w: int)
    requires
        0 <= x < w,
        0 <= y,
    ensures
        (y * w + x) % w == x,
        (y * w + x) / w == y,
{
    vstd::arithmetic::div_mod::lemma_fundamental_div_mod_converse_mod(y * w + x, w, y, x);
    vstd::arithmetic::div_mod::lemma_fundamental_div_mod_converse_div(y * w + x, w, y, x);
}

} // verus!
