//! The raster data model: an owned row-major grid of pixel samples with
//! explicit dimensions, and the frame holder that ingests raw capture
//! buffers into such a grid.

use vstd::prelude::*;

use crate::error::TransformError;
use crate::pixel::{PxData, Vector2};

verus! {

/// A pair of dimensions, in pixels or in cells.
#[derive(Clone, Copy, Debug, PartialEq, Eq, Structural)]
pub struct Size {
    pub width: u32,
    pub height: u32,
}

/// An owned 2D grid of pixel samples, row-major, with explicit dimensions.
#[derive(Clone, Debug)]
pub struct Image {
    pub pixel_data: Vec<PxData>,
    pub size: Size,
    pub multiplier: u8,
}

/// A frame holder: the raw bytes of the latest capture, its declared
/// dimensions, the channel stride of the source, and the raster built
/// from them.
#[derive(Clone, Debug)]
pub struct FrameData {
    pub buffer_size: Size,
    pub raw_data: Vec<u8>,
    pub image: Image,
    pub multiplier: u8,
}

/// A raster is well-formed when it holds exactly `width * height` samples and
/// the sample stored at row-major index `i` carries position
/// `(i % width, i / width)` — so positions cover every cell exactly once.
pub open spec fn wf_image(im: Image) -> bool {
    &&& im.pixel_data@.len() == im.size.width * im.size.height
    &&& forall|i: int|
        0 <= i < im.pixel_data@.len() ==> {
            &&& (#[trigger] im.pixel_data@[i]).position.x == i % (im.size.width as int)
            &&& im.pixel_data@[i].position.y == i / (im.size.width as int)
        }
}

/// The sample at row-major index `i` of an all-zero raster of width `w`.
pub open spec fn black_px_at(p: PxData, i: int, w: int) -> bool {
    &&& p.r == 0
    &&& p.g == 0
    &&& p.b == 0
    &&& p.glyph is None
    &&& p.position.x == i % w
    &&& p.position.y == i / w
}

/// An all-zero raster of the given dimensions.
pub open spec fn black_image_spec(im: Image, size: Size) -> bool {
    &&& im.size == size
    &&& im.pixel_data@.len() == size.width * size.height
    &&& forall|i: int|
        0 <= i < im.pixel_data@.len() ==> black_px_at(#[trigger] im.pixel_data@[i], i, size.width as int)
}

/// The sample that ingestion builds for grid cell `q` of a raster of width
/// `w` from an interleaved byte buffer with the given channel stride: the
/// first three bytes of source sample `q`, at position `(q % w, q / w)`.
pub open spec fn ingest_px(data: Seq<u8>, w: int, q: int, stride: int) -> PxData {
    PxData {
        r: data[q * stride],
        g: data[q * stride + 1],
        b: data[q * stride + 2],
        position: Vector2 { x: (q % w) as u32, y: (q / w) as u32 },
        glyph: None,
    }
}

/// A raster ingested from the byte buffer `data` declared as `size` with the
/// given channel stride.
pub open spec fn ingested_image_spec(im: Image, data: Seq<u8>, size: Size, stride: int) -> bool {
    &&& im.size == size
    &&& im.pixel_data@.len() == size.width * size.height
    &&& forall|q: int|
        0 <= q < im.pixel_data@.len() ==> #[trigger] im.pixel_data@[q] == ingest_px(
            data,
            size.width as int,
            q,
            stride,
        )
}

/// A row-major index built from an in-bounds column and row is in bounds.
pub proof fn lemma_row_major_bound(x: int, y: int, w: int, h: int)
    requires
        0 <= x < w,
        0 <= y < h,
    ensures
        0 <= y * w + x < w * h,
{
    assert(y * w + x < w * h) by (nonlinear_arith)
        requires
            0 <= x < w,
            0 <= y < h,
    ;
}

/// A row-major index decomposes back into its column and row.
pub proof fn lemma_row_major_decompose(x: int, y: int, w: int)
    requires
        0 <= x < w,
        0 <= y,
    ensures
        (y * w + x) % w == x,
        (y * w + x) / w == y,
{
    vstd::arithmetic::div_mod::lemma_fundamental_div_mod_converse_mod(y * w + x, w, y, x);
    vstd::arithmetic::div_mod::lemma_fundamental_div_mod_converse_div(y * w + x, w, y, x);
}

/// The round-trip shape law: a well-formed raster — which every resampling
/// pass produces, whatever the target dimensions — holds exactly
/// `width * height` samples whose positions cover every cell of
/// `[0, width) x [0, height)` exactly once: each cell is the position of
/// the sample at its row-major index, and no two samples share a position.
pub proof fn lemma_wf_positions_cover(im: Image)
    requires
        wf_image(im),
    ensures
        im.pixel_data@.len() == im.size.width * im.size.height,
        forall|x: int, y: int|
            0 <= x < im.size.width && 0 <= y < im.size.height ==> {
                let i = y * (im.size.width as int) + x;
                &&& 0 <= i < im.pixel_data@.len()
                &&& (#[trigger] im.pixel_data@[y * (im.size.width as int) + x]).position.x == x
                &&& im.pixel_data@[y * (im.size.width as int) + x].position.y == y
            },
        forall|i: int, j: int|
            0 <= i < j < im.pixel_data@.len() ==> (#[trigger] im.pixel_data@[i]).position != (
            #[trigger] im.pixel_data@[j]).position,
{
    let w = im.size.width as int;
    let h = im.size.height as int;
    assert(im.pixel_data@.len() == w * h);
    assert forall|x: int, y: int| 0 <= x < w && 0 <= y < h implies {
        let i = y * w + x;
        &&& 0 <= i < im.pixel_data@.len()
        &&& (#[trigger] im.pixel_data@[y * w + x]).position.x == x
        &&& im.pixel_data@[y * w + x].position.y == y
    } by {
        lemma_row_major_bound(x, y, w, h);
        lemma_row_major_decompose(x, y, w);
    }
    assert forall|i: int, j: int| 0 <= i < j < im.pixel_data@.len() implies (
    #[trigger] im.pixel_data@[i]).position != (#[trigger] im.pixel_data@[j]).position by {
        assert(j < w * h);
        assert(w >= 1) by (nonlinear_arith)
            requires
                0 <= i < j,
                j < w * h,
                w >= 0,
                h >= 0,
        ;
        if im.pixel_data@[i].position == im.pixel_data@[j].position {
            vstd::arithmetic::div_mod::lemma_fundamental_div_mod(i, w);
            vstd::arithmetic::div_mod::lemma_fundamental_div_mod(j, w);
            assert(i == w * (i / w) + (i % w));
            assert(j == w * (j / w) + (j % w));
            assert(i % w == j % w);
            assert(i / w == j / w);
            assert(false);
        }
    }
}

impl Image {
    pub fn new(pixel_data: Vec<PxData>, size: Size, multiplier: u8) -> (im: Image)
        ensures
            im.pixel_data@ == pixel_data@,
            im.size == size,
            im.multiplier == multiplier,
    {
        Image { pixel_data, size, multiplier }
    }

    /// An all-zero raster of the given dimensions.
    pub fn black(size: Size) -> (im: Image)
        requires
            size.width * size.height <= usize::MAX,
        ensures
            black_image_spec(im, size),
            wf_image(im),
            im.multiplier == 4,
    {
        let w = size.width as usize;
        let h = size.height as usize;
        let count: usize = w * h;
        let mut pixel_data: Vec<PxData> = Vec::new();
        let mut q: usize = 0;
        while q < count
            invariant
                q <= count,
                count == size.width * size.height,
                w == size.width,
                h == size.height,
                pixel_data@.len() == q,
                forall|i: int|
                    0 <= i < q ==> black_px_at(#[trigger] pixel_data@[i], i, size.width as int),
            decreases count - q,
        {
            proof {
                assert(w > 0) by (nonlinear_arith)
                    requires
                        (q as int) < (w as int) * (h as int),
                        q >= 0,
                        w >= 0,
                ;
                vstd::arithmetic::div_mod::lemma_mod_bound(q as int, w as int);
                vstd::arithmetic::div_mod::lemma_div_pos_is_pos(q as int, w as int);
                vstd::arithmetic::div_mod::lemma_multiply_divide_lt(q as int, w as int, h as int);
            }
            let x = (q % w) as u32;
            let y = (q / w) as u32;
            pixel_data.push(PxData::new(0, 0, 0, Vector2::new(x, y)));
            q = q + 1;
        }
        Image { pixel_data, size, multiplier: 4 }
    }

    pub fn get_image_size(&self) -> (s: Size)
        ensures
            s == self.size,
    {
        self.size
    }

    pub fn set_image_size(&mut self, size: Size)
        ensures
            *final(self) == (Image { size, ..*old(self) }),
    {
        self.size = size;
    }

    /// The sample at the given position, by row-major lookup.
    pub fn get_pixel(&self, position: Vector2) -> (p: PxData)
        requires
            position.x < self.size.width,
            position.y < self.size.height,
            self.pixel_data@.len() == self.size.width * self.size.height,
        ensures
            p == self.pixel_data@[position.y * self.size.width + position.x],
    {
        let n = self.pixel_data.len();
        proof {
            lemma_row_major_bound(
                position.x as int,
                position.y as int,
                self.size.width as int,
                self.size.height as int,
            );
        }
        let index = (position.y as usize) * (self.size.width as usize) + (position.x as usize);
        self.pixel_data[index]
    }

    /// A mutable borrow of the sample at the given position.
    pub fn get_pixel_mut(&mut self, position: Vector2) -> (p: &mut PxData)
        requires
            position.x < old(self).size.width,
            position.y < old(self).size.height,
            old(self).pixel_data@.len() == old(self).size.width * old(self).size.height,
        ensures
            *p == old(self).pixel_data@[position.y * old(self).size.width + position.x],
            final(self).pixel_data@ == old(self).pixel_data@.update(
                position.y * old(self).size.width + position.x,
                *final(p),
            ),
            final(self).size == old(self).size,
            final(self).multiplier == old(self).multiplier,
    {
        let n = self.pixel_data.len();
        proof {
            lemma_row_major_bound(
                position.x as int,
                position.y as int,
                self.size.width as int,
                self.size.height as int,
            );
        }
        let index = (position.y as usize) * (self.size.width as usize) + (position.x as usize);
        &mut self.pixel_data[index]
    }

    pub fn get_pixel_data(&self) -> (d: &Vec<PxData>)
        ensures
            d == &self.pixel_data,
    {
        &self.pixel_data
    }

    pub fn get_pixel_data_mut(&mut self) -> (d: &mut Vec<PxData>)
        ensures
            *d == old(self).pixel_data,
            final(self).pixel_data == *final(d),
            final(self).size == old(self).size,
            final(self).multiplier == old(self).multiplier,
    {
        &mut self.pixel_data
    }
}

/// A fresh copy of a sample buffer.
pub fn clone_pixels(v: &Vec<PxData>) -> (out: Vec<PxData>)
    ensures
        out@ == v@,
{
    let mut out: Vec<PxData> = Vec::new();
    let len = v.len();
    let mut i: usize = 0;
    while i < len
        invariant
            i <= len,
            len == v@.len(),
            out@ == v@.subrange(0, i as int),
        decreases len - i,
    {
        out.push(v[i]);
        proof {
            assert(out@ =~= v@.subrange(0, i + 1));
        }
        i = i + 1;
    }
    proof {
        assert(out@ =~= v@);
    }
    out
}

impl FrameData {
    /// A fresh holder with no buffer yet: the declared dimensions take effect
    /// only once a buffer arrives, so the buffer size starts at zero.
    pub fn new(width: u32, height: u32, multiplier: u8) -> (fd: FrameData)
        ensures
            fd.buffer_size == (Size { width: 0, height: 0 }),
            fd.raw_data@ == Seq::<u8>::empty(),
            fd.multiplier == multiplier,
            fd.image.pixel_data@ == Seq::<PxData>::empty(),
    {
        let _ = width;
        let _ = height;
        FrameData {
            buffer_size: Size { width: 0, height: 0 },
            raw_data: Vec::new(),
            image: Image::new(Vec::new(), Size { width: 0, height: 0 }, 0),
            multiplier,
        }
    }

    pub fn get_buffer_size(&self) -> (s: Size)
        ensures
            s == self.buffer_size,
    {
        self.buffer_size
    }

    pub fn set_multiplier(&mut self, multiplier: u8)
        ensures
            *final(self) == (FrameData { multiplier, ..*old(self) }),
    {
        self.multiplier = multiplier;
    }

    pub fn raw_buffer(&self) -> (d: &Vec<u8>)
        ensures
            d == &self.raw_data,
    {
        &self.raw_data
    }

    pub fn clone_image(&self) -> (im: Image)
        ensures
            im.pixel_data@ == self.image.pixel_data@,
            im.size == self.image.size,
            im.multiplier == self.image.multiplier,
    {
        let mut pixel_data: Vec<PxData> = Vec::new();
        let len = self.image.pixel_data.len();
        let mut i: usize = 0;
        while i < len
            invariant
                i <= len,
                len == self.image.pixel_data@.len(),
                pixel_data@ == self.image.pixel_data@.subrange(0, i as int),
            decreases len - i,
        {
            pixel_data.push(self.image.pixel_data[i]);
            proof {
                assert(pixel_data@ =~= self.image.pixel_data@.subrange(0, i + 1));
            }
            i = i + 1;
        }
        proof {
            assert(pixel_data@ =~= self.image.pixel_data@);
        }
        Image::new(pixel_data, self.image.size, self.image.multiplier)
    }

    pub fn get_image(&self) -> (im: &Image)
        ensures
            im == &self.image,
    {
        &self.image
    }

    pub fn get_image_mut(&mut self) -> (im: &mut Image)
        ensures
            *im == old(self).image,
            final(self).image == *final(im),
            final(self).buffer_size == old(self).buffer_size,
            final(self).raw_data == old(self).raw_data,
            final(self).multiplier == old(self).multiplier,
    {
        &mut self.image
    }

    pub fn set_image(&mut self, image: Image)
        ensures
            final(self).image == image,
            final(self).buffer_size == old(self).buffer_size,
            final(self).raw_data == old(self).raw_data,
            final(self).multiplier == old(self).multiplier,
    {
        self.image = image;
    }

    /// Ingests a raw interleaved byte buffer declared as `buffer_size` with
    /// the holder's channel stride. When the stride is not one of the two
    /// supported strides, or the buffer length does not equal
    /// `width * height * stride`, the raster is replaced by a well-formed
    /// all-zero raster of the declared dimensions and the condition is
    /// reported, so a render loop can continue on the next frame.
    pub fn set_raw_data(&mut self, data: Vec<u8>, buffer_size: Size) -> (res: Result<
        (),
        TransformError,
    >)
        requires
            buffer_size.width * buffer_size.height <= usize::MAX,
        ensures
            final(self).raw_data@ == data@,
            final(self).buffer_size == buffer_size,
            final(self).multiplier == old(self).multiplier,
            ({
                let stride = old(self).multiplier as int;
                let expected = buffer_size.width * buffer_size.height * stride;
                if stride != 4 && stride != 8 {
                    res == Err::<(), TransformError>(TransformError::InvalidParameter)
                        && black_image_spec(final(self).image, buffer_size)
                } else if data@.len() != expected {
                    res == Err::<(), TransformError>(TransformError::SizeMismatch)
                        && black_image_spec(final(self).image, buffer_size)
                } else {
                    res == Ok::<(), TransformError>(())
                        && ingested_image_spec(final(self).image, data@, buffer_size, stride)
                }
            }),
            wf_image(final(self).image),
    {
        let stride = self.multiplier;
        let w = buffer_size.width;
        let h = buffer_size.height;
        if stride != 4 && stride != 8 {
            let image = Image::black(buffer_size);
            self.raw_data = data;
            self.buffer_size = buffer_size;
            self.image = image;
            return Err(TransformError::InvalidParameter);
        }
        let expected: u128 = (w as u128) * (h as u128) * (stride as u128);
        if (data.len() as u128) != expected {
            let image = Image::black(buffer_size);
            self.raw_data = data;
            self.buffer_size = buffer_size;
            self.image = image;
            return Err(TransformError::SizeMismatch);
        }
        let count: usize = data.len() / (stride as usize);
        proof {
            lemma_ingest_count(data@.len() as int, w as int, h as int, stride as int);
        }
        let mut pixel_data: Vec<PxData> = Vec::new();
        let mut q: usize = 0;
        while q < count
            invariant
                q <= count,
                count == w * h,
                w == buffer_size.width,
                h == buffer_size.height,
                data@.len() == w * h * stride,
                data@.len() <= usize::MAX,
                stride == 4 || stride == 8,
                pixel_data@.len() == q,
                forall|i: int|
                    0 <= i < q ==> #[trigger] pixel_data@[i] == ingest_px(
                        data@,
                        w as int,
                        i,
                        stride as int,
                    ),
            decreases count - q,
        {
            proof {
                assert(w > 0) by (nonlinear_arith)
                    requires
                        (q as int) < (w as int) * (h as int),
                        q >= 0,
                        w >= 0,
                ;
                lemma_ingest_byte_bound(q as int, w as int, h as int, stride as int);
                vstd::arithmetic::div_mod::lemma_mod_bound(q as int, w as int);
                vstd::arithmetic::div_mod::lemma_div_pos_is_pos(q as int, w as int);
                vstd::arithmetic::div_mod::lemma_multiply_divide_lt(q as int, w as int, h as int);
            }
            let base = q * (stride as usize);
            let x = (q % (w as usize)) as u32;
            let y = (q / (w as usize)) as u32;
            let px = PxData::new(data[base], data[base + 1], data[base + 2], Vector2::new(x, y));
            pixel_data.push(px);
            q = q + 1;
        }
        proof {
            assert(pixel_data@.len() == buffer_size.width * buffer_size.height);
            assert forall|i: int| 0 <= i < pixel_data@.len() implies {
                &&& (#[trigger] pixel_data@[i]).position.x == i % (buffer_size.width as int)
                &&& pixel_data@[i].position.y == i / (buffer_size.width as int)
            } by {
                assert(pixel_data@[i] == ingest_px(data@, w as int, i, stride as int));
                assert(i < (buffer_size.width as int) * (buffer_size.height as int));
                assert(buffer_size.width > 0) by (nonlinear_arith)
                    requires
                        i < (buffer_size.width as int) * (buffer_size.height as int),
                        i >= 0,
                        buffer_size.width >= 0,
                ;
                vstd::arithmetic::div_mod::lemma_mod_bound(i, buffer_size.width as int);
                vstd::arithmetic::div_mod::lemma_div_pos_is_pos(i, buffer_size.width as int);
                vstd::arithmetic::div_mod::lemma_multiply_divide_lt(
                    i,
                    buffer_size.width as int,
                    buffer_size.height as int,
                );
            }
        }
        self.raw_data = data;
        self.buffer_size = buffer_size;
        self.image = Image::new(pixel_data, buffer_size, stride);
        Ok(())
    }
}

/// A buffer of length `w * h * stride` holds exactly `w * h` samples.
proof fn lemma_ingest_count(len: int, w: int, h: int, stride: int)
    requires
        len == w * h * stride,
        stride == 4 || stride == 8,
        w >= 0,
        h >= 0,
    ensures
        len / stride == w * h,
        w * h <= len,
{
    assert(len / stride == w * h && w * h <= len) by (nonlinear_arith)
        requires
            len == w * h * stride,
            stride == 4 || stride == 8,
            w >= 0,
            h >= 0,
    ;
}

/// The three channel bytes of sample `q` lie inside the buffer.
proof fn lemma_ingest_byte_bound(q: int, w: int, h: int, stride: int)
    requires
        0 <= q < w * h,
        stride == 4 || stride == 8,
    ensures
        q * stride + 2 < w * h * stride,
        q * stride >= 0,
{
    assert(q * stride + 2 < w * h * stride && q * stride >= 0) by (nonlinear_arith)
        requires
            0 <= q < w * h,
            stride == 4 || stride == 8,
    ;
}

} // verus!
