//! Filter objects: a closed set of operation kinds, each carrying its own
//! parameters and applying one raster transform to a frame holder's image.

use vstd::prelude::*;

use crate::energy::{gray_px_spec, lum_grid_spec, magnitude_grid_spec, Kernel};
use crate::error::TransformError;
use crate::frame::{wf_image, FrameData, Image, Size};
use crate::pixel::{quantize_px_spec, PxData, Vector2};
use crate::transform::{flip_src_index, gray_bucket_px_spec, scale_px_spec, Scaling};

verus! {

/// The result relation of a flip: positions cover the grid row-major and
/// each cell carries the channels and glyph of its mirrored source cell.
pub open spec fn flip_applied(pre: Image, post: Image, horizontal: bool, vertical: bool) -> bool {
    &&& post.size == pre.size
    &&& post.multiplier == pre.multiplier
    &&& post.pixel_data@.len() == pre.pixel_data@.len()
    &&& wf_image(post)
    &&& forall|i: int|
        0 <= i < post.pixel_data@.len() ==> #[trigger] post.pixel_data@[i] == (PxData {
            position: Vector2 {
                x: (i % (pre.size.width as int)) as u32,
                y: (i / (pre.size.width as int)) as u32,
            },
            ..pre.pixel_data@[flip_src_index(
                i,
                pre.size.width as int,
                pre.size.height as int,
                horizontal,
                vertical,
            )]
        })
}

/// The result relation of shade quantization: every sample snapped to its
/// bucket, nothing else changed.
pub open spec fn quantize_applied(pre: Image, post: Image, shades: u8) -> bool {
    &&& post.size == pre.size
    &&& post.multiplier == pre.multiplier
    &&& post.pixel_data@.len() == pre.pixel_data@.len()
    &&& forall|i: int|
        0 <= i < pre.pixel_data@.len() ==> #[trigger] post.pixel_data@[i] == quantize_px_spec(
            pre.pixel_data@[i],
            shades,
        )
}

/// The result relation of grayscale bucketing.
pub open spec fn grayscale_applied(pre: Image, post: Image, shades: u8) -> bool {
    &&& post.size == pre.size
    &&& post.multiplier == pre.multiplier
    &&& post.pixel_data@.len() == pre.pixel_data@.len()
    &&& forall|i: int|
        0 <= i < pre.pixel_data@.len() ==> #[trigger] post.pixel_data@[i] == gray_bucket_px_spec(
            pre.pixel_data@[i],
            shades,
        )
}

/// The result relation of a resampling pass to `size`.
pub open spec fn scale_applied(pre: Image, post: Image, size: Size, scaling: Scaling) -> bool {
    &&& post.size == size
    &&& post.multiplier == pre.multiplier
    &&& post.pixel_data@.len() == size.width * size.height
    &&& wf_image(post)
    &&& forall|i: int|
        0 <= i < post.pixel_data@.len() ==> #[trigger] post.pixel_data@[i] == scale_px_spec(
            pre.pixel_data@,
            scaling,
            i % (size.width as int),
            i / (size.width as int),
            pre.size.width as int,
            pre.size.height as int,
            size.width as int,
            size.height as int,
        )
}

/// The result relation of a gradient-magnitude pass.
pub open spec fn gradient_applied(pre: Image, post: Image, kernel: Kernel) -> bool {
    &&& post.size == pre.size
    &&& post.multiplier == pre.multiplier
    &&& post.pixel_data@.len() == pre.pixel_data@.len()
    &&& wf_image(post)
    &&& ({
        let w = pre.size.width as int;
        let h = pre.size.height as int;
        let mg = magnitude_grid_spec(lum_grid_spec(pre.pixel_data@, w, h), kernel);
        forall|i: int|
            0 <= i < post.pixel_data@.len() ==> #[trigger] post.pixel_data@[i] == gray_px_spec(
                mg[i / w][i % w],
                i % w,
                i / w,
            )
    })
}

/// Mirrors the image: horizontally when `horizontal` is set, vertically
/// otherwise.
pub struct Flip {
    pub horizontal: bool,
}

impl Flip {
    pub fn apply(&self, frame_data: &mut FrameData)
        requires
            old(frame_data).image.pixel_data@.len() == old(frame_data).image.size.width * old(
                frame_data,
            ).image.size.height,
            old(frame_data).image.size.width >= 1,
            old(frame_data).image.size.height >= 1,
        ensures
            flip_applied(
                old(frame_data).image,
                final(frame_data).image,
                self.horizontal,
                !self.horizontal,
            ),
            final(frame_data).buffer_size == old(frame_data).buffer_size,
            final(frame_data).raw_data == old(frame_data).raw_data,
            final(frame_data).multiplier == old(frame_data).multiplier,
    {
        frame_data.image.flip(self.horizontal, !self.horizontal);
    }
}

/// Snaps every sample's channels to `shades` buckets.
pub struct Quantize {
    pub shades: u8,
}

impl Quantize {
    pub fn apply(&self, frame_data: &mut FrameData)
        requires
            self.shades >= 1,
        ensures
            quantize_applied(old(frame_data).image, final(frame_data).image, self.shades),
            final(frame_data).buffer_size == old(frame_data).buffer_size,
            final(frame_data).raw_data == old(frame_data).raw_data,
            final(frame_data).multiplier == old(frame_data).multiplier,
    {
        frame_data.image.quantize(self.shades);
    }
}

/// Buckets every sample into `shades` gray levels.
pub struct Grayscale {
    pub shades: u8,
}

impl Grayscale {
    pub fn apply(&self, frame_data: &mut FrameData) -> (res: Result<(), TransformError>)
        ensures
            final(frame_data).buffer_size == old(frame_data).buffer_size,
            final(frame_data).raw_data == old(frame_data).raw_data,
            final(frame_data).multiplier == old(frame_data).multiplier,
            self.shades < 2 ==> {
                &&& res == Err::<(), TransformError>(TransformError::InvalidParameter)
                &&& final(frame_data).image.pixel_data@ == old(frame_data).image.pixel_data@
                &&& final(frame_data).image.size == old(frame_data).image.size
                &&& final(frame_data).image.multiplier == old(frame_data).image.multiplier
            },
            self.shades >= 2 ==> {
                &&& res == Ok::<(), TransformError>(())
                &&& grayscale_applied(old(frame_data).image, final(frame_data).image, self.shades)
            },
    {
        frame_data.image.grayscale(self.shades)
    }
}

/// Resamples the image to `size` with the given mode.
pub struct Scale {
    pub size: Size,
    pub scaling: Scaling,
}

impl Scale {
    pub fn apply(&self, frame_data: &mut FrameData)
        requires
            old(frame_data).image.pixel_data@.len() == old(frame_data).image.size.width * old(
                frame_data,
            ).image.size.height,
            old(frame_data).image.size.width >= 1,
            old(frame_data).image.size.height >= 1,
            self.size.width * self.size.height <= usize::MAX,
        ensures
            scale_applied(old(frame_data).image, final(frame_data).image, self.size, self.scaling),
            final(frame_data).buffer_size == old(frame_data).buffer_size,
            final(frame_data).raw_data == old(frame_data).raw_data,
            final(frame_data).multiplier == old(frame_data).multiplier,
    {
        let original_size = frame_data.image.get_image_size();
        frame_data.image.scale(self.size, self.scaling, original_size);
    }
}

/// Replaces the image by the grayscale view of its gradient magnitude.
pub struct GradientMagnitude {
    pub kernel: Kernel,
}

impl GradientMagnitude {
    pub fn apply(&self, frame_data: &mut FrameData)
        requires
            old(frame_data).image.pixel_data@.len() == old(frame_data).image.size.width * old(
                frame_data,
            ).image.size.height,
        ensures
            gradient_applied(old(frame_data).image, final(frame_data).image, self.kernel),
            final(frame_data).buffer_size == old(frame_data).buffer_size,
            final(frame_data).raw_data == old(frame_data).raw_data,
            final(frame_data).multiplier == old(frame_data).multiplier,
    {
        frame_data.image.gradient_magnitude(self.kernel);
    }
}

} // verus!
