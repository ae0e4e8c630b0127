//! The canvas: the frame holder a render loop feeds capture buffers into,
//! together with the latest terminal dimensions the loop reported. The
//! terminal itself — raw mode, resize events, escape output — lives outside
//! this crate; the canvas only keeps the numbers the pipeline needs.

use vstd::prelude::*;

use crate::error::TransformError;
use crate::frame::{
    black_image_spec, ingested_image_spec, wf_image, FrameData, Size,
};

verus! {

/// A frame holder plus the latest reported terminal dimensions.
pub struct Canvas {
    pub frame_data: FrameData,
    pub term_size: Size,
}

impl Canvas {
    /// A fresh canvas for sources with the given channel stride (4 for
    /// 8-bit, 8 for 16-bit-float sources). The terminal size starts at zero
    /// until the loop outside reports one.
    pub fn new(multiplier: u8) -> (c: Canvas)
        ensures
            c.frame_data.multiplier == multiplier,
            c.frame_data.buffer_size == (Size { width: 0, height: 0 }),
            c.frame_data.raw_data@ == Seq::<u8>::empty(),
            c.term_size == (Size { width: 0, height: 0 }),
    {
        let mut frame_data = FrameData::new(0, 0, 0);
        frame_data.set_multiplier(multiplier);
        Canvas { frame_data, term_size: Size { width: 0, height: 0 } }
    }

    pub fn get_frame_data(&mut self) -> (fd: &mut FrameData)
        ensures
            *fd == old(self).frame_data,
            final(self).frame_data == *final(fd),
            final(self).term_size == old(self).term_size,
    {
        &mut self.frame_data
    }

    /// Records the terminal dimensions the render loop observed.
    pub fn set_term_size(&mut self, size: Size)
        ensures
            final(self).term_size == size,
            final(self).frame_data == old(self).frame_data,
    {
        self.term_size = size;
    }

    pub fn get_term_size(&self) -> (s: Size)
        ensures
            s == self.term_size,
    {
        self.term_size
    }

    /// Hands a raw capture buffer to the frame holder; see
    /// `FrameData::set_raw_data` for the ingestion contract.
    pub fn push_buffer(&mut self, buffer: Vec<u8>, buffer_width: u32, buffer_height: u32) -> (res:
        Result<(), TransformError>)
        requires
            buffer_width * buffer_height <= usize::MAX,
        ensures
            final(self).term_size == old(self).term_size,
            final(self).frame_data.raw_data@ == buffer@,
            final(self).frame_data.buffer_size == (Size {
                width: buffer_width,
                height: buffer_height,
            }),
            final(self).frame_data.multiplier == old(self).frame_data.multiplier,
            wf_image(final(self).frame_data.image),
            ({
                let size = Size { width: buffer_width, height: buffer_height };
                let stride = old(self).frame_data.multiplier as int;
                let expected = size.width * size.height * stride;
                if stride != 4 && stride != 8 {
                    res == Err::<(), TransformError>(TransformError::InvalidParameter)
                        && black_image_spec(final(self).frame_data.image, size)
                } else if buffer@.len() != expected {
                    res == Err::<(), TransformError>(TransformError::SizeMismatch)
                        && black_image_spec(final(self).frame_data.image, size)
                } else {
                    res == Ok::<(), TransformError>(()) && ingested_image_spec(
                        final(self).frame_data.image,
                        buffer@,
                        size,
                        stride,
                    )
                }
            }),
    {
        self.frame_data.set_raw_data(buffer, Size { width: buffer_width, height: buffer_height })
    }
}

} // verus!
