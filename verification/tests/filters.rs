//! Filter objects applied through a frame holder, and the canvas.

use rasterm::canvas::Canvas;
use rasterm::energy::Kernel;
use rasterm::error::TransformError;
use rasterm::filter::{Flip, GradientMagnitude, Grayscale, Quantize, Scale};
use rasterm::frame::{FrameData, Image, Size};
use rasterm::pixel::{PxData, Vector2};
use rasterm::transform::Scaling;

fn px(r: u8, g: u8, b: u8, x: u32, y: u32) -> PxData {
    PxData::new(r, g, b, Vector2::new(x, y))
}

fn holder_with(image: Image) -> FrameData {
    let mut fd = FrameData::new(0, 0, 4);
    fd.set_image(image);
    fd
}

#[test]
fn flip_filter_mirrors_horizontally() {
    let im = Image::new(
        vec![px(1, 0, 0, 0, 0), px(2, 0, 0, 1, 0)],
        Size { width: 2, height: 1 },
        4,
    );
    let mut fd = holder_with(im);
    Flip { horizontal: true }.apply(&mut fd);
    let d = fd.get_image().get_pixel_data();
    assert_eq!(d[0].get_r(), 2);
    assert_eq!(d[1].get_r(), 1);
}

#[test]
fn quantize_filter_buckets_channels() {
    let im = Image::new(vec![px(100, 0, 255, 0, 0)], Size { width: 1, height: 1 }, 4);
    let mut fd = holder_with(im);
    Quantize { shades: 4 }.apply(&mut fd);
    assert_eq!(
        fd.get_image().get_pixel_data()[0].get_color_raw(),
        (127, 0, 255)
    );
}

#[test]
fn grayscale_filter_buckets_and_rejects_low_shades() {
    let im = Image::new(vec![px(100, 100, 100, 0, 0)], Size { width: 1, height: 1 }, 4);
    let mut fd = holder_with(im);
    assert!(Grayscale { shades: 3 }.apply(&mut fd).is_ok());
    assert_eq!(
        fd.get_image().get_pixel_data()[0].get_color_raw(),
        (127, 127, 127)
    );
    assert_eq!(
        Grayscale { shades: 0 }.apply(&mut fd),
        Err(TransformError::InvalidParameter)
    );
}

#[test]
fn scale_filter_resizes_from_current_size() {
    let im = Image::new(
        vec![px(10, 0, 0, 0, 0), px(20, 0, 0, 1, 0)],
        Size { width: 2, height: 1 },
        4,
    );
    let mut fd = holder_with(im);
    Scale { size: Size { width: 4, height: 1 }, scaling: Scaling::Nearest }.apply(&mut fd);
    let d = fd.get_image().get_pixel_data();
    let reds: Vec<u8> = d.iter().map(|p| p.get_r()).collect();
    assert_eq!(reds, vec![10, 10, 20, 20]);
    assert_eq!(fd.get_image().get_image_size().width, 4);
}

#[test]
fn gradient_filter_flattens_uniform_input_to_zero_interior() {
    let mut pixels = Vec::new();
    for y in 0..3u32 {
        for x in 0..3u32 {
            pixels.push(px(0, 0, 0, x, y));
        }
    }
    let im = Image::new(pixels, Size { width: 3, height: 3 }, 4);
    let mut fd = holder_with(im);
    GradientMagnitude { kernel: Kernel::Prewitt }.apply(&mut fd);
    for p in fd.get_image().get_pixel_data().iter() {
        assert_eq!(p.get_color_raw(), (0, 0, 0));
    }
}

#[test]
fn canvas_ingests_buffers_and_tracks_terminal_size() {
    let mut canvas = Canvas::new(4);
    canvas.set_term_size(Size { width: 80, height: 24 });
    assert_eq!(canvas.get_term_size().width, 80);
    let buffer: Vec<u8> = vec![
        1, 2, 3, 0, //
        4, 5, 6, 0,
    ];
    assert!(canvas.push_buffer(buffer, 2, 1).is_ok());
    let fd = canvas.get_frame_data();
    assert_eq!(fd.get_image().get_pixel_data().len(), 2);
    assert_eq!(
        fd.get_image().get_pixel_data()[1].get_color_raw(),
        (4, 5, 6)
    );
}

#[test]
fn canvas_reports_buffer_mismatch_and_recovers() {
    let mut canvas = Canvas::new(4);
    assert_eq!(
        canvas.push_buffer(vec![1, 2, 3], 2, 1),
        Err(TransformError::SizeMismatch)
    );
    // the raster is a safe zeroed frame of the declared size
    let fd = canvas.get_frame_data();
    assert_eq!(fd.get_image().get_pixel_data().len(), 2);
    for p in fd.get_image().get_pixel_data().iter() {
        assert_eq!(p.get_color_raw(), (0, 0, 0));
    }
}
