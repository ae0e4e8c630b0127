//! Raster model: construction, ingestion, and the per-pixel transforms.

use rasterm::error::TransformError;
use rasterm::frame::{FrameData, Image, Size};
use rasterm::pixel::{PxData, Vector2};

fn px(r: u8, g: u8, b: u8, x: u32, y: u32) -> PxData {
    PxData::new(r, g, b, Vector2::new(x, y))
}

#[test]
fn black_raster_is_zeroed_and_positioned() {
    let im = Image::black(Size { width: 3, height: 2 });
    assert_eq!(im.get_image_size().width, 3);
    assert_eq!(im.get_image_size().height, 2);
    let data = im.get_pixel_data();
    assert_eq!(data.len(), 6);
    for (i, p) in data.iter().enumerate() {
        assert_eq!(p.get_color_raw(), (0, 0, 0));
        assert_eq!(p.get_x() as usize, i % 3);
        assert_eq!(p.get_y() as usize, i / 3);
    }
}

#[test]
fn get_pixel_reads_row_major() {
    let pixels = vec![
        px(1, 0, 0, 0, 0),
        px(2, 0, 0, 1, 0),
        px(3, 0, 0, 0, 1),
        px(4, 0, 0, 1, 1),
    ];
    let im = Image::new(pixels, Size { width: 2, height: 2 }, 4);
    assert_eq!(im.get_pixel(Vector2::new(1, 0)).get_r(), 2);
    assert_eq!(im.get_pixel(Vector2::new(0, 1)).get_r(), 3);
    assert_eq!(im.get_pixel(Vector2::new(1, 1)).get_r(), 4);
}

#[test]
fn ingestion_reads_first_three_channels_of_each_sample() {
    let mut fd = FrameData::new(0, 0, 4);
    let buffer: Vec<u8> = vec![
        10, 11, 12, 255, // (0,0)
        20, 21, 22, 255, // (1,0)
        30, 31, 32, 255, // (0,1)
        40, 41, 42, 255, // (1,1)
    ];
    let res = fd.set_raw_data(buffer, Size { width: 2, height: 2 });
    assert!(res.is_ok());
    let im = fd.get_image();
    assert_eq!(im.get_pixel_data().len(), 4);
    let p = im.get_pixel(Vector2::new(1, 0));
    assert_eq!(p.get_color_raw(), (20, 21, 22));
    assert_eq!((p.get_x(), p.get_y()), (1, 0));
    let q = im.get_pixel(Vector2::new(0, 1));
    assert_eq!(q.get_color_raw(), (30, 31, 32));
    assert_eq!((q.get_x(), q.get_y()), (0, 1));
    assert_eq!(fd.raw_buffer().len(), 16);
    assert_eq!(fd.get_buffer_size().width, 2);
}

#[test]
fn ingestion_size_mismatch_yields_zeroed_raster() {
    let mut fd = FrameData::new(0, 0, 4);
    let buffer: Vec<u8> = vec![1, 2, 3]; // not 2*2*4 bytes
    let res = fd.set_raw_data(buffer, Size { width: 2, height: 2 });
    assert_eq!(res, Err(TransformError::SizeMismatch));
    let im = fd.get_image();
    assert_eq!(im.get_pixel_data().len(), 4);
    for p in im.get_pixel_data().iter() {
        assert_eq!(p.get_color_raw(), (0, 0, 0));
    }
    assert_eq!(im.get_image_size().width, 2);
    assert_eq!(im.get_image_size().height, 2);
}

#[test]
fn ingestion_rejects_unsupported_stride() {
    let mut fd = FrameData::new(0, 0, 3);
    let buffer: Vec<u8> = vec![0; 12];
    let res = fd.set_raw_data(buffer, Size { width: 2, height: 2 });
    assert_eq!(res, Err(TransformError::InvalidParameter));
    assert_eq!(fd.get_image().get_pixel_data().len(), 4);
}

#[test]
fn clone_image_copies_samples() {
    let mut fd = FrameData::new(0, 0, 4);
    fd.set_raw_data(vec![9, 8, 7, 0], Size { width: 1, height: 1 })
        .unwrap();
    let im = fd.clone_image();
    assert_eq!(im.get_pixel_data().len(), 1);
    assert_eq!(im.get_pixel_data()[0].get_color_raw(), (9, 8, 7));
}

#[test]
fn flip_horizontal_mirrors_columns() {
    let pixels = vec![
        px(1, 0, 0, 0, 0),
        px(2, 0, 0, 1, 0),
        px(3, 0, 0, 0, 1),
        px(4, 0, 0, 1, 1),
    ];
    let mut im = Image::new(pixels, Size { width: 2, height: 2 }, 4);
    im.flip(true, false);
    let d = im.get_pixel_data();
    assert_eq!(d[0].get_r(), 2);
    assert_eq!(d[1].get_r(), 1);
    assert_eq!(d[2].get_r(), 4);
    assert_eq!(d[3].get_r(), 3);
    // the moved samples take their new cells' positions
    assert_eq!((d[1].get_x(), d[1].get_y()), (1, 0));
}

#[test]
fn flip_vertical_mirrors_rows() {
    let pixels = vec![
        px(1, 0, 0, 0, 0),
        px(2, 0, 0, 1, 0),
        px(3, 0, 0, 0, 1),
        px(4, 0, 0, 1, 1),
    ];
    let mut im = Image::new(pixels, Size { width: 2, height: 2 }, 4);
    im.flip(false, true);
    let d = im.get_pixel_data();
    assert_eq!(d[0].get_r(), 3);
    assert_eq!(d[1].get_r(), 4);
    assert_eq!(d[2].get_r(), 1);
    assert_eq!(d[3].get_r(), 2);
}

#[test]
fn quantize_snaps_channels_to_buckets() {
    let mut p = px(100, 0, 255, 0, 0);
    p.quantize(4);
    // 100 -> round(4*100/255)=2 -> 2*255/4 = 127; 0 -> 0; 255 -> 4*255/4 = 255
    assert_eq!(p.get_color_raw(), (127, 0, 255));
}

#[test]
fn image_quantize_applies_per_pixel() {
    let mut im = Image::new(vec![px(100, 100, 100, 0, 0)], Size { width: 1, height: 1 }, 4);
    im.quantize(4);
    assert_eq!(im.get_pixel_data()[0].get_color_raw(), (127, 127, 127));
}

#[test]
fn grayscale_buckets_the_channel_mean() {
    let mut im = Image::new(vec![px(100, 100, 100, 0, 0)], Size { width: 1, height: 1 }, 4);
    // shades = 2: step 255; mean 100 rounds up to 255
    assert!(im.grayscale(2).is_ok());
    assert_eq!(im.get_pixel_data()[0].get_color_raw(), (255, 255, 255));

    let mut im2 = Image::new(vec![px(100, 100, 100, 0, 0)], Size { width: 1, height: 1 }, 4);
    // shades = 3: step 127; mean 100 rounds up to 127
    assert!(im2.grayscale(3).is_ok());
    assert_eq!(im2.get_pixel_data()[0].get_color_raw(), (127, 127, 127));

    let mut im3 = Image::new(vec![px(0, 0, 0, 0, 0)], Size { width: 1, height: 1 }, 4);
    assert!(im3.grayscale(2).is_ok());
    assert_eq!(im3.get_pixel_data()[0].get_color_raw(), (0, 0, 0));
}

#[test]
fn grayscale_rejects_fewer_than_two_shades() {
    let mut im = Image::new(vec![px(10, 20, 30, 0, 0)], Size { width: 1, height: 1 }, 4);
    assert_eq!(im.grayscale(1), Err(TransformError::InvalidParameter));
    // untouched on failure
    assert_eq!(im.get_pixel_data()[0].get_color_raw(), (10, 20, 30));
}

#[test]
fn brightness_shifts_and_clamps() {
    let mut im = Image::new(vec![px(10, 200, 255, 0, 0)], Size { width: 1, height: 1 }, 4);
    im.brightness(100);
    assert_eq!(im.get_pixel_data()[0].get_color_raw(), (110, 255, 255));
    im.brightness(-300);
    assert_eq!(im.get_pixel_data()[0].get_color_raw(), (0, 0, 0));
}

#[test]
fn pixel_accessors_round_trip() {
    let mut p = px(1, 2, 3, 4, 5);
    assert_eq!((p.get_r(), p.get_g(), p.get_b()), (1, 2, 3));
    assert_eq!((p.get_x(), p.get_y()), (4, 5));
    p.set_color_raw(9, 8, 7);
    assert_eq!(p.get_color_raw(), (9, 8, 7));
    p.set_x(6);
    p.set_y(7);
    assert_eq!((p.get_x(), p.get_y()), (6, 7));
    p.set_position(Vector2::new(1, 1));
    assert_eq!((p.get_x(), p.get_y()), (1, 1));
    assert_eq!(p.get_character(), ' ');
    p.set_character('#');
    assert_eq!(p.get_character(), '#');
    assert_eq!(p.luminance(), (9 + 8 + 7) / 3);
}

#[test]
fn get_pixel_mut_writes_through() {
    let pixels = vec![px(1, 1, 1, 0, 0), px(2, 2, 2, 1, 0)];
    let mut im = Image::new(pixels, Size { width: 2, height: 1 }, 4);
    let p = im.get_pixel_mut(Vector2::new(1, 0));
    p.set_color_raw(50, 60, 70);
    assert_eq!(im.get_pixel(Vector2::new(1, 0)).get_color_raw(), (50, 60, 70));
    assert_eq!(im.get_pixel(Vector2::new(0, 0)).get_color_raw(), (1, 1, 1));
}

#[test]
fn image_size_and_data_setters() {
    let mut im = Image::new(Vec::new(), Size { width: 0, height: 0 }, 4);
    im.set_image_size(Size { width: 5, height: 6 });
    assert_eq!(im.get_image_size().width, 5);
    im.get_pixel_data_mut().push(px(1, 2, 3, 0, 0));
    assert_eq!(im.get_pixel_data().len(), 1);
}

#[test]
fn frame_data_setters_round_trip() {
    let mut fd = FrameData::new(0, 0, 4);
    fd.set_multiplier(8);
    let im = Image::new(vec![px(5, 5, 5, 0, 0)], Size { width: 1, height: 1 }, 8);
    fd.set_image(im);
    assert_eq!(fd.get_image().get_pixel_data().len(), 1);
    fd.get_image_mut().brightness(10);
    assert_eq!(fd.get_image().get_pixel_data()[0].get_color_raw(), (15, 15, 15));
}

#[test]
fn vector2_accessors_round_trip() {
    let mut v = Vector2::new(3, 4);
    assert_eq!((v.get_x(), v.get_y()), (3, 4));
    v.set_x(10);
    v.set_y(20);
    assert_eq!((v.get_x(), v.get_y()), (10, 20));
}
