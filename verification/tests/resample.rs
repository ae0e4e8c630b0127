//! The resampler: round-trip shape, nearest and bilinear values, and the
//! degenerate single-line targets.

use rasterm::frame::{Image, Size};
use rasterm::pixel::{PxData, Vector2};
use rasterm::transform::Scaling;

fn px(r: u8, g: u8, b: u8, x: u32, y: u32) -> PxData {
    PxData::new(r, g, b, Vector2::new(x, y))
}

fn checker(w: u32, h: u32) -> Image {
    let mut pixels = Vec::new();
    for y in 0..h {
        for x in 0..w {
            let v = ((x + y) % 2 * 255) as u8;
            pixels.push(px(v, v, v, x, y));
        }
    }
    Image::new(pixels, Size { width: w, height: h }, 4)
}

/// After any resize, positions cover every destination cell exactly once.
fn assert_positions_cover(im: &Image, w: u32, h: u32) {
    assert_eq!(im.get_pixel_data().len(), (w * h) as usize);
    let mut seen = vec![false; (w * h) as usize];
    for p in im.get_pixel_data().iter() {
        assert!(p.get_x() < w);
        assert!(p.get_y() < h);
        let i = (p.get_y() * w + p.get_x()) as usize;
        assert!(!seen[i]);
        seen[i] = true;
    }
    assert!(seen.iter().all(|s| *s));
}

#[test]
fn resize_covers_every_cell_exactly_once_nearest() {
    let mut im = checker(3, 2);
    im.scale(Size { width: 4, height: 5 }, Scaling::Nearest, Size { width: 3, height: 2 });
    assert_positions_cover(&im, 4, 5);
}

#[test]
fn resize_covers_every_cell_exactly_once_bilinear() {
    let mut im = checker(3, 2);
    im.scale(Size { width: 5, height: 3 }, Scaling::Bilinear, Size { width: 3, height: 2 });
    assert_positions_cover(&im, 5, 3);
}

#[test]
fn nearest_doubles_by_floor_sampling() {
    let pixels = vec![
        px(10, 0, 0, 0, 0),
        px(20, 0, 0, 1, 0),
        px(30, 0, 0, 0, 1),
        px(40, 0, 0, 1, 1),
    ];
    let mut im = Image::new(pixels, Size { width: 2, height: 2 }, 4);
    im.scale(Size { width: 4, height: 4 }, Scaling::Nearest, Size { width: 2, height: 2 });
    let d = im.get_pixel_data();
    let reds: Vec<u8> = d.iter().map(|p| p.get_r()).collect();
    assert_eq!(
        reds,
        vec![10, 10, 20, 20, 10, 10, 20, 20, 30, 30, 40, 40, 30, 30, 40, 40]
    );
}

#[test]
fn bilinear_interpolates_between_two_samples() {
    let pixels = vec![px(0, 0, 0, 0, 0), px(255, 255, 255, 1, 0)];
    let mut im = Image::new(pixels, Size { width: 2, height: 1 }, 4);
    im.scale(Size { width: 3, height: 1 }, Scaling::Bilinear, Size { width: 2, height: 1 });
    let reds: Vec<u8> = im.get_pixel_data().iter().map(|p| p.get_r()).collect();
    // midpoint 127.5 rounds up to 128
    assert_eq!(reds, vec![0, 128, 255]);
}

#[test]
fn bilinear_quarters_between_four_corners() {
    let pixels = vec![
        px(0, 0, 0, 0, 0),
        px(100, 0, 0, 1, 0),
        px(200, 0, 0, 0, 1),
        px(40, 0, 0, 1, 1),
    ];
    let mut im = Image::new(pixels, Size { width: 2, height: 2 }, 4);
    im.scale(Size { width: 3, height: 3 }, Scaling::Bilinear, Size { width: 2, height: 2 });
    let reds: Vec<u8> = im.get_pixel_data().iter().map(|p| p.get_r()).collect();
    // center: mean of the four corners = 85
    assert_eq!(reds, vec![0, 50, 100, 100, 85, 70, 200, 120, 40]);
}

#[test]
fn bilinear_single_column_target_samples_first_line() {
    let pixels = vec![px(10, 0, 0, 0, 0), px(250, 0, 0, 1, 0)];
    let mut im = Image::new(pixels, Size { width: 2, height: 1 }, 4);
    // a 1x1 target would divide by zero in the naive formula; it must
    // sample the first reachable source line instead
    im.scale(Size { width: 1, height: 1 }, Scaling::Bilinear, Size { width: 2, height: 1 });
    let d = im.get_pixel_data();
    assert_eq!(d.len(), 1);
    assert_eq!(d[0].get_r(), 10);
}

#[test]
fn bilinear_single_row_target_samples_first_line() {
    let pixels = vec![px(7, 0, 0, 0, 0), px(99, 0, 0, 0, 1)];
    let mut im = Image::new(pixels, Size { width: 1, height: 2 }, 4);
    im.scale(Size { width: 1, height: 1 }, Scaling::Bilinear, Size { width: 1, height: 2 });
    assert_eq!(im.get_pixel_data()[0].get_r(), 7);
}

#[test]
fn nearest_shrink_keeps_sampled_values() {
    let mut im = checker(4, 4);
    im.scale(Size { width: 2, height: 2 }, Scaling::Nearest, Size { width: 4, height: 4 });
    let d = im.get_pixel_data();
    assert_eq!(d.len(), 4);
    // destination (x,y) samples source (2x, 2y): values (0+0)%2, (2+0)%2, ...
    assert_eq!(d[0].get_r(), 0);
    assert_eq!(d[1].get_r(), 0);
    assert_eq!(d[2].get_r(), 0);
    assert_eq!(d[3].get_r(), 0);
}
