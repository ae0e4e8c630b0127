//! The energy engine and the seam engine: luminance projection, kernels,
//! gradient magnitude, and seam search/removal/insertion.

use rasterm::energy::{Energy, Kernel};
use rasterm::error::TransformError;
use rasterm::frame::{Image, Size};
use rasterm::pixel::{PxData, Vector2};

fn gray_px(v: u8, x: u32, y: u32) -> PxData {
    PxData::new(v, v, v, Vector2::new(x, y))
}

fn gray_grid(values: &[&[u8]]) -> Energy {
    let h = values.len() as u32;
    let w = values[0].len() as u32;
    let mut pixels = Vec::new();
    for (y, row) in values.iter().enumerate() {
        for (x, v) in row.iter().enumerate() {
            pixels.push(gray_px(*v, x as u32, y as u32));
        }
    }
    Energy::new(pixels, w, h, Kernel::Sobel)
}

#[test]
fn luminance_projection_is_integer_mean() {
    let pixels = vec![PxData::new(10, 20, 31, Vector2::new(0, 0))];
    let en = Energy::new(pixels, 1, 1, Kernel::Sobel);
    // (10 + 20 + 31) / 3 = 20 (integer division)
    assert_eq!(en.get_pixels(), vec![vec![20]]);
}

#[test]
fn luminance_of_gray_raster_reads_the_channel_back() {
    // already-gray samples: the projection is the identity on the channel
    let values: Vec<u8> = vec![0, 17, 128, 255];
    let pixels: Vec<PxData> = values
        .iter()
        .enumerate()
        .map(|(i, v)| gray_px(*v, i as u32, 0))
        .collect();
    let en = Energy::new(pixels, 4, 1, Kernel::Sobel);
    assert_eq!(
        en.get_pixels(),
        vec![vec![0, 17, 128, 255]]
    );
}

#[test]
fn kernel_matrices_match_the_families() {
    let en = gray_grid(&[&[0]]);
    let (gx, gy) = en.get_kernel_matrix();
    assert_eq!(gx, vec![vec![-1, 0, 1], vec![-2, 0, 2], vec![-1, 0, 1]]);
    assert_eq!(gy, vec![vec![-1, -2, -1], vec![0, 0, 0], vec![1, 2, 1]]);
    let mut pixels = Vec::new();
    pixels.push(gray_px(0, 0, 0));
    let enp = Energy::new(pixels, 1, 1, Kernel::Prewitt);
    let (px_, py_) = enp.get_kernel_matrix();
    assert_eq!(px_, vec![vec![-1, 0, 1], vec![-1, 0, 1], vec![-1, 0, 1]]);
    assert_eq!(py_, vec![vec![-1, -1, -1], vec![0, 0, 0], vec![1, 1, 1]]);
}

#[test]
fn flat_zero_raster_has_zero_magnitude_everywhere() {
    let mut en = gray_grid(&[&[0, 0, 0, 0], &[0, 0, 0, 0], &[0, 0, 0, 0]]);
    en.compute_gradient_magnitude();
    for row in en.get_pixels() {
        for cell in row {
            assert_eq!(cell, 0);
        }
    }
}

#[test]
fn flat_raster_has_zero_magnitude_at_interior_cells() {
    let mut en = gray_grid(&[
        &[90, 90, 90, 90],
        &[90, 90, 90, 90],
        &[90, 90, 90, 90],
        &[90, 90, 90, 90],
    ]);
    en.compute_gradient_magnitude();
    let g = en.get_pixels();
    for y in 1..3 {
        for x in 1..3 {
            assert_eq!(g[y][x], 0);
        }
    }
}

#[test]
fn sobel_center_spike_yields_known_magnitudes() {
    let mut en = gray_grid(&[&[0, 0, 0], &[0, 255, 0], &[0, 0, 0]]);
    en.compute_gradient_magnitude();
    // corners: |g| = round(sqrt(255^2 + 255^2)) = 361
    // edge centers: one axis only, weight 2: round(sqrt(510^2)) = 510
    // center: both kernels weight the center zero
    assert_eq!(
        en.get_pixels(),
        vec![
            vec![361, 510, 361],
            vec![510, 0, 510],
            vec![361, 510, 361],
        ]
    );
}

#[test]
fn compute_gradient_reports_signed_pair() {
    let en = gray_grid(&[&[0, 0, 0], &[0, 255, 0], &[0, 0, 0]]);
    // at the top-left corner the only lit neighbor is (1,1), weighted +1
    // by both Sobel kernels
    assert_eq!(en.compute_gradient(0, 0), (255, 255));
    // at the bottom-right corner it is weighted -1 by both
    assert_eq!(en.compute_gradient(2, 2), (-255, -255));
    assert_eq!(en.compute_gradient(1, 1), (0, 0));
}

#[test]
fn find_seams_picks_the_cheap_column_then_recurses() {
    let en = gray_grid(&[&[5, 1, 5], &[5, 1, 5]]);
    assert_eq!(en.find_seams(1).unwrap(), vec![1]);
    // after removing the cheap column the grid is flat; the first minimum
    // wins
    assert_eq!(en.find_seams(2).unwrap(), vec![1, 0]);
    assert_eq!(en.find_seams(3).unwrap(), vec![1, 0, 0]);
}

#[test]
fn find_seams_rejects_count_above_width() {
    let en = gray_grid(&[&[5, 1, 5], &[5, 1, 5]]);
    assert_eq!(en.find_seams(4), Err(TransformError::InvalidParameter));
}

#[test]
fn remove_seams_drops_matching_columns_only() {
    let mut en = gray_grid(&[&[1, 2, 3, 4], &[5, 6, 7, 8]]);
    assert!(en.remove_seams(vec![1, 3], false).is_ok());
    let g = en.get_pixels();
    // width shrinks by the seam count; every kept value is from the
    // original row
    assert_eq!(g, vec![vec![1, 3], vec![5, 7]]);
}

#[test]
fn remove_seams_fails_loudly_on_interpolated_fill() {
    let mut en = gray_grid(&[&[1, 2], &[3, 4]]);
    assert_eq!(
        en.remove_seams(vec![0], true),
        Err(TransformError::InvalidParameter)
    );
    // untouched on failure
    assert_eq!(en.get_pixels(), vec![vec![1, 2], vec![3, 4]]);
}

#[test]
fn add_seams_duplicates_recorded_columns_per_row() {
    let mut en = gray_grid(&[&[1, 2], &[3, 4]]);
    en.add_seams(vec![vec![0], vec![1]]);
    assert_eq!(en.get_pixels(), vec![vec![1, 1, 2], vec![3, 4, 4]]);
}

#[test]
fn seam_carve_narrows_by_one_column() {
    let pixels = vec![
        gray_px(0, 0, 0),
        gray_px(0, 1, 0),
        gray_px(0, 2, 0),
        gray_px(0, 0, 1),
        gray_px(0, 1, 1),
        gray_px(0, 2, 1),
    ];
    let mut im = Image::new(pixels, Size { width: 3, height: 2 }, 4);
    assert!(im.seam_carve(1).is_ok());
    assert_eq!(im.get_image_size().width, 2);
    assert_eq!(im.get_image_size().height, 2);
    assert_eq!(im.get_pixel_data().len(), 4);
    for (i, p) in im.get_pixel_data().iter().enumerate() {
        assert_eq!(p.get_color_raw(), (0, 0, 0));
        assert_eq!(p.get_x() as usize, i % 2);
        assert_eq!(p.get_y() as usize, i / 2);
    }
}

#[test]
fn seam_carve_rejects_count_above_width() {
    let pixels = vec![gray_px(0, 0, 0), gray_px(0, 1, 0)];
    let mut im = Image::new(pixels, Size { width: 2, height: 1 }, 4);
    assert_eq!(im.seam_carve(3), Err(TransformError::InvalidParameter));
    assert_eq!(im.get_image_size().width, 2);
}

#[test]
fn get_pixels_mut_writes_through() {
    let mut en = gray_grid(&[&[1, 2], &[3, 4]]);
    en.get_pixels_mut()[0][1] = 9;
    assert_eq!(en.get_pixels(), vec![vec![1, 9], vec![3, 4]]);
}

#[test]
fn magnitude_saturates_instead_of_wrapping_into_the_raster() {
    // a spike next to black makes magnitudes above channel range; turning
    // the grid back into a raster clamps them to 255
    let mut im = Image::new(
        vec![
            gray_px(0, 0, 0),
            gray_px(255, 1, 0),
            gray_px(0, 2, 0),
            gray_px(0, 0, 1),
            gray_px(255, 1, 1),
            gray_px(0, 2, 1),
            gray_px(0, 0, 2),
            gray_px(255, 1, 2),
            gray_px(0, 2, 2),
        ],
        Size { width: 3, height: 3 },
        4,
    );
    im.gradient_magnitude(Kernel::Sobel);
    let d = im.get_pixel_data();
    assert_eq!(d.len(), 9);
    // the lit column's left and right neighbors see a strong x gradient
    assert_eq!(d[3].get_color_raw(), (255, 255, 255));
    assert!(d.iter().all(|p| {
        let (r, g, b) = p.get_color_raw();
        r == g && g == b
    }));
}
