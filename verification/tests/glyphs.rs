//! The glyph mapper and the compositor.

use rasterm::error::TransformError;
use rasterm::frame::{Image, Size};
use rasterm::pixel::{PxData, Vector2};

fn gray_px(v: u8, x: u32, y: u32) -> PxData {
    PxData::new(v, v, v, Vector2::new(x, y))
}

fn gray_row(values: &[u8]) -> Image {
    let pixels: Vec<PxData> = values
        .iter()
        .enumerate()
        .map(|(i, v)| gray_px(*v, i as u32, 0))
        .collect();
    Image::new(pixels, Size { width: values.len() as u32, height: 1 }, 4)
}

#[test]
fn get_ascii_maps_luminance_to_ramp_glyphs() {
    let im = gray_row(&[0, 100, 200, 255]);
    let out = im.get_ascii(String::from("@%#*+=-:. "));
    // indexes: 0*10/255 = 0, 100*10/255 = 3, 200*10/255 = 7, 255 clamps to 9
    assert_eq!(out, "@*: ");
}

#[test]
fn get_ascii_single_glyph_ramp() {
    let im = gray_row(&[0, 255]);
    assert_eq!(im.get_ascii(String::from("x")), "xx");
}

#[test]
fn glyph_mapping_is_monotone_in_luminance() {
    let ramp = "@%#*+=-:. ";
    let ramp_chars: Vec<char> = ramp.chars().collect();
    let values: Vec<u8> = (0u16..=255).map(|v| v as u8).collect();
    let im = gray_row(&values);
    let out: Vec<char> = im.get_ascii(String::from(ramp)).chars().collect();
    let mut last_index = 0usize;
    for c in out {
        let idx = ramp_chars.iter().position(|r| *r == c).unwrap();
        assert!(idx >= last_index);
        last_index = idx;
    }
}

#[test]
fn map_to_glyphs_assigns_ramp_entries_in_place() {
    let mut im = gray_row(&[0, 255]);
    im.map_to_glyphs(".#");
    let d = im.get_pixel_data();
    assert_eq!(d[0].get_character(), '.');
    assert_eq!(d[1].get_character(), '#');
    // colors are untouched
    assert_eq!(d[1].get_color_raw(), (255, 255, 255));
}

#[test]
fn compositor_keeps_overlay_at_exact_threshold() {
    // luminance difference exactly the threshold: the overlay wins, since
    // only a strictly greater difference prefers the base
    let mut base = gray_row(&[100]);
    let overlay = gray_row(&[80]);
    assert!(base.mask_ontop(&overlay, 20).is_ok());
    assert_eq!(base.get_pixel_data()[0].get_color_raw(), (80, 80, 80));
}

#[test]
fn compositor_keeps_base_above_threshold() {
    // difference of threshold + 1: the base wins
    let mut base = gray_row(&[100]);
    let overlay = gray_row(&[80]);
    assert!(base.mask_ontop(&overlay, 19).is_ok());
    assert_eq!(base.get_pixel_data()[0].get_color_raw(), (100, 100, 100));
}

#[test]
fn compositor_rejects_mismatched_dimensions() {
    let mut base = gray_row(&[100, 50]);
    let overlay = gray_row(&[80]);
    assert_eq!(
        base.mask_ontop(&overlay, 10),
        Err(TransformError::DimensionMismatch)
    );
    // untouched on failure
    assert_eq!(base.get_pixel_data()[0].get_color_raw(), (100, 100, 100));
}

#[test]
fn compositor_picks_per_pixel() {
    let mut base = gray_row(&[100, 100]);
    let overlay = gray_row(&[95, 30]);
    assert!(base.mask_ontop(&overlay, 10).is_ok());
    let d = base.get_pixel_data();
    // first pair differs by 5 <= 10: overlay; second by 70 > 10: base
    assert_eq!(d[0].get_color_raw(), (95, 95, 95));
    assert_eq!(d[1].get_color_raw(), (100, 100, 100));
}
