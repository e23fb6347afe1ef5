use std::io::Cursor;

use image::{ImageFormat, RgbImage, RgbaImage};
use minceraft::crosshair::{decode_crosshair, CROSSHAIR_SIZE};

fn png_of_rgba(w: u32, h: u32, px: Vec<u8>) -> Vec<u8> {
    let img = RgbaImage::from_raw(w, h, px).unwrap();
    let mut out = Cursor::new(Vec::new());
    img.write_to(&mut out, ImageFormat::Png).unwrap();
    out.into_inner()
}

#[test]
fn decodes_rgba_png_pixels() {
    let px = vec![255, 0, 0, 255, 0, 255, 0, 128];
    let png = png_of_rgba(2, 1, px.clone());
    assert_eq!(decode_crosshair(&png), Some(px));
}

#[test]
fn decodes_crosshair_sized_png() {
    let px: Vec<u8> = (0..(CROSSHAIR_SIZE * CROSSHAIR_SIZE * 4)).map(|i| (i % 251) as u8).collect();
    let png = png_of_rgba(CROSSHAIR_SIZE, CROSSHAIR_SIZE, px.clone());
    assert_eq!(decode_crosshair(&png), Some(px));
}

#[test]
fn rgb_png_gains_opaque_alpha() {
    let img = RgbImage::from_raw(1, 1, vec![10, 20, 30]).unwrap();
    let mut out = Cursor::new(Vec::new());
    img.write_to(&mut out, ImageFormat::Png).unwrap();
    assert_eq!(decode_crosshair(&out.into_inner()), Some(vec![10, 20, 30, 255]));
}

#[test]
fn bad_bytes_do_not_decode() {
    assert_eq!(decode_crosshair(&[]), None);
    assert_eq!(decode_crosshair(b"not a png at all"), None);
}
