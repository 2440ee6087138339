use image::{Rgb, RgbImage};
use pathtracer::material::{DummyMaterial, DummyPDF};
use pathtracer::texture::ImageTexture;
use std::io::Cursor;

fn png_bytes(img: &RgbImage) -> Vec<u8> {
    let mut bytes: Vec<u8> = Vec::new();
    img.write_to(&mut Cursor::new(&mut bytes), image::ImageFormat::Png)
        .expect("encoding a png in memory cannot fail");
    bytes
}

#[test]
fn decoded_texture_hands_back_its_texels() {
    let mut img = RgbImage::new(2, 2);
    img.put_pixel(0, 0, Rgb([10, 20, 30]));
    img.put_pixel(1, 0, Rgb([40, 50, 60]));
    img.put_pixel(0, 1, Rgb([70, 80, 90]));
    img.put_pixel(1, 1, Rgb([200, 150, 100]));
    let texture = ImageTexture::new(&png_bytes(&img)).expect("valid png must decode");
    assert_eq!(texture.width(), 2);
    assert_eq!(texture.height(), 2);
    assert_eq!(texture.texel(0, 0), (10, 20, 30));
    assert_eq!(texture.texel(1, 0), (40, 50, 60));
    assert_eq!(texture.texel(0, 1), (70, 80, 90));
    assert_eq!(texture.texel(1, 1), (200, 150, 100));
}

#[test]
fn wide_texture_rows_are_addressed_row_major() {
    let mut img = RgbImage::new(5, 3);
    for y in 0..3u32 {
        for x in 0..5u32 {
            img.put_pixel(x, y, Rgb([x as u8, y as u8, (10 * x + y) as u8]));
        }
    }
    let texture = ImageTexture::new(&png_bytes(&img)).expect("valid png must decode");
    for y in 0..3u32 {
        for x in 0..5u32 {
            assert_eq!(texture.texel(x, y), (x as u8, y as u8, (10 * x + y) as u8));
        }
    }
}

#[test]
fn corrupt_bytes_do_not_decode() {
    assert!(ImageTexture::new(&[0x13, 0x37, 0x00]).is_none());
    assert!(ImageTexture::new(&[]).is_none());
}

#[test]
fn dummy_objects_exist_for_wiring() {
    let material = DummyMaterial::new();
    assert_eq!(material, DummyMaterial);
    let _pdf = DummyPDF;
}
