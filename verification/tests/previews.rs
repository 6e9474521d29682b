use std::io::Cursor;

use image::{DynamicImage, ImageFormat};
use koharu::images::{oversized, webp_data_url, RgbaImage};
use koharu::previews::{
    encode_preview, encode_thumbnail, get_thumbnail, rendered_preview, take_source_image,
};

fn picture(width: u32, height: u32) -> RgbaImage {
    RgbaImage { width, height, pixels: vec![200; (4 * width * height) as usize] }
}

fn png(width: u32, height: u32) -> Vec<u8> {
    let mut bytes = Cursor::new(Vec::new());
    DynamicImage::ImageRgba8(image::RgbaImage::new(width, height))
        .write_to(&mut bytes, ImageFormat::Png)
        .unwrap();
    bytes.into_inner()
}

fn luma16(width: u32, height: u32) -> Vec<u8> {
    let white = image::Luma([u16::MAX]);
    let picture = image::ImageBuffer::<_, Vec<u16>>::from_pixel(width, height, white);
    let mut bytes = Cursor::new(Vec::new());
    DynamicImage::ImageLuma16(picture).write_to(&mut bytes, ImageFormat::Png).unwrap();
    bytes.into_inner()
}

fn size(webp: &[u8]) -> (u32, u32) {
    let image = image::load_from_memory_with_format(webp, ImageFormat::WebP).unwrap();
    (image.width(), image.height())
}

#[test]
fn makes_small_thumbnails() {
    assert_eq!(size(&get_thumbnail(&png(256, 64)).unwrap()), (128, 32));
    assert_eq!(size(&get_thumbnail(&png(2, 4)).unwrap()), (64, 128));
    let text = get_thumbnail(&b"nothing".to_vec()).unwrap_err().message;
    assert!(text.starts_with("failed to decode source image: "), "{text}");
}

#[test]
fn refuses_empty_and_broken_sources() {
    for (width, height) in [(0, 5), (5, 0), (0, 0)] {
        let error = encode_thumbnail(Ok((width, height, picture(1, 1)))).unwrap_err();
        assert_eq!(error.message, "source image is empty");
    }
    assert_eq!(
        encode_thumbnail(Err("odd".to_owned())).unwrap_err().message,
        "failed to decode source image: odd"
    );
    assert_eq!(size(&encode_thumbnail(Ok((9, 9, picture(3, 5)))).unwrap()), (3, 5));
}

#[test]
fn takes_the_source_image_of_a_page() {
    assert_eq!(take_source_image(true, "7", Ok(Some(vec![1]))).unwrap(), [1]);
    assert_eq!(
        take_source_image(true, "7", Ok(None)).unwrap_err().message,
        "page 7 has no source image"
    );
    assert_eq!(take_source_image(true, "7", Err("odd".to_owned())).unwrap_err().message, "odd");
    assert_eq!(
        take_source_image(false, "7", Ok(Some(vec![1]))).unwrap_err().message,
        "no project is open"
    );
}

#[test]
fn knows_pictures_whose_sums_do_not_fit() {
    assert!(!oversized((10_000, 14_000, 3, 3), 128, 128));
    assert!(!oversized((10_000, 14_000, 2, 1), 128, 128));
    assert!(!oversized((800, 16_200, 6, 3), 128, 128));
    assert!(!oversized((800, 61_000, 6, 3), 360, 480));
    assert!(!oversized((32_768, 130, 2, 1), 128, 128));
    assert!(!oversized((32_768, 256, 2, 1), 128, 128));
    assert!(oversized((32_768, 257, 2, 1), 128, 128));
    assert!(oversized((184_320, 130, 8, 4), 360, 480));
    assert!(!oversized((32_768, 257, 12, 3), 128, 128));
    assert!(oversized((4_200, 4_200, 1, 1), 1, 1));
    assert!(!oversized((4_000, 4_000, 1, 1), 1, 1));
    assert!(!oversized((0, 0, 1, 1), 128, 128));
    // What is too large to be decoded is never scaled.
    assert!(!oversized((u32::MAX, u32::MAX, 4, 4), 1, 1));
}

#[test]
fn scales_long_pictures_with_two_bytes_for_each_channel() {
    assert_eq!(size(&get_thumbnail(&luma16(32_768, 130)).unwrap()), (128, 1));
    assert_eq!(size(&get_thumbnail(&luma16(800, 16_200)).unwrap()), (6, 128));
    let webp = get_thumbnail(&luma16(33_024, 258)).unwrap();
    assert_eq!(size(&webp), (128, 1));
    let pixels = image::load_from_memory(&webp).unwrap().to_luma8();
    assert!(pixels.pixels().all(|pixel| pixel.0[0] > 250));
}

#[test]
fn makes_previews_that_fit() {
    assert_eq!(size(&rendered_preview(picture(2048, 512))), (1024, 256));
    assert_eq!(size(&rendered_preview(picture(10, 20))), (512, 1024));
    assert_eq!(size(&encode_preview(&picture(30, 40))), (30, 40));
}

#[test]
fn previews_of_the_right_size_are_not_scaled() {
    let gradient = || RgbaImage {
        width: 1024,
        height: 1024,
        pixels: (0..4 * 1024 * 1024).map(|i| (i / 4099) as u8).collect(),
    };
    assert_eq!(rendered_preview(gradient()), encode_preview(&gradient()));
    assert_ne!(rendered_preview(gradient()), rendered_preview(picture(1024, 1024)));
    let dark = RgbaImage { width: 10, height: 20, pixels: vec![0; 800] };
    assert_ne!(rendered_preview(dark), rendered_preview(picture(10, 20)));
}

#[test]
fn writes_pictures_as_urls() {
    let cases: [(&[u8], &str); 5] = [
        (b"", ""),
        (b"f", "Zg=="),
        (b"fo", "Zm8="),
        (b"foo", "Zm9v"),
        (&[0xfb, 0xff, 0xbf, 0x00], "+/+/AA=="),
    ];
    for (bytes, text) in cases {
        let url = webp_data_url(&bytes.to_vec());
        assert_eq!(url, format!("data:image/webp;base64,{text}"));
    }
}
