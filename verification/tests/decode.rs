use apixels::decode::decode;
use apixels::{into_ascii_controlled, ColourDepth, RenderError};

fn png_of(image: image::DynamicImage) -> Vec<u8> {
    let mut bytes = Vec::new();
    image
        .write_to(&mut std::io::Cursor::new(&mut bytes), image::ImageOutputFormat::Png)
        .unwrap();
    bytes
}

#[test]
fn decode_gives_the_pixels() {
    let pixels = vec![255, 0, 0, 0, 255, 0, 0, 0, 255, 9, 8, 7, 1, 2, 3, 200, 100, 50];
    let img = image::RgbImage::from_raw(3, 2, pixels.clone()).unwrap();
    let raster = decode(png_of(image::DynamicImage::ImageRgb8(img))).unwrap();
    assert_eq!((raster.width(), raster.height()), (3, 2));
    assert_eq!(raster.as_bytes(), &pixels[..]);
}

#[test]
fn decode_leaves_alpha_out() {
    let img = image::RgbaImage::from_raw(2, 1, vec![1, 2, 3, 0, 4, 5, 6, 255]).unwrap();
    let raster = decode(png_of(image::DynamicImage::ImageRgba8(img))).unwrap();
    assert_eq!((raster.width(), raster.height()), (2, 1));
    assert_eq!(raster.as_bytes(), &[1, 2, 3, 4, 5, 6]);
}

#[test]
fn decode_spreads_gray_over_the_channels() {
    let img = image::GrayImage::from_raw(1, 2, vec![7, 200]).unwrap();
    let raster = decode(png_of(image::DynamicImage::ImageLuma8(img))).unwrap();
    assert_eq!(raster.as_bytes(), &[7, 7, 7, 200, 200, 200]);
}

#[test]
fn decode_hands_the_decoder_error_on() {
    assert!(matches!(decode(vec![]), Err(RenderError::DecodeFailure(_))));
    assert!(matches!(decode(b"not an image".to_vec()), Err(RenderError::DecodeFailure(_))));
    let mut cut = png_of(image::DynamicImage::ImageRgb8(
        image::RgbImage::from_raw(2, 2, vec![0; 12]).unwrap(),
    ));
    cut.truncate(20);
    assert!(matches!(decode(cut), Err(RenderError::DecodeFailure(_))));
}

#[test]
fn decoded_image_renders() {
    let img = image::RgbImage::from_raw(2, 3, vec![10; 18]).unwrap();
    let raster = decode(png_of(image::DynamicImage::ImageRgb8(img))).unwrap();
    let text = into_ascii_controlled(
        &raster,
        (&raster, &raster),
        (2, 3),
        true,
        false,
        ColourDepth::Grayscale,
    )
    .unwrap();
    assert_eq!(text, "\x1b[38;2;10;10;10m`\x1b[39m\n");
}
