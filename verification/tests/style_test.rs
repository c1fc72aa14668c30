use prism::style::{color_accent, color_accent_default, color_from_pixels, cover_color, Rgb};
use std::io::Cursor;

fn png(width: u32, height: u32, rgb: Vec<u8>) -> Vec<u8> {
    let image = image::RgbImage::from_raw(width, height, rgb).unwrap();
    let mut bytes = Cursor::new(Vec::new());
    image.write_to(&mut bytes, image::ImageFormat::Png).unwrap();
    bytes.into_inner()
}

#[test]
fn saturated_pixels_outweigh_grey_ones() {
    // Red weighs 256, mid grey weighs 1: (255 * 256 + 128) / 257 = 254.
    let color = color_from_pixels(&[255, 0, 0, 128, 128, 128]);
    assert_eq!(
        color,
        Rgb {
            red: 254,
            green: 0,
            blue: 0
        }
    );
}

#[test]
fn equal_weights_average_the_channels() {
    let color = color_from_pixels(&[255, 0, 0, 0, 0, 255]);
    assert_eq!(
        color,
        Rgb {
            red: 127,
            green: 0,
            blue: 127
        }
    );
}

#[test]
fn a_single_pixel_is_its_own_colour() {
    assert_eq!(
        color_from_pixels(&[10, 20, 30]),
        Rgb {
            red: 10,
            green: 20,
            blue: 30
        }
    );
}

#[test]
fn the_accent_comes_from_a_decoded_cover() {
    let cover = png(2, 1, vec![255, 0, 0, 0, 0, 255]);
    let expected = Rgb {
        red: 127,
        green: 0,
        blue: 127,
    };
    assert_eq!(cover_color(&cover), Some(expected));
    assert_eq!(color_accent(Some(&cover)), expected);
}

#[test]
fn the_default_accent_stands_in_for_a_missing_or_broken_cover() {
    let default = Rgb {
        red: 84,
        green: 127,
        blue: 182,
    };
    assert_eq!(color_accent_default(), default);
    assert_eq!(color_accent(None), default);
    assert_eq!(color_accent(Some(&[1, 2, 3, 4])), default);
    assert_eq!(cover_color(&[1, 2, 3, 4]), None);
}
