//! The player's colours, and the accent colour drawn from a cover picture:
//! the average of its pixels, each weighted by how saturated it is.

use vstd::prelude::*;

verus! {

/// A colour by its red, green and blue intensities.
#[derive(Clone, Copy, Debug, PartialEq, Eq)]
pub struct Rgb {
    pub red: u8,
    pub green: u8,
    pub blue: u8,
}

/// The accent colour where there is no cover to draw one from.
pub fn color_accent_default() -> (color: Rgb)
    ensures
        color == (Rgb { red: 84, green: 127, blue: 182 }),
{
    Rgb { red: 84, green: 127, blue: 182 }
}

/// The weight of a pixel: the spread between its strongest and weakest
/// channel, plus one, so that grey pixels still count a little.
pub open spec fn saturation(red: u8, green: u8, blue: u8) -> int {
    let maximum = if red >= green && red >= blue {
        red
    } else if green >= blue {
        green
    } else {
        blue
    };
    let minimum = if red <= green && red <= blue {
        red
    } else if green <= blue {
        green
    } else {
        blue
    };
    maximum - minimum + 1
}

/// The weight of pixel `i` of packed RGB bytes.
pub open spec fn pixel_weight(rgb: Seq<u8>, i: int) -> int {
    saturation(rgb[3 * i], rgb[3 * i + 1], rgb[3 * i + 2])
}

/// The sum of the weights of the first `count` pixels.
pub open spec fn total_weight(rgb: Seq<u8>, count: nat) -> int
    decreases count,
{
    if count == 0 {
        0
    } else {
        total_weight(rgb, (count - 1) as nat) + pixel_weight(rgb, count - 1)
    }
}

/// The sum over the first `count` pixels of `channel` (0 red, 1 green,
/// 2 blue) times the pixel's weight.
pub open spec fn weighted_channel(rgb: Seq<u8>, channel: int, count: nat) -> int
    decreases count,
{
    if count == 0 {
        0
    } else {
        weighted_channel(rgb, channel, (count - 1) as nat) + rgb[3 * (count - 1) + channel]
            * pixel_weight(rgb, count - 1)
    }
}

/// The weighted average of `channel` over all pixels, rounded down.
pub open spec fn average_channel(rgb: Seq<u8>, channel: int) -> int {
    weighted_channel(rgb, channel, (rgb.len() / 3) as nat) / total_weight(
        rgb,
        (rgb.len() / 3) as nat,
    )
}

proof fn lemma_saturation_bounds(red: u8, green: u8, blue: u8)
    ensures
        1 <= saturation(red, green, blue) <= 256,
{
}

proof fn lemma_weighted_bounds(rgb: Seq<u8>, channel: int, count: nat)
    requires
        0 <= channel < 3,
        3 * count <= rgb.len(),
    ensures
        count <= total_weight(rgb, count) <= 256 * count,
        0 <= weighted_channel(rgb, channel, count) <= 255 * total_weight(rgb, count),
    decreases count,
{
    if count > 0 {
        lemma_weighted_bounds(rgb, channel, (count - 1) as nat);
        let i = count - 1;
        lemma_saturation_bounds(rgb[3 * i], rgb[3 * i + 1], rgb[3 * i + 2]);
        let value = rgb[3 * i + channel];
        let weight = pixel_weight(rgb, i);
        assert(0 <= value * weight <= 255 * weight) by (nonlinear_arith)
            requires
                0 <= value <= 255,
                1 <= weight,
        ;
    }
}

/// The weighted average colour of packed RGB pixels.
pub fn color_from_pixels(rgb: &[u8]) -> (color: Rgb)
    requires
        rgb@.len() >= 3,
        rgb@.len() % 3 == 0,
    ensures
        color.red == average_channel(rgb@, 0),
        color.green == average_channel(rgb@, 1),
        color.blue == average_channel(rgb@, 2),
{
    let length = rgb.len();
    let count = length / 3;
    let mut red: u128 = 0;
    let mut green: u128 = 0;
    let mut blue: u128 = 0;
    let mut weight: u128 = 0;
    let mut i: usize = 0;
    while i < count
        invariant
            count == rgb@.len() / 3,
            length == rgb@.len(),
            i <= count,
            red == weighted_channel(rgb@, 0, i as nat),
            green == weighted_channel(rgb@, 1, i as nat),
            blue == weighted_channel(rgb@, 2, i as nat),
            weight == total_weight(rgb@, i as nat),
        decreases count - i,
    {
        proof {
            assert(3 * i + 2 < length) by (nonlinear_arith)
                requires
                    i < count,
                    count == length / 3,
            ;
        }
        let pixel_red = rgb[3 * i];
        let pixel_green = rgb[3 * i + 1];
        let pixel_blue = rgb[3 * i + 2];
        let maximum = if pixel_red >= pixel_green && pixel_red >= pixel_blue {
            pixel_red
        } else if pixel_green >= pixel_blue {
            pixel_green
        } else {
            pixel_blue
        };
        let minimum = if pixel_red <= pixel_green && pixel_red <= pixel_blue {
            pixel_red
        } else if pixel_green <= pixel_blue {
            pixel_green
        } else {
            pixel_blue
        };
        let saturation = (maximum - minimum) as u128 + 1;
        proof {
            lemma_weighted_bounds(rgb@, 0, (i + 1) as nat);
            lemma_weighted_bounds(rgb@, 1, (i + 1) as nat);
            lemma_weighted_bounds(rgb@, 2, (i + 1) as nat);
            assert(saturation == pixel_weight(rgb@, i as int));
            assert(256 * (i + 1) <= 256 * 0x1_0000_0000_0000_0000) by (nonlinear_arith)
                requires
                    i + 1 <= 0x1_0000_0000_0000_0000,
            ;
        }
        red = red + pixel_red as u128 * saturation;
        green = green + pixel_green as u128 * saturation;
        blue = blue + pixel_blue as u128 * saturation;
        weight = weight + saturation;
        i += 1;
    }
    proof {
        lemma_weighted_bounds(rgb@, 0, count as nat);
        lemma_weighted_bounds(rgb@, 1, count as nat);
        lemma_weighted_bounds(rgb@, 2, count as nat);
        assert(red / weight <= 255) by (nonlinear_arith)
            requires
                red <= 255 * weight,
                weight >= 1,
        ;
        assert(green / weight <= 255) by (nonlinear_arith)
            requires
                green <= 255 * weight,
                weight >= 1,
        ;
        assert(blue / weight <= 255) by (nonlinear_arith)
            requires
                blue <= 255 * weight,
                weight >= 1,
        ;
    }
    Rgb { red: (red / weight) as u8, green: (green / weight) as u8, blue: (blue / weight) as u8 }
}

/// What the `image` crate decodes from `bytes` as packed 8-bit RGB pixels
/// (`load_from_memory`, then `to_rgb8` and `into_raw`); nothing where it
/// cannot decode them.
pub uninterp spec fn decoded_rgb8(bytes: Seq<u8>) -> Option<Seq<u8>>;

/// `image::load_from_memory(bytes)`, converted with `to_rgb8` and taken out
/// with `into_raw`. Claimed: the result is `decoded_rgb8` of the bytes.
#[verifier::external_body]
fn decode_rgb8(bytes: &[u8]) -> (pixels: Option<Vec<u8>>)
    ensures
        pixels matches Some(rgb) ==> decoded_rgb8(bytes@) == Some(rgb@),
        pixels is None ==> decoded_rgb8(bytes@) is None,
{
    match image::load_from_memory(bytes) {
        Ok(image) => Some(image.to_rgb8().into_raw()),
        Err(_) => None,
    }
}

/// The accent colour for a track: drawn from its cover where it has one that
/// decodes, the default accent where it has none or its cover does not
/// decode. A cover that decodes to no whole pixel is left out: the colour of
/// no pixels is a division by zero.
pub fn color_accent(cover: Option<&[u8]>) -> (color: Rgb)
    requires
        cover matches Some(bytes) ==> (decoded_rgb8(bytes@) matches Some(rgb) ==> rgb.len() >= 3
            && rgb.len() % 3 == 0),
    ensures
        match cover {
            Some(bytes) => match decoded_rgb8(bytes@) {
                Some(rgb) => color == (Rgb {
                    red: average_channel(rgb, 0) as u8,
                    green: average_channel(rgb, 1) as u8,
                    blue: average_channel(rgb, 2) as u8,
                }),
                None => color == (Rgb { red: 84, green: 127, blue: 182 }),
            },
            None => color == (Rgb { red: 84, green: 127, blue: 182 }),
        },
{
    match cover {
        Some(bytes) => match decode_rgb8(bytes) {
            Some(rgb) => color_from_pixels(rgb.as_slice()),
            None => color_accent_default(),
        },
        None => color_accent_default(),
    }
}

/// The accent colour of an encoded cover picture, where it decodes to at
/// least one whole pixel; nothing where it does not decode or decodes to no
/// whole pixel.
pub fn cover_color(cover: &[u8]) -> (color: Option<Rgb>)
    ensures
        match decoded_rgb8(cover@) {
            Some(rgb) => if rgb.len() >= 3 && rgb.len() % 3 == 0 {
                color == Some(
                    Rgb {
                        red: average_channel(rgb, 0) as u8,
                        green: average_channel(rgb, 1) as u8,
                        blue: average_channel(rgb, 2) as u8,
                    },
                )
            } else {
                color is None
            },
            None => color is None,
        },
{
    match decode_rgb8(cover) {
        Some(rgb) => {
            if rgb.len() >= 3 && rgb.len() % 3 == 0 {
                Some(color_accent(Some(cover)))
            } else {
                None
            }
        },
        None => None,
    }
}

/// A pixel weighs one more than the widest gap between two of its channels:
/// the weight does not depend on which channel holds which value, it is at
/// least one more than the gap between any two channels, and it is exactly
/// one more than the gap between some two.
pub proof fn lemma_pixel_weight_is_channel_spread(rgb: Seq<u8>, i: int)
    requires
        0 <= i,
        3 * i + 2 < rgb.len(),
    ensures
        ({
            let (red, green, blue) = (rgb[3 * i], rgb[3 * i + 1], rgb[3 * i + 2]);
            let red_green: int = if red >= green { red - green } else { green - red };
            let green_blue: int = if green >= blue { green - blue } else { blue - green };
            let red_blue: int = if red >= blue { red - blue } else { blue - red };
            &&& pixel_weight(rgb, i) >= red_green + 1
            &&& pixel_weight(rgb, i) >= green_blue + 1
            &&& pixel_weight(rgb, i) >= red_blue + 1
            &&& (pixel_weight(rgb, i) == red_green + 1 || pixel_weight(rgb, i) == green_blue + 1
                || pixel_weight(rgb, i) == red_blue + 1)
            &&& pixel_weight(rgb, i) == saturation(green, red, blue)
            &&& pixel_weight(rgb, i) == saturation(red, blue, green)
            &&& pixel_weight(rgb, i) == saturation(blue, green, red)
        }),
{
}

/// Weighted sums over pixels that all hold `value` in `channel` are `value`
/// times the total weight.
proof fn lemma_weighted_uniform(rgb: Seq<u8>, channel: int, value: u8, count: nat)
    requires
        0 <= channel < 3,
        3 * count <= rgb.len(),
        forall|i: int| 0 <= i < count ==> #[trigger] rgb[3 * i + channel] == value,
    ensures
        weighted_channel(rgb, channel, count) == value * total_weight(rgb, count),
    decreases count,
{
    if count > 0 {
        lemma_weighted_uniform(rgb, channel, value, (count - 1) as nat);
        let i = count - 1;
        assert(rgb[3 * i + channel] == value);
        let before = total_weight(rgb, (count - 1) as nat);
        let weight = pixel_weight(rgb, i);
        assert(value * before + value * weight == value * (before + weight)) by (nonlinear_arith);
    }
}

/// The accent of a picture whose pixels all have the same colour is that
/// colour, whatever their number.
pub proof fn lemma_uniform_picture_keeps_its_colour(rgb: Seq<u8>, red: u8, green: u8, blue: u8)
    requires
        rgb.len() >= 3,
        rgb.len() % 3 == 0,
        forall|i: int|
            0 <= i < rgb.len() / 3 ==> #[trigger] rgb[3 * i] == red && rgb[3 * i + 1] == green && rgb[3
                * i + 2] == blue,
    ensures
        average_channel(rgb, 0) == red,
        average_channel(rgb, 1) == green,
        average_channel(rgb, 2) == blue,
{
    let count = (rgb.len() / 3) as nat;
    assert(3 * count == rgb.len());
    lemma_weighted_bounds(rgb, 0, count);
    let total = total_weight(rgb, count);
    assert forall|i: int| 0 <= i < count implies #[trigger] rgb[3 * i + 0] == red by {
        assert(rgb[3 * i] == red);
    }
    assert forall|i: int| 0 <= i < count implies #[trigger] rgb[3 * i + 1] == green by {
        assert(rgb[3 * i] == red);
    }
    assert forall|i: int| 0 <= i < count implies #[trigger] rgb[3 * i + 2] == blue by {
        assert(rgb[3 * i] == red);
    }
    lemma_weighted_uniform(rgb, 0, red, count);
    lemma_weighted_uniform(rgb, 1, green, count);
    lemma_weighted_uniform(rgb, 2, blue, count);
    assert(total >= 1);
    assert((red * total) / total == red) by (nonlinear_arith)
        requires
            total >= 1,
    ;
    assert((green * total) / total == green) by (nonlinear_arith)
        requires
            total >= 1,
    ;
    assert((blue * total) / total == blue) by (nonlinear_arith)
        requires
            total >= 1,
    ;
}

} // verus!
