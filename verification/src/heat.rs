//! Colours of a heat map: white for a putt that was holed, and for the
//! others a hue that turns with the distance from the cup.

use vstd::prelude::*;
use colors_transform::{Color, Hsl};
use crate::constants::{FARTHEST_DISTANCE, LIGHTNESS, MAX_HUE, SATURATION};

verus! {

/// Red, green and blue, each from 0 to 255 with its fraction cut off, of
/// the colour with the given hue in degrees and saturation and lightness in
/// percent, as the colour crate converts it.
pub uninterp spec fn hsl_rgb(hue: int, saturation: int, lightness: int) -> (int, int, int);

/// Calls `colors_transform::Color::to_rgb` on the `Hsl` of the three
/// numbers and hands out the channels of the result as whole numbers.
/// Nothing is proved of the conversion: the contract only names its
/// result, which depends on the three numbers alone.
#[verifier::external_body]
fn hsl_to_rgb(hue: u16, saturation: u8, lightness: u8) -> (rgb: (u8, u8, u8))
    ensures
        (rgb.0 as int, rgb.1 as int, rgb.2 as int) == hsl_rgb(
            hue as int,
            saturation as int,
            lightness as int,
        ),
{
    let rgb = Hsl::from(hue.into(), saturation.into(), lightness.into()).to_rgb();
    (rgb.get_red() as u8, rgb.get_green() as u8, rgb.get_blue() as u8)
}

/// Hue of an outcome on a heat map, in thousandths of a degree: in
/// proportion to the distance up to `FARTHEST_DISTANCE`, and `MAX_HUE` from
/// there on.
pub open spec fn hue_of(distance: int) -> int {
    if distance >= FARTHEST_DISTANCE {
        MAX_HUE as int
    } else {
        distance * MAX_HUE / (FARTHEST_DISTANCE as int)
    }
}

/// Hue of an outcome on a heat map.
pub fn heat_hue(distance: i64) -> (hue: i64)
    requires
        0 <= distance,
    ensures
        hue == hue_of(distance as int),
        0 <= hue <= MAX_HUE,
{
    if distance >= FARTHEST_DISTANCE {
        MAX_HUE
    } else {
        distance * MAX_HUE / FARTHEST_DISTANCE
    }
}

/// Colour of an outcome on a heat map, as red, green and blue: white for a
/// putt that was holed, else the colour of the outcome's hue in whole
/// degrees at full saturation and half lightness.
pub fn heat_color(distance: i64) -> (rgb: (u8, u8, u8))
    requires
        0 <= distance,
    ensures
        distance == 0 ==> rgb == (255u8, 255u8, 255u8),
        distance != 0 ==> (rgb.0 as int, rgb.1 as int, rgb.2 as int) == hsl_rgb(
            hue_of(distance as int) / 1000,
            SATURATION as int,
            LIGHTNESS as int,
        ),
{
    if distance == 0 {
        return (255, 255, 255);
    }
    let degrees = heat_hue(distance) / 1000;
    hsl_to_rgb(degrees as u16, SATURATION, LIGHTNESS)
}

} // verus!
