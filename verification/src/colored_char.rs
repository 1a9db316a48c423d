//! Coloured glyphs: what one cell of the output holds.

use vstd::prelude::*;
use crate::brightness::{brightness, grayscale_calc, lemma_brightness_range, luma, Penalty};
use crate::chars::{bucket, quantized, standard_glyphs, DensityRamp};
use crate::color::{Pixel, Rgb};

verus! {

/// One cell of the output: a glyph, the colour it is drawn in, the brightness
/// it stands for, and whether it is drawn at all.
#[derive(Clone, Copy, Debug, PartialEq, Eq, Structural)]
pub struct ColoredChar {
    pub color: Rgb,
    pub ch: char,
    pub density: u8,
    pub display: bool,
}

/// The cell for a brightness in a ramp: the glyph that the quantiser gives,
/// visible exactly where the quantiser says so.
pub open spec fn glyph_in(
    ramp: Seq<char>,
    density: u8,
    color: Rgb,
    invert: bool,
    uniform: bool,
) -> ColoredChar {
    ColoredChar {
        color,
        ch: quantized(ramp, density, invert, uniform).0,
        density,
        display: quantized(ramp, density, invert, uniform).1,
    }
}

/// The cell for a brightness in the standard ramp.
pub open spec fn glyph_of(density: u8, color: Rgb, invert: bool, uniform: bool) -> ColoredChar {
    glyph_in(standard_glyphs(), density, color, invert, uniform)
}

/// The colour a pixel is drawn in: its own, or in grayscale its luma on all
/// three channels.
pub open spec fn pixel_color(p: Pixel, grayscale: bool) -> Rgb {
    if grayscale {
        Rgb::gray(luma(p.r, p.g, p.b) as u8)
    } else {
        Rgb { r: p.r, g: p.g, b: p.b }
    }
}

/// The glyph of a single pixel.
pub open spec fn glyph_of_pixel(p: Pixel, grayscale: bool, invert: bool, uniform: bool) -> ColoredChar {
    glyph_of(brightness(p) as u8, pixel_color(p, grayscale), invert, uniform)
}

impl ColoredChar {
    pub const CHAR_EMPTY: char = ' ';

    pub const CHAR0_17: char = '.';

    pub const CHAR17_34: char = '-';

    pub const CHAR34_51: char = '=';

    pub const CHAR51_68: char = 'r';

    pub const CHAR68_85: char = 'z';

    pub const CHAR85_102: char = 'L';

    pub const CHAR102_119: char = 'T';

    pub const CHAR119_136: char = '3';

    pub const CHAR136_153: char = 'y';

    pub const CHAR153_170: char = 'Y';

    pub const CHAR170_187: char = 'V';

    pub const CHAR187_204: char = 'K';

    pub const CHAR204_221: char = '8';

    pub const CHAR221_238: char = 'Q';

    pub const CHAR238_255: char = '@';

    /// An invisible cell is blank.
    pub open spec fn wf(self) -> bool {
        !self.display ==> self.ch == ' '
    }

    /// The cell that stands where nothing of the source lies: blank,
    /// invisible and white.
    pub open spec fn blank_cell() -> ColoredChar {
        ColoredChar { color: Rgb::white(), ch: ' ', density: 0, display: false }
    }

    /// The blank, invisible, white cell.
    pub fn blank() -> (c: ColoredChar)
        ensures
            c == Self::blank_cell(),
    {
        ColoredChar { color: Rgb { r: 255, g: 255, b: 255 }, ch: ' ', density: 0, display: false }
    }

    /// The cell for a brightness in a given ramp. Glyph and visibility are
    /// the quantiser's; the visibility that a caller carries in `display`
    /// plays no part.
    #[allow(unused_variables)]
    pub fn from_ramp(
        ramp: &DensityRamp,
        density: u8,
        color: (u8, u8, u8),
        display: bool,
        invert: bool,
        uniform: bool,
    ) -> (c: ColoredChar)
        ensures
            c == glyph_in(
                ramp@,
                density,
                Rgb { r: color.0, g: color.1, b: color.2 },
                invert,
                uniform,
            ),
    {
        let (ch, visible) = ramp.quantize(density, invert, uniform);
        ColoredChar {
            color: Rgb { r: color.0, g: color.1, b: color.2 },
            ch,
            density,
            display: visible,
        }
    }

    /// The cell for a brightness in the standard ramp. Glyph and visibility
    /// are the quantiser's; the visibility that a caller carries in
    /// `display` plays no part.
    pub fn from_everything(
        density: u8,
        color: (u8, u8, u8),
        display: bool,
        invert: bool,
        uniform: bool,
    ) -> (c: ColoredChar)
        ensures
            c == glyph_of(density, Rgb { r: color.0, g: color.1, b: color.2 }, invert, uniform),
            c.wf(),
    {
        proof {
            crate::chars::lemma_bucket_bounds(density);
        }
        let ramp = DensityRamp::standard();
        Self::from_ramp(&ramp, density, color, display, invert, uniform)
    }

    /// The glyph of a single pixel.
    pub fn from_color(color: Pixel, grayscale: bool, invert: bool, uniform: bool) -> (c: Self)
        ensures
            c == glyph_of_pixel(color, grayscale, invert, uniform),
            c.wf(),
    {
        let density: u8 = color.calc_penalty();
        let drawn: (u8, u8, u8) = if grayscale {
            let gray: u8 = grayscale_calc(color.r, color.g, color.b);
            (gray, gray, gray)
        } else {
            (color.r, color.g, color.b)
        };
        proof {
            lemma_brightness_range(color);
        }
        Self::from_everything(density, drawn, true, invert, uniform)
    }

    /// Whether the three channels of the colour are equal.
    pub fn is_grayscale(&self) -> (b: bool)
        ensures
            b <==> self.color.r == self.color.g && self.color.g == self.color.b,
    {
        self.color.r == self.color.g && self.color.g == self.color.b
    }

    /// Whether the colour is white.
    pub fn is_white(&self) -> (b: bool)
        ensures
            b <==> self.color == Rgb::white(),
    {
        self.color.r == 255 && self.is_grayscale()
    }
}

/// What the quantiser does at the ends of the scale, in the standard ramp: no
/// brightness, or inverted full brightness, gives the blank invisible glyph;
/// uniform mode gives the densest glyph whatever the brightness.
pub proof fn lemma_glyph_boundaries(density: u8, color: Rgb)
    ensures
        glyph_of(0, color, false, false).ch == ' ',
        !glyph_of(0, color, false, false).display,
        glyph_of(255, color, true, false).ch == ' ',
        !glyph_of(255, color, true, false).display,
        glyph_of(density, color, false, true).ch == '@',
        glyph_of(density, color, false, true).display,
        glyph_of(density, color, true, true).ch == ' ',
        !glyph_of(density, color, true, true).display,
{
}

/// Without uniform mode the glyph is the one that the standard ramp has for
/// the bucket of the brightness, and it is visible in every bucket but the
/// empty one.
pub proof fn lemma_glyph_is_the_buckets(density: u8, color: Rgb, invert: bool)
    ensures
        glyph_of(density, color, invert, false).ch == standard_glyphs()[bucket(
            density,
            invert,
        ) as int],
        glyph_of(density, color, invert, false).display <==> bucket(density, invert) != 0,
        glyph_of(density, color, invert, false).color == color,
        glyph_of(density, color, invert, false).density == density,
{
}

/// Every glyph of the standard ramp but the first is not blank, so a cell is
/// visible exactly where its glyph is not the blank one.
pub proof fn lemma_visible_iff_not_blank(density: u8, color: Rgb, invert: bool, uniform: bool)
    ensures
        glyph_of(density, color, invert, uniform).wf(),
        glyph_of(density, color, invert, uniform).display <==> glyph_of(
            density,
            color,
            invert,
            uniform,
        ).ch != ' ',
{
    crate::chars::lemma_bucket_bounds(density);
}

} // verus!
