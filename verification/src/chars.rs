//! Density ramps and the quantiser that turns a brightness into a glyph.

use vstd::prelude::*;

verus! {

/// Number of brightness buckets, and of glyphs in a ramp.
pub const LEVELS: usize = 16;

/// The sixteen brightness buckets, from the empty one to the brightest. The
/// numbers in a name are the bounds of the bucket.
#[derive(Clone, Copy, Debug, PartialEq, Eq, Structural)]
pub enum DensityChar {
    Empty,
    Char0_17,
    Char17_34,
    Char34_51,
    Char51_68,
    Char68_85,
    Char85_102,
    Char102_119,
    Char119_136,
    Char136_153,
    Char153_170,
    Char170_187,
    Char187_204,
    Char204_221,
    Char221_238,
    Char238_255,
}

/// The bucket of a brightness: 0 for no brightness at all, then one bucket
/// for every 17 values, the last one reaching to 255. Inverted, the buckets
/// come in reverse order and only 255 falls into the empty one.
pub open spec fn bucket(n: u8, invert: bool) -> nat {
    if !invert {
        if n == 0 {
            0
        } else if n / 17 + 1 > 15 {
            15
        } else {
            (n / 17 + 1) as nat
        }
    } else {
        if n == 255 {
            0
        } else {
            (15 - n / 17) as nat
        }
    }
}

/// The glyphs of the standard ramp, from sparse to dense.
pub open spec fn standard_glyphs() -> Seq<char> {
    seq![' ', '.', '-', '=', 'r', 'z', 'L', 'T', '3', 'y', 'Y', 'V', 'K', '8', 'Q', '@']
}

/// The glyphs of the punctuation ramp, from sparse to dense.
pub open spec fn punctuation_glyphs() -> Seq<char> {
    seq![' ', '.', '\'', ',', '-', '~', ':', ';', '=', '!', 'o', '*', '#', '%', '@', '$']
}

/// What the quantiser gives for a brightness: the glyph and whether it is
/// visible. In uniform mode the brightness plays no part: everything is the
/// densest glyph, or, inverted, the blank one.
pub open spec fn quantized(ramp: Seq<char>, n: u8, invert: bool, uniform: bool) -> (char, bool) {
    if uniform {
        if invert {
            (ramp[0], false)
        } else {
            (ramp[15], true)
        }
    } else {
        (ramp[bucket(n, invert) as int], bucket(n, invert) != 0)
    }
}

impl DensityChar {
    /// Place of the bucket in a ramp, 0 for the empty one.
    pub open spec fn level(self) -> nat {
        match self {
            DensityChar::Empty => 0,
            DensityChar::Char0_17 => 1,
            DensityChar::Char17_34 => 2,
            DensityChar::Char34_51 => 3,
            DensityChar::Char51_68 => 4,
            DensityChar::Char68_85 => 5,
            DensityChar::Char85_102 => 6,
            DensityChar::Char102_119 => 7,
            DensityChar::Char119_136 => 8,
            DensityChar::Char136_153 => 9,
            DensityChar::Char153_170 => 10,
            DensityChar::Char170_187 => 11,
            DensityChar::Char187_204 => 12,
            DensityChar::Char204_221 => 13,
            DensityChar::Char221_238 => 14,
            DensityChar::Char238_255 => 15,
        }
    }

    /// Place of the bucket in a ramp.
    pub fn index(self) -> (i: usize)
        ensures
            i == self.level(),
            i < LEVELS,
    {
        match self {
            DensityChar::Empty => 0,
            DensityChar::Char0_17 => 1,
            DensityChar::Char17_34 => 2,
            DensityChar::Char34_51 => 3,
            DensityChar::Char51_68 => 4,
            DensityChar::Char68_85 => 5,
            DensityChar::Char85_102 => 6,
            DensityChar::Char102_119 => 7,
            DensityChar::Char119_136 => 8,
            DensityChar::Char136_153 => 9,
            DensityChar::Char153_170 => 10,
            DensityChar::Char170_187 => 11,
            DensityChar::Char187_204 => 12,
            DensityChar::Char204_221 => 13,
            DensityChar::Char221_238 => 14,
            DensityChar::Char238_255 => 15,
        }
    }

    /// The bucket that a brightness falls into.
    pub fn from_u8(n: u8, invert: bool) -> (d: DensityChar)
        ensures
            d.level() == bucket(n, invert),
    {
        if !invert {
            if n == 0 {
                DensityChar::Empty
            } else if n < 17 {
                DensityChar::Char0_17
            } else if n < 34 {
                DensityChar::Char17_34
            } else if n < 51 {
                DensityChar::Char34_51
            } else if n < 68 {
                DensityChar::Char51_68
            } else if n < 85 {
                DensityChar::Char68_85
            } else if n < 102 {
                DensityChar::Char85_102
            } else if n < 119 {
                DensityChar::Char102_119
            } else if n < 136 {
                DensityChar::Char119_136
            } else if n < 153 {
                DensityChar::Char136_153
            } else if n < 170 {
                DensityChar::Char153_170
            } else if n < 187 {
                DensityChar::Char170_187
            } else if n < 204 {
                DensityChar::Char187_204
            } else if n < 221 {
                DensityChar::Char204_221
            } else if n < 238 {
                DensityChar::Char221_238
            } else {
                DensityChar::Char238_255
            }
        } else {
            if n < 17 {
                DensityChar::Char238_255
            } else if n < 34 {
                DensityChar::Char221_238
            } else if n < 51 {
                DensityChar::Char204_221
            } else if n < 68 {
                DensityChar::Char187_204
            } else if n < 85 {
                DensityChar::Char170_187
            } else if n < 102 {
                DensityChar::Char153_170
            } else if n < 119 {
                DensityChar::Char136_153
            } else if n < 136 {
                DensityChar::Char119_136
            } else if n < 153 {
                DensityChar::Char102_119
            } else if n < 170 {
                DensityChar::Char85_102
            } else if n < 187 {
                DensityChar::Char68_85
            } else if n < 204 {
                DensityChar::Char51_68
            } else if n < 221 {
                DensityChar::Char34_51
            } else if n < 238 {
                DensityChar::Char17_34
            } else if n < 255 {
                DensityChar::Char0_17
            } else {
                DensityChar::Empty
            }
        }
    }

    /// The glyph of the bucket in the standard ramp.
    pub fn get_char(self) -> (c: char)
        ensures
            c == standard_glyphs()[self.level() as int],
    {
        DensityRamp::standard().glyph(self)
    }

    /// The glyph that the standard ramp has for a brightness.
    pub fn get_char_from_u8(n: u8, invert: bool) -> (c: char)
        ensures
            c == standard_glyphs()[bucket(n, invert) as int],
            c == quantized(standard_glyphs(), n, invert, false).0,
    {
        DensityChar::from_u8(n, invert).get_char()
    }
}

/// A density ramp: sixteen glyphs ordered from sparse to dense, the first
/// being the blank one. The quantiser is handed the ramp it draws from.
#[derive(Clone, Copy, Debug)]
pub struct DensityRamp {
    glyphs: [char; 16],
}

impl View for DensityRamp {
    type V = Seq<char>;

    closed spec fn view(&self) -> Seq<char> {
        self.glyphs@
    }
}

impl DensityRamp {
    /// A ramp of the given glyphs, the blank one first.
    pub fn new(glyphs: [char; 16]) -> (ramp: DensityRamp)
        ensures
            ramp@ == glyphs@,
            ramp@.len() == 16,
    {
        DensityRamp { glyphs }
    }

    /// The ramp of letters and digits.
    pub fn standard() -> (ramp: DensityRamp)
        ensures
            ramp@ == standard_glyphs(),
    {
        let glyphs: [char; 16] = [
            ' ',
            '.',
            '-',
            '=',
            'r',
            'z',
            'L',
            'T',
            '3',
            'y',
            'Y',
            'V',
            'K',
            '8',
            'Q',
            '@',
        ];
        assert(glyphs@ =~= standard_glyphs());
        DensityRamp { glyphs }
    }

    /// The ramp of punctuation marks.
    pub fn punctuation() -> (ramp: DensityRamp)
        ensures
            ramp@ == punctuation_glyphs(),
    {
        let glyphs: [char; 16] = [
            ' ',
            '.',
            '\'',
            ',',
            '-',
            '~',
            ':',
            ';',
            '=',
            '!',
            'o',
            '*',
            '#',
            '%',
            '@',
            '$',
        ];
        assert(glyphs@ =~= punctuation_glyphs());
        DensityRamp { glyphs }
    }

    /// The blank glyph of the ramp.
    pub fn blank(&self) -> (c: char)
        ensures
            c == self@[0],
    {
        self.glyphs[0]
    }

    /// The glyph of a bucket.
    pub fn glyph(&self, bucket: DensityChar) -> (c: char)
        ensures
            c == self@[bucket.level() as int],
    {
        self.glyphs[bucket.index()]
    }

    /// Quantises a brightness: the glyph it is drawn with, and whether it is
    /// visible.
    pub fn quantize(&self, brightness: u8, invert: bool, uniform: bool) -> (out: (char, bool))
        ensures
            out == quantized(self@, brightness, invert, uniform),
    {
        if uniform {
            if invert {
                (self.glyph(DensityChar::Empty), false)
            } else {
                (self.glyph(DensityChar::Char238_255), true)
            }
        } else {
            let d: DensityChar = DensityChar::from_u8(brightness, invert);
            let visible: bool = match d {
                DensityChar::Empty => false,
                _ => true,
            };
            (self.glyph(d), visible)
        }
    }
}

/// Without brightness nothing is drawn, and inverted nothing is drawn at
/// full brightness: the glyph is the blank one and invisible. In uniform
/// mode every brightness gives the densest glyph.
pub proof fn lemma_quantizer_boundaries(ramp: Seq<char>, n: u8)
    ensures
        quantized(ramp, 0, false, false) == (ramp[0], false),
        quantized(ramp, 255, true, false) == (ramp[0], false),
        quantized(ramp, n, false, true) == (ramp[15], true),
        quantized(ramp, n, true, true) == (ramp[0], false),
        quantized(ramp, n, false, false).1 <==> n != 0,
        quantized(ramp, n, true, false).1 <==> n != 255,
{
}

/// A brightness falls into the bucket whose bounds hold it: bucket `k > 0`
/// reaches from `17 (k - 1)` (from 1 for the first) to below `17 k`, the last
/// one to 255.
pub proof fn lemma_bucket_bounds(n: u8)
    ensures
        bucket(n, false) <= 15,
        bucket(n, true) <= 15,
        0 < n < 238 ==> 17 * (bucket(n, false) - 1) <= n < 17 * bucket(n, false),
        n >= 238 ==> bucket(n, false) == 15,
        n < 255 ==> bucket(n, true) == 15 - n / 17,
        n < 255 ==> bucket(n, true) + (if n / 17 + 1 > 15 { 15 } else { n / 17 + 1 }) == 16,
{
}

/// The buckets follow the brightness: a brighter value never falls into a
/// lower bucket and, inverted, never into a higher one.
pub proof fn lemma_bucket_monotone(low: u8, high: u8)
    requires
        low <= high,
    ensures
        bucket(low, false) <= bucket(high, false),
        bucket(low, true) >= bucket(high, true),
{
}

} // verus!
