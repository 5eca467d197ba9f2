//! Colours as the library sees them: 8-bit pixels, and the parameters that
//! the digest's bits choose for a palette.

use vstd::prelude::*;

pub mod gradient;

verus! {

/// One pixel: red, green and blue, eight bits each.
#[derive(Copy, Clone, Debug, PartialEq, Eq, Structural)]
pub struct Pixel {
    pub r: u8,
    pub g: u8,
    pub b: u8,
}

impl Pixel {
    pub open spec fn spec_new(r: u8, g: u8, b: u8) -> Pixel {
        Pixel { r, g, b }
    }

    #[verifier::when_used_as_spec(spec_new)]
    pub fn new(r: u8, g: u8, b: u8) -> (pixel: Pixel)
        ensures
            pixel == Pixel::spec_new(r, g, b),
    {
        Pixel { r, g, b }
    }

    /// Channel `c` of the pixel: 0 is red, 1 is green, anything else is blue.
    pub open spec fn channel(self, c: int) -> u8 {
        if c == 0 {
            self.r
        } else if c == 1 {
            self.g
        } else {
            self.b
        }
    }
}

impl Default for Pixel {
    fn default() -> (pixel: Pixel)
        ensures
            pixel == Pixel::spec_new(0, 0, 0),
    {
        Pixel { r: 0, g: 0, b: 0 }
    }
}

/// Where a palette takes its hues from.
#[derive(Copy, Clone, Debug, PartialEq, Eq, Structural)]
pub enum HueSource {
    /// The fully saturated, fully bright hue wheel.
    HueWheel,
    /// The seven-stop spectrum.
    Spectrum,
    /// The seven-stop spectrum that stays inside the CMYK gamut.
    SpectrumCmykSafe,
}

/// The seven stops of a spectrum, from cyan round to cyan again; the hue
/// wheel has no stops.
pub open spec fn stops_of(source: HueSource) -> Seq<Pixel> {
    match source {
        HueSource::HueWheel => seq![],
        HueSource::Spectrum => seq![
            Pixel::new(0, 168, 222),
            Pixel::new(51, 51, 145),
            Pixel::new(233, 19, 136),
            Pixel::new(235, 45, 46),
            Pixel::new(253, 233, 43),
            Pixel::new(0, 158, 84),
            Pixel::new(0, 168, 222),
        ],
        HueSource::SpectrumCmykSafe => seq![
            Pixel::new(0, 168, 222),
            Pixel::new(41, 60, 130),
            Pixel::new(210, 59, 130),
            Pixel::new(217, 63, 53),
            Pixel::new(244, 228, 81),
            Pixel::new(0, 158, 84),
            Pixel::new(0, 168, 222),
        ],
    }
}

/// The stops of a spectrum.
pub fn stops(source: HueSource) -> (list: Vec<Pixel>)
    ensures
        list@ == stops_of(source),
{
    let mut list: Vec<Pixel> = Vec::new();
    match source {
        HueSource::HueWheel => {},
        HueSource::Spectrum => {
            list.push(Pixel::new(0, 168, 222));
            list.push(Pixel::new(51, 51, 145));
            list.push(Pixel::new(233, 19, 136));
            list.push(Pixel::new(235, 45, 46));
            list.push(Pixel::new(253, 233, 43));
            list.push(Pixel::new(0, 158, 84));
            list.push(Pixel::new(0, 168, 222));
        },
        HueSource::SpectrumCmykSafe => {
            list.push(Pixel::new(0, 168, 222));
            list.push(Pixel::new(41, 60, 130));
            list.push(Pixel::new(210, 59, 130));
            list.push(Pixel::new(217, 63, 53));
            list.push(Pixel::new(244, 228, 81));
            list.push(Pixel::new(0, 158, 84));
            list.push(Pixel::new(0, 168, 222));
        },
    }
    assert(list@ =~= stops_of(source));
    list
}

/// A colour scheme with the parameters that the digest's bits chose for it.
///
/// Every sixteen-bit parameter stands for the fraction that it is of 65535.
#[derive(Copy, Clone, Debug, PartialEq, Eq, Structural)]
pub enum Palette {
    /// Black to white, or white to black when reversed.
    Grayscale { is_reversed: bool },
    /// One hue against a neutral.
    Monochromatic {
        hues: HueSource,
        hue: usize,
        is_tint: bool,
        is_reversed: bool,
        key_advance: usize,
        neutral_advance: usize,
    },
    /// One hue around a black or white anchor.
    MonochromaticFiducial { hue: usize, is_reversed: bool, is_tint: bool },
    /// Two opposite hues.
    Complementary {
        hues: HueSource,
        spectrum: usize,
        lighter_advance: usize,
        darker_advance: usize,
        is_reversed: bool,
    },
    /// Two opposite hues around a biased neutral anchor.
    ComplementaryFiducial {
        spectrum: usize,
        is_tint: bool,
        is_reversed: bool,
        neutral_color_bias: bool,
    },
    /// Three hues a third of the wheel apart.
    Triadic {
        hues: HueSource,
        spectrum: usize,
        lighter_advance: usize,
        darker_advance: usize,
        is_reversed: bool,
    },
    /// Three hues a third of the wheel apart, with a neutral anchor at
    /// place 1 or 2 among them.
    TriadicFiducial {
        spectrum: usize,
        is_tint: bool,
        neutral_insert_index: usize,
        is_reversed: bool,
    },
    /// Four neighbouring hues.
    Analogous { hues: HueSource, spectrum: usize, advance: usize, is_reversed: bool },
    /// Three neighbouring hues, with a neutral anchor at place 1 or 2 among
    /// them.
    AnalogousFiducial {
        spectrum: usize,
        is_tint: bool,
        neutral_insert_index: usize,
        is_reversed: bool,
    },
}

} // verus!
