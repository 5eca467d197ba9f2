//! The palette selector: a fixed order of reads from the digest's bits
//! chooses the colour scheme and each of its parameters.

use vstd::prelude::*;
use crate::colors::{HueSource, Palette};
use crate::utils::bits::{bit_at, field_value, Enumerator};
use crate::{Error, Version};

verus! {

/// What a draw of `width` bits that begins at bit `before` of `total` gives:
/// `value` with the cursor moved on by `width` where that many bits are
/// left, and otherwise exhaustion with the cursor at the end.
pub open spec fn drawn<T>(
    before: int,
    total: int,
    after: int,
    r: Result<T, Error>,
    width: int,
    value: T,
) -> bool {
    match r {
        Ok(v) => before + width <= total && after == before + width && v == value,
        Err(e) => e == Error::Exhausted && before + width > total && after == total,
    }
}

/// The sixteen-bit number at bit `at`.
pub open spec fn frac_at(data: Seq<u8>, at: int) -> usize {
    field_value(data, at, 16) as usize
}

/// The place, 1 or 2, that the eight-bit number at bit `at` chooses.
pub open spec fn insert_index_at(data: Seq<u8>, at: int) -> usize {
    (field_value(data, at, 8) % 2 + 1) as usize
}

/// The grayscale palette that the bit at `at` chooses: a set bit leaves it
/// as it is, a clear bit reverses it.
pub open spec fn grayscale_at(data: Seq<u8>, at: int) -> Palette {
    Palette::Grayscale { is_reversed: !bit_at(data, at) }
}

/// The monochromatic palette that the 50 bits from `at` on choose.
pub open spec fn monochromatic_at(data: Seq<u8>, at: int, hues: HueSource) -> Palette {
    Palette::Monochromatic {
        hues,
        hue: frac_at(data, at),
        is_tint: bit_at(data, at + 16),
        is_reversed: bit_at(data, at + 17),
        key_advance: frac_at(data, at + 18),
        neutral_advance: frac_at(data, at + 34),
    }
}

/// The monochromatic fiducial palette that the 18 bits from `at` on choose.
pub open spec fn monochromatic_fiducial_at(data: Seq<u8>, at: int) -> Palette {
    Palette::MonochromaticFiducial {
        hue: frac_at(data, at),
        is_reversed: bit_at(data, at + 16),
        is_tint: bit_at(data, at + 17),
    }
}

/// The complementary palette that the 49 bits from `at` on choose.
pub open spec fn complementary_at(data: Seq<u8>, at: int, hues: HueSource) -> Palette {
    Palette::Complementary {
        hues,
        spectrum: frac_at(data, at),
        lighter_advance: frac_at(data, at + 16),
        darker_advance: frac_at(data, at + 32),
        is_reversed: bit_at(data, at + 48),
    }
}

/// The complementary fiducial palette that the 19 bits from `at` on choose.
pub open spec fn complementary_fiducial_at(data: Seq<u8>, at: int) -> Palette {
    Palette::ComplementaryFiducial {
        spectrum: frac_at(data, at),
        is_tint: bit_at(data, at + 16),
        is_reversed: bit_at(data, at + 17),
        neutral_color_bias: bit_at(data, at + 18),
    }
}

/// The triadic palette that the 49 bits from `at` on choose.
pub open spec fn triadic_at(data: Seq<u8>, at: int, hues: HueSource) -> Palette {
    Palette::Triadic {
        hues,
        spectrum: frac_at(data, at),
        lighter_advance: frac_at(data, at + 16),
        darker_advance: frac_at(data, at + 32),
        is_reversed: bit_at(data, at + 48),
    }
}

/// The triadic fiducial palette that the 26 bits from `at` on choose.
pub open spec fn triadic_fiducial_at(data: Seq<u8>, at: int) -> Palette {
    Palette::TriadicFiducial {
        spectrum: frac_at(data, at),
        is_tint: bit_at(data, at + 16),
        neutral_insert_index: insert_index_at(data, at + 17),
        is_reversed: bit_at(data, at + 25),
    }
}

/// The analogous palette that the 33 bits from `at` on choose.
pub open spec fn analogous_at(data: Seq<u8>, at: int, hues: HueSource) -> Palette {
    Palette::Analogous {
        hues,
        spectrum: frac_at(data, at),
        advance: frac_at(data, at + 16),
        is_reversed: bit_at(data, at + 32),
    }
}

/// The analogous fiducial palette that the 26 bits from `at` on choose.
pub open spec fn analogous_fiducial_at(data: Seq<u8>, at: int) -> Palette {
    Palette::AnalogousFiducial {
        spectrum: frac_at(data, at),
        is_tint: bit_at(data, at + 16),
        neutral_insert_index: insert_index_at(data, at + 17),
        is_reversed: bit_at(data, at + 25),
    }
}

/// The hues that a version's general palettes of family `family` use.
pub open spec fn hues_for(version: Version, family: int) -> HueSource {
    if version == Version::Version1 {
        if family == 0 {
            HueSource::HueWheel
        } else {
            HueSource::Spectrum
        }
    } else {
        HueSource::SpectrumCmykSafe
    }
}

/// The palette that a version chooses from the bits at `at`, once the
/// two-bit family code `family` has been read.
pub open spec fn family_at(data: Seq<u8>, at: int, version: Version, family: int) -> Palette {
    if version == Version::GrayscaleFiducial || family < 0 || family > 3 {
        Palette::Grayscale { is_reversed: false }
    } else if version == Version::Fiducial {
        if family == 0 {
            monochromatic_fiducial_at(data, at)
        } else if family == 1 {
            complementary_fiducial_at(data, at)
        } else if family == 2 {
            triadic_fiducial_at(data, at)
        } else {
            analogous_fiducial_at(data, at)
        }
    } else {
        if family == 0 {
            monochromatic_at(data, at, hues_for(version, family))
        } else if family == 1 {
            complementary_at(data, at, hues_for(version, family))
        } else if family == 2 {
            triadic_at(data, at, hues_for(version, family))
        } else {
            analogous_at(data, at, hues_for(version, family))
        }
    }
}

/// The number of bits that the palette of family `family` takes.
pub open spec fn family_bits(version: Version, family: int) -> int {
    if version == Version::GrayscaleFiducial || family < 0 || family > 3 {
        0
    } else if version == Version::Fiducial {
        if family == 0 {
            18
        } else if family == 1 {
            19
        } else {
            26
        }
    } else {
        if family == 0 {
            50
        } else if family == 1 {
            49
        } else if family == 2 {
            49
        } else {
            33
        }
    }
}

/// The palette that a version chooses from the bits at `at`.
pub open spec fn gradient_at(data: Seq<u8>, at: int, version: Version) -> Palette {
    if version == Version::GrayscaleFiducial {
        grayscale_at(data, at)
    } else {
        family_at(data, at + 2, version, field_value(data, at, 2) as int)
    }
}

/// The number of bits that choosing a version's palette takes from bit `at`
/// on: the family code and the family's parameters. Where the family code
/// itself does not fit, this is the width of the code.
pub open spec fn gradient_bits(data: Seq<u8>, at: int, version: Version) -> int {
    if version == Version::GrayscaleFiducial {
        1
    } else if at + 2 > 8 * data.len() {
        2
    } else {
        2 + family_bits(version, field_value(data, at, 2) as int)
    }
}

/// Grayscale, reversed unless the next bit is set.
pub fn select_grayscale(entropy: &mut Enumerator) -> (r: Result<Palette, Error>)
        requires
            old(entropy).wf(),
        ensures
            final(entropy).wf(),
            final(entropy).bytes() == old(entropy).bytes(),
            drawn(
                old(entropy).position(),
                old(entropy).total_bits(),
                final(entropy).position(),
                r,
                1,
                grayscale_at(old(entropy).bytes(), old(entropy).position()),
            ),
{
    Ok(
        if entropy.next()? {
            Palette::Grayscale { is_reversed: false }
        } else {
            Palette::Grayscale { is_reversed: true }
        },
    )
}

/// Draws a monochromatic palette: hue, tint flag, reversal flag, key advance
/// and neutral advance, in this order.
pub fn monochromatic(entropy: &mut Enumerator, hue_generator: HueSource) -> (r: Result<
    Palette,
    Error,
>)
        requires
            old(entropy).wf(),
        ensures
            final(entropy).wf(),
            final(entropy).bytes() == old(entropy).bytes(),
            drawn(
                old(entropy).position(),
                old(entropy).total_bits(),
                final(entropy).position(),
                r,
                50,
                monochromatic_at(
                    old(entropy).bytes(),
                    old(entropy).position(),
                    hue_generator,
                ),
            ),
{
    let hue = entropy.next_u16()?;
    let is_tint = entropy.next()?;
    let is_reversed = entropy.next()?;
    let key_advance = entropy.next_u16()?;
    let neutral_advance = entropy.next_u16()?;
    Ok(
        Palette::Monochromatic {
            hues: hue_generator,
            hue,
            is_tint,
            is_reversed,
            key_advance,
            neutral_advance,
        },
    )
}

/// Draws a monochromatic fiducial palette: hue, reversal flag and tint flag,
/// in this order.
pub fn monochromatic_fiducial(entropy: &mut Enumerator) -> (r: Result<Palette, Error>)
        requires
            old(entropy).wf(),
        ensures
            final(entropy).wf(),
            final(entropy).bytes() == old(entropy).bytes(),
            drawn(
                old(entropy).position(),
                old(entropy).total_bits(),
                final(entropy).position(),
                r,
                18,
                monochromatic_fiducial_at(old(entropy).bytes(), old(entropy).position()),
            ),
{
    let hue = entropy.next_u16()?;
    let is_reversed = entropy.next()?;
    let is_tint = entropy.next()?;
    Ok(Palette::MonochromaticFiducial { hue, is_reversed, is_tint })
}

/// Draws a complementary palette: hue, lighter advance, darker advance and
/// reversal flag, in this order.
pub fn complementary(entropy: &mut Enumerator, hue_generator: HueSource) -> (r: Result<
    Palette,
    Error,
>)
        requires
            old(entropy).wf(),
        ensures
            final(entropy).wf(),
            final(entropy).bytes() == old(entropy).bytes(),
            drawn(
                old(entropy).position(),
                old(entropy).total_bits(),
                final(entropy).position(),
                r,
                49,
                complementary_at(
                    old(entropy).bytes(),
                    old(entropy).position(),
                    hue_generator,
                ),
            ),
{
    let spectrum = entropy.next_u16()?;
    let lighter_advance = entropy.next_u16()?;
    let darker_advance = entropy.next_u16()?;
    let is_reversed = entropy.next()?;
    Ok(
        Palette::Complementary {
            hues: hue_generator,
            spectrum,
            lighter_advance,
            darker_advance,
            is_reversed,
        },
    )
}

/// Draws a complementary fiducial palette: hue, tint flag, reversal flag and
/// the bias of the neutral anchor, in this order.
pub fn complementary_fiducial(entropy: &mut Enumerator) -> (r: Result<Palette, Error>)
        requires
            old(entropy).wf(),
        ensures
            final(entropy).wf(),
            final(entropy).bytes() == old(entropy).bytes(),
            drawn(
                old(entropy).position(),
                old(entropy).total_bits(),
                final(entropy).position(),
                r,
                19,
                complementary_fiducial_at(old(entropy).bytes(), old(entropy).position()),
            ),
{
    let spectrum = entropy.next_u16()?;
    let is_tint = entropy.next()?;
    let is_reversed = entropy.next()?;
    let neutral_color_bias = entropy.next()?;
    Ok(Palette::ComplementaryFiducial { spectrum, is_tint, is_reversed, neutral_color_bias })
}

/// Draws a triadic palette: hue, lighter advance, darker advance and
/// reversal flag, in this order.
pub fn triadic(entropy: &mut Enumerator, hue_generator: HueSource) -> (r: Result<Palette, Error>)
        requires
            old(entropy).wf(),
        ensures
            final(entropy).wf(),
            final(entropy).bytes() == old(entropy).bytes(),
            drawn(
                old(entropy).position(),
                old(entropy).total_bits(),
                final(entropy).position(),
                r,
                49,
                triadic_at(old(entropy).bytes(), old(entropy).position(), hue_generator),
            ),
{
    let spectrum = entropy.next_u16()?;
    let lighter_advance = entropy.next_u16()?;
    let darker_advance = entropy.next_u16()?;
    let is_reversed = entropy.next()?;
    Ok(
        Palette::Triadic {
            hues: hue_generator,
            spectrum,
            lighter_advance,
            darker_advance,
            is_reversed,
        },
    )
}

/// Draws a triadic fiducial palette: hue, tint flag, the place of the
/// neutral anchor and reversal flag, in this order.
pub fn triadic_fiducial(entropy: &mut Enumerator) -> (r: Result<Palette, Error>)
        requires
            old(entropy).wf(),
        ensures
            final(entropy).wf(),
            final(entropy).bytes() == old(entropy).bytes(),
            drawn(
                old(entropy).position(),
                old(entropy).total_bits(),
                final(entropy).position(),
                r,
                26,
                triadic_fiducial_at(old(entropy).bytes(), old(entropy).position()),
            ),
{
    let spectrum = entropy.next_u16()?;
    let is_tint = entropy.next()?;
    let neutral_insert_index = entropy.next_u8()? % 2 + 1;
    let is_reversed = entropy.next()?;
    Ok(Palette::TriadicFiducial { spectrum, is_tint, neutral_insert_index, is_reversed })
}

/// Draws an analogous palette: hue, advance and reversal flag, in this
/// order.
pub fn analogous(entropy: &mut Enumerator, hue_generator: HueSource) -> (r: Result<Palette, Error>)
        requires
            old(entropy).wf(),
        ensures
            final(entropy).wf(),
            final(entropy).bytes() == old(entropy).bytes(),
            drawn(
                old(entropy).position(),
                old(entropy).total_bits(),
                final(entropy).position(),
                r,
                33,
                analogous_at(old(entropy).bytes(), old(entropy).position(), hue_generator),
            ),
{
    let spectrum = entropy.next_u16()?;
    let advance = entropy.next_u16()?;
    let is_reversed = entropy.next()?;
    Ok(Palette::Analogous { hues: hue_generator, spectrum, advance, is_reversed })
}

/// Draws an analogous fiducial palette: hue, tint flag, the place of the
/// neutral anchor and reversal flag, in this order.
pub fn analogous_fiducial(entropy: &mut Enumerator) -> (r: Result<Palette, Error>)
        requires
            old(entropy).wf(),
        ensures
            final(entropy).wf(),
            final(entropy).bytes() == old(entropy).bytes(),
            drawn(
                old(entropy).position(),
                old(entropy).total_bits(),
                final(entropy).position(),
                r,
                26,
                analogous_fiducial_at(old(entropy).bytes(), old(entropy).position()),
            ),
{
    let spectrum = entropy.next_u16()?;
    let is_tint = entropy.next()?;
    let neutral_insert_index = entropy.next_u8()? % 2 + 1;
    let is_reversed = entropy.next()?;
    Ok(Palette::AnalogousFiducial { spectrum, is_tint, neutral_insert_index, is_reversed })
}

/// Chooses the palette of a version: the grayscale fiducial version takes
/// grayscale; every other version reads a two-bit family code and then the
/// parameters of that family in the version's variant.
pub fn select_gradient(entropy: &mut Enumerator, version: Version) -> (r: Result<Palette, Error>)
        requires
            old(entropy).wf(),
        ensures
            final(entropy).wf(),
            final(entropy).bytes() == old(entropy).bytes(),
            drawn(
                old(entropy).position(),
                old(entropy).total_bits(),
                final(entropy).position(),
                r,
                gradient_bits(old(entropy).bytes(), old(entropy).position(), version),
                gradient_at(old(entropy).bytes(), old(entropy).position(), version),
            ),
{
    if version == Version::GrayscaleFiducial {
        return select_grayscale(entropy);
    }
    let value = entropy.next_u2()?;
    match value {
        0 => match version {
            Version::Version1 => monochromatic(entropy, HueSource::HueWheel),
            Version::Version2 | Version::Detailed => monochromatic(
                entropy,
                HueSource::SpectrumCmykSafe,
            ),
            Version::Fiducial => monochromatic_fiducial(entropy),
            Version::GrayscaleFiducial => Ok(Palette::Grayscale { is_reversed: false }),
        },
        1 => match version {
            Version::Version1 => complementary(entropy, HueSource::Spectrum),
            Version::Version2 | Version::Detailed => complementary(
                entropy,
                HueSource::SpectrumCmykSafe,
            ),
            Version::Fiducial => complementary_fiducial(entropy),
            Version::GrayscaleFiducial => Ok(Palette::Grayscale { is_reversed: false }),
        },
        2 => match version {
            Version::Version1 => triadic(entropy, HueSource::Spectrum),
            Version::Version2 | Version::Detailed => triadic(entropy, HueSource::SpectrumCmykSafe),
            Version::Fiducial => triadic_fiducial(entropy),
            Version::GrayscaleFiducial => Ok(Palette::Grayscale { is_reversed: false }),
        },
        3 => match version {
            Version::Version1 => analogous(entropy, HueSource::Spectrum),
            Version::Version2 | Version::Detailed => analogous(entropy, HueSource::SpectrumCmykSafe),
            Version::Fiducial => analogous_fiducial(entropy),
            Version::GrayscaleFiducial => Ok(Palette::Grayscale { is_reversed: false }),
        },
        _ => Ok(Palette::Grayscale { is_reversed: false }),
    }
}

} // verus!
