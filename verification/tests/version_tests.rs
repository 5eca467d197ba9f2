//! End-to-end pictures for known inputs. The library decides field, palette
//! and pattern and renders the image; the shades in between are worked out
//! here in floating point.

#![allow(dead_code)]

use lifehash_lib::colors::{stops, HueSource, Palette, Pixel};
use lifehash_lib::lifehash::{self, Design};
use lifehash_lib::{Error as LifeHashError, Image, Pattern, Version};
use std::io::{Error, ErrorKind};

fn lerp_to(to_a: f64, to_b: f64, t: f64) -> f64 {
    t * (to_b - to_a) + to_a
}

fn lerp_from(from_a: f64, from_b: f64, t: f64) -> f64 {
    (from_a - t) / (from_a - from_b)
}

fn lerp(from_a: f64, from_b: f64, to_c: f64, to_d: f64, t: f64) -> f64 {
    lerp_to(to_c, to_d, lerp_from(from_a, from_b, t))
}

fn modulo(dividend: f64, divisor: f64) -> f64 {
    ((dividend % divisor) + divisor) % divisor
}

fn clamped(n: f64) -> f64 {
    n.clamp(0.0, 1.0)
}

#[derive(Copy, Clone, Debug)]
struct Color {
    pub r: f64,
    pub g: f64,
    pub b: f64,
}

impl Eq for Color {}

impl PartialEq for Color {
    fn eq(&self, other: &Self) -> bool {
        self.r == other.r && self.g == other.g && self.b == other.b
    }
}

const WHITE: Color = Color { r: 1.0, g: 1.0, b: 1.0 };
const BLACK: Color = Color { r: 0.0, g: 0.0, b: 0.0 };

impl Color {
    const fn new(r: f64, g: f64, b: f64) -> Self {
        Self { r, g, b }
    }

    fn new_u8(r: u8, g: u8, b: u8) -> Self {
        Self { r: r as f64 / 255.0, g: g as f64 / 255.0, b: b as f64 / 255.0 }
    }

    fn from_pixel(pixel: Pixel) -> Self {
        Self::new_u8(pixel.r, pixel.g, pixel.b)
    }

    fn to_pixel(&self) -> Pixel {
        Pixel::new(
            (clamped(self.r) * 255.0) as u8,
            (clamped(self.g) * 255.0) as u8,
            (clamped(self.b) * 255.0) as u8,
        )
    }

    fn luminance(&self) -> f64 {
        ((0.299 * self.r).powf(2.0) + (0.587 * self.g).powf(2.0) + (0.114 * self.b).powf(2.0))
            .sqrt()
    }

    fn burn(&self, t: f64) -> Color {
        let f = (1.0 - t).max(1.0e-7);
        Color::new(
            (1.0 - (1.0 - self.r) / f).min(1.0),
            (1.0 - (1.0 - self.g) / f).min(1.0),
            (1.0 - (1.0 - self.b) / f).min(1.0),
        )
    }

    fn lerp_to(&self, other: &Color, t: f64) -> Color {
        let f = t.clamp(0.0, 1.0);
        let red = (self.r * (1.0 - f) + other.r * f).clamp(0.0, 1.0);
        let green = (self.g * (1.0 - f) + other.g * f).clamp(0.0, 1.0);
        let blue = (self.b * (1.0 - f) + other.b * f).clamp(0.0, 1.0);
        Color::new(red, green, blue)
    }

    fn lighten(&self, t: f64) -> Color {
        self.lerp_to(&WHITE, t)
    }

    fn darken(&self, t: f64) -> Color {
        self.lerp_to(&BLACK, t)
    }
}

impl Default for Color {
    fn default() -> Self {
        Self { r: 0.0, g: 0.0, b: 0.0 }
    }
}

struct HsbColor {
    hue: f64,
    saturation: f64,
    brightness: f64,
}

impl HsbColor {
    fn new(hue: f64, saturation: f64, brightness: f64) -> Self {
        Self { hue, saturation, brightness }
    }

    fn rgb(&self) -> Result<Color, Error> {
        let brightness = self.brightness.clamp(0.0, 1.0);
        let saturation = self.saturation.clamp(0.0, 1.0);
        let red;
        let green;
        let blue;
        if saturation <= 0.0 {
            red = brightness;
            green = brightness;
            blue = brightness;
        } else {
            let mut hue = modulo(self.hue, 1.0);
            if hue < 0.0 {
                hue += 1.0;
            }
            hue *= 6.0;
            let hue_floor = hue.floor() as i32;
            let hue_remainder = hue - f64::from(hue_floor);
            match hue_floor {
                0 => {
                    red = brightness;
                    green = brightness * (1.0 - saturation * (1.0 - hue_remainder));
                    blue = brightness * (1.0 - saturation);
                }
                1 => {
                    red = brightness * (1.0 - saturation * hue_remainder);
                    green = brightness;
                    blue = brightness * (1.0 - saturation);
                }
                2 => {
                    red = brightness * (1.0 - saturation);
                    green = brightness;
                    blue = brightness * (1.0 - saturation * (1.0 - hue_remainder));
                }
                3 => {
                    red = brightness * (1.0 - saturation);
                    green = brightness * (1.0 - saturation * hue_remainder);
                    blue = brightness;
                }
                4 => {
                    red = brightness * (1.0 - saturation * (1.0 - hue_remainder));
                    green = brightness * (1.0 - saturation);
                    blue = brightness;
                }
                5 => {
                    red = brightness;
                    green = brightness * (1.0 - saturation);
                    blue = brightness * (1.0 - saturation * hue_remainder);
                }
                _ => {
                    return Err(Error::new(ErrorKind::InvalidData, "Invalid HSB color."));
                }
            }
        }
        Ok(Color::new(red, green, blue))
    }
}

fn make_hue(t: f64) -> Result<Color, Error> {
    HsbColor::new(t, 1.0, 1.0).rgb()
}

enum ColorFunction {
    Blend(Color, Color),
    BlendVec(Vec<Color>),
    Reverse(Box<ColorFunction>),
    MakeHue,
}

impl ColorFunction {
    fn apply(&self, t: f64) -> Color {
        match self {
            ColorFunction::Blend(color1, color2) => color1.lerp_to(color2, t),
            ColorFunction::BlendVec(colors) => blend_vals(t, colors.as_slice()),
            ColorFunction::Reverse(func) => func.apply(1.0 - t),
            ColorFunction::MakeHue => {
                make_hue(t).expect("Expected known HSB color to convert to RGB")
            }
        }
    }
}

fn blend_vals(t: f64, colors: &[Color]) -> Color {
    if colors.is_empty() {
        ColorFunction::Blend(BLACK, BLACK).apply(t)
    } else if colors.len() == 1 {
        ColorFunction::Blend(colors[0], colors[0]).apply(t)
    } else if colors.len() == 2 {
        ColorFunction::Blend(colors[0], colors[1]).apply(t)
    } else if t >= 1.0 {
        colors[colors.len() - 1]
    } else if t <= 0.0 {
        colors[0]
    } else {
        let segments = colors.len() - 1;
        let s = t * segments as f64;
        let segment = s as usize;
        let segment_frac = modulo(s, 1.0);
        let c1 = colors[segment];
        let c2 = colors[segment + 1];
        c1.lerp_to(&c2, segment_frac)
    }
}

fn grayscale() -> ColorFunction {
    ColorFunction::Blend(BLACK, WHITE)
}

fn frac(value: usize) -> f64 {
    value as f64 / 65535.0
}

fn hue_function(source: HueSource) -> ColorFunction {
    match source {
        HueSource::HueWheel => ColorFunction::MakeHue,
        _ => ColorFunction::BlendVec(
            stops(source).into_iter().map(Color::from_pixel).collect(),
        ),
    }
}

fn spectrum_cmyk_safe() -> ColorFunction {
    hue_function(HueSource::SpectrumCmykSafe)
}

fn reversed_if(is_reversed: bool, gradient: ColorFunction) -> ColorFunction {
    if is_reversed {
        ColorFunction::Reverse(Box::new(gradient))
    } else {
        gradient
    }
}

fn adjust_for_luminance(color: Color, contrast_color: Color) -> Color {
    let lum = color.luminance();
    let contrast_lum = contrast_color.luminance();
    let threshold = 0.6;
    let offset = (lum - contrast_lum).abs();
    if offset > threshold {
        return color;
    }
    let boost = 0.7;
    let t = lerp(0.0, threshold, boost, 0.0, offset);
    if contrast_lum > lum {
        color.darken(t).burn(t * 0.6)
    } else {
        color.lighten(t).burn(t * 0.6)
    }
}

fn monochromatic(
    hues: HueSource,
    hue: usize,
    is_tint: bool,
    is_reversed: bool,
    key_advance: usize,
    neutral_advance: usize,
) -> ColorFunction {
    let hue_generator = hue_function(hues);
    let hue = frac(hue);
    let key_advance = frac(key_advance) * 0.3 + 0.05;
    let neutral_advance = frac(neutral_advance) * 0.3 + 0.05;
    let mut key_color = hue_generator.apply(hue);
    let contrast_brightness;
    if is_tint {
        contrast_brightness = 1.0;
        key_color = key_color.darken(0.5);
    } else {
        contrast_brightness = 0.0;
    }
    let neutral_color = grayscale().apply(contrast_brightness);
    let key_color_2 = key_color.lerp_to(&neutral_color, key_advance);
    let neutral_color_2 = neutral_color.lerp_to(&key_color, neutral_advance);
    reversed_if(is_reversed, ColorFunction::Blend(key_color_2, neutral_color_2))
}

fn monochromatic_fiducial(hue: usize, is_reversed: bool, is_tint: bool) -> ColorFunction {
    let hue = frac(hue);
    let contrast_color = if is_tint { WHITE } else { BLACK };
    let key_color = adjust_for_luminance(spectrum_cmyk_safe().apply(hue), contrast_color);
    reversed_if(
        is_reversed,
        ColorFunction::BlendVec(vec![key_color, contrast_color, key_color]),
    )
}

fn complementary(
    hues: HueSource,
    spectrum: usize,
    lighter_advance: usize,
    darker_advance: usize,
    is_reversed: bool,
) -> ColorFunction {
    let hue_generator = hue_function(hues);
    let spectrum1 = frac(spectrum);
    let spectrum2 = modulo(spectrum1 + 0.5, 1.0);
    let lighter_advance = frac(lighter_advance) * 0.3;
    let darker_advance = frac(darker_advance) * 0.3;
    let color1 = hue_generator.apply(spectrum1);
    let color2 = hue_generator.apply(spectrum2);
    let luma1 = color1.luminance();
    let luma2 = color2.luminance();
    let darker_color;
    let lighter_color;
    if luma1 > luma2 {
        darker_color = color2;
        lighter_color = color1;
    } else {
        darker_color = color1;
        lighter_color = color2;
    }
    let adjusted_lighter_color = lighter_color.lighten(lighter_advance);
    let adjusted_darker_color = darker_color.darken(darker_advance);
    reversed_if(
        is_reversed,
        ColorFunction::Blend(adjusted_darker_color, adjusted_lighter_color),
    )
}

fn complementary_fiducial(
    spectrum: usize,
    is_tint: bool,
    is_reversed: bool,
    neutral_color_bias: bool,
) -> ColorFunction {
    let spectrum1 = frac(spectrum);
    let spectrum2 = modulo(spectrum1 + 0.5, 1.0);
    let neutral_color = if is_tint { WHITE } else { BLACK };
    let color1 = spectrum_cmyk_safe().apply(spectrum1);
    let color2 = spectrum_cmyk_safe().apply(spectrum2);
    let biased_neutral_color = neutral_color
        .lerp_to(&if neutral_color_bias { color1 } else { color2 }, 0.2)
        .burn(0.1);
    reversed_if(
        is_reversed,
        ColorFunction::BlendVec(vec![
            adjust_for_luminance(color1, biased_neutral_color),
            biased_neutral_color,
            adjust_for_luminance(color2, biased_neutral_color),
        ]),
    )
}

fn triadic(
    hues: HueSource,
    spectrum: usize,
    lighter_advance: usize,
    darker_advance: usize,
    is_reversed: bool,
) -> ColorFunction {
    let hue_generator = hue_function(hues);
    let spectrum1 = frac(spectrum);
    let spectrum2 = modulo(spectrum1 + 1.0 / 3.0, 1.0);
    let spectrum3 = modulo(spectrum1 + 2.0 / 3.0, 1.0);
    let lighter_advance = frac(lighter_advance) * 0.3;
    let darker_advance = frac(darker_advance) * 0.3;
    let color1 = hue_generator.apply(spectrum1);
    let color2 = hue_generator.apply(spectrum2);
    let color3 = hue_generator.apply(spectrum3);
    let mut colors = [color1, color2, color3];
    let mut at = 1;
    while at < colors.len() {
        let mut place = at;
        while place > 0 && colors[place].luminance() < colors[place - 1].luminance() {
            colors.swap(place, place - 1);
            place -= 1;
        }
        at += 1;
    }
    let darker_color = colors[0];
    let middle_color = colors[1];
    let lighter_color = colors[2];
    let adjusted_lighter_color = lighter_color.lighten(lighter_advance);
    let adjusted_darker_color = darker_color.darken(darker_advance);
    reversed_if(
        is_reversed,
        ColorFunction::BlendVec(vec![adjusted_lighter_color, middle_color, adjusted_darker_color]),
    )
}

fn with_neutral(
    mut colors: Vec<Color>,
    is_tint: bool,
    neutral_insert_index: usize,
    is_reversed: bool,
) -> Result<ColorFunction, Error> {
    let neutral_color = if is_tint { WHITE } else { BLACK };
    match neutral_insert_index {
        1 => {
            colors[0] = adjust_for_luminance(colors[0], neutral_color);
            colors[1] = adjust_for_luminance(colors[1], neutral_color);
            colors[2] = adjust_for_luminance(colors[2], colors[1]);
        }
        2 => {
            colors[1] = adjust_for_luminance(colors[1], neutral_color);
            colors[2] = adjust_for_luminance(colors[2], neutral_color);
            colors[0] = adjust_for_luminance(colors[0], colors[1]);
        }
        _ => {
            return Err(Error::new(
                ErrorKind::InvalidData,
                "Invalid Neutral Insert Index",
            ))
        }
    }
    colors.insert(neutral_insert_index, neutral_color);
    Ok(reversed_if(is_reversed, ColorFunction::BlendVec(colors)))
}

fn triadic_fiducial(
    spectrum: usize,
    is_tint: bool,
    neutral_insert_index: usize,
    is_reversed: bool,
) -> Result<ColorFunction, Error> {
    let spectrum1 = frac(spectrum);
    let spectrum2 = modulo(spectrum1 + 1.0 / 3.0, 1.0);
    let spectrum3 = modulo(spectrum1 + 2.0 / 3.0, 1.0);
    let colors = vec![
        spectrum_cmyk_safe().apply(spectrum1),
        spectrum_cmyk_safe().apply(spectrum2),
        spectrum_cmyk_safe().apply(spectrum3),
    ];
    with_neutral(colors, is_tint, neutral_insert_index, is_reversed)
}

fn analogous(hues: HueSource, spectrum: usize, advance: usize, is_reversed: bool) -> ColorFunction {
    let hue_generator = hue_function(hues);
    let spectrum1 = frac(spectrum);
    let spectrum2 = modulo(spectrum1 + 1.0 / 12.0, 1.0);
    let spectrum3 = modulo(spectrum1 + 2.0 / 12.0, 1.0);
    let spectrum4 = modulo(spectrum1 + 3.0 / 12.0, 1.0);
    let advance = frac(advance) * 0.5 + 0.2;
    let color1 = hue_generator.apply(spectrum1);
    let color2 = hue_generator.apply(spectrum2);
    let color3 = hue_generator.apply(spectrum3);
    let color4 = hue_generator.apply(spectrum4);
    let darkest_color;
    let dark_color;
    let light_color;
    let lightest_color;
    if color1.luminance() < color4.luminance() {
        darkest_color = color1;
        dark_color = color2;
        light_color = color3;
        lightest_color = color4;
    } else {
        darkest_color = color4;
        dark_color = color3;
        light_color = color2;
        lightest_color = color1;
    }
    let adjusted_darkest_color = darkest_color.darken(advance);
    let adjusted_dark_color = dark_color.darken(advance / 2.0);
    let adjusted_light_color = light_color.lighten(advance / 2.0);
    let adjusted_lightest_color = lightest_color.lighten(advance);
    reversed_if(
        is_reversed,
        ColorFunction::BlendVec(vec![
            adjusted_darkest_color,
            adjusted_dark_color,
            adjusted_light_color,
            adjusted_lightest_color,
        ]),
    )
}

fn analogous_fiducial(
    spectrum: usize,
    is_tint: bool,
    neutral_insert_index: usize,
    is_reversed: bool,
) -> Result<ColorFunction, Error> {
    let spectrum1 = frac(spectrum);
    let spectrum2 = modulo(spectrum1 + 1.0 / 10.0, 1.0);
    let spectrum3 = modulo(spectrum1 + 2.0 / 10.0, 1.0);
    let colors = vec![
        spectrum_cmyk_safe().apply(spectrum1),
        spectrum_cmyk_safe().apply(spectrum2),
        spectrum_cmyk_safe().apply(spectrum3),
    ];
    with_neutral(colors, is_tint, neutral_insert_index, is_reversed)
}

fn gradient_of(palette: &Palette) -> Result<ColorFunction, Error> {
    Ok(match *palette {
        Palette::Grayscale { is_reversed } => reversed_if(is_reversed, grayscale()),
        Palette::Monochromatic {
            hues,
            hue,
            is_tint,
            is_reversed,
            key_advance,
            neutral_advance,
        } => monochromatic(hues, hue, is_tint, is_reversed, key_advance, neutral_advance),
        Palette::MonochromaticFiducial { hue, is_reversed, is_tint } => {
            monochromatic_fiducial(hue, is_reversed, is_tint)
        }
        Palette::Complementary {
            hues,
            spectrum,
            lighter_advance,
            darker_advance,
            is_reversed,
        } => complementary(hues, spectrum, lighter_advance, darker_advance, is_reversed),
        Palette::ComplementaryFiducial { spectrum, is_tint, is_reversed, neutral_color_bias } => {
            complementary_fiducial(spectrum, is_tint, is_reversed, neutral_color_bias)
        }
        Palette::Triadic { hues, spectrum, lighter_advance, darker_advance, is_reversed } => {
            triadic(hues, spectrum, lighter_advance, darker_advance, is_reversed)
        }
        Palette::TriadicFiducial { spectrum, is_tint, neutral_insert_index, is_reversed } => {
            triadic_fiducial(spectrum, is_tint, neutral_insert_index, is_reversed)?
        }
        Palette::Analogous { hues, spectrum, advance, is_reversed } => {
            analogous(hues, spectrum, advance, is_reversed)
        }
        Palette::AnalogousFiducial { spectrum, is_tint, neutral_insert_index, is_reversed } => {
            analogous_fiducial(spectrum, is_tint, neutral_insert_index, is_reversed)?
        }
    })
}

fn to_io_error(error: LifeHashError) -> Error {
    match error {
        LifeHashError::Exhausted => Error::new(ErrorKind::UnexpectedEof, "Enumerator underflow."),
        LifeHashError::InvalidConfiguration => {
            Error::new(ErrorKind::InvalidData, "Invalid Module Size")
        }
    }
}

fn fraction(value: usize, generations: usize) -> f64 {
    if value == 0 {
        0.0
    } else {
        clamped(lerp_from(0.0, generations as f64, value as f64))
    }
}

fn shades(design: &Design) -> Result<Vec<Pixel>, Error> {
    let gradient = gradient_of(&design.gradient)?;
    let generations = design.generations;
    let mut list = Vec::with_capacity(generations + 1);
    for value in 0..=generations {
        let plain = fraction(value, generations);
        let t = match design.normalized_range {
            Some((low, high)) => lerp_from(
                fraction(low, generations),
                fraction(high, generations),
                plain,
            ),
            None => plain,
        };
        list.push(gradient.apply(t).to_pixel());
    }
    Ok(list)
}

fn seed_fits(digest: &[u8], version: Version) -> bool {
    match version {
        Version::Version2 | Version::GrayscaleFiducial => true,
        _ => digest.len() <= 32,
    }
}

fn image_fits(design: &Design, module_size: usize, has_alpha: bool) -> bool {
    let copies: usize = match design.pattern {
        Pattern::Fiducial => 1,
        _ => 2,
    };
    let channels: usize = if has_alpha { 4 } else { 3 };
    let width = design.frac_grid.dimensions.width.checked_mul(copies);
    let height = design.frac_grid.dimensions.height.checked_mul(copies);
    let scaled_width = width.and_then(|w| w.checked_mul(module_size));
    let scaled_height = height.and_then(|h| h.checked_mul(module_size));
    match (width, height, scaled_width, scaled_height) {
        (Some(w), Some(h), Some(sw), Some(sh)) => {
            w.checked_mul(h).is_some()
                && sw.checked_mul(sh).and_then(|n| n.checked_mul(channels)).is_some()
        }
        _ => false,
    }
}

fn finish(design: Design, module_size: usize, has_alpha: bool) -> Result<(Image, Vec<u8>), Error> {
    let gradient = shades(&design)?;
    assert!(
        image_fits(&design, module_size, has_alpha),
        "the image is larger than memory"
    );
    assert!(design.frac_grid.storage.iter().all(|value| *value < gradient.len()));
    let square = design.frac_grid.dimensions.width == design.frac_grid.dimensions.height;
    assert!(design.pattern != Pattern::Pinwheel || square);
    let image = lifehash::render(
        &design.frac_grid,
        &gradient,
        design.pattern,
        module_size,
        has_alpha,
    )
    .map_err(to_io_error)?;
    Ok((image, design.digest))
}

fn from_data(
    data: &[u8],
    version: Version,
    module_size: usize,
    has_alpha: bool,
) -> Result<(Image, Vec<u8>), Error> {
    let design = lifehash::from_data(data, version).map_err(to_io_error)?;
    finish(design, module_size, has_alpha)
}

fn from_digest(
    digest: &[u8],
    version: Version,
    module_size: usize,
    has_alpha: bool,
) -> Result<(Image, Vec<u8>), Error> {
    assert!(seed_fits(digest, version), "the digest is longer than the board");
    let design = lifehash::from_digest(digest, version).map_err(to_io_error)?;
    finish(design, module_size, has_alpha)
}

#[test]
fn test_hello_version1() {
    let (image, _) = from_data(b"Hello", Version::Version1, 1, false).unwrap();
    assert_eq!(image.width, 32);
    assert_eq!(image.height, 32);
    let expected = [
        0, 27, 7, 0, 24, 6, 0, 33, 9, 0, 29, 8, 0, 29, 8, 0, 28, 8, 0, 32, 9, 0, 87, 24, 0, 87, 24,
        0, 89, 25,
    ];
    assert_eq!(image.pixels[0..30], expected);
}

#[test]
fn test_hello_version2() {
    let (image, _) = from_data(b"Hello", Version::Version2, 1, false).unwrap();
    assert_eq!(image.width, 32);
    assert_eq!(image.height, 32);
    let expected = [
        146, 126, 130, 178, 104, 92, 182, 101, 87, 202, 88, 64, 199, 89, 66, 197, 90, 69, 182, 101,
        87, 180, 102, 89, 159, 117, 114, 210, 82, 54,
    ];
    assert_eq!(image.pixels[0..30], expected);
}

#[test]
fn test_hello_detailed() {
    let (image, _) = from_data(b"Hello", Version::Detailed, 1, false).unwrap();
    assert_eq!(image.width, 64);
    assert_eq!(image.height, 64);
    let expected = [
        52, 94, 41, 45, 81, 35, 45, 82, 36, 45, 82, 36, 45, 82, 36, 36, 65, 28, 36, 65, 28, 36, 64,
        28, 59, 107, 47, 59, 107, 47,
    ];
    assert_eq!(image.pixels[0..30], expected);
}

#[test]
fn test_hello_fiduciary() {
    let (image, _) = from_data(b"Hello", Version::Fiducial, 1, false).unwrap();
    assert_eq!(image.width, 32);
    assert_eq!(image.height, 32);
    let expected = [
        47, 20, 29, 5, 2, 3, 0, 0, 0, 2, 0, 1, 0, 0, 0, 66, 29, 41, 68, 29, 42, 69, 30, 43, 97, 42,
        60, 96, 42, 59,
    ];
    assert_eq!(image.pixels[0..30], expected);
}

#[test]
fn test_hello_grayscale_fiduciary() {
    let (image, _) = from_data(b"Hello", Version::GrayscaleFiducial, 1, false).unwrap();
    assert_eq!(image.width, 32);
    assert_eq!(image.height, 32);
    let expected = [
        48, 48, 48, 47, 47, 47, 63, 63, 63, 64, 64, 64, 23, 23, 23, 22, 22, 22, 23, 23, 23, 62, 62,
        62, 64, 64, 64, 64, 64, 64,
    ];
    assert_eq!(image.pixels[0..30], expected);
}

#[test]
fn test_hello_version1_alpha() {
    let (image, _) = from_data(b"Hello", Version::Version1, 1, true).unwrap();
    assert_eq!(image.width, 32);
    assert_eq!(image.height, 32);
    let expected = [
        0, 27, 7, 255, 0, 24, 6, 255, 0, 33, 9, 255, 0, 29, 8, 255, 0, 29, 8, 255, 0, 28, 8, 255,
        0, 32, 9, 255, 0, 87, 24, 255, 0, 87, 24, 255, 0, 89, 25, 255,
    ];
    assert_eq!(image.pixels[0..40], expected);
}

#[test]
fn test_hello_version2_alpha() {
    let (image, _) = from_data(b"Hello", Version::Version2, 1, true).unwrap();
    assert_eq!(image.width, 32);
    assert_eq!(image.height, 32);
    let expected = [
        146, 126, 130, 255, 178, 104, 92, 255, 182, 101, 87, 255, 202, 88, 64, 255, 199, 89, 66,
        255, 197, 90, 69, 255, 182, 101, 87, 255, 180, 102, 89, 255, 159, 117, 114, 255, 210, 82,
        54, 255,
    ];
    assert_eq!(image.pixels[0..40], expected);
}

#[test]
fn test_hello_detailed_alpha() {
    let (image, _) = from_data(b"Hello", Version::Detailed, 1, true).unwrap();
    assert_eq!(image.width, 64);
    assert_eq!(image.height, 64);
    let expected = [
        52, 94, 41, 255, 45, 81, 35, 255, 45, 82, 36, 255, 45, 82, 36, 255, 45, 82, 36, 255, 36,
        65, 28, 255, 36, 65, 28, 255, 36, 64, 28, 255, 59, 107, 47, 255, 59, 107, 47, 255,
    ];
    assert_eq!(image.pixels[0..40], expected);
}

#[test]
fn test_hello_fiduciary_alpha() {
    let (image, _) = from_data(b"Hello", Version::Fiducial, 1, true).unwrap();
    assert_eq!(image.width, 32);
    assert_eq!(image.height, 32);
    let expected = [
        47, 20, 29, 255, 5, 2, 3, 255, 0, 0, 0, 255, 2, 0, 1, 255, 0, 0, 0, 255, 66, 29, 41, 255,
        68, 29, 42, 255, 69, 30, 43, 255, 97, 42, 60, 255, 96, 42, 59, 255,
    ];
    assert_eq!(image.pixels[0..40], expected);
}

#[test]
fn test_hello_grayscale_fiduciary_alpha() {
    let (image, _) = from_data(b"Hello", Version::GrayscaleFiducial, 1, true).unwrap();
    assert_eq!(image.width, 32);
    assert_eq!(image.height, 32);
    let expected = [
        48, 48, 48, 255, 47, 47, 47, 255, 63, 63, 63, 255, 64, 64, 64, 255, 23, 23, 23, 255, 22,
        22, 22, 255, 23, 23, 23, 255, 62, 62, 62, 255, 64, 64, 64, 255, 64, 64, 64, 255,
    ];
    assert_eq!(image.pixels[0..40], expected);
}

#[test]
fn test_select_gradient_complementary_version_1() {
    let data = "Hello Hello Hello Hello Hello Hello Hello".to_string(); //This triggers complementary in select_gradient
    let (image, _) = from_data(data.as_bytes(), Version::Version1, 1, false).unwrap();
    assert_eq!(image.width, 32);
    assert_eq!(image.height, 32);
    let expected = [
        192, 27, 128, 196, 22, 129, 195, 23, 129, 195, 23, 129, 193, 26, 128, 195, 23, 129, 179,
        43, 126, 179, 43, 126, 193, 25, 129, 196, 22, 129, 194, 24, 129, 194, 24, 129, 196, 22,
        129, 196,
    ];
    assert_eq!(image.pixels[0..40], expected);
}

#[test]
fn test_select_gradient_triadic_version_1() {
    let data = "Hello Hello".to_string(); //This triggers triadic in select_gradient
    let (image, _) = from_data(data.as_bytes(), Version::Version1, 1, false).unwrap();
    assert_eq!(image.width, 32);
    assert_eq!(image.height, 32);
    let expected = [
        80, 54, 108, 88, 53, 106, 163, 45, 86, 193, 42, 79, 178, 44, 83, 178, 44, 83, 133, 48, 94,
        200, 41, 77, 223, 52, 73, 232, 41, 69, 219, 58, 75, 215, 40, 73, 215, 40, 73, 208,
    ];
    assert_eq!(image.pixels[0..40], expected);
}

#[test]
fn test_select_gradient_analogous_version_1() {
    let data = "Hello Hello Hello Hello Hello Hello".to_string(); //This triggers analogous in select_gradient
    let (image, _) = from_data(data.as_bytes(), Version::Version1, 1, false).unwrap();
    assert_eq!(image.width, 32);
    assert_eq!(image.height, 32);
    let expected = [
        185, 70, 67, 253, 236, 188, 253, 236, 188, 252, 233, 185, 253, 235, 187, 252, 233, 185,
        252, 228, 181, 252, 230, 182, 251, 222, 175, 250, 204, 159, 249, 200, 157, 249, 199, 155,
        134, 22, 39, 123,
    ];
    assert_eq!(image.pixels[0..40], expected);
}

#[test]
fn test_select_gradient_triadic_version_2() {
    let data = "Hello Hello Hello Hello".to_string(); //This triggers triadic in select_gradient
    let (image, _) = from_data(data.as_bytes(), Version::Version2, 1, false).unwrap();
    assert_eq!(image.width, 32);
    assert_eq!(image.height, 32);
    let expected = [
        180, 61, 63, 76, 51, 92, 64, 50, 95, 58, 50, 97, 46, 49, 100, 58, 50, 97, 119, 55, 80, 119,
        55, 80, 119, 55, 80, 119, 55, 80, 119, 55, 80, 119, 55, 80, 101, 54, 85, 76,
    ];
    assert_eq!(image.pixels[0..40], expected);
}

#[test]
fn test_select_gradient_analogous_version_2() {
    let data = "Hello Hello".to_string(); //This triggers analogous in select_gradient
    let (image, _) = from_data(data.as_bytes(), Version::Version2, 1, false).unwrap();
    assert_eq!(image.width, 32);
    assert_eq!(image.height, 32);
    let expected = [
        81, 42, 93, 53, 37, 81, 89, 44, 96, 220, 109, 160, 220, 109, 160, 220, 109, 160, 215, 103,
        157, 215, 103, 157, 215, 103, 157, 220, 106, 160, 208, 100, 154, 188, 90, 144, 181, 87,
        141, 21,
    ];
    assert_eq!(image.pixels[0..40], expected);
}

#[test]
fn test_select_gradient_complementary_fiducial() {
    let data = "Hello Hello Hello Hello Hello Hello Hello".to_string(); //This triggers complementary_fiducial in select_gradient
    let (image, _) = from_data(data.as_bytes(), Version::Fiducial, 1, false).unwrap();
    assert_eq!(image.width, 32);
    assert_eq!(image.height, 32);
    let expected = [
        0, 81, 29, 10, 90, 40, 0, 67, 12, 0, 77, 24, 0, 69, 14, 0, 71, 17, 0, 71, 17, 0, 60, 4, 0,
        56, 0, 0, 56, 0, 0, 77, 24, 0, 74, 20, 0, 30, 0, 0,
    ];
    assert_eq!(image.pixels[0..40], expected);
}

#[test]
fn test_select_gradient_triadic_fiducial() {
    let data = "Hello Hello".to_string(); //This triggers triadic_fiducial in select_gradient
    let (image, _) = from_data(data.as_bytes(), Version::Fiducial, 1, false).unwrap();
    assert_eq!(image.width, 32);
    assert_eq!(image.height, 32);
    let expected = [
        152, 173, 197, 25, 72, 127, 25, 72, 127, 149, 171, 196, 28, 74, 128, 25, 72, 127, 162, 181,
        203, 160, 179, 202, 165, 183, 204, 167, 185, 206, 165, 183, 204, 185, 104, 109, 185, 104,
        109, 188,
    ];
    assert_eq!(image.pixels[0..40], expected);
}

#[test]
fn test_select_gradient_analogous_fiducial() {
    let data = "Hello Hello Hello Hello Hello Hello".to_string(); //This triggers analogous_fiducial in select_gradient
    let (image, _) = from_data(data.as_bytes(), Version::Fiducial, 1, false).unwrap();
    assert_eq!(image.width, 32);
    assert_eq!(image.height, 32);
    let expected = [
        105, 46, 0, 98, 37, 0, 103, 43, 0, 103, 43, 0, 103, 43, 0, 103, 43, 0, 103, 43, 0, 103, 43,
        0, 98, 37, 0, 124, 73, 25, 124, 73, 25, 139, 94, 51, 141, 96, 54, 141,
    ];
    assert_eq!(image.pixels[0..40], expected);
}

#[test]
fn test_hello_alpha() {
    let (image, _) = from_data(b"Hello", Version::Version2, 1, true).unwrap();
    assert_eq!(image.width, 32);
    assert_eq!(image.height, 32);
    let expected = [
        146, 126, 130, 255, 178, 104, 92, 255, 182, 101, 87, 255, 202, 88, 64, 255, 199, 89, 66,
        255, 197, 90, 69, 255, 182, 101, 87, 255, 180, 102, 89, 255, 159, 117, 114, 255, 210, 82,
        54, 255,
    ];
    assert_eq!(image.pixels[0..40], expected);
}
