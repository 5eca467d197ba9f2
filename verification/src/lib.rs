//! Visual hashes: a byte digest is turned into a small, reproducible image by
//! running a toroidal cellular automaton seeded from the digest, recording how
//! late each cell was last alive, and tiling that field symmetrically.
//!
//! Everything here works on integers and bytes. Colour arithmetic is left to
//! the caller, who receives the drawn palette parameters and hands back one
//! 8-bit colour per shade.

use vstd::prelude::*;

pub mod colors;
pub mod grids;
pub mod lifehash;
pub mod utils;

verus! {

/// The three ways in which generation can fail.
#[derive(Copy, Clone, Debug, PartialEq, Eq, Structural)]
pub enum Error {
    /// A read was requested past the final bit of the digest.
    Exhausted,
    /// The module size was zero.
    InvalidConfiguration,
}

/// Size of a grid in cells.
#[derive(Copy, Clone, Debug, PartialEq, Eq, Structural)]
pub struct Dimensions {
    pub width: usize,
    pub height: usize,
}

impl Dimensions {
    /// Number of cells.
    pub open spec fn area(self) -> int {
        self.width * self.height
    }

    /// Both sides are at least one cell long.
    pub open spec fn nonempty(self) -> bool {
        self.width >= 1 && self.height >= 1
    }

    /// `p` lies inside the grid.
    pub open spec fn contains(self, p: Point) -> bool {
        p.x < self.width && p.y < self.height
    }

    /// Row-major index of `p`.
    pub open spec fn index_of(self, p: Point) -> int {
        p.y * self.width + p.x
    }
}

/// A cell coordinate.
#[derive(Copy, Clone, Debug, PartialEq, Eq, Structural)]
pub struct Point {
    pub x: usize,
    pub y: usize,
}

/// The format version: it fixes grid size, generation cap, how the digest is
/// prepared and which palettes and patterns are eligible.
#[derive(Copy, Clone, Debug, PartialEq, Eq, Structural)]
pub enum Version {
    /// Legacy format with the HSB gamut.
    Version1,
    /// CMYK-friendly gamut; the default.
    Version2,
    /// Double resolution, CMYK-friendly gamut.
    Detailed,
    /// High-contrast markers for machine vision, CMYK-friendly gamut.
    Fiducial,
    /// High-contrast markers for machine vision, grayscale.
    GrayscaleFiducial,
}

impl Version {
    /// The version that a version number selects; unknown numbers select the default.
    pub open spec fn of_number(number: u8) -> Version {
        if number == 1 {
            Version::Version1
        } else if number == 3 {
            Version::Detailed
        } else if number == 4 {
            Version::Fiducial
        } else if number == 5 {
            Version::GrayscaleFiducial
        } else {
            Version::Version2
        }
    }

    /// Side length of the automaton's board, in cells.
    pub open spec fn spec_grid_side(self) -> usize {
        match self {
            Version::Version1 | Version::Version2 => 16,
            _ => 32,
        }
    }

    /// The most generations that are ever recorded.
    pub open spec fn spec_max_generations(self) -> usize {
        match self {
            Version::Version1 | Version::Version2 => 150,
            _ => 300,
        }
    }

    #[verifier::when_used_as_spec(spec_grid_side)]
    pub fn grid_side(self) -> (side: usize)
        ensures
            side == self.spec_grid_side(),
    {
        match self {
            Version::Version1 | Version::Version2 => 16,
            _ => 32,
        }
    }

    #[verifier::when_used_as_spec(spec_max_generations)]
    pub fn max_generations(self) -> (cap: usize)
        ensures
            cap == self.spec_max_generations(),
    {
        match self {
            Version::Version1 | Version::Version2 => 150,
            _ => 300,
        }
    }
}

impl From<u8> for Version {
    fn from(version: u8) -> (selected: Self) {
        match version {
            1 => Version::Version1,
            3 => Version::Detailed,
            4 => Version::Fiducial,
            5 => Version::GrayscaleFiducial,
            _ => Version::Version2,
        }
    }
}

impl vstd::std_specs::convert::FromSpecImpl<u8> for Version {
    open spec fn obeys_from_spec() -> bool {
        true
    }

    open spec fn from_spec(version: u8) -> Self {
        Version::of_number(version)
    }
}

/// The symmetry with which the field is tiled into the image.
#[derive(Copy, Clone, Debug, PartialEq, Eq, Structural)]
pub enum Pattern {
    /// Mirror around the central axes.
    Snowflake,
    /// Rotate around the centre.
    Pinwheel,
    /// A single, unmirrored copy.
    Fiducial,
}

/// A finished picture: rows top to bottom, pixels left to right, channels
/// interleaved, eight bits per channel.
pub struct Image {
    pub width: usize,
    pub height: usize,
    pub channels: usize,
    pub pixels: Vec<u8>,
}

} // verus!
