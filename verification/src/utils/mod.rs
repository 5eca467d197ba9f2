use vstd::prelude::*;
use crate::colors::gradient::drawn;
use crate::utils::bits::{bit_at, Enumerator};
use crate::{Dimensions, Error, Pattern, Version};

pub mod bits;
pub mod hash;

verus! {

/// How many copies of the field the pattern lays side by side along each axis.
pub open spec fn multiplier(pattern: Pattern) -> int {
    match pattern {
        Pattern::Fiducial => 1,
        _ => 2,
    }
}

/// Size of the grid that holds the tiled copies of a field of size `in_size`.
pub fn target_size(in_size: Dimensions, pattern: Pattern) -> (out: Dimensions)
    requires
        in_size.width * multiplier(pattern) <= usize::MAX,
        in_size.height * multiplier(pattern) <= usize::MAX,
    ensures
        out.width == in_size.width * multiplier(pattern),
        out.height == in_size.height * multiplier(pattern),
{
    let multiplier: usize = match pattern {
        Pattern::Fiducial => 1,
        _ => 2,
    };
    Dimensions { width: in_size.width * multiplier, height: in_size.height * multiplier }
}

/// The pattern that a version chooses from the bit at `at`: the fiducial
/// versions take the single copy; for the others a set bit chooses the
/// snowflake and a clear bit the pinwheel.
pub open spec fn pattern_at(data: Seq<u8>, at: int, version: Version) -> Pattern {
    match version {
        Version::Fiducial | Version::GrayscaleFiducial => Pattern::Fiducial,
        _ => if bit_at(data, at) {
            Pattern::Snowflake
        } else {
            Pattern::Pinwheel
        },
    }
}

/// The number of bits that choosing a version's pattern takes.
pub open spec fn pattern_bits(version: Version) -> int {
    match version {
        Version::Fiducial | Version::GrayscaleFiducial => 0,
        _ => 1,
    }
}

/// Chooses the pattern of a version.
pub fn select_pattern(entropy: &mut Enumerator, version: Version) -> (r: Result<Pattern, Error>)
    requires
        old(entropy).wf(),
    ensures
        final(entropy).wf(),
        final(entropy).bytes() == old(entropy).bytes(),
        drawn(
            old(entropy).position(),
            old(entropy).total_bits(),
            final(entropy).position(),
            r,
            pattern_bits(version),
            pattern_at(old(entropy).bytes(), old(entropy).position(), version),
        ),
{
    proof {
        entropy.lemma_position_in_range();
    }
    Ok(
        match version {
            Version::Fiducial | Version::GrayscaleFiducial => Pattern::Fiducial,
            _ => {
                if entropy.next()? {
                    Pattern::Snowflake
                } else {
                    Pattern::Pinwheel
                }
            },
        },
    )
}

} // verus!
