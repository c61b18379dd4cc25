//! The parameters of a search: the shape of a patch and the bound on a walk.

use vstd::prelude::*;

verus! {

/// The largest number of samples that a patch may hold.
pub const MAX_PATCH_LEN: u64 = 0xFFFF_FFFF;

/// The largest number of channels that can be read from one pixel.
pub const MAX_CHANNELS: u8 = 4;

/// The side of the square window of radius `radius`.
pub open spec fn window_side(radius: int) -> int {
    2 * radius + 1
}

/// The number of samples of a patch: `channels` for each pixel of the window.
pub open spec fn patch_len(radius: int, channels: int) -> int {
    channels * (window_side(radius) * window_side(radius))
}

/// Whether a patch of this radius and channel count can be built: it reads
/// between one and four channels and holds at most `MAX_PATCH_LEN` samples.
pub open spec fn valid_shape(radius: int, channels: int) -> bool {
    &&& 0 <= radius
    &&& 1 <= channels <= MAX_CHANNELS
    &&& patch_len(radius, channels) <= MAX_PATCH_LEN
}

/// The window grows with its radius, and so does the patch.
pub proof fn lemma_patch_len_monotonic(r1: int, r2: int, channels: int)
    requires
        0 <= r1 <= r2,
        0 <= channels,
    ensures
        0 <= patch_len(r1, channels) <= patch_len(r2, channels),
{
    let s1 = window_side(r1);
    let s2 = window_side(r2);
    assert(0 <= s1 * s1 <= s2 * s2) by (nonlinear_arith)
        requires
            0 <= s1 <= s2,
    ;
    assert(0 <= channels * (s1 * s1) <= channels * (s2 * s2)) by (nonlinear_arith)
        requires
            0 <= channels,
            0 <= s1 * s1 <= s2 * s2,
    ;
}

/// A shape that can be built has a window of fewer than 65536 pixels a side.
pub proof fn lemma_valid_shape_bounds(radius: int, channels: int)
    requires
        valid_shape(radius, channels),
    ensures
        radius <= 32767,
        1 <= window_side(radius) <= 65535,
        1 <= window_side(radius) * window_side(radius) <= patch_len(radius, channels),
{
    if radius > 32767 {
        lemma_patch_len_monotonic(32768, radius, channels);
        assert(patch_len(32768, channels) >= 65537 * 65537) by (nonlinear_arith)
            requires
                channels >= 1,
                patch_len(32768, channels) == channels * (65537 * 65537),
        ;
    }
    let side = window_side(radius);
    assert(1 <= side * side <= channels * (side * side)) by (nonlinear_arith)
        requires
            channels >= 1,
            side >= 1,
    ;
}

/// The validated parameters of a search.
pub struct SearchConfig {
    patch_radius: u32,
    channels: u8,
    max_walk_steps: u32,
}

impl SearchConfig {
    #[verifier::type_invariant]
    spec fn well_formed(self) -> bool {
        valid_shape(self.patch_radius as int, self.channels as int)
    }

    /// The half-size of the sample window.
    pub closed spec fn spec_patch_radius(&self) -> u32 {
        self.patch_radius
    }

    /// The number of channels read from each pixel.
    pub closed spec fn spec_channels(&self) -> u8 {
        self.channels
    }

    /// The largest number of candidates that one walk examines.
    pub closed spec fn spec_max_walk_steps(&self) -> u32 {
        self.max_walk_steps
    }

    /// Builds the parameters, or `None` where no patch of this shape can be built.
    pub fn new(patch_radius: u32, channels: u8, max_walk_steps: u32) -> (cfg: Option<SearchConfig>)
        ensures
            cfg is Some <==> valid_shape(patch_radius as int, channels as int),
            cfg matches Some(c) ==> {
                &&& c.spec_patch_radius() == patch_radius
                &&& c.spec_channels() == channels
                &&& c.spec_max_walk_steps() == max_walk_steps
            },
    {
        if channels < 1 || channels > MAX_CHANNELS {
            return None;
        }
        // A side of 65536 or more already gives over `MAX_PATCH_LEN` samples.
        if patch_radius > 32767 {
            proof {
                if valid_shape(patch_radius as int, channels as int) {
                    lemma_valid_shape_bounds(patch_radius as int, channels as int);
                }
            }
            return None;
        }
        let side: u64 = 2 * (patch_radius as u64) + 1;
        assert(side * side <= 65535 * 65535) by (nonlinear_arith)
            requires
                0 <= side <= 65535,
        ;
        let area: u64 = side * side;
        assert(channels * area <= 4 * (65535 * 65535)) by (nonlinear_arith)
            requires
                0 <= channels <= 4,
                0 <= area <= 65535 * 65535,
        ;
        let len: u64 = (channels as u64) * area;
        if len > MAX_PATCH_LEN {
            return None;
        }
        Some(SearchConfig { patch_radius, channels, max_walk_steps })
    }

    /// The half-size of the sample window.
    #[verifier::when_used_as_spec(spec_patch_radius)]
    pub fn patch_radius(&self) -> (radius: u32)
        ensures
            radius == self.spec_patch_radius(),
            valid_shape(radius as int, self.spec_channels() as int),
    {
        proof {
            use_type_invariant(self);
        }
        self.patch_radius
    }

    /// The number of channels read from each pixel.
    #[verifier::when_used_as_spec(spec_channels)]
    pub fn channels(&self) -> (channels: u8)
        ensures
            channels == self.spec_channels(),
            valid_shape(self.spec_patch_radius() as int, channels as int),
    {
        proof {
            use_type_invariant(self);
        }
        self.channels
    }

    /// The largest number of candidates that one walk examines.
    #[verifier::when_used_as_spec(spec_max_walk_steps)]
    pub fn max_walk_steps(&self) -> (steps: u32)
        ensures
            steps == self.spec_max_walk_steps(),
    {
        self.max_walk_steps
    }
}

} // verus!
