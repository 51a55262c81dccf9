use vstd::prelude::*;

verus! {

/// A colour as four 8-bit channels, stored in the buffer in this order.
#[derive(Clone, Copy, Debug, PartialEq, Eq, Structural)]
pub struct Color {
    pub r: u8,
    pub g: u8,
    pub b: u8,
    pub a: u8,
}

/// The blend of one channel: `(c * fg + (255 - c) * bg) / 255`, rounded to
/// the nearest integer, where `c / 255` is the coverage of the foreground.
pub open spec fn mix(fg: u8, bg: u8, coverage: u8) -> int {
    (coverage * fg + (255 - coverage) * bg + 127) / 255
}

/// Channel-wise blend of `fg` over `bg` at the given coverage.
pub open spec fn lerp_spec(fg: Color, bg: Color, coverage: u8) -> Color {
    Color {
        r: mix(fg.r, bg.r, coverage) as u8,
        g: mix(fg.g, bg.g, coverage) as u8,
        b: mix(fg.b, bg.b, coverage) as u8,
        a: mix(fg.a, bg.a, coverage) as u8,
    }
}

/// The colour whose channels are the bytes of `v` in little-endian order:
/// red is the lowest byte, alpha the highest.
pub open spec fn color_of_u32(v: u32) -> Color {
    Color {
        r: (v % 256) as u8,
        g: ((v / 256) % 256) as u8,
        b: ((v / 65536) % 256) as u8,
        a: (v / 16777216) as u8,
    }
}

proof fn lemma_mix_bounds(fg: u8, bg: u8, coverage: u8)
    ensures
        0 <= mix(fg, bg, coverage) <= 255,
        coverage == 255 ==> mix(fg, bg, coverage) == fg,
        coverage == 0 ==> mix(fg, bg, coverage) == bg,
{
    let c = coverage as int;
    let f = fg as int;
    let b = bg as int;
    assert(0 <= c * f <= c * 255) by (nonlinear_arith)
        requires 0 <= c <= 255, 0 <= f <= 255;
    assert(0 <= (255 - c) * b <= (255 - c) * 255) by (nonlinear_arith)
        requires 0 <= c <= 255, 0 <= b <= 255;
    assert(c * 255 + (255 - c) * 255 == 255 * 255) by (nonlinear_arith);
    if coverage == 255 {
        assert(mix(fg, bg, coverage) == (255 * f + 127) / 255);
    }
    if coverage == 0 {
        assert(mix(fg, bg, coverage) == (255 * b + 127) / 255);
    }
}

fn mix_channel(fg: u8, bg: u8, coverage: u8) -> (r: u8)
    ensures
        r == mix(fg, bg, coverage),
{
    proof {
        lemma_mix_bounds(fg, bg, coverage);
    }
    let c = coverage as u32;
    assert(c * (fg as u32) <= 255 * 255) by (nonlinear_arith)
        requires c <= 255, fg <= 255;
    assert((255 - c) * (bg as u32) <= 255 * 255) by (nonlinear_arith)
        requires c <= 255, bg <= 255;
    let sum = c * (fg as u32) + (255 - c) * (bg as u32) + 127;
    (sum / 255) as u8
}

impl Color {
    /// Blends `self` over `bg`: a coverage of 255 gives `self`, 0 gives `bg`,
    /// values between interpolate each channel linearly, rounded to nearest.
    pub fn lerp(&self, bg: Self, coverage: u8) -> (r: Self)
        ensures
            r == lerp_spec(*self, bg, coverage),
            coverage == 255 ==> r == *self,
            coverage == 0 ==> r == bg,
    {
        proof {
            lemma_mix_bounds(self.r, bg.r, coverage);
            lemma_mix_bounds(self.g, bg.g, coverage);
            lemma_mix_bounds(self.b, bg.b, coverage);
            lemma_mix_bounds(self.a, bg.a, coverage);
        }
        Color {
            r: mix_channel(self.r, bg.r, coverage),
            g: mix_channel(self.g, bg.g, coverage),
            b: mix_channel(self.b, bg.b, coverage),
            a: mix_channel(self.a, bg.a, coverage),
        }
    }
}

/// Blending at full coverage yields the foreground, at zero coverage the
/// background, for every pair of colours.
pub proof fn lemma_lerp_endpoints(fg: Color, bg: Color)
    ensures
        lerp_spec(fg, bg, 255) == fg,
        lerp_spec(fg, bg, 0) == bg,
{
    lemma_mix_bounds(fg.r, bg.r, 255);
    lemma_mix_bounds(fg.g, bg.g, 255);
    lemma_mix_bounds(fg.b, bg.b, 255);
    lemma_mix_bounds(fg.a, bg.a, 255);
    lemma_mix_bounds(fg.r, bg.r, 0);
    lemma_mix_bounds(fg.g, bg.g, 0);
    lemma_mix_bounds(fg.b, bg.b, 0);
    lemma_mix_bounds(fg.a, bg.a, 0);
}

impl From<u32> for Color {
    /// Unpacks a 32-bit value, lowest byte first, whatever the machine's
    /// own byte order.
    fn from(value: u32) -> (r: Self)
        ensures
            r == color_of_u32(value),
    {
        Color {
            r: (value % 256) as u8,
            g: ((value / 256) % 256) as u8,
            b: ((value / 65536) % 256) as u8,
            a: (value / 16777216) as u8,
        }
    }
}

impl vstd::std_specs::convert::FromSpecImpl<u32> for Color {
    open spec fn obeys_from_spec() -> bool {
        true
    }

    open spec fn from_spec(v: u32) -> Color {
        color_of_u32(v)
    }
}

} // verus!
