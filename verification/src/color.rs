use vstd::prelude::*;
use crate::error::RenderError;
use crate::scalar::{Scalar, SCALE, abs, fits, div_floor, scaled_product, lemma_product_within};

verus! {

/// The alpha of every colour that arithmetic produces. Shading is
/// opaque and diffuse, so alpha carries no light: products and clamped
/// colours all take this fixed value, whatever their operands held.
pub const DERIVED_ALPHA: i64 = 500_000;

/// The largest value of a pixel's channel.
pub const CHANNEL_MAX: u8 = 255;

/// Declares `image::Rgba`, the pixel type of the `image` crate, as a
/// type whose inside the verifier does not see.
#[verifier::external_type_specification]
#[verifier::external_body]
#[verifier::reject_recursive_types(T)]
pub struct ExRgba<T>(image::Rgba<T>);

/// The four channels that an `image::Rgba<u8>` holds: red, green, blue,
/// alpha.
pub uninterp spec fn rgba_channels(p: image::Rgba<u8>) -> Seq<u8>;

/// Calls `image::Pixel::from_channels` for `image::Rgba<u8>`, which
/// stores its four arguments, in their order, as the pixel's channels.
#[verifier::external_body]
#[allow(deprecated)]
fn rgba_from_channels(r: u8, g: u8, b: u8, a: u8) -> (p: image::Rgba<u8>)
    ensures
        rgba_channels(p) == seq![r, g, b, a],
{
    <image::Rgba<u8> as image::Pixel>::from_channels(r, g, b, a)
}

/// A colour with alpha; each channel of a well-formed colour lies in
/// `[0, 1]`.
#[derive(Clone, Copy, Debug, PartialEq, Eq, Structural)]
pub struct Color {
    pub r: Scalar,
    pub g: Scalar,
    pub b: Scalar,
    pub a: Scalar,
}

/// Whether a channel of `c` millionths lies in `[0, 1]`.
pub open spec fn in_unit_range(c: int) -> bool {
    0 <= c <= SCALE
}

/// `c` brought into `[0, 1]`.
pub open spec fn clamp_unit(c: int) -> int {
    if c < 0 {
        0
    } else if c > SCALE {
        SCALE as int
    } else {
        c
    }
}

/// The byte that stands for a channel of `c` millionths: `c * 255`
/// rounded down to a whole number and brought into `[0, 255]`.
pub open spec fn quantize(c: int) -> u8 {
    let q = (c * 255) / (SCALE as int);
    if q < 0 {
        0u8
    } else if q > 255 {
        255u8
    } else {
        q as u8
    }
}

/// Computes `clamp_unit`.
fn clamp_channel(c: Scalar) -> (r: Scalar)
    ensures
        r@ == clamp_unit(c@),
{
    if c.raw < 0 {
        Scalar { raw: 0 }
    } else if c.raw > SCALE {
        Scalar { raw: SCALE }
    } else {
        c
    }
}

/// Computes `quantize`.
fn quantize_channel(c: Scalar) -> (r: u8)
    ensures
        r == quantize(c@),
{
    let q: i128 = div_floor((c.raw as i128) * 255, SCALE as i128);
    if q < 0 {
        0
    } else if q > 255 {
        255
    } else {
        q as u8
    }
}

impl Color {
    /// Whether every channel lies in `[0, 1]`.
    pub open spec fn wf(self) -> bool {
        &&& in_unit_range(self.r@)
        &&& in_unit_range(self.g@)
        &&& in_unit_range(self.b@)
        &&& in_unit_range(self.a@)
    }

    /// Whether red, green and blue lie within `limit` of zero.
    pub open spec fn rgb_within(self, limit: int) -> bool {
        abs(self.r@) <= limit && abs(self.g@) <= limit && abs(self.b@) <= limit
    }

    /// Whether red, green and blue of the product with `other` can be
    /// stored.
    pub open spec fn tintable(self, other: Color) -> bool {
        &&& fits((self.r@ * other.r@) / (SCALE as int))
        &&& fits((self.g@ * other.g@) / (SCALE as int))
        &&& fits((self.b@ * other.b@) / (SCALE as int))
    }

    /// Whether red, green and blue of the product with `factor` can be
    /// stored.
    pub open spec fn scalable(self, factor: Scalar) -> bool {
        &&& fits((self.r@ * factor@) / (SCALE as int))
        &&& fits((self.g@ * factor@) / (SCALE as int))
        &&& fits((self.b@ * factor@) / (SCALE as int))
    }

    /// The colour with red, green and blue brought into `[0, 1]` and
    /// alpha `DERIVED_ALPHA`.
    pub open spec fn spec_clamp(self) -> Color {
        Color {
            r: Scalar { raw: clamp_unit(self.r@) as i64 },
            g: Scalar { raw: clamp_unit(self.g@) as i64 },
            b: Scalar { raw: clamp_unit(self.b@) as i64 },
            a: Scalar { raw: DERIVED_ALPHA },
        }
    }

    /// Red, green and blue multiplied channel by channel, each rounded
    /// down; alpha `DERIVED_ALPHA`.
    pub open spec fn spec_tint(self, other: Color) -> Color {
        Color {
            r: Scalar { raw: ((self.r@ * other.r@) / (SCALE as int)) as i64 },
            g: Scalar { raw: ((self.g@ * other.g@) / (SCALE as int)) as i64 },
            b: Scalar { raw: ((self.b@ * other.b@) / (SCALE as int)) as i64 },
            a: Scalar { raw: DERIVED_ALPHA },
        }
    }

    /// Red, green and blue multiplied by `factor`, each rounded down;
    /// alpha `DERIVED_ALPHA`.
    pub open spec fn spec_scale(self, factor: Scalar) -> Color {
        Color {
            r: Scalar { raw: ((self.r@ * factor@) / (SCALE as int)) as i64 },
            g: Scalar { raw: ((self.g@ * factor@) / (SCALE as int)) as i64 },
            b: Scalar { raw: ((self.b@ * factor@) / (SCALE as int)) as i64 },
            a: Scalar { raw: DERIVED_ALPHA },
        }
    }

    /// The pixel's channels: red, green and blue quantized, alpha opaque.
    pub open spec fn spec_channels(self) -> Seq<u8> {
        seq![quantize(self.r@), quantize(self.g@), quantize(self.b@), CHANNEL_MAX]
    }

    /// Whether every channel lies in `[0, 1]`.
    pub fn is_wf(&self) -> (ok: bool)
        ensures
            ok == self.wf(),
    {
        0 <= self.r.raw && self.r.raw <= SCALE && 0 <= self.g.raw && self.g.raw <= SCALE && 0
            <= self.b.raw && self.b.raw <= SCALE && 0 <= self.a.raw && self.a.raw <= SCALE
    }

    /// The colour of the four channels, or `ChannelOutOfRange` if one
    /// of them lies outside `[0, 1]`.
    pub fn new(r: Scalar, g: Scalar, b: Scalar, a: Scalar) -> (c: Result<Color, RenderError>)
        ensures
            (Color { r, g, b, a }).wf() ==> c == Ok::<Color, RenderError>(Color { r, g, b, a }),
            !(Color { r, g, b, a }).wf() ==> c == Err::<Color, RenderError>(
                RenderError::ChannelOutOfRange,
            ),
    {
        let color = Color { r, g, b, a };
        if color.is_wf() {
            Ok(color)
        } else {
            Err(RenderError::ChannelOutOfRange)
        }
    }

    /// The opaque pixel that shows this colour.
    pub fn to_rgba(&self) -> (p: image::Rgba<u8>)
        ensures
            rgba_channels(p) == self.spec_channels(),
    {
        let r: u8 = quantize_channel(self.r);
        let g: u8 = quantize_channel(self.g);
        let b: u8 = quantize_channel(self.b);
        rgba_from_channels(r, g, b, CHANNEL_MAX)
    }

    /// The colour with red, green and blue brought into `[0, 1]`.
    pub fn clamp(&self) -> (c: Color)
        ensures
            c == self.spec_clamp(),
            c.wf(),
    {
        Color {
            r: clamp_channel(self.r),
            g: clamp_channel(self.g),
            b: clamp_channel(self.b),
            a: Scalar { raw: DERIVED_ALPHA },
        }
    }
}

/// The pixel written where a ray hits nothing: transparent black.
pub fn background() -> (p: image::Rgba<u8>)
    ensures
        rgba_channels(p) == background_channels(),
{
    rgba_from_channels(0, 0, 0, 0)
}

/// The channels of the background pixel.
pub open spec fn background_channels() -> Seq<u8> {
    seq![0u8, 0u8, 0u8, 0u8]
}

impl core::ops::Mul<Color> for Color {
    type Output = Color;

    /// The two colours multiplied channel by channel.
    fn mul(self, other: Color) -> (c: Color) {
        Color {
            r: scaled_product(self.r, other.r),
            g: scaled_product(self.g, other.g),
            b: scaled_product(self.b, other.b),
            a: Scalar { raw: DERIVED_ALPHA },
        }
    }
}

impl vstd::std_specs::ops::MulSpecImpl<Color> for Color {
    open spec fn obeys_mul_spec() -> bool {
        true
    }

    open spec fn mul_req(self, other: Color) -> bool {
        self.tintable(other)
    }

    open spec fn mul_spec(self, other: Color) -> Color {
        self.spec_tint(other)
    }
}

impl core::ops::Mul<Scalar> for Color {
    type Output = Color;

    /// The colour with red, green and blue multiplied by `other`.
    fn mul(self, other: Scalar) -> (c: Color) {
        Color {
            r: scaled_product(self.r, other),
            g: scaled_product(self.g, other),
            b: scaled_product(self.b, other),
            a: Scalar { raw: DERIVED_ALPHA },
        }
    }
}

impl vstd::std_specs::ops::MulSpecImpl<Scalar> for Color {
    open spec fn obeys_mul_spec() -> bool {
        true
    }

    open spec fn mul_req(self, other: Scalar) -> bool {
        self.scalable(other)
    }

    open spec fn mul_spec(self, other: Scalar) -> Color {
        self.spec_scale(other)
    }
}

/// Multiplying a colour within `lc` by a factor within `lf` gives one
/// within `lc * lf / SCALE + 1`.
pub proof fn lemma_scale_within(c: Color, f: Scalar, lc: int, lf: int)
    requires
        c.rgb_within(lc),
        abs(f@) <= lf,
    ensures
        abs((c.r@ * f@) / (SCALE as int)) <= (lc * lf) / (SCALE as int) + 1,
        abs((c.g@ * f@) / (SCALE as int)) <= (lc * lf) / (SCALE as int) + 1,
        abs((c.b@ * f@) / (SCALE as int)) <= (lc * lf) / (SCALE as int) + 1,
{
    lemma_product_within(c.r@, f@, lc, lf);
    lemma_product_within(c.g@, f@, lc, lf);
    lemma_product_within(c.b@, f@, lc, lf);
}

} // verus!
