//! Colors as plain values, the order of single-precision numbers on their
//! bit patterns, and the calls into `palette` that convert and measure colors.

use vstd::prelude::*;

verus! {

/// The number type in which `palette` holds the components of a color.
type Component = <palette::Lab as palette::color_difference::Ciede2000>::Scalar;

/// A pixel of an image: three 8-bit sRGB channels.
#[derive(Clone, Copy, Debug, PartialEq, Eq, Structural)]
pub struct Rgb8 {
    pub red: u8,
    pub green: u8,
    pub blue: u8,
}

/// A CIE L\*a\*b\* color under the D65 white point.
///
/// Each component is the IEEE 754 binary32 bit pattern of the number, so two
/// colors are equal exactly when they are the same bit for bit.
#[derive(Clone, Copy, Debug, PartialEq, Eq, Structural)]
pub struct Lab {
    /// Lightness.
    pub l: u32,
    /// Position between red and green.
    pub a: u32,
    /// Position between yellow and blue.
    pub b: u32,
}

impl Rgb8 {
    /// The pixel with these channels.
    pub fn new(red: u8, green: u8, blue: u8) -> (p: Rgb8)
        ensures
            p == (Rgb8 { red, green, blue }),
    {
        Rgb8 { red, green, blue }
    }
}

impl Lab {
    /// The color with these components, each given by its bit pattern.
    pub fn new(l: u32, a: u32, b: u32) -> (c: Lab)
        ensures
            c == (Lab { l, a, b }),
    {
        Lab { l, a, b }
    }

    /// The color with the lightness of `self` and the chroma of `chroma`.
    pub open spec fn with_chroma_of(self, chroma: Lab) -> Lab {
        Lab { l: self.l, a: chroma.a, b: chroma.b }
    }

    /// Keeps the lightness of `self` and takes both chroma components from
    /// `chroma`.
    pub fn with_chroma(self, chroma: Lab) -> (c: Lab)
        ensures
            c == self.with_chroma_of(chroma),
    {
        Lab { l: self.l, a: chroma.a, b: chroma.b }
    }
}

/// The bit that holds the sign of a binary32 number.
pub const SIGN_BIT: u32 = 0x8000_0000;

/// The bit pattern of positive infinity; every larger magnitude is a NaN.
pub const INFINITY_BITS: u32 = 0x7f80_0000;

/// The bit pattern without its sign bit.
pub open spec fn magnitude(bits: u32) -> int {
    if bits >= SIGN_BIT {
        bits - SIGN_BIT
    } else {
        bits as int
    }
}

/// Whether the bit pattern is a NaN, which no number is ordered against.
pub open spec fn is_nan(bits: u32) -> bool {
    magnitude(bits) > INFINITY_BITS
}

/// The place of a number in the order of all binary32 numbers that are not
/// NaN: `x < y` as numbers exactly when `rank(x) < rank(y)`, and both zeros
/// have rank 0.
pub open spec fn rank(bits: u32) -> int {
    if bits >= SIGN_BIT {
        -magnitude(bits)
    } else {
        magnitude(bits)
    }
}

/// Tells whether the bit pattern is a NaN.
pub fn is_not_a_number(bits: u32) -> (r: bool)
    ensures
        r == is_nan(bits),
{
    if bits >= SIGN_BIT {
        bits - SIGN_BIT > INFINITY_BITS
    } else {
        bits > INFINITY_BITS
    }
}

/// Computes the rank of a bit pattern.
pub fn rank_of(bits: u32) -> (r: i64)
    ensures
        r == rank(bits),
{
    if bits >= SIGN_BIT {
        -((bits - SIGN_BIT) as i64)
    } else {
        bits as i64
    }
}

/// `color` is an L\*a\*b\* color that `palette` may give for the sRGB pixel
/// with these channels. `palette` computes it with the power and root
/// functions of the platform, whose last bits are not fixed, so this is a
/// relation and no function.
pub uninterp spec fn converts_to(red: u8, green: u8, blue: u8, color: Lab) -> bool;

/// `difference` is the bit pattern of a number that `palette` may give as the
/// improved CIEDE2000 difference of `to` from `from`. Like `converts_to` it
/// is a relation and no function.
pub uninterp spec fn measures(from: Lab, to: Lab, difference: u32) -> bool;

/// `color` is an L\*a\*b\* color of the pixel.
pub open spec fn is_lab_of(pixel: Rgb8, color: Lab) -> bool {
    converts_to(pixel.red, pixel.green, pixel.blue, color)
}

/// `palette` gives one color for one pixel and one difference for one pair
/// of colors. Nothing in the library assumes this; the laws that need it
/// ask for it.
pub open spec fn palette_is_single_valued() -> bool {
    &&& forall|red: u8, green: u8, blue: u8, one: Lab, other: Lab|
        #![trigger converts_to(red, green, blue, one), converts_to(red, green, blue, other)]
        converts_to(red, green, blue, one) && converts_to(red, green, blue, other) ==> one
            == other
    &&& forall|from: Lab, to: Lab, one: u32, other: u32|
        #![trigger measures(from, to, one), measures(from, to, other)]
        measures(from, to, one) && measures(from, to, other) ==> one == other
}

/// Calls `palette` to convert an sRGB pixel: `Rgb::into_format` scales the
/// channels to the unit interval and `IntoColor::into_color` takes the
/// result to L\*a\*b\*. The contract says no more than that the outcome is
/// one that `palette` gives for the three channels.
#[verifier::external_body]
pub(crate) fn convert_srgb(pixel: Rgb8) -> (c: Lab)
    ensures
        converts_to(pixel.red, pixel.green, pixel.blue, c),
{
    let rgb: palette::Srgb = palette::Srgb::new(pixel.red, pixel.green, pixel.blue).into_format();
    let lab: palette::Lab = palette::IntoColor::into_color(rgb);
    Lab { l: lab.l.to_bits(), a: lab.a.to_bits(), b: lab.b.to_bits() }
}

/// Calls `ImprovedCiede2000::improved_difference` of `palette` on two colors.
/// The contract says no more than that the outcome is one that `palette`
/// gives for the two colors.
#[verifier::external_body]
pub(crate) fn measure_difference(from: Lab, to: Lab) -> (d: u32)
    ensures
        measures(from, to, d),
{
    let x: palette::Lab = palette::Lab::new(
        Component::from_bits(from.l),
        Component::from_bits(from.a),
        Component::from_bits(from.b),
    );
    let y: palette::Lab = palette::Lab::new(
        Component::from_bits(to.l),
        Component::from_bits(to.a),
        Component::from_bits(to.b),
    );
    palette::color_difference::ImprovedCiede2000::improved_difference(x, y).to_bits()
}

} // verus!
