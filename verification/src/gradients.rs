use vstd::prelude::*;
use crate::Version;
use crate::bit_enumerator::{BitEnumerator, bit_at, bits_value};

verus! {

/// The colour wheel that a gradient takes its hues from.
#[derive(Clone, Copy, Debug, PartialEq, Eq, Structural)]
pub enum Hues {
    /// Fully saturated, fully bright HSB hues.
    Hsb,
    /// The LifeHash spectrum.
    Spectrum,
    /// The LifeHash spectrum restricted to colours that print well in CMYK.
    SpectrumCmykSafe,
}

/// A colour gradient as chosen from the entropy bits. Numbers named after hues,
/// spectra and advances are 16-bit fractions: the value divided by `65535`.
#[derive(Clone, Copy, Debug, PartialEq, Eq, Structural)]
pub enum Gradient {
    /// Black to white, or white to black when reversed.
    Grayscale { reversed: bool },
    /// One hue blended toward a neutral tone.
    Monochromatic {
        hues: Hues,
        hue: u32,
        is_tint: bool,
        is_reversed: bool,
        key_advance: u32,
        neutral_advance: u32,
    },
    /// One hue set against black or white, for fiducial versions.
    MonochromaticFiducial { hue: u32, is_reversed: bool, is_tint: bool },
    /// Two opposite hues, the lighter lightened and the darker darkened.
    Complementary {
        hues: Hues,
        spectrum: u32,
        lighter_advance: u32,
        darker_advance: u32,
        is_reversed: bool,
    },
    /// Two opposite hues around a biased neutral tone, for fiducial versions.
    ComplementaryFiducial {
        spectrum: u32,
        is_tint: bool,
        is_reversed: bool,
        neutral_color_bias: bool,
    },
    /// Three hues a third of the circle apart, ordered by luminance.
    Triadic {
        hues: Hues,
        spectrum: u32,
        lighter_advance: u32,
        darker_advance: u32,
        is_reversed: bool,
    },
    /// Three hues a third of the circle apart with a neutral tone inserted, for
    /// fiducial versions.
    TriadicFiducial {
        spectrum: u32,
        is_tint: bool,
        neutral_insert_index: usize,
        is_reversed: bool,
    },
    /// Four neighbouring hues from dark to light.
    Analogous { hues: Hues, spectrum: u32, advance: u32, is_reversed: bool },
    /// Three neighbouring hues with a neutral tone inserted, for fiducial versions.
    AnalogousFiducial {
        spectrum: u32,
        is_tint: bool,
        neutral_insert_index: usize,
        is_reversed: bool,
    },
}

/// The monochromatic gradient: a 16-bit hue, a tint bit, a direction bit and two
/// 16-bit advances, read from the bits of `data` at `pos`, and where reading stops.
pub open spec fn monochromatic_choice(hues: Hues, data: Seq<u8>, pos: int) -> (Gradient, int) {
    (
        Gradient::Monochromatic {
            hues,
            hue: bits_value(data, pos, 16) as u32,
            is_tint: bit_at(data, pos + 16),
            is_reversed: bit_at(data, pos + 17),
            key_advance: bits_value(data, pos + 18, 16) as u32,
            neutral_advance: bits_value(data, pos + 34, 16) as u32,
        },
        pos + 50,
    )
}

/// The monochromatic fiducial gradient: a 16-bit hue, a direction bit and a tint
/// bit, read from the bits of `data` at `pos`, and where reading stops.
pub open spec fn monochromatic_fiducial_choice(data: Seq<u8>, pos: int) -> (Gradient, int) {
    (
        Gradient::MonochromaticFiducial {
            hue: bits_value(data, pos, 16) as u32,
            is_reversed: bit_at(data, pos + 16),
            is_tint: bit_at(data, pos + 17),
        },
        pos + 18,
    )
}

/// The complementary gradient: a 16-bit spectrum position, two 16-bit advances and
/// a direction bit, read from the bits of `data` at `pos`, and where reading stops.
pub open spec fn complementary_choice(hues: Hues, data: Seq<u8>, pos: int) -> (Gradient, int) {
    (
        Gradient::Complementary {
            hues,
            spectrum: bits_value(data, pos, 16) as u32,
            lighter_advance: bits_value(data, pos + 16, 16) as u32,
            darker_advance: bits_value(data, pos + 32, 16) as u32,
            is_reversed: bit_at(data, pos + 48),
        },
        pos + 49,
    )
}

/// The complementary fiducial gradient: a 16-bit spectrum position, a tint bit, a
/// direction bit and a bias bit, read from the bits of `data` at `pos`, and where reading stops.
pub open spec fn complementary_fiducial_choice(data: Seq<u8>, pos: int) -> (Gradient, int) {
    (
        Gradient::ComplementaryFiducial {
            spectrum: bits_value(data, pos, 16) as u32,
            is_tint: bit_at(data, pos + 16),
            is_reversed: bit_at(data, pos + 17),
            neutral_color_bias: bit_at(data, pos + 18),
        },
        pos + 19,
    )
}

/// The triadic gradient: a 16-bit spectrum position, two 16-bit advances and a
/// direction bit, read from the bits of `data` at `pos`, and where reading stops.
pub open spec fn triadic_choice(hues: Hues, data: Seq<u8>, pos: int) -> (Gradient, int) {
    (
        Gradient::Triadic {
            hues,
            spectrum: bits_value(data, pos, 16) as u32,
            lighter_advance: bits_value(data, pos + 16, 16) as u32,
            darker_advance: bits_value(data, pos + 32, 16) as u32,
            is_reversed: bit_at(data, pos + 48),
        },
        pos + 49,
    )
}

/// The triadic fiducial gradient: a 16-bit spectrum position, a tint bit, a byte
/// whose parity places the neutral colour, and a direction bit, read from the bits of `data` at `pos`, and where reading stops.
pub open spec fn triadic_fiducial_choice(data: Seq<u8>, pos: int) -> (Gradient, int) {
    (
        Gradient::TriadicFiducial {
            spectrum: bits_value(data, pos, 16) as u32,
            is_tint: bit_at(data, pos + 16),
            neutral_insert_index: (bits_value(data, pos + 17, 8) % 2 + 1) as usize,
            is_reversed: bit_at(data, pos + 25),
        },
        pos + 26,
    )
}

/// The analogous gradient: a 16-bit spectrum position, a 16-bit advance and a
/// direction bit, read from the bits of `data` at `pos`, and where reading stops.
pub open spec fn analogous_choice(hues: Hues, data: Seq<u8>, pos: int) -> (Gradient, int) {
    (
        Gradient::Analogous {
            hues,
            spectrum: bits_value(data, pos, 16) as u32,
            advance: bits_value(data, pos + 16, 16) as u32,
            is_reversed: bit_at(data, pos + 32),
        },
        pos + 33,
    )
}

/// The analogous fiducial gradient: a 16-bit spectrum position, a tint bit, a byte
/// whose parity places the neutral colour, and a direction bit, read from the bits of `data` at `pos`, and where reading stops.
pub open spec fn analogous_fiducial_choice(data: Seq<u8>, pos: int) -> (Gradient, int) {
    (
        Gradient::AnalogousFiducial {
            spectrum: bits_value(data, pos, 16) as u32,
            is_tint: bit_at(data, pos + 16),
            neutral_insert_index: (bits_value(data, pos + 17, 8) % 2 + 1) as usize,
            is_reversed: bit_at(data, pos + 25),
        },
        pos + 26,
    )
}

/// The gradient a version chooses from the bits of `data` at `pos`, and where reading
/// stops.
pub open spec fn gradient_choice(version: Version, data: Seq<u8>, pos: int) -> (Gradient, int) {
    if version == Version::GrayscaleFiducial {
        (Gradient::Grayscale { reversed: !bit_at(data, pos) }, pos + 1)
    } else {
        let value = bits_value(data, pos, 2);
        let p = pos + 2;
        let hues = if version == Version::Version1 {
            Hues::Spectrum
        } else {
            Hues::SpectrumCmykSafe
        };
        if value == 0 {
            match version {
                Version::Version1 => monochromatic_choice(Hues::Hsb, data, p),
                Version::Fiducial => monochromatic_fiducial_choice(data, p),
                Version::GrayscaleFiducial => (Gradient::Grayscale { reversed: false }, p),
                _ => monochromatic_choice(Hues::SpectrumCmykSafe, data, p),
            }
        } else if value == 1 {
            match version {
                Version::Fiducial => complementary_fiducial_choice(data, p),
                Version::GrayscaleFiducial => (Gradient::Grayscale { reversed: false }, p),
                _ => complementary_choice(hues, data, p),
            }
        } else if value == 2 {
            match version {
                Version::Fiducial => triadic_fiducial_choice(data, p),
                Version::GrayscaleFiducial => (Gradient::Grayscale { reversed: false }, p),
                _ => triadic_choice(hues, data, p),
            }
        } else {
            match version {
                Version::Fiducial => analogous_fiducial_choice(data, p),
                Version::GrayscaleFiducial => (Gradient::Grayscale { reversed: false }, p),
                _ => analogous_choice(hues, data, p),
            }
        }
    }
}

/// The bit layout of the gradient choice, read from position `pos` on. The grayscale
/// fiducial version reads one bit: set for black to white, clear for white to black.
/// Every other version reads a two-bit scheme number (most significant bit first) and
/// then, from `q = pos + 2`, the scheme's fields in this order: 16-bit numbers, most
/// significant bit first, and single flag bits. Versions 2 and detailed read exactly as
/// version 1 does, but take all hues from the CMYK-safe spectrum, where version 1 takes
/// monochromatic hues from the HSB wheel and the others from the full spectrum.
pub proof fn lemma_gradient_layout(version: Version, data: Seq<u8>, pos: int)
    ensures
        version != Version::GrayscaleFiducial ==> bits_value(data, pos, 2) < 4,
        version == Version::GrayscaleFiducial ==> gradient_choice(version, data, pos) == (
            Gradient::Grayscale { reversed: !bit_at(data, pos) },
            pos + 1,
        ),
        version == Version::Version1 && bits_value(data, pos, 2) == 0 ==> gradient_choice(version, data, pos) == (Gradient::Monochromatic {
                hues: Hues::Hsb,
                hue: bits_value(data, pos + 2, 16) as u32,
                is_tint: bit_at(data, pos + 2 + 16),
                is_reversed: bit_at(data, pos + 2 + 17),
                key_advance: bits_value(data, pos + 2 + 18, 16) as u32,
                neutral_advance: bits_value(data, pos + 2 + 34, 16) as u32,
            }, pos + 2 + 50),
        (version == Version::Version2 || version == Version::Detailed) && bits_value(data, pos, 2) == 0 ==> gradient_choice(version, data, pos) == (Gradient::Monochromatic {
                hues: Hues::SpectrumCmykSafe,
                hue: bits_value(data, pos + 2, 16) as u32,
                is_tint: bit_at(data, pos + 2 + 16),
                is_reversed: bit_at(data, pos + 2 + 17),
                key_advance: bits_value(data, pos + 2 + 18, 16) as u32,
                neutral_advance: bits_value(data, pos + 2 + 34, 16) as u32,
            }, pos + 2 + 50),
        version == Version::Fiducial && bits_value(data, pos, 2) == 0 ==> gradient_choice(version, data, pos) == (Gradient::MonochromaticFiducial {
                hue: bits_value(data, pos + 2, 16) as u32,
                is_reversed: bit_at(data, pos + 2 + 16),
                is_tint: bit_at(data, pos + 2 + 17),
            }, pos + 2 + 18),
        version == Version::Version1 && bits_value(data, pos, 2) == 1 ==> gradient_choice(version, data, pos) == (Gradient::Complementary {
                hues: Hues::Spectrum,
                spectrum: bits_value(data, pos + 2, 16) as u32,
                lighter_advance: bits_value(data, pos + 2 + 16, 16) as u32,
                darker_advance: bits_value(data, pos + 2 + 32, 16) as u32,
                is_reversed: bit_at(data, pos + 2 + 48),
            }, pos + 2 + 49),
        (version == Version::Version2 || version == Version::Detailed) && bits_value(data, pos, 2) == 1 ==> gradient_choice(version, data, pos) == (Gradient::Complementary {
                hues: Hues::SpectrumCmykSafe,
                spectrum: bits_value(data, pos + 2, 16) as u32,
                lighter_advance: bits_value(data, pos + 2 + 16, 16) as u32,
                darker_advance: bits_value(data, pos + 2 + 32, 16) as u32,
                is_reversed: bit_at(data, pos + 2 + 48),
            }, pos + 2 + 49),
        version == Version::Fiducial && bits_value(data, pos, 2) == 1 ==> gradient_choice(version, data, pos) == (Gradient::ComplementaryFiducial {
                spectrum: bits_value(data, pos + 2, 16) as u32,
                is_tint: bit_at(data, pos + 2 + 16),
                is_reversed: bit_at(data, pos + 2 + 17),
                neutral_color_bias: bit_at(data, pos + 2 + 18),
            }, pos + 2 + 19),
        version == Version::Version1 && bits_value(data, pos, 2) == 2 ==> gradient_choice(version, data, pos) == (Gradient::Triadic {
                hues: Hues::Spectrum,
                spectrum: bits_value(data, pos + 2, 16) as u32,
                lighter_advance: bits_value(data, pos + 2 + 16, 16) as u32,
                darker_advance: bits_value(data, pos + 2 + 32, 16) as u32,
                is_reversed: bit_at(data, pos + 2 + 48),
            }, pos + 2 + 49),
        (version == Version::Version2 || version == Version::Detailed) && bits_value(data, pos, 2) == 2 ==> gradient_choice(version, data, pos) == (Gradient::Triadic {
                hues: Hues::SpectrumCmykSafe,
                spectrum: bits_value(data, pos + 2, 16) as u32,
                lighter_advance: bits_value(data, pos + 2 + 16, 16) as u32,
                darker_advance: bits_value(data, pos + 2 + 32, 16) as u32,
                is_reversed: bit_at(data, pos + 2 + 48),
            }, pos + 2 + 49),
        version == Version::Fiducial && bits_value(data, pos, 2) == 2 ==> gradient_choice(version, data, pos) == (Gradient::TriadicFiducial {
                spectrum: bits_value(data, pos + 2, 16) as u32,
                is_tint: bit_at(data, pos + 2 + 16),
                neutral_insert_index: (1 + bits_value(data, pos + 2 + 17, 8) % 2) as usize,
                is_reversed: bit_at(data, pos + 2 + 25),
            }, pos + 2 + 26),
        version == Version::Version1 && bits_value(data, pos, 2) == 3 ==> gradient_choice(version, data, pos) == (Gradient::Analogous {
                hues: Hues::Spectrum,
                spectrum: bits_value(data, pos + 2, 16) as u32,
                advance: bits_value(data, pos + 2 + 16, 16) as u32,
                is_reversed: bit_at(data, pos + 2 + 32),
            }, pos + 2 + 33),
        (version == Version::Version2 || version == Version::Detailed) && bits_value(data, pos, 2) == 3 ==> gradient_choice(version, data, pos) == (Gradient::Analogous {
                hues: Hues::SpectrumCmykSafe,
                spectrum: bits_value(data, pos + 2, 16) as u32,
                advance: bits_value(data, pos + 2 + 16, 16) as u32,
                is_reversed: bit_at(data, pos + 2 + 32),
            }, pos + 2 + 33),
        version == Version::Fiducial && bits_value(data, pos, 2) == 3 ==> gradient_choice(version, data, pos) == (Gradient::AnalogousFiducial {
                spectrum: bits_value(data, pos + 2, 16) as u32,
                is_tint: bit_at(data, pos + 2 + 16),
                neutral_insert_index: (1 + bits_value(data, pos + 2 + 17, 8) % 2) as usize,
                is_reversed: bit_at(data, pos + 2 + 25),
            }, pos + 2 + 26),
        gradient_choice(Version::Version2, data, pos) == gradient_choice(Version::Detailed, data, pos),
{
    assert(bits_value(data, pos, 0) == 0);
    assert(bits_value(data, pos, 1) <= 1);
}

fn monochromatic(entropy: &mut BitEnumerator, hues: Hues) -> (g: Gradient)
    requires
        old(entropy).wf(),
        monochromatic_choice(
            hues,
            old(entropy).source(),
            old(entropy).position(),
        ).1 <= 8 * old(entropy).source().len(),
    ensures
        final(entropy).wf(),
        final(entropy).source() == old(entropy).source(),
        (g, final(entropy).position()) == monochromatic_choice(
            hues,
            old(entropy).source(),
            old(entropy).position(),
        ),
{
    let hue = entropy.next_uint16();
    let is_tint = entropy.next();
    let is_reversed = entropy.next();
    let key_advance = entropy.next_uint16();
    let neutral_advance = entropy.next_uint16();
    Gradient::Monochromatic { hues, hue, is_tint, is_reversed, key_advance, neutral_advance }
}

fn monochromatic_fiducial(entropy: &mut BitEnumerator) -> (g: Gradient)
    requires
        old(entropy).wf(),
        monochromatic_fiducial_choice(
            old(entropy).source(),
            old(entropy).position(),
        ).1 <= 8 * old(entropy).source().len(),
    ensures
        final(entropy).wf(),
        final(entropy).source() == old(entropy).source(),
        (g, final(entropy).position()) == monochromatic_fiducial_choice(
            old(entropy).source(),
            old(entropy).position(),
        ),
{
    let hue = entropy.next_uint16();
    let is_reversed = entropy.next();
    let is_tint = entropy.next();
    Gradient::MonochromaticFiducial { hue, is_reversed, is_tint }
}

fn complementary(entropy: &mut BitEnumerator, hues: Hues) -> (g: Gradient)
    requires
        old(entropy).wf(),
        complementary_choice(
            hues,
            old(entropy).source(),
            old(entropy).position(),
        ).1 <= 8 * old(entropy).source().len(),
    ensures
        final(entropy).wf(),
        final(entropy).source() == old(entropy).source(),
        (g, final(entropy).position()) == complementary_choice(
            hues,
            old(entropy).source(),
            old(entropy).position(),
        ),
{
    let spectrum = entropy.next_uint16();
    let lighter_advance = entropy.next_uint16();
    let darker_advance = entropy.next_uint16();
    let is_reversed = entropy.next();
    Gradient::Complementary { hues, spectrum, lighter_advance, darker_advance, is_reversed }
}

fn complementary_fiducial(entropy: &mut BitEnumerator) -> (g: Gradient)
    requires
        old(entropy).wf(),
        complementary_fiducial_choice(
            old(entropy).source(),
            old(entropy).position(),
        ).1 <= 8 * old(entropy).source().len(),
    ensures
        final(entropy).wf(),
        final(entropy).source() == old(entropy).source(),
        (g, final(entropy).position()) == complementary_fiducial_choice(
            old(entropy).source(),
            old(entropy).position(),
        ),
{
    let spectrum = entropy.next_uint16();
    let is_tint = entropy.next();
    let is_reversed = entropy.next();
    let neutral_color_bias = entropy.next();
    Gradient::ComplementaryFiducial { spectrum, is_tint, is_reversed, neutral_color_bias }
}

fn triadic(entropy: &mut BitEnumerator, hues: Hues) -> (g: Gradient)
    requires
        old(entropy).wf(),
        triadic_choice(
            hues,
            old(entropy).source(),
            old(entropy).position(),
        ).1 <= 8 * old(entropy).source().len(),
    ensures
        final(entropy).wf(),
        final(entropy).source() == old(entropy).source(),
        (g, final(entropy).position()) == triadic_choice(
            hues,
            old(entropy).source(),
            old(entropy).position(),
        ),
{
    let spectrum = entropy.next_uint16();
    let lighter_advance = entropy.next_uint16();
    let darker_advance = entropy.next_uint16();
    let is_reversed = entropy.next();
    Gradient::Triadic { hues, spectrum, lighter_advance, darker_advance, is_reversed }
}

fn triadic_fiducial(entropy: &mut BitEnumerator) -> (g: Gradient)
    requires
        old(entropy).wf(),
        triadic_fiducial_choice(
            old(entropy).source(),
            old(entropy).position(),
        ).1 <= 8 * old(entropy).source().len(),
    ensures
        final(entropy).wf(),
        final(entropy).source() == old(entropy).source(),
        (g, final(entropy).position()) == triadic_fiducial_choice(
            old(entropy).source(),
            old(entropy).position(),
        ),
{
    let spectrum = entropy.next_uint16();
    let is_tint = entropy.next();
    let neutral_insert_index = (entropy.next_uint8() % 2 + 1) as usize;
    let is_reversed = entropy.next();
    Gradient::TriadicFiducial { spectrum, is_tint, neutral_insert_index, is_reversed }
}

fn analogous(entropy: &mut BitEnumerator, hues: Hues) -> (g: Gradient)
    requires
        old(entropy).wf(),
        analogous_choice(
            hues,
            old(entropy).source(),
            old(entropy).position(),
        ).1 <= 8 * old(entropy).source().len(),
    ensures
        final(entropy).wf(),
        final(entropy).source() == old(entropy).source(),
        (g, final(entropy).position()) == analogous_choice(
            hues,
            old(entropy).source(),
            old(entropy).position(),
        ),
{
    let spectrum = entropy.next_uint16();
    let advance = entropy.next_uint16();
    let is_reversed = entropy.next();
    Gradient::Analogous { hues, spectrum, advance, is_reversed }
}

fn analogous_fiducial(entropy: &mut BitEnumerator) -> (g: Gradient)
    requires
        old(entropy).wf(),
        analogous_fiducial_choice(
            old(entropy).source(),
            old(entropy).position(),
        ).1 <= 8 * old(entropy).source().len(),
    ensures
        final(entropy).wf(),
        final(entropy).source() == old(entropy).source(),
        (g, final(entropy).position()) == analogous_fiducial_choice(
            old(entropy).source(),
            old(entropy).position(),
        ),
{
    let spectrum = entropy.next_uint16();
    let is_tint = entropy.next();
    let neutral_insert_index = (entropy.next_uint8() % 2 + 1) as usize;
    let is_reversed = entropy.next();
    Gradient::AnalogousFiducial { spectrum, is_tint, neutral_insert_index, is_reversed }
}

fn select_grayscale(entropy: &mut BitEnumerator) -> (g: Gradient)
    requires
        old(entropy).wf(),
        old(entropy).can_read(1),
    ensures
        final(entropy).wf(),
        final(entropy).source() == old(entropy).source(),
        final(entropy).position() == old(entropy).position() + 1,
        g == (Gradient::Grayscale { reversed: !bit_at(old(entropy).source(), old(entropy).position()) }),
{
    if entropy.next() {
        Gradient::Grayscale { reversed: false }
    } else {
        Gradient::Grayscale { reversed: true }
    }
}

/// Chooses the gradient: the grayscale fiducial version reads one bit for the
/// direction; every other version reads a two-bit scheme (monochromatic,
/// complementary, triadic, analogous) and then that scheme's parameters.
pub fn select_gradient(entropy: &mut BitEnumerator, version: Version) -> (g: Gradient)
    requires
        old(entropy).wf(),
        gradient_choice(version, old(entropy).source(), old(entropy).position()).1 <= 8
            * old(entropy).source().len(),
    ensures
        final(entropy).wf(),
        final(entropy).source() == old(entropy).source(),
        (g, final(entropy).position()) == gradient_choice(
            version,
            old(entropy).source(),
            old(entropy).position(),
        ),
{
    if version == Version::GrayscaleFiducial {
        return select_grayscale(entropy);
    }
    let value = entropy.next_uint2();
    proof {
        let d = old(entropy).source();
        let p = old(entropy).position();
        assert(bits_value(d, p, 0) == 0);
        assert(bits_value(d, p, 1) <= 1);
        assert(value < 4);
    }
    match value {
        0 => match version {
            Version::Version1 => monochromatic(entropy, Hues::Hsb),
            Version::Version2 | Version::Detailed => monochromatic(entropy, Hues::SpectrumCmykSafe),
            Version::Fiducial => monochromatic_fiducial(entropy),
            Version::GrayscaleFiducial => Gradient::Grayscale { reversed: false },
        },
        1 => match version {
            Version::Version1 => complementary(entropy, Hues::Spectrum),
            Version::Version2 | Version::Detailed => complementary(entropy, Hues::SpectrumCmykSafe),
            Version::Fiducial => complementary_fiducial(entropy),
            Version::GrayscaleFiducial => Gradient::Grayscale { reversed: false },
        },
        2 => match version {
            Version::Version1 => triadic(entropy, Hues::Spectrum),
            Version::Version2 | Version::Detailed => triadic(entropy, Hues::SpectrumCmykSafe),
            Version::Fiducial => triadic_fiducial(entropy),
            Version::GrayscaleFiducial => Gradient::Grayscale { reversed: false },
        },
        3 => match version {
            Version::Version1 => analogous(entropy, Hues::Spectrum),
            Version::Version2 | Version::Detailed => analogous(entropy, Hues::SpectrumCmykSafe),
            Version::Fiducial => analogous_fiducial(entropy),
            Version::GrayscaleFiducial => Gradient::Grayscale { reversed: false },
        },
        _ => Gradient::Grayscale { reversed: false },
    }
}

} // verus!
