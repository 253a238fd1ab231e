//! Colour effects for visual accessibility, and the overlay palettes that
//! rail-mode drawing uses with each of them.  Colours are plain ARGB
//! bytes; the host's graphics layer turns them into paints.

use vstd::prelude::*;

verus! {

/// Colour effect applied to page content.
#[derive(Clone, Copy, Debug, PartialEq, Eq, Structural, Default)]
pub enum ColourEffect {
    #[default]
    Plain,
    HighContrast,
    HighVisibility,
    Amber,
    Invert,
}

/// One colour as alpha, red, green and blue bytes.
#[derive(Clone, Copy, Debug, PartialEq, Eq, Structural)]
pub struct Argb {
    pub a: u8,
    pub r: u8,
    pub g: u8,
    pub b: u8,
}

/// Colours used by rail-mode overlays, adapted per colour effect so they
/// complement rather than fight the filtered content.
#[derive(Clone, Copy, Debug)]
pub struct OverlayPalette {
    /// Semi-transparent fill drawn over the page to de-emphasise
    /// non-active blocks.
    pub dim: Argb,
    /// Additive reveal colour drawn over the active block; `None` skips
    /// the reveal step (outline only).
    pub block_reveal: Option<Argb>,
    /// Stroke colour of the active block outline.
    pub block_outline: Argb,
    /// Stroke width of the active block outline, in tenths of a pixel.
    pub block_outline_width_tenths: u8,
    /// Fill colour of the current-line highlight band.
    pub line_highlight: Argb,
}

/// The palette each effect uses.
pub open spec fn spec_overlay_palette(e: ColourEffect) -> OverlayPalette {
    match e {
        ColourEffect::Plain => OverlayPalette {
            dim: Argb { a: 120, r: 0, g: 0, b: 0 },
            block_reveal: Option::Some(Argb { a: 120, r: 255, g: 255, b: 255 }),
            block_outline: Argb { a: 80, r: 66, g: 133, b: 244 },
            block_outline_width_tenths: 15,
            line_highlight: Argb { a: 40, r: 66, g: 133, b: 244 },
        },
        ColourEffect::HighContrast => OverlayPalette {
            dim: Argb { a: 100, r: 60, g: 60, b: 60 },
            block_reveal: Option::None,
            block_outline: Argb { a: 200, r: 0, g: 255, b: 255 },
            block_outline_width_tenths: 25,
            line_highlight: Argb { a: 50, r: 0, g: 255, b: 255 },
        },
        ColourEffect::HighVisibility => OverlayPalette {
            dim: Argb { a: 100, r: 40, g: 40, b: 0 },
            block_reveal: Option::None,
            block_outline: Argb { a: 200, r: 255, g: 230, b: 0 },
            block_outline_width_tenths: 25,
            line_highlight: Argb { a: 45, r: 255, g: 230, b: 0 },
        },
        ColourEffect::Amber => OverlayPalette {
            dim: Argb { a: 110, r: 20, g: 10, b: 0 },
            block_reveal: Option::Some(Argb { a: 100, r: 255, g: 220, b: 160 }),
            block_outline: Argb { a: 120, r: 255, g: 180, b: 60 },
            block_outline_width_tenths: 15,
            line_highlight: Argb { a: 35, r: 255, g: 180, b: 60 },
        },
        ColourEffect::Invert => OverlayPalette {
            dim: Argb { a: 100, r: 60, g: 60, b: 60 },
            block_reveal: Option::None,
            block_outline: Argb { a: 180, r: 0, g: 220, b: 120 },
            block_outline_width_tenths: 20,
            line_highlight: Argb { a: 40, r: 0, g: 220, b: 120 },
        },
    }
}

impl ColourEffect {
    /// The overlay palette tuned for this colour effect.
    pub fn overlay_palette(&self) -> (r: OverlayPalette)
        ensures
            r == spec_overlay_palette(*self),
    {
        match self {
            ColourEffect::Plain => OverlayPalette {
                dim: Argb { a: 120, r: 0, g: 0, b: 0 },
                block_reveal: Some(Argb { a: 120, r: 255, g: 255, b: 255 }),
                block_outline: Argb { a: 80, r: 66, g: 133, b: 244 },
                block_outline_width_tenths: 15,
                line_highlight: Argb { a: 40, r: 66, g: 133, b: 244 },
            },
            ColourEffect::HighContrast => OverlayPalette {
                dim: Argb { a: 100, r: 60, g: 60, b: 60 },
                block_reveal: None,
                block_outline: Argb { a: 200, r: 0, g: 255, b: 255 },
                block_outline_width_tenths: 25,
                line_highlight: Argb { a: 50, r: 0, g: 255, b: 255 },
            },
            ColourEffect::HighVisibility => OverlayPalette {
                dim: Argb { a: 100, r: 40, g: 40, b: 0 },
                block_reveal: None,
                block_outline: Argb { a: 200, r: 255, g: 230, b: 0 },
                block_outline_width_tenths: 25,
                line_highlight: Argb { a: 45, r: 255, g: 230, b: 0 },
            },
            ColourEffect::Amber => OverlayPalette {
                dim: Argb { a: 110, r: 20, g: 10, b: 0 },
                block_reveal: Some(Argb { a: 100, r: 255, g: 220, b: 160 }),
                block_outline: Argb { a: 120, r: 255, g: 180, b: 60 },
                block_outline_width_tenths: 15,
                line_highlight: Argb { a: 35, r: 255, g: 180, b: 60 },
            },
            ColourEffect::Invert => OverlayPalette {
                dim: Argb { a: 100, r: 60, g: 60, b: 60 },
                block_reveal: None,
                block_outline: Argb { a: 180, r: 0, g: 220, b: 120 },
                block_outline_width_tenths: 20,
                line_highlight: Argb { a: 40, r: 0, g: 220, b: 120 },
            },
        }
    }

    /// The effect's display name.
    pub fn label(&self) -> (r: &'static str)
        ensures
            match *self {
                ColourEffect::Plain => r@ == "None"@,
                ColourEffect::HighContrast => r@ == "High Contrast"@,
                ColourEffect::HighVisibility => r@ == "High Visibility"@,
                ColourEffect::Amber => r@ == "Amber Filter"@,
                ColourEffect::Invert => r@ == "Invert"@,
            },
    {
        match self {
            ColourEffect::Plain => "None",
            ColourEffect::HighContrast => "High Contrast",
            ColourEffect::HighVisibility => "High Visibility",
            ColourEffect::Amber => "Amber Filter",
            ColourEffect::Invert => "Invert",
        }
    }
}

} // verus!
