//! Why a render can fail.

use vstd::prelude::*;

verus! {

/// A failure while painting. It ends the render of the widget that met it and of every
/// stack around that widget.
#[derive(Clone, Copy, Debug, PartialEq, Eq, Structural)]
pub enum RenderError {
    /// The font has no glyph for this character.
    GlyphNotFound(char),
    /// The palette does not know the colour that a text names.
    ColorResolutionFailed,
}

} // verus!
