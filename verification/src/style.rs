//! Design tokens shared by the self-drawn widgets: the semantic color
//! palette and the named easing curves of the animation layer.

use vstd::prelude::*;
use crate::color::Color;

verus! {

/// Semantic colors. Names describe *role*, not hue, so light/dark/custom
/// themes can supply different values for the same role.
#[derive(Clone, Copy, Debug, PartialEq, Eq, Structural)]
pub struct Palette {
    /// Window/background fill.
    pub background: Color,
    /// Raised surface (cards, panels).
    pub surface: Color,
    /// Primary accent (default button, selection).
    pub primary: Color,
    /// Primary under hover.
    pub primary_hover: Color,
    /// Primary while pressed/active.
    pub primary_active: Color,
    /// Content drawn on top of `primary`.
    pub on_primary: Color,
    /// Default text/icon color on `background`/`surface`.
    pub text: Color,
    /// De-emphasized text.
    pub text_muted: Color,
    /// Hairline borders and dividers.
    pub border: Color,
    /// Positive / success status.
    pub success: Color,
    /// Caution / warning status.
    pub warning: Color,
    /// Destructive / error status.
    pub danger: Color,
    /// Focus-ring color drawn around the focused element.
    pub focus_ring: Color,
    /// Translucent overlay composited on a hovered element.
    pub hover_overlay: Color,
    /// Translucent highlight behind selected text.
    pub selection: Color,
}

/// A copy of `c` with its alpha replaced (state layers and selection tints).
pub fn with_alpha(c: Color, a: u8) -> (r: Color)
    ensures
        r == (Color { r: c.r, g: c.g, b: c.b, a }),
{
    Color::rgba(c.r, c.g, c.b, a)
}

/// Standard easing curves, mapping normalized time `t ∈ [0, 1]` to eased
/// progress. The curves themselves are evaluated in floating point by the
/// animation driver; this is the curve's name as widgets store and compare it.
#[derive(Clone, Copy, Debug, PartialEq, Eq, Default, Structural)]
pub enum Easing {
    #[default]
    Linear,
    EaseIn,
    EaseOut,
    EaseInOut,
}

} // verus!
