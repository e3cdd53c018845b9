//! Border styles and the glyphs they draw with.

use vstd::prelude::*;

verus! {

/// The look of a panel's frame.
#[derive(Clone, Copy, Debug, PartialEq, Eq, Structural)]
pub enum BorderStyle {
    /// A frame of spaces.
    Blank,
    /// Single-line box drawing characters.
    Light,
    /// Double-line box drawing characters.
    Double,
}

/// The six glyphs of a frame.
#[derive(Clone, Copy, Debug, PartialEq, Eq, Structural)]
pub struct Glyphs {
    pub horizontal: char,
    pub vertical: char,
    pub top_left: char,
    pub top_right: char,
    pub bottom_right: char,
    pub bottom_left: char,
}

impl BorderStyle {
    /// The style that a numeric code selects: 1 is light, 2 is double, and
    /// every other code draws no visible frame.
    pub open spec fn of_code(code: u8) -> BorderStyle {
        if code == 1 {
            BorderStyle::Light
        } else if code == 2 {
            BorderStyle::Double
        } else {
            BorderStyle::Blank
        }
    }

    /// The glyph set of this style.
    pub open spec fn spec_glyphs(self) -> Glyphs {
        match self {
            BorderStyle::Blank => Glyphs {
                horizontal: ' ',
                vertical: ' ',
                top_left: ' ',
                top_right: ' ',
                bottom_right: ' ',
                bottom_left: ' ',
            },
            BorderStyle::Light => Glyphs {
                horizontal: '─',
                vertical: '│',
                top_left: '┌',
                top_right: '┐',
                bottom_right: '┘',
                bottom_left: '└',
            },
            BorderStyle::Double => Glyphs {
                horizontal: '═',
                vertical: '║',
                top_left: '╔',
                top_right: '╗',
                bottom_right: '╝',
                bottom_left: '╚',
            },
        }
    }

    /// Decodes a numeric style code.
    pub fn from_code(code: u8) -> (style: BorderStyle)
        ensures
            style == BorderStyle::of_code(code),
    {
        if code == 1 {
            BorderStyle::Light
        } else if code == 2 {
            BorderStyle::Double
        } else {
            BorderStyle::Blank
        }
    }

    /// The glyph set of this style.
    #[verifier::when_used_as_spec(spec_glyphs)]
    pub fn glyphs(self) -> (g: Glyphs)
        ensures
            g == self.spec_glyphs(),
    {
        match self {
            BorderStyle::Blank => Glyphs {
                horizontal: ' ',
                vertical: ' ',
                top_left: ' ',
                top_right: ' ',
                bottom_right: ' ',
                bottom_left: ' ',
            },
            BorderStyle::Light => Glyphs {
                horizontal: '─',
                vertical: '│',
                top_left: '┌',
                top_right: '┐',
                bottom_right: '┘',
                bottom_left: '└',
            },
            BorderStyle::Double => Glyphs {
                horizontal: '═',
                vertical: '║',
                top_left: '╔',
                top_right: '╗',
                bottom_right: '╝',
                bottom_left: '╚',
            },
        }
    }
}

} // verus!
