//! Panels: construction and access.

use crate::border::BorderStyle;
use crate::error::{Fault, LayoutError};
use crate::panel::{layout, lemma_layout_wf, Panel};
use crate::words::{split, split_words};
use crate::wrap::{all_fit, first_misfit, lemma_misfit_exists, pack, shown, wrap_words};
use vstd::prelude::*;
use vstd::string::*;

verus! {

/// A laid-out panel. Its fields are fixed at construction, and every value of
/// this type is well formed.
#[derive(Debug)]
pub struct TextBox {
    x: u8,
    y: u8,
    width: u8,
    height: u8,
    border: BorderStyle,
    title: String,
    lines: Vec<String>,
}

impl View for TextBox {
    type V = Panel;

    closed spec fn view(&self) -> Panel {
        Panel {
            x: self.x as nat,
            y: self.y as nat,
            width: self.width as nat,
            height: self.height as nat,
            border: self.border,
            title: self.title@,
            lines: self.lines.deep_view(),
        }
    }
}

/// The model of what a construction returned.
pub open spec fn outcome(r: Result<TextBox, LayoutError>) -> Result<Panel, Fault> {
    match r {
        Ok(b) => Ok(b@),
        Err(e) => Err(e@),
    }
}

impl TextBox {
    #[verifier::type_invariant]
    spec fn well_formed(self) -> bool {
        self@.wf()
    }

    /// Lays out a panel whose top-left corner is at column `x`, row `y`, and
    /// whose interior is `width` cells wide and `height` cells high. `border`
    /// is a style code: 1 is light, 2 is double, anything else is blank.
    ///
    /// Lengths are counted in characters. The title must fit in `width`. The
    /// body is split at its spaces and packed greedily; a word that is a lone
    /// line feed forces a line break. The first word longer than `width` is an
    /// error, and so is a body of more than `height` lines.
    pub fn new(x: u8, y: u8, width: u8, height: u8, border: u8, title: &str, text: &str) -> (r:
        Result<TextBox, LayoutError>)
        ensures
            outcome(r) == layout(x, y, width, height, border, title@, text@),
            r matches Ok(b) ==> b@.wf(),
            r matches Ok(b) ==> forall|i: int|
                0 <= i < b@.lines.len() ==> shown(#[trigger] b@.lines[i]).len() <= width,
            r is Ok <==> ({
                &&& title@.len() <= width
                &&& all_fit(split(text@), width as nat)
                &&& pack(split(text@), width as nat).len() <= height
            }),
            r matches Err(LayoutError::TitleTooLong { .. }) <==> title@.len() > width,
            r matches Err(LayoutError::WordTooLong { .. }) <==> ({
                &&& title@.len() <= width
                &&& !all_fit(split(text@), width as nat)
            }),
            r matches Err(LayoutError::WordTooLong { word }) ==> exists|i: int|
                first_misfit(split(text@), width as nat, i) && word@ == split(text@)[i],
            r matches Err(LayoutError::TooManyLines { .. }) <==> ({
                &&& title@.len() <= width
                &&& all_fit(split(text@), width as nat)
                &&& pack(split(text@), width as nat).len() > height
            }),
    {
        proof {
            lemma_layout_wf(x, y, width, height, border, title@, text@);
            if !all_fit(split(text@), width as nat) {
                lemma_misfit_exists(split(text@), width as nat);
            }
        }
        if title.unicode_len() > width as usize {
            return Err(LayoutError::TitleTooLong { title: title.to_owned() });
        }
        let words = split_words(text);
        let lines = match wrap_words(&words, width) {
            Ok(lines) => lines,
            Err(e) => {
                return Err(e);
            },
        };
        if lines.len() > height as usize {
            return Err(LayoutError::TooManyLines { count: lines.len() });
        }
        Ok(
            TextBox {
                x,
                y,
                width,
                height,
                border: BorderStyle::from_code(border),
                title: title.to_owned(),
                lines,
            },
        )
    }

    /// The column of the top-left corner.
    pub fn x(&self) -> (r: u8)
        ensures
            r == self@.x,
    {
        self.x
    }

    /// The row of the top-left corner.
    pub fn y(&self) -> (r: u8)
        ensures
            r == self@.y,
    {
        self.y
    }

    /// The number of columns inside the frame.
    pub fn width(&self) -> (r: u8)
        ensures
            r == self@.width,
    {
        self.width
    }

    /// The number of rows inside the frame.
    pub fn height(&self) -> (r: u8)
        ensures
            r == self@.height,
    {
        self.height
    }

    /// The style of the frame.
    pub fn border(&self) -> (r: BorderStyle)
        ensures
            r == self@.border,
    {
        self.border
    }

    /// The title, which fits in the panel's width.
    pub fn title(&self) -> (r: &str)
        ensures
            r@ == self@.title,
            self@.wf(),
    {
        proof {
            use_type_invariant(self);
        }
        self.title.as_str()
    }

    /// The wrapped body: at least one line and at most as many as the panel
    /// is high, each a fitting line.
    pub fn lines(&self) -> (r: &Vec<String>)
        ensures
            r.deep_view() == self@.lines,
            self@.wf(),
    {
        proof {
            use_type_invariant(self);
        }
        &self.lines
    }
}

} // verus!
