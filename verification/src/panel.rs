//! The mathematical model of a laid-out panel.

use crate::border::BorderStyle;
use crate::error::Fault;
use crate::words::split;
use crate::wrap::{all_fit, is_break, lemma_pack_fits, line_fits, pack, packing, wrapped};
use vstd::prelude::*;

verus! {

/// The largest anchor coordinate, and the largest width and height of an
/// interior. Nothing is reduced to this range: longer titles, longer words and
/// higher bodies are layout errors.
pub const MAX_EXTENT: u8 = 255;

/// A panel: its anchor, the size of its interior, its frame, its title and
/// its wrapped body.
pub ghost struct Panel {
    pub x: nat,
    pub y: nat,
    pub width: nat,
    pub height: nat,
    pub border: BorderStyle,
    pub title: Seq<char>,
    pub lines: Seq<Seq<char>>,
}

impl Panel {
    /// What holds of every panel that was laid out: all extents are within
    /// [`MAX_EXTENT`], the title is no wider than the interior, and the body
    /// has at least one line, no more lines than the interior has rows, and
    /// only lines that fit.
    pub open spec fn wf(self) -> bool {
        &&& self.x <= MAX_EXTENT
        &&& self.y <= MAX_EXTENT
        &&& self.width <= MAX_EXTENT
        &&& self.height <= MAX_EXTENT
        &&& self.title.len() <= self.width
        &&& 1 <= self.lines.len() <= self.height
        &&& forall|i: int|
            0 <= i < self.lines.len() ==> line_fits(#[trigger] self.lines[i], self.width)
    }
}

/// What laying out a panel gives. The title is checked first, then the words
/// of the body in order, then the number of lines.
pub open spec fn layout(
    x: u8,
    y: u8,
    width: u8,
    height: u8,
    border: u8,
    title: Seq<char>,
    text: Seq<char>,
) -> Result<Panel, Fault> {
    if title.len() > width {
        Err(Fault::TitleTooLong(title))
    } else {
        match wrapped(split(text), width as nat) {
            Err(fault) => Err(fault),
            Ok(lines) => if lines.len() > height {
                Err(Fault::TooManyLines(lines.len()))
            } else {
                Ok(
                    Panel {
                        x: x as nat,
                        y: y as nat,
                        width: width as nat,
                        height: height as nat,
                        border: BorderStyle::of_code(border),
                        title,
                        lines,
                    },
                )
            },
        }
    }
}

/// A layout that succeeds gives a well-formed panel.
pub proof fn lemma_layout_wf(
    x: u8,
    y: u8,
    width: u8,
    height: u8,
    border: u8,
    title: Seq<char>,
    text: Seq<char>,
)
    ensures
        layout(x, y, width, height, border, title, text) matches Ok(p) ==> p.wf(),
{
    if all_fit(split(text), width as nat) {
        lemma_pack_fits(split(text), width as nat);
    }
}

/// A panel without body text has one line, which shows nothing: it holds the
/// empty word and the space after it.
pub proof fn lemma_empty_body(x: u8, y: u8, width: u8, height: u8, border: u8, title: Seq<char>)
    requires
        title.len() <= width,
        height >= 1,
    ensures
        layout(x, y, width, height, border, title, Seq::empty()) matches Ok(p) && p.lines
            == seq![seq![' ']],
{
    let nothing = Seq::<char>::empty();
    let words = split(nothing);
    assert(words.drop_last() =~= Seq::<Seq<char>>::empty());
    assert(packing(words.drop_last(), width as nat).line =~= nothing);
    assert(!is_break(nothing));
    assert(nothing + nothing.push(' ') =~= seq![' ']);
    assert(pack(words, width as nat) =~= seq![seq![' ']]);
}

} // verus!
