//! Rendering a panel as a list of placements.

use crate::border::Glyphs;
use crate::panel::Panel;
use crate::textbox::TextBox;
use vstd::prelude::*;

verus! {

/// A text to write from an absolute cell onwards. Columns and rows count from
/// one; every character of the text takes one cell.
#[derive(Debug, PartialEq, Eq)]
pub struct Placement {
    pub col: u16,
    pub row: u16,
    pub text: String,
}

/// The mathematical content of a [`Placement`].
pub ghost struct Placed {
    pub col: nat,
    pub row: nat,
    pub text: Seq<char>,
}

impl View for Placement {
    type V = Placed;

    open spec fn view(&self) -> Placed {
        Placed { col: self.col as nat, row: self.row as nat, text: self.text@ }
    }
}

impl DeepView for Placement {
    type V = Placed;

    open spec fn deep_view(&self) -> Placed {
        self@
    }
}

/// The four corners: top-left, top-right, bottom-right, bottom-left.
pub open spec fn corners(p: Panel) -> Seq<Placed> {
    let g = p.border.glyphs();
    seq![
        Placed { col: p.x, row: p.y, text: seq![g.top_left] },
        Placed { col: p.x + p.width + 1, row: p.y, text: seq![g.top_right] },
        Placed { col: p.x + p.width + 1, row: p.y + p.height + 1, text: seq![g.bottom_right] },
        Placed { col: p.x, row: p.y + p.height + 1, text: seq![g.bottom_left] },
    ]
}

/// The top and the bottom edge above and below interior column `i`.
pub open spec fn edge_pair(p: Panel, i: nat) -> Seq<Placed> {
    let g = p.border.glyphs();
    seq![
        Placed { col: p.x + 1 + i, row: p.y, text: seq![g.horizontal] },
        Placed { col: p.x + 1 + i, row: p.y + p.height + 1, text: seq![g.horizontal] },
    ]
}

/// The edges of the first `n` interior columns.
pub open spec fn edges(p: Panel, n: nat) -> Seq<Placed>
    decreases n,
{
    if n == 0 {
        Seq::empty()
    } else {
        edges(p, (n - 1) as nat) + edge_pair(p, (n - 1) as nat)
    }
}

/// Interior row `i`: the left side, the body line of that row if there is
/// one, and the right side.
pub open spec fn side_row(p: Panel, i: nat) -> Seq<Placed> {
    let g = p.border.glyphs();
    let left = Placed { col: p.x, row: p.y + 1 + i, text: seq![g.vertical] };
    let right = Placed { col: p.x + p.width + 1, row: p.y + 1 + i, text: seq![g.vertical] };
    if i < p.lines.len() {
        seq![left, Placed { col: p.x + 1, row: p.y + 1 + i, text: p.lines[i as int] }, right]
    } else {
        seq![left, right]
    }
}

/// The first `n` interior rows.
pub open spec fn sides(p: Panel, n: nat) -> Seq<Placed>
    decreases n,
{
    if n == 0 {
        Seq::empty()
    } else {
        sides(p, (n - 1) as nat) + side_row(p, (n - 1) as nat)
    }
}

/// The title, written over the top edge from its first cell.
pub open spec fn title_placed(p: Panel) -> Placed {
    Placed { col: p.x + 1, row: p.y, text: p.title }
}

/// The placements that draw a panel, in the order in which they are written:
/// the corners, the edges, the rows, and the title last.
pub open spec fn rendering(p: Panel) -> Seq<Placed> {
    corners(p) + edges(p, p.width) + sides(p, p.height) + seq![title_placed(p)]
}

/// Appends `text` at `(col, row)` to `out`.
fn emit(out: &mut Vec<Placement>, col: u16, row: u16, text: String)
    ensures
        final(out).deep_view() == old(out).deep_view().push(
            Placed { col: col as nat, row: row as nat, text: text@ },
        ),
{
    let ghost before = out.deep_view();
    let placement = Placement { col, row, text };
    let ghost placed = placement@;
    out.push(placement);
    assert(out.deep_view() =~= before.push(placed));
}

/// Appends the glyph `c` at `(col, row)` to `out`.
fn emit_glyph(out: &mut Vec<Placement>, col: u16, row: u16, c: char)
    ensures
        final(out).deep_view() == old(out).deep_view().push(
            Placed { col: col as nat, row: row as nat, text: seq![c] },
        ),
{
    let mut text = String::new();
    text.push(c);
    assert(text@ =~= seq![c]);
    emit(out, col, row, text);
}

impl TextBox {
    /// The placements that draw this panel. Writing them in order, each over
    /// what is already there, gives the panel.
    pub fn render(&self) -> (commands: Vec<Placement>)
        ensures
            commands.deep_view() == rendering(self@),
            self@.wf(),
    {
        let ghost p = self@;
        let g: Glyphs = self.border().glyphs();
        let x: u16 = self.x() as u16;
        let y: u16 = self.y() as u16;
        let width: u16 = self.width() as u16;
        let height: u16 = self.height() as u16;
        let lines = self.lines();
        let mut out: Vec<Placement> = Vec::new();
        emit_glyph(&mut out, x, y, g.top_left);
        emit_glyph(&mut out, x + width + 1, y, g.top_right);
        emit_glyph(&mut out, x + width + 1, y + height + 1, g.bottom_right);
        emit_glyph(&mut out, x, y + height + 1, g.bottom_left);
        assert(out.deep_view() =~= corners(p));
        let mut i: u16 = 0;
        while i < width
            invariant
                i <= width,
                x == p.x,
                y == p.y,
                width == p.width,
                height == p.height,
                p.wf(),
                g == p.border.glyphs(),
                out.deep_view() == corners(p) + edges(p, i as nat),
            decreases width - i,
        {
            let ghost before = out.deep_view();
            emit_glyph(&mut out, x + 1 + i, y, g.horizontal);
            emit_glyph(&mut out, x + 1 + i, y + height + 1, g.horizontal);
            assert(out.deep_view() =~= before + edge_pair(p, i as nat));
            i = i + 1;
        }
        let mut i: u16 = 0;
        while i < height
            invariant
                i <= height,
                x == p.x,
                y == p.y,
                width == p.width,
                height == p.height,
                p.wf(),
                g == p.border.glyphs(),
                lines.deep_view() == p.lines,
                out.deep_view() == corners(p) + edges(p, p.width) + sides(p, i as nat),
            decreases height - i,
        {
            let ghost before = out.deep_view();
            emit_glyph(&mut out, x, y + 1 + i, g.vertical);
            if (i as usize) < lines.len() {
                emit(&mut out, x + 1, y + 1 + i, lines[i as usize].clone());
            }
            emit_glyph(&mut out, x + width + 1, y + 1 + i, g.vertical);
            assert(out.deep_view() =~= before + side_row(p, i as nat));
            i = i + 1;
        }
        emit(&mut out, x + 1, y, self.title().to_owned());
        out
    }
}

} // verus!
