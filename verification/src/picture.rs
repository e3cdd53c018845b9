//! What a list of placements leaves on the screen.

use crate::panel::Panel;
use crate::render::{
    corners, edge_pair, edges, rendering, side_row, sides, title_placed, Placed, Placement,
};
use crate::textbox::TextBox;
use vstd::prelude::*;
use vstd::string::*;

verus! {

impl Placed {
    /// Whether this placement writes into the cell at `(col, row)`.
    pub open spec fn covers(self, col: nat, row: nat) -> bool {
        self.row == row && self.col <= col < self.col + self.text.len()
    }
}

/// The character that `commands`, written in order, leave in the cell at
/// `(col, row)`: that of the last placement that covers the cell, if any.
pub open spec fn painted(commands: Seq<Placed>, col: nat, row: nat) -> Option<char>
    decreases commands.len(),
{
    if commands.len() == 0 {
        None
    } else if commands.last().covers(col, row) {
        Some(commands.last().text[col - commands.last().col])
    } else {
        painted(commands.drop_last(), col, row)
    }
}

/// The character that a panel shows in the cell at `(col, row)`.
///
/// The frame runs round the interior: corners at its four corners, the title
/// and then the horizontal glyph along the top, the horizontal glyph along
/// the bottom, the vertical glyph down both sides. Inside, row by row, stand
/// the body's lines, each from the first interior column. Cells outside the
/// frame, and interior cells that no line reaches, are left alone.
pub open spec fn picture(p: Panel, col: nat, row: nat) -> Option<char> {
    let g = p.border.glyphs();
    let right = p.x + p.width + 1;
    let bottom = p.y + p.height + 1;
    if col < p.x || col > right || row < p.y || row > bottom {
        None
    } else if row == p.y {
        if col == p.x {
            Some(g.top_left)
        } else if col == right {
            Some(g.top_right)
        } else if col - p.x - 1 < p.title.len() {
            Some(p.title[col - p.x - 1])
        } else {
            Some(g.horizontal)
        }
    } else if row == bottom {
        if col == p.x {
            Some(g.bottom_left)
        } else if col == right {
            Some(g.bottom_right)
        } else {
            Some(g.horizontal)
        }
    } else if col == p.x || col == right {
        Some(g.vertical)
    } else if row - p.y - 1 < p.lines.len() && col - p.x - 1 < p.lines[row - p.y - 1].len() {
        Some(p.lines[row - p.y - 1][col - p.x - 1])
    } else {
        None
    }
}

/// The last placement wins where it covers the cell.
proof fn lemma_painted_push(commands: Seq<Placed>, last: Placed, col: nat, row: nat)
    ensures
        painted(commands.push(last), col, row) == (if last.covers(col, row) {
            Some(last.text[col - last.col])
        } else {
            painted(commands, col, row)
        }),
{
    assert(commands.push(last).drop_last() =~= commands);
}

/// Of two lists written one after the other, the second wins where it paints.
proof fn lemma_painted_add(first: Seq<Placed>, second: Seq<Placed>, col: nat, row: nat)
    ensures
        painted(first + second, col, row) == (if painted(second, col, row) is Some {
            painted(second, col, row)
        } else {
            painted(first, col, row)
        }),
    decreases second.len(),
{
    if second.len() == 0 {
        assert(first + second =~= first);
    } else {
        lemma_painted_add(first, second.drop_last(), col, row);
        assert((first + second).drop_last() =~= first + second.drop_last());
    }
}

/// What the four corners paint.
proof fn lemma_painted_corners(p: Panel, col: nat, row: nat)
    ensures
        painted(corners(p), col, row) == (if (col == p.x || col == p.x + p.width + 1) && (row
            == p.y || row == p.y + p.height + 1) {
            picture(p, col, row)
        } else {
            None
        }),
{
    let c = corners(p);
    let none = Seq::<Placed>::empty();
    assert(c =~= none.push(c[0]).push(c[1]).push(c[2]).push(c[3]));
    lemma_painted_push(none, c[0], col, row);
    lemma_painted_push(none.push(c[0]), c[1], col, row);
    lemma_painted_push(none.push(c[0]).push(c[1]), c[2], col, row);
    lemma_painted_push(none.push(c[0]).push(c[1]).push(c[2]), c[3], col, row);
}

/// What the edges of the first `n` interior columns paint.
proof fn lemma_painted_edges(p: Panel, n: nat, col: nat, row: nat)
    ensures
        painted(edges(p, n), col, row) == (if (row == p.y || row == p.y + p.height + 1) && p.x + 1
            <= col < p.x + 1 + n {
            Some(p.border.glyphs().horizontal)
        } else {
            None
        }),
    decreases n,
{
    if n > 0 {
        let front = edges(p, (n - 1) as nat);
        let pair = edge_pair(p, (n - 1) as nat);
        lemma_painted_edges(p, (n - 1) as nat, col, row);
        assert(front + pair =~= front.push(pair[0]).push(pair[1]));
        lemma_painted_push(front, pair[0], col, row);
        lemma_painted_push(front.push(pair[0]), pair[1], col, row);
    }
}

/// What the first `n` interior rows paint.
proof fn lemma_painted_sides(p: Panel, n: nat, col: nat, row: nat)
    ensures
        painted(sides(p, n), col, row) == (if p.y + 1 <= row < p.y + 1 + n {
            if col == p.x + p.width + 1 || col == p.x {
                Some(p.border.glyphs().vertical)
            } else if row - p.y - 1 < p.lines.len() && p.x + 1 <= col < p.x + 1 + p.lines[row - p.y
                - 1].len() {
                Some(p.lines[row - p.y - 1][col - p.x - 1])
            } else {
                None
            }
        } else {
            None
        }),
    decreases n,
{
    if n > 0 {
        let front = sides(p, (n - 1) as nat);
        let this = side_row(p, (n - 1) as nat);
        lemma_painted_sides(p, (n - 1) as nat, col, row);
        if n - 1 < p.lines.len() {
            assert(front + this =~= front.push(this[0]).push(this[1]).push(this[2]));
            lemma_painted_push(front, this[0], col, row);
            lemma_painted_push(front.push(this[0]), this[1], col, row);
            lemma_painted_push(front.push(this[0]).push(this[1]), this[2], col, row);
        } else {
            assert(front + this =~= front.push(this[0]).push(this[1]));
            lemma_painted_push(front, this[0], col, row);
            lemma_painted_push(front.push(this[0]), this[1], col, row);
        }
    }
}

/// Rendering draws the panel: written in order, each over what is there, the
/// placements of a well-formed panel leave in every cell what the panel's
/// picture shows there. In particular the title stands over the top edge, and
/// the right side stands over the space that ends a full line.
pub proof fn lemma_rendering_paints_picture(p: Panel, col: nat, row: nat)
    requires
        p.wf(),
    ensures
        painted(rendering(p), col, row) == picture(p, col, row),
{
    let a = corners(p);
    let b = edges(p, p.width);
    let c = sides(p, p.height);
    let t = title_placed(p);
    lemma_painted_corners(p, col, row);
    lemma_painted_edges(p, p.width, col, row);
    lemma_painted_sides(p, p.height, col, row);
    lemma_painted_add(a, b, col, row);
    lemma_painted_add(a + b, c, col, row);
    assert(rendering(p) =~= (a + b + c).push(t));
    lemma_painted_push(a + b + c, t, col, row);
    if p.y + 1 <= row < p.y + 1 + p.height && row - p.y - 1 < p.lines.len() {
        assert(crate::wrap::line_fits(p.lines[row - p.y - 1], p.width));
    }
}

/// The character that `commands`, written in order, leave in the cell at
/// `(col, row)`.
pub fn glyph_at(commands: &Vec<Placement>, col: u16, row: u16) -> (r: Option<char>)
    ensures
        r == painted(commands.deep_view(), col as nat, row as nat),
{
    let ghost all = commands.deep_view();
    let mut i: usize = commands.len();
    assert(all.take(i as int) =~= all);
    while i > 0
        invariant
            i <= commands.len(),
            all == commands.deep_view(),
            painted(all, col as nat, row as nat) == painted(
                all.take(i as int),
                col as nat,
                row as nat,
            ),
        decreases i,
    {
        i = i - 1;
        let command = &commands[i];
        proof {
            assert(all.take(i + 1).drop_last() =~= all.take(i as int));
            assert(all.take(i + 1).last() == command@);
        }
        if command.row == row && command.col <= col {
            let offset: usize = (col - command.col) as usize;
            let text = command.text.as_str();
            if offset < text.unicode_len() {
                return Some(text.get_char(offset));
            }
        }
    }
    None
}

impl TextBox {
    /// The character that this panel shows in the cell at `(col, row)`, as
    /// its rendering paints it.
    pub fn glyph_at(&self, col: u16, row: u16) -> (r: Option<char>)
        ensures
            r == picture(self@, col as nat, row as nat),
            r == painted(rendering(self@), col as nat, row as nat),
    {
        let commands = self.render();
        proof {
            lemma_rendering_paints_picture(self@, col as nat, row as nat);
        }
        glyph_at(&commands, col, row)
    }
}

} // verus!
