//! Placements as terminal escape sequences.

use crate::panel::Panel;
use crate::render::{corners, edge_pair, edges, rendering, side_row, sides, Placed, Placement};
use crate::textbox::TextBox;
use vstd::prelude::*;
use vstd::string::*;

verus! {

/// The character of the decimal digit `d`.
pub open spec fn digit(d: nat) -> char {
    seq!['0', '1', '2', '3', '4', '5', '6', '7', '8', '9'][d as int]
}

/// `n` in decimal, without leading zeros.
pub open spec fn decimal(n: nat) -> Seq<char>
    decreases n,
{
    if n < 10 {
        seq![digit(n)]
    } else {
        decimal(n / 10).push(digit(n % 10))
    }
}

/// The sequence that moves the cursor to column `col` of row `row`: the
/// escape character, `[`, the row, `;`, the column, `H`.
pub open spec fn goto_sequence(col: nat, row: nat) -> Seq<char> {
    seq!['\x1b', '['] + decimal(row) + seq![';'] + decimal(col) + seq!['H']
}

impl Placed {
    /// Whether the cursor can be sent to this placement's cell. The cell
    /// `(0, 0)` cannot be addressed.
    pub open spec fn addressable(self) -> bool {
        self.col != 0 || self.row != 0
    }
}

/// Formats `termion::cursor::Goto(col, row)`. Its `Display` writes the escape
/// character and `[`, then the row and the column in decimal with `;` between
/// them, then `H`. It asserts that the target is not `(0, 0)`.
#[verifier::external_body]
fn cursor_goto(col: u16, row: u16) -> (s: String)
    requires
        col != 0 || row != 0,
    ensures
        s@ == goto_sequence(col as nat, row as nat),
{
    format!("{}", termion::cursor::Goto(col, row))
}

/// What a terminal is sent to carry out `commands` in order: for each, the
/// cursor move to its cell, then its text.
pub open spec fn encoded(commands: Seq<Placed>) -> Seq<char>
    decreases commands.len(),
{
    if commands.len() == 0 {
        Seq::empty()
    } else {
        let last = commands.last();
        encoded(commands.drop_last()) + goto_sequence(last.col, last.row) + last.text
    }
}

/// Encodes `commands` for a terminal.
pub fn encode(commands: &Vec<Placement>) -> (s: String)
    requires
        forall|i: int| 0 <= i < commands.len() ==> (#[trigger] commands[i])@.addressable(),
    ensures
        s@ == encoded(commands.deep_view()),
{
    let ghost all = commands.deep_view();
    let mut s = String::new();
    let mut i: usize = 0;
    assert(all.take(0) =~= Seq::<Placed>::empty());
    while i < commands.len()
        invariant
            i <= commands.len(),
            all == commands.deep_view(),
            forall|i: int| 0 <= i < commands.len() ==> (#[trigger] commands[i])@.addressable(),
            s@ == encoded(all.take(i as int)),
        decreases commands.len() - i,
    {
        let command = &commands[i];
        let goto = cursor_goto(command.col, command.row);
        proof {
            assert(all.take(i + 1).drop_last() =~= all.take(i as int));
            assert(all.take(i + 1).last() == command@);
        }
        s.append(goto.as_str());
        s.append(command.text.as_str());
        i = i + 1;
    }
    assert(all.take(i as int) =~= all);
    s
}

/// Every placement of the first `n` edge columns is addressable.
proof fn lemma_edges_addressable(p: Panel, n: nat)
    ensures
        forall|i: int| 0 <= i < edges(p, n).len() ==> (#[trigger] edges(p, n)[i]).addressable(),
    decreases n,
{
    if n > 0 {
        lemma_edges_addressable(p, (n - 1) as nat);
        let front = edges(p, (n - 1) as nat);
        let pair = edge_pair(p, (n - 1) as nat);
        assert forall|i: int| 0 <= i < edges(p, n).len() implies (#[trigger] edges(
            p,
            n,
        )[i]).addressable() by {
            if i < front.len() {
                assert(edges(p, n)[i] == front[i]);
            } else {
                assert(edges(p, n)[i] == pair[i - front.len()]);
            }
        }
    }
}

/// Every placement of the first `n` rows is addressable.
proof fn lemma_sides_addressable(p: Panel, n: nat)
    ensures
        forall|i: int| 0 <= i < sides(p, n).len() ==> (#[trigger] sides(p, n)[i]).addressable(),
    decreases n,
{
    if n > 0 {
        lemma_sides_addressable(p, (n - 1) as nat);
        let front = sides(p, (n - 1) as nat);
        let row = side_row(p, (n - 1) as nat);
        assert forall|i: int| 0 <= i < sides(p, n).len() implies (#[trigger] sides(
            p,
            n,
        )[i]).addressable() by {
            if i < front.len() {
                assert(sides(p, n)[i] == front[i]);
            } else {
                assert(sides(p, n)[i] == row[i - front.len()]);
            }
        }
    }
}

/// A panel whose anchor is not `(0, 0)` is drawn by addressable placements
/// only.
pub proof fn lemma_rendering_addressable(p: Panel)
    requires
        p.x != 0 || p.y != 0,
    ensures
        forall|i: int| 0 <= i < rendering(p).len() ==> (#[trigger] rendering(p)[i]).addressable(),
{
    lemma_edges_addressable(p, p.width);
    lemma_sides_addressable(p, p.height);
    let a = corners(p);
    let b = edges(p, p.width);
    let c = sides(p, p.height);
    assert forall|i: int| 0 <= i < rendering(p).len() implies (#[trigger] rendering(
        p,
    )[i]).addressable() by {
        if i < a.len() {
            assert(rendering(p)[i] == a[i]);
        } else if i < a.len() + b.len() {
            assert(rendering(p)[i] == b[i - a.len()]);
        } else if i < a.len() + b.len() + c.len() {
            assert(rendering(p)[i] == c[i - a.len() - b.len()]);
        }
    }
}

impl TextBox {
    /// What a terminal is sent to draw this panel. The panel's anchor must
    /// not be `(0, 0)`: columns and rows count from one.
    pub fn to_ansi(&self) -> (s: String)
        requires
            self@.x != 0 || self@.y != 0,
        ensures
            s@ == encoded(rendering(self@)),
    {
        let commands = self.render();
        proof {
            lemma_rendering_addressable(self@);
            assert forall|i: int| 0 <= i < commands.len() implies (
            #[trigger] commands[i])@.addressable() by {
                assert(commands.deep_view()[i] == commands[i]@);
            }
        }
        encode(&commands)
    }
}

} // verus!
