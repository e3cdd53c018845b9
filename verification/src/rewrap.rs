//! Wrapping again what was wrapped.

use crate::panel::layout;
use crate::words::{
    all_space_free, join, lemma_join_split, lemma_split_at_space, lemma_split_join,
    lemma_split_pieces, space_free, split,
};
use crate::wrap::{all_fit, break_free, is_break, pack, packing, place, shown, without_breaks};
use vstd::prelude::*;

verus! {

/// The text that the lines show when each but the last is followed by one
/// space.
pub open spec fn rejoined(lines: Seq<Seq<char>>) -> Seq<char> {
    join(Seq::new(lines.len(), |i: int| shown(lines[i])))
}

/// Whether the break tokens among `words` change nothing: each falls where
/// the line would end without it. This holds of words without a break token.
pub open spec fn breaks_are_idle(words: Seq<Seq<char>>, width: nat) -> bool {
    pack(words, width) == pack(without_breaks(words), width)
}

/// Whether `word` can stand on a line: it fits, holds no space and is not the
/// break token.
spec fn plain(word: Seq<char>, width: nat) -> bool {
    word.len() <= width && space_free(word) && !is_break(word)
}

/// Whether every one of `words` is plain.
spec fn all_plain(words: Seq<Seq<char>>, width: nat) -> bool {
    forall|i: int| 0 <= i < words.len() ==> plain(#[trigger] words[i], width)
}

/// The words of each closed line, and those of the line being filled.
ghost struct Grouping {
    groups: Seq<Seq<Seq<char>>>,
    group: Seq<Seq<char>>,
}

/// The words that stand on each line when `words` are packed.
spec fn grouping(words: Seq<Seq<char>>, width: nat) -> Grouping
    decreases words.len(),
{
    if words.len() == 0 {
        Grouping { groups: Seq::empty(), group: Seq::empty() }
    } else {
        let g = grouping(words.drop_last(), width);
        let line = packing(words.drop_last(), width).line;
        if is_break(words.last()) {
            Grouping { groups: g.groups.push(g.group), group: Seq::empty() }
        } else if line.len() + words.last().len() > width {
            Grouping { groups: g.groups.push(g.group), group: seq![words.last()] }
        } else {
            Grouping { groups: g.groups, group: g.group.push(words.last()) }
        }
    }
}

/// The groups of all the lines, the last line included.
spec fn line_groups(words: Seq<Seq<char>>, width: nat) -> Seq<Seq<Seq<char>>> {
    let g = grouping(words, width);
    g.groups.push(g.group)
}

/// The line that holds the words of `group`.
spec fn line_of(group: Seq<Seq<char>>) -> Seq<char> {
    if group.len() == 0 {
        Seq::empty()
    } else {
        join(group).push(' ')
    }
}

/// The pieces of what the line of `group` shows.
spec fn fill(group: Seq<Seq<char>>) -> Seq<Seq<char>> {
    if group.len() == 0 {
        seq![Seq::<char>::empty()]
    } else {
        group
    }
}

/// The pieces of what the lines of `groups` show, line after line.
spec fn filled(groups: Seq<Seq<Seq<char>>>) -> Seq<Seq<char>>
    decreases groups.len(),
{
    if groups.len() == 0 {
        Seq::empty()
    } else {
        filled(groups.drop_last()) + fill(groups.last())
    }
}

/// Each line holds the words of its group, the groups hold plain words, and
/// together they hold the words that are not break tokens, in order.
proof fn lemma_grouping(words: Seq<Seq<char>>, width: nat)
    requires
        all_fit(words, width),
        all_space_free(words),
    ensures
        pack(words, width).len() == line_groups(words, width).len(),
        forall|i: int|
            0 <= i < pack(words, width).len() ==> #[trigger] pack(words, width)[i] == line_of(
                line_groups(words, width)[i],
            ),
        forall|i: int|
            0 <= i < line_groups(words, width).len() ==> all_plain(
                #[trigger] line_groups(words, width)[i],
                width,
            ),
        line_groups(words, width).flatten() == without_breaks(words),
    decreases words.len(),
{
    broadcast use Seq::lemma_flatten_push;

    reveal(Seq::filter);
    let lines = pack(words, width);
    let groups = line_groups(words, width);
    if words.len() == 0 {
        assert(groups.flatten() =~= without_breaks(words));
    } else {
        let front = words.drop_last();
        let word = words.last();
        assert(word == words[words.len() - 1]);
        assert forall|i: int| 0 <= i < front.len() implies (#[trigger] front[i]).len() <= width
            && space_free(front[i]) by {
            assert(front[i] == words[i]);
        }
        lemma_grouping(front, width);
        let g = grouping(front, width);
        let p = packing(front, width);
        let old_lines = pack(front, width);
        let old_groups = line_groups(front, width);
        assert(p.line == old_lines[old_lines.len() - 1]);
        assert(g.group == old_groups[old_groups.len() - 1]);
        assert(old_groups.flatten() =~= g.groups.flatten() + g.group);
        if is_break(word) {
            assert(groups.flatten() =~= g.groups.flatten() + g.group);
        } else if p.line.len() + word.len() > width {
            assert(line_of(seq![word]) =~= word.push(' '));
            assert(groups.flatten() =~= g.groups.flatten() + g.group + seq![word]);
        } else {
            let grown = g.group.push(word);
            assert(grown.drop_last() =~= g.group);
            assert(line_of(grown) =~= p.line + word.push(' '));
            assert(groups.flatten() =~= g.groups.flatten() + g.group + seq![word]);
            assert forall|j: int| 0 <= j < grown.len() implies plain(
                #[trigger] grown[j],
                width,
            ) by {
                if j < g.group.len() {
                    assert(grown[j] == g.group[j]);
                }
            }
        }
        assert forall|i: int| 0 <= i < lines.len() implies #[trigger] lines[i] == line_of(
            groups[i],
        ) by {
            if i < p.lines.len() {
                assert(lines[i] == old_lines[i]);
                assert(groups[i] == old_groups[i]);
            }
        }
        assert forall|i: int| 0 <= i < groups.len() implies all_plain(
            #[trigger] groups[i],
            width,
        ) by {
            if i < g.groups.len() {
                assert(groups[i] == old_groups[i]);
            } else if i < groups.len() - 1 {
                assert(groups[i] == g.group);
            } else {
                assert(groups[i] == groups.last());
            }
        }
    }
}

/// What the lines of groups of plain words show, joined, splits into the
/// words of the groups, with an empty word for every empty group.
proof fn lemma_split_shown(groups: Seq<Seq<Seq<char>>>, width: nat)
    requires
        groups.len() >= 1,
        forall|i: int| 0 <= i < groups.len() ==> all_plain(#[trigger] groups[i], width),
    ensures
        split(join(Seq::new(groups.len(), |i: int| join(groups[i])))) == filled(groups),
    decreases groups.len(),
{
    let texts = Seq::new(groups.len(), |i: int| join(groups[i]));
    let last = groups.last();
    assert(all_plain(last, width));
    assert(split(join(last)) == fill(last)) by {
        if last.len() > 0 {
            lemma_split_join(last);
        }
    }
    if groups.len() == 1 {
        assert(filled(groups.drop_last()) =~= Seq::<Seq<char>>::empty());
        assert(filled(groups) =~= fill(last));
    } else {
        let front = groups.drop_last();
        assert forall|i: int| 0 <= i < front.len() implies all_plain(
            #[trigger] front[i],
            width,
        ) by {
            assert(front[i] == groups[i]);
        }
        lemma_split_shown(front, width);
        assert(texts.drop_last() =~= Seq::new(front.len(), |i: int| join(front[i])));
        lemma_split_at_space(join(texts.drop_last()), join(last));
    }
}

/// The pieces of what the lines of groups of plain words show are plain but
/// for their being empty where a group is; where no group is empty they are
/// the words of the groups.
proof fn lemma_filled(groups: Seq<Seq<Seq<char>>>, width: nat)
    requires
        forall|i: int| 0 <= i < groups.len() ==> all_plain(#[trigger] groups[i], width),
    ensures
        filled(groups).len() >= groups.len(),
        all_fit(filled(groups), width),
        break_free(filled(groups)),
        (forall|i: int| 0 <= i < groups.len() ==> (#[trigger] groups[i]).len() > 0) ==> filled(
            groups,
        ) == groups.flatten(),
    decreases groups.len(),
{
    broadcast use Seq::lemma_flatten_push;

    if groups.len() == 0 {
        assert(filled(groups) =~= groups.flatten());
    } else {
        let front = groups.drop_last();
        let last = groups.last();
        assert forall|i: int| 0 <= i < front.len() implies all_plain(
            #[trigger] front[i],
            width,
        ) by {
            assert(front[i] == groups[i]);
        }
        lemma_filled(front, width);
        assert(all_plain(last, width));
        let pieces = filled(groups);
        assert forall|i: int| 0 <= i < pieces.len() implies (#[trigger] pieces[i]).len() <= width
            && !is_break(pieces[i]) by {
            if i < filled(front).len() {
                assert(pieces[i] == filled(front)[i]);
            } else {
                assert(pieces[i] == fill(last)[i - filled(front).len()]);
            }
        }
        if forall|i: int| 0 <= i < groups.len() ==> (#[trigger] groups[i]).len() > 0 {
            assert forall|i: int| 0 <= i < front.len() implies (#[trigger] front[i]).len()
                > 0 by {
                assert(front[i] == groups[i]);
            }
            assert(groups =~= front.push(last));
            assert(last.len() > 0);
        }
    }
}

/// Words that fit and hold no break token pack into lines none of which is
/// empty.
proof fn lemma_no_empty_line(words: Seq<Seq<char>>, width: nat)
    requires
        words.len() >= 1,
        all_fit(words, width),
        break_free(words),
    ensures
        forall|i: int|
            0 <= i < pack(words, width).len() ==> (#[trigger] pack(words, width)[i]).len() > 0,
    decreases words.len(),
{
    let front = words.drop_last();
    let word = words.last();
    assert(!is_break(word) && word.len() <= width) by {
        assert(word == words[words.len() - 1]);
    }
    let before = packing(front, width);
    let after = place(before, word, width);
    if front.len() > 0 {
        assert forall|i: int| 0 <= i < front.len() implies (#[trigger] front[i]).len() <= width
            && !is_break(front[i]) by {
            assert(front[i] == words[i]);
        }
        lemma_no_empty_line(front, width);
        assert forall|i: int| 0 <= i < pack(words, width).len() implies (#[trigger] pack(
            words,
            width,
        )[i]).len() > 0 by {
            if i < before.lines.len() {
                assert(pack(words, width)[i] == pack(front, width)[i]);
            } else if i < after.lines.len() {
                assert(pack(words, width)[i] == pack(front, width)[before.lines.len() as int]);
            }
        }
    }
}

/// Dropping the break tokens keeps the other words as they are.
proof fn lemma_without_breaks(words: Seq<Seq<char>>, width: nat)
    requires
        all_fit(words, width),
    ensures
        all_fit(without_breaks(words), width),
        break_free(without_breaks(words)),
        break_free(words) ==> without_breaks(words) == words,
    decreases words.len(),
{
    reveal(Seq::filter);
    if words.len() > 0 {
        let front = words.drop_last();
        assert forall|i: int| 0 <= i < front.len() implies (#[trigger] front[i]).len()
            <= width by {
            assert(front[i] == words[i]);
        }
        lemma_without_breaks(front, width);
        let kept = without_breaks(front);
        let last = words.last();
        assert(last == words[words.len() - 1]);
        assert forall|i: int| 0 <= i < without_breaks(words).len() implies {
            let w = #[trigger] without_breaks(words)[i];
            w.len() <= width && !is_break(w)
        } by {
            if i < kept.len() {
                assert(without_breaks(words)[i] == kept[i]);
            }
        }
        if break_free(words) {
            assert forall|i: int| 0 <= i < front.len() implies !is_break(#[trigger] front[i]) by {
                assert(front[i] == words[i]);
            }
            assert(without_breaks(words) =~= words);
        }
    }
}

/// A break token among the words closes a line.
proof fn lemma_break_closes(words: Seq<Seq<char>>, width: nat, i: int)
    requires
        0 <= i < words.len(),
        is_break(words[i]),
    ensures
        packing(words, width).lines.len() >= 1,
    decreases words.len(),
{
    if i < words.len() - 1 {
        assert(words.drop_last()[i] == words[i]);
        lemma_break_closes(words.drop_last(), width, i);
    }
}

/// If nothing is left without the break tokens, every word is one.
proof fn lemma_only_breaks(words: Seq<Seq<char>>)
    requires
        without_breaks(words).len() == 0,
    ensures
        forall|i: int| 0 <= i < words.len() ==> is_break(#[trigger] words[i]),
    decreases words.len(),
{
    reveal(Seq::filter);
    if words.len() > 0 {
        let front = words.drop_last();
        lemma_only_breaks(front);
        assert forall|i: int| 0 <= i < words.len() implies is_break(#[trigger] words[i]) by {
            if i < front.len() {
                assert(front[i] == words[i]);
            }
        }
    }
}

/// Wrapping is stable, but for break tokens that are not idle. When a body
/// whose words fit has been wrapped, the lines as they show, joined by single
/// spaces, wrap at the same width into the same lines again if and only if
/// the body's break tokens are idle. They are where there is none.
pub proof fn lemma_rewrap(text: Seq<char>, width: nat)
    requires
        all_fit(split(text), width),
    ensures
        pack(split(rejoined(pack(split(text), width))), width) == pack(split(text), width)
            <==> breaks_are_idle(split(text), width),
        breaks_are_idle(split(text), width) ==> split(rejoined(pack(split(text), width)))
            == without_breaks(split(text)),
        all_fit(split(rejoined(pack(split(text), width))), width),
        break_free(split(text)) ==> breaks_are_idle(split(text), width),
{
    let words = split(text);
    let kept = without_breaks(words);
    let lines = pack(words, width);
    let groups = line_groups(words, width);
    let again = split(rejoined(lines));
    lemma_split_pieces(text);
    lemma_without_breaks(words, width);
    lemma_grouping(words, width);
    assert(again == filled(groups)) by {
        assert forall|i: int| 0 <= i < lines.len() implies shown(#[trigger] lines[i]) == join(
            groups[i],
        ) by {
            assert(lines[i] == line_of(groups[i]));
            if groups[i].len() > 0 {
                assert(join(groups[i]).push(' ').drop_last() =~= join(groups[i]));
            }
        }
        assert(Seq::new(lines.len(), |i: int| shown(lines[i])) =~= Seq::new(
            groups.len(),
            |i: int| join(groups[i]),
        ));
        lemma_split_shown(groups, width);
    }
    lemma_filled(groups, width);
    if pack(again, width) == lines || pack(kept, width) == lines {
        assert forall|i: int| 0 <= i < groups.len() implies (#[trigger] groups[i]).len() > 0 by {
            if pack(again, width) == lines {
                lemma_no_empty_line(again, width);
            } else {
                assert(kept.len() >= 1) by {
                    if kept.len() == 0 {
                        lemma_only_breaks(words);
                        lemma_break_closes(words, width, 0);
                        assert(pack(kept, width).len() == 1);
                        assert(pack(words, width).len() >= 2);
                    }
                }
                lemma_no_empty_line(kept, width);
            }
            assert(lines[i] == line_of(groups[i]));
        }
        assert(again == kept);
    }
}

/// Wrapping is stable for every body that fits and holds no break token: what
/// its lines show, joined by single spaces, is the body itself.
pub proof fn lemma_rewrap_without_breaks(text: Seq<char>, width: nat)
    requires
        all_fit(split(text), width),
        break_free(split(text)),
    ensures
        pack(split(rejoined(pack(split(text), width))), width) == pack(split(text), width),
        rejoined(pack(split(text), width)) == text,
{
    lemma_without_breaks(split(text), width);
    lemma_rewrap(text, width);
    lemma_join_split(text);
    lemma_join_split(rejoined(pack(split(text), width)));
}

/// Laying out is stable: a panel laid out from a body whose break tokens are
/// idle is laid out again, the same, from the text that its lines show.
pub proof fn lemma_relayout(
    x: u8,
    y: u8,
    width: u8,
    height: u8,
    border: u8,
    title: Seq<char>,
    text: Seq<char>,
)
    requires
        layout(x, y, width, height, border, title, text) is Ok,
        breaks_are_idle(split(text), width as nat),
    ensures
        layout(
            x,
            y,
            width,
            height,
            border,
            title,
            rejoined(layout(x, y, width, height, border, title, text)->Ok_0.lines),
        ) == layout(x, y, width, height, border, title, text),
{
    lemma_rewrap(text, width as nat);
}

} // verus!
