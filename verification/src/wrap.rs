//! Greedy packing of words into lines of a fixed width.

use crate::error::{Fault, LayoutError};
use vstd::prelude::*;
use vstd::string::*;

verus! {

/// Whether `word` is the token that forces a line break: a lone line feed.
pub open spec fn is_break(word: Seq<char>) -> bool {
    word == seq!['\n']
}

/// The state of a packing: the lines that are closed, and the line being
/// filled.
pub ghost struct Packing {
    pub lines: Seq<Seq<char>>,
    pub line: Seq<char>,
}

/// Places one more word. A break token closes the open line and is dropped.
/// A word closes the open line when the line and the word together are longer
/// than `width`, and otherwise joins it; either way the word is followed by
/// one space.
pub open spec fn place(p: Packing, word: Seq<char>, width: nat) -> Packing {
    if is_break(word) {
        Packing { lines: p.lines.push(p.line), line: Seq::empty() }
    } else if p.line.len() + word.len() > width {
        Packing { lines: p.lines.push(p.line), line: word.push(' ') }
    } else {
        Packing { lines: p.lines, line: p.line + word.push(' ') }
    }
}

/// The state after placing all of `words`, first to last.
pub open spec fn packing(words: Seq<Seq<char>>, width: nat) -> Packing
    decreases words.len(),
{
    if words.len() == 0 {
        Packing { lines: Seq::empty(), line: Seq::empty() }
    } else {
        place(packing(words.drop_last(), width), words.last(), width)
    }
}

/// The lines that `words` pack into: the closed lines, then the open one.
pub open spec fn pack(words: Seq<Seq<char>>, width: nat) -> Seq<Seq<char>> {
    let p = packing(words, width);
    p.lines.push(p.line)
}

/// A line as it shows inside the frame: without the space that ends it.
pub open spec fn shown(line: Seq<char>) -> Seq<char> {
    if line.len() == 0 {
        line
    } else {
        line.drop_last()
    }
}

/// Whether `line` is a line of a panel `width` cells wide: empty, or at most
/// `width` characters followed by one space. The space may fall on the
/// panel's right border, which is painted over it.
pub open spec fn line_fits(line: Seq<char>, width: nat) -> bool {
    line.len() == 0 || (line.last() == ' ' && line.len() <= width + 1)
}

/// Whether every word has at most `width` characters.
pub open spec fn all_fit(words: Seq<Seq<char>>, width: nat) -> bool {
    forall|i: int| 0 <= i < words.len() ==> (#[trigger] words[i]).len() <= width
}

/// Whether `words[i]` is the first word with more than `width` characters.
pub open spec fn first_misfit(words: Seq<Seq<char>>, width: nat, i: int) -> bool {
    &&& 0 <= i < words.len()
    &&& words[i].len() > width
    &&& all_fit(words.take(i), width)
}

/// What wrapping `words` gives: their lines, or the first word that is too
/// long for any line.
pub open spec fn wrapped(words: Seq<Seq<char>>, width: nat) -> Result<Seq<Seq<char>>, Fault> {
    if all_fit(words, width) {
        Ok(pack(words, width))
    } else {
        Err(Fault::WordTooLong(words[choose|i: int| first_misfit(words, width, i)]))
    }
}

/// The first word that is too long is unique.
pub proof fn lemma_first_misfit_unique(words: Seq<Seq<char>>, width: nat, i: int, j: int)
    requires
        first_misfit(words, width, i),
        first_misfit(words, width, j),
    ensures
        i == j,
{
    if i < j {
        assert(words.take(j)[i] == words[i]);
    } else if j < i {
        assert(words.take(i)[j] == words[j]);
    }
}

/// Among words that do not all fit, one is the first that is too long.
pub proof fn lemma_misfit_exists(words: Seq<Seq<char>>, width: nat)
    requires
        !all_fit(words, width),
    ensures
        exists|i: int| first_misfit(words, width, i),
    decreases words.len(),
{
    let front = words.drop_last();
    if all_fit(front, width) {
        let i = words.len() - 1;
        assert(words.take(i) =~= front);
        assert(words[i].len() > width) by {
            let j = choose|j: int| 0 <= j < words.len() && (#[trigger] words[j]).len() > width;
            if j < i {
                assert(front[j] == words[j]);
            }
        }
        assert(first_misfit(words, width, i));
    } else {
        lemma_misfit_exists(front, width);
        let i = choose|i: int| first_misfit(front, width, i);
        assert(front.take(i) =~= words.take(i));
        assert(first_misfit(words, width, i));
    }
}

/// Every line of a packing of words that fit is a fitting line.
proof fn lemma_packing_fits(words: Seq<Seq<char>>, width: nat)
    requires
        all_fit(words, width),
    ensures
        line_fits(packing(words, width).line, width),
        forall|i: int|
            0 <= i < packing(words, width).lines.len() ==> line_fits(
                #[trigger] packing(words, width).lines[i],
                width,
            ),
    decreases words.len(),
{
    if words.len() > 0 {
        let front = words.drop_last();
        assert forall|i: int| 0 <= i < front.len() implies (#[trigger] front[i]).len() <= width by {
            assert(front[i] == words[i]);
        }
        lemma_packing_fits(front, width);
        let before = packing(front, width);
        let after = place(before, words.last(), width);
        assert(words.last().len() <= width) by {
            assert(words.last() == words[words.len() - 1]);
        }
        assert(line_fits(after.line, width));
        assert forall|i: int| 0 <= i < after.lines.len() implies line_fits(
            #[trigger] after.lines[i],
            width,
        ) by {
            if i < before.lines.len() {
                assert(after.lines[i] == before.lines[i]);
            }
        }
    }
}

/// The lines of words that fit are fitting lines, and there is at least one.
pub proof fn lemma_pack_fits(words: Seq<Seq<char>>, width: nat)
    requires
        all_fit(words, width),
    ensures
        pack(words, width).len() >= 1,
        forall|i: int|
            0 <= i < pack(words, width).len() ==> line_fits(
                #[trigger] pack(words, width)[i],
                width,
            ),
{
    lemma_packing_fits(words, width);
    let p = packing(words, width);
    assert forall|i: int| 0 <= i < pack(words, width).len() implies line_fits(
        #[trigger] pack(words, width)[i],
        width,
    ) by {
        if i < p.lines.len() {
            assert(pack(words, width)[i] == p.lines[i]);
        }
    }
}

/// Whether none of `words` is the break token.
pub open spec fn break_free(words: Seq<Seq<char>>) -> bool {
    forall|i: int| 0 <= i < words.len() ==> !is_break(#[trigger] words[i])
}

/// The words that are not the break token, in order.
pub open spec fn without_breaks(words: Seq<Seq<char>>) -> Seq<Seq<char>> {
    words.filter(|w: Seq<char>| !is_break(w))
}

/// The words run together, each followed by one space, without the break
/// tokens.
pub open spec fn spaced(words: Seq<Seq<char>>) -> Seq<char> {
    without_breaks(words).map_values(|w: Seq<char>| w.push(' ')).flatten()
}

/// Packing loses nothing: the lines, run together, are the words in order,
/// each followed by one space, without the break tokens.
pub proof fn lemma_pack_keeps_words(words: Seq<Seq<char>>, width: nat)
    ensures
        pack(words, width).flatten() == spaced(words),
    decreases words.len(),
{
    broadcast use Seq::lemma_flatten_push;

    reveal(Seq::filter);
    let p = packing(words, width);
    assert(pack(words, width).flatten() =~= p.lines.flatten() + p.line);
    if words.len() == 0 {
        assert(without_breaks(words).map_values(|w: Seq<char>| w.push(' ')) =~= Seq::<
            Seq<char>,
        >::empty());
        assert(spaced(words) =~= Seq::<char>::empty());
        assert(p.lines.flatten() + p.line =~= Seq::<char>::empty());
    } else {
        let front = words.drop_last();
        let word = words.last();
        let before = packing(front, width);
        lemma_pack_keeps_words(front, width);
        assert(pack(front, width).flatten() =~= before.lines.flatten() + before.line);
        let kept = without_breaks(front).map_values(|w: Seq<char>| w.push(' '));
        if is_break(word) {
            assert(p.lines.flatten() + p.line =~= before.lines.flatten() + before.line);
        } else {
            assert(without_breaks(words).map_values(|w: Seq<char>| w.push(' ')) =~= kept.push(
                word.push(' '),
            ));
            assert(p.lines.flatten() + p.line =~= before.lines.flatten() + before.line
                + word.push(' '));
        }
    }
}

/// The model of what a wrapping returned.
pub open spec fn wrap_outcome(r: Result<Vec<String>, LayoutError>) -> Result<
    Seq<Seq<char>>,
    Fault,
> {
    match r {
        Ok(lines) => Ok(lines.deep_view()),
        Err(e) => Err(e@),
    }
}

/// Packs `words` into lines of `width` characters, or reports the first word
/// that is too long.
pub fn wrap_words(words: &Vec<String>, width: u8) -> (r: Result<Vec<String>, LayoutError>)
    ensures
        wrap_outcome(r) == wrapped(words.deep_view(), width as nat),
{
    let ghost all = words.deep_view();
    let mut lines: Vec<String> = Vec::new();
    let mut line = String::new();
    let mut line_len: usize = 0;
    let mut k: usize = 0;
    proof {
        assert(all.take(0) =~= Seq::<Seq<char>>::empty());
    }
    while k < words.len()
        invariant
            k <= words.len(),
            all == words.deep_view(),
            all_fit(all.take(k as int), width as nat),
            lines.deep_view() == packing(all.take(k as int), width as nat).lines,
            line@ == packing(all.take(k as int), width as nat).line,
            line_len == line@.len(),
            line_len <= width + 1,
        decreases words.len() - k,
    {
        let word = words[k].as_str();
        let word_len = word.unicode_len();
        let ghost before = packing(all.take(k as int), width as nat);
        proof {
            assert(all[k as int] == word@);
            assert(all.take(k + 1).drop_last() =~= all.take(k as int));
            assert(all.take(k + 1).last() == word@);
        }
        if word_len > width as usize {
            proof {
                assert(first_misfit(all, width as nat, k as int));
                let j = choose|j: int| first_misfit(all, width as nat, j);
                lemma_first_misfit_unique(all, width as nat, j, k as int);
            }
            return Err(LayoutError::WordTooLong { word: words[k].clone() });
        }
        let breaks = word_len == 1 && word.get_char(0) == '\n';
        proof {
            assert(breaks == is_break(word@)) by {
                if breaks {
                    assert(word@ =~= seq!['\n']);
                }
            }
        }
        let ghost done = lines.deep_view();
        if breaks || line_len + word_len > width as usize {
            lines.push(line);
            line = String::new();
            line_len = 0;
            if !breaks {
                line.append(word);
                line.push(' ');
                line_len = word_len + 1;
            }
            proof {
                assert(lines.deep_view() =~= done.push(before.line));
                assert(line@ =~= place(before, word@, width as nat).line);
            }
        } else {
            line.append(word);
            line.push(' ');
            line_len = line_len + word_len + 1;
            proof {
                assert(line@ =~= place(before, word@, width as nat).line);
            }
        }
        k = k + 1;
        proof {
            assert forall|i: int| 0 <= i < all.take(k as int).len() implies (
            #[trigger] all.take(k as int)[i]).len() <= width by {
                if i < k - 1 {
                    assert(all.take(k - 1)[i] == all[i]);
                }
            }
        }
    }
    proof {
        assert(all.take(k as int) =~= all);
    }
    let ghost done = lines.deep_view();
    lines.push(line);
    proof {
        assert(lines.deep_view() =~= done.push(line@));
    }
    Ok(lines)
}

} // verus!
