//! Splitting a text at its spaces.

use vstd::prelude::*;

verus! {

/// `String::push` appends one character to the string.
pub assume_specification[ String::push ](s: &mut String, ch: char)
    ensures
        final(s)@ == old(s)@.push(ch),
;

/// The pieces of `text` between its spaces, in order. A text without a space
/// is one piece; two spaces in a row, or a space at either end, give an empty
/// piece.
pub open spec fn split(text: Seq<char>) -> Seq<Seq<char>>
    decreases text.len(),
{
    if text.len() == 0 {
        seq![Seq::<char>::empty()]
    } else {
        let before = split(text.drop_last());
        if text.last() == ' ' {
            before.push(Seq::<char>::empty())
        } else {
            before.drop_last().push(before.last().push(text.last()))
        }
    }
}

/// The words with one space between each two neighbours.
pub open spec fn join(words: Seq<Seq<char>>) -> Seq<char>
    decreases words.len(),
{
    if words.len() == 0 {
        Seq::empty()
    } else if words.len() == 1 {
        words[0]
    } else {
        join(words.drop_last()) + seq![' '] + words.last()
    }
}

/// Whether `word` holds no space.
pub open spec fn space_free(word: Seq<char>) -> bool {
    forall|k: int| 0 <= k < word.len() ==> word[k] != ' '
}

/// Whether every one of `words` holds no space.
pub open spec fn all_space_free(words: Seq<Seq<char>>) -> bool {
    forall|i: int| 0 <= i < words.len() ==> space_free(#[trigger] words[i])
}

/// A text splits into at least one piece, and no piece holds a space.
pub proof fn lemma_split_pieces(text: Seq<char>)
    ensures
        split(text).len() >= 1,
        all_space_free(split(text)),
    decreases text.len(),
{
    if text.len() > 0 {
        lemma_split_pieces(text.drop_last());
        let before = split(text.drop_last());
        assert forall|i: int| 0 <= i < split(text).len() implies space_free(
            #[trigger] split(text)[i],
        ) by {
            if i < before.len() - 1 {
                assert(split(text)[i] == before[i]);
            } else if text.last() != ' ' {
                assert(space_free(before[before.len() - 1]));
            }
        }
    }
}

/// Joining the pieces of a text gives the text back.
pub proof fn lemma_join_split(text: Seq<char>)
    ensures
        join(split(text)) == text,
    decreases text.len(),
{
    if text.len() == 0 {
        assert(join(split(text)) =~= text);
    } else {
        let front = text.drop_last();
        let before = split(front);
        lemma_split_pieces(front);
        lemma_join_split(front);
        if text.last() == ' ' {
            assert(before.push(Seq::<char>::empty()).drop_last() =~= before);
            assert(front + seq![' '] + Seq::<char>::empty() =~= text);
        } else {
            let grown = before.last().push(text.last());
            let after = before.drop_last().push(grown);
            assert(after.drop_last() =~= before.drop_last());
            if before.len() == 1 {
                assert(before.last() == front);
                assert(grown =~= text);
            } else {
                assert(join(before.drop_last()) + seq![' '] + grown =~= (join(before.drop_last())
                    + seq![' '] + before.last()).push(text.last()));
                assert(front.push(text.last()) =~= text);
            }
        }
    }
}

/// Appending characters other than spaces to a text lengthens its last piece.
pub proof fn lemma_split_append(text: Seq<char>, word: Seq<char>)
    requires
        space_free(word),
    ensures
        split(text + word) == split(text).drop_last().push(split(text).last() + word),
    decreases word.len(),
{
    lemma_split_pieces(text);
    let pieces = split(text);
    if word.len() == 0 {
        assert(text + word =~= text);
        assert(pieces.last() + word =~= pieces.last());
        assert(pieces.drop_last().push(pieces.last()) =~= pieces);
    } else {
        let front = word.drop_last();
        lemma_split_append(text, front);
        assert((text + word).drop_last() =~= text + front);
        assert((text + word).last() == word.last());
        let before = split(text + front);
        assert(before.drop_last() =~= pieces.drop_last());
        assert((pieces.last() + front).push(word.last()) =~= pieces.last() + word);
    }
}

/// Splitting the join of words without spaces gives the words back.
pub proof fn lemma_split_join(words: Seq<Seq<char>>)
    requires
        words.len() >= 1,
        all_space_free(words),
    ensures
        split(join(words)) == words,
    decreases words.len(),
{
    let last = words.last();
    assert(space_free(last));
    if words.len() == 1 {
        let nothing = Seq::<char>::empty();
        lemma_split_append(nothing, last);
        assert(nothing + last =~= last);
        assert(split(nothing).drop_last().push(split(nothing).last() + last) =~= words);
    } else {
        let front = words.drop_last();
        assert forall|i: int| 0 <= i < front.len() implies space_free(#[trigger] front[i]) by {
            assert(front[i] == words[i]);
        }
        lemma_split_join(front);
        let spaced = join(front) + seq![' '];
        assert(spaced.drop_last() =~= join(front));
        assert(split(spaced) == front.push(Seq::<char>::empty()));
        lemma_split_append(spaced, last);
        assert(split(spaced).drop_last().push(split(spaced).last() + last) =~= words);
    }
}

/// A space parts a text: the pieces of two texts with a space between them
/// are the pieces of the first, then those of the second.
pub proof fn lemma_split_at_space(first: Seq<char>, second: Seq<char>)
    ensures
        split(first + seq![' '] + second) == split(first) + split(second),
    decreases second.len(),
{
    let whole = first + seq![' '] + second;
    lemma_split_pieces(first);
    if second.len() == 0 {
        assert(whole.drop_last() =~= first);
        assert(split(first).push(Seq::<char>::empty()) =~= split(first) + split(second));
    } else {
        let front = second.drop_last();
        lemma_split_at_space(first, front);
        lemma_split_pieces(front);
        assert(whole.drop_last() =~= first + seq![' '] + front);
        assert(whole.last() == second.last());
        let before = split(first) + split(front);
        if second.last() == ' ' {
            assert(before.push(Seq::<char>::empty()) =~= split(first) + split(second));
        } else {
            assert(before.last() == split(front).last());
            assert(before.drop_last() =~= split(first) + split(front).drop_last());
            assert(before.drop_last().push(before.last().push(second.last())) =~= split(first)
                + split(second));
        }
    }
}

/// If words without spaces, joined, give a text, they are its pieces: no
/// other such words give the same text.
pub proof fn lemma_split_unique(text: Seq<char>, words: Seq<Seq<char>>)
    requires
        words.len() >= 1,
        all_space_free(words),
        join(words) == text,
    ensures
        split(text) == words,
{
    lemma_split_join(words);
}

/// Splits `text` at every space.
pub fn split_words(text: &str) -> (words: Vec<String>)
    ensures
        words.deep_view() == split(text@),
{
    let mut words: Vec<String> = Vec::new();
    let mut word = String::new();
    let ghost mut seen: int = 0;
    proof {
        assert(text@.take(0) =~= Seq::<char>::empty());
        assert(words.deep_view().push(word@) =~= seq![Seq::<char>::empty()]);
    }
    let chars = text.chars();
    for c in it: chars
        invariant
            it.seq() == text@,
            seen == it.index(),
            split(text@.take(seen)) == words.deep_view().push(word@),
    {
        let ghost before = split(text@.take(seen));
        let ghost done = words.deep_view();
        proof {
            assert(c == text@[seen]);
            assert(text@.take(seen + 1).drop_last() =~= text@.take(seen));
            assert(before.drop_last() =~= done);
            seen = seen + 1;
        }
        if c == ' ' {
            words.push(word);
            word = String::new();
            proof {
                assert(words.deep_view() =~= before);
            }
        } else {
            word.push(c);
        }
    }
    proof {
        assert(text@.take(seen) =~= text@);
    }
    let ghost done = words.deep_view();
    words.push(word);
    proof {
        assert(words.deep_view() =~= done.push(word@));
    }
    words
}

} // verus!
