//! Cutting a text into fields at a separator, or into words at white space,
//! and joining parts again.

use vstd::prelude::*;
use crate::text::{append, rows, white_space};

verus! {

/// The fields of `text` between occurrences of `sep`. Reading from the left,
/// a separator opens a new, empty field and any other character extends the
/// last field; the empty text has one empty field.
pub open spec fn split(text: Seq<char>, sep: char) -> Seq<Seq<char>>
    decreases text.len(),
{
    if text.len() == 0 {
        seq![Seq::empty()]
    } else {
        let before = split(text.drop_last(), sep);
        if text.last() == sep {
            before.push(Seq::empty())
        } else {
            before.drop_last().push(before.last().push(text.last()))
        }
    }
}

/// The parts written one after the other with `sep` between neighbours.
pub open spec fn join(parts: Seq<Seq<char>>, sep: Seq<char>) -> Seq<char>
    decreases parts.len(),
{
    if parts.len() == 0 {
        Seq::empty()
    } else if parts.len() == 1 {
        parts[0]
    } else {
        join(parts.drop_last(), sep) + sep + parts.last()
    }
}

/// The words of `text`: its maximal runs of characters that are not white
/// space. Reading from the left, white space adds nothing, a character that
/// follows white space or stands first opens a word, and any other character
/// extends the last word.
pub open spec fn words(text: Seq<char>) -> Seq<Seq<char>>
    decreases text.len(),
{
    if text.len() == 0 {
        Seq::empty()
    } else {
        let before = words(text.drop_last());
        if white_space(text.last()) {
            before
        } else if text.len() >= 2 && !white_space(text[text.len() - 2]) {
            before.drop_last().push(before.last().push(text.last()))
        } else {
            before.push(seq![text.last()])
        }
    }
}

/// How often `c` occurs in `text`.
pub open spec fn count(text: Seq<char>, c: char) -> nat
    decreases text.len(),
{
    if text.len() == 0 {
        0
    } else {
        count(text.drop_last(), c) + if text.last() == c { 1nat } else { 0nat }
    }
}

/// A text has one field more than it has separators.
pub proof fn lemma_split_len(text: Seq<char>, sep: char)
    ensures
        split(text, sep).len() == count(text, sep) + 1,
    decreases text.len(),
{
    if text.len() > 0 {
        lemma_split_len(text.drop_last(), sep);
    }
}

/// No field holds the separator.
pub proof fn lemma_split_fields_hold_no_separator(text: Seq<char>, sep: char)
    ensures
        forall|i: int, j: int|
            0 <= i < split(text, sep).len() && 0 <= j < split(text, sep)[i].len()
                ==> #[trigger] split(text, sep)[i][j] != sep,
    decreases text.len(),
{
    if text.len() > 0 {
        lemma_split_len(text.drop_last(), sep);
        lemma_split_fields_hold_no_separator(text.drop_last(), sep);
    }
}

/// Joining the fields with the separator gives the text back.
pub proof fn lemma_join_split(text: Seq<char>, sep: char)
    ensures
        join(split(text, sep), seq![sep]) == text,
    decreases text.len(),
{
    if text.len() > 0 {
        let shorter = text.drop_last();
        let before = split(shorter, sep);
        lemma_split_len(shorter, sep);
        lemma_join_split(shorter, sep);
        if text.last() == sep {
            let all = before.push(Seq::empty());
            assert(all.drop_last() == before);
            assert(join(all, seq![sep]) == shorter + seq![sep] + Seq::<char>::empty());
            assert(shorter + seq![sep] + Seq::<char>::empty() == text);
        } else {
            let grown = before.last().push(text.last());
            let all = before.drop_last().push(grown);
            if before.len() == 1 {
                assert(join(all, seq![sep]) == grown);
                assert(join(before, seq![sep]) == before[0]);
                assert(grown == text);
            } else {
                assert(all.drop_last() == before.drop_last());
                assert(join(all, seq![sep]) == join(before.drop_last(), seq![sep]) + seq![sep]
                    + grown);
                assert(join(before, seq![sep]) == join(before.drop_last(), seq![sep]) + seq![sep]
                    + before.last());
                assert(join(before.drop_last(), seq![sep]) + seq![sep] + grown == (join(
                    before.drop_last(),
                    seq![sep],
                ) + seq![sep] + before.last()).push(text.last()));
                assert(shorter.push(text.last()) == text);
            }
        }
    }
}

/// Every word is non-empty and free of white space, and a text that ends in a
/// character that is not white space has at least one word.
pub proof fn lemma_words_shape(text: Seq<char>)
    ensures
        forall|i: int| 0 <= i < words(text).len() ==> (#[trigger] words(text)[i]).len() > 0,
        forall|i: int, j: int|
            0 <= i < words(text).len() && 0 <= j < words(text)[i].len() ==> !white_space(
                #[trigger] words(text)[i][j],
            ),
        text.len() > 0 && !white_space(text.last()) ==> words(text).len() > 0,
    decreases text.len(),
{
    if text.len() > 0 {
        let shorter = text.drop_last();
        let before = words(shorter);
        let c = text.last();
        lemma_words_shape(shorter);
        if white_space(c) {
        } else if text.len() >= 2 && !white_space(text[text.len() - 2]) {
            assert(shorter.last() == text[text.len() - 2]);
            let grown = before.last().push(c);
            let all = before.drop_last().push(grown);
            assert forall|i: int| 0 <= i < all.len() implies (#[trigger] all[i]).len() > 0 by {
                if i < all.len() - 1 {
                    assert(all[i] == before[i]);
                }
            }
            assert forall|i: int, j: int|
                0 <= i < all.len() && 0 <= j < all[i].len() implies !white_space(
                #[trigger] all[i][j],
            ) by {
                if i < all.len() - 1 {
                    assert(all[i] == before[i]);
                } else if j < grown.len() - 1 {
                    assert(grown[j] == before.last()[j]);
                }
            }
        } else {
            let all = before.push(seq![c]);
            assert forall|i: int| 0 <= i < all.len() implies (#[trigger] all[i]).len() > 0 by {
                if i < all.len() - 1 {
                    assert(all[i] == before[i]);
                }
            }
            assert forall|i: int, j: int|
                0 <= i < all.len() && 0 <= j < all[i].len() implies !white_space(
                #[trigger] all[i][j],
            ) by {
                if i < all.len() - 1 {
                    assert(all[i] == before[i]);
                }
            }
        }
    }
}

/// The fields of `chars` between occurrences of `sep`.
pub fn split_fields(chars: &Vec<char>, sep: char) -> (fields: Vec<Vec<char>>)
    ensures
        rows(fields@) == split(chars@, sep),
{
    let mut fields: Vec<Vec<char>> = Vec::new();
    let mut current: Vec<char> = Vec::new();
    let mut i: usize = 0;
    assert(chars@.take(0) == Seq::<char>::empty());
    assert(rows(fields@).push(current@) == seq![Seq::<char>::empty()]);
    while i < chars.len()
        invariant
            i <= chars.len(),
            split(chars@.take(i as int), sep) == rows(fields@).push(current@),
        decreases chars.len() - i,
    {
        let c = chars[i];
        proof {
            assert(chars@.take(i + 1).drop_last() == chars@.take(i as int));
            assert(rows(fields@).push(current@).drop_last() == rows(fields@));
        }
        if c == sep {
            let ghost before = rows(fields@);
            let ghost closed = current@;
            fields.push(current);
            current = Vec::new();
            assert(rows(fields@) == before.push(closed));
        } else {
            current.push(c);
        }
        i = i + 1;
    }
    assert(chars@.take(chars.len() as int) == chars@);
    let ghost before = rows(fields@);
    let ghost closed = current@;
    fields.push(current);
    assert(rows(fields@) == before.push(closed));
    fields
}

/// The words of `chars`.
pub fn split_words(chars: &Vec<char>) -> (found: Vec<Vec<char>>)
    ensures
        rows(found@) == words(chars@),
{
    let mut found: Vec<Vec<char>> = Vec::new();
    let mut current: Vec<char> = Vec::new();
    let mut i: usize = 0;
    assert(chars@.take(0) == Seq::<char>::empty());
    assert(rows(found@) == Seq::<Seq<char>>::empty());
    while i < chars.len()
        invariant
            i <= chars.len(),
            current@.len() > 0 <==> (i > 0 && !white_space(chars@[i - 1])),
            words(chars@.take(i as int)) == if current@.len() > 0 {
                rows(found@).push(current@)
            } else {
                rows(found@)
            },
        decreases chars.len() - i,
    {
        let c = chars[i];
        let ghost upto = chars@.take(i + 1);
        let ghost before = words(chars@.take(i as int));
        proof {
            assert(upto.drop_last() == chars@.take(i as int));
            assert(upto.last() == c);
            if i > 0 {
                assert(upto[upto.len() - 2] == chars@[i - 1]);
            }
        }
        if c.is_whitespace() {
            if current.len() > 0 {
                let ghost kept = rows(found@);
                let ghost closed = current@;
                found.push(current);
                current = Vec::new();
                assert(rows(found@) == kept.push(closed));
            }
            assert(words(upto) == before);
        } else {
            let ghost kept = rows(found@);
            let ghost open = current@;
            current.push(c);
            proof {
                if open.len() > 0 {
                    assert(before == kept.push(open));
                    assert(before.drop_last() == kept);
                    assert(before.last() == open);
                    assert(words(upto) == kept.push(open.push(c)));
                } else {
                    assert(before == kept);
                    assert(current@ == seq![c]);
                    assert(words(upto) == kept.push(seq![c]));
                }
            }
        }
        i = i + 1;
    }
    assert(chars@.take(chars.len() as int) == chars@);
    if current.len() > 0 {
        let ghost before = rows(found@);
        let ghost closed = current@;
        found.push(current);
        assert(rows(found@) == before.push(closed));
    }
    found
}

/// The parts from position `from` on, joined with `sep` between neighbours.
pub fn join_rows(parts: &Vec<Vec<char>>, from: usize, sep: &Vec<char>) -> (joined: Vec<char>)
    requires
        from <= parts.len(),
    ensures
        joined@ == join(rows(parts@).skip(from as int), sep@),
{
    let mut joined: Vec<char> = Vec::new();
    let mut i: usize = from;
    assert(rows(parts@).subrange(from as int, i as int) == Seq::<Seq<char>>::empty());
    while i < parts.len()
        invariant
            from <= i <= parts.len(),
            joined@ == join(rows(parts@).subrange(from as int, i as int), sep@),
        decreases parts.len() - i,
    {
        proof {
            let upto = rows(parts@).subrange(from as int, i + 1);
            assert(upto.drop_last() == rows(parts@).subrange(from as int, i as int));
            assert(upto.last() == parts@[i as int]@);
        }
        if i > from {
            append(&mut joined, sep);
        }
        append(&mut joined, &parts[i]);
        i = i + 1;
    }
    assert(rows(parts@).subrange(from as int, parts.len() as int) == rows(parts@).skip(
        from as int,
    ));
    joined
}

} // verus!
