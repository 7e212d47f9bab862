//! Notes on a message from the three reference tables: what its capability
//! codes stand for, where it happened, and what its abbreviations mean.

use vstd::prelude::*;
use crate::fields::{join, join_rows, split_words, words};
use crate::location::{first_hit, found_at, found_text, hit, GazetteerView, LocationLookup};
use crate::lookup::{expansion, normalize, CapcodeEntry, Lookup, LookupView};
use crate::parser::{MessageView, P2000Message};
use crate::text::{append, rows, same, slice, texts, to_chars, to_text, trim, trimmed, CharSet};

verus! {

/// What stands for a directory entry: its description, else its short
/// label, else its code.
pub open spec fn label(entry: CapcodeEntry) -> Seq<char> {
    if entry.description.len() > 0 {
        entry.description
    } else if entry.short.len() > 0 {
        entry.short
    } else {
        entry.code
    }
}

/// What stands for each capability code that the directory knows, in order.
pub open spec fn labels(lookup: LookupView, capcodes: Seq<Seq<char>>) -> Seq<Seq<char>>
    decreases capcodes.len(),
{
    if capcodes.len() == 0 {
        Seq::empty()
    } else {
        let before = labels(lookup, capcodes.drop_last());
        let key = normalize(capcodes.last());
        if lookup.capcodes.contains_key(key) {
            before.push(label(lookup.capcodes[key]))
        } else {
            before
        }
    }
}

/// The note on the capability codes: `None` where the directory knows none
/// of them.
pub open spec fn capcode_note(lookup: LookupView, capcodes: Seq<Seq<char>>) -> Option<Seq<char>> {
    if labels(lookup, capcodes).len() == 0 {
        None
    } else {
        Some(join(labels(lookup, capcodes), ", "@))
    }
}

/// The words of a content as tokens: each without the punctuation around
/// it, and left out where nothing remains.
pub open spec fn tokens_of(found: Seq<Seq<char>>) -> Seq<Seq<char>>
    decreases found.len(),
{
    if found.len() == 0 {
        Seq::empty()
    } else {
        let before = tokens_of(found.drop_last());
        let token = trim(found.last(), CharSet::Punctuation);
        if token.len() > 0 {
            before.push(token)
        } else {
            before
        }
    }
}

/// What may be an abbreviation: each token, and before each token but the
/// first the token before it written together with it.
pub open spec fn candidates(tokens: Seq<Seq<char>>) -> Seq<Seq<char>>
    decreases tokens.len(),
{
    if tokens.len() == 0 {
        Seq::empty()
    } else if tokens.len() == 1 {
        seq![tokens[0]]
    } else {
        candidates(tokens.drop_last()).push(tokens[tokens.len() - 2] + tokens.last()).push(
            tokens.last(),
        )
    }
}

/// The candidates that have a meaning, each once, in the order of their
/// first occurrence.
pub open spec fn reported(lookup: LookupView, found: Seq<Seq<char>>) -> Seq<Seq<char>>
    decreases found.len(),
{
    if found.len() == 0 {
        Seq::empty()
    } else {
        let before = reported(lookup, found.drop_last());
        if expansion(lookup, found.last()) is Some && !before.contains(found.last()) {
            before.push(found.last())
        } else {
            before
        }
    }
}

/// An abbreviation with its meaning.
pub open spec fn meaning_line(lookup: LookupView, literal: Seq<char>) -> Seq<char> {
    literal + ": "@ + expansion(lookup, literal)->0
}

/// Each abbreviation with its meaning.
pub open spec fn meaning_lines(lookup: LookupView, literals: Seq<Seq<char>>) -> Seq<Seq<char>> {
    Seq::new(literals.len(), |i: int| meaning_line(lookup, literals[i]))
}

/// The note on the abbreviations of a content: `-` where it has none.
pub open spec fn abbreviation_note(lookup: LookupView, content: Seq<char>) -> Seq<char> {
    let literals = reported(lookup, candidates(tokens_of(words(content))));
    if literals.len() == 0 {
        "-"@
    } else {
        join(meaning_lines(lookup, literals), "; "@)
    }
}

/// The text that is searched for place names: the location fragment, a
/// space, and the content.
pub open spec fn searched_text(message: MessageView) -> Seq<char> {
    message.location + " "@ + message.content
}

/// Whether `note` is the note on the place of a message: the line that
/// describes the first hit in the searched text, and the location fragment
/// where there is no hit.
pub open spec fn is_location_note(places: GazetteerView, message: MessageView, note: Seq<char>)
    -> bool {
    ||| exists|i: int|
        first_hit(places, searched_text(message), i) && note == found_text(found_at(places, i))
    ||| ((forall|i: int| !hit(places, searched_text(message), i)) && note == message.location)
}

/// What stands for each capability code of `msg` that the directory knows,
/// joined with `, `; `None` where it knows none of them.
pub fn format_capcodes(lookup: &Lookup, msg: &P2000Message) -> (note: Option<String>)
    ensures
        crate::pattern::text_of(note) == capcode_note(lookup@, msg@.capcodes),
{
    let ghost all = msg@.capcodes;
    let mut parts: Vec<Vec<char>> = Vec::new();
    let mut i: usize = 0;
    assert(all.take(0) == Seq::<Seq<char>>::empty());
    assert(rows(parts@) == Seq::<Seq<char>>::empty());
    while i < msg.capcodes.len()
        invariant
            i <= msg.capcodes.len(),
            all == texts(msg.capcodes@),
            rows(parts@) == labels(lookup@, all.take(i as int)),
        decreases msg.capcodes.len() - i,
    {
        proof {
            assert(all.take(i + 1).drop_last() == all.take(i as int));
            assert(all.take(i + 1).last() == msg.capcodes@[i as int]@);
        }
        match lookup.resolve_capcode(msg.capcodes[i].as_str()) {
            Some(info) => {
                let ghost before = rows(parts@);
                let chosen = if !info.description.as_str().is_empty() {
                    to_chars(info.description.as_str())
                } else if !info.short.as_str().is_empty() {
                    to_chars(info.short.as_str())
                } else {
                    to_chars(info.code.as_str())
                };
                parts.push(chosen);
                assert(rows(parts@) == before.push(label(info@)));
            },
            None => {},
        }
        i = i + 1;
    }
    assert(all.take(msg.capcodes.len() as int) == all);
    if parts.len() == 0 {
        None
    } else {
        let line = join_rows(&parts, 0, &to_chars(", "));
        assert(rows(parts@).skip(0) == rows(parts@));
        Some(to_text(&line))
    }
}

/// The tokens of the words `found`.
pub fn clean_tokens(found: &Vec<Vec<char>>) -> (tokens: Vec<Vec<char>>)
    ensures
        rows(tokens@) == tokens_of(rows(found@)),
{
    let ghost all = rows(found@);
    let mut tokens: Vec<Vec<char>> = Vec::new();
    let mut i: usize = 0;
    assert(all.take(0) == Seq::<Seq<char>>::empty());
    assert(rows(tokens@) == Seq::<Seq<char>>::empty());
    while i < found.len()
        invariant
            i <= found.len(),
            all == rows(found@),
            rows(tokens@) == tokens_of(all.take(i as int)),
        decreases found.len() - i,
    {
        proof {
            assert(all.take(i + 1).drop_last() == all.take(i as int));
            assert(all.take(i + 1).last() == found@[i as int]@);
        }
        let token = trimmed(&found[i], CharSet::Punctuation);
        if token.len() > 0 {
            let ghost before = rows(tokens@);
            tokens.push(token);
            assert(rows(tokens@) == before.push(token@));
        }
        i = i + 1;
    }
    assert(all.take(found.len() as int) == all);
    tokens
}

/// Whether `item` is among `items`.
pub fn is_among(items: &Vec<Vec<char>>, item: &Vec<char>) -> (found: bool)
    ensures
        found == rows(items@).contains(item@),
{
    let mut i: usize = 0;
    while i < items.len()
        invariant
            i <= items.len(),
            forall|k: int| 0 <= k < i ==> rows(items@)[k] != item@,
        decreases items.len() - i,
    {
        if same(&items[i], item) {
            assert(rows(items@)[i as int] == item@);
            return true;
        }
        i = i + 1;
    }
    false
}

/// The literals after `candidate` was looked at: it is added where it has
/// a meaning and is not among them.
pub open spec fn with_candidate(lookup: LookupView, literals: Seq<Seq<char>>, candidate: Seq<char>)
    -> Seq<Seq<char>> {
    if expansion(lookup, candidate) is Some && !literals.contains(candidate) {
        literals.push(candidate)
    } else {
        literals
    }
}

/// Looks at one candidate: where it has a meaning and was not reported, it
/// is added to the literals, and its line to the lines.
fn consider(
    lookup: &Lookup,
    candidate: Vec<char>,
    literals: &mut Vec<Vec<char>>,
    lines: &mut Vec<Vec<char>>,
)
    requires
        rows(old(lines)@) == meaning_lines(lookup@, rows(old(literals)@)),
    ensures
        rows(final(literals)@) == with_candidate(lookup@, rows(old(literals)@), candidate@),
        rows(final(lines)@) == meaning_lines(lookup@, rows(final(literals)@)),
{
    match lookup.expand(&candidate) {
        Some(meaning) => {
            if !is_among(literals, &candidate) {
                let ghost literals_before = rows(literals@);
                let ghost lines_before = rows(lines@);
                let mut line = slice(&candidate, 0, candidate.len());
                assert(line@ == candidate@);
                append(&mut line, &to_chars(": "));
                append(&mut line, &to_chars(meaning.as_str()));
                assert(line@ == meaning_line(lookup@, candidate@));
                literals.push(candidate);
                lines.push(line);
                assert(rows(literals@) == literals_before.push(candidate@));
                assert(rows(lines@) == lines_before.push(line@));
                assert(rows(lines@) == meaning_lines(lookup@, rows(literals@)));
            }
        },
        None => {},
    }
}

/// The note on the abbreviations of `msg`: each abbreviation that the
/// glossary knows, once, with its meaning, joined with `; `, and `-` where
/// there is none. A token counts, and so do two neighbouring tokens written
/// together.
pub fn format_abbreviations(lookup: &Lookup, msg: &P2000Message) -> (note: String)
    ensures
        note@ == abbreviation_note(lookup@, msg@.content),
{
    let found = split_words(&to_chars(msg.content.as_str()));
    let tokens = clean_tokens(&found);
    let ghost all = rows(tokens@);
    let mut literals: Vec<Vec<char>> = Vec::new();
    let mut lines: Vec<Vec<char>> = Vec::new();
    let mut i: usize = 0;
    assert(all.take(0) == Seq::<Seq<char>>::empty());
    assert(rows(literals@) == Seq::<Seq<char>>::empty());
    assert(rows(lines@) == meaning_lines(lookup@, rows(literals@)));
    while i < tokens.len()
        invariant
            i <= tokens.len(),
            all == rows(tokens@),
            rows(literals@) == reported(lookup@, candidates(all.take(i as int))),
            rows(lines@) == meaning_lines(lookup@, rows(literals@)),
        decreases tokens.len() - i,
    {
        let ghost upto = all.take(i + 1);
        let ghost before = candidates(all.take(i as int));
        proof {
            assert(upto.drop_last() == all.take(i as int));
            assert(upto.last() == tokens@[i as int]@);
        }
        let ghost middle;
        if i > 0 {
            let mut pair = slice(&tokens[i - 1], 0, tokens[i - 1].len());
            append(&mut pair, &tokens[i]);
            proof {
                middle = before.push(pair@);
                assert(upto[upto.len() - 2] == tokens@[i - 1]@);
                assert(pair@ == tokens@[i - 1]@ + tokens@[i as int]@);
                assert(candidates(upto) == middle.push(tokens@[i as int]@));
                assert(middle.drop_last() == before);
                assert(middle.last() == pair@);
                assert(reported(lookup@, middle) == with_candidate(
                    lookup@,
                    reported(lookup@, before),
                    pair@,
                ));
            }
            consider(lookup, pair, &mut literals, &mut lines);
        } else {
            proof {
                middle = before;
                assert(before == Seq::<Seq<char>>::empty());
                assert(candidates(upto) == middle.push(tokens@[i as int]@));
            }
        }
        let single = slice(&tokens[i], 0, tokens[i].len());
        proof {
            assert(single@ == tokens@[i as int]@);
            assert(middle.push(single@).drop_last() == middle);
            assert(middle.push(single@).last() == single@);
            assert(reported(lookup@, middle.push(single@)) == with_candidate(
                lookup@,
                reported(lookup@, middle),
                single@,
            ));
        }
        consider(lookup, single, &mut literals, &mut lines);
        i = i + 1;
    }
    assert(all.take(tokens.len() as int) == all);
    if lines.len() == 0 {
        "-".to_owned()
    } else {
        let line = join_rows(&lines, 0, &to_chars("; "));
        assert(rows(lines@).skip(0) == rows(lines@));
        to_text(&line)
    }
}

/// The note on the place of `msg`: the first place name found in its
/// location fragment and content, with what is known of the place, and the
/// location fragment alone where no name is found.
pub fn format_location(places: &LocationLookup, msg: &P2000Message) -> (note: String)
    ensures
        is_location_note(places@, msg@, note@),
{
    let mut full = to_chars(msg.location.as_str());
    append(&mut full, &to_chars(" "));
    append(&mut full, &to_chars(msg.content.as_str()));
    let text = to_text(&full);
    match places.find_location_by_text(text.as_str()) {
        Some(found) => places.format_found_location(&found),
        None => msg.location.clone(),
    }
}

/// Every candidate that has a meaning is reported.
pub proof fn lemma_known_candidate_is_reported(
    lookup: LookupView,
    found: Seq<Seq<char>>,
    i: int,
)
    requires
        0 <= i < found.len(),
        expansion(lookup, found[i]) is Some,
    ensures
        reported(lookup, found).contains(found[i]),
    decreases found.len(),
{
    let before = reported(lookup, found.drop_last());
    if i < found.len() - 1 {
        lemma_known_candidate_is_reported(lookup, found.drop_last(), i);
        assert(found.drop_last()[i] == found[i]);
        let k = choose|k: int| 0 <= k < before.len() && before[k] == found[i];
        if reported(lookup, found) != before {
            assert(reported(lookup, found)[k] == before[k]);
        }
    } else {
        if before.contains(found.last()) {
        } else {
            assert(reported(lookup, found) == before.push(found.last()));
            assert(reported(lookup, found)[before.len() as int] == found.last());
        }
    }
}

/// Two neighbouring tokens written together are a candidate, and so is
/// each token.
pub proof fn lemma_candidates_hold_pairs(tokens: Seq<Seq<char>>, i: int)
    requires
        0 <= i < tokens.len(),
    ensures
        candidates(tokens).contains(tokens[i]),
        i + 1 < tokens.len() ==> candidates(tokens).contains(tokens[i] + tokens[i + 1]),
    decreases tokens.len(),
{
    let all = candidates(tokens);
    if tokens.len() == 1 {
        assert(all[0] == tokens[0]);
    } else {
        let before = candidates(tokens.drop_last());
        let pair = tokens[tokens.len() - 2] + tokens.last();
        assert(all == before.push(pair).push(tokens.last()));
        assert(all[before.len() as int] == pair);
        assert(all[before.len() as int + 1] == tokens.last());
        if i < tokens.len() - 1 {
            lemma_candidates_hold_pairs(tokens.drop_last(), i);
            assert(tokens.drop_last()[i] == tokens[i]);
            let k = choose|k: int| 0 <= k < before.len() && before[k] == tokens[i];
            assert(all[k] == before[k]);
            if i + 1 < tokens.len() - 1 {
                assert(tokens.drop_last()[i + 1] == tokens[i + 1]);
                let m = choose|m: int|
                    0 <= m < before.len() && before[m] == tokens[i] + tokens[i + 1];
                assert(all[m] == before[m]);
            }
        }
    }
}

/// An abbreviation that the content writes as two neighbouring tokens is
/// reported as one: where the two tokens written together have a meaning,
/// the report holds them so.
pub proof fn lemma_split_abbreviation_is_reported(
    lookup: LookupView,
    tokens: Seq<Seq<char>>,
    i: int,
)
    requires
        0 <= i,
        i + 1 < tokens.len(),
        expansion(lookup, tokens[i] + tokens[i + 1]) is Some,
    ensures
        reported(lookup, candidates(tokens)).contains(tokens[i] + tokens[i + 1]),
{
    lemma_candidates_hold_pairs(tokens, i);
    let all = candidates(tokens);
    let k = choose|k: int| 0 <= k < all.len() && all[k] == tokens[i] + tokens[i + 1];
    lemma_known_candidate_is_reported(lookup, all, k);
}

} // verus!
