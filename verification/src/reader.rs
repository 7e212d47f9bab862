//! Parsing a batch of lines: every line that parses gives a message, and
//! every other line a warning.

use vstd::prelude::*;
use crate::parser::{failure_text, parsed, MessageView, P2000Message, Parser};
use crate::text::{append, texts, to_chars, to_text};

verus! {

/// The messages and the warnings of a batch of lines.
#[derive(Debug)]
pub struct Batch {
    pub messages: Vec<P2000Message>,
    pub warnings: Vec<String>,
}

/// The texts of each message of a list.
pub open spec fn views(messages: Seq<P2000Message>) -> Seq<MessageView> {
    Seq::new(messages.len(), |i: int| messages[i]@)
}

/// The messages of the lines that parse, in the order of the lines.
pub open spec fn messages_of(lines: Seq<Seq<char>>) -> Seq<MessageView>
    decreases lines.len(),
{
    if lines.len() == 0 {
        Seq::empty()
    } else {
        match parsed(lines.last()) {
            Ok(message) => messages_of(lines.drop_last()).push(message),
            Err(_) => messages_of(lines.drop_last()),
        }
    }
}

/// The warning for a line that does not parse.
pub open spec fn warning(line: Seq<char>) -> Seq<char> {
    "Warning: Failed to parse line: "@ + failure_text(parsed(line)->Err_0)
}

/// The warnings for the lines that do not parse, in the order of the lines.
pub open spec fn warnings_of(lines: Seq<Seq<char>>) -> Seq<Seq<char>>
    decreases lines.len(),
{
    if lines.len() == 0 {
        Seq::empty()
    } else {
        match parsed(lines.last()) {
            Ok(_) => warnings_of(lines.drop_last()),
            Err(_) => warnings_of(lines.drop_last()).push(warning(lines.last())),
        }
    }
}

/// Parses each line on its own: a line that does not parse costs no other
/// line its message.
pub fn parse_lines(parser: &Parser, lines: &Vec<String>) -> (batch: Batch)
    ensures
        views(batch.messages@) == messages_of(texts(lines@)),
        texts(batch.warnings@) == warnings_of(texts(lines@)),
{
    let ghost all = texts(lines@);
    let mut messages: Vec<P2000Message> = Vec::new();
    let mut warnings: Vec<String> = Vec::new();
    let mut i: usize = 0;
    assert(all.take(0) == Seq::<Seq<char>>::empty());
    assert(views(messages@) == Seq::<MessageView>::empty());
    assert(texts(warnings@) == Seq::<Seq<char>>::empty());
    while i < lines.len()
        invariant
            i <= lines.len(),
            all == texts(lines@),
            views(messages@) == messages_of(all.take(i as int)),
            texts(warnings@) == warnings_of(all.take(i as int)),
        decreases lines.len() - i,
    {
        proof {
            assert(all.take(i + 1).drop_last() == all.take(i as int));
            assert(all.take(i + 1).last() == lines@[i as int]@);
        }
        match parser.parse_line(lines[i].as_str()) {
            Ok(message) => {
                let ghost before = views(messages@);
                messages.push(message);
                assert(views(messages@) == before.push(message@));
            },
            Err(error) => {
                let ghost before = texts(warnings@);
                let mut text = to_chars("Warning: Failed to parse line: ");
                append(&mut text, &to_chars(error.message().as_str()));
                let line = to_text(&text);
                warnings.push(line);
                assert(texts(warnings@) == before.push(line@));
            },
        }
        i = i + 1;
    }
    assert(all.take(lines.len() as int) == all);
    Batch { messages, warnings }
}

} // verus!
