//! Parsing one transmission line into a message.

use vstd::prelude::*;
use crate::clock::{pair_of, parse_timestamp, timestamp_of, Timestamp};
use crate::fields::{count, join, join_rows, lemma_split_len, split, split_fields, split_words,
    words};
use crate::pattern::{compile, compiled_from, find, first_match, text_of};
use crate::text::{append, decimal, decimal_chars, numeric, rows, slice, texts, to_chars, to_text,
    trim, trim_end, trim_start, trimmed, white_space, CharSet};

verus! {

/// The character between the fields of a line.
pub const DELIMITER: char = '|';

/// The least number of fields of a line.
pub const MIN_FIELDS: usize = 7;

/// The pattern of the point in time in the second field.
pub const TIMESTAMP_FORMAT: &'static str = "%Y-%m-%d %H:%M:%S";

/// The expression that finds the priority at the start of the content.
pub const PRIORITY_PATTERN: &'static str = r"^([PA]\d|B)\s";

/// The expression that finds an incident code in the content.
pub const INCIDENT_CODE_PATTERN: &'static str = r"\b([A-Z]{2,3}-\d{2})\b";

/// Why a line is no message.
#[derive(Debug)]
pub enum ParseError {
    /// The line has too few fields; the text says how many it has.
    InvalidFormat(String),
    /// The second field names no point in time; the text is the field.
    InvalidTimestamp(String),
    /// A field is missing; the text names it.
    MissingField(String),
}

/// The texts of a parse error.
pub enum ParseFailure {
    InvalidFormat(Seq<char>),
    InvalidTimestamp(Seq<char>),
    MissingField(Seq<char>),
}

impl View for ParseError {
    type V = ParseFailure;

    open spec fn view(&self) -> ParseFailure {
        match self {
            ParseError::InvalidFormat(text) => ParseFailure::InvalidFormat(text@),
            ParseError::InvalidTimestamp(text) => ParseFailure::InvalidTimestamp(text@),
            ParseError::MissingField(text) => ParseFailure::MissingField(text@),
        }
    }
}

/// The message that a failure shows.
pub open spec fn failure_text(failure: ParseFailure) -> Seq<char> {
    match failure {
        ParseFailure::InvalidFormat(text) => "Invalid FLEX format: "@ + text,
        ParseFailure::InvalidTimestamp(text) => "Invalid timestamp: "@ + text,
        ParseFailure::MissingField(text) => "Missing field: "@ + text,
    }
}

impl ParseError {
    /// The message that the error shows.
    pub fn message(&self) -> (text: String)
        ensures
            text@ == failure_text(self@),
    {
        let mut chars: Vec<char>;
        match self {
            ParseError::InvalidFormat(detail) => {
                chars = to_chars("Invalid FLEX format: ");
                append(&mut chars, &to_chars(detail.as_str()));
            },
            ParseError::InvalidTimestamp(detail) => {
                chars = to_chars("Invalid timestamp: ");
                append(&mut chars, &to_chars(detail.as_str()));
            },
            ParseError::MissingField(detail) => {
                chars = to_chars("Missing field: ");
                append(&mut chars, &to_chars(detail.as_str()));
            },
        }
        to_text(&chars)
    }
}

/// One parsed transmission.
#[derive(Debug, Clone)]
pub struct P2000Message {
    pub protocol: String,
    pub timestamp: Timestamp,
    pub radio_address: String,
    pub frequency: String,
    pub capcodes: Vec<String>,
    pub message_type: String,
    pub content: String,
    pub priority: Option<String>,
    pub incident_code: Option<String>,
    pub location: String,
    pub units: Vec<String>,
}

/// The texts of a message.
pub struct MessageView {
    pub protocol: Seq<char>,
    pub timestamp: Timestamp,
    pub radio_address: Seq<char>,
    pub frequency: Seq<char>,
    pub capcodes: Seq<Seq<char>>,
    pub message_type: Seq<char>,
    pub content: Seq<char>,
    pub priority: Option<Seq<char>>,
    pub incident_code: Option<Seq<char>>,
    pub location: Seq<char>,
    pub units: Seq<Seq<char>>,
}

impl View for P2000Message {
    type V = MessageView;

    open spec fn view(&self) -> MessageView {
        MessageView {
            protocol: self.protocol@,
            timestamp: self.timestamp,
            radio_address: self.radio_address@,
            frequency: self.frequency@,
            capcodes: texts(self.capcodes@),
            message_type: self.message_type@,
            content: self.content@,
            priority: text_of(self.priority),
            incident_code: text_of(self.incident_code),
            location: self.location@,
            units: texts(self.units@),
        }
    }
}

/// Whether every character of `token` is a number.
pub open spec fn all_numeric(token: Seq<char>) -> bool {
    forall|i: int| 0 <= i < token.len() ==> numeric(#[trigger] token[i])
}

/// Whether every character of `token` is a number or a hyphen.
pub open spec fn all_numeric_or_hyphen(token: Seq<char>) -> bool {
    forall|i: int| 0 <= i < token.len() ==> numeric(#[trigger] token[i]) || token[i] == '-'
}

/// Whether `token` ends the location: a number of at most six characters.
pub open spec fn ends_location(token: Seq<char>) -> bool {
    token.len() <= 6 && all_numeric(token)
}

/// Whether `token` is left out of the location: a token of at most three
/// characters, or one made of numbers and hyphens.
pub open spec fn left_out(token: Seq<char>) -> bool {
    token.len() <= 3 || all_numeric_or_hyphen(token)
}

/// The words of the location among `tokens`. Reading from the right, the
/// first token that ends the location stops the reading; of the tokens
/// before that, those left out are passed over and the others are kept, in
/// the order of the text.
pub open spec fn location_words(tokens: Seq<Seq<char>>) -> Seq<Seq<char>>
    decreases tokens.len(),
{
    if tokens.len() == 0 {
        Seq::empty()
    } else if ends_location(tokens.last()) {
        Seq::empty()
    } else if left_out(tokens.last()) {
        location_words(tokens.drop_last())
    } else {
        location_words(tokens.drop_last()).push(tokens.last())
    }
}

/// The location fragment of a content.
pub open spec fn location_of(content: Seq<char>) -> Seq<char> {
    join(location_words(words(content)), seq![' '])
}

/// The priority that a match of the priority expression gives: the matched
/// text without the white space around it.
pub open spec fn priority_of(found: Option<Seq<char>>) -> Option<Seq<char>> {
    match found {
        Some(text) => Some(trim(text, CharSet::Whitespace)),
        None => None,
    }
}

/// The content of a line of at least seven fields: the fields from the
/// seventh on, joined with the delimiter.
pub open spec fn content_of(fields: Seq<Seq<char>>) -> Seq<char> {
    join(fields.skip(6), seq![DELIMITER])
}

/// What the fields of a line give, with the point in time that the second
/// field names and the matches of the two expressions in the content.
pub open spec fn composed(
    fields: Seq<Seq<char>>,
    stamp: Option<(i64, u32)>,
    priority_match: Option<Seq<char>>,
    incident_match: Option<Seq<char>>,
) -> Result<MessageView, ParseFailure> {
    if fields.len() < MIN_FIELDS {
        Err(
            ParseFailure::InvalidFormat(
                "Expected at least 7 fields, got "@ + decimal(fields.len()),
            ),
        )
    } else {
        match stamp {
            None => Err(ParseFailure::InvalidTimestamp(fields[1])),
            Some((seconds, nanos)) => Ok(
                MessageView {
                    protocol: fields[0],
                    timestamp: Timestamp { seconds, nanos },
                    radio_address: fields[2],
                    frequency: fields[3],
                    capcodes: words(fields[4]),
                    message_type: fields[5],
                    content: content_of(fields),
                    priority: priority_of(priority_match),
                    incident_code: incident_match,
                    location: location_of(content_of(fields)),
                    units: words(fields[4]),
                },
            ),
        }
    }
}

/// What a line parses to.
pub open spec fn parsed(line: Seq<char>) -> Result<MessageView, ParseFailure> {
    let fields = split(line, DELIMITER);
    composed(
        fields,
        timestamp_of(fields[1], TIMESTAMP_FORMAT@),
        first_match(PRIORITY_PATTERN@, content_of(fields)),
        first_match(INCIDENT_CODE_PATTERN@, content_of(fields)),
    )
}

/// What a result of parsing holds, as texts.
pub open spec fn outcome(result: Result<P2000Message, ParseError>) -> Result<
    MessageView,
    ParseFailure,
> {
    match result {
        Ok(message) => Ok(message@),
        Err(error) => Err(error@),
    }
}

/// Whether every character of `token` is a number.
pub fn is_all_numeric(token: &Vec<char>) -> (all: bool)
    ensures
        all == all_numeric(token@),
{
    let mut i: usize = 0;
    while i < token.len()
        invariant
            i <= token.len(),
            forall|k: int| 0 <= k < i ==> numeric(#[trigger] token@[k]),
        decreases token.len() - i,
    {
        if !token[i].is_numeric() {
            return false;
        }
        i = i + 1;
    }
    true
}

/// Whether every character of `token` is a number or a hyphen.
pub fn is_all_numeric_or_hyphen(token: &Vec<char>) -> (all: bool)
    ensures
        all == all_numeric_or_hyphen(token@),
{
    let mut i: usize = 0;
    while i < token.len()
        invariant
            i <= token.len(),
            forall|k: int| 0 <= k < i ==> numeric(#[trigger] token@[k]) || token@[k] == '-',
        decreases token.len() - i,
    {
        if !(token[i].is_numeric() || token[i] == '-') {
            return false;
        }
        i = i + 1;
    }
    true
}

/// The words of the location among `tokens`.
pub fn pick_location_words(tokens: &Vec<Vec<char>>) -> (kept: Vec<Vec<char>>)
    ensures
        rows(kept@) == location_words(rows(tokens@)),
{
    let ghost all = rows(tokens@);
    let mut kept: Vec<Vec<char>> = Vec::new();
    let mut i: usize = tokens.len();
    assert(all.take(i as int) == all);
    assert(rows(kept@) == Seq::<Seq<char>>::empty());
    while i > 0
        invariant
            i <= tokens.len(),
            all == rows(tokens@),
            location_words(all) == location_words(all.take(i as int)) + rows(kept@),
        decreases i,
    {
        let token = &tokens[i - 1];
        proof {
            assert(all.take(i as int).drop_last() == all.take(i - 1));
            assert(all.take(i as int).last() == token@);
        }
        if token.len() <= 6 && is_all_numeric(token) {
            assert(location_words(all.take(i as int)) == Seq::<Seq<char>>::empty());
            assert(all.take(0).len() == 0);
            i = 0;
        } else {
            if !(token.len() <= 3 || is_all_numeric_or_hyphen(token)) {
                let ghost before = rows(kept@);
                let copy = slice(token, 0, token.len());
                assert(copy@ == token@);
                kept.insert(0, copy);
                assert(rows(kept@) == seq![token@] + before);
                assert(location_words(all.take(i - 1)).push(token@) + before == location_words(
                    all.take(i - 1),
                ) + (seq![token@] + before));
            }
            i = i - 1;
        }
    }
    assert(all.take(0).len() == 0);
    assert(location_words(all.take(0)) + rows(kept@) == rows(kept@));
    kept
}

/// The location fragment of the content `content`.
pub fn extract_location(content: &str) -> (location: String)
    ensures
        location@ == location_of(content@),
{
    let chars = to_chars(content);
    let tokens = split_words(&chars);
    let kept = pick_location_words(&tokens);
    let mut space: Vec<char> = Vec::new();
    space.push(' ');
    assert(space@ == seq![' ']);
    let joined = join_rows(&kept, 0, &space);
    assert(rows(kept@).skip(0) == rows(kept@));
    to_text(&joined)
}

/// The unit codes of a message: its capability codes.
pub fn parse_unit_codes(capcodes: &Vec<String>) -> (units: Vec<String>)
    ensures
        texts(units@) == texts(capcodes@),
{
    crate::table::copy_texts(capcodes)
}

/// The characters of each text of a list.
pub fn chars_of_all(items: &Vec<String>) -> (parts: Vec<Vec<char>>)
    ensures
        rows(parts@) == texts(items@),
{
    let mut parts: Vec<Vec<char>> = Vec::new();
    let mut i: usize = 0;
    while i < items.len()
        invariant
            i <= items.len(),
            rows(parts@) == texts(items@).take(i as int),
        decreases items.len() - i,
    {
        let ghost before = rows(parts@);
        let chars = to_chars(items[i].as_str());
        parts.push(chars);
        assert(rows(parts@) == before.push(items@[i as int]@));
        assert(texts(items@).take(i + 1) == texts(items@).take(i as int).push(items@[i as int]@));
        i = i + 1;
    }
    assert(texts(items@).take(items.len() as int) == texts(items@));
    parts
}

/// The strings that rows of characters spell.
pub fn texts_of_all(parts: &Vec<Vec<char>>) -> (items: Vec<String>)
    ensures
        texts(items@) == rows(parts@),
{
    let mut items: Vec<String> = Vec::new();
    let mut i: usize = 0;
    while i < parts.len()
        invariant
            i <= parts.len(),
            texts(items@) == rows(parts@).take(i as int),
        decreases parts.len() - i,
    {
        let ghost before = texts(items@);
        let text = to_text(&parts[i]);
        items.push(text);
        assert(texts(items@) == before.push(parts@[i as int]@));
        assert(rows(parts@).take(i + 1) == rows(parts@).take(i as int).push(parts@[i as int]@));
        i = i + 1;
    }
    assert(rows(parts@).take(parts.len() as int) == rows(parts@));
    items
}

/// The fields of a line.
pub fn split_line(line: &str) -> (fields: Vec<String>)
    ensures
        texts(fields@) == split(line@, DELIMITER),
{
    let chars = to_chars(line);
    let parts = split_fields(&chars, DELIMITER);
    texts_of_all(&parts)
}

/// The priority that a match of the priority expression gives.
pub fn priority_from(found: &Option<String>) -> (priority: Option<String>)
    ensures
        text_of(priority) == priority_of(text_of(*found)),
{
    match found {
        Some(text) => {
            let inner = trimmed(&to_chars(text.as_str()), CharSet::Whitespace);
            Some(to_text(&inner))
        },
        None => None,
    }
}

/// The message that the fields of a line give, with the point in time that
/// the second field names and the matches of the two expressions in the
/// content; or why the fields give none.
pub fn message_from(
    fields: &Vec<String>,
    stamp: Option<Timestamp>,
    priority_match: Option<String>,
    incident_match: Option<String>,
) -> (result: Result<P2000Message, ParseError>)
    ensures
        outcome(result) == composed(
            texts(fields@),
            pair_of(stamp),
            text_of(priority_match),
            text_of(incident_match),
        ),
{
    if fields.len() < MIN_FIELDS {
        let mut text = to_chars("Expected at least 7 fields, got ");
        let count = decimal_chars(fields.len() as u64);
        append(&mut text, &count);
        return Err(ParseError::InvalidFormat(to_text(&text)));
    }
    let timestamp = match stamp {
        Some(t) => t,
        None => {
            return Err(ParseError::InvalidTimestamp(fields[1].clone()));
        },
    };
    let parts = chars_of_all(fields);
    let mut bar: Vec<char> = Vec::new();
    bar.push(DELIMITER);
    assert(bar@ == seq![DELIMITER]);
    let content = join_rows(&parts, 6, &bar);
    let codes = split_words(&parts[4]);
    let capcodes = texts_of_all(&codes);
    let units = parse_unit_codes(&capcodes);
    let content_text = to_text(&content);
    let location = extract_location(content_text.as_str());
    let priority = priority_from(&priority_match);
    Ok(
        P2000Message {
            protocol: fields[0].clone(),
            timestamp,
            radio_address: fields[2].clone(),
            frequency: fields[3].clone(),
            capcodes,
            message_type: fields[5].clone(),
            content: content_text,
            priority,
            incident_code: incident_match,
            location,
            units,
        },
    )
}

/// A parser of transmission lines. It holds the two expressions of the
/// format, compiled once; an expression that the engine does not take is
/// missing, and then matches nothing.
pub struct Parser {
    priority: Option<regex::Regex>,
    incident_code: Option<regex::Regex>,
}

/// The match of a compiled expression in `haystack`.
fn search(compiled: &Option<regex::Regex>, haystack: &str, Ghost(pattern): Ghost<Seq<char>>) -> (found:
    Option<String>)
    requires
        compiled_from(*compiled, pattern),
    ensures
        text_of(found) == first_match(pattern, haystack@),
{
    match compiled {
        Some(expression) => find(expression, haystack),
        None => None,
    }
}

impl Parser {
    #[verifier::type_invariant]
    spec fn well_formed(&self) -> bool {
        &&& compiled_from(self.priority, PRIORITY_PATTERN@)
        &&& compiled_from(self.incident_code, INCIDENT_CODE_PATTERN@)
    }

    /// The two compiled expressions: that of the priority and that of the
    /// incident code.
    pub closed spec fn expressions(&self) -> (Option<regex::Regex>, Option<regex::Regex>) {
        (self.priority, self.incident_code)
    }

    /// A parser with the two expressions of the format.
    pub fn new() -> (parser: Parser)
        ensures
            compiled_from(parser.expressions().0, PRIORITY_PATTERN@),
            compiled_from(parser.expressions().1, INCIDENT_CODE_PATTERN@),
    {
        Parser { priority: compile(PRIORITY_PATTERN), incident_code: compile(INCIDENT_CODE_PATTERN) }
    }

    /// Parses one line.
    pub fn parse_line(&self, line: &str) -> (result: Result<P2000Message, ParseError>)
        ensures
            outcome(result) == parsed(line@),
    {
        proof {
            use_type_invariant(self);
        }
        let fields = split_line(line);
        if fields.len() < MIN_FIELDS {
            return message_from(&fields, None, None, None);
        }
        let stamp = parse_timestamp(fields[1].as_str(), TIMESTAMP_FORMAT);
        let parts = chars_of_all(&fields);
        let mut bar: Vec<char> = Vec::new();
        bar.push(DELIMITER);
        assert(bar@ == seq![DELIMITER]);
        let content = to_text(&join_rows(&parts, 6, &bar));
        let priority_match = search(&self.priority, content.as_str(), Ghost(PRIORITY_PATTERN@));
        let incident_match = search(
            &self.incident_code,
            content.as_str(),
            Ghost(INCIDENT_CODE_PATTERN@),
        );
        message_from(&fields, stamp, priority_match, incident_match)
    }
}

impl Default for Parser {
    fn default() -> (parser: Parser)
        ensures
            compiled_from(parser.expressions().0, PRIORITY_PATTERN@),
            compiled_from(parser.expressions().1, INCIDENT_CODE_PATTERN@),
    {
        Parser::new()
    }
}

/// The line that stands for a message in a list: the time of day in square
/// brackets, the priority, or `?` where it has none, a hyphen between
/// spaces, and the content.
pub open spec fn summary_of(message: MessageView, clock: Seq<char>) -> Seq<char> {
    "["@ + clock + "] "@ + (match message.priority {
        Some(priority) => priority,
        None => "?"@,
    }) + " - "@ + message.content
}

impl P2000Message {
    /// The line that stands for the message in a list, with `clock` as the
    /// time of day.
    pub fn summary(&self, clock: &str) -> (line: String)
        ensures
            line@ == summary_of(self@, clock@),
    {
        let mut chars = to_chars("[");
        append(&mut chars, &to_chars(clock));
        append(&mut chars, &to_chars("] "));
        match &self.priority {
            Some(priority) => {
                append(&mut chars, &to_chars(priority.as_str()));
            },
            None => {
                append(&mut chars, &to_chars("?"));
            },
        }
        append(&mut chars, &to_chars(" - "));
        append(&mut chars, &to_chars(self.content.as_str()));
        to_text(&chars)
    }
}

/// A line with fewer than seven fields, which is one with fewer than six
/// delimiters, is no message: it fails as `InvalidFormat`, whatever else it
/// holds.
pub proof fn lemma_short_line_is_rejected(line: Seq<char>)
    requires
        count(line, DELIMITER) < 6,
    ensures
        split(line, DELIMITER).len() < MIN_FIELDS,
        parsed(line) is Err,
        parsed(line)->Err_0 is InvalidFormat,
{
    lemma_split_len(line, DELIMITER);
}

/// A line of seven fields or more fails only on its second field, and then
/// as `InvalidTimestamp` with that field.
pub proof fn lemma_long_line_fails_on_timestamp_only(line: Seq<char>)
    requires
        count(line, DELIMITER) >= 6,
    ensures
        parsed(line) is Ok <==> timestamp_of(
            split(line, DELIMITER)[1],
            TIMESTAMP_FORMAT@,
        ) is Some,
        parsed(line) is Err ==> parsed(line)->Err_0 == ParseFailure::InvalidTimestamp(
            split(line, DELIMITER)[1],
        ),
{
    lemma_split_len(line, DELIMITER);
}

/// Parsing is a function of the line: two results of parsing one line hold
/// the same texts.
pub proof fn lemma_parsing_repeats(
    line: Seq<char>,
    first: Result<P2000Message, ParseError>,
    second: Result<P2000Message, ParseError>,
)
    requires
        outcome(first) == parsed(line),
        outcome(second) == parsed(line),
    ensures
        outcome(first) == outcome(second),
{
}

/// The units of a message are its capability codes.
pub proof fn lemma_units_are_capcodes(line: Seq<char>)
    requires
        parsed(line) is Ok,
    ensures
        parsed(line)->Ok_0.units == parsed(line)->Ok_0.capcodes,
{
}

/// Every word of the location is one of the tokens, and none of them ends
/// the location or is left out.
pub proof fn lemma_location_words_are_tokens(tokens: Seq<Seq<char>>)
    ensures
        forall|i: int|
            0 <= i < location_words(tokens).len() ==> tokens.contains(
                #[trigger] location_words(tokens)[i],
            ) && !ends_location(location_words(tokens)[i]) && !left_out(location_words(tokens)[i]),
    decreases tokens.len(),
{
    if tokens.len() > 0 && !ends_location(tokens.last()) {
        let shorter = tokens.drop_last();
        let before = location_words(shorter);
        let all = location_words(tokens);
        lemma_location_words_are_tokens(shorter);
        assert forall|i: int| 0 <= i < all.len() implies tokens.contains(#[trigger] all[i])
            && !ends_location(all[i]) && !left_out(all[i]) by {
            if i < before.len() {
                assert(all[i] == before[i]);
                let k = choose|k: int| 0 <= k < shorter.len() && shorter[k] == before[i];
                assert(tokens[k] == shorter[k]);
            } else {
                assert(all[i] == tokens[tokens.len() - 1]);
            }
        }
    }
}

/// A content whose last word is a number of at most six characters has no
/// location.
pub proof fn lemma_number_at_the_end_ends_location(tokens: Seq<Seq<char>>)
    requires
        tokens.len() > 0,
        ends_location(tokens.last()),
    ensures
        location_words(tokens).len() == 0,
{
}

/// A message has a priority just where the priority expression matches in
/// its content, and a missing priority is no error.
pub proof fn lemma_priority_follows_match(line: Seq<char>)
    requires
        parsed(line) is Ok,
    ensures
        parsed(line)->Ok_0.priority is Some <==> first_match(
            PRIORITY_PATTERN@,
            content_of(split(line, DELIMITER)),
        ) is Some,
        parsed(line)->Ok_0.incident_code == first_match(
            INCIDENT_CODE_PATTERN@,
            content_of(split(line, DELIMITER)),
        ),
{
}

/// The priority is the code without the white space that the match holds
/// behind it: a match made of a code that neither begins nor ends in white
/// space, and of one white-space character, gives the code.
pub proof fn lemma_priority_is_the_code(code: Seq<char>, space: char)
    requires
        code.len() > 0,
        !white_space(code[0]),
        !white_space(code.last()),
        white_space(space),
    ensures
        priority_of(Some(code.push(space))) == Some(code),
{
    let found = code.push(space);
    let set = CharSet::Whitespace;
    assert(found[0] == code[0]);
    assert(trim_start(found, set) == found);
    assert(found.drop_last() == code);
    assert(trim_end(code, set) == code);
    assert(trim_end(found, set) == trim_end(found.drop_last(), set));
}

/// The code `B` before a space is the priority `B`.
pub proof fn lemma_priority_b()
    ensures
        priority_of(Some(seq!['B', ' '])) == Some(seq!['B']),
{
    lemma_priority_is_the_code(seq!['B'], ' ');
    assert(seq!['B'].push(' ') == seq!['B', ' ']);
}

} // verus!
