//! The directory of capability codes and the glossary of abbreviations.

use vstd::prelude::*;
use crate::fields::{split, split_fields};
use crate::table::{accepted, csv_records, first_rejected, read_records, readable, tables, LoadError,
    Source, SEMICOLON};
use crate::text::{remove_char, slice, to_chars, to_text, trim, trim_start, trim_start_at, trimmed,
    without, CharSet};
use crate::textmap::TextMap;

verus! {

/// What the directory says of one capability code.
#[derive(Debug, Clone)]
pub struct CapcodeInfo {
    /// The code, as the key under which the entry is filed.
    pub code: String,
    pub service: String,
    pub region: String,
    pub place: String,
    pub description: String,
    pub short: String,
}

/// The texts of a directory entry.
pub struct CapcodeEntry {
    pub code: Seq<char>,
    pub service: Seq<char>,
    pub region: Seq<char>,
    pub place: Seq<char>,
    pub description: Seq<char>,
    pub short: Seq<char>,
}

impl View for CapcodeInfo {
    type V = CapcodeEntry;

    open spec fn view(&self) -> CapcodeEntry {
        CapcodeEntry {
            code: self.code@,
            service: self.service@,
            region: self.region@,
            place: self.place@,
            description: self.description@,
            short: self.short@,
        }
    }
}

/// The key under which a code is filed: the code without its leading zeros,
/// and `0` where nothing is left.
pub open spec fn normalize(code: Seq<char>) -> Seq<char> {
    let rest = trim_start(code, CharSet::Only('0'));
    if rest.len() == 0 {
        seq!['0']
    } else {
        rest
    }
}

/// A field without the double quotes around it.
pub open spec fn unquoted(field: Seq<char>) -> Seq<char> {
    trim(field, CharSet::Only('"'))
}

/// The entry that a directory record of at least six fields describes. Its
/// code is the key under which it is filed.
pub open spec fn entry_of(record: Seq<Seq<char>>) -> CapcodeEntry {
    CapcodeEntry {
        code: normalize(unquoted(record[0])),
        service: unquoted(record[1]),
        region: unquoted(record[2]),
        place: unquoted(record[3]),
        description: unquoted(record[4]),
        short: unquoted(record[5]),
    }
}

/// The directory that a list of records describes: records of fewer than
/// six fields count for nothing, and of two records with one key the later
/// one stays.
pub open spec fn directory(records: Seq<Seq<Seq<char>>>) -> Map<Seq<char>, CapcodeEntry>
    decreases records.len(),
{
    if records.len() == 0 {
        Map::empty()
    } else {
        let before = directory(records.drop_last());
        let record = records.last();
        if record.len() < 6 {
            before
        } else {
            before.insert(normalize(unquoted(record[0])), entry_of(record))
        }
    }
}

/// How many characters of `line` stand before its first `c`; the length of
/// the line where it holds none.
pub open spec fn offset_of(line: Seq<char>, c: char) -> int
    decreases line.len(),
{
    if line.len() == 0 || line[0] == c {
        0
    } else {
        1 + offset_of(line.skip(1), c)
    }
}

/// The abbreviation and the meaning that a glossary line defines: the texts
/// before and after its first colon, trimmed, where there is a colon and
/// neither text is empty.
pub open spec fn definition(line: Seq<char>) -> Option<(Seq<char>, Seq<char>)> {
    let at = offset_of(line, ':');
    if at >= line.len() {
        None
    } else {
        let key = trim(line.take(at), CharSet::Whitespace);
        let value = trim(line.skip(at + 1), CharSet::Whitespace);
        if key.len() > 0 && value.len() > 0 {
            Some((key, value))
        } else {
            None
        }
    }
}

/// The meanings by abbreviation, as written: of two lines that define one
/// abbreviation the later one stays.
pub open spec fn glossary(lines: Seq<Seq<char>>) -> Map<Seq<char>, Seq<char>>
    decreases lines.len(),
{
    if lines.len() == 0 {
        Map::empty()
    } else {
        let before = glossary(lines.drop_last());
        match definition(lines.last()) {
            Some((key, value)) => before.insert(key, value),
            None => before,
        }
    }
}

/// The meanings by abbreviation with the spaces taken out of it.
pub open spec fn compact_glossary(lines: Seq<Seq<char>>) -> Map<Seq<char>, Seq<char>>
    decreases lines.len(),
{
    if lines.len() == 0 {
        Map::empty()
    } else {
        let before = compact_glossary(lines.drop_last());
        match definition(lines.last()) {
            Some((key, value)) => if without(key, ' ').len() > 0 {
                before.insert(without(key, ' '), value)
            } else {
                before
            },
            None => before,
        }
    }
}

/// What a lookup holds.
pub struct LookupView {
    pub capcodes: Map<Seq<char>, CapcodeEntry>,
    pub abbreviations: Map<Seq<char>, Seq<char>>,
    pub abbreviations_no_space: Map<Seq<char>, Seq<char>>,
}

/// The lookup built from the records of the directory and the text of the
/// glossary.
pub open spec fn lookup_of(records: Seq<Seq<Seq<char>>>, glossary_text: Seq<char>) -> LookupView {
    LookupView {
        capcodes: directory(records),
        abbreviations: glossary(split(glossary_text, '\n')),
        abbreviations_no_space: compact_glossary(split(glossary_text, '\n')),
    }
}

/// The meaning of a token: that of the token as written, and else, where
/// the token is more than spaces, that of the token without its spaces.
pub open spec fn expansion(lookup: LookupView, token: Seq<char>) -> Option<Seq<char>> {
    if lookup.abbreviations.contains_key(token) {
        Some(lookup.abbreviations[token])
    } else if without(token, ' ').len() > 0 && lookup.abbreviations_no_space.contains_key(
        without(token, ' '),
    ) {
        Some(lookup.abbreviations_no_space[without(token, ' ')])
    } else {
        None
    }
}

/// The entries of a map of directory values.
pub open spec fn entries(map: Map<Seq<char>, CapcodeInfo>) -> Map<Seq<char>, CapcodeEntry> {
    map.map_values(|info: CapcodeInfo| info@)
}

/// The texts of a map of strings.
pub open spec fn meanings(map: Map<Seq<char>, String>) -> Map<Seq<char>, Seq<char>> {
    map.map_values(|text: String| text@)
}

/// The key under which the code `chars` is filed.
pub fn normalized(chars: &Vec<char>) -> (key: Vec<char>)
    ensures
        key@ == normalize(chars@),
{
    let at = trim_start_at(chars, CharSet::Only('0'));
    if at == chars.len() {
        let mut key: Vec<char> = Vec::new();
        key.push('0');
        assert(chars@.skip(at as int).len() == 0);
        assert(key@ == seq!['0']);
        key
    } else {
        let key = slice(chars, at, chars.len());
        assert(key@ == chars@.skip(at as int));
        key
    }
}

/// The key under which `code` is filed.
pub fn normalize_code(code: &str) -> (key: String)
    ensures
        key@ == normalize(code@),
{
    let chars = to_chars(code);
    let key = normalized(&chars);
    to_text(&key)
}

/// `field` without the double quotes around it.
fn unquote(field: &String) -> (text: String)
    ensures
        text@ == unquoted(field@),
{
    let chars = to_chars(field.as_str());
    let inner = trimmed(&chars, CharSet::Only('"'));
    to_text(&inner)
}

/// The directory that `records` describe.
pub fn load_capcodes(records: &Vec<Vec<String>>) -> (map: TextMap<CapcodeInfo>)
    ensures
        entries(map@) == directory(tables(records@)),
{
    let mut map: TextMap<CapcodeInfo> = TextMap::new();
    let mut i: usize = 0;
    assert(tables(records@).take(0) == Seq::<Seq<Seq<char>>>::empty());
    assert(entries(map@) =~= Map::<Seq<char>, CapcodeEntry>::empty());
    while i < records.len()
        invariant
            i <= records.len(),
            entries(map@) == directory(tables(records@).take(i as int)),
        decreases records.len() - i,
    {
        let record = &records[i];
        proof {
            let upto = tables(records@).take(i + 1);
            assert(upto.drop_last() == tables(records@).take(i as int));
            assert(upto.last() == crate::text::texts(record@));
        }
        if record.len() >= 6 {
            let key = normalized(&to_chars(unquote(&record[0]).as_str()));
            let info = CapcodeInfo {
                code: to_text(&key),
                service: unquote(&record[1]),
                region: unquote(&record[2]),
                place: unquote(&record[3]),
                description: unquote(&record[4]),
                short: unquote(&record[5]),
            };
            let ghost before = map@;
            assert(info@ == entry_of(crate::text::texts(record@)));
            map = map.insert(key, info);
            assert(entries(map@) =~= entries(before).insert(key@, info@));
        }
        i = i + 1;
    }
    assert(tables(records@).take(records.len() as int) == tables(records@));
    map
}

/// How many characters of `chars` stand before its first `c`.
pub fn offset(chars: &Vec<char>, c: char) -> (at: usize)
    ensures
        at == offset_of(chars@, c),
        at <= chars.len(),
{
    let mut at: usize = 0;
    assert(chars@.skip(0) == chars@);
    while at < chars.len() && chars[at] != c
        invariant
            at <= chars.len(),
            offset_of(chars@, c) == at + offset_of(chars@.skip(at as int), c),
        decreases chars.len() - at,
    {
        assert(chars@.skip(at as int).skip(1) == chars@.skip(at + 1));
        at = at + 1;
    }
    at
}

/// The abbreviation and the meaning that the line `chars` defines.
pub fn define(chars: &Vec<char>) -> (found: Option<(Vec<char>, Vec<char>)>)
    ensures
        match found {
            Some((key, value)) => definition(chars@) == Some((key@, value@)),
            None => definition(chars@) is None,
        },
{
    let at = offset(chars, ':');
    if at >= chars.len() {
        return None;
    }
    let head = slice(chars, 0, at);
    let tail = slice(chars, at + 1, chars.len());
    assert(head@ == chars@.take(at as int));
    assert(tail@ == chars@.skip(at + 1));
    let key = trimmed(&head, CharSet::Whitespace);
    let value = trimmed(&tail, CharSet::Whitespace);
    if key.len() > 0 && value.len() > 0 {
        Some((key, value))
    } else {
        None
    }
}

/// The two glossaries that the text `content` defines: by abbreviation as
/// written, and by abbreviation without its spaces.
pub fn load_abbreviations(content: &str) -> (maps: (TextMap<String>, TextMap<String>))
    ensures
        meanings(maps.0@) == glossary(split(content@, '\n')),
        meanings(maps.1@) == compact_glossary(split(content@, '\n')),
{
    let chars = to_chars(content);
    let lines = split_fields(&chars, '\n');
    let ghost all = split(content@, '\n');
    let mut exact: TextMap<String> = TextMap::new();
    let mut compact: TextMap<String> = TextMap::new();
    let mut i: usize = 0;
    assert(all.take(0) == Seq::<Seq<char>>::empty());
    assert(meanings(exact@) =~= Map::<Seq<char>, Seq<char>>::empty());
    assert(meanings(compact@) =~= Map::<Seq<char>, Seq<char>>::empty());
    while i < lines.len()
        invariant
            i <= lines.len(),
            all == crate::text::rows(lines@),
            meanings(exact@) == glossary(all.take(i as int)),
            meanings(compact@) == compact_glossary(all.take(i as int)),
        decreases lines.len() - i,
    {
        proof {
            let upto = all.take(i + 1);
            assert(upto.drop_last() == all.take(i as int));
            assert(upto.last() == lines@[i as int]@);
        }
        match define(&lines[i]) {
            Some((key, value)) => {
                let short = remove_char(&key, ' ');
                let ghost exact_before = exact@;
                let ghost compact_before = compact@;
                let meaning = to_text(&value);
                if short.len() > 0 {
                    let again = to_text(&value);
                    compact = compact.insert(short, again);
                    assert(meanings(compact@) =~= meanings(compact_before).insert(
                        short@,
                        value@,
                    ));
                }
                exact = exact.insert(key, meaning);
                assert(meanings(exact@) =~= meanings(exact_before).insert(key@, value@));
            },
            None => {},
        }
        i = i + 1;
    }
    assert(all.take(lines.len() as int) == all);
    (exact, compact)
}

/// The directory of capability codes and the glossary of abbreviations.
pub struct Lookup {
    capcodes: TextMap<CapcodeInfo>,
    abbreviations: TextMap<String>,
    abbreviations_no_space: TextMap<String>,
}

impl View for Lookup {
    type V = LookupView;

    closed spec fn view(&self) -> LookupView {
        LookupView {
            capcodes: entries(self.capcodes@),
            abbreviations: meanings(self.abbreviations@),
            abbreviations_no_space: meanings(self.abbreviations_no_space@),
        }
    }
}

impl Default for Lookup {
    fn default() -> (lookup: Lookup)
        ensures
            lookup@ == lookup_of(Seq::empty(), Seq::empty()),
    {
        let records: Vec<Vec<String>> = Vec::new();
        assert(tables(records@) == Seq::<Seq<Seq<char>>>::empty());
        let lookup = Lookup::from_records(&records, "");
        proof {
            reveal_strlit("");
            assert(""@ == Seq::<char>::empty());
        }
        lookup
    }
}

impl Lookup {
    /// The lookup that the records of the directory and the text of the
    /// glossary describe.
    pub fn from_records(records: &Vec<Vec<String>>, glossary_text: &str) -> (lookup: Lookup)
        ensures
            lookup@ == lookup_of(tables(records@), glossary_text@),
    {
        let capcodes = load_capcodes(records);
        let (abbreviations, abbreviations_no_space) = load_abbreviations(glossary_text);
        Lookup { capcodes, abbreviations, abbreviations_no_space }
    }

    /// Reads the directory, a table of records delimited by `;` without a
    /// header, whose records may differ in length, and the text of the
    /// glossary. Fails where the reader rejects a record of the directory,
    /// with the first such record.
    pub fn load(capcodes: &[u8], abbreviations: &str) -> (result: Result<Lookup, LoadError>)
        ensures
            match result {
                Ok(lookup) => first_rejected(csv_records(capcodes@, SEMICOLON, false, true)) is None
                    && lookup@ == lookup_of(
                    readable(csv_records(capcodes@, SEMICOLON, false, true)),
                    abbreviations@,
                ),
                Err(error) => first_rejected(csv_records(capcodes@, SEMICOLON, false, true)) == Some(
                    error.record as int,
                ) && error.source == Source::Capcodes,
            },
    {
        let records = read_records(capcodes, SEMICOLON, false, true);
        match accepted(&records, Source::Capcodes) {
            Ok(rows) => Ok(Lookup::from_records(&rows, abbreviations)),
            Err(error) => Err(error),
        }
    }

    /// The entry of the code `code`, found by its key.
    pub fn resolve_capcode(&self, code: &str) -> (found: Option<&CapcodeInfo>)
        ensures
            match found {
                Some(info) => self@.capcodes.contains_key(normalize(code@)) && info@
                    == self@.capcodes[normalize(code@)],
                None => !self@.capcodes.contains_key(normalize(code@)),
            },
    {
        let key = normalized(&to_chars(code));
        self.capcodes.get(&key)
    }

    /// The meaning of `token`.
    pub fn expand_abbreviation(&self, token: &str) -> (found: Option<&String>)
        ensures
            match found {
                Some(meaning) => expansion(self@, token@) == Some(meaning@),
                None => expansion(self@, token@) is None,
            },
    {
        self.expand(&to_chars(token))
    }

    /// The meaning of the token `chars`.
    pub fn expand(&self, chars: &Vec<char>) -> (found: Option<&String>)
        ensures
            match found {
                Some(meaning) => expansion(self@, chars@) == Some(meaning@),
                None => expansion(self@, chars@) is None,
            },
    {
        match self.abbreviations.get(chars) {
            Some(hit) => Some(hit),
            None => {
                let short = remove_char(chars, ' ');
                if short.len() == 0 {
                    None
                } else {
                    self.abbreviations_no_space.get(&short)
                }
            },
        }
    }
}

/// A zero in front of a code does not change its key.
pub proof fn lemma_leading_zero(code: Seq<char>)
    ensures
        normalize(seq!['0'] + code) == normalize(code),
{
    let longer = seq!['0'] + code;
    assert(longer.skip(1) == code);
    assert(longer[0] == '0');
}

/// The key of a code is not empty, and begins with a zero only where it is
/// the key `0`.
pub proof fn lemma_key_shape(code: Seq<char>)
    ensures
        normalize(code).len() > 0,
        normalize(code)[0] == '0' ==> normalize(code) == seq!['0'],
    decreases code.len(),
{
    if code.len() > 0 && code[0] == '0' {
        lemma_key_shape(code.skip(1));
    }
}

/// A key is its own key.
pub proof fn lemma_normalize_twice(code: Seq<char>)
    ensures
        normalize(normalize(code)) == normalize(code),
{
    lemma_key_shape(code);
    let key = normalize(code);
    let zero = CharSet::Only('0');
    if key[0] == '0' {
        assert(key.skip(1).len() == 0);
        assert(trim_start(key.skip(1), zero) == key.skip(1));
        assert(trim_start(key, zero) == trim_start(key.skip(1), zero));
    } else {
        assert(trim_start(key, zero) == key);
    }
}

/// Codes with one key resolve alike.
pub proof fn lemma_same_key_same_entry(lookup: LookupView, first: Seq<char>, second: Seq<char>)
    requires
        normalize(first) == normalize(second),
    ensures
        lookup.capcodes.contains_key(normalize(first)) == lookup.capcodes.contains_key(
            normalize(second),
        ),
        lookup.capcodes[normalize(first)] == lookup.capcodes[normalize(second)],
{
}

/// Every entry of a directory holds as its code the key under which it is
/// filed, and every key is the key of itself.
pub proof fn lemma_codes_are_keys(records: Seq<Seq<Seq<char>>>, key: Seq<char>)
    requires
        directory(records).contains_key(key),
    ensures
        directory(records)[key].code == key,
        normalize(key) == key,
    decreases records.len(),
{
    if records.len() > 0 {
        let record = records.last();
        if record.len() >= 6 && key == normalize(unquoted(record[0])) {
            lemma_normalize_twice(unquoted(record[0]));
        } else {
            lemma_codes_are_keys(records.drop_last(), key);
        }
    }
}

/// Every record of six fields or more is filed under the key of its code.
pub proof fn lemma_long_records_are_filed(records: Seq<Seq<Seq<char>>>, i: int)
    requires
        0 <= i < records.len(),
        records[i].len() >= 6,
    ensures
        directory(records).contains_key(normalize(unquoted(records[i][0]))),
    decreases records.len(),
{
    if i < records.len() - 1 {
        lemma_long_records_are_filed(records.drop_last(), i);
        assert(records.drop_last()[i] == records[i]);
    }
}

} // verus!
