use p2000::fields::{join_rows, split_fields, split_words};
use p2000::text::{
    decimal_chars, occurs, remove_char, same, slice, to_chars, to_text, trimmed, CharSet,
};
use p2000::textmap::TextMap;

fn chars(s: &str) -> Vec<char> {
    s.chars().collect()
}

fn strings(rows: Vec<Vec<char>>) -> Vec<String> {
    rows.into_iter().map(|r| r.into_iter().collect()).collect()
}

#[test]
fn characters_and_back() {
    assert_eq!(to_chars("a\u{e9}\u{1f600}"), vec!['a', '\u{e9}', '\u{1f600}']);
    assert_eq!(to_text(&chars("h\u{e9}")), "h\u{e9}");
    assert_eq!(slice(&chars("abcdef"), 2, 4), chars("cd"));
    assert!(same(&chars("ab"), &chars("ab")));
    assert!(!same(&chars("ab"), &chars("ac")));
    assert!(!same(&chars("ab"), &chars("abc")));
}

#[test]
fn trimming() {
    assert_eq!(trimmed(&chars(" \t a b \n"), CharSet::Whitespace), chars("a b"));
    assert_eq!(trimmed(&chars("   "), CharSet::Whitespace), chars(""));
    assert_eq!(trimmed(&chars("\"\"a\"b\""), CharSet::Only('"')), chars("a\"b"));
    assert_eq!(trimmed(&chars("(a&b)!"), CharSet::Punctuation), chars("a&b"));
    assert_eq!(trimmed(&chars("\u{a0}x\u{2003}"), CharSet::Whitespace), chars("x"));
}

#[test]
fn searching() {
    assert!(occurs(&chars(""), &chars("")));
    assert!(occurs(&chars(""), &chars("abc")));
    assert!(occurs(&chars("bc"), &chars("abc")));
    assert!(occurs(&chars("abc"), &chars("abc")));
    assert!(!occurs(&chars("abcd"), &chars("abc")));
    assert!(!occurs(&chars("ac"), &chars("abc")));
    assert!(occurs(&chars("aab"), &chars("aaab")));
}

#[test]
fn removing_and_numbers() {
    assert_eq!(remove_char(&chars(" a b  c "), ' '), chars("abc"));
    assert_eq!(decimal_chars(0), chars("0"));
    assert_eq!(decimal_chars(7), chars("7"));
    assert_eq!(decimal_chars(10), chars("10"));
    assert_eq!(decimal_chars(u64::MAX), chars("18446744073709551615"));
}

#[test]
fn fields_and_words() {
    assert_eq!(strings(split_fields(&chars("a;;b;"), ';')), vec!["a", "", "b", ""]);
    assert_eq!(strings(split_fields(&chars(""), ';')), vec![""]);
    assert_eq!(strings(split_words(&chars("  een\ttwee \n drie"))), vec!["een", "twee", "drie"]);
    assert!(split_words(&chars(" \t ")).is_empty());
    let parts = vec![chars("a"), chars(""), chars("bc")];
    assert_eq!(join_rows(&parts, 0, &chars(", ")), chars("a, , bc"));
    assert_eq!(join_rows(&parts, 2, &chars(", ")), chars("bc"));
    assert_eq!(join_rows(&parts, 3, &chars(", ")), chars(""));
}

#[test]
fn map_by_text() {
    let map: TextMap<u32> = TextMap::new();
    assert_eq!(map.len(), 0);
    let map = map.insert(chars("a"), 1).insert(chars("b"), 2).insert(chars("a"), 3);
    assert_eq!(map.len(), 2);
    assert_eq!(map.get(&chars("a")), Some(&3));
    assert_eq!(map.get(&chars("b")), Some(&2));
    assert_eq!(map.get(&chars("c")), None);
    assert!(map.contains_key(&chars("b")));
    assert!(!map.contains_key(&chars("")));
}

fn every_char() -> impl Iterator<Item = char> {
    (0u32..=0x10ffff).filter_map(char::from_u32)
}

#[test]
fn white_space_is_these_characters() {
    let listed = |c: char| {
        let n = c as u32;
        (0x09..=0x0d).contains(&n)
            || n == 0x20
            || n == 0x85
            || n == 0xa0
            || n == 0x1680
            || (0x2000..=0x200a).contains(&n)
            || n == 0x2028
            || n == 0x2029
            || n == 0x202f
            || n == 0x205f
            || n == 0x3000
    };
    let mut count = 0;
    for c in every_char() {
        let word = vec!['a', c, 'b'];
        let split = split_words(&word).len() == 2;
        let gone = trimmed(&vec![c], CharSet::Whitespace).is_empty();
        assert_eq!(split, listed(c), "{:?}", c);
        assert_eq!(gone, listed(c), "{:?}", c);
        if listed(c) {
            count += 1;
        }
    }
    assert_eq!(count, 25);
}

#[test]
fn ascii_letters_and_digits() {
    for n in 0u8..=0x7f {
        let c = n as char;
        let kept = !trimmed(&vec![c], CharSet::Punctuation).is_empty();
        assert_eq!(kept, c.is_ascii_alphanumeric() || c == '&', "{:?}", c);
        let number = p2000::parser::is_all_numeric(&vec![c]);
        assert_eq!(number, c.is_ascii_digit(), "{:?}", c);
    }
    assert!(p2000::parser::is_all_numeric(&chars("12\u{663}\u{bd}")));
    assert!(!p2000::parser::is_all_numeric(&chars("12a")));
}

#[test]
fn lower_case_keeps_something_of_every_character() {
    for c in every_char() {
        assert!(!c.to_string().to_lowercase().is_empty(), "{:?}", c);
    }
    assert!("".to_lowercase().is_empty());
}
