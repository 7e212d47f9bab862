//! Text as sequences of characters: the classes of characters that the
//! pager formats rely on, and splitting, trimming, joining and searching.

use vstd::prelude::*;

verus! {

/// Whether `c` has the Unicode property `White_Space`: the controls from
/// tab to carriage return, the space, the next-line control, the no-break
/// space, the Ogham space mark, the spaces from en quad to hair space, the
/// line and paragraph separators, the narrow no-break space, the medium
/// mathematical space and the ideographic space.
pub open spec fn white_space(c: char) -> bool {
    let n = c as u32;
    ||| 0x09 <= n <= 0x0d
    ||| n == 0x20
    ||| n == 0x85
    ||| n == 0xa0
    ||| n == 0x1680
    ||| 0x2000 <= n <= 0x200a
    ||| n == 0x2028
    ||| n == 0x2029
    ||| n == 0x202f
    ||| n == 0x205f
    ||| n == 0x3000
}

/// Whether `c` is one of the ASCII characters.
pub open spec fn ascii(c: char) -> bool {
    c as u32 <= 0x7f
}

/// Whether `c` is one of the digits `0` to `9`.
pub open spec fn ascii_digit(c: char) -> bool {
    0x30 <= c as u32 <= 0x39
}

/// Whether `c` is one of the letters `A` to `Z` and `a` to `z`.
pub open spec fn ascii_letter(c: char) -> bool {
    0x41 <= c as u32 <= 0x5a || 0x61 <= c as u32 <= 0x7a
}

/// Whether `c`, a character beyond ASCII, belongs to one of the Unicode
/// number categories.
pub uninterp spec fn numeric_beyond_ascii(c: char) -> bool;

/// Whether `c`, a character beyond ASCII, is a Unicode letter or number.
pub uninterp spec fn alphanumeric_beyond_ascii(c: char) -> bool;

/// Whether `c` belongs to one of the Unicode number categories. Of the
/// ASCII characters these are the digits.
pub open spec fn numeric(c: char) -> bool {
    if ascii(c) {
        ascii_digit(c)
    } else {
        numeric_beyond_ascii(c)
    }
}

/// Whether `c` is a Unicode letter or number. Of the ASCII characters these
/// are the letters and the digits.
pub open spec fn alphanumeric(c: char) -> bool {
    if ascii(c) {
        ascii_letter(c) || ascii_digit(c)
    } else {
        alphanumeric_beyond_ascii(c)
    }
}

/// The Unicode lower-case form of a whole text.
pub uninterp spec fn lowercase(text: Seq<char>) -> Seq<char>;

/// `char::is_whitespace` decides the Unicode property `White_Space`, which
/// 25 characters have; `white_space` lists them.
pub assume_specification[ char::is_whitespace ](c: char) -> (b: bool)
    ensures
        b == white_space(c),
;

/// `char::is_numeric` decides membership in the Unicode number categories
/// `Nd`, `Nl` and `No`. Of the ASCII characters exactly the digits belong to
/// one; for the other characters the contract gives the decision the name
/// `numeric_beyond_ascii` and claims no more.
pub assume_specification[ char::is_numeric ](c: char) -> (b: bool)
    ensures
        b == if ascii(c) {
            ascii_digit(c)
        } else {
            numeric_beyond_ascii(c)
        },
;

/// `char::is_alphanumeric` decides whether a character is alphabetic or
/// numeric. Of the ASCII characters exactly the letters and the digits are;
/// for the other characters the contract gives the decision the name
/// `alphanumeric_beyond_ascii` and claims no more.
pub assume_specification[ char::is_alphanumeric ](c: char) -> (b: bool)
    ensures
        b == if ascii(c) {
            ascii_letter(c) || ascii_digit(c)
        } else {
            alphanumeric_beyond_ascii(c)
        },
;

/// `str::to_lowercase` returns the lower-case form of the whole string, a
/// function of its characters alone, which the contract names `lowercase`.
/// Every character has one or more characters as its lower-case form, so
/// the result is empty for the empty string and for no other.
pub assume_specification[ str::to_lowercase ](s: &str) -> (r: String)
    ensures
        r@ == lowercase(s@),
        r@.len() == 0 <==> s@.len() == 0,
;

/// `String::push` appends one character to the end of the string.
pub assume_specification[ String::push ](s: &mut String, c: char)
    ensures
        final(s)@ == old(s)@.push(c),
;

/// The characters of each text of a list.
pub open spec fn texts(items: Seq<String>) -> Seq<Seq<char>> {
    Seq::new(items.len(), |i: int| items[i]@)
}

/// The characters of each row of a list of character vectors.
pub open spec fn rows(items: Seq<Vec<char>>) -> Seq<Seq<char>> {
    Seq::new(items.len(), |i: int| items[i]@)
}

/// The characters of a string, in order.
pub fn to_chars(s: &str) -> (chars: Vec<char>)
    ensures
        chars@ == s@,
{
    let mut chars: Vec<char> = Vec::new();
    for c in it: s.chars()
        invariant
            it.seq() == s@,
            chars@ == s@.take(it.index()),
    {
        chars.push(c);
    }
    assert(chars@ == s@);
    chars
}

/// The string made of the given characters.
pub fn to_text(chars: &Vec<char>) -> (s: String)
    ensures
        s@ == chars@,
{
    let mut s = String::new();
    let mut i: usize = 0;
    while i < chars.len()
        invariant
            i <= chars.len(),
            s@ == chars@.take(i as int),
        decreases chars.len() - i,
    {
        s.push(chars[i]);
        i = i + 1;
    }
    assert(s@ == chars@);
    s
}

/// A copy of the characters from position `from` up to, not including, `to`.
pub fn slice(chars: &Vec<char>, from: usize, to: usize) -> (part: Vec<char>)
    requires
        from <= to <= chars.len(),
    ensures
        part@ == chars@.subrange(from as int, to as int),
{
    let mut part: Vec<char> = Vec::new();
    let mut i: usize = from;
    while i < to
        invariant
            from <= i <= to <= chars.len(),
            part@ == chars@.subrange(from as int, i as int),
        decreases to - i,
    {
        part.push(chars[i]);
        i = i + 1;
    }
    part
}

/// Whether two character vectors hold the same text.
pub fn same(a: &Vec<char>, b: &Vec<char>) -> (equal: bool)
    ensures
        equal == (a@ == b@),
{
    if a.len() != b.len() {
        return false;
    }
    let mut i: usize = 0;
    while i < a.len()
        invariant
            i <= a.len(),
            a.len() == b.len(),
            a@.take(i as int) == b@.take(i as int),
        decreases a.len() - i,
    {
        if a[i] != b[i] {
            return false;
        }
        assert(a@.take(i + 1) == a@.take(i as int).push(a@[i as int]));
        assert(b@.take(i + 1) == b@.take(i as int).push(b@[i as int]));
        i = i + 1;
    }
    assert(a@ == a@.take(a.len() as int));
    assert(b@ == b@.take(b.len() as int));
    true
}

/// Appends the characters of `tail` to `head`.
pub fn append(head: &mut Vec<char>, tail: &Vec<char>)
    ensures
        final(head)@ == old(head)@ + tail@,
{
    let mut i: usize = 0;
    while i < tail.len()
        invariant
            i <= tail.len(),
            head@ == old(head)@ + tail@.take(i as int),
        decreases tail.len() - i,
    {
        head.push(tail[i]);
        i = i + 1;
    }
    assert(tail@.take(tail.len() as int) == tail@);
}

/// A class of characters, for trimming.
#[derive(Clone, Copy, Debug)]
pub enum CharSet {
    /// The white-space characters.
    Whitespace,
    /// One given character.
    Only(char),
    /// What is neither a letter, a number nor `&`.
    Punctuation,
}

impl CharSet {
    /// Whether `c` belongs to the class.
    pub open spec fn contains(self, c: char) -> bool {
        match self {
            CharSet::Whitespace => white_space(c),
            CharSet::Only(only) => c == only,
            CharSet::Punctuation => !alphanumeric(c) && c != '&',
        }
    }

    /// Whether `c` belongs to the class.
    pub fn has(&self, c: char) -> (b: bool)
        ensures
            b == self.contains(c),
    {
        match self {
            CharSet::Whitespace => c.is_whitespace(),
            CharSet::Only(only) => c == *only,
            CharSet::Punctuation => !c.is_alphanumeric() && c != '&',
        }
    }
}

/// `text` without its longest prefix made of characters of `set`.
pub open spec fn trim_start(text: Seq<char>, set: CharSet) -> Seq<char>
    decreases text.len(),
{
    if text.len() > 0 && set.contains(text[0]) {
        trim_start(text.skip(1), set)
    } else {
        text
    }
}

/// `text` without its longest suffix made of characters of `set`.
pub open spec fn trim_end(text: Seq<char>, set: CharSet) -> Seq<char>
    decreases text.len(),
{
    if text.len() > 0 && set.contains(text.last()) {
        trim_end(text.drop_last(), set)
    } else {
        text
    }
}

/// `text` with the characters of `set` taken off both ends.
pub open spec fn trim(text: Seq<char>, set: CharSet) -> Seq<char> {
    trim_end(trim_start(text, set), set)
}

/// The position at which `trim_start` cuts.
pub fn trim_start_at(chars: &Vec<char>, set: CharSet) -> (at: usize)
    ensures
        at <= chars.len(),
        trim_start(chars@, set) == chars@.skip(at as int),
        forall|i: int| 0 <= i < at ==> set.contains(#[trigger] chars@[i]),
        at < chars.len() ==> !set.contains(chars@[at as int]),
{
    let mut at: usize = 0;
    assert(chars@.skip(0) == chars@);
    while at < chars.len() && set.has(chars[at])
        invariant
            at <= chars.len(),
            trim_start(chars@, set) == trim_start(chars@.skip(at as int), set),
            forall|i: int| 0 <= i < at ==> set.contains(#[trigger] chars@[i]),
        decreases chars.len() - at,
    {
        assert(chars@.skip(at as int).skip(1) == chars@.skip(at + 1));
        at = at + 1;
    }
    at
}

/// The position at which `trim_end` cuts.
pub fn trim_end_at(chars: &Vec<char>, set: CharSet) -> (at: usize)
    ensures
        at <= chars.len(),
        trim_end(chars@, set) == chars@.take(at as int),
        forall|i: int| at <= i < chars.len() ==> set.contains(#[trigger] chars@[i]),
        at > 0 ==> !set.contains(chars@[at - 1]),
{
    let mut at: usize = chars.len();
    assert(chars@.take(at as int) == chars@);
    while at > 0 && set.has(chars[at - 1])
        invariant
            at <= chars.len(),
            trim_end(chars@, set) == trim_end(chars@.take(at as int), set),
            forall|i: int| at <= i < chars.len() ==> set.contains(#[trigger] chars@[i]),
        decreases at,
    {
        assert(chars@.take(at as int).drop_last() == chars@.take(at - 1));
        at = at - 1;
    }
    at
}

/// `chars` with the characters of `set` taken off both ends.
pub fn trimmed(chars: &Vec<char>, set: CharSet) -> (inner: Vec<char>)
    ensures
        inner@ == trim(chars@, set),
{
    let from = trim_start_at(chars, set);
    let rest = slice(chars, from, chars.len());
    assert(rest@ == chars@.skip(from as int));
    let to = trim_end_at(&rest, set);
    let inner = slice(&rest, 0, to);
    assert(inner@ == rest@.take(to as int));
    inner
}

/// Whether `pattern` stands in `text` at position `at`.
pub open spec fn occurs_at(pattern: Seq<char>, text: Seq<char>, at: int) -> bool {
    &&& 0 <= at
    &&& at + pattern.len() <= text.len()
    &&& text.subrange(at, at + pattern.len()) == pattern
}

/// Whether `pattern` occurs in `text` as a run of neighbouring characters.
pub open spec fn occurs_in(pattern: Seq<char>, text: Seq<char>) -> bool {
    exists|at: int| occurs_at(pattern, text, at)
}

/// Whether `pattern` stands in `text` at position `at`.
pub fn matches_at(pattern: &Vec<char>, text: &Vec<char>, at: usize) -> (found: bool)
    ensures
        found == occurs_at(pattern@, text@, at as int),
{
    if at > text.len() || pattern.len() > text.len() - at {
        return false;
    }
    let ghost window = text@.subrange(at as int, at + pattern.len());
    let mut i: usize = 0;
    while i < pattern.len()
        invariant
            i <= pattern.len(),
            at + pattern.len() <= text.len(),
            window == text@.subrange(at as int, at + pattern.len()),
            window.take(i as int) == pattern@.take(i as int),
        decreases pattern.len() - i,
    {
        if text[at + i] != pattern[i] {
            assert(window[i as int] != pattern@[i as int]);
            return false;
        }
        assert(window.take(i + 1) == window.take(i as int).push(window[i as int]));
        assert(pattern@.take(i + 1) == pattern@.take(i as int).push(pattern@[i as int]));
        i = i + 1;
    }
    assert(window.take(pattern.len() as int) == window);
    assert(pattern@.take(pattern.len() as int) == pattern@);
    true
}

/// Whether `pattern` occurs in `text`.
pub fn occurs(pattern: &Vec<char>, text: &Vec<char>) -> (found: bool)
    ensures
        found == occurs_in(pattern@, text@),
{
    if pattern.len() > text.len() {
        return false;
    }
    let last: usize = text.len() - pattern.len();
    let mut at: usize = 0;
    loop
        invariant
            at <= last,
            last == text.len() - pattern.len(),
            forall|k: int| 0 <= k < at ==> !occurs_at(pattern@, text@, k),
        decreases last - at,
    {
        if matches_at(pattern, text, at) {
            return true;
        }
        if at == last {
            return false;
        }
        at = at + 1;
    }
}

/// `text` without the occurrences of `c`.
pub open spec fn without(text: Seq<char>, c: char) -> Seq<char>
    decreases text.len(),
{
    if text.len() == 0 {
        Seq::empty()
    } else if text.last() == c {
        without(text.drop_last(), c)
    } else {
        without(text.drop_last(), c).push(text.last())
    }
}

/// `chars` without the occurrences of `c`.
pub fn remove_char(chars: &Vec<char>, c: char) -> (kept: Vec<char>)
    ensures
        kept@ == without(chars@, c),
{
    let mut kept: Vec<char> = Vec::new();
    let mut i: usize = 0;
    assert(chars@.take(0) == Seq::<char>::empty());
    while i < chars.len()
        invariant
            i <= chars.len(),
            kept@ == without(chars@.take(i as int), c),
        decreases chars.len() - i,
    {
        assert(chars@.take(i + 1).drop_last() == chars@.take(i as int));
        if chars[i] != c {
            kept.push(chars[i]);
        }
        i = i + 1;
    }
    assert(chars@.take(chars.len() as int) == chars@);
    kept
}

/// The character that writes the digit `d`.
pub open spec fn digit(d: nat) -> char {
    if d == 0 {
        '0'
    } else if d == 1 {
        '1'
    } else if d == 2 {
        '2'
    } else if d == 3 {
        '3'
    } else if d == 4 {
        '4'
    } else if d == 5 {
        '5'
    } else if d == 6 {
        '6'
    } else if d == 7 {
        '7'
    } else if d == 8 {
        '8'
    } else {
        '9'
    }
}

/// `n` written in base ten, without leading zeros.
pub open spec fn decimal(n: nat) -> Seq<char>
    decreases n,
{
    if n < 10 {
        seq![digit(n)]
    } else {
        decimal(n / 10).push(digit(n % 10))
    }
}

/// The character that writes the digit `d`.
pub fn digit_char(d: u64) -> (c: char)
    requires
        d < 10,
    ensures
        c == digit(d as nat),
{
    if d == 0 {
        '0'
    } else if d == 1 {
        '1'
    } else if d == 2 {
        '2'
    } else if d == 3 {
        '3'
    } else if d == 4 {
        '4'
    } else if d == 5 {
        '5'
    } else if d == 6 {
        '6'
    } else if d == 7 {
        '7'
    } else if d == 8 {
        '8'
    } else {
        '9'
    }
}

/// `n` written in base ten, without leading zeros.
pub fn decimal_chars(n: u64) -> (chars: Vec<char>)
    ensures
        chars@ == decimal(n as nat),
    decreases n,
{
    if n < 10 {
        let mut chars: Vec<char> = Vec::new();
        chars.push(digit_char(n));
        chars
    } else {
        let mut chars = decimal_chars(n / 10);
        chars.push(digit_char(n % 10));
        chars
    }
}

} // verus!
