//! The state behind the message list: selection, scrolling and search, and
//! what a key does to them.

use vstd::prelude::*;
use crate::enrich;
use crate::location::LocationLookup;
use crate::lookup::Lookup;
use crate::parser::{MessageView, P2000Message};
use crate::reader::views;
use crate::text::{lowercase, occurs, occurs_in, to_chars, to_text};

verus! {

/// A key, as far as the list cares.
#[derive(Clone, Copy, Debug, PartialEq, Eq, Structural)]
pub enum Key {
    Char(char),
    Esc,
    Backspace,
    Enter,
    Up,
    Down,
    PageUp,
    PageDown,
    Other,
}

/// How many steps a page key moves.
pub const PAGE_STEPS: usize = 10;

/// The state of the list.
pub struct AppState {
    pub messages: Vec<P2000Message>,
    pub selected_index: usize,
    pub search_query: String,
    pub search_mode: bool,
    pub filtered_indices: Vec<usize>,
    pub scroll_offset: usize,
    pub list_height: u16,
}

/// What the state of the list holds.
pub struct StateView {
    pub messages: Seq<MessageView>,
    pub selected_index: usize,
    pub search_query: Seq<char>,
    pub search_mode: bool,
    pub filtered_indices: Seq<usize>,
    pub scroll_offset: usize,
    pub list_height: u16,
}

impl View for AppState {
    type V = StateView;

    open spec fn view(&self) -> StateView {
        StateView {
            messages: views(self.messages@),
            selected_index: self.selected_index,
            search_query: self.search_query@,
            search_mode: self.search_mode,
            filtered_indices: self.filtered_indices@,
            scroll_offset: self.scroll_offset,
            list_height: self.list_height,
        }
    }
}

/// The positions `0`, `1`, ... below `n`.
pub open spec fn positions(n: nat) -> Seq<usize> {
    Seq::new(n, |i: int| i as usize)
}

/// The state in which the list starts: every message listed, the first one
/// selected, no search, ten rows.
pub open spec fn started(messages: Seq<MessageView>) -> StateView {
    StateView {
        messages,
        selected_index: 0,
        search_query: Seq::empty(),
        search_mode: false,
        filtered_indices: positions(messages.len()),
        scroll_offset: 0,
        list_height: 10,
    }
}

/// `a - b`, and 0 where `b` is the greater.
pub open spec fn minus(a: int, b: int) -> int {
    if a >= b {
        a - b
    } else {
        0
    }
}

/// `a + b`, and the greatest `usize` where the sum exceeds it.
pub open spec fn capped_sum(a: int, b: int) -> int {
    if a + b <= usize::MAX {
        a + b
    } else {
        usize::MAX as int
    }
}

/// The state with the list scrolled so far that the selected row shows.
pub open spec fn revealed(s: StateView) -> StateView {
    if s.selected_index < s.scroll_offset {
        StateView { scroll_offset: s.selected_index, ..s }
    } else if s.selected_index >= capped_sum(s.scroll_offset as int, s.list_height as int) {
        StateView {
            scroll_offset: minus(s.selected_index as int, minus(s.list_height as int, 1)) as usize,
            ..s
        }
    } else {
        s
    }
}

/// The state after a step down.
pub open spec fn moved_down(s: StateView) -> StateView {
    if s.selected_index < minus(s.filtered_indices.len() as int, 1) {
        revealed(StateView { selected_index: (s.selected_index + 1) as usize, ..s })
    } else {
        s
    }
}

/// The state after a step up.
pub open spec fn moved_up(s: StateView) -> StateView {
    if s.selected_index > 0 {
        revealed(StateView { selected_index: (s.selected_index - 1) as usize, ..s })
    } else {
        s
    }
}

/// The state after `n` steps down.
pub open spec fn moved_down_by(s: StateView, n: nat) -> StateView
    decreases n,
{
    if n == 0 {
        s
    } else {
        moved_down(moved_down_by(s, (n - 1) as nat))
    }
}

/// The state after `n` steps up.
pub open spec fn moved_up_by(s: StateView, n: nat) -> StateView
    decreases n,
{
    if n == 0 {
        s
    } else {
        moved_up(moved_up_by(s, (n - 1) as nat))
    }
}

/// Whether a message matches a query: the query occurs, letter case aside,
/// in its content, its priority or its location.
pub open spec fn matches(message: MessageView, query: Seq<char>) -> bool {
    ||| occurs_in(lowercase(query), lowercase(message.content))
    ||| (message.priority is Some && occurs_in(
        lowercase(query),
        lowercase(message.priority->0),
    ))
    ||| occurs_in(lowercase(query), lowercase(message.location))
}

/// The positions of the messages that match a query, in rising order.
pub open spec fn matching(messages: Seq<MessageView>, query: Seq<char>) -> Seq<usize>
    decreases messages.len(),
{
    if messages.len() == 0 {
        Seq::empty()
    } else if matches(messages.last(), query) {
        matching(messages.drop_last(), query).push((messages.len() - 1) as usize)
    } else {
        matching(messages.drop_last(), query)
    }
}

/// The state with the list cut down to what matches the query, and the
/// first row selected.
pub open spec fn filtered(s: StateView) -> StateView {
    StateView {
        filtered_indices: matching(s.messages, s.search_query),
        selected_index: 0,
        scroll_offset: 0,
        ..s
    }
}

/// The state after `c` was typed into the query.
pub open spec fn typed(s: StateView, c: char) -> StateView {
    filtered(StateView { search_query: s.search_query.push(c), ..s })
}

/// The state after the last character of the query was erased.
pub open spec fn erased(s: StateView) -> StateView {
    filtered(
        StateView {
            search_query: if s.search_query.len() > 0 {
                s.search_query.drop_last()
            } else {
                s.search_query
            },
            ..s
        },
    )
}

/// The state after the query was cleared.
pub open spec fn cleared(s: StateView) -> StateView {
    filtered(StateView { search_query: Seq::empty(), ..s })
}

/// The message that is selected, if the selection points at one.
pub open spec fn selected(s: StateView) -> Option<MessageView> {
    if s.selected_index < s.filtered_indices.len() && s.filtered_indices[s.selected_index as int]
        < s.messages.len() {
        Some(s.messages[s.filtered_indices[s.selected_index as int] as int])
    } else {
        None
    }
}

/// The state after a key, and whether the key ends the session. `q` and
/// escape end it; `s` turns the search on or off, and off clears the query;
/// while the search is on, any other character is typed into the query,
/// backspace erases and enter turns the search off; the arrows step and the
/// page keys step ten times.
pub open spec fn after_key(s: StateView, key: Key) -> (StateView, bool) {
    match key {
        Key::Char(c) => if c == 'q' {
            (s, true)
        } else if c == 's' {
            if s.search_mode {
                (cleared(StateView { search_mode: false, ..s }), false)
            } else {
                (StateView { search_mode: true, ..s }, false)
            }
        } else if s.search_mode {
            (typed(s, c), false)
        } else {
            (s, false)
        },
        Key::Esc => (s, true),
        Key::Backspace => if s.search_mode {
            (erased(s), false)
        } else {
            (s, false)
        },
        Key::Enter => if s.search_mode {
            (StateView { search_mode: false, ..s }, false)
        } else {
            (s, false)
        },
        Key::Up => (moved_up(s), false),
        Key::Down => (moved_down(s), false),
        Key::PageUp => (moved_up_by(s, PAGE_STEPS as nat), false),
        Key::PageDown => (moved_down_by(s, PAGE_STEPS as nat), false),
        Key::Other => (s, false),
    }
}

/// Whether `text`, put into lower case, holds `query`.
fn holds(text: &String, query: &Vec<char>) -> (found: bool)
    ensures
        found == occurs_in(query@, lowercase(text@)),
{
    let lower = text.as_str().to_lowercase();
    occurs(query, &to_chars(lower.as_str()))
}

impl AppState {
    /// The state in which the list starts.
    pub fn new(messages: Vec<P2000Message>) -> (state: AppState)
        ensures
            state@ == started(views(messages@)),
    {
        let mut filtered_indices: Vec<usize> = Vec::new();
        let mut i: usize = 0;
        while i < messages.len()
            invariant
                i <= messages.len(),
                filtered_indices@ == positions(i as nat),
            decreases messages.len() - i,
        {
            filtered_indices.push(i);
            assert(filtered_indices@ == positions((i + 1) as nat));
            i = i + 1;
        }
        AppState {
            messages,
            selected_index: 0,
            search_query: String::new(),
            search_mode: false,
            filtered_indices,
            scroll_offset: 0,
            list_height: 10,
        }
    }

    /// Sets the number of rows from the height of the frame, which takes two
    /// rows for its border.
    pub fn set_list_height(&mut self, height: u16)
        ensures
            final(self)@ == (StateView { list_height: minus(height as int, 2) as u16, ..old(self)@ }),
    {
        self.list_height = height.saturating_sub(2);
    }

    /// Scrolls the list so far that the selected row shows.
    pub fn ensure_selected_visible(&mut self)
        ensures
            final(self)@ == revealed(old(self)@),
    {
        let rows: usize = self.list_height as usize;
        let visible_end = self.scroll_offset.saturating_add(rows);
        if self.selected_index < self.scroll_offset {
            self.scroll_offset = self.selected_index;
        } else if self.selected_index >= visible_end {
            self.scroll_offset = self.selected_index.saturating_sub(rows.saturating_sub(1));
        }
    }

    /// The message that is selected, if the selection points at one.
    pub fn selected_message(&self) -> (message: Option<&P2000Message>)
        ensures
            match message {
                Some(m) => selected(self@) == Some(m@),
                None => selected(self@) is None,
            },
    {
        if self.selected_index < self.filtered_indices.len() {
            let at = self.filtered_indices[self.selected_index];
            if at < self.messages.len() {
                return Some(&self.messages[at]);
            }
        }
        None
    }

    /// Steps down, if there is a row below.
    pub fn move_down(&mut self)
        ensures
            final(self)@ == moved_down(old(self)@),
    {
        if self.selected_index < self.filtered_indices.len().saturating_sub(1) {
            self.selected_index = self.selected_index + 1;
            self.ensure_selected_visible();
        }
    }

    /// Steps up, if there is a row above.
    pub fn move_up(&mut self)
        ensures
            final(self)@ == moved_up(old(self)@),
    {
        if self.selected_index > 0 {
            self.selected_index = self.selected_index - 1;
            self.ensure_selected_visible();
        }
    }

    /// Cuts the list down to the messages that match the query, and selects
    /// the first row.
    pub fn filter_messages(&mut self)
        ensures
            final(self)@ == filtered(old(self)@),
    {
        let lower = self.search_query.as_str().to_lowercase();
        let query = to_chars(lower.as_str());
        let ghost all = views(self.messages@);
        let mut kept: Vec<usize> = Vec::new();
        let mut i: usize = 0;
        assert(all.take(0) == Seq::<MessageView>::empty());
        while i < self.messages.len()
            invariant
                i <= self.messages.len(),
                all == views(self.messages@),
                query@ == lowercase(self.search_query@),
                kept@ == matching(all.take(i as int), self.search_query@),
            decreases self.messages.len() - i,
        {
            proof {
                assert(all.take(i + 1).drop_last() == all.take(i as int));
                assert(all.take(i + 1).last() == self.messages@[i as int]@);
            }
            let message = &self.messages[i];
            let in_priority = match &message.priority {
                Some(priority) => holds(priority, &query),
                None => false,
            };
            if holds(&message.content, &query) || in_priority || holds(&message.location, &query) {
                kept.push(i);
            }
            i = i + 1;
        }
        assert(all.take(self.messages.len() as int) == all);
        self.filtered_indices = kept;
        self.selected_index = 0;
        self.scroll_offset = 0;
    }

    /// Types `c` into the query.
    pub fn add_search_char(&mut self, c: char)
        ensures
            final(self)@ == typed(old(self)@, c),
    {
        self.search_query.push(c);
        self.filter_messages();
    }

    /// Erases the last character of the query.
    pub fn remove_search_char(&mut self)
        ensures
            final(self)@ == erased(old(self)@),
    {
        let mut chars = to_chars(self.search_query.as_str());
        if chars.len() > 0 {
            chars.pop();
        }
        self.search_query = to_text(&chars);
        self.filter_messages();
    }

    /// Clears the query.
    pub fn clear_search(&mut self)
        ensures
            final(self)@ == cleared(old(self)@),
    {
        self.search_query = String::new();
        self.filter_messages();
    }
}

/// The rows that show: from the scroll offset on, as many as the list has
/// rows.
pub open spec fn window(s: StateView) -> Seq<usize> {
    let from = if s.scroll_offset <= s.filtered_indices.len() {
        s.scroll_offset as int
    } else {
        s.filtered_indices.len() as int
    };
    let to = if from + s.list_height <= s.filtered_indices.len() {
        from + s.list_height
    } else {
        s.filtered_indices.len() as int
    };
    s.filtered_indices.subrange(from, to)
}

/// How urgent a priority is.
#[derive(Clone, Copy, Debug, PartialEq, Eq, Structural)]
pub enum Urgency {
    /// The priority begins with `A`.
    High,
    /// The priority begins with `P`.
    Medium,
    /// Any other priority, or none.
    Plain,
}

/// How urgent a priority is.
pub open spec fn urgency_of(priority: Option<Seq<char>>) -> Urgency {
    match priority {
        Some(text) => if text.len() > 0 && text[0] == 'A' {
            Urgency::High
        } else if text.len() > 0 && text[0] == 'P' {
            Urgency::Medium
        } else {
            Urgency::Plain
        },
        None => Urgency::Plain,
    }
}

/// How urgent the priority of `msg` is.
pub fn urgency(msg: &P2000Message) -> (level: Urgency)
    ensures
        level == urgency_of(msg@.priority),
{
    match &msg.priority {
        Some(text) => {
            let chars = to_chars(text.as_str());
            if chars.len() > 0 && chars[0] == 'A' {
                Urgency::High
            } else if chars.len() > 0 && chars[0] == 'P' {
                Urgency::Medium
            } else {
                Urgency::Plain
            }
        },
        None => Urgency::Plain,
    }
}

impl AppState {
    /// The positions of the messages in the rows that show.
    pub fn visible(&self) -> (shown: Vec<usize>)
        ensures
            shown@ == window(self@),
    {
        let len = self.filtered_indices.len();
        let from = if self.scroll_offset <= len {
            self.scroll_offset
        } else {
            len
        };
        let rows = self.list_height as usize;
        let to = if rows <= len - from {
            from + rows
        } else {
            len
        };
        let mut shown: Vec<usize> = Vec::new();
        let mut i: usize = from;
        while i < to
            invariant
                from <= i <= to <= self.filtered_indices.len(),
                shown@ == self.filtered_indices@.subrange(from as int, i as int),
            decreases to - i,
        {
            shown.push(self.filtered_indices[i]);
            i = i + 1;
        }
        shown
    }
}

/// The list with the reference tables that explain its messages.
pub struct App {
    pub state: AppState,
    lookup: Lookup,
    location_lookup: LocationLookup,
}

impl App {
    /// The list of `messages` at its start.
    pub fn new(messages: Vec<P2000Message>, lookup: Lookup, location_lookup: LocationLookup) -> (app:
        App)
        ensures
            app.state_view() == started(views(messages@)),
            app.lookup() == lookup,
            app.location_lookup() == location_lookup,
    {
        App { state: AppState::new(messages), lookup, location_lookup }
    }

    /// What the state of the list holds.
    pub closed spec fn state_view(&self) -> StateView {
        self.state@
    }

    /// The directory and the glossary.
    pub closed spec fn lookup(&self) -> Lookup {
        self.lookup
    }

    /// The gazetteer.
    pub closed spec fn location_lookup(&self) -> LocationLookup {
        self.location_lookup
    }

    /// Does to the list what the key asks, and says whether the key ends
    /// the session.
    pub fn handle_input(&mut self, key: Key) -> (quit: bool)
        ensures
            (final(self).state_view(), quit) == after_key(old(self).state_view(), key),
            final(self).lookup() == old(self).lookup(),
            final(self).location_lookup() == old(self).location_lookup(),
    {
        match key {
            Key::Char(c) => {
                if c == 'q' {
                    return true;
                } else if c == 's' {
                    self.state.search_mode = !self.state.search_mode;
                    if !self.state.search_mode {
                        self.state.clear_search();
                    }
                } else if self.state.search_mode {
                    self.state.add_search_char(c);
                }
            },
            Key::Esc => {
                return true;
            },
            Key::Backspace => {
                if self.state.search_mode {
                    self.state.remove_search_char();
                }
            },
            Key::Enter => {
                if self.state.search_mode {
                    self.state.search_mode = false;
                }
            },
            Key::Up => {
                self.state.move_up();
            },
            Key::Down => {
                self.state.move_down();
            },
            Key::PageUp => {
                let mut n: usize = 0;
                while n < PAGE_STEPS
                    invariant
                        n <= PAGE_STEPS,
                        self.state@ == moved_up_by(old(self).state@, n as nat),
                        self.lookup() == old(self).lookup(),
                        self.location_lookup() == old(self).location_lookup(),
                    decreases PAGE_STEPS - n,
                {
                    self.state.move_up();
                    n = n + 1;
                }
            },
            Key::PageDown => {
                let mut n: usize = 0;
                while n < PAGE_STEPS
                    invariant
                        n <= PAGE_STEPS,
                        self.state@ == moved_down_by(old(self).state@, n as nat),
                        self.lookup() == old(self).lookup(),
                        self.location_lookup() == old(self).location_lookup(),
                    decreases PAGE_STEPS - n,
                {
                    self.state.move_down();
                    n = n + 1;
                }
            },
            Key::Other => {},
        }
        false
    }

    /// The note on the capability codes of `msg`.
    pub fn format_capcodes(&self, msg: &P2000Message) -> (note: Option<String>)
        ensures
            crate::pattern::text_of(note) == enrich::capcode_note(self.lookup()@, msg@.capcodes),
    {
        enrich::format_capcodes(&self.lookup, msg)
    }

    /// The note on the abbreviations of `msg`.
    pub fn format_abbreviations(&self, msg: &P2000Message) -> (note: String)
        ensures
            note@ == enrich::abbreviation_note(self.lookup()@, msg@.content),
    {
        enrich::format_abbreviations(&self.lookup, msg)
    }

    /// The note on the place of `msg`.
    pub fn format_location(&self, msg: &P2000Message) -> (note: String)
        ensures
            enrich::is_location_note(self.location_lookup()@, msg@, note@),
    {
        enrich::format_location(&self.location_lookup, msg)
    }
}

/// The positions that match a query point at messages, rise, and are those
/// of the messages that match.
pub proof fn lemma_matching(messages: Seq<MessageView>, query: Seq<char>)
    requires
        messages.len() <= usize::MAX,
    ensures
        forall|i: int|
            0 <= i < matching(messages, query).len() ==> (#[trigger] matching(messages, query)[i])
                < messages.len() && matches(messages[matching(messages, query)[i] as int], query),
        forall|i: int, j: int|
            0 <= i < j < matching(messages, query).len() ==> matching(messages, query)[i]
                < matching(messages, query)[j],
        forall|at: int|
            0 <= at < messages.len() && matches(#[trigger] messages[at], query) ==> matching(
                messages,
                query,
            ).contains(at as usize),
    decreases messages.len(),
{
    if messages.len() > 0 {
        let shorter = messages.drop_last();
        let before = matching(shorter, query);
        let all = matching(messages, query);
        lemma_matching(shorter, query);
        assert forall|i: int| 0 <= i < all.len() implies (#[trigger] all[i]) < messages.len()
            && matches(messages[all[i] as int], query) by {
            if i < before.len() {
                assert(all[i] == before[i]);
                assert(shorter[before[i] as int] == messages[before[i] as int]);
            }
        }
        assert forall|i: int, j: int| 0 <= i < j < all.len() implies all[i] < all[j] by {
            assert(all[i] == before[i]);
            if j < before.len() {
                assert(all[j] == before[j]);
            }
        }
        assert forall|at: int|
            0 <= at < messages.len() && matches(#[trigger] messages[at], query) implies all.contains(
            at as usize,
        ) by {
            if at < messages.len() - 1 {
                assert(shorter[at] == messages[at]);
                let k = choose|k: int| 0 <= k < before.len() && before[k] == at as usize;
                assert(all[k] == before[k]);
            } else {
                assert(all[all.len() - 1] == at as usize);
            }
        }
    }
}

} // verus!
