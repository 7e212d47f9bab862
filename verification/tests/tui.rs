use p2000::clock::Timestamp;
use p2000::location::LocationLookup;
use p2000::lookup::Lookup;
use p2000::parser::P2000Message;
use p2000::tui::{urgency, App, AppState, Key, Urgency};

fn message(content: &str, priority: Option<&str>, location: &str) -> P2000Message {
    P2000Message {
        protocol: "FLEX".to_string(),
        timestamp: Timestamp { seconds: 0, nanos: 0 },
        radio_address: String::new(),
        frequency: String::new(),
        capcodes: Vec::new(),
        message_type: "ALN".to_string(),
        content: content.to_string(),
        priority: priority.map(|p| p.to_string()),
        incident_code: None,
        location: location.to_string(),
        units: Vec::new(),
    }
}

fn many(n: usize) -> Vec<P2000Message> {
    (0..n).map(|i| message(&format!("bericht {}", i), None, "")).collect()
}

fn app(messages: Vec<P2000Message>) -> App {
    App::new(
        messages,
        Lookup::from_records(&Vec::new(), ""),
        LocationLookup::from_records(&Vec::new(), &Vec::new(), &Vec::new()),
    )
}

#[test]
fn list_starts_at_the_top() {
    let state = AppState::new(many(3));
    assert_eq!(state.selected_index, 0);
    assert_eq!(state.search_query, "");
    assert!(!state.search_mode);
    assert_eq!(state.filtered_indices, vec![0, 1, 2]);
    assert_eq!(state.scroll_offset, 0);
    assert_eq!(state.list_height, 10);
    assert_eq!(state.selected_message().unwrap().content, "bericht 0");
    let empty = AppState::new(Vec::new());
    assert!(empty.filtered_indices.is_empty());
    assert!(empty.selected_message().is_none());
}

#[test]
fn list_height_leaves_room_for_the_border() {
    let mut state = AppState::new(many(1));
    state.set_list_height(12);
    assert_eq!(state.list_height, 10);
    state.set_list_height(2);
    assert_eq!(state.list_height, 0);
    state.set_list_height(1);
    assert_eq!(state.list_height, 0);
    state.set_list_height(0);
    assert_eq!(state.list_height, 0);
}

#[test]
fn stepping_stays_in_the_list() {
    let mut state = AppState::new(many(3));
    state.move_up();
    assert_eq!(state.selected_index, 0);
    state.move_down();
    state.move_down();
    assert_eq!(state.selected_index, 2);
    state.move_down();
    assert_eq!(state.selected_index, 2);
    assert_eq!(state.selected_message().unwrap().content, "bericht 2");
    state.move_up();
    assert_eq!(state.selected_index, 1);
    let mut empty = AppState::new(Vec::new());
    empty.move_down();
    assert_eq!(empty.selected_index, 0);
}

#[test]
fn list_scrolls_with_the_selection() {
    let mut state = AppState::new(many(20));
    state.set_list_height(5);
    assert_eq!(state.list_height, 3);
    state.move_down();
    state.move_down();
    assert_eq!((state.selected_index, state.scroll_offset), (2, 0));
    state.move_down();
    assert_eq!((state.selected_index, state.scroll_offset), (3, 1));
    assert_eq!(state.visible(), vec![1, 2, 3]);
    state.move_down();
    assert_eq!((state.selected_index, state.scroll_offset), (4, 2));
    state.move_up();
    assert_eq!((state.selected_index, state.scroll_offset), (3, 2));
    state.move_up();
    state.move_up();
    assert_eq!((state.selected_index, state.scroll_offset), (1, 1));
    assert_eq!(state.visible(), vec![1, 2, 3]);
}

#[test]
fn list_without_rows_scrolls_to_the_selection() {
    let mut state = AppState::new(many(5));
    state.set_list_height(0);
    state.move_down();
    assert_eq!((state.selected_index, state.scroll_offset), (1, 1));
    assert!(state.visible().is_empty());
}

#[test]
fn window_ends_with_the_list() {
    let mut state = AppState::new(many(4));
    assert_eq!(state.visible(), vec![0, 1, 2, 3]);
    state.scroll_offset = 3;
    assert_eq!(state.visible(), vec![3]);
    state.scroll_offset = 9;
    assert!(state.visible().is_empty());
}

#[test]
fn search_cuts_the_list_down() {
    let mut state = AppState::new(vec![
        message("Brand in Leiden", Some("P1"), "Leiden"),
        message("Ongeval A4", Some("A1"), "Schiphol"),
        message("Reanimatie", None, "Leiderdorp"),
    ]);
    state.move_down();
    state.add_search_char('L');
    assert_eq!(state.filtered_indices, vec![0, 1, 2]);
    assert_eq!(state.selected_index, 0);
    state.add_search_char('E');
    assert_eq!(state.search_query, "LE");
    assert_eq!(state.filtered_indices, vec![0, 2]);
    state.move_down();
    assert_eq!(state.selected_message().unwrap().content, "Reanimatie");
    state.add_search_char('x');
    assert!(state.filtered_indices.is_empty());
    assert!(state.selected_message().is_none());
    state.remove_search_char();
    assert_eq!(state.search_query, "LE");
    assert_eq!(state.filtered_indices, vec![0, 2]);
    state.clear_search();
    assert_eq!(state.search_query, "");
    assert_eq!(state.filtered_indices, vec![0, 1, 2]);
    state.remove_search_char();
    assert_eq!(state.search_query, "");
}

#[test]
fn search_looks_at_priority_and_location() {
    let mut state = AppState::new(vec![
        message("Brand", Some("P1"), "Leiden"),
        message("Ongeval", Some("A1"), "Schiphol"),
        message("Reanimatie", None, "Gouda"),
    ]);
    state.search_query = "a1".to_string();
    state.filter_messages();
    assert_eq!(state.filtered_indices, vec![1]);
    state.search_query = "GOUDA".to_string();
    state.scroll_offset = 7;
    state.filter_messages();
    assert_eq!(state.filtered_indices, vec![2]);
    assert_eq!(state.scroll_offset, 0);
}

#[test]
fn keys_quit() {
    let mut app = app(many(2));
    assert!(app.handle_input(Key::Char('q')));
    assert!(app.handle_input(Key::Esc));
    assert!(!app.handle_input(Key::Other));
    app.handle_input(Key::Char('s'));
    assert!(app.handle_input(Key::Char('q')));
    assert_eq!(app.state.search_query, "");
}

#[test]
fn keys_search() {
    let mut app = app(vec![message("Brand", None, ""), message("Ongeval", None, "")]);
    assert!(!app.handle_input(Key::Char('o')));
    assert_eq!(app.state.search_query, "");
    assert!(!app.handle_input(Key::Backspace));
    assert!(!app.handle_input(Key::Char('s')));
    assert!(app.state.search_mode);
    app.handle_input(Key::Char('o'));
    app.handle_input(Key::Char('n'));
    assert_eq!(app.state.search_query, "on");
    assert_eq!(app.state.filtered_indices, vec![1]);
    app.handle_input(Key::Backspace);
    assert_eq!(app.state.search_query, "o");
    app.handle_input(Key::Enter);
    assert!(!app.state.search_mode);
    assert_eq!(app.state.search_query, "o");
    assert_eq!(app.state.filtered_indices, vec![1]);
    app.handle_input(Key::Char('s'));
    assert!(app.state.search_mode);
    app.handle_input(Key::Char('s'));
    assert!(!app.state.search_mode);
    assert_eq!(app.state.search_query, "");
    assert_eq!(app.state.filtered_indices, vec![0, 1]);
}

#[test]
fn keys_move() {
    let mut app = app(many(25));
    app.handle_input(Key::Down);
    assert_eq!(app.state.selected_index, 1);
    app.handle_input(Key::PageDown);
    assert_eq!(app.state.selected_index, 11);
    assert_eq!(app.state.scroll_offset, 2);
    app.handle_input(Key::PageDown);
    app.handle_input(Key::PageDown);
    assert_eq!(app.state.selected_index, 24);
    app.handle_input(Key::Up);
    assert_eq!(app.state.selected_index, 23);
    app.handle_input(Key::PageUp);
    assert_eq!(app.state.selected_index, 13);
    app.handle_input(Key::PageUp);
    app.handle_input(Key::PageUp);
    assert_eq!(app.state.selected_index, 0);
    assert_eq!(app.state.scroll_offset, 0);
}

#[test]
fn urgency_follows_the_first_letter() {
    assert_eq!(urgency(&message("x", Some("A1"), "")), Urgency::High);
    assert_eq!(urgency(&message("x", Some("P2"), "")), Urgency::Medium);
    assert_eq!(urgency(&message("x", Some("B"), "")), Urgency::Plain);
    assert_eq!(urgency(&message("x", Some(""), "")), Urgency::Plain);
    assert_eq!(urgency(&message("x", None, "")), Urgency::Plain);
}

#[test]
fn app_notes() {
    let lookup = Lookup::from_records(
        &vec![vec!["1", "s", "r", "p", "Tankautospuit", "TS"].into_iter().map(String::from).collect()],
        "BR: Brand\n",
    );
    let places = LocationLookup::from_records(
        &vec![vec!["0", "GM000C", "WP1", "", "Leiden", ""].into_iter().map(String::from).collect()],
        &Vec::new(),
        &Vec::new(),
    );
    let mut msg = message("BR Leiden", None, "");
    msg.capcodes = vec!["0001".to_string()];
    let app = App::new(vec![msg], lookup, places);
    let selected = app.state.selected_message().unwrap();
    assert_eq!(app.format_capcodes(selected), Some("Tankautospuit".to_string()));
    assert_eq!(app.format_abbreviations(selected), "BR: Brand");
    assert_eq!(app.format_location(selected), "Leiden");
}
