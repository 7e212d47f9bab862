use p2000::clock::Timestamp;
use p2000::enrich::{clean_tokens, format_abbreviations, format_capcodes, format_location};
use p2000::location::LocationLookup;
use p2000::lookup::Lookup;
use p2000::parser::P2000Message;

fn message(content: &str, capcodes: &[&str], location: &str) -> P2000Message {
    P2000Message {
        protocol: "FLEX".to_string(),
        timestamp: Timestamp { seconds: 0, nanos: 0 },
        radio_address: String::new(),
        frequency: String::new(),
        capcodes: capcodes.iter().map(|s| s.to_string()).collect(),
        message_type: "ALN".to_string(),
        content: content.to_string(),
        priority: None,
        incident_code: None,
        location: location.to_string(),
        units: capcodes.iter().map(|s| s.to_string()).collect(),
    }
}

fn row(items: &[&str]) -> Vec<String> {
    items.iter().map(|s| s.to_string()).collect()
}

fn directory() -> Lookup {
    Lookup::from_records(
        &vec![
            row(&["0001", "Brandweer", "HM", "Leiden", "Tankautospuit Leiden", "TS"]),
            row(&["0002", "Ambulance", "HM", "Gouda", "", "A16"]),
            row(&["0003", "Politie", "HM", "", "", ""]),
        ],
        "P1: Prio 1\nBR: Brand\nOvD: Officier van Dienst\nR&D: Research\nA 1: Spoed\n",
    )
}

#[test]
fn capcodes_are_described() {
    let lookup = directory();
    let msg = message("x", &["001", "9", "2", "0003", "1"], "");
    assert_eq!(
        format_capcodes(&lookup, &msg),
        Some("Tankautospuit Leiden, A16, 3, Tankautospuit Leiden".to_string())
    );
    assert_eq!(format_capcodes(&lookup, &message("x", &["2"], "")), Some("A16".to_string()));
}

#[test]
fn unknown_capcodes_give_no_note() {
    let lookup = directory();
    assert_eq!(format_capcodes(&lookup, &message("x", &["9", "10"], "")), None);
    assert_eq!(format_capcodes(&lookup, &message("x", &[], "")), None);
}

#[test]
fn split_abbreviation_is_found() {
    let lookup = directory();
    let msg = message("P 1 brand in Leiden", &[], "");
    assert_eq!(format_abbreviations(&lookup, &msg), "P1: Prio 1");
}

#[test]
fn abbreviations_are_reported_once_in_order() {
    let lookup = directory();
    let msg = message("BR (OvD) P1 BR, P 1 en OvD.", &[], "");
    assert_eq!(
        format_abbreviations(&lookup, &msg),
        "BR: Brand; OvD: Officier van Dienst; P1: Prio 1"
    );
    let msg = message("R&D -- *BR*", &[], "");
    assert_eq!(format_abbreviations(&lookup, &msg), "R&D: Research; BR: Brand");
}

#[test]
fn pair_is_looked_at_after_its_first_token() {
    let lookup = Lookup::from_records(&Vec::new(), "AB: pair\nB: single\nA: first\n");
    let msg = message("A B", &[], "");
    assert_eq!(format_abbreviations(&lookup, &msg), "A: first; AB: pair; B: single");
}

#[test]
fn no_abbreviations_give_a_hyphen() {
    let lookup = directory();
    assert_eq!(format_abbreviations(&lookup, &message("Ongeval op de weg", &[], "")), "-");
    assert_eq!(format_abbreviations(&lookup, &message("", &[], "")), "-");
    assert_eq!(format_abbreviations(&lookup, &message(" ... ", &[], "")), "-");
}

#[test]
fn tokens_lose_their_punctuation() {
    let words: Vec<Vec<char>> = ["(a)", "...", "b&c", "&", "x-y.", "--"]
        .iter()
        .map(|w| w.chars().collect())
        .collect();
    let tokens: Vec<String> = clean_tokens(&words).into_iter().map(|t| t.into_iter().collect()).collect();
    assert_eq!(tokens, vec!["a", "b&c", "&", "x-y"]);
}

#[test]
fn location_note() {
    let observations = vec![
        row(&["0", "GM000C", "WP1", "", "Leiden", ""]),
        row(&["1", "PV0002", "WP1", "", "Zuid-Holland", ""]),
    ];
    let places = LocationLookup::from_records(&observations, &Vec::new(), &Vec::new());
    let msg = message("Brand Kerkstraat LEIDEN 12345", &[], "");
    assert_eq!(format_location(&places, &msg), "Leiden | Zuid-Holland");
    let msg = message("Brand 12345", &[], "Kerkstraat Leiden");
    assert_eq!(format_location(&places, &msg), "Leiden | Zuid-Holland");
    let msg = message("Brand Kerkstraat Gouda", &[], "Kerkstraat Gouda");
    assert_eq!(format_location(&places, &msg), "Kerkstraat Gouda");
    let msg = message("Lei", &[], "den");
    assert_eq!(format_location(&places, &msg), "den");
}
