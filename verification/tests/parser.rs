use p2000::clock::Timestamp;
use p2000::parser::{
    extract_location, message_from, parse_unit_codes, priority_from, split_line, P2000Message,
    ParseError, Parser,
};

fn texts(items: &[&str]) -> Vec<String> {
    items.iter().map(|s| s.to_string()).collect()
}

#[test]
fn test_parse_message() {
    let parser = Parser::new();
    let line = "FLEX|2026-01-01 20:14:32|1600/2/K/A|03.091|002029575 001503282 001503289 001503900|ALN|P 2 BDH-07 Ongeval (los object) Gangetje Leiden 169252";

    let msg = parser.parse_line(line).expect("Failed to parse");
    assert_eq!(msg.protocol, "FLEX");
    assert_eq!(msg.radio_address, "1600/2/K/A");
    assert_eq!(msg.frequency, "03.091");
    // `P 2` has a space where the priority expression asks for a digit.
    assert_eq!(msg.priority, None);
    assert_eq!(msg.incident_code, Some("BDH-07".to_string()));
}

#[test]
fn end_to_end_line() {
    let parser = Parser::new();
    let line = "FLEX|2026-01-01 20:14:32|1600/2/K/A|03.091|002029575 001503282|ALN|P 2 BDH-07 Ongeval (los object) Gangetje Leiden 169252";
    let msg = parser.parse_line(line).unwrap();
    assert_eq!(msg.protocol, "FLEX");
    assert_eq!(msg.radio_address, "1600/2/K/A");
    assert_eq!(msg.frequency, "03.091");
    assert_eq!(msg.message_type, "ALN");
    assert_eq!(msg.incident_code, Some("BDH-07".to_string()));
    assert_eq!(msg.capcodes, vec!["002029575".to_string(), "001503282".to_string()]);
    assert_eq!(msg.units, msg.capcodes);
    assert_eq!(msg.content, "P 2 BDH-07 Ongeval (los object) Gangetje Leiden 169252");
    assert_eq!(msg.timestamp, Timestamp { seconds: 1767298472, nanos: 0 });
    assert_eq!(msg.location, "");
}

#[test]
fn priority_with_digit_is_found() {
    let parser = Parser::new();
    let msg = parser
        .parse_line("FLEX|2026-01-01 20:14:32|a|b|1|ALN|P2 BDH-07 Brand Leiden")
        .unwrap();
    assert_eq!(msg.priority, Some("P2".to_string()));
    let msg = parser.parse_line("FLEX|2026-01-01 20:14:32|a|b|1|ALN|A1 Rit 12").unwrap();
    assert_eq!(msg.priority, Some("A1".to_string()));
}

#[test]
fn priority_b_is_found() {
    let parser = Parser::new();
    let msg = parser.parse_line("FLEX|2026-01-01 20:14:32|a|b|1|ALN|B Rit naar huis").unwrap();
    assert_eq!(msg.priority, Some("B".to_string()));
}

#[test]
fn priority_absent() {
    let parser = Parser::new();
    for content in ["Ongeval Leiden", "P2", "XP2 brand", " P2 brand", "C1 brand", "P22 brand"] {
        let line = format!("FLEX|2026-01-01 20:14:32|a|b|1|ALN|{}", content);
        let msg = parser.parse_line(&line).unwrap();
        assert_eq!(msg.priority, None, "{}", content);
    }
}

#[test]
fn incident_code_first_match_wins() {
    let parser = Parser::new();
    let msg = parser
        .parse_line("FLEX|2026-01-01 20:14:32|a|b|1|ALN|P1 BRT-03 en BDH-07 brand")
        .unwrap();
    assert_eq!(msg.incident_code, Some("BRT-03".to_string()));
}

#[test]
fn incident_code_absent() {
    let parser = Parser::new();
    for content in ["Ongeval Leiden", "B-07 brand", "ABCD-07 brand", "BDH-7 brand", "xBDH-07"] {
        let line = format!("FLEX|2026-01-01 20:14:32|a|b|1|ALN|{}", content);
        let msg = parser.parse_line(&line).unwrap();
        assert_eq!(msg.incident_code, None, "{}", content);
    }
}

#[test]
fn too_few_fields_is_invalid_format() {
    let parser = Parser::new();
    match parser.parse_line("FLEX|2026-01-01 20:14:32|x") {
        Err(ParseError::InvalidFormat(text)) => {
            assert_eq!(text, "Expected at least 7 fields, got 3");
        }
        other => panic!("{:?}", other),
    }
    match parser.parse_line("") {
        Err(ParseError::InvalidFormat(text)) => {
            assert_eq!(text, "Expected at least 7 fields, got 1");
        }
        other => panic!("{:?}", other),
    }
    assert!(matches!(
        parser.parse_line("a|b|c|d|e|f"),
        Err(ParseError::InvalidFormat(_))
    ));
    assert!(parser.parse_line("a|2026-01-01 20:14:32|c|d|e|f|").is_ok());
}

#[test]
fn bad_timestamp_is_invalid_timestamp() {
    let parser = Parser::new();
    match parser.parse_line("FLEX|yesterday|a|b|1|ALN|text") {
        Err(ParseError::InvalidTimestamp(text)) => assert_eq!(text, "yesterday"),
        other => panic!("{:?}", other),
    }
    assert!(matches!(
        parser.parse_line("FLEX|2026-13-01 20:14:32|a|b|1|ALN|text"),
        Err(ParseError::InvalidTimestamp(_))
    ));
    assert!(matches!(
        parser.parse_line("FLEX||a|b|1|ALN|text"),
        Err(ParseError::InvalidTimestamp(_))
    ));
}

#[test]
fn error_messages() {
    assert_eq!(
        ParseError::InvalidFormat("Expected at least 7 fields, got 2".to_string()).message(),
        "Invalid FLEX format: Expected at least 7 fields, got 2"
    );
    assert_eq!(
        ParseError::InvalidTimestamp("x".to_string()).message(),
        "Invalid timestamp: x"
    );
    assert_eq!(ParseError::MissingField("content".to_string()).message(), "Missing field: content");
}

#[test]
fn content_keeps_delimiters() {
    let parser = Parser::new();
    let msg = parser
        .parse_line("FLEX|2026-01-01 20:14:32|a|b|1|ALN|een|twee||drie|")
        .unwrap();
    assert_eq!(msg.content, "een|twee||drie|");
}

#[test]
fn capcodes_split_at_white_space() {
    let parser = Parser::new();
    let msg = parser.parse_line("FLEX|2026-01-01 20:14:32|a|b||ALN|x").unwrap();
    assert!(msg.capcodes.is_empty());
    assert!(msg.units.is_empty());
    let msg = parser
        .parse_line("FLEX|2026-01-01 20:14:32|a|b|  12 \t 34  12 |ALN|x")
        .unwrap();
    assert_eq!(msg.capcodes, texts(&["12", "34", "12"]));
}

#[test]
fn timestamp_is_read_as_utc() {
    let parser = Parser::new();
    let msg = parser.parse_line("FLEX|1970-01-01 00:00:00|a|b|1|ALN|x").unwrap();
    assert_eq!(msg.timestamp, Timestamp { seconds: 0, nanos: 0 });
    let msg = parser.parse_line("FLEX|1970-01-02 00:00:01|a|b|1|ALN|x").unwrap();
    assert_eq!(msg.timestamp, Timestamp { seconds: 86401, nanos: 0 });
    let msg = parser.parse_line("FLEX|1969-12-31 23:59:59|a|b|1|ALN|x").unwrap();
    assert_eq!(msg.timestamp.seconds, -1);
}

#[test]
fn parsing_twice_gives_the_same() {
    let parser = Parser::new();
    let line = "FLEX|2026-01-01 20:14:32|1600/2/K/A|03.091|002029575|ALN|A1 BDH-07 Brand Dorpsstraat Leiden";
    let first = parser.parse_line(line).unwrap();
    let second = Parser::new().parse_line(line).unwrap();
    assert_eq!(format!("{:?}", first), format!("{:?}", second));
    let bad = "FLEX|nope|a|b|c|d|e";
    assert_eq!(
        format!("{:?}", parser.parse_line(bad)),
        format!("{:?}", parser.parse_line(bad))
    );
}

#[test]
fn location_stops_at_short_number() {
    assert_eq!(extract_location("P 2 BDH-07 Ongeval Gangetje Leiden 169252"), "");
    assert_eq!(extract_location("Brand Kerkstraat Leiden 123456 Hoofdweg Gouda"), "Hoofdweg Gouda");
    assert_eq!(extract_location("Brand 12 Gouda"), "Gouda");
}

#[test]
fn location_skips_codes() {
    assert_eq!(extract_location("Brand woning Kerkstraat Leiden"), "Brand woning Kerkstraat Leiden");
    assert_eq!(extract_location("Ongeval Gangetje Leiden 1234567"), "Ongeval Gangetje Leiden");
    assert_eq!(extract_location("Hoofdstraat 12-14 Ede"), "Hoofdstraat");
    assert_eq!(extract_location("A1 Nassaulaan 3135ZH Vlaardingen bon"), "Nassaulaan 3135ZH Vlaardingen");
    assert_eq!(extract_location(""), "");
    assert_eq!(extract_location("   "), "");
    assert_eq!(extract_location("een  twee\tdrie"), "twee drie");
    assert_eq!(extract_location("vier  vijfde\tzesde"), "vier vijfde zesde");
}

#[test]
fn unit_codes_are_the_capcodes() {
    let codes = texts(&["001", "002"]);
    assert_eq!(parse_unit_codes(&codes), codes);
    assert!(parse_unit_codes(&Vec::new()).is_empty());
}

#[test]
fn line_is_split_at_bars() {
    assert_eq!(split_line("a|b||c|"), texts(&["a", "b", "", "c", ""]));
    assert_eq!(split_line(""), texts(&[""]));
    assert_eq!(split_line("|"), texts(&["", ""]));
}

#[test]
fn priority_is_the_trimmed_match() {
    assert_eq!(priority_from(&Some("P2 ".to_string())), Some("P2".to_string()));
    assert_eq!(priority_from(&Some("B\t".to_string())), Some("B".to_string()));
    assert_eq!(priority_from(&Some("P 2 ".to_string())), Some("P 2".to_string()));
    assert_eq!(priority_from(&None), None);
}

#[test]
fn message_from_given_matches() {
    let fields = texts(&["FLEX", "t", "addr", "freq", "1 2", "ALN", "P 2 BDH-07 Brand", "Hoofdstraat"]);
    let stamp = Some(Timestamp { seconds: 5, nanos: 7 });
    let msg = message_from(
        &fields,
        stamp,
        Some("P 2 ".to_string()),
        Some("BDH-07".to_string()),
    )
    .unwrap();
    assert_eq!(msg.priority, Some("P 2".to_string()));
    assert_eq!(msg.incident_code, Some("BDH-07".to_string()));
    assert_eq!(msg.content, "P 2 BDH-07 Brand|Hoofdstraat");
    assert_eq!(msg.location, "BDH-07 Brand|Hoofdstraat");
    assert_eq!(msg.timestamp, Timestamp { seconds: 5, nanos: 7 });
    assert_eq!(msg.capcodes, texts(&["1", "2"]));
    assert!(matches!(
        message_from(&fields, None, None, None),
        Err(ParseError::InvalidTimestamp(_))
    ));
    let short = texts(&["a", "b"]);
    match message_from(&short, stamp, None, None) {
        Err(ParseError::InvalidFormat(text)) => assert_eq!(text, "Expected at least 7 fields, got 2"),
        other => panic!("{:?}", other),
    }
}

#[test]
fn summary_line() {
    let mut msg = P2000Message {
        protocol: "FLEX".to_string(),
        timestamp: Timestamp { seconds: 0, nanos: 0 },
        radio_address: String::new(),
        frequency: String::new(),
        capcodes: Vec::new(),
        message_type: String::new(),
        content: "Brand Leiden".to_string(),
        priority: Some("A1".to_string()),
        incident_code: None,
        location: String::new(),
        units: Vec::new(),
    };
    assert_eq!(msg.summary("20:14:32"), "[20:14:32] A1 - Brand Leiden");
    msg.priority = None;
    assert_eq!(msg.summary("20:14:32"), "[20:14:32] ? - Brand Leiden");
}
