use p2000::parser::Parser;
use p2000::reader::parse_lines;

#[test]
fn bad_lines_cost_no_other_line_its_message() {
    let lines: Vec<String> = vec![
        "FLEX|2026-01-01 20:14:32|a|b|1|ALN|A1 eerste",
        "kapot",
        "FLEX|never|a|b|1|ALN|tweede",
        "FLEX|2026-01-01 20:14:33|a|b|2|ALN|derde",
        "",
    ]
    .into_iter()
    .map(String::from)
    .collect();
    let batch = parse_lines(&Parser::new(), &lines);
    assert_eq!(batch.messages.len(), 2);
    assert_eq!(batch.messages[0].content, "A1 eerste");
    assert_eq!(batch.messages[1].content, "derde");
    assert_eq!(
        batch.warnings,
        vec![
            "Warning: Failed to parse line: Invalid FLEX format: Expected at least 7 fields, got 1",
            "Warning: Failed to parse line: Invalid timestamp: never",
            "Warning: Failed to parse line: Invalid FLEX format: Expected at least 7 fields, got 1",
        ]
    );
}

#[test]
fn no_lines_give_nothing() {
    let batch = parse_lines(&Parser::new(), &Vec::new());
    assert!(batch.messages.is_empty());
    assert!(batch.warnings.is_empty());
}
