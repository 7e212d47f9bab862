use p2000::lookup::{normalize_code, Lookup};
use p2000::table::Source;

fn rows(items: &[&[&str]]) -> Vec<Vec<String>> {
    items
        .iter()
        .map(|row| row.iter().map(|s| s.to_string()).collect())
        .collect()
}

#[test]
fn codes_are_normalized() {
    assert_eq!(normalize_code("0005"), "5");
    assert_eq!(normalize_code("5"), "5");
    assert_eq!(normalize_code("005"), "5");
    assert_eq!(normalize_code("0000"), "0");
    assert_eq!(normalize_code("00000"), "0");
    assert_eq!(normalize_code(""), "0");
    assert_eq!(normalize_code("0"), "0");
    assert_eq!(normalize_code("0500"), "500");
    assert_eq!(normalize_code("002029575"), "2029575");
    assert_eq!(normalize_code("A001"), "A001");
}

#[test]
fn codes_with_leading_zeros_resolve_alike() {
    let lookup = Lookup::from_records(
        &rows(&[&["0005", "Brandweer", "Hollands Midden", "Leiden", "Tankautospuit", "TS"]]),
        "",
    );
    for code in ["0005", "5", "005", "000000005"] {
        let info = lookup.resolve_capcode(code).expect(code);
        assert_eq!(info.code, "5");
        assert_eq!(info.service, "Brandweer");
        assert_eq!(info.region, "Hollands Midden");
        assert_eq!(info.place, "Leiden");
        assert_eq!(info.description, "Tankautospuit");
        assert_eq!(info.short, "TS");
    }
    assert!(lookup.resolve_capcode("6").is_none());
    assert!(lookup.resolve_capcode("50").is_none());
    assert!(lookup.resolve_capcode("").is_none());
}

#[test]
fn directory_skips_short_records_and_keeps_the_later() {
    let lookup = Lookup::from_records(
        &rows(&[
            &["1", "a", "b", "c", "first", "f"],
            &["2", "a", "b"],
            &["001", "x", "y", "z", "second", "s", "more"],
            &["\"3\"", "\"q\"", "\"\"", "", "\"\"quoted\"\"", "\"Q"],
        ]),
        "",
    );
    let one = lookup.resolve_capcode("1").unwrap();
    assert_eq!(one.description, "second");
    assert_eq!(one.code, "1");
    assert!(lookup.resolve_capcode("2").is_none());
    let three = lookup.resolve_capcode("3").unwrap();
    assert_eq!(three.service, "q");
    assert_eq!(three.region, "");
    assert_eq!(three.description, "quoted");
    assert_eq!(three.short, "Q");
}

#[test]
fn directory_is_read_from_a_table() {
    let data = b"0001234;Brandweer;Haaglanden;Den Haag;\"Officier; van Dienst\";OvD\n\"0005\";Ambulance;Regio;Leiden;Ambu 16-123;A\n";
    let lookup = Lookup::load(data, "").unwrap();
    let info = lookup.resolve_capcode("1234").unwrap();
    assert_eq!(info.description, "Officier; van Dienst");
    assert_eq!(info.code, "1234");
    assert_eq!(lookup.resolve_capcode("05").unwrap().short, "A");
    assert!(lookup.resolve_capcode("0001234;Brandweer").is_none());
}

#[test]
fn directory_without_header() {
    let lookup = Lookup::load(b"7;a;b;c;only;o\n", "").unwrap();
    assert_eq!(lookup.resolve_capcode("7").unwrap().description, "only");
}

#[test]
fn directory_of_short_records_is_empty() {
    let lookup = Lookup::load(b"1;a;b\n2;c;d\n", "").unwrap();
    assert!(lookup.resolve_capcode("1").is_none());
    assert!(lookup.resolve_capcode("2").is_none());
}

#[test]
fn directory_passes_over_short_records() {
    let lookup = Lookup::load(b"1;a;b;c;d;e\n2;a;b;c;d;e\n3;a\n4;a;b;c;d;e\n", "").unwrap();
    assert_eq!(lookup.resolve_capcode("1").unwrap().description, "d");
    assert_eq!(lookup.resolve_capcode("2").unwrap().code, "2");
    assert!(lookup.resolve_capcode("3").is_none());
    assert_eq!(lookup.resolve_capcode("4").unwrap().short, "e");
    let lookup = Lookup::load(
        b"0005;Brandweer;Hollands Midden;Leiden;Tankautospuit;TS\n7;too;short\n",
        "",
    )
    .unwrap();
    assert_eq!(lookup.resolve_capcode("5").unwrap().description, "Tankautospuit");
    assert!(lookup.resolve_capcode("7").is_none());
    let lookup = Lookup::load(b"7;too;short\n0005;a;b;c;d;e;f;g\n", "").unwrap();
    assert!(lookup.resolve_capcode("7").is_none());
    assert_eq!(lookup.resolve_capcode("5").unwrap().short, "e");
}

#[test]
fn directory_with_a_record_that_is_no_text_fails() {
    match Lookup::load(b"1;a;b;c;d;e\n2;a;b;c;d;\xff\n3;a;b;c;d;e\n", "") {
        Err(error) => {
            assert_eq!(error.source, Source::Capcodes);
            assert_eq!(error.record, 1);
            assert!(!error.reason.is_empty());
        }
        Ok(_) => panic!("a record that is no text"),
    }
    match Lookup::load(b"1;a;b;c;d;\xff\n", "") {
        Err(error) => assert_eq!(error.record, 0),
        Ok(_) => panic!("a record that is no text"),
    }
}

#[test]
fn glossary_lines() {
    let lookup = Lookup::from_records(
        &Vec::new(),
        "BR: Brand\n\n  OvD  :  Officier van Dienst  \nno colon here\n: no key\nno value:\n   \nA:B:C\nBR: Brandweer\r\n",
    );
    assert_eq!(lookup.expand_abbreviation("BR"), Some(&"Brandweer".to_string()));
    assert_eq!(lookup.expand_abbreviation("OvD"), Some(&"Officier van Dienst".to_string()));
    assert_eq!(lookup.expand_abbreviation("A"), Some(&"B:C".to_string()));
    assert_eq!(lookup.expand_abbreviation("no colon here"), None);
    assert_eq!(lookup.expand_abbreviation("no value"), None);
    assert_eq!(lookup.expand_abbreviation(""), None);
    assert_eq!(lookup.expand_abbreviation("br"), None);
}

#[test]
fn glossary_tolerates_spaces_in_abbreviations() {
    let lookup = Lookup::from_records(&Vec::new(), "P 1: Prio 1\nP2: Prio 2\n");
    assert_eq!(lookup.expand_abbreviation("P 1"), Some(&"Prio 1".to_string()));
    assert_eq!(lookup.expand_abbreviation("P1"), Some(&"Prio 1".to_string()));
    assert_eq!(lookup.expand_abbreviation("P  1"), Some(&"Prio 1".to_string()));
    assert_eq!(lookup.expand_abbreviation(" P1 "), Some(&"Prio 1".to_string()));
    assert_eq!(lookup.expand_abbreviation("P 2"), Some(&"Prio 2".to_string()));
    assert_eq!(lookup.expand_abbreviation("P2"), Some(&"Prio 2".to_string()));
    assert_eq!(lookup.expand_abbreviation("P3"), None);
    assert_eq!(lookup.expand_abbreviation("   "), None);
    assert_eq!(lookup.expand_abbreviation("P\t1"), None);
}
