use h7cad::cui::{parse_cui, serialize_cui, CuiDocument};
use h7cad::string_map::StringMap;

fn sample_doc() -> CuiDocument {
    let mut aliases = StringMap::new();
    aliases.insert("L".to_string(), "LINE".to_string());
    aliases.insert("CO".to_string(), "COPY".to_string());
    let mut shortcuts = StringMap::new();
    shortcuts.insert("F3".to_string(), "SNAPOFF".to_string());
    CuiDocument { aliases, shortcuts }
}

#[test]
fn round_trip_preserves_all_entries() {
    let doc = sample_doc();
    let text = serialize_cui(&doc);
    let back = parse_cui(&text).expect("parse ok");
    assert_eq!(back, doc);
}

#[test]
fn serialize_sorts_keys() {
    let doc = sample_doc();
    let text = serialize_cui(&doc);
    let co_pos = text.find("CO=COPY").unwrap();
    let l_pos = text.find("L=LINE").unwrap();
    assert!(co_pos < l_pos, "CO should come before L");
}

#[test]
fn parse_ignores_blanks_and_comments() {
    let text = "\n# comment 1\n[aliases]\n\nL=LINE\n# inline comment line\nCO=COPY\n\n[shortcuts]\nF3=SNAPOFF\n";
    let doc = parse_cui(text).expect("parse ok");
    assert_eq!(doc.aliases.len(), 2);
    assert_eq!(doc.aliases.get("L").map(String::as_str), Some("LINE"));
    assert_eq!(doc.shortcuts.get("F3").map(String::as_str), Some("SNAPOFF"));
}

#[test]
fn parse_ignores_unknown_sections() {
    let text = "[aliases]\nL=LINE\n[futureblock]\nx=y\n[shortcuts]\nF3=SNAPOFF\n";
    let doc = parse_cui(text).expect("parse ok");
    assert_eq!(doc.aliases.len(), 1);
    assert_eq!(doc.shortcuts.len(), 1);
}

#[test]
fn parse_tolerates_malformed_lines() {
    let text = "[aliases]\nthis line has no equal sign\nL=LINE\n=novalue\n";
    let doc = parse_cui(text).expect("parse ok");
    assert_eq!(doc.aliases.len(), 1);
    assert_eq!(doc.aliases.get("L").map(String::as_str), Some("LINE"));
}

#[test]
fn parse_trims_whitespace_around_key_value() {
    let text = "[aliases]\n  L  =  LINE  \n";
    let doc = parse_cui(text).expect("parse ok");
    assert_eq!(doc.aliases.get("L").map(String::as_str), Some("LINE"));
}

#[test]
fn empty_doc_round_trip() {
    let doc = CuiDocument::default();
    let text = serialize_cui(&doc);
    assert!(text.contains("[aliases]"));
    assert!(text.contains("[shortcuts]"));
    let back = parse_cui(&text).expect("parse ok");
    assert_eq!(back.aliases.len(), 0);
    assert_eq!(back.shortcuts.len(), 0);
}

#[test]
fn serialize_exact_layout() {
    let doc = sample_doc();
    let text = serialize_cui(&doc);
    assert_eq!(text, "# H7CAD CUI v1\n[aliases]\nCO=COPY\nL=LINE\n[shortcuts]\nF3=SNAPOFF\n");
}

#[test]
fn later_duplicate_key_wins() {
    let doc = parse_cui("[aliases]\nL=LINE\nL=LAYER\n").expect("parse ok");
    assert_eq!(doc.aliases.len(), 1);
    assert_eq!(doc.aliases.get("L").map(String::as_str), Some("LAYER"));
}

#[test]
fn entries_before_any_section_are_dropped() {
    let doc = parse_cui("L=LINE\n[shortcuts]\nF1=HELP\n").expect("parse ok");
    assert_eq!(doc.aliases.len(), 0);
    assert_eq!(doc.shortcuts.get("F1").map(String::as_str), Some("HELP"));
}

#[test]
fn crlf_lines_and_empty_values() {
    let doc = parse_cui("[aliases]\r\nA=\r\nB=BOX\r\n").expect("parse ok");
    assert_eq!(doc.aliases.get("A").map(String::as_str), Some(""));
    assert_eq!(doc.aliases.get("B").map(String::as_str), Some("BOX"));
}
