use lookup::batch::{batch_lookups, choose_subjects, select_mode, subject_lookups, Mode, Outcome};
use lookup::json::render_json;
use lookup::model::{Lookup, RecordData};
use lookup::present::{parse_format, render_limited, OutputFormat};
use lookup::table::build_table;

fn record(kind: &str, name: &str, value: &str) -> RecordData {
    RecordData { kind: kind.to_string(), name: name.to_string(), value: value.to_string() }
}

#[test]
fn forward_single_record() {
    let rec = record("A", "example.com.", "93.184.216.34");
    let l = Lookup::from(&rec);
    assert_eq!(l.kind, "A");
    assert_eq!(l.name, "example.com.");
    assert_eq!(l.value, "93.184.216.34");
    assert_eq!(l.state, "SUCCESS");
}

#[test]
fn reverse_single_record() {
    let outcome = Outcome::Resolved(vec![record("PTR", "8.8.8.8.in-addr.arpa.", "dns.google.")]);
    let out = subject_lookups(&"8.8.8.8".to_string(), &outcome);
    assert_eq!(out.len(), 1);
    assert_eq!(out[0].kind, "PTR");
    assert_eq!(out[0].name, "8.8.8.8.in-addr.arpa.");
    assert_eq!(out[0].value, "dns.google.");
    assert_eq!(out[0].state, "SUCCESS");
}

#[test]
fn failed_subject_single_placeholder() {
    let out = subject_lookups(&"nonexistent.invalid".to_string(), &Outcome::Failed);
    assert_eq!(out.len(), 1);
    assert_eq!(out[0].kind, "");
    assert_eq!(out[0].name, "nonexistent.invalid");
    assert_eq!(out[0].value, "nonexistent.invalid");
    assert_eq!(out[0].state, "FAILED");
}

#[test]
fn failed_constructor_echoes_subject() {
    let l = Lookup::failed("nope.example".to_string());
    assert_eq!(l.kind, "");
    assert_eq!(l.name, "nope.example");
    assert_eq!(l.value, "nope.example");
    assert_eq!(l.state, "FAILED");
}

#[test]
fn resolved_records_keep_resolver_order() {
    let outcome = Outcome::Resolved(vec![
        record("A", "a.example.", "10.0.0.1"),
        record("A", "a.example.", "10.0.0.2"),
        record("AAAA", "a.example.", "2001:db8::1"),
    ]);
    let out = subject_lookups(&"a.example".to_string(), &outcome);
    assert_eq!(out.len(), 3);
    assert_eq!(out[0].value, "10.0.0.1");
    assert_eq!(out[1].value, "10.0.0.2");
    assert_eq!(out[2].value, "2001:db8::1");
}

#[test]
fn batch_preserves_subject_order_and_counts() {
    let subjects = vec!["one.example".to_string(), "two.example".to_string(), "three.example".to_string()];
    let outcomes = vec![
        Outcome::Resolved(vec![
            record("A", "one.example.", "10.0.0.1"),
            record("A", "one.example.", "10.0.0.2"),
        ]),
        Outcome::Failed,
        Outcome::Resolved(vec![record("A", "three.example.", "10.0.0.3")]),
    ];
    let out = batch_lookups(&subjects, &outcomes);
    assert_eq!(out.len(), 4);
    assert!(out.len() >= subjects.len());
    assert_eq!(out[0].value, "10.0.0.1");
    assert_eq!(out[1].value, "10.0.0.2");
    assert_eq!(out[2].name, "two.example");
    assert_eq!(out[2].state, "FAILED");
    assert_eq!(out[3].value, "10.0.0.3");
}

#[test]
fn batch_of_no_subjects_is_empty() {
    let out = batch_lookups(&Vec::new(), &Vec::new());
    assert!(out.is_empty());
}

#[test]
fn positional_arguments_win() {
    let args = vec!["a.example".to_string()];
    let lines = vec!["x.example".to_string(), "y.example".to_string()];
    let chosen = choose_subjects(args.clone(), lines);
    assert_eq!(chosen, args);
}

#[test]
fn stdin_lines_used_when_no_arguments() {
    let lines = vec!["first.example".to_string(), "second.example".to_string()];
    let chosen = choose_subjects(Vec::new(), lines.clone());
    assert_eq!(chosen, lines);
}

#[test]
fn mode_selection() {
    assert_eq!(select_mode(true), Mode::Forward);
    assert_eq!(select_mode(false), Mode::Reverse);
}

#[test]
fn format_selector_parsing() {
    assert_eq!(parse_format(&"table".to_string()), Some(OutputFormat::Table));
    assert_eq!(parse_format(&"json".to_string()), Some(OutputFormat::Json));
    assert_eq!(parse_format(&"limited".to_string()), Some(OutputFormat::Limited));
    assert_eq!(parse_format(&"csv".to_string()), None);
    assert_eq!(parse_format(&"".to_string()), None);
}

#[test]
fn limited_output_is_value_column() {
    let lookups = vec![
        Lookup::from(&record("A", "example.com.", "93.184.216.34")),
        Lookup::failed("bad.example".to_string()),
    ];
    let out = render_limited(&lookups);
    assert_eq!(out, "93.184.216.34\nbad.example\n");
}

#[test]
fn limited_output_of_empty_batch_is_empty() {
    assert_eq!(render_limited(&Vec::new()), "");
}

#[test]
fn json_output_exact() {
    let lookups = vec![Lookup::from(&record("A", "example.com.", "93.184.216.34"))];
    let out = render_json(&lookups);
    assert_eq!(
        out,
        "[{\"kind\":\"A\",\"name\":\"example.com.\",\"value\":\"93.184.216.34\",\"state\":\"SUCCESS\"}]"
    );
}

#[test]
fn json_output_of_empty_batch() {
    assert_eq!(render_json(&Vec::new()), "[]");
}

#[test]
fn json_escaping_matches_serde() {
    let tricky = "quote\" back\\slash \nnew\tline\r bell\u{0007} del\u{000C}page\u{0008}";
    let lookups = vec![Lookup::from(&record("TXT", "t.example.", tricky))];
    let enc = |s: &str| serde_json::to_string(&serde_json::Value::String(s.to_string())).unwrap();
    let expected = format!(
        "[{{\"kind\":{},\"name\":{},\"value\":{},\"state\":{}}}]",
        enc("TXT"),
        enc("t.example."),
        enc(tricky),
        enc("SUCCESS"),
    );
    assert_eq!(render_json(&lookups), expected);
}

#[test]
fn json_round_trips_through_serde() {
    let tricky = "a\"b\\c\nd\te\u{0001}f";
    let lookups = vec![
        Lookup::from(&record("A", "one.example.", "10.0.0.1")),
        Lookup::from(&record("TXT", "two.example.", tricky)),
        Lookup::failed("bad.example".to_string()),
    ];
    let out = render_json(&lookups);
    let parsed: serde_json::Value = serde_json::from_str(&out).unwrap();
    let arr = parsed.as_array().unwrap();
    assert_eq!(arr.len(), lookups.len());
    for (v, l) in arr.iter().zip(lookups.iter()) {
        assert_eq!(v.get("kind").unwrap().as_str().unwrap(), l.kind);
        assert_eq!(v.get("name").unwrap().as_str().unwrap(), l.name);
        assert_eq!(v.get("value").unwrap().as_str().unwrap(), l.value);
        assert_eq!(v.get("state").unwrap().as_str().unwrap(), l.state);
    }
}

#[test]
fn table_has_header_then_rows() {
    let lookups = vec![
        Lookup::from(&record("A", "example.com.", "93.184.216.34")),
        Lookup::failed("bad.example".to_string()),
    ];
    let t = build_table(&lookups);
    assert_eq!(t.len(), 3);
    let header = t.get_row(0).unwrap();
    assert_eq!(header.get_cell(0).unwrap().get_content(), "KIND");
    assert_eq!(header.get_cell(1).unwrap().get_content(), "NAME");
    assert_eq!(header.get_cell(2).unwrap().get_content(), "VALUE");
    assert_eq!(header.get_cell(3).unwrap().get_content(), "STATE");
    let first = t.get_row(1).unwrap();
    assert_eq!(first.get_cell(0).unwrap().get_content(), "A");
    assert_eq!(first.get_cell(1).unwrap().get_content(), "example.com.");
    assert_eq!(first.get_cell(2).unwrap().get_content(), "93.184.216.34");
    assert_eq!(first.get_cell(3).unwrap().get_content(), "SUCCESS");
    let second = t.get_row(2).unwrap();
    assert_eq!(second.get_cell(0).unwrap().get_content(), "");
    assert_eq!(second.get_cell(1).unwrap().get_content(), "bad.example");
    assert_eq!(second.get_cell(2).unwrap().get_content(), "bad.example");
    assert_eq!(second.get_cell(3).unwrap().get_content(), "FAILED");
}

#[test]
fn parse_json_inverts_render() {
    let lookups = vec![
        Lookup::from(&record("A", "one.example.", "10.0.0.1")),
        Lookup::from(&record("TXT", "two.example.", "q\"w\\e\nr\tt\u{0001}y")),
        Lookup::failed("bad.example".to_string()),
    ];
    let parsed = lookup::json::parse_json(&render_json(&lookups)).unwrap();
    assert_eq!(parsed, lookups);
}

#[test]
fn parse_json_empty_array() {
    let parsed = lookup::json::parse_json("[]").unwrap();
    assert!(parsed.is_empty());
}

#[test]
fn parse_json_reads_unicode_escape() {
    let text = "[{\"kind\":\"TXT\",\"name\":\"n.\",\"value\":\"a\\u0007b\",\"state\":\"SUCCESS\"}]";
    let parsed = lookup::json::parse_json(text).unwrap();
    assert_eq!(parsed.len(), 1);
    assert_eq!(parsed[0].value, "a\u{0007}b");
}

#[test]
fn parse_json_rejects_malformed_text() {
    assert!(lookup::json::parse_json("").is_none());
    assert!(lookup::json::parse_json("[").is_none());
    assert!(lookup::json::parse_json("{}").is_none());
    assert!(lookup::json::parse_json("[{}]").is_none());
    assert!(lookup::json::parse_json("[{\"kind\":\"A\"}]").is_none());
    assert!(lookup::json::parse_json("[]x").is_none());
    assert!(lookup::json::parse_json(
        "[{\"kind\":\"A\",\"name\":\"n\",\"value\":\"v\",\"state\":\"S\"}]extra"
    )
    .is_none());
    assert!(lookup::json::parse_json(
        "[{\"kind\":\"A\",\"name\":\"n\",\"value\":\"v\\q\",\"state\":\"S\"}]"
    )
    .is_none());
}

#[test]
fn try_build_table_accepts_plain_fields() {
    let lookups = vec![Lookup::from(&record("A", "example.com.", "93.184.216.34"))];
    let t = lookup::table::try_build_table(&lookups).unwrap();
    assert_eq!(t.len(), 2);
    let body = t.get_row(1).unwrap();
    assert_eq!(body.get_cell(2).unwrap().get_content(), "93.184.216.34");
}

#[test]
fn try_build_table_refuses_ansi_escape() {
    let lookups = vec![Lookup::from(&record("TXT", "t.example.", "\u{001b}[31mred\u{001b}[0m"))];
    assert!(lookup::table::try_build_table(&lookups).is_none());
}

#[test]
fn table_cells_store_lines() {
    let lookups = vec![
        Lookup::from(&record("TXT", "multi.example.", "first\nsecond")),
        Lookup::from(&record("TXT", "trail.example.", "trail\n")),
        Lookup::from(&record("TXT", "crlf.example.", "cr\r\nlf")),
    ];
    let t = lookup::table::try_build_table(&lookups).unwrap();
    assert_eq!(t.get_row(1).unwrap().get_cell(2).unwrap().get_content(), "first\nsecond");
    assert_eq!(t.get_row(2).unwrap().get_cell(2).unwrap().get_content(), "trail");
    assert_eq!(t.get_row(3).unwrap().get_cell(2).unwrap().get_content(), "cr\nlf");
}

#[test]
fn blank_stdin_line_is_rejected() {
    let ok = vec!["one.example".to_string(), "two.example".to_string()];
    assert!(lookup::batch::lines_are_subjects(&ok));
    let blank = vec!["one.example".to_string(), "".to_string()];
    assert!(!lookup::batch::lines_are_subjects(&blank));
    assert!(lookup::batch::lines_are_subjects(&Vec::new()));
}
