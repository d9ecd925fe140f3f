use storehouse_core::run_follow::block::{colourise_json, colourise_legacy, Block};
use storehouse_core::run_follow::palette::strip_ansi;

fn sample_block() -> String {
    "{\n  \"invocation_id\": \"inv1\",\n  \"command\": \"Voice::Voice.Speak\",\n  \"source_tag\": \"operator\",\n  \"outcome\": \"ok\",\n  \"elapsed_ms\": 12345,\n  \"dispatched_at\": \"2026-05-21T00:00:00Z\",\n  \"event_count\": 4,\n  \"events\": [\n    { \"kind\": \"dispatch\", \"verb\": \"Voice::Voice.Speak\", \"ok\": true }\n  ]\n}".to_string()
}

#[test]
fn parse_extracts_fields() {
    let b = Block::parse(&sample_block()).unwrap();
    assert_eq!(b.command, "Voice::Voice.Speak");
    assert_eq!(b.outcome, "ok");
    assert_eq!(b.elapsed_ms, 12345);
    assert_eq!(b.event_count, 4);
    assert_eq!(b.source_tag, "operator");
}

#[test]
fn parse_none_for_terse_line() {
    assert!(Block::parse("[2026-05-21T00:00:00Z] event Voice.Spoke#1").is_none());
}

#[test]
fn prefix_words_three_segments() {
    let b = Block::parse(&sample_block()).unwrap();
    assert_eq!(b.prefix_words(), vec!["Voice", "Voice", "Speak"]);
}

#[test]
fn prefix_words_degenerate() {
    let b = Block { command: "Beat".into(), outcome: "ok".into(), elapsed_ms: 0, event_count: 0, source_tag: "x".into() };
    assert_eq!(b.prefix_words(), vec!["Beat"]);
}

#[test]
fn domain_and_aggregate() {
    let b = Block {
        command: "Tools::ShellTool.Bash".into(),
        outcome: "ok".into(),
        elapsed_ms: 0,
        event_count: 0,
        source_tag: "x".into(),
    };
    assert_eq!(b.domain(), "Tools");
    assert_eq!(b.aggregate(), "ShellTool");
}

#[test]
fn line_scan_not_poisoned_by_summary() {
    let block = "{\n  \"command\": \"D::A.C\",\n  \"summary\": \"says elapsed_ms: 999 in text\",\n  \"outcome\": \"ok\",\n  \"elapsed_ms\": 42,\n  \"event_count\": 0,\n  \"events\": []\n}";
    let b = Block::parse(block).unwrap();
    assert_eq!(b.elapsed_ms, 42);
}

fn human_elapsed(ms: u64) -> String {
    if ms < 1000 {
        format!("{ms}ms")
    } else {
        format!("{:.1}s", ms as f64 / 1000.0)
    }
}

fn terse(b: &Block) -> String {
    b.terse_with(&human_elapsed(b.elapsed_ms))
}

#[test]
fn terse_is_one_line_and_scannable() {
    let b = Block::parse(&sample_block()).unwrap();
    let plain = strip_ansi(&terse(&b));
    assert_eq!(plain, "[Voice Voice Speak] ok 12.3s \u{00b7} 4 events \u{00b7} operator");
    assert!(!plain.contains('\n'));
}

#[test]
fn terse_singular_event() {
    let b = Block {
        command: "Heart::Heart.Beat".into(),
        outcome: "ok".into(),
        elapsed_ms: 3,
        event_count: 1,
        source_tag: "process-manager".into(),
    };
    let plain = strip_ansi(&terse(&b));
    assert_eq!(plain, "[Heart Heart Beat] ok 3ms \u{00b7} 1 event \u{00b7} process-manager");
}

#[test]
fn terse_with_colours_error_outcome_red() {
    let b = Block { command: "".into(), outcome: "error".into(), elapsed_ms: 0, event_count: 0, source_tag: "".into() };
    let t = b.terse_with("0ms");
    assert!(t.starts_with("\x1b[2m[]\x1b[0m \x1b[91merror\x1b[0m"));
    assert_eq!(strip_ansi(&t), "[] error 0ms \u{00b7} 0 events \u{00b7} ");
}

#[test]
fn parse_defaults_missing_fields() {
    let b = Block::parse("  \"command\": \"X.Y\"").unwrap();
    assert_eq!(b.outcome, "ok");
    assert_eq!(b.elapsed_ms, 0);
    assert_eq!(b.event_count, 0);
    assert_eq!(b.source_tag, "");
}

#[test]
fn parse_number_overflow_defaults_to_zero() {
    let b = Block::parse("\"command\": \"X.Y\"\n\"elapsed_ms\": 99999999999999999999,\n\"event_count\": 18446744073709551615").unwrap();
    assert_eq!(b.elapsed_ms, 0);
    assert_eq!(b.event_count, u64::MAX);
}

#[test]
fn strip_ansi_removes_escape_sequences() {
    assert_eq!(strip_ansi("\x1b[36mcyan\x1b[0m plain \x1b[91m!"), "cyan plain !");
    assert_eq!(strip_ansi("no escapes"), "no escapes");
}

#[test]
fn legacy_line_colours_verb_and_timestamp() {
    let out = colourise_legacy("[t1] cascade X#id ok=false");
    assert_eq!(out, "\x1b[2m[t1]\x1b[0m \x1b[91mcascade\x1b[0m X#id ok=false");
    let out = colourise_legacy("[t1] dispatch D::A.C#inv");
    assert_eq!(out, "\x1b[2m[t1]\x1b[0m \x1b[36mdispatch\x1b[0m D::A.C#inv");
    assert_eq!(colourise_legacy("no timestamp"), "no timestamp");
}

#[test]
fn json_lines_are_coloured_and_unescaped() {
    let text = "{\n  \"command\": \"D::A.C\",\n  \"args\": \"{\\\"k\\\": 1}\",\n  \"other\": 2\n}";
    let out = colourise_json(text);
    let lines: Vec<&str> = out.split('\n').collect();
    assert_eq!(lines.len(), 5);
    assert_eq!(lines[1], "  \"command\": \x1b[36m\"D::A.C\",\x1b[0m");
    assert_eq!(lines[2], "  \"args\": \"{\"k\": 1}\",");
    assert_eq!(lines[3], "  \"other\": 2");
}
