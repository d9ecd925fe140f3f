use storehouse_core::run_follow::events::{parse_opts, render as render_event, split_csv, write_human, FollowOpts, Json, Rendered};
use storehouse_core::run_follow::palette::strip_ansi;

struct Opts {
    needle: Option<String>,
    quiet: bool,
    json: bool,
    pretty: bool,
    exclude: Vec<String>,
}

fn human_elapsed(ms: u64) -> String {
    if ms < 1000 {
        format!("{ms}ms")
    } else {
        format!("{:.1}s", ms as f64 / 1000.0)
    }
}

fn render(line: &str, o: &Opts) -> Option<String> {
    let opts = FollowOpts { needle: o.needle.clone(), quiet: o.quiet, json: o.json, pretty: o.pretty, exclude: o.exclude.clone() };
    match render_event(line, &opts) {
        Rendered::Skip => None,
        Rendered::Text(t) => Some(t),
        Rendered::Done { head, elapsed_ms, tail } => Some(format!("{head}{}{tail}", human_elapsed(elapsed_ms))),
    }
}

fn opts() -> Opts {
    Opts { needle: None, quiet: false, json: false, pretty: false, exclude: Vec::new() }
}

fn strip(s: String) -> String {
    strip_ansi(&s)
}

#[test]
fn renders_event_terse() {
    let l = r#"{"ts":"T","command":"Voice::Voice.Speak","kind":"event","verb":"Voice.Spoke","ok":true,"source":"operator"}"#;
    let out = strip(render(l, &opts()).unwrap());
    assert!(out.contains("Voice.Spoke"), "{out}");
    assert!(out.contains("operator"), "{out}");
    assert!(out.contains("event"), "{out}");
}

#[test]
fn renders_done_with_elapsed() {
    let l = r#"{"ts":"T","command":"Heart::Heart.Beat","kind":"done","outcome":"ok","elapsed_ms":1300,"event_count":2,"source":"process-manager"}"#;
    let out = strip(render(l, &opts()).unwrap());
    assert!(out.contains("done"), "{out}");
    assert!(out.contains("1.3s"), "{out}");
    assert!(out.contains("2 events"), "{out}");
}

#[test]
fn quiet_drops_process_manager() {
    let l = r#"{"command":"Heart::Heart.Beat","kind":"done","source":"process-manager","outcome":"ok","elapsed_ms":1,"event_count":1}"#;
    let q = Opts { needle: None, quiet: true, json: false, pretty: false, exclude: Vec::new() };
    assert!(render(l, &q).is_none());
}

#[test]
fn exclude_matches_command() {
    let l = r#"{"command":"Heart::Heart.Beat","kind":"event","verb":"x","ok":true,"source":"process-manager"}"#;
    let e = Opts { needle: None, quiet: false, json: false, pretty: false, exclude: vec!["Heart".into()] };
    assert!(render(l, &e).is_none());
}

#[test]
fn json_mode_pretty_prints() {
    let l = r#"{"command":"D::A.C","kind":"event","verb":"v","ok":true,"source":"operator"}"#;
    let o = Opts { needle: None, quiet: false, json: true, pretty: false, exclude: Vec::new() };
    let out = render(l, &o).unwrap();
    assert!(out.contains("\"command\""), "{out}");
    assert!(out.contains('\n'), "pretty json is multi-line: {out}");
}

#[test]
fn non_json_line_ignored() {
    assert!(render("just some text", &opts()).is_none());
}

#[test]
fn pretty_unescapes_multiline_shell_command() {
    let l = r#"{"command":"Tools::ShellTool.Bash","kind":"event","verb":"Bash","ok":true,"source":"operator","shell_command":"echo hello\necho world"}"#;
    let o = Opts { needle: None, quiet: false, json: false, pretty: true, exclude: Vec::new() };
    let out = render(l, &o).unwrap();
    assert!(!out.contains("\\n"), "escaped \\n found in pretty output:\n{out}");
    assert!(out.contains("echo hello"), "{out}");
    assert!(out.contains("echo world"), "{out}");
}

#[test]
fn terse_event_line_exact() {
    let l = r#"  {"ts":"T","command":"Voice::Voice.Speak","kind":"event","verb":"Voice.Spoke","ok":false,"source":"operator"}  "#;
    let out = render(l, &opts()).unwrap();
    assert_eq!(strip(out.clone()), "[T] [Voice Voice Speak] event Voice.Spoke \u{00b7} operator");
    assert!(out.contains("\x1b[91mevent\x1b[0m"));
}

#[test]
fn done_line_pieces_and_needle() {
    let l = r#"{"command":"A.B","kind":"done","outcome":"error","elapsed_ms":7,"event_count":1,"source":"s"}"#;
    let plain = FollowOpts { needle: None, quiet: false, json: false, pretty: false, exclude: vec![] };
    match render_event(l, &plain) {
        Rendered::Done { head, elapsed_ms, tail } => {
            assert_eq!(elapsed_ms, 7);
            assert_eq!(strip_ansi(&format!("{head}7ms{tail}")), "[] [A B] done error 7ms \u{00b7} 1 event \u{00b7} s");
            assert!(head.contains("\x1b[91merror"));
        }
        _ => panic!("expected a done line"),
    }
    let needle = Opts { needle: Some("zzz".into()), quiet: false, json: false, pretty: false, exclude: vec![] };
    assert!(render(l, &needle).is_none());
    assert!(render(r#"{"kind":"event"}"#, &opts()).is_none());
    assert!(render(r#"[1,2]"#, &opts()).is_none());
}

#[test]
fn human_text_indents_nested_values() {
    let v = Json::Object(vec![
        ("a".to_string(), Json::Array(vec![Json::Number("1".into(), Some(1)), Json::Null])),
        ("b".to_string(), Json::Str("say \"hi\"".into())),
        ("c".to_string(), Json::Object(vec![])),
    ]);
    let text: String = write_human(&v, 0).into_iter().collect();
    assert_eq!(text, "{\n  \"a\": [\n    1,\n    null\n  ],\n  \"b\": \"say \\\"hi\\\"\",\n  \"c\": {\n  }\n}");
}

#[test]
fn csv_lists_trim_and_drop_empties() {
    assert_eq!(split_csv(" Heart, ,SpeechStream,"), vec!["Heart".to_string(), "SpeechStream".to_string()]);
    assert!(split_csv("").is_empty());
}

fn argv(v: &[&str]) -> Vec<String> {
    v.iter().map(|s| s.to_string()).collect()
}

#[test]
fn follow_options_read_flags_needle_and_exclude_list() {
    let o = parse_opts(&argv(&["storehouse", "follow", "Pizza", "--quiet", "--exclude", "A, B,,C", "--json", "Other"]));
    assert_eq!(o.needle, Some("Pizza".to_string()));
    assert!(o.quiet && o.json && !o.pretty);
    assert_eq!(o.exclude, vec!["A".to_string(), "B".to_string(), "C".to_string()]);
}

#[test]
fn follow_options_all_means_no_needle_and_last_exclude_wins() {
    let o = parse_opts(&argv(&["storehouse", "follow", "all", "-q", "--exclude=X", "--pretty", "--exclude=Y,Z", "--exclude"]));
    assert_eq!(o.needle, None);
    assert!(o.quiet && o.pretty && !o.json);
    assert_eq!(o.exclude, vec!["Y".to_string(), "Z".to_string()]);
}
