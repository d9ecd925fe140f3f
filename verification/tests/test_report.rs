use storehouse_core::run_follow::events::Json;
use storehouse_core::cli::test_report::{
    json_report, source_for_suite, compact_inline, compact_summary, parse_test_opts, rspec_inline, rspec_summary, tally, tap_text,
    test_exit_code, is_listed, stops_after_suite, SuiteReport, TestFmt, TestRun, TestStatus,
};

fn argv(v: &[&str]) -> Vec<String> {
    v.iter().map(|s| s.to_string()).collect()
}

fn run(d: &str, status: TestStatus, message: Option<&str>) -> TestRun {
    TestRun { description: d.into(), status, message: message.map(|m| m.to_string()) }
}

fn suite(path: &str, runs: Vec<TestRun>) -> SuiteReport {
    SuiteReport {
        suite_path: path.into(),
        source_path: path.replace(".behaviors", ".bluebook"),
        fixtures_path: None,
        parse_error: None,
        skipped_by_filter: 0,
        runs,
    }
}

fn broken(path: &str, err: &str) -> SuiteReport {
    SuiteReport { parse_error: Some(err.into()), ..suite(path, vec![]) }
}

#[test]
fn test_options_read_every_flag() {
    let o = parse_test_opts(&argv(&[
        "storehouse", "test", "dir", "--filter", "adds", "--aggregate", "Pizza", "--format", "tap",
        "--fail-fast", "--list", "--corpus", "c", "--allow-empty",
    ]))
    .ok()
    .unwrap();
    assert_eq!(o.path, Some("dir".to_string()));
    assert_eq!(o.filter, Some("adds".to_string()));
    assert_eq!(o.aggregate, Some("Pizza".to_string()));
    assert_eq!(o.fmt, TestFmt::Tap);
    assert!(o.fail_fast && o.list && o.allow_empty);
    assert_eq!(o.corpus, Some("c".to_string()));
    let d = parse_test_opts(&argv(&["storehouse", "test"])).ok().unwrap();
    assert_eq!(d.path, None);
    assert_eq!(d.fmt, TestFmt::Compact);
}

#[test]
fn test_options_reject_bad_input() {
    let err = |v: &[&str]| parse_test_opts(&argv(v)).err().unwrap();
    assert_eq!(err(&["s", "test", "--filter"]), "--filter needs a value");
    assert_eq!(err(&["s", "test", "--format", "xml"]), "--format expects compact|tap|rspec|json, got `xml`");
    assert_eq!(err(&["s", "test", "--format"]), "--format expects compact|tap|rspec|json, got ``");
    assert_eq!(err(&["s", "test", "--verbose"]), "unknown flag: --verbose");
    assert_eq!(err(&["s", "test", "a", "b"]), "unexpected positional arg: b");
}

#[test]
fn compact_and_rspec_suite_lines() {
    let mut s = suite("p.behaviors", vec![run("adds", TestStatus::Pass, None), run("drops", TestStatus::Fail, Some("expected 2"))]);
    s.fixtures_path = Some("p.fixtures".into());
    assert_eq!(
        compact_inline(&s),
        "Running 2 test(s) from p.behaviors\n  source: p.bluebook\n  fixtures: p.fixtures\n  PASS adds\n  FAIL drops\n       expected 2\n"
    );
    assert_eq!(rspec_inline(&s), ".F");
    let b = broken("q.behaviors", "bad line 3");
    assert_eq!(compact_inline(&b), "PARSE ERROR — q.behaviors: bad line 3\n");
    assert_eq!(rspec_inline(&b), "E");
}

#[test]
fn summaries_count_across_suites() {
    let mut a = suite("a.behaviors", vec![run("one", TestStatus::Pass, None), run("two", TestStatus::Error, Some("boom"))]);
    a.skipped_by_filter = 3;
    let reports = vec![a, broken("b.behaviors", "oops"), suite("c.behaviors", vec![run("three", TestStatus::Fail, Some("l1\nl2"))])];
    let t = tally(&reports);
    assert_eq!((t.files, t.runs, t.passed, t.failed, t.errored, t.filtered), (3, 3, 1, 1, 1, 3));
    assert_eq!(
        compact_summary(&t),
        "\n3 file(s) ; 3 test(s) : 1 passed, 1 failed, 1 errored\n  (3 skipped by filter)\n"
    );
    assert_eq!(
        rspec_summary(&reports, &t),
        "\n  ERROR — two\n    boom\nPARSE ERROR — b.behaviors: oops\n  FAILED — three\n    l1\nl2\n\n3 examples, 1 failures, 1 errors\n"
    );
    assert_eq!(
        tap_text(&reports, &t),
        "TAP version 13\n1..3\nok 1 - one\nnot ok 2 - two\n  ---\n  boom\n  ---\n# parse error in b.behaviors: oops\nnot ok 3 - three\n  ---\n  l1\n  l2\n  ---\n# 1 passed, 1 failed, 1 errored\n"
    );
    assert_eq!(test_exit_code(&reports, false), 2);
}

#[test]
fn exit_codes_follow_parse_errors_failures_and_empty_runs() {
    assert_eq!(test_exit_code(&vec![suite("a", vec![run("x", TestStatus::Pass, None)])], false), 0);
    assert_eq!(test_exit_code(&vec![suite("a", vec![run("x", TestStatus::Fail, None)])], false), 1);
    assert_eq!(test_exit_code(&vec![suite("a", vec![])], false), 3);
    assert_eq!(test_exit_code(&vec![suite("a", vec![])], true), 0);
    assert_eq!(test_exit_code(&vec![broken("a", "e")], true), 2);
}

fn value(j: &Json) -> serde_json::Value {
    match j {
        Json::Null => serde_json::Value::Null,
        Json::Bool(b) => serde_json::Value::Bool(*b),
        Json::Number(t, _) => serde_json::from_str(t).unwrap(),
        Json::Str(s) => serde_json::Value::String(s.clone()),
        Json::Array(a) => serde_json::Value::Array(a.iter().map(value).collect()),
        Json::Object(m) => {
            let mut out = serde_json::Map::new();
            for (k, v) in m {
                out.insert(k.clone(), value(v));
            }
            serde_json::Value::Object(out)
        }
    }
}

#[test]
fn json_report_lists_suites_runs_and_summary() {
    let reports = vec![suite("a.behaviors", vec![run("one", TestStatus::Pass, None), run("two", TestStatus::Fail, Some("no"))]), broken("b.behaviors", "oops")];
    let t = tally(&reports);
    let expected = r#"{
        "files": [
            {"suite": "a.behaviors", "source": "a.bluebook", "fixtures": null, "parse_error": null, "skipped_by_filter": 0,
             "runs": [{"description": "one", "status": "pass", "message": null},
                      {"description": "two", "status": "fail", "message": "no"}]},
            {"suite": "b.behaviors", "source": "b.bluebook", "fixtures": null, "parse_error": "oops", "skipped_by_filter": 0, "runs": []}
        ],
        "summary": {"files": 2, "total": 2, "passed": 1, "failed": 1, "errored": 0, "filtered": 0}
    }"#;
    assert_eq!(value(&json_report(&reports, &t)), serde_json::from_str::<serde_json::Value>(expected).unwrap());
}

#[test]
fn suites_name_the_bluebook_beside_them() {
    assert_eq!(source_for_suite("path/to/foo.behaviors"), "path/to/foo.bluebook");
    assert_eq!(source_for_suite("path/to/foo_behavioral_tests.bluebook"), "path/to/foo.bluebook");
    assert_eq!(source_for_suite("foo.behaviors"), "foo.bluebook");
}

#[test]
fn listing_filters_by_lowercased_text_and_aggregate() {
    let some = |s: &str| Some(s.to_string());
    assert!(is_listed("Adds a Topping", "Pizza", &some("ADDS"), &None));
    assert!(is_listed("Adds a Topping", "Pizza", &some("a top"), &some("Pizza")));
    assert!(!is_listed("Adds a Topping", "Pizza", &some("removes"), &None));
    assert!(!is_listed("Adds a Topping", "Pizza", &None, &some("Order")));
    assert!(is_listed("anything", "Any", &None, &None));
}

#[test]
fn fail_fast_stops_after_a_failing_or_broken_suite() {
    let good = suite("a.behaviors", vec![run("ok", TestStatus::Pass, None)]);
    let bad = suite("b.behaviors", vec![run("no", TestStatus::Fail, Some("x"))]);
    assert!(!stops_after_suite(true, &vec![good]));
    let good = suite("a.behaviors", vec![run("ok", TestStatus::Pass, None)]);
    assert!(stops_after_suite(true, &vec![good, bad]));
    let bad = suite("b.behaviors", vec![run("no", TestStatus::Error, None)]);
    assert!(!stops_after_suite(false, &vec![bad]));
    assert!(stops_after_suite(true, &vec![broken("c.behaviors", "oops")]));
}
