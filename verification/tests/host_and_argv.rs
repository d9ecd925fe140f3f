use storehouse_core::cli::argv::{being_from_argv0, looks_like_aggregate_command, strip_symbol_or_quotes};
use storehouse_core::cli::edits::{classify_file, edit_command, FileKind};
use storehouse_core::run_host::{acted_count, claim_action, claim_step, parse_duration, env_value, is_pending, no_handler, parse_pairs, verdict_actions, Delivery, HandlerOutcome, HostAction};

fn fields(v: &[(&str, &str)]) -> Vec<(String, String)> {
    v.iter().map(|(a, b)| (a.to_string(), b.to_string())).collect()
}

#[test]
fn handler_stdout_pairs_split_at_first_equals() {
    let pairs = parse_pairs("  status = authorized \n\nnoise\nref=a=b\r\n=x\n");
    assert_eq!(
        pairs,
        vec![
            ("status".to_string(), "authorized".to_string()),
            ("ref".to_string(), "a=b".to_string()),
            ("".to_string(), "x".to_string()),
        ]
    );
    assert!(parse_pairs("").is_empty());
}

#[test]
fn env_values_lose_surrounding_quotes() {
    assert_eq!(env_value("\"https://x\""), "https://x");
    assert_eq!(env_value("plain"), "plain");
    assert_eq!(env_value("\"\"\""), "");
}

fn delivery() -> Delivery {
    Delivery::from_fields(&fields(&[
        ("delivery_id", "d1"),
        ("adapter", "payments"),
        ("source_id", "o7"),
        ("payload", "{}"),
        ("success_command", "Order.MarkPaid"),
        ("status", "pending"),
    ]))
}

#[test]
fn deliveries_read_from_records() {
    let d = delivery();
    assert_eq!(d.delivery_id, "d1");
    assert_eq!(d.failure_command, "");
    assert!(is_pending(&fields(&[("status", "pending")])));
    assert!(!is_pending(&fields(&[("status", "delivered")])));
    assert!(!is_pending(&fields(&[])));
    match no_handler(&d) {
        HostAction::MarkFailed(e) => assert_eq!(e, "no handler for adapter payments"),
        _ => panic!("expected a failure"),
    }
}

#[test]
fn verdicts_follow_the_exit_branch() {
    let d = delivery();
    let ok = Ok(HandlerOutcome { success: true, verdict_pairs: fields(&[("auth", "A1"), ("id", "ignored")]) });
    let acts = verdict_actions(&d, &ok);
    assert_eq!(acts.len(), 2);
    match &acts[0] {
        HostAction::Dispatch(c, a) => {
            assert_eq!(c, "Order.MarkPaid");
            assert_eq!(a, &fields(&[("auth", "A1"), ("id", "ignored"), ("id", "o7")]));
        }
        _ => panic!("expected the verdict dispatch"),
    }
    assert!(matches!(acts[1], HostAction::MarkDelivered));
    let failed = Ok(HandlerOutcome { success: false, verdict_pairs: vec![] });
    match &verdict_actions(&d, &failed)[0] {
        HostAction::MarkFailed(e) => assert_eq!(e, "handler failed (fire-and-forget, no failure_command)"),
        _ => panic!("expected a failure"),
    }
    match &verdict_actions(&d, &Err("spawn x failed".to_string()))[0] {
        HostAction::MarkFailed(e) => assert_eq!(e, "spawn x failed"),
        _ => panic!("expected a failure"),
    }
}

#[test]
fn binaries_name_their_being() {
    assert_eq!(being_from_argv0("/usr/local/bin/summer"), "Summer");
    assert_eq!(being_from_argv0("miette"), "Miette");
    assert_eq!(being_from_argv0("storehouse"), "Miette");
    assert_eq!(being_from_argv0(".."), "Miette");
}

#[test]
fn addresses_are_told_from_paths() {
    assert!(looks_like_aggregate_command("Tools.Bash"));
    assert!(!looks_like_aggregate_command("tools.Bash"));
    assert!(!looks_like_aggregate_command("Tools.bash"));
    assert!(!looks_like_aggregate_command("Tools"));
    assert!(!looks_like_aggregate_command("Dir/Tools.Bash"));
    assert!(!looks_like_aggregate_command("Tools."));
}

#[test]
fn config_values_lose_symbols_and_quotes() {
    assert_eq!(strip_symbol_or_quotes("  :heki "), "heki");
    assert_eq!(strip_symbol_or_quotes("\"a\""), "a");
    assert_eq!(strip_symbol_or_quotes("'b'"), "b");
    assert_eq!(strip_symbol_or_quotes("\"'c'\""), "c");
}

#[test]
fn edited_files_classify_by_extension() {
    assert_eq!(classify_file("a/b.bluebook"), FileKind::Bluebook);
    assert_eq!(classify_file("main.RS"), FileKind::Imperative);
    assert_eq!(classify_file("notes.md"), FileKind::Support);
    assert_eq!(classify_file("Makefile"), FileKind::Other);
    assert_eq!(classify_file("x.tar.gz"), FileKind::Other);
    assert_eq!(edit_command(FileKind::Imperative, true), "RecordExemptedEdit");
    assert_eq!(edit_command(FileKind::Imperative, false), "RecordImperativeEdit");
    assert_eq!(edit_command(FileKind::Bluebook, false), "RecordBluebookEdit");
}

#[test]
fn polling_periods_read_as_milliseconds() {
    assert_eq!(parse_duration("1s"), Some(1000));
    assert_eq!(parse_duration("500ms"), Some(500));
    assert_eq!(parse_duration("2m"), Some(120_000));
    assert_eq!(parse_duration(" 7 "), Some(7000));
    assert_eq!(parse_duration("+4ms"), Some(4));
    assert_eq!(parse_duration("1.5s"), None);
    assert_eq!(parse_duration("-1s"), None);
    assert_eq!(parse_duration("soon"), None);
}

#[test]
fn a_delivery_is_claimed_before_its_handler_runs() {
    match claim_action(&delivery()) {
        HostAction::Claim(id) => assert_eq!(id, "d1"),
        _ => panic!("expected a claim"),
    }
    assert_eq!(claim_step(true, 2), (true, 3));
    assert_eq!(claim_step(false, 2), (false, 2));
    assert_eq!(acted_count(&vec![true, false, true, true]), 3);
    assert_eq!(acted_count(&vec![]), 0);
}
