use storehouse_core::cli::reason_lint::{checked_unreasoned_heki_writes, extract_reason, unreasoned_heki_writes, ReasonArgs};

#[test]
fn writes_without_reason_are_reported_with_their_line() {
    let src = "#!/bin/bash\n# heki append x\nheki append Store --reason \"seed\" a=1\n\"$HECKS\" heki upsert Store \\\n  id=1 \\\n  --reason \"fix\"\nheki delete Store id=2\nheki mark Store \\\n   id=3\n  // heki mark commented\necho done\n";
    assert_eq!(
        unreasoned_heki_writes(src),
        Some(vec![
            "line 7: heki delete Store id=2".to_string(),
            "line 8: heki mark Store \\ id=3".to_string(),
        ])
    );
}

#[test]
fn clean_scripts_have_no_complaints() {
    assert_eq!(unreasoned_heki_writes("echo hi\nheki append S --reason why\n"), None);
    assert_eq!(unreasoned_heki_writes(""), None);
}

#[test]
fn long_invocations_are_cut_to_120_bytes() {
    let long = format!("heki append Store {}", "x".repeat(200));
    let got = unreasoned_heki_writes(&long).unwrap();
    let expected = format!("line 1: {}…", &long[..120]);
    assert_eq!(got, vec![expected]);
}

fn strings(v: &[&str]) -> Vec<String> {
    v.iter().map(|s| s.to_string()).collect()
}

#[test]
fn reason_is_taken_out_of_the_arguments() {
    match extract_reason(&strings(&["Store", "--reason", "seed", "a=1"])) {
        ReasonArgs::Given(r, rest) => {
            assert_eq!(r, "seed");
            assert_eq!(rest, strings(&["Store", "a=1"]));
        }
        _ => panic!("expected a reason"),
    }
    match extract_reason(&strings(&["--reason=x", "b", "--reason=y"])) {
        ReasonArgs::Given(r, rest) => {
            assert_eq!(r, "y");
            assert_eq!(rest, strings(&["b"]));
        }
        _ => panic!("expected a reason"),
    }
    assert!(matches!(extract_reason(&strings(&["a"])), ReasonArgs::Absent));
    assert!(matches!(extract_reason(&strings(&["a", "--reason"])), ReasonArgs::NoValue));
}

#[test]
fn an_invocation_whose_120th_byte_splits_a_character_is_refused() {
    let src = format!("heki append Store x{}", "é".repeat(60));
    assert_eq!(checked_unreasoned_heki_writes(&src), None);
    assert_eq!(checked_unreasoned_heki_writes("heki append S --reason why\n"), Some(None));
    assert_eq!(
        checked_unreasoned_heki_writes("heki delete Store id=2\n"),
        Some(Some(vec!["line 1: heki delete Store id=2".to_string()]))
    );
}
