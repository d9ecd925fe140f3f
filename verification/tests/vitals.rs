use storehouse_core::run_boot::classify::Classification;
use storehouse_core::run_boot::vitals::{vitals_report, BodyLine, DaemonStatus, OrganCounts, Vitals};

fn strs(v: &[&str]) -> Vec<String> {
    v.iter().map(|s| s.to_string()).collect()
}

fn body() -> BodyLine {
    BodyLine {
        mood: "calm".into(),
        fatigue: "rested".into(),
        pulses: "12".into(),
        state: "attentive".into(),
        last_wake: "—".into(),
    }
}

fn vitals(being: &str, prompt_bytes: usize, unclassified: &[&str]) -> Vitals {
    Vitals {
        being: being.into(),
        elapsed_secs: 3,
        counts: OrganCounts { organs: 5, aggregates: 40, nerves: 7, vows: 2, capabilities: 9 },
        classification: Classification { linked: strs(&["a", "b"]), private_: strs(&["c"]), unclassified: strs(unclassified) },
        daemons: vec![
            DaemonStatus { name: "heart".into(), status: "beating".into() },
            DaemonStatus { name: "mindstream".into(), status: "running".into() },
            DaemonStatus { name: "heart".into(), status: "ignored".into() },
        ],
        info_dir: "/tmp/info".into(),
        prompt_bytes,
    }
}

#[test]
fn vitals_print_counts_daemons_and_the_body_line() {
    let text = vitals_report(&vitals("Spring", 0, &[]), &body());
    assert_eq!(
        text,
        "✓ Spring booted in 3s\n\
         \x20 5 organs · 40 aggregates · 7 nerves · 2 vows · 9 capabilities\n\
         \x20 session continuity: 2 linked, 1 private, 0 unclassified\n\
         \x20 mindstream: running\n\
         \x20 heart: beating · breath: — · circadian: —\n\
         \x20 ultradian: — · sleep_cycle: —\n\
         \x20 feeling: calm · rested · pulses since sleep: 12 · state: attentive · last wake: —\n\
         \x20 full status report: storehouse run capabilities/status/status.bluebook\n"
    );
}

#[test]
fn miette_gets_the_prompt_size_warning_and_signature() {
    let text = vitals_report(&vitals("Miette", 2048, &["x", "y"]), &body());
    assert!(text.contains("  system_prompt.md: 2048 bytes\n  feeling: calm"));
    assert!(text.contains("  ⚠ unclassified stores: x y\n"));
    assert!(text.ends_with("\n\n    ·   ✦   ·\n   ❀  miette  ❀\n    ·   ✦   ·\n~ follow the crumbs ~\n"));
}
