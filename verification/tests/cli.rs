use storehouse_core::cli::cadence::{parse_bootstrap, parse_loop_args, parse_loop_duration, LoopSpan, parse_emit, parse_gate, rotation_tick, split_rotation};
use storehouse_core::cli::clock::{clock_tick, fqn_address_error, match_segment, parse_segment};
use storehouse_core::cli::sleep::{
    sleep_fmt_elapsed, sleep_opening, sleep_pick_dream_text, sleep_step, sleep_truncate, ConsciousnessReading,
    SleepAction, SleepTick, SleepWatch,
};

fn pairs(v: &[(&str, &str)]) -> Vec<(String, String)> {
    v.iter().map(|(a, b)| (a.to_string(), b.to_string())).collect()
}

#[test]
fn elapsed_formats_minutes_and_hours() {
    assert_eq!(sleep_fmt_elapsed(0), "00:00");
    assert_eq!(sleep_fmt_elapsed(75), "01:15");
    assert_eq!(sleep_fmt_elapsed(3599), "59:59");
    assert_eq!(sleep_fmt_elapsed(3600), "01:00:00");
    assert_eq!(sleep_fmt_elapsed(36000 * 10 + 61), "100:01:01");
}

#[test]
fn truncate_counts_characters() {
    assert_eq!(sleep_truncate("héllo", 5), "héllo");
    assert_eq!(sleep_truncate("héllo", 2), "hé…");
    assert_eq!(sleep_truncate("", 0), "");
}

#[test]
fn dream_text_prefers_english() {
    let rec = pairs(&[("image", "img"), ("text", ""), ("impression", "imp"), ("english", "eng")]);
    assert_eq!(sleep_pick_dream_text(&rec), "eng");
    let rec = pairs(&[("image", "img"), ("text", "")]);
    assert_eq!(sleep_pick_dream_text(&rec), "img");
    assert_eq!(sleep_pick_dream_text(&pairs(&[("id", "1")])), "");
}

fn reading(state: &str, stage: &str, cycle: i64) -> ConsciousnessReading {
    ConsciousnessReading {
        state: state.into(),
        stage: stage.into(),
        cycle,
        total: 4,
        lucid: "no".into(),
        summary: "".into(),
    }
}

#[test]
fn sleep_watch_streams_changes_then_wakes() {
    let w = SleepWatch::new();
    let t = SleepTick {
        elapsed_secs: 1,
        consciousness: Some(reading("sleeping", "nrem", 1)),
        dream: Some(pairs(&[("id", "d1"), ("impression", "a garden")])),
        lucid_dream: None,
    };
    let (w, lines, action) = sleep_step(w, &t);
    assert!(action == SleepAction::Continue);
    assert_eq!(lines, vec!["[00:01]  nrem        cycle 1/4".to_string(), "[00:01]  dream  ·  a garden".to_string()]);
    let t2 = SleepTick {
        elapsed_secs: 2,
        consciousness: Some(reading("sleeping", "nrem", 1)),
        dream: Some(pairs(&[("id", "d1"), ("impression", "a garden")])),
        lucid_dream: None,
    };
    let (w, lines, action) = sleep_step(w, &t2);
    assert!(action == SleepAction::Continue);
    assert!(lines.is_empty());
    let mut wake = reading("attentive", "", 1);
    wake.summary = "rested".into();
    let t3 = SleepTick { elapsed_secs: 65, consciousness: Some(wake), dream: None, lucid_dream: None };
    let (_, lines, action) = sleep_step(w, &t3);
    assert!(action == SleepAction::Woke);
    assert_eq!(lines, vec!["[01:05]  waking attentive  ·  rested".to_string()]);
}

#[test]
fn sleep_watch_gives_up_when_sleep_never_begins() {
    let t = SleepTick { elapsed_secs: 6, consciousness: Some(reading("waking", "", 0)), dream: None, lucid_dream: None };
    let (_, lines, action) = sleep_step(SleepWatch::new(), &t);
    assert!(action == SleepAction::GiveUp);
    assert_eq!(lines, vec!["[00:06]  state=waking — never entered sleep, exiting".to_string()]);
}

#[test]
fn sleep_watch_times_out() {
    let t = SleepTick { elapsed_secs: 1801, consciousness: None, dream: None, lucid_dream: None };
    let (_, lines, action) = sleep_step(SleepWatch::new(), &t);
    assert!(action == SleepAction::GiveUp);
    assert_eq!(lines, vec!["[30:01]  TIMEOUT — 30 min without wake".to_string()]);
}

#[test]
fn sleep_watch_marks_lucid_stage() {
    let mut c = reading("sleeping", "rem", 2);
    c.lucid = "yes".into();
    let t = SleepTick { elapsed_secs: 3, consciousness: Some(c), dream: None, lucid_dream: Some(pairs(&[("id", "l1"), ("latest_narrative", "flying")])) };
    let (_, lines, _) = sleep_step(SleepWatch::new(), &t);
    assert_eq!(lines, vec!["[00:03]  lucid rem   cycle 2/4".to_string(), "[00:03]  lucid  ·  flying".to_string()]);
}

#[test]
fn sleep_opening_joins_a_sleeping_body() {
    assert_eq!(sleep_opening(Some("sleeping")), (false, "[00:00]  joining mid-sleep".to_string()));
    assert_eq!(sleep_opening(Some("attentive")), (true, "[00:00]  dispatching EnterSleep".to_string()));
    assert_eq!(sleep_opening(None), (true, "[00:00]  dispatching EnterSleep".to_string()));
}

#[test]
fn segments_match_first_and_wrap_midnight() {
    let segs = vec![(20u32, 4u32, "Body::Circadian.Night".to_string()), (5, 19, "Body::Circadian.Day".to_string()), (0, 23, "X::Y.Z".to_string())];
    assert_eq!(match_segment(&segs, 22), Some("Body::Circadian.Night"));
    assert_eq!(match_segment(&segs, 3), Some("Body::Circadian.Night"));
    assert_eq!(match_segment(&segs, 12), Some("Body::Circadian.Day"));
    assert_eq!(match_segment(&segs[..0], 12), None);
}

#[test]
fn clock_dispatches_only_on_segment_change() {
    let segs = vec![(6u32, 17u32, "B::C.Day".to_string()), (18, 5, "B::C.Night".to_string())];
    let first = clock_tick(&None, &segs, 7);
    assert_eq!(first.as_deref(), Some("B::C.Day"));
    assert_eq!(clock_tick(&first, &segs, 8), None);
    assert_eq!(clock_tick(&first, &segs, 19).as_deref(), Some("B::C.Night"));
}

#[test]
fn segment_specs_parse_or_explain() {
    assert_eq!(parse_segment("20-4:Body::Circadian.Night"), Ok((20, 4, "Body::Circadian.Night".to_string())));
    assert_eq!(parse_segment("nocolon"), Err("clock : bad --segment 'nocolon' (expected <lo>-<hi>:<Cmd>)".to_string()));
    assert_eq!(parse_segment("20:X::Y.Z"), Err("clock : bad hour-range '20' (expected <lo>-<hi>)".to_string()));
    assert_eq!(parse_segment("a-4:X::Y.Z"), Err("clock : bad lo hour 'a'".to_string()));
    assert_eq!(parse_segment("1-:X::Y.Z"), Err("clock : bad hi hour ''".to_string()));
    assert_eq!(parse_segment("1-24:X::Y.Z"), Err("clock : hours must be 0..=23 (got 1-24)".to_string()));
    assert!(parse_segment("1-2:Y.Z").unwrap_err().starts_with("clock : dispatch address 'Y.Z' is a short-form address."));
}

#[test]
fn fqn_gate_accepts_only_qualified_addresses() {
    assert_eq!(fqn_address_error("loop", "Tools::Tools.Bash"), None);
    let m = fqn_address_error("loop", "Tools.Bash").unwrap();
    assert!(m.starts_with("loop : dispatch address 'Tools.Bash' is a short-form address."));
    assert!(m.ends_with("'Discipline::Macrophage.Run'."));
}

#[test]
fn rotation_splits_trims_and_cycles() {
    assert_eq!(split_rotation(" A::B.In , ,A::B.Out,"), vec!["A::B.In".to_string(), "A::B.Out".to_string()]);
    assert_eq!(rotation_tick(0, true, 2), (Some(0), 1));
    assert_eq!(rotation_tick(3, true, 2), (Some(1), 4));
    assert_eq!(rotation_tick(3, false, 2), (None, 3));
    assert_eq!(rotation_tick(usize::MAX, true, 2), (Some(usize::MAX % 2), 0));
}

#[test]
fn gate_and_action_specs_parse() {
    assert_eq!(
        parse_gate("information/consciousness.heki:state=sleeping"),
        Some(("information/consciousness.heki".into(), "state".into(), "sleeping".into()))
    );
    assert_eq!(parse_gate("no-colon"), None);
    assert_eq!(parse_gate("a:b"), None);
    assert_eq!(parse_emit("BodyPulse:Pulse:pulse:x"), Ok(("BodyPulse".into(), "Pulse".into(), "pulse:x".into())));
    assert_eq!(parse_emit("A:B"), Err("run-loop : --emit needs Event:AggType:AggId, got 'A:B'".to_string()));
    let b = parse_bootstrap("Consciousness.state=attentive:WokenUp:Consciousness:consciousness").unwrap();
    assert_eq!(
        (b.aggregate.as_str(), b.field.as_str(), b.expected.as_str(), b.event.as_str(), b.emit_type.as_str(), b.emit_id.as_str()),
        ("Consciousness", "state", "attentive", "WokenUp", "Consciousness", "consciousness")
    );
    assert!(parse_bootstrap("a:b:c").is_err());
    assert_eq!(
        parse_bootstrap("Consciousness.state:E:T:I").err(),
        Some("run-loop : --bootstrap-if predicate must contain '=', got 'Consciousness.state'".to_string())
    );
    assert_eq!(
        parse_bootstrap("state=x:E:T:I").err(),
        Some("run-loop : --bootstrap-if predicate lhs must be <Aggregate>.<field>, got 'state'".to_string())
    );
}

fn millis(s: &str) -> Option<u128> {
    match parse_loop_duration(s) {
        Some(LoopSpan::Millis(m)) => Some(m),
        _ => None,
    }
}

#[test]
fn loop_periods_read_each_unit() {
    assert_eq!(millis("500ms"), Some(500));
    assert_eq!(millis("5h"), Some(18_000_000));
    assert_eq!(millis("2 m"), Some(120_000));
    assert_eq!(millis(" 3 "), Some(3000));
    assert!(parse_loop_duration("soon").is_none());
    assert!(parse_loop_duration("h").is_none());
}

#[test]
fn loop_seconds_are_left_as_text_for_a_float_reading() {
    match parse_loop_duration("1.5 s") {
        Some(LoopSpan::Seconds(t)) => assert_eq!(t, "1.5"),
        _ => panic!("expected seconds"),
    }
}

fn loop_argv(v: &[&str]) -> Vec<String> {
    v.iter().map(|s| s.to_string()).collect()
}

#[test]
fn run_loop_arguments_collect_actions_in_order() {
    let a = parse_loop_args(&loop_argv(&[
        "storehouse", "run-loop", "dir", "--every", "2s", "--emit", "Tick:Clock:c1", "--dispatch", "Ops::Clock.Tick",
        "--bootstrap-if", "Clock.state=idle:Boot:Clock:c1", "mode=fast", "--verbose", "x",
    ]))
    .ok()
    .unwrap();
    assert_eq!(a.every, "2s");
    assert_eq!(a.emits, vec![("Tick".to_string(), "Clock".to_string(), "c1".to_string())]);
    assert_eq!(a.dispatches, vec!["Ops::Clock.Tick".to_string()]);
    assert_eq!(a.bootstraps.len(), 1);
    assert_eq!(a.bootstraps[0].field, "state");
    assert_eq!(a.attrs, vec![("mode".to_string(), "fast".to_string())]);
}

#[test]
fn run_loop_defaults_to_a_body_pulse_each_second() {
    let a = parse_loop_args(&loop_argv(&["storehouse", "run-loop", "dir"])).ok().unwrap();
    assert_eq!(a.every, "1s");
    assert_eq!(a.emits, vec![("BodyPulse".to_string(), "Pulse".to_string(), "pulse".to_string())]);
    assert!(a.dispatches.is_empty());
}

#[test]
fn run_loop_refuses_bad_emits_and_short_addresses() {
    let e = parse_loop_args(&loop_argv(&["s", "run-loop", "dir", "--emit", "bad"])).err().unwrap();
    assert_eq!(e, "run-loop : --emit needs Event:AggType:AggId, got 'bad'");
    let d = parse_loop_args(&loop_argv(&["s", "run-loop", "dir", "--dispatch", "Clock.Tick"])).err().unwrap();
    assert!(d.starts_with("run-loop : dispatch address 'Clock.Tick' is a short-form address."));
}
