use storehouse_core::ir::{Aggregate, Command, Domain, Policy};
use storehouse_core::projection::terraform::{Hecksagon, IoAdapter};
use storehouse_core::run::{is_stdin_loop_capability, script_attrs, script_entrypoint, ExitKind};
use storehouse_core::run_boot::classify::{classify_name, classify_stems, Classification};
use storehouse_core::run_boot::complete::merge_boot_into_corpus;
use storehouse_core::run_persistence_map::render::{render_json, render_table};
use storehouse_core::run_persistence_map::{build_rows, find_orphans, Row};

fn command(name: &str) -> Command {
    Command {
        name: name.into(),
        description: None,
        role: None,
        attributes: vec![],
        references: vec![],
        emits: None,
        emits_identified_by: None,
        givens: vec![],
        mutations: vec![],
        redirects_native: vec![],
    }
}

fn agg(name: &str, context: Option<&str>, commands: Vec<Command>) -> Aggregate {
    Aggregate {
        name: name.into(),
        description: None,
        context: context.map(|c| c.to_string()),
        category: None,
        attributes: vec![],
        commands,
        queries: vec![],
        value_objects: vec![],
        entities: vec![],
        references: vec![],
        lifecycle: None,
        identified_by: None,
        invariants: vec![],
        views: vec![],
    }
}

fn domain(name: &str, aggregates: Vec<Aggregate>) -> Domain {
    Domain {
        name: name.into(),
        category: None,
        vision: None,
        aggregates,
        policies: vec![],
        fixtures: vec![],
        entrypoint: None,
        sections: vec![],
        process_managers: vec![],
        cadences: vec![],
        block_grammars: vec![],
    }
}

fn hex(name: &str, kinds: &[&str], persistence: Option<&str>) -> Hecksagon {
    Hecksagon {
        name: name.into(),
        io_adapters: kinds.iter().map(|k| IoAdapter { kind: k.to_string(), options: vec![] }).collect(),
        persistence: persistence.map(|p| p.to_string()),
    }
}

#[test]
fn exit_codes_follow_the_documented_table() {
    assert_eq!(ExitKind::Success.code(), 0);
    assert_eq!(ExitKind::ParseFailure.code(), 1);
    assert_eq!(ExitKind::GuardFailure.code(), 2);
    assert_eq!(ExitKind::AdapterFailure.code(), 3);
    assert_eq!(ExitKind::CommandNotFound.code(), 4);
}

#[test]
fn stdin_loop_needs_both_ends_and_both_commands() {
    let d = domain("T", vec![agg("Session", None, vec![command("ReadLine")]), agg("Reply", None, vec![command("RespondWith")])]);
    assert!(is_stdin_loop_capability(&hex("T", &["stdin", "stdout"], None), &d));
    assert!(!is_stdin_loop_capability(&hex("T", &["stdin"], None), &d));
    let d2 = domain("T", vec![agg("Session", None, vec![command("ReadLine")])]);
    assert!(!is_stdin_loop_capability(&hex("T", &["stdout", "stdin"], None), &d2));
}

#[test]
fn store_names_classify_against_the_boundary_lists() {
    assert_eq!(classify_name("item"), "retired");
    assert_eq!(classify_name("mood"), "private");
    assert_eq!(classify_name("heartbeat"), "linked");
    assert_eq!(classify_name("HarmonyDomain"), "linked");
    assert_eq!(classify_name("brand_new"), "unknown");
}

#[test]
fn stems_sort_into_boundaries() {
    let stems: Vec<String> = ["tick", ".hidden", "mood", "zeta", "item", "arc", "alpha", "feeling"].iter().map(|s| s.to_string()).collect();
    let c: Classification = classify_stems(&stems);
    assert_eq!(c.linked, vec!["arc".to_string(), "tick".to_string()]);
    assert_eq!(c.private_, vec!["feeling".to_string(), "mood".to_string()]);
    assert_eq!(c.unclassified, vec!["alpha".to_string(), "zeta".to_string()]);
    let d = Classification::default();
    assert!(d.linked.is_empty() && d.private_.is_empty() && d.unclassified.is_empty());
}

#[test]
fn boot_merge_keeps_corpus_aggregates_and_appends_policies() {
    let mut corpus = domain("Corpus", vec![agg("Heart", Some("Body"), vec![command("Beat")])]);
    corpus.policies.push(Policy {
        name: "A".into(),
        on_event: "E".into(),
        trigger_command: "C".into(),
        target_domain: None,
        with: vec![],
        wheres: vec![],
        for_each: None,
        extra_dispatches: vec![],
    });
    let boot = domain(
        "Boot",
        vec![agg("Heart", Some("Body"), vec![]), agg("BootRun", None, vec![command("CompleteBoot")]), agg("BootRun", None, vec![])],
    );
    let merged = merge_boot_into_corpus(corpus, boot);
    assert_eq!(merged.name, "Corpus");
    let names: Vec<&str> = merged.aggregates.iter().map(|a| a.name.as_str()).collect();
    assert_eq!(names, vec!["Heart", "BootRun"]);
    assert_eq!(merged.aggregates[0].commands.len(), 1);
    assert_eq!(merged.aggregates[1].commands.len(), 1);
    assert_eq!(merged.policies.len(), 1);
}

fn live(v: &[(&str, bool)]) -> Vec<(String, bool)> {
    v.iter().map(|(s, b)| (s.to_string(), *b)).collect()
}

#[test]
fn rows_resolve_declared_unwired_and_conflicting_contexts() {
    let d = domain(
        "D",
        vec![agg("Inbox", Some("Inbox"), vec![]), agg("Heart", Some("Body"), vec![]), agg("Loose", None, vec![]), agg("Note", Some("Tools"), vec![])],
    );
    let hs = vec![hex("Body", &[], Some("heki")), hex("Inbox", &[], Some("heki")), hex("Inbox", &[], Some("memory")), hex("Body", &[], Some("heki"))];
    let rows = build_rows(&d, &hs, &live(&[("heart", false), ("loose", true)]));
    assert_eq!(
        rows,
        vec![
            Row { fqn: "Body::Heart".into(), declared: Some("heki".into()), source: "declared :heki".into(), live_store: true },
            Row { fqn: "Inbox::Inbox".into(), declared: Some(":heki|:memory".into()), source: "CONFLICT :heki vs :memory".into(), live_store: false },
            Row { fqn: "Loose".into(), declared: None, source: "unwired → default".into(), live_store: false },
            Row { fqn: "Tools::Note".into(), declared: None, source: "unwired → default".into(), live_store: false },
        ]
    );
}

#[test]
fn orphans_are_unclaimed_live_stores_sorted() {
    let d = domain("D", vec![agg("Attention", None, vec![]), agg("WorkingMemory", None, vec![])]);
    let o = find_orphans(&d, &live(&[("working_memory", false), ("Attention", false), ("mood", false), ("walker", true), ("item", false)]));
    assert_eq!(o, vec!["item".to_string(), "mood".to_string(), "process_managers/walker".to_string()]);
}

#[test]
fn json_form_escapes_and_nulls() {
    let rows = vec![
        Row { fqn: "A::\"B\"".into(), declared: None, source: "unwired → default".into(), live_store: false },
        Row { fqn: "C".into(), declared: Some("heki".into()), source: "declared :heki".into(), live_store: true },
    ];
    let j = render_json(&rows, &vec!["x\\y".to_string()]);
    assert_eq!(
        j,
        "{\"aggregates\":[{\"fqn\":\"A::\\\"B\\\"\",\"declared\":null,\"source\":\"unwired → default\",\"live_store\":false},{\"fqn\":\"C\",\"declared\":\"heki\",\"source\":\"declared :heki\",\"live_store\":true}],\"orphans\":[\"x\\\\y\"]}"
    );
    assert_eq!(render_json(&vec![], &vec![]), "{\"aggregates\":[],\"orphans\":[]}");
}

#[test]
fn table_summarises_rows_and_groups_orphans() {
    let rows = vec![
        Row { fqn: "Body::Heart".into(), declared: Some("heki".into()), source: "declared :heki".into(), live_store: true },
        Row { fqn: "X".into(), declared: None, source: "unwired → default".into(), live_store: false },
    ];
    let orphans = vec!["mood".to_string(), "process_managers/w".to_string(), "zzz".to_string()];
    let t = render_table(&rows, &orphans, "/info");
    let expected = "persistence-map — 2 aggregates\ninfo_dir: /info\n\nsummary by source:\n     1  declared :heki\n     1  unwired → default\n     1  (of which have a live store)\n\nFQN          SOURCE                live\n---------------------------------------\nBody::Heart  declared :heki        ●\nX            unwired → default     \n\norphan stores (3 — live under information/, no aggregate ; 1 genuinely UNACCOUNTED):\n  [pm-instance] (1):\n    process_managers/w\n  [private] (1):\n    mood\n  [unknown] (1):\n    zzz\n\nnote: :memory is INERT until apply_memory_persistence lands (Phase B step 0) —\nevery unwired AND every declared-:memory aggregate resolves to heki TODAY.\n";
    assert_eq!(t, expected);
    let empty = render_table(&vec![], &vec![], "d");
    assert!(empty.contains("FQN  SOURCE"));
    assert!(empty.contains("(0 — live under information/, no aggregate ; 0 genuinely UNACCOUNTED):\n  (none)\n"));
}

fn strs(v: &[&str]) -> Vec<String> {
    v.iter().map(|s| s.to_string()).collect()
}

#[test]
fn a_script_runs_the_argument_entrypoint_then_its_own_else_refuses() {
    let mut d = domain("Tool", vec![]);
    assert_eq!(script_entrypoint(&d, &strs(&["a=1"])), Err(ExitKind::GuardFailure));
    d.entrypoint = Some("Tool.Run".to_string());
    assert_eq!(script_entrypoint(&d, &strs(&["a=1"])), Ok("Tool.Run".to_string()));
    assert_eq!(
        script_entrypoint(&d, &strs(&["a=1", "entrypoint=Layout.Plan", "entrypoint=X.Y"])),
        Ok("Layout.Plan".to_string())
    );
    let unnamed = domain("", vec![]);
    assert_eq!(script_entrypoint(&unnamed, &strs(&["entrypoint=A.B"])), Err(ExitKind::ParseFailure));
}

#[test]
fn script_attributes_are_the_key_value_arguments() {
    assert_eq!(
        script_attrs(&strs(&["name=x=y", "loose", "n=2"])),
        vec![("name".to_string(), "x=y".to_string()), ("n".to_string(), "2".to_string())]
    );
}
