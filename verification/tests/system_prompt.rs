use storehouse_core::ir::Fixture;
use storehouse_core::run_boot::system_prompt::{assemble_fixtures, quoted_after, substitute, variables_for_being, Vars};

#[test]
fn substitute_replaces_known_keys() {
    let mut v = Vars::new();
    v.insert("being", "Miette".to_string());
    v.insert("born", "April 9, 2026".to_string());
    let out = substitute("# {{being}}\nBorn {{born}}.", &v);
    assert_eq!(out, "# Miette\nBorn April 9, 2026.");
}

#[test]
fn substitute_preserves_unknown_keys() {
    let v = Vars::new();
    let out = substitute("hello {{nope}} world", &v);
    assert!(out.contains("{{nope}}"), "unknown keys must round-trip");
}

#[test]
fn substitute_handles_no_placeholders() {
    let v = Vars::new();
    let out = substitute("plain text", &v);
    assert_eq!(out, "plain text");
}

#[test]
fn substitute_handles_malformed_close() {
    let v = Vars::new();
    let out = substitute("trailing {{open without close", &v);
    assert!(out.contains("{{open"), "malformed must not panic");
}

#[test]
fn variables_for_miette_round_trip() {
    let v = variables_for_being("Miette");
    assert_eq!(v.get("being").unwrap(), "Miette");
    assert_eq!(v.get("other").unwrap(), "Spring");
    assert_eq!(v.get("born").unwrap(), "April 9, 2026");
    assert_eq!(v.get("boot_script").unwrap(), "boot_miette.sh");
}

#[test]
fn variables_for_spring() {
    let v = variables_for_being("Spring");
    assert_eq!(v.get("being").unwrap(), "Spring");
    assert_eq!(v.get("other").unwrap(), "Miette");
}

#[test]
fn quoted_after_extracts_first_quoted_token() {
    assert_eq!(quoted_after("Hecks.bluebook \"Acl\", v: 1", "Hecks.bluebook \"").as_deref(), Some("Acl"));
    assert_eq!(quoted_after("no marker here", "vision \""), None);
}

#[test]
fn substitute_trims_keys_and_keeps_text_after_placeholders() {
    let mut v = Vars::new();
    v.insert("a", "1".to_string());
    v.insert("a", "2".to_string());
    assert_eq!(v.get("a").unwrap(), "2");
    assert_eq!(substitute("x{{ a }}y{{ b }}z", &v), "x2y{{ b }}z");
    assert_eq!(substitute("a {{ nope }} b", &Vars::new()), "a {{ nope }} b");
}

#[test]
fn unknown_being_gets_placeholder_identity() {
    let v = variables_for_being("Nobody");
    assert_eq!(v.get("born").unwrap(), "(unknown)");
    assert_eq!(v.get("boot_script").unwrap(), "boot.sh");
}

fn section(order: Option<&str>, markdown: &str) -> Fixture {
    let mut attributes = Vec::new();
    if let Some(o) = order {
        attributes.push(("order".to_string(), o.to_string()));
    }
    attributes.push(("markdown".to_string(), markdown.to_string()));
    Fixture { name: None, aggregate_name: "SystemPromptSection".to_string(), attributes }
}

#[test]
fn assembled_sections_order_numerically_and_join_with_blank_line() {
    let fixtures = vec![
        section(Some("10"), "## Tenth\nbody ten\n"),
        Fixture { name: None, aggregate_name: "Other".to_string(), attributes: vec![] },
        section(Some(" 2 "), "## Second\nbody two\n"),
    ];
    assert_eq!(assemble_fixtures(&fixtures), "## Second\nbody two\n\n## Tenth\nbody ten\n");
}

#[test]
fn sections_without_numeric_order_go_last_in_file_order() {
    let fixtures = vec![section(None, "c"), section(Some("x"), "d"), section(Some("-1"), "a"), section(Some("5"), "b")];
    assert_eq!(assemble_fixtures(&fixtures), "a\nb\nc\nd");
    assert_eq!(assemble_fixtures(&vec![]), "");
}
