use storehouse_core::projection::procfile::{render as render_procfile, Record};
use storehouse_core::projection::wrangler::render as render_wrangler;

fn rec(fields: &[(&str, &str)]) -> Record {
    Record { fields: fields.iter().map(|(k, v)| (k.to_string(), v.to_string())).collect() }
}

#[test]
fn procfile_orders_members_and_lists_one_shots() {
    let stream = rec(&[("directory", "{ path: \"/c\" }"), ("corpus_roots", "/a,/b")]);
    let members = vec![
        rec(&[("order", "10"), ("name", "heart"), ("command", "{ line: \"storehouse loop heart\" }"), ("lifespan", "{ kind: \"daemon\" }")]),
        rec(&[("order", "2"), ("name", "boot"), ("command", "storehouse boot"), ("lifespan", "{ kind: \"one_shot\" }")]),
        rec(&[("name", "late"), ("command", "x"), ("lifespan", "{ kind: \"one_shot\" }")]),
    ];
    let a = render_procfile(&vec![stream], &members).unwrap();
    assert!(a.procfile.ends_with("boot: storehouse boot\nheart: storehouse loop heart\nlate: x\n"));
    assert!(a.procfile.starts_with("# Generated artifact"));
    assert!(a.env.contains("\n\nOVERMIND_CAN_DIE=boot,late\nHECKS_DAEMON=1\nHECKS_EVENT_SOURCING=1\nHECKS_CONCEPTION_DIR=/c\nHECKS_ADDITIONAL_CORPUS_ROOTS=/a,/b\n"));
}

#[test]
fn procfile_needs_a_stream_and_members() {
    assert!(render_procfile(&vec![], &vec![rec(&[("name", "x")])]).is_none());
    assert!(render_procfile(&vec![rec(&[])], &vec![]).is_none());
    let a = render_procfile(&vec![rec(&[("corpus_roots", "{ value: \"\" }")])], &vec![rec(&[("name", "x")])]).unwrap();
    assert!(a.env.ends_with("OVERMIND_CAN_DIE=\nHECKS_DAEMON=1\nHECKS_EVENT_SOURCING=1\nHECKS_CONCEPTION_DIR=\n"));
}

#[test]
fn wrangler_renders_optional_sections() {
    let full = rec(&[
        ("name", "daily"),
        ("main_entrypoint", "build/worker.js"),
        ("compatibility_date", "2026-01-01"),
        ("r2_binding", "HEKI"),
        ("r2_bucket", "heki-store"),
        ("build_command", "make"),
        ("observability", "enabled"),
    ]);
    let t = render_wrangler(&vec![full]).unwrap();
    assert!(t.contains("name               = \"daily\"\nmain               = \"build/worker.js\"\ncompatibility_date = \"2026-01-01\"\n"));
    assert!(t.contains("[[r2_buckets]]\nbinding     = \"HEKI\"\nbucket_name = \"heki-store\"\n"));
    assert!(t.contains("\n[build]\ncommand = \"make\"\n"));
    assert!(t.ends_with("\n[observability]\nenabled = true\n"));
    let bare = render_wrangler(&vec![rec(&[("name", "n"), ("r2_binding", "B")])]).unwrap();
    assert!(!bare.contains("r2_buckets"));
    assert!(!bare.contains("[build]"));
    assert!(bare.ends_with("enabled = false\n"));
    assert!(render_wrangler(&vec![]).is_none());
}
