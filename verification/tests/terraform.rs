use storehouse_core::projection::terraform::{format_value, project_hecksagon, resource_block, resource_type_for, Hecksagon, IoAdapter, World, WorldBlock};

#[test]
fn resource_block_alphabetises_props() {
    let props: Vec<(String, String)> = vec![
        ("versioning".into(), "enabled".into()),
        ("bucket".into(), "events-store-2026".into()),
    ];
    let hcl = resource_block("aws_s3_bucket", "events_store", &props);
    let bucket_pos = hcl.find("bucket").unwrap();
    let version_pos = hcl.find("versioning").unwrap();
    assert!(bucket_pos < version_pos);
}

#[test]
fn format_value_handles_booleans_integers_strings() {
    assert_eq!(format_value("true"), "true");
    assert_eq!(format_value("42"), "42");
    assert_eq!(format_value("hello"), "\"hello\"");
    assert_eq!(format_value("\"x\""), "\"x\"");
}

#[test]
fn empty_props_yields_empty_body_block() {
    let hcl = resource_block("aws_s3_bucket", "x", &[]);
    assert!(hcl.contains("resource \"aws_s3_bucket\" \"x\" {"));
    assert!(hcl.contains("}"));
}

#[test]
fn maps_known_aws_kinds() {
    assert_eq!(resource_type_for("s3"), Some("aws_s3_bucket"));
    assert_eq!(resource_type_for("sqs"), Some("aws_sqs_queue"));
    assert_eq!(resource_type_for("lambda"), Some("aws_lambda_function"));
    assert_eq!(resource_type_for("dynamodb"), Some("aws_dynamodb_table"));
    assert_eq!(resource_type_for("sns"), Some("aws_sns_topic"));
}

#[test]
fn skips_runtime_only_kinds() {
    for kind in &[
        "memory", "stdout", "stderr", "stdin", "env", "fs", "shell", "llm", "compute", "tts", "exec",
        "web_tool",
    ] {
        assert!(resource_type_for(kind).is_none(), "{} unexpectedly has a Terraform mapping", kind);
    }
}

#[test]
fn unknown_kinds_yield_none() {
    assert!(resource_type_for("definitely_not_a_real_adapter").is_none());
}

fn pairs(v: &[(&str, &str)]) -> Vec<(String, String)> {
    v.iter().map(|(k, x)| (k.to_string(), x.to_string())).collect()
}

#[test]
fn property_order_does_not_change_the_block() {
    let a = resource_block("aws_s3_bucket", "b", &pairs(&[("versioning", "enabled"), ("bucket", "x"), ("acl", "private")]));
    let b = resource_block("aws_s3_bucket", "b", &pairs(&[("acl", "private"), ("versioning", "enabled"), ("bucket", "x")]));
    assert_eq!(a, b);
    assert_eq!(
        a,
        "resource \"aws_s3_bucket\" \"b\" {\n  acl        = \"private\"\n  bucket     = \"x\"\n  versioning = \"enabled\"\n}\n"
    );
}

#[test]
fn projection_names_its_hecksagon_counts_blocks_and_lets_the_world_win() {
    let h = Hecksagon {
        name: "Shop".to_string(),
        io_adapters: vec![
            IoAdapter { kind: "s3".to_string(), options: pairs(&[("name", ":orders"), ("acl", "public")]) },
            IoAdapter { kind: "s3".to_string(), options: pairs(&[("acl", "private")]) },
            IoAdapter { kind: "nothing_known".to_string(), options: pairs(&[("name", "x")]) },
        ],
        persistence: None,
    };
    let w = World { blocks: vec![WorldBlock { name: "orders".to_string(), values: pairs(&[("acl", "private")]) }] };
    let r = project_hecksagon(&h, Some(&w));
    assert!(r.hcl.starts_with("# Generated from hecksagon \"Shop\" — storehouse project terraform\n\n"));
    assert_eq!(r.adapter_count, 1);
    assert!(r.hcl.contains("acl = \"private\""));
    assert!(!r.hcl.contains("public"));
}
