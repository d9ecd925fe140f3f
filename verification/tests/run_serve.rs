use storehouse_core::ir::{Aggregate, Domain, Query};
use storehouse_core::run_serve::{empty_command_reply, parse_request, route_request, split_fqn, RequestRoute};

#[test]
fn split_fqn_full_form() {
    let (ctx, agg, verb) = split_fqn("Sidequest::Sidequest.Open");
    assert_eq!(ctx.as_deref(), Some("Sidequest"));
    assert_eq!(agg, "Sidequest");
    assert_eq!(verb, "Open");
}

#[test]
fn split_fqn_short_aggregate_verb() {
    let (ctx, agg, verb) = split_fqn("Session.Begin");
    assert_eq!(ctx, None);
    assert_eq!(agg, "Session");
    assert_eq!(verb, "Begin");
}

#[test]
fn split_fqn_bare_verb() {
    let (ctx, agg, verb) = split_fqn("Begin");
    assert_eq!(ctx, None);
    assert_eq!(agg, "");
    assert_eq!(verb, "Begin");
}

#[test]
fn parse_request_command_and_pairs() {
    let (cmd, pairs) = parse_request("Inbox::Inbox.Add ref=i9 priority=low");
    assert_eq!(cmd, "Inbox::Inbox.Add");
    assert_eq!(
        pairs,
        vec![("ref".to_string(), "i9".to_string()), ("priority".to_string(), "low".to_string()),]
    );
}

#[test]
fn parse_request_value_with_equals() {
    let (_cmd, pairs) = parse_request("X.Y expr=a=b");
    assert_eq!(pairs, vec![("expr".to_string(), "a=b".to_string())]);
}

#[test]
fn parse_request_empty() {
    let (cmd, pairs) = parse_request("   ");
    assert_eq!(cmd, "");
    assert!(pairs.is_empty());
}

#[test]
fn parse_request_skips_tokens_without_equals() {
    let (cmd, pairs) = parse_request("  A.B  loose  k=  =v \t x=1 ");
    assert_eq!(cmd, "A.B");
    assert_eq!(
        pairs,
        vec![
            ("k".to_string(), "".to_string()),
            ("".to_string(), "v".to_string()),
            ("x".to_string(), "1".to_string()),
        ]
    );
}

#[test]
fn split_fqn_context_only_splits_at_first_double_colon() {
    let (ctx, agg, verb) = split_fqn("A::B::C.D.E");
    assert_eq!(ctx.as_deref(), Some("A"));
    assert_eq!(agg, "B::C.D");
    assert_eq!(verb, "E");
}

fn shop() -> Domain {
    let q = Query {
        name: "by_status".into(),
        description: None,
        attributes: vec![],
        wheres: vec![],
        order_by: None,
        limit: None,
        reduction: None,
        group_by: None,
        scope_to: None,
    };
    let pizza = Aggregate {
        name: "Pizza".into(),
        description: None,
        context: None,
        category: None,
        attributes: vec![],
        commands: vec![],
        queries: vec![q],
        value_objects: vec![],
        entities: vec![],
        references: vec![],
        lifecycle: None,
        identified_by: None,
        invariants: vec![],
        views: vec![],
    };
    Domain {
        name: "Shop".into(),
        category: None,
        vision: None,
        aggregates: vec![pizza],
        policies: vec![],
        fixtures: vec![],
        entrypoint: None,
        sections: vec![],
        process_managers: vec![],
        cadences: vec![],
        block_grammars: vec![],
    }
}

#[test]
fn requests_route_to_queries_commands_or_refusal() {
    let d = shop();
    match route_request(&d, "Shop::Pizza.by_status status=open") {
        RequestRoute::Query { context, aggregate, verb, attrs } => {
            assert_eq!(context, Some("Shop".to_string()));
            assert_eq!(aggregate, "Pizza");
            assert_eq!(verb, "by_status");
            assert_eq!(attrs, vec![("status".to_string(), "open".to_string())]);
        }
        _ => panic!("expected a query"),
    }
    match route_request(&d, "Shop::Pizza.Bake size=2") {
        RequestRoute::Command { command, attrs } => {
            assert_eq!(command, "Shop::Pizza.Bake");
            assert_eq!(attrs, vec![("size".to_string(), "2".to_string())]);
        }
        _ => panic!("expected a command"),
    }
    assert!(matches!(route_request(&d, "   "), RequestRoute::Empty));
    assert_eq!(empty_command_reply(), "\u{1e}ERROR {\"error\":\"empty command\",\"ok\":false}");
}
