use storehouse_core::ir::{Aggregate, Cardinality, Domain, Reference, ReferenceKind};
use storehouse_core::run_integrity::{check, AggregateRecords, Dangling, Stored, StoredRecord};

fn reference(name: &str, target: &str, kind: ReferenceKind) -> Reference {
    Reference { name: name.into(), target: target.into(), domain: None, cardinality: Cardinality::Single, kind }
}

fn agg(name: &str, references: Vec<Reference>) -> Aggregate {
    Aggregate {
        name: name.into(),
        description: None,
        context: None,
        category: None,
        attributes: vec![],
        commands: vec![],
        queries: vec![],
        value_objects: vec![],
        entities: vec![],
        references,
        lifecycle: None,
        identified_by: None,
        invariants: vec![],
        views: vec![],
    }
}

fn domain(aggregates: Vec<Aggregate>) -> Domain {
    Domain {
        name: "Plan".into(),
        category: None,
        vision: None,
        aggregates,
        policies: vec![],
        fixtures: vec![],
        entrypoint: None,
        sections: vec![],
        process_managers: vec![],
        cadences: vec![],
        block_grammars: vec![],
    }
}

fn rec(id: &str, fields: Vec<(&str, Stored)>) -> StoredRecord {
    StoredRecord { id: id.into(), fields: fields.into_iter().map(|(k, v)| (k.to_string(), v)).collect() }
}

fn dangling(aggregate: &str, record_id: &str, field: &str, target: &str, value: &str) -> Dangling {
    Dangling { aggregate: aggregate.into(), record_id: record_id.into(), field: field.into(), target: target.into(), value: value.into() }
}

#[test]
fn foreign_keys_without_a_target_record_are_dangling() {
    let d = domain(vec![
        agg(
            "Story",
            vec![
                reference("Sprint", "Sprint", ReferenceKind::BelongsTo),
                reference("Task", "Task", ReferenceKind::HasMany),
                reference("Story", "Story", ReferenceKind::LegacyReferenceTo),
            ],
        ),
        agg("Sprint", vec![]),
    ]);
    let stores = vec![
        AggregateRecords {
            aggregate: "Story".into(),
            records: vec![
                rec("s1", vec![("sprint", Stored::Str("sp1".into()))]),
                rec("s2", vec![("sprint", Stored::Str("sp9".into())), ("task", Stored::Str("nope".into()))]),
                rec("s3", vec![("sprint", Stored::Str("".into()))]),
                rec("s4", vec![("sprint", Stored::Int(7))]),
                rec("s5", vec![("sprint", Stored::Other), ("story", Stored::Str("gone".into()))]),
            ],
        },
        AggregateRecords { aggregate: "Sprint".into(), records: vec![rec("sp1", vec![])] },
    ];
    assert_eq!(
        check(&d, &stores),
        vec![dangling("Story", "s2", "sprint", "Sprint", "sp9"), dangling("Story", "s4", "sprint", "Sprint", "7")]
    );
}

#[test]
fn a_missing_target_store_leaves_every_key_dangling() {
    let d = domain(vec![agg("Story", vec![reference("Sprint", "Sprint", ReferenceKind::HasOne)])]);
    let stores = vec![AggregateRecords { aggregate: "Story".into(), records: vec![rec("s1", vec![("sprint", Stored::Int(-2))])] }];
    assert_eq!(check(&d, &stores), vec![dangling("Story", "s1", "sprint", "Sprint", "-2")]);
}
