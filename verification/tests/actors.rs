use storehouse_core::run_actors::parse_flags;

fn strings(v: &[&str]) -> Vec<String> {
    v.iter().map(|s| s.to_string()).collect()
}

#[test]
fn actor_flags_split_switches_from_positionals() {
    let (pos, json, fixture) = parse_flags(&strings(&["Sprint", "--json", "idle", "--fixture"]));
    assert_eq!(pos, strings(&["Sprint", "idle"]));
    assert!(json && fixture);
    let (pos, json, fixture) = parse_flags(&strings(&["Sprint"]));
    assert_eq!(pos, strings(&["Sprint"]));
    assert!(!json && !fixture);
}
