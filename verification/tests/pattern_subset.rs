use storehouse_core::pattern::validate_pattern_subset;

fn rejected(p: &str) -> &'static str {
    validate_pattern_subset(p).expect_err("should be refused").construct
}

#[test]
fn the_shapes_a_domain_actually_needs_are_admitted() {
    // Every one of these means the same thing in Ruby and Rust.
    for p in [
        r"^[A-Z]{3}-\d{4}$",                    // SKU
        r"^\d{5}(-\d{4})?$",                    // US postal
        r"^\+?[0-9 ()-]{7,20}$",                // phone
        r"^[^@\s]+@[^@\s]+\.[^@\s]+$",          // email
        r"^(red|green|blue)$",                  // alternation
        r"^[a-f0-9]{8}(-[a-f0-9]{4}){3}-[a-f0-9]{12}$", // uuid
        r"",                                    // empty is permissive, not invalid
    ] {
        assert!(
            validate_pattern_subset(p).is_ok(),
            "must admit the common case: {}",
            p
        );
    }
}

#[test]
fn constructs_that_would_diverge_are_refused() {
    assert_eq!(rejected(r"^(?=.*[A-Z]).+$"), "lookahead");
    assert_eq!(rejected(r"^(?!foo).+$"), "lookahead");
    assert_eq!(rejected(r"(?<=a)b"), "lookbehind");
    assert_eq!(rejected(r"(?<!a)b"), "lookbehind");
    assert_eq!(rejected(r"(a)\1"), "backreference");
    assert_eq!(rejected(r"(?<x>a)\k<x>"), "named backreference");
    assert_eq!(rejected(r"(?>ab)"), "atomic group");
    assert_eq!(rejected(r"a*+"), "possessive quantifier");
}

#[test]
fn an_escaped_construct_is_a_literal_not_a_violation() {
    // `\(` is a literal paren — refusing it would reject a legitimate
    // pattern for text that CONTAINS "(?=".
    assert!(validate_pattern_subset(r"\(\?=").is_ok());
    // A named GROUP is fine ; only a named BACKreference is not.
    assert!(validate_pattern_subset(r"(?<year>\d{4})").is_ok());
    // `\0` is a null escape, not a backreference.
    assert!(validate_pattern_subset(r"\0").is_ok());
}

#[test]
fn the_rejection_names_the_construct_and_says_why() {
    let err = validate_pattern_subset(r"^(?=x)").unwrap_err();
    assert_eq!(err.construct, "lookahead");
    assert!(
        err.reason.contains("Ruby") && err.reason.contains("linear"),
        "the message must explain the DIVERGENCE, not just say invalid: {}",
        err.reason
    );
}
