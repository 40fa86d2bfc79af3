use resource_codegen::parse_descriptor::{entry_value_exec, key_values_exec, last_value_exec};
use resource_codegen::text::{chars_of, split_chars};
use resource_codegen::{BuildError, ResourceParser, ResourcePatternComponent};

fn strings(values: &[&str]) -> Vec<String> {
    values.iter().map(|v| v.to_string()).collect()
}

#[test]
fn quoted_value_in_double_quotes() {
    let parser = ResourceParser::new();
    assert_eq!(
        parser.extract_quoted_value("type: \"pubsub.example.com/Topic\"", "type:"),
        Some("pubsub.example.com/Topic".to_string())
    );
}

#[test]
fn quoted_value_in_single_quotes() {
    let parser = ResourceParser::new();
    assert_eq!(
        parser.extract_quoted_value("pattern:'projects/{project}'", "pattern:"),
        Some("projects/{project}".to_string())
    );
}

#[test]
fn unquoted_value_is_trimmed() {
    let parser = ResourceParser::new();
    assert_eq!(
        parser.extract_quoted_value("singular:   topic \t", "singular:"),
        Some("topic".to_string())
    );
}

#[test]
fn value_of_another_key_is_none() {
    let parser = ResourceParser::new();
    assert_eq!(parser.extract_quoted_value("child_type: \"x\"", "type:"), None);
    assert_eq!(parser.extract_quoted_value(" type: \"x\"", "type:"), None);
}

#[test]
fn quotes_that_do_not_pair_stay() {
    let parser = ResourceParser::new();
    assert_eq!(parser.extract_quoted_value("type: \"x'", "type:"), Some("\"x'".to_string()));
    assert_eq!(parser.extract_quoted_value("type: \"", "type:"), Some("\"".to_string()));
    assert_eq!(parser.extract_quoted_value("type: \"\"", "type:"), Some("".to_string()));
    assert_eq!(parser.extract_quoted_value("type:", "type:"), Some("".to_string()));
}

#[test]
fn only_the_outer_quotes_are_removed() {
    let parser = ResourceParser::new();
    assert_eq!(
        parser.extract_quoted_value("type: \" a \"", "type:"),
        Some(" a ".to_string())
    );
    assert_eq!(
        parser.extract_quoted_value("type: \"\"a\"\"", "type:"),
        Some("\"a\"".to_string())
    );
}

#[test]
fn entry_value_on_characters() {
    let line = chars_of("history: ORIGINALLY_SINGLE_PATTERN");
    let key = chars_of("history:");
    assert_eq!(
        entry_value_exec(&line, &key),
        Some("ORIGINALLY_SINGLE_PATTERN".to_string())
    );
}

#[test]
fn key_values_keep_the_order_of_the_lines() {
    let text = chars_of("pattern: \"a/{a}\"\n  type: \"t\"\r\n\n\tpattern: 'b/{b}'\nother: 1\npattern:c");
    let lines = split_chars(&text, '\n');
    assert_eq!(key_values_exec(&lines, "pattern:"), strings(&["a/{a}", "b/{b}", "c"]));
    assert_eq!(key_values_exec(&lines, "type:"), strings(&["t"]));
    assert_eq!(key_values_exec(&lines, "plural:"), strings(&[]));
}

#[test]
fn last_value_is_the_one_that_counts() {
    assert_eq!(last_value_exec(&strings(&["a", "b"])), Some("b".to_string()));
    assert_eq!(last_value_exec(&strings(&[])), None);
}

#[test]
fn resource_descriptor_is_decoded() {
    let parser = ResourceParser::new();
    let payload = "type: \"pubsub.example.com/Topic\"\npattern: \"projects/{project}/topics/{topic}\"\npattern: \"topics/{topic}\"\nsingular: \"topic\"\nplural: \"topics\"\nhistory: ORIGINALLY_SINGLE_PATTERN\nname_field: \"name\"";
    let resource = parser
        .parse_resource_descriptor_from_aggregate(payload, "pubsub.proto", "Topic")
        .unwrap()
        .unwrap();
    assert_eq!(resource.resource_type, "pubsub.example.com/Topic");
    assert_eq!(resource.patterns.len(), 2);
    assert_eq!(resource.patterns[0].pattern, "projects/{project}/topics/{topic}");
    assert_eq!(resource.patterns[0].variables(), vec!["project", "topic"]);
    assert_eq!(resource.patterns[1].pattern, "topics/{topic}");
    assert_eq!(
        resource.patterns[1].components,
        vec![
            ResourcePatternComponent::Literal("topics/".to_string()),
            ResourcePatternComponent::Variable("topic".to_string()),
        ]
    );
    assert_eq!(resource.singular, Some("topic".to_string()));
    assert_eq!(resource.plural, Some("topics".to_string()));
    assert_eq!(resource.history, strings(&["ORIGINALLY_SINGLE_PATTERN"]));
    assert_eq!(resource.source_file, "pubsub.proto");
    assert_eq!(resource.message_name, "Topic");
}

#[test]
fn a_later_type_overrides_an_earlier_one() {
    let parser = ResourceParser::new();
    let resource = parser
        .parse_resource_descriptor_from_aggregate(
            "type: \"a/A\"\npattern: \"as/{a}\"\ntype: \"b/B\"\nsingular: x\nsingular: y",
            "f.proto",
            "M",
        )
        .unwrap()
        .unwrap();
    assert_eq!(resource.resource_type, "b/B");
    assert_eq!(resource.singular, Some("y".to_string()));
    assert_eq!(resource.plural, None);
}

#[test]
fn missing_type_is_an_error() {
    let parser = ResourceParser::new();
    let err = parser
        .parse_resource_descriptor_from_aggregate("pattern: \"as/{a}\"", "f.proto", "pkg.M")
        .unwrap_err();
    assert_eq!(
        err,
        BuildError::MissingRequiredField {
            field: "type".to_string(),
            message_name: "pkg.M".to_string(),
        }
    );
    assert_eq!(
        err.message(),
        "Resource annotation missing required 'type' field in message 'pkg.M'"
    );
}

#[test]
fn missing_pattern_is_an_error() {
    let parser = ResourceParser::new();
    let err = parser
        .parse_resource_descriptor_from_aggregate("type: \"a/A\"", "f.proto", "M")
        .unwrap_err();
    assert_eq!(err, BuildError::NoPatternDeclared { message_name: "M".to_string() });
    assert_eq!(
        err.message(),
        "Resource annotation missing required 'pattern' field in message 'M'"
    );
}

#[test]
fn missing_type_comes_before_missing_pattern() {
    let parser = ResourceParser::new();
    let err = parser
        .parse_resource_descriptor_from_aggregate("", "f.proto", "M")
        .unwrap_err();
    assert_eq!(
        err,
        BuildError::MissingRequiredField { field: "type".to_string(), message_name: "M".to_string() }
    );
}

#[test]
fn reference_with_a_type() {
    let parser = ResourceParser::new();
    let reference = parser
        .parse_resource_reference_from_aggregate("type: \"a/A\"", "name", "GetA", "f.proto")
        .unwrap()
        .unwrap();
    assert_eq!(reference.resource_type, Some("a/A".to_string()));
    assert_eq!(reference.child_type, None);
    assert_eq!(reference.field_name, "name");
    assert_eq!(reference.containing_message, "GetA");
    assert_eq!(reference.source_file, "f.proto");
}

#[test]
fn reference_with_a_child_type() {
    let parser = ResourceParser::new();
    let reference = parser
        .parse_resource_reference_from_aggregate(
            "  child_type: 'a/A'  ",
            "parent",
            "ListA",
            "f.proto",
        )
        .unwrap()
        .unwrap();
    assert_eq!(reference.resource_type, None);
    assert_eq!(reference.child_type, Some("a/A".to_string()));
}

#[test]
fn reference_without_a_type_is_no_reference() {
    let parser = ResourceParser::new();
    let reference = parser
        .parse_resource_reference_from_aggregate("something: else", "name", "GetA", "f.proto")
        .unwrap();
    assert!(reference.is_none());
}

#[test]
fn an_empty_type_is_a_missing_type() {
    let parser = ResourceParser::new();
    for payload in [
        "type: ''\npattern: \"as/{a}\"",
        "type: \"\"\npattern: \"as/{a}\"",
        "type:\npattern: \"as/{a}\"",
        "type: \"a/A\"\npattern: \"as/{a}\"\ntype:   ",
    ] {
        let err = parser
            .parse_resource_descriptor_from_aggregate(payload, "f.proto", "M")
            .unwrap_err();
        assert_eq!(
            err,
            BuildError::MissingRequiredField {
                field: "type".to_string(),
                message_name: "M".to_string(),
            },
            "payload {payload:?}"
        );
    }
}

#[test]
fn an_empty_type_comes_before_a_missing_pattern() {
    let parser = ResourceParser::new();
    let err = parser
        .parse_resource_descriptor_from_aggregate("type: ''", "f.proto", "M")
        .unwrap_err();
    assert_eq!(
        err,
        BuildError::MissingRequiredField { field: "type".to_string(), message_name: "M".to_string() }
    );
}

#[test]
fn a_pattern_without_variable_is_refused() {
    let parser = ResourceParser::new();
    let err = parser
        .parse_resource_descriptor_from_aggregate(
            "type: \"a/A\"\npattern: \"as/{a}\"\npattern: \"settings/{1}\"",
            "f.proto",
            "M",
        )
        .unwrap_err();
    assert_eq!(
        err,
        BuildError::PatternWithoutVariable {
            resource_type: "a/A".to_string(),
            pattern: "settings/{1}".to_string(),
        }
    );
    assert_eq!(err.message(), "Pattern 'settings/{1}' of resource type 'a/A' has no variable");
    let err = parser
        .parse_resource_descriptor_from_aggregate("type: \"a/A\"\npattern: \"\"", "f.proto", "M")
        .unwrap_err();
    assert_eq!(
        err,
        BuildError::PatternWithoutVariable {
            resource_type: "a/A".to_string(),
            pattern: "".to_string(),
        }
    );
}

#[test]
fn a_variable_named_twice_is_refused() {
    let parser = ResourceParser::new();
    let err = parser
        .parse_resource_descriptor_from_aggregate(
            "type: \"a/A\"\npattern: \"as/{a}/bs/{b}/cs/{a}/ds/{b}\"",
            "f.proto",
            "M",
        )
        .unwrap_err();
    assert_eq!(
        err,
        BuildError::RepeatedVariable {
            resource_type: "a/A".to_string(),
            pattern: "as/{a}/bs/{b}/cs/{a}/ds/{b}".to_string(),
            variable: "a".to_string(),
        }
    );
    assert_eq!(
        err.message(),
        "Pattern 'as/{a}/bs/{b}/cs/{a}/ds/{b}' of resource type 'a/A' names variable 'a' twice"
    );
}

#[test]
fn the_first_pattern_in_error_is_reported() {
    let parser = ResourceParser::new();
    let err = parser
        .parse_resource_descriptor_from_aggregate(
            "type: \"a/A\"\npattern: \"as/{a}/{a}\"\npattern: \"plain\"",
            "f.proto",
            "M",
        )
        .unwrap_err();
    assert!(matches!(err, BuildError::RepeatedVariable { .. }));
}

#[test]
fn a_pattern_that_comes_twice_is_refused() {
    let parser = ResourceParser::new();
    let err = parser
        .parse_resource_descriptor_from_aggregate(
            "type: \"a/A\"\npattern: \"as/{a}\"\npattern: \"bs/{b}\"\npattern: 'as/{a}'",
            "f.proto",
            "M",
        )
        .unwrap_err();
    assert_eq!(
        err,
        BuildError::AmbiguousPatternPrefix {
            resource_type: "a/A".to_string(),
            branch_id: "As".to_string(),
        }
    );
}

#[test]
fn patterns_that_differ_in_a_name_only_are_two_patterns() {
    let parser = ResourceParser::new();
    let resource = parser
        .parse_resource_descriptor_from_aggregate(
            "type: \"a/A\"\npattern: \"as/{a}\"\npattern: \"bs/{a}\"",
            "f.proto",
            "M",
        )
        .unwrap()
        .unwrap();
    assert_eq!(resource.patterns.len(), 2);
    assert!(resource.check().is_ok());
    assert!(!resource.patterns[0].same_components(&resource.patterns[1]));
    assert!(resource.patterns[0].same_components(&resource.patterns[0].duplicate()));
}

#[test]
fn a_pattern_that_cannot_be_read_back_is_left_to_the_build() {
    let parser = ResourceParser::new();
    let resource = parser
        .parse_resource_descriptor_from_aggregate(
            "type: \"a/File\"\npattern: \"files/{name}.json\"",
            "f.proto",
            "M",
        )
        .unwrap()
        .unwrap();
    assert_eq!(resource.patterns[0].pattern, "files/{name}.json");
}
