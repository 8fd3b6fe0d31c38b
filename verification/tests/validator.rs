use shrink::json::Json;
use shrink::validator::{err, rehydrate, strip_optional_nulls, validate, validate_at};
use shrink::wire::parse;

fn json(text: &str) -> Json {
    parse(text).unwrap()
}

fn schema_jql() -> Json {
    json(
        r#"{
            "type":"object",
            "properties":{"jql":{"type":"string"},"max_results":{"type":"integer","minimum":1,"maximum":100}},
            "required":["jql"]
        }"#,
    )
}

/// The path and the reason of the failure.
fn failure(value: &str, schema: &str) -> (String, String) {
    let e = validate(&json(value), &json(schema)).unwrap_err();
    (e.path, e.reason)
}

#[test]
fn valid_object_passes() {
    assert!(validate(&json(r#"{"jql":"project=AI"}"#), &schema_jql()).is_ok());
}

#[test]
fn missing_required_fails_with_clear_reason() {
    let e = validate(&json("{}"), &schema_jql()).unwrap_err();
    assert!(e.reason.contains("missing required"));
    assert!(e.reason.contains("jql"));
}

#[test]
fn wrong_type_pinpoints_path() {
    let e = validate(&json(r#"{"jql": 42}"#), &schema_jql()).unwrap_err();
    assert_eq!(e.path, "/jql");
    assert!(e.reason.contains("type mismatch"));
}

#[test]
fn additional_properties_false_rejects_unknown() {
    let s = json(
        r#"{
            "type":"object",
            "properties":{"a":{"type":"string"}},
            "additionalProperties":false
        }"#,
    );
    let e = validate(&json(r#"{"a":"x","b":"y"}"#), &s).unwrap_err();
    assert!(e.reason.contains("additional property"));
}

#[test]
fn validator_enum_and_const() {
    let s = json(r#"{"enum":["asc","desc"]}"#);
    assert!(validate(&json(r#""asc""#), &s).is_ok());
    assert!(validate(&json(r#""nope""#), &s).is_err());
    assert!(validate(&json(r#""x""#), &json(r#"{"const":"x"}"#)).is_ok());
    assert!(validate(&json(r#""y""#), &json(r#"{"const":"x"}"#)).is_err());
}

#[test]
fn integer_accepts_whole_floats_rejects_fractions() {
    let s = json(r#"{"type":"integer"}"#);
    assert!(validate(&json("5"), &s).is_ok());
    assert!(validate(&json("5.0"), &s).is_ok());
    assert!(validate(&json("5.5"), &s).is_err());
}

#[test]
fn nested_path_in_error() {
    let s = json(
        r#"{
            "type":"object",
            "properties":{"page":{"type":"object","properties":{"size":{"type":"integer"}},"required":["size"]}},
            "required":["page"]
        }"#,
    );
    let e = validate(&json(r#"{"page":{"size":"big"}}"#), &s).unwrap_err();
    assert_eq!(e.path, "/page/size");
}

#[test]
fn anyof_matches_any_branch() {
    let s = json(r#"{"anyOf":[{"type":"string"},{"type":"number"}]}"#);
    assert!(validate(&json(r#""x""#), &s).is_ok());
    assert!(validate(&json("5"), &s).is_ok());
    assert!(validate(&json("true"), &s).is_err());
}

#[test]
fn array_items_validated_with_index_path() {
    let s = json(r#"{"type":"array","items":{"type":"string"}}"#);
    assert!(validate(&json(r#"["a","b"]"#), &s).is_ok());
    let e = validate(&json(r#"["a", 2]"#), &s).unwrap_err();
    assert_eq!(e.path, "/1");
}

#[test]
fn string_length_constraints() {
    let s = json(r#"{"type":"string","minLength":2,"maxLength":4}"#);
    assert!(validate(&json(r#""ab""#), &s).is_ok());
    assert!(validate(&json(r#""a""#), &s).is_err());
    assert!(validate(&json(r#""abcde""#), &s).is_err());
}

#[test]
fn number_range_constraints() {
    let s = json(r#"{"type":"number","minimum":0,"maximum":100}"#);
    assert!(validate(&json("50"), &s).is_ok());
    assert!(validate(&json("-1"), &s).is_err());
    assert!(validate(&json("101"), &s).is_err());
}

#[test]
fn rehydrate_strips_optional_nulls_under_aggressive() {
    let s = schema_jql();
    let args = json(r#"{"jql":"x","max_results":null}"#);
    let out = rehydrate(&args, &s, true).unwrap();
    assert_eq!(out, json(r#"{"jql":"x"}"#));
}

#[test]
fn rehydrate_non_aggressive_passes_through_unchanged() {
    let s = json(r#"{"type":"object","properties":{"a":{"type":"string"}},"required":["a"]}"#);
    let args = json(r#"{"a":"x"}"#);
    assert_eq!(rehydrate(&args, &s, false).unwrap(), args);
}

#[test]
fn rehydrate_caches_real_validation_failure() {
    let s = schema_jql();
    let e = rehydrate(&json(r#"{"max_results": 5}"#), &s, true).unwrap_err();
    assert!(e.reason.contains("missing required"));
}

#[test]
fn failures_in_one_line() {
    assert_eq!(err("", "r".to_owned()).message(), "r");
    assert_eq!(err("/a", "r".to_owned()).message(), "/a: r");
    let e = validate(&json(r#"{"jql":1}"#), &schema_jql()).unwrap_err();
    assert_eq!(e.message(), "/jql: type mismatch: expected string, got number");
}

#[test]
fn every_reason() {
    let at = |path: &str, reason: &str| (path.to_owned(), reason.to_owned());
    assert_eq!(failure("1", r#"{"const":{"b":1,"a":"x"}}"#), at("", r#"expected const {"a":"x","b":1}"#));
    assert_eq!(failure("1", r#"{"enum":["a",2]}"#), at("", r#"not in enum [String("a"), Number(2)]"#));
    assert_eq!(failure("1", r#"{"anyOf":[]}"#), at("", "no anyOf branch matched"));
    assert_eq!(
        failure("1", r#"{"anyOf":[{"type":"string"},{"type":"null"}]}"#),
        at("", "type mismatch: expected null, got number")
    );
    assert_eq!(
        failure("1", r#"{"oneOf":[{"type":"number"},{"type":"integer"},{"type":"null"}]}"#),
        at("", "expected exactly 1 oneOf branch to match, got 2")
    );
    assert_eq!(failure("1", r#"{"oneOf":[]}"#), at("", "expected exactly 1 oneOf branch to match, got 0"));
    assert_eq!(
        failure("1", r#"{"allOf":[{"type":"number"},{"minimum":2}]}"#),
        at("", "1 < minimum 2")
    );
    assert_eq!(
        failure("true", r#"{"type":["string",5,"null"]}"#),
        at("", r#"type mismatch: expected one of [String("string"), Number(5), String("null")], got boolean"#)
    );
    assert_eq!(failure("{}", r#"{"required":["b","a"]}"#), at("", "missing required property 'b'"));
    assert_eq!(
        failure(r#"{"x":1}"#, r#"{"additionalProperties":false}"#),
        at("", "additional property 'x' not allowed")
    );
    assert_eq!(
        failure(r#"{"x":1}"#, r#"{"additionalProperties":{"type":"string"}}"#),
        at("/x", "type mismatch: expected string, got number")
    );
    assert_eq!(failure("[1]", r#"{"minItems":2}"#), at("", "minItems: 1 < 2"));
    assert_eq!(failure("[1,2,3]", r#"{"maxItems":2}"#), at("", "maxItems: 3 > 2"));
    assert_eq!(failure(r#""ä""#, r#"{"minLength":2}"#), at("", "minLength: 1 < 2"));
    assert_eq!(failure(r#""äöü""#, r#"{"maxLength":2}"#), at("", "maxLength: 3 > 2"));
    assert_eq!(failure("1.5", r#"{"minimum":2}"#), at("", "1.5 < minimum 2"));
    assert_eq!(failure("3", r#"{"maximum":2.5}"#), at("", "3 > maximum 2.5"));
    assert_eq!(
        failure(r#"[[true],["a"]]"#, r#"{"items":{"items":{"type":"boolean"}}}"#),
        at("/1/0", "type mismatch: expected boolean, got string")
    );
    assert_eq!(
        failure(r#"["a","b","c"]"#, r#"{"items":[{"type":"string"},{"type":"null"}]}"#),
        at("/1", "type mismatch: expected null, got string")
    );
}

#[test]
fn path_only_prefixes_the_place() {
    let schema = json(r#"{"properties":{"a":{"items":{"type":"string"}}},"required":["a"]}"#);
    for value in [r#"{"a":["x",5]}"#, "{}", r#"{"a":["x"]}"#] {
        match (validate(&json(value), &schema), validate_at(&json(value), &schema, "/p/q")) {
            (Ok(()), Ok(())) => {}
            (Err(root), Err(moved)) => {
                assert_eq!(moved.path, format!("/p/q{}", root.path));
                assert_eq!(moved.reason, root.reason);
            }
            other => panic!("{other:?}"),
        }
    }
    assert_eq!(validate_at(&json("{}"), &schema, "/p").unwrap_err().path, "/p");
}

#[test]
fn checks_come_in_order() {
    // The value breaks every keyword; the first one in order is reported.
    let value = "5";
    assert!(failure(value, r#"{"const":1,"enum":[2],"anyOf":[],"oneOf":[],"type":"string","minimum":9}"#).1.starts_with("expected const"));
    assert!(failure(value, r#"{"enum":[2],"anyOf":[],"oneOf":[],"type":"string","minimum":9}"#).1.starts_with("not in enum"));
    assert!(failure(value, r#"{"anyOf":[],"oneOf":[],"type":"string","minimum":9}"#).1.starts_with("no anyOf"));
    assert!(failure(value, r#"{"oneOf":[],"allOf":[{"const":1}],"type":"string"}"#).1.starts_with("expected exactly 1"));
    assert!(failure(value, r#"{"allOf":[{"const":1}],"type":"string","minimum":9}"#).1.starts_with("expected const"));
    assert!(failure(value, r#"{"type":"string","minimum":9}"#).1.starts_with("type mismatch"));
    assert!(failure("[1]", r#"{"items":{"type":"null"},"minItems":2}"#).1.starts_with("type mismatch"));
    assert!(failure(r#"{"a":1}"#, r#"{"required":["b"],"properties":{"a":{"type":"null"}}}"#).1.starts_with("missing required"));
}

#[test]
fn numbers_are_compared_as_doubles() {
    assert!(validate(&json("1.0"), &json(r#"{"const":1.0}"#)).is_ok());
    // An integer and a double are not the same value, though neither is less.
    assert!(validate(&json("1"), &json(r#"{"const":1.0}"#)).is_err());
    assert!(validate(&json("1"), &json(r#"{"minimum":1.0,"maximum":1.0}"#)).is_ok());
    assert!(validate(&json("0.0"), &json(r#"{"const":-0.0}"#)).is_ok());
    // Both integers are rounded to the same double.
    assert!(validate(&json("9007199254740992"), &json(r#"{"minimum":9007199254740993}"#)).is_ok());
    assert!(validate(&json("9007199254740991"), &json(r#"{"minimum":9007199254740992}"#)).is_err());
    assert!(validate(&json("18446744073709551615"), &json(r#"{"type":"integer","minimum":-9223372036854775808}"#)).is_ok());
    assert!(validate(&json("-0.5"), &json(r#"{"type":"integer"}"#)).is_err());
    assert!(validate(&json("1e300"), &json(r#"{"type":"integer"}"#)).is_ok());
    assert!(validate(&json("1e-300"), &json(r#"{"type":"integer"}"#)).is_err());
    assert!(validate(&json("-1e-300"), &json(r#"{"maximum":0}"#)).is_ok());
}

#[test]
fn keywords_of_the_wrong_kind_are_passed_over() {
    assert!(validate(&json("1"), &json("true")).is_ok());
    assert!(validate(&json("1"), &json(r#"{"enum":1,"anyOf":1,"oneOf":{},"allOf":"x","type":5}"#)).is_ok());
    assert!(validate(&json("[1]"), &json(r#"{"items":true,"minItems":-1,"maxItems":0.5}"#)).is_ok());
    assert!(validate(&json("1"), &json(r#"{"minimum":"5"}"#)).is_ok());
    assert!(validate(&json("{}"), &json(r#"{"required":"a","properties":[]}"#)).is_ok());
    assert!(validate(&json(r#"{"a":1}"#), &json(r#"{"additionalProperties":true}"#)).is_ok());
    assert!(validate(&json(r#""a""#), &json(r#"{"minItems":5,"minimum":5,"required":["x"]}"#)).is_ok());
}

#[test]
fn stripping_goes_as_deep_as_the_properties() {
    let schema = json(
        r#"{
            "properties":{
                "page":{"properties":{"size":{"type":"integer"}},"required":["token"]},
                "list":{"items":{"properties":{"a":{}}}}
            },
            "required":["kept"]
        }"#,
    );
    let args = json(
        r#"{
            "kept":null,
            "gone":null,
            "page":{"size":null,"token":null,"x":{"y":null}},
            "list":[{"a":null}],
            "other":{"a":null}
        }"#,
    );
    let out = rehydrate(&args, &schema, true).unwrap();
    assert_eq!(
        out,
        json(r#"{"kept":null,"page":{"token":null,"x":{"y":null}},"list":[{"a":null}],"other":{"a":null}}"#)
    );
    assert_eq!(rehydrate(&out, &schema, true).unwrap(), out);
    assert_eq!(rehydrate(&args, &schema, false).unwrap_err().path, "/page/size");
    assert_eq!(strip_optional_nulls(&args, &schema), out);
    // Without `properties` nothing is stripped.
    assert_eq!(rehydrate(&args, &json("{}"), true).unwrap(), args);
    assert_eq!(rehydrate(&json("null"), &schema, true).unwrap(), json("null"));
}
