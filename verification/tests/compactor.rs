use shrink::compactor::{compact_jsonschema, compact_schema, compact_tool_signature, format_key, truncate};
use shrink::json::Json;
use shrink::validator::validate;
use shrink::wire::parse;

fn json(text: &str) -> Json {
    parse(text).unwrap()
}

#[test]
fn primitives() {
    assert_eq!(compact_schema(&json(r#"{"type":"string"}"#)), "string");
    assert_eq!(compact_schema(&json(r#"{"type":"integer"}"#)), "number");
    assert_eq!(compact_schema(&json(r#"{"type":"number"}"#)), "number");
    assert_eq!(compact_schema(&json(r#"{"type":"boolean"}"#)), "boolean");
    assert_eq!(compact_schema(&json(r#"{"type":"null"}"#)), "null");
}

#[test]
fn object_required_vs_optional() {
    let s = json(
        r#"{
            "type":"object",
            "properties":{"jql":{"type":"string"},"max_results":{"type":"number"}},
            "required":["jql"]
        }"#,
    );
    assert_eq!(compact_schema(&s), "{jql:string,max_results?:number}");
}

#[test]
fn nested_object_and_array() {
    let s = json(
        r#"{
            "type":"object",
            "properties":{
                "filters":{"type":"array","items":{"type":"string"}},
                "page":{"type":"object","properties":{"size":{"type":"integer"}},"required":["size"]}
            },
            "required":["filters"]
        }"#,
    );
    assert_eq!(compact_schema(&s), "{filters:string[],page?:{size:number}}");
}

#[test]
fn compactor_enum_and_const() {
    assert_eq!(compact_schema(&json(r#"{"enum":["asc","desc"]}"#)), "\"asc\"|\"desc\"");
    assert_eq!(compact_schema(&json(r#"{"enum":[1,2,3]}"#)), "1|2|3");
    assert_eq!(compact_schema(&json(r#"{"const":"fixed"}"#)), "\"fixed\"");
}

#[test]
fn type_array_and_anyof_unions() {
    assert_eq!(compact_schema(&json(r#"{"type":["string","null"]}"#)), "string|null");
    assert_eq!(
        compact_schema(&json(r#"{"anyOf":[{"type":"string"},{"type":"number"}]}"#)),
        "string|number"
    );
}

#[test]
fn array_of_union_is_parenthesized() {
    let s = json(r#"{"type":"array","items":{"type":["string","number"]}}"#);
    assert_eq!(compact_schema(&s), "(string|number)[]");
}

#[test]
fn non_identifier_keys_are_quoted() {
    let s = json(
        r#"{
            "type":"object",
            "properties":{"max-results":{"type":"number"}},
            "required":["max-results"]
        }"#,
    );
    assert_eq!(compact_schema(&s), "{\"max-results\":number}");
}

#[test]
fn missing_type_falls_back_to_any() {
    assert_eq!(compact_schema(&json("{}")), "any");
}

#[test]
fn tool_signature_matches_spec_example() {
    let s = json(
        r#"{
            "type":"object",
            "properties":{"jql":{"type":"string"},"max_results":{"type":"number"}},
            "required":["jql"]
        }"#,
    );
    assert_eq!(
        compact_tool_signature("search_jira_issues", &s),
        "type search_jira_issues = (p:{jql:string,max_results?:number})=>any;"
    );
}

#[test]
fn safe_strips_metadata_keeps_structure() {
    let s = json(
        r#"{
            "$schema":"http://json-schema.org/draft-07/schema#",
            "type":"object",
            "description":"a long tool description",
            "properties":{"a":{"type":"string","description":"d"}},
            "required":["a"],
            "additionalProperties":false
        }"#,
    );
    let out = compact_jsonschema(&s, false, 0);
    assert_eq!(
        out,
        json(
            r#"{
                "type":"object",
                "properties":{"a":{"type":"string"}},
                "required":["a"],
                "additionalProperties":false
            }"#
        )
    );
}

#[test]
fn balanced_truncates_descriptions() {
    let s = json(
        r#"{
            "type":"object",
            "properties":{"a":{"type":"string","description":"abcdefgh"}},
            "required":["a"]
        }"#,
    );
    let out = compact_jsonschema(&s, true, 4);
    assert_eq!(
        out,
        json(
            r#"{
                "type":"object",
                "properties":{"a":{"type":"string","description":"abcd…"}},
                "required":["a"]
            }"#
        )
    );
}

#[test]
fn combinators_and_shapes() {
    assert_eq!(compact_schema(&json(r#"{"oneOf":[{"type":"string"},{"const":null}]}"#)), "string|null");
    assert_eq!(compact_schema(&json(r#"{"allOf":[{"type":"string"},{"enum":["a"]}]}"#)), "string&\"a\"");
    assert_eq!(
        compact_schema(&json(r#"{"type":"array","items":{"allOf":[{"type":"string"},{"type":"null"}]}}"#)),
        "(string&null)[]"
    );
    assert_eq!(compact_schema(&json(r#"{"items":[{"type":"string"},{"type":"integer"}]}"#)), "[string,number]");
    assert_eq!(compact_schema(&json(r#"{"type":"array"}"#)), "any[]");
    assert_eq!(compact_schema(&json(r#"{"properties":{"a":{}}}"#)), "{a?:any}");
    assert_eq!(compact_schema(&json(r#"{"type":"object"}"#)), "Record<string,any>");
    assert_eq!(
        compact_schema(&json(r#"{"type":"object","additionalProperties":{"type":"boolean"}}"#)),
        "Record<string,boolean>"
    );
    assert_eq!(compact_schema(&json(r#"{"type":"object","additionalProperties":false}"#)), "{}");
    assert_eq!(compact_schema(&json(r#"{"type":"date"}"#)), "date");
    assert_eq!(compact_schema(&json(r#"{"enum":[],"type":"string"}"#)), "string");
    assert_eq!(compact_schema(&json(r#"{"type":[]}"#)), "");
    assert_eq!(compact_schema(&json("true")), "any");
}

#[test]
fn literals_render_as_json_or_quoted_text() {
    assert_eq!(compact_schema(&json(r#"{"const":"say \"hi\""}"#)), "\"say \\\"hi\\\"\"");
    assert_eq!(compact_schema(&json(r#"{"enum":[true,null,1.5,-2,[1,"a"],{"b":1,"a":2}]}"#)), "true|null|1.5|-2|[1,\"a\"]|{\"a\":2,\"b\":1}");
}

#[test]
fn keys_are_bare_only_where_they_are_identifiers() {
    assert_eq!(format_key("_a$9"), "_a$9");
    assert_eq!(format_key("$ref"), "$ref");
    assert_eq!(format_key("9a"), "\"9a\"");
    assert_eq!(format_key(""), "\"\"");
    assert_eq!(format_key("é"), "\"é\"");
    assert_eq!(format_key("a\"b"), "\"a\\\"b\"");
}

#[test]
fn signature_lists_fields_in_ascending_order() {
    let s = json(r#"{"properties":{"b":{"type":"string"},"a":{"type":"null"},"B":{}},"required":["b","B"]}"#);
    assert_eq!(compact_schema(&s), "{B:any,a?:null,b:string}");
}

#[test]
fn truncation_counts_characters() {
    assert_eq!(truncate("äöüß", 4), "äöüß");
    assert_eq!(truncate("äöüß", 3), "äöü…");
    assert_eq!(truncate("abc", 0), "…");
    assert_eq!(truncate("", 0), "");
    assert_eq!(truncate(&truncate("abcdef", 3), 3), "abc…");
}

#[test]
fn properties_named_like_metadata_stay() {
    let s = json(
        r#"{
            "title":"T",
            "type":"object",
            "properties":{
                "title":{"type":"string","title":"x"},
                "description":{"type":"string","description":"y"},
                "default":{"type":"integer","default":3}
            },
            "required":["title"],
            "additionalProperties":false
        }"#,
    );
    let out = compact_jsonschema(&s, false, 0);
    assert_eq!(
        out,
        json(
            r#"{
                "type":"object",
                "properties":{
                    "title":{"type":"string"},
                    "description":{"type":"string"},
                    "default":{"type":"integer"}
                },
                "required":["title"],
                "additionalProperties":false
            }"#
        )
    );
    let args = json(r#"{"title":"a","default":1}"#);
    assert!(validate(&args, &s).is_ok());
    assert!(validate(&args, &out).is_ok());
    assert_eq!(compact_schema(&out), compact_schema(&s));
}

#[test]
fn literal_values_stay() {
    let s = json(r#"{"enum":[{"title":1,"description":"d"}],"const":{"default":2},"examples":[1]}"#);
    assert_eq!(
        compact_jsonschema(&s, false, 0),
        json(r#"{"enum":[{"title":1,"description":"d"}],"const":{"default":2}}"#)
    );
}

#[test]
fn metadata_goes_at_every_depth() {
    let s = json(
        r#"{
            "$id":"i","$comment":"c","examples":[],"default":1,"readOnly":true,"writeOnly":true,"deprecated":true,
            "items":{"title":"t","anyOf":[{"title":"u","type":"string","description":5},{"type":"null"}]},
            "$defs":{"title":{"title":"v","type":"string"}}
        }"#,
    );
    let want = json(
        r#"{
            "items":{"anyOf":[{"type":"string"},{"type":"null"}]},
            "$defs":{"title":{"type":"string"}}
        }"#,
    );
    assert_eq!(compact_jsonschema(&s, true, 10), want);
    assert_eq!(compact_jsonschema(&want, true, 10), want);
}
