//! The schema compactor.
//!
//! Two related transforms:
//!
//! 1. [`compact_schema`] and [`compact_tool_signature`] turn a JSON Schema into
//!    a dense TypeScript-style type, such as `{jql:string,max_results?:number}`.
//! 2. [`compact_jsonschema`] keeps a JSON Schema but leaves out the keys that
//!    only describe it.
//!
//! The members of an object are always met in ascending order of their names,
//! so a schema has one signature.
use vstd::prelude::*;
use vstd::string::*;
use vstd::std_specs::iter::IteratorSpec;

use crate::json::{ascending, collect_listed, collect_strings, entry_views, lemma_array_view, views};
use crate::json::{lemma_get_array_smaller, lemma_get_object_smaller, lemma_get_smaller};
use crate::json::{listed_strings, strings, Json, JsonObject, JsonView, Members};
use crate::text::{concat3, contains_text, escape_quotes, has_char, join, joined, quotes_escaped};
use crate::text::{same_text, take_chars, text_less, texts};
use crate::wire::{to_text, value_text};

verus! {

// ---------------------------------------------------------------------------
// Signatures
// ---------------------------------------------------------------------------

/// Whether `c` may begin a bare identifier.
pub open spec fn identifier_head(c: char) -> bool {
    ('a' <= c && c <= 'z') || ('A' <= c && c <= 'Z') || c == '_' || c == '$'
}

/// Whether `c` may stand in a bare identifier after the first place.
pub open spec fn identifier_tail(c: char) -> bool {
    identifier_head(c) || ('0' <= c && c <= '9')
}

/// Whether `s` is a bare identifier.
pub open spec fn is_identifier(s: Seq<char>) -> bool {
    &&& s.len() > 0
    &&& identifier_head(s[0])
    &&& forall|i: int| 1 <= i < s.len() ==> identifier_tail(#[trigger] s[i])
}

/// A text in double quotes.
pub open spec fn quoted(s: Seq<char>) -> Seq<char> {
    "\""@ + quotes_escaped(s) + "\""@
}

/// A property name: bare where it is an identifier, in quotes otherwise.
pub open spec fn key_text(key: Seq<char>) -> Seq<char> {
    if is_identifier(key) {
        key
    } else {
        quoted(key)
    }
}

/// A value as a literal type.
pub open spec fn literal_text(v: JsonView) -> Seq<char> {
    match v {
        JsonView::Str(s) => quoted(s),
        _ => value_text(v),
    }
}

/// The items of the member named `key`, where that is an array that is not empty.
pub open spec fn branches(schema: JsonView, key: Seq<char>) -> Option<Seq<JsonView>> {
    match schema.get_array(key) {
        Some(items) => if items.len() > 0 { Some(items) } else { None },
        None => None,
    }
}

/// The type that a schema describes.
///
/// A `const` is a literal and an `enum` a union of literals; `anyOf` and
/// `oneOf` are unions and `allOf` is an intersection; otherwise the `type`
/// keyword decides, and in its absence the shape of the schema.
pub open spec fn type_text(schema: JsonView) -> Seq<char>
    decreases schema, 3nat,
{
    proof {
        lemma_get_array_smaller(schema, "anyOf"@);
        lemma_get_array_smaller(schema, "oneOf"@);
        lemma_get_array_smaller(schema, "allOf"@);
    }
    if let Some(c) = schema.get("const"@) {
        literal_text(c)
    } else if let Some(values) = branches(schema, "enum"@) {
        joined(values.map_values(|v: JsonView| literal_text(v)), "|"@)
    } else if let Some(items) = branches(schema, "anyOf"@) {
        joined(type_texts(items), "|"@)
    } else if let Some(items) = branches(schema, "oneOf"@) {
        joined(type_texts(items), "|"@)
    } else if let Some(items) = branches(schema, "allOf"@) {
        joined(type_texts(items), "&"@)
    } else {
        match schema.get("type"@) {
            Some(JsonView::Str(name)) => named_type_text(name, schema),
            Some(JsonView::Array(names)) => joined(named_type_texts(strings(names), schema), "|"@),
            _ => if schema.get("properties"@) is Some {
                object_type_text(schema)
            } else if schema.get("items"@) is Some {
                array_type_text(schema)
            } else {
                "any"@
            },
        }
    }
}

/// The types that several schemas describe.
pub open spec fn type_texts(schemas: Seq<JsonView>) -> Seq<Seq<char>>
    decreases schemas, 4nat,
{
    Seq::new(
        schemas.len(),
        |i: int| if 0 <= i < schemas.len() { type_text(schemas[i]) } else { Seq::empty() },
    )
}

/// The types that a schema describes for each of several names of its `type`.
pub open spec fn named_type_texts(names: Seq<Seq<char>>, schema: JsonView) -> Seq<Seq<char>>
    decreases schema, 2nat,
{
    Seq::new(names.len(), |i: int| named_type_text(names[i], schema))
}

/// The type that a schema describes where its `type` is `name`. A name that is
/// not a JSON Schema type stands for itself.
pub open spec fn named_type_text(name: Seq<char>, schema: JsonView) -> Seq<char>
    decreases schema, 1nat,
{
    if name == "string"@ {
        "string"@
    } else if name == "number"@ || name == "integer"@ {
        "number"@
    } else if name == "boolean"@ {
        "boolean"@
    } else if name == "null"@ {
        "null"@
    } else if name == "array"@ {
        array_type_text(schema)
    } else if name == "object"@ {
        object_type_text(schema)
    } else {
        name
    }
}

/// The type of an array: `T[]`, with a union or an intersection in
/// parentheses, or the tuple `[T1,T2]`.
pub open spec fn array_type_text(schema: JsonView) -> Seq<char>
    decreases schema, 0nat,
{
    proof {
        lemma_get_smaller(schema, "items"@);
        lemma_get_array_smaller(schema, "items"@);
    }
    match schema.get("items"@) {
        Some(JsonView::Object(members)) => {
            let inner = type_text(JsonView::Object(members));
            if inner.contains('|') || inner.contains('&') {
                "("@ + inner + ")[]"@
            } else {
                inner + "[]"@
            }
        },
        Some(JsonView::Array(tuple)) => "["@ + joined(type_texts(tuple), ","@) + "]"@,
        _ => "any[]"@,
    }
}

/// The fields of an object type; a field that is not required is marked with `?`.
pub open spec fn field_texts(properties: Members, required: Seq<Seq<char>>) -> Seq<Seq<char>>
    decreases properties, 4nat,
{
    Seq::new(
        properties.len(),
        |i: int|
            if 0 <= i < properties.len() {
                key_text(properties[i].0) + (if required.contains(properties[i].0) {
                    ""@
                } else {
                    "?"@
                }) + ":"@ + type_text(properties[i].1)
            } else {
                Seq::empty()
            },
    )
}

/// The type of an object: its fields, or an open record where it declares none.
pub open spec fn object_type_text(schema: JsonView) -> Seq<char>
    decreases schema, 0nat,
{
    proof {
        lemma_get_object_smaller(schema, "properties"@);
        lemma_get_smaller(schema, "additionalProperties"@);
    }
    let fields = match schema.get_object("properties"@) {
        Some(properties) => field_texts(properties, listed_strings(schema, "required"@)),
        None => Seq::empty(),
    };
    if fields.len() > 0 {
        "{"@ + joined(fields, ","@) + "}"@
    } else {
        match schema.get("additionalProperties"@) {
            Some(JsonView::Object(members)) => "Record<string,"@ + type_text(JsonView::Object(members)) + ">"@,
            Some(JsonView::Bool(false)) => "{}"@,
            _ => "Record<string,any>"@,
        }
    }
}

/// The signature line of a tool.
pub open spec fn signature_text(name: Seq<char>, schema: JsonView) -> Seq<char> {
    "type "@ + name + " = (p:"@ + type_text(schema) + ")=>any;"@
}

/// Renders a tool's argument schema as a signature line, `type <name> = (p:<type>)=>any;`.
///
/// The tool name is used as it stands: the line is there for a model to read,
/// not to be compiled.
pub fn compact_tool_signature(name: &str, input_schema: &Json) -> (r: String)
    ensures
        r@ == signature_text(name@, input_schema@),
{
    let mut out = concat3("type ", name, " = (p:");
    out.append(compact_schema(input_schema).as_str());
    out.append(")=>any;");
    out
}

/// Converts a JSON Schema into a compact type.
pub fn compact_schema(schema: &Json) -> (r: String)
    ensures
        r@ == type_text(schema@),
{
    ts_type(schema)
}

fn nonempty_array<'a>(schema: &'a Json, key: &str) -> (r: Option<&'a Vec<Json>>)
    ensures
        match r {
            Some(items) => branches(schema@, key@) == Some(views(items@)),
            None => branches(schema@, key@) is None,
        },
{
    match schema.get_array(key) {
        Some(items) => if items.len() > 0 { Some(items) } else { None },
        None => None,
    }
}

/// Renders the type that a schema describes.
pub fn ts_type(schema: &Json) -> (r: String)
    ensures
        r@ == type_text(schema@),
    decreases schema@, 3nat,
{
    broadcast use lemma_array_view;

    proof {
        lemma_get_array_smaller(schema@, "anyOf"@);
        lemma_get_array_smaller(schema@, "oneOf"@);
        lemma_get_array_smaller(schema@, "allOf"@);
    }
    if let Some(c) = schema.get("const") {
        return literal(c);
    }
    if let Some(values) = nonempty_array(schema, "enum") {
        let parts = literals(values);
        return join(&parts, "|");
    }
    if let Some(items) = nonempty_array(schema, "anyOf") {
        let parts = ts_types(items);
        return join(&parts, "|");
    }
    if let Some(items) = nonempty_array(schema, "oneOf") {
        let parts = ts_types(items);
        return join(&parts, "|");
    }
    if let Some(items) = nonempty_array(schema, "allOf") {
        let parts = ts_types(items);
        return join(&parts, "&");
    }
    match schema.get("type") {
        Some(Json::Str(name)) => ts_from_type(name.as_str(), schema),
        Some(Json::Array(names)) => {
            let wanted = collect_strings(names);
            let mut parts: Vec<String> = Vec::new();
            let mut i: usize = 0;
            while i < wanted.len()
                invariant
                    i <= wanted.len(),
                    parts@.len() == i,
                    forall|j: int|
                        0 <= j < i ==> (#[trigger] parts@[j])@ == named_type_text(texts(wanted@)[j], schema@),
                decreases wanted.len() - i,
            {
                parts.push(ts_from_type(wanted[i].as_str(), schema));
                i = i + 1;
            }
            assert(texts(parts@) =~= named_type_texts(strings(views(names@)), schema@));
            join(&parts, "|")
        },
        _ => {
            if schema.get("properties").is_some() {
                object_type(schema)
            } else if schema.get("items").is_some() {
                array_type(schema)
            } else {
                "any".to_owned()
            }
        },
    }
}

fn ts_types(schemas: &Vec<Json>) -> (r: Vec<String>)
    ensures
        texts(r@) == type_texts(views(schemas@)),
    decreases views(schemas@), 4nat,
{
    let mut parts: Vec<String> = Vec::new();
    let mut i: usize = 0;
    while i < schemas.len()
        invariant
            i <= schemas.len(),
            parts@.len() == i,
            forall|j: int| 0 <= j < i ==> (#[trigger] parts@[j])@ == type_text(views(schemas@)[j]),
        decreases schemas.len() - i,
    {
        proof {
            assert(decreases_to!(views(schemas@) => views(schemas@)[i as int]));
        }
        parts.push(ts_type(&schemas[i]));
        i = i + 1;
    }
    assert(texts(parts@) =~= type_texts(views(schemas@)));
    parts
}

fn literals(values: &Vec<Json>) -> (r: Vec<String>)
    ensures
        texts(r@) == views(values@).map_values(|v: JsonView| literal_text(v)),
{
    let mut parts: Vec<String> = Vec::new();
    let mut i: usize = 0;
    while i < values.len()
        invariant
            i <= values.len(),
            parts@.len() == i,
            forall|j: int| 0 <= j < i ==> (#[trigger] parts@[j])@ == literal_text(values@[j]@),
        decreases values.len() - i,
    {
        parts.push(literal(&values[i]));
        i = i + 1;
    }
    assert(texts(parts@) =~= views(values@).map_values(|v: JsonView| literal_text(v)));
    parts
}

fn ts_from_type(t: &str, schema: &Json) -> (r: String)
    ensures
        r@ == named_type_text(t@, schema@),
    decreases schema@, 1nat,
{
    if same_text(t, "string") {
        "string".to_owned()
    } else if same_text(t, "number") || same_text(t, "integer") {
        "number".to_owned()
    } else if same_text(t, "boolean") {
        "boolean".to_owned()
    } else if same_text(t, "null") {
        "null".to_owned()
    } else if same_text(t, "array") {
        array_type(schema)
    } else if same_text(t, "object") {
        object_type(schema)
    } else {
        t.to_owned()
    }
}

fn array_type(schema: &Json) -> (r: String)
    ensures
        r@ == array_type_text(schema@),
    decreases schema@, 0nat,
{
    broadcast use lemma_array_view;

    proof {
        lemma_get_smaller(schema@, "items"@);
        lemma_get_array_smaller(schema@, "items"@);
    }
    match schema.get("items") {
        Some(items) => match items {
            Json::Object(_) => {
                let inner = ts_type(items);
                if has_char(inner.as_str(), '|') || has_char(inner.as_str(), '&') {
                    concat3("(", inner.as_str(), ")[]")
                } else {
                    let mut out = inner;
                    out.append("[]");
                    out
                }
            },
            Json::Array(tuple) => {
                let parts = ts_types(tuple);
                concat3("[", join(&parts, ",").as_str(), "]")
            },
            _ => "any[]".to_owned(),
        },
        None => "any[]".to_owned(),
    }
}

/// Renders the type of an object.
pub fn object_type(schema: &Json) -> (r: String)
    ensures
        r@ == object_type_text(schema@),
    decreases schema@, 0nat,
{
    proof {
        lemma_get_object_smaller(schema@, "properties"@);
        lemma_get_smaller(schema@, "additionalProperties"@);
    }
    let required = collect_listed(schema, "required");
    if let Some(properties) = schema.get_object("properties") {
        if properties.len() > 0 {
            let fields = object_fields(properties, &required);
            return concat3("{", join(&fields, ",").as_str(), "}");
        }
    }
    match schema.get("additionalProperties") {
        Some(extra) => match extra {
            Json::Object(_) => concat3("Record<string,", ts_type(extra).as_str(), ">"),
            Json::Bool(false) => "{}".to_owned(),
            _ => "Record<string,any>".to_owned(),
        },
        None => "Record<string,any>".to_owned(),
    }
}

fn object_fields(properties: &JsonObject, required: &Vec<String>) -> (r: Vec<String>)
    ensures
        texts(r@) == field_texts(properties@, texts(required@)),
    decreases properties@, 4nat,
{
    let mut fields: Vec<String> = Vec::new();
    let ghost want = field_texts(properties@, texts(required@));
    let mut i: usize = 0;
    while i < properties.len()
        invariant
            i <= properties@.len(),
            fields@.len() == i,
            want == field_texts(properties@, texts(required@)),
            want.len() == properties@.len(),
            forall|j: int| 0 <= j < i ==> (#[trigger] fields@[j])@ == want[j],
        decreases properties@.len() - i,
    {
        proof {
            assert(decreases_to!(properties@ => properties@[i as int]));
            assert(decreases_to!(properties@[i as int] => properties@[i as int].1));
        }
        let key = properties.key_at(i);
        let mark = if contains_text(required, key.as_str()) { "" } else { "?" };
        let mut field = concat3(format_key(key.as_str()).as_str(), mark, ":");
        field.append(ts_type(properties.value_at(i)).as_str());
        fields.push(field);
        i = i + 1;
    }
    assert(texts(fields@) =~= want);
    fields
}

/// Quotes a property name if it is not a bare identifier.
pub fn format_key(key: &str) -> (r: String)
    ensures
        r@ == key_text(key@),
{
    if identifier(key) {
        key.to_owned()
    } else {
        concat3("\"", escape_quotes(key).as_str(), "\"")
    }
}

fn identifier(s: &str) -> (r: bool)
    ensures
        r == is_identifier(s@),
{
    let n = s.unicode_len();
    if n == 0 {
        return false;
    }
    let mut rest = s.chars();
    let mut k: usize = 0;
    while k < n
        invariant
            k <= n,
            n == s@.len(),
            n > 0,
            rest.obeys_prophetic_iter_laws(),
            rest.remaining() == s@.skip(k as int),
            k > 0 ==> identifier_head(s@[0]),
            forall|j: int| 1 <= j < k ==> identifier_tail(#[trigger] s@[j]),
        decreases n - k,
    {
        match rest.next() {
            None => {
                return false;
            },
            Some(c) => {
                assert(c == s@[k as int]);
                let head = ('a' <= c && c <= 'z') || ('A' <= c && c <= 'Z') || c == '_' || c == '$';
                if !(head || (k > 0 && '0' <= c && c <= '9')) {
                    return false;
                }
                assert(s@.skip(k as int).drop_first() =~= s@.skip(k + 1));
                k = k + 1;
            },
        }
    }
    true
}

/// Renders a value as a literal type.
fn literal(v: &Json) -> (r: String)
    ensures
        r@ == literal_text(v@),
{
    match v {
        Json::Str(s) => concat3("\"", escape_quotes(s.as_str()).as_str(), "\""),
        Json::Null => "null".to_owned(),
        _ => to_text(v),
    }
}

// ---------------------------------------------------------------------------
// Compaction that keeps a JSON Schema
// ---------------------------------------------------------------------------

/// Whether a keyword is pure metadata: it costs tokens and does not constrain arguments.
pub open spec fn is_metadata_key(key: Seq<char>) -> bool {
    ||| key == "$schema"@
    ||| key == "$id"@
    ||| key == "$comment"@
    ||| key == "title"@
    ||| key == "examples"@
    ||| key == "default"@
    ||| key == "readOnly"@
    ||| key == "writeOnly"@
    ||| key == "deprecated"@
}

/// Whether a keyword holds values as an argument would: nothing in them is a keyword.
pub open spec fn is_literal_key(key: Seq<char>) -> bool {
    key == "const"@ || key == "enum"@
}

/// Whether a keyword holds schemas under names of the author's choice, such as
/// those of properties: the names are not keywords.
pub open spec fn is_naming_key(key: Seq<char>) -> bool {
    ||| key == "properties"@
    ||| key == "patternProperties"@
    ||| key == "definitions"@
    ||| key == "$defs"@
    ||| key == "dependencies"@
    ||| key == "dependentSchemas"@
    ||| key == "dependentRequired"@
}

/// At most the first `max` characters of a text, with an ellipsis where some were cut off.
pub open spec fn truncated(s: Seq<char>, max: nat) -> Seq<char> {
    if s.len() <= max {
        s
    } else {
        s.take(max as int).push('…')
    }
}

/// What becomes of a keyword: metadata is left out, a description is left out
/// or shortened, literal values stay, schemas are compacted in turn.
pub open spec fn compacted_member(key: Seq<char>, value: JsonView, keep_descriptions: bool, max_desc: nat) -> Option<
    JsonView,
>
    decreases value, 3nat,
{
    if is_metadata_key(key) {
        None
    } else if key == "description"@ {
        match value {
            JsonView::Str(s) => if keep_descriptions {
                Some(JsonView::Str(truncated(s, max_desc)))
            } else {
                None
            },
            _ => None,
        }
    } else if is_literal_key(key) {
        Some(value)
    } else if is_naming_key(key) {
        Some(compacted_named(value, keep_descriptions, max_desc))
    } else {
        Some(compacted(value, keep_descriptions, max_desc))
    }
}

/// The keywords that are left of a schema, in order.
pub open spec fn compacted_members(members: Members, keep_descriptions: bool, max_desc: nat) -> Members
    decreases members, 4nat,
{
    if members.len() == 0 {
        Seq::empty()
    } else {
        let rest = compacted_members(members.drop_last(), keep_descriptions, max_desc);
        let (key, value) = members[members.len() - 1];
        match compacted_member(key, value, keep_descriptions, max_desc) {
            Some(v) => rest.push((key, v)),
            None => rest,
        }
    }
}

/// Named schemas, each compacted under its name.
pub open spec fn compacted_named(value: JsonView, keep_descriptions: bool, max_desc: nat) -> JsonView
    decreases value, 2nat,
{
    match value {
        JsonView::Object(members) => JsonView::Object(
            Seq::new(
                members.len(),
                |i: int|
                    if 0 <= i < members.len() {
                        (members[i].0, compacted(members[i].1, keep_descriptions, max_desc))
                    } else {
                        (Seq::empty(), JsonView::Null)
                    },
            ),
        ),
        _ => compacted(value, keep_descriptions, max_desc),
    }
}

/// A schema without its metadata, at every depth.
pub open spec fn compacted(schema: JsonView, keep_descriptions: bool, max_desc: nat) -> JsonView
    decreases schema, 1nat,
{
    match schema {
        JsonView::Object(members) => JsonView::Object(compacted_members(members, keep_descriptions, max_desc)),
        JsonView::Array(items) => JsonView::Array(
            Seq::new(
                items.len(),
                |i: int|
                    if 0 <= i < items.len() {
                        compacted(items[i], keep_descriptions, max_desc)
                    } else {
                        JsonView::Null
                    },
            ),
        ),
        _ => schema,
    }
}

fn metadata_key(key: &str) -> (r: bool)
    ensures
        r == is_metadata_key(key@),
{
    same_text(key, "$schema") || same_text(key, "$id") || same_text(key, "$comment") || same_text(key, "title")
        || same_text(key, "examples") || same_text(key, "default") || same_text(key, "readOnly") || same_text(
        key,
        "writeOnly",
    ) || same_text(key, "deprecated")
}

fn literal_key(key: &str) -> (r: bool)
    ensures
        r == is_literal_key(key@),
{
    same_text(key, "const") || same_text(key, "enum")
}

fn naming_key(key: &str) -> (r: bool)
    ensures
        r == is_naming_key(key@),
{
    same_text(key, "properties") || same_text(key, "patternProperties") || same_text(key, "definitions") || same_text(
        key,
        "$defs",
    ) || same_text(key, "dependencies") || same_text(key, "dependentSchemas") || same_text(key, "dependentRequired")
}

/// Produces a JSON Schema that accepts the same arguments, without its metadata.
///
/// Without `keep_descriptions` every `description` is left out. With it, a
/// `description` keeps its first `max_desc` characters, with an ellipsis behind
/// them where some were cut off: descriptions help a model to choose a tool, so
/// a short one is worth its tokens.
///
/// Only keywords are metadata: a property named `title` keeps its name, and
/// the values of `const` and `enum` stay as they are.
pub fn compact_jsonschema(schema: &Json, keep_descriptions: bool, max_desc: usize) -> (r: Json)
    ensures
        r@ == compacted(schema@, keep_descriptions, max_desc as nat),
    decreases schema@, 1nat,
{
    broadcast use lemma_array_view;

    match schema {
        Json::Object(o) => {
            proof {
                use_type_invariant(o);
            }
            let mut out: Vec<(String, Json)> = Vec::new();
            let mut i: usize = 0;
            proof {
                assert(entry_views(out@) =~= compacted_members(o@.take(0), keep_descriptions, max_desc as nat));
            }
            while i < o.len()
                invariant
                    i <= o@.len(),
                    ascending(o@),
                    schema@ == JsonView::Object(o@),
                    entry_views(out@) == compacted_members(o@.take(i as int), keep_descriptions, max_desc as nat),
                    ascending(entry_views(out@)),
                    forall|a: int, b: int|
                        0 <= a < out@.len() && i <= b < o@.len() ==> text_less(
                            (#[trigger] entry_views(out@)[a]).0,
                            (#[trigger] o@[b]).0,
                        ),
                decreases o@.len() - i,
            {
                let key = o.key_at(i);
                let value = o.value_at(i);
                proof {
                    assert(decreases_to!(schema@ => schema@->Object_0));
                    assert(decreases_to!(o@ => o@[i as int]));
                    assert(decreases_to!(o@[i as int] => o@[i as int].1));
                    assert(o@.take(i + 1).drop_last() =~= o@.take(i as int));
                    assert(o@.take(i + 1).last() == o@[i as int]);
                }
                let kept = if metadata_key(key.as_str()) {
                    None
                } else if same_text(key.as_str(), "description") {
                    match value {
                        Json::Str(s) => if keep_descriptions {
                            Some(Json::Str(truncate(s.as_str(), max_desc)))
                        } else {
                            None
                        },
                        _ => None,
                    }
                } else if literal_key(key.as_str()) {
                    Some(value.clone())
                } else if naming_key(key.as_str()) {
                    Some(compact_named(value, keep_descriptions, max_desc))
                } else {
                    Some(compact_jsonschema(value, keep_descriptions, max_desc))
                };
                proof {
                    let step = compacted_member(
                        o@[i as int].0,
                        o@[i as int].1,
                        keep_descriptions,
                        max_desc as nat,
                    );
                    assert(match kept {
                        Some(v) => step == Some(v@),
                        None => step is None,
                    });
                    assert(compacted_members(o@.take(i + 1), keep_descriptions, max_desc as nat) == match step {
                        Some(v) => entry_views(out@).push((o@[i as int].0, v)),
                        None => entry_views(out@),
                    });
                }
                if let Some(v) = kept {
                    let ghost before = entry_views(out@);
                    out.push((key.clone(), v));
                    assert(entry_views(out@) =~= before.push((key@, v@)));
                }
                i = i + 1;
            }
            assert(o@.take(i as int) =~= o@);
            Json::Object(JsonObject::from_ascending(out))
        },
        Json::Array(items) => {
            let mut out: Vec<Json> = Vec::new();
            let mut i: usize = 0;
            while i < items.len()
                invariant
                    i <= items.len(),
                    out@.len() == i,
                    schema@ == JsonView::Array(views(items@)),
                    forall|j: int|
                        0 <= j < i ==> (#[trigger] out@[j])@ == compacted(
                            views(items@)[j],
                            keep_descriptions,
                            max_desc as nat,
                        ),
                decreases items.len() - i,
            {
                proof {
                    assert(decreases_to!(schema@ => schema@->Array_0));
                    assert(decreases_to!(views(items@) => views(items@)[i as int]));
                }
                out.push(compact_jsonschema(&items[i], keep_descriptions, max_desc));
                i = i + 1;
            }
            proof {
                let want = compacted(schema@, keep_descriptions, max_desc as nat)->Array_0;
                assert(views(out@) =~= want);
            }
            Json::Array(out)
        },
        _ => schema.clone(),
    }
}

/// Compacts each of the schemas that stand under names of the author's choice.
fn compact_named(value: &Json, keep_descriptions: bool, max_desc: usize) -> (r: Json)
    ensures
        r@ == compacted_named(value@, keep_descriptions, max_desc as nat),
    decreases value@, 2nat,
{
    match value {
        Json::Object(o) => {
            proof {
                use_type_invariant(o);
            }
            let mut out: Vec<(String, Json)> = Vec::new();
            let mut i: usize = 0;
            while i < o.len()
                invariant
                    i <= o@.len(),
                    out@.len() == i,
                    value@ == JsonView::Object(o@),
                    forall|j: int|
                        0 <= j < i ==> (#[trigger] out@[j]).0@ == o@[j].0 && out@[j].1@ == compacted(
                            o@[j].1,
                            keep_descriptions,
                            max_desc as nat,
                        ),
                decreases o@.len() - i,
            {
                proof {
                    assert(decreases_to!(value@ => value@->Object_0));
                    assert(decreases_to!(o@ => o@[i as int]));
                    assert(decreases_to!(o@[i as int] => o@[i as int].1));
                }
                out.push((o.key_at(i).clone(), compact_jsonschema(o.value_at(i), keep_descriptions, max_desc)));
                i = i + 1;
            }
            proof {
                let want = compacted_named(value@, keep_descriptions, max_desc as nat)->Object_0;
                assert(entry_views(out@) =~= want);
                assert forall|a: int, b: int| 0 <= a < b < want.len() implies text_less(
                    (#[trigger] want[a]).0,
                    (#[trigger] want[b]).0,
                ) by {
                    assert(want[a].0 == o@[a].0 && want[b].0 == o@[b].0);
                }
            }
            Json::Object(JsonObject::from_ascending(out))
        },
        _ => compact_jsonschema(value, keep_descriptions, max_desc),
    }
}

/// Cuts a text to `max_chars` characters, with an ellipsis where some were cut off.
pub fn truncate(s: &str, max_chars: usize) -> (r: String)
    ensures
        r@ == truncated(s@, max_chars as nat),
{
    if s.unicode_len() <= max_chars {
        return s.to_owned();
    }
    let mut out = take_chars(s, max_chars);
    out.push('…');
    out
}

} // verus!
