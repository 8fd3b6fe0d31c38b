//! What a signature says of a schema.
use vstd::prelude::*;

use crate::compactor::{array_type_text, branches, field_texts, key_text, literal_text, named_type_text};
use crate::compactor::{identifier_tail, is_identifier, named_type_texts, object_type_text, quoted, signature_text};
use crate::compactor::{type_text, type_texts};
use crate::json::{ascending, listed_strings, strings, JsonView, Members};
use crate::text::{begins_with, joined, quotes_escaped, text_less};
use crate::wire::{json_text, scalar_text};

verus! {

/// The first keyword that applies decides the type, whatever else the schema
/// holds: `const`, an `enum` that is not empty, such an `anyOf`, `oneOf` or
/// `allOf`, then `type`, and without one `properties` or `items`.
pub proof fn lemma_first_keyword_decides(schema: JsonView)
    ensures
        match schema.get("const"@) {
            Some(c) => type_text(schema) == literal_text(c),
            None => match branches(schema, "enum"@) {
                Some(values) => type_text(schema) == joined(values.map_values(|v: JsonView| literal_text(v)), "|"@),
                None => match branches(schema, "anyOf"@) {
                    Some(subs) => type_text(schema) == joined(type_texts(subs), "|"@),
                    None => match branches(schema, "oneOf"@) {
                        Some(subs) => type_text(schema) == joined(type_texts(subs), "|"@),
                        None => match branches(schema, "allOf"@) {
                            Some(subs) => type_text(schema) == joined(type_texts(subs), "&"@),
                            None => match schema.get("type"@) {
                                Some(JsonView::Str(name)) => type_text(schema) == named_type_text(name, schema),
                                Some(JsonView::Array(names)) => type_text(schema) == joined(
                                    named_type_texts(strings(names), schema),
                                    "|"@,
                                ),
                                _ => if schema.get("properties"@) is Some {
                                    type_text(schema) == object_type_text(schema)
                                } else if schema.get("items"@) is Some {
                                    type_text(schema) == array_type_text(schema)
                                } else {
                                    type_text(schema) == "any"@
                                },
                            },
                        },
                    },
                },
            },
        },
{
}

/// The type of an object with properties has exactly one field for each of
/// them, and the fields stand in ascending order of the properties' names; a
/// field that is not required is marked. So a schema has one signature.
pub proof fn lemma_object_type_has_a_field_for_each_property(schema: JsonView)
    requires
        schema.get_object("properties"@) is Some,
        (schema.get_object("properties"@)->0).len() > 0,
        ascending(schema.get_object("properties"@)->0),
    ensures
        ({
            let properties = schema.get_object("properties"@)->0;
            let required = listed_strings(schema, "required"@);
            let fields = field_texts(properties, required);
            &&& object_type_text(schema) == "{"@ + joined(fields, ","@) + "}"@
            &&& fields.len() == properties.len()
            &&& forall|i: int|
                0 <= i < properties.len() ==> #[trigger] fields[i] == key_text(properties[i].0) + (
                if required.contains(properties[i].0) {
                    ""@
                } else {
                    "?"@
                }) + ":"@ + type_text(properties[i].1)
            &&& forall|i: int, j: int|
                0 <= i < j < properties.len() ==> text_less((#[trigger] properties[i]).0, (#[trigger] properties[j]).0)
        }),
{
}

// ---------------------------------------------------------------------------
// Names and literals
// ---------------------------------------------------------------------------

proof fn lemma_type_names()
    ensures
        "string"@ != "number"@ && "string"@ != "integer"@ && "string"@ != "boolean"@ && "string"@ != "null"@,
        "string"@ != "array"@ && "string"@ != "object"@ && "number"@ != "integer"@ && "number"@ != "boolean"@,
        "number"@ != "null"@ && "number"@ != "array"@ && "number"@ != "object"@ && "integer"@ != "boolean"@,
        "integer"@ != "null"@ && "integer"@ != "array"@ && "integer"@ != "object"@ && "boolean"@ != "null"@,
        "boolean"@ != "array"@ && "boolean"@ != "object"@ && "null"@ != "array"@ && "null"@ != "object"@,
        "array"@ != "object"@,
{
    reveal_strlit("string");
    reveal_strlit("number");
    reveal_strlit("integer");
    reveal_strlit("boolean");
    reveal_strlit("null");
    reveal_strlit("array");
    reveal_strlit("object");
    assert("string"@.len() == 6 && "string"@[0] == 's');
    assert("number"@.len() == 6 && "number"@[0] == 'n');
    assert("integer"@.len() == 7 && "integer"@[0] == 'i');
    assert("boolean"@.len() == 7 && "boolean"@[0] == 'b');
    assert("null"@.len() == 4 && "array"@.len() == 5);
    assert("object"@.len() == 6 && "object"@[0] == 'o');
}

/// What each name of a primitive type is shown as: both kinds of numbers are
/// `number`, the other primitive types and unknown names are themselves.
pub proof fn lemma_primitive_types(name: Seq<char>, schema: JsonView)
    ensures
        named_type_text("string"@, schema) == "string"@,
        named_type_text("number"@, schema) == "number"@,
        named_type_text("integer"@, schema) == "number"@,
        named_type_text("boolean"@, schema) == "boolean"@,
        named_type_text("null"@, schema) == "null"@,
        name != "integer"@ && name != "array"@ && name != "object"@ ==> named_type_text(name, schema) == name,
{
    lemma_type_names();
}

/// A string literal stands in quotation marks, with those inside it escaped;
/// any other literal is its JSON text.
pub proof fn lemma_literals(v: JsonView)
    ensures
        v matches JsonView::Str(s) ==> {
            let out = literal_text(v);
            &&& out.len() >= 2
            &&& out[0] == '"'
            &&& out[out.len() - 1] == '"'
            &&& out.subrange(1, out.len() - 1) == quotes_escaped(s)
        },
        !(v is Str) && scalar_text(v) is Some ==> literal_text(v) == scalar_text(v)->0,
        !(v is Str) && scalar_text(v) is None ==> literal_text(v) == json_text(v),
{
    if let JsonView::Str(s) = v {
        lemma_quoted(s);
    }
}

proof fn lemma_quoted(s: Seq<char>)
    ensures
        ({
            let out = quoted(s);
            &&& out.len() == quotes_escaped(s).len() + 2
            &&& out[0] == '"'
            &&& out[out.len() - 1] == '"'
            &&& out.subrange(1, out.len() - 1) == quotes_escaped(s)
        }),
{
    reveal_strlit("\"");
    assert("\""@.len() == 1 && "\""@[0] == '"');
    let out = quoted(s);
    assert(out.subrange(1, out.len() - 1) =~= quotes_escaped(s));
}

/// Whether a character may stand at its place in a name without quotation marks; a digit may not stand in front.
pub open spec fn bare_char(name: Seq<char>, i: int) -> bool {
    let c = name[i];
    ||| 'a' <= c && c <= 'z'
    ||| 'A' <= c && c <= 'Z'
    ||| c == '_'
    ||| c == '$'
    ||| i > 0 && '0' <= c && c <= '9'
}

/// A property name is shown bare exactly if it is made of ASCII letters,
/// digits, `_` and `$`, is not empty and has no digit in front; otherwise it
/// stands in quotation marks, with those inside it escaped.
pub proof fn lemma_property_names(key: Seq<char>)
    ensures
        (key.len() > 0 && forall|i: int| 0 <= i < key.len() ==> #[trigger] bare_char(key, i)) ==> key_text(key)
            == key,
        !(key.len() > 0 && forall|i: int| 0 <= i < key.len() ==> #[trigger] bare_char(key, i)) ==> {
            let out = key_text(key);
            &&& out.len() >= 2
            &&& out[0] == '"'
            &&& out[out.len() - 1] == '"'
            &&& out.subrange(1, out.len() - 1) == quotes_escaped(key)
        },
{
    lemma_quoted(key);
    if key.len() > 0 && forall|i: int| 0 <= i < key.len() ==> #[trigger] bare_char(key, i) {
        assert(bare_char(key, 0));
        assert forall|i: int| 1 <= i < key.len() implies identifier_tail(#[trigger] key[i]) by {
            assert(bare_char(key, i));
        }
        assert(key_text(key) == key);
    } else if key_text(key) == key && key.len() > 0 && is_identifier(key) {
        assert forall|i: int| 0 <= i < key.len() implies #[trigger] bare_char(key, i) by {
            if i > 0 {
                assert(identifier_tail(key[i]));
            }
        }
    }
}

// ---------------------------------------------------------------------------
// Arrays, objects and lists of types
// ---------------------------------------------------------------------------

/// The type of an array of items of one schema is the items' type followed by
/// the array marker, in parentheses exactly if it is a union or an
/// intersection; a tuple lists its types in brackets, and without a schema for
/// the items they are `any`.
pub proof fn lemma_array_types(schema: JsonView)
    ensures
        ({
            let out = named_type_text("array"@, schema);
            let n = out.len() as int;
            match schema.get("items"@) {
                Some(JsonView::Object(members)) => {
                    let inner = type_text(JsonView::Object(members));
                    let grouped = inner.contains('|') || inner.contains('&');
                    &&& n == inner.len() + (if grouped {
                        4int
                    } else {
                        2int
                    })
                    &&& out[n - 2] == '[' && out[n - 1] == ']'
                    &&& grouped ==> out[0] == '(' && out[n - 3] == ')' && out.subrange(1, n - 3) == inner
                    &&& !grouped ==> out.take(n - 2) == inner
                },
                Some(JsonView::Array(tuple)) => {
                    &&& n >= 2 && out[0] == '[' && out[n - 1] == ']'
                    &&& out.subrange(1, n - 1) == joined(type_texts(tuple), ","@)
                },
                _ => out == "any[]"@,
            }
        }),
{
    lemma_type_names();
    reveal_strlit("[]");
    reveal_strlit("(");
    reveal_strlit(")[]");
    reveal_strlit("[");
    reveal_strlit("]");
    assert("[]"@.len() == 2 && "[]"@[0] == '[' && "[]"@[1] == ']');
    assert("("@.len() == 1 && "("@[0] == '(');
    assert(")[]"@.len() == 3 && ")[]"@[0] == ')' && ")[]"@[1] == '[' && ")[]"@[2] == ']');
    assert("["@.len() == 1 && "["@[0] == '[');
    assert("]"@.len() == 1 && "]"@[0] == ']');
    let out = named_type_text("array"@, schema);
    let n = out.len() as int;
    match schema.get("items"@) {
        Some(JsonView::Object(members)) => {
            let inner = type_text(JsonView::Object(members));
            if inner.contains('|') || inner.contains('&') {
                assert(out.subrange(1, n - 3) =~= inner);
            } else {
                assert(out.take(n - 2) =~= inner);
            }
        },
        Some(JsonView::Array(tuple)) => {
            assert(out.subrange(1, n - 1) =~= joined(type_texts(tuple), ","@));
        },
        _ => {},
    }
}

/// The type of an object stands in braces, with its fields joined by commas; an
/// object without declared properties is a record of what other properties may be.
pub proof fn lemma_object_types(schema: JsonView)
    ensures
        ({
            let out = named_type_text("object"@, schema);
            let n = out.len() as int;
            match schema.get("properties"@) {
                Some(JsonView::Object(properties)) if properties.len() > 0 => {
                    &&& n >= 2 && out[0] == '{' && out[n - 1] == '}'
                    &&& out.subrange(1, n - 1) == joined(
                        field_texts(properties, listed_strings(schema, "required"@)),
                        ","@,
                    )
                },
                _ => match schema.get("additionalProperties"@) {
                    Some(JsonView::Object(members)) => out == "Record<string,"@ + type_text(JsonView::Object(members))
                        + ">"@,
                    Some(JsonView::Bool(false)) => out == seq!['{', '}'],
                    _ => out == "Record<string,any>"@,
                },
            }
        }),
{
    lemma_type_names();
    reveal_strlit("{");
    reveal_strlit("}");
    reveal_strlit("{}");
    assert("{"@.len() == 1 && "{"@[0] == '{');
    assert("}"@.len() == 1 && "}"@[0] == '}');
    assert("{}"@.len() == 2 && "{}"@[0] == '{' && "{}"@[1] == '}');
    assert("{}"@ =~= seq!['{', '}']);
    let out = named_type_text("object"@, schema);
    let n = out.len() as int;
    if let Some(JsonView::Object(properties)) = schema.get("properties"@) {
        if properties.len() > 0 {
            assert(out.subrange(1, n - 1) =~= joined(
                field_texts(properties, listed_strings(schema, "required"@)),
                ","@,
            ));
        }
    }
}

/// A schema without a `type` that says so is an object where it has
/// properties, an array where it has items, and anything otherwise.
pub proof fn lemma_types_by_shape(schema: JsonView)
    requires
        schema.get("const"@) is None,
        branches(schema, "enum"@) is None,
        branches(schema, "anyOf"@) is None,
        branches(schema, "oneOf"@) is None,
        branches(schema, "allOf"@) is None,
        schema.get("type"@) matches Some(t) ==> !(t is Str) && !(t is Array),
    ensures
        schema.get("properties"@) is Some ==> type_text(schema) == named_type_text("object"@, schema),
        schema.get("properties"@) is None && schema.get("items"@) is Some ==> type_text(schema) == named_type_text(
            "array"@,
            schema,
        ),
        schema.get("properties"@) is None && schema.get("items"@) is None ==> type_text(schema) == "any"@,
        object_type_text(schema) == named_type_text("object"@, schema),
{
    lemma_type_names();
}

/// Each field of an object is its name, a question mark exactly if the property is not required, a colon and its type.
pub proof fn lemma_fields(properties: Members, required: Seq<Seq<char>>, i: int)
    requires
        0 <= i < properties.len(),
    ensures
        field_texts(properties, required).len() == properties.len(),
        required.contains(properties[i].0) ==> field_texts(properties, required)[i] == key_text(properties[i].0) + seq![
            ':',
        ] + type_text(properties[i].1),
        !required.contains(properties[i].0) ==> field_texts(properties, required)[i] == key_text(properties[i].0)
            + seq!['?', ':'] + type_text(properties[i].1),
{
    reveal_strlit("");
    reveal_strlit("?");
    reveal_strlit(":");
    assert(""@.len() == 0);
    assert("?"@.len() == 1 && "?"@[0] == '?');
    assert(":"@.len() == 1 && ":"@[0] == ':');
    let key = key_text(properties[i].0);
    let t = type_text(properties[i].1);
    assert(key + ""@ + ":"@ + t =~= key + seq![':'] + t);
    assert(key + "?"@ + ":"@ + t =~= key + seq!['?', ':'] + t);
}

/// A list of schemas has a type for each, and a list of type names too, in order.
pub proof fn lemma_lists_of_types(schemas: Seq<JsonView>, names: Seq<Seq<char>>, schema: JsonView, i: int)
    ensures
        type_texts(schemas).len() == schemas.len(),
        0 <= i < schemas.len() ==> type_texts(schemas)[i] == type_text(schemas[i]),
        named_type_texts(names, schema).len() == names.len(),
        0 <= i < names.len() ==> named_type_texts(names, schema)[i] == named_type_text(names[i], schema),
{
}

/// A combinator counts exactly if it is an array that is not empty.
pub proof fn lemma_branches_that_count(schema: JsonView, key: Seq<char>)
    ensures
        match schema.get(key) {
            Some(JsonView::Array(items)) if items.len() > 0 => branches(schema, key) == Some(items),
            _ => branches(schema, key) is None,
        },
{
}

/// A tool's signature line names the tool and then its arguments' type.
pub proof fn lemma_signature_line(name: Seq<char>, schema: JsonView)
    ensures
        signature_text(name, schema) == "type "@ + name + " = (p:"@ + type_text(schema) + ")=>any;"@,
        begins_with(signature_text(name, schema), "type "@ + name),
{
    let front = "type "@ + name;
    assert(signature_text(name, schema).take(front.len() as int) =~= front);
}

} // verus!
