//! Compaction loses nothing that matters to a call.
//!
//! A compacted schema accepts exactly the arguments that the full one accepts,
//! has the same signature, holds no metadata, and does not change when it is
//! compacted again.
use vstd::prelude::*;

use crate::compactor::{compacted, compacted_member, compacted_members, compacted_named};
use crate::compactor::{array_type_text, branches, field_texts, named_type_text, named_type_texts, object_type_text};
use crate::compactor::{is_literal_key, is_metadata_key, is_naming_key, truncated, type_text, type_texts};
use crate::json::{ascending, key_index, listed_strings, member, strings, JsonView, Members};
use crate::json::{lemma_get_array_smaller, lemma_get_smaller};
use crate::json::{lemma_key_index, lemma_key_index_unique, lemma_push_member};
use crate::text::{lemma_text_less_irreflexive, text_less};
use crate::validator::{all_accept, any_accepts, bound, content_valid, item_rule, item_valid, limit};
use crate::validator::{member_rule, member_valid, one_accepts, type_allowed, valid, MemberRule};
use crate::validator::{lemma_item_rule_smaller, lemma_member_rule_smaller};

verus! {

// ---------------------------------------------------------------------------
// What compaction leaves of a schema's keywords
// ---------------------------------------------------------------------------

/// Whether compaction keeps a keyword.
pub open spec fn is_kept_key(key: Seq<char>) -> bool {
    !is_metadata_key(key) && key != "description"@
}

/// A kept keyword is still there, with its value compacted, and no other one appears.
proof fn lemma_compacted_member(members: Members, key: Seq<char>, keep: bool, max: nat)
    requires
        is_kept_key(key),
    ensures
        member(compacted_members(members, keep, max), key) == match member(members, key) {
            Some(v) => compacted_member(key, v, keep, max),
            None => None,
        },
    decreases members.len(),
{
    if members.len() > 0 {
        let rest = members.drop_last();
        let last = members[members.len() - 1];
        lemma_compacted_member(rest, key, keep, max);
        assert(members =~= rest.push(last));
        lemma_push_member(rest, last, key);
        let kept = compacted_members(rest, keep, max);
        if let Some(v) = compacted_member(last.0, last.1, keep, max) {
            lemma_push_member(kept, (last.0, v), key);
        }
    }
}

proof fn lemma_compacted_get(s: JsonView, key: Seq<char>, keep: bool, max: nat)
    requires
        is_kept_key(key),
    ensures
        compacted(s, keep, max).get(key) == match s.get(key) {
            Some(v) => compacted_member(key, v, keep, max),
            None => None,
        },
{
    if let JsonView::Object(members) = s {
        lemma_compacted_member(members, key, keep, max);
    }
}

/// A name that the author chose is still there, with its schema compacted.
proof fn lemma_named_member(value: JsonView, key: Seq<char>, keep: bool, max: nat)
    requires
        value is Object,
    ensures
        compacted_named(value, keep, max) is Object,
        member(compacted_named(value, keep, max)->Object_0, key) == match member(value->Object_0, key) {
            Some(v) => Some(compacted(v, keep, max)),
            None => None,
        },
{
    let members = value->Object_0;
    let out = compacted_named(value, keep, max)->Object_0;
    lemma_key_index(members, key);
    let i = key_index(members, key);
    assert forall|j: int| 0 <= j < i implies (#[trigger] out[j]).0 != key by {
        assert(members[j].0 != key);
    }
    lemma_key_index_unique(out, key, i);
}

/// The strings of an array are not touched by compaction.
proof fn lemma_compacted_strings(items: Seq<JsonView>, keep: bool, max: nat)
    ensures
        strings(compacted(JsonView::Array(items), keep, max)->Array_0) == strings(items),
    decreases items.len(),
{
    let out = compacted(JsonView::Array(items), keep, max)->Array_0;
    if items.len() > 0 {
        lemma_compacted_strings(items.drop_last(), keep, max);
        let rest = compacted(JsonView::Array(items.drop_last()), keep, max)->Array_0;
        assert(out.drop_last() =~= rest) by {
            assert forall|i: int| 0 <= i < rest.len() implies out.drop_last()[i] == rest[i] by {
                assert(items.drop_last()[i] == items[i]);
            }
        }
        assert(out.last() == compacted(items.last(), keep, max));
    } else {
        assert(out =~= items);
    }
}

/// Which keywords stay as they are, and which hold schemas.
proof fn lemma_keywords()
    ensures
        is_kept_key("const"@) && is_literal_key("const"@),
        is_kept_key("enum"@) && is_literal_key("enum"@),
        is_kept_key("properties"@) && !is_literal_key("properties"@) && is_naming_key("properties"@),
        is_kept_key("type"@) && !is_literal_key("type"@) && !is_naming_key("type"@),
        is_kept_key("anyOf"@) && !is_literal_key("anyOf"@) && !is_naming_key("anyOf"@),
        is_kept_key("oneOf"@) && !is_literal_key("oneOf"@) && !is_naming_key("oneOf"@),
        is_kept_key("allOf"@) && !is_literal_key("allOf"@) && !is_naming_key("allOf"@),
        is_kept_key("items"@) && !is_literal_key("items"@) && !is_naming_key("items"@),
        is_kept_key("required"@) && !is_literal_key("required"@) && !is_naming_key("required"@),
        is_kept_key("additionalProperties"@) && !is_literal_key("additionalProperties"@) && !is_naming_key(
            "additionalProperties"@,
        ),
        is_kept_key("minItems"@) && !is_literal_key("minItems"@) && !is_naming_key("minItems"@),
        is_kept_key("maxItems"@) && !is_literal_key("maxItems"@) && !is_naming_key("maxItems"@),
        is_kept_key("minLength"@) && !is_literal_key("minLength"@) && !is_naming_key("minLength"@),
        is_kept_key("maxLength"@) && !is_literal_key("maxLength"@) && !is_naming_key("maxLength"@),
        is_kept_key("minimum"@) && !is_literal_key("minimum"@) && !is_naming_key("minimum"@),
        is_kept_key("maximum"@) && !is_literal_key("maximum"@) && !is_naming_key("maximum"@),
{
    reveal_strlit("$schema");
    reveal_strlit("$id");
    reveal_strlit("$comment");
    reveal_strlit("title");
    reveal_strlit("examples");
    reveal_strlit("default");
    reveal_strlit("readOnly");
    reveal_strlit("writeOnly");
    reveal_strlit("deprecated");
    reveal_strlit("description");
    reveal_strlit("const");
    reveal_strlit("enum");
    reveal_strlit("properties");
    reveal_strlit("patternProperties");
    reveal_strlit("definitions");
    reveal_strlit("$defs");
    reveal_strlit("dependencies");
    reveal_strlit("dependentSchemas");
    reveal_strlit("dependentRequired");
    reveal_strlit("type");
    reveal_strlit("anyOf");
    reveal_strlit("oneOf");
    reveal_strlit("allOf");
    reveal_strlit("items");
    reveal_strlit("required");
    reveal_strlit("additionalProperties");
    reveal_strlit("minItems");
    reveal_strlit("maxItems");
    reveal_strlit("minLength");
    reveal_strlit("maxLength");
    reveal_strlit("minimum");
    reveal_strlit("maximum");
    assert("$schema"@.len() == 7 && "$schema"@[0] == '$');
    assert("$id"@.len() == 3);
    assert("$comment"@.len() == 8 && "$comment"@[0] == '$');
    assert("title"@.len() == 5 && "title"@[0] == 't');
    assert("examples"@.len() == 8 && "examples"@[0] == 'e');
    assert("default"@.len() == 7 && "default"@[0] == 'd');
    assert("readOnly"@.len() == 8 && "readOnly"@[0] == 'r' && "readOnly"@[2] == 'a');
    assert("writeOnly"@.len() == 9 && "writeOnly"@[0] == 'w');
    assert("deprecated"@.len() == 10 && "deprecated"@[0] == 'd');
    assert("description"@.len() == 11 && "description"@[2] == 's');
    assert("const"@.len() == 5 && "const"@[0] == 'c');
    assert("enum"@.len() == 4 && "enum"@[0] == 'e');
    assert("properties"@.len() == 10 && "properties"@[0] == 'p');
    assert("patternProperties"@.len() == 17);
    assert("definitions"@.len() == 11 && "definitions"@[2] == 'f');
    assert("$defs"@.len() == 5 && "$defs"@[0] == '$');
    assert("dependencies"@.len() == 12);
    assert("dependentSchemas"@.len() == 16);
    assert("dependentRequired"@.len() == 17);
    assert("type"@.len() == 4 && "type"@[0] == 't');
    assert("anyOf"@.len() == 5 && "anyOf"@[0] == 'a');
    assert("oneOf"@.len() == 5 && "oneOf"@[0] == 'o');
    assert("allOf"@.len() == 5 && "allOf"@[0] == 'a');
    assert("items"@.len() == 5 && "items"@[0] == 'i');
    assert("required"@.len() == 8 && "required"@[0] == 'r' && "required"@[2] == 'q');
    assert("additionalProperties"@.len() == 20);
    assert("minItems"@.len() == 8 && "minItems"@[0] == 'm');
    assert("maxItems"@.len() == 8 && "maxItems"@[0] == 'm');
    assert("minLength"@.len() == 9 && "minLength"@[0] == 'm');
    assert("maxLength"@.len() == 9 && "maxLength"@[0] == 'm');
    assert("minimum"@.len() == 7 && "minimum"@[0] == 'm');
    assert("maximum"@.len() == 7 && "maximum"@[0] == 'm');
}

// ---------------------------------------------------------------------------
// The same arguments are accepted
// ---------------------------------------------------------------------------

proof fn lemma_compacted_type_allowed(value: JsonView, schema: JsonView, keep: bool, max: nat)
    ensures
        type_allowed(value, compacted(schema, keep, max)) == type_allowed(value, schema),
{
    lemma_keywords();
    lemma_compacted_get(schema, "type"@, keep, max);
    if let Some(JsonView::Array(names)) = schema.get("type"@) {
        lemma_compacted_strings(names, keep, max);
    }
}

proof fn lemma_compacted_required(schema: JsonView, keep: bool, max: nat)
    ensures
        listed_strings(compacted(schema, keep, max), "required"@) == listed_strings(schema, "required"@),
{
    lemma_keywords();
    lemma_compacted_get(schema, "required"@, keep, max);
    if let Some(JsonView::Array(names)) = schema.get("required"@) {
        lemma_compacted_strings(names, keep, max);
    }
}

proof fn lemma_compacted_bounds(schema: JsonView, keep: bool, max: nat)
    ensures
        bound(compacted(schema, keep, max), "minItems"@) == bound(schema, "minItems"@),
        bound(compacted(schema, keep, max), "maxItems"@) == bound(schema, "maxItems"@),
        bound(compacted(schema, keep, max), "minLength"@) == bound(schema, "minLength"@),
        bound(compacted(schema, keep, max), "maxLength"@) == bound(schema, "maxLength"@),
        limit(compacted(schema, keep, max), "minimum"@) == limit(schema, "minimum"@),
        limit(compacted(schema, keep, max), "maximum"@) == limit(schema, "maximum"@),
{
    lemma_keywords();
    lemma_compacted_get(schema, "minItems"@, keep, max);
    lemma_compacted_get(schema, "maxItems"@, keep, max);
    lemma_compacted_get(schema, "minLength"@, keep, max);
    lemma_compacted_get(schema, "maxLength"@, keep, max);
    lemma_compacted_get(schema, "minimum"@, keep, max);
    lemma_compacted_get(schema, "maximum"@, keep, max);
}

proof fn lemma_compacted_member_rule(schema: JsonView, key: Seq<char>, keep: bool, max: nat)
    ensures
        member_rule(compacted(schema, keep, max), key) == match member_rule(schema, key) {
            MemberRule::Governed(sub) => MemberRule::Governed(compacted(sub, keep, max)),
            other => other,
        },
{
    lemma_keywords();
    lemma_compacted_get(schema, "properties"@, keep, max);
    lemma_compacted_get(schema, "additionalProperties"@, keep, max);
    if let Some(properties) = schema.get("properties"@) {
        if properties is Object {
            lemma_named_member(properties, key, keep, max);
        }
    }
}

proof fn lemma_compacted_item_rule(schema: JsonView, i: int, keep: bool, max: nat)
    ensures
        item_rule(compacted(schema, keep, max), i) == match item_rule(schema, i) {
            Some(sub) => Some(compacted(sub, keep, max)),
            None => None,
        },
{
    lemma_keywords();
    lemma_compacted_get(schema, "items"@, keep, max);
}

/// The branches of a combinator are compacted one for one.
proof fn lemma_compacted_branches(schema: JsonView, key: Seq<char>, keep: bool, max: nat)
    requires
        is_kept_key(key),
        !is_literal_key(key),
        !is_naming_key(key),
    ensures
        match (schema.get_array(key), compacted(schema, keep, max).get_array(key)) {
            (Some(subs), Some(out)) => {
                &&& out.len() == subs.len()
                &&& forall|i: int| 0 <= i < subs.len() ==> #[trigger] out[i] == compacted(subs[i], keep, max)
            },
            (None, None) => true,
            _ => false,
        },
{
    lemma_compacted_get(schema, key, keep, max);
}

proof fn lemma_branches_keep_validity(value: JsonView, schema: JsonView, key: Seq<char>, keep: bool, max: nat)
    requires
        is_kept_key(key),
        !is_literal_key(key),
        !is_naming_key(key),
    ensures
        match (schema.get_array(key), compacted(schema, keep, max).get_array(key)) {
            (Some(subs), Some(out)) => {
                &&& any_accepts(value, out) <==> any_accepts(value, subs)
                &&& one_accepts(value, out) <==> one_accepts(value, subs)
                &&& all_accept(value, out) <==> all_accept(value, subs)
            },
            (None, None) => true,
            _ => false,
        },
    decreases schema, 0nat,
{
    lemma_compacted_branches(schema, key, keep, max);
    lemma_get_array_smaller(schema, key);
    if let (Some(subs), Some(out)) = (schema.get_array(key), compacted(schema, keep, max).get_array(key)) {
        assert forall|i: int| 0 <= i < subs.len() implies valid(value, #[trigger] out[i]) == valid(
            value,
            subs[i],
        ) by {
            assert(decreases_to!(subs => subs[i]));
            lemma_compaction_keeps_validity(value, subs[i], keep, max);
        }
        assert(accept_alike(value, subs, out));
        lemma_same_acceptance(value, subs, out);
    }
}

/// Whether two lists of branches accept the value one for one.
spec fn accept_alike(value: JsonView, a: Seq<JsonView>, b: Seq<JsonView>) -> bool {
    &&& a.len() == b.len()
    &&& forall|i: int| 0 <= i < a.len() ==> valid(value, #[trigger] b[i]) == valid(value, a[i])
}

proof fn lemma_accept_alike_symmetric(value: JsonView, a: Seq<JsonView>, b: Seq<JsonView>)
    requires
        accept_alike(value, a, b),
    ensures
        accept_alike(value, b, a),
{
    assert forall|i: int| 0 <= i < b.len() implies valid(value, #[trigger] a[i]) == valid(value, b[i]) by {
        assert(valid(value, b[i]) == valid(value, a[i]));
    }
}

proof fn lemma_any_accepts_alike(value: JsonView, a: Seq<JsonView>, b: Seq<JsonView>)
    requires
        accept_alike(value, a, b),
        any_accepts(value, a),
    ensures
        any_accepts(value, b),
{
    let i = choose|i: int| 0 <= i < a.len() && valid(value, #[trigger] a[i]);
    assert(valid(value, b[i]));
}

proof fn lemma_one_accepts_alike(value: JsonView, a: Seq<JsonView>, b: Seq<JsonView>)
    requires
        accept_alike(value, a, b),
        one_accepts(value, a),
    ensures
        one_accepts(value, b),
{
    let i = choose|i: int|
        {
            &&& 0 <= i < a.len()
            &&& valid(value, #[trigger] a[i])
            &&& forall|j: int| 0 <= j < a.len() && j != i ==> !valid(value, #[trigger] a[j])
        };
    assert(valid(value, b[i]));
    assert forall|j: int| 0 <= j < b.len() && j != i implies !valid(value, #[trigger] b[j]) by {
        assert(!valid(value, a[j]));
    }
}

proof fn lemma_all_accept_alike(value: JsonView, a: Seq<JsonView>, b: Seq<JsonView>)
    requires
        accept_alike(value, a, b),
        all_accept(value, a),
    ensures
        all_accept(value, b),
{
    assert forall|i: int| 0 <= i < b.len() implies valid(value, #[trigger] b[i]) by {
        assert(valid(value, a[i]));
    }
}

/// Branches that accept the value one for one do so in every combination.
proof fn lemma_same_acceptance(value: JsonView, a: Seq<JsonView>, b: Seq<JsonView>)
    requires
        accept_alike(value, a, b),
    ensures
        any_accepts(value, b) <==> any_accepts(value, a),
        one_accepts(value, b) <==> one_accepts(value, a),
        all_accept(value, b) <==> all_accept(value, a),
{
    lemma_accept_alike_symmetric(value, a, b);
    if any_accepts(value, a) {
        lemma_any_accepts_alike(value, a, b);
    }
    if any_accepts(value, b) {
        lemma_any_accepts_alike(value, b, a);
    }
    if one_accepts(value, a) {
        lemma_one_accepts_alike(value, a, b);
    }
    if one_accepts(value, b) {
        lemma_one_accepts_alike(value, b, a);
    }
    if all_accept(value, a) {
        lemma_all_accept_alike(value, a, b);
    }
    if all_accept(value, b) {
        lemma_all_accept_alike(value, b, a);
    }
}

proof fn lemma_content_keeps_validity(value: JsonView, schema: JsonView, keep: bool, max: nat)
    ensures
        content_valid(value, compacted(schema, keep, max)) <==> content_valid(value, schema),
    decreases schema, 0nat,
{
    let out = compacted(schema, keep, max);
    lemma_compacted_required(schema, keep, max);
    lemma_compacted_bounds(schema, keep, max);
    match value {
        JsonView::Object(members) => {
            assert forall|i: int| 0 <= i < members.len() implies (member_valid(
                (#[trigger] members[i]).0,
                members[i].1,
                out,
            ) <==> member_valid(members[i].0, members[i].1, schema)) by {
                lemma_compacted_member_rule(schema, members[i].0, keep, max);
                lemma_member_rule_smaller(schema, members[i].0);
                if let MemberRule::Governed(sub) = member_rule(schema, members[i].0) {
                    lemma_compaction_keeps_validity(members[i].1, sub, keep, max);
                }
            }
        },
        JsonView::Array(items) => {
            assert forall|i: int| 0 <= i < items.len() implies (item_valid(i, #[trigger] items[i], out) <==> item_valid(
                i,
                items[i],
                schema,
            )) by {
                lemma_compacted_item_rule(schema, i, keep, max);
                lemma_item_rule_smaller(schema, i);
                if let Some(sub) = item_rule(schema, i) {
                    lemma_compaction_keeps_validity(items[i], sub, keep, max);
                }
            }
        },
        _ => {},
    }
}

/// Compaction does not change what a schema accepts: a value is valid under
/// the compacted schema exactly if it is valid under the full one.
pub proof fn lemma_compaction_keeps_validity(value: JsonView, schema: JsonView, keep: bool, max: nat)
    ensures
        valid(value, compacted(schema, keep, max)) <==> valid(value, schema),
    decreases schema, 1nat,
{
    lemma_keywords();
    lemma_compacted_get(schema, "const"@, keep, max);
    lemma_compacted_get(schema, "enum"@, keep, max);
    lemma_branches_keep_validity(value, schema, "anyOf"@, keep, max);
    lemma_branches_keep_validity(value, schema, "oneOf"@, keep, max);
    lemma_branches_keep_validity(value, schema, "allOf"@, keep, max);
    lemma_compacted_type_allowed(value, schema, keep, max);
    lemma_content_keeps_validity(value, schema, keep, max);
}

// ---------------------------------------------------------------------------
// The same signature is shown
// ---------------------------------------------------------------------------

proof fn lemma_branches_keep_signature(schema: JsonView, key: Seq<char>, keep: bool, max: nat)
    requires
        is_kept_key(key),
        !is_literal_key(key),
        !is_naming_key(key),
    ensures
        match (branches(schema, key), branches(compacted(schema, keep, max), key)) {
            (Some(subs), Some(out)) => type_texts(out) == type_texts(subs),
            (None, None) => true,
            _ => false,
        },
    decreases schema, 2nat,
{
    lemma_compacted_branches(schema, key, keep, max);
    lemma_get_array_smaller(schema, key);
    if let Some(subs) = branches(schema, key) {
        let out = compacted(schema, keep, max).get_array(key)->0;
        lemma_types_keep_signature(subs, keep, max);
        assert(out =~= compacted(JsonView::Array(subs), keep, max)->Array_0);
    }
}

proof fn lemma_types_keep_signature(subs: Seq<JsonView>, keep: bool, max: nat)
    ensures
        type_texts(compacted(JsonView::Array(subs), keep, max)->Array_0) == type_texts(subs),
    decreases subs, 4nat,
{
    let out = compacted(JsonView::Array(subs), keep, max)->Array_0;
    assert forall|i: int| 0 <= i < subs.len() implies type_text(#[trigger] out[i]) == type_text(subs[i]) by {
        assert(decreases_to!(subs => subs[i]));
        lemma_compaction_keeps_signature(subs[i], keep, max);
    }
    assert(type_texts(out) =~= type_texts(subs));
}

proof fn lemma_array_keeps_signature(schema: JsonView, keep: bool, max: nat)
    ensures
        array_type_text(compacted(schema, keep, max)) == array_type_text(schema),
    decreases schema, 0nat,
{
    lemma_keywords();
    lemma_compacted_get(schema, "items"@, keep, max);
    lemma_get_smaller(schema, "items"@);
    lemma_get_array_smaller(schema, "items"@);
    if let Some(items) = schema.get("items"@) {
        if items is Object {
            lemma_compaction_keeps_signature(items, keep, max);
        }
        if let JsonView::Array(tuple) = items {
            lemma_types_keep_signature(tuple, keep, max);
        }
    }
}

proof fn lemma_fields_keep_signature(properties: JsonView, required: Seq<Seq<char>>, keep: bool, max: nat)
    requires
        properties is Object,
    ensures
        compacted_named(properties, keep, max) is Object,
        field_texts(compacted_named(properties, keep, max)->Object_0, required) == field_texts(
            properties->Object_0,
            required,
        ),
    decreases properties, 4nat,
{
    let members = properties->Object_0;
    let out = compacted_named(properties, keep, max)->Object_0;
    assert forall|i: int| 0 <= i < members.len() implies (#[trigger] out[i]).0 == members[i].0 && type_text(out[i].1)
        == type_text(members[i].1) by {
        assert(decreases_to!(properties => members));
        assert(decreases_to!(members => members[i]));
        assert(decreases_to!(members[i] => members[i].1));
        lemma_compaction_keeps_signature(members[i].1, keep, max);
    }
    assert(field_texts(out, required) =~= field_texts(members, required));
}

proof fn lemma_object_keeps_signature(schema: JsonView, keep: bool, max: nat)
    ensures
        object_type_text(compacted(schema, keep, max)) == object_type_text(schema),
    decreases schema, 0nat,
{
    lemma_keywords();
    lemma_compacted_required(schema, keep, max);
    lemma_compacted_get(schema, "properties"@, keep, max);
    lemma_compacted_get(schema, "additionalProperties"@, keep, max);
    lemma_get_smaller(schema, "properties"@);
    lemma_get_smaller(schema, "additionalProperties"@);
    if let Some(properties) = schema.get("properties"@) {
        if properties is Object {
            lemma_fields_keep_signature(properties, listed_strings(schema, "required"@), keep, max);
        }
    }
    if let Some(extra) = schema.get("additionalProperties"@) {
        if extra is Object {
            lemma_compaction_keeps_signature(extra, keep, max);
        }
    }
}

proof fn lemma_names_keep_signature(names: Seq<Seq<char>>, schema: JsonView, keep: bool, max: nat)
    ensures
        named_type_texts(names, compacted(schema, keep, max)) == named_type_texts(names, schema),
    decreases schema, 2nat,
{
    let out = compacted(schema, keep, max);
    lemma_array_keeps_signature(schema, keep, max);
    lemma_object_keeps_signature(schema, keep, max);
    assert forall|i: int| 0 <= i < names.len() implies named_type_text(#[trigger] names[i], out) == named_type_text(
        names[i],
        schema,
    ) by {}
    assert(named_type_texts(names, out) =~= named_type_texts(names, schema));
}

/// Compaction does not change a schema's signature.
pub proof fn lemma_compaction_keeps_signature(schema: JsonView, keep: bool, max: nat)
    ensures
        type_text(compacted(schema, keep, max)) == type_text(schema),
    decreases schema, 3nat,
{
    lemma_keywords();
    lemma_compacted_get(schema, "const"@, keep, max);
    lemma_compacted_get(schema, "enum"@, keep, max);
    lemma_compacted_get(schema, "type"@, keep, max);
    lemma_compacted_get(schema, "properties"@, keep, max);
    lemma_compacted_get(schema, "items"@, keep, max);
    lemma_branches_keep_signature(schema, "anyOf"@, keep, max);
    lemma_branches_keep_signature(schema, "oneOf"@, keep, max);
    lemma_branches_keep_signature(schema, "allOf"@, keep, max);
    lemma_array_keeps_signature(schema, keep, max);
    lemma_object_keeps_signature(schema, keep, max);
    if let Some(JsonView::Array(names)) = schema.get("type"@) {
        lemma_compacted_strings(names, keep, max);
        lemma_names_keep_signature(strings(names), schema, keep, max);
    }
}

// ---------------------------------------------------------------------------
// What is left is lean, and stays as it is
// ---------------------------------------------------------------------------

/// Cutting a text keeps its beginning, adds at most the ellipsis, and does nothing to a text that was cut.
pub proof fn lemma_truncation(s: Seq<char>, max: nat)
    ensures
        truncated(s, max).len() <= max + 1,
        s.len() <= max ==> truncated(s, max) == s,
        s.len() > max ==> truncated(s, max).take(max as int) == s.take(max as int),
        s.len() > max ==> truncated(s, max).len() == max + 1 && truncated(s, max)[max as int] == '…',
        truncated(truncated(s, max), max) == truncated(s, max),
{
    let out = truncated(s, max);
    if s.len() > max {
        assert(out.take(max as int) =~= s.take(max as int));
    }
}

/// Whether a schema holds no metadata at any depth, and no description that is
/// not wanted or too long.
pub open spec fn lean(schema: JsonView, keep: bool, max: nat) -> bool
    decreases schema, 0nat,
{
    match schema {
        JsonView::Object(members) => forall|i: int|
            0 <= i < members.len() ==> lean_member((#[trigger] members[i]).0, members[i].1, keep, max),
        JsonView::Array(items) => forall|i: int| 0 <= i < items.len() ==> lean(#[trigger] items[i], keep, max),
        _ => true,
    }
}

/// Whether a keyword and what it holds are lean.
pub open spec fn lean_member(key: Seq<char>, value: JsonView, keep: bool, max: nat) -> bool
    decreases value, 1nat,
{
    &&& !is_metadata_key(key)
    &&& if key == "description"@ {
        keep && value is Str && value->Str_0.len() <= max + 1
    } else if is_literal_key(key) {
        true
    } else if is_naming_key(key) && value is Object {
        forall|i: int| 0 <= i < value->Object_0.len() ==> lean((#[trigger] value->Object_0[i]).1, keep, max)
    } else {
        lean(value, keep, max)
    }
}

proof fn lemma_member_lean(key: Seq<char>, value: JsonView, keep: bool, max: nat)
    ensures
        compacted_member(key, value, keep, max) matches Some(v) ==> lean_member(key, v, keep, max),
    decreases value, 1nat,
{
    if is_metadata_key(key) {
    } else if key == "description"@ {
        if let JsonView::Str(s) = value {
            lemma_truncation(s, max);
        }
    } else if is_literal_key(key) {
    } else if is_naming_key(key) && value is Object {
        let members = value->Object_0;
        let out = compacted_named(value, keep, max)->Object_0;
        assert forall|i: int| 0 <= i < out.len() implies lean((#[trigger] out[i]).1, keep, max) by {
            assert(decreases_to!(value => members));
            assert(decreases_to!(members => members[i]));
            assert(decreases_to!(members[i] => members[i].1));
            lemma_compaction_is_lean(members[i].1, keep, max);
        }
    } else {
        lemma_compaction_is_lean(value, keep, max);
    }
}

proof fn lemma_members_lean(members: Members, keep: bool, max: nat)
    ensures
        forall|i: int|
            0 <= i < compacted_members(members, keep, max).len() ==> lean_member(
                (#[trigger] compacted_members(members, keep, max)[i]).0,
                compacted_members(members, keep, max)[i].1,
                keep,
                max,
            ),
    decreases members, 2nat,
{
    if members.len() > 0 {
        let rest = members.drop_last();
        let last = members[members.len() - 1];
        assert(decreases_to!(members => rest));
        assert(decreases_to!(members => last));
        assert(decreases_to!(last => last.1));
        lemma_members_lean(rest, keep, max);
        lemma_member_lean(last.0, last.1, keep, max);
        let before = compacted_members(rest, keep, max);
        let out = compacted_members(members, keep, max);
        assert forall|i: int| 0 <= i < out.len() implies lean_member((#[trigger] out[i]).0, out[i].1, keep, max) by {
            if i < before.len() {
                assert(out[i] == before[i]);
            }
        }
    }
}

/// A compacted schema holds no metadata at any depth, and no description that
/// is not wanted or too long.
pub proof fn lemma_compaction_is_lean(schema: JsonView, keep: bool, max: nat)
    ensures
        lean(compacted(schema, keep, max), keep, max),
    decreases schema, 0nat,
{
    match schema {
        JsonView::Object(members) => {
            assert(decreases_to!(schema => members));
            lemma_members_lean(members, keep, max);
            let out = compacted_members(members, keep, max);
            assert(compacted(schema, keep, max) == JsonView::Object(out));
            assert forall|i: int| 0 <= i < out.len() implies lean_member(
                (#[trigger] out[i]).0,
                out[i].1,
                keep,
                max,
            ) by {}
            assert(lean(JsonView::Object(out), keep, max));
        },
        JsonView::Array(items) => {
            assert(decreases_to!(schema => items));
            let out = compacted(schema, keep, max)->Array_0;
            assert forall|i: int| 0 <= i < out.len() implies lean(#[trigger] out[i], keep, max) by {
                assert(decreases_to!(items => items[i]));
                lemma_compaction_is_lean(items[i], keep, max);
            }
        },
        _ => {},
    }
}

proof fn lemma_member_idempotent(key: Seq<char>, value: JsonView, keep: bool, max: nat)
    ensures
        compacted_member(key, value, keep, max) matches Some(v) ==> compacted_member(key, v, keep, max) == Some(v),
    decreases value, 1nat,
{
    if is_metadata_key(key) {
    } else if key == "description"@ {
        if let JsonView::Str(s) = value {
            lemma_truncation(s, max);
        }
    } else if is_literal_key(key) {
    } else if is_naming_key(key) && value is Object {
        let members = value->Object_0;
        let out = compacted_named(value, keep, max);
        let again = compacted_named(out, keep, max);
        assert forall|i: int| 0 <= i < members.len() implies #[trigger] again->Object_0[i] == out->Object_0[i] by {
            assert(decreases_to!(value => members));
            assert(decreases_to!(members => members[i]));
            assert(decreases_to!(members[i] => members[i].1));
            lemma_compaction_idempotent(members[i].1, keep, max);
        }
        assert(again->Object_0 =~= out->Object_0);
    } else {
        lemma_compaction_idempotent(value, keep, max);
        assert(compacted(value, keep, max) is Object ==> value is Object);
    }
}

proof fn lemma_members_idempotent(members: Members, keep: bool, max: nat)
    ensures
        compacted_members(compacted_members(members, keep, max), keep, max) == compacted_members(members, keep, max),
    decreases members, 2nat,
{
    if members.len() > 0 {
        let rest = members.drop_last();
        let last = members[members.len() - 1];
        assert(decreases_to!(members => rest));
        assert(decreases_to!(members => last));
        assert(decreases_to!(last => last.1));
        lemma_members_idempotent(rest, keep, max);
        lemma_member_idempotent(last.0, last.1, keep, max);
        let before = compacted_members(rest, keep, max);
        let out = compacted_members(members, keep, max);
        if let Some(v) = compacted_member(last.0, last.1, keep, max) {
            assert(out.drop_last() =~= before);
            assert(out[out.len() - 1] == (last.0, v));
        }
    }
}

/// Compacting a compacted schema changes nothing.
pub proof fn lemma_compaction_idempotent(schema: JsonView, keep: bool, max: nat)
    ensures
        compacted(compacted(schema, keep, max), keep, max) == compacted(schema, keep, max),
    decreases schema, 0nat,
{
    match schema {
        JsonView::Object(members) => {
            assert(decreases_to!(schema => members));
            lemma_members_idempotent(members, keep, max);
        },
        JsonView::Array(items) => {
            assert(decreases_to!(schema => items));
            let out = compacted(schema, keep, max);
            let again = compacted(out, keep, max);
            assert forall|i: int| 0 <= i < items.len() implies #[trigger] again->Array_0[i] == out->Array_0[i] by {
                assert(decreases_to!(items => items[i]));
                lemma_compaction_idempotent(items[i], keep, max);
            }
            assert(again->Array_0 =~= out->Array_0);
        },
        _ => {},
    }
}

/// Compaction keeps the name of every property, whatever it is, in order.
pub proof fn lemma_compaction_keeps_property_names(schema: JsonView, keep: bool, max: nat)
    ensures
        match (schema.get_object("properties"@), compacted(schema, keep, max).get_object("properties"@)) {
            (Some(properties), Some(out)) => {
                &&& out.len() == properties.len()
                &&& forall|i: int| 0 <= i < out.len() ==> (#[trigger] out[i]).0 == properties[i].0
            },
            (None, None) => true,
            _ => false,
        },
{
    lemma_keywords();
    lemma_compacted_get(schema, "properties"@, keep, max);
}

// ---------------------------------------------------------------------------
// What becomes of each keyword
// ---------------------------------------------------------------------------

/// A keyword other than the nine of pure metadata and `description` stays
/// exactly if it was there. A value that is neither an object nor an array
/// stays as it is, and so does every `const` and `enum`; any other array keeps
/// its length, with each item compacted.
pub proof fn lemma_other_keywords_stay(s: JsonView, key: Seq<char>, keep: bool, max: nat)
    requires
        key != "$schema"@ && key != "$id"@ && key != "$comment"@ && key != "title"@ && key != "examples"@,
        key != "default"@ && key != "readOnly"@ && key != "writeOnly"@ && key != "deprecated"@,
        key != "description"@,
    ensures
        compacted(s, keep, max).get(key) is Some <==> s.get(key) is Some,
        s.get(key) matches Some(v) ==> {
            let out = compacted(s, keep, max).get(key)->0;
            &&& !(v is Object) && !(v is Array) ==> out == v
            &&& key == "const"@ || key == "enum"@ ==> out == v
            &&& key != "const"@ && key != "enum"@ ==> match v {
                JsonView::Array(items) => {
                    &&& out is Array && out->Array_0.len() == items.len()
                    &&& forall|i: int|
                        0 <= i < items.len() ==> #[trigger] out->Array_0[i] == compacted(items[i], keep, max)
                },
                JsonView::Object(_) => out is Object,
                _ => true,
            }
        },
{
    lemma_compacted_get(s, key, keep, max);
}

/// A keyword that holds schemas under chosen names keeps every name, in order
/// and with its schema compacted, though the name be that of a keyword; any
/// other object is compacted as a schema.
pub proof fn lemma_chosen_names_stay(s: JsonView, key: Seq<char>, keep: bool, max: nat)
    requires
        key != "$schema"@ && key != "$id"@ && key != "$comment"@ && key != "title"@ && key != "examples"@,
        key != "default"@ && key != "readOnly"@ && key != "writeOnly"@ && key != "deprecated"@,
        key != "description"@ && key != "const"@ && key != "enum"@,
        s.get(key) matches Some(JsonView::Object(_)),
    ensures
        ({
            let members = s.get(key)->0->Object_0;
            let out = compacted(s, keep, max).get(key)->0;
            let named = key == "properties"@ || key == "patternProperties"@ || key == "definitions"@ || key
                == "$defs"@ || key == "dependencies"@ || key == "dependentSchemas"@ || key == "dependentRequired"@;
            &&& out is Object
            &&& named ==> {
                &&& out->Object_0.len() == members.len()
                &&& forall|i: int|
                    0 <= i < members.len() ==> (#[trigger] out->Object_0[i]).0 == members[i].0 && out->Object_0[i].1
                        == compacted(members[i].1, keep, max)
            }
            &&& !named ==> out == compacted(s.get(key)->0, keep, max)
        }),
{
    lemma_compacted_get(s, key, keep, max);
}

proof fn lemma_compacted_unique(members: Members, key: Seq<char>, keep: bool, max: nat)
    requires
        ascending(members),
    ensures
        member(compacted_members(members, keep, max), key) == match member(members, key) {
            Some(v) => compacted_member(key, v, keep, max),
            None => None,
        },
    decreases members.len(),
{
    if members.len() > 0 {
        let rest = members.drop_last();
        let last = members[members.len() - 1];
        lemma_compacted_unique(rest, key, keep, max);
        assert(members =~= rest.push(last));
        lemma_push_member(rest, last, key);
        let kept = compacted_members(rest, keep, max);
        if let Some(v) = compacted_member(last.0, last.1, keep, max) {
            lemma_push_member(kept, (last.0, v), key);
        }
        if last.0 == key {
            lemma_key_index(rest, key);
            if member(rest, key) is Some {
                let k = key_index(rest, key);
                assert(members[k] == rest[k]);
                lemma_text_less_irreflexive(key);
            }
        }
    }
}

/// The nine keywords of pure metadata are left out.
pub proof fn lemma_metadata_is_left_out(s: JsonView, key: Seq<char>, keep: bool, max: nat)
    requires
        s is Object ==> ascending(s->Object_0),
        key == "$schema"@ || key == "$id"@ || key == "$comment"@ || key == "title"@ || key == "examples"@ || key
            == "default"@ || key == "readOnly"@ || key == "writeOnly"@ || key == "deprecated"@,
    ensures
        compacted(s, keep, max).get(key) is None,
{
    if let JsonView::Object(members) = s {
        lemma_compacted_unique(members, key, keep, max);
    }
}

/// A description stays only if descriptions are kept and it is a text; one that
/// is too long is cut, and ends in an ellipsis.
pub proof fn lemma_descriptions(s: JsonView, keep: bool, max: nat)
    requires
        s is Object ==> ascending(s->Object_0),
    ensures
        !keep ==> compacted(s, keep, max).get("description"@) is None,
        keep ==> match s.get("description"@) {
            Some(JsonView::Str(d)) => {
                &&& compacted(s, keep, max).get("description"@) matches Some(JsonView::Str(out))
                &&& d.len() <= max ==> out == d
                &&& d.len() > max ==> out == d.take(max as int) + seq!['…']
            },
            _ => compacted(s, keep, max).get("description"@) is None,
        },
{
    reveal_strlit("description");
    reveal_strlit("$schema");
    reveal_strlit("$id");
    reveal_strlit("$comment");
    reveal_strlit("title");
    reveal_strlit("examples");
    reveal_strlit("default");
    reveal_strlit("readOnly");
    reveal_strlit("writeOnly");
    reveal_strlit("deprecated");
    assert("description"@.len() == 11 && "$schema"@.len() == 7 && "$id"@.len() == 3 && "$comment"@.len() == 8);
    assert("title"@.len() == 5 && "examples"@.len() == 8 && "default"@.len() == 7 && "readOnly"@.len() == 8);
    assert("writeOnly"@.len() == 9 && "deprecated"@.len() == 10);
    if let JsonView::Object(members) = s {
        lemma_compacted_unique(members, "description"@, keep, max);
    }
    if let Some(JsonView::Str(d)) = s.get("description"@) {
        if d.len() > max {
            assert(d.take(max as int).push('…') =~= d.take(max as int) + seq!['…']);
        }
    }
}

/// A value that is no object and no array is its own compaction; an array is
/// compacted item by item, and an object stays an object.
pub proof fn lemma_compaction_by_kind(s: JsonView, keep: bool, max: nat)
    ensures
        !(s is Object) && !(s is Array) ==> compacted(s, keep, max) == s,
        s matches JsonView::Array(items) ==> {
            let out = compacted(s, keep, max);
            &&& out is Array && out->Array_0.len() == items.len()
            &&& forall|i: int| 0 <= i < items.len() ==> #[trigger] out->Array_0[i] == compacted(items[i], keep, max)
        },
        s is Object ==> compacted(s, keep, max) is Object,
{
}

/// Whether a list of members has one of that name.
spec fn has_name(members: Members, key: Seq<char>) -> bool {
    exists|j: int| 0 <= j < members.len() && (#[trigger] members[j]).0 == key
}

proof fn lemma_members_keep_order(members: Members, keep: bool, max: nat)
    requires
        ascending(members),
    ensures
        ascending(compacted_members(members, keep, max)),
        forall|i: int|
            0 <= i < compacted_members(members, keep, max).len() ==> has_name(
                members,
                (#[trigger] compacted_members(members, keep, max)[i]).0,
            ),
        compacted_members(members, keep, max).len() <= members.len(),
    decreases members.len(),
{
    if members.len() > 0 {
        let rest = members.drop_last();
        let last = members[members.len() - 1];
        lemma_members_keep_order(rest, keep, max);
        let before = compacted_members(rest, keep, max);
        let out = compacted_members(members, keep, max);
        assert forall|i: int| 0 <= i < out.len() implies has_name(members, (#[trigger] out[i]).0) by {
            if i < before.len() {
                assert(out[i] == before[i]);
                let j = choose|j: int| 0 <= j < rest.len() && (#[trigger] rest[j]).0 == before[i].0;
                assert(members[j].0 == out[i].0);
            } else {
                assert(members[members.len() - 1].0 == out[i].0);
            }
        }
        assert forall|i: int, j: int| 0 <= i < j < out.len() implies text_less(
            (#[trigger] out[i]).0,
            (#[trigger] out[j]).0,
        ) by {
            assert(out[i] == before[i]);
            if j < before.len() {
                assert(out[j] == before[j]);
            } else {
                let k = choose|k: int| 0 <= k < rest.len() && (#[trigger] rest[k]).0 == before[i].0;
                assert(members[k] == rest[k]);
            }
        }
    }
}

/// The keywords that stay are in order, and no more than there were.
pub proof fn lemma_compaction_keeps_order(members: Members, keep: bool, max: nat)
    requires
        ascending(members),
    ensures
        compacted(JsonView::Object(members), keep, max) is Object,
        ascending(compacted(JsonView::Object(members), keep, max)->Object_0),
        compacted(JsonView::Object(members), keep, max)->Object_0.len() <= members.len(),
{
    lemma_members_keep_order(members, keep, max);
}

} // verus!
