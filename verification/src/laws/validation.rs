//! What a schema accepts, keyword by keyword, and how a value is told that it is not.
use vstd::prelude::*;

use crate::json::{listed_strings, member, strings, JsonView, Members};
use crate::laws::values::{lemma_listed, lemma_string_taken};
use crate::number::{f64_text, NumberView};
use crate::text::decimal;
use crate::validator::{accepting, all_failure, any_failure, content_failure, content_valid};
use crate::validator::{failure, first_missing, has_type, item_valid, items_failure, lemma_failure_iff_invalid};
use crate::validator::{member_failure, member_valid, members_failure, type_allowed, valid, FailureView};
use crate::wire::{debug_text, json_text, scalar_text};

verus! {

// ---------------------------------------------------------------------------
// Types
// ---------------------------------------------------------------------------

/// A value has the types of its own JSON kind and no others: a number is
/// `number`, and `integer` exactly if it has no fractional part; a value of any
/// other kind has exactly one type.
pub proof fn lemma_types_of_a_value(v: JsonView, name: Seq<char>)
    ensures
        v is Null ==> (has_type(v, name) <==> name == "null"@),
        v is Bool ==> (has_type(v, name) <==> name == "boolean"@),
        v is Str ==> (has_type(v, name) <==> name == "string"@),
        v is Array ==> (has_type(v, name) <==> name == "array"@),
        v is Object ==> (has_type(v, name) <==> name == "object"@),
        v is Num && has_type(v, name) ==> name == "number"@ || name == "integer"@,
        v is Num ==> has_type(v, "number"@),
        v matches JsonView::Num(n) ==> (has_type(v, "integer"@) <==> n.is_whole()),
{
    reveal_strlit("number");
    reveal_strlit("integer");
    assert("number"@.len() == 6 && "integer"@.len() == 7);
}

/// The `type` keyword admits a value exactly if it names one of the value's
/// types, or lists one; a `type` that is neither a string nor a list says nothing.
pub proof fn lemma_type_keyword(v: JsonView, schema: JsonView)
    ensures
        match schema.get("type"@) {
            Some(JsonView::Str(name)) => type_allowed(v, schema) <==> has_type(v, name),
            Some(JsonView::Array(names)) => type_allowed(v, schema) <==> exists|name: Seq<char>|
                names.contains(JsonView::Str(name)) && #[trigger] has_type(v, name),
            _ => type_allowed(v, schema),
        },
{
    if let Some(JsonView::Array(names)) = schema.get("type"@) {
        if type_allowed(v, schema) {
            let i = choose|i: int| 0 <= i < strings(names).len() && has_type(v, #[trigger] strings(names)[i]);
            let name = strings(names)[i];
            lemma_string_taken(names, name);
            assert(strings(names).contains(name));
            assert(has_type(v, name));
        }
        if exists|name: Seq<char>| names.contains(JsonView::Str(name)) && #[trigger] has_type(v, name) {
            let name = choose|name: Seq<char>| names.contains(JsonView::Str(name)) && #[trigger] has_type(v, name);
            lemma_string_taken(names, name);
            let i = choose|i: int| 0 <= i < strings(names).len() && strings(names)[i] == name;
            assert(has_type(v, strings(names)[i]));
        }
    }
}

// ---------------------------------------------------------------------------
// What is accepted
// ---------------------------------------------------------------------------

/// A value that is accepted equals the `const`, is one of the `enum`, satisfies
/// some branch of `anyOf`, exactly one of `oneOf` and all of `allOf`, and is of
/// a type that `type` names.
pub proof fn lemma_accepted_values_meet_every_keyword(value: JsonView, schema: JsonView)
    requires
        valid(value, schema),
    ensures
        schema.get("const"@) matches Some(c) ==> value.same(c),
        schema.get("enum"@) matches Some(JsonView::Array(values)) ==> exists|i: int|
            0 <= i < values.len() && (#[trigger] values[i]).same(value),
        schema.get("anyOf"@) matches Some(JsonView::Array(subs)) ==> exists|i: int|
            0 <= i < subs.len() && valid(value, #[trigger] subs[i]),
        schema.get("oneOf"@) matches Some(JsonView::Array(subs)) ==> exists|i: int|
            {
                &&& 0 <= i < subs.len()
                &&& valid(value, #[trigger] subs[i])
                &&& forall|j: int| 0 <= j < subs.len() && j != i ==> !valid(value, #[trigger] subs[j])
            },
        schema.get("allOf"@) matches Some(JsonView::Array(subs)) ==> forall|i: int|
            0 <= i < subs.len() ==> valid(value, #[trigger] subs[i]),
        type_allowed(value, schema),
        content_valid(value, schema),
{
}

/// A value is refused only for one of the keywords.
pub proof fn lemma_nothing_else_is_refused(value: JsonView, schema: JsonView)
    requires
        schema.get("const"@) matches Some(c) ==> value.same(c),
        schema.get_array("enum"@) matches Some(values) ==> exists|i: int|
            0 <= i < values.len() && (#[trigger] values[i]).same(value),
        schema.get_array("anyOf"@) matches Some(subs) ==> exists|i: int|
            0 <= i < subs.len() && valid(value, #[trigger] subs[i]),
        schema.get_array("oneOf"@) matches Some(subs) ==> exists|i: int|
            {
                &&& 0 <= i < subs.len()
                &&& valid(value, #[trigger] subs[i])
                &&& forall|j: int| 0 <= j < subs.len() && j != i ==> !valid(value, #[trigger] subs[j])
            },
        schema.get_array("allOf"@) matches Some(subs) ==> forall|i: int|
            0 <= i < subs.len() ==> valid(value, #[trigger] subs[i]),
        type_allowed(value, schema),
        content_valid(value, schema),
    ensures
        valid(value, schema),
{
}

/// An object is accepted exactly if every name listed as required is there, and
/// each member is accepted: by its own schema under `properties`; without one,
/// by `additionalProperties` if that is a schema; and not at all if that is `false`.
pub proof fn lemma_accepted_objects(members: Members, schema: JsonView)
    ensures
        content_valid(JsonView::Object(members), schema) <==> {
            &&& forall|name: Seq<char>|
                (schema.get("required"@) matches Some(JsonView::Array(names)) && names.contains(JsonView::Str(name)))
                    ==> (#[trigger] member(members, name)) is Some
            &&& forall|i: int|
                0 <= i < members.len() ==> match (
                    schema.get("properties"@),
                    schema.get("additionalProperties"@),
                    #[trigger] members[i],
                ) {
                    (Some(JsonView::Object(properties)), extra, (key, value)) => match member(properties, key) {
                        Some(sub) => valid(value, sub),
                        None => extra_accepts(extra, value),
                    },
                    (_, extra, (key, value)) => extra_accepts(extra, value),
                }
        },
{
    let required = listed_strings(schema, "required"@);
    let object = JsonView::Object(members);
    if content_valid(object, schema) {
        assert forall|name: Seq<char>|
            (schema.get("required"@) matches Some(JsonView::Array(names)) && names.contains(JsonView::Str(name)))
                implies (#[trigger] member(members, name)) is Some by {
            lemma_listed(schema, "required"@, name);
            let i = choose|i: int| 0 <= i < required.len() && required[i] == name;
            assert(member(members, required[i]) is Some);
        }
        assert forall|i: int| 0 <= i < members.len() implies member_valid(
            (#[trigger] members[i]).0,
            members[i].1,
            schema,
        ) by {}
    }
    if forall|name: Seq<char>|
        (schema.get("required"@) matches Some(JsonView::Array(names)) && names.contains(JsonView::Str(name))) ==> (
        #[trigger] member(members, name)) is Some {
        assert forall|i: int| 0 <= i < required.len() implies member(members, #[trigger] required[i]) is Some by {
            lemma_listed(schema, "required"@, required[i]);
            assert(required.contains(required[i]));
        }
    }
}

/// Whether `additionalProperties` lets a member have a value.
pub open spec fn extra_accepts(extra: Option<JsonView>, value: JsonView) -> bool {
    match extra {
        Some(JsonView::Bool(b)) => b,
        Some(JsonView::Object(members)) => valid(value, JsonView::Object(members)),
        _ => true,
    }
}

/// An array is accepted exactly if each item is, by the one schema of `items`
/// or by the one at its place in a tuple, and their number is within
/// `minItems` and `maxItems`.
pub proof fn lemma_accepted_arrays(items: Seq<JsonView>, schema: JsonView)
    ensures
        content_valid(JsonView::Array(items), schema) <==> {
            &&& schema.get("items"@) matches Some(JsonView::Object(rule)) ==> forall|i: int|
                0 <= i < items.len() ==> valid(#[trigger] items[i], JsonView::Object(rule))
            &&& schema.get("items"@) matches Some(JsonView::Array(tuple)) ==> forall|i: int|
                0 <= i < items.len() && i < tuple.len() ==> valid(#[trigger] items[i], tuple[i])
            &&& schema.get("minItems"@) matches Some(JsonView::Num(NumberView::PosInt(min))) ==> min <= items.len()
            &&& schema.get("maxItems"@) matches Some(JsonView::Num(NumberView::PosInt(max))) ==> items.len() <= max
        },
{
    let array = JsonView::Array(items);
    assert(array->Array_0 == items);
    if content_valid(array, schema) {
        assert forall|i: int| 0 <= i < items.len() implies item_valid(
            i,
            #[trigger] items[i],
            schema,
        ) by {}
    }
}

/// A string is accepted exactly if its number of characters is within
/// `minLength` and `maxLength`, and what is no container, string or number
/// is always accepted as far as its contents go.
pub proof fn lemma_accepted_strings(s: Seq<char>, schema: JsonView, b: bool)
    ensures
        content_valid(JsonView::Str(s), schema) <==> {
            &&& schema.get("minLength"@) matches Some(JsonView::Num(NumberView::PosInt(min))) ==> min <= s.len()
            &&& schema.get("maxLength"@) matches Some(JsonView::Num(NumberView::PosInt(max))) ==> s.len() <= max
        },
        content_valid(JsonView::Null, schema),
        content_valid(JsonView::Bool(b), schema),
{
}

/// A number is accepted exactly if it is within `minimum` and `maximum`, as doubles.
pub proof fn lemma_accepted_numbers(n: NumberView, schema: JsonView)
    ensures
        content_valid(JsonView::Num(n), schema) <==> {
            &&& schema.get("minimum"@) matches Some(JsonView::Num(min)) ==> min.units() <= n.units()
            &&& schema.get("maximum"@) matches Some(JsonView::Num(max)) ==> n.units() <= max.units()
        },
{
}

// ---------------------------------------------------------------------------
// How a failure is told
// ---------------------------------------------------------------------------

/// The failure at `path` with a reason.
pub open spec fn told(path: Seq<char>, reason: Seq<char>) -> Option<FailureView> {
    Some(FailureView { path, reason })
}

/// Whether `enum` refuses a value.
pub open spec fn enum_refuses(value: JsonView, schema: JsonView) -> bool {
    schema.get("enum"@) matches Some(JsonView::Array(values)) && forall|i: int|
        0 <= i < values.len() ==> !(#[trigger] values[i]).same(value)
}

/// The keywords are looked at in order, and the first that refuses the value
/// tells why: `const` with the constant, `enum` with the list, `anyOf` with the
/// failure of its last branch, `oneOf` with the number of branches that accept,
/// `allOf` with the failure of its first branch that fails, `type` with what was
/// expected and what came, and at last what the value holds.
pub proof fn lemma_first_refusal_is_told(value: JsonView, schema: JsonView, path: Seq<char>)
    ensures
        ({
            let f = failure(value, schema, path);
            let const_ok = schema.get("const"@) matches Some(c) ==> value.same(c);
            let enum_ok = !enum_refuses(value, schema);
            let any_ok = schema.get("anyOf"@) matches Some(JsonView::Array(subs)) ==> any_failure(value, subs, path)
                is None;
            let one_ok = schema.get("oneOf"@) matches Some(JsonView::Array(subs)) ==> accepting(value, subs, path) == 1;
            let all_ok = schema.get("allOf"@) matches Some(JsonView::Array(subs)) ==> all_failure(value, subs, path)
                is None;
            &&& !const_ok && scalar_text(schema.get("const"@)->0) is Some ==> f == told(
                path,
                "expected const "@ + scalar_text(schema.get("const"@)->0)->0,
            )
            &&& !const_ok && scalar_text(schema.get("const"@)->0) is None ==> f == told(
                path,
                "expected const "@ + json_text(schema.get("const"@)->0),
            )
            &&& const_ok && !enum_ok ==> f == told(
                path,
                "not in enum "@ + debug_text(schema.get("enum"@)->0->Array_0),
            )
            &&& const_ok && enum_ok && !any_ok ==> f == any_failure(value, schema.get("anyOf"@)->0->Array_0, path)
            &&& const_ok && enum_ok && any_ok && !one_ok ==> f == told(
                path,
                "expected exactly 1 oneOf branch to match, got "@ + decimal(
                    accepting(value, schema.get("oneOf"@)->0->Array_0, path),
                ),
            )
            &&& const_ok && enum_ok && any_ok && one_ok && !all_ok ==> f == all_failure(
                value,
                schema.get("allOf"@)->0->Array_0,
                path,
            )
            &&& const_ok && enum_ok && any_ok && one_ok && all_ok && !type_allowed(value, schema) ==> match schema.get(
                "type"@,
            ) {
                Some(JsonView::Str(name)) => f == told(
                    path,
                    "type mismatch: expected "@ + name + ", got "@ + own_type(value),
                ),
                Some(JsonView::Array(names)) => f == told(
                    path,
                    "type mismatch: expected one of "@ + debug_text(names) + ", got "@ + own_type(value),
                ),
                _ => false,
            }
            &&& const_ok && enum_ok && any_ok && one_ok && all_ok && type_allowed(value, schema) ==> f
                == content_failure(value, schema, path)
        }),
{
}

/// The name of the kind of a value.
pub open spec fn own_type(v: JsonView) -> Seq<char> {
    match v {
        JsonView::Null => "null"@,
        JsonView::Bool(_) => "boolean"@,
        JsonView::Num(_) => "number"@,
        JsonView::Str(_) => "string"@,
        JsonView::Array(_) => "array"@,
        JsonView::Object(_) => "object"@,
    }
}

/// A branch of `anyOf` that accepts is enough; where none does, the last branch
/// tells why, and without any branch there is a reason of its own.
pub proof fn lemma_any_of(value: JsonView, subs: Seq<JsonView>, path: Seq<char>)
    ensures
        (exists|i: int| 0 <= i < subs.len() && valid(value, #[trigger] subs[i])) ==> any_failure(value, subs, path)
            is None,
        subs.len() == 0 ==> any_failure(value, subs, path) == told(path, "no anyOf branch matched"@),
        subs.len() > 0 && (forall|i: int| 0 <= i < subs.len() ==> !valid(value, #[trigger] subs[i])) ==> any_failure(
            value,
            subs,
            path,
        ) == failure(value, subs[subs.len() - 1], path) && any_failure(value, subs, path) is Some,
{
    assert forall|i: int| 0 <= i < subs.len() implies (failure(value, #[trigger] subs[i], path) is None <==> valid(
        value,
        subs[i],
    )) by {
        lemma_failure_iff_invalid(value, subs[i], path);
    }
    if exists|i: int| 0 <= i < subs.len() && valid(value, #[trigger] subs[i]) {
        let i = choose|i: int| 0 <= i < subs.len() && valid(value, #[trigger] subs[i]);
        assert(failure(value, subs[i], path) is None);
    }
    if subs.len() > 0 && (forall|i: int| 0 <= i < subs.len() ==> !valid(value, #[trigger] subs[i])) {
        assert(!valid(value, subs[subs.len() - 1]));
        assert forall|i: int| 0 <= i < subs.len() implies failure(value, #[trigger] subs[i], path) is Some by {
            assert(!valid(value, subs[i]));
        }
    }
}

/// The first branch of `allOf` that fails tells why.
pub proof fn lemma_all_of(value: JsonView, subs: Seq<JsonView>, path: Seq<char>, i: int)
    requires
        0 <= i <= subs.len(),
        forall|j: int| 0 <= j < i ==> valid(value, #[trigger] subs[j]),
        i < subs.len() ==> !valid(value, subs[i]),
    ensures
        all_failure(value, subs, path) == if i < subs.len() {
            failure(value, subs[i], path)
        } else {
            None
        },
    decreases subs.len(),
{
    if subs.len() > 0 {
        let rest = subs.drop_last();
        let n = rest.len();
        let k = if i < n {
            i
        } else {
            n as int
        };
        assert forall|j: int| 0 <= j < k implies valid(value, #[trigger] rest[j]) by {
            assert(rest[j] == subs[j]);
        }
        lemma_all_of(value, rest, path, k);
        lemma_failure_iff_invalid(value, subs[n as int], path);
        if i < subs.len() {
            lemma_failure_iff_invalid(value, subs[i], path);
        } else {
            assert(valid(value, subs[n as int]));
        }
    }
}

/// The places of the branches that accept a value.
pub open spec fn accepting_places(value: JsonView, subs: Seq<JsonView>) -> Set<int> {
    Set::new(|i: int| 0 <= i < subs.len() && valid(value, subs[i]))
}

/// The count of `oneOf` is the number of branches that accept.
pub proof fn lemma_one_of_counts(value: JsonView, subs: Seq<JsonView>, path: Seq<char>)
    ensures
        accepting_places(value, subs).finite(),
        accepting(value, subs, path) == accepting_places(value, subs).len(),
    decreases subs.len(),
{
    let places = accepting_places(value, subs);
    if subs.len() == 0 {
        assert(places =~= Set::empty());
    } else {
        let rest = subs.drop_last();
        let n = rest.len() as int;
        lemma_one_of_counts(value, rest, path);
        lemma_failure_iff_invalid(value, subs[n], path);
        let before = accepting_places(value, rest);
        assert forall|i: int| 0 <= i < n implies rest[i] == #[trigger] subs[i] by {}
        if valid(value, subs[n]) {
            assert(places =~= before.insert(n));
            assert(!before.contains(n));
        } else {
            assert(places =~= before);
        }
    }
}

// ---------------------------------------------------------------------------
// Failures of what a value holds
// ---------------------------------------------------------------------------

/// The first listed name that is missing tells so, before any member is looked at.
pub proof fn lemma_missing_is_told(members: Members, schema: JsonView, path: Seq<char>, i: int)
    requires
        0 <= i < listed_strings(schema, "required"@).len(),
        member(members, listed_strings(schema, "required"@)[i]) is None,
        forall|j: int| 0 <= j < i ==> member(members, #[trigger] listed_strings(schema, "required"@)[j]) is Some,
    ensures
        content_failure(JsonView::Object(members), schema, path) == told(
            path,
            "missing required property '"@ + listed_strings(schema, "required"@)[i] + "'"@,
        ),
{
    lemma_first_missing(members, listed_strings(schema, "required"@), i);
}

proof fn lemma_first_missing(members: Members, required: Seq<Seq<char>>, i: int)
    requires
        0 <= i <= required.len(),
        i < required.len() ==> member(members, required[i]) is None,
        forall|j: int| 0 <= j < i ==> member(members, #[trigger] required[j]) is Some,
    ensures
        first_missing(members, required) == if i < required.len() {
            Some(required[i])
        } else {
            None
        },
    decreases required.len(),
{
    if required.len() > 0 {
        let rest = required.drop_last();
        let n = rest.len();
        let k = if i < n {
            i
        } else {
            n as int
        };
        assert forall|j: int| 0 <= j < k implies member(members, #[trigger] rest[j]) is Some by {
            assert(rest[j] == required[j]);
        }
        lemma_first_missing(members, rest, k);
        if i > n {
            assert(member(members, required[n as int]) is Some);
        }
    }
}

/// A member with a schema of its own is checked by it at the member's place;
/// one without is checked by `additionalProperties` there, refused by name if
/// that is `false`, and left alone otherwise.
pub proof fn lemma_member_is_told(key: Seq<char>, value: JsonView, schema: JsonView, path: Seq<char>)
    ensures
        ({
            let own = match schema.get("properties"@) {
                Some(JsonView::Object(properties)) => member(properties, key),
                _ => None,
            };
            member_failure(key, value, schema, path) == match own {
                Some(sub) => failure(value, sub, path + seq!['/'] + key),
                None => match schema.get("additionalProperties"@) {
                    Some(JsonView::Bool(false)) => told(path, "additional property '"@ + key + "' not allowed"@),
                    Some(JsonView::Object(rule)) => failure(value, JsonView::Object(rule), path + seq!['/'] + key),
                    _ => None,
                },
            }
        }),
{
    reveal_strlit("/");
    assert("/"@.len() == 1 && "/"@[0] == '/');
    assert("/"@ =~= seq!['/']);
}

/// Where no required name is missing, the first member that fails tells why.
pub proof fn lemma_first_member_is_told(members: Members, schema: JsonView, path: Seq<char>, i: int)
    requires
        0 <= i <= members.len(),
        forall|j: int|
            0 <= j < listed_strings(schema, "required"@).len() ==> member(
                members,
                #[trigger] listed_strings(schema, "required"@)[j],
            ) is Some,
        forall|j: int| 0 <= j < i ==> member_failure((#[trigger] members[j]).0, members[j].1, schema, path) is None,
        i < members.len() ==> member_failure(members[i].0, members[i].1, schema, path) is Some,
    ensures
        content_failure(JsonView::Object(members), schema, path) == if i < members.len() {
            member_failure(members[i].0, members[i].1, schema, path)
        } else {
            None
        },
{
    lemma_first_missing(
        members,
        listed_strings(schema, "required"@),
        listed_strings(schema, "required"@).len() as int,
    );
    lemma_first_member(members, schema, path, i);
}

proof fn lemma_first_member(members: Members, schema: JsonView, path: Seq<char>, i: int)
    requires
        0 <= i <= members.len(),
        forall|j: int| 0 <= j < i ==> member_failure((#[trigger] members[j]).0, members[j].1, schema, path) is None,
        i < members.len() ==> member_failure(members[i].0, members[i].1, schema, path) is Some,
    ensures
        members_failure(members, schema, path) == if i < members.len() {
            member_failure(members[i].0, members[i].1, schema, path)
        } else {
            None
        },
    decreases members.len(),
{
    if members.len() > 0 {
        let rest = members.drop_last();
        let n = rest.len();
        let k = if i < n {
            i
        } else {
            n as int
        };
        assert forall|j: int| 0 <= j < k implies member_failure(
            (#[trigger] rest[j]).0,
            rest[j].1,
            schema,
            path,
        ) is None by {
            assert(rest[j] == members[j]);
        }
        lemma_first_member(rest, schema, path, k);
        if i > n {
            let last = members[n as int];
            assert(member_failure(last.0, last.1, schema, path) is None);
        }
    }
}

/// How the item at `i` fails, by the schema for its place.
pub open spec fn item_told(items: Seq<JsonView>, schema: JsonView, path: Seq<char>, i: int) -> Option<FailureView> {
    let place = path + seq!['/'] + decimal(i as nat);
    match schema.get("items"@) {
        Some(JsonView::Object(rule)) => failure(items[i], JsonView::Object(rule), place),
        Some(JsonView::Array(tuple)) => if i < tuple.len() {
            failure(items[i], tuple[i], place)
        } else {
            None
        },
        _ => None,
    }
}

/// The first item that fails tells why, at its place; where none does, a
/// number of items that is too small or too large is told.
pub proof fn lemma_first_item_is_told(items: Seq<JsonView>, schema: JsonView, path: Seq<char>, i: int)
    requires
        0 <= i <= items.len(),
        forall|j: int| 0 <= j < i ==> (#[trigger] item_told(items, schema, path, j)) is None,
        i < items.len() ==> item_told(items, schema, path, i) is Some,
    ensures
        i < items.len() ==> content_failure(JsonView::Array(items), schema, path) == item_told(items, schema, path, i),
        i == items.len() ==> content_failure(JsonView::Array(items), schema, path) == count_told(
            items.len(),
            schema.get("minItems"@),
            "minItems: "@,
            schema.get("maxItems"@),
            "maxItems: "@,
            path,
        ),
{
    reveal_strlit("minItems");
    reveal_strlit("maxItems");
    reveal_strlit(": ");
    reveal_strlit("minItems: ");
    reveal_strlit("maxItems: ");
    assert("minItems"@ + ": "@ =~= "minItems: "@);
    assert("maxItems"@ + ": "@ =~= "maxItems: "@);
    lemma_first_item(items, items.len() as int, schema, path, i);
    assert(items.take(items.len() as int) =~= items);
}

/// How a count outside its bounds is told: the lower bound comes first.
pub open spec fn count_told(
    n: nat,
    min: Option<JsonView>,
    below: Seq<char>,
    max: Option<JsonView>,
    above: Seq<char>,
    path: Seq<char>,
) -> Option<FailureView> {
    match (min, max) {
        (Some(JsonView::Num(NumberView::PosInt(min))), _) if n < min => told(
            path,
            below + decimal(n) + " < "@ + decimal(min as nat),
        ),
        (_, Some(JsonView::Num(NumberView::PosInt(max)))) if n > max => told(
            path,
            above + decimal(n) + " > "@ + decimal(max as nat),
        ),
        _ => None,
    }
}

proof fn lemma_first_item(items: Seq<JsonView>, n: int, schema: JsonView, path: Seq<char>, i: int)
    requires
        0 <= i <= n <= items.len(),
        forall|j: int| 0 <= j < i ==> (#[trigger] item_told(items, schema, path, j)) is None,
        i < n ==> item_told(items, schema, path, i) is Some,
    ensures
        items_failure(items.take(n), schema, path) == if i < n {
            item_told(items, schema, path, i)
        } else {
            None
        },
    decreases n,
{
    let part = items.take(n);
    if n > 0 {
        let k = if i < n - 1 {
            i
        } else {
            n - 1
        };
        assert(part.drop_last() =~= items.take(n - 1));
        assert(part[n - 1] == items[n - 1]);
        lemma_first_item(items, n - 1, schema, path, k);
        reveal_strlit("/");
        assert("/"@ =~= seq!['/']);
        if i > n - 1 {
            assert(item_told(items, schema, path, n - 1) is None);
        }
    }
}

/// A string that is too short or too long is told with its number of characters.
pub proof fn lemma_string_is_told(s: Seq<char>, schema: JsonView, path: Seq<char>)
    ensures
        content_failure(JsonView::Str(s), schema, path) == count_told(
            s.len(),
            schema.get("minLength"@),
            "minLength: "@,
            schema.get("maxLength"@),
            "maxLength: "@,
            path,
        ),
{
    reveal_strlit("minLength");
    reveal_strlit("maxLength");
    reveal_strlit(": ");
    reveal_strlit("minLength: ");
    reveal_strlit("maxLength: ");
    assert("minLength"@ + ": "@ =~= "minLength: "@);
    assert("maxLength"@ + ": "@ =~= "maxLength: "@);
}

/// A number that is too small or too large is told with the bound.
pub proof fn lemma_number_is_told(n: NumberView, schema: JsonView, path: Seq<char>)
    ensures
        ({
            let f = content_failure(JsonView::Num(n), schema, path);
            match (schema.get("minimum"@), schema.get("maximum"@)) {
                (Some(JsonView::Num(min)), _) if n.units() < min.units() => f == told(
                    path,
                    f64_text(n) + " < minimum "@ + f64_text(min),
                ),
                (_, Some(JsonView::Num(max))) if n.units() > max.units() => f == told(
                    path,
                    f64_text(n) + " > maximum "@ + f64_text(max),
                ),
                _ => f is None,
            }
        }),
{
}

} // verus!
