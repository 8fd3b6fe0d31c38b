//! JSON Schema validation and light rehydration for tool calls.
//!
//! The slice of JSON Schema that tool schemas use in practice: objects of
//! primitives, arrays, enums and unions. A failure carries the JSON-pointer-like
//! path into the arguments at which it occurred.
//!
//! Compaction keeps the real property names, so a model's arguments already
//! have the shape that the upstream expects. The one normalisation is for the
//! `high` tier, whose permissive schema lets a model write `null` for optional
//! fields: those are left out before validation.
use vstd::prelude::*;
use vstd::string::*;

use crate::json::{ascending, collect_listed, entry_views, lemma_array_view, views};
use crate::json::{lemma_get_array_smaller, lemma_get_object_smaller, lemma_get_smaller, lemma_key_index};
use crate::json::{key_index, listed_strings, member, strings, Json, JsonObject, JsonView, Members};
use crate::number::f64_text;
use crate::number::NumberView;
use crate::text::{concat3, contains_text, decimal, decimal_text, same_text, text_less, texts};
use crate::wire::{debug_text, to_debug_text, to_text, value_text};

verus! {

/// The mathematical reading of a [`ValidationError`].
pub struct FailureView {
    pub path: Seq<char>,
    pub reason: Seq<char>,
}

/// A validation failure: where in the arguments it occurred, and why.
#[derive(Debug, Clone)]
pub struct ValidationError {
    pub path: String,
    pub reason: String,
}

impl View for ValidationError {
    type V = FailureView;

    open spec fn view(&self) -> FailureView {
        FailureView { path: self.path@, reason: self.reason@ }
    }
}

impl ValidationError {
    /// The failure in one line: the path, if there is one, and the reason.
    pub fn message(&self) -> (r: String)
        ensures
            r@ == if self@.path.len() == 0 {
                self@.reason
            } else {
                self@.path + ": "@ + self@.reason
            },
    {
        if self.path.as_str().is_empty() {
            self.reason.clone()
        } else {
            concat3(self.path.as_str(), ": ", self.reason.as_str())
        }
    }
}

/// A failure at `path` for `reason`.
pub fn err(path: &str, reason: String) -> (r: ValidationError)
    ensures
        r@ == (FailureView { path: path@, reason: reason@ }),
{
    ValidationError { path: path.to_owned(), reason }
}

// ---------------------------------------------------------------------------
// What a schema accepts
// ---------------------------------------------------------------------------

/// The name of a value's JSON type.
pub open spec fn kind_name(v: JsonView) -> Seq<char> {
    match v {
        JsonView::Str(_) => "string"@,
        JsonView::Num(_) => "number"@,
        JsonView::Bool(_) => "boolean"@,
        JsonView::Null => "null"@,
        JsonView::Array(_) => "array"@,
        JsonView::Object(_) => "object"@,
    }
}

/// Whether a value is of the named type. `integer` takes every integer and
/// every double without a fractional part, because some hosts write integers
/// as doubles.
pub open spec fn has_type(v: JsonView, name: Seq<char>) -> bool {
    match v {
        JsonView::Num(n) => name == "number"@ || (name == "integer"@ && n.is_whole()),
        _ => name == kind_name(v),
    }
}

/// Whether a value is of one of the types that the schema's `type` names.
pub open spec fn type_allowed(v: JsonView, schema: JsonView) -> bool {
    match schema.get("type"@) {
        Some(JsonView::Str(name)) => has_type(v, name),
        Some(JsonView::Array(names)) => exists|i: int|
            0 <= i < strings(names).len() && has_type(v, #[trigger] strings(names)[i]),
        _ => true,
    }
}

/// What a schema says of an object's member.
pub enum MemberRule {
    /// The value must be valid under this schema.
    Governed(JsonView),
    /// The member may not be there.
    Forbidden,
    /// Any value will do.
    Free,
}

/// The rule for the member named `key`: its own property schema, or else the
/// schema's `additionalProperties`.
pub open spec fn member_rule(schema: JsonView, key: Seq<char>) -> MemberRule {
    let own = match schema.get_object("properties"@) {
        Some(properties) => member(properties, key),
        None => None,
    };
    match own {
        Some(sub) => MemberRule::Governed(sub),
        None => match schema.get("additionalProperties"@) {
            Some(JsonView::Bool(false)) => MemberRule::Forbidden,
            Some(JsonView::Object(members)) => MemberRule::Governed(JsonView::Object(members)),
            _ => MemberRule::Free,
        },
    }
}

/// The schema for the array item at `i`, if there is one: the same for every
/// item, or the one at that place of a tuple.
pub open spec fn item_rule(schema: JsonView, i: int) -> Option<JsonView> {
    match schema.get("items"@) {
        Some(JsonView::Object(members)) => Some(JsonView::Object(members)),
        Some(JsonView::Array(tuple)) => if 0 <= i < tuple.len() { Some(tuple[i]) } else { None },
        _ => None,
    }
}

pub proof fn lemma_member_rule_smaller(schema: JsonView, key: Seq<char>)
    ensures
        member_rule(schema, key) matches MemberRule::Governed(sub) ==> decreases_to!(schema => sub),
{
    lemma_get_object_smaller(schema, "properties"@);
    lemma_get_smaller(schema, "additionalProperties"@);
    if let Some(properties) = schema.get_object("properties"@) {
        lemma_key_index(properties, key);
        let i = key_index(properties, key);
        if i < properties.len() {
            assert(decreases_to!(properties => properties[i]));
            assert(decreases_to!(properties[i] => properties[i].1));
        }
    }
}

pub proof fn lemma_item_rule_smaller(schema: JsonView, i: int)
    ensures
        item_rule(schema, i) matches Some(sub) ==> decreases_to!(schema => sub),
{
    lemma_get_smaller(schema, "items"@);
    if let Some(JsonView::Array(tuple)) = schema.get("items"@) {
        let c = schema.get("items"@)->0;
        assert(decreases_to!(c => tuple));
        if 0 <= i < tuple.len() {
            assert(decreases_to!(tuple => tuple[i]));
        }
    }
}

/// A number keyword of a schema, where it is an unsigned integer.
pub open spec fn bound(schema: JsonView, key: Seq<char>) -> Option<u64> {
    match schema.get(key) {
        Some(v) => v.as_u64(),
        None => None,
    }
}

/// A number keyword of a schema, where it is a number.
pub open spec fn limit(schema: JsonView, key: Seq<char>) -> Option<NumberView> {
    match schema.get(key) {
        Some(JsonView::Num(n)) => Some(n),
        _ => None,
    }
}

/// Whether a count lies within two optional bounds.
pub open spec fn within(n: nat, min: Option<u64>, max: Option<u64>) -> bool {
    &&& min matches Some(m) ==> m <= n
    &&& max matches Some(m) ==> n <= m
}

/// Whether some branch accepts the value.
pub open spec fn any_accepts(value: JsonView, subs: Seq<JsonView>) -> bool
    decreases subs, 2nat,
{
    exists|i: int| 0 <= i < subs.len() && valid(value, #[trigger] subs[i])
}

/// Whether exactly one branch accepts the value.
pub open spec fn one_accepts(value: JsonView, subs: Seq<JsonView>) -> bool
    decreases subs, 2nat,
{
    exists|i: int|
        {
            &&& 0 <= i < subs.len()
            &&& valid(value, #[trigger] subs[i])
            &&& forall|j: int| 0 <= j < subs.len() && j != i ==> !valid(value, #[trigger] subs[j])
        }
}

/// Whether every branch accepts the value.
pub open spec fn all_accept(value: JsonView, subs: Seq<JsonView>) -> bool
    decreases subs, 2nat,
{
    forall|i: int| 0 <= i < subs.len() ==> valid(value, #[trigger] subs[i])
}

/// Whether the rule for a member allows it to have this value.
pub open spec fn member_valid(key: Seq<char>, value: JsonView, schema: JsonView) -> bool
    decreases schema, 0nat,
{
    proof {
        lemma_member_rule_smaller(schema, key);
    }
    match member_rule(schema, key) {
        MemberRule::Governed(sub) => valid(value, sub),
        MemberRule::Forbidden => false,
        MemberRule::Free => true,
    }
}

/// Whether the rule for the array item at `i` allows it to be this value.
pub open spec fn item_valid(i: int, value: JsonView, schema: JsonView) -> bool
    decreases schema, 0nat,
{
    proof {
        lemma_item_rule_smaller(schema, i);
    }
    match item_rule(schema, i) {
        Some(sub) => valid(value, sub),
        None => true,
    }
}

/// Whether `schema` accepts what the value holds, by the value's own type.
pub open spec fn content_valid(value: JsonView, schema: JsonView) -> bool
    decreases schema, 1nat,
{
    match value {
        JsonView::Object(members) => {
            &&& forall|i: int|
                0 <= i < listed_strings(schema, "required"@).len() ==> member(
                    members,
                    #[trigger] listed_strings(schema, "required"@)[i],
                ) is Some
            &&& forall|i: int|
                0 <= i < members.len() ==> member_valid((#[trigger] members[i]).0, members[i].1, schema)
        },
        JsonView::Array(items) => {
            &&& forall|i: int| 0 <= i < items.len() ==> item_valid(i, #[trigger] items[i], schema)
            &&& within(items.len(), bound(schema, "minItems"@), bound(schema, "maxItems"@))
        },
        JsonView::Str(s) => within(s.len(), bound(schema, "minLength"@), bound(schema, "maxLength"@)),
        JsonView::Num(n) => {
            &&& limit(schema, "minimum"@) matches Some(m) ==> m.units() <= n.units()
            &&& limit(schema, "maximum"@) matches Some(m) ==> n.units() <= m.units()
        },
        _ => true,
    }
}

/// Whether `schema` accepts `value`.
pub open spec fn valid(value: JsonView, schema: JsonView) -> bool
    decreases schema, 2nat,
{
    proof {
        lemma_get_array_smaller(schema, "anyOf"@);
        lemma_get_array_smaller(schema, "oneOf"@);
        lemma_get_array_smaller(schema, "allOf"@);
    }
    &&& schema.get("const"@) matches Some(c) ==> value.same(c)
    &&& schema.get_array("enum"@) matches Some(values) ==> exists|i: int|
        0 <= i < values.len() && (#[trigger] values[i]).same(value)
    &&& schema.get_array("anyOf"@) matches Some(subs) ==> any_accepts(value, subs)
    &&& schema.get_array("oneOf"@) matches Some(subs) ==> one_accepts(value, subs)
    &&& schema.get_array("allOf"@) matches Some(subs) ==> all_accept(value, subs)
    &&& type_allowed(value, schema)
    &&& content_valid(value, schema)
}

// ---------------------------------------------------------------------------
// How a value fails
// ---------------------------------------------------------------------------

/// A failure at `path` for `reason`.
pub open spec fn fails(path: Seq<char>, reason: Seq<char>) -> Option<FailureView> {
    Some(FailureView { path, reason })
}

/// The first of two failures.
pub open spec fn earlier(a: Option<FailureView>, b: Option<FailureView>) -> Option<FailureView> {
    if a is Some {
        a
    } else {
        b
    }
}

/// The path of a part of the value at `path`.
pub open spec fn part_path(path: Seq<char>, part: Seq<char>) -> Seq<char> {
    path + "/"@ + part
}

/// The failure of `const`.
pub open spec fn const_failure(value: JsonView, schema: JsonView, path: Seq<char>) -> Option<FailureView> {
    match schema.get("const"@) {
        Some(c) => if value.same(c) {
            None
        } else {
            fails(path, "expected const "@ + value_text(c))
        },
        None => None,
    }
}

/// The failure of `enum`.
pub open spec fn enum_failure(value: JsonView, schema: JsonView, path: Seq<char>) -> Option<FailureView> {
    match schema.get_array("enum"@) {
        Some(values) => if exists|i: int| 0 <= i < values.len() && (#[trigger] values[i]).same(value) {
            None
        } else {
            fails(path, "not in enum "@ + debug_text(values))
        },
        None => None,
    }
}

/// The failure of `type`.
pub open spec fn type_failure(value: JsonView, schema: JsonView, path: Seq<char>) -> Option<FailureView> {
    if type_allowed(value, schema) {
        None
    } else {
        match schema.get("type"@) {
            Some(JsonView::Array(names)) => fails(
                path,
                "type mismatch: expected one of "@ + debug_text(names) + ", got "@ + kind_name(value),
            ),
            Some(JsonView::Str(name)) => fails(
                path,
                "type mismatch: expected "@ + name + ", got "@ + kind_name(value),
            ),
            _ => None,
        }
    }
}

/// The first name that is required and missing.
pub open spec fn first_missing(members: Members, required: Seq<Seq<char>>) -> Option<Seq<char>>
    decreases required.len(),
{
    if required.len() == 0 {
        None
    } else if first_missing(members, required.drop_last()) is Some {
        first_missing(members, required.drop_last())
    } else if member(members, required.last()) is None {
        Some(required.last())
    } else {
        None
    }
}

/// The failure of `required`.
pub open spec fn required_failure(members: Members, schema: JsonView, path: Seq<char>) -> Option<FailureView> {
    match first_missing(members, listed_strings(schema, "required"@)) {
        Some(name) => fails(path, "missing required property '"@ + name + "'"@),
        None => None,
    }
}

/// The failure of a count that must lie within two bounds.
pub open spec fn count_failure(
    n: nat,
    schema: JsonView,
    min_key: Seq<char>,
    max_key: Seq<char>,
    path: Seq<char>,
) -> Option<FailureView> {
    let below = match bound(schema, min_key) {
        Some(min) => if n < min {
            fails(path, min_key + ": "@ + decimal(n) + " < "@ + decimal(min as nat))
        } else {
            None
        },
        None => None,
    };
    let above = match bound(schema, max_key) {
        Some(max) => if n > max {
            fails(path, max_key + ": "@ + decimal(n) + " > "@ + decimal(max as nat))
        } else {
            None
        },
        None => None,
    };
    earlier(below, above)
}

/// The failure of `minimum` and `maximum`.
pub open spec fn number_failure(n: NumberView, schema: JsonView, path: Seq<char>) -> Option<FailureView> {
    let below = match limit(schema, "minimum"@) {
        Some(min) => if n.units() < min.units() {
            fails(path, f64_text(n) + " < minimum "@ + f64_text(min))
        } else {
            None
        },
        None => None,
    };
    let above = match limit(schema, "maximum"@) {
        Some(max) => if n.units() > max.units() {
            fails(path, f64_text(n) + " > maximum "@ + f64_text(max))
        } else {
            None
        },
        None => None,
    };
    earlier(below, above)
}

/// The failure of `anyOf`: that of the last branch, where every branch fails.
pub open spec fn any_failure(value: JsonView, subs: Seq<JsonView>, path: Seq<char>) -> Option<FailureView>
    decreases subs, 4nat, 0nat,
{
    if exists|i: int| 0 <= i < subs.len() && failure(value, #[trigger] subs[i], path) is None {
        None
    } else if subs.len() == 0 {
        fails(path, "no anyOf branch matched"@)
    } else {
        failure(value, subs[subs.len() - 1], path)
    }
}

/// How many of the branches accept the value.
pub open spec fn accepting(value: JsonView, subs: Seq<JsonView>, path: Seq<char>) -> nat
    decreases subs, 4nat, 0nat,
{
    if subs.len() == 0 {
        0
    } else {
        accepting(value, subs.drop_last(), path) + if failure(value, subs[subs.len() - 1], path) is None {
            1nat
        } else {
            0nat
        }
    }
}

/// The failure of `allOf`: that of the first branch that fails.
pub open spec fn all_failure(value: JsonView, subs: Seq<JsonView>, path: Seq<char>) -> Option<FailureView>
    decreases subs, 4nat, 0nat,
{
    if subs.len() == 0 {
        None
    } else {
        earlier(all_failure(value, subs.drop_last(), path), failure(value, subs[subs.len() - 1], path))
    }
}

/// The failure of one member of an object.
pub open spec fn member_failure(key: Seq<char>, value: JsonView, schema: JsonView, path: Seq<char>) -> Option<
    FailureView,
>
    decreases schema, 0nat, 0nat,
{
    proof {
        lemma_member_rule_smaller(schema, key);
    }
    match member_rule(schema, key) {
        MemberRule::Governed(sub) => failure(value, sub, part_path(path, key)),
        MemberRule::Forbidden => fails(path, "additional property '"@ + key + "' not allowed"@),
        MemberRule::Free => None,
    }
}

/// The failure of the first member that fails.
pub open spec fn members_failure(members: Members, schema: JsonView, path: Seq<char>) -> Option<FailureView>
    decreases schema, 1nat, members.len(),
{
    if members.len() == 0 {
        None
    } else {
        let last = members[members.len() - 1];
        earlier(members_failure(members.drop_last(), schema, path), member_failure(last.0, last.1, schema, path))
    }
}

/// The failure of the first item that fails.
pub open spec fn items_failure(items: Seq<JsonView>, schema: JsonView, path: Seq<char>) -> Option<FailureView>
    decreases schema, 1nat, items.len(),
{
    if items.len() == 0 {
        None
    } else {
        let i = items.len() - 1;
        proof {
            lemma_item_rule_smaller(schema, i);
        }
        earlier(
            items_failure(items.drop_last(), schema, path),
            match item_rule(schema, i) {
                Some(sub) => failure(items[i], sub, part_path(path, decimal(i as nat))),
                None => None,
            },
        )
    }
}

/// The failure of what a value holds, by the value's own type.
pub open spec fn content_failure(value: JsonView, schema: JsonView, path: Seq<char>) -> Option<FailureView>
    decreases schema, 2nat, 0nat,
{
    match value {
        JsonView::Object(members) => earlier(
            required_failure(members, schema, path),
            members_failure(members, schema, path),
        ),
        JsonView::Array(items) => earlier(
            items_failure(items, schema, path),
            count_failure(items.len(), schema, "minItems"@, "maxItems"@, path),
        ),
        JsonView::Str(s) => count_failure(s.len(), schema, "minLength"@, "maxLength"@, path),
        JsonView::Num(n) => number_failure(n, schema, path),
        _ => None,
    }
}

/// How `value`, which stands at `path`, first fails `schema`.
pub open spec fn failure(value: JsonView, schema: JsonView, path: Seq<char>) -> Option<FailureView>
    decreases schema, 3nat, 0nat,
{
    proof {
        lemma_get_array_smaller(schema, "anyOf"@);
        lemma_get_array_smaller(schema, "oneOf"@);
        lemma_get_array_smaller(schema, "allOf"@);
    }
    let any = match schema.get_array("anyOf"@) {
        Some(subs) => any_failure(value, subs, path),
        None => None,
    };
    let one = match schema.get_array("oneOf"@) {
        Some(subs) => if accepting(value, subs, path) == 1 {
            None
        } else {
            fails(
                path,
                "expected exactly 1 oneOf branch to match, got "@ + decimal(accepting(value, subs, path)),
            )
        },
        None => None,
    };
    let all = match schema.get_array("allOf"@) {
        Some(subs) => all_failure(value, subs, path),
        None => None,
    };
    earlier(
        const_failure(value, schema, path),
        earlier(
            enum_failure(value, schema, path),
            earlier(
                any,
                earlier(
                    one,
                    earlier(all, earlier(type_failure(value, schema, path), content_failure(value, schema, path))),
                ),
            ),
        ),
    )
}

// ---------------------------------------------------------------------------
// Validation
// ---------------------------------------------------------------------------

/// Whether a result reports a given failure, or success in its absence.
pub open spec fn reports(r: Result<(), ValidationError>, f: Option<FailureView>) -> bool {
    match r {
        Ok(_) => f is None,
        Err(e) => f == Some(e@),
    }
}

/// Validates `value`, which stands at `path`, against `schema`.
pub fn validate_at(value: &Json, schema: &Json, path: &str) -> (r: Result<(), ValidationError>)
    ensures
        r is Ok <==> valid(value@, schema@),
        reports(r, failure(value@, schema@, path@)),
    decreases schema@, 3nat, 0nat,
{
    broadcast use lemma_array_view;

    proof {
        lemma_failure_iff_invalid(value@, schema@, path@);
        lemma_get_array_smaller(schema@, "anyOf"@);
        lemma_get_array_smaller(schema@, "oneOf"@);
        lemma_get_array_smaller(schema@, "allOf"@);
    }
    validate_const(value, schema, path)?;
    validate_enum(value, schema, path)?;
    if let Some(subs) = schema.get_array("anyOf") {
        validate_any(value, subs, path)?;
    }
    if let Some(subs) = schema.get_array("oneOf") {
        let n = count_accepting(value, subs, path);
        if n != 1 {
            let mut reason = "expected exactly 1 oneOf branch to match, got ".to_owned();
            reason.append(decimal_text(n).as_str());
            return Err(err(path, reason));
        }
    }
    if let Some(subs) = schema.get_array("allOf") {
        validate_all(value, subs, path)?;
    }
    validate_type(value, schema, path)?;
    match value {
        Json::Object(members) => validate_object(members, schema, path),
        Json::Array(items) => validate_array(items, schema, path),
        Json::Str(s) => validate_string(s.as_str(), schema, path),
        Json::Num(_) => validate_number(value, schema, path),
        _ => Ok(()),
    }
}

fn validate_const(value: &Json, schema: &Json, path: &str) -> (r: Result<(), ValidationError>)
    ensures
        reports(r, const_failure(value@, schema@, path@)),
{
    if let Some(c) = schema.get("const") {
        if !value.same(c) {
            let mut reason = "expected const ".to_owned();
            reason.append(to_text(c).as_str());
            return Err(err(path, reason));
        }
    }
    Ok(())
}

fn validate_enum(value: &Json, schema: &Json, path: &str) -> (r: Result<(), ValidationError>)
    ensures
        reports(r, enum_failure(value@, schema@, path@)),
{
    if let Some(values) = schema.get_array("enum") {
        let mut i: usize = 0;
        while i < values.len()
            invariant
                i <= values.len(),
                schema@.get_array("enum"@) == Some(views(values@)),
                forall|j: int| 0 <= j < i ==> !(#[trigger] views(values@)[j]).same(value@),
            decreases values.len() - i,
        {
            if values[i].same(value) {
                assert(views(values@)[i as int].same(value@));
                return Ok(());
            }
            i = i + 1;
        }
        let mut reason = "not in enum ".to_owned();
        reason.append(to_debug_text(values).as_str());
        return Err(err(path, reason));
    }
    Ok(())
}

fn validate_any(value: &Json, subs: &Vec<Json>, path: &str) -> (r: Result<(), ValidationError>)
    ensures
        reports(r, any_failure(value@, views(subs@), path@)),
    decreases views(subs@), 4nat, 0nat,
{
    let mut last: Option<ValidationError> = None;
    let mut i: usize = 0;
    while i < subs.len()
        invariant
            i <= subs.len(),
            forall|j: int| 0 <= j < i ==> failure(value@, #[trigger] views(subs@)[j], path@) is Some,
            match last {
                Some(e) => i > 0 && failure(value@, views(subs@)[i - 1], path@) == Some(e@),
                None => i == 0,
            },
        decreases subs.len() - i,
    {
        proof {
            assert(decreases_to!(views(subs@) => views(subs@)[i as int]));
        }
        match validate_at(value, &subs[i], path) {
            Ok(_) => {
                assert(failure(value@, views(subs@)[i as int], path@) is None);
                return Ok(());
            },
            Err(e) => {
                last = Some(e);
            },
        }
        i = i + 1;
    }
    match last {
        Some(e) => Err(e),
        None => Err(err(path, "no anyOf branch matched".to_owned())),
    }
}

fn count_accepting(value: &Json, subs: &Vec<Json>, path: &str) -> (r: u64)
    ensures
        r == accepting(value@, views(subs@), path@),
    decreases views(subs@), 4nat, 0nat,
{
    let mut n: u64 = 0;
    let mut i: usize = 0;
    let ghost all = views(subs@);
    while i < subs.len()
        invariant
            i <= subs.len(),
            all == views(subs@),
            n <= i,
            n == accepting(value@, all.take(i as int), path@),
        decreases subs.len() - i,
    {
        proof {
            assert(decreases_to!(views(subs@) => views(subs@)[i as int]));
            assert(all.take(i + 1).drop_last() =~= all.take(i as int));
        }
        if validate_at(value, &subs[i], path).is_ok() {
            n = n + 1;
        }
        i = i + 1;
    }
    assert(all.take(i as int) =~= all);
    n
}

fn validate_all(value: &Json, subs: &Vec<Json>, path: &str) -> (r: Result<(), ValidationError>)
    ensures
        reports(r, all_failure(value@, views(subs@), path@)),
    decreases views(subs@), 4nat, 0nat,
{
    let mut i: usize = 0;
    let ghost all = views(subs@);
    while i < subs.len()
        invariant
            i <= subs.len(),
            all == views(subs@),
            all_failure(value@, all.take(i as int), path@) is None,
        decreases subs.len() - i,
    {
        proof {
            assert(decreases_to!(views(subs@) => views(subs@)[i as int]));
            assert(all.take(i + 1).drop_last() =~= all.take(i as int));
        }
        if let Err(e) = validate_at(value, &subs[i], path) {
            proof {
                lemma_all_failure_stays(value@, all, path@, i + 1);
            }
            return Err(e);
        }
        i = i + 1;
    }
    assert(all.take(i as int) =~= all);
    Ok(())
}

/// The failure of the first branches is the failure of all of them.
proof fn lemma_all_failure_stays(value: JsonView, subs: Seq<JsonView>, path: Seq<char>, n: int)
    requires
        0 <= n <= subs.len(),
        all_failure(value, subs.take(n), path) is Some,
    ensures
        all_failure(value, subs, path) == all_failure(value, subs.take(n), path),
    decreases subs.len() - n,
{
    if n == subs.len() {
        assert(subs.take(n) =~= subs);
    } else {
        assert(subs.take(n + 1).drop_last() =~= subs.take(n));
        lemma_all_failure_stays(value, subs, path, n + 1);
    }
}

fn validate_type(value: &Json, schema: &Json, path: &str) -> (r: Result<(), ValidationError>)
    ensures
        reports(r, type_failure(value@, schema@, path@)),
{
    broadcast use lemma_array_view;

    match schema.get("type") {
        Some(Json::Str(name)) => {
            if !type_matches(value, name.as_str()) {
                let mut reason = concat3("type mismatch: expected ", name.as_str(), ", got ");
                reason.append(value_type(value));
                return Err(err(path, reason));
            }
        },
        Some(Json::Array(names)) => {
            let wanted = crate::json::collect_strings(names);
            let mut i: usize = 0;
            let mut matched = false;
            while i < wanted.len()
                invariant
                    i <= wanted.len(),
                    texts(wanted@) == strings(views(names@)),
                    matched <==> exists|j: int|
                        0 <= j < i && has_type(value@, #[trigger] strings(views(names@))[j]),
                decreases wanted.len() - i,
            {
                assert(strings(views(names@))[i as int] == wanted@[i as int]@);
                if type_matches(value, wanted[i].as_str()) {
                    matched = true;
                }
                i = i + 1;
            }
            if !matched {
                let mut reason = concat3(
                    "type mismatch: expected one of ",
                    to_debug_text(names).as_str(),
                    ", got ",
                );
                reason.append(value_type(value));
                return Err(err(path, reason));
            }
        },
        _ => {},
    }
    Ok(())
}

fn type_matches(value: &Json, name: &str) -> (r: bool)
    ensures
        r == has_type(value@, name@),
{
    match value {
        Json::Num(n) => same_text(name, "number") || (same_text(name, "integer") && n.is_whole()),
        _ => same_text(name, value_type(value)),
    }
}

fn value_type(v: &Json) -> (r: &'static str)
    ensures
        r@ == kind_name(v@),
{
    match v {
        Json::Str(_) => "string",
        Json::Num(_) => "number",
        Json::Bool(_) => "boolean",
        Json::Null => "null",
        Json::Array(_) => "array",
        Json::Object(_) => "object",
    }
}

/// Validates what an object holds: its required members, and each member by its rule.
pub fn validate_object(map: &JsonObject, schema: &Json, path: &str) -> (r: Result<(), ValidationError>)
    ensures
        r is Ok <==> content_valid(JsonView::Object(map@), schema@),
        reports(r, content_failure(JsonView::Object(map@), schema@, path@)),
    decreases schema@, 2nat, 0nat,
{
    proof {
        lemma_content(JsonView::Object(map@), schema@, path@);
    }
    let required = collect_listed(schema, "required");
    validate_required(map, &required, path)?;
    let mut i: usize = 0;
    while i < map.len()
        invariant
            i <= map@.len(),
            members_failure(map@.take(i as int), schema@, path@) is None,
            required_failure(map@, schema@, path@) is None,
        decreases map@.len() - i,
    {
        proof {
            assert(map@.take(i + 1).drop_last() =~= map@.take(i as int));
        }
        if let Err(e) = validate_member(map.key_at(i).as_str(), map.value_at(i), schema, path) {
            proof {
                lemma_members_failure_stays(map@, schema@, path@, i + 1);
                lemma_content(JsonView::Object(map@), schema@, path@);
            }
            return Err(e);
        }
        i = i + 1;
    }
    assert(map@.take(i as int) =~= map@);
    Ok(())
}

/// The failure of the first members is the failure of all of them.
proof fn lemma_members_failure_stays(members: Members, schema: JsonView, path: Seq<char>, n: int)
    requires
        0 <= n <= members.len(),
        members_failure(members.take(n), schema, path) is Some,
    ensures
        members_failure(members, schema, path) == members_failure(members.take(n), schema, path),
    decreases members.len() - n,
{
    if n == members.len() {
        assert(members.take(n) =~= members);
    } else {
        assert(members.take(n + 1).drop_last() =~= members.take(n));
        lemma_members_failure_stays(members, schema, path, n + 1);
    }
}

fn validate_required(map: &JsonObject, required: &Vec<String>, path: &str) -> (r: Result<(), ValidationError>)
    ensures
        reports(
            r,
            match first_missing(map@, texts(required@)) {
                Some(name) => fails(path@, "missing required property '"@ + name + "'"@),
                None => None,
            },
        ),
{
    let mut i: usize = 0;
    let ghost all = texts(required@);
    while i < required.len()
        invariant
            i <= required.len(),
            all == texts(required@),
            first_missing(map@, all.take(i as int)) is None,
        decreases required.len() - i,
    {
        proof {
            assert(all.take(i + 1).drop_last() =~= all.take(i as int));
            assert(all.take(i + 1).last() == required@[i as int]@);
        }
        if map.get(required[i].as_str()).is_none() {
            proof {
                lemma_first_missing_stays(map@, all, i + 1);
            }
            return Err(err(path, concat3("missing required property '", required[i].as_str(), "'")));
        }
        i = i + 1;
    }
    assert(all.take(i as int) =~= all);
    Ok(())
}

/// The first name missing among the first ones is the first name missing.
proof fn lemma_first_missing_stays(members: Members, required: Seq<Seq<char>>, n: int)
    requires
        0 <= n <= required.len(),
        first_missing(members, required.take(n)) is Some,
    ensures
        first_missing(members, required) == first_missing(members, required.take(n)),
    decreases required.len() - n,
{
    if n == required.len() {
        assert(required.take(n) =~= required);
    } else {
        assert(required.take(n + 1).drop_last() =~= required.take(n));
        lemma_first_missing_stays(members, required, n + 1);
    }
}

fn validate_member(key: &str, value: &Json, schema: &Json, path: &str) -> (r: Result<(), ValidationError>)
    ensures
        reports(r, member_failure(key@, value@, schema@, path@)),
    decreases schema@, 0nat, 0nat,
{
    proof {
        lemma_member_rule_smaller(schema@, key@);
    }
    let own = match schema.get_object("properties") {
        Some(properties) => properties.get(key),
        None => None,
    };
    match own {
        Some(sub) => validate_at(value, sub, concat3(path, "/", key).as_str()),
        None => match schema.get("additionalProperties") {
            Some(extra) => match extra {
                Json::Bool(false) => Err(err(path, concat3("additional property '", key, "' not allowed"))),
                Json::Object(_) => validate_at(value, extra, concat3(path, "/", key).as_str()),
                _ => Ok(()),
            },
            None => Ok(()),
        },
    }
}

/// Validates what an array holds: each item by its rule, and their number.
pub fn validate_array(items: &Vec<Json>, schema: &Json, path: &str) -> (r: Result<(), ValidationError>)
    ensures
        r is Ok <==> content_valid(JsonView::Array(views(items@)), schema@),
        reports(r, content_failure(JsonView::Array(views(items@)), schema@, path@)),
    decreases schema@, 2nat, 0nat,
{
    broadcast use lemma_array_view;

    proof {
        lemma_content(JsonView::Array(views(items@)), schema@, path@);
    }
    let ghost all = views(items@);
    let mut i: usize = 0;
    while i < items.len()
        invariant
            i <= items.len(),
            all == views(items@),
            items_failure(all.take(i as int), schema@, path@) is None,
        decreases items.len() - i,
    {
        proof {
            lemma_item_rule_smaller(schema@, i as int);
            assert(all.take(i + 1).drop_last() =~= all.take(i as int));
        }
        let rule = match schema.get("items") {
            Some(rule) => match rule {
                Json::Object(_) => Some(rule),
                Json::Array(tuple) => if i < tuple.len() { Some(&tuple[i]) } else { None },
                _ => None,
            },
            None => None,
        };
        if let Some(sub) = rule {
            let place = decimal_text(i as u64);
            if let Err(e) = validate_at(&items[i], sub, concat3(path, "/", place.as_str()).as_str()) {
                proof {
                    lemma_items_failure_stays(all, schema@, path@, i + 1);
                    lemma_content(JsonView::Array(all), schema@, path@);
                }
                return Err(e);
            }
        }
        i = i + 1;
    }
    assert(all.take(i as int) =~= all);
    validate_count(items.len() as u64, schema, "minItems", "maxItems", path)
}

/// The failure of the first items is the failure of all of them.
proof fn lemma_items_failure_stays(items: Seq<JsonView>, schema: JsonView, path: Seq<char>, n: int)
    requires
        0 <= n <= items.len(),
        items_failure(items.take(n), schema, path) is Some,
    ensures
        items_failure(items, schema, path) == items_failure(items.take(n), schema, path),
    decreases items.len() - n,
{
    if n == items.len() {
        assert(items.take(n) =~= items);
    } else {
        assert(items.take(n + 1).drop_last() =~= items.take(n));
        lemma_items_failure_stays(items, schema, path, n + 1);
    }
}

fn validate_count(n: u64, schema: &Json, min_key: &str, max_key: &str, path: &str) -> (r: Result<
    (),
    ValidationError,
>)
    ensures
        reports(r, count_failure(n as nat, schema@, min_key@, max_key@, path@)),
{
    let min = match schema.get(min_key) {
        Some(v) => v.as_u64(),
        None => None,
    };
    if let Some(min) = min {
        if n < min {
            let mut reason = concat3(min_key, ": ", decimal_text(n).as_str());
            reason.append(" < ");
            reason.append(decimal_text(min).as_str());
            return Err(err(path, reason));
        }
    }
    let max = match schema.get(max_key) {
        Some(v) => v.as_u64(),
        None => None,
    };
    if let Some(max) = max {
        if n > max {
            let mut reason = concat3(max_key, ": ", decimal_text(n).as_str());
            reason.append(" > ");
            reason.append(decimal_text(max).as_str());
            return Err(err(path, reason));
        }
    }
    Ok(())
}

fn validate_string(s: &str, schema: &Json, path: &str) -> (r: Result<(), ValidationError>)
    ensures
        reports(r, content_failure(JsonView::Str(s@), schema@, path@)),
{
    validate_count(s.unicode_len() as u64, schema, "minLength", "maxLength", path)
}

fn validate_number(value: &Json, schema: &Json, path: &str) -> (r: Result<(), ValidationError>)
    requires
        value@ is Num,
    ensures
        reports(r, content_failure(value@, schema@, path@)),
{
    if let Json::Num(n) = value {
        if let Some(Json::Num(min)) = schema.get("minimum") {
            if n.less(min) {
                return Err(err(path, concat3(n.f64_text().as_str(), " < minimum ", min.f64_text().as_str())));
            }
        }
        if let Some(Json::Num(max)) = schema.get("maximum") {
            if max.less(n) {
                return Err(err(path, concat3(n.f64_text().as_str(), " > maximum ", max.f64_text().as_str())));
            }
        }
    }
    Ok(())
}

/// Validates `value` against `schema`.
pub fn validate(value: &Json, schema: &Json) -> (r: Result<(), ValidationError>)
    ensures
        r is Ok <==> valid(value@, schema@),
        reports(r, failure(value@, schema@, ""@)),
{
    validate_at(value, schema, "")
}

// ---------------------------------------------------------------------------
// Rehydration
// ---------------------------------------------------------------------------

/// What becomes of an argument: a `null` that is not required is left out, an
/// argument with a schema of its own is stripped in turn.
pub open spec fn stripped_member(
    key: Seq<char>,
    value: JsonView,
    properties: Members,
    required: Seq<Seq<char>>,
) -> Option<JsonView>
    decreases value, 1nat,
{
    if value is Null && !required.contains(key) {
        None
    } else {
        match member(properties, key) {
            Some(sub) => Some(stripped(value, sub)),
            None => Some(value),
        }
    }
}

/// The arguments that are left, in order.
pub open spec fn stripped_members(members: Members, properties: Members, required: Seq<Seq<char>>) -> Members
    decreases members, 2nat,
{
    if members.len() == 0 {
        Seq::empty()
    } else {
        let rest = stripped_members(members.drop_last(), properties, required);
        let (key, value) = members[members.len() - 1];
        match stripped_member(key, value, properties, required) {
            Some(v) => rest.push((key, v)),
            None => rest,
        }
    }
}

/// Arguments without the `null`s that stand for optional fields, as deep as
/// the schema's `properties` describe them.
pub open spec fn stripped(args: JsonView, schema: JsonView) -> JsonView
    decreases args, 0nat,
{
    match (args, schema.get_object("properties"@)) {
        (JsonView::Object(members), Some(properties)) => JsonView::Object(
            stripped_members(members, properties, listed_strings(schema, "required"@)),
        ),
        _ => args,
    }
}

/// The arguments that are validated and sent on.
pub open spec fn normalized(args: JsonView, schema: JsonView, aggressive: bool) -> JsonView {
    if aggressive {
        stripped(args, schema)
    } else {
        args
    }
}

/// Validates a call's arguments against the tool's schema and returns them in
/// the shape that the upstream expects: as they are, or, if `aggressive`,
/// without the `null`s of optional fields.
pub fn rehydrate(args: &Json, schema: &Json, aggressive: bool) -> (r: Result<Json, ValidationError>)
    ensures
        r is Ok <==> valid(normalized(args@, schema@, aggressive), schema@),
        match r {
            Ok(out) => out@ == normalized(args@, schema@, aggressive),
            Err(e) => failure(normalized(args@, schema@, aggressive), schema@, ""@) == Some(e@),
        },
{
    let out = if aggressive {
        strip_optional_nulls(args, schema)
    } else {
        args.clone()
    };
    match validate(&out, schema) {
        Ok(_) => Ok(out),
        Err(e) => Err(e),
    }
}

/// Leaves the `null`s of optional fields out of a call's arguments.
pub fn strip_optional_nulls(args: &Json, schema: &Json) -> (r: Json)
    ensures
        r@ == stripped(args@, schema@),
    decreases args@,
{
    let (map, properties) = match (args.as_object(), schema.get_object("properties")) {
        (Some(map), Some(properties)) => (map, properties),
        _ => {
            return args.clone();
        },
    };
    let required = collect_listed(schema, "required");
    let ghost names = listed_strings(schema@, "required"@);
    proof {
        use_type_invariant(map);
    }
    let mut out: Vec<(String, Json)> = Vec::new();
    let mut i: usize = 0;
    assert(entry_views(out@) =~= stripped_members(map@.take(0), properties@, names));
    while i < map.len()
        invariant
            i <= map@.len(),
            ascending(map@),
            args@ == JsonView::Object(map@),
            texts(required@) == names,
            entry_views(out@) == stripped_members(map@.take(i as int), properties@, names),
            ascending(entry_views(out@)),
            forall|a: int, b: int|
                0 <= a < out@.len() && i <= b < map@.len() ==> text_less(
                    (#[trigger] entry_views(out@)[a]).0,
                    (#[trigger] map@[b]).0,
                ),
        decreases map@.len() - i,
    {
        let key = map.key_at(i);
        let value = map.value_at(i);
        proof {
            assert(decreases_to!(args@ => args@->Object_0));
            assert(decreases_to!(map@ => map@[i as int]));
            assert(decreases_to!(map@[i as int] => map@[i as int].1));
            assert(map@.take(i + 1).drop_last() =~= map@.take(i as int));
            assert(map@.take(i + 1).last() == map@[i as int]);
        }
        let kept = if value.is_null() && !contains_text(&required, key.as_str()) {
            None
        } else {
            match properties.get(key.as_str()) {
                Some(sub) => Some(strip_optional_nulls(value, sub)),
                None => Some(value.clone()),
            }
        };
        proof {
            let step = stripped_member(map@[i as int].0, map@[i as int].1, properties@, names);
            assert(match kept {
                Some(v) => step == Some(v@),
                None => step is None,
            });
            assert(stripped_members(map@.take(i + 1), properties@, names) == match step {
                Some(v) => entry_views(out@).push((map@[i as int].0, v)),
                None => entry_views(out@),
            });
        }
        if let Some(v) = kept {
            let ghost before = entry_views(out@);
            out.push((key.clone(), v));
            assert(entry_views(out@) =~= before.push((key@, v@)));
        }
        i = i + 1;
    }
    assert(map@.take(i as int) =~= map@);
    Json::Object(JsonObject::from_ascending(out))
}

// ---------------------------------------------------------------------------
// A value fails exactly when the schema does not accept it
// ---------------------------------------------------------------------------

/// How many of the answers are yes.
spec fn count_yes(answers: Seq<bool>) -> nat
    decreases answers.len(),
{
    if answers.len() == 0 {
        0
    } else {
        count_yes(answers.drop_last()) + if answers.last() {
            1nat
        } else {
            0nat
        }
    }
}

/// Whether exactly one of the answers is yes.
spec fn one_yes(answers: Seq<bool>) -> bool {
    exists|i: int|
        {
            &&& 0 <= i < answers.len()
            &&& #[trigger] answers[i]
            &&& forall|j: int| 0 <= j < answers.len() && j != i ==> !#[trigger] answers[j]
        }
}

proof fn lemma_no_yes(answers: Seq<bool>)
    ensures
        count_yes(answers) == 0 <==> forall|i: int| 0 <= i < answers.len() ==> !#[trigger] answers[i],
    decreases answers.len(),
{
    if answers.len() > 0 {
        let rest = answers.drop_last();
        lemma_no_yes(rest);
        assert forall|i: int| 0 <= i < rest.len() implies rest[i] == #[trigger] answers[i] by {}
        if forall|i: int| 0 <= i < answers.len() ==> !#[trigger] answers[i] {
            assert forall|i: int| 0 <= i < rest.len() implies !#[trigger] rest[i] by {
                assert(!answers[i]);
            }
            assert(!answers[answers.len() - 1]);
        }
    }
}

proof fn lemma_one_yes(answers: Seq<bool>)
    ensures
        count_yes(answers) == 1 <==> one_yes(answers),
    decreases answers.len(),
{
    if answers.len() > 0 {
        let rest = answers.drop_last();
        let n = answers.len() - 1;
        lemma_no_yes(rest);
        lemma_one_yes(rest);
        assert forall|i: int| 0 <= i < n implies rest[i] == #[trigger] answers[i] by {}
        if count_yes(answers) == 1 {
            if answers[n] {
                assert forall|j: int| 0 <= j < answers.len() && j != n implies !#[trigger] answers[j] by {
                    assert(!rest[j]);
                }
            } else {
                let i = choose|i: int|
                    {
                        &&& 0 <= i < rest.len()
                        &&& #[trigger] rest[i]
                        &&& forall|j: int| 0 <= j < rest.len() && j != i ==> !#[trigger] rest[j]
                    };
                assert(answers[i]);
                assert forall|j: int| 0 <= j < answers.len() && j != i implies !#[trigger] answers[j] by {
                    if j < n {
                        assert(!rest[j]);
                    }
                }
            }
        }
        if one_yes(answers) {
            let i = choose|i: int|
                {
                    &&& 0 <= i < answers.len()
                    &&& #[trigger] answers[i]
                    &&& forall|j: int| 0 <= j < answers.len() && j != i ==> !#[trigger] answers[j]
                };
            if i == n {
                assert forall|j: int| 0 <= j < rest.len() implies !#[trigger] rest[j] by {
                    assert(!answers[j]);
                }
            } else {
                assert(rest[i]);
                assert forall|j: int| 0 <= j < rest.len() && j != i implies !#[trigger] rest[j] by {
                    assert(!answers[j]);
                }
                assert(!answers[n]);
            }
        }
    }
}

/// Which branches accept the value.
spec fn acceptance(value: JsonView, subs: Seq<JsonView>) -> Seq<bool> {
    Seq::new(subs.len(), |i: int| valid(value, subs[i]))
}

proof fn lemma_accepting_counts(value: JsonView, subs: Seq<JsonView>, path: Seq<char>)
    requires
        branches_agree(value, subs, path),
    ensures
        accepting(value, subs, path) == count_yes(acceptance(value, subs)),
    decreases subs.len(),
{
    if subs.len() > 0 {
        let rest = subs.drop_last();
        let last = subs[subs.len() - 1];
        assert(branches_agree(value, rest, path)) by {
            assert forall|i: int| 0 <= i < rest.len() implies (failure(value, #[trigger] rest[i], path) is None
                <==> valid(value, rest[i])) by {
                assert(rest[i] == subs[i]);
            }
        }
        lemma_accepting_counts(value, rest, path);
        assert(acceptance(value, subs).drop_last() =~= acceptance(value, rest));
        assert(failure(value, last, path) is None <==> valid(value, last));
    }
}

proof fn lemma_one_accepts(value: JsonView, subs: Seq<JsonView>)
    ensures
        one_accepts(value, subs) <==> one_yes(acceptance(value, subs)),
{
    let answers = acceptance(value, subs);
    if one_accepts(value, subs) {
        let i = choose|i: int|
            {
                &&& 0 <= i < subs.len()
                &&& valid(value, #[trigger] subs[i])
                &&& forall|j: int| 0 <= j < subs.len() && j != i ==> !valid(value, #[trigger] subs[j])
            };
        assert(answers[i]);
        assert forall|j: int| 0 <= j < answers.len() && j != i implies !#[trigger] answers[j] by {
            assert(!valid(value, subs[j]));
        }
    }
    if one_yes(answers) {
        let i = choose|i: int|
            {
                &&& 0 <= i < answers.len()
                &&& #[trigger] answers[i]
                &&& forall|j: int| 0 <= j < answers.len() && j != i ==> !#[trigger] answers[j]
            };
        assert(valid(value, subs[i]));
        assert forall|j: int| 0 <= j < subs.len() && j != i implies !valid(value, #[trigger] subs[j]) by {
            assert(!answers[j]);
        }
    }
}

proof fn lemma_accepting(value: JsonView, subs: Seq<JsonView>, path: Seq<char>)
    requires
        branches_agree(value, subs, path),
    ensures
        accepting(value, subs, path) == 1 <==> one_accepts(value, subs),
{
    lemma_accepting_counts(value, subs, path);
    lemma_one_yes(acceptance(value, subs));
    lemma_one_accepts(value, subs);
}

proof fn lemma_all_accept(value: JsonView, subs: Seq<JsonView>, path: Seq<char>)
    requires
        branches_agree(value, subs, path),
    ensures
        all_failure(value, subs, path) is None <==> all_accept(value, subs),
    decreases subs.len(),
{
    if subs.len() > 0 {
        let rest = subs.drop_last();
        let last = subs[subs.len() - 1];
        assert(failure(value, last, path) is None <==> valid(value, last));
        assert forall|i: int| 0 <= i < rest.len() implies rest[i] == #[trigger] subs[i] by {}
        assert(branches_agree(value, rest, path)) by {
            assert forall|i: int| 0 <= i < rest.len() implies (failure(value, #[trigger] rest[i], path) is None
                <==> valid(value, rest[i])) by {
                assert(rest[i] == subs[i]);
            }
        }
        lemma_all_accept(value, rest, path);
        if all_failure(value, subs, path) is None {
            assert forall|i: int| 0 <= i < subs.len() implies valid(value, #[trigger] subs[i]) by {
                if i < rest.len() {
                    assert(valid(value, rest[i]));
                }
            }
        }
        if forall|i: int| 0 <= i < subs.len() ==> valid(value, #[trigger] subs[i]) {
            assert forall|i: int| 0 <= i < rest.len() implies valid(value, #[trigger] rest[i]) by {
                assert(rest[i] == subs[i]);
            }
        }
    }
}

proof fn lemma_none_missing(members: Members, required: Seq<Seq<char>>)
    ensures
        first_missing(members, required) is None <==> forall|i: int|
            0 <= i < required.len() ==> member(members, #[trigger] required[i]) is Some,
    decreases required.len(),
{
    if required.len() > 0 {
        let rest = required.drop_last();
        lemma_none_missing(members, rest);
        if first_missing(members, required) is None {
            assert forall|i: int| 0 <= i < required.len() implies member(
                members,
                #[trigger] required[i],
            ) is Some by {
                if i < rest.len() {
                    assert(member(members, rest[i]) is Some);
                }
            }
        }
        if forall|i: int| 0 <= i < required.len() ==> member(members, #[trigger] required[i]) is Some {
            assert forall|i: int| 0 <= i < rest.len() implies member(members, #[trigger] rest[i]) is Some by {
                assert(rest[i] == required[i]);
            }
            assert(member(members, required[required.len() - 1]) is Some);
        }
    }
}

proof fn lemma_members_pass(members: Members, schema: JsonView, path: Seq<char>)
    ensures
        members_failure(members, schema, path) is None <==> forall|i: int|
            0 <= i < members.len() ==> member_failure((#[trigger] members[i]).0, members[i].1, schema, path) is None,
    decreases members.len(),
{
    if members.len() > 0 {
        let rest = members.drop_last();
        lemma_members_pass(rest, schema, path);
        if members_failure(members, schema, path) is None {
            assert forall|i: int| 0 <= i < members.len() implies member_failure(
                (#[trigger] members[i]).0,
                members[i].1,
                schema,
                path,
            ) is None by {
                if i < rest.len() {
                    assert(rest[i] == members[i]);
                }
            }
        }
        if forall|i: int|
            0 <= i < members.len() ==> member_failure((#[trigger] members[i]).0, members[i].1, schema, path) is None {
            assert forall|i: int| 0 <= i < rest.len() implies member_failure(
                (#[trigger] rest[i]).0,
                rest[i].1,
                schema,
                path,
            ) is None by {
                assert(rest[i] == members[i]);
            }
            let last = members[members.len() - 1];
            assert(member_failure(last.0, last.1, schema, path) is None);
        }
    }
}

/// Whether the item at `i` fails under its rule.
spec fn item_fails(items: Seq<JsonView>, schema: JsonView, path: Seq<char>, i: int) -> bool {
    match item_rule(schema, i) {
        Some(sub) => failure(items[i], sub, part_path(path, decimal(i as nat))) is Some,
        None => false,
    }
}

proof fn lemma_items_pass(items: Seq<JsonView>, schema: JsonView, path: Seq<char>)
    ensures
        items_failure(items, schema, path) is None <==> forall|i: int|
            0 <= i < items.len() ==> !#[trigger] item_fails(items, schema, path, i),
    decreases items.len(),
{
    if items.len() > 0 {
        let rest = items.drop_last();
        let n = items.len() - 1;
        lemma_items_pass(rest, schema, path);
        assert forall|i: int| 0 <= i < n implies #[trigger] item_fails(rest, schema, path, i) == item_fails(
            items,
            schema,
            path,
            i,
        ) by {
            assert(rest[i] == items[i]);
        }
        if items_failure(items, schema, path) is None {
            assert forall|i: int| 0 <= i < items.len() implies !#[trigger] item_fails(items, schema, path, i) by {
                if i < n {
                    assert(!item_fails(rest, schema, path, i));
                }
            }
        }
        if forall|i: int| 0 <= i < items.len() ==> !#[trigger] item_fails(items, schema, path, i) {
            assert forall|i: int| 0 <= i < rest.len() implies !#[trigger] item_fails(rest, schema, path, i) by {
                assert(!item_fails(items, schema, path, i));
            }
            assert(!item_fails(items, schema, path, n));
        }
    }
}

/// A branch accepts the value exactly where the value does not fail it.
spec fn branches_agree(value: JsonView, subs: Seq<JsonView>, path: Seq<char>) -> bool {
    forall|i: int|
        0 <= i < subs.len() ==> (failure(value, #[trigger] subs[i], path) is None <==> valid(value, subs[i]))
}

proof fn lemma_branches(value: JsonView, schema: JsonView, key: Seq<char>, path: Seq<char>)
    ensures
        schema.get_array(key) matches Some(subs) ==> branches_agree(value, subs, path),
    decreases schema, 0nat,
{
    lemma_get_array_smaller(schema, key);
    if let Some(subs) = schema.get_array(key) {
        assert forall|i: int| 0 <= i < subs.len() implies (failure(value, #[trigger] subs[i], path) is None <==> valid(
            value,
            subs[i],
        )) by {
            assert(decreases_to!(subs => subs[i]));
            lemma_failure_iff_invalid(value, subs[i], path);
        }
    }
}

proof fn lemma_any_accepts(value: JsonView, subs: Seq<JsonView>, path: Seq<char>)
    requires
        branches_agree(value, subs, path),
    ensures
        any_failure(value, subs, path) is None <==> any_accepts(value, subs),
{
    if subs.len() > 0 {
        let last = subs[subs.len() - 1];
        assert(failure(value, last, path) is None <==> valid(value, last));
    }
}

/// A value fails a schema exactly when the schema does not accept it, wherever the value stands.
pub proof fn lemma_failure_iff_invalid(value: JsonView, schema: JsonView, path: Seq<char>)
    ensures
        failure(value, schema, path) is None <==> valid(value, schema),
    decreases schema, 1nat,
{
    lemma_branches(value, schema, "anyOf"@, path);
    lemma_branches(value, schema, "oneOf"@, path);
    lemma_branches(value, schema, "allOf"@, path);
    if let Some(subs) = schema.get_array("anyOf"@) {
        lemma_any_accepts(value, subs, path);
    }
    if let Some(subs) = schema.get_array("oneOf"@) {
        lemma_accepting(value, subs, path);
    }
    if let Some(subs) = schema.get_array("allOf"@) {
        lemma_all_accept(value, subs, path);
    }
    lemma_content(value, schema, path);
}

proof fn lemma_content(value: JsonView, schema: JsonView, path: Seq<char>)
    ensures
        content_failure(value, schema, path) is None <==> content_valid(value, schema),
    decreases schema, 0nat,
{
    match value {
        JsonView::Object(members) => {
            lemma_none_missing(members, listed_strings(schema, "required"@));
            lemma_members_pass(members, schema, path);
            assert forall|i: int| 0 <= i < members.len() implies (member_failure(
                (#[trigger] members[i]).0,
                members[i].1,
                schema,
                path,
            ) is None <==> member_valid(members[i].0, members[i].1, schema)) by {
                lemma_member_rule_smaller(schema, members[i].0);
                if let MemberRule::Governed(sub) = member_rule(schema, members[i].0) {
                    lemma_failure_iff_invalid(members[i].1, sub, part_path(path, members[i].0));
                }
            }
        },
        JsonView::Array(items) => {
            lemma_items_pass(items, schema, path);
            assert forall|i: int| 0 <= i < items.len() implies (#[trigger] item_fails(items, schema, path, i)
                <==> !item_valid(i, items[i], schema)) by {
                lemma_item_rule_smaller(schema, i);
                if let Some(sub) = item_rule(schema, i) {
                    lemma_failure_iff_invalid(items[i], sub, part_path(path, decimal(i as nat)));
                }
            }
            if forall|i: int| 0 <= i < items.len() ==> item_valid(i, #[trigger] items[i], schema) {
                assert forall|i: int| 0 <= i < items.len() implies !#[trigger] item_fails(items, schema, path, i) by {
                    assert(item_valid(i, items[i], schema));
                }
            }
            if forall|i: int| 0 <= i < items.len() ==> !#[trigger] item_fails(items, schema, path, i) {
                assert forall|i: int| 0 <= i < items.len() implies item_valid(i, #[trigger] items[i], schema) by {
                    assert(!item_fails(items, schema, path, i));
                }
            }
        },
        _ => {},
    }
}

} // verus!
