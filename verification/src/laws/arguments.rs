//! What validation and rehydration promise of a call's arguments.
use vstd::prelude::*;

use crate::json::{ascending, key_index, lemma_key_index, lemma_key_index_unique, member, JsonView, Members};
use crate::json::{lemma_get_array_smaller, listed_strings};
use crate::text::{decimal, lemma_text_less_irreflexive, text_less};
use crate::validator::{accepting, all_failure, any_failure, content_failure, failure, FailureView};
use crate::validator::{item_rule, lemma_item_rule_smaller, lemma_member_rule_smaller, member_failure, member_rule};
use crate::validator::{items_failure, members_failure, part_path, stripped, stripped_member, stripped_members};
use crate::validator::{normalized, MemberRule};

verus! {

// ---------------------------------------------------------------------------
// A failure points into the arguments
// ---------------------------------------------------------------------------

/// Whether `to` is the path of a part of `value`, or of the value itself,
/// where the value stands at `from`.
pub open spec fn reaches(value: JsonView, from: Seq<char>, to: Seq<char>) -> bool
    decreases value,
{
    ||| to == from
    ||| match value {
        JsonView::Object(members) => exists|i: int|
            0 <= i < members.len() && reaches((#[trigger] members[i]).1, part_path(from, members[i].0), to),
        JsonView::Array(items) => exists|i: int|
            0 <= i < items.len() && reaches(#[trigger] items[i], part_path(from, decimal(i as nat)), to),
        _ => false,
    }
}

/// Whether a failure, if there is one, is that of a part of the value at `path`.
pub open spec fn lies_within(f: Option<FailureView>, value: JsonView, path: Seq<char>) -> bool {
    f matches Some(f) ==> reaches(value, path, f.path)
}

proof fn lemma_member_reaches(members: Members, i: int, from: Seq<char>, to: Seq<char>)
    requires
        0 <= i < members.len(),
        reaches(members[i].1, part_path(from, members[i].0), to),
    ensures
        reaches(JsonView::Object(members), from, to),
{
    let v = JsonView::Object(members);
    assert(v->Object_0 == members);
}

proof fn lemma_item_reaches(items: Seq<JsonView>, i: int, from: Seq<char>, to: Seq<char>)
    requires
        0 <= i < items.len(),
        reaches(items[i], part_path(from, decimal(i as nat)), to),
    ensures
        reaches(JsonView::Array(items), from, to),
{
    let v = JsonView::Array(items);
    assert(v->Array_0 == items);
}

proof fn lemma_all_within(value: JsonView, subs: Seq<JsonView>, path: Seq<char>)
    requires
        forall|i: int| 0 <= i < subs.len() ==> lies_within(failure(value, #[trigger] subs[i], path), value, path),
    ensures
        lies_within(all_failure(value, subs, path), value, path),
    decreases subs.len(),
{
    if subs.len() > 0 {
        let rest = subs.drop_last();
        assert forall|i: int| 0 <= i < rest.len() implies lies_within(
            failure(value, #[trigger] rest[i], path),
            value,
            path,
        ) by {
            assert(rest[i] == subs[i]);
        }
        lemma_all_within(value, rest, path);
        assert(lies_within(failure(value, subs[subs.len() - 1], path), value, path));
    }
}

proof fn lemma_branches_within(value: JsonView, schema: JsonView, key: Seq<char>, path: Seq<char>)
    ensures
        schema.get_array(key) matches Some(subs) ==> {
            &&& lies_within(any_failure(value, subs, path), value, path)
            &&& lies_within(all_failure(value, subs, path), value, path)
        },
    decreases schema, 0nat,
{
    lemma_get_array_smaller(schema, key);
    if let Some(subs) = schema.get_array(key) {
        assert forall|i: int| 0 <= i < subs.len() implies lies_within(
            failure(value, #[trigger] subs[i], path),
            value,
            path,
        ) by {
            assert(decreases_to!(subs => subs[i]));
            lemma_failure_points_into_value(value, subs[i], path);
        }
        if subs.len() > 0 {
            assert(lies_within(failure(value, subs[subs.len() - 1], path), value, path));
        }
        lemma_all_within(value, subs, path);
    }
}

proof fn lemma_members_within(members: Members, n: int, schema: JsonView, path: Seq<char>)
    requires
        0 <= n <= members.len(),
    ensures
        lies_within(members_failure(members.take(n), schema, path), JsonView::Object(members), path),
    decreases schema, 0nat, n,
{
    let part = members.take(n);
    if n > 0 {
        assert(part.drop_last() =~= members.take(n - 1));
        assert(part[n - 1] == members[n - 1]);
        lemma_members_within(members, n - 1, schema, path);
        let (key, value) = members[n - 1];
        lemma_member_rule_smaller(schema, key);
        if let MemberRule::Governed(sub) = member_rule(schema, key) {
            lemma_failure_points_into_value(value, sub, part_path(path, key));
            assert(lies_within(member_failure(key, value, schema, path), JsonView::Object(members), path)) by {
                if let Some(f) = failure(value, sub, part_path(path, key)) {
                    lemma_member_reaches(members, n - 1, path, f.path);
                }
            }
        }
    }
}

proof fn lemma_items_within(items: Seq<JsonView>, n: int, schema: JsonView, path: Seq<char>)
    requires
        0 <= n <= items.len(),
    ensures
        lies_within(items_failure(items.take(n), schema, path), JsonView::Array(items), path),
    decreases schema, 0nat, n,
{
    let part = items.take(n);
    if n > 0 {
        assert(part.drop_last() =~= items.take(n - 1));
        assert(part[n - 1] == items[n - 1]);
        lemma_items_within(items, n - 1, schema, path);
        lemma_item_rule_smaller(schema, n - 1);
        if let Some(sub) = item_rule(schema, n - 1) {
            let at = part_path(path, decimal((n - 1) as nat));
            lemma_failure_points_into_value(items[n - 1], sub, at);
            if let Some(f) = failure(items[n - 1], sub, at) {
                lemma_item_reaches(items, n - 1, path, f.path);
            }
        }
    }
}

/// The path of a failure leads from the place of the value to one of its parts, or to the value itself.
pub proof fn lemma_failure_points_into_value(value: JsonView, schema: JsonView, path: Seq<char>)
    ensures
        failure(value, schema, path) matches Some(f) ==> reaches(value, path, f.path),
    decreases schema, 1nat, 0int,
{
    lemma_branches_within(value, schema, "anyOf"@, path);
    lemma_branches_within(value, schema, "allOf"@, path);
    match value {
        JsonView::Object(members) => {
            lemma_members_within(members, members.len() as int, schema, path);
            assert(members.take(members.len() as int) =~= members);
        },
        JsonView::Array(items) => {
            lemma_items_within(items, items.len() as int, schema, path);
            assert(items.take(items.len() as int) =~= items);
        },
        _ => {},
    }
    assert(lies_within(content_failure(value, schema, path), value, path));
}

// ---------------------------------------------------------------------------
// A path only prefixes the place of a failure
// ---------------------------------------------------------------------------

/// A failure with its path moved behind another one.
pub open spec fn moved(path: Seq<char>, f: Option<FailureView>) -> Option<FailureView> {
    match f {
        Some(f) => Some(FailureView { path: path + f.path, reason: f.reason }),
        None => None,
    }
}

/// Whether every branch fails in the same way at both paths.
spec fn branches_move(value: JsonView, subs: Seq<JsonView>, path: Seq<char>, at: Seq<char>) -> bool {
    forall|i: int|
        0 <= i < subs.len() ==> failure(value, #[trigger] subs[i], path + at) == moved(
            path,
            failure(value, subs[i], at),
        )
}

proof fn lemma_branches_move_prefix(value: JsonView, subs: Seq<JsonView>, path: Seq<char>, at: Seq<char>)
    requires
        subs.len() > 0,
        branches_move(value, subs, path, at),
    ensures
        branches_move(value, subs.drop_last(), path, at),
{
    let rest = subs.drop_last();
    assert forall|i: int| 0 <= i < rest.len() implies failure(value, #[trigger] rest[i], path + at) == moved(
        path,
        failure(value, rest[i], at),
    ) by {
        assert(rest[i] == subs[i]);
    }
}

proof fn lemma_accepting_moves(value: JsonView, subs: Seq<JsonView>, path: Seq<char>, at: Seq<char>)
    requires
        branches_move(value, subs, path, at),
    ensures
        accepting(value, subs, path + at) == accepting(value, subs, at),
    decreases subs.len(),
{
    if subs.len() > 0 {
        lemma_branches_move_prefix(value, subs, path, at);
        lemma_accepting_moves(value, subs.drop_last(), path, at);
        let last = subs[subs.len() - 1];
        assert(failure(value, last, path + at) == moved(path, failure(value, last, at)));
    }
}

proof fn lemma_all_moves(value: JsonView, subs: Seq<JsonView>, path: Seq<char>, at: Seq<char>)
    requires
        branches_move(value, subs, path, at),
    ensures
        all_failure(value, subs, path + at) == moved(path, all_failure(value, subs, at)),
    decreases subs.len(),
{
    if subs.len() > 0 {
        lemma_branches_move_prefix(value, subs, path, at);
        lemma_all_moves(value, subs.drop_last(), path, at);
        let last = subs[subs.len() - 1];
        assert(failure(value, last, path + at) == moved(path, failure(value, last, at)));
    }
}

proof fn lemma_any_moves(value: JsonView, subs: Seq<JsonView>, path: Seq<char>, at: Seq<char>)
    requires
        branches_move(value, subs, path, at),
    ensures
        any_failure(value, subs, path + at) == moved(path, any_failure(value, subs, at)),
{
    if exists|i: int| 0 <= i < subs.len() && failure(value, #[trigger] subs[i], at) is None {
        let i = choose|i: int| 0 <= i < subs.len() && failure(value, #[trigger] subs[i], at) is None;
        assert(failure(value, subs[i], path + at) is None);
    } else {
        assert forall|i: int| 0 <= i < subs.len() implies failure(value, #[trigger] subs[i], path + at) is Some by {
            assert(failure(value, subs[i], at) is Some);
        }
        if subs.len() > 0 {
            let last = subs[subs.len() - 1];
            assert(failure(value, last, path + at) == moved(path, failure(value, last, at)));
        }
    }
}

proof fn lemma_branches_move(value: JsonView, schema: JsonView, key: Seq<char>, path: Seq<char>, at: Seq<char>)
    ensures
        schema.get_array(key) matches Some(subs) ==> branches_move(value, subs, path, at),
    decreases schema, 0nat, 0int,
{
    lemma_get_array_smaller(schema, key);
    if let Some(subs) = schema.get_array(key) {
        assert forall|i: int| 0 <= i < subs.len() implies failure(value, #[trigger] subs[i], path + at) == moved(
            path,
            failure(value, subs[i], at),
        ) by {
            assert(decreases_to!(subs => subs[i]));
            lemma_failure_moves(value, subs[i], path, at);
        }
    }
}

proof fn lemma_part_path_moves(path: Seq<char>, at: Seq<char>, part: Seq<char>)
    ensures
        part_path(path + at, part) == path + part_path(at, part),
{
    assert(part_path(path + at, part) =~= path + part_path(at, part));
}

proof fn lemma_members_move(members: Members, schema: JsonView, path: Seq<char>, at: Seq<char>)
    ensures
        members_failure(members, schema, path + at) == moved(path, members_failure(members, schema, at)),
    decreases schema, 0nat, members.len(),
{
    if members.len() > 0 {
        lemma_members_move(members.drop_last(), schema, path, at);
        let (key, value) = members[members.len() - 1];
        lemma_member_rule_smaller(schema, key);
        lemma_part_path_moves(path, at, key);
        if let MemberRule::Governed(sub) = member_rule(schema, key) {
            lemma_failure_moves(value, sub, path, part_path(at, key));
        }
        assert(member_failure(key, value, schema, path + at) == moved(path, member_failure(key, value, schema, at)));
    }
}

proof fn lemma_items_move(items: Seq<JsonView>, schema: JsonView, path: Seq<char>, at: Seq<char>)
    ensures
        items_failure(items, schema, path + at) == moved(path, items_failure(items, schema, at)),
    decreases schema, 0nat, items.len(),
{
    if items.len() > 0 {
        let i = items.len() - 1;
        lemma_items_move(items.drop_last(), schema, path, at);
        lemma_item_rule_smaller(schema, i);
        lemma_part_path_moves(path, at, decimal(i as nat));
        if let Some(sub) = item_rule(schema, i) {
            lemma_failure_moves(items[i], sub, path, part_path(at, decimal(i as nat)));
        }
    }
}

proof fn lemma_content_moves(value: JsonView, schema: JsonView, path: Seq<char>, at: Seq<char>)
    ensures
        content_failure(value, schema, path + at) == moved(path, content_failure(value, schema, at)),
    decreases schema, 1nat, 0int,
{
    match value {
        JsonView::Object(members) => {
            lemma_members_move(members, schema, path, at);
        },
        JsonView::Array(items) => {
            lemma_items_move(items, schema, path, at);
        },
        _ => {},
    }
}

proof fn lemma_failure_moves(value: JsonView, schema: JsonView, path: Seq<char>, at: Seq<char>)
    ensures
        failure(value, schema, path + at) == moved(path, failure(value, schema, at)),
    decreases schema, 2nat, 0int,
{
    lemma_branches_move(value, schema, "anyOf"@, path, at);
    lemma_branches_move(value, schema, "oneOf"@, path, at);
    lemma_branches_move(value, schema, "allOf"@, path, at);
    if let Some(subs) = schema.get_array("anyOf"@) {
        lemma_any_moves(value, subs, path, at);
    }
    if let Some(subs) = schema.get_array("oneOf"@) {
        lemma_accepting_moves(value, subs, path, at);
    }
    if let Some(subs) = schema.get_array("allOf"@) {
        lemma_all_moves(value, subs, path, at);
    }
    lemma_content_moves(value, schema, path, at);
}

/// The path at which a value stands only prefixes the place of its failure: a
/// value fails at `path` exactly if it fails at the root, for the same reason,
/// and the failure's path is `path` followed by the one at the root.
pub proof fn lemma_path_only_prefixes(value: JsonView, schema: JsonView, path: Seq<char>)
    ensures
        failure(value, schema, path) is None <==> failure(value, schema, ""@) is None,
        failure(value, schema, ""@) matches Some(f) ==> failure(value, schema, path) == Some(
            FailureView { path: path + f.path, reason: f.reason },
        ),
{
    reveal_strlit("");
    assert(path + ""@ =~= path);
    lemma_failure_moves(value, schema, path, ""@);
}

// ---------------------------------------------------------------------------
// Stripping leaves out optional nulls and nothing else
// ---------------------------------------------------------------------------

proof fn lemma_stripped_names(members: Members, properties: Members, required: Seq<Seq<char>>, key: Seq<char>)
    requires
        forall|i: int| 0 <= i < members.len() ==> (#[trigger] members[i]).0 != key,
    ensures
        member(stripped_members(members, properties, required), key) is None,
        forall|i: int|
            0 <= i < stripped_members(members, properties, required).len() ==> (#[trigger] stripped_members(
                members,
                properties,
                required,
            )[i]).0 != key,
    decreases members.len(),
{
    let out = stripped_members(members, properties, required);
    if members.len() > 0 {
        let rest = members.drop_last();
        assert forall|i: int| 0 <= i < rest.len() implies (#[trigger] rest[i]).0 != key by {
            assert(rest[i] == members[i]);
        }
        lemma_stripped_names(rest, properties, required, key);
        assert(members[members.len() - 1].0 != key);
        let before = stripped_members(rest, properties, required);
        assert forall|i: int| 0 <= i < out.len() implies (#[trigger] out[i]).0 != key by {
            if i < before.len() {
                assert(out[i] == before[i]);
            }
        }
    }
    lemma_key_index_unique(out, key, out.len() as int);
}

proof fn lemma_stripped_member(members: Members, properties: Members, required: Seq<Seq<char>>, key: Seq<char>)
    requires
        ascending(members),
    ensures
        member(stripped_members(members, properties, required), key) == match member(members, key) {
            Some(v) => stripped_member(key, v, properties, required),
            None => None,
        },
    decreases members.len(),
{
    lemma_key_index(members, key);
    let k = key_index(members, key);
    if k == members.len() {
        lemma_stripped_names(members, properties, required, key);
    } else {
        let rest = members.drop_last();
        let last = members[members.len() - 1];
        assert(ascending(rest));
        let before = stripped_members(rest, properties, required);
        let out = stripped_members(members, properties, required);
        if last.0 == key {
            assert forall|i: int| 0 <= i < rest.len() implies (#[trigger] rest[i]).0 != key by {
                assert(rest[i] == members[i]);
                lemma_text_less_irreflexive(key);
            }
            assert forall|i: int| 0 <= i < members.len() - 1 implies (#[trigger] members[i]).0 != key by {
                assert(rest[i] == members[i]);
            }
            lemma_key_index_unique(members, key, members.len() - 1);
            lemma_stripped_names(rest, properties, required, key);
            if let Some(v) = stripped_member(last.0, last.1, properties, required) {
                assert forall|i: int| 0 <= i < out.len() - 1 implies (#[trigger] out[i]).0 != key by {
                    assert(out[i] == before[i]);
                }
                lemma_key_index_unique(out, key, out.len() - 1);
            }
        } else {
            lemma_stripped_member(rest, properties, required, key);
            assert forall|i: int| 0 <= i < k implies (#[trigger] rest[i]).0 != key by {
                assert(rest[i] == members[i]);
            }
            assert(rest[k] == members[k]);
            lemma_key_index_unique(rest, key, k);
            lemma_key_index(before, key);
            let j = key_index(before, key);
            if let Some(v) = stripped_member(last.0, last.1, properties, required) {
                let i = if j < before.len() {
                    j
                } else {
                    out.len() as int
                };
                assert forall|a: int| 0 <= a < i implies (#[trigger] out[a]).0 != key by {
                    if a < before.len() {
                        assert(out[a] == before[a]);
                    }
                }
                lemma_key_index_unique(out, key, i);
            }
        }
    }
}

/// Stripping leaves out exactly the arguments that are `null` and not
/// required; every other one stays under its name, stripped in turn where the
/// schema describes it.
pub proof fn lemma_stripping_drops_only_optional_nulls(args: JsonView, schema: JsonView, key: Seq<char>)
    requires
        args is Object ==> ascending(args->Object_0),
    ensures
        stripped(args, schema).get(key) == match (args.get(key), schema.get_object("properties"@)) {
            (Some(v), Some(properties)) => if v is Null && !listed_strings(schema, "required"@).contains(key) {
                None
            } else {
                match member(properties, key) {
                    Some(sub) => Some(stripped(v, sub)),
                    None => Some(v),
                }
            },
            (arg, _) => arg,
        },
{
    if let (JsonView::Object(members), Some(properties)) = (args, schema.get_object("properties"@)) {
        lemma_stripped_member(members, properties, listed_strings(schema, "required"@), key);
    }
}

proof fn lemma_stripped_members_idempotent(members: Members, properties: Members, required: Seq<Seq<char>>)
    ensures
        stripped_members(stripped_members(members, properties, required), properties, required) == stripped_members(
            members,
            properties,
            required,
        ),
    decreases members, 1nat,
{
    if members.len() > 0 {
        let rest = members.drop_last();
        let (key, value) = members[members.len() - 1];
        assert(decreases_to!(members => rest));
        assert(decreases_to!(members => members[members.len() - 1]));
        assert(decreases_to!(members[members.len() - 1] => members[members.len() - 1].1));
        lemma_stripped_members_idempotent(rest, properties, required);
        let before = stripped_members(rest, properties, required);
        let out = stripped_members(members, properties, required);
        if let Some(v) = stripped_member(key, value, properties, required) {
            if let Some(sub) = member(properties, key) {
                lemma_stripping_idempotent(value, sub);
                assert(v is Null ==> value is Null);
            }
            assert(out.drop_last() =~= before);
            assert(out[out.len() - 1] == (key, v));
            assert(stripped_member(key, v, properties, required) == Some(v));
        }
    }
}

/// Stripping arguments that were stripped changes nothing.
pub proof fn lemma_stripping_idempotent(args: JsonView, schema: JsonView)
    ensures
        stripped(stripped(args, schema), schema) == stripped(args, schema),
    decreases args, 0nat,
{
    if let (JsonView::Object(members), Some(properties)) = (args, schema.get_object("properties"@)) {
        assert(decreases_to!(args => members));
        lemma_stripped_members_idempotent(members, properties, listed_strings(schema, "required"@));
    }
}

/// Only objects are stripped, and only by a schema that declares properties:
/// a string, a number, an array or any other value stays exactly as it is.
pub proof fn lemma_only_objects_are_stripped(args: JsonView, schema: JsonView)
    ensures
        !(args is Object) ==> stripped(args, schema) == args,
        !(schema.get("properties"@) matches Some(JsonView::Object(_))) ==> stripped(args, schema) == args,
        args is Object ==> stripped(args, schema) is Object,
{
}

/// Every name in the first list is in the second.
spec fn names_among(a: Members, b: Members) -> bool {
    forall|i: int| 0 <= i < a.len() ==> has_name(b, (#[trigger] a[i]).0)
}

spec fn has_name(members: Members, key: Seq<char>) -> bool {
    exists|j: int| 0 <= j < members.len() && (#[trigger] members[j]).0 == key
}

proof fn lemma_stripped_order(members: Members, properties: Members, required: Seq<Seq<char>>)
    requires
        ascending(members),
    ensures
        ascending(stripped_members(members, properties, required)),
        names_among(stripped_members(members, properties, required), members),
        stripped_members(members, properties, required).len() <= members.len(),
    decreases members.len(),
{
    if members.len() > 0 {
        let rest = members.drop_last();
        let last = members[members.len() - 1];
        lemma_stripped_order(rest, properties, required);
        let before = stripped_members(rest, properties, required);
        let out = stripped_members(members, properties, required);
        assert forall|i: int| 0 <= i < out.len() implies has_name(members, (#[trigger] out[i]).0) by {
            if i < before.len() {
                assert(out[i] == before[i]);
                assert(has_name(rest, before[i].0));
                let j = choose|j: int| 0 <= j < rest.len() && (#[trigger] rest[j]).0 == before[i].0;
                assert(members[j].0 == out[i].0);
            } else {
                assert(members[members.len() - 1].0 == out[i].0);
            }
        }
        assert forall|i: int, j: int| 0 <= i < j < out.len() implies text_less(
            (#[trigger] out[i]).0,
            (#[trigger] out[j]).0,
        ) by {
            assert(out[i] == before[i]);
            if j < before.len() {
                assert(out[j] == before[j]);
            } else {
                assert(has_name(rest, before[i].0));
                let k = choose|k: int| 0 <= k < rest.len() && (#[trigger] rest[k]).0 == before[i].0;
                assert(members[k] == rest[k]);
            }
        }
    }
}

/// The arguments that stay are in the order in which they came.
pub proof fn lemma_stripping_keeps_order(args: JsonView, schema: JsonView)
    requires
        args is Object,
        ascending(args->Object_0),
    ensures
        stripped(args, schema) is Object,
        ascending(stripped(args, schema)->Object_0),
        stripped(args, schema)->Object_0.len() <= args->Object_0.len(),
{
    if let Some(properties) = schema.get_object("properties"@) {
        lemma_stripped_order(args->Object_0, properties, listed_strings(schema, "required"@));
    }
}

/// Arguments are stripped only when that is asked for, and checked as they are otherwise.
pub proof fn lemma_stripping_on_demand(args: JsonView, schema: JsonView)
    ensures
        normalized(args, schema, false) == args,
        normalized(args, schema, true) == stripped(args, schema),
        !(args is Object) ==> normalized(args, schema, true) == args,
{
}

} // verus!
