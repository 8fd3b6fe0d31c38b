//! What reading and changing a JSON value means.
use vstd::prelude::*;

use crate::json::{ascending, integer_json, lemma_key_index, lemma_without_member_ascending, listed_strings, member};
use crate::json::{key_index, lemma_with_member_ascending, lemma_with_then_get, lemma_without_then_get, strings};
use crate::json::{JsonView, Members};

verus! {

/// A member that is found has the name that was asked for and is the first of
/// that name; where none is found, no member has the name.
pub proof fn lemma_member_found(members: Members, key: Seq<char>)
    ensures
        member(members, key) matches Some(v) ==> exists|i: int|
            {
                &&& 0 <= i < members.len()
                &&& (#[trigger] members[i]).0 == key
                &&& members[i].1 == v
                &&& forall|j: int| 0 <= j < i ==> (#[trigger] members[j]).0 != key
            },
        member(members, key) is None ==> forall|i: int| 0 <= i < members.len() ==> (#[trigger] members[i]).0 != key,
{
    lemma_key_index(members, key);
    if member(members, key) is Some {
        let i = key_index(members, key);
        assert(members[i].0 == key);
    }
}

/// Only an object has members to read, and each reader takes only a value of its own kind.
pub proof fn lemma_readers(v: JsonView, key: Seq<char>)
    ensures
        v matches JsonView::Object(members) ==> v.get(key) == member(members, key),
        !(v is Object) ==> v.get(key) is None,
        match v.get(key) {
            Some(JsonView::Str(s)) => v.get_str(key) == Some(s) && v.get_array(key) is None && v.get_object(key)
                is None,
            Some(JsonView::Array(items)) => v.get_array(key) == Some(items) && v.get_str(key) is None && v.get_object(
                key,
            ) is None,
            Some(JsonView::Object(members)) => v.get_object(key) == Some(members) && v.get_str(key) is None
                && v.get_array(key) is None,
            _ => v.get_str(key) is None && v.get_array(key) is None && v.get_object(key) is None,
        },
{
}

/// A value is read as what it is and as nothing else.
pub proof fn lemma_kinds_read(v: JsonView)
    ensures
        match v {
            JsonView::Str(s) => v.as_str() == Some(s),
            _ => v.as_str() is None,
        },
        match v {
            JsonView::Array(items) => v.as_array() == Some(items),
            _ => v.as_array() is None,
        },
        match v {
            JsonView::Object(members) => v.as_object() == Some(members),
            _ => v.as_object() is None,
        },
        match v {
            JsonView::Num(n) => v.as_u64() == n.as_u64() && v.as_i64() == n.as_i64(),
            _ => v.as_u64() is None && v.as_i64() is None,
        },
        JsonView::empty_object() == JsonView::Object(Seq::empty()),
{
}

/// Setting a member of an object gives an object whose member is the new value
/// and whose other members are as before, in ascending order if they were so;
/// anything else stays as it is.
pub proof fn lemma_setting(v: JsonView, key: Seq<char>, value: JsonView, other: Seq<char>)
    ensures
        !(v is Object) ==> v.with(key, value) == v,
        v is Object ==> {
            &&& v.with(key, value) is Object
            &&& v.with(key, value).get(key) == Some(value)
            &&& other != key ==> v.with(key, value).get(other) == v.get(other)
            &&& ascending(v->Object_0) ==> ascending(v.with(key, value)->Object_0)
        },
{
    if v is Object {
        lemma_with_then_get(v, key, value, other);
        if ascending(v->Object_0) {
            lemma_with_member_ascending(v->Object_0, key, value);
        }
    }
}

/// Leaving out a member of an object whose members are in order gives an object
/// without it and with the other members as before; anything else stays as it is.
pub proof fn lemma_leaving_out(v: JsonView, key: Seq<char>, other: Seq<char>)
    requires
        v is Object ==> ascending(v->Object_0),
    ensures
        !(v is Object) ==> v.without(key) == v,
        v is Object ==> {
            &&& v.without(key) is Object
            &&& v.without(key).get(key) is None
            &&& other != key ==> v.without(key).get(other) == v.get(other)
            &&& ascending(v.without(key)->Object_0)
        },
{
    if v is Object {
        lemma_without_then_get(v, key, other);
        lemma_without_member_ascending(v->Object_0, key);
    }
}

/// The strings of a list are taken item by item: a string is taken, anything else is not.
pub proof fn lemma_strings(a: Seq<JsonView>, b: Seq<JsonView>, item: JsonView)
    ensures
        strings(Seq::empty()).len() == 0,
        strings(seq![item]) == match item {
            JsonView::Str(s) => seq![s],
            _ => Seq::empty(),
        },
        strings(a + b) == strings(a) + strings(b),
    decreases b.len(),
{
    let one = seq![item];
    assert(one.drop_last() =~= Seq::empty());
    assert(strings(Seq::<JsonView>::empty()) =~= Seq::empty());
    assert(strings(one) =~= match item {
        JsonView::Str(s) => seq![s],
        _ => Seq::empty(),
    });
    if b.len() == 0 {
        assert(a + b =~= a);
        assert(strings(b) =~= Seq::empty());
        assert(strings(a) + strings(b) =~= strings(a));
    } else {
        lemma_strings(a, b.drop_last(), item);
        assert((a + b).drop_last() =~= a + b.drop_last());
        assert((a + b).last() == b.last());
        assert(strings(a + b) =~= strings(a) + strings(b));
    }
}

/// A text is listed exactly if the member is an array with that string among its items.
pub proof fn lemma_listed(v: JsonView, key: Seq<char>, text: Seq<char>)
    ensures
        listed_strings(v, key).contains(text) <==> (v.get(key) matches Some(JsonView::Array(items))
            && items.contains(JsonView::Str(text))),
{
    if let Some(JsonView::Array(items)) = v.get(key) {
        lemma_string_taken(items, text);
    }
}

/// A text is among the strings of a list exactly if that string is among its items.
pub proof fn lemma_string_taken(items: Seq<JsonView>, text: Seq<char>)
    ensures
        strings(items).contains(text) <==> items.contains(JsonView::Str(text)),
    decreases items.len(),
{
    if items.len() > 0 {
        let rest = items.drop_last();
        lemma_string_taken(rest, text);
        if items.contains(JsonView::Str(text)) {
            let i = choose|i: int| 0 <= i < items.len() && items[i] == JsonView::Str(text);
            if i < rest.len() {
                assert(rest[i] == JsonView::Str(text));
                let k = choose|k: int| 0 <= k < strings(rest).len() && strings(rest)[k] == text;
                assert(strings(items)[k] == text);
            } else {
                assert(strings(items)[strings(rest).len() as int] == text);
            }
        }
        if strings(items).contains(text) {
            let k = choose|k: int| 0 <= k < strings(items).len() && strings(items)[k] == text;
            if k < strings(rest).len() {
                assert(strings(rest)[k] == text);
                let i = choose|i: int| 0 <= i < rest.len() && rest[i] == JsonView::Str(text);
                assert(items[i] == JsonView::Str(text));
            } else {
                assert(items[items.len() - 1] == JsonView::Str(text));
            }
        }
    }
}

/// The value of an integer is read back as that integer.
pub proof fn lemma_integer_read_back(n: i64)
    ensures
        integer_json(n).as_i64() == Some(n),
        n >= 0 ==> integer_json(n).as_u64() == Some(n as u64),
        n < 0 ==> integer_json(n).as_u64() is None,
{
}

/// Equality of values: values of different kinds differ, and everything but a
/// double is equal to nothing but itself.
pub proof fn lemma_same(a: JsonView, b: JsonView)
    ensures
        a is Null ==> (a.same(b) <==> b is Null),
        a is Bool ==> (a.same(b) <==> a == b),
        a is Str ==> (a.same(b) <==> a == b),
        (a matches JsonView::Num(n) && !(n is Float)) ==> (a.same(b) <==> a == b),
        a matches JsonView::Array(x) ==> (a.same(b) <==> (b matches JsonView::Array(y) && x.len() == y.len() && forall|
            i: int,
        |
            0 <= i < x.len() ==> (#[trigger] x[i]).same(y[i]))),
        a matches JsonView::Object(x) ==> (a.same(b) <==> (b matches JsonView::Object(y) && x.len() == y.len()
            && forall|i: int| 0 <= i < x.len() ==> (#[trigger] x[i]).0 == y[i].0 && x[i].1.same(y[i].1))),
{
}

} // verus!
