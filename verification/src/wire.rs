//! JSON text: reading and writing through serde_json.
use vstd::prelude::*;

use crate::json::{ascending, lemma_array_view, entry_views, views, Json, JsonObject, JsonView, Members};
use crate::number::{number_of, JsonNumber, NumberView};
use crate::text::{begins_with, decimal, signed_decimal};

verus! {

/// serde_json's value type.
#[verifier::external_type_specification]
#[verifier::external_body]
pub struct ExSerdeValue(serde_json::Value);

/// serde_json's error type.
#[verifier::external_type_specification]
#[verifier::external_body]
pub struct ExSerdeError(serde_json::Error);

/// What a `serde_json::Value` holds.
pub uninterp spec fn json_of(v: serde_json::Value) -> JsonView;

/// What serde_json reads from a text, where it accepts the text.
pub uninterp spec fn parsed(text: Seq<char>) -> Option<JsonView>;

/// The compact text that serde_json writes for a value.
pub uninterp spec fn json_text(v: JsonView) -> Seq<char>;

/// The debug text of a vector of serde_json values.
pub uninterp spec fn debug_text(items: Seq<JsonView>) -> Seq<char>;

/// The text of a value that is `null`, a boolean or an integer.
pub open spec fn scalar_text(v: JsonView) -> Option<Seq<char>> {
    match v {
        JsonView::Null => Some("null"@),
        JsonView::Bool(true) => Some("true"@),
        JsonView::Bool(false) => Some("false"@),
        JsonView::Num(NumberView::PosInt(n)) => Some(decimal(n as nat)),
        JsonView::Num(NumberView::NegInt(n)) => Some(signed_decimal(n as int)),
        _ => None,
    }
}

/// The compact text of a value.
pub open spec fn value_text(v: JsonView) -> Seq<char> {
    match scalar_text(v) {
        Some(text) => text,
        None => json_text(v),
    }
}

/// Whether serde_json reads a value back from its own text, at no more than
/// `levels` levels of arrays and objects. It may round a double, and it reads
/// an object with a member of one of its private names as something else.
pub open spec fn readable(v: JsonView, levels: nat) -> bool
    decreases v,
{
    match v {
        JsonView::Num(n) => !(n is Float),
        JsonView::Array(items) => {
            &&& levels > 0
            &&& forall|i: int| 0 <= i < items.len() ==> readable(#[trigger] items[i], (levels - 1) as nat)
        },
        JsonView::Object(members) => {
            &&& levels > 0
            &&& forall|i: int|
                0 <= i < members.len() ==> !begins_with((#[trigger] members[i]).0, "$serde_json"@) && readable(
                    members[i].1,
                    (levels - 1) as nat,
                )
        },
        _ => true,
    }
}

/// One level of a serde_json value: its kind, and what it holds directly.
pub enum Node {
    Null,
    Bool(bool),
    Num(serde_json::Number),
    Str(String),
    Array(Vec<serde_json::Value>),
    Object(Vec<(String, serde_json::Value)>),
}

/// What a vector of serde_json values holds.
pub open spec fn contents(items: Seq<serde_json::Value>) -> Seq<JsonView> {
    items.map_values(|v: serde_json::Value| json_of(v))
}

/// What a vector of named serde_json values holds.
pub open spec fn entry_contents(entries: Seq<(String, serde_json::Value)>) -> Members {
    entries.map_values(|e: (String, serde_json::Value)| (e.0@, json_of(e.1)))
}

/// What one level of a serde_json value holds.
pub open spec fn node_view(n: Node) -> JsonView {
    match n {
        Node::Null => JsonView::Null,
        Node::Bool(b) => JsonView::Bool(b),
        Node::Num(n) => JsonView::Num(number_of(n)),
        Node::Str(s) => JsonView::Str(s@),
        Node::Array(items) => JsonView::Array(contents(items@)),
        Node::Object(entries) => JsonView::Object(entry_contents(entries@)),
    }
}

/// `serde_json::from_str` into a `serde_json::Value`. The result is determined
/// by the text; nothing more is said of which texts are accepted.
#[verifier::external_body]
fn serde_from_str(text: &str) -> (r: Result<serde_json::Value, serde_json::Error>)
    ensures
        match r {
            Ok(v) => parsed(text@) == Some(json_of(v)),
            Err(_) => parsed(text@) is None,
        },
{
    serde_json::from_str(text)
}

/// The variant of a `serde_json::Value` and what it holds. serde_json keeps an
/// object in a `BTreeMap`, which hands its entries out in ascending order of
/// their names; a negative integer is below zero and a double is finite.
#[verifier::external_body]
fn serde_open(v: serde_json::Value) -> (r: Node)
    ensures
        node_view(r) == json_of(v),
        r matches Node::Object(entries) ==> ascending(entry_contents(entries@)),
        r matches Node::Num(n) ==> number_of(n).wf(),
{
    match v {
        serde_json::Value::Null => Node::Null,
        serde_json::Value::Bool(b) => Node::Bool(b),
        serde_json::Value::Number(n) => Node::Num(n),
        serde_json::Value::String(s) => Node::Str(s),
        serde_json::Value::Array(items) => Node::Array(items),
        serde_json::Value::Object(map) => Node::Object(map.into_iter().collect()),
    }
}

/// The `serde_json::Value` of a given variant that holds the given parts.
/// Collecting entries that stand in ascending order of their names into a
/// `serde_json::Map` keeps each of them.
#[verifier::external_body]
fn serde_build(n: Node) -> (r: serde_json::Value)
    requires
        n matches Node::Object(entries) ==> ascending(entry_contents(entries@)),
    ensures
        json_of(r) == node_view(n),
{
    match n {
        Node::Null => serde_json::Value::Null,
        Node::Bool(b) => serde_json::Value::Bool(b),
        Node::Num(n) => serde_json::Value::Number(n),
        Node::Str(s) => serde_json::Value::String(s),
        Node::Array(items) => serde_json::Value::Array(items),
        Node::Object(entries) => serde_json::Value::Object(entries.into_iter().collect()),
    }
}

/// `to_string` of a `serde_json::Value`: its compact text, which is determined
/// by what the value holds: `null`, `true`, `false`, or an integer in decimal
/// with a minus sign where it is negative. `serde_json::from_str` reads the value
/// back from it, down to the 127 levels that it goes; nothing more is said of
/// the text of other values, nor of reading doubles.
#[verifier::external_body]
fn serde_to_string(v: &serde_json::Value) -> (r: String)
    ensures
        r@ == json_text(json_of(*v)),
        r@ == value_text(json_of(*v)),
        readable(json_of(*v), 127) ==> parsed(r@) == Some(json_of(*v)),
{
    v.to_string()
}

/// The debug formatting of a vector of `serde_json::Value`s, which is determined by what they hold.
#[verifier::external_body]
fn serde_debug(items: &Vec<serde_json::Value>) -> (r: String)
    ensures
        r@ == debug_text(contents(items@)),
{
    format!("{:?}", items)
}

/// Takes a serde_json value over into a [`Json`].
fn import(v: serde_json::Value) -> (r: Json)
    ensures
        r@ == json_of(v),
        r@.wf(),
    decreases json_of(v),
{
    broadcast use lemma_array_view;

    let ghost whole = json_of(v);
    match serde_open(v) {
        Node::Null => Json::Null,
        Node::Bool(b) => Json::Bool(b),
        Node::Num(n) => Json::Num(JsonNumber::from_serde(n)),
        Node::Str(s) => Json::Str(s),
        Node::Array(items) => {
            let mut out: Vec<Json> = Vec::new();
            let ghost all = contents(items@);
            for item in it: items
                invariant
                    whole == json_of(v),
                    whole == JsonView::Array(all),
                    all == contents(it.seq()),
                    out@.len() == it.index(),
                    forall|j: int| 0 <= j < out@.len() ==> (#[trigger] out@[j])@ == all[j] && out@[j]@.wf(),
            {
                proof {
                    assert(decreases_to!(whole => whole->Array_0));
                    assert(decreases_to!(all => all[it.index()]));
                }
                out.push(import(item));
            }
            assert(views(out@) =~= all);
            Json::Array(out)
        },
        Node::Object(entries) => {
            let mut out: Vec<(String, Json)> = Vec::new();
            let ghost all = entry_contents(entries@);
            for entry in it: entries
                invariant
                    whole == json_of(v),
                    whole == JsonView::Object(all),
                    all == entry_contents(it.seq()),
                    out@.len() == it.index(),
                    forall|j: int|
                        0 <= j < out@.len() ==> (#[trigger] out@[j]).0@ == all[j].0 && out@[j].1@ == all[j].1
                            && out@[j].1@.wf(),
            {
                proof {
                    assert(decreases_to!(whole => whole->Object_0));
                    assert(decreases_to!(all => all[it.index()]));
                    assert(decreases_to!(all[it.index()] => all[it.index()].1));
                }
                let (key, value) = entry;
                out.push((key, import(value)));
            }
            assert(entry_views(out@) =~= all);
            Json::Object(JsonObject::from_ascending(out))
        },
    }
}

/// The serde_json value that holds what `v` holds.
fn export(v: &Json) -> (r: serde_json::Value)
    ensures
        json_of(r) == v@,
    decreases v@,
{
    broadcast use lemma_array_view;

    match v {
        Json::Null => serde_build(Node::Null),
        Json::Bool(b) => serde_build(Node::Bool(*b)),
        Json::Num(n) => serde_build(Node::Num(n.to_serde())),
        Json::Str(s) => serde_build(Node::Str(s.clone())),
        Json::Array(items) => {
            proof {
                assert(decreases_to!(v@ => v@->Array_0));
            }
            serde_build(Node::Array(export_all(items)))
        },
        Json::Object(o) => {
            proof {
                use_type_invariant(o);
            }
            let mut out: Vec<(String, serde_json::Value)> = Vec::new();
            let mut i: usize = 0;
            while i < o.len()
                invariant
                    i <= o@.len(),
                    out@.len() == i,
                    v@ == JsonView::Object(o@),
                    forall|j: int|
                        0 <= j < i ==> (#[trigger] out@[j]).0@ == o@[j].0 && json_of(out@[j].1) == o@[j].1,
                decreases o@.len() - i,
            {
                proof {
                    assert(decreases_to!(v@ => v@->Object_0));
                    assert(decreases_to!(o@ => o@[i as int]));
                    assert(decreases_to!(o@[i as int] => o@[i as int].1));
                }
                out.push((o.key_at(i).clone(), export(o.value_at(i))));
                i = i + 1;
            }
            assert(entry_contents(out@) =~= o@);
            serde_build(Node::Object(out))
        },
    }
}

/// The serde_json values that hold what the items hold.
fn export_all(items: &Vec<Json>) -> (r: Vec<serde_json::Value>)
    ensures
        contents(r@) == views(items@),
    decreases views(items@),
{
    let mut out: Vec<serde_json::Value> = Vec::new();
    let mut i: usize = 0;
    while i < items.len()
        invariant
            i <= items.len(),
            out@.len() == i,
            forall|j: int| 0 <= j < i ==> json_of(#[trigger] out@[j]) == items@[j]@,
        decreases items.len() - i,
    {
        proof {
            assert(decreases_to!(views(items@) => views(items@)[i as int]));
        }
        out.push(export(&items[i]));
        i = i + 1;
    }
    assert(contents(out@) =~= views(items@));
    out
}

/// Reads a JSON text.
pub fn parse(text: &str) -> (r: Option<Json>)
    ensures
        match r {
            Some(v) => parsed(text@) == Some(v@) && v@.wf(),
            None => parsed(text@) is None,
        },
{
    match serde_from_str(text) {
        Ok(v) => Some(import(v)),
        Err(_) => None,
    }
}

/// Writes a value as compact JSON text, from which it can be read back.
pub fn to_text(v: &Json) -> (r: String)
    ensures
        r@ == json_text(v@),
        r@ == value_text(v@),
        readable(v@, 127) ==> parsed(r@) == Some(v@),
{
    serde_to_string(&export(v))
}

/// Writes the debug text of a list of values.
pub fn to_debug_text(items: &Vec<Json>) -> (r: String)
    ensures
        r@ == debug_text(views(items@)),
{
    serde_debug(&export_all(items))
}

} // verus!
