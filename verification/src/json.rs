//! JSON values.
//!
//! [`Json`] is the value that the gateway inspects and rewrites; [`JsonView`]
//! is its mathematical reading. The members of an object are kept in ascending
//! order of their names, each name once, so that two renderings of one value
//! are always the same text.
use vstd::prelude::*;

use crate::number::{JsonNumber, NumberView, integer_number};
use crate::text::{order_text, same_text, text_less, texts, Position};
use crate::text::{lemma_text_less_irreflexive, lemma_text_less_total, lemma_text_less_transitive};

verus! {

/// The members of an object: names and values, in order.
pub type Members = Seq<(Seq<char>, JsonView)>;

/// A JSON value as a mathematical tree.
pub enum JsonView {
    Null,
    Bool(bool),
    Num(NumberView),
    Str(Seq<char>),
    Array(Seq<JsonView>),
    Object(Seq<(Seq<char>, JsonView)>),
}

/// The position of the first member named `key`, or the number of members if there is none.
pub open spec fn key_index(members: Members, key: Seq<char>) -> int
    decreases members.len(),
{
    if members.len() == 0 {
        0
    } else if members[0].0 == key {
        0
    } else {
        1 + key_index(members.drop_first(), key)
    }
}

/// The value of the member named `key`.
pub open spec fn member(members: Members, key: Seq<char>) -> Option<JsonView> {
    let i = key_index(members, key);
    if i < members.len() {
        Some(members[i].1)
    } else {
        None
    }
}

/// The position of the first member whose name is `key` or comes after it.
pub open spec fn slot(members: Members, key: Seq<char>) -> int
    decreases members.len(),
{
    if members.len() == 0 || !text_less(members[0].0, key) {
        0
    } else {
        1 + slot(members.drop_first(), key)
    }
}

/// The members with `key` set to `value`: replaced where it stands, or added at its place in the order.
pub open spec fn with_member(members: Members, key: Seq<char>, value: JsonView) -> Members {
    let i = slot(members, key);
    if i < members.len() && members[i].0 == key {
        members.update(i, (key, value))
    } else {
        members.insert(i, (key, value))
    }
}

/// The members without the one named `key`.
pub open spec fn without_member(members: Members, key: Seq<char>) -> Members {
    let i = key_index(members, key);
    if i < members.len() {
        members.remove(i)
    } else {
        members
    }
}

/// Whether the names stand in ascending order, each once.
pub open spec fn ascending(members: Members) -> bool {
    forall|i: int, j: int|
        0 <= i < j < members.len() ==> text_less((#[trigger] members[i]).0, (#[trigger] members[j]).0)
}

impl JsonView {
    /// The value of the member named `key`, where this is an object that has one.
    pub open spec fn get(self, key: Seq<char>) -> Option<JsonView> {
        match self {
            JsonView::Object(members) => member(members, key),
            _ => None,
        }
    }

    /// The text, where this is a string.
    pub open spec fn as_str(self) -> Option<Seq<char>> {
        match self {
            JsonView::Str(s) => Some(s),
            _ => None,
        }
    }

    /// The items, where this is an array.
    pub open spec fn as_array(self) -> Option<Seq<JsonView>> {
        match self {
            JsonView::Array(items) => Some(items),
            _ => None,
        }
    }

    /// The members, where this is an object.
    pub open spec fn as_object(self) -> Option<Members> {
        match self {
            JsonView::Object(members) => Some(members),
            _ => None,
        }
    }

    pub open spec fn as_u64(self) -> Option<u64> {
        match self {
            JsonView::Num(n) => n.as_u64(),
            _ => None,
        }
    }

    pub open spec fn as_i64(self) -> Option<i64> {
        match self {
            JsonView::Num(n) => n.as_i64(),
            _ => None,
        }
    }

    /// The text of the member named `key`, where that member is a string.
    pub open spec fn get_str(self, key: Seq<char>) -> Option<Seq<char>> {
        match self.get(key) {
            Some(v) => v.as_str(),
            None => None,
        }
    }

    /// The items of the member named `key`, where that member is an array.
    pub open spec fn get_array(self, key: Seq<char>) -> Option<Seq<JsonView>> {
        match self.get(key) {
            Some(v) => v.as_array(),
            None => None,
        }
    }

    /// The members of the member named `key`, where that member is an object.
    pub open spec fn get_object(self, key: Seq<char>) -> Option<Members> {
        match self.get(key) {
            Some(v) => v.as_object(),
            None => None,
        }
    }

    /// The object with no members.
    pub open spec fn empty_object() -> JsonView {
        JsonView::Object(Seq::empty())
    }

    /// This object with the member `key` set to `value`; anything but an object stays as it is.
    pub open spec fn with(self, key: Seq<char>, value: JsonView) -> JsonView {
        match self {
            JsonView::Object(members) => JsonView::Object(with_member(members, key, value)),
            _ => self,
        }
    }

    /// This object without the member `key`; anything but an object stays as it is.
    pub open spec fn without(self, key: Seq<char>) -> JsonView {
        match self {
            JsonView::Object(members) => JsonView::Object(without_member(members, key)),
            _ => self,
        }
    }

    /// JSON equality. It differs from identity only on the two zeros of the doubles.
    pub open spec fn same(self, other: JsonView) -> bool
        decreases self,
    {
        match (self, other) {
            (JsonView::Null, JsonView::Null) => true,
            (JsonView::Bool(a), JsonView::Bool(b)) => a == b,
            (JsonView::Num(a), JsonView::Num(b)) => a.same(b),
            (JsonView::Str(a), JsonView::Str(b)) => a == b,
            (JsonView::Array(a), JsonView::Array(b)) => {
                &&& a.len() == b.len()
                &&& forall|i: int| 0 <= i < a.len() ==> (#[trigger] a[i]).same(b[i])
            },
            (JsonView::Object(a), JsonView::Object(b)) => {
                &&& a.len() == b.len()
                &&& forall|i: int| 0 <= i < a.len() ==> (#[trigger] a[i]).0 == b[i].0 && a[i].1.same(b[i].1)
            },
            _ => false,
        }
    }

    /// Whether every object in the tree keeps its names in ascending order and every number is well formed.
    pub open spec fn wf(self) -> bool
        decreases self,
    {
        match self {
            JsonView::Num(n) => n.wf(),
            JsonView::Array(items) => forall|i: int| 0 <= i < items.len() ==> (#[trigger] items[i]).wf(),
            JsonView::Object(members) => {
                &&& ascending(members)
                &&& forall|i: int| 0 <= i < members.len() ==> (#[trigger] members[i]).1.wf()
            },
            _ => true,
        }
    }
}

/// The strings among the items, in order.
pub open spec fn strings(items: Seq<JsonView>) -> Seq<Seq<char>>
    decreases items.len(),
{
    if items.len() == 0 {
        Seq::empty()
    } else {
        match items.last() {
            JsonView::Str(s) => strings(items.drop_last()).push(s),
            _ => strings(items.drop_last()),
        }
    }
}

/// The strings listed by the member named `key`; none where it is not an array.
pub open spec fn listed_strings(v: JsonView, key: Seq<char>) -> Seq<Seq<char>> {
    match v.get_array(key) {
        Some(items) => strings(items),
        None => Seq::empty(),
    }
}

/// The value of a signed integer.
pub open spec fn integer_json(n: i64) -> JsonView {
    JsonView::Num(integer_number(n))
}

// ---------------------------------------------------------------------------
// Facts about members
// ---------------------------------------------------------------------------

pub proof fn lemma_key_index(members: Members, key: Seq<char>)
    ensures
        0 <= key_index(members, key) <= members.len(),
        key_index(members, key) < members.len() ==> members[key_index(members, key)].0 == key,
        forall|j: int| 0 <= j < key_index(members, key) ==> (#[trigger] members[j]).0 != key,
    decreases members.len(),
{
    if members.len() > 0 && members[0].0 != key {
        let rest = members.drop_first();
        lemma_key_index(rest, key);
        assert forall|j: int| 0 <= j < key_index(members, key) implies (#[trigger] members[j]).0 != key by {
            if j > 0 {
                assert(members[j] == rest[j - 1]);
            }
        }
    }
}

/// The position of the first member named `key` is the only one that fits its description.
pub proof fn lemma_key_index_unique(members: Members, key: Seq<char>, i: int)
    requires
        0 <= i <= members.len(),
        i < members.len() ==> members[i].0 == key,
        forall|j: int| 0 <= j < i ==> (#[trigger] members[j]).0 != key,
    ensures
        key_index(members, key) == i,
{
    lemma_key_index(members, key);
    let k = key_index(members, key);
    if k < i {
        assert(members[k].0 != key);
    } else if i < k {
        assert(members[i].0 != key);
    }
}

proof fn lemma_push_key_index(members: Members, last: (Seq<char>, JsonView), key: Seq<char>)
    ensures
        key_index(members.push(last), key) == if key_index(members, key) < members.len() {
            key_index(members, key)
        } else if last.0 == key {
            members.len() as int
        } else {
            members.len() as int + 1
        },
{
    let out = members.push(last);
    lemma_key_index(members, key);
    let k = key_index(members, key);
    let i = if k < members.len() {
        k
    } else if last.0 == key {
        members.len() as int
    } else {
        members.len() as int + 1
    };
    assert forall|j: int| 0 <= j < i implies (#[trigger] out[j]).0 != key by {
        if j < members.len() {
            assert(out[j] == members[j]);
        }
    }
    lemma_key_index_unique(out, key, i);
}

/// With one more member at the end, a name stands for what it stood for, or else for that member.
pub proof fn lemma_push_member(members: Members, last: (Seq<char>, JsonView), key: Seq<char>)
    ensures
        member(members.push(last), key) == if member(members, key) is Some {
            member(members, key)
        } else if last.0 == key {
            Some(last.1)
        } else {
            None
        },
{
    lemma_push_key_index(members, last, key);
    lemma_key_index(members, key);
}

pub proof fn lemma_slot(members: Members, key: Seq<char>)
    ensures
        0 <= slot(members, key) <= members.len(),
        slot(members, key) < members.len() ==> !text_less(members[slot(members, key)].0, key),
        forall|j: int| 0 <= j < slot(members, key) ==> text_less((#[trigger] members[j]).0, key),
    decreases members.len(),
{
    if members.len() > 0 && text_less(members[0].0, key) {
        let rest = members.drop_first();
        lemma_slot(rest, key);
        assert forall|j: int| 0 <= j < slot(members, key) implies text_less((#[trigger] members[j]).0, key) by {
            if j > 0 {
                assert(members[j] == rest[j - 1]);
            }
        }
    }
}

/// Setting a member keeps the names in ascending order.
pub proof fn lemma_with_member_ascending(members: Members, key: Seq<char>, value: JsonView)
    requires
        ascending(members),
    ensures
        ascending(with_member(members, key, value)),
{
    lemma_slot(members, key);
    let i = slot(members, key);
    let out = with_member(members, key, value);
    if i < members.len() && members[i].0 == key {
        assert forall|a: int, b: int| 0 <= a < b < out.len() implies text_less(
            (#[trigger] out[a]).0,
            (#[trigger] out[b]).0,
        ) by {
            assert(out[a].0 == members[a].0 && out[b].0 == members[b].0);
        }
    } else {
        assert forall|a: int, b: int| 0 <= a < b < out.len() implies text_less(
            (#[trigger] out[a]).0,
            (#[trigger] out[b]).0,
        ) by {
            if a == i {
                lemma_text_less_total(members[i].0, key);
                if b > i + 1 {
                    lemma_text_less_transitive(key, members[i].0, members[b - 1].0);
                }
            } else if b == i {
            } else {
                let a0 = if a < i { a } else { a - 1 };
                let b0 = if b < i { b } else { b - 1 };
                assert(out[a] == members[a0] && out[b] == members[b0]);
            }
        }
    }
}

/// Leaving a member out keeps the names in ascending order.
pub proof fn lemma_without_member_ascending(members: Members, key: Seq<char>)
    requires
        ascending(members),
    ensures
        ascending(without_member(members, key)),
{
    lemma_key_index(members, key);
    let i = key_index(members, key);
    let out = without_member(members, key);
    assert forall|a: int, b: int| 0 <= a < b < out.len() implies text_less(
        (#[trigger] out[a]).0,
        (#[trigger] out[b]).0,
    ) by {
        if i < members.len() {
            let a0 = if a < i { a } else { a + 1 };
            let b0 = if b < i { b } else { b + 1 };
            assert(out[a] == members[a0] && out[b] == members[b0]);
        }
    }
}

/// A member that was set is read back, and the others are left as they were.
pub proof fn lemma_with_then_get(v: JsonView, key: Seq<char>, value: JsonView, other: Seq<char>)
    requires
        v is Object,
    ensures
        v.with(key, value).get(key) == Some(value),
        other != key ==> v.with(key, value).get(other) == v.get(other),
{
    let members = v->Object_0;
    let out = with_member(members, key, value);
    lemma_slot(members, key);
    let i = slot(members, key);
    assert forall|j: int| 0 <= j < i implies (#[trigger] out[j]).0 != key by {
        lemma_text_less_irreflexive(key);
    }
    lemma_key_index_unique(out, key, i);
    if other != key {
        lemma_key_index(members, other);
        let k = key_index(members, other);
        if i < members.len() && members[i].0 == key {
            assert forall|j: int| 0 <= j < k implies (#[trigger] out[j]).0 != other by {
                if j != i {
                    assert(members[j].0 != other);
                }
            }
            lemma_key_index_unique(out, other, k);
        } else {
            let k1 = if k < i { k } else { k + 1 };
            assert forall|j: int| 0 <= j < k1 implies (#[trigger] out[j]).0 != other by {
                if j < i {
                    assert(out[j] == members[j]);
                } else if j > i {
                    assert(out[j] == members[j - 1]);
                }
            }
            if k1 < out.len() {
                assert(out[k1] == members[k]);
            }
            lemma_key_index_unique(out, other, k1);
        }
    }
}

/// A member that was left out is gone, and the others are left as they were.
pub proof fn lemma_without_then_get(v: JsonView, key: Seq<char>, other: Seq<char>)
    requires
        v is Object,
    ensures
        ascending(v->Object_0) ==> v.without(key).get(key) is None,
        other != key ==> v.without(key).get(other) == v.get(other),
{
    let members = v->Object_0;
    let out = without_member(members, key);
    lemma_key_index(members, key);
    let i = key_index(members, key);
    if ascending(members) {
        assert forall|j: int| 0 <= j < out.len() implies (#[trigger] out[j]).0 != key by {
            if i < members.len() {
                if j >= i {
                    assert(out[j] == members[j + 1]);
                    lemma_text_less_irreflexive(key);
                } else {
                    assert(out[j] == members[j]);
                }
            }
        }
        lemma_key_index_unique(out, key, out.len() as int);
    }
    if other != key && i < members.len() {
        lemma_key_index(members, other);
        let k = key_index(members, other);
        let k1 = if k < i { k } else { k - 1 };
        assert(k != i);
        assert forall|j: int| 0 <= j < k1 implies (#[trigger] out[j]).0 != other by {
            if j < i {
                assert(out[j] == members[j]);
            } else {
                assert(out[j] == members[j + 1]);
            }
        }
        if k1 < out.len() {
            assert(out[k1] == members[k]);
        }
        lemma_key_index_unique(out, other, k1);
    }
}

/// A member's value is a smaller tree than the object.
pub proof fn lemma_get_smaller(v: JsonView, key: Seq<char>)
    ensures
        v.get(key) matches Some(c) ==> decreases_to!(v => c),
{
    if let JsonView::Object(members) = v {
        lemma_key_index(members, key);
        let i = key_index(members, key);
        if i < members.len() {
            assert(decreases_to!(v => members));
            assert(decreases_to!(members => members[i]));
            assert(decreases_to!(members[i] => members[i].1));
        }
    }
}

/// The items of a member's array are smaller trees than the object.
pub proof fn lemma_get_array_smaller(v: JsonView, key: Seq<char>)
    ensures
        v.get_array(key) matches Some(items) ==> decreases_to!(v => items),
{
    lemma_get_smaller(v, key);
    if let Some(c) = v.get(key) {
        if let JsonView::Array(items) = c {
            assert(decreases_to!(c => items));
        }
    }
}

/// The members of a member's object are smaller trees than the object.
pub proof fn lemma_get_object_smaller(v: JsonView, key: Seq<char>)
    ensures
        v.get_object(key) matches Some(members) ==> decreases_to!(v => members),
{
    lemma_get_smaller(v, key);
    if let Some(c) = v.get(key) {
        if let JsonView::Object(members) = c {
            assert(decreases_to!(c => members));
        }
    }
}

// ---------------------------------------------------------------------------
// Values
// ---------------------------------------------------------------------------

/// A JSON value.
#[derive(Debug, PartialEq, Eq)]
pub enum Json {
    Null,
    Bool(bool),
    Num(JsonNumber),
    Str(String),
    Array(Vec<Json>),
    Object(JsonObject),
}

/// The members of a JSON object, in ascending order of their names.
#[derive(Debug, PartialEq, Eq)]
pub struct JsonObject {
    entries: Vec<(String, Json)>,
}

/// The readings of a vector of values.
pub open spec fn views(items: Seq<Json>) -> Seq<JsonView> {
    items.map_values(|v: Json| v@)
}

/// The readings of a vector of named values.
pub open spec fn entry_views(entries: Seq<(String, Json)>) -> Members {
    entries.map_values(|e: (String, Json)| (e.0@, e.1@))
}

impl Json {
    /// The mathematical reading of the value.
    pub open spec fn model(self) -> JsonView
        decreases self,
    {
        match self {
            Json::Null => JsonView::Null,
            Json::Bool(b) => JsonView::Bool(b),
            Json::Num(n) => JsonView::Num(n@),
            Json::Str(s) => JsonView::Str(s@),
            Json::Array(items) => JsonView::Array(
                Seq::new(
                    items@.len(),
                    |i: int| if 0 <= i < items@.len() { items@[i].model() } else { JsonView::Null },
                ),
            ),
            Json::Object(o) => JsonView::Object(o.model()),
        }
    }
}

impl View for Json {
    type V = JsonView;

    open spec fn view(&self) -> JsonView {
        self.model()
    }
}

impl JsonObject {
    /// The mathematical reading of the members.
    pub closed spec fn model(self) -> Members
        decreases self,
    {
        let entries = self.entries@;
        Seq::new(
            entries.len(),
            |i: int|
                if 0 <= i < entries.len() {
                    (entries[i].0@, entries[i].1.model())
                } else {
                    (Seq::empty(), JsonView::Null)
                },
        )
    }

    /// The names stand in ascending order, each once.
    #[verifier::type_invariant]
    pub open spec fn inv(self) -> bool {
        ascending(self.model())
    }
}

impl View for JsonObject {
    type V = Members;

    open spec fn view(&self) -> Members {
        self.model()
    }
}

/// The reading of an array is the array of its items' readings.
pub broadcast proof fn lemma_array_view(items: Vec<Json>)
    ensures
        #[trigger] Json::Array(items)@ == JsonView::Array(views(items@)),
{
    let a = Json::Array(items)@->Array_0;
    assert(a =~= views(items@));
}

impl JsonObject {
    proof fn lemma_entries(self)
        ensures
            self@ == entry_views(self.entries@),
    {
        assert(self@ =~= entry_views(self.entries@));
    }

    /// The object with no members.
    pub fn new() -> (r: JsonObject)
        ensures
            r@ == Seq::<(Seq<char>, JsonView)>::empty(),
    {
        let entries: Vec<(String, Json)> = Vec::new();
        proof {
            let o = JsonObject { entries };
            o.lemma_entries();
            assert(o@ =~= Seq::<(Seq<char>, JsonView)>::empty());
        }
        JsonObject { entries }
    }

    /// The object with the given members, which already stand in order.
    pub fn from_ascending(entries: Vec<(String, Json)>) -> (r: JsonObject)
        requires
            ascending(entry_views(entries@)),
        ensures
            r@ == entry_views(entries@),
    {
        proof {
            let o = JsonObject { entries };
            o.lemma_entries();
        }
        JsonObject { entries }
    }

    pub fn len(&self) -> (r: usize)
        ensures
            r == self@.len(),
    {
        self.entries.len()
    }

    /// The name of the member at `i`.
    pub fn key_at(&self, i: usize) -> (r: &String)
        requires
            i < self@.len(),
        ensures
            r@ == self@[i as int].0,
    {
        &self.entries[i].0
    }

    /// The value of the member at `i`.
    pub fn value_at(&self, i: usize) -> (r: &Json)
        requires
            i < self@.len(),
        ensures
            r@ == self@[i as int].1,
    {
        &self.entries[i].1
    }

    /// The value of the member named `key`.
    pub fn get(&self, key: &str) -> (r: Option<&Json>)
        ensures
            match r {
                Some(v) => member(self@, key@) == Some(v@),
                None => member(self@, key@) is None,
            },
    {
        let mut i: usize = 0;
        while i < self.entries.len()
            invariant
                i <= self.entries.len(),
                forall|j: int| 0 <= j < i ==> (#[trigger] self@[j]).0 != key@,
            decreases self.entries.len() - i,
        {
            if same_text(self.entries[i].0.as_str(), key) {
                proof {
                    assert(self@[i as int].0 == key@);
                    lemma_key_index_unique(self@, key@, i as int);
                }
                return Some(&self.entries[i].1);
            }
            proof {
                assert(self@[i as int].0 != key@);
            }
            i = i + 1;
        }
        proof {
            lemma_key_index_unique(self@, key@, i as int);
        }
        None
    }

    /// Sets the member `key` to `value`.
    pub fn insert(self, key: String, value: Json) -> (r: JsonObject)
        ensures
            r@ == with_member(self@, key@, value@),
    {
        proof {
            use_type_invariant(&self);
            self.lemma_entries();
            lemma_with_member_ascending(self@, key@, value@);
            lemma_slot(self@, key@);
        }
        let ghost before = self@;
        let JsonObject { entries } = self;
        let mut entries = entries;
        let mut i: usize = 0;
        let mut found = false;
        while i < entries.len()
            invariant_except_break
                !found,
            invariant
                i <= entries.len(),
                before == entry_views(entries@),
                forall|j: int| 0 <= j < i ==> text_less((#[trigger] before[j]).0, key@),
                0 <= slot(before, key@) <= before.len(),
                slot(before, key@) < before.len() ==> !text_less(before[slot(before, key@)].0, key@),
                forall|j: int| 0 <= j < slot(before, key@) ==> text_less((#[trigger] before[j]).0, key@),
            ensures
                i == slot(before, key@),
                found == (i < before.len() && before[i as int].0 == key@),
            decreases entries.len() - i,
        {
            proof {
                assert(before[i as int].0 == entries@[i as int].0@);
                lemma_text_less_irreflexive(key@);
            }
            match order_text(entries[i].0.as_str(), key.as_str()) {
                Position::Before => {
                    i = i + 1;
                },
                Position::Same => {
                    found = true;
                    break;
                },
                Position::After => {
                    break;
                },
            }
        }
        if found {
            entries.set(i, (key, value));
            assert(entry_views(entries@) =~= before.update(i as int, (key@, value@)));
        } else {
            entries.insert(i, (key, value));
            assert(entry_views(entries@) =~= before.insert(i as int, (key@, value@)));
        }
        JsonObject::from_ascending(entries)
    }

    /// Leaves the member `key` out.
    pub fn remove(self, key: &str) -> (r: JsonObject)
        ensures
            r@ == without_member(self@, key@),
    {
        proof {
            use_type_invariant(&self);
            self.lemma_entries();
            lemma_without_member_ascending(self@, key@);
            lemma_key_index(self@, key@);
        }
        let ghost before = self@;
        let JsonObject { entries } = self;
        let mut entries = entries;
        let mut i: usize = 0;
        while i < entries.len()
            invariant
                i <= entries.len(),
                before == entry_views(entries@),
                before == self@,
                ascending(before),
                ascending(without_member(before, key@)),
                forall|j: int| 0 <= j < i ==> (#[trigger] before[j]).0 != key@,
            decreases entries.len() - i,
        {
            assert(before[i as int].0 == entries@[i as int].0@);
            if same_text(entries[i].0.as_str(), key) {
                proof {
                    lemma_key_index_unique(before, key@, i as int);
                }
                entries.remove(i);
                assert(entry_views(entries@) =~= before.remove(i as int));
                return JsonObject::from_ascending(entries);
            }
            i = i + 1;
        }
        proof {
            lemma_key_index_unique(before, key@, i as int);
        }
        JsonObject::from_ascending(entries)
    }
}

impl Clone for JsonObject {
    fn clone(&self) -> (r: JsonObject)
        ensures
            r@ == self@,
        decreases self@,
    {
        proof {
            use_type_invariant(self);
            self.lemma_entries();
        }
        let mut out: Vec<(String, Json)> = Vec::new();
        let mut i: usize = 0;
        while i < self.entries.len()
            invariant
                i <= self.entries.len(),
                out@.len() == i,
                self@ == entry_views(self.entries@),
                forall|j: int| 0 <= j < i ==> (#[trigger] out@[j]).0@ == self@[j].0 && out@[j].1@ == self@[j].1,
            decreases self.entries.len() - i,
        {
            proof {
                assert(decreases_to!(self@ => self@[i as int]));
                assert(self@[i as int].1 == self.entries@[i as int].1@);
            }
            let value = self.entries[i].1.clone();
            out.push((self.entries[i].0.clone(), value));
            i = i + 1;
        }
        assert(entry_views(out@) =~= self@);
        JsonObject::from_ascending(out)
    }
}

impl Clone for Json {
    fn clone(&self) -> (r: Json)
        ensures
            r@ == self@,
        decreases self@,
    {
        broadcast use lemma_array_view;

        match self {
            Json::Null => Json::Null,
            Json::Bool(b) => Json::Bool(*b),
            Json::Num(n) => Json::Num(n.clone()),
            Json::Str(s) => Json::Str(s.clone()),
            Json::Array(items) => {
                let mut out: Vec<Json> = Vec::new();
                let mut i: usize = 0;
                while i < items.len()
                    invariant
                        i <= items.len(),
                        out@.len() == i,
                        self@ == JsonView::Array(views(items@)),
                        forall|j: int| 0 <= j < i ==> (#[trigger] out@[j])@ == items@[j]@,
                    decreases items.len() - i,
                {
                    proof {
                        assert(decreases_to!(self@ => self@->Array_0));
                        assert(decreases_to!(views(items@) => views(items@)[i as int]));
                    }
                    out.push(items[i].clone());
                    i = i + 1;
                }
                assert(views(out@) =~= views(items@));
                Json::Array(out)
            },
            Json::Object(o) => {
                proof {
                    assert(decreases_to!(self@ => self@->Object_0));
                }
                Json::Object(o.clone())
            },
        }
    }
}

impl Json {
    /// The value of the member named `key`, where this is an object that has one.
    pub fn get(&self, key: &str) -> (r: Option<&Json>)
        ensures
            match r {
                Some(v) => self@.get(key@) == Some(v@),
                None => self@.get(key@) is None,
            },
    {
        match self {
            Json::Object(o) => o.get(key),
            _ => None,
        }
    }

    /// The text, where this is a string.
    pub fn as_str(&self) -> (r: Option<&str>)
        ensures
            match r {
                Some(s) => self@.as_str() == Some(s@),
                None => self@.as_str() is None,
            },
    {
        match self {
            Json::Str(s) => Some(s.as_str()),
            _ => None,
        }
    }

    /// The items, where this is an array.
    pub fn as_array(&self) -> (r: Option<&Vec<Json>>)
        ensures
            match r {
                Some(items) => self@.as_array() == Some(views(items@)),
                None => self@.as_array() is None,
            },
    {
        broadcast use lemma_array_view;

        match self {
            Json::Array(items) => Some(items),
            _ => None,
        }
    }

    /// The members, where this is an object.
    pub fn as_object(&self) -> (r: Option<&JsonObject>)
        ensures
            match r {
                Some(o) => self@.as_object() == Some(o@),
                None => self@.as_object() is None,
            },
    {
        match self {
            Json::Object(o) => Some(o),
            _ => None,
        }
    }

    pub fn as_u64(&self) -> (r: Option<u64>)
        ensures
            r == self@.as_u64(),
    {
        match self {
            Json::Num(n) => n.as_u64(),
            _ => None,
        }
    }

    pub fn as_i64(&self) -> (r: Option<i64>)
        ensures
            r == self@.as_i64(),
    {
        match self {
            Json::Num(n) => n.as_i64(),
            _ => None,
        }
    }

    pub fn is_null(&self) -> (r: bool)
        ensures
            r == (self@ is Null),
    {
        matches!(self, Json::Null)
    }

    /// The text of the member named `key`, where that member is a string.
    pub fn get_str(&self, key: &str) -> (r: Option<&str>)
        ensures
            match r {
                Some(s) => self@.get_str(key@) == Some(s@),
                None => self@.get_str(key@) is None,
            },
    {
        match self.get(key) {
            Some(v) => v.as_str(),
            None => None,
        }
    }

    /// The items of the member named `key`, where that member is an array.
    pub fn get_array(&self, key: &str) -> (r: Option<&Vec<Json>>)
        ensures
            match r {
                Some(items) => self@.get_array(key@) == Some(views(items@)),
                None => self@.get_array(key@) is None,
            },
    {
        match self.get(key) {
            Some(v) => v.as_array(),
            None => None,
        }
    }

    /// The members of the member named `key`, where that member is an object.
    pub fn get_object(&self, key: &str) -> (r: Option<&JsonObject>)
        ensures
            match r {
                Some(o) => self@.get_object(key@) == Some(o@),
                None => self@.get_object(key@) is None,
            },
    {
        match self.get(key) {
            Some(v) => v.as_object(),
            None => None,
        }
    }

    /// The object with no members.
    pub fn object() -> (r: Json)
        ensures
            r@ == JsonView::empty_object(),
    {
        Json::Object(JsonObject::new())
    }

    /// A string value.
    pub fn text(s: &str) -> (r: Json)
        ensures
            r@ == JsonView::Str(s@),
    {
        Json::Str(s.to_owned())
    }

    /// The value of a signed integer.
    pub fn integer(n: i64) -> (r: Json)
        ensures
            r@ == integer_json(n),
    {
        Json::Num(JsonNumber::from_i64(n))
    }

    /// An array value.
    pub fn array(items: Vec<Json>) -> (r: Json)
        ensures
            r@ == JsonView::Array(views(items@)),
    {
        broadcast use lemma_array_view;

        Json::Array(items)
    }

    /// This object with the member `key` set to `value`; anything but an object stays as it is.
    pub fn with(self, key: &str, value: Json) -> (r: Json)
        ensures
            r@ == self@.with(key@, value@),
    {
        match self {
            Json::Object(o) => Json::Object(o.insert(key.to_owned(), value)),
            other => other,
        }
    }

    /// This object without the member `key`; anything but an object stays as it is.
    pub fn without(self, key: &str) -> (r: Json)
        ensures
            r@ == self@.without(key@),
    {
        match self {
            Json::Object(o) => Json::Object(o.remove(key)),
            other => other,
        }
    }

    /// JSON equality.
    pub fn same(&self, other: &Json) -> (r: bool)
        ensures
            r == self@.same(other@),
        decreases self@,
    {
        broadcast use lemma_array_view;

        match (self, other) {
            (Json::Null, Json::Null) => true,
            (Json::Bool(a), Json::Bool(b)) => *a == *b,
            (Json::Num(a), Json::Num(b)) => a.same(b),
            (Json::Str(a), Json::Str(b)) => same_text(a.as_str(), b.as_str()),
            (Json::Array(a), Json::Array(b)) => {
                if a.len() != b.len() {
                    return false;
                }
                let mut i: usize = 0;
                while i < a.len()
                    invariant
                        i <= a.len(),
                        a.len() == b.len(),
                        self@ == JsonView::Array(views(a@)),
                        other@ == JsonView::Array(views(b@)),
                        forall|j: int| 0 <= j < i ==> (#[trigger] views(a@)[j]).same(views(b@)[j]),
                    decreases a.len() - i,
                {
                    proof {
                        assert(decreases_to!(self@ => self@->Array_0));
                        assert(decreases_to!(views(a@) => views(a@)[i as int]));
                        assert(views(b@)[i as int] == b@[i as int]@);
                    }
                    if !a[i].same(&b[i]) {
                        return false;
                    }
                    i = i + 1;
                }
                true
            },
            (Json::Object(a), Json::Object(b)) => {
                if a.len() != b.len() {
                    return false;
                }
                let mut i: usize = 0;
                while i < a.len()
                    invariant
                        i <= a@.len(),
                        a@.len() == b@.len(),
                        self@ == JsonView::Object(a@),
                        other@ == JsonView::Object(b@),
                        forall|j: int| 0 <= j < i ==> (#[trigger] a@[j]).0 == b@[j].0 && a@[j].1.same(b@[j].1),
                    decreases a@.len() - i,
                {
                    proof {
                        assert(decreases_to!(self@ => self@->Object_0));
                        assert(decreases_to!(a@ => a@[i as int]));
                        assert(decreases_to!(a@[i as int] => a@[i as int].1));
                    }
                    if !same_text(a.key_at(i).as_str(), b.key_at(i).as_str()) {
                        return false;
                    }
                    if !a.value_at(i).same(b.value_at(i)) {
                        return false;
                    }
                    i = i + 1;
                }
                true
            },
            _ => false,
        }
    }
}

/// Copies the strings among the items, in order.
pub fn collect_strings(items: &Vec<Json>) -> (r: Vec<String>)
    ensures
        texts(r@) == strings(views(items@)),
{
    let mut out: Vec<String> = Vec::new();
    let mut i: usize = 0;
    let ghost all = views(items@);
    assert(texts(out@) =~= strings(all.take(0)));
    while i < items.len()
        invariant
            i <= items.len(),
            all == views(items@),
            texts(out@) == strings(all.take(i as int)),
        decreases items.len() - i,
    {
        proof {
            assert(all.take(i + 1).drop_last() =~= all.take(i as int));
            assert(all.take(i + 1).last() == items@[i as int]@);
        }
        let ghost before = texts(out@);
        if let Some(s) = items[i].as_str() {
            out.push(s.to_owned());
            assert(texts(out@) =~= before.push(s@));
        }
        i = i + 1;
    }
    assert(all.take(i as int) =~= all);
    out
}

/// Copies the strings listed by the member named `key`.
pub fn collect_listed(v: &Json, key: &str) -> (r: Vec<String>)
    ensures
        texts(r@) == listed_strings(v@, key@),
{
    match v.get_array(key) {
        Some(items) => collect_strings(items),
        None => {
            let out: Vec<String> = Vec::new();
            assert(texts(out@) =~= Seq::<Seq<char>>::empty());
            out
        },
    }
}

} // verus!
