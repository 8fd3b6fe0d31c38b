//! The schema ledger.
//!
//! When an upstream advertises its tools, each tool's full input schema is
//! kept here under the tool's name. When the agent calls a tool against the
//! compacted signature, the full schema is looked up again to validate and
//! rehydrate the arguments.
use dashmap::DashMap;
use vstd::prelude::*;

use crate::json::{Json, JsonView};

verus! {

/// dashmap's concurrent hash map.
#[verifier::external_type_specification]
#[verifier::external_body]
#[verifier::reject_recursive_types(K)]
#[verifier::reject_recursive_types(V)]
#[verifier::reject_recursive_types(S)]
pub struct ExDashMap<K, V, S>(dashmap::DashMap<K, V, S>);

/// The mathematical reading of a [`VerboseToolDefinition`].
pub struct DefinitionView {
    pub name: Seq<char>,
    pub input_schema: JsonView,
}

/// A tool definition as the upstream published it.
#[derive(Debug)]
pub struct VerboseToolDefinition {
    pub name: String,
    /// The JSON Schema of the tool's arguments, against which calls are validated and rehydrated.
    pub input_schema: Json,
}

impl View for VerboseToolDefinition {
    type V = DefinitionView;

    open spec fn view(&self) -> DefinitionView {
        DefinitionView { name: self.name@, input_schema: self.input_schema@ }
    }
}

impl Clone for VerboseToolDefinition {
    fn clone(&self) -> (r: VerboseToolDefinition)
        ensures
            r@ == self@,
    {
        VerboseToolDefinition { name: self.name.clone(), input_schema: self.input_schema.clone() }
    }
}

/// What a map of definitions holds.
pub uninterp spec fn definitions(map: DashMap<String, VerboseToolDefinition>) -> Map<Seq<char>, DefinitionView>;

/// `DashMap::new`: a map that holds nothing.
#[verifier::external_body]
fn definitions_new() -> (r: DashMap<String, VerboseToolDefinition>)
    ensures
        (definitions(r) == Map::<Seq<char>, DefinitionView>::empty()),
{
    DashMap::new()
}

/// `DashMap::insert`: the key holds the new value, and every other key what it held.
#[verifier::external_body]
fn definitions_insert(map: &mut DashMap<String, VerboseToolDefinition>, name: String, definition: VerboseToolDefinition)
    ensures
        definitions(*final(map)) == definitions(*old(map)).insert(name@, definition@),
{
    map.insert(name, definition);
}

/// `DashMap::get`: a copy of the value that the key holds, if it holds one.
#[verifier::external_body]
fn definitions_get(map: &DashMap<String, VerboseToolDefinition>, name: &str) -> (r: Option<VerboseToolDefinition>)
    ensures
        match r {
            Some(d) => definitions(*map).dom().contains(name@) && definitions(*map)[name@] == d@,
            None => !definitions(*map).dom().contains(name@),
        },
{
    map.get(name).map(|entry| entry.value().clone())
}

/// `DashMap::len`: the number of keys that hold a value.
#[verifier::external_body]
fn definitions_len(map: &DashMap<String, VerboseToolDefinition>) -> (r: usize)
    ensures
        r == definitions(*map).dom().len(),
{
    map.len()
}

/// `DashMap::is_empty`: whether no key holds a value.
#[verifier::external_body]
fn definitions_is_empty(map: &DashMap<String, VerboseToolDefinition>) -> (r: bool)
    ensures
        r == (definitions(*map).dom().len() == 0),
{
    map.is_empty()
}

/// The definitions after one was recorded, in place of an earlier one of that name.
pub open spec fn with_definition(
    ledger: Map<Seq<char>, DefinitionView>,
    name: Seq<char>,
    input_schema: JsonView,
) -> Map<Seq<char>, DefinitionView> {
    ledger.insert(name, DefinitionView { name, input_schema })
}

/// A definition that was recorded is read back, and the others are left as they were.
pub proof fn lemma_record_then_get(
    ledger: Map<Seq<char>, DefinitionView>,
    name: Seq<char>,
    input_schema: JsonView,
    other: Seq<char>,
)
    ensures
        ({
            let after = with_definition(ledger, name, input_schema);
            &&& after.dom().contains(name)
            &&& after[name] == (DefinitionView { name, input_schema })
            &&& other != name ==> after.dom().contains(other) == ledger.dom().contains(other) && after[other]
                == ledger[other]
        }),
{
}

/// Recording a definition adds one to their number if the name is new, and none otherwise.
pub proof fn lemma_record_then_len(ledger: Map<Seq<char>, DefinitionView>, name: Seq<char>, input_schema: JsonView)
    requires
        ledger.dom().finite(),
    ensures
        ({
            let after = with_definition(ledger, name, input_schema);
            &&& after.dom().finite()
            &&& after.dom().len() == ledger.dom().len() + if ledger.dom().contains(name) {
                0int
            } else {
                1int
            }
        }),
{
    let after = with_definition(ledger, name, input_schema);
    assert(after.dom() =~= ledger.dom().insert(name));
}

/// The full definitions of all tools that were advertised, by tool name.
pub struct SchemaLedger {
    inner: DashMap<String, VerboseToolDefinition>,
}

impl View for SchemaLedger {
    type V = Map<Seq<char>, DefinitionView>;

    closed spec fn view(&self) -> Map<Seq<char>, DefinitionView> {
        definitions(self.inner)
    }
}

impl SchemaLedger {
    /// Whether there are finitely many definitions. A new ledger has none, and recording keeps it so.
    pub open spec fn wf(self) -> bool {
        self@.dom().finite()
    }

    /// A ledger without any definition.
    pub fn new() -> (r: SchemaLedger)
        ensures
            r@ == Map::<Seq<char>, DefinitionView>::empty(),
            r.wf(),
    {
        SchemaLedger { inner: definitions_new() }
    }

    /// Records the definition of a tool, in place of an earlier one of that name.
    pub fn record(&mut self, name: &str, input_schema: Json)
        ensures
            final(self)@ == with_definition(old(self)@, name@, input_schema@),
            old(self).wf() ==> final(self).wf(),
    {
        proof {
            if self.wf() {
                lemma_record_then_len(self@, name@, input_schema@);
            }
        }
        let definition = VerboseToolDefinition { name: name.to_owned(), input_schema };
        definitions_insert(&mut self.inner, name.to_owned(), definition);
    }

    /// A copy of the definition recorded for a tool.
    pub fn get(&self, name: &str) -> (r: Option<VerboseToolDefinition>)
        ensures
            match r {
                Some(d) => self@.dom().contains(name@) && self@[name@] == d@,
                None => !self@.dom().contains(name@),
            },
    {
        definitions_get(&self.inner, name)
    }

    /// The number of definitions.
    pub fn len(&self) -> (r: usize)
        ensures
            r == self@.dom().len(),
    {
        definitions_len(&self.inner)
    }

    /// Whether there is no definition.
    pub fn is_empty(&self) -> (r: bool)
        ensures
            r == (self@.dom().len() == 0),
    {
        definitions_is_empty(&self.inner)
    }
}

impl Default for SchemaLedger {
    fn default() -> (r: SchemaLedger)
        ensures
            r@ == Map::<Seq<char>, DefinitionView>::empty(),
            r.wf(),
    {
        SchemaLedger::new()
    }
}

} // verus!
