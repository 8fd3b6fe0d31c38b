//! What the client sees of the tools and of the gateway.
use vstd::prelude::*;

use crate::cli::Compression;
use crate::compactor::{compacted, type_text};
use crate::json::{lemma_push_member, lemma_with_member_ascending, lemma_with_then_get, lemma_without_then_get};
use crate::json::{ascending, member, JsonView, Members};
use crate::laws::compaction::{lemma_compaction_keeps_validity, lemma_truncation};
use crate::model::{all_tools, any_object, first_version, input_schema, merged_capabilities, merged_members};
use crate::model::{offered_tool, offered_tools, reply_result, reply_tools, tier_tool, tier_tools, tool_definitions};
use crate::model::{short_description, ServerView, ToolView, BALANCED_PARAM_DESC, BALANCED_TOOL_DESC};
use crate::protocol::result_tools;
use crate::validator::valid;

verus! {

proof fn lemma_tool_members()
    ensures
        "name"@ != "inputSchema"@,
        "name"@ != "description"@,
        "inputSchema"@ != "description"@,
{
    reveal_strlit("name");
    reveal_strlit("inputSchema");
    reveal_strlit("description");
    assert("name"@.len() == 4 && "inputSchema"@.len() == 11 && "description"@.len() == 11);
    assert("inputSchema"@[0] == 'i' && "description"@[0] == 'd');
}

/// The lowest tier shows every definition as it is.
pub proof fn lemma_lowest_tier_changes_nothing(tools: Seq<JsonView>)
    ensures
        tier_tools(tools, Compression::Off) == tools,
{
    assert(tier_tools(tools, Compression::Off) =~= tools);
}

/// No tier touches anything of a tool but its input schema and its description.
pub proof fn lemma_tier_keeps_other_members(tool: JsonView, tier: Compression, key: Seq<char>)
    requires
        tool is Object,
        key != "inputSchema"@,
        key != "description"@,
    ensures
        tier_tool(tool, tier) is Object,
        tier_tool(tool, tier).get(key) == tool.get(key),
{
    let schema = input_schema(tool, JsonView::empty_object());
    match tier {
        Compression::Off => {},
        Compression::Safe => {
            let c = compacted(schema, false, 0);
            lemma_with_then_get(tool, "inputSchema"@, c, key);
            lemma_without_then_get(tool.with("inputSchema"@, c), "description"@, key);
        },
        Compression::Balanced => {
            let c = compacted(schema, true, BALANCED_PARAM_DESC as nat);
            let t = tool.with("inputSchema"@, c);
            lemma_with_then_get(tool, "inputSchema"@, c, key);
            if let Some(d) = t.get_str("description"@) {
                let short = JsonView::Str(short_description(d));
                lemma_with_then_get(t, "description"@, short, key);
            }
        },
        Compression::High => {
            let t = tool.with("inputSchema"@, any_object());
            let d = JsonView::Str("(p:"@ + type_text(schema) + ")"@);
            lemma_with_then_get(tool, "inputSchema"@, any_object(), key);
            lemma_with_then_get(t, "description"@, d, key);
        },
    }
}

/// The safe and the balanced tier show a schema that accepts exactly the
/// arguments that the full one accepts.
pub proof fn lemma_shown_schema_accepts_the_same(tool: JsonView, tier: Compression, args: JsonView)
    requires
        tool is Object,
        tier == Compression::Safe || tier == Compression::Balanced,
    ensures
        tier_tool(tool, tier).get("inputSchema"@) matches Some(shown) && (valid(args, shown) <==> valid(
            args,
            input_schema(tool, JsonView::empty_object()),
        )),
{
    lemma_tool_members();
    let schema = input_schema(tool, JsonView::empty_object());
    if tier == Compression::Safe {
        let c = compacted(schema, false, 0);
        lemma_compaction_keeps_validity(args, schema, false, 0);
        lemma_with_then_get(tool, "inputSchema"@, c, "inputSchema"@);
        lemma_without_then_get(tool.with("inputSchema"@, c), "description"@, "inputSchema"@);
    } else {
        let max = BALANCED_PARAM_DESC as nat;
        let c = compacted(schema, true, max);
        let t = tool.with("inputSchema"@, c);
        lemma_compaction_keeps_validity(args, schema, true, max);
        lemma_with_then_get(tool, "inputSchema"@, c, "inputSchema"@);
        if let Some(d) = t.get_str("description"@) {
            let short = JsonView::Str(short_description(d));
            lemma_with_then_get(t, "description"@, short, "inputSchema"@);
        }
    }
}

/// The safe tier shows no description of a tool, and the balanced tier a short one.
pub proof fn lemma_shown_description_is_short(tool: JsonView)
    requires
        tool is Object,
        ascending(tool->Object_0),
    ensures
        tier_tool(tool, Compression::Safe).get("description"@) is None,
        tier_tool(tool, Compression::Balanced).get_str("description"@) matches Some(d) ==> d.len()
            <= BALANCED_TOOL_DESC,
{
    lemma_tool_members();
    let schema = input_schema(tool, JsonView::empty_object());
    let c = compacted(schema, false, 0);
    let t = tool.with("inputSchema"@, c);
    lemma_with_member_ascending(tool->Object_0, "inputSchema"@, c);
    lemma_without_then_get(t, "description"@, "inputSchema"@);
    let b = tool.with(
        "inputSchema"@,
        compacted(schema, true, BALANCED_PARAM_DESC as nat),
    );
    if let Some(d) = b.get_str("description"@) {
        let short = short_description(d);
        lemma_truncation(d, (BALANCED_TOOL_DESC - 1) as nat);
        lemma_with_then_get(b, "description"@, JsonView::Str(short), "description"@);
    }
}

/// The highest tier shows the signature of the arguments as the description, and a schema that takes any object.
pub proof fn lemma_highest_tier_shows_signature(tool: JsonView)
    requires
        tool is Object,
    ensures
        tier_tool(tool, Compression::High).get("inputSchema"@) == Some(any_object()),
        tier_tool(tool, Compression::High).get("description"@) == Some(
            JsonView::Str("(p:"@ + type_text(input_schema(tool, JsonView::empty_object())) + ")"@),
        ),
{
    lemma_tool_members();
    let t = tool.with("inputSchema"@, any_object());
    let d = JsonView::Str("(p:"@ + type_text(input_schema(tool, JsonView::empty_object())) + ")"@);
    lemma_with_then_get(tool, "inputSchema"@, any_object(), "inputSchema"@);
    lemma_with_then_get(t, "description"@, d, "inputSchema"@);
}

/// What each tier shows of a tool. The safe tier leaves the description out
/// and compacts the schema without any; the balanced tier compacts it with
/// descriptions of at most 80 characters, and cuts a tool's own description of
/// more than 160 to that length, the ellipsis being the last of them.
pub proof fn lemma_tiers(tool: JsonView)
    requires
        tool is Object,
        ascending(tool->Object_0),
    ensures
        ({
            let schema = match tool.get("inputSchema"@) {
                Some(stated) => stated,
                None => JsonView::Object(Seq::empty()),
            };
            let safe = tier_tool(tool, Compression::Safe);
            let balanced = tier_tool(tool, Compression::Balanced);
            let high = tier_tool(tool, Compression::High);
            &&& tier_tool(tool, Compression::Off) == tool
            &&& safe.get("inputSchema"@) == Some(compacted(schema, false, 0))
            &&& safe.get("description"@) is None
            &&& balanced.get("inputSchema"@) == Some(compacted(schema, true, 80))
            &&& match tool.get("description"@) {
                Some(JsonView::Str(d)) => {
                    &&& d.len() <= 160 ==> balanced.get("description"@) == Some(JsonView::Str(d))
                    &&& d.len() > 160 ==> balanced.get("description"@) == Some(
                        JsonView::Str(d.take(159) + seq!['…']),
                    )
                },
                other => balanced.get("description"@) == other,
            }
            &&& high.get("inputSchema"@) == Some(JsonView::Object(seq![("type"@, JsonView::Str("object"@))]))
            &&& high.get("description"@) == Some(JsonView::Str("(p:"@ + type_text(schema) + ")"@))
        }),
{
    lemma_tool_members();
    let schema = input_schema(tool, JsonView::empty_object());
    let c = compacted(schema, false, 0);
    let t = tool.with("inputSchema"@, c);
    lemma_with_then_get(tool, "inputSchema"@, c, "description"@);
    lemma_with_member_ascending(tool->Object_0, "inputSchema"@, c);
    lemma_without_then_get(t, "description"@, "inputSchema"@);
    let shown = compacted(schema, true, 80);
    let b = tool.with("inputSchema"@, shown);
    lemma_with_then_get(tool, "inputSchema"@, shown, "description"@);
    if let Some(d) = b.get_str("description"@) {
        let short = short_description(d);
        lemma_with_then_get(b, "description"@, JsonView::Str(short), "inputSchema"@);
        if d.len() > 160 {
            assert(short =~= d.take(159) + seq!['…']);
        }
    }
    lemma_highest_tier_shows_signature(tool);
    assert(any_object()->Object_0 =~= seq![("type"@, JsonView::Str("object"@))]);
}

/// Every definition is shown on its own, in its place; what is no object is shown as it is.
pub proof fn lemma_tiers_one_by_one(tools: Seq<JsonView>, tier: Compression, i: int)
    requires
        0 <= i < tools.len(),
    ensures
        tier_tools(tools, tier).len() == tools.len(),
        tier_tools(tools, tier)[i] == tier_tool(tools[i], tier),
        !(tools[i] is Object) ==> tier_tool(tools[i], tier) == tools[i],
{
}

/// A tool's schema is its `inputSchema`, whatever that is, and the other one only where it has none.
pub proof fn lemma_schema_of_a_tool(tool: JsonView, otherwise: JsonView)
    ensures
        match tool.get("inputSchema"@) {
            Some(schema) => input_schema(tool, otherwise) == schema,
            None => input_schema(tool, otherwise) == otherwise,
        },
{
}

// ---------------------------------------------------------------------------
// Every tool is shown under its name
// ---------------------------------------------------------------------------

/// Whether a tool's definition carries the tool's name.
pub open spec fn carries_name(t: ToolView) -> bool {
    t.definition is Object && t.definition.get("name"@) == Some(JsonView::Str(t.name))
}

proof fn lemma_offered_carry_names(server_idx: int, prefix: Seq<char>, tools: Seq<JsonView>)
    ensures
        forall|k: int|
            0 <= k < offered_tools(server_idx, prefix, tools).len() ==> carries_name(
                #[trigger] offered_tools(server_idx, prefix, tools)[k],
            ),
    decreases tools.len(),
{
    if tools.len() > 0 {
        lemma_offered_carry_names(server_idx, prefix, tools.drop_last());
        let before = offered_tools(server_idx, prefix, tools.drop_last());
        let out = offered_tools(server_idx, prefix, tools);
        if let Some(t) = offered_tool(server_idx, prefix, tools.last()) {
            lemma_with_then_get(tools.last(), "name"@, JsonView::Str(t.name), "name"@);
        }
        assert forall|k: int| 0 <= k < out.len() implies carries_name(#[trigger] out[k]) by {
            if k < before.len() {
                assert(out[k] == before[k]);
            }
        }
    }
}

proof fn lemma_all_carry_names(servers: Seq<ServerView>, collected: Seq<Option<JsonView>>)
    ensures
        forall|k: int|
            0 <= k < all_tools(servers, collected).len() ==> carries_name(#[trigger] all_tools(servers, collected)[k]),
    decreases collected.len(),
{
    if collected.len() > 0 {
        let i = collected.len() - 1;
        lemma_all_carry_names(servers, collected.drop_last());
        if let Some(v) = collected[i] {
            if let Some(tools) = result_tools(v) {
                lemma_offered_carry_names(i, servers[i].prefix, tools);
            }
        }
        let before = all_tools(servers, collected.drop_last());
        let last = reply_tools(i, servers[i].prefix, collected[i]);
        let all = all_tools(servers, collected);
        assert forall|k: int| 0 <= k < all.len() implies carries_name(#[trigger] all[k]) by {
            if k < before.len() {
                assert(all[k] == before[k]);
            } else {
                assert(all[k] == last[k - before.len()]);
            }
        }
    }
}

/// A merged listing shows every tool of every upstream, in order, under the
/// name that its server's prefix gives it, whatever the tier.
pub proof fn lemma_listing_shows_every_tool(
    servers: Seq<ServerView>,
    collected: Seq<Option<JsonView>>,
    tier: Compression,
)
    ensures
        ({
            let tools = all_tools(servers, collected);
            let shown = tier_tools(tool_definitions(tools), tier);
            &&& shown.len() == tools.len()
            &&& forall|k: int|
                0 <= k < tools.len() ==> (#[trigger] shown[k]).get("name"@) == Some(JsonView::Str(tools[k].name))
        }),
{
    let tools = all_tools(servers, collected);
    let shown = tier_tools(tool_definitions(tools), tier);
    lemma_tool_members();
    lemma_all_carry_names(servers, collected);
    assert forall|k: int| 0 <= k < tools.len() implies (#[trigger] shown[k]).get("name"@) == Some(
        JsonView::Str(tools[k].name),
    ) by {
        assert(carries_name(tools[k]));
        lemma_tier_keeps_other_members(tools[k].definition, tier, "name"@);
    }
}

// ---------------------------------------------------------------------------
// Initialization
// ---------------------------------------------------------------------------

/// What an upstream's reply states as the protocol version.
pub open spec fn stated_version(reply: Option<JsonView>) -> Option<JsonView> {
    match reply_result(reply) {
        Some(result) => result.get("protocolVersion"@),
        None => None,
    }
}

/// The protocol version is the one that the first upstream states which states one.
pub proof fn lemma_first_version_counts(collected: Seq<Option<JsonView>>, i: int)
    requires
        0 <= i <= collected.len(),
        forall|j: int| 0 <= j < i ==> stated_version(#[trigger] collected[j]) is None,
        i < collected.len() ==> stated_version(collected[i]) is Some,
    ensures
        first_version(collected) == if i < collected.len() {
            stated_version(collected[i])
        } else {
            None
        },
    decreases collected.len(),
{
    if collected.len() > 0 {
        let rest = collected.drop_last();
        let n = rest.len();
        let k = if i < n {
            i
        } else {
            n as int
        };
        assert forall|j: int| 0 <= j < k implies stated_version(#[trigger] rest[j]) is None by {
            assert(rest[j] == collected[j]);
        }
        lemma_first_version_counts(rest, k);
        if i > n {
            assert(stated_version(collected[n as int]) is None);
        }
    }
}

/// What an upstream's reply states for a capability.
pub open spec fn stated_capability(reply: Option<JsonView>, key: Seq<char>) -> Option<JsonView> {
    match reply_result(reply) {
        Some(result) => match result.get_object("capabilities"@) {
            Some(capabilities) => member(capabilities, key),
            None => None,
        },
        None => None,
    }
}

proof fn lemma_merged_member(into: Members, members: Members, key: Seq<char>)
    ensures
        member(merged_members(into, members), key) == if member(into, key) is Some {
            member(into, key)
        } else {
            member(members, key)
        },
    decreases members.len(),
{
    if members.len() > 0 {
        let rest = members.drop_last();
        let last = members.last();
        lemma_merged_member(into, rest, key);
        lemma_merged_member(into, rest, last.0);
        let before = merged_members(into, rest);
        lemma_with_then_get(JsonView::Object(before), last.0, last.1, key);
        assert(members =~= rest.push(last));
        lemma_push_member(rest, last, key);
    }
}

/// A capability is the one that the first upstream states which states it, and there are no others.
pub proof fn lemma_first_server_wins(collected: Seq<Option<JsonView>>, key: Seq<char>, i: int)
    requires
        0 <= i <= collected.len(),
        forall|j: int| 0 <= j < i ==> stated_capability(#[trigger] collected[j], key) is None,
        i < collected.len() ==> stated_capability(collected[i], key) is Some,
    ensures
        member(merged_capabilities(collected), key) == if i < collected.len() {
            stated_capability(collected[i], key)
        } else {
            None
        },
    decreases collected.len(),
{
    if collected.len() > 0 {
        let rest = collected.drop_last();
        let n = rest.len();
        let k = if i < n {
            i
        } else {
            n as int
        };
        assert forall|j: int| 0 <= j < k implies stated_capability(#[trigger] rest[j], key) is None by {
            assert(rest[j] == collected[j]);
        }
        lemma_first_server_wins(rest, key, k);
        let before = merged_capabilities(rest);
        if let Some(result) = reply_result(collected.last()) {
            if let Some(capabilities) = result.get_object("capabilities"@) {
                lemma_merged_member(before, capabilities, key);
            }
        }
        if i > n {
            assert(stated_capability(collected[n as int], key) is None);
        }
    }
}

} // verus!
