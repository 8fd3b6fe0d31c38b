//! Merging: what becomes of the replies of several upstreams.
use vstd::prelude::*;

use crate::cli::Compression;
use crate::json::{ascending, lemma_with_member_ascending, JsonView, Members};
use crate::ledger::DefinitionView;
use crate::metrics::{percent_saved, MetricsView};
use crate::model::{all_tools, listing_frame, listing_step, namespaced, offered_tool, offered_tools, recorded};
use crate::model::{merged_capabilities, merged_members, reply_result, reply_tools, routed, tier_tools};
use crate::model::{tool_definitions, total_bytes, FrameView, RouterView, ServerView, ToolView};
use crate::protocol::result_tools;
use crate::tables::RouteView;
use crate::text::byte_len;
use crate::wire::json_text;

verus! {

// ---------------------------------------------------------------------------
// The merged listing
// ---------------------------------------------------------------------------

/// The definition at place `j` of the list in the reply of upstream `i`, where there is one.
pub open spec fn listed(collected: Seq<Option<JsonView>>, i: int, j: int) -> Option<JsonView> {
    if 0 <= i < collected.len() {
        match collected[i] {
            Some(reply) => match reply.get("result"@) {
                Some(result) => match result.get("tools"@) {
                    Some(JsonView::Array(tools)) => if 0 <= j < tools.len() {
                        Some(tools[j])
                    } else {
                        None
                    },
                    _ => None,
                },
                None => None,
            },
            None => None,
        }
    } else {
        None
    }
}

/// Whether upstream `i` lists a definition with a name at place `j`.
pub open spec fn named_at(collected: Seq<Option<JsonView>>, i: int, j: int) -> bool {
    listed(collected, i, j) matches Some(tool) && tool.get("name"@) matches Some(JsonView::Str(_))
}

/// Whether a tool is the one that upstream `i` lists at place `j`: its route
/// leads back there, its name has the server's prefix in front, its schema is
/// the one stated or else that of any object, and its definition is the one
/// listed with nothing but the name changed.
pub open spec fn comes_from(
    t: ToolView,
    servers: Seq<ServerView>,
    collected: Seq<Option<JsonView>>,
    i: int,
    j: int,
) -> bool {
    let tool = listed(collected, i, j)->0;
    let own = tool.get("name"@)->0->Str_0;
    let prefix = servers[i].prefix;
    &&& named_at(collected, i, j)
    &&& t.route.server_idx == i
    &&& t.route.original_name == own
    &&& prefix.len() == 0 ==> t.name == own
    &&& prefix.len() > 0 ==> t.name == prefix + seq!['_', '_'] + own
    &&& tool.get("inputSchema"@) matches Some(schema) ==> t.schema == schema
    &&& tool.get("inputSchema"@) is None ==> t.schema == JsonView::Object(
        seq![("type"@, JsonView::Str("object"@))],
    )
    &&& t.definition == tool.with("name"@, JsonView::Str(t.name))
}

/// Whether one place in the replies comes before another.
pub open spec fn place_before(a: (int, int), b: (int, int)) -> bool {
    a.0 < b.0 || (a.0 == b.0 && a.1 < b.1)
}

/// Whether `places` says for each tool of a listing where in the replies it
/// comes from: each from another place, in the order of the places, and every
/// definition with a name is there.
pub open spec fn tells_origins(
    places: Seq<(int, int)>,
    tools: Seq<ToolView>,
    servers: Seq<ServerView>,
    collected: Seq<Option<JsonView>>,
) -> bool {
    &&& places.len() == tools.len()
    &&& forall|k: int|
        0 <= k < tools.len() ==> comes_from(#[trigger] tools[k], servers, collected, places[k].0, places[k].1)
    &&& forall|a: int, b: int|
        0 <= a < b < places.len() ==> place_before(#[trigger] places[a], #[trigger] places[b])
    &&& forall|i: int, j: int| #[trigger] named_at(collected, i, j) ==> places.contains((i, j))
}

/// The places of one list from which tools are taken.
proof fn lemma_offered_places(server_idx: int, prefix: Seq<char>, tools: Seq<JsonView>) -> (places: Seq<int>)
    ensures
        places.len() == offered_tools(server_idx, prefix, tools).len(),
        forall|k: int|
            0 <= k < places.len() ==> 0 <= #[trigger] places[k] < tools.len() && offered_tool(
                server_idx,
                prefix,
                tools[places[k]],
            ) == Some(offered_tools(server_idx, prefix, tools)[k]),
        forall|a: int, b: int| 0 <= a < b < places.len() ==> #[trigger] places[a] < #[trigger] places[b],
        forall|j: int|
            0 <= j < tools.len() && offered_tool(server_idx, prefix, #[trigger] tools[j]) is Some ==> places.contains(
                j,
            ),
    decreases tools.len(),
{
    if tools.len() == 0 {
        Seq::empty()
    } else {
        let rest = tools.drop_last();
        let n = rest.len() as int;
        let before = lemma_offered_places(server_idx, prefix, rest);
        let shown = offered_tools(server_idx, prefix, rest);
        let out = offered_tools(server_idx, prefix, tools);
        let places = if offered_tool(server_idx, prefix, tools.last()) is Some {
            before.push(n)
        } else {
            before
        };
        assert forall|k: int| 0 <= k < places.len() implies 0 <= #[trigger] places[k] < tools.len() && offered_tool(
            server_idx,
            prefix,
            tools[places[k]],
        ) == Some(out[k]) by {
            if k < before.len() {
                assert(places[k] == before[k]);
                assert(rest[before[k]] == tools[before[k]]);
                assert(out[k] == shown[k]);
            }
        }
        assert forall|a: int, b: int| 0 <= a < b < places.len() implies #[trigger] places[a] < #[trigger] places[b] by {
            assert(places[a] == before[a]);
            if b < before.len() {
                assert(places[b] == before[b]);
            }
        }
        assert forall|j: int|
            0 <= j < tools.len() && offered_tool(server_idx, prefix, #[trigger] tools[j])
                is Some implies places.contains(j) by {
            if j < n {
                assert(rest[j] == tools[j]);
                let k = choose|k: int| 0 <= k < before.len() && before[k] == j;
                assert(places[k] == j);
            } else {
                assert(places[before.len() as int] == j);
            }
        }
        places
    }
}

/// A tool that is taken from a reply comes from its place there.
proof fn lemma_offered_comes_from(
    servers: Seq<ServerView>,
    collected: Seq<Option<JsonView>>,
    i: int,
    j: int,
    t: ToolView,
)
    requires
        listed(collected, i, j) is Some,
        offered_tool(i, servers[i].prefix, listed(collected, i, j)->0) == Some(t),
    ensures
        comes_from(t, servers, collected, i, j),
{
    reveal_strlit("__");
    assert("__"@.len() == 2 && "__"@[0] == '_' && "__"@[1] == '_');
    assert("__"@ =~= seq!['_', '_']);
    let tool = listed(collected, i, j)->0;
    if tool.get("inputSchema"@) is None {
        let one = seq![("type"@, JsonView::Str("object"@))];
        assert(t.schema is Object);
        assert(t.schema->Object_0 =~= one);
    }
}

/// The lists of earlier replies are the same in a longer run of replies.
proof fn lemma_listed_earlier(collected: Seq<Option<JsonView>>, i: int, j: int)
    requires
        collected.len() > 0,
    ensures
        i < collected.len() - 1 ==> listed(collected, i, j) == listed(collected.drop_last(), i, j),
        i >= collected.len() - 1 ==> listed(collected.drop_last(), i, j) is None,
{
    if 0 <= i < collected.len() - 1 {
        assert(collected.drop_last()[i] == collected[i]);
    }
}

proof fn lemma_origins(servers: Seq<ServerView>, collected: Seq<Option<JsonView>>) -> (places: Seq<(int, int)>)
    ensures
        tells_origins(places, all_tools(servers, collected), servers, collected),
    decreases collected.len(),
{
    if collected.len() == 0 {
        let places: Seq<(int, int)> = Seq::empty();
        assert forall|i: int, j: int| #[trigger] named_at(collected, i, j) implies places.contains((i, j)) by {}
        places
    } else {
        let i = collected.len() - 1;
        let rest = collected.drop_last();
        let before = lemma_origins(servers, rest);
        let shown = all_tools(servers, rest);
        let last = reply_tools(i, servers[i].prefix, collected[i]);
        let out = all_tools(servers, collected);
        let tools = match collected[i] {
            Some(v) => match result_tools(v) {
                Some(tools) => tools,
                None => Seq::empty(),
            },
            None => Seq::empty(),
        };
        assert(last == offered_tools(i, servers[i].prefix, tools));
        let own = lemma_offered_places(i, servers[i].prefix, tools);
        let added = Seq::new(own.len(), |k: int| (i, own[k]));
        let places = before + added;
        assert forall|k: int| 0 <= k < out.len() implies comes_from(
            #[trigger] out[k],
            servers,
            collected,
            places[k].0,
            places[k].1,
        ) by {
            if k < shown.len() {
                assert(out[k] == shown[k]);
                assert(places[k] == before[k]);
                assert(comes_from(shown[k], servers, rest, before[k].0, before[k].1));
                assert(named_at(rest, before[k].0, before[k].1));
                lemma_listed_earlier(collected, before[k].0, before[k].1);
            } else {
                let n = k - shown.len();
                assert(out[k] == last[n]);
                assert(places[k] == added[n]);
                assert(0 <= own[n] < tools.len());
                assert(listed(collected, i, own[n]) == Some(tools[own[n]]));
                lemma_offered_comes_from(servers, collected, i, own[n], last[n]);
            }
        }
        assert forall|a: int, b: int| 0 <= a < b < places.len() implies place_before(
            #[trigger] places[a],
            #[trigger] places[b],
        ) by {
            if b < before.len() {
                assert(places[a] == before[a] && places[b] == before[b]);
            } else if a < before.len() {
                assert(places[a] == before[a]);
                assert(comes_from(shown[a], servers, rest, before[a].0, before[a].1));
                assert(named_at(rest, before[a].0, before[a].1));
            } else {
                assert(own[a - before.len()] < own[b - before.len()]);
            }
        }
        assert forall|u: int, j: int| #[trigger] named_at(collected, u, j) implies places.contains((u, j)) by {
            lemma_listed_earlier(collected, u, j);
            if u < i {
                assert(named_at(rest, u, j));
                let k = choose|k: int| 0 <= k < before.len() && before[k] == (u, j);
                assert(places[k] == (u, j));
            } else {
                assert(tools[j] == listed(collected, i, j)->0);
                assert(offered_tool(i, servers[i].prefix, tools[j]) is Some);
                let k = choose|k: int| 0 <= k < own.len() && own[k] == j;
                assert(places[before.len() + k] == (u, j));
            }
        }
        places
    }
}

/// A merged listing holds every definition with a name that an upstream lists,
/// each once, in the order of the upstreams and of their lists, and nothing else.
pub proof fn lemma_merged_listing(servers: Seq<ServerView>, collected: Seq<Option<JsonView>>)
    ensures
        exists|places: Seq<(int, int)>| #[trigger]
            tells_origins(places, all_tools(servers, collected), servers, collected),
{
    let places = lemma_origins(servers, collected);
    assert(tells_origins(places, all_tools(servers, collected), servers, collected));
}

/// A definition with a name that an upstream lists is in the merged listing.
pub proof fn lemma_no_named_tool_is_lost(servers: Seq<ServerView>, collected: Seq<Option<JsonView>>, i: int, j: int)
    requires
        named_at(collected, i, j),
    ensures
        exists|k: int|
            0 <= k < all_tools(servers, collected).len() && comes_from(
                #[trigger] all_tools(servers, collected)[k],
                servers,
                collected,
                i,
                j,
            ),
{
    let places = lemma_origins(servers, collected);
    assert(places.contains((i, j)));
    let k = choose|k: int| 0 <= k < places.len() && places[k] == (i, j);
    assert(comes_from(all_tools(servers, collected)[k], servers, collected, places[k].0, places[k].1));
}

/// A name under a prefix is the prefix, two underscores and the name; without
/// a prefix it is the name.
pub proof fn lemma_prefixed_names(prefix: Seq<char>, name: Seq<char>)
    ensures
        prefix.len() == 0 ==> namespaced(prefix, name) == name,
        prefix.len() > 0 ==> namespaced(prefix, name) == prefix + seq!['_', '_'] + name,
{
    reveal_strlit("__");
    assert("__"@.len() == 2 && "__"@[0] == '_' && "__"@[1] == '_');
    assert("__"@ =~= seq!['_', '_']);
}

/// The tools of a reply are the array `tools` of its result, and there are none without one.
pub proof fn lemma_listed_tools(reply: JsonView)
    ensures
        match reply.get("result"@) {
            Some(result) => match result.get("tools"@) {
                Some(JsonView::Array(tools)) => result_tools(reply) == Some(tools),
                _ => result_tools(reply) is None,
            },
            None => result_tools(reply) is None,
        },
{
}

// ---------------------------------------------------------------------------
// What is remembered of a listing
// ---------------------------------------------------------------------------

/// A name that a listing does not have keeps what was known of it, and a name
/// that it has is known afterwards as the last tool of that name.
pub proof fn lemma_listing_is_remembered(
    ledger: Map<Seq<char>, DefinitionView>,
    routing: Map<Seq<char>, RouteView>,
    tools: Seq<ToolView>,
    name: Seq<char>,
    k: int,
)
    requires
        -1 <= k < tools.len(),
        k >= 0 ==> tools[k].name == name,
        forall|j: int| k < j < tools.len() ==> (#[trigger] tools[j]).name != name,
    ensures
        k >= 0 ==> {
            &&& routed(routing, tools).dom().contains(name)
            &&& routed(routing, tools)[name] == tools[k].route
            &&& recorded(ledger, tools).dom().contains(name)
            &&& recorded(ledger, tools)[name].name == name
            &&& recorded(ledger, tools)[name].input_schema == tools[k].schema
        },
        k < 0 ==> {
            &&& routed(routing, tools).dom().contains(name) == routing.dom().contains(name)
            &&& routed(routing, tools)[name] == routing[name]
            &&& recorded(ledger, tools).dom().contains(name) == ledger.dom().contains(name)
            &&& recorded(ledger, tools)[name] == ledger[name]
        },
    decreases tools.len(),
{
    if tools.len() > 0 && k < tools.len() - 1 {
        let rest = tools.drop_last();
        assert(tools[tools.len() - 1].name != name);
        assert forall|j: int| k < j < rest.len() implies (#[trigger] rest[j]).name != name by {
            assert(rest[j] == tools[j]);
        }
        if k >= 0 {
            assert(rest[k] == tools[k]);
        }
        lemma_listing_is_remembered(ledger, routing, rest, name, k);
    }
}

/// The bytes of several values are those of each, counted in a machine word.
pub proof fn lemma_bytes_add_up(items: Seq<JsonView>, v: JsonView)
    ensures
        total_bytes(Seq::<JsonView>::empty()) == 0,
        total_bytes(items.push(v)) == total_bytes(items).wrapping_add(byte_len(json_text(v))),
{
    assert(items.push(v).drop_last() =~= items);
}

/// The definitions of a listing are those of its tools, one for one.
pub proof fn lemma_definitions_of_tools(tools: Seq<ToolView>, tier: Compression, k: int)
    requires
        0 <= k < tools.len(),
    ensures
        tool_definitions(tools).len() == tools.len(),
        tool_definitions(tools)[k] == tools[k].definition,
        tier_tools(tool_definitions(tools), tier).len() == tools.len(),
{
}

/// With the last reply to a request for the listing the client gets one frame
/// and the counters rise by it, a token for every four bytes; the first listing
/// is kept as the headline, and later ones leave that as it is.
pub proof fn lemma_listing_is_counted(
    r: RouterView,
    m: MetricsView,
    client_id: JsonView,
    collected: Seq<Option<JsonView>>,
)
    ensures
        ({
            let tools = all_tools(r.servers, collected);
            let line = json_text(listing_frame(r.tier, client_id, tools));
            let before = total_bytes(tool_definitions(tools));
            let after = byte_len(line);
            let step = listing_step(r, m, client_id, collected);
            &&& step.frames == seq![FrameView::ToClient(line)]
            &&& step.metrics.tools_list_total == m.tools_list_total.wrapping_add(1)
            &&& step.metrics.tokens_before_total == m.tokens_before_total.wrapping_add((before / 4) as u64)
            &&& step.metrics.tokens_after_total == m.tokens_after_total.wrapping_add((after / 4) as u64)
            &&& step.metrics.tools_call_total == m.tools_call_total
            &&& step.metrics.tools_call_forwarded == m.tools_call_forwarded
            &&& step.metrics.tools_call_rejected == m.tools_call_rejected
            &&& step.metrics.active_sessions == m.active_sessions
            &&& step.metrics.start == m.start
            &&& r.headline is Some ==> step.router.headline == r.headline
            &&& r.headline is None ==> {
                &&& step.router.headline matches Some(first)
                &&& first.tools == tools.len() as usize
                &&& first.before_tokens == before / 4
                &&& first.after_tokens == after / 4
                &&& first.saved_pct == percent_saved(before as nat, after as nat) as u64
            }
            &&& step.router.servers == r.servers && step.router.tier == r.tier
            &&& step.router.pending == r.pending && step.router.next_id == r.next_id
            &&& step.router.fanouts == r.fanouts && step.router.next_fanout == r.next_fanout
            &&& step.router.ledger == recorded(r.ledger, tools)
            &&& step.router.routing == routed(r.routing, tools)
        }),
{
}

// ---------------------------------------------------------------------------
// Merged capabilities
// ---------------------------------------------------------------------------

/// The result of a reply is its member `result`.
pub proof fn lemma_result_of_reply(reply: Option<JsonView>)
    ensures
        reply is None ==> reply_result(reply) is None,
        reply matches Some(v) ==> reply_result(reply) == v.get("result"@),
{
}

proof fn lemma_merged_members_ascending(into: Members, members: Members)
    requires
        ascending(into),
    ensures
        ascending(merged_members(into, members)),
    decreases members.len(),
{
    if members.len() > 0 {
        let before = merged_members(into, members.drop_last());
        lemma_merged_members_ascending(into, members.drop_last());
        lemma_with_member_ascending(before, members.last().0, members.last().1);
    }
}

/// Merged capabilities are in order, each named once.
pub proof fn lemma_capabilities_in_order(collected: Seq<Option<JsonView>>)
    ensures
        ascending(merged_capabilities(collected)),
    decreases collected.len(),
{
    if collected.len() > 0 {
        let before = merged_capabilities(collected.drop_last());
        lemma_capabilities_in_order(collected.drop_last());
        if let Some(result) = reply_result(collected.last()) {
            if let Some(capabilities) = result.get_object("capabilities"@) {
                lemma_merged_members_ascending(before, capabilities);
            }
        }
    }
}

} // verus!
