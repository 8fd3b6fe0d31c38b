//! Tool calls: who gets them, which are refused, and how they are counted.
use vstd::prelude::*;

use crate::cli::Compression;
use crate::json::{integer_json, lemma_with_then_get, JsonView};
use crate::laws::consistency::{consistent, has_room, under_way, waits_for};
use crate::laws::routing::{event_possible, event_step, is_reply_to, run, Event};
use crate::laws::routing::{lemma_ids_never_repeat, lemma_run_consistent};
use crate::ledger::DefinitionView;
use crate::metrics::MetricsView;
use crate::model::{all_tools, call_params, called_args, called_name, client_step, invalid_params_frame, listing_step};
use crate::model::{namespaced, recorded, reply_id, request_frame, route_of, routed, verdict};
use crate::model::{FrameView, RouterView, ToolView, Verdict, INVALID_PARAMS, PREFIX_SEP};
use crate::protocol::answers;
use crate::tables::{FanOutKind, PendingView, RouteView};
use crate::validator::{lemma_failure_iff_invalid, normalized, valid, FailureView};
use crate::wire::json_text;

verus! {

/// Whether a line of the client is a request to call a tool.
pub open spec fn is_tool_call(v: JsonView) -> bool {
    v.get_str("method"@) == Some("tools/call"@) && v.get("id"@) is Some
}

proof fn lemma_tool_call_is_no_fanout()
    ensures
        "tools/call"@ != "tools/list"@,
        "tools/call"@ != "initialize"@,
{
    reveal_strlit("tools/call");
    reveal_strlit("tools/list");
    reveal_strlit("initialize");
    assert("tools/call"@[6] == 'c');
    assert("tools/list"@[6] == 'l');
    assert("initialize"@[6] == 'l');
}

// ---------------------------------------------------------------------------
// Which calls are refused
// ---------------------------------------------------------------------------

/// A call is sent on exactly if it names a tool with a known owner and, above
/// the lowest tier and where the tool's schema is known, its arguments are
/// valid under that schema once they are brought into shape. The arguments
/// that are sent are those.
pub proof fn lemma_call_sent_iff_valid(r: RouterView, v: JsonView)
    ensures
        match called_name(v) {
            Some(name) => {
                let schema = r.ledger[name].input_schema;
                let checked = r.tier != Compression::Off && r.ledger.dom().contains(name);
                let args = if checked {
                    normalized(called_args(v), schema, r.tier == Compression::High)
                } else {
                    called_args(v)
                };
                &&& verdict(r, v) is Sent <==> route_of(r, name) is Some && (checked ==> valid(args, schema))
                &&& verdict(r, v) is Sent ==> verdict(r, v) == (Verdict::Sent { route: route_of(r, name)->0, args })
            },
            None => verdict(r, v) is Refused,
        },
{
    if let Some(name) = called_name(v) {
        let schema = r.ledger[name].input_schema;
        let args = normalized(called_args(v), schema, r.tier == Compression::High);
        lemma_failure_iff_invalid(args, schema, ""@);
    }
}

/// The parts of an error reply: the client's id, the code for invalid
/// parameters, and the tool, the path and the reason.
pub proof fn lemma_invalid_params_frame(id: JsonView, tool: Seq<char>, f: FailureView)
    ensures
        ({
            let frame = invalid_params_frame(id, tool, f);
            &&& frame.get("id"@) == Some(id)
            &&& frame.get("error"@) matches Some(error) && {
                &&& error.get("code"@) == Some(integer_json(INVALID_PARAMS))
                &&& error.get("data"@) matches Some(data) && {
                    &&& data.get("tool"@) == Some(JsonView::Str(tool))
                    &&& data.get("path"@) == Some(JsonView::Str(f.path))
                    &&& data.get("reason"@) == Some(JsonView::Str(f.reason))
                }
            }
        }),
{
    reveal_strlit("id");
    reveal_strlit("error");
    reveal_strlit("code");
    reveal_strlit("message");
    reveal_strlit("data");
    reveal_strlit("tool");
    reveal_strlit("path");
    reveal_strlit("reason");
    assert("id"@.len() == 2 && "error"@.len() == 5 && "message"@.len() == 7 && "reason"@.len() == 6);
    assert("code"@.len() == 4 && "code"@[0] == 'c');
    assert("data"@.len() == 4 && "data"@[0] == 'd');
    assert("tool"@.len() == 4 && "tool"@[0] == 't');
    assert("path"@.len() == 4 && "path"@[0] == 'p');
    let d0 = JsonView::empty_object();
    let d1 = d0.with("tool"@, JsonView::Str(tool));
    let d2 = d1.with("path"@, JsonView::Str(f.path));
    let data = d2.with("reason"@, JsonView::Str(f.reason));
    lemma_with_then_get(d0, "tool"@, JsonView::Str(tool), "tool"@);
    lemma_with_then_get(d1, "path"@, JsonView::Str(f.path), "tool"@);
    lemma_with_then_get(d2, "reason"@, JsonView::Str(f.reason), "tool"@);
    lemma_with_then_get(d2, "reason"@, JsonView::Str(f.reason), "path"@);
    let e0 = JsonView::empty_object();
    let e1 = e0.with("code"@, integer_json(INVALID_PARAMS));
    let e2 = e1.with("message"@, JsonView::Str("Invalid params"@));
    let error = e2.with("data"@, data);
    lemma_with_then_get(e0, "code"@, integer_json(INVALID_PARAMS), "code"@);
    lemma_with_then_get(e1, "message"@, JsonView::Str("Invalid params"@), "code"@);
    lemma_with_then_get(e2, "data"@, data, "code"@);
    let f0 = JsonView::empty_object().with("jsonrpc"@, JsonView::Str("2.0"@));
    let f1 = f0.with("id"@, id);
    lemma_with_then_get(f0, "id"@, id, "id"@);
    lemma_with_then_get(f1, "error"@, error, "id"@);
}

/// A call that is refused is answered at once: the client gets one error
/// reply, no upstream gets anything, and the state of the router stays as it is.
pub proof fn lemma_refused_call_is_answered(r: RouterView, m: MetricsView, v: JsonView, line: Seq<char>)
    requires
        is_tool_call(v),
        verdict(r, v) is Refused,
    ensures
        ({
            let step = client_step(r, m, Some(v), line);
            let tool = verdict(r, v)->tool;
            let failure = verdict(r, v)->failure;
            &&& step.router == r
            &&& step.metrics == m.with_call_rejected()
            &&& step.frames == seq![
                FrameView::ToClient(json_text(invalid_params_frame(v.get("id"@)->0, tool, failure))),
            ]
        }),
{
    lemma_tool_call_is_no_fanout();
}

/// A call that is sent on goes to the tool's owner alone, under the tool's
/// name there and a fresh id, and waits for its reply.
pub proof fn lemma_sent_call_reaches_owner(r: RouterView, m: MetricsView, v: JsonView, line: Seq<char>)
    requires
        is_tool_call(v),
        verdict(r, v) is Sent,
    ensures
        ({
            let step = client_step(r, m, Some(v), line);
            let route = verdict(r, v)->route;
            let args = verdict(r, v)->args;
            let id = r.next_id[route.server_idx];
            &&& step.router == r.with_request(route.server_idx, PendingView::Forward(v.get("id"@)->0))
            &&& step.metrics == m.with_call_forwarded()
            &&& step.frames == seq![
                FrameView::ToUpstream(
                    route.server_idx,
                    json_text(request_frame(id, "tools/call"@, call_params(route.original_name, args))),
                ),
            ]
        }),
{
    lemma_tool_call_is_no_fanout();
}

/// A tool that no upstream advertised is refused, unless there is but one
/// server and it has no prefix.
pub proof fn lemma_unknown_tool_refused(r: RouterView, v: JsonView, name: Seq<char>)
    requires
        called_name(v) == Some(name),
        !r.routing.dom().contains(name),
        r.servers.len() != 1 || r.servers[0].prefix.len() > 0,
    ensures
        verdict(r, v) == (Verdict::Refused {
            tool: name,
            failure: FailureView { path: "/params/name"@, reason: "unknown tool '"@ + name + "'"@ },
        }),
{
}

// ---------------------------------------------------------------------------
// An advertised tool can be called
// ---------------------------------------------------------------------------

/// Whether a tool is the last one of its name.
pub open spec fn last_of_its_name(tools: Seq<ToolView>, k: int) -> bool {
    &&& 0 <= k < tools.len()
    &&& forall|j: int| k < j < tools.len() ==> (#[trigger] tools[j]).name != tools[k].name
}

proof fn lemma_last_counts(
    ledger: Map<Seq<char>, DefinitionView>,
    routing: Map<Seq<char>, RouteView>,
    tools: Seq<ToolView>,
    k: int,
)
    requires
        last_of_its_name(tools, k),
    ensures
        routed(routing, tools).dom().contains(tools[k].name),
        routed(routing, tools)[tools[k].name] == tools[k].route,
        recorded(ledger, tools).dom().contains(tools[k].name),
        recorded(ledger, tools)[tools[k].name].input_schema == tools[k].schema,
    decreases tools.len(),
{
    if k < tools.len() - 1 {
        let rest = tools.drop_last();
        assert(tools[tools.len() - 1].name != tools[k].name);
        assert forall|j: int| k < j < rest.len() implies (#[trigger] rest[j]).name != rest[k].name by {
            assert(rest[j] == tools[j]);
        }
        lemma_last_counts(ledger, routing, rest, k);
    }
}

/// Once a listing was merged, each tool in it can be called under the name it
/// was advertised with: a call whose arguments are valid under the tool's full
/// schema goes to the upstream that listed the tool, under the name it has
/// there. Where two tools have the same name, the last one counts.
pub proof fn lemma_advertised_tool_is_callable(
    r: RouterView,
    m: MetricsView,
    client_id: JsonView,
    collected: Seq<Option<JsonView>>,
    k: int,
    v: JsonView,
)
    requires
        last_of_its_name(all_tools(r.servers, collected), k),
        called_name(v) == Some(all_tools(r.servers, collected)[k].name),
    ensures
        ({
            let next = listing_step(r, m, client_id, collected).router;
            let tool = all_tools(r.servers, collected)[k];
            let args = if r.tier == Compression::Off {
                called_args(v)
            } else {
                normalized(called_args(v), tool.schema, r.tier == Compression::High)
            };
            if r.tier == Compression::Off || valid(args, tool.schema) {
                verdict(next, v) == (Verdict::Sent { route: tool.route, args })
            } else {
                verdict(next, v) is Refused
            }
        }),
{
    let tools = all_tools(r.servers, collected);
    let next = listing_step(r, m, client_id, collected).router;
    lemma_last_counts(r.ledger, r.routing, tools, k);
    lemma_call_sent_iff_valid(next, v);
}

/// Whether a line is the last reply to a request for the listing, so that a listing is merged.
pub open spec fn merges_listing(r: RouterView, e: Event) -> bool {
    exists|server_idx: int, id: i64, f: u64|
        {
            &&& is_reply_to(e, server_idx, id)
            &&& #[trigger] waits_for(r, server_idx, id, f)
            &&& r.fanouts.dom().contains(f)
            &&& r.fanouts[f].kind == FanOutKind::ToolsList
            &&& r.fanouts[f].remaining <= 1
        }
}

/// What is known of the tools changes only when a listing is merged.
pub proof fn lemma_tools_change_only_with_a_listing(r: RouterView, m: MetricsView, e: Event)
    requires
        event_possible(r, e),
        !merges_listing(r, e),
    ensures
        event_step(r, m, e).router.routing == r.routing,
        event_step(r, m, e).router.ledger == r.ledger,
        event_step(r, m, e).router.tier == r.tier,
{
    if let Event::FromUpstream { server_idx, value: Some(v), line } = e {
        if answers(v) {
            if let Some(id) = reply_id(v) {
                if r.pending[server_idx].dom().contains(id) {
                    if let PendingView::FanOutMember(f) = r.pending[server_idx][id] {
                        assert(is_reply_to(e, server_idx, id));
                        assert(waits_for(r, server_idx, id, f));
                    }
                }
            }
        }
    }
}

/// Whether none of the lines merges a listing.
pub open spec fn no_listing_merged(r: RouterView, m: MetricsView, events: Seq<Event>) -> bool
    decreases events.len(),
{
    events.len() > 0 ==> {
        &&& no_listing_merged(r, m, events.drop_last())
        &&& !merges_listing(run(r, m, events.drop_last()).router, events.last())
    }
}

proof fn lemma_tools_stay_known(r: RouterView, m: MetricsView, events: Seq<Event>)
    requires
        consistent(r),
        has_room(r, events.len()),
        forall|k: int| 0 <= k < events.len() ==> event_possible(r, #[trigger] events[k]),
        no_listing_merged(r, m, events),
    ensures
        run(r, m, events).router.routing == r.routing,
        run(r, m, events).router.ledger == r.ledger,
    decreases events.len(),
{
    if events.len() > 0 {
        let rest = events.drop_last();
        assert forall|k: int| 0 <= k < rest.len() implies event_possible(r, #[trigger] rest[k]) by {
            assert(rest[k] == events[k]);
        }
        lemma_tools_stay_known(r, m, rest);
        lemma_run_consistent(r, m, rest, 1);
        let before = run(r, m, rest);
        assert(event_possible(r, events[events.len() - 1]));
        lemma_tools_change_only_with_a_listing(before.router, before.metrics, events.last());
    }
}

/// Calling undoes the prefix that advertising put on: once a listing was
/// merged, and whatever lines come before the next one is, a call of one of its
/// tools that is not refused goes to the upstream that listed the tool and to
/// no other, under the tool's own name, with the call's arguments brought into
/// shape, and under an id that no request to that upstream has had: the ids
/// only grow, and each request takes the next one.
pub proof fn lemma_calling_undoes_advertising(
    r: RouterView,
    m: MetricsView,
    client_id: JsonView,
    collected: Seq<Option<JsonView>>,
    k: int,
    events: Seq<Event>,
    v: JsonView,
    line: Seq<char>,
)
    requires
        consistent(listing_step(r, m, client_id, collected).router),
        has_room(listing_step(r, m, client_id, collected).router, events.len()),
        forall|j: int| 0 <= j < events.len() ==> event_possible(r, #[trigger] events[j]),
        no_listing_merged(
            listing_step(r, m, client_id, collected).router,
            listing_step(r, m, client_id, collected).metrics,
            events,
        ),
        last_of_its_name(all_tools(r.servers, collected), k),
        is_tool_call(v),
        called_name(v) == Some(all_tools(r.servers, collected)[k].name),
        verdict(
            run(
                listing_step(r, m, client_id, collected).router,
                listing_step(r, m, client_id, collected).metrics,
                events,
            ).router,
            v,
        ) is Sent,
    ensures
        ({
            let merged = listing_step(r, m, client_id, collected);
            let now = run(merged.router, merged.metrics, events);
            let step = client_step(now.router, now.metrics, Some(v), line);
            let tool = all_tools(r.servers, collected)[k];
            let owner = tool.route.server_idx;
            let id = now.router.next_id[owner];
            let args = if r.tier == Compression::Off {
                called_args(v)
            } else {
                normalized(called_args(v), tool.schema, r.tier == Compression::High)
            };
            &&& step.frames == seq![
                FrameView::ToUpstream(
                    owner,
                    json_text(request_frame(id, "tools/call"@, call_params(tool.route.original_name, args))),
                ),
            ]
            &&& step.router == now.router.with_request(owner, PendingView::Forward(v.get("id"@)->0))
            &&& forall|other: i64| #[trigger] under_way(now.router, owner, other) ==> other < id
            &&& forall|j: int|
                0 <= j <= events.len() ==> (#[trigger] run(
                    merged.router,
                    merged.metrics,
                    events.take(j),
                )).router.next_id[owner] <= id
            &&& r.next_id[owner] <= id
            &&& step.router.next_id[owner] == id.wrapping_add(1)
        }),
{
    let merged = listing_step(r, m, client_id, collected);
    let tools = all_tools(r.servers, collected);
    assert forall|j: int| 0 <= j < events.len() implies event_possible(merged.router, #[trigger] events[j]) by {
        assert(event_possible(r, events[j]));
    }
    lemma_run_consistent(merged.router, merged.metrics, events, 0);
    lemma_tools_stay_known(merged.router, merged.metrics, events);
    lemma_last_counts(r.ledger, r.routing, tools, k);
    let now = run(merged.router, merged.metrics, events);
    let owner = tools[k].route.server_idx;
    lemma_call_sent_iff_valid(now.router, v);
    assert(now.router.routing.dom().contains(tools[k].name));
    assert forall|j: int| 0 <= j <= events.len() implies (#[trigger] run(
        merged.router,
        merged.metrics,
        events.take(j),
    )).router.next_id[owner] <= now.router.next_id[owner] by {
        lemma_ids_never_repeat(merged.router, merged.metrics, events, j, owner);
    }
    lemma_ids_never_repeat(merged.router, merged.metrics, events, 0, owner);
    assert(events.take(0) =~= Seq::empty());
    lemma_sent_call_reaches_owner(now.router, now.metrics, v, line);
}

/// Under one prefix, two tools have the same name only if they have the same name at their server.
pub proof fn lemma_namespaced_injective(prefix: Seq<char>, a: Seq<char>, b: Seq<char>)
    requires
        namespaced(prefix, a) == namespaced(prefix, b),
    ensures
        a == b,
{
    if prefix.len() > 0 {
        let front = prefix + PREFIX_SEP@;
        let n = front.len() as int;
        let whole = front + a;
        assert(whole.skip(n) =~= a);
        assert((front + b).skip(n) =~= b);
        assert(whole == front + b);
    }
}

// ---------------------------------------------------------------------------
// How calls are counted
// ---------------------------------------------------------------------------

/// Whether a line is a request of the client to call a tool.
pub open spec fn event_is_tool_call(e: Event) -> bool {
    e matches Event::FromClient { value: Some(v), line } && is_tool_call(v)
}

/// Each call is counted once, as sent on or as refused; nothing else is
/// counted as a call. So the calls received are always those sent on and those refused.
pub proof fn lemma_every_call_counted_once(r: RouterView, m: MetricsView, e: Event)
    ensures
        ({
            let after = event_step(r, m, e).metrics;
            &&& m.calls_balance() ==> after.calls_balance()
            &&& event_is_tool_call(e) ==> {
                &&& after.tools_call_total == m.tools_call_total.wrapping_add(1)
                &&& after == m.with_call_forwarded() || after == m.with_call_rejected()
            }
            &&& !event_is_tool_call(e) ==> {
                &&& after.tools_call_total == m.tools_call_total
                &&& after.tools_call_forwarded == m.tools_call_forwarded
                &&& after.tools_call_rejected == m.tools_call_rejected
            }
        }),
{
    lemma_tool_call_is_no_fanout();
}

} // verus!
