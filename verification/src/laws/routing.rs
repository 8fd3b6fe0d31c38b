//! Every request is answered to the one who asked.
//!
//! A request that is sent on is answered under the client's own id, whatever
//! happens in between; a fan-out is answered once, with the last reply.
use vstd::prelude::*;
use vstd::set_lib::{lemma_int_range, lemma_len_subset, set_int_range};

use crate::cli::Compression;
use crate::json::{integer_json, lemma_with_then_get, JsonView};
use crate::laws::consistency::{consistent, has_room, lemma_client_step_consistent, lemma_none_missing};
use crate::laws::consistency::{lemma_missing_none, lemma_missing_update, lemma_upstream_step_consistent};
use crate::laws::consistency::{missing, under_way, waits_for};
use crate::metrics::MetricsView;
use crate::model::{all_tools, client_step, collect_step, forward_frame, initialize_frame, listing_frame};
use crate::model::{reply_id, upstream_step, verdict, with_reply};
use crate::model::{FrameView, RouterView, ServerView, StepView, Verdict};
use crate::protocol::answers;
use crate::tables::FanOutKind;
use crate::wire::json_text;

verus! {

// ---------------------------------------------------------------------------
// Runs
// ---------------------------------------------------------------------------

/// A line that reaches the router, with what it holds as JSON, if it is JSON.
pub enum Event {
    FromClient { value: Option<JsonView>, line: Seq<char> },
    FromUpstream { server_idx: int, value: Option<JsonView>, line: Seq<char> },
}

/// What one line brings about.
pub open spec fn event_step(r: RouterView, m: MetricsView, e: Event) -> StepView {
    match e {
        Event::FromClient { value, line } => client_step(r, m, value, line),
        Event::FromUpstream { server_idx, value, line } => upstream_step(r, m, server_idx, value, line),
    }
}

/// Whether a line comes from the client or from an upstream that exists.
pub open spec fn event_possible(r: RouterView, e: Event) -> bool {
    e matches Event::FromUpstream { server_idx, value, line } ==> 0 <= server_idx < r.servers.len()
}

/// The state and the counters after several lines, and all frames that were sent.
pub open spec fn run(r: RouterView, m: MetricsView, events: Seq<Event>) -> StepView
    decreases events.len(),
{
    if events.len() == 0 {
        StepView { router: r, metrics: m, frames: Seq::empty() }
    } else {
        let before = run(r, m, events.drop_last());
        let last = event_step(before.router, before.metrics, events.last());
        StepView { router: last.router, metrics: last.metrics, frames: before.frames + last.frames }
    }
}

/// Whether a line is the reply of one upstream to the request with a given id.
pub open spec fn is_reply_to(e: Event, server_idx: int, id: i64) -> bool {
    match e {
        Event::FromUpstream { server_idx: from, value: Some(v), line } => {
            &&& from == server_idx
            &&& answers(v)
            &&& reply_id(v) == Some(id)
        },
        _ => false,
    }
}

proof fn lemma_event_step_consistent(r: RouterView, m: MetricsView, e: Event, n: nat)
    requires
        consistent(r),
        has_room(r, n + 1),
        event_possible(r, e),
    ensures
        consistent(event_step(r, m, e).router),
        has_room(event_step(r, m, e).router, n),
        event_step(r, m, e).router.servers == r.servers,
        event_step(r, m, e).router.tier == r.tier,
{
    match e {
        Event::FromClient { value, line } => {
            lemma_client_step_consistent(r, m, value, line);
            let out = client_step(r, m, value, line).router;
            assert forall|i: int| 0 <= i < out.servers.len() implies #[trigger] out.next_id[i] + n <= i64::MAX by {
                assert(r.next_id[i] + (n + 1) <= i64::MAX);
            }
        },
        Event::FromUpstream { server_idx, value, line } => {
            lemma_upstream_step_consistent(r, m, server_idx, value, line);
            let out = upstream_step(r, m, server_idx, value, line).router;
            assert(out.next_id == r.next_id && out.next_fanout == r.next_fanout);
        },
    }
}

/// Whatever lines come, in whatever order, the state stays consistent.
pub proof fn lemma_run_consistent(r: RouterView, m: MetricsView, events: Seq<Event>, n: nat)
    requires
        consistent(r),
        has_room(r, n + events.len()),
        forall|k: int| 0 <= k < events.len() ==> event_possible(r, #[trigger] events[k]),
    ensures
        consistent(run(r, m, events).router),
        has_room(run(r, m, events).router, n),
        run(r, m, events).router.servers == r.servers,
        run(r, m, events).router.tier == r.tier,
    decreases events.len(),
{
    if events.len() > 0 {
        let rest = events.drop_last();
        assert forall|k: int| 0 <= k < rest.len() implies event_possible(r, #[trigger] rest[k]) by {
            assert(rest[k] == events[k]);
        }
        lemma_run_consistent(r, m, rest, n + 1);
        let before = run(r, m, rest);
        assert(event_possible(r, events[events.len() - 1]));
        lemma_event_step_consistent(before.router, before.metrics, events.last(), n);
    }
}

/// A line moves an upstream's next id on by one where a request is sent to
/// that upstream, which then has the id that was next, and leaves it otherwise.
pub proof fn lemma_request_takes_next_id(r: RouterView, m: MetricsView, e: Event, i: int)
    requires
        consistent(r),
        has_room(r, 1),
        event_possible(r, e),
        0 <= i < r.servers.len(),
    ensures
        ({
            let out = event_step(r, m, e).router;
            &&& out.next_id[i] == r.next_id[i] || out.next_id[i] == r.next_id[i] + 1
            &&& !under_way(r, i, r.next_id[i])
            &&& out.next_id[i] == r.next_id[i] + 1 <==> under_way(out, i, r.next_id[i])
        }),
{
    let out = event_step(r, m, e).router;
    assert(!under_way(r, i, r.next_id[i]));
    lemma_event_step_consistent(r, m, e, 0);
    assert(r.next_id[i] + 1 <= i64::MAX);
    if out.next_id[i] == r.next_id[i] {
        assert(!under_way(out, i, r.next_id[i]));
    } else {
        assert(out.pending[i].dom().contains(r.next_id[i]));
    }
}

/// An upstream's next id never falls, so no two requests to it ever have the same id.
pub proof fn lemma_ids_never_repeat(r: RouterView, m: MetricsView, events: Seq<Event>, j: int, i: int)
    requires
        consistent(r),
        has_room(r, events.len()),
        forall|k: int| 0 <= k < events.len() ==> event_possible(r, #[trigger] events[k]),
        0 <= j <= events.len(),
        0 <= i < r.servers.len(),
    ensures
        run(r, m, events.take(j)).router.next_id[i] <= run(r, m, events).router.next_id[i],
    decreases events.len(),
{
    if j == events.len() {
        assert(events.take(j) =~= events);
    } else {
        let rest = events.drop_last();
        assert forall|k: int| 0 <= k < rest.len() implies event_possible(r, #[trigger] rest[k]) by {
            assert(rest[k] == events[k]);
        }
        lemma_ids_never_repeat(r, m, rest, j, i);
        assert(rest.take(j) =~= events.take(j));
        lemma_run_consistent(r, m, rest, 1);
        let before = run(r, m, rest);
        assert(event_possible(r, events[events.len() - 1]));
        lemma_request_takes_next_id(before.router, before.metrics, events.last(), i);
    }
}

// ---------------------------------------------------------------------------
// A request keeps its place until its reply comes
// ---------------------------------------------------------------------------

/// What is to be done with a reply is kept until that reply comes, whatever else comes.
pub proof fn lemma_pending_kept(r: RouterView, m: MetricsView, e: Event, server_idx: int, id: i64)
    requires
        consistent(r),
        has_room(r, 1),
        event_possible(r, e),
        under_way(r, server_idx, id),
        !is_reply_to(e, server_idx, id),
    ensures
        under_way(event_step(r, m, e).router, server_idx, id),
        event_step(r, m, e).router.pending[server_idx][id] == r.pending[server_idx][id],
{
    assert(id < r.next_id[server_idx]);
}

proof fn lemma_pending_kept_in_run(r: RouterView, m: MetricsView, events: Seq<Event>, server_idx: int, id: i64)
    requires
        consistent(r),
        has_room(r, events.len()),
        forall|k: int| 0 <= k < events.len() ==> event_possible(r, #[trigger] events[k]),
        forall|k: int| 0 <= k < events.len() ==> !is_reply_to(#[trigger] events[k], server_idx, id),
        under_way(r, server_idx, id),
    ensures
        under_way(run(r, m, events).router, server_idx, id),
        run(r, m, events).router.pending[server_idx][id] == r.pending[server_idx][id],
    decreases events.len(),
{
    if events.len() > 0 {
        let rest = events.drop_last();
        assert forall|k: int| 0 <= k < rest.len() implies event_possible(r, #[trigger] rest[k]) && !is_reply_to(
            rest[k],
            server_idx,
            id,
        ) by {
            assert(rest[k] == events[k]);
        }
        lemma_pending_kept_in_run(r, m, rest, server_idx, id);
        lemma_run_consistent(r, m, rest, 1);
        let before = run(r, m, rest);
        let last = events[events.len() - 1];
        assert(event_possible(r, last) && !is_reply_to(last, server_idx, id));
        lemma_pending_kept(before.router, before.metrics, last, server_idx, id);
    }
}

/// The upstream to which a line of the client is sent as a request of its own, if it is sent to one.
pub open spec fn forwarded_to(r: RouterView, v: JsonView) -> Option<int> {
    match (v.get_str("method"@), v.get("id"@)) {
        (Some(method), Some(client_id)) => {
            if method == "tools/list"@ || method == "initialize"@ {
                None
            } else if method == "tools/call"@ {
                match verdict(r, v) {
                    Verdict::Sent { route, args } => Some(route.server_idx),
                    Verdict::Refused { tool, failure } => None,
                }
            } else {
                Some(0)
            }
        },
        _ => None,
    }
}

/// A request of the client that is sent to one upstream is answered under the
/// client's own id: whatever lines come in between, when that upstream replies
/// to the id that the request was sent under, the reply goes to the client
/// with the client's id in place of it, and nothing else is sent.
pub proof fn lemma_request_answered_under_its_id(
    r: RouterView,
    m: MetricsView,
    v: JsonView,
    line: Seq<char>,
    between: Seq<Event>,
    reply: JsonView,
    reply_line: Seq<char>,
)
    requires
        consistent(r),
        has_room(r, between.len() + 1),
        forwarded_to(r, v) is Some,
        forall|k: int| 0 <= k < between.len() ==> event_possible(r, #[trigger] between[k]),
        forall|k: int|
            0 <= k < between.len() ==> !is_reply_to(
                #[trigger] between[k],
                forwarded_to(r, v)->0,
                r.next_id[forwarded_to(r, v)->0],
            ),
        answers(reply),
        reply_id(reply) == Some(r.next_id[forwarded_to(r, v)->0]),
    ensures
        ({
            let server_idx = forwarded_to(r, v)->0;
            let sent = client_step(r, m, Some(v), line);
            let later = run(sent.router, sent.metrics, between);
            let last = upstream_step(later.router, later.metrics, server_idx, Some(reply), reply_line);
            &&& !under_way(r, server_idx, r.next_id[server_idx])
            &&& sent.frames.len() == 1
            &&& sent.frames[0] matches FrameView::ToUpstream(to, _) && to == server_idx
            &&& last.frames == seq![FrameView::ToClient(json_text(reply.with("id"@, v.get("id"@)->0)))]
            &&& !under_way(last.router, server_idx, r.next_id[server_idx])
        }),
{
    let server_idx = forwarded_to(r, v)->0;
    let id = r.next_id[server_idx];
    let sent = client_step(r, m, Some(v), line);
    assert(!under_way(r, server_idx, id));
    lemma_event_step_consistent(r, m, Event::FromClient { value: Some(v), line }, between.len());
    assert(under_way(sent.router, server_idx, id));
    assert forall|k: int| 0 <= k < between.len() implies event_possible(sent.router, #[trigger] between[k]) by {
        assert(event_possible(r, between[k]));
    }
    lemma_pending_kept_in_run(sent.router, sent.metrics, between, server_idx, id);
    lemma_run_consistent(sent.router, sent.metrics, between, 0);
}

/// A reply that is sent on stays as it came, but for the id.
pub proof fn lemma_reply_keeps_members(reply: JsonView, client_id: JsonView, key: Seq<char>)
    requires
        reply is Object,
    ensures
        reply.with("id"@, client_id).get("id"@) == Some(client_id),
        key != "id"@ ==> reply.with("id"@, client_id).get(key) == reply.get(key),
{
    lemma_with_then_get(reply, "id"@, client_id, key);
}

// ---------------------------------------------------------------------------
// A fan-out is answered once, with the last reply
// ---------------------------------------------------------------------------

/// The kind of fan-out that a line of the client asks for.
pub open spec fn asks_everyone(v: JsonView) -> Option<FanOutKind> {
    match (v.get_str("method"@), v.get("id"@)) {
        (Some(method), Some(client_id)) => if method == "tools/list"@ {
            Some(FanOutKind::ToolsList)
        } else if method == "initialize"@ {
            Some(FanOutKind::Initialize)
        } else {
            None
        },
        _ => None,
    }
}

/// A request for the listing or for initialization is sent to every upstream,
/// to each under a fresh id, and the fan-out waits for the reply of each.
pub proof fn lemma_fanout_asks_every_upstream(r: RouterView, m: MetricsView, v: JsonView, line: Seq<char>, i: int)
    requires
        consistent(r),
        has_room(r, 1),
        asks_everyone(v) is Some,
        0 <= i < r.servers.len(),
    ensures
        ({
            let step = client_step(r, m, Some(v), line);
            let f = r.next_fanout;
            &&& step.frames.len() == r.servers.len()
            &&& step.frames[i] matches FrameView::ToUpstream(to, _) && to == i
            &&& !r.fanouts.dom().contains(f)
            &&& !under_way(r, i, r.next_id[i])
            &&& waits_for(step.router, i, r.next_id[i], f)
            &&& step.router.fanouts.dom().contains(f)
            &&& step.router.fanouts[f].client_id == v.get("id"@)->0
            &&& step.router.fanouts[f].kind == asks_everyone(v)->0
            &&& step.router.fanouts[f].collected[i] is None
        }),
{
    let step = client_step(r, m, Some(v), line);
    assert(!under_way(r, i, r.next_id[i]));
    assert(step.router.pending[i].dom().contains(r.next_id[i]));
}

/// The line that answers a fan-out, merged from the replies of all upstreams.
pub open spec fn merged_line(
    servers: Seq<ServerView>,
    tier: Compression,
    kind: FanOutKind,
    client_id: JsonView,
    collected: Seq<Option<JsonView>>,
) -> Seq<char> {
    match kind {
        FanOutKind::ToolsList => json_text(listing_frame(tier, client_id, all_tools(servers, collected))),
        FanOutKind::Initialize => json_text(initialize_frame(servers, client_id, collected)),
    }
}

/// As long as a fan-out misses the reply of another upstream, a reply of one
/// of its members is kept and nothing is sent. With the last one, the client
/// gets the merged reply, and the fan-out is over: no request is under way for
/// it any more.
pub proof fn lemma_fanout_answered_with_last_reply(
    r: RouterView,
    m: MetricsView,
    server_idx: int,
    id: i64,
    f: u64,
    reply: JsonView,
    line: Seq<char>,
)
    requires
        consistent(r),
        waits_for(r, server_idx, id, f),
        answers(reply),
        reply_id(reply) == Some(id),
    ensures
        ({
            let step = upstream_step(r, m, server_idx, Some(reply), line);
            let collected = r.fanouts[f].collected.update(server_idx, Some(reply));
            let others_missing = exists|j: int|
                0 <= j < r.servers.len() && j != server_idx && (#[trigger] r.fanouts[f].collected[j]) is None;
            &&& others_missing ==> {
                &&& step.frames == Seq::<FrameView>::empty()
                &&& step.router.fanouts.dom().contains(f)
                &&& step.router.fanouts[f].collected == collected
                &&& step.router.fanouts[f].client_id == r.fanouts[f].client_id
                &&& step.router.fanouts[f].kind == r.fanouts[f].kind
            }
            &&& !others_missing ==> {
                &&& step.frames == seq![
                    FrameView::ToClient(
                        merged_line(r.servers, r.tier, r.fanouts[f].kind, r.fanouts[f].client_id, collected),
                    ),
                ]
                &&& !step.router.fanouts.dom().contains(f)
                &&& forall|i: int, k: i64| !#[trigger] waits_for(step.router, i, k, f)
            }
        }),
{
    let step = upstream_step(r, m, server_idx, Some(reply), line);
    let was = r.fanouts[f];
    let now = with_reply(was, server_idx, reply);
    let collected = was.collected.update(server_idx, Some(reply));
    assert(r.fanouts.dom().contains(f) && was.collected[server_idx] is None);
    lemma_upstream_step_consistent(r, m, server_idx, Some(reply), line);
    lemma_missing_update(was.collected, server_idx, reply);
    lemma_none_missing(collected);
    assert(now.collected == collected);
    assert(now.remaining == missing(collected));
    if exists|j: int| 0 <= j < r.servers.len() && j != server_idx && (#[trigger] was.collected[j]) is None {
        let j = choose|j: int| 0 <= j < r.servers.len() && j != server_idx && (#[trigger] was.collected[j]) is None;
        assert(collected[j] is None);
    } else {
        assert forall|i: int| 0 <= i < collected.len() implies #[trigger] collected[i] is Some by {
            if i != server_idx {
                assert(was.collected[i] is Some);
            }
        }
        assert forall|i: int, k: i64| !#[trigger] waits_for(step.router, i, k, f) by {}
    }
}

/// The first reply among the lines of one upstream to the request with a given id.
pub open spec fn first_reply(events: Seq<Event>, server_idx: int, id: i64) -> Option<JsonView>
    decreases events.len(),
{
    if events.len() == 0 {
        None
    } else if first_reply(events.drop_last(), server_idx, id) is Some {
        first_reply(events.drop_last(), server_idx, id)
    } else if is_reply_to(events.last(), server_idx, id) {
        events.last()->FromUpstream_value
    } else {
        None
    }
}

/// The first replies of all upstreams to the requests with the given ids.
pub open spec fn first_replies(events: Seq<Event>, ids: Seq<i64>) -> Seq<Option<JsonView>> {
    Seq::new(ids.len(), |i: int| first_reply(events, i, ids[i]))
}

/// Whether some upstream has not replied.
pub open spec fn reply_awaited(events: Seq<Event>, ids: Seq<i64>) -> bool {
    exists|i: int| 0 <= i < ids.len() && (#[trigger] first_replies(events, ids)[i]) is None
}

/// How a fan-out stands after some lines: it is there as long as a reply is
/// awaited, it holds the replies that came, and the awaited ones are under way.
pub open spec fn fanout_stands(
    r: RouterView,
    f: u64,
    ids: Seq<i64>,
    kind: FanOutKind,
    client_id: JsonView,
    events: Seq<Event>,
) -> bool {
    &&& ids.len() == r.servers.len()
    &&& f < r.next_fanout
    &&& forall|i: int| 0 <= i < ids.len() ==> #[trigger] ids[i] < r.next_id[i]
    &&& forall|i: int, id: i64| #[trigger] waits_for(r, i, id, f) ==> id == ids[i]
    &&& forall|i: int|
        0 <= i < ids.len() ==> (under_way(r, i, #[trigger] ids[i]) <==> first_replies(events, ids)[i] is None)
    &&& forall|i: int| 0 <= i < ids.len() && under_way(r, i, #[trigger] ids[i]) ==> waits_for(r, i, ids[i], f)
    &&& r.fanouts.dom().contains(f) <==> reply_awaited(events, ids)
    &&& r.fanouts.dom().contains(f) ==> {
        &&& r.fanouts[f].collected == first_replies(events, ids)
        &&& r.fanouts[f].kind == kind
        &&& r.fanouts[f].client_id == client_id
    }
}

/// A line that is no reply to the fan-out leaves it as it is.
proof fn lemma_other_line_leaves_fanout(
    r: RouterView,
    m: MetricsView,
    f: u64,
    ids: Seq<i64>,
    kind: FanOutKind,
    client_id: JsonView,
    events: Seq<Event>,
    e: Event,
)
    requires
        consistent(r),
        has_room(r, 1),
        event_possible(r, e),
        fanout_stands(r, f, ids, kind, client_id, events),
        forall|i: int| 0 <= i < ids.len() && #[trigger] is_reply_to(e, i, ids[i]) ==> !under_way(r, i, ids[i]),
    ensures
        fanout_stands(event_step(r, m, e).router, f, ids, kind, client_id, events.push(e)),
{
    let out = event_step(r, m, e).router;
    let all = events.push(e);
    assert(all.drop_last() =~= events);
    lemma_event_step_consistent(r, m, e, 0);
    assert(first_replies(all, ids) =~= first_replies(events, ids)) by {
        assert forall|i: int| 0 <= i < ids.len() implies first_reply(all, i, ids[i]) == first_reply(
            events,
            i,
            ids[i],
        ) by {
            if is_reply_to(e, i, ids[i]) {
                assert(first_replies(events, ids)[i] is Some);
            }
        }
    }
    assert(reply_awaited(all, ids) == reply_awaited(events, ids));
    lemma_tables_grow_at_next_id(r, m, e);
    assert forall|i: int| 0 <= i < ids.len() implies under_way(r, i, #[trigger] ids[i]) == under_way(
        out,
        i,
        ids[i],
    ) && (under_way(r, i, ids[i]) ==> out.pending[i][ids[i]] == r.pending[i][ids[i]]) by {
        if under_way(r, i, ids[i]) {
            assert(!is_reply_to(e, i, ids[i]));
            lemma_pending_kept(r, m, e, i, ids[i]);
        }
    }
    assert forall|i: int, id: i64| #[trigger] waits_for(out, i, id, f) implies id == ids[i] by {
        assert(under_way(out, i, id));
        if id < r.next_id[i] {
            assert(waits_for(r, i, id, f));
        }
    }
    assert forall|i: int| 0 <= i < ids.len() && under_way(out, i, #[trigger] ids[i]) implies waits_for(
        out,
        i,
        ids[i],
        f,
    ) by {
        assert(under_way(r, i, ids[i]));
        assert(waits_for(r, i, ids[i], f));
    }
    // The entry of the fan-out itself changes only with a reply of one of its members.
    assert(out.fanouts.dom().contains(f) == r.fanouts.dom().contains(f) && (r.fanouts.dom().contains(f)
        ==> out.fanouts[f] == r.fanouts[f])) by {
        if let Event::FromUpstream { server_idx, value: Some(v), line } = e {
            if answers(v) {
                if let Some(id) = reply_id(v) {
                    if waits_for(r, server_idx, id, f) {
                        assert(id == ids[server_idx]);
                        assert(is_reply_to(e, server_idx, ids[server_idx]));
                        assert(under_way(r, server_idx, ids[server_idx]));
                    }
                }
            }
        }
    }
}

/// A line takes requests off the tables or adds one under the next id, and changes no other.
proof fn lemma_tables_grow_at_next_id(r: RouterView, m: MetricsView, e: Event)
    requires
        consistent(r),
        has_room(r, 1),
        event_possible(r, e),
    ensures
        ({
            let out = event_step(r, m, e).router;
            &&& out.next_fanout >= r.next_fanout
            &&& forall|i: int| 0 <= i < r.servers.len() ==> #[trigger] out.next_id[i] >= r.next_id[i]
            &&& forall|i: int, id: i64| #[trigger]
                under_way(out, i, id) && id < r.next_id[i] ==> under_way(r, i, id) && out.pending[i][id]
                    == r.pending[i][id]
            &&& forall|i: int, id: i64, f: u64| #[trigger]
                waits_for(out, i, id, f) && id >= r.next_id[i] ==> f == r.next_fanout
        }),
{
    let out = event_step(r, m, e).router;
    assert forall|i: int, id: i64, f: u64| #[trigger] waits_for(out, i, id, f) && id >= r.next_id[i] implies f
        == r.next_fanout by {
        assert(!under_way(r, i, id));
    }
    assert forall|i: int| 0 <= i < r.servers.len() implies #[trigger] out.next_id[i] >= r.next_id[i] by {}
}

/// The reply of one of its members is taken into the fan-out.
proof fn lemma_reply_joins_fanout(
    r: RouterView,
    m: MetricsView,
    f: u64,
    ids: Seq<i64>,
    kind: FanOutKind,
    client_id: JsonView,
    events: Seq<Event>,
    e: Event,
    j: int,
)
    requires
        consistent(r),
        has_room(r, 1),
        event_possible(r, e),
        fanout_stands(r, f, ids, kind, client_id, events),
        0 <= j < ids.len(),
        is_reply_to(e, j, ids[j]),
        under_way(r, j, ids[j]),
    ensures
        fanout_stands(event_step(r, m, e).router, f, ids, kind, client_id, events.push(e)),
        !reply_awaited(events.push(e), ids) ==> event_step(r, m, e).frames == seq![
            FrameView::ToClient(
                merged_line(r.servers, r.tier, kind, client_id, first_replies(events.push(e), ids)),
            ),
        ],
        reply_awaited(events.push(e), ids) ==> event_step(r, m, e).frames == Seq::<FrameView>::empty(),
{
    let out = event_step(r, m, e).router;
    let all = events.push(e);
    assert(all.drop_last() =~= events);
    assert(waits_for(r, j, ids[j], f));
    let reply = (e->FromUpstream_value)->0;
    let line = e->FromUpstream_line;
    lemma_fanout_answered_with_last_reply(r, m, j, ids[j], f, reply, line);
    lemma_event_step_consistent(r, m, e, 0);
    lemma_tables_grow_at_next_id(r, m, e);
    let before = first_replies(events, ids);
    let after = first_replies(all, ids);
    assert(r.fanouts.dom().contains(f));
    assert(before[j] is None);
    assert(after =~= before.update(j, Some(reply))) by {
        assert forall|i: int| 0 <= i < ids.len() implies after[i] == before.update(j, Some(reply))[i] by {
            if i != j {
                assert(!is_reply_to(e, i, ids[i]));
            }
        }
    }
    let others_missing = exists|i: int|
        0 <= i < r.servers.len() && i != j && (#[trigger] r.fanouts[f].collected[i]) is None;
    assert(others_missing == reply_awaited(all, ids)) by {
        if others_missing {
            let i = choose|i: int|
                0 <= i < r.servers.len() && i != j && (#[trigger] r.fanouts[f].collected[i]) is None;
            assert(after[i] is None);
        }
        if reply_awaited(all, ids) {
            let i = choose|i: int| 0 <= i < ids.len() && (#[trigger] first_replies(all, ids)[i]) is None;
            assert(after[i] is None && i != j);
            assert(r.fanouts[f].collected[i] is None);
        }
    }
    assert(!under_way(out, j, ids[j]));
    assert forall|i: int| 0 <= i < ids.len() && i != j implies under_way(r, i, #[trigger] ids[i]) == under_way(
        out,
        i,
        ids[i],
    ) && (under_way(r, i, ids[i]) ==> out.pending[i][ids[i]] == r.pending[i][ids[i]]) by {
        if under_way(r, i, ids[i]) {
            assert(!is_reply_to(e, i, ids[i]));
            lemma_pending_kept(r, m, e, i, ids[i]);
        }
    }
    assert forall|i: int| 0 <= i < ids.len() implies (under_way(out, i, #[trigger] ids[i]) <==> after[i] is None) by {
        if i != j {
            assert(after[i] == before[i]);
        }
    }
    assert forall|i: int, id: i64| #[trigger] waits_for(out, i, id, f) implies id == ids[i] by {
        assert(under_way(out, i, id));
        if id < r.next_id[i] {
            assert(waits_for(r, i, id, f));
        }
    }
    assert forall|i: int| 0 <= i < ids.len() && under_way(out, i, #[trigger] ids[i]) implies waits_for(
        out,
        i,
        ids[i],
        f,
    ) by {
        assert(under_way(r, i, ids[i]));
        assert(waits_for(r, i, ids[i], f));
    }
}

proof fn lemma_fanout_begins(r: RouterView, m: MetricsView, v: JsonView, line: Seq<char>)
    requires
        consistent(r),
        has_room(r, 1),
        asks_everyone(v) is Some,
    ensures
        fanout_stands(
            client_step(r, m, Some(v), line).router,
            r.next_fanout,
            r.next_id,
            asks_everyone(v)->0,
            v.get("id"@)->0,
            Seq::empty(),
        ),
{
    let out = client_step(r, m, Some(v), line).router;
    let f = r.next_fanout;
    let none = first_replies(Seq::empty(), r.next_id);
    assert forall|i: int| 0 <= i < r.next_id.len() implies none[i] is None by {}
    assert forall|i: int| 0 <= i < r.next_id.len() implies waits_for(out, i, #[trigger] r.next_id[i], f) by {
        lemma_fanout_asks_every_upstream(r, m, v, line, i);
    }
    lemma_fanout_asks_every_upstream(r, m, v, line, 0);
    assert(none[0] is None);
    assert(out.fanouts[f].collected =~= none);
    assert forall|i: int, id: i64| #[trigger] waits_for(out, i, id, f) implies id == r.next_id[i] by {
        if id != r.next_id[i] {
            assert(waits_for(r, i, id, f));
            assert(r.fanouts.dom().contains(f));
        }
    }
    assert forall|i: int| 0 <= i < r.next_id.len() implies #[trigger] r.next_id[i] < out.next_id[i] by {}
}

/// A request for the listing or for initialization is answered once, with the
/// last of the upstreams' replies, in whatever order they come and whatever
/// else comes in between. Until an upstream has replied, the fan-out is there
/// and nothing is sent for a reply; when the last reply comes, the client gets
/// one reply that is merged from the first reply of each upstream.
pub proof fn lemma_fanout_answered_once(
    r: RouterView,
    m: MetricsView,
    v: JsonView,
    line: Seq<char>,
    events: Seq<Event>,
    e: Event,
)
    requires
        consistent(r),
        has_room(r, events.len() + 2),
        asks_everyone(v) is Some,
        forall|k: int| 0 <= k < events.len() ==> event_possible(r, #[trigger] events[k]),
        event_possible(r, e),
    ensures
        ({
            let ids = r.next_id;
            let f = r.next_fanout;
            let asked = client_step(r, m, Some(v), line);
            let before = run(asked.router, asked.metrics, events);
            let last = event_step(before.router, before.metrics, e);
            &&& before.router.fanouts.dom().contains(f) <==> reply_awaited(events, ids)
            &&& last.router.fanouts.dom().contains(f) <==> reply_awaited(events.push(e), ids)
            &&& reply_awaited(events, ids) && !reply_awaited(events.push(e), ids) ==> last.frames == seq![
                FrameView::ToClient(
                    merged_line(
                        r.servers,
                        r.tier,
                        asks_everyone(v)->0,
                        v.get("id"@)->0,
                        first_replies(events.push(e), ids),
                    ),
                ),
            ]
        }),
{
    let ids = r.next_id;
    let f = r.next_fanout;
    let asked = client_step(r, m, Some(v), line);
    lemma_fanout_stands_in_run(r, m, v, line, events);
    let before = run(asked.router, asked.metrics, events);
    lemma_run_reaches(r, m, v, line, events, 1);
    assert(event_possible(before.router, e));
    lemma_step_of_fanout(before.router, before.metrics, f, ids, asks_everyone(v)->0, v.get("id"@)->0, events, e);
}

/// The state stays consistent from a line of the client on.
proof fn lemma_run_reaches(r: RouterView, m: MetricsView, v: JsonView, line: Seq<char>, events: Seq<Event>, n: nat)
    requires
        consistent(r),
        has_room(r, events.len() + n + 1),
        forall|k: int| 0 <= k < events.len() ==> event_possible(r, #[trigger] events[k]),
    ensures
        ({
            let asked = client_step(r, m, Some(v), line);
            let later = run(asked.router, asked.metrics, events).router;
            &&& consistent(later)
            &&& has_room(later, n)
            &&& later.servers == r.servers
            &&& later.tier == r.tier
        }),
    decreases events.len(),
{
    let asked = client_step(r, m, Some(v), line);
    lemma_event_step_consistent(r, m, Event::FromClient { value: Some(v), line }, events.len() + n);
    assert forall|k: int| 0 <= k < events.len() implies event_possible(asked.router, #[trigger] events[k]) by {
        assert(event_possible(r, events[k]));
    }
    lemma_run_consistent(asked.router, asked.metrics, events, n);
}

/// One line, whichever it is, leaves the fan-out standing as the lines say.
proof fn lemma_step_of_fanout(
    r: RouterView,
    m: MetricsView,
    f: u64,
    ids: Seq<i64>,
    kind: FanOutKind,
    client_id: JsonView,
    events: Seq<Event>,
    e: Event,
)
    requires
        consistent(r),
        has_room(r, 1),
        event_possible(r, e),
        fanout_stands(r, f, ids, kind, client_id, events),
    ensures
        fanout_stands(event_step(r, m, e).router, f, ids, kind, client_id, events.push(e)),
        reply_awaited(events, ids) && !reply_awaited(events.push(e), ids) ==> event_step(r, m, e).frames == seq![
            FrameView::ToClient(
                merged_line(r.servers, r.tier, kind, client_id, first_replies(events.push(e), ids)),
            ),
        ],
{
    if exists|j: int| 0 <= j < ids.len() && #[trigger] is_reply_to(e, j, ids[j]) && under_way(r, j, ids[j]) {
        let j = choose|j: int| 0 <= j < ids.len() && #[trigger] is_reply_to(e, j, ids[j]) && under_way(r, j, ids[j]);
        lemma_reply_joins_fanout(r, m, f, ids, kind, client_id, events, e, j);
    } else {
        lemma_other_line_leaves_fanout(r, m, f, ids, kind, client_id, events, e);
        assert(events.push(e).drop_last() =~= events);
        assert(event_step(r, m, e).router.fanouts.dom().contains(f) == r.fanouts.dom().contains(f));
    }
}

proof fn lemma_fanout_stands_in_run(r: RouterView, m: MetricsView, v: JsonView, line: Seq<char>, events: Seq<Event>)
    requires
        consistent(r),
        has_room(r, events.len() + 1),
        asks_everyone(v) is Some,
        forall|k: int| 0 <= k < events.len() ==> event_possible(r, #[trigger] events[k]),
    ensures
        ({
            let asked = client_step(r, m, Some(v), line);
            fanout_stands(
                run(asked.router, asked.metrics, events).router,
                r.next_fanout,
                r.next_id,
                asks_everyone(v)->0,
                v.get("id"@)->0,
                events,
            )
        }),
    decreases events.len(),
{
    let asked = client_step(r, m, Some(v), line);
    if events.len() == 0 {
        lemma_fanout_begins(r, m, v, line);
        assert(events =~= Seq::empty());
    } else {
        let rest = events.drop_last();
        let last = events[events.len() - 1];
        assert forall|k: int| 0 <= k < rest.len() implies event_possible(r, #[trigger] rest[k]) by {
            assert(rest[k] == events[k]);
        }
        lemma_fanout_stands_in_run(r, m, v, line, rest);
        lemma_run_reaches(r, m, v, line, rest, 1);
        let before = run(asked.router, asked.metrics, rest);
        assert(event_possible(r, last));
        lemma_step_of_fanout(
            before.router,
            before.metrics,
            r.next_fanout,
            r.next_id,
            asks_everyone(v)->0,
            v.get("id"@)->0,
            rest,
            last,
        );
        assert(rest.push(last) =~= events);
    }
}

/// The state, the counters and the frames after the replies of the upstreams
/// in `order` were taken into a fan-out, one after the other.
pub open spec fn collect_run(r: RouterView, m: MetricsView, f: u64, order: Seq<int>, replies: Seq<JsonView>) -> StepView
    decreases order.len(),
{
    if order.len() == 0 {
        StepView { router: r, metrics: m, frames: Seq::empty() }
    } else {
        let before = collect_run(r, m, f, order.drop_last(), replies);
        let last = collect_step(before.router, before.metrics, order.last(), f, replies[order.last()]);
        StepView { router: last.router, metrics: last.metrics, frames: before.frames + last.frames }
    }
}

/// Replies of all upstreams.
pub open spec fn all_in(replies: Seq<JsonView>) -> Seq<Option<JsonView>> {
    replies.map_values(|v: JsonView| Some(v))
}

proof fn lemma_collecting(r: RouterView, m: MetricsView, f: u64, order: Seq<int>, replies: Seq<JsonView>)
    requires
        r.servers.len() > 0,
        replies.len() == r.servers.len(),
        r.fanouts.dom().contains(f),
        r.fanouts[f].collected == Seq::new(r.servers.len(), |i: int| None::<JsonView>),
        r.fanouts[f].remaining == r.servers.len(),
        order.no_duplicates(),
        forall|k: int| 0 <= k < order.len() ==> 0 <= #[trigger] order[k] < r.servers.len(),
    ensures
        ({
            let out = collect_run(r, m, f, order, replies);
            let fanout = out.router.fanouts[f];
            &&& order.len() <= r.servers.len()
            &&& out.router.servers == r.servers
            &&& out.router.tier == r.tier
            &&& order.len() < r.servers.len() ==> {
                &&& out.frames == Seq::<FrameView>::empty()
                &&& out.router.fanouts.dom().contains(f)
                &&& fanout.kind == r.fanouts[f].kind
                &&& fanout.client_id == r.fanouts[f].client_id
                &&& fanout.collected.len() == r.servers.len()
                &&& fanout.remaining == r.servers.len() - order.len()
                &&& fanout.remaining == missing(fanout.collected)
                &&& forall|i: int|
                    0 <= i < r.servers.len() ==> #[trigger] fanout.collected[i] == if order.contains(i) {
                        Some(replies[i])
                    } else {
                        None
                    }
            }
            &&& order.len() == r.servers.len() ==> {
                &&& out.frames == seq![
                    FrameView::ToClient(
                        merged_line(
                            r.servers,
                            r.tier,
                            r.fanouts[f].kind,
                            r.fanouts[f].client_id,
                            all_in(replies),
                        ),
                    ),
                ]
                &&& !out.router.fanouts.dom().contains(f)
            }
        }),
    decreases order.len(),
{
    let n = r.servers.len();
    if order.len() == 0 {
        lemma_missing_none(n);
    } else {
        let rest = order.drop_last();
        let i = order.last();
        assert forall|k: int| 0 <= k < rest.len() implies 0 <= #[trigger] rest[k] < n by {
            assert(rest[k] == order[k]);
        }
        lemma_collecting(r, m, f, rest, replies);
        if rest.len() == n {
            lemma_no_room_for_another(order, n as int);
        }
        let before = collect_run(r, m, f, rest, replies);
        let was = before.router.fanouts[f];
        assert(order[order.len() - 1] == i);
        assert(!rest.contains(i)) by {
            if rest.contains(i) {
                let k = choose|k: int| 0 <= k < rest.len() && rest[k] == i;
                assert(order[k] == order[order.len() - 1]);
            }
        }
        assert(was.collected[i] is None);
        lemma_missing_update(was.collected, i, replies[i]);
        let now = with_reply(was, i, replies[i]);
        assert forall|j: int| 0 <= j < n implies #[trigger] now.collected[j] == if order.contains(j) {
            Some(replies[j])
        } else {
            None
        } by {
            if j == i {
                assert(order[order.len() - 1] == j);
            } else {
                assert(order.contains(j) == rest.contains(j)) by {
                    if order.contains(j) {
                        let k = choose|k: int| 0 <= k < order.len() && order[k] == j;
                        assert(rest[k] == j);
                    }
                    if rest.contains(j) {
                        let k = choose|k: int| 0 <= k < rest.len() && rest[k] == j;
                        assert(order[k] == j);
                    }
                }
                assert(now.collected[j] == was.collected[j]);
            }
        }
        if order.len() == n {
            lemma_none_missing(now.collected);
            assert(now.collected =~= all_in(replies));
        }
        let step = collect_step(before.router, before.metrics, i, f, replies[i]);
        assert(Seq::<FrameView>::empty() + step.frames =~= step.frames);
    }
}

/// As many different places as there are upstreams leave none for another.
proof fn lemma_no_room_for_another(order: Seq<int>, n: int)
    requires
        0 <= n,
        order.no_duplicates(),
        forall|k: int| 0 <= k < order.len() ==> 0 <= #[trigger] order[k] < n,
    ensures
        order.len() <= n,
{
    lemma_int_range(0, n);
    order.unique_seq_to_set();
    assert(order.to_set().subset_of(set_int_range(0, n))) by {
        assert forall|i: int| order.to_set().contains(i) implies set_int_range(0, n).contains(i) by {
            let k = choose|k: int| 0 <= k < order.len() && order[k] == i;
            assert(0 <= order[k] < n);
        }
    }
    lemma_len_subset(order.to_set(), set_int_range(0, n));
}

/// A fan-out into which no reply came yet, and into which each upstream's reply
/// is taken once: the first replies send nothing, and the last one sends the
/// client exactly one reply, which is the same in whatever order they came.
/// After that the fan-out is gone, and a further reply sends nothing.
pub proof fn lemma_collecting_in_any_order(
    r: RouterView,
    m: MetricsView,
    f: u64,
    order: Seq<int>,
    replies: Seq<JsonView>,
    server_idx: int,
    reply: JsonView,
)
    requires
        r.servers.len() > 0,
        replies.len() == r.servers.len(),
        r.fanouts.dom().contains(f),
        r.fanouts[f].collected == Seq::new(r.servers.len(), |i: int| None::<JsonView>),
        r.fanouts[f].remaining == r.servers.len(),
        order.no_duplicates(),
        forall|k: int| 0 <= k < order.len() ==> 0 <= #[trigger] order[k] < r.servers.len(),
    ensures
        ({
            let out = collect_run(r, m, f, order, replies);
            &&& order.len() < r.servers.len() ==> out.frames == Seq::<FrameView>::empty()
            &&& order.len() == r.servers.len() ==> {
                &&& out.frames == seq![
                    FrameView::ToClient(
                        merged_line(
                            r.servers,
                            r.tier,
                            r.fanouts[f].kind,
                            r.fanouts[f].client_id,
                            all_in(replies),
                        ),
                    ),
                ]
                &&& collect_step(out.router, out.metrics, server_idx, f, reply).frames == Seq::<FrameView>::empty()
                &&& collect_step(out.router, out.metrics, server_idx, f, reply).router == out.router
            }
        }),
{
    lemma_collecting(r, m, f, order, replies);
}

// ---------------------------------------------------------------------------
// What the router does not understand passes as it came
// ---------------------------------------------------------------------------

/// A line of the client that is no request, such as a notification or a line
/// that is not JSON, goes to every upstream as it came, and nothing else happens.
pub proof fn lemma_client_line_passes(r: RouterView, m: MetricsView, value: Option<JsonView>, line: Seq<char>)
    requires
        value matches Some(v) ==> v.get_str("method"@) is None || v.get("id"@) is None,
    ensures
        client_step(r, m, value, line).router == r,
        client_step(r, m, value, line).metrics == m,
        client_step(r, m, value, line).frames.len() == r.servers.len(),
        forall|i: int|
            0 <= i < r.servers.len() ==> #[trigger] client_step(r, m, value, line).frames[i] == FrameView::ToUpstream(
                i,
                line,
            ),
{
}

/// A line of an upstream that has not the shape of a reply, such as a
/// notification or a line that is not JSON, goes to the client as it came, and nothing else happens.
pub proof fn lemma_upstream_line_passes(
    r: RouterView,
    m: MetricsView,
    server_idx: int,
    value: Option<JsonView>,
    line: Seq<char>,
)
    requires
        value matches Some(v) ==> !answers(v),
    ensures
        upstream_step(r, m, server_idx, value, line).router == r,
        upstream_step(r, m, server_idx, value, line).metrics == m,
        upstream_step(r, m, server_idx, value, line).frames == seq![FrameView::ToClient(line)],
{
}

/// A request that is sent to one upstream keeps all its members but the id.
pub proof fn lemma_forwarded_request_keeps_members(r: RouterView, v: JsonView, server_idx: int, key: Seq<char>)
    requires
        v is Object,
        key != "id"@,
    ensures
        forward_frame(r, server_idx, v) == FrameView::ToUpstream(
            server_idx,
            json_text(v.with("id"@, integer_json(r.next_id[server_idx]))),
        ),
        v.with("id"@, integer_json(r.next_id[server_idx])).get(key) == v.get(key),
{
    lemma_with_then_get(v, "id"@, integer_json(r.next_id[server_idx]), key);
}

/// Upstreams are kept apart: a line of one upstream brings at most one frame, and that goes to the client.
pub proof fn lemma_upstreams_are_isolated(
    r: RouterView,
    m: MetricsView,
    server_idx: int,
    value: Option<JsonView>,
    line: Seq<char>,
)
    ensures
        upstream_step(r, m, server_idx, value, line).frames.len() <= 1,
        forall|k: int|
            0 <= k < upstream_step(r, m, server_idx, value, line).frames.len() ==> (#[trigger] upstream_step(
                r,
                m,
                server_idx,
                value,
                line,
            ).frames[k]) is ToClient,
{
}

/// A line of the client goes to upstreams, or it is a tool call that is
/// refused; the router answers nothing else by itself.
pub proof fn lemma_client_line_goes_upstream(r: RouterView, m: MetricsView, value: Option<JsonView>, line: Seq<char>)
    requires
        value matches Some(v) ==> !(v.get_str("method"@) == Some("tools/call"@) && verdict(r, v) is Refused),
    ensures
        forall|k: int|
            0 <= k < client_step(r, m, value, line).frames.len() ==> (#[trigger] client_step(
                r,
                m,
                value,
                line,
            ).frames[k]) is ToUpstream,
{
}

} // verus!
