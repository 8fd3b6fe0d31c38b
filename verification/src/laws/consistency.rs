//! The router's tables never contradict each other.
//!
//! Every step keeps the state consistent: ids are fresh, every fan-out waits
//! for exactly the upstreams that have not replied, and every advertised tool
//! has both a definition and a route to a server that exists.
use vstd::prelude::*;

use crate::cli::Compression;
use crate::json::JsonView;
use crate::metrics::MetricsView;
use crate::model::{all_tools, client_step, collect_step, fanout_state, namespaced};
use crate::model::{offered_tools, recorded, reply_id, reply_tools, routed, upstream_step, verdict};
use crate::model::{with_reply, RouterView, ServerView, ToolView, Verdict};
use crate::protocol::{answers, result_tools};
use crate::tables::{FanOutKind, PendingView};

verus! {

/// How many replies are still missing.
pub open spec fn missing(collected: Seq<Option<JsonView>>) -> nat
    decreases collected.len(),
{
    if collected.len() == 0 {
        0
    } else {
        missing(collected.drop_last()) + if collected.last() is None {
            1nat
        } else {
            0nat
        }
    }
}

/// Whether a request to an upstream is under way.
pub open spec fn under_way(r: RouterView, server_idx: int, id: i64) -> bool {
    0 <= server_idx < r.servers.len() && r.pending[server_idx].dom().contains(id)
}

/// Whether a request to an upstream is under way for a fan-out.
pub open spec fn waits_for(r: RouterView, server_idx: int, id: i64, fanout_id: u64) -> bool {
    under_way(r, server_idx, id) && r.pending[server_idx][id] == PendingView::FanOutMember(fanout_id)
}

/// Every request under way has an id that was taken before.
pub open spec fn ids_taken(r: RouterView) -> bool {
    forall|i: int, id: i64| #[trigger] under_way(r, i, id) ==> 0 < id < r.next_id[i]
}

/// Every fan-out has an id that was taken before, and waits for as many replies as are missing.
pub open spec fn fanouts_count(r: RouterView) -> bool {
    forall|f: u64| #[trigger]
        r.fanouts.dom().contains(f) ==> {
            &&& 0 < f < r.next_fanout
            &&& r.fanouts[f].remaining == missing(r.fanouts[f].collected)
            &&& r.fanouts[f].remaining > 0
        }
}

/// A request under way for a fan-out is the only one to its upstream, and its reply is missing.
pub open spec fn members_missing(r: RouterView) -> bool {
    &&& forall|i: int, id: i64, f: u64| #[trigger]
        waits_for(r, i, id, f) ==> r.fanouts.dom().contains(f) && r.fanouts[f].collected[i] is None
    &&& forall|i: int, id: i64, other: i64, f: u64|
        #[trigger] waits_for(r, i, id, f) && #[trigger] waits_for(r, i, other, f) ==> id == other
}

/// Every reply that a fan-out misses is under way.
pub open spec fn missing_under_way(r: RouterView) -> bool {
    forall|f: u64, i: int|
        r.fanouts.dom().contains(f) && 0 <= i < r.servers.len() && #[trigger] r.fanouts[f].collected[i] is None
            ==> exists|id: i64| waits_for(r, i, id, f)
}

/// Every advertised tool has a definition and a route under the name that its server's prefix gives it.
pub open spec fn tools_known(r: RouterView) -> bool {
    &&& r.routing.dom() == r.ledger.dom()
    &&& forall|name: Seq<char>| #[trigger]
        r.routing.dom().contains(name) ==> {
            &&& 0 <= r.routing[name].server_idx < r.servers.len()
            &&& name == namespaced(r.servers[r.routing[name].server_idx].prefix, r.routing[name].original_name)
            &&& r.ledger[name].name == name
        }
}

/// Whether the tables of a router agree with each other.
pub open spec fn consistent(r: RouterView) -> bool {
    &&& r.wf()
    &&& r.servers.len() > 0
    &&& r.next_fanout > 0
    &&& forall|i: int| 0 <= i < r.servers.len() ==> #[trigger] r.next_id[i] > 0
    &&& ids_taken(r)
    &&& fanouts_count(r)
    &&& members_missing(r)
    &&& missing_under_way(r)
    &&& tools_known(r)
}

/// Whether the id counters can take another `n` requests.
pub open spec fn has_room(r: RouterView, n: nat) -> bool {
    &&& r.next_fanout + n <= u64::MAX
    &&& forall|i: int| 0 <= i < r.servers.len() ==> #[trigger] r.next_id[i] + n <= i64::MAX
}

// ---------------------------------------------------------------------------
// Counting
// ---------------------------------------------------------------------------

/// Where no reply is in, all are missing.
pub proof fn lemma_missing_none(n: nat)
    ensures
        missing(Seq::new(n, |i: int| None)) == n,
    decreases n,
{
    let all = Seq::new(n, |i: int| None::<JsonView>);
    if n > 0 {
        let fewer = Seq::new((n - 1) as nat, |i: int| None::<JsonView>);
        assert(all.drop_last() =~= fewer);
        lemma_missing_none((n - 1) as nat);
    }
}

/// One more reply leaves one fewer missing.
pub proof fn lemma_missing_update(collected: Seq<Option<JsonView>>, i: int, reply: JsonView)
    requires
        0 <= i < collected.len(),
        collected[i] is None,
    ensures
        missing(collected.update(i, Some(reply))) == missing(collected) - 1,
        missing(collected) > 0,
    decreases collected.len(),
{
    let out = collected.update(i, Some(reply));
    let n = collected.len() - 1;
    if i == n {
        assert(out.drop_last() =~= collected.drop_last());
    } else {
        lemma_missing_update(collected.drop_last(), i, reply);
        assert(out.drop_last() =~= collected.drop_last().update(i, Some(reply)));
    }
}

/// No reply is missing exactly if the count is zero.
pub proof fn lemma_none_missing(collected: Seq<Option<JsonView>>)
    ensures
        missing(collected) == 0 <==> forall|i: int| 0 <= i < collected.len() ==> #[trigger] collected[i] is Some,
    decreases collected.len(),
{
    if collected.len() > 0 {
        let rest = collected.drop_last();
        lemma_none_missing(rest);
        if missing(collected) == 0 {
            assert forall|i: int| 0 <= i < collected.len() implies #[trigger] collected[i] is Some by {
                if i < rest.len() {
                    assert(rest[i] is Some);
                }
            }
        }
        if forall|i: int| 0 <= i < collected.len() ==> #[trigger] collected[i] is Some {
            assert forall|i: int| 0 <= i < rest.len() implies #[trigger] rest[i] is Some by {
                assert(rest[i] == collected[i]);
            }
            assert(collected[collected.len() - 1] is Some);
        }
    }
}

// ---------------------------------------------------------------------------
// A new router
// ---------------------------------------------------------------------------

/// A new router is consistent.
pub proof fn lemma_initial_consistent(servers: Seq<ServerView>, tier: Compression)
    requires
        servers.len() > 0,
    ensures
        consistent(RouterView::initial(servers, tier)),
{
    let r = RouterView::initial(servers, tier);
    assert(r.routing.dom() =~= r.ledger.dom());
    assert forall|i: int, id: i64| #[trigger] under_way(r, i, id) implies 0 < id < r.next_id[i] by {
        assert(r.pending[i] == Map::<i64, PendingView>::empty());
    }
}

// ---------------------------------------------------------------------------
// Frames from the client
// ---------------------------------------------------------------------------

/// Taking an id for a request that is sent on keeps the state consistent.
proof fn lemma_request_consistent(r: RouterView, server_idx: int, client_id: JsonView)
    requires
        consistent(r),
        has_room(r, 1),
        0 <= server_idx < r.servers.len(),
    ensures
        consistent(r.with_request(server_idx, PendingView::Forward(client_id))),
{
    let pending = PendingView::Forward(client_id);
    let out = r.with_request(server_idx, pending);
    let fresh = r.next_id[server_idx];
    assert(!under_way(r, server_idx, fresh));
    assert forall|i: int, id: i64| #[trigger] under_way(out, i, id) implies 0 < id < out.next_id[i] by {
        if !(i == server_idx && id == fresh) {
            assert(under_way(r, i, id));
        }
    }
    assert forall|i: int, id: i64, f: u64| #[trigger] waits_for(out, i, id, f) implies waits_for(r, i, id, f) by {
        if i == server_idx && id == fresh {
            assert(out.pending[i][id] == pending);
        }
    }
    assert forall|i: int, id: i64, f: u64| #[trigger] waits_for(r, i, id, f) implies waits_for(out, i, id, f) by {
        assert(under_way(r, i, id));
    }
    assert forall|i: int, id: i64, other: i64, f: u64| #[trigger]
        waits_for(out, i, id, f) && #[trigger] waits_for(out, i, other, f) implies id == other by {
        assert(waits_for(r, i, id, f) && waits_for(r, i, other, f));
    }
    assert forall|f: u64, i: int|
        out.fanouts.dom().contains(f) && 0 <= i < out.servers.len() && #[trigger] out.fanouts[f].collected[i] is None
            implies exists|id: i64| waits_for(out, i, id, f) by {
        assert(r.fanouts[f].collected[i] is None);
        let id = choose|id: i64| waits_for(r, i, id, f);
        assert(waits_for(out, i, id, f));
    }
    assert forall|i: int| 0 <= i < out.servers.len() implies #[trigger] out.next_id[i] > 0 by {
        assert(r.next_id[i] > 0);
    }
}

/// Beginning a fan-out keeps the state consistent.
proof fn lemma_fanout_consistent(r: RouterView, client_id: JsonView, kind: FanOutKind)
    requires
        consistent(r),
        has_room(r, 1),
    ensures
        consistent(fanout_state(r, client_id, kind)),
{
    let out = fanout_state(r, client_id, kind);
    let f0 = r.next_fanout;
    let n = r.servers.len();
    assert(!r.fanouts.dom().contains(f0));
    lemma_missing_none(n);
    assert(out.fanouts[f0].collected =~= Seq::new(n, |i: int| None::<JsonView>));
    assert forall|i: int, id: i64| #[trigger] under_way(out, i, id) implies 0 < id < out.next_id[i] by {
        assert(r.next_id[i] > 0);
        if id != r.next_id[i] {
            assert(under_way(r, i, id));
        }
    }
    assert forall|f: u64| #[trigger] out.fanouts.dom().contains(f) implies ({
        &&& 0 < f < out.next_fanout
        &&& out.fanouts[f].remaining == missing(out.fanouts[f].collected)
        &&& out.fanouts[f].remaining > 0
        &&& out.fanouts[f].collected.len() == out.servers.len()
    }) by {
        if f != f0 {
            assert(r.fanouts.dom().contains(f));
        }
    }
    assert forall|i: int, id: i64, f: u64| #[trigger] waits_for(out, i, id, f) implies (if f == f0 {
        id == r.next_id[i]
    } else {
        waits_for(r, i, id, f)
    }) by {
        if id != r.next_id[i] {
            assert(waits_for(r, i, id, f));
            assert(r.fanouts.dom().contains(f));
        }
    }
    assert forall|i: int, id: i64, f: u64| #[trigger] waits_for(r, i, id, f) implies waits_for(out, i, id, f) by {
        assert(under_way(r, i, id));
    }
    assert forall|i: int, id: i64, f: u64| #[trigger] waits_for(out, i, id, f) implies out.fanouts.dom().contains(f)
        && out.fanouts[f].collected[i] is None by {
        if f != f0 {
            assert(waits_for(r, i, id, f));
        }
    }
    assert forall|i: int, id: i64, other: i64, f: u64| #[trigger]
        waits_for(out, i, id, f) && #[trigger] waits_for(out, i, other, f) implies id == other by {
        if f != f0 {
            assert(waits_for(r, i, id, f) && waits_for(r, i, other, f));
        }
    }
    assert forall|f: u64, i: int|
        out.fanouts.dom().contains(f) && 0 <= i < out.servers.len() && #[trigger] out.fanouts[f].collected[i] is None
            implies exists|id: i64| waits_for(out, i, id, f) by {
        if f == f0 {
            assert(waits_for(out, i, r.next_id[i], f0));
        } else {
            assert(r.fanouts[f].collected[i] is None);
            let id = choose|id: i64| waits_for(r, i, id, f);
            assert(waits_for(out, i, id, f));
        }
    }
    assert forall|i: int| 0 <= i < out.servers.len() implies #[trigger] out.next_id[i] > 0 by {
        assert(r.next_id[i] > 0);
    }
}

/// Whatever the client sends, the state stays consistent, and the servers and the tier stay the same.
pub proof fn lemma_client_step_consistent(r: RouterView, m: MetricsView, value: Option<JsonView>, line: Seq<char>)
    requires
        consistent(r),
        has_room(r, 1),
    ensures
        consistent(client_step(r, m, value, line).router),
        client_step(r, m, value, line).router.servers == r.servers,
        client_step(r, m, value, line).router.tier == r.tier,
{
    if let Some(v) = value {
        if let (Some(method), Some(client_id)) = (v.get_str("method"@), v.get("id"@)) {
            if method == "tools/list"@ {
                lemma_fanout_consistent(r, client_id, FanOutKind::ToolsList);
            } else if method == "initialize"@ {
                lemma_fanout_consistent(r, client_id, FanOutKind::Initialize);
            } else if method == "tools/call"@ {
                if let Verdict::Sent { route, args } = verdict(r, v) {
                    lemma_request_consistent(r, route.server_idx, client_id);
                }
            } else {
                lemma_request_consistent(r, 0, client_id);
            }
        }
    }
}

// ---------------------------------------------------------------------------
// Frames from an upstream
// ---------------------------------------------------------------------------

/// A tool that was offered has the name that its server's prefix gives it.
pub open spec fn well_named(servers: Seq<ServerView>, t: ToolView) -> bool {
    &&& 0 <= t.route.server_idx < servers.len()
    &&& t.name == namespaced(servers[t.route.server_idx].prefix, t.route.original_name)
}

proof fn lemma_offered_well_named(servers: Seq<ServerView>, server_idx: int, tools: Seq<JsonView>)
    requires
        0 <= server_idx < servers.len(),
    ensures
        forall|k: int|
            0 <= k < offered_tools(server_idx, servers[server_idx].prefix, tools).len() ==> well_named(
                servers,
                #[trigger] offered_tools(server_idx, servers[server_idx].prefix, tools)[k],
            ),
    decreases tools.len(),
{
    if tools.len() > 0 {
        let prefix = servers[server_idx].prefix;
        lemma_offered_well_named(servers, server_idx, tools.drop_last());
        let before = offered_tools(server_idx, prefix, tools.drop_last());
        let out = offered_tools(server_idx, prefix, tools);
        assert forall|k: int| 0 <= k < out.len() implies well_named(servers, #[trigger] out[k]) by {
            if k < before.len() {
                assert(out[k] == before[k]);
            }
        }
    }
}

/// Every tool of a merged listing has the name that its server's prefix gives it.
pub proof fn lemma_all_tools_well_named(servers: Seq<ServerView>, collected: Seq<Option<JsonView>>)
    requires
        collected.len() <= servers.len(),
    ensures
        forall|k: int|
            0 <= k < all_tools(servers, collected).len() ==> well_named(
                servers,
                #[trigger] all_tools(servers, collected)[k],
            ),
    decreases collected.len(),
{
    if collected.len() > 0 {
        let i = collected.len() - 1;
        lemma_all_tools_well_named(servers, collected.drop_last());
        if let Some(v) = collected[i] {
            if let Some(tools) = result_tools(v) {
                lemma_offered_well_named(servers, i, tools);
            }
        }
        let before = all_tools(servers, collected.drop_last());
        let last = reply_tools(i, servers[i].prefix, collected[i]);
        let all = all_tools(servers, collected);
        assert forall|k: int| 0 <= k < all.len() implies well_named(servers, #[trigger] all[k]) by {
            if k < before.len() {
                assert(all[k] == before[k]);
            } else {
                assert(all[k] == last[k - before.len()]);
            }
        }
    }
}

/// Recording and routing tools keeps every tool known.
proof fn lemma_tools_known(r: RouterView, tools: Seq<ToolView>)
    requires
        tools_known(r),
        forall|k: int| 0 <= k < tools.len() ==> well_named(r.servers, #[trigger] tools[k]),
    ensures
        tools_known(RouterView { ledger: recorded(r.ledger, tools), routing: routed(r.routing, tools), ..r }),
    decreases tools.len(),
{
    if tools.len() > 0 {
        let rest = tools.drop_last();
        let t = tools.last();
        assert forall|k: int| 0 <= k < rest.len() implies well_named(r.servers, #[trigger] rest[k]) by {
            assert(rest[k] == tools[k]);
        }
        lemma_tools_known(r, rest);
        assert(well_named(r.servers, tools[tools.len() - 1]));
        let before = RouterView { ledger: recorded(r.ledger, rest), routing: routed(r.routing, rest), ..r };
        let out = RouterView { ledger: recorded(r.ledger, tools), routing: routed(r.routing, tools), ..r };
        assert(out.routing.dom() =~= out.ledger.dom());
        assert forall|name: Seq<char>| #[trigger] out.routing.dom().contains(name) implies {
            &&& 0 <= out.routing[name].server_idx < out.servers.len()
            &&& name == namespaced(out.servers[out.routing[name].server_idx].prefix, out.routing[name].original_name)
            &&& out.ledger[name].name == name
        } by {
            if name != t.name {
                assert(before.routing.dom().contains(name));
            }
        }
    }
}

/// The state once a reply was taken off the table of its upstream.
pub open spec fn answered(r: RouterView, server_idx: int, id: i64) -> RouterView {
    RouterView { pending: r.pending.update(server_idx, r.pending[server_idx].remove(id)), ..r }
}

/// A request under way stays so when the reply to another one is taken off.
proof fn lemma_answered(r: RouterView, server_idx: int, id: i64)
    requires
        r.wf(),
        0 <= server_idx < r.servers.len(),
    ensures
        forall|i: int, k: i64|
            #![trigger under_way(answered(r, server_idx, id), i, k)]
            #![trigger under_way(r, i, k)]
            under_way(answered(r, server_idx, id), i, k) <==> under_way(r, i, k) && !(i == server_idx && k == id),
        forall|i: int, k: i64, f: u64|
            #![trigger waits_for(answered(r, server_idx, id), i, k, f)]
            #![trigger waits_for(r, i, k, f)]
            waits_for(answered(r, server_idx, id), i, k, f) <==> waits_for(r, i, k, f) && !(i == server_idx && k
                == id),
{
}

/// Taking off a reply that is sent on keeps the state consistent.
proof fn lemma_forward_answered_consistent(r: RouterView, server_idx: int, id: i64)
    requires
        consistent(r),
        under_way(r, server_idx, id),
        r.pending[server_idx][id] is Forward,
    ensures
        consistent(answered(r, server_idx, id)),
{
    let out = answered(r, server_idx, id);
    lemma_answered(r, server_idx, id);
    assert forall|i: int, k: i64| #[trigger] under_way(out, i, k) implies 0 < k < out.next_id[i] by {
        assert(under_way(r, i, k));
    }
    assert forall|i: int, k: i64, f: u64| #[trigger] waits_for(out, i, k, f) implies out.fanouts.dom().contains(f)
        && out.fanouts[f].collected[i] is None by {
        assert(waits_for(r, i, k, f));
    }
    assert forall|i: int, k: i64, other: i64, f: u64| #[trigger]
        waits_for(out, i, k, f) && #[trigger] waits_for(out, i, other, f) implies k == other by {
        assert(waits_for(r, i, k, f) && waits_for(r, i, other, f));
    }
    assert forall|f: u64, i: int|
        out.fanouts.dom().contains(f) && 0 <= i < out.servers.len() && #[trigger] out.fanouts[f].collected[i] is None
            implies exists|k: i64| waits_for(out, i, k, f) by {
        assert(r.fanouts[f].collected[i] is None);
        let k = choose|k: i64| waits_for(r, i, k, f);
        assert(waits_for(out, i, k, f));
    }
}

/// Taking a reply into its fan-out keeps the state consistent.
proof fn lemma_collected_consistent(r: RouterView, m: MetricsView, server_idx: int, id: i64, f0: u64, reply: JsonView)
    requires
        consistent(r),
        waits_for(r, server_idx, id, f0),
    ensures
        consistent(collect_step(answered(r, server_idx, id), m, server_idx, f0, reply).router),
{
    let mid = answered(r, server_idx, id);
    lemma_answered(r, server_idx, id);
    let step = collect_step(mid, m, server_idx, f0, reply);
    let out = step.router;
    let was = r.fanouts[f0];
    let now = with_reply(was, server_idx, reply);
    assert(r.fanouts.dom().contains(f0) && was.collected[server_idx] is None);
    lemma_missing_update(was.collected, server_idx, reply);
    assert(now.remaining == missing(now.collected));
    assert(out.pending == mid.pending);
    // The tables of pending requests are those of `mid`.
    assert forall|i: int, k: i64| under_way(out, i, k) == #[trigger] under_way(mid, i, k) by {}
    assert forall|i: int, k: i64, f: u64| waits_for(out, i, k, f) == #[trigger] waits_for(mid, i, k, f) by {
        assert(under_way(out, i, k) == under_way(mid, i, k));
    }
    if now.remaining == 0 {
        lemma_none_missing(now.collected);
        if was.kind == FanOutKind::ToolsList {
            let tools = all_tools(r.servers, now.collected);
            lemma_all_tools_well_named(r.servers, now.collected);
            lemma_tools_known(r, tools);
        }
    }
    assert(tools_known(out));
    assert(forall|f: u64| #[trigger] out.fanouts.dom().contains(f) ==> r.fanouts.dom().contains(f));
    assert forall|f: u64| #[trigger] out.fanouts.dom().contains(f) implies out.fanouts[f] == (if f == f0 {
        now
    } else {
        r.fanouts[f]
    }) && (f == f0 ==> now.remaining > 0) by {}
    assert(out.wf()) by {
        assert forall|f: u64| #[trigger] out.fanouts.dom().contains(f) implies out.fanouts[f].collected.len()
            == out.servers.len() by {
            assert(r.fanouts.dom().contains(f));
        }
    }
    assert(ids_taken(out)) by {
        assert forall|i: int, k: i64| #[trigger] under_way(out, i, k) implies 0 < k < out.next_id[i] by {
            assert(under_way(mid, i, k));
            assert(under_way(r, i, k));
        }
    }
    assert(fanouts_count(out)) by {
        assert forall|f: u64| #[trigger] out.fanouts.dom().contains(f) implies ({
            &&& 0 < f < out.next_fanout
            &&& out.fanouts[f].remaining == missing(out.fanouts[f].collected)
            &&& out.fanouts[f].remaining > 0
        }) by {
            assert(r.fanouts.dom().contains(f));
        }
    }
    assert(members_missing(out)) by {
        assert forall|i: int, k: i64, f: u64| #[trigger] waits_for(out, i, k, f) implies out.fanouts.dom().contains(f)
            && out.fanouts[f].collected[i] is None by {
            assert(waits_for(mid, i, k, f));
            assert(waits_for(r, i, k, f));
            assert(r.fanouts.dom().contains(f));
            if f == f0 {
                // Another upstream's reply: this upstream has no other request for the fan-out.
                assert(i != server_idx);
                assert(now.collected[i] is None);
                if now.remaining == 0 {
                    lemma_none_missing(now.collected);
                    assert(now.collected[i] is Some);
                }
            }
        }
        assert forall|i: int, k: i64, other: i64, f: u64| #[trigger]
            waits_for(out, i, k, f) && #[trigger] waits_for(out, i, other, f) implies k == other by {
            assert(waits_for(mid, i, k, f) && waits_for(mid, i, other, f));
            assert(waits_for(r, i, k, f) && waits_for(r, i, other, f));
        }
    }
    assert(missing_under_way(out)) by {
        assert forall|f: u64, i: int|
            out.fanouts.dom().contains(f) && 0 <= i < out.servers.len() && #[trigger] out.fanouts[f].collected[i]
                is None implies exists|k: i64| waits_for(out, i, k, f) by {
            assert(r.fanouts.dom().contains(f));
            assert(r.fanouts[f].collected[i] is None);
            let k = choose|k: i64| waits_for(r, i, k, f);
            assert(waits_for(r, i, k, f));
            assert(waits_for(mid, i, k, f));
            assert(waits_for(out, i, k, f));
        }
    }
}

/// Whatever an upstream sends, the state stays consistent, and the servers and the tier stay the same.
pub proof fn lemma_upstream_step_consistent(
    r: RouterView,
    m: MetricsView,
    server_idx: int,
    value: Option<JsonView>,
    line: Seq<char>,
)
    requires
        consistent(r),
        0 <= server_idx < r.servers.len(),
    ensures
        consistent(upstream_step(r, m, server_idx, value, line).router),
        upstream_step(r, m, server_idx, value, line).router.servers == r.servers,
        upstream_step(r, m, server_idx, value, line).router.tier == r.tier,
{
    if let Some(v) = value {
        if answers(v) {
            if let Some(id) = reply_id(v) {
                if r.pending[server_idx].dom().contains(id) {
                    assert(under_way(r, server_idx, id));
                    match r.pending[server_idx][id] {
                        PendingView::Forward(client_id) => {
                            lemma_forward_answered_consistent(r, server_idx, id);
                        },
                        PendingView::FanOutMember(f) => {
                            assert(waits_for(r, server_idx, id, f));
                            lemma_collected_consistent(r, m, server_idx, id, f, v);
                        },
                    }
                }
            }
        }
    }
}

} // verus!
