//! Where each line goes, and what is noted of it.
use vstd::prelude::*;

use crate::cli::Compression;
use crate::json::{integer_json, JsonView};
use crate::metrics::MetricsView;
use crate::model::{call_params, called_args, called_name, client_step, fanout_state, reply_id, request_frame};
use crate::model::{collect_step, invalid_params_frame, listing_step, request_params, route_of};
use crate::model::{initialize_frame, upstream_step, verdict, with_reply, FrameView, RouterView, ServerView, Verdict};
use crate::protocol::{answers, frame_kind, FrameKindView};
use crate::tables::{FanOutKind, FanOutView, PendingView};
use crate::validator::{failure, normalized, FailureView};
use crate::wire::json_text;

verus! {

// ---------------------------------------------------------------------------
// The parts of a frame
// ---------------------------------------------------------------------------

/// A frame is an answer exactly if it has an id and a result or an error, and
/// no method; its shape is told by its method and its id, and an id that is
/// `null` is none.
pub proof fn lemma_shapes_of_frames(v: JsonView)
    ensures
        answers(v) <==> v.get("method"@) is None && v.get("id"@) is Some && (v.get("result"@) is Some || v.get(
            "error"@,
        ) is Some),
        ({
            let has_id = v.get("id"@) matches Some(id) && !(id is Null);
            match v.get("method"@) {
                Some(JsonView::Str(method)) => {
                    &&& has_id ==> frame_kind(v) == FrameKindView::Request(method)
                    &&& !has_id ==> frame_kind(v) == FrameKindView::Notification(method)
                },
                Some(_) => frame_kind(v) == FrameKindView::Other,
                None => {
                    let answered = v.get("result"@) is Some || v.get("error"@) is Some;
                    &&& has_id && answered ==> frame_kind(v) == FrameKindView::Response
                    &&& !(has_id && answered) ==> frame_kind(v) == FrameKindView::Other
                },
            }
        }),
{
}

/// The id of a reply counts only if it is an integer.
pub proof fn lemma_reply_ids(v: JsonView)
    ensures
        match v.get("id"@) {
            Some(id) => reply_id(v) == id.as_i64(),
            None => reply_id(v) is None,
        },
{
}

/// A call's name and arguments are those in its parameters; a name must be a
/// string, and without arguments they are an empty object, as parameters are.
pub proof fn lemma_parts_of_a_call(v: JsonView)
    ensures
        match v.get("params"@) {
            Some(params) => {
                &&& request_params(v) == params
                &&& match params.get("name"@) {
                    Some(JsonView::Str(name)) => called_name(v) == Some(name),
                    _ => called_name(v) is None,
                }
                &&& match params.get("arguments"@) {
                    Some(args) => called_args(v) == args,
                    None => called_args(v) == JsonView::Object(Seq::empty()),
                }
            },
            None => {
                &&& request_params(v) == JsonView::Object(Seq::empty())
                &&& called_name(v) is None
                &&& called_args(v) == JsonView::Object(Seq::empty())
            },
        },
{
}

// ---------------------------------------------------------------------------
// Lines of the client
// ---------------------------------------------------------------------------

proof fn lemma_methods()
    ensures
        "tools/call"@ != "tools/list"@,
        "tools/call"@ != "initialize"@,
        "tools/list"@ != "initialize"@,
{
    reveal_strlit("tools/call");
    reveal_strlit("tools/list");
    reveal_strlit("initialize");
    assert("tools/call"@[6] == 'c' && "tools/list"@[6] == 'l' && "initialize"@[6] == 'l');
    assert("tools/list"@[0] == 't' && "initialize"@[0] == 'i');
}

/// A request for the listing asks every upstream for its tools, without
/// parameters and to each under its next id, and counts nothing.
pub proof fn lemma_listing_request(r: RouterView, m: MetricsView, v: JsonView, line: Seq<char>)
    requires
        v.get("method"@) == Some(JsonView::Str("tools/list"@)),
        v.get("id"@) is Some,
    ensures
        ({
            let step = client_step(r, m, Some(v), line);
            &&& step.metrics == m
            &&& step.frames.len() == r.servers.len()
            &&& forall|i: int|
                0 <= i < r.servers.len() ==> #[trigger] step.frames[i] == FrameView::ToUpstream(
                    i,
                    json_text(request_frame(r.next_id[i], "tools/list"@, JsonView::Object(Seq::empty()))),
                )
            &&& step.router == fanout_state(r, v.get("id"@)->0, FanOutKind::ToolsList)
        }),
{
    lemma_methods();
}

/// A request for initialization goes to every upstream with the client's
/// parameters, to each under its next id, and counts nothing.
pub proof fn lemma_initialize_request(r: RouterView, m: MetricsView, v: JsonView, line: Seq<char>)
    requires
        v.get("method"@) == Some(JsonView::Str("initialize"@)),
        v.get("id"@) is Some,
    ensures
        ({
            let step = client_step(r, m, Some(v), line);
            &&& step.metrics == m
            &&& step.frames.len() == r.servers.len()
            &&& forall|i: int|
                0 <= i < r.servers.len() ==> #[trigger] step.frames[i] == FrameView::ToUpstream(
                    i,
                    json_text(request_frame(r.next_id[i], "initialize"@, request_params(v))),
                )
            &&& step.router == fanout_state(r, v.get("id"@)->0, FanOutKind::Initialize)
        }),
{
    lemma_methods();
}

/// Any other request but a call goes to the first upstream alone, with nothing
/// but its id changed, and waits there for its reply.
pub proof fn lemma_other_request(r: RouterView, m: MetricsView, v: JsonView, line: Seq<char>)
    requires
        v.get("method"@) matches Some(JsonView::Str(method)) && method != "tools/list"@ && method != "initialize"@
            && method != "tools/call"@,
        v.get("id"@) is Some,
    ensures
        ({
            let step = client_step(r, m, Some(v), line);
            &&& step.metrics == m
            &&& step.frames == seq![
                FrameView::ToUpstream(0, json_text(v.with("id"@, integer_json(r.next_id[0])))),
            ]
            &&& step.router == r.with_request(0, PendingView::Forward(v.get("id"@)->0))
        }),
{
}

/// A tool's route is the one kept for its name; a name for which none is kept
/// has one only if there is a single server without a prefix.
pub proof fn lemma_routes(r: RouterView, name: Seq<char>)
    ensures
        r.routing.dom().contains(name) ==> route_of(r, name) == Some(r.routing[name]),
        !r.routing.dom().contains(name) && r.servers.len() == 1 && r.servers[0].prefix.len() == 0 ==> {
            &&& route_of(r, name) matches Some(route)
            &&& route.server_idx == 0
            &&& route.original_name == name
        },
        !r.routing.dom().contains(name) && (r.servers.len() != 1 || r.servers[0].prefix.len() > 0) ==> route_of(r, name)
            is None,
{
}

/// Why a call is refused: it names no tool, nobody offers the tool, or its
/// arguments are not valid; in the last case what is wrong with them is said,
/// from the arguments' own root on.
pub proof fn lemma_refusals(r: RouterView, v: JsonView)
    ensures
        called_name(v) is None ==> verdict(r, v) == (Verdict::Refused {
            tool: "?"@,
            failure: FailureView { path: "/params/name"@, reason: "tools/call requires a string 'name'"@ },
        }),
        called_name(v) matches Some(name) && route_of(r, name) is None ==> verdict(r, v) == (Verdict::Refused {
            tool: called_name(v)->0,
            failure: FailureView {
                path: "/params/name"@,
                reason: "unknown tool '"@ + called_name(v)->0 + "'"@,
            },
        }),
        called_name(v) matches Some(name) && route_of(r, name) is Some && verdict(r, v) is Refused ==> {
            let name = called_name(v)->0;
            let schema = r.ledger[name].input_schema;
            let args = normalized(called_args(v), schema, r.tier == Compression::High);
            &&& r.tier != Compression::Off
            &&& r.ledger.dom().contains(name)
            &&& verdict(r, v)->tool == name
            &&& failure(args, schema, Seq::empty()) == Some(verdict(r, v)->failure)
        },
{
    reveal_strlit("");
    assert(""@ =~= Seq::<char>::empty());
}

/// A call is answered with its refusal, or goes to the tool's owner as a
/// request of its own with the name that the tool has there.
pub proof fn lemma_call_request(r: RouterView, m: MetricsView, v: JsonView, line: Seq<char>)
    requires
        v.get("method"@) == Some(JsonView::Str("tools/call"@)),
        v.get("id"@) is Some,
    ensures
        ({
            let step = client_step(r, m, Some(v), line);
            let id = v.get("id"@)->0;
            match verdict(r, v) {
                Verdict::Refused { tool, failure } => {
                    &&& step.router == r
                    &&& step.frames == seq![FrameView::ToClient(json_text(invalid_params_frame(id, tool, failure)))]
                    &&& step.metrics.tools_call_rejected == m.tools_call_rejected.wrapping_add(1)
                    &&& step.metrics.tools_call_forwarded == m.tools_call_forwarded
                },
                Verdict::Sent { route, args } => {
                    let owner = route.server_idx;
                    &&& step.router == r.with_request(owner, PendingView::Forward(id))
                    &&& step.frames == seq![
                        FrameView::ToUpstream(
                            owner,
                            json_text(
                                request_frame(
                                    r.next_id[owner],
                                    "tools/call"@,
                                    call_params(route.original_name, args),
                                ),
                            ),
                        ),
                    ]
                    &&& step.metrics.tools_call_forwarded == m.tools_call_forwarded.wrapping_add(1)
                    &&& step.metrics.tools_call_rejected == m.tools_call_rejected
                },
            }
        }),
{
    lemma_methods();
}

// ---------------------------------------------------------------------------
// What is noted
// ---------------------------------------------------------------------------

/// A new router knows no tool and waits for nothing; the first request to each
/// upstream has the id 1.
pub proof fn lemma_new_router(servers: Seq<ServerView>, tier: Compression, i: int)
    requires
        0 <= i < servers.len(),
    ensures
        ({
            let r = RouterView::initial(servers, tier);
            &&& r.servers == servers && r.tier == tier
            &&& r.pending.len() == servers.len() && r.pending[i] == Map::<i64, PendingView>::empty()
            &&& r.next_id.len() == servers.len() && r.next_id[i] == 1
            &&& r.fanouts.dom() == Set::<u64>::empty() && r.next_fanout == 1
            &&& r.routing.dom() == Set::<Seq<char>>::empty()
            &&& r.ledger.dom() == Set::<Seq<char>>::empty()
            &&& r.headline is None
        }),
{
    let r = RouterView::initial(servers, tier);
    assert(r.fanouts.dom() =~= Set::empty());
    assert(r.routing.dom() =~= Set::empty());
    assert(r.ledger.dom() =~= Set::empty());
}

/// A request that is sent to one upstream is noted there under the next id,
/// which moves on; nothing else changes.
pub proof fn lemma_noting_a_request(r: RouterView, server_idx: int, pending: PendingView, i: int, id: i64)
    requires
        r.pending.len() == r.servers.len(),
        r.next_id.len() == r.servers.len(),
        0 <= server_idx < r.servers.len(),
        0 <= i < r.servers.len(),
    ensures
        ({
            let after = r.with_request(server_idx, pending);
            let own = r.next_id[server_idx];
            &&& after.pending.len() == r.servers.len() && after.next_id.len() == r.servers.len()
            &&& after.pending[server_idx].dom().contains(own) && after.pending[server_idx][own] == pending
            &&& after.next_id[server_idx] == own.wrapping_add(1)
            &&& id != own ==> after.pending[server_idx].dom().contains(id) == r.pending[server_idx].dom().contains(id)
                && after.pending[server_idx][id] == r.pending[server_idx][id]
            &&& i != server_idx ==> after.pending[i] == r.pending[i] && after.next_id[i] == r.next_id[i]
            &&& after.servers == r.servers && after.tier == r.tier && after.ledger == r.ledger
            &&& after.routing == r.routing && after.fanouts == r.fanouts && after.next_fanout == r.next_fanout
            &&& after.headline == r.headline
        }),
{
}

/// A request that is sent to every upstream is noted at each under its next
/// id, as part of one fan-out that has no reply yet.
pub proof fn lemma_noting_a_fanout(r: RouterView, client_id: JsonView, kind: FanOutKind, i: int, id: i64, f: u64)
    requires
        0 <= i < r.servers.len(),
    ensures
        ({
            let after = fanout_state(r, client_id, kind);
            let own = r.next_id[i];
            let fanout = after.fanouts[r.next_fanout];
            &&& after.pending.len() == r.servers.len() && after.next_id.len() == r.servers.len()
            &&& after.pending[i].dom().contains(own)
            &&& after.pending[i][own] == PendingView::FanOutMember(r.next_fanout)
            &&& after.next_id[i] == own.wrapping_add(1)
            &&& id != own ==> after.pending[i].dom().contains(id) == r.pending[i].dom().contains(id)
                && after.pending[i][id] == r.pending[i][id]
            &&& after.fanouts.dom().contains(r.next_fanout)
            &&& fanout.client_id == client_id && fanout.kind == kind
            &&& fanout.remaining == r.servers.len() && fanout.collected.len() == r.servers.len()
            &&& fanout.collected[i] is None
            &&& f != r.next_fanout ==> after.fanouts.dom().contains(f) == r.fanouts.dom().contains(f)
                && after.fanouts[f] == r.fanouts[f]
            &&& after.next_fanout == r.next_fanout.wrapping_add(1)
            &&& after.servers == r.servers && after.tier == r.tier && after.ledger == r.ledger
            &&& after.routing == r.routing && after.headline == r.headline
        }),
{
}

// ---------------------------------------------------------------------------
// Lines of an upstream
// ---------------------------------------------------------------------------

/// A reply that nobody waits for is dropped, whether its id is not an integer
/// or none that is under way at that upstream.
pub proof fn lemma_stray_reply_is_dropped(
    r: RouterView,
    m: MetricsView,
    server_idx: int,
    v: JsonView,
    line: Seq<char>,
)
    requires
        answers(v),
        reply_id(v) matches Some(id) ==> !r.pending[server_idx].dom().contains(id),
    ensures
        upstream_step(r, m, server_idx, Some(v), line).router == r,
        upstream_step(r, m, server_idx, Some(v), line).metrics == m,
        upstream_step(r, m, server_idx, Some(v), line).frames.len() == 0,
{
}

/// A reply to a request that was sent for the client goes to the client with
/// nothing changed but the id, which is the client's own; the request is then
/// done, and nothing else changes.
pub proof fn lemma_reply_goes_back(
    r: RouterView,
    m: MetricsView,
    server_idx: int,
    v: JsonView,
    line: Seq<char>,
    id: i64,
    client_id: JsonView,
    i: int,
    other: i64,
)
    requires
        answers(v),
        reply_id(v) == Some(id),
        0 <= server_idx < r.pending.len(),
        r.pending[server_idx].dom().contains(id),
        r.pending[server_idx][id] == PendingView::Forward(client_id),
    ensures
        ({
            let step = upstream_step(r, m, server_idx, Some(v), line);
            &&& step.metrics == m
            &&& step.frames == seq![FrameView::ToClient(json_text(v.with("id"@, client_id)))]
            &&& !step.router.pending[server_idx].dom().contains(id)
            &&& other != id ==> step.router.pending[server_idx].dom().contains(other)
                == r.pending[server_idx].dom().contains(other) && step.router.pending[server_idx][other]
                == r.pending[server_idx][other]
            &&& 0 <= i < r.pending.len() && i != server_idx ==> step.router.pending[i] == r.pending[i]
            &&& step.router.pending.len() == r.pending.len()
            &&& step.router.next_id == r.next_id && step.router.servers == r.servers && step.router.tier == r.tier
            &&& step.router.ledger == r.ledger && step.router.routing == r.routing
            &&& step.router.fanouts == r.fanouts && step.router.next_fanout == r.next_fanout
            &&& step.router.headline == r.headline
        }),
{
}

/// One more reply of a fan-out takes the place of its upstream and leaves the
/// other places as they are; one less is missing.
pub proof fn lemma_collecting_a_reply(fanout: FanOutView, server_idx: int, reply: JsonView, i: int)
    requires
        0 <= server_idx < fanout.collected.len(),
        0 <= i < fanout.collected.len(),
    ensures
        ({
            let after = with_reply(fanout, server_idx, reply);
            &&& after.collected.len() == fanout.collected.len()
            &&& after.collected[server_idx] == Some(reply)
            &&& i != server_idx ==> after.collected[i] == fanout.collected[i]
            &&& fanout.remaining > 0 ==> after.remaining == fanout.remaining - 1
            &&& fanout.remaining == 0 ==> after.remaining == 0
            &&& after.client_id == fanout.client_id && after.kind == fanout.kind
        }),
{
}

/// While replies of a fan-out are missing, they are kept and nothing is sent;
/// with the last one the fan-out is over, and the client gets what its kind asks for.
pub proof fn lemma_collecting(
    r: RouterView,
    m: MetricsView,
    server_idx: int,
    f: u64,
    reply: JsonView,
    other: u64,
)
    ensures
        ({
            let step = collect_step(r, m, server_idx, f, reply);
            let fanout = with_reply(r.fanouts[f], server_idx, reply);
            let done = RouterView { fanouts: r.fanouts.remove(f), ..r };
            &&& !r.fanouts.dom().contains(f) ==> step.router == r && step.metrics == m && step.frames.len() == 0
            &&& r.fanouts.dom().contains(f) && fanout.remaining > 0 ==> {
                &&& step.metrics == m && step.frames.len() == 0
                &&& step.router.fanouts.dom().contains(f) && step.router.fanouts[f] == fanout
                &&& other != f ==> step.router.fanouts.dom().contains(other) == r.fanouts.dom().contains(other)
                    && step.router.fanouts[other] == r.fanouts[other]
                &&& step.router.pending == r.pending && step.router.next_id == r.next_id
                &&& step.router.ledger == r.ledger && step.router.routing == r.routing
            }
            &&& r.fanouts.dom().contains(f) && fanout.remaining == 0 && fanout.kind == FanOutKind::ToolsList ==> step
                == listing_step(done, m, fanout.client_id, fanout.collected)
            &&& r.fanouts.dom().contains(f) && fanout.remaining == 0 && fanout.kind == FanOutKind::Initialize ==> {
                &&& step.router == done && step.metrics == m
                &&& step.frames == seq![
                    FrameView::ToClient(
                        json_text(initialize_frame(r.servers, fanout.client_id, fanout.collected)),
                    ),
                ]
            }
        }),
{
}

/// A reply of a fan-out's member is collected for it, and the request is then done.
pub proof fn lemma_member_reply_is_collected(
    r: RouterView,
    m: MetricsView,
    server_idx: int,
    v: JsonView,
    line: Seq<char>,
    id: i64,
    f: u64,
)
    requires
        answers(v),
        reply_id(v) == Some(id),
        r.pending[server_idx].dom().contains(id),
        r.pending[server_idx][id] == PendingView::FanOutMember(f),
    ensures
        ({
            let done = RouterView { pending: r.pending.update(server_idx, r.pending[server_idx].remove(id)), ..r };
            upstream_step(r, m, server_idx, Some(v), line) == collect_step(done, m, server_idx, f, v)
        }),
{
}

} // verus!
