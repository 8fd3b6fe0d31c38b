//! What the router does, as a transition system.
//!
//! [`client_step`] and [`upstream_step`] say, for every state of the router and
//! every frame, which state follows, what is counted, and which frames are sent.
use vstd::prelude::*;

use crate::cli::Compression;
use crate::compactor::{compacted, truncated, type_text};
use crate::json::{integer_json, member, with_member, JsonView, Members};
use crate::ledger::{with_definition, DefinitionView};
use crate::metrics::{percent_saved, MetricsView};
use crate::protocol::{answers, result_tools};
use crate::tables::{FanOutKind, FanOutView, PendingView, RouteView};
use crate::text::byte_len;
use crate::validator::{failure, normalized, FailureView};
use crate::wire::json_text;

verus! {

/// The JSON-RPC error code for invalid parameters.
pub const INVALID_PARAMS: i64 = -32602;

/// The version of the gateway.
pub const VERSION: &'static str = "0.1.0";

/// The protocol version that the gateway states where no upstream states one.
pub const PROTOCOL_VERSION: &'static str = "2025-06-18";

/// What stands between a server's prefix and a tool's own name.
pub const PREFIX_SEP: &'static str = "__";

/// How many characters of a parameter's description the balanced tier keeps.
pub const BALANCED_PARAM_DESC: usize = 80;

/// How many characters the balanced tier shows of a tool's description, the ellipsis among them.
pub const BALANCED_TOOL_DESC: usize = 160;

// ---------------------------------------------------------------------------
// Per-tier rewriting of tool definitions
// ---------------------------------------------------------------------------

/// A tool's input schema, or `otherwise` where the definition has none.
pub open spec fn input_schema(tool: JsonView, otherwise: JsonView) -> JsonView {
    match tool.get("inputSchema"@) {
        Some(schema) => schema,
        None => otherwise,
    }
}

/// The schema that accepts any object.
pub open spec fn any_object() -> JsonView {
    JsonView::empty_object().with("type"@, JsonView::Str("object"@))
}

/// A tool's description as the balanced tier shows it: at most
/// [`BALANCED_TOOL_DESC`] characters, the last of them an ellipsis where some
/// were cut off.
pub open spec fn short_description(d: Seq<char>) -> Seq<char> {
    if d.len() > BALANCED_TOOL_DESC {
        truncated(d, (BALANCED_TOOL_DESC - 1) as nat)
    } else {
        d
    }
}

/// A tool definition as a tier shows it.
pub open spec fn tier_tool(tool: JsonView, tier: Compression) -> JsonView {
    let schema = input_schema(tool, JsonView::empty_object());
    match tier {
        Compression::Off => tool,
        Compression::Safe => tool.with("inputSchema"@, compacted(schema, false, 0)).without("description"@),
        Compression::Balanced => {
            let shown = tool.with("inputSchema"@, compacted(schema, true, BALANCED_PARAM_DESC as nat));
            match shown.get_str("description"@) {
                Some(d) => shown.with("description"@, JsonView::Str(short_description(d))),
                None => shown,
            }
        },
        Compression::High => tool.with("inputSchema"@, any_object()).with(
            "description"@,
            JsonView::Str("(p:"@ + type_text(schema) + ")"@),
        ),
    }
}

/// Tool definitions as a tier shows them.
pub open spec fn tier_tools(tools: Seq<JsonView>, tier: Compression) -> Seq<JsonView> {
    Seq::new(tools.len(), |i: int| tier_tool(tools[i], tier))
}

// ---------------------------------------------------------------------------
// State
// ---------------------------------------------------------------------------

/// One upstream: its name, and the prefix of its tools.
pub struct ServerView {
    pub name: Seq<char>,
    pub prefix: Seq<char>,
}

/// The savings of the first merged listing.
#[derive(Debug, Clone, Copy, PartialEq, Eq)]
pub struct Savings {
    pub tools: usize,
    pub before_tokens: usize,
    pub after_tokens: usize,
    pub saved_pct: u64,
}

/// The state of a router.
#[verifier::ext_equal]
pub struct RouterView {
    pub servers: Seq<ServerView>,
    pub tier: Compression,
    /// The full definition of each tool that was advertised.
    pub ledger: Map<Seq<char>, DefinitionView>,
    /// By upstream: what to do with the reply to each request that is under way.
    pub pending: Seq<Map<i64, PendingView>>,
    /// By upstream: the id of the next request.
    pub next_id: Seq<i64>,
    /// The requests that were sent to every upstream and are not answered yet.
    pub fanouts: Map<u64, FanOutView>,
    pub next_fanout: u64,
    /// The owner of each tool that was advertised, and the name it has there.
    pub routing: Map<Seq<char>, RouteView>,
    pub headline: Option<Savings>,
}

impl RouterView {
    /// The state of a new router.
    pub open spec fn initial(servers: Seq<ServerView>, tier: Compression) -> RouterView {
        RouterView {
            servers,
            tier,
            ledger: Map::empty(),
            pending: Seq::new(servers.len(), |i: int| Map::empty()),
            next_id: Seq::new(servers.len(), |i: int| 1i64),
            fanouts: Map::empty(),
            next_fanout: 1,
            routing: Map::empty(),
            headline: None,
        }
    }

    /// Whether the tables fit the servers.
    pub open spec fn wf(self) -> bool {
        &&& self.pending.len() == self.servers.len()
        &&& self.next_id.len() == self.servers.len()
        &&& forall|f: u64| #[trigger]
            self.fanouts.dom().contains(f) ==> self.fanouts[f].collected.len() == self.servers.len()
        &&& forall|name: Seq<char>| #[trigger]
            self.routing.dom().contains(name) ==> 0 <= self.routing[name].server_idx < self.servers.len()
    }

    /// The state after a request was taken for an upstream: its id is used up,
    /// and what to do with the reply is kept under it.
    pub open spec fn with_request(self, server_idx: int, pending: PendingView) -> RouterView {
        RouterView {
            pending: self.pending.update(
                server_idx,
                self.pending[server_idx].insert(self.next_id[server_idx], pending),
            ),
            next_id: self.next_id.update(server_idx, self.next_id[server_idx].wrapping_add(1)),
            ..self
        }
    }

    /// The state after a request was taken for every upstream.
    pub open spec fn with_requests(self, pending: PendingView) -> RouterView {
        RouterView {
            pending: Seq::new(self.servers.len(), |i: int| self.pending[i].insert(self.next_id[i], pending)),
            next_id: Seq::new(self.servers.len(), |i: int| self.next_id[i].wrapping_add(1)),
            ..self
        }
    }
}

/// A frame that the router sends.
pub enum FrameView {
    ToClient(Seq<char>),
    ToUpstream(int, Seq<char>),
}

/// What one frame brings about: the next state, the next counters, and the frames to send, in order.
pub struct StepView {
    pub router: RouterView,
    pub metrics: MetricsView,
    pub frames: Seq<FrameView>,
}

/// A step that changes nothing but sends frames.
pub open spec fn sends(r: RouterView, m: MetricsView, frames: Seq<FrameView>) -> StepView {
    StepView { router: r, metrics: m, frames }
}

// ---------------------------------------------------------------------------
// Frames
// ---------------------------------------------------------------------------

/// A request with a given id.
pub open spec fn request_frame(id: i64, method: Seq<char>, params: JsonView) -> JsonView {
    JsonView::empty_object().with("jsonrpc"@, JsonView::Str("2.0"@)).with("id"@, integer_json(id)).with(
        "method"@,
        JsonView::Str(method),
    ).with("params"@, params)
}

/// A reply with a result.
pub open spec fn result_frame(id: JsonView, result: JsonView) -> JsonView {
    JsonView::empty_object().with("jsonrpc"@, JsonView::Str("2.0"@)).with("id"@, id).with("result"@, result)
}

/// A reply that says which parameter of a tool call is invalid, and why.
pub open spec fn invalid_params_frame(id: JsonView, tool: Seq<char>, f: FailureView) -> JsonView {
    let data = JsonView::empty_object().with("tool"@, JsonView::Str(tool)).with("path"@, JsonView::Str(f.path)).with(
        "reason"@,
        JsonView::Str(f.reason),
    );
    let error = JsonView::empty_object().with("code"@, integer_json(INVALID_PARAMS)).with(
        "message"@,
        JsonView::Str("Invalid params"@),
    ).with("data"@, data);
    JsonView::empty_object().with("jsonrpc"@, JsonView::Str("2.0"@)).with("id"@, id).with("error"@, error)
}

// ---------------------------------------------------------------------------
// Frames from the client
// ---------------------------------------------------------------------------

/// The line goes to every upstream as it came.
pub open spec fn broadcast_frames(r: RouterView, line: Seq<char>) -> Seq<FrameView> {
    Seq::new(r.servers.len(), |i: int| FrameView::ToUpstream(i, line))
}

/// A request as it is sent to one upstream: under a fresh id, otherwise as it came.
pub open spec fn forward_frame(r: RouterView, server_idx: int, frame: JsonView) -> FrameView {
    FrameView::ToUpstream(server_idx, json_text(frame.with("id"@, integer_json(r.next_id[server_idx]))))
}

/// A request goes to one upstream.
pub open spec fn forward_step(
    r: RouterView,
    m: MetricsView,
    server_idx: int,
    client_id: JsonView,
    frame: JsonView,
) -> StepView {
    StepView {
        router: r.with_request(server_idx, PendingView::Forward(client_id)),
        metrics: m,
        frames: seq![forward_frame(r, server_idx, frame)],
    }
}

/// The method that a fan-out asks for.
pub open spec fn fanout_method(kind: FanOutKind) -> Seq<char> {
    match kind {
        FanOutKind::ToolsList => "tools/list"@,
        FanOutKind::Initialize => "initialize"@,
    }
}

/// The frames of a fan-out: the request, to each upstream under a fresh id.
pub open spec fn fanout_frames(r: RouterView, kind: FanOutKind, params: JsonView) -> Seq<FrameView> {
    Seq::new(
        r.servers.len(),
        |i: int|
            FrameView::ToUpstream(i, json_text(request_frame(r.next_id[i], fanout_method(kind), params))),
    )
}

/// The state after a fan-out began: it waits for a reply from every upstream.
pub open spec fn fanout_state(r: RouterView, client_id: JsonView, kind: FanOutKind) -> RouterView {
    let fanout = FanOutView {
        client_id,
        kind,
        remaining: r.servers.len(),
        collected: Seq::new(r.servers.len(), |i: int| None),
    };
    RouterView {
        fanouts: r.fanouts.insert(r.next_fanout, fanout),
        next_fanout: r.next_fanout.wrapping_add(1),
        ..r.with_requests(PendingView::FanOutMember(r.next_fanout))
    }
}

/// A request goes to every upstream.
pub open spec fn fanout_step(
    r: RouterView,
    m: MetricsView,
    client_id: JsonView,
    kind: FanOutKind,
    params: JsonView,
) -> StepView {
    StepView { router: fanout_state(r, client_id, kind), metrics: m, frames: fanout_frames(r, kind, params) }
}

/// The name of the tool that a call asks for.
pub open spec fn called_name(v: JsonView) -> Option<Seq<char>> {
    match v.get("params"@) {
        Some(params) => params.get_str("name"@),
        None => None,
    }
}

/// The arguments of a call; none stand for an empty object.
pub open spec fn called_args(v: JsonView) -> JsonView {
    match v.get("params"@) {
        Some(params) => match params.get("arguments"@) {
            Some(args) => args,
            None => JsonView::empty_object(),
        },
        None => JsonView::empty_object(),
    }
}

/// The route of a tool: the one that was kept when it was advertised. With one
/// server and no prefix, a tool that was not advertised is that server's.
pub open spec fn route_of(r: RouterView, name: Seq<char>) -> Option<RouteView> {
    if r.routing.dom().contains(name) {
        Some(r.routing[name])
    } else if r.servers.len() == 1 && r.servers[0].prefix.len() == 0 {
        Some(RouteView { server_idx: 0, original_name: name })
    } else {
        None
    }
}

/// What becomes of a tool call.
pub enum Verdict {
    /// It is answered with an error.
    Refused { tool: Seq<char>, failure: FailureView },
    /// It is sent to the tool's owner.
    Sent { route: RouteView, args: JsonView },
}

/// Whether a tool call is sent on, where to and with which arguments, or why
/// it is refused. Above the lowest tier the arguments must be valid under the
/// schema that the tool was advertised with.
pub open spec fn verdict(r: RouterView, v: JsonView) -> Verdict {
    match called_name(v) {
        None => Verdict::Refused {
            tool: "?"@,
            failure: FailureView { path: "/params/name"@, reason: "tools/call requires a string 'name'"@ },
        },
        Some(name) => match route_of(r, name) {
            None => Verdict::Refused {
                tool: name,
                failure: FailureView { path: "/params/name"@, reason: "unknown tool '"@ + name + "'"@ },
            },
            Some(route) => {
                if r.tier == Compression::Off || !r.ledger.dom().contains(name) {
                    Verdict::Sent { route, args: called_args(v) }
                } else {
                    let schema = r.ledger[name].input_schema;
                    let args = normalized(called_args(v), schema, r.tier == Compression::High);
                    match failure(args, schema, ""@) {
                        None => Verdict::Sent { route, args },
                        Some(f) => Verdict::Refused { tool: name, failure: f },
                    }
                }
            },
        },
    }
}

/// The parameters of a call as the tool's owner expects them.
pub open spec fn call_params(name: Seq<char>, args: JsonView) -> JsonView {
    JsonView::empty_object().with("name"@, JsonView::Str(name)).with("arguments"@, args)
}

/// A tool call is sent to the tool's owner under a fresh id, or answered with an error.
pub open spec fn call_step(r: RouterView, m: MetricsView, client_id: JsonView, v: JsonView) -> StepView {
    match verdict(r, v) {
        Verdict::Refused { tool, failure } => StepView {
            router: r,
            metrics: m.with_call_rejected(),
            frames: seq![FrameView::ToClient(json_text(invalid_params_frame(client_id, tool, failure)))],
        },
        Verdict::Sent { route, args } => StepView {
            router: r.with_request(route.server_idx, PendingView::Forward(client_id)),
            metrics: m.with_call_forwarded(),
            frames: seq![
                FrameView::ToUpstream(
                    route.server_idx,
                    json_text(
                        request_frame(
                            r.next_id[route.server_idx],
                            "tools/call"@,
                            call_params(route.original_name, args),
                        ),
                    ),
                ),
            ],
        },
    }
}

/// The parameters of a request; none stand for an empty object.
pub open spec fn request_params(v: JsonView) -> JsonView {
    match v.get("params"@) {
        Some(params) => params,
        None => JsonView::empty_object(),
    }
}

/// What a line from the client brings about, where `value` is what the line
/// holds as JSON, if it is JSON.
///
/// A request for the listing or for initialization is fanned out, a tool call
/// goes to the tool's owner, and any other request to the first upstream. What
/// is no request goes to every upstream as it came.
pub open spec fn client_step(r: RouterView, m: MetricsView, value: Option<JsonView>, line: Seq<char>) -> StepView {
    match value {
        None => sends(r, m, broadcast_frames(r, line)),
        Some(v) => match (v.get_str("method"@), v.get("id"@)) {
            (Some(method), Some(client_id)) => {
                if method == "tools/list"@ {
                    fanout_step(r, m, client_id, FanOutKind::ToolsList, JsonView::empty_object())
                } else if method == "initialize"@ {
                    fanout_step(r, m, client_id, FanOutKind::Initialize, request_params(v))
                } else if method == "tools/call"@ {
                    call_step(r, m, client_id, v)
                } else {
                    forward_step(r, m, 0, client_id, v)
                }
            },
            _ => sends(r, m, broadcast_frames(r, line)),
        },
    }
}

// ---------------------------------------------------------------------------
// Merging
// ---------------------------------------------------------------------------

/// A tool's name under its server's prefix. A server without a prefix leaves the name as it is.
pub open spec fn namespaced(prefix: Seq<char>, name: Seq<char>) -> Seq<char> {
    if prefix.len() == 0 {
        name
    } else {
        prefix + PREFIX_SEP@ + name
    }
}

/// A tool that an upstream advertises.
pub struct ToolView {
    pub route: RouteView,
    /// Its name under the server's prefix.
    pub name: Seq<char>,
    pub schema: JsonView,
    /// Its definition, with the name under the server's prefix.
    pub definition: JsonView,
}

/// A tool that the upstream `server_idx` lists. One without a name is passed over.
pub open spec fn offered_tool(server_idx: int, prefix: Seq<char>, tool: JsonView) -> Option<ToolView> {
    match tool.get_str("name"@) {
        Some(original_name) => {
            let name = namespaced(prefix, original_name);
            Some(
                ToolView {
                    route: RouteView { server_idx, original_name },
                    name,
                    schema: input_schema(tool, any_object()),
                    definition: tool.with("name"@, JsonView::Str(name)),
                },
            )
        },
        None => None,
    }
}

/// The tools that the upstream `server_idx` lists, in order.
pub open spec fn offered_tools(server_idx: int, prefix: Seq<char>, tools: Seq<JsonView>) -> Seq<ToolView>
    decreases tools.len(),
{
    if tools.len() == 0 {
        Seq::empty()
    } else {
        let rest = offered_tools(server_idx, prefix, tools.drop_last());
        match offered_tool(server_idx, prefix, tools.last()) {
            Some(t) => rest.push(t),
            None => rest,
        }
    }
}

/// The tools that one upstream's reply lists.
pub open spec fn reply_tools(server_idx: int, prefix: Seq<char>, reply: Option<JsonView>) -> Seq<ToolView> {
    match reply {
        Some(v) => match result_tools(v) {
            Some(tools) => offered_tools(server_idx, prefix, tools),
            None => Seq::empty(),
        },
        None => Seq::empty(),
    }
}

/// The tools that all upstreams' replies list, by upstream and in order.
pub open spec fn all_tools(servers: Seq<ServerView>, collected: Seq<Option<JsonView>>) -> Seq<ToolView>
    decreases collected.len(),
{
    if collected.len() == 0 {
        Seq::empty()
    } else {
        let i = collected.len() - 1;
        all_tools(servers, collected.drop_last()) + reply_tools(i, servers[i].prefix, collected[i])
    }
}

/// The definitions of tools, in order.
pub open spec fn tool_definitions(tools: Seq<ToolView>) -> Seq<JsonView> {
    tools.map_values(|t: ToolView| t.definition)
}

/// The ledger after the tools were recorded one after the other.
pub open spec fn recorded(ledger: Map<Seq<char>, DefinitionView>, tools: Seq<ToolView>) -> Map<
    Seq<char>,
    DefinitionView,
>
    decreases tools.len(),
{
    if tools.len() == 0 {
        ledger
    } else {
        let t = tools.last();
        with_definition(recorded(ledger, tools.drop_last()), t.name, t.schema)
    }
}

/// The routes after those of the tools were kept one after the other.
pub open spec fn routed(routing: Map<Seq<char>, RouteView>, tools: Seq<ToolView>) -> Map<Seq<char>, RouteView>
    decreases tools.len(),
{
    if tools.len() == 0 {
        routing
    } else {
        let t = tools.last();
        routed(routing, tools.drop_last()).insert(t.name, t.route)
    }
}

/// The bytes of values as text, counted in a machine word.
pub open spec fn total_bytes(items: Seq<JsonView>) -> usize
    decreases items.len(),
{
    if items.len() == 0 {
        0
    } else {
        total_bytes(items.drop_last()).wrapping_add(byte_len(json_text(items.last())))
    }
}

/// The reply to a request for the listing: all tools, as the tier shows them.
pub open spec fn listing_frame(tier: Compression, client_id: JsonView, tools: Seq<ToolView>) -> JsonView {
    result_frame(
        client_id,
        JsonView::empty_object().with("tools"@, JsonView::Array(tier_tools(tool_definitions(tools), tier))),
    )
}

/// The savings of a listing.
pub open spec fn savings(tools: nat, before: usize, after: usize) -> Savings {
    Savings {
        tools: tools as usize,
        before_tokens: (before / 4) as usize,
        after_tokens: (after / 4) as usize,
        saved_pct: percent_saved(before as nat, after as nat) as u64,
    }
}

/// All replies to a request for the listing are in: the tools are recorded and
/// routed, and the client gets them as the tier shows them.
pub open spec fn listing_step(
    r: RouterView,
    m: MetricsView,
    client_id: JsonView,
    collected: Seq<Option<JsonView>>,
) -> StepView {
    let tools = all_tools(r.servers, collected);
    let line = json_text(listing_frame(r.tier, client_id, tools));
    let before = total_bytes(tool_definitions(tools));
    StepView {
        router: RouterView {
            ledger: recorded(r.ledger, tools),
            routing: routed(r.routing, tools),
            headline: match r.headline {
                Some(first) => Some(first),
                None => Some(savings(tools.len(), before, byte_len(line))),
            },
            ..r
        },
        metrics: m.with_discovery((before / 4) as u64, (byte_len(line) / 4) as u64),
        frames: seq![FrameView::ToClient(line)],
    }
}

/// The result of a reply, where it has one.
pub open spec fn reply_result(reply: Option<JsonView>) -> Option<JsonView> {
    match reply {
        Some(v) => v.get("result"@),
        None => None,
    }
}

/// The protocol version of the first upstream that states one.
pub open spec fn first_version(collected: Seq<Option<JsonView>>) -> Option<JsonView>
    decreases collected.len(),
{
    if collected.len() == 0 {
        None
    } else if first_version(collected.drop_last()) is Some {
        first_version(collected.drop_last())
    } else {
        match reply_result(collected.last()) {
            Some(result) => result.get("protocolVersion"@),
            None => None,
        }
    }
}

/// Capabilities with those of one more upstream: what is there already stays.
pub open spec fn merged_members(into: Members, members: Members) -> Members
    decreases members.len(),
{
    if members.len() == 0 {
        into
    } else {
        let before = merged_members(into, members.drop_last());
        let (key, value) = members.last();
        if member(before, key) is Some {
            before
        } else {
            with_member(before, key, value)
        }
    }
}

/// The capabilities of all upstreams. Where two state the same one, the first counts.
pub open spec fn merged_capabilities(collected: Seq<Option<JsonView>>) -> Members
    decreases collected.len(),
{
    if collected.len() == 0 {
        Seq::empty()
    } else {
        let before = merged_capabilities(collected.drop_last());
        match reply_result(collected.last()) {
            Some(result) => match result.get_object("capabilities"@) {
                Some(capabilities) => merged_members(before, capabilities),
                None => before,
            },
            None => before,
        }
    }
}

/// What the gateway says of itself: its name, its version, and the servers behind it.
pub open spec fn server_info(servers: Seq<ServerView>) -> JsonView {
    JsonView::empty_object().with("name"@, JsonView::Str("mcp-token-gateway"@)).with(
        "version"@,
        JsonView::Str(VERSION@),
    ).with("aggregating"@, JsonView::Array(servers.map_values(|s: ServerView| JsonView::Str(s.name))))
}

/// The reply to a request for initialization.
pub open spec fn initialize_frame(
    servers: Seq<ServerView>,
    client_id: JsonView,
    collected: Seq<Option<JsonView>>,
) -> JsonView {
    let version = match first_version(collected) {
        Some(v) => v,
        None => JsonView::Str(PROTOCOL_VERSION@),
    };
    result_frame(
        client_id,
        JsonView::empty_object().with("protocolVersion"@, version).with("serverInfo"@, server_info(servers)).with(
            "capabilities"@,
            JsonView::Object(merged_capabilities(collected)),
        ),
    )
}

// ---------------------------------------------------------------------------
// Frames from an upstream
// ---------------------------------------------------------------------------

/// A fan-out with one more reply.
pub open spec fn with_reply(fanout: FanOutView, server_idx: int, reply: JsonView) -> FanOutView {
    FanOutView {
        remaining: if fanout.remaining > 0 { (fanout.remaining - 1) as nat } else { 0 },
        collected: if server_idx < fanout.collected.len() {
            fanout.collected.update(server_idx, Some(reply))
        } else {
            fanout.collected
        },
        ..fanout
    }
}

/// One more reply of a fan-out is in; with the last one, the client gets the merged reply.
pub open spec fn collect_step(
    r: RouterView,
    m: MetricsView,
    server_idx: int,
    fanout_id: u64,
    reply: JsonView,
) -> StepView {
    if !r.fanouts.dom().contains(fanout_id) {
        sends(r, m, Seq::empty())
    } else {
        let fanout = with_reply(r.fanouts[fanout_id], server_idx, reply);
        if fanout.remaining > 0 {
            sends(RouterView { fanouts: r.fanouts.insert(fanout_id, fanout), ..r }, m, Seq::empty())
        } else {
            let done = RouterView { fanouts: r.fanouts.remove(fanout_id), ..r };
            match fanout.kind {
                FanOutKind::ToolsList => listing_step(done, m, fanout.client_id, fanout.collected),
                FanOutKind::Initialize => sends(
                    done,
                    m,
                    seq![
                        FrameView::ToClient(
                            json_text(initialize_frame(r.servers, fanout.client_id, fanout.collected)),
                        ),
                    ],
                ),
            }
        }
    }
}

/// A reply with an id that the router took: it goes to whom it is for.
pub open spec fn reply_step(r: RouterView, m: MetricsView, server_idx: int, id: i64, reply: JsonView) -> StepView {
    if !r.pending[server_idx].dom().contains(id) {
        sends(r, m, Seq::empty())
    } else {
        let done = RouterView { pending: r.pending.update(server_idx, r.pending[server_idx].remove(id)), ..r };
        match r.pending[server_idx][id] {
            PendingView::Forward(client_id) => sends(
                done,
                m,
                seq![FrameView::ToClient(json_text(reply.with("id"@, client_id)))],
            ),
            PendingView::FanOutMember(fanout_id) => collect_step(done, m, server_idx, fanout_id, reply),
        }
    }
}

/// What a line from an upstream brings about, where `value` is what the line
/// holds as JSON, if it is JSON.
///
/// A reply to a request of the router's goes to whom it is for, and a reply
/// that nobody waits for is dropped. What has not the shape of a reply goes to
/// the client as it came.
pub open spec fn upstream_step(
    r: RouterView,
    m: MetricsView,
    server_idx: int,
    value: Option<JsonView>,
    line: Seq<char>,
) -> StepView {
    match value {
        None => sends(r, m, seq![FrameView::ToClient(line)]),
        Some(v) => if !answers(v) {
            sends(r, m, seq![FrameView::ToClient(line)])
        } else {
            match reply_id(v) {
                Some(id) => reply_step(r, m, server_idx, id, v),
                None => sends(r, m, Seq::empty()),
            }
        },
    }
}

/// The id of a reply, where it is an integer.
pub open spec fn reply_id(v: JsonView) -> Option<i64> {
    match v.get("id"@) {
        Some(id) => id.as_i64(),
        None => None,
    }
}

} // verus!
