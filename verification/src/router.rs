//! The router between one client and its upstream servers.
//!
//! `tools/list` and `initialize` are sent to every upstream, and the replies
//! are merged into one. A `tools/call` goes to the upstream that owns the tool,
//! which the tool's prefix tells. Two pieces of state make this work:
//!
//! - Each upstream has its own space of request ids. For every request that it
//!   sends, the router takes a fresh id and keeps what to do with the reply, so
//!   that the client's id can be put back on the way out.
//! - Each fan-out keeps the replies by upstream until all are in. Merging a
//!   tool listing puts each tool's name under its server's prefix and keeps the
//!   mapping, so that later calls find their way back.
//!
//! The router does no I/O: it takes frames and returns the frames to send.
use dashmap::DashMap;
use vstd::prelude::*;
use vstd::string::*;

use crate::cli::Compression;
use crate::compactor::{compact_jsonschema, compact_schema, truncate};
use crate::json::{views, Json, JsonObject, JsonView};
use crate::ledger::{DefinitionView, SchemaLedger};
use crate::metrics::{saved_percent, Metrics};
use crate::model::{all_tools, any_object, offered_tool, offered_tools, recorded, reply_tools, routed, server_info};
use crate::model::{broadcast_frames, call_step, client_step, fanout_frames, fanout_method, fanout_state, forward_frame};
use crate::model::{collect_step, first_version, initialize_frame, listing_frame, listing_step, merged_capabilities};
use crate::model::{invalid_params_frame, merged_members, namespaced, request_frame, result_frame, savings};
use crate::model::{short_description, tier_tool, tier_tools, tool_definitions, total_bytes, upstream_step, with_reply};
use crate::model::{FrameView, RouterView, ServerView, ToolView};
use crate::model::{BALANCED_PARAM_DESC, BALANCED_TOOL_DESC, INVALID_PARAMS, PROTOCOL_VERSION, VERSION};
use crate::protocol::{is_answer, tools_list_result};
use crate::tables::{fanout_entries, fanouts_insert, fanouts_new, fanouts_remove, FanOut, FanOutKind};
use crate::tables::{optional_view, optional_views, pending_entries, pending_insert, pending_new, pending_remove};
use crate::tables::{route_entries, routes_get, routes_insert, routes_new};
use crate::tables::{PendingResp, PendingView, RouteView, ToolRoute};
use crate::text::{byte_count, concat3, same_text};
use crate::validator::{err, lemma_failure_iff_invalid, rehydrate, ValidationError};
use crate::wire::{json_text, parse, parsed, to_text};

pub use crate::model::{Savings, PREFIX_SEP};

verus! {

// ---------------------------------------------------------------------------
// Per-tier rewriting of tool definitions
// ---------------------------------------------------------------------------

fn any_object_schema() -> (r: Json)
    ensures
        r@ == any_object(),
{
    Json::object().with("type", Json::text("object"))
}

fn shorten(d: &str) -> (r: String)
    ensures
        r@ == short_description(d@),
{
    if d.unicode_len() > BALANCED_TOOL_DESC {
        truncate(d, BALANCED_TOOL_DESC - 1)
    } else {
        d.to_owned()
    }
}

fn compact_tool_for_tier(tool: &Json, tier: Compression) -> (r: Json)
    ensures
        r@ == tier_tool(tool@, tier),
{
    let schema = match tool.get("inputSchema") {
        Some(schema) => schema.clone(),
        None => Json::object(),
    };
    let shown = tool.clone();
    match tier {
        Compression::Off => shown,
        Compression::Safe => shown.with("inputSchema", compact_jsonschema(&schema, false, 0)).without("description"),
        Compression::Balanced => {
            let shown = shown.with("inputSchema", compact_jsonschema(&schema, true, BALANCED_PARAM_DESC));
            let short = match shown.get_str("description") {
                Some(d) => Some(shorten(d)),
                None => None,
            };
            match short {
                Some(d) => shown.with("description", Json::Str(d)),
                None => shown,
            }
        },
        Compression::High => {
            let signature = concat3("(p:", compact_schema(&schema).as_str(), ")");
            shown.with("inputSchema", any_object_schema()).with("description", Json::Str(signature))
        },
    }
}

/// Rewrites merged tool definitions for a tier. A definition that is not an object stays as it is.
pub fn compact_tools_for_tier(tools: &Vec<Json>, tier: Compression) -> (r: Vec<Json>)
    ensures
        views(r@) == tier_tools(views(tools@), tier),
{
    let mut out: Vec<Json> = Vec::new();
    let mut i: usize = 0;
    while i < tools.len()
        invariant
            i <= tools.len(),
            out@.len() == i,
            forall|j: int| 0 <= j < i ==> (#[trigger] out@[j])@ == tier_tool(views(tools@)[j], tier),
        decreases tools.len() - i,
    {
        out.push(compact_tool_for_tier(&tools[i], tier));
        i = i + 1;
    }
    assert(views(out@) =~= tier_tools(views(tools@), tier));
    out
}

// ---------------------------------------------------------------------------
// Servers and frames
// ---------------------------------------------------------------------------

/// One upstream as the router sees it.
#[derive(Debug)]
pub struct ServerInfo {
    pub name: String,
    /// The prefix of its tools' names. An empty one leaves the names as they are.
    pub prefix: String,
}

impl View for ServerInfo {
    type V = ServerView;

    open spec fn view(&self) -> ServerView {
        ServerView { name: self.name@, prefix: self.prefix@ }
    }
}

impl Clone for ServerInfo {
    fn clone(&self) -> (r: ServerInfo)
        ensures
            r@ == self@,
    {
        ServerInfo { name: self.name.clone(), prefix: self.prefix.clone() }
    }
}

/// The readings of servers.
pub open spec fn server_views(servers: Seq<ServerInfo>) -> Seq<ServerView> {
    servers.map_values(|s: ServerInfo| s@)
}

/// A frame to send.
#[derive(Debug, Clone, PartialEq, Eq)]
pub enum Outgoing {
    ToClient(String),
    /// To the upstream at this place.
    ToUpstream(usize, String),
}

impl View for Outgoing {
    type V = FrameView;

    open spec fn view(&self) -> FrameView {
        match self {
            Outgoing::ToClient(line) => FrameView::ToClient(line@),
            Outgoing::ToUpstream(server_idx, line) => FrameView::ToUpstream(*server_idx as int, line@),
        }
    }
}

/// The readings of frames.
pub open spec fn frame_views(frames: Seq<Outgoing>) -> Seq<FrameView> {
    frames.map_values(|f: Outgoing| f@)
}

fn no_frames() -> (r: Vec<Outgoing>)
    ensures
        frame_views(r@) == Seq::<FrameView>::empty(),
{
    let out: Vec<Outgoing> = Vec::new();
    assert(frame_views(out@) =~= Seq::<FrameView>::empty());
    out
}

fn one_frame(frame: Outgoing) -> (r: Vec<Outgoing>)
    ensures
        frame_views(r@) == seq![frame@],
{
    let mut out: Vec<Outgoing> = Vec::new();
    out.push(frame);
    assert(frame_views(out@) =~= seq![frame@]);
    out
}

fn request(id: i64, method: &str, params: Json) -> (r: Json)
    ensures
        r@ == request_frame(id, method@, params@),
{
    Json::object().with("jsonrpc", Json::text("2.0")).with("id", Json::integer(id)).with(
        "method",
        Json::text(method),
    ).with("params", params)
}

fn result_reply(id: Json, result: Json) -> (r: Json)
    ensures
        r@ == result_frame(id@, result@),
{
    Json::object().with("jsonrpc", Json::text("2.0")).with("id", id).with("result", result)
}

fn namespaced_name(prefix: &str, name: &str) -> (r: String)
    ensures
        r@ == namespaced(prefix@, name@),
{
    if prefix.is_empty() {
        name.to_owned()
    } else {
        concat3(prefix, PREFIX_SEP, name)
    }
}

// ---------------------------------------------------------------------------
// The router
// ---------------------------------------------------------------------------

/// What a request of the client asks for.
enum Asked {
    ToolsList,
    Initialize,
    ToolsCall,
    Other,
}

/// The router of one session.
pub struct Router {
    servers: Vec<ServerInfo>,
    tier: Compression,
    ledger: SchemaLedger,
    upstream_pending: Vec<DashMap<i64, PendingResp>>,
    upstream_next_id: Vec<i64>,
    fanouts: DashMap<u64, FanOut>,
    fanout_next_id: u64,
    /// The owner of each advertised tool, and its name there.
    routing: DashMap<String, ToolRoute>,
    /// The savings of the first merged listing.
    headline: Option<Savings>,
}

spec fn pending_views(tables: Seq<DashMap<i64, PendingResp>>) -> Seq<Map<i64, PendingView>> {
    tables.map_values(|t: DashMap<i64, PendingResp>| pending_entries(t))
}

impl View for Router {
    type V = RouterView;

    closed spec fn view(&self) -> RouterView {
        RouterView {
            servers: server_views(self.servers@),
            tier: self.tier,
            ledger: self.ledger@,
            pending: pending_views(self.upstream_pending@),
            next_id: self.upstream_next_id@,
            fanouts: fanout_entries(self.fanouts),
            next_fanout: self.fanout_next_id,
            routing: route_entries(self.routing),
            headline: self.headline,
        }
    }
}

impl Router {
    /// A router for the given servers, which has seen nothing yet.
    pub fn new(servers: Vec<ServerInfo>, tier: Compression) -> (r: Router)
        ensures
            r@ == RouterView::initial(server_views(servers@), tier),
            r@.wf(),
    {
        let n = servers.len();
        let mut upstream_pending: Vec<DashMap<i64, PendingResp>> = Vec::new();
        let mut upstream_next_id: Vec<i64> = Vec::new();
        let mut i: usize = 0;
        while i < n
            invariant
                i <= n,
                upstream_pending@.len() == i,
                upstream_next_id@.len() == i,
                forall|j: int|
                    0 <= j < i ==> pending_entries(#[trigger] upstream_pending@[j]) == Map::<i64, PendingView>::empty(),
                forall|j: int| 0 <= j < i ==> #[trigger] upstream_next_id@[j] == 1i64,
            decreases n - i,
        {
            upstream_pending.push(pending_new());
            upstream_next_id.push(1);
            i = i + 1;
        }
        let r = Router {
            servers,
            tier,
            ledger: SchemaLedger::new(),
            upstream_pending,
            upstream_next_id,
            fanouts: fanouts_new(),
            fanout_next_id: 1,
            routing: routes_new(),
            headline: None,
        };
        proof {
            let want = RouterView::initial(server_views(servers@), tier);
            assert(r@.pending =~= want.pending);
            assert(r@.next_id =~= want.next_id);
            assert(r@ =~= want);
        }
        r
    }

    /// The savings of the first merged listing, once there is one.
    pub fn savings(&self) -> (r: Option<Savings>)
        ensures
            r == self@.headline,
    {
        self.headline
    }

    /// Takes a line that was read from the client and returns the frames to send.
    pub fn on_client_frame(&mut self, metrics: &mut Metrics, line: String) -> (frames: Vec<Outgoing>)
        requires
            old(self)@.wf(),
            old(self)@.servers.len() > 0,
        ensures
            final(self)@.wf(),
            final(self)@ == client_step(old(self)@, old(metrics)@, parsed(line@), line@).router,
            final(metrics)@ == client_step(old(self)@, old(metrics)@, parsed(line@), line@).metrics,
            frame_views(frames@) == client_step(old(self)@, old(metrics)@, parsed(line@), line@).frames,
    {
        let value = parse(line.as_str());
        self.on_client_value(metrics, value, line)
    }

    /// Takes a line from the client together with what it holds as JSON, if it is JSON.
    pub fn on_client_value(&mut self, metrics: &mut Metrics, value: Option<Json>, line: String) -> (frames: Vec<
        Outgoing,
    >)
        requires
            old(self)@.wf(),
            old(self)@.servers.len() > 0,
        ensures
            final(self)@.wf(),
            final(self)@ == client_step(old(self)@, old(metrics)@, optional_view(value), line@).router,
            final(metrics)@ == client_step(old(self)@, old(metrics)@, optional_view(value), line@).metrics,
            frame_views(frames@) == client_step(old(self)@, old(metrics)@, optional_view(value), line@).frames,
    {
        let v = match value {
            Some(v) => v,
            None => {
                return self.broadcast(line.as_str());
            },
        };
        let client_id = match v.get("id") {
            Some(id) => id.clone(),
            None => {
                return self.broadcast(line.as_str());
            },
        };
        let kind = match v.get_str("method") {
            Some(method) => if same_text(method, "tools/list") {
                Asked::ToolsList
            } else if same_text(method, "initialize") {
                Asked::Initialize
            } else if same_text(method, "tools/call") {
                Asked::ToolsCall
            } else {
                Asked::Other
            },
            None => {
                return self.broadcast(line.as_str());
            },
        };
        match kind {
            Asked::ToolsList => self.fanout(client_id, FanOutKind::ToolsList, Json::object()),
            Asked::Initialize => {
                let params = match v.get("params") {
                    Some(params) => params.clone(),
                    None => Json::object(),
                };
                self.fanout(client_id, FanOutKind::Initialize, params)
            },
            Asked::ToolsCall => self.handle_tools_call(metrics, client_id, &v),
            Asked::Other => self.forward_to(0, client_id, v),
        }
    }

    fn broadcast(&self, line: &str) -> (frames: Vec<Outgoing>)
        ensures
            frame_views(frames@) == broadcast_frames(self@, line@),
    {
        let mut frames: Vec<Outgoing> = Vec::new();
        let mut i: usize = 0;
        while i < self.servers.len()
            invariant
                i <= self.servers.len(),
                frames@.len() == i,
                forall|j: int| 0 <= j < i ==> (#[trigger] frames@[j])@ == FrameView::ToUpstream(j, line@),
            decreases self.servers.len() - i,
        {
            frames.push(Outgoing::ToUpstream(i, line.to_owned()));
            i = i + 1;
        }
        assert(frame_views(frames@) =~= broadcast_frames(self@, line@));
        frames
    }

    /// Takes a fresh id for a request to one upstream and keeps what to do with the reply.
    fn take_id(&mut self, server_idx: usize, pending: PendingResp) -> (id: i64)
        requires
            old(self)@.wf(),
            server_idx < old(self)@.servers.len(),
        ensures
            final(self)@.wf(),
            final(self)@ == old(self)@.with_request(server_idx as int, pending@),
            id == old(self)@.next_id[server_idx as int],
    {
        let ghost before = self@;
        let id: i64 = self.upstream_next_id[server_idx];
        self.upstream_next_id.set(server_idx, id.wrapping_add(1));
        pending_insert(&mut self.upstream_pending[server_idx], id, pending);
        proof {
            let want = before.with_request(server_idx as int, pending@);
            assert(self@.pending =~= want.pending);
            assert(self@.next_id =~= want.next_id);
            assert(self@ =~= want);
        }
        id
    }

    /// Sends a request to one upstream under a fresh id.
    fn forward_to(&mut self, server_idx: usize, client_id: Json, frame: Json) -> (frames: Vec<Outgoing>)
        requires
            old(self)@.wf(),
            server_idx < old(self)@.servers.len(),
        ensures
            final(self)@.wf(),
            final(self)@ == old(self)@.with_request(server_idx as int, PendingView::Forward(client_id@)),
            frame_views(frames@) == seq![forward_frame(old(self)@, server_idx as int, frame@)],
    {
        let id = self.take_id(server_idx, PendingResp::Forward { client_id });
        let sent = frame.with("id", Json::integer(id));
        one_frame(Outgoing::ToUpstream(server_idx, to_text(&sent)))
    }

    /// Sends a request to every upstream and waits for their replies, to merge them into one.
    fn fanout(&mut self, client_id: Json, kind: FanOutKind, params: Json) -> (frames: Vec<Outgoing>)
        requires
            old(self)@.wf(),
        ensures
            final(self)@.wf(),
            final(self)@ == fanout_state(old(self)@, client_id@, kind),
            frame_views(frames@) == fanout_frames(old(self)@, kind, params@),
    {
        let ghost before = self@;
        let n = self.servers.len();
        let fanout_id = self.fanout_next_id;
        self.fanout_next_id = fanout_id.wrapping_add(1);
        let method = match kind {
            FanOutKind::ToolsList => "tools/list",
            FanOutKind::Initialize => "initialize",
        };
        let mut collected: Vec<Option<Json>> = Vec::new();
        let mut k: usize = 0;
        while k < n
            invariant
                k <= n,
                collected@.len() == k,
                forall|j: int| 0 <= j < k ==> #[trigger] collected@[j] is None,
            decreases n - k,
        {
            collected.push(None);
            k = k + 1;
        }
        assert(optional_views(collected@) =~= Seq::new(n as nat, |i: int| None::<JsonView>));
        fanouts_insert(&mut self.fanouts, fanout_id, FanOut { client_id, kind, remaining: n, collected });
        let ghost opened = self@;
        let ghost member = PendingView::FanOutMember(fanout_id);
        let ghost want = fanout_frames(before, kind, params@);
        let mut frames: Vec<Outgoing> = Vec::new();
        let mut idx: usize = 0;
        while idx < n
            invariant
                idx <= n,
                n == before.servers.len(),
                before.wf(),
                opened.wf(),
                self@.wf(),
                fanout_id == before.next_fanout,
                method@ == fanout_method(kind),
                want == fanout_frames(before, kind, params@),
                member == PendingView::FanOutMember(fanout_id),
                self@ == (RouterView { pending: self@.pending, next_id: self@.next_id, ..opened }),
                opened.pending == before.pending,
                opened.next_id == before.next_id,
                opened.servers == before.servers,
                forall|j: int|
                    0 <= j < idx ==> #[trigger] self@.pending[j] == before.pending[j].insert(
                        before.next_id[j],
                        member,
                    ),
                forall|j: int| 0 <= j < idx ==> #[trigger] self@.next_id[j] == before.next_id[j].wrapping_add(1),
                forall|j: int| idx <= j < n ==> #[trigger] self@.pending[j] == before.pending[j],
                forall|j: int| idx <= j < n ==> #[trigger] self@.next_id[j] == before.next_id[j],
                frames@.len() == idx,
                forall|j: int| 0 <= j < idx ==> (#[trigger] frames@[j])@ == want[j],
            decreases n - idx,
        {
            let id = self.take_id(idx, PendingResp::FanOutMember { fanout_id });
            let frame = request(id, method, params.clone());
            frames.push(Outgoing::ToUpstream(idx, to_text(&frame)));
            idx = idx + 1;
        }
        proof {
            let state = fanout_state(before, client_id@, kind);
            assert(self@.pending =~= state.pending);
            assert(self@.next_id =~= state.next_id);
            assert(self@.fanouts =~= state.fanouts);
            assert(self@ =~= state);
            assert(frame_views(frames@) =~= want);
        }
        frames
    }

    /// Sends a tool call to the tool's owner, or answers it with an error.
    pub fn handle_tools_call(&mut self, metrics: &mut Metrics, client_id: Json, v: &Json) -> (frames: Vec<Outgoing>)
        requires
            old(self)@.wf(),
            old(self)@.servers.len() > 0,
        ensures
            final(self)@.wf(),
            final(self)@ == call_step(old(self)@, old(metrics)@, client_id@, v@).router,
            final(metrics)@ == call_step(old(self)@, old(metrics)@, client_id@, v@).metrics,
            frame_views(frames@) == call_step(old(self)@, old(metrics)@, client_id@, v@).frames,
    {
        let params = v.get("params");
        let name = match params {
            Some(params) => params.get_str("name"),
            None => None,
        };
        let name = match name {
            Some(name) => name,
            None => {
                let e = err("/params/name", "tools/call requires a string 'name'".to_owned());
                return self.reply_invalid_params(metrics, client_id, "?", &e);
            },
        };
        let args = match params {
            Some(params) => match params.get("arguments") {
                Some(args) => args.clone(),
                None => Json::object(),
            },
            None => Json::object(),
        };
        let route = match routes_get(&self.routing, name) {
            Some(route) => route,
            None => {
                if self.servers.len() == 1 && self.servers[0].prefix.as_str().is_empty() {
                    ToolRoute { server_idx: 0, original_name: name.to_owned() }
                } else {
                    let e = err("/params/name", concat3("unknown tool '", name, "'"));
                    return self.reply_invalid_params(metrics, client_id, name, &e);
                }
            },
        };
        let final_args = if self.tier == Compression::Off {
            args
        } else {
            match self.ledger.get(name) {
                Some(definition) => {
                    match rehydrate(&args, &definition.input_schema, self.tier == Compression::High) {
                        Ok(args) => {
                            proof {
                                lemma_failure_iff_invalid(args@, definition.input_schema@, ""@);
                            }
                            args
                        },
                        Err(e) => {
                            return self.reply_invalid_params(metrics, client_id, name, &e);
                        },
                    }
                },
                None => args,
            }
        };
        let id = self.take_id(route.server_idx, PendingResp::Forward { client_id });
        let call = Json::object().with("name", Json::Str(route.original_name)).with("arguments", final_args);
        let frame = request(id, "tools/call", call);
        metrics.record_call_forwarded();
        one_frame(Outgoing::ToUpstream(route.server_idx, to_text(&frame)))
    }

    /// Answers a tool call with an error that says which parameter is invalid, and why.
    fn reply_invalid_params(&self, metrics: &mut Metrics, client_id: Json, tool: &str, e: &ValidationError) -> (frames:
        Vec<Outgoing>)
        ensures
            final(metrics)@ == old(metrics)@.with_call_rejected(),
            frame_views(frames@) == seq![FrameView::ToClient(json_text(invalid_params_frame(client_id@, tool@, e@)))],
    {
        metrics.record_call_rejected();
        let data = Json::object().with("tool", Json::text(tool)).with("path", Json::text(e.path.as_str())).with(
            "reason",
            Json::text(e.reason.as_str()),
        );
        let error = Json::object().with("code", Json::integer(INVALID_PARAMS)).with(
            "message",
            Json::text("Invalid params"),
        ).with("data", data);
        let frame = Json::object().with("jsonrpc", Json::text("2.0")).with("id", client_id).with("error", error);
        one_frame(Outgoing::ToClient(to_text(&frame)))
    }

    /// Takes a line that was read from an upstream and returns the frames to send.
    pub fn on_upstream_frame(&mut self, metrics: &mut Metrics, server_idx: usize, line: String) -> (frames: Vec<
        Outgoing,
    >)
        requires
            old(self)@.wf(),
            server_idx < old(self)@.servers.len(),
        ensures
            final(self)@.wf(),
            final(self)@ == upstream_step(
                old(self)@,
                old(metrics)@,
                server_idx as int,
                parsed(line@),
                line@,
            ).router,
            final(metrics)@ == upstream_step(
                old(self)@,
                old(metrics)@,
                server_idx as int,
                parsed(line@),
                line@,
            ).metrics,
            frame_views(frames@) == upstream_step(
                old(self)@,
                old(metrics)@,
                server_idx as int,
                parsed(line@),
                line@,
            ).frames,
    {
        let value = parse(line.as_str());
        self.on_upstream_value(metrics, server_idx, value, line)
    }

    /// Takes a line from an upstream together with what it holds as JSON, if it is JSON.
    pub fn on_upstream_value(
        &mut self,
        metrics: &mut Metrics,
        server_idx: usize,
        value: Option<Json>,
        line: String,
    ) -> (frames: Vec<Outgoing>)
        requires
            old(self)@.wf(),
            server_idx < old(self)@.servers.len(),
        ensures
            final(self)@.wf(),
            final(self)@ == upstream_step(
                old(self)@,
                old(metrics)@,
                server_idx as int,
                optional_view(value),
                line@,
            ).router,
            final(metrics)@ == upstream_step(
                old(self)@,
                old(metrics)@,
                server_idx as int,
                optional_view(value),
                line@,
            ).metrics,
            frame_views(frames@) == upstream_step(
                old(self)@,
                old(metrics)@,
                server_idx as int,
                optional_view(value),
                line@,
            ).frames,
    {
        let v = match value {
            Some(v) => v,
            None => {
                return one_frame(Outgoing::ToClient(line));
            },
        };
        if !is_answer(&v) {
            return one_frame(Outgoing::ToClient(line));
        }
        let id = match v.get("id") {
            Some(id) => id.as_i64(),
            None => None,
        };
        let id = match id {
            Some(id) => id,
            None => {
                return no_frames();
            },
        };
        let ghost before = self@;
        let ghost done = RouterView {
            pending: before.pending.update(server_idx as int, before.pending[server_idx as int].remove(id)),
            ..before
        };
        let pending = pending_remove(&mut self.upstream_pending[server_idx], id);
        assert(self@.pending =~= done.pending);
        assert(self@ =~= done);
        match pending {
            Some(PendingResp::Forward { client_id }) => {
                let out = v.with("id", client_id);
                one_frame(Outgoing::ToClient(to_text(&out)))
            },
            Some(PendingResp::FanOutMember { fanout_id }) => self.collect_fanout(metrics, server_idx, fanout_id, v),
            None => {
                proof {
                    assert(before.pending[server_idx as int].remove(id) =~= before.pending[server_idx as int]);
                    assert(done.pending =~= before.pending);
                    assert(done =~= before);
                }
                no_frames()
            },
        }
    }

    /// Takes one upstream's reply into a fan-out, and answers the client with the last one.
    pub fn collect_fanout(
        &mut self,
        metrics: &mut Metrics,
        server_idx: usize,
        fanout_id: u64,
        reply: Json,
    ) -> (frames: Vec<Outgoing>)
        requires
            old(self)@.wf(),
            server_idx < old(self)@.servers.len(),
        ensures
            final(self)@.wf(),
            final(self)@ == collect_step(
                old(self)@,
                old(metrics)@,
                server_idx as int,
                fanout_id,
                reply@,
            ).router,
            final(metrics)@ == collect_step(
                old(self)@,
                old(metrics)@,
                server_idx as int,
                fanout_id,
                reply@,
            ).metrics,
            frame_views(frames@) == collect_step(
                old(self)@,
                old(metrics)@,
                server_idx as int,
                fanout_id,
                reply@,
            ).frames,
    {
        let ghost before = self@;
        let mut fanout = match fanouts_remove(&mut self.fanouts, fanout_id) {
            Some(fanout) => fanout,
            None => {
                assert(self@.fanouts =~= before.fanouts);
                assert(self@ =~= before);
                return no_frames();
            },
        };
        let ghost waiting = fanout@;
        if server_idx < fanout.collected.len() {
            fanout.collected.set(server_idx, Some(reply));
        }
        fanout.remaining = fanout.remaining.saturating_sub(1);
        proof {
            assert(fanout@.collected =~= with_reply(waiting, server_idx as int, reply@).collected);
            assert(fanout@ == with_reply(waiting, server_idx as int, reply@));
        }
        if fanout.remaining > 0 {
            let ghost now = fanout@;
            fanouts_insert(&mut self.fanouts, fanout_id, fanout);
            proof {
                assert(self@.fanouts =~= before.fanouts.insert(fanout_id, now));
                assert(self@ =~= (RouterView { fanouts: before.fanouts.insert(fanout_id, now), ..before }));
            }
            return no_frames();
        }
        assert(self@ =~= (RouterView { fanouts: before.fanouts.remove(fanout_id), ..before }));
        let line = match fanout.kind {
            FanOutKind::ToolsList => self.merge_tools_list(metrics, fanout.client_id, fanout.collected),
            FanOutKind::Initialize => self.merge_initialize(fanout.client_id, fanout.collected),
        };
        one_frame(Outgoing::ToClient(line))
    }

    /// Records and routes the tools of one upstream's reply, and adds their definitions to the merged ones.
    fn take_tools(&mut self, server_idx: usize, reply: &Json, merged: &mut Vec<Json>)
        requires
            old(self)@.wf(),
            server_idx < old(self)@.servers.len(),
        ensures
            final(self)@.wf(),
            ({
                let tools = reply_tools(
                    server_idx as int,
                    old(self)@.servers[server_idx as int].prefix,
                    Some(reply@),
                );
                &&& final(self)@ == (RouterView {
                    ledger: recorded(old(self)@.ledger, tools),
                    routing: routed(old(self)@.routing, tools),
                    ..old(self)@
                })
                &&& views(final(merged)@) == views(old(merged)@) + tool_definitions(tools)
            }),
    {
        let ghost before = self@;
        let ghost prefix = before.servers[server_idx as int].prefix;
        let ghost earlier = views(merged@);
        let tools = match tools_list_result(reply) {
            Some(tools) => tools,
            None => {
                proof {
                    assert(earlier + tool_definitions(Seq::empty()) =~= earlier);
                    assert(self@ =~= (RouterView {
                        ledger: recorded(before.ledger, Seq::empty()),
                        routing: routed(before.routing, Seq::empty()),
                        ..before
                    }));
                }
                return;
            },
        };
        let ghost all = views(tools@);
        let mut i: usize = 0;
        proof {
            let none = offered_tools(server_idx as int, prefix, all.take(0));
            assert(none =~= Seq::empty());
            assert(earlier + tool_definitions(none) =~= earlier);
            assert(self@ =~= (RouterView {
                ledger: recorded(before.ledger, none),
                routing: routed(before.routing, none),
                ..before
            }));
        }
        while i < tools.len()
            invariant
                i <= tools.len(),
                all == views(tools@),
                before.wf(),
                self@.wf(),
                server_idx < before.servers.len(),
                prefix == before.servers[server_idx as int].prefix,
                self@ == (RouterView {
                    ledger: recorded(
                        before.ledger,
                        offered_tools(server_idx as int, prefix, all.take(i as int)),
                    ),
                    routing: routed(
                        before.routing,
                        offered_tools(server_idx as int, prefix, all.take(i as int)),
                    ),
                    ..before
                }),
                views(merged@) == earlier + tool_definitions(
                    offered_tools(server_idx as int, prefix, all.take(i as int)),
                ),
            decreases tools.len() - i,
        {
            let ghost done = offered_tools(server_idx as int, prefix, all.take(i as int));
            let ghost next = offered_tools(server_idx as int, prefix, all.take(i + 1));
            let tool = &tools[i];
            proof {
                assert(all.take(i + 1).drop_last() =~= all.take(i as int));
                assert(all.take(i + 1).last() == tool@);
            }
            if let Some(original_name) = tool.get_str("name") {
                let name = namespaced_name(self.servers[server_idx].prefix.as_str(), original_name);
                let schema = match tool.get("inputSchema") {
                    Some(schema) => schema.clone(),
                    None => any_object_schema(),
                };
                let ghost t = ToolView {
                    route: RouteView { server_idx: server_idx as int, original_name: original_name@ },
                    name: name@,
                    schema: schema@,
                    definition: tool@.with("name"@, JsonView::Str(name@)),
                };
                proof {
                    assert(offered_tool(server_idx as int, prefix, tool@) == Some(t));
                    assert(next == done.push(t));
                    assert(next.drop_last() =~= done);
                }
                let ghost at = self@;
                self.ledger.record(name.as_str(), schema);
                routes_insert(
                    &mut self.routing,
                    name.clone(),
                    ToolRoute { server_idx, original_name: original_name.to_owned() },
                );
                let definition = tool.clone().with("name", Json::Str(name));
                let ghost old_views = views(merged@);
                merged.push(definition);
                proof {
                    assert(views(merged@) =~= old_views.push(t.definition));
                    assert(tool_definitions(next) =~= tool_definitions(done).push(t.definition));
                    assert(views(merged@) =~= earlier + tool_definitions(next));
                    assert(self@ =~= (RouterView {
                        ledger: recorded(before.ledger, next),
                        routing: routed(before.routing, next),
                        ..before
                    }));
                    assert(self@.routing == at.routing.insert(t.name, t.route));
                    assert forall|n: Seq<char>| #[trigger] self@.routing.dom().contains(n) implies 0
                        <= self@.routing[n].server_idx < self@.servers.len() by {
                        assert(n != t.name ==> at.routing.dom().contains(n));
                    }
                }
            }
            i = i + 1;
        }
        assert(all.take(i as int) =~= all);
    }

    /// Merges the replies to `tools/list` into one, and returns its line.
    fn merge_tools_list(&mut self, metrics: &mut Metrics, client_id: Json, collected: Vec<Option<Json>>) -> (line:
        String)
        requires
            old(self)@.wf(),
            collected@.len() == old(self)@.servers.len(),
        ensures
            final(self)@.wf(),
            ({
                let step = listing_step(old(self)@, old(metrics)@, client_id@, optional_views(collected@));
                &&& final(self)@ == step.router
                &&& final(metrics)@ == step.metrics
                &&& seq![FrameView::ToClient(line@)] == step.frames
            }),
    {
        let ghost before = self@;
        let ghost replies = optional_views(collected@);
        let mut merged: Vec<Json> = Vec::new();
        let mut idx: usize = 0;
        proof {
            let none = all_tools(before.servers, replies.take(0));
            assert(none =~= Seq::empty());
            assert(views(merged@) =~= tool_definitions(none));
            assert(self@ =~= (RouterView {
                ledger: recorded(before.ledger, none),
                routing: routed(before.routing, none),
                ..before
            }));
        }
        while idx < collected.len()
            invariant
                idx <= collected.len(),
                collected.len() == before.servers.len(),
                replies == optional_views(collected@),
                before.wf(),
                self@.wf(),
                self@ == (RouterView {
                    ledger: recorded(before.ledger, all_tools(before.servers, replies.take(idx as int))),
                    routing: routed(before.routing, all_tools(before.servers, replies.take(idx as int))),
                    ..before
                }),
                views(merged@) == tool_definitions(all_tools(before.servers, replies.take(idx as int))),
            decreases collected.len() - idx,
        {
            let ghost done = all_tools(before.servers, replies.take(idx as int));
            let ghost tools = reply_tools(idx as int, before.servers[idx as int].prefix, replies[idx as int]);
            proof {
                assert(replies.take(idx + 1).drop_last() =~= replies.take(idx as int));
                assert(all_tools(before.servers, replies.take(idx + 1)) == done + tools);
                lemma_recorded_concat(before.ledger, done, tools);
                lemma_routed_concat(before.routing, done, tools);
                assert(tool_definitions(done + tools) =~= tool_definitions(done) + tool_definitions(tools));
                assert(optional_view(collected@[idx as int]) == replies[idx as int]);
            }
            if let Some(reply) = &collected[idx] {
                self.take_tools(idx, reply, &mut merged);
            } else {
                assert(done + tools =~= done);
            }
            idx = idx + 1;
        }
        assert(replies.take(idx as int) =~= replies);
        let ghost tools = all_tools(before.servers, replies);
        let before_bytes = count_bytes(&merged);
        let shown = compact_tools_for_tier(&merged, self.tier);
        let frame = result_reply(client_id, Json::object().with("tools", Json::array(shown)));
        let line = to_text(&frame);
        assert(frame@ == listing_frame(before.tier, client_id@, tools));
        assert(merged@.len() == views(merged@).len());
        assert(tools.len() == tool_definitions(tools).len());
        self.report(metrics, merged.len(), before_bytes, byte_count(line.as_str()));
        line
    }

    /// Merges the replies to `initialize` into one, and returns its line.
    fn merge_initialize(&self, client_id: Json, collected: Vec<Option<Json>>) -> (line: String)
        ensures
            line@ == json_text(initialize_frame(self@.servers, client_id@, optional_views(collected@))),
    {
        let ghost replies = optional_views(collected@);
        let mut version: Option<Json> = None;
        let mut capabilities = JsonObject::new();
        let mut i: usize = 0;
        assert(capabilities@ =~= merged_capabilities(replies.take(0)));
        while i < collected.len()
            invariant
                i <= collected.len(),
                replies == optional_views(collected@),
                optional_view(version) == first_version(replies.take(i as int)),
                capabilities@ == merged_capabilities(replies.take(i as int)),
            decreases collected.len() - i,
        {
            proof {
                assert(replies.take(i + 1).drop_last() =~= replies.take(i as int));
                assert(replies.take(i + 1).last() == optional_view(collected@[i as int]));
            }
            if let Some(reply) = &collected[i] {
                if let Some(result) = reply.get("result") {
                    if version.is_none() {
                        if let Some(stated) = result.get("protocolVersion") {
                            version = Some(stated.clone());
                        }
                    }
                    if let Some(stated) = result.get_object("capabilities") {
                        capabilities = merge_members(capabilities, stated);
                    }
                }
            }
            i = i + 1;
        }
        assert(replies.take(i as int) =~= replies);
        let version = match version {
            Some(v) => v,
            None => Json::text(PROTOCOL_VERSION),
        };
        let result = Json::object().with("protocolVersion", version).with("serverInfo", self.server_info()).with(
            "capabilities",
            Json::Object(capabilities),
        );
        to_text(&result_reply(client_id, result))
    }

    fn server_info(&self) -> (r: Json)
        ensures
            r@ == server_info(self@.servers),
    {
        let mut names: Vec<Json> = Vec::new();
        let mut i: usize = 0;
        while i < self.servers.len()
            invariant
                i <= self.servers.len(),
                names@.len() == i,
                forall|j: int| 0 <= j < i ==> (#[trigger] names@[j])@ == JsonView::Str(self@.servers[j].name),
            decreases self.servers.len() - i,
        {
            names.push(Json::text(self.servers[i].name.as_str()));
            i = i + 1;
        }
        assert(views(names@) =~= self@.servers.map_values(|s: ServerView| JsonView::Str(s.name)));
        Json::object().with("name", Json::text("mcp-token-gateway")).with("version", Json::text(VERSION)).with(
            "aggregating",
            Json::array(names),
        )
    }

    /// Counts a merged listing, and keeps the savings of the first one.
    fn report(&mut self, metrics: &mut Metrics, tools: usize, before_bytes: usize, after_bytes: usize)
        ensures
            final(metrics)@ == old(metrics)@.with_discovery((before_bytes / 4) as u64, (after_bytes / 4) as u64),
            final(self)@ == (RouterView {
                headline: match old(self)@.headline {
                    Some(first) => Some(first),
                    None => Some(savings(tools as nat, before_bytes, after_bytes)),
                },
                ..old(self)@
            }),
    {
        metrics.record_discovery((before_bytes / 4) as u64, (after_bytes / 4) as u64);
        if self.headline.is_none() {
            self.headline = Some(
                Savings {
                    tools,
                    before_tokens: before_bytes / 4,
                    after_tokens: after_bytes / 4,
                    saved_pct: saved_percent(before_bytes as u64, after_bytes as u64),
                },
            );
        }
    }
}

proof fn lemma_recorded_concat(ledger: Map<Seq<char>, DefinitionView>, a: Seq<ToolView>, b: Seq<ToolView>)
    ensures
        recorded(recorded(ledger, a), b) == recorded(ledger, a + b),
    decreases b.len(),
{
    if b.len() == 0 {
        assert(a + b =~= a);
    } else {
        lemma_recorded_concat(ledger, a, b.drop_last());
        assert((a + b).drop_last() =~= a + b.drop_last());
    }
}

proof fn lemma_routed_concat(routing: Map<Seq<char>, RouteView>, a: Seq<ToolView>, b: Seq<ToolView>)
    ensures
        routed(routed(routing, a), b) == routed(routing, a + b),
    decreases b.len(),
{
    if b.len() == 0 {
        assert(a + b =~= a);
    } else {
        lemma_routed_concat(routing, a, b.drop_last());
        assert((a + b).drop_last() =~= a + b.drop_last());
    }
}

fn count_bytes(items: &Vec<Json>) -> (r: usize)
    ensures
        r == total_bytes(views(items@)),
{
    let ghost all = views(items@);
    let mut total: usize = 0;
    let mut i: usize = 0;
    while i < items.len()
        invariant
            i <= items.len(),
            all == views(items@),
            total == total_bytes(all.take(i as int)),
        decreases items.len() - i,
    {
        proof {
            assert(all.take(i + 1).drop_last() =~= all.take(i as int));
            assert(all.take(i + 1).last() == items@[i as int]@);
        }
        total = total.wrapping_add(byte_count(to_text(&items[i]).as_str()));
        i = i + 1;
    }
    assert(all.take(i as int) =~= all);
    total
}

fn merge_members(into: JsonObject, members: &JsonObject) -> (r: JsonObject)
    ensures
        r@ == merged_members(into@, members@),
{
    let ghost before = into@;
    let mut out = into;
    let mut i: usize = 0;
    while i < members.len()
        invariant
            i <= members@.len(),
            out@ == merged_members(before, members@.take(i as int)),
        decreases members@.len() - i,
    {
        proof {
            assert(members@.take(i + 1).drop_last() =~= members@.take(i as int));
            assert(members@.take(i + 1).last() == members@[i as int]);
        }
        let key = members.key_at(i);
        if out.get(key.as_str()).is_none() {
            out = out.insert(key.clone(), members.value_at(i).clone());
        }
        i = i + 1;
    }
    assert(members@.take(i as int) =~= members@);
    out
}

} // verus!
