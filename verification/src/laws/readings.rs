//! What the mathematical readings of values are: each part is read as itself,
//! and lists are read item by item.
use vstd::prelude::*;

use crate::cli::{outcome, Cli, Outcome, Request};
use crate::config::{spec_views, ConfigError, ProblemView, ServerSpec};
use crate::json::{ascending, entry_views, views, Json, JsonView};
use crate::ledger::VerboseToolDefinition;
use crate::metrics::Metrics;
use crate::model::FrameView;
use crate::number::NumberView;
use crate::protocol::{FrameKind, FrameKindView};
use crate::router::{frame_views, server_views, Outgoing, ServerInfo};
use crate::sse::{optional_str, Session};
use crate::tables::{optional_view, optional_views, FanOut, PendingResp, PendingView, ToolRoute};
use crate::text::texts;
use crate::validator::{reports, FailureView, ValidationError};

verus! {

/// A JSON value is read as the value it is, with the same contents.
pub proof fn lemma_json_is_read(v: Json, i: int)
    ensures
        match v {
            Json::Null => v@ is Null,
            Json::Bool(b) => v@ == JsonView::Bool(b),
            Json::Num(n) => v@ == JsonView::Num(n@),
            Json::Str(s) => v@ == JsonView::Str(s@),
            Json::Array(items) => {
                &&& v@ is Array && v@->Array_0.len() == items@.len()
                &&& 0 <= i < items@.len() ==> v@->Array_0[i] == items@[i]@
            },
            Json::Object(o) => v@ == JsonView::Object(o@),
        },
{
}

/// Lists are read item by item, in order.
pub proof fn lemma_lists_are_read(
    items: Seq<Json>,
    entries: Seq<(String, Json)>,
    parts: Seq<String>,
    replies: Seq<Option<Json>>,
    i: int,
)
    ensures
        views(items).len() == items.len(),
        0 <= i < items.len() ==> views(items)[i] == items[i]@,
        entry_views(entries).len() == entries.len(),
        0 <= i < entries.len() ==> entry_views(entries)[i] == (entries[i].0@, entries[i].1@),
        texts(parts).len() == parts.len(),
        0 <= i < parts.len() ==> texts(parts)[i] == parts[i]@,
        optional_views(replies).len() == replies.len(),
        0 <= i < replies.len() ==> optional_views(replies)[i] == optional_view(replies[i]),
{
}

/// What is there is read, and what is not there is not.
pub proof fn lemma_options_are_read(v: Json, s: &str)
    ensures
        optional_view(Some(v)) == Some(v@),
        optional_view(None) is None,
        optional_str(Some(s)) == Some(s@),
        optional_str(None) is None,
{
}

/// Servers and frames are read one for one, each with its parts.
pub proof fn lemma_servers_and_frames_are_read(
    servers: Seq<ServerInfo>,
    specs: Seq<ServerSpec>,
    frames: Seq<Outgoing>,
    i: int,
)
    ensures
        server_views(servers).len() == servers.len(),
        0 <= i < servers.len() ==> server_views(servers)[i].name == servers[i].name@ && server_views(servers)[i].prefix
            == servers[i].prefix@,
        spec_views(specs).len() == specs.len(),
        0 <= i < specs.len() ==> {
            &&& spec_views(specs)[i].name == specs[i].name@
            &&& spec_views(specs)[i].command == specs[i].command@
            &&& spec_views(specs)[i].args == texts(specs[i].args@)
        },
        frame_views(frames).len() == frames.len(),
        0 <= i < frames.len() ==> match frames[i] {
            Outgoing::ToClient(line) => frame_views(frames)[i] == FrameView::ToClient(line@),
            Outgoing::ToUpstream(to, line) => frame_views(frames)[i] == FrameView::ToUpstream(to as int, line@),
        },
{
}

/// What the router notes is read with its parts.
pub proof fn lemma_notes_are_read(p: PendingResp, f: FanOut, t: ToolRoute, d: VerboseToolDefinition, s: Session)
    ensures
        match p {
            PendingResp::Forward { client_id } => p@ == PendingView::Forward(client_id@),
            PendingResp::FanOutMember { fanout_id } => p@ == PendingView::FanOutMember(fanout_id),
        },
        f@.client_id == f.client_id@ && f@.kind == f.kind && f@.remaining == f.remaining,
        f@.collected == optional_views(f.collected@),
        t@.server_idx == t.server_idx && t@.original_name == t.original_name@,
        d@.name == d.name@ && d@.input_schema == d.input_schema@,
        s@.router == s.router@ && s@.established == s.established,
{
}

/// A failure is read as its path and its reason, and a result reports it
/// exactly if it is an error with these.
pub proof fn lemma_failures_are_read(e: ValidationError, f: FailureView)
    ensures
        e@.path == e.path@ && e@.reason == e.reason@,
        reports(Ok(()), None),
        !reports(Ok(()), Some(f)),
        !reports(Err(e), None),
        reports(Err(e), Some(f)) <==> e.path@ == f.path && e.reason@ == f.reason,
{
}

/// What the arguments ask for is read as it is.
pub proof fn lemma_requests_are_read(cli: Cli, e: String)
    ensures
        cli@.compression == cli.compression && cli@.verbose == cli.verbose,
        cli@.command == texts(cli.command@),
        match cli.config {
            Some(path) => cli@.config == Some(path@),
            None => cli@.config is None,
        },
        match cli.listen {
            Some(address) => cli@.listen == Some(address@),
            None => cli@.listen is None,
        },
        outcome(Ok(Request::Help)) == Outcome::Help,
        outcome(Ok(Request::Version)) == Outcome::Version,
        outcome(Ok(Request::Run(cli))) == Outcome::Run(cli@),
        outcome(Err(e)) == Outcome::Refused(e@),
{
}

/// A problem of a configuration, and the shape of a frame, are read as what they are.
pub proof fn lemma_kinds_are_read(p: ConfigError, k: FrameKind)
    ensures
        match p {
            ConfigError::NoServers => p@ is NoServers,
            ConfigError::EmptyName => p@ is EmptyName,
            ConfigError::InvalidName(name) => p@ == ProblemView::InvalidName(name@),
            ConfigError::DuplicateName(name) => p@ == ProblemView::DuplicateName(name@),
            ConfigError::EmptyCommand(name) => p@ == ProblemView::EmptyCommand(name@),
        },
        match k {
            FrameKind::Request { method } => k@ == FrameKindView::Request(method@),
            FrameKind::Notification { method } => k@ == FrameKindView::Notification(method@),
            FrameKind::Response => k@ is Response,
            FrameKind::Other => k@ is Other,
        },
{
}

/// The counters are read as they stand.
pub proof fn lemma_counters_are_read(m: Metrics)
    ensures
        m@.start == m.start,
        m@.tools_list_total == m.tools_list_total,
        m@.tokens_before_total == m.tokens_before_total,
        m@.tokens_after_total == m.tokens_after_total,
        m@.tools_call_total == m.tools_call_total,
        m@.tools_call_forwarded == m.tools_call_forwarded,
        m@.tools_call_rejected == m.tools_call_rejected,
        m@.active_sessions == m.active_sessions,
{
}

/// A value is well formed exactly if every object in it has its names in
/// ascending order, every negative integer is one, and every double is finite.
pub proof fn lemma_well_formed_values(v: JsonView)
    ensures
        match v {
            JsonView::Num(NumberView::NegInt(n)) => v.wf() <==> n < 0,
            JsonView::Num(NumberView::Float(bits)) => v.wf() <==> (bits / 0x10_0000_0000_0000) % 0x800 != 0x7ff,
            JsonView::Array(items) => v.wf() <==> forall|i: int| 0 <= i < items.len() ==> (#[trigger] items[i]).wf(),
            JsonView::Object(members) => v.wf() <==> ascending(members) && forall|i: int|
                0 <= i < members.len() ==> (#[trigger] members[i]).1.wf(),
            _ => v.wf(),
        },
{
}

} // verus!
