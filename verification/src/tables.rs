//! The router's tables.
//!
//! Each table is a concurrent hash map of dashmap. The contents of each are
//! named by a spec function, and the operations on it are stated over that name.
use dashmap::DashMap;
use vstd::prelude::*;

use crate::json::{Json, JsonView};

verus! {

// ---------------------------------------------------------------------------
// What the tables hold
// ---------------------------------------------------------------------------

/// The mathematical reading of a [`PendingResp`].
pub enum PendingView {
    Forward(JsonView),
    FanOutMember(u64),
}

/// What to do with the reply to a request that was sent to an upstream.
#[derive(Debug)]
pub enum PendingResp {
    /// Send it on to the client under the client's own id.
    Forward { client_id: Json },
    /// Collect it into a fan-out, which is answered when all its members are in.
    FanOutMember { fanout_id: u64 },
}

impl View for PendingResp {
    type V = PendingView;

    open spec fn view(&self) -> PendingView {
        match self {
            PendingResp::Forward { client_id } => PendingView::Forward(client_id@),
            PendingResp::FanOutMember { fanout_id } => PendingView::FanOutMember(*fanout_id),
        }
    }
}

/// Which request was fanned out.
#[derive(Debug, Clone, Copy, PartialEq, Eq, Structural)]
pub enum FanOutKind {
    ToolsList,
    Initialize,
}

/// The mathematical reading of a [`FanOut`].
pub struct FanOutView {
    pub client_id: JsonView,
    pub kind: FanOutKind,
    pub remaining: nat,
    pub collected: Seq<Option<JsonView>>,
}

/// A request that was sent to every upstream: whom to answer, and the replies
/// so far, by upstream.
#[derive(Debug)]
pub struct FanOut {
    pub client_id: Json,
    pub kind: FanOutKind,
    pub remaining: usize,
    pub collected: Vec<Option<Json>>,
}

/// The reading of an optional value.
pub open spec fn optional_view(v: Option<Json>) -> Option<JsonView> {
    match v {
        Some(v) => Some(v@),
        None => None,
    }
}

/// The readings of optional values.
pub open spec fn optional_views(items: Seq<Option<Json>>) -> Seq<Option<JsonView>> {
    items.map_values(|v: Option<Json>| optional_view(v))
}

impl View for FanOut {
    type V = FanOutView;

    open spec fn view(&self) -> FanOutView {
        FanOutView {
            client_id: self.client_id@,
            kind: self.kind,
            remaining: self.remaining as nat,
            collected: optional_views(self.collected@),
        }
    }
}

/// The mathematical reading of a [`ToolRoute`].
pub struct RouteView {
    pub server_idx: int,
    pub original_name: Seq<char>,
}

/// Where a tool is served.
#[derive(Debug)]
pub struct ToolRoute {
    pub server_idx: usize,
    /// The tool's name as the upstream knows it.
    pub original_name: String,
}

impl View for ToolRoute {
    type V = RouteView;

    open spec fn view(&self) -> RouteView {
        RouteView { server_idx: self.server_idx as int, original_name: self.original_name@ }
    }
}

impl Clone for ToolRoute {
    fn clone(&self) -> (r: ToolRoute)
        ensures
            r@ == self@,
    {
        ToolRoute { server_idx: self.server_idx, original_name: self.original_name.clone() }
    }
}

// ---------------------------------------------------------------------------
// Requests that wait for a reply
// ---------------------------------------------------------------------------

/// What a map of pending requests holds.
pub uninterp spec fn pending_entries(map: DashMap<i64, PendingResp>) -> Map<i64, PendingView>;

/// `DashMap::new`: a map that holds nothing.
#[verifier::external_body]
pub(crate) fn pending_new() -> (r: DashMap<i64, PendingResp>)
    ensures
        (pending_entries(r) == Map::<i64, PendingView>::empty()),
{
    DashMap::new()
}

/// `DashMap::insert`: the key holds the new value, and every other key what it held.
#[verifier::external_body]
pub(crate) fn pending_insert(map: &mut DashMap<i64, PendingResp>, id: i64, pending: PendingResp)
    ensures
        pending_entries(*final(map)) == pending_entries(*old(map)).insert(id, pending@),
{
    map.insert(id, pending);
}

/// `DashMap::remove`: the value that the key held, if it held one; the key
/// then holds none, and every other key what it held.
#[verifier::external_body]
pub(crate) fn pending_remove(map: &mut DashMap<i64, PendingResp>, id: i64) -> (r: Option<PendingResp>)
    ensures
        pending_entries(*final(map)) == pending_entries(*old(map)).remove(id),
        match r {
            Some(p) => pending_entries(*old(map)).dom().contains(id) && pending_entries(*old(map))[id] == p@,
            None => !pending_entries(*old(map)).dom().contains(id),
        },
{
    map.remove(&id).map(|entry| entry.1)
}

// ---------------------------------------------------------------------------
// Fan-outs
// ---------------------------------------------------------------------------

/// What a map of fan-outs holds.
pub uninterp spec fn fanout_entries(map: DashMap<u64, FanOut>) -> Map<u64, FanOutView>;

/// `DashMap::new`: a map that holds nothing.
#[verifier::external_body]
pub(crate) fn fanouts_new() -> (r: DashMap<u64, FanOut>)
    ensures
        (fanout_entries(r) == Map::<u64, FanOutView>::empty()),
{
    DashMap::new()
}

/// `DashMap::insert`: the key holds the new value, and every other key what it held.
#[verifier::external_body]
pub(crate) fn fanouts_insert(map: &mut DashMap<u64, FanOut>, id: u64, fanout: FanOut)
    ensures
        fanout_entries(*final(map)) == fanout_entries(*old(map)).insert(id, fanout@),
{
    map.insert(id, fanout);
}

/// `DashMap::remove`: the value that the key held, if it held one; the key
/// then holds none, and every other key what it held.
#[verifier::external_body]
pub(crate) fn fanouts_remove(map: &mut DashMap<u64, FanOut>, id: u64) -> (r: Option<FanOut>)
    ensures
        fanout_entries(*final(map)) == fanout_entries(*old(map)).remove(id),
        match r {
            Some(f) => fanout_entries(*old(map)).dom().contains(id) && fanout_entries(*old(map))[id] == f@,
            None => !fanout_entries(*old(map)).dom().contains(id),
        },
{
    map.remove(&id).map(|entry| entry.1)
}

// ---------------------------------------------------------------------------
// Routes
// ---------------------------------------------------------------------------

/// What a map of routes holds.
pub uninterp spec fn route_entries(map: DashMap<String, ToolRoute>) -> Map<Seq<char>, RouteView>;

/// `DashMap::new`: a map that holds nothing.
#[verifier::external_body]
pub(crate) fn routes_new() -> (r: DashMap<String, ToolRoute>)
    ensures
        (route_entries(r) == Map::<Seq<char>, RouteView>::empty()),
{
    DashMap::new()
}

/// `DashMap::insert`: the key holds the new value, and every other key what it held.
#[verifier::external_body]
pub(crate) fn routes_insert(map: &mut DashMap<String, ToolRoute>, name: String, route: ToolRoute)
    ensures
        route_entries(*final(map)) == route_entries(*old(map)).insert(name@, route@),
{
    map.insert(name, route);
}

/// `DashMap::get`: a copy of the value that the key holds, if it holds one.
#[verifier::external_body]
pub(crate) fn routes_get(map: &DashMap<String, ToolRoute>, name: &str) -> (r: Option<ToolRoute>)
    ensures
        match r {
            Some(route) => route_entries(*map).dom().contains(name@) && route_entries(*map)[name@] == route@,
            None => !route_entries(*map).dom().contains(name@),
        },
{
    map.get(name).map(|entry| entry.value().clone())
}

} // verus!
