//! The sessions of the HTTP transport, and what the transport says.
//!
//! Each client that connects gets a session: a router of its own, under an id
//! that the client posts its frames to.
use dashmap::DashMap;
use vstd::prelude::*;
use vstd::string::*;

use crate::cli::Compression;
use crate::json::{integer_json, Json, JsonView};
use crate::metrics::Metrics;
use crate::model::{client_step, upstream_step, RouterView, Savings, ServerView, StepView, VERSION};
use crate::number::{JsonNumber, NumberView};
use crate::router::{frame_views, server_views, Outgoing, Router, ServerInfo};
use crate::tables::optional_view;
use crate::text::{digit, hexadecimal, hexadecimal_text};
use crate::wire::{json_text, parse, parsed, to_text};

verus! {

/// The JSON-RPC error code for an internal error.
pub const INTERNAL_ERROR: i64 = -32603;

/// How many digits a session id has.
pub const SESSION_ID_DIGITS: u64 = 16;

/// The path to which a session's frames are posted.
pub fn endpoint_path(session_id: &str) -> (r: String)
    ensures
        r@ == "/messages?sessionId="@ + session_id@,
{
    let mut out = "/messages?sessionId=".to_owned();
    out.append(session_id);
    out
}

/// The frame that tells a client why no session could be started.
pub open spec fn launch_failure_frame(message: Seq<char>) -> JsonView {
    let error = JsonView::empty_object().with("code"@, integer_json(INTERNAL_ERROR)).with(
        "message"@,
        JsonView::Str(message),
    );
    JsonView::empty_object().with("jsonrpc"@, JsonView::Str("2.0"@)).with("id"@, JsonView::Null).with(
        "error"@,
        error,
    )
}

/// Writes the frame that tells a client why no session could be started.
pub fn launch_failure(message: &str) -> (r: String)
    ensures
        r@ == json_text(launch_failure_frame(message@)),
{
    let error = Json::object().with("code", Json::integer(INTERNAL_ERROR)).with("message", Json::text(message));
    let frame = Json::object().with("jsonrpc", Json::text("2.0")).with("id", Json::Null).with("error", error);
    to_text(&frame)
}

/// The health report after `uptime` seconds.
pub open spec fn health_report(uptime: u64, active_sessions: i64) -> JsonView {
    JsonView::empty_object().with("status"@, JsonView::Str("ok"@)).with(
        "uptime_seconds"@,
        JsonView::Num(NumberView::PosInt(uptime)),
    ).with("active_sessions"@, integer_json(active_sessions)).with("version"@, JsonView::Str(VERSION@))
}

/// Writes the health report for a given uptime.
pub fn health(metrics: &Metrics, uptime: u64) -> (r: String)
    ensures
        r@ == json_text(health_report(uptime, metrics@.active_sessions)),
{
    let report = Json::object().with("status", Json::text("ok")).with(
        "uptime_seconds",
        Json::Num(JsonNumber::from_u64(uptime)),
    ).with("active_sessions", Json::integer(metrics.sessions())).with("version", Json::text(VERSION));
    to_text(&report)
}

// ---------------------------------------------------------------------------
// Sessions
// ---------------------------------------------------------------------------

/// The mathematical reading of a [`Session`].
pub struct SessionView {
    pub router: RouterView,
    pub established: bool,
}

/// One session: its router, and whether its servers were started, so that frames can be posted to it.
pub struct Session {
    pub router: Router,
    pub established: bool,
}

impl View for Session {
    type V = SessionView;

    open spec fn view(&self) -> SessionView {
        SessionView { router: self.router@, established: self.established }
    }
}

/// What a map of sessions holds.
pub uninterp spec fn session_entries(map: DashMap<String, Session>) -> Map<Seq<char>, SessionView>;

/// `DashMap::new`: a map that holds nothing.
#[verifier::external_body]
fn sessions_new() -> (r: DashMap<String, Session>)
    ensures
        (session_entries(r) == Map::<Seq<char>, SessionView>::empty()),
{
    DashMap::new()
}

/// `DashMap::insert`: the key holds the new value, and every other key what it held.
#[verifier::external_body]
fn sessions_insert(map: &mut DashMap<String, Session>, id: String, session: Session)
    ensures
        session_entries(*final(map)) == session_entries(*old(map)).insert(id@, session@),
{
    map.insert(id, session);
}

/// `DashMap::remove`: the value that the key held, if it held one; the key
/// then holds none, and every other key what it held.
#[verifier::external_body]
fn sessions_remove(map: &mut DashMap<String, Session>, id: &str) -> (r: Option<Session>)
    ensures
        session_entries(*final(map)) == session_entries(*old(map)).remove(id@),
        match r {
            Some(session) => session_entries(*old(map)).dom().contains(id@) && session_entries(*old(map))[id@]
                == session@,
            None => !session_entries(*old(map)).dom().contains(id@),
        },
{
    map.remove(id).map(|entry| entry.1)
}

/// The id of the `n`th session: sixteen hexadecimal digits.
pub open spec fn session_id(n: u64) -> Seq<char> {
    hexadecimal(n as nat, SESSION_ID_DIGITS as nat)
}

/// The mathematical reading of an [`SseApp`].
#[verifier::ext_equal]
pub struct SseView {
    pub servers: Seq<ServerView>,
    pub tier: Compression,
    /// The open sessions, by id.
    pub sessions: Map<Seq<char>, SessionView>,
    /// The number of the next session.
    pub next: u64,
}

impl SseView {
    /// Whether every session can route.
    pub open spec fn wf(self) -> bool {
        &&& self.servers.len() > 0
        &&& forall|id: Seq<char>| #[trigger]
            self.sessions.dom().contains(id) ==> self.session_wf(self.sessions[id])
    }

    /// Whether a session can route.
    pub open spec fn session_wf(self, session: SessionView) -> bool {
        session.router.wf() && session.router.servers == self.servers
    }

    /// The sessions after another one was opened under the next id. It is not established yet.
    pub open spec fn with_session(self) -> SseView {
        SseView {
            sessions: self.sessions.insert(
                session_id(self.next),
                SessionView { router: RouterView::initial(self.servers, self.tier), established: false },
            ),
            next: self.next.wrapping_add(1),
            ..self
        }
    }

    /// The sessions after the servers of one were started.
    pub open spec fn with_established(self, id: Seq<char>) -> SseView {
        if self.sessions.dom().contains(id) {
            SseView {
                sessions: self.sessions.insert(id, SessionView { established: true, ..self.sessions[id] }),
                ..self
            }
        } else {
            self
        }
    }

    /// The sessions after one was closed.
    pub open spec fn without_session(self, id: Seq<char>) -> SseView {
        SseView { sessions: self.sessions.remove(id), ..self }
    }

    /// The sessions after the router of one took a step.
    pub open spec fn with_step(self, id: Seq<char>, step: StepView) -> SseView {
        SseView {
            sessions: self.sessions.insert(id, SessionView { router: step.router, ..self.sessions[id] }),
            ..self
        }
    }
}

/// The status of a posted frame: a bad request without a session id, not found
/// where no established session has that id, and accepted otherwise.
pub open spec fn post_status(app: SseView, id: Option<Seq<char>>) -> u16 {
    match id {
        None => 400,
        Some(id) => if app.sessions.dom().contains(id) && app.sessions[id].established {
            202
        } else {
            404
        },
    }
}

/// The sessions of the HTTP transport.
pub struct SseApp {
    server_infos: Vec<ServerInfo>,
    tier: Compression,
    sessions: DashMap<String, Session>,
    session_counter: u64,
}

impl View for SseApp {
    type V = SseView;

    closed spec fn view(&self) -> SseView {
        SseView {
            servers: server_views(self.server_infos@),
            tier: self.tier,
            sessions: session_entries(self.sessions),
            next: self.session_counter,
        }
    }
}

/// What a posted frame brings about: the status to answer, and the frames to send.
#[derive(Debug)]
pub struct Posted {
    pub status: u16,
    pub frames: Vec<Outgoing>,
}

/// The reading of an optional text.
pub open spec fn optional_str(s: Option<&str>) -> Option<Seq<char>> {
    match s {
        Some(s) => Some(s@),
        None => None,
    }
}

impl SseApp {
    /// A transport for the given servers, without any session.
    pub fn new(server_infos: Vec<ServerInfo>, tier: Compression) -> (r: SseApp)
        ensures
            r@ == (SseView { servers: server_views(server_infos@), tier, sessions: Map::empty(), next: 1 }),
            server_infos.len() > 0 ==> r@.wf(),
    {
        SseApp { server_infos, tier, sessions: sessions_new(), session_counter: 1 }
    }

    /// Opens a session with a router of its own, and returns its id. Its
    /// upstreams' lines are taken at once; frames can be posted to it once it is established.
    pub fn open(&mut self) -> (id: String)
        requires
            old(self)@.wf(),
        ensures
            final(self)@.wf(),
            id@ == session_id(old(self)@.next),
            final(self)@ == old(self)@.with_session(),
    {
        let ghost before = self@;
        let id = self.next_id();
        let mut infos: Vec<ServerInfo> = Vec::new();
        let mut i: usize = 0;
        while i < self.server_infos.len()
            invariant
                i <= self.server_infos.len(),
                infos@.len() == i,
                forall|j: int| 0 <= j < i ==> (#[trigger] infos@[j])@ == self.server_infos@[j]@,
            decreases self.server_infos.len() - i,
        {
            infos.push(self.server_infos[i].clone());
            i = i + 1;
        }
        assert(server_views(infos@) =~= before.servers);
        let router = Router::new(infos, self.tier);
        sessions_insert(&mut self.sessions, id.clone(), Session { router, established: false });
        proof {
            assert(self@ =~= before.with_session());
            assert forall|k: Seq<char>| #[trigger] self@.sessions.dom().contains(k) implies self@.session_wf(
                self@.sessions[k],
            ) by {
                if k != id@ {
                    assert(before.sessions.dom().contains(k));
                }
            }
        }
        id
    }

    fn next_id(&mut self) -> (id: String)
        ensures
            id@ == session_id(old(self)@.next),
            final(self)@ == (SseView { next: old(self)@.next.wrapping_add(1), ..old(self)@ }),
    {
        let id = hexadecimal_text(self.session_counter, SESSION_ID_DIGITS);
        self.session_counter = self.session_counter.wrapping_add(1);
        id
    }

    /// Takes note that the servers of a session were started, counts the
    /// session, and returns the path to post its frames to.
    pub fn established(&mut self, metrics: &mut Metrics, id: &str) -> (r: String)
        requires
            old(self)@.wf(),
        ensures
            final(self)@.wf(),
            final(self)@ == old(self)@.with_established(id@),
            final(metrics)@ == old(metrics)@.with_session_started(),
            r@ == "/messages?sessionId="@ + id@,
    {
        let ghost before = self@;
        match self.remove(id) {
            Some(session) => {
                let ready = Session { router: session.router, established: true };
                let ghost end = ready@;
                sessions_insert(&mut self.sessions, id.to_owned(), ready);
                proof {
                    self.lemma_put_back(before, id@, end);
                }
            },
            None => {
                proof {
                    assert(before.sessions.remove(id@) =~= before.sessions);
                    assert(self@ =~= before);
                }
            },
        }
        metrics.session_start();
        endpoint_path(id)
    }

    /// Drops a session whose servers could not be started, and returns the frame that says why.
    pub fn launch_failed(&mut self, id: &str, message: &str) -> (r: String)
        requires
            old(self)@.wf(),
        ensures
            final(self)@.wf(),
            final(self)@ == old(self)@.without_session(id@),
            r@ == json_text(launch_failure_frame(message@)),
    {
        self.remove(id);
        launch_failure(message)
    }

    /// Closes a session. It counts as ended once its servers are shut down.
    pub fn close(&mut self, id: &str)
        requires
            old(self)@.wf(),
        ensures
            final(self)@.wf(),
            final(self)@ == old(self)@.without_session(id@),
    {
        self.remove(id);
    }

    fn remove(&mut self, id: &str) -> (r: Option<Session>)
        requires
            old(self)@.wf(),
        ensures
            final(self)@.wf(),
            final(self)@ == old(self)@.without_session(id@),
            match r {
                Some(session) => old(self)@.sessions.dom().contains(id@) && old(self)@.sessions[id@] == session@,
                None => !old(self)@.sessions.dom().contains(id@),
            },
    {
        let ghost before = self@;
        let session = sessions_remove(&mut self.sessions, id);
        proof {
            assert(self@ =~= before.without_session(id@));
            assert forall|k: Seq<char>| #[trigger] self@.sessions.dom().contains(k) implies self@.session_wf(
                self@.sessions[k],
            ) by {
                assert(before.sessions.dom().contains(k));
            }
        }
        session
    }

    /// Takes a frame that was posted for a session. The reply itself comes as an event.
    pub fn post(&mut self, metrics: &mut Metrics, id: Option<&str>, body: String) -> (r: Posted)
        requires
            old(self)@.wf(),
        ensures
            final(self)@.wf(),
            r.status == post_status(old(self)@, optional_str(id)),
            if r.status == 202 {
                let step = client_step(old(self)@.sessions[id->0@].router, old(metrics)@, parsed(body@), body@);
                &&& final(self)@ == old(self)@.with_step(id->0@, step)
                &&& final(metrics)@ == step.metrics
                &&& frame_views(r.frames@) == step.frames
            } else {
                &&& final(self)@ == old(self)@
                &&& final(metrics)@ == old(metrics)@
                &&& r.frames.len() == 0
            },
    {
        let value = parse(body.as_str());
        self.post_value(metrics, id, value, body)
    }

    /// Takes a posted frame together with what it holds as JSON, if it is JSON.
    pub fn post_value(
        &mut self,
        metrics: &mut Metrics,
        id: Option<&str>,
        value: Option<Json>,
        body: String,
    ) -> (r: Posted)
        requires
            old(self)@.wf(),
        ensures
            final(self)@.wf(),
            r.status == post_status(old(self)@, optional_str(id)),
            if r.status == 202 {
                let step = client_step(
                    old(self)@.sessions[id->0@].router,
                    old(metrics)@,
                    optional_view(value),
                    body@,
                );
                &&& final(self)@ == old(self)@.with_step(id->0@, step)
                &&& final(metrics)@ == step.metrics
                &&& frame_views(r.frames@) == step.frames
            } else {
                &&& final(self)@ == old(self)@
                &&& final(metrics)@ == old(metrics)@
                &&& r.frames.len() == 0
            },
    {
        let ghost before = self@;
        let id = match id {
            Some(id) => id,
            None => {
                return Posted { status: 400, frames: Vec::new() };
            },
        };
        match self.remove(id) {
            Some(session) => {
                let Session { router, established } = session;
                let mut router = router;
                let mut status: u16 = 404;
                let mut frames: Vec<Outgoing> = Vec::new();
                if established {
                    status = 202;
                    frames = router.on_client_value(metrics, value, body);
                }
                let now = Session { router, established };
                let ghost end = now@;
                sessions_insert(&mut self.sessions, id.to_owned(), now);
                proof {
                    self.lemma_put_back(before, id@, end);
                    if !established {
                        assert(self@.sessions =~= before.sessions);
                        assert(self@ =~= before);
                    }
                }
                Posted { status, frames }
            },
            None => {
                proof {
                    assert(before.sessions.remove(id@) =~= before.sessions);
                    assert(self@ =~= before);
                }
                Posted { status: 404, frames: Vec::new() }
            },
        }
    }

    /// Takes a line that was read from an upstream of a session. Once the session is closed, nothing comes of it.
    pub fn upstream_line(&mut self, metrics: &mut Metrics, id: &str, server_idx: usize, line: String) -> (frames: Vec<
        Outgoing,
    >)
        requires
            old(self)@.wf(),
            server_idx < old(self)@.servers.len(),
        ensures
            final(self)@.wf(),
            if old(self)@.sessions.dom().contains(id@) {
                let step = upstream_step(
                    old(self)@.sessions[id@].router,
                    old(metrics)@,
                    server_idx as int,
                    parsed(line@),
                    line@,
                );
                &&& final(self)@ == old(self)@.with_step(id@, step)
                &&& final(metrics)@ == step.metrics
                &&& frame_views(frames@) == step.frames
            } else {
                &&& final(self)@ == old(self)@
                &&& final(metrics)@ == old(metrics)@
                &&& frames.len() == 0
            },
    {
        let value = parse(line.as_str());
        self.upstream_value(metrics, id, server_idx, value, line)
    }

    /// Takes a line from an upstream together with what it holds as JSON, if it is JSON.
    pub fn upstream_value(
        &mut self,
        metrics: &mut Metrics,
        id: &str,
        server_idx: usize,
        value: Option<Json>,
        line: String,
    ) -> (frames: Vec<Outgoing>)
        requires
            old(self)@.wf(),
            server_idx < old(self)@.servers.len(),
        ensures
            final(self)@.wf(),
            if old(self)@.sessions.dom().contains(id@) {
                let step = upstream_step(
                    old(self)@.sessions[id@].router,
                    old(metrics)@,
                    server_idx as int,
                    optional_view(value),
                    line@,
                );
                &&& final(self)@ == old(self)@.with_step(id@, step)
                &&& final(metrics)@ == step.metrics
                &&& frame_views(frames@) == step.frames
            } else {
                &&& final(self)@ == old(self)@
                &&& final(metrics)@ == old(metrics)@
                &&& frames.len() == 0
            },
    {
        let ghost before = self@;
        match self.remove(id) {
            Some(session) => {
                let Session { router, established } = session;
                let mut router = router;
                let frames = router.on_upstream_value(metrics, server_idx, value, line);
                let now = Session { router, established };
                let ghost end = now@;
                sessions_insert(&mut self.sessions, id.to_owned(), now);
                proof {
                    self.lemma_put_back(before, id@, end);
                }
                frames
            },
            None => {
                proof {
                    assert(before.sessions.remove(id@) =~= before.sessions);
                    assert(self@ =~= before);
                }
                Vec::new()
            },
        }
    }

    /// The savings of the first listing that was merged in a session, once there is one.
    pub fn savings(&mut self, id: &str) -> (r: Option<Savings>)
        requires
            old(self)@.wf(),
        ensures
            final(self)@.wf(),
            final(self)@ == old(self)@,
            r == (if old(self)@.sessions.dom().contains(id@) {
                old(self)@.sessions[id@].router.headline
            } else {
                None
            }),
    {
        let ghost before = self@;
        match self.remove(id) {
            Some(session) => {
                let savings = session.router.savings();
                let ghost end = session@;
                sessions_insert(&mut self.sessions, id.to_owned(), session);
                proof {
                    self.lemma_put_back(before, id@, end);
                    assert(self@.sessions =~= before.sessions);
                    assert(self@ =~= before);
                }
                savings
            },
            None => {
                proof {
                    assert(before.sessions.remove(id@) =~= before.sessions);
                    assert(self@ =~= before);
                }
                None
            },
        }
    }

    /// A session that was taken out and put back in its next state.
    proof fn lemma_put_back(self, before: SseView, id: Seq<char>, end: SessionView)
        requires
            before.wf(),
            before.session_wf(end),
            self@ == (SseView { sessions: before.sessions.remove(id).insert(id, end), ..before }),
        ensures
            self@ == (SseView { sessions: before.sessions.insert(id, end), ..before }),
            self@.wf(),
    {
        assert(self@.sessions =~= before.sessions.insert(id, end));
        assert forall|k: Seq<char>| #[trigger] self@.sessions.dom().contains(k) implies self@.session_wf(
            self@.sessions[k],
        ) by {
            if k != id {
                assert(before.sessions.dom().contains(k));
            }
        }
    }
}

// ---------------------------------------------------------------------------
// Sessions are kept apart
// ---------------------------------------------------------------------------

proof fn lemma_hexadecimal_injective(a: nat, b: nat, width: nat, limit: nat)
    requires
        limit == pow16(width),
        a < limit,
        b < limit,
        hexadecimal(a, width) == hexadecimal(b, width),
    ensures
        a == b,
    decreases width,
{
    if width > 0 {
        let w = (width - 1) as nat;
        let ha = hexadecimal(a, width);
        let hb = hexadecimal(b, width);
        assert(ha.drop_last() =~= hexadecimal(a / 16, w));
        assert(hb.drop_last() =~= hexadecimal(b / 16, w));
        assert(ha.last() == digit(a % 16));
        assert(hb.last() == digit(b % 16));
        assert(a % 16 == b % 16);
        assert(limit == 16 * pow16(w));
        lemma_hexadecimal_injective(a / 16, b / 16, w, pow16(w));
    }
}

/// Sixteen to the power of `n`.
pub open spec fn pow16(n: nat) -> nat
    decreases n,
{
    if n == 0 {
        1
    } else {
        16 * pow16((n - 1) as nat)
    }
}

/// Two sessions never have the same id, until the counter has gone through all its values.
pub proof fn lemma_session_ids_differ(a: u64, b: u64)
    requires
        a != b,
    ensures
        session_id(a) != session_id(b),
{
    reveal_with_fuel(pow16, 17);
    assert(pow16(16) == 0x1_0000_0000_0000_0000);
    if session_id(a) == session_id(b) {
        lemma_hexadecimal_injective(a as nat, b as nat, 16, pow16(16));
    }
}

/// Whether every session has the id of a number that was taken before.
pub open spec fn ids_were_taken(app: SseView) -> bool {
    forall|id: Seq<char>| #[trigger]
        app.sessions.dom().contains(id) ==> exists|n: u64| n < app.next && id == #[trigger] session_id(n)
}

/// A session that is opened never takes the place of another: its id is not in
/// use, and every other session stays as it is. Frames can be posted to it once
/// it is established, and not before.
pub proof fn lemma_opened_session_is_new(app: SseView, other: Seq<char>)
    requires
        ids_were_taken(app),
        app.next < u64::MAX,
    ensures
        !app.sessions.dom().contains(session_id(app.next)),
        post_status(app.with_session(), Some(session_id(app.next))) == 404,
        post_status(app.with_session().with_established(session_id(app.next)), Some(session_id(app.next))) == 202,
        app.sessions.dom().contains(other) ==> app.with_session().sessions.dom().contains(other)
            && app.with_session().sessions[other] == app.sessions[other],
        ids_were_taken(app.with_session()),
{
    let id = session_id(app.next);
    let out = app.with_session();
    if app.sessions.dom().contains(id) {
        let n = choose|n: u64| n < app.next && id == #[trigger] session_id(n);
        lemma_session_ids_differ(n, app.next);
    }
    assert forall|k: Seq<char>| #[trigger] out.sessions.dom().contains(k) implies exists|n: u64|
        n < out.next && k == #[trigger] session_id(n) by {
        if k == id {
            assert(app.next < out.next && k == session_id(app.next));
        } else {
            assert(app.sessions.dom().contains(k));
            let n = choose|n: u64| n < app.next && k == #[trigger] session_id(n);
            assert(n < out.next && k == session_id(n));
        }
    }
}

/// What happens in one session leaves every other as it is.
pub proof fn lemma_sessions_are_isolated(app: SseView, id: Seq<char>, step: StepView, other: Seq<char>)
    requires
        other != id,
    ensures
        app.with_step(id, step).sessions.dom().contains(other) == app.sessions.dom().contains(other),
        app.with_step(id, step).sessions[other] == app.sessions[other],
        app.with_established(id).sessions.dom().contains(other) == app.sessions.dom().contains(other),
        app.with_established(id).sessions[other] == app.sessions[other],
        app.without_session(id).sessions.dom().contains(other) == app.sessions.dom().contains(other),
        app.without_session(id).sessions[other] == app.sessions[other],
{
}

/// Once a session is closed, no frame can be posted to it.
pub proof fn lemma_closed_session_is_not_found(app: SseView, id: Seq<char>)
    ensures
        post_status(app.without_session(id), Some(id)) == 404,
{
}

} // verus!
