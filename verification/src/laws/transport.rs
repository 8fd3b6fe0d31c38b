//! Sessions of the HTTP transport.
use vstd::prelude::*;

use crate::laws::texts::{lemma_hexadecimal_means_its_number, numeral_value};
use crate::model::{RouterView, StepView};
use crate::sse::{post_status, pow16, session_id, SseView};

verus! {

/// A posted frame without a session id is a bad request; with one, it is taken
/// exactly if that session is open and established, and its session is not found otherwise.
pub proof fn lemma_status_of_a_post(app: SseView, id: Seq<char>)
    ensures
        post_status(app, None) == 400,
        app.sessions.dom().contains(id) && app.sessions[id].established ==> post_status(app, Some(id)) == 202,
        !app.sessions.dom().contains(id) ==> post_status(app, Some(id)) == 404,
        app.sessions.dom().contains(id) && !app.sessions[id].established ==> post_status(app, Some(id)) == 404,
{
}

/// A session's id is its number in sixteen hexadecimal digits, lower-case ones.
pub proof fn lemma_session_ids(n: u64)
    ensures
        session_id(n).len() == 16,
        numeral_value(session_id(n), 16) == n,
        forall|i: int|
            0 <= i < 16 ==> ('0' <= #[trigger] session_id(n)[i] && session_id(n)[i] <= '9') || ('a' <= session_id(n)[i]
                && session_id(n)[i] <= 'f'),
{
    reveal_with_fuel(pow16, 17);
    assert(pow16(16) == 0x1_0000_0000_0000_0000);
    lemma_hexadecimal_means_its_number(n as nat, 16);
}

/// A session that is opened is there under the next id, with a new router for
/// the same servers and the same tier, and is not established; the number moves on.
pub proof fn lemma_opening(app: SseView, other: Seq<char>)
    ensures
        ({
            let after = app.with_session();
            let id = session_id(app.next);
            &&& after.sessions.dom().contains(id)
            &&& after.sessions[id].router == RouterView::initial(app.servers, app.tier)
            &&& !after.sessions[id].established
            &&& other != id ==> after.sessions.dom().contains(other) == app.sessions.dom().contains(other)
                && after.sessions[other] == app.sessions[other]
            &&& after.next == app.next.wrapping_add(1)
            &&& after.servers == app.servers && after.tier == app.tier
        }),
{
}

/// Establishing a session marks it and leaves its router as it is; an unknown id changes nothing.
pub proof fn lemma_establishing(app: SseView, id: Seq<char>)
    ensures
        app.sessions.dom().contains(id) ==> {
            let after = app.with_established(id);
            &&& after.sessions.dom().contains(id)
            &&& after.sessions[id].established
            &&& after.sessions[id].router == app.sessions[id].router
            &&& after.next == app.next && after.servers == app.servers && after.tier == app.tier
        },
        !app.sessions.dom().contains(id) ==> app.with_established(id) == app,
{
}

/// Closing a session takes it away, and nothing else.
pub proof fn lemma_closing(app: SseView, id: Seq<char>, other: Seq<char>)
    ensures
        ({
            let after = app.without_session(id);
            &&& !after.sessions.dom().contains(id)
            &&& other != id ==> after.sessions.dom().contains(other) == app.sessions.dom().contains(other)
                && after.sessions[other] == app.sessions[other]
            &&& after.next == app.next && after.servers == app.servers && after.tier == app.tier
        }),
{
}

/// A step in a session moves that session's router on and leaves whether it is established.
pub proof fn lemma_stepping(app: SseView, id: Seq<char>, step: StepView)
    ensures
        ({
            let after = app.with_step(id, step);
            &&& after.sessions.dom().contains(id)
            &&& after.sessions[id].router == step.router
            &&& after.sessions[id].established == app.sessions[id].established
            &&& after.next == app.next && after.servers == app.servers && after.tier == app.tier
        }),
{
}

/// A session can route if its router's tables fit and it routes to the transport's servers.
pub proof fn lemma_sessions_that_route(app: SseView, id: Seq<char>)
    requires
        app.wf(),
        app.sessions.dom().contains(id),
    ensures
        app.servers.len() > 0,
        app.sessions[id].router.servers == app.servers,
        app.sessions[id].router.wf(),
{
}

} // verus!
