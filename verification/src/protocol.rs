//! Helpers for the wire protocol.
//!
//! A frame is one line of JSON-RPC. The gateway reads a frame only to decide
//! where it goes; what it does not rewrite it sends on as it came.
use vstd::prelude::*;

use crate::json::{views, Json, JsonView};
use crate::text::{byte_count, byte_len};
use crate::wire::{json_text, to_text};

verus! {

/// The largest line that is read: tool listings are long.
pub const MAX_LINE_BYTES: usize = 16 * 1024 * 1024;

/// The shape of a frame.
#[derive(Debug, Clone, Copy, PartialEq, Eq)]
pub enum FrameKind<'a> {
    /// A `method` and an `id`.
    Request { method: &'a str },
    /// A `method` and no `id`.
    Notification { method: &'a str },
    /// An `id`, a `result` or an `error`, and no `method`.
    Response,
    /// Anything else.
    Other,
}

/// The mathematical reading of a [`FrameKind`].
pub enum FrameKindView {
    Request(Seq<char>),
    Notification(Seq<char>),
    Response,
    Other,
}

impl<'a> View for FrameKind<'a> {
    type V = FrameKindView;

    open spec fn view(&self) -> FrameKindView {
        match self {
            FrameKind::Request { method } => FrameKindView::Request(method@),
            FrameKind::Notification { method } => FrameKindView::Notification(method@),
            FrameKind::Response => FrameKindView::Response,
            FrameKind::Other => FrameKindView::Other,
        }
    }
}

/// Whether a frame has what an answer has: an `id`, a `result` or an `error`, and no `method`.
pub open spec fn answers(v: JsonView) -> bool {
    &&& v.get("method"@) is None
    &&& v.get("id"@) is Some
    &&& v.get("result"@) is Some || v.get("error"@) is Some
}

/// Tells whether a frame has what an answer has.
pub fn is_answer(v: &Json) -> (r: bool)
    ensures
        r == answers(v@),
{
    v.get("method").is_none() && v.get("id").is_some() && (v.get("result").is_some() || v.get("error").is_some())
}

/// The shape of a frame. An `id` that is `null` counts as none.
pub open spec fn frame_kind(v: JsonView) -> FrameKindView {
    let has_id = v.get("id"@) is Some && !(v.get("id"@)->0 is Null);
    match (v.get_str("method"@), has_id) {
        (Some(method), true) => FrameKindView::Request(method),
        (Some(method), false) => FrameKindView::Notification(method),
        (None, true) => if answers(v) {
            FrameKindView::Response
        } else {
            FrameKindView::Other
        },
        (None, false) => FrameKindView::Other,
    }
}

/// Tells the shape of a frame.
pub fn classify(v: &Json) -> (r: FrameKind<'_>)
    ensures
        r@ == frame_kind(v@),
{
    let has_id = match v.get("id") {
        Some(id) => !id.is_null(),
        None => false,
    };
    match (v.get_str("method"), has_id) {
        (Some(method), true) => FrameKind::Request { method },
        (Some(method), false) => FrameKind::Notification { method },
        (None, true) => if is_answer(v) {
            FrameKind::Response
        } else {
            FrameKind::Other
        },
        (None, false) => FrameKind::Other,
    }
}

/// The tools of a listing: the array at `result.tools`.
pub open spec fn result_tools(v: JsonView) -> Option<Seq<JsonView>> {
    match v.get("result"@) {
        Some(result) => result.get_array("tools"@),
        None => None,
    }
}

/// The tools of a frame that answers `tools/list`. A frame is known for such an answer by its structure.
pub fn tools_list_result(v: &Json) -> (r: Option<&Vec<Json>>)
    ensures
        match r {
            Some(tools) => result_tools(v@) == Some(views(tools@)),
            None => result_tools(v@) is None,
        },
{
    match v.get("result") {
        Some(result) => result.get_array("tools"),
        None => None,
    }
}

/// A rough estimate of the tokens in a value's text: one for every four bytes.
pub fn estimate_tokens(v: &Json) -> (r: usize)
    ensures
        r == byte_len(json_text(v@)) / 4,
{
    byte_count(to_text(v).as_str()) / 4
}

} // verus!
