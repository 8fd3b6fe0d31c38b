//! What stands in the frames that the gateway writes itself.
use vstd::prelude::*;

use crate::cli::Compression;
use crate::json::{ascending, integer_json, lemma_key_index, lemma_slot, lemma_with_member_ascending};
use crate::json::{lemma_with_then_get, slot, JsonView, Members};
use crate::model::{call_params, first_version, initialize_frame, invalid_params_frame, listing_frame};
use crate::model::{merged_capabilities, request_frame, result_frame, server_info, tier_tools, tool_definitions};
use crate::model::{any_object, ServerView, ToolView};
use crate::number::NumberView;
use crate::sse::{health_report, launch_failure_frame};
use crate::validator::FailureView;

verus! {

// ---------------------------------------------------------------------------
// Objects with given members
// ---------------------------------------------------------------------------

/// Whether one of the given members has that name.
pub open spec fn names(parts: Members, key: Seq<char>) -> bool {
    exists|i: int| 0 <= i < parts.len() && (#[trigger] parts[i]).0 == key
}

/// Whether a value is an object with the given members and no others, in ascending order of their names.
pub open spec fn holds_exactly(v: JsonView, parts: Members) -> bool {
    &&& v is Object
    &&& ascending(v->Object_0)
    &&& v->Object_0.len() == parts.len()
    &&& forall|i: int| 0 <= i < parts.len() ==> v.get((#[trigger] parts[i]).0) == Some(parts[i].1)
    &&& forall|key: Seq<char>| (#[trigger] v.get(key)) is Some ==> names(parts, key)
}

proof fn lemma_empty()
    ensures
        holds_exactly(JsonView::empty_object(), Seq::empty()),
{
}

proof fn lemma_add(v: JsonView, parts: Members, key: Seq<char>, value: JsonView)
    requires
        holds_exactly(v, parts),
        forall|i: int| 0 <= i < parts.len() ==> (#[trigger] parts[i]).0 != key,
    ensures
        holds_exactly(v.with(key, value), parts.push((key, value))),
{
    let members = v->Object_0;
    let out = v.with(key, value);
    let all = parts.push((key, value));
    lemma_with_member_ascending(members, key, value);
    lemma_with_then_get(v, key, value, key);
    assert(!names(parts, key));
    assert(v.get(key) is None);
    lemma_key_index(members, key);
    lemma_slot(members, key);
    let i = slot(members, key);
    assert(i < members.len() ==> members[i].0 != key);
    assert(out->Object_0.len() == members.len() + 1);
    assert forall|k: int| 0 <= k < all.len() implies out.get((#[trigger] all[k]).0) == Some(all[k].1) by {
        if k < parts.len() {
            assert(all[k] == parts[k]);
            lemma_with_then_get(v, key, value, parts[k].0);
        }
    }
    assert forall|other: Seq<char>| (#[trigger] out.get(other)) is Some implies names(all, other) by {
        if other == key {
            assert(all[parts.len() as int].0 == other);
        } else {
            lemma_with_then_get(v, key, value, other);
            let k = choose|k: int| 0 <= k < parts.len() && (#[trigger] parts[k]).0 == other;
            assert(all[k].0 == other);
        }
    }
}

proof fn lemma_one(a: Seq<char>, x: JsonView)
    ensures
        holds_exactly(JsonView::empty_object().with(a, x), seq![(a, x)]),
{
    lemma_empty();
    lemma_add(JsonView::empty_object(), Seq::empty(), a, x);
    assert(Seq::<(Seq<char>, JsonView)>::empty().push((a, x)) =~= seq![(a, x)]);
}

proof fn lemma_two(a: Seq<char>, x: JsonView, b: Seq<char>, y: JsonView)
    requires
        a != b,
    ensures
        holds_exactly(JsonView::empty_object().with(a, x).with(b, y), seq![(a, x), (b, y)]),
{
    lemma_one(a, x);
    lemma_add(JsonView::empty_object().with(a, x), seq![(a, x)], b, y);
    assert(seq![(a, x)].push((b, y)) =~= seq![(a, x), (b, y)]);
}

proof fn lemma_three(a: Seq<char>, x: JsonView, b: Seq<char>, y: JsonView, c: Seq<char>, z: JsonView)
    requires
        a != b,
        a != c,
        b != c,
    ensures
        holds_exactly(JsonView::empty_object().with(a, x).with(b, y).with(c, z), seq![(a, x), (b, y), (c, z)]),
{
    lemma_two(a, x, b, y);
    lemma_add(JsonView::empty_object().with(a, x).with(b, y), seq![(a, x), (b, y)], c, z);
    assert(seq![(a, x), (b, y)].push((c, z)) =~= seq![(a, x), (b, y), (c, z)]);
}

// ---------------------------------------------------------------------------
// Requests and replies
// ---------------------------------------------------------------------------

proof fn lemma_frame_members()
    ensures
        "jsonrpc"@ != "id"@ && "jsonrpc"@ != "method"@ && "jsonrpc"@ != "params"@ && "jsonrpc"@ != "result"@,
        "jsonrpc"@ != "error"@ && "id"@ != "method"@ && "id"@ != "params"@ && "id"@ != "result"@ && "id"@ != "error"@,
        "method"@ != "params"@ && "name"@ != "arguments"@ && "code"@ != "message"@ && "code"@ != "data"@,
        "message"@ != "data"@ && "tool"@ != "path"@ && "tool"@ != "reason"@ && "path"@ != "reason"@,
{
    reveal_strlit("jsonrpc");
    reveal_strlit("id");
    reveal_strlit("method");
    reveal_strlit("params");
    reveal_strlit("result");
    reveal_strlit("error");
    reveal_strlit("name");
    reveal_strlit("arguments");
    reveal_strlit("code");
    reveal_strlit("message");
    reveal_strlit("data");
    reveal_strlit("tool");
    reveal_strlit("path");
    reveal_strlit("reason");
    assert("jsonrpc"@.len() == 7 && "id"@.len() == 2 && "result"@.len() == 6 && "error"@.len() == 5);
    assert("method"@.len() == 6 && "method"@[0] == 'm' && "params"@.len() == 6 && "params"@[0] == 'p');
    assert("name"@.len() == 4 && "arguments"@.len() == 9 && "message"@.len() == 7 && "reason"@.len() == 6);
    assert("code"@.len() == 4 && "code"@[0] == 'c' && "data"@.len() == 4 && "data"@[0] == 'd');
    assert("tool"@.len() == 4 && "tool"@[0] == 't' && "path"@.len() == 4 && "path"@[0] == 'p');
}

/// The members that were asked for are found again.
proof fn lemma_part(v: JsonView, parts: Members, i: int, key: Seq<char>, value: JsonView)
    requires
        holds_exactly(v, parts),
        0 <= i < parts.len(),
        parts[i] == (key, value),
    ensures
        v.get(key) == Some(value),
{
}

/// A request states the protocol, its id as an integer, its method and its parameters.
pub proof fn lemma_request_frame(id: i64, method: Seq<char>, params: JsonView)
    ensures
        ({
            let frame = request_frame(id, method, params);
            let number = frame.get("id"@)->0;
            &&& number.as_i64() == Some(id)
            &&& holds_exactly(
                frame,
                seq![
                    ("jsonrpc"@, JsonView::Str("2.0"@)),
                    ("id"@, number),
                    ("method"@, JsonView::Str(method)),
                    ("params"@, params),
                ],
            )
        }),
{
    lemma_frame_members();
    let number = integer_json(id);
    let two = JsonView::Str("2.0"@);
    let front = seq![("jsonrpc"@, two), ("id"@, number), ("method"@, JsonView::Str(method))];
    lemma_three("jsonrpc"@, two, "id"@, number, "method"@, JsonView::Str(method));
    let v = JsonView::empty_object().with("jsonrpc"@, two).with("id"@, number).with("method"@, JsonView::Str(method));
    lemma_add(v, front, "params"@, params);
    let parts = seq![("jsonrpc"@, two), ("id"@, number), ("method"@, JsonView::Str(method)), ("params"@, params)];
    assert(front.push(("params"@, params)) =~= parts);
    lemma_part(request_frame(id, method, params), parts, 1, "id"@, number);
}

/// A reply with a result states the protocol, the id that it answers and the result.
pub proof fn lemma_result_frame(id: JsonView, result: JsonView)
    ensures
        holds_exactly(
            result_frame(id, result),
            seq![("jsonrpc"@, JsonView::Str("2.0"@)), ("id"@, id), ("result"@, result)],
        ),
        result_frame(id, result).get("result"@) == Some(result),
{
    lemma_frame_members();
    let two = JsonView::Str("2.0"@);
    lemma_three("jsonrpc"@, two, "id"@, id, "result"@, result);
    let parts = seq![("jsonrpc"@, two), ("id"@, id), ("result"@, result)];
    lemma_part(result_frame(id, result), parts, 2, "result"@, result);
}

/// The parameters of a call are the tool's name and the arguments.
pub proof fn lemma_call_params(name: Seq<char>, args: JsonView)
    ensures
        holds_exactly(call_params(name, args), seq![("name"@, JsonView::Str(name)), ("arguments"@, args)]),
{
    lemma_frame_members();
    lemma_two("name"@, JsonView::Str(name), "arguments"@, args);
}

/// An error reply has the client's id, the code -32602 and a message, and
/// says of which tool which part is wrong, and why.
pub proof fn lemma_error_reply(id: JsonView, tool: Seq<char>, f: FailureView)
    ensures
        ({
            let frame = invalid_params_frame(id, tool, f);
            let error = frame.get("error"@)->0;
            let code = error.get("code"@)->0;
            let data = error.get("data"@)->0;
            &&& holds_exactly(frame, seq![("jsonrpc"@, JsonView::Str("2.0"@)), ("id"@, id), ("error"@, error)])
            &&& holds_exactly(
                error,
                seq![("code"@, code), ("message"@, JsonView::Str("Invalid params"@)), ("data"@, data)],
            )
            &&& code.as_i64() == Some(-32602 as i64)
            &&& holds_exactly(
                data,
                seq![
                    ("tool"@, JsonView::Str(tool)),
                    ("path"@, JsonView::Str(f.path)),
                    ("reason"@, JsonView::Str(f.reason)),
                ],
            )
        }),
{
    lemma_frame_members();
    let two = JsonView::Str("2.0"@);
    let t = JsonView::Str(tool);
    let p = JsonView::Str(f.path);
    let r = JsonView::Str(f.reason);
    let m = JsonView::Str("Invalid params"@);
    let code = integer_json(-32602 as i64);
    let data = JsonView::empty_object().with("tool"@, t).with("path"@, p).with("reason"@, r);
    let error = JsonView::empty_object().with("code"@, code).with("message"@, m).with("data"@, data);
    lemma_three("tool"@, t, "path"@, p, "reason"@, r);
    lemma_three("code"@, code, "message"@, m, "data"@, data);
    lemma_three("jsonrpc"@, two, "id"@, id, "error"@, error);
    let parts = seq![("code"@, code), ("message"@, m), ("data"@, data)];
    lemma_part(error, parts, 0, "code"@, code);
    lemma_part(error, parts, 2, "data"@, data);
    let frame = invalid_params_frame(id, tool, f);
    lemma_part(frame, seq![("jsonrpc"@, two), ("id"@, id), ("error"@, error)], 2, "error"@, error);
}

/// Where no session could be started, the client is told with the code -32603,
/// under no id, and with the message.
pub proof fn lemma_launch_failure(message: Seq<char>)
    ensures
        ({
            let frame = launch_failure_frame(message);
            let error = frame.get("error"@)->0;
            let code = error.get("code"@)->0;
            &&& holds_exactly(
                frame,
                seq![("jsonrpc"@, JsonView::Str("2.0"@)), ("id"@, JsonView::Null), ("error"@, error)],
            )
            &&& holds_exactly(error, seq![("code"@, code), ("message"@, JsonView::Str(message))])
            &&& code.as_i64() == Some(-32603 as i64)
        }),
{
    lemma_frame_members();
    let two = JsonView::Str("2.0"@);
    let code = integer_json(-32603 as i64);
    let m = JsonView::Str(message);
    let error = JsonView::empty_object().with("code"@, code).with("message"@, m);
    lemma_two("code"@, code, "message"@, m);
    lemma_three("jsonrpc"@, two, "id"@, JsonView::Null, "error"@, error);
    lemma_part(error, seq![("code"@, code), ("message"@, m)], 0, "code"@, code);
    let frame = launch_failure_frame(message);
    lemma_part(frame, seq![("jsonrpc"@, two), ("id"@, JsonView::Null), ("error"@, error)], 2, "error"@, error);
}

/// The health report states that all is well, the uptime, the number of sessions and the version.
pub proof fn lemma_health_report(uptime: u64, sessions: i64)
    ensures
        ({
            let report = health_report(uptime, sessions);
            let count = report.get("active_sessions"@)->0;
            &&& count.as_i64() == Some(sessions)
            &&& holds_exactly(
                report,
                seq![
                    ("status"@, JsonView::Str("ok"@)),
                    ("uptime_seconds"@, JsonView::Num(NumberView::PosInt(uptime))),
                    ("active_sessions"@, count),
                    ("version"@, JsonView::Str("0.1.0"@)),
                ],
            )
        }),
{
    reveal_strlit("status");
    reveal_strlit("uptime_seconds");
    reveal_strlit("active_sessions");
    reveal_strlit("version");
    assert("status"@.len() == 6 && "uptime_seconds"@.len() == 14 && "active_sessions"@.len() == 15);
    assert("version"@.len() == 7);
    let ok = JsonView::Str("ok"@);
    let up = JsonView::Num(NumberView::PosInt(uptime));
    let count = integer_json(sessions);
    let version = JsonView::Str("0.1.0"@);
    let front = seq![("status"@, ok), ("uptime_seconds"@, up), ("active_sessions"@, count)];
    lemma_three("status"@, ok, "uptime_seconds"@, up, "active_sessions"@, count);
    let v = JsonView::empty_object().with("status"@, ok).with("uptime_seconds"@, up).with("active_sessions"@, count);
    lemma_add(v, front, "version"@, version);
    let parts = seq![
        ("status"@, ok),
        ("uptime_seconds"@, up),
        ("active_sessions"@, count),
        ("version"@, version),
    ];
    assert(front.push(("version"@, version)) =~= parts);
    lemma_part(health_report(uptime, sessions), parts, 2, "active_sessions"@, count);
}

// ---------------------------------------------------------------------------
// Merged replies
// ---------------------------------------------------------------------------

/// The schema that takes any object says so and nothing else.
pub proof fn lemma_any_object()
    ensures
        holds_exactly(any_object(), seq![("type"@, JsonView::Str("object"@))]),
{
    lemma_one("type"@, JsonView::Str("object"@));
}

/// The reply to a request for the listing has the client's id, and its result
/// holds nothing but the tools as the tier shows them.
pub proof fn lemma_listing_reply(tier: Compression, client_id: JsonView, tools: Seq<ToolView>)
    ensures
        ({
            let frame = listing_frame(tier, client_id, tools);
            let result = frame.get("result"@)->0;
            &&& holds_exactly(
                frame,
                seq![("jsonrpc"@, JsonView::Str("2.0"@)), ("id"@, client_id), ("result"@, result)],
            )
            &&& holds_exactly(
                result,
                seq![("tools"@, JsonView::Array(tier_tools(tool_definitions(tools), tier)))],
            )
        }),
{
    let shown = JsonView::Array(tier_tools(tool_definitions(tools), tier));
    lemma_one("tools"@, shown);
    lemma_result_frame(client_id, JsonView::empty_object().with("tools"@, shown));
}

/// The gateway states its name, its version and the names of the servers behind it, in order.
pub proof fn lemma_server_info(servers: Seq<ServerView>)
    ensures
        ({
            let info = server_info(servers);
            let aggregated = info.get("aggregating"@)->0;
            &&& holds_exactly(
                info,
                seq![
                    ("name"@, JsonView::Str("mcp-token-gateway"@)),
                    ("version"@, JsonView::Str("0.1.0"@)),
                    ("aggregating"@, aggregated),
                ],
            )
            &&& aggregated is Array && aggregated->Array_0.len() == servers.len()
            &&& forall|i: int|
                0 <= i < servers.len() ==> #[trigger] aggregated->Array_0[i] == JsonView::Str(servers[i].name)
        }),
{
    reveal_strlit("name");
    reveal_strlit("version");
    reveal_strlit("aggregating");
    assert("name"@.len() == 4 && "version"@.len() == 7 && "aggregating"@.len() == 11);
    let aggregated = JsonView::Array(servers.map_values(|s: ServerView| JsonView::Str(s.name)));
    let name = JsonView::Str("mcp-token-gateway"@);
    let version = JsonView::Str("0.1.0"@);
    lemma_three("name"@, name, "version"@, version, "aggregating"@, aggregated);
    let parts = seq![("name"@, name), ("version"@, version), ("aggregating"@, aggregated)];
    lemma_part(server_info(servers), parts, 2, "aggregating"@, aggregated);
}

/// The reply to a request for initialization states the version that an
/// upstream states, or else the gateway's own, what the gateway is, and the
/// capabilities of all upstreams.
pub proof fn lemma_initialize_reply(servers: Seq<ServerView>, client_id: JsonView, collected: Seq<Option<JsonView>>)
    ensures
        ({
            let frame = initialize_frame(servers, client_id, collected);
            let result = frame.get("result"@)->0;
            let version = result.get("protocolVersion"@)->0;
            &&& holds_exactly(
                frame,
                seq![("jsonrpc"@, JsonView::Str("2.0"@)), ("id"@, client_id), ("result"@, result)],
            )
            &&& holds_exactly(
                result,
                seq![
                    ("protocolVersion"@, version),
                    ("serverInfo"@, server_info(servers)),
                    ("capabilities"@, JsonView::Object(merged_capabilities(collected))),
                ],
            )
            &&& first_version(collected) matches Some(stated) ==> version == stated
            &&& first_version(collected) is None ==> version == JsonView::Str("2025-06-18"@)
        }),
{
    reveal_strlit("protocolVersion");
    reveal_strlit("serverInfo");
    reveal_strlit("capabilities");
    assert("protocolVersion"@.len() == 15 && "serverInfo"@.len() == 10 && "capabilities"@.len() == 12);
    let version = match first_version(collected) {
        Some(v) => v,
        None => JsonView::Str("2025-06-18"@),
    };
    let info = server_info(servers);
    let capabilities = JsonView::Object(merged_capabilities(collected));
    let result = JsonView::empty_object().with("protocolVersion"@, version).with("serverInfo"@, info).with(
        "capabilities"@,
        capabilities,
    );
    lemma_three("protocolVersion"@, version, "serverInfo"@, info, "capabilities"@, capabilities);
    lemma_result_frame(client_id, result);
    let parts = seq![("protocolVersion"@, version), ("serverInfo"@, info), ("capabilities"@, capabilities)];
    lemma_part(result, parts, 0, "protocolVersion"@, version);
}

} // verus!
