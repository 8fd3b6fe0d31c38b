use shrink::cli::Compression;
use shrink::json::Json;
use shrink::metrics::Metrics;
use shrink::router::{compact_tools_for_tier, Outgoing, Router, ServerInfo, PREFIX_SEP};
use shrink::wire::{parse, to_text};

fn json(text: &str) -> Json {
    parse(text).unwrap()
}

fn server(name: &str, prefix: &str) -> ServerInfo {
    ServerInfo { name: name.to_owned(), prefix: prefix.to_owned() }
}

fn two_servers(tier: Compression) -> Router {
    Router::new(vec![server("github", "github"), server("jira", "jira")], tier)
}

fn one_server(tier: Compression) -> Router {
    Router::new(vec![server("upstream", "")], tier)
}

/// The frame for an upstream, in the compact form in which frames are sent.
fn up(server_idx: usize, frame: &str) -> Outgoing {
    Outgoing::ToUpstream(server_idx, to_text(&json(frame)))
}

/// The frame for the client, in the compact form in which frames are sent.
fn down(frame: &str) -> Outgoing {
    Outgoing::ToClient(to_text(&json(frame)))
}

fn client(r: &mut Router, m: &mut Metrics, line: &str) -> Vec<Outgoing> {
    r.on_client_frame(m, line.to_owned())
}

fn upstream(r: &mut Router, m: &mut Metrics, server_idx: usize, line: &str) -> Vec<Outgoing> {
    r.on_upstream_frame(m, server_idx, line.to_owned())
}

const GITHUB_TOOLS: &str = r#"{"jsonrpc":"2.0","id":1,"result":{"tools":[
    {"name":"create_issue","description":"Creates an issue","inputSchema":{
        "type":"object","title":"Args",
        "properties":{"title":{"type":"string","description":"The title"},"body":{"type":"string"}},
        "required":["title"]
    }}
]}}"#;

const JIRA_TOOLS: &str = r#"{"jsonrpc":"2.0","id":1,"result":{"tools":[{"name":"search"},{"description":"nameless"}]}}"#;

/// A router that has merged the listings of both servers.
fn listed(tier: Compression, m: &mut Metrics) -> Router {
    let mut r = two_servers(tier);
    client(&mut r, m, r#"{"jsonrpc":"2.0","id":7,"method":"tools/list"}"#);
    upstream(&mut r, m, 0, GITHUB_TOOLS);
    upstream(&mut r, m, 1, JIRA_TOOLS);
    r
}

#[test]
fn prefix_join() {
    assert_eq!(format!("github{}{}", PREFIX_SEP, "create_issue"), "github__create_issue");
}

#[test]
fn compact_tools_for_tier_high_collapses_schema() {
    let tools = vec![json(
        r#"{
            "name":"x",
            "description":"long",
            "inputSchema":{"type":"object","properties":{"a":{"type":"string"}},"required":["a"]}
        }"#,
    )];
    let out = compact_tools_for_tier(&tools, Compression::High);
    assert_eq!(*out[0].get("inputSchema").unwrap(), json(r#"{"type":"object"}"#));
    assert_eq!(*out[0].get("description").unwrap(), json(r#""(p:{a:string})""#));
}

#[test]
fn compact_tools_for_tier_safe_keeps_valid_schema() {
    let tools = vec![json(
        r#"{
            "name":"x",
            "description":"d",
            "inputSchema":{
                "$schema":"http://json-schema.org/draft-07/schema#",
                "type":"object",
                "properties":{"a":{"type":"string","description":"d"}},
                "required":["a"]
            }
        }"#,
    )];
    let out = compact_tools_for_tier(&tools, Compression::Safe);
    // metadata stripped, structure kept
    assert!(out[0].get("inputSchema").unwrap().get("$schema").is_none());
    assert_eq!(out[0].get("inputSchema").unwrap().get_str("type"), Some("object"));
    assert_eq!(*out[0].get("inputSchema").unwrap().get("required").unwrap(), json(r#"["a"]"#));
    // tool-level description removed
    assert!(out[0].get("description").is_none());
}

#[test]
fn other_tiers() {
    let long = "x".repeat(200);
    let tools = vec![
        json(&format!(r#"{{"name":"a","description":"{long}","inputSchema":{{"title":"t","description":"{long}"}}}}"#)),
        json(r#"{"name":"b","description":5}"#),
        json("17"),
    ];
    assert_eq!(compact_tools_for_tier(&tools, Compression::Off), tools);
    let balanced = compact_tools_for_tier(&tools, Compression::Balanced);
    assert_eq!(balanced[0].get_str("description").unwrap(), format!("{}…", "x".repeat(159)));
    assert_eq!(
        *balanced[0].get("inputSchema").unwrap(),
        json(&format!(r#"{{"description":"{}…"}}"#, "x".repeat(80)))
    );
    assert_eq!(balanced[1], json(r#"{"name":"b","description":5,"inputSchema":{}}"#));
    assert_eq!(balanced[2], json("17"));
    for (given, shown) in [(160, 160), (161, 160)] {
        let tool = json(&format!(r#"{{"name":"a","description":"{}"}}"#, "ä".repeat(given)));
        let out = compact_tools_for_tier(&vec![tool], Compression::Balanced);
        assert_eq!(out[0].get_str("description").unwrap().chars().count(), shown);
    }
    let safe = compact_tools_for_tier(&tools, Compression::Safe);
    assert_eq!(safe[1], json(r#"{"name":"b","inputSchema":{}}"#));
    let high = compact_tools_for_tier(&tools, Compression::High);
    assert_eq!(high[1], json(r#"{"name":"b","description":"(p:any)","inputSchema":{"type":"object"}}"#));
    assert_eq!(high[2], json("17"));
}

#[test]
fn listing_is_fanned_out_and_merged() {
    let mut m = Metrics::new();
    let mut r = two_servers(Compression::Off);
    let sent = client(&mut r, &mut m, r#"{"jsonrpc":"2.0","id":"a","method":"tools/list","params":{"cursor":1}}"#);
    assert_eq!(
        sent,
        vec![
            up(0, r#"{"jsonrpc":"2.0","id":1,"method":"tools/list","params":{}}"#),
            up(1, r#"{"jsonrpc":"2.0","id":1,"method":"tools/list","params":{}}"#),
        ]
    );
    assert!(r.savings().is_none());
    // The replies may come in any order; the servers' order decides.
    assert_eq!(upstream(&mut r, &mut m, 1, JIRA_TOOLS), vec![]);
    assert_eq!(m.tools_list_total, 0);
    let reply = upstream(&mut r, &mut m, 0, GITHUB_TOOLS);
    assert_eq!(
        reply,
        vec![down(
            r#"{"jsonrpc":"2.0","id":"a","result":{"tools":[
                {"name":"github__create_issue","description":"Creates an issue","inputSchema":{
                    "type":"object","title":"Args",
                    "properties":{"title":{"type":"string","description":"The title"},"body":{"type":"string"}},
                    "required":["title"]
                }},
                {"name":"jira__search"}
            ]}}"#
        )]
    );
    assert_eq!(m.tools_list_total, 1);
    let savings = r.savings().unwrap();
    assert_eq!(savings.tools, 2);
    assert_eq!(m.tokens_before_total, savings.before_tokens as u64);
    assert_eq!(m.tokens_after_total, savings.after_tokens as u64);
    // A second reply of the same upstream is dropped.
    assert_eq!(upstream(&mut r, &mut m, 0, GITHUB_TOOLS), vec![]);
}

#[test]
fn savings_of_the_first_listing_are_kept() {
    let mut m = Metrics::new();
    let mut r = one_server(Compression::High);
    let tools = format!(
        r#"{{"jsonrpc":"2.0","id":1,"result":{{"tools":[{{"name":"t","inputSchema":{{"title":"{}"}}}}]}}}}"#,
        "y".repeat(400)
    );
    client(&mut r, &mut m, r#"{"id":1,"method":"tools/list"}"#);
    let reply = upstream(&mut r, &mut m, 0, &tools);
    let line = r#"{"id":1,"jsonrpc":"2.0","result":{"tools":[{"description":"(p:any)","inputSchema":{"type":"object"},"name":"t"}]}}"#;
    assert_eq!(reply, vec![Outgoing::ToClient(line.to_owned())]);
    let before = r#"{"inputSchema":{"title":""},"name":"t"}"#.len() + 400;
    let first = r.savings().unwrap();
    assert_eq!(first.tools, 1);
    assert_eq!(first.before_tokens, before / 4);
    assert_eq!(first.after_tokens, line.len() / 4);
    assert_eq!(first.saved_pct as usize, (before - line.len()) * 100 / before);
    client(&mut r, &mut m, r#"{"id":1,"method":"tools/list"}"#);
    upstream(&mut r, &mut m, 0, r#"{"id":2,"result":{"tools":[]}}"#);
    assert_eq!(r.savings(), Some(first));
    assert_eq!(m.tools_list_total, 2);
}

#[test]
fn initialization_is_fanned_out_and_merged() {
    let mut m = Metrics::new();
    let mut r = two_servers(Compression::Off);
    let sent = client(&mut r, &mut m, r#"{"jsonrpc":"2.0","id":0,"method":"initialize","params":{"x":[1]}}"#);
    assert_eq!(
        sent,
        vec![
            up(0, r#"{"jsonrpc":"2.0","id":1,"method":"initialize","params":{"x":[1]}}"#),
            up(1, r#"{"jsonrpc":"2.0","id":1,"method":"initialize","params":{"x":[1]}}"#),
        ]
    );
    let first = r#"{"id":1,"result":{"capabilities":{"tools":{"listChanged":true}}}}"#;
    let second = r#"{"id":1,"result":{"protocolVersion":"2024-11-05","capabilities":{"tools":{},"logging":{}}}}"#;
    assert_eq!(upstream(&mut r, &mut m, 0, first), vec![]);
    assert_eq!(
        upstream(&mut r, &mut m, 1, second),
        vec![down(
            r#"{"jsonrpc":"2.0","id":0,"result":{
                "protocolVersion":"2024-11-05",
                "serverInfo":{"name":"mcp-token-gateway","version":"0.1.0","aggregating":["github","jira"]},
                "capabilities":{"tools":{"listChanged":true},"logging":{}}
            }}"#
        )]
    );
    assert_eq!(m.tools_list_total, 0);
}

#[test]
fn initialization_without_a_version() {
    let mut m = Metrics::new();
    let mut r = one_server(Compression::Off);
    let sent = client(&mut r, &mut m, r#"{"id":5,"method":"initialize"}"#);
    assert_eq!(sent, vec![up(0, r#"{"jsonrpc":"2.0","id":1,"method":"initialize","params":{}}"#)]);
    assert_eq!(
        upstream(&mut r, &mut m, 0, r#"{"id":1,"error":{"code":1}}"#),
        vec![down(
            r#"{"jsonrpc":"2.0","id":5,"result":{
                "protocolVersion":"2025-06-18",
                "serverInfo":{"name":"mcp-token-gateway","version":"0.1.0","aggregating":["upstream"]},
                "capabilities":{}
            }}"#
        )]
    );
}

#[test]
fn other_requests_go_to_the_first_server_and_come_back_under_their_id() {
    let mut m = Metrics::new();
    let mut r = two_servers(Compression::Safe);
    let sent = client(&mut r, &mut m, r#"{"jsonrpc":"2.0","id":{"k":1},"method":"resources/list","extra":true}"#);
    assert_eq!(sent, vec![up(0, r#"{"jsonrpc":"2.0","id":1,"method":"resources/list","extra":true}"#)]);
    let sent = client(&mut r, &mut m, r#"{"id":null,"method":"ping"}"#);
    assert_eq!(sent, vec![up(0, r#"{"id":2,"method":"ping"}"#)]);
    // A frame that only has the id is no reply, and leaves the request under way.
    assert_eq!(upstream(&mut r, &mut m, 0, r#"{"id":1}"#), vec![Outgoing::ToClient(r#"{"id":1}"#.to_owned())]);
    // Other traffic in between does not matter, and replies may come in any order.
    assert_eq!(upstream(&mut r, &mut m, 1, r#"{"id":1,"result":1}"#), vec![]);
    assert_eq!(upstream(&mut r, &mut m, 0, r#"{"id":2,"result":"pong"}"#), vec![down(r#"{"id":null,"result":"pong"}"#)]);
    assert_eq!(
        upstream(&mut r, &mut m, 0, r#"{"jsonrpc":"2.0","id":1,"error":{"code":-1},"more":[1]}"#),
        vec![down(r#"{"jsonrpc":"2.0","id":{"k":1},"error":{"code":-1},"more":[1]}"#)]
    );
    assert_eq!(upstream(&mut r, &mut m, 0, r#"{"id":1,"result":1}"#), vec![]);
}

#[test]
fn what_is_no_request_is_broadcast_as_it_came() {
    let mut m = Metrics::new();
    let mut r = two_servers(Compression::High);
    for line in [
        "not json",
        r#"{ "method" : "notifications/initialized" }"#,
        r#"{"method":"tools/call"}"#,
        r#"{ "id":1, "result":{} }"#,
        r#"{"method":5,"id":1}"#,
        "[1, 2]",
        "",
    ] {
        assert_eq!(
            client(&mut r, &mut m, line),
            vec![Outgoing::ToUpstream(0, line.to_owned()), Outgoing::ToUpstream(1, line.to_owned())]
        );
    }
    assert_eq!(m.tools_call_total, 0);
}

#[test]
fn what_is_no_reply_goes_to_the_client_as_it_came() {
    let mut m = Metrics::new();
    let mut r = two_servers(Compression::High);
    for line in [
        "oops",
        r#"{ "method":"notifications/progress" }"#,
        r#"{"id":1,"method":"sampling/createMessage"}"#,
        r#"{ "result":{} }"#,
        r#"{ "id":1 }"#,
        r#"{"id":1.0}"#,
        "5",
    ] {
        assert_eq!(upstream(&mut r, &mut m, 1, line), vec![Outgoing::ToClient(line.to_owned())]);
    }
    // Replies that nobody waits for are dropped.
    for line in [r#"{"id":1,"result":{}}"#, r#"{"id":"1","result":{}}"#, r#"{"id":null,"result":{}}"#, r#"{"id":1.0,"error":{}}"#] {
        assert_eq!(upstream(&mut r, &mut m, 1, line), vec![]);
    }
}

#[test]
fn advertised_tool_is_called_at_its_owner() {
    let mut m = Metrics::new();
    let mut r = listed(Compression::High, &mut m);
    let sent = client(
        &mut r,
        &mut m,
        r#"{"id":"c","method":"tools/call","params":{"name":"github__create_issue","arguments":{"title":"t","body":null}}}"#,
    );
    assert_eq!(
        sent,
        vec![up(
            0,
            r#"{"jsonrpc":"2.0","id":2,"method":"tools/call","params":{"name":"create_issue","arguments":{"title":"t"}}}"#
        )]
    );
    assert_eq!(upstream(&mut r, &mut m, 0, r#"{"id":2,"result":"ok"}"#), vec![down(r#"{"id":"c","result":"ok"}"#)]);
    // A tool without a schema takes any object, and no arguments stand for an empty one.
    let sent = client(&mut r, &mut m, r#"{"id":9,"method":"tools/call","params":{"name":"jira__search"}}"#);
    assert_eq!(
        sent,
        vec![up(1, r#"{"jsonrpc":"2.0","id":2,"method":"tools/call","params":{"name":"search","arguments":{}}}"#)]
    );
    assert_eq!((m.tools_call_total, m.tools_call_forwarded, m.tools_call_rejected), (2, 2, 0));
}

#[test]
fn invalid_call_is_refused() {
    let mut m = Metrics::new();
    let mut r = listed(Compression::Safe, &mut m);
    let refused = client(
        &mut r,
        &mut m,
        r#"{"id":3,"method":"tools/call","params":{"name":"github__create_issue","arguments":{"title":"t","body":null}}}"#,
    );
    assert_eq!(
        refused,
        vec![down(
            r#"{"jsonrpc":"2.0","id":3,"error":{"code":-32602,"message":"Invalid params","data":{
                "tool":"github__create_issue","path":"/body","reason":"type mismatch: expected string, got null"
            }}}"#
        )]
    );
    assert_eq!((m.tools_call_total, m.tools_call_forwarded, m.tools_call_rejected), (1, 0, 1));
    // The next request still gets the next id: refusing took none.
    let sent = client(&mut r, &mut m, r#"{"id":4,"method":"ping"}"#);
    assert_eq!(sent, vec![up(0, r#"{"id":2,"method":"ping"}"#)]);
}

#[test]
fn call_without_a_name_or_of_an_unknown_tool_is_refused() {
    let mut m = Metrics::new();
    let mut r = two_servers(Compression::Off);
    let nameless = r#"{"jsonrpc":"2.0","id":3,"error":{"code":-32602,"message":"Invalid params","data":{
        "tool":"?","path":"/params/name","reason":"tools/call requires a string 'name'"
    }}}"#;
    for line in [
        r#"{"id":3,"method":"tools/call"}"#,
        r#"{"id":3,"method":"tools/call","params":[]}"#,
        r#"{"id":3,"method":"tools/call","params":{"name":1}}"#,
    ] {
        assert_eq!(client(&mut r, &mut m, line), vec![down(nameless)]);
    }
    assert_eq!(
        client(&mut r, &mut m, r#"{"id":3,"method":"tools/call","params":{"name":"nope"}}"#),
        vec![down(
            r#"{"jsonrpc":"2.0","id":3,"error":{"code":-32602,"message":"Invalid params","data":{
                "tool":"nope","path":"/params/name","reason":"unknown tool 'nope'"
            }}}"#
        )]
    );
    assert_eq!(m.tools_call_rejected, 4);
}

#[test]
fn single_server_takes_tools_that_were_not_advertised() {
    let mut m = Metrics::new();
    let mut r = one_server(Compression::High);
    let sent = client(&mut r, &mut m, r#"{"id":3,"method":"tools/call","params":{"name":"t","arguments":[1,null]}}"#);
    assert_eq!(
        sent,
        vec![up(0, r#"{"jsonrpc":"2.0","id":1,"method":"tools/call","params":{"name":"t","arguments":[1,null]}}"#)]
    );
    // One server with a prefix does not.
    let mut r = Router::new(vec![server("a", "a")], Compression::High);
    let refused = client(&mut r, &mut m, r#"{"id":3,"method":"tools/call","params":{"name":"t"}}"#);
    assert!(matches!(refused[0], Outgoing::ToClient(_)));
}

#[test]
fn lowest_tier_does_not_validate() {
    let mut m = Metrics::new();
    let mut r = listed(Compression::Off, &mut m);
    let sent = client(
        &mut r,
        &mut m,
        r#"{"id":3,"method":"tools/call","params":{"name":"github__create_issue","arguments":{"title":null}}}"#,
    );
    assert_eq!(
        sent,
        vec![up(
            0,
            r#"{"jsonrpc":"2.0","id":2,"method":"tools/call","params":{"name":"create_issue","arguments":{"title":null}}}"#
        )]
    );
}

#[test]
fn last_tool_of_a_name_counts() {
    let mut m = Metrics::new();
    let mut r = Router::new(vec![server("x", ""), server("y", "")], Compression::Balanced);
    client(&mut r, &mut m, r#"{"id":1,"method":"tools/list"}"#);
    upstream(&mut r, &mut m, 0, r#"{"id":1,"result":{"tools":[{"name":"t","inputSchema":{"type":"string"}}]}}"#);
    let reply = upstream(&mut r, &mut m, 1, r#"{"id":1,"result":{"tools":[{"name":"t","inputSchema":{"type":"null"}}]}}"#);
    assert_eq!(
        reply,
        vec![down(
            r#"{"jsonrpc":"2.0","id":1,"result":{"tools":[
                {"name":"t","inputSchema":{"type":"string"}},{"name":"t","inputSchema":{"type":"null"}}
            ]}}"#
        )]
    );
    let sent = client(&mut r, &mut m, r#"{"id":2,"method":"tools/call","params":{"name":"t","arguments":null}}"#);
    assert_eq!(
        sent,
        vec![up(1, r#"{"jsonrpc":"2.0","id":2,"method":"tools/call","params":{"name":"t","arguments":null}}"#)]
    );
}

#[test]
fn two_fanouts_at_once() {
    let mut m = Metrics::new();
    let mut r = two_servers(Compression::Off);
    client(&mut r, &mut m, r#"{"id":"one","method":"tools/list"}"#);
    client(&mut r, &mut m, r#"{"id":"two","method":"tools/list"}"#);
    let none = |id: i64| format!(r#"{{"id":{id},"result":{{"tools":[]}}}}"#);
    assert_eq!(upstream(&mut r, &mut m, 0, &none(1)), vec![]);
    assert_eq!(upstream(&mut r, &mut m, 0, &none(2)), vec![]);
    assert_eq!(
        upstream(&mut r, &mut m, 1, &none(2)),
        vec![down(r#"{"jsonrpc":"2.0","id":"two","result":{"tools":[]}}"#)]
    );
    assert_eq!(
        upstream(&mut r, &mut m, 1, &none(1)),
        vec![down(r#"{"jsonrpc":"2.0","id":"one","result":{"tools":[]}}"#)]
    );
}

#[test]
fn merged_reply_is_the_same_in_any_order() {
    let replies = [
        r#"{"id":1,"result":{"tools":[{"name":"a"}]}}"#,
        r#"{"id":1,"result":{"tools":[{"name":"b"}]}}"#,
        r#"{"id":1,"error":{}}"#,
    ];
    let mut lines: Vec<Vec<Outgoing>> = Vec::new();
    for order in [[0, 1, 2], [0, 2, 1], [1, 0, 2], [1, 2, 0], [2, 0, 1], [2, 1, 0]] {
        let mut m = Metrics::new();
        let mut r = Router::new(vec![server("x", "x"), server("y", "y"), server("z", "z")], Compression::Off);
        client(&mut r, &mut m, r#"{"id":1,"method":"tools/list"}"#);
        assert_eq!(upstream(&mut r, &mut m, order[0], replies[order[0]]), vec![]);
        assert_eq!(upstream(&mut r, &mut m, order[1], replies[order[1]]), vec![]);
        lines.push(upstream(&mut r, &mut m, order[2], replies[order[2]]));
        assert_eq!(upstream(&mut r, &mut m, 0, replies[0]), vec![]);
    }
    assert_eq!(lines[0], vec![down(r#"{"jsonrpc":"2.0","id":1,"result":{"tools":[{"name":"x__a"},{"name":"y__b"}]}}"#)]);
    assert!(lines.iter().all(|l| *l == lines[0]));
}

#[test]
fn values_may_be_handed_in_parsed() {
    let mut m = Metrics::new();
    let mut r = one_server(Compression::Off);
    let line = r#"{"id":1,"method":"ping"}"#;
    let sent = r.on_client_value(&mut m, Some(json(line)), line.to_owned());
    assert_eq!(sent, vec![up(0, r#"{"id":1,"method":"ping"}"#)]);
    let reply = r#"{"id":1,"result":0}"#;
    let back = r.on_upstream_value(&mut m, 0, Some(json(reply)), reply.to_owned());
    assert_eq!(back, vec![down(reply)]);
    assert_eq!(r.on_client_value(&mut m, None, "x".to_owned()), vec![Outgoing::ToUpstream(0, "x".to_owned())]);
}
