use shrink::cli::{log_level, parse_args, resolve, version_line, Cli, Compression, LogLevel, Request, HELP};
use shrink::config::{GatewayConfig, ServerSpec};
use shrink::json::{Json, JsonObject};
use shrink::ledger::SchemaLedger;
use shrink::number::JsonNumber;
use shrink::protocol::{classify, estimate_tokens, tools_list_result, FrameKind, MAX_LINE_BYTES};
use shrink::text::{after_prefix, order_text, Position};
use shrink::wire::{parse, to_debug_text, to_text};

fn json(text: &str) -> Json {
    parse(text).unwrap()
}

fn args(given: &[&str]) -> Vec<String> {
    given.iter().map(|s| s.to_string()).collect()
}

fn run(given: &[&str]) -> Cli {
    match parse_args(&args(given)) {
        Ok(Request::Run(cli)) => cli,
        other => panic!("{other:?}"),
    }
}

fn refused(given: &[&str]) -> String {
    parse_args(&args(given)).unwrap_err()
}

#[test]
fn tiers_have_names() {
    assert_eq!(Compression::parse("none"), Ok(Compression::Off));
    assert_eq!(Compression::parse("safe"), Ok(Compression::Safe));
    assert_eq!(Compression::parse("balanced"), Ok(Compression::Balanced));
    assert_eq!(Compression::parse("high"), Ok(Compression::High));
    assert_eq!(Compression::parse("High"), Err("unknown compression tier 'High'".to_owned()));
}

#[test]
fn command_line_of_one_server() {
    let cli = run(&["-v", "--compression", "high", "-vv", "--listen=:80", "--", "npx", "-y", "--help", "--"]);
    assert_eq!(cli.compression, Some(Compression::High));
    assert_eq!(cli.config, None);
    assert_eq!(cli.listen.as_deref(), Some(":80"));
    assert_eq!(cli.verbose, 3);
    assert_eq!(cli.command, args(&["npx", "-y", "--help", "--"]));
}

#[test]
fn command_line_with_a_configuration() {
    let cli = run(&["--config=a", "--compression=safe", "--compression=none", "--config", "b=c", "--listen", "x", "--verbose"]);
    assert_eq!(cli.compression, Some(Compression::Off));
    assert_eq!(cli.config.as_deref(), Some("b=c"));
    assert_eq!(cli.listen.as_deref(), Some("x"));
    assert_eq!(cli.verbose, 1);
    assert!(cli.command.is_empty());
    // An empty command is as good as none.
    assert!(run(&["--config", "a", "--"]).command.is_empty());
}

#[test]
fn verbosity_does_not_overflow() {
    let mut given = vec!["-vv"; 130];
    given.push("--config=a");
    assert_eq!(run(&given).verbose, 255);
}

#[test]
fn help_and_version_stop_the_reading() {
    assert!(matches!(parse_args(&args(&["-v", "-h", "--nonsense"])), Ok(Request::Help)));
    assert!(matches!(parse_args(&args(&["--help"])), Ok(Request::Help)));
    assert!(matches!(parse_args(&args(&["-V", "-h"])), Ok(Request::Version)));
    assert!(matches!(parse_args(&args(&["--version"])), Ok(Request::Version)));
    assert_eq!(version_line(), "mcp-token-gateway 0.1.0");
}

#[test]
fn refused_command_lines() {
    assert_eq!(refused(&[]), format!("either --config <PATH> or -- <CMD> is required\n\n{HELP}"));
    assert_eq!(refused(&["--"]), format!("either --config <PATH> or -- <CMD> is required\n\n{HELP}"));
    assert_eq!(refused(&["--config", "a", "--", "b"]), "--config and -- <CMD> are mutually exclusive");
    assert_eq!(refused(&["--compression"]), "--compression needs a value");
    assert_eq!(refused(&["--config"]), "--config needs a path");
    assert_eq!(refused(&["--listen"]), "--listen needs an address");
    assert_eq!(refused(&["--compression", "--"]), "unknown compression tier '--'");
    assert_eq!(refused(&["--compression="]), "unknown compression tier ''");
    assert_eq!(refused(&["x", "-h"]), format!("unexpected argument 'x'\n\n{HELP}"));
    assert_eq!(refused(&["--confi"]), format!("unexpected argument '--confi'\n\n{HELP}"));
}

#[test]
fn levels_of_logging() {
    assert_eq!(log_level(0), LogLevel::Info);
    assert_eq!(log_level(1), LogLevel::Debug);
    assert_eq!(log_level(2), LogLevel::Trace);
    assert_eq!(log_level(255), LogLevel::Trace);
}

fn spec(name: &str) -> ServerSpec {
    ServerSpec { name: name.to_owned(), command: format!("{name}-mcp"), args: args(&["-y"]) }
}

#[test]
fn servers_of_a_configuration_are_prefixed() {
    let cli = run(&["--config=a"]);
    let config = GatewayConfig { compression: Some("balanced".to_owned()), servers: vec![spec("github"), spec("jira")] };
    let plan = resolve(&cli, Some(config)).unwrap();
    assert_eq!(plan.tier, Compression::Balanced);
    assert_eq!(plan.specs.len(), 2);
    assert_eq!(plan.specs[1].command, "jira-mcp");
    assert_eq!(plan.infos[0].name, "github");
    assert_eq!(plan.infos[0].prefix, "github");
    assert_eq!(plan.infos[1].prefix, "jira");
}

#[test]
fn tier_of_the_command_line_comes_first() {
    let bad = || GatewayConfig { compression: Some("max".to_owned()), servers: vec![spec("a")] };
    let plan = resolve(&run(&["--config=a", "--compression=safe"]), Some(bad())).unwrap();
    assert_eq!(plan.tier, Compression::Safe);
    assert_eq!(resolve(&run(&["--config=a"]), Some(bad())).unwrap_err(), "unknown compression tier 'max'");
    let unset = GatewayConfig { compression: None, servers: vec![spec("a")] };
    assert_eq!(resolve(&run(&["--config=a"]), Some(unset)).unwrap().tier, Compression::Off);
}

#[test]
fn only_server_of_the_command_line() {
    let plan = resolve(&run(&["--", "npx", "-y", "x"]), None).unwrap();
    assert_eq!(plan.tier, Compression::Off);
    assert_eq!(plan.specs.len(), 1);
    assert_eq!(plan.specs[0].name, "upstream");
    assert_eq!(plan.specs[0].command, "npx");
    assert_eq!(plan.specs[0].args, args(&["-y", "x"]));
    assert_eq!(plan.infos[0].name, "upstream");
    assert_eq!(plan.infos[0].prefix, "");
}

#[test]
fn frames_are_told_apart() {
    assert_eq!(classify(&json(r#"{"method":"m","id":1}"#)), FrameKind::Request { method: "m" });
    assert_eq!(classify(&json(r#"{"method":"m"}"#)), FrameKind::Notification { method: "m" });
    assert_eq!(classify(&json(r#"{"method":"m","id":null}"#)), FrameKind::Notification { method: "m" });
    assert_eq!(classify(&json(r#"{"id":0,"result":1}"#)), FrameKind::Response);
    assert_eq!(classify(&json(r#"{"id":"a","error":{"code":1}}"#)), FrameKind::Response);
    assert_eq!(classify(&json(r#"{"jsonrpc":"2.0","id":1}"#)), FrameKind::Other);
    assert_eq!(classify(&json(r#"{"method":1,"id":"a","result":1}"#)), FrameKind::Other);
    assert_eq!(classify(&json(r#"{"id":null}"#)), FrameKind::Other);
    assert_eq!(classify(&json("[]")), FrameKind::Other);
}

#[test]
fn listings_are_known_by_their_structure() {
    let v = json(r#"{"id":1,"result":{"tools":[{"name":"a"},2]}}"#);
    assert_eq!(tools_list_result(&v).unwrap().len(), 2);
    assert!(tools_list_result(&json(r#"{"result":{"tools":{}}}"#)).is_none());
    assert!(tools_list_result(&json(r#"{"tools":[]}"#)).is_none());
}

#[test]
fn tokens_are_a_quarter_of_the_bytes() {
    assert_eq!(estimate_tokens(&json(r#"{ "a" : [1, 2] }"#)), 2);
    assert_eq!(estimate_tokens(&json(r#""ääää""#)), 2);
    assert_eq!(estimate_tokens(&json("1")), 0);
    assert_eq!(MAX_LINE_BYTES, 16_777_216);
}

#[test]
fn recorded_definition_is_read_back() {
    let mut ledger = SchemaLedger::default();
    assert!(ledger.is_empty());
    ledger.record("a", json(r#"{"type":"string"}"#));
    ledger.record("b", json(r#"{"type":"null"}"#));
    ledger.record("a", json(r#"{"type":"object"}"#));
    assert_eq!(ledger.len(), 2);
    assert!(!ledger.is_empty());
    let a = ledger.get("a").unwrap();
    assert_eq!(a.name, "a");
    assert_eq!(a.input_schema, json(r#"{"type":"object"}"#));
    assert_eq!(ledger.get("b").unwrap().input_schema, json(r#"{"type":"null"}"#));
    assert!(ledger.get("c").is_none());
}

#[test]
fn text_is_read_and_written() {
    for text in ["null", "true", "-5", "1.5", r#""a\n\"\u0007é""#, "[]", "[1,[2]]", "{}", r#"{"a":{"b":[]},"c":1}"#] {
        assert_eq!(to_text(&json(text)), text);
    }
    assert_eq!(to_text(&json(r#" { "b" : 1 , "a" : 2 , "b" : 3 } "#)), r#"{"a":2,"b":3}"#);
    let v = json(r#"{"z":[1,-2,{"k":"\u0000\"\\é"}],"a":18446744073709551615,"m":null}"#);
    assert_eq!(parse(&to_text(&v)), Some(v));
    let deep = format!("{}{}", "[".repeat(127), "]".repeat(127));
    assert_eq!(to_text(&json(&deep)), deep);
    assert!(parse(&format!("[{deep}]")).is_none());
    for text in ["", "{", "nul", "[1,]", "{\"a\"}", "1 2"] {
        assert!(parse(text).is_none());
    }
    assert_eq!(
        to_debug_text(&vec![json("null"), json("1"), json(r#""x""#), json("true"), json("[]")]),
        r#"[Null, Number(1), String("x"), Bool(true), Array []]"#
    );
}

#[test]
fn numbers_keep_what_they_are() {
    assert_eq!(json("5").as_u64(), Some(5));
    assert_eq!(json("-5").as_u64(), None);
    assert_eq!(json("-5").as_i64(), Some(-5));
    assert_eq!(json("5.0").as_i64(), None);
    assert_eq!(json("18446744073709551615").as_u64(), Some(u64::MAX));
    assert_eq!(json("18446744073709551615").as_i64(), None);
    assert_eq!(json("9223372036854775807").as_i64(), Some(i64::MAX));
    assert_eq!(Json::integer(-1), json("-1"));
    assert_eq!(Json::integer(7), json("7"));
    assert_eq!(Json::Num(JsonNumber::from_u64(u64::MAX)), json("18446744073709551615"));
    assert!(json("0.0").same(&json("-0.0")));
    assert!(!json("1").same(&json("1.0")));
    assert_eq!(JsonNumber::from_i64(-3).f64_text(), "-3");
    match json("0.1") {
        Json::Num(n) => assert_eq!(n.f64_text(), "0.1"),
        _ => unreachable!(),
    }
}

#[test]
fn members_stay_in_order() {
    let o = JsonObject::new().insert("b".to_owned(), json("1")).insert("a".to_owned(), json("2"));
    assert_eq!(o.len(), 2);
    assert_eq!(o.key_at(0), "a");
    assert_eq!(*o.value_at(1), json("1"));
    let o = o.insert("a".to_owned(), json("3")).remove("x");
    assert_eq!(*o.get("a").unwrap(), json("3"));
    let o = o.remove("a");
    assert!(o.get("a").is_none());
    assert_eq!(Json::Object(o), json(r#"{"b":1}"#));
    assert_eq!(json(r#"{"a":1}"#).with("c", json("2")).without("a"), json(r#"{"c":2}"#));
    assert_eq!(json("[1]").with("c", json("2")).without("a"), json("[1]"));
}

#[test]
fn texts_are_ordered_by_code_point() {
    assert_eq!(order_text("a", "b"), Position::Before);
    assert_eq!(order_text("a", "a"), Position::Same);
    assert_eq!(order_text("ab", "a"), Position::After);
    assert_eq!(order_text("Z", "a"), Position::Before);
    assert_eq!(order_text("z", "é"), Position::Before);
    assert_eq!(after_prefix("--a=ü", "--a=").as_deref(), Some("ü"));
    assert_eq!(after_prefix("--a", "--a=").as_deref(), None);
    assert_eq!(after_prefix("x", "").as_deref(), Some("x"));
}
