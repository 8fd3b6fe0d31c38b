use shrink::metrics::Metrics;
use shrink::router::{Outgoing, ServerInfo};
use shrink::sse::{endpoint_path, health, launch_failure, SseApp};
use shrink::Compression;

fn app() -> SseApp {
    let server = ServerInfo { name: "a".to_owned(), prefix: "a".to_owned() };
    SseApp::new(vec![server], Compression::Off)
}

#[test]
fn session_ids_have_sixteen_digits_and_differ() {
    let mut app = app();
    assert_eq!(app.open(), "0000000000000001");
    let mut last = String::new();
    for _ in 0..300 {
        let id = app.open();
        assert!(id != last);
        last = id;
    }
    assert_eq!(last, "000000000000012d");
    assert_eq!(endpoint_path(&last), "/messages?sessionId=000000000000012d");
}

#[test]
fn frames_are_posted_to_open_sessions() {
    let mut app = app();
    let mut m = Metrics::new();
    let id = app.open();
    let line = r#"{"id":"c","method":"ping"}"#;
    // Until its servers are started, only its upstreams reach the session.
    let posted = app.post(&mut m, Some(&id), line.to_owned());
    assert_eq!((posted.status, posted.frames.len()), (404, 0));
    assert_eq!(app.upstream_line(&mut m, &id, 0, "early".to_owned()), vec![Outgoing::ToClient("early".to_owned())]);
    assert_eq!(m.sessions(), 0);
    assert_eq!(app.established(&mut m, &id), "/messages?sessionId=0000000000000001");
    assert_eq!(m.sessions(), 1);

    let posted = app.post(&mut m, Some(&id), line.to_owned());
    assert_eq!(posted.status, 202);
    assert_eq!(posted.frames, vec![Outgoing::ToUpstream(0, r#"{"id":1,"method":"ping"}"#.to_owned())]);

    let posted = app.post(&mut m, None, line.to_owned());
    assert_eq!((posted.status, posted.frames.len()), (400, 0));
    let posted = app.post(&mut m, Some("1"), line.to_owned());
    assert_eq!((posted.status, posted.frames.len()), (404, 0));

    let frames = app.upstream_line(&mut m, &id, 0, r#"{"id":1,"result":{}}"#.to_owned());
    assert_eq!(frames, vec![Outgoing::ToClient(r#"{"id":"c","result":{}}"#.to_owned())]);

    app.close(&id);
    m.session_end();
    assert_eq!(m.sessions(), 0);
    assert_eq!(app.post(&mut m, Some(&id), line.to_owned()).status, 404);
    assert_eq!(app.upstream_line(&mut m, &id, 0, "late".to_owned()), vec![]);
}

#[test]
fn sessions_do_not_meet() {
    let mut app = app();
    let mut m = Metrics::new();
    let one = app.open();
    let two = app.open();
    app.established(&mut m, &one);
    app.established(&mut m, &two);
    let ping = |id: &str| format!(r#"{{"id":"{id}","method":"ping"}}"#);
    app.post(&mut m, Some(&one), ping("one"));
    // Each session has its own ids.
    let posted = app.post(&mut m, Some(&two), ping("two"));
    assert_eq!(posted.frames, vec![Outgoing::ToUpstream(0, r#"{"id":1,"method":"ping"}"#.to_owned())]);
    app.close(&one);
    let frames = app.upstream_line(&mut m, &two, 0, r#"{"id":1,"result":0}"#.to_owned());
    assert_eq!(frames, vec![Outgoing::ToClient(r#"{"id":"two","result":0}"#.to_owned())]);
}

#[test]
fn session_that_could_not_be_started_is_gone() {
    let mut app = app();
    let mut m = Metrics::new();
    let id = app.open();
    let frame = app.launch_failed(&id, "no such \"file\"");
    assert_eq!(frame, r#"{"error":{"code":-32603,"message":"no such \"file\""},"id":null,"jsonrpc":"2.0"}"#);
    assert_eq!(frame, launch_failure("no such \"file\""));
    assert_eq!(app.post(&mut m, Some(&id), String::new()).status, 404);
    assert_eq!(app.open(), "0000000000000002");
}

#[test]
fn health_is_reported() {
    let mut m = Metrics::new();
    m.session_start();
    assert_eq!(health(&m, 12), r#"{"active_sessions":1,"status":"ok","uptime_seconds":12,"version":"0.1.0"}"#);
}

#[test]
fn savings_of_a_session_are_kept() {
    let mut app = app();
    let mut m = Metrics::new();
    let id = app.open();
    app.established(&mut m, &id);
    assert_eq!(app.savings("none"), None);
    app.post(&mut m, Some(&id), r#"{"id":1,"method":"tools/list"}"#.to_owned());
    assert_eq!(app.savings(&id), None);
    app.upstream_line(&mut m, &id, 0, r#"{"id":1,"result":{"tools":[{"name":"t"}]}}"#.to_owned());
    assert_eq!(app.savings(&id).unwrap().tools, 1);
    // Looking changes nothing.
    assert_eq!(app.post(&mut m, Some(&id), "x".to_owned()).status, 202);
}
