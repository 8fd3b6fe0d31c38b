use std::time::{Duration, Instant};

use shrink::metrics::{saved_percent, Metrics};

#[test]
fn render_contains_all_keys() {
    let mut m = Metrics::new();
    m.record_discovery(100, 20);
    m.record_call_forwarded();
    m.record_call_rejected();
    let out = m.render();
    for key in &[
        "mcpgw_uptime_seconds",
        "mcpgw_tools_list_total",
        "mcpgw_tokens_before_total",
        "mcpgw_tokens_after_total",
        "mcpgw_tokens_saved_pct",
        "mcpgw_tools_call_total",
        "mcpgw_tools_call_forwarded_total",
        "mcpgw_tools_call_rejected_total",
        "mcpgw_active_sessions",
    ] {
        assert!(out.contains(key), "missing metric: {key}");
    }
    // 80% savings: (100-20)/100 = 80
    assert!(out.contains("mcpgw_tokens_saved_pct 80"));
}

#[test]
fn whole_exposition() {
    let mut m = Metrics::default();
    m.record_discovery(7, 9);
    m.session_end();
    let want = "# HELP mcpgw_uptime_seconds Seconds since the gateway process started.\n\
         # TYPE mcpgw_uptime_seconds gauge\n\
         mcpgw_uptime_seconds 61\n\
         \n\
         # HELP mcpgw_tools_list_total tools/list responses merged and forwarded.\n\
         # TYPE mcpgw_tools_list_total counter\n\
         mcpgw_tools_list_total 1\n\
         \n\
         # HELP mcpgw_tokens_before_total Cumulative ~tokens in schemas before compaction.\n\
         # TYPE mcpgw_tokens_before_total counter\n\
         mcpgw_tokens_before_total 7\n\
         \n\
         # HELP mcpgw_tokens_after_total Cumulative ~tokens in schemas after compaction.\n\
         # TYPE mcpgw_tokens_after_total counter\n\
         mcpgw_tokens_after_total 9\n\
         \n\
         # HELP mcpgw_tokens_saved_pct Cumulative token savings as a percentage.\n\
         # TYPE mcpgw_tokens_saved_pct gauge\n\
         mcpgw_tokens_saved_pct 0\n\
         \n\
         # HELP mcpgw_tools_call_total Total tools/call requests received.\n\
         # TYPE mcpgw_tools_call_total counter\n\
         mcpgw_tools_call_total 0\n\
         \n\
         # HELP mcpgw_tools_call_forwarded_total tools/call requests forwarded to upstream.\n\
         # TYPE mcpgw_tools_call_forwarded_total counter\n\
         mcpgw_tools_call_forwarded_total 0\n\
         \n\
         # HELP mcpgw_tools_call_rejected_total tools/call requests rejected locally.\n\
         # TYPE mcpgw_tools_call_rejected_total counter\n\
         mcpgw_tools_call_rejected_total 0\n\
         \n\
         # HELP mcpgw_active_sessions Active SSE client sessions (0 in stdio mode).\n\
         # TYPE mcpgw_active_sessions gauge\n\
         mcpgw_active_sessions -1\n";
    assert_eq!(m.render_at(61), want);
}

#[test]
fn counters_wrap_around() {
    let mut m = Metrics::new();
    m.record_discovery(u64::MAX, 3);
    m.record_discovery(2, u64::MAX);
    assert_eq!(m.tools_list_total, 2);
    assert_eq!(m.tokens_before_total, 1);
    assert_eq!(m.tokens_after_total, 2);
}

#[test]
fn calls_are_sent_on_or_refused() {
    let mut m = Metrics::new();
    m.record_call_forwarded();
    m.record_call_forwarded();
    m.record_call_rejected();
    assert_eq!(m.tools_call_total, 3);
    assert_eq!(m.tools_call_forwarded, 2);
    assert_eq!(m.tools_call_rejected, 1);
    assert_eq!(m.tools_list_total, 0);
}

#[test]
fn sessions_come_and_go() {
    let mut m = Metrics::new();
    m.session_start();
    m.session_start();
    m.session_end();
    assert_eq!(m.sessions(), 1);
    m.session_end();
    m.session_end();
    assert_eq!(m.active_sessions, -1);
}

#[test]
fn percentages_are_rounded_down() {
    assert_eq!(saved_percent(0, 0), 0);
    assert_eq!(saved_percent(0, 5), 0);
    assert_eq!(saved_percent(3, 1), 66);
    assert_eq!(saved_percent(5, 5), 0);
    assert_eq!(saved_percent(5, 0), 100);
    assert_eq!(saved_percent(u64::MAX, 0), 100);
    assert_eq!(saved_percent(u64::MAX, u64::MAX / 2), 50);
}

#[test]
fn uptime_counts_whole_seconds() {
    let before = Instant::now();
    let m = Metrics::new();
    let after = Instant::now();
    assert_eq!(m.uptime_until(&(after + Duration::from_secs(61))), 61);
    assert_eq!(m.uptime_until(&(before + Duration::from_millis(60_999))), 60);
    assert_eq!(m.uptime_until(&before), 0);
}

#[test]
fn uptime_begins_at_zero() {
    let m = Metrics::new();
    assert!(m.uptime_secs() < 5);
    assert!(m.render().contains(&format!("mcpgw_uptime_seconds {}\n", m.uptime_secs())));
}
