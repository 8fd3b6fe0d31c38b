//! Counters of what the gateway does, and their Prometheus text exposition.
use vstd::prelude::*;
use vstd::string::*;

use crate::text::{decimal, decimal_text, signed_decimal, signed_decimal_text};

verus! {

/// A point in time of the monotonic clock.
#[verifier::external_type_specification]
#[verifier::external_body]
pub struct ExInstant(std::time::Instant);

/// `Instant::now`: the present time, of which nothing is known beforehand.
#[verifier::external_body]
fn clock_now() -> std::time::Instant {
    std::time::Instant::now()
}

/// The span of time from one point in time to another.
pub uninterp spec fn time_between(later: std::time::Instant, earlier: std::time::Instant) -> std::time::Duration;

/// The whole seconds in a span of time.
pub uninterp spec fn seconds_in(span: std::time::Duration) -> u64;

/// `Instant::duration_since`: the span between two points in time, which these determine.
#[verifier::external_body]
fn clock_between(later: &std::time::Instant, earlier: &std::time::Instant) -> (r: std::time::Duration)
    ensures
        r == time_between(*later, *earlier),
{
    later.duration_since(*earlier)
}

/// `Duration::as_secs`: the whole seconds of a span of time, which the span determines.
#[verifier::external_body]
fn whole_seconds(span: &std::time::Duration) -> (r: u64)
    ensures
        r == seconds_in(*span),
{
    span.as_secs()
}

/// The whole seconds from a start until a later point in time.
pub open spec fn seconds_since(start: std::time::Instant, now: std::time::Instant) -> u64 {
    seconds_in(time_between(now, start))
}

/// The mathematical reading of [`Metrics`]: when they began, and every counter.
pub struct MetricsView {
    pub start: std::time::Instant,
    pub tools_list_total: u64,
    pub tokens_before_total: u64,
    pub tokens_after_total: u64,
    pub tools_call_total: u64,
    pub tools_call_forwarded: u64,
    pub tools_call_rejected: u64,
    pub active_sessions: i64,
}

/// The counters of one gateway process. Each wraps around at the end of its range.
#[derive(Debug)]
pub struct Metrics {
    /// When the gateway started.
    pub start: std::time::Instant,
    /// The number of tool listings that were merged and sent on.
    pub tools_list_total: u64,
    /// The estimated tokens of those listings before compaction.
    pub tokens_before_total: u64,
    /// The estimated tokens of those listings after compaction.
    pub tokens_after_total: u64,
    /// The number of tool calls received.
    pub tools_call_total: u64,
    /// The number of tool calls sent on to an upstream.
    pub tools_call_forwarded: u64,
    /// The number of tool calls that were answered with an error.
    pub tools_call_rejected: u64,
    /// The number of client sessions at present.
    pub active_sessions: i64,
}

impl View for Metrics {
    type V = MetricsView;

    open spec fn view(&self) -> MetricsView {
        MetricsView {
            start: self.start,
            tools_list_total: self.tools_list_total,
            tokens_before_total: self.tokens_before_total,
            tokens_after_total: self.tokens_after_total,
            tools_call_total: self.tools_call_total,
            tools_call_forwarded: self.tools_call_forwarded,
            tools_call_rejected: self.tools_call_rejected,
            active_sessions: self.active_sessions,
        }
    }
}

impl MetricsView {
    /// All counters at zero, from `start` on.
    pub open spec fn zero(start: std::time::Instant) -> MetricsView {
        MetricsView {
            start,
            tools_list_total: 0,
            tokens_before_total: 0,
            tokens_after_total: 0,
            tools_call_total: 0,
            tools_call_forwarded: 0,
            tools_call_rejected: 0,
            active_sessions: 0,
        }
    }

    /// The counters after one more merged listing.
    pub open spec fn with_discovery(self, before_tokens: u64, after_tokens: u64) -> MetricsView {
        MetricsView {
            tools_list_total: self.tools_list_total.wrapping_add(1),
            tokens_before_total: self.tokens_before_total.wrapping_add(before_tokens),
            tokens_after_total: self.tokens_after_total.wrapping_add(after_tokens),
            ..self
        }
    }

    /// The counters after one more call that was sent on.
    pub open spec fn with_call_forwarded(self) -> MetricsView {
        MetricsView {
            tools_call_total: self.tools_call_total.wrapping_add(1),
            tools_call_forwarded: self.tools_call_forwarded.wrapping_add(1),
            ..self
        }
    }

    /// The counters after one more call that was answered with an error.
    pub open spec fn with_call_rejected(self) -> MetricsView {
        MetricsView {
            tools_call_total: self.tools_call_total.wrapping_add(1),
            tools_call_rejected: self.tools_call_rejected.wrapping_add(1),
            ..self
        }
    }

    /// The counters after one more session began.
    pub open spec fn with_session_started(self) -> MetricsView {
        MetricsView { active_sessions: self.active_sessions.wrapping_add(1), ..self }
    }

    /// The counters after a session ended.
    pub open spec fn with_session_ended(self) -> MetricsView {
        MetricsView { active_sessions: self.active_sessions.wrapping_sub(1), ..self }
    }

    /// Whether every call received was either sent on or answered with an error.
    pub open spec fn calls_balance(self) -> bool {
        self.tools_call_total == self.tools_call_forwarded.wrapping_add(self.tools_call_rejected)
    }
}

/// How much smaller `after` is than `before`, in whole percent of `before`.
pub open spec fn percent_saved(before: nat, after: nat) -> nat {
    if before > after {
        ((before - after) * 100 / before as int) as nat
    } else {
        0
    }
}

/// Computes how much smaller `after` is than `before`, in whole percent of `before`.
pub fn saved_percent(before: u64, after: u64) -> (r: u64)
    ensures
        r == percent_saved(before as nat, after as nat),
        r <= 100,
{
    if before <= after {
        return 0;
    }
    let saved: u64 = before - after;
    let pct: u128 = saved as u128 * 100 / before as u128;
    assert(saved * 100 / before as int <= 100) by (nonlinear_arith)
        requires
            saved <= before,
            before > 0,
    ;
    pct as u64
}

/// One metric of the exposition: its help line, its type line and its value.
pub open spec fn metric_text(name: Seq<char>, help: Seq<char>, kind: Seq<char>, value: Seq<char>) -> Seq<char> {
    "# HELP "@ + name + " "@ + help + "\n# TYPE "@ + name + " "@ + kind + "\n"@ + name + " "@ + value + "\n"@
}

/// The whole exposition after `uptime` seconds.
pub open spec fn exposition(m: MetricsView, uptime: u64) -> Seq<char> {
    let saved = percent_saved(m.tokens_before_total as nat, m.tokens_after_total as nat);
    metric_text(
        "mcpgw_uptime_seconds"@,
        "Seconds since the gateway process started."@,
        "gauge"@,
        decimal(uptime as nat),
    ) + "\n"@ + metric_text(
        "mcpgw_tools_list_total"@,
        "tools/list responses merged and forwarded."@,
        "counter"@,
        decimal(m.tools_list_total as nat),
    ) + "\n"@ + metric_text(
        "mcpgw_tokens_before_total"@,
        "Cumulative ~tokens in schemas before compaction."@,
        "counter"@,
        decimal(m.tokens_before_total as nat),
    ) + "\n"@ + metric_text(
        "mcpgw_tokens_after_total"@,
        "Cumulative ~tokens in schemas after compaction."@,
        "counter"@,
        decimal(m.tokens_after_total as nat),
    ) + "\n"@ + metric_text(
        "mcpgw_tokens_saved_pct"@,
        "Cumulative token savings as a percentage."@,
        "gauge"@,
        decimal(saved),
    ) + "\n"@ + metric_text(
        "mcpgw_tools_call_total"@,
        "Total tools/call requests received."@,
        "counter"@,
        decimal(m.tools_call_total as nat),
    ) + "\n"@ + metric_text(
        "mcpgw_tools_call_forwarded_total"@,
        "tools/call requests forwarded to upstream."@,
        "counter"@,
        decimal(m.tools_call_forwarded as nat),
    ) + "\n"@ + metric_text(
        "mcpgw_tools_call_rejected_total"@,
        "tools/call requests rejected locally."@,
        "counter"@,
        decimal(m.tools_call_rejected as nat),
    ) + "\n"@ + metric_text(
        "mcpgw_active_sessions"@,
        "Active SSE client sessions (0 in stdio mode)."@,
        "gauge"@,
        signed_decimal(m.active_sessions as int),
    )
}

fn metric(name: &str, help: &str, kind: &str, value: String) -> (r: String)
    ensures
        r@ == metric_text(name@, help@, kind@, value@),
{
    let mut out = "# HELP ".to_owned();
    out.append(name);
    out.append(" ");
    out.append(help);
    out.append("\n# TYPE ");
    out.append(name);
    out.append(" ");
    out.append(kind);
    out.append("\n");
    out.append(name);
    out.append(" ");
    out.append(value.as_str());
    out.append("\n");
    out
}

impl Metrics {
    /// Counters at zero, from now on.
    pub fn new() -> (r: Metrics)
        ensures
            r@ == MetricsView::zero(r@.start),
    {
        Metrics {
            start: clock_now(),
            tools_list_total: 0,
            tokens_before_total: 0,
            tokens_after_total: 0,
            tools_call_total: 0,
            tools_call_forwarded: 0,
            tools_call_rejected: 0,
            active_sessions: 0,
        }
    }

    /// Counts a merged listing.
    pub fn record_discovery(&mut self, before_tokens: u64, after_tokens: u64)
        ensures
            final(self)@ == old(self)@.with_discovery(before_tokens, after_tokens),
    {
        self.tools_list_total = self.tools_list_total.wrapping_add(1);
        self.tokens_before_total = self.tokens_before_total.wrapping_add(before_tokens);
        self.tokens_after_total = self.tokens_after_total.wrapping_add(after_tokens);
    }

    /// Counts a call that was sent on.
    pub fn record_call_forwarded(&mut self)
        ensures
            final(self)@ == old(self)@.with_call_forwarded(),
    {
        self.tools_call_total = self.tools_call_total.wrapping_add(1);
        self.tools_call_forwarded = self.tools_call_forwarded.wrapping_add(1);
    }

    /// Counts a call that was answered with an error.
    pub fn record_call_rejected(&mut self)
        ensures
            final(self)@ == old(self)@.with_call_rejected(),
    {
        self.tools_call_total = self.tools_call_total.wrapping_add(1);
        self.tools_call_rejected = self.tools_call_rejected.wrapping_add(1);
    }

    /// Counts a session that began.
    pub fn session_start(&mut self)
        ensures
            final(self)@ == old(self)@.with_session_started(),
    {
        self.active_sessions = self.active_sessions.wrapping_add(1);
    }

    /// Counts a session that ended.
    pub fn session_end(&mut self)
        ensures
            final(self)@ == old(self)@.with_session_ended(),
    {
        self.active_sessions = self.active_sessions.wrapping_sub(1);
    }

    /// The number of client sessions at present.
    pub fn sessions(&self) -> (r: i64)
        ensures
            r == self@.active_sessions,
    {
        self.active_sessions
    }

    /// The whole seconds from when the counters were made until a given time.
    pub fn uptime_until(&self, now: &std::time::Instant) -> (r: u64)
        ensures
            r == seconds_since(self@.start, *now),
    {
        whole_seconds(&clock_between(now, &self.start))
    }

    /// The whole seconds since the counters were made. The clock decides what time it is.
    pub fn uptime_secs(&self) -> (r: u64)
        ensures
            exists|now: std::time::Instant| r == #[trigger] seconds_since(self@.start, now),
    {
        self.uptime_until(&clock_now())
    }

    /// Renders the exposition for a given uptime.
    pub fn render_at(&self, uptime: u64) -> (r: String)
        ensures
            r@ == exposition(self@, uptime),
    {
        let saved = saved_percent(self.tokens_before_total, self.tokens_after_total);
        let mut out = metric(
            "mcpgw_uptime_seconds",
            "Seconds since the gateway process started.",
            "gauge",
            decimal_text(uptime),
        );
        out.append("\n");
        out.append(
            metric(
                "mcpgw_tools_list_total",
                "tools/list responses merged and forwarded.",
                "counter",
                decimal_text(self.tools_list_total),
            ).as_str(),
        );
        out.append("\n");
        out.append(
            metric(
                "mcpgw_tokens_before_total",
                "Cumulative ~tokens in schemas before compaction.",
                "counter",
                decimal_text(self.tokens_before_total),
            ).as_str(),
        );
        out.append("\n");
        out.append(
            metric(
                "mcpgw_tokens_after_total",
                "Cumulative ~tokens in schemas after compaction.",
                "counter",
                decimal_text(self.tokens_after_total),
            ).as_str(),
        );
        out.append("\n");
        out.append(
            metric(
                "mcpgw_tokens_saved_pct",
                "Cumulative token savings as a percentage.",
                "gauge",
                decimal_text(saved),
            ).as_str(),
        );
        out.append("\n");
        out.append(
            metric(
                "mcpgw_tools_call_total",
                "Total tools/call requests received.",
                "counter",
                decimal_text(self.tools_call_total),
            ).as_str(),
        );
        out.append("\n");
        out.append(
            metric(
                "mcpgw_tools_call_forwarded_total",
                "tools/call requests forwarded to upstream.",
                "counter",
                decimal_text(self.tools_call_forwarded),
            ).as_str(),
        );
        out.append("\n");
        out.append(
            metric(
                "mcpgw_tools_call_rejected_total",
                "tools/call requests rejected locally.",
                "counter",
                decimal_text(self.tools_call_rejected),
            ).as_str(),
        );
        out.append("\n");
        out.append(
            metric(
                "mcpgw_active_sessions",
                "Active SSE client sessions (0 in stdio mode).",
                "gauge",
                signed_decimal_text(self.active_sessions),
            ).as_str(),
        );
        out
    }

    /// Renders the exposition for the present uptime.
    pub fn render(&self) -> (r: String)
        ensures
            exists|now: std::time::Instant| r@ == #[trigger] exposition(self@, seconds_since(self@.start, now)),
    {
        let uptime = self.uptime_secs();
        proof {
            let now = choose|now: std::time::Instant| uptime == #[trigger] seconds_since(self@.start, now);
            assert(exposition(self@, uptime) == exposition(self@, seconds_since(self@.start, now)));
        }
        self.render_at(uptime)
    }
}

impl Default for Metrics {
    fn default() -> (r: Metrics)
        ensures
            r@ == MetricsView::zero(r@.start),
    {
        Metrics::new()
    }
}

} // verus!
