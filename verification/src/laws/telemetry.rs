//! What the counters say.
use vstd::arithmetic::div_mod::lemma_fundamental_div_mod;
use vstd::prelude::*;

use crate::metrics::{exposition, metric_text, percent_saved, seconds_in, seconds_since, time_between, MetricsView};
use crate::text::{decimal, joined, signed_decimal};

verus! {

/// The saving is the largest whole percentage of what was there that is not
/// more than what was saved, and nothing where nothing was saved.
pub proof fn lemma_saving(before: nat, after: nat)
    ensures
        after >= before ==> percent_saved(before, after) == 0,
        after < before ==> percent_saved(before, after) * before <= (before - after) * 100,
        after < before ==> (before - after) * 100 < (percent_saved(before, after) + 1) * before,
        percent_saved(before, after) <= 100,
{
    if after < before {
        let saved = (before - after) * 100;
        let p = saved / before as int;
        lemma_fundamental_div_mod(saved, before as int);
        assert(0 <= p <= 100) by (nonlinear_arith)
            requires
                saved == before * p + saved % before as int,
                0 <= saved % (before as int) < before,
                0 <= saved <= before * 100,
                before > 0,
        ;
        assert(p * before <= saved < (p + 1) * before) by (nonlinear_arith)
            requires
                saved == before * p + saved % before as int,
                0 <= saved % (before as int) < before,
        ;
    }
}

/// Counters begin at zero, and each event moves only its own.
pub proof fn lemma_counters(start: std::time::Instant, m: MetricsView, before: u64, after: u64)
    ensures
        MetricsView::zero(start) == (MetricsView {
            start,
            tools_list_total: 0,
            tokens_before_total: 0,
            tokens_after_total: 0,
            tools_call_total: 0,
            tools_call_forwarded: 0,
            tools_call_rejected: 0,
            active_sessions: 0,
        }),
        ({
            let next = m.with_discovery(before, after);
            &&& next.tools_list_total == m.tools_list_total.wrapping_add(1)
            &&& next.tokens_before_total == m.tokens_before_total.wrapping_add(before)
            &&& next.tokens_after_total == m.tokens_after_total.wrapping_add(after)
            &&& next.tools_call_total == m.tools_call_total && next.tools_call_forwarded == m.tools_call_forwarded
            &&& next.tools_call_rejected == m.tools_call_rejected && next.active_sessions == m.active_sessions
            &&& next.start == m.start
        }),
        ({
            let next = m.with_call_forwarded();
            &&& next.tools_call_total == m.tools_call_total.wrapping_add(1)
            &&& next.tools_call_forwarded == m.tools_call_forwarded.wrapping_add(1)
            &&& next.tools_call_rejected == m.tools_call_rejected && next.active_sessions == m.active_sessions
            &&& next.tools_list_total == m.tools_list_total && next.tokens_before_total == m.tokens_before_total
            &&& next.tokens_after_total == m.tokens_after_total && next.start == m.start
        }),
        ({
            let next = m.with_call_rejected();
            &&& next.tools_call_total == m.tools_call_total.wrapping_add(1)
            &&& next.tools_call_rejected == m.tools_call_rejected.wrapping_add(1)
            &&& next.tools_call_forwarded == m.tools_call_forwarded && next.active_sessions == m.active_sessions
            &&& next.tools_list_total == m.tools_list_total && next.tokens_before_total == m.tokens_before_total
            &&& next.tokens_after_total == m.tokens_after_total && next.start == m.start
        }),
        m.with_session_started().active_sessions == m.active_sessions.wrapping_add(1),
        m.with_session_ended().active_sessions == m.active_sessions.wrapping_sub(1),
        m.with_session_started().with_session_ended() == m,
        m.with_session_ended() == (MetricsView {
            active_sessions: m.with_session_ended().active_sessions,
            ..m
        }),
        m.calls_balance() <==> m.tools_call_total == m.tools_call_forwarded.wrapping_add(m.tools_call_rejected),
{
}

/// The uptime is the time from the start until now, in whole seconds.
pub proof fn lemma_uptime(start: std::time::Instant, now: std::time::Instant)
    ensures
        seconds_since(start, now) == seconds_in(time_between(now, start)),
{
}

// ---------------------------------------------------------------------------
// The exposition
// ---------------------------------------------------------------------------

/// Whether a line stands in a text at the given place, with a line break after
/// it and, but for the first line, before it.
pub open spec fn line_at(text: Seq<char>, line: Seq<char>, at: int) -> bool {
    &&& 0 <= at
    &&& at + line.len() < text.len()
    &&& at > 0 ==> text[at - 1] == '\n'
    &&& text.subrange(at, at + line.len()) == line
    &&& text[at + line.len()] == '\n'
}

/// Whether a line stands in a text.
pub open spec fn has_line(text: Seq<char>, line: Seq<char>) -> bool {
    exists|at: int| #[trigger] line_at(text, line, at)
}

/// Whether a text tells of a metric: what it is, of which type, and its value.
pub open spec fn tells(text: Seq<char>, name: Seq<char>, help: Seq<char>, kind: Seq<char>, value: Seq<char>) -> bool {
    &&& has_line(text, "# HELP "@ + name + " "@ + help)
    &&& has_line(text, "# TYPE "@ + name + " "@ + kind)
    &&& has_line(text, name + " "@ + value)
}

proof fn lemma_line_found(before: Seq<char>, line: Seq<char>, after: Seq<char>, text: Seq<char>)
    requires
        before.len() > 0 ==> before.last() == '\n',
        text == before + line + seq!['\n'] + after,
    ensures
        has_line(text, line),
{
    let at = before.len() as int;
    assert(text.subrange(at, at + line.len()) =~= line);
    assert(line_at(text, line, at));
}

proof fn lemma_line_stays(text: Seq<char>, more: Seq<char>, line: Seq<char>)
    requires
        has_line(text, line),
    ensures
        has_line(text + more, line),
{
    let at = choose|at: int| #[trigger] line_at(text, line, at);
    let all = text + more;
    assert(all.subrange(at, at + line.len()) =~= text.subrange(at, at + line.len()));
    assert(line_at(all, line, at));
}

/// The text of a metric tells of it, in three lines and no more.
pub proof fn lemma_metric_told(name: Seq<char>, help: Seq<char>, kind: Seq<char>, value: Seq<char>)
    ensures
        tells(metric_text(name, help, kind, value), name, help, kind, value),
        metric_text(name, help, kind, value).len() == 20 + 3 * name.len() + help.len() + kind.len() + value.len(),
{
    reveal_strlit("# HELP ");
    reveal_strlit("# TYPE ");
    reveal_strlit("\n# TYPE ");
    reveal_strlit("\n");
    reveal_strlit(" ");
    assert("\n"@.len() == 1 && "\n"@[0] == '\n');
    assert("# HELP "@.len() == 7 && "# TYPE "@.len() == 7 && "\n# TYPE "@.len() == 8 && " "@.len() == 1);
    assert("\n# TYPE "@ =~= seq!['\n'] + "# TYPE "@);
    let text = metric_text(name, help, kind, value);
    let first = "# HELP "@ + name + " "@ + help;
    let second = "# TYPE "@ + name + " "@ + kind;
    let third = name + " "@ + value;
    let nl = seq!['\n'];
    let none = Seq::<char>::empty();
    assert(text =~= none + first + nl + (second + nl + third + nl));
    lemma_line_found(none, first, second + nl + third + nl, text);
    let b2 = first + nl;
    assert(text =~= b2 + second + nl + (third + nl));
    assert(b2.last() == '\n');
    lemma_line_found(b2, second, third + nl, text);
    let b3 = b2 + second + nl;
    assert(text =~= b3 + third + nl + none);
    assert(b3.last() == '\n');
    lemma_line_found(b3, third, none, text);
}

proof fn lemma_line_in_joined(parts: Seq<Seq<char>>, i: int, line: Seq<char>)
    requires
        0 <= i < parts.len(),
        has_line(parts[i], line),
    ensures
        has_line(joined(parts, "\n"@), line),
    decreases parts.len(),
{
    let n = parts.len() - 1;
    if n > 0 {
        let rest = parts.drop_last();
        let front = joined(rest, "\n"@);
        let text = joined(parts, "\n"@);
        if i < n {
            assert(rest[i] == parts[i]);
            lemma_line_in_joined(rest, i, line);
            lemma_line_stays(front, "\n"@ + parts[n], line);
            assert(text =~= front + ("\n"@ + parts[n]));
        } else {
            reveal_strlit("\n");
            assert("\n"@.len() == 1 && "\n"@[0] == '\n');
            let at = choose|at: int| #[trigger] line_at(parts[n], line, at);
            let to = front.len() + 1 + at;
            assert(text.subrange(to, to + line.len()) =~= parts[n].subrange(at, at + line.len()));
            assert(line_at(text, line, to));
        }
    }
}

/// One metric: its name, what it is, its type and its value.
pub struct Told {
    pub name: Seq<char>,
    pub help: Seq<char>,
    pub kind: Seq<char>,
    pub value: Seq<char>,
}

/// The nine metrics, in the order in which they are told.
pub open spec fn told(m: MetricsView, uptime: u64) -> Seq<Told> {
    seq![
        Told {
            name: "mcpgw_uptime_seconds"@,
            help: "Seconds since the gateway process started."@,
            kind: "gauge"@,
            value: decimal(uptime as nat),
        },
        Told {
            name: "mcpgw_tools_list_total"@,
            help: "tools/list responses merged and forwarded."@,
            kind: "counter"@,
            value: decimal(m.tools_list_total as nat),
        },
        Told {
            name: "mcpgw_tokens_before_total"@,
            help: "Cumulative ~tokens in schemas before compaction."@,
            kind: "counter"@,
            value: decimal(m.tokens_before_total as nat),
        },
        Told {
            name: "mcpgw_tokens_after_total"@,
            help: "Cumulative ~tokens in schemas after compaction."@,
            kind: "counter"@,
            value: decimal(m.tokens_after_total as nat),
        },
        Told {
            name: "mcpgw_tokens_saved_pct"@,
            help: "Cumulative token savings as a percentage."@,
            kind: "gauge"@,
            value: decimal(percent_saved(m.tokens_before_total as nat, m.tokens_after_total as nat)),
        },
        Told {
            name: "mcpgw_tools_call_total"@,
            help: "Total tools/call requests received."@,
            kind: "counter"@,
            value: decimal(m.tools_call_total as nat),
        },
        Told {
            name: "mcpgw_tools_call_forwarded_total"@,
            help: "tools/call requests forwarded to upstream."@,
            kind: "counter"@,
            value: decimal(m.tools_call_forwarded as nat),
        },
        Told {
            name: "mcpgw_tools_call_rejected_total"@,
            help: "tools/call requests rejected locally."@,
            kind: "counter"@,
            value: decimal(m.tools_call_rejected as nat),
        },
        Told {
            name: "mcpgw_active_sessions"@,
            help: "Active SSE client sessions (0 in stdio mode)."@,
            kind: "gauge"@,
            value: signed_decimal(m.active_sessions as int),
        },
    ]
}

proof fn lemma_joined_more(parts: Seq<Seq<char>>, last: Seq<char>, sep: Seq<char>)
    requires
        parts.len() > 0,
    ensures
        joined(parts.push(last), sep) == joined(parts, sep) + sep + last,
{
    assert(parts.push(last).drop_last() =~= parts);
}

proof fn lemma_joined_nine(p: Seq<Seq<char>>, sep: Seq<char>)
    requires
        p.len() == 9,
    ensures
        joined(p, sep) == p[0] + sep + p[1] + sep + p[2] + sep + p[3] + sep + p[4] + sep + p[5] + sep + p[6] + sep
            + p[7] + sep + p[8],
{
    assert(p.take(2) =~= p.take(1).push(p[1]));
    lemma_joined_more(p.take(1), p[1], sep);
    assert(p.take(3) =~= p.take(2).push(p[2]));
    lemma_joined_more(p.take(2), p[2], sep);
    assert(p.take(4) =~= p.take(3).push(p[3]));
    lemma_joined_more(p.take(3), p[3], sep);
    assert(p.take(5) =~= p.take(4).push(p[4]));
    lemma_joined_more(p.take(4), p[4], sep);
    assert(p.take(6) =~= p.take(5).push(p[5]));
    lemma_joined_more(p.take(5), p[5], sep);
    assert(p.take(7) =~= p.take(6).push(p[6]));
    lemma_joined_more(p.take(6), p[6], sep);
    assert(p.take(8) =~= p.take(7).push(p[7]));
    lemma_joined_more(p.take(7), p[7], sep);
    assert(p =~= p.take(8).push(p[8]));
    lemma_joined_more(p.take(8), p[8], sep);
}

/// The exposition tells of the nine metrics, each with its present value, one
/// after the other with an empty line between them, and of nothing else.
pub proof fn lemma_exposition(m: MetricsView, uptime: u64, i: int)
    requires
        0 <= i < 9,
    ensures
        exposition(m, uptime) == joined(
            told(m, uptime).map_values(|t: Told| metric_text(t.name, t.help, t.kind, t.value)),
            "\n"@,
        ),
        ({
            let t = told(m, uptime)[i];
            tells(exposition(m, uptime), t.name, t.help, t.kind, t.value)
        }),
{
    let parts = told(m, uptime).map_values(|t: Told| metric_text(t.name, t.help, t.kind, t.value));
    lemma_joined_nine(parts, "\n"@);
    let t = told(m, uptime)[i];
    lemma_metric_told(t.name, t.help, t.kind, t.value);
    lemma_line_in_joined(parts, i, "# HELP "@ + t.name + " "@ + t.help);
    lemma_line_in_joined(parts, i, "# TYPE "@ + t.name + " "@ + t.kind);
    lemma_line_in_joined(parts, i, t.name + " "@ + t.value);
}

} // verus!
