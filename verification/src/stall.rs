//! Watching for stalls of the main thread and logging what caused them.
use vstd::prelude::*;

use crate::text;

verus! {

/// Time between two beats, in nanoseconds.
pub const BEAT_NS: u64 = 100_000_000;

/// A beat that is later than this is a stall.
pub const BUDGET_NS: u64 = 32_000_000;

/// Stalls within this time of a logged one are not logged.
pub const LOG_GAP_NS: u64 = 500_000_000;

/// Nanoseconds in a millisecond.
pub const NS_PER_MS: u64 = 1_000_000;

/// A text in quotes, with the characters that need it escaped.
pub uninterp spec fn quoted(s: Seq<char>) -> Seq<char>;

/// The `Debug` form of a text (`format!` with `{:?}`): in quotes and escaped. What it is for a
/// given text is left to the name.
#[verifier::external_body]
fn quote(s: &str) -> (r: String)
    ensures
        r@ == quoted(s@),
{
    format!("{:?}", s)
}

/// Work on the main thread and when it started.
pub struct Op {
    pub label: String,
    pub started: u64,
}

impl Clone for Op {
    fn clone(&self) -> (r: Self)
        ensures
            r == *self,
    {
        Op { label: self.label.clone(), started: self.started }
    }
}

/// What a beat found.
pub struct Beat {
    /// The application is in front: its badge can be taken down.
    pub clear_badge: bool,
    /// How many milliseconds the beat was late, where that was a stall.
    pub stall: Option<u64>,
    /// A line for the log.
    pub line: Option<String>,
}

/// The sentinel. Times are in nanoseconds of one clock.
pub struct Sentinel {
    pub last: u64,
    pub last_log: Option<u64>,
    /// Whether the application was in front when the beat began.
    pub active_before: bool,
    pub stall_count: u64,
}

/// `a - b`, or 0 where `b` is larger.
pub open spec fn less(a: u64, b: u64) -> u64 {
    if a >= b {
        (a - b) as u64
    } else {
        0
    }
}

/// `a - b`, or 0 where `b` is larger.
pub fn minus(a: u64, b: u64) -> (r: u64)
    ensures
        r == less(a, b),
{
    if a >= b {
        a - b
    } else {
        0
    }
}

/// How late a beat at `now` is after one at `last`.
pub open spec fn drift(last: u64, now: u64) -> u64 {
    less(less(now, last), BEAT_NS)
}

/// The later of two operations, the first where they started together.
pub open spec fn later(own: Option<Op>, other: Option<Op>) -> Option<Op> {
    match (own, other) {
        (Some(a), Some(b)) => if a.started >= b.started {
            Some(a)
        } else {
            Some(b)
        },
        (Some(a), None) => Some(a),
        (None, b) => b,
    }
}

/// The later of two operations.
pub fn latest(own: Option<Op>, other: Option<Op>) -> (r: Option<Op>)
    ensures
        r == later(own, other),
{
    match (own, other) {
        (Some(a), Some(b)) => if a.started >= b.started {
            Some(a)
        } else {
            Some(b)
        },
        (Some(a), None) => Some(a),
        (None, b) => b,
    }
}

/// The line that is logged for a stall, given the quoted label of the operation.
pub open spec fn log_line(
    ts_ms: u64,
    late: u64,
    label: Seq<char>,
    age: int,
    render_us: u64,
    count: u64,
) -> Seq<char> {
    "{\"ts_ms\":"@ + text::dec(ts_ms as nat) + ",\"drift_ms\":"@ + text::dec(late as nat)
        + ",\"op\":"@ + label + ",\"op_age_ms\":"@ + text::dec_int(age) + ",\"render_us\":"@
        + text::dec(render_us as nat) + ",\"count\":"@ + text::dec(count as nat) + "}\n"@
}

/// The line that is logged for a stall.
pub fn write_log_line(
    ts_ms: u64,
    late: u64,
    label: &str,
    age: i64,
    render_us: u64,
    count: u64,
) -> (r: String)
    ensures
        r@ == log_line(ts_ms, late, label@, age as int, render_us, count),
{
    let mut s = text::cat4(
        "{\"ts_ms\":",
        text::dec_u64(ts_ms).as_str(),
        ",\"drift_ms\":",
        text::dec_u64(late).as_str(),
    );
    s.append(",\"op\":");
    s.append(label);
    s.append(",\"op_age_ms\":");
    s.append(text::dec_i64(age).as_str());
    s.append(",\"render_us\":");
    s.append(text::dec_u64(render_us).as_str());
    s.append(",\"count\":");
    s.append(text::dec_u64(count).as_str());
    s.append("}\n");
    s
}

impl Sentinel {
    /// Starts watching at time `now`.
    pub fn new(now: u64, active: bool) -> (s: Self)
        ensures
            s.last == now,
            s.last_log is None,
            s.active_before == active,
            s.stall_count == 0,
    {
        Sentinel { last: now, last_log: None, active_before: active, stall_count: 0 }
    }

    /// Whether a beat at `now` is a stall: late beyond the budget, with the application in front
    /// all the time.
    pub open spec fn stalls(self, now: u64, active_after: bool) -> bool {
        self.active_before && active_after && drift(self.last, now) > BUDGET_NS
    }

    /// Whether a stall at `now` is logged.
    pub open spec fn logs(self, now: u64) -> bool {
        match self.last_log {
            Some(t) => less(now, t) > LOG_GAP_NS,
            None => true,
        }
    }

    /// A beat at time `now`, with the application in front or not. `own` and `terminal` are the
    /// last operations of the workbench and of the terminal, `ts_ms` is the wall clock, and
    /// `render_us` is how long the last drawing took.
    pub fn beat(
        &mut self,
        now: u64,
        active_after: bool,
        own: Option<Op>,
        terminal: Option<Op>,
        ts_ms: u64,
        render_us: u64,
    ) -> (b: Beat)
        requires
            old(self).stall_count < u64::MAX,
        ensures
            b.clear_badge == active_after,
            ({
                let stall = old(self).stalls(now, active_after);
                let log = stall && old(self).logs(now);
                let late = drift(old(self).last, now) / NS_PER_MS;
                let count = old(self).stall_count + if stall {
                    1int
                } else {
                    0int
                };
                &&& b.stall == (if stall {
                    Some(late)
                } else {
                    None
                })
                &&& *final(self) == (Self {
                    last: now,
                    last_log: if log {
                        Some(now)
                    } else {
                        old(self).last_log
                    },
                    active_before: active_after,
                    stall_count: count as u64,
                })
                &&& b.line is Some <==> log
                &&& b.line matches Some(l) ==> l@ == (match later(own, terminal) {
                    Some(op) => log_line(
                        ts_ms,
                        late,
                        quoted(op.label@),
                        (less(now, op.started) / NS_PER_MS) as int,
                        render_us,
                        count as u64,
                    ),
                    None => log_line(ts_ms, late, quoted("?"@), -1, render_us, count as u64),
                })
            }),
    {
        let active = self.active_before && active_after;
        self.active_before = active_after;
        let late = minus(minus(now, self.last), BEAT_NS);
        self.last = now;
        let late_ms = late / NS_PER_MS;
        if !(active && late > BUDGET_NS) {
            return Beat { clear_badge: active_after, stall: None, line: None };
        }
        self.stall_count = self.stall_count + 1;
        let emit = match self.last_log {
            Some(t) => minus(now, t) > LOG_GAP_NS,
            None => true,
        };
        if !emit {
            return Beat { clear_badge: active_after, stall: Some(late_ms), line: None };
        }
        self.last_log = Some(now);
        let line = match latest(own, terminal) {
            Some(op) => {
                let age: i64 = (minus(now, op.started) / NS_PER_MS) as i64;
                write_log_line(
                    ts_ms,
                    late_ms,
                    quote(op.label.as_str()).as_str(),
                    age,
                    render_us,
                    self.stall_count,
                )
            },
            None => write_log_line(
                ts_ms,
                late_ms,
                quote("?").as_str(),
                -1,
                render_us,
                self.stall_count,
            ),
        };
        Beat { clear_badge: active_after, stall: Some(late_ms), line: Some(line) }
    }
}

/// Time that the application spent in the background is no stall: neither the beat that ends there
/// nor the one that begins there counts.
pub proof fn law_background_time_is_no_stall(s: Sentinel, now: u64, active_after: bool)
    requires
        !s.active_before || !active_after,
    ensures
        !s.stalls(now, active_after),
{
}

/// A beat that comes more than 132 milliseconds after the last one, with the window in front all the
/// time, is a stall, and the time beyond 100 milliseconds is told.
pub proof fn law_late_beats_are_stalls(
    s: &mut Sentinel,
    now: u64,
    active: bool,
    own: Option<Op>,
    terminal: Option<Op>,
    ts_ms: u64,
    render_us: u64,
    b: Beat,
)
    requires
        old(s).stall_count < u64::MAX,
        call_ensures(Sentinel::beat, (s, now, active, own, terminal, ts_ms, render_us), b),
        now >= old(s).last,
    ensures
        b.stall is Some <==> old(s).active_before && active && now - old(s).last > 132_000_000,
        b.stall matches Some(ms) ==> ms == (now - old(s).last - 100_000_000) / 1_000_000,
        final(s).stall_count == old(s).stall_count + (if b.stall is Some {
            1int
        } else {
            0int
        }),
        final(s).last == now && final(s).active_before == active,
        b.line is Some ==> b.stall is Some,
        b.stall is Some && old(s).last_log is None ==> b.line is Some,
        b.stall is Some ==> (old(s).last_log matches Some(t) ==> now >= t ==> (b.line is Some <==> now
            - t > 500_000_000)),
        b.clear_badge == active,
{
}

/// Of two things that were done the later one is blamed.
pub proof fn law_the_later_one_is_blamed(a: Op, b: Op, r: Option<Op>)
    requires
        call_ensures(latest, (Some(a), Some(b)), r),
    ensures
        a.started > b.started ==> r == Some(a),
        b.started > a.started ==> r == Some(b),
        r is Some,
{
}

/// Every number of a log line stands behind its own key.
pub proof fn law_log_lines_keep_their_keys(
    ts_ms: u64,
    late: u64,
    label: &str,
    age: i64,
    render_us: u64,
    count: u64,
    r: String,
)
    requires
        call_ensures(write_log_line, (ts_ms, late, label, age, render_us, count), r),
    ensures
        exists|a: Seq<char>, b: Seq<char>|
            r@ == #[trigger] (a + ("\"ts_ms\":"@ + text::dec(ts_ms as nat)) + b),
        exists|a: Seq<char>, b: Seq<char>|
            r@ == #[trigger] (a + ("\"drift_ms\":"@ + text::dec(late as nat)) + b),
        exists|a: Seq<char>, b: Seq<char>|
            r@ == #[trigger] (a + ("\"op_age_ms\":"@ + text::dec_int(age as int)) + b),
        exists|a: Seq<char>, b: Seq<char>|
            r@ == #[trigger] (a + ("\"render_us\":"@ + text::dec(render_us as nat)) + b),
        exists|a: Seq<char>, b: Seq<char>|
            r@ == #[trigger] (a + ("\"count\":"@ + text::dec(count as nat)) + b),
        r@.last() == '\n',
{
    let n1 = text::dec(ts_ms as nat);
    let n2 = text::dec(late as nat);
    let n3 = text::dec_int(age as int);
    let n4 = text::dec(render_us as nat);
    let n5 = text::dec(count as nat);
    let end = "}\n"@;
    let h1 = Seq::<char>::empty();
    let h2 = "{\"ts_ms\":"@ + n1;
    let h3 = h2 + ",\"drift_ms\":"@ + n2 + ",\"op\":"@ + label@;
    let h4 = h3 + ",\"op_age_ms\":"@ + n3;
    let h5 = h4 + ",\"render_us\":"@ + n4;
    let t5 = end;
    let t4 = ",\"count\":"@ + n5 + t5;
    let t3 = ",\"render_us\":"@ + n4 + t4;
    let t2 = ",\"op\":"@ + label@ + (",\"op_age_ms\":"@ + n3 + t3);
    let t1 = ",\"drift_ms\":"@ + n2 + t2;
    lemma_parts(h4 + ",\"render_us\":"@ + n4, ",\"count\":"@, n5, t5);
    lemma_parts(h4, ",\"render_us\":"@, n4, t4);
    lemma_parts(h3, ",\"op_age_ms\":"@, n3, t3);
    lemma_parts(h2 + ",\"drift_ms\":"@ + n2, ",\"op\":"@, label@, ",\"op_age_ms\":"@ + n3 + t3);
    lemma_parts(h2, ",\"drift_ms\":"@, n2, t2);
    reveal_strlit("{\"ts_ms\":");
    reveal_strlit("\"ts_ms\":");
    reveal_strlit(",\"drift_ms\":");
    reveal_strlit("\"drift_ms\":");
    reveal_strlit(",\"op_age_ms\":");
    reveal_strlit("\"op_age_ms\":");
    reveal_strlit(",\"render_us\":");
    reveal_strlit("\"render_us\":");
    reveal_strlit(",\"count\":");
    reveal_strlit("\"count\":");
    reveal_strlit("}\n");
    assert(h1 + "{\"ts_ms\":"@ + n1 + t1 =~= h2 + t1);
    lemma_behind_its_key(h1, '{', "{\"ts_ms\":"@, "\"ts_ms\":"@, n1, t1);
    lemma_behind_its_key(h2, ',', ",\"drift_ms\":"@, "\"drift_ms\":"@, n2, t2);
    lemma_behind_its_key(h3, ',', ",\"op_age_ms\":"@, "\"op_age_ms\":"@, n3, t3);
    lemma_behind_its_key(h4, ',', ",\"render_us\":"@, "\"render_us\":"@, n4, t4);
    lemma_behind_its_key(h5, ',', ",\"count\":"@, "\"count\":"@, n5, t5);
}

proof fn lemma_parts(h: Seq<char>, k: Seq<char>, n: Seq<char>, t: Seq<char>)
    ensures
        h + k + n + t == h + (k + n + t),
{
    assert(h + k + n + t =~= h + (k + n + t));
}

proof fn lemma_behind_its_key(
    h: Seq<char>,
    c: char,
    k: Seq<char>,
    key: Seq<char>,
    n: Seq<char>,
    t: Seq<char>,
)
    requires
        k =~= seq![c] + key,
    ensures
        h + k + n + t == h.push(c) + (key + n) + t,
{
    assert(h + k + n + t =~= h.push(c) + (key + n) + t);
}

} // verus!
