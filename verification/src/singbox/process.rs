//! The sing-box process, its decisions: the log pipeline (a capped ring and
//! a batch of lines not yet sent), log-line parsing, readable failure
//! texts, the clash-api readiness budget and the crash-restart schedule.

use vstd::prelude::*;
use vstd::string::*;

use crate::error::{AppError, ErrorView};
use crate::events::{copy_line, CrashInfo, LogLine};
use crate::text::{
    chars_of, copy_range, eq_str, join, join_exec, lower_chars, lower_seq, push_all, push_str,
    seq_views, split_char, split_chars, split_trimmed, string_of, strings_text, trim, trim_chars,
    trimmed_nonempty,
};

verus! {

/// Most lines the ring (and the unsent batch) keeps.
pub const LOG_CAP: usize = 2000;

/// Longest user-facing error message, in characters.
pub const MAX_REASON_CHARS: usize = 160;

/// The last `n` elements (all of them when there are fewer).
pub open spec fn keep_last<A>(s: Seq<A>, n: nat) -> Seq<A> {
    if s.len() <= n {
        s
    } else {
        s.subrange(s.len() - n, s.len() as int)
    }
}

/// Milliseconds since the Unix epoch, from the system clock.
#[verifier::external_body]
pub fn now_ms() -> (r: i64) {
    chrono::Utc::now().timestamp_millis()
}

// ---------------------------------------------------------------------------
// Log ring buffer
// ---------------------------------------------------------------------------

/// The log pipeline: the newest lines (the Logs page) and the lines not yet
/// sent to the frontend, both capped at `LOG_CAP`, oldest dropped first.
pub struct LogBuffer {
    ring: Vec<LogLine>,
    pending: Vec<LogLine>,
}

impl View for LogBuffer {
    /// The ring and the unsent lines, oldest first.
    type V = (Seq<LogLine>, Seq<LogLine>);

    closed spec fn view(&self) -> (Seq<LogLine>, Seq<LogLine>) {
        (self.ring@, self.pending@)
    }
}

impl LogBuffer {
    /// Both lists stay within the cap.
    #[verifier::type_invariant]
    spec fn within_cap(self) -> bool {
        self.ring@.len() <= LOG_CAP && self.pending@.len() <= LOG_CAP
    }

    pub fn new() -> (r: Self)
        ensures
            r@.0.len() == 0,
            r@.1.len() == 0,
    {
        LogBuffer { ring: Vec::new(), pending: Vec::new() }
    }

    /// Appends a line to the ring and to the unsent batch.
    pub fn push(&mut self, line: LogLine)
        ensures
            final(self)@.0 == keep_last(old(self)@.0.push(line), LOG_CAP as nat),
            final(self)@.1 == keep_last(old(self)@.1.push(line), LOG_CAP as nat),
    {
        proof {
            use_type_invariant(&*self);
        }
        let copy = copy_line(&line);
        let mut ring: Vec<LogLine> = Vec::new();
        std::mem::swap(&mut ring, &mut self.ring);
        let mut pending: Vec<LogLine> = Vec::new();
        std::mem::swap(&mut pending, &mut self.pending);
        let ghost r0 = ring@;
        let ghost p0 = pending@;
        ring.push(copy);
        if ring.len() > LOG_CAP {
            ring.remove(0);
            assert(ring@ =~= keep_last(r0.push(line), LOG_CAP as nat));
        }
        pending.push(line);
        if pending.len() > LOG_CAP {
            pending.remove(0);
            assert(pending@ =~= keep_last(p0.push(line), LOG_CAP as nat));
        }
        self.ring = ring;
        self.pending = pending;
    }

    /// Appends a line stamped with the current time.
    pub fn push_now(&mut self, level: &str, message: String)
        ensures
            final(self)@.0.len() > 0,
            final(self)@.0.last().level@ == level@,
            final(self)@.0.last().message@ == message@,
            final(self)@.0 == keep_last(old(self)@.0.push(final(self)@.0.last()), LOG_CAP as nat),
            final(self)@.1 == keep_last(old(self)@.1.push(final(self)@.0.last()), LOG_CAP as nat),
    {
        let line = LogLine { ts: now_ms(), level: String::from_str(level), message };
        self.push(line);
    }

    /// The newest `limit` lines of the ring, oldest first.
    pub fn tail(&self, limit: usize) -> (r: Vec<LogLine>)
        ensures
            r@ == keep_last(self@.0, limit as nat),
    {
        let n = self.ring.len();
        let skip = if n > limit {
            n - limit
        } else {
            0
        };
        let mut r: Vec<LogLine> = Vec::new();
        let mut i = skip;
        while i < n
            invariant
                skip <= i <= n,
                n == self.ring@.len(),
                r@ == self.ring@.subrange(skip as int, i as int),
            decreases n - i,
        {
            r.push(copy_line(&self.ring[i]));
            i += 1;
            assert(r@ =~= self.ring@.subrange(skip as int, i as int));
        }
        assert(keep_last(self@.0, limit as nat) =~= self.ring@.subrange(skip as int, n as int));
        r
    }

    /// Drops every line, sent or not.
    pub fn clear(&mut self)
        ensures
            final(self)@.0.len() == 0,
            final(self)@.1.len() == 0,
    {
        proof {
            use_type_invariant(&*self);
        }
        self.ring = Vec::new();
        self.pending = Vec::new();
    }

    /// Takes the unsent lines, leaving the ring as it is.
    pub fn drain_pending(&mut self) -> (r: Vec<LogLine>)
        ensures
            r@ == old(self)@.1,
            r@.len() <= LOG_CAP,
            final(self)@.0 == old(self)@.0,
            final(self)@.1.len() == 0,
    {
        proof {
            use_type_invariant(&*self);
        }
        let mut out: Vec<LogLine> = Vec::new();
        std::mem::swap(&mut out, &mut self.pending);
        out
    }
}

/// After any run of pushes the ring holds the newest lines: pushing a line
/// onto a ring that was already full drops exactly the oldest one.
pub proof fn lemma_full_ring_drops_oldest(ring: Seq<LogLine>, line: LogLine)
    requires
        ring.len() == LOG_CAP,
    ensures
        keep_last(ring.push(line), LOG_CAP as nat) == ring.drop_first().push(line),
{
    assert(keep_last(ring.push(line), LOG_CAP as nat) =~= ring.drop_first().push(line));
}

/// The ring (or unsent batch) after `lines` are pushed one by one onto
/// `start`, each push keeping the newest `LOG_CAP` lines as `push` does.
pub open spec fn after_pushes(start: Seq<LogLine>, lines: Seq<LogLine>) -> Seq<LogLine>
    decreases lines.len(),
{
    if lines.len() == 0 {
        start
    } else {
        keep_last(after_pushes(start, lines.drop_last()).push(lines.last()), LOG_CAP as nat)
    }
}

/// Trimming before a push keeps the same newest lines as trimming after it.
proof fn lemma_keep_last_push(x: Seq<LogLine>, l: LogLine, n: nat)
    requires
        n > 0,
    ensures
        keep_last(keep_last(x, n).push(l), n) == keep_last(x.push(l), n),
{
    assert(keep_last(keep_last(x, n).push(l), n) =~= keep_last(x.push(l), n));
}

/// After any run of pushes the lines kept are the newest `LOG_CAP` of all
/// lines seen, in push order: from a new buffer, `n` pushes leave the last
/// `min(n, LOG_CAP)` of them, in the ring and in the unsent batch alike.
pub proof fn lemma_pushes_keep_newest(start: Seq<LogLine>, lines: Seq<LogLine>)
    requires
        start.len() <= LOG_CAP,
    ensures
        after_pushes(start, lines) == keep_last(start + lines, LOG_CAP as nat),
        after_pushes(start, lines).len() <= LOG_CAP,
    decreases lines.len(),
{
    if lines.len() == 0 {
        assert(start + lines =~= start);
    } else {
        let init = lines.drop_last();
        lemma_pushes_keep_newest(start, init);
        lemma_keep_last_push(start + init, lines.last(), LOG_CAP as nat);
        assert((start + init).push(lines.last()) =~= start + lines);
    }
}

/// From a new buffer, `n` pushes leave exactly the last `min(n, LOG_CAP)`
/// lines pushed, in push order, in the ring and in the unsent batch alike.
pub proof fn lemma_new_buffer_keeps_last(lines: Seq<LogLine>)
    ensures
        after_pushes(Seq::empty(), lines) == keep_last(lines, LOG_CAP as nat),
        after_pushes(Seq::empty(), lines).len() == if lines.len() <= LOG_CAP {
            lines.len()
        } else {
            LOG_CAP as nat
        },
{
    lemma_pushes_keep_newest(Seq::empty(), lines);
    assert(Seq::<LogLine>::empty() + lines =~= lines);
}

/// `tail(n)` returns `min(n, len)` lines, the last of them the newest.
pub proof fn lemma_tail_len(ring: Seq<LogLine>, n: nat)
    ensures
        keep_last(ring, n).len() == if ring.len() <= n {
            ring.len()
        } else {
            n
        },
        ring.len() > 0 && n > 0 ==> keep_last(ring, n).last() == ring.last(),
{
}

// ---------------------------------------------------------------------------
// Log line parsing
// ---------------------------------------------------------------------------

/// The level name this client uses for a sing-box level token (any case):
/// the five standard ones as they are, `warning` as `warn`, `fatal` and
/// `panic` as `error`.
pub open spec fn level_spec(token: Seq<char>) -> Option<Seq<char>> {
    let l = lower_seq(token);
    if l == "trace"@ || l == "debug"@ || l == "info"@ || l == "warn"@ || l == "error"@ {
        Some(l)
    } else if l == "warning"@ {
        Some("warn"@)
    } else if l == "fatal"@ || l == "panic"@ {
        Some("error"@)
    } else {
        None
    }
}

/// Maps a sing-box level token onto this client's level names.
pub fn normalize_level(token: &str) -> (r: Option<String>)
    ensures
        crate::url_text::opt_text(r) == level_spec(token@),
{
    let l = lower_chars(&chars_of(token));
    if eq_str(&l, "trace") || eq_str(&l, "debug") || eq_str(&l, "info") || eq_str(&l, "warn")
        || eq_str(&l, "error") {
        Some(string_of(&l))
    } else if eq_str(&l, "warning") {
        Some(String::from_str("warn"))
    } else if eq_str(&l, "fatal") || eq_str(&l, "panic") {
        Some(String::from_str("error"))
    } else {
        None
    }
}

pub open spec fn is_ascii_digit(c: char) -> bool {
    '0' <= c && c <= '9'
}

/// A UTC offset as sing-box writes it: a sign and four digits.
pub open spec fn valid_offset(o: Seq<char>) -> bool {
    &&& o.len() == 5
    &&& (o[0] == '+' || o[0] == '-')
    &&& forall|i: int| 1 <= i < 5 ==> is_ascii_digit(#[trigger] o[i])
}

/// What `chrono::DateTime::parse_from_str(text, "%Y-%m-%d %H:%M:%S %z")`
/// makes of a text: the instant's `timestamp_millis()`, or `None`.
pub uninterp spec fn log_time_millis(text: Seq<char>) -> Option<i64>;

/// Calls `chrono::DateTime::parse_from_str` with the format sing-box logs
/// in and reads `timestamp_millis()`; the contract claims only that the
/// outcome is `log_time_millis` of the text.
#[verifier::external_body]
fn parse_log_time(text: &str) -> (r: Option<i64>)
    ensures
        r == log_time_millis(text@),
{
    chrono::DateTime::parse_from_str(text, "%Y-%m-%d %H:%M:%S %z").ok().map(|dt| dt.timestamp_millis())
}

/// The pieces of `line.splitn(5, ' ')`: the first four fields, then the rest
/// of the line.
pub open spec fn fifth_field(parts: Seq<Seq<char>>) -> Seq<char> {
    if parts.len() >= 5 {
        join(parts.subrange(4, parts.len() as int), " "@)
    } else {
        Seq::empty()
    }
}

/// A parsed line, its timestamp aside: `Some((level, message, date text))`
/// for `<offset> <date> <time> <level> <message>`, `None` when the offset
/// or the level is not one sing-box writes.
pub open spec fn parsed_fields(line: Seq<char>) -> Option<(Seq<char>, Seq<char>, Seq<char>)> {
    let parts = split_char(line, ' ');
    if parts.len() < 4 || !valid_offset(parts[0]) {
        None
    } else {
        match level_spec(parts[3]) {
            None => None,
            Some(level) => Some(
                (level, fifth_field(parts), parts[1] + " "@ + parts[2] + " "@ + parts[0]),
            ),
        }
    }
}

fn valid_offset_exec(o: &[char]) -> (r: bool)
    ensures
        r == valid_offset(o@),
{
    if o.len() != 5 || !(o[0] == '+' || o[0] == '-') {
        return false;
    }
    let mut i: usize = 1;
    while i < 5
        invariant
            1 <= i <= 5,
            o@.len() == 5,
            forall|j: int| 1 <= j < i ==> is_ascii_digit(#[trigger] o@[j]),
        decreases 5 - i,
    {
        if !('0' <= o[i] && o[i] <= '9') {
            return false;
        }
        i += 1;
    }
    true
}

/// Parses `<offset> <date> <time> <level> <message>` as sing-box writes its
/// log. The timestamp is the line's own when it parses, the current time
/// otherwise.
pub fn try_parse(line: &str) -> (r: Option<LogLine>)
    ensures
        match parsed_fields(line@) {
            None => r is None,
            Some((level, message, when)) => r matches Some(l) && l.level@ == level && l.message@
                == message && (log_time_millis(when) matches Some(ms) ==> l.ts == ms),
        },
{
    let parts = split_chars(&chars_of(line), ' ');
    let ghost pv = seq_views(parts@);
    if parts.len() < 4 || !valid_offset_exec(&parts[0]) {
        return None;
    }
    assert(pv[0] == parts@[0]@);
    let level = match normalize_level(string_of(&parts[3]).as_str()) {
        Some(l) => l,
        None => {
            return None;
        },
    };
    let message = if parts.len() >= 5 {
        let mut rest: Vec<Vec<char>> = Vec::new();
        let mut k: usize = 4;
        while k < parts.len()
            invariant
                4 <= k <= parts@.len(),
                pv == seq_views(parts@),
                seq_views(rest@) == pv.subrange(4, k as int),
            decreases parts.len() - k,
        {
            let piece = copy_range(&parts[k], 0, parts[k].len());
            assert(piece@ =~= pv[k as int]);
            let ghost before = rest@;
            rest.push(piece);
            assert(seq_views(rest@) =~= seq_views(before).push(pv[k as int]));
            k += 1;
            assert(seq_views(rest@) =~= pv.subrange(4, k as int));
        }
        join_exec(&rest, " ")
    } else {
        Vec::new()
    };
    assert(message@ == fifth_field(pv));
    let mut when = copy_range(&parts[1], 0, parts[1].len());
    assert(when@ =~= pv[1]);
    push_str(&mut when, " ");
    push_all(&mut when, &parts[2]);
    push_str(&mut when, " ");
    push_all(&mut when, &parts[0]);
    assert(when@ == pv[1] + " "@ + pv[2] + " "@ + pv[0]);
    let ts = match parse_log_time(string_of(&when).as_str()) {
        Some(ms) => ms,
        None => now_ms(),
    };
    Some(LogLine { ts, level, message: string_of(&message) })
}

/// Best-effort parse of a sing-box log line; anything that does not match
/// becomes an `info` line with the raw text and the current time.
pub fn parse_log_line(line: &str) -> (r: LogLine)
    ensures
        match parsed_fields(line@) {
            None => r.level@ == "info"@ && r.message@ == line@,
            Some((level, message, when)) => r.level@ == level && r.message@ == message && (
            log_time_millis(when) matches Some(ms) ==> r.ts == ms),
        },
{
    match try_parse(line) {
        Some(l) => l,
        None => LogLine { ts: now_ms(), level: String::from_str("info"), message: String::from_str(line) },
    }
}

// ---------------------------------------------------------------------------
// Failure texts
// ---------------------------------------------------------------------------

/// The last `max` characters of a text.
pub fn tail_str(s: &str, max: usize) -> (r: String)
    ensures
        r@ == keep_last(s@, max as nat),
{
    let c = chars_of(s);
    if c.len() <= max {
        return String::from_str(s);
    }
    string_of(&copy_range(&c, c.len() - max, c.len()))
}

/// The first line that is not blank, trimmed.
pub open spec fn first_meaningful(lines: Seq<Seq<char>>) -> Option<Seq<char>>
    decreases lines.len(),
{
    if lines.len() == 0 {
        None
    } else if trim(lines[0]).len() > 0 {
        Some(trim(lines[0]))
    } else {
        first_meaningful(lines.drop_first())
    }
}

/// What a toast shows of a multi-line failure: its first meaningful line,
/// cut to `MAX_REASON_CHARS` characters with an ellipsis.
pub open spec fn short_reason_spec(text: Seq<char>) -> Seq<char> {
    let line = match first_meaningful(split_char(text, '\n')) {
        Some(l) => l,
        None => "no details available"@,
    };
    if line.len() <= MAX_REASON_CHARS {
        line
    } else {
        line.subrange(0, MAX_REASON_CHARS - 1).push('…')
    }
}

fn first_meaningful_exec(lines: &Vec<Vec<char>>) -> (r: Option<Vec<char>>)
    ensures
        crate::parser::vless::opt_chars(r) == first_meaningful(seq_views(lines@)),
{
    let ghost lv = seq_views(lines@);
    let mut i: usize = 0;
    assert(lv.subrange(0, lv.len() as int) =~= lv);
    while i < lines.len()
        invariant
            i <= lines@.len(),
            lv == seq_views(lines@),
            first_meaningful(lv) == first_meaningful(lv.subrange(i as int, lv.len() as int)),
        decreases lines.len() - i,
    {
        let ghost rest = lv.subrange(i as int, lv.len() as int);
        assert(rest.drop_first() =~= lv.subrange(i + 1, lv.len() as int));
        assert(rest[0] == lines@[i as int]@);
        let t = trim_chars(&lines[i]);
        if t.len() > 0 {
            return Some(t);
        }
        i += 1;
    }
    None
}

/// Squeezes a multi-line core failure into one line a toast can show.
pub fn short_reason(text: &str) -> (r: String)
    ensures
        r@ == short_reason_spec(text@),
        r@.len() <= MAX_REASON_CHARS,
{
    let lines = split_chars(&chars_of(text), '\n');
    let line = match first_meaningful_exec(&lines) {
        Some(l) => l,
        None => chars_of("no details available"),
    };
    proof {
        reveal_strlit("no details available");
    }
    if line.len() <= MAX_REASON_CHARS {
        return string_of(&line);
    }
    let mut out = copy_range(&line, 0, MAX_REASON_CHARS - 1);
    out.push('…');
    string_of(&out)
}

/// Each line tagged as coming from `sing-box check`.
pub open spec fn tagged(lines: Seq<Seq<char>>) -> Seq<Seq<char>> {
    lines.map_values(|l: Seq<char>| "[sing-box check] "@ + l)
}

/// What a failed `sing-box check` reports: one log line per non-blank line
/// of the last 4000 characters of its trimmed stderr (trimmed, tagged), and
/// the error with the short reason.
pub fn check_failure(stderr: &str) -> (r: (Vec<String>, AppError))
    ensures
        r.1@ == ErrorView::CoreStartFailed(
            "invalid config: "@ + short_reason_spec(keep_last(trim(stderr@), 4000)),
        ),
        strings_text(r.0@) == tagged(
            trimmed_nonempty(split_char(keep_last(trim(stderr@), 4000), '\n')),
        ),
{
    let t = trim_chars(&chars_of(stderr));
    let detail = tail_str(string_of(&t).as_str(), 4000);
    let lines = split_trimmed(&chars_of(detail.as_str()), '\n');
    let ghost want = strings_text(lines@);
    let mut logged: Vec<String> = Vec::new();
    let mut i: usize = 0;
    while i < lines.len()
        invariant
            i <= lines@.len(),
            want == strings_text(lines@),
            strings_text(logged@) == tagged(want.subrange(0, i as int)),
        decreases lines.len() - i,
    {
        let mut l = chars_of("[sing-box check] ");
        push_str(&mut l, lines[i].as_str());
        let ghost before = logged@;
        logged.push(string_of(&l));
        i += 1;
        assert(strings_text(logged@) =~= strings_text(before).push(l@));
        assert(tagged(want.subrange(0, i as int)) =~= tagged(want.subrange(0, i - 1 as int)).push(
            "[sing-box check] "@ + want[i - 1],
        ));
    }
    assert(want.subrange(0, lines@.len() as int) =~= want);
    let mut msg = chars_of("invalid config: ");
    let reason = short_reason(detail.as_str());
    push_str(&mut msg, reason.as_str());
    (logged, AppError::CoreStartFailed(string_of(&msg)))
}

// ---------------------------------------------------------------------------
// Readiness budget and restarts
// ---------------------------------------------------------------------------

/// The clash-api readiness budget in milliseconds: 30 s plus 250 ms per
/// outbound (the count taken modulo 2^32, as `as u32` does), at most 120 s.
pub open spec fn ready_deadline_spec(outbound_count: usize) -> int {
    let scaled = 30_000 + 250 * (outbound_count as int % 4_294_967_296);
    if scaled < 120_000 {
        scaled
    } else {
        120_000
    }
}

/// The startup budget for the clash api, in milliseconds, scaled by how
/// many outbounds the core has to bring up.
pub fn ready_deadline(outbound_count: usize) -> (r: u64)
    ensures
        r == ready_deadline_spec(outbound_count),
{
    let n: u64 = (outbound_count as u64) % 4_294_967_296;
    assert(n == outbound_count as int % 4_294_967_296);
    let scaled: u64 = 30_000 + 250 * n;
    if scaled < 120_000 {
        scaled
    } else {
        120_000
    }
}

/// The readiness budget never shrinks as outbounds are added (below the
/// 2^32 wrap) and never exceeds two minutes.
pub proof fn lemma_ready_deadline_monotone(a: usize, b: usize)
    requires
        a <= b < 4_294_967_296,
    ensures
        ready_deadline_spec(a) <= ready_deadline_spec(b),
        30_000 <= ready_deadline_spec(b) <= 120_000,
{
}

/// Seconds to wait before restart attempt `attempt`: 1, 3, then 9.
pub fn backoff_secs(attempt: u32) -> (r: u64)
    ensures
        r == if attempt <= 1 {
            1u64
        } else if attempt == 2 {
            3u64
        } else {
            9u64
        },
{
    match attempt {
        0 | 1 => 1,
        2 => 3,
        _ => 9,
    }
}

/// Most restarts in a row before giving up.
pub const MAX_RESTART_ATTEMPTS: u32 = 3;

/// Uptime after which a crash counts as the first of a new streak, in ms.
pub const HEALTHY_RESET_MS: u64 = 60_000;

/// The attempt counter when the core exits after `uptime_ms` of running: a
/// core that stayed up a minute starts a new streak.
pub fn attempts_after_exit(attempt: u32, uptime_ms: u64) -> (r: u32)
    ensures
        r == if uptime_ms >= HEALTHY_RESET_MS {
            0
        } else {
            attempt
        },
{
    if uptime_ms >= HEALTHY_RESET_MS {
        0
    } else {
        attempt
    }
}

/// One step of the crash loop (after an exit, or after a failed respawn
/// with no exit code): the new attempt count, the crash report, and the
/// delay before restarting, or `None` to give up.
pub fn crash_step(attempt: u32, code: Option<i32>) -> (r: (u32, CrashInfo, Option<u64>))
    requires
        attempt < u32::MAX,
    ensures
        r.0 == attempt + 1,
        r.1 == (CrashInfo { code, will_restart: attempt + 1 <= MAX_RESTART_ATTEMPTS, attempt: r.0 }),
        r.1.will_restart ==> r.2 == Some(
            if r.0 <= 1 {
                1u64
            } else if r.0 == 2 {
                3u64
            } else {
                9u64
            },
        ),
        !r.1.will_restart ==> r.2 is None,
{
    let next = attempt + 1;
    let will_restart = next <= MAX_RESTART_ATTEMPTS;
    let info = CrashInfo { code, will_restart, attempt: next };
    if will_restart {
        (next, info, Some(backoff_secs(next)))
    } else {
        (next, info, None)
    }
}

/// A crash streak restarts at most three times: from a fresh streak, the
/// fourth step in a row gives up.
pub proof fn lemma_restarts_are_bounded(attempt: u32)
    requires
        attempt >= MAX_RESTART_ATTEMPTS,
        attempt < u32::MAX,
    ensures
        !(attempt + 1 <= MAX_RESTART_ATTEMPTS),
{
}

/// What a probe of the control api is worth a log line about.
#[derive(Debug, Clone, Copy, PartialEq, Eq, Structural)]
pub enum ClashNote {
    /// It answers after not answering.
    Ready,
    /// It stopped answering.
    Lost,
    /// It has not answered by the deadline (said once per outage).
    StillUnreachable,
    Quiet,
}

/// One probe of the control api: from whether it answered before and now,
/// whether the "still unreachable" warning went out, and whether the
/// deadline has passed, the new warning flag and what to log. Coming back
/// clears the flag so a later outage is reported again.
pub fn probe_step(was_ready: bool, ok: bool, warned: bool, past_deadline: bool) -> (r: (
    bool,
    ClashNote,
))
    ensures
        !was_ready && ok ==> r == (false, ClashNote::Ready),
        was_ready && !ok ==> r == (warned, ClashNote::Lost),
        was_ready == ok ==> r == (if !ok && !warned && past_deadline {
            (true, ClashNote::StillUnreachable)
        } else {
            (warned, ClashNote::Quiet)
        }),
{
    if !was_ready && ok {
        (false, ClashNote::Ready)
    } else if was_ready && !ok {
        (warned, ClashNote::Lost)
    } else if !ok && !warned && past_deadline {
        (true, ClashNote::StillUnreachable)
    } else {
        (warned, ClashNote::Quiet)
    }
}

/// The error for a core that exited during its startup window.
pub fn startup_exit_error(code: Option<i32>) -> (e: AppError)
    ensures
        e@ == ErrorView::CoreStartFailed(
            "the core exited immediately (code "@ + match code {
                Some(c) => crate::proxy::signed_decimal(c as int),
                None => "unknown"@,
            } + ") — see Logs for details"@,
        ),
{
    let mut msg: Vec<char> = Vec::new();
    push_str(&mut msg, "the core exited immediately (code ");
    match code {
        Some(c) => push_all(&mut msg, &crate::proxy::signed_decimal_exec(c as isize)),
        None => push_str(&mut msg, "unknown"),
    }
    push_str(&mut msg, ") — see Logs for details");
    AppError::CoreStartFailed(string_of(&msg))
}

} // verus!
