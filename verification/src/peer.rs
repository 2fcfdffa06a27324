//! The decisions of a peer link: cleaning and classifying what a remote
//! process writes to stderr, the reconnect backoff, and the per-route
//! health the reconnect loop keeps.

use vstd::prelude::*;

use crate::api::{PeerReachability, PeerRoute, RouteHealth as WireHealth};
use crate::jobs::{format_rfc3339, shown};
use crate::schema::RouteConfig;
use crate::text::{
    chars_of, is_unicode_whitespace, lemma_scan_while, lemma_scan_while_is, push_char, push_str, scan_while,
    str_eq, string_of, to_owned_string, unicode_whitespace, ws,
};

verus! {

// ---------------------------------------------------------------------
// ANSI escapes
// ---------------------------------------------------------------------

/// A CSI sequence ends at a final byte in `0x40..=0x7e`.
pub open spec fn csi_final(c: char) -> bool {
    '\u{40}' <= c && c <= '\u{7e}'
}

/// Not a CSI final byte, as a predicate value.
pub open spec fn csi_body() -> spec_fn(char) -> bool {
    |c: char| !csi_final(c)
}

/// `s` with every escape sequence removed: a CSI sequence (`ESC [`
/// through its final byte, or to the end when none comes) goes whole;
/// any other `ESC` goes alone.
pub open spec fn strip_escapes(s: Seq<char>) -> Seq<char>
    decreases s.len(),
{
    if s.len() == 0 {
        Seq::empty()
    } else if s[0] != '\u{1b}' {
        seq![s[0]] + strip_escapes(s.drop_first())
    } else if s.len() > 1 && s[1] == '[' {
        let j = scan_while(s, 2, csi_body());
        if j < s.len() {
            proof {
                lemma_scan_while(s, 2, csi_body());
            }
            strip_escapes(s.subrange(j + 1, s.len() as int))
        } else {
            Seq::empty()
        }
    } else {
        strip_escapes(s.drop_first())
    }
}

/// Strips ANSI escape sequences (colour codes and friends) from a line
/// a remote process wrote to stderr.
pub fn strip_ansi(s: &str) -> (r: String)
    ensures
        r@ == strip_escapes(s@),
{
    let v = chars_of(s);
    let n = v.len();
    let mut out = String::new();
    let mut i: usize = 0;
    assert(v@.subrange(0, n as int) =~= v@);
    assert(out@ + strip_escapes(v@) =~= strip_escapes(v@));
    while i < n
        invariant
            i <= n == v@.len(),
            strip_escapes(v@) == out@ + strip_escapes(v@.subrange(i as int, n as int)),
        decreases n - i,
    {
        let ghost t = v@.subrange(i as int, n as int);
        let c = v[i];
        if c != '\u{1b}' {
            push_char(&mut out, c);
            proof {
                assert(t.drop_first() =~= v@.subrange(i + 1, n as int));
                assert(strip_escapes(t) == seq![c] + strip_escapes(t.drop_first()));
                assert(out@ + strip_escapes(v@.subrange(i + 1, n as int)) =~= (out@.drop_last() + seq![c])
                    + strip_escapes(t.drop_first()));
            }
            i += 1;
        } else if i + 1 < n && v[i + 1] == '[' {
            let mut j = i + 2;
            while j < n && !('\u{40}' <= v[j] && v[j] <= '\u{7e}')
                invariant
                    i + 2 <= j <= n == v@.len(),
                    forall|k: int| i + 2 <= k < j ==> !csi_final(#[trigger] v@[k]),
                decreases n - j,
            {
                j += 1;
            }
            proof {
                lemma_scan_while_is(t, 2, j - i, csi_body());
            }
            if j < n {
                proof {
                    assert(t.subrange(j - i + 1, t.len() as int) =~= v@.subrange(j + 1, n as int));
                }
                i = j + 1;
            } else {
                proof {
                    assert(v@.subrange(n as int, n as int) =~= Seq::<char>::empty());
                }
                i = n;
            }
        } else {
            proof {
                assert(t.drop_first() =~= v@.subrange(i + 1, n as int));
            }
            i += 1;
        }
    }
    proof {
        assert(v@.subrange(n as int, n as int) =~= Seq::<char>::empty());
        assert(out@ + Seq::<char>::empty() =~= out@);
    }
    out
}

/// Stripping leaves no escape character behind.
pub proof fn lemma_stripped_has_no_escape(s: Seq<char>)
    ensures
        !strip_escapes(s).contains('\u{1b}'),
    decreases s.len(),
{
    if s.len() == 0 {
    } else if s[0] != '\u{1b}' {
        lemma_stripped_has_no_escape(s.drop_first());
        let rest = strip_escapes(s.drop_first());
        let out = seq![s[0]] + rest;
        assert forall|k: int| 0 <= k < out.len() implies out[k] != '\u{1b}' by {
            if k > 0 {
                assert(out[k] == rest[k - 1]);
            }
        }
    } else if s.len() > 1 && s[1] == '[' {
        let j = scan_while(s, 2, csi_body());
        lemma_scan_while(s, 2, csi_body());
        if j < s.len() {
            lemma_stripped_has_no_escape(s.subrange(j + 1, s.len() as int));
        }
    } else {
        lemma_stripped_has_no_escape(s.drop_first());
    }
}

/// Text without escape characters passes through unchanged.
pub proof fn lemma_plain_text_unchanged(s: Seq<char>)
    requires
        !s.contains('\u{1b}'),
    ensures
        strip_escapes(s) == s,
    decreases s.len(),
{
    if s.len() > 0 {
        assert(s[0] != '\u{1b}');
        assert forall|k: int| 0 <= k < s.drop_first().len() implies s.drop_first()[k] != '\u{1b}' by {
            assert(s.drop_first()[k] == s[k + 1]);
        }
        lemma_plain_text_unchanged(s.drop_first());
        assert(seq![s[0]] + s.drop_first() =~= s);
    }
}

// ---------------------------------------------------------------------
// A remote stderr line
// ---------------------------------------------------------------------

/// The severity a line is re-emitted at.
#[derive(Debug, Clone, Copy, PartialEq, Eq)]
pub enum Severity {
    Trace,
    Debug,
    Info,
    Warn,
    Error,
}

/// The first whitespace at or after `i`, or the end.
pub open spec fn next_ws(s: Seq<char>, i: int) -> int {
    scan_while(s, i, |c: char| !is_unicode_whitespace(c))
}

/// The three fields `splitn(3, char::is_whitespace)` gives: timestamp,
/// level, and the rest (missing fields are empty).
pub open spec fn level_field(s: Seq<char>) -> Seq<char> {
    let w1 = next_ws(s, 0);
    if w1 >= s.len() { Seq::empty() } else { s.subrange(w1 + 1, next_ws(s, w1 + 1)) }
}

/// The third field (everything after the second whitespace).
pub open spec fn rest_field(s: Seq<char>) -> Seq<char> {
    let w1 = next_ws(s, 0);
    if w1 >= s.len() {
        Seq::empty()
    } else {
        let w2 = next_ws(s, w1 + 1);
        if w2 >= s.len() { Seq::empty() } else { s.subrange(w2 + 1, s.len() as int) }
    }
}

/// `s` without leading whitespace.
pub open spec fn trim_start(s: Seq<char>) -> Seq<char> {
    s.subrange(scan_while(s, 0, ws()), s.len() as int)
}

/// The first index at or after `i` where `": "` starts, or `None`.
pub open spec fn colon_space_from(s: Seq<char>, i: int) -> Option<int>
    decreases s.len() - i,
{
    if i < 0 || i + 1 >= s.len() {
        None
    } else if s[i] == ':' && s[i + 1] == ' ' {
        Some(i)
    } else {
        colon_space_from(s, i + 1)
    }
}

/// The message part of a formatted line's rest: what follows the first
/// `": "` (the `target: ` prefix), or all of it.
pub open spec fn message_of(rest: Seq<char>) -> Seq<char> {
    match colon_space_from(rest, 0) {
        Some(p) => rest.subrange(p + 2, rest.len() as int),
        None => rest,
    }
}

/// The severity a level field names, if it is one.
pub open spec fn severity_of(level: Seq<char>) -> Option<Severity> {
    if level == "TRACE"@ {
        Some(Severity::Trace)
    } else if level == "DEBUG"@ {
        Some(Severity::Debug)
    } else if level == "INFO"@ {
        Some(Severity::Info)
    } else if level == "WARN"@ {
        Some(Severity::Warn)
    } else if level == "ERROR"@ {
        Some(Severity::Error)
    } else {
        None
    }
}

/// How a remote stderr line is re-emitted: a line formatted by the
/// remote's tracing layer (`<time> LEVEL target: message`) at its own
/// level, without the prefix; anything else whole, at warning level.
pub open spec fn remote_line(peer: Seq<char>, channel: Seq<char>, raw: Seq<char>) -> (Severity, Seq<char>) {
    let line = strip_escapes(raw);
    let head = peer + seq![' '] + channel + ": "@;
    match severity_of(level_field(line)) {
        Some(sev) => (sev, head + message_of(trim_start(rest_field(line)))),
        None => (Severity::Warn, head + line),
    }
}

fn find_ws(v: &Vec<char>, i: usize) -> (r: usize)
    requires
        i <= v@.len(),
    ensures
        r == next_ws(v@, i as int),
        i <= r <= v@.len(),
{
    let mut j = i;
    while j < v.len() && !unicode_whitespace(v[j])
        invariant
            i <= j <= v@.len(),
            forall|k: int| i <= k < j ==> !is_unicode_whitespace(#[trigger] v@[k]),
        decreases v.len() - j,
    {
        j += 1;
    }
    proof {
        lemma_scan_while_is(v@, i as int, j as int, |c: char| !is_unicode_whitespace(c));
    }
    j
}

fn find_colon_space(v: &Vec<char>) -> (r: Option<usize>)
    ensures
        match r {
            Some(p) => colon_space_from(v@, 0) == Some(p as int) && p + 1 < v@.len(),
            None => colon_space_from(v@, 0) is None,
        },
{
    let mut i: usize = 0;
    while i < v.len() && i + 1 < v.len()
        invariant
            i <= v@.len(),
            colon_space_from(v@, 0) == colon_space_from(v@, i as int),
        decreases v.len() - i,
    {
        if v[i] == ':' && v[i + 1] == ' ' {
            return Some(i);
        }
        i += 1;
    }
    None
}

fn severity_from(level: &str) -> (r: Option<Severity>)
    ensures
        r == severity_of(level@),
{
    if str_eq(level, "TRACE") {
        Some(Severity::Trace)
    } else if str_eq(level, "DEBUG") {
        Some(Severity::Debug)
    } else if str_eq(level, "INFO") {
        Some(Severity::Info)
    } else if str_eq(level, "WARN") {
        Some(Severity::Warn)
    } else if str_eq(level, "ERROR") {
        Some(Severity::Error)
    } else {
        None
    }
}

/// Classifies one line of a remote process's stderr, for re-emission as
/// `<peer> <channel>: <message>` at the returned severity.
pub fn remote_stderr(peer: &str, channel: &str, raw: &str) -> (r: (Severity, String))
    ensures
        r.0 == remote_line(peer@, channel@, raw@).0,
        r.1@ == remote_line(peer@, channel@, raw@).1,
{
    let line = strip_ansi(raw);
    let v = chars_of(line.as_str());
    let n = v.len();
    let w1 = find_ws(&v, 0);
    let (level, rest) = if w1 >= n {
        (String::new(), String::new())
    } else {
        let w2 = find_ws(&v, w1 + 1);
        let level = string_of(&v, w1 + 1, w2);
        let rest = if w2 >= n { String::new() } else { string_of(&v, w2 + 1, n) };
        (level, rest)
    };
    assert(level@ =~= level_field(v@));
    assert(rest@ =~= rest_field(v@));
    let mut head = to_owned_string(peer);
    push_char(&mut head, ' ');
    push_str(&mut head, channel);
    push_str(&mut head, ": ");
    match severity_from(level.as_str()) {
        None => {
            push_str(&mut head, line.as_str());
            (Severity::Warn, head)
        },
        Some(sev) => {
            let rv = chars_of(rest.as_str());
            let mut a: usize = 0;
            while a < rv.len() && unicode_whitespace(rv[a])
                invariant
                    a <= rv@.len(),
                    forall|k: int| 0 <= k < a ==> is_unicode_whitespace(#[trigger] rv@[k]),
                decreases rv.len() - a,
            {
                a += 1;
            }
            proof {
                lemma_scan_while_is(rv@, 0, a as int, ws());
            }
            let tv = crate::text::slice_chars(rv.as_slice(), a, rv.len());
            assert(tv@ =~= trim_start(rest@));
            let msg = match find_colon_space(&tv) {
                Some(p) => string_of(&tv, p + 2, tv.len()),
                None => crate::text::string_from_chars(tv.as_slice()),
            };
            assert(msg@ == message_of(tv@));
            push_str(&mut head, msg.as_str());
            (sev, head)
        },
    }
}

// ---------------------------------------------------------------------
// Reconnect
// ---------------------------------------------------------------------

/// Seconds to wait before reconnect attempt `attempt` (0 = the first
/// retry after a fresh disconnect): 1, 2, 4, ... doubling, capped at 60.
pub open spec fn backoff_secs(attempt: u32) -> u64 {
    let shift: nat = if attempt < 6 { attempt as nat } else { 6 };
    let secs: u64 = if shift == 0 { 1 } else if shift == 1 { 2 } else if shift == 2 { 4 } else if shift == 3 { 8 }
        else if shift == 4 { 16 } else if shift == 5 { 32 } else { 64 };
    if secs > 60 { 60 } else { secs }
}

/// The reconnect backoff for `attempt`, in seconds.
pub fn next_delay(attempt: u32) -> (r: u64)
    ensures
        r == backoff_secs(attempt),
        1 <= r <= 60,
{
    let shift: u32 = if attempt < 6 { attempt } else { 6 };
    let mut secs: u64 = 1;
    let mut k: u32 = 0;
    while k < shift
        invariant
            k <= shift <= 6,
            secs == (if k == 0 { 1u64 } else if k == 1 { 2 } else if k == 2 { 4 } else if k == 3 { 8 }
                else if k == 4 { 16 } else if k == 5 { 32 } else { 64 }),
        decreases shift - k,
    {
        secs = secs * 2;
        k += 1;
    }
    if secs > 60 { 60 } else { secs }
}

/// `a` is a subsequence of `b`: `b` with some characters left out.
pub open spec fn subseq_of(a: Seq<char>, b: Seq<char>) -> bool
    decreases b.len(),
{
    if a.len() == 0 {
        true
    } else if b.len() == 0 {
        false
    } else if a[0] == b[0] {
        subseq_of(a.drop_first(), b.drop_first())
    } else {
        subseq_of(a, b.drop_first())
    }
}

proof fn lemma_subseq_drop_first(a: Seq<char>, b: Seq<char>)
    requires
        a.len() > 0,
        subseq_of(a, b),
    ensures
        subseq_of(a.drop_first(), b),
    decreases b.len(),
{
    let a1 = a.drop_first();
    if a1.len() > 0 && b.len() > 0 {
        if a[0] == b[0] {
            if a1[0] == b[0] {
                lemma_subseq_drop_first(a1, b.drop_first());
                assert(a1.drop_first() == a.drop_first().drop_first());
            }
        } else {
            lemma_subseq_drop_first(a, b.drop_first());
            if a1[0] == b[0] {
                lemma_subseq_drop_first(a1, b.drop_first());
            }
        }
    }
}

proof fn lemma_subseq_prepend(a: Seq<char>, b: Seq<char>, c: char)
    requires
        subseq_of(a, b),
    ensures
        subseq_of(a, seq![c] + b),
{
    let cb = seq![c] + b;
    assert(cb.drop_first() =~= b);
    if a.len() > 0 && a[0] == c {
        lemma_subseq_drop_first(a, b);
    }
}

proof fn lemma_subseq_suffix(a: Seq<char>, b: Seq<char>, j: int)
    requires
        0 <= j <= b.len(),
        subseq_of(a, b.subrange(j, b.len() as int)),
    ensures
        subseq_of(a, b),
    decreases j,
{
    if j > 0 {
        let t = b.subrange(j - 1, b.len() as int);
        assert(t =~= seq![b[j - 1]] + b.subrange(j, b.len() as int));
        lemma_subseq_prepend(a, b.subrange(j, b.len() as int), b[j - 1]);
        lemma_subseq_suffix(a, b, j - 1);
    } else {
        assert(b.subrange(0, b.len() as int) =~= b);
    }
}

/// Stripping only leaves characters out: what remains is a
/// subsequence of the input, in its order.
pub proof fn lemma_stripped_is_subsequence(s: Seq<char>)
    ensures
        subseq_of(strip_escapes(s), s),
    decreases s.len(),
{
    if s.len() == 0 {
    } else if s[0] != '\u{1b}' {
        lemma_stripped_is_subsequence(s.drop_first());
        let out = seq![s[0]] + strip_escapes(s.drop_first());
        assert(out.drop_first() =~= strip_escapes(s.drop_first()));
    } else if s.len() > 1 && s[1] == '[' {
        let j = scan_while(s, 2, csi_body());
        lemma_scan_while(s, 2, csi_body());
        if j < s.len() {
            lemma_stripped_is_subsequence(s.subrange(j + 1, s.len() as int));
            lemma_subseq_suffix(strip_escapes(s), s, j + 1);
        }
    } else {
        lemma_stripped_is_subsequence(s.drop_first());
        assert(s =~= seq![s[0]] + s.drop_first());
        lemma_subseq_prepend(strip_escapes(s.drop_first()), s.drop_first(), s[0]);
    }
}

/// Stripping twice is stripping once.
pub proof fn lemma_strip_idempotent(s: Seq<char>)
    ensures
        strip_escapes(strip_escapes(s)) == strip_escapes(s),
{
    lemma_stripped_has_no_escape(s);
    lemma_plain_text_unchanged(strip_escapes(s));
}

/// The backoff never shrinks as attempts accumulate, and never exceeds
/// a minute.
pub proof fn lemma_backoff_monotone(a: u32, b: u32)
    requires
        a <= b,
    ensures
        backoff_secs(a) <= backoff_secs(b),
        1 <= backoff_secs(a) <= 60,
{
}

/// The last known result of connecting over one route.
#[derive(Debug, Clone)]
pub enum RouteHealth {
    /// Not attempted since a higher-priority route connected first.
    Unknown,
    Connected,
    Failed { last_error: String },
}

/// One route of a peer as the reconnect loop last saw it.
#[derive(Debug, Clone)]
pub struct RouteState {
    pub name: String,
    pub ssh_target: String,
    /// Whether scheduled replication may run while this route is active.
    pub auto: bool,
    pub health: RouteHealth,
    /// When it was last tried (unix seconds).
    pub last_checked: Option<i64>,
}

/// The state of route `r` before any attempt.
pub open spec fn fresh_state(r: RouteConfig, s: RouteState) -> bool {
    &&& s.name@ == r.name@
    &&& s.ssh_target@ == r.ssh_target@
    &&& s.auto == r.auto
    &&& s.health is Unknown
    &&& s.last_checked is None
}

/// The route states a peer starts with: one per route, in config
/// (priority) order, none attempted.
pub fn route_states(routes: &[RouteConfig]) -> (r: Vec<RouteState>)
    ensures
        r@.len() == routes@.len(),
        forall|i: int| 0 <= i < routes@.len() ==> fresh_state(routes@[i], #[trigger] r@[i]),
{
    let mut out: Vec<RouteState> = Vec::new();
    let mut i: usize = 0;
    while i < routes.len()
        invariant
            i <= routes@.len(),
            out@.len() == i,
            forall|k: int| 0 <= k < i ==> fresh_state(routes@[k], #[trigger] out@[k]),
        decreases routes.len() - i,
    {
        let r = &routes[i];
        out.push(RouteState {
            name: r.name.clone(),
            ssh_target: r.ssh_target.clone(),
            auto: r.auto,
            health: RouteHealth::Unknown,
            last_checked: None,
        });
        i += 1;
    }
    out
}

/// Records the result of trying route `idx` at `now`.
pub fn record_route_attempt(states: &mut Vec<RouteState>, idx: usize, result: Result<(), String>, now: i64)
    requires
        idx < old(states)@.len(),
    ensures
        final(states)@.len() == old(states)@.len(),
        forall|i: int| 0 <= i < old(states)@.len() && i != idx ==> #[trigger] final(states)@[i] == old(states)@[i],
        final(states)@[idx as int].name@ == old(states)@[idx as int].name@,
        final(states)@[idx as int].ssh_target@ == old(states)@[idx as int].ssh_target@,
        final(states)@[idx as int].auto == old(states)@[idx as int].auto,
        final(states)@[idx as int].last_checked == Some(now),
        match result {
            Ok(_) => final(states)@[idx as int].health is Connected,
            Err(e) => final(states)@[idx as int].health matches RouteHealth::Failed { last_error } && last_error == e,
        },
{
    let s = RouteState {
        name: states[idx].name.clone(),
        ssh_target: states[idx].ssh_target.clone(),
        auto: states[idx].auto,
        health: match result {
            Ok(()) => RouteHealth::Connected,
            Err(e) => RouteHealth::Failed { last_error: e },
        },
        last_checked: Some(now),
    };
    states.set(idx, s);
}

/// The text of the last failed route (in priority order, the lowest
/// one that failed), or `no routes attempted`.
pub open spec fn last_route_error(states: Seq<RouteState>, n: int) -> Seq<char>
    decreases n,
{
    if n <= 0 {
        "no routes attempted"@
    } else {
        match states[n - 1].health {
            RouteHealth::Failed { last_error } => last_error@,
            _ => last_route_error(states, n - 1),
        }
    }
}

/// Why a peer could not be connected over any route.
pub fn last_failure(states: &[RouteState]) -> (r: String)
    ensures
        r@ == last_route_error(states@, states@.len() as int),
{
    let mut i = states.len();
    while i > 0
        invariant
            i <= states@.len(),
            last_route_error(states@, states@.len() as int) == last_route_error(states@, i as int),
        decreases i,
    {
        match &states[i - 1].health {
            RouteHealth::Failed { last_error } => return last_error.clone(),
            _ => {},
        }
        i -= 1;
    }
    to_owned_string("no routes attempted")
}

/// Probe ticks between attempts to move back to a higher-priority route.
pub const RERANK_EVERY_TICKS: u32 = 4;

/// What the reconnect loop does on a probe tick while connected.
#[derive(Debug, Clone, Copy, PartialEq, Eq)]
pub enum TickAction {
    /// A receive is streaming: the control channel is legitimately
    /// starved, so a probe would be a false alarm.
    Skip,
    /// Probe the link; afterwards, if `rerank`, try the routes above the
    /// active one.
    Probe { rerank: bool },
}

/// The loop's state while a peer is connected.
#[derive(Debug, Clone, Copy, PartialEq, Eq)]
pub struct ParkedLink {
    /// Index of the active route.
    pub active: usize,
    /// Probe ticks since connecting (wrapping).
    pub ticks: u32,
}

/// The tick counter after one more tick.
pub open spec fn next_tick(t: u32) -> u32 {
    if t == u32::MAX { 0 } else { (t + 1) as u32 }
}

/// Advances the probe clock and decides what this tick does.
pub fn on_tick(link: &mut ParkedLink, active_recvs: usize) -> (r: TickAction)
    ensures
        final(link).active == old(link).active,
        final(link).ticks == next_tick(old(link).ticks),
        active_recvs > 0 ==> r == TickAction::Skip,
        active_recvs == 0 ==> r == (TickAction::Probe {
            rerank: old(link).active > 0 && next_tick(old(link).ticks) % RERANK_EVERY_TICKS == 0,
        }),
{
    link.ticks = if link.ticks == 0xffff_ffff { 0 } else { link.ticks + 1 };
    if active_recvs > 0 {
        return TickAction::Skip;
    }
    TickAction::Probe { rerank: link.active > 0 && link.ticks % RERANK_EVERY_TICKS == 0 }
}

/// A failed probe marks the active route failed (`probe: <error>`) at
/// `now`; the loop then reconnects.
pub fn on_probe_failed(states: &mut Vec<RouteState>, active: usize, error: &str, now: i64)
    requires
        active < old(states)@.len(),
    ensures
        final(states)@.len() == old(states)@.len(),
        forall|i: int| 0 <= i < old(states)@.len() && i != active ==> #[trigger] final(states)@[i] == old(states)@[i],
        final(states)@[active as int].name@ == old(states)@[active as int].name@,
        final(states)@[active as int].ssh_target@ == old(states)@[active as int].ssh_target@,
        final(states)@[active as int].auto == old(states)@[active as int].auto,
        final(states)@[active as int].last_checked == Some(now),
        final(states)@[active as int].health matches RouteHealth::Failed { last_error }
            && last_error@ == "probe: "@ + error@,
{
    let mut m = to_owned_string("probe: ");
    push_str(&mut m, error);
    record_route_attempt(states, active, Err(m), now);
}

/// A higher-priority route connected: the old active route goes back to
/// unknown and the better one becomes active.
pub fn on_reranked(link: &mut ParkedLink, states: &mut Vec<RouteState>, better: usize)
    requires
        old(link).active < old(states)@.len(),
        better < old(link).active,
    ensures
        final(link).active == better,
        final(link).ticks == old(link).ticks,
        final(states)@.len() == old(states)@.len(),
        forall|i: int| 0 <= i < old(states)@.len() && i != old(link).active ==> #[trigger] final(states)@[i] == old(states)@[i],
        final(states)@[old(link).active as int].health is Unknown,
        final(states)@[old(link).active as int].name@ == old(states)@[old(link).active as int].name@,
        final(states)@[old(link).active as int].ssh_target@ == old(states)@[old(link).active as int].ssh_target@,
        final(states)@[old(link).active as int].auto == old(states)@[old(link).active as int].auto,
        final(states)@[old(link).active as int].last_checked == old(states)@[old(link).active as int].last_checked,
{
    let a = link.active;
    let s = RouteState {
        name: states[a].name.clone(),
        ssh_target: states[a].ssh_target.clone(),
        auto: states[a].auto,
        health: RouteHealth::Unknown,
        last_checked: states[a].last_checked,
    };
    states.set(a, s);
    link.active = better;
}

/// Where the reconnect loop's connect phase stands: the route to try
/// next, and how many rounds in a row have failed on every route since
/// the peer was last connected.
#[derive(Debug, Clone, Copy, PartialEq, Eq)]
pub struct Connecting {
    pub next_route: usize,
    pub failed_rounds: u32,
}

/// What the connect phase does next.
#[derive(Debug, Clone, Copy, PartialEq, Eq)]
pub enum ConnectStep {
    /// Try the route at this index.
    Try(usize),
    /// The route at this index connected: publish the peer connected
    /// over it and park on the link.
    Park(usize),
    /// Every route failed: publish the peer failed (with the last
    /// route's error), then sleep this many seconds and start a round.
    FailedSleep(u64),
}

/// The failed-round count after one more failed round (saturating).
pub open spec fn one_more(k: u32) -> u32 {
    if k == u32::MAX { u32::MAX } else { (k + 1) as u32 }
}

/// Starts a round of connect attempts: the first route in config order,
/// or, with no routes at all, a failed round straight away.
pub fn begin_round(c: &mut Connecting, n_routes: usize) -> (r: ConnectStep)
    ensures
        n_routes > 0 ==> r == ConnectStep::Try(0) && *final(c) == (Connecting {
            next_route: 0,
            failed_rounds: old(c).failed_rounds,
        }),
        n_routes == 0 ==> r == ConnectStep::FailedSleep(backoff_secs(old(c).failed_rounds)) && *final(c) == (
        Connecting { next_route: 0, failed_rounds: one_more(old(c).failed_rounds) }),
{
    c.next_route = 0;
    if n_routes > 0 {
        ConnectStep::Try(0)
    } else {
        let (d, k) = after_all_failed(c.failed_rounds);
        c.failed_rounds = k;
        ConnectStep::FailedSleep(d)
    }
}

/// The step after trying route `c.next_route`: park on it when it
/// connected (and the failed-round count restarts); else try the next
/// route in config order; after the last route, a failed round that
/// sleeps `next_delay` of the rounds failed so far.
pub fn after_attempt(c: &mut Connecting, n_routes: usize, connected: bool) -> (r: ConnectStep)
    requires
        old(c).next_route < n_routes,
    ensures
        connected ==> r == ConnectStep::Park(old(c).next_route) && *final(c) == (Connecting {
            next_route: 0,
            failed_rounds: 0,
        }),
        !connected && old(c).next_route + 1 < n_routes ==> r == ConnectStep::Try((old(c).next_route + 1) as usize)
            && *final(c) == (Connecting {
            next_route: (old(c).next_route + 1) as usize,
            failed_rounds: old(c).failed_rounds,
        }),
        !connected && old(c).next_route + 1 >= n_routes ==> r == ConnectStep::FailedSleep(
            backoff_secs(old(c).failed_rounds),
        ) && *final(c) == (Connecting { next_route: 0, failed_rounds: one_more(old(c).failed_rounds) }),
{
    if connected {
        let at = c.next_route;
        c.next_route = 0;
        c.failed_rounds = 0;
        return ConnectStep::Park(at);
    }
    if c.next_route + 1 < n_routes {
        c.next_route = c.next_route + 1;
        ConnectStep::Try(c.next_route)
    } else {
        let (d, k) = after_all_failed(c.failed_rounds);
        c.next_route = 0;
        c.failed_rounds = k;
        ConnectStep::FailedSleep(d)
    }
}

/// The steps of one connect round in which the routes `from..n` all fail,
/// starting with a try of route `from`: each route in config order, then
/// the failed round's sleep.
pub open spec fn failing_round(from: nat, n: nat, k: u32) -> Seq<ConnectStep>
    decreases n - from,
{
    if from >= n {
        seq![ConnectStep::FailedSleep(backoff_secs(k))]
    } else {
        seq![ConnectStep::Try(from as usize)] + failing_round(from + 1, n, k)
    }
}

/// Runs `after_attempt` through a round in which every route fails,
/// from the try of route `c.next_route` on.
pub open spec fn run_failing(c: Connecting, n: usize) -> (Seq<ConnectStep>, Connecting)
    decreases n - c.next_route,
{
    if c.next_route + 1 < n {
        let next = Connecting { next_route: (c.next_route + 1) as usize, failed_rounds: c.failed_rounds };
        let (steps, end) = run_failing(next, n);
        (seq![ConnectStep::Try(next.next_route)] + steps, end)
    } else {
        (seq![ConnectStep::FailedSleep(backoff_secs(c.failed_rounds))], Connecting {
            next_route: 0,
            failed_rounds: one_more(c.failed_rounds),
        })
    }
}

/// The reconnect loop's connect phase, law: in round `k` (rounds counted
/// since the last successful connect) where every route fails, the loop
/// tries the routes in config order, then publishes the failure and
/// sleeps `next_delay(k)` (1 s, 2 s, 4 s, ... capped at 60 s), and the
/// next round counts one more failure; a connect restarts the count.
pub proof fn lemma_failing_round(c: Connecting, n: usize)
    requires
        c.next_route < n,
    ensures
        seq![ConnectStep::Try(c.next_route)] + run_failing(c, n).0 == failing_round(
            c.next_route as nat,
            n as nat,
            c.failed_rounds,
        ),
        run_failing(c, n).1 == (Connecting { next_route: 0, failed_rounds: one_more(c.failed_rounds) }),
    decreases n - c.next_route,
{
    if c.next_route + 1 < n {
        let next = Connecting { next_route: (c.next_route + 1) as usize, failed_rounds: c.failed_rounds };
        lemma_failing_round(next, n);
        assert(seq![ConnectStep::Try(c.next_route)] + run_failing(c, n).0 =~= seq![ConnectStep::Try(c.next_route)]
            + (seq![ConnectStep::Try(next.next_route)] + run_failing(next, n).0));
    } else {
        assert(failing_round((c.next_route + 1) as nat, n as nat, c.failed_rounds) == seq![ConnectStep::FailedSleep(
            backoff_secs(c.failed_rounds),
        )]);
    }
}

/// After every route failed: how long to wait (seconds) and the next
/// attempt number (saturating).
pub fn after_all_failed(attempt: u32) -> (r: (u64, u32))
    ensures
        r.0 == backoff_secs(attempt),
        r.1 == if attempt == u32::MAX { u32::MAX } else { (attempt + 1) as u32 },
{
    let d = next_delay(attempt);
    (d, if attempt == 0xffff_ffff { 0xffff_ffff } else { attempt + 1 })
}

/// The state of the active route, looked up by name (the first route of
/// that name).
pub fn active_route<'a>(states: &'a [RouteState], active: Option<&str>) -> (r: Option<&'a RouteState>)
    ensures
        match active {
            None => r is None,
            Some(name) => match r {
                None => forall|i: int| 0 <= i < states@.len() ==> (#[trigger] states@[i]).name@ != name@,
                Some(s) => exists|i: int| 0 <= i < states@.len() && s == states@[i]
                    && s.name@ == name@ && forall|j: int| 0 <= j < i ==> (#[trigger] states@[j]).name@ != name@,
            },
        },
{
    let name = match active {
        None => return None,
        Some(n) => n,
    };
    let mut i: usize = 0;
    while i < states.len()
        invariant
            i <= states@.len(),
            active == Some(name),
            forall|j: int| 0 <= j < i ==> (#[trigger] states@[j]).name@ != name@,
        decreases states.len() - i,
    {
        if str_eq(states[i].name.as_str(), name) {
            return Some(&states[i]);
        }
        i += 1;
    }
    None
}

/// Where a peer's reconnect loop is (times in unix seconds).
#[derive(Debug, Clone)]
pub enum PeerStatus {
    Connected,
    /// Between reconnect attempts, since the link went down.
    Reconnecting { since: i64 },
    /// The last attempt failed on every route.
    Failed { since: i64, last_error: String },
}

/// An instant as the peer list shows it: RFC 3339, or empty text when
/// it has none.
pub open spec fn since_text(t: i64) -> Seq<char> {
    match shown(Some(t)) {
        Some(x) => x,
        None => Seq::empty(),
    }
}

fn since_string(t: i64) -> (r: String)
    ensures
        r@ == since_text(t),
{
    match format_rfc3339(t) {
        Some(s) => s,
        None => String::new(),
    }
}

/// A peer's status as the API reports it.
pub fn render_reachability(s: &PeerStatus) -> (r: PeerReachability)
    ensures
        match *s {
            PeerStatus::Connected => r is Connected,
            PeerStatus::Reconnecting { since } => r matches PeerReachability::Reconnecting { since: t }
                && t@ == since_text(since),
            PeerStatus::Failed { since, last_error } => r matches PeerReachability::Failed { since: t, last_error: e }
                && t@ == since_text(since) && e@ == last_error@,
        },
{
    match s {
        PeerStatus::Connected => PeerReachability::Connected,
        PeerStatus::Reconnecting { since } => PeerReachability::Reconnecting { since: since_string(*since) },
        PeerStatus::Failed { since, last_error } => PeerReachability::Failed {
            since: since_string(*since),
            last_error: last_error.clone(),
        },
    }
}

/// One route as the API reports it: its health word, the error of a
/// failed one, and when it was last tried.
pub fn render_route(r: &RouteState) -> (out: PeerRoute)
    ensures
        out.name@ == r.name@,
        out.ssh_target@ == r.ssh_target@,
        out.auto == r.auto,
        match r.health {
            RouteHealth::Unknown => out.health == WireHealth::Unknown && out.last_error is None,
            RouteHealth::Connected => out.health == WireHealth::Connected && out.last_error is None,
            RouteHealth::Failed { last_error } => out.health == WireHealth::Failed
                && (out.last_error matches Some(e) && e@ == last_error@),
        },
        match shown(r.last_checked) {
            Some(x) => out.last_checked matches Some(t) && t@ == x,
            None => out.last_checked is None,
        },
{
    let (health, last_error) = match &r.health {
        RouteHealth::Unknown => (WireHealth::Unknown, None),
        RouteHealth::Connected => (WireHealth::Connected, None),
        RouteHealth::Failed { last_error } => (WireHealth::Failed, Some(last_error.clone())),
    };
    let last_checked = match r.last_checked {
        Some(t) => format_rfc3339(t),
        None => None,
    };
    PeerRoute {
        name: r.name.clone(),
        ssh_target: r.ssh_target.clone(),
        auto: r.auto,
        health,
        last_error,
        last_checked,
    }
}

/// The first index at or after `i` where `p` occurs in `s`.
pub open spec fn run_from(s: Seq<char>, p: Seq<char>, i: int) -> Option<int>
    decreases s.len() + 1 - i,
{
    if i < 0 || i + p.len() > s.len() {
        None
    } else if s.subrange(i, i + p.len()) == p {
        Some(i)
    } else {
        run_from(s, p, i + 1)
    }
}

/// Where a proxied request goes on the peer: everything after the first
/// `/proxy/` of the raw path (still percent-encoded, so an encoded
/// dataset stays one segment), then the query; `None` when the path
/// has no `/proxy/`.
pub open spec fn proxy_path(raw: Seq<char>, query: Option<Seq<char>>) -> Option<Seq<char>> {
    match run_from(raw, "/proxy/"@, 0) {
        Some(i) => Some(seq!['/'] + raw.subrange(i + 7, raw.len() as int) + match query {
            Some(q) => seq!['?'] + q,
            None => Seq::<char>::empty(),
        }),
        None => None,
    }
}

/// The path a proxied request is forwarded to.
pub fn proxy_target(raw: &str, query: Option<&str>) -> (r: Option<String>)
    ensures
        match proxy_path(raw@, crate::requests::opt_text(query)) {
            Some(x) => r matches Some(t) && t@ == x,
            None => r is None,
        },
{
    let v = chars_of(raw);
    let m = chars_of("/proxy/");
    proof {
        reveal_strlit("/proxy/");
    }
    let n = v.len();
    if n < 7 {
        return None;
    }
    let mut i: usize = 0;
    while i <= n - 7
        invariant
            n == v@.len() >= 7,
            m@ == "/proxy/"@,
            m@.len() == 7,
            v@ == raw@,
            i <= n - 6,
            run_from(v@, m@, 0) == run_from(v@, m@, i as int),
        decreases n - 6 - i,
    {
        let run = crate::text::slice_chars(v.as_slice(), i, i + 7);
        if crate::text::chars_eq(&run, &m) {
            let mut out = String::new();
            push_char(&mut out, '/');
            let rest = string_of(&v, i + 7, n);
            push_str(&mut out, rest.as_str());
            assert(run_from(v@, m@, i as int) == Some(i as int));
            assert(run_from(raw@, "/proxy/"@, 0) == Some(i as int));
            let ghost base = out@;
            assert(base =~= seq!['/'] + v@.subrange(i + 7, n as int));
            match query {
                Some(q) => {
                    push_char(&mut out, '?');
                    push_str(&mut out, q);
                    assert(out@ =~= base + (seq!['?'] + q@));
                },
                None => {
                    assert(out@ =~= base + Seq::<char>::empty());
                },
            }
            return Some(out);
        }
        i += 1;
    }
    None
}

} // verus!
