//! The access decisions of the HTTP front: which peer uid may use the
//! UNIX socket, which `Host` names the loopback console answers to, which
//! mutating requests a browser may send, and the administrator session
//! table behind the login cookie.

use vstd::prelude::*;

use crate::api::ApiErrorBody;
use crate::token::{random_id, random_refusal};
use crate::text::{
    chars_of, debug_form, debug_str, decimal, decimal_string, find_char, index_of_from, push_str, str_eq,
    string_of, to_owned_string,
};

verus! {

/// The body of `POST /api/v1/auth/login`.
#[derive(Debug, Clone)]
pub struct LoginRequest {
    pub token: String,
}

/// Who is on the other end of a UNIX-socket connection.
#[derive(Debug, Clone, Copy)]
pub struct PeerCredentials {
    pub uid: u32,
}

// ---------------------------------------------------------------------
// The UNIX socket: same uid only
// ---------------------------------------------------------------------

/// The refusal of a socket peer running as another user.
pub open spec fn uid_refusal(peer: u32, daemon: u32) -> Seq<char> {
    "peer uid "@ + decimal(peer as nat) + " is not allowed (daemon uid "@ + decimal(daemon as nat) + ")"@
}

/// Only a client running as the daemon's own user may use the socket.
pub fn same_uid_check(peer: &PeerCredentials, daemon_uid: u32) -> (r: Result<(), ApiErrorBody>)
    ensures
        r is Ok <==> peer.uid == daemon_uid,
        r matches Err(b) ==> b.error@ == "peer_uid_mismatch"@ && b.message@ == uid_refusal(peer.uid, daemon_uid),
{
    if peer.uid == daemon_uid {
        return Ok(());
    }
    let mut m = to_owned_string("peer uid ");
    let p = decimal_string(peer.uid as u64);
    push_str(&mut m, p.as_str());
    push_str(&mut m, " is not allowed (daemon uid ");
    let d = decimal_string(daemon_uid as u64);
    push_str(&mut m, d.as_str());
    push_str(&mut m, ")");
    Err(ApiErrorBody { error: to_owned_string("peer_uid_mismatch"), message: m })
}

// ---------------------------------------------------------------------
// The loopback console: loopback names only
// ---------------------------------------------------------------------

/// The last index of `c` in the first `n` characters of `s`, or -1.
pub open spec fn last_index_of(s: Seq<char>, c: char, n: int) -> int
    decreases n,
{
    if n <= 0 {
        -1
    } else if s[n - 1] == c {
        n - 1
    } else {
        last_index_of(s, c, n - 1)
    }
}

/// The name part of a `Host` value: inside the brackets of an IPv6
/// literal (`[::1]:7878`), else before the last `:` (the port).
pub open spec fn host_name(host: Seq<char>) -> Seq<char> {
    if host.len() > 0 && host[0] == '[' {
        let rest = host.drop_first();
        rest.subrange(0, index_of_from(rest, ']', 0))
    } else {
        let j = last_index_of(host, ':', host.len() as int);
        if j >= 0 { host.subrange(0, j) } else { host }
    }
}

/// The names the loopback console is legitimately addressed by.
pub open spec fn is_loopback_name(name: Seq<char>) -> bool {
    name == "127.0.0.1"@ || name == "localhost"@ || name == "::1"@
}

fn last_colon(v: &Vec<char>) -> (r: Option<usize>)
    ensures
        match r {
            Some(j) => j < v@.len() && last_index_of(v@, ':', v@.len() as int) == j,
            None => last_index_of(v@, ':', v@.len() as int) == -1,
        },
{
    let mut n = v.len();
    while n > 0
        invariant
            n <= v@.len(),
            last_index_of(v@, ':', v@.len() as int) == last_index_of(v@, ':', n as int),
        decreases n,
    {
        if v[n - 1] == ':' {
            return Some(n - 1);
        }
        n -= 1;
    }
    None
}

fn host_name_of(host: &str) -> (r: String)
    ensures
        r@ == host_name(host@),
{
    let v = chars_of(host);
    if v.len() > 0 && v[0] == '[' {
        let end = find_char(&v, ']', 1);
        proof {
            let rest = v@.drop_first();
            crate::text::lemma_index_of_from(v@, ']', 1);
            crate::text::lemma_index_of_from_is(rest, ']', 0, end - 1);
        }
        string_of(&v, 1, end)
    } else {
        match last_colon(&v) {
            Some(j) => string_of(&v, 0, j),
            None => {
                assert(v@.subrange(0, v@.len() as int) =~= v@);
                string_of(&v, 0, v.len())
            },
        }
    }
}

/// The refusal of a `Host` that is not a loopback name.
pub open spec fn host_refusal(host: Seq<char>) -> Seq<char> {
    "host "@ + debug_form(host) + " is not a loopback name"@
}

/// The DNS-rebinding guard of the loopback console: a request that
/// names a host must name it by a loopback name (any port); a request
/// without one (no browser sends that) passes.
pub fn loopback_host_check(host: Option<&str>) -> (r: Result<(), ApiErrorBody>)
    ensures
        match host {
            None => r is Ok,
            Some(h) => (r is Ok <==> is_loopback_name(host_name(h@)))
                && (r matches Err(b) ==> b.error@ == "bad_host"@ && b.message@ == host_refusal(h@)),
        },
{
    let h = match host {
        None => return Ok(()),
        Some(h) => h,
    };
    let name = host_name_of(h);
    if str_eq(name.as_str(), "127.0.0.1") || str_eq(name.as_str(), "localhost") || str_eq(name.as_str(), "::1") {
        return Ok(());
    }
    let mut m = to_owned_string("host ");
    let d = debug_str(h);
    push_str(&mut m, d.as_str());
    push_str(&mut m, " is not a loopback name");
    Err(ApiErrorBody { error: to_owned_string("bad_host"), message: m })
}

// ---------------------------------------------------------------------
// Cross-site requests
// ---------------------------------------------------------------------

/// The methods with side effects.
pub open spec fn is_mutating(method: Seq<char>) -> bool {
    method == "POST"@ || method == "PUT"@ || method == "PATCH"@ || method == "DELETE"@
}

/// A `Sec-Fetch-Site` value that vouches for the request's origin.
pub open spec fn is_trusted_site(v: Seq<char>) -> bool {
    v == "same-origin"@ || v == "none"@
}

/// The refusal of a cross-site mutating request.
pub open spec fn csrf_refusal(method: Seq<char>, site: Seq<char>) -> Seq<char> {
    "cross-origin "@ + method + " blocked (Sec-Fetch-Site: "@ + site + ")"@
}

/// The CSRF guard of the loopback console: a mutating request that a
/// browser marks as coming from another site (`same-site` or
/// `cross-site`, or anything but `same-origin` and `none`) is refused.
/// Reads always pass, and so does a request without the header (a
/// non-browser client).
pub fn csrf_check(method: &str, sec_fetch_site: Option<&str>) -> (r: Result<(), ApiErrorBody>)
    ensures
        match sec_fetch_site {
            None => r is Ok,
            Some(v) => (r is Ok <==> !(is_mutating(method@) && !is_trusted_site(v@)))
                && (r matches Err(b) ==> b.error@ == "cross_origin"@ && b.message@ == csrf_refusal(method@, v@)),
        },
{
    let v = match sec_fetch_site {
        None => return Ok(()),
        Some(v) => v,
    };
    let mutating = str_eq(method, "POST") || str_eq(method, "PUT") || str_eq(method, "PATCH") || str_eq(method, "DELETE");
    if !mutating || str_eq(v, "same-origin") || str_eq(v, "none") {
        return Ok(());
    }
    let mut m = to_owned_string("cross-origin ");
    push_str(&mut m, method);
    push_str(&mut m, " blocked (Sec-Fetch-Site: ");
    push_str(&mut m, v);
    push_str(&mut m, ")");
    Err(ApiErrorBody { error: to_owned_string("cross_origin"), message: m })
}

// ---------------------------------------------------------------------
// Administrator sessions
// ---------------------------------------------------------------------

/// How long a login session lives, in nanoseconds (twelve hours).
pub const SESSION_TTL_NANOS: u64 = 43_200_000_000_000;

/// The most sessions held at once; a new login evicts the one closest
/// to expiry.
pub const MAX_SESSIONS: usize = 128;

/// A session id: 32 random bytes, as set in the session cookie.
pub type SessionId = [u8; 32];

/// The sessions of the first `n` entries that are still live at `now`
/// (expiring strictly later), in order.
pub open spec fn live_upto(s: Seq<(SessionId, u64)>, now: u64, n: int) -> Seq<(SessionId, u64)>
    decreases n,
{
    if n <= 0 {
        Seq::empty()
    } else if s[n - 1].1 > now {
        live_upto(s, now, n - 1).push(s[n - 1])
    } else {
        live_upto(s, now, n - 1)
    }
}

/// The index of the first session of the first `n` (n >= 1) whose
/// expiry is least.
pub open spec fn soonest_upto(s: Seq<(SessionId, u64)>, n: int) -> int
    decreases n,
{
    if n <= 1 {
        0
    } else {
        let k = soonest_upto(s, n - 1);
        if s[n - 1].1 < s[k].1 { n - 1 } else { k }
    }
}

/// Where session `id` sits among the first `n`, or -1.
pub open spec fn position_upto(s: Seq<(SessionId, u64)>, id: SessionId, n: int) -> int
    decreases n,
{
    if n <= 0 {
        -1
    } else if position_upto(s, id, n - 1) >= 0 {
        position_upto(s, id, n - 1)
    } else if s[n - 1].0 == id {
        n - 1
    } else {
        -1
    }
}

/// `s` with session `id` set to expire at `exp`: replaced in place when
/// present, appended when not.
pub open spec fn with_session(s: Seq<(SessionId, u64)>, id: SessionId, exp: u64) -> Seq<(SessionId, u64)> {
    let j = position_upto(s, id, s.len() as int);
    if j >= 0 { s.update(j, (id, exp)) } else { s.push((id, exp)) }
}

/// The table after a login at `now` creates session `id`: expired
/// sessions are dropped, then, when the table is full, the session
/// closest to expiry; then `id` is set to live for the session TTL.
pub open spec fn after_login(s: Seq<(SessionId, u64)>, id: SessionId, now: u64) -> Seq<(SessionId, u64)> {
    let live = live_upto(s, now, s.len() as int);
    let room = if live.len() >= MAX_SESSIONS { live.remove(soonest_upto(live, live.len() as int)) } else { live };
    with_session(room, id, (now + SESSION_TTL_NANOS) as u64)
}

/// Session `id` is listed and expires after `now`.
pub open spec fn is_live(s: Seq<(SessionId, u64)>, id: SessionId, now: u64) -> bool {
    exists|i: int| 0 <= i < s.len() && (#[trigger] s[i]).0 == id && s[i].1 > now
}

/// `s` without session `id`.
pub open spec fn without_session(s: Seq<(SessionId, u64)>, id: SessionId, n: int) -> Seq<(SessionId, u64)>
    decreases n,
{
    if n <= 0 {
        Seq::empty()
    } else if s[n - 1].0 == id {
        without_session(s, id, n - 1)
    } else {
        without_session(s, id, n - 1).push(s[n - 1])
    }
}

/// No id is listed twice.
pub open spec fn distinct_ids(s: Seq<(SessionId, u64)>) -> bool {
    forall|i: int, j: int| 0 <= i < j < s.len() ==> (#[trigger] s[i]).0 != (#[trigger] s[j]).0
}

/// The administrator sessions: ids and their expiry (nanoseconds on the
/// daemon's monotonic clock).
#[derive(Debug)]
pub struct SessionTable {
    entries: Vec<(SessionId, u64)>,
}

impl SessionTable {
    /// The sessions, in creation order.
    pub closed spec fn sessions(&self) -> Seq<(SessionId, u64)> {
        self.entries@
    }

    #[verifier::type_invariant]
    closed spec fn well_formed(&self) -> bool {
        &&& distinct_ids(self.entries@)
        &&& self.entries@.len() <= MAX_SESSIONS
    }

    /// A table with no session.
    pub fn new() -> (r: Self)
        ensures
            r.sessions() == Seq::<(SessionId, u64)>::empty(),
    {
        let r = SessionTable { entries: Vec::new() };
        assert(r.entries@ =~= Seq::<(SessionId, u64)>::empty());
        r
    }

    /// Records the login at `now` of the new session `id`.
    pub fn create(&mut self, id: SessionId, now: u64)
        requires
            now <= u64::MAX - SESSION_TTL_NANOS,
        ensures
            final(self).sessions() == after_login(old(self).sessions(), id, now),
            final(self).sessions().len() <= MAX_SESSIONS,
    {
        proof {
            use_type_invariant(&*self);
        }
        let ghost s = self.entries@;
        // Drop the expired sessions.
        let mut live: Vec<(SessionId, u64)> = Vec::new();
        let mut i: usize = 0;
        while i < self.entries.len()
            invariant
                i <= self.entries@.len(),
                s == self.entries@,
                live@ == live_upto(s, now, i as int),
                distinct_ids(s),
                forall|x: int| 0 <= x < live@.len() ==> exists|y: int| 0 <= y < i && #[trigger] live@[x] == s[y],
                distinct_ids(live@),
                live@.len() <= i,
            decreases self.entries.len() - i,
        {
            let e = self.entries[i];
            if e.1 > now {
                proof {
                    assert forall|x: int| 0 <= x < live@.len() implies (#[trigger] live@[x]).0 != e.0 by {
                        let y = choose|y: int| 0 <= y < i && #[trigger] live@[x] == s[y];
                        assert(s[y].0 != s[i as int].0);
                    }
                }
                live.push(e);
            }
            i += 1;
        }
        assert(s.subrange(0, s.len() as int) =~= s);
        // Make room by evicting the session closest to expiry.
        let ghost live0 = live@;
        if live.len() >= MAX_SESSIONS {
            let k = soonest(&live);
            live.remove(k);
            proof {
                assert forall|a: int, b: int| 0 <= a < b < live@.len() implies (#[trigger] live@[a]).0 != (#[trigger] live@[b]).0 by {
                    let a0 = if a < k { a } else { a + 1 };
                    let b0 = if b < k { b } else { b + 1 };
                    assert(live@[a] == live0[a0]);
                    assert(live@[b] == live0[b0]);
                }
            }
        }
        let ghost room = live@;
        // Set the new session.
        let exp = now + SESSION_TTL_NANOS;
        match position(&live, &id) {
            Some(j) => {
                live.set(j, (id, exp));
                proof {
                    assert forall|a: int| 0 <= a < live@.len() implies (#[trigger] live@[a]).0 == room[a].0 by {}
                    assert forall|a: int, b: int| 0 <= a < b < live@.len() implies (#[trigger] live@[a]).0 != (#[trigger] live@[b]).0 by {
                        assert(live@[a].0 == room[a].0);
                        assert(live@[b].0 == room[b].0);
                        assert(room[a].0 != room[b].0);
                    }
                }
            },
            None => {
                live.push((id, exp));
                proof {
                    assert forall|a: int, b: int| 0 <= a < b < live@.len() implies (#[trigger] live@[a]).0 != (#[trigger] live@[b]).0 by {
                        if b == room.len() {
                            assert(live@[a] == room[a]);
                            assert(room[a].0 != id);
                        } else {
                            assert(room[a].0 != room[b].0);
                        }
                    }
                }
            },
        }
        self.entries = live;
    }

    /// Whether session `id` exists and has not expired at `now`.
    pub fn is_valid(&self, id: &SessionId, now: u64) -> (r: bool)
        ensures
            r == is_live(self.sessions(), *id, now),
    {
        let mut i: usize = 0;
        while i < self.entries.len()
            invariant
                i <= self.entries@.len(),
                forall|x: int| 0 <= x < i ==> !((#[trigger] self.entries@[x]).0 == *id && self.entries@[x].1 > now),
            decreases self.entries.len() - i,
        {
            if same_id(&self.entries[i].0, id) && self.entries[i].1 > now {
                return true;
            }
            i += 1;
        }
        false
    }

    /// Opens a session at `now` under a fresh random id and returns the
    /// id; when the random source fails nothing changes.
    pub fn create_session(&mut self, now: u64) -> (r: Result<SessionId, String>)
        requires
            now <= u64::MAX - SESSION_TTL_NANOS,
        ensures
            match r {
                Ok(id) => final(self).sessions() == after_login(old(self).sessions(), id, now),
                Err(m) => final(self).sessions() == old(self).sessions()
                    && exists|e: Seq<char>| m@ == random_refusal(e),
            },
    {
        match random_id() {
            Ok(id) => {
                self.create(id, now);
                Ok(id)
            },
            Err(e) => Err(e),
        }
    }

    /// Ends session `id` (logout).
    pub fn revoke(&mut self, id: &SessionId)
        ensures
            final(self).sessions() == without_session(old(self).sessions(), *id, old(self).sessions().len() as int),
    {
        proof {
            use_type_invariant(&*self);
        }
        let ghost s = self.entries@;
        let mut kept: Vec<(SessionId, u64)> = Vec::new();
        let mut i: usize = 0;
        while i < self.entries.len()
            invariant
                i <= self.entries@.len(),
                s == self.entries@,
                distinct_ids(s),
                s.len() <= MAX_SESSIONS,
                kept@ == without_session(s, *id, i as int),
                kept@.len() <= i,
                forall|x: int| 0 <= x < kept@.len() ==> exists|y: int| 0 <= y < i && #[trigger] kept@[x] == s[y],
                distinct_ids(kept@),
            decreases self.entries.len() - i,
        {
            let e = self.entries[i];
            if !same_id(&e.0, id) {
                proof {
                    assert forall|x: int| 0 <= x < kept@.len() implies (#[trigger] kept@[x]).0 != e.0 by {
                        let y = choose|y: int| 0 <= y < i && #[trigger] kept@[x] == s[y];
                        assert(s[y].0 != s[i as int].0);
                    }
                }
                kept.push(e);
            }
            i += 1;
        }
        self.entries = kept;
    }
}

proof fn lemma_position_found(s: Seq<(SessionId, u64)>, id: SessionId, n: int)
    requires
        n <= s.len(),
        position_upto(s, id, n) >= 0,
    ensures
        position_upto(s, id, n) < n,
        s[position_upto(s, id, n)].0 == id,
    decreases n,
{
    if n > 0 && position_upto(s, id, n - 1) >= 0 {
        lemma_position_found(s, id, n - 1);
    }
}

proof fn lemma_live_keeps(s: Seq<(SessionId, u64)>, now: u64, n: int, k: int)
    requires
        0 <= k < n <= s.len(),
        s[k].1 > now,
    ensures
        live_upto(s, now, n).contains(s[k]),
    decreases n,
{
    let prev = live_upto(s, now, n - 1);
    if k < n - 1 {
        lemma_live_keeps(s, now, n - 1, k);
        if s[n - 1].1 > now {
            let i = choose|i: int| 0 <= i < prev.len() && prev[i] == s[k];
            assert(prev.push(s[n - 1])[i] == s[k]);
        }
    } else {
        assert(prev.push(s[n - 1])[prev.len() as int] == s[k]);
    }
}

/// A login is good for the session TTL: right after it, its session is
/// live until it expires.
pub proof fn lemma_login_is_live(s: Seq<(SessionId, u64)>, id: SessionId, now: u64, t: u64)
    requires
        now <= u64::MAX - SESSION_TTL_NANOS,
        now <= t < now + SESSION_TTL_NANOS,
    ensures
        is_live(after_login(s, id, now), id, t),
{
    let live = live_upto(s, now, s.len() as int);
    let room = if live.len() >= MAX_SESSIONS { live.remove(soonest_upto(live, live.len() as int)) } else { live };
    let exp = (now + SESSION_TTL_NANOS) as u64;
    let j = position_upto(room, id, room.len() as int);
    let r = after_login(s, id, now);
    if j >= 0 {
        lemma_position_found(room, id, room.len() as int);
        assert(r[j] == (id, exp));
    } else {
        assert(r[room.len() as int] == (id, exp));
    }
}

/// A logout ends the session: a revoked id is live at no time.
pub proof fn lemma_revoked_is_dead(s: Seq<(SessionId, u64)>, id: SessionId, t: u64)
    ensures
        !is_live(without_session(s, id, s.len() as int), id, t),
{
    lemma_without_lacks(s, id, s.len() as int);
}

proof fn lemma_without_lacks(s: Seq<(SessionId, u64)>, id: SessionId, n: int)
    ensures
        forall|i: int| 0 <= i < without_session(s, id, n).len() ==> (#[trigger] without_session(s, id, n)[i]).0 != id,
    decreases n,
{
    if n > 0 {
        lemma_without_lacks(s, id, n - 1);
        let prev = without_session(s, id, n - 1);
        if s[n - 1].0 != id {
            assert forall|i: int| 0 <= i < prev.push(s[n - 1]).len() implies (#[trigger] prev.push(s[n - 1])[i]).0 != id by {
                if i < prev.len() {
                    assert(prev.push(s[n - 1])[i] == prev[i]);
                }
            }
        }
    }
}

/// A login does not end other sessions while the table has room: every
/// other session live at the time of the login is still live then.
pub proof fn lemma_login_keeps_others(s: Seq<(SessionId, u64)>, id: SessionId, now: u64, other: SessionId)
    requires
        now <= u64::MAX - SESSION_TTL_NANOS,
        live_upto(s, now, s.len() as int).len() < MAX_SESSIONS,
        is_live(s, other, now),
        other != id,
    ensures
        is_live(after_login(s, id, now), other, now),
{
    let k = choose|i: int| 0 <= i < s.len() && (#[trigger] s[i]).0 == other && s[i].1 > now;
    let live = live_upto(s, now, s.len() as int);
    lemma_live_keeps(s, now, s.len() as int, k);
    let i = choose|i: int| 0 <= i < live.len() && live[i] == s[k];
    let exp = (now + SESSION_TTL_NANOS) as u64;
    let j = position_upto(live, id, live.len() as int);
    let r = after_login(s, id, now);
    if j >= 0 {
        lemma_position_found(live, id, live.len() as int);
        assert(j != i);
        assert(r[i] == live[i]);
    } else {
        assert(r[i] == live[i]);
    }
}

fn same_id(a: &SessionId, b: &SessionId) -> (r: bool)
    ensures
        r == (*a == *b),
{
    let mut i: usize = 0;
    while i < 32
        invariant
            i <= 32,
            forall|k: int| 0 <= k < i ==> a[k] == b[k],
        decreases 32 - i,
    {
        if a[i] != b[i] {
            return false;
        }
        i += 1;
    }
    proof {
        assert(*a =~= *b);
    }
    true
}

fn soonest(v: &Vec<(SessionId, u64)>) -> (r: usize)
    requires
        v@.len() >= 1,
    ensures
        r as int == soonest_upto(v@, v@.len() as int),
        r < v@.len(),
{
    let mut k: usize = 0;
    let mut n: usize = 1;
    while n < v.len()
        invariant
            1 <= n <= v@.len(),
            k as int == soonest_upto(v@, n as int),
            k < n,
        decreases v.len() - n,
    {
        if v[n].1 < v[k].1 {
            k = n;
        }
        n += 1;
    }
    k
}

fn position(v: &Vec<(SessionId, u64)>, id: &SessionId) -> (r: Option<usize>)
    ensures
        match r {
            Some(j) => j < v@.len() && position_upto(v@, *id, v@.len() as int) == j && v@[j as int].0 == *id,
            None => position_upto(v@, *id, v@.len() as int) == -1
                && forall|k: int| 0 <= k < v@.len() ==> (#[trigger] v@[k]).0 != *id,
        },
{
    let mut i: usize = 0;
    while i < v.len()
        invariant
            i <= v@.len(),
            position_upto(v@, *id, i as int) == -1,
            forall|k: int| 0 <= k < i ==> (#[trigger] v@[k]).0 != *id,
        decreases v.len() - i,
    {
        if same_id(&v[i].0, id) {
            proof {
                assert(position_upto(v@, *id, i + 1) == i);
                lemma_position_stays(v@, *id, i + 1, v@.len() as int);
            }
            return Some(i);
        }
        i += 1;
    }
    None
}

proof fn lemma_position_stays(s: Seq<(SessionId, u64)>, id: SessionId, m: int, n: int)
    requires
        0 <= m <= n,
        position_upto(s, id, m) >= 0,
    ensures
        position_upto(s, id, n) == position_upto(s, id, m),
    decreases n - m,
{
    if m < n {
        lemma_position_stays(s, id, m, n - 1);
    }
}

} // verus!
