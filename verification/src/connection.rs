use vstd::prelude::*;

use crate::text::{
    chars_of, contains_exec, contains_seq, parse_i64, parse_i64_spec, parse_int, str_eq,
};
use vstd::arithmetic::power2::{lemma_pow2_unfold, pow2};

verus! {

/// Seconds between two pings of an open connection.
pub const HEARTBEAT_INTERVAL_SECS: u64 = 10;

/// Seconds to wait for the server to accept a new connection.
pub const CONNECT_CONFIRM_GRACE_SECS: u64 = 1;

/// The longest wait between two connection attempts, in seconds.
pub const MAX_BACKOFF_SECS: u64 = 60;

/// The TCP port used for development hosts.
pub const DEV_TCP_PORT: u16 = 7349;

/// The TCP port used otherwise.
pub const DEFAULT_TCP_PORT: u16 = 4433;

/// Where a session says to connect.
#[derive(Debug, Clone, Default, PartialEq, Eq)]
pub struct SessionEndpoint {
    pub user_id: String,
    pub tcp_host: Option<String>,
    pub ws_host: Option<String>,
    pub tcp_port: Option<u16>,
    pub ws_port: Option<u16>,
}

/// Where signing in stands: signed out, signed in with the connection being set up, or
/// signed in.
#[derive(Debug, Clone, PartialEq, Eq)]
pub enum AuthState {
    NotAuthenticated,
    Connecting(SessionEndpoint),
    Authenticated(SessionEndpoint),
}

/// The state at start-up: connecting with the stored session, or signed out without one.
pub fn resolve_initial_auth_state(stored: Option<SessionEndpoint>) -> (r: AuthState)
    ensures
        match stored {
            Some(s) => r == AuthState::Connecting(s),
            None => r is NotAuthenticated,
        },
{
    match stored {
        Some(s) => AuthState::Connecting(s),
        None => AuthState::NotAuthenticated,
    }
}

/// A connection attempt ended (whatever its outcome): a session still connecting counts as
/// signed in, with the same session; any other state stays. Returns whether it changed.
pub fn promote_connecting_to_authenticated(state: &mut AuthState) -> (changed: bool)
    ensures
        changed == (*old(state) is Connecting),
        match *old(state) {
            AuthState::Connecting(s) => *final(state) == AuthState::Authenticated(s),
            _ => *final(state) == *old(state),
        },
{
    let mut taken = AuthState::NotAuthenticated;
    std::mem::swap(&mut taken, state);
    match taken {
        AuthState::Connecting(s) => {
            *state = AuthState::Authenticated(s);
            true
        },
        other => {
            *state = other;
            false
        },
    }
}

/// What `u16::from_str` accepts: an optional `+`, then digits, with a value that fits.
pub open spec fn parse_u16_spec(s: Seq<char>) -> Option<u16> {
    if s.len() > 0 && s[0] == '-' {
        None
    } else {
        match parse_int(s) {
            Some(v) => if 0 <= v <= 65535 {
                Some(v as u16)
            } else {
                None
            },
            None => None,
        }
    }
}

pub fn parse_u16(s: &str) -> (r: Option<u16>)
    ensures
        r == parse_u16_spec(s@),
{
    let v = chars_of(s);
    if v.len() > 0 && v[0] == '-' {
        return None;
    }
    match parse_i64(s) {
        Some(n) => if 0 <= n && n <= 65535 {
            Some(n as u16)
        } else {
            None
        },
        None => None,
    }
}

/// The host to connect to: the TCP host, else the socket host (else the client's default).
pub open spec fn host_spec(s: SessionEndpoint) -> Option<Seq<char>> {
    match s.tcp_host {
        Some(h) => Some(h@),
        None => match s.ws_host {
            Some(h) => Some(h@),
            None => None,
        },
    }
}

/// The TCP port: the session's TCP port, else its socket port, else the port set in the
/// environment (`env_port`, when it reads as a port), else the development port for a
/// development host and the default port otherwise.
pub open spec fn tcp_port_spec(s: SessionEndpoint, env_port: Option<Seq<char>>) -> u16 {
    match s.tcp_port {
        Some(p) => p,
        None => match s.ws_port {
            Some(p) => p,
            None => match (match env_port {
                Some(e) => parse_u16_spec(e),
                None => None,
            }) {
                Some(p) => p,
                None => match host_spec(s) {
                    Some(h) => if contains_seq(h, "dev-mezon"@) || contains_seq(h, "nccsoft.vn"@) {
                        DEV_TCP_PORT
                    } else {
                        DEFAULT_TCP_PORT
                    },
                    None => DEFAULT_TCP_PORT,
                },
            },
        },
    }
}

/// The host of a session (see `host_spec`).
pub fn resolve_host(session: &SessionEndpoint) -> (r: Option<String>)
    ensures
        match (r, host_spec(*session)) {
            (Some(a), Some(b)) => a@ == b,
            (None, None) => true,
            _ => false,
        },
{
    match &session.tcp_host {
        Some(h) => Some(h.clone()),
        None => match &session.ws_host {
            Some(h) => Some(h.clone()),
            None => None,
        },
    }
}

/// The TCP port of a session (see `tcp_port_spec`); `env_port` is the port set in the
/// environment, if any.
pub fn resolve_tcp_port(session: &SessionEndpoint, env_port: Option<&str>) -> (r: u16)
    ensures
        r == tcp_port_spec(
            *session,
            match env_port {
                Some(e) => Some(e@),
                None => None,
            },
        ),
{
    if let Some(port) = session.tcp_port {
        return port;
    }
    if let Some(port) = session.ws_port {
        return port;
    }
    if let Some(e) = env_port {
        if let Some(port) = parse_u16(e) {
            return port;
        }
    }
    match resolve_host(session) {
        Some(h) => {
            let hv = chars_of(h.as_str());
            if contains_exec(&hv, &chars_of("dev-mezon")) || contains_exec(&hv, &chars_of("nccsoft.vn")) {
                DEV_TCP_PORT
            } else {
                DEFAULT_TCP_PORT
            }
        },
        None => DEFAULT_TCP_PORT,
    }
}

// ---------------------------------------------------------------------------
// Keeping the connection up
// ---------------------------------------------------------------------------

/// What the connection manager does next.
#[derive(Debug, Clone, PartialEq, Eq)]
pub enum ManagerAction {
    /// Nothing to do: wait until the sign-in state or the connection changes.
    Park,
    /// The user signed out: close the connection, report it down, then wait.
    CloseThenPark,
    /// Connect (closing a stale connection first when one is open) to the host (the client's
    /// default host when `None`) and port, reporting the connection as being set up.
    Connect { host: Option<String>, port: u16, close_stale: bool },
}

/// How a connection attempt went.
#[derive(Debug, Clone, Copy, PartialEq, Eq)]
pub enum ConnectOutcome {
    /// Connected, and the server accepted the session.
    Confirmed,
    /// Connected, but the server did not accept the session in time.
    NotConfirmed,
    /// The connection could not be made.
    Failed,
}

/// What follows a connection attempt.
#[derive(Debug, Clone, Copy, PartialEq, Eq)]
pub enum AfterConnect {
    /// Report the connection up and finish signing in.
    Connected,
    /// Report the connection down (closing it first when asked), finish signing in, and try
    /// again after the back-off.
    Retry { close_first: bool, backoff_secs: u64 },
}

/// The decisions of the connection manager: which user is connected, and the current wait
/// between attempts.
pub struct ConnectionManager {
    connected_user_id: Option<String>,
    retry_backoff_secs: u64,
    /// Attempts that failed, or were not confirmed, since the last confirmed connection,
    /// park or sign-out.
    failed_attempts: Ghost<nat>,
}

pub open spec fn doubled_backoff(b: u64) -> u64 {
    if 2 * b < MAX_BACKOFF_SECS {
        (2 * b) as u64
    } else {
        MAX_BACKOFF_SECS
    }
}

/// The back-off after `k` attempts in a row failed: one second, doubled `k` times, capped.
pub open spec fn backoff_after(k: nat) -> u64
    decreases k,
{
    if k == 0 {
        1
    } else {
        doubled_backoff(backoff_after((k - 1) as nat))
    }
}

impl ConnectionManager {
    pub closed spec fn failures(&self) -> nat {
        self.failed_attempts@
    }

    pub closed spec fn connected(&self) -> Option<Seq<char>> {
        match self.connected_user_id {
            Some(u) => Some(u@),
            None => None,
        }
    }

    pub closed spec fn backoff(&self) -> u64 {
        self.retry_backoff_secs
    }

    /// The back-off stays between one second and the maximum.
    pub open spec fn wf(&self) -> bool {
        &&& 1 <= self.backoff() <= MAX_BACKOFF_SECS
        &&& self.backoff() == backoff_after(self.failures())
    }

    pub fn new() -> (r: Self)
        ensures
            r.wf(),
            r.connected() is None,
            r.backoff() == 1,
            r.failures() == 0,
    {
        ConnectionManager { connected_user_id: None, retry_backoff_secs: 1, failed_attempts: Ghost(0) }
    }

    pub fn backoff_secs(&self) -> (r: u64)
        ensures
            r == self.backoff(),
    {
        self.retry_backoff_secs
    }

    /// One turn of the manager, given the session (none when signed out), whether the
    /// connection is open, and the port set in the environment. Signed out: close a
    /// connection made for a user, then wait. Connected for this user and open: wait.
    /// Otherwise connect to the session's host and port. Waiting resets the back-off.
    pub fn next_action(
        &mut self,
        session: Option<&SessionEndpoint>,
        transport_open: bool,
        env_port: Option<&str>,
    ) -> (r: ManagerAction)
        requires
            old(self).wf(),
        ensures
            final(self).wf(),
            match session {
                None => {
                    &&& r == (if old(self).connected() is Some {
                        ManagerAction::CloseThenPark
                    } else {
                        ManagerAction::Park
                    })
                    &&& final(self).connected() is None
                    &&& final(self).backoff() == 1
                    &&& final(self).failures() == 0
                },
                Some(s) => if old(self).connected() == Some(s.user_id@) && transport_open {
                    &&& r == ManagerAction::Park
                    &&& final(self).connected() == old(self).connected()
                    &&& final(self).backoff() == 1
                    &&& final(self).failures() == 0
                } else {
                    &&& r matches ManagerAction::Connect { host, port, close_stale } && close_stale
                        == transport_open && port == tcp_port_spec(
                        *s,
                        match env_port {
                            Some(e) => Some(e@),
                            None => None,
                        },
                    ) && match (host, host_spec(*s)) {
                        (Some(a), Some(b)) => a@ == b,
                        (None, None) => true,
                        _ => false,
                    }
                    &&& final(self).connected() == old(self).connected()
                    &&& final(self).backoff() == old(self).backoff()
                    &&& final(self).failures() == old(self).failures()
                },
            },
    {
        match session {
            None => {
                let had = self.connected_user_id.is_some();
                self.connected_user_id = None;
                self.retry_backoff_secs = 1;
                self.failed_attempts = Ghost(0);
                if had {
                    ManagerAction::CloseThenPark
                } else {
                    ManagerAction::Park
                }
            },
            Some(s) => {
                let same = match &self.connected_user_id {
                    Some(u) => str_eq(u.as_str(), s.user_id.as_str()),
                    None => false,
                };
                if same && transport_open {
                    self.retry_backoff_secs = 1;
                    self.failed_attempts = Ghost(0);
                    return ManagerAction::Park;
                }
                let host = resolve_host(s);
                let port = resolve_tcp_port(s, env_port);
                ManagerAction::Connect { host, port, close_stale: transport_open }
            },
        }
    }

    /// A connection attempt for `user_id` ended. Confirmed: the user is connected and the
    /// back-off resets. Otherwise nobody is connected and the back-off doubles (up to the
    /// maximum); an unconfirmed connection is closed first.
    pub fn on_connect_result(&mut self, user_id: &str, outcome: ConnectOutcome) -> (r: AfterConnect)
        requires
            old(self).wf(),
        ensures
            final(self).wf(),
            outcome == ConnectOutcome::Confirmed ==> {
                &&& r == AfterConnect::Connected
                &&& final(self).connected() == Some(user_id@)
                &&& final(self).backoff() == 1
                &&& final(self).failures() == 0
            },
            outcome != ConnectOutcome::Confirmed ==> {
                &&& r == AfterConnect::Retry {
                    close_first: outcome == ConnectOutcome::NotConfirmed,
                    backoff_secs: doubled_backoff(old(self).backoff()),
                }
                &&& final(self).connected() is None
                &&& final(self).backoff() == doubled_backoff(old(self).backoff())
                &&& final(self).failures() == old(self).failures() + 1
            },
    {
        match outcome {
            ConnectOutcome::Confirmed => {
                self.connected_user_id = Some(String::from_str(user_id));
                self.retry_backoff_secs = 1;
                self.failed_attempts = Ghost(0);
                AfterConnect::Connected
            },
            _ => {
                self.connected_user_id = None;
                let doubled = self.retry_backoff_secs * 2;
                self.retry_backoff_secs = if doubled < MAX_BACKOFF_SECS {
                    doubled
                } else {
                    MAX_BACKOFF_SECS
                };
                self.failed_attempts = Ghost(self.failed_attempts@ + 1);
                AfterConnect::Retry {
                    close_first: match outcome {
                        ConnectOutcome::NotConfirmed => true,
                        _ => false,
                    },
                    backoff_secs: self.retry_backoff_secs,
                }
            },
        }
    }
}

/// The wait before the next attempt, in milliseconds: the back-off plus a jitter of up to a
/// quarter of it, taken from the clock's sub-second nanoseconds.
pub open spec fn backoff_delay_spec(secs: u64, nanos: u32) -> int {
    let base = if secs * 1000 <= u64::MAX {
        secs * 1000
    } else {
        u64::MAX as int
    };
    let cap = if base / 4 > 1 {
        base / 4
    } else {
        1
    };
    base + (nanos as int) % cap
}

pub fn backoff_delay_ms(secs: u64, nanos: u32) -> (r: u64)
    requires
        backoff_delay_spec(secs, nanos) <= u64::MAX,
    ensures
        r == backoff_delay_spec(secs, nanos),
{
    let base: u64 = if secs <= u64::MAX / 1000 {
        secs * 1000
    } else {
        u64::MAX
    };
    let quarter = base / 4;
    let cap = if quarter > 1 {
        quarter
    } else {
        1
    };
    base + (nanos as u64) % cap
}

/// A session refresh arrived: the connection counts as accepted (the counter of such pushes
/// advances, wrapping), and a non-empty session id replaces the stored one when signed in.
/// Returns the new counter and whether the session changed.
pub fn apply_session_refresh(
    ack: u64,
    session_id: &mut Option<String>,
    refreshed: &str,
) -> (r: (u64, bool))
    ensures
        r.0 == (if ack == u64::MAX {
            0
        } else {
            ack + 1
        }),
        r.1 == (refreshed@.len() > 0 && (*old(session_id)) is Some),
        r.1 ==> (*final(session_id) matches Some(s) && s@ == refreshed@),
        !r.1 ==> *final(session_id) == *old(session_id),
{
    let next = ack.wrapping_add(1);
    if refreshed.is_empty() {
        return (next, false);
    }
    match session_id {
        Some(_) => {
            *session_id = Some(String::from_str(refreshed));
            (next, true)
        },
        None => (next, false),
    }
}

/// One status change seen by a store that refreshes when the connection comes back: a
/// refresh is due when it is connected now and was not before. Returns whether to refresh,
/// and whether it counts as connected from now on.
pub fn connection_watch_step(was_connected: bool, connected: bool) -> (r: (bool, bool))
    ensures
        r.0 == (connected && !was_connected),
        r.1 == connected,
{
    (connected && !was_connected, connected)
}

/// The back-off after `k` failures in a row is `min(2^k, 60)` seconds.
pub proof fn lemma_backoff_after(k: nat)
    ensures
        backoff_after(k) == (if pow2(k) < MAX_BACKOFF_SECS {
            pow2(k)
        } else {
            MAX_BACKOFF_SECS as nat
        }),
    decreases k,
{
    if k == 0 {
        vstd::arithmetic::power2::lemma2_to64();
    } else {
        lemma_backoff_after((k - 1) as nat);
        lemma_pow2_unfold(k);
    }
}

/// After `k` attempts in a row failed or went unconfirmed (since the manager was made, or
/// last parked, signed out or confirmed), the manager waits `min(2^k, 60)` seconds before the
/// next attempt: the delay is that many seconds plus a jitter under a quarter of them.
pub proof fn law_backoff_after_failures(m: &ConnectionManager, nanos: u32)
    requires
        m.wf(),
    ensures
        m.backoff() == (if pow2(m.failures()) < MAX_BACKOFF_SECS {
            pow2(m.failures())
        } else {
            MAX_BACKOFF_SECS as nat
        }),
        m.backoff() * 1000 <= backoff_delay_spec(m.backoff(), nanos) < m.backoff() * 1250,
{
    lemma_backoff_after(m.failures());
    let b = m.backoff();
    assert(b * 1000 <= 60000);
    assert((b * 1000) / 4 == b * 250);
}

} // verus!
