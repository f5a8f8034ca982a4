use vstd::prelude::*;

use crate::text::{opt_view, owned, str_eq};

verus! {

// ---------------------------------------------------------------------------
// Reading the SFU's JSON frames
// ---------------------------------------------------------------------------

/// Whether `text` is a JSON document.
pub uninterp spec fn json_parses(text: Seq<char>) -> bool;

/// The JSON text of member `key`, when `text` is a JSON object holding it.
pub uninterp spec fn json_member(text: Seq<char>, key: Seq<char>) -> Option<Seq<char>>;

/// The characters of the string, when `text` is a JSON string.
pub uninterp spec fn json_string(text: Seq<char>) -> Option<Seq<char>>;

/// The number, when `text` is a JSON number that is a `u64`.
pub uninterp spec fn json_u64(text: Seq<char>) -> Option<u64>;

/// The JSON text of each item, when `text` is a JSON array.
pub uninterp spec fn json_items(text: Seq<char>) -> Option<Seq<Seq<char>>>;

pub open spec fn strings_view(v: Seq<String>) -> Seq<Seq<char>> {
    v.map_values(|s: String| s@)
}

/// `serde_json::from_str::<Value>`: whether the text parses. Claimed: exactly when
/// `json_parses` holds of it, a function of the text alone.
#[verifier::external_body]
fn is_json(text: &str) -> (r: bool)
    ensures
        r == json_parses(text@),
{
    serde_json::from_str::<serde_json::Value>(text).is_ok()
}

/// `serde_json::from_str::<Value>`, then `Value::get(key)`, then the member's `to_string`.
/// Claimed: the result is what `json_member` names, a function of the two texts alone.
#[verifier::external_body]
fn json_member_text(text: &str, key: &str) -> (r: Option<String>)
    ensures
        opt_view(r) == json_member(text@, key@),
{
    match serde_json::from_str::<serde_json::Value>(text) {
        Ok(v) => match v.get(key) {
            Some(x) => Some(x.to_string()),
            None => None,
        },
        Err(_) => None,
    }
}

/// `serde_json::from_str::<Value>`, then `Value::as_str`. Claimed: the result is what
/// `json_string` names, a function of the text alone.
#[verifier::external_body]
fn json_string_value(text: &str) -> (r: Option<String>)
    ensures
        opt_view(r) == json_string(text@),
{
    match serde_json::from_str::<serde_json::Value>(text) {
        Ok(v) => match v.as_str() {
            Some(s) => Some(s.to_string()),
            None => None,
        },
        Err(_) => None,
    }
}

/// `serde_json::from_str::<Value>`, then `Value::as_u64`. Claimed: the result is what
/// `json_u64` names, a function of the text alone.
#[verifier::external_body]
fn json_u64_value(text: &str) -> (r: Option<u64>)
    ensures
        r == json_u64(text@),
{
    match serde_json::from_str::<serde_json::Value>(text) {
        Ok(v) => v.as_u64(),
        Err(_) => None,
    }
}

/// `serde_json::from_str::<Value>`, then `Value::as_array`, then each item's `to_string`.
/// Claimed: the result is what `json_items` names, a function of the text alone.
#[verifier::external_body]
fn json_item_texts(text: &str) -> (r: Option<Vec<String>>)
    ensures
        match r {
            Some(v) => json_items(text@) == Some(strings_view(v@)),
            None => json_items(text@) is None,
        },
{
    match serde_json::from_str::<serde_json::Value>(text) {
        Ok(v) => match v.as_array() {
            Some(a) => Some(a.iter().map(serde_json::Value::to_string).collect()),
            None => None,
        },
        Err(_) => None,
    }
}

/// The string member `key` of `t`.
pub open spec fn member_str(t: Seq<char>, key: Seq<char>) -> Option<Seq<char>> {
    match json_member(t, key) {
        Some(m) => json_string(m),
        None => None,
    }
}

/// The `u64` member `key` of `t`.
pub open spec fn member_u64(t: Seq<char>, key: Seq<char>) -> Option<u64> {
    match json_member(t, key) {
        Some(m) => json_u64(m),
        None => None,
    }
}

pub open spec fn or_empty(o: Option<Seq<char>>) -> Seq<char> {
    match o {
        Some(s) => s,
        None => Seq::empty(),
    }
}

fn member_string(text: &str, key: &str) -> (r: Option<String>)
    ensures
        opt_view(r) == member_str(text@, key@),
{
    match json_member_text(text, key) {
        Some(m) => json_string_value(m.as_str()),
        None => None,
    }
}

fn member_u64_value(text: &str, key: &str) -> (r: Option<u64>)
    ensures
        r == member_u64(text@, key@),
{
    match json_member_text(text, key) {
        Some(m) => json_u64_value(m.as_str()),
        None => None,
    }
}

// ---------------------------------------------------------------------------
// ICE servers
// ---------------------------------------------------------------------------

/// A STUN or TURN server the peer connection may use.
#[derive(Debug, Clone, PartialEq, Eq)]
pub struct IceServer {
    pub urls: Vec<String>,
    pub username: String,
    pub password: String,
}

pub open spec fn ice_view(s: IceServer) -> (Seq<Seq<char>>, Seq<char>, Seq<char>) {
    (strings_view(s.urls@), s.username@, s.password@)
}

pub open spec fn ice_views(v: Seq<IceServer>) -> Seq<(Seq<Seq<char>>, Seq<char>, Seq<char>)> {
    v.map_values(|s: IceServer| ice_view(s))
}

/// The items of `xs` that are JSON strings, as their characters.
pub open spec fn string_items(xs: Seq<Seq<char>>) -> Seq<Seq<char>>
    decreases xs.len(),
{
    if xs.len() == 0 {
        Seq::empty()
    } else {
        let rest = string_items(xs.drop_last());
        match json_string(xs.last()) {
            Some(s) => rest.push(s),
            None => rest,
        }
    }
}

/// The addresses of one listed server: its `urls` when a string, the strings among them
/// when an array, else none.
pub open spec fn server_urls(item: Seq<char>) -> Seq<Seq<char>> {
    match json_member(item, "urls"@) {
        Some(u) => match json_string(u) {
            Some(s) => seq![s],
            None => match json_items(u) {
                Some(xs) => string_items(xs),
                None => Seq::empty(),
            },
        },
        None => Seq::empty(),
    }
}

/// The servers listed in `items`, in order: each one with at least one address, with its
/// `username` and `credential` (empty when absent).
pub open spec fn ice_servers_spec(items: Seq<Seq<char>>) -> Seq<(Seq<Seq<char>>, Seq<char>, Seq<char>)>
    decreases items.len(),
{
    if items.len() == 0 {
        Seq::empty()
    } else {
        let rest = ice_servers_spec(items.drop_last());
        let it = items.last();
        if server_urls(it).len() > 0 {
            rest.push((server_urls(it), or_empty(member_str(it, "username"@)), or_empty(member_str(it, "credential"@))))
        } else {
            rest
        }
    }
}

/// The servers of an `iceServers` value: none unless it is an array.
pub open spec fn ice_list_spec(value: Seq<char>) -> Seq<(Seq<Seq<char>>, Seq<char>, Seq<char>)> {
    match json_items(value) {
        Some(items) => ice_servers_spec(items),
        None => Seq::empty(),
    }
}

fn string_items_exec(xs: &Vec<String>) -> (r: Vec<String>)
    ensures
        strings_view(r@) == string_items(strings_view(xs@)),
{
    let ghost sv = strings_view(xs@);
    let mut out: Vec<String> = Vec::new();
    let mut i: usize = 0;
    proof {
        assert(sv.take(0) =~= Seq::<Seq<char>>::empty());
        assert(strings_view(out@) =~= Seq::<Seq<char>>::empty());
    }
    while i < xs.len()
        invariant
            i <= xs@.len(),
            sv == strings_view(xs@),
            strings_view(out@) == string_items(sv.take(i as int)),
        decreases xs@.len() - i,
    {
        proof {
            assert(sv.take(i + 1).drop_last() =~= sv.take(i as int));
            assert(sv.take(i + 1).last() == xs@[i as int]@);
        }
        let ghost before = out@;
        match json_string_value(xs[i].as_str()) {
            Some(s) => {
                out.push(s);
                proof {
                    assert(strings_view(out@) =~= strings_view(before).push(out@.last()@));
                }
            },
            None => {},
        }
        i += 1;
    }
    proof {
        assert(sv.take(xs@.len() as int) =~= sv);
    }
    out
}

fn server_urls_exec(item: &str) -> (r: Vec<String>)
    ensures
        strings_view(r@) == server_urls(item@),
{
    match json_member_text(item, "urls") {
        Some(u) => match json_string_value(u.as_str()) {
            Some(s) => {
                let v = vec![s];
                proof {
                    assert(strings_view(v@) =~= seq![v@[0]@]);
                }
                v
            },
            None => match json_item_texts(u.as_str()) {
                Some(xs) => string_items_exec(&xs),
                None => {
                    let v: Vec<String> = Vec::new();
                    proof {
                        assert(strings_view(v@) =~= Seq::<Seq<char>>::empty());
                    }
                    v
                },
            },
        },
        None => {
            let v: Vec<String> = Vec::new();
            proof {
                assert(strings_view(v@) =~= Seq::<Seq<char>>::empty());
            }
            v
        },
    }
}

fn string_or_empty(o: Option<String>) -> (r: String)
    ensures
        r@ == or_empty(opt_view(o)),
{
    match o {
        Some(s) => s,
        None => String::new(),
    }
}

/// The ICE servers of an `iceServers` value (see `ice_list_spec`).
pub fn parse_ice_servers(value: &str) -> (r: Vec<IceServer>)
    ensures
        ice_views(r@) == ice_list_spec(value@),
{
    let mut out: Vec<IceServer> = Vec::new();
    let items = match json_item_texts(value) {
        Some(items) => items,
        None => {
            proof {
                assert(ice_views(out@) =~= Seq::<(Seq<Seq<char>>, Seq<char>, Seq<char>)>::empty());
            }
            return out;
        },
    };
    let ghost sv = strings_view(items@);
    let mut i: usize = 0;
    proof {
        assert(sv.take(0) =~= Seq::<Seq<char>>::empty());
        assert(ice_views(out@) =~= Seq::<(Seq<Seq<char>>, Seq<char>, Seq<char>)>::empty());
    }
    while i < items.len()
        invariant
            i <= items@.len(),
            sv == strings_view(items@),
            ice_views(out@) == ice_servers_spec(sv.take(i as int)),
        decreases items@.len() - i,
    {
        proof {
            assert(sv.take(i + 1).drop_last() =~= sv.take(i as int));
            assert(sv.take(i + 1).last() == items@[i as int]@);
        }
        let it = items[i].as_str();
        let urls = server_urls_exec(it);
        if urls.len() > 0 {
            let username = string_or_empty(member_string(it, "username"));
            let password = string_or_empty(member_string(it, "credential"));
            let ghost before = out@;
            out.push(IceServer { urls, username, password });
            proof {
                assert(ice_views(out@) =~= ice_views(before).push(ice_view(out@.last())));
            }
        }
        i += 1;
    }
    proof {
        assert(sv.take(items@.len() as int) =~= sv);
    }
    out
}

pub open spec fn default_stun() -> Seq<char> {
    "stun:stun.l.google.com:19302"@
}

/// The servers the peer connection is made with: those listed, else Google's public STUN
/// server alone.
pub open spec fn peer_servers_spec(listed: Seq<(Seq<Seq<char>>, Seq<char>, Seq<char>)>) -> Seq<
    (Seq<Seq<char>>, Seq<char>, Seq<char>),
> {
    if listed.len() > 0 {
        listed
    } else {
        seq![(seq![default_stun()], Seq::<char>::empty(), Seq::<char>::empty())]
    }
}

pub fn peer_ice_servers(listed: Vec<IceServer>) -> (r: Vec<IceServer>)
    ensures
        ice_views(r@) == peer_servers_spec(ice_views(listed@)),
{
    if listed.len() > 0 {
        return listed;
    }
    let urls = vec![owned("stun:stun.l.google.com:19302")];
    let r = vec![IceServer { urls, username: String::new(), password: String::new() }];
    proof {
        assert(strings_view(r@[0].urls@) =~= seq![default_stun()]);
        assert(ice_views(r@) =~= peer_servers_spec(ice_views(listed@)));
    }
    r
}

// ---------------------------------------------------------------------------
// Frames and the session's decisions
// ---------------------------------------------------------------------------

/// A JSON frame of the SFU, by its `type`.
#[derive(Debug, Clone, PartialEq, Eq)]
pub enum SfuFrame {
    Ping,
    Pong,
    /// The room was joined; the ICE servers it lists.
    Joined { ice_servers: Vec<IceServer> },
    /// An offer to negotiate, with what of its generation and description came.
    Offer { generation: Option<u64>, sdp: Option<String> },
    /// The SFU reports an error, with its message when it gave one.
    Error { reason: Option<String> },
    /// Any other type, or none.
    Other,
}

/// The `type` of a frame (empty when it has none that is a string).
pub open spec fn frame_kind(t: Seq<char>) -> Seq<char> {
    or_empty(member_str(t, "type"@))
}

/// `f` is what frame text `t` says.
pub open spec fn frame_matches(f: SfuFrame, t: Seq<char>) -> bool {
    let k = frame_kind(t);
    if k == "ping"@ {
        f is Ping
    } else if k == "pong"@ {
        f is Pong
    } else if k == "joined"@ {
        f matches SfuFrame::Joined { ice_servers } && ice_views(ice_servers@) == (match json_member(
            t,
            "iceServers"@,
        ) {
            Some(v) => ice_list_spec(v),
            None => Seq::empty(),
        })
    } else if k == "offer"@ {
        f matches SfuFrame::Offer { generation, sdp } && generation == member_u64(t, "offer_generation"@)
            && opt_view(sdp) == member_str(t, "sdp"@)
    } else if k == "error"@ {
        f matches SfuFrame::Error { reason } && opt_view(reason) == member_str(t, "message"@)
    } else {
        f is Other
    }
}

/// Reads a text frame of the SFU: none when it is not JSON.
pub fn parse_sfu_frame(text: &str) -> (r: Option<SfuFrame>)
    ensures
        !json_parses(text@) ==> r is None,
        json_parses(text@) ==> (r matches Some(f) && frame_matches(f, text@)),
{
    if !is_json(text) {
        return None;
    }
    let kind = string_or_empty(member_string(text, "type"));
    let k = kind.as_str();
    if str_eq(k, "ping") {
        Some(SfuFrame::Ping)
    } else if str_eq(k, "pong") {
        Some(SfuFrame::Pong)
    } else if str_eq(k, "joined") {
        let ice_servers = match json_member_text(text, "iceServers") {
            Some(v) => parse_ice_servers(v.as_str()),
            None => {
                let v: Vec<IceServer> = Vec::new();
                proof {
                    assert(ice_views(v@) =~= Seq::<(Seq<Seq<char>>, Seq<char>, Seq<char>)>::empty());
                }
                v
            },
        };
        Some(SfuFrame::Joined { ice_servers })
    } else if str_eq(k, "offer") {
        Some(
            SfuFrame::Offer {
                generation: member_u64_value(text, "offer_generation"),
                sdp: member_string(text, "sdp"),
            },
        )
    } else if str_eq(k, "error") {
        Some(SfuFrame::Error { reason: member_string(text, "message") })
    } else {
        Some(SfuFrame::Other)
    }
}

/// What the peer connection reports of its state.
#[derive(Debug, Clone, Copy, PartialEq, Eq, Structural)]
pub enum PeerState {
    New,
    Connecting,
    Connected,
    Disconnected,
    Failed,
    Closed,
}

/// What the session is told next: a websocket frame (text, ping, close, another kind), the
/// end of the websocket, or a peer connection state.
#[derive(Debug, Clone, PartialEq, Eq)]
pub enum SessionInput {
    Text(String),
    Ping,
    Close,
    OtherFrame,
    Ended,
    Peer(PeerState),
}

/// What the session does about it.
#[derive(Debug, Clone, PartialEq, Eq)]
pub enum SessionAction {
    Nothing,
    /// Send `{"type":"pong"}`.
    SendPong,
    /// Answer the websocket ping with a pong of the same payload.
    ReplyPing,
    /// Make the peer connection with these ICE servers.
    CreatePeer { ice_servers: Vec<IceServer> },
    /// Negotiate the offer of this generation.
    Negotiate { generation: u64, sdp: String },
    /// The peer connected: the reconnect attempts start over; report the stream live when
    /// `emit_live`.
    Connected { emit_live: bool },
    /// The session ends with this error.
    Fail(String),
}

/// Whether the stream was reported live, and whether the peer connection was made.
#[derive(Debug, Clone, Copy, PartialEq, Eq, Structural)]
pub struct SessionState {
    pub live: bool,
    pub has_peer: bool,
}

/// `a` fails the session with message `m`.
pub open spec fn fails_with(a: SessionAction, m: Seq<char>) -> bool {
    a matches SessionAction::Fail(x) && x@ == m
}

fn fail(m: &str) -> (a: SessionAction)
    ensures
        fails_with(a, m@),
{
    SessionAction::Fail(owned(m))
}

/// What a frame of type `offer` leads to (see `session_step`).
pub open spec fn offer_step(st: SessionState, t: Seq<char>, a: SessionAction) -> bool {
    match member_u64(t, "offer_generation"@) {
        None => fails_with(a, "SFU offer is missing offer_generation"@),
        Some(g) => match member_str(t, "sdp"@) {
            None => fails_with(a, "SFU offer is missing sdp"@),
            Some(sdp) => if !st.has_peer {
                fails_with(a, "SFU offer arrived before joined"@)
            } else {
                a matches SessionAction::Negotiate { generation, sdp: s } && generation == g && s@ == sdp
            },
        },
    }
}

/// What a text frame leads to (see `session_step`).
pub open spec fn text_step(st: SessionState, t: Seq<char>, n: SessionState, a: SessionAction) -> bool {
    let k = frame_kind(t);
    if !json_parses(t) {
        n == st && fails_with(a, "invalid SFU JSON"@)
    } else if k == "ping"@ {
        n == st && a == SessionAction::SendPong
    } else if k == "joined"@ {
        if st.has_peer {
            n == st && a == SessionAction::Nothing
        } else {
            n == (SessionState { has_peer: true, ..st }) && (a matches SessionAction::CreatePeer { ice_servers }
                && ice_views(ice_servers@) == peer_servers_spec(
                match json_member(t, "iceServers"@) {
                    Some(v) => ice_list_spec(v),
                    None => Seq::empty(),
                },
            ))
        }
    } else if k == "offer"@ {
        n == st && offer_step(st, t, a)
    } else if k == "error"@ {
        n == st && fails_with(a, "SFU error: "@ + or_empty_or(member_str(t, "message"@), "SFU error"@))
    } else {
        n == st && a == SessionAction::Nothing
    }
}

pub open spec fn or_empty_or(o: Option<Seq<char>>, d: Seq<char>) -> Seq<char> {
    match o {
        Some(s) => s,
        None => d,
    }
}

/// One decision of a stream session: a text frame is read as JSON and acted on by its type
/// (`ping` is answered, `joined` makes the peer connection once, `offer` is negotiated once
/// it has a generation, a description and a peer, `error` ends the session); a websocket ping
/// is answered, a close or the end of the websocket ends the session; the peer connecting
/// resets the reconnect attempts and reports the stream live the first time, its failing or
/// closing ends the session.
pub fn session_step(st: SessionState, input: SessionInput) -> (r: (SessionState, SessionAction))
    ensures
        match input {
            SessionInput::Text(t) => text_step(st, t@, r.0, r.1),
            SessionInput::Ping => r == (st, SessionAction::ReplyPing),
            SessionInput::Close => r.0 == st && fails_with(r.1, "SFU closed stream session"@),
            SessionInput::OtherFrame => r == (st, SessionAction::Nothing),
            SessionInput::Ended => r.0 == st && fails_with(r.1, "SFU websocket closed"@),
            SessionInput::Peer(p) => match p {
                PeerState::Connected => r == (SessionState { live: true, ..st }, SessionAction::Connected {
                    emit_live: !st.live,
                }),
                PeerState::Failed => r.0 == st && fails_with(r.1, "SFU peer connection failed"@),
                PeerState::Closed => r.0 == st && fails_with(r.1, "SFU peer connection closed"@),
                _ => r == (st, SessionAction::Nothing),
            },
        },
{
    match input {
        SessionInput::Ping => (st, SessionAction::ReplyPing),
        SessionInput::Close => (st, fail("SFU closed stream session")),
        SessionInput::OtherFrame => (st, SessionAction::Nothing),
        SessionInput::Ended => (st, fail("SFU websocket closed")),
        SessionInput::Peer(p) => match p {
            PeerState::Connected => (SessionState { live: true, ..st }, SessionAction::Connected { emit_live: !st.live }),
            PeerState::Failed => (st, fail("SFU peer connection failed")),
            PeerState::Closed => (st, fail("SFU peer connection closed")),
            _ => (st, SessionAction::Nothing),
        },
        SessionInput::Text(t) => text_frame_step(st, t.as_str()),
    }
}

fn text_frame_step(st: SessionState, t: &str) -> (r: (SessionState, SessionAction))
    ensures
        text_step(st, t@, r.0, r.1),
{
    let frame = match parse_sfu_frame(t) {
        Some(f) => f,
        None => {
            return (st, fail("invalid SFU JSON"));
        },
    };
    proof {
        reveal_strlit("ping");
        reveal_strlit("pong");
        reveal_strlit("joined");
        reveal_strlit("offer");
        reveal_strlit("error");
    }
    match frame {
        SfuFrame::Ping => {
            assert(text_step(st, t@, st, SessionAction::SendPong));
            (st, SessionAction::SendPong)
        },
        SfuFrame::Pong => {
            assert(frame_kind(t@) == "pong"@);
            assert(text_step(st, t@, st, SessionAction::Nothing));
            (st, SessionAction::Nothing)
        },
        SfuFrame::Joined { ice_servers } => {
            if st.has_peer {
                assert(frame_kind(t@) == "joined"@);
                assert(text_step(st, t@, st, SessionAction::Nothing));
                (st, SessionAction::Nothing)
            } else {
                proof {
                    assert(frame_kind(t@) == "joined"@);
                }
                let n = SessionState { live: st.live, has_peer: true };
                let a = SessionAction::CreatePeer { ice_servers: peer_ice_servers(ice_servers) };
                assert(n == (SessionState { has_peer: true, ..st }));
                assert(text_step(st, t@, n, a));
                (n, a)
            }
        },
        SfuFrame::Offer { generation, sdp } => {
            proof {
                assert(frame_kind(t@) == "offer"@);
            }
            let a = match generation {
                None => fail("SFU offer is missing offer_generation"),
                Some(g) => match sdp {
                    None => fail("SFU offer is missing sdp"),
                    Some(s) => if !st.has_peer {
                        fail("SFU offer arrived before joined")
                    } else {
                        SessionAction::Negotiate { generation: g, sdp: s }
                    },
                },
            };
            assert(offer_step(st, t@, a));
            (st, a)
        },
        SfuFrame::Error { reason } => {
            proof {
                assert(frame_kind(t@) == "error"@);
            }
            let mut m = owned("SFU error: ");
            match reason {
                Some(x) => m.append(x.as_str()),
                None => m.append("SFU error"),
            }
            let a = SessionAction::Fail(m);
            assert(fails_with(a, "SFU error: "@ + or_empty_or(member_str(t@, "message"@), "SFU error"@)));
            (st, a)
        },
        SfuFrame::Other => {
            assert(text_step(st, t@, st, SessionAction::Nothing));
            (st, SessionAction::Nothing)
        },
    }
}

} // verus!
