use vstd::prelude::*;

use crate::dates::{parse_rfc3339_seconds, rfc3339_seconds};
use crate::text::{
    chars_of, int_decimal, i64_to_string, owned, parse_i64, parse_i64_spec, str_eq,
    string_from_chars, trim_chars, trim_seq,
};

verus! {

/// The user status that silences notifications.
pub const USER_STATUS_DO_NOT_DISTURB: &'static str = "Do Not Disturb";

/// The platform this client registers its notification device as.
pub const DEVICE_PLATFORM: &'static str = "desktop";

/// Whether a notification shows the sender's avatar.
pub const SHOW_SENDER_AVATAR: bool = false;

/// A notification pushed by the notification service.
#[derive(Debug, Clone, Default, PartialEq, Eq)]
pub struct GotifyNotification {
    pub sender_id: String,
    pub channel_id: String,
    pub date: String,
    pub title: String,
    pub message: String,
    pub image: String,
    pub link: String,
}

/// What a shown notification carries.
#[derive(Debug, Clone, PartialEq, Eq)]
pub struct PreparedNotification {
    pub title: String,
    pub body: String,
    pub channel_id: Option<String>,
    pub clan_id: Option<String>,
    pub link: Option<String>,
    pub icon_url: Option<String>,
}

// ---------------------------------------------------------------------------
// Which notifications are shown, and with what
// ---------------------------------------------------------------------------

/// The user is in do-not-disturb: its id is a number and its status is that one.
pub open spec fn dnd_spec(user_id: Seq<char>, status: Option<Seq<char>>) -> bool {
    parse_i64_spec(user_id) is Some && status == Some(USER_STATUS_DO_NOT_DISTURB@)
}

pub fn is_do_not_disturb(user_id: &str, status: Option<&str>) -> (r: bool)
    ensures
        r == dnd_spec(
            user_id@,
            match status {
                Some(s) => Some(s@),
                None => None,
            },
        ),
{
    if parse_i64(user_id).is_none() {
        return false;
    }
    match status {
        Some(s) => str_eq(s, USER_STATUS_DO_NOT_DISTURB),
        None => false,
    }
}

/// The user looks at the notification's channel: a window is focused and the channel id is
/// the viewed channel.
pub fn is_viewing_while_focused(has_window: bool, channel_id: &str, active_channel: Option<i64>) -> (r: bool)
    ensures
        r == (has_window && parse_i64_spec(channel_id@) is Some && active_channel == Some(
            parse_i64_spec(channel_id@)->0,
        )),
{
    if !has_window {
        return false;
    }
    match parse_i64(channel_id) {
        Some(raw) => match active_channel {
            Some(a) => a == raw,
            None => false,
        },
        None => false,
    }
}

/// Where a click on the notification goes: the channel (when its id is a number) and the
/// clan that lists it (when there is one other than `0`).
pub open spec fn route_spec(channel_id: Seq<char>, owning_clan: Option<i64>) -> (
    Option<Seq<char>>,
    Option<Seq<char>>,
) {
    if parse_i64_spec(channel_id) is None {
        (None, None)
    } else {
        (
            Some(channel_id),
            match owning_clan {
                Some(c) => if c != 0 {
                    Some(int_decimal(c as int))
                } else {
                    None
                },
                None => None,
            },
        )
    }
}

pub open spec fn opt_str_view(o: Option<String>) -> Option<Seq<char>> {
    match o {
        Some(s) => Some(s@),
        None => None,
    }
}

pub fn route_ids(channel_id: &str, owning_clan: Option<i64>) -> (r: (Option<String>, Option<String>))
    ensures
        (opt_str_view(r.0), opt_str_view(r.1)) == route_spec(channel_id@, owning_clan),
{
    if parse_i64(channel_id).is_none() {
        return (None, None);
    }
    let clan = match owning_clan {
        Some(c) => if c != 0 {
            Some(i64_to_string(c))
        } else {
            None
        },
        None => None,
    };
    (Some(owned(channel_id)), clan)
}

/// A pushed notification is shown unless it is the user's own message, the user is in
/// do-not-disturb, or the user looks at its channel. Shown, it keeps its title, its message
/// unless contents are hidden, its link when there is one, and routes to its channel and clan;
/// no sender avatar is shown.
pub fn prepare(
    user_id: &str,
    n: &GotifyNotification,
    do_not_disturb: bool,
    viewing_while_focused: bool,
    hide_content: bool,
    owning_clan: Option<i64>,
) -> (r: Option<PreparedNotification>)
    ensures
        (n.sender_id@ == user_id@ || do_not_disturb || viewing_while_focused) <==> r is None,
        r matches Some(p) ==> {
            &&& p.title@ == n.title@
            &&& p.body@ == (if hide_content {
                Seq::empty()
            } else {
                n.message@
            })
            &&& (opt_str_view(p.channel_id), opt_str_view(p.clan_id)) == route_spec(
                n.channel_id@,
                owning_clan,
            )
            &&& opt_str_view(p.link) == (if n.link@.len() > 0 {
                Some(n.link@)
            } else {
                None
            })
            &&& p.icon_url is None
        },
{
    if str_eq(n.sender_id.as_str(), user_id) || do_not_disturb || viewing_while_focused {
        return None;
    }
    let (channel_id, clan_id) = route_ids(n.channel_id.as_str(), owning_clan);
    let body = if hide_content {
        String::new()
    } else {
        n.message.clone()
    };
    let link = if n.link.as_str().is_empty() {
        None
    } else {
        Some(n.link.clone())
    };
    Some(
        PreparedNotification {
            title: n.title.clone(),
            body,
            channel_id,
            clan_id,
            link,
            icon_url: None,
        },
    )
}

/// The direct-message badge note for a pushed notification, given the seconds of its date
/// (none when it is not a date): none for the user's own message or a channel id that is not a
/// number other than `0`; else the channel and the seconds (`0` for an unreadable date).
pub fn dm_unread_note_at(user_id: &str, n: &GotifyNotification, seconds: Option<i64>) -> (r: Option<
    (i64, i64),
>)
    ensures
        r == (if n.sender_id@ == user_id@ {
            None
        } else {
            match parse_i64_spec(n.channel_id@) {
                Some(c) => if c == 0 {
                    None
                } else {
                    Some(
                        (
                            c,
                            match seconds {
                                Some(t) => t,
                                None => 0,
                            },
                        ),
                    )
                },
                None => None,
            }
        }),
{
    if str_eq(n.sender_id.as_str(), user_id) {
        return None;
    }
    match parse_i64(n.channel_id.as_str()) {
        Some(c) => if c == 0 {
            None
        } else {
            Some(
                (
                    c,
                    match seconds {
                        Some(t) => t,
                        None => 0,
                    },
                ),
            )
        },
        None => None,
    }
}

/// The direct-message badge note for a pushed notification, reading its date with `chrono`
/// (see `dm_unread_note_at`).
pub fn note_dm_unread(user_id: &str, n: &GotifyNotification) -> (r: Option<(i64, i64)>)
    ensures
        ({
            let s = rfc3339_seconds(n.date@);
            r == (if n.sender_id@ == user_id@ {
                None
            } else {
                match parse_i64_spec(n.channel_id@) {
                    Some(c) => if c == 0 {
                        None
                    } else {
                        Some(
                            (
                                c,
                                match s {
                                    Some(t) => t,
                                    None => 0,
                                },
                            ),
                        )
                    },
                    None => None,
                }
            })
        }),
{
    let seconds = parse_rfc3339_seconds(n.date.as_str());
    dm_unread_note_at(user_id, n, seconds)
}

// ---------------------------------------------------------------------------
// Keeping the notification stream open
// ---------------------------------------------------------------------------

/// What to do when the signed-in user may have changed.
#[derive(Debug, Clone, PartialEq, Eq)]
pub enum SyncAction {
    /// Open the stream for this user.
    Start(String),
    /// The user signed out: drop the stream.
    Stop,
    /// Nothing changed.
    Keep,
}

pub fn sync_action(auth_user: Option<&str>, connected_user: Option<&str>, has_connection: bool) -> (r:
    SyncAction)
    ensures
        match auth_user {
            Some(u) => if (match connected_user {
                Some(c) => c@ == u@,
                None => false,
            }) {
                r == SyncAction::Keep
            } else {
                r matches SyncAction::Start(s) && s@ == u@
            },
            None => r == (if has_connection {
                SyncAction::Stop
            } else {
                SyncAction::Keep
            }),
        },
{
    match auth_user {
        Some(u) => {
            let same = match connected_user {
                Some(c) => str_eq(c, u),
                None => false,
            };
            if same {
                SyncAction::Keep
            } else {
                SyncAction::Start(owned(u))
            }
        },
        None => if has_connection {
            SyncAction::Stop
        } else {
            SyncAction::Keep
        },
    }
}

/// The stream is opened only with a configured address and notifications permitted.
pub fn may_start(ws_base: Option<&str>, permitted: bool) -> (r: bool)
    ensures
        r == (ws_base matches Some(b) && b@.len() > 0 && permitted),
{
    match ws_base {
        Some(b) => !b.is_empty() && permitted,
        None => false,
    }
}

/// How a notification stream ended.
#[derive(Debug, Clone, Copy, PartialEq, Eq)]
pub enum StreamEnd {
    ConnectFailed,
    ClosedByServer,
    Dropped,
    Rejected,
    ReceiverGone,
}

/// The next step of the stream loop.
#[derive(Debug, Clone, PartialEq, Eq)]
pub enum GotifyStep {
    /// Offline: wait for the network, then start over with the first back-off.
    WaitOnline,
    /// No token yet: register the device for one.
    Register,
    /// Open the stream with this token.
    OpenStream(String),
}

/// What follows a stream's end or a failed registration.
#[derive(Debug, Clone, Copy, PartialEq, Eq)]
pub enum RetryPlan {
    /// The app is closing: stop.
    Stop,
    /// Wait out the back-off (reset to the first one when asked) and go on.
    Retry { reset_backoff: bool },
}

/// The stream loop's memory: the token it holds, if any.
pub struct GotifyLoop {
    pub token: Option<String>,
}

impl GotifyLoop {
    pub fn new() -> (r: Self)
        ensures
            r.token is None,
    {
        GotifyLoop { token: None }
    }

    pub fn next_step(&self, online: bool) -> (r: GotifyStep)
        ensures
            !online ==> r == GotifyStep::WaitOnline,
            online ==> match self.token {
                Some(t) => r matches GotifyStep::OpenStream(s) && s@ == t@,
                None => r == GotifyStep::Register,
            },
    {
        if !online {
            return GotifyStep::WaitOnline;
        }
        match &self.token {
            Some(t) => GotifyStep::OpenStream(t.clone()),
            None => GotifyStep::Register,
        }
    }

    /// A registration answered (none when it failed) with a token and a device id: a token
    /// that is not blank is kept, trimmed, and a non-empty device id is returned to be kept;
    /// otherwise the loop retries after the back-off.
    pub fn on_register(&mut self, answer: Option<(String, String)>) -> (r: Result<Option<String>, RetryPlan>)
        ensures
            match answer {
                Some((fresh, device)) => if trim_seq(fresh@).len() > 0 {
                    &&& (final(self).token matches Some(t) && t@ == trim_seq(fresh@))
                    &&& (r matches Ok(d) && match d {
                        Some(x) => device@.len() > 0 && x@ == device@,
                        None => device@.len() == 0,
                    })
                } else {
                    r == Err::<Option<String>, RetryPlan>(RetryPlan::Retry { reset_backoff: false })
                        && final(self).token == old(self).token
                },
                None => r == Err::<Option<String>, RetryPlan>(RetryPlan::Retry { reset_backoff: false })
                    && final(self).token == old(self).token,
            },
    {
        match answer {
            Some((fresh, device)) => {
                let t = trim_chars(&chars_of(fresh.as_str()));
                if t.len() == 0 {
                    return Err(RetryPlan::Retry { reset_backoff: false });
                }
                self.token = Some(string_from_chars(&t));
                if device.as_str().is_empty() {
                    Ok(None)
                } else {
                    Ok(Some(device))
                }
            },
            None => Err(RetryPlan::Retry { reset_backoff: false }),
        }
    }

    /// The stream ended: the app closing stops the loop; a dropped stream starts the back-off
    /// over; a refused token is forgotten (a new one is registered next); otherwise the loop
    /// retries after the back-off.
    pub fn on_stream_end(&mut self, end: StreamEnd) -> (r: RetryPlan)
        ensures
            r == (match end {
                StreamEnd::ReceiverGone => RetryPlan::Stop,
                StreamEnd::Dropped => RetryPlan::Retry { reset_backoff: true },
                _ => RetryPlan::Retry { reset_backoff: false },
            }),
            end == StreamEnd::Rejected ==> final(self).token is None,
            end != StreamEnd::Rejected ==> final(self).token == old(self).token,
    {
        match end {
            StreamEnd::ReceiverGone => RetryPlan::Stop,
            StreamEnd::Dropped => RetryPlan::Retry { reset_backoff: true },
            StreamEnd::Rejected => {
                self.token = None;
                RetryPlan::Retry { reset_backoff: false }
            },
            _ => RetryPlan::Retry { reset_backoff: false },
        }
    }
}

} // verus!
