use vstd::prelude::*;

use crate::ids::{ChannelId, ClanId};
use crate::message::MessageReference;
use crate::outgoing::{
    draft_reference, reference_of, reply_sent, send_route, temp_id_spec, temp_message_id, ReplyDraft,
    SendRoute,
};
use crate::timeline::Paging;

verus! {

/// The join type of a clan channel.
pub const CHANNEL_TYPE_CHANNEL: i32 = 1;
/// The stream mode of a clan channel.
pub const STREAM_MODE_CHANNEL: i32 = 2;
/// The raw type of a group conversation.
pub const CHANNEL_TYPE_GROUP: i32 = 2;

/// The stream mode of a direct conversation: `3` for a group, `4` for a one-to-one message.
pub open spec fn direct_mode_spec(channel_type: i32) -> i32 {
    if channel_type == CHANNEL_TYPE_GROUP {
        3
    } else {
        4
    }
}

pub fn direct_mode(channel_type: i32) -> (r: i32)
    ensures
        r == direct_mode_spec(channel_type),
{
    if channel_type == CHANNEL_TYPE_GROUP {
        3
    } else {
        4
    }
}

/// The conversation that the message view shows.
pub struct Conversation {
    pub active_channel_id: Option<ChannelId>,
    pub active_clan_id: Option<ClanId>,
    pub is_public: bool,
    pub is_dm: bool,
    pub mode: i32,
    pub paging: Paging,
    /// Each fetch of a first page gets a new generation; a result of an older one is stale.
    pub fetch_generation: u64,
    /// The message the composer replies to.
    pub reply_target: Option<ReplyDraft>,
    /// The channels joined in this session.
    pub joined_channels: Vec<ChannelId>,
}

/// What activating a conversation asks for.
#[derive(Debug, Clone, PartialEq, Eq)]
pub struct ActivatePlan {
    /// Join the channel (first visit in this session).
    pub join: bool,
    /// Fetch the first page under this generation; none when the cache is fresh.
    pub fetch: Option<u64>,
}

/// The start of sending a message: the conversation it goes to, the temporary id of its
/// optimistic row, the reference that row shows, and how it is sent.
pub struct SendStart {
    pub channel_id: ChannelId,
    pub clan_id: ClanId,
    pub is_public: bool,
    pub mode: i32,
    pub temp_id: String,
    pub reference: Option<MessageReference>,
    pub route: SendRoute,
}

/// A message can be sent: a channel and a clan are active.
pub open spec fn is_sendable(c: Conversation) -> bool {
    c.active_channel_id is Some && c.active_clan_id is Some
}

/// Sending from conversation `o` at `now_secs` started as `st` and left `n`: the reply target
/// is used up; `st` names the active channel and clan, the conversation's public flag and
/// mode, the temporary id, the reference the optimistic row shows, and the route.
pub open spec fn send_started(o: Conversation, n: Conversation, st: SendStart, has_attachments: bool, now_secs: i64) -> bool {
    &&& n == (Conversation { reply_target: None, ..o })
    &&& st.channel_id == o.active_channel_id->0
    &&& st.clan_id == o.active_clan_id->0
    &&& st.is_public == o.is_public
    &&& st.mode == o.mode
    &&& st.temp_id@ == temp_id_spec(now_secs)
    &&& match o.reply_target {
        None => st.reference is None,
        Some(d) => st.reference matches Some(rf) && reference_of(rf, d),
    }
    &&& if has_attachments {
        st.route == SendRoute::WithAttachments
    } else {
        match o.reply_target {
            None => st.route == SendRoute::Plain,
            Some(d) => st.route matches SendRoute::Reply(x) && reply_sent(x, d),
        }
    }
}

/// What opening a conversation asks for.
#[derive(Debug, Clone, PartialEq, Eq)]
pub enum OpenPlan {
    /// Nothing to do.
    Stay,
    /// The conversation is already open but empty and stale: fetch its first page again
    /// under this generation.
    Refetch(u64),
    /// Another conversation became the active one.
    Activated(ActivatePlan),
}

pub open spec fn next_generation(g: u64) -> u64 {
    if g == u64::MAX {
        0
    } else {
        (g + 1) as u64
    }
}

impl Conversation {
    pub fn new() -> (r: Self)
        ensures
            r.active_channel_id is None,
            r.active_clan_id is None,
            !r.is_dm && !r.paging.loading && !r.paging.loading_more,
            r.reply_target is None,
            r.joined_channels@.len() == 0,
            r.paging.consecutive_loads == 0,
            !r.is_public && r.mode == 0 && r.fetch_generation == 0,
    {
        Conversation {
            active_channel_id: None,
            active_clan_id: None,
            is_public: false,
            is_dm: false,
            mode: 0,
            paging: Paging::new(),
            fetch_generation: 0,
            reply_target: None,
            joined_channels: Vec::new(),
        }
    }

    /// No conversation is active any more.
    pub fn close(&mut self)
        ensures
            final(self).active_channel_id is None,
            final(self).active_clan_id is None,
            !final(self).is_dm,
            !final(self).paging.loading,
            !final(self).paging.loading_more,
            final(self).paging.consecutive_loads == old(self).paging.consecutive_loads,
            final(self).reply_target is None,
            final(self).is_public == old(self).is_public,
            final(self).mode == old(self).mode,
            final(self).fetch_generation == old(self).fetch_generation,
            final(self).joined_channels@ == old(self).joined_channels@,
    {
        self.active_channel_id = None;
        self.active_clan_id = None;
        self.is_dm = false;
        self.paging.loading = false;
        self.paging.loading_more = false;
        self.reply_target = None;
    }

    /// Makes a conversation the active one: its flags are set, paging and the reply target
    /// are reset, and a new fetch generation begins. A channel not joined yet is joined. A
    /// fresh cache is shown as it is; otherwise the first page is fetched.
    pub fn activate(
        &mut self,
        clan_id: ClanId,
        channel_id: ChannelId,
        is_public: bool,
        is_dm: bool,
        mode: i32,
        fresh: bool,
    ) -> (r: ActivatePlan)
        ensures
            final(self).active_channel_id == Some(channel_id),
            final(self).active_clan_id == Some(clan_id),
            final(self).is_public == is_public,
            final(self).is_dm == is_dm,
            final(self).mode == mode,
            !final(self).paging.loading_more,
            final(self).paging.loading == !fresh,
            final(self).paging.consecutive_loads == old(self).paging.consecutive_loads,
            final(self).reply_target is None,
            final(self).fetch_generation == next_generation(old(self).fetch_generation),
            r.join == !old(self).joined_channels@.contains(channel_id),
            final(self).joined_channels@ == (if r.join {
                old(self).joined_channels@.push(channel_id)
            } else {
                old(self).joined_channels@
            }),
            r.fetch == (if fresh {
                None
            } else {
                Some(final(self).fetch_generation)
            }),
    {
        self.active_channel_id = Some(channel_id);
        self.active_clan_id = Some(clan_id);
        self.is_public = is_public;
        self.is_dm = is_dm;
        self.mode = mode;
        self.paging.loading_more = false;
        self.reply_target = None;
        self.fetch_generation = self.fetch_generation.wrapping_add(1);
        let mut joined = false;
        let mut i: usize = 0;
        while i < self.joined_channels.len()
            invariant
                i <= self.joined_channels@.len(),
                joined <==> exists|j: int| 0 <= j < i && self.joined_channels@[j] == channel_id,
            decreases self.joined_channels@.len() - i,
        {
            if self.joined_channels[i].0 == channel_id.0 {
                joined = true;
            }
            i += 1;
        }
        proof {
            if self.joined_channels@.contains(channel_id) {
                let j = choose|j: int|
                    0 <= j < self.joined_channels@.len() && self.joined_channels@[j] == channel_id;
            }
        }
        if !joined {
            self.joined_channels.push(channel_id);
        }
        if fresh {
            self.paging.loading = false;
            ActivatePlan { join: !joined, fetch: None }
        } else {
            self.paging.loading = true;
            ActivatePlan { join: !joined, fetch: Some(self.fetch_generation) }
        }
    }

    /// Fetches the first page of the active conversation again, ignoring the cache: a new
    /// generation begins. Nothing happens without an active conversation.
    pub fn refetch(&mut self) -> (r: Option<u64>)
        ensures
            (old(self).active_channel_id is None || old(self).active_clan_id is None) ==> r is None
                && *final(self) == *old(self),
            (old(self).active_channel_id is Some && old(self).active_clan_id is Some) ==> {
                &&& final(self).paging.loading
                &&& !final(self).paging.loading_more
                &&& final(self).fetch_generation == next_generation(old(self).fetch_generation)
                &&& r == Some(final(self).fetch_generation)
                &&& *final(self) == (Conversation {
                    paging: final(self).paging,
                    fetch_generation: final(self).fetch_generation,
                    ..*old(self)
                })
                &&& final(self).paging.consecutive_loads == old(self).paging.consecutive_loads
            },
    {
        if self.active_channel_id.is_none() || self.active_clan_id.is_none() {
            return None;
        }
        self.paging.loading = true;
        self.paging.loading_more = false;
        self.fetch_generation = self.fetch_generation.wrapping_add(1);
        Some(self.fetch_generation)
    }

    /// The conversation that is already open is opened again: unless its first page is being
    /// fetched, an empty and stale buffer is fetched again.
    fn reopen(&mut self, empty: bool, fresh: bool) -> (r: OpenPlan)
        requires
            old(self).active_channel_id is Some,
        ensures
            (old(self).paging.loading || !empty || fresh) ==> r == OpenPlan::Stay && *final(self) == *old(self),
            !(old(self).paging.loading || !empty || fresh) ==> {
                &&& old(self).active_clan_id is Some ==> r == OpenPlan::Refetch(final(self).fetch_generation)
                    && final(self).fetch_generation == next_generation(old(self).fetch_generation)
                    && final(self).paging.loading && !final(self).paging.loading_more
                &&& old(self).active_clan_id is None ==> r == OpenPlan::Stay && *final(self) == *old(self)
            },
    {
        if self.paging.loading || !empty || fresh {
            return OpenPlan::Stay;
        }
        match self.refetch() {
            Some(g) => OpenPlan::Refetch(g),
            None => OpenPlan::Stay,
        }
    }

    /// Opens a clan channel. `channel` is the channel's clan and privacy as the channel list
    /// knows them (none: the channel is unknown and nothing happens); `empty` and `fresh`
    /// describe its cached buffer. The channel already open (not as a direct conversation)
    /// is reopened (see `reopen`); otherwise it is activated as a public channel unless
    /// private.
    pub fn open_channel(&mut self, channel_id: ChannelId, channel: Option<(ClanId, bool)>, empty: bool, fresh: bool) -> (r:
        OpenPlan)
        ensures
            old(self).active_channel_id == Some(channel_id) && !old(self).is_dm && (old(self).paging.loading || !empty
                || fresh) ==> r == OpenPlan::Stay && *final(self) == *old(self),
            !(old(self).active_channel_id == Some(channel_id) && !old(self).is_dm) && channel is None ==> r
                == OpenPlan::Stay && *final(self) == *old(self),
            !(old(self).active_channel_id == Some(channel_id) && !old(self).is_dm) && channel is Some ==> {
                &&& r is Activated
                &&& final(self).active_channel_id == Some(channel_id)
                &&& channel matches Some((clan, private))
                &&& final(self).active_clan_id == Some(clan)
                &&& final(self).is_public == !private
                &&& !final(self).is_dm
                &&& final(self).mode == STREAM_MODE_CHANNEL
                &&& final(self).paging.loading == !fresh
            },
    {
        if self.active_channel_id == Some(channel_id) && !self.is_dm {
            return self.reopen(empty, fresh);
        }
        match channel {
            Some((clan_id, private)) => OpenPlan::Activated(
                self.activate(clan_id, channel_id, !private, false, STREAM_MODE_CHANNEL, fresh),
            ),
            None => OpenPlan::Stay,
        }
    }

    /// Opens a direct conversation (clan `0`) of raw type `channel_type`. The one already open
    /// is reopened (see `reopen`); otherwise it is activated as a private direct conversation
    /// with the mode of its type.
    pub fn open_direct(&mut self, channel_id: ChannelId, channel_type: i32, empty: bool, fresh: bool) -> (r: OpenPlan)
        ensures
            old(self).active_channel_id == Some(channel_id) && old(self).is_dm && (old(self).paging.loading || !empty
                || fresh) ==> r == OpenPlan::Stay && *final(self) == *old(self),
            !(old(self).active_channel_id == Some(channel_id) && old(self).is_dm) ==> {
                &&& r is Activated
                &&& final(self).active_channel_id == Some(channel_id)
                &&& final(self).active_clan_id == Some(ClanId(0))
                &&& !final(self).is_public
                &&& final(self).is_dm
                &&& final(self).mode == direct_mode_spec(channel_type)
                &&& final(self).paging.loading == !fresh
            },
    {
        if self.active_channel_id == Some(channel_id) && self.is_dm {
            return self.reopen(empty, fresh);
        }
        let mode = direct_mode(channel_type);
        OpenPlan::Activated(self.activate(ClanId(0), channel_id, false, true, mode, fresh))
    }

    /// Whether a first-page result of `channel_id` under `generation` is still awaited: the
    /// channel is active and no newer fetch began.
    pub fn is_current_fetch(&self, channel_id: ChannelId, generation: u64) -> (r: bool)
        ensures
            r == (self.active_channel_id == Some(channel_id) && self.fetch_generation == generation),
    {
        match self.active_channel_id {
            Some(c) => c.0 == channel_id.0 && self.fetch_generation == generation,
            None => false,
        }
    }

    /// A first page arrived (or failed): when it is the awaited one, loading ends. Returns
    /// whether it was.
    pub fn finish_first_page(&mut self, channel_id: ChannelId, generation: u64) -> (current: bool)
        ensures
            current == (old(self).active_channel_id == Some(channel_id) && old(self).fetch_generation == generation),
            current ==> *final(self) == (Conversation {
                paging: Paging { loading: false, ..old(self).paging },
                ..*old(self)
            }),
            !current ==> *final(self) == *old(self),
    {
        let current = self.is_current_fetch(channel_id, generation);
        if current {
            self.paging.loading = false;
        }
        current
    }

    /// The connection came back: channels are joined again on their next visit, and the
    /// open conversation is fetched again (see `refetch`).
    pub fn resync(&mut self) -> (r: Option<u64>)
        ensures
            final(self).joined_channels@.len() == 0,
            (old(self).active_channel_id is None || old(self).active_clan_id is None) ==> r is None,
            (old(self).active_channel_id is Some && old(self).active_clan_id is Some) ==> {
                &&& final(self).paging.loading
                &&& final(self).fetch_generation == next_generation(old(self).fetch_generation)
                &&& r == Some(final(self).fetch_generation)
            },
    {
        self.joined_channels = Vec::new();
        self.refetch()
    }

    /// Sets the message the composer replies to.
    pub fn set_reply(&mut self, draft: ReplyDraft)
        ensures
            final(self).reply_target == Some(draft),
            *final(self) == (Conversation { reply_target: Some(draft), ..*old(self) }),
    {
        self.reply_target = Some(draft);
    }

    pub fn clear_reply(&mut self)
        ensures
            *final(self) == (Conversation { reply_target: None, ..*old(self) }),
    {
        self.reply_target = None;
    }

    /// The reply target is used by one sent message: it is handed out and cleared.
    /// A message is sent in the active conversation at `now_secs` (with attachments or not):
    /// without an active channel and clan nothing happens. Otherwise the reply target is used
    /// up, and the start of the send is returned: where it goes, under which temporary id the
    /// optimistic row is shown, the reference that row shows, and how it is sent.
    pub fn begin_send(&mut self, has_attachments: bool, now_secs: i64) -> (r: Option<SendStart>)
        ensures
            !is_sendable(*old(self)) ==> r is None && *final(self) == *old(self),
            is_sendable(*old(self)) ==> (r matches Some(st) && send_started(
                *old(self),
                *final(self),
                st,
                has_attachments,
                now_secs,
            )),
    {
        let channel_id = match self.active_channel_id {
            Some(c) => c,
            None => {
                return None;
            },
        };
        let clan_id = match self.active_clan_id {
            Some(c) => c,
            None => {
                return None;
            },
        };
        let reply = self.take_reply();
        let reference = match &reply {
            Some(d) => Some(draft_reference(d)),
            None => None,
        };
        let route = send_route(has_attachments, reply);
        Some(
            SendStart {
                channel_id,
                clan_id,
                is_public: self.is_public,
                mode: self.mode,
                temp_id: temp_message_id(now_secs),
                reference,
                route,
            },
        )
    }

    pub fn take_reply(&mut self) -> (r: Option<ReplyDraft>)
        ensures
            r == old(self).reply_target,
            *final(self) == (Conversation { reply_target: None, ..*old(self) }),
    {
        self.reply_target.take()
    }
}

} // verus!
