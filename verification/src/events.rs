use vstd::prelude::*;

use crate::ids::{ChannelId, ClanId, UserId};

verus! {

pub const EVENT_CREATED: i32 = 1;
pub const EVENT_UPDATED: i32 = 2;
pub const EVENT_DELETED: i32 = 3;
pub const EVENT_INTERESTED: i32 = 4;
pub const EVENT_UNINTERESTED: i32 = 5;

/// The status of an event that is over.
pub const EVENT_COMPLETED: i32 = 3;

/// A scheduled event of a clan.
#[derive(Debug)]
pub struct ClanEventItem {
    pub id: i64,
    pub title: String,
    pub logo: String,
    pub description: String,
    pub creator_id: UserId,
    pub channel_voice_id: Option<ChannelId>,
    pub address: String,
    pub start_time_seconds: u32,
    pub end_time_seconds: u32,
    pub user_ids: Vec<UserId>,
    pub channel_id: Option<ChannelId>,
    pub event_status: i32,
    pub is_private: bool,
    pub external_link: String,
}

impl Clone for ClanEventItem {
    fn clone(&self) -> (r: Self)
        ensures
            same_event(r, *self),
    {
        let user_ids = self.user_ids.clone();
        proof {
            assert(user_ids@ =~= self.user_ids@);
        }
        ClanEventItem {
            id: self.id,
            title: self.title.clone(),
            logo: self.logo.clone(),
            description: self.description.clone(),
            creator_id: self.creator_id,
            channel_voice_id: self.channel_voice_id,
            address: self.address.clone(),
            start_time_seconds: self.start_time_seconds,
            end_time_seconds: self.end_time_seconds,
            user_ids,
            channel_id: self.channel_id,
            event_status: self.event_status,
            is_private: self.is_private,
            external_link: self.external_link.clone(),
        }
    }
}

/// `a` is a copy of `b`: the same fields, and users with the same ids in the same order.
pub open spec fn same_event(a: ClanEventItem, b: ClanEventItem) -> bool {
    a == ClanEventItem { user_ids: a.user_ids, ..b } && a.user_ids@ == b.user_ids@
}

/// What the events store tells its observers.
#[derive(Debug, Clone)]
pub enum EventsEvent {
    Changed { clan_id: ClanId },
}

/// An event as the server lists it.
#[derive(Debug, Clone, Default, PartialEq, Eq)]
pub struct EventDesc {
    pub id: i64,
    pub title: String,
    pub logo: String,
    pub description: String,
    pub creator_id: i64,
    pub channel_voice_id: i64,
    pub address: String,
    pub start_time_seconds: u32,
    pub end_time_seconds: u32,
    pub user_ids: Vec<i64>,
    pub channel_id: i64,
    pub event_status: i32,
    pub is_private: bool,
    /// The external link of the event's meeting room, when it has one.
    pub meet_room_link: Option<String>,
}

/// An event push: what happened (`action`) to which event, of which clan, by whom.
#[derive(Debug, Clone, Default, PartialEq, Eq)]
pub struct EventPush {
    pub action: i32,
    pub clan_id: i64,
    pub event_id: i64,
    pub user_id: i64,
    pub title: String,
    pub logo: String,
    pub description: String,
    pub creator_id: i64,
    pub channel_voice_id: i64,
    pub address: String,
    pub start_time_seconds: u32,
    pub end_time_seconds: u32,
    pub channel_id: i64,
    pub event_status: i32,
    pub is_private: bool,
    pub meet_room_link: Option<String>,
}

pub open spec fn nonzero_channel_spec(id: i64) -> Option<ChannelId> {
    if id != 0 {
        Some(ChannelId(id))
    } else {
        None
    }
}

pub fn nonzero_channel(id: i64) -> (r: Option<ChannelId>)
    ensures
        r == nonzero_channel_spec(id),
{
    if id != 0 {
        Some(ChannelId(id))
    } else {
        None
    }
}

pub open spec fn link_of(room: Option<String>) -> Seq<char> {
    match room {
        Some(l) => l@,
        None => Seq::empty(),
    }
}

fn link_exec(room: &Option<String>) -> (r: String)
    ensures
        r@ == link_of(*room),
{
    match room {
        Some(l) => l.clone(),
        None => String::new(),
    }
}

/// The event fields a push sets.
pub open spec fn pushed_fields(e: ClanEventItem, p: EventPush) -> bool {
    &&& e.title@ == p.title@
    &&& e.logo@ == p.logo@
    &&& e.description@ == p.description@
    &&& e.creator_id == UserId(p.creator_id)
    &&& e.channel_voice_id == nonzero_channel_spec(p.channel_voice_id)
    &&& e.address@ == p.address@
    &&& e.start_time_seconds == p.start_time_seconds
    &&& e.end_time_seconds == p.end_time_seconds
    &&& e.channel_id == nonzero_channel_spec(p.channel_id)
    &&& e.is_private == p.is_private
}

impl ClanEventItem {
    /// A listed event; a zero channel id means none.
    pub fn from_api(event: EventDesc) -> (r: Self)
        ensures
            r.id == event.id,
            r.title@ == event.title@,
            r.logo@ == event.logo@,
            r.description@ == event.description@,
            r.creator_id == UserId(event.creator_id),
            r.channel_voice_id == nonzero_channel_spec(event.channel_voice_id),
            r.address@ == event.address@,
            r.start_time_seconds == event.start_time_seconds,
            r.end_time_seconds == event.end_time_seconds,
            r.user_ids@.len() == event.user_ids@.len(),
            forall|i: int| 0 <= i < event.user_ids@.len() ==> #[trigger] r.user_ids@[i] == UserId(event.user_ids@[i]),
            r.channel_id == nonzero_channel_spec(event.channel_id),
            r.event_status == event.event_status,
            r.is_private == event.is_private,
            r.external_link@ == link_of(event.meet_room_link),
    {
        let mut user_ids: Vec<UserId> = Vec::new();
        let mut i: usize = 0;
        while i < event.user_ids.len()
            invariant
                i <= event.user_ids@.len(),
                user_ids@.len() == i,
                forall|j: int| 0 <= j < i ==> #[trigger] user_ids@[j] == UserId(event.user_ids@[j]),
            decreases event.user_ids@.len() - i,
        {
            user_ids.push(UserId(event.user_ids[i]));
            i += 1;
        }
        let external_link = link_exec(&event.meet_room_link);
        ClanEventItem {
            id: event.id,
            title: event.title,
            logo: event.logo,
            description: event.description,
            creator_id: UserId(event.creator_id),
            channel_voice_id: nonzero_channel(event.channel_voice_id),
            address: event.address,
            start_time_seconds: event.start_time_seconds,
            end_time_seconds: event.end_time_seconds,
            user_ids,
            channel_id: nonzero_channel(event.channel_id),
            event_status: event.event_status,
            is_private: event.is_private,
            external_link,
        }
    }

    /// A pushed event: its creator is its only interested user.
    pub fn from_realtime(event: &EventPush) -> (r: Self)
        ensures
            r.id == event.event_id,
            pushed_fields(r, *event),
            r.user_ids@ == seq![UserId(event.creator_id)],
            r.event_status == event.event_status,
            r.external_link@ == link_of(event.meet_room_link),
    {
        let mut user_ids: Vec<UserId> = Vec::new();
        user_ids.push(UserId(event.creator_id));
        ClanEventItem {
            id: event.event_id,
            title: event.title.clone(),
            logo: event.logo.clone(),
            description: event.description.clone(),
            creator_id: UserId(event.creator_id),
            channel_voice_id: nonzero_channel(event.channel_voice_id),
            address: event.address.clone(),
            start_time_seconds: event.start_time_seconds,
            end_time_seconds: event.end_time_seconds,
            user_ids,
            channel_id: nonzero_channel(event.channel_id),
            event_status: event.event_status,
            is_private: event.is_private,
            external_link: link_exec(&event.meet_room_link),
        }
    }

    /// An update pushed for this event: its fields change; a zero status and a missing room
    /// leave the status and the link as they were; the id and interested users stay.
    pub fn apply_realtime(&mut self, event: &EventPush)
        ensures
            pushed_fields(*final(self), *event),
            final(self).id == old(self).id,
            final(self).user_ids == old(self).user_ids,
            final(self).event_status == (if event.event_status != 0 {
                event.event_status
            } else {
                old(self).event_status
            }),
            final(self).external_link@ == (match event.meet_room_link {
                Some(l) => l@,
                None => old(self).external_link@,
            }),
    {
        self.title = event.title.clone();
        self.logo = event.logo.clone();
        self.description = event.description.clone();
        self.creator_id = UserId(event.creator_id);
        self.channel_voice_id = nonzero_channel(event.channel_voice_id);
        self.address = event.address.clone();
        self.start_time_seconds = event.start_time_seconds;
        self.end_time_seconds = event.end_time_seconds;
        self.channel_id = nonzero_channel(event.channel_id);
        if event.event_status != 0 {
            self.event_status = event.event_status;
        }
        self.is_private = event.is_private;
        match &event.meet_room_link {
            Some(l) => {
                self.external_link = l.clone();
            },
            None => {},
        }
    }
}

// ---------------------------------------------------------------------------
// A clan's event list
// ---------------------------------------------------------------------------

/// An event is still on: not completed, and without an end or ending after `now`.
pub open spec fn is_live(e: ClanEventItem, now: u32) -> bool {
    e.event_status != EVENT_COMPLETED && (e.end_time_seconds == 0 || e.end_time_seconds > now)
}

pub open spec fn live_only(s: Seq<ClanEventItem>, now: u32) -> Seq<ClanEventItem> {
    s.filter(|e: ClanEventItem| is_live(e, now))
}

/// Drops the events that are over at `now`; returns whether any was.
pub fn retain_live(events: &mut Vec<ClanEventItem>, now: u32) -> (changed: bool)
    ensures
        final(events)@ == live_only(old(events)@, now),
        changed == (final(events)@.len() != old(events)@.len()),
{
    let ghost s = events@;
    let n = events.len();
    let mut kept: Vec<ClanEventItem> = Vec::new();
    proof {
        assert(s.take(0) =~= Seq::<ClanEventItem>::empty());
    }
    while events.len() > 0
        invariant
            n == s.len(),
            events@.len() <= n,
            events@ == s.skip(n - events@.len()),
            kept@ == live_only(s.take(n - events@.len()), now),
        decreases events@.len(),
    {
        let ghost k = n - events@.len();
        let e = events.remove(0);
        proof {
            reveal_with_fuel(Seq::filter, 1);
            assert(e == s[k]);
            assert(events@ =~= s.skip(k + 1));
            assert(s.take(k + 1).drop_last() =~= s.take(k));
            assert(s.take(k + 1).last() == s[k]);
        }
        if e.event_status != EVENT_COMPLETED && (e.end_time_seconds == 0 || e.end_time_seconds > now) {
            kept.push(e);
        }
    }
    proof {
        assert(s.take(n as int) =~= s);
    }
    let changed = kept.len() != n;
    *events = kept;
    changed
}

pub open spec fn has_event(s: Seq<ClanEventItem>, id: i64) -> bool {
    exists|i: int| 0 <= i < s.len() && (#[trigger] s[i]).id == id
}

pub open spec fn is_first_event(s: Seq<ClanEventItem>, id: i64, i: int) -> bool {
    &&& 0 <= i <= s.len()
    &&& forall|j: int| 0 <= j < i ==> (#[trigger] s[j]).id != id
    &&& i < s.len() ==> s[i].id == id
}

fn find_event(events: &Vec<ClanEventItem>, id: i64) -> (r: usize)
    ensures
        is_first_event(events@, id, r as int),
{
    let mut i: usize = 0;
    while i < events.len() && events[i].id != id
        invariant
            i <= events@.len(),
            forall|j: int| 0 <= j < i ==> (#[trigger] events@[j]).id != id,
        decreases events@.len() - i,
    {
        i += 1;
    }
    i
}

pub open spec fn without_event(s: Seq<ClanEventItem>, id: i64) -> Seq<ClanEventItem> {
    s.filter(|e: ClanEventItem| e.id != id)
}

fn remove_event(events: &mut Vec<ClanEventItem>, id: i64)
    ensures
        final(events)@ == without_event(old(events)@, id),
{
    let ghost s = events@;
    let n = events.len();
    let mut kept: Vec<ClanEventItem> = Vec::new();
    proof {
        assert(s.take(0) =~= Seq::<ClanEventItem>::empty());
    }
    while events.len() > 0
        invariant
            n == s.len(),
            events@.len() <= n,
            events@ == s.skip(n - events@.len()),
            kept@ == without_event(s.take(n - events@.len()), id),
        decreases events@.len(),
    {
        let ghost k = n - events@.len();
        let e = events.remove(0);
        proof {
            reveal_with_fuel(Seq::filter, 1);
            assert(e == s[k]);
            assert(events@ =~= s.skip(k + 1));
            assert(s.take(k + 1).drop_last() =~= s.take(k));
            assert(s.take(k + 1).last() == s[k]);
        }
        if e.id != id {
            kept.push(e);
        }
    }
    proof {
        assert(s.take(n as int) =~= s);
    }
    *events = kept;
}

/// Whether a push leaves the list to a fresh fetch (an action this list does not know).
pub open spec fn needs_fetch(action: i32) -> bool {
    !(action == EVENT_CREATED || action == EVENT_UPDATED || action == EVENT_DELETED || action
        == EVENT_INTERESTED || action == EVENT_UNINTERESTED)
}

pub open spec fn first_event(s: Seq<ClanEventItem>, id: i64) -> int {
    choose|i: int| is_first_event(s, id, i)
}

proof fn first_event_index(s: Seq<ClanEventItem>, id: i64) -> (i: int)
    ensures
        is_first_event(s, id, i),
    decreases s.len(),
{
    if s.len() == 0 {
        0
    } else {
        let p = s.drop_last();
        let j = first_event_index(p, id);
        if j < p.len() {
            assert forall|q: int| 0 <= q < j implies (#[trigger] s[q]).id != id by {
                assert(s[q] == p[q]);
            }
            assert(s[j] == p[j]);
            j
        } else {
            assert forall|q: int| 0 <= q < p.len() implies (#[trigger] s[q]).id != id by {
                assert(s[q] == p[q]);
            }
            if s.last().id == id {
                p.len() as int
            } else {
                s.len() as int
            }
        }
    }
}

proof fn lemma_first_event(s: Seq<ClanEventItem>, id: i64, i: int)
    requires
        is_first_event(s, id, i),
    ensures
        first_event(s, id) == i,
{
    let f = first_event(s, id);
    let w = first_event_index(s, id);
    assert(is_first_event(s, id, f));
    if f < i {
        assert(s[f].id != id);
    }
    if i < f {
        assert(s[i].id != id);
    }
}

/// `item` takes the place of the first event with its id, or is added.
pub open spec fn replaced(s: Seq<ClanEventItem>, item: ClanEventItem) -> Seq<ClanEventItem> {
    let i = first_event(s, item.id);
    if i < s.len() {
        s.update(i, item)
    } else {
        s.push(item)
    }
}

/// `item` is the event a push creates.
pub open spec fn created_item(item: ClanEventItem, p: EventPush) -> bool {
    &&& item.id == p.event_id
    &&& pushed_fields(item, p)
    &&& item.user_ids@ == seq![UserId(p.creator_id)]
    &&& item.event_status == p.event_status
    &&& item.external_link@ == link_of(p.meet_room_link)
}

/// `item` is event `e` updated by a push.
pub open spec fn updated_item(item: ClanEventItem, e: ClanEventItem, p: EventPush) -> bool {
    &&& item.id == e.id
    &&& pushed_fields(item, p)
    &&& item.user_ids == e.user_ids
    &&& item.event_status == (if p.event_status != 0 {
        p.event_status
    } else {
        e.event_status
    })
    &&& item.external_link@ == (match p.meet_room_link {
        Some(l) => l@,
        None => e.external_link@,
    })
}

/// `item` is `e` with other users.
pub open spec fn same_but_users(item: ClanEventItem, e: ClanEventItem) -> bool {
    item == ClanEventItem { user_ids: item.user_ids, ..e }
}

/// The events after a push, before the events over are dropped (see `apply_event_push`).
pub open spec fn pushed_events(old: Seq<ClanEventItem>, p: EventPush, new: Seq<ClanEventItem>) -> bool {
    let i = first_event(old, p.event_id);
    if p.action == EVENT_CREATED {
        exists|item: ClanEventItem| created_item(item, p) && new == replaced(old, item)
    } else if p.action == EVENT_UPDATED {
        if p.event_status == EVENT_COMPLETED {
            new == without_event(old, p.event_id)
        } else if i < old.len() {
            exists|item: ClanEventItem| updated_item(item, old[i], p) && new == old.update(i, item)
        } else {
            exists|item: ClanEventItem| created_item(item, p) && new == old.push(item)
        }
    } else if p.action == EVENT_DELETED {
        new == without_event(old, p.event_id)
    } else if p.action == EVENT_INTERESTED && i < old.len() {
        exists|item: ClanEventItem|
            same_but_users(item, old[i]) && item.user_ids@ == (if old[i].user_ids@.contains(
                UserId(p.user_id),
            ) {
                old[i].user_ids@
            } else {
                old[i].user_ids@.push(UserId(p.user_id))
            }) && new == old.update(i, item)
    } else if p.action == EVENT_UNINTERESTED && i < old.len() {
        exists|item: ClanEventItem|
            same_but_users(item, old[i]) && item.user_ids@ == old[i].user_ids@.filter(
                |u: UserId| u.0 != p.user_id,
            ) && new == old.update(i, item)
    } else {
        new == old
    }
}

/// Applies an event push to a clan's events, then drops the events over at `now` (see
/// `pushed_events`). Created: the event takes the place of the first one with its id, or is
/// added. Updated to completed: it leaves; otherwise the first one with its id is updated, or
/// it is added. Deleted: it leaves. Interested: the user joins its users once. Uninterested:
/// the user leaves them. Another action changes nothing and returns `true`: the list is to be
/// fetched again.
pub fn apply_event_push(events: &mut Vec<ClanEventItem>, push: &EventPush, now: u32) -> (fetch: bool)
    ensures
        fetch == needs_fetch(push.action),
        exists|mid: Seq<ClanEventItem>|
            pushed_events(old(events)@, *push, mid) && final(events)@ == live_only(mid, now),
{
    let ghost old_s = events@;
    let id = push.event_id;
    let mut fetch = false;
    let i = find_event(events, id);
    proof {
        lemma_first_event(old_s, id, i as int);
    }
    if push.action == EVENT_CREATED {
        let item = ClanEventItem::from_realtime(push);
        let ghost iv = item;
        if i < events.len() {
            events.set(i, item);
        } else {
            events.push(item);
        }
        proof {
            assert(created_item(iv, *push));
            assert(events@ == replaced(old_s, iv));
        }
    } else if push.action == EVENT_UPDATED {
        if push.event_status == EVENT_COMPLETED {
            remove_event(events, id);
        } else if i < events.len() {
            let mut e = events.remove(i);
            let ghost ev = e;
            e.apply_realtime(push);
            let ghost iv = e;
            events.insert(i, e);
            proof {
                assert(ev == old_s[i as int]);
                assert(updated_item(iv, old_s[i as int], *push));
                assert(events@ =~= old_s.update(i as int, iv));
            }
        } else {
            let item = ClanEventItem::from_realtime(push);
            let ghost iv = item;
            events.push(item);
            proof {
                assert(created_item(iv, *push));
            }
        }
    } else if push.action == EVENT_DELETED {
        remove_event(events, id);
    } else if push.action == EVENT_INTERESTED {
        if i < events.len() {
            let mut e = events.remove(i);
            let ghost ev = e;
            let user = UserId(push.user_id);
            let mut present = false;
            let mut k: usize = 0;
            while k < e.user_ids.len()
                invariant
                    k <= e.user_ids@.len(),
                    present <==> exists|j: int| 0 <= j < k && e.user_ids@[j] == user,
                decreases e.user_ids@.len() - k,
            {
                if e.user_ids[k].0 == user.0 {
                    present = true;
                }
                k += 1;
            }
            proof {
                if e.user_ids@.contains(user) {
                    let j = choose|j: int| 0 <= j < e.user_ids@.len() && e.user_ids@[j] == user;
                }
            }
            if !present {
                e.user_ids.push(user);
            }
            let ghost iv = e;
            events.insert(i, e);
            proof {
                assert(ev == old_s[i as int]);
                assert(same_but_users(iv, ev));
                assert(events@ =~= old_s.update(i as int, iv));
            }
        }
    } else if push.action == EVENT_UNINTERESTED {
        if i < events.len() {
            let mut e = events.remove(i);
            let ghost ev = e;
            let ghost us = e.user_ids@;
            let mut kept: Vec<UserId> = Vec::new();
            let mut k: usize = 0;
            proof {
                assert(us.take(0) =~= Seq::<UserId>::empty());
            }
            while k < e.user_ids.len()
                invariant
                    us == e.user_ids@,
                    k <= us.len(),
                    kept@ == us.take(k as int).filter(|u: UserId| u.0 != push.user_id),
                decreases us.len() - k,
            {
                proof {
                    reveal_with_fuel(Seq::filter, 1);
                    assert(us.take(k + 1).drop_last() =~= us.take(k as int));
                    assert(us.take(k + 1).last() == us[k as int]);
                }
                if e.user_ids[k].0 != push.user_id {
                    kept.push(e.user_ids[k]);
                }
                k += 1;
            }
            proof {
                assert(us.take(us.len() as int) =~= us);
            }
            e.user_ids = kept;
            let ghost iv = e;
            events.insert(i, e);
            proof {
                assert(ev == old_s[i as int]);
                assert(same_but_users(iv, ev));
                assert(events@ =~= old_s.update(i as int, iv));
            }
        }
    } else {
        fetch = true;
    }
    let ghost mid = events@;
    proof {
        assert(pushed_events(old_s, *push, mid));
    }
    retain_live(events, now);
    fetch
}

/// Whether an event is shown to a user: it is on at `now`, public or created by the user, and
/// in no channel or in one listed in the clan (`clan_channels`).
pub open spec fn is_visible(e: ClanEventItem, now: u32, current_user: Option<UserId>, clan_channels: Seq<i64>) -> bool {
    &&& is_live(e, now)
    &&& (!e.is_private || Some(e.creator_id) == current_user)
    &&& match e.channel_id {
        Some(c) => clan_channels.contains(c.0),
        None => true,
    }
}

/// The events shown to a user, in order (see `is_visible`).
pub fn visible_events(
    events: &Vec<ClanEventItem>,
    now: u32,
    current_user: Option<UserId>,
    clan_channels: &Vec<i64>,
) -> (r: Vec<ClanEventItem>)
    ensures
        ({
            let f = events@.filter(|e: ClanEventItem| is_visible(e, now, current_user, clan_channels@));
            r@.len() == f.len() && forall|i: int| 0 <= i < f.len() ==> same_event(#[trigger] r@[i], f[i])
        }),
{
    let ghost s = events@;
    let mut out: Vec<ClanEventItem> = Vec::new();
    let mut i: usize = 0;
    proof {
        assert(s.take(0) =~= Seq::<ClanEventItem>::empty());
    }
    while i < events.len()
        invariant
            s == events@,
            i <= s.len(),
            ({
                let f = s.take(i as int).filter(|e: ClanEventItem| is_visible(e, now, current_user, clan_channels@));
                out@.len() == f.len() && forall|q: int| 0 <= q < f.len() ==> same_event(#[trigger] out@[q], f[q])
            }),
        decreases s.len() - i,
    {
        proof {
            reveal_with_fuel(Seq::filter, 1);
            assert(s.take(i + 1).drop_last() =~= s.take(i as int));
            assert(s.take(i + 1).last() == s[i as int]);
        }
        let e = &events[i];
        let live = e.event_status != EVENT_COMPLETED && (e.end_time_seconds == 0 || e.end_time_seconds > now);
        let allowed = !e.is_private || match current_user {
            Some(u) => u.0 == e.creator_id.0,
            None => false,
        };
        let in_clan = match e.channel_id {
            Some(c) => {
                let mut found = false;
                let mut k: usize = 0;
                while k < clan_channels.len()
                    invariant
                        k <= clan_channels@.len(),
                        found <==> exists|j: int| 0 <= j < k && clan_channels@[j] == c.0,
                    decreases clan_channels@.len() - k,
                {
                    if clan_channels[k] == c.0 {
                        found = true;
                    }
                    k += 1;
                }
                proof {
                    if clan_channels@.contains(c.0) {
                        let j = choose|j: int| 0 <= j < clan_channels@.len() && clan_channels@[j] == c.0;
                    }
                }
                found
            },
            None => true,
        };
        if live && allowed && in_clan {
            let c = e.clone();
            out.push(c);
        }
        i += 1;
    }
    proof {
        assert(s.take(s.len() as int) =~= s);
    }
    out
}

/// `e` is the event that listed event `d` becomes (see `from_api`).
pub open spec fn listed_event(e: ClanEventItem, d: EventDesc) -> bool {
    &&& e.id == d.id
    &&& e.title@ == d.title@
    &&& e.logo@ == d.logo@
    &&& e.description@ == d.description@
    &&& e.creator_id == UserId(d.creator_id)
    &&& e.channel_voice_id == nonzero_channel_spec(d.channel_voice_id)
    &&& e.address@ == d.address@
    &&& e.start_time_seconds == d.start_time_seconds
    &&& e.end_time_seconds == d.end_time_seconds
    &&& e.user_ids@.len() == d.user_ids@.len()
    &&& forall|i: int| 0 <= i < d.user_ids@.len() ==> #[trigger] e.user_ids@[i] == UserId(d.user_ids@[i])
    &&& e.channel_id == nonzero_channel_spec(d.channel_id)
    &&& e.event_status == d.event_status
    &&& e.is_private == d.is_private
    &&& e.external_link@ == link_of(d.meet_room_link)
}

/// A clan's events as listed, in order, without those over at `now` (see `is_live`).
pub fn events_from_api(items: Vec<EventDesc>, now: u32) -> (r: Vec<ClanEventItem>)
    ensures
        exists|mid: Seq<ClanEventItem>| #![trigger live_only(mid, now)] {
            &&& mid.len() == items@.len()
            &&& forall|i: int| 0 <= i < items@.len() ==> listed_event(#[trigger] mid[i], items@[i])
            &&& r@ == live_only(mid, now)
        },
{
    let ghost d0 = items@;
    let mut items = items;
    let mut out: Vec<ClanEventItem> = Vec::new();
    let n = items.len();
    while items.len() > 0
        invariant
            n == d0.len(),
            items@.len() <= n,
            items@ == d0.skip(n - items@.len()),
            out@.len() == n - items@.len(),
            forall|i: int| 0 <= i < out@.len() ==> listed_event(#[trigger] out@[i], d0[i]),
        decreases items@.len(),
    {
        let ghost k = n - items@.len();
        let d = items.remove(0);
        proof {
            assert(d == d0[k]);
            assert(items@ =~= d0.skip(k + 1));
        }
        let e = ClanEventItem::from_api(d);
        out.push(e);
    }
    let ghost mid = out@;
    retain_live(&mut out, now);
    proof {
        assert(out@ == live_only(mid, now));
    }
    out
}

/// The clock in whole seconds as events compare it: negative times count as `0`, and the
/// count is taken modulo `2^32`.
pub fn clock_seconds(ts: i64) -> (r: u32)
    ensures
        r == (if ts < 0 {
            0
        } else {
            ts as u32
        }),
{
    if ts < 0 {
        0
    } else {
        ts as u32
    }
}

/// A clan's event list never holds an event that is over: whatever a push did, what the
/// list keeps afterwards is on at `now`, in the order it was.
pub proof fn law_pushed_events_are_live(mid: Seq<ClanEventItem>, now: u32)
    ensures
        forall|i: int| 0 <= i < live_only(mid, now).len() ==> is_live(#[trigger] live_only(mid, now)[i], now),
        live_only(mid, now).len() <= mid.len(),
{
    let f = live_only(mid, now);
    mid.lemma_filter_len(|e: ClanEventItem| is_live(e, now));
    assert forall|i: int| 0 <= i < f.len() implies is_live(#[trigger] f[i], now) by {
        mid.lemma_filter_pred(|e: ClanEventItem| is_live(e, now), i);
    }
}

} // verus!
