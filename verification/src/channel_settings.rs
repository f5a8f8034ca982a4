use vstd::prelude::*;

use crate::ids::{ChannelId, ClanId, UserId};
use crate::message::MessageCode;

verus! {

/// How many rows one request asks for.
pub const API_PAGE_SIZE: i32 = 100;

/// A thread or channel as the channel settings list shows it.
#[derive(Clone, Debug, Default)]
pub struct ChannelSetting {
    pub id: ChannelId,
    pub creator_id: UserId,
    pub parent_id: ChannelId,
    pub label: String,
    pub private: bool,
    pub channel_type: i32,
    pub user_ids: Vec<UserId>,
    pub message_count: i64,
    pub last_sender_id: UserId,
    pub last_sent_seconds: u32,
}

/// What the channel settings store tells its observers.
#[derive(Clone, Debug)]
pub enum ChannelSettingsEvent {
    Changed { clan_id: ClanId, parent_id: ChannelId },
}

/// A row as the server lists it.
#[derive(Clone, Debug, Default, PartialEq, Eq)]
pub struct ChannelSettingItem {
    pub id: i64,
    pub creator_id: i64,
    pub parent_id: i64,
    pub channel_label: String,
    pub channel_private: i32,
    pub channel_type: i32,
    pub user_ids: Vec<i64>,
    pub message_count: i64,
    /// The sender and time (seconds) of the last message, when there is one.
    pub last_sent_message: Option<(i64, u32)>,
}

impl ChannelSetting {
    /// A listed row: private when its flag is not zero; without a last message, sender `0`
    /// at time `0`.
    pub fn from_item(item: ChannelSettingItem) -> (r: Self)
        ensures
            r.id == ChannelId(item.id),
            r.creator_id == UserId(item.creator_id),
            r.parent_id == ChannelId(item.parent_id),
            r.label@ == item.channel_label@,
            r.private == (item.channel_private != 0),
            r.channel_type == item.channel_type,
            r.user_ids@.len() == item.user_ids@.len(),
            forall|i: int| 0 <= i < item.user_ids@.len() ==> #[trigger] r.user_ids@[i] == UserId(item.user_ids@[i]),
            r.message_count == item.message_count,
            r.last_sender_id == UserId(match item.last_sent_message {
                Some(m) => m.0,
                None => 0,
            }),
            r.last_sent_seconds == match item.last_sent_message {
                Some(m) => m.1,
                None => 0,
            },
    {
        let (sender, ts) = match item.last_sent_message {
            Some(m) => m,
            None => (0, 0),
        };
        let mut user_ids: Vec<UserId> = Vec::new();
        let mut i: usize = 0;
        while i < item.user_ids.len()
            invariant
                i <= item.user_ids@.len(),
                user_ids@.len() == i,
                forall|j: int| 0 <= j < i ==> #[trigger] user_ids@[j] == UserId(item.user_ids@[j]),
            decreases item.user_ids@.len() - i,
        {
            user_ids.push(UserId(item.user_ids[i]));
            i += 1;
        }
        ChannelSetting {
            id: ChannelId(item.id),
            creator_id: UserId(item.creator_id),
            parent_id: ChannelId(item.parent_id),
            label: item.channel_label,
            private: item.channel_private != 0,
            channel_type: item.channel_type,
            user_ids,
            message_count: item.message_count,
            last_sender_id: UserId(sender),
            last_sent_seconds: ts,
        }
    }
}

/// What a channel message means for the settings rows.
#[derive(Clone, Copy, Debug, PartialEq, Eq)]
pub enum MessageEffect {
    /// Typing, first-message markers and edits change nothing.
    Ignore,
    /// A deletion: the lists holding the channel are fetched again.
    Reload,
    /// Any other message counts for its channel's row.
    Count,
}

pub open spec fn message_effect_spec(code: MessageCode) -> MessageEffect {
    if code is Typing || code is Indicator || code is ChatUpdate || code is UpdateEphemeralMsg {
        MessageEffect::Ignore
    } else if code is ChatRemove || code is DeleteEphemeralMsg {
        MessageEffect::Reload
    } else {
        MessageEffect::Count
    }
}

pub fn message_effect(code: MessageCode) -> (r: MessageEffect)
    ensures
        r == message_effect_spec(code),
{
    match code {
        MessageCode::Typing | MessageCode::Indicator | MessageCode::ChatUpdate
        | MessageCode::UpdateEphemeralMsg => MessageEffect::Ignore,
        MessageCode::ChatRemove | MessageCode::DeleteEphemeralMsg => MessageEffect::Reload,
        _ => MessageEffect::Count,
    }
}

pub open spec fn is_first_row(rows: Seq<ChannelSetting>, id: ChannelId, i: int) -> bool {
    &&& 0 <= i <= rows.len()
    &&& forall|j: int| 0 <= j < i ==> (#[trigger] rows[j]).id != id
    &&& i < rows.len() ==> rows[i].id == id
}

/// A message arrived in channel `channel_id`: the first row of that channel counts one more
/// message (saturating) and records the sender and time. Returns whether a row did.
pub fn count_message(rows: &mut Vec<ChannelSetting>, channel_id: ChannelId, sender_id: i64, create_time_seconds: u32) -> (changed: bool)
    ensures
        exists|i: int|
            is_first_row(old(rows)@, channel_id, i) && (changed <==> i < old(rows)@.len()) && if i
                < old(rows)@.len() {
                final(rows)@ == old(rows)@.update(
                    i,
                    ChannelSetting {
                        message_count: if old(rows)@[i].message_count == i64::MAX {
                            i64::MAX
                        } else {
                            (old(rows)@[i].message_count + 1) as i64
                        },
                        last_sender_id: UserId(sender_id),
                        last_sent_seconds: create_time_seconds,
                        ..old(rows)@[i]
                    },
                )
            } else {
                final(rows)@ == old(rows)@
            },
{
    let ghost before = rows@;
    let mut i: usize = 0;
    while i < rows.len() && rows[i].id.0 != channel_id.0
        invariant
            rows@ == before,
            i <= rows@.len(),
            forall|j: int| 0 <= j < i ==> (#[trigger] rows@[j]).id != channel_id,
        decreases rows@.len() - i,
    {
        i += 1;
    }
    assert(is_first_row(before, channel_id, i as int));
    if i < rows.len() {
        let mut row = rows.remove(i);
        row.message_count = if row.message_count == i64::MAX {
            i64::MAX
        } else {
            row.message_count + 1
        };
        row.last_sender_id = UserId(sender_id);
        row.last_sent_seconds = create_time_seconds;
        rows.insert(i, row);
        assert(rows@ =~= before.update(i as int, row));
        true
    } else {
        false
    }
}

/// Whether a row of `rows` is channel `channel_id`.
pub fn holds_channel(rows: &Vec<ChannelSetting>, channel_id: ChannelId) -> (r: bool)
    ensures
        r == exists|i: int| 0 <= i < rows@.len() && (#[trigger] rows@[i]).id == channel_id,
{
    let mut i: usize = 0;
    while i < rows.len()
        invariant
            i <= rows@.len(),
            forall|j: int| 0 <= j < i ==> (#[trigger] rows@[j]).id != channel_id,
        decreases rows@.len() - i,
    {
        if rows[i].id.0 == channel_id.0 {
            return true;
        }
        i += 1;
    }
    false
}

/// The row of `rows` a message in channel `id` counts for: the first of that channel.
pub open spec fn first_row(rows: Seq<ChannelSetting>, id: ChannelId) -> int {
    choose|i: int| is_first_row(rows, id, i)
}

proof fn lemma_first_row(rows: Seq<ChannelSetting>, id: ChannelId, i: int)
    requires
        is_first_row(rows, id, i),
    ensures
        first_row(rows, id) == i,
{
    let c = first_row(rows, id);
    assert(is_first_row(rows, id, c));
    if c < i {
        assert(rows[c].id != id);
    }
    if i < c {
        assert(rows[i].id != id);
    }
}

/// A row after a message counted for it.
pub open spec fn counted_row(r: ChannelSetting, sender_id: i64, t: u32) -> ChannelSetting {
    ChannelSetting {
        message_count: if r.message_count == i64::MAX {
            i64::MAX
        } else {
            (r.message_count + 1) as i64
        },
        last_sender_id: UserId(sender_id),
        last_sent_seconds: t,
        ..r
    }
}

/// The rows after a message in channel `id` arrived (see `count_message`).
pub open spec fn counted(rows: Seq<ChannelSetting>, id: ChannelId, sender_id: i64, t: u32) -> Seq<ChannelSetting> {
    let i = first_row(rows, id);
    if i < rows.len() {
        rows.update(i, counted_row(rows[i], sender_id, t))
    } else {
        rows
    }
}

/// How many rows a list should have, as the first page says: the channel count for the top
/// level (parent `0`), the thread count under a channel; never below zero.
pub open spec fn expected_total(parent_id: ChannelId, channel_count: i32, thread_count: i32) -> int {
    let t = if parent_id.0 == 0 {
        channel_count
    } else {
        thread_count
    };
    if t < 0 {
        0
    } else {
        t as int
    }
}

/// Paging stops after a short page, or once `collected` rows reach the expected total.
pub fn paging_done(parent_id: ChannelId, channel_count: i32, thread_count: i32, received: usize, collected: usize) -> (r:
    bool)
    ensures
        r == (received < API_PAGE_SIZE || collected >= expected_total(parent_id, channel_count, thread_count)),
{
    let t: i32 = if parent_id.0 == 0 {
        channel_count
    } else {
        thread_count
    };
    let total: usize = if t < 0 {
        0
    } else {
        t as usize
    };
    received < 100 || collected >= total
}

/// A list of rows is kept per clan and parent channel.
#[derive(Clone, Copy, Debug, PartialEq, Eq, Structural)]
pub struct RowsKey {
    pub clan_id: ClanId,
    pub parent_id: ChannelId,
}

/// The loaded lists, and which are being fetched. Each key has one list.
pub struct SettingsTable {
    pub entries: Vec<(RowsKey, Vec<ChannelSetting>)>,
    pub loading: Vec<RowsKey>,
}

pub open spec fn table_keys(e: Seq<(RowsKey, Vec<ChannelSetting>)>) -> Seq<RowsKey> {
    e.map_values(|x: (RowsKey, Vec<ChannelSetting>)| x.0)
}

pub open spec fn is_first_key(e: Seq<(RowsKey, Vec<ChannelSetting>)>, key: RowsKey, i: int) -> bool {
    &&& 0 <= i <= e.len()
    &&& forall|j: int| 0 <= j < i ==> (#[trigger] e[j]).0 != key
    &&& i < e.len() ==> e[i].0 == key
}

pub open spec fn key_index(e: Seq<(RowsKey, Vec<ChannelSetting>)>, key: RowsKey) -> int {
    choose|i: int| is_first_key(e, key, i)
}

/// The rows listed under `key`, when loaded.
pub open spec fn rows_of(e: Seq<(RowsKey, Vec<ChannelSetting>)>, key: RowsKey) -> Option<Seq<ChannelSetting>> {
    let i = key_index(e, key);
    if i < e.len() {
        Some(e[i].1@)
    } else {
        None
    }
}

proof fn lemma_key_index(e: Seq<(RowsKey, Vec<ChannelSetting>)>, key: RowsKey, i: int)
    requires
        is_first_key(e, key, i),
    ensures
        key_index(e, key) == i,
{
    let c = key_index(e, key);
    assert(is_first_key(e, key, c));
    if c < i {
        assert(e[c].0 != key);
    }
    if i < c {
        assert(e[i].0 != key);
    }
}

proof fn lemma_first_key_exists(e: Seq<(RowsKey, Vec<ChannelSetting>)>, key: RowsKey)
    ensures
        is_first_key(e, key, key_index(e, key)),
    decreases e.len(),
{
    if e.len() == 0 {
        assert(is_first_key(e, key, 0));
    } else {
        let p = e.drop_last();
        lemma_first_key_exists(p, key);
        let i = key_index(p, key);
        assert forall|j: int| 0 <= j < i implies (#[trigger] e[j]).0 != key by {
            assert(e[j] == p[j]);
        }
        if i < p.len() {
            assert(e[i] == p[i]);
            assert(is_first_key(e, key, i));
        } else if e.last().0 == key {
            assert(is_first_key(e, key, p.len() as int));
        } else {
            assert(is_first_key(e, key, e.len() as int));
        }
    }
}

fn find_key(e: &Vec<(RowsKey, Vec<ChannelSetting>)>, key: RowsKey) -> (r: usize)
    ensures
        is_first_key(e@, key, r as int),
        r as int == key_index(e@, key),
{
    let mut i: usize = 0;
    while i < e.len() && e[i].0 != key
        invariant
            i <= e@.len(),
            forall|j: int| 0 <= j < i ==> (#[trigger] e@[j]).0 != key,
        decreases e@.len() - i,
    {
        i += 1;
    }
    proof {
        lemma_key_index(e@, key, i as int);
    }
    i
}

fn holds_row_key(v: &Vec<RowsKey>, key: RowsKey) -> (r: bool)
    ensures
        r == v@.contains(key),
{
    let mut i: usize = 0;
    while i < v.len()
        invariant
            i <= v@.len(),
            forall|j: int| 0 <= j < i ==> v@[j] != key,
        decreases v@.len() - i,
    {
        if v[i] == key {
            assert(v@[i as int] == key);
            return true;
        }
        i += 1;
    }
    false
}

impl SettingsTable {
    pub fn new() -> (r: Self)
        ensures
            r.entries@.len() == 0,
            r.loading@.len() == 0,
    {
        SettingsTable { entries: Vec::new(), loading: Vec::new() }
    }

    /// The rows of a clan under a parent channel (none when not loaded).
    pub fn rows(&self, clan_id: ClanId, parent_id: ChannelId) -> (r: &[ChannelSetting])
        ensures
            r@ == match rows_of(self.entries@, RowsKey { clan_id, parent_id }) {
                Some(rows) => rows,
                None => Seq::empty(),
            },
    {
        let i = find_key(&self.entries, RowsKey { clan_id, parent_id });
        if i < self.entries.len() {
            self.entries[i].1.as_slice()
        } else {
            let empty: &[ChannelSetting] = &[];
            proof {
                assert(empty@ =~= Seq::<ChannelSetting>::empty());
            }
            empty
        }
    }

    pub fn is_loading(&self, clan_id: ClanId, parent_id: ChannelId) -> (r: bool)
        ensures
            r == self.loading@.contains(RowsKey { clan_id, parent_id }),
    {
        holds_row_key(&self.loading, RowsKey { clan_id, parent_id })
    }

    /// The list is wanted: unless loaded or being fetched, a fetch begins (returns `true`).
    pub fn begin_load(&mut self, clan_id: ClanId, parent_id: ChannelId) -> (start: bool)
        ensures
            ({
                let key = RowsKey { clan_id, parent_id };
                &&& start == (rows_of(old(self).entries@, key) is None && !old(self).loading@.contains(key))
                &&& final(self).entries@ == old(self).entries@
                &&& final(self).loading@ == if start {
                    old(self).loading@.push(key)
                } else {
                    old(self).loading@
                }
            }),
    {
        let key = RowsKey { clan_id, parent_id };
        if find_key(&self.entries, key) < self.entries.len() || holds_row_key(&self.loading, key) {
            return false;
        }
        self.loading.push(key);
        true
    }

    /// The list is to be fetched again: unless a fetch is under way, one begins (returns
    /// `true`).
    pub fn begin_reload(&mut self, key: RowsKey) -> (start: bool)
        ensures
            start == !old(self).loading@.contains(key),
            final(self).entries@ == old(self).entries@,
            final(self).loading@ == if start {
                old(self).loading@.push(key)
            } else {
                old(self).loading@
            },
    {
        if holds_row_key(&self.loading, key) {
            return false;
        }
        self.loading.push(key);
        true
    }

    /// A fetch ended: the list it brought (none on failure) replaces the loaded one. Returns
    /// whether observers learn of a change.
    pub fn finish_load(&mut self, key: RowsKey, result: Option<Vec<ChannelSetting>>) -> (changed: bool)
        ensures
            changed == result is Some,
            final(self).loading@ == old(self).loading@.filter(|k: RowsKey| k != key),
            match result {
                Some(rows) => rows_of(final(self).entries@, key) == Some(rows@),
                None => final(self).entries@ == old(self).entries@,
            },
            forall|k: RowsKey| k != key ==> rows_of(final(self).entries@, k) == rows_of(old(self).entries@, k),
    {
        let ghost s = self.loading@;
        let mut kept: Vec<RowsKey> = Vec::new();
        let mut i: usize = 0;
        proof {
            assert(s.take(0) =~= Seq::<RowsKey>::empty());
        }
        while i < self.loading.len()
            invariant
                s == self.loading@,
                i <= s.len(),
                kept@ == s.take(i as int).filter(|k: RowsKey| k != key),
            decreases s.len() - i,
        {
            proof {
                reveal_with_fuel(Seq::filter, 1);
                assert(s.take(i + 1).drop_last() =~= s.take(i as int));
                assert(s.take(i + 1).last() == s[i as int]);
            }
            if self.loading[i] != key {
                kept.push(self.loading[i]);
            }
            i += 1;
        }
        proof {
            assert(s.take(s.len() as int) =~= s);
        }
        self.loading = kept;
        match result {
            Some(rows) => {
                let ghost e = self.entries@;
                let i = find_key(&self.entries, key);
                if i < self.entries.len() {
                    self.entries.set(i, (key, rows));
                } else {
                    self.entries.push((key, rows));
                }
                proof {
                    lemma_key_index(self.entries@, key, i as int);
                    assert forall|k: RowsKey| k != key implies rows_of(self.entries@, k) == rows_of(e, k) by {
                        let a = key_index(e, k);
                        lemma_first_key_exists(e, k);
                        if a < e.len() {
                            assert(a != i);
                            assert(is_first_key(self.entries@, k, a));
                            lemma_key_index(self.entries@, k, a);
                        } else {
                            assert(is_first_key(self.entries@, k, self.entries@.len() as int));
                            lemma_key_index(self.entries@, k, self.entries@.len() as int);
                        }
                    }
                }
                true
            },
            None => false,
        }
    }

    /// A message in channel `channel_id` of clan `clan_id` counts for the lists of that clan
    /// (see `counted`). Returns the parents of the lists that changed, in order.
    pub fn count_message(&mut self, clan_id: ClanId, channel_id: ChannelId, sender_id: i64, create_time_seconds: u32) -> (changed: Vec<
        ChannelId,
    >)
        ensures
            table_keys(final(self).entries@) == table_keys(old(self).entries@),
            final(self).loading@ == old(self).loading@,
            forall|i: int| 0 <= i < old(self).entries@.len() ==> (#[trigger] final(self).entries@[i]).1@ == if old(self).entries@[i].0.clan_id == clan_id {
                counted(old(self).entries@[i].1@, channel_id, sender_id, create_time_seconds)
            } else {
                old(self).entries@[i].1@
            },
            changed@ == old(self).entries@.filter(|x: (RowsKey, Vec<ChannelSetting>)| x.0.clan_id == clan_id
                && first_row(x.1@, channel_id) < x.1@.len()).map_values(|x: (RowsKey, Vec<ChannelSetting>)| x.0.parent_id),
    {
        let ghost e0 = self.entries@;
        let ghost f = e0.filter(|x: (RowsKey, Vec<ChannelSetting>)| x.0.clan_id == clan_id && first_row(x.1@, channel_id) < x.1@.len());
        let mut changed: Vec<ChannelId> = Vec::new();
        let mut i: usize = 0;
        proof {
            assert(e0.take(0) =~= Seq::<(RowsKey, Vec<ChannelSetting>)>::empty());
        }
        while i < self.entries.len()
            invariant
                self.entries@.len() == e0.len(),
                i <= e0.len(),
                self.loading@ == old(self).loading@,
                forall|j: int| 0 <= j < e0.len() ==> (#[trigger] self.entries@[j]).0 == e0[j].0,
                forall|j: int| 0 <= j < i ==> (#[trigger] self.entries@[j]).1@ == if e0[j].0.clan_id == clan_id {
                    counted(e0[j].1@, channel_id, sender_id, create_time_seconds)
                } else {
                    e0[j].1@
                },
                forall|j: int| i <= j < e0.len() ==> (#[trigger] self.entries@[j]).1@ == e0[j].1@,
                changed@ == e0.take(i as int).filter(|x: (RowsKey, Vec<ChannelSetting>)| x.0.clan_id == clan_id
                    && first_row(x.1@, channel_id) < x.1@.len()).map_values(|x: (RowsKey, Vec<ChannelSetting>)| x.0.parent_id),
            decreases e0.len() - i,
        {
            let ghost before = self.entries@;
            proof {
                reveal_with_fuel(Seq::filter, 1);
                assert(e0.take(i + 1).drop_last() =~= e0.take(i as int));
                assert(e0.take(i + 1).last() == e0[i as int]);
            }
            if self.entries[i].0.clan_id == clan_id {
                let (k, mut rows) = self.entries.remove(i);
                let ghost rv = rows@;
                let hit = count_message_rows(&mut rows, channel_id, sender_id, create_time_seconds);
                let ghost nv = rows@;
                self.entries.insert(i, (k, rows));
                proof {
                    assert(rv == e0[i as int].1@);
                    assert(self.entries@ =~= before.update(i as int, (k, self.entries@[i as int].1)));
                    assert(forall|j: int| 0 <= j < e0.len() && j != i ==> self.entries@[j] == before[j]);
                }
                if hit {
                    changed.push(k.parent_id);
                }
                proof {
                    let g = e0.take(i as int).filter(|x: (RowsKey, Vec<ChannelSetting>)| x.0.clan_id == clan_id
                        && first_row(x.1@, channel_id) < x.1@.len());
                    let g1 = e0.take(i + 1).filter(|x: (RowsKey, Vec<ChannelSetting>)| x.0.clan_id == clan_id
                        && first_row(x.1@, channel_id) < x.1@.len());
                    if hit {
                        assert(g1 == g.push(e0[i as int]));
                    } else {
                        assert(g1 == g);
                    }
                    assert(changed@ =~= g1.map_values(|x: (RowsKey, Vec<ChannelSetting>)| x.0.parent_id));
                }
            } else {
                proof {
                    let g = e0.take(i as int).filter(|x: (RowsKey, Vec<ChannelSetting>)| x.0.clan_id == clan_id
                        && first_row(x.1@, channel_id) < x.1@.len());
                    let g1 = e0.take(i + 1).filter(|x: (RowsKey, Vec<ChannelSetting>)| x.0.clan_id == clan_id
                        && first_row(x.1@, channel_id) < x.1@.len());
                    assert(g1 == g);
                }
            }
            i += 1;
        }
        proof {
            assert(e0.take(e0.len() as int) =~= e0);
            assert(table_keys(self.entries@) =~= table_keys(e0));
        }
        changed
    }

    /// The lists of clan `clan_id` that hold channel `channel_id`: they are fetched again
    /// when one of its messages is deleted.
    pub fn keys_holding(&self, clan_id: ClanId, channel_id: ChannelId) -> (r: Vec<RowsKey>)
        ensures
            r@ == table_keys(self.entries@.filter(|x: (RowsKey, Vec<ChannelSetting>)| x.0.clan_id == clan_id
                && exists|j: int| 0 <= j < x.1@.len() && (#[trigger] x.1@[j]).id == channel_id)),
    {
        let ghost e = self.entries@;
        let mut out: Vec<RowsKey> = Vec::new();
        let mut i: usize = 0;
        proof {
            assert(e.take(0) =~= Seq::<(RowsKey, Vec<ChannelSetting>)>::empty());
        }
        while i < self.entries.len()
            invariant
                e == self.entries@,
                i <= e.len(),
                out@ == table_keys(e.take(i as int).filter(|x: (RowsKey, Vec<ChannelSetting>)| x.0.clan_id == clan_id
                    && exists|j: int| 0 <= j < x.1@.len() && (#[trigger] x.1@[j]).id == channel_id)),
            decreases e.len() - i,
        {
            proof {
                reveal_with_fuel(Seq::filter, 1);
                assert(e.take(i + 1).drop_last() =~= e.take(i as int));
                assert(e.take(i + 1).last() == e[i as int]);
            }
            if self.entries[i].0.clan_id == clan_id && holds_channel(&self.entries[i].1, channel_id) {
                out.push(self.entries[i].0);
                proof {
                    let g = e.take(i as int).filter(|x: (RowsKey, Vec<ChannelSetting>)| x.0.clan_id == clan_id
                        && exists|j: int| 0 <= j < x.1@.len() && (#[trigger] x.1@[j]).id == channel_id);
                    assert(table_keys(g.push(e[i as int])) =~= table_keys(g).push(e[i as int].0));
                }
            }
            i += 1;
        }
        proof {
            assert(e.take(e.len() as int) =~= e);
        }
        out
    }

    /// The keys of every loaded list, in order: all are fetched again after a channel is
    /// created, updated, deleted or archived.
    pub fn loaded_keys(&self) -> (r: Vec<RowsKey>)
        ensures
            r@ == table_keys(self.entries@),
    {
        let mut out: Vec<RowsKey> = Vec::new();
        let mut i: usize = 0;
        while i < self.entries.len()
            invariant
                i <= self.entries@.len(),
                out@ == table_keys(self.entries@.take(i as int)),
            decreases self.entries@.len() - i,
        {
            out.push(self.entries[i].0);
            proof {
                assert(table_keys(self.entries@.take(i + 1)) =~= table_keys(self.entries@.take(i as int)).push(self.entries@[i as int].0));
            }
            i += 1;
        }
        proof {
            assert(self.entries@.take(self.entries@.len() as int) =~= self.entries@);
        }
        out
    }
}

/// `count_message` stated through `counted`.
fn count_message_rows(rows: &mut Vec<ChannelSetting>, channel_id: ChannelId, sender_id: i64, t: u32) -> (hit: bool)
    ensures
        final(rows)@ == counted(old(rows)@, channel_id, sender_id, t),
        hit == (first_row(old(rows)@, channel_id) < old(rows)@.len()),
{
    let ghost s = rows@;
    let hit = count_message(rows, channel_id, sender_id, t);
    proof {
        let i = choose|i: int| is_first_row(s, channel_id, i) && (hit <==> i < s.len()) && if i < s.len() {
            rows@ == s.update(i, counted_row(s[i], sender_id, t))
        } else {
            rows@ == s
        };
        lemma_first_row(s, channel_id, i);
    }
    hit
}

} // verus!
