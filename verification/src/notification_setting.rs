use vstd::prelude::*;

use crate::ids::{ChannelId, ClanId};
use crate::text::{parse_i64, parse_i64_spec};

verus! {

/// What the notification settings store tells its observers.
#[derive(Debug, Clone, Copy)]
pub enum NotificationSettingEvent {
    Changed(ChannelId),
}

/// The notification override of one channel: the channel it is set for (`0` when none), its
/// level, and until when (milliseconds) the channel is muted.
#[derive(Debug, Clone, Copy, PartialEq, Eq, Structural)]
pub struct ChannelNotificationSetting {
    pub id: i64,
    pub level: i32,
    pub mute_until_ms: i64,
}

/// The values that the notification service gives meaning to: the level that means "as the
/// clan says", the mute duration that means "forever" and the one that means "unmute", and
/// the setting a channel has before anything is set.
#[derive(Debug, Clone, Copy, PartialEq, Eq, Structural)]
pub struct SettingConstants {
    pub default_level: i32,
    pub mute_infinity: i32,
    pub unmute: i32,
    pub blank: ChannelNotificationSetting,
}

/// The per-channel overrides and clan defaults that are known, and which loads are under way.
/// Each channel and each clan appears once.
pub struct NotificationSettings {
    pub constants: SettingConstants,
    pub settings: Vec<(ChannelId, ChannelNotificationSetting)>,
    pub clan_defaults: Vec<(ClanId, i32)>,
    pub in_flight: Vec<ChannelId>,
    pub prefetching: Vec<ClanId>,
}

/// The settings as a map from channel.
pub open spec fn settings_map(s: Seq<(ChannelId, ChannelNotificationSetting)>) -> Map<ChannelId, ChannelNotificationSetting>
    decreases s.len(),
{
    if s.len() == 0 {
        Map::empty()
    } else {
        settings_map(s.drop_last()).insert(s.last().0, s.last().1)
    }
}

pub open spec fn defaults_map(s: Seq<(ClanId, i32)>) -> Map<ClanId, i32>
    decreases s.len(),
{
    if s.len() == 0 {
        Map::empty()
    } else {
        defaults_map(s.drop_last()).insert(s.last().0, s.last().1)
    }
}

/// The setting of a channel after the mute-list says it is muted: it names the channel, and
/// a channel with no mute end is muted forever.
pub open spec fn seeded(prev: ChannelNotificationSetting, raw: i64, mute_infinity: i32) -> ChannelNotificationSetting {
    ChannelNotificationSetting {
        id: raw,
        mute_until_ms: if prev.mute_until_ms == 0 {
            mute_infinity as i64
        } else {
            prev.mute_until_ms
        },
        ..prev
    }
}

/// The settings after seeding the muted channel ids `ids` (ids that are not numbers, or `0`,
/// are skipped).
pub open spec fn seeded_map(
    m: Map<ChannelId, ChannelNotificationSetting>,
    ids: Seq<Seq<char>>,
    c: SettingConstants,
) -> Map<ChannelId, ChannelNotificationSetting>
    decreases ids.len(),
{
    if ids.len() == 0 {
        m
    } else {
        let before = seeded_map(m, ids.drop_last(), c);
        match parse_i64_spec(ids.last()) {
            Some(raw) => if raw == 0 {
                before
            } else {
                let ch = ChannelId(raw);
                let prev = if before.contains_key(ch) {
                    before[ch]
                } else {
                    c.blank
                };
                before.insert(ch, seeded(prev, raw, c.mute_infinity))
            },
            None => before,
        }
    }
}

proof fn lemma_settings_update(s: Seq<(ChannelId, ChannelNotificationSetting)>, i: int, v: ChannelNotificationSetting)
    requires
        0 <= i < s.len(),
        forall|j: int| 0 <= j < s.len() && j != i ==> (#[trigger] s[j]).0 != s[i].0,
    ensures
        settings_map(s.update(i, (s[i].0, v))) == settings_map(s).insert(s[i].0, v),
    decreases s.len(),
{
    let t = s.update(i, (s[i].0, v));
    if i == s.len() - 1 {
        assert(t.drop_last() =~= s.drop_last());
        lemma_settings_absent(s.drop_last(), s[i].0);
        assert(settings_map(t) =~= settings_map(s).insert(s[i].0, v));
    } else {
        lemma_settings_update(s.drop_last(), i, v);
        assert(t.drop_last() =~= s.drop_last().update(i, (s[i].0, v)));
        assert(settings_map(t) =~= settings_map(s).insert(s[i].0, v));
    }
}

proof fn lemma_settings_absent(s: Seq<(ChannelId, ChannelNotificationSetting)>, k: ChannelId)
    requires
        forall|j: int| 0 <= j < s.len() ==> (#[trigger] s[j]).0 != k,
    ensures
        !settings_map(s).contains_key(k),
    decreases s.len(),
{
    if s.len() > 0 {
        lemma_settings_absent(s.drop_last(), k);
    }
}

proof fn lemma_settings_at(s: Seq<(ChannelId, ChannelNotificationSetting)>, i: int)
    requires
        0 <= i < s.len(),
        forall|j: int| 0 <= j < s.len() && j != i ==> (#[trigger] s[j]).0 != s[i].0,
    ensures
        settings_map(s).contains_key(s[i].0),
        settings_map(s)[s[i].0] == s[i].1,
    decreases s.len(),
{
    if i < s.len() - 1 {
        lemma_settings_at(s.drop_last(), i);
    }
}

proof fn lemma_defaults_update(s: Seq<(ClanId, i32)>, i: int, v: i32)
    requires
        0 <= i < s.len(),
        forall|j: int| 0 <= j < s.len() && j != i ==> (#[trigger] s[j]).0 != s[i].0,
    ensures
        defaults_map(s.update(i, (s[i].0, v))) == defaults_map(s).insert(s[i].0, v),
    decreases s.len(),
{
    let t = s.update(i, (s[i].0, v));
    if i == s.len() - 1 {
        assert(t.drop_last() =~= s.drop_last());
        lemma_defaults_absent(s.drop_last(), s[i].0);
        assert(defaults_map(t) =~= defaults_map(s).insert(s[i].0, v));
    } else {
        lemma_defaults_update(s.drop_last(), i, v);
        assert(t.drop_last() =~= s.drop_last().update(i, (s[i].0, v)));
        assert(defaults_map(t) =~= defaults_map(s).insert(s[i].0, v));
    }
}

proof fn lemma_defaults_absent(s: Seq<(ClanId, i32)>, k: ClanId)
    requires
        forall|j: int| 0 <= j < s.len() ==> (#[trigger] s[j]).0 != k,
    ensures
        !defaults_map(s).contains_key(k),
    decreases s.len(),
{
    if s.len() > 0 {
        lemma_defaults_absent(s.drop_last(), k);
    }
}

proof fn lemma_defaults_at(s: Seq<(ClanId, i32)>, i: int)
    requires
        0 <= i < s.len(),
        forall|j: int| 0 <= j < s.len() && j != i ==> (#[trigger] s[j]).0 != s[i].0,
    ensures
        defaults_map(s).contains_key(s[i].0),
        defaults_map(s)[s[i].0] == s[i].1,
    decreases s.len(),
{
    if i < s.len() - 1 {
        lemma_defaults_at(s.drop_last(), i);
    }
}

pub open spec fn unique_channels(s: Seq<(ChannelId, ChannelNotificationSetting)>) -> bool {
    forall|i: int, j: int| 0 <= i < s.len() && 0 <= j < s.len() && i != j ==> (#[trigger] s[i]).0 != (#[trigger] s[j]).0
}

pub open spec fn unique_clans(s: Seq<(ClanId, i32)>) -> bool {
    forall|i: int, j: int| 0 <= i < s.len() && 0 <= j < s.len() && i != j ==> (#[trigger] s[i]).0 != (#[trigger] s[j]).0
}

fn find_channel(s: &Vec<(ChannelId, ChannelNotificationSetting)>, ch: ChannelId) -> (r: usize)
    ensures
        r <= s@.len(),
        forall|j: int| 0 <= j < r ==> (#[trigger] s@[j]).0 != ch,
        r < s@.len() ==> s@[r as int].0 == ch,
{
    let mut i: usize = 0;
    while i < s.len() && s[i].0 != ch
        invariant
            i <= s@.len(),
            forall|j: int| 0 <= j < i ==> (#[trigger] s@[j]).0 != ch,
        decreases s@.len() - i,
    {
        i += 1;
    }
    i
}

fn find_clan(s: &Vec<(ClanId, i32)>, clan: ClanId) -> (r: usize)
    ensures
        r <= s@.len(),
        forall|j: int| 0 <= j < r ==> (#[trigger] s@[j]).0 != clan,
        r < s@.len() ==> s@[r as int].0 == clan,
{
    let mut i: usize = 0;
    while i < s.len() && s[i].0 != clan
        invariant
            i <= s@.len(),
            forall|j: int| 0 <= j < i ==> (#[trigger] s@[j]).0 != clan,
        decreases s@.len() - i,
    {
        i += 1;
    }
    i
}

fn contains_channel(v: &Vec<ChannelId>, ch: ChannelId) -> (r: bool)
    ensures
        r == v@.contains(ch),
{
    let mut i: usize = 0;
    while i < v.len()
        invariant
            i <= v@.len(),
            forall|j: int| 0 <= j < i ==> v@[j] != ch,
        decreases v@.len() - i,
    {
        if v[i] == ch {
            assert(v@[i as int] == ch);
            return true;
        }
        i += 1;
    }
    false
}

fn contains_clan(v: &Vec<ClanId>, clan: ClanId) -> (r: bool)
    ensures
        r == v@.contains(clan),
{
    let mut i: usize = 0;
    while i < v.len()
        invariant
            i <= v@.len(),
            forall|j: int| 0 <= j < i ==> v@[j] != clan,
        decreases v@.len() - i,
    {
        if v[i] == clan {
            assert(v@[i as int] == clan);
            return true;
        }
        i += 1;
    }
    false
}

impl NotificationSettings {
    pub open spec fn wf(&self) -> bool {
        unique_channels(self.settings@) && unique_clans(self.clan_defaults@)
    }

    pub open spec fn settings_view(&self) -> Map<ChannelId, ChannelNotificationSetting> {
        settings_map(self.settings@)
    }

    pub open spec fn defaults_view(&self) -> Map<ClanId, i32> {
        defaults_map(self.clan_defaults@)
    }

    pub fn new(constants: SettingConstants) -> (r: Self)
        ensures
            r.wf(),
            r.constants == constants,
            r.settings_view() == Map::<ChannelId, ChannelNotificationSetting>::empty(),
            r.defaults_view() == Map::<ClanId, i32>::empty(),
            r.in_flight@.len() == 0,
            r.prefetching@.len() == 0,
    {
        NotificationSettings {
            constants,
            settings: Vec::new(),
            clan_defaults: Vec::new(),
            in_flight: Vec::new(),
            prefetching: Vec::new(),
        }
    }

    /// Everything known is forgotten (the session ended).
    pub fn reset(&mut self)
        ensures
            final(self).wf(),
            final(self).constants == old(self).constants,
            final(self).settings_view() == Map::<ChannelId, ChannelNotificationSetting>::empty(),
            final(self).defaults_view() == Map::<ClanId, i32>::empty(),
            final(self).in_flight@.len() == 0,
            final(self).prefetching@.len() == 0,
    {
        self.settings = Vec::new();
        self.clan_defaults = Vec::new();
        self.in_flight = Vec::new();
        self.prefetching = Vec::new();
    }

    /// The override of a channel, when one is known.
    pub fn setting(&self, channel_id: ChannelId) -> (r: Option<ChannelNotificationSetting>)
        requires
            self.wf(),
        ensures
            r == (if self.settings_view().contains_key(channel_id) {
                Some(self.settings_view()[channel_id])
            } else {
                None
            }),
    {
        let i = find_channel(&self.settings, channel_id);
        if i < self.settings.len() {
            proof {
                lemma_settings_at(self.settings@, i as int);
            }
            Some(self.settings[i].1)
        } else {
            proof {
                lemma_settings_absent(self.settings@, channel_id);
            }
            None
        }
    }

    /// The level of a channel: its override's, else "as the clan says".
    pub fn level(&self, channel_id: ChannelId) -> (r: i32)
        requires
            self.wf(),
        ensures
            r == (if self.settings_view().contains_key(channel_id) {
                self.settings_view()[channel_id].level
            } else {
                self.constants.default_level
            }),
    {
        match self.setting(channel_id) {
            Some(s) => s.level,
            None => self.constants.default_level,
        }
    }

    pub fn clan_default(&self, clan_id: ClanId) -> (r: Option<i32>)
        requires
            self.wf(),
        ensures
            r == (if self.defaults_view().contains_key(clan_id) {
                Some(self.defaults_view()[clan_id])
            } else {
                None
            }),
    {
        let i = find_clan(&self.clan_defaults, clan_id);
        if i < self.clan_defaults.len() {
            proof {
                lemma_defaults_at(self.clan_defaults@, i as int);
            }
            Some(self.clan_defaults[i].1)
        } else {
            proof {
                lemma_defaults_absent(self.clan_defaults@, clan_id);
            }
            None
        }
    }

    pub fn set_clan_default(&mut self, clan_id: ClanId, level: i32)
        requires
            old(self).wf(),
        ensures
            final(self).wf(),
            final(self).defaults_view() == old(self).defaults_view().insert(clan_id, level),
            final(self).settings == old(self).settings,
            final(self).constants == old(self).constants,
            final(self).in_flight == old(self).in_flight,
            final(self).prefetching == old(self).prefetching,
    {
        let ghost s = self.clan_defaults@;
        let i = find_clan(&self.clan_defaults, clan_id);
        if i < self.clan_defaults.len() {
            self.clan_defaults.set(i, (clan_id, level));
            proof {
                lemma_defaults_update(s, i as int, level);
            }
        } else {
            self.clan_defaults.push((clan_id, level));
            proof {
                lemma_defaults_absent(s, clan_id);
                assert(self.clan_defaults@.drop_last() =~= s);
                assert(self.defaults_view() =~= defaults_map(s).insert(clan_id, level));
            }
        }
    }

    /// Sets the override of a channel, in place of the old one.
    fn put(&mut self, channel_id: ChannelId, v: ChannelNotificationSetting)
        requires
            old(self).wf(),
        ensures
            final(self).wf(),
            final(self).settings_view() == old(self).settings_view().insert(channel_id, v),
            final(self).clan_defaults == old(self).clan_defaults,
            final(self).constants == old(self).constants,
            final(self).in_flight == old(self).in_flight,
            final(self).prefetching == old(self).prefetching,
    {
        let ghost s = self.settings@;
        let i = find_channel(&self.settings, channel_id);
        if i < self.settings.len() {
            self.settings.set(i, (channel_id, v));
            proof {
                lemma_settings_update(s, i as int, v);
            }
        } else {
            self.settings.push((channel_id, v));
            proof {
                lemma_settings_absent(s, channel_id);
                assert(self.settings@.drop_last() =~= s);
                assert(self.settings_view() =~= settings_map(s).insert(channel_id, v));
            }
        }
    }

    /// Drops the override of a channel.
    fn drop_setting(&mut self, channel_id: ChannelId)
        requires
            old(self).wf(),
        ensures
            final(self).wf(),
            final(self).settings_view() == old(self).settings_view().remove(channel_id),
            final(self).clan_defaults == old(self).clan_defaults,
            final(self).constants == old(self).constants,
            final(self).in_flight == old(self).in_flight,
            final(self).prefetching == old(self).prefetching,
    {
        let ghost s = self.settings@;
        let i = find_channel(&self.settings, channel_id);
        if i < self.settings.len() {
            self.settings.remove(i);
            proof {
                let t = self.settings@;
                assert(t =~= s.take(i as int) + s.skip(i + 1));
                lemma_settings_remove(s, i as int);
            }
        } else {
            proof {
                lemma_settings_absent(s, channel_id);
                assert(settings_map(s).remove(channel_id) =~= settings_map(s));
            }
        }
    }

    /// The mute list of a clan arrived: each muted channel id (skipping ids that are not
    /// numbers, or `0`) gets an override naming it, muted forever unless a mute end is known
    /// (see `seeded_map`).
    pub fn seed_muted_channels(&mut self, muted_ids: &Vec<String>)
        requires
            old(self).wf(),
        ensures
            final(self).wf(),
            final(self).settings_view() == seeded_map(
                old(self).settings_view(),
                muted_ids@.map_values(|s: String| s@),
                old(self).constants,
            ),
            final(self).clan_defaults == old(self).clan_defaults,
            final(self).constants == old(self).constants,
            final(self).in_flight == old(self).in_flight,
            final(self).prefetching == old(self).prefetching,
    {
        let ghost m0 = self.settings_view();
        let ghost ids = muted_ids@.map_values(|s: String| s@);
        let mut i: usize = 0;
        proof {
            assert(ids.take(0) =~= Seq::<Seq<char>>::empty());
        }
        while i < muted_ids.len()
            invariant
                self.wf(),
                ids == muted_ids@.map_values(|s: String| s@),
                i <= muted_ids@.len(),
                self.settings_view() == seeded_map(m0, ids.take(i as int), self.constants),
                self.clan_defaults == old(self).clan_defaults,
                self.constants == old(self).constants,
                self.in_flight == old(self).in_flight,
                self.prefetching == old(self).prefetching,
            decreases muted_ids@.len() - i,
        {
            proof {
                assert(ids.take(i + 1).drop_last() =~= ids.take(i as int));
                assert(ids.take(i + 1).last() == muted_ids@[i as int]@);
            }
            match parse_i64(muted_ids[i].as_str()) {
                Some(raw) => {
                    if raw != 0 {
                        let ch = ChannelId(raw);
                        let prev = match self.setting(ch) {
                            Some(p) => p,
                            None => self.constants.blank,
                        };
                        let next = ChannelNotificationSetting {
                            id: raw,
                            mute_until_ms: if prev.mute_until_ms == 0 {
                                self.constants.mute_infinity as i64
                            } else {
                                prev.mute_until_ms
                            },
                            ..prev
                        };
                        self.put(ch, next);
                    }
                },
                None => {},
            }
            i += 1;
        }
        proof {
            assert(ids.take(muted_ids@.len() as int) =~= ids);
        }
    }

    /// A clan became active: unless its id is `0` or it is being fetched, its mute list and
    /// default level are fetched (returns `true`).
    pub fn begin_prefetch(&mut self, clan_id: ClanId) -> (start: bool)
        ensures
            start == (clan_id.0 != 0 && !old(self).prefetching@.contains(clan_id)),
            final(self).prefetching@ == if start {
                old(self).prefetching@.push(clan_id)
            } else {
                old(self).prefetching@
            },
            final(self).settings == old(self).settings,
            final(self).clan_defaults == old(self).clan_defaults,
            final(self).in_flight == old(self).in_flight,
            final(self).constants == old(self).constants,
    {
        if clan_id.0 == 0 || contains_clan(&self.prefetching, clan_id) {
            return false;
        }
        self.prefetching.push(clan_id);
        true
    }

    /// The prefetch of a clan ended: the mute list (when it came) seeds the overrides, then
    /// the default level (when it came) is kept.
    pub fn finish_prefetch(&mut self, clan_id: ClanId, muted: Option<Vec<String>>, default_level: Option<i32>)
        requires
            old(self).wf(),
        ensures
            final(self).wf(),
            final(self).prefetching@ == old(self).prefetching@.filter(|c: ClanId| c != clan_id),
            final(self).settings_view() == match muted {
                Some(ids) => seeded_map(old(self).settings_view(), ids@.map_values(|s: String| s@), old(self).constants),
                None => old(self).settings_view(),
            },
            final(self).defaults_view() == match default_level {
                Some(l) => old(self).defaults_view().insert(clan_id, l),
                None => old(self).defaults_view(),
            },
            final(self).in_flight == old(self).in_flight,
            final(self).constants == old(self).constants,
    {
        let ghost s = self.prefetching@;
        let mut kept: Vec<ClanId> = Vec::new();
        let mut i: usize = 0;
        proof {
            assert(s.take(0) =~= Seq::<ClanId>::empty());
        }
        while i < self.prefetching.len()
            invariant
                s == self.prefetching@,
                i <= s.len(),
                kept@ == s.take(i as int).filter(|c: ClanId| c != clan_id),
            decreases s.len() - i,
        {
            proof {
                reveal_with_fuel(Seq::filter, 1);
                assert(s.take(i + 1).drop_last() =~= s.take(i as int));
                assert(s.take(i + 1).last() == s[i as int]);
            }
            if self.prefetching[i] != clan_id {
                kept.push(self.prefetching[i]);
            }
            i += 1;
        }
        proof {
            assert(s.take(s.len() as int) =~= s);
        }
        self.prefetching = kept;
        match muted {
            Some(ids) => self.seed_muted_channels(&ids),
            None => {},
        }
        match default_level {
            Some(l) => self.set_clan_default(clan_id, l),
            None => {},
        }
    }

    /// A channel was opened: unless its id is `0`, its override is known, or it is being
    /// fetched, the override is fetched (returns `true`).
    pub fn begin_load(&mut self, channel_id: ChannelId) -> (start: bool)
        requires
            old(self).wf(),
        ensures
            start == (channel_id.0 != 0 && !old(self).settings_view().contains_key(channel_id)
                && !old(self).in_flight@.contains(channel_id)),
            final(self).in_flight@ == if start {
                old(self).in_flight@.push(channel_id)
            } else {
                old(self).in_flight@
            },
            final(self).settings == old(self).settings,
            final(self).clan_defaults == old(self).clan_defaults,
            final(self).prefetching == old(self).prefetching,
            final(self).constants == old(self).constants,
    {
        if channel_id.0 == 0 || self.setting(channel_id).is_some() || contains_channel(&self.in_flight, channel_id) {
            return false;
        }
        self.in_flight.push(channel_id);
        true
    }

    /// The fetch of a channel's override ended: on success it is kept and observers learn of
    /// the change (returns `true`).
    pub fn finish_load(&mut self, channel_id: ChannelId, fetched: Option<ChannelNotificationSetting>) -> (changed: bool)
        requires
            old(self).wf(),
        ensures
            final(self).wf(),
            changed == fetched is Some,
            final(self).in_flight@ == old(self).in_flight@.filter(|c: ChannelId| c != channel_id),
            final(self).settings_view() == match fetched {
                Some(v) => old(self).settings_view().insert(channel_id, v),
                None => old(self).settings_view(),
            },
            final(self).clan_defaults == old(self).clan_defaults,
            final(self).prefetching == old(self).prefetching,
            final(self).constants == old(self).constants,
    {
        let ghost s = self.in_flight@;
        let mut kept: Vec<ChannelId> = Vec::new();
        let mut i: usize = 0;
        proof {
            assert(s.take(0) =~= Seq::<ChannelId>::empty());
        }
        while i < self.in_flight.len()
            invariant
                s == self.in_flight@,
                i <= s.len(),
                kept@ == s.take(i as int).filter(|c: ChannelId| c != channel_id),
            decreases s.len() - i,
        {
            proof {
                reveal_with_fuel(Seq::filter, 1);
                assert(s.take(i + 1).drop_last() =~= s.take(i as int));
                assert(s.take(i + 1).last() == s[i as int]);
            }
            if self.in_flight[i] != channel_id {
                kept.push(self.in_flight[i]);
            }
            i += 1;
        }
        proof {
            assert(s.take(s.len() as int) =~= s);
        }
        self.in_flight = kept;
        match fetched {
            Some(v) => {
                self.put(channel_id, v);
                true
            },
            None => false,
        }
    }

    /// The user picks a level for a channel: the override (a blank one when there is none)
    /// takes it and, unless it is "as the clan says", names the channel. Returns the
    /// override before, to restore if saving fails.
    pub fn set_level(&mut self, channel_id: ChannelId, level: i32) -> (previous: Option<ChannelNotificationSetting>)
        requires
            old(self).wf(),
        ensures
            final(self).wf(),
            previous == (if old(self).settings_view().contains_key(channel_id) {
                Some(old(self).settings_view()[channel_id])
            } else {
                None
            }),
            ({
                let prev = match previous {
                    Some(p) => p,
                    None => old(self).constants.blank,
                };
                final(self).settings_view() == old(self).settings_view().insert(
                    channel_id,
                    ChannelNotificationSetting {
                        level,
                        id: if level != old(self).constants.default_level {
                            channel_id.0
                        } else {
                            prev.id
                        },
                        ..prev
                    },
                )
            }),
            final(self).clan_defaults == old(self).clan_defaults,
            final(self).in_flight == old(self).in_flight,
            final(self).prefetching == old(self).prefetching,
            final(self).constants == old(self).constants,
    {
        let previous = self.setting(channel_id);
        let prev = match previous {
            Some(p) => p,
            None => self.constants.blank,
        };
        let next = ChannelNotificationSetting {
            level,
            id: if level != self.constants.default_level {
                channel_id.0
            } else {
                prev.id
            },
            ..prev
        };
        self.put(channel_id, next);
        previous
    }

    /// The user mutes a channel for `mute_seconds` (ending at `expiry_ms`) or unmutes it:
    /// the override (a blank one when there is none) takes the end, and names the channel
    /// unless this unmutes it (then it names none). Returns the override before.
    pub fn set_mute(&mut self, channel_id: ChannelId, mute_seconds: i32, expiry_ms: i64) -> (previous: Option<
        ChannelNotificationSetting,
    >)
        requires
            old(self).wf(),
        ensures
            final(self).wf(),
            previous == (if old(self).settings_view().contains_key(channel_id) {
                Some(old(self).settings_view()[channel_id])
            } else {
                None
            }),
            ({
                let prev = match previous {
                    Some(p) => p,
                    None => old(self).constants.blank,
                };
                final(self).settings_view() == old(self).settings_view().insert(
                    channel_id,
                    ChannelNotificationSetting {
                        mute_until_ms: expiry_ms,
                        id: if mute_seconds == old(self).constants.unmute {
                            0
                        } else {
                            channel_id.0
                        },
                        ..prev
                    },
                )
            }),
            final(self).clan_defaults == old(self).clan_defaults,
            final(self).in_flight == old(self).in_flight,
            final(self).prefetching == old(self).prefetching,
            final(self).constants == old(self).constants,
    {
        let previous = self.setting(channel_id);
        let prev = match previous {
            Some(p) => p,
            None => self.constants.blank,
        };
        let next = ChannelNotificationSetting {
            mute_until_ms: expiry_ms,
            id: if mute_seconds == self.constants.unmute {
                0
            } else {
                channel_id.0
            },
            ..prev
        };
        self.put(channel_id, next);
        previous
    }

    /// Saving failed: the override goes back to what it was (none: it is dropped).
    pub fn restore(&mut self, channel_id: ChannelId, previous: Option<ChannelNotificationSetting>)
        requires
            old(self).wf(),
        ensures
            final(self).wf(),
            final(self).settings_view() == match previous {
                Some(p) => old(self).settings_view().insert(channel_id, p),
                None => old(self).settings_view().remove(channel_id),
            },
            final(self).clan_defaults == old(self).clan_defaults,
            final(self).in_flight == old(self).in_flight,
            final(self).prefetching == old(self).prefetching,
            final(self).constants == old(self).constants,
    {
        match previous {
            Some(p) => self.put(channel_id, p),
            None => self.drop_setting(channel_id),
        }
    }
}

proof fn lemma_settings_remove(s: Seq<(ChannelId, ChannelNotificationSetting)>, i: int)
    requires
        0 <= i < s.len(),
        unique_channels(s),
    ensures
        settings_map(s.take(i) + s.skip(i + 1)) == settings_map(s).remove(s[i].0),
        unique_channels(s.take(i) + s.skip(i + 1)),
    decreases s.len(),
{
    let t = s.take(i) + s.skip(i + 1);
    if i == s.len() - 1 {
        assert(t =~= s.drop_last());
        assert forall|j: int| 0 <= j < s.drop_last().len() implies (#[trigger] s.drop_last()[j]).0 != s[i].0 by {
            assert(s[j].0 != s[i].0);
        }
        lemma_settings_absent(s.drop_last(), s[i].0);
        assert(settings_map(t) =~= settings_map(s).remove(s[i].0));
    } else {
        let p = s.drop_last();
        assert(unique_channels(p)) by {
            assert forall|a: int, b: int| 0 <= a < p.len() && 0 <= b < p.len() && a != b implies (#[trigger] p[a]).0 != (#[trigger] p[b]).0 by {
                assert(s[a] == p[a] && s[b] == p[b]);
            }
        }
        lemma_settings_remove(p, i);
        assert(t.drop_last() =~= p.take(i) + p.skip(i + 1));
        assert(t.last() == s.last());
        assert(s.last().0 != s[i].0);
        assert(settings_map(t) =~= settings_map(s).remove(s[i].0));
    }
}

/// The override of channel `ch` in `m`, when there is one.
pub open spec fn previous_of(m: Map<ChannelId, ChannelNotificationSetting>, ch: ChannelId) -> Option<ChannelNotificationSetting> {
    if m.contains_key(ch) {
        Some(m[ch])
    } else {
        None
    }
}

/// The overrides after `restore` put back `previous` for channel `ch`.
pub open spec fn restored(
    m: Map<ChannelId, ChannelNotificationSetting>,
    ch: ChannelId,
    previous: Option<ChannelNotificationSetting>,
) -> Map<ChannelId, ChannelNotificationSetting> {
    match previous {
        Some(p) => m.insert(ch, p),
        None => m.remove(ch),
    }
}

/// A failed save is undone: whatever a level or mute change set for a channel, restoring
/// the override it returned gives back the overrides as they were.
pub proof fn law_restore_undoes_change(
    before: Map<ChannelId, ChannelNotificationSetting>,
    ch: ChannelId,
    v: ChannelNotificationSetting,
)
    ensures
        restored(before.insert(ch, v), ch, previous_of(before, ch)) == before,
{
    if before.contains_key(ch) {
        assert(before.insert(ch, v).insert(ch, before[ch]) =~= before);
    } else {
        assert(before.insert(ch, v).remove(ch) =~= before);
    }
}

} // verus!
