use vstd::prelude::*;

use crate::channel::{
    any_category_has, categories_view, channel_type_of, channels_view, first_channel,
    first_holder, has_channel_id, insert_channel, insert_channel_spec, is_first_channel,
    is_first_holder, remove_channel, remove_channel_spec, removes_from_regular, update_channel,
    update_channel_spec,
    favor_cate_id, favor_cate_id_string, zero_id, Category, CategoryView, Channel, ChannelEvent, ChannelType, ChannelView, VoiceMember,
    VoiceMemberView,
};
use crate::text::{i64_to_string, int_decimal, opt_view, owned, str_eq};

verus! {

/// The categories of one loaded clan.
pub struct ClanChannels {
    pub clan_id: String,
    pub categories: Vec<Category>,
}

pub open spec fn clans_view(cs: Seq<ClanChannels>) -> Seq<(Seq<char>, Seq<CategoryView>)> {
    cs.map_values(|c: ClanChannels| (c.clan_id@, categories_view(c.categories@)))
}

/// The channel lists of the loaded clans, and the channel being viewed.
pub struct ChannelList {
    pub clans: Vec<ClanChannels>,
    /// The clan whose channels are shown.
    pub active_clan_id: Option<String>,
    pub active_channel_id: Option<String>,
}

/// A server push the channel list reacts to.
pub enum ChannelListEvent {
    ChannelMessage { channel_id: i64, create_time_seconds: u32 },
    MarkAsRead { channel_id: i64 },
    ChannelCreated {
        clan_id: i64,
        channel_id: i64,
        channel_label: String,
        channel_type: i32,
        channel_private: i32,
        category_id: i64,
        parent_id: i64,
    },
    ChannelUpdated { channel_id: i64, channel_label: String, channel_private: bool },
    ChannelDeleted { channel_id: i64 },
    VoiceJoined { clan_id: i64, voice_channel_id: i64, user_id: i64 },
    VoiceLeaved { clan_id: i64, voice_channel_id: i64, voice_user_id: i64 },
}

/// What handling a push asks of the app: a redraw, and an event for the channel list's
/// observers.
pub struct EventOutcome {
    pub notify: bool,
    pub event: Option<ChannelEvent>,
}

// ---------------------------------------------------------------------------
// Finding channels across clans
// ---------------------------------------------------------------------------

/// `k` is the first clan that lists channel `id` (`cs.len()` when none does).
pub open spec fn is_first_clan_holding(
    cs: Seq<(Seq<char>, Seq<CategoryView>)>,
    id: Seq<char>,
    k: int,
) -> bool {
    &&& 0 <= k <= cs.len()
    &&& forall|j: int| 0 <= j < k ==> !any_category_has((#[trigger] cs[j]).1, id)
    &&& k < cs.len() ==> any_category_has(cs[k].1, id)
}

pub open spec fn first_clan_holding(cs: Seq<(Seq<char>, Seq<CategoryView>)>, id: Seq<char>) -> int {
    choose|k: int| is_first_clan_holding(cs, id, k)
}

/// `k` is the first entry of clan `clan_id` (`cs.len()` when there is none).
pub open spec fn is_first_clan_entry(
    cs: Seq<(Seq<char>, Seq<CategoryView>)>,
    clan_id: Seq<char>,
    k: int,
) -> bool {
    &&& 0 <= k <= cs.len()
    &&& forall|j: int| 0 <= j < k ==> (#[trigger] cs[j]).0 != clan_id
    &&& k < cs.len() ==> cs[k].0 == clan_id
}

pub open spec fn clan_entry(cs: Seq<(Seq<char>, Seq<CategoryView>)>, clan_id: Seq<char>) -> int {
    choose|k: int| is_first_clan_entry(cs, clan_id, k)
}

/// The categories with `f` applied to the first channel listed with id `id`.
pub open spec fn modify_channel(
    cats: Seq<CategoryView>,
    id: Seq<char>,
    f: spec_fn(ChannelView) -> ChannelView,
) -> Seq<CategoryView> {
    let i = first_holder(cats, id);
    if i < cats.len() {
        let chs = cats[i].channels;
        let j = first_channel(chs, id);
        cats.update(i, CategoryView { channels: chs.update(j, f(chs[j])), ..cats[i] })
    } else {
        cats
    }
}

/// The first channel listed with id `id`.
pub open spec fn channel_at(cats: Seq<CategoryView>, id: Seq<char>) -> ChannelView {
    let i = first_holder(cats, id);
    cats[i].channels[first_channel(cats[i].channels, id)]
}

pub open spec fn bumped(c: ChannelView, t: u32) -> ChannelView {
    ChannelView {
        badge_count: c.badge_count.saturating_add(1),
        last_sent_timestamp: if t > 0 {
            t as i64
        } else {
            c.last_sent_timestamp
        },
        ..c
    }
}

pub open spec fn read(c: ChannelView) -> ChannelView {
    ChannelView { badge_count: 0, last_seen_timestamp: c.last_sent_timestamp, ..c }
}

pub open spec fn has_voice_member(ms: Seq<VoiceMemberView>, user: Seq<char>) -> bool {
    exists|i: int| 0 <= i < ms.len() && (#[trigger] ms[i]).user_id == user
}

pub open spec fn joined(c: ChannelView, user: Seq<char>) -> ChannelView {
    if has_voice_member(c.voice_members, user) {
        c
    } else {
        ChannelView {
            voice_members: c.voice_members.push(
                VoiceMemberView { user_id: user, display_name: user, avatar_url: Seq::empty() },
            ),
            ..c
        }
    }
}

pub open spec fn left(c: ChannelView, user: Seq<char>) -> ChannelView {
    ChannelView {
        voice_members: c.voice_members.filter(|m: VoiceMemberView| m.user_id != user),
        ..c
    }
}

fn find_clan_holding(clans: &Vec<ClanChannels>, id: &String) -> (k: usize)
    ensures
        k as int == first_clan_holding(clans_view(clans@), id@),
        is_first_clan_holding(clans_view(clans@), id@, k as int),
{
    let ghost cv = clans_view(clans@);
    let mut k: usize = 0;
    while k < clans.len()
        invariant
            cv == clans_view(clans@),
            k <= clans@.len(),
            forall|j: int| 0 <= j < k ==> !any_category_has((#[trigger] cv[j]).1, id@),
        decreases clans@.len() - k,
    {
        let i = crate::channel::find_holder(&clans[k].categories, id);
        proof {
            assert(cv[k as int] == (clans@[k as int].clan_id@, categories_view(
                clans@[k as int].categories@,
            )));
            let cats = cv[k as int].1;
            if any_category_has(cats, id@) {
                let w = choose|w: int| 0 <= w < cats.len() && #[trigger] has_channel_id(cats[w].channels, id@);
                if i as int == cats.len() {
                    assert(!has_channel_id(cats[w].channels, id@));
                }
            }
            if (i as int) < cats.len() {
                assert(has_channel_id(cats[i as int].channels, id@));
            }
        }
        if i < clans[k].categories.len() {
            proof {
                assert(is_first_clan_holding(cv, id@, k as int));
                let c = first_clan_holding(cv, id@);
                assert(is_first_clan_holding(cv, id@, c));
                if c < k {
                    assert(!any_category_has(cv[c].1, id@));
                }
                if k < c {
                    assert(!any_category_has(cv[k as int].1, id@));
                }
            }
            return k;
        }
        k += 1;
    }
    proof {
        assert(is_first_clan_holding(cv, id@, k as int));
        let c = first_clan_holding(cv, id@);
        assert(is_first_clan_holding(cv, id@, c));
        if c < k {
            assert(!any_category_has(cv[c].1, id@));
        }
    }
    k
}

pub(crate) fn find_clan_entry(clans: &Vec<ClanChannels>, clan_id: &String) -> (k: usize)
    ensures
        k as int == clan_entry(clans_view(clans@), clan_id@),
        is_first_clan_entry(clans_view(clans@), clan_id@, k as int),
{
    let ghost cv = clans_view(clans@);
    let mut k: usize = 0;
    while k < clans.len() && !(clans[k].clan_id == *clan_id)
        invariant
            cv == clans_view(clans@),
            k <= clans@.len(),
            forall|j: int| 0 <= j < k ==> (#[trigger] cv[j]).0 != clan_id@,
        decreases clans@.len() - k,
    {
        proof {
            assert(cv[k as int].0 == clans@[k as int].clan_id@);
        }
        k += 1;
    }
    proof {
        if k < clans@.len() {
            assert(cv[k as int].0 == clans@[k as int].clan_id@);
        }
        assert(is_first_clan_entry(cv, clan_id@, k as int));
        let c = clan_entry(cv, clan_id@);
        assert(is_first_clan_entry(cv, clan_id@, c));
        if c < k {
            assert(cv[c].0 != clan_id@);
        }
        if k < c {
            assert(cv[k as int].0 != clan_id@);
        }
    }
    k
}

/// Which change a push makes to one channel.
enum ChannelChange {
    Bump(u32),
    Read,
    Join(String),
    Leave(String),
}

spec fn change_spec(change: ChannelChange, c: ChannelView) -> ChannelView {
    match change {
        ChannelChange::Bump(t) => bumped(c, t),
        ChannelChange::Read => read(c),
        ChannelChange::Join(u) => joined(c, u@),
        ChannelChange::Leave(u) => left(c, u@),
    }
}

fn apply_change(ch: &mut Channel, change: &ChannelChange)
    ensures
        final(ch)@ == change_spec(*change, old(ch)@),
{
    match change {
        ChannelChange::Bump(t) => {
            ch.badge_count = ch.badge_count.saturating_add(1);
            if *t > 0 {
                ch.last_sent_timestamp = *t as i64;
            }
        },
        ChannelChange::Read => {
            ch.badge_count = 0;
            ch.last_seen_timestamp = ch.last_sent_timestamp;
        },
        ChannelChange::Join(u) => {
            let ghost ms = ch.voice_members@.map_values(|m: VoiceMember| m@);
            let mut i: usize = 0;
            let mut present = false;
            while i < ch.voice_members.len() && !present
                invariant
                    ms == ch.voice_members@.map_values(|m: VoiceMember| m@),
                    i <= ch.voice_members@.len(),
                    forall|j: int| 0 <= j < i ==> (#[trigger] ms[j]).user_id != u@,
                    present ==> i < ch.voice_members@.len() && ms[i as int].user_id == u@,
                decreases ch.voice_members@.len() - i + (if present { 0int } else { 1int }),
            {
                proof {
                    assert(ms[i as int] == ch.voice_members@[i as int]@);
                }
                if ch.voice_members[i].user_id == *u {
                    present = true;
                } else {
                    i += 1;
                }
            }
            if !present {
                proof {
                    assert forall|j: int| !(0 <= j < ms.len() && (#[trigger] ms[j]).user_id == u@) by {}
                }
                let m = VoiceMember {
                    user_id: u.clone(),
                    display_name: u.clone(),
                    avatar_url: String::new(),
                };
                let ghost mv = m@;
                ch.voice_members.push(m);
                proof {
                    assert(ch.voice_members@.map_values(|m: VoiceMember| m@) =~= ms.push(mv));
                    assert(mv == VoiceMemberView { user_id: u@, display_name: u@, avatar_url: Seq::empty() });
                }
            }
        },
        ChannelChange::Leave(u) => {
            let ghost ms = ch.voice_members@.map_values(|m: VoiceMember| m@);
            let mut kept: Vec<VoiceMember> = Vec::new();
            let mut i: usize = 0;
            while i < ch.voice_members.len()
                invariant
                    ms == ch.voice_members@.map_values(|m: VoiceMember| m@),
                    i <= ms.len(),
                    kept@.map_values(|m: VoiceMember| m@) == ms.subrange(0, i as int).filter(
                        |m: VoiceMemberView| m.user_id != u@,
                    ),
                decreases ms.len() - i,
            {
                proof {
                    reveal_with_fuel(Seq::filter, 1);
                    assert(ms.subrange(0, i + 1).drop_last() =~= ms.subrange(0, i as int));
                    assert(ms[i as int] == ch.voice_members@[i as int]@);
                }
                if !(ch.voice_members[i].user_id == *u) {
                    let ghost before = kept@.map_values(|m: VoiceMember| m@);
                    let m = ch.voice_members[i].clone();
                    kept.push(m);
                    proof {
                        assert(kept@.map_values(|m: VoiceMember| m@) =~= before.push(ms[i as int]));
                    }
                }
                i += 1;
            }
            proof {
                assert(ms.subrange(0, ms.len() as int) =~= ms);
            }
            ch.voice_members = kept;
        },
    }
}

/// Applies `change` to the first channel listed with id `id`; returns whether there is one.
fn change_first_channel(cats: &mut Vec<Category>, id: &String, change: &ChannelChange) -> (found:
    bool)
    ensures
        found == any_category_has(categories_view(old(cats)@), id@),
        categories_view(final(cats)@) == modify_channel(
            categories_view(old(cats)@),
            id@,
            |c: ChannelView| change_spec(*change, c),
        ),
{
    let ghost cv = categories_view(cats@);
    let i = crate::channel::find_holder(cats, id);
    proof {
        if any_category_has(cv, id@) {
            let w = choose|w: int| 0 <= w < cv.len() && #[trigger] has_channel_id(cv[w].channels, id@);
            if i as int == cv.len() {
                assert(!has_channel_id(cv[w].channels, id@));
            }
        }
    }
    if i == cats.len() {
        return false;
    }
    proof {
        assert(cv[i as int] == cats@[i as int]@);
        assert(has_channel_id(cv[i as int].channels, id@));
    }
    let mut cat = cats.remove(i);
    let j = crate::channel::find_channel_in(&cat.channels, id);
    proof {
        let chs = cv[i as int].channels;
        let w = choose|w: int| 0 <= w < chs.len() && #[trigger] chs[w].id == id@;
        if j as int == chs.len() {
            assert(chs[w].id != id@);
        }
    }
    let ghost chs0 = channels_view(cat.channels@);
    let mut ch = cat.channels.remove(j);
    proof {
        assert(ch@ == chs0[j as int]);
    }
    apply_change(&mut ch, change);
    let ghost chv = ch@;
    cat.channels.insert(j, ch);
    proof {
        assert(channels_view(cat.channels@) =~= chs0.update(j as int, chv));
    }
    let ghost catv = cat@;
    cats.insert(i, cat);
    proof {
        assert(categories_view(cats@) =~= cv.update(i as int, catv));
    }
    true
}


/// Takes the categories of clan entry `k` out, leaving an empty list in their place.
fn take_categories(clans: &mut Vec<ClanChannels>, k: usize) -> (r: Vec<Category>)
    requires
        k < old(clans)@.len(),
    ensures
        r@ == old(clans)@[k as int].categories@,
        final(clans)@.len() == old(clans)@.len(),
        final(clans)@[k as int].clan_id == old(clans)@[k as int].clan_id,
        final(clans)@[k as int].categories@ == Seq::<Category>::empty(),
        forall|j: int| 0 <= j < old(clans)@.len() && j != k ==> #[trigger] final(clans)@[j] == old(clans)@[j],
{
    let mut entry = clans.remove(k);
    let mut cats: Vec<Category> = Vec::new();
    std::mem::swap(&mut cats, &mut entry.categories);
    clans.insert(k, entry);
    cats
}

/// Puts categories back into clan entry `k`.
fn put_categories(clans: &mut Vec<ClanChannels>, k: usize, cats: Vec<Category>)
    requires
        k < old(clans)@.len(),
    ensures
        final(clans)@.len() == old(clans)@.len(),
        final(clans)@[k as int].clan_id == old(clans)@[k as int].clan_id,
        final(clans)@[k as int].categories@ == cats@,
        forall|j: int| 0 <= j < old(clans)@.len() && j != k ==> #[trigger] final(clans)@[j] == old(clans)@[j],
{
    let mut entry = clans.remove(k);
    entry.categories = cats;
    clans.insert(k, entry);
}

proof fn lemma_put_back(
    before: Seq<ClanChannels>,
    after: Seq<ClanChannels>,
    k: int,
    cats: Seq<CategoryView>,
)
    requires
        0 <= k < before.len(),
        after.len() == before.len(),
        after[k].clan_id == before[k].clan_id,
        categories_view(after[k].categories@) == cats,
        forall|j: int| 0 <= j < before.len() && j != k ==> #[trigger] after[j] == before[j],
    ensures
        clans_view(after) == clans_view(before).update(k, (clans_view(before)[k].0, cats)),
{
    assert(clans_view(after) =~= clans_view(before).update(k, (clans_view(before)[k].0, cats)));
}


// ---------------------------------------------------------------------------
// The effect of each push
// ---------------------------------------------------------------------------

/// A message arrived: unless its channel is the one being viewed, the first listing of the
/// channel gets its badge up (saturating) and its last activity at the message time (when
/// known). The flag says whether the channel is unread now (and a redraw is due).
pub open spec fn message_post(
    cs: Seq<(Seq<char>, Seq<CategoryView>)>,
    active: Option<Seq<char>>,
    id: Seq<char>,
    t: u32,
) -> (Seq<(Seq<char>, Seq<CategoryView>)>, bool) {
    let k = first_clan_holding(cs, id);
    if active == Some(id) || k >= cs.len() {
        (cs, false)
    } else {
        (cs.update(k, (cs[k].0, modify_channel(cs[k].1, id, |c: ChannelView| bumped(c, t)))), true)
    }
}

/// The channel was read elsewhere: its first listing has no badge and counts as seen up to
/// its last message.
pub open spec fn read_post(cs: Seq<(Seq<char>, Seq<CategoryView>)>, id: Seq<char>) -> (
    Seq<(Seq<char>, Seq<CategoryView>)>,
    bool,
) {
    let k = first_clan_holding(cs, id);
    if k >= cs.len() {
        (cs, false)
    } else {
        (cs.update(k, (cs[k].0, modify_channel(cs[k].1, id, |c: ChannelView| read(c)))), true)
    }
}

/// A channel was created in a loaded clan: it is inserted into that clan's categories.
pub open spec fn created_post(
    cs: Seq<(Seq<char>, Seq<CategoryView>)>,
    clan_id: Seq<char>,
    ch: ChannelView,
) -> (Seq<(Seq<char>, Seq<CategoryView>)>, bool) {
    let k = clan_entry(cs, clan_id);
    if k >= cs.len() {
        (cs, false)
    } else {
        let (added, cats) = insert_channel_spec(cs[k].1, ch);
        (cs.update(k, (cs[k].0, cats)), added)
    }
}

/// A channel was renamed or changed privacy: the first clan listing it is updated.
pub open spec fn updated_post(
    cs: Seq<(Seq<char>, Seq<CategoryView>)>,
    id: Seq<char>,
    label: Option<Seq<char>>,
    private: bool,
) -> (Seq<(Seq<char>, Seq<CategoryView>)>, bool) {
    let k = first_clan_holding(cs, id);
    if k >= cs.len() {
        (cs, false)
    } else {
        (cs.update(k, (cs[k].0, update_channel_spec(cs[k].1, id, label, private))), true)
    }
}

/// A channel was deleted: it leaves every clan; the flag says whether a regular category of
/// some clan held it.
pub open spec fn deleted_post(cs: Seq<(Seq<char>, Seq<CategoryView>)>, id: Seq<char>) -> (
    Seq<(Seq<char>, Seq<CategoryView>)>,
    bool,
) {
    (
        cs.map_values(
            |e: (Seq<char>, Seq<CategoryView>)| (e.0, remove_channel_spec(e.1, id)),
        ),
        exists|j: int| 0 <= j < cs.len() && removes_from_regular(#[trigger] cs[j].1, id),
    )
}

/// A user joined or left a voice channel of a loaded clan.
pub open spec fn voice_post(
    cs: Seq<(Seq<char>, Seq<CategoryView>)>,
    clan_id: Seq<char>,
    id: Seq<char>,
    user: Seq<char>,
    join: bool,
) -> (Seq<(Seq<char>, Seq<CategoryView>)>, bool) {
    let k = clan_entry(cs, clan_id);
    if k >= cs.len() || !any_category_has(cs[k].1, id) {
        (cs, false)
    } else {
        let present = has_voice_member(channel_at(cs[k].1, id).voice_members, user);
        if join {
            (
                cs.update(k, (cs[k].0, modify_channel(cs[k].1, id, |c: ChannelView| joined(c, user)))),
                !present,
            )
        } else {
            (
                cs.update(k, (cs[k].0, modify_channel(cs[k].1, id, |c: ChannelView| left(c, user)))),
                present,
            )
        }
    }
}

/// The id as the channel list writes it: decimal, and `None` for 0.
pub open spec fn nonzero_id(n: i64) -> Option<Seq<char>> {
    if int_decimal(n as int).len() > 0 && int_decimal(n as int) != zero_id() {
        Some(int_decimal(n as int))
    } else {
        None
    }
}

/// The list entry for a channel announced as created.
pub open spec fn created_channel_view(
    clan_id: i64,
    channel_id: i64,
    label: Seq<char>,
    channel_type: i32,
    channel_private: i32,
    category_id: i64,
    parent_id: i64,
) -> ChannelView {
    ChannelView {
        id: int_decimal(channel_id as int),
        name: label,
        channel_type: channel_type_of(channel_type as u32),
        private: channel_private != 0,
        clan_id: int_decimal(clan_id as int),
        category_name: Seq::empty(),
        category_id: nonzero_id(category_id),
        member_count: 0,
        badge_count: 0,
        muted: false,
        parent_id: nonzero_id(parent_id),
        last_seen_timestamp: 0,
        last_sent_timestamp: 0,
        voice_members: Seq::empty(),
        is_favorite: false,
    }
}

fn nonzero_id_exec(n: i64) -> (r: Option<String>)
    ensures
        opt_view(r) == nonzero_id(n),
{
    let s = i64_to_string(n);
    proof {
        reveal_strlit("0");
        assert("0"@ =~= zero_id());
    }
    if s.as_str().is_empty() || str_eq(s.as_str(), "0") {
        None
    } else {
        Some(s)
    }
}

fn voice_member_present(cats: &Vec<Category>, id: &String, user: &String) -> (r: bool)
    requires
        any_category_has(categories_view(cats@), id@),
    ensures
        r == has_voice_member(channel_at(categories_view(cats@), id@).voice_members, user@),
{
    let ghost cv = categories_view(cats@);
    let i = crate::channel::find_holder(cats, id);
    proof {
        let w = choose|w: int| 0 <= w < cv.len() && #[trigger] has_channel_id(cv[w].channels, id@);
        if i as int == cv.len() {
            assert(!has_channel_id(cv[w].channels, id@));
        }
        assert(cv[i as int] == cats@[i as int]@);
    }
    let j = crate::channel::find_channel_in(&cats[i].channels, id);
    proof {
        let chs = cv[i as int].channels;
        assert(has_channel_id(chs, id@));
        let w = choose|w: int| 0 <= w < chs.len() && #[trigger] chs[w].id == id@;
        if j as int == chs.len() {
            assert(chs[w].id != id@);
        }
        assert(chs[j as int] == cats@[i as int].channels@[j as int]@);
    }
    let ms = &cats[i].channels[j].voice_members;
    let ghost mv = ms@.map_values(|m: VoiceMember| m@);
    proof {
        assert(channel_at(cv, id@) == cats@[i as int].channels@[j as int]@);
    }
    let mut q: usize = 0;
    while q < ms.len()
        invariant
            mv == ms@.map_values(|m: VoiceMember| m@),
            cv == categories_view(cats@),
            channel_at(cv, id@).voice_members == mv,
            q <= ms@.len(),
            forall|p: int| 0 <= p < q ==> (#[trigger] mv[p]).user_id != user@,
        decreases ms@.len() - q,
    {
        proof {
            assert(mv[q as int] == ms@[q as int]@);
        }
        if ms[q].user_id == *user {
            proof {
                assert(channel_at(cv, id@).voice_members == mv);
                assert(mv[q as int].user_id == user@);
                assert(has_voice_member(mv, user@));
            }
            return true;
        }
        q += 1;
    }
    proof {
        assert(channel_at(cv, id@).voice_members == mv);
    }
    false
}

impl ChannelList {
    pub fn new() -> (r: Self)
        ensures
            r.clans@ == Seq::<ClanChannels>::empty(),
            r.active_channel_id is None,
            r.active_clan_id is None,
    {
        ChannelList { clans: Vec::new(), active_clan_id: None, active_channel_id: None }
    }

    /// Applies a change to the first listed channel `id`, in the first clan listing it.
    fn change_channel(&mut self, id: &String, change: &ChannelChange) -> (found: bool)
        ensures
            final(self).active_channel_id == old(self).active_channel_id,
            final(self).active_clan_id == old(self).active_clan_id,
            ({
                let cs = clans_view(old(self).clans@);
                let k = first_clan_holding(cs, id@);
                &&& found == (k < cs.len())
                &&& found ==> clans_view(final(self).clans@) == cs.update(
                    k,
                    (cs[k].0, modify_channel(cs[k].1, id@, |c: ChannelView| change_spec(*change, c))),
                )
                &&& !found ==> clans_view(final(self).clans@) == cs
            }),
    {
        let ghost before = self.clans@;
        let k = find_clan_holding(&self.clans, id);
        if k == self.clans.len() {
            return false;
        }
        let mut cats = take_categories(&mut self.clans, k);
        let ghost mid = self.clans@;
        let f = change_first_channel(&mut cats, id, change);
        proof {
            assert(clans_view(before)[k as int].1 == categories_view(before[k as int].categories@));
        }
        put_categories(&mut self.clans, k, cats);
        proof {
            assert forall|j: int| 0 <= j < before.len() && j != k implies #[trigger] self.clans@[j]
                == before[j] by {
                assert(self.clans@[j] == mid[j]);
            }
            lemma_put_back(
                before,
                self.clans@,
                k as int,
                categories_view(self.clans@[k as int].categories@),
            );
        }
        true
    }

    /// A message arrived (see `message_post`); observers learn the channel is unread.
    pub fn on_channel_message(&mut self, channel_id: &str, create_time_seconds: u32) -> (r:
        EventOutcome)
        ensures
            final(self).active_channel_id == old(self).active_channel_id,
            final(self).active_clan_id == old(self).active_clan_id,
            (clans_view(final(self).clans@), r.notify) == message_post(
                clans_view(old(self).clans@),
                opt_view(old(self).active_channel_id),
                channel_id@,
                create_time_seconds,
            ),
            r.notify ==> (r.event matches Some(ChannelEvent::Unread(u)) && u@ == channel_id@),
            !r.notify ==> r.event is None,
    {
        let id = owned(channel_id);
        let viewed = match &self.active_channel_id {
            Some(a) => *a == id,
            None => false,
        };
        if viewed {
            return EventOutcome { notify: false, event: None };
        }
        let change = ChannelChange::Bump(create_time_seconds);
        let changed = self.change_channel(&id, &change);
        proof {
            let cs = clans_view(old(self).clans@);
            let k = first_clan_holding(cs, channel_id@);
            if changed {
                assert(modify_channel(cs[k].1, channel_id@, |c: ChannelView| change_spec(change, c))
                    =~= modify_channel(
                    cs[k].1,
                    channel_id@,
                    |c: ChannelView| bumped(c, create_time_seconds),
                ));
            }
        }
        if changed {
            EventOutcome { notify: true, event: Some(ChannelEvent::Unread(id)) }
        } else {
            EventOutcome { notify: false, event: None }
        }
    }

    /// The channel was read elsewhere (see `read_post`).
    pub fn on_mark_as_read(&mut self, channel_id: &str) -> (changed: bool)
        ensures
            final(self).active_channel_id == old(self).active_channel_id,
            final(self).active_clan_id == old(self).active_clan_id,
            (clans_view(final(self).clans@), changed) == read_post(
                clans_view(old(self).clans@),
                channel_id@,
            ),
    {
        let id = owned(channel_id);
        let change = ChannelChange::Read;
        let changed = self.change_channel(&id, &change);
        proof {
            let cs = clans_view(old(self).clans@);
            let k = first_clan_holding(cs, channel_id@);
            if changed {
                assert(modify_channel(cs[k].1, channel_id@, |c: ChannelView| change_spec(change, c))
                    =~= modify_channel(cs[k].1, channel_id@, |c: ChannelView| read(c)));
            }
        }
        changed
    }

    /// A channel was created (see `created_post`). Returns whether it was added.
    pub fn on_channel_created(&mut self, clan_id: &str, channel: Channel) -> (added: bool)
        ensures
            final(self).active_channel_id == old(self).active_channel_id,
            final(self).active_clan_id == old(self).active_clan_id,
            (clans_view(final(self).clans@), added) == created_post(
                clans_view(old(self).clans@),
                clan_id@,
                channel@,
            ),
    {
        let ghost before = self.clans@;
        let key = owned(clan_id);
        let k = find_clan_entry(&self.clans, &key);
        if k == self.clans.len() {
            return false;
        }
        let mut cats = take_categories(&mut self.clans, k);
        let ghost mid = self.clans@;
        let added = insert_channel(&mut cats, channel);
        put_categories(&mut self.clans, k, cats);
        proof {
            assert forall|j: int| 0 <= j < before.len() && j != k implies #[trigger] self.clans@[j]
                == before[j] by {
                assert(self.clans@[j] == mid[j]);
            }
            lemma_put_back(
                before,
                self.clans@,
                k as int,
                categories_view(self.clans@[k as int].categories@),
            );
        }
        added
    }

    /// A channel was renamed or changed privacy (see `updated_post`).
    pub fn on_channel_updated(&mut self, channel_id: &str, label: Option<String>, private: bool) -> (changed: bool)
        ensures
            final(self).active_channel_id == old(self).active_channel_id,
            final(self).active_clan_id == old(self).active_clan_id,
            (clans_view(final(self).clans@), changed) == updated_post(
                clans_view(old(self).clans@),
                channel_id@,
                opt_view(label),
                private,
            ),
    {
        let ghost before = self.clans@;
        let id = owned(channel_id);
        let k = find_clan_holding(&self.clans, &id);
        if k == self.clans.len() {
            return false;
        }
        let mut cats = take_categories(&mut self.clans, k);
        let ghost mid = self.clans@;
        let found = update_channel(&mut cats, channel_id, label, private);
        put_categories(&mut self.clans, k, cats);
        proof {
            assert forall|j: int| 0 <= j < before.len() && j != k implies #[trigger] self.clans@[j]
                == before[j] by {
                assert(self.clans@[j] == mid[j]);
            }
            lemma_put_back(
                before,
                self.clans@,
                k as int,
                categories_view(self.clans@[k as int].categories@),
            );
        }
        true
    }

    /// A channel was deleted (see `deleted_post`); when it was the channel being viewed and a
    /// regular category held it, nothing is viewed any more and observers learn so.
    pub fn on_channel_deleted(&mut self, channel_id: &str) -> (r: EventOutcome)
        ensures
            (clans_view(final(self).clans@), r.notify) == deleted_post(
                clans_view(old(self).clans@),
                channel_id@,
            ),
            ({
                let cleared = r.notify && opt_view(old(self).active_channel_id) == Some(channel_id@);
                &&& cleared ==> final(self).active_channel_id is None && (r.event matches Some(
                    ChannelEvent::ActiveChannelChanged(None),
                ))
                &&& !cleared ==> final(self).active_channel_id == old(self).active_channel_id
                    && r.event is None
            }),
    {
        let ghost cs = clans_view(self.clans@);
        let ghost before = self.clans@;
        let mut removed = false;
        let mut k: usize = 0;
        while k < self.clans.len()
            invariant
                self.clans@.len() == before.len(),
                cs == clans_view(before),
                self.active_channel_id == old(self).active_channel_id,
                k <= before.len(),
                forall|j: int| 0 <= j < k ==> #[trigger] clans_view(self.clans@)[j] == (
                    cs[j].0,
                    remove_channel_spec(cs[j].1, channel_id@),
                ),
                forall|j: int| k <= j < before.len() ==> #[trigger] self.clans@[j] == before[j],
                removed == (exists|j: int| 0 <= j < k && removes_from_regular(#[trigger] cs[j].1, channel_id@)),
            decreases before.len() - k,
        {
            let ghost pre = self.clans@;
            let mut cats = take_categories(&mut self.clans, k);
            let ghost mid = self.clans@;
            proof {
                assert(cs[k as int].1 == categories_view(before[k as int].categories@));
            }
            let r = remove_channel(&mut cats, channel_id);
            put_categories(&mut self.clans, k, cats);
            proof {
                assert forall|j: int| 0 <= j < before.len() && j != k implies #[trigger] self.clans@[j]
                    == pre[j] by {
                    assert(self.clans@[j] == mid[j]);
                }
                lemma_put_back(
                    pre,
                    self.clans@,
                    k as int,
                    categories_view(self.clans@[k as int].categories@),
                );
                assert forall|j: int| 0 <= j < k + 1 implies #[trigger] clans_view(self.clans@)[j] == (
                    cs[j].0,
                    remove_channel_spec(cs[j].1, channel_id@),
                ) by {
                    if j < k {
                        assert(clans_view(self.clans@)[j] == clans_view(pre)[j]);
                    }
                }
                if r {
                    assert(removes_from_regular(cs[k as int].1, channel_id@));
                }
                if exists|j: int| 0 <= j < k + 1 && removes_from_regular(#[trigger] cs[j].1, channel_id@) {
                    let w = choose|j: int| 0 <= j < k + 1 && removes_from_regular(#[trigger] cs[j].1, channel_id@);
                    if w < k {
                        assert(exists|j: int| 0 <= j < k && removes_from_regular(#[trigger] cs[j].1, channel_id@));
                    }
                }
            }
            removed = removed || r;
            k += 1;
        }
        proof {
            assert(clans_view(self.clans@) =~= cs.map_values(
                |e: (Seq<char>, Seq<CategoryView>)| (e.0, remove_channel_spec(e.1, channel_id@)),
            ));
        }
        if removed {
            let id = owned(channel_id);
            let viewed = match &self.active_channel_id {
                Some(a) => *a == id,
                None => false,
            };
            if viewed {
                self.active_channel_id = None;
                return EventOutcome { notify: true, event: Some(ChannelEvent::ActiveChannelChanged(None)) };
            }
        }
        EventOutcome { notify: removed, event: None }
    }

    /// A user joined (`join`) or left a voice channel (see `voice_post`).
    pub fn on_voice(&mut self, clan_id: &str, channel_id: &str, user_id: &str, join: bool) -> (changed: bool)
        ensures
            final(self).active_channel_id == old(self).active_channel_id,
            final(self).active_clan_id == old(self).active_clan_id,
            (clans_view(final(self).clans@), changed) == voice_post(
                clans_view(old(self).clans@),
                clan_id@,
                channel_id@,
                user_id@,
                join,
            ),
    {
        let ghost before = self.clans@;
        let ghost cs = clans_view(before);
        let key = owned(clan_id);
        let id = owned(channel_id);
        let user = owned(user_id);
        let k = find_clan_entry(&self.clans, &key);
        if k == self.clans.len() {
            return false;
        }
        proof {
            assert(cs[k as int].1 == categories_view(before[k as int].categories@));
        }
        let listed = crate::channel::find_holder(&self.clans[k].categories, &id) < self.clans[k].categories.len();
        proof {
            let cats = cs[k as int].1;
            let i = first_holder(cats, id@);
            assert(is_first_holder(cats, id@, i));
            if any_category_has(cats, id@) {
                let w = choose|w: int| 0 <= w < cats.len() && #[trigger] has_channel_id(cats[w].channels, id@);
                if i == cats.len() {
                    assert(!has_channel_id(cats[w].channels, id@));
                }
            }
            if i < cats.len() {
                assert(has_channel_id(cats[i].channels, id@));
            }
        }
        if !listed {
            return false;
        }
        let present = voice_member_present(&self.clans[k].categories, &id, &user);
        let mut cats = take_categories(&mut self.clans, k);
        let ghost mid = self.clans@;
        let change = if join {
            ChannelChange::Join(user)
        } else {
            ChannelChange::Leave(user)
        };
        let _ = change_first_channel(&mut cats, &id, &change);
        put_categories(&mut self.clans, k, cats);
        proof {
            assert forall|j: int| 0 <= j < before.len() && j != k implies #[trigger] self.clans@[j]
                == before[j] by {
                assert(self.clans@[j] == mid[j]);
            }
            lemma_put_back(
                before,
                self.clans@,
                k as int,
                categories_view(self.clans@[k as int].categories@),
            );
            if join {
                assert(modify_channel(cs[k as int].1, id@, |c: ChannelView| change_spec(change, c))
                    =~= modify_channel(cs[k as int].1, id@, |c: ChannelView| joined(c, user_id@)));
            } else {
                assert(modify_channel(cs[k as int].1, id@, |c: ChannelView| change_spec(change, c))
                    =~= modify_channel(cs[k as int].1, id@, |c: ChannelView| left(c, user_id@)));
            }
        }
        if join {
            !present
        } else {
            present
        }
    }

    /// Reacts to a server push (see the `*_post` functions for each kind), with the ids
    /// written in decimal.
    pub fn handle_event(&mut self, event: &ChannelListEvent) -> (r: EventOutcome)
        ensures
            ({
                let cs = clans_view(old(self).clans@);
                let after = clans_view(final(self).clans@);
                let same_active = final(self).active_channel_id == old(self).active_channel_id;
                match *event {
                    ChannelListEvent::ChannelMessage { channel_id, create_time_seconds } => {
                        &&& (after, r.notify) == message_post(
                            cs,
                            opt_view(old(self).active_channel_id),
                            int_decimal(channel_id as int),
                            create_time_seconds,
                        )
                        &&& r.notify ==> (r.event matches Some(ChannelEvent::Unread(u)) && u@
                            == int_decimal(channel_id as int))
                        &&& !r.notify ==> r.event is None
                        &&& same_active
                    },
                    ChannelListEvent::MarkAsRead { channel_id } => {
                        &&& (after, r.notify) == read_post(cs, int_decimal(channel_id as int))
                        &&& r.event is None
                        &&& same_active
                    },
                    ChannelListEvent::ChannelCreated {
                        clan_id,
                        channel_id,
                        channel_label,
                        channel_type,
                        channel_private,
                        category_id,
                        parent_id,
                    } => {
                        &&& (after, r.notify) == created_post(
                            cs,
                            int_decimal(clan_id as int),
                            created_channel_view(
                                clan_id,
                                channel_id,
                                channel_label@,
                                channel_type,
                                channel_private,
                                category_id,
                                parent_id,
                            ),
                        )
                        &&& r.event is None
                        &&& same_active
                    },
                    ChannelListEvent::ChannelUpdated { channel_id, channel_label, channel_private } => {
                        &&& (after, r.notify) == updated_post(
                            cs,
                            int_decimal(channel_id as int),
                            if channel_label@.len() > 0 {
                                Some(channel_label@)
                            } else {
                                None
                            },
                            channel_private,
                        )
                        &&& r.event is None
                        &&& same_active
                    },
                    ChannelListEvent::ChannelDeleted { channel_id } => {
                        let id = int_decimal(channel_id as int);
                        let cleared = r.notify && opt_view(old(self).active_channel_id) == Some(id);
                        &&& (after, r.notify) == deleted_post(cs, id)
                        &&& cleared ==> final(self).active_channel_id is None && (r.event matches Some(
                            ChannelEvent::ActiveChannelChanged(None),
                        ))
                        &&& !cleared ==> same_active && r.event is None
                    },
                    ChannelListEvent::VoiceJoined { clan_id, voice_channel_id, user_id } => {
                        &&& (after, r.notify) == voice_post(
                            cs,
                            int_decimal(clan_id as int),
                            int_decimal(voice_channel_id as int),
                            int_decimal(user_id as int),
                            true,
                        )
                        &&& r.event is None
                        &&& same_active
                    },
                    ChannelListEvent::VoiceLeaved { clan_id, voice_channel_id, voice_user_id } => {
                        &&& (after, r.notify) == voice_post(
                            cs,
                            int_decimal(clan_id as int),
                            int_decimal(voice_channel_id as int),
                            int_decimal(voice_user_id as int),
                            false,
                        )
                        &&& r.event is None
                        &&& same_active
                    },
                }
            }),
    {
        match event {
            ChannelListEvent::ChannelMessage { channel_id, create_time_seconds } => {
                let id = i64_to_string(*channel_id);
                self.on_channel_message(id.as_str(), *create_time_seconds)
            },
            ChannelListEvent::MarkAsRead { channel_id } => {
                let id = i64_to_string(*channel_id);
                let changed = self.on_mark_as_read(id.as_str());
                EventOutcome { notify: changed, event: None }
            },
            ChannelListEvent::ChannelCreated {
                clan_id,
                channel_id,
                channel_label,
                channel_type,
                channel_private,
                category_id,
                parent_id,
            } => {
                let clan = i64_to_string(*clan_id);
                let channel = Channel {
                    id: i64_to_string(*channel_id),
                    name: channel_label.clone(),
                    channel_type: ChannelType::from_raw(*channel_type as u32),
                    private: *channel_private != 0,
                    clan_id: clan.clone(),
                    category_name: String::new(),
                    category_id: nonzero_id_exec(*category_id),
                    member_count: 0,
                    badge_count: 0,
                    muted: false,
                    parent_id: nonzero_id_exec(*parent_id),
                    last_seen_timestamp: 0,
                    last_sent_timestamp: 0,
                    voice_members: Vec::new(),
                    is_favorite: false,
                };
                proof {
                    assert(channel@.voice_members =~= Seq::<VoiceMemberView>::empty());
                }
                let added = self.on_channel_created(clan.as_str(), channel);
                EventOutcome { notify: added, event: None }
            },
            ChannelListEvent::ChannelUpdated { channel_id, channel_label, channel_private } => {
                let id = i64_to_string(*channel_id);
                let label = if channel_label.as_str().is_empty() {
                    None
                } else {
                    Some(channel_label.clone())
                };
                let changed = self.on_channel_updated(id.as_str(), label, *channel_private);
                EventOutcome { notify: changed, event: None }
            },
            ChannelListEvent::ChannelDeleted { channel_id } => {
                let id = i64_to_string(*channel_id);
                self.on_channel_deleted(id.as_str())
            },
            ChannelListEvent::VoiceJoined { clan_id, voice_channel_id, user_id } => {
                let clan = i64_to_string(*clan_id);
                let ch = i64_to_string(*voice_channel_id);
                let user = i64_to_string(*user_id);
                let changed = self.on_voice(clan.as_str(), ch.as_str(), user.as_str(), true);
                EventOutcome { notify: changed, event: None }
            },
            ChannelListEvent::VoiceLeaved { clan_id, voice_channel_id, voice_user_id } => {
                let clan = i64_to_string(*clan_id);
                let ch = i64_to_string(*voice_channel_id);
                let user = i64_to_string(*voice_user_id);
                let changed = self.on_voice(clan.as_str(), ch.as_str(), user.as_str(), false);
                EventOutcome { notify: changed, event: None }
            },
        }
    }
}

// ---------------------------------------------------------------------------
// Queries
// ---------------------------------------------------------------------------

/// The categories of clan `clan_id`, none when it is not loaded.
pub open spec fn clan_categories_of(cs: Seq<(Seq<char>, Seq<CategoryView>)>, clan_id: Seq<char>) -> Seq<
    CategoryView,
> {
    let k = clan_entry(cs, clan_id);
    if k < cs.len() {
        cs[k].1
    } else {
        Seq::empty()
    }
}

/// The first text channel of `chs`.
pub open spec fn first_text_in(chs: Seq<ChannelView>) -> Option<Seq<char>>
    decreases chs.len(),
{
    if chs.len() == 0 {
        None
    } else if chs[0].channel_type is Text {
        Some(chs[0].id)
    } else {
        first_text_in(chs.drop_first())
    }
}

/// The channel a clan opens on: its first text channel outside the favorites category.
pub open spec fn default_channel_spec(cats: Seq<CategoryView>) -> Option<Seq<char>>
    decreases cats.len(),
{
    if cats.len() == 0 {
        None
    } else {
        let here = if cats[0].id == favor_cate_id() {
            None
        } else {
            first_text_in(cats[0].channels)
        };
        if here is Some {
            here
        } else {
            default_channel_spec(cats.drop_first())
        }
    }
}

fn first_text_exec(chs: &Vec<Channel>) -> (r: Option<String>)
    ensures
        opt_view(r) == first_text_in(channels_view(chs@)),
{
    let ghost cv = channels_view(chs@);
    let mut i: usize = 0;
    proof {
        assert(cv.subrange(0, cv.len() as int) =~= cv);
    }
    while i < chs.len()
        invariant
            cv == channels_view(chs@),
            i <= chs@.len(),
            first_text_in(cv) == first_text_in(cv.subrange(i as int, cv.len() as int)),
        decreases chs@.len() - i,
    {
        let ghost rest = cv.subrange(i as int, cv.len() as int);
        proof {
            assert(rest[0] == chs@[i as int]@);
            assert(rest.drop_first() =~= cv.subrange(i + 1, cv.len() as int));
        }
        match chs[i].channel_type {
            ChannelType::Text => {
                return Some(chs[i].id.clone());
            },
            _ => {},
        }
        i += 1;
    }
    proof {
        assert(cv.subrange(i as int, cv.len() as int) =~= Seq::<ChannelView>::empty());
    }
    None
}

pub(crate) fn default_channel_in(cats: &Vec<Category>) -> (r: Option<String>)
    ensures
        opt_view(r) == default_channel_spec(categories_view(cats@)),
{
    let ghost cv = categories_view(cats@);
    let fav = favor_cate_id_string();
    let mut i: usize = 0;
    proof {
        assert(cv.subrange(0, cv.len() as int) =~= cv);
    }
    while i < cats.len()
        invariant
            cv == categories_view(cats@),
            fav@ == favor_cate_id(),
            i <= cats@.len(),
            default_channel_spec(cv) == default_channel_spec(cv.subrange(i as int, cv.len() as int)),
        decreases cats@.len() - i,
    {
        let ghost rest = cv.subrange(i as int, cv.len() as int);
        proof {
            assert(rest[0] == cats@[i as int]@);
            assert(rest.drop_first() =~= cv.subrange(i + 1, cv.len() as int));
        }
        if !(cats[i].id == fav) {
            let here = first_text_exec(&cats[i].channels);
            if here.is_some() {
                return here;
            }
        }
        i += 1;
    }
    proof {
        assert(cv.subrange(i as int, cv.len() as int) =~= Seq::<CategoryView>::empty());
    }
    None
}

/// Which categories are collapsed, as pairs of clan id and category id; each pair once.
pub struct CollapsedCategories {
    pub pairs: Vec<(String, String)>,
}

pub open spec fn pairs_view(v: Seq<(String, String)>) -> Seq<(Seq<char>, Seq<char>)> {
    v.map_values(|p: (String, String)| (p.0@, p.1@))
}

impl CollapsedCategories {
    pub open spec fn view_set(&self) -> Set<(Seq<char>, Seq<char>)> {
        pairs_view(self.pairs@).to_set()
    }

    pub open spec fn wf(&self) -> bool {
        pairs_view(self.pairs@).no_duplicates()
    }

    pub fn new() -> (r: Self)
        ensures
            r.wf(),
            r.view_set() == Set::<(Seq<char>, Seq<char>)>::empty(),
            r.pairs@.len() == 0,
    {
        let r = CollapsedCategories { pairs: Vec::new() };
        proof {
            assert(pairs_view(r.pairs@) =~= Seq::<(Seq<char>, Seq<char>)>::empty());
            assert(r.view_set() =~= Set::<(Seq<char>, Seq<char>)>::empty());
        }
        r
    }

    fn position(&self, clan_id: &str, cat_id: &str) -> (r: usize)
        ensures
            r <= self.pairs@.len(),
            forall|j: int| 0 <= j < r ==> (#[trigger] pairs_view(self.pairs@)[j]) != (clan_id@, cat_id@),
            r < self.pairs@.len() ==> pairs_view(self.pairs@)[r as int] == (clan_id@, cat_id@),
    {
        let ghost pv = pairs_view(self.pairs@);
        let mut i: usize = 0;
        while i < self.pairs.len()
            invariant
                pv == pairs_view(self.pairs@),
                i <= self.pairs@.len(),
                forall|j: int| 0 <= j < i ==> (#[trigger] pv[j]) != (clan_id@, cat_id@),
            decreases self.pairs@.len() - i,
        {
            if str_eq(self.pairs[i].0.as_str(), clan_id) && str_eq(self.pairs[i].1.as_str(), cat_id) {
                return i;
            }
            i += 1;
        }
        i
    }

    /// Whether category `cat_id` of clan `clan_id` is collapsed (not, by default).
    pub fn is_category_collapsed(&self, clan_id: &str, cat_id: &str) -> (r: bool)
        ensures
            r == self.view_set().contains((clan_id@, cat_id@)),
    {
        let i = self.position(clan_id, cat_id);
        proof {
            let pv = pairs_view(self.pairs@);
            if pv.to_set().contains((clan_id@, cat_id@)) {
                let j = choose|j: int| 0 <= j < pv.len() && pv[j] == (clan_id@, cat_id@);
            }
            if i < self.pairs@.len() {
                assert(pv.contains(pv[i as int]));
            }
        }
        i < self.pairs.len()
    }

    /// Collapses the category when it is expanded, and expands it when collapsed.
    pub fn toggle_category(&mut self, clan_id: &str, cat_id: &str)
        requires
            old(self).wf(),
        ensures
            final(self).wf(),
            old(self).view_set().contains((clan_id@, cat_id@)) ==> final(self).view_set() == old(self).view_set().remove(
                (clan_id@, cat_id@),
            ),
            !old(self).view_set().contains((clan_id@, cat_id@)) ==> final(self).view_set() == old(self).view_set().insert(
                (clan_id@, cat_id@),
            ),
    {
        let ghost pv = pairs_view(self.pairs@);
        let ghost key = (clan_id@, cat_id@);
        let i = self.position(clan_id, cat_id);
        if i < self.pairs.len() {
            self.pairs.remove(i);
            proof {
                let nv = pairs_view(self.pairs@);
                assert(nv =~= pv.remove(i as int));
                assert(pv.contains(pv[i as int]));
                assert forall|x| nv.to_set().contains(x) <==> pv.to_set().remove(key).contains(x) by {
                    if nv.contains(x) {
                        let j = choose|j: int| 0 <= j < nv.len() && nv[j] == x;
                        if j < i {
                            assert(pv[j] == x);
                        } else {
                            assert(pv[j + 1] == x);
                        }
                    }
                    if pv.contains(x) && x != key {
                        let j = choose|j: int| 0 <= j < pv.len() && pv[j] == x;
                        if j < i {
                            assert(nv[j] == x);
                        } else {
                            assert(j != i);
                            assert(nv[j - 1] == x);
                        }
                    }
                }
                assert(nv.to_set() =~= pv.to_set().remove(key));
            }
        } else {
            self.pairs.push((owned(clan_id), owned(cat_id)));
            proof {
                let nv = pairs_view(self.pairs@);
                assert(nv =~= pv.push(key));
                assert(!pv.contains(key));
                assert forall|x| nv.to_set().contains(x) <==> pv.to_set().insert(key).contains(x) by {
                    if nv.contains(x) {
                        let j = choose|j: int| 0 <= j < nv.len() && nv[j] == x;
                        if j < pv.len() {
                            assert(pv[j] == x);
                        }
                    }
                    if pv.contains(x) {
                        let j = choose|j: int| 0 <= j < pv.len() && pv[j] == x;
                        assert(nv[j] == x);
                    }
                    if x == key {
                        assert(nv[pv.len() as int] == key);
                    }
                }
                assert(nv.to_set() =~= pv.to_set().insert(key));
            }
        }
    }
}

impl ChannelList {
    /// The categories of clan `clan_id`; none when it is not loaded.
    pub fn categories_for_clan(&self, clan_id: &str) -> (r: &[Category])
        ensures
            categories_view(r@) == clan_categories_of(clans_view(self.clans@), clan_id@),
    {
        let key = owned(clan_id);
        let k = find_clan_entry(&self.clans, &key);
        if k < self.clans.len() {
            proof {
                assert(clans_view(self.clans@)[k as int].1 == categories_view(self.clans@[k as int].categories@));
            }
            self.clans[k].categories.as_slice()
        } else {
            let empty: &[Category] = &[];
            proof {
                assert(categories_view(empty@) =~= Seq::<CategoryView>::empty());
            }
            empty
        }
    }

    /// Whether clan `clan_id` lists channel `channel_id`.
    pub fn channel_in_clan(&self, clan_id: &str, channel_id: &str) -> (r: bool)
        ensures
            r == any_category_has(clan_categories_of(clans_view(self.clans@), clan_id@), channel_id@),
    {
        let key = owned(clan_id);
        let k = find_clan_entry(&self.clans, &key);
        if k < self.clans.len() {
            proof {
                assert(clans_view(self.clans@)[k as int].1 == categories_view(self.clans@[k as int].categories@));
            }
            crate::channel::category_has_channel(&self.clans[k].categories, &owned(channel_id))
        } else {
            false
        }
    }

    /// The channel clan `clan_id` opens on (see `default_channel_spec`).
    pub fn default_channel_id(&self, clan_id: &str) -> (r: Option<String>)
        ensures
            opt_view(r) == default_channel_spec(clan_categories_of(clans_view(self.clans@), clan_id@)),
    {
        let key = owned(clan_id);
        let k = find_clan_entry(&self.clans, &key);
        if k < self.clans.len() {
            proof {
                assert(clans_view(self.clans@)[k as int].1 == categories_view(self.clans@[k as int].categories@));
            }
            default_channel_in(&self.clans[k].categories)
        } else {
            None
        }
    }

    /// The categories of the active clan.
    pub open spec fn active_categories_spec(&self) -> Seq<CategoryView> {
        match self.active_clan_id {
            Some(c) => clan_categories_of(clans_view(self.clans@), c@),
            None => Seq::empty(),
        }
    }

    /// The first channel of the active clan with id `channel_id`.
    pub fn find_channel(&self, channel_id: &str) -> (r: Option<&Channel>)
        ensures
            r is Some == any_category_has(self.active_categories_spec(), channel_id@),
            r matches Some(c) ==> c@ == channel_at(self.active_categories_spec(), channel_id@),
    {
        let cats = match &self.active_clan_id {
            Some(c) => self.categories_for_clan(c.as_str()),
            None => {
                return None;
            },
        };
        let id = owned(channel_id);
        let ghost cv = categories_view(cats@);
        assert(cv == self.active_categories_spec());
        let mut i: usize = 0;
        while i < cats.len()
            invariant
                cv == categories_view(cats@),
                cv == self.active_categories_spec(),
                id@ == channel_id@,
                i <= cats@.len(),
                forall|j: int| 0 <= j < i ==> !has_channel_id((#[trigger] cv[j]).channels, id@),
            decreases cats@.len() - i,
        {
            let k = crate::channel::find_channel_in(&cats[i].channels, &id);
            proof {
                assert(cv[i as int] == cats@[i as int]@);
                let chs = cv[i as int].channels;
                if has_channel_id(chs, id@) {
                    let w = choose|w: int| 0 <= w < chs.len() && #[trigger] chs[w].id == id@;
                    if k as int == chs.len() {
                        assert(chs[w].id != id@);
                    }
                }
            }
            if k < cats[i].channels.len() {
                proof {
                    assert(is_first_holder(cv, id@, i as int));
                    let c = first_holder(cv, id@);
                    assert(is_first_holder(cv, id@, c));
                    if c < i {
                        assert(!has_channel_id(cv[c].channels, id@));
                    }
                    if i < c {
                        assert(!has_channel_id(cv[i as int].channels, id@));
                    }
                    assert(has_channel_id(cv[i as int].channels, id@));
                    assert(first_holder(cv, id@) == i);
                    assert(cv[i as int].channels == channels_view(cats@[i as int].channels@));
                    assert(cats@[i as int].channels@[k as int]@ == cv[i as int].channels[k as int]);
                }
                return Some(&cats[i].channels[k]);
            }
            i += 1;
        }
        proof {
            if any_category_has(cv, id@) {
                let w = choose|w: int| 0 <= w < cv.len() && #[trigger] has_channel_id(cv[w].channels, id@);
                assert(!has_channel_id(cv[w].channels, id@));
            }
        }
        None
    }

    /// The channel being viewed, in the active clan.
    pub fn active_channel(&self) -> (r: Option<&Channel>)
        ensures
            self.active_channel_id is None ==> r is None,
            self.active_channel_id matches Some(a) ==> {
                &&& r is Some == any_category_has(self.active_categories_spec(), a@)
                &&& r matches Some(c) ==> c@ == channel_at(self.active_categories_spec(), a@)
            },
    {
        match &self.active_channel_id {
            Some(a) => self.find_channel(a.as_str()),
            None => None,
        }
    }

    /// Clan `clan_id` becomes the active one.
    pub fn set_active_clan(&mut self, clan_id: &str)
        ensures
            opt_view(final(self).active_clan_id) == Some(clan_id@),
            final(self).clans == old(self).clans,
            final(self).active_channel_id == old(self).active_channel_id,
    {
        self.active_clan_id = Some(owned(clan_id));
    }

    /// The channel lists of clan `clan_id` arrived: they replace the clan's entry, or are
    /// added.
    pub fn insert_clan(&mut self, clan_id: String, categories: Vec<Category>)
        ensures
            final(self).active_clan_id == old(self).active_clan_id,
            final(self).active_channel_id == old(self).active_channel_id,
            ({
                let cs = clans_view(old(self).clans@);
                let k = clan_entry(cs, clan_id@);
                let e = (clan_id@, categories_view(categories@));
                clans_view(final(self).clans@) == if k < cs.len() {
                    cs.update(k, e)
                } else {
                    cs.push(e)
                }
            }),
    {
        let ghost cs = clans_view(self.clans@);
        let ghost e = (clan_id@, categories_view(categories@));
        let k = find_clan_entry(&self.clans, &clan_id);
        let entry = ClanChannels { clan_id, categories };
        if k < self.clans.len() {
            self.clans.set(k, entry);
            proof {
                assert(clans_view(self.clans@) =~= cs.update(k as int, e));
            }
        } else {
            self.clans.push(entry);
            proof {
                assert(clans_view(self.clans@) =~= cs.push(e));
            }
        }
    }

    /// The user opens channel `id`: unless it is already the one viewed, it becomes so and is
    /// marked read (see `read_post`). Returns whether it changed.
    pub fn select_channel(&mut self, id: &str) -> (changed: bool)
        ensures
            final(self).active_clan_id == old(self).active_clan_id,
            opt_view(old(self).active_channel_id) == Some(id@) ==> !changed && *final(self) == *old(self),
            opt_view(old(self).active_channel_id) != Some(id@) ==> {
                &&& changed
                &&& opt_view(final(self).active_channel_id) == Some(id@)
                &&& clans_view(final(self).clans@) == read_post(clans_view(old(self).clans@), id@).0
            },
    {
        let same = match &self.active_channel_id {
            Some(a) => str_eq(a.as_str(), id),
            None => false,
        };
        if same {
            return false;
        }
        self.active_channel_id = Some(owned(id));
        self.on_mark_as_read(id);
        true
    }
}

/// Toggling a category twice leaves the collapsed set as it was.
pub proof fn law_toggle_twice(set: Set<(Seq<char>, Seq<char>)>, key: (Seq<char>, Seq<char>))
    ensures
        ({
            let once = if set.contains(key) {
                set.remove(key)
            } else {
                set.insert(key)
            };
            let twice = if once.contains(key) {
                once.remove(key)
            } else {
                once.insert(key)
            };
            twice == set
        }),
{
    let once = if set.contains(key) {
        set.remove(key)
    } else {
        set.insert(key)
    };
    if set.contains(key) {
        assert(once.insert(key) =~= set);
    } else {
        assert(once.remove(key) =~= set);
    }
}

} // verus!
