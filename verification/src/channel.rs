use std::collections::HashSet;

use vstd::prelude::*;

use crate::text::{chars_less, chars_of, clone_opt_string, opt_view, owned, seq_less};

verus! {

/// Id of the synthetic category that lists a clan's favorite channels first.
pub const FAVOR_CATE_ID: &'static str = "favorCate";

pub open spec fn favor_cate_id() -> Seq<char> {
    seq!['f', 'a', 'v', 'o', 'r', 'C', 'a', 't', 'e']
}

pub open spec fn general_name() -> Seq<char> {
    seq!['G', 'e', 'n', 'e', 'r', 'a', 'l']
}

pub open spec fn zero_id() -> Seq<char> {
    seq!['0']
}

pub fn favor_cate_id_string() -> (r: String)
    ensures
        r@ == favor_cate_id(),
{
    proof {
        reveal_strlit("favorCate");
    }
    owned(FAVOR_CATE_ID)
}

pub(crate) fn general_string() -> (r: String)
    ensures
        r@ == general_name(),
{
    proof {
        reveal_strlit("General");
    }
    owned("General")
}

pub(crate) fn zero_string() -> (r: String)
    ensures
        r@ == zero_id(),
{
    proof {
        reveal_strlit("0");
    }
    owned("0")
}

/// The kind of a clan channel, from its wire number.
#[derive(Debug, Clone, Copy, PartialEq, Eq, Hash, Structural)]
pub enum ChannelType {
    Text,
    Voice,
    Stream,
    Thread,
    App,
    Forum,
    Announcement,
    Unknown(u32),
}

pub open spec fn channel_type_of(raw: u32) -> ChannelType {
    if raw == 1 {
        ChannelType::Text
    } else if raw == 5 {
        ChannelType::Forum
    } else if raw == 6 {
        ChannelType::Stream
    } else if raw == 7 {
        ChannelType::Thread
    } else if raw == 8 {
        ChannelType::App
    } else if raw == 9 {
        ChannelType::Announcement
    } else if raw == 10 {
        ChannelType::Voice
    } else {
        ChannelType::Unknown(raw)
    }
}

impl ChannelType {
    pub fn from_raw(raw: u32) -> (r: Self)
        ensures
            r == channel_type_of(raw),
    {
        match raw {
            1 => ChannelType::Text,
            5 => ChannelType::Forum,
            6 => ChannelType::Stream,
            7 => ChannelType::Thread,
            8 => ChannelType::App,
            9 => ChannelType::Announcement,
            10 => ChannelType::Voice,
            other => ChannelType::Unknown(other),
        }
    }
}

/// A user currently connected to a voice channel.
#[derive(Debug, PartialEq, Eq)]
pub struct VoiceMember {
    pub user_id: String,
    pub display_name: String,
    pub avatar_url: String,
}

pub struct VoiceMemberView {
    pub user_id: Seq<char>,
    pub display_name: Seq<char>,
    pub avatar_url: Seq<char>,
}

impl View for VoiceMember {
    type V = VoiceMemberView;

    open spec fn view(&self) -> VoiceMemberView {
        VoiceMemberView {
            user_id: self.user_id@,
            display_name: self.display_name@,
            avatar_url: self.avatar_url@,
        }
    }
}

impl Clone for VoiceMember {
    fn clone(&self) -> (r: Self)
        ensures
            r@ == self@,
    {
        VoiceMember {
            user_id: self.user_id.clone(),
            display_name: self.display_name.clone(),
            avatar_url: self.avatar_url.clone(),
        }
    }
}

/// An app (bot web view) attached to a channel.
#[derive(Debug, Clone, PartialEq, Eq)]
pub struct AppChannel {
    pub app_id: String,
    pub app_name: String,
    pub app_logo: Option<String>,
    pub app_url: String,
    pub channel_id: String,
}

/// A channel of a clan, as the channel list shows it.
#[derive(Debug)]
pub struct Channel {
    pub id: String,
    pub name: String,
    pub channel_type: ChannelType,
    pub private: bool,
    pub clan_id: String,
    pub category_name: String,
    pub category_id: Option<String>,
    pub member_count: u32,
    pub badge_count: u32,
    pub muted: bool,
    pub parent_id: Option<String>,
    pub last_seen_timestamp: i64,
    pub last_sent_timestamp: i64,
    pub voice_members: Vec<VoiceMember>,
    pub is_favorite: bool,
}

pub struct ChannelView {
    pub id: Seq<char>,
    pub name: Seq<char>,
    pub channel_type: ChannelType,
    pub private: bool,
    pub clan_id: Seq<char>,
    pub category_name: Seq<char>,
    pub category_id: Option<Seq<char>>,
    pub member_count: u32,
    pub badge_count: u32,
    pub muted: bool,
    pub parent_id: Option<Seq<char>>,
    pub last_seen_timestamp: i64,
    pub last_sent_timestamp: i64,
    pub voice_members: Seq<VoiceMemberView>,
    pub is_favorite: bool,
}

impl View for Channel {
    type V = ChannelView;

    open spec fn view(&self) -> ChannelView {
        ChannelView {
            id: self.id@,
            name: self.name@,
            channel_type: self.channel_type,
            private: self.private,
            clan_id: self.clan_id@,
            category_name: self.category_name@,
            category_id: opt_view(self.category_id),
            member_count: self.member_count,
            badge_count: self.badge_count,
            muted: self.muted,
            parent_id: opt_view(self.parent_id),
            last_seen_timestamp: self.last_seen_timestamp,
            last_sent_timestamp: self.last_sent_timestamp,
            voice_members: self.voice_members@.map_values(|m: VoiceMember| m@),
            is_favorite: self.is_favorite,
        }
    }
}

pub fn clone_voice_members(v: &Vec<VoiceMember>) -> (r: Vec<VoiceMember>)
    ensures
        r@.map_values(|m: VoiceMember| m@) == v@.map_values(|m: VoiceMember| m@),
{
    let mut r: Vec<VoiceMember> = Vec::new();
    let mut i: usize = 0;
    while i < v.len()
        invariant
            i <= v@.len(),
            r@.len() == i,
            forall|j: int| 0 <= j < i ==> #[trigger] r@[j]@ == v@[j]@,
        decreases v@.len() - i,
    {
        r.push(v[i].clone());
        i += 1;
    }
    proof {
        assert(r@.map_values(|m: VoiceMember| m@) =~= v@.map_values(|m: VoiceMember| m@));
    }
    r
}

impl Clone for Channel {
    fn clone(&self) -> (r: Self)
        ensures
            r@ == self@,
    {
        Channel {
            id: self.id.clone(),
            name: self.name.clone(),
            channel_type: self.channel_type,
            private: self.private,
            clan_id: self.clan_id.clone(),
            category_name: self.category_name.clone(),
            category_id: clone_opt_string(&self.category_id),
            member_count: self.member_count,
            badge_count: self.badge_count,
            muted: self.muted,
            parent_id: clone_opt_string(&self.parent_id),
            last_seen_timestamp: self.last_seen_timestamp,
            last_sent_timestamp: self.last_sent_timestamp,
            voice_members: clone_voice_members(&self.voice_members),
            is_favorite: self.is_favorite,
        }
    }
}

impl Channel {
    /// A channel is unread when it has a badge or a message newer than the last one seen.
    pub fn is_unread(&self) -> (r: bool)
        ensures
            r == (self.badge_count > 0 || self.last_seen_timestamp < self.last_sent_timestamp),
    {
        self.badge_count > 0 || self.last_seen_timestamp < self.last_sent_timestamp
    }
}

/// A named group of channels in a clan's channel list.
#[derive(Debug)]
pub struct Category {
    pub id: String,
    pub clan_id: String,
    pub name: String,
    pub order: i32,
    pub channels: Vec<Channel>,
}

pub struct CategoryView {
    pub id: Seq<char>,
    pub clan_id: Seq<char>,
    pub name: Seq<char>,
    pub order: i32,
    pub channels: Seq<ChannelView>,
}

pub open spec fn channels_view(v: Seq<Channel>) -> Seq<ChannelView> {
    v.map_values(|c: Channel| c@)
}

pub open spec fn categories_view(v: Seq<Category>) -> Seq<CategoryView> {
    v.map_values(|c: Category| c@)
}

impl View for Category {
    type V = CategoryView;

    open spec fn view(&self) -> CategoryView {
        CategoryView {
            id: self.id@,
            clan_id: self.clan_id@,
            name: self.name@,
            order: self.order,
            channels: channels_view(self.channels@),
        }
    }
}

pub fn clone_channels(v: &Vec<Channel>) -> (r: Vec<Channel>)
    ensures
        channels_view(r@) == channels_view(v@),
{
    let mut r: Vec<Channel> = Vec::new();
    let mut i: usize = 0;
    while i < v.len()
        invariant
            i <= v@.len(),
            r@.len() == i,
            forall|j: int| 0 <= j < i ==> #[trigger] r@[j]@ == v@[j]@,
        decreases v@.len() - i,
    {
        r.push(v[i].clone());
        i += 1;
    }
    proof {
        assert(channels_view(r@) =~= channels_view(v@));
    }
    r
}

impl Clone for Category {
    fn clone(&self) -> (r: Self)
        ensures
            r@ == self@,
    {
        Category {
            id: self.id.clone(),
            clan_id: self.clan_id.clone(),
            name: self.name.clone(),
            order: self.order,
            channels: clone_channels(&self.channels),
        }
    }
}

/// What the channel list tells its observers.
#[derive(Debug, Clone)]
pub enum ChannelEvent {
    ActiveChannelChanged(Option<String>),
    Unread(String),
}

// ---------------------------------------------------------------------------
// Removing and updating channels
// ---------------------------------------------------------------------------

pub open spec fn has_channel_id(chs: Seq<ChannelView>, id: Seq<char>) -> bool {
    exists|i: int| 0 <= i < chs.len() && #[trigger] chs[i].id == id
}

pub open spec fn without_id(chs: Seq<ChannelView>, id: Seq<char>) -> Seq<ChannelView> {
    chs.filter(|c: ChannelView| c.id != id)
}

/// Index of the first category with the given id (`cats.len()` when there is none).
pub open spec fn first_category_with_id(cats: Seq<CategoryView>, id: Seq<char>) -> int
    decreases cats.len(),
{
    if cats.len() == 0 {
        0
    } else if cats[0].id == id {
        0
    } else {
        1 + first_category_with_id(cats.drop_first(), id)
    }
}

/// Whether removing `id` touches some category other than the favorites.
pub open spec fn removes_from_regular(cats: Seq<CategoryView>, id: Seq<char>) -> bool {
    exists|i: int|
        0 <= i < cats.len() && cats[i].id != favor_cate_id() && #[trigger] has_channel_id(
            cats[i].channels,
            id,
        )
}

/// Each regular category, and the first favorites category, without the channel `id`.
pub open spec fn strip_channel(cats: Seq<CategoryView>, id: Seq<char>) -> Seq<CategoryView> {
    let fav = first_category_with_id(cats, favor_cate_id());
    cats.map(
        |i: int, c: CategoryView|
            if c.id != favor_cate_id() || i == fav {
                CategoryView { channels: without_id(c.channels, id), ..c }
            } else {
                c
            },
    )
}

/// The categories after a channel is deleted: the channel leaves every category, and when it
/// was in a regular category, categories left without channels are dropped.
pub open spec fn remove_channel_spec(cats: Seq<CategoryView>, id: Seq<char>) -> Seq<CategoryView> {
    if removes_from_regular(cats, id) {
        strip_channel(cats, id).filter(|c: CategoryView| c.channels.len() > 0)
    } else {
        strip_channel(cats, id)
    }
}

pub(crate) proof fn lemma_first_category_with_id(cats: Seq<CategoryView>, id: Seq<char>, k: int)
    requires
        0 <= k <= cats.len(),
        forall|j: int| 0 <= j < k ==> cats[j].id != id,
        k < cats.len() ==> cats[k].id == id,
    ensures
        first_category_with_id(cats, id) == k,
    decreases k,
{
    if k > 0 {
        let t = cats.drop_first();
        assert forall|j: int| 0 <= j < k - 1 implies t[j].id != id by {
            assert(t[j] == cats[j + 1]);
        }
        lemma_first_category_with_id(t, id, k - 1);
    }
}

/// The index of the first category whose id is `id`.
pub(crate) fn find_category(cats: &Vec<Category>, id: &String) -> (r: usize)
    ensures
        r as int == first_category_with_id(categories_view(cats@), id@),
        r <= cats@.len(),
{
    let ghost cv = categories_view(cats@);
    let mut i: usize = 0;
    while i < cats.len()
        invariant
            cv == categories_view(cats@),
            i <= cats@.len(),
            forall|j: int| 0 <= j < i ==> cv[j].id != id@,
        decreases cats@.len() - i,
    {
        if cats[i].id == *id {
            proof {
                lemma_first_category_with_id(cv, id@, i as int);
            }
            return i;
        }
        i += 1;
    }
    proof {
        lemma_first_category_with_id(cv, id@, i as int);
    }
    i
}

/// `chs` without the channels whose id is `id`; also whether one was dropped.
pub(crate) fn retain_other_channels(chs: &mut Vec<Channel>, id: &str) -> (removed: bool)
    ensures
        channels_view(final(chs)@) == without_id(channels_view(old(chs)@), id@),
        removed == has_channel_id(channels_view(old(chs)@), id@),
{
    let ghost old_v = channels_view(old(chs)@);
    let idv = owned(id);
    let mut kept: Vec<Channel> = Vec::new();
    let mut removed = false;
    let n = chs.len();
    while chs.len() > 0
        invariant
            n == old_v.len(),
            chs@.len() <= n,
            channels_view(chs@) == old_v.subrange(n - chs@.len(), n as int),
            channels_view(kept@) == without_id(old_v.subrange(0, n - chs@.len()), id@),
            idv@ == id@,
            removed == has_channel_id(old_v.subrange(0, n - chs@.len()), id@),
        decreases chs@.len(),
    {
        let ghost before = chs@;
        let c = chs.remove(0);
        let ghost k = n - before.len();
        proof {
            assert(c@ == old_v[k]) by {
                assert(channels_view(before)[0] == old_v.subrange(k, n as int)[0]);
            }
            assert(channels_view(chs@) =~= old_v.subrange(k + 1, n as int)) by {
                assert forall|j: int| 0 <= j < chs@.len() implies channels_view(chs@)[j]
                    == old_v.subrange(k + 1, n as int)[j] by {
                    assert(chs@[j] == before[j + 1]);
                    assert(channels_view(before)[j + 1] == old_v.subrange(k, n as int)[j + 1]);
                }
            }
            let pre = old_v.subrange(0, k);
            let post = old_v.subrange(0, k + 1);
            assert(post.drop_last() =~= pre);
            assert(post.last() == c@);
            reveal_with_fuel(Seq::filter, 1);
            if has_channel_id(post, id@) && !has_channel_id(pre, id@) {
                let w = choose|w: int| 0 <= w < post.len() && #[trigger] post[w].id == id@;
                if w < k {
                    assert(pre[w] == post[w]);
                }
            }
            if has_channel_id(pre, id@) {
                let w = choose|w: int| 0 <= w < pre.len() && #[trigger] pre[w].id == id@;
                assert(post[w] == pre[w]);
            }
        }
        if c.id == idv {
            removed = true;
        } else {
            let ghost kept_before = kept@;
            let ghost cv = c@;
            kept.push(c);
            proof {
                assert(channels_view(kept@) =~= channels_view(kept_before).push(cv));
            }
        }
        proof {
            if c.id@ == id@ {
                assert(old_v.subrange(0, k + 1)[k] == c@);
            }
        }
    }
    proof {
        assert(old_v.subrange(0, n as int) =~= old_v);
    }
    *chs = kept;
    removed
}


/// `cats` without the categories that have no channel left.
fn drop_empty_categories(cats: &mut Vec<Category>)
    ensures
        categories_view(final(cats)@) == categories_view(old(cats)@).filter(
            |c: CategoryView| c.channels.len() > 0,
        ),
{
    let ghost old_v = categories_view(old(cats)@);
    let mut kept: Vec<Category> = Vec::new();
    let n = cats.len();
    while cats.len() > 0
        invariant
            n == old_v.len(),
            cats@.len() <= n,
            categories_view(cats@) == old_v.subrange(n - cats@.len(), n as int),
            categories_view(kept@) == old_v.subrange(0, n - cats@.len()).filter(
                |c: CategoryView| c.channels.len() > 0,
            ),
        decreases cats@.len(),
    {
        let ghost before = cats@;
        let c = cats.remove(0);
        let ghost k = n - before.len();
        proof {
            assert(c@ == old_v[k]) by {
                assert(categories_view(before)[0] == old_v.subrange(k, n as int)[0]);
            }
            assert(categories_view(cats@) =~= old_v.subrange(k + 1, n as int)) by {
                assert forall|j: int| 0 <= j < cats@.len() implies categories_view(cats@)[j]
                    == old_v.subrange(k + 1, n as int)[j] by {
                    assert(cats@[j] == before[j + 1]);
                    assert(categories_view(before)[j + 1] == old_v.subrange(k, n as int)[j
                        + 1]);
                }
            }
            let post = old_v.subrange(0, k + 1);
            assert(post.drop_last() =~= old_v.subrange(0, k));
            assert(post.last() == c@);
            reveal_with_fuel(Seq::filter, 1);
        }
        if c.channels.len() > 0 {
            let ghost kept_before = kept@;
            let ghost cv = c@;
            kept.push(c);
            proof {
                assert(categories_view(kept@) =~= categories_view(kept_before).push(cv));
            }
        }
    }
    proof {
        assert(old_v.subrange(0, n as int) =~= old_v);
    }
    *cats = kept;
}

/// Removes a deleted channel from the categories (the favorites included); when it was in a
/// regular category, categories left empty are dropped. Returns whether a regular category held
/// the channel.
pub fn remove_channel(categories: &mut Vec<Category>, channel_id: &str) -> (removed: bool)
    ensures
        removed == removes_from_regular(categories_view(old(categories)@), channel_id@),
        categories_view(final(categories)@) == remove_channel_spec(
            categories_view(old(categories)@),
            channel_id@,
        ),
{
    let ghost old_v = categories_view(old(categories)@);
    let fav = favor_cate_id_string();
    let fav_idx = find_category(categories, &fav);
    let mut out: Vec<Category> = Vec::new();
    let mut removed = false;
    let n = categories.len();
    while categories.len() > 0
        invariant
            n == old_v.len(),
            fav@ == favor_cate_id(),
            fav_idx as int == first_category_with_id(old_v, favor_cate_id()),
            categories@.len() <= n,
            categories_view(categories@) == old_v.subrange(n - categories@.len(), n as int),
            categories_view(out@) == strip_channel(old_v, channel_id@).subrange(
                0,
                n - categories@.len(),
            ),
            out@.len() == n - categories@.len(),
            removed == removes_from_regular(
                old_v.subrange(0, n - categories@.len()),
                channel_id@,
            ),
        decreases categories@.len(),
    {
        let ghost before = categories@;
        let mut c = categories.remove(0);
        let ghost k = n - before.len();
        let ghost cv = c@;
        proof {
            assert(cv == old_v[k]) by {
                assert(categories_view(before)[0] == old_v.subrange(k, n as int)[0]);
            }
            assert(categories_view(categories@) =~= old_v.subrange(k + 1, n as int)) by {
                assert forall|j: int| 0 <= j < categories@.len() implies categories_view(
                    categories@,
                )[j] == old_v.subrange(k + 1, n as int)[j] by {
                    assert(categories@[j] == before[j + 1]);
                    assert(categories_view(before)[j + 1] == old_v.subrange(k, n as int)[j
                        + 1]);
                }
            }
        }
        let is_fav = c.id == fav;
        let mut r = false;
        if !is_fav || out.len() == fav_idx {
            r = retain_other_channels(&mut c.channels, channel_id);
        }
        proof {
            assert(!is_fav ==> r == has_channel_id(cv.channels, channel_id@));
            let post = old_v.subrange(0, k + 1);
            assert(post[k] == cv);
            if !is_fav && r {
                assert(has_channel_id(post[k].channels, channel_id@));
            }
        }
        if !is_fav {
            removed = removed || r;
        }
        let ghost out_before = out@;
        let ghost cv2 = c@;
        out.push(c);
        proof {
            let pre = old_v.subrange(0, k);
            let post = old_v.subrange(0, k + 1);
            assert(categories_view(out@) =~= categories_view(out_before).push(cv2));
            assert(strip_channel(old_v, channel_id@).subrange(0, k + 1) =~= strip_channel(
                old_v,
                channel_id@,
            ).subrange(0, k).push(strip_channel(old_v, channel_id@)[k]));
            assert(cv2 == strip_channel(old_v, channel_id@)[k]);
            if removes_from_regular(post, channel_id@) && !removes_from_regular(pre, channel_id@) {
                let w = choose|w: int|
                    0 <= w < post.len() && post[w].id != favor_cate_id()
                        && #[trigger] has_channel_id(post[w].channels, channel_id@);
                if w < k {
                    assert(pre[w] == post[w]);
                }
            }
            if removes_from_regular(pre, channel_id@) {
                let w = choose|w: int|
                    0 <= w < pre.len() && pre[w].id != favor_cate_id()
                        && #[trigger] has_channel_id(pre[w].channels, channel_id@);
                assert(post[w] == pre[w]);
            }
        }
    }
    proof {
        assert(old_v.subrange(0, n as int) =~= old_v);
        assert(strip_channel(old_v, channel_id@).subrange(0, n as int) =~= strip_channel(
            old_v,
            channel_id@,
        ));
    }
    if removed {
        drop_empty_categories(&mut out);
    }
    *categories = out;
    removed
}

/// A channel after a rename/privacy update: a given label replaces the name.
pub open spec fn updated_channel(
    c: ChannelView,
    id: Seq<char>,
    label: Option<Seq<char>>,
    private: bool,
) -> ChannelView {
    if c.id == id {
        ChannelView {
            name: match label {
                Some(l) => l,
                None => c.name,
            },
            private: private,
            ..c
        }
    } else {
        c
    }
}

pub open spec fn update_channel_spec(
    cats: Seq<CategoryView>,
    id: Seq<char>,
    label: Option<Seq<char>>,
    private: bool,
) -> Seq<CategoryView> {
    cats.map_values(
        |cat: CategoryView|
            CategoryView {
                channels: cat.channels.map_values(
                    |c: ChannelView| updated_channel(c, id, label, private),
                ),
                ..cat
            },
    )
}

pub open spec fn any_category_has(cats: Seq<CategoryView>, id: Seq<char>) -> bool {
    exists|i: int| 0 <= i < cats.len() && #[trigger] has_channel_id(cats[i].channels, id)
}

fn update_channels_in(chs: &mut Vec<Channel>, id: &String, label: &Option<String>, private: bool) -> (found: bool)
    ensures
        channels_view(final(chs)@) == channels_view(old(chs)@).map_values(
            |c: ChannelView| updated_channel(c, id@, opt_view(*label), private),
        ),
        found == has_channel_id(channels_view(old(chs)@), id@),
{
    let ghost old_v = channels_view(old(chs)@);
    let mut found = false;
    let mut i: usize = 0;
    while i < chs.len()
        invariant
            chs@.len() == old_v.len(),
            i <= chs@.len(),
            forall|j: int|
                0 <= j < i ==> #[trigger] chs@[j]@ == updated_channel(
                    old_v[j],
                    id@,
                    opt_view(*label),
                    private,
                ),
            forall|j: int| i <= j < chs@.len() ==> #[trigger] chs@[j]@ == old_v[j],
            found == (exists|j: int| 0 <= j < i && #[trigger] old_v[j].id == id@),
        decreases chs@.len() - i,
    {
        let ghost before = chs@;
        proof {
            assert(chs@[i as int]@ == old_v[i as int]);
        }
        if chs[i].id == *id {
            let mut c = chs.remove(i);
            if let Some(l) = label {
                c.name = l.clone();
            }
            c.private = private;
            let ghost cv = c;
            chs.insert(i, c);
            found = true;
            proof {
                assert(chs@ =~= before.update(i as int, cv));
                assert(old_v[i as int].id == id@);
                assert(chs@[i as int]@ == updated_channel(
                    old_v[i as int],
                    id@,
                    opt_view(*label),
                    private,
                ));
            }
        } else {
            proof {
                assert(old_v[i as int].id != id@);
            }
        }
        proof {
            if exists|j: int| 0 <= j < i + 1 && #[trigger] old_v[j].id == id@ {
                let w = choose|j: int| 0 <= j < i + 1 && #[trigger] old_v[j].id == id@;
                if w < i {
                    assert(exists|j: int| 0 <= j < i && #[trigger] old_v[j].id == id@);
                }
            }
            assert(forall|j: int| i + 1 <= j < chs@.len() ==> chs@[j] == before[j]);
        }
        i += 1;
    }
    proof {
        assert(channels_view(chs@) =~= old_v.map_values(
            |c: ChannelView| updated_channel(c, id@, opt_view(*label), private),
        ));
    }
    found
}

/// Renames a channel (when a label is given) and sets its privacy, in every category that lists
/// it. Returns whether some category lists it.
pub fn update_channel(
    categories: &mut Vec<Category>,
    channel_id: &str,
    label: Option<String>,
    private: bool,
) -> (found: bool)
    ensures
        found == any_category_has(categories_view(old(categories)@), channel_id@),
        categories_view(final(categories)@) == update_channel_spec(
            categories_view(old(categories)@),
            channel_id@,
            opt_view(label),
            private,
        ),
{
    let ghost old_v = categories_view(old(categories)@);
    let id = owned(channel_id);
    let mut found = false;
    let mut i: usize = 0;
    while i < categories.len()
        invariant
            categories@.len() == old_v.len(),
            id@ == channel_id@,
            i <= categories@.len(),
            forall|j: int|
                0 <= j < i ==> #[trigger] categories@[j]@ == update_channel_spec(
                    old_v,
                    channel_id@,
                    opt_view(label),
                    private,
                )[j],
            forall|j: int| i <= j < categories@.len() ==> #[trigger] categories@[j]@ == old_v[j],
            found == (exists|j: int|
                0 <= j < i && #[trigger] has_channel_id(old_v[j].channels, channel_id@)),
        decreases categories@.len() - i,
    {
        let ghost before = categories@;
        proof {
            assert(categories@[i as int]@ == old_v[i as int]);
        }
        let mut cat = categories.remove(i);
        let f = update_channels_in(&mut cat.channels, &id, &label, private);
        let ghost cv = cat;
        categories.insert(i, cat);
        proof {
            assert(categories@ =~= before.update(i as int, cv));
            assert(cv@ =~= update_channel_spec(old_v, channel_id@, opt_view(label), private)[i as int]);
            assert(forall|j: int| i + 1 <= j < categories@.len() ==> categories@[j] == before[j]);
            if exists|j: int|
                0 <= j < i + 1 && #[trigger] has_channel_id(old_v[j].channels, channel_id@) {
                let w = choose|j: int|
                    0 <= j < i + 1 && #[trigger] has_channel_id(old_v[j].channels, channel_id@);
                if w < i {
                    assert(exists|j: int|
                        0 <= j < i && #[trigger] has_channel_id(old_v[j].channels, channel_id@));
                }
            }
        }
        found = found || f;
        i += 1;
    }
    proof {
        assert(categories_view(categories@) =~= update_channel_spec(
            old_v,
            channel_id@,
            opt_view(label),
            private,
        ));
    }
    found
}


// ---------------------------------------------------------------------------
// Inserting a created channel
// ---------------------------------------------------------------------------

/// `i` is the first category that is not the favorites and has id `id` (`cats.len()` when
/// there is none).
pub open spec fn is_regular_index(cats: Seq<CategoryView>, id: Seq<char>, i: int) -> bool {
    &&& 0 <= i <= cats.len()
    &&& forall|j: int|
        0 <= j < i ==> !((#[trigger] cats[j]).id != favor_cate_id() && cats[j].id == id)
    &&& i < cats.len() ==> cats[i].id != favor_cate_id() && cats[i].id == id
}

pub open spec fn regular_index(cats: Seq<CategoryView>, id: Seq<char>) -> int {
    choose|i: int| is_regular_index(cats, id, i)
}

/// `i` is the first category that lists channel `id` (`cats.len()` when none does).
pub open spec fn is_first_holder(cats: Seq<CategoryView>, id: Seq<char>, i: int) -> bool {
    &&& 0 <= i <= cats.len()
    &&& forall|j: int| 0 <= j < i ==> !has_channel_id((#[trigger] cats[j]).channels, id)
    &&& i < cats.len() ==> has_channel_id(cats[i].channels, id)
}

pub open spec fn first_holder(cats: Seq<CategoryView>, id: Seq<char>) -> int {
    choose|i: int| is_first_holder(cats, id, i)
}

/// `i` is the first channel of `chs` with id `id` (`chs.len()` when there is none).
pub open spec fn is_first_channel(chs: Seq<ChannelView>, id: Seq<char>, i: int) -> bool {
    &&& 0 <= i <= chs.len()
    &&& forall|j: int| 0 <= j < i ==> (#[trigger] chs[j]).id != id
    &&& i < chs.len() ==> chs[i].id == id
}

pub open spec fn first_channel(chs: Seq<ChannelView>, id: Seq<char>) -> int {
    choose|i: int| is_first_channel(chs, id, i)
}

/// The category of a thread's parent: that of the first channel listed with the parent's id,
/// `0` when it has none or the parent is not listed.
pub open spec fn parent_category(cats: Seq<CategoryView>, pid: Seq<char>) -> Seq<char> {
    let i = first_holder(cats, pid);
    if i < cats.len() {
        let chs = cats[i].channels;
        match chs[first_channel(chs, pid)].category_id {
            Some(c) => c,
            None => zero_id(),
        }
    } else {
        zero_id()
    }
}

/// The name of the first category with id `id` (the favorites included), else `General`.
pub open spec fn category_name_of(cats: Seq<CategoryView>, id: Seq<char>) -> Seq<char> {
    let i = first_category_with_id(cats, id);
    if i < cats.len() {
        cats[i].name
    } else {
        general_name()
    }
}

/// `f` is the first thread of `pid` in `chs` (`chs.len()` when there is none).
pub open spec fn is_first_thread(chs: Seq<ChannelView>, pid: Seq<char>, f: int) -> bool {
    &&& 0 <= f <= chs.len()
    &&& forall|j: int| 0 <= j < f ==> (#[trigger] chs[j]).parent_id != Some(pid)
    &&& f < chs.len() ==> chs[f].parent_id == Some(pid)
}

/// `e` ends the run of threads of `pid` that starts at `f`.
pub open spec fn is_run_end(chs: Seq<ChannelView>, pid: Seq<char>, f: int, e: int) -> bool {
    &&& f <= e <= chs.len()
    &&& forall|j: int| f <= j < e ==> (#[trigger] chs[j]).parent_id == Some(pid)
    &&& e < chs.len() ==> chs[e].parent_id != Some(pid)
}

/// Where a new thread of `pid` goes: after the first run of `pid`'s threads, else right after
/// `pid`, else at the end.
pub open spec fn thread_position(chs: Seq<ChannelView>, pid: Seq<char>) -> int {
    let f = choose|f: int| is_first_thread(chs, pid, f);
    if f < chs.len() {
        choose|e: int| is_run_end(chs, pid, f, e)
    } else {
        let p = first_channel(chs, pid);
        if p < chs.len() {
            p + 1
        } else {
            chs.len() as int
        }
    }
}

/// `i` is the first channel whose id sorts after `id` (`chs.len()` when none does).
pub open spec fn is_first_after(chs: Seq<ChannelView>, id: Seq<char>, i: int) -> bool {
    &&& 0 <= i <= chs.len()
    &&& forall|j: int| 0 <= j < i ==> !seq_less(id, (#[trigger] chs[j]).id)
    &&& i < chs.len() ==> seq_less(id, chs[i].id)
}

pub open spec fn position_after(chs: Seq<ChannelView>, id: Seq<char>) -> int {
    choose|i: int| is_first_after(chs, id, i)
}

/// `x` inserted into `s` after every category whose order is not above its own, counting from
/// the back: one step of a stable sort by order.
pub open spec fn insert_by_order(s: Seq<CategoryView>, x: CategoryView) -> Seq<CategoryView>
    decreases s.len(),
{
    if s.len() == 0 {
        seq![x]
    } else if s.last().order <= x.order {
        s.push(x)
    } else {
        insert_by_order(s.drop_last(), x).push(s.last())
    }
}

/// `s` stably sorted by category order.
pub open spec fn sort_by_order(s: Seq<CategoryView>) -> Seq<CategoryView>
    decreases s.len(),
{
    if s.len() == 0 {
        s
    } else {
        insert_by_order(sort_by_order(s.drop_last()), s.last())
    }
}

/// The categories after a created channel arrives. A channel already listed changes nothing.
/// A thread goes into its parent's (regular) category, after the parent's threads or the
/// parent. Any other channel (or a thread whose category is not listed) goes into its own
/// regular category, else category `0`, at its place by id; when that category is not listed
/// either, a new `General`-like category is added last in order and the list is sorted by order.
pub open spec fn insert_channel_spec(cats: Seq<CategoryView>, ch: ChannelView) -> (
    bool,
    Seq<CategoryView>,
) {
    if any_category_has(cats, ch.id) {
        (false, cats)
    } else {
        let thread_target: Option<int> = match ch.parent_id {
            Some(pid) => {
                let r = regular_index(cats, parent_category(cats, pid));
                if r < cats.len() {
                    Some(r)
                } else {
                    None
                }
            },
            None => None,
        };
        match thread_target {
            Some(r) => {
                let pid = ch.parent_id.unwrap();
                let t = parent_category(cats, pid);
                let c = cats[r];
                let ch2 = ChannelView { category_name: category_name_of(cats, t), ..ch };
                (
                    true,
                    cats.update(
                        r,
                        CategoryView {
                            channels: c.channels.insert(thread_position(c.channels, pid), ch2),
                            ..c
                        },
                    ),
                )
            },
            None => {
                let own = match ch.category_id {
                    Some(cid) => regular_index(cats, cid) < cats.len(),
                    None => false,
                };
                let cid = if own {
                    ch.category_id.unwrap()
                } else {
                    zero_id()
                };
                let cname = if own {
                    cats[regular_index(cats, cid)].name
                } else {
                    general_name()
                };
                let ch2 = ChannelView { category_name: cname, ..ch };
                let r = regular_index(cats, cid);
                if r < cats.len() {
                    let c = cats[r];
                    (
                        true,
                        cats.update(
                            r,
                            CategoryView {
                                channels: c.channels.insert(position_after(c.channels, ch.id), ch2),
                                ..c
                            },
                        ),
                    )
                } else {
                    (
                        true,
                        sort_by_order(
                            cats.push(
                                CategoryView {
                                    id: cid,
                                    clan_id: ch.clan_id,
                                    name: cname,
                                    order: 0x7fff_ffffi32,
                                    channels: seq![ch2],
                                },
                            ),
                        ),
                    )
                }
            },
        }
    }
}

fn find_regular(cats: &Vec<Category>, id: &String) -> (r: usize)
    ensures
        r as int == regular_index(categories_view(cats@), id@),
        is_regular_index(categories_view(cats@), id@, r as int),
        r <= cats@.len(),
{
    let ghost cv = categories_view(cats@);
    let fav = favor_cate_id_string();
    let mut i: usize = 0;
    while i < cats.len() && !(!(cats[i].id == fav) && cats[i].id == *id)
        invariant
            cv == categories_view(cats@),
            fav@ == favor_cate_id(),
            i <= cats@.len(),
            forall|j: int|
                0 <= j < i ==> !((#[trigger] cv[j]).id != favor_cate_id() && cv[j].id == id@),
        decreases cats@.len() - i,
    {
        proof {
            assert(cv[i as int] == cats@[i as int]@);
        }
        i += 1;
    }
    proof {
        if i < cats@.len() {
            assert(cv[i as int] == cats@[i as int]@);
        }
        assert(is_regular_index(cv, id@, i as int));
        let c = regular_index(cv, id@);
        assert(is_regular_index(cv, id@, c));
        if c < i {
            assert(!(cv[c].id != favor_cate_id() && cv[c].id == id@));
        }
        if i < c {
            assert(!(cv[i as int].id != favor_cate_id() && cv[i as int].id == id@));
        }
    }
    i
}

pub(crate) fn find_channel_in(chs: &Vec<Channel>, id: &String) -> (r: usize)
    ensures
        r as int == first_channel(channels_view(chs@), id@),
        is_first_channel(channels_view(chs@), id@, r as int),
        r <= chs@.len(),
{
    let ghost cv = channels_view(chs@);
    let mut i: usize = 0;
    while i < chs.len() && !(chs[i].id == *id)
        invariant
            cv == channels_view(chs@),
            i <= chs@.len(),
            forall|j: int| 0 <= j < i ==> (#[trigger] cv[j]).id != id@,
        decreases chs@.len() - i,
    {
        proof {
            assert(cv[i as int] == chs@[i as int]@);
        }
        i += 1;
    }
    proof {
        if i < chs@.len() {
            assert(cv[i as int] == chs@[i as int]@);
        }
        assert(is_first_channel(cv, id@, i as int));
        let c = first_channel(cv, id@);
        assert(is_first_channel(cv, id@, c));
        if c < i {
            assert(cv[c].id != id@);
        }
        if i < c {
            assert(cv[i as int].id != id@);
        }
    }
    i
}

pub(crate) fn find_holder(cats: &Vec<Category>, id: &String) -> (r: usize)
    ensures
        r as int == first_holder(categories_view(cats@), id@),
        is_first_holder(categories_view(cats@), id@, r as int),
        r <= cats@.len(),
{
    let ghost cv = categories_view(cats@);
    let mut i: usize = 0;
    while i < cats.len()
        invariant
            cv == categories_view(cats@),
            i <= cats@.len(),
            forall|j: int| 0 <= j < i ==> !has_channel_id((#[trigger] cv[j]).channels, id@),
        decreases cats@.len() - i,
    {
        let k = find_channel_in(&cats[i].channels, id);
        proof {
            assert(cv[i as int] == cats@[i as int]@);
            let chs = cv[i as int].channels;
            assert(is_first_channel(chs, id@, k as int));
            if has_channel_id(chs, id@) {
                let w = choose|w: int| 0 <= w < chs.len() && #[trigger] chs[w].id == id@;
                if k as int == chs.len() {
                    assert(chs[w].id != id@);
                }
            }
        }
        if k < cats[i].channels.len() {
            proof {
                assert(is_first_holder(cv, id@, i as int));
                let c = first_holder(cv, id@);
                assert(is_first_holder(cv, id@, c));
                if c < i {
                    assert(!has_channel_id(cv[c].channels, id@));
                }
                if i < c {
                    assert(!has_channel_id(cv[i as int].channels, id@));
                }
            }
            return i;
        }
        i += 1;
    }
    proof {
        assert(is_first_holder(cv, id@, i as int));
        let c = first_holder(cv, id@);
        assert(is_first_holder(cv, id@, c));
        if c < i {
            assert(!has_channel_id(cv[c].channels, id@));
        }
    }
    i
}

fn parent_category_exec(cats: &Vec<Category>, pid: &String) -> (r: String)
    ensures
        r@ == parent_category(categories_view(cats@), pid@),
{
    let i = find_holder(cats, pid);
    if i < cats.len() {
        let k = find_channel_in(&cats[i].channels, pid);
        proof {
            let cv = categories_view(cats@);
            assert(cv[i as int] == cats@[i as int]@);
            let chs = cv[i as int].channels;
            assert(has_channel_id(chs, pid@));
            let w = choose|w: int| 0 <= w < chs.len() && #[trigger] chs[w].id == pid@;
            if k as int == chs.len() {
                assert(is_first_channel(chs, pid@, k as int));
                assert(chs[w].id != pid@);
            }
            assert(chs[k as int] == cats@[i as int].channels@[k as int]@);
        }
        match &cats[i].channels[k].category_id {
            Some(c) => c.clone(),
            None => zero_string(),
        }
    } else {
        zero_string()
    }
}

fn category_name_exec(cats: &Vec<Category>, id: &String) -> (r: String)
    ensures
        r@ == category_name_of(categories_view(cats@), id@),
{
    let i = find_category(cats, id);
    if i < cats.len() {
        proof {
            assert(categories_view(cats@)[i as int] == cats@[i as int]@);
        }
        cats[i].name.clone()
    } else {
        general_string()
    }
}

fn thread_position_exec(chs: &Vec<Channel>, pid: &String) -> (r: usize)
    ensures
        r as int == thread_position(channels_view(chs@), pid@),
        r <= chs@.len(),
{
    let ghost cv = channels_view(chs@);
    let mut f: usize = 0;
    while f < chs.len() && !is_thread_of(&chs[f].parent_id, pid)
        invariant
            cv == channels_view(chs@),
            f <= chs@.len(),
            forall|j: int| 0 <= j < f ==> (#[trigger] cv[j]).parent_id != Some(pid@),
        decreases chs@.len() - f,
    {
        proof {
            assert(cv[f as int] == chs@[f as int]@);
        }
        f += 1;
    }
    proof {
        if f < chs@.len() {
            assert(cv[f as int] == chs@[f as int]@);
        }
        assert(is_first_thread(cv, pid@, f as int));
        let c = choose|g: int| is_first_thread(cv, pid@, g);
        assert(is_first_thread(cv, pid@, c));
        if c < f {
            assert(cv[c].parent_id != Some(pid@));
        }
        if f < c {
            assert(cv[f as int].parent_id != Some(pid@));
        }
    }
    if f < chs.len() {
        let mut e = f;
        while e < chs.len() && is_thread_of(&chs[e].parent_id, pid)
            invariant
                cv == channels_view(chs@),
                f <= e <= chs@.len(),
                forall|j: int| f <= j < e ==> (#[trigger] cv[j]).parent_id == Some(pid@),
            decreases chs@.len() - e,
        {
            proof {
                assert(cv[e as int] == chs@[e as int]@);
            }
            e += 1;
        }
        proof {
            if e < chs@.len() {
                assert(cv[e as int] == chs@[e as int]@);
            }
            assert(is_run_end(cv, pid@, f as int, e as int));
            let c = choose|g: int| is_run_end(cv, pid@, f as int, g);
            assert(is_run_end(cv, pid@, f as int, c));
            if c < e {
                assert(cv[c].parent_id == Some(pid@));
            }
            if e < c {
                assert(cv[e as int].parent_id == Some(pid@));
            }
        }
        e
    } else {
        let p = find_channel_in(chs, pid);
        if p < chs.len() {
            p + 1
        } else {
            chs.len()
        }
    }
}

fn is_thread_of(parent: &Option<String>, pid: &String) -> (r: bool)
    ensures
        r == (opt_view(*parent) == Some(pid@)),
{
    match parent {
        Some(p) => *p == *pid,
        None => false,
    }
}

fn position_after_exec(chs: &Vec<Channel>, id: &String) -> (r: usize)
    ensures
        r as int == position_after(channels_view(chs@), id@),
        r <= chs@.len(),
{
    let ghost cv = channels_view(chs@);
    let idc = chars_of(id.as_str());
    let mut i: usize = 0;
    while i < chs.len() && !chars_less(&idc, &chars_of(chs[i].id.as_str()))
        invariant
            cv == channels_view(chs@),
            idc@ == id@,
            i <= chs@.len(),
            forall|j: int| 0 <= j < i ==> !seq_less(id@, (#[trigger] cv[j]).id),
        decreases chs@.len() - i,
    {
        proof {
            assert(cv[i as int] == chs@[i as int]@);
        }
        i += 1;
    }
    proof {
        if i < chs@.len() {
            assert(cv[i as int] == chs@[i as int]@);
        }
        assert(is_first_after(cv, id@, i as int));
        let c = position_after(cv, id@);
        assert(is_first_after(cv, id@, c));
        if c < i {
            assert(!seq_less(id@, cv[c].id));
        }
        if i < c {
            assert(!seq_less(id@, cv[i as int].id));
        }
    }
    i
}

pub(crate) fn category_has_channel(cats: &Vec<Category>, id: &String) -> (r: bool)
    ensures
        r == any_category_has(categories_view(cats@), id@),
{
    let i = find_holder(cats, id);
    proof {
        let cv = categories_view(cats@);
        if any_category_has(cv, id@) {
            let w = choose|w: int| 0 <= w < cv.len() && #[trigger] has_channel_id(cv[w].channels, id@);
            if i as int == cv.len() {
                assert(!has_channel_id(cv[w].channels, id@));
            }
        }
        if (i as int) < cv.len() {
            assert(has_channel_id(cv[i as int].channels, id@));
        }
    }
    i < cats.len()
}

proof fn lemma_insert_by_order_at(s: Seq<CategoryView>, x: CategoryView, j: int)
    requires
        0 <= j <= s.len(),
        forall|k: int| j <= k < s.len() ==> (#[trigger] s[k]).order > x.order,
        j > 0 ==> s[j - 1].order <= x.order,
    ensures
        insert_by_order(s, x) == s.take(j) + seq![x] + s.skip(j),
    decreases s.len(),
{
    if s.len() == 0 {
        assert(s.take(j) + seq![x] + s.skip(j) =~= seq![x]);
    } else if j == s.len() {
        assert(s.take(j) + seq![x] + s.skip(j) =~= s.push(x));
    } else {
        let p = s.drop_last();
        assert(s[s.len() - 1] == s.last());
        lemma_insert_by_order_at(p, x, j);
        assert(p.take(j) + seq![x] + p.skip(j) + seq![s.last()] =~= s.take(j) + seq![x] + s.skip(
            j,
        ));
    }
}

/// Stably sorts categories by their order.
pub(crate) fn sort_categories(cats: &mut Vec<Category>)
    ensures
        categories_view(final(cats)@) == sort_by_order(categories_view(old(cats)@)),
{
    let ghost s = categories_view(cats@);
    let mut out: Vec<Category> = Vec::new();
    let n = cats.len();
    proof {
        assert(s.subrange(0, 0) =~= Seq::<CategoryView>::empty());
        assert(categories_view(out@) =~= Seq::<CategoryView>::empty());
    }
    while cats.len() > 0
        invariant
            n == s.len(),
            cats@.len() <= n,
            categories_view(cats@) == s.subrange(n - cats@.len(), n as int),
            categories_view(out@) == sort_by_order(s.subrange(0, n - cats@.len())),
        decreases cats@.len(),
    {
        let ghost k = n - cats@.len();
        let ghost before = cats@;
        let x = cats.remove(0);
        proof {
            assert(categories_view(before)[0] == s.subrange(k, n as int)[0]);
            assert(x@ == s[k]);
            assert(categories_view(cats@) =~= s.subrange(k + 1, n as int)) by {
                assert forall|q: int| 0 <= q < cats@.len() implies categories_view(cats@)[q]
                    == s.subrange(k + 1, n as int)[q] by {
                    assert(cats@[q] == before[q + 1]);
                    assert(categories_view(before)[q + 1] == s.subrange(k, n as int)[q + 1]);
                }
            }
            assert(s.subrange(0, k + 1).drop_last() =~= s.subrange(0, k));
        }
        let ghost ov = categories_view(out@);
        let mut j = out.len();
        while j > 0 && out[j - 1].order > x.order
            invariant
                ov == categories_view(out@),
                j <= out@.len(),
                forall|q: int| j <= q < ov.len() ==> (#[trigger] ov[q]).order > x.order,
            decreases j,
        {
            proof {
                assert(ov[j - 1] == out@[j - 1]@);
            }
            j -= 1;
        }
        proof {
            if j > 0 {
                assert(ov[j - 1] == out@[j - 1]@);
            }
            lemma_insert_by_order_at(ov, x@, j as int);
        }
        let ghost xv = x@;
        out.insert(j, x);
        proof {
            assert(categories_view(out@) =~= ov.take(j as int) + seq![xv] + ov.skip(j as int));
        }
    }
    proof {
        assert(s.subrange(0, n as int) =~= s);
    }
    *cats = out;
}

/// Puts a channel created in the clan into the categories (see `insert_channel_spec`).
/// Returns whether it was added (false when it is listed already).
pub fn insert_channel(categories: &mut Vec<Category>, channel: Channel) -> (added: bool)
    ensures
        (added, categories_view(final(categories)@)) == insert_channel_spec(
            categories_view(old(categories)@),
            channel@,
        ),
{
    let ghost cv = categories_view(categories@);
    let ghost chv = channel@;
    if category_has_channel(categories, &channel.id) {
        return false;
    }
    let mut channel = channel;
    if let Some(pid) = clone_opt_string(&channel.parent_id) {
        let target = parent_category_exec(categories, &pid);
        let r = find_regular(categories, &target);
        if r < categories.len() {
            channel.category_name = category_name_exec(categories, &target);
            let ghost ch2 = channel@;
            let mut cat = categories.remove(r);
            let pos = thread_position_exec(&cat.channels, &pid);
            let ghost before_chs = channels_view(cat.channels@);
            cat.channels.insert(pos, channel);
            proof {
                assert(cv[r as int] == cat@ || true);
                assert(channels_view(cat.channels@) =~= before_chs.insert(pos as int, ch2));
            }
            let ghost catv = cat@;
            categories.insert(r, cat);
            proof {
                assert(categories_view(categories@) =~= cv.update(r as int, catv));
            }
            return true;
        }
    }
    let own = match &channel.category_id {
        Some(cid) => find_regular(categories, cid) < categories.len(),
        None => false,
    };
    let cid = if own {
        clone_opt_string(&channel.category_id).unwrap()
    } else {
        zero_string()
    };
    let r = find_regular(categories, &cid);
    let cname = if own {
        proof {
            assert(cv[r as int] == categories@[r as int]@);
        }
        categories[r].name.clone()
    } else {
        general_string()
    };
    channel.category_name = cname.clone();
    let ghost ch2 = channel@;
    if r < categories.len() {
        let mut cat = categories.remove(r);
        let pos = position_after_exec(&cat.channels, &channel.id);
        let ghost before_chs = channels_view(cat.channels@);
        cat.channels.insert(pos, channel);
        proof {
            assert(channels_view(cat.channels@) =~= before_chs.insert(pos as int, ch2));
        }
        let ghost catv = cat@;
        categories.insert(r, cat);
        proof {
            assert(categories_view(categories@) =~= cv.update(r as int, catv));
        }
    } else {
        let clan_id = channel.clan_id.clone();
        let mut chs: Vec<Channel> = Vec::new();
        chs.push(channel);
        let cat = Category { id: cid, clan_id, name: cname, order: i32::MAX, channels: chs };
        let ghost catv = cat@;
        categories.push(cat);
        proof {
            assert(channels_view(chs@) =~= seq![ch2]);
            assert(categories_view(categories@) =~= cv.push(catv));
        }
        sort_categories(categories);
    }
    true
}


// ---------------------------------------------------------------------------
// The favorites category
// ---------------------------------------------------------------------------

/// The favorite channels of `chs`, in order.
pub open spec fn favorites_in(chs: Seq<ChannelView>) -> Seq<ChannelView>
    decreases chs.len(),
{
    if chs.len() == 0 {
        Seq::empty()
    } else {
        let p = favorites_in(chs.drop_last());
        if chs.last().is_favorite {
            p.push(chs.last())
        } else {
            p
        }
    }
}

/// The favorite channels of all categories, category by category.
pub open spec fn all_favorites(cats: Seq<CategoryView>) -> Seq<ChannelView>
    decreases cats.len(),
{
    if cats.len() == 0 {
        Seq::empty()
    } else {
        all_favorites(cats.drop_last()) + favorites_in(cats.last().channels)
    }
}

/// The categories with the favorites category first, when the clan has favorites and some
/// listed channel is one: it holds copies of those channels and takes the first one's clan.
pub open spec fn assemble_spec(cats: Seq<CategoryView>, no_favorite_ids: bool) -> Seq<
    CategoryView,
> {
    let f = all_favorites(cats);
    if no_favorite_ids || f.len() == 0 {
        cats
    } else {
        seq![
            CategoryView {
                id: favor_cate_id(),
                clan_id: f[0].clan_id,
                name: "favoriteChannel"@,
                order: -0x8000_0000i32,
                channels: f,
            },
        ] + cats
    }
}

fn push_favorites(chs: &Vec<Channel>, out: &mut Vec<Channel>)
    ensures
        channels_view(final(out)@) == channels_view(old(out)@) + favorites_in(channels_view(chs@)),
{
    let ghost base = channels_view(out@);
    let ghost cv = channels_view(chs@);
    let mut i: usize = 0;
    proof {
        assert(base + favorites_in(cv.subrange(0, 0)) =~= base);
    }
    while i < chs.len()
        invariant
            cv == channels_view(chs@),
            i <= chs@.len(),
            channels_view(out@) == base + favorites_in(cv.subrange(0, i as int)),
        decreases chs@.len() - i,
    {
        proof {
            assert(cv.subrange(0, i + 1).drop_last() =~= cv.subrange(0, i as int));
            assert(cv.subrange(0, i + 1).last() == chs@[i as int]@);
        }
        if chs[i].is_favorite {
            let ghost before = channels_view(out@);
            let c = chs[i].clone();
            out.push(c);
            proof {
                assert(channels_view(out@) =~= before.push(chs@[i as int]@));
            }
        }
        i += 1;
    }
    proof {
        assert(cv.subrange(0, cv.len() as int) =~= cv);
    }
}

/// Puts the favorites category first (see `assemble_spec`).
pub fn assemble_with_favorites(
    categories: Vec<Category>,
    favorite_ids: &HashSet<String>,
    clan_id: &str,
) -> (r: Vec<Category>)
    ensures
        categories_view(r@) == assemble_spec(categories_view(categories@), favorite_ids@.is_empty()),
{
    assemble_favorites(categories, !favorite_ids.is_empty())
}

/// Puts the favorites category first when the clan has favorite channels (see
/// `assemble_spec`).
pub fn assemble_favorites(categories: Vec<Category>, has_favorites: bool) -> (r: Vec<Category>)
    ensures
        categories_view(r@) == assemble_spec(categories_view(categories@), !has_favorites),
{
    let ghost cv = categories_view(categories@);
    if !has_favorites {
        return categories;
    }
    let mut favs: Vec<Channel> = Vec::new();
    let mut i: usize = 0;
    proof {
        assert(channels_view(favs@) =~= Seq::<ChannelView>::empty());
        assert(cv.subrange(0, 0) =~= Seq::<CategoryView>::empty());
    }
    while i < categories.len()
        invariant
            cv == categories_view(categories@),
            i <= categories@.len(),
            channels_view(favs@) == all_favorites(cv.subrange(0, i as int)),
        decreases categories@.len() - i,
    {
        proof {
            assert(cv.subrange(0, i + 1).drop_last() =~= cv.subrange(0, i as int));
            assert(cv.subrange(0, i + 1).last() == categories@[i as int]@);
        }
        push_favorites(&categories[i].channels, &mut favs);
        i += 1;
    }
    proof {
        assert(cv.subrange(0, cv.len() as int) =~= cv);
    }
    let mut categories = categories;
    if favs.len() > 0 {
        let favor_clan_id = favs[0].clan_id.clone();
        let cat = Category {
            id: favor_cate_id_string(),
            clan_id: favor_clan_id,
            name: owned("favoriteChannel"),
            order: i32::MIN,
            channels: favs,
        };
        let ghost catv = cat@;
        categories.insert(0, cat);
        proof {
            assert(categories_view(categories@) =~= seq![catv] + cv);
        }
    }
    categories
}

pub(crate) proof fn lemma_first_holder_exists(cats: Seq<CategoryView>, id: Seq<char>)
    ensures
        is_first_holder(cats, id, first_holder(cats, id)),
        any_category_has(cats, id) ==> first_holder(cats, id) < cats.len(),
    decreases cats.len(),
{
    if cats.len() == 0 {
        assert(is_first_holder(cats, id, 0));
    } else {
        let p = cats.drop_last();
        lemma_first_holder_exists(p, id);
        let i = first_holder(p, id);
        assert forall|j: int| 0 <= j < i implies !has_channel_id((#[trigger] cats[j]).channels, id) by {
            assert(cats[j] == p[j]);
        }
        if i < p.len() {
            assert(cats[i] == p[i]);
            assert(is_first_holder(cats, id, i));
        } else if has_channel_id(cats.last().channels, id) {
            assert(is_first_holder(cats, id, p.len() as int));
        } else {
            assert(is_first_holder(cats, id, cats.len() as int));
        }
    }
    let f = first_holder(cats, id);
    if any_category_has(cats, id) {
        let w = choose|w: int| 0 <= w < cats.len() && #[trigger] has_channel_id(cats[w].channels, id);
        if f == cats.len() {
            assert(!has_channel_id(cats[w].channels, id));
        }
    }
}

pub(crate) proof fn lemma_first_channel_exists(chs: Seq<ChannelView>, id: Seq<char>)
    ensures
        is_first_channel(chs, id, first_channel(chs, id)),
        has_channel_id(chs, id) ==> first_channel(chs, id) < chs.len(),
    decreases chs.len(),
{
    if chs.len() == 0 {
        assert(is_first_channel(chs, id, 0));
    } else {
        let p = chs.drop_last();
        lemma_first_channel_exists(p, id);
        let i = first_channel(p, id);
        assert forall|j: int| 0 <= j < i implies (#[trigger] chs[j]).id != id by {
            assert(chs[j] == p[j]);
        }
        if i < p.len() {
            assert(chs[i] == p[i]);
            assert(is_first_channel(chs, id, i));
        } else if chs.last().id == id {
            assert(is_first_channel(chs, id, p.len() as int));
        } else {
            assert(is_first_channel(chs, id, chs.len() as int));
        }
    }
    let f = first_channel(chs, id);
    if has_channel_id(chs, id) {
        let w = choose|w: int| 0 <= w < chs.len() && #[trigger] chs[w].id == id;
        if f == chs.len() {
            assert(chs[w].id != id);
        }
    }
}

/// Renaming a channel or changing its privacy reaches every copy of it, in every category
/// (the favorites category included): each gets the new name (when one is given) and the
/// new privacy; every other channel, and every category's own fields, stay as they were.
pub proof fn law_update_reaches_every_copy(
    cats: Seq<CategoryView>,
    id: Seq<char>,
    label: Option<Seq<char>>,
    private: bool,
)
    ensures
        update_channel_spec(cats, id, label, private).len() == cats.len(),
        forall|i: int|
            #![trigger update_channel_spec(cats, id, label, private)[i]]
            0 <= i < cats.len() ==> {
                let after = update_channel_spec(cats, id, label, private)[i];
                &&& after.id == cats[i].id
                &&& after.clan_id == cats[i].clan_id
                &&& after.name == cats[i].name
                &&& after.channels.len() == cats[i].channels.len()
                &&& forall|j: int|
                    #![trigger after.channels[j]]
                    0 <= j < cats[i].channels.len() ==> {
                        let b = cats[i].channels[j];
                        let a = after.channels[j];
                        &&& b.id == id ==> a.private == private && a.id == id && a.name == (match label {
                            Some(l) => l,
                            None => b.name,
                        }) && a.clan_id == b.clan_id && a.channel_type == b.channel_type
                        &&& b.id != id ==> a == b
                    }
            },
{
}

} // verus!

