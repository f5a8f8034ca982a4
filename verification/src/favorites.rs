use vstd::prelude::*;

use crate::channel::{
    categories_view, channels_view, favor_cate_id, favor_cate_id_string, find_category, find_holder,
    find_channel_in, first_category_with_id, has_channel_id, any_category_has, is_first_holder,
    first_holder, is_first_channel, first_channel, retain_other_channels, without_id, Category, CategoryView,
    Channel, ChannelView,
};
use crate::channel_list::{channel_at, clan_entry, clans_view, ChannelList, ClanChannels};
use crate::text::{owned, str_eq};

verus! {

/// A channel with id `id` takes the favorite flag `fav`; others stay as they are.
pub open spec fn flagged(c: ChannelView, id: Seq<char>, fav: bool) -> ChannelView {
    if c.id == id {
        ChannelView { is_favorite: fav, ..c }
    } else {
        c
    }
}

pub open spec fn flag_category(k: CategoryView, id: Seq<char>, fav: bool) -> CategoryView {
    CategoryView { channels: k.channels.map_values(|c: ChannelView| flagged(c, id, fav)), ..k }
}

/// Every listing of channel `id`, in every category, takes the favorite flag `fav`.
pub open spec fn flag_all(cats: Seq<CategoryView>, id: Seq<char>, fav: bool) -> Seq<CategoryView> {
    cats.map_values(|k: CategoryView| flag_category(k, id, fav))
}

/// The favorites category of a clan holding only `ch`, first in order.
pub open spec fn favorites_category(clan_id: Seq<char>, ch: ChannelView) -> CategoryView {
    CategoryView {
        id: favor_cate_id(),
        clan_id,
        name: "favoriteChannel"@,
        order: -0x8000_0000i32,
        channels: seq![ch],
    }
}

/// `ch` joins the first favorites category unless it lists it already; without such a
/// category, one holding `ch` is put first.
pub open spec fn with_favorite_entry(cats: Seq<CategoryView>, ch: ChannelView, clan_id: Seq<char>) -> Seq<CategoryView> {
    let f = first_category_with_id(cats, favor_cate_id());
    if f < cats.len() {
        if has_channel_id(cats[f].channels, ch.id) {
            cats
        } else {
            cats.update(f, CategoryView { channels: cats[f].channels.push(ch), ..cats[f] })
        }
    } else {
        seq![favorites_category(clan_id, ch)] + cats
    }
}

/// The categories of clan `clan_id` after channel `id` became a favorite: its first listing,
/// flagged, joins the favorites (see `with_favorite_entry`), and every listing of it is
/// flagged. Nothing changes when no category lists it.
pub open spec fn add_favorite_spec(cats: Seq<CategoryView>, id: Seq<char>, clan_id: Seq<char>) -> Seq<CategoryView> {
    if any_category_has(cats, id) {
        let ch = ChannelView { is_favorite: true, ..channel_at(cats, id) };
        flag_all(with_favorite_entry(cats, ch, clan_id), id, true)
    } else {
        cats
    }
}

/// The categories after channel `id` stopped being a favorite: every listing of it is
/// unflagged, it leaves the first favorites category, and favorites categories left empty
/// are dropped.
pub open spec fn remove_favorite_spec(cats: Seq<CategoryView>, id: Seq<char>) -> Seq<CategoryView> {
    let u = flag_all(cats, id, false);
    let f = first_category_with_id(u, favor_cate_id());
    let p = if f < u.len() {
        u.update(f, CategoryView { channels: without_id(u[f].channels, id), ..u[f] })
    } else {
        u
    };
    p.filter(|c: CategoryView| c.id != favor_cate_id() || c.channels.len() > 0)
}

fn flag_channels(chs: &mut Vec<Channel>, id: &String, fav: bool)
    ensures
        channels_view(final(chs)@) == channels_view(old(chs)@).map_values(|c: ChannelView| flagged(c, id@, fav)),
{
    let ghost old_v = channels_view(chs@);
    let mut i: usize = 0;
    while i < chs.len()
        invariant
            chs@.len() == old_v.len(),
            i <= chs@.len(),
            forall|j: int| 0 <= j < i ==> #[trigger] chs@[j]@ == flagged(old_v[j], id@, fav),
            forall|j: int| i <= j < chs@.len() ==> #[trigger] chs@[j]@ == old_v[j],
        decreases chs@.len() - i,
    {
        let ghost before = chs@;
        proof {
            assert(chs@[i as int]@ == old_v[i as int]);
        }
        if chs[i].id == *id {
            let mut c = chs.remove(i);
            c.is_favorite = fav;
            let ghost cv = c;
            chs.insert(i, c);
            proof {
                assert(chs@ =~= before.update(i as int, cv));
            }
        }
        proof {
            assert(forall|j: int| i + 1 <= j < chs@.len() ==> chs@[j] == before[j]);
        }
        i += 1;
    }
    proof {
        assert(channels_view(chs@) =~= old_v.map_values(|c: ChannelView| flagged(c, id@, fav)));
    }
}

fn flag_everywhere(cats: &mut Vec<Category>, id: &String, fav: bool)
    ensures
        categories_view(final(cats)@) == flag_all(categories_view(old(cats)@), id@, fav),
{
    let ghost old_v = categories_view(cats@);
    let mut i: usize = 0;
    while i < cats.len()
        invariant
            cats@.len() == old_v.len(),
            i <= cats@.len(),
            forall|j: int| 0 <= j < i ==> #[trigger] cats@[j]@ == flag_category(old_v[j], id@, fav),
            forall|j: int| i <= j < cats@.len() ==> #[trigger] cats@[j]@ == old_v[j],
        decreases cats@.len() - i,
    {
        let ghost before = cats@;
        proof {
            assert(cats@[i as int]@ == old_v[i as int]);
        }
        let mut k = cats.remove(i);
        flag_channels(&mut k.channels, id, fav);
        let ghost kv = k;
        cats.insert(i, k);
        proof {
            assert(cats@ =~= before.update(i as int, kv));
            assert(kv@ =~= flag_category(old_v[i as int], id@, fav));
            assert(forall|j: int| i + 1 <= j < cats@.len() ==> cats@[j] == before[j]);
        }
        i += 1;
    }
    proof {
        assert(categories_view(cats@) =~= flag_all(old_v, id@, fav));
    }
}

/// Channel `channel_id` of clan `clan_id` becomes a favorite (see `add_favorite_spec`).
/// Returns whether some category lists it.
pub fn add_favorite(cats: &mut Vec<Category>, channel_id: &str, clan_id: &str) -> (found: bool)
    ensures
        found == any_category_has(categories_view(old(cats)@), channel_id@),
        categories_view(final(cats)@) == add_favorite_spec(categories_view(old(cats)@), channel_id@, clan_id@),
{
    let ghost cv = categories_view(cats@);
    let id = owned(channel_id);
    let h = find_holder(cats, &id);
    proof {
        if any_category_has(cv, id@) {
            let w = choose|w: int| 0 <= w < cv.len() && #[trigger] has_channel_id(cv[w].channels, id@);
            if h as int == cv.len() {
                assert(!has_channel_id(cv[w].channels, id@));
            }
        }
        if (h as int) < cv.len() {
            assert(has_channel_id(cv[h as int].channels, id@));
        }
    }
    if h == cats.len() {
        return false;
    }
    let j = find_channel_in(&cats[h].channels, &id);
    proof {
        assert(cv[h as int].channels == channels_view(cats@[h as int].channels@));
        let chs = cv[h as int].channels;
        let w = choose|w: int| 0 <= w < chs.len() && #[trigger] chs[w].id == id@;
        if j as int == chs.len() {
            assert(chs[w].id != id@);
        }
    }
    let mut ch = cats[h].channels[j].clone();
    ch.is_favorite = true;
    let ghost chv = ch@;
    proof {
        assert(chv == ChannelView { is_favorite: true, ..channel_at(cv, id@) });
    }
    let fav_id = favor_cate_id_string();
    let f = find_category(cats, &fav_id);
    if f < cats.len() {
        let present = {
            let k = find_channel_in(&cats[f].channels, &id);
            k < cats[f].channels.len()
        };
        proof {
            let chs = cv[f as int].channels;
            assert(chs == channels_view(cats@[f as int].channels@));
            if has_channel_id(chs, id@) {
                let w = choose|w: int| 0 <= w < chs.len() && #[trigger] chs[w].id == id@;
                assert(first_channel(chs, id@) <= w);
            }
        }
        if !present {
            let ghost before = cats@;
            let mut k = cats.remove(f);
            k.channels.push(ch);
            let ghost kv = k;
            cats.insert(f, k);
            proof {
                assert(cats@ =~= before.update(f as int, kv));
                assert(channels_view(kv.channels@) =~= cv[f as int].channels.push(chv));
                assert(categories_view(cats@) =~= cv.update(
                    f as int,
                    CategoryView { channels: cv[f as int].channels.push(chv), ..cv[f as int] },
                ));
            }
        }
    } else {
        let mut chs: Vec<Channel> = Vec::new();
        chs.push(ch);
        let cat = Category {
            id: fav_id,
            clan_id: owned(clan_id),
            name: owned("favoriteChannel"),
            order: i32::MIN,
            channels: chs,
        };
        let ghost catv = cat@;
        cats.insert(0, cat);
        proof {
            reveal_strlit("favoriteChannel");
            assert(channels_view(chs@) =~= seq![chv]);
            assert(catv == favorites_category(clan_id@, chv));
            assert(categories_view(cats@) =~= seq![catv] + cv);
        }
    }
    let ghost mid = categories_view(cats@);
    proof {
        assert(mid == with_favorite_entry(cv, chv, clan_id@));
    }
    flag_everywhere(cats, &id, true);
    true
}

/// Channel `channel_id` stops being a favorite (see `remove_favorite_spec`).
pub fn remove_favorite(cats: &mut Vec<Category>, channel_id: &str)
    ensures
        categories_view(final(cats)@) == remove_favorite_spec(categories_view(old(cats)@), channel_id@),
{
    let ghost cv = categories_view(cats@);
    let id = owned(channel_id);
    flag_everywhere(cats, &id, false);
    let ghost u = categories_view(cats@);
    let fav_id = favor_cate_id_string();
    let f = find_category(cats, &fav_id);
    if f < cats.len() {
        let ghost before = cats@;
        let mut k = cats.remove(f);
        retain_other_channels(&mut k.channels, channel_id);
        let ghost kv = k;
        cats.insert(f, k);
        proof {
            assert(cats@ =~= before.update(f as int, kv));
            assert(categories_view(cats@) =~= u.update(
                f as int,
                CategoryView { channels: without_id(u[f as int].channels, id@), ..u[f as int] },
            ));
        }
    }
    let ghost p = categories_view(cats@);
    let ghost s = cats@;
    let mut kept: Vec<Category> = Vec::new();
    let mut i: usize = 0;
    proof {
        assert(p.take(0) =~= Seq::<CategoryView>::empty());
        assert(categories_view(kept@) =~= Seq::<CategoryView>::empty());
    }
    while i < cats.len()
        invariant
            s == cats@,
            p == categories_view(s),
            fav_id@ == favor_cate_id(),
            i <= s.len(),
            categories_view(kept@) == p.take(i as int).filter(
                |c: CategoryView| c.id != favor_cate_id() || c.channels.len() > 0,
            ),
        decreases s.len() - i,
    {
        proof {
            reveal_with_fuel(Seq::filter, 1);
            assert(p.take(i + 1).drop_last() =~= p.take(i as int));
            assert(p.take(i + 1).last() == s[i as int]@);
        }
        if !(cats[i].id == fav_id) || cats[i].channels.len() > 0 {
            let ghost kb = categories_view(kept@);
            let c = cats[i].clone();
            kept.push(c);
            proof {
                assert(categories_view(kept@) =~= kb.push(s[i as int]@));
            }
        }
        i += 1;
    }
    proof {
        assert(p.take(s.len() as int) =~= p);
    }
    *cats = kept;
}

/// The channel lists of clan `clan_id` as held by `list` (none when not loaded).
pub open spec fn held_categories(list: ChannelList, clan_id: Seq<char>) -> Option<Seq<CategoryView>> {
    let cs = clans_view(list.clans@);
    let k = clan_entry(cs, clan_id);
    if k < cs.len() {
        Some(cs[k].1)
    } else {
        None
    }
}

impl ChannelList {
    /// The user marks channel `channel_id` of clan `clan_id` as a favorite: when the clan is
    /// loaded its categories change as `add_favorite_spec` says. Returns whether a loaded
    /// clan changed (a redraw is due).
    pub fn add_channel_favorite(&mut self, channel_id: &str, clan_id: &str) -> (changed: bool)
        ensures
            final(self).active_clan_id == old(self).active_clan_id,
            final(self).active_channel_id == old(self).active_channel_id,
            ({
                let cs = clans_view(old(self).clans@);
                let k = clan_entry(cs, clan_id@);
                &&& changed == (k < cs.len() && any_category_has(cs[k].1, channel_id@))
                &&& k < cs.len() ==> clans_view(final(self).clans@) == cs.update(
                    k,
                    (cs[k].0, add_favorite_spec(cs[k].1, channel_id@, clan_id@)),
                )
                &&& k == cs.len() ==> clans_view(final(self).clans@) == cs
            }),
    {
        let ghost cs = clans_view(self.clans@);
        let key = owned(clan_id);
        let k = crate::channel_list::find_clan_entry(&self.clans, &key);
        if k == self.clans.len() {
            return false;
        }
        let ghost before = self.clans@;
        let mut entry = self.clans.remove(k);
        let changed = add_favorite(&mut entry.categories, channel_id, clan_id);
        let ghost ev = entry;
        self.clans.insert(k, entry);
        proof {
            assert(self.clans@ =~= before.update(k as int, ev));
            assert(cs[k as int].1 == categories_view(before[k as int].categories@));
            assert(clans_view(self.clans@) =~= cs.update(
                k as int,
                (cs[k as int].0, add_favorite_spec(cs[k as int].1, channel_id@, clan_id@)),
            ));
        }
        changed
    }

    /// The user unmarks channel `channel_id` of clan `clan_id` as a favorite: when the clan
    /// is loaded its categories change as `remove_favorite_spec` says. Returns whether the
    /// clan is loaded (a redraw is due).
    pub fn remove_channel_favorite(&mut self, channel_id: &str, clan_id: &str) -> (changed: bool)
        ensures
            final(self).active_clan_id == old(self).active_clan_id,
            final(self).active_channel_id == old(self).active_channel_id,
            ({
                let cs = clans_view(old(self).clans@);
                let k = clan_entry(cs, clan_id@);
                &&& changed == (k < cs.len())
                &&& k < cs.len() ==> clans_view(final(self).clans@) == cs.update(
                    k,
                    (cs[k].0, remove_favorite_spec(cs[k].1, channel_id@)),
                )
                &&& k == cs.len() ==> clans_view(final(self).clans@) == cs
            }),
    {
        let ghost cs = clans_view(self.clans@);
        let key = owned(clan_id);
        let k = crate::channel_list::find_clan_entry(&self.clans, &key);
        if k == self.clans.len() {
            return false;
        }
        let ghost before = self.clans@;
        let mut entry = self.clans.remove(k);
        remove_favorite(&mut entry.categories, channel_id);
        let ghost ev = entry;
        self.clans.insert(k, entry);
        proof {
            assert(self.clans@ =~= before.update(k as int, ev));
            assert(cs[k as int].1 == categories_view(before[k as int].categories@));
            assert(clans_view(self.clans@) =~= cs.update(
                k as int,
                (cs[k as int].0, remove_favorite_spec(cs[k as int].1, channel_id@)),
            ));
        }
        true
    }
}

// ---------------------------------------------------------------------------
// Laws
// ---------------------------------------------------------------------------

/// No listing of channel `id` is flagged as a favorite.
pub open spec fn not_favorite_anywhere(cats: Seq<CategoryView>, id: Seq<char>) -> bool {
    forall|i: int, j: int|
        0 <= i < cats.len() && 0 <= j < cats[i].channels.len() && (#[trigger] cats[i].channels[j]).id == id
            ==> !cats[i].channels[j].is_favorite
}

/// No category is the favorites category.
pub open spec fn no_favorites_category(cats: Seq<CategoryView>) -> bool {
    forall|i: int| 0 <= i < cats.len() ==> (#[trigger] cats[i]).id != favor_cate_id()
}

proof fn lemma_filter_keeps_all(s: Seq<CategoryView>, p: spec_fn(CategoryView) -> bool)
    requires
        forall|i: int| 0 <= i < s.len() ==> p(#[trigger] s[i]),
    ensures
        s.filter(p) == s,
    decreases s.len(),
{
    reveal_with_fuel(Seq::filter, 1);
    if s.len() > 0 {
        let d = s.drop_last();
        assert forall|i: int| 0 <= i < d.len() implies p(#[trigger] d[i]) by {
            assert(d[i] == s[i]);
        }
        lemma_filter_keeps_all(d, p);
        assert(p(s.last()));
        assert(s.drop_last().push(s.last()) =~= s);
    }
}

proof fn lemma_unflag_restores(cats: Seq<CategoryView>, id: Seq<char>)
    requires
        not_favorite_anywhere(cats, id),
    ensures
        flag_all(flag_all(cats, id, true), id, false) == cats,
{
    let r = flag_all(flag_all(cats, id, true), id, false);
    assert forall|i: int| 0 <= i < cats.len() implies #[trigger] r[i] == cats[i] by {
        let k = cats[i];
        let chs = r[i].channels;
        assert forall|j: int| 0 <= j < k.channels.len() implies #[trigger] chs[j] == k.channels[j] by {
            let c = k.channels[j];
            if c.id == id {
                assert(!cats[i].channels[j].is_favorite);
            }
        }
        assert(chs =~= k.channels);
    }
    assert(r =~= cats);
}

/// Unmarking a favorite undoes marking it: for a channel the categories list, that is not a
/// favorite anywhere, in a clan without a favorites category, marking it as a favorite and
/// then unmarking it gives back the categories as they were.
pub proof fn law_unfavorite_undoes_favorite(cats: Seq<CategoryView>, id: Seq<char>, clan_id: Seq<char>)
    requires
        any_category_has(cats, id),
        not_favorite_anywhere(cats, id),
        no_favorites_category(cats),
    ensures
        remove_favorite_spec(add_favorite_spec(cats, id, clan_id), id) == cats,
{
    let ch = ChannelView { is_favorite: true, ..channel_at(cats, id) };
    assert(ch.id == id) by {
        let i = first_holder(cats, id);
        crate::channel::lemma_first_holder_exists(cats, id);
        let chs = cats[i].channels;
        crate::channel::lemma_first_channel_exists(chs, id);
    }
    crate::channel::lemma_first_category_with_id(cats, favor_cate_id(), cats.len() as int);
    let fav = favorites_category(clan_id, ch);
    let w = seq![fav] + cats;
    assert(with_favorite_entry(cats, ch, clan_id) == w);
    let a = flag_all(w, id, true);
    let u = flag_all(a, id, false);
    assert(u =~= seq![flag_category(flag_category(fav, id, true), id, false)] + flag_all(flag_all(cats, id, true), id, false));
    lemma_unflag_restores(cats, id);
    assert(u == seq![flag_category(flag_category(fav, id, true), id, false)] + cats);
    assert(u[0].id == favor_cate_id());
    crate::channel::lemma_first_category_with_id(u, favor_cate_id(), 0);
    let stripped = CategoryView { channels: without_id(u[0].channels, id), ..u[0] };
    assert(u[0].channels =~= seq![flagged(flagged(ch, id, true), id, false)]);
    reveal_with_fuel(Seq::filter, 2);
    assert(without_id(u[0].channels, id) =~= Seq::<ChannelView>::empty());
    let p = u.update(0, stripped);
    assert(p =~= seq![stripped] + cats);
    let keep = |c: CategoryView| c.id != favor_cate_id() || c.channels.len() > 0;
    cats.lemma_filter_prepend(stripped, keep);
    assert(!keep(stripped));
    assert forall|i: int| 0 <= i < cats.len() implies keep(#[trigger] cats[i]) by {}
    lemma_filter_keeps_all(cats, keep);
    assert((seq![stripped] + cats).filter(keep) =~= cats);
}

} // verus!
