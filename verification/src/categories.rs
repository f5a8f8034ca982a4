use vstd::prelude::*;

use crate::channel::{
    categories_view, channels_view, general_name, general_string, sort_by_order, sort_categories,
    zero_id, zero_string, Category, CategoryView, Channel, ChannelView,
};
use crate::text::{chars_less, chars_of, seq_less};

verus! {

/// A category as the server describes it.
#[derive(Debug, Clone, PartialEq, Eq)]
pub struct CategoryDesc {
    pub category_id: String,
    pub category_name: String,
    pub clan_id: String,
    pub category_order: i32,
}

pub struct CategoryDescView {
    pub category_id: Seq<char>,
    pub category_name: Seq<char>,
    pub clan_id: Seq<char>,
    pub category_order: i32,
}

impl View for CategoryDesc {
    type V = CategoryDescView;

    open spec fn view(&self) -> CategoryDescView {
        CategoryDescView {
            category_id: self.category_id@,
            category_name: self.category_name@,
            clan_id: self.clan_id@,
            category_order: self.category_order,
        }
    }
}

pub open spec fn descs_view(v: Seq<CategoryDesc>) -> Seq<CategoryDescView> {
    v.map_values(|d: CategoryDesc| d@)
}

// ---------------------------------------------------------------------------
// Ordering channels by id
// ---------------------------------------------------------------------------

/// `x` inserted into `s` after every channel whose id does not sort after its own, counting
/// from the back: one step of a stable sort by id.
pub open spec fn insert_by_id(s: Seq<ChannelView>, x: ChannelView) -> Seq<ChannelView>
    decreases s.len(),
{
    if s.len() == 0 {
        seq![x]
    } else if !seq_less(x.id, s.last().id) {
        s.push(x)
    } else {
        insert_by_id(s.drop_last(), x).push(s.last())
    }
}

/// `s` stably sorted by channel id.
pub open spec fn sort_by_id(s: Seq<ChannelView>) -> Seq<ChannelView>
    decreases s.len(),
{
    if s.len() == 0 {
        s
    } else {
        insert_by_id(sort_by_id(s.drop_last()), s.last())
    }
}

proof fn lemma_insert_by_id_at(s: Seq<ChannelView>, x: ChannelView, j: int)
    requires
        0 <= j <= s.len(),
        forall|k: int| j <= k < s.len() ==> seq_less(x.id, (#[trigger] s[k]).id),
        j > 0 ==> !seq_less(x.id, s[j - 1].id),
    ensures
        insert_by_id(s, x) == s.take(j) + seq![x] + s.skip(j),
    decreases s.len(),
{
    if s.len() == 0 {
        assert(s.take(j) + seq![x] + s.skip(j) =~= seq![x]);
    } else if j == s.len() {
        assert(s.take(j) + seq![x] + s.skip(j) =~= s.push(x));
    } else {
        let p = s.drop_last();
        assert(s[s.len() - 1] == s.last());
        lemma_insert_by_id_at(p, x, j);
        assert(p.take(j) + seq![x] + p.skip(j) + seq![s.last()] =~= s.take(j) + seq![x] + s.skip(
            j,
        ));
    }
}

/// Stably sorts channels by id.
fn sort_channels_by_id(chs: &mut Vec<Channel>)
    ensures
        channels_view(final(chs)@) == sort_by_id(channels_view(old(chs)@)),
{
    let ghost s = channels_view(chs@);
    let mut out: Vec<Channel> = Vec::new();
    let n = chs.len();
    proof {
        assert(s.subrange(0, 0) =~= Seq::<ChannelView>::empty());
        assert(channels_view(out@) =~= Seq::<ChannelView>::empty());
    }
    while chs.len() > 0
        invariant
            n == s.len(),
            chs@.len() <= n,
            channels_view(chs@) == s.subrange(n - chs@.len(), n as int),
            channels_view(out@) == sort_by_id(s.subrange(0, n - chs@.len())),
        decreases chs@.len(),
    {
        let ghost k = n - chs@.len();
        let ghost before = chs@;
        let x = chs.remove(0);
        proof {
            assert(channels_view(before)[0] == s.subrange(k, n as int)[0]);
            assert(x@ == s[k]);
            assert(channels_view(chs@) =~= s.subrange(k + 1, n as int)) by {
                assert forall|q: int| 0 <= q < chs@.len() implies channels_view(chs@)[q]
                    == s.subrange(k + 1, n as int)[q] by {
                    assert(chs@[q] == before[q + 1]);
                    assert(channels_view(before)[q + 1] == s.subrange(k, n as int)[q + 1]);
                }
            }
            assert(s.subrange(0, k + 1).drop_last() =~= s.subrange(0, k));
        }
        let ghost ov = channels_view(out@);
        let xid = chars_of(x.id.as_str());
        let mut j = out.len();
        while j > 0 && chars_less(&xid, &chars_of(out[j - 1].id.as_str()))
            invariant
                ov == channels_view(out@),
                xid@ == x@.id,
                j <= out@.len(),
                forall|q: int| j <= q < ov.len() ==> seq_less(x@.id, (#[trigger] ov[q]).id),
            decreases j,
        {
            proof {
                assert(ov[j - 1] == out@[j - 1]@);
            }
            j -= 1;
        }
        proof {
            if j > 0 {
                assert(ov[j - 1] == out@[j - 1]@);
            }
            lemma_insert_by_id_at(ov, x@, j as int);
        }
        let ghost xv = x@;
        out.insert(j, x);
        proof {
            assert(channels_view(out@) =~= ov.take(j as int) + seq![xv] + ov.skip(j as int));
        }
    }
    proof {
        assert(s.subrange(0, n as int) =~= s);
    }
    *chs = out;
}

// ---------------------------------------------------------------------------
// Grouping channels into categories
// ---------------------------------------------------------------------------

/// The category a top-level channel is listed under: its category id, else `0`.
pub open spec fn cat_key(ch: ChannelView) -> Seq<char> {
    match ch.category_id {
        Some(c) => c,
        None => zero_id(),
    }
}

/// The keys of the categories that top-level channels are listed under, each once, in the
/// order in which they first occur.
pub open spec fn group_keys(chs: Seq<ChannelView>) -> Seq<Seq<char>>
    decreases chs.len(),
{
    if chs.len() == 0 {
        Seq::empty()
    } else {
        let k = group_keys(chs.drop_last());
        let c = chs.last();
        if c.parent_id is None && !k.contains(cat_key(c)) {
            k.push(cat_key(c))
        } else {
            k
        }
    }
}

/// The top-level channels listed under `key`, in order.
pub open spec fn members(chs: Seq<ChannelView>, key: Seq<char>) -> Seq<ChannelView>
    decreases chs.len(),
{
    if chs.len() == 0 {
        Seq::empty()
    } else {
        let p = members(chs.drop_last(), key);
        let c = chs.last();
        if c.parent_id is None && cat_key(c) == key {
            p.push(c)
        } else {
            p
        }
    }
}

/// The threads of the channel `pid`, in order.
pub open spec fn threads_of(chs: Seq<ChannelView>, pid: Seq<char>) -> Seq<ChannelView>
    decreases chs.len(),
{
    if chs.len() == 0 {
        Seq::empty()
    } else {
        let p = threads_of(chs.drop_last(), pid);
        if chs.last().parent_id == Some(pid) {
            p.push(chs.last())
        } else {
            p
        }
    }
}

pub open spec fn ids(s: Seq<ChannelView>) -> Seq<Seq<char>> {
    s.map_values(|c: ChannelView| c.id)
}

pub open spec fn strings_view(v: Seq<String>) -> Seq<Seq<char>> {
    v.map_values(|s: String| s@)
}

proof fn lemma_keys_have_members(chs: Seq<ChannelView>, i: int)
    requires
        0 <= i < group_keys(chs).len(),
    ensures
        members(chs, group_keys(chs)[i]).len() > 0,
    decreases chs.len(),
{
    let k = group_keys(chs.drop_last());
    let key = group_keys(chs)[i];
    if i < k.len() {
        assert(key == k[i]);
        lemma_keys_have_members(chs.drop_last(), i);
    }
}

fn cat_key_exec(ch: &Channel) -> (r: String)
    ensures
        r@ == cat_key(ch@),
{
    match &ch.category_id {
        Some(c) => c.clone(),
        None => zero_string(),
    }
}

fn contains_string(v: &Vec<String>, s: &String) -> (r: bool)
    ensures
        r == strings_view(v@).contains(s@),
{
    let mut i: usize = 0;
    while i < v.len()
        invariant
            i <= v@.len(),
            forall|j: int| 0 <= j < i ==> v@[j]@ != s@,
        decreases v@.len() - i,
    {
        if v[i] == *s {
            proof {
                assert(strings_view(v@)[i as int] == s@);
            }
            return true;
        }
        i += 1;
    }
    proof {
        if strings_view(v@).contains(s@) {
            let w = choose|w: int| 0 <= w < strings_view(v@).len() && strings_view(v@)[w] == s@;
            assert(v@[w]@ == s@);
        }
    }
    false
}

fn group_keys_exec(chs: &Vec<Channel>) -> (r: Vec<String>)
    ensures
        strings_view(r@) == group_keys(channels_view(chs@)),
{
    let ghost cv = channels_view(chs@);
    let mut keys: Vec<String> = Vec::new();
    let mut i: usize = 0;
    proof {
        assert(strings_view(keys@) =~= Seq::<Seq<char>>::empty());
        assert(cv.subrange(0, 0) =~= Seq::<ChannelView>::empty());
    }
    while i < chs.len()
        invariant
            cv == channels_view(chs@),
            i <= chs@.len(),
            strings_view(keys@) == group_keys(cv.subrange(0, i as int)),
        decreases chs@.len() - i,
    {
        proof {
            assert(cv.subrange(0, i + 1).drop_last() =~= cv.subrange(0, i as int));
            assert(cv.subrange(0, i + 1).last() == chs@[i as int]@);
        }
        if chs[i].parent_id.is_none() {
            let k = cat_key_exec(&chs[i]);
            if !contains_string(&keys, &k) {
                let ghost before = strings_view(keys@);
                keys.push(k);
                proof {
                    assert(strings_view(keys@) =~= before.push(k@));
                }
            }
        }
        i += 1;
    }
    proof {
        assert(cv.subrange(0, cv.len() as int) =~= cv);
    }
    keys
}

fn members_exec(chs: &Vec<Channel>, key: &String) -> (r: Vec<Channel>)
    ensures
        channels_view(r@) == members(channels_view(chs@), key@),
{
    let ghost cv = channels_view(chs@);
    let mut out: Vec<Channel> = Vec::new();
    let mut i: usize = 0;
    proof {
        assert(channels_view(out@) =~= Seq::<ChannelView>::empty());
        assert(cv.subrange(0, 0) =~= Seq::<ChannelView>::empty());
    }
    while i < chs.len()
        invariant
            cv == channels_view(chs@),
            i <= chs@.len(),
            channels_view(out@) == members(cv.subrange(0, i as int), key@),
        decreases chs@.len() - i,
    {
        proof {
            assert(cv.subrange(0, i + 1).drop_last() =~= cv.subrange(0, i as int));
            assert(cv.subrange(0, i + 1).last() == chs@[i as int]@);
        }
        if chs[i].parent_id.is_none() {
            let k = cat_key_exec(&chs[i]);
            if k == *key {
                let ghost before = channels_view(out@);
                let c = chs[i].clone();
                out.push(c);
                proof {
                    assert(channels_view(out@) =~= before.push(chs@[i as int]@));
                }
            }
        }
        i += 1;
    }
    proof {
        assert(cv.subrange(0, cv.len() as int) =~= cv);
    }
    out
}

fn threads_exec(chs: &Vec<Channel>, pid: &String) -> (r: Vec<Channel>)
    ensures
        channels_view(r@) == threads_of(channels_view(chs@), pid@),
{
    let ghost cv = channels_view(chs@);
    let mut out: Vec<Channel> = Vec::new();
    let mut i: usize = 0;
    proof {
        assert(channels_view(out@) =~= Seq::<ChannelView>::empty());
        assert(cv.subrange(0, 0) =~= Seq::<ChannelView>::empty());
    }
    while i < chs.len()
        invariant
            cv == channels_view(chs@),
            i <= chs@.len(),
            channels_view(out@) == threads_of(cv.subrange(0, i as int), pid@),
        decreases chs@.len() - i,
    {
        proof {
            assert(cv.subrange(0, i + 1).drop_last() =~= cv.subrange(0, i as int));
            assert(cv.subrange(0, i + 1).last() == chs@[i as int]@);
        }
        let is_thread = match &chs[i].parent_id {
            Some(p) => *p == *pid,
            None => false,
        };
        if is_thread {
            let ghost before = channels_view(out@);
            let c = chs[i].clone();
            out.push(c);
            proof {
                assert(channels_view(out@) =~= before.push(chs@[i as int]@));
            }
        }
        i += 1;
    }
    proof {
        assert(cv.subrange(0, cv.len() as int) =~= cv);
    }
    out
}

// ---------------------------------------------------------------------------
// Building the category list
// ---------------------------------------------------------------------------

/// The server's description of category `id`: the last one given with that id.
pub open spec fn desc_lookup(descs: Seq<CategoryDescView>, id: Seq<char>) -> Option<
    CategoryDescView,
>
    decreases descs.len(),
{
    if descs.len() == 0 {
        None
    } else if descs.last().category_id == id {
        Some(descs.last())
    } else {
        desc_lookup(descs.drop_last(), id)
    }
}

/// The channels of a category: each parent followed by its threads sorted by id. A parent
/// id's threads are listed once, after the first parent with that id (`used` holds the parent
/// ids already placed before these parents).
pub open spec fn nest(parents: Seq<ChannelView>, chs: Seq<ChannelView>, used: Seq<Seq<char>>) -> Seq<
    ChannelView,
>
    decreases parents.len(),
{
    if parents.len() == 0 {
        Seq::empty()
    } else {
        let p = parents.last();
        let before = parents.drop_last();
        nest(before, chs, used) + seq![p] + (if (used + ids(before)).contains(p.id) {
            Seq::empty()
        } else {
            sort_by_id(threads_of(chs, p.id))
        })
    }
}

/// The parents listed in category `key`, sorted by id.
pub open spec fn parents_of(chs: Seq<ChannelView>, key: Seq<char>) -> Seq<ChannelView> {
    sort_by_id(members(chs, key))
}

/// The parent ids placed by the categories `keys`, in order.
pub open spec fn used_by(keys: Seq<Seq<char>>, chs: Seq<ChannelView>) -> Seq<Seq<char>>
    decreases keys.len(),
{
    if keys.len() == 0 {
        Seq::empty()
    } else {
        used_by(keys.drop_last(), chs) + ids(parents_of(chs, keys.last()))
    }
}

/// Category `key`: named and ordered as the server describes it (else `General`, last), with
/// the clan of its first channel.
pub open spec fn category_for(
    descs: Seq<CategoryDescView>,
    chs: Seq<ChannelView>,
    key: Seq<char>,
    used: Seq<Seq<char>>,
) -> CategoryView {
    let (name, order) = match desc_lookup(descs, key) {
        Some(d) => (d.category_name, d.category_order),
        None => (general_name(), i32::MAX),
    };
    CategoryView {
        id: key,
        clan_id: members(chs, key)[0].clan_id,
        name,
        order,
        channels: nest(parents_of(chs, key), chs, used),
    }
}

/// The categories `keys`, in that order.
pub open spec fn built(keys: Seq<Seq<char>>, chs: Seq<ChannelView>, descs: Seq<CategoryDescView>) -> Seq<
    CategoryView,
>
    decreases keys.len(),
{
    if keys.len() == 0 {
        Seq::empty()
    } else {
        built(keys.drop_last(), chs, descs).push(
            category_for(descs, chs, keys.last(), used_by(keys.drop_last(), chs)),
        )
    }
}

/// The channel list of a clan: one category per key of its top-level channels (in the order
/// the keys first occur), stably sorted by order.
pub open spec fn build_categories_spec(descs: Seq<CategoryDescView>, chs: Seq<ChannelView>) -> Seq<
    CategoryView,
> {
    sort_by_order(built(group_keys(chs), chs, descs))
}

fn lookup_desc(descs: &Vec<CategoryDesc>, id: &String) -> (r: (String, i32))
    ensures
        ({
            let (name, order) = match desc_lookup(descs_view(descs@), id@) {
                Some(d) => (d.category_name, d.category_order),
                None => (general_name(), i32::MAX),
            };
            r.0@ == name && r.1 == order
        }),
{
    let ghost dv = descs_view(descs@);
    let mut i = descs.len();
    proof {
        assert(dv.subrange(0, dv.len() as int) =~= dv);
    }
    while i > 0
        invariant
            dv == descs_view(descs@),
            i <= descs@.len(),
            desc_lookup(dv, id@) == desc_lookup(dv.subrange(0, i as int), id@),
        decreases i,
    {
        proof {
            assert(dv.subrange(0, i as int).drop_last() =~= dv.subrange(0, i - 1));
            assert(dv.subrange(0, i as int).last() == descs@[i - 1]@);
        }
        if descs[i - 1].category_id == *id {
            return (descs[i - 1].category_name.clone(), descs[i - 1].category_order);
        }
        i -= 1;
    }
    proof {
        assert(dv.subrange(0, 0) =~= Seq::<CategoryDescView>::empty());
    }
    (general_string(), i32::MAX)
}

/// Builds a clan's channel list from its categories and channels (see
/// `build_categories_spec`); `channels` is left empty.
pub fn build_categories(api_categories: Vec<CategoryDesc>, channels: &mut Vec<Channel>) -> (r: Vec<
    Category,
>)
    ensures
        categories_view(r@) == build_categories_spec(
            descs_view(api_categories@),
            channels_view(old(channels)@),
        ),
        final(channels)@.len() == 0,
{
    let mut chs: Vec<Channel> = Vec::new();
    std::mem::swap(&mut chs, channels);
    let ghost cv = channels_view(chs@);
    let ghost dv = descs_view(api_categories@);
    let keys = group_keys_exec(&chs);
    let ghost kv = strings_view(keys@);
    let mut cats: Vec<Category> = Vec::new();
    let mut used: Vec<String> = Vec::new();
    let mut j: usize = 0;
    proof {
        assert(kv.take(0) =~= Seq::<Seq<char>>::empty());
        assert(categories_view(cats@) =~= Seq::<CategoryView>::empty());
        assert(strings_view(used@) =~= Seq::<Seq<char>>::empty());
    }
    while j < keys.len()
        invariant
            cv == channels_view(chs@),
            dv == descs_view(api_categories@),
            kv == strings_view(keys@),
            kv == group_keys(cv),
            j <= keys@.len(),
            categories_view(cats@) == built(kv.take(j as int), cv, dv),
            strings_view(used@) == used_by(kv.take(j as int), cv),
        decreases keys@.len() - j,
    {
        let ghost used0 = strings_view(used@);
        let key = keys[j].clone();
        proof {
            assert(key@ == kv[j as int]);
            lemma_keys_have_members(cv, j as int);
        }
        let ms = members_exec(&chs, &key);
        let clan_id = ms[0].clan_id.clone();
        let mut parents = ms;
        sort_channels_by_id(&mut parents);
        let ghost pv = channels_view(parents@);
        let (name, order) = lookup_desc(&api_categories, &key);
        let mut out: Vec<Channel> = Vec::new();
        let mut i: usize = 0;
        proof {
            assert(pv.take(0) =~= Seq::<ChannelView>::empty());
            assert(ids(pv.take(0)) =~= Seq::<Seq<char>>::empty());
            assert(strings_view(used@) =~= used0 + ids(pv.take(0)));
            assert(channels_view(out@) =~= Seq::<ChannelView>::empty());
        }
        while i < parents.len()
            invariant
                cv == channels_view(chs@),
                pv == channels_view(parents@),
                i <= parents@.len(),
                channels_view(out@) == nest(pv.take(i as int), cv, used0),
                strings_view(used@) == used0 + ids(pv.take(i as int)),
            decreases parents@.len() - i,
        {
            let p = parents[i].clone();
            let pid = p.id.clone();
            let ghost pview = p@;
            proof {
                assert(pview == pv[i as int]);
                assert(pv.take(i + 1).drop_last() =~= pv.take(i as int));
                assert(pv.take(i + 1).last() == pv[i as int]);
            }
            let seen = contains_string(&used, &pid);
            let ghost before = channels_view(out@);
            out.push(p);
            proof {
                assert(channels_view(out@) =~= before + seq![pview]);
            }
            if !seen {
                let mut ts = threads_exec(&chs, &pid);
                sort_channels_by_id(&mut ts);
                let ghost mid = channels_view(out@);
                let ghost tv = channels_view(ts@);
                out.append(&mut ts);
                proof {
                    assert(channels_view(out@) =~= mid + tv);
                    assert(channels_view(out@) =~= before + seq![pview] + sort_by_id(
                        threads_of(cv, pview.id),
                    ));
                }
            } else {
                proof {
                    assert(channels_view(out@) =~= before + seq![pview] + Seq::<
                        ChannelView,
                    >::empty());
                }
            }
            let ghost ub = strings_view(used@);
            used.push(pid);
            proof {
                assert(ids(pv.take(i + 1)) =~= ids(pv.take(i as int)).push(pview.id));
                assert(strings_view(used@) =~= ub.push(pview.id));
                assert(strings_view(used@) =~= used0 + ids(pv.take(i + 1)));
            }
            i += 1;
        }
        proof {
            assert(pv.take(pv.len() as int) =~= pv);
            assert(kv.take(j + 1).drop_last() =~= kv.take(j as int));
            assert(kv.take(j + 1).last() == kv[j as int]);
        }
        let cat = Category { id: key, clan_id, name, order, channels: out };
        let ghost catv = cat@;
        let ghost cb = categories_view(cats@);
        cats.push(cat);
        proof {
            assert(catv == category_for(dv, cv, kv[j as int], used0));
            assert(categories_view(cats@) =~= cb.push(catv));
        }
        j += 1;
    }
    proof {
        assert(kv.take(kv.len() as int) =~= kv);
    }
    sort_categories(&mut cats);
    cats
}

} // verus!
