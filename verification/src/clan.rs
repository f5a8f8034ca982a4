use vstd::prelude::*;

use crate::text::{chars_of, clone_opt_string, opt_view, owned, str_eq, string_from_chars, trim_chars, trim_seq};

verus! {

/// A clan the user belongs to, as the clan bar shows it.
#[derive(Debug, Clone)]
pub struct Clan {
    pub id: String,
    pub name: String,
    pub avatar_url: Option<String>,
    pub banner_url: Option<String>,
    pub badge_count: u32,
    pub has_unread: bool,
    pub muted: bool,
    pub welcome_channel_id: Option<String>,
}

/// A clan as the server describes it.
#[derive(Debug, Clone, Default)]
pub struct ApiClanDesc {
    pub clan_id: String,
    pub clan_name: String,
    pub creator_id: String,
    pub logo: String,
    pub banner: String,
    pub welcome_channel_id: String,
}

/// `Some(s)` for a non-empty string, else `None`.
pub open spec fn non_empty(s: String) -> Option<String> {
    if s@.len() > 0 {
        Some(s)
    } else {
        None
    }
}

fn non_empty_exec(s: String) -> (r: Option<String>)
    ensures
        r == non_empty(s),
{
    if s.as_str().is_empty() {
        None
    } else {
        Some(s)
    }
}

/// A clan from its description: no badge, nothing unread, not muted; empty links become none.
pub open spec fn clan_from_desc(c: ApiClanDesc) -> Clan {
    Clan {
        id: c.clan_id,
        name: c.clan_name,
        avatar_url: non_empty(c.logo),
        banner_url: non_empty(c.banner),
        badge_count: 0,
        has_unread: false,
        muted: false,
        welcome_channel_id: non_empty(c.welcome_channel_id),
    }
}

impl Clan {
    pub fn from_desc(c: ApiClanDesc) -> (r: Clan)
        ensures
            r == clan_from_desc(c),
    {
        Clan {
            id: c.clan_id,
            name: c.clan_name,
            avatar_url: non_empty_exec(c.logo),
            banner_url: non_empty_exec(c.banner),
            badge_count: 0,
            has_unread: false,
            muted: false,
            welcome_channel_id: non_empty_exec(c.welcome_channel_id),
        }
    }
}

/// What the clan list tells its observers.
#[derive(Debug, Clone)]
pub enum ClanEvent {
    /// The active clan changed (or was cleared).
    ActiveClanChanged(Option<String>),
    /// A clan was removed (server push).
    Deleted(String),
}

/// Why creating a clan failed.
#[derive(Debug)]
pub enum CreateClanError {
    DuplicateName,
    Other(String),
}

impl CreateClanError {
    /// The message shown to the user.
    pub fn message(&self) -> (r: String)
        ensures
            r@ == (match self {
                CreateClanError::DuplicateName => "A clan with that name already exists."@,
                CreateClanError::Other(m) => m@,
            }),
    {
        match self {
            CreateClanError::DuplicateName => owned("A clan with that name already exists."),
            CreateClanError::Other(m) => m.clone(),
        }
    }
}

// ---------------------------------------------------------------------------
// The clan list
// ---------------------------------------------------------------------------

/// `i` is the first clan with id `id` (`cs.len()` when there is none).
pub open spec fn is_first_clan(cs: Seq<Clan>, id: Seq<char>, i: int) -> bool {
    &&& 0 <= i <= cs.len()
    &&& forall|j: int| 0 <= j < i ==> (#[trigger] cs[j]).id@ != id
    &&& i < cs.len() ==> cs[i].id@ == id
}

pub open spec fn first_clan(cs: Seq<Clan>, id: Seq<char>) -> int {
    choose|i: int| is_first_clan(cs, id, i)
}

pub open spec fn has_clan(cs: Seq<Clan>, id: Seq<char>) -> bool {
    exists|i: int| 0 <= i < cs.len() && (#[trigger] cs[i]).id@ == id
}

fn find_clan(clans: &Vec<Clan>, id: &str) -> (r: usize)
    ensures
        r as int == first_clan(clans@, id@),
        is_first_clan(clans@, id@, r as int),
{
    let key = owned(id);
    let mut i: usize = 0;
    while i < clans.len() && !(clans[i].id == key)
        invariant
            key@ == id@,
            i <= clans@.len(),
            forall|j: int| 0 <= j < i ==> (#[trigger] clans@[j]).id@ != id@,
        decreases clans@.len() - i,
    {
        i += 1;
    }
    proof {
        let c = first_clan(clans@, id@);
        assert(is_first_clan(clans@, id@, i as int));
        assert(is_first_clan(clans@, id@, c));
        if c < i {
            assert(clans@[c].id@ != id@);
        }
        if i < c {
            assert(clans@[i as int].id@ != id@);
        }
    }
    i
}

/// A clan update pushed by the server: a given name replaces the name, and the logo (none
/// when empty) replaces the avatar, of the first clan with that id.
pub open spec fn update_clan_spec(
    cs: Seq<Clan>,
    id: Seq<char>,
    name: Option<String>,
    logo: String,
) -> Seq<Clan> {
    let i = first_clan(cs, id);
    if i < cs.len() {
        let c = cs[i];
        cs.update(
            i,
            Clan {
                name: match name {
                    Some(n) => n,
                    None => c.name,
                },
                avatar_url: non_empty(logo),
                ..c
            },
        )
    } else {
        cs
    }
}

/// Applies a clan update; returns whether the clan is listed.
pub fn update_clan(clans: &mut Vec<Clan>, clan_id: &str, name: Option<String>, logo: String) -> (r:
    bool)
    ensures
        r == has_clan(old(clans)@, clan_id@),
        final(clans)@ == update_clan_spec(old(clans)@, clan_id@, name, logo),
{
    let i = find_clan(clans, clan_id);
    proof {
        if has_clan(clans@, clan_id@) {
            let w = choose|w: int| 0 <= w < clans@.len() && (#[trigger] clans@[w]).id@ == clan_id@;
            if i as int == clans@.len() {
                assert(clans@[w].id@ != clan_id@);
            }
        }
    }
    if i == clans.len() {
        return false;
    }
    let mut clan = clans.remove(i);
    match name {
        Some(n) => {
            clan.name = n;
        },
        None => {},
    }
    clan.avatar_url = non_empty_exec(logo);
    clans.insert(i, clan);
    true
}

/// A newly created clan joins the list unless a clan with its id is listed already.
pub fn apply_created_clan(clans: &mut Vec<Clan>, desc: ApiClanDesc)
    ensures
        has_clan(old(clans)@, desc.clan_id@) ==> final(clans)@ == old(clans)@,
        !has_clan(old(clans)@, desc.clan_id@) ==> final(clans)@ == old(clans)@.push(
            clan_from_desc(desc),
        ),
{
    let clan = Clan::from_desc(desc);
    let i = find_clan(clans, clan.id.as_str());
    proof {
        if has_clan(clans@, clan.id@) {
            let w = choose|w: int| 0 <= w < clans@.len() && (#[trigger] clans@[w]).id@ == clan.id@;
            if i as int == clans@.len() {
                assert(clans@[w].id@ != clan.id@);
            }
        }
    }
    if i == clans.len() {
        clans.push(clan);
    }
}

/// A clan's unread counters from the badge list: its badge (negative counts as 0) and
/// whether it has unread messages, when the list names it (the last entry counts).
pub open spec fn badged_clan(c: Clan, badges: Seq<(String, i32, bool)>) -> Clan {
    let i = choose|i: int| is_last_badge(badges, c.id@, i);
    if 0 <= i {
        Clan {
            badge_count: if badges[i].1 < 0 {
                0u32
            } else {
                badges[i].1 as u32
            },
            has_unread: badges[i].2,
            ..c
        }
    } else {
        c
    }
}

/// `i` is the last entry of clan `id` in the badge list (`-1` when there is none).
pub open spec fn is_last_badge(badges: Seq<(String, i32, bool)>, id: Seq<char>, i: int) -> bool {
    &&& -1 <= i < badges.len()
    &&& forall|j: int| i < j < badges.len() ==> (#[trigger] badges[j]).0@ != id
    &&& 0 <= i ==> badges[i].0@ == id
}

/// Applies the clan badge counts fetched on reload to each clan.
pub fn apply_badges(clans: &mut Vec<Clan>, badges: &Vec<(String, i32, bool)>)
    ensures
        final(clans)@.len() == old(clans)@.len(),
        forall|i: int|
            0 <= i < old(clans)@.len() ==> #[trigger] final(clans)@[i] == badged_clan(
                old(clans)@[i],
                badges@,
            ),
{
    let ghost c0 = clans@;
    let mut i: usize = 0;
    while i < clans.len()
        invariant
            clans@.len() == c0.len(),
            i <= c0.len(),
            forall|j: int| 0 <= j < i ==> #[trigger] clans@[j] == badged_clan(c0[j], badges@),
            forall|j: int| i <= j < c0.len() ==> #[trigger] clans@[j] == c0[j],
        decreases c0.len() - i,
    {
        let mut k: usize = badges.len();
        while k > 0 && !(badges[k - 1].0 == clans[i].id)
            invariant
                i < clans@.len(),
                k <= badges@.len(),
                forall|j: int| k <= j < badges@.len() ==> (#[trigger] badges@[j]).0@ != clans@[i as int].id@,
            decreases k,
        {
            k -= 1;
        }
        proof {
            let id = clans@[i as int].id@;
            assert(is_last_badge(badges@, id, k - 1));
            let c = choose|q: int| is_last_badge(badges@, id, q);
            assert(is_last_badge(badges@, id, c));
            if c < k - 1 {
                assert(badges@[k - 1].0@ != id);
            }
            if k - 1 < c {
                assert(badges@[c].0@ != id);
            }
        }
        if k > 0 {
            let ghost before = clans@;
            let mut clan = clans.remove(i);
            let badge = badges[k - 1].1;
            clan.badge_count = if badge < 0 {
                0
            } else {
                badge as u32
            };
            clan.has_unread = badges[k - 1].2;
            clans.insert(i, clan);
            proof {
                assert forall|j: int| i < j < c0.len() implies #[trigger] clans@[j] == c0[j] by {
                    assert(clans@[j] == before[j]);
                }
                assert forall|j: int| 0 <= j < i implies #[trigger] clans@[j] == badged_clan(
                    c0[j],
                    badges@,
                ) by {
                    assert(clans@[j] == before[j]);
                }
            }
        }
        i += 1;
    }
}

/// The clans without those with id `id`.
pub open spec fn without_clan(cs: Seq<Clan>, id: Seq<char>) -> Seq<Clan> {
    cs.filter(|c: Clan| c.id@ != id)
}

/// The clans the user belongs to and the one shown.
pub struct ClanList {
    pub clans: Vec<Clan>,
    pub active_clan_id: Option<String>,
}

/// What leaving or losing a clan did to the list.
#[derive(Debug, Clone, Copy, PartialEq, Eq, Structural)]
pub struct ClanRemoval {
    /// The clan was listed and is gone.
    pub removed: bool,
    /// The shown clan was the one removed; the first remaining clan (or none) is shown instead.
    pub active_changed: bool,
}

impl ClanList {
    pub fn new() -> (r: Self)
        ensures
            r.clans@ == Seq::<Clan>::empty(),
            r.active_clan_id is None,
    {
        ClanList { clans: Vec::new(), active_clan_id: None }
    }

    /// Whether `clan_id` is the clan shown.
    pub fn is_active_clan(&self, clan_id: &str) -> (r: bool)
        ensures
            r == (opt_view(self.active_clan_id) == Some(clan_id@)),
    {
        match &self.active_clan_id {
            Some(a) => str_eq(a.as_str(), clan_id),
            None => false,
        }
    }

    /// The clan was deleted, or the user left it: it leaves the list; when it was shown, the
    /// first remaining clan is shown instead.
    pub fn remove_clan(&mut self, clan_id: &str) -> (r: ClanRemoval)
        ensures
            final(self).clans@ == without_clan(old(self).clans@, clan_id@),
            r.removed == has_clan(old(self).clans@, clan_id@),
            r.active_changed == (r.removed && opt_view(old(self).active_clan_id) == Some(
                clan_id@,
            )),
            r.active_changed ==> opt_view(final(self).active_clan_id) == (
            if final(self).clans@.len() > 0 {
                Some(final(self).clans@[0].id@)
            } else {
                None
            }),
            !r.active_changed ==> final(self).active_clan_id == old(self).active_clan_id,
    {
        let ghost c0 = self.clans@;
        let key = owned(clan_id);
        let mut kept: Vec<Clan> = Vec::new();
        let mut removed = false;
        let n = self.clans.len();
        while self.clans.len() > 0
            invariant
                n == c0.len(),
                key@ == clan_id@,
                self.active_clan_id == old(self).active_clan_id,
                self.clans@.len() <= n,
                self.clans@ == c0.subrange(n - self.clans@.len(), n as int),
                kept@ == without_clan(c0.subrange(0, n - self.clans@.len()), clan_id@),
                removed == has_clan(c0.subrange(0, n - self.clans@.len()), clan_id@),
            decreases self.clans@.len(),
        {
            let ghost k = n - self.clans@.len();
            let c = self.clans.remove(0);
            proof {
                assert(c == c0[k]);
                assert(self.clans@ =~= c0.subrange(k + 1, n as int));
                let pre = c0.subrange(0, k);
                let post = c0.subrange(0, k + 1);
                assert(post.drop_last() =~= pre);
                reveal_with_fuel(Seq::filter, 1);
                if has_clan(pre, clan_id@) {
                    let w = choose|w: int| 0 <= w < pre.len() && (#[trigger] pre[w]).id@ == clan_id@;
                    assert(post[w] == pre[w]);
                }
                if has_clan(post, clan_id@) && c.id@ != clan_id@ {
                    let w = choose|w: int| 0 <= w < post.len() && (#[trigger] post[w]).id@ == clan_id@;
                    assert(w < k);
                    assert(pre[w] == post[w]);
                }
                if c.id@ == clan_id@ {
                    assert(post[k] == c);
                }
            }
            if c.id == key {
                removed = true;
            } else {
                kept.push(c);
            }
        }
        proof {
            assert(c0.subrange(0, n as int) =~= c0);
        }
        self.clans = kept;
        let was_active = match &self.active_clan_id {
            Some(a) => *a == key,
            None => false,
        };
        let active_changed = removed && was_active;
        if active_changed {
            self.active_clan_id = if self.clans.len() > 0 {
                Some(self.clans[0].id.clone())
            } else {
                None
            };
        }
        ClanRemoval { removed, active_changed }
    }

    /// A message arrived in a clan: unless the clan is muted, its badge goes up (saturating)
    /// and it is unread. Returns whether the list changed.
    pub fn note_channel_message(&mut self, clan_id: &str) -> (changed: bool)
        ensures
            ({
                let i = first_clan(old(self).clans@, clan_id@);
                let cs = old(self).clans@;
                &&& changed == (i < cs.len() && !cs[i].muted)
                &&& changed ==> final(self).clans@ == cs.update(
                    i,
                    Clan {
                        badge_count: cs[i].badge_count.saturating_add(1),
                        has_unread: true,
                        ..cs[i]
                    },
                )
                &&& !changed ==> final(self).clans@ == cs
            }),
            final(self).active_clan_id == old(self).active_clan_id,
    {
        let i = find_clan(&self.clans, clan_id);
        if i < self.clans.len() && !self.clans[i].muted {
            let mut clan = self.clans.remove(i);
            clan.badge_count = clan.badge_count.saturating_add(1);
            clan.has_unread = true;
            self.clans.insert(i, clan);
            true
        } else {
            false
        }
    }

    /// A clan was read: its badge and unread mark clear. Returns whether anything changed.
    pub fn mark_read(&mut self, clan_id: &str) -> (changed: bool)
        ensures
            ({
                let i = first_clan(old(self).clans@, clan_id@);
                let cs = old(self).clans@;
                &&& changed == (i < cs.len() && (cs[i].badge_count > 0 || cs[i].has_unread))
                &&& changed ==> final(self).clans@ == cs.update(
                    i,
                    Clan { badge_count: 0, has_unread: false, ..cs[i] },
                )
                &&& !changed ==> final(self).clans@ == cs
            }),
            final(self).active_clan_id == old(self).active_clan_id,
    {
        let i = find_clan(&self.clans, clan_id);
        if i < self.clans.len() && (self.clans[i].badge_count > 0 || self.clans[i].has_unread) {
            let mut clan = self.clans.remove(i);
            clan.badge_count = 0;
            clan.has_unread = false;
            self.clans.insert(i, clan);
            true
        } else {
            false
        }
    }

    /// Replaces the list; when the shown clan is no longer listed (and the list is not empty),
    /// the first clan is shown. Returns whether the shown clan changed.
    pub fn update_clans(&mut self, clans: Vec<Clan>) -> (active_changed: bool)
        ensures
            final(self).clans@ == clans@,
            ({
                let keep = clans@.len() == 0 || match opt_view(old(self).active_clan_id) {
                    Some(a) => has_clan(clans@, a),
                    None => false,
                };
                &&& keep ==> final(self).active_clan_id == old(self).active_clan_id
                &&& !keep ==> opt_view(final(self).active_clan_id) == Some(clans@[0].id@)
            }),
            active_changed == (opt_view(final(self).active_clan_id) != opt_view(
                old(self).active_clan_id,
            )),
    {
        let prev = clone_opt_string(&self.active_clan_id);
        self.clans = clans;
        if self.clans.len() > 0 {
            let valid = match &self.active_clan_id {
                Some(a) => find_clan(&self.clans, a.as_str()) < self.clans.len(),
                None => false,
            };
            proof {
                match opt_view(self.active_clan_id) {
                    Some(a) => {
                        if has_clan(self.clans@, a) {
                            let w = choose|w: int|
                                0 <= w < self.clans@.len() && (#[trigger] self.clans@[w]).id@ == a;
                            let i = first_clan(self.clans@, a);
                            assert(is_first_clan(self.clans@, a, i));
                            if i == self.clans@.len() {
                                assert(self.clans@[w].id@ != a);
                            }
                        }
                        let i = first_clan(self.clans@, a);
                        assert(is_first_clan(self.clans@, a, i));
                        if i < self.clans@.len() {
                            assert(self.clans@[i].id@ == a);
                        }
                    },
                    None => {},
                }
            }
            if !valid {
                self.active_clan_id = Some(self.clans[0].id.clone());
            }
        }
        let changed = match (&self.active_clan_id, &prev) {
            (Some(a), Some(b)) => !(*a == *b),
            (None, None) => false,
            _ => true,
        };
        changed
    }
}

/// The clans listed on reload, in order, each with its counters from the badge list (see
/// `badged_clan`).
pub fn clans_from_descs(descs: Vec<ApiClanDesc>, badges: &Vec<(String, i32, bool)>) -> (r: Vec<Clan>)
    ensures
        r@.len() == descs@.len(),
        forall|i: int| 0 <= i < descs@.len() ==> #[trigger] r@[i] == badged_clan(clan_from_desc(descs@[i]), badges@),
{
    let ghost d0 = descs@;
    let mut descs = descs;
    let mut out: Vec<Clan> = Vec::new();
    let n = descs.len();
    while descs.len() > 0
        invariant
            n == d0.len(),
            descs@.len() <= n,
            descs@ == d0.skip(n - descs@.len()),
            out@.len() == n - descs@.len(),
            forall|i: int| 0 <= i < out@.len() ==> #[trigger] out@[i] == clan_from_desc(d0[i]),
        decreases descs@.len(),
    {
        let ghost k = n - descs@.len();
        let d = descs.remove(0);
        proof {
            assert(d == d0[k]);
            assert(descs@ =~= d0.skip(k + 1));
        }
        out.push(Clan::from_desc(d));
    }
    apply_badges(&mut out, badges);
    out
}

/// The name a new clan is created with: the typed name without surrounding blanks.
pub fn create_clan_name(name: &str) -> (r: String)
    ensures
        r@ == trim_seq(name@),
{
    string_from_chars(&trim_chars(&chars_of(name)))
}

impl ClanList {
    /// The clan shown, when it is listed.
    pub fn active_clan(&self) -> (r: Option<&Clan>)
        ensures
            match opt_view(self.active_clan_id) {
                None => r is None,
                Some(a) => {
                    let i = first_clan(self.clans@, a);
                    &&& r is Some == (i < self.clans@.len())
                    &&& r matches Some(c) ==> *c == self.clans@[i]
                },
            },
    {
        match &self.active_clan_id {
            Some(a) => {
                let i = find_clan(&self.clans, a.as_str());
                if i < self.clans.len() {
                    Some(&self.clans[i])
                } else {
                    None
                }
            },
            None => None,
        }
    }

    /// The banner of the clan shown, when it has one.
    pub fn active_clan_banner(&self) -> (r: Option<&str>)
        ensures
            match opt_view(self.active_clan_id) {
                None => r is None,
                Some(a) => {
                    let i = first_clan(self.clans@, a);
                    if i < self.clans@.len() {
                        match self.clans@[i].banner_url {
                            Some(b) => r matches Some(x) && x@ == b@,
                            None => r is None,
                        }
                    } else {
                        r is None
                    }
                },
            },
    {
        match self.active_clan() {
            Some(c) => match &c.banner_url {
                Some(b) => Some(b.as_str()),
                None => None,
            },
            None => None,
        }
    }

    /// The welcome channel of clan `clan_id`, when it is listed and has one.
    pub fn welcome_channel_id(&self, clan_id: &str) -> (r: Option<String>)
        ensures
            ({
                let i = first_clan(self.clans@, clan_id@);
                if i < self.clans@.len() {
                    opt_view(r) == opt_view(self.clans@[i].welcome_channel_id)
                } else {
                    r is None
                }
            }),
    {
        let i = find_clan(&self.clans, clan_id);
        if i < self.clans.len() {
            clone_opt_string(&self.clans[i].welcome_channel_id)
        } else {
            None
        }
    }

    /// The user picks clan `id`: unless it is already shown, it is. Returns whether the
    /// shown clan changed.
    pub fn select_clan(&mut self, id: &str) -> (changed: bool)
        ensures
            final(self).clans == old(self).clans,
            changed == (opt_view(old(self).active_clan_id) != Some(id@)),
            opt_view(final(self).active_clan_id) == Some(id@) || !changed && final(self).active_clan_id
                == old(self).active_clan_id,
            !changed ==> final(self).active_clan_id == old(self).active_clan_id,
    {
        if self.is_active_clan(id) {
            return false;
        }
        self.active_clan_id = Some(owned(id));
        true
    }
}

} // verus!
