use std::collections::HashMap;

use vstd::prelude::*;

use crate::ids::{ChannelId, ClanId, RoleId, UserId};
use crate::text::{
    all_ascii, chars_of, i64_decimal, int_decimal, owned, push_all, string_from_chars, sub_chars,
    trim_chars, trim_seq,
};

verus! {

broadcast use vstd::std_specs::hash::group_hash_axioms;

/// The color of a role that has none.
pub const DEFAULT_ROLE_COLOR: &'static str = "#99aab5";

/// The largest role icon accepted for upload, in bytes.
pub const MAX_ROLE_ICON_BYTES: u64 = 262144;

/// A role as member lists and pickers show it.
#[derive(Debug, Clone, PartialEq, Eq)]
pub struct Role {
    pub name: String,
    pub color: String,
    pub icon: String,
    pub slug: String,
    pub max_level_permission: i32,
    pub order: i32,
}

/// A member of a role.
#[derive(Debug, Clone, PartialEq, Eq)]
pub struct RoleUser {
    pub id: UserId,
    pub username: String,
    pub display_name: String,
    pub avatar_url: String,
}

/// A permission and whether a role grants it.
#[derive(Debug, Clone, PartialEq, Eq)]
pub struct RolePermission {
    pub id: i64,
    pub slug: String,
    pub title: String,
    pub active: bool,
}

/// Everything the clan settings know of a role.
#[derive(Debug, Clone, PartialEq, Eq)]
pub struct ClanRoleDetail {
    pub name: String,
    pub color: String,
    pub icon: String,
    pub slug: String,
    pub active: bool,
    pub order_role: i32,
    pub max_level_permission: i32,
    pub permissions: Vec<RolePermission>,
    pub member_count: usize,
    pub member_ids: Vec<UserId>,
    pub channel_ids: Vec<ChannelId>,
    pub role_channel_active: bool,
    pub creator_id: UserId,
}

/// The role part of a role's details.
pub open spec fn role_of_detail(d: ClanRoleDetail) -> Role {
    Role {
        name: d.name,
        color: d.color,
        icon: d.icon,
        slug: d.slug,
        max_level_permission: d.max_level_permission,
        order: d.order_role,
    }
}

impl Role {
    pub fn from_detail(detail: &ClanRoleDetail) -> (r: Role)
        ensures
            r == role_of_detail(*detail),
    {
        Role {
            name: detail.name.clone(),
            color: detail.color.clone(),
            icon: detail.icon.clone(),
            slug: detail.slug.clone(),
            max_level_permission: detail.max_level_permission,
            order: detail.order_role,
        }
    }
}

/// What the roles store tells its observers.
#[derive(Debug, Clone)]
pub enum RolesEvent {
    Changed { clan_id: ClanId },
    Created { clan_id: ClanId, role_id: RoleId },
    RoleSaved { clan_id: ClanId, role_id: RoleId },
    RoleSaveFailed { clan_id: ClanId, role_id: RoleId },
    RoleOrderSaveFailed { clan_id: ClanId },
}

/// The edits of a role being saved.
pub struct RoleDraft {
    pub title: String,
    pub color: String,
    pub icon: String,
    pub add_permission_ids: Vec<i64>,
    pub remove_permission_ids: Vec<i64>,
    pub add_user_ids: Vec<i64>,
    pub remove_user_ids: Vec<i64>,
}

/// The roles of one clan: their display order and their details by role id.
pub struct ClanRoles {
    pub order: Vec<RoleId>,
    pub by_id: HashMap<i64, ClanRoleDetail>,
}

impl ClanRoles {
    pub fn new() -> (r: Self)
        ensures
            r.order@ == Seq::<RoleId>::empty(),
            r.by_id@ == Map::<i64, ClanRoleDetail>::empty(),
    {
        ClanRoles { order: Vec::new(), by_id: HashMap::new() }
    }
}

pub open spec fn everyone_slug_spec(clan_id: i64) -> Seq<char> {
    "everyone-"@ + int_decimal(clan_id as int)
}

/// The slug of a clan's `@everyone` role: `everyone-<clan id>`.
pub fn everyone_slug(clan_id: ClanId) -> (r: String)
    ensures
        r@ == everyone_slug_spec(clan_id.0),
{
    let mut out = chars_of("everyone-");
    push_all(&mut out, &i64_decimal(clan_id.get()));
    string_from_chars(&out)
}

// ---------------------------------------------------------------------------
// Role order
// ---------------------------------------------------------------------------

/// The roles of `previous` that are still live in `current`, in `previous`'s order.
pub open spec fn kept_of(previous: Seq<RoleId>, current: Seq<RoleId>) -> Seq<RoleId> {
    previous.filter(|id: RoleId| current.contains(id))
}

/// The roles of `current` that are not in `kept`, in `current`'s order.
pub open spec fn fresh_of(current: Seq<RoleId>, kept: Seq<RoleId>) -> Seq<RoleId> {
    current.filter(|id: RoleId| !kept.contains(id))
}

/// After a failed reorder: the previous order of the roles that still exist, then the roles
/// that appeared meanwhile.
pub open spec fn reconcile_spec(previous: Seq<RoleId>, current: Seq<RoleId>) -> Seq<RoleId> {
    kept_of(previous, current) + fresh_of(current, kept_of(previous, current))
}

fn contains_role(ids: &Vec<RoleId>, id: RoleId) -> (r: bool)
    ensures
        r == ids@.contains(id),
{
    let mut i: usize = 0;
    while i < ids.len()
        invariant
            i <= ids@.len(),
            forall|j: int| 0 <= j < i ==> ids@[j] != id,
        decreases ids@.len() - i,
    {
        if ids[i].0 == id.0 {
            return true;
        }
        i += 1;
    }
    false
}

/// Restores the previous relative order of the roles that still exist, keeping the roles that
/// were created meanwhile at the end.
pub fn reconcile_order(previous: &Vec<RoleId>, current: &Vec<RoleId>) -> (r: Vec<RoleId>)
    ensures
        r@ == reconcile_spec(previous@, current@),
{
    let mut kept: Vec<RoleId> = Vec::new();
    let mut i: usize = 0;
    while i < previous.len()
        invariant
            i <= previous@.len(),
            kept@ == kept_of(previous@.subrange(0, i as int), current@),
        decreases previous@.len() - i,
    {
        proof {
            reveal_with_fuel(Seq::filter, 1);
            assert(previous@.subrange(0, i + 1).drop_last() =~= previous@.subrange(0, i as int));
        }
        let id = previous[i];
        if contains_role(current, id) {
            kept.push(id);
        }
        i += 1;
    }
    proof {
        assert(previous@.subrange(0, previous@.len() as int) =~= previous@);
    }
    let ghost k = kept@;
    let mut fresh: Vec<RoleId> = Vec::new();
    let mut j: usize = 0;
    while j < current.len()
        invariant
            kept@ == k,
            j <= current@.len(),
            fresh@ == fresh_of(current@.subrange(0, j as int), k),
        decreases current@.len() - j,
    {
        proof {
            reveal_with_fuel(Seq::filter, 1);
            assert(current@.subrange(0, j + 1).drop_last() =~= current@.subrange(0, j as int));
        }
        let id = current[j];
        if !contains_role(&kept, id) {
            fresh.push(id);
        }
        j += 1;
    }
    proof {
        assert(current@.subrange(0, current@.len() as int) =~= current@);
    }
    let mut out = kept;
    let mut q: usize = 0;
    while q < fresh.len()
        invariant
            q <= fresh@.len(),
            out@ == k + fresh@.subrange(0, q as int),
        decreases fresh@.len() - q,
    {
        proof {
            assert(k + fresh@.subrange(0, q + 1) =~= (k + fresh@.subrange(0, q as int)).push(
                fresh@[q as int],
            ));
        }
        out.push(fresh[q]);
        q += 1;
    }
    proof {
        assert(fresh@.subrange(0, fresh@.len() as int) =~= fresh@);
    }
    out
}

/// `i` is the last position of `id` in `order`.
pub open spec fn is_last_position(order: Seq<RoleId>, id: i64, i: int) -> bool {
    &&& 0 <= i < order.len()
    &&& order[i].0 == id
    &&& forall|j: int| i < j < order.len() ==> (#[trigger] order[j]).0 != id
}

/// The rank a role gets from the order: one more than its (last) position in it.
pub open spec fn rank_in(order: Seq<RoleId>, id: i64) -> int {
    (choose|i: int| is_last_position(order, id, i)) + 1
}

pub open spec fn in_order(order: Seq<RoleId>, id: i64) -> bool {
    exists|i: int| 0 <= i < order.len() && (#[trigger] order[i]).0 == id
}

/// Each role of the order gets its one-based rank; other roles are unchanged.
pub open spec fn ranked(
    order: Seq<RoleId>,
    by_id: Map<i64, ClanRoleDetail>,
) -> Map<i64, ClanRoleDetail> {
    Map::new(
        |k: i64| by_id.contains_key(k),
        |k: i64|
            if in_order(order, k) {
                ClanRoleDetail { order_role: rank_in(order, k) as i32, ..by_id[k] }
            } else {
                by_id[k]
            },
    )
}

proof fn lemma_last_exists(order: Seq<RoleId>, id: i64)
    requires
        in_order(order, id),
    ensures
        exists|i: int| is_last_position(order, id, i),
    decreases order.len(),
{
    if order.last().0 == id {
        assert(is_last_position(order, id, order.len() - 1));
    } else {
        let p = order.drop_last();
        let w = choose|w: int| 0 <= w < order.len() && (#[trigger] order[w]).0 == id;
        assert(p[w] == order[w]);
        lemma_last_exists(p, id);
        let i = choose|i: int| is_last_position(p, id, i);
        assert(is_last_position(order, id, i)) by {
            assert(order[i] == p[i]);
            assert forall|j: int| i < j < order.len() implies (#[trigger] order[j]).0 != id by {
                if j < order.len() - 1 {
                    assert(order[j] == p[j]);
                }
            }
        }
    }
}

proof fn lemma_last_position(order: Seq<RoleId>, id: i64, i: int)
    requires
        is_last_position(order, id, i),
    ensures
        rank_in(order, id) == i + 1,
{
    let f = choose|j: int| is_last_position(order, id, j);
    assert(is_last_position(order, id, f));
    if f < i {
        assert(order[i].0 == id);
    }
    if i < f {
        assert(order[f].0 == id);
    }
}

/// Writes each role's one-based position in the order into its details.
pub fn apply_order_ranks(roles: &mut ClanRoles)
    requires
        old(roles).order@.len() < 0x7fff_ffff,
    ensures
        final(roles).order@ == old(roles).order@,
        final(roles).by_id@ == ranked(old(roles).order@, old(roles).by_id@),
{
    let ghost order = roles.order@;
    let ghost m0 = roles.by_id@;
    let mut i: usize = 0;
    while i < roles.order.len()
        invariant
            roles.order@ == order,
            order.len() < 0x7fff_ffff,
            i <= order.len(),
            roles.by_id@ == ranked(order.subrange(0, i as int), m0),
        decreases order.len() - i,
    {
        let id = roles.order[i].0;
        let ghost before = roles.by_id@;
        match roles.by_id.remove(&id) {
            Some(mut role) => {
                role.order_role = i as i32 + 1;
                roles.by_id.insert(id, role);
            },
            None => {},
        }
        proof {
            let p = order.subrange(0, i as int);
            let q = order.subrange(0, i + 1);
            assert(is_last_position(q, id, i as int));
            lemma_last_position(q, id, i as int);
            assert forall|k: i64| k != id && #[trigger] in_order(q, k) implies in_order(p, k)
                && rank_in(q, k) == rank_in(p, k) by {
                let w = choose|w: int| 0 <= w < q.len() && (#[trigger] q[w]).0 == k;
                assert(p[w] == q[w]);
                lemma_last_exists(p, k);
                let l = choose|j: int| is_last_position(p, k, j);
                assert(is_last_position(p, k, l));
                assert(is_last_position(q, k, l)) by {
                    assert(q[l] == p[l]);
                    assert forall|j: int| l < j < q.len() implies (#[trigger] q[j]).0 != k by {
                        if j < i {
                            assert(q[j] == p[j]);
                        }
                    }
                }
                lemma_last_position(q, k, l);
            }
            assert forall|k: i64| k != id && #[trigger] in_order(p, k) implies in_order(q, k) by {
                let w = choose|w: int| 0 <= w < p.len() && (#[trigger] p[w]).0 == k;
                assert(q[w] == p[w]);
            }
            assert(in_order(q, id)) by {
                assert(q[i as int].0 == id);
            }
            assert(roles.by_id@ =~= ranked(q, m0));
        }
        i += 1;
    }
    proof {
        assert(order.subrange(0, order.len() as int) =~= order);
    }
}

/// The roles of a clan that are among `role_ids`, in the order of `role_ids`; none for a clan
/// whose roles are not loaded.
pub open spec fn roles_for_spec(
    by_clan: Map<i64, ClanRoles>,
    clan_id: i64,
    role_ids: Seq<RoleId>,
) -> Seq<Role>
    decreases role_ids.len(),
{
    if !by_clan.contains_key(clan_id) || role_ids.len() == 0 {
        Seq::empty()
    } else {
        let prev = roles_for_spec(by_clan, clan_id, role_ids.drop_last());
        let m = by_clan[clan_id].by_id@;
        let k = role_ids.last().0;
        if m.contains_key(k) {
            prev.push(role_of_detail(m[k]))
        } else {
            prev
        }
    }
}

/// The roles of a clan that are among `role_ids`.
pub fn roles_for_in(
    by_clan: &HashMap<i64, ClanRoles>,
    clan_id: ClanId,
    role_ids: &[RoleId],
) -> (r: Vec<Role>)
    ensures
        r@ == roles_for_spec(by_clan@, clan_id.0, role_ids@),
{
    let roles = match by_clan.get(&clan_id.0) {
        Some(roles) => roles,
        None => {
            return Vec::new();
        },
    };
    let mut out: Vec<Role> = Vec::new();
    let mut i: usize = 0;
    while i < role_ids.len()
        invariant
            by_clan@.contains_key(clan_id.0),
            *roles == by_clan@[clan_id.0],
            i <= role_ids@.len(),
            out@ == roles_for_spec(by_clan@, clan_id.0, role_ids@.subrange(0, i as int)),
        decreases role_ids@.len() - i,
    {
        proof {
            assert(role_ids@.subrange(0, i + 1).drop_last() =~= role_ids@.subrange(0, i as int));
        }
        match roles.by_id.get(&role_ids[i].0) {
            Some(detail) => {
                out.push(Role::from_detail(detail));
            },
            None => {},
        }
        i += 1;
    }
    proof {
        assert(role_ids@.subrange(0, role_ids@.len() as int) =~= role_ids@);
    }
    out
}

/// Reconciling after a failed reorder keeps exactly the roles that exist now: none that was
/// deleted meanwhile comes back, none that was created meanwhile is lost.
pub proof fn law_reconcile_keeps_live_roles(previous: Seq<RoleId>, current: Seq<RoleId>, id: RoleId)
    ensures
        reconcile_spec(previous, current).contains(id) <==> current.contains(id),
{
    broadcast use {vstd::seq_lib::group_filter_ensures, Seq::lemma_filter_contains_rev};

    let kept = kept_of(previous, current);
    let fresh = fresh_of(current, kept);
    let r = reconcile_spec(previous, current);
    if r.contains(id) {
        let i = choose|i: int| 0 <= i < r.len() && r[i] == id;
        if i < kept.len() {
            assert(kept[i] == id);
            assert(current.contains(id));
        } else {
            assert(fresh[i - kept.len()] == id);
            assert(fresh.contains(id));
        }
    }
    if current.contains(id) {
        if kept.contains(id) {
            let i = choose|i: int| 0 <= i < kept.len() && kept[i] == id;
            assert(r[i] == id);
        } else {
            let i = choose|i: int| 0 <= i < current.len() && current[i] == id;
            assert(fresh.contains(current[i]));
            let j = choose|j: int| 0 <= j < fresh.len() && fresh[j] == id;
            assert(r[kept.len() + j] == id);
        }
    }
}

// ---------------------------------------------------------------------------
// Role colors
// ---------------------------------------------------------------------------

/// A role color as red, green and blue bytes (fully opaque).
#[derive(Debug, Clone, Copy, PartialEq, Eq)]
pub struct RoleColor {
    pub r: u8,
    pub g: u8,
    pub b: u8,
}

pub open spec fn hex_value(c: char) -> Option<int> {
    if '0' <= c && c <= '9' {
        Some(c as int - '0' as int)
    } else if 'a' <= c && c <= 'f' {
        Some(c as int - 'a' as int + 10)
    } else if 'A' <= c && c <= 'F' {
        Some(c as int - 'A' as int + 10)
    } else {
        None
    }
}

/// The value of a run of hex digits (none when a character is not one).
pub open spec fn hex_digits(s: Seq<char>) -> Option<int>
    decreases s.len(),
{
    if s.len() == 0 {
        Some(0)
    } else {
        match (hex_digits(s.drop_last()), hex_value(s.last())) {
            (Some(v), Some(d)) => Some(v * 16 + d),
            _ => None,
        }
    }
}

/// A hexadecimal number as `from_str_radix` reads it: an optional `+`, then at least one digit.
pub open spec fn radix16(s: Seq<char>) -> Option<int> {
    let digits = if s.len() > 0 && s[0] == '+' {
        s.drop_first()
    } else {
        s
    };
    if digits.len() == 0 {
        None
    } else {
        hex_digits(digits)
    }
}

/// A role color written `#rgb`, `#rrggbb` or `#rrggbbaa` (the `#` and the alpha optional,
/// surrounding white space ignored); anything else has no color.
pub open spec fn role_color_spec(raw: Seq<char>) -> Option<RoleColor> {
    let t = trim_seq(raw);
    let h = if t.len() > 0 && t[0] == '#' {
        t.drop_first()
    } else {
        t
    };
    if !all_ascii(h) {
        None
    } else if h.len() == 3 {
        match (radix16(h.subrange(0, 1)), radix16(h.subrange(1, 2)), radix16(h.subrange(2, 3))) {
            (Some(r), Some(g), Some(b)) => Some(
                RoleColor { r: (r * 17) as u8, g: (g * 17) as u8, b: (b * 17) as u8 },
            ),
            _ => None,
        }
    } else if h.len() == 6 || h.len() == 8 {
        match radix16(h.subrange(0, 6)) {
            Some(v) => Some(
                RoleColor {
                    r: ((v / 65536) % 256) as u8,
                    g: ((v / 256) % 256) as u8,
                    b: (v % 256) as u8,
                },
            ),
            None => None,
        }
    } else {
        None
    }
}

fn hex_value_exec(c: char) -> (r: Option<u32>)
    ensures
        match (r, hex_value(c)) {
            (Some(a), Some(b)) => a == b,
            (None, None) => true,
            _ => false,
        },
{
    if '0' <= c && c <= '9' {
        Some((c as u32) - ('0' as u32))
    } else if 'a' <= c && c <= 'f' {
        Some((c as u32) - ('a' as u32) + 10)
    } else if 'A' <= c && c <= 'F' {
        Some((c as u32) - ('A' as u32) + 10)
    } else {
        None
    }
}

pub open spec fn pow16(n: nat) -> int
    decreases n,
{
    if n == 0 {
        1
    } else {
        16 * pow16((n - 1) as nat)
    }
}

proof fn lemma_pow16_pos(n: nat)
    ensures
        pow16(n) >= 1,
    decreases n,
{
    if n > 0 {
        lemma_pow16_pos((n - 1) as nat);
    }
}

proof fn lemma_pow16_mono(a: nat, b: nat)
    requires
        a <= b,
    ensures
        1 <= pow16(a) <= pow16(b),
    decreases b - a,
{
    lemma_pow16_pos(a);
    if a < b {
        lemma_pow16_mono(a, (b - 1) as nat);
        lemma_pow16_pos((b - 1) as nat);
    }
}

proof fn lemma_hex_digits_none(s: Seq<char>, k: int)
    requires
        0 <= k <= s.len(),
        hex_digits(s.take(k)) is None,
    ensures
        hex_digits(s) is None,
    decreases s.len() - k,
{
    if k == s.len() {
        assert(s.take(k) =~= s);
    } else {
        assert(s.take(k + 1).drop_last() =~= s.take(k));
        lemma_hex_digits_none(s, k + 1);
    }
}

proof fn lemma_hex_digits_bound(s: Seq<char>)
    ensures
        hex_digits(s) matches Some(v) ==> 0 <= v < pow16(s.len()),
    decreases s.len(),
{
    if s.len() > 0 {
        lemma_hex_digits_bound(s.drop_last());
        if let Some(v) = hex_digits(s) {
            let p = pow16((s.len() - 1) as nat);
            let w = hex_digits(s.drop_last())->0;
            let d = hex_value(s.last())->0;
            assert(0 <= d < 16);
            assert(v == w * 16 + d);
            assert(v < p * 16) by (nonlinear_arith)
                requires
                    v == w * 16 + d,
                    0 <= w < p,
                    0 <= d < 16,
            ;
            assert(p * 16 == pow16(s.len()));
        }
    }
}

/// `radix16` of at most six characters.
fn radix16_exec(s: &Vec<char>) -> (r: Option<u32>)
    requires
        s@.len() <= 6,
    ensures
        match (r, radix16(s@)) {
            (Some(a), Some(b)) => a == b,
            (None, None) => true,
            _ => false,
        },
{
    let start: usize = if s.len() > 0 && s[0] == '+' {
        1
    } else {
        0
    };
    let ghost digits = s@.skip(start as int);
    proof {
        if start == 1 {
            assert(digits =~= s@.drop_first());
        } else {
            assert(digits =~= s@);
        }
    }
    if start >= s.len() {
        return None;
    }
    let mut v: u32 = 0;
    let mut i: usize = start;
    proof {
        assert(digits.take(0) =~= Seq::<char>::empty());
    }
    while i < s.len()
        invariant
            s@.len() <= 6,
            start <= i <= s@.len(),
            digits == s@.skip(start as int),
            digits == (if s@.len() > 0 && s@[0] == '+' {
                s@.drop_first()
            } else {
                s@
            }),
            hex_digits(digits.take(i - start)) == Some(v as int),
        decreases s@.len() - i,
    {
        proof {
            assert(digits.take(i - start + 1).drop_last() =~= digits.take(i - start));
            assert(digits.take(i - start + 1).last() == s@[i as int]);
            lemma_hex_digits_bound(digits.take(i - start));
            lemma_pow16_mono((i - start) as nat, 5);
            reveal_with_fuel(pow16, 6);
        }
        match hex_value_exec(s[i]) {
            Some(d) => {
                v = v * 16 + d;
            },
            None => {
                proof {
                    assert(hex_value(s@[i as int]) is None);
                    assert(hex_digits(digits.take(i - start + 1)) is None);
                    lemma_hex_digits_none(digits, i - start + 1);
                    assert(hex_digits(digits) is None);
                    assert(digits.len() > 0);
                }
                return None;
            },
        }
        i += 1;
    }
    proof {
        assert(digits.take(s@.len() - start) =~= digits);
    }
    Some(v)
}

/// Reads a role color (see `role_color_spec`).
pub fn parse_role_color(raw: &str) -> (r: Option<RoleColor>)
    ensures
        r == role_color_spec(raw@),
{
    let t = trim_chars(&chars_of(raw));
    let h = if t.len() > 0 && t[0] == '#' {
        sub_chars(&t, 1, t.len())
    } else {
        sub_chars(&t, 0, t.len())
    };
    proof {
        if t@.len() > 0 && t@[0] == '#' {
            assert(h@ =~= t@.drop_first());
        } else {
            assert(h@ =~= t@);
        }
    }
    let mut i: usize = 0;
    while i < h.len()
        invariant
            i <= h@.len(),
            t@ == trim_seq(raw@),
            h@ == (if t@.len() > 0 && t@[0] == '#' {
                t@.drop_first()
            } else {
                t@
            }),
            forall|j: int| 0 <= j < i ==> (h@[j] as u32) < 128,
        decreases h@.len() - i,
    {
        if (h[i] as u32) >= 128 {
            proof {
                assert(!crate::text::is_ascii_char(h@[i as int]));
                assert(!all_ascii(h@));
            }
            return None;
        }
        i += 1;
    }
    if h.len() == 3 {
        let r = radix16_exec(&sub_chars(&h, 0, 1));
        let g = radix16_exec(&sub_chars(&h, 1, 2));
        let b = radix16_exec(&sub_chars(&h, 2, 3));
        match (r, g, b) {
            (Some(r), Some(g), Some(b)) => {
                proof {
                    lemma_hex_digits_bound(h@.subrange(0, 1));
                    lemma_hex_digits_bound(h@.subrange(1, 2));
                    lemma_hex_digits_bound(h@.subrange(2, 3));
                    reveal_with_fuel(pow16, 2);
                }
                Some(RoleColor { r: (r * 17) as u8, g: (g * 17) as u8, b: (b * 17) as u8 })
            },
            _ => None,
        }
    } else if h.len() == 6 || h.len() == 8 {
        match radix16_exec(&sub_chars(&h, 0, 6)) {
            Some(v) => Some(
                RoleColor { r: ((v / 65536) % 256) as u8, g: ((v / 256) % 256) as u8, b: (v % 256) as u8 },
            ),
            None => None,
        }
    } else {
        None
    }
}

// ---------------------------------------------------------------------------
// Roles from the server
// ---------------------------------------------------------------------------

/// A permission of a role as the server lists it.
#[derive(Debug, Clone, Default, PartialEq, Eq)]
pub struct PermissionDesc {
    pub id: i64,
    pub slug: String,
    pub title: String,
    pub active: i32,
}

/// A role as the server lists it.
#[derive(Debug, Clone, Default, PartialEq, Eq)]
pub struct RoleDesc {
    pub id: i64,
    pub title: String,
    pub color: String,
    pub role_icon: String,
    pub slug: String,
    pub active: i32,
    pub order_role: i32,
    pub max_level_permission: i32,
    pub permission_list: Option<Vec<PermissionDesc>>,
    pub role_user_ids: Option<Vec<i64>>,
    pub channel_ids: Vec<i64>,
    pub role_channel_active: i32,
    pub creator_id: i64,
}

pub open spec fn permission_matches(p: RolePermission, d: PermissionDesc) -> bool {
    p.id == d.id && p.slug@ == d.slug@ && p.title@ == d.title@ && p.active == (d.active == 1)
}

/// The details made of a listed role: its fields, `active` flags read as `== 1`, its
/// permissions and members (none when not listed), and its member count.
pub open spec fn detail_matches(d: ClanRoleDetail, r: RoleDesc) -> bool {
    &&& d.name@ == r.title@
    &&& d.color@ == r.color@
    &&& d.icon@ == r.role_icon@
    &&& d.slug@ == r.slug@
    &&& d.active == (r.active == 1)
    &&& d.order_role == r.order_role
    &&& d.max_level_permission == r.max_level_permission
    &&& match r.permission_list {
        Some(l) => d.permissions@.len() == l@.len() && forall|i: int|
            0 <= i < l@.len() ==> permission_matches(#[trigger] d.permissions@[i], l@[i]),
        None => d.permissions@.len() == 0,
    }
    &&& match r.role_user_ids {
        Some(u) => d.member_ids@.len() == u@.len() && forall|i: int|
            0 <= i < u@.len() ==> #[trigger] d.member_ids@[i] == UserId(u@[i]),
        None => d.member_ids@.len() == 0,
    }
    &&& d.member_count == d.member_ids@.len()
    &&& d.channel_ids@.len() == r.channel_ids@.len()
    &&& forall|i: int| 0 <= i < r.channel_ids@.len() ==> #[trigger] d.channel_ids@[i] == ChannelId(r.channel_ids@[i])
    &&& d.role_channel_active == (r.role_channel_active == 1)
    &&& d.creator_id == UserId(r.creator_id)
}

/// The details of a listed role (see `detail_matches`).
pub fn role_detail_from_proto(r: RoleDesc) -> (d: ClanRoleDetail)
    ensures
        detail_matches(d, r),
{
    let mut permissions: Vec<RolePermission> = Vec::new();
    match &r.permission_list {
        Some(list) => {
            let mut i: usize = 0;
            while i < list.len()
                invariant
                    i <= list@.len(),
                    permissions@.len() == i,
                    forall|j: int| 0 <= j < i ==> permission_matches(#[trigger] permissions@[j], list@[j]),
                decreases list@.len() - i,
            {
                let p = &list[i];
                permissions.push(
                    RolePermission { id: p.id, slug: p.slug.clone(), title: p.title.clone(), active: p.active == 1 },
                );
                i += 1;
            }
        },
        None => {},
    }
    let mut member_ids: Vec<UserId> = Vec::new();
    match &r.role_user_ids {
        Some(list) => {
            let mut i: usize = 0;
            while i < list.len()
                invariant
                    i <= list@.len(),
                    member_ids@.len() == i,
                    forall|j: int| 0 <= j < i ==> #[trigger] member_ids@[j] == UserId(list@[j]),
                decreases list@.len() - i,
            {
                member_ids.push(UserId(list[i]));
                i += 1;
            }
        },
        None => {},
    }
    let mut channel_ids: Vec<ChannelId> = Vec::new();
    let mut i: usize = 0;
    while i < r.channel_ids.len()
        invariant
            i <= r.channel_ids@.len(),
            channel_ids@.len() == i,
            forall|j: int| 0 <= j < i ==> #[trigger] channel_ids@[j] == ChannelId(r.channel_ids@[j]),
        decreases r.channel_ids@.len() - i,
    {
        channel_ids.push(ChannelId(r.channel_ids[i]));
        i += 1;
    }
    let member_count = member_ids.len();
    ClanRoleDetail {
        name: r.title,
        color: r.color,
        icon: r.role_icon,
        slug: r.slug,
        active: r.active == 1,
        order_role: r.order_role,
        max_level_permission: r.max_level_permission,
        permissions,
        member_count,
        member_ids,
        channel_ids,
        role_channel_active: r.role_channel_active == 1,
        creator_id: UserId(r.creator_id),
    }
}

/// `a` is listed before `b`: roles with a positive order come first, by that order.
pub open spec fn role_before(a: RoleDesc, b: RoleDesc) -> bool {
    (a.order_role > 0 && b.order_role > 0 && a.order_role < b.order_role) || (a.order_role > 0
        && b.order_role <= 0)
}

/// `x` inserted into `s` after every role it is not listed before: one step of a stable sort.
pub open spec fn insert_role(s: Seq<RoleDesc>, x: RoleDesc) -> Seq<RoleDesc>
    decreases s.len(),
{
    if s.len() == 0 {
        seq![x]
    } else if !role_before(x, s.last()) {
        s.push(x)
    } else {
        insert_role(s.drop_last(), x).push(s.last())
    }
}

/// `s` stably sorted: positive orders first, ascending; the rest after, as listed.
pub open spec fn sort_roles(s: Seq<RoleDesc>) -> Seq<RoleDesc>
    decreases s.len(),
{
    if s.len() == 0 {
        s
    } else {
        insert_role(sort_roles(s.drop_last()), s.last())
    }
}

/// The order and the roles by id after taking the sorted roles in turn: roles with id `0` or
/// not active are skipped; a later role with an id already taken replaces its details but
/// keeps its place.
pub open spec fn taken_roles(s: Seq<RoleDesc>) -> (Seq<RoleId>, Map<i64, RoleDesc>)
    decreases s.len(),
{
    if s.len() == 0 {
        (Seq::empty(), Map::empty())
    } else {
        let (order, m) = taken_roles(s.drop_last());
        let r = s.last();
        if r.id == 0 || r.active != 1 {
            (order, m)
        } else if m.contains_key(r.id) {
            (order, m.insert(r.id, r))
        } else {
            (order.push(RoleId(r.id)), m.insert(r.id, r))
        }
    }
}

proof fn lemma_insert_role_at(s: Seq<RoleDesc>, x: RoleDesc, j: int)
    requires
        0 <= j <= s.len(),
        forall|k: int| j <= k < s.len() ==> role_before(x, #[trigger] s[k]),
        j > 0 ==> !role_before(x, s[j - 1]),
    ensures
        insert_role(s, x) == s.take(j) + seq![x] + s.skip(j),
    decreases s.len(),
{
    if s.len() == 0 {
        assert(s.take(j) + seq![x] + s.skip(j) =~= seq![x]);
    } else if j == s.len() {
        assert(s.take(j) + seq![x] + s.skip(j) =~= s.push(x));
    } else {
        let p = s.drop_last();
        assert(s[s.len() - 1] == s.last());
        lemma_insert_role_at(p, x, j);
        assert(p.take(j) + seq![x] + p.skip(j) + seq![s.last()] =~= s.take(j) + seq![x] + s.skip(
            j,
        ));
    }
}

fn sort_role_descs(v: Vec<RoleDesc>) -> (r: Vec<RoleDesc>)
    ensures
        r@ == sort_roles(v@),
{
    let ghost s = v@;
    let mut v = v;
    let mut out: Vec<RoleDesc> = Vec::new();
    let n = v.len();
    proof {
        assert(s.subrange(0, 0) =~= Seq::<RoleDesc>::empty());
    }
    while v.len() > 0
        invariant
            n == s.len(),
            v@.len() <= n,
            v@ == s.subrange(n - v@.len(), n as int),
            out@ == sort_roles(s.subrange(0, n - v@.len())),
        decreases v@.len(),
    {
        let ghost k = n - v@.len();
        let x = v.remove(0);
        proof {
            assert(x == s[k]);
            assert(v@ =~= s.subrange(k + 1, n as int));
            assert(s.subrange(0, k + 1).drop_last() =~= s.subrange(0, k));
        }
        let mut j = out.len();
        while j > 0 && ((x.order_role > 0 && out[j - 1].order_role > 0 && x.order_role < out[j
            - 1].order_role) || (x.order_role > 0 && out[j - 1].order_role <= 0))
            invariant
                j <= out@.len(),
                forall|q: int| j <= q < out@.len() ==> role_before(x, #[trigger] out@[q]),
            decreases j,
        {
            j -= 1;
        }
        proof {
            lemma_insert_role_at(out@, x, j as int);
        }
        let ghost prev = out@;
        out.insert(j, x);
        proof {
            assert(out@ =~= prev.take(j as int) + seq![x] + prev.skip(j as int));
        }
    }
    proof {
        assert(s.subrange(0, n as int) =~= s);
    }
    out
}

/// The roles of a clan from the server's list (see `sort_roles` and `taken_roles`).
pub fn roles_map_from_proto(roles: Vec<RoleDesc>) -> (out: ClanRoles)
    ensures
        ({
            let (order, m) = taken_roles(sort_roles(roles@));
            &&& out.order@ == order
            &&& out.by_id@.dom() == m.dom()
            &&& forall|k: i64| #[trigger] m.contains_key(k) ==> detail_matches(out.by_id@[k], m[k])
        }),
{
    let sorted = sort_role_descs(roles);
    let ghost s = sorted@;
    let mut out = ClanRoles::new();
    let mut rest = sorted;
    let mut stack: Vec<RoleDesc> = Vec::new();
    while rest.len() > 0
        invariant
            rest@ + stack@.reverse() == s,
        decreases rest@.len(),
    {
        let x = rest.pop().unwrap();
        stack.push(x);
        proof {
            assert(rest@ + stack@.reverse() =~= s);
        }
    }
    proof {
        assert(stack@.reverse() =~= s);
        assert(s.subrange(0, 0) =~= Seq::<RoleDesc>::empty());
    }
    let n = stack.len();
    while stack.len() > 0
        invariant
            n == s.len(),
            stack@.len() <= n,
            stack@.reverse() == s.subrange(n - stack@.len(), n as int),
            ({
                let (order, m) = taken_roles(s.subrange(0, n - stack@.len()));
                &&& out.order@ == order
                &&& out.by_id@.dom() == m.dom()
                &&& forall|k: i64| #[trigger] m.contains_key(k) ==> detail_matches(out.by_id@[k], m[k])
            }),
        decreases stack@.len(),
    {
        let ghost k = n - stack@.len();
        let ghost before = stack@;
        let r = stack.pop().unwrap();
        proof {
            assert(before.reverse()[0] == r);
            assert(r == s[k]);
            assert(stack@.reverse() =~= s.subrange(k + 1, n as int)) by {
                assert forall|q: int| 0 <= q < stack@.len() implies stack@.reverse()[q] == s.subrange(
                    k + 1,
                    n as int,
                )[q] by {
                    assert(stack@.reverse()[q] == before.reverse()[q + 1]);
                }
            }
            assert(s.subrange(0, k + 1).drop_last() =~= s.subrange(0, k));
            assert(s.subrange(0, k + 1).last() == r);
        }
        let ghost rv = r;
        let ghost m0 = out.by_id@;
        if r.id != 0 && r.active == 1 {
            let id = r.id;
            let had = out.by_id.contains_key(&id);
            let detail = role_detail_from_proto(r);
            out.by_id.insert(id, detail);
            if !had {
                out.order.push(RoleId(id));
            }
            proof {
                let (order, m) = taken_roles(s.subrange(0, k));
                assert(out.by_id@.dom() =~= m.insert(id, rv).dom());
                assert forall|q: i64| #[trigger] m.insert(id, rv).contains_key(q) implies detail_matches(
                    out.by_id@[q],
                    m.insert(id, rv)[q],
                ) by {
                    if q != id {
                        assert(m.contains_key(q));
                    }
                }
            }
        }
    }
    proof {
        assert(s.subrange(0, n as int) =~= s);
    }
    out
}

// ---------------------------------------------------------------------------
// How members are styled by their roles
// ---------------------------------------------------------------------------

/// A clan member with the roles it holds.
#[derive(Debug, Clone, Default, PartialEq, Eq)]
pub struct MemberRoles {
    pub user_id: UserId,
    pub role_ids: Vec<RoleId>,
}

/// How a member's name is drawn: the color of its first role, the icon of its first role
/// that has one.
#[derive(Debug, Clone, PartialEq, Eq)]
pub struct RoleStyle {
    pub color: Option<RoleColor>,
    pub icon: Option<String>,
}

/// A role counts for styling when it is in the order and its details are known.
pub open spec fn styles_with(order: Seq<RoleId>, by_id: Map<i64, ClanRoleDetail>, k: i64) -> bool {
    in_order(order, k) && by_id.contains_key(k)
}

/// The first (by role order) of the roles `ids` that count and satisfy `ok`.
pub open spec fn first_role_by(
    order: Seq<RoleId>,
    by_id: Map<i64, ClanRoleDetail>,
    ids: Seq<RoleId>,
    with_icon: bool,
) -> Option<i64>
    decreases ids.len(),
{
    if ids.len() == 0 {
        None
    } else {
        let p = first_role_by(order, by_id, ids.drop_last(), with_icon);
        let k = ids.last().0;
        if !styles_with(order, by_id, k) || (with_icon && trim_seq(by_id[k].icon@).len() == 0) {
            p
        } else {
            match p {
                None => Some(k),
                Some(b) => if rank_in(order, k) < rank_in(order, b) {
                    Some(k)
                } else {
                    Some(b)
                },
            }
        }
    }
}

proof fn lemma_first_role_counts(
    order: Seq<RoleId>,
    by_id: Map<i64, ClanRoleDetail>,
    ids: Seq<RoleId>,
    with_icon: bool,
)
    ensures
        first_role_by(order, by_id, ids, with_icon) matches Some(k) ==> styles_with(order, by_id, k),
    decreases ids.len(),
{
    if ids.len() > 0 {
        lemma_first_role_counts(order, by_id, ids.drop_last(), with_icon);
    }
}

pub open spec fn color_text(c: Seq<char>) -> Seq<char> {
    if trim_seq(c).len() > 0 {
        trim_seq(c)
    } else {
        DEFAULT_ROLE_COLOR@
    }
}

/// The style of a member with roles `ids`, when one of them counts: the color of the first
/// (its trimmed color, else the default color) and the trimmed icon of the first with one.
pub open spec fn style_spec(order: Seq<RoleId>, by_id: Map<i64, ClanRoleDetail>, ids: Seq<RoleId>) -> Option<
    (Option<RoleColor>, Option<Seq<char>>),
> {
    match first_role_by(order, by_id, ids, false) {
        None => None,
        Some(k) => Some(
            (
                role_color_spec(color_text(by_id[k].color@)),
                match first_role_by(order, by_id, ids, true) {
                    Some(i) => Some(trim_seq(by_id[i].icon@)),
                    None => None,
                },
            ),
        ),
    }
}

/// The styled members, in order: each member with a role that counts, and its style.
pub open spec fn styles_spec(order: Seq<RoleId>, by_id: Map<i64, ClanRoleDetail>, members: Seq<MemberRoles>) -> Seq<
    (UserId, (Option<RoleColor>, Option<Seq<char>>)),
>
    decreases members.len(),
{
    if members.len() == 0 {
        Seq::empty()
    } else {
        let p = styles_spec(order, by_id, members.drop_last());
        let m = members.last();
        match style_spec(order, by_id, m.role_ids@) {
            Some(st) => p.push((m.user_id, st)),
            None => p,
        }
    }
}

pub open spec fn style_view(st: RoleStyle) -> (Option<RoleColor>, Option<Seq<char>>) {
    (st.color, opt_string_view(st.icon))
}

pub open spec fn opt_string_view(o: Option<String>) -> Option<Seq<char>> {
    match o {
        Some(s) => Some(s@),
        None => None,
    }
}

/// The rank of role `id` in the order (one more than its last position), if it is there.
fn rank_exec(order: &Vec<RoleId>, id: i64) -> (r: Option<usize>)
    ensures
        match r {
            Some(v) => in_order(order@, id) && v == rank_in(order@, id),
            None => !in_order(order@, id),
        },
{
    let mut i = order.len();
    while i > 0
        invariant
            i <= order@.len(),
            forall|j: int| i <= j < order@.len() ==> (#[trigger] order@[j]).0 != id,
        decreases i,
    {
        if order[i - 1].0 == id {
            proof {
                assert(is_last_position(order@, id, i - 1));
                lemma_last_position(order@, id, i - 1);
            }
            return Some(i);
        }
        i -= 1;
    }
    None
}

fn first_role_exec(roles: &ClanRoles, ids: &Vec<RoleId>, with_icon: bool) -> (r: Option<i64>)
    ensures
        r == first_role_by(roles.order@, roles.by_id@, ids@, with_icon),
{
    let mut best: Option<i64> = None;
    let mut best_rank: usize = 0;
    let mut i: usize = 0;
    proof {
        assert(ids@.take(0) =~= Seq::<RoleId>::empty());
    }
    while i < ids.len()
        invariant
            i <= ids@.len(),
            best == first_role_by(roles.order@, roles.by_id@, ids@.take(i as int), with_icon),
            best matches Some(b) ==> best_rank == rank_in(roles.order@, b),
        decreases ids@.len() - i,
    {
        proof {
            assert(ids@.take(i + 1).drop_last() =~= ids@.take(i as int));
            assert(ids@.take(i + 1).last() == ids@[i as int]);
        }
        let k = ids[i].0;
        match rank_exec(&roles.order, k) {
            Some(rk) => {
                match roles.by_id.get(&k) {
                    Some(detail) => {
                        let ok = if with_icon {
                            trim_chars(&chars_of(detail.icon.as_str())).len() > 0
                        } else {
                            true
                        };
                        if ok {
                            match best {
                                None => {
                                    best = Some(k);
                                    best_rank = rk;
                                },
                                Some(_) => {
                                    if rk < best_rank {
                                        best = Some(k);
                                        best_rank = rk;
                                    }
                                },
                            }
                        }
                    },
                    None => {},
                }
            },
            None => {},
        }
        i += 1;
    }
    proof {
        assert(ids@.take(ids@.len() as int) =~= ids@);
    }
    best
}

/// The style of one member, if one of its roles counts (see `style_spec`).
pub fn member_style(roles: &ClanRoles, role_ids: &Vec<RoleId>) -> (r: Option<RoleStyle>)
    ensures
        match (r, style_spec(roles.order@, roles.by_id@, role_ids@)) {
            (Some(st), Some(v)) => style_view(st) == v,
            (None, None) => true,
            _ => false,
        },
{
    match first_role_exec(roles, role_ids, false) {
        None => None,
        Some(k) => {
            proof {
                lemma_first_role_counts(roles.order@, roles.by_id@, role_ids@, false);
                lemma_first_role_counts(roles.order@, roles.by_id@, role_ids@, true);
            }
            let detail = roles.by_id.get(&k).unwrap();
            let trimmed = trim_chars(&chars_of(detail.color.as_str()));
            let text = if trimmed.len() > 0 {
                string_from_chars(&trimmed)
            } else {
                owned(DEFAULT_ROLE_COLOR)
            };
            let color = parse_role_color(text.as_str());
            let icon = match first_role_exec(roles, role_ids, true) {
                Some(i) => {
                    let d = roles.by_id.get(&i).unwrap();
                    Some(string_from_chars(&trim_chars(&chars_of(d.icon.as_str()))))
                },
                None => None,
            };
            Some(RoleStyle { color, icon })
        },
    }
}

/// The styles of a clan's members (see `styles_spec`).
pub fn role_styles_for_clan(roles: &ClanRoles, members: &[MemberRoles]) -> (r: Vec<(UserId, RoleStyle)>)
    ensures
        r@.len() == styles_spec(roles.order@, roles.by_id@, members@).len(),
        forall|i: int| 0 <= i < r@.len() ==> {
            let e = #[trigger] styles_spec(roles.order@, roles.by_id@, members@)[i];
            r@[i].0 == e.0 && style_view(r@[i].1) == e.1
        },
{
    let mut out: Vec<(UserId, RoleStyle)> = Vec::new();
    let mut i: usize = 0;
    proof {
        assert(members@.take(0) =~= Seq::<MemberRoles>::empty());
    }
    while i < members.len()
        invariant
            i <= members@.len(),
            out@.len() == styles_spec(roles.order@, roles.by_id@, members@.take(i as int)).len(),
            forall|j: int| 0 <= j < out@.len() ==> {
                let e = #[trigger] styles_spec(roles.order@, roles.by_id@, members@.take(i as int))[j];
                out@[j].0 == e.0 && style_view(out@[j].1) == e.1
            },
        decreases members@.len() - i,
    {
        proof {
            assert(members@.take(i + 1).drop_last() =~= members@.take(i as int));
            assert(members@.take(i + 1).last() == members@[i as int]);
        }
        match member_style(roles, &members[i].role_ids) {
            Some(st) => {
                out.push((members[i].user_id, st));
            },
            None => {},
        }
        i += 1;
    }
    proof {
        assert(members@.take(members@.len() as int) =~= members@);
    }
    out
}

} // verus!
