use std::collections::HashMap;

use vstd::prelude::*;

use crate::ids::{ChannelId, RoleId, UserId};

verus! {

broadcast use vstd::std_specs::hash::group_hash_axioms;

pub const OVERRIDE_TYPE_NEUTRAL: i32 = 0;
pub const OVERRIDE_TYPE_ALLOW: i32 = 1;
pub const OVERRIDE_TYPE_DENY: i32 = 2;

/// Whom a channel permission override is for.
#[derive(Debug, Clone, Copy, PartialEq, Eq, Hash, Structural)]
pub enum PermissionEntity {
    Role(RoleId),
    User(UserId),
}

impl PermissionEntity {
    /// The role id, or 0 for a user.
    pub fn role_id(&self) -> (r: i64)
        ensures
            r == (match self {
                PermissionEntity::Role(id) => id.0,
                PermissionEntity::User(_) => 0,
            }),
    {
        match self {
            PermissionEntity::Role(id) => id.get(),
            PermissionEntity::User(_) => 0,
        }
    }

    /// The user id, or 0 for a role.
    pub fn user_id(&self) -> (r: i64)
        ensures
            r == (match self {
                PermissionEntity::Role(_) => 0,
                PermissionEntity::User(id) => id.0,
            }),
    {
        match self {
            PermissionEntity::Role(_) => 0,
            PermissionEntity::User(id) => id.get(),
        }
    }
}

/// What the channel permissions store tells its observers.
#[derive(Debug, Clone)]
pub enum ChannelRolePermissionsEvent {
    Changed { channel_id: ChannelId, entity: PermissionEntity },
    SaveFailed { channel_id: ChannelId, entity: PermissionEntity },
}

/// One permission override as it is sent to the server.
#[derive(Debug, Clone, PartialEq, Eq)]
pub struct PermissionUpdate {
    pub permission_id: i64,
    pub slug: String,
    pub override_type: i32,
}

/// The override type of a permission: the pending choice, else the persisted override
/// (allow or deny), else neutral.
pub open spec fn snapshot_type(
    id: i64,
    pending: Map<i64, i32>,
    persisted: Option<Map<i64, bool>>,
) -> i32 {
    if pending.contains_key(id) {
        pending[id]
    } else {
        match persisted {
            Some(p) => if p.contains_key(id) {
                if p[id] {
                    OVERRIDE_TYPE_ALLOW
                } else {
                    OVERRIDE_TYPE_DENY
                }
            } else {
                OVERRIDE_TYPE_NEUTRAL
            },
            None => OVERRIDE_TYPE_NEUTRAL,
        }
    }
}

/// The whole set of channel-scoped permissions to save, not just the changed ones.
pub fn build_permission_snapshot(
    definitions: &[(i64, String)],
    pending: &HashMap<i64, i32>,
    persisted: Option<&HashMap<i64, bool>>,
) -> (r: Vec<PermissionUpdate>)
    ensures
        r@.len() == definitions@.len(),
        forall|i: int|
            0 <= i < definitions@.len() ==> (#[trigger] r@[i]).permission_id == definitions@[i].0
                && r@[i].slug@ == definitions@[i].1@ && r@[i].override_type == snapshot_type(
                definitions@[i].0,
                pending@,
                match persisted {
                    Some(p) => Some(p@),
                    None => None,
                },
            ),
{
    let ghost pv = match persisted {
        Some(p) => Some(p@),
        None => None::<Map<i64, bool>>,
    };
    let mut out: Vec<PermissionUpdate> = Vec::new();
    let mut i: usize = 0;
    while i < definitions.len()
        invariant
            i <= definitions@.len(),
            pv == (match persisted {
                Some(p) => Some(p@),
                None => None,
            }),
            out@.len() == i,
            forall|j: int|
                0 <= j < i ==> (#[trigger] out@[j]).permission_id == definitions@[j].0
                    && out@[j].slug@ == definitions@[j].1@ && out@[j].override_type
                    == snapshot_type(definitions@[j].0, pending@, pv),
        decreases definitions@.len() - i,
    {
        let id = definitions[i].0;
        let t = match pending.get(&id) {
            Some(p) => *p,
            None => match persisted {
                Some(p) => match p.get(&id) {
                    Some(active) => if *active {
                        OVERRIDE_TYPE_ALLOW
                    } else {
                        OVERRIDE_TYPE_DENY
                    },
                    None => OVERRIDE_TYPE_NEUTRAL,
                },
                None => OVERRIDE_TYPE_NEUTRAL,
            },
        };
        out.push(PermissionUpdate { permission_id: id, slug: definitions[i].1.clone(), override_type: t });
        i += 1;
    }
    out
}

/// The overrides in force after a save: neutral ones dropped, allow as true, deny as false
/// (a later entry for the same permission wins).
pub open spec fn applied_spec(updates: Seq<PermissionUpdate>) -> Map<i64, bool>
    decreases updates.len(),
{
    if updates.len() == 0 {
        Map::empty()
    } else {
        let m = applied_spec(updates.drop_last());
        let u = updates.last();
        if u.override_type != OVERRIDE_TYPE_NEUTRAL {
            m.insert(u.permission_id, u.override_type == OVERRIDE_TYPE_ALLOW)
        } else {
            m
        }
    }
}

pub fn applied_overrides(updates: &[PermissionUpdate]) -> (r: HashMap<i64, bool>)
    ensures
        r@ == applied_spec(updates@),
{
    let mut out: HashMap<i64, bool> = HashMap::new();
    let mut i: usize = 0;
    proof {
        assert(out@ =~= applied_spec(updates@.subrange(0, 0)));
    }
    while i < updates.len()
        invariant
            i <= updates@.len(),
            out@ == applied_spec(updates@.subrange(0, i as int)),
        decreases updates@.len() - i,
    {
        proof {
            assert(updates@.subrange(0, i + 1).drop_last() =~= updates@.subrange(0, i as int));
        }
        let u = &updates[i];
        if u.override_type != OVERRIDE_TYPE_NEUTRAL {
            out.insert(u.permission_id, u.override_type == OVERRIDE_TYPE_ALLOW);
        }
        i += 1;
    }
    proof {
        assert(updates@.subrange(0, updates@.len() as int) =~= updates@);
    }
    out
}

/// The overrides of one entity in one channel are cached under this key.
#[derive(Debug, Clone, Copy, PartialEq, Eq, Hash, Structural)]
pub struct EntityKey {
    pub channel_id: ChannelId,
    pub entity: PermissionEntity,
}

/// The loaded overrides, and which loads and saves are under way.
pub struct PermissionCache {
    pub entries: Vec<(EntityKey, HashMap<i64, bool>)>,
    pub loading: Vec<EntityKey>,
    pub saving: Vec<EntityKey>,
}

/// `i` is the first entry for `key` (`entries.len()` when none is).
pub open spec fn is_first_entry(entries: Seq<(EntityKey, HashMap<i64, bool>)>, key: EntityKey, i: int) -> bool {
    &&& 0 <= i <= entries.len()
    &&& forall|j: int| 0 <= j < i ==> (#[trigger] entries[j]).0 != key
    &&& i < entries.len() ==> entries[i].0 == key
}

pub open spec fn entry_index(entries: Seq<(EntityKey, HashMap<i64, bool>)>, key: EntityKey) -> int {
    choose|i: int| is_first_entry(entries, key, i)
}

/// The cached overrides of `key`, as a map from permission id to allowed.
pub open spec fn cached_overrides(entries: Seq<(EntityKey, HashMap<i64, bool>)>, key: EntityKey) -> Option<Map<i64, bool>> {
    let i = entry_index(entries, key);
    if i < entries.len() {
        Some(entries[i].1@)
    } else {
        None
    }
}

proof fn lemma_entry_index(entries: Seq<(EntityKey, HashMap<i64, bool>)>, key: EntityKey, i: int)
    requires
        is_first_entry(entries, key, i),
    ensures
        entry_index(entries, key) == i,
{
    let c = entry_index(entries, key);
    assert(is_first_entry(entries, key, c));
    if c < i {
        assert(entries[c].0 != key);
    }
    if i < c {
        assert(entries[i].0 != key);
    }
}

fn find_entry(entries: &Vec<(EntityKey, HashMap<i64, bool>)>, key: EntityKey) -> (r: usize)
    ensures
        is_first_entry(entries@, key, r as int),
        r as int == entry_index(entries@, key),
{
    let mut i: usize = 0;
    while i < entries.len() && entries[i].0 != key
        invariant
            i <= entries@.len(),
            forall|j: int| 0 <= j < i ==> (#[trigger] entries@[j]).0 != key,
        decreases entries@.len() - i,
    {
        i += 1;
    }
    proof {
        lemma_entry_index(entries@, key, i as int);
    }
    i
}

fn holds_key(keys: &Vec<EntityKey>, key: EntityKey) -> (r: bool)
    ensures
        r == keys@.contains(key),
{
    let mut i: usize = 0;
    while i < keys.len()
        invariant
            i <= keys@.len(),
            forall|j: int| 0 <= j < i ==> keys@[j] != key,
        decreases keys@.len() - i,
    {
        if keys[i] == key {
            assert(keys@[i as int] == key);
            return true;
        }
        i += 1;
    }
    false
}

fn drop_key(keys: &mut Vec<EntityKey>, key: EntityKey)
    ensures
        final(keys)@ == old(keys)@.filter(|k: EntityKey| k != key),
{
    let ghost s = keys@;
    let mut kept: Vec<EntityKey> = Vec::new();
    let mut i: usize = 0;
    proof {
        assert(s.take(0) =~= Seq::<EntityKey>::empty());
    }
    while i < keys.len()
        invariant
            s == keys@,
            i <= s.len(),
            kept@ == s.take(i as int).filter(|k: EntityKey| k != key),
        decreases s.len() - i,
    {
        proof {
            reveal_with_fuel(Seq::filter, 1);
            assert(s.take(i + 1).drop_last() =~= s.take(i as int));
            assert(s.take(i + 1).last() == s[i as int]);
        }
        if keys[i] != key {
            kept.push(keys[i]);
        }
        i += 1;
    }
    proof {
        assert(s.take(s.len() as int) =~= s);
    }
    *keys = kept;
}

/// What a save request asks for.
pub enum SaveStart {
    /// The overrides were never loaded: the save fails at once.
    NotLoaded,
    /// A save of the same entity is under way: nothing happens.
    InFlight,
    /// Send the whole snapshot; once saved, `applied` is what is in force.
    Send { updates: Vec<PermissionUpdate>, applied: HashMap<i64, bool> },
}

pub open spec fn opt_map(o: Option<&HashMap<i64, bool>>) -> Option<Map<i64, bool>> {
    match o {
        Some(p) => Some(p@),
        None => None,
    }
}

impl PermissionCache {
    pub fn new() -> (r: Self)
        ensures
            r.entries@.len() == 0,
            r.loading@.len() == 0,
            r.saving@.len() == 0,
    {
        PermissionCache { entries: Vec::new(), loading: Vec::new(), saving: Vec::new() }
    }

    /// Everything is forgotten.
    pub fn reset(&mut self)
        ensures
            final(self).entries@.len() == 0,
            final(self).loading@.len() == 0,
            final(self).saving@.len() == 0,
    {
        self.entries = Vec::new();
        self.loading = Vec::new();
        self.saving = Vec::new();
    }

    /// The connection came back: the cached overrides are dropped, to be loaded again.
    pub fn clear_cache(&mut self)
        ensures
            final(self).entries@.len() == 0,
            final(self).loading@ == old(self).loading@,
            final(self).saving@ == old(self).saving@,
    {
        self.entries = Vec::new();
    }

    pub fn is_loaded(&self, channel_id: ChannelId, entity: PermissionEntity) -> (r: bool)
        ensures
            r == cached_overrides(self.entries@, EntityKey { channel_id, entity }) is Some,
    {
        find_entry(&self.entries, EntityKey { channel_id, entity }) < self.entries.len()
    }

    pub fn is_saving(&self, channel_id: ChannelId, entity: PermissionEntity) -> (r: bool)
        ensures
            r == self.saving@.contains(EntityKey { channel_id, entity }),
    {
        holds_key(&self.saving, EntityKey { channel_id, entity })
    }

    /// Whether permission `permission_id` is allowed (`true`) or denied (`false`) for the
    /// entity in the channel; none when it has no override or nothing is loaded.
    pub fn permission_active(&self, channel_id: ChannelId, entity: PermissionEntity, permission_id: i64) -> (r:
        Option<bool>)
        ensures
            r == (match cached_overrides(self.entries@, EntityKey { channel_id, entity }) {
                Some(m) => if m.contains_key(permission_id) {
                    Some(m[permission_id])
                } else {
                    None
                },
                None => None,
            }),
    {
        let i = find_entry(&self.entries, EntityKey { channel_id, entity });
        if i < self.entries.len() {
            match self.entries[i].1.get(&permission_id) {
                Some(a) => Some(*a),
                None => None,
            }
        } else {
            None
        }
    }

    /// The overrides of an entity are wanted: unless they are loaded or being loaded, a load
    /// begins (returns `true`).
    pub fn begin_load(&mut self, channel_id: ChannelId, entity: PermissionEntity) -> (start: bool)
        ensures
            ({
                let key = EntityKey { channel_id, entity };
                &&& start == (cached_overrides(old(self).entries@, key) is None && !old(self).loading@.contains(key))
                &&& final(self).entries@ == old(self).entries@
                &&& final(self).saving@ == old(self).saving@
                &&& final(self).loading@ == if start {
                    old(self).loading@.push(key)
                } else {
                    old(self).loading@
                }
            }),
    {
        let key = EntityKey { channel_id, entity };
        if find_entry(&self.entries, key) < self.entries.len() || holds_key(&self.loading, key) {
            return false;
        }
        self.loading.push(key);
        true
    }

    /// Puts the overrides of `key` in the cache, in place of the old ones.
    fn store(&mut self, key: EntityKey, overrides: HashMap<i64, bool>)
        ensures
            final(self).loading@ == old(self).loading@,
            final(self).saving@ == old(self).saving@,
            ({
                let i = entry_index(old(self).entries@, key);
                final(self).entries@ == if i < old(self).entries@.len() {
                    old(self).entries@.update(i, (key, overrides))
                } else {
                    old(self).entries@.push((key, overrides))
                }
            }),
            cached_overrides(final(self).entries@, key) == Some(overrides@),
    {
        let ghost before = self.entries@;
        let i = find_entry(&self.entries, key);
        if i < self.entries.len() {
            self.entries.set(i, (key, overrides));
            proof {
                assert(is_first_entry(self.entries@, key, i as int));
                lemma_entry_index(self.entries@, key, i as int);
            }
        } else {
            self.entries.push((key, overrides));
            proof {
                assert(is_first_entry(self.entries@, key, i as int));
                lemma_entry_index(self.entries@, key, i as int);
            }
        }
    }

    /// A load ended: it is no longer under way; what it brought (none on failure) becomes
    /// the cached overrides. Returns whether observers learn of a change.
    pub fn finish_load(&mut self, channel_id: ChannelId, entity: PermissionEntity, result: Option<HashMap<i64, bool>>) -> (changed:
        bool)
        ensures
            ({
                let key = EntityKey { channel_id, entity };
                &&& changed == result is Some
                &&& final(self).loading@ == old(self).loading@.filter(|k: EntityKey| k != key)
                &&& final(self).saving@ == old(self).saving@
                &&& match result {
                    Some(m) => cached_overrides(final(self).entries@, key) == Some(m@),
                    None => final(self).entries@ == old(self).entries@,
                }
            }),
    {
        let key = EntityKey { channel_id, entity };
        drop_key(&mut self.loading, key);
        match result {
            Some(m) => {
                self.store(key, m);
                true
            },
            None => false,
        }
    }

    /// A save of `pending` choices was asked for: it fails when nothing is loaded, waits when
    /// one is under way, and otherwise sends the whole snapshot of the channel-scoped
    /// `definitions` (see `build_permission_snapshot`) and marks the save as under way.
    pub fn begin_save(
        &mut self,
        channel_id: ChannelId,
        entity: PermissionEntity,
        definitions: &[(i64, String)],
        pending: &HashMap<i64, i32>,
    ) -> (r: SaveStart)
        ensures
            ({
                let key = EntityKey { channel_id, entity };
                let persisted = cached_overrides(old(self).entries@, key);
                &&& final(self).entries@ == old(self).entries@
                &&& final(self).loading@ == old(self).loading@
                &&& persisted is None ==> r is NotLoaded && final(self).saving@ == old(self).saving@
                &&& persisted is Some && old(self).saving@.contains(key) ==> r is InFlight
                    && final(self).saving@ == old(self).saving@
                &&& persisted is Some && !old(self).saving@.contains(key) ==> {
                    &&& final(self).saving@ == old(self).saving@.push(key)
                    &&& r matches SaveStart::Send { updates, applied }
                    &&& updates@.len() == definitions@.len()
                    &&& forall|i: int| 0 <= i < definitions@.len() ==> (#[trigger] updates@[i]).permission_id
                        == definitions@[i].0 && updates@[i].slug@ == definitions@[i].1@
                        && updates@[i].override_type == snapshot_type(definitions@[i].0, pending@, persisted)
                    &&& applied@ == applied_spec(updates@)
                }
            }),
    {
        let key = EntityKey { channel_id, entity };
        let i = find_entry(&self.entries, key);
        if i == self.entries.len() {
            return SaveStart::NotLoaded;
        }
        if holds_key(&self.saving, key) {
            return SaveStart::InFlight;
        }
        self.saving.push(key);
        let updates = build_permission_snapshot(definitions, pending, Some(&self.entries[i].1));
        let applied = applied_overrides(updates.as_slice());
        SaveStart::Send { updates, applied }
    }

    /// A save ended: it is no longer under way; on success (`applied` given) those overrides
    /// are cached. Returns whether it succeeded.
    pub fn finish_save(&mut self, channel_id: ChannelId, entity: PermissionEntity, applied: Option<HashMap<i64, bool>>) -> (ok:
        bool)
        ensures
            ({
                let key = EntityKey { channel_id, entity };
                &&& ok == applied is Some
                &&& final(self).saving@ == old(self).saving@.filter(|k: EntityKey| k != key)
                &&& final(self).loading@ == old(self).loading@
                &&& match applied {
                    Some(m) => cached_overrides(final(self).entries@, key) == Some(m@),
                    None => final(self).entries@ == old(self).entries@,
                }
            }),
    {
        let key = EntityKey { channel_id, entity };
        drop_key(&mut self.saving, key);
        match applied {
            Some(m) => {
                self.store(key, m);
                true
            },
            None => false,
        }
    }
}

} // verus!
