use vstd::prelude::*;

verus! {

/// The stages of loading a clan, in order.
#[derive(Clone, Copy, Debug, PartialEq, Eq)]
pub enum LoadStage {
    /// Load the channel list.
    Channels,
    /// Seed the unread badges (awaited).
    Badges,
    /// Load the members (awaited).
    Members,
    /// Load roles, permissions, emojis and stickers (all awaited).
    Deferred,
    /// Prefetch the notification settings.
    NotificationSettings,
    /// Nothing more.
    Done,
}

/// The stage after `stage`, given whether the load is still the current one: after each
/// awaited stage a load that was superseded stops.
pub open spec fn next_stage_spec(stage: LoadStage, current: bool) -> LoadStage {
    match stage {
        LoadStage::Channels => LoadStage::Badges,
        LoadStage::Badges => if current {
            LoadStage::Members
        } else {
            LoadStage::Done
        },
        LoadStage::Members => if current {
            LoadStage::Deferred
        } else {
            LoadStage::Done
        },
        LoadStage::Deferred => if current {
            LoadStage::NotificationSettings
        } else {
            LoadStage::Done
        },
        _ => LoadStage::Done,
    }
}

pub fn next_stage(stage: LoadStage, current: bool) -> (r: LoadStage)
    ensures
        r == next_stage_spec(stage, current),
{
    match stage {
        LoadStage::Channels => LoadStage::Badges,
        LoadStage::Badges => if current {
            LoadStage::Members
        } else {
            LoadStage::Done
        },
        LoadStage::Members => if current {
            LoadStage::Deferred
        } else {
            LoadStage::Done
        },
        LoadStage::Deferred => if current {
            LoadStage::NotificationSettings
        } else {
            LoadStage::Done
        },
        _ => LoadStage::Done,
    }
}

/// Which clan load is the current one: each start or reset begins a new generation.
pub struct ClanLoadScheduler {
    pub generation: u64,
}

impl ClanLoadScheduler {
    pub fn new() -> (r: Self)
        ensures
            r.generation == 0,
    {
        ClanLoadScheduler { generation: 0 }
    }

    /// The active clan went away: loads under way stop at their next check.
    pub fn reset(&mut self)
        ensures
            final(self).generation == (if old(self).generation == u64::MAX {
                0
            } else {
                (old(self).generation + 1) as u64
            }),
    {
        self.generation = self.generation.wrapping_add(1);
    }

    /// A clan became active: a new load begins; returns its generation.
    pub fn start(&mut self) -> (g: u64)
        ensures
            final(self).generation == (if old(self).generation == u64::MAX {
                0
            } else {
                (old(self).generation + 1) as u64
            }),
            g == final(self).generation,
    {
        self.generation = self.generation.wrapping_add(1);
        self.generation
    }

    pub fn is_current(&self, generation: u64) -> (r: bool)
        ensures
            r == (self.generation == generation),
    {
        self.generation == generation
    }
}

} // verus!
