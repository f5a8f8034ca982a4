use vstd::prelude::*;

verus! {

/// Identifier of a channel (text, voice, thread, DM or group).
#[derive(Debug, Clone, Copy, Default, PartialEq, Eq, Hash, Structural)]
pub struct ChannelId(pub i64);

/// Identifier of a user account.
#[derive(Debug, Clone, Copy, Default, PartialEq, Eq, Hash, Structural)]
pub struct UserId(pub i64);

/// Identifier of a role inside a clan.
#[derive(Debug, Clone, Copy, Default, PartialEq, Eq, Hash, Structural)]
pub struct RoleId(pub i64);

/// Identifier of a clan.
#[derive(Debug, Clone, Copy, Default, PartialEq, Eq, Hash, Structural)]
pub struct ClanId(pub i64);

/// Identifier of a message.
#[derive(Debug, Clone, Copy, Default, PartialEq, Eq, Hash, Structural)]
pub struct MessageId(pub i64);

impl ChannelId {
    pub fn get(&self) -> (r: i64)
        ensures r == self.0,
    {
        self.0
    }
}

impl UserId {
    pub fn get(&self) -> (r: i64)
        ensures r == self.0,
    {
        self.0
    }
}

impl RoleId {
    pub fn get(&self) -> (r: i64)
        ensures r == self.0,
    {
        self.0
    }
}

impl ClanId {
    pub fn get(&self) -> (r: i64)
        ensures r == self.0,
    {
        self.0
    }
}

impl MessageId {
    pub fn get(&self) -> (r: i64)
        ensures r == self.0,
    {
        self.0
    }
}

} // verus!
