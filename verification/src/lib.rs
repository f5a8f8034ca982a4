#![allow(unused_imports)]
use vstd::prelude::*;

pub mod ids;
pub mod text;
pub mod channel;
pub mod channel_message;
pub mod compose;
pub mod ogp;
pub mod message;
pub mod direct;
pub mod files;
pub mod gif;
pub mod group_members;
pub mod roles;
pub mod stream;
pub mod sfu_session;
pub mod platform;
pub mod channel_users;
pub mod channel_members;
pub mod channel_role_permissions;
pub mod clan;
pub mod channel_list;
pub mod timeline;
pub mod categories;
pub mod spans;
pub mod highlight;
pub mod outgoing;
pub mod conversation;
pub mod send;
pub mod channel_load;
pub mod favorites;
pub mod loading;
pub mod topic_store;
pub mod presence;
pub mod connection;
pub mod notification_push;
pub mod reactions;
pub mod events;
pub mod topics;
pub mod dates;
pub mod webhook;
pub mod channel_settings;
pub mod clan_load;
pub mod audio;
pub mod notification_setting;
