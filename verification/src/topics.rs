use vstd::prelude::*;

use crate::message::{is_system_code, MessageCode};

verus! {

/// How many topics one request asks for.
pub const TOPICS_LIMIT: i32 = 50;

pub const STREAM_MODE_CHANNEL: i32 = 2;
pub const STREAM_MODE_THREAD: i32 = 6;

/// What the topics store tells its observers.
#[derive(Debug, Clone)]
pub enum TopicsEvent {
    Updated,
    Opened,
    Closed,
    ReplySent,
}

/// The reply count and last reply time (seconds) of a topic.
#[derive(Debug, Clone, PartialEq, Eq)]
pub struct TopicMessageMeta {
    pub rpl: i32,
    pub lsnt: i64,
    pub tp_id: String,
}

/// A topic can be opened on a message unless it is a topic or a poll, a system message, or a
/// thread, pin, buzz, audit, welcome or upcoming-event message.
pub open spec fn allows_topic_spec(code: MessageCode) -> bool {
    !(code is Topic || code is Poll) && !is_system_code(code) && !(code is CreateThread
        || code is CreatePin || code is MessageBuzz || code is AuditLog || code is Welcome
        || code is UpcomingEvent)
}

pub fn message_allows_topic_discussion(code: MessageCode) -> (r: bool)
    ensures
        r == allows_topic_spec(code),
{
    match code {
        MessageCode::Topic | MessageCode::Poll => false,
        _ => if code.is_system() {
            false
        } else {
            match code {
                MessageCode::CreateThread | MessageCode::CreatePin | MessageCode::MessageBuzz
                | MessageCode::AuditLog | MessageCode::Welcome | MessageCode::UpcomingEvent => false,
                _ => true,
            }
        },
    }
}

/// A timestamp as the topic list stores it: clamped to `0..=u32::MAX`.
pub fn clamp_timestamp(ts: i64) -> (r: u32)
    ensures
        r == (if ts < 0 {
            0
        } else if ts > u32::MAX {
            u32::MAX as int
        } else {
            ts as int
        }),
{
    if ts < 0 {
        0
    } else if ts > 0xffff_ffff {
        u32::MAX
    } else {
        ts as u32
    }
}

pub open spec fn max_i64(a: i64, b: i64) -> i64 {
    if a >= b {
        a
    } else {
        b
    }
}

/// A topic's meta after the server reported its reply count and last reply time: the count
/// is taken, the time only when later than the known one.
pub fn merged_meta(existing: Option<&TopicMessageMeta>, topic_id: &String, rpl: i32, lsnt: i64) -> (r:
    TopicMessageMeta)
    ensures
        r.rpl == rpl,
        r.tp_id@ == topic_id@,
        r.lsnt == match existing {
            Some(m) => max_i64(m.lsnt, lsnt),
            None => lsnt,
        },
{
    match existing {
        Some(m) => TopicMessageMeta {
            rpl,
            lsnt: if m.lsnt >= lsnt {
                m.lsnt
            } else {
                lsnt
            },
            tp_id: topic_id.clone(),
        },
        None => TopicMessageMeta { rpl, lsnt, tp_id: topic_id.clone() },
    }
}

/// A topic's meta after a reply was sent at `ts` (seconds, positive): the last reply time
/// moves forward, or a meta with no replies is made.
pub fn touched_meta(existing: Option<&TopicMessageMeta>, topic_id: &String, ts: i64) -> (r:
    TopicMessageMeta)
    ensures
        r.tp_id@ == match existing {
            Some(m) => m.tp_id@,
            None => topic_id@,
        },
        r.rpl == match existing {
            Some(m) => m.rpl,
            None => 0,
        },
        r.lsnt == match existing {
            Some(m) => max_i64(m.lsnt, ts),
            None => ts,
        },
{
    match existing {
        Some(m) => TopicMessageMeta {
            rpl: m.rpl,
            lsnt: if m.lsnt >= ts {
                m.lsnt
            } else {
                ts
            },
            tp_id: m.tp_id.clone(),
        },
        None => TopicMessageMeta { rpl: 0, lsnt: ts, tp_id: topic_id.clone() },
    }
}

/// A topic's meta after a reply arrived at `ts`: one more reply (saturating), and a later
/// reply time when `ts` is positive; a new meta has one reply.
pub fn incremented_meta(existing: Option<&TopicMessageMeta>, topic_id: &String, ts: i64) -> (r:
    TopicMessageMeta)
    ensures
        r.tp_id@ == match existing {
            Some(m) => m.tp_id@,
            None => topic_id@,
        },
        r.rpl == match existing {
            Some(m) => if m.rpl == i32::MAX {
                i32::MAX
            } else {
                (m.rpl + 1) as i32
            },
            None => 1,
        },
        r.lsnt == match existing {
            Some(m) => if ts > 0 {
                max_i64(m.lsnt, ts)
            } else {
                m.lsnt
            },
            None => ts,
        },
{
    match existing {
        Some(m) => TopicMessageMeta {
            rpl: if m.rpl == i32::MAX {
                i32::MAX
            } else {
                m.rpl + 1
            },
            lsnt: if ts > 0 && ts > m.lsnt {
                ts
            } else {
                m.lsnt
            },
            tp_id: m.tp_id.clone(),
        },
        None => TopicMessageMeta { rpl: 1, lsnt: ts, tp_id: topic_id.clone() },
    }
}

/// A topic's meta after a reply was deleted: one reply less, not below zero.
pub fn decremented_meta(m: &TopicMessageMeta) -> (r: TopicMessageMeta)
    ensures
        r.tp_id@ == m.tp_id@,
        r.lsnt == m.lsnt,
        r.rpl == (if m.rpl > 0 {
            m.rpl - 1
        } else {
            0
        }),
{
    TopicMessageMeta {
        rpl: if m.rpl > 0 {
            m.rpl - 1
        } else {
            0
        },
        lsnt: m.lsnt,
        tp_id: m.tp_id.clone(),
    }
}

/// The open topic panel closes when the deleted message is its origin message or the message
/// that anchors its topic.
pub fn should_close_on_message_deleted(
    panel_open: bool,
    origin_message_id: Option<i64>,
    active_topic_id: Option<i64>,
    message_id: i64,
    message_topic_id: Option<i64>,
) -> (r: bool)
    ensures
        r == (panel_open && (origin_message_id == Some(message_id) || (message_topic_id is Some
            && message_topic_id == active_topic_id))),
{
    if !panel_open {
        return false;
    }
    let is_origin = match origin_message_id {
        Some(o) => o == message_id,
        None => false,
    };
    let is_anchor = match (message_topic_id, active_topic_id) {
        (Some(t), Some(a)) => t == a,
        _ => false,
    };
    is_origin || is_anchor
}

} // verus!
