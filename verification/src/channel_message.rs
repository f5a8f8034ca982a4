use vstd::prelude::*;

use crate::dates::{clock_label, format_clock, format_day, utc_day_label};
use crate::message::MessageAttachment;
use crate::text::str_eq;

verus! {

/// A message as the channel view shows it, with its clock and day labels worked out once.
pub struct Message {
    pub id: String,
    pub content: String,
    pub sender_id: String,
    pub sender_name: String,
    pub avatar_url: String,
    /// The avatar's address through the image proxy.
    pub avatar_proxied: String,
    pub create_time: i64,
    pub timestamp_label: String,
    pub day_label: String,
    pub combined_with_prev: bool,
    pub reactions: Vec<String>,
    pub attachments: Vec<MessageAttachment>,
}

/// Messages of one sender on one day closer together than this (seconds) are one group.
pub const COMBINE_TIME_WINDOW: i64 = 300;

/// A message joins the previous one's group: same sender, same day label, and less than the
/// window apart either way.
pub open spec fn combined_spec(prev: Option<Message>, m: Message) -> bool {
    match prev {
        Some(p) => p.sender_id@ == m.sender_id@ && p.day_label@ == m.day_label@ && -COMBINE_TIME_WINDOW
            < m.create_time - p.create_time < COMBINE_TIME_WINDOW,
        None => false,
    }
}

pub fn message_combined_with_prev(prev: Option<&Message>, msg: &Message) -> (r: bool)
    ensures
        r == combined_spec(
            match prev {
                Some(p) => Some(*p),
                None => None,
            },
            *msg,
        ),
{
    match prev {
        Some(p) => {
            let delta: i128 = msg.create_time as i128 - p.create_time as i128;
            str_eq(p.sender_id.as_str(), msg.sender_id.as_str()) && str_eq(
                p.day_label.as_str(),
                msg.day_label.as_str(),
            ) && -300 < delta && delta < 300
        },
        None => false,
    }
}

/// The previous message of position `i`.
pub open spec fn prev_message(s: Seq<Message>, i: int) -> Option<Message> {
    if i > 0 {
        Some(s[i - 1])
    } else {
        None
    }
}

/// The messages with each one's grouping flag worked out from the message before it.
pub open spec fn regrouped(s: Seq<Message>) -> Seq<Message> {
    Seq::new(s.len(), |i: int| Message { combined_with_prev: combined_spec(prev_message(s, i), s[i]), ..s[i] })
}

/// Works out, for every message, whether it joins the previous one's group.
pub fn recompute_message_grouping(messages: &mut Vec<Message>)
    ensures
        final(messages)@ == regrouped(old(messages)@),
{
    let ghost s = messages@;
    let mut i: usize = 0;
    while i < messages.len()
        invariant
            messages@.len() == s.len(),
            i <= s.len(),
            forall|j: int| 0 <= j < i ==> #[trigger] messages@[j] == regrouped(s)[j],
            forall|j: int| i <= j < s.len() ==> #[trigger] messages@[j] == s[j],
        decreases s.len() - i,
    {
        let combined;
        if i == 0 {
            combined = message_combined_with_prev(None, &messages[i]);
        } else {
            proof {
                assert(messages@[i - 1] == regrouped(s)[i - 1]);
            }
            combined = message_combined_with_prev(Some(&messages[i - 1]), &messages[i]);
        }
        let ghost before = messages@;
        let mut m = messages.remove(i);
        m.combined_with_prev = combined;
        messages.insert(i, m);
        proof {
            assert forall|j: int| 0 <= j < s.len() && j != i implies #[trigger] messages@[j]
                == before[j] by {}
        }
        i += 1;
    }
    proof {
        assert(messages@ =~= regrouped(s));
    }
}

impl Message {
    /// A message with its clock and day labels worked out from its time; no avatar,
    /// reactions or attachments, not grouped.
    pub fn new(id: String, content: String, sender_id: String, sender_name: String, create_time: i64) -> (r:
        Self)
        ensures
            r.id == id && r.content == content && r.sender_id == sender_id && r.sender_name == sender_name,
            r.avatar_url@.len() == 0 && r.avatar_proxied@.len() == 0,
            r.create_time == create_time,
            r.timestamp_label@ == clock_label(create_time),
            r.day_label@ == utc_day_label(create_time),
            !r.combined_with_prev,
            r.reactions@.len() == 0 && r.attachments@.len() == 0,
    {
        Message {
            id,
            content,
            sender_id,
            sender_name,
            avatar_url: String::new(),
            avatar_proxied: String::new(),
            create_time,
            timestamp_label: format_clock(create_time),
            day_label: format_day(create_time),
            combined_with_prev: false,
            reactions: Vec::new(),
            attachments: Vec::new(),
        }
    }

    pub fn with_attachments(self, attachments: Vec<MessageAttachment>) -> (r: Self)
        ensures
            r == (Message { attachments, ..self }),
    {
        let mut m = self;
        m.attachments = attachments;
        m
    }

    pub fn with_avatar(self, avatar_url: String) -> (r: Self)
        ensures
            r == (Message { avatar_url, ..self }),
    {
        let mut m = self;
        m.avatar_url = avatar_url;
        m
    }

    pub fn with_avatar_proxied(self, proxied: String) -> (r: Self)
        ensures
            r == (Message { avatar_proxied: proxied, ..self }),
    {
        let mut m = self;
        m.avatar_proxied = proxied;
        m
    }
}

} // verus!
