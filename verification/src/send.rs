use vstd::prelude::*;

use crate::conversation::{is_sendable, send_started, Conversation, SendStart};
use crate::message::{MessageCode, MessageReference};
use crate::text::parse_i64_spec;
use crate::timeline::{appended_shift, appended_shift_spec, with_optimistic, ChannelMessages, Shift, TimelineMessage};

verus! {

/// `m` is the row shown for a message while it is being sent: the temporary id of `st`, the
/// text and sender as given, the send time, a plain chat message not yet grouped or labelled,
/// with the reply reference of `st` (when there is one) and the given payload. It sorts after
/// every confirmed message.
pub open spec fn is_optimistic_row<P>(
    m: TimelineMessage<P>,
    st: SendStart,
    content: String,
    sender_id: String,
    now_secs: i64,
    payload: P,
) -> bool {
    &&& m.id@ == st.temp_id@
    &&& m.seq == i64::MAX
    &&& m.content == content
    &&& m.sender_id == sender_id
    &&& m.sender_user_id == parse_i64_spec(sender_id@)
    &&& m.create_time == now_secs
    &&& m.code == MessageCode::Chat
    &&& !m.is_forwarded && !m.combined_with_prev && !m.show_forwarded_label
    &&& m.references@ == (match st.reference {
        Some(r) => seq![r],
        None => Seq::<MessageReference>::empty(),
    })
    &&& m.payload == payload
}

fn copy_reference(r: &MessageReference) -> (c: MessageReference)
    ensures
        c == *r,
{
    MessageReference {
        message_ref_id: r.message_ref_id,
        sender_id: r.sender_id,
        sender_name: r.sender_name.clone(),
        sender_avatar: r.sender_avatar.clone(),
        content: r.content.clone(),
        has_attachment: r.has_attachment,
    }
}

/// A message is sent from the active conversation at `now_secs`: nothing happens without an
/// active channel and clan. Otherwise the send starts (see `send_started`; the reply target
/// is used up), its optimistic row (see `is_optimistic_row`) is appended to the channel's
/// buffer the way `with_optimistic` says, and the start is returned with how the visible
/// window slid (none when the buffer was already full).
pub fn send_message_step<P>(
    conv: &mut Conversation,
    channel: &mut ChannelMessages<P>,
    content: String,
    sender_id: String,
    now_secs: i64,
    has_attachments: bool,
    payload: P,
) -> (r: Option<(SendStart, Option<Shift>)>)
    ensures
        !is_sendable(*old(conv)) ==> r is None && *final(conv) == *old(conv) && *final(channel) == *old(
            channel,
        ),
        is_sendable(*old(conv)) ==> (r matches Some((st, shift)) && {
            &&& send_started(*old(conv), *final(conv), st, has_attachments, now_secs)
            &&& exists|m: TimelineMessage<P>|
                #[trigger] is_optimistic_row(m, st, content, sender_id, now_secs, payload)
                    && final(channel).messages@ == with_optimistic(old(channel).messages@, m)
            &&& final(channel).has_more == old(channel).has_more
            &&& final(channel).has_more_bottom == old(channel).has_more_bottom
            &&& shift == appended_shift_spec(
                old(channel).messages@.len() as usize,
                final(channel).messages@.len() as usize,
            )
        }),
{
    let st = match conv.begin_send(has_attachments, now_secs) {
        Some(st) => st,
        None => {
            return None;
        },
    };
    let mut references: Vec<MessageReference> = Vec::new();
    match &st.reference {
        Some(r) => references.push(copy_reference(r)),
        None => {},
    }
    let row = TimelineMessage::new(st.temp_id.clone(), i64::MAX, content, sender_id, now_secs, payload).with_references(
        references,
    );
    let ghost m = row;
    let old_len = channel.append_optimistic(row);
    let new_len = channel.messages.len();
    let shift = appended_shift(old_len, new_len);
    proof {
        assert(is_optimistic_row(m, st, content, sender_id, now_secs, payload));
    }
    Some((st, shift))
}

} // verus!
