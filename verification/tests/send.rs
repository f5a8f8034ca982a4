use mezon_store::conversation::Conversation;
use mezon_store::ids::{ChannelId, ClanId, MessageId};
use mezon_store::outgoing::{ReplyDraft, SendRoute};
use mezon_store::send::send_message_step;
use mezon_store::timeline::{ChannelMessages, Shift, TimelineMessage, MAX_MESSAGES_PER_CHANNEL};

fn confirmed(i: i64) -> TimelineMessage<()> {
    TimelineMessage::new(i.to_string(), i, "old".to_string(), "9".to_string(), 100 + i, ())
}

fn active() -> Conversation {
    let mut c = Conversation::new();
    c.active_channel_id = Some(ChannelId(3));
    c.active_clan_id = Some(ClanId(4));
    c
}

#[test]
fn send_without_active_conversation_does_nothing() {
    let mut c = Conversation::new();
    let mut ch = ChannelMessages { messages: vec![confirmed(1)], has_more: false, has_more_bottom: false };
    assert!(send_message_step(&mut c, &mut ch, "hi".into(), "5".into(), 1000, false, ()).is_none());
    assert_eq!(ch.messages.len(), 1);
}

#[test]
fn send_appends_the_optimistic_row_with_reply_reference() {
    let mut c = active();
    c.reply_target = Some(ReplyDraft {
        message_ref_id: "1".into(),
        sender_id: "9".into(),
        sender_name: "bo".into(),
        sender_avatar: String::new(),
        content_preview: "old".into(),
        has_attachment: false,
    });
    let mut ch = ChannelMessages { messages: vec![confirmed(1)], has_more: false, has_more_bottom: false };
    let (st, shift) = send_message_step(&mut c, &mut ch, "hi".into(), "5".into(), 1000, false, ()).unwrap();
    assert_eq!(st.temp_id, "temp-1000");
    assert!(matches!(st.route, SendRoute::Reply(_)));
    assert!(c.reply_target.is_none());
    assert_eq!(shift, Some(Shift { added_top: 0, removed_top: 0, added_bottom: 1, removed_bottom: 0 }));
    let last = ch.messages.last().unwrap();
    assert_eq!(last.id, "temp-1000");
    assert_eq!(last.content, "hi");
    assert_eq!(last.sender_id, "5");
    assert_eq!(last.create_time, 1000);
    assert_eq!(last.references.len(), 1);
    assert_eq!(last.references[0].message_ref_id, MessageId(1));
    assert_eq!(last.references[0].content, "old");
}

#[test]
fn send_into_a_full_buffer_drops_the_oldest_and_reports_no_shift() {
    let mut c = active();
    let msgs: Vec<_> = (1..=MAX_MESSAGES_PER_CHANNEL as i64).map(confirmed).collect();
    let mut ch = ChannelMessages { messages: msgs, has_more: true, has_more_bottom: false };
    let (st, shift) = send_message_step(&mut c, &mut ch, "hi".into(), "5".into(), 7, true, ()).unwrap();
    assert_eq!(st.route, SendRoute::WithAttachments);
    assert_eq!(shift, None);
    assert_eq!(ch.messages.len(), MAX_MESSAGES_PER_CHANNEL);
    assert_eq!(ch.messages[0].id, "2");
    assert_eq!(ch.messages.last().unwrap().id, "temp-7");
    assert!(ch.messages.last().unwrap().references.is_empty());
}
