use mezon_store::conversation::{direct_mode, ActivatePlan, Conversation, OpenPlan, STREAM_MODE_CHANNEL};
use mezon_store::ids::{ChannelId, ClanId, MessageId, UserId};
use mezon_store::outgoing::{
    content_into_transport, draft_reference, outgoing_reply, send_route, temp_message_id, OutgoingContent,
    OutgoingEmoji, OutgoingHashtag, OutgoingMention, ReplyDraft, SendRoute,
};

#[test]
fn outgoing_mention_maps_to_transport_with_utf16_offsets() {
    let mention = OutgoingMention {
        user_id: "42".into(),
        role_id: String::new(),
        display: "@bob".into(),
        s: 2,
        e: 6,
    };
    let transport = mention.into_transport();
    assert_eq!(transport.user_id, "42");
    assert_eq!(transport.username, "@bob");
    assert_eq!(transport.s, 2);
    assert_eq!(transport.e, 6);
}

#[test]
fn content_tokens_keep_their_order() {
    let content = OutgoingContent {
        mentions: vec![
            OutgoingMention { user_id: "1".into(), display: "@a".into(), s: 0, e: 2, ..Default::default() },
            OutgoingMention { role_id: "9".into(), display: "@r".into(), s: 3, e: 5, ..Default::default() },
        ],
        hashtags: vec![OutgoingHashtag { channel_id: "7".into(), s: 6, e: 8 }],
        emojis: vec![OutgoingEmoji { emoji_id: "e1".into(), s: 9, e: 11 }],
    };
    assert!(!content.is_empty());
    assert!(OutgoingContent::default().is_empty());
    let t = content_into_transport(content);
    assert_eq!(t.mentions.len(), 2);
    assert_eq!(t.mentions[1].role_id, "9");
    assert_eq!(t.mentions[1].username, "@r");
    assert_eq!(t.hashtags[0].channel_id, "7");
    assert_eq!(t.emojis[0].emoji_id, "e1");
    assert_eq!((t.emojis[0].s, t.emojis[0].e), (9, 11));
}

fn draft() -> ReplyDraft {
    ReplyDraft {
        message_ref_id: "123".into(),
        sender_id: "bob".into(),
        sender_name: "Bob".into(),
        sender_avatar: "b.png".into(),
        content_preview: "hello".into(),
        has_attachment: true,
    }
}

#[test]
fn reply_ids_that_are_not_numbers_become_zero() {
    let r = outgoing_reply(draft());
    assert_eq!(r.message_ref_id, 123);
    assert_eq!(r.message_sender_id, 0);
    assert_eq!(r.message_sender_username, "Bob");
    assert_eq!(r.message_sender_display_name, "Bob");
    assert_eq!(r.message_sender_clan_nick, "");
    assert!(r.has_attachment);
    let reference = draft_reference(&draft());
    assert_eq!(reference.message_ref_id, MessageId(123));
    assert_eq!(reference.sender_id, UserId(0));
    assert_eq!(reference.content, "hello");
}

#[test]
fn temp_ids_carry_the_send_time() {
    assert_eq!(temp_message_id(1_700_000_000), "temp-1700000000");
    assert_eq!(temp_message_id(0), "temp-0");
}

#[test]
fn attachments_win_over_a_reply() {
    assert_eq!(send_route(true, Some(draft())), SendRoute::WithAttachments);
    assert_eq!(send_route(false, None), SendRoute::Plain);
    match send_route(false, Some(draft())) {
        SendRoute::Reply(r) => assert_eq!(r.message_ref_id, 123),
        other => panic!("unexpected {other:?}"),
    }
}

#[test]
fn opening_a_channel_activates_and_joins_once() {
    let mut c = Conversation::new();
    let plan = c.open_channel(ChannelId(5), Some((ClanId(1), false)), true, false);
    assert_eq!(plan, OpenPlan::Activated(ActivatePlan { join: true, fetch: Some(1) }));
    assert_eq!(c.active_channel_id, Some(ChannelId(5)));
    assert!(c.is_public);
    assert_eq!(c.mode, STREAM_MODE_CHANNEL);
    assert!(c.paging.loading);
    assert!(c.finish_first_page(ChannelId(5), 1));
    assert!(!c.paging.loading);
    let plan = c.open_channel(ChannelId(6), Some((ClanId(1), true)), false, true);
    assert_eq!(plan, OpenPlan::Activated(ActivatePlan { join: true, fetch: None }));
    assert!(!c.is_public);
    let plan = c.open_channel(ChannelId(5), Some((ClanId(1), false)), false, true);
    assert_eq!(plan, OpenPlan::Activated(ActivatePlan { join: false, fetch: None }));
}

#[test]
fn reopening_an_empty_stale_channel_refetches() {
    let mut c = Conversation::new();
    c.open_channel(ChannelId(5), Some((ClanId(1), false)), true, false);
    c.finish_first_page(ChannelId(5), 1);
    assert_eq!(c.open_channel(ChannelId(5), None, false, false), OpenPlan::Stay);
    assert_eq!(c.open_channel(ChannelId(5), None, true, true), OpenPlan::Stay);
    assert_eq!(c.open_channel(ChannelId(5), None, true, false), OpenPlan::Refetch(2));
    assert!(!c.is_current_fetch(ChannelId(5), 1));
    assert!(c.is_current_fetch(ChannelId(5), 2));
}

#[test]
fn unknown_channel_is_not_opened() {
    let mut c = Conversation::new();
    assert_eq!(c.open_channel(ChannelId(5), None, true, false), OpenPlan::Stay);
    assert_eq!(c.active_channel_id, None);
}

#[test]
fn direct_conversations_use_clan_zero_and_their_mode() {
    assert_eq!(direct_mode(2), 3);
    assert_eq!(direct_mode(3), 4);
    let mut c = Conversation::new();
    c.open_direct(ChannelId(9), 2, true, false);
    assert_eq!(c.active_clan_id, Some(ClanId(0)));
    assert!(c.is_dm);
    assert_eq!(c.mode, 3);
    assert!(!c.is_public);
}

#[test]
fn reply_target_is_used_once() {
    let mut c = Conversation::new();
    c.set_reply(draft());
    assert!(c.take_reply().is_some());
    assert!(c.take_reply().is_none());
    c.set_reply(draft());
    c.clear_reply();
    assert!(c.reply_target.is_none());
}

#[test]
fn closing_and_resync() {
    let mut c = Conversation::new();
    c.open_channel(ChannelId(5), Some((ClanId(1), false)), true, false);
    assert_eq!(c.resync(), Some(2));
    assert!(c.joined_channels.is_empty());
    c.close();
    assert_eq!(c.active_channel_id, None);
    assert_eq!(c.refetch(), None);
    assert!(!c.finish_first_page(ChannelId(5), 2));
}

fn reply_draft() -> ReplyDraft {
    ReplyDraft {
        message_ref_id: "77".to_string(),
        sender_id: "5".to_string(),
        sender_name: "ann".to_string(),
        sender_avatar: "av".to_string(),
        content_preview: "earlier".to_string(),
        has_attachment: false,
    }
}

#[test]
fn begin_send_needs_an_active_conversation() {
    let mut c = Conversation::new();
    c.reply_target = Some(reply_draft());
    assert!(c.begin_send(false, 100).is_none());
    assert!(c.reply_target.is_some());
    c.active_channel_id = Some(ChannelId(3));
    assert!(c.begin_send(false, 100).is_none());
    assert!(c.reply_target.is_some());
}

#[test]
fn begin_send_uses_up_the_reply_and_picks_the_route() {
    let mut c = Conversation::new();
    c.active_channel_id = Some(ChannelId(3));
    c.active_clan_id = Some(ClanId(4));
    c.mode = STREAM_MODE_CHANNEL;
    c.is_public = true;
    c.reply_target = Some(reply_draft());
    let st = c.begin_send(false, 1_700_000_000).unwrap();
    assert_eq!(st.channel_id, ChannelId(3));
    assert_eq!(st.clan_id, ClanId(4));
    assert!(st.is_public);
    assert_eq!(st.mode, STREAM_MODE_CHANNEL);
    assert_eq!(st.temp_id, "temp-1700000000");
    let r = st.reference.unwrap();
    assert_eq!(r.message_ref_id, MessageId(77));
    assert_eq!(r.sender_id, UserId(5));
    assert_eq!(r.content, "earlier");
    match st.route {
        SendRoute::Reply(o) => {
            assert_eq!(o.message_ref_id, 77);
            assert_eq!(o.message_sender_display_name, "ann");
        }
        _ => panic!("expected a reply"),
    }
    assert!(c.reply_target.is_none());
    let st = c.begin_send(false, 5).unwrap();
    assert_eq!(st.route, SendRoute::Plain);
    assert!(st.reference.is_none());
    c.reply_target = Some(reply_draft());
    let st = c.begin_send(true, 5).unwrap();
    assert_eq!(st.route, SendRoute::WithAttachments);
    assert!(st.reference.is_some());
}
