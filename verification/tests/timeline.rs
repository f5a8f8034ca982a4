use mezon_store::message::MessageCode;
use mezon_store::timeline::{
    appended_shift, has_more_from_oldest, load_more_backoff_ms, next_consecutive_loads,
    push_message_grouped, recompute_message_grouping, sort_messages, trim_messages,
    trim_messages_back, ChannelMessages, JumpPlan, Paging, TimelineMessage,
    MAX_MESSAGES_PER_CHANNEL,
};

fn msg(id: &str, seq: i64, content: &str, sender: &str, time: i64) -> TimelineMessage<()> {
    TimelineMessage::new(
        id.to_string(),
        seq,
        content.to_string(),
        sender.to_string(),
        time,
        (),
    )
}

fn numbered(id: &str, content: &str, sender: &str, time: i64) -> TimelineMessage<()> {
    msg(id, id.parse().unwrap_or(0), content, sender, time)
}

fn channel_msgs(msgs: Vec<TimelineMessage<()>>) -> ChannelMessages<()> {
    ChannelMessages {
        messages: msgs,
        has_more: false,
        has_more_bottom: false,
    }
}

fn ids(msgs: &[TimelineMessage<()>]) -> Vec<String> {
    msgs.iter().map(|m| m.id.clone()).collect()
}

#[test]
fn push_message_grouped_appends_in_order() {
    let mut msgs = vec![numbered("1", "a", "u1", 100), numbered("2", "b", "u1", 110)];
    recompute_message_grouping(&mut msgs);
    push_message_grouped(&mut msgs, numbered("3", "c", "u1", 120));
    assert_eq!(msgs.len(), 3);
    assert_eq!(msgs[2].id, "3");
    assert!(msgs[2].combined_with_prev);
}

#[test]
fn push_message_grouped_resorts_when_out_of_order() {
    let mut msgs = vec![numbered("1", "a", "u1", 100), numbered("3", "c", "u1", 120)];
    recompute_message_grouping(&mut msgs);
    push_message_grouped(&mut msgs, numbered("2", "b", "u1", 110));
    assert_eq!(ids(&msgs), ["1", "2", "3"]);
}

#[test]
fn push_message_grouped_breaks_group_for_different_sender() {
    let mut msgs = vec![numbered("1", "a", "u1", 100)];
    recompute_message_grouping(&mut msgs);
    push_message_grouped(&mut msgs, numbered("2", "b", "u2", 105));
    assert!(!msgs[1].combined_with_prev);
}

#[test]
fn trim_messages_drops_oldest() {
    let mut msgs: Vec<TimelineMessage<()>> = (0..MAX_MESSAGES_PER_CHANNEL + 5)
        .map(|i| numbered(&i.to_string(), &format!("m{i}"), "u", i as i64))
        .collect();
    trim_messages(&mut msgs);
    assert_eq!(msgs.len(), MAX_MESSAGES_PER_CHANNEL);
    assert_eq!(msgs.first().unwrap().id, "5");
    assert_eq!(
        msgs.last().unwrap().id,
        (MAX_MESSAGES_PER_CHANNEL + 4).to_string()
    );
}

#[test]
fn remove_temp_drops_message_by_id() {
    let mut ch = channel_msgs(vec![
        msg("temp-1", 1, "hello", "u1", 100),
        msg("msg-2", 2, "world", "u1", 200),
    ]);
    ch.remove_temp(&"temp-1".to_string());
    assert_eq!(ch.messages.len(), 1);
    assert_eq!(ch.messages[0].id, "msg-2");
}

#[test]
fn remove_temp_noop_when_id_not_found() {
    let mut ch = channel_msgs(vec![msg("msg-1", 1, "hello", "u1", 100)]);
    let removed = ch.remove_temp(&"temp-999".to_string());
    assert!(!removed);
    assert_eq!(ch.messages.len(), 1);
}

#[test]
fn reconcile_temp_matches_only_by_temp_id_not_content() {
    let mut ch = channel_msgs(vec![
        msg("temp-1", 1, "same text", "u1", 100),
        msg("temp-2", 2, "same text", "u1", 110),
    ]);
    let confirmed = msg("server-42", 42, "same text", "u1", 120);
    let pushed = ch.reconcile_temp(&"temp-1".to_string(), confirmed);
    assert!(!pushed);
    assert_eq!(ch.messages.len(), 2);
    assert_eq!(ch.messages[0].id, "server-42");
    assert_eq!(ch.messages[1].id, "temp-2");
}

#[test]
fn reconcile_temp_adds_confirmed_message_when_row_is_gone() {
    let mut ch = channel_msgs(vec![numbered("1", "a", "u1", 100), numbered("5", "b", "u1", 150)]);
    let pushed = ch.reconcile_temp(&"temp-9".to_string(), numbered("3", "c", "u1", 120));
    assert!(pushed);
    assert_eq!(ids(&ch.messages), ["1", "3", "5"]);
    let again = ch.reconcile_temp(&"temp-9".to_string(), numbered("3", "c", "u1", 120));
    assert!(!again);
    assert_eq!(ch.messages.len(), 3);
}

#[test]
fn sort_messages_puts_first_message_marker_first_and_is_stable() {
    let mut marker = numbered("9", "start", "u1", 10);
    marker.code = MessageCode::Indicator;
    let mut msgs = vec![
        numbered("4", "a", "u1", 100),
        marker,
        msg("x", 2, "b", "u1", 90),
        msg("y", 2, "c", "u1", 95),
    ];
    sort_messages(&mut msgs);
    assert_eq!(ids(&msgs), ["9", "x", "y", "4"]);
}

#[test]
fn trim_messages_back_drops_newest() {
    let mut msgs: Vec<TimelineMessage<()>> = (0..MAX_MESSAGES_PER_CHANNEL + 3)
        .map(|i| numbered(&i.to_string(), "m", "u", i as i64))
        .collect();
    assert_eq!(trim_messages_back(&mut msgs), 3);
    assert_eq!(msgs.len(), MAX_MESSAGES_PER_CHANNEL);
    assert_eq!(msgs.last().unwrap().id, (MAX_MESSAGES_PER_CHANNEL - 1).to_string());
    assert_eq!(trim_messages(&mut msgs), 0);
}

#[test]
fn grouping_breaks_after_the_time_window() {
    let mut msgs = vec![
        numbered("1", "a", "7", 100),
        numbered("2", "b", "7", 699),
        numbered("3", "c", "7", 1299),
    ];
    recompute_message_grouping(&mut msgs);
    assert!(!msgs[0].combined_with_prev);
    assert!(msgs[1].combined_with_prev);
    assert!(!msgs[2].combined_with_prev);
}

#[test]
fn forwarded_label_only_on_first_of_a_run() {
    let mut a = numbered("1", "a", "7", 100);
    a.is_forwarded = true;
    let mut b = numbered("2", "b", "7", 200);
    b.is_forwarded = true;
    let mut msgs = vec![a, b];
    recompute_message_grouping(&mut msgs);
    assert!(msgs[0].show_forwarded_label);
    assert!(!msgs[1].show_forwarded_label);
}

#[test]
fn has_more_from_oldest_stops_at_first_message_marker() {
    let mut marker = numbered("1", "start", "u", 1);
    marker.code = MessageCode::Indicator;
    assert!(!has_more_from_oldest(&vec![marker, numbered("2", "a", "u", 2)]));
    assert!(has_more_from_oldest(&vec![numbered("2", "a", "u", 2)]));
}

#[test]
fn load_more_backoff_grows_with_consecutive_loads() {
    assert_eq!(next_consecutive_loads(false, 3), 0);
    assert_eq!(next_consecutive_loads(true, 1), 2);
    assert_eq!(next_consecutive_loads(true, 3), 3);
    assert_eq!(load_more_backoff_ms(3), 999);
    assert_eq!(load_more_backoff_ms(0), 0);
}

#[test]
fn appended_shift_reports_growth_and_trim() {
    let grown = appended_shift(2, 3).unwrap();
    assert_eq!(grown.added_bottom, 1);
    assert_eq!(grown.removed_top, 0);
    assert!(appended_shift(3, 3).is_none());
}

#[test]
fn paging_refuses_a_second_load_while_one_runs() {
    let mut ch = channel_msgs(vec![numbered("5", "a", "u", 5), numbered("6", "b", "u", 6)]);
    ch.has_more = true;
    let mut paging = Paging::new();
    let first = paging.begin_older_load(&ch, true);
    assert_eq!(first, Some(("5".to_string(), 333)));
    assert!(paging.loading_more);
    assert_eq!(paging.begin_older_load(&ch, true), None);
}

#[test]
fn jump_to_loaded_message_scrolls_and_unknown_fetches() {
    let ch = channel_msgs(vec![numbered("5", "a", "u", 5)]);
    let mut paging = Paging::new();
    assert_eq!(paging.begin_jump(&ch, &"5".to_string()), JumpPlan::AlreadyLoaded);
    assert_eq!(paging.begin_jump(&ch, &"abc".to_string()), JumpPlan::Skip);
    assert_eq!(paging.begin_jump(&ch, &"77".to_string()), JumpPlan::Fetch(77));
    assert!(paging.loading_more);
    assert_eq!(paging.begin_jump(&ch, &"78".to_string()), JumpPlan::Skip);
}

#[test]
fn prepared_first_page_is_sorted_capped_and_grouped() {
    let mut page: Vec<TimelineMessage<()>> = (0..120).rev().map(|i| numbered(&i.to_string(), "x", "u1", 1000 + i)).collect();
    page.push(numbered("500", "y", "u2", 5000));
    let prepared = mezon_store::timeline::prepare_messages(page);
    assert_eq!(prepared.len(), MAX_MESSAGES_PER_CHANNEL);
    assert_eq!(prepared[0].id, "21");
    assert_eq!(prepared.last().unwrap().id, "500");
    assert!(prepared[1].combined_with_prev);
    assert!(!prepared.last().unwrap().combined_with_prev);
    let ch = ChannelMessages::from_first_page(prepared);
    assert!(ch.has_more);
    assert!(!ch.has_more_bottom);
    let mut first = numbered("1", "", "u1", 1);
    first.code = MessageCode::Indicator;
    assert!(!ChannelMessages::from_first_page(vec![first]).has_more);
    assert!(!ChannelMessages::<()>::from_first_page(Vec::new()).has_more);
}
