use mezon_store::spans::{parse_spans, ContentToken, MessageContent, MessageSpan};

fn tok(s: i64, e: i64) -> ContentToken {
    ContentToken {
        s: Some(s),
        e: Some(e),
        ..ContentToken::default()
    }
}

fn text(t: &str) -> MessageSpan {
    MessageSpan::Text(t.to_string())
}

#[test]
fn optimistic_mention_tokens_round_trip_to_a_coloured_span() {
    let content = MessageContent {
        t: "@bob hi".into(),
        mentions: vec![ContentToken {
            user_id: Some("42".into()),
            username: Some("@bob".into()),
            ..tok(0, 4)
        }],
        ..MessageContent::default()
    };
    let spans = parse_spans(&content);
    assert_eq!(
        spans,
        vec![
            MessageSpan::Mention {
                display: "@bob".into(),
                user_id: Some("42".into()),
                role_id: None,
            },
            text(" hi"),
        ]
    );
}

#[test]
fn empty_text_has_no_spans() {
    let content = MessageContent {
        mentions: vec![tok(0, 3)],
        ..MessageContent::default()
    };
    assert!(parse_spans(&content).is_empty());
}

#[test]
fn plain_text_is_one_span() {
    let content = MessageContent {
        t: "hello".into(),
        ..MessageContent::default()
    };
    assert_eq!(parse_spans(&content), vec![text("hello")]);
}

#[test]
fn role_mention_and_unresolved_mention() {
    let content = MessageContent {
        t: "@mods @x".into(),
        mentions: vec![
            ContentToken {
                role_id: Some("7".into()),
                user_id: Some("0".into()),
                ..tok(0, 5)
            },
            tok(6, 8),
        ],
        ..MessageContent::default()
    };
    assert_eq!(
        parse_spans(&content),
        vec![
            MessageSpan::Mention {
                display: "@mods".into(),
                user_id: None,
                role_id: Some("7".into()),
            },
            text(" "),
            text("@x"),
        ]
    );
}

#[test]
fn markdown_kinds_strip_their_markers() {
    let content = MessageContent {
        t: "**b** `c` x".into(),
        mk: vec![
            ContentToken {
                kind: Some("b".into()),
                ..tok(0, 5)
            },
            ContentToken {
                kind: Some("c".into()),
                ..tok(6, 9)
            },
        ],
        ..MessageContent::default()
    };
    assert_eq!(
        parse_spans(&content),
        vec![
            MessageSpan::Bold("b".into()),
            text(" "),
            MessageSpan::Code("c".into()),
            text(" x"),
        ]
    );
}

#[test]
fn overlapping_and_preview_ranges_are_dropped() {
    let content = MessageContent {
        t: "see https://a.b now".into(),
        lk: vec![ContentToken {
            url: Some("https://a.b".into()),
            ..tok(4, 15)
        }],
        mk: vec![ContentToken {
            kind: Some("lk_ogp".into()),
            ..tok(4, 15)
        }],
        hg: vec![ContentToken {
            channel_id: Some("9".into()),
            ..tok(5, 8)
        }],
        ..MessageContent::default()
    };
    // the markdown preview marker comes first among ranges starting at 4 and yields nothing;
    // the link starting at the same place overlaps it and is skipped, as is the hashtag.
    assert_eq!(parse_spans(&content), vec![text("see "), text(" now")]);
}

#[test]
fn offsets_count_utf16_units_and_cut_pairs_become_replacement() {
    // "😀" takes two UTF-16 units
    let content = MessageContent {
        t: "a😀b:x:".into(),
        ej: vec![ContentToken {
            emojiid: Some("99".into()),
            ..tok(4, 7)
        }],
        hg: vec![tok(2, 4)],
        ..MessageContent::default()
    };
    assert_eq!(
        parse_spans(&content),
        vec![
            text("a\u{FFFD}"),
            MessageSpan::Hashtag {
                display: "\u{FFFD}b".into(),
                channel_id: None,
            },
            MessageSpan::Emoji {
                name: ":x:".into(),
                emoji_id: "99".into(),
            },
        ]
    );
}
