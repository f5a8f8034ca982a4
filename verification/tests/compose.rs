use std::path::PathBuf;

use mezon_store::compose::{
    ComposeDraft, ComposeStore, ComposeToken, ComposeTokenKind, PendingAttachment,
    MAX_DRAFT_CHANNELS,
};
use mezon_store::ids::ChannelId;

fn text_draft(text: &str) -> ComposeDraft {
    ComposeDraft {
        text: text.to_string(),
        ..Default::default()
    }
}

fn attachment() -> PendingAttachment {
    PendingAttachment {
        path: PathBuf::from("a.png"),
        filename: "a.png".to_string(),
        filetype: "image/png".to_string(),
        size: 10,
        is_image: true,
        is_video: false,
        width: 1,
        height: 1,
        duration: 0,
        poster_jpeg: None,
    }
}

#[test]
fn draft_round_trips_per_channel() {
    let mut store = ComposeStore::new();
    store.set_draft(ChannelId(1), text_draft("hello"));
    store.set_draft(ChannelId(2), text_draft("world"));

    assert_eq!(
        store.draft(ChannelId(1)).map(|d| d.text.as_str()),
        Some("hello")
    );
    assert_eq!(
        store.draft(ChannelId(2)).map(|d| d.text.as_str()),
        Some("world")
    );
    assert!(store.draft(ChannelId(3)).is_none());
}

#[test]
fn blank_draft_clears_instead_of_storing() {
    let mut store = ComposeStore::new();
    store.set_draft(ChannelId(1), text_draft("hello"));
    store.set_draft(ChannelId(1), text_draft("   \n "));

    assert!(store.draft(ChannelId(1)).is_none());
    assert!(store.is_empty());
}

#[test]
fn blank_text_with_attachment_is_kept() {
    let mut store = ComposeStore::new();
    store.set_draft(
        ChannelId(1),
        ComposeDraft {
            text: String::new(),
            tokens: Vec::new(),
            attachments: vec![attachment()],
        },
    );

    assert_eq!(
        store.draft(ChannelId(1)).map(|d| d.attachments.len()),
        Some(1)
    );
}

#[test]
fn take_draft_removes_it() {
    let mut store = ComposeStore::new();
    store.set_draft(ChannelId(1), text_draft("hello"));

    assert_eq!(
        store.take_draft(ChannelId(1)).map(|d| d.text),
        Some("hello".to_string())
    );
    assert!(store.draft(ChannelId(1)).is_none());
    assert!(store.take_draft(ChannelId(1)).is_none());
}

#[test]
fn tokens_survive_the_round_trip() {
    let mut store = ComposeStore::new();
    store.set_draft(
        ChannelId(1),
        ComposeDraft {
            text: "hi @bob".to_string(),
            tokens: vec![ComposeToken {
                kind: ComposeTokenKind::Mention {
                    user_id: "42".to_string(),
                    role_id: String::new(),
                },
                display: "@bob".to_string(),
                start: 3,
                end: 7,
            }],
            attachments: Vec::new(),
        },
    );

    let tokens = &store.draft(ChannelId(1)).expect("draft").tokens;
    assert_eq!(tokens.len(), 1);
    assert_eq!(tokens[0].start, 3);
    assert_eq!(tokens[0].end, 7);
}

#[test]
fn evicts_least_recently_updated_channel_at_cap() {
    let mut store = ComposeStore::new();
    for id in 0..MAX_DRAFT_CHANNELS as i64 {
        store.set_draft(ChannelId(id), text_draft("draft"));
    }
    store.set_draft(ChannelId(0), text_draft("refreshed"));
    store.set_draft(ChannelId(999), text_draft("newest"));

    assert_eq!(store.len(), MAX_DRAFT_CHANNELS);
    assert!(store.draft(ChannelId(1)).is_none());
    assert_eq!(
        store.draft(ChannelId(0)).map(|d| d.text.as_str()),
        Some("refreshed")
    );
    assert_eq!(
        store.draft(ChannelId(999)).map(|d| d.text.as_str()),
        Some("newest")
    );
}

#[test]
fn clear_all_empties_the_store() {
    let mut store = ComposeStore::new();
    store.set_draft(ChannelId(1), text_draft("hello"));
    store.clear_all();

    assert!(store.is_empty());
    assert!(store.draft(ChannelId(1)).is_none());
}

#[test]
fn clear_draft_leaves_other_channels() {
    let mut store = ComposeStore::new();
    store.set_draft(ChannelId(1), text_draft("one"));
    store.set_draft(ChannelId(2), text_draft("two"));
    store.clear_draft(ChannelId(1));
    assert!(store.draft(ChannelId(1)).is_none());
    assert_eq!(store.draft(ChannelId(2)).map(|d| d.text.as_str()), Some("two"));
    assert_eq!(store.len(), 1);
}

#[test]
fn overwriting_a_draft_keeps_one_entry() {
    let mut store = ComposeStore::new();
    store.set_draft(ChannelId(5), text_draft("first"));
    store.set_draft(ChannelId(5), text_draft("second"));
    assert_eq!(store.len(), 1);
    assert_eq!(store.draft(ChannelId(5)).map(|d| d.text.as_str()), Some("second"));
}

#[test]
fn draft_emptiness_needs_blank_text_and_no_attachment() {
    assert!(text_draft(" \t\n").is_empty());
    assert!(!text_draft(" x ").is_empty());
    assert!(!ComposeDraft {
        text: String::new(),
        tokens: Vec::new(),
        attachments: vec![attachment()],
    }
    .is_empty());
}

#[test]
fn store_stays_within_cap_and_never_holds_empty_drafts() {
    let mut store = ComposeStore::new();
    for i in 0..120i64 {
        match i % 4 {
            0 | 1 => store.set_draft(ChannelId(i % 70), text_draft("hello")),
            2 => store.set_draft(ChannelId(i % 70), text_draft("   ")),
            _ => {
                store.take_draft(ChannelId((i + 1) % 70));
            }
        }
        assert!(store.len() <= MAX_DRAFT_CHANNELS);
        assert_eq!(store.is_empty(), store.len() == 0);
        for c in 0..70i64 {
            if let Some(d) = store.draft(ChannelId(c)) {
                assert!(!d.is_empty());
            }
        }
        if i % 4 < 2 {
            assert_eq!(store.draft(ChannelId(i % 70)).map(|d| d.text.as_str()), Some("hello"));
        }
    }
}
