use mezon_store::ogp::{extract_urls, first_previewable_url, invite_id_from_url};

#[test]
fn picks_first_plain_url() {
    assert_eq!(
        first_previewable_url("check this https://example.com/post out", None).as_deref(),
        Some("https://example.com/post")
    );
}

#[test]
fn strips_trailing_punctuation() {
    assert_eq!(
        first_previewable_url("see https://example.com/a).", None).as_deref(),
        Some("https://example.com/a")
    );
}

#[test]
fn skips_social_links() {
    assert_eq!(
        first_previewable_url("https://www.youtube.com/watch?v=1", None),
        None
    );
    assert_eq!(first_previewable_url("https://youtu.be/abc", None), None);
    assert_eq!(
        first_previewable_url("a https://tiktok.com/@x https://example.com/b", None).as_deref(),
        Some("https://example.com/b")
    );
}

#[test]
fn skips_internal_domain() {
    assert_eq!(
        first_previewable_url("https://mezon.ai/channels/1", Some("mezon.ai")),
        None
    );
    assert_eq!(
        first_previewable_url("https://app.mezon.ai/x", Some("mezon.ai")),
        None
    );
}

#[test]
fn none_when_no_url() {
    assert_eq!(first_previewable_url("just some text", None), None);
}

#[test]
fn extracts_invite_id() {
    assert_eq!(
        invite_id_from_url("https://mezon.ai/invite/1840670747886882816").as_deref(),
        Some("1840670747886882816")
    );
    assert_eq!(
        invite_id_from_url("https://mezon.ai/invite/abc-DEF_123?ref=x").as_deref(),
        Some("abc-DEF_123")
    );
    assert_eq!(
        invite_id_from_url("https://mezon.ai/channels/1").as_deref(),
        None
    );
    assert_eq!(
        invite_id_from_url("https://mezon.ai/invite/").as_deref(),
        None
    );
}

#[test]
fn invite_needle_ignores_letter_case() {
    assert_eq!(
        invite_id_from_url("https://mezon.ai/INVITE/Xy9").as_deref(),
        Some("Xy9")
    );
}

#[test]
fn internal_domain_is_normalized() {
    assert_eq!(
        first_previewable_url("https://APP.Mezon.AI/x", Some("  www.MEZON.ai ")),
        None
    );
    assert_eq!(
        first_previewable_url("https://notmezon.ai/x", Some("mezon.ai")).as_deref(),
        Some("https://notmezon.ai/x")
    );
}

#[test]
fn host_skips_credentials_and_port() {
    assert_eq!(
        first_previewable_url("https://user@youtube.com:443/v", None),
        None
    );
}

#[test]
fn short_links_and_stops_are_handled() {
    assert_eq!(extract_urls("http://a https://b.c"), vec!["https://b.c".to_string()]);
    assert_eq!(
        extract_urls("<https://x.org/p>|http://y.org"),
        vec!["https://x.org/p".to_string(), "http://y.org".to_string()]
    );
    assert!(extract_urls("no links").is_empty());
}
