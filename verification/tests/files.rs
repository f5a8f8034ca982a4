use mezon_store::files::{
    dedupe_by_id, is_document, short_file_type_label, sort_desc_in_place, ChannelAttachmentDesc,
    ChannelDocument,
};
use mezon_store::ids::{ChannelId, ClanId, MessageId, UserId};

#[test]
fn is_document_excludes_media_and_sticker() {
    assert!(!is_document("image/png"));
    assert!(!is_document("video/mp4"));
    assert!(!is_document("sticker"));
    assert!(!is_document("application/mp4"));
    assert!(is_document("application/pdf"));
    assert!(is_document("text/csv"));
    assert!(is_document("FILE"));
    assert!(is_document(""));
    assert!(is_document("application/zip"));
}

#[test]
fn is_document_trims_and_ignores_case() {
    assert!(!is_document("  IMAGE/JPEG "));
    assert!(!is_document("Sticker"));
    assert!(!is_document("video/quickTime-MOV"));
    assert!(is_document("   "));
}

fn doc(id: i64, filename: &str, time: u32) -> ChannelDocument {
    ChannelDocument {
        id,
        channel_id: ChannelId(1),
        clan_id: ClanId(1),
        message_id: MessageId(0),
        uploader_id: UserId(0),
        url: String::new(),
        filename: filename.into(),
        filetype: "FILE".into(),
        create_time_seconds: time,
        uploader_name: String::new(),
    }
}

#[test]
fn from_api_defaults_empty_names() {
    let api = ChannelAttachmentDesc {
        id: 1,
        filename: String::new(),
        filetype: String::new(),
        ..ChannelAttachmentDesc::default()
    };
    let doc = ChannelDocument::from_api(api, ChannelId(2), ClanId(3));
    assert_eq!(doc.filename, "File");
    assert_eq!(doc.filetype, "File");
    assert_eq!(doc.channel_id, ChannelId(2));
    assert_eq!(doc.clan_id, ClanId(3));
    assert!(!doc.is_failed());
}

#[test]
fn sort_desc_orders_by_time_then_id() {
    let mut items = vec![doc(1, "a", 10), doc(3, "b", 20), doc(2, "c", 20)];
    sort_desc_in_place(&mut items);
    assert_eq!(items[0].id, 3);
    assert_eq!(items[1].id, 2);
    assert_eq!(items[2].id, 1);
}

#[test]
fn short_file_type_label_maps_common_mimes() {
    assert_eq!(short_file_type_label("application/pdf"), "PDF");
    assert_eq!(short_file_type_label("text/csv"), "CSV");
    assert_eq!(short_file_type_label("FILE"), "FILE");
    assert_eq!(
        short_file_type_label("application/vnd.android.package-archive"),
        "FILE"
    );
}

#[test]
fn short_file_type_label_uses_short_subtype_else_file() {
    assert_eq!(short_file_type_label("  Image/WebP "), "WEBP");
    assert_eq!(short_file_type_label("application/octet-stream"), "FILE");
    assert_eq!(short_file_type_label("xlsx"), "XLS");
    assert_eq!(short_file_type_label(""), "FILE");
    assert_eq!(short_file_type_label("text/"), "FILE");
}

#[test]
fn dedupe_by_id_keeps_first() {
    let docs = vec![doc(1, "a", 20), doc(1, "b", 10), doc(2, "c", 5)];
    let deduped = dedupe_by_id(docs);
    assert_eq!(deduped.len(), 2);
    assert_eq!(deduped[0].id, 1);
    assert_eq!(deduped[0].filename, "a");
    assert_eq!(deduped[1].id, 2);
}

#[test]
fn failed_upload_is_recognised_by_name() {
    assert!(doc(1, "failAttachment", 0).is_failed());
}
