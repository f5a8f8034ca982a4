use mezon_store::stream::{
    media_sections, reconnect_delay, validate_full_sdp_layout, SdpLayoutError,
};

const OFFER: &str = "v=0\r\nm=audio 9 UDP/TLS/RTP/SAVPF 111\r\na=mid:0\r\na=sendrecv\r\nm=video 9 UDP/TLS/RTP/SAVPF 96\r\na=mid:1\r\na=sendrecv\r\nm=video 9 UDP/TLS/RTP/SAVPF 96\r\na=mid:2\r\na=sendrecv\r\n";

const ANSWER: &str = "v=0\r\nm=audio 9 UDP/TLS/RTP/SAVPF 111\r\na=mid:0\r\na=recvonly\r\nm=video 0 UDP/TLS/RTP/SAVPF 96\r\na=mid:1\r\na=inactive\r\nm=video 0 UDP/TLS/RTP/SAVPF 96\r\na=mid:2\r\na=inactive\r\n";

#[test]
fn accepts_full_sdp_with_audio_only_answer_directions() {
    assert!(validate_full_sdp_layout(OFFER, ANSWER).is_ok());
    let sections = media_sections(ANSWER);
    assert_eq!(sections.len(), 3);
    assert_eq!(sections[0].direction.as_deref(), Some("a=recvonly"));
    assert_eq!(sections[1].direction.as_deref(), Some("a=inactive"));
    assert_eq!(sections[2].direction.as_deref(), Some("a=inactive"));
}

#[test]
fn rejects_changed_m_line_layout_or_active_video() {
    let wrong_order = ANSWER.replace("a=mid:1", "a=mid:9");
    assert!(validate_full_sdp_layout(OFFER, &wrong_order).is_err());

    let missing_mid = ANSWER.replace("a=mid:1", "a=mid:");
    assert!(validate_full_sdp_layout(OFFER, &missing_mid).is_err());

    let active_video = ANSWER.replace("a=inactive", "a=recvonly");
    assert!(validate_full_sdp_layout(OFFER, &active_video).is_err());

    let active_audio = ANSWER.replace("a=recvonly", "a=sendrecv");
    assert!(validate_full_sdp_layout(OFFER, &active_audio).is_err());
}

#[test]
fn each_layout_error_is_reported() {
    let short = ANSWER.replace("m=video 0 UDP/TLS/RTP/SAVPF 96\r\na=mid:2\r\na=inactive\r\n", "");
    assert_eq!(
        validate_full_sdp_layout(OFFER, &short),
        Err(SdpLayoutError::SectionCountChanged)
    );
    let wrong_mid = ANSWER.replace("a=mid:1", "a=mid:9");
    assert_eq!(
        validate_full_sdp_layout(OFFER, &wrong_mid),
        Err(SdpLayoutError::OrderOrMidChanged)
    );
    let active_video = ANSWER.replace("a=inactive", "a=recvonly");
    assert_eq!(
        validate_full_sdp_layout(OFFER, &active_video),
        Err(SdpLayoutError::VideoActivated)
    );
    let active_audio = ANSWER.replace("a=recvonly", "a=sendrecv");
    assert_eq!(
        validate_full_sdp_layout(OFFER, &active_audio),
        Err(SdpLayoutError::AudioSenderActivated)
    );
}

#[test]
fn media_sections_reads_kind_mid_and_direction() {
    let sections = media_sections(OFFER);
    assert_eq!(sections.len(), 3);
    assert_eq!(sections[0].kind, "audio");
    assert_eq!(sections[0].mid, "0");
    assert_eq!(sections[1].kind, "video");
    assert_eq!(sections[2].mid, "2");
    assert_eq!(sections[2].direction.as_deref(), Some("a=sendrecv"));
    assert!(media_sections("v=0\na=mid:7\n").is_empty());
    let lf_only = media_sections("m=  audio 1\na=mid:x");
    assert_eq!(lf_only[0].kind, "audio");
    assert_eq!(lf_only[0].mid, "x");
    assert_eq!(lf_only[0].direction, None);
}

#[test]
fn reconnect_delay_doubles_up_to_the_cap() {
    assert_eq!(reconnect_delay(0), 1000);
    assert_eq!(reconnect_delay(1), 2000);
    assert_eq!(reconnect_delay(2), 4000);
    assert_eq!(reconnect_delay(3), 8000);
    assert_eq!(reconnect_delay(4), 15000);
    assert_eq!(reconnect_delay(u32::MAX), 15000);
}
