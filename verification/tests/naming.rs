use ytb_wayback::formats::from_itag;
use ytb_wayback::html::VideoMetadata;
use ytb_wayback::naming::{fallback_title, has_audio, media_video_id, output_base_name, tracks_note};

#[test]
fn titles_fall_back_to_the_id() {
    let mut m = VideoMetadata::default();
    assert_eq!(fallback_title(&m, "ID"), "ID");
    m.title = Some("   ".into());
    assert_eq!(fallback_title(&m, "ID"), "ID");
    m.title = Some(" Song ".into());
    assert_eq!(fallback_title(&m, "ID"), " Song ");
}

#[test]
fn base_names() {
    assert_eq!(output_base_name("My/Video", "C1hjsVLcGFc"), "My_Video (C1hjsVLcGFc)");
}

#[test]
fn media_links_carry_video_ids() {
    assert_eq!(
        media_video_id("http://x/videoplayback?itag=5&video_id=C1hjsVLcGFc&x=1").as_deref(),
        Some("C1hjsVLcGFc")
    );
    assert_eq!(media_video_id("http://x/videoplayback?id=abc"), None);
}

#[test]
fn audio_tracks() {
    assert!(has_audio(None));
    assert!(has_audio(Some("999")));
    assert!(has_audio(Some("22")));
    assert!(!has_audio(Some("137")));
    assert_eq!(tracks_note(from_itag("137").unwrap()), "video-only, no audio track");
    assert_eq!(tracks_note(from_itag("43").unwrap()), "video+audio (vp8/vorbis)");
}
