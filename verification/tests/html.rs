use ytb_wayback::html::{clean_yt_title, extract_metadata, json_value_text, sanitize_filename, VideoMetadata};

const MODERN_PAGE: &str = r#"<!doctype html><html><head><title>Me at the zoo - YouTube</title>
<meta property="og:title" content="Me at the zoo" /></head><body>
<script>var ytInitialPlayerResponse = {"videoDetails":{"title":"Me at the zoo","author":"jawed","channelId":"UC4QobU6STFB0P71PMvOGN5A","lengthSeconds":"19","thumbnail":{"thumbnails":[{"url":"https://i.ytimg.com/vi/jNQXAC9IVRw/hqdefault.jpg"}]}},"microformat":{"playerMicroformatRenderer":{"publishDate":"2005-04-23T00:00:00Z"}}};</script>
</body></html>"#;

#[test]
fn metadata_from_player_response() {
    let m = extract_metadata(MODERN_PAGE);
    assert_eq!(m.title.as_deref(), Some("Me at the zoo"));
    assert_eq!(m.uploader.as_deref(), Some("jawed"));
    assert_eq!(m.upload_date.as_deref(), Some("2005-04-23"));
    assert_eq!(m.duration, Some(19));
    assert_eq!(m.channel_id.as_deref(), Some("UC4QobU6STFB0P71PMvOGN5A"));
}

#[test]
fn metadata_from_live_broadcast() {
    let page = r#"<!doctype html><html><head><title>Minecraft stream - YouTube</title></head><body>
<script>var ytInitialPlayerResponse = {"videoDetails":{"title":"САМЫЙ ЛУЧШИЙ СТРИМ","author":"SomeChannel","channelId":"UCxxxxxxxxxxxxxxxxxxxxxx","isLive":true,"isLiveContent":true,"thumbnail":{"thumbnails":[{"url":"https://i.ytimg.com/vi/S2dvG697FQo/hqdefault.jpg"}]}},"microformat":{"playerMicroformatRenderer":{"liveBroadcastDetails":{"isLiveNow":true,"startTimestamp":"2023-05-19T15:01:11+00:00"}}}};</script>
</body></html>"#;
    let m = extract_metadata(page);
    assert_eq!(m.is_live, Some(true));
    assert_eq!(m.live_start.as_deref(), Some("2023-05-19T15:01:11+00:00"));
    assert_eq!(m.live_end, None);
    // No publishDate -> upload_date falls back to the broadcast start.
    assert_eq!(m.upload_date.as_deref(), Some("2023-05-19"));
    let m2 = extract_metadata(
        r#"<script>var ytInitialPlayerResponse={"videoDetails":{"isLiveContent":false},"microformat":{"playerMicroformatRenderer":{}}};</script>"#,
    );
    assert_eq!(m2.is_live, Some(false));
}

#[test]
fn title_fallbacks() {
    let m = extract_metadata("<html><head><title>My Video - YouTube</title></head></html>");
    assert_eq!(m.title.as_deref(), Some("My Video"));
    let m = extract_metadata("<html><head><title>YouTube - Old Clip</title></head></html>");
    assert_eq!(m.title.as_deref(), Some("Old Clip"));
    let m = extract_metadata(
        r#"<html><head><meta property="og:title" content="&quot;Quoted&quot; &amp; more" /></head></html>"#,
    );
    assert_eq!(m.title.as_deref(), Some("\"Quoted\" & more"));
    // Empty titles (e.g. a JS-blank `<title> - YouTube</title>`) never win.
    let m = extract_metadata("<html><head><title> - YouTube</title></head></html>");
    assert_eq!(m.title, None);
}

#[test]
fn metadata_from_description_header() {
    let page = r#"<script>var ytInitialData={"contents":{"twoColumnWatchNextResults":{"results":{"results":{"contents":[{"videoSecondaryInfoRenderer":{"metadataRowContainer":{"metadataRowContainerRenderer":{}}},"items":[{"videoDescriptionHeaderRenderer":{"title":{"runs":[{"text":"Skrillex - With, You Friends"}]},"channel":{"simpleText":"MSK989"},"views":{"simpleText":"2,281,627 views"},"publishDate":{"simpleText":"Mar 5, 2011"}}}]}}]}}}};</script>"#;
    let m = extract_metadata(page);
    assert_eq!(m.title.as_deref(), Some("Skrillex - With, You Friends"));
    assert_eq!(m.uploader.as_deref(), Some("MSK989"));
    assert_eq!(m.upload_date.as_deref(), Some("Mar 5, 2011"));
}

#[test]
fn no_metadata_returns_defaults() {
    let m = extract_metadata("<html><body>junk</body></html>");
    assert_eq!(m, VideoMetadata::default());
}

#[test]
fn sanitize() {
    assert_eq!(sanitize_filename("a/b\\c:d*e?f\"g<h>i|j"), "a_b_c_d_e_f_g_h_i_j");
    assert_eq!(sanitize_filename("...hidden..."), "hidden");
    assert_eq!(sanitize_filename("  spaced  "), "spaced");
    assert_eq!(sanitize_filename("nul\x00byte"), "nul_byte");
    assert_eq!(sanitize_filename(&"x".repeat(300)).chars().count(), 140);
}

#[test]
fn sanitize_control_characters_and_unicode() {
    assert_eq!(sanitize_filename("tab\there"), "tab_here");
    assert_eq!(sanitize_filename("\u{3000}Видео\u{3000}"), "Видео");
    assert_eq!(sanitize_filename(&"é".repeat(200)).chars().count(), 140);
}

#[test]
fn json_text_is_bracket_matched() {
    assert_eq!(
        json_value_text(r#"x = {"a":"}{","b":[1,{"c":2}]} tail"#, "x").as_deref(),
        Some(r#"{"a":"}{","b":[1,{"c":2}]}"#)
    );
    assert_eq!(
        json_value_text(r#"k: [1, "\"]", [2]] rest"#, "k").as_deref(),
        Some(r#"[1, "\"]", [2]]"#)
    );
    assert_eq!(json_value_text("x = {unclosed", "x"), None);
    assert_eq!(json_value_text("nothing here", "x = "), None);
}

#[test]
fn titles_are_cleaned() {
    assert_eq!(clean_yt_title("  Clip &#233;t&#233; - YouTube "), "Clip été");
    assert_eq!(clean_yt_title("YouTube"), "");
    assert_eq!(clean_yt_title("&#1114112;x&lt;y&gt;"), "x<y>");
    assert_eq!(clean_yt_title("&amp;quot;"), "\"");
}

#[test]
fn sanitized_names_hold_no_unsafe_characters() {
    let name = format!("{}{}", "a/b:c*d?e\"f<g>h|i\\j\u{1}".repeat(20), "tail");
    let out = sanitize_filename(&name);
    assert!(out.chars().count() <= 140);
    assert!(!out.chars().any(|c| "/\\:*?\"<>|\0".contains(c) || (c as u32) < 0x20));
}
