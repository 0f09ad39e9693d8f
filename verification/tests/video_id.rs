use ytb_wayback::video_id::{parse, percent_decode, VideoInput};

fn id(p: &str) -> String {
    match parse(p).unwrap() {
        VideoInput::Video { id, .. } => id,
        VideoInput::Media { .. } => panic!("expected a video, got a media link"),
    }
}

fn date(p: &str) -> Option<String> {
    parse(p).unwrap().date().map(str::to_string)
}

fn inner(p: &str) -> Option<String> {
    parse(p).unwrap().inner().map(str::to_string)
}

#[test]
fn bare_id() {
    assert_eq!(id("C1hjsVLcGFc"), "C1hjsVLcGFc");
    assert_eq!(id("  97t7Xj_iBv0  "), "97t7Xj_iBv0");
    assert_eq!(date("C1hjsVLcGFc"), None);
    assert_eq!(inner("C1hjsVLcGFc"), None);
}

#[test]
fn youtube_watch_url() {
    assert_eq!(id("https://www.youtube.com/watch?v=C1hjsVLcGFc"), "C1hjsVLcGFc");
    assert_eq!(
        id("http://youtube.com/watch?v=C1hjsVLcGFc&list=PL123&index=2"),
        "C1hjsVLcGFc"
    );
    assert_eq!(id("https://m.youtube.com/watch?v=BaW_jenozKc"), "BaW_jenozKc");
    assert_eq!(
        id("https://www.youtube.com:80/watch.php?v=ELTFsLT73fA&search=soccer"),
        "ELTFsLT73fA"
    );
    assert_eq!(date("https://www.youtube.com/watch?v=C1hjsVLcGFc"), None);
}

#[test]
fn short_and_embed_links() {
    assert_eq!(id("https://youtu.be/C1hjsVLcGFc"), "C1hjsVLcGFc");
    assert_eq!(id("https://www.youtube.com/embed/C1hjsVLcGFc"), "C1hjsVLcGFc");
    assert_eq!(id("https://www.youtube.com/v/C1hjsVLcGFc?version=3"), "C1hjsVLcGFc");
    assert_eq!(id("https://www.youtube.com/shorts/C1hjsVLcGFc"), "C1hjsVLcGFc");
    assert_eq!(id("https://www.youtube.com/watch/C1hjsVLcGFc"), "C1hjsVLcGFc");
    assert_eq!(id("https://youtube-nocookie.com/embed/C1hjsVLcGFc"), "C1hjsVLcGFc");
    assert_eq!(id("https://music.youtube.com/watch?v=C1hjsVLcGFc"), "C1hjsVLcGFc");
}

#[test]
fn live_broadcast_links() {
    assert_eq!(id("https://www.youtube.com/live/S2dvG697FQo"), "S2dvG697FQo");
    assert_eq!(
        id("https://m.youtube.com/live/S2dvG697FQo?feature=share"),
        "S2dvG697FQo"
    );
    let archived = "https://web.archive.org/web/20230520013354/https://www.youtube.com/live/S2dvG697FQo?feature=share";
    assert_eq!(id(archived), "S2dvG697FQo");
    assert_eq!(date(archived), Some("20230520013354".into()));
}

#[test]
fn archived_watch_page() {
    let input = "https://web.archive.org/web/20241125121251/https://www.youtube.com/watch?v=C1hjsVLcGFc";
    assert_eq!(id(input), "C1hjsVLcGFc");
    assert_eq!(date(input), Some("20241125121251".into()));
    assert_eq!(
        inner(input),
        Some("https://www.youtube.com/watch?v=C1hjsVLcGFc".into())
    );
}

#[test]
fn archived_live_page() {
    let input = "https://web.archive.org/web/20230520013354/https://www.youtube.com/live/S2dvG697FQo?feature=share";
    assert_eq!(id(input), "S2dvG697FQo");
    assert_eq!(date(input), Some("20230520013354".into()));
    assert_eq!(
        inner(input),
        Some("https://www.youtube.com/live/S2dvG697FQo?feature=share".into())
    );
}

#[test]
fn archived_media_link_is_direct_media() {
    // A raw archived `videoplayback` URL only carries a random stream id,
    // not the YouTube video ID — it is downloaded exactly as linked.
    let input = "https://web.archive.org/web/20111027231107oe_/http://o-o.preferred.example.com/videoplayback?itag=45&id=0b5863b152dc1857&expire=1319781600";
    match parse(input).unwrap() {
        VideoInput::Media { url, date } => {
            assert_eq!(url, input);
            assert_eq!(date.as_deref(), Some("20111027231107"));
        }
        VideoInput::Video { .. } => panic!("expected a media link"),
    }
}

#[test]
fn non_video_youtube_archive_pages_are_rejected() {
    for url in [
        "https://web.archive.org/web/20240101000000/https://www.youtube.com/channel/UCabcxyz123",
        "https://web.archive.org/web/20240101000000/https://www.youtube.com/playlist?list=PL123",
        "https://web.archive.org/web/20240101000000/https://www.youtube.com/@dankpods",
    ] {
        let err = parse(url).unwrap_err().message();
        assert!(
            err.contains("channel/playlist") || err.contains("channel/playlist/search"),
            "unexpected error for {url}: {err}"
        );
    }
}

#[test]
fn fakeurl_link() {
    let input = "https://web.archive.org/web/2oe_/http://wayback-fakeurl.archive.org/yt/C1hjsVLcGFc";
    assert_eq!(id(input), "C1hjsVLcGFc");
    assert_eq!(date(input), None); // magic timestamp `2` carries no date
}

#[test]
fn percent_encoded_archived_url() {
    let input = "https://web.archive.org/web/20120712231619/http%3A//www.youtube.com/watch%3Fv%3DAkhihxRKcrs%26gl%3DUS%26hl%3Den";
    assert_eq!(id(input), "AkhihxRKcrs");
    assert_eq!(date(input), Some("20120712231619".into()));
}

#[test]
fn invalid_inputs() {
    assert!(parse("").is_err());
    assert!(parse("   ").is_err());
    assert!(parse("https://example.com/random").is_err());
    assert!(parse("watch?v=tooshort").is_err());
}

#[test]
fn surrounding_whitespace_does_not_change_the_parse() {
    for raw in [
        "https://www.youtube.com/watch?v=C1hjsVLcGFc",
        "https://web.archive.org/web/20241125121251/https://www.youtube.com/watch?v=C1hjsVLcGFc",
        "C1hjsVLcGFc",
    ] {
        let padded = format!(" \t{raw}\n ");
        assert_eq!(parse(&padded).unwrap(), parse(raw).unwrap());
    }
}

#[test]
fn percent_decoding() {
    assert_eq!(percent_decode("watch%3Fv%3DC1hjsVLcGFc"), "watch?v=C1hjsVLcGFc");
    assert_eq!(percent_decode("a+b%2"), "a+b%2");
    assert_eq!(percent_decode("100%zz"), "100%zz");
    assert_eq!(percent_decode("%E2%9C%93"), "\u{2713}");
    assert_eq!(percent_decode("%FF"), "\u{FFFD}");
    // Text without escapes comes back as it was.
    for plain in ["https://youtu.be/C1hjsVLcGFc", "Видео & more+", ""] {
        assert_eq!(percent_decode(plain), plain);
    }
}
