use ytb_wayback::formats::{ext_from_content_type, from_itag, itag_from_url};

#[test]
fn itag_lookup() {
    let f = from_itag("45").unwrap();
    assert_eq!(f.ext, "webm");
    assert_eq!(f.height, Some(720));
    assert_eq!(f.note(), "720p webm");
    assert_eq!(
        itag_from_url("http://x/videoplayback?itag=45&ratebypass=yes").as_deref(),
        Some("45")
    );
    let f = from_itag("22").unwrap();
    assert_eq!(f.ext, "mp4");
    assert_eq!(f.note(), "720p mp4");
}

#[test]
fn unknown_itag() {
    assert!(from_itag("999").is_none());
    assert!(itag_from_url("http://x/videoplayback").is_none());
}

#[test]
fn content_types() {
    assert_eq!(ext_from_content_type("video/mp4"), Some("mp4"));
    assert_eq!(ext_from_content_type("video/webm; charset=binary"), Some("webm"));
    assert_eq!(ext_from_content_type("text/html"), None);
    assert_eq!(ext_from_content_type("application/octet-stream"), None);
}

#[test]
fn note_without_height_is_the_extension() {
    let f = from_itag("140").unwrap();
    assert_eq!(f.ext, "m4a");
    assert_eq!(f.height, None);
    assert_eq!(f.note(), "m4a");
    assert_eq!(from_itag("133").unwrap().note(), "240p mp4");
}

#[test]
fn itag_parameter_forms() {
    assert_eq!(itag_from_url("itag=18").as_deref(), Some("18"));
    assert_eq!(itag_from_url("a?b=1&itag=&c=2").as_deref(), Some(""));
    assert_eq!(itag_from_url("a?xitag=5&itag=7").as_deref(), Some("7"));
    assert_eq!(itag_from_url("a?itag=1=2").as_deref(), Some("1=2"));
    assert_eq!(itag_from_url("a?itag"), None);
}

#[test]
fn content_type_aliases_and_whitespace() {
    assert_eq!(ext_from_content_type("  video/x-flv  "), Some("flv"));
    assert_eq!(ext_from_content_type("application/x-flv"), Some("flv"));
    assert_eq!(ext_from_content_type("video/quicktime"), Some("mov"));
    assert_eq!(ext_from_content_type("video/3gpp"), Some("3gp"));
    assert_eq!(ext_from_content_type("audio/m4a"), Some("m4a"));
    assert_eq!(ext_from_content_type("audio/mp4;codecs=mp4a"), Some("m4a"));
    assert_eq!(ext_from_content_type("audio/webm"), Some("webm"));
    assert_eq!(ext_from_content_type("audio/ogg"), Some("ogg"));
    assert_eq!(ext_from_content_type(""), None);
    assert_eq!(ext_from_content_type("VIDEO/MP4"), None);
}
