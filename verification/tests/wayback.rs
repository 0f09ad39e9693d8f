use ytb_wayback::wayback::{
    archived_page_url, media_captures_from_rows, parse_cdx, snapshots_from_rows,
    stream_request_url, watch_page_keys, AttemptOutcome, MediaCapture, RetryDecision, Wayback,
};

#[test]
fn cdx_parse() {
    let raw = r#"[["timestamp","original","statuscode","mimetype","digest","length"],
["20241125121251","http://www.youtube.com/watch?v=C1hjsVLcGFc","200","text/html","ABCDEF","1234"],
["20111027231107","http://www.youtube.com/watch?v=C1hjsVLcGFc","200","text/html","ABCDEF","1234"]]"#;
    let rows = parse_cdx(raw);
    assert_eq!(rows.len(), 2);
    assert_eq!(rows[0].0, "20241125121251");
    assert_eq!(rows[1].1, "200");
    assert_eq!(rows[1].2, "text/html");
    assert_eq!(rows[1].3, "1234");
}

#[test]
fn cdx_parse_garbage() {
    assert!(parse_cdx("not json").is_empty());
    assert!(parse_cdx("[]").is_empty());
}

#[test]
fn replay_url_flags() {
    assert_eq!(
        Wayback::replay_url(None, "oe_", "http://wayback-fakeurl.archive.org/yt/ABC"),
        "https://web.archive.org/web/2oe_/http://wayback-fakeurl.archive.org/yt/ABC"
    );
    assert_eq!(
        Wayback::replay_url(Some("20241125121251"), "if_", "https://www.youtube.com/watch?v=x"),
        "https://web.archive.org/web/20241125121251if_/https://www.youtube.com/watch?v=x"
    );
    assert_eq!(
        Wayback::replay_url(Some("20241125121251"), "oe_", "http://a/yt/x"),
        "https://web.archive.org/web/20241125121251oe_/http://a/yt/x"
    );
}

fn cap(ts: &str, len: u64) -> MediaCapture {
    MediaCapture {
        timestamp: ts.to_string(),
        mimetype: "video/webm".into(),
        length: len,
    }
}

#[test]
fn select_capture_default_is_largest() {
    let caps = vec![cap("1", 100), cap("2", 5_000), cap("3", 300)];
    let got = Wayback::select_capture(&caps, None).unwrap();
    assert_eq!(got.timestamp, "2");
    assert_eq!(got.length, 5_000);
}

#[test]
fn select_capture_respects_cap() {
    let caps = vec![cap("1", 100), cap("2", 5_000), cap("3", 300)];
    let got = Wayback::select_capture(&caps, Some(400)).unwrap();
    assert_eq!(got.timestamp, "3");
    assert_eq!(got.length, 300);
}

#[test]
fn select_capture_falls_back_to_smallest_when_none_fits() {
    let caps = vec![cap("1", 100), cap("2", 5_000), cap("3", 300)];
    let got = Wayback::select_capture(&caps, Some(10)).unwrap();
    assert_eq!(got.timestamp, "1");
    assert_eq!(got.length, 100);
}

#[test]
fn select_capture_empty() {
    assert_eq!(Wayback::select_capture(&[], None), None);
}

#[test]
fn select_capture_ties() {
    let caps = vec![cap("1", 100), cap("2", 300), cap("3", 300), cap("4", 100)];
    assert_eq!(Wayback::select_capture(&caps, None).unwrap().timestamp, "3");
    assert_eq!(Wayback::select_capture(&caps, Some(200)).unwrap().timestamp, "4");
    assert_eq!(Wayback::select_capture(&caps, Some(50)).unwrap().timestamp, "1");
}

#[test]
fn stream_timestamp_from_url() {
    assert_eq!(
        Wayback::stream_timestamp(
            "https://web.archive.org/web/20111027231107oe_/http://o-o.preferred..../videoplayback"
        ),
        Some("20111027231107".into())
    );
    assert_eq!(
        Wayback::stream_timestamp("https://web.archive.org/web/2oe_/http://a/yt/x"),
        None
    );
}

#[test]
fn pin_date_replaces_snapshot_token() {
    assert_eq!(
        Wayback::pin_date(
            "https://web.archive.org/web/20111027231107oe_/http://a/videoplayback?itag=5",
            "20250228024155"
        )
        .unwrap(),
        "https://web.archive.org/web/20250228024155oe_/http://a/videoplayback?itag=5"
    );
    assert_eq!(
        Wayback::pin_date(
            "https://web.archive.org/web/2oe_/http://a/videoplayback",
            "20241125121251"
        )
        .unwrap(),
        "https://web.archive.org/web/20241125121251oe_/http://a/videoplayback"
    );
    assert_eq!(
        Wayback::pin_date(
            "https://web.archive.org/web/20230520013354/https://www.youtube.com/live/S2dvG697FQo",
            "20241125121251"
        )
        .unwrap(),
        "https://web.archive.org/web/20241125121251/https://www.youtube.com/live/S2dvG697FQo"
    );
    assert!(Wayback::pin_date("https://youtu.be/abc", "20240101000000").is_err());
}

#[test]
fn pin_date_error_text() {
    let err = Wayback::pin_date("https://youtu.be/abc", "20240101000000").unwrap_err();
    assert_eq!(
        err.message(),
        "cannot pin a snapshot date on \"https://youtu.be/abc\": not a web.archive.org URL"
    );
}

fn row(ts: &str, status: &str, mime: &str, len: &str) -> (String, String, String, String) {
    (ts.into(), status.into(), mime.into(), len.into())
}

#[test]
fn media_rows_are_filtered_and_sorted() {
    let rows = vec![
        row("20200101000000", "200", "video/mp4", "500"),
        row("20100101000000", "200", "application/json", "20"),
        row("20150101000000", "200", "video/webm", "nan"),
        row("20120101000000", "200", "video/webm", "+300"),
        row("20120101000000", "200", "video/x-flv", "700"),
    ];
    let caps = media_captures_from_rows(&rows);
    let got: Vec<(&str, u64)> = caps.iter().map(|c| (c.timestamp.as_str(), c.length)).collect();
    assert_eq!(
        got,
        vec![("20120101000000", 300), ("20120101000000", 700), ("20200101000000", 500)]
    );
    assert_eq!(caps[1].mimetype, "video/x-flv");
}

#[test]
fn snapshots_keep_first_of_each_timestamp() {
    let rows = vec![
        row("20240101000000", "200", "text/html", "10"),
        row("20100101000000", "200", "text/html", "11"),
        row("20240101000000", "200", "video/mp4", "12"),
    ];
    let snaps = snapshots_from_rows(&rows);
    assert_eq!(snaps.len(), 2);
    assert_eq!(snaps[0].timestamp, "20100101000000");
    assert_eq!(snaps[1].timestamp, "20240101000000");
    assert_eq!(snaps[1].mimetype, "text/html");
}

#[test]
fn retries_stop_at_the_limit() {
    let wb = Wayback::new(2, 10);
    assert_eq!(wb.retry_decision(0, AttemptOutcome::Answered(200)), RetryDecision::Accept);
    assert_eq!(wb.retry_decision(0, AttemptOutcome::Refused(404)), RetryDecision::Fail(404));
    assert_eq!(wb.retry_decision(0, AttemptOutcome::Refused(503)), RetryDecision::Retry);
    assert_eq!(wb.retry_decision(1, AttemptOutcome::Answered(429)), RetryDecision::Retry);
    assert_eq!(wb.retry_decision(2, AttemptOutcome::Unreachable), RetryDecision::GiveUp);
    assert!(wb.media_index_settled(1, 0));
    assert!(!wb.media_index_settled(0, 1));
    assert!(wb.media_index_settled(0, 2));
}

#[test]
fn request_urls() {
    assert_eq!(
        stream_request_url("C1hjsVLcGFc", None),
        "https://web.archive.org/web/2oe_/http://wayback-fakeurl.archive.org/yt/C1hjsVLcGFc"
    );
    assert_eq!(
        archived_page_url("C1hjsVLcGFc", Some("20241125121251"), None),
        "https://web.archive.org/web/20241125121251if_/https://www.youtube.com/watch?v=C1hjsVLcGFc"
    );
    assert_eq!(
        archived_page_url("x", None, Some("https://www.youtube.com/live/S2dvG697FQo")),
        "https://web.archive.org/web/2if_/https://www.youtube.com/live/S2dvG697FQo"
    );
    assert_eq!(watch_page_keys("ID")[3], "youtube.com/live/ID");
}

#[test]
fn a_request_is_tried_at_most_retries_plus_one_times() {
    let wb = Wayback::new(3, 10);
    let mut attempts = 0u32;
    loop {
        let decision = wb.retry_decision(attempts, AttemptOutcome::Unreachable);
        attempts += 1;
        if decision != RetryDecision::Retry {
            assert_eq!(decision, RetryDecision::GiveUp);
            break;
        }
    }
    assert_eq!(attempts, 4);
}

#[test]
fn snapshot_comes_from_the_stream_then_the_pinned_date() {
    assert_eq!(
        Wayback::resolved_snapshot("https://web.archive.org/web/20111027231107oe_/http://a/x", Some("20240101000000"))
            .as_deref(),
        Some("20111027231107")
    );
    assert_eq!(
        Wayback::resolved_snapshot("https://r1.example/videoplayback", Some("20240101000000")).as_deref(),
        Some("20240101000000")
    );
    assert_eq!(Wayback::resolved_snapshot("https://r1.example/videoplayback", None), None);
}

#[test]
fn size_cap_is_inclusive() {
    let c = cap("20240101000000", 300);
    assert!(Wayback::fits_cap(&c, None));
    assert!(Wayback::fits_cap(&c, Some(300)));
    assert!(!Wayback::fits_cap(&c, Some(299)));
}

#[test]
fn every_timestamp_is_listed_once() {
    let mut rows = Vec::new();
    for batch in 0..4 {
        for ts in ["20240101000000", "20100101000000", "20170707070707"] {
            rows.push(row(ts, "200", "text/html", &format!("{batch}")));
        }
    }
    rows.push(row("20000101000000", "200", "text/html", "9"));
    let snaps = snapshots_from_rows(&rows);
    let stamps: Vec<&str> = snaps.iter().map(|s| s.timestamp.as_str()).collect();
    assert_eq!(stamps, vec!["20000101000000", "20100101000000", "20170707070707", "20240101000000"]);
    assert!(snaps.iter().all(|s| s.length == "0" || s.timestamp == "20000101000000"));
}
