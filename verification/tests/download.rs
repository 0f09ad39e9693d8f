use std::path::PathBuf;
use ytb_wayback::download::{
    final_file_name, infer_ext, is_html, part_file_name, progress_total, resume_offset, stream_refused,
    DownloadResult,
};

#[test]
fn ext_inference() {
    assert_eq!(infer_ext("https://x/videoplayback?itag=45", "video/webm").1, "webm");
    assert_eq!(infer_ext("https://x/videoplayback?itag=22", "video/webm").1, "mp4");
    assert_eq!(infer_ext("https://x/videoplayback", "video/mp4").1, "mp4");
    assert_eq!(infer_ext("https://x/videoplayback", "text/html").1, "bin");
    assert_eq!(
        infer_ext("https://x/videoplayback?itag=45", "video/webm").0.as_deref(),
        Some("45")
    );
}

#[test]
fn html_detection() {
    assert!(is_html("text/html; charset=utf-8"));
    assert!(is_html("application/xhtml+xml"));
    assert!(is_html(""));
    assert!(!is_html("video/webm"));
    assert!(!is_html("video/mp4"));
}

#[test]
fn unknown_itag_falls_back_to_content_type() {
    let (itag, ext) = infer_ext("https://x/videoplayback?itag=999", "video/3gpp");
    assert_eq!(itag.as_deref(), Some("999"));
    assert_eq!(ext, "3gp");
}

#[test]
fn resume_only_on_partial_content() {
    assert_eq!(resume_offset(206, 1000), 1000);
    assert_eq!(resume_offset(200, 1000), 0);
    assert_eq!(resume_offset(206, 0), 0);
}

#[test]
fn part_file_names() {
    assert_eq!(part_file_name("My Video (C1hjsVLcGFc)"), "My Video (C1hjsVLcGFc).download.part");
    assert_eq!(final_file_name("My Video (C1hjsVLcGFc)", "webm"), "My Video (C1hjsVLcGFc).webm");
    let p = PathBuf::from("/tmp").join(part_file_name("My Video (C1hjsVLcGFc)"));
    assert_eq!(p.file_name().unwrap(), "My Video (C1hjsVLcGFc).download.part");
}

#[test]
fn refused_streams() {
    assert!(stream_refused("text/html; charset=utf-8", 200));
    assert!(stream_refused("video/webm", 404));
    assert!(stream_refused("", 206));
    assert!(!stream_refused("video/webm", 206));
}

#[test]
fn progress_counts_resumed_bytes() {
    assert_eq!(progress_total(Some(500), 1000), Some(1500));
    assert_eq!(progress_total(None, 1000), None);
}

#[test]
fn download_totals() {
    let done = DownloadResult::completed(
        PathBuf::from("/tmp/x.webm"),
        "webm".to_string(),
        1000,
        234,
        "video/webm".to_string(),
        Some("45".to_string()),
    );
    assert_eq!(done.bytes_total, 1234);
    assert_eq!(done.bytes_resumed, 1000);
    assert_eq!(done.bytes_written, 234);
    let present = DownloadResult::already_present(
        PathBuf::from("/tmp/x.webm"),
        "webm".to_string(),
        777,
        "video/webm".to_string(),
        None,
    );
    assert_eq!(present.bytes_written, 0);
    assert_eq!(present.bytes_resumed, 777);
    assert_eq!(present.bytes_total, 777);
}
