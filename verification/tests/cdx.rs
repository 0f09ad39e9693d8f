use ytb_wayback::cdx::{count_kinds, pretty_ts};
use ytb_wayback::wayback::Snapshot;

#[test]
fn timestamps() {
    assert_eq!(pretty_ts("20241125121251"), "2024-11-25 12:12:51");
    assert_eq!(pretty_ts("junk"), "junk");
}

#[test]
fn non_ascii_fourteen_bytes_are_cut_by_bytes() {
    assert_eq!(pretty_ts("ééééééé"), "éé-é-é é:é:é");
    assert_eq!(pretty_ts("2024112512125"), "2024112512125");
}

fn snap(mime: &str) -> Snapshot {
    Snapshot {
        timestamp: "20240101000000".into(),
        statuscode: "200".into(),
        mimetype: mime.into(),
        length: "1".into(),
    }
}

#[test]
fn kinds_are_counted() {
    let snaps = vec![snap("text/html"), snap("video/mp4"), snap("warc/revisit"), snap("text/html")];
    assert_eq!(count_kinds(&snaps), (2, 1));
}
