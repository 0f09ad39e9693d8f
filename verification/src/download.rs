//! What the media download decides: the file extension of a stream, whether
//! the archive answered with a page instead of media, and where a resumed
//! download starts.

use std::path::PathBuf;
use vstd::prelude::*;
use crate::formats::{ext_for_mime, ext_from_content_type, from_itag, itag_format, itag_from_url, itag_param, mime_essence};
use crate::text::{chars_of, contains_seq, contains_str, push_str, starts_with, starts_with_seq};

verus! {

/// `std::path::PathBuf`, carried through as an opaque value.
#[verifier::external_type_specification]
#[verifier::external_body]
pub struct ExPathBuf(PathBuf);

/// Outcome of a successful media download.
#[derive(Debug)]
pub struct DownloadResult {
    /// Absolute path of the saved file.
    pub path: PathBuf,
    /// File extension, e.g. `webm`.
    pub ext: String,
    /// Byte count written on this run (not counting resumed bytes).
    pub bytes_written: u64,
    /// Bytes already present in the resumed `.part` file.
    pub bytes_resumed: u64,
    /// Total bytes on disk after completion.
    pub bytes_total: u64,
    /// `Content-Type` the archive reported.
    pub content_type: String,
    /// `itag` detected from the stream URL, if any.
    pub itag: Option<String>,
}

/// The itag of a stream URL and the extension its file gets: the itag
/// table's extension when the itag is known, else the one the content type
/// names, else `bin`.
pub open spec fn infer_ext_spec(url: Seq<char>, content_type: Seq<char>) -> (Option<Seq<char>>, Seq<char>) {
    let itag = itag_param(url);
    let known = match itag {
        Some(t) => itag_format(t),
        None => None,
    };
    let ext = match known {
        Some(f) => f.ext@,
        None => match ext_for_mime(mime_essence(content_type)) {
            Some(e) => e@,
            None => "bin"@,
        },
    };
    (itag, ext)
}

/// The itag and file extension of a stream.
pub fn infer_ext(url: &str, content_type: &str) -> (res: (Option<String>, String))
    ensures
        (res.0.deep_view(), res.1@) == infer_ext_spec(url@, content_type@),
{
    let itag = itag_from_url(url);
    let known = match &itag {
        Some(t) => from_itag(t.as_str()),
        None => None,
    };
    let ext = match known {
        Some(f) => f.ext.to_owned(),
        None => match ext_from_content_type(content_type) {
            Some(e) => e.to_owned(),
            None => "bin".to_owned(),
        },
    };
    (itag, ext)
}

/// A content type that is a page, not media: anything naming `html`, any
/// `text/` type, or none at all.
pub open spec fn is_html_spec(ct: Seq<char>) -> bool {
    contains_seq(ct, "html"@) || starts_with_seq(ct, "text/"@) || ct.len() == 0
}

/// Whether a content type denotes a page rather than media.
pub fn is_html(ct: &str) -> (res: bool)
    ensures
        res == is_html_spec(ct@),
{
    let cs = chars_of(ct);
    let text = chars_of("text/");
    contains_str(&cs, "html") || starts_with(&cs, &text) || cs.len() == 0
}

/// Where the written file starts after the archive answered a request that
/// asked to resume at `resumed`: a partial answer (HTTP 206) continues the
/// existing bytes; any other answer starts over.
pub fn resume_offset(status: u16, resumed: u64) -> (res: u64)
    ensures
        res == (if status == 206 { resumed } else { 0 }),
{
    if status == 206 {
        resumed
    } else {
        0
    }
}

/// The archive answered the media request with a page or a 404 instead of
/// the stream.
pub fn stream_refused(content_type: &str, status: u16) -> (res: bool)
    ensures
        res == (is_html_spec(content_type@) || status == 404),
{
    is_html(content_type) || status == 404
}

/// `<base>.download.part`: the file that holds a download in flight.
pub fn part_file_name(base_name: &str) -> (res: String)
    ensures
        res@ == base_name@ + ".download.part"@,
{
    let mut s = base_name.to_owned();
    push_str(&mut s, ".download.part");
    s
}

/// `<base>.<ext>`: the finished file.
pub fn final_file_name(base_name: &str, ext: &str) -> (res: String)
    ensures
        res@ == base_name@ + "."@ + ext@,
{
    let mut s = base_name.to_owned();
    push_str(&mut s, ".");
    push_str(&mut s, ext);
    s
}

/// The size a progress bar counts to: the bytes still to come plus those
/// already on disk, when the archive said how many are to come.
pub fn progress_total(to_come: Option<u64>, start_from: u64) -> (res: Option<u64>)
    requires
        to_come matches Some(t) ==> t + start_from <= u64::MAX,
    ensures
        res == (match to_come {
            Some(t) => Some((t + start_from) as u64),
            None => None,
        }),
{
    match to_come {
        Some(t) => Some(t + start_from),
        None => None,
    }
}

impl DownloadResult {
    /// A finished download: `written` bytes were added this run to the
    /// `start_from` bytes already on disk.
    pub fn completed(
        path: PathBuf,
        ext: String,
        start_from: u64,
        written: u64,
        content_type: String,
        itag: Option<String>,
    ) -> (res: Self)
        requires
            start_from + written <= u64::MAX,
        ensures
            res.ext == ext,
            res.bytes_written == written,
            res.bytes_resumed == start_from,
            res.bytes_total == start_from + written,
            res.content_type == content_type,
            res.itag == itag,
    {
        DownloadResult {
            path,
            ext,
            bytes_written: written,
            bytes_resumed: start_from,
            bytes_total: start_from + written,
            content_type,
            itag,
        }
    }

    /// A file that was already complete on disk, `size` bytes long: nothing
    /// is written and all of it counts as resumed.
    pub fn already_present(
        path: PathBuf,
        ext: String,
        size: u64,
        content_type: String,
        itag: Option<String>,
    ) -> (res: Self)
        ensures
            res.ext == ext,
            res.bytes_written == 0,
            res.bytes_resumed == size,
            res.bytes_total == size,
            res.content_type == content_type,
            res.itag == itag,
    {
        DownloadResult { path, ext, bytes_written: 0, bytes_resumed: size, bytes_total: size, content_type, itag }
    }
}

} // verus!
