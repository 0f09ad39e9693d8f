//! What a download is called and how it is described: the title to use, the
//! output file's base name, the video ID of a direct media link, and what a
//! stream's format says about its audio.

use vstd::prelude::*;
use crate::formats::{FormatInfo, from_itag, itag_format};
use crate::html::{VideoMetadata, sanitize_filename, sanitize_spec};
use crate::pattern::{first_group, group_of, regex_first_match};
use crate::text::{chars_of, push_str, str_eq, trim, trim_chars};

verus! {

/// The `video_id` parameter of a `videoplayback` link.
pub const MEDIA_VIDEO_ID_PATTERN: &'static str = r"[?&]video_id=([0-9A-Za-z_\-]{11})";

/// The title to use: the page's, unless missing or blank, else the ID.
pub open spec fn fallback_title_spec(title: Option<Seq<char>>, id: Seq<char>) -> Seq<char> {
    match title {
        Some(t) => if trim(t).len() > 0 {
            t
        } else {
            id
        },
        None => id,
    }
}

/// The title to use for a download.
pub fn fallback_title(meta: &VideoMetadata, id: &str) -> (res: String)
    ensures
        res@ == fallback_title_spec(meta@.title, id@),
{
    match &meta.title {
        Some(t) => {
            if trim_chars(&chars_of(t.as_str())).len() > 0 {
                t.clone()
            } else {
                id.to_owned()
            }
        },
        None => id.to_owned(),
    }
}

/// The 11-char video ID embedded in a `videoplayback` link, if any.
pub fn media_video_id(url: &str) -> (res: Option<String>)
    ensures
        res.deep_view() == group_of(regex_first_match(MEDIA_VIDEO_ID_PATTERN@, url@), 1),
{
    first_group(MEDIA_VIDEO_ID_PATTERN, url, 1)
}

/// The file name, without extension, of a download: `<title> (<id>)`,
/// made filesystem-safe.
pub fn output_base_name(title: &str, id: &str) -> (res: String)
    ensures
        res@ == sanitize_spec(title@ + " ("@ + id@ + ")"@),
{
    let mut name = title.to_owned();
    push_str(&mut name, " (");
    push_str(&mut name, id);
    push_str(&mut name, ")");
    sanitize_filename(name.as_str())
}

/// Whether a stream carries audio: unknown formats are assumed to; known
/// ones carry audio unless their audio codec is `none`.
pub open spec fn has_audio_spec(itag: Option<Seq<char>>) -> bool {
    match itag {
        Some(t) => match itag_format(t) {
            Some(f) => f.acodec@ != "none"@,
            None => true,
        },
        None => true,
    }
}

/// Whether a stream with this itag carries audio.
pub fn has_audio(itag: Option<&str>) -> (res: bool)
    ensures
        res == has_audio_spec(crate::video_id::opt_str_view(itag)),
{
    match itag {
        Some(t) => match from_itag(t) {
            Some(f) => !str_eq(f.acodec, "none"),
            None => true,
        },
        None => true,
    }
}

/// How a format's tracks are described: `video-only, no audio track`, or
/// `video+audio (<vcodec>/<acodec>)`.
pub open spec fn tracks_note_spec(f: FormatInfo) -> Seq<char> {
    if f.acodec@ == "none"@ {
        "video-only, no audio track"@
    } else {
        "video+audio ("@ + f.vcodec@ + "/"@ + f.acodec@ + ")"@
    }
}

/// How a format's tracks are described.
pub fn tracks_note(f: FormatInfo) -> (res: String)
    ensures
        res@ == tracks_note_spec(f),
{
    if str_eq(f.acodec, "none") {
        String::from_str("video-only, no audio track")
    } else {
        let mut s = String::from_str("video+audio (");
        push_str(&mut s, f.vcodec);
        push_str(&mut s, "/");
        push_str(&mut s, f.acodec);
        push_str(&mut s, ")");
        s
    }
}

} // verus!
