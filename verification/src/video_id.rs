//! Extract a YouTube video ID (and optional Wayback snapshot date) from a
//! messy set of user-provided inputs.

use vstd::prelude::*;
use vstd::utf8::{encode_scalar, encode_utf8};
use crate::pattern::{first_group, group_of, regex_first_match};
use crate::text::{
    chars_of, contains_seq, contains_str, debug_quoted, debug_str, push_str, lower_seq, string_from, string_from_utf8_lossy,
    to_ascii_lower, trim, trim_chars, utf8_lossy,
};

verus! {

/// The Wayback internal media index: `wayback-fakeurl.archive.org/yt/<id>`.
pub const FAKEURL_ID_PATTERN: &'static str = r"wayback-fakeurl\.archive\.org/yt/([0-9A-Za-z_\-]{11})";

/// The classic query form (also `watch.php` and extra parameters).
pub const QUERY_ID_PATTERN: &'static str = r"[?&]v=([0-9A-Za-z_\-]{11})";

/// `youtu.be` short links.
pub const SHORT_LINK_ID_PATTERN: &'static str = r"youtu\.be/([0-9A-Za-z_\-]{11})";

/// Embed / playlist-item / live-broadcast / watch paths.
pub const PATH_ID_PATTERN: &'static str = r"/(?:embed|v|shorts|live|watch)/([0-9A-Za-z_\-]{11})";

/// Percent-encoded `v%3D<id>` forms.
pub const ENCODED_ID_PATTERN: &'static str = r"v%3[dD]([0-9A-Za-z_\-]{11})";

/// The snapshot timestamp (`YYYYMMDDhhmmss`) of an archived URL.
pub const DATE_PATTERN: &'static str = r"(?:web\.archive\.org|archive\.org)/web/(\d{14})";

/// The inner URL of an archived link (`.../web/<timestamp>[<flags>]/<inner-url>`).
pub const INNER_PATTERN: &'static str =
    r"(?:web\.archive\.org|archive\.org)/web/[0-9A-Za-z_*]+[0-9A-Za-z_*]*/(https?://.*)";

/// What the user handed us, classified by the shape of the link.
#[derive(Debug, Clone, PartialEq, Eq)]
pub enum VideoInput {
    /// A video identified by its 11-char ID (watch / live / shorts / embed
    /// page), plus the optional Wayback snapshot timestamp and — when the
    /// input was an archived page — the exact inner URL the user linked.
    Video { id: String, date: Option<String>, inner: Option<String> },
    /// A raw archived media link (the archive player's `oe_` `videoplayback`
    /// URL, or any other archived file URL with no resolvable video ID). The
    /// exact URL is downloaded as-is.
    Media { url: String, date: Option<String> },
}

/// A [`VideoInput`] with its texts as character sequences.
pub enum VideoInputView {
    Video { id: Seq<char>, date: Option<Seq<char>>, inner: Option<Seq<char>> },
    Media { url: Seq<char>, date: Option<Seq<char>> },
}

impl View for VideoInput {
    type V = VideoInputView;

    open spec fn view(&self) -> VideoInputView {
        match self {
            VideoInput::Video { id, date, inner } => VideoInputView::Video {
                id: id@,
                date: date.deep_view(),
                inner: inner.deep_view(),
            },
            VideoInput::Media { url, date } => VideoInputView::Media {
                url: url@,
                date: date.deep_view(),
            },
        }
    }
}

/// Why an input is not accepted.
#[derive(Debug, Clone, PartialEq, Eq)]
pub enum ParseError {
    /// Nothing but whitespace was given.
    Empty,
    /// An archived YouTube channel, playlist, search or feed page.
    NotSingleVideo,
    /// No video ID and no archived media link in the (trimmed) input.
    NoVideoId { input: String },
}

/// A [`ParseError`] with its text as a character sequence.
pub enum ParseErrorView {
    Empty,
    NotSingleVideo,
    NoVideoId { input: Seq<char> },
}

impl View for ParseError {
    type V = ParseErrorView;

    open spec fn view(&self) -> ParseErrorView {
        match self {
            ParseError::Empty => ParseErrorView::Empty,
            ParseError::NotSingleVideo => ParseErrorView::NotSingleVideo,
            ParseError::NoVideoId { input } => ParseErrorView::NoVideoId { input: input@ },
        }
    }
}

/// The text of a refusal, as the command line reports it.
pub open spec fn parse_error_message(e: ParseErrorView) -> Seq<char> {
    match e {
        ParseErrorView::Empty => "empty input"@,
        ParseErrorView::NotSingleVideo => "that looks like a YouTube channel/playlist/search page, not a single video.\nhint: pass a watch/live/shorts/embed URL or an 11-char video ID"@,
        ParseErrorView::NoVideoId { input } => "could not find a YouTube video ID in: "@
            + debug_quoted(input)
            + "\nexpected a video ID, a youtube.com/youtu.be URL, an archived media link, or a web.archive.org watch/live URL"@,
    }
}

impl ParseError {
    /// The text of the refusal.
    pub fn message(&self) -> (res: String)
        ensures
            res@ == parse_error_message(self@),
    {
        match self {
            ParseError::Empty => String::from_str("empty input"),
            ParseError::NotSingleVideo => String::from_str(
                "that looks like a YouTube channel/playlist/search page, not a single video.\nhint: pass a watch/live/shorts/embed URL or an 11-char video ID",
            ),
            ParseError::NoVideoId { input } => {
                let mut m = String::from_str("could not find a YouTube video ID in: ");
                let q = debug_str(input.as_str());
                push_str(&mut m, q.as_str());
                push_str(
                    &mut m,
                    "\nexpected a video ID, a youtube.com/youtu.be URL, an archived media link, or a web.archive.org watch/live URL",
                );
                m
            },
        }
    }
}

/// The view of an optional borrowed text.
pub open spec fn opt_str_view(o: Option<&str>) -> Option<Seq<char>> {
    match o {
        Some(s) => Some(s@),
        None => None,
    }
}

/// The date field of an input.
pub open spec fn input_date(v: VideoInputView) -> Option<Seq<char>> {
    match v {
        VideoInputView::Video { date, .. } => date,
        VideoInputView::Media { date, .. } => date,
    }
}

/// The inner URL of an input (a media link has none).
pub open spec fn input_inner(v: VideoInputView) -> Option<Seq<char>> {
    match v {
        VideoInputView::Video { inner, .. } => inner,
        VideoInputView::Media { .. } => None,
    }
}

impl VideoInput {
    /// The Wayback snapshot timestamp lifted from an archived URL, if any.
    pub fn date(&self) -> (res: Option<&str>)
        ensures
            opt_str_view(res) == input_date(self@),
    {
        let d = match self {
            VideoInput::Video { date, .. } => date,
            VideoInput::Media { date, .. } => date,
        };
        match d {
            Some(s) => Some(s.as_str()),
            None => None,
        }
    }

    /// The exact inner (non-archive) URL the user linked, when available.
    pub fn inner(&self) -> (res: Option<&str>)
        ensures
            opt_str_view(res) == input_inner(self@),
    {
        match self {
            VideoInput::Video { inner, .. } => match inner {
                Some(s) => Some(s.as_str()),
                None => None,
            },
            VideoInput::Media { .. } => None,
        }
    }
}

/// A character allowed in a YouTube video ID.
pub open spec fn is_id_char(c: char) -> bool {
    ('0' <= c && c <= '9') || ('a' <= c && c <= 'z') || ('A' <= c && c <= 'Z') || c == '-' || c
        == '_'
}

/// Exactly an 11-char YouTube video ID. (Checking eleven bytes, as the
/// character test only admits ASCII, is the same as checking eleven
/// characters.)
pub open spec fn is_bare_id_spec(s: Seq<char>) -> bool {
    s.len() == 11 && forall|i: int| 0 <= i < 11 ==> is_id_char(#[trigger] s[i])
}

/// Match exactly an 11-char YouTube video ID.
fn is_bare_id_chars(cs: &Vec<char>) -> (res: bool)
    ensures
        res == is_bare_id_spec(cs@),
{
    if cs.len() != 11 {
        return false;
    }
    let mut i: usize = 0;
    while i < 11
        invariant
            cs@.len() == 11,
            i <= 11,
            forall|j: int| 0 <= j < i ==> is_id_char(#[trigger] cs@[j]),
        decreases 11 - i,
    {
        let c = cs[i];
        if !(('0' <= c && c <= '9') || ('a' <= c && c <= 'z') || ('A' <= c && c <= 'Z') || c == '-'
            || c == '_') {
            return false;
        }
        i += 1;
    }
    true
}

/// Match exactly an 11-char YouTube video ID.
pub fn is_bare_id(s: &str) -> (res: bool)
    ensures
        res == is_bare_id_spec(s@),
{
    let cs = chars_of(s);
    is_bare_id_chars(&cs)
}

/// The value of an ASCII hexadecimal digit byte.
pub open spec fn hex_digit(b: u8) -> Option<u8> {
    if 0x30 <= b && b <= 0x39 {
        Some((b - 0x30) as u8)
    } else if 0x61 <= b && b <= 0x66 {
        Some((b - 0x61 + 10) as u8)
    } else if 0x41 <= b && b <= 0x46 {
        Some((b - 0x41 + 10) as u8)
    } else {
        None
    }
}

/// `%XX` escapes decoded to the byte they name, scanning left to right; a
/// `%` without two hex digits after it (or too close to the end) is kept.
/// `+` is left untouched.
pub open spec fn percent_decode_bytes(b: Seq<u8>) -> Seq<u8>
    decreases b.len(),
{
    if b.len() == 0 {
        b
    } else if b[0] == 0x25 && b.len() > 2 && hex_digit(b[1]) is Some && hex_digit(b[2]) is Some {
        seq![(hex_digit(b[1])->0 * 16 + hex_digit(b[2])->0) as u8] + percent_decode_bytes(
            b.skip(3),
        )
    } else {
        seq![b[0]] + percent_decode_bytes(b.drop_first())
    }
}

/// Percent-decoding of a text: its UTF-8 bytes decoded, then read back as
/// UTF-8 with invalid sequences replaced.
pub open spec fn percent_decode_spec(s: Seq<char>) -> Seq<char> {
    utf8_lossy(percent_decode_bytes(encode_utf8(s)))
}

/// No byte of the UTF-8 encoding of a scalar other than `%` is `%`: the
/// bytes of multi-byte encodings all have their high bit set.
proof fn lemma_encode_scalar_no_percent(v: u32)
    requires
        v != 0x25,
    ensures
        forall|i: int| 0 <= i < encode_scalar(v).len() ==> #[trigger] encode_scalar(v)[i] != 0x25u8,
{
    assert(v <= 0x7f && v != 0x25 ==> (v & 0x7F) as u8 != 0x25u8) by (bit_vector);
    assert((0xC0 | ((v >> 6) & 0x1F) as u8) != 0x25u8) by (bit_vector);
    assert((0xE0 | ((v >> 12) & 0x0F) as u8) != 0x25u8) by (bit_vector);
    assert((0xF0 | ((v >> 18) & 0x7) as u8) != 0x25u8) by (bit_vector);
    assert((0x80 | (v & 0x3F) as u8) != 0x25u8) by (bit_vector);
    assert((0x80 | ((v >> 6) & 0x3F) as u8) != 0x25u8) by (bit_vector);
    assert((0x80 | ((v >> 12) & 0x3F) as u8) != 0x25u8) by (bit_vector);
}

/// A text without `%` encodes to bytes without `%`.
proof fn lemma_encode_no_percent(s: Seq<char>)
    requires
        !s.contains('%'),
    ensures
        forall|i: int| 0 <= i < encode_utf8(s).len() ==> #[trigger] encode_utf8(s)[i] != 0x25u8,
    decreases s.len(),
{
    if s.len() > 0 {
        let t = s.drop_first();
        assert(!t.contains('%')) by {
            if t.contains('%') {
                let j = choose|j: int| 0 <= j < t.len() && t[j] == '%';
                assert(s[j + 1] == '%');
            }
        }
        lemma_encode_no_percent(t);
        assert(s[0] != '%');
        assert(s[0] as u32 != 0x25) by {
            vstd::utf8::char_u32_cast(s[0], s[0] as u32);
        }
        lemma_encode_scalar_no_percent(s[0] as u32);
        let a = encode_scalar(s[0] as u32);
        let b = encode_utf8(t);
        assert(encode_utf8(s) == a + b);
        assert forall|i: int| 0 <= i < encode_utf8(s).len() implies #[trigger] encode_utf8(s)[i] != 0x25u8 by {
            if i < a.len() {
                assert(encode_utf8(s)[i] == a[i]);
            } else {
                assert(encode_utf8(s)[i] == b[i - a.len()]);
            }
        }
    }
}

/// Bytes without `%` hold no escape and decode to themselves.
proof fn lemma_percent_decode_identity(b: Seq<u8>)
    requires
        forall|i: int| 0 <= i < b.len() ==> #[trigger] b[i] != 0x25u8,
    ensures
        percent_decode_bytes(b) == b,
    decreases b.len(),
{
    if b.len() > 0 {
        let t = b.drop_first();
        assert forall|i: int| 0 <= i < t.len() implies #[trigger] t[i] != 0x25u8 by {
            assert(t[i] == b[i + 1]);
        }
        lemma_percent_decode_identity(t);
        assert(b[0] != 0x25u8);
        assert(seq![b[0]] + t =~= b);
    }
}

/// The value of an ASCII hexadecimal digit.
fn hex_val(b: u8) -> (res: Option<u8>)
    ensures
        res == hex_digit(b),
{
    if 0x30u8 <= b && b <= 0x39u8 {
        Some(b - 0x30u8)
    } else if 0x61u8 <= b && b <= 0x66u8 {
        Some(b - 0x61u8 + 10)
    } else if 0x41u8 <= b && b <= 0x46u8 {
        Some(b - 0x41u8 + 10)
    } else {
        None
    }
}

/// Percent-decode a byte string (`%XX`), leaving `+` untouched.
pub fn percent_decode(s: &str) -> (res: String)
    ensures
        res@ == percent_decode_spec(s@),
        !s@.contains('%') ==> res@ == s@,
{
    let bytes = s.as_bytes();
    let mut out: Vec<u8> = Vec::new();
    let mut i: usize = 0;
    assert(bytes@.skip(0) =~= bytes@);
    while i < bytes.len()
        invariant
            i <= bytes@.len(),
            bytes@ == encode_utf8(s@),
            out@ + percent_decode_bytes(bytes@.skip(i as int)) == percent_decode_bytes(bytes@),
        decreases bytes@.len() - i,
    {
        let ghost rest = bytes@.skip(i as int);
        if bytes[i] == 0x25u8 && bytes.len() > 2 && i < bytes.len() - 2 {
            let hi = hex_val(bytes[i + 1]);
            let lo = hex_val(bytes[i + 2]);
            if let (Some(h), Some(l)) = (hi, lo) {
                let v = (h << 4) | l;
                assert(v == h * 16 + l) by (bit_vector)
                    requires
                        h < 16,
                        l < 16,
                        v == (h << 4) | l,
                ;
                assert(rest[0] == bytes@[i as int] && rest[1] == bytes@[i + 1] && rest[2]
                    == bytes@[i + 2]);
                assert(rest.skip(3) =~= bytes@.skip(i + 3));
                out.push(v);
                i += 3;
                assert(out@ + percent_decode_bytes(bytes@.skip(i as int)) =~= percent_decode_bytes(
                    bytes@,
                ));
                continue;
            }
        }
        assert(rest[0] == bytes@[i as int]);
        assert(rest.drop_first() =~= bytes@.skip(i + 1));
        out.push(bytes[i]);
        i += 1;
        assert(out@ + percent_decode_bytes(bytes@.skip(i as int)) =~= percent_decode_bytes(
            bytes@,
        ));
    }
    assert(bytes@.skip(i as int) =~= Seq::<u8>::empty());
    assert(out@ =~= percent_decode_bytes(bytes@));
    let res = string_from_utf8_lossy(out.as_slice());
    proof {
        if !s@.contains('%') {
            lemma_encode_no_percent(s@);
            lemma_percent_decode_identity(bytes@);
            vstd::utf8::encode_utf8_valid_utf8(s@);
            vstd::utf8::encode_utf8_decode_utf8(s@);
        }
    }
    res
}

/// The archived URL is a YouTube page that can never hold a single file
/// (channel / user / playlist / search / feed).
pub open spec fn looks_non_video_spec(s: Seq<char>) -> bool {
    let l = lower_seq(s);
    contains_seq(l, "youtube.com/channel"@) || contains_seq(l, "youtube.com/user"@)
        || contains_seq(l, "youtube.com/c/"@) || contains_seq(l, "youtube.com/playlist"@)
        || contains_seq(l, "youtube.com/@"@) || contains_seq(l, "youtube.com/results"@)
        || contains_seq(l, "youtube.com/feed"@) || contains_seq(l, "youtube.com/gaming"@)
        || contains_seq(l, "youtube.com/live_chat"@) || contains_seq(l, "?list="@)
}

/// The archived URL is itself a stored media file rather than a page.
pub open spec fn is_media_like_spec(s: Seq<char>) -> bool {
    let l = lower_seq(s);
    contains_seq(l, "oe_"@) || contains_seq(l, "videoplayback"@) || contains_seq(l, "googlevideo"@)
        || contains_seq(l, ".c.youtube.com"@) || contains_seq(l, "o-o.preferred"@)
}

/// ASCII lower-casing of a character sequence.
fn lower_chars(cs: &Vec<char>) -> (res: Vec<char>)
    ensures
        res@ == lower_seq(cs@),
{
    let mut res: Vec<char> = Vec::new();
    let mut i: usize = 0;
    while i < cs.len()
        invariant
            i <= cs@.len(),
            res@ == lower_seq(cs@.take(i as int)),
        decreases cs@.len() - i,
    {
        res.push(to_ascii_lower(cs[i]));
        i += 1;
        assert(res@ =~= lower_seq(cs@.take(i as int)));
    }
    assert(cs@.take(i as int) =~= cs@);
    res
}

/// Honestly note when an archived URL is a YouTube page that can never hold a
/// single file (channel / user / playlist / search / feed).
fn looks_like_youtube_non_video(s: &str) -> (res: bool)
    ensures
        res == looks_non_video_spec(s@),
{
    let cs = chars_of(s);
    let l = lower_chars(&cs);
    contains_str(&l, "youtube.com/channel") || contains_str(&l, "youtube.com/user")
        || contains_str(&l, "youtube.com/c/") || contains_str(&l, "youtube.com/playlist")
        || contains_str(&l, "youtube.com/@") || contains_str(&l, "youtube.com/results")
        || contains_str(&l, "youtube.com/feed") || contains_str(&l, "youtube.com/gaming")
        || contains_str(&l, "youtube.com/live_chat") || contains_str(&l, "?list=")
}

/// Whether an archived URL is itself a stored media file (as opposed to a
/// page). The archive player's "Copy video address" links are `oe_` replay
/// URLs of `videoplayback` streams.
fn is_media_like(s: &str) -> (res: bool)
    ensures
        res == is_media_like_spec(s@),
{
    let cs = chars_of(s);
    let l = lower_chars(&cs);
    contains_str(&l, "oe_") || contains_str(&l, "videoplayback") || contains_str(
        &l,
        "googlevideo",
    ) || contains_str(&l, ".c.youtube.com") || contains_str(&l, "o-o.preferred")
}

/// Group 1 of the first match of `pattern` in `s`.
pub open spec fn capture1(pattern: Seq<char>, s: Seq<char>) -> Option<Seq<char>> {
    group_of(regex_first_match(pattern, s), 1)
}

/// The video ID found by the first of the ID patterns that matches, else the
/// whole text when it is a bare ID.
pub open spec fn extract_id_spec(s: Seq<char>) -> Option<Seq<char>> {
    if capture1(FAKEURL_ID_PATTERN@, s) is Some {
        capture1(FAKEURL_ID_PATTERN@, s)
    } else if capture1(QUERY_ID_PATTERN@, s) is Some {
        capture1(QUERY_ID_PATTERN@, s)
    } else if capture1(SHORT_LINK_ID_PATTERN@, s) is Some {
        capture1(SHORT_LINK_ID_PATTERN@, s)
    } else if capture1(PATH_ID_PATTERN@, s) is Some {
        capture1(PATH_ID_PATTERN@, s)
    } else if capture1(ENCODED_ID_PATTERN@, s) is Some {
        capture1(ENCODED_ID_PATTERN@, s)
    } else if is_bare_id_spec(s) {
        Some(s)
    } else {
        None
    }
}

/// Extract the snapshot timestamp (`YYYYMMDDhhmmss`) from an archived URL.
fn extract_date(s: &str) -> (res: Option<String>)
    ensures
        res.deep_view() == capture1(DATE_PATTERN@, s@),
{
    first_group(DATE_PATTERN, s, 1)
}

/// Extract the inner URL from an archived link
/// (`.../web/<timestamp>[<flags>]/<inner-url>`), if present.
fn extract_inner(s: &str) -> (res: Option<String>)
    ensures
        res.deep_view() == capture1(INNER_PATTERN@, s@),
{
    first_group(INNER_PATTERN, s, 1)
}

/// The YouTube video ID in a link or a bare ID.
fn extract_id(s: &str) -> (res: Option<String>)
    ensures
        res.deep_view() == extract_id_spec(s@),
{
    let g = first_group(FAKEURL_ID_PATTERN, s, 1);
    if g.is_some() {
        return g;
    }
    let g = first_group(QUERY_ID_PATTERN, s, 1);
    if g.is_some() {
        return g;
    }
    let g = first_group(SHORT_LINK_ID_PATTERN, s, 1);
    if g.is_some() {
        return g;
    }
    let g = first_group(PATH_ID_PATTERN, s, 1);
    if g.is_some() {
        return g;
    }
    let g = first_group(ENCODED_ID_PATTERN, s, 1);
    if g.is_some() {
        return g;
    }
    if is_bare_id(s) {
        return Some(s.to_owned());
    }
    None
}

/// How a trimmed, decoded input is classified once its date, inner URL and
/// video ID are known.
pub open spec fn classify_spec(
    raw: Seq<char>,
    decoded: Seq<char>,
    date: Option<Seq<char>>,
    inner: Option<Seq<char>>,
    id: Option<Seq<char>>,
) -> Result<VideoInputView, ParseErrorView> {
    match id {
        Some(id) => Ok(VideoInputView::Video { id, date, inner }),
        None => if inner is Some && looks_non_video_spec(decoded) {
            Err(ParseErrorView::NotSingleVideo)
        } else if inner is Some && is_media_like_spec(decoded) {
            Ok(VideoInputView::Media { url: decoded, date })
        } else {
            Err(ParseErrorView::NoVideoId { input: raw })
        },
    }
}

/// The view of a parse outcome.
pub open spec fn parse_result_view(r: Result<VideoInput, ParseError>) -> Result<
    VideoInputView,
    ParseErrorView,
> {
    match r {
        Ok(v) => Ok(v@),
        Err(e) => Err(e@),
    }
}

/// What [`parse`] makes of an input.
pub open spec fn parse_spec(input: Seq<char>) -> Result<VideoInputView, ParseErrorView> {
    let raw = trim(input);
    if raw.len() == 0 {
        Err(ParseErrorView::Empty)
    } else if is_bare_id_spec(raw) {
        Ok(VideoInputView::Video { id: raw, date: None, inner: None })
    } else {
        let decoded = percent_decode_spec(raw);
        classify_spec(
            raw,
            decoded,
            capture1(DATE_PATTERN@, decoded),
            capture1(INNER_PATTERN@, decoded),
            extract_id_spec(decoded),
        )
    }
}

/// Whitespace around an input does not change how it parses.
pub proof fn lemma_parse_ignores_surrounding_whitespace(input: Seq<char>)
    ensures
        parse_spec(trim(input)) == parse_spec(input),
{
    crate::text::lemma_trim_idempotent(input);
}

/// A bare video ID, with or without whitespace around it, is taken as that
/// video, with no snapshot date and no archived page.
pub proof fn lemma_bare_id_is_a_video(input: Seq<char>)
    requires
        is_bare_id_spec(trim(input)),
    ensures
        parse_spec(input) == Ok::<VideoInputView, ParseErrorView>(
            VideoInputView::Video { id: trim(input), date: None, inner: None },
        ),
{
}

/// Every text of exactly eleven ASCII letters, digits, `-` and `_` (the
/// alphabet of YouTube video IDs) is taken as the video with that ID, with
/// no snapshot date and no archived page.
pub proof fn lemma_every_id_shaped_text_is_that_video(s: Seq<char>)
    requires
        s.len() == 11,
        forall|i: int|
            0 <= i < 11 ==> {
                let c = #[trigger] s[i];
                ('0' <= c <= '9') || ('a' <= c <= 'z') || ('A' <= c <= 'Z') || c == '-' || c == '_'
            },
    ensures
        parse_spec(s) == Ok::<VideoInputView, ParseErrorView>(
            VideoInputView::Video { id: s, date: None, inner: None },
        ),
{
    assert(!crate::text::is_white_space(s[0]));
    assert(crate::text::trim_start(s) == s);
    assert(!crate::text::is_white_space(s.last()));
    assert(crate::text::trim_end(s) == s);
    assert(trim(s) == s);
    assert(is_bare_id_spec(s));
}

/// Classify a trimmed, percent-decoded input from its snapshot date, inner
/// URL and video ID: a video when there is an ID; otherwise an archived
/// channel/playlist/search page is refused, an archived media file is taken
/// as-is, and anything else has no video ID.
pub fn classify(
    raw: &str,
    decoded: String,
    date: Option<String>,
    inner: Option<String>,
    id: Option<String>,
) -> (res: Result<VideoInput, ParseError>)
    ensures
        parse_result_view(res) == classify_spec(
            raw@,
            decoded@,
            date.deep_view(),
            inner.deep_view(),
            id.deep_view(),
        ),
{
    if let Some(id) = id {
        return Ok(VideoInput::Video { id, date, inner });
    }
    if inner.is_some() {
        if looks_like_youtube_non_video(decoded.as_str()) {
            return Err(ParseError::NotSingleVideo);
        }
        if is_media_like(decoded.as_str()) {
            return Ok(VideoInput::Media { url: decoded, date });
        }
    }
    Err(ParseError::NoVideoId { input: raw.to_owned() })
}

/// Parse a user-supplied input into a `VideoInput`.
///
/// Accepted forms:
///   * a bare 11-char ID:             `C1hjsVLcGFc`
///   * a YouTube URL:                 `https://www.youtube.com/watch?v=C1hjsVLcGFc`
///   * a short link:                  `https://youtu.be/C1hjsVLcGFc`
///   * an archived playback URL:      `https://web.archive.org/web/20111027231107oe_/http://.../videoplayback?...`
///   * an archived watch page:        `https://web.archive.org/web/20241125121251/https://www.youtube.com/watch?v=C1hjsVLcGFc`
///   * an archived live page:         `https://web.archive.org/web/20230520013354/https://www.youtube.com/live/S2dvG697FQo`
///   * a Wayback fake-url media link: `https://web.archive.org/web/2oe_/http://wayback-fakeurl.archive.org/yt/C1hjsVLcGFc`
pub fn parse(input: &str) -> (res: Result<VideoInput, ParseError>)
    ensures
        parse_result_view(res) == parse_spec(input@),
{
    let cs = chars_of(input);
    let trimmed = trim_chars(&cs);
    let raw = string_from(&trimmed);
    if trimmed.len() == 0 {
        return Err(ParseError::Empty);
    }
    if is_bare_id_chars(&trimmed) {
        return Ok(VideoInput::Video { id: raw, date: None, inner: None });
    }
    let decoded = percent_decode(raw.as_str());
    let date = extract_date(decoded.as_str());
    let inner = extract_inner(decoded.as_str());
    let id = extract_id(decoded.as_str());
    classify(raw.as_str(), decoded, date, inner, id)
}

} // verus!
