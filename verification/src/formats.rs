//! Physical format ("itag") metadata and extension detection for the
//! `videoplayback` streams served by the Wayback Machine.

use vstd::prelude::*;
use crate::text::{
    all_digits, chars_of, decimal, decimal_value, is_white_space, push_char, push_decimal, push_str, str_eq, string_from,
    string_from_range, trim, trim_chars,
};

verus! {

/// Human/media facts about a YouTube format.
#[derive(Debug, Clone, Copy, PartialEq, Eq)]
pub struct FormatInfo {
    pub ext: &'static str,
    pub width: Option<u32>,
    pub height: Option<u32>,
    pub vcodec: &'static str,
    pub acodec: &'static str,
}

/// The label of a format: `<height>p <ext>` when the height is known, else
/// the extension alone.
pub open spec fn note_spec(f: FormatInfo) -> Seq<char> {
    match f.height {
        Some(h) => decimal(h as nat) + "p "@ + f.ext@,
        None => f.ext@,
    }
}

impl FormatInfo {
    /// Default, caller's `format_note` style label, e.g. `720p webm`.
    pub fn note(self) -> (res: String)
        ensures
            res@ == note_spec(self),
    {
        match (self.width, self.height) {
            (_, Some(h)) => {
                let mut s = String::new();
                push_decimal(&mut s, h as u64);
                push_str(&mut s, "p ");
                push_str(&mut s, self.ext);
                s
            },
            _ => self.ext.to_owned(),
        }
    }
}

/// A format with known frame size.
pub open spec fn sized(ext: &'static str, w: u32, h: u32, vc: &'static str, ac: &'static str) -> FormatInfo {
    FormatInfo { ext, width: Some(w), height: Some(h), vcodec: vc, acodec: ac }
}

/// A format without a frame size (audio, or unknown).
pub open spec fn sizeless(ext: &'static str, vc: &'static str, ac: &'static str) -> FormatInfo {
    FormatInfo { ext, width: None, height: None, vcodec: vc, acodec: ac }
}

fn f(ext: &'static str, w: u32, h: u32, vc: &'static str, ac: &'static str) -> (res: FormatInfo)
    ensures
        res == sized(ext, w, h, vc, ac),
{
    FormatInfo { ext, width: Some(w), height: Some(h), vcodec: vc, acodec: ac }
}

fn na(ext: &'static str, vc: &'static str, ac: &'static str) -> (res: FormatInfo)
    ensures
        res == sizeless(ext, vc, ac),
{
    FormatInfo { ext, width: None, height: None, vcodec: vc, acodec: ac }
}

/// The curated itag table, one row per itag.
pub open spec fn format_rows() -> Seq<(&'static str, FormatInfo)> {
    seq![
        // Legacy progressive formats.
        ("5", sized("flv", 400, 240, "h263", "mp3")),
        ("6", sized("flv", 450, 270, "h263", "mp3")),
        ("13", sizeless("3gp", "mp4v", "aac")),
        ("17", sized("3gp", 176, 144, "mp4v", "aac")),
        ("18", sized("mp4", 640, 360, "h264", "aac")),
        ("22", sized("mp4", 1280, 720, "h264", "aac")),
        ("34", sized("flv", 640, 360, "h264", "aac")),
        ("35", sized("flv", 854, 480, "h264", "aac")),
        ("36", sized("3gp", 320, 240, "mp4v", "aac")),
        ("37", sized("mp4", 1920, 1080, "h264", "aac")),
        ("43", sized("webm", 640, 360, "vp8", "vorbis")),
        ("44", sized("webm", 854, 480, "vp8", "vorbis")),
        ("45", sized("webm", 1280, 720, "vp8", "vorbis")),
        ("46", sized("webm", 1920, 1080, "vp8", "vorbis")),
        ("59", sized("mp4", 854, 480, "h264", "aac")),
        ("78", sized("mp4", 854, 480, "h264", "aac")),
        // DASH audio.
        ("139", sizeless("m4a", "none", "aac")),
        ("140", sizeless("m4a", "none", "aac")),
        ("141", sizeless("m4a", "none", "aac")),
        ("171", sizeless("webm", "none", "vorbis")),
        ("172", sizeless("webm", "none", "vorbis")),
        ("249", sizeless("webm", "none", "opus")),
        ("250", sizeless("webm", "none", "opus")),
        ("251", sizeless("webm", "none", "opus")),
        // DASH video.
        ("133", sized("mp4", 0, 240, "h264", "none")),
        ("134", sized("mp4", 0, 360, "h264", "none")),
        ("135", sized("mp4", 0, 480, "h264", "none")),
        ("136", sized("mp4", 0, 720, "h264", "none")),
        ("137", sized("mp4", 0, 1080, "h264", "none")),
        ("160", sized("mp4", 0, 144, "h264", "none")),
        ("242", sized("webm", 0, 240, "vp9", "none")),
        ("243", sized("webm", 0, 360, "vp9", "none")),
        ("244", sized("webm", 0, 480, "vp9", "none")),
        ("247", sized("webm", 0, 720, "vp9", "none")),
        ("248", sized("webm", 0, 1080, "vp9", "none")),
        ("278", sized("webm", 0, 144, "vp9", "none")),
    ]
}

/// The format of the first row of `rows` whose itag is `itag`.
pub open spec fn lookup_itag(rows: Seq<(&'static str, FormatInfo)>, itag: Seq<char>) -> Option<FormatInfo>
    decreases rows.len(),
{
    if rows.len() == 0 {
        None
    } else if rows[0].0@ == itag {
        Some(rows[0].1)
    } else {
        lookup_itag(rows.drop_first(), itag)
    }
}

/// The format of an itag, per the table.
pub open spec fn itag_format(itag: Seq<char>) -> Option<FormatInfo> {
    lookup_itag(format_rows(), itag)
}

/// The media type YouTube serves a stream of an itag with: the FLV,
/// 3GPP and progressive MP4 formats, the DASH MP4 video and AAC audio
/// formats, and the WebM formats (VP8, VP9, Vorbis, Opus); empty for an
/// itag outside these families.
pub open spec fn served_media_type(itag: Seq<char>) -> Seq<char> {
    let n = decimal_value(itag);
    if itag.len() == 0 || !all_digits(itag) {
        Seq::empty()
    } else if n == 5 || n == 6 || n == 34 || n == 35 {
        "video/x-flv"@
    } else if n == 13 || n == 17 || n == 36 {
        "video/3gpp"@
    } else if n == 18 || n == 22 || n == 37 || n == 59 || n == 78 || (133 <= n <= 137) || n == 160 {
        "video/mp4"@
    } else if 139 <= n <= 141 {
        "audio/mp4"@
    } else if n == 171 || n == 172 || (249 <= n <= 251) {
        "audio/webm"@
    } else if (43 <= n <= 46) || (242 <= n <= 244) || n == 247 || n == 248 || n == 278 {
        "video/webm"@
    } else {
        Seq::empty()
    }
}

/// The table row agrees with the media type its itag is served with.
pub open spec fn row_matches_served_type(row: (&'static str, FormatInfo)) -> bool {
    ext_for_mime(served_media_type(row.0@)) == Some(row.1.ext)
}

proof fn lemma_lookup_keeps(rows: Seq<(&'static str, FormatInfo)>, itag: Seq<char>)
    requires
        forall|i: int| 0 <= i < rows.len() ==> row_matches_served_type(#[trigger] rows[i]),
    ensures
        lookup_itag(rows, itag) matches Some(f) ==> exists|i: int|
            0 <= i < rows.len() && #[trigger] rows[i].1 == f && rows[i].0@ == itag,
    decreases rows.len(),
{
    if rows.len() > 0 && rows[0].0@ != itag {
        let t = rows.drop_first();
        assert forall|i: int| 0 <= i < t.len() implies row_matches_served_type(#[trigger] t[i]) by {
            assert(t[i] == rows[i + 1]);
        }
        lemma_lookup_keeps(t, itag);
        if lookup_itag(t, itag) is Some {
            let i = choose|i: int| 0 <= i < t.len() && #[trigger] t[i].1 == lookup_itag(t, itag)->0
                && t[i].0@ == itag;
            assert(rows[i + 1] == t[i]);
        }
    }
}

/// Every row of the table agrees with the media type of its itag.
/// The value of a decimal text of at most three digits.
proof fn lemma_short_decimal(s: Seq<char>)
    requires
        1 <= s.len() <= 3,
    ensures
        s.len() == 1 ==> decimal_value(s) == crate::text::digit_value(s[0]),
        s.len() == 2 ==> decimal_value(s) == crate::text::digit_value(s[0]) * 10
            + crate::text::digit_value(s[1]),
        s.len() == 3 ==> decimal_value(s) == crate::text::digit_value(s[0]) * 100
            + crate::text::digit_value(s[1]) * 10 + crate::text::digit_value(s[2]),
{
    let a = s.drop_last();
    assert(decimal_value(s) == decimal_value(a) * 10 + crate::text::digit_value(s.last()));
    if s.len() == 1 {
        assert(a =~= Seq::<char>::empty());
        assert(decimal_value(a) == 0);
    } else {
        let b = a.drop_last();
        assert(decimal_value(a) == decimal_value(b) * 10 + crate::text::digit_value(a.last()));
        assert(a.last() == s[s.len() - 2]);
        if s.len() == 2 {
            assert(b =~= Seq::<char>::empty());
            assert(decimal_value(b) == 0);
        } else {
            let c = b.drop_last();
            assert(decimal_value(b) == decimal_value(c) * 10 + crate::text::digit_value(b.last()));
            assert(b.last() == s[0]);
            assert(c =~= Seq::<char>::empty());
            assert(decimal_value(c) == 0);
        }
    }
}

#[verifier::spinoff_prover]
proof fn lemma_rows_match_served_types(i: int)
    requires
        0 <= i < format_rows().len(),
    ensures
        row_matches_served_type(format_rows()[i]),
{
    if i == 0 {
        assert(row_matches_served_type(format_rows()[0])) by {
            let t = format_rows()[0].0@;
            reveal_strlit("5");
            assert(t == seq!['5']);
            lemma_short_decimal(t);
            assert(all_digits(t));
            assert(decimal_value(t) == 5);
            reveal_strlit("video/x-flv");
            reveal_strlit("video/3gpp");
            reveal_strlit("video/mp4");
            reveal_strlit("audio/mp4");
            reveal_strlit("audio/webm");
            reveal_strlit("video/webm");
            reveal_strlit("application/x-flv");
            reveal_strlit("video/quicktime");
            reveal_strlit("audio/m4a");
            reveal_strlit("audio/ogg");
            assert(served_media_type(t) == "video/x-flv"@);
            assert(format_rows()[0].1.ext == "flv");
        }
    } else if i == 1 {
        assert(row_matches_served_type(format_rows()[1])) by {
            let t = format_rows()[1].0@;
            reveal_strlit("6");
            assert(t == seq!['6']);
            lemma_short_decimal(t);
            assert(all_digits(t));
            assert(decimal_value(t) == 6);
            reveal_strlit("video/x-flv");
            reveal_strlit("video/3gpp");
            reveal_strlit("video/mp4");
            reveal_strlit("audio/mp4");
            reveal_strlit("audio/webm");
            reveal_strlit("video/webm");
            reveal_strlit("application/x-flv");
            reveal_strlit("video/quicktime");
            reveal_strlit("audio/m4a");
            reveal_strlit("audio/ogg");
            assert(served_media_type(t) == "video/x-flv"@);
            assert(format_rows()[1].1.ext == "flv");
        }
    } else if i == 2 {
        assert(row_matches_served_type(format_rows()[2])) by {
            let t = format_rows()[2].0@;
            reveal_strlit("13");
            assert(t == seq!['1', '3']);
            lemma_short_decimal(t);
            assert(all_digits(t));
            assert(decimal_value(t) == 13);
            reveal_strlit("video/x-flv");
            reveal_strlit("video/3gpp");
            reveal_strlit("video/mp4");
            reveal_strlit("audio/mp4");
            reveal_strlit("audio/webm");
            reveal_strlit("video/webm");
            reveal_strlit("application/x-flv");
            reveal_strlit("video/quicktime");
            reveal_strlit("audio/m4a");
            reveal_strlit("audio/ogg");
            assert(served_media_type(t) == "video/3gpp"@);
            assert("video/3gpp"@[6] != "video/webm"@[6]);
            assert(format_rows()[2].1.ext == "3gp");
        }
    } else if i == 3 {
        assert(row_matches_served_type(format_rows()[3])) by {
            let t = format_rows()[3].0@;
            reveal_strlit("17");
            assert(t == seq!['1', '7']);
            lemma_short_decimal(t);
            assert(all_digits(t));
            assert(decimal_value(t) == 17);
            reveal_strlit("video/x-flv");
            reveal_strlit("video/3gpp");
            reveal_strlit("video/mp4");
            reveal_strlit("audio/mp4");
            reveal_strlit("audio/webm");
            reveal_strlit("video/webm");
            reveal_strlit("application/x-flv");
            reveal_strlit("video/quicktime");
            reveal_strlit("audio/m4a");
            reveal_strlit("audio/ogg");
            assert(served_media_type(t) == "video/3gpp"@);
            assert("video/3gpp"@[6] != "video/webm"@[6]);
            assert(format_rows()[3].1.ext == "3gp");
        }
    } else if i == 4 {
        assert(row_matches_served_type(format_rows()[4])) by {
            let t = format_rows()[4].0@;
            reveal_strlit("18");
            assert(t == seq!['1', '8']);
            lemma_short_decimal(t);
            assert(all_digits(t));
            assert(decimal_value(t) == 18);
            reveal_strlit("video/x-flv");
            reveal_strlit("video/3gpp");
            reveal_strlit("video/mp4");
            reveal_strlit("audio/mp4");
            reveal_strlit("audio/webm");
            reveal_strlit("video/webm");
            reveal_strlit("application/x-flv");
            reveal_strlit("video/quicktime");
            reveal_strlit("audio/m4a");
            reveal_strlit("audio/ogg");
            assert(served_media_type(t) == "video/mp4"@);
            assert(format_rows()[4].1.ext == "mp4");
        }
    } else if i == 5 {
        assert(row_matches_served_type(format_rows()[5])) by {
            let t = format_rows()[5].0@;
            reveal_strlit("22");
            assert(t == seq!['2', '2']);
            lemma_short_decimal(t);
            assert(all_digits(t));
            assert(decimal_value(t) == 22);
            reveal_strlit("video/x-flv");
            reveal_strlit("video/3gpp");
            reveal_strlit("video/mp4");
            reveal_strlit("audio/mp4");
            reveal_strlit("audio/webm");
            reveal_strlit("video/webm");
            reveal_strlit("application/x-flv");
            reveal_strlit("video/quicktime");
            reveal_strlit("audio/m4a");
            reveal_strlit("audio/ogg");
            assert(served_media_type(t) == "video/mp4"@);
            assert(format_rows()[5].1.ext == "mp4");
        }
    } else if i == 6 {
        assert(row_matches_served_type(format_rows()[6])) by {
            let t = format_rows()[6].0@;
            reveal_strlit("34");
            assert(t == seq!['3', '4']);
            lemma_short_decimal(t);
            assert(all_digits(t));
            assert(decimal_value(t) == 34);
            reveal_strlit("video/x-flv");
            reveal_strlit("video/3gpp");
            reveal_strlit("video/mp4");
            reveal_strlit("audio/mp4");
            reveal_strlit("audio/webm");
            reveal_strlit("video/webm");
            reveal_strlit("application/x-flv");
            reveal_strlit("video/quicktime");
            reveal_strlit("audio/m4a");
            reveal_strlit("audio/ogg");
            assert(served_media_type(t) == "video/x-flv"@);
            assert(format_rows()[6].1.ext == "flv");
        }
    } else if i == 7 {
        assert(row_matches_served_type(format_rows()[7])) by {
            let t = format_rows()[7].0@;
            reveal_strlit("35");
            assert(t == seq!['3', '5']);
            lemma_short_decimal(t);
            assert(all_digits(t));
            assert(decimal_value(t) == 35);
            reveal_strlit("video/x-flv");
            reveal_strlit("video/3gpp");
            reveal_strlit("video/mp4");
            reveal_strlit("audio/mp4");
            reveal_strlit("audio/webm");
            reveal_strlit("video/webm");
            reveal_strlit("application/x-flv");
            reveal_strlit("video/quicktime");
            reveal_strlit("audio/m4a");
            reveal_strlit("audio/ogg");
            assert(served_media_type(t) == "video/x-flv"@);
            assert(format_rows()[7].1.ext == "flv");
        }
    } else if i == 8 {
        assert(row_matches_served_type(format_rows()[8])) by {
            let t = format_rows()[8].0@;
            reveal_strlit("36");
            assert(t == seq!['3', '6']);
            lemma_short_decimal(t);
            assert(all_digits(t));
            assert(decimal_value(t) == 36);
            reveal_strlit("video/x-flv");
            reveal_strlit("video/3gpp");
            reveal_strlit("video/mp4");
            reveal_strlit("audio/mp4");
            reveal_strlit("audio/webm");
            reveal_strlit("video/webm");
            reveal_strlit("application/x-flv");
            reveal_strlit("video/quicktime");
            reveal_strlit("audio/m4a");
            reveal_strlit("audio/ogg");
            assert(served_media_type(t) == "video/3gpp"@);
            assert("video/3gpp"@[6] != "video/webm"@[6]);
            assert(format_rows()[8].1.ext == "3gp");
        }
    } else if i == 9 {
        assert(row_matches_served_type(format_rows()[9])) by {
            let t = format_rows()[9].0@;
            reveal_strlit("37");
            assert(t == seq!['3', '7']);
            lemma_short_decimal(t);
            assert(all_digits(t));
            assert(decimal_value(t) == 37);
            reveal_strlit("video/x-flv");
            reveal_strlit("video/3gpp");
            reveal_strlit("video/mp4");
            reveal_strlit("audio/mp4");
            reveal_strlit("audio/webm");
            reveal_strlit("video/webm");
            reveal_strlit("application/x-flv");
            reveal_strlit("video/quicktime");
            reveal_strlit("audio/m4a");
            reveal_strlit("audio/ogg");
            assert(served_media_type(t) == "video/mp4"@);
            assert(format_rows()[9].1.ext == "mp4");
        }
    } else if i == 10 {
        assert(row_matches_served_type(format_rows()[10])) by {
            let t = format_rows()[10].0@;
            reveal_strlit("43");
            assert(t == seq!['4', '3']);
            lemma_short_decimal(t);
            assert(all_digits(t));
            assert(decimal_value(t) == 43);
            reveal_strlit("video/x-flv");
            reveal_strlit("video/3gpp");
            reveal_strlit("video/mp4");
            reveal_strlit("audio/mp4");
            reveal_strlit("audio/webm");
            reveal_strlit("video/webm");
            reveal_strlit("application/x-flv");
            reveal_strlit("video/quicktime");
            reveal_strlit("audio/m4a");
            reveal_strlit("audio/ogg");
            assert(served_media_type(t) == "video/webm"@);
            assert(format_rows()[10].1.ext == "webm");
        }
    } else if i == 11 {
        assert(row_matches_served_type(format_rows()[11])) by {
            let t = format_rows()[11].0@;
            reveal_strlit("44");
            assert(t == seq!['4', '4']);
            lemma_short_decimal(t);
            assert(all_digits(t));
            assert(decimal_value(t) == 44);
            reveal_strlit("video/x-flv");
            reveal_strlit("video/3gpp");
            reveal_strlit("video/mp4");
            reveal_strlit("audio/mp4");
            reveal_strlit("audio/webm");
            reveal_strlit("video/webm");
            reveal_strlit("application/x-flv");
            reveal_strlit("video/quicktime");
            reveal_strlit("audio/m4a");
            reveal_strlit("audio/ogg");
            assert(served_media_type(t) == "video/webm"@);
            assert(format_rows()[11].1.ext == "webm");
        }
    } else if i == 12 {
        assert(row_matches_served_type(format_rows()[12])) by {
            let t = format_rows()[12].0@;
            reveal_strlit("45");
            assert(t == seq!['4', '5']);
            lemma_short_decimal(t);
            assert(all_digits(t));
            assert(decimal_value(t) == 45);
            reveal_strlit("video/x-flv");
            reveal_strlit("video/3gpp");
            reveal_strlit("video/mp4");
            reveal_strlit("audio/mp4");
            reveal_strlit("audio/webm");
            reveal_strlit("video/webm");
            reveal_strlit("application/x-flv");
            reveal_strlit("video/quicktime");
            reveal_strlit("audio/m4a");
            reveal_strlit("audio/ogg");
            assert(served_media_type(t) == "video/webm"@);
            assert(format_rows()[12].1.ext == "webm");
        }
    } else if i == 13 {
        assert(row_matches_served_type(format_rows()[13])) by {
            let t = format_rows()[13].0@;
            reveal_strlit("46");
            assert(t == seq!['4', '6']);
            lemma_short_decimal(t);
            assert(all_digits(t));
            assert(decimal_value(t) == 46);
            reveal_strlit("video/x-flv");
            reveal_strlit("video/3gpp");
            reveal_strlit("video/mp4");
            reveal_strlit("audio/mp4");
            reveal_strlit("audio/webm");
            reveal_strlit("video/webm");
            reveal_strlit("application/x-flv");
            reveal_strlit("video/quicktime");
            reveal_strlit("audio/m4a");
            reveal_strlit("audio/ogg");
            assert(served_media_type(t) == "video/webm"@);
            assert(format_rows()[13].1.ext == "webm");
        }
    } else if i == 14 {
        assert(row_matches_served_type(format_rows()[14])) by {
            let t = format_rows()[14].0@;
            reveal_strlit("59");
            assert(t == seq!['5', '9']);
            lemma_short_decimal(t);
            assert(all_digits(t));
            assert(decimal_value(t) == 59);
            reveal_strlit("video/x-flv");
            reveal_strlit("video/3gpp");
            reveal_strlit("video/mp4");
            reveal_strlit("audio/mp4");
            reveal_strlit("audio/webm");
            reveal_strlit("video/webm");
            reveal_strlit("application/x-flv");
            reveal_strlit("video/quicktime");
            reveal_strlit("audio/m4a");
            reveal_strlit("audio/ogg");
            assert(served_media_type(t) == "video/mp4"@);
            assert(format_rows()[14].1.ext == "mp4");
        }
    } else if i == 15 {
        assert(row_matches_served_type(format_rows()[15])) by {
            let t = format_rows()[15].0@;
            reveal_strlit("78");
            assert(t == seq!['7', '8']);
            lemma_short_decimal(t);
            assert(all_digits(t));
            assert(decimal_value(t) == 78);
            reveal_strlit("video/x-flv");
            reveal_strlit("video/3gpp");
            reveal_strlit("video/mp4");
            reveal_strlit("audio/mp4");
            reveal_strlit("audio/webm");
            reveal_strlit("video/webm");
            reveal_strlit("application/x-flv");
            reveal_strlit("video/quicktime");
            reveal_strlit("audio/m4a");
            reveal_strlit("audio/ogg");
            assert(served_media_type(t) == "video/mp4"@);
            assert(format_rows()[15].1.ext == "mp4");
        }
    } else if i == 16 {
        assert(row_matches_served_type(format_rows()[16])) by {
            let t = format_rows()[16].0@;
            reveal_strlit("139");
            assert(t == seq!['1', '3', '9']);
            lemma_short_decimal(t);
            assert(all_digits(t));
            assert(decimal_value(t) == 139);
            reveal_strlit("video/x-flv");
            reveal_strlit("video/3gpp");
            reveal_strlit("video/mp4");
            reveal_strlit("audio/mp4");
            reveal_strlit("audio/webm");
            reveal_strlit("video/webm");
            reveal_strlit("application/x-flv");
            reveal_strlit("video/quicktime");
            reveal_strlit("audio/m4a");
            reveal_strlit("audio/ogg");
            assert(served_media_type(t) == "audio/mp4"@);
            assert("audio/mp4"@[0] != "video/mp4"@[0]);
            assert(format_rows()[16].1.ext == "m4a");
        }
    } else if i == 17 {
        assert(row_matches_served_type(format_rows()[17])) by {
            let t = format_rows()[17].0@;
            reveal_strlit("140");
            assert(t == seq!['1', '4', '0']);
            lemma_short_decimal(t);
            assert(all_digits(t));
            assert(decimal_value(t) == 140);
            reveal_strlit("video/x-flv");
            reveal_strlit("video/3gpp");
            reveal_strlit("video/mp4");
            reveal_strlit("audio/mp4");
            reveal_strlit("audio/webm");
            reveal_strlit("video/webm");
            reveal_strlit("application/x-flv");
            reveal_strlit("video/quicktime");
            reveal_strlit("audio/m4a");
            reveal_strlit("audio/ogg");
            assert(served_media_type(t) == "audio/mp4"@);
            assert("audio/mp4"@[0] != "video/mp4"@[0]);
            assert(format_rows()[17].1.ext == "m4a");
        }
    } else if i == 18 {
        assert(row_matches_served_type(format_rows()[18])) by {
            let t = format_rows()[18].0@;
            reveal_strlit("141");
            assert(t == seq!['1', '4', '1']);
            lemma_short_decimal(t);
            assert(all_digits(t));
            assert(decimal_value(t) == 141);
            reveal_strlit("video/x-flv");
            reveal_strlit("video/3gpp");
            reveal_strlit("video/mp4");
            reveal_strlit("audio/mp4");
            reveal_strlit("audio/webm");
            reveal_strlit("video/webm");
            reveal_strlit("application/x-flv");
            reveal_strlit("video/quicktime");
            reveal_strlit("audio/m4a");
            reveal_strlit("audio/ogg");
            assert(served_media_type(t) == "audio/mp4"@);
            assert("audio/mp4"@[0] != "video/mp4"@[0]);
            assert(format_rows()[18].1.ext == "m4a");
        }
    } else if i == 19 {
        assert(row_matches_served_type(format_rows()[19])) by {
            let t = format_rows()[19].0@;
            reveal_strlit("171");
            assert(t == seq!['1', '7', '1']);
            lemma_short_decimal(t);
            assert(all_digits(t));
            assert(decimal_value(t) == 171);
            reveal_strlit("video/x-flv");
            reveal_strlit("video/3gpp");
            reveal_strlit("video/mp4");
            reveal_strlit("audio/mp4");
            reveal_strlit("audio/webm");
            reveal_strlit("video/webm");
            reveal_strlit("application/x-flv");
            reveal_strlit("video/quicktime");
            reveal_strlit("audio/m4a");
            reveal_strlit("audio/ogg");
            assert(served_media_type(t) == "audio/webm"@);
            assert("audio/webm"@[0] != "video/webm"@[0] && "audio/webm"@[0] != "video/3gpp"@[0]);
            assert(format_rows()[19].1.ext == "webm");
        }
    } else if i == 20 {
        assert(row_matches_served_type(format_rows()[20])) by {
            let t = format_rows()[20].0@;
            reveal_strlit("172");
            assert(t == seq!['1', '7', '2']);
            lemma_short_decimal(t);
            assert(all_digits(t));
            assert(decimal_value(t) == 172);
            reveal_strlit("video/x-flv");
            reveal_strlit("video/3gpp");
            reveal_strlit("video/mp4");
            reveal_strlit("audio/mp4");
            reveal_strlit("audio/webm");
            reveal_strlit("video/webm");
            reveal_strlit("application/x-flv");
            reveal_strlit("video/quicktime");
            reveal_strlit("audio/m4a");
            reveal_strlit("audio/ogg");
            assert(served_media_type(t) == "audio/webm"@);
            assert("audio/webm"@[0] != "video/webm"@[0] && "audio/webm"@[0] != "video/3gpp"@[0]);
            assert(format_rows()[20].1.ext == "webm");
        }
    } else if i == 21 {
        assert(row_matches_served_type(format_rows()[21])) by {
            let t = format_rows()[21].0@;
            reveal_strlit("249");
            assert(t == seq!['2', '4', '9']);
            lemma_short_decimal(t);
            assert(all_digits(t));
            assert(decimal_value(t) == 249);
            reveal_strlit("video/x-flv");
            reveal_strlit("video/3gpp");
            reveal_strlit("video/mp4");
            reveal_strlit("audio/mp4");
            reveal_strlit("audio/webm");
            reveal_strlit("video/webm");
            reveal_strlit("application/x-flv");
            reveal_strlit("video/quicktime");
            reveal_strlit("audio/m4a");
            reveal_strlit("audio/ogg");
            assert(served_media_type(t) == "audio/webm"@);
            assert("audio/webm"@[0] != "video/webm"@[0] && "audio/webm"@[0] != "video/3gpp"@[0]);
            assert(format_rows()[21].1.ext == "webm");
        }
    } else if i == 22 {
        assert(row_matches_served_type(format_rows()[22])) by {
            let t = format_rows()[22].0@;
            reveal_strlit("250");
            assert(t == seq!['2', '5', '0']);
            lemma_short_decimal(t);
            assert(all_digits(t));
            assert(decimal_value(t) == 250);
            reveal_strlit("video/x-flv");
            reveal_strlit("video/3gpp");
            reveal_strlit("video/mp4");
            reveal_strlit("audio/mp4");
            reveal_strlit("audio/webm");
            reveal_strlit("video/webm");
            reveal_strlit("application/x-flv");
            reveal_strlit("video/quicktime");
            reveal_strlit("audio/m4a");
            reveal_strlit("audio/ogg");
            assert(served_media_type(t) == "audio/webm"@);
            assert("audio/webm"@[0] != "video/webm"@[0] && "audio/webm"@[0] != "video/3gpp"@[0]);
            assert(format_rows()[22].1.ext == "webm");
        }
    } else if i == 23 {
        assert(row_matches_served_type(format_rows()[23])) by {
            let t = format_rows()[23].0@;
            reveal_strlit("251");
            assert(t == seq!['2', '5', '1']);
            lemma_short_decimal(t);
            assert(all_digits(t));
            assert(decimal_value(t) == 251);
            reveal_strlit("video/x-flv");
            reveal_strlit("video/3gpp");
            reveal_strlit("video/mp4");
            reveal_strlit("audio/mp4");
            reveal_strlit("audio/webm");
            reveal_strlit("video/webm");
            reveal_strlit("application/x-flv");
            reveal_strlit("video/quicktime");
            reveal_strlit("audio/m4a");
            reveal_strlit("audio/ogg");
            assert(served_media_type(t) == "audio/webm"@);
            assert("audio/webm"@[0] != "video/webm"@[0] && "audio/webm"@[0] != "video/3gpp"@[0]);
            assert(format_rows()[23].1.ext == "webm");
        }
    } else if i == 24 {
        assert(row_matches_served_type(format_rows()[24])) by {
            let t = format_rows()[24].0@;
            reveal_strlit("133");
            assert(t == seq!['1', '3', '3']);
            lemma_short_decimal(t);
            assert(all_digits(t));
            assert(decimal_value(t) == 133);
            reveal_strlit("video/x-flv");
            reveal_strlit("video/3gpp");
            reveal_strlit("video/mp4");
            reveal_strlit("audio/mp4");
            reveal_strlit("audio/webm");
            reveal_strlit("video/webm");
            reveal_strlit("application/x-flv");
            reveal_strlit("video/quicktime");
            reveal_strlit("audio/m4a");
            reveal_strlit("audio/ogg");
            assert(served_media_type(t) == "video/mp4"@);
            assert(format_rows()[24].1.ext == "mp4");
        }
    } else if i == 25 {
        assert(row_matches_served_type(format_rows()[25])) by {
            let t = format_rows()[25].0@;
            reveal_strlit("134");
            assert(t == seq!['1', '3', '4']);
            lemma_short_decimal(t);
            assert(all_digits(t));
            assert(decimal_value(t) == 134);
            reveal_strlit("video/x-flv");
            reveal_strlit("video/3gpp");
            reveal_strlit("video/mp4");
            reveal_strlit("audio/mp4");
            reveal_strlit("audio/webm");
            reveal_strlit("video/webm");
            reveal_strlit("application/x-flv");
            reveal_strlit("video/quicktime");
            reveal_strlit("audio/m4a");
            reveal_strlit("audio/ogg");
            assert(served_media_type(t) == "video/mp4"@);
            assert(format_rows()[25].1.ext == "mp4");
        }
    } else if i == 26 {
        assert(row_matches_served_type(format_rows()[26])) by {
            let t = format_rows()[26].0@;
            reveal_strlit("135");
            assert(t == seq!['1', '3', '5']);
            lemma_short_decimal(t);
            assert(all_digits(t));
            assert(decimal_value(t) == 135);
            reveal_strlit("video/x-flv");
            reveal_strlit("video/3gpp");
            reveal_strlit("video/mp4");
            reveal_strlit("audio/mp4");
            reveal_strlit("audio/webm");
            reveal_strlit("video/webm");
            reveal_strlit("application/x-flv");
            reveal_strlit("video/quicktime");
            reveal_strlit("audio/m4a");
            reveal_strlit("audio/ogg");
            assert(served_media_type(t) == "video/mp4"@);
            assert(format_rows()[26].1.ext == "mp4");
        }
    } else if i == 27 {
        assert(row_matches_served_type(format_rows()[27])) by {
            let t = format_rows()[27].0@;
            reveal_strlit("136");
            assert(t == seq!['1', '3', '6']);
            lemma_short_decimal(t);
            assert(all_digits(t));
            assert(decimal_value(t) == 136);
            reveal_strlit("video/x-flv");
            reveal_strlit("video/3gpp");
            reveal_strlit("video/mp4");
            reveal_strlit("audio/mp4");
            reveal_strlit("audio/webm");
            reveal_strlit("video/webm");
            reveal_strlit("application/x-flv");
            reveal_strlit("video/quicktime");
            reveal_strlit("audio/m4a");
            reveal_strlit("audio/ogg");
            assert(served_media_type(t) == "video/mp4"@);
            assert(format_rows()[27].1.ext == "mp4");
        }
    } else if i == 28 {
        assert(row_matches_served_type(format_rows()[28])) by {
            let t = format_rows()[28].0@;
            reveal_strlit("137");
            assert(t == seq!['1', '3', '7']);
            lemma_short_decimal(t);
            assert(all_digits(t));
            assert(decimal_value(t) == 137);
            reveal_strlit("video/x-flv");
            reveal_strlit("video/3gpp");
            reveal_strlit("video/mp4");
            reveal_strlit("audio/mp4");
            reveal_strlit("audio/webm");
            reveal_strlit("video/webm");
            reveal_strlit("application/x-flv");
            reveal_strlit("video/quicktime");
            reveal_strlit("audio/m4a");
            reveal_strlit("audio/ogg");
            assert(served_media_type(t) == "video/mp4"@);
            assert(format_rows()[28].1.ext == "mp4");
        }
    } else if i == 29 {
        assert(row_matches_served_type(format_rows()[29])) by {
            let t = format_rows()[29].0@;
            reveal_strlit("160");
            assert(t == seq!['1', '6', '0']);
            lemma_short_decimal(t);
            assert(all_digits(t));
            assert(decimal_value(t) == 160);
            reveal_strlit("video/x-flv");
            reveal_strlit("video/3gpp");
            reveal_strlit("video/mp4");
            reveal_strlit("audio/mp4");
            reveal_strlit("audio/webm");
            reveal_strlit("video/webm");
            reveal_strlit("application/x-flv");
            reveal_strlit("video/quicktime");
            reveal_strlit("audio/m4a");
            reveal_strlit("audio/ogg");
            assert(served_media_type(t) == "video/mp4"@);
            assert(format_rows()[29].1.ext == "mp4");
        }
    } else if i == 30 {
        assert(row_matches_served_type(format_rows()[30])) by {
            let t = format_rows()[30].0@;
            reveal_strlit("242");
            assert(t == seq!['2', '4', '2']);
            lemma_short_decimal(t);
            assert(all_digits(t));
            assert(decimal_value(t) == 242);
            reveal_strlit("video/x-flv");
            reveal_strlit("video/3gpp");
            reveal_strlit("video/mp4");
            reveal_strlit("audio/mp4");
            reveal_strlit("audio/webm");
            reveal_strlit("video/webm");
            reveal_strlit("application/x-flv");
            reveal_strlit("video/quicktime");
            reveal_strlit("audio/m4a");
            reveal_strlit("audio/ogg");
            assert(served_media_type(t) == "video/webm"@);
            assert(format_rows()[30].1.ext == "webm");
        }
    } else if i == 31 {
        assert(row_matches_served_type(format_rows()[31])) by {
            let t = format_rows()[31].0@;
            reveal_strlit("243");
            assert(t == seq!['2', '4', '3']);
            lemma_short_decimal(t);
            assert(all_digits(t));
            assert(decimal_value(t) == 243);
            reveal_strlit("video/x-flv");
            reveal_strlit("video/3gpp");
            reveal_strlit("video/mp4");
            reveal_strlit("audio/mp4");
            reveal_strlit("audio/webm");
            reveal_strlit("video/webm");
            reveal_strlit("application/x-flv");
            reveal_strlit("video/quicktime");
            reveal_strlit("audio/m4a");
            reveal_strlit("audio/ogg");
            assert(served_media_type(t) == "video/webm"@);
            assert(format_rows()[31].1.ext == "webm");
        }
    } else if i == 32 {
        assert(row_matches_served_type(format_rows()[32])) by {
            let t = format_rows()[32].0@;
            reveal_strlit("244");
            assert(t == seq!['2', '4', '4']);
            lemma_short_decimal(t);
            assert(all_digits(t));
            assert(decimal_value(t) == 244);
            reveal_strlit("video/x-flv");
            reveal_strlit("video/3gpp");
            reveal_strlit("video/mp4");
            reveal_strlit("audio/mp4");
            reveal_strlit("audio/webm");
            reveal_strlit("video/webm");
            reveal_strlit("application/x-flv");
            reveal_strlit("video/quicktime");
            reveal_strlit("audio/m4a");
            reveal_strlit("audio/ogg");
            assert(served_media_type(t) == "video/webm"@);
            assert(format_rows()[32].1.ext == "webm");
        }
    } else if i == 33 {
        assert(row_matches_served_type(format_rows()[33])) by {
            let t = format_rows()[33].0@;
            reveal_strlit("247");
            assert(t == seq!['2', '4', '7']);
            lemma_short_decimal(t);
            assert(all_digits(t));
            assert(decimal_value(t) == 247);
            reveal_strlit("video/x-flv");
            reveal_strlit("video/3gpp");
            reveal_strlit("video/mp4");
            reveal_strlit("audio/mp4");
            reveal_strlit("audio/webm");
            reveal_strlit("video/webm");
            reveal_strlit("application/x-flv");
            reveal_strlit("video/quicktime");
            reveal_strlit("audio/m4a");
            reveal_strlit("audio/ogg");
            assert(served_media_type(t) == "video/webm"@);
            assert(format_rows()[33].1.ext == "webm");
        }
    } else if i == 34 {
        assert(row_matches_served_type(format_rows()[34])) by {
            let t = format_rows()[34].0@;
            reveal_strlit("248");
            assert(t == seq!['2', '4', '8']);
            lemma_short_decimal(t);
            assert(all_digits(t));
            assert(decimal_value(t) == 248);
            reveal_strlit("video/x-flv");
            reveal_strlit("video/3gpp");
            reveal_strlit("video/mp4");
            reveal_strlit("audio/mp4");
            reveal_strlit("audio/webm");
            reveal_strlit("video/webm");
            reveal_strlit("application/x-flv");
            reveal_strlit("video/quicktime");
            reveal_strlit("audio/m4a");
            reveal_strlit("audio/ogg");
            assert(served_media_type(t) == "video/webm"@);
            assert(format_rows()[34].1.ext == "webm");
        }
    } else if i == 35 {
        assert(row_matches_served_type(format_rows()[35])) by {
            let t = format_rows()[35].0@;
            reveal_strlit("278");
            assert(t == seq!['2', '7', '8']);
            lemma_short_decimal(t);
            assert(all_digits(t));
            assert(decimal_value(t) == 278);
            reveal_strlit("video/x-flv");
            reveal_strlit("video/3gpp");
            reveal_strlit("video/mp4");
            reveal_strlit("audio/mp4");
            reveal_strlit("audio/webm");
            reveal_strlit("video/webm");
            reveal_strlit("application/x-flv");
            reveal_strlit("video/quicktime");
            reveal_strlit("audio/m4a");
            reveal_strlit("audio/ogg");
            assert(served_media_type(t) == "video/webm"@);
            assert(format_rows()[35].1.ext == "webm");
        }
    }
}

/// Every itag the table knows gets the extension of the media type YouTube
/// serves it with: the itag table and the content-type table agree.
pub proof fn lemma_known_itag_ext_matches_served_type(itag: Seq<char>)
    ensures
        itag_format(itag) matches Some(f) ==> ext_for_mime(served_media_type(itag)) == Some(f.ext),
{
    assert forall|i: int| 0 <= i < format_rows().len() implies row_matches_served_type(
        #[trigger] format_rows()[i],
    ) by {
        lemma_rows_match_served_types(i);
    }
    lemma_lookup_keeps(format_rows(), itag);
}

/// A curated subset of the well-known YouTube itag table. Enough to name and
/// describe the files the archive most commonly holds.
fn table() -> (res: Vec<(&'static str, FormatInfo)>)
    ensures
        res@ == format_rows(),
{
    let rows = vec![
        // Legacy progressive formats.
        ("5", f("flv", 400, 240, "h263", "mp3")),
        ("6", f("flv", 450, 270, "h263", "mp3")),
        ("13", na("3gp", "mp4v", "aac")),
        ("17", f("3gp", 176, 144, "mp4v", "aac")),
        ("18", f("mp4", 640, 360, "h264", "aac")),
        ("22", f("mp4", 1280, 720, "h264", "aac")),
        ("34", f("flv", 640, 360, "h264", "aac")),
        ("35", f("flv", 854, 480, "h264", "aac")),
        ("36", f("3gp", 320, 240, "mp4v", "aac")),
        ("37", f("mp4", 1920, 1080, "h264", "aac")),
        ("43", f("webm", 640, 360, "vp8", "vorbis")),
        ("44", f("webm", 854, 480, "vp8", "vorbis")),
        ("45", f("webm", 1280, 720, "vp8", "vorbis")),
        ("46", f("webm", 1920, 1080, "vp8", "vorbis")),
        ("59", f("mp4", 854, 480, "h264", "aac")),
        ("78", f("mp4", 854, 480, "h264", "aac")),
        // DASH audio.
        ("139", na("m4a", "none", "aac")),
        ("140", na("m4a", "none", "aac")),
        ("141", na("m4a", "none", "aac")),
        ("171", na("webm", "none", "vorbis")),
        ("172", na("webm", "none", "vorbis")),
        ("249", na("webm", "none", "opus")),
        ("250", na("webm", "none", "opus")),
        ("251", na("webm", "none", "opus")),
        // DASH video.
        ("133", f("mp4", 0, 240, "h264", "none")),
        ("134", f("mp4", 0, 360, "h264", "none")),
        ("135", f("mp4", 0, 480, "h264", "none")),
        ("136", f("mp4", 0, 720, "h264", "none")),
        ("137", f("mp4", 0, 1080, "h264", "none")),
        ("160", f("mp4", 0, 144, "h264", "none")),
        ("242", f("webm", 0, 240, "vp9", "none")),
        ("243", f("webm", 0, 360, "vp9", "none")),
        ("244", f("webm", 0, 480, "vp9", "none")),
        ("247", f("webm", 0, 720, "vp9", "none")),
        ("248", f("webm", 0, 1080, "vp9", "none")),
        ("278", f("webm", 0, 144, "vp9", "none")),
    ];
    assert(rows@ =~= format_rows());
    rows
}

/// Look up `FormatInfo` for an itag string.
pub fn from_itag(itag: &str) -> (res: Option<FormatInfo>)
    ensures
        res == itag_format(itag@),
{
    let rows = table();
    let mut i: usize = 0;
    assert(rows@.skip(0) =~= rows@);
    while i < rows.len()
        invariant
            i <= rows@.len(),
            lookup_itag(rows@.skip(i as int), itag@) == itag_format(itag@),
        decreases rows@.len() - i,
    {
        let ghost rest = rows@.skip(i as int);
        assert(rest[0] == rows@[i as int]);
        if str_eq(rows[i].0, itag) {
            return Some(rows[i].1);
        }
        assert(rest.drop_first() =~= rows@.skip(i + 1));
        i += 1;
    }
    None
}

/// The number of leading characters of `s` that are not `c`.
pub open spec fn index_of(s: Seq<char>, c: char) -> nat
    decreases s.len(),
{
    if s.len() == 0 || s[0] == c {
        0
    } else {
        1 + index_of(s.drop_first(), c)
    }
}

/// A separator of URL query parameters: `&` or `?`.
pub open spec fn is_query_sep(c: char) -> bool {
    c == '&' || c == '?'
}

/// The number of leading characters of `s` that are not query separators.
pub open spec fn segment_len(s: Seq<char>) -> nat
    decreases s.len(),
{
    if s.len() == 0 || is_query_sep(s[0]) {
        0
    } else {
        1 + segment_len(s.drop_first())
    }
}

/// The value of a `key=value` segment whose key is `itag`.
pub open spec fn itag_of_segment(seg: Seq<char>) -> Option<Seq<char>> {
    let e = index_of(seg, '=');
    if e < seg.len() && seg.take(e as int) == "itag"@ {
        Some(seg.skip(e + 1 as int))
    } else {
        None
    }
}

/// The value of the first `itag=` parameter among the `&`/`?`-separated
/// segments of `s`.
pub open spec fn itag_param(s: Seq<char>) -> Option<Seq<char>>
    decreases s.len(),
{
    let n = segment_len(s);
    let found = itag_of_segment(s.take(n as int));
    if found is Some {
        found
    } else if n < s.len() {
        itag_param(s.skip(n + 1 as int))
    } else {
        None
    }
}

proof fn lemma_index_of(s: Seq<char>, c: char, k: int)
    requires
        0 <= k <= s.len(),
        forall|j: int| 0 <= j < k ==> s[j] != c,
        k == s.len() || s[k] == c,
    ensures
        index_of(s, c) == k,
    decreases k,
{
    if k > 0 {
        lemma_index_of(s.drop_first(), c, k - 1);
    }
}

proof fn lemma_segment_len(s: Seq<char>, k: int)
    requires
        0 <= k <= s.len(),
        forall|j: int| 0 <= j < k ==> !is_query_sep(#[trigger] s[j]),
        k == s.len() || is_query_sep(s[k]),
    ensures
        segment_len(s) == k,
    decreases k,
{
    if k > 0 {
        assert forall|j: int| 0 <= j < k - 1 implies !is_query_sep(#[trigger] s.drop_first()[j]) by {
            assert(s.drop_first()[j] == s[j + 1]);
        }
        lemma_segment_len(s.drop_first(), k - 1);
    }
}

/// The index of the first `c` in `cs[from..to]`, or `to`.
fn scan_for(cs: &Vec<char>, c: char, from: usize, to: usize) -> (res: usize)
    requires
        from <= to <= cs@.len(),
    ensures
        from <= res <= to,
        forall|j: int| from <= j < res ==> cs@[j] != c,
        res < to ==> cs@[res as int] == c,
{
    let mut k = from;
    while k < to && cs[k] != c
        invariant
            from <= k <= to <= cs@.len(),
            forall|j: int| from <= j < k ==> cs@[j] != c,
        decreases to - k,
    {
        k += 1;
    }
    k
}

/// Extract the `itag` value from a stream URL, as a string.
pub fn itag_from_url(url: &str) -> (res: Option<String>)
    ensures
        res.deep_view() == itag_param(url@),
{
    let cs = chars_of(url);
    let itag = chars_of("itag");
    let mut start: usize = 0;
    assert(cs@.skip(0) =~= cs@);
    loop
        invariant
            start <= cs@.len(),
            cs@ == url@,
            itag@ == "itag"@,
            itag_param(cs@.skip(start as int)) == itag_param(url@),
        decreases cs@.len() - start,
    {
        let ghost rest = cs@.skip(start as int);
        let mut end = start;
        while end < cs.len() && cs[end] != '&' && cs[end] != '?'
            invariant
                start <= end <= cs@.len(),
                forall|j: int| start <= j < end ==> !is_query_sep(#[trigger] cs@[j]),
            decreases cs@.len() - end,
        {
            end += 1;
        }
        proof {
            assert forall|j: int| 0 <= j < end - start implies !is_query_sep(#[trigger] rest[j]) by {
                assert(rest[j] == cs@[start + j]);
                assert(!is_query_sep(cs@[start + j]));
            }
            if end < cs@.len() {
                assert(rest[end - start] == cs@[end as int]);
            }
            lemma_segment_len(rest, end - start);
        }
        let ghost seg = rest.take((end - start) as int);
        assert(seg =~= cs@.subrange(start as int, end as int));
        let eq = scan_for(&cs, '=', start, end);
        proof {
            assert forall|j: int| 0 <= j < eq - start implies seg[j] != '=' by {
                assert(seg[j] == cs@[start + j]);
            }
            if eq < end {
                assert(seg[eq - start] == cs@[eq as int]);
            }
            lemma_index_of(seg, '=', eq - start);
        }
        if eq < end {
            let key = string_from_range(&cs, start, eq);
            assert(key@ =~= seg.take(eq - start));
            if str_eq(key.as_str(), "itag") {
                let v = string_from_range(&cs, eq + 1, end);
                assert(v@ =~= seg.skip(eq - start + 1));
                return Some(v);
            }
        }
        assert(itag_of_segment(seg) is None);
        if end == cs.len() {
            return None;
        }
        assert(rest.skip(end - start + 1) =~= cs@.skip(end + 1));
        start = end + 1;
    }
}

/// The media type of a `Content-Type` value: the part before any `;`,
/// trimmed.
pub open spec fn mime_essence(content_type: Seq<char>) -> Seq<char> {
    trim(content_type.take(index_of(content_type, ';') as int))
}

/// The file extension a media type stands for.
pub open spec fn ext_for_mime(ct: Seq<char>) -> Option<&'static str> {
    if ct == "video/mp4"@ {
        Some("mp4")
    } else if ct == "video/webm"@ {
        Some("webm")
    } else if ct == "video/x-flv"@ || ct == "application/x-flv"@ {
        Some("flv")
    } else if ct == "video/quicktime"@ {
        Some("mov")
    } else if ct == "video/3gpp"@ {
        Some("3gp")
    } else if ct == "audio/mp4"@ || ct == "audio/m4a"@ {
        Some("m4a")
    } else if ct == "audio/webm"@ {
        Some("webm")
    } else if ct == "audio/ogg"@ {
        Some("ogg")
    } else {
        None
    }
}

/// Map an HTTP `Content-Type` string to a file extension.
pub fn ext_from_content_type(content_type: &str) -> (res: Option<&'static str>)
    ensures
        res == ext_for_mime(mime_essence(content_type@)),
{
    let cs = chars_of(content_type);
    let semi = scan_for(&cs, ';', 0, cs.len());
    proof {
        lemma_index_of(cs@, ';', semi as int);
    }
    let head: Vec<char> = {
        let h = string_from_range(&cs, 0, semi);
        chars_of(h.as_str())
    };
    assert(head@ =~= content_type@.take(semi as int));
    let t = trim_chars(&head);
    let ct = string_from(&t);
    let ct = ct.as_str();
    if str_eq(ct, "video/mp4") {
        Some("mp4")
    } else if str_eq(ct, "video/webm") {
        Some("webm")
    } else if str_eq(ct, "video/x-flv") || str_eq(ct, "application/x-flv") {
        Some("flv")
    } else if str_eq(ct, "video/quicktime") {
        Some("mov")
    } else if str_eq(ct, "video/3gpp") {
        Some("3gp")
    } else if str_eq(ct, "audio/mp4") || str_eq(ct, "audio/m4a") {
        Some("m4a")
    } else if str_eq(ct, "audio/webm") {
        Some("webm")
    } else if str_eq(ct, "audio/ogg") {
        Some("ogg")
    } else {
        None
    }
}

} // verus!
