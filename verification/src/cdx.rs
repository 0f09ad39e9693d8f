//! Human-friendly rendering of the Wayback Machine's CDX snapshots.

use vstd::prelude::*;
use vstd::utf8::{decode_utf8, encode_utf8, is_char_boundary, valid_utf8};
use crate::text::{contains_seq, contains_str, chars_of, push_str};
use crate::wayback::Snapshot;

verus! {

broadcast use vstd::utf8::encode_utf8_decode_utf8, vstd::utf8::encode_utf8_valid_utf8;

/// The text of bytes `i..j` of a UTF-8 encoding.
pub open spec fn bytes_text(b: Seq<u8>, i: int, j: int) -> Seq<char> {
    decode_utf8(b.subrange(i, j))
}

/// A 14-byte `YYYYMMDDhhmmss` timestamp shown as `YYYY-MM-DD hh:mm:ss`;
/// anything else unchanged.
pub open spec fn pretty_ts_spec(ts: Seq<char>) -> Seq<char> {
    let b = encode_utf8(ts);
    if b.len() == 14 {
        bytes_text(b, 0, 4) + "-"@ + bytes_text(b, 4, 6) + "-"@ + bytes_text(b, 6, 8) + " "@
            + bytes_text(b, 8, 10) + ":"@ + bytes_text(b, 10, 12) + ":"@ + bytes_text(b, 12, 14)
    } else {
        ts
    }
}

/// The byte offsets where a 14-byte timestamp is cut fall between
/// characters (slicing a `str` elsewhere panics).
pub open spec fn timestamp_cuttable(ts: Seq<char>) -> bool {
    let b = encode_utf8(ts);
    b.len() == 14 ==> is_char_boundary(b, 4) && is_char_boundary(b, 6) && is_char_boundary(b, 8)
        && is_char_boundary(b, 10) && is_char_boundary(b, 12)
}

proof fn lemma_boundary_shift(b: Seq<u8>, k: int, m: int)
    requires
        valid_utf8(b),
        valid_utf8(b.skip(k)),
        0 <= k,
        0 <= m,
        k + m < b.len(),
        is_char_boundary(b, k + m),
    ensures
        is_char_boundary(b.skip(k), m),
{
    vstd::utf8::is_char_boundary_iff_not_is_continuation_byte(b, k + m);
    vstd::utf8::is_char_boundary_iff_not_is_continuation_byte(b.skip(k), m);
    assert(b.skip(k)[m] == b[k + m]);
}

/// A `YYYYMMDDhhmmss` timestamp in readable form.
pub fn pretty_ts(ts: &str) -> (res: String)
    requires
        timestamp_cuttable(ts@),
    ensures
        res@ == pretty_ts_spec(ts@),
{
    let bytes = ts.as_bytes();
    if bytes.len() != 14 {
        return ts.to_owned();
    }
    let ghost b = encode_utf8(ts@);
    assert(b == encode_utf8(ts@));
    let (y, r) = ts.split_at(4);
    assert(encode_utf8(r@) =~= b.skip(4));
    proof {
        lemma_boundary_shift(b, 4, 2);
    }
    let (mo, r2) = r.split_at(2);
    assert(encode_utf8(r2@) =~= b.skip(6));
    proof {
        lemma_boundary_shift(b, 6, 2);
    }
    let (d, r3) = r2.split_at(2);
    assert(encode_utf8(r3@) =~= b.skip(8));
    proof {
        lemma_boundary_shift(b, 8, 2);
    }
    let (h, r4) = r3.split_at(2);
    assert(encode_utf8(r4@) =~= b.skip(10));
    proof {
        lemma_boundary_shift(b, 10, 2);
    }
    let (mi, s) = r4.split_at(2);
    assert(encode_utf8(y@) =~= b.subrange(0, 4));
    assert(encode_utf8(mo@) =~= b.subrange(4, 6));
    assert(encode_utf8(d@) =~= b.subrange(6, 8));
    assert(encode_utf8(h@) =~= b.subrange(8, 10));
    assert(encode_utf8(mi@) =~= b.subrange(10, 12));
    assert(encode_utf8(s@) =~= b.subrange(12, 14));
    let mut out = y.to_owned();
    push_str(&mut out, "-");
    push_str(&mut out, mo);
    push_str(&mut out, "-");
    push_str(&mut out, d);
    push_str(&mut out, " ");
    push_str(&mut out, h);
    push_str(&mut out, ":");
    push_str(&mut out, mi);
    push_str(&mut out, ":");
    push_str(&mut out, s);
    out
}

/// The number of snapshots of pages (`html`) and of media (`video`).
pub open spec fn kind_counts(snaps: Seq<Snapshot>) -> (nat, nat)
    decreases snaps.len(),
{
    if snaps.len() == 0 {
        (0, 0)
    } else {
        let (h, m) = kind_counts(snaps.drop_last());
        let s = snaps.last();
        (
            h + if contains_seq(s.mimetype@, "html"@) { 1nat } else { 0nat },
            m + if contains_seq(s.mimetype@, "video"@) { 1nat } else { 0nat },
        )
    }
}

/// How many of the captures are watch pages and how many are media.
pub fn count_kinds(snaps: &Vec<Snapshot>) -> (res: (usize, usize))
    ensures
        (res.0 as nat, res.1 as nat) == kind_counts(snaps@),
{
    let mut h: usize = 0;
    let mut m: usize = 0;
    let mut i: usize = 0;
    while i < snaps.len()
        invariant
            i <= snaps@.len(),
            h <= i,
            m <= i,
            (h as nat, m as nat) == kind_counts(snaps@.take(i as int)),
        decreases snaps@.len() - i,
    {
        let s = &snaps[i];
        assert(snaps@.take(i + 1).drop_last() =~= snaps@.take(i as int));
        if contains_str(&chars_of(s.mimetype.as_str()), "html") {
            h += 1;
        }
        if contains_str(&chars_of(s.mimetype.as_str()), "video") {
            m += 1;
        }
        i += 1;
    }
    assert(snaps@.take(i as int) =~= snaps@);
    (h, m)
}

} // verus!
