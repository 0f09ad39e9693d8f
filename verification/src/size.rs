//! Human-friendly byte-size parsing for `--max-size` (e.g. `150M`, `1.5G`,
//! `500MiB`). `K`/`KiB`/`M`/`MiB`/... are powers of 1024; `KB`/`MB`/`GB` are
//! powers of 1000. A bare number is bytes. The library reads the number's
//! text and the unit's multiplier; scaling a fractional number is left to
//! the caller's floating point.

use vstd::prelude::*;
use crate::pattern::{first_match, group, group_of, regex_first_match};
use crate::text::{chars_of, lower_seq, str_eq, string_from, to_ascii_lower, trim, trim_chars};

verus! {

/// A number with an optional fraction and an optional unit, case-insensitive.
pub const SIZE_PATTERN: &'static str = r"(?i)^\s*(\d+(?:\.\d+)?)\s*(b|kb|mb|gb|tb|k|kib|m|mib|g|gib|t|tib)?\s*$";

/// The multiplier of a (lower-cased) unit; no unit means bytes.
pub open spec fn unit_multiplier(unit: Option<Seq<char>>) -> Option<u64> {
    match unit {
        None => Some(1u64),
        Some(u) => if u == "b"@ {
            Some(1u64)
        } else if u == "k"@ || u == "kib"@ {
            Some(1024u64)
        } else if u == "m"@ || u == "mib"@ {
            Some(1_048_576u64)
        } else if u == "g"@ || u == "gib"@ {
            Some(1_073_741_824u64)
        } else if u == "t"@ || u == "tib"@ {
            Some(1_099_511_627_776u64)
        } else if u == "kb"@ {
            Some(1000u64)
        } else if u == "mb"@ {
            Some(1_000_000u64)
        } else if u == "gb"@ {
            Some(1_000_000_000u64)
        } else if u == "tb"@ {
            Some(1_000_000_000_000u64)
        } else {
            None
        },
    }
}

/// The lower-cased text of an optional unit.
pub open spec fn lowered(u: Option<Seq<char>>) -> Option<Seq<char>> {
    match u {
        Some(s) => Some(lower_seq(s)),
        None => None,
    }
}

/// The number's text and the unit's multiplier of a size, when it matches
/// [`SIZE_PATTERN`] after trimming and its unit is one of the listed ones.
pub open spec fn size_parts_spec(input: Seq<char>) -> Option<(Seq<char>, u64)> {
    let m = regex_first_match(SIZE_PATTERN@, trim(input));
    match (group_of(m, 1), unit_multiplier(lowered(group_of(m, 2)))) {
        (Some(n), Some(mult)) => Some((n, mult)),
        _ => None,
    }
}

/// The multiplier of a lower-cased unit.
fn multiplier(unit: Option<String>) -> (res: Option<u64>)
    ensures
        res == unit_multiplier(unit.deep_view()),
{
    match unit {
        None => Some(1),
        Some(u) => {
            let u = u.as_str();
            if str_eq(u, "b") {
                Some(1)
            } else if str_eq(u, "k") || str_eq(u, "kib") {
                Some(1024)
            } else if str_eq(u, "m") || str_eq(u, "mib") {
                Some(1024 * 1024)
            } else if str_eq(u, "g") || str_eq(u, "gib") {
                Some(1024 * 1024 * 1024)
            } else if str_eq(u, "t") || str_eq(u, "tib") {
                Some(1024 * 1024 * 1024 * 1024)
            } else if str_eq(u, "kb") {
                Some(1000)
            } else if str_eq(u, "mb") {
                Some(1000 * 1000)
            } else if str_eq(u, "gb") {
                Some(1000 * 1000 * 1000)
            } else if str_eq(u, "tb") {
                Some(1000 * 1000 * 1000 * 1000)
            } else {
                None
            }
        },
    }
}

/// ASCII lower-casing of a text.
fn lower_string(s: &str) -> (res: String)
    ensures
        res@ == lower_seq(s@),
{
    let cs = chars_of(s);
    let mut out: Vec<char> = Vec::new();
    let mut i: usize = 0;
    while i < cs.len()
        invariant
            i <= cs@.len(),
            out@ == lower_seq(cs@.take(i as int)),
        decreases cs@.len() - i,
    {
        out.push(to_ascii_lower(cs[i]));
        i += 1;
        assert(out@ =~= lower_seq(cs@.take(i as int)));
    }
    assert(cs@.take(i as int) =~= cs@);
    string_from(&out)
}

/// The number's text and the unit's multiplier of a human-readable size.
pub fn size_parts(input: &str) -> (res: Option<(String, u64)>)
    ensures
        match res {
            Some((n, mult)) => size_parts_spec(input@) == Some((n@, mult)),
            None => size_parts_spec(input@) is None,
        },
{
    let t = string_from(&trim_chars(&chars_of(input)));
    let m = match first_match(SIZE_PATTERN, t.as_str()) {
        Some(m) => m,
        None => return None,
    };
    let number = group(&m, 1);
    let unit = match group(&m, 2) {
        Some(u) => Some(lower_string(u.as_str())),
        None => None,
    };
    match (number, multiplier(unit)) {
        (Some(n), Some(mult)) => Some((n, mult)),
        _ => None,
    }
}

} // verus!
