//! Best-effort extraction of metadata (title, uploader, upload date, ...) from
//! archived YouTube watch pages. Modern pages ship their metadata inside
//! `ytInitialPlayerResponse`.

use vstd::prelude::*;
use crate::pattern::{first_group, first_match, group, group_of, regex_first_match};
use crate::text::{
    chars_of, ends_with, ends_with_seq, find_from, is_scalar_value, occurs_at, parse_u64,
    parse_u64_spec, push_char, push_str, replace_all, replace_chars, starts_with, starts_with_seq,
    str_eq, string_from, string_from_range, trim, trim_chars,
};

verus! {

/// One of `cs` is `c`.
pub open spec fn is_one_of(c: char, cs: Seq<char>) -> bool {
    cs.contains(c)
}

/// The index of the first character of `s` that is one of `cs`, if any.
#[verifier::opaque]
pub open spec fn first_of(s: Seq<char>, cs: Seq<char>) -> Option<int> {
    if exists|i: int| 0 <= i < s.len() && is_one_of(#[trigger] s[i], cs) {
        Some(choose|i: int| 0 <= i < s.len() && is_one_of(s[i], cs) && forall|j: int| 0 <= j < i ==> !is_one_of(#[trigger] s[j], cs))
    } else {
        None
    }
}

/// The index of the first occurrence of `needle` in `hay`, if any.
#[verifier::opaque]
pub open spec fn first_occurrence(hay: Seq<char>, needle: Seq<char>) -> Option<int> {
    if exists|i: int| occurs_at(hay, needle, i) {
        Some(choose|i: int| occurs_at(hay, needle, i) && forall|j: int| 0 <= j < i ==> !occurs_at(hay, needle, j))
    } else {
        None
    }
}

/// Where the bracket opened by `v[0]` is closed, scanning from index `i`
/// with `depth` brackets open: JSON strings (with backslash escapes) are
/// skipped, brackets of the other kind are ignored.
pub open spec fn close_index(v: Seq<char>, open: char, close: char, i: int, depth: int, in_string: bool, escaped: bool) -> Option<int>
    decreases v.len() - i,
{
    if i < 0 || i >= v.len() {
        None
    } else if in_string {
        if escaped {
            close_index(v, open, close, i + 1, depth, true, false)
        } else if v[i] == '\\' {
            close_index(v, open, close, i + 1, depth, true, true)
        } else if v[i] == '"' {
            close_index(v, open, close, i + 1, depth, false, false)
        } else {
            close_index(v, open, close, i + 1, depth, true, false)
        }
    } else if v[i] == '"' {
        close_index(v, open, close, i + 1, depth, true, false)
    } else if v[i] == open {
        close_index(v, open, close, i + 1, depth + 1, false, false)
    } else if v[i] == close {
        if depth - 1 == 0 {
            Some(i)
        } else {
            close_index(v, open, close, i + 1, depth - 1, false, false)
        }
    } else {
        close_index(v, open, close, i + 1, depth, false, escaped)
    }
}

/// The bracket that closes `open`.
pub open spec fn closing_bracket(open: char) -> char {
    if open == '{' {
        '}'
    } else {
        ']'
    }
}

/// The bracket a value opens with: `{` for an object, else `[`.
pub open spec fn opening_bracket(value: Seq<char>) -> char {
    if value[0] == '{' {
        '{'
    } else {
        '['
    }
}

/// The leading bracketed value of `value`, up to its matching close.
pub open spec fn bracketed_prefix(value: Seq<char>) -> Option<Seq<char>> {
    let open = opening_bracket(value);
    match close_index(value, open, closing_bracket(open), 0, 0, false, false) {
        Some(e) => Some(value.take(e + 1)),
        None => None,
    }
}

/// The JSON text that follows `marker` in a page: after the first `marker`,
/// skip to the first `=`, `{`, `[` or `:`, then to the first `{` or `[`, and
/// take the value up to its matching close.
pub open spec fn json_value_text_spec(html: Seq<char>, marker: Seq<char>) -> Option<Seq<char>> {
    match first_occurrence(html, marker) {
        None => None,
        Some(p) => {
            let rest = html.skip(p + marker.len());
            match first_of(rest, seq!['=', '{', '[', ':']) {
                None => None,
                Some(q) => {
                    let candidate = rest.skip(q);
                    match first_of(candidate, seq!['{', '[']) {
                        None => None,
                        Some(a) => bracketed_prefix(candidate.skip(a)),
                    }
                },
            }
        },
    }
}

/// The index of the first character of `cs[from..]` that is one of `set`.
fn scan_one_of(cs: &Vec<char>, set: &Vec<char>, from: usize) -> (res: Option<usize>)
    requires
        from <= cs@.len(),
    ensures
        match res {
            Some(i) => first_of(cs@.skip(from as int), set@) == Some(i - from) && from <= i < cs@.len()
                && set@.contains(cs@[i as int]),
            None => first_of(cs@.skip(from as int), set@) is None,
        },
{
    let ghost s = cs@.skip(from as int);
    let mut i = from;
    while i < cs.len()
        invariant
            from <= i <= cs@.len(),
            s == cs@.skip(from as int),
            forall|j: int| 0 <= j < i - from ==> !is_one_of(#[trigger] s[j], set@),
        decreases cs@.len() - i,
    {
        let c = cs[i];
        let mut k: usize = 0;
        let mut hit = false;
        while k < set.len()
            invariant
                k <= set@.len(),
                hit == exists|m: int| 0 <= m < k && set@[m] == c,
            decreases set@.len() - k,
        {
            if set[k] == c {
                hit = true;
            }
            k += 1;
        }
        assert(s[i - from] == c);
        if hit {
            proof {
                reveal(first_of);
                let m = choose|m: int| 0 <= m < set@.len() && set@[m] == c;
                assert(set@.contains(c));
                let w = (i - from) as int;
                assert(0 <= w < s.len() && is_one_of(s[w], set@));
                let chosen = choose|x: int| 0 <= x < s.len() && is_one_of(s[x], set@) && forall|j: int| 0 <= j < x ==> !is_one_of(#[trigger] s[j], set@);
                if chosen < w {
                } else if chosen > w {
                    assert(!is_one_of(s[w], set@));
                }
            }
            return Some(i);
        }
        assert(!set@.contains(c));
        i += 1;
    }
    proof {
        reveal(first_of);
    }
    None
}

/// The index of the first occurrence of `needle` in `hay`.
fn find_first(hay: &Vec<char>, needle: &Vec<char>) -> (res: Option<usize>)
    ensures
        match res {
            Some(i) => first_occurrence(hay@, needle@) == Some(i as int) && occurs_at(hay@, needle@, i as int),
            None => first_occurrence(hay@, needle@) is None,
        },
{
    let r = find_from(hay, needle, 0);
    proof {
        reveal(first_occurrence);
        match r {
            Some(i) => {
                let chosen = choose|x: int| occurs_at(hay@, needle@, x) && forall|j: int| 0 <= j < x ==> !occurs_at(hay@, needle@, j);
                assert(occurs_at(hay@, needle@, i as int));
                if chosen < i {
                    assert(occurs_at(hay@, needle@, chosen));
                } else if chosen > i {
                    assert(!occurs_at(hay@, needle@, i as int));
                }
            },
            None => {
                assert forall|x: int| !occurs_at(hay@, needle@, x) by {
                    if x >= 0 {
                        assert(!occurs_at(hay@, needle@, x));
                    }
                }
            },
        }
    }
    r
}

/// JSON may be assigned as `var ytInitialPlayerResponse = {...};`, as
/// `window["ytInitialPlayerResponse"] = {...}`, or appear inline as a key.
/// Find the marker and brace-scan to its matching close to extract the text
/// of the object (or array).
pub fn json_value_text(html: &str, marker: &str) -> (res: Option<String>)
    ensures
        res.deep_view() == json_value_text_spec(html@, marker@),
{
    let cs = chars_of(html);
    let m = chars_of(marker);
    let p = match find_first(&cs, &m) {
        Some(p) => p,
        None => return None,
    };
    let n = cs.len();
    assert(occurs_at(cs@, m@, p as int));
    assert(p + m@.len() <= cs@.len());
    let start = p + m.len();
    let ghost rest = html@.skip(start as int);
    let ops = vec!['=', '{', '[', ':'];
    assert(ops@ =~= seq!['=', '{', '[', ':']);
    let q = match scan_one_of(&cs, &ops, start) {
        Some(q) => q,
        None => return None,
    };
    let ghost candidate = rest.skip(q - start);
    assert(candidate =~= cs@.skip(q as int));
    let brs = vec!['{', '['];
    assert(brs@ =~= seq!['{', '[']);
    let a = match scan_one_of(&cs, &brs, q) {
        Some(a) => a,
        None => return None,
    };
    let ghost value = candidate.skip(a - q);
    assert(value =~= cs@.skip(a as int));
    match close_of(&cs, a) {
        Some(e) => {
            let text = string_from_range(&cs, a, e + 1);
            assert(text@ =~= value.take(e - a + 1));
            Some(text)
        },
        None => None,
    }
}

/// The index in `cs` of the bracket that closes the one at `a`.
fn close_of(cs: &Vec<char>, a: usize) -> (res: Option<usize>)
    requires
        a < cs@.len(),
        cs@[a as int] == '{' || cs@[a as int] == '[',
    ensures
        match res {
            Some(e) => a <= e < cs@.len() && bracketed_prefix(cs@.skip(a as int)) == Some(
                cs@.skip(a as int).take(e - a + 1),
            ),
            None => bracketed_prefix(cs@.skip(a as int)) is None,
        },
{
    let ghost value = cs@.skip(a as int);
    let (open, close) = if cs[a] == '{' {
        ('{', '}')
    } else {
        ('[', ']')
    };
    assert(value[0] == cs@[a as int]);
    assert(open == opening_bracket(value) && close == closing_bracket(open));
    let mut depth: usize = 0;
    let mut in_string = false;
    let mut escaped = false;
    let mut i = a;
    while i < cs.len()
        invariant
            a <= i <= cs@.len(),
            value == cs@.skip(a as int),
            depth <= i - a,
            !in_string ==> !escaped,
            close_index(value, open, close, (i - a) as int, depth as int, in_string, escaped)
                == close_index(value, open, close, 0, 0, false, false),
            i > a ==> depth >= 1,
            i == a ==> depth == 0 && !in_string,
            value[0] == open,
            open == '{' || open == '[',
            close == closing_bracket(open),
        decreases cs@.len() - i,
    {
        let b = cs[i];
        assert(value[i - a] == b);
        if in_string {
            if escaped {
                escaped = false;
            } else if b == '\\' {
                escaped = true;
            } else if b == '"' {
                in_string = false;
            }
        } else if b == '"' {
            in_string = true;
        } else if b == open {
            depth += 1;
        } else if b == close {
            if depth <= 1 {
                return Some(i);
            }
            depth -= 1;
        }
        i += 1;
    }
    None
}

/// A numeric character reference (`&#<digits>;`).
pub const NUMERIC_ENTITY_PATTERN: &'static str = r"&#(\d+);";

/// The page `<title>` element's text.
pub const TITLE_PATTERN: &'static str = r#"(?is)<title[^>]*>(.*?)</title>"#;

/// The part of a `<meta property=... content=...>` pattern before the
/// property name.
pub const META_PATTERN_HEAD: &'static str = r#"<meta\s+[^>]*property=[\""']?"#;

/// The part of a `<meta property=... content=...>` pattern after the
/// property name.
pub const META_PATTERN_TAIL: &'static str = r#"[\""']?[^>]*content=[\""']([^\""']+)"#;

/// The named character references the decoder knows, in the order they are
/// replaced.
pub open spec fn named_entities_decoded(s: Seq<char>) -> Seq<char> {
    let s1 = replace_all(s, "&amp;"@, "&"@);
    let s2 = replace_all(s1, "&quot;"@, "\""@);
    let s3 = replace_all(s2, "&#39;"@, "'"@);
    let s4 = replace_all(s3, "&lt;"@, "<"@);
    let s5 = replace_all(s4, "&gt;"@, ">"@);
    replace_all(s5, "&nbsp;"@, " "@)
}

/// Replacing one pattern in `a + e + b`, where `a` and `b` hold no `&` and
/// the reference `e` holds it only in front: `e` is replaced when it is the
/// pattern, and nothing changes otherwise.
proof fn lemma_reference_stage(a: Seq<char>, e: Seq<char>, b: Seq<char>, p: Seq<char>, t: Seq<char>)
    requires
        p.len() >= 2,
        e.len() >= 2,
        p[0] == '&',
        e[0] == '&',
        e == p || e[1] != p[1],
        !a.contains('&'),
        !b.contains('&'),
        !e.drop_first().contains('&'),
    ensures
        replace_all(a + e + b, p, t) == if e == p { a + t + b } else { a + e + b },
{
    crate::text::lemma_replace_all_plain_prefix(a, e + b, p, t);
    assert(a + e + b =~= a + (e + b));
    if e == p {
        crate::text::lemma_replace_all_at_front(b, p, t);
        crate::text::lemma_replace_all_absent(b, p, t);
        assert(a + (t + b) =~= a + t + b);
    } else {
        let x = e + b;
        assert(x[1] == e[1]);
        assert(!starts_with_seq(x, p)) by {
            if starts_with_seq(x, p) {
                assert(x.subrange(0, p.len() as int)[1] == x[1]);
            }
        }
        assert(!x.drop_first().contains('&')) by {
            if x.drop_first().contains('&') {
                let j = choose|j: int| 0 <= j < x.drop_first().len() && x.drop_first()[j] == '&';
                if j + 1 < e.len() {
                    assert(e.drop_first()[j] == '&');
                } else {
                    assert(b[j + 1 - e.len()] == '&');
                }
            }
        }
        crate::text::lemma_replace_all_near_miss(x, p, t);
    }
}

/// A text without `&` goes through every named-reference replacement
/// unchanged.
proof fn lemma_plain_stage(x: Seq<char>, p: Seq<char>, t: Seq<char>)
    requires
        p.len() >= 1,
        p[0] == '&',
        !x.contains('&'),
    ensures
        replace_all(x, p, t) == x,
{
    crate::text::lemma_replace_all_absent(x, p, t);
}

/// Named character references are decoded to the character they name, in
/// place: with plain text (no `&`) around it, `&quot;`, `&#39;`, `&lt;`,
/// `&gt;` and `&nbsp;` each become `"`, `'`, `<`, `>` and a space, and the
/// text around is kept.
pub proof fn lemma_named_references_decode_in_place(a: Seq<char>, e: Seq<char>, c: char, b: Seq<char>)
    requires
        !a.contains('&'),
        !b.contains('&'),
        (e == "&quot;"@ && c == '"') || (e == "&#39;"@ && c == '\'') || (e == "&lt;"@ && c == '<')
            || (e == "&gt;"@ && c == '>') || (e == "&nbsp;"@ && c == ' '),
    ensures
        named_entities_decoded(a + e + b) == a + seq![c] + b,
{
    reveal_strlit("&amp;");
    reveal_strlit("&quot;");
    reveal_strlit("&#39;");
    reveal_strlit("&lt;");
    reveal_strlit("&gt;");
    reveal_strlit("&nbsp;");
    reveal_strlit("&");
    reveal_strlit("\"");
    reveal_strlit("'");
    reveal_strlit("<");
    reveal_strlit(">");
    reveal_strlit(" ");
    let m = a + seq![c] + b;
    assert(!m.contains('&')) by {
        if m.contains('&') {
            let j = choose|j: int| 0 <= j < m.len() && m[j] == '&';
            if j < a.len() {
                assert(a[j] == '&');
            } else if j > a.len() {
                assert(b[j - a.len() - 1] == '&');
            }
        }
    }
    assert(!e.drop_first().contains('&')) by {
        if e.drop_first().contains('&') {
            let j = choose|j: int| 0 <= j < e.drop_first().len() && e.drop_first()[j] == '&';
            assert(e[j + 1] == '&');
        }
    }
    // Until the stage for `e`, the text is unchanged; after it, it is `m`,
    // which no later stage touches.
    let x0 = a + e + b;
    let x1 = replace_all(x0, "&amp;"@, "&"@);
    lemma_reference_stage(a, e, b, "&amp;"@, "&"@);
    let x2 = replace_all(x1, "&quot;"@, "\""@);
    if x1 == x0 {
        lemma_reference_stage(a, e, b, "&quot;"@, "\""@);
    } else {
        lemma_plain_stage(x1, "&quot;"@, "\""@);
    }
    let x3 = replace_all(x2, "&#39;"@, "'"@);
    if x2 == x0 {
        lemma_reference_stage(a, e, b, "&#39;"@, "'"@);
    } else {
        lemma_plain_stage(x2, "&#39;"@, "'"@);
    }
    let x4 = replace_all(x3, "&lt;"@, "<"@);
    if x3 == x0 {
        lemma_reference_stage(a, e, b, "&lt;"@, "<"@);
    } else {
        lemma_plain_stage(x3, "&lt;"@, "<"@);
    }
    let x5 = replace_all(x4, "&gt;"@, ">"@);
    if x4 == x0 {
        lemma_reference_stage(a, e, b, "&gt;"@, ">"@);
    } else {
        lemma_plain_stage(x4, "&gt;"@, ">"@);
    }
    let x6 = replace_all(x5, "&nbsp;"@, " "@);
    if x5 == x0 {
        lemma_reference_stage(a, e, b, "&nbsp;"@, " "@);
    } else {
        lemma_plain_stage(x5, "&nbsp;"@, " "@);
    }
    assert(x6 == m);
}

/// A `&` left by decoding `&amp;` starts no further reference unless a `;`
/// follows it: a later pattern, which ends in `;`, cannot match there.
proof fn lemma_amp_survives(a: Seq<char>, b: Seq<char>, p: Seq<char>, t: Seq<char>)
    requires
        p.len() >= 2,
        p[0] == '&',
        p[p.len() - 1] == ';',
        !a.contains('&'),
        !b.contains('&'),
        !b.contains(';'),
    ensures
        replace_all(a + seq!['&'] + b, p, t) == a + seq!['&'] + b,
{
    let x = seq!['&'] + b;
    crate::text::lemma_replace_all_plain_prefix(a, x, p, t);
    assert(a + seq!['&'] + b =~= a + x);
    assert(!starts_with_seq(x, p)) by {
        if starts_with_seq(x, p) {
            let k = p.len() - 1;
            assert(x.subrange(0, p.len() as int)[k] == x[k]);
            assert(x[k] == b[k - 1]);
        }
    }
    assert(x.drop_first() =~= b);
    crate::text::lemma_replace_all_near_miss(x, p, t);
}

/// `&amp;` is decoded to `&`, in place, when no `;` follows in the text
/// after it (so the `&` it leaves cannot start another reference).
pub proof fn lemma_amp_decodes_in_place(a: Seq<char>, b: Seq<char>)
    requires
        !a.contains('&'),
        !b.contains('&'),
        !b.contains(';'),
    ensures
        named_entities_decoded(a + "&amp;"@ + b) == a + seq!['&'] + b,
{
    reveal_strlit("&amp;");
    reveal_strlit("&");
    reveal_strlit("&quot;");
    reveal_strlit("\"");
    reveal_strlit("&#39;");
    reveal_strlit("'");
    reveal_strlit("&lt;");
    reveal_strlit("<");
    reveal_strlit("&gt;");
    reveal_strlit(">");
    reveal_strlit("&nbsp;");
    reveal_strlit(" ");
    assert(!"&amp;"@.drop_first().contains('&')) by {
        if "&amp;"@.drop_first().contains('&') {
            let j = choose|j: int| 0 <= j < 4 && "&amp;"@.drop_first()[j] == '&';
            assert("&amp;"@[j + 1] == '&');
        }
    }
    lemma_reference_stage(a, "&amp;"@, b, "&amp;"@, "&"@);
    assert("&"@ =~= seq!['&']);
    lemma_amp_survives(a, b, "&quot;"@, "\""@);
    lemma_amp_survives(a, b, "&#39;"@, "'"@);
    lemma_amp_survives(a, b, "&lt;"@, "<"@);
    lemma_amp_survives(a, b, "&gt;"@, ">"@);
    lemma_amp_survives(a, b, "&nbsp;"@, " "@);
}

/// What `str::parse::<u32>` accepts.
pub open spec fn parse_u32_spec(s: Seq<char>) -> Option<u32> {
    match parse_u64_spec(s) {
        Some(v) => if v <= u32::MAX {
            Some(v as u32)
        } else {
            None
        },
        None => None,
    }
}

/// The text a numeric reference stands for: the character with that
/// decimal code point, or nothing when there is none.
pub open spec fn numeric_entity_text(digits: Option<Seq<char>>) -> Seq<char> {
    match digits {
        Some(d) => match parse_u32_spec(d) {
            Some(u) => if is_scalar_value(u) {
                seq![u as char]
            } else {
                Seq::empty()
            },
            None => Seq::empty(),
        },
        None => Seq::empty(),
    }
}

/// Every numeric reference replaced by the character it stands for, left
/// to right.
pub open spec fn numeric_entities_decoded(s: Seq<char>) -> Seq<char>
    decreases s.len(),
{
    let m = regex_first_match(NUMERIC_ENTITY_PATTERN@, s);
    match m {
        Some(v) => if v.2.len() < s.len() {
            v.0 + numeric_entity_text(group_of(m, 1)) + numeric_entities_decoded(v.2)
        } else {
            s
        },
        None => s,
    }
}

/// HTML entity decoding of a title: named references, then numeric ones,
/// then surrounding whitespace trimmed.
pub open spec fn entity_decode_spec(s: Seq<char>) -> Seq<char> {
    trim(numeric_entities_decoded(named_entities_decoded(s)))
}

/// `str::parse::<u32>`.
fn parse_u32(s: &str) -> (res: Option<u32>)
    ensures
        res == parse_u32_spec(s@),
{
    match parse_u64(s) {
        Some(v) => if v <= 0xffff_ffff {
            Some(v as u32)
        } else {
            None
        },
        None => None,
    }
}

/// The character a numeric reference's digits stand for, as text.
fn numeric_entity(digits: Option<String>) -> (res: Vec<char>)
    ensures
        res@ == numeric_entity_text(digits.deep_view()),
{
    let mut res: Vec<char> = Vec::new();
    match digits {
        Some(d) => match parse_u32(d.as_str()) {
            Some(u) => match char::from_u32(u) {
                Some(c) => {
                    res.push(c);
                    proof {
                        vstd::utf8::char_u32_cast(c, u);
                    }
                    assert(res@ =~= seq![u as char]);
                },
                None => {},
            },
            None => {},
        },
        None => {},
    }
    proof {
        if res@.len() == 0 {
            assert(res@ =~= Seq::<char>::empty());
        }
    }
    res
}

fn html_entity_decode(s: &str) -> (res: String)
    ensures
        res@ == entity_decode_spec(s@),
{
    let cs = chars_of(s);
    proof {
        reveal_strlit("&amp;");
        reveal_strlit("&quot;");
        reveal_strlit("&#39;");
        reveal_strlit("&lt;");
        reveal_strlit("&gt;");
        reveal_strlit("&nbsp;");
    }
    let out = replace_chars(&cs, "&amp;", "&");
    let out = replace_chars(&out, "&quot;", "\"");
    let out = replace_chars(&out, "&#39;", "'");
    let out = replace_chars(&out, "&lt;", "<");
    let out = replace_chars(&out, "&gt;", ">");
    let out = replace_chars(&out, "&nbsp;", " ");
    // Cheap numeric-entity pass (decimal only, enough for titles).
    let mut done: Vec<char> = Vec::new();
    let mut rest = string_from(&out);
    loop
        invariant
            done@ + numeric_entities_decoded(rest@) == numeric_entities_decoded(named_entities_decoded(s@)),
        ensures
            done@ + rest@ == numeric_entities_decoded(named_entities_decoded(s@)),
        decreases rest@.len(),
    {
        let m = first_match(NUMERIC_ENTITY_PATTERN, rest.as_str());
        match m {
            Some(m) => {
                if chars_of(m.after.as_str()).len() >= chars_of(rest.as_str()).len() {
                    break;
                }
                let ghost before = done@;
                let b = chars_of(m.before.as_str());
                let e = numeric_entity(group(&m, 1));
                let mut k: usize = 0;
                while k < b.len()
                    invariant
                        k <= b@.len(),
                        done@ == before + b@.take(k as int),
                    decreases b@.len() - k,
                {
                    done.push(b[k]);
                    k += 1;
                    assert(done@ =~= before + b@.take(k as int));
                }
                assert(b@.take(k as int) =~= b@);
                let ghost mid = done@;
                k = 0;
                while k < e.len()
                    invariant
                        k <= e@.len(),
                        done@ == mid + e@.take(k as int),
                    decreases e@.len() - k,
                {
                    done.push(e[k]);
                    k += 1;
                    assert(done@ =~= mid + e@.take(k as int));
                }
                assert(e@.take(k as int) =~= e@);
                assert(done@ + numeric_entities_decoded(m.after@) =~= before + (b@ + e@ + numeric_entities_decoded(m.after@)));
                rest = m.after;
            },
            None => break,
        }
    }
    let mut k: usize = 0;
    let r = chars_of(rest.as_str());
    let ghost d0 = done@;
    while k < r.len()
        invariant
            k <= r@.len(),
            done@ == d0 + r@.take(k as int),
        decreases r@.len() - k,
    {
        done.push(r[k]);
        k += 1;
        assert(done@ =~= d0 + r@.take(k as int));
    }
    assert(r@.take(k as int) =~= r@);
    let t = trim_chars(&done);
    string_from(&t)
}

/// A page title without YouTube's branding: branding-only titles give
/// nothing; a ` - YouTube` suffix (or else a `YouTube - ` prefix) is cut;
/// entities are decoded.
pub open spec fn clean_title_spec(title: Seq<char>) -> Seq<char> {
    let t = trim(title);
    if t.len() == 0 || t == "- YouTube"@ || t == "YouTube"@ || t == "YouTube -"@ {
        Seq::empty()
    } else {
        let u = if ends_with_seq(t, " - YouTube"@) {
            t.take(t.len() - 10)
        } else if starts_with_seq(t, "YouTube - "@) {
            t.skip(10)
        } else {
            t
        };
        entity_decode_spec(u)
    }
}

/// A page title without YouTube's branding.
pub fn clean_yt_title(title: &str) -> (res: String)
    ensures
        res@ == clean_title_spec(title@),
{
    let cs = chars_of(title);
    let t = trim_chars(&cs);
    let ts = string_from(&t);
    // Branding-only titles (e.g. `<title> - YouTube</title>`) carry no name.
    if t.len() == 0 || str_eq(ts.as_str(), "- YouTube") || str_eq(ts.as_str(), "YouTube") || str_eq(
        ts.as_str(),
        "YouTube -",
    ) {
        return String::new();
    }
    proof {
        reveal_strlit(" - YouTube");
        reveal_strlit("YouTube - ");
    }
    let suffix = chars_of(" - YouTube");
    let prefix = chars_of("YouTube - ");
    let u = if ends_with(&t, &suffix) {
        string_from_range(&t, 0, t.len() - 10)
    } else if starts_with(&t, &prefix) {
        string_from_range(&t, 10, t.len())
    } else {
        ts
    };
    proof {
        if ends_with_seq(t@, " - YouTube"@) {
            assert(t@.subrange(0, t@.len() - 10) =~= t@.take(t@.len() - 10));
        } else if starts_with_seq(t@, "YouTube - "@) {
            assert(t@.subrange(10, t@.len() as int) =~= t@.skip(10));
        }
    }
    html_entity_decode(u.as_str())
}

/// The regular expression for `<meta property="<property>" content="...">`.
pub open spec fn meta_pattern(property: Seq<char>) -> Seq<char> {
    META_PATTERN_HEAD@ + property + META_PATTERN_TAIL@
}

/// The decoded `content` of the page's first `<meta>` element for
/// `property`.
pub open spec fn simple_meta_spec(html: Seq<char>, property: Seq<char>) -> Option<Seq<char>> {
    match group_of(regex_first_match(meta_pattern(property), html), 1) {
        Some(c) => Some(entity_decode_spec(c)),
        None => None,
    }
}

fn simple_meta(html: &str, property: &str) -> (res: Option<String>)
    ensures
        res.deep_view() == simple_meta_spec(html@, property@),
{
    let mut pattern = String::from_str(META_PATTERN_HEAD);
    push_str(&mut pattern, property);
    push_str(&mut pattern, META_PATTERN_TAIL);
    match first_group(pattern.as_str(), html, 1) {
        Some(c) => Some(html_entity_decode(c.as_str())),
        None => None,
    }
}

/// A JSON value found by a pointer, as far as the metadata reader looks at
/// it.
#[derive(Debug, Clone, PartialEq, Eq)]
pub enum JsonScalar {
    /// The text is not JSON, or nothing is at the pointer.
    Absent,
    Str(String),
    Bool(bool),
    /// A number that fits in a `u64`.
    UInt(u64),
    /// Anything else (null, another number, an array or an object).
    Other,
}

/// A [`JsonScalar`] with its text as characters.
pub enum JsonScalarView {
    Absent,
    Str(Seq<char>),
    Bool(bool),
    UInt(u64),
    Other,
}

impl View for JsonScalar {
    type V = JsonScalarView;

    open spec fn view(&self) -> JsonScalarView {
        match self {
            JsonScalar::Absent => JsonScalarView::Absent,
            JsonScalar::Str(s) => JsonScalarView::Str(s@),
            JsonScalar::Bool(b) => JsonScalarView::Bool(*b),
            JsonScalar::UInt(u) => JsonScalarView::UInt(*u),
            JsonScalar::Other => JsonScalarView::Other,
        }
    }
}

/// What `serde_json` finds at a JSON pointer in a JSON text.
pub uninterp spec fn json_pointer_value(text: Seq<char>, pointer: Seq<char>) -> JsonScalarView;

/// Parses `text` with `serde_json::from_str::<serde_json::Value>` and
/// follows `pointer` with `Value::pointer`, telling the value's kind apart
/// (`Number::as_u64` for numbers). Claimed of the crate: the outcome is a
/// function of the text and the pointer (named [`json_pointer_value`]).
#[verifier::external_body]
fn json_lookup(text: &str, pointer: &str) -> (res: JsonScalar)
    ensures
        res@ == json_pointer_value(text@, pointer@),
{
    let v: serde_json::Value = match serde_json::from_str(text) {
        Ok(v) => v,
        Err(_) => return JsonScalar::Absent,
    };
    match v.pointer(pointer) {
        None => JsonScalar::Absent,
        Some(serde_json::Value::String(s)) => JsonScalar::Str(s.clone()),
        Some(serde_json::Value::Bool(b)) => JsonScalar::Bool(*b),
        Some(serde_json::Value::Number(n)) => match n.as_u64() {
            Some(u) => JsonScalar::UInt(u),
            None => JsonScalar::Other,
        },
        Some(_) => JsonScalar::Other,
    }
}

/// The string at a pointer, if that is what is there.
pub open spec fn json_str(text: Seq<char>, pointer: Seq<char>) -> Option<Seq<char>> {
    match json_pointer_value(text, pointer) {
        JsonScalarView::Str(s) => Some(s),
        _ => None,
    }
}

/// The boolean at a pointer, if that is what is there.
pub open spec fn json_bool(text: Seq<char>, pointer: Seq<char>) -> Option<bool> {
    match json_pointer_value(text, pointer) {
        JsonScalarView::Bool(b) => Some(b),
        _ => None,
    }
}

/// A count given as a decimal string or as a number.
pub open spec fn json_count(text: Seq<char>, pointer: Seq<char>) -> Option<u64> {
    match json_pointer_value(text, pointer) {
        JsonScalarView::Str(s) => parse_u64_spec(s),
        JsonScalarView::UInt(u) => Some(u),
        _ => None,
    }
}

fn str_at(text: &str, pointer: &str) -> (res: Option<String>)
    ensures
        res.deep_view() == json_str(text@, pointer@),
{
    match json_lookup(text, pointer) {
        JsonScalar::Str(s) => Some(s),
        _ => None,
    }
}

fn bool_at(text: &str, pointer: &str) -> (res: Option<bool>)
    ensures
        res == json_bool(text@, pointer@),
{
    match json_lookup(text, pointer) {
        JsonScalar::Bool(b) => Some(b),
        _ => None,
    }
}

fn count_at(text: &str, pointer: &str) -> (res: Option<u64>)
    ensures
        res == json_count(text@, pointer@),
{
    match json_lookup(text, pointer) {
        JsonScalar::Str(s) => parse_u64(s.as_str()),
        JsonScalar::UInt(u) => Some(u),
        _ => None,
    }
}

/// At most the first ten characters (the date part of an ISO timestamp).
pub open spec fn first_ten(s: Seq<char>) -> Seq<char> {
    if s.len() <= 10 {
        s
    } else {
        s.take(10)
    }
}

fn first_ten_chars(s: &str) -> (res: String)
    ensures
        res@ == first_ten(s@),
{
    let cs = chars_of(s);
    let n = if cs.len() <= 10 {
        cs.len()
    } else {
        10
    };
    let r = string_from_range(&cs, 0, n);
    assert(r@ =~= first_ten(s@));
    r
}

/// Metadata gleaned from an archived watch page.
#[derive(Debug, Clone, PartialEq, Eq)]
pub struct VideoMetadata {
    pub title: Option<String>,
    pub uploader: Option<String>,
    pub channel_id: Option<String>,
    pub upload_date: Option<String>,
    pub duration: Option<u64>,
    pub thumbnail: Option<String>,
    pub is_live: Option<bool>,
    pub live_start: Option<String>,
    pub live_end: Option<String>,
}

/// [`VideoMetadata`] with its texts as characters.
pub struct VideoMetadataView {
    pub title: Option<Seq<char>>,
    pub uploader: Option<Seq<char>>,
    pub channel_id: Option<Seq<char>>,
    pub upload_date: Option<Seq<char>>,
    pub duration: Option<u64>,
    pub thumbnail: Option<Seq<char>>,
    pub is_live: Option<bool>,
    pub live_start: Option<Seq<char>>,
    pub live_end: Option<Seq<char>>,
}

impl View for VideoMetadata {
    type V = VideoMetadataView;

    open spec fn view(&self) -> VideoMetadataView {
        VideoMetadataView {
            title: self.title.deep_view(),
            uploader: self.uploader.deep_view(),
            channel_id: self.channel_id.deep_view(),
            upload_date: self.upload_date.deep_view(),
            duration: self.duration,
            thumbnail: self.thumbnail.deep_view(),
            is_live: self.is_live,
            live_start: self.live_start.deep_view(),
            live_end: self.live_end.deep_view(),
        }
    }
}

/// Metadata with nothing known.
pub open spec fn no_metadata() -> VideoMetadataView {
    VideoMetadataView {
        title: None,
        uploader: None,
        channel_id: None,
        upload_date: None,
        duration: None,
        thumbnail: None,
        is_live: None,
        live_start: None,
        live_end: None,
    }
}

impl Default for VideoMetadata {
    fn default() -> (res: Self)
        ensures
            res@ == no_metadata(),
    {
        VideoMetadata {
            title: None,
            uploader: None,
            channel_id: None,
            upload_date: None,
            duration: None,
            thumbnail: None,
            is_live: None,
            live_start: None,
            live_end: None,
        }
    }
}

/// The ISO publish date's first ten characters, if any.
pub open spec fn opt_first_ten(s: Option<Seq<char>>) -> Option<Seq<char>> {
    match s {
        Some(d) => Some(first_ten(d)),
        None => None,
    }
}

/// The first of two optional values that is present.
pub open spec fn or_else<T>(a: Option<T>, b: Option<T>) -> Option<T> {
    match a {
        Some(x) => Some(x),
        None => b,
    }
}

/// The facts of a page's `ytInitialPlayerResponse` (given as its JSON text).
pub open spec fn player_metadata(pr: Option<Seq<char>>) -> VideoMetadataView {
    match pr {
        None => no_metadata(),
        Some(t) => VideoMetadataView {
            title: json_str(t, "/videoDetails/title"@),
            uploader: json_str(t, "/videoDetails/author"@),
            channel_id: json_str(t, "/videoDetails/channelId"@),
            upload_date: opt_first_ten(json_str(t, "/microformat/playerMicroformatRenderer/publishDate"@)),
            duration: json_count(t, "/videoDetails/lengthSeconds"@),
            thumbnail: json_str(t, "/videoDetails/thumbnail/thumbnails/0/url"@),
            is_live: or_else(json_bool(t, "/videoDetails/isLive"@), json_bool(t, "/videoDetails/isLiveContent"@)),
            live_start: json_str(t, "/microformat/playerMicroformatRenderer/liveBroadcastDetails/startTimestamp"@),
            live_end: json_str(t, "/microformat/playerMicroformatRenderer/liveBroadcastDetails/endTimestamp"@),
        },
    }
}

/// A cleaned title candidate, unless it is empty.
pub open spec fn nonempty_title(t: Option<Seq<char>>) -> Option<Seq<char>> {
    match t {
        Some(raw) => if clean_title_spec(raw).len() > 0 {
            Some(clean_title_spec(raw))
        } else {
            None
        },
        None => None,
    }
}

/// A missing title taken from `og:title`, else from `<title>`.
pub open spec fn with_title_fallbacks(m: VideoMetadataView, html: Seq<char>) -> VideoMetadataView {
    let m1 = if m.title is None {
        VideoMetadataView { title: nonempty_title(simple_meta_spec(html, "og:title"@)), ..m }
    } else {
        m
    };
    if m1.title is None {
        VideoMetadataView {
            title: nonempty_title(group_of(regex_first_match(TITLE_PATTERN@, html), 1)),
            ..m1
        }
    } else {
        m1
    }
}

/// Missing title, uploader and upload date taken from the page's
/// `videoDescriptionHeaderRenderer` (given as its JSON text).
pub open spec fn with_description(m: VideoMetadataView, desc: Option<Seq<char>>) -> VideoMetadataView {
    if m.title is Some && m.uploader is Some && m.upload_date is Some {
        m
    } else {
        match desc {
            None => m,
            Some(d) => VideoMetadataView {
                title: if m.title is None {
                    json_str(d, "/title/runs/0/text"@)
                } else {
                    m.title
                },
                uploader: if m.uploader is None {
                    or_else(json_str(d, "/channel"@), json_str(d, "/channel/simpleText"@))
                } else {
                    m.uploader
                },
                upload_date: if m.upload_date is None {
                    json_str(d, "/publishDate/simpleText"@)
                } else {
                    m.upload_date
                },
                ..m
            },
        }
    }
}

/// A missing upload date taken from the live broadcast's start.
pub open spec fn with_live_date(m: VideoMetadataView) -> VideoMetadataView {
    if m.upload_date is None && m.live_start is Some {
        VideoMetadataView { upload_date: Some(first_ten(m.live_start->0)), ..m }
    } else {
        m
    }
}

/// All available metadata of an archived watch page.
pub open spec fn extract_metadata_spec(html: Seq<char>) -> VideoMetadataView {
    let m = player_metadata(json_value_text_spec(html, "ytInitialPlayerResponse"@));
    let m = with_title_fallbacks(m, html);
    let m = with_description(m, json_value_text_spec(html, "videoDescriptionHeaderRenderer"@));
    with_live_date(m)
}

fn player_response(html: &str) -> (res: Option<String>)
    ensures
        res.deep_view() == json_value_text_spec(html@, "ytInitialPlayerResponse"@),
{
    json_value_text(html, "ytInitialPlayerResponse")
}

fn opt_ten(s: Option<String>) -> (res: Option<String>)
    ensures
        res.deep_view() == opt_first_ten(s.deep_view()),
{
    match s {
        Some(d) => Some(first_ten_chars(d.as_str())),
        None => None,
    }
}

/// A cleaned title candidate, unless it is empty.
fn cleaned_nonempty(t: Option<String>) -> (res: Option<String>)
    ensures
        res.deep_view() == nonempty_title(t.deep_view()),
{
    match t {
        Some(raw) => {
            let c = clean_yt_title(raw.as_str());
            if chars_of(c.as_str()).len() > 0 {
                Some(c)
            } else {
                None
            }
        },
        None => None,
    }
}

/// Extract all available metadata from an archived watch page.
pub fn extract_metadata(html: &str) -> (res: VideoMetadata)
    ensures
        res@ == extract_metadata_spec(html@),
{
    let mut meta = VideoMetadata::default();
    let ghost m0 = player_metadata(json_value_text_spec(html@, "ytInitialPlayerResponse"@));
    if let Some(pr) = player_response(html) {
        let p = pr.as_str();
        meta.title = str_at(p, "/videoDetails/title");
        meta.uploader = str_at(p, "/videoDetails/author");
        meta.channel_id = str_at(p, "/videoDetails/channelId");
        meta.duration = count_at(p, "/videoDetails/lengthSeconds");
        meta.thumbnail = str_at(p, "/videoDetails/thumbnail/thumbnails/0/url");
        meta.upload_date = opt_ten(str_at(p, "/microformat/playerMicroformatRenderer/publishDate"));
        meta.is_live = match bool_at(p, "/videoDetails/isLive") {
            Some(b) => Some(b),
            None => bool_at(p, "/videoDetails/isLiveContent"),
        };
        meta.live_start = str_at(p, "/microformat/playerMicroformatRenderer/liveBroadcastDetails/startTimestamp");
        meta.live_end = str_at(p, "/microformat/playerMicroformatRenderer/liveBroadcastDetails/endTimestamp");
    }
    assert(meta@ == m0);
    let ghost m1 = with_title_fallbacks(m0, html@);
    if meta.title.is_none() {
        if let Some(m) = simple_meta(html, "og:title") {
            meta.title = cleaned_nonempty(Some(m));
        }
    }
    if meta.title.is_none() {
        meta.title = cleaned_nonempty(first_group(TITLE_PATTERN, html, 1));
    }
    assert(meta@ == m1);
    let ghost m2 = with_description(m1, json_value_text_spec(html@, "videoDescriptionHeaderRenderer"@));
    // Some archived pages (e.g. the player-overlay layout) carry their real
    // facts in `videoDescriptionHeaderRenderer`, which also has human dates
    // ("Mar 5, 2011") instead of ISO strings.
    if meta.title.is_none() || meta.uploader.is_none() || meta.upload_date.is_none() {
        if let Some(desc) = json_value_text(html, "videoDescriptionHeaderRenderer") {
            let d = desc.as_str();
            if meta.title.is_none() {
                meta.title = str_at(d, "/title/runs/0/text");
            }
            if meta.uploader.is_none() {
                meta.uploader = match str_at(d, "/channel") {
                    Some(c) => Some(c),
                    None => str_at(d, "/channel/simpleText"),
                };
            }
            if meta.upload_date.is_none() {
                meta.upload_date = str_at(d, "/publishDate/simpleText");
            }
        }
    }
    assert(meta@ == m2);
    // Live broadcasts have liveBroadcastDetails.startTimestamp instead of a
    // publishDate; fall back to it so a sensible upload date is still found.
    if meta.upload_date.is_none() {
        if let Some(start) = &meta.live_start {
            meta.upload_date = Some(first_ten_chars(start.as_str()));
        }
    }
    meta
}

/// A character that is not safe in a file name: a path separator, a
/// Windows-reserved character, NUL, or another control character.
pub open spec fn unsafe_in_filename(c: char) -> bool {
    c == '/' || c == '\\' || c == ':' || c == '*' || c == '?' || c == '"' || c == '<' || c == '>'
        || c == '|' || c == '\0' || (c as u32) < 0x20
}

/// The longest file name, in characters.
pub const MAX_FILENAME_CHARS: usize = 140;

/// A filesystem-safe version of `name`: unsafe characters become `_`,
/// surrounding whitespace and then dots are cut, and at most 140 characters
/// are kept.
pub open spec fn sanitize_spec(name: Seq<char>) -> Seq<char> {
    let mapped = name.map_values(|c: char| if unsafe_in_filename(c) { '_' } else { c });
    let cleaned = crate::text::strip_end(crate::text::strip_start(trim(mapped), '.'), '.');
    if cleaned.len() > 140 {
        cleaned.take(140)
    } else {
        cleaned
    }
}

/// A sanitized name is safe on every common filesystem: it holds none of
/// the characters that are replaced, and at most 140 characters.
pub proof fn lemma_sanitized_name_is_safe(name: Seq<char>)
    ensures
        sanitize_spec(name).len() <= MAX_FILENAME_CHARS,
        forall|i: int| 0 <= i < sanitize_spec(name).len() ==> !unsafe_in_filename(
            #[trigger] sanitize_spec(name)[i],
        ),
{
    let safe = |c: char| !unsafe_in_filename(c);
    let mapped = name.map_values(|c: char| if unsafe_in_filename(c) { '_' } else { c });
    assert forall|i: int| 0 <= i < mapped.len() implies safe(#[trigger] mapped[i]) by {}
    crate::text::lemma_trims_keep_chars(mapped, '.', safe);
    let t1 = crate::text::trim_start(mapped);
    crate::text::lemma_trims_keep_chars(t1, '.', safe);
    let t2 = trim(mapped);
    crate::text::lemma_trims_keep_chars(t2, '.', safe);
    let t3 = crate::text::strip_start(t2, '.');
    crate::text::lemma_trims_keep_chars(t3, '.', safe);
    let cleaned = crate::text::strip_end(t3, '.');
    assert forall|i: int| 0 <= i < sanitize_spec(name).len() implies !unsafe_in_filename(
        #[trigger] sanitize_spec(name)[i],
    ) by {
        assert(safe(cleaned[i]));
    }
}

/// A nice, filesystem-safe title (used for naming output).
pub fn sanitize_filename(name: &str) -> (res: String)
    ensures
        res@ == sanitize_spec(name@),
{
    let cs = chars_of(name);
    let mut mapped: Vec<char> = Vec::new();
    let mut i: usize = 0;
    while i < cs.len()
        invariant
            i <= cs@.len(),
            cs@ == name@,
            mapped@ == cs@.take(i as int).map_values(|c: char| if unsafe_in_filename(c) { '_' } else { c }),
        decreases cs@.len() - i,
    {
        let c = cs[i];
        let m = if c == '/' || c == '\\' || c == ':' || c == '*' || c == '?' || c == '"' || c == '<'
            || c == '>' || c == '|' || c == '\0' || (c as u32) < 0x20 {
            '_'
        } else {
            c
        };
        mapped.push(m);
        i += 1;
        assert(mapped@ =~= cs@.take(i as int).map_values(|c: char| if unsafe_in_filename(c) { '_' } else { c }));
    }
    assert(cs@.take(i as int) =~= cs@);
    let t = trim_chars(&mapped);
    let cleaned = crate::text::trim_matches_char(&t, '.');
    let max = MAX_FILENAME_CHARS;
    if cleaned.len() > max {
        string_from_range(&cleaned, 0, max)
    } else {
        string_from(&cleaned)
    }
}

} // verus!
