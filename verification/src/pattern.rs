//! The one door to the `regex` crate: the leftmost-first match of a pattern,
//! with the text around it and the text of every capture group.

use vstd::prelude::*;

verus! {

/// The first (leftmost-first) match of a regular expression in a haystack:
/// the text before it, the text of each capture group (group 0 is the whole
/// match; `None` for a group that did not take part), and the text after it.
pub struct RegexMatch {
    pub before: String,
    pub groups: Vec<Option<String>>,
    pub after: String,
}

/// What a [`RegexMatch`] holds, as character sequences.
pub type MatchView = (Seq<char>, Seq<Option<Seq<char>>>, Seq<char>);

impl View for RegexMatch {
    type V = MatchView;

    open spec fn view(&self) -> MatchView {
        (self.before@, self.groups.deep_view(), self.after@)
    }
}

/// What `regex::Regex::new(pattern)` followed by `captures(haystack)` yields:
/// `None` when the pattern does not compile or does not match.
pub uninterp spec fn regex_first_match(pattern: Seq<char>, haystack: Seq<char>) -> Option<MatchView>;

/// The text of capture group `i` of a match, if the match exists and the
/// group took part in it.
pub open spec fn group_of(m: Option<MatchView>, i: int) -> Option<Seq<char>> {
    match m {
        Some(v) => if 0 <= i < v.1.len() {
            v.1[i]
        } else {
            None
        },
        None => None,
    }
}

/// Compiles `pattern` with `regex::Regex::new` and runs `Regex::captures` on
/// `haystack`. Claimed of the crate: the outcome is a function of the two
/// texts (named [`regex_first_match`]); when there is a match, group 0 is
/// present and is the matched span, so the text before it, the match and the
/// text after it make up the haystack (`Captures::get` documents group 0 as
/// always present, `Match::start`/`end` as offsets into the haystack).
#[verifier::external_body]
fn regex_find(pattern: &str, haystack: &str) -> (res: Option<RegexMatch>)
    ensures
        match res {
            Some(m) => regex_first_match(pattern@, haystack@) == Some(m@),
            None => regex_first_match(pattern@, haystack@) is None,
        },
        res matches Some(m) ==> m.groups@.len() >= 1 && m.groups@[0] is Some && m.before@
            + m.groups@[0]->0@ + m.after@ == haystack@,
{
    let re = regex::Regex::new(pattern).ok()?;
    let caps = re.captures(haystack)?;
    let whole = caps.get(0)?;
    Some(RegexMatch {
        before: haystack[..whole.start()].to_string(),
        groups: caps.iter().map(|g| g.map(|m| m.as_str().to_string())).collect(),
        after: haystack[whole.end()..].to_string(),
    })
}

/// The first match of `pattern` in `haystack`, with the facts stated of
/// [`regex_first_match`].
pub fn first_match(pattern: &str, haystack: &str) -> (res: Option<RegexMatch>)
    ensures
        match res {
            Some(m) => regex_first_match(pattern@, haystack@) == Some(m@),
            None => regex_first_match(pattern@, haystack@) is None,
        },
        res matches Some(m) ==> m.groups@.len() >= 1 && m.groups@[0] is Some && m.before@
            + m.groups@[0]->0@ + m.after@ == haystack@,
{
    regex_find(pattern, haystack)
}

/// The text of capture group `i` of a match.
pub fn group(m: &RegexMatch, i: usize) -> (res: Option<String>)
    ensures
        res.deep_view() == group_of(Some(m@), i as int),
{
    if i < m.groups.len() {
        match &m.groups[i] {
            Some(g) => Some(g.clone()),
            None => None,
        }
    } else {
        None
    }
}

/// The text of capture group `i` of the first match of `pattern` in
/// `haystack`.
pub fn first_group(pattern: &str, haystack: &str, i: usize) -> (res: Option<String>)
    ensures
        res.deep_view() == group_of(regex_first_match(pattern@, haystack@), i as int),
{
    match first_match(pattern, haystack) {
        Some(m) => group(&m, i),
        None => None,
    }
}

} // verus!
