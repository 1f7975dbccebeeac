//! Regular-expression matching, through the `regex` crate.
use vstd::prelude::*;

verus! {

/// One match of a pattern: the byte offset where the whole match starts,
/// and the text of its first two capture groups, when they took part.
#[derive(Debug)]
pub struct RegexMatch {
    pub start: usize,
    pub group1: Option<String>,
    pub group2: Option<String>,
}

/// What a match holds, its groups taken by their views.
pub open spec fn match_view(m: RegexMatch) -> (usize, Option<Seq<char>>, Option<Seq<char>>) {
    (
        m.start,
        match m.group1 {
            Some(g) => Some(g@),
            None => None,
        },
        match m.group2 {
            Some(g) => Some(g@),
            None => None,
        },
    )
}

/// The views of a sequence of matches.
pub open spec fn match_views(s: Seq<RegexMatch>) -> Seq<(usize, Option<Seq<char>>, Option<Seq<char>>)> {
    s.map_values(|m: RegexMatch| match_view(m))
}

/// The successive non-overlapping matches of `pattern` in `text`, leftmost
/// first, as `regex::Regex::captures_iter` gives them; empty where the
/// pattern does not compile.
pub uninterp spec fn regex_captures(pattern: Seq<char>, text: Seq<char>) -> Seq<
    (usize, Option<Seq<char>>, Option<Seq<char>>),
>;

/// Compiles `pattern` (`regex::Regex::new`) and lists the matches in `text`
/// (`Regex::captures_iter`): for each, the start of the whole match
/// (`Match::start`) and the text of groups 1 and 2 (`Captures::get`). A
/// pattern that does not compile gives no matches. The result is named: it
/// depends on the pattern and the text alone.
#[verifier::external_body]
pub(crate) fn captures_all(pattern: &str, text: &str) -> (r: Vec<RegexMatch>)
    ensures
        match_views(r@) == regex_captures(pattern@, text@),
{
    let re = match regex::Regex::new(pattern) {
        Ok(re) => re,
        Err(_) => return Vec::new(),
    };
    let mut out = Vec::new();
    for cap in re.captures_iter(text) {
        let start = cap.get(0).map_or(0, |m| m.start());
        let group1 = cap.get(1).map(|m| m.as_str().to_string());
        let group2 = cap.get(2).map(|m| m.as_str().to_string());
        out.push(RegexMatch { start, group1, group2 });
    }
    out
}

} // verus!
