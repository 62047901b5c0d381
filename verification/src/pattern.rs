//! Regular expressions, matched by the `regex` crate.
//!
//! What a pattern matches in a text is not restated here: it has a name, and
//! the contracts of this library speak of what is done with the match.

use crate::search::contains;
use crate::text::opt_view;
use regex::Regex;
use vstd::prelude::*;

verus! {

/// The text captured by each group of a match, group 0 being the whole match;
/// `None` for a group that took no part in it.
pub type Groups = Seq<Option<Seq<char>>>;

/// The views of the captured groups.
pub open spec fn groups_view(g: Seq<Option<String>>) -> Groups {
    Seq::new(g.len(), |i: int| opt_view(g[i]))
}

/// The views of the groups of a list of matches.
pub open spec fn matches_view(m: Seq<Vec<Option<String>>>) -> Seq<Groups> {
    Seq::new(m.len(), |i: int| groups_view(m[i]@))
}

/// The leftmost match of the pattern in the text: what stands before it, its
/// groups, and what stands after it. `None` where the pattern matches nowhere
/// or is no valid pattern.
pub uninterp spec fn regex_first(pattern: Seq<char>, text: Seq<char>) -> Option<
    (Seq<char>, Seq<Option<Seq<char>>>, Seq<char>),
>;

/// The groups of the successive matches of the pattern in the text, none
/// overlapping another. Empty where the pattern is no valid pattern.
pub uninterp spec fn regex_all(pattern: Seq<char>, text: Seq<char>) -> Seq<
    Seq<Option<Seq<char>>>,
>;

/// Whether a match has a whole match as its group 0, standing in the text
/// between what is before it and what is after it, and each other group that
/// took part is a part of the whole match.
pub open spec fn whole_in_text(
    f: (Seq<char>, Seq<Option<Seq<char>>>, Seq<char>),
    text: Seq<char>,
) -> bool {
    &&& f.1.len() >= 1
    &&& f.1[0].is_some()
    &&& f.0 + f.1[0].unwrap() + f.2 == text
    &&& forall|i: int|
        0 <= i < f.1.len() && (#[trigger] f.1[i]).is_some() ==> contains(
            f.1[0].unwrap(),
            f.1[i].unwrap(),
        )
}

/// A match found in a text.
pub struct Found {
    /// The text before the match.
    pub before: String,
    /// The text of each group, group 0 being the whole match.
    pub groups: Vec<Option<String>>,
    /// The text after the match.
    pub after: String,
}

impl View for Found {
    type V = (Seq<char>, Seq<Option<Seq<char>>>, Seq<char>);

    open spec fn view(&self) -> Self::V {
        (self.before@, groups_view(self.groups@), self.after@)
    }
}

/// The view of an optional match.
pub open spec fn found_view(f: Option<Found>) -> Option<
    (Seq<char>, Seq<Option<Seq<char>>>, Seq<char>),
> {
    match f {
        Some(f) => Some(f@),
        None => None,
    }
}

/// Compiles the pattern with `Regex::new` and searches the text with
/// `Regex::captures`. The result is the leftmost match; its group 0 is the whole
/// match, which stands in the text between what is returned as before and
/// after, and the text of every other group is a part of it.
#[verifier::external_body]
pub(crate) fn captures_first(pattern: &str, text: &str) -> (r: Option<Found>)
    ensures
        found_view(r) == regex_first(pattern@, text@),
        r matches Some(f) ==> whole_in_text(f@, text@),
{
    let re = Regex::new(pattern).ok()?;
    let caps = re.captures(text)?;
    let whole = caps.get(0)?;
    Some(
        Found {
            before: text[..whole.start()].to_string(),
            groups: caps.iter().map(|m| m.map(|m| m.as_str().to_string())).collect(),
            after: text[whole.end()..].to_string(),
        },
    )
}

/// Compiles the pattern with `Regex::new` and walks the text with
/// `Regex::captures_iter`, which yields the successive matches that do not
/// overlap.
#[verifier::external_body]
pub(crate) fn captures_all(pattern: &str, text: &str) -> (r: Vec<Vec<Option<String>>>)
    ensures
        matches_view(r@) == regex_all(pattern@, text@),
{
    match Regex::new(pattern) {
        Ok(re) => re.captures_iter(text).map(
            |caps| caps.iter().map(|m| m.map(|m| m.as_str().to_string())).collect(),
        ).collect(),
        Err(_) => Vec::new(),
    }
}

/// Compiles the pattern with `Regex::new` and asks `Regex::is_match`, which is
/// true if and only if the pattern matches somewhere in the text.
#[verifier::external_body]
pub(crate) fn is_match(pattern: &str, text: &str) -> (r: bool)
    ensures
        r == regex_first(pattern@, text@).is_some(),
{
    match Regex::new(pattern) {
        Ok(re) => re.is_match(text),
        Err(_) => false,
    }
}

/// Whether a character has a meaning of its own in a pattern.
pub open spec fn is_meta(c: char) -> bool {
    c == '\\' || c == '.' || c == '+' || c == '*' || c == '?' || c == '(' || c == ')' || c == '|'
        || c == '[' || c == ']' || c == '{' || c == '}' || c == '^' || c == '$' || c == '#' || c
        == '&' || c == '-' || c == '~'
}

/// The pattern that matches `s` and nothing else: `s` with a backslash before
/// each character that has a meaning of its own.
pub open spec fn escaped(s: Seq<char>) -> Seq<char>
    decreases s.len(),
{
    if s.len() == 0 {
        Seq::empty()
    } else if is_meta(s.last()) {
        escaped(s.drop_last()) + seq!['\\', s.last()]
    } else {
        escaped(s.drop_last()).push(s.last())
    }
}

/// Calls `regex::escape`, which puts a backslash before each character that
/// has a meaning of its own in a pattern.
#[verifier::external_body]
pub(crate) fn escape(text: &str) -> (r: String)
    ensures
        r@ == escaped(text@),
{
    regex::escape(text)
}

/// The text of group `n` of a match, where the match has it.
pub open spec fn group(g: Groups, n: int) -> Option<Seq<char>> {
    if 0 <= n < g.len() {
        g[n]
    } else {
        None
    }
}

/// The text of group `n` of a match, where the match has it.
pub fn group_of(g: &Vec<Option<String>>, n: usize) -> (r: Option<&String>)
    ensures
        match r {
            Some(s) => group(groups_view(g@), n as int) == Some(s@),
            None => group(groups_view(g@), n as int) is None,
        },
{
    if n < g.len() {
        match &g[n] {
            Some(s) => Some(s),
            None => None,
        }
    } else {
        None
    }
}

} // verus!
