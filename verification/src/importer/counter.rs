//! A rough count of the tags in a markup source.

use vstd::prelude::*;

verus! {

/// The number of matches of the regular expression `pattern` in `text`,
/// found from left to right without overlap, as the `regex` crate finds
/// them; nothing where the pattern does not compile.
pub uninterp spec fn match_count(pattern: Seq<char>, text: Seq<char>) -> Option<nat>;

/// Counts the matches of `pattern` in `text`.
///
/// Trusted: stands for `regex::Regex::new` followed by
/// `regex::Regex::find_iter`, whose items are counted; a pattern that the
/// crate turns down gives nothing. The contract only gives the result its
/// name.
#[verifier::external_body]
pub(crate) fn count_matches(pattern: &str, text: &str) -> (res: Option<usize>)
    ensures
        match res {
            Some(n) => match_count(pattern@, text@) == Some(n as nat),
            None => match_count(pattern@, text@) is None,
        },
{
    regex::Regex::new(pattern).ok().map(|re| re.find_iter(text).count())
}

/// The number that a count of matches comes to: the count itself, and
/// zero where there is none.
pub open spec fn tags_counted(matches: Option<nat>) -> nat {
    match matches {
        Some(n) => n,
        None => 0,
    }
}

/// The number that a count of matches comes to.
pub fn tag_total(matches: Option<usize>) -> (res: usize)
    ensures
        res == tags_counted(
            match matches {
                Some(n) => Some(n as nat),
                None => None,
            },
        ),
{
    match matches {
        Some(n) => n,
        None => 0,
    }
}

/// The number of opening tags in `text`, counted as the matches of an
/// opening angle bracket, one or more characters other than a slash or a
/// line feed, and a closing angle bracket.
pub fn count_xml_tags(text: &str) -> (res: usize)
    ensures
        res == tags_counted(match_count("<[^/\\n]+>"@, text@)),
{
    tag_total(count_matches("<[^/\\n]+>", text))
}

} // verus!
