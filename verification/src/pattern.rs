//! Regular-expression search, done by the `regex` crate.

use vstd::prelude::*;
use regex::Regex;

verus! {

#[verifier::external_type_specification]
#[verifier::external_body]
pub struct ExRegex(Regex);

/// What the `regex` crate reports when `pattern` is compiled with
/// `Regex::new` and searched in `haystack` with `Regex::captures`: `None`
/// where the pattern does not compile or does not match; else the text of
/// each capture group in order, group 0 being the whole leftmost-first match,
/// and the empty text for a group that took no part in the match.
///
/// `Regex::new` also refuses a valid pattern whose compiled form exceeds the
/// crate's default size limit, and that size can differ with the machine's
/// pointer width. The patterns this crate compiles (see `sbt_patterns`) are
/// small literals far below that limit, so for them the result depends on the
/// pattern and the haystack alone.
pub uninterp spec fn regex_captures(pattern: Seq<char>, haystack: Seq<char>) -> Option<
    Seq<Seq<char>>,
>;

/// The texts of a `captures` result as plain sequences.
pub open spec fn captures_view(res: Option<Vec<String>>) -> Option<Seq<Seq<char>>> {
    match res {
        Some(groups) => Some(groups@.map_values(|g: String| g@)),
        None => None,
    }
}

/// A regular expression compiled once from its source text, to be searched
/// many times. A `Matcher` is made only by `Matcher::compile`, so its regex is
/// always the one compiled from `source`.
pub struct Matcher {
    source: String,
    re: Regex,
}

impl Matcher {
    /// The pattern this matcher was compiled from.
    pub closed spec fn source(&self) -> Seq<char> {
        self.source@
    }

    /// Compiles `source` with `regex::Regex::new`. On success the matcher
    /// keeps `source` as its pattern; on failure (an invalid pattern, or one
    /// over the crate's size limit) the pattern matches nothing, as
    /// `regex_captures` states for a pattern that does not compile.
    #[verifier::external_body]
    pub(crate) fn compile(source: &str) -> (res: Option<Matcher>)
        ensures
            match res {
                Some(m) => m.source() == source@,
                None => forall|h: Seq<char>| #[trigger] regex_captures(source@, h) is None,
            },
    {
        match Regex::new(source) {
            Ok(re) => Some(Matcher { source: source.to_string(), re }),
            Err(_) => None,
        }
    }

    /// `regex::Regex::captures` on `haystack`: the claim is that the result
    /// is `regex_captures` of this matcher's pattern and `haystack`, with
    /// each group's text copied into a `String`.
    #[verifier::external_body]
    pub(crate) fn captures(&self, haystack: &str) -> (res: Option<Vec<String>>)
        ensures
            captures_view(res) == regex_captures(self.source(), haystack@),
    {
        self.re.captures(haystack).map(
            |caps| caps.iter().map(|g| g.map_or(String::new(), |m| m.as_str().to_string())).collect(),
        )
    }
}

/// `m` is what `Matcher::compile` gives for `pattern`.
pub open spec fn compiled_from(m: Option<Matcher>, pattern: Seq<char>) -> bool {
    match m {
        Some(x) => x.source() == pattern,
        None => forall|h: Seq<char>| #[trigger] regex_captures(pattern, h) is None,
    }
}

/// Searches `haystack` with a pattern that may have failed to compile.
pub(crate) fn search(m: &Option<Matcher>, Ghost(pattern): Ghost<Seq<char>>, haystack: &str) -> (res:
    Option<Vec<String>>)
    requires
        compiled_from(*m, pattern),
    ensures
        captures_view(res) == regex_captures(pattern, haystack@),
{
    match m {
        Some(x) => x.captures(haystack),
        None => {
            assert(regex_captures(pattern, haystack@) is None);
            None
        },
    }
}

/// Group `i` of a capture result, or the empty text where there is none.
pub open spec fn group_text(groups: Seq<Seq<char>>, i: int) -> Seq<char> {
    if 0 <= i < groups.len() {
        groups[i]
    } else {
        Seq::empty()
    }
}

} // verus!
