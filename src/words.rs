//! Finding the matches of a regular expression, through the regex crate.
use regex::Regex;
use vstd::prelude::*;

use crate::table::views;

verus! {

#[verifier::external_type_specification]
#[verifier::external_body]
pub struct ExRegex(Regex);

/// Whether the regex crate accepts `pattern` as a regular expression.
pub uninterp spec fn regex_compiles(pattern: Seq<char>) -> bool;

/// The successive non-overlapping matches of `pattern` in `text`, leftmost first.
pub uninterp spec fn regex_find_all(pattern: Seq<char>, text: Seq<char>) -> Seq<Seq<char>>;

/// A compiled regular expression, together with the pattern it was compiled from.
pub struct Matcher {
    pattern: String,
    re: Regex,
}

impl Matcher {
    /// The pattern that this matcher was compiled from.
    pub closed spec fn pattern(&self) -> Seq<char> {
        self.pattern@
    }

    /// Relies on regex::Regex::new: it compiles `pattern`, or fails where the
    /// regex crate does not accept it.
    #[verifier::external_body]
    pub(crate) fn new(pattern: &str) -> (r: Option<Matcher>)
        ensures
            r is Some <==> regex_compiles(pattern@),
            r matches Some(m) ==> m.pattern() == pattern@,
    {
        Regex::new(pattern).ok().map(|re| Matcher { pattern: pattern.to_string(), re })
    }

    /// Relies on regex::Regex::find_iter: the text of each successive
    /// non-overlapping match in `text`.
    #[verifier::external_body]
    pub(crate) fn find_all(&self, text: &str) -> (r: Vec<String>)
        ensures
            views(r@) == regex_find_all(self.pattern(), text@),
    {
        self.re.find_iter(text).map(|m| m.as_str().to_string()).collect()
    }
}

} // verus!
