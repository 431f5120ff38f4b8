//! Regular-expression searches, made by the `regex` crate.
use vstd::prelude::*;

verus! {

#[verifier::external_type_specification]
#[verifier::external_body]
pub struct ExRegex(regex::Regex);

/// A compiled regular expression together with the text it was compiled from.
pub struct Pattern {
    source: String,
    re: regex::Regex,
}

/// One match of a pattern: its text, and the characters just before and after it.
#[derive(Debug, Clone, PartialEq, Eq)]
pub struct RegexMatch {
    pub text: String,
    pub before: Option<char>,
    pub after: Option<char>,
}

pub open spec fn match_view(m: RegexMatch) -> (Seq<char>, Option<char>, Option<char>) {
    (m.text@, m.before, m.after)
}

/// The successive non-overlapping matches of the pattern written `source` in `text`, as
/// `Regex::find_iter` yields them, each with its neighbouring characters.
pub uninterp spec fn regex_matches(source: Seq<char>, text: Seq<char>) -> Seq<(Seq<char>, Option<char>, Option<char>)>;

/// For each successive match of the pattern written `source` in `text`, as
/// `Regex::captures_iter` yields them, the text of capture group `group`, if it took part.
pub uninterp spec fn regex_capture_groups(source: Seq<char>, text: Seq<char>, group: nat) -> Seq<Option<Seq<char>>>;

/// The whole text and the first group's text of the leftmost match of the pattern written
/// `source` in `text`, as `Regex::captures` finds it.
pub uninterp spec fn regex_first_match(source: Seq<char>, text: Seq<char>) -> Option<(Seq<char>, Option<Seq<char>>)>;

/// Whether `source` is a pattern that `Regex::new` compiles (valid syntax, within the
/// default size limits).
pub uninterp spec fn regex_compiles(source: Seq<char>) -> bool;

pub open spec fn opt_string_view(o: Option<String>) -> Option<Seq<char>> {
    match o {
        Some(s) => Some(s@),
        None => None,
    }
}

impl Pattern {
    /// The text the pattern was compiled from.
    pub closed spec fn source(&self) -> Seq<char> {
        self.source@
    }

    /// `regex::Regex::new`: compiles `source`, or gives `None` when it is not a valid
    /// pattern. Whether it compiles is named by `regex_compiles`.
    #[verifier::external_body]
    pub(crate) fn compile(source: &str) -> (r: Option<Pattern>)
        ensures
            r is Some <==> regex_compiles(source@),
            r matches Some(p) ==> p.source() == source@,
    {
        match regex::Regex::new(source) {
            Ok(re) => Some(Pattern { source: source.to_string(), re }),
            Err(_) => None,
        }
    }

    /// `regex::Regex::find_iter`: every match in `text`, with the characters around it.
    /// The result is named by `regex_matches`.
    #[verifier::external_body]
    pub(crate) fn find_matches(&self, text: &str) -> (r: Vec<RegexMatch>)
        ensures
            r@.map_values(|m: RegexMatch| match_view(m)) == regex_matches(self.source(), text@),
    {
        self.re.find_iter(text).map(|m| RegexMatch {
            text: m.as_str().to_string(),
            before: text[..m.start()].chars().next_back(),
            after: text[m.end()..].chars().next(),
        }).collect()
    }

    /// `regex::Regex::captures_iter`: the text of group `group` in every match in `text`.
    /// The result is named by `regex_capture_groups`.
    #[verifier::external_body]
    pub(crate) fn capture_groups(&self, text: &str, group: usize) -> (r: Vec<Option<String>>)
        ensures
            r@.map_values(|o: Option<String>| opt_string_view(o)) == regex_capture_groups(
                self.source(),
                text@,
                group as nat,
            ),
    {
        self.re.captures_iter(text).map(|c| c.get(group).map(|m| m.as_str().to_string())).collect()
    }

    /// `regex::Regex::captures`: the whole text and group 1 of the first match in `text`.
    /// The result is named by `regex_first_match`.
    #[verifier::external_body]
    pub(crate) fn first_match(&self, text: &str) -> (r: Option<(String, Option<String>)>)
        ensures
            match r {
                Some((whole, g)) => regex_first_match(self.source(), text@) == Some(
                    (whole@, opt_string_view(g)),
                ),
                None => regex_first_match(self.source(), text@) is None,
            },
    {
        self.re.captures(text).map(|c| (c[0].to_string(), c.get(1).map(|m| m.as_str().to_string())))
    }
}

} // verus!
