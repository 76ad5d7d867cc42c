//! The two patterns that position declarations are searched with, compiled
//! once and kept.

use regex::Regex;
use vstd::prelude::*;

verus! {

/// `regex::Regex`, a compiled pattern. Nothing of its inside is read here.
#[verifier::external_type_specification]
#[verifier::external_body]
pub struct ExRegex(Regex);

/// What a search for a pattern gives: `None` where the text has no match,
/// else the groups of the leftmost match, group 0 being the whole match and
/// a group that took no part being `None`.
pub type Groups = Option<Vec<Option<String>>>;

/// The groups of a search as texts.
pub type GroupsView = Option<Seq<Option<Seq<char>>>>;

/// The pattern for an entry's row and span: `grid-row: `, one or two digits,
/// ` / span `, one or two digits, and a semicolon. To the regex engine a
/// digit is a decimal digit of any script.
pub const ROW_SPAN_PATTERN: &'static str = "grid-row: (\\d?\\d) / span (\\d?\\d);";

/// The pattern for a column's day: `grid-area: day` and three characters,
/// none of them a line feed.
pub const DAY_PATTERN: &'static str = "grid-area: day(...)";

/// The pattern text from which `Regex::new` built a compiled expression;
/// `None` for an expression that was built in any other way.
pub uninterp spec fn regex_pattern(re: Regex) -> Option<Seq<char>>;

/// Whether the pattern text is one that compiles.
pub uninterp spec fn regex_compiles(pattern: Seq<char>) -> bool;

/// The groups of the leftmost match of a pattern in a text.
pub uninterp spec fn regex_captures(pattern: Seq<char>, haystack: Seq<char>) -> GroupsView;

/// `Regex::new` compiles a pattern, or refuses it. Whether it compiles
/// depends on the pattern alone.
#[verifier::external_body]
fn compile_regex(pattern: &str) -> (compiled: Option<Regex>)
    ensures
        compiled is Some == regex_compiles(pattern@),
        compiled matches Some(re) ==> regex_pattern(re) == Some(pattern@),
{
    Regex::new(pattern).ok()
}

/// `Regex::captures` searches the text for the leftmost match and hands out
/// its groups. For an expression that `Regex::new` built, the result
/// depends on the pattern and the text alone.
#[verifier::external_body]
fn search_regex(re: &Regex, haystack: &str) -> (groups: Groups)
    requires
        regex_pattern(*re) is Some,
    ensures
        groups.deep_view() == regex_captures(regex_pattern(*re)->0, haystack@),
{
    re.captures(haystack).map(|found| found.iter().map(|m| m.map(|m| m.as_str().to_string())).collect())
}

/// The two compiled patterns.
pub struct Patterns {
    row_span: Regex,
    day: Regex,
}

impl Patterns {
    #[verifier::type_invariant]
    spec fn built_from_the_patterns(&self) -> bool {
        &&& regex_pattern(self.row_span) == Some(ROW_SPAN_PATTERN@)
        &&& regex_pattern(self.day) == Some(DAY_PATTERN@)
    }

    /// Compiles the two patterns. Returns `None` where the regex engine
    /// refuses one of them.
    pub fn compile() -> (made: Option<Patterns>)
        ensures
            made is Some == (regex_compiles(ROW_SPAN_PATTERN@) && regex_compiles(DAY_PATTERN@)),
    {
        match compile_regex(ROW_SPAN_PATTERN) {
            Some(row_span) => match compile_regex(DAY_PATTERN) {
                Some(day) => Some(Patterns { row_span, day }),
                None => None,
            },
            None => None,
        }
    }

    /// Searches `style` for a row and span declaration.
    pub fn row_span_groups(&self, style: &str) -> (groups: Groups)
        ensures
            groups.deep_view() == regex_captures(ROW_SPAN_PATTERN@, style@),
    {
        proof {
            use_type_invariant(self);
        }
        search_regex(&self.row_span, style)
    }

    /// Searches `style` for a day declaration.
    pub fn day_groups(&self, style: &str) -> (groups: Groups)
        ensures
            groups.deep_view() == regex_captures(DAY_PATTERN@, style@),
    {
        proof {
            use_type_invariant(self);
        }
        search_regex(&self.day, style)
    }
}

} // verus!
