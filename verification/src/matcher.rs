//! The regular-expression engine behind the rules: the `regex` crate, reached
//! through a handful of trusted declarations.
//!
//! Nothing is proved of the engine. What it makes of a pattern, and what a
//! compiled pattern finds in a text, are named here and left uninterpreted;
//! the contracts of the library speak of those names.

use regex::Regex;
use vstd::prelude::*;

verus! {

/// A compiled pattern of the `regex` crate. Opaque to the verifier.
#[verifier::external_type_specification]
#[verifier::external_body]
pub struct ExRegex(regex::Regex);

/// The error that the `regex` crate reports for a pattern it rejects.
#[verifier::external_type_specification]
#[verifier::external_body]
pub struct ExRegexError(regex::Error);

/// What `Regex::new` makes of `pattern`: the compiled pattern, or `None`
/// where the pattern is rejected.
pub uninterp spec fn compiled(pattern: Seq<char>) -> Option<Regex>;

/// What `Regex::captures` finds with `re` in `text`: `None` where nothing
/// matches, else one entry per capture group for the leftmost match, the
/// whole match first, with `None` for a group that took no part in it.
pub uninterp spec fn captures_of(re: Regex, text: Seq<char>) -> Option<Seq<Option<Seq<char>>>>;

/// Whether the engine accepts `pattern`.
pub open spec fn pattern_compiles(pattern: Seq<char>) -> bool {
    compiled(pattern) is Some
}

/// What `pattern`, once compiled, finds in `text`.
pub open spec fn found(pattern: Seq<char>, text: Seq<char>) -> Option<Seq<Option<Seq<char>>>>
    recommends
        pattern_compiles(pattern),
{
    captures_of(compiled(pattern)->0, text)
}

/// The capture groups of a match as character sequences.
pub open spec fn groups_view(groups: Seq<Option<String>>) -> Seq<Option<Seq<char>>> {
    Seq::new(
        groups.len(),
        |i: int|
            match groups[i] {
                Some(s) => Some(s@),
                None => None,
            },
    )
}

/// The outcome of a search as character sequences.
pub open spec fn found_view(groups: Option<Vec<Option<String>>>) -> Option<Seq<Option<Seq<char>>>> {
    match groups {
        Some(groups) => Some(groups_view(groups@)),
        None => None,
    }
}

/// Calls `Regex::new`, which compiles `pattern` with the engine's default
/// settings. Trusted: whether a pattern is accepted, and what it compiles
/// to, depends on the pattern alone.
#[verifier::external_body]
fn compile(pattern: &str) -> (r: Result<Regex, regex::Error>)
    ensures
        match r {
            Ok(re) => compiled(pattern@) == Some(re),
            Err(_) => compiled(pattern@) is None,
        },
{
    Regex::new(pattern)
}

/// Calls `Regex::captures` and copies the capture groups of the match out
/// as owned strings, `None` for a group that took no part. Trusted: what is
/// found depends on the compiled pattern and the text alone.
#[verifier::external_body]
fn captures(re: &Regex, text: &str) -> (groups: Option<Vec<Option<String>>>)
    ensures
        found_view(groups) == captures_of(*re, text@),
{
    re.captures(text).map(|c| c.iter().map(|g| g.map(|m| m.as_str().to_owned())).collect())
}

/// Calls `to_string` on a pattern error, for its `Display` text. Nothing is
/// claimed of the text.
#[verifier::external_body]
fn describe(e: &regex::Error) -> (reason: String) {
    e.to_string()
}

/// A pattern that the engine rejected.
#[derive(Debug, PartialEq, Eq)]
pub struct PatternError {
    /// The pattern as it was given.
    pub pattern: String,
    /// The engine's explanation.
    pub reason: String,
}

/// A pattern together with its compiled form. The pattern is compiled once,
/// when the matcher is made, and the compiled form serves every search.
pub struct Matcher {
    pattern: String,
    compiled: Regex,
}

impl View for Matcher {
    type V = Seq<char>;

    /// The pattern text.
    closed spec fn view(&self) -> Seq<char> {
        self.pattern@
    }
}

impl Matcher {
    #[verifier::type_invariant]
    spec fn compiled_once(self) -> bool {
        compiled(self.pattern@) == Some(self.compiled)
    }

    /// Compiles `pattern`. Fails exactly where the engine rejects it.
    pub fn new(pattern: &str) -> (r: Result<Matcher, PatternError>)
        ensures
            r is Ok <==> pattern_compiles(pattern@),
            r matches Ok(matcher) ==> matcher@ == pattern@,
            r matches Err(e) ==> e.pattern@ == pattern@,
    {
        match compile(pattern) {
            Ok(compiled) => Ok(Matcher { pattern: pattern.to_owned(), compiled }),
            Err(e) => Err(PatternError { pattern: pattern.to_owned(), reason: describe(&e) }),
        }
    }

    /// The pattern text.
    pub fn pattern(&self) -> (s: &str)
        ensures
            s@ == self@,
    {
        self.pattern.as_str()
    }

    /// Searches `text`: `None` where the pattern matches nowhere, else the
    /// capture groups of the leftmost match, the whole match first.
    pub fn search(&self, text: &str) -> (groups: Option<Vec<Option<String>>>)
        ensures
            pattern_compiles(self@),
            found_view(groups) == found(self@, text@),
    {
        proof {
            use_type_invariant(self);
        }
        captures(&self.compiled, text)
    }
}

} // verus!
