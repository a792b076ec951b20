//! Match patterns: a literal, a POSIX-style glob, or a regular expression.
//! Glob and regex evaluation is done by the `glob` and `regex` crates; what
//! they compute is named, not restated.
use vstd::prelude::*;

verus! {

/// Whether the glob crate accepts `pattern` as a well-formed glob.
pub uninterp spec fn glob_valid(pattern: Seq<char>) -> bool;

/// Whether the glob `pattern` matches `text`.
pub uninterp spec fn glob_accepts(pattern: Seq<char>, text: Seq<char>) -> bool;

/// Whether the regex crate accepts `pattern` as a well-formed expression.
pub uninterp spec fn regex_valid(pattern: Seq<char>) -> bool;

/// Whether the regex `pattern` matches somewhere in `text`.
pub uninterp spec fn regex_accepts(pattern: Seq<char>, text: Seq<char>) -> bool;

/// Relies on `glob::Pattern::new`: whether a pattern compiles depends on the
/// pattern text alone; on failure the error's rendering is returned.
#[verifier::external_body]
pub fn glob_compile(pattern: &str) -> (r: Option<String>)
    ensures
        r is None <==> glob_valid(pattern@),
{
    match glob::Pattern::new(pattern) {
        Ok(_) => None,
        Err(e) => Some(format!("{}", e)),
    }
}

/// Relies on `glob::Pattern::new` and `glob::Pattern::matches`: whether a
/// well-formed pattern matches depends on the pattern and text alone.
#[verifier::external_body]
pub fn glob_matches(pattern: &str, text: &str) -> (r: bool)
    requires
        glob_valid(pattern@),
    ensures
        r == glob_accepts(pattern@, text@),
{
    match glob::Pattern::new(pattern) {
        Ok(p) => p.matches(text),
        Err(_) => false,
    }
}

/// Relies on `regex::Regex::new`: whether an expression compiles depends on
/// the expression text alone; on failure the error's rendering is returned.
#[verifier::external_body]
pub fn regex_compile(pattern: &str) -> (r: Option<String>)
    ensures
        r is None <==> regex_valid(pattern@),
{
    match regex::Regex::new(pattern) {
        Ok(_) => None,
        Err(e) => Some(format!("{}", e)),
    }
}

/// Relies on `regex::Regex::new` and `regex::Regex::is_match`: whether a
/// well-formed expression matches depends on the expression and text alone.
#[verifier::external_body]
pub fn regex_matches(pattern: &str, text: &str) -> (r: bool)
    requires
        regex_valid(pattern@),
    ensures
        r == regex_accepts(pattern@, text@),
{
    match regex::Regex::new(pattern) {
        Ok(p) => p.is_match(text),
        Err(_) => false,
    }
}

/// The mathematical shape of a `Pattern`.
pub enum PatternRep {
    Glob(Seq<char>),
    Regex(Seq<char>),
    Literal(Seq<char>),
}

impl PatternRep {
    /// A glob or regex pattern is well-formed; a literal always is.
    pub open spec fn valid(self) -> bool {
        match self {
            PatternRep::Glob(p) => glob_valid(p),
            PatternRep::Regex(p) => regex_valid(p),
            PatternRep::Literal(_) => true,
        }
    }

    /// Whether this pattern matches `text`: a glob or regex as its crate
    /// decides, a literal by equality.
    pub open spec fn accepts(self, text: Seq<char>) -> bool {
        match self {
            PatternRep::Glob(p) => glob_accepts(p, text),
            PatternRep::Regex(p) => regex_accepts(p, text),
            PatternRep::Literal(p) => p == text,
        }
    }
}

/// A match pattern, stored as its source text.
#[derive(Debug, PartialEq)]
pub enum Pattern {
    Glob(String),
    Regex(String),
    Literal(String),
}

impl View for Pattern {
    type V = PatternRep;

    open spec fn view(&self) -> PatternRep {
        match self {
            Pattern::Glob(p) => PatternRep::Glob(p@),
            Pattern::Regex(p) => PatternRep::Regex(p@),
            Pattern::Literal(p) => PatternRep::Literal(p@),
        }
    }
}

impl Pattern {
    /// Whether this pattern matches `text`.
    pub fn matches_text(&self, text: &str) -> (r: bool)
        requires
            self@.valid(),
        ensures
            r == self@.accepts(text@),
    {
        match self {
            Pattern::Glob(p) => glob_matches(p.as_str(), text),
            Pattern::Regex(p) => regex_matches(p.as_str(), text),
            Pattern::Literal(p) => crate::strutil::str_eq(p.as_str(), text),
        }
    }
}

impl Clone for Pattern {
    /// The clone has the same shape.
    fn clone(&self) -> (r: Self)
        ensures
            r@ == self@,
    {
        match self {
            Pattern::Glob(p) => Pattern::Glob(p.clone()),
            Pattern::Regex(p) => Pattern::Regex(p.clone()),
            Pattern::Literal(p) => Pattern::Literal(p.clone()),
        }
    }
}

/// A matcher: an optional attribute to look at, and a pattern to apply.
#[derive(Debug, PartialEq)]
pub struct Match {
    /// The attribute whose value is matched; absent means the record's
    /// identity is matched instead.
    pub attr: Option<String>,
    pub pattern: Pattern,
}

/// The mathematical shape of a `Match`.
pub struct MatchRep {
    pub attr: Option<Seq<char>>,
    pub pattern: PatternRep,
}

impl View for Match {
    type V = MatchRep;

    open spec fn view(&self) -> MatchRep {
        MatchRep { attr: crate::monitor::opt_str_rep(self.attr), pattern: self.pattern@ }
    }
}

impl Clone for Match {
    /// The clone has the same shape.
    fn clone(&self) -> (r: Self)
        ensures
            r@ == self@,
    {
        let attr = match &self.attr {
            Some(a) => Some(a.clone()),
            None => None,
        };
        Match { attr, pattern: self.pattern.clone() }
    }
}

} // verus!
