//! Regular expressions, as the `regex` crate implements them.
//!
//! What this file says of the crate is taken on trust. The two spec
//! functions stand for what the crate computes, and the three functions
//! [`compile`], [`is_match`] and [`copy_of`] are the places where the crate
//! is called.
//!
//! A [`Compiled`] holds a pattern next to the regular expression that the
//! crate made of it. Its fields are private to this file, and in this file
//! only [`compile`] makes one and only [`copy_of`] copies one, so the two
//! fields of every `Compiled` belong together: the regular expression is the
//! one compiled from the pattern.

use vstd::prelude::*;

verus! {

/// `regex::Regex`, a compiled regular expression. Nothing is said of what
/// is inside one.
#[verifier::external_type_specification]
#[verifier::external_body]
pub struct ExRegex(regex::Regex);

/// Whether `pattern` is a regular expression that `regex::Regex::new` compiles.
pub uninterp spec fn pattern_compiles(pattern: Seq<char>) -> bool;

/// Whether the regular expression compiled from `pattern` has a match
/// anywhere in `text`, as `regex::Regex::is_match` reports it.
pub uninterp spec fn pattern_found(pattern: Seq<char>, text: Seq<char>) -> bool;

/// A pattern that compiles, with the regular expression it compiles to.
#[derive(Debug)]
pub struct Compiled {
    pattern: String,
    regex: regex::Regex,
}

impl View for Compiled {
    type V = Seq<char>;

    /// The pattern.
    closed spec fn view(&self) -> Seq<char> {
        self.pattern@
    }
}

impl Compiled {
    #[verifier::type_invariant]
    spec fn compiles(self) -> bool {
        pattern_compiles(self.pattern@)
    }

    /// The pattern, which compiles.
    pub fn as_string(&self) -> (pattern: &String)
        ensures
            pattern@ == self@,
            pattern_compiles(self@),
    {
        proof {
            use_type_invariant(self);
        }
        &self.pattern
    }
}

/// Compiles `pattern` with `regex::Regex::new`.
///
/// Trusted: whether the crate compiles a pattern depends on the pattern
/// alone. It does not where the pattern is invalid, or where its program
/// exceeds the size limit that the crate sets by default. The call does not
/// panic.
#[verifier::external_body]
pub(crate) fn compile(pattern: &str) -> (made: Option<Compiled>)
    ensures
        made.is_some() == pattern_compiles(pattern@),
        made matches Some(compiled) ==> compiled@ == pattern@,
{
    match regex::Regex::new(pattern) {
        Ok(regex) => Some(Compiled { pattern: pattern.to_owned(), regex }),
        Err(_) => None,
    }
}

/// Asks `regex::Regex::is_match` whether the regular expression matches
/// anywhere in `text`.
///
/// Trusted: the answer depends on the text and on the pattern that the
/// regular expression was compiled from, which is the pattern that
/// `compiled` holds. The call does not panic.
#[verifier::external_body]
pub(crate) fn is_match(compiled: &Compiled, text: &str) -> (found: bool)
    ensures
        found == pattern_found(compiled@, text@),
{
    compiled.regex.is_match(text)
}

/// Copies the regular expression with `Clone::clone` of `regex::Regex`, and
/// the pattern with it.
///
/// Trusted: the copy of a regular expression is compiled from the same
/// pattern.
#[verifier::external_body]
pub(crate) fn copy_of(compiled: &Compiled) -> (copy: Compiled)
    ensures
        copy@ == compiled@,
{
    Compiled { pattern: compiled.pattern.clone(), regex: compiled.regex.clone() }
}

impl Clone for Compiled {
    fn clone(&self) -> (copy: Self)
        ensures
            copy@ == self@,
    {
        copy_of(self)
    }
}

impl PartialEq for Compiled {
    /// Whether the patterns are the same.
    fn eq(&self, other: &Self) -> (equal: bool) {
        self.pattern == other.pattern
    }
}

impl vstd::std_specs::cmp::PartialEqSpecImpl for Compiled {
    open spec fn obeys_eq_spec() -> bool {
        true
    }

    open spec fn eq_spec(&self, other: &Self) -> bool {
        self@ == other@
    }
}

} // verus!
