//! Regular expressions, through the `regex` crate.
use vstd::prelude::*;

verus! {

/// `regex::Regex`: a compiled regular expression.
#[verifier::external_type_specification]
#[verifier::external_body]
pub struct ExRegex(regex::Regex);

/// `regex::Error`: why a pattern did not compile. It is passed through
/// unread.
#[verifier::external_type_specification]
#[verifier::external_body]
pub struct ExRegexError(regex::Error);

/// Whether `regex::Regex::new` accepts `pattern`.
pub uninterp spec fn regex_compiles(pattern: Seq<char>) -> bool;

/// Whether the regular expression that `regex::Regex::new` makes of
/// `pattern` matches somewhere in `text` by `regex::Regex::is_match`.
pub uninterp spec fn regex_is_match(pattern: Seq<char>, text: Seq<char>) -> bool;

/// A pattern with the regular expression that it compiled to. Nothing but
/// `compile` makes one, so the two always belong together.
pub(crate) struct Matcher {
    pattern: String,
    regex: regex::Regex,
}

impl View for Matcher {
    type V = Seq<char>;

    /// The text of the pattern.
    closed spec fn view(&self) -> Seq<char> {
        self.pattern@
    }
}

/// Compiles `pattern` with `regex::Regex::new`, and keeps the pattern beside
/// what it compiled to. Believed, not proved: the text of the pattern alone
/// decides whether it compiles, and the error is the one that the compiler
/// gave.
#[verifier::external_body]
pub(crate) fn compile(pattern: &str) -> (r: Result<Matcher, regex::Error>)
    ensures
        r is Ok <==> regex_compiles(pattern@),
        r matches Ok(m) ==> m@ == pattern@,
{
    match regex::Regex::new(pattern) {
        Ok(regex) => Ok(Matcher { pattern: pattern.to_owned(), regex }),
        Err(e) => Err(e),
    }
}

/// Searches `text` with `regex::Regex::is_match`. Believed, not proved: the
/// texts of the pattern and of `text` alone decide whether there is a match.
#[verifier::external_body]
pub(crate) fn is_match(m: &Matcher, text: &str) -> (found: bool)
    ensures
        found == regex_is_match(m@, text@),
{
    m.regex.is_match(text)
}

} // verus!
