//! Case-insensitive literal name queries, matched with the regex crate.
use vstd::prelude::*;
use vstd::string::StrSliceExecFns;

verus! {

#[verifier::external_type_specification]
#[verifier::external_body]
pub struct ExRegex(regex::Regex);

/// A prepared query: the literal text searched for and the case-insensitive
/// matcher compiled from its escaped form.
pub struct NameQuery {
    pattern: String,
    matcher: regex::Regex,
}

impl View for NameQuery {
    type V = Seq<char>;

    closed spec fn view(&self) -> Seq<char> {
        self.pattern@
    }
}

/// Whether a case-insensitive search for the literal `query` finds it in
/// `text`, as the regex crate decides it under Unicode simple case folding.
pub uninterp spec fn case_insensitive_literal_match(query: Seq<char>, text: Seq<char>) -> bool;

/// Whether `RegexBuilder::build` succeeds on `regex::escape(query)` with
/// case-insensitive matching. The build depends on the pattern alone.
pub uninterp spec fn escaped_literal_builds(query: Seq<char>) -> bool;

/// Calls `regex::escape`, then builds the escaped pattern with
/// `RegexBuilder::case_insensitive(true)`. The build succeeds exactly when
/// the named predicate holds of the query; a failed build gives `None`, a
/// successful one keeps the literal query it was built from.
#[verifier::external_body]
pub(crate) fn compile_name_query(query: &str) -> (compiled: Option<NameQuery>)
    ensures
        compiled is Some <==> escaped_literal_builds(query@),
        compiled matches Some(q) ==> q@ == query@,
{
    regex::RegexBuilder::new(&regex::escape(query)).case_insensitive(true).build().ok().map(
        |matcher| NameQuery { pattern: query.to_string(), matcher },
    )
}

/// The literal text of a prepared query.
pub fn query_text(query: &NameQuery) -> (text: String)
    ensures
        text@ == query@,
{
    query.pattern.clone()
}

/// Calls `Regex::is_match` on the compiled query.
#[verifier::external_body]
pub(crate) fn name_query_matches(query: &NameQuery, text: &str) -> (matched: bool)
    ensures
        matched == case_insensitive_literal_match(query@, text@),
{
    query.matcher.is_match(text)
}

/// What `str::trim` returns: the text without leading and trailing Unicode
/// whitespace.
pub uninterp spec fn trimmed(text: Seq<char>) -> Seq<char>;

/// Calls `str::trim`.
#[verifier::external_body]
pub(crate) fn trim_text(text: &str) -> (result: &str)
    ensures
        result@ == trimmed(text@),
{
    text.trim()
}

} // verus!

verus! {

/// The number of characters of the text.
pub(crate) fn char_count(text: &str) -> (count: usize)
    ensures
        count == text@.len(),
{
    text.unicode_len()
}

} // verus!
