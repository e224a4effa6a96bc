//! Search patterns: literal text or a regular expression, compiled once with
//! its flags and a compile-size limit, matched through the `regex` crate.
use crate::text::{byte_len, push_char};
use vstd::prelude::*;

verus! {

broadcast use vstd::string::group_string_axioms;

#[verifier::external_type_specification]
#[verifier::external_body]
pub struct ExRegex(regex::Regex);

/// Whether `regex` compiles this source with these flags and compile-size limit.
pub uninterp spec fn regex_compiles(source: Seq<char>, case_insensitive: bool, size_limit: usize) -> bool;

/// Whether the compiled pattern matches somewhere in the text.
pub uninterp spec fn regex_is_match(
    source: Seq<char>,
    case_insensitive: bool,
    size_limit: usize,
    text: Seq<char>,
) -> bool;

/// The byte offset where the leftmost-first match starts, if any.
pub uninterp spec fn regex_find_start(
    source: Seq<char>,
    case_insensitive: bool,
    size_limit: usize,
    text: Seq<char>,
) -> Option<nat>;

/// Calls `RegexBuilder::new(source).case_insensitive(..).size_limit(..).build()`;
/// the contract names whether it succeeds and says nothing of the error text.
#[verifier::external_body]
fn compile_regex(source: &str, case_insensitive: bool, size_limit: usize) -> (r: Result<
    regex::Regex,
    String,
>)
    ensures
        r is Ok <==> regex_compiles(source@, case_insensitive, size_limit),
{
    regex::RegexBuilder::new(source).case_insensitive(case_insensitive).size_limit(
        size_limit,
    ).build().map_err(|error| error.to_string())
}

/// A regex meta character, which `regex::escape` prefixes with a backslash.
pub open spec fn is_meta_character(c: char) -> bool {
    c == '\\' || c == '.' || c == '+' || c == '*' || c == '?' || c == '(' || c == ')' || c == '|'
        || c == '[' || c == ']' || c == '{' || c == '}' || c == '^' || c == '$' || c == '#' || c
        == '&' || c == '-' || c == '~'
}

/// The text with every meta character escaped, so that it matches literally.
pub open spec fn escaped(s: Seq<char>) -> Seq<char>
    decreases s.len(),
{
    if s.len() == 0 {
        Seq::<char>::empty()
    } else if is_meta_character(s[0]) {
        seq!['\\', s[0]] + escaped(s.drop_first())
    } else {
        seq![s[0]] + escaped(s.drop_first())
    }
}

/// Calls `regex::escape`, which puts a backslash before each meta character.
#[verifier::external_body]
fn regex_escape(text: &str) -> (r: String)
    ensures
        r@ == escaped(text@),
{
    regex::escape(text)
}

/// A compiled search pattern, with the source and flags it was compiled from.
pub struct Pattern {
    source: String,
    case_insensitive: bool,
    size_limit: usize,
    regex: regex::Regex,
}

impl Pattern {
    pub closed spec fn source(&self) -> Seq<char> {
        self.source@
    }

    pub closed spec fn case_insensitive(&self) -> bool {
        self.case_insensitive
    }

    pub closed spec fn size_limit(&self) -> usize {
        self.size_limit
    }

    /// Whether this pattern matches somewhere in the text.
    pub open spec fn matches(&self, text: Seq<char>) -> bool {
        regex_is_match(self.source(), self.case_insensitive(), self.size_limit(), text)
    }

    /// Where this pattern's leftmost-first match starts, in bytes.
    pub open spec fn find_start(&self, text: Seq<char>) -> Option<nat> {
        regex_find_start(self.source(), self.case_insensitive(), self.size_limit(), text)
    }

    /// Compiles literal text (escaped) or a regular expression.
    pub fn build(query: &str, regex: bool, case_insensitive: bool, size_limit: usize) -> (r: Result<
        Pattern,
        String,
    >)
        ensures
            ({
                let source = if regex {
                    query@
                } else {
                    escaped(query@)
                };
                &&& r is Ok <==> regex_compiles(source, case_insensitive, size_limit)
                &&& r matches Ok(p) ==> p.source() == source && p.case_insensitive()
                    == case_insensitive && p.size_limit() == size_limit
            }),
    {
        let source = if regex {
            query.to_owned()
        } else {
            regex_escape(query)
        };
        match compile_regex(source.as_str(), case_insensitive, size_limit) {
            Ok(compiled) => Ok(Pattern { source, case_insensitive, size_limit, regex: compiled }),
            Err(message) => Err(message),
        }
    }

    /// Whether this pattern matches somewhere in `text` (`Regex::is_match`).
    #[verifier::external_body]
    pub fn is_match(&self, text: &str) -> (r: bool)
        ensures
            r == regex_is_match(self.source(), self.case_insensitive(), self.size_limit(), text@),
    {
        self.regex.is_match(text)
    }

    /// Where the leftmost-first match starts (`Regex::find`, then `Match::start`):
    /// a byte offset on a character boundary of `text`.
    #[verifier::external_body]
    pub fn find_start_exec(&self, text: &str) -> (r: Option<usize>)
        ensures
            match regex_find_start(self.source(), self.case_insensitive(), self.size_limit(), text@) {
                Some(b) => (r matches Some(x) && x as nat == b) && exists|i: int|
                    0 <= i <= text@.len() && byte_len(text@.take(i)) == b,
                None => r is None,
            },
    {
        self.regex.find(text).map(|found| found.start())
    }
}

} // verus!
