//! Regular-expression splitting, provided by the `regex` crate.
use vstd::prelude::*;
use regex::Regex;

verus! {

/// `regex::Regex`, carried as an opaque value.
#[verifier::external_type_specification]
#[verifier::external_body]
pub struct ExRegex(Regex);

/// Whether `regex::Regex::new` accepts `pattern` (a valid pattern within the
/// default size limit).
pub uninterp spec fn regex_compiles(pattern: Seq<char>) -> bool;

/// The pieces that `regex::Regex::split` yields, in order, when the regular
/// expression compiled from `pattern` splits `haystack`.
pub uninterp spec fn regex_split_parts(pattern: Seq<char>, haystack: Seq<char>) -> Seq<Seq<char>>;

/// `/` or `\`.
pub open spec fn is_slash_or_backslash(c: char) -> bool {
    c == '/' || c == '\\'
}

/// The text of the pattern `[\\/]`: a character class that matches one `/` or one `\`.
pub open spec fn slash_class() -> Seq<char> {
    seq!['[', '\\', '\\', '/', ']']
}

/// The pieces of `text` between the `/` and `\` characters in it, in order:
/// one more piece than there are such characters, empty pieces included.
pub open spec fn split_at_slashes(text: Seq<char>) -> Seq<Seq<char>>
    decreases text.len(),
{
    if text.len() == 0 {
        seq![Seq::empty()]
    } else {
        let pieces = split_at_slashes(text.drop_last());
        if is_slash_or_backslash(text.last()) {
            pieces.push(Seq::empty())
        } else {
            pieces.update(pieces.len() - 1, pieces.last().push(text.last()))
        }
    }
}

/// The views of a sequence of strings.
pub open spec fn string_views(strings: Seq<String>) -> Seq<Seq<char>> {
    strings.map_values(|s: String| s@)
}

/// A compiled regular expression together with the pattern text it was
/// compiled from. Only `compile_pattern` builds one, so `re` is always the
/// compiled form of `source`.
pub struct CompiledPattern {
    source: String,
    re: Regex,
}

impl View for CompiledPattern {
    type V = Seq<char>;

    /// The pattern text.
    closed spec fn view(&self) -> Seq<char> {
        self.source@
    }
}

/// Compiles `pattern` with `regex::Regex::new`.
/// Trusted: the result is `Some` exactly when the crate accepts the pattern
/// (`regex_compiles`), and it then remembers the pattern text it came from.
/// The class `[\\/]` is a valid pattern of the crate's syntax (an escaped
/// backslash and a slash in brackets) far below the default size limit.
#[verifier::external_body]
pub(crate) fn compile_pattern(pattern: &str) -> (compiled: Option<CompiledPattern>)
    ensures
        compiled is Some <==> regex_compiles(pattern@),
        compiled matches Some(c) ==> c@ == pattern@,
        pattern@ == slash_class() ==> compiled is Some,
{
    match Regex::new(pattern) {
        Ok(re) => Some(CompiledPattern { source: pattern.to_string(), re }),
        Err(_) => None,
    }
}

/// Splits `haystack` with `regex::Regex::split` and collects the pieces.
/// Trusted: the pieces are `regex_split_parts` of the pattern text and the
/// haystack, which depends on those two values alone. For the class `[\\/]`,
/// whose every match is one `/` or `\` character, the pieces are the text
/// between those characters, with an empty piece on each side of a separator
/// that begins or ends the haystack or follows another one, as the crate's
/// documentation of `split` shows.
#[verifier::external_body]
pub(crate) fn split_by_pattern(compiled: &CompiledPattern, haystack: &str) -> (parts: Vec<String>)
    ensures
        string_views(parts@) == regex_split_parts(compiled@, haystack@),
        compiled@ == slash_class() ==> string_views(parts@) == split_at_slashes(haystack@),
{
    compiled.re.split(haystack).map(|piece| piece.to_string()).collect()
}

} // verus!
