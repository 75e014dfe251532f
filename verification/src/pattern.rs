//! Compiled regular expressions and the text conversions the scanner
//! needs.  The regex engine is outside code: its results are named by
//! uninterpreted spec functions, and a handful of wrappers state over those
//! names what the engine's documentation promises.

use vstd::prelude::*;
use vstd::string::StringExecFns;
use vstd::utf8::{decode_utf8, valid_utf8};

use crate::text::printable;

verus! {

#[verifier::external_type_specification]
#[verifier::external_body]
pub struct ExRegex(regex::Regex);

/// What `regex::escape` returns: the pattern text with every regex
/// metacharacter escaped, so that it matches itself literally.
pub uninterp spec fn rx_escaped(s: Seq<char>) -> Seq<char>;

/// Whether `regex::Regex::new` accepts this pattern source: the syntax
/// is valid and the compiled program fits under the engine's default
/// size limit, both functions of the source text alone.
pub uninterp spec fn rx_compiles(src: Seq<char>) -> bool;

/// Whether the pattern with the given source matches anywhere in the
/// haystack, as `regex::Regex::is_match` decides it.
pub uninterp spec fn rx_is_match(pat: Seq<char>, hay: Seq<char>) -> bool;

/// The successive non-overlapping matches of the pattern in the haystack,
/// leftmost first, as `regex::Regex::find_iter` yields them.
pub uninterp spec fn rx_find_all(pat: Seq<char>, hay: Seq<char>) -> Seq<Seq<char>>;

/// The haystack with every non-overlapping match of the pattern replaced
/// by the replacement text, as `regex::Regex::replace_all` builds it.
pub uninterp spec fn rx_replace_all(pat: Seq<char>, hay: Seq<char>, rep: Seq<char>) -> Seq<char>;

/// A compiled regular expression together with the source it was compiled
/// from.  The fields are private: a `Pattern` only ever comes out of
/// [`Pattern::compile`], so the compiled engine always belongs to the
/// source the view names.
pub struct Pattern {
    source: String,
    regex: regex::Regex,
}

impl View for Pattern {
    type V = Seq<char>;

    closed spec fn view(&self) -> Seq<char> {
        self.source@
    }
}

impl Pattern {
    /// Relies on `regex::Regex::new`: compiles the pattern source with
    /// the default options, succeeding exactly when the source is
    /// acceptable to the engine — an invalid pattern, or one over the
    /// default size limit, fails, and nothing else does.
    #[verifier::external_body]
    pub fn compile(source: &str) -> (r: Option<Pattern>)
        ensures
            r is Some <==> rx_compiles(source@),
            r matches Some(p) ==> p@ == source@,
    {
        match regex::Regex::new(source) {
            Ok(regex) => Some(Pattern { source: source.to_string(), regex }),
            Err(_) => None,
        }
    }

    /// Relies on `regex::Regex::is_match`: true if and only if the pattern
    /// matches somewhere in the haystack.
    #[verifier::external_body]
    pub fn is_match(&self, hay: &str) -> (r: bool)
        ensures
            r == rx_is_match(self@, hay@),
    {
        self.regex.is_match(hay)
    }

    /// Relies on `regex::Regex::find_iter`: yields every non-overlapping
    /// match, leftmost first; some match exists exactly when `is_match`
    /// holds.
    #[verifier::external_body]
    pub fn find_all(&self, hay: &str) -> (r: Vec<String>)
        ensures
            r.deep_view() == rx_find_all(self@, hay@),
            r@.len() == rx_find_all(self@, hay@).len(),
            r@.len() > 0 <==> rx_is_match(self@, hay@),
    {
        self.regex.find_iter(hay).map(|m| m.as_str().to_string()).collect()
    }

    /// Relies on `regex::Regex::replace_all`: replaces every
    /// non-overlapping match with the replacement text, taken literally.
    #[verifier::external_body]
    pub fn replace_all(&self, hay: &str, rep: &str) -> (r: String)
        ensures
            r@ == rx_replace_all(self@, hay@, rep@),
    {
        self.regex.replace_all(hay, |_: &regex::Captures| rep.to_string()).into_owned()
    }
}

/// Relies on `regex::escape`: escapes every metacharacter, so the result
/// is safe to use as a literal inside a larger pattern.
#[verifier::external_body]
pub fn escape_literal(s: &str) -> (r: String)
    ensures
        r@ == rx_escaped(s@),
{
    regex::escape(s)
}

/// The source of the word-boundary pattern for a literal keyword: the
/// escaped keyword wrapped in ASCII word-boundary anchors.
pub open spec fn boundary_src(k: Seq<char>) -> Seq<char> {
    seq!['\\', 'b'] + rx_escaped(k) + seq!['\\', 'b']
}

/// Compile the word-boundary pattern for a literal keyword.  Compilation
/// can fail (the engine has a size limit), in which case the keyword is
/// silently left without a highlight pattern.
pub fn compile_boundary(k: &str) -> (r: Option<Pattern>)
    ensures
        r is Some <==> rx_compiles(boundary_src(k@)),
        r matches Some(p) ==> p@ == boundary_src(k@),
{
    let escaped = escape_literal(k);
    let mut src = String::from_str("\\b");
    src.append(escaped.as_str());
    src.append("\\b");
    proof {
        reveal_strlit("\\b");
        assert(src@ =~= boundary_src(k@));
    }
    Pattern::compile(src.as_str())
}

/// Relies on `String::from_utf8`: succeeds exactly on valid UTF-8, and
/// then decodes the bytes.
#[verifier::external_body]
pub fn bytes_to_text(b: &Vec<u8>) -> (r: Option<String>)
    ensures
        r is Some <==> valid_utf8(b@),
        r matches Some(s) ==> s@ == decode_utf8(b@),
{
    match String::from_utf8(b.clone()) {
        Ok(s) => Some(s),
        Err(_) => None,
    }
}

/// Relies on `String::from_utf8`: visible ASCII bytes are valid UTF-8 and
/// decode to the characters with the same code.
#[verifier::external_body]
pub fn ascii_to_string(b: &Vec<u8>) -> (r: String)
    requires
        forall|k: int| 0 <= k < b@.len() ==> printable(b@[k]),
    ensures
        r@.len() == b@.len(),
        forall|k: int| 0 <= k < b@.len() ==> r@[k] == b@[k] as char,
{
    String::from_utf8(b.clone()).unwrap_or_default()
}

} // verus!
