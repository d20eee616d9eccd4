//! Link rules: a compiled pattern and the URL template its matches link to.
use vstd::prelude::*;
use vstd::string::StringSliceAdditionalSpecFns;
use crate::text::byte_span_ok;

verus! {

#[verifier::external_type_specification]
#[verifier::external_body]
pub struct ExRegex(regex_lite::Regex);

/// What regex-lite says of `pattern`: nothing where it compiles, else its error message
/// (a fixed text chosen by the pattern alone).
pub uninterp spec fn compile_error_of(pattern: Seq<char>) -> Option<Seq<char>>;

/// The group spans of every successive non-overlapping match of `pattern` in `text`.
pub uninterp spec fn captures_of(pattern: Seq<char>, text: Seq<char>) -> Seq<Seq<Option<(usize, usize)>>>;

/// Relies on `regex_lite::Regex::new` and the `Display` of its error: compiles `pattern`, or
/// gives the compiler's message.
#[verifier::external_body]
fn compile(pattern: &str) -> (r: Result<regex_lite::Regex, String>)
    ensures
        r is Ok == compile_error_of(pattern@) is None,
        r matches Err(e) ==> compile_error_of(pattern@) == Some(e@),
{
    regex_lite::Regex::new(pattern).map_err(|e| e.to_string())
}

/// The byte spans of the groups of one match; index 0 is the whole match.
pub type Capture = Vec<Option<(usize, usize)>>;

/// What regex-lite documents of one match in `bytes`: the whole match is present, and every
/// present group is a range of the text on character boundaries.
pub open spec fn capture_ok(c: Seq<Option<(usize, usize)>>, bytes: Seq<u8>) -> bool {
    &&& c.len() > 0
    &&& c[0] is Some
    &&& forall|j: int|
        0 <= j < c.len() && (#[trigger] c[j]) is Some ==> span_ok(c[j]->0, bytes)
}

/// A group span that lies in `bytes` on character boundaries.
pub open spec fn span_ok(span: (usize, usize), bytes: Seq<u8>) -> bool {
    let (lo, hi) = span;
    byte_span_ok(bytes, lo as int, hi as int)
}

/// A pattern and the URL template that its matches link to.
pub struct LinkRule {
    re: regex_lite::Regex,
    pattern: String,
    url: String,
}

/// A pattern that did not compile, with the compiler's message.
pub struct LinkRuleError {
    msg: String,
}

impl LinkRuleError {
    pub closed spec fn text(&self) -> Seq<char> {
        self.msg@
    }

    /// The message of the regular-expression compiler.
    pub fn message(&self) -> (r: String)
        ensures
            r@ == self.text(),
    {
        self.msg.clone()
    }
}

impl LinkRule {
    /// The URL template of the rule.
    pub closed spec fn template(&self) -> Seq<char> {
        self.url@
    }

    /// The pattern the rule was compiled from.
    pub closed spec fn pattern(&self) -> Seq<char> {
        self.pattern@
    }

    /// Compiles `regex`; fails exactly when regex-lite refuses the pattern, with its message.
    pub fn new(regex: &str, url: &str) -> (r: Result<LinkRule, LinkRuleError>)
        ensures
            r is Ok == compile_error_of(regex@) is None,
            r matches Ok(rule) ==> rule.template() == url@ && rule.pattern() == regex@,
            r matches Err(e) ==> compile_error_of(regex@) == Some(e.text()),
    {
        match compile(regex) {
            Ok(re) => Ok(LinkRule { re, pattern: regex.to_owned(), url: url.to_owned() }),
            Err(msg) => Err(LinkRuleError { msg }),
        }
    }

    /// The URL template of the rule.
    pub fn url(&self) -> (r: &String)
        ensures
            r@ == self.template(),
    {
        &self.url
    }

    /// Relies on `regex_lite::Regex::captures_iter` with `Captures::iter`, `Match::start` and
    /// `Match::end`: the successive non-overlapping matches of the rule's pattern in `text`,
    /// each with its group spans; group 0 is always there and every span lies on character
    /// boundaries of the text.
    #[verifier::external_body]
    pub(crate) fn captures(&self, text: &str) -> (r: Vec<Capture>)
        ensures
            r@.map_values(|c: Capture| c@) == captures_of(self.pattern(), text@),
            forall|i: int| 0 <= i < r@.len() ==> capture_ok(#[trigger] r@[i]@, text.spec_bytes()),
    {
        self.re.captures_iter(text).map(|c| c.iter().map(|m| m.map(|m| (m.start(), m.end()))).collect()).collect()
    }
}

} // verus!
