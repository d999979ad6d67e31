//! Configured override records and the name patterns they answer for.

use vstd::prelude::*;
use vstd::string::*;
use vstd::utf8::*;

verus! {

#[verifier::external_type_specification]
#[verifier::external_body]
pub struct ExRegex(regex::Regex);

#[verifier::external_type_specification]
#[verifier::external_body]
pub struct ExRegexError(regex::Error);

/// Whether the regex crate, with its default settings, compiles `source`.
pub uninterp spec fn regex_accepts(source: Seq<char>) -> bool;

/// Whether the regex compiled from `source` matches anywhere in `text`.
pub uninterp spec fn regex_finds(source: Seq<char>, text: Seq<char>) -> bool;

/// Relies on `regex::Regex::new`: with the default builder settings, whether
/// a pattern compiles depends on the pattern text alone.
#[verifier::external_body]
fn compile_regex(source: &str) -> (r: Result<regex::Regex, regex::Error>)
    ensures
        r is Ok <==> regex_accepts(source@),
{
    regex::Regex::new(source)
}

/// Relies on `regex::Regex::is_match`: true iff the regex matches somewhere
/// in `text`. `Pattern::new` is the only way to build a `Pattern`, so its
/// compiled regex is always the one built from its source text.
#[verifier::external_body]
fn regex_is_match(p: &Pattern, text: &str) -> (r: bool)
    ensures
        r == regex_finds(p.source_text(), text@),
{
    p.compiled.is_match(text)
}

/// A regular expression compiled once, together with its source text.
pub struct Pattern {
    source: String,
    compiled: regex::Regex,
}

impl Pattern {
    /// The text the pattern was compiled from.
    pub closed spec fn source_text(&self) -> Seq<char> {
        self.source@
    }

    /// Compiles `source`; `None` when the regex crate rejects it.
    pub fn new(source: &str) -> (r: Option<Pattern>)
        ensures
            r is Some <==> regex_accepts(source@),
            r matches Some(p) ==> p.source_text() == source@,
    {
        match compile_regex(source) {
            Ok(compiled) => Some(Pattern { source: source.to_string(), compiled }),
            Err(_) => None,
        }
    }

    /// The text the pattern was compiled from.
    pub fn as_str(&self) -> (r: &str)
        ensures
            r@ == self.source_text(),
    {
        self.source.as_str()
    }
}

/// What a query name is tested against.
pub enum NamePattern {
    /// Matches where the pattern is found anywhere in the name.
    Regex(Pattern),
    /// Matches the name that equals the text exactly.
    Literal(String),
}

/// Whether `p` accepts the query name `name`.
pub open spec fn pattern_matches(p: NamePattern, name: Seq<char>) -> bool {
    match p {
        NamePattern::Regex(re) => regex_finds(re.source_text(), name),
        NamePattern::Literal(l) => l@ == name,
    }
}

impl NamePattern {
    /// Tests the query name `qname` against the pattern.
    pub fn satisfies_query(&self, qname: &str) -> (r: bool)
        ensures
            r == pattern_matches(*self, qname@),
    {
        match self {
            NamePattern::Regex(re) => regex_is_match(re, qname),
            NamePattern::Literal(l) => string_eq(l.as_str(), qname),
        }
    }
}

/// Character-wise equality of two strings, by their UTF-8 bytes.
fn string_eq(a: &str, b: &str) -> (r: bool)
    ensures
        r == (a@ == b@),
{
    let x = a.as_bytes();
    let y = b.as_bytes();
    proof {
        encode_utf8_decode_utf8(a@);
        encode_utf8_decode_utf8(b@);
    }
    if x.len() != y.len() {
        return false;
    }
    let mut i: usize = 0;
    while i < x.len()
        invariant
            i <= x@.len() == y@.len(),
            x@.subrange(0, i as int) == y@.subrange(0, i as int),
            a@ == b@ ==> x@ == y@,
        decreases x@.len() - i,
    {
        if x[i] != y[i] {
            return false;
        }
        assert(x@.subrange(0, i + 1) =~= x@.subrange(0, i as int).push(x@[i as int]));
        assert(y@.subrange(0, i + 1) =~= y@.subrange(0, i as int).push(y@[i as int]));
        i = i + 1;
    }
    assert(x@ =~= x@.subrange(0, i as int));
    assert(y@ =~= y@.subrange(0, i as int));
    true
}

/// An address to answer with.
pub enum HostAddress {
    V4([u8; 4]),
    V6([u16; 8]),
}

/// TTL used when a record's configuration names none.
pub const DEFAULT_TTL: u32 = 1800;

/// A configured override: queries whose name matches `name` are answered
/// with `rdata`, to be cached for `ttl` seconds.
pub struct ResourceRecord {
    pub rdata: HostAddress,
    pub name: NamePattern,
    pub ttl: u32,
}

} // verus!
