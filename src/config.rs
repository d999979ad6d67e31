//! Reading override records from their configuration text: an address, a
//! name pattern, and options in brackets.

use vstd::prelude::*;

use crate::record::{regex_accepts, HostAddress, NamePattern, Pattern, ResourceRecord, DEFAULT_TTL};

verus! {

broadcast use vstd::string::group_string_axioms;

/// Whether `c` has the Unicode White_Space property.
pub uninterp spec fn white_space(c: char) -> bool;

/// Relies on `char::is_whitespace`: true iff `c` has the Unicode
/// White_Space property.
#[verifier::external_body]
fn is_white_space(c: char) -> (r: bool)
    ensures
        r == white_space(c),
{
    c.is_whitespace()
}

/// Relies on `String`'s `FromIterator<char>`: the string of those characters.
#[verifier::external_body]
fn string_of(cs: &[char]) -> (r: String)
    ensures
        r@ == cs@,
{
    cs.iter().collect()
}

/// The characters of `s`.
fn chars_of(s: &str) -> (r: Vec<char>)
    ensures
        r@ == s@,
{
    let mut v: Vec<char> = Vec::new();
    for c in it: s.chars()
        invariant
            v@ == it.seq().subrange(0, it.index() as int),
    {
        v.push(c);
    }
    v
}

/// A class of characters that a run is made of.
#[derive(Clone, Copy)]
pub enum CharClass {
    Space,
    Digit,
    NonSpace,
    Not(char),
}

pub open spec fn is_digit(c: char) -> bool {
    '0' <= c <= '9'
}

pub open spec fn in_class(c: char, k: CharClass) -> bool {
    match k {
        CharClass::Space => white_space(c),
        CharClass::Digit => is_digit(c),
        CharClass::NonSpace => !white_space(c),
        CharClass::Not(x) => c != x,
    }
}

/// The end of the run of class `k` that starts at `i`.
pub open spec fn skip(t: Seq<char>, i: int, k: CharClass) -> int
    decreases t.len() - i,
{
    if 0 <= i < t.len() && in_class(t[i], k) {
        skip(t, i + 1, k)
    } else {
        i
    }
}

/// The start of the run of white space that ends at `j`, not before `lo`.
pub open spec fn skip_back_space(t: Seq<char>, lo: int, j: int) -> int
    decreases j - lo,
{
    if lo < j && j <= t.len() && white_space(t[j - 1]) {
        skip_back_space(t, lo, j - 1)
    } else {
        j
    }
}

/// `t` without white space at either end.
pub open spec fn trimmed(t: Seq<char>) -> Seq<char> {
    let a = skip(t, 0, CharClass::Space);
    t.subrange(a, skip_back_space(t, a, t.len() as int))
}

pub open spec fn all_digits(t: Seq<char>) -> bool {
    forall|i: int| 0 <= i < t.len() ==> is_digit(#[trigger] t[i])
}

/// The number that the decimal digits `t` spell.
pub open spec fn digits_value(t: Seq<char>) -> int
    decreases t.len(),
{
    if t.len() == 0 {
        0
    } else {
        digits_value(t.drop_last()) * 10 + (t.last() as int - '0' as int)
    }
}

/// The value of `t` read as an unsigned decimal: an optional `+`, then one
/// or more digits, of at most `u32::MAX`.
pub open spec fn decimal_u32(t: Seq<char>) -> Option<u32> {
    let d = if t.len() > 0 && t[0] == '+' {
        t.drop_first()
    } else {
        t
    };
    if d.len() > 0 && all_digits(d) && digits_value(d) <= u32::MAX {
        Some(digits_value(d) as u32)
    } else {
        None
    }
}

/// The TTL that the option value `t` gives.
pub open spec fn ttl_spec(t: Seq<char>) -> Result<u32, &'static str> {
    if trimmed(t).len() == 0 {
        Err("missing value for ttl")
    } else {
        match decimal_u32(trimmed(t)) {
            Some(n) => Ok(n),
            None => Err("invalid ttl value"),
        }
    }
}

/// The TTL after the option `piece` (`name=value`, or a bare name), where
/// it was `ttl` before; options other than `ttl` are ignored.
pub open spec fn apply_option(piece: Seq<char>, ttl: u32) -> Result<u32, &'static str> {
    let e = skip(piece, 0, CharClass::Not('='));
    let name = piece.subrange(0, e);
    let value = if e < piece.len() {
        piece.subrange(e + 1, piece.len() as int)
    } else {
        Seq::empty()
    };
    if name == seq!['t', 't', 'l'] {
        ttl_spec(value)
    } else {
        Ok(ttl)
    }
}

/// The TTL after the comma-separated options `t`, in order, where it was
/// `ttl` before; the first error ends the reading.
pub open spec fn options_ttl(t: Seq<char>, ttl: u32) -> Result<u32, &'static str>
    decreases t.len(),
{
    let c = skip(t, 0, CharClass::Not(','));
    match apply_option(t.subrange(0, c), ttl) {
        Err(e) => Err(e),
        Ok(n) => if 0 <= c < t.len() {
            options_ttl(t.subrange(c + 1, t.len() as int), n)
        } else {
            Ok(n)
        },
    }
}

/// Options read from a record's bracket text.
pub struct RecordOptions {
    pub ttl: u32,
}

fn char_in_class(c: char, k: CharClass) -> (r: bool)
    ensures
        r == in_class(c, k),
{
    match k {
        CharClass::Space => is_white_space(c),
        CharClass::Digit => '0' <= c && c <= '9',
        CharClass::NonSpace => !is_white_space(c),
        CharClass::Not(x) => c != x,
    }
}

/// The end of the run of class `k` that starts at `i`, within `lo..hi`.
fn skip_class(cs: &Vec<char>, lo: usize, i: usize, hi: usize, k: CharClass) -> (r: usize)
    requires
        lo <= i <= hi <= cs@.len(),
    ensures
        r == lo + skip(cs@.subrange(lo as int, hi as int), i - lo, k),
        i <= r <= hi,
{
    let ghost t = cs@.subrange(lo as int, hi as int);
    let mut j: usize = i;
    while j < hi
        invariant
            lo <= i <= j <= hi <= cs@.len(),
            t == cs@.subrange(lo as int, hi as int),
            skip(t, i - lo, k) == skip(t, j - lo, k),
        decreases hi - j,
    {
        assert(t[j - lo] == cs@[j as int]);
        if !char_in_class(cs[j], k) {
            return j;
        }
        j = j + 1;
    }
    j
}

/// The start of the run of white space that ends at `j`, not before `a`.
fn skip_back_class(cs: &Vec<char>, lo: usize, a: usize, hi: usize) -> (r: usize)
    requires
        lo <= a <= hi <= cs@.len(),
    ensures
        r == lo + skip_back_space(cs@.subrange(lo as int, hi as int), a - lo, hi - lo),
        a <= r <= hi,
{
    let ghost t = cs@.subrange(lo as int, hi as int);
    let mut j: usize = hi;
    while a < j
        invariant
            lo <= a <= j <= hi <= cs@.len(),
            t == cs@.subrange(lo as int, hi as int),
            skip_back_space(t, a - lo, hi - lo) == skip_back_space(t, a - lo, j - lo),
        decreases j,
    {
        assert(t[j - lo - 1] == cs@[j - 1]);
        if !is_white_space(cs[j - 1]) {
            return j;
        }
        j = j - 1;
    }
    j
}

proof fn lemma_digits_nonneg(t: Seq<char>)
    requires
        all_digits(t),
    ensures
        digits_value(t) >= 0,
    decreases t.len(),
{
    if t.len() > 0 {
        assert(all_digits(t.drop_last())) by {
            assert forall|k: int| 0 <= k < t.drop_last().len() implies is_digit(
                #[trigger] t.drop_last()[k],
            ) by {
                assert(t.drop_last()[k] == t[k]);
            }
        }
        lemma_digits_nonneg(t.drop_last());
    }
}

/// Reads `cs[lo..hi]` as an unsigned decimal.
fn parse_decimal(cs: &Vec<char>, lo: usize, hi: usize) -> (r: Option<u32>)
    requires
        lo <= hi <= cs@.len(),
    ensures
        r == decimal_u32(cs@.subrange(lo as int, hi as int)),
{
    let ghost t = cs@.subrange(lo as int, hi as int);
    let mut start: usize = lo;
    if lo < hi && cs[lo] == '+' {
        start = lo + 1;
    }
    let ghost d = cs@.subrange(start as int, hi as int);
    assert(d =~= (if t.len() > 0 && t[0] == '+' {
        t.drop_first()
    } else {
        t
    }));
    if start == hi {
        return None;
    }
    let mut acc: u64 = 0;
    let mut i: usize = start;
    assert(cs@.subrange(start as int, start as int) =~= Seq::<char>::empty());
    while i < hi
        invariant
            lo <= start <= i <= hi <= cs@.len(),
            d == cs@.subrange(start as int, hi as int),
            t == cs@.subrange(lo as int, hi as int),
            d == (if t.len() > 0 && t[0] == '+' {
                t.drop_first()
            } else {
                t
            }),
            all_digits(cs@.subrange(start as int, i as int)),
            acc == if digits_value(cs@.subrange(start as int, i as int)) > u32::MAX {
                u32::MAX as int + 1
            } else {
                digits_value(cs@.subrange(start as int, i as int))
            },
        decreases hi - i,
    {
        let c = cs[i];
        if !('0' <= c && c <= '9') {
            assert(d[i - start] == c);
            assert(!is_digit(d[i - start]));
            assert(!all_digits(d));
            return None;
        }
        let ghost p = cs@.subrange(start as int, i as int);
        let ghost grown = cs@.subrange(start as int, i + 1);
        assert(grown.drop_last() =~= p);
        assert(all_digits(grown)) by {
            assert forall|k: int| 0 <= k < grown.len() implies is_digit(#[trigger] grown[k]) by {
                if k < p.len() {
                    assert(grown[k] == p[k]);
                }
            }
        }
        proof {
            lemma_digits_nonneg(p);
        }
        let digit = (c as u32 - '0' as u32) as u64;
        assert(acc * 10 <= (u32::MAX as u64 + 1) * 10) by (nonlinear_arith)
            requires
                acc <= u32::MAX as u64 + 1,
        ;
        let next = acc * 10 + digit;
        let ghost v = digits_value(p);
        assert(v * 10 >= v) by (nonlinear_arith)
            requires
                v >= 0,
        ;
        if next > u32::MAX as u64 {
            acc = u32::MAX as u64 + 1;
        } else {
            acc = next;
        }
        i = i + 1;
    }
    assert(cs@.subrange(start as int, i as int) =~= d);
    if acc > u32::MAX as u64 {
        None
    } else {
        Some(acc as u32)
    }
}

/// Reads the TTL option value `cs[lo..hi]`.
fn ttl_value(cs: &Vec<char>, lo: usize, hi: usize) -> (r: Result<u32, &'static str>)
    requires
        lo <= hi <= cs@.len(),
    ensures
        r == ttl_spec(cs@.subrange(lo as int, hi as int)),
{
    let ghost t = cs@.subrange(lo as int, hi as int);
    let a = skip_class(cs, lo, lo, hi, CharClass::Space);
    let b = skip_back_class(cs, lo, a, hi);
    assert(trimmed(t) =~= cs@.subrange(a as int, b as int));
    if a == b {
        Err("missing value for ttl")
    } else {
        match parse_decimal(cs, a, b) {
            Some(n) => Ok(n),
            None => Err("invalid ttl value"),
        }
    }
}

/// Reads a TTL option value: a decimal number of seconds, with white space
/// around it ignored.
pub fn parse_ttl(value: &str) -> (r: Result<u32, &'static str>)
    ensures
        r == ttl_spec(value@),
{
    let cs = chars_of(value);
    assert(cs@.subrange(0, cs@.len() as int) =~= value@);
    ttl_value(&cs, 0, cs.len())
}

/// Reads the comma-separated options `cs[lo..hi]`, starting from the
/// default TTL.
fn options_value(cs: &Vec<char>, lo: usize, hi: usize) -> (r: Result<u32, &'static str>)
    requires
        lo <= hi <= cs@.len(),
    ensures
        r == options_ttl(cs@.subrange(lo as int, hi as int), DEFAULT_TTL),
{
    let mut ttl: u32 = DEFAULT_TTL;
    let mut pos: usize = lo;
    loop
        invariant
            lo <= pos <= hi <= cs@.len(),
            options_ttl(cs@.subrange(lo as int, hi as int), DEFAULT_TTL) == options_ttl(
                cs@.subrange(pos as int, hi as int),
                ttl,
            ),
        decreases hi - pos,
    {
        let ghost t = cs@.subrange(pos as int, hi as int);
        let c = skip_class(cs, pos, pos, hi, CharClass::Not(','));
        let ghost piece = cs@.subrange(pos as int, c as int);
        assert(t.subrange(0, c - pos) =~= piece);
        let e = skip_class(cs, pos, pos, c, CharClass::Not('='));
        let ghost name = piece.subrange(0, e - pos);
        assert(name =~= cs@.subrange(pos as int, e as int));
        let is_ttl = e - pos == 3 && cs[pos] == 't' && cs[pos + 1] == 't' && cs[pos + 2] == 'l';
        assert(is_ttl <==> name == seq!['t', 't', 'l']) by {
            if name == seq!['t', 't', 'l'] {
                assert(name[0] == cs@[pos as int] && name[1] == cs@[pos + 1] && name[2] == cs@[pos
                    + 2]);
            }
            if is_ttl {
                assert(name =~= seq!['t', 't', 'l']);
            }
        }
        if is_ttl {
            let vstart = if e < c {
                e + 1
            } else {
                c
            };
            assert(cs@.subrange(vstart as int, c as int) =~= (if e - pos < piece.len() {
                piece.subrange(e - pos + 1, piece.len() as int)
            } else {
                Seq::empty()
            }));
            match ttl_value(cs, vstart, c) {
                Ok(n) => {
                    ttl = n;
                },
                Err(m) => {
                    return Err(m);
                },
            }
        }
        if c == hi {
            return Ok(ttl);
        }
        assert(t.subrange(c - pos + 1, t.len() as int) =~= cs@.subrange(c + 1, hi as int));
        pos = c + 1;
    }
}

/// Reads a record's options: `name=value` items separated by commas, of
/// which `ttl` sets the TTL (1800 seconds where none does) and the others
/// are ignored.
pub fn parse_options(ops: &str) -> (r: Result<RecordOptions, &'static str>)
    ensures
        match options_ttl(ops@, DEFAULT_TTL) {
            Ok(ttl) => r matches Ok(o) && o.ttl == ttl,
            Err(e) => r matches Err(m) && m == e,
        },
{
    let cs = chars_of(ops);
    assert(cs@.subrange(0, cs@.len() as int) =~= ops@);
    match options_value(&cs, 0, cs.len()) {
        Ok(ttl) => Ok(RecordOptions { ttl }),
        Err(m) => Err(m),
    }
}

/// A run of one to three digits spans `s..e`.
pub open spec fn group_ok(s: int, e: int) -> bool {
    1 <= e - s <= 3
}

pub open spec fn dot_at(t: Seq<char>, i: int) -> bool {
    0 <= i < t.len() && t[i] == '.'
}

/// Where the parts of the record line `t` lie: white space, an address of
/// four dot-separated groups of one to three digits (starting at `ends[0]`,
/// group `k` ending at `ends[k + 1]`), white space, the name pattern (a run
/// of non-space characters), then optionally white space and a non-empty
/// bracketed option text. Anything after that is ignored.
pub open spec fn record_layout(t: Seq<char>) -> Option<(Seq<int>, (int, int), Option<(int, int)>)> {
    let a = skip(t, 0, CharClass::Space);
    let e0 = skip(t, a, CharClass::Digit);
    let e1 = skip(t, e0 + 1, CharClass::Digit);
    let e2 = skip(t, e1 + 1, CharClass::Digit);
    let e3 = skip(t, e2 + 1, CharClass::Digit);
    let w = skip(t, e3, CharClass::Space);
    let r = skip(t, w, CharClass::NonSpace);
    let w2 = skip(t, r, CharClass::Space);
    let c = skip(t, w2 + 1, CharClass::Not(']'));
    if a > 0 && group_ok(a, e0) && dot_at(t, e0) && group_ok(e0 + 1, e1) && dot_at(t, e1)
        && group_ok(e1 + 1, e2) && dot_at(t, e2) && group_ok(e2 + 1, e3) && e3 < w < t.len() {
        let opts = if r < w2 < t.len() && t[w2] == '[' && w2 + 1 < c < t.len() {
            Some((w2 + 1, c))
        } else {
            None
        };
        Some((seq![a, e0, e1, e2, e3], (w, r), opts))
    } else {
        None
    }
}

/// The octet that the digit group `g` gives: at most 255, with no leading
/// zero.
pub open spec fn octet(g: Seq<char>) -> Option<u8> {
    if g.len() > 1 && g[0] == '0' {
        None
    } else {
        match decimal_u32(g) {
            Some(v) => if v <= 255 {
                Some(v as u8)
            } else {
                None
            },
            None => None,
        }
    }
}

/// The address whose groups end at `ends` in `t`.
pub open spec fn quad_address(t: Seq<char>, ends: Seq<int>) -> Option<Seq<u8>> {
    match (
        octet(t.subrange(ends[0], ends[1])),
        octet(t.subrange(ends[1] + 1, ends[2])),
        octet(t.subrange(ends[2] + 1, ends[3])),
        octet(t.subrange(ends[3] + 1, ends[4])),
    ) {
        (Some(o0), Some(o1), Some(o2), Some(o3)) => Some(seq![o0, o1, o2, o3]),
        _ => None,
    }
}

/// The address octets, the pattern text and the TTL of the record line
/// `t`, or the first reason it is refused.
pub open spec fn record_parts(t: Seq<char>) -> Result<(Seq<u8>, Seq<char>, u32), &'static str> {
    match record_layout(t) {
        None => Err("did not match record pattern"),
        Some((ends, pat, opts)) => match quad_address(t, ends) {
            None => Err("invalid ip address"),
            Some(octets) => {
                let source = t.subrange(pat.0, pat.1);
                if !regex_accepts(source) {
                    Err("malformed regular expression")
                } else {
                    let ttl = match opts {
                        None => Ok(DEFAULT_TTL),
                        Some((p, q)) => options_ttl(t.subrange(p, q), DEFAULT_TTL),
                    };
                    match ttl {
                        Err(e) => Err(e),
                        Ok(n) => Ok((octets, source, n)),
                    }
                }
            },
        },
    }
}

/// `r` is the record that the line `t` describes, or its refusal.
pub open spec fn record_agrees(t: Seq<char>, r: Result<ResourceRecord, &'static str>) -> bool {
    match record_parts(t) {
        Err(e) => r matches Err(m) && m == e,
        Ok((octets, source, ttl)) => r matches Ok(rec) && {
            &&& rec.rdata matches HostAddress::V4(a) && a@ == octets
            &&& rec.name matches NamePattern::Regex(p) && p.source_text() == source
            &&& rec.ttl == ttl
        },
    }
}

/// Reads the digit group `cs[lo..hi]` as an address octet.
fn octet_value(cs: &Vec<char>, lo: usize, hi: usize) -> (r: Option<u8>)
    requires
        lo < hi <= cs@.len(),
    ensures
        r == octet(cs@.subrange(lo as int, hi as int)),
{
    if hi - lo > 1 && cs[lo] == '0' {
        return None;
    }
    match parse_decimal(cs, lo, hi) {
        Some(v) => if v <= 255 {
            Some(v as u8)
        } else {
            None
        },
        None => None,
    }
}

/// Positions of a record line's parts, as `record_layout` gives them.
pub open spec fn layout_of(
    x: (usize, usize, usize, usize, usize, usize, usize, Option<(usize, usize)>),
) -> (Seq<int>, (int, int), Option<(int, int)>) {
    (
        seq![x.0 as int, x.1 as int, x.2 as int, x.3 as int, x.4 as int],
        (x.5 as int, x.6 as int),
        match x.7 {
            Some((p, q)) => Some((p as int, q as int)),
            None => None,
        },
    )
}

/// The end of the run of class `k` that starts at `i` in all of `cs`.
fn skip_from(cs: &Vec<char>, i: usize, k: CharClass) -> (r: usize)
    requires
        i <= cs@.len(),
    ensures
        r == skip(cs@, i as int, k),
        i <= r <= cs@.len(),
{
    assert(cs@.subrange(0, cs@.len() as int) =~= cs@);
    skip_class(cs, 0, i, cs.len(), k)
}

/// Finds where the parts of the record line `cs` lie.
fn locate_record(cs: &Vec<char>) -> (r: Option<
    (usize, usize, usize, usize, usize, usize, usize, Option<(usize, usize)>),
>)
    ensures
        match r {
            None => record_layout(cs@) is None,
            Some(x) => {
                &&& record_layout(cs@) == Some(layout_of(x))
                &&& x.0 < x.1 < x.2 < x.3 < x.4 < x.5 <= x.6 <= cs@.len()
                &&& x.7 matches Some((p, q)) ==> p < q <= cs@.len()
            },
        },
{
    let n = cs.len();
    let ghost t = cs@;
    let a = skip_from(cs, 0, CharClass::Space);
    if a == 0 {
        return None;
    }
    let e0 = skip_from(cs, a, CharClass::Digit);
    if !(1 <= e0 - a && e0 - a <= 3 && e0 < n && cs[e0] == '.') {
        return None;
    }
    let e1 = skip_from(cs, e0 + 1, CharClass::Digit);
    if !(1 <= e1 - (e0 + 1) && e1 - (e0 + 1) <= 3 && e1 < n && cs[e1] == '.') {
        return None;
    }
    let e2 = skip_from(cs, e1 + 1, CharClass::Digit);
    if !(1 <= e2 - (e1 + 1) && e2 - (e1 + 1) <= 3 && e2 < n && cs[e2] == '.') {
        return None;
    }
    let e3 = skip_from(cs, e2 + 1, CharClass::Digit);
    if !(1 <= e3 - (e2 + 1) && e3 - (e2 + 1) <= 3) {
        return None;
    }
    let w = skip_from(cs, e3, CharClass::Space);
    if !(e3 < w && w < n) {
        return None;
    }
    let r = skip_from(cs, w, CharClass::NonSpace);
    let w2 = skip_from(cs, r, CharClass::Space);
    let mut opts: Option<(usize, usize)> = None;
    if r < w2 && w2 < n && cs[w2] == '[' {
        let c = skip_from(cs, w2 + 1, CharClass::Not(']'));
        if w2 + 1 < c && c < n {
            opts = Some((w2 + 1, c));
        }
    }
    let found = (a, e0, e1, e2, e3, w, r, opts);
    assert(record_layout(t) == Some(layout_of(found)));
    Some(found)
}

impl ResourceRecord {
    /// Reads a record from its configuration text: white space, an IPv4
    /// address, white space, a regular expression, and optionally white
    /// space and `[options]`.
    pub fn from_str(s: &str) -> (r: Result<ResourceRecord, &'static str>)
        ensures
            record_agrees(s@, r),
    {
        let cs = chars_of(s);
        let (a, e0, e1, e2, e3, w, r, opts) = match locate_record(&cs) {
            Some(found) => found,
            None => return Err("did not match record pattern"),
        };
        let o0 = match octet_value(&cs, a, e0) {
            Some(o) => o,
            None => return Err("invalid ip address"),
        };
        let o1 = match octet_value(&cs, e0 + 1, e1) {
            Some(o) => o,
            None => return Err("invalid ip address"),
        };
        let o2 = match octet_value(&cs, e1 + 1, e2) {
            Some(o) => o,
            None => return Err("invalid ip address"),
        };
        let o3 = match octet_value(&cs, e2 + 1, e3) {
            Some(o) => o,
            None => return Err("invalid ip address"),
        };
        let source = string_of(&cs.as_slice()[w..r]);
        let pattern = match Pattern::new(source.as_str()) {
            Some(p) => p,
            None => return Err("malformed regular expression"),
        };
        let ttl = match opts {
            None => DEFAULT_TTL,
            Some((p, q)) => match options_value(&cs, p, q) {
                Ok(ttl) => ttl,
                Err(m) => return Err(m),
            },
        };
        let octets: [u8; 4] = [o0, o1, o2, o3];
        assert(octets@ =~= seq![o0, o1, o2, o3]);
        Ok(ResourceRecord { rdata: HostAddress::V4(octets), name: NamePattern::Regex(pattern), ttl })
    }
}

/// The record text of a configuration line: the line without surrounding
/// white space must start with `#@`; what follows is the record.
pub open spec fn record_line(t: Seq<char>) -> Option<Seq<char>> {
    let u = trimmed(t);
    if u.len() >= 2 && u[0] == '#' && u[1] == '@' {
        Some(u.subrange(2, u.len() as int))
    } else {
        None
    }
}

/// Reads one configuration line: `None` for a line that holds no record,
/// else the record it describes or why that record is refused.
pub fn parse_dns_record(line: &str) -> (r: Option<Result<ResourceRecord, &'static str>>)
    ensures
        match record_line(line@) {
            None => r is None,
            Some(body) => r matches Some(x) && record_agrees(body, x),
        },
{
    let cs = chars_of(line);
    let n = cs.len();
    assert(cs@.subrange(0, n as int) =~= line@);
    let a = skip_class(&cs, 0, 0, n, CharClass::Space);
    let b = skip_back_class(&cs, 0, a, n);
    assert(trimmed(line@) =~= cs@.subrange(a as int, b as int));
    if b - a < 2 || cs[a] != '#' || cs[a + 1] != '@' {
        return None;
    }
    let body = string_of(&cs.as_slice()[a + 2..b]);
    assert(body@ =~= trimmed(line@).subrange(2, trimmed(line@).len() as int));
    Some(ResourceRecord::from_str(body.as_str()))
}

} // verus!
