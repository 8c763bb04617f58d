//! Regular expressions: the calls into `regex` that the library makes.
use vstd::prelude::*;
use vstd::string::*;
use vstd::utf8::*;

verus! {

/// `regex::Regex`: a compiled expression.
#[verifier::external_type_specification]
#[verifier::external_body]
pub struct ExRegex(regex::Regex);

/// The pattern that an expression was compiled from by `compile`.
pub uninterp spec fn regex_source(re: regex::Regex) -> Seq<char>;

/// Whether `Regex::new` accepts a pattern.
pub uninterp spec fn regex_ok(pattern: Seq<char>) -> bool;

/// What `Regex::is_match` returns.
pub uninterp spec fn regex_is_match(pattern: Seq<char>, text: Seq<char>) -> bool;

/// What `Regex::find_at` returns: the byte range of the first match from a place on.
pub uninterp spec fn regex_find_at(pattern: Seq<char>, text: Seq<char>, at: usize) -> Option<(usize, usize)>;

/// What `Captures::name` returns on the captures of `Regex::captures_at`: the byte
/// range of a named group in the first match from a place on.
pub uninterp spec fn regex_group_at(
    pattern: Seq<char>,
    text: Seq<char>,
    at: usize,
    group: Seq<char>,
) -> Option<(usize, usize)>;

/// What `Regex::find_iter` yields: the byte ranges of the matches, in order.
pub uninterp spec fn regex_spans(pattern: Seq<char>, text: Seq<char>) -> Seq<(usize, usize)>;

/// Whether a byte range lies in a text, from one character boundary to another.
pub open spec fn range_in(text: Seq<char>, a: int, b: int) -> bool {
    let bytes = encode_utf8(text);
    0 <= a <= b <= bytes.len() && is_char_boundary(bytes, a) && is_char_boundary(bytes, b)
}

/// `Regex::new`: an expression for a pattern that the crate accepts.
#[verifier::external_body]
pub(crate) fn compile(pattern: &str) -> (r: Option<regex::Regex>)
    ensures
        r is Some <==> regex_ok(pattern@),
        r is Some ==> regex_source(r->0) == pattern@,
{
    regex::Regex::new(pattern).ok()
}

/// `Regex::is_match`: a function of the pattern and the text.
#[verifier::external_body]
pub(crate) fn is_match(re: &regex::Regex, text: &str) -> (r: bool)
    ensures
        r == regex_is_match(regex_source(*re), text@),
{
    re.is_match(text)
}

/// `Regex::find_at`: a function of the pattern, the text and the place. A match starts
/// at or behind the place and lies on character boundaries. The call panics where the
/// place lies behind the text.
#[verifier::external_body]
pub(crate) fn find_at(re: &regex::Regex, text: &str, at: usize) -> (r: Option<(usize, usize)>)
    requires
        at <= encode_utf8(text@).len(),
    ensures
        r == regex_find_at(regex_source(*re), text@, at),
        r matches Some((s, e)) ==> at <= s && range_in(text@, s as int, e as int),
{
    re.find_at(text, at).map(|m| (m.start(), m.end()))
}

/// `Regex::captures_at` and `Captures::name`: the range of a named group, a function of
/// the pattern, the text, the place and the group.
#[verifier::external_body]
pub(crate) fn group_at(re: &regex::Regex, text: &str, at: usize, group: &str) -> (r: Option<(usize, usize)>)
    requires
        at <= encode_utf8(text@).len(),
    ensures
        r == regex_group_at(regex_source(*re), text@, at, group@),
{
    let caps = re.captures_at(text, at)?;
    let m = caps.name(group)?;
    Some((m.start(), m.end()))
}

/// Whether ranges lie in a text one behind the other.
pub open spec fn ranges_in(text: Seq<char>, v: Seq<(usize, usize)>) -> bool {
    &&& forall|i: int| 0 <= i < v.len() ==> range_in(text, (#[trigger] v[i]).0 as int, v[i].1 as int)
    &&& forall|i: int, j: int| 0 <= i < j < v.len() ==> (#[trigger] v[i]).1 <= (#[trigger] v[j]).0
}

/// `Regex::find_iter`: the ranges of the successive non-overlapping matches, a function
/// of the pattern and the text; each lies on character boundaries.
#[verifier::external_body]
pub(crate) fn find_all(re: &regex::Regex, text: &str) -> (r: Vec<(usize, usize)>)
    ensures
        r@ == regex_spans(regex_source(*re), text@),
        ranges_in(text@, r@),
{
    re.find_iter(text).map(|m| (m.start(), m.end())).collect()
}

/// The text in a byte range.
pub open spec fn byte_slice(text: Seq<char>, a: int, b: int) -> Seq<char> {
    decode_utf8(encode_utf8(text).subrange(a, b))
}

proof fn lemma_text_from_bytes(t: Seq<char>, b: Seq<u8>)
    requires
        encode_utf8(t) == b,
    ensures
        t == decode_utf8(b),
{
    encode_utf8_decode_utf8(t);
}

/// The part of a string in a byte range.
pub fn slice_bytes(s: &str, a: usize, b: usize) -> (r: &str)
    requires
        range_in(s@, a as int, b as int),
    ensures
        r@ == byte_slice(s@, a as int, b as int),
{
    let ghost bytes = s.spec_bytes();
    proof {
        encode_utf8_valid_utf8(s@);
    }
    let (head, _) = s.split_at(b);
    proof {
        encode_utf8_valid_utf8(head@);
        let hb = head.spec_bytes();
        assert(hb == bytes.subrange(0, b as int));
        lemma_boundary_prefix(bytes, a as int, b as int);
        assert(hb =~= bytes.take(b as int));
    }
    let (_, part) = head.split_at(a);
    proof {
        assert(part.spec_bytes() =~= bytes.subrange(a as int, b as int));
        lemma_text_from_bytes(part@, bytes.subrange(a as int, b as int));
    }
    part
}

/// A character boundary inside a prefix that ends on a boundary is a boundary of the
/// prefix.
proof fn lemma_boundary_prefix(bytes: Seq<u8>, a: int, b: int)
    requires
        valid_utf8(bytes),
        0 <= a <= b <= bytes.len(),
        is_char_boundary(bytes, a),
        is_char_boundary(bytes, b),
    ensures
        is_char_boundary(bytes.subrange(0, b), a),
{
    let p = bytes.subrange(0, b);
    valid_utf8_split(bytes, b);
    assert(bytes.take(b) =~= p);
    assert(valid_utf8(p));
    if a == b {
        is_char_boundary_start_end_of_seq(p);
    } else {
        is_char_boundary_iff_not_is_continuation_byte(bytes, a);
        is_char_boundary_iff_not_is_continuation_byte(p, a);
    }
}

/// The text in front of a place and the text from there to another are the text in front of
/// that.
pub proof fn lemma_slices_join(text: Seq<char>, a: int, b: int)
    requires
        range_in(text, a, b),
    ensures
        byte_slice(text, 0, b) == byte_slice(text, 0, a) + byte_slice(text, a, b),
{
    let bytes = encode_utf8(text);
    encode_utf8_valid_utf8(text);
    lemma_boundary_prefix(bytes, a, b);
    valid_utf8_split(bytes, b);
    let p = bytes.subrange(0, b);
    assert(valid_utf8(p));
    decode_utf8_split(p, a);
    assert(p.subrange(0, a) =~= bytes.subrange(0, a));
    assert(p.subrange(a, p.len() as int) =~= bytes.subrange(a, b));
}

/// All bytes of a text are the text.
pub proof fn lemma_whole_slice(text: Seq<char>)
    ensures
        byte_slice(text, 0, encode_utf8(text).len() as int) == text,
        byte_slice(text, 0, 0) == Seq::<char>::empty(),
{
    let bytes = encode_utf8(text);
    assert(bytes.subrange(0, bytes.len() as int) =~= bytes);
    encode_utf8_decode_utf8(text);
    assert(bytes.subrange(0, 0) =~= Seq::empty());
    assert(decode_utf8(Seq::empty()) =~= Seq::<char>::empty());
}

/// The length of a string in bytes.
pub fn byte_len(s: &str) -> (r: usize)
    ensures
        r == encode_utf8(s@).len(),
{
    s.as_bytes().len()
}

} // verus!
