//! Text: the string operations that the rest of the library is stated over.
//!
//! A string is modelled by its sequence of characters. Operations that std offers
//! on whole strings (splitting, trimming, number formatting and parsing) are
//! written here as loops over characters, each against a spec function of a few
//! lines.
use vstd::prelude::*;
use vstd::string::*;

verus! {

/// `String::push` appends one character.
pub assume_specification[ String::push ](s: &mut String, c: char)
    ensures
        final(s)@ == old(s)@.push(c),
;

/// What `str::to_lowercase` returns: the Unicode lower case of a text.
pub uninterp spec fn lowercase(s: Seq<char>) -> Seq<char>;

/// `str::to_lowercase`; its result depends on the text alone.
#[verifier::external_body]
pub(crate) fn to_lowercase(s: &str) -> (r: String)
    ensures
        r@ == lowercase(s@),
{
    s.to_lowercase()
}

/// Whether a character is white space: it has the Unicode property `White_Space`.
pub open spec fn is_white(c: char) -> bool {
    ||| '\u{9}' <= c && c <= '\u{d}'
    ||| c == ' ' || c == '\u{85}' || c == '\u{a0}' || c == '\u{1680}'
    ||| '\u{2000}' <= c && c <= '\u{200a}'
    ||| c == '\u{2028}' || c == '\u{2029}' || c == '\u{202f}' || c == '\u{205f}' || c == '\u{3000}'
}

/// Whether a character is white space.
pub fn char_is_whitespace(c: char) -> (r: bool)
    ensures
        r == is_white(c),
{
    ('\u{9}' <= c && c <= '\u{d}') || c == ' ' || c == '\u{85}' || c == '\u{a0}' || c == '\u{1680}' || ('\u{2000}' <= c
        && c <= '\u{200a}') || c == '\u{2028}' || c == '\u{2029}' || c == '\u{202f}' || c == '\u{205f}' || c
        == '\u{3000}'
}

// ---------------------------------------------------------------------------
// Characters and strings

/// The texts of a sequence of strings.
pub open spec fn texts(v: Seq<String>) -> Seq<Seq<char>> {
    v.map_values(|s: String| s@)
}

/// The characters of a string.
pub fn to_chars(s: &str) -> (r: Vec<char>)
    ensures
        r@ == s@,
{
    let mut out: Vec<char> = Vec::new();
    for c in it: s.chars()
        invariant
            out@ =~= s@.take(it.index()),
            it.seq() == s@,
    {
        out.push(c);
    }
    out
}

/// The string spelled by the characters from `from` up to `to`.
pub fn sub_text(v: &Vec<char>, from: usize, to: usize) -> (r: String)
    requires
        from <= to <= v.len(),
    ensures
        r@ == v@.subrange(from as int, to as int),
{
    let mut out = String::new();
    let mut i: usize = from;
    while i < to
        invariant
            from <= i <= to <= v.len(),
            out@ =~= v@.subrange(from as int, i as int),
        decreases to - i,
    {
        out.push(v[i]);
        i += 1;
    }
    out
}

/// A string with the same characters.
pub fn copy_text(s: &str) -> (r: String)
    ensures
        r@ == s@,
{
    s.to_owned()
}

/// Whether two runs of characters are equal.
pub fn same_chars(a: &Vec<char>, b: &Vec<char>) -> (r: bool)
    ensures
        r == (a@ == b@),
{
    if a.len() != b.len() {
        return false;
    }
    let mut i: usize = 0;
    while i < a.len()
        invariant
            a.len() == b.len(),
            i <= a.len(),
            forall|k: int| 0 <= k < i ==> a@[k] == b@[k],
        decreases a.len() - i,
    {
        if a[i] != b[i] {
            assert(a@[i as int] != b@[i as int]);
            return false;
        }
        i += 1;
    }
    assert(a@ =~= b@);
    true
}

/// Whether two strings are equal.
pub fn same_text(a: &str, b: &str) -> (r: bool)
    ensures
        r == (a@ == b@),
{
    let x = to_chars(a);
    let y = to_chars(b);
    same_chars(&x, &y)
}

/// Whether an optional string is present and equal to a text.
pub fn option_is(a: &Option<String>, b: &str) -> (r: bool)
    ensures
        r == (a is Some && a->0@ == b@),
{
    match a {
        Some(s) => same_text(s.as_str(), b),
        None => false,
    }
}

/// Two optional texts, as texts.
pub open spec fn opt_text(a: Option<String>) -> Option<Seq<char>> {
    match a {
        Some(s) => Some(s@),
        None => None,
    }
}

/// Whether two optional strings agree.
pub fn same_option(a: &Option<String>, b: &Option<String>) -> (r: bool)
    ensures
        r == (opt_text(*a) == opt_text(*b)),
{
    match (a, b) {
        (Some(x), Some(y)) => same_text(x.as_str(), y.as_str()),
        (None, None) => true,
        _ => false,
    }
}

/// The text of an optional string, or a text that stands for its absence.
pub open spec fn text_or(a: Option<String>, d: Seq<char>) -> Seq<char> {
    match a {
        Some(s) => s@,
        None => d,
    }
}

/// The optional string, or a default in its place.
pub fn string_or(a: &Option<String>, d: &str) -> (r: String)
    ensures
        r@ == text_or(*a, d@),
{
    match a {
        Some(s) => s.clone(),
        None => copy_text(d),
    }
}

/// The concatenation of two texts.
pub fn cat2(a: &str, b: &str) -> (r: String)
    ensures
        r@ == a@ + b@,
{
    let mut s = copy_text(a);
    s.append(b);
    s
}

/// The concatenation of three texts.
pub fn cat3(a: &str, b: &str, c: &str) -> (r: String)
    ensures
        r@ == a@ + b@ + c@,
{
    let mut s = copy_text(a);
    s.append(b);
    s.append(c);
    s
}

/// The concatenation of four texts.
pub fn cat4(a: &str, b: &str, c: &str, d: &str) -> (r: String)
    ensures
        r@ == a@ + b@ + c@ + d@,
{
    let mut s = copy_text(a);
    s.append(b);
    s.append(c);
    s.append(d);
    s
}

/// The concatenation of five texts.
pub fn cat5(a: &str, b: &str, c: &str, d: &str, e: &str) -> (r: String)
    ensures
        r@ == a@ + b@ + c@ + d@ + e@,
{
    let mut s = copy_text(a);
    s.append(b);
    s.append(c);
    s.append(d);
    s.append(e);
    s
}

// ---------------------------------------------------------------------------
// Splitting and joining

/// The pieces of `s` between occurrences of `c`; there is always at least one.
pub open spec fn split<A>(s: Seq<A>, c: A) -> Seq<Seq<A>>
    decreases s.len(),
{
    if s.len() == 0 {
        seq![Seq::empty()]
    } else {
        let p = split(s.drop_last(), c);
        if s.last() == c {
            p.push(Seq::empty())
        } else {
            p.drop_last().push(p.last().push(s.last()))
        }
    }
}

/// A split has at least one piece.
pub proof fn lemma_split_nonempty<A>(s: Seq<A>, c: A)
    ensures
        split(s, c).len() >= 1,
    decreases s.len(),
{
    if s.len() > 0 {
        lemma_split_nonempty(s.drop_last(), c);
    }
}

/// A text without the separator is its own only piece.
pub proof fn lemma_split_single<A>(s: Seq<A>, c: A)
    requires
        !s.contains(c),
    ensures
        split(s, c) == seq![s],
    decreases s.len(),
{
    if s.len() > 0 {
        assert forall|i: int| 0 <= i < s.drop_last().len() implies s.drop_last()[i] != c by {
            assert(s.contains(s[i]));
        }
        lemma_split_single(s.drop_last(), c);
        assert(s.contains(s.last()));
        assert(split(s.drop_last(), c).drop_last() =~= Seq::empty());
        assert(split(s, c) =~= seq![s]) by {
            assert(s.drop_last().push(s.last()) =~= s);
        }
    } else {
        assert(s =~= Seq::empty());
    }
}

/// Splitting distributes over a separator.
pub proof fn lemma_split_concat<A>(a: Seq<A>, c: A, b: Seq<A>)
    ensures
        split(a.push(c) + b, c) == split(a, c) + split(b, c),
    decreases b.len(),
{
    let whole = a.push(c) + b;
    if b.len() == 0 {
        assert(whole.drop_last() =~= a);
        assert(whole.last() == c);
        assert(split(whole, c) =~= split(a, c) + split(b, c));
    } else {
        assert(whole.drop_last() =~= a.push(c) + b.drop_last());
        assert(whole.last() == b.last());
        lemma_split_concat(a, c, b.drop_last());
        lemma_split_nonempty(b.drop_last(), c);
        let p = split(a, c);
        let q = split(b.drop_last(), c);
        assert((p + q).drop_last() =~= p + q.drop_last());
        assert((p + q).last() == q.last());
        assert(split(whole, c) =~= split(a, c) + split(b, c));
    }
}

/// No piece of a split holds the separator.
pub proof fn lemma_split_pieces<A>(s: Seq<A>, c: A)
    ensures
        forall|i: int| 0 <= i < split(s, c).len() ==> !(#[trigger] split(s, c)[i]).contains(c),
    decreases s.len(),
{
    lemma_split_nonempty(s, c);
    if s.len() > 0 {
        lemma_split_pieces(s.drop_last(), c);
        lemma_split_nonempty(s.drop_last(), c);
        let p = split(s.drop_last(), c);
        if s.last() != c {
            assert(!p.last().push(s.last()).contains(c)) by {
                let l = p.last();
                assert(!l.contains(c));
                if l.push(s.last()).contains(c) {
                    let k = choose|k: int| 0 <= k < l.push(s.last()).len() && l.push(s.last())[k] == c;
                    assert(l[k] == c);
                }
            }
        }
    }
}

/// Split a text at a character.
pub fn split_char(s: &str, c: char) -> (r: Vec<String>)
    ensures
        texts(r@) == split(s@, c),
{
    let v = to_chars(s);
    let mut out: Vec<String> = Vec::new();
    let mut cur = String::new();
    let mut i: usize = 0;
    assert(texts(out@).push(cur@) =~= split(v@.take(0), c));
    while i < v.len()
        invariant
            i <= v.len(),
            texts(out@).push(cur@) =~= split(v@.take(i as int), c),
        decreases v.len() - i,
    {
        let ghost before = texts(out@).push(cur@);
        assert(v@.take(i + 1).drop_last() =~= v@.take(i as int));
        let ch = v[i];
        if ch == c {
            out.push(cur);
            cur = String::new();
            assert(texts(out@) =~= before);
        } else {
            let ghost cur0 = cur@;
            cur.push(ch);
            assert(before.drop_last() =~= texts(out@));
        }
        i += 1;
    }
    assert(v@.take(v@.len() as int) =~= s@);
    let ghost before = texts(out@).push(cur@);
    out.push(cur);
    assert(texts(out@) =~= before);
    out
}

/// The texts `p` one after the other, with `sep` between them.
pub open spec fn join(p: Seq<Seq<char>>, sep: Seq<char>) -> Seq<char>
    decreases p.len(),
{
    if p.len() == 0 {
        Seq::empty()
    } else if p.len() == 1 {
        p[0]
    } else {
        join(p.drop_last(), sep) + sep + p.last()
    }
}

/// Join strings with a separator.
pub fn join_text(p: &Vec<String>, sep: &str) -> (r: String)
    ensures
        r@ == join(texts(p@), sep@),
{
    let mut out = String::new();
    let mut i: usize = 0;
    while i < p.len()
        invariant
            i <= p.len(),
            out@ == join(texts(p@).take(i as int), sep@),
        decreases p.len() - i,
    {
        assert(texts(p@).take(i + 1).drop_last() =~= texts(p@).take(i as int));
        if i > 0 {
            out.append(sep);
        } else {
            assert(Seq::<char>::empty() + p@[0]@ =~= p@[0]@);
        }
        out.append(p[i].as_str());
        i += 1;
    }
    assert(texts(p@).take(p@.len() as int) =~= texts(p@));
    out
}

// ---------------------------------------------------------------------------
// Case, prefixes and search

/// The ASCII lower case of one character.
pub open spec fn lower1(c: char) -> char {
    if 'A' <= c && c <= 'Z' {
        ((c as u32) + 32) as char
    } else {
        c
    }
}

/// The ASCII lower case of a text.
pub open spec fn ascii_lower(s: Seq<char>) -> Seq<char> {
    s.map_values(|c: char| lower1(c))
}

/// The ASCII lower case of a character.
pub fn lower_char(c: char) -> (r: char)
    ensures
        r == lower1(c),
{
    if 'A' <= c && c <= 'Z' {
        ((c as u8) + 32) as char
    } else {
        c
    }
}

/// The ASCII lower case of a string.
pub fn ascii_lowercase(s: &str) -> (r: String)
    ensures
        r@ == ascii_lower(s@),
{
    let v = to_chars(s);
    let mut out = String::new();
    let mut i: usize = 0;
    while i < v.len()
        invariant
            i <= v.len(),
            out@ =~= ascii_lower(v@.take(i as int)),
        decreases v.len() - i,
    {
        assert(v@.take(i + 1) =~= v@.take(i as int).push(v@[i as int]));
        out.push(lower_char(v[i]));
        i += 1;
    }
    assert(v@.take(v@.len() as int) =~= v@);
    out
}

/// Whether two strings are equal up to ASCII case.
pub fn same_ignoring_case(a: &str, b: &str) -> (r: bool)
    ensures
        r == (ascii_lower(a@) == ascii_lower(b@)),
{
    let x = ascii_lowercase(a);
    let y = ascii_lowercase(b);
    same_text(x.as_str(), y.as_str())
}

/// Whether `p` occurs in `s` at position `i`.
pub open spec fn occurs_at<A>(s: Seq<A>, p: Seq<A>, i: int) -> bool {
    0 <= i && i + p.len() <= s.len() && s.subrange(i, i + p.len()) == p
}

/// Whether `p` occurs in `s`.
pub open spec fn occurs(s: Seq<char>, p: Seq<char>) -> bool {
    exists|i: int| #[trigger] occurs_at(s, p, i)
}

/// Whether one run of characters occurs in another at a position.
pub fn chars_at(s: &Vec<char>, p: &Vec<char>, i: usize) -> (r: bool)
    ensures
        r == occurs_at(s@, p@, i as int),
{
    if p.len() > s.len() || i > s.len() - p.len() {
        return false;
    }
    let mut k: usize = 0;
    while k < p.len()
        invariant
            k <= p.len(),
            i + p.len() <= s.len(),
            forall|j: int| 0 <= j < k ==> s@[i + j] == p@[j],
        decreases p.len() - k,
    {
        if s[i + k] != p[k] {
            assert(s@.subrange(i as int, i + p@.len())[k as int] != p@[k as int]);
            return false;
        }
        k += 1;
    }
    assert(s@.subrange(i as int, i + p@.len()) =~= p@);
    true
}

/// Whether a text occurs in another.
pub fn contains_text(s: &str, p: &str) -> (r: bool)
    ensures
        r == occurs(s@, p@),
{
    let v = to_chars(s);
    let q = to_chars(p);
    if q.len() > v.len() {
        assert forall|i: int| !#[trigger] occurs_at(s@, p@, i) by {}
        return false;
    }
    let n: usize = v.len() - q.len();
    let mut i: usize = 0;
    while i < n
        invariant
            q@ == p@,
            v@ == s@,
            n == v.len() - q.len(),
            i <= n,
            forall|k: int| 0 <= k < i ==> !#[trigger] occurs_at(s@, p@, k),
        decreases n - i,
    {
        if chars_at(&v, &q, i) {
            assert(occurs_at(s@, p@, i as int));
            return true;
        }
        i += 1;
    }
    let last = chars_at(&v, &q, n);
    if !last {
        assert forall|k: int| !#[trigger] occurs_at(s@, p@, k) by {}
    } else {
        assert(occurs_at(s@, p@, n as int));
    }
    last
}

/// Whether `s` starts with `p`.
pub open spec fn starts<A>(s: Seq<A>, p: Seq<A>) -> bool {
    p.len() <= s.len() && s.take(p.len() as int) == p
}

/// Whether a string starts with another.
pub fn starts_with(s: &str, p: &str) -> (r: bool)
    ensures
        r == starts(s@, p@),
{
    let v = to_chars(s);
    let q = to_chars(p);
    let r = chars_at(&v, &q, 0);
    assert(p@.len() <= s@.len() ==> s@.subrange(0, p@.len() as int) =~= s@.take(p@.len() as int));
    r
}

/// What follows a prefix, where the text has it.
pub open spec fn after_prefix(s: Seq<char>, p: Seq<char>) -> Option<Seq<char>> {
    if starts(s, p) {
        Some(s.skip(p.len() as int))
    } else {
        None
    }
}

/// What follows a prefix, where the string has it.
pub fn strip_prefix(s: &str, p: &str) -> (r: Option<String>)
    ensures
        opt_text(r) == after_prefix(s@, p@),
{
    let v = to_chars(s);
    let q = to_chars(p);
    assert(p@.len() <= s@.len() ==> s@.subrange(0, p@.len() as int) =~= s@.take(p@.len() as int));
    if chars_at(&v, &q, 0) {
        let t = sub_text(&v, q.len(), v.len());
        assert(t@ =~= s@.skip(p@.len() as int));
        Some(t)
    } else {
        None
    }
}

// ---------------------------------------------------------------------------
// White space

/// The text without leading white space.
pub open spec fn trim_start(s: Seq<char>) -> Seq<char>
    decreases s.len(),
{
    if s.len() > 0 && is_white(s[0]) {
        trim_start(s.skip(1))
    } else {
        s
    }
}

/// The text without trailing white space.
pub open spec fn trim_end(s: Seq<char>) -> Seq<char>
    decreases s.len(),
{
    if s.len() > 0 && is_white(s.last()) {
        trim_end(s.drop_last())
    } else {
        s
    }
}

/// The text without leading and trailing white space.
pub open spec fn trimmed(s: Seq<char>) -> Seq<char> {
    trim_end(trim_start(s))
}

/// Remove leading and trailing white space.
pub fn trim(s: &str) -> (r: String)
    ensures
        r@ == trimmed(s@),
{
    let v = to_chars(s);
    let mut a: usize = 0;
    assert(v@.skip(0) =~= s@);
    while a < v.len() && char_is_whitespace(v[a])
        invariant
            v@ == s@,
            a <= v.len(),
            trim_start(v@.skip(a as int)) == trim_start(s@),
        ensures
            v@ == s@,
            a <= v.len(),
            v@.skip(a as int) == trim_start(s@),
        decreases v.len() - a,
    {
        assert(v@.skip(a as int)[0] == v@[a as int]);
        assert(v@.skip(a as int).skip(1) =~= v@.skip(a + 1));
        a += 1;
    }
    let mut b: usize = v.len();
    assert(v@.subrange(a as int, b as int) =~= v@.skip(a as int));
    while b > a && char_is_whitespace(v[b - 1])
        invariant
            v@ == s@,
            a <= b <= v.len(),
            trim_end(v@.subrange(a as int, b as int)) == trimmed(s@),
        ensures
            v@ == s@,
            a <= b <= v.len(),
            v@.subrange(a as int, b as int) == trimmed(s@),
        decreases b,
    {
        let ghost w = v@.subrange(a as int, b as int);
        assert(w.last() == v@[b - 1]);
        assert(w.drop_last() =~= v@.subrange(a as int, b - 1));
        b -= 1;
    }
    sub_text(&v, a, b)
}

/// The pieces of a text between white-space characters.
pub open spec fn white_pieces(s: Seq<char>) -> Seq<Seq<char>>
    decreases s.len(),
{
    if s.len() == 0 {
        seq![Seq::empty()]
    } else {
        let p = white_pieces(s.drop_last());
        if is_white(s.last()) {
            p.push(Seq::empty())
        } else {
            p.drop_last().push(p.last().push(s.last()))
        }
    }
}

/// The texts that are not empty, in order.
pub open spec fn nonempty(p: Seq<Seq<char>>) -> Seq<Seq<char>>
    decreases p.len(),
{
    if p.len() == 0 {
        Seq::empty()
    } else if p.last().len() == 0 {
        nonempty(p.drop_last())
    } else {
        nonempty(p.drop_last()).push(p.last())
    }
}

/// The words of a text: its maximal runs without white space.
pub open spec fn words(s: Seq<char>) -> Seq<Seq<char>> {
    nonempty(white_pieces(s))
}

/// The words of a string.
pub fn split_words(s: &str) -> (r: Vec<String>)
    ensures
        texts(r@) == words(s@),
{
    let v = to_chars(s);
    let mut out: Vec<String> = Vec::new();
    let mut cur = String::new();
    let ghost mut done: Seq<Seq<char>> = Seq::empty();
    let mut i: usize = 0;
    assert(texts(out@) =~= nonempty(done));
    assert(done.push(cur@) =~= white_pieces(v@.take(0)));
    while i < v.len()
        invariant
            i <= v.len(),
            done.push(cur@) == white_pieces(v@.take(i as int)),
            texts(out@) == nonempty(done),
        decreases v.len() - i,
    {
        assert(v@.take(i + 1).drop_last() =~= v@.take(i as int));
        let ch = v[i];
        if char_is_whitespace(ch) {
            let ghost before = done.push(cur@);
            assert(before.drop_last() =~= done);
            if cur.as_str().is_empty() {
            } else {
                let ghost t = texts(out@);
                let ghost c = cur@;
                out.push(cur);
                assert(texts(out@) =~= t.push(c));
            }
            cur = String::new();
            proof {
                done = before;
            }
        } else {
            let ghost before = done.push(cur@);
            assert(before.drop_last() =~= done);
            cur.push(ch);
        }
        i += 1;
    }
    assert(v@.take(v@.len() as int) =~= s@);
    assert(done.push(cur@).drop_last() =~= done);
    if cur.as_str().is_empty() {
    } else {
        let ghost t = texts(out@);
        let ghost c = cur@;
        out.push(cur);
        assert(texts(out@) =~= t.push(c));
    }
    out
}

// ---------------------------------------------------------------------------
// Numbers

/// The decimal digit `d`.
pub open spec fn digit(d: nat) -> char {
    (48 + d) as char
}

/// The decimal numeral of `n`.
pub open spec fn dec(n: nat) -> Seq<char>
    decreases n,
{
    if n < 10 {
        seq![digit(n)]
    } else {
        dec(n / 10).push(digit(n % 10))
    }
}

/// The decimal numeral of an integer.
pub open spec fn dec_int(n: int) -> Seq<char> {
    if n < 0 {
        seq!['-'] + dec((-n) as nat)
    } else {
        dec(n as nat)
    }
}

/// The decimal numeral of a number.
pub fn u64_text(n: u64) -> (r: String)
    ensures
        r@ == dec(n as nat),
    decreases n,
{
    let d: u8 = (n % 10) as u8;
    let c: char = (48 + d) as char;
    let mut s = if n < 10 {
        String::new()
    } else {
        u64_text(n / 10)
    };
    s.push(c);
    assert(n < 10 ==> s@ =~= seq![digit(n as nat)]);
    s
}

/// The decimal numeral of a size.
pub fn usize_text(n: usize) -> (r: String)
    ensures
        r@ == dec(n as nat),
{
    u64_text(n as u64)
}

/// The decimal numeral of a signed number.
pub fn i64_text(n: i64) -> (r: String)
    ensures
        r@ == dec_int(n as int),
{
    if n < 0 {
        let m: u64 = (-(n + 1)) as u64 + 1;
        let t = u64_text(m);
        let mut s = String::new();
        s.push('-');
        s.append(t.as_str());
        assert(s@ =~= seq!['-'] + t@);
        s
    } else {
        u64_text(n as u64)
    }
}

/// Whether a character is a decimal digit.
pub open spec fn is_digit(c: char) -> bool {
    '0' <= c && c <= '9'
}

/// Whether a text is a non-empty run of decimal digits.
pub open spec fn all_digits(s: Seq<char>) -> bool {
    s.len() > 0 && forall|i: int| 0 <= i < s.len() ==> is_digit(#[trigger] s[i])
}

/// The number that a run of digits denotes.
pub open spec fn digits_value(s: Seq<char>) -> nat
    decreases s.len(),
{
    if s.len() == 0 {
        0
    } else {
        digits_value(s.drop_last()) * 10 + ((s.last() as nat - 48) as nat)
    }
}

/// The number that a numeral with an optional `+` denotes, where it is at most `max`.
pub open spec fn unsigned_value(s: Seq<char>, max: nat) -> Option<nat> {
    let d = if s.len() > 0 && s[0] == '+' {
        s.skip(1)
    } else {
        s
    };
    if all_digits(d) && digits_value(d) <= max {
        Some(digits_value(d))
    } else {
        None
    }
}

/// The number that a numeral with an optional sign denotes, where it lies in range.
pub open spec fn signed_value(s: Seq<char>, min: int, max: int) -> Option<int> {
    if s.len() > 0 && s[0] == '-' {
        let d = s.skip(1);
        if all_digits(d) && -digits_value(d) >= min {
            Some(-digits_value(d))
        } else {
            None
        }
    } else {
        match unsigned_value(s, max as nat) {
            Some(n) => Some(n as int),
            None => None,
        }
    }
}

proof fn lemma_digits_monotone(s: Seq<char>, i: int)
    requires
        0 <= i <= s.len(),
        forall|k: int| 0 <= k < s.len() ==> is_digit(#[trigger] s[k]),
    ensures
        digits_value(s.take(i)) <= digits_value(s),
    decreases s.len() - i,
{
    if i < s.len() {
        assert(s.take(i + 1).drop_last() =~= s.take(i));
        lemma_digits_monotone(s, i + 1);
    } else {
        assert(s.take(i) =~= s);
    }
}

/// The number that the digits from `from` on denote, where it is at most `max`.
pub fn digits_from(v: &Vec<char>, from: usize, max: u64) -> (r: Option<u64>)
    requires
        from <= v.len(),
    ensures
        ({
            let d = v@.skip(from as int);
            match r {
                Some(n) => all_digits(d) && digits_value(d) == n && n <= max,
                None => !all_digits(d) || digits_value(d) > max,
            }
        }),
{
    let ghost d = v@.skip(from as int);
    if from == v.len() {
        return None;
    }
    let mut acc: u64 = 0;
    let mut i: usize = from;
    while i < v.len()
        invariant
            from <= i <= v.len(),
            d == v@.skip(from as int),
            acc <= max,
            acc == digits_value(d.take(i - from)),
            forall|k: int| 0 <= k < i - from ==> is_digit(#[trigger] d[k]),
        decreases v.len() - i,
    {
        let c = v[i];
        assert(d[i - from] == c);
        if !('0' <= c && c <= '9') {
            return None;
        }
        let x: u64 = (c as u32 - 48) as u64;
        assert(d.take(i - from + 1).drop_last() =~= d.take(i - from));
        let next: u128 = acc as u128 * 10 + x as u128;
        assert(next == digits_value(d.take(i - from + 1)));
        if next > max as u128 {
            proof {
                if all_digits(d) {
                    lemma_digits_monotone(d, i - from + 1);
                }
            }
            return None;
        }
        acc = next as u64;
        i += 1;
    }
    assert(d.take(i - from) =~= d);
    Some(acc)
}

/// Parse a decimal numeral of at most `max`, as std's unsigned integers do.
pub fn parse_unsigned(s: &str, max: u64) -> (r: Option<u64>)
    ensures
        match r {
            Some(n) => unsigned_value(s@, max as nat) == Some(n as nat),
            None => unsigned_value(s@, max as nat) is None,
        },
{
    let v = to_chars(s);
    if v.len() > 0 && v[0] == '+' {
        digits_from(&v, 1, max)
    } else {
        assert(v@.skip(0) =~= s@);
        digits_from(&v, 0, max)
    }
}

/// Parse a `u64`.
pub fn parse_u64(s: &str) -> (r: Option<u64>)
    ensures
        match r {
            Some(n) => unsigned_value(s@, u64::MAX as nat) == Some(n as nat),
            None => unsigned_value(s@, u64::MAX as nat) is None,
        },
{
    parse_unsigned(s, u64::MAX)
}

/// Parse a `usize`.
pub fn parse_usize(s: &str) -> (r: Option<usize>)
    ensures
        match r {
            Some(n) => unsigned_value(s@, usize::MAX as nat) == Some(n as nat),
            None => unsigned_value(s@, usize::MAX as nat) is None,
        },
{
    match parse_unsigned(s, usize::MAX as u64) {
        Some(n) => Some(n as usize),
        None => None,
    }
}

/// Parse an `i32`.
pub fn parse_i32(s: &str) -> (r: Option<i32>)
    ensures
        match r {
            Some(n) => signed_value(s@, i32::MIN as int, i32::MAX as int) == Some(n as int),
            None => signed_value(s@, i32::MIN as int, i32::MAX as int) is None,
        },
{
    let v = to_chars(s);
    if v.len() > 0 && v[0] == '-' {
        match digits_from(&v, 1, 2147483648) {
            Some(n) => Some((-(n as i64)) as i32),
            None => None,
        }
    } else {
        match parse_unsigned(s, 2147483647) {
            Some(n) => Some(n as i32),
            None => None,
        }
    }
}

/// How many elements stand before the first `c`; all of them where there is none.
pub open spec fn first_at<A>(s: Seq<A>, c: A) -> nat
    decreases s.len(),
{
    if s.len() == 0 || s[0] == c {
        0
    } else {
        1 + first_at(s.skip(1), c)
    }
}

/// What stands before and after the first `c`.
pub open spec fn cut<A>(s: Seq<A>, c: A) -> Option<(Seq<A>, Seq<A>)> {
    let i = first_at(s, c) as int;
    if i < s.len() {
        Some((s.take(i), s.skip(i + 1)))
    } else {
        None
    }
}

/// The first `c` is where nothing before is one.
pub proof fn lemma_first_at<A>(s: Seq<A>, c: A, i: int)
    requires
        0 <= i <= s.len(),
        forall|k: int| 0 <= k < i ==> s[k] != c,
        i < s.len() ==> s[i] == c,
    ensures
        first_at(s, c) == i,
    decreases s.len(),
{
    if i > 0 {
        assert(s.skip(1).len() == s.len() - 1);
        assert forall|k: int| 0 <= k < i - 1 implies s.skip(1)[k] != c by {
            assert(s.skip(1)[k] == s[k + 1]);
        }
        lemma_first_at(s.skip(1), c, i - 1);
    }
}

/// What stands before and after the first `c`.
pub fn split_once(s: &str, c: char) -> (r: Option<(String, String)>)
    ensures
        match r {
            Some((a, b)) => cut(s@, c) == Some((a@, b@)),
            None => cut(s@, c) is None,
        },
{
    let v = to_chars(s);
    let mut i: usize = 0;
    while i < v.len()
        invariant
            i <= v.len(),
            v@ == s@,
            forall|k: int| 0 <= k < i ==> s@[k] != c,
        decreases v.len() - i,
    {
        if v[i] == c {
            proof {
                lemma_first_at(s@, c, i as int);
            }
            let a = sub_text(&v, 0, i);
            let b = sub_text(&v, i + 1, v.len());
            assert(a@ =~= s@.take(i as int));
            assert(b@ =~= s@.skip(i + 1));
            return Some((a, b));
        }
        i += 1;
    }
    proof {
        lemma_first_at(s@, c, i as int);
    }
    None
}

/// Texts one behind the other, one for each element of a list.
pub open spec fn concat<A>(s: Seq<A>, f: spec_fn(A) -> Seq<char>) -> Seq<char>
    decreases s.len(),
{
    if s.len() == 0 {
        Seq::empty()
    } else {
        concat(s.drop_last(), f) + f(s.last())
    }
}

/// A run of spaces.
pub open spec fn spaces(n: int) -> Seq<char> {
    Seq::new(
        if n > 0 {
            n as nat
        } else {
            0
        },
        |i: int| ' ',
    )
}

/// A text behind as many spaces as make it `n` characters long.
pub open spec fn pad_left(s: Seq<char>, n: int) -> Seq<char> {
    spaces(n - s.len()) + s
}

/// A text with as many spaces behind it as make it `n` characters long.
pub open spec fn pad_right(s: Seq<char>, n: int) -> Seq<char> {
    s + spaces(n - s.len())
}

fn blanks(len: usize, n: usize) -> (r: String)
    ensures
        r@ == spaces(n - len),
{
    let mut out = String::new();
    let mut i: usize = len;
    assert(out@ =~= spaces(0));
    while i < n
        invariant
            out@ == spaces(i - len),
            len <= i,
            len <= n ==> i <= n,
            len > n ==> i == len,
        decreases n - i,
    {
        out.push(' ');
        assert(out@ =~= spaces(i + 1 - len));
        i += 1;
    }
    assert(out@ =~= spaces(n - len));
    out
}

/// A text behind as many spaces as make it `n` characters long.
pub fn pad_start(s: &str, n: usize) -> (r: String)
    ensures
        r@ == pad_left(s@, n as int),
{
    let v = to_chars(s);
    let b = blanks(v.len(), n);
    cat2(b.as_str(), s)
}

/// A text with as many spaces behind it as make it `n` characters long.
pub fn pad_end(s: &str, n: usize) -> (r: String)
    ensures
        r@ == pad_right(s@, n as int),
{
    let v = to_chars(s);
    let b = blanks(v.len(), n);
    cat2(s, b.as_str())
}

/// A text without one carriage return at its end.
pub open spec fn without_cr(s: Seq<char>) -> Seq<char> {
    if s.len() > 0 && s.last() == '\r' {
        s.drop_last()
    } else {
        s
    }
}

/// The lines among the pieces between line feeds: all but the last end in a line feed,
/// and the last is a line where it is not empty.
pub open spec fn lines_among(p: Seq<Seq<char>>) -> Seq<Seq<char>> {
    let ended = Seq::new((p.len() - 1) as nat, |i: int| without_cr(p[i]));
    if p.last().len() == 0 {
        ended
    } else {
        ended.push(p.last())
    }
}

/// The lines of a text, without their ends.
pub open spec fn lines(s: Seq<char>) -> Seq<Seq<char>> {
    lines_among(split(s, '\n'))
}

fn drop_cr(s: &str) -> (r: String)
    ensures
        r@ == without_cr(s@),
{
    let v = to_chars(s);
    let n: usize = v.len();
    if n > 0 && v[n - 1] == '\r' {
        let r = sub_text(&v, 0, n - 1);
        assert(r@ =~= s@.drop_last());
        r
    } else {
        copy_text(s)
    }
}

/// The lines of a text, without their ends.
pub fn split_lines(s: &str) -> (r: Vec<String>)
    ensures
        texts(r@) == lines(s@),
{
    let p = split_char(s, '\n');
    let ghost pv = texts(p@);
    proof {
        lemma_split_nonempty(s@, '\n');
    }
    let ghost ended = Seq::new((pv.len() - 1) as nat, |i: int| without_cr(pv[i]));
    let mut out: Vec<String> = Vec::new();
    let mut i: usize = 0;
    assert(texts(out@) =~= ended.take(0));
    while i + 1 < p.len()
        invariant
            i + 1 <= p.len(),
            pv == texts(p@),
            ended == Seq::new((pv.len() - 1) as nat, |k: int| without_cr(pv[k])),
            texts(out@) == ended.take(i as int),
        decreases p.len() - i,
    {
        let ghost before = texts(out@);
        assert(pv[i as int] == p@[i as int]@);
        out.push(drop_cr(p[i].as_str()));
        assert(texts(out@) =~= before.push(ended[i as int]));
        assert(texts(out@) =~= ended.take(i + 1));
        i += 1;
    }
    assert(ended.take(ended.len() as int) =~= ended);
    assert(pv.last() == p@[i as int]@);
    if !p[i].as_str().is_empty() {
        let ghost before = texts(out@);
        out.push(p[i].clone());
        assert(texts(out@) =~= before.push(pv.last()));
    }
    out
}

/// A list with each text once, where it first stands.
pub open spec fn unique(s: Seq<Seq<char>>) -> Seq<Seq<char>>
    decreases s.len(),
{
    if s.len() == 0 {
        s
    } else if s.drop_last().contains(s.last()) {
        unique(s.drop_last())
    } else {
        unique(s.drop_last()).push(s.last())
    }
}

/// Whether a list of strings holds a text.
pub fn contains_string(v: &Vec<String>, t: &str) -> (r: bool)
    ensures
        r == texts(v@).contains(t@),
{
    let mut i: usize = 0;
    while i < v.len()
        invariant
            i <= v.len(),
            forall|k: int| 0 <= k < i ==> (#[trigger] texts(v@)[k]) != t@,
        decreases v.len() - i,
    {
        assert(texts(v@)[i as int] == v@[i as int]@);
        if same_text(v[i].as_str(), t) {
            return true;
        }
        i += 1;
    }
    false
}

/// The texts of a list are those of the list with each text once.
pub proof fn lemma_unique_contains(s: Seq<Seq<char>>, t: Seq<char>)
    ensures
        unique(s).contains(t) <==> s.contains(t),
    decreases s.len(),
{
    if s.len() > 0 {
        let d = s.drop_last();
        lemma_unique_contains(d, t);
        assert(s =~= d.push(s.last()));
        if s.contains(t) {
            let k = choose|k: int| 0 <= k < s.len() && s[k] == t;
            if k < d.len() {
                assert(d[k] == t);
            } else {
                assert(unique(s).contains(t)) by {
                    lemma_unique_contains(d, s.last());
                    if !d.contains(s.last()) {
                        assert(unique(s)[unique(s).len() - 1] == t);
                    }
                }
            }
        }
        if d.contains(t) {
            let k = choose|k: int| 0 <= k < d.len() && d[k] == t;
            assert(s[k] == t);
            let m = choose|m: int| 0 <= m < unique(d).len() && unique(d)[m] == t;
            assert(unique(s)[m] == t);
        }
        if unique(s).contains(t) {
            let m = choose|m: int| 0 <= m < unique(s).len() && unique(s)[m] == t;
            if m < unique(d).len() {
                assert(unique(d)[m] == t);
            } else {
                assert(s[s.len() - 1] == t);
            }
        }
    }
}

/// A list with each text once, where it first stands.
pub fn unique_texts(v: Vec<String>) -> (r: Vec<String>)
    ensures
        texts(r@) == unique(texts(v@)),
{
    let ghost all = texts(v@);
    let mut out: Vec<String> = Vec::new();
    let mut i: usize = 0;
    assert(texts(out@) =~= unique(all.take(0)));
    while i < v.len()
        invariant
            i <= v.len(),
            all == texts(v@),
            texts(out@) == unique(all.take(i as int)),
        decreases v.len() - i,
    {
        let ghost before = texts(out@);
        assert(all.take(i + 1).drop_last() =~= all.take(i as int));
        assert(all.take(i + 1).last() == v@[i as int]@);
        proof {
            lemma_unique_contains(all.take(i as int), v@[i as int]@);
        }
        if !contains_string(&out, v[i].as_str()) {
            out.push(v[i].clone());
            assert(texts(out@) =~= before.push(v@[i as int]@));
        }
        i += 1;
    }
    assert(all.take(all.len() as int) =~= all);
    out
}

/// The bytes of a text.
pub fn to_bytes(s: &str) -> (r: Vec<u8>)
    ensures
        r@ == vstd::utf8::encode_utf8(s@),
{
    let b = s.as_bytes();
    let mut out: Vec<u8> = Vec::new();
    let mut i: usize = 0;
    while i < b.len()
        invariant
            i <= b.len(),
            out@ == b@.take(i as int),
        decreases b.len() - i,
    {
        out.push(b[i]);
        assert(out@ =~= b@.take(i + 1));
        i += 1;
    }
    assert(b@.take(b@.len() as int) =~= b@);
    out
}

// ---------------------------------------------------------------------------
// Numerals and padding

/// A numeral is made of digits, begins with no zero but in zero itself, and denotes its number.
pub proof fn law_numeral(n: nat)
    ensures
        digits_value(dec(n)) == n,
        dec(n).len() > 0,
        forall|i: int| 0 <= i < dec(n).len() ==> '0' <= #[trigger] dec(n)[i] <= '9',
        n > 0 ==> dec(n)[0] != '0',
    decreases n,
{
    if n < 10 {
        assert(seq![digit(n)].drop_last() =~= Seq::empty());
        assert(digits_value(Seq::empty()) == 0);
    } else {
        law_numeral(n / 10);
        let front = dec(n / 10);
        assert(front.push(digit(n % 10)).drop_last() =~= front);
    }
}

/// A text that is padded is as long as was asked for, or longer where it is longer itself, and
/// begins or ends with the text; the rest is spaces.
pub proof fn law_padding(s: Seq<char>, n: int, i: int)
    requires
        n >= 0,
    ensures
        pad_right(s, n).len() == if s.len() > n {
            s.len() as int
        } else {
            n
        },
        pad_left(s, n).len() == pad_right(s, n).len(),
        pad_right(s, n).take(s.len() as int) == s,
        s.len() <= i < pad_right(s, n).len() ==> pad_right(s, n)[i] == ' ',
        pad_left(s, n).skip(pad_left(s, n).len() - s.len()) == s,
        0 <= i < pad_left(s, n).len() - s.len() ==> pad_left(s, n)[i] == ' ',
{
    assert(pad_right(s, n).take(s.len() as int) =~= s);
    assert(pad_left(s, n).skip(pad_left(s, n).len() - s.len()) =~= s);
}

/// A text occurs in itself.
pub proof fn lemma_occurs_itself(p: Seq<char>)
    ensures
        occurs(p, p),
{
    assert(p.subrange(0, 0 + p.len() as int) =~= p);
    assert(occurs_at(p, p, 0));
}

/// What occurs in one of two texts occurs in both, written one behind the other.
pub broadcast proof fn lemma_occurs_either(a: Seq<char>, b: Seq<char>, p: Seq<char>)
    requires
        occurs(a, p) || occurs(b, p),
    ensures
        #[trigger] occurs(a + b, p),
{
    if occurs(a, p) {
        let i = choose|i: int| #[trigger] occurs_at(a, p, i);
        assert((a + b).subrange(i, i + p.len()) =~= a.subrange(i, i + p.len()));
        assert(occurs_at(a + b, p, i));
    } else {
        let i = choose|i: int| #[trigger] occurs_at(b, p, i);
        let j = a.len() + i;
        assert((a + b).subrange(j, j + p.len()) =~= b.subrange(i, i + p.len()));
        assert(occurs_at(a + b, p, j));
    }
}

/// What occurs in the text of one item occurs in the text of all.
pub proof fn lemma_occurs_concat<A>(s: Seq<A>, f: spec_fn(A) -> Seq<char>, i: int, p: Seq<char>)
    requires
        0 <= i < s.len(),
        occurs(f(s[i]), p),
    ensures
        occurs(concat(s, f), p),
    decreases s.len(),
{
    if i < s.len() - 1 {
        lemma_occurs_concat(s.drop_last(), f, i, p);
    }
    lemma_occurs_either(concat(s.drop_last(), f), f(s.last()), p);
}

/// Letters are folded to the small ones of the alphabet; everything else stays as it is.
pub proof fn law_ascii_lower(s: Seq<char>, i: int)
    requires
        0 <= i < s.len(),
    ensures
        ascii_lower(s).len() == s.len(),
        'A' <= s[i] <= 'Z' ==> ascii_lower(s)[i] as int == s[i] as int + 32,
        !('A' <= s[i] <= 'Z') ==> ascii_lower(s)[i] == s[i],
        ascii_lower(ascii_lower(s)) == ascii_lower(s),
{
    let t = ascii_lower(s);
    assert forall|k: int| 0 <= k < s.len() implies lower1(t[k]) == t[k] by {
        let c: char = s[k];
        if 'A' <= c && c <= 'Z' {
            assert(t[k] as u32 == c as u32 + 32);
        }
    }
    assert(ascii_lower(t) =~= t);
}

proof fn lemma_trim_start(w: Seq<char>, s: Seq<char>)
    requires
        forall|i: int| 0 <= i < w.len() ==> is_white(#[trigger] w[i]),
        s.len() > 0 ==> !is_white(s[0]),
    ensures
        trim_start(w + s) == s,
    decreases w.len(),
{
    if w.len() > 0 {
        assert(is_white(w[0]));
        assert((w + s)[0] == w[0]);
        assert((w + s).skip(1) =~= w.skip(1) + s);
        assert forall|i: int| 0 <= i < w.skip(1).len() implies is_white(#[trigger] w.skip(1)[i]) by {
            assert(is_white(w[i + 1]));
        }
        lemma_trim_start(w.skip(1), s);
    } else {
        assert(w + s =~= s);
    }
}

proof fn lemma_trim_end(s: Seq<char>, w: Seq<char>)
    requires
        forall|i: int| 0 <= i < w.len() ==> is_white(#[trigger] w[i]),
        s.len() > 0 ==> !is_white(s.last()),
    ensures
        trim_end(s + w) == s,
    decreases w.len(),
{
    if w.len() > 0 {
        assert(is_white(w[w.len() - 1]));
        assert((s + w).last() == w.last());
        assert((s + w).drop_last() =~= s + w.drop_last());
        assert forall|i: int| 0 <= i < w.drop_last().len() implies is_white(#[trigger] w.drop_last()[i]) by {
            assert(is_white(w[i]));
        }
        lemma_trim_end(s, w.drop_last());
    } else {
        assert(s + w =~= s);
    }
}

/// The spaces around a text are trimmed, and nothing of what stands between them.
pub proof fn law_trimmed(a: Seq<char>, s: Seq<char>, b: Seq<char>)
    requires
        forall|i: int| 0 <= i < a.len() ==> is_white(#[trigger] a[i]),
        forall|i: int| 0 <= i < b.len() ==> is_white(#[trigger] b[i]),
        s.len() > 0,
        !is_white(s[0]),
        !is_white(s.last()),
    ensures
        trimmed(a + s + b) == s,
        trimmed(a).len() == 0,
{
    assert(a + s + b =~= a + (s + b));
    lemma_trim_start(a, s + b);
    lemma_trim_end(s, b);
    lemma_trim_start(a, Seq::empty());
    assert(a + Seq::<char>::empty() =~= a);
}

/// Parts that are joined come apart again at what joins them.
pub proof fn law_join_split(p: Seq<Seq<char>>, c: char)
    requires
        p.len() > 0,
        forall|i: int| 0 <= i < p.len() ==> !(#[trigger] p[i]).contains(c),
    ensures
        split(join(p, seq![c]), c) == p,
    decreases p.len(),
{
    if p.len() == 1 {
        assert(!p[0].contains(c));
        lemma_split_single(p[0], c);
        assert(p =~= seq![p[0]]);
    } else {
        let d = p.drop_last();
        assert forall|i: int| 0 <= i < d.len() implies !(#[trigger] d[i]).contains(c) by {
            assert(d[i] == p[i]);
        }
        law_join_split(d, c);
        assert(!p[p.len() - 1].contains(c));
        lemma_split_single(p.last(), c);
        lemma_split_concat(join(d, seq![c]), c, p.last());
        assert(join(d, seq![c]) + seq![c] + p.last() =~= join(d, seq![c]).push(c) + p.last());
        assert(p =~= d + seq![p.last()]);
    }
}

proof fn lemma_white_pieces(s: Seq<char>)
    ensures
        white_pieces(s).len() >= 1,
        (forall|i: int| 0 <= i < s.len() ==> !is_white(#[trigger] s[i])) ==> white_pieces(s) == seq![s],
    decreases s.len(),
{
    if s.len() > 0 {
        lemma_white_pieces(s.drop_last());
        if forall|i: int| 0 <= i < s.len() ==> !is_white(#[trigger] s[i]) {
            assert forall|i: int| 0 <= i < s.drop_last().len() implies !is_white(#[trigger] s.drop_last()[i]) by {
                assert(s.drop_last()[i] == s[i]);
            }
            assert(!is_white(s[s.len() - 1]));
            assert(s.drop_last().push(s.last()) =~= s);
            assert(white_pieces(s) =~= seq![s]);
        }
    } else {
        assert(s =~= Seq::empty());
    }
}

proof fn lemma_white_concat(a: Seq<char>, w: char, b: Seq<char>)
    requires
        is_white(w),
    ensures
        white_pieces(a.push(w) + b) == white_pieces(a) + white_pieces(b),
    decreases b.len(),
{
    lemma_white_pieces(a);
    lemma_white_pieces(b);
    if b.len() == 0 {
        assert(a.push(w) + b =~= a.push(w));
        assert(a.push(w).drop_last() =~= a);
        assert(white_pieces(a).push(Seq::empty()) =~= white_pieces(a) + white_pieces(b));
    } else {
        let d = b.drop_last();
        lemma_white_concat(a, w, d);
        lemma_white_pieces(d);
        let s = a.push(w) + b;
        assert(s.drop_last() =~= a.push(w) + d);
        assert(s.last() == b.last());
        assert(white_pieces(s) =~= white_pieces(a) + white_pieces(b));
    }
}

proof fn lemma_nonempty_add(p: Seq<Seq<char>>, q: Seq<Seq<char>>)
    ensures
        nonempty(p + q) == nonempty(p) + nonempty(q),
    decreases q.len(),
{
    if q.len() == 0 {
        assert(p + q =~= p);
        assert(nonempty(p) + nonempty(q) =~= nonempty(p));
    } else {
        lemma_nonempty_add(p, q.drop_last());
        assert((p + q).drop_last() =~= p + q.drop_last());
        assert((p + q).last() == q.last());
        assert(nonempty(p + q) =~= nonempty(p) + nonempty(q));
    }
}

/// A text falls into words at its spaces: a word is one, and what stands before a space and what
/// stands behind it fall into words by themselves.
pub proof fn law_words(a: Seq<char>, w: char, b: Seq<char>)
    ensures
        is_white(w) ==> words(a.push(w) + b) == words(a) + words(b),
        a.len() > 0 && (forall|i: int| 0 <= i < a.len() ==> !is_white(#[trigger] a[i])) ==> words(a) == seq![a],
        words(Seq::empty()).len() == 0,
{
    if is_white(w) {
        lemma_white_concat(a, w, b);
        lemma_nonempty_add(white_pieces(a), white_pieces(b));
    }
    lemma_white_pieces(a);
    assert(seq![a].drop_last() =~= Seq::empty());
    assert(nonempty(seq![a].drop_last()) =~= Seq::empty());
    assert(a.len() > 0 ==> nonempty(seq![a]) =~= seq![a]);
    let e = seq![Seq::<char>::empty()];
    assert(e.drop_last() =~= Seq::empty());
    assert(white_pieces(Seq::empty()) =~= e);
    assert(nonempty(e) =~= Seq::empty());
}

/// A text falls into lines at its line feeds; what stands before one is a line, without the
/// carriage return at its end, and the end of the last line opens no other.
pub proof fn law_lines(a: Seq<char>, b: Seq<char>)
    requires
        !a.contains('\n'),
    ensures
        lines(a.push('\n') + b) == seq![without_cr(a)] + lines(b),
        a.len() > 0 ==> lines(a) == seq![a],
        lines(Seq::empty()).len() == 0,
{
    lemma_split_single(a, '\n');
    lemma_split_concat(a, '\n', b);
    lemma_split_nonempty(b, '\n');
    let p = split(b, '\n');
    assert(split(a.push('\n') + b, '\n') =~= seq![a] + p);
    assert(lines_among(seq![a] + p) =~= seq![without_cr(a)] + lines_among(p));
    if a.len() > 0 {
        assert(lines_among(seq![a]) =~= seq![a]);
    }
    assert(split(Seq::<char>::empty(), '\n') =~= seq![Seq::<char>::empty()]);
    assert(lines(Seq::empty()) =~= Seq::empty());
}

/// A number that was written is read as itself, as far as it fits; below zero too.
pub proof fn law_number_read(n: nat, max: nat, min: int)
    ensures
        n <= max ==> unsigned_value(dec(n), max) == Some(n),
        n > max ==> unsigned_value(dec(n), max) is None,
        -n >= min ==> signed_value(seq!['-'] + dec(n), min, max as int) == Some(-(n as int)),
        n <= max ==> signed_value(dec(n), min, max as int) == Some(n as int),
{
    law_numeral(n);
    let d = dec(n);
    assert('0' <= d[0] <= '9');
    assert(all_digits(d));
    assert((seq!['-'] + d).skip(1) =~= d);
}

/// Each text of a list is kept once.
pub proof fn law_unique(s: Seq<Seq<char>>, t: Seq<char>)
    ensures
        unique(s).contains(t) <==> s.contains(t),
        unique(s).no_duplicates(),
        s.no_duplicates() ==> unique(s) == s,
    decreases s.len(),
{
    lemma_unique_contains(s, t);
    if s.len() > 0 {
        let d = s.drop_last();
        law_unique(d, s.last());
        if s.no_duplicates() {
            if d.contains(s.last()) {
                let k = choose|k: int| 0 <= k < d.len() && d[k] == s.last();
                assert(s[k] == s[s.len() - 1]);
            }
            assert(d.no_duplicates());
            assert(s =~= d.push(s.last()));
        }
    }
}

} // verus!
