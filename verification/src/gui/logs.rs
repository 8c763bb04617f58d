//! Log lines: ANSI colours, token colouring and search highlights.
use crate::rx::{
    byte_len, byte_slice, find_all, find_at, group_at, lemma_slices_join, lemma_whole_slice, range_in, ranges_in,
    regex_find_at, regex_group_at, regex_ok, regex_source, regex_spans, slice_bytes,
};
use crate::text::{
    ascii_lower, ascii_lowercase, copy_text, parse_i32, same_text, signed_value, split, split_char, split_words,
    sub_text, texts, to_chars, words,
};
use vstd::prelude::*;
use vstd::string::*;
use vstd::utf8::*;

verus! {

/// A colour with its opacity.
#[derive(Clone, Copy, Debug, PartialEq, Eq, Structural)]
pub struct Color {
    pub r: u8,
    pub g: u8,
    pub b: u8,
    pub a: u8,
}

/// An opaque colour.
pub open spec fn rgb_of(r: u8, g: u8, b: u8) -> Color {
    Color { r, g, b, a: 255 }
}

/// An opaque colour.
pub fn rgb(r: u8, g: u8, b: u8) -> (c: Color)
    ensures
        c == rgb_of(r, g, b),
{
    Color { r, g, b, a: 255 }
}

/// A run of text in one colour, underlined where the search expression matched.
#[derive(Debug)]
pub struct Span {
    pub text: String,
    pub color: Color,
    pub underline: bool,
}

/// The model of a `Span`.
pub struct SpanView {
    pub text: Seq<char>,
    pub color: Color,
    pub underline: bool,
}

impl View for Span {
    type V = SpanView;

    open spec fn view(&self) -> SpanView {
        SpanView { text: self.text@, color: self.color, underline: self.underline }
    }
}

/// The models of a list of runs.
pub open spec fn span_views(v: Seq<Span>) -> Seq<SpanView> {
    v.map_values(|s: Span| s@)
}

/// A run that is not underlined.
pub open spec fn plain(text: Seq<char>, color: Color) -> SpanView {
    SpanView { text, color, underline: false }
}

/// The words, time stamps and numbers that a log line is coloured by.
pub const TOKEN_PATTERN: &'static str =
    r"(?P<level>(?i)\b(error|warn|warning|info|debug|trace)\b)|(?P<ts>\b\d{4}-\d{2}-\d{2}T\d{2}:\d{2}:\d{2}(?:\.\d+)?(?:Z|[+-]\d{2}:\d{2})\b)|(?P<num>\b\d+(?:\.\d+)?\b)";

/// The compiled token expression.
pub struct LogStyler {
    tokens: regex::Regex,
}

impl LogStyler {
    /// Whether the expression is that of the token pattern.
    #[verifier::type_invariant]
    spec fn is_token_expression(self) -> bool {
        regex_source(self.tokens) == TOKEN_PATTERN@
    }

    /// Compile the token expression.
    pub fn new() -> (r: Option<LogStyler>)
        ensures
            r is Some <==> regex_ok(TOKEN_PATTERN@),
    {
        match crate::rx::compile(TOKEN_PATTERN) {
            Some(tokens) => Some(LogStyler { tokens }),
            None => None,
        }
    }
}

/// The colour that follows a colour under one escape code.
pub open spec fn sgr_color(code: int, cur: Color, default: Color) -> Color {
    if code == 0 || code == 39 {
        default
    } else if code == 30 {
        rgb_of(0x00, 0x00, 0x00)
    } else if code == 31 {
        rgb_of(0xCC, 0x00, 0x00)
    } else if code == 32 {
        rgb_of(0x00, 0x99, 0x00)
    } else if code == 33 {
        rgb_of(0xCC, 0xAA, 0x00)
    } else if code == 34 {
        rgb_of(0x00, 0x00, 0xCC)
    } else if code == 35 {
        rgb_of(0xAA, 0x00, 0xAA)
    } else if code == 36 {
        rgb_of(0x00, 0xAA, 0xAA)
    } else if code == 37 {
        rgb_of(0xCC, 0xCC, 0xCC)
    } else if code == 90 {
        rgb_of(0x55, 0x55, 0x55)
    } else if code == 91 {
        rgb_of(0xFF, 0x55, 0x55)
    } else if code == 92 {
        rgb_of(0x55, 0xFF, 0x55)
    } else if code == 93 {
        rgb_of(0xFF, 0xFF, 0x55)
    } else if code == 94 {
        rgb_of(0x55, 0x55, 0xFF)
    } else if code == 95 {
        rgb_of(0xFF, 0x55, 0xFF)
    } else if code == 96 {
        rgb_of(0x55, 0xFF, 0xFF)
    } else if code == 97 {
        rgb_of(0xFF, 0xFF, 0xFF)
    } else {
        cur
    }
}

fn sgr_code(code: i32, cur: Color, default: Color) -> (r: Color)
    ensures
        r == sgr_color(code as int, cur, default),
{
    if code == 0 || code == 39 {
        default
    } else if code == 30 {
        rgb(0x00, 0x00, 0x00)
    } else if code == 31 {
        rgb(0xCC, 0x00, 0x00)
    } else if code == 32 {
        rgb(0x00, 0x99, 0x00)
    } else if code == 33 {
        rgb(0xCC, 0xAA, 0x00)
    } else if code == 34 {
        rgb(0x00, 0x00, 0xCC)
    } else if code == 35 {
        rgb(0xAA, 0x00, 0xAA)
    } else if code == 36 {
        rgb(0x00, 0xAA, 0xAA)
    } else if code == 37 {
        rgb(0xCC, 0xCC, 0xCC)
    } else if code == 90 {
        rgb(0x55, 0x55, 0x55)
    } else if code == 91 {
        rgb(0xFF, 0x55, 0x55)
    } else if code == 92 {
        rgb(0x55, 0xFF, 0x55)
    } else if code == 93 {
        rgb(0xFF, 0xFF, 0x55)
    } else if code == 94 {
        rgb(0x55, 0x55, 0xFF)
    } else if code == 95 {
        rgb(0xFF, 0x55, 0xFF)
    } else if code == 96 {
        rgb(0x55, 0xFF, 0xFF)
    } else if code == 97 {
        rgb(0xFF, 0xFF, 0xFF)
    } else {
        cur
    }
}

/// The colour that follows a colour under a list of escape codes; a part that is no
/// number changes nothing.
pub open spec fn sgr_fold(parts: Seq<Seq<char>>, cur: Color, default: Color) -> Color
    decreases parts.len(),
{
    if parts.len() == 0 {
        cur
    } else {
        let before = sgr_fold(parts.drop_last(), cur, default);
        match signed_value(parts.last(), i32::MIN as int, i32::MAX as int) {
            Some(code) => sgr_color(code, before, default),
            None => before,
        }
    }
}

/// Apply the codes of one escape sequence to a colour.
pub fn apply_sgr(seq: &str, cur: Color, default: Color) -> (r: Color)
    ensures
        r == sgr_fold(split(seq@, ';'), cur, default),
{
    let parts = split_char(seq, ';');
    let ghost ps = texts(parts@);
    let mut color = cur;
    let mut i: usize = 0;
    while i < parts.len()
        invariant
            i <= parts.len(),
            ps == texts(parts@),
            color == sgr_fold(ps.take(i as int), cur, default),
        decreases parts.len() - i,
    {
        assert(ps.take(i + 1).drop_last() =~= ps.take(i as int));
        if let Some(code) = parse_i32(parts[i].as_str()) {
            color = sgr_code(code, color, default);
        }
        i += 1;
    }
    assert(ps.take(ps.len() as int) =~= ps);
    color
}

/// The runs of a text up to the matches `ranges` of the search expression, and where
/// the last of them ends.
pub open spec fn marked_upto(text: Seq<char>, color: Color, ranges: Seq<(usize, usize)>) -> (Seq<SpanView>, int)
    decreases ranges.len(),
{
    if ranges.len() == 0 {
        (Seq::empty(), 0)
    } else {
        let (out, last) = marked_upto(text, color, ranges.drop_last());
        let (s, e) = ranges.last();
        if s == e {
            (out, last)
        } else {
            let gap = if s > last {
                out.push(plain(byte_slice(text, last, s as int), color))
            } else {
                out
            };
            (
                gap.push(
                    SpanView { text: byte_slice(text, s as int, e as int), color, underline: true },
                ),
                e as int,
            )
        }
    }
}

/// The runs of a text with the matches `ranges` of the search expression underlined.
pub open spec fn marked(text: Seq<char>, color: Color, ranges: Seq<(usize, usize)>) -> Seq<SpanView> {
    let (out, last) = marked_upto(text, color, ranges);
    let n = encode_utf8(text).len() as int;
    if last < n {
        out.push(plain(byte_slice(text, last, n), color))
    } else {
        out
    }
}

/// The runs of a text in one colour, with the matches of an optional search expression
/// underlined.
pub open spec fn piece_spans(text: Seq<char>, color: Color, search: Option<Seq<char>>) -> Seq<SpanView> {
    match search {
        Some(p) => marked(text, color, regex_spans(p, text)),
        None => seq![plain(text, color)],
    }
}

/// The pattern of an optional expression.
pub open spec fn source_of(re: Option<&regex::Regex>) -> Option<Seq<char>> {
    match re {
        Some(r) => Some(regex_source(*r)),
        None => None,
    }
}

/// The text of some runs, one behind the other.
pub open spec fn spoken(v: Seq<SpanView>) -> Seq<char>
    decreases v.len(),
{
    if v.len() == 0 {
        Seq::empty()
    } else {
        spoken(v.drop_last()) + v.last().text
    }
}

proof fn lemma_spoken_push(v: Seq<SpanView>, x: SpanView)
    ensures
        spoken(v.push(x)) == spoken(v) + x.text,
{
    assert(v.push(x).drop_last() =~= v);
}

fn push_span(out: &mut Vec<Span>, text: &str, color: Color, underline: bool)
    ensures
        span_views(final(out)@) == span_views(old(out)@).push(SpanView { text: text@, color, underline }),
        spoken(span_views(final(out)@)) == spoken(span_views(old(out)@)) + text@,
{
    let ghost before = span_views(out@);
    out.push(Span { text: copy_text(text), color, underline });
    assert(span_views(out@) =~= before.push(SpanView { text: text@, color, underline }));
    proof {
        lemma_spoken_push(before, SpanView { text: text@, color, underline });
    }
}

proof fn lemma_whole_range(text: Seq<char>)
    ensures
        range_in(text, 0, 0),
        range_in(text, encode_utf8(text).len() as int, encode_utf8(text).len() as int),
{
    encode_utf8_valid_utf8(text);
    is_char_boundary_start_end_of_seq(encode_utf8(text));
}

proof fn lemma_assoc(a: Seq<char>, b: Seq<char>, c: Seq<char>)
    ensures
        (a + b) + c == a + (b + c),
        a + Seq::<char>::empty() == a,
{
    assert((a + b) + c =~= a + (b + c));
    assert(a + Seq::<char>::empty() =~= a);
}

fn append_with_highlight(out: &mut Vec<Span>, text: &str, color: Color, re: &regex::Regex)
    ensures
        span_views(final(out)@) == span_views(old(out)@) + marked(
            text@,
            color,
            regex_spans(regex_source(*re), text@),
        ),
        spoken(span_views(final(out)@)) == spoken(span_views(old(out)@)) + text@,
{
    let ranges = find_all(re, text);
    let ghost start = span_views(out@);
    let ghost n = encode_utf8(text@).len() as int;
    let mut last: usize = 0;
    let mut i: usize = 0;
    proof {
        lemma_whole_range(text@);
        lemma_whole_slice(text@);
        assert(start + marked_upto(text@, color, ranges@.take(0)).0 =~= start);
        assert(spoken(start) + byte_slice(text@, 0, 0) =~= spoken(start));
    }
    while i < ranges.len()
        invariant
            i <= ranges.len(),
            ranges_in(text@, ranges@),
            range_in(text@, last as int, last as int),
            i < ranges.len() ==> last <= ranges@[i as int].0,
            last == marked_upto(text@, color, ranges@.take(i as int)).1,
            span_views(out@) == start + marked_upto(text@, color, ranges@.take(i as int)).0,
            spoken(span_views(out@)) == spoken(start) + byte_slice(text@, 0, last as int),
        decreases ranges.len() - i,
    {
        assert(ranges@.take(i + 1).drop_last() =~= ranges@.take(i as int));
        let (s, e) = ranges[i];
        assert(range_in(text@, s as int, e as int));
        assert(i + 1 < ranges.len() ==> ranges@[i as int].1 <= ranges@[i + 1].0);
        let ghost before = marked_upto(text@, color, ranges@.take(i as int)).0;
        if s != e {
            proof {
                lemma_slices_join(text@, last as int, s as int);
                lemma_slices_join(text@, s as int, e as int);
                lemma_assoc(spoken(start), byte_slice(text@, 0, last as int), byte_slice(text@, last as int, s as int));
                lemma_assoc(spoken(start), byte_slice(text@, 0, s as int), byte_slice(text@, s as int, e as int));
            }
            if s > last {
                push_span(out, slice_bytes(text, last, s), color, false);
            }
            push_span(out, slice_bytes(text, s, e), color, true);
            last = e;
        }
        assert(span_views(out@) =~= start + marked_upto(text@, color, ranges@.take(i + 1)).0);
        i += 1;
    }
    assert(ranges@.take(ranges@.len() as int) =~= ranges@);
    let len: usize = byte_len(text);
    proof {
        lemma_slices_join(text@, last as int, len as int);
        lemma_assoc(spoken(start), byte_slice(text@, 0, last as int), byte_slice(text@, last as int, len as int));
    }
    if last < len {
        push_span(out, slice_bytes(text, last, len), color, false);
    }
    assert(span_views(out@) =~= start + marked(text@, color, ranges@));
}

/// The colour of a level word.
pub open spec fn level_color(word: Seq<char>, base: Color) -> Color {
    if word == "error"@ {
        rgb_of(0xE0, 0x40, 0x40)
    } else if word == "warn"@ || word == "warning"@ {
        rgb_of(0xE0, 0xB0, 0x40)
    } else if word == "info"@ {
        rgb_of(0x40, 0xA0, 0x40)
    } else if word == "debug"@ {
        rgb_of(0x50, 0x80, 0xD0)
    } else if word == "trace"@ {
        rgb_of(180, 180, 180)
    } else {
        base
    }
}

fn level_color_of(word: &str, base: Color) -> (r: Color)
    ensures
        r == level_color(word@, base),
{
    if same_text(word, "error") {
        rgb(0xE0, 0x40, 0x40)
    } else if same_text(word, "warn") || same_text(word, "warning") {
        rgb(0xE0, 0xB0, 0x40)
    } else if same_text(word, "info") {
        rgb(0x40, 0xA0, 0x40)
    } else if same_text(word, "debug") {
        rgb(0x50, 0x80, 0xD0)
    } else if same_text(word, "trace") {
        rgb(180, 180, 180)
    } else {
        base
    }
}

/// The colour of the token that was found from `at` on in the byte range from `s` to
/// `e`: a token is coloured only where the text has the default colour.
pub open spec fn token_color(seg: Seq<char>, at: usize, s: usize, e: usize, base: Color, default: Color) -> Color {
    let whole = Some((s, e));
    let level = regex_group_at(TOKEN_PATTERN@, seg, at, "level"@);
    let ts = regex_group_at(TOKEN_PATTERN@, seg, at, "ts"@);
    let num = regex_group_at(TOKEN_PATTERN@, seg, at, "num"@);
    if base != default {
        base
    } else if level is Some {
        if level == whole {
            level_color(ascii_lower(byte_slice(seg, s as int, e as int)), base)
        } else {
            base
        }
    } else if ts is Some {
        if ts == whole {
            rgb_of(180, 180, 180)
        } else {
            base
        }
    } else if num is Some && num == whole {
        rgb_of(0x40, 0xC0, 0xC0)
    } else {
        base
    }
}

/// The pieces of a segment from a byte on: tokens in their colours, and what lies
/// between them.
pub open spec fn token_pieces(seg: Seq<char>, base: Color, default: Color, at: nat) -> Seq<(Seq<char>, Color)>
    decreases encode_utf8(seg).len() - at,
    when at <= encode_utf8(seg).len()
{
    let n = encode_utf8(seg).len();
    match regex_find_at(TOKEN_PATTERN@, seg, at as usize) {
        Some((s, e)) => if at <= s && at < e && e <= n {
            let gap = if s > at {
                seq![(byte_slice(seg, at as int, s as int), base)]
            } else {
                Seq::empty()
            };
            let hit = seq![
                (
                    byte_slice(seg, s as int, e as int),
                    token_color(seg, at as usize, s, e, base, default),
                ),
            ];
            let rest = if e < n {
                token_pieces(seg, base, default, e as nat)
            } else {
                Seq::empty()
            };
            gap + hit + rest
        } else {
            rest_piece(seg, base, at)
        },
        None => rest_piece(seg, base, at),
    }
}

/// What is left of a segment, in the colour of the segment.
pub open spec fn rest_piece(seg: Seq<char>, base: Color, at: nat) -> Seq<(Seq<char>, Color)> {
    let n = encode_utf8(seg).len();
    if at < n {
        seq![(byte_slice(seg, at as int, n as int), base)]
    } else {
        Seq::empty()
    }
}

/// The runs of a list of coloured pieces.
pub open spec fn pieces_spans(pieces: Seq<(Seq<char>, Color)>, search: Option<Seq<char>>) -> Seq<SpanView>
    decreases pieces.len(),
{
    if pieces.len() == 0 {
        Seq::empty()
    } else {
        pieces_spans(pieces.drop_last(), search) + piece_spans(pieces.last().0, pieces.last().1, search)
    }
}

/// The runs of a segment between two escape sequences.
pub open spec fn segment_spans(
    seg: Seq<char>,
    base: Color,
    default: Color,
    colorize: bool,
    search: Option<Seq<char>>,
) -> Seq<SpanView> {
    if colorize {
        pieces_spans(token_pieces(seg, base, default, 0), search)
    } else {
        piece_spans(seg, base, search)
    }
}

fn append_piece(out: &mut Vec<Span>, text: &str, color: Color, search: Option<&regex::Regex>)
    ensures
        span_views(final(out)@) == span_views(old(out)@) + piece_spans(text@, color, source_of(search)),
        spoken(span_views(final(out)@)) == spoken(span_views(old(out)@)) + text@,
{
    match search {
        Some(re) => append_with_highlight(out, text, color, re),
        None => {
            let ghost before = span_views(out@);
            push_span(out, text, color, false);
            assert(span_views(out@) =~= before + seq![plain(text@, color)]);
        },
    }
}

fn token_color_at(
    styler: &LogStyler,
    seg: &str,
    at: usize,
    s: usize,
    e: usize,
    base: Color,
    default: Color,
) -> (r: Color)
    requires
        at <= encode_utf8(seg@).len(),
        range_in(seg@, s as int, e as int),
    ensures
        r == token_color(seg@, at, s, e, base, default),
{
    proof {
        use_type_invariant(styler);
    }
    if base != default {
        return base;
    }
    let level = group_at(&styler.tokens, seg, at, "level");
    if let Some((gs, ge)) = level {
        if gs == s && ge == e {
            let word = ascii_lowercase(slice_bytes(seg, s, e));
            return level_color_of(word.as_str(), base);
        }
        return base;
    }
    let ts = group_at(&styler.tokens, seg, at, "ts");
    if let Some((gs, ge)) = ts {
        if gs == s && ge == e {
            return rgb(180, 180, 180);
        }
        return base;
    }
    let num = group_at(&styler.tokens, seg, at, "num");
    if let Some((gs, ge)) = num {
        if gs == s && ge == e {
            return rgb(0x40, 0xC0, 0xC0);
        }
    }
    base
}

proof fn lemma_pieces_concat(a: Seq<(Seq<char>, Color)>, b: Seq<(Seq<char>, Color)>, search: Option<Seq<char>>)
    ensures
        pieces_spans(a + b, search) == pieces_spans(a, search) + pieces_spans(b, search),
    decreases b.len(),
{
    if b.len() == 0 {
        assert(a + b =~= a);
        assert(pieces_spans(a, search) + pieces_spans(b, search) =~= pieces_spans(a, search));
    } else {
        assert((a + b).drop_last() =~= a + b.drop_last());
        assert((a + b).last() == b.last());
        lemma_pieces_concat(a, b.drop_last(), search);
        assert(pieces_spans(a + b, search) =~= pieces_spans(a, search) + pieces_spans(b, search));
    }
}

proof fn lemma_pieces_single(t: Seq<char>, c: Color, search: Option<Seq<char>>)
    ensures
        pieces_spans(seq![(t, c)], search) == piece_spans(t, c, search),
{
    let p = seq![(t, c)];
    assert(p.drop_last() =~= Seq::empty());
    reveal_with_fuel(pieces_spans, 2);
    assert(pieces_spans(p, search) =~= piece_spans(t, c, search));
}

/// The same spans from a byte on; used to state a loop.
spec fn rest_spans(seg: Seq<char>, base: Color, default: Color, at: nat, search: Option<Seq<char>>) -> Seq<SpanView> {
    pieces_spans(token_pieces(seg, base, default, at), search)
}

fn append_segment(
    styler: &LogStyler,
    out: &mut Vec<Span>,
    seg: &str,
    base: Color,
    default: Color,
    colorize: bool,
    search: Option<&regex::Regex>,
)
    ensures
        span_views(final(out)@) == span_views(old(out)@) + segment_spans(
            seg@,
            base,
            default,
            colorize,
            source_of(search),
        ),
        spoken(span_views(final(out)@)) == spoken(span_views(old(out)@)) + seg@,
{
    if !colorize {
        append_piece(out, seg, base, search);
        return;
    }
    proof {
        use_type_invariant(styler);
        lemma_whole_range(seg@);
        lemma_whole_slice(seg@);
    }
    let ghost sp = source_of(search);
    let ghost start = span_views(out@);
    let ghost total = start + rest_spans(seg@, base, default, 0, sp);
    let n: usize = byte_len(seg);
    let mut at: usize = 0;
    if n == 0 {
        assert(token_pieces(seg@, base, default, 0) =~= Seq::empty());
        assert(total =~= span_views(out@));
        assert(seg@ =~= Seq::empty());
        assert(spoken(start) + seg@ =~= spoken(start));
        return;
    }
    assert(spoken(start) + byte_slice(seg@, 0, 0) =~= spoken(start));
    loop
        invariant
            start == span_views(old(out)@),
            byte_slice(seg@, 0, n as int) == seg@,
            spoken(span_views(out@)) == spoken(start) + byte_slice(seg@, 0, at as int),
            n == encode_utf8(seg@).len(),
            at < n,
            sp == source_of(search),
            range_in(seg@, at as int, at as int),
            range_in(seg@, n as int, n as int),
            regex_source(styler.tokens) == TOKEN_PATTERN@,
            colorize,
            total == span_views(old(out)@) + segment_spans(seg@, base, default, colorize, sp),
            total == span_views(out@) + rest_spans(seg@, base, default, at as nat, sp),
        decreases n - at,
    {
        let ghost cur = span_views(out@);
        let found = find_at(&styler.tokens, seg, at);
        let mut progress = false;
        if let Some((s, e)) = found {
            if at < e {
                progress = true;
                let ghost gap: Seq<(Seq<char>, Color)> = if s > at {
                    seq![(byte_slice(seg@, at as int, s as int), base)]
                } else {
                    Seq::empty()
                };
                let ghost tc = token_color(seg@, at, s, e, base, default);
                let ghost hit = seq![(byte_slice(seg@, s as int, e as int), tc)];
                let ghost rest: Seq<(Seq<char>, Color)> = if e < n {
                    token_pieces(seg@, base, default, e as nat)
                } else {
                    Seq::empty()
                };
                proof {
                    let was = byte_slice(seg@, 0, at as int);
                    lemma_slices_join(seg@, at as int, s as int);
                    lemma_slices_join(seg@, s as int, e as int);
                    lemma_assoc(spoken(start), was, byte_slice(seg@, at as int, s as int));
                    lemma_assoc(spoken(start), byte_slice(seg@, 0, s as int), byte_slice(seg@, s as int, e as int));
                    assert(token_pieces(seg@, base, default, at as nat) == gap + hit + rest);
                    lemma_pieces_concat(gap + hit, rest, sp);
                    lemma_pieces_concat(gap, hit, sp);
                    lemma_pieces_single(byte_slice(seg@, s as int, e as int), tc, sp);
                    if s > at {
                        lemma_pieces_single(byte_slice(seg@, at as int, s as int), base, sp);
                    }
                }
                if s > at {
                    append_piece(out, slice_bytes(seg, at, s), base, search);
                }
                let color = token_color_at(styler, seg, at, s, e, base, default);
                append_piece(out, slice_bytes(seg, s, e), color, search);
                proof {
                    assert(span_views(out@) =~= cur + pieces_spans(gap, sp) + pieces_spans(hit, sp));
                    assert(total =~= span_views(out@) + pieces_spans(rest, sp));
                }
                at = e;
            }
        }
        if !progress {
            proof {
                lemma_slices_join(seg@, at as int, n as int);
                lemma_assoc(spoken(start), byte_slice(seg@, 0, at as int), byte_slice(seg@, at as int, n as int));
                lemma_pieces_single(byte_slice(seg@, at as int, n as int), base, sp);
                assert(token_pieces(seg@, base, default, at as nat) == rest_piece(seg@, base, at as nat));
            }
            append_piece(out, slice_bytes(seg, at, n), base, search);
            assert(total =~= span_views(out@));
            return;
        }
        if at == n {
            assert(total =~= span_views(out@));
            return;
        }
    }
}

/// The place of the first `c` at or behind `from`, or the length of the text.
pub open spec fn find_from(s: Seq<char>, c: char, from: int) -> int
    decreases s.len() - from,
{
    if from >= s.len() {
        s.len() as int
    } else if s[from] == c {
        from
    } else {
        find_from(s, c, from + 1)
    }
}

proof fn lemma_find_from(s: Seq<char>, c: char, from: int)
    requires
        0 <= from <= s.len(),
    ensures
        from <= find_from(s, c, from) <= s.len(),
    decreases s.len() - from,
{
    if from < s.len() && s[from] != c {
        lemma_find_from(s, c, from + 1);
    }
}

fn find_char(v: &Vec<char>, c: char, from: usize) -> (r: usize)
    requires
        from <= v.len(),
    ensures
        r == find_from(v@, c, from as int),
        from <= r <= v.len(),
{
    let mut i: usize = from;
    while i < v.len() && v[i] != c
        invariant
            from <= i <= v.len(),
            find_from(v@, c, from as int) == find_from(v@, c, i as int),
        ensures
            from <= i <= v.len(),
            find_from(v@, c, from as int) == i,
        decreases v.len() - i,
    {
        i += 1;
    }
    i
}

/// The runs of a line from a character on. An escape character followed by `[` starts a
/// sequence that ends in `m` and changes the colour; where no `m` follows, the rest is
/// shown as it is. An escape character that starts no sequence is part of the text.
pub open spec fn spans_from(
    line: Seq<char>,
    at: int,
    cur: Color,
    default: Color,
    colorize: bool,
    search: Option<Seq<char>>,
) -> Seq<SpanView>
    decreases line.len() - at,
    when 0 <= at <= line.len()
{
    if at >= line.len() {
        Seq::empty()
    } else if line[at] == '\u{1b}' && at + 1 < line.len() && line[at + 1] == '[' {
        let end = find_from(line, 'm', at + 2);
        if at + 2 <= end < line.len() {
            let next = sgr_fold(split(line.subrange(at + 2, end), ';'), cur, default);
            spans_from(line, end + 1, next, default, colorize, search)
        } else {
            segment_spans(line.skip(at), cur, default, colorize, search)
        }
    } else {
        let end = find_from(line, '\u{1b}', at + 1);
        if at < end <= line.len() {
            segment_spans(line.subrange(at, end), cur, default, colorize, search) + spans_from(
                line,
                end,
                cur,
                default,
                colorize,
                search,
            )
        } else {
            Seq::empty()
        }
    }
}

/// A line from a character on, without its escape sequences. An escape character followed by
/// `[` starts one, up to the next `m`; without an `m` there is none from there on.
pub open spec fn bare(line: Seq<char>, at: int) -> Seq<char>
    decreases line.len() - at,
    when 0 <= at <= line.len()
{
    if at >= line.len() {
        Seq::empty()
    } else if line[at] == '\u{1b}' && at + 1 < line.len() && line[at + 1] == '[' {
        let end = find_from(line, 'm', at + 2);
        if at + 2 <= end < line.len() {
            bare(line, end + 1)
        } else {
            line.skip(at)
        }
    } else {
        seq![line[at]] + bare(line, at + 1)
    }
}

proof fn lemma_bare_segment(line: Seq<char>, at: int, end: int)
    requires
        0 <= at < end <= line.len(),
        !(line[at] == '\u{1b}' && at + 1 < line.len() && line[at + 1] == '['),
        end == find_from(line, '\u{1b}', at + 1),
    ensures
        bare(line, at) == line.subrange(at, end) + bare(line, end),
    decreases line.len() - at,
{
    if at + 1 < end {
        lemma_bare_segment(line, at + 1, end);
        assert(line.subrange(at, end) =~= seq![line[at]] + line.subrange(at + 1, end));
        assert(seq![line[at]] + (line.subrange(at + 1, end) + bare(line, end)) =~= line.subrange(at, end) + bare(
            line,
            end,
        ));
    } else {
        assert(line.subrange(at, end) =~= seq![line[at]]);
    }
}

/// The runs of a log line: coloured by its escape sequences, by its tokens where
/// `colorize` is on, and with the matches of the search expression underlined. Joined, they
/// are the line without its escape sequences.
pub fn parse_line_to_job_hl(
    styler: &LogStyler,
    line: &str,
    default_color: Color,
    colorize: bool,
    highlight_re: Option<&regex::Regex>,
) -> (r: Vec<Span>)
    ensures
        span_views(r@) == spans_from(
            line@,
            0,
            default_color,
            default_color,
            colorize,
            source_of(highlight_re),
        ),
        spoken(span_views(r@)) == bare(line@, 0),
{
    let v = to_chars(line);
    let ghost sp = source_of(highlight_re);
    let mut out: Vec<Span> = Vec::new();
    let mut cur = default_color;
    let mut at: usize = 0;
    let ghost total = spans_from(v@, 0, cur, default_color, colorize, sp);
    assert(span_views(out@) + total =~= total);
    assert(spoken(span_views(out@)) + bare(v@, 0) =~= bare(v@, 0));
    while at < v.len()
        invariant
            bare(v@, 0) == spoken(span_views(out@)) + bare(v@, at as int),
            at <= v.len(),
            v@ == line@,
            sp == source_of(highlight_re),
            total == spans_from(v@, 0, default_color, default_color, colorize, sp),
            total == span_views(out@) + spans_from(v@, at as int, cur, default_color, colorize, sp),
        decreases v.len() - at,
    {
        let ghost before = span_views(out@);
        let ghost rest = spans_from(v@, at as int, cur, default_color, colorize, sp);
        if v[at] == '\u{1b}' && v.len() - at > 1 && v[at + 1] == '[' {
            let end = find_char(&v, 'm', at + 2);
            if end < v.len() {
                let codes = sub_text(&v, at + 2, end);
                cur = apply_sgr(codes.as_str(), cur, default_color);
                at = end + 1;
            } else {
                let seg = sub_text(&v, at, v.len());
                assert(seg@ =~= v@.skip(at as int));
                append_segment(styler, &mut out, seg.as_str(), cur, default_color, colorize, highlight_re);
                return out;
            }
        } else {
            let end = find_char(&v, '\u{1b}', at + 1);
            let seg = sub_text(&v, at, end);
            proof {
                lemma_bare_segment(v@, at as int, end as int);
                lemma_assoc(spoken(before), seg@, bare(v@, end as int));
            }
            append_segment(styler, &mut out, seg.as_str(), cur, default_color, colorize, highlight_re);
            at = end;
            assert(total =~= span_views(out@) + spans_from(
                v@,
                at as int,
                cur,
                default_color,
                colorize,
                sp,
            ));
        }
    }
    assert(total =~= span_views(out@));
    assert(bare(v@, 0) =~= spoken(span_views(out@)));
    out
}

/// The runs of a log line without a search expression.
pub fn parse_line_to_job(styler: &LogStyler, line: &str, default_color: Color, colorize: bool) -> (r: Vec<Span>)
    ensures
        span_views(r@) == spans_from(line@, 0, default_color, default_color, colorize, None),
        spoken(span_views(r@)) == bare(line@, 0),
{
    parse_line_to_job_hl(styler, line, default_color, colorize, None)
}

proof fn lemma_spoken_join(a: Seq<SpanView>, b: Seq<SpanView>)
    ensures
        spoken(a + b) == spoken(a) + spoken(b),
    decreases b.len(),
{
    if b.len() == 0 {
        assert(a + b =~= a);
        assert(spoken(a) + spoken(b) =~= spoken(a));
    } else {
        assert((a + b).drop_last() =~= a + b.drop_last());
        lemma_spoken_join(a, b.drop_last());
        lemma_assoc(spoken(a), spoken(b.drop_last()), b.last().text);
    }
}

/// The runs of a line that is coloured by its escape sequences alone are, joined, the line
/// without those sequences, whatever the colours are.
pub proof fn law_runs_joined(line: Seq<char>, at: int, cur: Color, default: Color)
    requires
        0 <= at <= line.len(),
    ensures
        spoken(spans_from(line, at, cur, default, false, None)) == bare(line, at),
    decreases line.len() - at,
{
    if at < line.len() {
        if line[at] == '\u{1b}' && at + 1 < line.len() && line[at + 1] == '[' {
            lemma_find_from(line, 'm', at + 2);
            let end = find_from(line, 'm', at + 2);
            if end < line.len() {
                let next = sgr_fold(split(line.subrange(at + 2, end), ';'), cur, default);
                law_runs_joined(line, end + 1, next, default);
            } else {
                lemma_spoken_one(line.skip(at), cur);
            }
        } else {
            lemma_find_from(line, '\u{1b}', at + 1);
            let end = find_from(line, '\u{1b}', at + 1);
            law_runs_joined(line, end, cur, default);
            lemma_bare_segment(line, at, end);
            lemma_spoken_one(line.subrange(at, end), cur);
            lemma_spoken_join(
                seq![plain(line.subrange(at, end), cur)],
                spans_from(line, end, cur, default, false, None),
            );
        }
    }
}

proof fn lemma_spoken_one(text: Seq<char>, color: Color)
    ensures
        spoken(seq![plain(text, color)]) == text,
{
    let v = seq![plain(text, color)];
    assert(v.drop_last() =~= Seq::empty());
    assert(spoken(v.drop_last()) =~= Seq::empty());
    assert(Seq::<char>::empty() + text =~= text);
}

/// A line without escape characters, colouring and search is shown as one run.
pub proof fn law_plain_line(line: Seq<char>, default: Color)
    requires
        line.len() > 0,
        !line.contains('\u{1b}'),
    ensures
        spans_from(line, 0, default, default, false, None) == seq![plain(line, default)],
{
    assert(line.contains(line[0]));
    lemma_no_escape(line, 1);
    assert(line.subrange(0, line.len() as int) =~= line);
    reveal_with_fuel(spans_from, 2);
    assert(spans_from(line, 0, default, default, false, None) =~= seq![plain(line, default)]);
}

proof fn lemma_no_escape(line: Seq<char>, at: int)
    requires
        0 <= at <= line.len(),
        !line.contains('\u{1b}'),
    ensures
        find_from(line, '\u{1b}', at) == line.len(),
    decreases line.len() - at,
{
    if at < line.len() {
        assert(line.contains(line[at]));
        lemma_no_escape(line, at + 1);
    }
}

/// What `DateTime::parse_from_rfc3339` returns: the seconds since the epoch and the
/// nanoseconds of the instant that an RFC 3339 text denotes.
pub uninterp spec fn rfc3339(text: Seq<char>) -> Option<(i64, u32)>;

/// `DateTime::parse_from_rfc3339`, as seconds and nanoseconds; a function of the text.
#[verifier::external_body]
pub(crate) fn parse_rfc3339(text: &str) -> (r: Option<(i64, u32)>)
    ensures
        r == rfc3339(text@),
{
    let dt = chrono::DateTime::parse_from_rfc3339(text).ok()?;
    Some((dt.timestamp(), dt.timestamp_subsec_nanos()))
}

/// The instant that the first word of a line denotes.
pub open spec fn line_time(line: Seq<char>) -> Option<(i64, u32)> {
    if words(line).len() > 0 {
        rfc3339(words(line)[0])
    } else {
        None
    }
}

/// The instant that the first word of a line denotes.
pub fn parse_timestamp_utc(line: &str) -> (r: Option<(i64, u32)>)
    ensures
        r == line_time(line@),
{
    let ws = split_words(line);
    if ws.len() > 0 {
        assert(texts(ws@)[0] == ws@[0]@);
        parse_rfc3339(ws[0].as_str())
    } else {
        None
    }
}

/// A log line as it came, its runs, and the instant in front of it.
#[derive(Debug)]
pub struct ParsedLine {
    pub raw: String,
    pub job: Vec<Span>,
    pub timestamp: Option<(i64, u32)>,
}

/// The model of a `ParsedLine`.
pub struct LineView {
    pub raw: Seq<char>,
    pub job: Seq<SpanView>,
    pub timestamp: Option<(i64, u32)>,
}

impl View for ParsedLine {
    type V = LineView;

    open spec fn view(&self) -> LineView {
        LineView { raw: self.raw@, job: span_views(self.job@), timestamp: self.timestamp }
    }
}

/// The models of a list of lines.
pub open spec fn line_views(v: Seq<ParsedLine>) -> Seq<LineView> {
    v.map_values(|l: ParsedLine| l@)
}

/// What a log view keeps of a line.
pub open spec fn parsed_line(line: Seq<char>, default: Color, colorize: bool, search: Option<Seq<char>>) -> LineView {
    LineView {
        raw: line,
        job: spans_from(line, 0, default, default, colorize, search),
        timestamp: line_time(line),
    }
}

/// Parse a line for a log view.
pub fn parse_line(
    styler: &LogStyler,
    line: String,
    default_color: Color,
    colorize: bool,
    highlight_re: Option<&regex::Regex>,
) -> (r: ParsedLine)
    ensures
        r@ == parsed_line(line@, default_color, colorize, source_of(highlight_re)),
{
    let job = parse_line_to_job_hl(styler, line.as_str(), default_color, colorize, highlight_re);
    let timestamp = parse_timestamp_utc(line.as_str());
    ParsedLine { raw: line, job, timestamp }
}

// ---------------------------------------------------------------------------
// Prefixes of aggregated streams

/// How a prefix is coloured.
#[derive(Clone, Copy, Debug, PartialEq, Eq, Structural)]
pub enum PrefixTheme {
    Bright,
    Basic,
    Gray,
    NoColor,
}

impl Default for PrefixTheme {
    fn default() -> (r: Self)
        ensures
            r == PrefixTheme::Bright,
    {
        PrefixTheme::Bright
    }
}

/// The hash of a run of bytes: for each byte a multiplication modulo 2^32 and an
/// exclusive or.
pub open spec fn name_hash(bytes: Seq<u8>) -> u32
    decreases bytes.len(),
{
    if bytes.len() == 0 {
        2166136261
    } else {
        (((name_hash(bytes.drop_last()) as nat * 16777619) % 0x1_0000_0000) as u32) ^ (bytes.last() as u32)
    }
}

fn name_hash_of(name: &str) -> (r: u32)
    ensures
        r == name_hash(encode_utf8(name@)),
{
    let bytes = name.as_bytes();
    let mut h: u32 = 2166136261;
    let mut i: usize = 0;
    while i < bytes.len()
        invariant
            i <= bytes.len(),
            h == name_hash(bytes@.take(i as int)),
        decreases bytes.len() - i,
    {
        assert(bytes@.take(i + 1).drop_last() =~= bytes@.take(i as int));
        let m: u64 = (h as u64 * 16777619) % 0x1_0000_0000;
        h = (m as u32) ^ (bytes[i] as u32);
        i += 1;
    }
    assert(bytes@.take(bytes@.len() as int) =~= bytes@);
    h
}

/// The escape code by which the prefix of a stream is coloured: one of seven by the
/// hash of its name, or gray, or none.
pub open spec fn prefix_code(name: Seq<char>, theme: PrefixTheme) -> Option<int> {
    match theme {
        PrefixTheme::Bright => Some(91 + name_hash(encode_utf8(name)) as int % 7),
        PrefixTheme::Basic => Some(31 + name_hash(encode_utf8(name)) as int % 7),
        PrefixTheme::Gray => Some(90),
        PrefixTheme::NoColor => None,
    }
}

/// The escape code by which the prefix of a stream is coloured.
pub fn color_code_for(name: &str, theme: PrefixTheme) -> (r: Option<i32>)
    ensures
        match r {
            Some(c) => prefix_code(name@, theme) == Some(c as int),
            None => prefix_code(name@, theme) is None,
        },
{
    match theme {
        PrefixTheme::Bright => {
            let k: u32 = name_hash_of(name) % 7;
            Some(91 + k as i32)
        },
        PrefixTheme::Basic => {
            let k: u32 = name_hash_of(name) % 7;
            Some(31 + k as i32)
        },
        PrefixTheme::Gray => Some(90),
        PrefixTheme::NoColor => None,
    }
}

/// A colour code is one that the log view knows, whatever the name is.
pub proof fn law_prefix_code_known(name: Seq<char>, theme: PrefixTheme, cur: Color, default: Color)
    ensures
        prefix_code(name, theme) matches Some(c) ==> 31 <= c <= 37 || 90 <= c <= 97,
        prefix_code(name, theme) matches Some(c) ==> (30 <= c <= 37 || 90 <= c <= 97) && sgr_color(
            c,
            cur,
            default,
        ).a == 255,
{
}

/// The prefix of the lines of one stream.
pub open spec fn prefix_text(name: Seq<char>, theme: PrefixTheme) -> Seq<char> {
    match prefix_code(name, theme) {
        Some(c) => "\u{1b}["@ + crate::text::dec_int(c) + "m["@ + name + "]\u{1b}[0m "@,
        None => "["@ + name + "] "@,
    }
}

/// The prefix of the lines of one stream.
pub fn stream_prefix(name: &str, theme: PrefixTheme) -> (r: String)
    ensures
        r@ == prefix_text(name@, theme),
{
    match color_code_for(name, theme) {
        Some(c) => {
            let n = crate::text::i64_text(c as i64);
            crate::text::cat5("\u{1b}[", n.as_str(), "m[", name, "]\u{1b}[0m ")
        },
        None => crate::text::cat3("[", name, "] "),
    }
}

// ---------------------------------------------------------------------------
// Which lines are shown

/// The places below `n` of the lines that a search keeps, in order.
pub open spec fn kept(lines: Seq<LineView>, search: Option<Seq<char>>, n: nat) -> Seq<usize>
    decreases n,
{
    if n == 0 {
        Seq::empty()
    } else {
        let rest = kept(lines, search, (n - 1) as nat);
        if keeps(lines[n - 1].raw, search) {
            rest.push((n - 1) as usize)
        } else {
            rest
        }
    }
}

/// Whether a search keeps a line.
pub open spec fn keeps(raw: Seq<char>, search: Option<Seq<char>>) -> bool {
    match search {
        Some(p) => crate::rx::regex_is_match(p, raw),
        None => true,
    }
}

/// The key by which a paused view orders a line: lines with an instant come first, by
/// their instant.
pub open spec fn time_key(t: Option<(i64, u32)>) -> Seq<i64> {
    match t {
        Some((s, n)) => seq![0i64, s, n as i64],
        None => seq![1i64],
    }
}

fn time_key_of(t: &Option<(i64, u32)>) -> (r: Vec<i64>)
    ensures
        r@ == time_key(*t),
{
    let mut v: Vec<i64> = Vec::new();
    match t {
        Some((s, n)) => {
            v.push(0);
            v.push(*s);
            v.push(*n as i64);
            assert(v@ =~= time_key(*t));
        },
        None => {
            v.push(1);
            assert(v@ =~= time_key(*t));
        },
    }
    v
}

/// The keys by which a paused view orders the lines at some places.
pub open spec fn time_keys(lines: Seq<LineView>, places: Seq<usize>) -> Seq<Seq<i64>> {
    places.map_values(|i: usize| time_key(lines[i as int].timestamp))
}

/// Whether `rows` are the places of the lines that a log view shows: the last `limit`
/// of the kept lines where it follows the stream; all of them where it is paused, by
/// their instants where that is asked for.
pub open spec fn shows_lines(
    lines: Seq<LineView>,
    search: Option<Seq<char>>,
    follow: bool,
    order_by_time: bool,
    limit: nat,
    rows: Seq<usize>,
) -> bool {
    let all = kept(lines, search, lines.len());
    if follow {
        rows == (if all.len() > limit {
            all.skip(all.len() - limit)
        } else {
            all
        })
    } else if order_by_time {
        exists|order: Seq<usize>|
            {
                &&& #[trigger] crate::order::is_stable_order(time_keys(lines, all), order)
                &&& rows == order.map_values(|k: usize| all[k as int])
            }
    } else {
        rows == all
    }
}

proof fn lemma_kept_in_range(lines: Seq<LineView>, search: Option<Seq<char>>, n: nat)
    requires
        n <= lines.len(),
        lines.len() <= usize::MAX,
    ensures
        forall|i: int| 0 <= i < kept(lines, search, n).len() ==> (#[trigger] kept(lines, search, n)[i]) < n,
    decreases n,
{
    if n > 0 {
        let rest = kept(lines, search, (n - 1) as nat);
        lemma_kept_in_range(lines, search, (n - 1) as nat);
        assert forall|i: int| 0 <= i < kept(lines, search, n).len() implies (#[trigger] kept(
            lines,
            search,
            n,
        )[i]) < n by {
            if i < rest.len() {
                assert(kept(lines, search, n)[i] == rest[i]);
            }
        }
    }
}

/// The places of the lines that a log view shows.
pub fn visible_rows(
    ring: &std::collections::VecDeque<ParsedLine>,
    search: Option<&regex::Regex>,
    follow: bool,
    order_by_time: bool,
    limit: usize,
) -> (rows: Vec<usize>)
    ensures
        shows_lines(line_views(ring@), source_of(search), follow, order_by_time, limit as nat, rows@),
{
    let ghost lines = line_views(ring@);
    let ghost sp = source_of(search);
    let mut all: Vec<usize> = Vec::new();
    let n: usize = ring.len();
    let mut i: usize = 0;
    while i < n
        invariant
            i <= n,
            n == ring@.len(),
            lines == line_views(ring@),
            sp == source_of(search),
            all@ == kept(lines, sp, i as nat),
        decreases n - i,
    {
        let keep = match search {
            Some(re) => crate::rx::is_match(re, ring[i].raw.as_str()),
            None => true,
        };
        assert(lines[i as int].raw == ring@[i as int].raw@);
        if keep {
            all.push(i);
        }
        i += 1;
    }
    proof {
        lemma_kept_in_range(lines, sp, lines.len());
    }
    if follow {
        let len: usize = all.len();
        if len > limit {
            let tail = all.split_off(len - limit);
            assert(tail@ =~= kept(lines, sp, lines.len()).skip(len - limit));
            return tail;
        }
        return all;
    }
    if order_by_time {
        let mut keys: Vec<Vec<i64>> = Vec::new();
        let mut k: usize = 0;
        let ghost ks = time_keys(lines, all@);
        while k < all.len()
            invariant
                k <= all.len(),
                lines == line_views(ring@),
                ks == time_keys(lines, all@),
                forall|i: int| 0 <= i < all.len() ==> (#[trigger] all@[i]) < ring@.len(),
                crate::order::key_seqs(keys@) =~= ks.take(k as int),
            decreases all.len() - k,
        {
            let place: usize = all[k];
            let key = time_key_of(&ring[place].timestamp);
            assert(key@ == ks[k as int]);
            let ghost before = crate::order::key_seqs(keys@);
            keys.push(key);
            assert(crate::order::key_seqs(keys@) =~= before.push(key@));
            k += 1;
        }
        assert(ks.take(all@.len() as int) =~= ks);
        let order = crate::order::stable_order(&keys);
        let mut rows: Vec<usize> = Vec::new();
        let mut j: usize = 0;
        while j < order.len()
            invariant
                j <= order.len(),
                order.len() == all.len(),
                forall|i: int| 0 <= i < order.len() ==> (#[trigger] order@[i]) < all.len(),
                rows@ =~= order@.take(j as int).map_values(|k: usize| all@[k as int]),
            decreases order.len() - j,
        {
            assert(order@.take(j + 1) =~= order@.take(j as int).push(order@[j as int]));
            rows.push(all[order[j]]);
            j += 1;
        }
        assert(order@.take(order@.len() as int) =~= order@);
        assert(crate::order::is_stable_order(ks, order@));
        return rows;
    }
    all
}

// ---------------------------------------------------------------------------
// What a log view shows

proof fn lemma_kept(lines: Seq<LineView>, search: Option<Seq<char>>, n: nat, k: int)
    requires
        n <= lines.len() <= usize::MAX,
        0 <= k < n,
    ensures
        kept(lines, search, n).contains(k as usize) <==> match search {
            Some(p) => crate::rx::regex_is_match(p, lines[k].raw),
            None => true,
        },
        forall|i: int, j: int|
            0 <= i < j < kept(lines, search, n).len() ==> (#[trigger] kept(lines, search, n)[i]) < (#[trigger] kept(
                lines,
                search,
                n,
            )[j]),
    decreases n,
{
    let rest = kept(lines, search, (n - 1) as nat);
    let all = kept(lines, search, n);
    lemma_kept_in_range(lines, search, (n - 1) as nat);
    if n > 1 {
        lemma_kept(lines, search, (n - 1) as nat, if k < n - 1 {
            k
        } else {
            0
        });
    } else {
        assert(rest.len() == 0);
    }
    assert forall|i: int, j: int| 0 <= i < j < all.len() implies (#[trigger] all[i]) < (#[trigger] all[j]) by {
        assert(all[i] == rest[i]);
        if j < rest.len() {
            assert(all[j] == rest[j]);
        }
    }
    if k < n - 1 {
        if rest.contains(k as usize) {
            let i = choose|i: int| 0 <= i < rest.len() && rest[i] == k as usize;
            assert(all[i] == k as usize);
        }
        if all.contains(k as usize) {
            let i = choose|i: int| 0 <= i < all.len() && all[i] == k as usize;
            assert(i < rest.len() ==> rest[i] == k as usize);
        }
    } else {
        if keeps(lines[k].raw, search) {
            assert(all[all.len() - 1] == k as usize);
        }
        if all.contains(k as usize) && !keeps(lines[k].raw, search) {
            let i = choose|i: int| 0 <= i < all.len() && all[i] == k as usize;
            assert(rest[i] == k as usize);
        }
    }
}

/// Every line that is shown matches the expression that is searched for.
pub proof fn law_shown_lines_match(
    lines: Seq<LineView>,
    search: Option<Seq<char>>,
    follow: bool,
    by_time: bool,
    limit: nat,
    rows: Seq<usize>,
    i: int,
)
    requires
        lines.len() <= usize::MAX,
        shows_lines(lines, search, follow, by_time, limit, rows),
        0 <= i < rows.len(),
    ensures
        rows[i] < lines.len(),
        search matches Some(p) ==> crate::rx::regex_is_match(p, lines[rows[i] as int].raw),
{
    let all = kept(lines, search, lines.len());
    lemma_kept_in_range(lines, search, lines.len());
    assert(all.contains(rows[i])) by {
        if follow {
            if all.len() > limit {
                assert(rows[i] == all[i + all.len() - limit]);
            }
        } else if by_time {
            let order = choose|order: Seq<usize>|
                {
                    &&& #[trigger] crate::order::is_stable_order(time_keys(lines, all), order)
                    &&& rows == order.map_values(|k: usize| all[k as int])
                };
            assert(rows[i] == all[order[i] as int]);
        }
    }
    let p = choose|p: int| 0 <= p < all.len() && all[p] == rows[i];
    lemma_kept(lines, search, lines.len(), rows[i] as int);
}

/// A view that stands still shows every line that matches, in the order in which they came; one
/// that follows shows the last ones, as many as the limit allows, in that order too.
pub proof fn law_shown_lines_complete(
    lines: Seq<LineView>,
    search: Option<Seq<char>>,
    limit: nat,
    still: Seq<usize>,
    follow: Seq<usize>,
    k: int,
)
    requires
        lines.len() <= usize::MAX,
        shows_lines(lines, search, false, false, limit, still),
        shows_lines(lines, search, true, false, limit, follow),
        0 <= k < lines.len(),
        search matches Some(p) ==> crate::rx::regex_is_match(p, lines[k].raw),
    ensures
        still.contains(k as usize),
        forall|i: int, j: int| 0 <= i < j < still.len() ==> (#[trigger] still[i]) < (#[trigger] still[j]),
        forall|i: int, j: int| 0 <= i < j < follow.len() ==> (#[trigger] follow[i]) < (#[trigger] follow[j]),
        follow.len() <= limit,
        follow.contains(k as usize) || (follow.len() == limit && forall|i: int|
            0 <= i < follow.len() ==> k < #[trigger] follow[i]),
{
    lemma_kept(lines, search, lines.len(), k);
    let p = choose|p: int| 0 <= p < still.len() && still[p] == k as usize;
    if still.len() > limit {
        let d = still.len() - limit;
        assert(forall|i: int| 0 <= i < follow.len() ==> #[trigger] follow[i] == still[i + d]);
        if p >= d {
            assert(follow[p - d] == k as usize);
        }
    } else {
        assert(follow == still);
    }
}

/// Lines that are ordered by time ascend by it, to the nanosecond; those without a time come
/// last, and no line that matches is left out.
pub proof fn law_lines_by_time(
    lines: Seq<LineView>,
    search: Option<Seq<char>>,
    limit: nat,
    rows: Seq<usize>,
    i: int,
    j: int,
)
    requires
        lines.len() <= usize::MAX,
        shows_lines(lines, search, false, true, limit, rows),
        0 <= i < j < rows.len(),
    ensures
        rows.len() == kept(lines, search, lines.len()).len(),
        ({
            let a = lines[rows[i] as int].timestamp;
            let b = lines[rows[j] as int].timestamp;
            &&& a is None ==> b is None
            &&& a is Some && b is Some ==> {
                ||| (a->0).0 < (b->0).0
                ||| (a->0).0 == (b->0).0 && (a->0).1 <= (b->0).1
            }
        }),
{
    let all = kept(lines, search, lines.len());
    let keys = time_keys(lines, all);
    let order = choose|order: Seq<usize>|
        {
            &&& #[trigger] crate::order::is_stable_order(keys, order)
            &&& rows == order.map_values(|k: usize| all[k as int])
        };
    let (x, y) = (order[i] as int, order[j] as int);
    assert(crate::order::before(keys, x, y));
    if crate::order::lex_lt(keys[x], keys[y]) && crate::order::lex_lt(keys[y], keys[x]) {
        crate::order::lemma_lex_transitive(keys[x], keys[y], keys[x]);
        crate::order::lemma_lex_irreflexive(keys[x]);
    }
    assert(!crate::order::lex_lt(keys[y], keys[x]));
    let a = lines[rows[i] as int].timestamp;
    let b = lines[rows[j] as int].timestamp;
    assert(keys[x] == time_key(a) && keys[y] == time_key(b));
    let (p, q) = (time_key(b), time_key(a));
    if a is Some && b is Some {
        let (p1, q1) = (p.skip(1), q.skip(1));
        assert(p1[0] == (b->0).0 && q1[0] == (a->0).0);
        let (p2, q2) = (p1.skip(1), q1.skip(1));
        assert(p2[0] == (b->0).1 as i64 && q2[0] == (a->0).1 as i64);
        assert(crate::order::lex_lt(p, q) == crate::order::lex_lt(p1, q1));
        if (a->0).0 == (b->0).0 {
            assert(crate::order::lex_lt(p1, q1) == crate::order::lex_lt(p2, q2));
        }
    }
}

/// The time of a line is that of its first word.
pub proof fn law_line_time(line: Seq<char>)
    ensures
        words(line).len() > 0 ==> line_time(line) == rfc3339(words(line)[0]),
        words(line).len() == 0 ==> line_time(line) is None,
{
}

/// The colour codes of a log mean what they mean in a terminal: red is a red, green a green and
/// blue a blue, the bright ones too, and 0 and 39 bring the usual colour back. A code of
/// anything else changes nothing.
pub proof fn law_log_colours(cur: Color, default: Color, code: int)
    ensures
        sgr_color(0, cur, default) == default,
        sgr_color(39, cur, default) == default,
        !(code == 0 || code == 39 || 30 <= code <= 37 || 90 <= code <= 97) ==> sgr_color(code, cur, default) == cur,
        code == 31 || code == 91 ==> ({
            let c = sgr_color(code, cur, default);
            c.r > c.g && c.r > c.b && c.a == 255
        }),
        code == 32 || code == 92 ==> ({
            let c = sgr_color(code, cur, default);
            c.g > c.r && c.g > c.b && c.a == 255
        }),
        code == 34 || code == 94 ==> ({
            let c = sgr_color(code, cur, default);
            c.b > c.r && c.b > c.g && c.a == 255
        }),
        code == 33 || code == 93 ==> ({
            let c = sgr_color(code, cur, default);
            c.r > c.b && c.g > c.b && c.a == 255
        }),
        sgr_color(30, cur, default) == rgb_of(0, 0, 0),
        sgr_color(97, cur, default) == rgb_of(255, 255, 255),
{
}

/// Errors stand in red, warnings in yellow, what is for information in green and what is for
/// developers in blue; other words keep their colour.
pub proof fn law_level_colours(word: Seq<char>, base: Color)
    ensures
        ({
            let c = level_color("error"@, base);
            c.r > c.g && c.r > c.b
        }),
        ({
            let c = level_color("warn"@, base);
            c.r > c.b && c.g > c.b && c == level_color("warning"@, base)
        }),
        ({
            let c = level_color("info"@, base);
            c.g > c.r && c.g > c.b
        }),
        ({
            let c = level_color("debug"@, base);
            c.b > c.r && c.b > c.g
        }),
        word != "error"@ && word != "warn"@ && word != "warning"@ && word != "info"@ && word != "debug"@ && word
            != "trace"@ ==> level_color(word, base) == base,
{
    reveal_strlit("error");
    reveal_strlit("warn");
    reveal_strlit("warning");
    reveal_strlit("info");
    reveal_strlit("debug");
    reveal_strlit("trace");
    assert("error"@.len() == 5 && "warn"@.len() == 4 && "warning"@.len() == 7 && "info"@.len() == 4);
    assert("debug"@.len() == 5 && "trace"@.len() == 5);
    assert("error"@[0] == 'e' && "debug"@[0] == 'd' && "trace"@[0] == 't');
    assert("warn"@[0] == 'w' && "info"@[0] == 'i');
}

/// A colour that the line itself sets is kept: tokens are coloured only in the usual colour.
pub proof fn law_own_colour_kept(seg: Seq<char>, at: usize, s: usize, e: usize, base: Color, default: Color)
    requires
        base != default,
    ensures
        token_color(seg, at, s, e, base, default) == base,
{
}

/// What was searched for is underlined, and what stands around it is not; the colour is that of
/// the text.
pub proof fn law_search_is_underlined(text: Seq<char>, color: Color, s: usize, e: usize)
    requires
        s < e <= encode_utf8(text).len(),
    ensures
        ({
            let runs = marked(text, color, seq![(s, e)]);
            let hit = SpanView { text: byte_slice(text, s as int, e as int), color, underline: true };
            &&& runs.contains(hit)
            &&& forall|i: int| 0 <= i < runs.len() ==> (#[trigger] runs[i]).color == color
            &&& forall|i: int| 0 <= i < runs.len() && (#[trigger] runs[i]).underline ==> runs[i] == hit
        }),
        marked(text, color, Seq::empty()) == if encode_utf8(text).len() > 0 {
            seq![plain(byte_slice(text, 0, encode_utf8(text).len() as int), color)]
        } else {
            Seq::empty()
        },
{
    let one = seq![(s, e)];
    assert(one.drop_last() =~= Seq::empty());
    let none = marked_upto(text, color, one.drop_last());
    assert(none == (Seq::<SpanView>::empty(), 0int));
    let hit = SpanView { text: byte_slice(text, s as int, e as int), color, underline: true };
    let runs = marked(text, color, one);
    let k: int = if s > 0 {
        1
    } else {
        0
    };
    assert(runs[k] == hit);
    assert(marked(text, color, Seq::empty()) =~= if encode_utf8(text).len() > 0 {
        seq![plain(byte_slice(text, 0, encode_utf8(text).len() as int), color)]
    } else {
        Seq::empty()
    });
}

/// The prefix of a stream names it in brackets; with a theme it stands in a colour, which ends
/// behind it.
pub proof fn law_prefix(name: Seq<char>)
    ensures
        prefix_text(name, PrefixTheme::NoColor) == "["@ + name + "] "@,
        prefix_text(name, PrefixTheme::Gray) == "\u{1b}["@ + crate::text::dec_int(90) + "m["@ + name + "]\u{1b}[0m "@,
        prefix_code(name, PrefixTheme::Bright) matches Some(c) && 91 <= c <= 97,
        prefix_code(name, PrefixTheme::Basic) matches Some(c) && 31 <= c <= 37,
{
}

proof fn lemma_find(s: Seq<char>, c: char, from: int, to: int)
    requires
        0 <= from <= to <= s.len(),
        forall|k: int| from <= k < to ==> #[trigger] s[k] != c,
        to < s.len() ==> s[to] == c,
    ensures
        find_from(s, c, from) == to,
    decreases to - from,
{
    if from < to {
        assert(s[from] != c);
        lemma_find(s, c, from + 1, to);
    }
}

/// A text behind a colour code is shown in the colour of the code, without the code.
pub proof fn law_coloured_text(code: Seq<char>, n: int, t: Seq<char>, default: Color)
    requires
        signed_value(code, i32::MIN as int, i32::MAX as int) == Some(n),
        !code.contains('m'),
        !code.contains(';'),
        t.len() > 0,
        !t.contains('\u{1b}'),
    ensures
        ({
            let line = seq!['\u{1b}', '['] + code + seq!['m'] + t;
            &&& spans_from(line, 0, default, default, false, None) == seq![plain(t, sgr_color(n, default, default))]
            &&& bare(line, 0) == t
        }),
{
    let line = seq!['\u{1b}', '['] + code + seq!['m'] + t;
    let end = 2 + code.len() as int;
    assert forall|k: int| 2 <= k < end implies #[trigger] line[k] != 'm' by {
        assert(line[k] == code[k - 2]);
        assert(code.contains(code[k - 2]));
    }
    lemma_find(line, 'm', 2, end);
    assert(line.subrange(2, end) =~= code);
    crate::text::lemma_split_single(code, ';');
    let parts = seq![code];
    assert(parts.drop_last() =~= Seq::empty());
    assert(sgr_fold(parts.drop_last(), default, default) == default);
    let red = sgr_color(n, default, default);
    assert(sgr_fold(parts, default, default) == red);
    let at = end + 1;
    assert forall|k: int| at <= k < line.len() implies #[trigger] line[k] != '\u{1b}' by {
        assert(line[k] == t[k - at]);
        assert(t.contains(t[k - at]));
    }
    assert(line[at] != '\u{1b}');
    lemma_find(line, '\u{1b}', at + 1, line.len() as int);
    assert(line.subrange(at, line.len() as int) =~= t);
    reveal_with_fuel(spans_from, 3);
    assert(spans_from(line, at, red, default, false, None) =~= seq![plain(t, red)]);
    law_runs_joined(line, 0, default, default);
    let one = seq![plain(t, red)];
    assert(one.drop_last() =~= Seq::empty());
    reveal_with_fuel(spoken, 2);
    assert(Seq::<char>::empty() + t =~= t);
}

} // verus!
