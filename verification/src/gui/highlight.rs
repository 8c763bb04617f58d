//! The editor's text in colours: runs of YAML, line by line.
use crate::gui::logs::{plain, span_views, spoken, Color, Span, SpanView};
use crate::text::{copy_text, same_text, split, split_char, texts};
use syntect::easy::HighlightLines;
use syntect::highlighting::ThemeSet;
use syntect::parsing::SyntaxSet;
use vstd::prelude::*;
use vstd::string::*;

verus! {

/// A piece of a line with its colour: red, green, blue and opacity.
pub type Piece = (String, (u8, u8, u8, u8));

/// The model of a `Piece`.
pub type PieceView = (Seq<char>, (u8, u8, u8, u8));

/// The models of the pieces of a line.
pub open spec fn piece_views(v: Seq<Piece>) -> Seq<PieceView> {
    v.map_values(|p: Piece| (p.0@, p.1))
}

/// The models of the pieces of lines; none for a line that was not coloured.
pub open spec fn line_views(v: Seq<Option<Vec<Piece>>>) -> Seq<Option<Seq<PieceView>>> {
    v.map_values(
        |l: Option<Vec<Piece>>|
            match l {
                Some(p) => Some(piece_views(p@)),
                None => None,
            },
    )
}

/// The pieces of lines, one after the other, under the syntax of an extension and in the
/// colours of a theme; none where there is no such syntax or theme, and none for a line that
/// cannot be coloured.
pub uninterp spec fn coloured(lines: Seq<Seq<char>>, extension: Seq<char>, theme: Seq<char>) -> Option<
    Seq<Option<Seq<PieceView>>>,
>;

/// `syntect::easy::HighlightLines::highlight_line`, line after line, with the syntax that
/// `SyntaxSet::find_syntax_by_extension` finds among the default ones and a default theme: the
/// pieces of each line with the colour of their foreground. They are a function of the lines,
/// the extension and the theme. That the pieces of a line make up the line is not claimed. Other
/// extensions are left out: a syntax may capture beyond what it matches, as that of YAML does
/// not, and the outside function then panics.
#[verifier::external_body]
fn colour_lines(lines: &Vec<String>, extension: &str, theme: &str) -> (r: Option<Vec<Option<Vec<Piece>>>>)
    requires
        extension@ == "yaml"@,
    ensures
        match r {
            Some(v) => coloured(texts(lines@), extension@, theme@) == Some(line_views(v@)),
            None => coloured(texts(lines@), extension@, theme@) is None,
        },
{
    let set = SyntaxSet::load_defaults_newlines();
    let themes = ThemeSet::load_defaults();
    let syntax = set.find_syntax_by_extension(extension)?;
    let mut painter = HighlightLines::new(syntax, themes.themes.get(theme)?);
    let mut out = Vec::new();
    for line in lines {
        let pieces = painter.highlight_line(line, &set).ok();
        out.push(pieces.map(|v| v.into_iter().map(|(style, text)| {
            let c = style.foreground;
            (text.to_string(), (c.r, c.g, c.b, c.a))
        }).collect()));
    }
    Some(out)
}

/// The lines of a text that are coloured: what stands between its line feeds, but nothing
/// after the last one.
pub open spec fn drawn_lines(text: Seq<char>) -> Seq<Seq<char>> {
    let p = split(text, '\n');
    if p.last().len() == 0 {
        p.drop_last()
    } else {
        p
    }
}

/// A piece as a run.
pub open spec fn piece_run(p: PieceView) -> SpanView {
    let (text, (r, g, b, a)) = p;
    plain(text, Color { r, g, b, a })
}

/// The pieces of a line as runs.
pub open spec fn piece_runs(p: Seq<PieceView>) -> Seq<SpanView> {
    p.map_values(|x: PieceView| piece_run(x))
}

/// The runs of a line: its pieces where they make up the line, else the line in one colour.
pub open spec fn line_runs(line: Seq<char>, pieces: Option<Seq<PieceView>>, fg: Color) -> Seq<SpanView> {
    if pieces matches Some(p) && spoken(piece_runs(p)) == line {
        piece_runs(pieces->0)
    } else if line.len() == 0 {
        Seq::empty()
    } else {
        seq![plain(line, fg)]
    }
}

/// The pieces of the line at a place.
pub open spec fn pieces_at(v: Seq<Option<Seq<PieceView>>>, i: int) -> Option<Seq<PieceView>> {
    if i < v.len() {
        v[i]
    } else {
        None
    }
}

/// The runs of the first `n` lines, of which the first `breaks` end in a line feed.
pub open spec fn runs(
    lines: Seq<Seq<char>>,
    pieces: Seq<Option<Seq<PieceView>>>,
    fg: Color,
    n: nat,
    breaks: nat,
) -> Seq<SpanView>
    decreases n,
{
    if n == 0 {
        Seq::empty()
    } else {
        let i = (n - 1) as nat;
        let before = runs(lines, pieces, fg, i, breaks) + line_runs(lines[i as int], pieces_at(pieces, i as int), fg);
        if i < breaks {
            before.push(plain(seq!['\n'], fg))
        } else {
            before
        }
    }
}

/// The runs of a text whose lines have these pieces.
pub open spec fn text_runs(text: Seq<char>, pieces: Seq<Option<Seq<PieceView>>>, fg: Color) -> Seq<SpanView> {
    let lines = drawn_lines(text);
    runs(lines, pieces, fg, lines.len(), (split(text, '\n').len() - 1) as nat)
}

/// The theme of the editor.
pub open spec fn theme_name(dark: bool) -> Seq<char> {
    if dark {
        "Solarized (dark)"@
    } else {
        "Solarized (light)"@
    }
}

/// The runs of a text as YAML.
pub open spec fn yaml_run_views(text: Seq<char>, dark: bool, fg: Color) -> Seq<SpanView> {
    match coloured(drawn_lines(text), "yaml"@, theme_name(dark)) {
        Some(pieces) => text_runs(text, pieces, fg),
        None => text_runs(text, Seq::empty(), fg),
    }
}

/// The first `n` lines as a text.
spec fn spelled(lines: Seq<Seq<char>>, n: nat, breaks: nat) -> Seq<char>
    decreases n,
{
    if n == 0 {
        Seq::empty()
    } else {
        let before = spelled(lines, (n - 1) as nat, breaks) + lines[n - 1];
        if n - 1 < breaks {
            before.push('\n')
        } else {
            before
        }
    }
}

proof fn lemma_spelled_alike(a: Seq<Seq<char>>, b: Seq<Seq<char>>, n: nat, x: nat, y: nat)
    requires
        n <= a.len(),
        n <= b.len(),
        n <= x,
        n <= y,
        forall|i: int| 0 <= i < n ==> #[trigger] a[i] == b[i],
    ensures
        spelled(a, n, x) == spelled(b, n, y),
    decreases n,
{
    if n > 0 {
        lemma_spelled_alike(a, b, (n - 1) as nat, x, y);
    }
}

proof fn lemma_split_spells(s: Seq<char>)
    ensures
        split(s, '\n').len() >= 1,
        spelled(split(s, '\n'), split(s, '\n').len(), (split(s, '\n').len() - 1) as nat) == s,
    decreases s.len(),
{
    let p = split(s, '\n');
    if s.len() == 0 {
        assert(spelled(p, 0, 0) =~= Seq::empty());
        assert(spelled(p, 1, 0) =~= s);
    } else {
        let q = split(s.drop_last(), '\n');
        lemma_split_spells(s.drop_last());
        let k = (q.len() - 1) as nat;
        if s.last() == '\n' {
            assert(p.len() == k + 2);
            lemma_spelled_alike(p, q, k, (k + 1) as nat, k);
            assert(p[k as int] == q[k as int]);
            assert(spelled(q, (k + 1) as nat, k) == spelled(q, k, k) + q[k as int]);
            assert(spelled(p, (k + 1) as nat, (k + 1) as nat) == (spelled(p, k, (k + 1) as nat) + p[k as int]).push(
                '\n',
            ));
            assert(spelled(p, (k + 2) as nat, (k + 1) as nat) =~= s.drop_last().push('\n'));
        } else {
            assert(p.len() == k + 1);
            lemma_spelled_alike(p, q, k, k, k);
            assert(spelled(q, (k + 1) as nat, k) == spelled(q, k, k) + q[k as int]);
            assert(spelled(p, (k + 1) as nat, k) =~= s.drop_last().push(s.last()));
        }
        assert(s =~= s.drop_last().push(s.last()));
    }
}

proof fn lemma_spoken_add(a: Seq<SpanView>, b: Seq<SpanView>)
    ensures
        spoken(a + b) == spoken(a) + spoken(b),
    decreases b.len(),
{
    if b.len() == 0 {
        assert(a + b =~= a);
    } else {
        lemma_spoken_add(a, b.drop_last());
        assert((a + b).drop_last() =~= a + b.drop_last());
        assert((a + b).last() == b.last());
    }
}

proof fn lemma_line_runs(line: Seq<char>, pieces: Option<Seq<PieceView>>, fg: Color)
    ensures
        spoken(line_runs(line, pieces, fg)) == line,
{
    let one = seq![plain(line, fg)];
    assert(one.drop_last() =~= Seq::empty());
    assert(spoken(Seq::<SpanView>::empty()) =~= Seq::<char>::empty());
    assert(spoken(one) =~= Seq::<char>::empty() + line);
    assert(Seq::<char>::empty() + line =~= line);
    assert(line.len() == 0 ==> line =~= Seq::empty());
}

proof fn lemma_runs_spell(
    lines: Seq<Seq<char>>,
    pieces: Seq<Option<Seq<PieceView>>>,
    fg: Color,
    n: nat,
    breaks: nat,
)
    requires
        n <= lines.len(),
    ensures
        spoken(runs(lines, pieces, fg, n, breaks)) == spelled(lines, n, breaks),
    decreases n,
{
    if n > 0 {
        let i = (n - 1) as nat;
        lemma_runs_spell(lines, pieces, fg, i, breaks);
        let before = runs(lines, pieces, fg, i, breaks);
        let here = line_runs(lines[i as int], pieces_at(pieces, i as int), fg);
        lemma_line_runs(lines[i as int], pieces_at(pieces, i as int), fg);
        lemma_spoken_add(before, here);
        let end = plain(seq!['\n'], fg);
        assert((before + here).push(end).drop_last() =~= before + here);
        assert(spoken(before + here) + seq!['\n'] =~= spoken(before + here).push('\n'));
    }
}

/// Whatever pieces its lines have, the runs of a text make up the text: a colour takes
/// nothing away from what is edited.
pub proof fn law_runs_spell(text: Seq<char>, pieces: Seq<Option<Seq<PieceView>>>, fg: Color)
    ensures
        spoken(text_runs(text, pieces, fg)) == text,
{
    let p = split(text, '\n');
    let lines = drawn_lines(text);
    lemma_split_spells(text);
    lemma_runs_spell(lines, pieces, fg, lines.len(), (p.len() - 1) as nat);
    if p.last().len() == 0 {
        lemma_spelled_alike(lines, p, lines.len(), (p.len() - 1) as nat, (p.len() - 1) as nat);
        assert(spelled(p, (p.len() - 1) as nat, (p.len() - 1) as nat) + p.last() =~= spelled(
            p,
            (p.len() - 1) as nat,
            (p.len() - 1) as nat,
        ));
    }
}

fn run(text: String, color: Color) -> (r: Span)
    ensures
        r@ == plain(text@, color),
{
    Span { text, color, underline: false }
}

fn push_line(out: &mut Vec<Span>, line: &String, pieces: Option<&Vec<Piece>>, fg: Color)
    ensures
        span_views(final(out)@) == span_views(old(out)@) + line_runs(
            line@,
            match pieces {
                Some(p) => Some(piece_views(p@)),
                None => None,
            },
            fg,
        ),
{
    let ghost before = span_views(old(out)@);
    if let Some(p) = pieces {
        let ghost all = piece_runs(piece_views(p@));
        let mut made: Vec<Span> = Vec::new();
        let mut words = String::new();
        let mut i: usize = 0;
        assert(span_views(made@) =~= all.take(0));
        while i < p.len()
            invariant
                i <= p.len(),
                all == piece_runs(piece_views(p@)),
                all.len() == p@.len(),
                span_views(made@) == all.take(i as int),
                words@ == spoken(all.take(i as int)),
            decreases p.len() - i,
        {
            let ghost so_far = span_views(made@);
            let (r, g, b, a) = p[i].1;
            let x = run(p[i].0.clone(), Color { r, g, b, a });
            assert(piece_views(p@)[i as int] == (p@[i as int].0@, p@[i as int].1));
            assert(x@ == all[i as int]);
            words.append(p[i].0.as_str());
            made.push(x);
            assert(span_views(made@) =~= so_far.push(all[i as int]));
            assert(all.take(i + 1) =~= all.take(i as int).push(all[i as int]));
            assert(all.take(i + 1).drop_last() =~= all.take(i as int));
            i += 1;
        }
        assert(all.take(all.len() as int) =~= all);
        if same_text(words.as_str(), line.as_str()) {
            let ghost added = span_views(made@);
            out.append(&mut made);
            assert(span_views(out@) =~= before + added);
            return;
        }
    }
    if line.as_str().unicode_len() == 0 {
        assert(span_views(out@) =~= before + Seq::<SpanView>::empty());
    } else {
        out.push(run(line.clone(), fg));
        assert(span_views(out@) =~= before + seq![plain(line@, fg)]);
    }
}

/// The runs of a text whose lines have these pieces. A line whose pieces do not make it up
/// stands in one colour.
pub fn runs_of(text: &str, pieces: &Vec<Option<Vec<Piece>>>, fg: Color) -> (r: Vec<Span>)
    ensures
        span_views(r@) == text_runs(text@, line_views(pieces@), fg),
        spoken(span_views(r@)) == text@,
{
    let lines = split_char(text, '\n');
    let ghost all = split(text@, '\n');
    let ghost drawn = drawn_lines(text@);
    let ghost views = line_views(pieces@);
    proof {
        lemma_split_spells(text@);
        law_runs_spell(text@, views, fg);
    }
    let breaks: usize = lines.len() - 1;
    let n: usize = if lines[breaks].as_str().unicode_len() == 0 {
        breaks
    } else {
        lines.len()
    };
    assert(texts(lines@)[breaks as int] == lines@[breaks as int]@);
    let mut out: Vec<Span> = Vec::new();
    let mut i: usize = 0;
    assert(span_views(out@) =~= Seq::empty());
    while i < n
        invariant
            i <= n <= lines@.len(),
            breaks == lines@.len() - 1,
            drawn.len() == n,
            views == line_views(pieces@),
            forall|k: int| 0 <= k < n ==> #[trigger] drawn[k] == lines@[k]@,
            span_views(out@) == runs(drawn, views, fg, i as nat, breaks as nat),
        decreases n - i,
    {
        let here = if i < pieces.len() {
            pieces[i].as_ref()
        } else {
            None
        };
        assert(views.len() == pieces@.len());
        assert(i < pieces@.len() ==> views[i as int] == match pieces@[i as int] {
            Some(p) => Some(piece_views(p@)),
            None => None,
        });
        push_line(&mut out, &lines[i], here, fg);
        if i < breaks {
            let ghost before = span_views(out@);
            let end = run(copy_text("\n"), fg);
            proof {
                reveal_strlit("\n");
                assert("\n"@ =~= seq!['\n']);
            }
            out.push(end);
            assert(span_views(out@) =~= before.push(plain(seq!['\n'], fg)));
        }
        i += 1;
    }
    out
}

/// The runs of a text as YAML, in the colours of the dark or the light theme. What is not
/// coloured, line feeds among it, has the colour of other text.
pub fn yaml_runs(text: &str, dark: bool, fg: Color) -> (r: Vec<Span>)
    ensures
        span_views(r@) == yaml_run_views(text@, dark, fg),
        spoken(span_views(r@)) == text@,
{
    let mut lines = split_char(text, '\n');
    let ghost all = split(text@, '\n');
    proof {
        lemma_split_spells(text@);
    }
    let last: usize = lines.len() - 1;
    assert(texts(lines@)[last as int] == lines@[last as int]@);
    if lines[last].as_str().unicode_len() == 0 {
        lines.pop();
        assert(texts(lines@) =~= all.drop_last());
    }
    let theme = if dark {
        "Solarized (dark)"
    } else {
        "Solarized (light)"
    };
    match colour_lines(&lines, "yaml", theme) {
        Some(pieces) => runs_of(text, &pieces, fg),
        None => {
            let none: Vec<Option<Vec<Piece>>> = Vec::new();
            assert(line_views(none@) =~= Seq::empty());
            runs_of(text, &none, fg)
        },
    }
}

/// A dark window is drawn in the dark theme, and a light one in the light theme; a line that the
/// colours do not spell is drawn as it is.
pub proof fn law_drawn_as_it_is(line: Seq<char>, fg: Color)
    ensures
        theme_name(true) == "Solarized (dark)"@,
        theme_name(false) == "Solarized (light)"@,
        line.len() > 0 ==> line_runs(line, None, fg) == seq![plain(line, fg)],
        line_runs(Seq::empty(), None, fg).len() == 0,
{
}

} // verus!
