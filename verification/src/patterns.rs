//! What a schema and a value may hold so that their patterns can be handed to the reader of
//! expressions that checks them.
use crate::json::{json_views, lemma_array_view, lemma_object_view, member_views, Json, JsonView, Num, NumView};
use crate::text::{digits_value, is_digit, parse_unsigned, same_text, sub_text, to_chars, unsigned_value};
use vstd::prelude::*;
use vstd::string::*;

verus! {

// ---------------------------------------------------------------------------
// Patterns

/// Whether a backslash in front of a place takes its meaning away.
pub open spec fn escaped(t: Seq<char>, i: int) -> bool
    decreases i,
{
    0 < i <= t.len() && t[i - 1] == '\\' && !escaped(t, i - 1)
}

/// Whether a text has some characters at a place.
pub open spec fn has_at(t: Seq<char>, i: int, a: char, b: char) -> bool {
    0 <= i && i + 1 < t.len() && t[i] == a && t[i + 1] == b
}

/// Whether a pattern asks a condition at a place, `(?(`, or refers to one of its groups:
/// `\1`, `\k`, `(?P=`. The name of a class of characters may take a backslash away from what
/// follows, `\p\`: what stands behind it counts as such too.
pub open spec fn refers_at(t: Seq<char>, i: int) -> bool {
    ||| has_at(t, i, '(', '?') && has_at(t, i + 1, '?', '(') && !escaped(t, i)
    ||| 0 <= i && i + 1 < t.len() && t[i] == '\\' && !escaped(t, i) && (is_digit(t[i + 1]) || t[i + 1] == 'k')
    ||| has_at(t, i, '?', 'P') && has_at(t, i + 1, 'P', '=')
    ||| (has_at(t, i, '\\', 'p') || has_at(t, i, '\\', 'P')) && !escaped(t, i) && i + 2 < t.len() && t[i + 2] == '\\'
}

/// Whether a comment begins at a place, or flags with the one that makes spaces and comments
/// part of a pattern that mean nothing.
pub open spec fn relaxes_from(t: Seq<char>, i: int) -> bool
    decreases t.len() - i,
{
    0 <= i < t.len() && (t[i] == 'x' || t[i] == '#' || ((t[i] == 'i' || t[i] == 'm' || t[i] == 's' || t[i] == 'U'
        || t[i] == 'u' || t[i] == '-') && relaxes_from(t, i + 1)))
}

/// Whether a pattern may hold comments or spaces that mean nothing from a place on.
pub open spec fn relaxes_at(t: Seq<char>, i: int) -> bool {
    has_at(t, i, '(', '?') && relaxes_from(t, i + 2)
}

/// Whether a count or, behind what means nothing, a condition may begin at a place.
pub open spec fn opens_at(t: Seq<char>, i: int) -> bool {
    (0 <= i < t.len() && t[i] == '{') || has_at(t, i, '?', '(')
}

/// Where the digits from a place on end.
pub open spec fn digits_end(t: Seq<char>, i: int) -> int
    decreases t.len() - i,
{
    if 0 <= i < t.len() && is_digit(t[i]) {
        digits_end(t, i + 1)
    } else {
        i
    }
}

/// How often something is repeated at least, by the count in front of a place; once where it
/// is not.
pub open spec fn count_before(t: Seq<char>, i: int) -> nat {
    if 0 < i <= t.len() && t[i - 1] == '{' {
        let n = digits_value(t.subrange(i, digits_end(t, i)));
        if n < 1 {
            1
        } else {
            n
        }
    } else {
        1
    }
}

/// The product of the counts in the first characters of a pattern.
pub open spec fn repeats(t: Seq<char>, n: nat) -> nat
    decreases n,
{
    if n == 0 || n > t.len() {
        1
    } else {
        repeats(t, (n - 1) as nat) * count_before(t, n as int)
    }
}

/// Whether a pattern asks no condition, refers to none of its groups, and repeats nothing
/// beyond measure.
pub open spec fn tame(t: Seq<char>) -> bool {
    &&& forall|i: int| 0 <= i < t.len() ==> !#[trigger] refers_at(t, i)
    &&& (exists|i: int| 0 <= i < t.len() && #[trigger] relaxes_at(t, i)) ==> forall|i: int|
        0 <= i < t.len() ==> !#[trigger] opens_at(t, i)
    &&& repeats(t, t.len()) <= 1_000_000
    &&& repeats(t, t.len()) * t.len() <= 2_000_000_000
}

fn has_here(v: &Vec<char>, i: usize, a: char, b: char) -> (r: bool)
    requires
        i <= v.len(),
    ensures
        r == has_at(v@, i as int, a, b),
{
    v.len() - i > 1 && v[i] == a && v[i + 1] == b
}

fn relaxes_here(v: &Vec<char>, from: usize) -> (r: bool)
    requires
        from <= v.len(),
    ensures
        r == relaxes_from(v@, from as int),
{
    let mut i: usize = from;
    while i < v.len()
        invariant
            from <= i <= v.len(),
            relaxes_from(v@, from as int) == relaxes_from(v@, i as int),
        decreases v.len() - i,
    {
        let c = v[i];
        if c == 'x' || c == '#' {
            return true;
        }
        if !(c == 'i' || c == 'm' || c == 's' || c == 'U' || c == 'u' || c == '-') {
            return false;
        }
        i += 1;
    }
    false
}

fn digit_here(c: char) -> (r: bool)
    ensures
        r == is_digit(c),
{
    '0' <= c && c <= '9'
}

proof fn lemma_repeats(t: Seq<char>, k: nat, n: nat)
    requires
        k <= n <= t.len(),
    ensures
        1 <= repeats(t, k) <= repeats(t, n),
    decreases n,
{
    if n > 0 {
        if k < n {
            lemma_repeats(t, k, (n - 1) as nat);
        } else {
            lemma_repeats(t, (k - 1) as nat, (n - 1) as nat);
        }
        let a = repeats(t, (n - 1) as nat);
        let b = count_before(t, n as int);
        assert(a <= a * b) by (nonlinear_arith)
            requires
                a >= 1,
                b >= 1,
        ;
    }
}

/// The product of the counts of a pattern, where it stays within measure.
fn count_repeats(v: &Vec<char>) -> (r: Option<u64>)
    ensures
        match r {
            Some(n) => n == repeats(v@, v@.len()) && n <= 1_000_000,
            None => repeats(v@, v@.len()) > 1_000_000,
        },
{
    let mut product: u64 = 1;
    let mut i: usize = 0;
    while i < v.len()
        invariant
            i <= v.len(),
            product == repeats(v@, i as nat),
            product <= 1_000_000,
        decreases v.len() - i,
    {
        let here = v[i];
        i += 1;
        if here == '{' {
            let mut end: usize = i;
            while end < v.len() && digit_here(v[end])
                invariant
                    i <= end <= v.len(),
                    digits_end(v@, i as int) == digits_end(v@, end as int),
                    forall|k: int| i <= k < end ==> is_digit(#[trigger] v@[k]),
                ensures
                    i <= end <= v.len(),
                    digits_end(v@, i as int) == end,
                    forall|k: int| i <= k < end ==> is_digit(#[trigger] v@[k]),
                decreases v.len() - end,
            {
                end += 1;
            }
            let digits = sub_text(v, i, end);
            assert(digits@ =~= v@.subrange(i as int, end as int));
            let ghost value = digits_value(digits@);
            assert(count_before(v@, i as int) == if value < 1 {
                1
            } else {
                value
            });
            if end > i {
                assert(digits@[0] == v@[i as int]);
                match parse_unsigned(digits.as_str(), 1_000_000) {
                    Some(n) => {
                        assert(n == value);
                        let times: u64 = if n < 1 {
                            1
                        } else {
                            n
                        };
                        assert(product * times <= 1_000_000 * 1_000_000) by (nonlinear_arith)
                            requires
                                product <= 1_000_000,
                                times <= 1_000_000,
                        ;
                        assert(repeats(v@, i as nat) == product * times);
                        product = product * times;
                    },
                    None => {
                        proof {
                            assert(value > 1_000_000);
                            lemma_repeats(v@, (i - 1) as nat, (i - 1) as nat);
                            lemma_repeats(v@, i as nat, v@.len());
                            assert(repeats(v@, i as nat) == product * value);
                            assert(product * value >= value) by (nonlinear_arith)
                                requires
                                    product >= 1,
                                    value >= 0,
                            ;
                        }
                        return None;
                    },
                }
            } else {
                assert(digits@ =~= Seq::empty());
                assert(repeats(v@, i as nat) == product * 1);
            }
            if product > 1_000_000 {
                proof {
                    lemma_repeats(v@, i as nat, v@.len());
                }
                return None;
            }
        } else {
            assert(repeats(v@, i as nat) == product * 1);
        }
    }
    Some(product)
}

/// Whether a pattern asks no condition, refers to none of its groups, and repeats nothing
/// beyond measure.
pub fn is_tame(t: &str) -> (r: bool)
    ensures
        r == tame(t@),
{
    let v = to_chars(t);
    let mut relaxed = false;
    let mut opened = false;
    let mut esc = false;
    let ghost mut relaxed_at: int = 0;
    let ghost mut opened_at: int = 0;
    let mut i: usize = 0;
    while i < v.len()
        invariant
            i <= v.len(),
            v@ == t@,
            esc == escaped(v@, i as int),
            forall|k: int| 0 <= k < i ==> !#[trigger] refers_at(v@, k),
            relaxed ==> 0 <= relaxed_at < i && relaxes_at(v@, relaxed_at),
            !relaxed ==> forall|k: int| 0 <= k < i ==> !#[trigger] relaxes_at(v@, k),
            opened ==> 0 <= opened_at < i && opens_at(v@, opened_at),
            !opened ==> forall|k: int| 0 <= k < i ==> !#[trigger] opens_at(v@, k),
        decreases v.len() - i,
    {
        let c = v[i];
        let condition = has_here(&v, i, '(', '?') && has_here(&v, i + 1, '?', '(') && !esc;
        let group = c == '\\' && !esc && v.len() - i > 1 && (digit_here(v[i + 1]) || v[i + 1] == 'k');
        let named = has_here(&v, i, '?', 'P') && has_here(&v, i + 1, 'P', '=');
        let class = (has_here(&v, i, '\\', 'p') || has_here(&v, i, '\\', 'P')) && !esc && v.len() - i > 2 && v[i + 2]
            == '\\';
        if condition || group || named || class {
            assert(refers_at(v@, i as int));
            return false;
        }
        assert(!refers_at(v@, i as int));
        if has_here(&v, i, '(', '?') && relaxes_here(&v, i + 2) {
            relaxed = true;
            proof {
                relaxed_at = i as int;
            }
        }
        if c == '{' || has_here(&v, i, '?', '(') {
            opened = true;
            proof {
                opened_at = i as int;
            }
        }
        esc = c == '\\' && !esc;
        i += 1;
    }
    if relaxed && opened {
        assert(relaxes_at(t@, relaxed_at) && opens_at(t@, opened_at));
        return false;
    }
    match count_repeats(&v) {
        Some(n) => {
            proof {
                lemma_repeats(v@, 0, v@.len());
            }
            let len: usize = v.len();
            if len > 2_000_000_000 {
                assert(n * len >= len) by (nonlinear_arith)
                    requires
                        n >= 1,
                        len >= 0,
                ;
                return false;
            }
            assert(n * len <= 1_000_000 * 2_000_000_000) by (nonlinear_arith)
                requires
                    n <= 1_000_000,
                    len <= 2_000_000_000,
            ;
            n * len as u64 <= 2_000_000_000
        },
        None => false,
    }
}

// ---------------------------------------------------------------------------
// Values

/// What is asked of a value and of everything in it.
#[derive(Debug, Clone, Copy, PartialEq, Eq, Structural)]
pub enum Ask {
    /// That the patterns of a schema are tame.
    Patterns,
    /// That every text and every name is a tame pattern.
    Texts,
    /// That a schema asks of no text to be a pattern.
    NoPatterns,
    /// That no number can be the zero below zero.
    Numbers,
}

/// Whether a number's text cannot be that of the zero below zero.
pub open spec fn no_minus_zero(t: Seq<char>) -> bool {
    &&& t.len() > 0
    &&& is_digit(t[0]) || {
        &&& t[0] == '-'
        &&& forall|i: int| 0 <= i < t.len() ==> #[trigger] t[i] != 'e' && t[i] != 'E'
        &&& exists|i: int| 0 <= i < t.len() && i < 300 && is_digit(#[trigger] t[i]) && t[i] != '0'
    }
}

/// Whether a member of a schema holds tame patterns only.
pub open spec fn member_tame(name: Seq<char>, x: JsonView) -> bool {
    &&& name == "pattern"@ ==> match x {
        JsonView::Str(t) => tame(t),
        _ => true,
    }
    &&& name == "patternProperties"@ ==> match x {
        JsonView::Object(d) => names_tame(d),
        _ => true,
    }
}

/// Whether the names of an object are tame patterns.
pub open spec fn names_tame(m: Seq<(Seq<char>, JsonView)>) -> bool {
    forall|i: int| 0 <= i < m.len() ==> tame((#[trigger] m[i]).0)
}

/// Whether what is asked holds of a value, whatever is in it.
pub open spec fn holds_here(ask: Ask, v: JsonView) -> bool {
    match ask {
        Ask::Patterns => v is Object ==> members_tame(v->Object_0),
        Ask::Texts => (v is Str ==> tame(v->Str_0)) && (v is Object ==> names_tame(v->Object_0)),
        Ask::NoPatterns => v is Object ==> asks_none(v->Object_0),
        Ask::Numbers => v matches JsonView::Number(NumView::Float(t)) ==> no_minus_zero(t),
    }
}

/// Whether the members of a schema hold tame patterns only.
pub open spec fn members_tame(m: Seq<(Seq<char>, JsonView)>) -> bool {
    forall|i: int| 0 <= i < m.len() ==> member_tame((#[trigger] m[i]).0, m[i].1)
}

/// Whether a schema does not ask of a text that it is a pattern.
pub open spec fn asks_none(m: Seq<(Seq<char>, JsonView)>) -> bool {
    forall|i: int| 0 <= i < m.len() ==> #[trigger] m[i] != ("format"@, JsonView::Str("regex"@))
}

/// Whether what is asked holds of a value and of everything in it.
pub open spec fn holds_all(ask: Ask, v: JsonView) -> bool
    decreases v,
{
    holds_here(ask, v) && match v {
        JsonView::Array(a) => forall|i: int| 0 <= i < a.len() ==> holds_all(ask, #[trigger] a[i]),
        JsonView::Object(m) => forall|i: int| 0 <= i < m.len() ==> holds_all(ask, (#[trigger] m[i]).1),
        _ => true,
    }
}

/// Whether the patterns of a schema, and of a value where the schema asks for them, are tame.
pub open spec fn all_tame(schema: JsonView, v: JsonView) -> bool {
    holds_all(Ask::Patterns, schema) && (holds_all(Ask::NoPatterns, schema) || holds_all(Ask::Texts, v))
}

fn names_here(m: &Vec<(String, Json)>) -> (r: bool)
    ensures
        r == names_tame(member_views(m@)),
{
    let ghost mv = member_views(m@);
    let mut i: usize = 0;
    while i < m.len()
        invariant
            i <= m.len(),
            mv == member_views(m@),
            mv.len() == m@.len(),
            forall|k: int| 0 <= k < i ==> tame((#[trigger] mv[k]).0),
        decreases m.len() - i,
    {
        assert(mv[i as int].0 == m@[i as int].0@);
        if !is_tame(m[i].0.as_str()) {
            return false;
        }
        i += 1;
    }
    true
}

fn member_here(name: &str, x: &Json) -> (r: bool)
    ensures
        r == member_tame(name@, x@),
{
    broadcast use {lemma_array_view, lemma_object_view};

    proof {
        reveal_strlit("pattern");
        reveal_strlit("patternProperties");
        assert("pattern"@.len() == 7);
        assert("patternProperties"@.len() == 17);
    }
    if same_text(name, "pattern") {
        match x {
            Json::Str(t) => is_tame(t.as_str()),
            _ => true,
        }
    } else if same_text(name, "patternProperties") {
        match x {
            Json::Object(d) => names_here(d),
            _ => true,
        }
    } else {
        true
    }
}

fn regex_format(name: &str, x: &Json) -> (r: bool)
    ensures
        r == ((name@, x@) == ("format"@, JsonView::Str("regex"@))),
{
    broadcast use {lemma_array_view, lemma_object_view};

    match x {
        Json::Str(t) => same_text(name, "format") && same_text(t.as_str(), "regex"),
        _ => false,
    }
}

fn number_here(t: &str) -> (r: bool)
    ensures
        r == no_minus_zero(t@),
{
    let v = to_chars(t);
    if v.len() == 0 {
        return false;
    }
    if digit_here(v[0]) {
        return true;
    }
    if v[0] != '-' {
        return false;
    }
    let mut found = false;
    let ghost mut at: int = 0;
    let mut i: usize = 0;
    while i < v.len()
        invariant
            i <= v.len(),
            v@ == t@,
            v@.len() > 0,
            !is_digit(v@[0]),
            v@[0] == '-',
            forall|k: int| 0 <= k < i ==> #[trigger] v@[k] != 'e' && v@[k] != 'E',
            found ==> 0 <= at < i && at < 300 && is_digit(v@[at]) && v@[at] != '0',
            !found ==> forall|k: int| 0 <= k < i && k < 300 ==> !(is_digit(#[trigger] v@[k]) && v@[k] != '0'),
        decreases v.len() - i,
    {
        let c = v[i];
        if c == 'e' || c == 'E' {
            assert(t@[i as int] == c);
            return false;
        }
        if i < 300 && digit_here(c) && c != '0' {
            found = true;
            proof {
                at = i as int;
            }
        }
        i += 1;
    }
    if found {
        assert(is_digit(t@[at]));
    }
    found
}

fn ask_members(ask: Ask, m: &Vec<(String, Json)>) -> (r: bool)
    ensures
        r == holds_here(ask, JsonView::Object(member_views(m@))),
{
    let ghost mv = member_views(m@);
    if ask == Ask::Texts {
        return names_here(m);
    }
    if ask == Ask::Numbers {
        return true;
    }
    let mut i: usize = 0;
    while i < m.len()
        invariant
            i <= m.len(),
            mv == member_views(m@),
            mv.len() == m@.len(),
            ask == Ask::Patterns || ask == Ask::NoPatterns,
            ask == Ask::Patterns ==> forall|k: int| 0 <= k < i ==> member_tame((#[trigger] mv[k]).0, mv[k].1),
            ask == Ask::NoPatterns ==> forall|k: int|
                0 <= k < i ==> #[trigger] mv[k] != ("format"@, JsonView::Str("regex"@)),
        decreases m.len() - i,
    {
        assert(mv[i as int] == (m@[i as int].0@, m@[i as int].1@));
        let name = m[i].0.as_str();
        let x = &m[i].1;
        if ask == Ask::Patterns {
            if !member_here(name, x) {
                assert(!member_tame(mv[i as int].0, mv[i as int].1));
                assert(!members_tame(mv));
                return false;
            }
        } else if regex_format(name, x) {
            assert(!asks_none(mv));
            return false;
        }
        i += 1;
    }
    true
}

/// Whether what is asked holds of a value and of everything in it.
pub fn ask_all(ask: Ask, v: &Json) -> (r: bool)
    ensures
        r == holds_all(ask, v@),
    decreases v,
{
    broadcast use {lemma_array_view, lemma_object_view};

    match v {
        Json::Str(t) => ask != Ask::Texts || is_tame(t.as_str()),
        Json::Number(Num::Float(t)) => ask != Ask::Numbers || number_here(t.as_str()),
        Json::Array(a) => {
            let ghost av = json_views(a@);
            let mut i: usize = 0;
            while i < a.len()
                invariant
                    i <= a.len(),
                    av == json_views(a@),
                    av.len() == a@.len(),
                    *v == Json::Array(*a),
                    v@ == JsonView::Array(av),
                    forall|k: int| 0 <= k < i ==> holds_all(ask, #[trigger] av[k]),
                decreases a.len() - i,
            {
                let x = &a[i];
                assert(av[i as int] == a@[i as int]@);
                if !ask_all(ask, x) {
                    assert(v@->Array_0[i as int] == av[i as int]);
                    assert(!holds_all(ask, v@->Array_0[i as int]));
                    return false;
                }
                i += 1;
            }
            true
        },
        Json::Object(m) => {
            let ghost mv = member_views(m@);
            if !ask_members(ask, m) {
                return false;
            }
            let mut i: usize = 0;
            while i < m.len()
                invariant
                    i <= m.len(),
                    mv == member_views(m@),
            mv.len() == m@.len(),
                    *v == Json::Object(*m),
                    v@ == JsonView::Object(mv),
                    holds_here(ask, v@),
                    forall|k: int| 0 <= k < i ==> holds_all(ask, (#[trigger] mv[k]).1),
                decreases m.len() - i,
            {
                let x = &m[i].1;
                assert(mv[i as int] == (m@[i as int].0@, m@[i as int].1@));
                if !ask_all(ask, x) {
                    return false;
                }
                i += 1;
            }
            true
        },
        _ => true,
    }
}

/// Whether the patterns of a schema, and of a value where the schema asks for them, are tame.
pub fn patterns_tame(schema: &Json, v: &Json) -> (r: bool)
    ensures
        r == all_tame(schema@, v@),
{
    ask_all(Ask::Patterns, schema) && (ask_all(Ask::NoPatterns, schema) || ask_all(Ask::Texts, v))
}

/// A pattern that refers back to what it matched is not tame.
pub proof fn law_back_reference(t: Seq<char>, i: int)
    requires
        0 <= i,
        i + 1 < t.len(),
        t[i] == '\\',
        is_digit(t[i + 1]),
        i == 0 || t[i - 1] != '\\',
    ensures
        !tame(t),
{
    assert(!escaped(t, i));
    assert(refers_at(t, i));
}

/// A pattern of letters alone is tame.
pub proof fn law_letters_are_tame(t: Seq<char>)
    requires
        forall|i: int| 0 <= i < t.len() ==> 'a' <= (#[trigger] t[i]) <= 'z',
        t.len() <= 2_000_000_000,
    ensures
        tame(t),
{
    assert forall|i: int| 0 <= i < t.len() implies !#[trigger] refers_at(t, i) by {
        assert('a' <= t[i] <= 'z');
    }
    assert forall|i: int| 0 <= i < t.len() implies !#[trigger] relaxes_at(t, i) by {
        assert('a' <= t[i] <= 'z');
    }
    lemma_no_repeats(t, t.len());
    assert(1 * t.len() == t.len());
}

proof fn lemma_no_repeats(t: Seq<char>, n: nat)
    requires
        forall|i: int| 0 <= i < t.len() ==> 'a' <= (#[trigger] t[i]) <= 'z',
        n <= t.len(),
    ensures
        repeats(t, n) == 1,
    decreases n,
{
    if n > 0 {
        lemma_no_repeats(t, (n - 1) as nat);
        assert('a' <= t[n - 1] <= 'z');
        assert(count_before(t, n as int) == 1);
    }
}

} // verus!
