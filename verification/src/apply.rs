//! Applying a manifest: what it targets, what it would change, and the outcome.
use crate::codec::{parse_yaml, uuid_bytes, uuid_read, yaml_read, YamlError, YamlErrorView};
use crate::json::{
    equal, insert_member, json_views, lemma_array_view, lemma_equal_self, lemma_lookup_push, lemma_object_view,
    lemma_with, lemma_without, lemma_without_swap, lookup, member_views, names_ascend, opt_str, owned, position,
    remove_member, with, without, Json, JsonView,
};
use crate::kubehub::{find_kind, kind_place, DiscoveredResource};
use crate::order::{codes, lemma_lex_irreflexive, lemma_lex_transitive, lemma_text_order, text_lt};
use crate::settings::{flag_setting, read_flag, read_setting, read_size, setting, setting_views, size_setting};
use crate::text::{
    cat2, cat3, cat5, copy_text, cut, dec, lemma_first_at, opt_text, same_text, split_once, string_or, text_or, to_bytes,
    usize_text,
};
use crate::types::{clone_option, Uid};
use vstd::arithmetic::div_mod::lemma_small_mod;
use vstd::prelude::*;
use vstd::string::*;
use vstd::utf8::encode_utf8;

verus! {

/// How many fields differ between two objects.
#[derive(Debug, Clone, Copy, PartialEq, Eq, Structural)]
pub struct DiffSummary {
    pub adds: usize,
    pub updates: usize,
    pub removes: usize,
}

impl Default for DiffSummary {
    fn default() -> (r: Self)
        ensures
            r == (DiffSummary { adds: 0, updates: 0, removes: 0 }),
    {
        DiffSummary { adds: 0, updates: 0, removes: 0 }
    }
}

/// The outcome of applying a manifest.
#[derive(Debug)]
pub struct ApplyResult {
    pub dry_run: bool,
    pub applied: bool,
    pub new_rv: Option<String>,
    pub warnings: Vec<String>,
    pub summary: DiffSummary,
}

// ---------------------------------------------------------------------------
// The size of a value

/// How many values a value holds, itself among them.
pub open spec fn nodes(v: JsonView) -> nat
    decreases v, 0nat,
{
    match v {
        JsonView::Array(a) => 1 + nodes_of(a, a.len()),
        JsonView::Object(m) => 1 + member_nodes(m, m.len()),
        _ => 1,
    }
}

/// How many values the first elements of a list hold.
pub open spec fn nodes_of(a: Seq<JsonView>, n: nat) -> nat
    decreases a, n,
{
    if n == 0 || n > a.len() {
        0
    } else {
        nodes_of(a, (n - 1) as nat) + nodes(a[n - 1])
    }
}

/// How many values the first members of an object hold.
pub open spec fn member_nodes(m: Seq<(Seq<char>, JsonView)>, n: nat) -> nat
    decreases m, n,
{
    if n == 0 || n > m.len() {
        0
    } else {
        member_nodes(m, (n - 1) as nat) + nodes(m[n - 1].1)
    }
}

/// A count that stops at a limit.
pub open spec fn capped(n: int, max: int) -> int {
    if n < max {
        n
    } else {
        max
    }
}

/// Count the values that a value holds, up to a limit.
fn count_nodes(v: &Json, cur: usize, max: usize) -> (r: usize)
    requires
        cur <= max,
    ensures
        r == capped(cur + nodes(v@), max as int),
    decreases v,
{
    broadcast use {lemma_array_view, lemma_object_view};

    if cur >= max {
        return cur;
    }
    let mut n: usize = cur + 1;
    match v {
        Json::Array(a) => {
            let ghost av = json_views(a@);
            let mut i: usize = 0;
            while i < a.len()
                invariant
                    i <= a.len(),
                    av == json_views(a@),
                    *v == Json::Array(*a),
                    v@ == JsonView::Array(av),
                    n <= max,
                    n == capped(cur + 1 + nodes_of(av, i as nat), max as int),
                decreases a.len() - i,
            {
                let x = &a[i];
                n = count_nodes(x, n, max);
                assert(av[i as int] == a@[i as int]@);
                i += 1;
            }
        },
        Json::Object(m) => {
            let ghost mv = member_views(m@);
            let mut i: usize = 0;
            while i < m.len()
                invariant
                    i <= m.len(),
                    mv == member_views(m@),
                    *v == Json::Object(*m),
                    v@ == JsonView::Object(mv),
                    n <= max,
                    n == capped(cur + 1 + member_nodes(mv, i as nat), max as int),
                decreases m.len() - i,
            {
                let x = &m[i].1;
                n = count_nodes(x, n, max);
                assert(mv[i as int] == (m@[i as int].0@, m@[i as int].1@));
                i += 1;
            }
        },
        _ => {},
    }
    n
}

/// Whether a value holds as many values as a limit, or more.
pub fn json_node_budget_exceeded(v: &Json, max: usize) -> (r: bool)
    ensures
        r == (nodes(v@) >= max),
{
    count_nodes(v, 0, max) >= max
}

// ---------------------------------------------------------------------------
// What differs

/// How many fields were added, changed and removed.
pub struct Counts {
    pub adds: nat,
    pub updates: nat,
    pub removes: nat,
}

/// Nothing differs.
pub open spec fn no_change() -> Counts {
    Counts { adds: 0, updates: 0, removes: 0 }
}

/// Two counts together.
pub open spec fn both(a: Counts, b: Counts) -> Counts {
    Counts { adds: a.adds + b.adds, updates: a.updates + b.updates, removes: a.removes + b.removes }
}

/// What differs between a target and a base. Members of objects are held against each
/// other by name, at any depth; elements of arrays by place, one deep; anything else is one
/// update where it differs.
pub open spec fn diff(a: JsonView, b: JsonView) -> Counts
    decreases a, 0nat,
{
    match (a, b) {
        (JsonView::Object(am), JsonView::Object(bm)) => both(
            member_diff(am, bm, am.len()),
            Counts { adds: 0, updates: 0, removes: absent(bm, am, bm.len()) },
        ),
        (JsonView::Array(aa), JsonView::Array(ba)) => Counts {
            adds: over(aa.len(), ba.len()),
            updates: unequal(aa, ba, least(aa.len(), ba.len())),
            removes: over(ba.len(), aa.len()),
        },
        _ => if equal(a, b) {
            no_change()
        } else {
            Counts { adds: 0, updates: 1, removes: 0 }
        },
    }
}

/// What differs in the first members of an object, held against another object.
pub open spec fn member_diff(am: Seq<(Seq<char>, JsonView)>, bm: Seq<(Seq<char>, JsonView)>, n: nat) -> Counts
    decreases am, n,
{
    if n == 0 || n > am.len() {
        no_change()
    } else {
        both(
            member_diff(am, bm, (n - 1) as nat),
            match lookup(bm, am[n - 1].0) {
                Some(bv) => if equal(am[n - 1].1, bv) {
                    no_change()
                } else {
                    diff(am[n - 1].1, bv)
                },
                None => Counts { adds: 1, updates: 0, removes: 0 },
            },
        )
    }
}

/// How many of the first members of an object another object does not have.
pub open spec fn absent(m: Seq<(Seq<char>, JsonView)>, other: Seq<(Seq<char>, JsonView)>, n: nat) -> nat
    decreases n,
{
    if n == 0 || n > m.len() {
        0
    } else {
        absent(m, other, (n - 1) as nat) + if lookup(other, m[n - 1].0) is None {
            1nat
        } else {
            0
        }
    }
}

/// How many of the first elements of two arrays differ.
pub open spec fn unequal(a: Seq<JsonView>, b: Seq<JsonView>, n: nat) -> nat
    decreases n,
{
    if n == 0 || n > a.len() || n > b.len() {
        0
    } else {
        unequal(a, b, (n - 1) as nat) + if equal(a[n - 1], b[n - 1]) {
            0nat
        } else {
            1
        }
    }
}

/// By how much a number is greater than another.
pub open spec fn over(a: nat, b: nat) -> nat {
    if a > b {
        (a - b) as nat
    } else {
        0
    }
}

/// The lesser of two numbers.
pub open spec fn least(a: nat, b: nat) -> nat {
    if a < b {
        a
    } else {
        b
    }
}

/// A count as a machine word holds it: it starts over at the word's end.
pub open spec fn word(n: nat) -> usize {
    (n % (usize::MAX + 1) as nat) as usize
}

/// A summary as machine words hold it.
pub open spec fn in_words(c: Counts) -> DiffSummary {
    DiffSummary { adds: word(c.adds), updates: word(c.updates), removes: word(c.removes) }
}

fn raise(n: usize, by: usize, Ghost(a): Ghost<nat>) -> (r: usize)
    requires
        n == word(a),
    ensures
        r == word(a + by as nat),
{
    proof {
        let m: int = usize::MAX + 1;
        let q = (a as int) / m;
        assert(a == q * m + (a as int) % m) by (nonlinear_arith)
            requires
                m > 0,
                q == (a as int) / m,
        ;
        if n + by < m {
            assert(a + by == q * m + (n + by));
            vstd::arithmetic::div_mod::lemma_fundamental_div_mod_converse(a + by, m, q, n + by);
        } else {
            assert(a + by == (q + 1) * m + (n + by - m)) by (nonlinear_arith)
                requires
                    a == q * m + n,
            ;
            vstd::arithmetic::div_mod::lemma_fundamental_div_mod_converse(a + by, m, q + 1, n + by - m);
        }
    }
    n.wrapping_add(by)
}

fn walk(a: &Json, b: &Json, s: &mut DiffSummary, Ghost(before): Ghost<Counts>)
    requires
        *old(s) == in_words(before),
    ensures
        *final(s) == in_words(both(before, diff(a@, b@))),
    decreases a,
{
    broadcast use {lemma_array_view, lemma_object_view};

    match (a, b) {
        (Json::Object(am), Json::Object(bm)) => {
            let ghost av = member_views(am@);
            let ghost bv = member_views(bm@);
            let mut i: usize = 0;
            assert(both(before, member_diff(av, bv, 0)) == before);
            while i < am.len()
                invariant
                    i <= am.len(),
                    *a == Json::Object(*am),
                    a@ == JsonView::Object(av),
                    av == member_views(am@),
                    bv == member_views(bm@),
                    *s == in_words(both(before, member_diff(av, bv, i as nat))),
                decreases am.len() - i,
            {
                let ghost so_far = both(before, member_diff(av, bv, i as nat));
                assert(av[i as int] == (am@[i as int].0@, am@[i as int].1@));
                let x = &am[i].1;
                match position(bm, am[i].0.as_str()) {
                    Some(j) => {
                        if !x.same(&bm[j].1) {
                            walk(x, &bm[j].1, s, Ghost(so_far));
                        }
                    },
                    None => {
                        s.adds = raise(s.adds, 1, Ghost(so_far.adds));
                    },
                }
                assert(*s == in_words(both(before, member_diff(av, bv, (i + 1) as nat))));
                i += 1;
            }
            let ghost added = both(before, member_diff(av, bv, av.len()));
            let mut j: usize = 0;
            while j < bm.len()
                invariant
                    j <= bm.len(),
                    av == member_views(am@),
                    bv == member_views(bm@),
                    *s == in_words(
                        (Counts { removes: (added.removes + absent(bv, av, j as nat)) as nat, ..added }),
                    ),
                decreases bm.len() - j,
            {
                assert(bv[j as int] == (bm@[j as int].0@, bm@[j as int].1@));
                if position(am, bm[j].0.as_str()).is_none() {
                    s.removes = raise(s.removes, 1, Ghost((added.removes + absent(bv, av, j as nat)) as nat));
                }
                j += 1;
            }
            assert(both(before, diff(a@, b@)) == (Counts {
                removes: (added.removes + absent(bv, av, bv.len())) as nat,
                ..added
            }));
        },
        (Json::Array(aa), Json::Array(ba)) => {
            let ghost av = json_views(aa@);
            let ghost bv = json_views(ba@);
            let n: usize = if aa.len() < ba.len() {
                aa.len()
            } else {
                ba.len()
            };
            let mut i: usize = 0;
            while i < n
                invariant
                    i <= n,
                    n <= aa.len(),
                    n <= ba.len(),
                    av == json_views(aa@),
                    bv == json_views(ba@),
                    *s == in_words(
                        (Counts { updates: (before.updates + unequal(av, bv, i as nat)) as nat, ..before }),
                    ),
                decreases n - i,
            {
                assert(av[i as int] == aa@[i as int]@ && bv[i as int] == ba@[i as int]@);
                if !aa[i].same(&ba[i]) {
                    s.updates = raise(s.updates, 1, Ghost((before.updates + unequal(av, bv, i as nat)) as nat));
                }
                i += 1;
            }
            if aa.len() > ba.len() {
                s.adds = raise(s.adds, aa.len() - ba.len(), Ghost(before.adds));
            }
            if ba.len() > aa.len() {
                s.removes = raise(s.removes, ba.len() - aa.len(), Ghost(before.removes));
            }
        },
        _ => {
            if !a.same(b) {
                s.updates = raise(s.updates, 1, Ghost(before.updates));
            }
        },
    }
}

/// What differs between a target and a base.
pub fn diff_summary(target: &Json, base: &Json) -> (r: DiffSummary)
    ensures
        r == in_words(diff(target@, base@)),
{
    let mut s = DiffSummary { adds: 0, updates: 0, removes: 0 };
    proof {
        lemma_small_mod(0, (usize::MAX + 1) as nat);
    }
    walk(target, base, &mut s, Ghost(no_change()));
    assert(both(no_change(), diff(target@, base@)) == diff(target@, base@));
    s
}

/// Where the target is the base, nothing differs.
pub proof fn law_diff_of_itself(v: JsonView)
    requires
        v.sorted(),
    ensures
        diff(v, v) == no_change(),
{
    match v {
        JsonView::Object(m) => {
            lemma_member_diff_self(m, m.len());
            lemma_absent_self(m, m.len());
        },
        JsonView::Array(a) => {
            lemma_unequal_self(a, a.len());
        },
        _ => {
            lemma_equal_self(v);
        },
    }
}

proof fn lemma_found(m: Seq<(Seq<char>, JsonView)>, i: int)
    requires
        names_ascend(m),
        0 <= i < m.len(),
    ensures
        lookup(m, m[i].0) == Some(m[i].1),
    decreases m.len(),
{
    if i > 0 {
        assert(text_lt(m[0].0, m[i].0));
        lemma_lex_irreflexive(codes(m[i].0));
        let rest = m.skip(1);
        assert forall|a: int, b: int| 0 <= a < b < rest.len() implies text_lt(
            #[trigger] rest[a].0,
            #[trigger] rest[b].0,
        ) by {
            assert(rest[a] == m[a + 1] && rest[b] == m[b + 1]);
        }
        lemma_found(rest, i - 1);
        assert(rest[i - 1] == m[i]);
    }
}

proof fn lemma_member_diff_self(m: Seq<(Seq<char>, JsonView)>, n: nat)
    requires
        names_ascend(m),
        n <= m.len(),
    ensures
        member_diff(m, m, n) == no_change(),
    decreases n,
{
    if n > 0 {
        lemma_member_diff_self(m, (n - 1) as nat);
        lemma_found(m, n - 1);
        lemma_equal_self(m[n - 1].1);
    }
}

proof fn lemma_absent_self(m: Seq<(Seq<char>, JsonView)>, n: nat)
    requires
        names_ascend(m),
        n <= m.len(),
    ensures
        absent(m, m, n) == 0,
    decreases n,
{
    if n > 0 {
        lemma_absent_self(m, (n - 1) as nat);
        lemma_found(m, n - 1);
    }
}

proof fn lemma_unequal_self(a: Seq<JsonView>, n: nat)
    requires
        n <= a.len(),
    ensures
        unequal(a, a, n) == 0,
    decreases n,
{
    if n > 0 {
        lemma_unequal_self(a, (n - 1) as nat);
        lemma_equal_self(a[n - 1]);
    }
}

// ---------------------------------------------------------------------------
// What the server fills in

/// The metadata without what the server fills in.
pub open spec fn stripped_metadata(v: JsonView) -> JsonView {
    match v {
        JsonView::Object(m) => JsonView::Object(
            without(
                without(without(without(m, "managedFields"@), "resourceVersion"@), "generation"@),
                "creationTimestamp"@,
            ),
        ),
        _ => v,
    }
}

/// The members of an object without what the server fills in.
pub open spec fn stripped_members(m: Seq<(Seq<char>, JsonView)>) -> Seq<(Seq<char>, JsonView)>
    decreases m.len(),
{
    if m.len() == 0 {
        Seq::empty()
    } else {
        let rest = stripped_members(m.drop_last());
        let x = m.last();
        if x.0 == "status"@ {
            rest
        } else if x.0 == "metadata"@ {
            rest.push((x.0, stripped_metadata(x.1)))
        } else {
            rest.push(x)
        }
    }
}

/// An object without what the server fills in: its status, and four fields of its metadata.
pub open spec fn stripped(v: JsonView) -> JsonView {
    match v {
        JsonView::Object(m) => JsonView::Object(stripped_members(m)),
        _ => v,
    }
}

fn strip_metadata(v: Json) -> (r: Json)
    ensures
        r@ == stripped_metadata(v@),
{
    broadcast use lemma_object_view;

    match v {
        Json::Object(m) => {
            let m = remove_member(m, "managedFields");
            let m = remove_member(m, "resourceVersion");
            let m = remove_member(m, "generation");
            let m = remove_member(m, "creationTimestamp");
            Json::Object(m)
        },
        v => v,
    }
}

/// An object without what the server fills in.
pub fn strip_noisy(v: Json) -> (r: Json)
    ensures
        r@ == stripped(v@),
{
    broadcast use lemma_object_view;

    match v {
        Json::Object(m) => {
            let ghost all = member_views(m@);
            let ghost items = m@;
            let mut out: Vec<(String, Json)> = Vec::new();
            assert(all.take(0) =~= Seq::empty());
            assert(member_views(out@) =~= Seq::empty());
            for x in it: m
                invariant
                    it.seq() == items,
                    all == member_views(items),
                    member_views(out@) == stripped_members(all.take(it.index() as int)),
            {
                let ghost i = it.index() as int;
                assert(all.take(i + 1).drop_last() =~= all.take(i));
                assert(all.take(i + 1).last() == (x.0@, x.1@));
                let ghost before = member_views(out@);
                if !same_text(x.0.as_str(), "status") {
                    let (name, value) = x;
                    let kept = if same_text(name.as_str(), "metadata") {
                        strip_metadata(value)
                    } else {
                        value
                    };
                    out.push((name, kept));
                    assert(member_views(out@) =~= before.push((name@, kept@)));
                }
            }
            assert(all.take(all.len() as int) =~= all);
            Json::Object(out)
        },
        v => v,
    }
}

proof fn lemma_stripped_metadata_again(v: JsonView)
    ensures
        stripped_metadata(stripped_metadata(v)) == stripped_metadata(v),
{
    if let JsonView::Object(m) = v {
        let (a, b, c, d) = ("managedFields"@, "resourceVersion"@, "generation"@, "creationTimestamp"@);
        let m1 = without(m, a);
        let m2 = without(m1, b);
        let m3 = without(m2, c);
        let m4 = without(m3, d);
        lemma_without(m, a, a);
        lemma_without(m1, b, b);
        lemma_without(m2, c, c);
        lemma_without(m3, d, d);
        lemma_without_swap(m3, d, a);
        lemma_without_swap(m2, c, a);
        lemma_without_swap(m1, b, a);
        lemma_without_swap(m3, d, b);
        lemma_without_swap(m2, c, b);
        lemma_without_swap(m3, d, c);
        assert(without(m4, a) == m4);
        assert(without(m4, b) == m4);
        assert(without(m4, c) == m4);
        assert(without(m4, d) == m4);
    }
}

/// Stripping an object twice is stripping it once.
pub proof fn law_strip_again(v: JsonView)
    ensures
        stripped(stripped(v)) == stripped(v),
{
    if let JsonView::Object(m) = v {
        lemma_strip_members_again(m);
    }
}

proof fn lemma_strip_members_again(m: Seq<(Seq<char>, JsonView)>)
    ensures
        stripped_members(stripped_members(m)) == stripped_members(m),
    decreases m.len(),
{
    if m.len() > 0 {
        let x = m.last();
        lemma_strip_members_again(m.drop_last());
        let rest = stripped_members(m.drop_last());
        if x.0 != "status"@ {
            lemma_stripped_metadata_again(x.1);
            let y = if x.0 == "metadata"@ {
                (x.0, stripped_metadata(x.1))
            } else {
                x
            };
            assert(rest.push(y).drop_last() =~= rest);
        }
    }
}

/// Whether the names of members all come before a name.
pub open spec fn all_before(m: Seq<(Seq<char>, JsonView)>, name: Seq<char>) -> bool {
    forall|i: int| 0 <= i < m.len() ==> text_lt((#[trigger] m[i]).0, name)
}

/// Whether members ascend and hold values whose objects do.
pub open spec fn members_sorted(m: Seq<(Seq<char>, JsonView)>) -> bool {
    &&& names_ascend(m)
    &&& forall|i: int| 0 <= i < m.len() ==> (#[trigger] m[i]).1.sorted()
}

proof fn lemma_without_sorted(m: Seq<(Seq<char>, JsonView)>, key: Seq<char>)
    requires
        members_sorted(m),
    ensures
        members_sorted(without(m, key)),
        forall|name: Seq<char>| #![auto] all_before(m, name) ==> all_before(without(m, key), name),
    decreases m.len(),
{
    if m.len() > 0 {
        let first = m.drop_last();
        assert forall|i: int| 0 <= i < first.len() implies (#[trigger] first[i]).1.sorted() by {
            assert(first[i] == m[i]);
        }
        lemma_without_sorted(first, key);
        assert(all_before(first, m.last().0)) by {
            assert forall|i: int| 0 <= i < first.len() implies text_lt((#[trigger] first[i]).0, m.last().0) by {
                assert(first[i] == m[i]);
            }
        }
        assert forall|name: Seq<char>| #![auto] all_before(m, name) implies all_before(without(m, key), name) by {
            assert forall|i: int| 0 <= i < first.len() implies text_lt((#[trigger] first[i]).0, name) by {
                assert(first[i] == m[i]);
            }
            assert(text_lt(m[m.len() - 1].0, name));
            assert(all_before(first, name));
        }
    }
}

proof fn lemma_stripped_sorted(m: Seq<(Seq<char>, JsonView)>)
    requires
        members_sorted(m),
    ensures
        members_sorted(stripped_members(m)),
        forall|name: Seq<char>| #![auto] all_before(m, name) ==> all_before(stripped_members(m), name),
    decreases m.len(),
{
    if m.len() > 0 {
        let first = m.drop_last();
        let x = m.last();
        assert forall|i: int| 0 <= i < first.len() implies (#[trigger] first[i]).1.sorted() by {
            assert(first[i] == m[i]);
        }
        lemma_stripped_sorted(first);
        assert(all_before(first, x.0)) by {
            assert forall|i: int| 0 <= i < first.len() implies text_lt((#[trigger] first[i]).0, x.0) by {
                assert(first[i] == m[i]);
            }
        }
        assert(m[m.len() - 1].1.sorted());
        assert(stripped_metadata(x.1).sorted()) by {
            if let JsonView::Object(d) = x.1 {
                let d1 = without(d, "managedFields"@);
                let d2 = without(d1, "resourceVersion"@);
                let d3 = without(d2, "generation"@);
                lemma_without_sorted(d, "managedFields"@);
                lemma_without_sorted(d1, "resourceVersion"@);
                lemma_without_sorted(d2, "generation"@);
                lemma_without_sorted(d3, "creationTimestamp"@);
            }
        }
        assert forall|name: Seq<char>| #![auto] all_before(m, name) implies all_before(
            stripped_members(m),
            name,
        ) by {
            assert forall|i: int| 0 <= i < first.len() implies text_lt((#[trigger] first[i]).0, name) by {
                assert(first[i] == m[i]);
            }
            assert(text_lt(m[m.len() - 1].0, name));
            assert(all_before(first, name));
        }
    }
}

/// What was read stays in order when it is stripped, so that the laws of a comparison hold of
/// stripped objects too.
pub proof fn law_strip_keeps_order(v: JsonView)
    requires
        v.sorted(),
    ensures
        stripped(v).sorted(),
{
    if let JsonView::Object(m) = v {
        lemma_stripped_sorted(m);
    }
}

proof fn lemma_stripped_lookup(m: Seq<(Seq<char>, JsonView)>, key: Seq<char>)
    ensures
        lookup(stripped_members(m), key) == (if key == "status"@ {
            None
        } else {
            match lookup(m, key) {
                Some(v) => Some(
                    if key == "metadata"@ {
                        stripped_metadata(v)
                    } else {
                        v
                    },
                ),
                None => None,
            }
        }),
    decreases m.len(),
{
    if m.len() > 0 {
        let x = m.last();
        let rest = stripped_members(m.drop_last());
        lemma_stripped_lookup(m.drop_last(), key);
        assert(m =~= m.drop_last().push(x));
        lemma_lookup_push(m.drop_last(), x, key);
        lemma_lookup_push(rest, x, key);
        lemma_lookup_push(rest, (x.0, stripped_metadata(x.1)), key);
    }
}

/// A stripped object has no status, and its metadata has none of the four fields that the
/// server fills in; every other field stands as before.
pub proof fn law_strip_takes(v: JsonView, key: Seq<char>)
    ensures
        stripped(v).get("status"@) is None,
        stripped(v).get2("metadata"@, "managedFields"@) is None,
        stripped(v).get2("metadata"@, "resourceVersion"@) is None,
        stripped(v).get2("metadata"@, "generation"@) is None,
        stripped(v).get2("metadata"@, "creationTimestamp"@) is None,
        key != "status"@ && key != "metadata"@ ==> stripped(v).get(key) == v.get(key),
        key != "managedFields"@ && key != "resourceVersion"@ && key != "generation"@ && key
            != "creationTimestamp"@ ==> stripped(v).get2("metadata"@, key) == v.get2("metadata"@, key),
{
    if let JsonView::Object(m) = v {
        lemma_stripped_lookup(m, "status"@);
        lemma_stripped_lookup(m, "metadata"@);
        lemma_stripped_lookup(m, key);
        reveal_strlit("status");
        reveal_strlit("metadata");
        reveal_strlit("managedFields");
        reveal_strlit("resourceVersion");
        reveal_strlit("generation");
        reveal_strlit("creationTimestamp");
        if let Some(JsonView::Object(mm)) = lookup(m, "metadata"@) {
            let (a, b, c, d) = ("managedFields"@, "resourceVersion"@, "generation"@, "creationTimestamp"@);
            assert(a.len() == 13 && b.len() == 15 && c.len() == 10 && d.len() == 17);
            let m1 = without(mm, a);
            let m2 = without(m1, b);
            let m3 = without(m2, c);
            lemma_without(mm, a, key);
            lemma_without(m1, b, key);
            lemma_without(m2, c, key);
            lemma_without(m3, d, key);
            lemma_without(m1, b, a);
            lemma_without(m2, c, a);
            lemma_without(m3, d, a);
            lemma_without(m2, c, b);
            lemma_without(m3, d, b);
            lemma_without(m3, d, c);
            if key != a && key != b && key != c && key != d {
                assert(lookup(without(m3, d), key) == lookup(mm, key));
            }
        }
        assert("status"@.len() == 6 && "metadata"@.len() == 8);
    }
}

/// Metadata with a name, and a namespace where there is one.
pub open spec fn named_metadata(
    m: Seq<(Seq<char>, JsonView)>,
    name: Seq<char>,
    ns: Option<Seq<char>>,
) -> Seq<(Seq<char>, JsonView)> {
    let a = with(m, "name"@, JsonView::Str(name));
    match ns {
        Some(n) => with(a, "namespace"@, JsonView::Str(n)),
        None => a,
    }
}

/// An object that is given a name, and a namespace where there is one. Metadata that is no
/// object stays.
pub open spec fn named_object(
    m: Seq<(Seq<char>, JsonView)>,
    name: Seq<char>,
    ns: Option<Seq<char>>,
) -> Seq<(Seq<char>, JsonView)> {
    match lookup(m, "metadata"@) {
        Some(JsonView::Object(mm)) => with(m, "metadata"@, JsonView::Object(named_metadata(mm, name, ns))),
        Some(_) => m,
        None => with(m, "metadata"@, JsonView::Object(named_metadata(Seq::empty(), name, ns))),
    }
}

/// Give an object a name, and a namespace where there is one.
pub fn ensure_metadata(v: Json, name: &str, ns: Option<&str>) -> (r: Json)
    requires
        v is Object,
    ensures
        v@ matches JsonView::Object(m) && r@ == JsonView::Object(named_object(m, name@, opt_str(ns))),
{
    broadcast use lemma_object_view;

    match v {
        Json::Object(m) => {
            let old = match position(&m, "metadata") {
                Some(i) => match &m[i].1 {
                    Json::Object(_) => {
                        match m[i].1.copy() {
                            Json::Object(mm) => mm,
                            _ => Vec::new(),
                        }
                    },
                    _ => {
                        return Json::Object(m);
                    },
                },
                None => Vec::new(),
            };
            assert(lookup(member_views(m@), "metadata"@) is None ==> member_views(old@) =~= Seq::empty());
            let mut mm = insert_member(old, copy_text("name"), Json::Str(copy_text(name)));
            if let Some(n) = ns {
                mm = insert_member(mm, copy_text("namespace"), Json::Str(copy_text(n)));
            }
            let out = insert_member(m, copy_text("metadata"), Json::Object(mm));
            Json::Object(out)
        },
        v => v,
    }
}

/// An object that was given a name and a namespace has them, unless its metadata is no object.
pub proof fn law_named(m: Seq<(Seq<char>, JsonView)>, name: Seq<char>, ns: Option<Seq<char>>)
    requires
        lookup(m, "metadata"@) matches Some(v) ==> v is Object,
    ensures
        JsonView::Object(named_object(m, name, ns)).str_of2("metadata"@, "name"@) == Some(name),
        ns is Some ==> JsonView::Object(named_object(m, name, ns)).str_of2("metadata"@, "namespace"@) == ns,
{
    let mm = match lookup(m, "metadata"@) {
        Some(JsonView::Object(x)) => x,
        _ => Seq::empty(),
    };
    let a = with(mm, "name"@, JsonView::Str(name));
    reveal_strlit("name");
    reveal_strlit("namespace");
    assert("name"@.len() == 4 && "namespace"@.len() == 9);
    lemma_with(mm, "name"@, JsonView::Str(name), "name"@);
    if let Some(n) = ns {
        lemma_with(a, "namespace"@, JsonView::Str(n), "name"@);
    }
    lemma_with(m, "metadata"@, JsonView::Object(named_metadata(mm, name, ns)), "metadata"@);
}
// ---------------------------------------------------------------------------
// The target of a manifest

/// How large a manifest may be: its bytes, and the values in it.
#[derive(Debug, Clone, Copy, PartialEq, Eq, Structural)]
pub struct YamlLimits {
    pub bytes: usize,
    pub nodes: usize,
}

impl Default for YamlLimits {
    fn default() -> (r: Self)
        ensures
            r == (YamlLimits { bytes: 1_000_000, nodes: 100_000 }),
    {
        YamlLimits { bytes: 1_000_000, nodes: 100_000 }
    }
}

/// The limits that settings ask for.
pub fn read_limits(env: &Vec<(String, String)>) -> (r: YamlLimits)
    ensures
        r.bytes == size_setting(setting_views(env@), "ORKA_MAX_YAML_BYTES"@, 1_000_000),
        r.nodes == size_setting(setting_views(env@), "ORKA_MAX_YAML_NODES"@, 100_000),
{
    YamlLimits {
        bytes: read_size(env, "ORKA_MAX_YAML_BYTES", 1_000_000),
        nodes: read_size(env, "ORKA_MAX_YAML_NODES", 100_000),
    }
}

/// Why a manifest has no target.
pub enum TargetError {
    TooLarge(usize),
    Parse(String),
    Convert(String),
    TooComplex(usize),
    NoApiVersion,
    NoKind,
    NoName,
}

/// The model of a `TargetError`.
pub enum TargetErrorView {
    TooLarge(usize),
    Parse(Seq<char>),
    Convert(Seq<char>),
    TooComplex(usize),
    NoApiVersion,
    NoKind,
    NoName,
}

impl View for TargetError {
    type V = TargetErrorView;

    open spec fn view(&self) -> TargetErrorView {
        match self {
            TargetError::TooLarge(n) => TargetErrorView::TooLarge(*n),
            TargetError::Parse(s) => TargetErrorView::Parse(s@),
            TargetError::Convert(s) => TargetErrorView::Convert(s@),
            TargetError::TooComplex(n) => TargetErrorView::TooComplex(*n),
            TargetError::NoApiVersion => TargetErrorView::NoApiVersion,
            TargetError::NoKind => TargetErrorView::NoKind,
            TargetError::NoName => TargetErrorView::NoName,
        }
    }
}

/// What is said where a manifest has no target.
pub open spec fn target_error_text(e: TargetErrorView) -> Seq<char> {
    match e {
        TargetErrorView::TooLarge(n) => "YAML payload too large (>"@ + dec(n as nat) + " bytes)"@,
        TargetErrorView::Parse(_) => "parsing YAML"@,
        TargetErrorView::Convert(_) => "converting YAML to JSON"@,
        TargetErrorView::TooComplex(n) => "YAML document too complex (>"@ + dec(n as nat) + " nodes)"@,
        TargetErrorView::NoApiVersion => "YAML missing apiVersion"@,
        TargetErrorView::NoKind => "YAML missing kind"@,
        TargetErrorView::NoName => "YAML missing metadata.name"@,
    }
}

impl TargetError {
    /// What is said of the error.
    pub fn text(&self) -> (r: String)
        ensures
            r@ == target_error_text(self@),
    {
        match self {
            TargetError::TooLarge(n) => {
                let t = usize_text(*n);
                cat3("YAML payload too large (>", t.as_str(), " bytes)")
            },
            TargetError::Parse(_) => copy_text("parsing YAML"),
            TargetError::Convert(_) => copy_text("converting YAML to JSON"),
            TargetError::TooComplex(n) => {
                let t = usize_text(*n);
                cat3("YAML document too complex (>", t.as_str(), " nodes)")
            },
            TargetError::NoApiVersion => copy_text("YAML missing apiVersion"),
            TargetError::NoKind => copy_text("YAML missing kind"),
            TargetError::NoName => copy_text("YAML missing metadata.name"),
        }
    }
}

/// What a manifest targets: the manifest itself, its kind, its name and its namespace.
pub struct Target {
    pub json: Json,
    pub group: String,
    pub version: String,
    pub kind: String,
    pub name: String,
    pub namespace: Option<String>,
}

/// The model of a `Target`.
pub struct TargetView {
    pub json: JsonView,
    pub group: Seq<char>,
    pub version: Seq<char>,
    pub kind: Seq<char>,
    pub name: Seq<char>,
    pub namespace: Option<Seq<char>>,
}

impl View for Target {
    type V = TargetView;

    open spec fn view(&self) -> TargetView {
        TargetView {
            json: self.json@,
            group: self.group@,
            version: self.version@,
            kind: self.kind@,
            name: self.name@,
            namespace: opt_text(self.namespace),
        }
    }
}

/// The group and the version that an API version names; the core group has no name.
pub open spec fn group_version(s: Seq<char>) -> (Seq<char>, Seq<char>) {
    match cut(s, '/') {
        Some(p) => p,
        None => (Seq::empty(), s),
    }
}

/// What a manifest that was read targets. The namespace is its own; the one asked for is
/// used where the manifest names none.
pub open spec fn target_in(
    json: JsonView,
    ns: Option<Seq<char>>,
    max_nodes: usize,
) -> Result<TargetView, TargetErrorView> {
    if nodes(json) >= max_nodes {
        Err(TargetErrorView::TooComplex(max_nodes))
    } else {
        match json.str_of("apiVersion"@) {
            None => Err(TargetErrorView::NoApiVersion),
            Some(api) => match json.str_of("kind"@) {
                None => Err(TargetErrorView::NoKind),
                Some(kind) => match json.str_of2("metadata"@, "name"@) {
                    None => Err(TargetErrorView::NoName),
                    Some(name) => Ok(
                        TargetView {
                            json,
                            group: group_version(api).0,
                            version: group_version(api).1,
                            kind,
                            name,
                            namespace: match json.str_of2("metadata"@, "namespace"@) {
                                Some(n) => Some(n),
                                None => ns,
                            },
                        },
                    ),
                },
            },
        }
    }
}

/// What a manifest targets.
pub open spec fn target_of(
    yaml: Seq<char>,
    ns: Option<Seq<char>>,
    limits: YamlLimits,
) -> Result<TargetView, TargetErrorView> {
    if encode_utf8(yaml).len() > limits.bytes {
        Err(TargetErrorView::TooLarge(limits.bytes))
    } else {
        match yaml_read(yaml) {
            Err(YamlErrorView::Parse(s)) => Err(TargetErrorView::Parse(s)),
            Err(YamlErrorView::Convert(s)) => Err(TargetErrorView::Convert(s)),
            Ok(json) => target_in(json, ns, limits.nodes),
        }
    }
}

/// The model of a target or of an error.
pub open spec fn target_result(r: Result<Target, TargetError>) -> Result<TargetView, TargetErrorView> {
    match r {
        Ok(t) => Ok(t@),
        Err(e) => Err(e@),
    }
}

/// What a manifest that was read targets.
pub fn target_of_value(json: Json, ns_override: Option<&str>, max_nodes: usize) -> (r: Result<Target, TargetError>)
    ensures
        target_result(r) == target_in(json@, opt_str(ns_override), max_nodes),
{
    if json_node_budget_exceeded(&json, max_nodes) {
        return Err(TargetError::TooComplex(max_nodes));
    }
    let api = match json.str_of("apiVersion") {
        Some(s) => copy_text(s),
        None => {
            return Err(TargetError::NoApiVersion);
        },
    };
    let kind = match json.str_of("kind") {
        Some(s) => copy_text(s),
        None => {
            return Err(TargetError::NoKind);
        },
    };
    let (group, version) = match split_once(api.as_str(), '/') {
        Some(p) => p,
        None => (copy_text(""), api),
    };
    proof {
        reveal_strlit("");
        assert(""@ =~= Seq::empty());
    }
    let name = match json.str_of2("metadata", "name") {
        Some(s) => copy_text(s),
        None => {
            return Err(TargetError::NoName);
        },
    };
    let namespace = match json.str_of2("metadata", "namespace") {
        Some(n) => Some(copy_text(n)),
        None => owned(ns_override),
    };
    Ok(Target { json, group, version, kind, name, namespace })
}

/// What a manifest targets. The manifest is a YAML text.
pub fn parse_yaml_for_target(
    yaml: &str,
    ns_override: Option<&str>,
    limits: &YamlLimits,
) -> (r: Result<Target, TargetError>)
    ensures
        target_result(r) == target_of(yaml@, opt_str(ns_override), *limits),
{
    if to_bytes(yaml).len() > limits.bytes {
        return Err(TargetError::TooLarge(limits.bytes));
    }
    match parse_yaml(yaml) {
        Ok(json) => target_of_value(json, ns_override, limits.nodes),
        Err(YamlError::Parse(s)) => Err(TargetError::Parse(s)),
        Err(YamlError::Convert(s)) => Err(TargetError::Convert(s)),
    }
}

/// The namespace asked for never overrules the one that the manifest names.
pub proof fn law_own_namespace_wins(json: JsonView, ns: Option<Seq<char>>, max_nodes: usize)
    requires
        json.str_of2("metadata"@, "namespace"@) is Some,
    ensures
        target_in(json, ns, max_nodes) == target_in(json, None, max_nodes),
        target_in(json, ns, max_nodes) matches Ok(t) ==> t.namespace == json.str_of2("metadata"@, "namespace"@),
{
}

/// A target is an object: it has the fields that name it.
pub proof fn law_target_is_object(json: JsonView, ns: Option<Seq<char>>, max_nodes: usize)
    ensures
        target_in(json, ns, max_nodes) matches Ok(t) ==> t.json is Object && t.json.str_of2(
            "metadata"@,
            "name"@,
        ) == Some(t.name),
{
}

/// The identity that a text names.
pub fn parse_uid(uid_str: &str) -> (r: Option<Uid>)
    ensures
        match r {
            Some(u) => uuid_read(uid_str@) == Some(u@),
            None => uuid_read(uid_str@) is None,
        },
{
    match uuid_bytes(uid_str) {
        Ok(u) => Some(u),
        Err(_) => None,
    }
}

// ---------------------------------------------------------------------------
// Edits

/// Why an edit failed.
pub enum ApplyError {
    Target(TargetError),
    NotFound { group: String, version: String, kind: String },
    NamespaceRequired,
    DryRun(String),
    Stale { before: String, now: String },
    Apply(String),
    NoUid,
    BadUid,
}

/// What is said where an edit failed.
pub open spec fn apply_error_text(e: ApplyError) -> Seq<char> {
    match e {
        ApplyError::Target(t) => target_error_text(t@),
        ApplyError::NotFound { group, version, kind } => "GVK not found: "@ + group@ + "/"@ + version@ + "/"@
            + kind@,
        ApplyError::NamespaceRequired => "namespace required for namespaced kind"@,
        ApplyError::DryRun(s) => "dry-run failed: "@ + s@,
        ApplyError::Stale { before, now } => "live object changed (rv "@ + before@ + " -> "@ + now@
            + ") during apply; re-run diff/dry-run and try again"@,
        ApplyError::Apply(s) => "server-side apply failed: "@ + s@,
        ApplyError::NoUid => "applied object missing metadata.uid"@,
        ApplyError::BadUid => "parsing metadata.uid as uuid"@,
    }
}

impl ApplyError {
    /// What is said of the error.
    pub fn text(&self) -> (r: String)
        ensures
            r@ == apply_error_text(*self),
    {
        match self {
            ApplyError::Target(t) => t.text(),
            ApplyError::NotFound { group, version, kind } => {
                let mut t = cat5("GVK not found: ", group.as_str(), "/", version.as_str(), "/");
                t.append(kind.as_str());
                t
            },
            ApplyError::NamespaceRequired => copy_text("namespace required for namespaced kind"),
            ApplyError::DryRun(s) => cat2("dry-run failed: ", s.as_str()),
            ApplyError::Stale { before, now } => cat5(
                "live object changed (rv ",
                before.as_str(),
                " -> ",
                now.as_str(),
                ") during apply; re-run diff/dry-run and try again",
            ),
            ApplyError::Apply(s) => cat2("server-side apply failed: ", s.as_str()),
            ApplyError::NoUid => copy_text("applied object missing metadata.uid"),
            ApplyError::BadUid => copy_text("parsing metadata.uid as uuid"),
        }
    }
}

/// The place of the first kind that a target names.
pub open spec fn kind_at(kinds: Seq<DiscoveredResource>, t: TargetView) -> Option<int> {
    kind_place(kinds, t.group, t.version, t.kind)
}

/// The place of the first kind that a target names.
pub fn find_api_resource(kinds: &Vec<DiscoveredResource>, target: &Target) -> (r: Option<usize>)
    ensures
        match r {
            Some(i) => i < kinds.len() && kind_at(kinds@, target@) == Some(i as int),
            None => kind_at(kinds@, target@) is None,
        },
{
    find_kind(kinds, target.group.as_str(), target.version.as_str(), target.kind.as_str())
}

impl Target {
    /// Where an object of the target is read and written: the place of its kind, and its
    /// namespace where the kind has namespaces.
    pub fn locate(&self, kinds: &Vec<DiscoveredResource>) -> (r: Result<(usize, Option<String>), ApplyError>)
        ensures
            located(kinds@, self@, r),
    {
        match find_api_resource(kinds, self) {
            None => Err(
                ApplyError::NotFound {
                    group: self.group.clone(),
                    version: self.version.clone(),
                    kind: self.kind.clone(),
                },
            ),
            Some(i) => {
                if !kinds[i].namespaced {
                    Ok((i, None))
                } else if self.namespace.is_none() {
                    Err(ApplyError::NamespaceRequired)
                } else {
                    Ok((i, clone_option(&self.namespace)))
                }
            },
        }
    }

    /// The manifest as it is held against other objects.
    pub fn wanted(&self) -> (r: Json)
        requires
            self.json is Object,
        ensures
            r@ == wanted_of(self@),
    {
        broadcast use lemma_object_view;

        let v = strip_noisy(self.json.copy());
        let ns = match &self.namespace {
            Some(n) => Some(n.as_str()),
            None => None,
        };
        assert(self.json@ is Object);
        assert(v is Object);
        ensure_metadata(v, self.name.as_str(), ns)
    }

    /// What the manifest would change of a live object.
    pub fn summary(&self, live: &Option<Json>) -> (r: DiffSummary)
        requires
            self.json is Object,
        ensures
            r == in_words(diff(wanted_of(self@), stripped_or_null(opt_json(*live)))),
    {
        let wanted = self.wanted();
        let base = match live {
            Some(v) => strip_noisy(v.copy()),
            None => Json::Null,
        };
        diff_summary(&wanted, &base)
    }

    /// Whether the target is a secret.
    pub fn is_secret(&self) -> (r: bool)
        ensures
            r == secret_target(self@),
    {
        self.group.as_str().is_empty() && same_text(self.kind.as_str(), "Secret")
    }
}

/// Whether a target is a secret.
pub open spec fn secret_target(t: TargetView) -> bool {
    t.group.len() == 0 && t.kind == "Secret"@
}

/// The model of an optional value.
pub open spec fn opt_json(v: Option<Json>) -> Option<JsonView> {
    match v {
        Some(x) => Some(x@),
        None => None,
    }
}

/// A manifest as it is held against other objects: stripped, with its name and namespace.
pub open spec fn wanted_of(t: TargetView) -> JsonView {
    match stripped(t.json) {
        JsonView::Object(m) => JsonView::Object(named_object(m, t.name, t.namespace)),
        v => v,
    }
}

/// A live object as a manifest is held against it: stripped; null where there is none.
pub open spec fn stripped_or_null(live: Option<JsonView>) -> JsonView {
    match live {
        Some(v) => stripped(v),
        None => JsonView::Null,
    }
}

/// An edit that is under way.
pub struct Edit {
    pub target: Target,
    pub do_apply: bool,
    pub guard: bool,
    pub keep: bool,
    pub summary: DiffSummary,
    pub seen_rv: Option<String>,
}

/// What an edit does next.
#[derive(Debug, Clone, Copy, PartialEq, Eq, Structural)]
pub enum EditNext {
    DryRun,
    ReadAgain,
    Apply,
}

/// The version of a live object, where there is one.
pub open spec fn version_of(live: Option<JsonView>) -> Option<Seq<char>> {
    match live {
        Some(v) => v.str_of2("metadata"@, "resourceVersion"@),
        None => None,
    }
}

/// What an edit does once it has seen a live object of a version.
pub open spec fn edit_next(do_apply: bool, guard: bool, seen: Option<Seq<char>>) -> EditNext {
    if !do_apply {
        EditNext::DryRun
    } else if guard && seen is Some {
        EditNext::ReadAgain
    } else {
        EditNext::Apply
    }
}

/// Whether an object has another version now than the one that was seen.
pub open spec fn changed(seen: Option<Seq<char>>, now: Option<Seq<char>>) -> bool {
    match (seen, now) {
        (Some(a), Some(b)) => b.len() > 0 && b != a,
        _ => false,
    }
}

/// An object that was guarded and changed while it was edited is read again, and what is
/// read shows the change: nothing is sent.
pub proof fn law_changed_object_is_refused(live: JsonView, seen: Seq<char>, now: Seq<char>)
    requires
        live.str_of2("metadata"@, "resourceVersion"@) == Some(seen),
        now.len() > 0,
        now != seen,
    ensures
        edit_next(true, true, version_of(Some(live))) == EditNext::ReadAgain,
        changed(version_of(Some(live)), Some(now)),
        !changed(version_of(Some(live)), Some(seen)),
{
}

/// What is kept of an object that was applied: its identity and its version.
pub struct Kept {
    pub uid: Uid,
    pub rv: String,
}

impl Edit {
    /// Begin an edit. Settings say whether a live object is guarded against changes, and
    /// whether what is applied is kept.
    pub fn begin(
        yaml: &str,
        ns_override: Option<&str>,
        do_apply: bool,
        env: &Vec<(String, String)>,
    ) -> (r: Result<Edit, ApplyError>)
        ensures
            edit_begun(yaml@, opt_str(ns_override), do_apply, setting_views(env@), r),
    {
        let limits = read_limits(env);
        match parse_yaml_for_target(yaml, ns_override, &limits) {
            Err(e) => Err(ApplyError::Target(e)),
            Ok(target) => {
                let keep = !read_flag(env, "ORKA_DISABLE_LASTAPPLIED") && !target.is_secret();
                Ok(
                    Edit {
                        target,
                        do_apply,
                        guard: read_setting(env, "ORKA_DISABLE_APPLY_PREFLIGHT").is_none(),
                        keep,
                        summary: DiffSummary { adds: 0, updates: 0, removes: 0 },
                        seen_rv: None,
                    },
                )
            },
        }
    }

    /// Take the live object: what the manifest would change of it, and what comes next. The
    /// version that the object has is kept: the guard goes by it.
    pub fn take_live(&mut self, live: Option<Json>) -> (r: EditNext)
        requires
            old(self).target.json is Object,
        ensures
            *final(self) == (Edit {
                summary: in_words(diff(wanted_of(old(self).target@), stripped_or_null(opt_json(live)))),
                seen_rv: final(self).seen_rv,
                ..*old(self)
            }),
            opt_text(final(self).seen_rv) == version_of(opt_json(live)),
            r == edit_next(old(self).do_apply, old(self).guard, version_of(opt_json(live))),
    {
        self.summary = self.target.summary(&live);
        self.seen_rv = match &live {
            Some(v) => owned(v.str_of2("metadata", "resourceVersion")),
            None => None,
        };
        if !self.do_apply {
            EditNext::DryRun
        } else if self.guard && self.seen_rv.is_some() {
            EditNext::ReadAgain
        } else {
            EditNext::Apply
        }
    }

    /// Hold the version of the object as it is now against the one that was seen.
    pub fn check_fresh(&self, current: Option<&str>) -> (r: Result<(), ApplyError>)
        ensures
            fresh_checked(opt_text(self.seen_rv), opt_str(current), r),
    {
        match (&self.seen_rv, current) {
            (Some(a), Some(b)) => {
                if !b.is_empty() && !same_text(b, a.as_str()) {
                    Err(ApplyError::Stale { before: a.clone(), now: copy_text(b) })
                } else {
                    Ok(())
                }
            },
            _ => Ok(()),
        }
    }

    /// The outcome of the dry run.
    pub fn tried(&self, error: Option<&str>) -> (r: Result<ApplyResult, ApplyError>)
        ensures
            tried_out(self.summary, crate::json::opt_str(error), r),
    {
        match error {
            Some(e) => Err(ApplyError::DryRun(copy_text(e))),
            None => Ok(
                ApplyResult {
                    dry_run: true,
                    applied: false,
                    new_rv: None,
                    warnings: Vec::new(),
                    summary: self.summary,
                },
            ),
        }
    }

    /// The outcome of the apply: the object has a new version and an identity. Where what
    /// is applied is kept, the identity is owed.
    pub fn applied(&self, new_rv: Option<String>, uid: Option<&str>) -> (r: Result<
        (ApplyResult, Option<Kept>),
        ApplyError,
    >)
        ensures
            applied_as(self.keep, self.summary, new_rv, opt_str(uid), r),
    {
        let kept = if self.keep {
            match uid {
                None => {
                    return Err(ApplyError::NoUid);
                },
                Some(u) => match parse_uid(u) {
                    None => {
                        return Err(ApplyError::BadUid);
                    },
                    Some(uid) => Some(Kept { uid, rv: string_or(&new_rv, "") }),
                },
            }
        } else {
            None
        };
        Ok(
            (
                ApplyResult {
                    dry_run: false,
                    applied: true,
                    new_rv,
                    warnings: Vec::new(),
                    summary: self.summary,
                },
                kept,
            ),
        )
    }

    /// The failure of the apply.
    pub fn refused(&self, error: &str) -> (r: ApplyError)
        ensures
            r matches ApplyError::Apply(s) && s@ == error@,
    {
        ApplyError::Apply(copy_text(error))
    }
}

/// Whose last manifest a comparison asks for: the identity of the live object.
pub open spec fn live_uid(live: Option<JsonView>) -> Option<Seq<char>> {
    stripped_or_null(live).str_of2("metadata"@, "uid"@)
}

/// Compare a target with the live object: what differs, and the identity whose last
/// manifest it is compared with next.
pub fn diff_live(target: &Target, live: &Option<Json>) -> (r: (DiffSummary, Option<String>))
    requires
        target.json is Object,
    ensures
        r.0 == in_words(diff(wanted_of(target@), stripped_or_null(opt_json(*live)))),
        opt_text(r.1) == live_uid(opt_json(*live)),
{
    let s = target.summary(live);
    let base = match live {
        Some(v) => strip_noisy(v.copy()),
        None => Json::Null,
    };
    (s, owned(base.str_of2("metadata", "uid")))
}

/// What differs between a target and a manifest that was read before.
pub open spec fn last_diff(t: TargetView, last: Result<JsonView, YamlErrorView>) -> Option<DiffSummary> {
    match last {
        Ok(v) => Some(in_words(diff(wanted_of(t), stripped(v)))),
        Err(YamlErrorView::Convert(_)) => Some(in_words(diff(wanted_of(t), JsonView::Null))),
        Err(YamlErrorView::Parse(_)) => None,
    }
}

/// Compare a target with a manifest value.
pub fn diff_value(target: &Target, last: Json) -> (r: DiffSummary)
    requires
        target.json is Object,
    ensures
        r == in_words(diff(wanted_of(target@), stripped(last@))),
{
    let wanted = target.wanted();
    let base = strip_noisy(last);
    diff_summary(&wanted, &base)
}

/// Compare a target with the manifest that was applied last. One that is no YAML counts as
/// none.
pub fn diff_last(target: &Target, yaml: &str) -> (r: Option<DiffSummary>)
    requires
        target.json is Object,
    ensures
        r == last_diff(target@, yaml_read(yaml@)),
{
    match parse_yaml(yaml) {
        Ok(v) => Some(diff_value(target, v)),
        Err(YamlError::Convert(_)) => Some(diff_value(target, Json::Null)),
        Err(YamlError::Parse(_)) => None,
    }
}

// ---------------------------------------------------------------------------
// Both sides of a comparison

/// A summary seen from the other side: what was added is taken away.
pub open spec fn swapped(c: Counts) -> Counts {
    Counts { adds: c.removes, updates: c.updates, removes: c.adds }
}

spec fn object_diff(am: Seq<(Seq<char>, JsonView)>, bm: Seq<(Seq<char>, JsonView)>) -> Counts {
    both(member_diff(am, bm, am.len()), Counts { adds: 0, updates: 0, removes: absent(bm, am, bm.len()) })
}

spec fn value_diff(a: JsonView, b: JsonView) -> Counts {
    if equal(a, b) {
        no_change()
    } else {
        diff(a, b)
    }
}

proof fn lemma_equal_swapped(a: JsonView, b: JsonView)
    ensures
        equal(a, b) == equal(b, a),
    decreases a,
{
    match (a, b) {
        (JsonView::Array(x), JsonView::Array(y)) => {
            if x.len() == y.len() {
                assert forall|i: int| 0 <= i < x.len() implies equal(#[trigger] x[i], y[i]) == equal(y[i], x[i]) by {
                    lemma_equal_swapped(x[i], y[i]);
                }
                if equal(a, b) {
                    assert forall|i: int| 0 <= i < y.len() implies equal(#[trigger] y[i], x[i]) by {
                        assert(equal(x[i], y[i]));
                    }
                }
                if equal(b, a) {
                    assert forall|i: int| 0 <= i < x.len() implies equal(#[trigger] x[i], y[i]) by {
                        assert(equal(y[i], x[i]));
                    }
                }
            }
        },
        (JsonView::Object(x), JsonView::Object(y)) => {
            if x.len() == y.len() {
                assert forall|i: int| 0 <= i < x.len() implies equal((#[trigger] x[i]).1, y[i].1) == equal(
                    y[i].1,
                    x[i].1,
                ) by {
                    lemma_equal_swapped(x[i].1, y[i].1);
                }
                if equal(a, b) {
                    assert forall|i: int| 0 <= i < y.len() implies (#[trigger] y[i]).0 == x[i].0 && equal(
                        y[i].1,
                        x[i].1,
                    ) by {
                        assert(x[i].0 == y[i].0 && equal(x[i].1, y[i].1));
                    }
                }
                if equal(b, a) {
                    assert forall|i: int| 0 <= i < x.len() implies (#[trigger] x[i]).0 == y[i].0 && equal(
                        x[i].1,
                        y[i].1,
                    ) by {
                        assert(y[i].0 == x[i].0 && equal(y[i].1, x[i].1));
                    }
                }
            }
        },
        _ => {},
    }
}

proof fn lemma_lookup_without_last(m: Seq<(Seq<char>, JsonView)>, key: Seq<char>)
    requires
        m.len() > 0,
        m.last().0 != key,
    ensures
        lookup(m, key) == lookup(m.drop_last(), key),
    decreases m.len(),
{
    if m.len() > 1 {
        assert(m.drop_last()[0] == m[0]);
        if m[0].0 != key {
            lemma_lookup_without_last(m.skip(1), key);
            assert(m.skip(1).drop_last() =~= m.drop_last().skip(1));
        }
    } else {
        assert(m[0] == m.last());
        assert(lookup(m.skip(1), key) is None);
        assert(lookup(m.drop_last(), key) is None);
    }
}

proof fn lemma_lookup_absent(m: Seq<(Seq<char>, JsonView)>, key: Seq<char>)
    requires
        forall|i: int| 0 <= i < m.len() ==> (#[trigger] m[i]).0 != key,
    ensures
        lookup(m, key) is None,
    decreases m.len(),
{
    if m.len() > 0 {
        assert(m[0].0 != key);
        assert forall|i: int| 0 <= i < m.skip(1).len() implies (#[trigger] m.skip(1)[i]).0 != key by {
            assert(m.skip(1)[i] == m[i + 1]);
        }
        lemma_lookup_absent(m.skip(1), key);
    }
}

proof fn lemma_member_diff_like(
    am: Seq<(Seq<char>, JsonView)>,
    am2: Seq<(Seq<char>, JsonView)>,
    bm: Seq<(Seq<char>, JsonView)>,
    bm2: Seq<(Seq<char>, JsonView)>,
    n: nat,
)
    requires
        n <= am.len(),
        n <= am2.len(),
        forall|i: int| 0 <= i < n ==> #[trigger] am[i] == am2[i],
        forall|i: int| 0 <= i < n ==> lookup(bm, (#[trigger] am[i]).0) == lookup(bm2, am[i].0),
    ensures
        member_diff(am, bm, n) == member_diff(am2, bm2, n),
    decreases n,
{
    if n > 0 {
        lemma_member_diff_like(am, am2, bm, bm2, (n - 1) as nat);
        assert(am[n - 1] == am2[n - 1]);
    }
}

proof fn lemma_absent_like(
    m: Seq<(Seq<char>, JsonView)>,
    m2: Seq<(Seq<char>, JsonView)>,
    other: Seq<(Seq<char>, JsonView)>,
    other2: Seq<(Seq<char>, JsonView)>,
    n: nat,
)
    requires
        n <= m.len(),
        n <= m2.len(),
        forall|i: int| 0 <= i < n ==> #[trigger] m[i] == m2[i],
        forall|i: int| 0 <= i < n ==> lookup(other, (#[trigger] m[i]).0) == lookup(other2, m[i].0),
    ensures
        absent(m, other, n) == absent(m2, other2, n),
    decreases n,
{
    if n > 0 {
        lemma_absent_like(m, m2, other, other2, (n - 1) as nat);
        assert(m[n - 1] == m2[n - 1]);
    }
}

proof fn lemma_ascending_part(m: Seq<(Seq<char>, JsonView)>)
    requires
        names_ascend(m),
        m.len() > 0,
    ensures
        names_ascend(m.drop_last()),
        forall|i: int| 0 <= i < m.len() - 1 ==> (#[trigger] m[i]).0 != m.last().0,
{
    let p = m.drop_last();
    assert forall|i: int, j: int| 0 <= i < j < p.len() implies text_lt(#[trigger] p[i].0, #[trigger] p[j].0) by {
        assert(p[i] == m[i] && p[j] == m[j]);
    }
    assert forall|i: int| 0 <= i < m.len() - 1 implies (#[trigger] m[i]).0 != m.last().0 by {
        assert(text_lt(m[i].0, m[m.len() - 1].0));
        lemma_lex_irreflexive(codes(m[i].0));
    }
}

/// A member that comes after every member of the other side is one more on its side.
proof fn lemma_last_alone(am: Seq<(Seq<char>, JsonView)>, bm: Seq<(Seq<char>, JsonView)>)
    requires
        names_ascend(am),
        am.len() > 0,
        forall|j: int| 0 <= j < bm.len() ==> (#[trigger] bm[j]).0 != am.last().0,
    ensures
        object_diff(am, bm) == both(object_diff(am.drop_last(), bm), Counts { adds: 1, updates: 0, removes: 0 }),
        object_diff(bm, am) == both(object_diff(bm, am.drop_last()), Counts { adds: 0, updates: 0, removes: 1 }),
{
    let ap = am.drop_last();
    let n = am.len();
    lemma_ascending_part(am);
    lemma_lookup_absent(bm, am.last().0);
    assert forall|j: int| 0 <= j < bm.len() implies lookup(am, (#[trigger] bm[j]).0) == lookup(ap, bm[j].0) by {
        lemma_lookup_without_last(am, bm[j].0);
    }
    lemma_member_diff_like(am, ap, bm, bm, (n - 1) as nat);
    lemma_absent_like(bm, bm, am, ap, bm.len());
    lemma_member_diff_like(bm, bm, am, ap, bm.len());
    lemma_absent_like(am, ap, bm, bm, (n - 1) as nat);
    assert(am[n - 1] == am.last());
}

proof fn lemma_last_shared(am: Seq<(Seq<char>, JsonView)>, bm: Seq<(Seq<char>, JsonView)>)
    requires
        names_ascend(am),
        names_ascend(bm),
        am.len() > 0,
        bm.len() > 0,
        am.last().0 == bm.last().0,
    ensures
        object_diff(am, bm) == both(
            object_diff(am.drop_last(), bm.drop_last()),
            value_diff(am.last().1, bm.last().1),
        ),
{
    let ap = am.drop_last();
    let bp = bm.drop_last();
    let n = am.len();
    let k = bm.len();
    lemma_ascending_part(am);
    lemma_ascending_part(bm);
    assert forall|i: int| 0 <= i < n - 1 implies lookup(bm, (#[trigger] am[i]).0) == lookup(bp, am[i].0) by {
        lemma_lookup_without_last(bm, am[i].0);
    }
    assert forall|j: int| 0 <= j < k - 1 implies lookup(am, (#[trigger] bm[j]).0) == lookup(ap, bm[j].0) by {
        lemma_lookup_without_last(am, bm[j].0);
    }
    lemma_found(bm, k - 1);
    lemma_found(am, n - 1);
    lemma_member_diff_like(am, ap, bm, bp, (n - 1) as nat);
    lemma_absent_like(bm, bp, am, ap, (k - 1) as nat);
    assert(am[n - 1] == am.last() && bm[k - 1] == bm.last());
}

proof fn lemma_later(am: Seq<(Seq<char>, JsonView)>, bm: Seq<(Seq<char>, JsonView)>)
    requires
        names_ascend(bm),
        am.len() > 0,
        bm.len() > 0 ==> text_lt(bm.last().0, am.last().0),
    ensures
        forall|j: int| 0 <= j < bm.len() ==> (#[trigger] bm[j]).0 != am.last().0,
{
    assert forall|j: int| 0 <= j < bm.len() implies (#[trigger] bm[j]).0 != am.last().0 by {
        let k = bm.len() - 1;
        if j < k {
            assert(text_lt(bm[j].0, bm[k].0));
            lemma_lex_transitive(codes(bm[j].0), codes(bm[k].0), codes(am.last().0));
        }
        lemma_lex_irreflexive(codes(am.last().0));
    }
}

#[verifier::spinoff_prover]
proof fn lemma_sides(am: Seq<(Seq<char>, JsonView)>, bm: Seq<(Seq<char>, JsonView)>, n: nat, k: nat)
    requires
        n <= am.len(),
        k <= bm.len(),
        names_ascend(am),
        names_ascend(bm),
        forall|i: int| 0 <= i < am.len() ==> (#[trigger] am[i]).1.sorted(),
        forall|i: int| 0 <= i < bm.len() ==> (#[trigger] bm[i]).1.sorted(),
    ensures
        object_diff(bm.take(k as int), am.take(n as int)) == swapped(
            object_diff(am.take(n as int), bm.take(k as int)),
        ),
        object_diff(am.take(n as int), bm.take(k as int)) == no_change() ==> n == k && forall|i: int|
            0 <= i < n ==> (#[trigger] am[i]).0 == bm[i].0 && equal(am[i].1, bm[i].1),
    decreases am, n + k,
{
    let a = am.take(n as int);
    let b = bm.take(k as int);
    assert(names_ascend(a)) by {
        assert forall|i: int, j: int| 0 <= i < j < a.len() implies text_lt(#[trigger] a[i].0, #[trigger] a[j].0) by {
            assert(a[i] == am[i] && a[j] == am[j]);
        }
    }
    assert(names_ascend(b)) by {
        assert forall|i: int, j: int| 0 <= i < j < b.len() implies text_lt(#[trigger] b[i].0, #[trigger] b[j].0) by {
            assert(b[i] == bm[i] && b[j] == bm[j]);
        }
    }
    if n > 0 {
        assert(a.drop_last() =~= am.take(n - 1));
        assert(a.last() == am[n - 1]);
    }
    if k > 0 {
        assert(b.drop_last() =~= bm.take(k - 1));
        assert(b.last() == bm[k - 1]);
    }
    if n == 0 && k == 0 {
    } else if n > 0 && (k == 0 || text_lt(b.last().0, a.last().0)) {
        lemma_later(a, b);
        lemma_last_alone(a, b);
        lemma_sides(am, bm, (n - 1) as nat, k);
    } else if k > 0 && (n == 0 || text_lt(a.last().0, b.last().0)) {
        lemma_later(b, a);
        lemma_last_alone(b, a);
        lemma_sides(am, bm, n, (k - 1) as nat);
    } else {
        lemma_text_order(a.last().0, b.last().0);
        lemma_last_shared(a, b);
        lemma_last_shared(b, a);
        lemma_sides(am, bm, (n - 1) as nat, (k - 1) as nat);
        lemma_equal_swapped(am[n - 1].1, bm[k - 1].1);
        lemma_both_sides(am[n - 1].1, bm[k - 1].1);
    }
}

proof fn lemma_both_sides(a: JsonView, b: JsonView)
    requires
        a.sorted(),
        b.sorted(),
    ensures
        diff(b, a) == swapped(diff(a, b)),
        diff(a, b) == no_change() ==> equal(a, b),
    decreases a,
{
    match (a, b) {
        (JsonView::Object(am), JsonView::Object(bm)) => {
            lemma_sides(am, bm, am.len(), bm.len());
            assert(am.take(am.len() as int) =~= am);
            assert(bm.take(bm.len() as int) =~= bm);
        },
        (JsonView::Array(x), JsonView::Array(y)) => {
            lemma_unequal_swapped(x, y, least(x.len(), y.len()));
            if diff(a, b) == no_change() {
                assert forall|i: int| 0 <= i < x.len() implies equal(#[trigger] x[i], y[i]) by {
                    lemma_all_equal(x, y, x.len(), i);
                }
            }
        },
        _ => {
            lemma_equal_swapped(a, b);
        },
    }
}

proof fn lemma_unequal_swapped(a: Seq<JsonView>, b: Seq<JsonView>, n: nat)
    ensures
        unequal(a, b, n) == unequal(b, a, n),
    decreases n,
{
    if n > 0 && n <= a.len() && n <= b.len() {
        lemma_unequal_swapped(a, b, (n - 1) as nat);
        lemma_equal_swapped(a[n - 1], b[n - 1]);
    }
}

proof fn lemma_all_equal(a: Seq<JsonView>, b: Seq<JsonView>, n: nat, i: int)
    requires
        n <= a.len(),
        n <= b.len(),
        unequal(a, b, n) == 0,
        0 <= i < n,
    ensures
        equal(a[i], b[i]),
    decreases n,
{
    if i < n - 1 {
        lemma_all_equal(a, b, (n - 1) as nat, i);
    }
}

/// Held the other way round, two values differ by as many updates, and what was added is
/// taken away.
pub proof fn law_diff_swapped(a: JsonView, b: JsonView)
    requires
        a.sorted(),
        b.sorted(),
    ensures
        diff(b, a) == swapped(diff(a, b)),
        in_words(diff(b, a)).adds == in_words(diff(a, b)).removes,
        in_words(diff(b, a)).removes == in_words(diff(a, b)).adds,
        in_words(diff(b, a)).updates == in_words(diff(a, b)).updates,
{
    lemma_both_sides(a, b);
}

/// Where nothing differs, the two values are equal.
pub proof fn law_no_diff_is_equal(a: JsonView, b: JsonView)
    requires
        a.sorted(),
        b.sorted(),
        diff(a, b) == no_change(),
    ensures
        equal(a, b),
{
    lemma_both_sides(a, b);
}

// ---------------------------------------------------------------------------
// What a comparison tells

proof fn lemma_skip_ascends(m: Seq<(Seq<char>, JsonView)>)
    requires
        names_ascend(m),
        m.len() > 0,
    ensures
        names_ascend(m.skip(1)),
        forall|i: int| 0 <= i < m.skip(1).len() ==> (#[trigger] m.skip(1)[i]) == m[i + 1],
{
    let r = m.skip(1);
    assert forall|i: int, j: int| 0 <= i < j < r.len() implies text_lt(#[trigger] r[i].0, #[trigger] r[j].0) by {
        assert(r[i] == m[i + 1] && r[j] == m[j + 1]);
    }
}

proof fn lemma_lookup_place(m: Seq<(Seq<char>, JsonView)>, key: Seq<char>) -> (i: int)
    requires
        lookup(m, key) is Some,
    ensures
        0 <= i < m.len(),
        m[i] == (key, lookup(m, key)->0),
    decreases m.len(),
{
    if m[0].0 == key {
        0
    } else {
        let i = lemma_lookup_place(m.skip(1), key);
        i + 1
    }
}

/// A member that is given the value it has already stays as it is.
proof fn lemma_with_same(m: Seq<(Seq<char>, JsonView)>, key: Seq<char>, v: JsonView)
    requires
        names_ascend(m),
        lookup(m, key) == Some(v),
    ensures
        with(m, key, v) == m,
    decreases m.len(),
{
    if m[0].0 == key {
        assert(seq![(key, v)] + m.skip(1) =~= m);
    } else {
        let i = lemma_lookup_place(m, key);
        assert(text_lt(m[0].0, m[i].0));
        if text_lt(key, m[0].0) {
            lemma_lex_transitive(codes(key), codes(m[0].0), codes(key));
            lemma_lex_irreflexive(codes(key));
        }
        lemma_skip_ascends(m);
        lemma_with_same(m.skip(1), key, v);
        assert(seq![m[0]] + m.skip(1) =~= m);
    }
}

proof fn lemma_unchanged(t: TargetView, v: JsonView)
    requires
        v.sorted(),
        t.json == v,
        v.str_of2("metadata"@, "name"@) == Some(t.name),
        t.namespace is None || v.str_of2("metadata"@, "namespace"@) == t.namespace,
    ensures
        wanted_of(t) == stripped(v),
{
    let m = v->Object_0;
    let s = stripped_members(m);
    law_strip_keeps_order(v);
    law_strip_takes(v, "metadata"@);
    law_strip_takes(v, "name"@);
    law_strip_takes(v, "namespace"@);
    reveal_strlit("name");
    reveal_strlit("namespace");
    reveal_strlit("managedFields");
    reveal_strlit("resourceVersion");
    reveal_strlit("generation");
    reveal_strlit("creationTimestamp");
    assert("name"@.len() == 4 && "namespace"@.len() == 9 && "managedFields"@.len() == 13 && "resourceVersion"@.len()
        == 15 && "generation"@.len() == 10 && "creationTimestamp"@.len() == 17);
    let i = lemma_lookup_place(s, "metadata"@);
    assert(s[i].1.sorted());
    let mm = s[i].1->Object_0;
    assert(lookup(mm, "name"@) == Some(JsonView::Str(t.name)));
    lemma_with_same(mm, "name"@, JsonView::Str(t.name));
    if let Some(n) = t.namespace {
        lemma_with_same(mm, "namespace"@, JsonView::Str(n));
    }
    assert(named_metadata(mm, t.name, t.namespace) == mm);
    lemma_with_same(s, "metadata"@, JsonView::Object(mm));
}

/// A manifest that is the live object itself, as it is opened in the editor, changes nothing:
/// nothing is added, updated or removed, neither of the live object nor of what was applied
/// last.
pub proof fn law_unchanged_manifest(t: TargetView, v: JsonView)
    requires
        v.sorted(),
        t.json == v,
        v.str_of2("metadata"@, "name"@) == Some(t.name),
        t.namespace is None || v.str_of2("metadata"@, "namespace"@) == t.namespace,
    ensures
        in_words(diff(wanted_of(t), stripped_or_null(Some(v)))) == (DiffSummary { adds: 0, updates: 0, removes: 0 }),
        last_diff(t, Ok(v)) == Some(DiffSummary { adds: 0, updates: 0, removes: 0 }),
{
    lemma_unchanged(t, v);
    law_strip_keeps_order(v);
    law_diff_of_itself(stripped(v));
    lemma_small_mod(0, (usize::MAX + 1) as nat);
}

/// What is held against the live object has nothing that the server fills in: no status, and
/// none of the four fields of the metadata. Its name is that of the target, and what else the
/// manifest says stands.
pub proof fn law_wanted_is_stripped(t: TargetView, key: Seq<char>)
    requires
        t.json matches JsonView::Object(m) && (lookup(m, "metadata"@) matches Some(x) ==> x is Object),
    ensures
        wanted_of(t).get("status"@) is None,
        wanted_of(t).get2("metadata"@, "managedFields"@) is None,
        wanted_of(t).get2("metadata"@, "resourceVersion"@) is None,
        wanted_of(t).get2("metadata"@, "generation"@) is None,
        wanted_of(t).get2("metadata"@, "creationTimestamp"@) is None,
        wanted_of(t).str_of2("metadata"@, "name"@) == Some(t.name),
        t.namespace is Some ==> wanted_of(t).str_of2("metadata"@, "namespace"@) == t.namespace,
        key != "status"@ && key != "metadata"@ ==> wanted_of(t).get(key) == t.json.get(key),
{
    let m = t.json->Object_0;
    let s = stripped_members(m);
    law_strip_takes(t.json, key);
    lemma_stripped_lookup(m, "metadata"@);
    law_named(s, t.name, t.namespace);
    reveal_strlit("status");
    reveal_strlit("metadata");
    reveal_strlit("name");
    reveal_strlit("namespace");
    reveal_strlit("managedFields");
    reveal_strlit("resourceVersion");
    reveal_strlit("generation");
    reveal_strlit("creationTimestamp");
    let (a, b, c, d) = ("managedFields"@, "resourceVersion"@, "generation"@, "creationTimestamp"@);
    assert("status"@.len() == 6 && "metadata"@.len() == 8 && "name"@.len() == 4 && "namespace"@.len() == 9);
    assert(a.len() == 13 && b.len() == 15 && c.len() == 10 && d.len() == 17);
    let mm = match lookup(s, "metadata"@) {
        Some(JsonView::Object(x)) => x,
        _ => Seq::empty(),
    };
    let named = JsonView::Object(named_metadata(mm, t.name, t.namespace));
    lemma_with(s, "metadata"@, named, "status"@);
    lemma_with(s, "metadata"@, named, key);
    lemma_named_metadata_keeps(mm, t.name, t.namespace, a);
    lemma_named_metadata_keeps(mm, t.name, t.namespace, b);
    lemma_named_metadata_keeps(mm, t.name, t.namespace, c);
    lemma_named_metadata_keeps(mm, t.name, t.namespace, d);
}

proof fn lemma_named_metadata_keeps(
    mm: Seq<(Seq<char>, JsonView)>,
    name: Seq<char>,
    ns: Option<Seq<char>>,
    key: Seq<char>,
)
    requires
        key != "name"@,
        key != "namespace"@,
    ensures
        lookup(named_metadata(mm, name, ns), key) == lookup(mm, key),
{
    lemma_with(mm, "name"@, JsonView::Str(name), key);
    if let Some(n) = ns {
        lemma_with(with(mm, "name"@, JsonView::Str(name)), "namespace"@, JsonView::Str(n), key);
    }
}

proof fn lemma_stripped_join(a: Seq<(Seq<char>, JsonView)>, b: Seq<(Seq<char>, JsonView)>)
    ensures
        stripped_members(a + b) == stripped_members(a) + stripped_members(b),
    decreases b.len(),
{
    if b.len() == 0 {
        assert(a + b =~= a);
        assert(stripped_members(a) + stripped_members(b) =~= stripped_members(a));
    } else {
        lemma_stripped_join(a, b.drop_last());
        assert((a + b).drop_last() =~= a + b.drop_last());
        assert((a + b).last() == b.last());
        assert(stripped_members(a + b) =~= stripped_members(a) + stripped_members(b));
    }
}

proof fn lemma_stripped_one(x: (Seq<char>, JsonView))
    ensures
        stripped_members(seq![x]) == if x.0 == "status"@ {
            Seq::empty()
        } else if x.0 == "metadata"@ {
            seq![(x.0, stripped_metadata(x.1))]
        } else {
            seq![x]
        },
{
    assert(seq![x].drop_last() =~= Seq::empty());
    assert(stripped_members(seq![x].drop_last()) =~= Seq::empty());
    assert(Seq::<(Seq<char>, JsonView)>::empty().push(x) =~= seq![x]);
    assert(Seq::<(Seq<char>, JsonView)>::empty().push((x.0, stripped_metadata(x.1))) =~= seq![
        (x.0, stripped_metadata(x.1)),
    ]);
}

proof fn lemma_status_stripped(m: Seq<(Seq<char>, JsonView)>, x: JsonView)
    ensures
        stripped_members(with(m, "status"@, x)) == stripped_members(m),
    decreases m.len(),
{
    let one = seq![("status"@, x)];
    lemma_stripped_one(("status"@, x));
    if m.len() == 0 {
        assert(stripped_members(m) =~= Seq::empty());
    } else {
        let rest = m.skip(1);
        assert(m =~= seq![m[0]] + rest);
        lemma_stripped_join(seq![m[0]], rest);
        lemma_stripped_one(m[0]);
        if m[0].0 == "status"@ {
            lemma_stripped_join(one, rest);
        } else if text_lt("status"@, m[0].0) {
            lemma_stripped_join(one, m);
            assert(Seq::<(Seq<char>, JsonView)>::empty() + stripped_members(m) =~= stripped_members(m));
        } else {
            lemma_status_stripped(rest, x);
            lemma_stripped_join(seq![m[0]], with(rest, "status"@, x));
        }
    }
}

proof fn lemma_metadata_stripped(m: Seq<(Seq<char>, JsonView)>, x: JsonView, y: JsonView)
    requires
        names_ascend(m),
        lookup(m, "metadata"@) == Some(y),
        stripped_metadata(x) == stripped_metadata(y),
    ensures
        stripped_members(with(m, "metadata"@, x)) == stripped_members(m),
    decreases m.len(),
{
    let rest = m.skip(1);
    assert(m =~= seq![m[0]] + rest);
    lemma_stripped_join(seq![m[0]], rest);
    lemma_stripped_one(m[0]);
    if m[0].0 == "metadata"@ {
        lemma_stripped_one(("metadata"@, x));
        lemma_stripped_join(seq![("metadata"@, x)], rest);
        reveal_strlit("status");
        reveal_strlit("metadata");
        assert("status"@.len() == 6 && "metadata"@.len() == 8);
    } else {
        let i = lemma_lookup_place(m, "metadata"@);
        assert(text_lt(m[0].0, m[i].0));
        if text_lt("metadata"@, m[0].0) {
            lemma_lex_transitive(codes("metadata"@), codes(m[0].0), codes("metadata"@));
            lemma_lex_irreflexive(codes("metadata"@));
        }
        lemma_skip_ascends(m);
        lemma_metadata_stripped(rest, x, y);
        lemma_stripped_join(seq![m[0]], with(rest, "metadata"@, x));
    }
}

proof fn lemma_without_with(m: Seq<(Seq<char>, JsonView)>, key: Seq<char>, x: JsonView)
    ensures
        without(with(m, key, x), key) == without(m, key),
    decreases m.len(),
{
    let one = seq![(key, x)];
    lemma_without_join(one, m, key);
    lemma_without_one((key, x), key);
    if m.len() == 0 {
        assert(without(m, key) =~= Seq::empty());
    } else {
        let rest = m.skip(1);
        assert(m =~= seq![m[0]] + rest);
        lemma_without_join(seq![m[0]], rest, key);
        lemma_without_join(one, rest, key);
        lemma_without_one(m[0], key);
        assert(Seq::<(Seq<char>, JsonView)>::empty() + without(m, key) =~= without(m, key));
        if m[0].0 != key && !text_lt(key, m[0].0) {
            lemma_without_with(rest, key, x);
            lemma_without_join(seq![m[0]], with(rest, key, x), key);
        }
    }
}

proof fn lemma_without_one(x: (Seq<char>, JsonView), key: Seq<char>)
    ensures
        without(seq![x], key) == if x.0 == key {
            Seq::empty()
        } else {
            seq![x]
        },
{
    assert(seq![x].drop_last() =~= Seq::empty());
    assert(without(seq![x].drop_last(), key) =~= Seq::empty());
    assert(Seq::<(Seq<char>, JsonView)>::empty().push(x) =~= seq![x]);
}

proof fn lemma_without_join(a: Seq<(Seq<char>, JsonView)>, b: Seq<(Seq<char>, JsonView)>, key: Seq<char>)
    ensures
        without(a + b, key) == without(a, key) + without(b, key),
    decreases b.len(),
{
    if b.len() == 0 {
        assert(a + b =~= a);
        assert(without(a, key) + without(b, key) =~= without(a, key));
    } else {
        lemma_without_join(a, b.drop_last(), key);
        assert((a + b).drop_last() =~= a + b.drop_last());
        assert((a + b).last() == b.last());
        assert(without(a + b, key) =~= without(a, key) + without(b, key));
    }
}

/// Two manifests that differ only in what the server fills in differ from any other object by
/// the same: another status does not count, nor do other managed fields, another version,
/// generation or time of creation.
pub proof fn law_server_fields_do_not_count(
    t: TargetView,
    m: Seq<(Seq<char>, JsonView)>,
    mm: Seq<(Seq<char>, JsonView)>,
    key: Seq<char>,
    x: JsonView,
    live: Option<JsonView>,
)
    requires
        t.json == JsonView::Object(m),
        names_ascend(m),
        lookup(m, "metadata"@) == Some(JsonView::Object(mm)),
        key == "managedFields"@ || key == "resourceVersion"@ || key == "generation"@ || key == "creationTimestamp"@,
    ensures
        ({
            let status = TargetView { json: JsonView::Object(with(m, "status"@, x)), ..t };
            let metadata = TargetView {
                json: JsonView::Object(with(m, "metadata"@, JsonView::Object(with(mm, key, x)))),
                ..t
            };
            let summary = in_words(diff(wanted_of(t), stripped_or_null(live)));
            &&& in_words(diff(wanted_of(status), stripped_or_null(live))) == summary
            &&& in_words(diff(wanted_of(metadata), stripped_or_null(live))) == summary
            &&& in_words(diff(wanted_of(t), stripped_or_null(Some(status.json)))) == in_words(
                diff(wanted_of(t), stripped_or_null(Some(t.json))),
            )
            &&& in_words(diff(wanted_of(t), stripped_or_null(Some(metadata.json)))) == in_words(
                diff(wanted_of(t), stripped_or_null(Some(t.json))),
            )
        }),
{
    lemma_status_stripped(m, x);
    let (a, b, c, d) = ("managedFields"@, "resourceVersion"@, "generation"@, "creationTimestamp"@);
    let w = with(mm, key, x);
    lemma_without_with(mm, key, x);
    assert forall|s: Seq<(Seq<char>, JsonView)>| true implies #[trigger] without(
        without(without(without(s, a), b), c),
        d,
    ) == without(without(without(without(s, b), a), c), d) by {
        lemma_without_swap(s, a, b);
    }
    if key == b {
        lemma_without_swap(mm, a, b);
        lemma_without_swap(w, a, b);
    }
    if key == c {
        lemma_without_swap(without(mm, a), b, c);
        lemma_without_swap(mm, a, c);
        lemma_without_swap(without(w, a), b, c);
        lemma_without_swap(w, a, c);
    }
    if key == d {
        lemma_without_swap(without(without(mm, a), b), c, d);
        lemma_without_swap(without(mm, a), b, d);
        lemma_without_swap(mm, a, d);
        lemma_without_swap(without(without(w, a), b), c, d);
        lemma_without_swap(without(w, a), b, d);
        lemma_without_swap(w, a, d);
    }
    assert(stripped_metadata(JsonView::Object(w)) == stripped_metadata(JsonView::Object(mm)));
    lemma_metadata_stripped(m, JsonView::Object(w), JsonView::Object(mm));
}

/// A manifest of an object that does not exist yet is one update.
pub proof fn law_new_object(t: TargetView)
    requires
        t.json is Object,
    ensures
        in_words(diff(wanted_of(t), stripped_or_null(None))) == (DiffSummary { adds: 0, updates: 1, removes: 0 }),
{
    lemma_small_mod(0, (usize::MAX + 1) as nat);
    lemma_small_mod(1, (usize::MAX + 1) as nat);
}

proof fn lemma_with_place(m: Seq<(Seq<char>, JsonView)>, key: Seq<char>, x: JsonView) -> (p: int)
    requires
        names_ascend(m),
    ensures
        0 <= p < with(m, key, x).len(),
        with(m, key, x)[p] == (key, x),
        forall|k: int|
            0 <= k < with(m, key, x).len() && k != p ==> lookup(m, (#[trigger] with(m, key, x)[k]).0) == Some(
                with(m, key, x)[k].1,
            ) && with(m, key, x)[k].0 != key,
    decreases m.len(),
{
    let w = with(m, key, x);
    if m.len() == 0 {
        0
    } else {
        assert forall|k: int| 0 <= k < m.len() implies lookup(m, (#[trigger] m[k]).0) == Some(m[k].1) by {
            lemma_found(m, k);
        }
        assert forall|k: int| 0 < k < m.len() implies (#[trigger] m[k]).0 != m[0].0 by {
            assert(text_lt(m[0].0, m[k].0));
            lemma_lex_irreflexive(codes(m[0].0));
        }
        if m[0].0 == key {
            assert forall|k: int| 0 < k < w.len() implies lookup(m, (#[trigger] w[k]).0) == Some(w[k].1) && w[k].0
                != key by {
                assert(w[k] == m[k]);
            }
            0
        } else if text_lt(key, m[0].0) {
            assert forall|k: int| 0 < k < w.len() implies lookup(m, (#[trigger] w[k]).0) == Some(w[k].1) && w[k].0
                != key by {
                assert(w[k] == m[k - 1]);
                if k > 1 {
                    assert(text_lt(m[0].0, m[k - 1].0));
                    lemma_lex_transitive(codes(key), codes(m[0].0), codes(m[k - 1].0));
                }
                lemma_lex_irreflexive(codes(key));
            }
            0
        } else {
            lemma_skip_ascends(m);
            let rest = m.skip(1);
            let q = lemma_with_place(rest, key, x);
            let v = with(rest, key, x);
            assert forall|k: int| 0 <= k < w.len() && k != q + 1 implies lookup(m, (#[trigger] w[k]).0) == Some(w[k].1)
                && w[k].0 != key by {
                if k == 0 {
                    assert(w[0] == m[0]);
                } else {
                    assert(w[k] == v[k - 1]);
                    let i = lemma_lookup_place(rest, v[k - 1].0);
                    assert(m[i + 1] == rest[i]);
                }
            }
            assert(w[q + 1] == v[q]);
            q + 1
        }
    }
}

proof fn lemma_single_difference(
    am: Seq<(Seq<char>, JsonView)>,
    bm: Seq<(Seq<char>, JsonView)>,
    p: int,
    n: nat,
)
    requires
        n <= am.len(),
        0 <= p < am.len(),
        forall|k: int| 0 <= k < am.len() && k != p ==> lookup(bm, (#[trigger] am[k]).0) == Some(am[k].1),
    ensures
        member_diff(am, bm, n) == if p < n {
            match lookup(bm, am[p].0) {
                Some(y) => if equal(am[p].1, y) {
                    no_change()
                } else {
                    diff(am[p].1, y)
                },
                None => Counts { adds: 1, updates: 0, removes: 0 },
            }
        } else {
            no_change()
        },
    decreases n,
{
    if n > 0 {
        lemma_single_difference(am, bm, p, (n - 1) as nat);
        if n - 1 != p {
            lemma_equal_self(am[n - 1].1);
        }
    }
}

proof fn lemma_nothing_absent(m: Seq<(Seq<char>, JsonView)>, other: Seq<(Seq<char>, JsonView)>, n: nat)
    requires
        n <= m.len(),
        forall|k: int| 0 <= k < m.len() ==> lookup(other, (#[trigger] m[k]).0) is Some,
    ensures
        absent(m, other, n) == 0,
    decreases n,
{
    if n > 0 {
        lemma_nothing_absent(m, other, (n - 1) as nat);
        assert(lookup(other, m[n - 1].0) is Some);
    }
}

proof fn lemma_with_diff(m: Seq<(Seq<char>, JsonView)>, key: Seq<char>, x: JsonView)
    requires
        names_ascend(m),
    ensures
        diff(JsonView::Object(with(m, key, x)), JsonView::Object(m)) == match lookup(m, key) {
            Some(y) => if equal(x, y) {
                no_change()
            } else {
                diff(x, y)
            },
            None => Counts { adds: 1, updates: 0, removes: 0 },
        },
{
    let w = with(m, key, x);
    let p = lemma_with_place(m, key, x);
    lemma_single_difference(w, m, p, w.len());
    assert forall|k: int| 0 <= k < m.len() implies lookup(w, (#[trigger] m[k]).0) is Some by {
        lemma_found(m, k);
        lemma_with(m, key, x, m[k].0);
    }
    lemma_nothing_absent(m, w, m.len());
}

/// A field that the target has and the base has not is one addition; one that only the base
/// has is one removal.
pub proof fn law_field_added_or_removed(m: Seq<(Seq<char>, JsonView)>, key: Seq<char>, x: JsonView)
    requires
        JsonView::Object(m).sorted(),
        JsonView::Object(with(m, key, x)).sorted(),
        lookup(m, key) is None,
    ensures
        in_words(diff(JsonView::Object(with(m, key, x)), JsonView::Object(m))) == (DiffSummary {
            adds: 1,
            updates: 0,
            removes: 0,
        }),
        in_words(diff(JsonView::Object(m), JsonView::Object(with(m, key, x)))) == (DiffSummary {
            adds: 0,
            updates: 0,
            removes: 1,
        }),
{
    lemma_with_diff(m, key, x);
    law_diff_swapped(JsonView::Object(with(m, key, x)), JsonView::Object(m));
    lemma_small_mod(0, (usize::MAX + 1) as nat);
    lemma_small_mod(1, (usize::MAX + 1) as nat);
}

/// Where one field has another value, what differs is what differs in that field: one update
/// where it is no object and no list, and nothing where the two values are equal.
pub proof fn law_field_changed(m: Seq<(Seq<char>, JsonView)>, key: Seq<char>, x: JsonView, y: JsonView)
    requires
        names_ascend(m),
        lookup(m, key) == Some(y),
    ensures
        x == y ==> in_words(diff(JsonView::Object(with(m, key, x)), JsonView::Object(m))) == (DiffSummary {
            adds: 0,
            updates: 0,
            removes: 0,
        }),
        !equal(x, y) ==> in_words(diff(JsonView::Object(with(m, key, x)), JsonView::Object(m))) == in_words(diff(x, y)),
        x is Str && y is Str && x != y ==> in_words(diff(JsonView::Object(with(m, key, x)), JsonView::Object(m))) == (
        DiffSummary { adds: 0, updates: 1, removes: 0 }),
        x is Bool && y is Bool && x != y ==> in_words(diff(JsonView::Object(with(m, key, x)), JsonView::Object(m))) == (
        DiffSummary { adds: 0, updates: 1, removes: 0 }),
        x is Str && !(y is Str) ==> in_words(diff(JsonView::Object(with(m, key, x)), JsonView::Object(m))) == (
        DiffSummary { adds: 0, updates: 1, removes: 0 }),
{
    lemma_with_diff(m, key, x);
    lemma_equal_self(x);
    lemma_small_mod(0, (usize::MAX + 1) as nat);
    lemma_small_mod(1, (usize::MAX + 1) as nat);
}

proof fn lemma_same_elements(a: Seq<JsonView>, b: Seq<JsonView>, n: nat, p: int)
    requires
        n <= a.len(),
        n <= b.len(),
        forall|k: int| 0 <= k < n && k != p ==> #[trigger] a[k] == b[k],
    ensures
        unequal(a, b, n) == if 0 <= p < n && !equal(a[p], b[p]) {
            1nat
        } else {
            0
        },
    decreases n,
{
    if n > 0 {
        lemma_same_elements(a, b, (n - 1) as nat, p);
        if n - 1 != p {
            lemma_equal_self(a[n - 1]);
        }
    }
}

/// Elements behind the end of the other list are additions or removals, one each; one element
/// that differs is one update.
pub proof fn law_list_changed(a: Seq<JsonView>, more: Seq<JsonView>, p: int, x: JsonView)
    requires
        more.len() <= usize::MAX,
        0 <= p < a.len(),
        !equal(x, a[p]),
    ensures
        in_words(diff(JsonView::Array(a + more), JsonView::Array(a))) == (DiffSummary {
            adds: more.len() as usize,
            updates: 0,
            removes: 0,
        }),
        in_words(diff(JsonView::Array(a), JsonView::Array(a + more))) == (DiffSummary {
            adds: 0,
            updates: 0,
            removes: more.len() as usize,
        }),
        in_words(diff(JsonView::Array(a.update(p, x)), JsonView::Array(a))) == (DiffSummary {
            adds: 0,
            updates: 1,
            removes: 0,
        }),
{
    lemma_same_elements(a + more, a, a.len(), -1);
    lemma_same_elements(a, a + more, a.len(), -1);
    lemma_same_elements(a.update(p, x), a, a.len(), p);
    lemma_small_mod(0, (usize::MAX + 1) as nat);
    lemma_small_mod(1, (usize::MAX + 1) as nat);
    lemma_small_mod(more.len(), (usize::MAX + 1) as nat);
}

// ---------------------------------------------------------------------------
// What an edit does

/// A manifest targets the object of its kind, name and namespace. The group stands before the
/// slash of its version; the core group has none. The namespace asked for is used where the
/// manifest names none.
pub proof fn law_target(json: JsonView, group: Seq<char>, version: Seq<char>, ns: Option<Seq<char>>, max: usize)
    requires
        nodes(json) < max,
        json.str_of("kind"@) is Some,
        json.str_of2("metadata"@, "name"@) is Some,
        !group.contains('/'),
        !version.contains('/'),
        json.str_of("apiVersion"@) == Some(group + seq!['/'] + version) || (group.len() == 0 && json.str_of(
            "apiVersion"@,
        ) == Some(version)),
    ensures
        target_in(json, ns, max) matches Ok(t) && {
            &&& t.group == group
            &&& t.version == version
            &&& Some(t.kind) == json.str_of("kind"@)
            &&& Some(t.name) == json.str_of2("metadata"@, "name"@)
            &&& t.json == json
            &&& json.str_of2("metadata"@, "namespace"@) is None ==> t.namespace == ns
            &&& json.str_of2("metadata"@, "namespace"@) is Some ==> t.namespace == json.str_of2(
                "metadata"@,
                "namespace"@,
            )
        },
{
    let api = json.str_of("apiVersion"@)->0;
    if api == group + seq!['/'] + version {
        let i = group.len() as int;
        assert forall|k: int| 0 <= k < i implies api[k] != '/' by {
            assert(api[k] == group[k]);
            assert(group.contains(group[k]));
        }
        lemma_first_at(api, '/', i);
        assert(api.take(i) =~= group);
        assert(api.skip(i + 1) =~= version);
    } else {
        assert forall|k: int| 0 <= k < api.len() implies api[k] != '/' by {
            assert(version.contains(version[k]));
        }
        lemma_first_at(api, '/', api.len() as int);
        assert(group =~= Seq::empty());
    }
}

/// A manifest without its version, its kind or its name has no target, and one that is too
/// large is not read.
pub proof fn law_no_target(yaml: Seq<char>, json: JsonView, ns: Option<Seq<char>>, limits: YamlLimits)
    ensures
        json.str_of("apiVersion"@) is None ==> target_in(json, ns, limits.nodes) is Err,
        json.str_of("kind"@) is None ==> target_in(json, ns, limits.nodes) is Err,
        json.str_of2("metadata"@, "name"@) is None ==> target_in(json, ns, limits.nodes) is Err,
        nodes(json) >= limits.nodes ==> target_in(json, ns, limits.nodes) is Err,
        encode_utf8(yaml).len() > limits.bytes ==> target_of(yaml, ns, limits) is Err,
        encode_utf8(yaml).len() <= limits.bytes && yaml_read(yaml) == Ok::<JsonView, YamlErrorView>(json) ==> target_of(
            yaml,
            ns,
            limits,
        ) == target_in(json, ns, limits.nodes),
{
}

/// Only an edit that is to apply sends anything; a guarded one looks at the object once more
/// before it does, where it has seen a version.
pub proof fn law_edit_steps(do_apply: bool, guard: bool, seen: Option<Seq<char>>)
    ensures
        edit_next(do_apply, guard, seen) is DryRun <==> !do_apply,
        edit_next(do_apply, guard, seen) is ReadAgain <==> do_apply && guard && seen is Some,
        edit_next(do_apply, guard, seen) is Apply <==> do_apply && !(guard && seen is Some),
{
}

/// An edit is held back only by an object that has another version now than the one it had.
pub proof fn law_same_version_goes_on(seen: Option<Seq<char>>, now: Option<Seq<char>>)
    ensures
        changed(seen, now) ==> seen is Some && now is Some && seen != now,
        seen == now ==> !changed(seen, now),
        seen is None ==> !changed(seen, now),
        now is None ==> !changed(seen, now),
{
}

/// Secrets of the core group are never kept, and every other kind may be.
pub proof fn law_secret_targets(t: TargetView)
    ensures
        t.group == ""@ && t.kind == "Secret"@ ==> secret_target(t),
        t.kind != "Secret"@ ==> !secret_target(t),
        t.group.len() > 0 ==> !secret_target(t),
{
    reveal_strlit("");
}

/// The size of a value is that of its parts and one.
pub proof fn law_nodes(a: Seq<JsonView>, m: Seq<(Seq<char>, JsonView)>, x: JsonView, name: Seq<char>)
    ensures
        nodes(JsonView::Null) == 1,
        nodes(JsonView::Str(name)) == 1,
        nodes(JsonView::Array(Seq::empty())) == 1,
        nodes(JsonView::Array(a.push(x))) == nodes(JsonView::Array(a)) + nodes(x),
        nodes(JsonView::Object(m.push((name, x)))) == nodes(JsonView::Object(m)) + nodes(x),
{
    lemma_nodes_alike(a, a.push(x), a.len());
    lemma_member_nodes_alike(m, m.push((name, x)), m.len());
}

proof fn lemma_nodes_alike(a: Seq<JsonView>, b: Seq<JsonView>, n: nat)
    requires
        n <= a.len(),
        n <= b.len(),
        forall|i: int| 0 <= i < n ==> #[trigger] a[i] == b[i],
    ensures
        nodes_of(a, n) == nodes_of(b, n),
    decreases n,
{
    if n > 0 {
        lemma_nodes_alike(a, b, (n - 1) as nat);
    }
}

proof fn lemma_member_nodes_alike(a: Seq<(Seq<char>, JsonView)>, b: Seq<(Seq<char>, JsonView)>, n: nat)
    requires
        n <= a.len(),
        n <= b.len(),
        forall|i: int| 0 <= i < n ==> #[trigger] a[i] == b[i],
    ensures
        member_nodes(a, n) == member_nodes(b, n),
    decreases n,
{
    if n > 0 {
        lemma_member_nodes_alike(a, b, (n - 1) as nat);
    }
}

/// Whether the outcome of a dry run was told.
pub open spec fn tried_out(summary: DiffSummary, error: Option<Seq<char>>, r: Result<ApplyResult, ApplyError>) -> bool {
    match error {
        Some(e) => r matches Err(ApplyError::DryRun(s)) && s@ == e,
        None => r matches Ok(x) && x.dry_run && !x.applied && x.new_rv is None && x.warnings@.len() == 0 && x.summary
            == summary,
    }
}

/// A dry run changes nothing: what is told of it is that nothing was applied, and what would be
/// changed; an error of the cluster is told as the error of a dry run.
pub proof fn law_dry_run(summary: DiffSummary, error: Option<Seq<char>>, r: Result<ApplyResult, ApplyError>)
    requires
        tried_out(summary, error, r),
    ensures
        r is Ok <==> error is None,
        r matches Ok(x) ==> x.dry_run && !x.applied && x.new_rv is None && x.summary == summary,
        r matches Err(e) ==> apply_error_text(e) == "dry-run failed: "@ + error->0,
{
}

/// The kind of a target is looked for by its group, its version and its name.
pub proof fn law_kind_of_target(kinds: Seq<DiscoveredResource>, t: TargetView, i: int)
    requires
        0 <= i < kinds.len(),
        kinds[i].group@ == t.group && kinds[i].version@ == t.version && kinds[i].kind@ == t.kind,
    ensures
        kind_at(kinds, t) matches Some(p) && 0 <= p <= i && kinds[p].group@ == t.group && kinds[p].version@ == t.version
            && kinds[p].kind@ == t.kind,
{
    crate::kubehub::law_kind_found(kinds, t.group, t.version, t.kind, i);
}

/// An object that changed is refused with both of its versions, the one that was read first.
pub proof fn law_stale_text(before: String, now: String)
    ensures
        crate::text::starts(apply_error_text(ApplyError::Stale { before, now }), "live object changed (rv "@ + before@ + " -> "@ + now@),
{
    let p = "live object changed (rv "@ + before@ + " -> "@ + now@;
    assert(apply_error_text(ApplyError::Stale { before, now }).take(p.len() as int) =~= p);
}

/// Where an object of a target is read and written.
pub open spec fn located(
    kinds: Seq<DiscoveredResource>,
    t: TargetView,
    r: Result<(usize, Option<String>), ApplyError>,
) -> bool {
    match kind_at(kinds, t) {
        None => r matches Err(ApplyError::NotFound { group, version, kind }) && group@ == t.group && version@ == t.version
            && kind@ == t.kind,
        Some(i) => if !kinds[i].namespaced {
            r matches Ok((j, ns)) && j == i && ns is None
        } else if t.namespace is None {
            r matches Err(ApplyError::NamespaceRequired)
        } else {
            r matches Ok((j, ns)) && j == i && opt_text(ns) == t.namespace
        },
    }
}

/// An object of a kind with namespaces is written in the one of its target, and refused without
/// one; of another kind it is written in none. A kind that is not there is refused.
pub proof fn law_located(
    kinds: Seq<DiscoveredResource>,
    t: TargetView,
    r: Result<(usize, Option<String>), ApplyError>,
    ns: Seq<char>,
)
    requires
        located(kinds, t, r),
    ensures
        r matches Ok(p) ==> kind_at(kinds, t) == Some(p.0 as int),
        r matches Ok(p) ==> (!kinds[p.0 as int].namespaced ==> p.1 is None),
        r matches Ok(p) ==> (kinds[p.0 as int].namespaced ==> opt_text(p.1) == t.namespace && t.namespace is Some),
        kind_at(kinds, t) is None ==> r is Err,
        kind_at(kinds, t) matches Some(i) ==> (kinds[i].namespaced && t.namespace is None ==> r
            == Err::<(usize, Option<String>), ApplyError>(ApplyError::NamespaceRequired)),
        kind_at(kinds, t) is Some && t.namespace == Some(ns) ==> r is Ok,
{
}

/// Whether the outcome of an apply was told.
pub open spec fn applied_as(
    keep: bool,
    summary: DiffSummary,
    new_rv: Option<String>,
    uid: Option<Seq<char>>,
    r: Result<(ApplyResult, Option<Kept>), ApplyError>,
) -> bool {
    let done = |x: ApplyResult|
        {
            &&& !x.dry_run
            &&& x.applied
            &&& opt_text(x.new_rv) == opt_text(new_rv)
            &&& x.warnings@.len() == 0
            &&& x.summary == summary
        };
    if !keep {
        r matches Ok((x, k)) && done(x) && k is None
    } else {
        match uid {
            None => r matches Err(ApplyError::NoUid),
            Some(u) => match uuid_read(u) {
                None => r matches Err(ApplyError::BadUid),
                Some(b) => {
                    &&& r matches Ok((x, Some(k)))
                    &&& done(x)
                    &&& k.uid@ == b
                    &&& k.rv@ == text_or(new_rv, ""@)
                },
            },
        }
    }
}

/// What was applied is told as applied, with its new version; it is kept only where it is to be
/// kept, under the identity and the version that the cluster gave it.
pub proof fn law_applied(
    keep: bool,
    summary: DiffSummary,
    rv: String,
    uid: Option<Seq<char>>,
    r: Result<(ApplyResult, Option<Kept>), ApplyError>,
)
    requires
        applied_as(keep, summary, Some(rv), uid, r),
    ensures
        r matches Ok(p) ==> p.0.applied && !p.0.dry_run && opt_text(p.0.new_rv) == Some(rv@) && p.0.summary == summary,
        r matches Ok(p) ==> (p.1 is Some <==> keep),
        r matches Ok(p) ==> (p.1 matches Some(k) ==> k.rv@ == rv@ && uid is Some && uuid_read(uid->0) == Some(k.uid@)),
        !keep ==> r is Ok,
        keep && uid is None ==> r is Err,
{
}

/// Whether an edit was begun.
pub open spec fn edit_begun(
    yaml: Seq<char>,
    ns: Option<Seq<char>>,
    do_apply: bool,
    e: Seq<(Seq<char>, Seq<char>)>,
    r: Result<Edit, ApplyError>,
) -> bool {
    let limits = YamlLimits {
        bytes: size_setting(e, "ORKA_MAX_YAML_BYTES"@, 1_000_000),
        nodes: size_setting(e, "ORKA_MAX_YAML_NODES"@, 100_000),
    };
    match target_of(yaml, ns, limits) {
        Err(x) => r matches Err(ApplyError::Target(y)) && y@ == x,
        Ok(t) => {
            &&& r matches Ok(edit)
            &&& edit.target@ == t
            &&& edit.target.json is Object
            &&& edit.do_apply == do_apply
            &&& edit.guard == (setting(e, "ORKA_DISABLE_APPLY_PREFLIGHT"@) is None)
            &&& edit.keep == (!flag_setting(e, "ORKA_DISABLE_LASTAPPLIED"@) && !secret_target(t))
        },
    }
}

/// The manifest of a secret is never kept. Every other one is, and a live object is guarded,
/// unless that was switched off; what was asked for is done, and no more.
pub proof fn law_edit_begun(
    yaml: Seq<char>,
    ns: Option<Seq<char>>,
    do_apply: bool,
    e: Seq<(Seq<char>, Seq<char>)>,
    r: Result<Edit, ApplyError>,
)
    requires
        edit_begun(yaml, ns, do_apply, e, r),
    ensures
        r matches Ok(x) ==> x.do_apply == do_apply,
        r matches Ok(x) ==> (x.target.kind@ == "Secret"@ && x.target.group@.len() == 0 ==> !x.keep),
        r matches Ok(x) ==> (e.len() == 0 ==> x.guard),
        r matches Ok(x) ==> (e.len() == 0 && x.target.kind@ != "Secret"@ ==> x.keep),
        r matches Ok(x) ==> (setting(e, "ORKA_DISABLE_APPLY_PREFLIGHT"@) is Some ==> !x.guard),
        r matches Ok(x) ==> (flag_setting(e, "ORKA_DISABLE_LASTAPPLIED"@) ==> !x.keep),
{
}

/// Whether it was checked that an object did not change since it was read.
pub open spec fn fresh_checked(seen: Option<Seq<char>>, current: Option<Seq<char>>, r: Result<(), ApplyError>) -> bool {
    if changed(seen, current) {
        r matches Err(ApplyError::Stale { before, now }) && Some(before@) == seen && Some(now@) == current
    } else {
        r is Ok
    }
}

/// An apply goes on where the live object has the version that was read, or tells none, and is
/// refused where it has another one; the refusal names both.
pub proof fn law_fresh_checked(a: Seq<char>, b: Seq<char>, r: Result<(), ApplyError>)
    requires
        fresh_checked(Some(a), Some(b), r),
    ensures
        b.len() > 0 ==> (r is Ok <==> a == b),
        b.len() == 0 ==> r is Ok,
        r matches Err(ApplyError::Stale { before, now }) ==> before@ == a && now@ == b,
        r is Err ==> r->Err_0 is Stale,
{
}

/// A manifest that is the same as the one that was applied last differs from it in nothing; one
/// that cannot be parsed is not compared with.
pub proof fn law_last_diff(t: TargetView, v: JsonView, e: Seq<char>)
    requires
        wanted_of(t).sorted(),
    ensures
        stripped(v) == wanted_of(t) ==> last_diff(t, Ok(v)) == Some(DiffSummary { adds: 0, updates: 0, removes: 0 }),
        last_diff(t, Err(YamlErrorView::Parse(e))) is None,
        last_diff(t, Ok(v)) is Some,
{
    law_diff_of_itself(wanted_of(t));
    vstd::arithmetic::div_mod::lemma_small_mod(0, (usize::MAX + 1) as nat);
}

} // verus!
