//! Ordering: lexicographic keys and the stable order of a list by its keys.
use crate::text::{same_text, texts, to_chars};
use vstd::prelude::*;

verus! {

/// Lexicographic order on sequences of numbers; a proper prefix comes first.
pub open spec fn lex_lt(a: Seq<i64>, b: Seq<i64>) -> bool
    decreases a.len(),
{
    if b.len() == 0 {
        false
    } else if a.len() == 0 {
        true
    } else if a[0] == b[0] {
        lex_lt(a.skip(1), b.skip(1))
    } else {
        a[0] < b[0]
    }
}

/// The scalar values of a text.
pub open spec fn codes(s: Seq<char>) -> Seq<i64> {
    s.map_values(|c: char| c as i64)
}

/// The order of texts: character by character, by scalar value.
pub open spec fn text_lt(a: Seq<char>, b: Seq<char>) -> bool {
    lex_lt(codes(a), codes(b))
}

/// The lexicographic order is irreflexive.
pub proof fn lemma_lex_irreflexive(a: Seq<i64>)
    ensures
        !lex_lt(a, a),
    decreases a.len(),
{
    if a.len() > 0 {
        lemma_lex_irreflexive(a.skip(1));
    }
}

/// The lexicographic order is transitive.
pub proof fn lemma_lex_transitive(a: Seq<i64>, b: Seq<i64>, c: Seq<i64>)
    requires
        lex_lt(a, b),
        lex_lt(b, c),
    ensures
        lex_lt(a, c),
    decreases a.len(),
{
    if a.len() > 0 && a[0] == b[0] && b[0] == c[0] {
        lemma_lex_transitive(a.skip(1), b.skip(1), c.skip(1));
    }
}

/// Two sequences of which neither comes first are equal.
pub proof fn lemma_lex_total(a: Seq<i64>, b: Seq<i64>)
    requires
        !lex_lt(a, b),
        !lex_lt(b, a),
    ensures
        a == b,
    decreases a.len(),
{
    if a.len() > 0 && b.len() > 0 {
        lemma_lex_total(a.skip(1), b.skip(1));
        assert forall|i: int| 0 <= i < a.len() implies a[i] == b[i] by {
            if i > 0 {
                assert(a.skip(1)[i - 1] == b.skip(1)[i - 1]);
            }
        }
        assert(a.skip(1).len() == b.skip(1).len());
        assert(a =~= b);
    } else {
        assert(a =~= b);
    }
}

/// The scalar value of a character fits the numbers that keys are made of.
pub proof fn lemma_code(c: char)
    ensures
        (c as i64) as int == c as int,
        (c as u32) as int == c as int,
{
}

/// Equal codes come from equal texts.
pub proof fn lemma_codes_injective(a: Seq<char>, b: Seq<char>)
    requires
        codes(a) == codes(b),
    ensures
        a == b,
{
    assert(codes(a).len() == a.len() && codes(b).len() == b.len());
    assert forall|i: int| 0 <= i < a.len() implies a[i] == b[i] by {
        let x: char = a[i];
        let y: char = b[i];
        lemma_code(x);
        lemma_code(y);
        assert(codes(a)[i] == x as i64);
        assert(codes(b)[i] == y as i64);
        assert(x as int == y as int);
        assert(x == y);
    }
    assert(a =~= b);
}

/// Whether one sequence of numbers comes before another.
pub fn lex_less(a: &Vec<i64>, b: &Vec<i64>) -> (r: bool)
    ensures
        r == lex_lt(a@, b@),
{
    let mut i: usize = 0;
    assert(a@.skip(0) =~= a@);
    assert(b@.skip(0) =~= b@);
    loop
        invariant
            i <= a.len(),
            i <= b.len(),
            lex_lt(a@, b@) == lex_lt(a@.skip(i as int), b@.skip(i as int)),
        decreases a.len() - i,
    {
        if i == b.len() {
            return false;
        }
        if i == a.len() {
            return true;
        }
        assert(a@.skip(i as int)[0] == a@[i as int]);
        assert(b@.skip(i as int)[0] == b@[i as int]);
        if a[i] != b[i] {
            return a[i] < b[i];
        }
        assert(a@.skip(i as int).skip(1) =~= a@.skip(i + 1));
        assert(b@.skip(i as int).skip(1) =~= b@.skip(i + 1));
        i += 1;
    }
}

/// The key by which a text is ordered.
pub fn text_key(s: &str) -> (r: Vec<i64>)
    ensures
        r@ == codes(s@),
{
    let v = to_chars(s);
    let mut out: Vec<i64> = Vec::new();
    let mut i: usize = 0;
    while i < v.len()
        invariant
            i <= v.len(),
            out@ =~= codes(v@.take(i as int)),
        decreases v.len() - i,
    {
        assert(v@.take(i + 1) =~= v@.take(i as int).push(v@[i as int]));
        let c: char = v[i];
        proof {
            lemma_code(c);
        }
        let x: u32 = c as u32;
        out.push(x as i64);
        i += 1;
    }
    assert(v@.take(v@.len() as int) =~= s@);
    out
}

/// Whether a text comes before another.
pub fn text_less(a: &str, b: &str) -> (r: bool)
    ensures
        r == text_lt(a@, b@),
{
    let x = text_key(a);
    let y = text_key(b);
    lex_less(&x, &y)
}

/// Whether item `a` comes before item `b` in the stable order by their keys: by a
/// smaller key, or by an earlier place where the keys are equal.
pub open spec fn before(keys: Seq<Seq<i64>>, a: int, b: int) -> bool {
    lex_lt(keys[a], keys[b]) || (!lex_lt(keys[b], keys[a]) && a < b)
}

/// Whether `order` lists the places of the items in the stable order by their keys.
/// There is exactly one such list for given keys.
pub open spec fn is_stable_order(keys: Seq<Seq<i64>>, order: Seq<usize>) -> bool {
    &&& order.len() == keys.len()
    &&& order.no_duplicates()
    &&& forall|i: int| 0 <= i < order.len() ==> (#[trigger] order[i]) < keys.len()
    &&& forall|i: int, j: int|
        0 <= i < j < order.len() ==> before(keys, #[trigger] order[i] as int, #[trigger] order[j] as int)
}

/// The keys of a list of key vectors.
pub open spec fn key_seqs(keys: Seq<Vec<i64>>) -> Seq<Seq<i64>> {
    keys.map_values(|k: Vec<i64>| k@)
}

/// The stable order of a list by its keys: insertion of each place behind every
/// earlier place whose key is not larger.
pub fn stable_order(keys: &Vec<Vec<i64>>) -> (order: Vec<usize>)
    ensures
        is_stable_order(key_seqs(keys@), order@),
{
    let ghost ks = key_seqs(keys@);
    let mut out: Vec<usize> = Vec::new();
    let mut i: usize = 0;
    while i < keys.len()
        invariant
            ks == key_seqs(keys@),
            i <= keys.len(),
            out.len() == i,
            forall|a: int| 0 <= a < out.len() ==> (#[trigger] out@[a]) < i,
            forall|a: int, b: int|
                0 <= a < b < out.len() ==> before(ks, #[trigger] out@[a] as int, #[trigger] out@[b] as int),
        decreases keys.len() - i,
    {
        let mut p: usize = 0;
        while p < out.len() && !lex_less(&keys[i], &keys[out[p]])
            invariant
                ks == key_seqs(keys@),
                i < keys.len(),
                out.len() == i,
                p <= out.len(),
                forall|a: int| 0 <= a < out.len() ==> (#[trigger] out@[a]) < i,
                forall|a: int| 0 <= a < p ==> !lex_lt(ks[i as int], ks[#[trigger] out@[a] as int]),
            ensures
                p <= out.len(),
                forall|a: int| 0 <= a < p ==> !lex_lt(ks[i as int], ks[#[trigger] out@[a] as int]),
                p < out.len() ==> lex_lt(ks[i as int], ks[out@[p as int] as int]),
            decreases out.len() - p,
        {
            p += 1;
        }
        let ghost prev = out@;
        proof {
            assert forall|a: int| p <= a < prev.len() implies lex_lt(
                ks[i as int],
                ks[#[trigger] prev[a] as int],
            ) by {
                let x = ks[i as int];
                let y = ks[prev[p as int] as int];
                let z = ks[prev[a] as int];
                if a > p {
                    assert(before(ks, prev[p as int] as int, prev[a] as int));
                    if lex_lt(y, z) {
                        lemma_lex_transitive(x, y, z);
                    } else if !lex_lt(x, z) {
                        if lex_lt(z, x) {
                            lemma_lex_transitive(z, x, y);
                        } else {
                            lemma_lex_total(x, z);
                        }
                    }
                }
            }
        }
        out.insert(p, i);
        proof {
            assert forall|a: int, b: int| 0 <= a < b < out.len() implies before(
                ks,
                #[trigger] out@[a] as int,
                #[trigger] out@[b] as int,
            ) by {
                let pa = if a < p { a } else { a - 1 };
                let pb = if b < p { b } else { b - 1 };
                if a == p {
                    assert(out@[b] == prev[pb]);
                } else if b == p {
                    assert(out@[a] == prev[pa]);
                } else {
                    assert(out@[a] == prev[pa]);
                    assert(out@[b] == prev[pb]);
                }
            }
        }
        i += 1;
    }
    proof {
        assert forall|a: int, b: int| 0 <= a < out.len() && 0 <= b < out.len() && a != b implies out@[a]
            != out@[b] by {
            if a < b {
                assert(before(ks, out@[a] as int, out@[b] as int));
                lemma_lex_irreflexive(ks[out@[a] as int]);
            } else {
                assert(before(ks, out@[b] as int, out@[a] as int));
                lemma_lex_irreflexive(ks[out@[a] as int]);
            }
        }
    }
    out
}

/// Whether item `a` comes before item `b` in the stable descending order by their
/// keys: by a larger key, or by an earlier place where the keys are equal.
pub open spec fn before_descending(keys: Seq<Seq<i64>>, a: int, b: int) -> bool {
    lex_lt(keys[b], keys[a]) || (!lex_lt(keys[a], keys[b]) && a < b)
}

/// Whether `order` lists the places of the items in the stable descending order by
/// their keys. There is exactly one such list for given keys.
pub open spec fn is_stable_descending(keys: Seq<Seq<i64>>, order: Seq<usize>) -> bool {
    &&& order.len() == keys.len()
    &&& order.no_duplicates()
    &&& forall|i: int| 0 <= i < order.len() ==> (#[trigger] order[i]) < keys.len()
    &&& forall|i: int, j: int|
        0 <= i < j < order.len() ==> before_descending(
            keys,
            #[trigger] order[i] as int,
            #[trigger] order[j] as int,
        )
}

/// The stable descending order of a list by its keys: the ascending order of the
/// reversed list, read backwards.
pub fn stable_descending(keys: &Vec<Vec<i64>>) -> (order: Vec<usize>)
    ensures
        is_stable_descending(key_seqs(keys@), order@),
{
    let n: usize = keys.len();
    let ghost ks = key_seqs(keys@);
    let mut back: Vec<Vec<i64>> = Vec::new();
    let mut i: usize = 0;
    while i < n
        invariant
            i <= n,
            n == keys.len(),
            back.len() == i,
            forall|k: int| 0 <= k < i ==> (#[trigger] back@[k])@ == keys@[n - 1 - k]@,
        decreases n - i,
    {
        let k = keys[n - 1 - i].clone();
        assert(k@ =~= keys@[n - 1 - i]@);
        back.push(k);
        i += 1;
    }
    let ghost bs = key_seqs(back@);
    assert forall|k: int| 0 <= k < n implies #[trigger] bs[k] == ks[n - 1 - k] by {}
    let asc = stable_order(&back);
    let mut out: Vec<usize> = Vec::new();
    let mut j: usize = 0;
    while j < n
        invariant
            j <= n,
            n == asc.len(),
            out.len() == j,
            forall|k: int| 0 <= k < n ==> (#[trigger] asc@[k]) < n,
            forall|k: int| 0 <= k < j ==> #[trigger] out@[k] == n - 1 - asc@[n - 1 - k],
        decreases n - j,
    {
        out.push(n - 1 - asc[n - 1 - j]);
        j += 1;
    }
    proof {
        assert forall|a: int, b: int| 0 <= a < b < out.len() implies before_descending(
            ks,
            #[trigger] out@[a] as int,
            #[trigger] out@[b] as int,
        ) by {
            let x = asc@[n - 1 - b];
            let y = asc@[n - 1 - a];
            assert(before(bs, x as int, y as int));
            assert(bs[x as int] == ks[n - 1 - x]);
            assert(bs[y as int] == ks[n - 1 - y]);
        }
        assert forall|a: int, b: int| 0 <= a < out.len() && 0 <= b < out.len() && a != b implies out@[a]
            != out@[b] by {
            assert(asc@[n - 1 - a] != asc@[n - 1 - b]);
        }
    }
    out
}

// ---------------------------------------------------------------------------
// Lists of texts

/// An ascending list with one more text, behind those that are equal.
pub open spec fn insert_text(s: Seq<Seq<char>>, t: Seq<char>) -> Seq<Seq<char>>
    decreases s.len(),
{
    if s.len() > 0 && text_lt(t, s.last()) {
        insert_text(s.drop_last(), t).push(s.last())
    } else {
        s.push(t)
    }
}

/// The texts of a list in ascending order.
pub open spec fn sorted_texts(s: Seq<Seq<char>>) -> Seq<Seq<char>>
    decreases s.len(),
{
    if s.len() == 0 {
        s
    } else {
        insert_text(sorted_texts(s.drop_last()), s.last())
    }
}

/// A list without the elements that equal the one before.
pub open spec fn dedup<A>(s: Seq<A>) -> Seq<A>
    decreases s.len(),
{
    if s.len() <= 1 {
        s
    } else if s.last() == s[s.len() - 2] {
        dedup(s.drop_last())
    } else {
        dedup(s.drop_last()).push(s.last())
    }
}

/// Whether no text of a list comes after a later one.
pub open spec fn ascends(s: Seq<Seq<char>>) -> bool {
    forall|i: int, j: int| 0 <= i < j < s.len() ==> !text_lt(#[trigger] s[j], #[trigger] s[i])
}

/// Whether every text of a list comes before the later ones.
pub open spec fn strictly_ascends(s: Seq<Seq<char>>) -> bool {
    forall|i: int, j: int| 0 <= i < j < s.len() ==> text_lt(#[trigger] s[i], #[trigger] s[j])
}

/// Of two texts one comes first, or they are equal.
pub proof fn lemma_text_order(a: Seq<char>, b: Seq<char>)
    ensures
        text_lt(a, b) || text_lt(b, a) || a == b,
{
    if !text_lt(a, b) && !text_lt(b, a) {
        lemma_lex_total(codes(a), codes(b));
        lemma_codes_injective(a, b);
    }
}

/// An insertion keeps the order and adds the text.
pub proof fn lemma_insert_text(s: Seq<Seq<char>>, t: Seq<char>)
    requires
        ascends(s),
    ensures
        ascends(insert_text(s, t)),
        insert_text(s, t).len() == s.len() + 1,
        insert_text(s, t).to_multiset() == s.to_multiset().insert(t),
        s.len() > 0 ==> !text_lt(insert_text(s, t).last(), s.last()),
        insert_text(s, t).last() == t || (s.len() > 0 && insert_text(s, t).last() == s.last()),
    decreases s.len(),
{
    broadcast use vstd::seq_lib::group_to_multiset_ensures;

    lemma_lex_irreflexive(codes(t));
    if s.len() > 0 {
        lemma_lex_irreflexive(codes(s.last()));
    }
    if s.len() > 0 && text_lt(t, s.last()) {
        let d = s.drop_last();
        lemma_insert_text(d, t);
        let r = insert_text(d, t);
        assert(s =~= d.push(s.last()));
        assert(insert_text(s, t) == r.push(s.last()));
        assert(r.push(s.last()).to_multiset() =~= s.to_multiset().insert(t));
        assert(!text_lt(s.last(), r.last())) by {
            if d.len() > 0 {
                assert(!text_lt(s[s.len() - 1], s[s.len() - 2]));
            }
            if r.last() == t && text_lt(s.last(), t) {
                lemma_lex_transitive(codes(t), codes(s.last()), codes(t));
            }
        }
        assert forall|i: int, j: int| 0 <= i < j < r.len() + 1 implies !text_lt(
            #[trigger] r.push(s.last())[j],
            #[trigger] r.push(s.last())[i],
        ) by {
            if j == r.len() && i < r.len() - 1 {
                if text_lt(s.last(), r[i]) {
                    assert(!text_lt(r[r.len() - 1], r[i]));
                    lemma_text_order(r.last(), s.last());
                    if text_lt(r.last(), s.last()) {
                        lemma_lex_transitive(codes(r.last()), codes(s.last()), codes(r[i]));
                    }
                }
            }
        }
    } else {
        let r = s.push(t);
        assert forall|i: int, j: int| 0 <= i < j < r.len() implies !text_lt(
            #[trigger] r[j],
            #[trigger] r[i],
        ) by {
            if j == s.len() && i < s.len() - 1 {
                if text_lt(t, s[i]) {
                    assert(!text_lt(s[s.len() - 1], s[i]));
                    lemma_text_order(t, s.last());
                    if text_lt(s.last(), t) {
                        lemma_lex_transitive(codes(s.last()), codes(t), codes(s[i]));
                    }
                }
            }
        }
    }
}

/// Sorting gives the same texts, in ascending order.
pub proof fn law_sorted_texts(s: Seq<Seq<char>>)
    ensures
        ascends(sorted_texts(s)),
        sorted_texts(s).to_multiset() == s.to_multiset(),
    decreases s.len(),
{
    broadcast use vstd::seq_lib::group_to_multiset_ensures;

    if s.len() > 0 {
        law_sorted_texts(s.drop_last());
        lemma_insert_text(sorted_texts(s.drop_last()), s.last());
        assert(s =~= s.drop_last().push(s.last()));
    }
}

/// Of an ascending list, every text is kept once, in strictly ascending order.
pub proof fn lemma_dedup_ascends(s: Seq<Seq<char>>)
    requires
        ascends(s),
    ensures
        strictly_ascends(dedup(s)),
        s.len() > 0 ==> dedup(s).len() > 0 && dedup(s).last() == s.last(),
        forall|t: Seq<char>| #[trigger] dedup(s).contains(t) <==> s.contains(t),
    decreases s.len(),
{
    if s.len() > 1 {
        let d = s.drop_last();
        lemma_dedup_ascends(d);
        assert(d.last() == s[s.len() - 2]);
        let r = dedup(s);
        if s.last() == s[s.len() - 2] {
            assert forall|t: Seq<char>| r.contains(t) <==> s.contains(t) by {
                if s.contains(t) {
                    let k = choose|k: int| 0 <= k < s.len() && s[k] == t;
                    assert(d[if k < d.len() {
                        k
                    } else {
                        k - 1
                    }] == t);
                }
                if d.contains(t) {
                    let k = choose|k: int| 0 <= k < d.len() && d[k] == t;
                    assert(s[k] == t);
                }
            }
        } else {
            let p = dedup(d);
            lemma_text_order(s[s.len() - 2], s.last());
            assert(!text_lt(s[s.len() - 1], s[s.len() - 2]));
            assert forall|i: int, j: int| 0 <= i < j < r.len() implies text_lt(
                #[trigger] r[i],
                #[trigger] r[j],
            ) by {
                if j == p.len() && i < p.len() - 1 {
                    assert(text_lt(p[i], p[p.len() - 1]));
                    lemma_lex_transitive(codes(p[i]), codes(p.last()), codes(s.last()));
                }
            }
            assert forall|t: Seq<char>| r.contains(t) <==> s.contains(t) by {
                assert(dedup(d).contains(t) <==> d.contains(t));
                if r.contains(t) {
                    let k = choose|k: int| 0 <= k < r.len() && r[k] == t;
                    if k < p.len() {
                        assert(p[k] == t);
                        let m = choose|m: int| 0 <= m < d.len() && d[m] == t;
                        assert(s[m] == t);
                    } else {
                        assert(s[s.len() - 1] == t);
                    }
                }
                if s.contains(t) {
                    let k = choose|k: int| 0 <= k < s.len() && s[k] == t;
                    if k < d.len() {
                        assert(d[k] == t);
                        assert(p.contains(t));
                        let m = choose|m: int| 0 <= m < p.len() && p[m] == t;
                        assert(r[m] == t);
                    } else {
                        assert(r[r.len() - 1] == t);
                    }
                }
            }
        }
    }
}

/// Sorted and deduplicated, every text of a list stands once, in strictly ascending
/// order.
pub proof fn law_sorted_unique(s: Seq<Seq<char>>)
    ensures
        strictly_ascends(dedup(sorted_texts(s))),
        forall|t: Seq<char>| dedup(sorted_texts(s)).contains(t) <==> s.contains(t),
{
    broadcast use vstd::seq_lib::group_to_multiset_ensures;

    law_sorted_texts(s);
    lemma_dedup_ascends(sorted_texts(s));
    assert forall|t: Seq<char>| sorted_texts(s).contains(t) <==> s.contains(t) by {
        assert(s.to_multiset().count(t) > 0 <==> s.contains(t));
        assert(sorted_texts(s).to_multiset().count(t) > 0 <==> sorted_texts(s).contains(t));
    }
}

fn insert_into(v: &mut Vec<String>, t: String)
    ensures
        texts(final(v)@) == insert_text(texts(old(v)@), t@),
{
    let ghost s = texts(v@);
    let ghost tv = t@;
    let mut i: usize = v.len();
    let ghost whole = v@;
    assert(s.take(s.len() as int) =~= s);
    assert(insert_text(s, tv) + s.skip(s.len() as int) =~= insert_text(s, tv));
    while i > 0 && text_less(t.as_str(), v[i - 1].as_str())
        invariant
            i <= v.len(),
            v@ == whole,
            s == texts(whole),
            tv == t@,
            insert_text(s, tv) == insert_text(s.take(i as int), tv) + s.skip(i as int),
        ensures
            insert_text(s, tv) == s.take(i as int).push(tv) + s.skip(i as int),
        decreases i,
    {
        assert(s.take(i as int).last() == v@[i - 1]@);
        assert(s.take(i as int).drop_last() =~= s.take(i - 1));
        assert(insert_text(s.take(i - 1), tv).push(s[i - 1]) + s.skip(i as int) =~= insert_text(
            s.take(i - 1),
            tv,
        ) + s.skip(i - 1));
        i -= 1;
    }
    v.insert(i, t);
    assert(texts(v@) =~= s.take(i as int).push(tv) + s.skip(i as int));
}

/// The texts of a list in ascending order.
pub fn sort_texts(v: Vec<String>) -> (r: Vec<String>)
    ensures
        texts(r@) == sorted_texts(texts(v@)),
{
    let ghost all = texts(v@);
    let mut out: Vec<String> = Vec::new();
    let mut i: usize = 0;
    assert(texts(out@) =~= sorted_texts(all.take(0)));
    while i < v.len()
        invariant
            i <= v.len(),
            all == texts(v@),
            texts(out@) == sorted_texts(all.take(i as int)),
        decreases v.len() - i,
    {
        assert(all.take(i + 1).drop_last() =~= all.take(i as int));
        assert(all.take(i + 1).last() == v@[i as int]@);
        insert_into(&mut out, v[i].clone());
        i += 1;
    }
    assert(all.take(all.len() as int) =~= all);
    out
}

/// A list without the texts that equal the one before.
pub fn dedup_texts(v: Vec<String>) -> (r: Vec<String>)
    ensures
        texts(r@) == dedup(texts(v@)),
{
    let ghost all = texts(v@);
    let mut out: Vec<String> = Vec::new();
    let mut i: usize = 0;
    assert(texts(out@) =~= dedup(all.take(0)));
    while i < v.len()
        invariant
            i <= v.len(),
            all == texts(v@),
            texts(out@) == dedup(all.take(i as int)),
        decreases v.len() - i,
    {
        let ghost before = texts(out@);
        let ghost now = all.take(i + 1);
        assert(now.drop_last() =~= all.take(i as int));
        assert(now.last() == v@[i as int]@);
        if i > 0 {
            assert(now[now.len() - 2] == v@[i - 1]@);
            if same_text(v[i].as_str(), v[i - 1].as_str()) {
                i += 1;
                continue;
            }
        } else {
            assert(all.take(0) =~= Seq::empty());
            assert(before.push(v@[i as int]@) =~= now);
        }
        out.push(v[i].clone());
        assert(texts(out@) =~= before.push(v@[i as int]@));
        i += 1;
    }
    assert(all.take(all.len() as int) =~= all);
    out
}

/// Texts are ordered by the first character in which they differ; a text comes before each
/// longer one that it begins.
pub proof fn law_text_order(a: Seq<char>, b: Seq<char>, k: int)
    requires
        0 <= k <= a.len(),
        k < b.len(),
        forall|i: int| 0 <= i < k ==> #[trigger] a[i] == b[i],
        k < a.len() ==> a[k] < b[k],
    ensures
        text_lt(a, b),
        !text_lt(b, a),
    decreases a.len(),
{
    let (x, y) = (codes(a), codes(b));
    if k > 0 {
        assert(a[0] == b[0]);
        let (a1, b1) = (a.skip(1), b.skip(1));
        assert forall|i: int| 0 <= i < k - 1 implies #[trigger] a1[i] == b1[i] by {
            assert(a[i + 1] == b[i + 1]);
        }
        law_text_order(a1, b1, k - 1);
        assert(x.skip(1) =~= codes(a1));
        assert(y.skip(1) =~= codes(b1));
        assert(x[0] == y[0]);
    } else if a.len() > 0 {
        let c: char = a[0];
        let d: char = b[0];
        lemma_code(c);
        lemma_code(d);
        assert(x[0] == c as i64 && y[0] == d as i64);
    }
}

} // verus!
