//! The search overlay: the query, the live preview, and the hits.
use crate::gui::model::{App, Handle, SearchState};
use crate::gui::nav::selected_kind;
use crate::gui::results::{build_filter_haystack, haystack, row_of, table, Table};
use crate::gui::select::{row_selected, selection_of, Selected};
use crate::order::{
    before, codes, is_stable_order, key_seqs, lemma_lex_irreflexive, lemma_lex_transitive, lex_lt, stable_order, text_key,
    text_lt,
};
use crate::text::{
    after_prefix, cat2, cat5, copy_text, dec_int, i64_text, join, join_text, lowercase, opt_text, option_is,
    split_words, strip_prefix, texts, to_lowercase, trim, trimmed, words,
};
use crate::types::{be_value, key_of, lite_views, uid_key, KindView, LiteObj, LiteView, ResourceKind, Selector, Uid};
use fuzzy_matcher::FuzzyMatcher;
use vstd::prelude::*;
use vstd::std_specs::hash::*;
use vstd::string::*;

verus! {

broadcast use {vstd::std_specs::hash::group_hash_axioms};

// ---------------------------------------------------------------------------
// Fuzzy matching

/// The score that `SkimMatcherV2::fuzzy_match` gives a text for a pattern, where it
/// matches.
pub uninterp spec fn fuzzy_score(text: Seq<char>, pattern: Seq<char>) -> Option<i64>;

/// The places of the characters that `SkimMatcherV2::fuzzy_indices` finds in a text for a
/// pattern, where it matches.
pub uninterp spec fn fuzzy_places(text: Seq<char>, pattern: Seq<char>) -> Option<Seq<usize>>;

/// `SkimMatcherV2::fuzzy_match` of a new default matcher: a function of the text and the
/// pattern.
#[verifier::external_body]
pub(crate) fn fuzzy_match(text: &str, pattern: &str) -> (r: Option<i64>)
    ensures
        r == fuzzy_score(text@, pattern@),
{
    fuzzy_matcher::skim::SkimMatcherV2::default().fuzzy_match(text, pattern)
}

/// `SkimMatcherV2::fuzzy_indices` of a new default matcher, without the score: a function of
/// the text and the pattern.
#[verifier::external_body]
pub(crate) fn fuzzy_indices(text: &str, pattern: &str) -> (r: Option<Vec<usize>>)
    ensures
        match r {
            Some(v) => fuzzy_places(text@, pattern@) == Some(v@),
            None => fuzzy_places(text@, pattern@) is None,
        },
{
    fuzzy_matcher::skim::SkimMatcherV2::default().fuzzy_indices(text, pattern).map(|p| p.1)
}

// ---------------------------------------------------------------------------
// The query

/// The value of the last word with a prefix.
pub open spec fn last_filter(ws: Seq<Seq<char>>, prefix: Seq<char>) -> Option<Seq<char>>
    decreases ws.len(),
{
    if ws.len() == 0 {
        None
    } else {
        match after_prefix(ws.last(), prefix) {
            Some(v) => Some(v),
            None => last_filter(ws.drop_last(), prefix),
        }
    }
}

/// The words without a prefix.
pub open spec fn free_words(ws: Seq<Seq<char>>, prefix: Seq<char>) -> Seq<Seq<char>>
    decreases ws.len(),
{
    if ws.len() == 0 {
        Seq::empty()
    } else if after_prefix(ws.last(), prefix) is Some {
        free_words(ws.drop_last(), prefix)
    } else {
        free_words(ws.drop_last(), prefix).push(ws.last())
    }
}

/// The namespace that a query asks for.
pub open spec fn query_namespace(q: Seq<char>) -> Option<Seq<char>> {
    last_filter(words(q), "ns:"@)
}

/// The text that a query searches for, in lower case.
pub open spec fn query_text(q: Seq<char>) -> Seq<char> {
    lowercase(join(free_words(words(q), "ns:"@), " "@))
}

/// The words of a list that begin with a prefix, by the last of them, and the other words.
pub fn take_filter(ws: Vec<String>, prefix: &str) -> (r: (Option<String>, Vec<String>))
    ensures
        opt_text(r.0) == last_filter(texts(ws@), prefix@),
        texts(r.1@) == free_words(texts(ws@), prefix@),
{
    let ghost all = texts(ws@);
    let mut found: Option<String> = None;
    let mut free: Vec<String> = Vec::new();
    let mut i: usize = 0;
    assert(all.take(0) =~= Seq::empty());
    assert(texts(free@) =~= Seq::empty());
    while i < ws.len()
        invariant
            i <= ws.len(),
            all == texts(ws@),
            opt_text(found) == last_filter(all.take(i as int), prefix@),
            texts(free@) == free_words(all.take(i as int), prefix@),
        decreases ws.len() - i,
    {
        assert(all.take(i + 1).drop_last() =~= all.take(i as int));
        assert(all.take(i + 1).last() == ws@[i as int]@);
        let ghost before = texts(free@);
        match strip_prefix(ws[i].as_str(), prefix) {
            Some(v) => {
                found = Some(v);
            },
            None => {
                free.push(ws[i].clone());
                assert(texts(free@) =~= before.push(ws@[i as int]@));
            },
        }
        i += 1;
    }
    assert(all.take(all.len() as int) =~= all);
    (found, free)
}

// ---------------------------------------------------------------------------
// The live preview

/// How many rows the preview shows.
pub const PREVIEW_LIMIT: usize = 10;

/// Whether a row is in the namespace that a query asks for.
pub open spec fn in_namespace(row: LiteView, ns: Option<Seq<char>>) -> bool {
    ns is None || row.namespace == ns
}

/// The text that is searched of a row: the one that is kept for its identity, else its own.
pub open spec fn searched_text(t: Table, row: LiteView) -> Seq<char> {
    let key = be_value(row.uid) as u128;
    if t.filter.contains_key(key) {
        t.filter[key]
    } else {
        haystack(row)
    }
}

/// The score of a text for a query text; -10 where it does not match.
pub open spec fn score_of(text: Seq<char>, q: Seq<char>) -> i64 {
    if q.len() == 0 {
        0
    } else {
        match fuzzy_score(text, q) {
            Some(s) => s,
            None => -10i64,
        }
    }
}

/// The rows that a query finds among the first `n`, with their scores.
pub open spec fn scored_rows(t: Table, ns: Option<Seq<char>>, q: Seq<char>, n: nat) -> Seq<(Seq<u8>, i64)>
    decreases n,
{
    if n == 0 {
        Seq::empty()
    } else {
        let rest = scored_rows(t, ns, q, (n - 1) as nat);
        let row = t.rows[n - 1];
        let score = score_of(searched_text(t, row), q);
        if in_namespace(row, ns) && score >= 0 {
            rest.push((row.uid, score))
        } else {
            rest
        }
    }
}

/// The key by which a hit is ordered: by a higher score, then by the name of its row.
pub open spec fn hit_key(t: Table, hit: (Seq<u8>, i64)) -> Seq<i64> {
    seq![(-hit.1) as i64] + codes(
        match row_of(t, be_value(hit.0) as u128) {
            Some(row) => row.name,
            None => Seq::empty(),
        },
    )
}

/// The keys of a list of hits.
pub open spec fn hit_keys(t: Table, hits: Seq<(Seq<u8>, i64)>) -> Seq<Seq<i64>> {
    hits.map_values(|h: (Seq<u8>, i64)| hit_key(t, h))
}

/// The models of a list of hits.
pub open spec fn hit_views(v: Seq<(Uid, i64)>) -> Seq<(Seq<u8>, i64)> {
    v.map_values(|h: (Uid, i64)| (h.0@, h.1))
}

/// The first elements of a list in a given order.
pub open spec fn first_in_order<A>(s: Seq<A>, order: Seq<usize>, limit: nat) -> Seq<A> {
    Seq::new(
        if order.len() < limit {
            order.len()
        } else {
            limit
        },
        |i: int| s[order[i] as int],
    )
}

/// Whether a list holds the best hits for a query, in order.
pub open spec fn best_hits(t: Table, query: Seq<char>, hits: Seq<(Seq<u8>, i64)>) -> bool {
    let all = scored_rows(t, query_namespace(query), query_text(query), t.rows.len());
    exists|order: Seq<usize>| #[trigger]
        is_stable_order(hit_keys(t, all), order) && hits == first_in_order(
            all,
            order,
            PREVIEW_LIMIT as nat,
        )
}

/// Whether the preview was filled for the query: with the best rows, the first one
/// selected. Where there is no query or no row, the preview is empty and the selection
/// stays.
pub open spec fn preview_built(pre: App, post: App) -> bool {
    let p = post.search.preview@;
    &&& post == (App {
        search: SearchState {
            preview: post.search.preview,
            preview_sel: post.search.preview_sel,
            ..pre.search
        },
        ..pre
    })
    &&& if trimmed(pre.search.query@).len() == 0 || pre.results.rows@.len() == 0 {
        p.len() == 0 && post.search.preview_sel == pre.search.preview_sel
    } else {
        &&& best_hits(table(pre.results), pre.search.query@, hit_views(p))
        &&& post.search.preview_sel == if p.len() == 0 {
            None
        } else {
            Some(0usize)
        }
    }
}

impl App {
    /// The text that is searched of a row.
    pub fn search_text(&self, it: &LiteObj) -> (r: String)
        ensures
            r@ == searched_text(table(self.results), it@),
    {
        let key = key_of(&it.uid);
        match self.results.filter_cache.get(&key) {
            Some(s) => s.clone(),
            None => build_filter_haystack(it),
        }
    }

    fn score_rows(&self, ns: &Option<String>, q: &str) -> (r: Vec<(Uid, i64)>)
        ensures
            hit_views(r@) == scored_rows(
                table(self.results),
                opt_text(*ns),
                q@,
                self.results.rows@.len(),
            ),
            forall|k: int| 0 <= k < r@.len() ==> (#[trigger] r@[k]).1 >= 0,
    {
        let ghost t = table(self.results);
        let ghost nv = opt_text(*ns);
        let mut out: Vec<(Uid, i64)> = Vec::new();
        let mut i: usize = 0;
        assert(hit_views(out@) =~= Seq::empty());
        while i < self.results.rows.len()
            invariant
                i <= self.results.rows.len(),
                t == table(self.results),
                nv == opt_text(*ns),
                hit_views(out@) == scored_rows(t, nv, q@, i as nat),
                forall|k: int| 0 <= k < out@.len() ==> (#[trigger] out@[k]).1 >= 0,
            decreases self.results.rows.len() - i,
        {
            let it = &self.results.rows[i];
            assert(t.rows[i as int] == it@);
            let ghost before = hit_views(out@);
            let inside = match ns {
                Some(n) => option_is(&it.namespace, n.as_str()),
                None => true,
            };
            if inside {
                let score: i64 = if q.is_empty() {
                    0
                } else {
                    let text = self.search_text(it);
                    match fuzzy_match(text.as_str(), q) {
                        Some(s) => s,
                        None => -10,
                    }
                };
                if score >= 0 {
                    out.push((it.uid, score));
                    assert(hit_views(out@) =~= before.push((it@.uid, score)));
                }
            }
            i += 1;
        }
        out
    }

    fn hit_order(&self, hits: &Vec<(Uid, i64)>) -> (r: Vec<usize>)
        requires
            forall|k: int| 0 <= k < hits@.len() ==> (#[trigger] hits@[k]).1 >= 0,
        ensures
            is_stable_order(hit_keys(table(self.results), hit_views(hits@)), r@),
    {
        let ghost t = table(self.results);
        let ghost hv = hit_views(hits@);
        let mut keys: Vec<Vec<i64>> = Vec::new();
        let mut i: usize = 0;
        while i < hits.len()
            invariant
                i <= hits.len(),
                t == table(self.results),
                hv == hit_views(hits@),
                forall|k: int| 0 <= k < hits@.len() ==> (#[trigger] hits@[k]).1 >= 0,
                keys@.len() == i,
                forall|k: int| 0 <= k < i ==> (#[trigger] keys@[k])@ == hit_key(t, hv[k]),
            decreases hits.len() - i,
        {
            assert(hv[i as int] == (hits@[i as int].0@, hits@[i as int].1));
            let mut key: Vec<i64> = Vec::new();
            key.push(-hits[i].1);
            let mut name = match self.results.find(&hits[i].0) {
                Some(row) => text_key(row.name.as_str()),
                None => Vec::new(),
            };
            let ghost nv = name@;
            assert(nv =~= codes(
                match row_of(t, be_value(hv[i as int].0) as u128) {
                    Some(row) => row.name,
                    None => Seq::empty(),
                },
            ));
            key.append(&mut name);
            assert(key@ =~= hit_key(t, hv[i as int]));
            keys.push(key);
            i += 1;
        }
        assert(key_seqs(keys@) =~= hit_keys(t, hv));
        stable_order(&keys)
    }

    /// Fill the live preview for the query: the best rows, the first one selected. Where
    /// there is no query or no row, the preview is empty and the selection stays.
    pub fn rebuild_search_preview(&mut self)
        ensures
            preview_built(*old(self), *final(self)),
    {
        self.search.preview = Vec::new();
        let raw = trim(self.search.query.as_str());
        if raw.as_str().is_empty() || self.results.rows.len() == 0 {
            return;
        }
        let (ns, free) = take_filter(split_words(self.search.query.as_str()), "ns:");
        let joined = join_text(&free, " ");
        let q = to_lowercase(joined.as_str());
        let scored = self.score_rows(&ns, q.as_str());
        let order = self.hit_order(&scored);
        let n: usize = if order.len() < PREVIEW_LIMIT {
            order.len()
        } else {
            PREVIEW_LIMIT
        };
        let ghost all = hit_views(scored@);
        let mut preview: Vec<(Uid, i64)> = Vec::new();
        let mut i: usize = 0;
        while i < n
            invariant
                i <= n <= order@.len(),
                all == hit_views(scored@),
                order@.len() == scored@.len(),
                forall|k: int| 0 <= k < order@.len() ==> (#[trigger] order@[k]) < scored@.len(),
                preview@.len() == i,
                forall|k: int| 0 <= k < i ==> (#[trigger] preview@[k]) == scored@[order@[k] as int],
            decreases n - i,
        {
            preview.push(scored[order[i]]);
            i += 1;
        }
        proof {
            let t = table(old(self).results);
            assert(hit_views(preview@) =~= first_in_order(all, order@, PREVIEW_LIMIT as nat));
            assert(is_stable_order(hit_keys(t, all), order@));
            assert(t.rows.len() == self.results.rows@.len());
            let qq = old(self).search.query@;
            assert(opt_text(ns) == query_namespace(qq));
            assert(q@ == query_text(qq));
            assert(all == scored_rows(t, opt_text(ns), q@, t.rows.len()));
            assert(all == scored_rows(t, query_namespace(qq), query_text(qq), t.rows.len()));
            assert(best_hits(t, old(self).search.query@, hit_views(preview@)));
        }
        self.search.preview_sel = if preview.len() == 0 {
            None
        } else {
            Some(0)
        };
        self.search.preview = preview;
    }

    /// Fill the preview where the query has been still for long enough.
    pub fn refresh_preview(&mut self, now: u64) -> (ran: bool)
        ensures
            ran == preview_due(old(self).search, now),
            !ran ==> *final(self) == *old(self),
            ran ==> final(self).search.changed_at is None && preview_built(
                *old(self),
                (App {
                    search: SearchState {
                        changed_at: old(self).search.changed_at,
                        ..final(self).search
                    },
                    ..*final(self)
                }),
            ),
    {
        let due = match self.search.changed_at {
            Some(t) => {
                let waited: u64 = if now >= t {
                    now - t
                } else {
                    0
                };
                waited >= self.search.debounce_ms
            },
            None => false,
        };
        if due {
            self.rebuild_search_preview();
            self.search.changed_at = None;
        }
        due
    }
}

/// Whether a query has been still for long enough.
pub open spec fn preview_due(s: SearchState, now: u64) -> bool {
    s.changed_at matches Some(t) && (if now >= t {
        now - t
    } else {
        0
    }) >= s.debounce_ms
}

// ---------------------------------------------------------------------------
// Keys and buttons

impl SearchState {
    /// Forget the query and what it found.
    pub fn clear(&mut self)
        ensures
            *final(self) == (SearchState {
                query: final(self).query,
                hits: final(self).hits,
                explain: None,
                partial: false,
                preview: final(self).preview,
                preview_sel: None,
                ..*old(self)
            }),
            final(self).query@ == Seq::<char>::empty(),
            final(self).hits@ == Map::<u128, i64>::empty(),
            final(self).preview@.len() == 0,
    {
        self.query = String::new();
        self.hits.clear();
        self.explain = None;
        self.partial = false;
        self.preview = Vec::new();
        self.preview_sel = None;
    }

    /// Select the next row of the preview; behind the last comes the first.
    pub fn select_next(&mut self)
        ensures
            *final(self) == (SearchState { preview_sel: Some(next_place(old(self).preview_sel, old(self).preview@.len())), ..*old(self) }),
    {
        let len: usize = self.preview.len();
        let sel: usize = if len == 0 {
            0
        } else {
            match self.preview_sel {
                None => 0,
                Some(i) => if i < usize::MAX {
                    (i + 1) % len
                } else {
                    0
                },
            }
        };
        self.preview_sel = Some(sel);
    }

    /// Select the previous row of the preview; before the first comes the last. An empty
    /// preview has no rows to go through.
    pub fn select_previous(&mut self)
        requires
            old(self).preview@.len() > 0,
        ensures
            *final(self) == (SearchState {
                preview_sel: Some(previous_place(old(self).preview_sel, old(self).preview@.len())),
                ..*old(self)
            }),
    {
        let len: usize = self.preview.len();
        let cur: usize = match self.preview_sel {
            Some(i) => i,
            None => 0,
        };
        self.preview_sel = Some(
            if cur == 0 {
                len - 1
            } else {
                cur - 1
            },
        );
    }
}

/// The place behind a place of a list; behind the last comes the first.
pub open spec fn next_place(sel: Option<usize>, len: nat) -> usize {
    if len == 0 {
        0
    } else {
        match sel {
            None => 0,
            Some(i) => if i < usize::MAX {
                ((i + 1) % len as int) as usize
            } else {
                0
            },
        }
    }
}

/// The place before a place of a list; before the first comes the last.
pub open spec fn previous_place(sel: Option<usize>, len: nat) -> usize {
    match sel {
        None => (len - 1) as usize,
        Some(i) => if i == 0 {
            (len - 1) as usize
        } else {
            (i - 1) as usize
        },
    }
}

/// Going to the next place and back leads to the same place.
pub proof fn law_next_then_previous(i: usize, len: nat)
    requires
        i < len <= usize::MAX,
    ensures
        previous_place(Some(next_place(Some(i), len)), len) == i,
{
    if i + 1 < len {
        vstd::arithmetic::div_mod::lemma_small_mod((i + 1) as nat, len);
    } else {
        vstd::arithmetic::div_mod::lemma_mod_self_0(len as int);
    }
}

/// What the enter key does in the search field.
pub enum SearchEnter {
    /// Nothing.
    Ignored,
    /// The selected row of the preview was selected.
    Opened(Selected),
    /// A search is to be run.
    Run,
}

/// The row of the preview that is selected, where it is still there.
pub open spec fn preview_row(a: App) -> Option<LiteView> {
    match a.search.preview_sel {
        Some(i) => if i < a.search.preview@.len() {
            row_of(table(a.results), uid_key(a.search.preview@[i as int].0))
        } else {
            None
        },
        None => None,
    }
}

impl App {
    /// The enter key in the search field: a selected row of the preview is opened, else a
    /// search is run.
    pub fn search_enter(&mut self, focused: bool, now: u64) -> (r: SearchEnter)
        ensures
            !(focused || old(self).search.preview@.len() > 0) ==> r is Ignored && *final(self)
                == *old(self),
            (focused || old(self).search.preview@.len() > 0) && (old(self).search.preview_sel is None
                || old(self).search.preview@.len() == 0) ==> r is Run && *final(self) == *old(self),
            old(self).search.preview@.len() > 0 && old(self).search.preview_sel is Some ==> match preview_row(
                *old(self),
            ) {
                Some(row) => {
                    &&& r matches SearchEnter::Opened(s) && selection_of(*old(self), row, now, s)
                    &&& row_selected(*old(self), row, now, *final(self))
                },
                None => r is Ignored && *final(self) == *old(self),
            },
    {
        let len: usize = self.search.preview.len();
        if !(focused || len > 0) {
            return SearchEnter::Ignored;
        }
        if len == 0 {
            return SearchEnter::Run;
        }
        match self.search.preview_sel {
            Some(sel) => {
                if sel >= len {
                    return SearchEnter::Ignored;
                }
                let uid = self.search.preview[sel].0;
                let row = match self.results.find(&uid) {
                    Some(o) => Some(o.clone()),
                    None => None,
                };
                match row {
                    Some(o) => SearchEnter::Opened(self.select_row(&o, now)),
                    None => SearchEnter::Ignored,
                }
            },
            None => SearchEnter::Run,
        }
    }

    /// A row of the preview as it is shown.
    pub fn preview_label(&self, i: usize) -> (r: Option<String>)
        ensures
            opt_text(r) == preview_text(*self, i),
    {
        if i >= self.search.preview.len() {
            return None;
        }
        match self.results.find(&self.search.preview[i].0) {
            Some(row) => {
                let ns = match &row.namespace {
                    Some(n) => n.clone(),
                    None => copy_text("-"),
                };
                let score = i64_text(self.search.preview[i].1);
                let mut t = cat5(ns.as_str(), "/", row.name.as_str(), "   (", score.as_str());
                t.append(".00)");
                Some(t)
            },
            None => None,
        }
    }
}

/// A row of the preview as it is shown: its namespace, its name and its score.
pub open spec fn preview_text(a: App, i: usize) -> Option<Seq<char>> {
    if i >= a.search.preview@.len() {
        None
    } else {
        match row_of(table(a.results), uid_key(a.search.preview@[i as int].0)) {
            Some(row) => Some(
                (match row.namespace {
                    Some(n) => n,
                    None => "-"@,
                }) + "/"@ + row.name + "   ("@ + dec_int(a.search.preview@[i as int].1 as int)
                    + ".00)"@,
            ),
            None => None,
        }
    }
}

// ---------------------------------------------------------------------------
// The task

/// What is to be done where a search is asked for.
pub enum SearchStart {
    /// No kind is chosen.
    NoKind,
    /// The query is empty.
    Cleared,
    /// A search runs: the one before is to stop.
    Run { stop: Option<Handle>, selector: Selector, query: String, limit: usize },
}

/// The namespace that objects of a kind are looked for in: the chosen one, where the kind
/// has namespaces and one is chosen.
pub open spec fn scope_of(k: KindView, ns: Seq<char>) -> Option<Seq<char>> {
    if k.namespaced && ns.len() > 0 {
        Some(ns)
    } else {
        None
    }
}

/// The namespace that objects of a kind are looked for in.
pub fn scope(k: &ResourceKind, ns: &str) -> (r: Option<String>)
    ensures
        opt_text(r) == scope_of(k@, ns@),
{
    if k.namespaced && !ns.is_empty() {
        Some(copy_text(ns))
    } else {
        None
    }
}

impl App {
    /// Ask for a search.
    pub fn start_search_task(&mut self) -> (r: SearchStart)
        ensures
            match selected_kind(*old(self)) {
                None => {
                    &&& r is NoKind
                    &&& *final(self) == (App { log: final(self).log, ..*old(self) })
                    &&& final(self).log@ == "select a kind first"@
                },
                Some(k) => {
                    &&& final(self).search.hits@ == Map::<u128, i64>::empty()
                    &&& if trimmed(old(self).search.query@).len() == 0 {
                        &&& r is Cleared
                        &&& *final(self) == (App {
                            search: SearchState {
                                hits: final(self).search.hits,
                                explain: None,
                                partial: false,
                                ..old(self).search
                            },
                            ..*old(self)
                        })
                    } else {
                        &&& r matches SearchStart::Run { stop, selector, query, limit } && {
                            &&& stop == old(self).search.stop
                            &&& selector.gvk@ == k
                            &&& opt_text(selector.namespace) == scope_of(
                                k,
                                old(self).selection.namespace@,
                            )
                            &&& query@ == old(self).search.query@
                            &&& limit == old(self).search.limit
                        }
                        &&& *final(self) == (App {
                            search: SearchState {
                                hits: final(self).search.hits,
                                explain: None,
                                partial: false,
                                stop: None,
                                task: None,
                                ..old(self).search
                            },
                            log: final(self).log,
                            ..*old(self)
                        })
                        &&& final(self).log@ == "search: "@ + old(self).search.query@
                    }
                },
            },
    {
        let chosen = match self.current_selected_kind() {
            Some(k) => Some(k.clone()),
            None => None,
        };
        match chosen {
            None => {
                self.log = copy_text("select a kind first");
                SearchStart::NoKind
            },
            Some(k) => {
                let namespace = scope(&k, self.selection.namespace.as_str());
                let raw = trim(self.search.query.as_str());
                self.search.hits.clear();
                self.search.explain = None;
                self.search.partial = false;
                if raw.as_str().is_empty() {
                    return SearchStart::Cleared;
                }
                let stop = self.search.stop;
                self.search.stop = None;
                self.search.task = None;
                let query = self.search.query.clone();
                self.log = cat2("search: ", query.as_str());
                SearchStart::Run {
                    stop,
                    selector: Selector { gvk: k, namespace },
                    query,
                    limit: self.search.limit,
                }
            },
        }
    }
}

/// The objects of the hits that name an item of a snapshot, with their scores.
pub open spec fn hits_of(items: Seq<LiteView>, hits: Seq<(u32, i64)>) -> Seq<(Seq<u8>, i64)>
    decreases hits.len(),
{
    if hits.len() == 0 {
        Seq::empty()
    } else {
        let rest = hits_of(items, hits.drop_last());
        if hits.last().0 < items.len() {
            rest.push((items[hits.last().0 as int].uid, hits.last().1))
        } else {
            rest
        }
    }
}

/// The objects of the hits that name an item of a snapshot.
pub fn map_hits(items: &Vec<LiteObj>, hits: &Vec<(u32, i64)>) -> (r: Vec<(Uid, i64)>)
    ensures
        hit_views(r@) == hits_of(lite_views(items@), hits@),
{
    let ghost iv = lite_views(items@);
    let mut out: Vec<(Uid, i64)> = Vec::new();
    let mut i: usize = 0;
    assert(hits@.take(0) =~= Seq::empty());
    assert(hit_views(out@) =~= Seq::empty());
    while i < hits.len()
        invariant
            i <= hits.len(),
            iv == lite_views(items@),
            hit_views(out@) == hits_of(iv, hits@.take(i as int)),
        decreases hits.len() - i,
    {
        assert(hits@.take(i + 1).drop_last() =~= hits@.take(i as int));
        assert(hits@.take(i + 1).last() == hits@[i as int]);
        let ghost before = hit_views(out@);
        let at: usize = hits[i].0 as usize;
        if at < items.len() {
            assert(iv[at as int] == items@[at as int]@);
            out.push((items[at].uid, hits[i].1));
            assert(hit_views(out@) =~= before.push((iv[at as int].uid, hits@[i as int].1)));
        }
        i += 1;
    }
    assert(hits@.take(hits@.len() as int) =~= hits@);
    out
}

// ---------------------------------------------------------------------------
// What a preview shows

proof fn lemma_scored(t: Table, ns: Option<Seq<char>>, q: Seq<char>, n: nat)
    requires
        n <= t.rows.len(),
    ensures
        forall|i: int|
            0 <= i < scored_rows(t, ns, q, n).len() ==> {
                let hit = #[trigger] scored_rows(t, ns, q, n)[i];
                &&& hit.1 >= 0
                &&& exists|k: int|
                    {
                        &&& 0 <= k < n
                        &&& (#[trigger] t.rows[k]).uid == hit.0
                        &&& ns is None || t.rows[k].namespace == ns
                        &&& hit.1 == score_of(searched_text(t, t.rows[k]), q)
                    }
            },
        forall|k: int|
            0 <= k < n && (ns is None || (#[trigger] t.rows[k]).namespace == ns) && score_of(
                searched_text(t, t.rows[k]),
                q,
            ) >= 0 ==> scored_rows(t, ns, q, n).contains((t.rows[k].uid, score_of(searched_text(t, t.rows[k]), q))),
    decreases n,
{
    if n > 0 {
        let m = (n - 1) as nat;
        lemma_scored(t, ns, q, m);
        let rest = scored_rows(t, ns, q, m);
        let all = scored_rows(t, ns, q, n);
        let row = t.rows[n - 1];
        let score = score_of(searched_text(t, row), q);
        assert forall|i: int| 0 <= i < all.len() implies {
            let hit = #[trigger] all[i];
            &&& hit.1 >= 0
            &&& exists|k: int|
                {
                    &&& 0 <= k < n
                    &&& (#[trigger] t.rows[k]).uid == hit.0
                    &&& ns is None || t.rows[k].namespace == ns
                    &&& hit.1 == score_of(searched_text(t, t.rows[k]), q)
                }
        } by {
            if i < rest.len() {
                assert(all[i] == rest[i]);
                let k = choose|k: int|
                    {
                        &&& 0 <= k < m
                        &&& (#[trigger] t.rows[k]).uid == rest[i].0
                        &&& ns is None || t.rows[k].namespace == ns
                        &&& rest[i].1 == score_of(searched_text(t, t.rows[k]), q)
                    };
                assert(t.rows[k].uid == all[i].0);
            } else {
                assert(all[i] == (row.uid, score));
                assert(t.rows[n - 1].uid == all[i].0);
            }
        }
        assert forall|k: int|
            0 <= k < n && (ns is None || (#[trigger] t.rows[k]).namespace == ns) && score_of(
                searched_text(t, t.rows[k]),
                q,
            ) >= 0 implies all.contains((t.rows[k].uid, score_of(searched_text(t, t.rows[k]), q))) by {
            let hit = (t.rows[k].uid, score_of(searched_text(t, t.rows[k]), q));
            if k < m {
                assert(rest.contains(hit));
                let i = choose|i: int| 0 <= i < rest.len() && rest[i] == hit;
                assert(all[i] == hit);
            } else {
                assert(all[all.len() - 1] == hit);
            }
        }
    }
}

proof fn lemma_hit_order(t: Table, a: (Seq<u8>, i64), b: (Seq<u8>, i64))
    requires
        a.1 >= 0,
        b.1 >= 0,
        !lex_lt(hit_key(t, b), hit_key(t, a)),
    ensures
        a.1 >= b.1,
        a.1 == b.1 ==> (row_of(t, be_value(a.0) as u128) matches Some(x) ==> (row_of(t, be_value(b.0) as u128) matches Some(
            y,
        ) ==> !text_lt(y.name, x.name))),
{
    let x = hit_key(t, a);
    let y = hit_key(t, b);
    assert(x[0] == -a.1 && y[0] == -b.1);
    assert(x.skip(1) =~= codes(
        match row_of(t, be_value(a.0) as u128) {
            Some(row) => row.name,
            None => Seq::empty(),
        },
    ));
    assert(y.skip(1) =~= codes(
        match row_of(t, be_value(b.0) as u128) {
            Some(row) => row.name,
            None => Seq::empty(),
        },
    ));
}

/// An order without repetition that is as long as what it orders leaves nothing out.
proof fn lemma_order_reaches(order: Seq<usize>, n: nat, e: int) -> (p: int)
    requires
        order.len() == n,
        order.no_duplicates(),
        forall|i: int| 0 <= i < order.len() ==> (#[trigger] order[i]) < n,
        0 <= e < n,
    ensures
        0 <= p < n,
        order[p] == e,
{
    let ints = order.map_values(|x: usize| x as int);
    assert forall|i: int, j: int| 0 <= i < ints.len() && 0 <= j < ints.len() && i != j implies ints[i] != ints[j] by {
        assert(order[i] != order[j]);
    }
    ints.unique_seq_to_set();
    let range = vstd::set_lib::set_int_range(0, n as int);
    vstd::set_lib::lemma_int_range(0, n as int);
    assert(ints.to_set().subset_of(range)) by {
        assert forall|x: int| ints.to_set().contains(x) implies range.contains(x) by {
            let i = choose|i: int| 0 <= i < ints.len() && ints[i] == x;
            assert(order[i] < n);
        }
    }
    vstd::set_lib::lemma_subset_equality(ints.to_set(), range);
    assert(ints.to_set().contains(e));
    let p = choose|p: int| 0 <= p < ints.len() && ints[p] == e;
    p
}

/// A preview shows the best matches first: no score rises from one entry to the next, and those
/// of equal score ascend by the names of their rows. It shows ten at most.
pub proof fn law_best_first(t: Table, query: Seq<char>, hits: Seq<(Seq<u8>, i64)>, i: int, j: int)
    requires
        best_hits(t, query, hits),
        0 <= i < j < hits.len(),
    ensures
        hits.len() <= 10,
        hits[i].1 >= hits[j].1,
        hits[i].1 == hits[j].1 ==> (row_of(t, be_value(hits[i].0) as u128) matches Some(x) ==> (row_of(
            t,
            be_value(hits[j].0) as u128,
        ) matches Some(y) ==> !text_lt(y.name, x.name))),
{
    let all = scored_rows(t, query_namespace(query), query_text(query), t.rows.len());
    lemma_scored(t, query_namespace(query), query_text(query), t.rows.len());
    let keys = hit_keys(t, all);
    let order = choose|order: Seq<usize>| #[trigger]
        is_stable_order(keys, order) && hits == first_in_order(all, order, PREVIEW_LIMIT as nat);
    let (a, b) = (order[i] as int, order[j] as int);
    assert(before(keys, a, b));
    if lex_lt(keys[a], keys[b]) && lex_lt(keys[b], keys[a]) {
        lemma_lex_transitive(keys[a], keys[b], keys[a]);
        lemma_lex_irreflexive(keys[a]);
    }
    assert(keys[a] == hit_key(t, all[a]) && keys[b] == hit_key(t, all[b]));
    lemma_hit_order(t, all[a], all[b]);
}

/// What a preview shows was found: each entry is a row of the namespace that the query names,
/// where it names one, with the score that its text has for the other words of the query.
pub proof fn law_preview_found(t: Table, query: Seq<char>, hits: Seq<(Seq<u8>, i64)>, i: int)
    requires
        best_hits(t, query, hits),
        0 <= i < hits.len(),
    ensures
        hits[i].1 >= 0,
        exists|k: int|
            {
                &&& 0 <= k < t.rows.len()
                &&& (#[trigger] t.rows[k]).uid == hits[i].0
                &&& query_namespace(query) is None || t.rows[k].namespace == query_namespace(query)
                &&& if query_text(query).len() == 0 {
                    hits[i].1 == 0
                } else {
                    fuzzy_score(searched_text(t, t.rows[k]), query_text(query)) == Some(hits[i].1)
                }
            },
{
    let (ns, q) = (query_namespace(query), query_text(query));
    let all = scored_rows(t, ns, q, t.rows.len());
    lemma_scored(t, ns, q, t.rows.len());
    let order = choose|order: Seq<usize>| #[trigger]
        is_stable_order(hit_keys(t, all), order) && hits == first_in_order(all, order, PREVIEW_LIMIT as nat);
    let e = order[i] as int;
    assert(hits[i] == all[e]);
    let k = choose|k: int|
        {
            &&& 0 <= k < t.rows.len()
            &&& (#[trigger] t.rows[k]).uid == all[e].0
            &&& ns is None || t.rows[k].namespace == ns
            &&& all[e].1 == score_of(searched_text(t, t.rows[k]), q)
        };
    assert(t.rows[k].uid == hits[i].0);
}

/// No match is passed over for a worse one: a row that a query finds is shown, unless ten rows
/// that match at least as well are.
pub proof fn law_preview_complete(t: Table, query: Seq<char>, hits: Seq<(Seq<u8>, i64)>, k: int, score: i64)
    requires
        best_hits(t, query, hits),
        0 <= k < t.rows.len(),
        query_namespace(query) is None || t.rows[k].namespace == query_namespace(query),
        score >= 0,
        if query_text(query).len() == 0 {
            score == 0
        } else {
            fuzzy_score(searched_text(t, t.rows[k]), query_text(query)) == Some(score)
        },
    ensures
        hits.contains((t.rows[k].uid, score)) || (hits.len() == 10 && forall|i: int|
            0 <= i < hits.len() ==> (#[trigger] hits[i]).1 >= score),
{
    let (ns, q) = (query_namespace(query), query_text(query));
    let all = scored_rows(t, ns, q, t.rows.len());
    lemma_scored(t, ns, q, t.rows.len());
    let keys = hit_keys(t, all);
    let order = choose|order: Seq<usize>| #[trigger]
        is_stable_order(keys, order) && hits == first_in_order(all, order, PREVIEW_LIMIT as nat);
    let hit = (t.rows[k].uid, score);
    assert(all.contains(hit));
    let e = choose|e: int| 0 <= e < all.len() && all[e] == hit;
    let p = lemma_order_reaches(order, all.len(), e);
    if p < hits.len() {
        assert(hits[p] == hit);
    } else {
        assert forall|i: int| 0 <= i < hits.len() implies (#[trigger] hits[i]).1 >= score by {
            let (a, b) = (order[i] as int, order[p] as int);
            assert(before(keys, a, b));
            if lex_lt(keys[a], keys[b]) && lex_lt(keys[b], keys[a]) {
                lemma_lex_transitive(keys[a], keys[b], keys[a]);
                lemma_lex_irreflexive(keys[a]);
            }
            assert(keys[a] == hit_key(t, all[a]) && keys[b] == hit_key(t, all[b]));
            lemma_hit_order(t, all[a], all[b]);
        }
    }
}

/// A preview that was built selects its first entry, where it has one; and no word, or no row,
/// is no preview.
pub proof fn law_preview_selects_best(pre: App, post: App)
    requires
        preview_built(pre, post),
    ensures
        trimmed(pre.search.query@).len() > 0 && pre.results.rows@.len() > 0 && post.search.preview@.len() > 0 ==> post.search.preview_sel
            == Some(0usize),
        trimmed(pre.search.query@).len() == 0 ==> post.search.preview@.len() == 0,
        post.search.query == pre.search.query,
        post.results == pre.results,
{
}

proof fn lemma_last_filter(ws: Seq<Seq<char>>, prefix: Seq<char>, i: int)
    requires
        0 <= i <= ws.len(),
        i > 0 ==> ws[i - 1].len() >= prefix.len() && ws[i - 1].take(prefix.len() as int) == prefix,
        forall|k: int|
            i <= k < ws.len() ==> (#[trigger] ws[k]).len() < prefix.len() || ws[k].take(prefix.len() as int) != prefix,
    ensures
        last_filter(ws, prefix) == if i > 0 {
            Some(ws[i - 1].skip(prefix.len() as int))
        } else {
            None
        },
    decreases ws.len(),
{
    if ws.len() > 0 {
        let front = ws.drop_last();
        if i < ws.len() {
            assert(ws[ws.len() - 1].len() < prefix.len() || ws[ws.len() - 1].take(prefix.len() as int) != prefix);
            assert forall|k: int| i <= k < front.len() implies (#[trigger] front[k]).len() < prefix.len()
                || front[k].take(prefix.len() as int) != prefix by {
                assert(front[k] == ws[k]);
            }
            if i > 0 {
                assert(front[i - 1] == ws[i - 1]);
            }
            lemma_last_filter(front, prefix, i);
        }
    }
}

/// The namespace of a query is what follows `ns:` in the last word that begins with it; a query
/// without such a word is about all namespaces.
pub proof fn law_query_namespace(q: Seq<char>, i: int)
    requires
        0 <= i <= words(q).len(),
        i > 0 ==> words(q)[i - 1].len() >= 3 && words(q)[i - 1].take(3) == seq!['n', 's', ':'],
        forall|k: int|
            i <= k < words(q).len() ==> (#[trigger] words(q)[k]).len() < 3 || words(q)[k].take(3) != seq!['n', 's', ':'],
    ensures
        query_namespace(q) == if i > 0 {
            Some(words(q)[i - 1].skip(3))
        } else {
            None
        },
{
    reveal_strlit("ns:");
    assert("ns:"@ =~= seq!['n', 's', ':']);
    lemma_last_filter(words(q), "ns:"@, i);
}

/// What is looked for is the other words, in lower case and in their order.
pub proof fn law_query_text(q: Seq<char>, word: Seq<char>)
    ensures
        (forall|k: int|
            0 <= k < words(q).len() ==> (#[trigger] words(q)[k]).len() < 3 || words(q)[k].take(3) != seq!['n', 's', ':'])
            ==> query_text(q) == lowercase(join(words(q), " "@)),
        words(q) == seq![seq!['n', 's', ':'] + word] ==> query_text(q) == lowercase(Seq::empty()),
{
    reveal_strlit("ns:");
    let mark = seq!['n', 's', ':'];
    assert("ns:"@ =~= mark);
    law_query_words(words(q), "ns:"@, word);
    let w = mark + word;
    assert(w.take(3) =~= mark);
    let one = seq![w];
    assert(one.drop_last() =~= Seq::empty());
    assert(free_words(one.drop_last(), "ns:"@) =~= Seq::empty());
    assert(one.last() == w);
    assert(after_prefix(w, "ns:"@) is Some);
    assert(free_words(one, "ns:"@) =~= Seq::empty());
    assert(join(Seq::empty(), " "@) =~= Seq::<char>::empty());
}

/// The other words of a query are those that have no mark, in their order.
pub proof fn law_query_words(ws: Seq<Seq<char>>, prefix: Seq<char>, w: Seq<char>)
    ensures
        free_words(ws, prefix).contains(w) <==> ws.contains(w) && !(w.len() >= prefix.len() && w.take(
            prefix.len() as int,
        ) == prefix),
        (forall|k: int|
            0 <= k < ws.len() ==> (#[trigger] ws[k]).len() < prefix.len() || ws[k].take(prefix.len() as int) != prefix)
            ==> free_words(ws, prefix) == ws,
    decreases ws.len(),
{
    if ws.len() > 0 {
        let front = ws.drop_last();
        law_query_words(front, prefix, w);
        let rest = free_words(front, prefix);
        let all = free_words(ws, prefix);
        assert(ws =~= front.push(ws.last()));
        assert(ws.contains(w) <==> front.contains(w) || ws.last() == w) by {
            if front.contains(w) {
                let i = choose|i: int| 0 <= i < front.len() && front[i] == w;
                assert(ws[i] == w);
            }
            if ws.contains(w) && ws.last() != w {
                let i = choose|i: int| 0 <= i < ws.len() && ws[i] == w;
                assert(front[i] == w);
            }
            assert(ws[ws.len() - 1] == ws.last());
        }
        if !(after_prefix(ws.last(), prefix) is Some) {
            assert(all.contains(w) <==> rest.contains(w) || ws.last() == w) by {
                if rest.contains(w) {
                    let i = choose|i: int| 0 <= i < rest.len() && rest[i] == w;
                    assert(all[i] == w);
                }
                assert(all[all.len() - 1] == ws.last());
                if all.contains(w) && ws.last() != w {
                    let i = choose|i: int| 0 <= i < all.len() && all[i] == w;
                    assert(rest[i] == w);
                }
            }
        }
        if forall|k: int|
            0 <= k < ws.len() ==> (#[trigger] ws[k]).len() < prefix.len() || ws[k].take(prefix.len() as int) != prefix {
            assert forall|k: int| 0 <= k < front.len() implies (#[trigger] front[k]).len() < prefix.len()
                || front[k].take(prefix.len() as int) != prefix by {
                assert(front[k] == ws[k]);
            }
            assert(ws[ws.len() - 1] == ws.last());
        }
    } else {
        assert(free_words(ws, prefix) =~= ws);
    }
}

/// A preview is built once the typing has rested for as long as was set, and not before; it is
/// not built where nothing was typed.
pub proof fn law_preview_rests(s: SearchState, typed: u64, now: u64)
    requires
        typed <= now,
    ensures
        s.changed_at == Some(typed) ==> (preview_due(s, now) <==> now - typed >= s.debounce_ms),
        s.changed_at is None ==> !preview_due(s, now),
{
}

/// Objects of a kind are looked for in the chosen namespace, and in all where none is chosen or
/// the kind has none.
pub proof fn law_scope(k: KindView, ns: Seq<char>)
    ensures
        k.namespaced && ns.len() > 0 ==> scope_of(k, ns) == Some(ns),
        !k.namespaced || ns.len() == 0 ==> scope_of(k, ns) is None,
{
}

/// The next place is one further down, and the first behind the last; the previous one is one
/// further up, and the last before the first.
pub proof fn law_places(i: usize, len: nat)
    requires
        i < len <= usize::MAX,
    ensures
        i + 1 < len ==> next_place(Some(i), len) == i + 1,
        i + 1 == len ==> next_place(Some(i), len) == 0,
        i > 0 ==> previous_place(Some(i), len) == i - 1,
        i == 0 ==> previous_place(Some(i), len) == len - 1,
        next_place(None, len) == 0,
        previous_place(None, len) == len - 1,
{
    if i < usize::MAX {
        if i + 1 < len {
            vstd::arithmetic::div_mod::lemma_small_mod((i + 1) as nat, len);
        } else {
            vstd::arithmetic::div_mod::lemma_mod_self_0(len as int);
        }
    }
}

/// A row of the preview is named by its namespace and its name, with its score behind it.
pub proof fn law_preview_text(a: App, i: usize, row: LiteView, ns: Seq<char>)
    requires
        i < a.search.preview@.len(),
        row_of(table(a.results), uid_key(a.search.preview@[i as int].0)) == Some(row),
        row.namespace == Some(ns),
    ensures
        preview_text(a, i) is Some,
        crate::text::starts(preview_text(a, i)->0, ns + "/"@ + row.name),
{
    let p = ns + "/"@ + row.name;
    assert(preview_text(a, i)->0.take(p.len() as int) =~= p);
}

} // verus!
