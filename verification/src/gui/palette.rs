//! The palette: a search over all rows that are known, of every kind.
use crate::gui::model::{App, PaletteItem, PaletteState, SelectionState};
use crate::gui::nav::kind_views;
use crate::gui::results::{table, Table};
use crate::gui::search::{
    first_in_order, free_words, fuzzy_indices, fuzzy_match, fuzzy_places, last_filter, next_place, previous_place,
    score_of, searched_text, take_filter,
};
use crate::gui::select::{row_selected, selection_of, Selected};
use crate::gvk::{gvk_label, key_parts, kind_of_key, kind_text, parse_gvk_key, parse_gvk_key_to_kind};
use crate::order::{
    before, codes, is_stable_order, key_seqs, lemma_lex_irreflexive, lemma_lex_transitive, lex_lt, stable_order, text_key,
    text_lt,
};
use crate::rx::byte_len;
use crate::text::{
    ascii_lower, cat3, copy_text, dec_int, i64_text, join, join_text, lowercase, opt_text, same_ignoring_case,
    same_text, split_words, string_or, texts, to_lowercase, trim, trimmed, words,
};
use crate::types::{KindView, LiteObj, LiteView, ResourceKind};
use vstd::prelude::*;
use vstd::string::*;
use vstd::utf8::encode_utf8;

verus! {

/// How many rows the palette shows.
pub const PALETTE_LIMIT: usize = 50;

/// What a query of the palette asks for: a namespace, a kind, a group, and a text.
pub struct PaletteQuery {
    pub ns: Option<String>,
    pub kind: Option<String>,
    pub group: Option<String>,
    pub text: String,
}

/// The model of a `PaletteQuery`.
pub struct QueryView {
    pub ns: Option<Seq<char>>,
    pub kind: Option<Seq<char>>,
    pub group: Option<Seq<char>>,
    pub text: Seq<char>,
}

impl View for PaletteQuery {
    type V = QueryView;

    open spec fn view(&self) -> QueryView {
        QueryView {
            ns: opt_text(self.ns),
            kind: opt_text(self.kind),
            group: opt_text(self.group),
            text: self.text@,
        }
    }
}

/// What a query asks for: of the words with the prefixes `ns:`, `k:` and `g:` the last ones,
/// and the other words in lower case.
pub open spec fn query_of(q: Seq<char>) -> QueryView {
    let a = words(q);
    let b = free_words(a, "ns:"@);
    let c = free_words(b, "k:"@);
    QueryView {
        ns: last_filter(a, "ns:"@),
        kind: last_filter(b, "k:"@),
        group: last_filter(c, "g:"@),
        text: lowercase(join(free_words(c, "g:"@), " "@)),
    }
}

/// What a query asks for.
pub fn parse_query(q: &str) -> (r: PaletteQuery)
    ensures
        r@ == query_of(q@),
{
    let (ns, b) = take_filter(split_words(q), "ns:");
    let (kind, c) = take_filter(b, "k:");
    let (group, free) = take_filter(c, "g:");
    let joined = join_text(&free, " ");
    let text = to_lowercase(joined.as_str());
    PaletteQuery { ns, kind, group, text }
}

/// The group and the name of the kind that a key holds; empty where it holds none.
pub open spec fn key_group_kind(key: Seq<char>) -> (Seq<char>, Seq<char>) {
    match key_parts(key) {
        Some((g, _, k)) => (g, k),
        None => (Seq::empty(), Seq::empty()),
    }
}

/// Whether two texts are equal but for the case of ASCII letters.
pub open spec fn same_folded(a: Seq<char>, b: Seq<char>) -> bool {
    ascii_lower(a) == ascii_lower(b)
}

/// Whether a row passes the filters of a query.
pub open spec fn passes(key: Seq<char>, row: LiteView, q: QueryView) -> bool {
    let (group, kind) = key_group_kind(key);
    &&& q.kind matches Some(k) ==> same_folded(kind, k)
    &&& q.group matches Some(g) ==> same_folded(group, g)
    &&& q.ns matches Some(n) ==> n == (match row.namespace {
        Some(x) => x,
        None => ""@,
    })
}

/// The model of a `PaletteItem`.
pub struct ItemView {
    pub gvk_key: Seq<char>,
    pub obj: LiteView,
    pub score: i64,
    pub primary: Seq<char>,
    pub hi_indices: Seq<usize>,
    pub secondary: Seq<char>,
    pub hi_sec_indices: Seq<usize>,
}

impl View for PaletteItem {
    type V = ItemView;

    open spec fn view(&self) -> ItemView {
        ItemView {
            gvk_key: self.gvk_key@,
            obj: self.obj@,
            score: self.score,
            primary: self.primary@,
            hi_indices: self.hi_indices@,
            secondary: self.secondary@,
            hi_sec_indices: self.hi_sec_indices@,
        }
    }
}

/// The models of a list of items.
pub open spec fn item_views(v: Seq<PaletteItem>) -> Seq<ItemView> {
    v.map_values(|i: PaletteItem| i@)
}

/// The places that are marked in a text for a query text.
pub open spec fn marks(text: Seq<char>, q: Seq<char>) -> Seq<usize> {
    if q.len() == 0 {
        Seq::empty()
    } else {
        match fuzzy_places(text, q) {
            Some(p) => p,
            None => Seq::empty(),
        }
    }
}

/// The item of a row.
pub open spec fn item_of(t: Table, key: Seq<char>, row: LiteView, q: Seq<char>) -> ItemView {
    let score = score_of(searched_text(t, row), q);
    let primary = (match row.namespace {
        Some(n) => n,
        None => "-"@,
    }) + "/"@ + row.name;
    let secondary = key + "   ("@ + dec_int(score as int) + ".00)"@;
    ItemView {
        gvk_key: key,
        obj: row,
        score,
        primary,
        hi_indices: marks(primary, q),
        secondary,
        hi_sec_indices: marks(secondary, q),
    }
}

/// The items that a query finds among the first `n` rows.
pub open spec fn items_of(t: Table, rows: Seq<(Seq<char>, LiteView)>, q: QueryView, n: nat) -> Seq<ItemView>
    decreases n,
{
    if n == 0 {
        Seq::empty()
    } else {
        let rest = items_of(t, rows, q, (n - 1) as nat);
        let (key, row) = rows[n - 1];
        let item = item_of(t, key, row, q.text);
        if passes(key, row, q) && item.score >= 0 {
            rest.push(item)
        } else {
            rest
        }
    }
}

/// The key by which an item is ordered: by a higher score, then by its name.
pub open spec fn item_key(i: ItemView) -> Seq<i64> {
    seq![(-i.score) as i64] + codes(i.obj.name)
}

/// The keys of a list of items.
pub open spec fn item_keys(v: Seq<ItemView>) -> Seq<Seq<i64>> {
    v.map_values(|i: ItemView| item_key(i))
}

/// The keys and the models of a list of rows.
pub open spec fn entry_rows(v: Seq<(String, LiteObj)>) -> Seq<(Seq<char>, LiteView)> {
    v.map_values(|e: (String, LiteObj)| (e.0@, e.1@))
}

/// Whether a list holds the best items for a query, in order.
pub open spec fn best_items(t: Table, rows: Seq<(Seq<char>, LiteView)>, query: Seq<char>, items: Seq<ItemView>) -> bool {
    let all = items_of(t, rows, query_of(query), rows.len());
    exists|order: Seq<usize>| #[trigger]
        is_stable_order(item_keys(all), order) && items == first_in_order(
            all,
            order,
            PALETTE_LIMIT as nat,
        )
}

fn row_passes(key: &str, row: &LiteObj, q: &PaletteQuery) -> (r: bool)
    ensures
        r == passes(key@, row@, q@),
{
    let (group, kind) = match parse_gvk_key(key) {
        Ok((g, _, k)) => (g, k),
        Err(_) => (String::new(), String::new()),
    };
    assert((group@, kind@) == key_group_kind(key@)) by {
        assert(key_parts(key@) is None ==> group@ =~= Seq::empty() && kind@ =~= Seq::empty());
    }
    if let Some(k) = &q.kind {
        if !same_ignoring_case(kind.as_str(), k.as_str()) {
            return false;
        }
    }
    if let Some(g) = &q.group {
        if !same_ignoring_case(group.as_str(), g.as_str()) {
            return false;
        }
    }
    if let Some(n) = &q.ns {
        let ns = string_or(&row.namespace, "");
        if !same_text(ns.as_str(), n.as_str()) {
            return false;
        }
    }
    true
}

fn find_marks(text: &str, q: &str) -> (r: Vec<usize>)
    ensures
        r@ == marks(text@, q@),
{
    if q.is_empty() {
        Vec::new()
    } else {
        match fuzzy_indices(text, q) {
            Some(v) => v,
            None => Vec::new(),
        }
    }
}

impl App {
    fn make_item(&self, key: &str, it: &LiteObj, q: &str) -> (r: PaletteItem)
        ensures
            r@ == item_of(table(self.results), key@, it@, q@),
    {
        let score: i64 = if q.is_empty() {
            0
        } else {
            let text = self.search_text(it);
            match fuzzy_match(text.as_str(), q) {
                Some(s) => s,
                None => -10,
            }
        };
        let ns = string_or(&it.namespace, "-");
        let primary = cat3(ns.as_str(), "/", it.name.as_str());
        let shown = i64_text(score);
        let mut secondary = cat3(key, "   (", shown.as_str());
        secondary.append(".00)");
        let hi_indices = find_marks(primary.as_str(), q);
        let hi_sec_indices = find_marks(secondary.as_str(), q);
        PaletteItem {
            gvk_key: copy_text(key),
            obj: it.clone(),
            score,
            primary,
            hi_indices,
            secondary,
            hi_sec_indices,
        }
    }

    fn find_items(&self, rows: &Vec<(String, LiteObj)>, q: &PaletteQuery) -> (r: Vec<PaletteItem>)
        ensures
            item_views(r@) == items_of(
                table(self.results),
                entry_rows(rows@),
                q@,
                rows@.len(),
            ),
            forall|k: int| 0 <= k < r@.len() ==> (#[trigger] r@[k]).score >= 0,
    {
        let ghost t = table(self.results);
        let ghost all = entry_rows(rows@);
        let mut out: Vec<PaletteItem> = Vec::new();
        let mut i: usize = 0;
        assert(item_views(out@) =~= Seq::empty());
        while i < rows.len()
            invariant
                i <= rows.len(),
                t == table(self.results),
                all == entry_rows(rows@),
                item_views(out@) == items_of(t, all, q@, i as nat),
                forall|k: int| 0 <= k < out@.len() ==> (#[trigger] out@[k]).score >= 0,
            decreases rows.len() - i,
        {
            assert(all[i as int] == (rows@[i as int].0@, rows@[i as int].1@));
            let ghost before = item_views(out@);
            if row_passes(rows[i].0.as_str(), &rows[i].1, q) {
                let item = self.make_item(rows[i].0.as_str(), &rows[i].1, q.text.as_str());
                if item.score >= 0 {
                    let ghost iv = item@;
                    out.push(item);
                    assert(item_views(out@) =~= before.push(iv));
                }
            }
            i += 1;
        }
        out
    }

    /// Fill the palette for its query, given the rows that are known with the keys of their
    /// kinds. Where there is no query, the palette is empty and the selection stays.
    pub fn rebuild_palette_results(&mut self, rows: &Vec<(String, LiteObj)>)
        ensures
            palette_built(*old(self), entry_rows(rows@), *final(self)),
    {
        self.palette.results = Vec::new();
        assert(item_views(self.palette.results@) =~= Seq::empty());
        let raw = trim(self.palette.query.as_str());
        if raw.as_str().is_empty() {
            return;
        }
        let q = parse_query(self.palette.query.as_str());
        let items = self.find_items(rows, &q);
        let order = item_order(&items);
        let ghost all = item_views(items@);
        let picked = pick_items(items, &order);
        proof {
            let t = table(old(self).results);
            let er = entry_rows(rows@);
            let qq = old(self).palette.query@;
            assert(q@ == query_of(qq));
            assert(all == items_of(t, er, query_of(qq), er.len()));
            assert(is_stable_order(item_keys(all), order@));
            assert(best_items(t, er, qq, item_views(picked@)));
        }
        self.palette.sel = if picked.len() == 0 {
            None
        } else {
            Some(0)
        };
        self.palette.results = picked;
    }
}

fn item_order(items: &Vec<PaletteItem>) -> (r: Vec<usize>)
    requires
        forall|k: int| 0 <= k < items@.len() ==> (#[trigger] items@[k]).score >= 0,
    ensures
        is_stable_order(item_keys(item_views(items@)), r@),
{
    let ghost iv = item_views(items@);
    let mut keys: Vec<Vec<i64>> = Vec::new();
    let mut i: usize = 0;
    while i < items.len()
        invariant
            i <= items.len(),
            iv == item_views(items@),
            forall|k: int| 0 <= k < items@.len() ==> (#[trigger] items@[k]).score >= 0,
            keys@.len() == i,
            forall|k: int| 0 <= k < i ==> (#[trigger] keys@[k])@ == item_key(iv[k]),
        decreases items.len() - i,
    {
        assert(iv[i as int] == items@[i as int]@);
        let mut key: Vec<i64> = Vec::new();
        key.push(-items[i].score);
        let mut name = text_key(items[i].obj.name.as_str());
        key.append(&mut name);
        assert(key@ =~= item_key(iv[i as int]));
        keys.push(key);
        i += 1;
    }
    assert(key_seqs(keys@) =~= item_keys(iv));
    stable_order(&keys)
}

fn pick_items(items: Vec<PaletteItem>, order: &Vec<usize>) -> (r: Vec<PaletteItem>)
    requires
        forall|k: int| 0 <= k < order@.len() ==> (#[trigger] order@[k]) < items@.len(),
    ensures
        item_views(r@) == first_in_order(item_views(items@), order@, PALETTE_LIMIT as nat),
{
    let ghost all = item_views(items@);
    let n: usize = if order.len() < PALETTE_LIMIT {
        order.len()
    } else {
        PALETTE_LIMIT
    };
    let mut out: Vec<PaletteItem> = Vec::new();
    let mut i: usize = 0;
    while i < n
        invariant
            i <= n <= order@.len(),
            all == item_views(items@),
            forall|k: int| 0 <= k < order@.len() ==> (#[trigger] order@[k]) < items@.len(),
            out@.len() == i,
            forall|k: int| 0 <= k < i ==> (#[trigger] out@[k])@ == all[order@[k] as int],
        decreases n - i,
    {
        let item = copy_item(&items[order[i]]);
        assert(all[order@[i as int] as int] == items@[order@[i as int] as int]@);
        out.push(item);
        i += 1;
    }
    assert(item_views(out@) =~= first_in_order(all, order@, PALETTE_LIMIT as nat));
    out
}

fn copy_places(v: &Vec<usize>) -> (r: Vec<usize>)
    ensures
        r@ == v@,
{
    let mut out: Vec<usize> = Vec::new();
    let mut i: usize = 0;
    while i < v.len()
        invariant
            i <= v.len(),
            out@ == v@.take(i as int),
        decreases v.len() - i,
    {
        out.push(v[i]);
        assert(out@ =~= v@.take(i + 1));
        i += 1;
    }
    assert(v@.take(v@.len() as int) =~= v@);
    out
}

fn copy_item(i: &PaletteItem) -> (r: PaletteItem)
    ensures
        r@ == i@,
{
    PaletteItem {
        gvk_key: i.gvk_key.clone(),
        obj: i.obj.clone(),
        score: i.score,
        primary: i.primary.clone(),
        hi_indices: copy_places(&i.hi_indices),
        secondary: i.secondary.clone(),
        hi_sec_indices: copy_places(&i.hi_sec_indices),
    }
}

/// Whether the palette was filled for its query: with the best rows, the first one selected.
/// Where there is no query, it is empty and the selection stays.
pub open spec fn palette_built(pre: App, rows: Seq<(Seq<char>, LiteView)>, post: App) -> bool {
    let items = item_views(post.palette.results@);
    &&& post == (App {
        palette: PaletteState {
            results: post.palette.results,
            sel: post.palette.sel,
            ..pre.palette
        },
        ..pre
    })
    &&& if trimmed(pre.palette.query@).len() == 0 {
        items.len() == 0 && post.palette.sel == pre.palette.sel
    } else {
        &&& best_items(table(pre.results), rows, pre.palette.query@, items)
        &&& post.palette.sel == if items.len() == 0 {
            None
        } else {
            Some(0usize)
        }
    }
}

/// Whether the query of the palette has been still for long enough.
pub open spec fn palette_due(p: PaletteState, now: u64) -> bool {
    p.changed_at matches Some(t) && (if now >= t {
        now - t
    } else {
        0
    }) >= p.debounce_ms
}

impl PaletteState {
    /// Open the palette.
    pub fn summon(&mut self)
        ensures
            *final(self) == (PaletteState { open: true, sel: None, need_focus: true, ..*old(self) }),
    {
        self.open = true;
        self.sel = None;
        self.need_focus = true;
    }

    /// Whether the query has been still for long enough.
    pub fn is_due(&self, now: u64) -> (r: bool)
        ensures
            r == palette_due(*self, now),
    {
        match self.changed_at {
            Some(t) => {
                let waited: u64 = if now >= t {
                    now - t
                } else {
                    0
                };
                waited >= self.debounce_ms
            },
            None => false,
        }
    }

    /// Select the next item; behind the last comes the first.
    pub fn select_next(&mut self)
        ensures
            old(self).results@.len() == 0 ==> *final(self) == *old(self),
            old(self).results@.len() > 0 ==> *final(self) == (PaletteState {
                sel: Some(next_place(old(self).sel, old(self).results@.len())),
                ..*old(self)
            }),
    {
        let len: usize = self.results.len();
        if len > 0 {
            self.sel = Some(
                match self.sel {
                    None => 0,
                    Some(i) => if i < usize::MAX {
                        (i + 1) % len
                    } else {
                        0
                    },
                },
            );
        }
    }

    /// Select the previous item; before the first comes the last.
    pub fn select_previous(&mut self)
        ensures
            old(self).results@.len() == 0 ==> *final(self) == *old(self),
            old(self).results@.len() > 0 ==> *final(self) == (PaletteState {
                sel: Some(previous_place(old(self).sel, old(self).results@.len())),
                ..*old(self)
            }),
    {
        let len: usize = self.results.len();
        if len > 0 {
            let cur: usize = match self.sel {
                Some(i) => i,
                None => 0,
            };
            self.sel = Some(
                if cur == 0 {
                    len - 1
                } else {
                    cur - 1
                },
            );
        }
    }

    /// The item that is selected.
    pub fn chosen(&self) -> (r: Option<PaletteItem>)
        ensures
            match r {
                Some(i) => self.sel matches Some(k) && k < self.results@.len() && i@
                    == self.results@[k as int]@,
                None => !(self.sel matches Some(k) && k < self.results@.len()),
            },
    {
        match self.sel {
            Some(k) => if k < self.results.len() {
                Some(copy_item(&self.results[k]))
            } else {
                None
            },
            None => None,
        }
    }

    /// The lengths in bytes of the longest texts among the first twenty items.
    pub fn longest(&self) -> (r: (usize, usize))
        ensures
            is_longest(primaries(item_views(self.results@)), r.0),
            is_longest(secondaries(item_views(self.results@)), r.1),
    {
        let n: usize = if self.results.len() < 20 {
            self.results.len()
        } else {
            20
        };
        let ghost iv = item_views(self.results@);
        let mut a: usize = 0;
        let mut b: usize = 0;
        let mut i: usize = 0;
        while i < n
            invariant
                i <= n <= self.results@.len(),
                n <= 20,
                n == 20 || n == self.results@.len(),
                iv == item_views(self.results@),
                is_longest(primaries(iv).take(i as int), a),
                is_longest(secondaries(iv).take(i as int), b),
            decreases n - i,
        {
            assert(iv[i as int] == self.results@[i as int]@);
            let p: usize = byte_len(self.results[i].primary.as_str());
            let s: usize = byte_len(self.results[i].secondary.as_str());
            let ghost a0 = a;
            let ghost b0 = b;
            if p > a {
                a = p;
            }
            if s > b {
                b = s;
            }
            proof {
                lemma_longest_push(primaries(iv), i as int, a0, p, a);
                lemma_longest_push(secondaries(iv), i as int, b0, s, b);
            }
            i += 1;
        }
        assert(primaries(iv).take(n as int) =~= primaries(iv));
        assert(secondaries(iv).take(n as int) =~= secondaries(iv));
        (a, b)
    }
}

/// The byte lengths of the first twenty primary texts.
pub open spec fn primaries(v: Seq<ItemView>) -> Seq<nat> {
    Seq::new(
        if v.len() < 20 {
            v.len()
        } else {
            20
        },
        |i: int| encode_utf8(v[i].primary).len(),
    )
}

/// The byte lengths of the first twenty secondary texts.
pub open spec fn secondaries(v: Seq<ItemView>) -> Seq<nat> {
    Seq::new(
        if v.len() < 20 {
            v.len()
        } else {
            20
        },
        |i: int| encode_utf8(v[i].secondary).len(),
    )
}

/// Whether a number is the largest of a list, or zero where the list is empty.
pub open spec fn is_longest(s: Seq<nat>, m: usize) -> bool {
    &&& forall|i: int| 0 <= i < s.len() ==> (#[trigger] s[i]) <= m
    &&& m == 0 || exists|i: int| 0 <= i < s.len() && #[trigger] s[i] == m
}

proof fn lemma_longest_push(s: Seq<nat>, i: int, m: usize, x: usize, m2: usize)
    requires
        0 <= i < s.len(),
        is_longest(s.take(i), m),
        s[i] == x,
        m2 == if x > m {
            x
        } else {
            m
        },
    ensures
        is_longest(s.take(i + 1), m2),
{
    let t = s.take(i + 1);
    assert forall|k: int| 0 <= k < t.len() implies (#[trigger] t[k]) <= m2 by {
        if k < i {
            assert(s.take(i)[k] == t[k]);
        }
    }
    if x > m {
        assert(t[i] == m2);
    } else if m != 0 {
        let k = choose|k: int| 0 <= k < s.take(i).len() && #[trigger] s.take(i)[k] == m;
        assert(t[k] == m2);
    }
}

/// Whether a place of a text is marked.
pub fn is_marked(places: &Vec<usize>, at: usize) -> (r: bool)
    ensures
        r == places@.contains(at),
{
    let mut i: usize = 0;
    while i < places.len()
        invariant
            i <= places.len(),
            forall|k: int| 0 <= k < i ==> (#[trigger] places@[k]) != at,
        decreases places.len() - i,
    {
        if places[i] == at {
            return true;
        }
        i += 1;
    }
    false
}

/// The first kind whose key is given.
pub open spec fn kind_by_key(kinds: Seq<KindView>, key: Seq<char>) -> Option<KindView>
    decreases kinds.len(),
{
    if kinds.len() == 0 {
        None
    } else if kind_text(kinds[0]) == key {
        Some(kinds[0])
    } else {
        kind_by_key(kinds.skip(1), key)
    }
}

/// The kind that a key stands for: the discovered one, else what the key itself says.
pub open spec fn resolved_kind(kinds: Seq<KindView>, key: Seq<char>) -> KindView {
    match kind_by_key(kinds, key) {
        Some(k) => k,
        None => kind_of_key(key),
    }
}

impl App {
    /// The kind that a key stands for.
    pub fn resolve_kind(&self, key: &str) -> (r: ResourceKind)
        ensures
            r@ == resolved_kind(kind_views(self.kinds@), key@),
    {
        let ghost all = kind_views(self.kinds@);
        let mut i: usize = 0;
        assert(all.skip(0) =~= all);
        while i < self.kinds.len()
            invariant
                i <= self.kinds.len(),
                all == kind_views(self.kinds@),
                kind_by_key(all, key@) == kind_by_key(all.skip(i as int), key@),
            decreases self.kinds.len() - i,
        {
            assert(all.skip(i as int)[0] == self.kinds@[i as int]@);
            let label = gvk_label(&self.kinds[i]);
            if same_text(label.as_str(), key) {
                return self.kinds[i].clone();
            }
            assert(all.skip(i as int).skip(1) =~= all.skip(i + 1));
            i += 1;
        }
        parse_gvk_key_to_kind(key)
    }

    /// Open an item of the palette: its kind and its namespace are chosen, and its row is
    /// selected.
    pub fn open_palette_item(&mut self, item: &PaletteItem, now: u64) -> (r: Selected)
        ensures
            exists|mid: App|
                {
                    &&& #[trigger] went_to(*old(self), item@, mid)
                    &&& selection_of(mid, item.obj@, now, r)
                    &&& row_selected(mid, item.obj@, now, *final(self))
                },
    {
        let rk = self.resolve_kind(item.gvk_key.as_str());
        self.selection.selected_kind = Some(rk);
        self.selection.namespace = match &item.obj.namespace {
            Some(n) => n.clone(),
            None => String::new(),
        };
        let ghost mid = *self;
        proof {
            assert(went_to(*old(self), item@, mid));
        }
        self.select_row(&item.obj, now)
    }
}

/// Whether the kind and the namespace of an item were chosen.
pub open spec fn went_to(pre: App, i: ItemView, post: App) -> bool {
    &&& post == (App {
        selection: SelectionState {
            selected_kind: post.selection.selected_kind,
            namespace: post.selection.namespace,
            ..pre.selection
        },
        ..pre
    })
    &&& post.selection.selected_kind matches Some(k) && k@ == resolved_kind(
        kind_views(pre.kinds@),
        i.gvk_key,
    )
    &&& post.selection.namespace@ =~= (match i.obj.namespace {
        Some(n) => n,
        None => Seq::empty(),
    })
}

/// The key under which the rows of a kind in a namespace are kept; the namespace is empty
/// for all of them.
pub open spec fn cache_key_text(k: KindView, ns: Option<Seq<char>>) -> Seq<char> {
    kind_text(k) + "|"@ + (match ns {
        Some(n) => n,
        None => ""@,
    })
}

/// The key under which the rows of a kind in a namespace are kept.
pub fn cache_key(k: &ResourceKind, ns: &Option<String>) -> (r: String)
    ensures
        r@ == cache_key_text(k@, opt_text(*ns)),
{
    let key = gvk_label(k);
    let n = string_or(ns, "");
    cat3(key.as_str(), "|", n.as_str())
}

/// The keys of kinds.
pub open spec fn kind_texts(v: Seq<KindView>) -> Seq<Seq<char>> {
    v.map_values(|k: KindView| kind_text(k))
}

impl PaletteState {
    /// Search in the rows that are known, or in those of every kind. True where the rows of
    /// every kind are now to be read first.
    pub fn choose_mode(&mut self, global: bool) -> (prime: bool)
        ensures
            *final(self) == (PaletteState { mode_global: global, ..*old(self) }),
            prime == (global && !old(self).mode_global),
    {
        let prime = global && !self.mode_global;
        self.mode_global = global;
        prime
    }
}

impl App {
    /// The keys of the kinds whose first page is read for the palette; none where that has
    /// been set off already. Where no kind is known, the kinds are to be discovered first.
    pub fn start_palette_global_prime(&self) -> (r: Option<Vec<String>>)
        ensures
            match r {
                Some(keys) => self.palette.prime_task is None && texts(keys@) == kind_texts(kind_views(self.kinds@)),
                None => self.palette.prime_task is Some,
            },
    {
        if self.palette.prime_task.is_some() {
            return None;
        }
        let ghost all = kind_texts(kind_views(self.kinds@));
        let mut keys: Vec<String> = Vec::new();
        let mut i: usize = 0;
        assert(texts(keys@) =~= all.take(0));
        while i < self.kinds.len()
            invariant
                i <= self.kinds.len(),
                all == kind_texts(kind_views(self.kinds@)),
                texts(keys@) == all.take(i as int),
            decreases self.kinds.len() - i,
        {
            let ghost before = texts(keys@);
            keys.push(gvk_label(&self.kinds[i]));
            assert(texts(keys@) =~= before.push(all[i as int]));
            assert(texts(keys@) =~= all.take(i + 1));
            i += 1;
        }
        assert(all.take(all.len() as int) =~= all);
        Some(keys)
    }
}

// ---------------------------------------------------------------------------
// What the palette shows

proof fn lemma_items(t: Table, rows: Seq<(Seq<char>, LiteView)>, q: QueryView, n: nat, i: int)
    requires
        n <= rows.len(),
        0 <= i < items_of(t, rows, q, n).len(),
    ensures
        exists|k: int|
            0 <= k < n && passes((#[trigger] rows[k]).0, rows[k].1, q) && items_of(t, rows, q, n)[i] == item_of(
                t,
                rows[k].0,
                rows[k].1,
                q.text,
            ) && items_of(t, rows, q, n)[i].score >= 0,
    decreases n,
{
    if n > 0 {
        let rest = items_of(t, rows, q, (n - 1) as nat);
        let all = items_of(t, rows, q, n);
        if i < rest.len() {
            lemma_items(t, rows, q, (n - 1) as nat, i);
            let k = choose|k: int|
                0 <= k < n - 1 && passes((#[trigger] rows[k]).0, rows[k].1, q) && rest[i] == item_of(
                    t,
                    rows[k].0,
                    rows[k].1,
                    q.text,
                ) && rest[i].score >= 0;
            assert(passes(rows[k].0, rows[k].1, q) && all[i] == rest[i]);
        } else {
            assert(passes(rows[n - 1].0, rows[n - 1].1, q));
        }
    }
}

/// The palette shows the rows that match best first; of two that match alike, the one whose name
/// comes first. It shows no more than its limit.
pub proof fn law_palette_order(
    t: Table,
    rows: Seq<(Seq<char>, LiteView)>,
    query: Seq<char>,
    items: Seq<ItemView>,
    i: int,
    j: int,
)
    requires
        best_items(t, rows, query, items),
        0 <= i < j < items.len(),
    ensures
        items.len() <= 50,
        items[i].score >= items[j].score,
        items[i].score == items[j].score ==> !text_lt(items[j].obj.name, items[i].obj.name),
{
    let q = query_of(query);
    let all = items_of(t, rows, q, rows.len());
    let keys = item_keys(all);
    let order = choose|order: Seq<usize>| #[trigger]
        is_stable_order(keys, order) && items == first_in_order(all, order, PALETTE_LIMIT as nat);
    let (a, b) = (order[i] as int, order[j] as int);
    assert(before(keys, a, b));
    if lex_lt(keys[a], keys[b]) && lex_lt(keys[b], keys[a]) {
        lemma_lex_transitive(keys[a], keys[b], keys[a]);
        lemma_lex_irreflexive(keys[a]);
    }
    lemma_items(t, rows, q, rows.len(), a);
    lemma_items(t, rows, q, rows.len(), b);
    let (x, y) = (all[a], all[b]);
    assert(items[i] == x && items[j] == y);
    assert(keys[a] == item_key(x) && keys[b] == item_key(y));
    assert(item_key(x)[0] == -x.score && item_key(y)[0] == -y.score);
    assert(item_key(x).skip(1) =~= codes(x.obj.name));
    assert(item_key(y).skip(1) =~= codes(y.obj.name));
}

/// What the palette shows is a row that the filters let pass and that the text matches; it is
/// named by its namespace and its name.
pub proof fn law_palette_found(
    t: Table,
    rows: Seq<(Seq<char>, LiteView)>,
    query: Seq<char>,
    items: Seq<ItemView>,
    i: int,
)
    requires
        best_items(t, rows, query, items),
        0 <= i < items.len(),
    ensures
        rows.contains((items[i].gvk_key, items[i].obj)),
        passes(items[i].gvk_key, items[i].obj, query_of(query)),
        items[i].score >= 0,
        query_of(query).text.len() > 0 ==> crate::gui::search::fuzzy_score(
            searched_text(t, items[i].obj),
            query_of(query).text,
        ) == Some(items[i].score),
        items[i].obj.namespace is Some ==> items[i].primary == items[i].obj.namespace->0 + "/"@ + items[i].obj.name,
        items[i].obj.namespace is None ==> items[i].primary == "-"@ + "/"@ + items[i].obj.name,
{
    let q = query_of(query);
    let all = items_of(t, rows, q, rows.len());
    let order = choose|order: Seq<usize>| #[trigger]
        is_stable_order(item_keys(all), order) && items == first_in_order(all, order, PALETTE_LIMIT as nat);
    let a = order[i] as int;
    lemma_items(t, rows, q, rows.len(), a);
    assert(items[i] == all[a]);
    let k = choose|k: int|
        0 <= k < rows.len() && passes((#[trigger] rows[k]).0, rows[k].1, q) && all[a] == item_of(
            t,
            rows[k].0,
            rows[k].1,
            q.text,
        ) && all[a].score >= 0;
    assert(rows[k] == (items[i].gvk_key, items[i].obj));
}

/// A filter lets pass what has its value: the namespace exactly, the kind and the group in
/// whatever case. A query without filters lets everything pass.
pub proof fn law_passes(group: Seq<char>, version: Seq<char>, kind: Seq<char>, key: Seq<char>, row: LiteView, q: QueryView, n: Seq<char>)
    requires
        key_parts(key) == Some((group, version, kind)),
    ensures
        passes(key, row, q) && q.ns is Some && row.namespace == Some(n) ==> q.ns == Some(n),
        passes(key, row, q) && q.kind is Some ==> ascii_lower(kind) == ascii_lower(q.kind->0),
        passes(key, row, q) && q.group is Some ==> ascii_lower(group) == ascii_lower(q.group->0),
        q.ns is None && q.kind is None && q.group is None ==> passes(key, row, q),
        q.ns == Some(n) && row.namespace == Some(n) && q.kind == Some(kind) && q.group == Some(group) ==> passes(key, row, q),
{
}

/// A query is read word by word: the filters by their marks, and the rest as the text, in lower
/// case.
pub proof fn law_query_read(q: Seq<char>, n: Seq<char>, k: Seq<char>, g: Seq<char>, t: Seq<char>)
    requires
        words(q) == seq![seq!['n', 's', ':'] + n, seq!['k', ':'] + k, seq!['g', ':'] + g, t],
        t.len() < 2 || (t[1] != ':' && (t.len() < 3 || t[2] != ':')),
    ensures
        query_of(q).ns == Some(n),
        query_of(q).kind == Some(k),
        query_of(q).group == Some(g),
        query_of(q).text == lowercase(t),
{
    reveal_strlit("ns:");
    reveal_strlit("k:");
    reveal_strlit("g:");
    let (p1, p2, p3) = (seq!['n', 's', ':'], seq!['k', ':'], seq!['g', ':']);
    assert("ns:"@ =~= p1 && "k:"@ =~= p2 && "g:"@ =~= p3);
    let (w1, w2, w3) = (p1 + n, p2 + k, p3 + g);
    assert(w1.take(3) =~= p1 && w1.skip(3) =~= n);
    assert(w2.take(2) =~= p2 && w2.skip(2) =~= k);
    assert(w3.take(2) =~= p3 && w3.skip(2) =~= g);
    assert(w2[0] == 'k' && w3[0] == 'g' && w2[1] == ':' && w3[1] == ':');
    assert(p1[0] == 'n' && p1[2] == ':' && p2[0] == 'k' && p2[1] == ':' && p3[0] == 'g' && p3[1] == ':');
    assert(w2.len() >= 3 ==> w2.take(3)[0] == 'k');
    assert(w3.len() >= 3 ==> w3.take(3)[0] == 'g');
    assert(w3.take(2)[0] == 'g');
    assert(t.len() >= 3 ==> t.take(3)[2] == t[2]);
    assert(t.len() >= 2 ==> t.take(2)[1] == t[1]);
    let none = Seq::<Seq<char>>::empty();
    let a = seq![w1, w2, w3, t];
    let (a3, a2, a1) = (seq![w1, w2, w3], seq![w1, w2], seq![w1]);
    assert(a.drop_last() =~= a3 && a3.drop_last() =~= a2 && a2.drop_last() =~= a1 && a1.drop_last() =~= none);
    assert(last_filter(a1, "ns:"@) == Some(n));
    assert(last_filter(a2, "ns:"@) == Some(n));
    assert(last_filter(a3, "ns:"@) == Some(n));
    assert(last_filter(a, "ns:"@) == Some(n));
    assert(free_words(none, "ns:"@) =~= none);
    assert(free_words(a1, "ns:"@) =~= none);
    assert(free_words(a2, "ns:"@) =~= seq![w2]);
    assert(free_words(a3, "ns:"@) =~= seq![w2, w3]);
    let b = seq![w2, w3, t];
    assert(free_words(a, "ns:"@) =~= b);
    let (b2, b1) = (seq![w2, w3], seq![w2]);
    assert(b.drop_last() =~= b2 && b2.drop_last() =~= b1 && b1.drop_last() =~= none);
    assert(last_filter(b1, "k:"@) == Some(k));
    assert(last_filter(b2, "k:"@) == Some(k));
    assert(last_filter(b, "k:"@) == Some(k));
    assert(free_words(none, "k:"@) =~= none);
    assert(free_words(b1, "k:"@) =~= none);
    assert(free_words(b2, "k:"@) =~= seq![w3]);
    let c = seq![w3, t];
    assert(free_words(b, "k:"@) =~= c);
    let c1 = seq![w3];
    assert(c.drop_last() =~= c1 && c1.drop_last() =~= none);
    assert(last_filter(c1, "g:"@) == Some(g));
    assert(last_filter(c, "g:"@) == Some(g));
    assert(free_words(none, "g:"@) =~= none);
    assert(free_words(c1, "g:"@) =~= none);
    assert(free_words(c, "g:"@) =~= seq![t]);
    assert(seq![t].drop_last() =~= none);
    assert(join(seq![t], " "@) =~= t);
}

/// A row of the palette leads to its own kind and its own namespace.
pub proof fn law_went_to(pre: App, i: ItemView, post: App, n: int)
    requires
        went_to(pre, i, post),
        0 <= n < kind_views(pre.kinds@).len(),
        kind_text(kind_views(pre.kinds@)[n]) == i.gvk_key,
    ensures
        post.selection.selected_kind is Some && kind_text(post.selection.selected_kind->0@) == i.gvk_key,
        i.obj.namespace is Some ==> post.selection.namespace@ == i.obj.namespace->0,
        i.obj.namespace is None ==> post.selection.namespace@.len() == 0,
{
    lemma_kind_by_key(kind_views(pre.kinds@), i.gvk_key, n);
}

proof fn lemma_kind_by_key(kinds: Seq<KindView>, key: Seq<char>, n: int)
    requires
        0 <= n < kinds.len(),
        kind_text(kinds[n]) == key,
    ensures
        kind_by_key(kinds, key) is Some && kind_text(kind_by_key(kinds, key)->0) == key,
    decreases kinds.len(),
{
    if kind_text(kinds[0]) != key {
        lemma_kind_by_key(kinds.skip(1), key, n - 1);
    }
}

/// A palette is filled when nothing was typed for as long as it waits.
pub proof fn law_palette_due(p: PaletteState, typed: u64, now: u64)
    requires
        typed <= now,
    ensures
        p.changed_at == Some(typed) ==> (palette_due(p, now) <==> now - typed >= p.debounce_ms),
        p.changed_at is None ==> !palette_due(p, now),
{
}

/// Nothing is shown for an empty query; else the first row is the chosen one.
pub proof fn law_palette_built(pre: App, rows: Seq<(Seq<char>, LiteView)>, post: App)
    requires
        palette_built(pre, rows, post),
    ensures
        trimmed(pre.palette.query@).len() == 0 ==> post.palette.results@.len() == 0,
        trimmed(pre.palette.query@).len() > 0 && post.palette.results@.len() > 0 ==> post.palette.sel == Some(0usize),
        trimmed(pre.palette.query@).len() > 0 && post.palette.results@.len() == 0 ==> post.palette.sel is None,
{
    assert(item_views(post.palette.results@).len() == post.palette.results@.len());
}

/// Rows are kept under their kind and the namespace that they were read of; two of them have one
/// key only where both are the same.
pub proof fn law_cache_key(k: KindView, n: Seq<char>, m: Seq<char>)
    ensures
        cache_key_text(k, Some(n)) == kind_text(k) + "|"@ + n,
        cache_key_text(k, Some(n)) == cache_key_text(k, Some(m)) ==> n == m,
        cache_key_text(k, None) == kind_text(k) + "|"@,
{
    reveal_strlit("");
    reveal_strlit("|");
    let (a, b) = (cache_key_text(k, Some(n)), cache_key_text(k, Some(m)));
    let h = kind_text(k).len() + 1;
    assert(a.skip(h as int) =~= n && b.skip(h as int) =~= m);
    assert(cache_key_text(k, None) =~= kind_text(k) + "|"@);
}

} // verus!
