//! What is watched: the rows that are kept of every kind, and what a change of the chosen
//! kind, namespace or context sets off.
use crate::columns::{builtin_columns, builtin_columns_for, column_views};
use crate::gui::model::{App, Handle, SearchState, SelectionState, WatchState};
use crate::gui::nav::{kind_views, selected_kind};
use crate::gui::palette::{cache_key, cache_key_text};
use crate::gui::results::{same_settings, table, ResultsState, Table};
use crate::gui::search::{scope, scope_of};
use crate::gvk::{gvk_label, kind_text};
use crate::order::{
    codes, dedup, dedup_texts, is_stable_order, key_seqs, law_sorted_unique, lex_lt, sort_texts, sorted_texts,
    stable_order, strictly_ascends, text_key, text_lt,
};
use crate::text::{cat2, cat3, copy_text, opt_text, same_option, same_text, split, split_char, texts, trim, trimmed};
use crate::types::{
    clone_option, lite_views, same_uid, KindView, LiteEvent, LiteObj, LiteView, ResourceKind, Selector, Uid,
};
use vstd::prelude::*;
use vstd::string::*;

verus! {

broadcast use {vstd::std_specs::hash::group_hash_axioms};

// ---------------------------------------------------------------------------
// The rows that are kept

/// The rows that are kept for one key. No two have the same identity.
pub struct CacheEntry {
    pub key: String,
    pub rows: Vec<LiteObj>,
}

/// The rows that are kept, by kind and namespace. No two entries have the same key.
pub struct WatchCache {
    pub entries: Vec<CacheEntry>,
}

/// The model of a `CacheEntry`.
pub struct CacheEntryView {
    pub key: Seq<char>,
    pub rows: Seq<LiteView>,
}

impl View for CacheEntry {
    type V = CacheEntryView;

    open spec fn view(&self) -> CacheEntryView {
        CacheEntryView { key: self.key@, rows: lite_views(self.rows@) }
    }
}

/// The models of a list of entries.
pub open spec fn cache_views(v: Seq<CacheEntry>) -> Seq<CacheEntryView> {
    v.map_values(|e: CacheEntry| e@)
}

impl View for WatchCache {
    type V = Seq<CacheEntryView>;

    open spec fn view(&self) -> Seq<CacheEntryView> {
        cache_views(self.entries@)
    }
}

/// The place of a row of an identity; the length where there is none.
pub open spec fn row_place(rows: Seq<LiteView>, uid: Seq<u8>) -> nat
    decreases rows.len(),
{
    if rows.len() == 0 || rows[0].uid == uid {
        0
    } else {
        1 + row_place(rows.skip(1), uid)
    }
}

/// Rows with one more row; it takes the place of one of the same identity.
pub open spec fn put_row(rows: Seq<LiteView>, row: LiteView) -> Seq<LiteView> {
    let i = row_place(rows, row.uid) as int;
    if i < rows.len() {
        rows.update(i, row)
    } else {
        rows.push(row)
    }
}

/// Rows with some more rows.
pub open spec fn put_rows(rows: Seq<LiteView>, more: Seq<LiteView>) -> Seq<LiteView>
    decreases more.len(),
{
    if more.len() == 0 {
        rows
    } else {
        put_row(put_rows(rows, more.drop_last()), more.last())
    }
}

/// Rows without that of an identity.
pub open spec fn drop_row(rows: Seq<LiteView>, uid: Seq<u8>) -> Seq<LiteView> {
    let i = row_place(rows, uid) as int;
    if i < rows.len() {
        rows.remove(i)
    } else {
        rows
    }
}

/// The place of the entry of a key; the length where there is none.
pub open spec fn key_place(c: Seq<CacheEntryView>, key: Seq<char>) -> nat
    decreases c.len(),
{
    if c.len() == 0 || c[0].key == key {
        0
    } else {
        1 + key_place(c.skip(1), key)
    }
}

/// The rows that are kept for a key.
pub open spec fn rows_for(c: Seq<CacheEntryView>, key: Seq<char>) -> Seq<LiteView> {
    let i = key_place(c, key) as int;
    if i < c.len() {
        c[i].rows
    } else {
        Seq::empty()
    }
}

/// The cache with other rows for a key.
pub open spec fn with_rows(c: Seq<CacheEntryView>, key: Seq<char>, rows: Seq<LiteView>) -> Seq<CacheEntryView> {
    let i = key_place(c, key) as int;
    if i < c.len() {
        c.update(i, CacheEntryView { key, rows })
    } else {
        c.push(CacheEntryView { key, rows })
    }
}

/// The cache after an event for a key. A row that is gone makes no entry.
pub open spec fn cache_after(c: Seq<CacheEntryView>, key: Seq<char>, e: LiteEvent) -> Seq<CacheEntryView> {
    match e {
        LiteEvent::Applied(lo) => with_rows(c, key, put_row(rows_for(c, key), lo@)),
        LiteEvent::Deleted(lo) => if key_place(c, key) < c.len() {
            with_rows(c, key, drop_row(rows_for(c, key), lo@.uid))
        } else {
            c
        },
    }
}

/// Whether no two rows have the same identity.
pub open spec fn rows_distinct(rows: Seq<LiteView>) -> bool {
    forall|i: int, j: int| 0 <= i < j < rows.len() ==> (#[trigger] rows[i]).uid != (#[trigger] rows[j]).uid
}

/// Whether no two entries have the same key, and no two rows of one the same identity.
pub open spec fn cache_distinct(c: Seq<CacheEntryView>) -> bool {
    &&& forall|i: int, j: int| 0 <= i < j < c.len() ==> (#[trigger] c[i]).key != (#[trigger] c[j]).key
    &&& forall|i: int| 0 <= i < c.len() ==> rows_distinct((#[trigger] c[i]).rows)
}

proof fn lemma_row_place(rows: Seq<LiteView>, uid: Seq<u8>, i: int)
    requires
        0 <= i <= rows.len(),
        forall|k: int| 0 <= k < i ==> (#[trigger] rows[k]).uid != uid,
        i < rows.len() ==> rows[i].uid == uid,
    ensures
        row_place(rows, uid) == i,
    decreases rows.len(),
{
    if i > 0 {
        assert(rows[0].uid != uid);
        assert forall|k: int| 0 <= k < i - 1 implies (#[trigger] rows.skip(1)[k]).uid != uid by {
            assert(rows.skip(1)[k] == rows[k + 1]);
        }
        lemma_row_place(rows.skip(1), uid, i - 1);
    }
}

proof fn lemma_row_place_found(rows: Seq<LiteView>, uid: Seq<u8>)
    ensures
        row_place(rows, uid) <= rows.len(),
        forall|k: int| 0 <= k < row_place(rows, uid) ==> (#[trigger] rows[k]).uid != uid,
        row_place(rows, uid) < rows.len() ==> rows[row_place(rows, uid) as int].uid == uid,
    decreases rows.len(),
{
    if rows.len() > 0 && rows[0].uid != uid {
        lemma_row_place_found(rows.skip(1), uid);
        assert forall|k: int| 0 <= k < row_place(rows, uid) implies (#[trigger] rows[k]).uid != uid by {
            if k > 0 {
                assert(rows.skip(1)[k - 1] == rows[k]);
            }
        }
    }
}

proof fn lemma_key_place(c: Seq<CacheEntryView>, key: Seq<char>, i: int)
    requires
        0 <= i <= c.len(),
        forall|k: int| 0 <= k < i ==> (#[trigger] c[k]).key != key,
        i < c.len() ==> c[i].key == key,
    ensures
        key_place(c, key) == i,
    decreases c.len(),
{
    if i > 0 {
        assert(c[0].key != key);
        assert forall|k: int| 0 <= k < i - 1 implies (#[trigger] c.skip(1)[k]).key != key by {
            assert(c.skip(1)[k] == c[k + 1]);
        }
        lemma_key_place(c.skip(1), key, i - 1);
    }
}

proof fn lemma_key_place_found(c: Seq<CacheEntryView>, key: Seq<char>)
    ensures
        key_place(c, key) <= c.len(),
        forall|k: int| 0 <= k < key_place(c, key) ==> (#[trigger] c[k]).key != key,
        key_place(c, key) < c.len() ==> c[key_place(c, key) as int].key == key,
    decreases c.len(),
{
    if c.len() > 0 && c[0].key != key {
        lemma_key_place_found(c.skip(1), key);
        assert forall|k: int| 0 <= k < key_place(c, key) implies (#[trigger] c[k]).key != key by {
            if k > 0 {
                assert(c.skip(1)[k - 1] == c[k]);
            }
        }
    }
}

/// Every event keeps the keys and the identities distinct.
pub proof fn law_cache_stays_distinct(c: Seq<CacheEntryView>, key: Seq<char>, e: LiteEvent)
    requires
        cache_distinct(c),
    ensures
        cache_distinct(cache_after(c, key, e)),
{
    lemma_key_place_found(c, key);
    let rows = rows_for(c, key);
    assert(rows_distinct(rows));
    match e {
        LiteEvent::Applied(lo) => {
            lemma_row_place_found(rows, lo@.uid);
        },
        LiteEvent::Deleted(lo) => {
            lemma_row_place_found(rows, lo@.uid);
        },
    }
}

/// A row that was applied is there, as it was applied.
pub proof fn law_applied_is_kept(c: Seq<CacheEntryView>, key: Seq<char>, lo: LiteObj)
    ensures
        rows_for(cache_after(c, key, LiteEvent::Applied(lo)), key).contains(lo@),
{
    lemma_key_place_found(c, key);
    let rows = rows_for(c, key);
    lemma_row_place_found(rows, lo@.uid);
    let put = put_row(rows, lo@);
    let i = row_place(rows, lo@.uid) as int;
    assert(put[if i < rows.len() {
        i
    } else {
        rows.len() as int
    }] == lo@);
    let after = cache_after(c, key, LiteEvent::Applied(lo));
    lemma_key_place(after, key, key_place(c, key) as int);
}

/// A row that was deleted is gone.
pub proof fn law_deleted_is_gone(c: Seq<CacheEntryView>, key: Seq<char>, lo: LiteObj)
    requires
        cache_distinct(c),
    ensures
        forall|k: int|
            0 <= k < rows_for(cache_after(c, key, LiteEvent::Deleted(lo)), key).len() ==> (
            #[trigger] rows_for(cache_after(c, key, LiteEvent::Deleted(lo)), key)[k]).uid != lo@.uid,
{
    lemma_key_place_found(c, key);
    let rows = rows_for(c, key);
    lemma_row_place_found(rows, lo@.uid);
    let after = cache_after(c, key, LiteEvent::Deleted(lo));
    if key_place(c, key) < c.len() {
        lemma_key_place(after, key, key_place(c, key) as int);
        assert(rows_distinct(rows));
    }
}

fn put_in(rows: &mut Vec<LiteObj>, it: LiteObj)
    ensures
        lite_views(final(rows)@) == put_row(lite_views(old(rows)@), it@),
{
    let ghost all = lite_views(rows@);
    let mut i: usize = 0;
    while i < rows.len() && !same_uid(&rows[i].uid, &it.uid)
        invariant
            i <= rows.len(),
            all == lite_views(rows@),
            forall|k: int| 0 <= k < i ==> (#[trigger] all[k]).uid != it@.uid,
        ensures
            i <= rows.len(),
            forall|k: int| 0 <= k < i ==> (#[trigger] all[k]).uid != it@.uid,
            i < rows.len() ==> all[i as int].uid == it@.uid,
        decreases rows.len() - i,
    {
        assert(all[i as int] == rows@[i as int]@);
        i += 1;
    }
    proof {
        lemma_row_place(all, it@.uid, i as int);
    }
    let ghost iv = it@;
    if i < rows.len() {
        rows.set(i, it);
        assert(lite_views(rows@) =~= all.update(i as int, iv));
    } else {
        rows.push(it);
        assert(lite_views(rows@) =~= all.push(iv));
    }
}

fn drop_from(rows: &mut Vec<LiteObj>, uid: &Uid)
    ensures
        lite_views(final(rows)@) == drop_row(lite_views(old(rows)@), uid@),
{
    let ghost all = lite_views(rows@);
    let mut i: usize = 0;
    while i < rows.len() && !same_uid(&rows[i].uid, uid)
        invariant
            i <= rows.len(),
            all == lite_views(rows@),
            forall|k: int| 0 <= k < i ==> (#[trigger] all[k]).uid != uid@,
        ensures
            i <= rows.len(),
            forall|k: int| 0 <= k < i ==> (#[trigger] all[k]).uid != uid@,
            i < rows.len() ==> all[i as int].uid == uid@,
        decreases rows.len() - i,
    {
        assert(all[i as int] == rows@[i as int]@);
        i += 1;
    }
    proof {
        lemma_row_place(all, uid@, i as int);
    }
    if i < rows.len() {
        let _ = rows.remove(i);
        assert(lite_views(rows@) =~= all.remove(i as int));
    }
}

impl WatchCache {
    /// An empty cache.
    pub fn new() -> (r: Self)
        ensures
            r@.len() == 0,
    {
        WatchCache { entries: Vec::new() }
    }

    fn find_key(&self, key: &str) -> (i: usize)
        ensures
            i == key_place(self@, key@),
            i <= self.entries@.len(),
            i < self.entries@.len() ==> self@[i as int].key == key@,
    {
        let ghost all = self@;
        let mut i: usize = 0;
        while i < self.entries.len() && !same_text(self.entries[i].key.as_str(), key)
            invariant
                i <= self.entries.len(),
                all == cache_views(self.entries@),
                forall|k: int| 0 <= k < i ==> (#[trigger] all[k]).key != key@,
            ensures
                i <= self.entries.len(),
                forall|k: int| 0 <= k < i ==> (#[trigger] all[k]).key != key@,
                i < self.entries.len() ==> all[i as int].key == key@,
            decreases self.entries.len() - i,
        {
            assert(all[i as int] == self.entries@[i as int]@);
            i += 1;
        }
        proof {
            lemma_key_place(all, key@, i as int);
        }
        i
    }

    /// Take over an event for a key.
    pub fn apply(&mut self, key: &str, e: LiteEvent)
        ensures
            final(self)@ == cache_after(old(self)@, key@, e),
    {
        let ghost all = self@;
        let i: usize = self.find_key(key);
        match e {
            LiteEvent::Applied(lo) => {
                let ghost lv = lo@;
                if i < self.entries.len() {
                    assert(all[i as int] == self.entries@[i as int]@);
                    put_in(&mut self.entries[i].rows, lo);
                    assert(self@ =~= with_rows(all, key@, put_row(rows_for(all, key@), lv)));
                } else {
                    let mut rows: Vec<LiteObj> = Vec::new();
                    assert(lite_views(rows@) =~= Seq::empty());
                    put_in(&mut rows, lo);
                    self.entries.push(CacheEntry { key: copy_text(key), rows });
                    assert(self@ =~= with_rows(all, key@, put_row(rows_for(all, key@), lv)));
                }
            },
            LiteEvent::Deleted(lo) => {
                if i < self.entries.len() {
                    assert(all[i as int] == self.entries@[i as int]@);
                    drop_from(&mut self.entries[i].rows, &lo.uid);
                    assert(self@ =~= with_rows(all, key@, drop_row(rows_for(all, key@), lo@.uid)));
                }
            },
        }
    }

    /// Take over rows that were listed for a key. The key has an entry from then on.
    pub fn prime(&mut self, key: &str, items: Vec<LiteObj>)
        ensures
            final(self)@ == with_rows(
                old(self)@,
                key@,
                put_rows(rows_for(old(self)@, key@), lite_views(items@)),
            ),
    {
        let ghost all = self@;
        let i: usize = self.find_key(key);
        let ghost iv = lite_views(items@);
        let ghost start = rows_for(all, key@);
        if i >= self.entries.len() {
            self.entries.push(CacheEntry { key: copy_text(key), rows: Vec::new() });
            assert(lite_views(self.entries@[i as int].rows@) =~= Seq::empty());
        } else {
            assert(all[i as int] == self.entries@[i as int]@);
        }
        let ghost based = with_rows(all, key@, start);
        assert(self@ =~= based);
        assert(iv.take(0) =~= Seq::empty());
        let mut k: usize = 0;
        while k < items.len()
            invariant
                k <= items.len(),
                i < self.entries@.len(),
                iv == lite_views(items@),
                based == with_rows(all, key@, start),
                i == key_place(all, key@),
                i < based.len(),
                self@ == based.update(
                    i as int,
                    CacheEntryView { key: key@, rows: put_rows(start, iv.take(k as int)) },
                ),
            decreases items.len() - k,
        {
            let ghost before = self@;
            assert(iv.take(k + 1).drop_last() =~= iv.take(k as int));
            assert(iv.take(k + 1).last() == items@[k as int]@);
            assert(before[i as int] == self.entries@[i as int]@);
            let ghost old_entries = self.entries@;
            put_in(&mut self.entries[i].rows, items[k].clone());
            assert(self@[i as int].rows == put_rows(start, iv.take(k + 1)));
            assert(self.entries@ =~= old_entries.update(i as int, self.entries@[i as int]));
            assert(self@ =~= before.update(i as int, self@[i as int]));
            assert(self@ =~= based.update(
                i as int,
                CacheEntryView { key: key@, rows: put_rows(start, iv.take(k + 1)) },
            ));
            k += 1;
        }
        assert(iv.take(iv.len() as int) =~= iv);
        assert(self@ =~= with_rows(all, key@, put_rows(start, iv)));
    }

    /// The rows that are kept for a key.
    pub fn snapshot(&self, key: &str) -> (r: Vec<LiteObj>)
        ensures
            lite_views(r@) == rows_for(self@, key@),
    {
        let i: usize = self.find_key(key);
        if i < self.entries.len() {
            assert(self@[i as int] == self.entries@[i as int]@);
            copy_rows(&self.entries[i].rows)
        } else {
            let r: Vec<LiteObj> = Vec::new();
            assert(lite_views(r@) =~= Seq::empty());
            r
        }
    }

    /// Forget all rows.
    pub fn reset(&mut self)
        ensures
            final(self)@.len() == 0,
    {
        self.entries = Vec::new();
    }

    /// All rows, each with the key of its kind.
    pub fn snapshot_all(&self) -> (r: Vec<(String, LiteObj)>)
        ensures
            crate::gui::palette::entry_rows(r@) == all_rows(self@),
    {
        let ghost all = self@;
        let mut out: Vec<(String, LiteObj)> = Vec::new();
        let mut i: usize = 0;
        assert(all.take(0) =~= Seq::empty());
        assert(crate::gui::palette::entry_rows(out@) =~= Seq::empty());
        while i < self.entries.len()
            invariant
                i <= self.entries.len(),
                all == cache_views(self.entries@),
                crate::gui::palette::entry_rows(out@) == all_rows(all.take(i as int)),
            decreases self.entries.len() - i,
        {
            let e = &self.entries[i];
            assert(all.take(i + 1).drop_last() =~= all.take(i as int));
            assert(all.take(i + 1).last() == e@);
            let kind = kind_part(e.key.as_str());
            let ghost rows = lite_views(e.rows@);
            let ghost base = crate::gui::palette::entry_rows(out@);
            let ghost tagged_rows = tagged(kind@, rows);
            let mut k: usize = 0;
            assert(base + tagged_rows.take(0) =~= base);
            while k < e.rows.len()
                invariant
                    k <= e.rows.len(),
                    rows == lite_views(e.rows@),
                    tagged_rows == tagged(kind@, rows),
                    crate::gui::palette::entry_rows(out@) == base + tagged_rows.take(k as int),
                decreases e.rows.len() - k,
            {
                let ghost before = crate::gui::palette::entry_rows(out@);
                assert(rows[k as int] == e.rows@[k as int]@);
                out.push((kind.clone(), e.rows[k].clone()));
                assert(crate::gui::palette::entry_rows(out@) =~= before.push(tagged_rows[k as int]));
                assert(crate::gui::palette::entry_rows(out@) =~= base + tagged_rows.take(k + 1));
                k += 1;
            }
            assert(tagged_rows.take(rows.len() as int) =~= tagged_rows);
            i += 1;
        }
        assert(all.take(all.len() as int) =~= all);
        out
    }
}

/// The key of the kind in the key of an entry: what stands before the bar.
pub open spec fn kind_part_of(key: Seq<char>) -> Seq<char> {
    split(key, '|')[0]
}

fn kind_part(key: &str) -> (r: String)
    ensures
        r@ == kind_part_of(key@),
{
    let p = split_char(key, '|');
    proof {
        crate::text::lemma_split_nonempty(key@, '|');
    }
    assert(texts(p@)[0] == p@[0]@);
    p[0].clone()
}

/// Rows with a key beside each.
pub open spec fn tagged(key: Seq<char>, rows: Seq<LiteView>) -> Seq<(Seq<char>, LiteView)> {
    Seq::new(rows.len(), |i: int| (key, rows[i]))
}

/// All rows of a cache, each with the key of its kind.
pub open spec fn all_rows(c: Seq<CacheEntryView>) -> Seq<(Seq<char>, LiteView)>
    decreases c.len(),
{
    if c.len() == 0 {
        Seq::empty()
    } else {
        all_rows(c.drop_last()) + tagged(kind_part_of(c.last().key), c.last().rows)
    }
}

fn copy_rows(v: &Vec<LiteObj>) -> (r: Vec<LiteObj>)
    ensures
        lite_views(r@) == lite_views(v@),
{
    let ghost all = lite_views(v@);
    let mut out: Vec<LiteObj> = Vec::new();
    let mut i: usize = 0;
    assert(lite_views(out@) =~= all.take(0));
    while i < v.len()
        invariant
            i <= v.len(),
            all == lite_views(v@),
            lite_views(out@) == all.take(i as int),
        decreases v.len() - i,
    {
        let ghost before = lite_views(out@);
        assert(all[i as int] == v@[i as int]@);
        out.push(v[i].clone());
        assert(lite_views(out@) =~= before.push(all[i as int]));
        assert(lite_views(out@) =~= all.take(i + 1));
        i += 1;
    }
    assert(all.take(all.len() as int) =~= all);
    out
}

// ---------------------------------------------------------------------------
// Namespaces

/// The names of rows.
pub open spec fn row_names(rows: Seq<LiteView>) -> Seq<Seq<char>> {
    rows.map_values(|r: LiteView| r.name)
}

/// The namespaces that rows name: each once, in order.
pub open spec fn namespace_list(rows: Seq<LiteView>) -> Seq<Seq<char>> {
    dedup(sorted_texts(row_names(rows)))
}

/// The namespaces that rows name: each once, in order.
pub fn namespaces_of(rows: &Vec<LiteObj>) -> (r: Vec<String>)
    ensures
        texts(r@) == namespace_list(lite_views(rows@)),
{
    let ghost all = lite_views(rows@);
    let mut names: Vec<String> = Vec::new();
    let mut i: usize = 0;
    assert(texts(names@) =~= row_names(all).take(0));
    while i < rows.len()
        invariant
            i <= rows.len(),
            all == lite_views(rows@),
            texts(names@) == row_names(all).take(i as int),
        decreases rows.len() - i,
    {
        assert(all[i as int] == rows@[i as int]@);
        let ghost before = texts(names@);
        names.push(rows[i].name.clone());
        assert(texts(names@) =~= before.push(row_names(all)[i as int]));
        assert(texts(names@) =~= row_names(all).take(i + 1));
        i += 1;
    }
    assert(row_names(all).take(all.len() as int) =~= row_names(all));
    dedup_texts(sort_texts(names))
}

// ---------------------------------------------------------------------------
// A change of the selection

/// What is to be started where another kind or namespace was chosen.
pub struct WatchStart {
    pub stop_search: Option<Handle>,
    pub stop_watch: Option<Handle>,
    pub selector: Selector,
    pub cache_key: String,
    pub gvk_key: String,
    pub fetch_namespaces: bool,
}

/// Whether another kind or namespace is chosen than the one that is watched.
pub open spec fn watch_stale(a: App) -> bool {
    match selected_kind(a) {
        Some(k) => k.kind.len() > 0 && !(opt_text(a.watch.loaded_gvk_key) == Some(kind_text(k)) && opt_text(
            a.watch.loaded_ns,
        ) == scope_of(k, a.selection.namespace@)),
        None => false,
    }
}

/// The state after the watch of the chosen kind was set off.
pub open spec fn watch_switched(pre: App, k: KindView, now: u64, post: App) -> bool {
    &&& post == (App {
        search: SearchState {
            hits: post.search.hits,
            explain: None,
            partial: false,
            preview: post.search.preview,
            prev_text: post.search.prev_text,
            changed_at: None,
            preview_sel: None,
            stop: None,
            task: None,
            ..pre.search
        },
        results: post.results,
        watch: WatchState {
            stop: None,
            select_t0: Some(now),
            ttfr_logged: false,
            loaded_idx: None,
            loaded_gvk_key: post.watch.loaded_gvk_key,
            loaded_ns: post.watch.loaded_ns,
            ..pre.watch
        },
        last_error: None,
        ..pre
    })
    &&& post.search.hits@ == Map::<u128, i64>::empty()
    &&& post.search.preview@.len() == 0
    &&& post.search.prev_text@ =~= Seq::<char>::empty()
    &&& opt_text(post.watch.loaded_gvk_key) == Some(kind_text(k))
    &&& opt_text(post.watch.loaded_ns) == scope_of(k, pre.selection.namespace@)
    &&& column_views(post.results.active_cols@) == builtin_columns(k.group, k.version, k.kind, k.namespaced)
    &&& emptied(pre.results, post.results)
}

/// Whether a table was emptied; only its columns may be others.
pub open spec fn emptied(pre: ResultsState, post: ResultsState) -> bool {
    &&& table(post) == (Table {
        rows: Seq::empty(),
        index: Map::empty(),
        filter: Map::empty(),
        display: Map::empty(),
    })
    &&& same_settings((ResultsState { active_cols: post.active_cols, ..pre }), post)
    &&& post.sort_dirty == pre.sort_dirty
}

impl App {
    fn forget_search(&mut self) -> (stop: Option<Handle>)
        ensures
            stop == old(self).search.stop,
            *final(self) == (App {
                search: SearchState {
                    hits: final(self).search.hits,
                    explain: None,
                    partial: false,
                    preview: final(self).search.preview,
                    prev_text: final(self).search.prev_text,
                    changed_at: None,
                    preview_sel: None,
                    stop: None,
                    task: None,
                    ..old(self).search
                },
                ..*old(self)
            }),
            final(self).search.hits@ == Map::<u128, i64>::empty(),
            final(self).search.preview@.len() == 0,
            final(self).search.prev_text@ =~= Seq::<char>::empty(),
    {
        self.search.hits.clear();
        self.search.explain = None;
        self.search.partial = false;
        self.search.preview = Vec::new();
        self.search.prev_text = String::new();
        self.search.changed_at = None;
        self.search.preview_sel = None;
        let stop = self.search.stop;
        self.search.stop = None;
        self.search.task = None;
        stop
    }

    /// Set off the watch of the chosen kind and namespace, where another one is watched.
    pub fn ensure_watch_for_selection(&mut self, now: u64) -> (r: Option<WatchStart>)
        ensures
            r is Some <==> watch_stale(*old(self)),
            r is None ==> *final(self) == *old(self),
            r matches Some(w) ==> {
                let k = selected_kind(*old(self))->0;
                &&& w.stop_search == old(self).search.stop
                &&& w.stop_watch == old(self).watch.stop
                &&& w.selector.gvk@ == k
                &&& opt_text(w.selector.namespace) == scope_of(k, old(self).selection.namespace@)
                &&& w.cache_key@ == cache_key_text(k, scope_of(k, old(self).selection.namespace@))
                &&& w.gvk_key@ == kind_text(k)
                &&& w.fetch_namespaces == (old(self).namespaces@.len() == 0)
                &&& watch_switched(*old(self), k, now, *final(self))
            },
    {
        let k = match self.current_selected_kind() {
            Some(k) => k.clone(),
            None => {
                return None;
            },
        };
        if k.kind.as_str().is_empty() {
            return None;
        }
        let ns = scope(&k, self.selection.namespace.as_str());
        let key = gvk_label(&k);
        let same_key = match &self.watch.loaded_gvk_key {
            Some(x) => same_text(x.as_str(), key.as_str()),
            None => false,
        };
        if same_key && same_option(&self.watch.loaded_ns, &ns) {
            return None;
        }
        let stop_search = self.forget_search();
        let stop_watch = self.watch.stop;
        self.watch.stop = None;
        self.watch.select_t0 = Some(now);
        self.watch.ttfr_logged = false;
        self.watch.loaded_idx = None;
        self.watch.loaded_gvk_key = Some(key.clone());
        self.watch.loaded_ns = clone_option(&ns);
        self.results.clear();
        self.results.active_cols = builtin_columns_for(
            k.group.as_str(),
            k.version.as_str(),
            k.kind.as_str(),
            k.namespaced,
        );
        self.last_error = None;
        let cache = cache_key(&k, &ns);
        Some(
            WatchStart {
                stop_search,
                stop_watch,
                selector: Selector { gvk: k, namespace: ns },
                cache_key: cache,
                gvk_key: key,
                fetch_namespaces: self.namespaces.len() == 0,
            },
        )
    }

    /// Once the watch of the chosen kind was set off, it is not set off again.
    pub fn watch_current(&self) -> (r: bool)
        ensures
            r == !watch_stale(*self),
    {
        match self.current_selected_kind() {
            None => true,
            Some(k) => {
                if k.kind.as_str().is_empty() {
                    return true;
                }
                let ns = scope(k, self.selection.namespace.as_str());
                let key = gvk_label(k);
                let same_key = match &self.watch.loaded_gvk_key {
                    Some(x) => same_text(x.as_str(), key.as_str()),
                    None => false,
                };
                same_key && same_option(&self.watch.loaded_ns, &ns)
            },
        }
    }
}

/// A watch that was set off is current: the chosen kind and namespace are watched.
pub proof fn law_watch_settles(pre: App, now: u64, post: App)
    requires
        watch_stale(pre),
        watch_switched(pre, selected_kind(pre)->0, now, post),
    ensures
        !watch_stale(post),
{
}

// ---------------------------------------------------------------------------
// A change of the context

/// What is to be stopped where another context was chosen.
pub struct ContextSwitch {
    pub stop_watch: Option<Handle>,
    pub abort_namespaces: Option<Handle>,
    pub context: String,
}

impl App {
    /// Choose a context. Where it is another one, everything that was read of the cluster is
    /// forgotten, and the kinds are to be discovered anew.
    pub fn on_context_selected(&mut self, name: String) -> (r: Option<ContextSwitch>)
        ensures
            opt_text(old(self).current_context) == Some(name@) ==> r is None && *final(self)
                == *old(self),
            opt_text(old(self).current_context) != Some(name@) ==> {
                &&& r matches Some(c) && c.stop_watch == old(self).watch.stop && c.abort_namespaces == old(
                    self,
                ).watch.ns_task && c.context@ == name@
                &&& *final(self) == (App {
                    log: final(self).log,
                    current_context: final(self).current_context,
                    watch: WatchState {
                        stop: None,
                        task: None,
                        ns_task: None,
                        loaded_idx: None,
                        loaded_gvk_key: None,
                        loaded_ns: None,
                        ..old(self).watch
                    },
                    results: final(self).results,
                    namespaces: final(self).namespaces,
                    selection: SelectionState {
                        namespace: final(self).selection.namespace,
                        ..old(self).selection
                    },
                    kinds: final(self).kinds,
                    ..*old(self)
                })
                &&& final(self).log@ == "switching context: "@ + name@
                &&& opt_text(final(self).current_context) == Some(name@)
                &&& emptied(old(self).results, final(self).results)
                &&& final(self).results.active_cols == old(self).results.active_cols
                &&& final(self).namespaces@.len() == 0
                &&& final(self).selection.namespace@ =~= Seq::<char>::empty()
                &&& final(self).kinds@.len() == 0
            },
    {
        let same = match &self.current_context {
            Some(c) => same_text(c.as_str(), name.as_str()),
            None => false,
        };
        if same {
            return None;
        }
        self.log = cat2("switching context: ", name.as_str());
        self.current_context = Some(name.clone());
        let stop_watch = self.watch.stop;
        self.watch.stop = None;
        self.watch.task = None;
        let abort_namespaces = self.watch.ns_task;
        self.watch.ns_task = None;
        self.results.clear();
        self.watch.loaded_idx = None;
        self.watch.loaded_gvk_key = None;
        self.watch.loaded_ns = None;
        self.namespaces = Vec::new();
        self.selection.namespace = String::new();
        self.kinds = Vec::new();
        Some(ContextSwitch { stop_watch, abort_namespaces, context: name })
    }
}

// ---------------------------------------------------------------------------
// Discovery

/// The group and the version of a kind as one text.
pub open spec fn api_text(k: KindView) -> Seq<char> {
    if k.group.len() == 0 {
        k.version
    } else {
        k.group + "/"@ + k.version
    }
}

/// The key by which discovered kinds are ordered: by group and version, then by name.
pub open spec fn discovery_key(k: KindView) -> Seq<i64> {
    codes(api_text(k)).push(-1i64) + codes(k.kind)
}

/// The keys of a list of kinds.
pub open spec fn discovery_keys(kinds: Seq<KindView>) -> Seq<Seq<i64>> {
    kinds.map_values(|k: KindView| discovery_key(k))
}

/// Whether kinds were put in order.
pub open spec fn kinds_ordered(kinds: Seq<KindView>, out: Seq<KindView>) -> bool {
    exists|order: Seq<usize>| #[trigger]
        is_stable_order(discovery_keys(kinds), order) && out == Seq::new(
            order.len(),
            |i: int| kinds[order[i] as int],
        )
}

/// Discovered kinds in order: by group and version, then by name.
pub fn order_kinds(kinds: Vec<ResourceKind>) -> (r: Vec<ResourceKind>)
    ensures
        kinds_ordered(kind_views(kinds@), kind_views(r@)),
{
    let ghost kv = kind_views(kinds@);
    let mut keys: Vec<Vec<i64>> = Vec::new();
    let mut i: usize = 0;
    while i < kinds.len()
        invariant
            i <= kinds.len(),
            kv == kind_views(kinds@),
            keys@.len() == i,
            forall|k: int| 0 <= k < i ==> (#[trigger] keys@[k])@ == discovery_key(kv[k]),
        decreases kinds.len() - i,
    {
        let k = &kinds[i];
        assert(kv[i as int] == k@);
        let api = if k.group.as_str().is_empty() {
            k.version.clone()
        } else {
            cat3(k.group.as_str(), "/", k.version.as_str())
        };
        let mut key = text_key(api.as_str());
        key.push(-1);
        let mut name = text_key(k.kind.as_str());
        key.append(&mut name);
        assert(key@ =~= discovery_key(kv[i as int]));
        keys.push(key);
        i += 1;
    }
    let order = stable_order(&keys);
    let ghost wanted = discovery_keys(kv);
    assert(key_seqs(keys@) =~= wanted);
    let mut out: Vec<ResourceKind> = Vec::new();
    let mut j: usize = 0;
    while j < order.len()
        invariant
            j <= order.len(),
            order@.len() == kinds@.len(),
            kv == kind_views(kinds@),
            forall|k: int| 0 <= k < order@.len() ==> (#[trigger] order@[k]) < kinds@.len(),
            out@.len() == j,
            forall|k: int| 0 <= k < j ==> (#[trigger] out@[k])@ == kv[order@[k] as int],
        decreases order.len() - j,
    {
        assert(kv[order@[j as int] as int] == kinds@[order@[j as int] as int]@);
        out.push(kinds[order[j]].clone());
        j += 1;
    }
    proof {
        assert(kind_views(out@) =~= Seq::new(order@.len(), |i: int| kv[order@[i] as int]));
        assert(is_stable_order(wanted, order@));
        assert(kinds_ordered(kv, kind_views(out@)));
    }
    out
}

impl App {
    /// Take over the result of a discovery. True where the caches are to be warmed.
    pub fn take_discovery(&mut self, result: Result<Vec<ResourceKind>, String>) -> (warm: bool)
        ensures
            match result {
                Ok(v) => {
                    &&& *final(self) == (App {
                        kinds: final(self).kinds,
                        watch: WatchState { prewarm_started: true, ..old(self).watch },
                        ..*old(self)
                    })
                    &&& kinds_ordered(kind_views(v@), kind_views(final(self).kinds@))
                    &&& warm == !old(self).watch.prewarm_started
                },
                Err(e) => {
                    &&& *final(self) == (App { log: final(self).log, ..*old(self) })
                    &&& final(self).log@ == "discover error: "@ + e@
                    &&& !warm
                },
            },
    {
        match result {
            Ok(v) => {
                self.kinds = order_kinds(v);
                let warm = !self.watch.prewarm_started;
                self.watch.prewarm_started = true;
                warm
            },
            Err(e) => {
                self.log = cat2("discover error: ", e.as_str());
                false
            },
        }
    }
}

/// The parts of a list between commas, without white space around them, that are not empty.
pub open spec fn listed(s: Seq<Seq<char>>) -> Seq<Seq<char>>
    decreases s.len(),
{
    if s.len() == 0 {
        s
    } else if trimmed(s.last()).len() > 0 {
        listed(s.drop_last()).push(trimmed(s.last()))
    } else {
        listed(s.drop_last())
    }
}

/// The parts of a list between commas, without white space around them.
pub open spec fn trimmed_parts(s: Seq<Seq<char>>) -> Seq<Seq<char>> {
    s.map_values(|t: Seq<char>| trimmed(t))
}

/// The parts of a list between commas that are not empty.
pub fn split_list(s: &str) -> (r: Vec<String>)
    ensures
        texts(r@) == listed(split(s@, ',')),
{
    let p = split_char(s, ',');
    let ghost pv = texts(p@);
    let mut out: Vec<String> = Vec::new();
    let mut i: usize = 0;
    assert(pv.take(0) =~= Seq::empty());
    assert(texts(out@) =~= Seq::empty());
    while i < p.len()
        invariant
            i <= p.len(),
            pv == texts(p@),
            texts(out@) == listed(pv.take(i as int)),
        decreases p.len() - i,
    {
        assert(pv.take(i + 1).drop_last() =~= pv.take(i as int));
        assert(pv.take(i + 1).last() == p@[i as int]@);
        let ghost before = texts(out@);
        let t = trim(p[i].as_str());
        if !t.as_str().is_empty() {
            let ghost tv = t@;
            out.push(t);
            assert(texts(out@) =~= before.push(tv));
        }
        i += 1;
    }
    assert(pv.take(pv.len() as int) =~= pv);
    out
}

/// Whether a group is named in a list; the core group is named `core`.
pub open spec fn group_allowed(list: Seq<char>, group: Seq<char>) -> bool {
    trimmed_parts(split(list, ',')).contains(
        if group.len() == 0 {
            "core"@
        } else {
            group
        },
    )
}

/// Whether a group is named in a list.
pub fn allows_group(list: &str, group: &str) -> (r: bool)
    ensures
        r == group_allowed(list@, group@),
{
    let p = split_char(list, ',');
    let name = if group.is_empty() {
        "core"
    } else {
        group
    };
    let ghost pv = texts(p@);
    let ghost parts = trimmed_parts(pv);
    let mut i: usize = 0;
    while i < p.len()
        invariant
            i <= p.len(),
            pv == texts(p@),
            pv == split(list@, ','),
            name@ == if group@.len() == 0 {
                "core"@
            } else {
                group@
            },
            parts == trimmed_parts(pv),
            forall|k: int| 0 <= k < i ==> (#[trigger] parts[k]) != name@,
        decreases p.len() - i,
    {
        assert(parts[i as int] == trimmed(p@[i as int]@));
        let t = trim(p[i].as_str());
        if same_text(t.as_str(), name) {
            assert(parts[i as int] == name@);
            assert(parts.contains(name@));
            return true;
        }
        i += 1;
    }
    false
}

/// The keys of the kinds whose groups are named in a list.
pub open spec fn warm_keys(kinds: Seq<KindView>, list: Seq<char>) -> Seq<Seq<char>>
    decreases kinds.len(),
{
    if kinds.len() == 0 {
        Seq::empty()
    } else if group_allowed(list, kinds.last().group) {
        warm_keys(kinds.drop_last(), list).push(kind_text(kinds.last()))
    } else {
        warm_keys(kinds.drop_last(), list)
    }
}

impl App {
    /// The keys of the discovered kinds whose groups are named in a list.
    pub fn kinds_to_warm(&self, list: &str) -> (r: Vec<String>)
        ensures
            texts(r@) == warm_keys(kind_views(self.kinds@), list@),
    {
        let ghost all = kind_views(self.kinds@);
        let mut out: Vec<String> = Vec::new();
        let mut i: usize = 0;
        assert(all.take(0) =~= Seq::empty());
        assert(texts(out@) =~= Seq::empty());
        while i < self.kinds.len()
            invariant
                i <= self.kinds.len(),
                all == kind_views(self.kinds@),
                texts(out@) == warm_keys(all.take(i as int), list@),
            decreases self.kinds.len() - i,
        {
            assert(all.take(i + 1).drop_last() =~= all.take(i as int));
            assert(all.take(i + 1).last() == self.kinds@[i as int]@);
            let ghost before = texts(out@);
            if allows_group(list, self.kinds[i].group.as_str()) {
                let key = gvk_label(&self.kinds[i]);
                let ghost kv = key@;
                out.push(key);
                assert(texts(out@) =~= before.push(kv));
            }
            i += 1;
        }
        assert(all.take(all.len() as int) =~= all);
        out
    }
}

// ---------------------------------------------------------------------------
// What the cache and the lists hold

/// An event changes nothing of what is kept under another key.
pub proof fn law_other_keys_stay(c: Seq<CacheEntryView>, key: Seq<char>, e: LiteEvent, other: Seq<char>)
    requires
        other != key,
    ensures
        rows_for(cache_after(c, key, e), other) == rows_for(c, other),
{
    lemma_key_place_found(c, key);
    lemma_key_place_found(c, other);
    let i = key_place(c, key) as int;
    let j = key_place(c, other) as int;
    let after = cache_after(c, key, e);
    if after != c {
        assert forall|k: int| 0 <= k < j implies (#[trigger] after[k]).key != other by {
            if k < c.len() && k != i {
                assert(after[k] == c[k]);
            }
        }
        if j < c.len() {
            assert(after[j] == c[j]);
            lemma_key_place(after, other, j);
        } else {
            assert forall|k: int| 0 <= k < after.len() implies (#[trigger] after[k]).key != other by {
                if k < c.len() && k != i {
                    assert(after[k] == c[k]);
                }
            }
            lemma_key_place(after, other, after.len() as int);
        }
    }
}

/// An event changes nothing of the rows of other objects: each that was there stays, and none
/// comes.
pub proof fn law_other_rows_stay(rows: Seq<LiteView>, row: LiteView, x: LiteView)
    requires
        x.uid != row.uid,
    ensures
        put_row(rows, row).contains(x) <==> rows.contains(x),
        drop_row(rows, row.uid).contains(x) <==> rows.contains(x),
        put_row(rows, row).contains(row),
        put_row(rows, row).len() <= rows.len() + 1,
        drop_row(rows, row.uid).len() >= rows.len() - 1,
{
    lemma_row_place_found(rows, row.uid);
    let i = row_place(rows, row.uid) as int;
    let put = put_row(rows, row);
    let out = drop_row(rows, row.uid);
    assert(put[if i < rows.len() {
        i
    } else {
        rows.len() as int
    }] == row);
    if rows.contains(x) {
        let k = choose|k: int| 0 <= k < rows.len() && rows[k] == x;
        assert(put[k] == x);
        if i < rows.len() {
            if k < i {
                assert(out[k] == x);
            } else {
                assert(out[k - 1] == x);
            }
        }
    }
    if put.contains(x) {
        let k = choose|k: int| 0 <= k < put.len() && put[k] == x;
        assert(k < rows.len() && rows[k] == x);
    }
    if out.contains(x) {
        let k = choose|k: int| 0 <= k < out.len() && out[k] == x;
        if i < rows.len() && k >= i {
            assert(rows[k + 1] == x);
        } else {
            assert(rows[k] == x);
        }
    }
}

/// A list of namespaces has the names of the rows, each once, in order.
pub proof fn law_namespaces(rows: Seq<LiteView>, name: Seq<char>)
    ensures
        strictly_ascends(namespace_list(rows)),
        namespace_list(rows).contains(name) <==> exists|i: int| 0 <= i < rows.len() && (#[trigger] rows[i]).name == name,
{
    law_sorted_unique(row_names(rows));
    if row_names(rows).contains(name) {
        let i = choose|i: int| 0 <= i < row_names(rows).len() && row_names(rows)[i] == name;
        assert(rows[i].name == name);
    }
    if exists|i: int| 0 <= i < rows.len() && (#[trigger] rows[i]).name == name {
        let i = choose|i: int| 0 <= i < rows.len() && (#[trigger] rows[i]).name == name;
        assert(row_names(rows)[i] == name);
    }
}

/// A watch is started anew where another kind or another namespace is chosen than the one that
/// is loaded, and only there.
pub proof fn law_watch_stale(a: App, k: KindView)
    requires
        selected_kind(a) == Some(k),
        k.kind.len() > 0,
    ensures
        opt_text(a.watch.loaded_gvk_key) != Some(kind_text(k)) ==> watch_stale(a),
        opt_text(a.watch.loaded_ns) != scope_of(k, a.selection.namespace@) ==> watch_stale(a),
        opt_text(a.watch.loaded_gvk_key) == Some(kind_text(k)) && opt_text(a.watch.loaded_ns) == scope_of(
            k,
            a.selection.namespace@,
        ) ==> !watch_stale(a),
{
}

/// Kinds are listed by group and version, and then by name; none is lost.
pub proof fn law_kinds_listed(kinds: Seq<KindView>, out: Seq<KindView>, i: int, j: int)
    requires
        kinds_ordered(kinds, out),
        0 <= i < j < out.len(),
    ensures
        out.len() == kinds.len(),
        kinds.contains(out[i]),
        !text_lt(api_text(out[j]), api_text(out[i])),
        api_text(out[i]) == api_text(out[j]) ==> !text_lt(out[j].kind, out[i].kind),
{
    let keys = discovery_keys(kinds);
    let order = choose|order: Seq<usize>| #[trigger]
        is_stable_order(keys, order) && out == Seq::new(order.len(), |i: int| kinds[order[i] as int]);
    let (a, b) = (order[i] as int, order[j] as int);
    assert(crate::order::before(keys, a, b));
    if lex_lt(keys[a], keys[b]) && lex_lt(keys[b], keys[a]) {
        crate::order::lemma_lex_transitive(keys[a], keys[b], keys[a]);
        crate::order::lemma_lex_irreflexive(keys[a]);
    }
    let (x, y) = (kinds[a], kinds[b]);
    assert(out[i] == x && out[j] == y);
    assert(discovery_key(x) =~= codes(api_text(x)) + seq![-1i64] + codes(x.kind));
    assert(discovery_key(y) =~= codes(api_text(y)) + seq![-1i64] + codes(y.kind));
    crate::kubehub::lemma_separated(api_text(y), codes(y.kind), api_text(x), codes(x.kind));
}

/// A group is warmed where the list names it, whatever spaces stand around the name; the core
/// group goes by a name of its own.
pub proof fn law_group_allowed(list: Seq<char>, group: Seq<char>, i: int)
    requires
        0 <= i < split(list, ',').len(),
    ensures
        group.len() > 0 && trimmed(split(list, ',')[i]) == group ==> group_allowed(list, group),
        trimmed(split(list, ',')[i]) == "core"@ ==> group_allowed(list, Seq::empty()),
        (forall|k: int| 0 <= k < split(list, ',').len() ==> trimmed(#[trigger] split(list, ',')[k]) != group) && group.len()
            > 0 ==> !group_allowed(list, group),
{
    let parts = trimmed_parts(split(list, ','));
    assert(parts[i] == trimmed(split(list, ',')[i]));
    if group.len() > 0 && parts.contains(group) {
        let k = choose|k: int| 0 <= k < parts.len() && parts[k] == group;
        assert(trimmed(split(list, ',')[k]) == group);
    }
}

/// The kinds that are warmed are those whose group the list names.
pub proof fn law_warmed(kinds: Seq<KindView>, list: Seq<char>, i: int)
    requires
        0 <= i < kinds.len(),
    ensures
        group_allowed(list, kinds[i].group) ==> warm_keys(kinds, list).contains(kind_text(kinds[i])),
        (forall|k: int| 0 <= k < kinds.len() ==> !group_allowed(list, (#[trigger] kinds[k]).group)) ==> warm_keys(
            kinds,
            list,
        ).len() == 0,
    decreases kinds.len(),
{
    let d = kinds.drop_last();
    let all = warm_keys(kinds, list);
    let rest = warm_keys(d, list);
    if d.len() > 0 {
        law_warmed(d, list, if i < d.len() {
            i
        } else {
            0
        });
        if forall|k: int| 0 <= k < kinds.len() ==> !group_allowed(list, (#[trigger] kinds[k]).group) {
            assert forall|k: int| 0 <= k < d.len() implies !group_allowed(list, (#[trigger] d[k]).group) by {
                assert(d[k] == kinds[k]);
            }
            assert(!group_allowed(list, kinds[kinds.len() - 1].group));
        }
    } else if forall|k: int| 0 <= k < kinds.len() ==> !group_allowed(list, (#[trigger] kinds[k]).group) {
        assert(!group_allowed(list, kinds[kinds.len() - 1].group));
    }
    if group_allowed(list, kinds[i].group) {
        if i < d.len() {
            let k = choose|k: int| 0 <= k < rest.len() && rest[k] == kind_text(d[i]);
            assert(all[k] == kind_text(kinds[i]));
        } else {
            assert(all[all.len() - 1] == kind_text(kinds[i]));
        }
    }
}

/// All rows that are kept are told with the kind that they are kept under.
pub proof fn law_all_rows(c: Seq<CacheEntryView>, i: int, j: int)
    requires
        0 <= i < c.len(),
        0 <= j < c[i].rows.len(),
    ensures
        all_rows(c).contains((split(c[i].key, '|')[0], c[i].rows[j])),
    decreases c.len(),
{
    let d = c.drop_last();
    let rest = all_rows(d);
    let one = tagged(kind_part_of(c.last().key), c.last().rows);
    let x = (split(c[i].key, '|')[0], c[i].rows[j]);
    if i < d.len() {
        law_all_rows(d, i, j);
        let k = choose|k: int| 0 <= k < rest.len() && rest[k] == x;
        assert(all_rows(c)[k] == x);
    } else {
        assert(one[j] == x);
        assert(all_rows(c)[rest.len() + j] == x);
    }
}

} // verus!
