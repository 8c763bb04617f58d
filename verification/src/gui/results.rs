//! The results table: its rows, their index and caches, sorting and filtering.
use crate::age::{age_text, render_age};
use crate::columns::{column_views, ColumnKind, ColumnSpec, ColumnView};
use crate::order::{
    codes, is_stable_descending, is_stable_order, key_seqs, lex_lt, stable_descending, stable_order, text_key, text_lt,
};
use crate::text::{
    cat5, contains_text, copy_text, join, join_text, lowercase, occurs, opt_text, string_or, texts, to_lowercase,
    usize_text,
};
use crate::types::{key_of, lite_views, uid_key, LiteObj, LiteView, Uid};
use std::collections::HashMap;
use vstd::prelude::*;
use vstd::std_specs::hash::*;
use vstd::string::*;

verus! {

broadcast use {vstd::std_specs::hash::group_hash_axioms};

/// How the table draws its rows.
#[derive(Clone, Copy, Debug, PartialEq, Eq, Structural)]
pub enum VirtualMode {
    Auto,
    On,
    Off,
}

/// The rows of the table, where each object stands, and the texts cached for it.
pub struct ResultsState {
    pub rows: Vec<LiteObj>,
    pub index: HashMap<u128, usize>,
    pub active_cols: Vec<ColumnSpec>,
    pub sort_col: Option<usize>,
    pub sort_asc: bool,
    pub sort_dirty: bool,
    pub filter_cache: HashMap<u128, String>,
    pub soft_cap: usize,
    pub display_cache: HashMap<u128, Vec<String>>,
    pub virtual_mode: VirtualMode,
    pub filter: String,
    pub epoch: Option<u64>,
}

/// The part of the table that updates change.
#[verifier::ext_equal]
pub struct Table {
    pub rows: Seq<LiteView>,
    pub index: Map<u128, usize>,
    pub filter: Map<u128, Seq<char>>,
    pub display: Map<u128, Seq<Seq<char>>>,
}

/// The texts of a map of strings.
pub open spec fn text_map(m: Map<u128, String>) -> Map<u128, Seq<char>> {
    m.map_values(|s: String| s@)
}

/// The texts of a map of rows of strings.
pub open spec fn row_map(m: Map<u128, Vec<String>>) -> Map<u128, Seq<Seq<char>>> {
    m.map_values(|v: Vec<String>| texts(v@))
}

/// The part of the table that updates change.
pub open spec fn table(r: ResultsState) -> Table {
    Table {
        rows: lite_views(r.rows@),
        index: r.index@,
        filter: text_map(r.filter_cache@),
        display: row_map(r.display_cache@),
    }
}

/// Whether two states agree in all that updates of the table leave alone.
pub open spec fn same_settings(a: ResultsState, b: ResultsState) -> bool {
    &&& a.active_cols == b.active_cols
    &&& a.sort_col == b.sort_col
    &&& a.sort_asc == b.sort_asc
    &&& a.soft_cap == b.soft_cap
    &&& a.virtual_mode == b.virtual_mode
    &&& a.filter == b.filter
    &&& a.epoch == b.epoch
}

/// The key of the identity of a row.
pub open spec fn row_key(row: LiteView) -> u128 {
    crate::types::be_value(row.uid) as u128
}

/// Projected texts, each with a space behind it.
pub open spec fn spaced(p: Seq<(u32, Seq<char>)>) -> Seq<char>
    decreases p.len(),
{
    if p.len() == 0 {
        Seq::empty()
    } else {
        spaced(p.drop_last()) + p.last().1 + " "@
    }
}

/// The text that the filter searches for a row: name, namespace and projected texts in
/// lower case.
pub open spec fn haystack(row: LiteView) -> Seq<char> {
    let ns = match row.namespace {
        Some(n) => n + " "@,
        None => Seq::empty(),
    };
    lowercase(row.name + " "@ + ns + spaced(row.projected))
}

/// The text that the filter searches for a row.
pub fn build_filter_haystack(it: &LiteObj) -> (r: String)
    ensures
        r@ == haystack(it@),
{
    let mut s = copy_text(it.name.as_str());
    s.append(" ");
    let ghost head = s@;
    let ghost ns = match it@.namespace {
        Some(n) => n + " "@,
        None => Seq::empty(),
    };
    if let Some(n) = &it.namespace {
        s.append(n.as_str());
        s.append(" ");
    }
    assert(s@ =~= head + ns);
    let n: usize = it.projected.len();
    let ghost p = it.projected@;
    let mut i: usize = 0;
    assert(s@ =~= head + ns + spaced(p.take(0)));
    while i < n
        invariant
            i <= n,
            n == it.projected@.len(),
            p == it.projected@,
            s@ == head + ns + spaced(p.take(i as int)),
        decreases n - i,
    {
        assert(p.take(i + 1).drop_last() =~= p.take(i as int));
        let (_, v) = it.projected.get(i);
        s.append(v);
        s.append(" ");
        assert(s@ =~= head + ns + spaced(p.take(i + 1)));
        i += 1;
    }
    assert(p.take(n as int) =~= p);
    to_lowercase(s.as_str())
}

/// The first projected text of a column.
pub open spec fn projected_text(p: Seq<(u32, Seq<char>)>, id: u32) -> Option<Seq<char>>
    decreases p.len(),
{
    if p.len() == 0 {
        None
    } else if p[0].0 == id {
        Some(p[0].1)
    } else {
        projected_text(p.skip(1), id)
    }
}

fn projected_of(it: &LiteObj, id: u32) -> (r: Option<String>)
    ensures
        opt_text(r) == projected_text(it@.projected, id),
{
    let n: usize = it.projected.len();
    let ghost p = it.projected@;
    let mut i: usize = 0;
    assert(p.skip(0) =~= p);
    while i < n
        invariant
            i <= n,
            n == it.projected@.len(),
            p == it.projected@,
            projected_text(p, id) == projected_text(p.skip(i as int), id),
        decreases n - i,
    {
        let (k, v) = it.projected.get(i);
        assert(p.skip(i as int)[0] == p[i as int]);
        if k == id {
            return Some(copy_text(v));
        }
        assert(p.skip(i as int).skip(1) =~= p.skip(i + 1));
        i += 1;
    }
    None
}

/// The text of a row in a column; the age is drawn live and cached as nothing.
pub open spec fn cell(row: LiteView, kind: ColumnKind) -> Seq<char> {
    match kind {
        ColumnKind::Namespace => match row.namespace {
            Some(n) => n,
            None => "-"@,
        },
        ColumnKind::Name => row.name,
        ColumnKind::Age => Seq::empty(),
        ColumnKind::Projected(id) => match projected_text(row.projected, id) {
            Some(t) => t,
            None => "-"@,
        },
    }
}

/// The texts of a row in a list of columns.
pub open spec fn display_row(row: LiteView, cols: Seq<ColumnView>) -> Seq<Seq<char>> {
    cols.map_values(|c: ColumnView| cell(row, c.kind))
}

/// The texts of a row in a list of columns.
pub fn build_display_row(it: &LiteObj, cols: &Vec<ColumnSpec>) -> (r: Vec<String>)
    ensures
        texts(r@) == display_row(it@, column_views(cols@)),
{
    let mut out: Vec<String> = Vec::new();
    let ghost cv = column_views(cols@);
    let mut i: usize = 0;
    assert(texts(out@) =~= display_row(it@, cv.take(0)));
    while i < cols.len()
        invariant
            i <= cols.len(),
            cv == column_views(cols@),
            texts(out@) == display_row(it@, cv.take(i as int)),
        decreases cols.len() - i,
    {
        let s = match cols[i].kind {
            ColumnKind::Namespace => string_or(&it.namespace, "-"),
            ColumnKind::Name => it.name.clone(),
            ColumnKind::Age => String::new(),
            ColumnKind::Projected(id) => match projected_of(it, id) {
                Some(t) => t,
                None => copy_text("-"),
            },
        };
        assert(s@ == cell(it@, cv[i as int].kind));
        let ghost before = texts(out@);
        out.push(s);
        assert(texts(out@) =~= before.push(s@));
        assert(cv.take(i + 1) =~= cv.take(i as int).push(cv[i as int]));
        assert(texts(out@) =~= display_row(it@, cv.take(i + 1)));
        i += 1;
    }
    assert(cv.take(cv.len() as int) =~= cv);
    out
}

/// Where each of the first `n` rows stands; a later row hides an earlier one of the
/// same identity.
pub open spec fn index_of(rows: Seq<LiteView>, n: nat) -> Map<u128, usize>
    decreases n,
{
    if n == 0 {
        Map::empty()
    } else {
        index_of(rows, (n - 1) as nat).insert(row_key(rows[n - 1]), (n - 1) as usize)
    }
}

/// The filter texts with those of the first `n` rows added.
pub open spec fn filter_with(m: Map<u128, Seq<char>>, rows: Seq<LiteView>, n: nat) -> Map<u128, Seq<char>>
    decreases n,
{
    if n == 0 {
        m
    } else {
        filter_with(m, rows, (n - 1) as nat).insert(row_key(rows[n - 1]), haystack(rows[n - 1]))
    }
}

/// The table with a row added at the end.
pub open spec fn table_add(t: Table, row: LiteView, cols: Seq<ColumnView>) -> Table {
    Table {
        rows: t.rows.push(row),
        index: t.index.insert(row_key(row), t.rows.len() as usize),
        filter: t.filter.insert(row_key(row), haystack(row)),
        display: t.display.insert(row_key(row), display_row(row, cols)),
    }
}

/// The table with a row changed.
pub open spec fn table_set(t: Table, at: int, row: LiteView, cols: Seq<ColumnView>) -> Table {
    Table {
        rows: t.rows.update(at, row),
        index: t.index,
        filter: t.filter.insert(row_key(row), haystack(row)),
        display: t.display.insert(row_key(row), display_row(row, cols)),
    }
}

/// The table with those of the first `n` items added that it does not hold.
pub open spec fn table_merge(t: Table, items: Seq<LiteView>, cols: Seq<ColumnView>, n: nat) -> Table
    decreases n,
{
    if n == 0 {
        t
    } else {
        let before = table_merge(t, items, cols, (n - 1) as nat);
        let row = items[n - 1];
        if before.index.contains_key(row_key(row)) {
            before
        } else {
            table_add(before, row, cols)
        }
    }
}

/// The table after a snapshot: the snapshot itself where the table was empty, else the
/// table with the new items added.
pub open spec fn table_snapshot(t: Table, items: Seq<LiteView>, cols: Seq<ColumnView>) -> Table {
    if t.rows.len() == 0 {
        Table {
            rows: items,
            index: index_of(items, items.len()),
            filter: filter_with(t.filter, items, items.len()),
            display: t.display,
        }
    } else {
        table_merge(t, items, cols, items.len())
    }
}

/// The table after an object was applied: its row is changed where it has one, else a
/// row is added. An index that points behind the rows is repaired.
pub open spec fn table_applied(t: Table, row: LiteView, cols: Seq<ColumnView>) -> Table {
    let key = row_key(row);
    if t.index.contains_key(key) {
        let at = t.index[key];
        if at < t.rows.len() {
            table_set(t, at as int, row, cols)
        } else if t.rows.len() > 0 && t.rows.last().uid == row.uid {
            Table {
                index: t.index.insert(key, (t.rows.len() - 1) as usize),
                ..table_set(t, t.rows.len() - 1, row, cols)
            }
        } else {
            table_add(t, row, cols)
        }
    } else {
        table_add(t, row, cols)
    }
}

/// The table after an object was deleted: the last row takes the place of its row.
pub open spec fn table_deleted(t: Table, key: u128) -> Table {
    if t.index.contains_key(key) {
        let at = t.index[key];
        let index = t.index.remove(key);
        if at < t.rows.len() {
            let rows = t.rows.update(at as int, t.rows.last()).drop_last();
            Table {
                rows,
                index: if at < rows.len() {
                    index.insert(row_key(rows[at as int]), at)
                } else {
                    index
                },
                filter: t.filter.remove(key),
                display: t.display.remove(key),
            }
        } else {
            Table { index, ..t }
        }
    } else {
        t
    }
}

proof fn lemma_text_map_insert(m: Map<u128, String>, k: u128, v: String)
    ensures
        text_map(m.insert(k, v)) == text_map(m).insert(k, v@),
{
    assert(text_map(m.insert(k, v)) =~= text_map(m).insert(k, v@));
}

proof fn lemma_row_map_insert(m: Map<u128, Vec<String>>, k: u128, v: Vec<String>)
    ensures
        row_map(m.insert(k, v)) == row_map(m).insert(k, texts(v@)),
{
    assert(row_map(m.insert(k, v)) =~= row_map(m).insert(k, texts(v@)));
}

proof fn lemma_lite_push(v: Seq<LiteObj>, x: LiteObj)
    ensures
        lite_views(v.push(x)) == lite_views(v).push(x@),
{
    assert(lite_views(v.push(x)) =~= lite_views(v).push(x@));
}

impl ResultsState {
    fn cache_filter(&mut self, it: &LiteObj)
        ensures
            table(*final(self)) == (Table {
                filter: table(*old(self)).filter.insert(row_key(it@), haystack(it@)),
                ..table(*old(self))
            }),
            same_settings(*old(self), *final(self)),
            final(self).sort_dirty == old(self).sort_dirty,
            final(self).rows == old(self).rows,
    {
        let key = key_of(&it.uid);
        let hay = build_filter_haystack(it);
        proof {
            lemma_text_map_insert(self.filter_cache@, key, hay);
        }
        self.filter_cache.insert(key, hay);
    }

    fn cache_display(&mut self, it: &LiteObj)
        ensures
            table(*final(self)) == (Table {
                display: table(*old(self)).display.insert(
                    row_key(it@),
                    display_row(it@, column_views(old(self).active_cols@)),
                ),
                ..table(*old(self))
            }),
            same_settings(*old(self), *final(self)),
            final(self).sort_dirty == old(self).sort_dirty,
            final(self).rows == old(self).rows,
    {
        let key = key_of(&it.uid);
        let row = build_display_row(it, &self.active_cols);
        proof {
            lemma_row_map_insert(self.display_cache@, key, row);
        }
        self.display_cache.insert(key, row);
    }

    fn add_row(&mut self, it: LiteObj)
        ensures
            table(*final(self)) == table_add(table(*old(self)), it@, column_views(old(self).active_cols@)),
            same_settings(*old(self), *final(self)),
            final(self).sort_dirty == old(self).sort_dirty,
    {
        let at: usize = self.rows.len();
        self.index.insert(key_of(&it.uid), at);
        self.cache_filter(&it);
        self.cache_display(&it);
        proof {
            lemma_lite_push(self.rows@, it);
        }
        self.rows.push(it);
        assert(table(*self) =~= table_add(table(*old(self)), it@, column_views(old(self).active_cols@)));
    }

    fn set_row(&mut self, at: usize, it: LiteObj)
        requires
            at < old(self).rows.len(),
        ensures
            table(*final(self)) == table_set(
                table(*old(self)),
                at as int,
                it@,
                column_views(old(self).active_cols@),
            ),
            same_settings(*old(self), *final(self)),
            final(self).sort_dirty == old(self).sort_dirty,
    {
        self.cache_filter(&it);
        self.cache_display(&it);
        let ghost before = self.rows@;
        self.rows.set(at, it);
        assert(lite_views(self.rows@) =~= lite_views(before).update(at as int, it@));
        assert(table(*self) =~= table_set(
            table(*old(self)),
            at as int,
            it@,
            column_views(old(self).active_cols@),
        ));
    }

    /// Rebuild the index from the rows.
    fn rebuild_index(&mut self)
        ensures
            table(*final(self)) == (Table {
                index: index_of(table(*old(self)).rows, table(*old(self)).rows.len()),
                ..table(*old(self))
            }),
            same_settings(*old(self), *final(self)),
            final(self).sort_dirty == old(self).sort_dirty,
            final(self).rows == old(self).rows,
    {
        let ghost rows = lite_views(self.rows@);
        self.index.clear();
        let n: usize = self.rows.len();
        let mut i: usize = 0;
        while i < n
            invariant
                i <= n,
                n == self.rows.len(),
                rows == lite_views(self.rows@),
                self.rows == old(self).rows,
                self.index@ == index_of(rows, i as nat),
                table(*self) == (Table { index: self.index@, ..table(*old(self)) }),
                same_settings(*old(self), *self),
                self.sort_dirty == old(self).sort_dirty,
            decreases n - i,
        {
            let k = key_of(&self.rows[i].uid);
            assert(k == row_key(rows[i as int]));
            self.index.insert(k, i);
            i += 1;
        }
    }

    /// Apply a snapshot of the watched objects.
    pub fn apply_snapshot(&mut self, items: Vec<LiteObj>)
        ensures
            table(*final(self)) == table_snapshot(
                table(*old(self)),
                lite_views(items@),
                column_views(old(self).active_cols@),
            ),
            same_settings(*old(self), *final(self)),
            final(self).sort_dirty,
    {
        let ghost iv = lite_views(items@);
        let ghost cols = column_views(self.active_cols@);
        let ghost t0 = table(*self);
        if self.rows.len() == 0 {
            self.rows = items;
            self.rebuild_index();
            let n: usize = self.rows.len();
            let mut i: usize = 0;
            assert(table(*self) =~= (Table {
                rows: iv,
                index: index_of(iv, iv.len()),
                filter: filter_with(t0.filter, iv, 0),
                display: t0.display,
            }));
            while i < n
                invariant
                    i <= n,
                    n == self.rows.len(),
                    iv == lite_views(self.rows@),
                    same_settings(*old(self), *self),
                    table(*self) == (Table {
                        rows: iv,
                        index: index_of(iv, iv.len()),
                        filter: filter_with(t0.filter, iv, i as nat),
                        display: t0.display,
                    }),
                decreases n - i,
            {
                let key = key_of(&self.rows[i].uid);
                let hay = build_filter_haystack(&self.rows[i]);
                assert(key == row_key(iv[i as int]));
                proof {
                    lemma_text_map_insert(self.filter_cache@, key, hay);
                }
                self.filter_cache.insert(key, hay);
                i += 1;
            }
        } else {
            let n: usize = items.len();
            let mut i: usize = 0;
            while i < n
                invariant
                    i <= n,
                    n == items.len(),
                    iv == lite_views(items@),
                    cols == column_views(self.active_cols@),
                    same_settings(*old(self), *self),
                    table(*self) == table_merge(t0, iv, cols, i as nat),
                decreases n - i,
            {
                let key = key_of(&items[i].uid);
                assert(key == row_key(iv[i as int]));
                assert(items@[i as int]@ == iv[i as int]);
                if !self.index.contains_key(&key) {
                    self.add_row(items[i].clone());
                }
                i += 1;
            }
        }
        self.sort_dirty = true;
    }

    /// Apply the change of one object.
    pub fn apply_applied(&mut self, lo: LiteObj)
        ensures
            table(*final(self)) == table_applied(
                table(*old(self)),
                lo@,
                column_views(old(self).active_cols@),
            ),
            same_settings(*old(self), *final(self)),
            final(self).sort_dirty == old(self).sort_dirty,
    {
        let key = key_of(&lo.uid);
        let ghost t0 = table(*self);
        let found: Option<usize> = match self.index.get(&key) {
            Some(i) => Some(*i),
            None => None,
        };
        match found {
            Some(at) => {
                if at < self.rows.len() {
                    self.set_row(at, lo);
                } else {
                    let n: usize = self.rows.len();
                    let last_same = n > 0 && crate::types::same_uid(&self.rows[n - 1].uid, &lo.uid);
                    if last_same {
                        self.set_row(n - 1, lo);
                        self.index.insert(key, n - 1);
                    } else {
                        self.add_row(lo);
                    }
                }
            },
            None => {
                self.add_row(lo);
            },
        }
        assert(table(*self) =~= table_applied(t0, lo@, column_views(old(self).active_cols@)));
    }

    /// Apply the deletion of one object.
    pub fn apply_deleted(&mut self, uid: &Uid)
        ensures
            table(*final(self)) == table_deleted(table(*old(self)), uid_key(*uid)),
            same_settings(*old(self), *final(self)),
            final(self).sort_dirty == old(self).sort_dirty,
    {
        let key = key_of(uid);
        let ghost t0 = table(*self);
        let found: Option<usize> = self.index.remove(&key);
        if let Some(at) = found {
            if at < self.rows.len() {
                let ghost before = self.rows@;
                let _gone = self.rows.swap_remove(at);
                assert(lite_views(self.rows@) =~= t0.rows.update(at as int, t0.rows.last()).drop_last());
                if at < self.rows.len() {
                    let k = key_of(&self.rows[at].uid);
                    assert(k == row_key(lite_views(self.rows@)[at as int]));
                    self.index.insert(k, at);
                }
                self.filter_cache.remove(&key);
                self.display_cache.remove(&key);
                assert(text_map(self.filter_cache@) =~= t0.filter.remove(key));
                assert(row_map(self.display_cache@) =~= t0.display.remove(key));
            }
        }
        assert(table(*self) =~= table_deleted(t0, key));
    }

    /// Empty the table and its caches.
    pub fn clear(&mut self)
        ensures
            table(*final(self)) == (Table {
                rows: Seq::empty(),
                index: Map::empty(),
                filter: Map::empty(),
                display: Map::empty(),
            }),
            same_settings(*old(self), *final(self)),
            final(self).sort_dirty == old(self).sort_dirty,
    {
        self.rows.clear();
        self.index.clear();
        self.filter_cache.clear();
        self.display_cache.clear();
        assert(table(*self) =~= (Table {
            rows: Seq::empty(),
            index: Map::empty(),
            filter: Map::empty(),
            display: Map::empty(),
        }));
    }

    /// The row of an object.
    pub fn find(&self, uid: &Uid) -> (r: Option<&LiteObj>)
        ensures
            match r {
                Some(o) => row_of(table(*self), uid_key(*uid)) == Some(o@),
                None => row_of(table(*self), uid_key(*uid)) is None,
            },
    {
        let key = key_of(uid);
        match self.index.get(&key) {
            Some(i) => {
                if *i < self.rows.len() {
                    assert(lite_views(self.rows@)[*i as int] == self.rows@[*i as int]@);
                    Some(&self.rows[*i])
                } else {
                    None
                }
            },
            None => None,
        }
    }
}

impl ResultsState {
    /// Whether the index knows an object.
    pub fn knows(&self, uid: &Uid) -> (r: bool)
        ensures
            r == self.index@.contains_key(uid_key(*uid)),
    {
        let key = key_of(uid);
        self.index.contains_key(&key)
    }
}

/// The row that the index names for a key.
pub open spec fn row_of(t: Table, key: u128) -> Option<LiteView> {
    if t.index.contains_key(key) && t.index[key] < t.rows.len() {
        Some(t.rows[t.index[key] as int])
    } else {
        None
    }
}

// ---------------------------------------------------------------------------
// Sorting

/// The key by which a column orders a row.
pub open spec fn sort_key(row: LiteView, kind: ColumnKind) -> Seq<i64> {
    match kind {
        ColumnKind::Age => seq![row.creation_ts],
        ColumnKind::Name => codes(row.name),
        ColumnKind::Namespace => codes(
            match row.namespace {
                Some(n) => n,
                None => Seq::empty(),
            },
        ),
        ColumnKind::Projected(id) => codes(
            match projected_text(row.projected, id) {
                Some(t) => t,
                None => Seq::empty(),
            },
        ),
    }
}

/// The keys by which a column orders rows.
pub open spec fn sort_keys(rows: Seq<LiteView>, kind: ColumnKind) -> Seq<Seq<i64>> {
    rows.map_values(|r: LiteView| sort_key(r, kind))
}

/// The rows at the places that `order` lists.
pub open spec fn pick(rows: Seq<LiteView>, order: Seq<usize>) -> Seq<LiteView> {
    order.map_values(|i: usize| rows[i as int])
}

/// Whether `out` are the rows in the order of a column. Rows with equal keys keep their
/// order; only under a projected column a descending order turns it round.
pub open spec fn sorted_rows(rows: Seq<LiteView>, kind: ColumnKind, asc: bool, out: Seq<LiteView>) -> bool {
    let keys = sort_keys(rows, kind);
    if asc {
        exists|order: Seq<usize>| #[trigger] is_stable_order(keys, order) && out == pick(rows, order)
    } else if kind is Projected {
        exists|order: Seq<usize>|
            #[trigger] is_stable_order(keys, order) && out == pick(rows, order).reverse()
    } else {
        exists|order: Seq<usize>| #[trigger] is_stable_descending(keys, order) && out == pick(rows, order)
    }
}

fn sort_key_of(it: &LiteObj, kind: ColumnKind) -> (r: Vec<i64>)
    ensures
        r@ == sort_key(it@, kind),
{
    match kind {
        ColumnKind::Age => {
            let mut v: Vec<i64> = Vec::new();
            v.push(it.creation_ts);
            assert(v@ =~= seq![it.creation_ts]);
            v
        },
        ColumnKind::Name => text_key(it.name.as_str()),
        ColumnKind::Namespace => match &it.namespace {
            Some(n) => text_key(n.as_str()),
            None => {
                let v: Vec<i64> = Vec::new();
                assert(v@ =~= codes(Seq::empty()));
                v
            },
        },
        ColumnKind::Projected(id) => match projected_of(it, id) {
            Some(t) => text_key(t.as_str()),
            None => {
                let v: Vec<i64> = Vec::new();
                assert(v@ =~= codes(Seq::empty()));
                v
            },
        },
    }
}

fn reorder(rows: &Vec<LiteObj>, order: &Vec<usize>, backwards: bool) -> (r: Vec<LiteObj>)
    requires
        forall|i: int| 0 <= i < order.len() ==> (#[trigger] order@[i]) < rows.len(),
    ensures
        !backwards ==> lite_views(r@) == pick(lite_views(rows@), order@),
        backwards ==> lite_views(r@) == pick(lite_views(rows@), order@).reverse(),
{
    let n: usize = order.len();
    let mut out: Vec<LiteObj> = Vec::new();
    let mut i: usize = 0;
    let ghost picked = pick(lite_views(rows@), order@);
    while i < n
        invariant
            i <= n,
            n == order.len(),
            picked == pick(lite_views(rows@), order@),
            forall|k: int| 0 <= k < order.len() ==> (#[trigger] order@[k]) < rows.len(),
            out.len() == i,
            forall|k: int|
                0 <= k < i ==> (#[trigger] out@[k])@ == picked[if backwards {
                    n - 1 - k
                } else {
                    k
                }],
        decreases n - i,
    {
        let at: usize = if backwards {
            order[n - 1 - i]
        } else {
            order[i]
        };
        out.push(rows[at].clone());
        i += 1;
    }
    assert(!backwards ==> lite_views(out@) =~= picked);
    assert(backwards ==> lite_views(out@) =~= picked.reverse());
    out
}

/// Whether a state asks for sorting: a column is chosen, rows changed since, and there
/// is something to sort.
pub open spec fn wants_sort(r: ResultsState) -> bool {
    r.sort_col is Some && r.sort_dirty && r.active_cols@.len() > 0 && r.rows@.len() > 1
}

impl ResultsState {
    /// Sort the rows by the chosen column where they changed since they were sorted.
    pub fn apply_sort_if_needed(&mut self)
        ensures
            !wants_sort(*old(self)) ==> *final(self) == *old(self),
            wants_sort(*old(self)) ==> {
                let c = old(self).sort_col->0;
                let t0 = table(*old(self));
                let t1 = table(*final(self));
                &&& same_settings(*old(self), *final(self))
                &&& !final(self).sort_dirty
                &&& c >= old(self).active_cols@.len() ==> t1 == t0
                &&& c < old(self).active_cols@.len() ==> {
                    &&& sorted_rows(t0.rows, old(self).active_cols@[c as int].kind, old(self).sort_asc, t1.rows)
                    &&& t1 == (Table {
                        rows: t1.rows,
                        index: index_of(t1.rows, t1.rows.len()),
                        ..t0
                    })
                }
            },
    {
        let col: usize = match self.sort_col {
            Some(c) => c,
            None => {
                return;
            },
        };
        if !self.sort_dirty || self.active_cols.len() == 0 || self.rows.len() <= 1 {
            return;
        }
        if col >= self.active_cols.len() {
            self.sort_dirty = false;
            return;
        }
        let kind = self.active_cols[col].kind;
        let ghost t0 = table(*self);
        let ghost ks = sort_keys(t0.rows, kind);
        let mut keys: Vec<Vec<i64>> = Vec::new();
        let n: usize = self.rows.len();
        let mut i: usize = 0;
        while i < n
            invariant
                i <= n,
                n == self.rows.len(),
                t0 == table(*self),
                *self == *old(self),
                ks == sort_keys(t0.rows, kind),
                key_seqs(keys@) =~= ks.take(i as int),
            decreases n - i,
        {
            let k = sort_key_of(&self.rows[i], kind);
            assert(t0.rows[i as int] == self.rows@[i as int]@);
            assert(k@ == ks[i as int]);
            let ghost before = key_seqs(keys@);
            keys.push(k);
            assert(key_seqs(keys@) =~= before.push(k@));
            i += 1;
        }
        assert(ks.take(n as int) =~= ks);
        let projected = match kind {
            ColumnKind::Projected(_) => true,
            _ => false,
        };
        let asc = self.sort_asc;
        let order = if asc || projected {
            stable_order(&keys)
        } else {
            stable_descending(&keys)
        };
        let sorted = reorder(&self.rows, &order, !asc && projected);
        assert(sorted_rows(t0.rows, kind, asc, lite_views(sorted@))) by {
            if asc {
                assert(is_stable_order(ks, order@));
            } else if projected {
                assert(is_stable_order(ks, order@));
            } else {
                assert(is_stable_descending(ks, order@));
            }
        }
        self.rows = sorted;
        self.rebuild_index();
        self.sort_dirty = false;
    }

    /// Choose a column by its heading: a second choice of the same column turns the
    /// order round.
    pub fn choose_sort(&mut self, col: usize)
        ensures
            *final(self) == sort_chosen(*old(self), col),
    {
        let same = match self.sort_col {
            Some(c) => c == col,
            None => false,
        };
        if same {
            self.sort_asc = !self.sort_asc;
        } else {
            self.sort_col = Some(col);
            self.sort_asc = true;
        }
        self.sort_dirty = true;
    }
}

/// The heading of a column, with an arrow where the table is sorted by it.
pub open spec fn heading(label: Seq<char>, sorted: bool, asc: bool) -> Seq<char> {
    if sorted {
        if asc {
            label + " \u{2191}"@
        } else {
            label + " \u{2193}"@
        }
    } else {
        label
    }
}

/// The heading of a column.
pub fn heading_text(label: &str, sorted: bool, asc: bool) -> (r: String)
    ensures
        r@ == heading(label@, sorted, asc),
{
    let mut t = copy_text(label);
    if sorted {
        if asc {
            t.append(" \u{2191}");
        } else {
            t.append(" \u{2193}");
        }
    }
    t
}

// ---------------------------------------------------------------------------
// Filtering

/// The texts of projected fields.
pub open spec fn projected_texts(p: Seq<(u32, Seq<char>)>) -> Seq<Seq<char>> {
    p.map_values(|e: (u32, Seq<char>)| e.1)
}

/// The text that the filter searches for a row without a cached text.
pub open spec fn plain_haystack(row: LiteView) -> Seq<char> {
    let ns = match row.namespace {
        Some(n) => n,
        None => Seq::empty(),
    };
    lowercase(row.name + " "@ + ns + " "@ + join(projected_texts(row.projected), " "@))
}

fn plain_haystack_of(it: &LiteObj) -> (r: String)
    ensures
        r@ == plain_haystack(it@),
{
    let mut parts: Vec<String> = Vec::new();
    let n: usize = it.projected.len();
    let ghost p = it.projected@;
    let mut i: usize = 0;
    while i < n
        invariant
            i <= n,
            n == it.projected@.len(),
            p == it.projected@,
            texts(parts@) =~= projected_texts(p).take(i as int),
        decreases n - i,
    {
        let (_, v) = it.projected.get(i);
        let ghost before = texts(parts@);
        let t = copy_text(v);
        parts.push(t);
        assert(texts(parts@) =~= before.push(t@));
        i += 1;
    }
    assert(projected_texts(p).take(n as int) =~= projected_texts(p));
    let joined = join_text(&parts, " ");
    let ns = match &it.namespace {
        Some(s) => s.clone(),
        None => String::new(),
    };
    let t = cat5(it.name.as_str(), " ", ns.as_str(), " ", joined.as_str());
    to_lowercase(t.as_str())
}

/// Whether the filter keeps a row.
pub open spec fn filter_keeps(t: Table, row: LiteView, query: Seq<char>) -> bool {
    if t.filter.contains_key(row_key(row)) {
        occurs(t.filter[row_key(row)], query)
    } else {
        occurs(plain_haystack(row), query)
    }
}

/// The places below `n` of the rows that the filter keeps, in order.
pub open spec fn filtered(t: Table, query: Seq<char>, n: nat) -> Seq<usize>
    decreases n,
{
    if n == 0 {
        Seq::empty()
    } else {
        let rest = filtered(t, query, (n - 1) as nat);
        if filter_keeps(t, t.rows[n - 1], query) {
            rest.push((n - 1) as usize)
        } else {
            rest
        }
    }
}

/// The first `n` places.
pub open spec fn places(n: nat) -> Seq<usize> {
    Seq::new(n, |i: int| i as usize)
}

/// The places of the rows that the table shows: without a filter the first rows up to
/// the soft cap, with one every row that it keeps.
pub open spec fn shown_places(r: ResultsState) -> Seq<usize> {
    let t = table(r);
    if r.filter@.len() == 0 {
        places(
            if r.soft_cap < t.rows.len() {
                r.soft_cap as nat
            } else {
                t.rows.len()
            },
        )
    } else {
        filtered(t, lowercase(r.filter@), t.rows.len())
    }
}

impl ResultsState {
    /// The places of the rows that the table shows.
    pub fn compute_filtered_ix(&self) -> (r: Vec<usize>)
        ensures
            r@ == shown_places(*self),
    {
        let mut out: Vec<usize> = Vec::new();
        let n: usize = self.rows.len();
        if self.filter.as_str().is_empty() {
            let cap: usize = if self.soft_cap < n {
                self.soft_cap
            } else {
                n
            };
            let mut i: usize = 0;
            while i < cap
                invariant
                    i <= cap,
                    out@ =~= places(i as nat),
                decreases cap - i,
            {
                out.push(i);
                i += 1;
            }
            return out;
        }
        let q = to_lowercase(self.filter.as_str());
        let ghost t = table(*self);
        let mut i: usize = 0;
        while i < n
            invariant
                i <= n,
                n == self.rows.len(),
                t == table(*self),
                out@ == filtered(t, q@, i as nat),
            decreases n - i,
        {
            let key = key_of(&self.rows[i].uid);
            assert(t.rows[i as int] == self.rows@[i as int]@);
            assert(key == row_key(t.rows[i as int]));
            let keep = match self.filter_cache.get(&key) {
                Some(h) => contains_text(h.as_str(), q.as_str()),
                None => {
                    let h = plain_haystack_of(&self.rows[i]);
                    contains_text(h.as_str(), q.as_str())
                },
            };
            assert(keep == filter_keeps(t, t.rows[i as int], q@));
            if keep {
                out.push(i);
            }
            i += 1;
        }
        out
    }

    /// Whether the table draws only the rows in view: as the mode says, or on its own
    /// where no filter is set and more rows are shown than the soft cap.
    pub fn should_virtual(&self, shown: usize) -> (r: bool)
        ensures
            r == in_view_only(*self, shown),
    {
        match self.virtual_mode {
            VirtualMode::On => true,
            VirtualMode::Off => false,
            VirtualMode::Auto => self.filter.as_str().is_empty() && shown > self.soft_cap,
        }
    }

    /// How many rows the line above the table says are shown.
    pub fn showing(&self) -> (r: usize)
        ensures
            r == shown_places(*self).len(),
    {
        if self.filter.as_str().is_empty() {
            let n: usize = self.rows.len();
            if n < self.soft_cap {
                n
            } else {
                self.soft_cap
            }
        } else {
            self.compute_filtered_ix().len()
        }
    }

    /// The warning above a table that shows only its first rows.
    pub fn large_set_warning(&self) -> (r: Option<String>)
        ensures
            opt_text(r) == warning_of(*self),
    {
        if self.filter.as_str().is_empty() && self.rows.len() > self.soft_cap {
            let cap = usize_text(self.soft_cap);
            let total = usize_text(self.rows.len());
            Some(
                cat5(
                    "Large result set: showing the first ",
                    cap.as_str(),
                    " of ",
                    total.as_str(),
                    ". Refine filters to narrow down.",
                ),
            )
        } else {
            None
        }
    }

    /// The text of a cell, with the age as seen at `now`. The texts of the row are
    /// cached, and computed again where the columns changed in number.
    pub fn display_cell_string(&mut self, it: &LiteObj, col_idx: usize, spec: &ColumnSpec, now: i64) -> (r: String)
        ensures
            spec.kind is Age ==> {
                &&& r@ == age_text(it.creation_ts as int, now as int)
                &&& *final(self) == *old(self)
            },
            !(spec.kind is Age) ==> {
                let t0 = table(*old(self));
                let key = row_key(it@);
                let cols = column_views(old(self).active_cols@);
                let display = if t0.display.contains_key(key) && t0.display[key].len() == cols.len() {
                    t0.display
                } else {
                    t0.display.insert(key, display_row(it@, cols))
                };
                &&& table(*final(self)) == (Table { display, ..t0 })
                &&& same_settings(*old(self), *final(self))
                &&& final(self).sort_dirty == old(self).sort_dirty
                &&& r@ == (if col_idx < display[key].len() {
                    display[key][col_idx as int]
                } else {
                    Seq::empty()
                })
            },
    {
        match spec.kind {
            ColumnKind::Age => render_age(it.creation_ts, now),
            _ => {
                let key = key_of(&it.uid);
                let ghost t0 = table(*self);
                let ghost cols = column_views(self.active_cols@);
                let ghost display = if t0.display.contains_key(key) && t0.display[key].len() == cols.len() {
                    t0.display
                } else {
                    t0.display.insert(key, display_row(it@, cols))
                };
                let recalc = match self.display_cache.get(&key) {
                    Some(v) => v.len() != self.active_cols.len(),
                    None => true,
                };
                if recalc {
                    self.cache_display(it);
                }
                assert(table(*self) =~= (Table { display, ..t0 }));
                assert(display.contains_key(key));
                assert(self.display_cache@.contains_key(key));
                match self.display_cache.get(&key) {
                    Some(v) => if col_idx < v.len() {
                        assert(texts(v@)[col_idx as int] == v@[col_idx as int]@);
                        v[col_idx].clone()
                    } else {
                        String::new()
                    },
                    None => String::new(),
                }
            },
        }
    }
}

// ---------------------------------------------------------------------------
// Laws

/// Whether the index names every row, and nothing else.
pub open spec fn indexed(t: Table) -> bool {
    &&& t.rows.len() <= usize::MAX
    &&& forall|k: u128| #[trigger]
        t.index.contains_key(k) ==> t.index[k] < t.rows.len() && row_key(t.rows[t.index[k] as int]) == k
    &&& forall|i: int|
        0 <= i < t.rows.len() ==> t.index.contains_key(row_key(#[trigger] t.rows[i])) && t.index[row_key(
            t.rows[i],
        )] == i
}

/// An applied object keeps the index in step with the rows, and its row can be found.
pub proof fn law_applied_indexed(t: Table, row: LiteView, cols: Seq<ColumnView>)
    requires
        indexed(t),
        table_applied(t, row, cols).rows.len() <= usize::MAX,
    ensures
        indexed(table_applied(t, row, cols)),
        row_of(table_applied(t, row, cols), row_key(row)) == Some(row),
        forall|k: u128| k != row_key(row) ==> row_of(table_applied(t, row, cols), k) == row_of(t, k),
{
    let u = table_applied(t, row, cols);
    let key = row_key(row);
    if t.index.contains_key(key) {
        let at = t.index[key] as int;
        assert forall|i: int| 0 <= i < u.rows.len() implies u.index.contains_key(
            row_key(#[trigger] u.rows[i]),
        ) && u.index[row_key(u.rows[i])] == i by {
            if i != at {
                assert(u.rows[i] == t.rows[i]);
            }
        }
        assert forall|k: u128| #[trigger] u.index.contains_key(k) implies u.index[k] < u.rows.len()
            && row_key(u.rows[u.index[k] as int]) == k by {
            assert(t.index.contains_key(k));
        }
    } else {
        assert forall|i: int| 0 <= i < u.rows.len() implies u.index.contains_key(
            row_key(#[trigger] u.rows[i]),
        ) && u.index[row_key(u.rows[i])] == i by {
            if i < t.rows.len() {
                assert(u.rows[i] == t.rows[i]);
            }
        }
        assert forall|k: u128| #[trigger] u.index.contains_key(k) implies u.index[k] < u.rows.len()
            && row_key(u.rows[u.index[k] as int]) == k by {
            if k != key {
                assert(t.index.contains_key(k));
            }
        }
    }
}

/// A deleted object keeps the index in step with the rows; its row is gone and every
/// other row can still be found.
pub proof fn law_deleted_indexed(t: Table, key: u128)
    requires
        indexed(t),
    ensures
        indexed(table_deleted(t, key)),
        row_of(table_deleted(t, key), key) is None,
        forall|k: u128| k != key ==> row_of(table_deleted(t, key), k) == row_of(t, k),
{
    let u = table_deleted(t, key);
    if t.index.contains_key(key) {
        let at = t.index[key] as int;
        let last = t.rows.len() - 1;
        assert forall|i: int| 0 <= i < u.rows.len() implies u.index.contains_key(
            row_key(#[trigger] u.rows[i]),
        ) && u.index[row_key(u.rows[i])] == i by {
            if i == at {
                assert(u.rows[i] == t.rows[last]);
            } else {
                assert(u.rows[i] == t.rows[i]);
                assert(t.index[row_key(t.rows[i])] == i);
            }
        }
        assert forall|k: u128| #[trigger] u.index.contains_key(k) implies u.index[k] < u.rows.len()
            && row_key(u.rows[u.index[k] as int]) == k by {
            assert(t.index.contains_key(k));
            assert(t.rows[t.index[k] as int] == t.rows[t.index[k] as int]);
        }
        assert forall|k: u128| k != key implies row_of(u, k) == row_of(t, k) by {
            if t.index.contains_key(k) {
                let j = t.index[k] as int;
                if j == last {
                    assert(row_key(t.rows[last]) == k);
                    assert(at != last);
                } else {
                    assert(j != at);
                    assert(u.rows[j] == t.rows[j]);
                }
            }
        }
    }
}

/// Whether no two items have the same key.
pub open spec fn distinct_keys(items: Seq<LiteView>) -> bool {
    forall|i: int, j: int|
        0 <= i < j < items.len() ==> row_key(#[trigger] items[i]) != row_key(#[trigger] items[j])
}

/// A snapshot of distinct objects keeps the index in step with the rows.
pub proof fn law_snapshot_indexed(t: Table, items: Seq<LiteView>, cols: Seq<ColumnView>)
    requires
        indexed(t),
        distinct_keys(items),
        table_snapshot(t, items, cols).rows.len() <= usize::MAX,
    ensures
        indexed(table_snapshot(t, items, cols)),
{
    if t.rows.len() == 0 {
        lemma_index_of(items, items.len());
    } else {
        lemma_merge_indexed(t, items, cols, items.len());
    }
}

proof fn lemma_index_of(rows: Seq<LiteView>, n: nat)
    requires
        n <= rows.len() <= usize::MAX,
        distinct_keys(rows),
    ensures
        forall|k: u128| #[trigger]
            index_of(rows, n).contains_key(k) ==> index_of(rows, n)[k] < n && row_key(
                rows[index_of(rows, n)[k] as int],
            ) == k,
        forall|i: int|
            0 <= i < n ==> index_of(rows, n).contains_key(row_key(#[trigger] rows[i])) && index_of(
                rows,
                n,
            )[row_key(rows[i])] == i,
    decreases n,
{
    if n > 0 {
        let m = (n - 1) as nat;
        lemma_index_of(rows, m);
        assert forall|i: int| 0 <= i < n implies index_of(rows, n).contains_key(row_key(#[trigger] rows[i]))
            && index_of(rows, n)[row_key(rows[i])] == i by {
            if i < m {
                assert(row_key(rows[i]) != row_key(rows[m as int]));
            }
        }
        assert forall|k: u128| #[trigger] index_of(rows, n).contains_key(k) implies index_of(rows, n)[k] < n
            && row_key(rows[index_of(rows, n)[k] as int]) == k by {
            if k != row_key(rows[m as int]) {
                assert(index_of(rows, m).contains_key(k));
            }
        }
    }
}

proof fn lemma_merge_indexed(t: Table, items: Seq<LiteView>, cols: Seq<ColumnView>, n: nat)
    requires
        indexed(t),
        n <= items.len(),
        table_merge(t, items, cols, n).rows.len() <= usize::MAX,
    ensures
        indexed(table_merge(t, items, cols, n)),
    decreases n,
{
    if n > 0 {
        let before = table_merge(t, items, cols, (n - 1) as nat);
        let row = items[n - 1];
        lemma_merge_indexed(t, items, cols, (n - 1) as nat);
        if !before.index.contains_key(row_key(row)) {
            law_applied_indexed(before, row, cols);
        }
    }
}

/// What becomes of the rows: an applied object takes the place of its row or comes at the
/// end, and an object that is not in the table cannot be deleted from it.
pub proof fn law_rows_after(t: Table, row: LiteView, cols: Seq<ColumnView>, key: u128)
    requires
        indexed(t),
    ensures
        table_applied(t, row, cols).rows == if t.index.contains_key(row_key(row)) {
            t.rows.update(t.index[row_key(row)] as int, row)
        } else {
            t.rows.push(row)
        },
        !t.index.contains_key(key) ==> table_deleted(t, key) == t,
{
}

/// A snapshot into a table that has rows keeps every row that it had, at its place.
pub proof fn law_snapshot_keeps_rows(t: Table, items: Seq<LiteView>, cols: Seq<ColumnView>)
    requires
        t.rows.len() > 0,
    ensures
        table_snapshot(t, items, cols).rows.len() >= t.rows.len(),
        forall|i: int|
            0 <= i < t.rows.len() ==> #[trigger] table_snapshot(t, items, cols).rows[i] == t.rows[i],
{
    lemma_merge_keeps(t, items, cols, items.len());
}

proof fn lemma_merge_keeps(t: Table, items: Seq<LiteView>, cols: Seq<ColumnView>, n: nat)
    ensures
        table_merge(t, items, cols, n).rows.len() >= t.rows.len(),
        forall|i: int|
            0 <= i < t.rows.len() ==> #[trigger] table_merge(t, items, cols, n).rows[i] == t.rows[i],
    decreases n,
{
    if n > 0 {
        lemma_merge_keeps(t, items, cols, (n - 1) as nat);
        let before = table_merge(t, items, cols, (n - 1) as nat);
        assert forall|i: int| 0 <= i < t.rows.len() implies #[trigger] table_merge(
            t,
            items,
            cols,
            n,
        ).rows[i] == t.rows[i] by {
            assert(before.rows[i] == t.rows[i]);
        }
    }
}

/// The places that the table shows ascend and lie in the table.
pub proof fn law_shown_places_ascend(r: ResultsState)
    requires
        r.rows@.len() <= usize::MAX,
    ensures
        forall|i: int| 0 <= i < shown_places(r).len() ==> (#[trigger] shown_places(r)[i]) < r.rows@.len(),
        forall|i: int, j: int|
            0 <= i < j < shown_places(r).len() ==> (#[trigger] shown_places(r)[i]) < (#[trigger] shown_places(
                r,
            )[j]),
{
    let t = table(r);
    if r.filter@.len() > 0 {
        lemma_filtered_ascend(t, lowercase(r.filter@), t.rows.len());
    }
}

proof fn lemma_filtered_ascend(t: Table, query: Seq<char>, n: nat)
    requires
        n <= t.rows.len() <= usize::MAX,
    ensures
        forall|i: int| 0 <= i < filtered(t, query, n).len() ==> (#[trigger] filtered(t, query, n)[i]) < n,
        forall|i: int, j: int|
            0 <= i < j < filtered(t, query, n).len() ==> (#[trigger] filtered(t, query, n)[i]) < (
            #[trigger] filtered(t, query, n)[j]),
    decreases n,
{
    if n > 0 {
        let rest = filtered(t, query, (n - 1) as nat);
        let all = filtered(t, query, n);
        lemma_filtered_ascend(t, query, (n - 1) as nat);
        assert forall|i: int| 0 <= i < all.len() implies (#[trigger] all[i]) < n by {
            if i < rest.len() {
                assert(all[i] == rest[i]);
            }
        }
        assert forall|i: int, j: int| 0 <= i < j < all.len() implies (#[trigger] all[i]) < (
        #[trigger] all[j]) by {
            assert(all[i] == rest[i]);
            if j < rest.len() {
                assert(all[j] == rest[j]);
            }
        }
    }
}

// ---------------------------------------------------------------------------
// What the table shows

/// A table whose column was chosen to sort by.
pub open spec fn sort_chosen(r: ResultsState, col: usize) -> ResultsState {
    ResultsState {
        sort_col: Some(col),
        sort_asc: if r.sort_col == Some(col) {
            !r.sort_asc
        } else {
            true
        },
        sort_dirty: true,
        ..r
    }
}

/// A column that is chosen sorts the table from its least to its greatest; chosen once more, the
/// other way round, and once more, as at first. The rows stay what they are.
pub proof fn law_sort_chosen(r: ResultsState, col: usize)
    requires
        r.sort_col != Some(col),
    ensures
        sort_chosen(r, col).sort_col == Some(col),
        sort_chosen(r, col).sort_asc,
        !sort_chosen(sort_chosen(r, col), col).sort_asc,
        sort_chosen(sort_chosen(sort_chosen(r, col), col), col).sort_asc,
        sort_chosen(r, col).sort_dirty,
        table(sort_chosen(r, col)) == table(r),
{
}

/// The arrow of a sorted column goes up where it ascends, and down where it descends; other
/// columns have none.
pub proof fn law_heading(label: Seq<char>, asc: bool)
    ensures
        heading(label, true, true) == label + seq![' ', '\u{2191}'],
        heading(label, true, false) == label + seq![' ', '\u{2193}'],
        heading(label, false, asc) == label,
{
    reveal_strlit(" \u{2191}");
    reveal_strlit(" \u{2193}");
    assert(" \u{2191}"@ =~= seq![' ', '\u{2191}']);
    assert(" \u{2193}"@ =~= seq![' ', '\u{2193}']);
}

/// Whether a row stands after another one, or beside it, in the order of a column.
spec fn not_before(b: LiteView, a: LiteView, kind: ColumnKind) -> bool {
    !lex_lt(sort_key(b, kind), sort_key(a, kind))
}

proof fn lemma_keys_in_order(keys: Seq<Seq<i64>>, order: Seq<usize>, i: int, j: int)
    requires
        is_stable_order(keys, order),
        0 <= i < j < order.len(),
    ensures
        !lex_lt(keys[order[j] as int], keys[order[i] as int]),
{
    let (a, b) = (order[i] as int, order[j] as int);
    assert(crate::order::before(keys, a, b));
    if lex_lt(keys[a], keys[b]) && lex_lt(keys[b], keys[a]) {
        crate::order::lemma_lex_transitive(keys[a], keys[b], keys[a]);
        crate::order::lemma_lex_irreflexive(keys[a]);
    }
}

proof fn lemma_keys_descending(keys: Seq<Seq<i64>>, order: Seq<usize>, i: int, j: int)
    requires
        is_stable_descending(keys, order),
        0 <= i < j < order.len(),
    ensures
        !lex_lt(keys[order[i] as int], keys[order[j] as int]),
{
    let (a, b) = (order[i] as int, order[j] as int);
    assert(crate::order::before_descending(keys, a, b));
    if lex_lt(keys[a], keys[b]) && lex_lt(keys[b], keys[a]) {
        crate::order::lemma_lex_transitive(keys[a], keys[b], keys[a]);
        crate::order::lemma_lex_irreflexive(keys[a]);
    }
}

proof fn lemma_sorted(rows: Seq<LiteView>, kind: ColumnKind, asc: bool, out: Seq<LiteView>, i: int, j: int)
    requires
        sorted_rows(rows, kind, asc, out),
        0 <= i < j < out.len(),
    ensures
        asc ==> not_before(out[j], out[i], kind),
        !asc ==> not_before(out[i], out[j], kind),
        out.len() == rows.len(),
        rows.contains(out[i]) && rows.contains(out[j]),
{
    let keys = sort_keys(rows, kind);
    if asc {
        let order = choose|order: Seq<usize>| #[trigger] is_stable_order(keys, order) && out == pick(rows, order);
        lemma_keys_in_order(keys, order, i, j);
        assert(out[i] == rows[order[i] as int] && out[j] == rows[order[j] as int]);
    } else if kind is Projected {
        let order = choose|order: Seq<usize>|
            #[trigger] is_stable_order(keys, order) && out == pick(rows, order).reverse();
        let n = order.len() as int;
        lemma_keys_in_order(keys, order, n - 1 - j, n - 1 - i);
        assert(out[i] == rows[order[n - 1 - i] as int] && out[j] == rows[order[n - 1 - j] as int]);
    } else {
        let order = choose|order: Seq<usize>| #[trigger] is_stable_descending(keys, order) && out == pick(rows, order);
        lemma_keys_descending(keys, order, i, j);
        assert(out[i] == rows[order[i] as int] && out[j] == rows[order[j] as int]);
    }
}

/// A sorted table has its rows in the order of the column: by name, by namespace, by time of
/// creation or by a field. Ascending, none comes before a lesser one; descending, none before a
/// greater one. Rows without the namespace or the field count as the least.
pub proof fn law_sorted_table(
    rows: Seq<LiteView>,
    kind: ColumnKind,
    asc: bool,
    out: Seq<LiteView>,
    i: int,
    j: int,
    id: u32,
)
    requires
        sorted_rows(rows, kind, asc, out),
        0 <= i < j < out.len(),
    ensures
        out.len() == rows.len(),
        rows.contains(out[i]),
        ({
            let (low, high) = if asc {
                (out[i], out[j])
            } else {
                (out[j], out[i])
            };
            &&& kind is Name ==> !text_lt(high.name, low.name)
            &&& kind is Age ==> low.creation_ts <= high.creation_ts
            &&& kind is Namespace ==> (high.namespace is None ==> low.namespace is None || low.namespace->0.len() == 0)
            &&& kind is Namespace ==> (low.namespace is Some && high.namespace is Some ==> !text_lt(
                high.namespace->0,
                low.namespace->0,
            ))
            &&& kind == ColumnKind::Projected(id) ==> (projected_text(low.projected, id) is Some && projected_text(
                high.projected,
                id,
            ) is Some ==> !text_lt(projected_text(high.projected, id)->0, projected_text(low.projected, id)->0))
        }),
{
    lemma_sorted(rows, kind, asc, out, i, j);
    let (low, high) = if asc {
        (out[i], out[j])
    } else {
        (out[j], out[i])
    };
    if kind is Namespace && high.namespace is None && low.namespace is Some {
        assert(codes(Seq::empty()).len() == 0);
        assert(codes(low.namespace->0).len() == low.namespace->0.len());
    }
}

/// A field of a row is the text that is kept under its number.
pub proof fn law_field_of_row(p: Seq<(u32, Seq<char>)>, id: u32, i: int)
    requires
        0 <= i < p.len(),
        p[i].0 == id,
        forall|k: int| 0 <= k < i ==> (#[trigger] p[k]).0 != id,
    ensures
        projected_text(p, id) == Some(p[i].1),
    decreases p.len(),
{
    if i > 0 {
        assert(p[0].0 != id);
        let rest = p.skip(1);
        assert forall|k: int| 0 <= k < i - 1 implies (#[trigger] rest[k]).0 != id by {
            assert(rest[k] == p[k + 1]);
        }
        law_field_of_row(rest, id, i - 1);
    }
}

/// A cell shows what its column is for: the namespace, the name, or a field of the row; a dash
/// where the row has none.
pub proof fn law_cells(row: LiteView, ns: Seq<char>, id: u32, t: Seq<char>)
    ensures
        cell(row, ColumnKind::Name) == row.name,
        row.namespace == Some(ns) ==> cell(row, ColumnKind::Namespace) == ns,
        row.namespace is None ==> cell(row, ColumnKind::Namespace) == "-"@,
        projected_text(row.projected, id) == Some(t) ==> cell(row, ColumnKind::Projected(id)) == t,
        projected_text(row.projected, id) is None ==> cell(row, ColumnKind::Projected(id)) == "-"@,
{
}

/// A row of cells has one cell for each column, in their order.
pub proof fn law_row_of_cells(row: LiteView, cols: Seq<ColumnView>, i: int)
    requires
        0 <= i < cols.len(),
    ensures
        display_row(row, cols).len() == cols.len(),
        cols[i].kind == ColumnKind::Name ==> display_row(row, cols)[i] == row.name,
        display_row(row, cols)[i] == cell(row, cols[i].kind),
{
}

proof fn lemma_filtered_keeps(t: Table, query: Seq<char>, n: nat, k: int)
    requires
        n <= t.rows.len() <= usize::MAX,
        0 <= k < n,
    ensures
        filtered(t, query, n).contains(k as usize) <==> filter_keeps(t, t.rows[k], query),
    decreases n,
{
    let rest = filtered(t, query, (n - 1) as nat);
    let all = filtered(t, query, n);
    lemma_filtered_ascend(t, query, (n - 1) as nat);
    if k < n - 1 {
        lemma_filtered_keeps(t, query, (n - 1) as nat, k);
        if rest.contains(k as usize) {
            let i = choose|i: int| 0 <= i < rest.len() && rest[i] == k as usize;
            assert(all[i] == k as usize);
        }
        if all.contains(k as usize) {
            let i = choose|i: int| 0 <= i < all.len() && all[i] == k as usize;
            assert(i < rest.len() ==> rest[i] == k as usize);
        }
    } else {
        if filter_keeps(t, t.rows[k], query) {
            assert(all[all.len() - 1] == k as usize);
        }
    }
}

/// A filter shows the rows whose text holds what was typed, in lower case, and no others; where
/// nothing was typed the first rows are shown, as many as the cap allows.
pub proof fn law_filter(r: ResultsState, k: int)
    requires
        r.rows@.len() <= usize::MAX,
        0 <= k < r.rows@.len(),
    ensures
        r.filter@.len() == 0 ==> (shown_places(r).contains(k as usize) <==> k < r.soft_cap),
        r.filter@.len() > 0 && table(r).filter.contains_key(row_key(r.rows@[k]@)) ==> (shown_places(r).contains(
            k as usize,
        ) <==> occurs(table(r).filter[row_key(r.rows@[k]@)], lowercase(r.filter@))),
        r.filter@.len() > 0 && !table(r).filter.contains_key(row_key(r.rows@[k]@)) ==> (shown_places(r).contains(
            k as usize,
        ) <==> occurs(plain_haystack(r.rows@[k]@), lowercase(r.filter@))),
{
    let t = table(r);
    assert(t.rows[k] == r.rows@[k]@);
    if r.filter@.len() == 0 {
        let s = shown_places(r);
        if k < r.soft_cap {
            assert(s[k] == k as usize);
        }
        if s.contains(k as usize) {
            let i = choose|i: int| 0 <= i < s.len() && s[i] == k as usize;
            assert(i == k);
        }
    } else {
        lemma_filtered_keeps(t, lowercase(r.filter@), t.rows.len(), k);
    }
}

/// The text that a row is looked for by is its name, its namespace and its fields, in lower
/// case.
pub proof fn law_row_text(row: LiteView, ns: Seq<char>, id: u32, t: Seq<char>)
    requires
        row.projected == seq![(id, t)],
    ensures
        row.namespace == Some(ns) ==> haystack(row) == lowercase(row.name + " "@ + (ns + " "@) + (t + " "@)),
        row.namespace is None ==> haystack(row) == lowercase(row.name + " "@ + Seq::empty() + (t + " "@)),
        row.namespace == Some(ns) ==> plain_haystack(row) == lowercase(row.name + " "@ + ns + " "@ + t),
{
    assert(row.projected.drop_last() =~= Seq::empty());
    assert(spaced(row.projected.drop_last()) =~= Seq::empty());
    assert(spaced(row.projected) =~= t + " "@);
    assert(projected_texts(row.projected) =~= seq![t]);
    assert(seq![t].drop_last() =~= Seq::empty());
    assert(join(seq![t], " "@) =~= t);
}

/// The first snapshot is the table; a later one adds the rows that are new, and leaves none of
/// its own out.
pub proof fn law_snapshot_brings_rows(t: Table, items: Seq<LiteView>, cols: Seq<ColumnView>, i: int)
    requires
        0 <= i < items.len(),
    ensures
        t.rows.len() == 0 ==> table_snapshot(t, items, cols).rows == items,
        t.rows.len() > 0 ==> table_snapshot(t, items, cols).index.contains_key(row_key(items[i])),
        t.rows.len() > 0 && !t.index.contains_key(row_key(items[i])) ==> table_snapshot(t, items, cols).filter.contains_key(
            row_key(items[i]),
        ),
{
    lemma_merge_brings(t, items, cols, items.len(), i);
}

proof fn lemma_merge_brings(t: Table, items: Seq<LiteView>, cols: Seq<ColumnView>, n: nat, i: int)
    requires
        0 <= i < n <= items.len(),
    ensures
        table_merge(t, items, cols, n).index.contains_key(row_key(items[i])),
        !t.index.contains_key(row_key(items[i])) ==> table_merge(t, items, cols, n).filter.contains_key(
            row_key(items[i]),
        ),
    decreases n,
{
    let before = table_merge(t, items, cols, (n - 1) as nat);
    if i < n - 1 {
        lemma_merge_brings(t, items, cols, (n - 1) as nat, i);
    } else {
        lemma_merge_known(t, items, cols, (n - 1) as nat, row_key(items[i]));
    }
}

proof fn lemma_merge_known(t: Table, items: Seq<LiteView>, cols: Seq<ColumnView>, n: nat, key: u128)
    requires
        n <= items.len(),
    ensures
        table_merge(t, items, cols, n).index.contains_key(key) && !t.index.contains_key(key) ==> table_merge(
            t,
            items,
            cols,
            n,
        ).filter.contains_key(key),
    decreases n,
{
    if n > 0 {
        lemma_merge_known(t, items, cols, (n - 1) as nat, key);
    }
}

/// Whether a table draws only the rows in view.
pub open spec fn in_view_only(r: ResultsState, shown: usize) -> bool {
    match r.virtual_mode {
        VirtualMode::On => true,
        VirtualMode::Off => false,
        VirtualMode::Auto => r.filter@.len() == 0 && shown > r.soft_cap,
    }
}

/// The warning above a table that shows only its first rows.
pub open spec fn warning_of(r: ResultsState) -> Option<Seq<char>> {
    if r.filter@.len() == 0 && r.rows@.len() > r.soft_cap {
        Some(
            "Large result set: showing the first "@ + crate::text::dec(r.soft_cap as nat) + " of "@ + crate::text::dec(
                r.rows@.len(),
            ) + ". Refine filters to narrow down."@,
        )
    } else {
        None
    }
}

/// A table draws what the mode says; on its own it draws only what is in view where it is large
/// and not filtered. It warns exactly where it leaves rows out.
pub proof fn law_large_table(r: ResultsState, shown: usize)
    requires
        r.rows@.len() <= usize::MAX,
    ensures
        r.virtual_mode is On ==> in_view_only(r, shown),
        r.virtual_mode is Off ==> !in_view_only(r, shown),
        r.virtual_mode is Auto ==> (in_view_only(r, shown) <==> r.filter@.len() == 0 && shown > r.soft_cap),
        r.filter@.len() == 0 ==> (warning_of(r) is Some <==> shown_places(r).len() < r.rows@.len()),
        r.filter@.len() > 0 ==> warning_of(r) is None,
{
    assert(table(r).rows.len() == r.rows@.len());
}

} // verus!
