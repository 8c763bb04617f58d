//! What the main window shows around its tables: labels, lists to choose from, the map of
//! namespaces, the top bar and the statistics.
use crate::api::Stats;
use crate::columns::ColumnKind;
use crate::gui::frame::{told, toast_is};
use crate::gui::graph::pair_views;
use crate::gui::model::{
    App, DetachedDetailsWindow, GraphState, LayoutState, SearchState, SelectionState, ToastKind, WindowId,
};
use crate::gui::nav::{core_selected, selected_kind};
use crate::gui::results::VirtualMode;
use crate::gui::watch::{namespace_list, namespaces_of, WatchCache};
use crate::gui::windows::{DockTab, TabPlace};
use crate::text::{
    cat2, cat3, cat4, contains_string, contains_text, copy_text, dec, lowercase, occurs, opt_text, same_text, string_or,
    text_or, texts, to_lowercase, trim, trimmed, u64_text, usize_text,
};
use crate::types::{lite_views, uid_is, LiteObj, Uid};
use vstd::prelude::*;
use vstd::string::*;

verus! {

broadcast use {vstd::std_specs::hash::group_hash_axioms};

// ---------------------------------------------------------------------------
// Around the table

/// How the table draws its rows, by name.
pub fn mode_label(m: VirtualMode) -> (r: &'static str)
    ensures
        r@ == (match m {
            VirtualMode::Auto => "Auto"@,
            VirtualMode::On => "Virtual"@,
            VirtualMode::Off => "Table"@,
        }),
{
    match m {
        VirtualMode::Auto => "Auto",
        VirtualMode::On => "Virtual",
        VirtualMode::Off => "Table",
    }
}

/// The namespaces that match a query, without regard to case; all of them where there is no
/// query.
pub open spec fn matching(list: Seq<Seq<char>>, query: Seq<char>) -> Seq<Seq<char>>
    decreases list.len(),
{
    if list.len() == 0 {
        Seq::empty()
    } else {
        let rest = matching(list.drop_last(), query);
        let low = lowercase(query);
        if low.len() == 0 || occurs(lowercase(list.last()), low) {
            rest.push(list.last())
        } else {
            rest
        }
    }
}

/// The namespaces that match a query.
pub fn matching_namespaces(list: &Vec<String>, query: &str) -> (r: Vec<String>)
    ensures
        texts(r@) == matching(texts(list@), query@),
{
    let ghost all = texts(list@);
    let low = to_lowercase(query);
    let mut out: Vec<String> = Vec::new();
    let mut i: usize = 0;
    assert(all.take(0) =~= Seq::empty());
    assert(texts(out@) =~= Seq::empty());
    while i < list.len()
        invariant
            i <= list.len(),
            all == texts(list@),
            low@ == lowercase(query@),
            texts(out@) == matching(all.take(i as int), query@),
        decreases list.len() - i,
    {
        assert(all.take(i + 1).drop_last() =~= all.take(i as int));
        assert(all.take(i + 1).last() == list@[i as int]@);
        let ghost before = texts(out@);
        let keep = if low.as_str().is_empty() {
            true
        } else {
            let l = to_lowercase(list[i].as_str());
            contains_text(l.as_str(), low.as_str())
        };
        if keep {
            out.push(list[i].clone());
            assert(texts(out@) =~= before.push(list@[i as int]@));
        }
        i += 1;
    }
    assert(all.take(all.len() as int) =~= all);
    out
}

/// What stands where no namespace can be chosen.
pub open spec fn no_namespace_text(all: nat, shown: nat) -> Option<Seq<char>> {
    if all == 0 {
        Some("Loading namespaces\u{2026}"@)
    } else if shown == 0 {
        Some("No matches"@)
    } else {
        None
    }
}

/// The list of namespaces to choose from.
pub struct NamespaceMenu {
    pub label: String,
    pub filtered: bool,
    pub searchable: bool,
    pub entries: Vec<String>,
    pub note: Option<&'static str>,
}

impl App {
    /// The list of namespaces to choose from, where the chosen kind has namespaces.
    pub fn namespace_menu(&self) -> (r: Option<NamespaceMenu>)
        ensures
            r is Some <==> (selected_kind(*self) matches Some(k) && k.namespaced),
            r matches Some(m) ==> {
                let shown = matching(texts(self.namespaces@), self.selection.namespace_filter_query@);
                &&& m.label@ == if self.selection.namespace@.len() > 0 {
                    self.selection.namespace@
                } else {
                    "All namespaces"@
                }
                &&& m.filtered == (self.selection.namespace@.len() > 0)
                &&& m.searchable == (self.namespaces@.len() > 0)
                &&& texts(m.entries@) == shown
                &&& crate::json::opt_str(m.note) == no_namespace_text(self.namespaces@.len(), shown.len())
            },
    {
        let namespaced = match self.current_selected_kind() {
            Some(k) => k.namespaced,
            None => false,
        };
        if !namespaced {
            return None;
        }
        let filtered = !self.selection.namespace.as_str().is_empty();
        let entries = matching_namespaces(&self.namespaces, self.selection.namespace_filter_query.as_str());
        assert(texts(entries@).len() == entries@.len());
        let note: Option<&'static str> = if self.namespaces.len() == 0 {
            Some("Loading namespaces\u{2026}")
        } else if entries.len() == 0 {
            Some("No matches")
        } else {
            None
        };
        Some(
            NamespaceMenu {
                label: if filtered {
                    self.selection.namespace.clone()
                } else {
                    copy_text("All namespaces")
                },
                filtered,
                searchable: self.namespaces.len() > 0,
                entries,
                note,
            },
        )
    }

    /// Choose a namespace, or all of them; the query for namespaces is then put away.
    pub fn choose_namespace(&mut self, namespace: Option<&str>)
        ensures
            namespace_chosen(*old(self), crate::json::opt_str(namespace), *final(self)),
    {
        let next = match namespace {
            Some(n) => n,
            None => "",
        };
        if !same_text(next, self.selection.namespace.as_str()) {
            self.selection.namespace_filter_query = copy_text("");
        }
        self.selection.namespace = copy_text(next);
    }
}

/// What stands in the place of an empty table: a sign that it is being read, or a hint.
#[derive(Clone, Copy, Debug, PartialEq, Eq, Structural)]
pub enum EmptyTable {
    NotEmpty,
    Reading,
    Hint,
    NoMatches,
}

impl App {
    /// What stands in the place of an empty table.
    pub fn empty_table(&self, shown: usize) -> (r: EmptyTable)
        ensures
            r == emptiness(*self, shown),
    {
        if self.results.rows.len() == 0 {
            if self.last_error.is_none() && self.watch.task.is_some() {
                EmptyTable::Reading
            } else {
                EmptyTable::Hint
            }
        } else if shown == 0 && !self.results.filter.as_str().is_empty() {
            EmptyTable::NoMatches
        } else {
            EmptyTable::NotEmpty
        }
    }

    /// The line above the table.
    pub fn showing_text(&self) -> (r: String)
        ensures
            r@ == "Showing "@ + dec(crate::gui::results::shown_places(self.results).len()) + " of "@ + dec(
                self.results.rows@.len(),
            ),
    {
        let a = usize_text(self.results.showing());
        let b = usize_text(self.results.rows.len());
        cat4("Showing ", a.as_str(), " of ", b.as_str())
    }

    /// How many hits a search has, where it has any.
    pub fn hits_text(&self) -> (r: Option<String>)
        ensures
            opt_text(r) == if self.search.hits@.len() > 0 {
                Some("Hits: "@ + dec(self.search.hits@.len()))
            } else {
                None
            },
    {
        if self.search.hits.len() > 0 {
            let n = usize_text(self.search.hits.len());
            Some(cat2("Hits: ", n.as_str()))
        } else {
            None
        }
    }
}

/// The text of a cell as it is drawn: a star before the name of a hit.
pub open spec fn drawn_cell(text: Seq<char>, hit: bool, kind: ColumnKind) -> Seq<char> {
    if hit && kind is Name {
        "\u{2605} "@ + text
    } else {
        text
    }
}

/// The text of a cell as it is drawn.
pub fn draw_cell(text: String, hit: bool, kind: &ColumnKind) -> (r: String)
    ensures
        r@ == drawn_cell(text@, hit, *kind),
{
    if hit {
        if let ColumnKind::Name = kind {
            return cat2("\u{2605} ", text.as_str());
        }
    }
    text
}

/// Whether a cell can be clicked: the name and the namespace.
pub fn is_clickable(kind: &ColumnKind) -> (r: bool)
    ensures
        r == (kind is Name || kind is Namespace),
{
    match kind {
        ColumnKind::Name => true,
        ColumnKind::Namespace => true,
        _ => false,
    }
}

/// What is behind a row: a mark where it is selected, else a stripe behind every other row.
#[derive(Clone, Copy, Debug, PartialEq, Eq, Structural)]
pub enum RowBack {
    Plain,
    Stripe,
    Selected,
}

/// What the menu of a row offers.
#[derive(Clone, Copy, Debug, PartialEq, Eq, Structural)]
pub struct RowMenu {
    pub logs: bool,
    pub scale: bool,
    pub delete: bool,
}

impl App {
    /// What is behind a row.
    pub fn row_back(&self, uid: &Uid, place: usize) -> (r: RowBack)
        ensures
            r == back_of(*self, uid@, place),
    {
        if uid_is(&self.details.selected, uid) {
            RowBack::Selected
        } else if place % 2 == 0 {
            RowBack::Stripe
        } else {
            RowBack::Plain
        }
    }

    /// What the menu of a row offers.
    pub fn row_menu(&self) -> (r: RowMenu)
        ensures
            r == (RowMenu {
                logs: crate::gui::actions::may_log(*self),
                scale: crate::gui::actions::may_scale(*self),
                delete: core_selected(*self, "Pod"@),
            }),
    {
        let pod = self.selected_is_pod();
        let (log, scale) = match &self.ops.caps {
            Some(c) => (c.pods_log_get, c.scale.is_some()),
            None => (false, false),
        };
        RowMenu { logs: pod && log, scale, delete: pod }
    }
}

// ---------------------------------------------------------------------------
// The map of namespaces

/// The column and the line of a namespace on the map: five stand side by side.
pub fn map_place(i: usize) -> (r: (usize, usize))
    ensures
        r.0 == i % 5,
        r.1 == i / 5,
{
    (i % 5, i / 5)
}

/// The kinds that are shown below a namespace: name, key and colour.
pub fn map_kinds() -> (r: Vec<(&'static str, &'static str, (u8, u8, u8))>)
    ensures
        r@.len() == 5,
        r@[0].0@ == "Pods"@ && r@[0].1@ == "v1/Pod"@ && r@[0].2 == (86u8, 204u8, 149u8),
        r@[1].0@ == "Deployments"@ && r@[1].1@ == "apps/v1/Deployment"@ && r@[1].2 == (86u8, 156u8, 214u8),
        r@[2].0@ == "Services"@ && r@[2].1@ == "v1/Service"@ && r@[2].2 == (255u8, 159u8, 64u8),
        r@[3].0@ == "ConfigMaps"@ && r@[3].1@ == "v1/ConfigMap"@ && r@[3].2 == (255u8, 206u8, 86u8),
        r@[4].0@ == "Secrets"@ && r@[4].1@ == "v1/Secret"@ && r@[4].2 == (209u8, 99u8, 196u8),
{
    vec![
        ("Pods", "v1/Pod", (86, 204, 149)),
        ("Deployments", "apps/v1/Deployment", (86, 156, 214)),
        ("Services", "v1/Service", (255, 159, 64)),
        ("ConfigMaps", "v1/ConfigMap", (255, 206, 86)),
        ("Secrets", "v1/Secret", (209, 99, 196)),
    ]
}

/// A list with a text taken out where it is in it, and put in where it is not.
pub open spec fn toggled(s: Seq<Seq<char>>, t: Seq<char>) -> Seq<Seq<char>> {
    if s.contains(t) {
        s.remove_value(t)
    } else {
        s.push(t)
    }
}

fn toggle_in(v: &mut Vec<String>, t: &str)
    ensures
        texts(final(v)@) == toggled(texts(old(v)@), t@),
{
    let ghost all = texts(v@);
    let mut i: usize = 0;
    while i < v.len()
        invariant
            i <= v.len(),
            all == texts(v@),
            all == texts(old(v)@),
            forall|k: int| 0 <= k < i ==> #[trigger] all[k] != t@,
        decreases v.len() - i,
    {
        assert(all[i as int] == v@[i as int]@);
        if same_text(v[i].as_str(), t) {
            proof {
                assert(all.contains(t@));
                let k = all.index_of_first(t@);
                all.index_of_first_ensures(t@);
                assert(k == Some(i as int));
            }
            v.remove(i);
            assert(texts(v@) =~= all.remove(i as int));
            return;
        }
        i += 1;
    }
    v.push(copy_text(t));
    assert(texts(v@) =~= all.push(t@));
}

/// A list with a pair taken out where it is in it, and put in where it is not.
pub open spec fn toggled_pair(
    s: Seq<(Seq<char>, Seq<char>)>,
    t: (Seq<char>, Seq<char>),
) -> Seq<(Seq<char>, Seq<char>)> {
    if s.contains(t) {
        s.remove_value(t)
    } else {
        s.push(t)
    }
}

fn toggle_pair_in(v: &mut Vec<(String, String)>, a: &str, b: &str)
    ensures
        pair_views(final(v)@) == toggled_pair(pair_views(old(v)@), (a@, b@)),
{
    let ghost all = pair_views(v@);
    let ghost t = (a@, b@);
    let mut i: usize = 0;
    while i < v.len()
        invariant
            i <= v.len(),
            t == (a@, b@),
            all == pair_views(v@),
            all == pair_views(old(v)@),
            forall|k: int| 0 <= k < i ==> #[trigger] all[k] != t,
        decreases v.len() - i,
    {
        assert(all[i as int] == (v@[i as int].0@, v@[i as int].1@));
        if same_text(v[i].0.as_str(), a) && same_text(v[i].1.as_str(), b) {
            proof {
                assert(all.contains(t));
                let k = all.index_of_first(t);
                all.index_of_first_ensures(t);
                assert(k == Some(i as int));
            }
            v.remove(i);
            assert(pair_views(v@) =~= all.remove(i as int));
            return;
        }
        i += 1;
    }
    v.push((copy_text(a), copy_text(b)));
    assert(pair_views(v@) =~= all.push(t));
}

/// A second click undoes the first.
pub proof fn law_toggled_twice(s: Seq<(Seq<char>, Seq<char>)>, t: (Seq<char>, Seq<char>))
    requires
        s.no_duplicates(),
    ensures
        toggled_pair(s, t).contains(t) == !s.contains(t),
        toggled_pair(toggled_pair(s, t), t).to_set() == s.to_set(),
        toggled_pair(s, t).no_duplicates(),
{
    let once = toggled_pair(s, t);
    let twice = toggled_pair(once, t);
    if s.contains(t) {
        s.index_of_first_ensures(t);
        let i = s.index_of_first(t)->0;
        assert(once == s.remove(i));
        assert forall|k: int| 0 <= k < once.len() implies #[trigger] once[k] == s[if k < i {
            k
        } else {
            k + 1
        }] by {}
        assert(!once.contains(t));
        assert(twice == once.push(t));
        assert forall|x: (Seq<char>, Seq<char>)| twice.contains(x) == s.contains(x) by {
            if s.contains(x) {
                let k = choose|k: int| 0 <= k < s.len() && s[k] == x;
                if k < i {
                    assert(twice[k] == x);
                } else if k > i {
                    assert(twice[k - 1] == x);
                } else {
                    assert(twice[twice.len() - 1] == x);
                }
            }
            if twice.contains(x) {
                let k = choose|k: int| 0 <= k < twice.len() && twice[k] == x;
                if k < once.len() {
                    assert(once[k] == x);
                }
            }
        }
        assert(twice.to_set() =~= s.to_set());
    } else {
        assert(once[once.len() - 1] == t);
        once.index_of_first_ensures(t);
        let i = once.index_of_first(t)->0;
        assert(i == s.len()) by {
            if i < s.len() {
                assert(s[i] == t);
            }
        }
        assert(twice =~= s);
    }
}

/// How many objects of a kind a namespace has, where they were counted.
pub open spec fn counted(v: Seq<(String, String, usize)>, ns: Seq<char>, kind: Seq<char>) -> Option<usize>
    decreases v.len(),
{
    if v.len() == 0 {
        None
    } else if v[0].0@ == ns && v[0].1@ == kind {
        Some(v[0].2)
    } else {
        counted(v.skip(1), ns, kind)
    }
}

impl GraphState {
    /// Whether a namespace is open on the map.
    pub fn is_open(&self, ns: &str) -> (r: bool)
        ensures
            r == texts(self.atlas_expanded_ns@).contains(ns@),
    {
        contains_string(&self.atlas_expanded_ns, ns)
    }

    /// How many objects of a kind a namespace has. They are counted once.
    pub fn count(&mut self, ns: &str, kind: &str, key: &str, cache: &WatchCache) -> (r: usize)
        ensures
            match counted(old(self).atlas_counts@, ns@, kind@) {
                Some(n) => r == n && *final(self) == *old(self),
                None => {
                    &&& r == crate::gui::watch::rows_for(cache@, key@ + "|"@ + ns@).len()
                    &&& *final(self) == (GraphState { atlas_counts: final(self).atlas_counts, ..*old(self) })
                    &&& final(self).atlas_counts@.len() == old(self).atlas_counts@.len() + 1
                    &&& final(self).atlas_counts@.drop_last() =~= old(self).atlas_counts@
                    &&& final(self).atlas_counts@.last().0@ == ns@
                    &&& final(self).atlas_counts@.last().1@ == kind@
                    &&& final(self).atlas_counts@.last().2 == r
                },
            },
    {
        let ghost all = self.atlas_counts@;
        let mut i: usize = 0;
        assert(all.skip(0) =~= all);
        while i < self.atlas_counts.len()
            invariant
                i <= self.atlas_counts.len(),
                *self == *old(self),
                all == self.atlas_counts@,
                counted(all, ns@, kind@) == counted(all.skip(i as int), ns@, kind@),
            decreases self.atlas_counts.len() - i,
        {
            assert(all.skip(i as int)[0] == all[i as int]);
            assert(all.skip(i as int).skip(1) =~= all.skip(i + 1));
            if same_text(self.atlas_counts[i].0.as_str(), ns) && same_text(self.atlas_counts[i].1.as_str(), kind) {
                return self.atlas_counts[i].2;
            }
            i += 1;
        }
        let place = cat3(key, "|", ns);
        let rows = cache.snapshot(place.as_str());
        assert(lite_views(rows@).len() == rows@.len());
        let n: usize = rows.len();
        self.atlas_counts.push((copy_text(ns), copy_text(kind), n));
        n
    }
}

/// A kind below a namespace, as it is shown.
pub fn count_label(kind: &str, count: usize) -> (r: String)
    ensures
        r@ == kind@ + " ("@ + dec(count as nat) + ")"@,
{
    let n = usize_text(count);
    cat4(kind, " (", n.as_str(), ")")
}

impl App {
    /// Click a namespace on the map: it is chosen, or no longer where it was, and it opens
    /// or closes.
    pub fn click_namespace(&mut self, ns: &str)
        ensures
            *final(self) == (App {
                selection: SelectionState { namespace: final(self).selection.namespace, ..old(self).selection },
                graph: GraphState { atlas_expanded_ns: final(self).graph.atlas_expanded_ns, ..old(self).graph },
                ..*old(self)
            }),
            final(self).selection.namespace@ == if old(self).selection.namespace@ == ns@ {
                ""@
            } else {
                ns@
            },
            texts(final(self).graph.atlas_expanded_ns@) == toggled(
                texts(old(self).graph.atlas_expanded_ns@),
                ns@,
            ),
    {
        self.selection.namespace = if same_text(self.selection.namespace.as_str(), ns) {
            copy_text("")
        } else {
            copy_text(ns)
        };
        toggle_in(&mut self.graph.atlas_expanded_ns, ns);
    }

    /// Click a kind below a namespace on the map: it opens or closes.
    pub fn click_kind(&mut self, ns: &str, kind: &str)
        ensures
            *final(self) == (App {
                graph: GraphState { atlas_expanded_kinds: final(self).graph.atlas_expanded_kinds, ..old(self).graph },
                ..*old(self)
            }),
            pair_views(final(self).graph.atlas_expanded_kinds@) == toggled_pair(
                pair_views(old(self).graph.atlas_expanded_kinds@),
                (ns@, kind@),
            ),
    {
        toggle_pair_in(&mut self.graph.atlas_expanded_kinds, ns, kind);
    }

    /// Click a group of related objects: they are listed, or no longer.
    pub fn click_group(&mut self, kind: &str)
        ensures
            *final(self) == (App {
                graph: GraphState {
                    details_expanded_kinds: final(self).graph.details_expanded_kinds,
                    ..old(self).graph
                },
                ..*old(self)
            }),
            texts(final(self).graph.details_expanded_kinds@) == toggled(
                texts(old(self).graph.details_expanded_kinds@),
                kind@,
            ),
    {
        toggle_in(&mut self.graph.details_expanded_kinds, kind);
    }

    /// Whether the map may be opened; where it may not, the user is told.
    pub fn may_open_atlas(&mut self, now: u64) -> (r: bool)
        ensures
            r == old(self).atlas_enabled,
            r ==> *final(self) == *old(self),
            !r ==> told(*old(self), "atlas disabled (ORKA_ATLAS=0)"@, ToastKind::Warn, now, *final(self)),
    {
        if self.atlas_enabled {
            return true;
        }
        self.toast(copy_text("atlas disabled (ORKA_ATLAS=0)"), ToastKind::Warn, now);
        false
    }
}

/// The place of the first tab of the map.
pub open spec fn atlas_tab(tabs: Seq<DockTab>) -> Option<int>
    decreases tabs.len(),
{
    if tabs.len() == 0 {
        None
    } else if tabs[0] is Atlas {
        Some(0)
    } else {
        match atlas_tab(tabs.skip(1)) {
            Some(i) => Some(i + 1),
            None => None,
        }
    }
}

/// Where the tab of the map goes: it is shown already, or it goes beside the first tab, or
/// the window is split.
pub fn place_atlas(tabs: &Vec<DockTab>) -> (r: TabPlace)
    ensures
        match atlas_tab(tabs@) {
            Some(i) => r == TabPlace::Shown(i as usize),
            None => r == if tabs@.len() > 0 {
                TabPlace::Beside(0)
            } else {
                TabPlace::Split
            },
        },
{
    let mut i: usize = 0;
    assert(tabs@.skip(0) =~= tabs@);
    while i < tabs.len()
        invariant
            i <= tabs.len(),
            atlas_tab(tabs@) == (match atlas_tab(tabs@.skip(i as int)) {
                Some(j) => Some(i + j),
                None => None,
            }),
        decreases tabs.len() - i,
    {
        assert(tabs@.skip(i as int)[0] == tabs@[i as int]);
        assert(tabs@.skip(i as int).skip(1) =~= tabs@.skip(i + 1));
        if let DockTab::Atlas = &tabs[i] {
            return TabPlace::Shown(i);
        }
        i += 1;
    }
    if tabs.len() > 0 {
        TabPlace::Beside(0)
    } else {
        TabPlace::Split
    }
}

/// The namespaces of a cluster as they are passed on: where there are more or fewer than
/// before.
pub fn namespaces_to_send(rows: &Vec<LiteObj>, last: usize) -> (r: (Option<Vec<String>>, usize))
    ensures
        ({
            let list = namespace_list(lite_views(rows@));
            &&& match r.0 {
                Some(v) => texts(v@) == list && list.len() != last,
                None => list.len() == last,
            }
            &&& r.1 == list.len()
        }),
{
    let list = namespaces_of(rows);
    assert(texts(list@).len() == list@.len());
    let n: usize = list.len();
    if n != last {
        (Some(list), n)
    } else {
        (None, last)
    }
}

// ---------------------------------------------------------------------------
// The top bar

impl LayoutState {
    /// The label of the switch for the panel of kinds.
    pub fn nav_label(&self) -> (r: &'static str)
        ensures
            r@ == nav_offer(*self),
    {
        if self.show_nav {
            "Hide Nav"
        } else {
            "Show Nav"
        }
    }

    /// The label of the switch for the status bar.
    pub fn log_label(&self) -> (r: &'static str)
        ensures
            r@ == log_offer(*self),
    {
        if self.show_log {
            "Hide Log"
        } else {
            "Show Log"
        }
    }

    /// Show or hide the panel of kinds.
    pub fn toggle_nav(&mut self)
        ensures
            *final(self) == nav_toggled(*old(self)),
    {
        self.show_nav = !self.show_nav;
    }

    /// Show or hide the status bar.
    pub fn toggle_log(&mut self)
        ensures
            *final(self) == log_toggled(*old(self)),
    {
        self.show_log = !self.show_log;
    }
}

/// The identities of windows, and of the objects that they show.
pub open spec fn window_ids(ws: Seq<DetachedDetailsWindow>) -> Seq<(WindowId, Seq<u8>)> {
    ws.map_values(|w: DetachedDetailsWindow| (w.meta.id, w.meta.uid@))
}

/// The identities of windows, and of the objects that they show.
pub open spec fn id_views(v: Seq<(WindowId, Uid)>) -> Seq<(WindowId, Seq<u8>)> {
    v.map_values(|p: (WindowId, Uid)| (p.0, p.1@))
}

impl App {
    /// The context that is shown.
    pub fn context_label(&self) -> (r: String)
        ensures
            r@ == text_or(self.current_context, "(default)"@),
    {
        string_or(&self.current_context, "(default)")
    }

    /// Attach all windows again: their tabs are opened, the windows are to be closed, and
    /// the user is told how many there were.
    pub fn reattach_all(&mut self, now: u64) -> (r: Vec<(WindowId, Uid)>)
        ensures
            id_views(r@) == window_ids(old(self).detached@),
            *final(self) == (App {
                detached: final(self).detached,
                dock_pending: final(self).dock_pending,
                toasts: final(self).toasts,
                ..*old(self)
            }),
            final(self).detached@.len() == 0,
            final(self).dock_pending@.len() == old(self).dock_pending@.len() + old(self).detached@.len(),
            final(self).dock_pending@.take(old(self).dock_pending@.len() as int) =~= old(self).dock_pending@,
            forall|i: int|
                0 <= i < old(self).detached@.len() ==> #[trigger] final(self).dock_pending@[old(
                    self
                ).dock_pending@.len() + i] == old(self).detached@[i].meta.uid,
            final(self).toasts@.len() == old(self).toasts@.len() + 1,
            final(self).toasts@.drop_last() =~= old(self).toasts@,
            toast_is(
                final(self).toasts@.last(),
                "reattached "@ + dec(old(self).detached@.len()),
                ToastKind::Info,
                now,
            ),
    {
        let ghost pre = *self;
        let n: usize = self.detached.len();
        let mut out: Vec<(WindowId, Uid)> = Vec::new();
        let mut i: usize = 0;
        assert(id_views(out@) =~= window_ids(pre.detached@).take(0));
        while i < n
            invariant
                i <= n,
                n == pre.detached@.len(),
                *self == (App { dock_pending: self.dock_pending, ..pre }),
                self.dock_pending@.len() == pre.dock_pending@.len() + i,
                self.dock_pending@.take(pre.dock_pending@.len() as int) =~= pre.dock_pending@,
                forall|k: int|
                    0 <= k < i ==> #[trigger] self.dock_pending@[pre.dock_pending@.len() + k]
                        == pre.detached@[k].meta.uid,
                id_views(out@) == window_ids(pre.detached@).take(i as int),
            decreases n - i,
        {
            let ghost before = id_views(out@);
            let id = self.detached[i].meta.id;
            let uid = self.detached[i].meta.uid;
            self.dock_pending.push(uid);
            out.push((id, uid));
            assert(id_views(out@) =~= before.push((id, uid@)));
            assert(id_views(out@) =~= window_ids(pre.detached@).take(i + 1));
            i += 1;
        }
        assert(window_ids(pre.detached@).take(n as int) =~= window_ids(pre.detached@));
        self.detached = Vec::new();
        let count = usize_text(n);
        self.toast(cat2("reattached ", count.as_str()), ToastKind::Info, now);
        out
    }

    /// The label of the button that attaches all windows again, where there are any.
    pub fn reattach_label(&self) -> (r: Option<String>)
        ensures
            opt_text(r) == if self.detached@.len() > 0 {
                Some("Reattach All ("@ + dec(self.detached@.len()) + ")"@)
            } else {
                None
            },
    {
        if self.detached.len() > 0 {
            let n = usize_text(self.detached.len());
            Some(cat3("Reattach All (", n.as_str(), ")"))
        } else {
            None
        }
    }
}

// ---------------------------------------------------------------------------
// The statistics

/// A line of the statistics for a limit, where there is one.
pub open spec fn limit_line(name: Seq<char>, v: Option<usize>) -> Seq<(Seq<char>, Seq<char>)> {
    match v {
        Some(n) => seq![(name, dec(n as nat))],
        None => Seq::empty(),
    }
}

/// The lines of the statistics that are plain numbers.
pub open spec fn stats_lines(s: Stats) -> Seq<(Seq<char>, Seq<char>)> {
    seq![
        ("Pipelines"@, dec(s.shards as nat)),
        ("Relist (secs)"@, dec(s.relist_secs as nat)),
        ("Watch backoff max (secs)"@, dec(s.watch_backoff_max_secs as nat)),
    ] + limit_line("Max labels per object"@, s.max_labels_per_obj) + limit_line(
        "Max annotations per object"@,
        s.max_annos_per_obj,
    ) + limit_line("Max postings per key"@, s.max_postings_per_key)
}

fn push_limit(out: &mut Vec<(String, String)>, name: &str, v: Option<usize>)
    ensures
        pair_views(final(out)@) == pair_views(old(out)@) + limit_line(name@, v),
{
    let ghost before = pair_views(out@);
    match v {
        Some(n) => {
            let t = usize_text(n);
            let ghost x = (name@, t@);
            out.push((copy_text(name), t));
            assert(pair_views(out@) =~= before + seq![x]);
        },
        None => {
            assert(before + Seq::<(Seq<char>, Seq<char>)>::empty() =~= before);
        },
    }
}

/// The lines of the statistics that are plain numbers.
pub fn stats_rows(s: &Stats) -> (r: Vec<(String, String)>)
    ensures
        pair_views(r@) == stats_lines(*s),
{
    let mut out = vec![
        (copy_text("Pipelines"), usize_text(s.shards)),
        (copy_text("Relist (secs)"), u64_text(s.relist_secs)),
        (copy_text("Watch backoff max (secs)"), u64_text(s.watch_backoff_max_secs)),
    ];
    assert(pair_views(out@) =~= seq![
        ("Pipelines"@, dec(s.shards as nat)),
        ("Relist (secs)"@, dec(s.relist_secs as nat)),
        ("Watch backoff max (secs)"@, dec(s.watch_backoff_max_secs as nat)),
    ]);
    push_limit(&mut out, "Max labels per object", s.max_labels_per_obj);
    push_limit(&mut out, "Max annotations per object", s.max_annos_per_obj);
    push_limit(&mut out, "Max postings per key", s.max_postings_per_key);
    out
}

/// Where the metrics can be read.
pub fn metrics_url(s: &Stats) -> (r: Option<String>)
    ensures
        opt_text(r) == (match s.metrics_addr {
            Some(a) => Some("http://"@ + a@ + "/metrics"@),
            None => None,
        }),
{
    match &s.metrics_addr {
        Some(a) => Some(cat3("http://", a.as_str(), "/metrics")),
        None => None,
    }
}

/// The bytes that were read, where all of them are known.
pub fn traffic(s: &Stats) -> (r: Option<(u64, u64, u64)>)
    ensures
        match (s.traffic_snapshot_bytes, s.traffic_watch_bytes, s.traffic_details_bytes) {
            (Some(a), Some(b), Some(c)) => r == Some((a, b, c)),
            _ => r is None,
        },
{
    match (s.traffic_snapshot_bytes, s.traffic_watch_bytes, s.traffic_details_bytes) {
        (Some(a), Some(b), Some(c)) => Some((a, b, c)),
        _ => None,
    }
}

// ---------------------------------------------------------------------------
// Messages and overlays

/// The colours of a message, behind its text and of its text; those of the theme where
/// there are none.
pub fn toast_colors(kind: ToastKind) -> (r: Option<((u8, u8, u8), (u8, u8, u8))>)
    ensures
        r == toast_paint(kind),
{
    match kind {
        ToastKind::Info => None,
        ToastKind::Success => Some(((34, 139, 34), (255, 255, 255))),
        ToastKind::Warn => Some(((202, 138, 4), (0, 0, 0))),
        ToastKind::Error => Some(((185, 28, 28), (255, 255, 255))),
    }
}

impl SearchState {
    /// Whether there is something that the button beside the search clears.
    pub fn can_clear(&self) -> (r: bool)
        ensures
            r == (self.query@.len() > 0 || self.hits@.len() > 0),
    {
        !self.query.as_str().is_empty() || self.hits.len() > 0
    }

    /// Whether the preview is shown below the search.
    pub fn shows_preview(&self) -> (r: bool)
        ensures
            r == (trimmed(self.query@).len() > 0 && self.preview@.len() > 0),
    {
        let t = trim(self.query.as_str());
        !t.as_str().is_empty() && self.preview.len() > 0
    }
}

/// The namespaces that are offered are those whose name holds what was typed, in whatever case;
/// all of them where nothing was typed.
pub proof fn law_matching(list: Seq<Seq<char>>, query: Seq<char>, name: Seq<char>)
    ensures
        lowercase(query).len() == 0 ==> matching(list, query) == list,
        lowercase(query).len() > 0 ==> (matching(list, query).contains(name) <==> list.contains(name) && occurs(
            lowercase(name),
            lowercase(query),
        )),
    decreases list.len(),
{
    if list.len() > 0 {
        let d = list.drop_last();
        law_matching(d, query, name);
        assert(list =~= d.push(list.last()));
        let rest = matching(d, query);
        let all = matching(list, query);
        if d.contains(name) {
            let k = choose|k: int| 0 <= k < d.len() && d[k] == name;
            assert(list[k] == name);
        }
        if list.contains(name) {
            let k = choose|k: int| 0 <= k < list.len() && list[k] == name;
            if k < d.len() {
                assert(d[k] == name);
            }
        }
        if rest.contains(name) {
            let k = choose|k: int| 0 <= k < rest.len() && rest[k] == name;
            assert(all[k] == name);
        }
        if all.contains(name) {
            let k = choose|k: int| 0 <= k < all.len() && all[k] == name;
            if k < rest.len() {
                assert(rest[k] == name);
            } else {
                assert(list[list.len() - 1] == name);
            }
        }
        if list.last() == name && occurs(lowercase(name), lowercase(query)) {
            assert(all[all.len() - 1] == name);
        }
    } else {
        assert(matching(list, query) =~= list);
    }
}

/// What was opened is closed by a second click, and the other way round; nothing else changes.
pub proof fn law_toggled(s: Seq<Seq<char>>, t: Seq<char>, x: Seq<char>)
    requires
        s.no_duplicates(),
    ensures
        toggled(s, t).contains(t) <==> !s.contains(t),
        x != t ==> (toggled(s, t).contains(x) <==> s.contains(x)),
{
    if s.contains(t) {
        let i = s.index_of_first(t)->0;
        s.index_of_first_ensures(t);
        let r = s.remove(i);
        assert(toggled(s, t) == r);
        if r.contains(t) {
            let k = choose|k: int| 0 <= k < r.len() && r[k] == t;
            assert(s[if k < i {
                k
            } else {
                k + 1
            }] == t);
        }
        if r.contains(x) {
            let k = choose|k: int| 0 <= k < r.len() && r[k] == x;
            assert(s[if k < i {
                k
            } else {
                k + 1
            }] == x);
        }
        if x != t && s.contains(x) {
            let k = choose|k: int| 0 <= k < s.len() && s[k] == x;
            assert(r[if k < i {
                k
            } else {
                k - 1
            }] == x);
        }
    } else {
        let r = s.push(t);
        assert(r[s.len() as int] == t);
        if s.contains(x) {
            let k = choose|k: int| 0 <= k < s.len() && s[k] == x;
            assert(r[k] == x);
        }
        if r.contains(x) {
            let k = choose|k: int| 0 <= k < r.len() && r[k] == x;
            assert(k < s.len() ==> s[k] == x);
        }
    }
}

/// A number that was counted is the one of the namespace and the kind, and not of another.
pub proof fn law_counted(v: Seq<(String, String, usize)>, ns: Seq<char>, kind: Seq<char>, i: int)
    requires
        0 <= i < v.len(),
        v[i].0@ == ns,
        v[i].1@ == kind,
        forall|k: int| 0 <= k < i ==> (#[trigger] v[k]).0@ != ns || v[k].1@ != kind,
    ensures
        counted(v, ns, kind) == Some(v[i].2),
    decreases v.len(),
{
    if i > 0 {
        assert(v[0].0@ != ns || v[0].1@ != kind);
        let rest = v.skip(1);
        assert forall|k: int| 0 <= k < i - 1 implies (#[trigger] rest[k]).0@ != ns || rest[k].1@ != kind by {
            assert(rest[k] == v[k + 1]);
        }
        law_counted(rest, ns, kind, i - 1);
    }
}

/// A star marks the names of the rows that a search found, and nothing else.
pub proof fn law_drawn_cell(text: Seq<char>, kind: ColumnKind)
    ensures
        drawn_cell(text, false, kind) == text,
        drawn_cell(text, true, ColumnKind::Name) == seq!['\u{2605}', ' '] + text,
        !(kind is Name) ==> drawn_cell(text, true, kind) == text,
{
    reveal_strlit("\u{2605} ");
    assert("\u{2605} "@ =~= seq!['\u{2605}', ' ']);
}

/// A list of namespaces that is empty is told as being read, and one that nothing matches as
/// having no match.
pub proof fn law_no_namespace(all: nat, shown: nat)
    ensures
        no_namespace_text(all, shown) is None <==> all > 0 && shown > 0,
        no_namespace_text(0, shown) == Some("Loading namespaces\u{2026}"@),
        all > 0 ==> no_namespace_text(all, 0) == Some("No matches"@),
{
}

/// The atlas is shown where it is already open.
pub proof fn law_atlas_tab(tabs: Seq<DockTab>)
    ensures
        match atlas_tab(tabs) {
            Some(i) => 0 <= i < tabs.len() && tabs[i] is Atlas,
            None => forall|i: int| 0 <= i < tabs.len() ==> !((#[trigger] tabs[i]) is Atlas),
        },
    decreases tabs.len(),
{
    if tabs.len() > 0 {
        let rest = tabs.skip(1);
        law_atlas_tab(rest);
        match atlas_tab(rest) {
            Some(i) => {
                assert(tabs[i + 1] == rest[i]);
            },
            None => {
                assert forall|i: int| 1 <= i < tabs.len() implies #[trigger] tabs[i] == rest[i - 1] by {}
            },
        }
    }
}

/// The statistics are told under their names.
pub proof fn law_stats_lines(s: Stats, n: usize)
    ensures
        stats_lines(s).contains(("Pipelines"@, dec(s.shards as nat))),
        stats_lines(s).contains(("Relist (secs)"@, dec(s.relist_secs as nat))),
        stats_lines(s).contains(("Watch backoff max (secs)"@, dec(s.watch_backoff_max_secs as nat))),
        s.max_labels_per_obj == Some(n) ==> stats_lines(s).contains(("Max labels per object"@, dec(n as nat))),
        s.max_annos_per_obj == Some(n) ==> stats_lines(s).contains(("Max annotations per object"@, dec(n as nat))),
        s.max_postings_per_key == Some(n) ==> stats_lines(s).contains(("Max postings per key"@, dec(n as nat))),
{
    let a = stats_lines(s);
    assert(a[0] == ("Pipelines"@, dec(s.shards as nat)));
    assert(a[1] == ("Relist (secs)"@, dec(s.relist_secs as nat)));
    assert(a[2] == ("Watch backoff max (secs)"@, dec(s.watch_backoff_max_secs as nat)));
    let x: int = if s.max_labels_per_obj is Some {
        1
    } else {
        0
    };
    let y: int = if s.max_annos_per_obj is Some {
        1
    } else {
        0
    };
    assert(s.max_labels_per_obj == Some(n) ==> a[3] == ("Max labels per object"@, dec(n as nat)));
    assert(s.max_annos_per_obj == Some(n) ==> a[3 + x] == ("Max annotations per object"@, dec(n as nat)));
    assert(s.max_postings_per_key == Some(n) ==> a[3 + x + y] == ("Max postings per key"@, dec(n as nat)));
}

/// Whether a namespace was chosen, or all of them.
pub open spec fn namespace_chosen(pre: App, namespace: Option<Seq<char>>, post: App) -> bool {
    &&& post == (App {
        selection: SelectionState {
            namespace: post.selection.namespace,
            namespace_filter_query: post.selection.namespace_filter_query,
            ..pre.selection
        },
        ..pre
    })
    &&& post.selection.namespace@ == (match namespace {
        Some(n) => n,
        None => ""@,
    })
    &&& post.selection.namespace_filter_query@ == if post.selection.namespace@ == pre.selection.namespace@ {
        pre.selection.namespace_filter_query@
    } else {
        ""@
    }
}

/// A namespace that is chosen is the one that is looked in; none is all of them. What was typed
/// to find it is gone.
pub proof fn law_namespace_chosen(pre: App, namespace: Option<Seq<char>>, post: App)
    requires
        namespace_chosen(pre, namespace, post),
    ensures
        namespace is Some ==> post.selection.namespace@ == namespace->0,
        namespace is None ==> post.selection.namespace@.len() == 0,
        post.selection.namespace@ != pre.selection.namespace@ ==> post.selection.namespace_filter_query@.len() == 0,
        post.selection.selected_kind == pre.selection.selected_kind,
        post.results == pre.results,
{
    reveal_strlit("");
}

/// A layout with its navigation shown or hidden.
pub open spec fn nav_toggled(l: LayoutState) -> LayoutState {
    LayoutState { show_nav: !l.show_nav, ..l }
}

/// A layout with its log shown or hidden.
pub open spec fn log_toggled(l: LayoutState) -> LayoutState {
    LayoutState { show_log: !l.show_log, ..l }
}

/// What is shown is hidden, and what is hidden is shown; twice is as before, and neither touches
/// the other.
pub proof fn law_layout_toggled(l: LayoutState)
    ensures
        nav_toggled(l).show_nav != l.show_nav && nav_toggled(l).show_log == l.show_log,
        log_toggled(l).show_log != l.show_log && log_toggled(l).show_nav == l.show_nav,
        nav_toggled(nav_toggled(l)) == l,
        log_toggled(log_toggled(l)) == l,
{
}

/// What the button for the navigation offers.
pub open spec fn nav_offer(l: LayoutState) -> Seq<char> {
    if l.show_nav {
        "Hide Nav"@
    } else {
        "Show Nav"@
    }
}

/// What the button for the log offers.
pub open spec fn log_offer(l: LayoutState) -> Seq<char> {
    if l.show_log {
        "Hide Log"@
    } else {
        "Show Log"@
    }
}

/// What is shown is offered to be hidden, and what is hidden to be shown.
pub proof fn law_offers(l: LayoutState)
    ensures
        l.show_nav ==> nav_offer(l) == "Hide Nav"@ && nav_offer(nav_toggled(l)) == "Show Nav"@,
        l.show_log ==> log_offer(l) == "Hide Log"@ && log_offer(log_toggled(l)) == "Show Log"@,
{
}

/// What stands in the place of a table without rows.
pub open spec fn emptiness(a: App, shown: usize) -> EmptyTable {
    if a.results.rows@.len() == 0 {
        if a.last_error is None && a.watch.task is Some {
            EmptyTable::Reading
        } else {
            EmptyTable::Hint
        }
    } else if shown == 0 && a.results.filter@.len() > 0 {
        EmptyTable::NoMatches
    } else {
        EmptyTable::NotEmpty
    }
}

/// A table without rows is being read while something reads it and nothing failed; a table whose
/// rows a filter leaves all out has no match.
pub proof fn law_emptiness(a: App, shown: usize)
    ensures
        emptiness(a, shown) is Reading <==> a.results.rows@.len() == 0 && a.watch.task is Some && a.last_error is None,
        emptiness(a, shown) is NoMatches <==> a.results.rows@.len() > 0 && shown == 0 && a.results.filter@.len() > 0,
        a.results.rows@.len() > 0 && shown > 0 ==> emptiness(a, shown) is NotEmpty,
        a.results.rows@.len() == 0 && a.last_error is Some ==> emptiness(a, shown) is Hint,
{
}

/// What a row is drawn on.
pub open spec fn back_of(a: App, uid: Seq<u8>, place: usize) -> RowBack {
    if a.details.selected matches Some(u) && u@ == uid {
        RowBack::Selected
    } else if place % 2 == 0 {
        RowBack::Stripe
    } else {
        RowBack::Plain
    }
}

/// The selected row stands out, and no other one does; the others are striped in turn.
pub proof fn law_row_back(a: App, uid: Seq<u8>, place: usize)
    requires
        place < usize::MAX,
    ensures
        back_of(a, uid, place) is Selected <==> a.details.selected is Some && a.details.selected->0@ == uid,
        !(back_of(a, uid, place) is Selected) ==> back_of(a, uid, place) != back_of(a, uid, (place + 1) as usize),
        !(back_of(a, uid, 0) is Plain),
{
}

/// The colours of a message: behind it, and of its text.
pub open spec fn toast_paint(kind: ToastKind) -> Option<((u8, u8, u8), (u8, u8, u8))> {
    match kind {
        ToastKind::Info => None,
        ToastKind::Success => Some(((34u8, 139u8, 34u8), (255u8, 255u8, 255u8))),
        ToastKind::Warn => Some(((202u8, 138u8, 4u8), (0u8, 0u8, 0u8))),
        ToastKind::Error => Some(((185u8, 28u8, 28u8), (255u8, 255u8, 255u8))),
    }
}

/// Errors stand on red, successes on green and warnings on yellow; what is for information keeps
/// the usual colours.
pub proof fn law_toast_paint()
    ensures
        toast_paint(ToastKind::Info) is None,
        toast_paint(ToastKind::Error) matches Some(p) && p.0.0 > p.0.1 && p.0.0 > p.0.2 && p.0.1 < 64,
        toast_paint(ToastKind::Success) matches Some(p) && p.0.1 > p.0.0 && p.0.1 > p.0.2,
        toast_paint(ToastKind::Warn) matches Some(p) && p.0.0 > p.0.2 && p.0.1 > p.0.2,
{
}

} // verus!
