//! Windows and tabs that show details: how they are opened, drawn and closed.
use crate::gui::frame::without_window;
use crate::gui::logs::ParsedLine;
use crate::gui::model::{
    App, DetachedDetailsWindow, DetachedDetailsWindowMeta, DetachedDetailsWindowState, DetailsPaneTab, DetailsState, EditState, EditUi,
    ExecState, Handle, LogsState, ServiceLogsState, WindowId,
};
use crate::gui::nav::selected_kind;
use crate::gui::results::{row_of, table};
use crate::gui::select::{row_selected, selection_of, Selected};
use crate::gui::updates::window_at;
use crate::json::opt_str;
use crate::text::{cat2, cat4, contains_string, copy_text, opt_text, string_or, texts};
use crate::types::{clone_option, same_uid, uid_is, uid_key, LiteObj, LiteView, Uid};
use std::collections::VecDeque;
use vstd::prelude::*;
use vstd::string::*;

verus! {

// ---------------------------------------------------------------------------
// Tabs

/// A tab of the main window.
#[derive(Clone, Copy, Debug)]
pub enum DockTab {
    Results,
    Details,
    Atlas,
    DetailsFor(Uid),
}

/// The title of a tab.
pub open spec fn tab_title_of(a: App, tab: DockTab) -> Seq<char> {
    match tab {
        DockTab::Results => "Results"@,
        DockTab::Details => "Details"@,
        DockTab::Atlas => "Atlas"@,
        DockTab::DetailsFor(u) => match row_of(table(a.results), uid_key(u)) {
            Some(row) => "Details: "@ + (match row.namespace {
                Some(n) => n,
                None => "-"@,
            }) + "/"@ + row.name,
            None => "Details"@,
        },
    }
}

impl App {
    /// The title of a tab.
    pub fn tab_title(&self, tab: DockTab) -> (r: String)
        ensures
            r@ == tab_title_of(*self, tab),
    {
        match tab {
            DockTab::Results => copy_text("Results"),
            DockTab::Details => copy_text("Details"),
            DockTab::Atlas => copy_text("Atlas"),
            DockTab::DetailsFor(u) => match self.results.find(&u) {
                Some(row) => {
                    let ns = string_or(&row.namespace, "-");
                    cat4("Details: ", ns.as_str(), "/", row.name.as_str())
                },
                None => copy_text("Details"),
            },
        }
    }
}

/// Where the tab of an object goes: it is shown already, or it goes beside another tab of
/// details, or the window is split.
#[derive(Clone, Copy, Debug, PartialEq, Eq, Structural)]
pub enum TabPlace {
    Shown(usize),
    Beside(usize),
    Split,
}

/// The place of the first tab of an object.
pub open spec fn tab_of(tabs: Seq<DockTab>, uid: Seq<u8>) -> Option<int>
    decreases tabs.len(),
{
    if tabs.len() == 0 {
        None
    } else if tabs[0] matches DockTab::DetailsFor(u) && u@ == uid {
        Some(0)
    } else {
        match tab_of(tabs.skip(1), uid) {
            Some(i) => Some(i + 1),
            None => None,
        }
    }
}

/// The place of the first tab of details.
pub open spec fn details_tab(tabs: Seq<DockTab>) -> Option<int>
    decreases tabs.len(),
{
    if tabs.len() == 0 {
        None
    } else if tabs[0] is DetailsFor || tabs[0] is Details {
        Some(0)
    } else {
        match details_tab(tabs.skip(1)) {
            Some(i) => Some(i + 1),
            None => None,
        }
    }
}

/// Where the tab of an object goes.
pub fn place_tab(tabs: &Vec<DockTab>, uid: &Uid) -> (r: TabPlace)
    ensures
        match tab_of(tabs@, uid@) {
            Some(i) => r == TabPlace::Shown(i as usize),
            None => match details_tab(tabs@) {
                Some(i) => r == TabPlace::Beside(i as usize),
                None => r == TabPlace::Split,
            },
        },
{
    let mut beside: Option<usize> = None;
    let mut i: usize = 0;
    assert(tabs@.skip(0) =~= tabs@);
    while i < tabs.len()
        invariant
            i <= tabs.len(),
            tab_of(tabs@, uid@) == (match tab_of(tabs@.skip(i as int), uid@) {
                Some(j) => Some(i + j),
                None => None,
            }),
            match beside {
                Some(b) => details_tab(tabs@) == Some(b as int),
                None => details_tab(tabs@) == (match details_tab(tabs@.skip(i as int)) {
                    Some(j) => Some(i + j),
                    None => None,
                }),
            },
        decreases tabs.len() - i,
    {
        assert(tabs@.skip(i as int)[0] == tabs@[i as int]);
        assert(tabs@.skip(i as int).skip(1) =~= tabs@.skip(i + 1));
        match &tabs[i] {
            DockTab::DetailsFor(u) => {
                if same_uid(u, uid) {
                    return TabPlace::Shown(i);
                }
                if beside.is_none() {
                    beside = Some(i);
                }
            },
            DockTab::Details => {
                if beside.is_none() {
                    beside = Some(i);
                }
            },
            _ => {},
        }
        i += 1;
    }
    match beside {
        Some(b) => TabPlace::Beside(b),
        None => TabPlace::Split,
    }
}

/// The identities of a list.
pub open spec fn uid_views(v: Seq<Uid>) -> Seq<Seq<u8>> {
    v.map_values(|u: Uid| u@)
}

/// A list without an identity.
pub open spec fn without_uid(s: Seq<Seq<u8>>, u: Seq<u8>) -> Seq<Seq<u8>>
    decreases s.len(),
{
    if s.len() == 0 {
        Seq::empty()
    } else {
        let rest = without_uid(s.drop_last(), u);
        if s.last() == u {
            rest
        } else {
            rest.push(s.last())
        }
    }
}

fn remove_uid(v: &Vec<Uid>, uid: &Uid) -> (r: Vec<Uid>)
    ensures
        uid_views(r@) == without_uid(uid_views(v@), uid@),
{
    let ghost all = uid_views(v@);
    let mut out: Vec<Uid> = Vec::new();
    let mut i: usize = 0;
    assert(all.take(0) =~= Seq::empty());
    assert(uid_views(out@) =~= Seq::empty());
    while i < v.len()
        invariant
            i <= v.len(),
            all == uid_views(v@),
            uid_views(out@) == without_uid(all.take(i as int), uid@),
        decreases v.len() - i,
    {
        assert(all.take(i + 1).drop_last() =~= all.take(i as int));
        assert(all.take(i + 1).last() == v@[i as int]@);
        let ghost before = uid_views(out@);
        if !same_uid(&v[i], uid) {
            out.push(v[i]);
            assert(uid_views(out@) =~= before.push(v@[i as int]@));
        }
        i += 1;
    }
    assert(all.take(all.len() as int) =~= all);
    out
}

/// The tabs of details after one was opened, the last opened at the end, with as many gone
/// from the front as there are too many.
pub open spec fn opened_order(order: Seq<Seq<u8>>, uid: Seq<u8>, cap: nat) -> (Seq<Seq<u8>>, Seq<Seq<u8>>) {
    let all = without_uid(order, uid).push(uid);
    if all.len() > cap {
        (all.skip(all.len() - cap), all.take(all.len() - cap))
    } else {
        (all, Seq::empty())
    }
}

impl App {
    /// Note that the tab of an object was opened: the tabs that are closed for it.
    pub fn note_opened_details_uid(&mut self, uid: Uid) -> (closed: Vec<Uid>)
        ensures
            ({
                let (order, gone) = opened_order(
                    uid_views(old(self).details_tab_order@),
                    uid@,
                    old(self).details_tabs_cap as nat,
                );
                &&& *final(self) == (App { details_tab_order: final(self).details_tab_order, ..*old(self) })
                &&& uid_views(final(self).details_tab_order@) == order
                &&& uid_views(closed@) == gone
            }),
    {
        let mut all = remove_uid(&self.details_tab_order, &uid);
        let ghost rest = uid_views(all@);
        all.push(uid);
        assert(uid_views(all@) =~= rest.push(uid@));
        let cap: usize = self.details_tabs_cap;
        let n: usize = all.len();
        if n > cap {
            let ghost whole = uid_views(all@);
            let kept = all.split_off(n - cap);
            assert(uid_views(kept@) =~= whole.skip(n - cap));
            assert(uid_views(all@) =~= whole.take(n - cap));
            self.details_tab_order = kept;
            all
        } else {
            self.details_tab_order = all;
            let none: Vec<Uid> = Vec::new();
            assert(uid_views(none@) =~= Seq::empty());
            none
        }
    }

    /// Forget the tab of an object.
    pub fn forget_tab(&mut self, uid: &Uid)
        ensures
            *final(self) == (App { details_tab_order: final(self).details_tab_order, ..*old(self) }),
            uid_views(final(self).details_tab_order@) == without_uid(
                uid_views(old(self).details_tab_order@),
                uid@,
            ),
    {
        self.details_tab_order = remove_uid(&self.details_tab_order, uid);
    }

    /// Forget the tabs of all objects.
    pub fn forget_all_tabs(&mut self)
        ensures
            *final(self) == (App { details_tab_order: final(self).details_tab_order, ..*old(self) }),
            final(self).details_tab_order@.len() == 0,
    {
        self.details_tab_order = Vec::new();
    }
}

proof fn lemma_without_uid(s: Seq<Seq<u8>>, u: Seq<u8>)
    ensures
        !without_uid(s, u).contains(u),
        without_uid(s, u).len() <= s.len(),
        s.no_duplicates() ==> without_uid(s, u).no_duplicates(),
        forall|x: Seq<u8>| #[trigger] without_uid(s, u).contains(x) ==> s.contains(x),
    decreases s.len(),
{
    if s.len() > 0 {
        let front = s.drop_last();
        lemma_without_uid(front, u);
        let rest = without_uid(front, u);
        if s.no_duplicates() {
            assert(front.no_duplicates());
        }
        if s.last() != u {
            assert forall|x: Seq<u8>| #[trigger] rest.push(s.last()).contains(x) implies s.contains(x) by {
                let k = choose|k: int| 0 <= k < rest.push(s.last()).len() && rest.push(s.last())[k] == x;
                if k < rest.len() {
                    assert(rest.contains(x));
                    let j = choose|j: int| 0 <= j < front.len() && front[j] == x;
                    assert(s[j] == x);
                } else {
                    assert(s[s.len() - 1] == x);
                }
            }
            if rest.push(s.last()).contains(u) {
                let k = choose|k: int| 0 <= k < rest.push(s.last()).len() && rest.push(s.last())[k] == u;
                assert(rest[k] == u);
            }
            if s.no_duplicates() {
                assert(!rest.contains(s.last())) by {
                    if rest.contains(s.last()) {
                        assert(front.contains(s.last()));
                        let j = choose|j: int| 0 <= j < front.len() && front[j] == s.last();
                        assert(s[j] == s[s.len() - 1]);
                    }
                }
                assert(rest.push(s.last()).no_duplicates());
            }
        } else {
            assert forall|x: Seq<u8>| #[trigger] rest.contains(x) implies s.contains(x) by {
                let j = choose|j: int| 0 <= j < front.len() && front[j] == x;
                assert(s[j] == x);
            }
        }
    }
}

/// No object has two tabs, there are never more tabs than allowed, and the tab that was
/// opened last is the last one, where any is allowed.
pub proof fn law_tabs(order: Seq<Seq<u8>>, uid: Seq<u8>, cap: nat)
    requires
        order.no_duplicates(),
    ensures
        opened_order(order, uid, cap).0.no_duplicates(),
        opened_order(order, uid, cap).0.len() <= cap,
        cap > 0 ==> opened_order(order, uid, cap).0.last() == uid,
{
    lemma_without_uid(order, uid);
    let all = without_uid(order, uid).push(uid);
    assert(all.no_duplicates());
}
// ---------------------------------------------------------------------------
// States of windows

/// Whether the log view of a new window is like another one, without its lines.
pub open spec fn fresh_logs(src: LogsState, r: LogsState) -> bool {
    &&& r == (LogsState {
        running: false,
        grep: r.grep,
        backlog: r.backlog,
        dropped: 0,
        recv: 0,
        containers: r.containers,
        container: r.container,
        task: None,
        cancel: None,
        ring: r.ring,
        grep_cache: None,
        grep_error: None,
        ..src
    })
    &&& r.grep@ =~= Seq::<char>::empty()
    &&& r.backlog@ =~= Seq::<String>::empty()
    &&& r.ring@ =~= Seq::<ParsedLine>::empty()
    &&& texts(r.containers@) =~= texts(src.containers@)
    &&& opt_text(r.container) == opt_text(src.container)
}

/// Whether the log view of a service in a new window is like another one, without its lines.
pub open spec fn fresh_svc_logs(src: ServiceLogsState, r: ServiceLogsState) -> bool {
    &&& r == (ServiceLogsState {
        running: false,
        grep: r.grep,
        grep_cache: None,
        grep_error: None,
        ring: r.ring,
        recv: 0,
        dropped: 0,
        task: None,
        cancel: None,
        ..src
    })
    &&& r.grep@ =~= Seq::<char>::empty()
    &&& r.ring@ =~= Seq::<ParsedLine>::empty()
}

/// Whether the session of a new window is like another one, and does not run.
pub open spec fn fresh_session(src: ExecState, r: ExecState) -> bool {
    &&& r == (ExecState {
        running: false,
        cmd: r.cmd,
        container: r.container,
        backlog: r.backlog,
        dropped: 0,
        recv: 0,
        stdin_buf: r.stdin_buf,
        task: None,
        cancel: None,
        input: None,
        resize: None,
        last_cols: None,
        last_rows: None,
        term_open: false,
        focused: false,
        external_cmd: r.external_cmd,
        ..src
    })
    &&& r.cmd@ == src.cmd@
    &&& opt_text(r.container) == opt_text(src.container)
    &&& r.backlog@ =~= Seq::<String>::empty()
    &&& r.stdin_buf@ =~= Seq::<char>::empty()
    &&& r.external_cmd@ == src.external_cmd@
}

/// Whether the editor of a window shows what another editor does.
pub open spec fn same_editor(e: EditState, u: EditUi) -> bool {
    &&& u.buffer@ == e.buffer@
    &&& u.original@ == e.original@
    &&& u.dirty == e.dirty
    &&& u.running == e.running
    &&& u.status@ == e.status@
}

/// Whether the state of a new window is what the main window shows.
pub open spec fn new_state(a: App, now: u64, s: DetachedDetailsWindowState) -> bool {
    &&& s.buffer@ =~= Seq::<char>::empty()
    &&& s.last_error is None
    &&& s.opened_at == now
    &&& s.active_tab == a.details.active_tab
    &&& same_editor(a.edit, s.edit_ui)
    &&& fresh_logs(a.logs, s.logs)
    &&& fresh_session(a.session, s.session)
    &&& fresh_svc_logs(a.svc_logs, s.svc_logs)
}

fn copy_strings(v: &Vec<String>) -> (r: Vec<String>)
    ensures
        texts(r@) == texts(v@),
{
    let ghost all = texts(v@);
    let mut out: Vec<String> = Vec::new();
    let mut i: usize = 0;
    assert(texts(out@) =~= all.take(0));
    while i < v.len()
        invariant
            i <= v.len(),
            all == texts(v@),
            texts(out@) == all.take(i as int),
        decreases v.len() - i,
    {
        let ghost before = texts(out@);
        out.push(v[i].clone());
        assert(texts(out@) =~= before.push(v@[i as int]@));
        assert(texts(out@) =~= all.take(i + 1));
        i += 1;
    }
    assert(all.take(all.len() as int) =~= all);
    out
}

impl LogsState {
    /// A log view like this one, without its lines.
    pub fn fresh(&self) -> (r: LogsState)
        ensures
            fresh_logs(*self, r),
    {
        LogsState {
            running: false,
            follow: self.follow,
            grep: String::new(),
            backlog: VecDeque::new(),
            backlog_cap: self.backlog_cap,
            dropped: 0,
            recv: 0,
            containers: copy_strings(&self.containers),
            container: clone_option(&self.container),
            tail_lines: self.tail_lines,
            since_seconds: self.since_seconds,
            task: None,
            cancel: None,
            ring: VecDeque::new(),
            ring_cap: self.ring_cap,
            wrap: self.wrap,
            colorize: self.colorize,
            visible_follow_limit: self.visible_follow_limit,
            order_by_ts_when_paused: self.order_by_ts_when_paused,
            follow_pad_rows: self.follow_pad_rows,
            prefix_theme: self.prefix_theme,
            grep_cache: None,
            grep_error: None,
            v2: self.v2,
        }
    }

    /// Show the containers of another log view. A container that is not among them gives
    /// way to the one that is chosen there, else to the first.
    pub fn ensure_log_containers(&mut self, containers: &Vec<String>, fallback: Option<&str>)
        ensures
            *final(self) == (LogsState {
                containers: final(self).containers,
                container: final(self).container,
                ..*old(self)
            }),
            texts(final(self).containers@) == texts(containers@),
            opt_text(final(self).container) == container_choice(
                opt_text(old(self).container),
                texts(containers@),
                opt_str(fallback),
            ),
    {
        self.containers = copy_strings(containers);
        let known = match &self.container {
            Some(c) => contains_string(containers, c.as_str()),
            None => false,
        };
        if known {
            return;
        }
        assert(texts(containers@).len() == containers@.len());
        let first = if containers.len() > 0 {
            assert(texts(containers@)[0] == containers@[0]@);
            Some(containers[0].clone())
        } else {
            None
        };
        self.container = match fallback {
            Some(f) => if contains_string(containers, f) {
                Some(copy_text(f))
            } else {
                first
            },
            None => first,
        };
    }
}

/// The container that a log view shows: its own where it is in the list, else a given one
/// that is, else the first.
pub open spec fn container_choice(
    own: Option<Seq<char>>,
    list: Seq<Seq<char>>,
    fallback: Option<Seq<char>>,
) -> Option<Seq<char>> {
    if own is Some && list.contains(own->0) {
        own
    } else if fallback is Some && list.contains(fallback->0) {
        fallback
    } else if list.len() > 0 {
        Some(list[0])
    } else {
        None
    }
}

/// The container that a log view shows is one of the list, where there are any.
pub proof fn law_container_listed(own: Option<Seq<char>>, list: Seq<Seq<char>>, fallback: Option<Seq<char>>)
    ensures
        match container_choice(own, list, fallback) {
            Some(c) => list.contains(c),
            None => list.len() == 0,
        },
{
}

impl ServiceLogsState {
    /// A log view like this one, without its lines.
    pub fn fresh(&self) -> (r: ServiceLogsState)
        ensures
            fresh_svc_logs(*self, r),
    {
        ServiceLogsState {
            running: false,
            follow: self.follow,
            grep: String::new(),
            grep_cache: None,
            grep_error: None,
            ring: VecDeque::new(),
            ring_cap: self.ring_cap,
            recv: 0,
            dropped: 0,
            tail_lines: self.tail_lines,
            since_seconds: self.since_seconds,
            task: None,
            cancel: None,
            visible_follow_limit: self.visible_follow_limit,
            colorize: self.colorize,
            order_by_ts_when_paused: self.order_by_ts_when_paused,
            follow_pad_rows: self.follow_pad_rows,
            v2: self.v2,
            prefix_theme: self.prefix_theme,
        }
    }
}

impl ExecState {
    /// A session like this one that does not run.
    pub fn fresh(&self) -> (r: ExecState)
        ensures
            fresh_session(*self, r),
    {
        ExecState {
            running: false,
            pty: self.pty,
            cmd: self.cmd.clone(),
            container: clone_option(&self.container),
            backlog: VecDeque::new(),
            backlog_cap: self.backlog_cap,
            dropped: 0,
            recv: 0,
            stdin_buf: String::new(),
            task: None,
            cancel: None,
            input: None,
            resize: None,
            last_cols: None,
            last_rows: None,
            term_open: false,
            focused: false,
            mode_oneshot: self.mode_oneshot,
            external_cmd: self.external_cmd.clone(),
        }
    }
}

/// The title of the window of an object.
pub open spec fn window_title(ns: Option<Seq<char>>, name: Seq<char>) -> Seq<char> {
    match ns {
        Some(n) => "Details: "@ + n + "/"@ + name,
        None => "Details: "@ + name,
    }
}

/// Whether an object has a window.
pub open spec fn has_window(ws: Seq<DetachedDetailsWindow>, uid: Seq<u8>) -> bool {
    exists|i: int| 0 <= i < ws.len() && (#[trigger] ws[i]).meta.uid@ == uid
}

/// Whether a window is that of an object, as it is opened.
pub open spec fn opened_window(a: App, uid: Uid, id: WindowId, now: u64, w: DetachedDetailsWindow) -> bool {
    let row = row_of(table(a.results), uid_key(uid));
    let ns = match row {
        Some(r) => r.namespace,
        None => None,
    };
    let name = match row {
        Some(r) => r.name,
        None => ""@,
    };
    &&& w.meta.id == id
    &&& w.meta.uid == uid
    &&& w.meta.title@ == window_title(ns, name)
    &&& Some(w.meta.gvk@) == selected_kind(a)
    &&& opt_text(w.meta.namespace) == ns
    &&& w.meta.name@ == name
    &&& new_state(a, now, w.state)
}

impl App {
    fn shows(&self, uid: &Uid) -> (r: bool)
        ensures
            r == has_window(self.detached@, uid@),
    {
        let mut i: usize = 0;
        while i < self.detached.len()
            invariant
                i <= self.detached.len(),
                forall|k: int| 0 <= k < i ==> (#[trigger] self.detached@[k]).meta.uid@ != uid@,
            decreases self.detached.len() - i,
        {
            if same_uid(&self.detached[i].meta.uid, uid) {
                return true;
            }
            i += 1;
        }
        false
    }

    /// The state of a new window: what the main window shows.
    pub fn make_details_window_state(&self, now: u64) -> (r: DetachedDetailsWindowState)
        ensures
            new_state(*self, now, r),
    {
        DetachedDetailsWindowState {
            buffer: String::new(),
            last_error: None,
            opened_at: now,
            active_tab: self.details.active_tab,
            edit_ui: EditUi {
                buffer: self.edit.buffer.clone(),
                original: self.edit.original.clone(),
                dirty: self.edit.dirty,
                running: self.edit.running,
                status: self.edit.status.clone(),
            },
            logs: self.logs.fresh(),
            session: self.session.fresh(),
            svc_logs: self.svc_logs.fresh(),
        }
    }

    /// Open a window for an object, unless it has one or no kind is chosen. True where one
    /// was opened.
    pub fn open_detached_for(&mut self, uid: Uid, id: WindowId, now: u64) -> (opened: bool)
        ensures
            opened == (!has_window(old(self).detached@, uid@) && selected_kind(*old(self)) is Some),
            !opened ==> *final(self) == *old(self),
            opened ==> {
                &&& *final(self) == (App { detached: final(self).detached, ..*old(self) })
                &&& final(self).detached@.len() == old(self).detached@.len() + 1
                &&& final(self).detached@.drop_last() =~= old(self).detached@
                &&& opened_window(*old(self), uid, id, now, final(self).detached@.last())
            },
    {
        if self.shows(&uid) {
            return false;
        }
        let (namespace, name) = match self.results.find(&uid) {
            Some(row) => (clone_option(&row.namespace), row.name.clone()),
            None => (None, copy_text("")),
        };
        let gvk = match self.current_selected_kind() {
            Some(k) => k.clone(),
            None => {
                return false;
            },
        };
        let title = match &namespace {
            Some(n) => cat4("Details: ", n.as_str(), "/", name.as_str()),
            None => cat2("Details: ", name.as_str()),
        };
        let meta = DetachedDetailsWindowMeta { id, uid, title, gvk, namespace, name };
        let state = self.make_details_window_state(now);
        self.detached.push(DetachedDetailsWindow { meta, state });
        true
    }
}

/// What the main window keeps while it draws another one.
pub struct Drawing {
    pub selected: Option<Uid>,
    pub active_tab: DetailsPaneTab,
    pub window: Option<WindowId>,
}

/// The editor of the main window with what another editor shows.
pub open spec fn editor_with(e: EditState, u: EditUi) -> EditState {
    EditState {
        buffer: u.buffer,
        original: u.original,
        dirty: u.dirty,
        running: u.running,
        status: u.status,
        ..e
    }
}

/// What an editor shows.
pub open spec fn editor_of(e: EditState) -> EditUi {
    EditUi {
        buffer: e.buffer,
        original: e.original,
        dirty: e.dirty,
        running: e.running,
        status: e.status,
    }
}

/// The main window that draws another one: the states of the two have changed places.
pub open spec fn drawn_window(a: App, i: int, uid: Uid, id: WindowId) -> App {
    let w = a.detached@[i];
    App {
        logs: w.state.logs,
        session: w.state.session,
        svc_logs: w.state.svc_logs,
        edit: editor_with(a.edit, w.state.edit_ui),
        details: DetailsState {
            selected: Some(uid),
            active_tab: w.state.active_tab,
            ..a.details
        },
        rendering_window_id: Some(id),
        ..a
    }
}

/// The state of a window while the main window draws it: that of the main window.
pub open spec fn kept_state(a: App, s: DetachedDetailsWindowState) -> DetachedDetailsWindowState {
    DetachedDetailsWindowState {
        logs: a.logs,
        session: a.session,
        svc_logs: a.svc_logs,
        edit_ui: editor_of(a.edit),
        active_tab: a.details.active_tab,
        ..s
    }
}

/// Whether the main window began to draw another one.
pub open spec fn entered(pre: App, i: int, post: App, kept: Drawing) -> bool {
    let w = pre.detached@[i];
    &&& post == (App { detached: post.detached, ..drawn_window(pre, i, w.meta.uid, w.meta.id) })
    &&& post.detached@ == pre.detached@.update(
        i,
        (DetachedDetailsWindow { state: kept_state(pre, w.state), ..w }),
    )
    &&& kept.selected == pre.details.selected
    &&& kept.active_tab == pre.details.active_tab
    &&& kept.window == pre.rendering_window_id
}

/// Whether the main window has drawn another one.
pub open spec fn left(pre: App, i: int, kept: Drawing, post: App) -> bool {
    let w = pre.detached@[i];
    &&& post == (App {
        detached: post.detached,
        details: DetailsState { selected: kept.selected, active_tab: w.state.active_tab, ..pre.details },
        rendering_window_id: kept.window,
        logs: w.state.logs,
        session: w.state.session,
        svc_logs: w.state.svc_logs,
        edit: editor_with(pre.edit, w.state.edit_ui),
        ..pre
    })
    &&& post.detached@ == pre.detached@.update(
        i,
        (DetachedDetailsWindow { state: kept_state(pre, w.state), ..w }),
    )
}

/// Drawing a window that does nothing leaves the main window and the window as they were.
pub proof fn law_drawing(pre: App, mid: App, post: App, i: int, kept: Drawing)
    requires
        0 <= i < pre.detached@.len(),
        entered(pre, i, mid, kept),
        left(mid, i, kept, post),
    ensures
        post == (App { detached: post.detached, ..pre }),
        post.detached@ == pre.detached@,
{
    let w = pre.detached@[i];
    let v = mid.detached@[i];
    assert(v.state == kept_state(pre, w.state));
    assert(kept_state(mid, v.state) == w.state);
    assert(post.detached@ =~= pre.detached@);
}

impl App {
    fn swap_state(&mut self, i: usize)
        requires
            i < old(self).detached@.len(),
        ensures
            ({
                let w = old(self).detached@[i as int];
                &&& *final(self) == (App {
                    logs: w.state.logs,
                    session: w.state.session,
                    svc_logs: w.state.svc_logs,
                    edit: editor_with(old(self).edit, w.state.edit_ui),
                    details: DetailsState {
                        active_tab: w.state.active_tab,
                        ..old(self).details
                    },
                    detached: final(self).detached,
                    ..*old(self)
                })
                &&& final(self).detached@ == old(self).detached@.update(
                    i as int,
                    (DetachedDetailsWindow { state: kept_state(*old(self), w.state), ..w }),
                )
            }),
    {
        let ghost pre = *self;
        let w = &mut self.detached[i];
        std::mem::swap(&mut self.logs, &mut w.state.logs);
        std::mem::swap(&mut self.session, &mut w.state.session);
        std::mem::swap(&mut self.svc_logs, &mut w.state.svc_logs);
        std::mem::swap(&mut self.edit.buffer, &mut w.state.edit_ui.buffer);
        std::mem::swap(&mut self.edit.original, &mut w.state.edit_ui.original);
        std::mem::swap(&mut self.edit.dirty, &mut w.state.edit_ui.dirty);
        std::mem::swap(&mut self.edit.running, &mut w.state.edit_ui.running);
        std::mem::swap(&mut self.edit.status, &mut w.state.edit_ui.status);
        let tab = w.state.active_tab;
        w.state.active_tab = self.details.active_tab;
        self.details.active_tab = tab;
    }

    /// Draw a window: its state takes the place of that of the main window.
    pub fn enter_window(&mut self, i: usize) -> (kept: Drawing)
        requires
            i < old(self).detached@.len(),
        ensures
            entered(*old(self), i as int, *final(self), kept),
    {
        let kept = Drawing {
            selected: self.details.selected,
            active_tab: self.details.active_tab,
            window: self.rendering_window_id,
        };
        let uid = self.detached[i].meta.uid;
        let id = self.detached[i].meta.id;
        self.swap_state(i);
        self.details.selected = Some(uid);
        self.rendering_window_id = Some(id);
        kept
    }

    /// A window was drawn: its state goes back to it, and the main window has its own again.
    pub fn leave_window(&mut self, i: usize, kept: Drawing)
        requires
            i < old(self).detached@.len(),
        ensures
            left(*old(self), i as int, kept, *final(self)),
    {
        self.swap_state(i);
        self.details.selected = kept.selected;
        self.rendering_window_id = kept.window;
    }
}
// ---------------------------------------------------------------------------
// Closing

/// What is to stop.
pub struct Stops {
    pub cancel: Vec<Handle>,
    pub abort: Vec<Handle>,
}

/// One handle, where there is one.
pub open spec fn handle_list(h: Option<Handle>) -> Seq<Handle> {
    match h {
        Some(x) => seq![x],
        None => Seq::empty(),
    }
}

fn push_handle(v: &mut Vec<Handle>, h: Option<Handle>)
    ensures
        final(v)@ == old(v)@ + handle_list(h),
{
    let ghost before = v@;
    match h {
        Some(x) => {
            v.push(x);
            assert(v@ =~= before + seq![x]);
        },
        None => {
            assert(before + Seq::<Handle>::empty() =~= before);
        },
    }
}

/// What is cancelled where a window is closed: the streams that it owns.
pub open spec fn closing_cancels(a: App, id: WindowId) -> Seq<Handle> {
    match window_at(a.detached@, id, a.detached@.len()) {
        Some(i) => {
            let s = a.detached@[i].state;
            (if a.logs_owner == Some(id) {
                handle_list(s.logs.cancel)
            } else {
                Seq::empty()
            }) + (if a.exec_owner == Some(id) {
                handle_list(s.session.cancel)
            } else {
                Seq::empty()
            }) + (if a.svc_logs_owner == Some(id) {
                handle_list(s.svc_logs.cancel)
            } else {
                Seq::empty()
            })
        },
        None => Seq::empty(),
    }
}

/// An owner that gives up where its window is closed.
pub open spec fn disowned(owner: Option<WindowId>, id: WindowId, found: bool) -> Option<WindowId> {
    if found && owner == Some(id) {
        None
    } else {
        owner
    }
}

fn owns(owner: &Option<WindowId>, id: WindowId) -> (r: bool)
    ensures
        r == (*owner == Some(id)),
{
    match owner {
        Some(x) => *x == id,
        None => false,
    }
}

impl App {
    /// The user closed a window: the streams that it owns are to stop.
    pub fn close_detached(&mut self, id: WindowId) -> (cancel: Vec<Handle>)
        ensures
            ({
                let found = window_at(old(self).detached@, id, old(self).detached@.len()) is Some;
                &&& cancel@ == closing_cancels(*old(self), id)
                &&& *final(self) == (App {
                    logs_owner: disowned(old(self).logs_owner, id, found),
                    exec_owner: disowned(old(self).exec_owner, id, found),
                    svc_logs_owner: disowned(old(self).svc_logs_owner, id, found),
                    detached: final(self).detached,
                    ..*old(self)
                })
                &&& final(self).detached@ == without_window(old(self).detached@, id)
            }),
    {
        let mut out: Vec<Handle> = Vec::new();
        if let Some(i) = self.find_window(id) {
            let ghost s = self.detached@[i as int].state;
            let (a, b, c) = (
                self.detached[i].state.logs.cancel,
                self.detached[i].state.session.cancel,
                self.detached[i].state.svc_logs.cancel,
            );
            if owns(&self.logs_owner, id) {
                push_handle(&mut out, a);
                self.logs_owner = None;
            }
            if owns(&self.exec_owner, id) {
                push_handle(&mut out, b);
                self.exec_owner = None;
            }
            if owns(&self.svc_logs_owner, id) {
                push_handle(&mut out, c);
                self.svc_logs_owner = None;
            }
        }
        assert(out@ =~= closing_cancels(*old(self), id));
        self.close_window(id);
        out
    }

    /// A tab is closed for good: its streams are to stop, and it owns none any more.
    pub fn release_docked_tab(&mut self, id: WindowId, state: &DetachedDetailsWindowState) -> (r: Stops)
        ensures
            r.cancel@ == handle_list(state.logs.cancel) + handle_list(state.svc_logs.cancel) + handle_list(
                state.session.cancel,
            ),
            r.abort@ == handle_list(state.logs.task) + handle_list(state.svc_logs.task) + handle_list(
                state.session.task,
            ),
            *final(self) == (App {
                logs_owner: disowned(old(self).logs_owner, id, true),
                exec_owner: disowned(old(self).exec_owner, id, true),
                svc_logs_owner: disowned(old(self).svc_logs_owner, id, true),
                ..*old(self)
            }),
    {
        let mut cancel: Vec<Handle> = Vec::new();
        let mut abort: Vec<Handle> = Vec::new();
        push_handle(&mut cancel, state.logs.cancel);
        push_handle(&mut cancel, state.svc_logs.cancel);
        push_handle(&mut cancel, state.session.cancel);
        push_handle(&mut abort, state.logs.task);
        push_handle(&mut abort, state.svc_logs.task);
        push_handle(&mut abort, state.session.task);
        assert(cancel@ =~= handle_list(state.logs.cancel) + handle_list(state.svc_logs.cancel) + handle_list(
            state.session.cancel,
        ));
        assert(abort@ =~= handle_list(state.logs.task) + handle_list(state.svc_logs.task) + handle_list(
            state.session.task,
        ));
        if owns(&self.logs_owner, id) {
            self.logs_owner = None;
        }
        if owns(&self.svc_logs_owner, id) {
            self.svc_logs_owner = None;
        }
        if owns(&self.exec_owner, id) {
            self.exec_owner = None;
        }
        Stops { cancel, abort }
    }
}

/// The tabs whose objects are no longer shown.
pub open spec fn unused(docked: Seq<Seq<u8>>, used: Seq<Seq<u8>>) -> Seq<Seq<u8>>
    decreases docked.len(),
{
    if docked.len() == 0 {
        Seq::empty()
    } else {
        let rest = unused(docked.drop_last(), used);
        if used.contains(docked.last()) {
            rest
        } else {
            rest.push(docked.last())
        }
    }
}

fn has_uid(v: &Vec<Uid>, uid: &Uid) -> (r: bool)
    ensures
        r == uid_views(v@).contains(uid@),
{
    let mut i: usize = 0;
    while i < v.len()
        invariant
            i <= v.len(),
            forall|k: int| 0 <= k < i ==> #[trigger] uid_views(v@)[k] != uid@,
        decreases v.len() - i,
    {
        assert(uid_views(v@)[i as int] == v@[i as int]@);
        if same_uid(&v[i], uid) {
            return true;
        }
        i += 1;
    }
    false
}

/// The tabs whose objects are no longer shown.
pub fn unused_tabs(docked: &Vec<Uid>, used: &Vec<Uid>) -> (r: Vec<Uid>)
    ensures
        uid_views(r@) == unused(uid_views(docked@), uid_views(used@)),
{
    let ghost all = uid_views(docked@);
    let mut out: Vec<Uid> = Vec::new();
    let mut i: usize = 0;
    assert(all.take(0) =~= Seq::empty());
    assert(uid_views(out@) =~= Seq::empty());
    while i < docked.len()
        invariant
            i <= docked.len(),
            all == uid_views(docked@),
            uid_views(out@) == unused(all.take(i as int), uid_views(used@)),
        decreases docked.len() - i,
    {
        assert(all.take(i + 1).drop_last() =~= all.take(i as int));
        assert(all.take(i + 1).last() == docked@[i as int]@);
        let ghost before = uid_views(out@);
        if !has_uid(used, &docked[i]) {
            out.push(docked[i]);
            assert(uid_views(out@) =~= before.push(docked@[i as int]@));
        }
        i += 1;
    }
    assert(all.take(all.len() as int) =~= all);
    out
}

impl App {
    /// A tab of details has the focus: its object is selected, where it is not yet and its
    /// row is known.
    pub fn focus_tab(&mut self, uid: Uid, now: u64) -> (r: Option<Selected>)
        ensures
            ({
                let shown = old(self).details.selected matches Some(u) && u@ == uid@;
                match row_of(table(old(self).results), uid_key(uid)) {
                    Some(row) => if shown {
                        r is None && *final(self) == *old(self)
                    } else {
                        &&& r matches Some(s)
                        &&& row_selected(*old(self), row, now, *final(self))
                        &&& selection_of(*old(self), row, now, s)
                    },
                    None => r is None && *final(self) == *old(self),
                }
            }),
    {
        if uid_is(&self.details.selected, &uid) {
            return None;
        }
        let row: Option<LiteObj> = match self.results.find(&uid) {
            Some(o) => Some(o.clone()),
            None => None,
        };
        match row {
            Some(o) => Some(self.select_row(&o, now)),
            None => None,
        }
    }
}

// ---------------------------------------------------------------------------
// Which tabs stay

proof fn lemma_without_absent(s: Seq<Seq<u8>>, u: Seq<u8>)
    requires
        !s.contains(u),
    ensures
        without_uid(s, u) == s,
    decreases s.len(),
{
    if s.len() > 0 {
        let d = s.drop_last();
        assert(s[s.len() - 1] != u);
        assert forall|k: int| 0 <= k < d.len() implies d[k] != u by {
            assert(s[k] == d[k]);
        }
        lemma_without_absent(d, u);
        assert(s =~= d.push(s.last()));
    } else {
        assert(without_uid(s, u) =~= s);
    }
}

/// A tab that is opened stands last. Where there is room no other is closed; where there is
/// none, the one that was opened first goes.
pub proof fn law_oldest_tab_goes(order: Seq<Seq<u8>>, uid: Seq<u8>, cap: nat)
    requires
        !order.contains(uid),
        cap > 0,
    ensures
        order.len() < cap ==> opened_order(order, uid, cap) == (order.push(uid), Seq::<Seq<u8>>::empty()),
        order.len() == cap ==> opened_order(order, uid, cap) == (order.skip(1).push(uid), seq![order[0]]),
{
    lemma_without_absent(order, uid);
    let all = order.push(uid);
    if order.len() == cap {
        assert(all.skip(1) =~= order.skip(1).push(uid));
        assert(all.take(1) =~= seq![order[0]]);
    }
}

/// A tab that is opened once more closes none, and becomes the last.
pub proof fn law_tab_opened_again(order: Seq<Seq<u8>>, uid: Seq<u8>, cap: nat)
    requires
        order.no_duplicates(),
        order.contains(uid),
        0 < order.len() <= cap,
    ensures
        opened_order(order, uid, cap).1.len() == 0,
        opened_order(order, uid, cap).0.last() == uid,
        opened_order(order, uid, cap).0.len() == order.len(),
{
    lemma_without_one(order, uid);
}

proof fn lemma_without_one(s: Seq<Seq<u8>>, u: Seq<u8>)
    requires
        s.no_duplicates(),
        s.contains(u),
    ensures
        without_uid(s, u).len() == s.len() - 1,
    decreases s.len(),
{
    let d = s.drop_last();
    let k = choose|k: int| 0 <= k < s.len() && s[k] == u;
    if k < d.len() {
        assert(d[k] == u);
        assert(s[s.len() - 1] != u);
        lemma_without_one(d, u);
    } else {
        assert forall|i: int| 0 <= i < d.len() implies d[i] != u by {
            assert(s[i] != s[k]);
        }
        lemma_without_absent(d, u);
    }
}

/// The title of a tab names the object by its namespace and its name.
pub proof fn law_tab_title(a: App, u: Uid, row: LiteView, ns: Seq<char>)
    requires
        row_of(table(a.results), uid_key(u)) == Some(row),
    ensures
        row.namespace == Some(ns) ==> tab_title_of(a, DockTab::DetailsFor(u)) == "Details: "@ + ns + "/"@ + row.name,
        row.namespace is None ==> tab_title_of(a, DockTab::DetailsFor(u)) == "Details: "@ + "-"@ + "/"@ + row.name,
        window_title(Some(ns), row.name) == "Details: "@ + ns + "/"@ + row.name,
        window_title(None, row.name) == "Details: "@ + row.name,
{
}

/// The tab that is found is the one of the object, and the first of them; where there is none,
/// none is found.
pub proof fn law_tab_found(tabs: Seq<DockTab>, uid: Seq<u8>)
    ensures
        match tab_of(tabs, uid) {
            Some(i) => 0 <= i < tabs.len() && (tabs[i] matches DockTab::DetailsFor(u) && u@ == uid),
            None => forall|i: int|
                0 <= i < tabs.len() ==> !(#[trigger] tabs[i] matches DockTab::DetailsFor(u) && u@ == uid),
        },
    decreases tabs.len(),
{
    if tabs.len() > 0 {
        let rest = tabs.skip(1);
        law_tab_found(rest, uid);
        if tab_of(rest, uid) is None {
            assert forall|i: int| 1 <= i < tabs.len() implies #[trigger] tabs[i] == rest[i - 1] by {}
        } else {
            let i = tab_of(rest, uid)->0;
            assert(tabs[i + 1] == rest[i]);
        }
    }
}

/// A container that was chosen stays chosen as long as the pod has it; then the fallback counts,
/// and then the first.
pub proof fn law_container_kept(own: Seq<char>, list: Seq<Seq<char>>, fallback: Option<Seq<char>>)
    ensures
        list.contains(own) ==> container_choice(Some(own), list, fallback) == Some(own),
        !list.contains(own) && fallback is Some && list.contains(fallback->0) ==> container_choice(
            Some(own),
            list,
            fallback,
        ) == fallback,
        fallback is None && list.len() > 0 ==> container_choice(None, list, fallback) == Some(list[0]),
{
}

/// Of the windows that are closed, each stops the streams that are its own, and no other.
pub proof fn law_closing(a: App, id: WindowId)
    ensures
        a.logs_owner != Some(id) && a.exec_owner != Some(id) && a.svc_logs_owner != Some(id) ==> closing_cancels(a, id).len()
            == 0,
        window_at(a.detached@, id, a.detached@.len()) matches Some(i) ==> (a.logs_owner == Some(id)
            && a.detached@[i].state.logs.cancel is Some ==> closing_cancels(a, id).len() > 0 && closing_cancels(a, id)[0]
            == a.detached@[i].state.logs.cancel->0),
        disowned(Some(id), id, true) is None,
        a.logs_owner != Some(id) ==> disowned(a.logs_owner, id, true) == a.logs_owner,
        disowned(a.logs_owner, id, false) == a.logs_owner,
{
}

/// A window of its own starts with nothing of what runs elsewhere: its logs and its session are
/// empty and stopped, and keep the settings.
pub proof fn law_new_window(a: App, now: u64, s: DetachedDetailsWindowState)
    requires
        new_state(a, now, s),
    ensures
        !s.logs.running && s.logs.ring@.len() == 0 && s.logs.task is None && s.logs.cancel is None,
        !s.session.running && s.session.backlog@.len() == 0 && s.session.task is None && s.session.input is None,
        !s.svc_logs.running && s.svc_logs.ring@.len() == 0 && s.svc_logs.task is None,
        s.logs.tail_lines == a.logs.tail_lines && s.logs.since_seconds == a.logs.since_seconds && s.logs.follow
            == a.logs.follow,
        s.session.cmd@ == a.session.cmd@ && s.session.pty == a.session.pty,
        s.buffer@.len() == 0 && s.opened_at == now && s.active_tab == a.details.active_tab,
        s.edit_ui.buffer@ == a.edit.buffer@ && s.edit_ui.dirty == a.edit.dirty,
{
}

/// The tabs that are not used are those that are docked and not drawn.
pub proof fn law_unused(docked: Seq<Seq<u8>>, used: Seq<Seq<u8>>, u: Seq<u8>)
    ensures
        unused(docked, used).contains(u) <==> docked.contains(u) && !used.contains(u),
    decreases docked.len(),
{
    if docked.len() > 0 {
        let d = docked.drop_last();
        law_unused(d, used, u);
        assert(docked =~= d.push(docked.last()));
        let rest = unused(d, used);
        let all = unused(docked, used);
        if d.contains(u) {
            let k = choose|k: int| 0 <= k < d.len() && d[k] == u;
            assert(docked[k] == u);
        }
        if docked.contains(u) {
            let k = choose|k: int| 0 <= k < docked.len() && docked[k] == u;
            if k < d.len() {
                assert(d[k] == u);
            } else if !used.contains(u) {
                assert(all[all.len() - 1] == u);
            }
        }
        if rest.contains(u) {
            let k = choose|k: int| 0 <= k < rest.len() && rest[k] == u;
            assert(all[k] == u);
        }
        if all.contains(u) {
            let k = choose|k: int| 0 <= k < all.len() && all[k] == u;
            if k < rest.len() {
                assert(rest[k] == u);
            } else {
                assert(docked[docked.len() - 1] == u);
            }
        }
    }
}

} // verus!
