//! How an update changes the state of the front end.
use crate::api::PortForwardEvent;
use crate::columns::column_views;
use crate::gui::logs::{line_views, parse_line, parsed_line, Color, LogStyler, ParsedLine};
use crate::gui::model::{
    App, DescribeState, DetachedDetailsWindow, DetachedDetailsWindowState, DetailsState, EditState, ExecState,
    GraphState, Handle, LogsState, OpsState, PortCandidate, SearchState, ServiceLogsState, StatsState, ToastKind,
    UiUpdate, WatchState, WindowId,
};
use crate::gui::nav::selected_kind;
use crate::gui::results::{same_settings, table, table_applied, table_deleted, table_snapshot, ResultsState};
use crate::rx::regex_source;
use crate::text::{cat2, cat4, contains_string, copy_text, opt_text, option_is, same_text, texts};
use crate::types::{gvk_equal, key_of, lite_views, same_gvk, uid_is, uid_key, LiteEvent, LiteObj, LiteView, Uid};
use std::collections::VecDeque;
use vstd::prelude::*;
use vstd::std_specs::hash::*;
use vstd::string::*;

verus! {

broadcast use {vstd::std_specs::hash::group_hash_axioms};

/// What the window has to do after an update.
pub struct Step {
    /// The update counts as processed.
    pub processed: bool,
    /// The update ends a batch.
    pub batch: bool,
    /// The window is drawn again at once.
    pub repaint: bool,
    /// A message to the user.
    pub toast: Option<(String, ToastKind)>,
    /// A row to select.
    pub select: Option<LiteObj>,
    /// A detached window to attach again.
    pub reattach: Option<(WindowId, Uid)>,
    /// Output for the terminal of a window, or of the main pane.
    pub feed: Option<(Option<WindowId>, String)>,
}

/// The model of a `Step`.
pub struct StepView {
    pub processed: bool,
    pub batch: bool,
    pub repaint: bool,
    pub toast: Option<(Seq<char>, ToastKind)>,
    pub select: Option<LiteView>,
    pub reattach: Option<(WindowId, Seq<u8>)>,
    pub feed: Option<(Option<WindowId>, Seq<char>)>,
}

impl View for Step {
    type V = StepView;

    open spec fn view(&self) -> StepView {
        StepView {
            processed: self.processed,
            batch: self.batch,
            repaint: self.repaint,
            toast: match self.toast {
                Some((t, k)) => Some((t@, k)),
                None => None,
            },
            select: match self.select {
                Some(o) => Some(o@),
                None => None,
            },
            reattach: match self.reattach {
                Some((w, u)) => Some((w, u@)),
                None => None,
            },
            feed: match self.feed {
                Some((w, s)) => Some((w, s@)),
                None => None,
            },
        }
    }
}

/// Nothing to do; the update does not count.
pub open spec fn ignored() -> StepView {
    StepView {
        processed: false,
        batch: false,
        repaint: false,
        toast: None,
        select: None,
        reattach: None,
        feed: None,
    }
}

/// The update counts, and nothing else is to do.
pub open spec fn counted() -> StepView {
    StepView { processed: true, ..ignored() }
}

/// The update counts, and the window is drawn again.
pub open spec fn repainted() -> StepView {
    StepView { repaint: true, ..counted() }
}

/// The update counts, with a message to the user.
pub open spec fn toasted(text: Seq<char>, kind: ToastKind) -> StepView {
    StepView { toast: Some((text, kind)), ..counted() }
}

fn step_ignored() -> (r: Step)
    ensures
        r@ == ignored(),
{
    Step {
        processed: false,
        batch: false,
        repaint: false,
        toast: None,
        select: None,
        reattach: None,
        feed: None,
    }
}

fn step_counted() -> (r: Step)
    ensures
        r@ == counted(),
{
    Step {
        processed: true,
        batch: false,
        repaint: false,
        toast: None,
        select: None,
        reattach: None,
        feed: None,
    }
}

fn step_repainted() -> (r: Step)
    ensures
        r@ == repainted(),
{
    Step {
        processed: true,
        batch: false,
        repaint: true,
        toast: None,
        select: None,
        reattach: None,
        feed: None,
    }
}

fn step_toasted(text: String, kind: ToastKind) -> (r: Step)
    ensures
        r@ == toasted(text@, kind),
{
    Step {
        processed: true,
        batch: false,
        repaint: false,
        toast: Some((text, kind)),
        select: None,
        reattach: None,
        feed: None,
    }
}

/// A counter one higher; the highest is followed by zero.
pub open spec fn bumped(n: usize) -> usize {
    if n == usize::MAX {
        0
    } else {
        (n + 1) as usize
    }
}

/// A counter one higher.
pub fn bump(n: usize) -> (r: usize)
    ensures
        r == bumped(n),
{
    if n == usize::MAX {
        0
    } else {
        n + 1
    }
}

/// A bounded list with an item added: the oldest leaves where the list is full.
pub open spec fn ring_push<A>(ring: Seq<A>, cap: usize, item: A) -> Seq<A> {
    (if ring.len() >= cap && ring.len() > 0 {
        ring.drop_first()
    } else {
        ring
    }).push(item)
}

/// How many items a bounded list has dropped, after an item was added.
pub open spec fn ring_dropped(len: nat, cap: usize, dropped: usize) -> usize {
    if len >= cap {
        bumped(dropped)
    } else {
        dropped
    }
}

/// Whether a log view has taken a line: it stands at the end of the ring, or of the
/// backlog where the ring is not in use, and the counters have moved on.
#[verifier::opaque]
pub open spec fn log_took(pre: LogsState, line: Seq<char>, color: Color, post: LogsState) -> bool {
    &&& post == (LogsState {
        recv: bumped(pre.recv),
        dropped: if pre.v2 {
            ring_dropped(pre.ring@.len(), pre.ring_cap, pre.dropped)
        } else {
            ring_dropped(pre.backlog@.len(), pre.backlog_cap, pre.dropped)
        },
        ring: post.ring,
        backlog: post.backlog,
        ..pre
    })
    &&& pre.v2 ==> {
        &&& post.backlog == pre.backlog
        &&& line_views(post.ring@) == ring_push(
            line_views(pre.ring@),
            pre.ring_cap,
            parsed_line(line, color, pre.colorize, pattern_of(pre.grep_cache)),
        )
    }
    &&& !pre.v2 ==> {
        &&& post.ring == pre.ring
        &&& texts(post.backlog@) == ring_push(texts(pre.backlog@), pre.backlog_cap, line)
    }
}

/// The pattern of the search expression of a log view.
pub open spec fn pattern_of(g: Option<regex::Regex>) -> Option<Seq<char>> {
    match g {
        Some(re) => Some(regex_source(re)),
        None => None,
    }
}

/// Whether a service log view has taken a line.
#[verifier::opaque]
pub open spec fn svc_log_took(
    pre: ServiceLogsState,
    line: Seq<char>,
    color: Color,
    post: ServiceLogsState,
) -> bool {
    &&& post == (ServiceLogsState {
        recv: bumped(pre.recv),
        dropped: ring_dropped(pre.ring@.len(), pre.ring_cap, pre.dropped),
        ring: post.ring,
        ..pre
    })
    &&& line_views(post.ring@) == ring_push(
        line_views(pre.ring@),
        pre.ring_cap,
        parsed_line(line, color, pre.colorize, pattern_of(pre.grep_cache)),
    )
}

/// Whether a session has taken a piece of output.
#[verifier::opaque]
pub open spec fn session_took(pre: ExecState, data: Seq<char>, post: ExecState) -> bool {
    &&& post == (ExecState {
        recv: bumped(pre.recv),
        dropped: ring_dropped(pre.backlog@.len(), pre.backlog_cap, pre.dropped),
        backlog: post.backlog,
        ..pre
    })
    &&& texts(post.backlog@) == ring_push(texts(pre.backlog@), pre.backlog_cap, data)
}

proof fn lemma_line_push(v: Seq<ParsedLine>, cap: usize, x: ParsedLine)
    ensures
        line_views(
            (if v.len() >= cap && v.len() > 0 {
                v.drop_first()
            } else {
                v
            }).push(x),
        ) == ring_push(line_views(v), cap, x@),
{
    let w = if v.len() >= cap && v.len() > 0 {
        v.drop_first()
    } else {
        v
    };
    assert(line_views(w.push(x)) =~= ring_push(line_views(v), cap, x@));
}

proof fn lemma_text_push(v: Seq<String>, cap: usize, x: String)
    ensures
        texts(
            (if v.len() >= cap && v.len() > 0 {
                v.drop_first()
            } else {
                v
            }).push(x),
        ) == ring_push(texts(v), cap, x@),
{
    let w = if v.len() >= cap && v.len() > 0 {
        v.drop_first()
    } else {
        v
    };
    assert(texts(w.push(x)) =~= ring_push(texts(v), cap, x@));
}

fn push_line(ring: &mut VecDeque<ParsedLine>, cap: usize, item: ParsedLine)
    ensures
        line_views(final(ring)@) == ring_push(line_views(old(ring)@), cap, item@),
{
    let ghost v = ring@;
    if ring.len() >= cap {
        let _ = ring.pop_front();
    }
    ring.push_back(item);
    proof {
        lemma_line_push(v, cap, item);
        assert(ring@ =~= (if v.len() >= cap && v.len() > 0 {
            v.drop_first()
        } else {
            v
        }).push(item));
    }
}

fn push_text(ring: &mut VecDeque<String>, cap: usize, item: String)
    ensures
        texts(final(ring)@) == ring_push(texts(old(ring)@), cap, item@),
{
    let ghost v = ring@;
    if ring.len() >= cap {
        let _ = ring.pop_front();
    }
    ring.push_back(item);
    proof {
        lemma_text_push(v, cap, item);
        assert(ring@ =~= (if v.len() >= cap && v.len() > 0 {
            v.drop_first()
        } else {
            v
        }).push(item));
    }
}

impl LogsState {
    /// Take over the handle of a stream that has started.
    pub fn start(&mut self, cancel: Handle)
        ensures
            *final(self) == (LogsState { cancel: Some(cancel), running: true, ..*old(self) }),
    {
        self.cancel = Some(cancel);
        self.running = true;
    }

    /// Let go of a stream that has ended.
    pub fn finish(&mut self)
        ensures
            *final(self) == (LogsState { running: false, task: None, cancel: None, ..*old(self) }),
    {
        self.running = false;
        self.task = None;
        self.cancel = None;
    }

    /// Take a line of the stream.
    pub fn take_line(&mut self, styler: &LogStyler, color: Color, line: String)
        ensures
            log_took(*old(self), line@, color, *final(self)),
    {
        proof {
            reveal(log_took);
        }
        self.recv = bump(self.recv);
        if self.v2 {
            if self.ring.len() >= self.ring_cap {
                self.dropped = bump(self.dropped);
            }
            let parsed = parse_line(styler, line, color, self.colorize, self.grep_cache.as_ref());
            push_line(&mut self.ring, self.ring_cap, parsed);
        } else {
            if self.backlog.len() >= self.backlog_cap {
                self.dropped = bump(self.dropped);
            }
            push_text(&mut self.backlog, self.backlog_cap, line);
        }
    }
}

impl ServiceLogsState {
    /// Take a line of one of the streams.
    pub fn take_line(&mut self, styler: &LogStyler, color: Color, line: String)
        ensures
            svc_log_took(*old(self), line@, color, *final(self)),
    {
        proof {
            reveal(svc_log_took);
        }
        self.recv = bump(self.recv);
        if self.ring.len() >= self.ring_cap {
            self.dropped = bump(self.dropped);
        }
        let parsed = parse_line(styler, line, color, self.colorize, self.grep_cache.as_ref());
        push_line(&mut self.ring, self.ring_cap, parsed);
    }
}

impl ExecState {
    /// Take over the handles of a session that has started.
    pub fn start(&mut self, cancel: Handle, input: Handle, resize: Option<Handle>)
        ensures
            *final(self) == session_started(*old(self), cancel, input, resize),
    {
        self.cancel = Some(cancel);
        self.input = Some(input);
        self.resize = resize;
        self.running = true;
    }

    /// Let go of a session that has ended.
    pub fn finish(&mut self)
        ensures
            *final(self) == session_ended(*old(self)),
    {
        self.running = false;
        self.task = None;
        self.cancel = None;
        self.input = None;
        self.resize = None;
    }

    /// Let go of a session that has ended, and of the keyboard.
    pub fn close(&mut self)
        ensures
            *final(self) == (ExecState { focused: false, ..session_ended(*old(self)) }),
    {
        self.finish();
        self.focused = false;
    }

    /// Take a piece of output.
    pub fn take_data(&mut self, data: String)
        ensures
            session_took(*old(self), data@, *final(self)),
    {
        proof {
            reveal(session_took);
        }
        self.recv = bump(self.recv);
        if self.backlog.len() >= self.backlog_cap {
            self.dropped = bump(self.dropped);
        }
        push_text(&mut self.backlog, self.backlog_cap, data);
    }
}

// ---------------------------------------------------------------------------
// The state before and after an update

/// The place of the first window with an identity.
pub open spec fn window_at(ws: Seq<DetachedDetailsWindow>, id: WindowId, n: nat) -> Option<int>
    decreases n,
{
    if n == 0 {
        None
    } else {
        match window_at(ws, id, (n - 1) as nat) {
            Some(i) => Some(i),
            None => if ws[n - 1].meta.id == id {
                Some(n - 1)
            } else {
                None
            },
        }
    }
}

/// The place of the window that owns a stream, where it is still open.
pub open spec fn owner_at(ws: Seq<DetachedDetailsWindow>, owner: Option<WindowId>) -> Option<int> {
    match owner {
        Some(id) => window_at(ws, id, ws.len()),
        None => None,
    }
}

/// The state with another window at a place.
pub open spec fn with_window(pre: App, post: App, i: int, w: DetachedDetailsWindow) -> bool {
    &&& post == (App { detached: post.detached, ..pre })
    &&& post.detached@ =~= pre.detached@.update(i, w)
}

/// A window with another state.
pub open spec fn window_with(w: DetachedDetailsWindow, s: DetachedDetailsWindowState) -> DetachedDetailsWindow {
    DetachedDetailsWindow { state: s, ..w }
}

/// Whether an object is the selected one.
pub open spec fn is_selected(a: App, uid: Uid) -> bool {
    a.details.selected is Some && a.details.selected->0@ == uid@
}

/// The first row with a name in a namespace.
pub open spec fn named_row(rows: Seq<LiteView>, ns: Seq<char>, name: Seq<char>) -> Option<LiteView>
    decreases rows.len(),
{
    if rows.len() == 0 {
        None
    } else if rows[0].name == name && rows[0].namespace == Some(ns) {
        Some(rows[0])
    } else {
        named_row(rows.skip(1), ns, name)
    }
}

/// The row that a click in a graph asked for, where it is there by now.
pub open spec fn pending_row(pre: App, rows: Seq<LiteView>) -> Option<LiteView> {
    match pre.graph.pending_open {
        Some((rk, ns, name)) => match selected_kind(pre) {
            Some(cur) => if same_gvk(cur, rk@) {
                named_row(rows, ns@, name@)
            } else {
                None
            },
            None => None,
        },
        None => None,
    }
}

/// Whether a snapshot was taken over.
pub open spec fn took_snapshot(pre: App, items: Seq<LiteView>, post: App, e: StepView) -> bool {
    let rows = table(post.results).rows;
    let found = pending_row(pre, rows);
    let first = pre.results.rows@.len() == 0 && !pre.watch.ttfr_logged;
    &&& table(post.results) == table_snapshot(
        table(pre.results),
        items,
        column_views(pre.results.active_cols@),
    )
    &&& same_settings(pre.results, post.results)
    &&& post.results.sort_dirty
    &&& post == (App {
        results: post.results,
        last_error: None,
        watch: WatchState {
            select_t0: if first {
                None
            } else {
                pre.watch.select_t0
            },
            ttfr_logged: first || pre.watch.ttfr_logged,
            ..pre.watch
        },
        graph: GraphState {
            pending_open: if found is Some {
                None
            } else {
                pre.graph.pending_open
            },
            ..pre.graph
        },
        ..pre
    })
    &&& e == (StepView { batch: true, select: found, ..counted() })
}

/// The scores of search hits by the keys of the objects; a later hit hides an earlier
/// one.
pub open spec fn hit_map(hits: Seq<(Uid, i64)>, n: nat) -> Map<u128, i64>
    decreases n,
{
    if n == 0 {
        Map::empty()
    } else {
        hit_map(hits, (n - 1) as nat).insert(uid_key(hits[n - 1].0), hits[n - 1].1)
    }
}

/// A session that has ended.
pub open spec fn session_ended(s: ExecState) -> ExecState {
    ExecState { running: false, task: None, cancel: None, input: None, resize: None, ..s }
}

/// A session that has started.
pub open spec fn session_started(s: ExecState, cancel: Handle, input: Handle, resize: Option<Handle>) -> ExecState {
    ExecState { cancel: Some(cancel), input: Some(input), resize, running: true, ..s }
}

/// The container of a log view after the containers of a pod became known.
pub open spec fn container_after(cur: Option<String>, containers: Seq<String>) -> Option<Seq<char>> {
    match cur {
        Some(c) => if texts(containers).contains(c@) {
            Some(c@)
        } else if containers.len() > 0 {
            Some(containers[0]@)
        } else {
            None
        },
        None => if containers.len() > 0 {
            Some(containers[0]@)
        } else {
            None
        },
    }
}

/// The port choice after the ports of a pod became known.
pub open spec fn ports_after(pre: OpsState, ports: Vec<PortCandidate>) -> OpsState {
    let sel = match pre.pf_selected_idx {
        Some(i) => Some(i),
        None => if ports@.len() > 0 {
            Some(0usize)
        } else {
            None
        },
    };
    let chosen = sel is Some && sel->0 < ports@.len();
    OpsState {
        pf_candidates: ports,
        pf_selected_idx: sel,
        pf_remote: if chosen {
            ports@[sel->0 as int].port
        } else {
            pre.pf_remote
        },
        pf_local: if chosen && pre.pf_local == 0 {
            ports@[sel->0 as int].port
        } else {
            pre.pf_local
        },
        ..pre
    }
}

/// The message of a port forward.
pub open spec fn forward_text(ev: PortForwardEvent) -> Seq<char> {
    match ev {
        PortForwardEvent::Ready(a) => "pf: ready on "@ + a@,
        PortForwardEvent::Connected(p) => "pf: connected: "@ + p@,
        PortForwardEvent::Closed => "pf: closed"@,
        PortForwardEvent::Error(e) => "pf: error: "@ + e@,
    }
}

/// The weight of the message of a port forward.
pub open spec fn forward_kind(ev: PortForwardEvent) -> ToastKind {
    match ev {
        PortForwardEvent::Ready(_) => ToastKind::Success,
        PortForwardEvent::Connected(_) => ToastKind::Info,
        PortForwardEvent::Closed => ToastKind::Info,
        PortForwardEvent::Error(_) => ToastKind::Error,
    }
}

/// The status of the editor after a comparison.
pub open spec fn diff_status(live: Seq<char>, last: Option<String>) -> Seq<char> {
    match last {
        Some(s) => "diff live: "@ + live + "  \u{2022}  vs last-applied: "@ + s@,
        None => "diff live: "@ + live,
    }
}

/// Whether the editor has ended a task with a status.
pub open spec fn edit_ended(pre: App, status: Seq<char>, post: App) -> bool {
    &&& post == (App { edit: EditState { running: false, status: post.edit.status, ..pre.edit }, ..pre })
    &&& post.edit.status@ == status
}

/// Whether the details of an object were taken over.
pub open spec fn took_detail(pre: App, text: String, containers: Option<Vec<String>>, post: App) -> bool {
    post == (App {
        details: DetailsState { buffer: text, ..pre.details },
        edit: if pre.edit.dirty {
            pre.edit
        } else {
            EditState { original: text, buffer: text, ..pre.edit }
        },
        logs: match containers {
            Some(v) => LogsState { containers: v, ..pre.logs },
            None => pre.logs,
        },
        ..pre
    })
}

/// What an update of the rows, the namespaces and the search does.
pub open spec fn step_data(pre: App, u: UiUpdate, post: App, e: StepView) -> bool {
    match u {
        UiUpdate::Snapshot(items) => took_snapshot(pre, lite_views(items@), post, e),
        UiUpdate::Event(LiteEvent::Applied(lo)) => {
            &&& table(post.results) == table_applied(
                table(pre.results),
                lo@,
                column_views(pre.results.active_cols@),
            )
            &&& same_settings(pre.results, post.results)
            &&& post.results.sort_dirty == pre.results.sort_dirty
            &&& post == (App { results: post.results, ..pre })
            &&& e == counted()
        },
        UiUpdate::Event(LiteEvent::Deleted(lo)) => {
            &&& table(post.results) == table_deleted(table(pre.results), uid_key(lo.uid))
            &&& same_settings(pre.results, post.results)
            &&& post.results.sort_dirty == pre.results.sort_dirty
            &&& post == (App { results: post.results, ..pre })
            &&& e == counted()
        },
        UiUpdate::Error(err) => post == (App { last_error: Some(err), ..pre }) && e == counted(),
        UiUpdate::DetailError(err) => post == (App { last_error: Some(err), ..pre }) && e == counted(),
        UiUpdate::SearchError(err) => post == (App { last_error: Some(err), ..pre }) && e == counted(),
        UiUpdate::LogError(err) => post == (App { last_error: Some(err), ..pre }) && e == counted(),
        UiUpdate::SvcLogError(err) => post == (App { last_error: Some(err), ..pre }) && e == counted(),
        UiUpdate::Namespaces(v) => post == (App { namespaces: v, ..pre }) && e == counted(),
        UiUpdate::Epoch(n) => post == (App {
            results: ResultsState { epoch: Some(n), ..pre.results },
            ..pre
        }) && e == counted(),
        UiUpdate::SearchResults { hits, explain, partial } => {
            &&& post == (App {
                search: SearchState {
                    hits: post.search.hits,
                    explain: Some(explain),
                    partial,
                    ..pre.search
                },
                ..pre
            })
            &&& post.search.hits@ == hit_map(hits@, hits@.len())
            &&& e == counted()
        },
        _ => post == pre && e == ignored(),
    }
}

/// What an update of the selected object does.
pub open spec fn step_details(pre: App, u: UiUpdate, post: App, e: StepView) -> bool {
    match u {
        UiUpdate::Detail { uid, text, containers } => if is_selected(pre, uid) {
            &&& took_detail(pre, text, containers, post)
            &&& e == (StepView { repaint: pre.rendering_window_id is None, ..counted() })
        } else {
            post == pre && e == ignored()
        },
        UiUpdate::SecretReady { uid, entries } => if is_selected(pre, uid) {
            &&& post == (App { details: DetailsState { secret_entries: entries, ..pre.details }, ..pre })
            &&& e == counted()
        } else {
            post == pre && e == ignored()
        },
        UiUpdate::PodContainers(list) => {
            &&& post == (App {
                logs: LogsState { containers: list, container: post.logs.container, ..pre.logs },
                ..pre
            })
            &&& opt_text(post.logs.container) == container_after(pre.logs.container, list@)
            &&& e == counted()
        },
        UiUpdate::PodPorts(list) => post == (App { ops: ports_after(pre.ops, list), ..pre }) && e
            == counted(),
        UiUpdate::DescribeReady { uid, text } => if is_selected(pre, uid) {
            &&& post == (App {
                describe: DescribeState {
                    text,
                    error: None,
                    running: false,
                    uid: Some(uid),
                    ..pre.describe
                },
                ..pre
            })
            &&& e == repainted()
        } else {
            post == pre && e == ignored()
        },
        UiUpdate::DescribeError { uid, error } => if is_selected(pre, uid) {
            &&& post == (App {
                describe: DescribeState {
                    error: Some(error),
                    running: false,
                    uid: Some(uid),
                    ..pre.describe
                },
                ..pre
            })
            &&& e == repainted()
        } else {
            post == pre && e == ignored()
        },
        UiUpdate::GraphReady { uid, text } => if is_selected(pre, uid) {
            &&& post == (App {
                graph: GraphState {
                    text,
                    error: None,
                    running: false,
                    uid: Some(uid),
                    ..pre.graph
                },
                ..pre
            })
            &&& e == repainted()
        } else {
            post == pre && e == ignored()
        },
        UiUpdate::GraphModelReady { uid, model } => if is_selected(pre, uid) {
            &&& post == (App {
                graph: GraphState {
                    model: Some(model),
                    error: None,
                    running: false,
                    uid: Some(uid),
                    ..pre.graph
                },
                ..pre
            })
            &&& e == repainted()
        } else {
            post == pre && e == ignored()
        },
        UiUpdate::GraphError { uid, error } => if is_selected(pre, uid) {
            &&& post == (App {
                graph: GraphState {
                    error: Some(error),
                    running: false,
                    uid: Some(uid),
                    ..pre.graph
                },
                ..pre
            })
            &&& e == repainted()
        } else {
            post == pre && e == ignored()
        },
        _ => post == pre && e == ignored(),
    }
}

/// What an update of the windows of their own does.
pub open spec fn step_windows(pre: App, u: UiUpdate, post: App, e: StepView) -> bool {
    match u {
        UiUpdate::DetachedDetail { id, uid: _, text } => {
            &&& match window_at(pre.detached@, id, pre.detached@.len()) {
                Some(i) => with_window(
                    pre,
                    post,
                    i,
                    window_with(
                        pre.detached@[i],
                        DetachedDetailsWindowState {
                            buffer: text,
                            last_error: None,
                            ..pre.detached@[i].state
                        },
                    ),
                ),
                None => post == pre,
            }
            &&& e == repainted()
        },
        UiUpdate::DetachedDetailError { id, error } => {
            &&& match window_at(pre.detached@, id, pre.detached@.len()) {
                Some(i) => with_window(
                    pre,
                    post,
                    i,
                    window_with(
                        pre.detached@[i],
                        DetachedDetailsWindowState {
                            last_error: Some(error),
                            ..pre.detached@[i].state
                        },
                    ),
                ),
                None => post == pre,
            }
            &&& e == repainted()
        },
        UiUpdate::ReattachDetached { id, uid } => post == pre && e == (StepView {
            reattach: Some((id, uid@)),
            ..counted()
        }),
        _ => post == pre && e == ignored(),
    }
}

/// What an update of the log streams does.
pub open spec fn step_logs(pre: App, u: UiUpdate, color: Color, post: App, e: StepView) -> bool {
    match u {
        UiUpdate::LogStarted(cancel) => {
            &&& match owner_at(pre.detached@, pre.logs_owner) {
                Some(i) => {
                    let w = pre.detached@[i];
                    with_window(
                        pre,
                        post,
                        i,
                        window_with(
                            w,
                            DetachedDetailsWindowState {
                                logs: LogsState { cancel: Some(cancel), running: true, ..w.state.logs },
                                ..w.state
                            },
                        ),
                    )
                },
                None => post == (App {
                    logs: LogsState { cancel: Some(cancel), running: true, ..pre.logs },
                    ..pre
                }),
            }
            &&& e == repainted()
        },
        UiUpdate::LogLine(line) => {
            &&& match owner_at(pre.detached@, pre.logs_owner) {
                Some(i) => {
                    let w = pre.detached@[i];
                    let v = post.detached@[i];
                    &&& with_window(
                        pre,
                        post,
                        i,
                        window_with(w, DetachedDetailsWindowState { logs: v.state.logs, ..w.state }),
                    )
                    &&& log_took(w.state.logs, line@, color, v.state.logs)
                },
                None => post == (App { logs: post.logs, ..pre }) && log_took(
                    pre.logs,
                    line@,
                    color,
                    post.logs,
                ),
            }
            &&& e == repainted()
        },
        UiUpdate::LogEnded => {
            &&& match pre.logs_owner {
                Some(_) => match owner_at(pre.detached@, pre.logs_owner) {
                    Some(i) => {
                        let w = pre.detached@[i];
                        with_window(
                            App { logs_owner: None, ..pre },
                            post,
                            i,
                            window_with(
                                w,
                                DetachedDetailsWindowState {
                                    logs: LogsState {
                                        running: false,
                                        task: None,
                                        cancel: None,
                                        ..w.state.logs
                                    },
                                    ..w.state
                                },
                            ),
                        )
                    },
                    None => post == (App { logs_owner: None, ..pre }),
                },
                None => post == (App {
                    logs: LogsState { running: false, task: None, cancel: None, ..pre.logs },
                    ..pre
                }),
            }
            &&& e == toasted("logs: ended"@, ToastKind::Info)
        },
        UiUpdate::SvcLogStarted => {
            &&& match owner_at(pre.detached@, pre.svc_logs_owner) {
                Some(i) => {
                    let w = pre.detached@[i];
                    with_window(
                        pre,
                        post,
                        i,
                        window_with(
                            w,
                            DetachedDetailsWindowState {
                                svc_logs: ServiceLogsState { running: true, ..w.state.svc_logs },
                                ..w.state
                            },
                        ),
                    )
                },
                None => post == (App {
                    svc_logs: ServiceLogsState { running: true, ..pre.svc_logs },
                    ..pre
                }),
            }
            &&& e == repainted()
        },
        UiUpdate::SvcLogLine(line) => {
            &&& match owner_at(pre.detached@, pre.svc_logs_owner) {
                Some(i) => {
                    let w = pre.detached@[i];
                    let v = post.detached@[i];
                    &&& with_window(
                        pre,
                        post,
                        i,
                        window_with(
                            w,
                            DetachedDetailsWindowState { svc_logs: v.state.svc_logs, ..w.state },
                        ),
                    )
                    &&& svc_log_took(w.state.svc_logs, line@, color, v.state.svc_logs)
                },
                None => post == (App { svc_logs: post.svc_logs, ..pre }) && svc_log_took(
                    pre.svc_logs,
                    line@,
                    color,
                    post.svc_logs,
                ),
            }
            &&& e == repainted()
        },
        UiUpdate::SvcLogEnded => post == (App {
            svc_logs: ServiceLogsState { running: false, ..pre.svc_logs },
            ..pre
        }) && e == counted(),
        _ => post == pre && e == ignored(),
    }
}

/// What an update of the sessions does.
pub open spec fn step_session(pre: App, u: UiUpdate, post: App, e: StepView) -> bool {
    match u {
        UiUpdate::ExecStarted { cancel, input, resize } => {
            &&& match owner_at(pre.detached@, pre.exec_owner) {
                Some(i) => {
                    let w = pre.detached@[i];
                    with_window(
                        pre,
                        post,
                        i,
                        window_with(
                            w,
                            DetachedDetailsWindowState {
                                session: session_started(w.state.session, cancel, input, resize),
                                ..w.state
                            },
                        ),
                    )
                },
                None => post == (App {
                    session: session_started(pre.session, cancel, input, resize),
                    ..pre
                }),
            }
            &&& e == counted()
        },
        UiUpdate::ExecData(s) => match owner_at(pre.detached@, pre.exec_owner) {
            Some(i) => {
                let w = pre.detached@[i];
                let v = post.detached@[i];
                let shown = !w.state.session.mode_oneshot && w.state.session.term_open;
                &&& with_window(
                    pre,
                    post,
                    i,
                    window_with(
                        w,
                        DetachedDetailsWindowState { session: v.state.session, ..w.state },
                    ),
                )
                &&& session_took(w.state.session, s@, v.state.session)
                &&& e == (StepView {
                    feed: if shown {
                        Some((Some(w.meta.id), s@))
                    } else {
                        None
                    },
                    ..counted()
                })
            },
            None => {
                let shown = !pre.session.mode_oneshot && pre.session.term_open;
                &&& post == (App { session: post.session, ..pre })
                &&& session_took(pre.session, s@, post.session)
                &&& e == (StepView {
                    feed: if shown {
                        Some((None, s@))
                    } else {
                        None
                    },
                    ..counted()
                })
            },
        },
        UiUpdate::ExecError(err) => {
            &&& match pre.exec_owner {
                Some(_) => match owner_at(pre.detached@, pre.exec_owner) {
                    Some(i) => {
                        let w = pre.detached@[i];
                        with_window(
                            App { last_error: Some(err), ..pre },
                            post,
                            i,
                            window_with(
                                w,
                                DetachedDetailsWindowState {
                                    session: session_ended(w.state.session),
                                    ..w.state
                                },
                            ),
                        )
                    },
                    None => post == (App { last_error: Some(err), ..pre }),
                },
                None => post == (App {
                    last_error: Some(err),
                    session: session_ended(pre.session),
                    ..pre
                }),
            }
            &&& e == toasted("exec: "@ + err@, ToastKind::Error)
        },
        UiUpdate::ExecEnded => {
            &&& match pre.exec_owner {
                Some(_) => match owner_at(pre.detached@, pre.exec_owner) {
                    Some(i) => {
                        let w = pre.detached@[i];
                        with_window(
                            App { exec_owner: None, ..pre },
                            post,
                            i,
                            window_with(
                                w,
                                DetachedDetailsWindowState {
                                    session: ExecState {
                                        focused: false,
                                        ..session_ended(w.state.session)
                                    },
                                    ..w.state
                                },
                            ),
                        )
                    },
                    None => post == (App { exec_owner: None, ..pre }),
                },
                None => post == (App {
                    session: ExecState { focused: false, ..session_ended(pre.session) },
                    ..pre
                }),
            }
            &&& e == toasted("exec: ended"@, ToastKind::Info)
        },
        _ => post == pre && e == ignored(),
    }
}

/// What an update of the editor does.
pub open spec fn step_edit(pre: App, u: UiUpdate, post: App, e: StepView) -> bool {
    match u {
        UiUpdate::EditStatus(s) => post == (App { edit: EditState { status: s, ..pre.edit }, ..pre }) && e
            == counted(),
        UiUpdate::EditDryRunDone { summary } => {
            &&& edit_ended(pre, "dry-run: "@ + summary@, post)
            &&& e == toasted("dry-run: "@ + summary@, ToastKind::Info)
        },
        UiUpdate::EditDiffDone { live, last } => {
            &&& edit_ended(pre, diff_status(live@, last), post)
            &&& e == toasted(diff_status(live@, last), ToastKind::Info)
        },
        UiUpdate::EditApplyDone { message } => {
            &&& edit_ended(pre, message@, post)
            &&& e == toasted(message@, ToastKind::Success)
        },
        _ => post == pre && e == ignored(),
    }
}

/// What an update of the operations and the statistics does.
pub open spec fn step_ops(pre: App, u: UiUpdate, now: u64, post: App, e: StepView) -> bool {
    match u {
        UiUpdate::OpsCaps(c) => post == (App {
            ops: OpsState { caps: Some(c), caps_task: None, ..pre.ops },
            ..pre
        }) && e == counted(),
        UiUpdate::OpsStatus(s) => {
            &&& post == (App { log: post.log, ..pre })
            &&& post.log@ == s@
            &&& e == toasted(s@, ToastKind::Success)
        },
        UiUpdate::PfStarted(cancel) => {
            &&& post == (App {
                ops: OpsState { pf_cancel: Some(cancel), pf_running: true, ..pre.ops },
                ..pre
            })
            &&& e == toasted("pf: started"@, ToastKind::Info)
        },
        UiUpdate::PfEvent(ev) => {
            &&& post == (App {
                log: post.log,
                ops: match ev {
                    PortForwardEvent::Ready(addr) => OpsState { pf_ready_addr: Some(addr), ..pre.ops },
                    _ => pre.ops,
                },
                ..pre
            })
            &&& post.log@ == forward_text(ev)
            &&& e == toasted(forward_text(ev), forward_kind(ev))
        },
        UiUpdate::PfEnded => {
            &&& post == (App {
                ops: OpsState { pf_running: false, pf_cancel: None, pf_ready_addr: None, ..pre.ops },
                ..pre
            })
            &&& e == toasted("pf: ended"@, ToastKind::Info)
        },
        UiUpdate::StatsReady(s) => post == (App {
            stats: StatsState {
                data: Some(s),
                loading: false,
                last_fetched: Some(now),
                ..pre.stats
            },
            ..pre
        }) && e == counted(),
        UiUpdate::MetricsReady { index_bytes, index_docs } => post == (App {
            stats: StatsState { index_bytes, index_docs, ..pre.stats },
            ..pre
        }) && e == counted(),
        _ => post == pre && e == ignored(),
    }
}

/// What an update does: the state before it, the update, the default colour of log
/// text and the time in milliseconds, the state after it, and what the window has to do.
pub open spec fn step(pre: App, u: UiUpdate, color: Color, now: u64, post: App, e: StepView) -> bool {
    match u {
        UiUpdate::Snapshot(_)
        | UiUpdate::Event(_)
        | UiUpdate::Error(_)
        | UiUpdate::DetailError(_)
        | UiUpdate::SearchError(_)
        | UiUpdate::LogError(_)
        | UiUpdate::SvcLogError(_)
        | UiUpdate::Namespaces(_)
        | UiUpdate::Epoch(_)
        | UiUpdate::SearchResults { .. } => step_data(pre, u, post, e),
        UiUpdate::Detail { .. }
        | UiUpdate::SecretReady { .. }
        | UiUpdate::PodContainers(_)
        | UiUpdate::PodPorts(_)
        | UiUpdate::DescribeReady { .. }
        | UiUpdate::DescribeError { .. }
        | UiUpdate::GraphReady { .. }
        | UiUpdate::GraphModelReady { .. }
        | UiUpdate::GraphError { .. } => step_details(pre, u, post, e),
        UiUpdate::DetachedDetail { .. }
        | UiUpdate::DetachedDetailError { .. }
        | UiUpdate::ReattachDetached { .. } => step_windows(pre, u, post, e),
        UiUpdate::LogStarted(_)
        | UiUpdate::LogLine(_)
        | UiUpdate::LogEnded
        | UiUpdate::SvcLogStarted
        | UiUpdate::SvcLogLine(_)
        | UiUpdate::SvcLogEnded => step_logs(pre, u, color, post, e),
        UiUpdate::ExecStarted { .. }
        | UiUpdate::ExecData(_)
        | UiUpdate::ExecError(_)
        | UiUpdate::ExecEnded => step_session(pre, u, post, e),
        UiUpdate::EditStatus(_)
        | UiUpdate::EditDryRunDone { .. }
        | UiUpdate::EditDiffDone { .. }
        | UiUpdate::EditApplyDone { .. } => step_edit(pre, u, post, e),
        UiUpdate::OpsCaps(_)
        | UiUpdate::OpsStatus(_)
        | UiUpdate::PfStarted(_)
        | UiUpdate::PfEvent(_)
        | UiUpdate::PfEnded
        | UiUpdate::StatsReady(_)
        | UiUpdate::MetricsReady { .. } => step_ops(pre, u, now, post, e),
    }
}

impl App {
    /// The place of the first window with an identity.
    pub fn find_window(&self, id: WindowId) -> (r: Option<usize>)
        ensures
            match r {
                Some(i) => {
                    &&& i < self.detached@.len()
                    &&& window_at(self.detached@, id, self.detached@.len()) == Some(i as int)
                    &&& self.detached@[i as int].meta.id == id
                },
                None => window_at(self.detached@, id, self.detached@.len()) is None,
            },
    {
        let n: usize = self.detached.len();
        let mut i: usize = 0;
        while i < n
            invariant
                i <= n,
                n == self.detached@.len(),
                window_at(self.detached@, id, i as nat) is None,
            decreases n - i,
        {
            if self.detached[i].meta.id == id {
                proof {
                    lemma_window_at(self.detached@, id, (i + 1) as nat, n as nat);
                }
                return Some(i);
            }
            i += 1;
        }
        None
    }

    fn find_owner(&self, owner: Option<WindowId>) -> (r: Option<usize>)
        ensures
            match r {
                Some(i) => {
                    &&& i < self.detached@.len()
                    &&& owner_at(self.detached@, owner) == Some(i as int)
                    &&& Some(self.detached@[i as int].meta.id) == owner
                },
                None => owner_at(self.detached@, owner) is None,
            },
    {
        match owner {
            Some(id) => self.find_window(id),
            None => None,
        }
    }

    fn find_named(&self, ns: &str, name: &str) -> (r: Option<LiteObj>)
        ensures
            match r {
                Some(o) => named_row(table(self.results).rows, ns@, name@) == Some(o@),
                None => named_row(table(self.results).rows, ns@, name@) is None,
            },
    {
        let n: usize = self.results.rows.len();
        let ghost rows = table(self.results).rows;
        let mut i: usize = 0;
        assert(rows.skip(0) =~= rows);
        while i < n
            invariant
                i <= n,
                n == self.results.rows@.len(),
                rows == table(self.results).rows,
                named_row(rows, ns@, name@) == named_row(rows.skip(i as int), ns@, name@),
            decreases n - i,
        {
            let row = &self.results.rows[i];
            assert(rows.skip(i as int)[0] == row@);
            if same_text(row.name.as_str(), name) && option_is(&row.namespace, ns) {
                return Some(row.clone());
            }
            assert(rows.skip(i as int).skip(1) =~= rows.skip(i + 1));
            i += 1;
        }
        None
    }

    fn take_snapshot(&mut self, items: Vec<LiteObj>) -> (e: Step)
        ensures
            took_snapshot(*old(self), lite_views(items@), *final(self), e@),
    {
        let first = self.results.rows.len() == 0 && !self.watch.ttfr_logged;
        self.results.apply_snapshot(items);
        if first {
            self.watch.select_t0 = None;
            self.watch.ttfr_logged = true;
        }
        self.last_error = None;
        let found: Option<LiteObj> = match (&self.graph.pending_open, self.current_selected_kind()) {
            (Some((rk, ns, name)), Some(cur)) => if gvk_equal(cur, rk) {
                self.find_named(ns.as_str(), name.as_str())
            } else {
                None
            },
            _ => None,
        };
        if found.is_some() {
            self.graph.pending_open = None;
        }
        Step {
            processed: true,
            batch: true,
            repaint: false,
            toast: None,
            select: found,
            reattach: None,
            feed: None,
        }
    }

    fn take_containers(&mut self, list: Vec<String>)
        ensures
            *final(self) == (App {
                logs: LogsState {
                    containers: list,
                    container: final(self).logs.container,
                    ..old(self).logs
                },
                ..*old(self)
            }),
            opt_text(final(self).logs.container) == container_after(old(self).logs.container, list@),
    {
        let known = match &self.logs.container {
            Some(cur) => contains_string(&list, cur.as_str()),
            None => false,
        };
        if !known {
            self.logs.container = if list.len() > 0 {
                Some(list[0].clone())
            } else {
                None
            };
        }
        self.logs.containers = list;
    }

    fn take_ports(&mut self, list: Vec<PortCandidate>)
        ensures
            *final(self) == (App { ops: ports_after(old(self).ops, list), ..*old(self) }),
    {
        if self.ops.pf_selected_idx.is_none() && list.len() > 0 {
            self.ops.pf_selected_idx = Some(0);
        }
        if let Some(sel) = self.ops.pf_selected_idx {
            if sel < list.len() {
                let port: u16 = list[sel].port;
                self.ops.pf_remote = port;
                if self.ops.pf_local == 0 {
                    self.ops.pf_local = port;
                }
            }
        }
        self.ops.pf_candidates = list;
    }

    fn take_hits(&mut self, hits: &Vec<(Uid, i64)>)
        ensures
            *final(self) == (App {
                search: SearchState { hits: final(self).search.hits, ..old(self).search },
                ..*old(self)
            }),
            final(self).search.hits@ == hit_map(hits@, hits@.len()),
    {
        self.search.hits.clear();
        let mut i: usize = 0;
        while i < hits.len()
            invariant
                i <= hits.len(),
                *self == (App {
                    search: SearchState { hits: self.search.hits, ..old(self).search },
                    ..*old(self)
                }),
                self.search.hits@ == hit_map(hits@, i as nat),
            decreases hits.len() - i,
        {
            let key = key_of(&hits[i].0);
            self.search.hits.insert(key, hits[i].1);
            i += 1;
        }
    }

    fn take_forward(&mut self, ev: PortForwardEvent) -> (e: Step)
        ensures
            step_ops(*old(self), UiUpdate::PfEvent(ev), 0, *final(self), e@),
    {
        let (text, kind) = match &ev {
            PortForwardEvent::Ready(addr) => (cat2("pf: ready on ", addr.as_str()), ToastKind::Success),
            PortForwardEvent::Connected(peer) => (
                cat2("pf: connected: ", peer.as_str()),
                ToastKind::Info,
            ),
            PortForwardEvent::Closed => (copy_text("pf: closed"), ToastKind::Info),
            PortForwardEvent::Error(err) => (cat2("pf: error: ", err.as_str()), ToastKind::Error),
        };
        if let PortForwardEvent::Ready(addr) = ev {
            self.ops.pf_ready_addr = Some(addr);
        }
        self.log = text.clone();
        step_toasted(text, kind)
    }

    #[verifier::rlimit(40)]
    #[verifier::spinoff_prover]
    fn apply_data(&mut self, u: UiUpdate) -> (e: Step)
        ensures
            step_data(*old(self), u, *final(self), e@),
    {
        match u {
            UiUpdate::Snapshot(items) => self.take_snapshot(items),
            UiUpdate::Event(LiteEvent::Applied(lo)) => {
                self.results.apply_applied(lo);
                step_counted()
            },
            UiUpdate::Event(LiteEvent::Deleted(lo)) => {
                self.results.apply_deleted(&lo.uid);
                step_counted()
            },
            UiUpdate::Error(err) => {
                self.last_error = Some(err);
                step_counted()
            },
            UiUpdate::DetailError(err) => {
                self.last_error = Some(err);
                step_counted()
            },
            UiUpdate::SearchError(err) => {
                self.last_error = Some(err);
                step_counted()
            },
            UiUpdate::LogError(err) => {
                self.last_error = Some(err);
                step_counted()
            },
            UiUpdate::SvcLogError(err) => {
                self.last_error = Some(err);
                step_counted()
            },
            UiUpdate::Namespaces(v) => {
                self.namespaces = v;
                step_counted()
            },
            UiUpdate::Epoch(n) => {
                self.results.epoch = Some(n);
                step_counted()
            },
            UiUpdate::SearchResults { hits, explain, partial } => {
                self.take_hits(&hits);
                self.search.explain = Some(explain);
                self.search.partial = partial;
                step_counted()
            },
            _ => step_ignored(),
        }
    }

    #[verifier::rlimit(40)]
    #[verifier::spinoff_prover]
    fn apply_details(&mut self, u: UiUpdate) -> (e: Step)
        ensures
            step_details(*old(self), u, *final(self), e@),
    {
        match u {
            UiUpdate::Detail { uid, text, containers } => {
                if uid_is(&self.details.selected, &uid) {
                    self.details.buffer = text.clone();
                    if !self.edit.dirty {
                        self.edit.original = text.clone();
                        self.edit.buffer = text;
                    }
                    if let Some(v) = containers {
                        self.logs.containers = v;
                    }
                    if self.rendering_window_id.is_none() {
                        step_repainted()
                    } else {
                        step_counted()
                    }
                } else {
                    step_ignored()
                }
            },
            UiUpdate::SecretReady { uid, entries } => {
                if uid_is(&self.details.selected, &uid) {
                    self.details.secret_entries = entries;
                    step_counted()
                } else {
                    step_ignored()
                }
            },
            UiUpdate::PodContainers(list) => {
                self.take_containers(list);
                step_counted()
            },
            UiUpdate::PodPorts(list) => {
                self.take_ports(list);
                step_counted()
            },
            UiUpdate::DescribeReady { uid, text } => {
                if uid_is(&self.details.selected, &uid) {
                    self.describe.text = text;
                    self.describe.error = None;
                    self.describe.running = false;
                    self.describe.uid = Some(uid);
                    step_repainted()
                } else {
                    step_ignored()
                }
            },
            UiUpdate::DescribeError { uid, error } => {
                if uid_is(&self.details.selected, &uid) {
                    self.describe.error = Some(error);
                    self.describe.running = false;
                    self.describe.uid = Some(uid);
                    step_repainted()
                } else {
                    step_ignored()
                }
            },
            UiUpdate::GraphReady { uid, text } => {
                if uid_is(&self.details.selected, &uid) {
                    self.graph.text = text;
                    self.graph.error = None;
                    self.graph.running = false;
                    self.graph.uid = Some(uid);
                    step_repainted()
                } else {
                    step_ignored()
                }
            },
            UiUpdate::GraphModelReady { uid, model } => {
                if uid_is(&self.details.selected, &uid) {
                    self.graph.model = Some(model);
                    self.graph.error = None;
                    self.graph.running = false;
                    self.graph.uid = Some(uid);
                    step_repainted()
                } else {
                    step_ignored()
                }
            },
            UiUpdate::GraphError { uid, error } => {
                if uid_is(&self.details.selected, &uid) {
                    self.graph.error = Some(error);
                    self.graph.running = false;
                    self.graph.uid = Some(uid);
                    step_repainted()
                } else {
                    step_ignored()
                }
            },
            _ => step_ignored(),
        }
    }

    fn apply_windows(&mut self, u: UiUpdate) -> (e: Step)
        ensures
            step_windows(*old(self), u, *final(self), e@),
    {
        match u {
            UiUpdate::DetachedDetail { id, uid: _, text } => {
                if let Some(i) = self.find_window(id) {
                    self.detached[i].state.buffer = text;
                    self.detached[i].state.last_error = None;
                }
                step_repainted()
            },
            UiUpdate::DetachedDetailError { id, error } => {
                if let Some(i) = self.find_window(id) {
                    self.detached[i].state.last_error = Some(error);
                }
                step_repainted()
            },
            UiUpdate::ReattachDetached { id, uid } => Step {
                processed: true,
                batch: false,
                repaint: false,
                toast: None,
                select: None,
                reattach: Some((id, uid)),
                feed: None,
            },
            _ => step_ignored(),
        }
    }

    #[verifier::rlimit(40)]
    #[verifier::spinoff_prover]
    fn apply_logs(&mut self, u: UiUpdate, styler: &LogStyler, color: Color) -> (e: Step)
        ensures
            step_logs(*old(self), u, color, *final(self), e@),
    {
        match u {
            UiUpdate::LogStarted(cancel) => {
                match self.find_owner(self.logs_owner) {
                    Some(i) => {
                        self.detached[i].state.logs.start(cancel);
                    },
                    None => {
                        self.logs.start(cancel);
                    },
                }
                step_repainted()
            },
            UiUpdate::LogLine(line) => {
                match self.find_owner(self.logs_owner) {
                    Some(i) => {
                        self.detached[i].state.logs.take_line(styler, color, line);
                    },
                    None => {
                        self.logs.take_line(styler, color, line);
                    },
                }
                step_repainted()
            },
            UiUpdate::LogEnded => {
                match self.logs_owner {
                    Some(_) => {
                        let at = self.find_owner(self.logs_owner);
                        self.logs_owner = None;
                        if let Some(i) = at {
                            self.detached[i].state.logs.finish();
                        }
                    },
                    None => {
                        self.logs.finish();
                    },
                }
                step_toasted(copy_text("logs: ended"), ToastKind::Info)
            },
            UiUpdate::SvcLogStarted => {
                match self.find_owner(self.svc_logs_owner) {
                    Some(i) => {
                        self.detached[i].state.svc_logs.running = true;
                    },
                    None => {
                        self.svc_logs.running = true;
                    },
                }
                step_repainted()
            },
            UiUpdate::SvcLogLine(line) => {
                match self.find_owner(self.svc_logs_owner) {
                    Some(i) => {
                        self.detached[i].state.svc_logs.take_line(styler, color, line);
                    },
                    None => {
                        self.svc_logs.take_line(styler, color, line);
                    },
                }
                step_repainted()
            },
            UiUpdate::SvcLogEnded => {
                self.svc_logs.running = false;
                step_counted()
            },
            _ => step_ignored(),
        }
    }

    #[verifier::rlimit(40)]
    #[verifier::spinoff_prover]
    fn apply_session(&mut self, u: UiUpdate) -> (e: Step)
        ensures
            step_session(*old(self), u, *final(self), e@),
    {
        match u {
            UiUpdate::ExecStarted { cancel, input, resize } => {
                match self.find_owner(self.exec_owner) {
                    Some(i) => {
                        self.detached[i].state.session.start(cancel, input, resize);
                    },
                    None => {
                        self.session.start(cancel, input, resize);
                    },
                }
                step_counted()
            },
            UiUpdate::ExecData(s) => {
                let mut e = step_counted();
                match self.find_owner(self.exec_owner) {
                    Some(i) => {
                        if !self.detached[i].state.session.mode_oneshot && self.detached[i].state.session.term_open {
                            e.feed = Some((Some(self.detached[i].meta.id), s.clone()));
                        }
                        self.detached[i].state.session.take_data(s);
                    },
                    None => {
                        if !self.session.mode_oneshot && self.session.term_open {
                            e.feed = Some((None, s.clone()));
                        }
                        self.session.take_data(s);
                    },
                }
                e
            },
            UiUpdate::ExecError(err) => {
                let text = cat2("exec: ", err.as_str());
                self.last_error = Some(err);
                match self.exec_owner {
                    Some(_) => {
                        if let Some(i) = self.find_owner(self.exec_owner) {
                            self.detached[i].state.session.finish();
                        }
                    },
                    None => {
                        self.session.finish();
                    },
                }
                step_toasted(text, ToastKind::Error)
            },
            UiUpdate::ExecEnded => {
                match self.exec_owner {
                    Some(_) => {
                        let at = self.find_owner(self.exec_owner);
                        self.exec_owner = None;
                        if let Some(i) = at {
                            self.detached[i].state.session.close();
                        }
                    },
                    None => {
                        self.session.close();
                    },
                }
                step_toasted(copy_text("exec: ended"), ToastKind::Info)
            },
            _ => step_ignored(),
        }
    }

    fn apply_edit(&mut self, u: UiUpdate) -> (e: Step)
        ensures
            step_edit(*old(self), u, *final(self), e@),
    {
        match u {
            UiUpdate::EditStatus(s) => {
                self.edit.status = s;
                step_counted()
            },
            UiUpdate::EditDryRunDone { summary } => {
                let t = cat2("dry-run: ", summary.as_str());
                self.edit.running = false;
                self.edit.status = t.clone();
                step_toasted(t, ToastKind::Info)
            },
            UiUpdate::EditDiffDone { live, last } => {
                let t = match &last {
                    Some(s) => cat4(
                        "diff live: ",
                        live.as_str(),
                        "  \u{2022}  vs last-applied: ",
                        s.as_str(),
                    ),
                    None => cat2("diff live: ", live.as_str()),
                };
                self.edit.running = false;
                self.edit.status = t.clone();
                step_toasted(t, ToastKind::Info)
            },
            UiUpdate::EditApplyDone { message } => {
                self.edit.running = false;
                self.edit.status = message.clone();
                step_toasted(message, ToastKind::Success)
            },
            _ => step_ignored(),
        }
    }

    fn apply_ops(&mut self, u: UiUpdate, now: u64) -> (e: Step)
        ensures
            step_ops(*old(self), u, now, *final(self), e@),
    {
        match u {
            UiUpdate::OpsCaps(c) => {
                self.ops.caps = Some(c);
                self.ops.caps_task = None;
                step_counted()
            },
            UiUpdate::OpsStatus(s) => {
                self.log = s.clone();
                step_toasted(s, ToastKind::Success)
            },
            UiUpdate::PfStarted(cancel) => {
                self.ops.pf_cancel = Some(cancel);
                self.ops.pf_running = true;
                step_toasted(copy_text("pf: started"), ToastKind::Info)
            },
            UiUpdate::PfEvent(ev) => self.take_forward(ev),
            UiUpdate::PfEnded => {
                self.ops.pf_running = false;
                self.ops.pf_cancel = None;
                self.ops.pf_ready_addr = None;
                step_toasted(copy_text("pf: ended"), ToastKind::Info)
            },
            UiUpdate::StatsReady(s) => {
                self.stats.data = Some(s);
                self.stats.loading = false;
                self.stats.last_fetched = Some(now);
                step_counted()
            },
            UiUpdate::MetricsReady { index_bytes, index_docs } => {
                self.stats.index_bytes = index_bytes;
                self.stats.index_docs = index_docs;
                step_counted()
            },
            _ => step_ignored(),
        }
    }

    /// Apply an update.
    pub fn apply_update(&mut self, u: UiUpdate, styler: &LogStyler, color: Color, now: u64) -> (e: Step)
        ensures
            step(*old(self), u, color, now, *final(self), e@),
    {
        match u {
            UiUpdate::Snapshot(_)
            | UiUpdate::Event(_)
            | UiUpdate::Error(_)
            | UiUpdate::DetailError(_)
            | UiUpdate::SearchError(_)
            | UiUpdate::LogError(_)
            | UiUpdate::SvcLogError(_)
            | UiUpdate::Namespaces(_)
            | UiUpdate::Epoch(_)
            | UiUpdate::SearchResults { .. } => self.apply_data(u),
            UiUpdate::Detail { .. }
            | UiUpdate::SecretReady { .. }
            | UiUpdate::PodContainers(_)
            | UiUpdate::PodPorts(_)
            | UiUpdate::DescribeReady { .. }
            | UiUpdate::DescribeError { .. }
            | UiUpdate::GraphReady { .. }
            | UiUpdate::GraphModelReady { .. }
            | UiUpdate::GraphError { .. } => self.apply_details(u),
            UiUpdate::DetachedDetail { .. }
            | UiUpdate::DetachedDetailError { .. }
            | UiUpdate::ReattachDetached { .. } => self.apply_windows(u),
            UiUpdate::LogStarted(_)
            | UiUpdate::LogLine(_)
            | UiUpdate::LogEnded
            | UiUpdate::SvcLogStarted
            | UiUpdate::SvcLogLine(_)
            | UiUpdate::SvcLogEnded => self.apply_logs(u, styler, color),
            UiUpdate::ExecStarted { .. }
            | UiUpdate::ExecData(_)
            | UiUpdate::ExecError(_)
            | UiUpdate::ExecEnded => self.apply_session(u),
            UiUpdate::EditStatus(_)
            | UiUpdate::EditDryRunDone { .. }
            | UiUpdate::EditDiffDone { .. }
            | UiUpdate::EditApplyDone { .. } => self.apply_edit(u),
            UiUpdate::OpsCaps(_)
            | UiUpdate::OpsStatus(_)
            | UiUpdate::PfStarted(_)
            | UiUpdate::PfEvent(_)
            | UiUpdate::PfEnded
            | UiUpdate::StatsReady(_)
            | UiUpdate::MetricsReady { .. } => self.apply_ops(u, now),
        }
    }
}

proof fn lemma_window_at(ws: Seq<DetachedDetailsWindow>, id: WindowId, m: nat, n: nat)
    requires
        m <= n <= ws.len(),
        window_at(ws, id, m) is Some,
    ensures
        window_at(ws, id, n) == window_at(ws, id, m),
    decreases n,
{
    if m < n {
        lemma_window_at(ws, id, m, (n - 1) as nat);
    }
}

// ---------------------------------------------------------------------------
// What updates do

/// A ring takes each new item as its last, and lets the first go only where it is full. What was
/// let go is counted.
pub proof fn law_ring<A>(ring: Seq<A>, cap: usize, item: A, dropped: usize, i: int)
    requires
        cap > 0,
        ring.len() <= cap,
        dropped < usize::MAX,
    ensures
        ring_push(ring, cap, item).len() <= cap,
        ring_push(ring, cap, item).last() == item,
        ring.len() < cap ==> ring_push(ring, cap, item).len() == ring.len() + 1 && ring_dropped(ring.len(), cap, dropped)
            == dropped,
        ring.len() < cap && 0 <= i < ring.len() ==> ring_push(ring, cap, item)[i] == ring[i],
        ring.len() == cap ==> ring_push(ring, cap, item).len() == cap && ring_dropped(ring.len(), cap, dropped) == dropped
            + 1,
        ring.len() == cap && 0 <= i < ring.len() - 1 ==> ring_push(ring, cap, item)[i] == ring[i + 1],
{
}

/// A line of a log is kept as the last, in the ring or in the backlog, and counted.
pub proof fn law_log_line(pre: LogsState, line: Seq<char>, color: Color, post: LogsState)
    requires
        log_took(pre, line, color, post),
        pre.recv < usize::MAX,
    ensures
        post.recv == pre.recv + 1,
        !pre.v2 ==> post.backlog@.len() > 0 && post.backlog@.last()@ == line && post.ring == pre.ring,
        pre.v2 ==> post.ring@.len() > 0 && post.backlog == pre.backlog,
        post.running == pre.running,
{
    reveal(log_took);
    if !pre.v2 {
        let all = ring_push(texts(pre.backlog@), pre.backlog_cap, line);
        assert(all.len() > 0 && all.last() == line);
        assert(texts(post.backlog@) == all);
        assert(texts(post.backlog@).len() == post.backlog@.len());
        assert(texts(post.backlog@).last() == post.backlog@.last()@);
    } else {
        let all = ring_push(
            line_views(pre.ring@),
            pre.ring_cap,
            parsed_line(line, color, pre.colorize, pattern_of(pre.grep_cache)),
        );
        assert(all.len() > 0);
        assert(line_views(post.ring@).len() == post.ring@.len());
    }
}

/// What was read of an object is shown; a text that is being edited is not touched by it.
pub proof fn law_took_detail(pre: App, text: String, containers: Option<Vec<String>>, post: App)
    requires
        took_detail(pre, text, containers, post),
    ensures
        post.details.buffer@ == text@,
        pre.edit.dirty ==> post.edit == pre.edit,
        !pre.edit.dirty ==> post.edit.buffer@ == text@ && post.edit.original@ == text@ && !post.edit.dirty,
        containers is None ==> post.logs == pre.logs,
{
}

/// What belongs to an object that is no longer selected changes nothing.
pub proof fn law_late_replies(pre: App, u: UiUpdate, color: Color, now: u64, post: App, e: StepView)
    requires
        step(pre, u, color, now, post, e),
        match u {
            UiUpdate::Detail { uid, .. } => !is_selected(pre, uid),
            UiUpdate::SecretReady { uid, .. } => !is_selected(pre, uid),
            UiUpdate::DescribeReady { uid, .. } => !is_selected(pre, uid),
            UiUpdate::DescribeError { uid, .. } => !is_selected(pre, uid),
            UiUpdate::GraphReady { uid, .. } => !is_selected(pre, uid),
            UiUpdate::GraphModelReady { uid, .. } => !is_selected(pre, uid),
            UiUpdate::GraphError { uid, .. } => !is_selected(pre, uid),
            _ => false,
        },
    ensures
        post == pre,
        !e.processed,
        !e.repaint,
{
}

/// An error is shown as the last one.
pub proof fn law_errors_shown(pre: App, u: UiUpdate, color: Color, now: u64, post: App, e: StepView, err: String)
    requires
        step(pre, u, color, now, post, e),
        u == UiUpdate::Error(err) || u == UiUpdate::DetailError(err) || u == UiUpdate::SearchError(err) || u
            == UiUpdate::LogError(err) || u == UiUpdate::SvcLogError(err) || u == UiUpdate::ExecError(err),
    ensures
        post.last_error == Some(err),
        e.processed,
        table(post.results) == table(pre.results),
{
}

/// Ports that become known are offered; the first is taken where none was chosen, and its number
/// becomes the local port too where none was given.
pub proof fn law_ports_known(pre: OpsState, ports: Vec<PortCandidate>)
    requires
        ports@.len() > 0,
    ensures
        ports_after(pre, ports).pf_candidates == ports,
        pre.pf_selected_idx is None ==> ports_after(pre, ports).pf_remote == ports@[0].port,
        pre.pf_selected_idx is None && pre.pf_local == 0 ==> ports_after(pre, ports).pf_local == ports@[0].port,
        pre.pf_local != 0 ==> ports_after(pre, ports).pf_local == pre.pf_local,
        pre.pf_selected_idx matches Some(i) ==> (i < ports@.len() ==> ports_after(pre, ports).pf_remote == ports@[i as int].port),
        pre.pf_selected_idx matches Some(i) ==> (i >= ports@.len() ==> ports_after(pre, ports).pf_remote == pre.pf_remote),
{
}

/// A container that was chosen stays chosen while the pod has it; else the first counts.
pub proof fn law_container_after(cur: String, containers: Seq<String>)
    ensures
        texts(containers).contains(cur@) ==> container_after(Some(cur), containers) == Some(cur@),
        !texts(containers).contains(cur@) && containers.len() > 0 ==> container_after(Some(cur), containers) == Some(
            containers[0]@,
        ),
        containers.len() > 0 ==> container_after(None, containers) == Some(containers[0]@),
        containers.len() == 0 ==> container_after(None, containers) is None,
{
}

/// Only an error of a forward is told as one, and only a forward that is ready as a success.
pub proof fn law_forward_told(ev: PortForwardEvent)
    ensures
        forward_kind(ev) is Error <==> ev is Error,
        forward_kind(ev) is Success <==> ev is Ready,
        ev matches PortForwardEvent::Ready(a) ==> forward_text(ev) == "pf: ready on "@ + a@,
        ev matches PortForwardEvent::Connected(p) ==> forward_text(ev) == "pf: connected: "@ + p@,
        ev matches PortForwardEvent::Error(t) ==> forward_text(ev) == "pf: error: "@ + t@,
{
}

/// The hits of a search are kept with their scores, each under its object.
pub proof fn law_hits_kept(hits: Seq<(Uid, i64)>, i: int)
    requires
        0 <= i < hits.len(),
        forall|j: int| i < j < hits.len() ==> uid_key((#[trigger] hits[j]).0) != uid_key(hits[i].0),
    ensures
        hit_map(hits, hits.len()).contains_key(uid_key(hits[i].0)),
        hit_map(hits, hits.len())[uid_key(hits[i].0)] == hits[i].1,
{
    lemma_hit_map(hits, hits.len(), i);
}

proof fn lemma_hit_map(hits: Seq<(Uid, i64)>, n: nat, i: int)
    requires
        0 <= i < n <= hits.len(),
        forall|j: int| i < j < n ==> uid_key((#[trigger] hits[j]).0) != uid_key(hits[i].0),
    ensures
        hit_map(hits, n).contains_key(uid_key(hits[i].0)),
        hit_map(hits, n)[uid_key(hits[i].0)] == hits[i].1,
    decreases n,
{
    if i < n - 1 {
        lemma_hit_map(hits, (n - 1) as nat, i);
        assert(uid_key(hits[n - 1].0) != uid_key(hits[i].0));
    }
}

/// The row that a link leads to has its namespace and its name.
pub proof fn law_named_row(rows: Seq<LiteView>, ns: Seq<char>, name: Seq<char>)
    ensures
        match named_row(rows, ns, name) {
            Some(row) => rows.contains(row) && row.name == name && row.namespace == Some(ns),
            None => forall|i: int| 0 <= i < rows.len() ==> (#[trigger] rows[i]).name != name || rows[i].namespace != Some(
                ns,
            ),
        },
    decreases rows.len(),
{
    if rows.len() > 0 {
        let rest = rows.skip(1);
        law_named_row(rest, ns, name);
        match named_row(rest, ns, name) {
            Some(row) => {
                let k = choose|k: int| 0 <= k < rest.len() && rest[k] == row;
                assert(rows[k + 1] == row);
                assert(rows[0] == rows[0] && rows.contains(rows[0]));
            },
            None => {
                assert(rows.contains(rows[0]));
                assert forall|i: int| 1 <= i < rows.len() implies #[trigger] rows[i] == rest[i - 1] by {}
            },
        }
    }
}

/// A stream that ends is told as ended, and runs no longer; a session that ends takes its input
/// away.
pub proof fn law_streams_end(pre: App, color: Color, now: u64, post: App, e: StepView)
    requires
        pre.logs_owner is None,
        pre.exec_owner is None,
    ensures
        step(pre, UiUpdate::LogEnded, color, now, post, e) ==> !post.logs.running && post.logs.cancel is None && post.logs.ring
            == pre.logs.ring && e.toast is Some,
        step(pre, UiUpdate::ExecEnded, color, now, post, e) ==> !post.session.running && post.session.input is None
            && !post.session.focused && e.toast is Some,
        step(pre, UiUpdate::PfEnded, color, now, post, e) ==> !post.ops.pf_running && post.ops.pf_ready_addr is None && e.toast is Some,
        step(pre, UiUpdate::SvcLogEnded, color, now, post, e) ==> !post.svc_logs.running,
{
}

/// What an editor did ends it, and tells the outcome; only what was applied is told as a
/// success.
pub proof fn law_edit_ends(pre: App, color: Color, now: u64, post: App, e: StepView, t: String)
    ensures
        step(pre, UiUpdate::EditApplyDone { message: t }, color, now, post, e) ==> !post.edit.running && post.edit.status@
            == t@ && e.toast == Some((t@, ToastKind::Success)),
        step(pre, UiUpdate::EditDryRunDone { summary: t }, color, now, post, e) ==> !post.edit.running
            && post.edit.status@ == "dry-run: "@ + t@ && e.toast == Some(("dry-run: "@ + t@, ToastKind::Info)),
        step(pre, UiUpdate::EditDiffDone { live: t, last: None }, color, now, post, e) ==> !post.edit.running
            && post.edit.status@ == "diff live: "@ + t@,
{
}

/// A snapshot that comes takes the last error away, has the rows sorted anew, and selects the
/// row that a link was waiting for.
pub proof fn law_took_snapshot(pre: App, items: Seq<LiteView>, post: App, e: StepView)
    requires
        took_snapshot(pre, items, post, e),
    ensures
        post.last_error is None,
        post.results.sort_dirty,
        e.batch && e.processed,
        e.select is Some ==> post.graph.pending_open is None && table(post.results).rows.contains(e.select->0),
        pre.graph.pending_open is None ==> e.select is None,
        pre.graph.pending_open matches Some(p) ==> (e.select is Some ==> e.select->0.name == p.2@ && e.select->0.namespace
            == Some(p.1@)),
        pre.results.rows@.len() == 0 ==> table(post.results).rows == items,
{
    if pre.graph.pending_open is Some {
        let p = pre.graph.pending_open->0;
        law_named_row(table(post.results).rows, p.1@, p.2@);
    }
    assert(table(pre.results).rows.len() == pre.results.rows@.len());
}

/// What was read of the selected object is shown, and nothing runs for it then.
pub proof fn law_replies_shown(pre: App, uid: Uid, text: String, color: Color, now: u64, post: App, e: StepView)
    requires
        is_selected(pre, uid),
    ensures
        step(pre, UiUpdate::DescribeReady { uid, text }, color, now, post, e) ==> post.describe.text@ == text@
            && !post.describe.running && post.describe.error is None && post.describe.uid == Some(uid) && e.repaint,
        step(pre, UiUpdate::DescribeError { uid, error: text }, color, now, post, e) ==> post.describe.error == Some(text)
            && !post.describe.running && post.describe.text == pre.describe.text,
        step(pre, UiUpdate::GraphReady { uid, text }, color, now, post, e) ==> post.graph.text@ == text@
            && !post.graph.running && post.graph.error is None && post.graph.uid == Some(uid) && e.repaint,
        step(pre, UiUpdate::GraphError { uid, error: text }, color, now, post, e) ==> post.graph.error == Some(text)
            && !post.graph.running && post.graph.text == pre.graph.text,
        step(pre, UiUpdate::Detail { uid, text, containers: None }, color, now, post, e) ==> post.details.buffer@ == text@,
{
}

/// The rights that were found are kept, and nothing asks for them then; a forward that started
/// runs, and its address is the one that was told.
pub proof fn law_ops_news(pre: App, caps: crate::ops::OpsCaps, h: Handle, addr: String, color: Color, now: u64, post: App, e: StepView)
    ensures
        step(pre, UiUpdate::OpsCaps(caps), color, now, post, e) ==> post.ops.caps == Some(caps) && post.ops.caps_task is None,
        step(pre, UiUpdate::PfStarted(h), color, now, post, e) ==> post.ops.pf_running && post.ops.pf_cancel == Some(h),
        step(pre, UiUpdate::PfEvent(PortForwardEvent::Ready(addr)), color, now, post, e) ==> post.ops.pf_ready_addr == Some(
            addr,
        ),
        step(pre, UiUpdate::PfEvent(PortForwardEvent::Closed), color, now, post, e) ==> post.ops == pre.ops,
        step(pre, UiUpdate::OpsStatus(addr), color, now, post, e) ==> post.log@ == addr@ && e.toast == Some(
            (addr@, ToastKind::Success),
        ),
{
}

/// The lines of a stream go to the window that it was started in, and to the main pane where it
/// was started there; no other window changes.
pub proof fn law_line_goes_home(pre: App, line: String, color: Color, now: u64, post: App, e: StepView, i: int, j: int)
    requires
        step(pre, UiUpdate::LogLine(line), color, now, post, e),
    ensures
        owner_at(pre.detached@, pre.logs_owner) == Some(i) && 0 <= i < pre.detached@.len() ==> post.logs == pre.logs
            && log_took(pre.detached@[i].state.logs, line@, color, post.detached@[i].state.logs),
        owner_at(pre.detached@, pre.logs_owner) == Some(i) && 0 <= i < pre.detached@.len() && 0 <= j < pre.detached@.len()
            && j != i ==> post.detached@[j] == pre.detached@[j],
        owner_at(pre.detached@, pre.logs_owner) is None ==> post.detached == pre.detached && log_took(
            pre.logs,
            line@,
            color,
            post.logs,
        ),
{
}

} // verus!
