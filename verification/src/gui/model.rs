//! The state of the desktop front end.
//!
//! Tasks, channels and cancellations that run outside are known here by a number.
use crate::api::{PortForwardEvent, Stats};
use crate::gui::logs::{ParsedLine, PrefixTheme};
use crate::gui::results::ResultsState;
use crate::ops::OpsCaps;
use crate::types::{LiteEvent, LiteObj, ResourceKind, Uid};
use std::collections::{HashMap, VecDeque};
use vstd::prelude::*;

verus! {

/// The number of a task, a channel or a cancellation that runs outside.
pub type Handle = u64;

/// The number of a window.
pub type WindowId = u64;

/// A tab of the details pane.
#[derive(Clone, Copy, Debug, PartialEq, Eq, Structural)]
pub enum DetailsPaneTab {
    Edit,
    Logs,
    SvcLogs,
    Exec,
    Describe,
    Graph,
}

impl Default for DetailsPaneTab {
    fn default() -> (r: Self)
        ensures
            r == DetailsPaneTab::Describe,
    {
        DetailsPaneTab::Describe
    }
}

/// How a graph is drawn.
#[derive(Clone, Copy, Debug, PartialEq, Eq, Structural)]
pub enum GraphViewMode {
    Classic,
    Atlas,
}

impl Default for GraphViewMode {
    fn default() -> (r: Self)
        ensures
            r == GraphViewMode::Classic,
    {
        GraphViewMode::Classic
    }
}

/// The part that a node plays in a graph.
#[derive(Debug)]
pub enum GraphNodeRole {
    Root,
    OwnerChain(usize),
    Related(String),
}

/// A node of a graph.
#[derive(Debug)]
pub struct GraphNode {
    pub id: String,
    pub label: String,
    pub kind: String,
    pub role: GraphNodeRole,
}

/// An edge of a graph.
#[derive(Debug)]
pub struct GraphEdge {
    pub from: String,
    pub to: String,
    pub label: Option<String>,
}

/// The relations of one object.
#[derive(Debug)]
pub struct GraphModel {
    pub nodes: Vec<GraphNode>,
    pub edges: Vec<GraphEdge>,
}

/// One entry of a secret: its text where its bytes are one.
#[derive(Debug)]
pub struct SecretEntry {
    pub key: String,
    pub decoded: Option<String>,
    pub b64: String,
}

/// How many hits each stage of a search left.
#[derive(Clone, Copy, Debug, PartialEq, Eq, Structural)]
pub struct SearchExplain {
    pub total: usize,
    pub after_ns: usize,
    pub after_label_keys: usize,
    pub after_labels: usize,
    pub after_anno_keys: usize,
    pub after_annos: usize,
    pub after_fields: usize,
}

/// Which panels are shown.
#[derive(Clone, Copy, Debug, PartialEq, Eq, Structural)]
pub struct LayoutState {
    pub show_nav: bool,
    pub show_log: bool,
}

/// The weight of a message to the user.
#[derive(Clone, Copy, Debug, PartialEq, Eq, Structural)]
pub enum ToastKind {
    Info,
    Success,
    Error,
    Warn,
}

/// A message to the user, with the time it appeared and how long it stays, in
/// milliseconds.
#[derive(Debug)]
pub struct Toast {
    pub text: String,
    pub kind: ToastKind,
    pub created: u64,
    pub duration_ms: u64,
}

/// A running port forward.
#[derive(Debug)]
pub struct PfInfo {
    pub namespace: String,
    pub pod: String,
    pub local: u16,
    pub remote: u16,
}

/// A port of a pod that can be forwarded.
#[derive(Debug)]
pub struct PortCandidate {
    pub port: u16,
    pub name: Option<String>,
}

/// How updates are gathered before the window is drawn again.
#[derive(Clone, Copy, Debug, PartialEq, Eq, Structural)]
pub struct UiDebounce {
    pub ms: u64,
    pub pending_count: usize,
    pub pending_since: Option<u64>,
}

/// The editor of a window.
#[derive(Debug)]
pub struct EditUi {
    pub buffer: String,
    pub original: String,
    pub dirty: bool,
    pub running: bool,
    pub status: String,
}

/// The chosen kind and namespace.
pub struct SelectionState {
    pub selected_idx: Option<usize>,
    pub selected_kind: Option<ResourceKind>,
    pub namespace: String,
    pub namespace_filter_query: String,
}

/// The state of the watch.
pub struct WatchState {
    pub task: Option<Handle>,
    pub stop: Option<Handle>,
    pub loaded_idx: Option<usize>,
    pub loaded_gvk_key: Option<String>,
    pub loaded_ns: Option<String>,
    pub prewarm_started: bool,
    pub select_t0: Option<u64>,
    pub ttfr_logged: bool,
    pub ns_task: Option<Handle>,
}

/// The state of the details pane.
pub struct DetailsState {
    pub selected: Option<Uid>,
    pub buffer: String,
    pub task: Option<Handle>,
    pub stop: Option<Handle>,
    pub selected_at: Option<u64>,
    pub active_tab: DetailsPaneTab,
    pub secret_entries: Vec<SecretEntry>,
    pub secret_revealed: Vec<String>,
}

/// The state of the log view.
pub struct LogsState {
    pub running: bool,
    pub follow: bool,
    pub grep: String,
    pub backlog: VecDeque<String>,
    pub backlog_cap: usize,
    pub dropped: usize,
    pub recv: usize,
    pub containers: Vec<String>,
    pub container: Option<String>,
    pub tail_lines: Option<i64>,
    pub since_seconds: Option<i64>,
    pub task: Option<Handle>,
    pub cancel: Option<Handle>,
    pub ring: VecDeque<ParsedLine>,
    pub ring_cap: usize,
    pub wrap: bool,
    pub colorize: bool,
    pub visible_follow_limit: usize,
    pub order_by_ts_when_paused: bool,
    pub follow_pad_rows: usize,
    pub prefix_theme: PrefixTheme,
    pub grep_cache: Option<regex::Regex>,
    pub grep_error: Option<String>,
    pub v2: bool,
}

/// The state of the log view of a service.
pub struct ServiceLogsState {
    pub running: bool,
    pub follow: bool,
    pub grep: String,
    pub grep_cache: Option<regex::Regex>,
    pub grep_error: Option<String>,
    pub ring: VecDeque<ParsedLine>,
    pub ring_cap: usize,
    pub recv: usize,
    pub dropped: usize,
    pub tail_lines: Option<i64>,
    pub since_seconds: Option<i64>,
    pub task: Option<Handle>,
    pub cancel: Option<Handle>,
    pub visible_follow_limit: usize,
    pub colorize: bool,
    pub order_by_ts_when_paused: bool,
    pub follow_pad_rows: usize,
    pub v2: bool,
    pub prefix_theme: PrefixTheme,
}

/// The state of a session in a container.
pub struct ExecState {
    pub running: bool,
    pub pty: bool,
    pub cmd: String,
    pub container: Option<String>,
    pub backlog: VecDeque<String>,
    pub backlog_cap: usize,
    pub dropped: usize,
    pub recv: usize,
    pub stdin_buf: String,
    pub task: Option<Handle>,
    pub cancel: Option<Handle>,
    pub input: Option<Handle>,
    pub resize: Option<Handle>,
    pub last_cols: Option<u16>,
    pub last_rows: Option<u16>,
    pub term_open: bool,
    pub focused: bool,
    pub mode_oneshot: bool,
    pub external_cmd: String,
}

/// The state of the editor.
pub struct EditState {
    pub buffer: String,
    pub original: String,
    pub dirty: bool,
    pub running: bool,
    pub status: String,
    pub task: Option<Handle>,
    pub stop: Option<Handle>,
}

/// The state of the description of the selected object.
pub struct DescribeState {
    pub running: bool,
    pub text: String,
    pub error: Option<String>,
    pub uid: Option<Uid>,
    pub task: Option<Handle>,
    pub stop: Option<Handle>,
}

/// The state of the graph of the selected object.
pub struct GraphState {
    pub running: bool,
    pub text: String,
    pub error: Option<String>,
    pub uid: Option<Uid>,
    pub task: Option<Handle>,
    pub stop: Option<Handle>,
    pub mode: GraphViewMode,
    pub model: Option<GraphModel>,
    pub atlas_expanded_ns: Vec<String>,
    pub atlas_expanded_kinds: Vec<(String, String)>,
    pub atlas_counts: Vec<(String, String, usize)>,
    pub details_expanded_kinds: Vec<String>,
    pub pending_open: Option<(ResourceKind, String, String)>,
    pub details_fit_for: Option<Uid>,
}

/// The state of the search overlay. Scores are whole numbers.
pub struct SearchState {
    pub query: String,
    pub limit: usize,
    pub task: Option<Handle>,
    pub stop: Option<Handle>,
    pub hits: HashMap<u128, i64>,
    pub explain: Option<SearchExplain>,
    pub partial: bool,
    pub preview: Vec<(Uid, i64)>,
    pub prev_text: String,
    pub changed_at: Option<u64>,
    pub debounce_ms: u64,
    pub preview_sel: Option<usize>,
    pub need_focus: bool,
}

/// One line of the palette.
pub struct PaletteItem {
    pub gvk_key: String,
    pub obj: LiteObj,
    pub score: i64,
    pub primary: String,
    pub hi_indices: Vec<usize>,
    pub secondary: String,
    pub hi_sec_indices: Vec<usize>,
}

/// The state of the palette.
pub struct PaletteState {
    pub open: bool,
    pub query: String,
    pub results: Vec<PaletteItem>,
    pub sel: Option<usize>,
    pub changed_at: Option<u64>,
    pub debounce_ms: u64,
    pub need_focus: bool,
    pub mode_global: bool,
    pub prime_task: Option<Handle>,
}

/// The state of the actions on the selected object.
pub struct OpsState {
    pub caps: Option<OpsCaps>,
    pub caps_task: Option<Handle>,
    pub caps_ns: Option<String>,
    pub caps_gvk: Option<String>,
    pub scale_replicas: i32,
    pub pf_local: u16,
    pub pf_remote: u16,
    pub pf_running: bool,
    pub pf_cancel: Option<Handle>,
    pub pf_info: Option<PfInfo>,
    pub pf_panel_open: bool,
    pub pf_candidates: Vec<PortCandidate>,
    pub pf_ready_addr: Option<String>,
    pub pf_selected_idx: Option<usize>,
    pub confirm_delete: Option<(String, String)>,
    pub confirm_drain: Option<String>,
    pub scale_prompt_open: bool,
}

/// The state of the statistics window.
pub struct StatsState {
    pub open: bool,
    pub loading: bool,
    pub last_error: Option<String>,
    pub data: Option<Stats>,
    pub task: Option<Handle>,
    pub last_fetched: Option<u64>,
    pub refresh_open_ms: u64,
    pub refresh_closed_ms: u64,
    pub index_bytes: Option<u64>,
    pub index_docs: Option<u64>,
}

/// What a detached window shows.
pub struct DetachedDetailsWindowMeta {
    pub id: WindowId,
    pub uid: Uid,
    pub title: String,
    pub gvk: ResourceKind,
    pub namespace: Option<String>,
    pub name: String,
}

/// The state of a detached window.
pub struct DetachedDetailsWindowState {
    pub buffer: String,
    pub last_error: Option<String>,
    pub opened_at: u64,
    pub active_tab: DetailsPaneTab,
    pub edit_ui: EditUi,
    pub logs: LogsState,
    pub session: ExecState,
    pub svc_logs: ServiceLogsState,
}

/// A detached window.
pub struct DetachedDetailsWindow {
    pub meta: DetachedDetailsWindowMeta,
    pub state: DetachedDetailsWindowState,
}

/// The description of an object that was read before.
pub struct CachedDetail {
    pub text: String,
    pub containers: Option<Vec<String>>,
    pub at: u64,
}

/// The state of the front end.
pub struct App {
    pub kinds: Vec<ResourceKind>,
    pub results: ResultsState,
    pub watch: WatchState,
    pub selection: SelectionState,
    pub details: DetailsState,
    pub logs: LogsState,
    pub svc_logs: ServiceLogsState,
    pub edit: EditState,
    pub session: ExecState,
    pub describe: DescribeState,
    pub graph: GraphState,
    pub last_error: Option<String>,
    pub search: SearchState,
    pub log: String,
    pub dock_pending: Vec<Uid>,
    pub dock_close_pending: Vec<Uid>,
    pub details_tab_order: Vec<Uid>,
    pub details_tabs_cap: usize,
    pub layout: LayoutState,
    pub namespaces: Vec<String>,
    pub contexts: Vec<String>,
    pub current_context: Option<String>,
    pub ui_debounce: UiDebounce,
    pub palette: PaletteState,
    pub ops: OpsState,
    pub toasts: Vec<Toast>,
    pub stats: StatsState,
    pub detached: Vec<DetachedDetailsWindow>,
    pub rendering_window_id: Option<WindowId>,
    pub logs_owner: Option<WindowId>,
    pub exec_owner: Option<WindowId>,
    pub svc_logs_owner: Option<WindowId>,
    pub atlas_enabled: bool,
    pub details_cache: HashMap<u128, CachedDetail>,
    pub details_ttl_secs: u64,
    pub details_cache_cap: usize,
    pub idle_repaint_fast_ms: u64,
    pub idle_repaint_slow_ms: u64,
    pub idle_fast_window_ms: u64,
    pub last_activity: Option<u64>,
}

/// An update that a task sends to the window.
pub enum UiUpdate {
    Snapshot(Vec<LiteObj>),
    Event(LiteEvent),
    Error(String),
    Detail { uid: Uid, text: String, containers: Option<Vec<String>> },
    SecretReady { uid: Uid, entries: Vec<SecretEntry> },
    DetailError(String),
    Namespaces(Vec<String>),
    Epoch(u64),
    MetricsReady { index_bytes: Option<u64>, index_docs: Option<u64> },
    SearchResults { hits: Vec<(Uid, i64)>, explain: SearchExplain, partial: bool },
    SearchError(String),
    LogStarted(Handle),
    LogLine(String),
    LogError(String),
    LogEnded,
    SvcLogStarted,
    SvcLogLine(String),
    SvcLogError(String),
    SvcLogEnded,
    ExecStarted { cancel: Handle, input: Handle, resize: Option<Handle> },
    ExecData(String),
    ExecError(String),
    ExecEnded,
    PodContainers(Vec<String>),
    PodPorts(Vec<PortCandidate>),
    EditStatus(String),
    EditDryRunDone { summary: String },
    EditDiffDone { live: String, last: Option<String> },
    EditApplyDone { message: String },
    OpsCaps(OpsCaps),
    OpsStatus(String),
    PfStarted(Handle),
    PfEvent(PortForwardEvent),
    PfEnded,
    StatsReady(Stats),
    DetachedDetail { id: WindowId, uid: Uid, text: String },
    DetachedDetailError { id: WindowId, error: String },
    ReattachDetached { id: WindowId, uid: Uid },
    DescribeReady { uid: Uid, text: String },
    DescribeError { uid: Uid, error: String },
    GraphReady { uid: Uid, text: String },
    GraphError { uid: Uid, error: String },
    GraphModelReady { uid: Uid, model: GraphModel },
}

} // verus!
