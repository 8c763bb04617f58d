//! The state in which the front end starts, and the settings that shape it.
//!
//! Settings are the variables of the environment, handed in as a list of names and values.
use crate::gui::logs::PrefixTheme;
use crate::gui::model::{
    App, DescribeState, DetailsPaneTab, DetailsState, EditState, ExecState, GraphState, GraphViewMode, LayoutState,
    LogsState, OpsState, PaletteState, SearchState, SelectionState, ServiceLogsState, StatsState, UiDebounce,
    WatchState,
};
use crate::gui::results::{ResultsState, VirtualMode};
use crate::gui::watch::{listed, split_list};
use crate::settings::{
    number_setting, read_number, read_setting, read_size, read_switch, read_text, setting, setting_views, size_setting,
    switch_setting, text_setting,
};
use crate::text::{ascii_lower, ascii_lowercase, copy_text, same_ignoring_case, same_text, split, texts};
use std::collections::{HashMap, VecDeque};
use vstd::prelude::*;
use vstd::string::*;

verus! {

broadcast use {vstd::std_specs::hash::group_hash_axioms};

/// The colour theme that a name stands for.
pub open spec fn theme_named(s: Seq<char>) -> PrefixTheme {
    let t = ascii_lower(s);
    if t == "basic"@ {
        PrefixTheme::Basic
    } else if t == "gray"@ || t == "grey"@ {
        PrefixTheme::Gray
    } else if t == "none"@ {
        PrefixTheme::NoColor
    } else {
        PrefixTheme::Bright
    }
}

/// Whether the map is enabled: unless the setting says `0` or `false`.
pub open spec fn atlas_setting(env: Seq<(Seq<char>, Seq<char>)>) -> bool {
    match setting(env, "ORKA_ATLAS"@) {
        Some(v) => v != "0"@ && ascii_lower(v) != ascii_lower("false"@),
        None => true,
    }
}

/// Whether all common kinds are read ahead: unless a setting says neither `1` nor `true`.
pub open spec fn warm_all_setting(env: Seq<(Seq<char>, Seq<char>)>) -> bool {
    match setting(env, "ORKA_PREWARM_ALL_BUILTINS"@) {
        Some(v) => v == "1"@ || ascii_lower(v) == ascii_lower("true"@),
        None => true,
    }
}

/// The colour theme that a name stands for.
pub fn parse_theme(s: &str) -> (r: PrefixTheme)
    ensures
        r == theme_named(s@),
{
    let t = ascii_lowercase(s);
    if same_text(t.as_str(), "basic") {
        PrefixTheme::Basic
    } else if same_text(t.as_str(), "gray") || same_text(t.as_str(), "grey") {
        PrefixTheme::Gray
    } else if same_text(t.as_str(), "none") {
        PrefixTheme::NoColor
    } else {
        PrefixTheme::Bright
    }
}

fn read_theme(env: &Vec<(String, String)>) -> (r: PrefixTheme)
    ensures
        r == theme_named(text_setting(setting_views(env@), "ORKA_LOGS_PREFIX_THEME"@, "bright"@)),
{
    let name = read_text(env, "ORKA_LOGS_PREFIX_THEME", "bright");
    parse_theme(name.as_str())
}

/// Whether the map is enabled.
pub fn read_atlas(env: &Vec<(String, String)>) -> (r: bool)
    ensures
        r == atlas_setting(setting_views(env@)),
{
    match read_setting(env, "ORKA_ATLAS") {
        Some(v) => !same_text(v, "0") && !same_ignoring_case(v, "false"),
        None => true,
    }
}

/// Whether all common kinds are read ahead.
pub fn read_warm_all(env: &Vec<(String, String)>) -> (r: bool)
    ensures
        r == warm_all_setting(setting_views(env@)),
{
    match read_setting(env, "ORKA_PREWARM_ALL_BUILTINS") {
        Some(v) => same_text(v, "1") || same_ignoring_case(v, "true"),
        None => true,
    }
}

/// The kinds that are watched from the start on.
pub fn read_warm_kinds(env: &Vec<(String, String)>) -> (r: Vec<String>)
    ensures
        texts(r@) == listed(
            split(
                text_setting(
                    setting_views(env@),
                    "ORKA_PREWARM_KINDS"@,
                    "v1/Pod,apps/v1/Deployment,v1/Service,v1/Namespace,v1/Node,v1/ConfigMap,v1/Secret"@,
                ),
                ',',
            ),
        ),
{
    let list = read_text(
        env,
        "ORKA_PREWARM_KINDS",
        "v1/Pod,apps/v1/Deployment,v1/Service,v1/Namespace,v1/Node,v1/ConfigMap,v1/Secret",
    );
    split_list(list.as_str())
}

/// The groups whose kinds are read ahead, as a list.
pub fn read_warm_groups(env: &Vec<(String, String)>) -> (r: String)
    ensures
        r@ == text_setting(
            setting_views(env@),
            "ORKA_PREWARM_BUILTIN_GROUPS"@,
            "core,apps,batch,networking.k8s.io,policy,rbac.authorization.k8s.io,autoscaling,coordination.k8s.io,storage.k8s.io,authentication.k8s.io,authorization.k8s.io,admissionregistration.k8s.io,node.k8s.io,certificates.k8s.io,discovery.k8s.io,events.k8s.io,flowcontrol.apiserver.k8s.io,scheduling.k8s.io,apiregistration.k8s.io"@,
        ),
{
    read_text(
        env,
        "ORKA_PREWARM_BUILTIN_GROUPS",
        "core,apps,batch,networking.k8s.io,policy,rbac.authorization.k8s.io,autoscaling,coordination.k8s.io,storage.k8s.io,authentication.k8s.io,authorization.k8s.io,admissionregistration.k8s.io,node.k8s.io,certificates.k8s.io,discovery.k8s.io,events.k8s.io,flowcontrol.apiserver.k8s.io,scheduling.k8s.io,apiregistration.k8s.io",
    )
}

/// How many kinds are read ahead at a time: at least one.
pub fn read_warm_lanes(env: &Vec<(String, String)>) -> (r: usize)
    ensures
        r == (if size_setting(setting_views(env@), "ORKA_PREWARM_CONC"@, 4) == 0 {
            1
        } else {
            size_setting(setting_views(env@), "ORKA_PREWARM_CONC"@, 4)
        }),
{
    let n = read_size(env, "ORKA_PREWARM_CONC", 4);
    if n == 0 {
        1
    } else {
        n
    }
}

// ---------------------------------------------------------------------------
// The start

/// A table without rows.
pub open spec fn results_start(r: ResultsState, env: Seq<(Seq<char>, Seq<char>)>) -> bool {
    &&& r.rows@.len() == 0
    &&& r.index@ == Map::<u128, usize>::empty()
    &&& r.active_cols@.len() == 0
    &&& r.sort_col is None
    &&& r.sort_asc
    &&& !r.sort_dirty
    &&& r.filter_cache@ == Map::<u128, String>::empty()
    &&& r.soft_cap == size_setting(env, "ORKA_RESULTS_SOFT_CAP"@, 2000)
    &&& r.display_cache@ == Map::<u128, Vec<String>>::empty()
    &&& r.virtual_mode == VirtualMode::Auto
    &&& r.filter@.len() == 0
    &&& r.epoch is None
}

/// A log view before its first stream.
pub open spec fn logs_start(l: LogsState, env: Seq<(Seq<char>, Seq<char>)>) -> bool {
    &&& !l.running && l.follow && l.grep@.len() == 0
    &&& l.backlog@.len() == 0 && l.backlog_cap == size_setting(env, "ORKA_LOGS_BACKLOG_CAP"@, 2000)
    &&& l.dropped == 0 && l.recv == 0
    &&& l.containers@.len() == 0 && l.container is None
    &&& l.tail_lines is None && l.since_seconds is None
    &&& l.task is None && l.cancel is None
    &&& l.ring@.len() == 0 && l.ring_cap == size_setting(env, "ORKA_LOGS_RING_CAP"@, 10000)
    &&& l.wrap == switch_setting(env, "ORKA_LOGS_WRAP"@, false)
    &&& l.colorize == switch_setting(env, "ORKA_LOGS_COLORIZE"@, true)
    &&& l.visible_follow_limit == size_setting(env, "ORKA_LOGS_VISIBLE_FOLLOW_LIMIT"@, 1000)
    &&& l.order_by_ts_when_paused == switch_setting(env, "ORKA_LOGS_ORDER_BY_TS_WHEN_PAUSED"@, true)
    &&& l.follow_pad_rows == size_setting(env, "ORKA_LOGS_FOLLOW_PAD_ROWS"@, 1)
    &&& l.prefix_theme == theme_named(text_setting(env, "ORKA_LOGS_PREFIX_THEME"@, "bright"@))
    &&& l.grep_cache is None && l.grep_error is None
    &&& l.v2 == switch_setting(env, "ORKA_LOGS_V2"@, true)
}

/// A log view of a service before its first stream.
pub open spec fn svc_logs_start(l: ServiceLogsState, env: Seq<(Seq<char>, Seq<char>)>) -> bool {
    &&& !l.running && l.follow && l.grep@.len() == 0
    &&& l.grep_cache is None && l.grep_error is None
    &&& l.ring@.len() == 0 && l.ring_cap == size_setting(env, "ORKA_LOGS_RING_CAP"@, 10000)
    &&& l.dropped == 0 && l.recv == 0
    &&& l.tail_lines is None && l.since_seconds is None
    &&& l.task is None && l.cancel is None
    &&& l.colorize == switch_setting(env, "ORKA_LOGS_COLORIZE"@, true)
    &&& l.visible_follow_limit == size_setting(env, "ORKA_LOGS_VISIBLE_FOLLOW_LIMIT"@, 1000)
    &&& l.order_by_ts_when_paused == switch_setting(env, "ORKA_LOGS_ORDER_BY_TS_WHEN_PAUSED"@, true)
    &&& l.follow_pad_rows == size_setting(env, "ORKA_LOGS_FOLLOW_PAD_ROWS"@, 1)
    &&& l.prefix_theme == theme_named(text_setting(env, "ORKA_LOGS_PREFIX_THEME"@, "bright"@))
    &&& l.v2 == switch_setting(env, "ORKA_LOGS_V2"@, true)
}

/// A session view before its first session.
pub open spec fn session_start(s: ExecState, env: Seq<(Seq<char>, Seq<char>)>, terminal: Seq<char>) -> bool {
    &&& !s.running && s.pty && s.cmd@ == "/bin/sh"@ && s.container is None
    &&& s.backlog@.len() == 0 && s.backlog_cap == size_setting(env, "ORKA_EXEC_BACKLOG_CAP"@, 4000)
    &&& s.dropped == 0 && s.recv == 0 && s.stdin_buf@.len() == 0
    &&& s.task is None && s.cancel is None && s.input is None && s.resize is None
    &&& s.last_cols is None && s.last_rows is None
    &&& !s.term_open && !s.focused && s.mode_oneshot
    &&& s.external_cmd@ == terminal
}

/// The actions before anything was selected.
pub open spec fn ops_start(o: OpsState) -> bool {
    &&& o.caps is None && o.caps_task is None && o.caps_ns is None && o.caps_gvk is None
    &&& o.scale_replicas == 1 && o.pf_local == 8080 && o.pf_remote == 80
    &&& !o.pf_running && o.pf_cancel is None && o.pf_info is None && !o.pf_panel_open
    &&& o.pf_candidates@.len() == 0 && o.pf_ready_addr is None && o.pf_selected_idx is None
    &&& o.confirm_delete is None && o.confirm_drain is None && !o.scale_prompt_open
}

/// The panes before anything was selected.
pub open spec fn panes_start(a: App) -> bool {
    &&& a.kinds@.len() == 0
    &&& a.selection.selected_idx is None && a.selection.selected_kind is None
    &&& a.selection.namespace@.len() == 0 && a.selection.namespace_filter_query@.len() == 0
    &&& a.watch.task is None && a.watch.stop is None && a.watch.loaded_idx is None
    &&& a.watch.loaded_gvk_key is None && a.watch.loaded_ns is None && a.watch.prewarm_started
    &&& a.watch.select_t0 is None && !a.watch.ttfr_logged && a.watch.ns_task is None
    &&& a.details.selected is None && a.details.buffer@.len() == 0 && a.details.task is None
    &&& a.details.stop is None && a.details.selected_at is None
    &&& a.details.active_tab == DetailsPaneTab::Describe
    &&& a.details.secret_entries@.len() == 0 && a.details.secret_revealed@.len() == 0
    &&& !a.edit.dirty && !a.edit.running && a.edit.buffer@.len() == 0 && a.edit.original@.len() == 0
    &&& a.edit.status@.len() == 0 && a.edit.task is None && a.edit.stop is None
    &&& !a.describe.running && a.describe.text@.len() == 0 && a.describe.error is None
    &&& a.describe.uid is None && a.describe.task is None && a.describe.stop is None
    &&& !a.graph.running && a.graph.text@.len() == 0 && a.graph.error is None && a.graph.uid is None
    &&& a.graph.task is None && a.graph.stop is None && a.graph.mode == GraphViewMode::Classic
    &&& a.graph.model is None && a.graph.atlas_expanded_ns@.len() == 0
    &&& a.graph.atlas_expanded_kinds@.len() == 0 && a.graph.atlas_counts@.len() == 0
    &&& a.graph.details_expanded_kinds@.len() == 0 && a.graph.pending_open is None
    &&& a.graph.details_fit_for is None
}

/// The search and the palette before the first query.
pub open spec fn searches_start(a: App, env: Seq<(Seq<char>, Seq<char>)>) -> bool {
    &&& a.search.query@.len() == 0 && a.search.limit == size_setting(env, "ORKA_SEARCH_LIMIT"@, 50)
    &&& a.search.task is None && a.search.stop is None && a.search.hits@ == Map::<u128, i64>::empty()
    &&& a.search.explain is None && !a.search.partial && a.search.preview@.len() == 0
    &&& a.search.prev_text@.len() == 0 && a.search.changed_at is None && a.search.debounce_ms == 80
    &&& a.search.preview_sel is None && !a.search.need_focus
    &&& !a.palette.open && a.palette.query@.len() == 0 && a.palette.results@.len() == 0
    &&& a.palette.sel is None && a.palette.changed_at is None && a.palette.debounce_ms == 80
    &&& !a.palette.need_focus && !a.palette.mode_global && a.palette.prime_task is None
}

/// The rest of the state at the start.
pub open spec fn frame_start(a: App, env: Seq<(Seq<char>, Seq<char>)>) -> bool {
    &&& a.last_error is None && a.log@.len() == 0
    &&& a.dock_pending@.len() == 0 && a.dock_close_pending@.len() == 0 && a.details_tab_order@.len() == 0
    &&& a.details_tabs_cap == size_setting(env, "ORKA_DETAILS_TABS_CAP"@, 8)
    &&& a.layout.show_nav && a.layout.show_log && a.namespaces@.len() == 0
    &&& a.ui_debounce == (UiDebounce {
        ms: number_setting(env, "ORKA_UI_DEBOUNCE_MS"@, 100),
        pending_count: 0,
        pending_since: None,
    })
    &&& a.toasts@.len() == 0
    &&& !a.stats.open && !a.stats.loading && a.stats.last_error is None && a.stats.data is None
    &&& a.stats.task is None && a.stats.last_fetched is None
    &&& a.stats.refresh_open_ms == number_setting(env, "ORKA_STATS_REFRESH_OPEN_MS"@, 5000)
    &&& a.stats.refresh_closed_ms == number_setting(env, "ORKA_STATS_REFRESH_CLOSED_MS"@, 30000)
    &&& a.stats.index_bytes is None && a.stats.index_docs is None
    &&& a.detached@.len() == 0 && a.rendering_window_id is None
    &&& a.logs_owner is None && a.exec_owner is None && a.svc_logs_owner is None
    &&& a.atlas_enabled == atlas_setting(env)
    &&& a.details_cache@ == Map::<u128, crate::gui::model::CachedDetail>::empty()
    &&& a.details_ttl_secs == number_setting(env, "ORKA_DETAILS_TTL_SECS"@, 60)
    &&& a.details_cache_cap == size_setting(env, "ORKA_DETAILS_CACHE_CAP"@, 128)
    &&& a.idle_repaint_fast_ms == number_setting(env, "ORKA_IDLE_FAST_MS"@, 8)
    &&& a.idle_repaint_slow_ms == number_setting(env, "ORKA_IDLE_SLOW_MS"@, 120)
    &&& a.idle_fast_window_ms == number_setting(env, "ORKA_IDLE_FAST_WINDOW_MS"@, 1000)
    &&& a.last_activity is None
}

fn new_results(env: &Vec<(String, String)>) -> (r: ResultsState)
    ensures
        results_start(r, setting_views(env@)),
{
    ResultsState {
        rows: Vec::new(),
        index: HashMap::new(),
        active_cols: Vec::new(),
        sort_col: None,
        sort_asc: true,
        sort_dirty: false,
        filter_cache: HashMap::new(),
        soft_cap: read_size(env, "ORKA_RESULTS_SOFT_CAP", 2000),
        display_cache: HashMap::new(),
        virtual_mode: VirtualMode::Auto,
        filter: String::new(),
        epoch: None,
    }
}

/// A log view before its first stream.
pub fn new_logs(env: &Vec<(String, String)>) -> (r: LogsState)
    ensures
        logs_start(r, setting_views(env@)),
{
    LogsState {
        running: false,
        follow: true,
        grep: String::new(),
        backlog: VecDeque::new(),
        backlog_cap: read_size(env, "ORKA_LOGS_BACKLOG_CAP", 2000),
        dropped: 0,
        recv: 0,
        containers: Vec::new(),
        container: None,
        tail_lines: None,
        since_seconds: None,
        task: None,
        cancel: None,
        ring: VecDeque::new(),
        ring_cap: read_size(env, "ORKA_LOGS_RING_CAP", 10000),
        wrap: read_switch(env, "ORKA_LOGS_WRAP", false),
        colorize: read_switch(env, "ORKA_LOGS_COLORIZE", true),
        visible_follow_limit: read_size(env, "ORKA_LOGS_VISIBLE_FOLLOW_LIMIT", 1000),
        order_by_ts_when_paused: read_switch(env, "ORKA_LOGS_ORDER_BY_TS_WHEN_PAUSED", true),
        follow_pad_rows: read_size(env, "ORKA_LOGS_FOLLOW_PAD_ROWS", 1),
        prefix_theme: read_theme(env),
        grep_cache: None,
        grep_error: None,
        v2: read_switch(env, "ORKA_LOGS_V2", true),
    }
}

/// A log view of a service before its first stream.
pub fn new_svc_logs(env: &Vec<(String, String)>) -> (r: ServiceLogsState)
    ensures
        svc_logs_start(r, setting_views(env@)),
{
    ServiceLogsState {
        running: false,
        follow: true,
        grep: String::new(),
        grep_cache: None,
        grep_error: None,
        ring: VecDeque::new(),
        ring_cap: read_size(env, "ORKA_LOGS_RING_CAP", 10000),
        recv: 0,
        dropped: 0,
        tail_lines: None,
        since_seconds: None,
        task: None,
        cancel: None,
        visible_follow_limit: read_size(env, "ORKA_LOGS_VISIBLE_FOLLOW_LIMIT", 1000),
        colorize: read_switch(env, "ORKA_LOGS_COLORIZE", true),
        order_by_ts_when_paused: read_switch(env, "ORKA_LOGS_ORDER_BY_TS_WHEN_PAUSED", true),
        follow_pad_rows: read_size(env, "ORKA_LOGS_FOLLOW_PAD_ROWS", 1),
        v2: read_switch(env, "ORKA_LOGS_V2", true),
        prefix_theme: read_theme(env),
    }
}

/// A session view before its first session.
pub fn new_session(env: &Vec<(String, String)>, terminal: &str) -> (r: ExecState)
    ensures
        session_start(r, setting_views(env@), terminal@),
{
    ExecState {
        running: false,
        pty: true,
        cmd: copy_text("/bin/sh"),
        container: None,
        backlog: VecDeque::new(),
        backlog_cap: read_size(env, "ORKA_EXEC_BACKLOG_CAP", 4000),
        dropped: 0,
        recv: 0,
        stdin_buf: String::new(),
        task: None,
        cancel: None,
        input: None,
        resize: None,
        last_cols: None,
        last_rows: None,
        term_open: false,
        focused: false,
        mode_oneshot: true,
        external_cmd: copy_text(terminal),
    }
}

impl App {
    /// The state at the start. `contexts` are the contexts that are known, `current` the one
    /// in use, `terminal` the terminal program of the system. The first watches are set off
    /// at once, so the caches count as warmed.
    pub fn new(
        env: &Vec<(String, String)>,
        contexts: Vec<String>,
        current: Option<String>,
        terminal: &str,
    ) -> (r: Self)
        ensures
            results_start(r.results, setting_views(env@)),
            logs_start(r.logs, setting_views(env@)),
            svc_logs_start(r.svc_logs, setting_views(env@)),
            session_start(r.session, setting_views(env@), terminal@),
            ops_start(r.ops),
            panes_start(r),
            searches_start(r, setting_views(env@)),
            frame_start(r, setting_views(env@)),
            r.contexts == contexts,
            r.current_context == current,
    {
        App {
            kinds: Vec::new(),
            results: new_results(env),
            watch: WatchState {
                task: None,
                stop: None,
                loaded_idx: None,
                loaded_gvk_key: None,
                loaded_ns: None,
                prewarm_started: true,
                select_t0: None,
                ttfr_logged: false,
                ns_task: None,
            },
            selection: SelectionState {
                selected_idx: None,
                selected_kind: None,
                namespace: String::new(),
                namespace_filter_query: String::new(),
            },
            details: DetailsState {
                selected: None,
                buffer: String::new(),
                task: None,
                stop: None,
                selected_at: None,
                active_tab: DetailsPaneTab::Describe,
                secret_entries: Vec::new(),
                secret_revealed: Vec::new(),
            },
            logs: new_logs(env),
            svc_logs: new_svc_logs(env),
            edit: EditState {
                buffer: String::new(),
                original: String::new(),
                dirty: false,
                running: false,
                status: String::new(),
                task: None,
                stop: None,
            },
            session: new_session(env, terminal),
            describe: DescribeState {
                running: false,
                text: String::new(),
                error: None,
                uid: None,
                task: None,
                stop: None,
            },
            graph: GraphState {
                running: false,
                text: String::new(),
                error: None,
                uid: None,
                task: None,
                stop: None,
                mode: GraphViewMode::Classic,
                model: None,
                atlas_expanded_ns: Vec::new(),
                atlas_expanded_kinds: Vec::new(),
                atlas_counts: Vec::new(),
                details_expanded_kinds: Vec::new(),
                pending_open: None,
                details_fit_for: None,
            },
            last_error: None,
            search: SearchState {
                query: String::new(),
                limit: read_size(env, "ORKA_SEARCH_LIMIT", 50),
                task: None,
                stop: None,
                hits: HashMap::new(),
                explain: None,
                partial: false,
                preview: Vec::new(),
                prev_text: String::new(),
                changed_at: None,
                debounce_ms: 80,
                preview_sel: None,
                need_focus: false,
            },
            log: String::new(),
            dock_pending: Vec::new(),
            dock_close_pending: Vec::new(),
            details_tab_order: Vec::new(),
            details_tabs_cap: read_size(env, "ORKA_DETAILS_TABS_CAP", 8),
            layout: LayoutState { show_nav: true, show_log: true },
            namespaces: Vec::new(),
            contexts,
            current_context: current,
            ui_debounce: UiDebounce {
                ms: read_number(env, "ORKA_UI_DEBOUNCE_MS", 100),
                pending_count: 0,
                pending_since: None,
            },
            palette: PaletteState {
                open: false,
                query: String::new(),
                results: Vec::new(),
                sel: None,
                changed_at: None,
                debounce_ms: 80,
                need_focus: false,
                mode_global: false,
                prime_task: None,
            },
            ops: OpsState {
                caps: None,
                caps_task: None,
                caps_ns: None,
                caps_gvk: None,
                scale_replicas: 1,
                pf_local: 8080,
                pf_remote: 80,
                pf_running: false,
                pf_cancel: None,
                pf_info: None,
                pf_panel_open: false,
                pf_candidates: Vec::new(),
                pf_ready_addr: None,
                pf_selected_idx: None,
                confirm_delete: None,
                confirm_drain: None,
                scale_prompt_open: false,
            },
            toasts: Vec::new(),
            stats: StatsState {
                open: false,
                loading: false,
                last_error: None,
                data: None,
                task: None,
                last_fetched: None,
                refresh_open_ms: read_number(env, "ORKA_STATS_REFRESH_OPEN_MS", 5000),
                refresh_closed_ms: read_number(env, "ORKA_STATS_REFRESH_CLOSED_MS", 30000),
                index_bytes: None,
                index_docs: None,
            },
            detached: Vec::new(),
            rendering_window_id: None,
            logs_owner: None,
            exec_owner: None,
            svc_logs_owner: None,
            atlas_enabled: read_atlas(env),
            details_cache: HashMap::new(),
            details_ttl_secs: read_number(env, "ORKA_DETAILS_TTL_SECS", 60),
            details_cache_cap: read_size(env, "ORKA_DETAILS_CACHE_CAP", 128),
            idle_repaint_fast_ms: read_number(env, "ORKA_IDLE_FAST_MS", 8),
            idle_repaint_slow_ms: read_number(env, "ORKA_IDLE_SLOW_MS", 120),
            idle_fast_window_ms: read_number(env, "ORKA_IDLE_FAST_WINDOW_MS", 1000),
            last_activity: None,
        }
    }
}

// ---------------------------------------------------------------------------
// Every frame

/// Milliseconds from one time to another; none where the second is earlier.
pub open spec fn ms_between(from: u64, to: u64) -> int {
    if to >= from {
        to - from
    } else {
        0
    }
}

/// Whether the statistics are to be read again: sooner while they are shown.
pub open spec fn stats_are_due(s: StatsState, now: u64) -> bool {
    !s.loading && match s.last_fetched {
        Some(t) => ms_between(t, now) >= if s.open {
            s.refresh_open_ms
        } else {
            s.refresh_closed_ms
        },
        None => true,
    }
}

/// After how long the window is drawn again: sooner while something happens, and not at all
/// while there is nothing to show.
pub open spec fn repaint_delay(a: App, now: u64) -> Option<u64> {
    if a.results.rows@.len() > 0 || a.logs.running {
        if a.last_activity matches Some(t) && ms_between(t, now) <= a.idle_fast_window_ms {
            Some(a.idle_repaint_fast_ms)
        } else {
            Some(a.idle_repaint_slow_ms)
        }
    } else {
        None
    }
}

fn elapsed(from: u64, to: u64) -> (r: u64)
    ensures
        r == ms_between(from, to),
{
    if to >= from {
        to - from
    } else {
        0
    }
}

impl App {
    /// Whether the statistics are to be read again.
    pub fn stats_due(&self, now: u64) -> (r: bool)
        ensures
            r == stats_are_due(self.stats, now),
    {
        if self.stats.loading {
            return false;
        }
        match self.stats.last_fetched {
            Some(t) => {
                let limit: u64 = if self.stats.open {
                    self.stats.refresh_open_ms
                } else {
                    self.stats.refresh_closed_ms
                };
                elapsed(t, now) >= limit
            },
            None => true,
        }
    }

    /// After how long the window is drawn again.
    pub fn repaint_after(&self, now: u64) -> (r: Option<u64>)
        ensures
            r == repaint_delay(*self, now),
    {
        if self.results.rows.len() > 0 || self.logs.running {
            let fast = match self.last_activity {
                Some(t) => elapsed(t, now) <= self.idle_fast_window_ms,
                None => false,
            };
            if fast {
                Some(self.idle_repaint_fast_ms)
            } else {
                Some(self.idle_repaint_slow_ms)
            }
        } else {
            None
        }
    }
}

// ---------------------------------------------------------------------------
// What settings mean

/// A theme goes by its name, in whatever case; what names none is the bright one.
pub proof fn law_theme_named(s: Seq<char>)
    ensures
        ascii_lower(s) == "basic"@ ==> theme_named(s) == PrefixTheme::Basic,
        ascii_lower(s) == "gray"@ || ascii_lower(s) == "grey"@ ==> theme_named(s) == PrefixTheme::Gray,
        ascii_lower(s) == "none"@ ==> theme_named(s) == PrefixTheme::NoColor,
        ascii_lower(s) != "basic"@ && ascii_lower(s) != "gray"@ && ascii_lower(s) != "grey"@ && ascii_lower(s) != "none"@
            ==> theme_named(s) == PrefixTheme::Bright,
{
    reveal_strlit("basic");
    reveal_strlit("gray");
    reveal_strlit("grey");
    reveal_strlit("none");
    assert("basic"@.len() == 5 && "gray"@.len() == 4 && "grey"@.len() == 4 && "none"@.len() == 4);
    assert("gray"@[0] == 'g' && "grey"@[0] == 'g' && "none"@[0] == 'n');
}

/// The atlas is there unless it was switched off; all kinds are warmed unless that was set to
/// something else than yes.
pub proof fn law_switches(env: Seq<(Seq<char>, Seq<char>)>, v: Seq<char>)
    ensures
        setting(env, "ORKA_ATLAS"@) is None ==> atlas_setting(env),
        setting(env, "ORKA_ATLAS"@) == Some(v) ==> (atlas_setting(env) <==> !(v == "0"@ || ascii_lower(v) == ascii_lower(
            "false"@,
        ))),
        setting(env, "ORKA_PREWARM_ALL_BUILTINS"@) is None ==> warm_all_setting(env),
        setting(env, "ORKA_PREWARM_ALL_BUILTINS"@) == Some(v) ==> (warm_all_setting(env) <==> v == "1"@ || ascii_lower(v)
            == ascii_lower("true"@)),
{
}

/// What holds where nothing was set: how many rows, lines and tabs are kept, and how long is
/// waited.
pub proof fn law_defaults(a: App, terminal: Seq<char>)
    requires
        results_start(a.results, Seq::empty()),
        logs_start(a.logs, Seq::empty()),
        svc_logs_start(a.svc_logs, Seq::empty()),
        session_start(a.session, Seq::empty(), terminal),
        ops_start(a.ops),
        searches_start(a, Seq::empty()),
        frame_start(a, Seq::empty()),
    ensures
        a.results.soft_cap == 2000,
        a.logs.backlog_cap == 2000 && a.logs.ring_cap == 10000 && a.svc_logs.ring_cap == 10000,
        a.logs.follow && !a.logs.running && !a.logs.wrap && a.logs.colorize && a.logs.v2,
        a.logs.visible_follow_limit == 1000 && a.svc_logs.visible_follow_limit == 1000,
        a.logs.order_by_ts_when_paused,
        a.session.backlog_cap == 4000 && a.session.cmd@ == "/bin/sh"@ && a.session.external_cmd@ == terminal,
        a.search.limit == 50,
        a.details_tabs_cap == 8,
        a.ui_debounce.ms == 100,
        a.stats.refresh_open_ms == 5000 && a.stats.refresh_closed_ms == 30000,
        a.atlas_enabled,
        a.ops.caps is None && !a.ops.pf_running && a.ops.scale_replicas == 1,
        a.layout.show_nav && a.layout.show_log,
{
}

/// Statistics are read anew after their time, sooner while they are shown, and not while they
/// are being read.
pub proof fn law_stats_due(s: StatsState, read: u64, now: u64)
    requires
        read <= now,
    ensures
        s.loading ==> !stats_are_due(s, now),
        !s.loading && s.last_fetched is None ==> stats_are_due(s, now),
        !s.loading && s.last_fetched == Some(read) && s.open ==> (stats_are_due(s, now) <==> now - read
            >= s.refresh_open_ms),
        !s.loading && s.last_fetched == Some(read) && !s.open ==> (stats_are_due(s, now) <==> now - read
            >= s.refresh_closed_ms),
{
}

/// A window with something to show is drawn again, fast for a while after something happened,
/// and slowly then; one with nothing to show is not.
pub proof fn law_repaint(a: App, t: u64, now: u64)
    requires
        t <= now,
    ensures
        a.results.rows@.len() == 0 && !a.logs.running ==> repaint_delay(a, now) is None,
        a.results.rows@.len() > 0 && a.last_activity == Some(t) && now - t <= a.idle_fast_window_ms ==> repaint_delay(
            a,
            now,
        ) == Some(a.idle_repaint_fast_ms),
        a.results.rows@.len() > 0 && a.last_activity == Some(t) && now - t > a.idle_fast_window_ms ==> repaint_delay(a, now)
            == Some(a.idle_repaint_slow_ms),
        a.logs.running ==> repaint_delay(a, now) is Some,
{
}

} // verus!
