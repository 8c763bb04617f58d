use orka::api::snapshot_asks_schema;
use orka::codec::read_json;
use orka::columns::{builtin_columns_for, ColumnKind, Projector};
use orka::gui::actions::explain_rows;
use orka::gui::details::{session_output, theme_label};
use orka::gui::external::{Launch, Platform};
use orka::gui::logs::PrefixTheme;
use orka::gui::model::{App, DetailsPaneTab, GraphViewMode, PfInfo, PortCandidate, SearchExplain, ToastKind};
use orka::gui::results::VirtualMode;
use orka::gui::search::map_hits;
use orka::gui::setup::{read_warm_all, read_warm_groups, read_warm_kinds};
use orka::gui::view::toast_colors;
use orka::gui::windows::DockTab;
use orka::kubehub::LiteShape;
use orka::small::{AnnotationVec, LabelVec, ProjectedVec};
use orka::types::{LiteObj, ResourceKind};
use std::collections::VecDeque;

fn row(id: u8, name: &str) -> LiteObj {
    LiteObj {
        uid: [id; 16],
        namespace: Some("prod".to_string()),
        name: name.to_string(),
        creation_ts: 1,
        projected: ProjectedVec::new(),
        labels: LabelVec::new(),
        annotations: AnnotationVec::new(),
    }
}

fn app() -> App {
    let mut a = App::new(&vec![], vec![], Some("c1".to_string()), "xterm");
    a.kinds = vec![ResourceKind {
        group: String::new(),
        version: "v1".to_string(),
        kind: "Pod".to_string(),
        namespaced: true,
    }];
    a.on_select_idx(0);
    a.results.apply_snapshot(vec![row(1, "web"), row(2, "api")]);
    let _ = a.select_row(&row(1, "web"), 1);
    a
}

#[test]
fn ports_are_chosen() {
    let mut a = app();
    assert_eq!(a.ops.port_choice(), None);
    assert_eq!(a.ops.forward_line(), "None");
    a.ops.pf_local = 0;
    a.ops.pf_candidates = vec![
        PortCandidate { port: 80, name: Some("http".to_string()) },
        PortCandidate { port: 443, name: None },
    ];
    assert_eq!(a.ops.pf_candidates[0].label(), "80 (http)");
    a.ops.choose_port(1);
    assert_eq!((a.ops.port_choice(), a.ops.pf_remote, a.ops.pf_local), (Some(1), 443, 443));
    a.ops.choose_port(0);
    assert_eq!((a.ops.pf_remote, a.ops.pf_local), (80, 443));
    a.ops.pf_info = Some(PfInfo { namespace: "n".to_string(), pod: "p".to_string(), local: 1, remote: 2 });
    assert_eq!(a.ops.forward_line(), "n/p  1 \u{2192} 2");
}

#[test]
fn a_search_is_explained() {
    let e = SearchExplain {
        total: 9,
        after_ns: 8,
        after_label_keys: 7,
        after_labels: 6,
        after_anno_keys: 5,
        after_annos: 4,
        after_fields: 3,
    };
    let rows = explain_rows(&e);
    assert_eq!(rows.len(), 7);
    assert_eq!(rows[6], ("After fields".to_string(), "3".to_string()));
    let items = vec![row(1, "a"), row(2, "b")];
    assert_eq!(map_hits(&items, &vec![(1, 5), (7, 4), (0, 3)]), vec![([2; 16], 5), ([1; 16], 3)]);
}

#[test]
fn a_session_has_a_size_and_output() {
    let mut a = app();
    assert_eq!(a.session.sized(80, 24), None);
    a.session.resize = Some(7);
    assert_eq!(a.session.sized(80, 24), Some((7, 80, 24)));
    assert_eq!(a.session.sized(80, 24), None);
    let backlog: VecDeque<String> = vec!["one\n".to_string(), "two".to_string()].into_iter().collect();
    assert_eq!(session_output(&backlog), "one\ntwo");
    assert_eq!(theme_label(PrefixTheme::NoColor), "None");
}

#[test]
fn one_command_is_run() {
    let mut a = app();
    a.session.cmd = "ls".to_string();
    let (_, args) = a.start_exec_oneshot_task();
    let want = ["--context", "c1", "-n", "prod", "exec", "web", "--", "/bin/sh", "-lc", "ls"];
    assert_eq!(args.unwrap(), want.iter().map(|s| s.to_string()).collect::<Vec<String>>());
    a.session.external_cmd = " xterm ".to_string();
    let plan = a.open_external_exec(Platform::Unix).unwrap();
    assert!(matches!(&plan[0], Launch::Run { program, .. } if program == "xterm"));
    a.external_exec_failed();
    assert!(a.last_error.is_some());
}

#[test]
fn tables_draw_what_is_in_view() {
    let mut a = app();
    a.results.soft_cap = 1;
    assert!(a.results.should_virtual(2));
    assert_eq!(a.results.large_set_warning().unwrap(), "Large result set: showing the first 1 of 2. Refine filters to narrow down.");
    a.results.virtual_mode = VirtualMode::Off;
    assert!(!a.results.should_virtual(2));
}

#[test]
fn kinds_are_read_ahead() {
    let a = app();
    assert!(read_warm_all(&vec![]));
    assert_eq!(read_warm_kinds(&vec![])[0], "v1/Pod");
    assert_eq!(a.kinds_to_warm(&read_warm_groups(&vec![])), vec!["v1/Pod"]);
    assert!(a.kinds_to_warm("apps").is_empty());
    assert!(!a.selected_is_secret());
    let on = vec![("ORKA_SCHEMA_OFFLINE_ONLY".to_string(), "1".to_string())];
    assert!(!snapshot_asks_schema(&on, "cert-manager.io"));
}

#[test]
fn a_watch_is_set_off_once() {
    let mut a = app();
    assert!(!a.watch_current());
    let w = a.ensure_watch_for_selection(5).unwrap();
    assert_eq!(w.gvk_key, "v1/Pod");
    assert!(a.watch_current());
}

#[test]
fn containers_of_a_log_view() {
    let mut a = app();
    let list = vec!["x".to_string(), "y".to_string()];
    a.logs.container = Some("gone".to_string());
    a.logs.ensure_log_containers(&list, Some("y"));
    assert_eq!(a.logs.container.as_deref(), Some("y"));
    a.logs.ensure_log_containers(&list, None);
    assert_eq!(a.logs.container.as_deref(), Some("y"));
    a.logs.container = None;
    a.logs.ensure_log_containers(&list, None);
    assert_eq!(a.logs.container.as_deref(), Some("x"));
}

#[test]
fn a_window_is_drawn_with_its_own_state() {
    let mut a = app();
    assert!(a.open_detached_for([1; 16], 9, 3));
    a.details.active_tab = DetailsPaneTab::Logs;
    a.detached[0].state.active_tab = DetailsPaneTab::Edit;
    a.detached[0].state.logs.grep = "own".to_string();
    let kept = a.enter_window(0);
    assert_eq!(a.details.active_tab, DetailsPaneTab::Edit);
    assert_eq!(a.logs.grep, "own");
    a.leave_window(0, kept);
    assert_eq!(a.details.active_tab, DetailsPaneTab::Logs);
    assert_eq!(a.detached[0].state.logs.grep, "own");
    let _ = a.close_detached(9);
    assert!(a.detached.is_empty());
}

#[test]
fn a_focused_tab_selects_its_row() {
    let mut a = app();
    assert!(a.focus_tab([1; 16], 5).is_none());
    assert!(a.focus_tab([9; 16], 5).is_none());
    let s = a.focus_tab([2; 16], 5).unwrap();
    assert_eq!(s.uid, [2; 16]);
    assert_eq!(a.details.selected, Some([2; 16]));
    assert_eq!(a.tab_title(DockTab::DetailsFor([2; 16])), "Details: prod/api");
    a.choose_graph_mode(GraphViewMode::Atlas);
    assert_eq!(a.graph.mode, GraphViewMode::Atlas);
}

#[test]
fn the_palette_searches_every_kind() {
    let mut a = app();
    assert!(a.palette.choose_mode(true));
    assert!(!a.palette.choose_mode(true));
    assert_eq!(a.start_palette_global_prime(), Some(vec!["v1/Pod".to_string()]));
    a.palette.prime_task = Some(1);
    assert_eq!(a.start_palette_global_prime(), None);
    assert_eq!(toast_colors(ToastKind::Info), None);
    a.search.query = " ".to_string();
    assert!(a.search.can_clear());
    assert!(!a.search.shows_preview());
}

#[test]
fn projected_fields_have_columns() {
    let raw = read_json(
        br#"{"spec": {"nodeName": "n1"}, "status": {"phase": "Running",
             "containerStatuses": [{"ready": true, "restartCount": 2}, {"ready": false, "restartCount": 1}]}}"#,
    )
    .unwrap();
    let fields = LiteShape::new("", "v1", "Pod", &vec![]).projector.unwrap().project(&raw);
    let cols = builtin_columns_for("", "v1", "Pod", true);
    assert_eq!(fields.len(), 4);
    for i in 0..fields.len() {
        let (id, _) = fields.get(i);
        assert!(cols.iter().any(|c| c.kind == ColumnKind::Projected(id)));
    }
    assert_eq!(fields.get(0).1, "1/2");
    assert_eq!(fields.get(1).1, "3");
}
