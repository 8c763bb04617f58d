use orka::api::{PortForwardEvent, Stats};
use orka::columns::{builtin_columns_for, ColumnKind};
use orka::gui::actions::{
    body_of, cordoned_text, delete_question, is_httpish, metric_values, metrics_request, EditAction,
};
use orka::gui::logs::{rgb, LogStyler, PrefixTheme};
use orka::gui::model::{App, DetailsPaneTab, ToastKind, UiUpdate};
use orka::gui::results::{build_filter_haystack, heading_text};
use orka::gui::setup::{parse_theme, read_atlas, read_warm_lanes};
use orka::gui::streams::{labels_of, service_labels};
use orka::gui::view::{count_label, draw_cell, metrics_url, place_atlas, stats_rows, EmptyTable, RowBack};
use orka::gui::watch::{allows_group, namespaces_of, order_kinds, split_list, WatchCache};
use orka::gui::windows::{place_tab, unused_tabs, DockTab, TabPlace};
use orka::small::{AnnotationVec, LabelVec, ProjectedVec};
use orka::types::{LiteEvent, LiteObj, ResourceKind};

fn row(id: u8, name: &str, ns: &str) -> LiteObj {
    let mut projected = ProjectedVec::new();
    projected.push(100, format!("P{}", id));
    LiteObj {
        uid: [id; 16],
        namespace: Some(ns.to_string()),
        name: name.to_string(),
        creation_ts: 100 + id as i64,
        projected,
        labels: LabelVec::new(),
        annotations: AnnotationVec::new(),
    }
}

fn kind(group: &str, name: &str) -> ResourceKind {
    ResourceKind { group: group.to_string(), version: "v1".to_string(), kind: name.to_string(), namespaced: true }
}

fn app() -> App {
    App::new(&vec![], vec!["c1".to_string()], Some("c1".to_string()), "xterm")
}

fn with_rows() -> App {
    let mut a = app();
    a.kinds = vec![kind("", "Pod"), kind("apps", "Deployment")];
    a.on_select_idx(0);
    a.results.active_cols = builtin_columns_for("", "v1", "Pod", true);
    a.results.apply_snapshot(vec![row(1, "web", "prod"), row(2, "api", "dev"), row(3, "db", "prod")]);
    a
}

fn names(a: &App) -> Vec<&str> {
    a.results.rows.iter().map(|r| r.name.as_str()).collect()
}

#[test]
fn the_state_at_the_start() {
    let a = app();
    assert!(a.results.rows.is_empty());
    assert_eq!(a.details.active_tab, DetailsPaneTab::Describe);
    assert_eq!(a.context_label(), "c1");
    assert_eq!(a.empty_table(0), EmptyTable::Hint);
    assert_eq!(a.reattach_label(), None);
}

#[test]
fn a_table_takes_changes() {
    let mut a = with_rows();
    a.results.apply_applied(row(4, "new", "dev"));
    a.results.apply_applied(row(2, "api2", "dev"));
    a.results.apply_deleted(&[1; 16]);
    let mut v = names(&a);
    v.sort();
    assert_eq!(v, vec!["api2", "db", "new"]);
    assert_eq!(a.results.find(&[2; 16]).unwrap().name, "api2");
    assert!(a.results.find(&[1; 16]).is_none());
    assert!(a.results.knows(&[4; 16]));
    a.results.clear();
    assert!(a.results.rows.is_empty());
}

#[test]
fn a_table_is_sorted() {
    let mut a = with_rows();
    let col = a.results.active_cols.iter().position(|c| matches!(c.kind, ColumnKind::Name)).unwrap();
    a.results.choose_sort(col);
    a.results.apply_sort_if_needed();
    let first = names(&a).join(",");
    a.results.choose_sort(col);
    a.results.apply_sort_if_needed();
    let second = names(&a).join(",");
    let mut both = vec![first, second];
    both.sort();
    assert_eq!(both, vec!["api,db,web", "web,db,api"]);
    assert_ne!(heading_text("Name", true, true), heading_text("Name", true, false));
}

#[test]
fn a_table_is_filtered() {
    let mut a = with_rows();
    assert_eq!(build_filter_haystack(&row(1, "Web", "Prod")), "web prod p1 ");
    a.results.filter = "prod".to_string();
    assert_eq!(a.results.compute_filtered_ix().len(), 2);
    assert_eq!(a.showing_text(), "Showing 2 of 3");
    a.results.filter = "nothing".to_string();
    assert_eq!(a.empty_table(0), EmptyTable::NoMatches);
}

#[test]
fn updates_change_the_state() {
    let mut a = with_rows();
    let styler = LogStyler::new().expect("styler");
    let color = rgb(0, 0, 0);
    a.apply_update(UiUpdate::Namespaces(vec!["x".to_string()]), &styler, color, 1);
    assert_eq!(a.namespaces, vec!["x".to_string()]);
    a.apply_update(UiUpdate::LogLine("hello".to_string()), &styler, color, 1);
    assert_eq!(a.logs.recv, 1);
    assert_eq!(a.logs.ring.len(), 1);
    a.apply_update(UiUpdate::Error("boom".to_string()), &styler, color, 1);
    assert!(a.last_error.as_deref().unwrap().contains("boom"));
    a.apply_update(UiUpdate::PfEvent(PortForwardEvent::Ready("127.0.0.1:80".to_string())), &styler, color, 1);
    assert_eq!(a.ops.pf_ready_addr.as_deref(), Some("127.0.0.1:80"));
    a.apply_update(UiUpdate::StatsReady(Stats::default()), &styler, color, 1);
    assert!(a.stats.data.is_some());
}

#[test]
fn a_log_keeps_its_last_lines() {
    let mut a = app();
    let styler = LogStyler::new().expect("styler");
    a.logs.ring_cap = 3;
    for i in 0..5 {
        a.logs.take_line(&styler, rgb(0, 0, 0), format!("l{}", i));
    }
    let v: Vec<&str> = a.logs.ring.iter().map(|l| l.raw.as_str()).collect();
    assert_eq!(v, vec!["l2", "l3", "l4"]);
    assert_eq!(a.logs.recv, 5);
    assert_eq!(a.logs.dropped, 2);
}

#[test]
fn rows_are_selected() {
    let mut a = with_rows();
    let it = row(1, "web", "prod");
    let _ = a.select_row(&it, 10);
    assert_eq!(a.details.selected, Some([1; 16]));
    assert_eq!(a.row_back(&[1; 16], 1), RowBack::Selected);
    assert_eq!(a.row_back(&[2; 16], 0), RowBack::Stripe);
    assert_eq!(a.row_back(&[2; 16], 1), RowBack::Plain);
    assert_eq!(a.current_pod_selection(), Some(("prod".to_string(), "web".to_string())));
    assert_eq!(a.namespace_of_selected(), "prod");
}

#[test]
fn messages_are_shown_for_a_while() {
    let mut a = app();
    a.toast("hi".to_string(), ToastKind::Info, 100);
    assert_eq!(a.toasts.len(), 1);
    let until = a.toasts[0].duration_ms;
    a.retire_toasts(100 + until - 1);
    assert_eq!(a.toasts.len(), 1);
    a.retire_toasts(100 + until);
    assert!(a.toasts.is_empty());
}

#[test]
fn a_cache_of_rows() {
    let mut c = WatchCache::new();
    c.prime("v1/Pod|", vec![row(1, "a", "x")]);
    c.apply("v1/Pod|", LiteEvent::Applied(row(2, "b", "y")));
    c.apply("v1/Pod|", LiteEvent::Deleted(row(1, "a", "x")));
    let v = c.snapshot("v1/Pod|");
    assert_eq!(v.len(), 1);
    assert_eq!(v[0].name, "b");
    assert_eq!(c.snapshot_all().len(), 1);
    c.reset();
    assert!(c.snapshot("v1/Pod|").is_empty());
    let rows = vec![row(1, "prod", ""), row(2, "dev", "")];
    let mut ns = namespaces_of(&rows);
    ns.sort();
    assert_eq!(ns, vec!["dev", "prod"]);
}

#[test]
fn kinds_are_ordered() {
    let v = order_kinds(vec![kind("b", "X"), kind("", "Pod"), kind("apps", "D")]);
    let g: Vec<&str> = v.iter().map(|k| k.group.as_str()).collect();
    assert_eq!(g, vec!["apps", "b", ""]);
    assert_eq!(split_list(" a, b ,,c"), vec!["a", "b", "c"]);
    assert!(allows_group("core,apps", "apps"));
    assert!(!allows_group("core,apps", "batch"));
}

#[test]
fn settings_of_the_front_end() {
    assert_eq!(parse_theme("basic"), PrefixTheme::Basic);
    assert_eq!(parse_theme("GRAY"), PrefixTheme::Gray);
    assert!(read_warm_lanes(&vec![]) > 0);
    let off = vec![("ORKA_ATLAS".to_string(), "0".to_string())];
    assert!(!read_atlas(&off));
    let mut a = App::new(&off, vec![], None, "xterm");
    assert!(!a.may_open_atlas(5));
    assert_eq!(a.toasts[0].text, "atlas disabled (ORKA_ATLAS=0)");
    assert_eq!(a.context_label(), "(default)");
}

#[test]
fn ports_and_metrics() {
    assert!(is_httpish(80, None));
    assert!(is_httpish(9, Some("http")));
    assert!(!is_httpish(5432, Some("db")));
    assert_eq!(metrics_request("h:1"), "GET /metrics HTTP/1.1\r\nHost: h:1\r\nConnection: close\r\n\r\n");
    assert_eq!(body_of("a\r\n\r\nb"), "b");
    assert_eq!(metric_values("x\r\n\r\nm 12\nm{a=\"b\"} 3\nother 4\n", "m").len(), 2);
    assert!(delete_question("n", "p").contains("n/p"));
    assert_ne!(cordoned_text("a", true), cordoned_text("a", false));
}

#[test]
fn tabs_have_places() {
    let tabs = vec![DockTab::Results, DockTab::DetailsFor([1; 16])];
    assert_eq!(place_tab(&tabs, &[1; 16]), TabPlace::Shown(1));
    assert_eq!(place_atlas(&vec![]), TabPlace::Split);
    assert_eq!(place_atlas(&tabs), TabPlace::Beside(0));
    assert_eq!(place_atlas(&vec![DockTab::Results, DockTab::Atlas]), TabPlace::Shown(1));
    assert_eq!(unused_tabs(&vec![[1; 16], [2; 16]], &vec![[2; 16]]), vec![[1; 16]]);
}

#[test]
fn the_oldest_tab_is_closed() {
    let mut a = app();
    a.details_tabs_cap = 2;
    assert!(a.note_opened_details_uid([1; 16]).is_empty());
    assert!(a.note_opened_details_uid([2; 16]).is_empty());
    assert!(a.note_opened_details_uid([1; 16]).is_empty());
    assert_eq!(a.note_opened_details_uid([3; 16]), vec![[2; 16]]);
}

#[test]
fn windows_are_opened_and_attached_again() {
    let mut a = with_rows();
    let _ = a.select_row(&row(1, "web", "prod"), 1);
    assert!(a.open_detached_for([1; 16], 7, 2));
    assert_eq!(a.detached.len(), 1);
    assert_eq!(a.find_window(7), Some(0));
    assert_eq!(a.reattach_label().as_deref(), Some("Reattach All (1)"));
    let closed = a.reattach_all(3);
    assert_eq!(closed, vec![(7, [1; 16])]);
    assert!(a.detached.is_empty());
    assert_eq!(a.toasts.last().unwrap().text, "reattached 1");
    assert!(a.dock_pending.contains(&[1; 16]));
}

#[test]
fn the_palette_and_the_search_find_rows() {
    let mut a = with_rows();
    a.palette.query = "web".to_string();
    let rows = vec![("v1/Pod".to_string(), row(1, "web", "prod")), ("v1/Pod".to_string(), row(3, "db", "prod"))];
    a.rebuild_palette_results(&rows);
    assert_eq!(a.palette.results.len(), 1);
    assert_eq!(a.palette.results[0].obj.name, "web");
    a.palette.query = "ns:dev web".to_string();
    a.rebuild_palette_results(&rows);
    assert!(a.palette.results.is_empty());
    a.search.query = "api".to_string();
    a.rebuild_search_preview();
    assert_eq!(a.search.preview[0].0, [2; 16]);
}

#[test]
fn labels_of_a_service() {
    assert_eq!(service_labels(br#"{"spec": {"selector": {"app": "web", "tier": "x"}}}"#), "app=web,tier=x");
    assert_eq!(labels_of(&orka::codec::read_json(b"{}").unwrap()), "");
}

#[test]
fn the_map_of_namespaces() {
    let mut a = with_rows();
    a.click_namespace("prod");
    assert_eq!(a.selection.namespace, "prod");
    assert!(a.graph.is_open("prod"));
    let mut c = WatchCache::new();
    c.prime("v1/Pod|prod", vec![row(1, "a", "prod"), row(2, "b", "prod")]);
    assert_eq!(a.graph.count("prod", "Pods", "v1/Pod", &c), 2);
    c.reset();
    assert_eq!(a.graph.count("prod", "Pods", "v1/Pod", &c), 2);
    a.click_namespace("prod");
    assert_eq!(a.selection.namespace, "");
    assert!(!a.graph.is_open("prod"));
    assert_eq!(count_label("Pods", 2), "Pods (2)");
    assert_eq!(draw_cell("web".to_string(), true, &ColumnKind::Name), "\u{2605} web");
    assert_eq!(draw_cell("web".to_string(), true, &ColumnKind::Age), "web");
}

#[test]
fn statistics() {
    let mut s = Stats::default();
    s.max_labels_per_obj = Some(4);
    let rows = stats_rows(&s);
    assert_eq!(rows.len(), 4);
    assert_eq!(rows[3], ("Max labels per object".to_string(), "4".to_string()));
    assert_eq!(metrics_url(&s), None);
    s.metrics_addr = Some("h:1".to_string());
    assert_eq!(metrics_url(&s).as_deref(), Some("http://h:1/metrics"));
}

#[test]
fn edits_are_started() {
    let mut a = with_rows();
    a.edit.original = "a".to_string();
    a.edit.typed("b".to_string());
    assert!(a.edit.dirty);
    let _ = a.start_edit_task(EditAction::Diff);
    a.edit.reset();
    assert_eq!(a.edit.buffer, "a");
    assert!(!a.edit.dirty);
}
