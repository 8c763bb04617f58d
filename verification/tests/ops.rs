use orka::codec::read_json;
use orka::gvk::{gvk_label, parse_gvk_key, parse_gvk_key_to_kind};
use orka::ops::{
    bind_address, caps_from, caps_questions, cordon_patch, drain_step, drain_targets, drain_times, grace_period,
    node_selector, queue_cap, restart_patch, scale_first, scale_next, scale_patch, ssar_check, KubeOps, LinePump,
    LogChunk, PumpEvent, ScaleStep,
};
use std::time::Duration;
use tokio::sync::{mpsc, oneshot};

fn pump_chunks(chunks: Vec<&'static [u8]>, tx: mpsc::Sender<LogChunk>) {
    let mut pump = LinePump::new();
    let mut events: Vec<PumpEvent> = chunks.into_iter().map(|c| PumpEvent::Chunk(c.to_vec())).collect();
    events.push(PumpEvent::Ended);
    for e in events {
        let step = pump.step(e);
        for line in step.lines {
            let _ = tx.try_send(line);
        }
        if step.done {
            break;
        }
    }
}

#[test]
fn splits_lines_across_chunks_and_flushes_tail() {
    let (tx, mut rx) = mpsc::channel::<LogChunk>(16);
    pump_chunks(vec![b"hello\nwor", b"ld\n", b"tail"], tx);
    let mut out = Vec::new();
    while let Ok(c) = rx.try_recv() {
        out.push(c.line);
    }
    assert_eq!(out, vec!["hello", "world", "tail"]);
}

#[test]
fn bounded_channel_drops_when_full() {
    let (tx, mut rx) = mpsc::channel::<LogChunk>(1);
    pump_chunks(vec![b"a\n", b"b\n", b"c\n"], tx);
    let rt = tokio::runtime::Builder::new_current_thread().enable_time().build().unwrap();
    let recv: Vec<String> = rt.block_on(async {
        let mut recv = Vec::new();
        while let Ok(Some(c)) = tokio::time::timeout(Duration::from_millis(50), rx.recv()).await {
            recv.push(c.line);
        }
        recv
    });
    assert!(!recv.is_empty());
    assert!(recv.len() <= 2, "expected dropping when full (got {} lines)", recv.len());
}

#[test]
fn cancel_stops_pump_quickly() {
    let rt = tokio::runtime::Builder::new_current_thread().enable_time().build().unwrap();
    rt.block_on(async {
        let (tx, mut rx) = mpsc::channel::<LogChunk>(16);
        let (cancel_tx, mut cancel_rx) = oneshot::channel::<()>();
        let handle = tokio::spawn(async move {
            let mut pump = LinePump::new();
            loop {
                let event = match tokio::time::timeout(Duration::from_millis(100), &mut cancel_rx).await {
                    Ok(_) => PumpEvent::Cancelled,
                    Err(_) => PumpEvent::Chunk(b"line\n".to_vec()),
                };
                let step = pump.step(event);
                for line in step.lines {
                    let _ = tx.try_send(line);
                }
                if step.done {
                    break;
                }
            }
        });
        tokio::time::sleep(Duration::from_millis(120)).await;
        let _ = cancel_tx.send(());
        let _ = tokio::time::timeout(Duration::from_secs(1), handle).await.expect("pump did not stop");
        let _ = tokio::time::timeout(Duration::from_millis(50), rx.recv()).await;
    });
}

#[test]
fn parse_gvk_key_parses_core() {
    let (g, v, k) = parse_gvk_key("v1/ConfigMap").expect("ok");
    assert_eq!(g, "");
    assert_eq!(v, "v1");
    assert_eq!(k, "ConfigMap");
}

#[test]
fn parse_gvk_key_parses_group() {
    let (g, v, k) = parse_gvk_key("apps/v1/Deployment").expect("ok");
    assert_eq!(g, "apps");
    assert_eq!(v, "v1");
    assert_eq!(k, "Deployment");
}

#[test]
fn parse_gvk_key_invalid_returns_err() {
    assert!(parse_gvk_key("invalid").is_err());
    assert!(parse_gvk_key("").is_err());
    assert!(parse_gvk_key("a/b/c/d").is_err());
}

#[test]
fn a_key_names_a_kind() {
    let k = parse_gvk_key_to_kind("apps/v1/Deployment");
    assert_eq!((k.group.as_str(), k.version.as_str(), k.kind.as_str()), ("apps", "v1", "Deployment"));
    assert_eq!(gvk_label(&k), "apps/v1/Deployment");
    assert_eq!(gvk_label(&parse_gvk_key_to_kind("v1/Pod")), "v1/Pod");
}

#[test]
fn lines_do_not_depend_on_the_chunks() {
    let all: &[u8] = b"one\ntwo\n\nthree";
    for cut in 0..all.len() {
        let mut pump = LinePump::new();
        let mut out: Vec<String> = Vec::new();
        for e in [PumpEvent::Chunk(all[..cut].to_vec()), PumpEvent::Chunk(all[cut..].to_vec()), PumpEvent::Failed] {
            out.extend(pump.step(e).lines.into_iter().map(|l| l.line));
        }
        assert_eq!(out, vec!["one", "two", "", "three"]);
    }
}

#[test]
fn lines_that_are_no_text_are_passed_over() {
    let mut pump = LinePump::new();
    let step = pump.step(PumpEvent::Chunk(b"\xff\xfe\nok\n".to_vec()));
    let lines: Vec<String> = step.lines.into_iter().map(|l| l.line).collect();
    assert_eq!(lines, vec!["ok"]);
    assert!(!step.done);
}

#[test]
fn the_operations_can_be_made() {
    assert_eq!(KubeOps::new(), KubeOps);
}

#[test]
fn settings_of_the_operations() {
    let none: Vec<(String, String)> = Vec::new();
    assert_eq!(queue_cap(&none), 1024);
    assert_eq!(drain_times(&none), (300, 2));
    assert_eq!(bind_address(&none), "127.0.0.1");
    assert_eq!(node_selector("n1"), "spec.nodeName=n1");
}

#[test]
fn patches() {
    let same = |v: orka::json::Json, text: &str| assert!(v.same(&read_json(text.as_bytes()).unwrap()));
    same(scale_patch(3), r#"{"spec": {"replicas": 3}}"#);
    same(cordon_patch(true), r#"{"spec": {"unschedulable": true}}"#);
    same(
        restart_patch("now"),
        r#"{"spec": {"template": {"metadata": {"annotations": {"kubectl.kubernetes.io/restartedAt": "now"}}}}}"#,
    );
}

#[test]
fn scaling_falls_back() {
    assert_eq!(scale_first(false), scale_next(scale_first(true), false));
    assert_eq!(scale_next(scale_first(true), true), ScaleStep::Done);
}

#[test]
fn access_is_asked_for() {
    let q = ssar_check(Some("ns"), "apps", "deployments", Some("scale"), "patch");
    assert_eq!(q.resource, "deployments");
    assert_eq!(caps_questions(Some("ns")).len(), 5);
    let caps = caps_from(Some("ns"), &vec![Some(true), Some(false), None, Some(true), None], None);
    assert!(caps.pods_log_get);
    assert!(!caps.pods_exec_create);
    assert!(!caps.pods_portforward_create);
    assert!(caps.nodes_patch);
    assert_eq!(caps.pods_eviction_create, Some(false));
    assert_eq!(caps_from(None, &vec![Some(true), None, None, None], None).pods_eviction_create, None);
}

#[test]
fn a_grace_period_is_a_number_of_seconds() {
    assert_eq!(grace_period(Some(30)), Some(30));
    assert_eq!(grace_period(None), None);
}

#[test]
fn an_empty_node_is_drained() {
    assert!(drain_targets(&vec![]).is_empty());
    let _ = drain_step(&vec![], false);
}
