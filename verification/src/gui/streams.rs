//! Streams of the selected object: its logs, the logs of a service, and sessions in its
//! containers.
use crate::codec::{json_read, parse_json};
use crate::gui::details::all_containers;
use crate::gui::graph::requirements;
use crate::gui::logs::PrefixTheme;
use crate::gui::model::{App, ExecState, Handle, LogsState, ServiceLogsState};
use crate::gui::nav::core_selected;
use crate::gui::results::{row_of, table};
use crate::json::{member_views, Json, JsonView};
use crate::ops::LogOptions;
use crate::text::{
    cat2, cat3, cat4, copy_text, join, join_text, opt_text, same_text, split_words, starts, texts, trim, trimmed,
    words,
};
use crate::types::{clone_option, uid_key, LiteObj, LiteView, ResourceKind, ResourceRef};
use std::collections::VecDeque;
use vstd::prelude::*;
use vstd::string::*;

verus! {

// ---------------------------------------------------------------------------
// The selected object

/// The row of the selected object.
pub open spec fn selected_row(a: App) -> Option<LiteView> {
    match a.details.selected {
        Some(u) => row_of(table(a.results), uid_key(u)),
        None => None,
    }
}

/// The namespace and the name of the selected object, where a core kind of a given name is
/// chosen and the object has a namespace.
pub open spec fn selected_in(a: App, kind: Seq<char>) -> Option<(Seq<char>, Seq<char>)> {
    if core_selected(a, kind) {
        match selected_row(a) {
            Some(row) => match row.namespace {
                Some(ns) => Some((ns, row.name)),
                None => None,
            },
            None => None,
        }
    } else {
        None
    }
}

/// The name of the selected node.
pub open spec fn selected_node(a: App) -> Option<Seq<char>> {
    if core_selected(a, "Node"@) {
        match selected_row(a) {
            Some(row) => Some(row.name),
            None => None,
        }
    } else {
        None
    }
}

/// The texts of an optional pair.
pub open spec fn opt_pair(p: Option<(String, String)>) -> Option<(Seq<char>, Seq<char>)> {
    match p {
        Some((a, b)) => Some((a@, b@)),
        None => None,
    }
}

/// Whether the log stream of the selected pod was started, and what came of it.
pub open spec fn logs_started(pre: App, r: (Stopped, Option<LogsRequest>), post: App) -> bool {
    &&& r.0.cancel == pre.logs.cancel
    &&& r.0.abort == pre.logs.task
    &&& match selected_in(pre, "Pod"@) {
        Some(pod) => {
            &&& r.1 matches Some(q) && logs_asked(pre.logs, pod, q)
            &&& post == (App { logs: post.logs, ..pre })
            &&& logs_restarted(pre.logs, true, post.logs)
        },
        None => {
            &&& r.1 is None
            &&& post == (App { logs: post.logs, last_error: post.last_error, ..pre })
            &&& logs_restarted(pre.logs, false, post.logs)
            &&& opt_text(post.last_error) == Some("logs: select a Pod first"@)
        },
    }
}

/// Whether a session in the selected pod was started, and what came of it.
pub open spec fn session_started(pre: App, r: (Stopped, Option<ExecRequest>), post: App) -> bool {
    &&& r.0.cancel == pre.session.cancel
    &&& r.0.abort == pre.session.task
    &&& post == (App { session: post.session, last_error: post.last_error, ..pre })
    &&& session_restarted(pre.session, r.1 is Some, post.session)
    &&& match selected_in(pre, "Pod"@) {
        None => r.1 is None && opt_text(post.last_error) == Some("exec: select a Pod first"@),
        Some(pod) => {
            let cmd = words(session_command(pre.session.cmd@));
            if cmd.len() == 0 {
                r.1 is None && opt_text(post.last_error) == Some("exec: command is empty"@)
            } else {
                &&& r.1 matches Some(q) && {
                    &&& q.namespace@ == pod.0
                    &&& q.pod@ == pod.1
                    &&& opt_text(q.container) == opt_text(pre.session.container)
                    &&& texts(q.command@) == cmd
                    &&& q.pty == pre.session.pty
                }
                &&& post.last_error == pre.last_error
            }
        },
    }
}

impl App {
    /// The row of the selected object.
    pub fn row_of_selected(&self) -> (r: Option<&LiteObj>)
        ensures
            match r {
                Some(o) => selected_row(*self) == Some(o@),
                None => selected_row(*self) is None,
            },
    {
        match &self.details.selected {
            Some(u) => self.results.find(u),
            None => None,
        }
    }

    fn namespaced_selection(&self) -> (r: Option<(String, String)>)
        ensures
            opt_pair(r) == (match selected_row(*self) {
                Some(row) => match row.namespace {
                    Some(ns) => Some((ns, row.name)),
                    None => None,
                },
                None => None,
            }),
    {
        match self.row_of_selected() {
            Some(row) => match &row.namespace {
                Some(ns) => Some((ns.clone(), row.name.clone())),
                None => None,
            },
            None => None,
        }
    }

    /// The namespace and the name of the selected pod.
    pub fn current_pod_selection(&self) -> (r: Option<(String, String)>)
        ensures
            opt_pair(r) == selected_in(*self, "Pod"@),
    {
        if self.selected_is_pod() {
            self.namespaced_selection()
        } else {
            None
        }
    }

    /// The namespace and the name of the selected service.
    pub fn current_service_selection(&self) -> (r: Option<(String, String)>)
        ensures
            opt_pair(r) == selected_in(*self, "Service"@),
    {
        if self.selected_is_service() {
            self.namespaced_selection()
        } else {
            None
        }
    }

    /// The name of the selected node.
    pub fn current_node_selection(&self) -> (r: Option<String>)
        ensures
            opt_text(r) == selected_node(*self),
    {
        if !self.selected_is_node() {
            return None;
        }
        match self.row_of_selected() {
            Some(row) => Some(row.name.clone()),
            None => None,
        }
    }
}

/// The tasks of a stream that are to stop.
pub struct Stopped {
    pub cancel: Option<Handle>,
    pub abort: Option<Handle>,
}

// ---------------------------------------------------------------------------
// Logs

/// A log stream that is to start: of one container, of the default one, or of all of them.
pub struct LogsRequest {
    pub namespace: String,
    pub pod: String,
    pub container: Option<String>,
    pub options: LogOptions,
    pub theme: PrefixTheme,
}

/// The log view with its stream stopped.
pub open spec fn logs_stopped(l: LogsState) -> LogsState {
    LogsState { cancel: None, task: None, running: false, ..l }
}

/// Whether the log view was emptied for a new stream.
pub open spec fn logs_restarted(pre: LogsState, running: bool, post: LogsState) -> bool {
    &&& post == (LogsState {
        cancel: None,
        task: None,
        running,
        backlog: post.backlog,
        ring: post.ring,
        dropped: 0,
        recv: 0,
        ..pre
    })
    &&& post.backlog@.len() == 0
    &&& post.ring@.len() == 0
}

/// Whether a request asks for the logs of a pod as the view is set up.
pub open spec fn logs_asked(l: LogsState, pod: (Seq<char>, Seq<char>), q: LogsRequest) -> bool {
    &&& q.namespace@ == pod.0
    &&& q.pod@ == pod.1
    &&& opt_text(q.container) == opt_text(l.container)
    &&& q.options == (LogOptions {
        follow: l.follow,
        tail_lines: l.tail_lines,
        since_seconds: l.since_seconds,
    })
    &&& q.theme == l.prefix_theme
}

impl App {
    /// Stop the log stream.
    pub fn stop_logs_task(&mut self) -> (r: Stopped)
        ensures
            r.cancel == old(self).logs.cancel,
            r.abort == old(self).logs.task,
            *final(self) == (App { logs: logs_stopped(old(self).logs), ..*old(self) }),
    {
        let cancel = self.logs.cancel;
        let abort = self.logs.task;
        self.logs.cancel = None;
        self.logs.task = None;
        self.logs.running = false;
        Stopped { cancel, abort }
    }

    /// Start the log stream of the selected pod; the one before is to stop.
    pub fn start_logs_task(&mut self) -> (r: (Stopped, Option<LogsRequest>))
        ensures
            logs_started(*old(self), r, *final(self)),
    {
        let pod = self.current_pod_selection();
        let stopped = self.stop_logs_task();
        self.logs.backlog = VecDeque::new();
        self.logs.ring = VecDeque::new();
        self.logs.dropped = 0;
        self.logs.recv = 0;
        match pod {
            None => {
                self.last_error = Some(copy_text("logs: select a Pod first"));
                (stopped, None)
            },
            Some((namespace, pod)) => {
                self.logs.running = true;
                let q = LogsRequest {
                    namespace,
                    pod,
                    container: clone_option(&self.logs.container),
                    options: LogOptions {
                        follow: self.logs.follow,
                        tail_lines: self.logs.tail_lines,
                        since_seconds: self.logs.since_seconds,
                    },
                    theme: self.logs.prefix_theme,
                };
                (stopped, Some(q))
            },
        }
    }
}

impl LogsRequest {
    /// Whether the logs of all containers are asked for.
    pub fn wants_all(&self) -> (r: bool)
        ensures
            r == (opt_text(self.container) == Some(all_containers())),
    {
        match &self.container {
            Some(c) => same_text(c.as_str(), "(all)"),
            None => false,
        }
    }
}

/// The message where the containers of a pod cannot be read.
pub fn pod_spec_error(err: &str) -> (r: String)
    ensures
        r@ == "logs: pod spec: "@ + err@,
{
    cat2("logs: pod spec: ", err)
}

/// The message where the stream of a container fails.
pub fn container_error(container: &str, err: &str) -> (r: String)
    ensures
        r@ == "logs["@ + container@ + "]: "@ + err@,
{
    cat4("logs[", container, "]: ", err)
}

// ---------------------------------------------------------------------------
// Logs of a service

/// Log streams of the pods of a service that are to start.
pub struct ServiceLogsRequest {
    pub namespace: String,
    pub service: String,
    pub reference: ResourceRef,
    pub options: LogOptions,
    pub theme: PrefixTheme,
}

/// Whether the log view of a service was emptied for new streams.
pub open spec fn svc_logs_restarted(pre: ServiceLogsState, running: bool, post: ServiceLogsState) -> bool {
    &&& post == (ServiceLogsState {
        cancel: None,
        task: None,
        running,
        ring: post.ring,
        dropped: 0,
        recv: 0,
        ..pre
    })
    &&& post.ring@.len() == 0
}

/// Whether a request asks for the logs of a service as the view is set up.
pub open spec fn svc_logs_asked(l: ServiceLogsState, svc: (Seq<char>, Seq<char>), q: ServiceLogsRequest) -> bool {
    &&& q.namespace@ == svc.0
    &&& q.service@ == svc.1
    &&& q.reference.cluster is None
    &&& q.reference.gvk@ == crate::gui::graph::core_kind("v1"@, "Service"@)
    &&& opt_text(q.reference.namespace) == Some(svc.0)
    &&& q.reference.name@ == svc.1
    &&& q.options == (LogOptions {
        follow: l.follow,
        tail_lines: l.tail_lines,
        since_seconds: l.since_seconds,
    })
    &&& q.theme == l.prefix_theme
}

impl App {
    /// Stop the log streams of the service.
    pub fn stop_service_logs_task(&mut self) -> (r: Stopped)
        ensures
            r.cancel == old(self).svc_logs.cancel,
            r.abort == old(self).svc_logs.task,
            *final(self) == (App {
                svc_logs: ServiceLogsState {
                    cancel: None,
                    task: None,
                    running: false,
                    ..old(self).svc_logs
                },
                ..*old(self)
            }),
    {
        let cancel = self.svc_logs.cancel;
        let abort = self.svc_logs.task;
        self.svc_logs.cancel = None;
        self.svc_logs.task = None;
        self.svc_logs.running = false;
        Stopped { cancel, abort }
    }

    /// Start the log streams of the selected service; those before are to stop. Their lines
    /// go to the window that is being drawn.
    pub fn start_service_logs_task(&mut self) -> (r: (Stopped, Option<ServiceLogsRequest>))
        ensures
            r.0.cancel == old(self).svc_logs.cancel,
            r.0.abort == old(self).svc_logs.task,
            match selected_in(*old(self), "Service"@) {
                Some(svc) => {
                    &&& r.1 matches Some(q) && svc_logs_asked(old(self).svc_logs, svc, q)
                    &&& *final(self) == (App {
                        svc_logs: final(self).svc_logs,
                        svc_logs_owner: old(self).rendering_window_id,
                        ..*old(self)
                    })
                    &&& svc_logs_restarted(old(self).svc_logs, true, final(self).svc_logs)
                },
                None => {
                    &&& r.1 is None
                    &&& *final(self) == (App {
                        svc_logs: final(self).svc_logs,
                        last_error: final(self).last_error,
                        ..*old(self)
                    })
                    &&& svc_logs_restarted(old(self).svc_logs, false, final(self).svc_logs)
                    &&& opt_text(final(self).last_error) == Some(
                        "service logs: select a Service first"@,
                    )
                },
            },
    {
        let svc = self.current_service_selection();
        let stopped = self.stop_service_logs_task();
        self.svc_logs.ring = VecDeque::new();
        self.svc_logs.recv = 0;
        self.svc_logs.dropped = 0;
        match svc {
            None => {
                self.last_error = Some(copy_text("service logs: select a Service first"));
                (stopped, None)
            },
            Some((namespace, service)) => {
                self.svc_logs.running = true;
                self.svc_logs_owner = self.rendering_window_id;
                let gvk = ResourceKind {
                    group: String::new(),
                    version: copy_text("v1"),
                    kind: copy_text("Service"),
                    namespaced: true,
                };
                assert(gvk@.group =~= Seq::empty());
                let reference = ResourceRef {
                    cluster: None,
                    gvk,
                    namespace: Some(namespace.clone()),
                    name: service.clone(),
                };
                let q = ServiceLogsRequest {
                    namespace,
                    service,
                    reference,
                    options: LogOptions {
                        follow: self.svc_logs.follow,
                        tail_lines: self.svc_logs.tail_lines,
                        since_seconds: self.svc_logs.since_seconds,
                    },
                    theme: self.svc_logs.prefix_theme,
                };
                (stopped, Some(q))
            },
        }
    }
}

/// The label selector of the pods of a service, in the order of the members; empty where
/// the service has none.
pub open spec fn pod_labels(v: Option<JsonView>) -> Seq<char> {
    match v {
        Some(x) => match x.object_of2("spec"@, "selector"@) {
            Some(m) => join(requirements(m), ","@),
            None => Seq::empty(),
        },
        None => Seq::empty(),
    }
}

/// The label selector of the pods of a service.
pub fn labels_of(v: &Json) -> (r: String)
    ensures
        r@ == pod_labels(Some(v@)),
{
    match v.object_of2("spec", "selector") {
        None => String::new(),
        Some(m) => {
            let ghost mv = member_views(m@);
            let mut items: Vec<String> = Vec::new();
            let mut i: usize = 0;
            assert(texts(items@) =~= requirements(mv.take(0)));
            while i < m.len()
                invariant
                    i <= m.len(),
                    mv == member_views(m@),
                    texts(items@) == requirements(mv.take(i as int)),
                decreases m.len() - i,
            {
                assert(mv.take(i + 1).drop_last() =~= mv.take(i as int));
                assert(mv.take(i + 1).last() == (m@[i as int].0@, m@[i as int].1@));
                let ghost before = texts(items@);
                if let Some(t) = m[i].1.as_str() {
                    let item = cat3(m[i].0.as_str(), "=", t);
                    let ghost iv = item@;
                    items.push(item);
                    assert(texts(items@) =~= before.push(iv));
                }
                i += 1;
            }
            assert(mv.take(mv.len() as int) =~= mv);
            join_text(&items, ",")
        },
    }
}

/// The label selector of the pods of a service, given the bytes of the service.
pub fn service_labels(bytes: &[u8]) -> (r: String)
    ensures
        r@ == pod_labels(json_read(bytes@)),
{
    match parse_json(bytes) {
        Some(v) => labels_of(&v),
        None => String::new(),
    }
}

/// The message where a step of the log streams of a service fails.
pub fn service_error(step: &str, err: &str) -> (r: String)
    ensures
        r@ == "svc_logs: "@ + step@ + ": "@ + err@,
{
    cat4("svc_logs: ", step, ": ", err)
}

/// What is said where a service has no pods.
pub fn no_pods_error() -> (r: String)
    ensures
        r@ == "svc_logs: no matching pods"@,
{
    copy_text("svc_logs: no matching pods")
}

// ---------------------------------------------------------------------------
// Sessions

/// A session that is to start.
pub struct ExecRequest {
    pub namespace: String,
    pub pod: String,
    pub container: Option<String>,
    pub command: Vec<String>,
    pub pty: bool,
}

/// Whether the session view was emptied for a new session.
pub open spec fn session_restarted(pre: ExecState, running: bool, post: ExecState) -> bool {
    &&& post == (ExecState {
        cancel: None,
        task: None,
        running,
        input: None,
        resize: None,
        backlog: post.backlog,
        dropped: 0,
        recv: 0,
        ..pre
    })
    &&& post.backlog@.len() == 0
}

/// The command of a session: the one that was typed, else a shell.
pub open spec fn session_command(cmd: Seq<char>) -> Seq<char> {
    if trimmed(cmd).len() == 0 {
        "/bin/sh"@
    } else {
        cmd
    }
}

fn read_command(cmd: &str) -> (r: String)
    ensures
        r@ == session_command(cmd@),
{
    let t = trim(cmd);
    if t.as_str().is_empty() {
        copy_text("/bin/sh")
    } else {
        copy_text(cmd)
    }
}

impl App {
    /// Stop the session.
    pub fn stop_exec_task(&mut self) -> (r: Stopped)
        ensures
            r.cancel == old(self).session.cancel,
            r.abort == old(self).session.task,
            *final(self) == (App {
                session: crate::gui::updates::session_ended(old(self).session),
                ..*old(self)
            }),
    {
        let cancel = self.session.cancel;
        let abort = self.session.task;
        self.session.finish();
        Stopped { cancel, abort }
    }

    /// Start a session in the selected pod; the one before is to stop. The command is split
    /// at white space.
    pub fn start_exec_task(&mut self) -> (r: (Stopped, Option<ExecRequest>))
        ensures
            session_started(*old(self), r, *final(self)),
    {
        let pod = self.current_pod_selection();
        let stopped = self.stop_exec_task();
        self.session.backlog = VecDeque::new();
        self.session.dropped = 0;
        self.session.recv = 0;
        match pod {
            None => {
                self.last_error = Some(copy_text("exec: select a Pod first"));
                (stopped, None)
            },
            Some((namespace, pod)) => {
                let text = read_command(self.session.cmd.as_str());
                let command = split_words(text.as_str());
                if command.len() == 0 {
                    self.last_error = Some(copy_text("exec: command is empty"));
                    return (stopped, None);
                }
                self.session.running = true;
                let q = ExecRequest {
                    namespace,
                    pod,
                    container: clone_option(&self.session.container),
                    command,
                    pty: self.session.pty,
                };
                (stopped, Some(q))
            },
        }
    }

    /// Run one command in the selected pod; the task before is to stop. The arguments are
    /// those of `kubectl`.
    pub fn start_exec_oneshot_task(&mut self) -> (r: (Option<Handle>, Option<Vec<String>>))
        ensures
            r.0 == old(self).session.task,
            match selected_in(*old(self), "Pod"@) {
                None => {
                    &&& r.1 is None
                    &&& *final(self) == (App {
                        session: final(self).session,
                        last_error: final(self).last_error,
                        ..*old(self)
                    })
                    &&& oneshot_restarted(old(self).session, old(self).session.running, final(self).session)
                    &&& opt_text(final(self).last_error) == Some("exec: select a Pod first"@)
                },
                Some(pod) => {
                    &&& r.1 matches Some(args) && texts(args@) == oneshot_args(
                        opt_text(old(self).current_context),
                        pod,
                        opt_text(old(self).session.container),
                        old(self).session.cmd@,
                    )
                    &&& *final(self) == (App { session: final(self).session, ..*old(self) })
                    &&& oneshot_restarted(old(self).session, true, final(self).session)
                },
            },
    {
        let pod = self.current_pod_selection();
        let abort = self.session.task;
        self.session.task = None;
        self.session.backlog = VecDeque::new();
        self.session.dropped = 0;
        self.session.recv = 0;
        match pod {
            None => {
                self.last_error = Some(copy_text("exec: select a Pod first"));
                (abort, None)
            },
            Some((ns, pod)) => {
                self.session.running = true;
                let t = trim(self.session.cmd.as_str());
                let cmd = if t.as_str().is_empty() {
                    copy_text("/bin/sh -c 'echo shell missing'")
                } else {
                    self.session.cmd.clone()
                };
                let mut args = target_args(
                    &self.current_context,
                    ns.as_str(),
                    pod.as_str(),
                    &self.session.container,
                    false,
                );
                let ghost head = texts(args@);
                args.push(copy_text("/bin/sh"));
                args.push(copy_text("-lc"));
                args.push(cmd);
                assert(texts(args@) =~= head.push("/bin/sh"@).push("-lc"@).push(cmd@));
                (abort, Some(args))
            },
        }
    }
}

/// Whether the session view was emptied for one command.
pub open spec fn oneshot_restarted(pre: ExecState, running: bool, post: ExecState) -> bool {
    &&& post == (ExecState {
        task: None,
        running,
        backlog: post.backlog,
        dropped: 0,
        recv: 0,
        ..pre
    })
    &&& post.backlog@.len() == 0
}

/// The arguments of `kubectl` up to the command: the context where one is in use, the
/// namespace, the pod, and the container where one is chosen.
pub open spec fn exec_args(
    context: Option<Seq<char>>,
    pod: (Seq<char>, Seq<char>),
    container: Option<Seq<char>>,
    interactive: bool,
) -> Seq<Seq<char>> {
    (match context {
        Some(c) => seq!["--context"@, c],
        None => Seq::empty(),
    }) + seq!["-n"@, pod.0, "exec"@] + (if interactive {
        seq!["-it"@]
    } else {
        Seq::empty()
    }) + seq![pod.1] + (match container {
        Some(c) => if c.len() > 0 {
            seq!["-c"@, c]
        } else {
            Seq::empty()
        },
        None => Seq::empty(),
    }) + seq!["--"@]
}

/// The arguments of `kubectl` for one command, run by a shell.
pub open spec fn oneshot_args(
    context: Option<Seq<char>>,
    pod: (Seq<char>, Seq<char>),
    container: Option<Seq<char>>,
    cmd: Seq<char>,
) -> Seq<Seq<char>> {
    exec_args(context, pod, container, false).push("/bin/sh"@).push("-lc"@).push(
        if trimmed(cmd).len() == 0 {
            "/bin/sh -c 'echo shell missing'"@
        } else {
            cmd
        },
    )
}

/// The arguments of `kubectl` up to the command.
pub fn target_args(
    context: &Option<String>,
    ns: &str,
    pod: &str,
    container: &Option<String>,
    interactive: bool,
) -> (r: Vec<String>)
    ensures
        texts(r@) == exec_args(opt_text(*context), (ns@, pod@), opt_text(*container), interactive),
{
    let mut args: Vec<String> = Vec::new();
    if let Some(c) = context {
        args.push(copy_text("--context"));
        args.push(c.clone());
    }
    args.push(copy_text("-n"));
    args.push(copy_text(ns));
    args.push(copy_text("exec"));
    if interactive {
        args.push(copy_text("-it"));
    }
    args.push(copy_text(pod));
    if let Some(c) = container {
        if !c.as_str().is_empty() {
            args.push(copy_text("-c"));
            args.push(c.clone());
        }
    }
    args.push(copy_text("--"));
    assert(texts(args@) =~= exec_args(
        opt_text(*context),
        (ns@, pod@),
        opt_text(*container),
        interactive,
    ));
    args
}

// ---------------------------------------------------------------------------
// What is asked of a cluster

/// What is selected is the row, by its namespace and its name, and only where its kind is the
/// one that is asked for.
pub proof fn law_selected(a: App, kind: Seq<char>, row: LiteView, ns: Seq<char>)
    requires
        selected_row(a) == Some(row),
        row.namespace == Some(ns),
    ensures
        core_selected(a, kind) ==> selected_in(a, kind) == Some((ns, row.name)),
        !core_selected(a, kind) ==> selected_in(a, kind) is None,
        core_selected(a, "Node"@) ==> selected_node(a) == Some(row.name),
        !core_selected(a, "Node"@) ==> selected_node(a) is None,
{
}

/// Logs are asked of the selected pod, with the container, the limits and the mode that were
/// set; the lines of before are gone, and what ran before is stopped.
pub proof fn law_logs_started(pre: App, r: (Stopped, Option<LogsRequest>), post: App, row: LiteView, ns: Seq<char>)
    requires
        logs_started(pre, r, post),
        core_selected(pre, "Pod"@),
        selected_row(pre) == Some(row),
        row.namespace == Some(ns),
    ensures
        r.1 matches Some(q) && {
            &&& q.pod@ == row.name
            &&& q.namespace@ == ns
            &&& opt_text(q.container) == opt_text(pre.logs.container)
            &&& q.options.follow == pre.logs.follow
            &&& q.options.tail_lines == pre.logs.tail_lines
            &&& q.options.since_seconds == pre.logs.since_seconds
        },
        post.logs.running,
        post.logs.ring@.len() == 0 && post.logs.backlog@.len() == 0,
        post.logs.dropped == 0 && post.logs.recv == 0,
        r.0.cancel == pre.logs.cancel && r.0.abort == pre.logs.task,
{
}

/// Without a selected pod no logs are read, and the user is told so.
pub proof fn law_logs_need_a_pod(pre: App, r: (Stopped, Option<LogsRequest>), post: App)
    requires
        logs_started(pre, r, post),
        !core_selected(pre, "Pod"@) || selected_row(pre) is None,
    ensures
        r.1 is None,
        !post.logs.running,
        post.last_error is Some,
{
}

/// Logs that are stopped keep their lines.
pub proof fn law_logs_stopped(l: LogsState)
    ensures
        !logs_stopped(l).running,
        logs_stopped(l).cancel is None && logs_stopped(l).task is None,
        logs_stopped(l).ring == l.ring && logs_stopped(l).backlog == l.backlog,
        logs_stopped(l).recv == l.recv && logs_stopped(l).dropped == l.dropped,
{
}

/// The logs of a service are asked of the selected service, in its namespace.
pub proof fn law_service_logs_asked(l: ServiceLogsState, ns: Seq<char>, name: Seq<char>, q: ServiceLogsRequest)
    requires
        svc_logs_asked(l, (ns, name), q),
    ensures
        q.service@ == name && q.reference.name@ == name,
        q.namespace@ == ns && opt_text(q.reference.namespace) == Some(ns),
        q.reference.gvk@.kind == "Service"@,
        q.options.follow == l.follow,
        q.options.tail_lines == l.tail_lines,
        q.options.since_seconds == l.since_seconds,
{
}

/// A session runs the command that was given, word by word, in the selected pod; a shell where
/// none was.
pub proof fn law_session_started(pre: App, r: (Stopped, Option<ExecRequest>), post: App, row: LiteView, ns: Seq<char>)
    requires
        session_started(pre, r, post),
        core_selected(pre, "Pod"@),
        selected_row(pre) == Some(row),
        row.namespace == Some(ns),
    ensures
        r.1 matches Some(q) ==> {
            &&& q.pod@ == row.name
            &&& q.namespace@ == ns
            &&& q.pty == pre.session.pty
            &&& opt_text(q.container) == opt_text(pre.session.container)
            &&& trimmed(pre.session.cmd@).len() > 0 ==> texts(q.command@) == words(pre.session.cmd@)
            &&& trimmed(pre.session.cmd@).len() == 0 ==> texts(q.command@) == words("/bin/sh"@)
        },
        post.session.running <==> r.1 is Some,
        post.session.backlog@.len() == 0,
{
}

/// The arguments of a command in a pod: the context, where there is one, stands first, then the
/// namespace, then the pod, then the container; what is run stands behind two dashes.
pub proof fn law_exec_args(ctx: Seq<char>, ns: Seq<char>, pod: Seq<char>, c: Seq<char>, interactive: bool, cmd: Seq<char>)
    requires
        c.len() > 0,
    ensures
        ({
            let a = exec_args(Some(ctx), (ns, pod), Some(c), interactive);
            let b = exec_args(None, (ns, pod), None, interactive);
            let k: int = if interactive {
                1
            } else {
                0
            };
            &&& a[0] == "--context"@ && a[1] == ctx
            &&& a[2] == "-n"@ && a[3] == ns && a[4] == "exec"@
            &&& interactive ==> a[5] == "-it"@
            &&& a[5 + k] == pod
            &&& a[6 + k] == "-c"@ && a[7 + k] == c
            &&& a.len() == 9 + k && a.last() == "--"@
            &&& b[0] == "-n"@ && b[1] == ns && b[2] == "exec"@
            &&& b[3 + k] == pod
            &&& b.len() == 5 + k && b.last() == "--"@
        }),
        ({
            let o = oneshot_args(Some(ctx), (ns, pod), Some(c), cmd);
            &&& starts(o, exec_args(Some(ctx), (ns, pod), Some(c), false))
            &&& trimmed(cmd).len() > 0 ==> o.last() == cmd
            &&& o[o.len() - 2] == "-lc"@ && o[o.len() - 3] == "/bin/sh"@
        }),
{
    let o = oneshot_args(Some(ctx), (ns, pod), Some(c), cmd);
    let a = exec_args(Some(ctx), (ns, pod), Some(c), false);
    assert(o.take(a.len() as int) =~= a);
}

/// The pods of a service are those with the labels of its selector.
pub proof fn law_pod_labels(v: JsonView, k: Seq<char>, t: Seq<char>)
    ensures
        v.object_of2("spec"@, "selector"@) == Some(seq![(k, JsonView::Str(t))]) ==> pod_labels(Some(v)) == k + "="@ + t,
        v.object_of2("spec"@, "selector"@) is None ==> pod_labels(Some(v)).len() == 0,
        pod_labels(None).len() == 0,
{
    let m = seq![(k, JsonView::Str(t))];
    assert(m.drop_last() =~= Seq::empty());
    assert(requirements(m.drop_last()) =~= Seq::empty());
    let r = seq![k + "="@ + t];
    assert(requirements(m) =~= r);
    assert(join(r, ","@) =~= r[0]);
}

} // verus!
