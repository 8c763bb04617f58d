//! Actions on the selected object: what is offered, what they ask for, and what they say.
use crate::apply::{ApplyResult, DiffSummary};
use crate::gui::frame::{told, toast_is};
use crate::gui::model::{
    App, DetailsPaneTab, DetailsState, EditState, Handle, OpsState, PaletteState, PfInfo, PortCandidate, SearchExplain,
    SearchState, StatsState, Toast, ToastKind,
};
use crate::gui::nav::{core_selected, selected_kind};
use crate::gui::results::{row_of, table};
use crate::gui::search::{scope, scope_of};
use crate::gui::streams::{
    logs_started, logs_stopped, opt_pair, selected_in, selected_node, selected_row, session_started, ExecRequest, LogsRequest, Stopped,
};
use crate::gvk::{gvk_label, kind_text};
use crate::text::{
    ascii_lower, ascii_lowercase, cat2, cat3, cat4, cat5, contains_text, copy_text, dec, dec_int, i64_text, join,
    join_text, lines, occurs, occurs_at, opt_text, same_option, same_text, split_lines, split_words, starts,
    starts_with, string_or, sub_text, texts, to_chars, trim, trimmed, u64_text, usize_text, words,
};
use crate::types::{clone_option, uid_key, LiteView};
use vstd::prelude::*;
use vstd::string::*;

verus! {

// ---------------------------------------------------------------------------
// What the user may do

/// What is to be asked of the cluster where another kind or namespace is chosen.
pub struct CapsRequest {
    pub abort: Option<Handle>,
    pub namespace: Option<String>,
    pub gvk_key: String,
}

/// Whether the abilities that are known belong to another kind or namespace.
pub open spec fn caps_stale(a: App) -> bool {
    match selected_kind(a) {
        Some(k) => k.kind.len() > 0 && !(opt_text(a.ops.caps_gvk) == Some(kind_text(k)) && opt_text(
            a.ops.caps_ns,
        ) == scope_of(k, a.selection.namespace@)),
        None => false,
    }
}

impl App {
    /// Ask for the abilities of the user for the chosen kind and namespace, where those of
    /// another one are known.
    pub fn ensure_caps_for_selection(&mut self) -> (r: Option<CapsRequest>)
        ensures
            r is Some <==> caps_stale(*old(self)),
            r is None ==> *final(self) == *old(self),
            r matches Some(q) ==> {
                let k = selected_kind(*old(self))->0;
                let ns = scope_of(k, old(self).selection.namespace@);
                &&& q.abort == old(self).ops.caps_task
                &&& opt_text(q.namespace) == ns
                &&& q.gvk_key@ == kind_text(k)
                &&& *final(self) == (App {
                    ops: OpsState {
                        caps_task: None,
                        caps_gvk: final(self).ops.caps_gvk,
                        caps_ns: final(self).ops.caps_ns,
                        ..old(self).ops
                    },
                    ..*old(self)
                })
                &&& opt_text(final(self).ops.caps_gvk) == Some(kind_text(k))
                &&& opt_text(final(self).ops.caps_ns) == ns
                &&& !caps_stale(*final(self))
            },
    {
        let k = match self.current_selected_kind() {
            Some(k) => k.clone(),
            None => {
                return None;
            },
        };
        if k.kind.as_str().is_empty() {
            return None;
        }
        let ns = scope(&k, self.selection.namespace.as_str());
        let key = gvk_label(&k);
        let same_key = match &self.ops.caps_gvk {
            Some(x) => same_text(x.as_str(), key.as_str()),
            None => false,
        };
        if same_key && same_option(&self.ops.caps_ns, &ns) {
            return None;
        }
        let abort = self.ops.caps_task;
        self.ops.caps_task = None;
        self.ops.caps_gvk = Some(key.clone());
        self.ops.caps_ns = clone_option(&ns);
        Some(CapsRequest { abort, namespace: ns, gvk_key: key })
    }
}

/// Whether a pod is chosen and the user may read its logs.
pub open spec fn may_log(a: App) -> bool {
    core_selected(a, "Pod"@) && (a.ops.caps matches Some(c) && c.pods_log_get)
}

/// Whether a pod is chosen and the user may run commands in it.
pub open spec fn may_exec(a: App) -> bool {
    core_selected(a, "Pod"@) && (a.ops.caps matches Some(c) && c.pods_exec_create)
}

/// Whether a pod is chosen and the user may forward its ports.
pub open spec fn may_forward(a: App) -> bool {
    core_selected(a, "Pod"@) && (a.ops.caps matches Some(c) && c.pods_portforward_create)
}

/// Whether the chosen kind can be scaled.
pub open spec fn may_scale(a: App) -> bool {
    a.ops.caps matches Some(c) && c.scale is Some
}

/// Whether a node is chosen and the user may change it.
pub open spec fn may_cordon(a: App) -> bool {
    core_selected(a, "Node"@) && (a.ops.caps matches Some(c) && c.nodes_patch)
}

/// What the action bar offers, and what it says of what it does not offer.
pub struct ActionBar {
    pub logs: bool,
    pub logs_label: &'static str,
    pub logs_hint: &'static str,
    pub exec_ok: bool,
    pub forward: bool,
    pub scale: bool,
    pub scale_hint: &'static str,
    pub restart_hint: &'static str,
    pub delete: bool,
    pub node: bool,
    pub cordon: bool,
    pub open_browser: bool,
    pub forwards: usize,
}

/// Whether a port speaks the protocol of browsers, by its number or its name.
pub open spec fn httpish(port: u16, name: Option<Seq<char>>) -> bool {
    let low = ascii_lower(
        match name {
            Some(n) => n,
            None => ""@,
        },
    );
    ||| port == 80 || port == 8080 || port == 8000 || port == 3000 || port == 443 || port == 8443
    ||| occurs(low, "http"@)
    ||| occurs(low, "web"@)
}

/// Whether a port speaks the protocol of browsers.
pub fn is_httpish(port: u16, name: Option<&str>) -> (r: bool)
    ensures
        r == httpish(port, crate::json::opt_str(name)),
{
    let text = match name {
        Some(n) => n,
        None => "",
    };
    let low = ascii_lowercase(text);
    port == 80 || port == 8080 || port == 8000 || port == 3000 || port == 443 || port == 8443 || contains_text(
        low.as_str(),
        "http",
    ) || contains_text(low.as_str(), "web")
}

/// The name of the first candidate with a port.
pub open spec fn port_name(c: Seq<PortCandidate>, port: u16) -> Option<Seq<char>>
    decreases c.len(),
{
    if c.len() == 0 {
        None
    } else if c[0].port == port {
        opt_text(c[0].name)
    } else {
        port_name(c.skip(1), port)
    }
}

/// The name of the first candidate with a port.
pub fn name_of_port(c: &Vec<PortCandidate>, port: u16) -> (r: Option<String>)
    ensures
        opt_text(r) == port_name(c@, port),
{
    let mut i: usize = 0;
    assert(c@.skip(0) =~= c@);
    while i < c.len()
        invariant
            i <= c.len(),
            port_name(c@, port) == port_name(c@.skip(i as int), port),
        decreases c.len() - i,
    {
        assert(c@.skip(i as int)[0] == c@[i as int]);
        if c[i].port == port {
            return clone_option(&c[i].name);
        }
        assert(c@.skip(i as int).skip(1) =~= c@.skip(i + 1));
        i += 1;
    }
    None
}

/// Whether a running forward can be opened in a browser.
pub open spec fn may_browse(o: OpsState) -> bool {
    o.pf_running && o.pf_ready_addr is Some && httpish(o.pf_remote, port_name(o.pf_candidates@, o.pf_remote))
}

/// Whether the action bar offers what it should.
pub open spec fn bar_of(a: App, b: ActionBar) -> bool {
    &&& b.logs == may_log(a)
    &&& b.logs_label@ == if b.logs && a.logs.running {
        "Logs (Stop)"@
    } else {
        "Logs"@
    }
    &&& b.logs_hint@ == if !core_selected(a, "Pod"@) {
        "Select a Pod"@
    } else {
        "RBAC: pod/log get denied"@
    }
    &&& b.exec_ok == may_exec(a)
    &&& b.forward == may_forward(a)
    &&& b.scale == may_scale(a)
    &&& b.scale_hint@ == if a.ops.caps is Some {
        "Not scalable"@
    } else {
        "Probing caps\u{2026}"@
    }
    &&& b.restart_hint@ == if a.ops.caps is Some {
        "Not supported for this kind"@
    } else {
        "Probing caps\u{2026}"@
    }
    &&& b.delete == core_selected(a, "Pod"@)
    &&& b.node == core_selected(a, "Node"@)
    &&& b.cordon == may_cordon(a)
    &&& b.open_browser == may_browse(a.ops)
    &&& b.forwards == if a.ops.pf_info is Some {
        1usize
    } else {
        0usize
    }
}

impl App {
    /// What the action bar offers.
    pub fn action_bar(&self) -> (r: ActionBar)
        ensures
            bar_of(*self, r),
    {
        let pod = self.selected_is_pod();
        let node = self.selected_is_node();
        let (log, run, fwd, scale, patch) = match &self.ops.caps {
            Some(c) => (
                c.pods_log_get,
                c.pods_exec_create,
                c.pods_portforward_create,
                c.scale.is_some(),
                c.nodes_patch,
            ),
            None => (false, false, false, false, false),
        };
        let probed = self.ops.caps.is_some();
        let name = name_of_port(&self.ops.pf_candidates, self.ops.pf_remote);
        let web = match &name {
            Some(n) => is_httpish(self.ops.pf_remote, Some(n.as_str())),
            None => is_httpish(self.ops.pf_remote, None),
        };
        ActionBar {
            logs: pod && log,
            logs_label: if pod && log && self.logs.running {
                "Logs (Stop)"
            } else {
                "Logs"
            },
            logs_hint: if !pod {
                "Select a Pod"
            } else {
                "RBAC: pod/log get denied"
            },
            exec_ok: pod && run,
            forward: pod && fwd,
            scale,
            scale_hint: if probed {
                "Not scalable"
            } else {
                "Probing caps\u{2026}"
            },
            restart_hint: if probed {
                "Not supported for this kind"
            } else {
                "Probing caps\u{2026}"
            },
            delete: pod,
            node,
            cordon: node && patch,
            open_browser: self.ops.pf_running && self.ops.pf_ready_addr.is_some() && web,
            forwards: if self.ops.pf_info.is_some() {
                1
            } else {
                0
            },
        }
    }
}

// ---------------------------------------------------------------------------
// Port forwards

/// The place of the chosen candidate: at most the last one.
pub open spec fn chosen_port(o: OpsState) -> int {
    let sel: int = match o.pf_selected_idx {
        Some(i) => i as int,
        None => 0,
    };
    if sel < o.pf_candidates@.len() {
        sel
    } else {
        o.pf_candidates@.len() - 1
    }
}

/// A candidate as it is shown.
pub open spec fn port_text(c: PortCandidate) -> Seq<char> {
    match c.name {
        Some(n) => dec(c.port as nat) + " ("@ + n@ + ")"@,
        None => dec(c.port as nat),
    }
}

impl PortCandidate {
    /// The candidate as it is shown.
    pub fn label(&self) -> (r: String)
        ensures
            r@ == port_text(*self),
    {
        let port = u64_text(self.port as u64);
        match &self.name {
            Some(n) => cat4(port.as_str(), " (", n.as_str(), ")"),
            None => port,
        }
    }
}

impl OpsState {
    /// The place of the chosen candidate, where there are candidates.
    pub fn port_choice(&self) -> (r: Option<usize>)
        ensures
            match r {
                Some(i) => self.pf_candidates@.len() > 0 && i == chosen_port(*self),
                None => self.pf_candidates@.len() == 0,
            },
    {
        let n: usize = self.pf_candidates.len();
        if n == 0 {
            return None;
        }
        let sel: usize = match self.pf_selected_idx {
            Some(i) => i,
            None => 0,
        };
        Some(
            if sel < n {
                sel
            } else {
                n - 1
            },
        )
    }

    /// Choose a candidate: its port is forwarded; where no local port was chosen, it is the
    /// local one too.
    pub fn choose_port(&mut self, sel: usize)
        requires
            sel < old(self).pf_candidates@.len(),
        ensures
            *final(self) == port_chosen(*old(self), sel),
    {
        let port: u16 = self.pf_candidates[sel].port;
        let same = match self.pf_selected_idx {
            Some(i) => i == sel,
            None => false,
        };
        if !same && self.pf_local == 0 {
            self.pf_local = port;
        }
        self.pf_selected_idx = Some(sel);
        self.pf_remote = port;
    }

    /// A running forward as it is shown.
    pub fn forward_line(&self) -> (r: String)
        ensures
            r@ == forward_shown(self.pf_info),
    {
        match &self.pf_info {
            Some(i) => {
                let local = u64_text(i.local as u64);
                let remote = u64_text(i.remote as u64);
                let mut t = cat4(i.namespace.as_str(), "/", i.pod.as_str(), "  ");
                t.append(local.as_str());
                t.append(" \u{2192} ");
                t.append(remote.as_str());
                t
            },
            None => copy_text("None"),
        }
    }
}

/// A running forward as it is shown.
pub open spec fn forward_shown(i: Option<PfInfo>) -> Seq<char> {
    match i {
        Some(x) => x.namespace@ + "/"@ + x.pod@ + "  "@ + dec(x.local as nat) + " \u{2192} "@ + dec(
            x.remote as nat,
        ),
        None => "None"@,
    }
}

/// A forward that is to start.
pub struct ForwardRequest {
    pub namespace: String,
    pub pod: String,
    pub local: u16,
    pub remote: u16,
}

/// Whether a forward is secured, by its port or its name.
pub open spec fn is_https(port: u16, name: Option<Seq<char>>) -> bool {
    port == 443 || port == 8443 || (name matches Some(n) && occurs(ascii_lower(n), "https"@))
}

/// The address of a forward for a browser.
pub open spec fn forward_url(o: OpsState, addr: Seq<char>) -> Seq<char> {
    (if is_https(o.pf_remote, port_name(o.pf_candidates@, o.pf_remote)) {
        "https"@
    } else {
        "http"@
    }) + "://"@ + addr
}

impl App {
    /// Start to forward a port of the selected pod.
    pub fn start_port_forward_task(&mut self) -> (r: Option<ForwardRequest>)
        ensures
            forward_started(*old(self), r, *final(self)),
    {
        match self.current_pod_selection() {
            Some((namespace, pod)) => {
                let local = self.ops.pf_local;
                let remote = self.ops.pf_remote;
                self.ops.pf_info = Some(
                    PfInfo { namespace: namespace.clone(), pod: pod.clone(), local, remote },
                );
                Some(ForwardRequest { namespace, pod, local, remote })
            },
            None => {
                self.last_error = Some(copy_text("port-forward: select a Pod first"));
                None
            },
        }
    }

    /// Stop the forward.
    pub fn stop_port_forward(&mut self) -> (cancel: Option<Handle>)
        ensures
            cancel == old(self).ops.pf_cancel,
            *final(self) == (App { ops: forward_stopped(old(self).ops), ..*old(self) }),
    {
        let cancel = self.ops.pf_cancel;
        self.ops.pf_cancel = None;
        self.ops.pf_running = false;
        cancel
    }

    /// The address of the forward for a browser, where it is ready.
    pub fn open_pf_in_browser(&mut self) -> (r: Option<String>)
        ensures
            match old(self).ops.pf_ready_addr {
                Some(addr) => opt_text(r) == Some(forward_url(old(self).ops, addr@)) && *final(self)
                    == *old(self),
                None => r is None && failed(*old(self), "port-forward: not ready"@, *final(self)),
            },
    {
        let addr = clone_option(&self.ops.pf_ready_addr);
        match addr {
            None => {
                self.last_error = Some(copy_text("port-forward: not ready"));
                None
            },
            Some(a) => {
                let port = self.ops.pf_remote;
                let named = match name_of_port(&self.ops.pf_candidates, port) {
                    Some(n) => {
                        let low = ascii_lowercase(n.as_str());
                        contains_text(low.as_str(), "https")
                    },
                    None => false,
                };
                let scheme = if port == 443 || port == 8443 || named {
                    "https"
                } else {
                    "http"
                };
                Some(cat3(scheme, "://", a.as_str()))
            },
        }
    }

    /// Tell what came of opening an address in a browser.
    pub fn browser_opened(&mut self, url: &str, error: Option<&str>)
        ensures
            match error {
                Some(e) => failed(*old(self), "open browser: "@ + e@, *final(self)),
                None => {
                    &&& *final(self) == (App { log: final(self).log, ..*old(self) })
                    &&& final(self).log@ == "opened "@ + url@
                },
            },
    {
        match error {
            Some(e) => {
                self.last_error = Some(cat2("open browser: ", e));
            },
            None => {
                self.log = cat2("opened ", url);
            },
        }
    }
}

/// Whether nothing changed but that the user is told of an error.
pub open spec fn failed(pre: App, text: Seq<char>, post: App) -> bool {
    &&& post == (App { last_error: post.last_error, ..pre })
    &&& opt_text(post.last_error) == Some(text)
}

// ---------------------------------------------------------------------------
// Workloads and nodes

/// A workload that an action is for.
pub struct Workload {
    pub gvk_key: String,
    pub namespace: Option<String>,
    pub name: String,
}

/// The message where there is no workload for an action.
pub open spec fn no_workload(a: App, what: Seq<char>) -> Option<Seq<char>> {
    if selected_kind(a) is None {
        Some(what + ": select a workload kind"@)
    } else {
        match a.details.selected {
            None => Some(what + ": select a row first"@),
            Some(u) => if !a.results.index@.contains_key(uid_key(u)) {
                Some(what + ": selected object not in results"@)
            } else if row_of(table(a.results), uid_key(u)) is None {
                Some(what + ": object missing"@)
            } else {
                None
            },
        }
    }
}

/// Whether a workload is the selected object of the chosen kind.
pub open spec fn is_workload(a: App, w: Workload) -> bool {
    let k = selected_kind(a)->0;
    let row = selected_row(a)->0;
    &&& w.gvk_key@ == kind_text(k)
    &&& opt_text(w.namespace) == if k.namespaced {
        row.namespace
    } else {
        None
    }
    &&& w.name@ == row.name
}

impl App {
    fn workload(&mut self, what: &str) -> (r: Option<Workload>)
        ensures
            match no_workload(*old(self), what@) {
                Some(text) => r is None && failed(*old(self), text, *final(self)),
                None => {
                    &&& *final(self) == *old(self)
                    &&& r matches Some(w) && is_workload(*old(self), w)
                },
            },
    {
        let kind = match self.current_selected_kind() {
            Some(k) => k.clone(),
            None => {
                self.last_error = Some(cat2(what, ": select a workload kind"));
                return None;
            },
        };
        let uid = match self.details.selected {
            Some(u) => u,
            None => {
                self.last_error = Some(cat2(what, ": select a row first"));
                return None;
            },
        };
        if !self.results.knows(&uid) {
            self.last_error = Some(cat2(what, ": selected object not in results"));
            return None;
        }
        let found = match self.results.find(&uid) {
            Some(row) => Some(
                Workload {
                    gvk_key: gvk_label(&kind),
                    namespace: if kind.namespaced {
                        clone_option(&row.namespace)
                    } else {
                        None
                    },
                    name: row.name.clone(),
                },
            ),
            None => None,
        };
        if found.is_none() {
            self.last_error = Some(cat2(what, ": object missing"));
        }
        found
    }

    /// Scale the selected workload: the workload, how many replicas, and whether through the
    /// scale subresource.
    pub fn start_scale_task(&mut self) -> (r: Option<(Workload, i32, bool)>)
        ensures
            scale_started(*old(self), r, *final(self)),
    {
        let sub = match &self.ops.caps {
            Some(c) => match &c.scale {
                Some(s) => s.subresource_patch,
                None => false,
            },
            None => false,
        };
        let n = self.ops.scale_replicas;
        match self.workload("scale") {
            Some(w) => Some((w, n, sub)),
            None => None,
        }
    }

    /// Restart the selected workload.
    pub fn start_rollout_restart_task(&mut self) -> (r: Option<Workload>)
        ensures
            match no_workload(*old(self), "rollout"@) {
                Some(text) => r is None && failed(*old(self), text, *final(self)),
                None => {
                    &&& *final(self) == *old(self)
                    &&& r matches Some(w) && is_workload(*old(self), w)
                },
            },
    {
        self.workload("rollout")
    }

    /// Delete the selected pod.
    pub fn start_delete_pod_task(&mut self) -> (r: Option<(String, String)>)
        ensures
            opt_pair(r) == selected_in(*old(self), "Pod"@),
            r is Some ==> *final(self) == *old(self),
            r is None ==> failed(*old(self), "delete: select a Pod first"@, *final(self)),
    {
        let r = self.current_pod_selection();
        if r.is_none() {
            self.last_error = Some(copy_text("delete: select a Pod first"));
        }
        r
    }

    /// Keep new pods off the selected node, or let them on it again.
    pub fn start_cordon_task(&mut self) -> (r: Option<String>)
        ensures
            opt_text(r) == selected_node(*old(self)),
            r is Some ==> *final(self) == *old(self),
            r is None ==> failed(*old(self), "cordon: select a Node first"@, *final(self)),
    {
        let r = self.current_node_selection();
        if r.is_none() {
            self.last_error = Some(copy_text("cordon: select a Node first"));
        }
        r
    }

    /// Move the pods off the selected node.
    pub fn start_drain_task(&mut self) -> (r: Option<String>)
        ensures
            opt_text(r) == selected_node(*old(self)),
            r is Some ==> *final(self) == *old(self),
            r is None ==> failed(*old(self), "drain: select a Node first"@, *final(self)),
    {
        let r = self.current_node_selection();
        if r.is_none() {
            self.last_error = Some(copy_text("drain: select a Node first"));
        }
        r
    }
}

impl App {
    /// Ask the user whether the selected pod is to be deleted.
    pub fn ask_delete(&mut self)
        ensures
            delete_asked(*old(self), *final(self)),
    {
        if let Some(p) = self.current_pod_selection() {
            self.ops.confirm_delete = Some(p);
        }
    }

    /// Ask the user whether the pods of the selected node are to be moved off it.
    pub fn ask_drain(&mut self)
        ensures
            *final(self) == (App {
                ops: OpsState { confirm_drain: final(self).ops.confirm_drain, ..old(self).ops },
                ..*old(self)
            }),
            match selected_node(*old(self)) {
                Some(n) => opt_text(final(self).ops.confirm_drain) == Some(n),
                None => final(self).ops.confirm_drain == old(self).ops.confirm_drain,
            },
    {
        if let Some(n) = self.current_node_selection() {
            self.ops.confirm_drain = Some(n);
        }
    }
}

/// What is asked before a pod is deleted.
pub fn delete_question(ns: &str, pod: &str) -> (r: String)
    ensures
        r@ == "Delete pod "@ + ns@ + "/"@ + pod@ + "?"@,
{
    cat5("Delete pod ", ns, "/", pod, "?")
}

/// What is asked before the pods of a node are moved off it.
pub fn drain_question(node: &str) -> (r: String)
    ensures
        r@ == "Drain node "@ + node@ + "?"@,
{
    cat3("Drain node ", node, "?")
}

/// What is said where the pods of a node were moved off it.
pub fn drained_text(node: &str) -> (r: String)
    ensures
        r@ == "drained "@ + node@,
{
    cat2("drained ", node)
}

/// A namespace and a name as they are shown.
pub open spec fn place_text(ns: Option<Seq<char>>, name: Seq<char>) -> Seq<char> {
    (match ns {
        Some(n) => n,
        None => "-"@,
    }) + "/"@ + name
}

fn place(ns: &Option<String>, name: &str) -> (r: String)
    ensures
        r@ == place_text(opt_text(*ns), name@),
{
    let n = string_or(ns, "-");
    cat3(n.as_str(), "/", name)
}

/// What is said where a workload was scaled.
pub fn scaled_text(w: &Workload, replicas: i32) -> (r: String)
    ensures
        r@ == "scaled "@ + place_text(opt_text(w.namespace), w.name@) + " to "@ + dec_int(replicas as int),
{
    let p = place(&w.namespace, w.name.as_str());
    let n = i64_text(replicas as i64);
    cat4("scaled ", p.as_str(), " to ", n.as_str())
}

/// What is said where a workload is to restart.
pub fn restarted_text(w: &Workload) -> (r: String)
    ensures
        r@ == "rollout restart requested for "@ + place_text(opt_text(w.namespace), w.name@),
{
    let p = place(&w.namespace, w.name.as_str());
    cat2("rollout restart requested for ", p.as_str())
}

/// What is said where a pod was deleted.
pub fn deleted_text(ns: &str, pod: &str) -> (r: String)
    ensures
        r@ == "deleted "@ + ns@ + "/"@ + pod@,
{
    cat4("deleted ", ns, "/", pod)
}

/// What is said where a node was closed for new pods, or opened again.
pub fn cordoned_text(node: &str, on: bool) -> (r: String)
    ensures
        r@ == cordon_told(node@, on),
{
    cat3(
        if on {
            "cordoned"
        } else {
            "uncordoned"
        },
        " ",
        node,
    )
}

// ---------------------------------------------------------------------------
// The editor

/// A summary as it is shown.
pub open spec fn summary_text(s: DiffSummary) -> Seq<char> {
    "adds="@ + dec(s.adds as nat) + " updates="@ + dec(s.updates as nat) + " removes="@ + dec(s.removes as nat)
}

/// A summary as it is shown.
pub fn show_summary(s: &DiffSummary) -> (r: String)
    ensures
        r@ == summary_text(*s),
{
    let a = usize_text(s.adds);
    let u = usize_text(s.updates);
    let d = usize_text(s.removes);
    let mut t = cat5("adds=", a.as_str(), " updates=", u.as_str(), " removes=");
    t.append(d.as_str());
    t
}

/// The outcome of applying a manifest as it is shown.
pub open spec fn outcome_text(r: ApplyResult) -> Seq<char> {
    if r.applied {
        "applied: "@ + summary_text(r.summary) + (match r.new_rv {
            Some(rv) => if rv@.len() == 0 {
                Seq::empty()
            } else {
                "  \u{2022}  rv="@ + rv@
            },
            None => Seq::empty(),
        })
    } else if r.dry_run {
        "dry-run ok: "@ + summary_text(r.summary)
    } else {
        "apply: no-op"@
    }
}

/// The outcome of applying a manifest as it is shown.
pub fn show_outcome(r: &ApplyResult) -> (t: String)
    ensures
        t@ == outcome_text(*r),
{
    if r.applied {
        let s = show_summary(&r.summary);
        let mut t = cat2("applied: ", s.as_str());
        let ghost head = t@;
        assert(head + Seq::<char>::empty() =~= head);
        if let Some(rv) = &r.new_rv {
            if !rv.as_str().is_empty() {
                let tail = cat2("  \u{2022}  rv=", rv.as_str());
                t.append(tail.as_str());
            }
        }
        t
    } else if r.dry_run {
        let s = show_summary(&r.summary);
        cat2("dry-run ok: ", s.as_str())
    } else {
        copy_text("apply: no-op")
    }
}

/// What the editor is to do.
#[derive(Clone, Copy, Debug, PartialEq, Eq, Structural)]
pub enum EditAction {
    DryRun,
    Diff,
    Apply,
}

impl EditAction {
    /// What is said where the action failed.
    pub fn failed(self, error: &str) -> (r: String)
        ensures
            r@ == match self {
                EditAction::DryRun => "dry-run error: "@,
                EditAction::Diff => "diff error: "@,
                EditAction::Apply => "apply error: "@,
            } + error@,
    {
        match self {
            EditAction::DryRun => cat2("dry-run error: ", error),
            EditAction::Diff => cat2("diff error: ", error),
            EditAction::Apply => cat2("apply error: ", error),
        }
    }
}

/// What is shown while the editor works.
pub open spec fn working_text(a: EditAction) -> Seq<char> {
    match a {
        EditAction::DryRun => "dry-run\u{2026}"@,
        EditAction::Diff => "diff\u{2026}"@,
        EditAction::Apply => "apply\u{2026}"@,
    }
}

/// The namespace that a manifest is compared in: the chosen one, where the chosen kind has
/// namespaces.
pub open spec fn diff_namespace(a: App) -> Option<Seq<char>> {
    match selected_kind(a) {
        Some(k) => if k.namespaced {
            Some(a.selection.namespace@)
        } else {
            None
        },
        None => None,
    }
}

/// What the editor asks for.
pub struct EditRequest {
    pub abort: Option<Handle>,
    pub yaml: String,
    pub namespace: Option<String>,
}

impl App {
    /// Set the editor to work; the task before is to stop.
    pub fn start_edit_task(&mut self, action: EditAction) -> (r: EditRequest)
        ensures
            r.abort == old(self).edit.task,
            r.yaml@ == old(self).edit.buffer@,
            opt_text(r.namespace) == if action == EditAction::Diff {
                diff_namespace(*old(self))
            } else {
                None
            },
            *final(self) == (App {
                edit: EditState {
                    task: None,
                    running: true,
                    status: final(self).edit.status,
                    ..old(self).edit
                },
                ..*old(self)
            }),
            final(self).edit.status@ == working_text(action),
    {
        let namespace = match action {
            EditAction::Diff => match self.current_selected_kind() {
                Some(k) => if k.namespaced {
                    Some(self.selection.namespace.clone())
                } else {
                    None
                },
                None => None,
            },
            EditAction::DryRun | EditAction::Apply => None,
        };
        let abort = self.edit.task;
        self.edit.task = None;
        self.edit.running = true;
        self.edit.status = match action {
            EditAction::DryRun => copy_text("dry-run\u{2026}"),
            EditAction::Diff => copy_text("diff\u{2026}"),
            EditAction::Apply => copy_text("apply\u{2026}"),
        };
        EditRequest { abort, yaml: self.edit.buffer.clone(), namespace }
    }
}

// ---------------------------------------------------------------------------
// Shortcuts

/// What a key for the logs sets off.
pub enum LogsKey {
    Stop(Stopped),
    Start(Stopped, Option<LogsRequest>),
    Unavailable,
}

/// What the escape key stops.
pub struct Cancelled {
    pub search: Option<Handle>,
    pub details: Option<Handle>,
    pub logs: Option<Stopped>,
}

/// Whether the search shows anything.
pub open spec fn search_shown(s: SearchState) -> bool {
    s.query@.len() > 0 || s.hits@.len() > 0 || s.preview@.len() > 0
}

/// Whether a search was put away.
pub open spec fn search_cleared(pre: SearchState, post: SearchState) -> bool {
    &&& post == (SearchState {
        query: post.query,
        hits: post.hits,
        explain: None,
        partial: false,
        preview: post.preview,
        preview_sel: None,
        ..pre
    })
    &&& post.query@ == Seq::<char>::empty()
    &&& post.hits@ == Map::<u128, i64>::empty()
    &&& post.preview@.len() == 0
}

/// What becomes of the search where the escape key is pressed.
pub open spec fn search_escaped(pre: SearchState, post: SearchState) -> bool {
    let running = pre.task is Some;
    let rest = SearchState {
        task: pre.task,
        stop: pre.stop,
        ..post
    };
    &&& post.task is None
    &&& post.stop == if running {
        None
    } else {
        pre.stop
    }
    &&& if search_shown(pre) {
        search_cleared(pre, rest)
    } else {
        rest == pre
    }
}

/// What the user is told where the escape key is pressed.
pub open spec fn escape_notes(a: App) -> Seq<Seq<char>> {
    (if a.search.task is Some {
        seq!["search: canceled"@]
    } else {
        Seq::empty()
    }) + (if a.details.stop is Some {
        seq!["details: canceled"@]
    } else {
        Seq::empty()
    }) + (if a.logs.running {
        seq!["logs: stopped"@]
    } else {
        Seq::empty()
    })
}

/// Whether messages were added, each of them plain information.
pub open spec fn noted(pre: Seq<Toast>, notes: Seq<Seq<char>>, now: u64, post: Seq<Toast>) -> bool {
    &&& post.len() == pre.len() + notes.len()
    &&& post.take(pre.len() as int) =~= pre
    &&& forall|i: int|
        0 <= i < notes.len() ==> toast_is(#[trigger] post[pre.len() + i], notes[i], ToastKind::Info, now)
}

impl App {
    /// The key for the logs: it stops them where they run, and starts them where they may
    /// be read; else the user is told.
    pub fn logs_key(&mut self, now: u64) -> (r: LogsKey)
        ensures
            !may_log(*old(self)) ==> r is Unavailable && told(
                *old(self),
                "logs: unavailable (select Pod or RBAC)"@,
                ToastKind::Warn,
                now,
                *final(self),
            ),
            may_log(*old(self)) && old(self).logs.running ==> {
                &&& r matches LogsKey::Stop(s) && s.cancel == old(self).logs.cancel && s.abort == old(self).logs.task
                &&& told(
                    (App { logs: logs_stopped(old(self).logs), ..*old(self) }),
                    "logs: stopped"@,
                    ToastKind::Info,
                    now,
                    *final(self),
                )
            },
            may_log(*old(self)) && !old(self).logs.running ==> {
                r matches LogsKey::Start(s, q) && logs_started(*old(self), (s, q), *final(self))
            },
    {
        let may = match &self.ops.caps {
            Some(c) => c.pods_log_get,
            None => false,
        };
        if !(self.selected_is_pod() && may) {
            self.toast(copy_text("logs: unavailable (select Pod or RBAC)"), ToastKind::Warn, now);
            return LogsKey::Unavailable;
        }
        if self.logs.running {
            let s = self.stop_logs_task();
            self.toast(copy_text("logs: stopped"), ToastKind::Info, now);
            LogsKey::Stop(s)
        } else {
            let (s, q) = self.start_logs_task();
            LogsKey::Start(s, q)
        }
    }

    /// The key for sessions: it opens their tab and starts one where commands may be run;
    /// else the user is told.
    pub fn exec_key(&mut self, now: u64) -> (r: Option<(Stopped, Option<ExecRequest>)>)
        ensures
            r is Some <==> may_exec(*old(self)),
            r is None ==> told(
                *old(self),
                "exec: unavailable (select Pod or RBAC)"@,
                ToastKind::Warn,
                now,
                *final(self),
            ),
            r matches Some(x) ==> session_started(
                (App {
                    details: DetailsState { active_tab: DetailsPaneTab::Exec, ..old(self).details },
                    ..*old(self)
                }),
                x,
                *final(self),
            ),
    {
        let may = match &self.ops.caps {
            Some(c) => c.pods_exec_create,
            None => false,
        };
        if self.selected_is_pod() && may {
            self.details.active_tab = DetailsPaneTab::Exec;
            Some(self.start_exec_task())
        } else {
            self.toast(copy_text("exec: unavailable (select Pod or RBAC)"), ToastKind::Warn, now);
            None
        }
    }

    fn put_search_away(&mut self)
        ensures
            *final(self) == (App { search: final(self).search, ..*old(self) }),
            search_shown(old(self).search) ==> search_cleared(old(self).search, final(self).search),
            !search_shown(old(self).search) ==> *final(self) == *old(self),
    {
        let shown = !self.search.query.as_str().is_empty() || self.search.hits.len() > 0
            || self.search.preview.len() > 0;
        if shown {
            self.search.clear();
        }
    }

    /// The escape key: it closes what lies over the window, puts the search away, and stops
    /// the search, the read of the details and the logs. The window stays.
    pub fn escape_key(&mut self, now: u64) -> (r: Cancelled)
        ensures
            r.search == if old(self).search.task is Some {
                old(self).search.stop
            } else {
                None
            },
            r.details == old(self).details.stop,
            match r.logs {
                Some(s) => old(self).logs.running && s.cancel == old(self).logs.cancel && s.abort == old(self).logs.task,
                None => !old(self).logs.running,
            },
            *final(self) == (App {
                palette: PaletteState { open: false, ..old(self).palette },
                stats: StatsState { open: false, ..old(self).stats },
                search: final(self).search,
                details: DetailsState { stop: None, ..old(self).details },
                logs: if old(self).logs.running {
                    logs_stopped(old(self).logs)
                } else {
                    old(self).logs
                },
                toasts: final(self).toasts,
                ..*old(self)
            }),
            search_escaped(old(self).search, final(self).search),
            noted(old(self).toasts@, escape_notes(*old(self)), now, final(self).toasts@),
    {
        self.palette.open = false;
        self.stats.open = false;
        self.put_search_away();
        let mut search: Option<Handle> = None;
        if self.search.task.is_some() {
            search = self.search.stop;
            self.search.stop = None;
            self.search.task = None;
            self.toast(copy_text("search: canceled"), ToastKind::Info, now);
        }
        let details = self.details.stop;
        if details.is_some() {
            self.details.stop = None;
            self.toast(copy_text("details: canceled"), ToastKind::Info, now);
        }
        let logs = if self.logs.running {
            let s = self.stop_logs_task();
            self.toast(copy_text("logs: stopped"), ToastKind::Info, now);
            Some(s)
        } else {
            None
        };
        Cancelled { search, details, logs }
    }
}

// ---------------------------------------------------------------------------
// The status bar and the statistics

/// The parts of the status bar.
pub open spec fn status_parts(a: App) -> Seq<Seq<char>> {
    seq!["items: "@ + dec(a.results.rows@.len())] + (if a.search.hits@.len() > 0 {
        seq![
            "search hits: "@ + dec(a.search.hits@.len()) + (if a.search.partial {
                " (partial)"@
            } else {
                ""@
            }),
        ]
    } else {
        Seq::empty()
    }) + (if a.logs.dropped > 0 || (a.logs.running && a.logs.recv > 0) {
        seq![
            join(
                (if a.logs.recv > 0 {
                    seq!["logs recv: "@ + dec(a.logs.recv as nat)]
                } else {
                    Seq::empty()
                }) + (if a.logs.dropped > 0 {
                    seq!["dropped: "@ + dec(a.logs.dropped as nat)]
                } else {
                    Seq::empty()
                }),
                "  \u{2022}  "@,
            ),
        ]
    } else {
        Seq::empty()
    }) + (match a.last_error {
        Some(e) => seq![e@],
        None => Seq::empty(),
    }) + (if a.log@.len() > 0 {
        seq![a.log@]
    } else {
        Seq::empty()
    })
}

impl App {
    /// The parts of the status bar.
    pub fn status_bar(&self) -> (r: Vec<String>)
        ensures
            texts(r@) == status_parts(*self),
    {
        let mut out: Vec<String> = Vec::new();
        let n = usize_text(self.results.rows.len());
        out.push(cat2("items: ", n.as_str()));
        if self.search.hits.len() > 0 {
            let h = usize_text(self.search.hits.len());
            out.push(
                cat3(
                    "search hits: ",
                    h.as_str(),
                    if self.search.partial {
                        " (partial)"
                    } else {
                        ""
                    },
                ),
            );
        }
        let ghost head = texts(out@);
        if self.logs.dropped > 0 || (self.logs.running && self.logs.recv > 0) {
            let mut parts: Vec<String> = Vec::new();
            if self.logs.recv > 0 {
                let x = usize_text(self.logs.recv);
                parts.push(cat2("logs recv: ", x.as_str()));
            }
            if self.logs.dropped > 0 {
                let x = usize_text(self.logs.dropped);
                parts.push(cat2("dropped: ", x.as_str()));
            }
            assert(texts(parts@) =~= (if self.logs.recv > 0 {
                seq!["logs recv: "@ + dec(self.logs.recv as nat)]
            } else {
                Seq::empty()
            }) + (if self.logs.dropped > 0 {
                seq!["dropped: "@ + dec(self.logs.dropped as nat)]
            } else {
                Seq::empty()
            }));
            out.push(join_text(&parts, "  \u{2022}  "));
        }
        if let Some(e) = &self.last_error {
            out.push(e.clone());
        }
        if !self.log.as_str().is_empty() {
            out.push(self.log.clone());
        }
        assert(texts(out@) =~= status_parts(*self));
        out
    }

    /// Ask for the statistics, unless they are being read.
    pub fn start_stats_task(&mut self) -> (started: bool)
        ensures
            started == !old(self).stats.loading,
            !started ==> *final(self) == *old(self),
            started ==> *final(self) == (App {
                stats: StatsState { loading: true, last_error: None, ..old(self).stats },
                ..*old(self)
            }),
    {
        if self.stats.loading {
            return false;
        }
        self.stats.loading = true;
        self.stats.last_error = None;
        true
    }
}

/// The request for the metrics of an address.
pub fn metrics_request(addr: &str) -> (r: String)
    ensures
        r@ == "GET /metrics HTTP/1.1\r\nHost: "@ + addr@ + "\r\nConnection: close\r\n\r\n"@,
{
    cat3("GET /metrics HTTP/1.1\r\nHost: ", addr, "\r\nConnection: close\r\n\r\n")
}

/// The first place of a text in another, from a place on; the length where there is none.
pub open spec fn found_at(s: Seq<char>, p: Seq<char>, from: int) -> int
    decreases s.len() - from,
{
    if from >= s.len() || from < 0 {
        s.len() as int
    } else if occurs_at(s, p, from) {
        from
    } else {
        found_at(s, p, from + 1)
    }
}

/// The body of a reply: what stands between its first and its second empty line; the whole
/// reply where it has no empty line.
pub open spec fn reply_body(s: Seq<char>) -> Seq<char> {
    let i = found_at(s, "\r\n\r\n"@, 0);
    if i >= s.len() {
        s
    } else {
        let rest = s.skip(i + 4);
        rest.take(found_at(rest, "\r\n\r\n"@, 0))
    }
}

fn find_blank(v: &Vec<char>, from: usize) -> (r: usize)
    requires
        from <= v@.len(),
    ensures
        r == found_at(v@, "\r\n\r\n"@, from as int),
        from <= r <= v@.len(),
        r < v@.len() ==> r + 4 <= v@.len(),
{
    proof {
        reveal_strlit("\r\n\r\n");
    }
    let mut i: usize = from;
    while i < v.len()
        invariant
            from <= i <= v.len(),
            "\r\n\r\n"@ =~= seq!['\r', '\n', '\r', '\n'],
            found_at(v@, "\r\n\r\n"@, from as int) == found_at(v@, "\r\n\r\n"@, i as int),
        decreases v.len() - i,
    {
        if v.len() - i >= 4 && v[i] == '\r' && v[i + 1] == '\n' && v[i + 2] == '\r' && v[i + 3] == '\n' {
            assert(v@.subrange(i as int, i + 4) =~= "\r\n\r\n"@);
            return i;
        }
        assert(!occurs_at(v@, "\r\n\r\n"@, i as int)) by {
            if occurs_at(v@, "\r\n\r\n"@, i as int) {
                let w = v@.subrange(i as int, i + 4);
                assert(w[0] == v@[i as int] && w[1] == v@[i + 1] && w[2] == v@[i + 2] && w[3] == v@[i + 3]);
            }
        }
        i += 1;
    }
    i
}

/// The body of a reply.
pub fn body_of(s: &str) -> (r: String)
    ensures
        r@ == reply_body(s@),
{
    let v = to_chars(s);
    let i: usize = find_blank(&v, 0);
    if i >= v.len() {
        return copy_text(s);
    }
    let rest = sub_text(&v, i + 4, v.len());
    assert(rest@ =~= s@.skip(i + 4));
    let w = to_chars(rest.as_str());
    let j: usize = find_blank(&w, 0);
    let r = sub_text(&w, 0, j);
    assert(r@ =~= rest@.take(j as int));
    r
}

/// The last words of the lines of a metric, in order. Comments and empty lines are no lines
/// of a metric.
pub open spec fn metric_words(ls: Seq<Seq<char>>, name: Seq<char>) -> Seq<Seq<char>>
    decreases ls.len(),
{
    if ls.len() == 0 {
        Seq::empty()
    } else {
        let rest = metric_words(ls.drop_last(), name);
        let line = trimmed(ls.last());
        if starts(line, name) && words(line).len() > 0 {
            rest.push(words(line).last())
        } else {
            rest
        }
    }
}

/// The last words of the lines of a metric in a reply, in order: the last one that is a
/// number is its value. `name` does not begin with a comment mark.
pub fn metric_values(reply: &str, name: &str) -> (r: Vec<String>)
    ensures
        texts(r@) == metric_words(lines(reply_body(reply@)), name@),
{
    let body = body_of(reply);
    let ls = split_lines(body.as_str());
    let ghost all = texts(ls@);
    let mut out: Vec<String> = Vec::new();
    let mut i: usize = 0;
    assert(all.take(0) =~= Seq::empty());
    assert(texts(out@) =~= Seq::empty());
    while i < ls.len()
        invariant
            i <= ls.len(),
            all == texts(ls@),
            texts(out@) == metric_words(all.take(i as int), name@),
        decreases ls.len() - i,
    {
        assert(all.take(i + 1).drop_last() =~= all.take(i as int));
        assert(all.take(i + 1).last() == ls@[i as int]@);
        let ghost before = texts(out@);
        let line = trim(ls[i].as_str());
        if starts_with(line.as_str(), name) {
            let ws = split_words(line.as_str());
            if ws.len() > 0 {
                let n: usize = ws.len();
                assert(texts(ws@).last() == ws@[n - 1]@);
                out.push(ws[n - 1].clone());
                assert(texts(out@) =~= before.push(ws@[n - 1]@));
            }
        }
        i += 1;
    }
    assert(all.take(all.len() as int) =~= all);
    out
}

/// The lines that explain a search: what each stage left.
pub open spec fn explain_lines(e: SearchExplain) -> Seq<(Seq<char>, Seq<char>)> {
    seq![
        ("Total hits"@, dec(e.total as nat)),
        ("After namespace"@, dec(e.after_ns as nat)),
        ("After label keys"@, dec(e.after_label_keys as nat)),
        ("After labels"@, dec(e.after_labels as nat)),
        ("After anno keys"@, dec(e.after_anno_keys as nat)),
        ("After annotations"@, dec(e.after_annos as nat)),
        ("After fields"@, dec(e.after_fields as nat)),
    ]
}

/// The lines that explain a search.
pub fn explain_rows(e: &SearchExplain) -> (r: Vec<(String, String)>)
    ensures
        crate::gui::graph::pair_views(r@) == explain_lines(*e),
{
    let r = vec![
        (copy_text("Total hits"), usize_text(e.total)),
        (copy_text("After namespace"), usize_text(e.after_ns)),
        (copy_text("After label keys"), usize_text(e.after_label_keys)),
        (copy_text("After labels"), usize_text(e.after_labels)),
        (copy_text("After anno keys"), usize_text(e.after_anno_keys)),
        (copy_text("After annotations"), usize_text(e.after_annos)),
        (copy_text("After fields"), usize_text(e.after_fields)),
    ];
    assert(crate::gui::graph::pair_views(r@) =~= explain_lines(*e));
    r
}

// ---------------------------------------------------------------------------
// What actions ask for

/// The state in which a port was chosen.
pub open spec fn port_chosen(o: OpsState, sel: usize) -> OpsState {
    OpsState {
        pf_selected_idx: Some(sel),
        pf_remote: o.pf_candidates@[sel as int].port,
        pf_local: if o.pf_selected_idx != Some(sel) && o.pf_local == 0 {
            o.pf_candidates@[sel as int].port
        } else {
            o.pf_local
        },
        ..o
    }
}

/// A port that is chosen becomes the remote one. A local port that was given stays; where none
/// was, it is the same.
pub proof fn law_port_chosen(o: OpsState, sel: usize)
    requires
        sel < o.pf_candidates@.len(),
    ensures
        port_chosen(o, sel).pf_remote == o.pf_candidates@[sel as int].port,
        o.pf_local != 0 ==> port_chosen(o, sel).pf_local == o.pf_local,
        o.pf_local == 0 && o.pf_selected_idx is None ==> port_chosen(o, sel).pf_local == port_chosen(o, sel).pf_remote,
        chosen_port(port_chosen(o, sel)) == sel,
        port_chosen(o, sel).pf_candidates == o.pf_candidates,
{
}

/// The port that is offered first is one of the candidates: the chosen one where it is there.
pub proof fn law_port_choice(o: OpsState)
    requires
        o.pf_candidates@.len() > 0,
    ensures
        0 <= chosen_port(o) < o.pf_candidates@.len(),
        o.pf_selected_idx is None ==> chosen_port(o) == 0,
        o.pf_selected_idx matches Some(i) ==> (i < o.pf_candidates@.len() ==> chosen_port(o) == i),
{
}

/// Whether a forward to the selected pod was asked for.
pub open spec fn forward_started(pre: App, r: Option<ForwardRequest>, post: App) -> bool {
    match selected_in(pre, "Pod"@) {
        Some(pod) => {
            &&& r matches Some(q) && q.namespace@ == pod.0 && q.pod@ == pod.1 && q.local == pre.ops.pf_local && q.remote
                == pre.ops.pf_remote
            &&& post == (App { ops: OpsState { pf_info: post.ops.pf_info, ..pre.ops }, ..pre })
            &&& post.ops.pf_info matches Some(i) && i.namespace@ == pod.0 && i.pod@ == pod.1 && i.local == pre.ops.pf_local
                && i.remote == pre.ops.pf_remote
        },
        None => r is None && failed(pre, "port-forward: select a Pod first"@, post),
    }
}

/// A forward goes from the local port to the remote one, to the pod of the selected row, and is
/// shown as what was asked for. Without a selected pod nothing is asked for.
pub proof fn law_forward_started(pre: App, r: Option<ForwardRequest>, post: App, row: LiteView, ns: Seq<char>)
    requires
        forward_started(pre, r, post),
        selected_row(pre) == Some(row),
        row.namespace == Some(ns),
    ensures
        r is Some <==> core_selected(pre, "Pod"@),
        r matches Some(q) ==> {
            &&& q.local == pre.ops.pf_local
            &&& q.remote == pre.ops.pf_remote
            &&& q.pod@ == row.name
            &&& q.namespace@ == ns
            &&& forward_shown(post.ops.pf_info) == ns + "/"@ + row.name + "  "@ + dec(pre.ops.pf_local as nat)
                + " \u{2192} "@ + dec(pre.ops.pf_remote as nat)
        },
        r is None ==> post.ops == pre.ops && post.last_error is Some,
{
}

/// Ports of the web are those that browsers use, or whose name says so; of them the ones for
/// encrypted traffic are opened as such.
pub proof fn law_web_ports(port: u16, name: Seq<char>)
    ensures
        port == 80 || port == 8080 || port == 8000 || port == 3000 || port == 443 || port == 8443 ==> httpish(port, None),
        occurs(ascii_lower(name), "http"@) || occurs(ascii_lower(name), "web"@) ==> httpish(port, Some(name)),
        port == 443 || port == 8443 ==> is_https(port, Some(name)) && is_https(port, None),
        port != 443 && port != 8443 ==> !is_https(port, None),
        port != 443 && port != 8443 ==> (is_https(port, Some(name)) <==> occurs(ascii_lower(name), "https"@)),
{
}

/// The browser is sent to the address of the forward, under the protocol of the remote port.
pub proof fn law_forward_url(o: OpsState, addr: Seq<char>)
    ensures
        is_https(o.pf_remote, port_name(o.pf_candidates@, o.pf_remote)) ==> forward_url(o, addr) == "https://"@ + addr,
        !is_https(o.pf_remote, port_name(o.pf_candidates@, o.pf_remote)) ==> forward_url(o, addr) == "http://"@ + addr,
{
    reveal_strlit("https");
    reveal_strlit("http");
    reveal_strlit("://");
    reveal_strlit("https://");
    reveal_strlit("http://");
    assert("https"@ + "://"@ + addr =~= "https://"@ + addr);
    assert("http"@ + "://"@ + addr =~= "http://"@ + addr);
}

/// The name of a port is that of the first candidate with it.
pub proof fn law_port_name(c: Seq<PortCandidate>, i: int)
    requires
        0 <= i < c.len(),
        forall|k: int| 0 <= k < i ==> (#[trigger] c[k]).port != c[i].port,
    ensures
        port_name(c, c[i].port) == opt_text(c[i].name),
    decreases c.len(),
{
    if i > 0 {
        assert(c[0].port != c[i].port);
        let rest = c.skip(1);
        assert forall|k: int| 0 <= k < i - 1 implies (#[trigger] rest[k]).port != rest[i - 1].port by {
            assert(rest[k] == c[k + 1]);
        }
        law_port_name(rest, i - 1);
    }
}

/// The action bar offers an action only where the rights for it were found, and only on what it
/// is for: logs, a shell, a forward and a deletion on pods, and closing on nodes.
pub proof fn law_action_bar(a: App, b: ActionBar)
    requires
        bar_of(a, b),
    ensures
        b.logs ==> core_selected(a, "Pod"@) && a.ops.caps is Some && a.ops.caps->0.pods_log_get,
        b.exec_ok ==> core_selected(a, "Pod"@) && a.ops.caps is Some && a.ops.caps->0.pods_exec_create,
        b.forward ==> core_selected(a, "Pod"@) && a.ops.caps is Some && a.ops.caps->0.pods_portforward_create,
        b.cordon ==> core_selected(a, "Node"@) && a.ops.caps is Some && a.ops.caps->0.nodes_patch,
        b.scale ==> a.ops.caps is Some && a.ops.caps->0.scale is Some,
        b.delete <==> core_selected(a, "Pod"@),
        b.node <==> core_selected(a, "Node"@),
        b.open_browser ==> a.ops.pf_running && a.ops.pf_ready_addr is Some,
        core_selected(a, "Pod"@) && (a.ops.caps matches Some(c) && c.pods_log_get && c.pods_exec_create
            && c.pods_portforward_create) ==> b.logs && b.exec_ok && b.forward,
        core_selected(a, "Node"@) && (a.ops.caps matches Some(c) && c.nodes_patch) ==> b.cordon,
        a.ops.caps is None ==> !b.logs && !b.exec_ok && !b.forward && !b.scale && !b.cordon,
{
}

/// Whether a change of the number of replicas was asked for.
pub open spec fn scale_started(pre: App, r: Option<(Workload, i32, bool)>, post: App) -> bool {
    match no_workload(pre, "scale"@) {
        Some(text) => r is None && failed(pre, text, post),
        None => {
            &&& post == pre
            &&& r matches Some((w, n, sub)) && is_workload(pre, w) && n == pre.ops.scale_replicas && sub == (
            pre.ops.caps matches Some(c) && c.scale matches Some(s) && s.subresource_patch)
        },
    }
}

/// A workload is scaled to the number that was given: the one of the selected row and the chosen
/// kind. Without both nothing is asked for, and the user is told so.
pub proof fn law_scale_started(pre: App, r: Option<(Workload, i32, bool)>, post: App)
    requires
        scale_started(pre, r, post),
    ensures
        r matches Some((w, n, sub)) ==> {
            &&& n == pre.ops.scale_replicas
            &&& selected_row(pre) matches Some(row) && w.name@ == row.name
            &&& selected_kind(pre) matches Some(k) && w.gvk_key@ == kind_text(k) && (k.namespaced ==> opt_text(
                w.namespace,
            ) == selected_row(pre)->0.namespace) && (!k.namespaced ==> w.namespace is None)
        },
        r is None <==> selected_kind(pre) is None || selected_row(pre) is None,
        r is None ==> post.last_error is Some,
{
}

/// What was changed is told in numbers that stand behind their names.
pub proof fn law_summary(s: DiffSummary, r: ApplyResult)
    ensures
        summary_text(s) == "adds="@ + dec(s.adds as nat) + " updates="@ + dec(s.updates as nat) + " removes="@ + dec(
            s.removes as nat,
        ),
        r.applied ==> starts(outcome_text(r), "applied: "@ + summary_text(r.summary)),
        !r.applied && r.dry_run ==> outcome_text(r) == "dry-run ok: "@ + summary_text(r.summary),
        !r.applied && !r.dry_run ==> outcome_text(r) == "apply: no-op"@,
{
    let p = "applied: "@ + summary_text(r.summary);
    if r.applied {
        assert(outcome_text(r).take(p.len() as int) =~= p);
    }
}

/// The body of a reply is what stands behind its first empty line, up to the next one.
pub proof fn law_reply_body(head: Seq<char>, body: Seq<char>)
    requires
        !occurs(head + seq!['\r', '\n', '\r'], "\r\n\r\n"@),
        !occurs(body, "\r\n\r\n"@),
    ensures
        reply_body(head + "\r\n\r\n"@ + body) == body,
{
    reveal_strlit("\r\n\r\n");
    let p = "\r\n\r\n"@;
    let s = head + p + body;
    let h = head + seq!['\r', '\n', '\r'];
    assert(s.subrange(head.len() as int, head.len() as int + 4) =~= p);
    assert forall|k: int| 0 <= k < head.len() implies !occurs_at(s, p, k) by {
        if occurs_at(s, p, k) {
            assert(h.subrange(k, k + 4) =~= s.subrange(k, k + 4));
            assert(occurs_at(h, p, k));
        }
    }
    lemma_found_at(s, p, 0, head.len() as int);
    assert(s.skip(head.len() as int + 4) =~= body);
    assert forall|k: int| 0 <= k < body.len() implies !occurs_at(body, p, k) by {}
    lemma_found_at(body, p, 0, body.len() as int);
    assert(body.take(body.len() as int) =~= body);
}

proof fn lemma_found_at(s: Seq<char>, p: Seq<char>, from: int, to: int)
    requires
        0 <= from <= to <= s.len(),
        to < s.len() ==> occurs_at(s, p, to),
        forall|k: int| from <= k < to ==> !(#[trigger] occurs_at(s, p, k)),
    ensures
        found_at(s, p, from) == to,
    decreases to - from,
{
    if from < to {
        lemma_found_at(s, p, from + 1, to);
    }
}

/// The value of a metric is the last word of each line that begins with its name.
pub proof fn law_metric(ls: Seq<Seq<char>>, name: Seq<char>, i: int)
    requires
        0 <= i < ls.len(),
        starts(trimmed(ls[i]), name),
        words(trimmed(ls[i])).len() > 0,
    ensures
        metric_words(ls, name).contains(words(trimmed(ls[i])).last()),
    decreases ls.len(),
{
    let all = metric_words(ls, name);
    if i < ls.len() - 1 {
        let d = ls.drop_last();
        law_metric(d, name, i);
        let rest = metric_words(d, name);
        let k = choose|k: int| 0 <= k < rest.len() && rest[k] == words(trimmed(d[i])).last();
        assert(all[k] == rest[k]);
    } else {
        assert(all[all.len() - 1] == words(trimmed(ls[i])).last());
    }
}

/// A diff is made against the chosen namespace, where the chosen kind has one; a check and an
/// application take the one of the manifest.
pub proof fn law_diff_namespace(a: App)
    ensures
        selected_kind(a) matches Some(k) && k.namespaced ==> diff_namespace(a) == Some(a.selection.namespace@),
        selected_kind(a) matches Some(k) && !k.namespaced ==> diff_namespace(a) is None,
        selected_kind(a) is None ==> diff_namespace(a) is None,
{
}

/// An object is named by its namespace and its name; a dash stands for no namespace.
pub proof fn law_place(ns: Seq<char>, name: Seq<char>)
    ensures
        place_text(Some(ns), name) == ns + "/"@ + name,
        place_text(None, name) == "-"@ + "/"@ + name,
{
}

/// The status bar tells how many rows there are, how many of them a search found, and the last
/// error.
pub proof fn law_status_bar(a: App)
    ensures
        status_parts(a)[0] == "items: "@ + dec(a.results.rows@.len()),
        a.search.hits@.len() > 0 && !a.search.partial ==> status_parts(a)[1] == "search hits: "@ + dec(
            a.search.hits@.len(),
        ) + ""@,
        a.last_error matches Some(e) ==> status_parts(a).contains(e@),
        a.log@.len() > 0 ==> status_parts(a).last() == a.log@,
{
    let s = status_parts(a);
    if a.last_error is Some {
        let k = s.len() - if a.log@.len() > 0 {
            2int
        } else {
            1int
        };
        assert(s[k] == a.last_error->0@);
    }
}

/// A port is shown with its name, where it has one.
pub proof fn law_port_text(c: PortCandidate)
    ensures
        c.name matches Some(n) ==> port_text(c) == dec(c.port as nat) + " ("@ + n@ + ")"@,
        c.name is None ==> port_text(c) == dec(c.port as nat),
{
}

/// The numbers of a search are told step by step, in the order in which it narrows.
pub proof fn law_explain_lines(e: SearchExplain)
    ensures
        explain_lines(e).len() == 7,
        explain_lines(e)[0].1 == dec(e.total as nat),
        explain_lines(e)[1].1 == dec(e.after_ns as nat),
        explain_lines(e)[2].1 == dec(e.after_label_keys as nat),
        explain_lines(e)[3].1 == dec(e.after_labels as nat),
        explain_lines(e)[4].1 == dec(e.after_anno_keys as nat),
        explain_lines(e)[5].1 == dec(e.after_annos as nat),
        explain_lines(e)[6].1 == dec(e.after_fields as nat),
{
}

/// Escape puts a search away where one is shown, and leaves everything else of it.
pub proof fn law_escape_clears(pre: SearchState, post: SearchState)
    requires
        search_escaped(pre, post),
    ensures
        pre.query@.len() > 0 ==> post.query@.len() == 0 && post.preview@.len() == 0 && post.preview_sel is None,
        pre.query@.len() == 0 && pre.hits@.len() == 0 && pre.preview@.len() == 0 ==> post.query == pre.query && post.hits
            == pre.hits,
        post.task is None,
        post.limit == pre.limit,
{
}

/// The state in which a forward was stopped.
pub open spec fn forward_stopped(o: OpsState) -> OpsState {
    OpsState { pf_cancel: None, pf_running: false, ..o }
}

/// A forward that is stopped runs no longer; its ports stay as they were chosen.
pub proof fn law_forward_stopped(o: OpsState)
    ensures
        !forward_stopped(o).pf_running,
        forward_stopped(o).pf_cancel is None,
        forward_stopped(o).pf_local == o.pf_local && forward_stopped(o).pf_remote == o.pf_remote,
        forward_stopped(o).caps == o.caps,
{
}

/// Whether it was asked if the selected pod is to be deleted.
pub open spec fn delete_asked(pre: App, post: App) -> bool {
    &&& post == (App { ops: OpsState { confirm_delete: post.ops.confirm_delete, ..pre.ops }, ..pre })
    &&& match selected_in(pre, "Pod"@) {
        Some(p) => opt_pair(post.ops.confirm_delete) == Some(p),
        None => post.ops.confirm_delete == pre.ops.confirm_delete,
    }
}

/// Before a pod is deleted it is asked for, by its namespace and its name; nothing else is.
pub proof fn law_delete_asked(pre: App, post: App, row: LiteView, ns: Seq<char>)
    requires
        delete_asked(pre, post),
        selected_row(pre) == Some(row),
        row.namespace == Some(ns),
    ensures
        core_selected(pre, "Pod"@) ==> opt_pair(post.ops.confirm_delete) == Some((ns, row.name)),
        !core_selected(pre, "Pod"@) ==> post.ops.confirm_delete == pre.ops.confirm_delete,
        post.results == pre.results,
{
}

/// What is told of a node that was closed or opened.
pub open spec fn cordon_told(node: Seq<char>, on: bool) -> Seq<char> {
    (if on {
        "cordoned"@
    } else {
        "uncordoned"@
    }) + " "@ + node
}

/// A node that was closed is told as closed, and one that was opened as opened.
pub proof fn law_cordon_told(node: Seq<char>)
    ensures
        cordon_told(node, true) == "cordoned "@ + node,
        cordon_told(node, false) == "uncordoned "@ + node,
{
    reveal_strlit("cordoned");
    reveal_strlit("uncordoned");
    reveal_strlit("cordoned ");
    reveal_strlit("uncordoned ");
    reveal_strlit(" ");
    assert("cordoned"@ + " "@ + node =~= "cordoned "@ + node);
    assert("uncordoned"@ + " "@ + node =~= "uncordoned "@ + node);
}

} // verus!
