//! Built-in columns and projectors for core Kubernetes kinds: stable column ids, the
//! columns of a kind, and the fields that a projector reads out of an object.
use crate::gvk::law_key_round_trip;
use crate::json::{collect, json_views, member_views, opt_str, or_text, text_of, Json, JsonView};
use crate::small::ProjectedVec;
use crate::text::{
    cat3, copy_text, dec, join, join_text, same_text, starts, starts_with, strip_prefix, texts, u64_text,
    usize_text,
};
use vstd::prelude::*;

verus! {

/// What a column shows.
#[derive(Clone, Copy, Debug, PartialEq, Eq, Structural)]
pub enum ColumnKind {
    Namespace,
    Name,
    Age,
    Projected(u32),
}

/// A column: what it shows, its heading and its width in points.
#[derive(Clone, Copy, Debug)]
pub struct ColumnSpec {
    pub kind: ColumnKind,
    pub label: &'static str,
    pub width: u32,
}

/// The model of a column.
pub struct ColumnView {
    pub kind: ColumnKind,
    pub label: Seq<char>,
    pub width: u32,
}

impl View for ColumnSpec {
    type V = ColumnView;

    open spec fn view(&self) -> ColumnView {
        ColumnView { kind: self.kind, label: self.label@, width: self.width }
    }
}

/// The models of a list of columns.
pub open spec fn column_views(v: Seq<ColumnSpec>) -> Seq<ColumnView> {
    v.map_values(|c: ColumnSpec| c@)
}
pub const POD_READY: u32 = 10_001;
pub const POD_STATUS: u32 = 10_002;
pub const POD_RESTARTS: u32 = 10_003;
pub const POD_NODE: u32 = 10_004;
pub const DEP_READY: u32 = 11_001;
pub const DEP_UPDATED: u32 = 11_002;
pub const DEP_AVAILABLE: u32 = 11_003;
pub const STS_READY: u32 = 12_001;
pub const SVC_TYPE: u32 = 13_001;
pub const SVC_CLUSTER_IP: u32 = 13_002;
pub const SVC_EXTERNAL_IP: u32 = 13_003;
pub const SVC_PORTS: u32 = 13_004;
pub const ING_CLASS: u32 = 14_001;
pub const ING_HOSTS: u32 = 14_002;
pub const ING_ADDRESS: u32 = 14_003;
pub const ING_TLS: u32 = 14_004;
pub const DS_DESIRED: u32 = 15_001;
pub const DS_CURRENT: u32 = 15_002;
pub const DS_READY: u32 = 15_003;
pub const DS_UPDATED: u32 = 15_004;
pub const DS_AVAILABLE: u32 = 15_005;
pub const JOB_COMPLETIONS: u32 = 16_001;
pub const JOB_STATUS: u32 = 16_002;
pub const CJ_SCHEDULE: u32 = 17_001;
pub const CJ_SUSPEND: u32 = 17_002;
pub const CJ_ACTIVE: u32 = 17_003;
pub const CJ_LAST_SCHEDULE: u32 = 17_004;
pub const PVC_STATUS: u32 = 18_001;
pub const PVC_VOLUME: u32 = 18_002;
pub const PVC_CAPACITY: u32 = 18_003;
pub const PVC_ACCESS_MODES: u32 = 18_004;
pub const PVC_STORAGECLASS: u32 = 18_005;
pub const NODE_STATUS: u32 = 19_001;
pub const NODE_ROLES: u32 = 19_002;
pub const NODE_VERSION: u32 = 19_003;
pub const NS_STATUS: u32 = 20_001;

/// A column of the model.
pub open spec fn column(kind: ColumnKind, label: Seq<char>, width: u32) -> ColumnView {
    ColumnView { kind, label, width }
}

fn col(kind: ColumnKind, label: &'static str, width: u32) -> (r: ColumnSpec)
    ensures
        r@ == column(kind, label@, width),
{
    ColumnSpec { kind, label, width }
}

/// The columns that a built-in kind has between its name and its age.
pub open spec fn middle_columns(group: Seq<char>, version: Seq<char>, kind: Seq<char>) -> Seq<ColumnView> {
    if group == ""@ && version == "v1"@ && kind == "Pod"@ {
        seq![
            column(ColumnKind::Projected(POD_READY), "Ready"@, 80),
            column(ColumnKind::Projected(POD_STATUS), "Status"@, 100),
            column(ColumnKind::Projected(POD_RESTARTS), "Restarts"@, 80),
            column(ColumnKind::Projected(POD_NODE), "Node"@, 140),
        ]
    } else if group == "apps"@ && version == "v1"@ && kind == "Deployment"@ {
        seq![
            column(ColumnKind::Projected(DEP_READY), "Ready"@, 90),
            column(ColumnKind::Projected(DEP_UPDATED), "Up-to-date"@, 90),
            column(ColumnKind::Projected(DEP_AVAILABLE), "Available"@, 90),
        ]
    } else if group == "apps"@ && version == "v1"@ && kind == "StatefulSet"@ {
        seq![
            column(ColumnKind::Projected(STS_READY), "Ready"@, 90),
        ]
    } else if group == "apps"@ && version == "v1"@ && kind == "DaemonSet"@ {
        seq![
            column(ColumnKind::Projected(DS_DESIRED), "Desired"@, 80),
            column(ColumnKind::Projected(DS_CURRENT), "Current"@, 80),
            column(ColumnKind::Projected(DS_READY), "Ready"@, 80),
            column(ColumnKind::Projected(DS_UPDATED), "Up-to-date"@, 90),
            column(ColumnKind::Projected(DS_AVAILABLE), "Available"@, 90),
        ]
    } else if group == ""@ && version == "v1"@ && kind == "Service"@ {
        seq![
            column(ColumnKind::Projected(SVC_TYPE), "Type"@, 80),
            column(ColumnKind::Projected(SVC_CLUSTER_IP), "Cluster IP"@, 120),
            column(ColumnKind::Projected(SVC_EXTERNAL_IP), "External IP"@, 160),
            column(ColumnKind::Projected(SVC_PORTS), "Ports"@, 140),
        ]
    } else if group == "networking.k8s.io"@ && version == "v1"@ && kind == "Ingress"@ {
        seq![
            column(ColumnKind::Projected(ING_CLASS), "Class"@, 100),
            column(ColumnKind::Projected(ING_HOSTS), "Hosts"@, 160),
            column(ColumnKind::Projected(ING_ADDRESS), "Address"@, 160),
            column(ColumnKind::Projected(ING_TLS), "TLS"@, 50),
        ]
    } else if group == "batch"@ && version == "v1"@ && kind == "Job"@ {
        seq![
            column(ColumnKind::Projected(JOB_COMPLETIONS), "Completions"@, 100),
            column(ColumnKind::Projected(JOB_STATUS), "Status"@, 100),
        ]
    } else if group == "batch"@ && version == "v1"@ && kind == "CronJob"@ {
        seq![
            column(ColumnKind::Projected(CJ_SCHEDULE), "Schedule"@, 120),
            column(ColumnKind::Projected(CJ_SUSPEND), "Suspend"@, 80),
            column(ColumnKind::Projected(CJ_ACTIVE), "Active"@, 70),
            column(ColumnKind::Projected(CJ_LAST_SCHEDULE), "Last Schedule"@, 140),
        ]
    } else if group == ""@ && version == "v1"@ && kind == "PersistentVolumeClaim"@ {
        seq![
            column(ColumnKind::Projected(PVC_STATUS), "Status"@, 90),
            column(ColumnKind::Projected(PVC_VOLUME), "Volume"@, 120),
            column(ColumnKind::Projected(PVC_CAPACITY), "Capacity"@, 90),
            column(ColumnKind::Projected(PVC_ACCESS_MODES), "Access Modes"@, 130),
            column(ColumnKind::Projected(PVC_STORAGECLASS), "StorageClass"@, 120),
        ]
    } else if group == ""@ && version == "v1"@ && kind == "Namespace"@ {
        seq![
            column(ColumnKind::Projected(NS_STATUS), "Status"@, 90),
        ]
    } else if group == ""@ && version == "v1"@ && kind == "Node"@ {
        seq![
            column(ColumnKind::Projected(NODE_STATUS), "Status"@, 90),
            column(ColumnKind::Projected(NODE_ROLES), "Roles"@, 120),
            column(ColumnKind::Projected(NODE_VERSION), "Version"@, 110),
        ]
    } else {
        Seq::empty()
    }
}

fn middle_columns_for(group: &str, version: &str, kind: &str) -> (r: Vec<ColumnSpec>)
    ensures
        column_views(r@) == middle_columns(group@, version@, kind@),
{
    if same_text(group, "") && same_text(version, "v1") && same_text(kind, "Pod") {
        let v = vec![
            col(ColumnKind::Projected(POD_READY), "Ready", 80),
            col(ColumnKind::Projected(POD_STATUS), "Status", 100),
            col(ColumnKind::Projected(POD_RESTARTS), "Restarts", 80),
            col(ColumnKind::Projected(POD_NODE), "Node", 140),
        ];
        assert(column_views(v@) =~= middle_columns(group@, version@, kind@));
        v
    } else if same_text(group, "apps") && same_text(version, "v1") && same_text(kind, "Deployment") {
        let v = vec![
            col(ColumnKind::Projected(DEP_READY), "Ready", 90),
            col(ColumnKind::Projected(DEP_UPDATED), "Up-to-date", 90),
            col(ColumnKind::Projected(DEP_AVAILABLE), "Available", 90),
        ];
        assert(column_views(v@) =~= middle_columns(group@, version@, kind@));
        v
    } else if same_text(group, "apps") && same_text(version, "v1") && same_text(kind, "StatefulSet") {
        let v = vec![
            col(ColumnKind::Projected(STS_READY), "Ready", 90),
        ];
        assert(column_views(v@) =~= middle_columns(group@, version@, kind@));
        v
    } else if same_text(group, "apps") && same_text(version, "v1") && same_text(kind, "DaemonSet") {
        let v = vec![
            col(ColumnKind::Projected(DS_DESIRED), "Desired", 80),
            col(ColumnKind::Projected(DS_CURRENT), "Current", 80),
            col(ColumnKind::Projected(DS_READY), "Ready", 80),
            col(ColumnKind::Projected(DS_UPDATED), "Up-to-date", 90),
            col(ColumnKind::Projected(DS_AVAILABLE), "Available", 90),
        ];
        assert(column_views(v@) =~= middle_columns(group@, version@, kind@));
        v
    } else if same_text(group, "") && same_text(version, "v1") && same_text(kind, "Service") {
        let v = vec![
            col(ColumnKind::Projected(SVC_TYPE), "Type", 80),
            col(ColumnKind::Projected(SVC_CLUSTER_IP), "Cluster IP", 120),
            col(ColumnKind::Projected(SVC_EXTERNAL_IP), "External IP", 160),
            col(ColumnKind::Projected(SVC_PORTS), "Ports", 140),
        ];
        assert(column_views(v@) =~= middle_columns(group@, version@, kind@));
        v
    } else if same_text(group, "networking.k8s.io") && same_text(version, "v1") && same_text(kind, "Ingress") {
        let v = vec![
            col(ColumnKind::Projected(ING_CLASS), "Class", 100),
            col(ColumnKind::Projected(ING_HOSTS), "Hosts", 160),
            col(ColumnKind::Projected(ING_ADDRESS), "Address", 160),
            col(ColumnKind::Projected(ING_TLS), "TLS", 50),
        ];
        assert(column_views(v@) =~= middle_columns(group@, version@, kind@));
        v
    } else if same_text(group, "batch") && same_text(version, "v1") && same_text(kind, "Job") {
        let v = vec![
            col(ColumnKind::Projected(JOB_COMPLETIONS), "Completions", 100),
            col(ColumnKind::Projected(JOB_STATUS), "Status", 100),
        ];
        assert(column_views(v@) =~= middle_columns(group@, version@, kind@));
        v
    } else if same_text(group, "batch") && same_text(version, "v1") && same_text(kind, "CronJob") {
        let v = vec![
            col(ColumnKind::Projected(CJ_SCHEDULE), "Schedule", 120),
            col(ColumnKind::Projected(CJ_SUSPEND), "Suspend", 80),
            col(ColumnKind::Projected(CJ_ACTIVE), "Active", 70),
            col(ColumnKind::Projected(CJ_LAST_SCHEDULE), "Last Schedule", 140),
        ];
        assert(column_views(v@) =~= middle_columns(group@, version@, kind@));
        v
    } else if same_text(group, "") && same_text(version, "v1") && same_text(kind, "PersistentVolumeClaim") {
        let v = vec![
            col(ColumnKind::Projected(PVC_STATUS), "Status", 90),
            col(ColumnKind::Projected(PVC_VOLUME), "Volume", 120),
            col(ColumnKind::Projected(PVC_CAPACITY), "Capacity", 90),
            col(ColumnKind::Projected(PVC_ACCESS_MODES), "Access Modes", 130),
            col(ColumnKind::Projected(PVC_STORAGECLASS), "StorageClass", 120),
        ];
        assert(column_views(v@) =~= middle_columns(group@, version@, kind@));
        v
    } else if same_text(group, "") && same_text(version, "v1") && same_text(kind, "Namespace") {
        let v = vec![
            col(ColumnKind::Projected(NS_STATUS), "Status", 90),
        ];
        assert(column_views(v@) =~= middle_columns(group@, version@, kind@));
        v
    } else if same_text(group, "") && same_text(version, "v1") && same_text(kind, "Node") {
        let v = vec![
            col(ColumnKind::Projected(NODE_STATUS), "Status", 90),
            col(ColumnKind::Projected(NODE_ROLES), "Roles", 120),
            col(ColumnKind::Projected(NODE_VERSION), "Version", 110),
        ];
        assert(column_views(v@) =~= middle_columns(group@, version@, kind@));
        v
    } else {
        let v: Vec<ColumnSpec> = Vec::new();
        assert(column_views(v@) =~= middle_columns(group@, version@, kind@));
        v
    }
}

/// The full column set of a kind: namespace (where the kind is namespaced), name, the
/// columns of the kind, age.
pub open spec fn builtin_columns(
    group: Seq<char>,
    version: Seq<char>,
    kind: Seq<char>,
    namespaced: bool,
) -> Seq<ColumnView> {
    let head = if namespaced {
        seq![
            column(ColumnKind::Namespace, "Namespace"@, 160),
            column(ColumnKind::Name, "Name"@, 240),
        ]
    } else {
        seq![column(ColumnKind::Name, "Name"@, 240)]
    };
    (head + middle_columns(group, version, kind)).push(column(ColumnKind::Age, "Age"@, 70))
}

/// The full column set of a kind, with namespace, name and age only where no other
/// columns are known for it.
pub fn builtin_columns_for(group: &str, version: &str, kind: &str, namespaced: bool) -> (r: Vec<ColumnSpec>)
    ensures
        column_views(r@) == builtin_columns(group@, version@, kind@, namespaced),
{
    let mut cols: Vec<ColumnSpec> = Vec::new();
    if namespaced {
        cols.push(col(ColumnKind::Namespace, "Namespace", 160));
    }
    cols.push(col(ColumnKind::Name, "Name", 240));
    let mut middle = middle_columns_for(group, version, kind);
    let ghost a = cols@;
    let ghost b = middle@;
    cols.append(&mut middle);
    cols.push(col(ColumnKind::Age, "Age", 70));
    assert(column_views(cols@) =~= (column_views(a) + column_views(b)).push(
        column(ColumnKind::Age, "Age"@, 70),
    ));
    assert(column_views(cols@) =~= builtin_columns(group@, version@, kind@, namespaced));
    cols
}

/// Every column set holds a name and ends in the age; a namespace comes first where
/// the kind is namespaced.
pub proof fn law_columns_frame(group: Seq<char>, version: Seq<char>, kind: Seq<char>, namespaced: bool)
    ensures
        ({
            let c = builtin_columns(group, version, kind, namespaced);
            &&& c.len() >= 2
            &&& c.last().kind == ColumnKind::Age
            &&& namespaced ==> c[0].kind == ColumnKind::Namespace && c[1].kind == ColumnKind::Name
            &&& !namespaced ==> c[0].kind == ColumnKind::Name
        }),
{
}

/// The key of a kind: `version/kind` in the core group, `group/version/kind` elsewhere.
pub open spec fn gvk_text(group: Seq<char>, version: Seq<char>, kind: Seq<char>) -> Seq<char> {
    if group.len() == 0 {
        version + "/"@ + kind
    } else {
        group + "/"@ + version + "/"@ + kind
    }
}

/// The key of a kind.
pub fn gvk_key(group: &str, version: &str, kind: &str) -> (r: String)
    ensures
        r@ == gvk_text(group@, version@, kind@),
{
    if group.is_empty() {
        cat3(version, "/", kind)
    } else {
        crate::text::cat5(group, "/", version, "/", kind)
    }
}

/// A projector takes the fields that a list shows out of an object.
pub trait Projector {
    /// The projected fields of an object.
    spec fn fields(&self, raw: JsonView) -> Seq<(u32, Seq<char>)>;

    /// The projected fields of an object.
    fn project(&self, raw: &Json) -> (r: ProjectedVec)
        ensures
            r@ == self.fields(raw@),
    ;
}

/// The projector of a built-in kind.
pub struct BuiltinProjector {
    pub gvk_key: String,
}

/// Whether a key names a kind that has a built-in projector.
pub open spec fn is_projected_key(key: Seq<char>) -> bool {
    ||| key == "v1/Pod"@
    ||| key == "apps/v1/Deployment"@
    ||| key == "apps/v1/StatefulSet"@
    ||| key == "apps/v1/DaemonSet"@
    ||| key == "v1/Service"@
    ||| key == "networking.k8s.io/v1/Ingress"@
    ||| key == "batch/v1/Job"@
    ||| key == "batch/v1/CronJob"@
    ||| key == "v1/PersistentVolumeClaim"@
    ||| key == "v1/Node"@
    ||| key == "v1/Namespace"@
}

/// The projector of a supported built-in kind.
pub fn builtin_projector_for(group: &str, version: &str, kind: &str) -> (r: Option<BuiltinProjector>)
    ensures
        match r {
            Some(p) => {
                &&& p.gvk_key@ == gvk_text(group@, version@, kind@)
                &&& is_projected_key(p.gvk_key@)
            },
            None => !is_projected_key(gvk_text(group@, version@, kind@)),
        },
{
    let key = gvk_key(group, version, kind);
    let k = key.as_str();
    if same_text(k, "v1/Pod") || same_text(k, "apps/v1/Deployment") || same_text(k, "apps/v1/StatefulSet")
        || same_text(k, "apps/v1/DaemonSet") || same_text(k, "v1/Service") || same_text(
        k,
        "networking.k8s.io/v1/Ingress",
    ) || same_text(k, "batch/v1/Job") || same_text(k, "batch/v1/CronJob") || same_text(
        k,
        "v1/PersistentVolumeClaim",
    ) || same_text(k, "v1/Node") || same_text(k, "v1/Namespace") {
        Some(BuiltinProjector { gvk_key: key })
    } else {
        None
    }
}

/// One field, where there is a text for it.
pub open spec fn field(id: u32, text: Option<Seq<char>>) -> Seq<(u32, Seq<char>)> {
    match text {
        Some(t) => seq![(id, t)],
        None => Seq::empty(),
    }
}

fn push_field(out: &mut ProjectedVec, id: u32, text: Option<&str>)
    ensures
        final(out)@ == old(out)@ + field(id, opt_str(text)),
{
    match text {
        Some(t) => {
            out.push(id, copy_text(t));
            assert(out@ =~= old(out)@ + field(id, Some(t@)));
        },
        None => {
            assert(out@ =~= old(out)@ + field(id, None));
        },
    }
}

/// A list of texts joined by commas, where there is any.
pub open spec fn listed(parts: Seq<Seq<char>>) -> Option<Seq<char>> {
    if parts.len() == 0 {
        None
    } else {
        Some(join(parts, ","@))
    }
}

fn push_list(out: &mut ProjectedVec, id: u32, parts: &Vec<String>)
    ensures
        final(out)@ == old(out)@ + field(id, listed(texts(parts@))),
{
    if parts.len() > 0 {
        let t = join_text(parts, ",");
        push_field(out, id, Some(t.as_str()));
    } else {
        assert(out@ =~= old(out)@ + field(id, None));
    }
}

/// How many containers report that they are ready.
pub open spec fn ready_count(cs: Seq<JsonView>) -> nat
    decreases cs.len(),
{
    if cs.len() == 0 {
        0
    } else {
        ready_count(cs.drop_last()) + if cs.last().flag_of("ready"@) == Some(true) {
            1nat
        } else {
            0nat
        }
    }
}

/// How often the containers were restarted.
pub open spec fn restart_sum(cs: Seq<JsonView>) -> nat
    decreases cs.len(),
{
    if cs.len() == 0 {
        0
    } else {
        restart_sum(cs.drop_last()) + nat_or(cs.last().nat_of("restartCount"@), 0)
    }
}

/// An optional number, or a number in its place.
pub open spec fn nat_or(n: Option<u64>, d: u64) -> nat {
    match n {
        Some(x) => x as nat,
        None => d as nat,
    }
}

/// The elements of an optional array.
pub open spec fn elements(a: Option<Seq<JsonView>>) -> Seq<JsonView> {
    match a {
        Some(x) => x,
        None => Seq::empty(),
    }
}

/// A pod shows its ready containers, restarts, phase or reason, and node. The counters
/// are those of a 32-bit number.
pub open spec fn pod_fields(raw: JsonView) -> Seq<(u32, Seq<char>)> {
    let cs = elements(raw.array_of2("status"@, "containerStatuses"@));
    let reason = or_text(raw.str_of2("status"@, "reason"@), Seq::empty());
    let phase = or_text(raw.str_of2("status"@, "phase"@), Seq::empty());
    let status = if reason.len() > 0 {
        reason
    } else {
        phase
    };
    field(
        POD_READY,
        Some(dec(ready_count(cs) % 0x1_0000_0000) + "/"@ + dec(cs.len() % 0x1_0000_0000)),
    ) + field(POD_RESTARTS, Some(dec(restart_sum(cs) % 0x1_0000_0000))) + field(
        POD_STATUS,
        if status.len() > 0 {
            Some(status)
        } else {
            None
        },
    ) + field(POD_NODE, raw.str_of2("spec"@, "nodeName"@))
}

proof fn lemma_mod_sum(a: nat, b: nat)
    ensures
        (a % 0x1_0000_0000 + b % 0x1_0000_0000) % 0x1_0000_0000 == (a + b) % 0x1_0000_0000,
{
}

fn project_pod(raw: &Json) -> (r: ProjectedVec)
    ensures
        r@ == pod_fields(raw@),
{
    let mut out = ProjectedVec::new();
    let mut ready: u64 = 0;
    let mut total: u64 = 0;
    let mut restarts: u64 = 0;
    let ghost cs_view = elements(raw@.array_of2("status"@, "containerStatuses"@));
    if let Some(cs) = raw.array_of2("status", "containerStatuses") {
        assert(json_views(cs@) == cs_view);
        total = (cs.len() as u64) % 0x1_0000_0000;
        let mut i: usize = 0;
        while i < cs.len()
            invariant
                i <= cs.len(),
                ready < 0x1_0000_0000,
                restarts < 0x1_0000_0000,
                cs_view == json_views(cs@),
                ready == ready_count(cs_view.take(i as int)) % 0x1_0000_0000,
                restarts == restart_sum(cs_view.take(i as int)) % 0x1_0000_0000,
            decreases cs.len() - i,
        {
            let ghost pre = cs_view.take(i as int);
            assert(cs_view.take(i + 1).drop_last() =~= pre);
            assert(cs_view.take(i + 1).last() == cs@[i as int]@);
            let is_ready = match cs[i].flag_of("ready") {
                Some(b) => b,
                None => false,
            };
            if is_ready {
                proof {
                    lemma_mod_sum(ready_count(pre), 1);
                }
                ready = (ready + 1) % 0x1_0000_0000;
            }
            let n: u64 = match cs[i].nat_of("restartCount") {
                Some(x) => x,
                None => 0,
            };
            proof {
                lemma_mod_sum(restart_sum(pre), n as nat);
            }
            restarts = (restarts + n % 0x1_0000_0000) % 0x1_0000_0000;
            i += 1;
        }
        assert(cs_view.take(cs@.len() as int) =~= cs_view);
    }
    let a = u64_text(ready);
    let b = u64_text(total);
    let t = cat3(a.as_str(), "/", b.as_str());
    push_field(&mut out, POD_READY, Some(t.as_str()));
    let r = u64_text(restarts);
    push_field(&mut out, POD_RESTARTS, Some(r.as_str()));
    let phase = text_of(raw.str_of2("status", "phase"), "");
    let reason = text_of(raw.str_of2("status", "reason"), "");
    proof {
        reveal_strlit("");
        assert(""@ =~= Seq::<char>::empty());
    }
    let status = if reason.as_str().is_empty() {
        phase
    } else {
        reason
    };
    if status.as_str().is_empty() {
        push_field(&mut out, POD_STATUS, None);
    } else {
        push_field(&mut out, POD_STATUS, Some(status.as_str()));
    }
    push_field(&mut out, POD_NODE, raw.str_of2("spec", "nodeName"));
    assert(out@ =~= pod_fields(raw@));
    out
}

fn number_or(n: Option<u64>, d: u64) -> (r: u64)
    ensures
        r == nat_or(n, d),
{
    match n {
        Some(x) => x,
        None => d,
    }
}

/// The counter below `status`, or zero.
pub open spec fn status_count(raw: JsonView, name: Seq<char>) -> nat {
    nat_or(raw.nat_of2("status"@, name), 0)
}

fn status_text(raw: &Json, name: &str) -> (r: String)
    ensures
        r@ == dec(status_count(raw@, name@)),
{
    u64_text(number_or(raw.nat_of2("status", name), 0))
}

/// A deployment shows how many of its replicas are ready, current and available.
pub open spec fn deployment_fields(raw: JsonView) -> Seq<(u32, Seq<char>)> {
    field(
        DEP_READY,
        Some(dec(status_count(raw, "readyReplicas"@)) + "/"@ + dec(status_count(raw, "replicas"@))),
    ) + field(DEP_UPDATED, Some(dec(status_count(raw, "updatedReplicas"@)))) + field(
        DEP_AVAILABLE,
        Some(dec(status_count(raw, "availableReplicas"@))),
    )
}

fn project_deployment(raw: &Json) -> (r: ProjectedVec)
    ensures
        r@ == deployment_fields(raw@),
{
    let mut out = ProjectedVec::new();
    let ready = status_text(raw, "readyReplicas");
    let replicas = status_text(raw, "replicas");
    let t = cat3(ready.as_str(), "/", replicas.as_str());
    push_field(&mut out, DEP_READY, Some(t.as_str()));
    let updated = status_text(raw, "updatedReplicas");
    push_field(&mut out, DEP_UPDATED, Some(updated.as_str()));
    let available = status_text(raw, "availableReplicas");
    push_field(&mut out, DEP_AVAILABLE, Some(available.as_str()));
    assert(out@ =~= deployment_fields(raw@));
    out
}

/// A stateful set shows how many of its replicas are ready.
pub open spec fn statefulset_fields(raw: JsonView) -> Seq<(u32, Seq<char>)> {
    field(
        STS_READY,
        Some(dec(status_count(raw, "readyReplicas"@)) + "/"@ + dec(status_count(raw, "replicas"@))),
    )
}

fn project_statefulset(raw: &Json) -> (r: ProjectedVec)
    ensures
        r@ == statefulset_fields(raw@),
{
    let mut out = ProjectedVec::new();
    let ready = status_text(raw, "readyReplicas");
    let replicas = status_text(raw, "replicas");
    let t = cat3(ready.as_str(), "/", replicas.as_str());
    push_field(&mut out, STS_READY, Some(t.as_str()));
    assert(out@ =~= statefulset_fields(raw@));
    out
}

/// The address of a load balancer: its IP, else its host name.
pub open spec fn ingress_address(v: JsonView) -> Option<Seq<char>> {
    match v.str_of("ip"@) {
        Some(ip) => Some(ip),
        None => v.str_of("hostname"@),
    }
}

fn load_balancer_addresses(raw: &Json) -> (r: Vec<String>)
    ensures
        texts(r@) == collect(
            elements(raw@.array_of3("status"@, "loadBalancer"@, "ingress"@)),
            |v: JsonView| ingress_address(v),
        ),
{
    let ghost f = |v: JsonView| ingress_address(v);
    let mut out: Vec<String> = Vec::new();
    assert(texts(out@) =~= Seq::empty());
    if let Some(arr) = raw.array_of3("status", "loadBalancer", "ingress") {
        let ghost av = json_views(arr@);
        let mut i: usize = 0;
        assert(av.take(0) =~= Seq::empty());
        while i < arr.len()
            invariant
                i <= arr.len(),
                av == json_views(arr@),
                f == (|v: JsonView| ingress_address(v)),
                texts(out@) == collect(av.take(i as int), f),
            decreases arr.len() - i,
        {
            assert(av.take(i + 1).drop_last() =~= av.take(i as int));
            let ghost before = texts(out@);
            let addr = match arr[i].str_of("ip") {
                Some(ip) => Some(ip),
                None => arr[i].str_of("hostname"),
            };
            if let Some(a) = addr {
                out.push(copy_text(a));
                assert(texts(out@) =~= before.push(a@));
            }
            i += 1;
        }
        assert(av.take(av.len() as int) =~= av);
    }
    out
}

fn string_items(a: &Vec<Json>) -> (r: Vec<String>)
    ensures
        texts(r@) == collect(json_views(a@), |v: JsonView| v.text()),
{
    let ghost f = |v: JsonView| v.text();
    let ghost av = json_views(a@);
    let mut out: Vec<String> = Vec::new();
    assert(texts(out@) =~= Seq::empty());
    let mut i: usize = 0;
    assert(av.take(0) =~= Seq::empty());
    while i < a.len()
        invariant
            i <= a.len(),
            av == json_views(a@),
            f == (|v: JsonView| v.text()),
            texts(out@) == collect(av.take(i as int), f),
        decreases a.len() - i,
    {
        assert(av.take(i + 1).drop_last() =~= av.take(i as int));
        let ghost before = texts(out@);
        if let Some(s) = a[i].as_str() {
            out.push(copy_text(s));
            assert(texts(out@) =~= before.push(s@));
        }
        i += 1;
    }
    assert(av.take(av.len() as int) =~= av);
    out
}

/// A port of a service: by its name where it has one, else with its protocol.
pub open spec fn port_label(p: JsonView) -> Seq<char> {
    let port = dec(nat_or(p.nat_of("port"@), 0));
    match p.str_of("name"@) {
        Some(name) => name + ":"@ + port,
        None => port + "/"@ + or_text(p.str_of("protocol"@), "TCP"@),
    }
}

/// The first `n` of a sequence, or all of it.
pub open spec fn first_n<A>(s: Seq<A>, n: nat) -> Seq<A> {
    if s.len() <= n {
        s
    } else {
        s.take(n as int)
    }
}

/// A service shows its type, cluster address, external addresses and first four ports.
pub open spec fn service_fields(raw: JsonView) -> Seq<(u32, Seq<char>)> {
    let direct = collect(elements(raw.array_of2("spec"@, "externalIPs"@)), |v: JsonView| v.text());
    let external = if direct.len() > 0 {
        direct
    } else {
        collect(
            elements(raw.array_of3("status"@, "loadBalancer"@, "ingress"@)),
            |v: JsonView| ingress_address(v),
        )
    };
    let ports = first_n(elements(raw.array_of2("spec"@, "ports"@)), 4).map_values(
        |p: JsonView| port_label(p),
    );
    field(SVC_TYPE, raw.str_of2("spec"@, "type"@)) + field(
        SVC_CLUSTER_IP,
        raw.str_of2("spec"@, "clusterIP"@),
    ) + field(SVC_EXTERNAL_IP, listed(external)) + field(SVC_PORTS, listed(ports))
}

fn service_ports(raw: &Json) -> (r: Vec<String>)
    ensures
        texts(r@) == first_n(elements(raw@.array_of2("spec"@, "ports"@)), 4).map_values(
            |p: JsonView| port_label(p),
        ),
{
    let mut out: Vec<String> = Vec::new();
    let ghost all = first_n(elements(raw@.array_of2("spec"@, "ports"@)), 4);
    match raw.array_of2("spec", "ports") {
        Some(ports) => {
            let n: usize = if ports.len() < 4 {
                ports.len()
            } else {
                4
            };
            assert(all =~= json_views(ports@).take(n as int));
            let mut i: usize = 0;
            while i < n
                invariant
                    i <= n <= ports.len(),
                    all == json_views(ports@).take(n as int),
                    texts(out@) =~= all.take(i as int).map_values(|p: JsonView| port_label(p)),
                decreases n - i,
            {
                let p = &ports[i];
                let port = u64_text(number_or(p.nat_of("port"), 0));
                let t = match p.str_of("name") {
                    Some(name) => cat3(name, ":", port.as_str()),
                    None => {
                        let proto = text_of(p.str_of("protocol"), "TCP");
                        cat3(port.as_str(), "/", proto.as_str())
                    },
                };
                assert(all[i as int] == p@);
                assert(t@ == port_label(p@));
                let ghost before = texts(out@);
                out.push(t);
                assert(texts(out@) =~= before.push(t@));
                assert(all.take(i + 1) =~= all.take(i as int).push(p@));
                i += 1;
            }
            assert(all.take(n as int) =~= all);
        },
        None => {
            assert(texts(out@) =~= all.map_values(|p: JsonView| port_label(p)));
        },
    }
    out
}

fn project_service(raw: &Json) -> (r: ProjectedVec)
    ensures
        r@ == service_fields(raw@),
{
    let mut out = ProjectedVec::new();
    push_field(&mut out, SVC_TYPE, raw.str_of2("spec", "type"));
    push_field(&mut out, SVC_CLUSTER_IP, raw.str_of2("spec", "clusterIP"));
    let mut eps: Vec<String> = match raw.array_of2("spec", "externalIPs") {
        Some(a) => string_items(a),
        None => Vec::new(),
    };
    assert(texts(eps@) =~= collect(
        elements(raw@.array_of2("spec"@, "externalIPs"@)),
        |v: JsonView| v.text(),
    ));
    if eps.len() == 0 {
        eps = load_balancer_addresses(raw);
    }
    push_list(&mut out, SVC_EXTERNAL_IP, &eps);
    let ports = service_ports(raw);
    push_list(&mut out, SVC_PORTS, &ports);
    assert(out@ =~= service_fields(raw@));
    out
}

/// An ingress shows its class, hosts, addresses and whether it has TLS entries.
pub open spec fn ingress_fields(raw: JsonView) -> Seq<(u32, Seq<char>)> {
    field(ING_CLASS, raw.str_of2("spec"@, "ingressClassName"@)) + field(
        ING_HOSTS,
        listed(
            collect(
                elements(raw.array_of2("spec"@, "rules"@)),
                |v: JsonView| v.str_of("host"@),
            ),
        ),
    ) + field(
        ING_ADDRESS,
        listed(
            collect(
                elements(raw.array_of3("status"@, "loadBalancer"@, "ingress"@)),
                |v: JsonView| ingress_address(v),
            ),
        ),
    ) + field(
        ING_TLS,
        match raw.array_of2("spec"@, "tls"@) {
            Some(tls) => Some(
                if tls.len() > 0 {
                    "Y"@
                } else {
                    "N"@
                },
            ),
            None => None,
        },
    )
}

fn ingress_hosts(raw: &Json) -> (r: Vec<String>)
    ensures
        texts(r@) == collect(
            elements(raw@.array_of2("spec"@, "rules"@)),
            |v: JsonView| v.str_of("host"@),
        ),
{
    let ghost f = |v: JsonView| v.str_of("host"@);
    let mut out: Vec<String> = Vec::new();
    assert(texts(out@) =~= Seq::empty());
    if let Some(arr) = raw.array_of2("spec", "rules") {
        let ghost av = json_views(arr@);
        let mut i: usize = 0;
        assert(av.take(0) =~= Seq::empty());
        while i < arr.len()
            invariant
                i <= arr.len(),
                av == json_views(arr@),
                f == (|v: JsonView| v.str_of("host"@)),
                texts(out@) == collect(av.take(i as int), f),
            decreases arr.len() - i,
        {
            assert(av.take(i + 1).drop_last() =~= av.take(i as int));
            let ghost before = texts(out@);
            if let Some(h) = arr[i].str_of("host") {
                out.push(copy_text(h));
                assert(texts(out@) =~= before.push(h@));
            }
            i += 1;
        }
        assert(av.take(av.len() as int) =~= av);
    }
    out
}

fn project_ingress(raw: &Json) -> (r: ProjectedVec)
    ensures
        r@ == ingress_fields(raw@),
{
    let mut out = ProjectedVec::new();
    push_field(&mut out, ING_CLASS, raw.str_of2("spec", "ingressClassName"));
    let hosts = ingress_hosts(raw);
    push_list(&mut out, ING_HOSTS, &hosts);
    let addrs = load_balancer_addresses(raw);
    push_list(&mut out, ING_ADDRESS, &addrs);
    match raw.array_of2("spec", "tls") {
        Some(tls) => if tls.len() > 0 {
            push_field(&mut out, ING_TLS, Some("Y"));
        } else {
            push_field(&mut out, ING_TLS, Some("N"));
        },
        None => {
            push_field(&mut out, ING_TLS, None);
        },
    }
    assert(out@ =~= ingress_fields(raw@));
    out
}

/// A daemon set shows its five scheduling counters.
pub open spec fn daemonset_fields(raw: JsonView) -> Seq<(u32, Seq<char>)> {
    field(DS_DESIRED, Some(dec(status_count(raw, "desiredNumberScheduled"@)))) + field(
        DS_CURRENT,
        Some(dec(status_count(raw, "currentNumberScheduled"@))),
    ) + field(DS_READY, Some(dec(status_count(raw, "numberReady"@)))) + field(
        DS_UPDATED,
        Some(dec(status_count(raw, "updatedNumberScheduled"@))),
    ) + field(DS_AVAILABLE, Some(dec(status_count(raw, "numberAvailable"@))))
}

fn push_count(out: &mut ProjectedVec, id: u32, raw: &Json, name: &str)
    ensures
        final(out)@ == old(out)@ + field(id, Some(dec(status_count(raw@, name@)))),
{
    let t = status_text(raw, name);
    push_field(out, id, Some(t.as_str()));
}

fn project_daemonset(raw: &Json) -> (r: ProjectedVec)
    ensures
        r@ == daemonset_fields(raw@),
{
    let mut out = ProjectedVec::new();
    push_count(&mut out, DS_DESIRED, raw, "desiredNumberScheduled");
    push_count(&mut out, DS_CURRENT, raw, "currentNumberScheduled");
    push_count(&mut out, DS_READY, raw, "numberReady");
    push_count(&mut out, DS_UPDATED, raw, "updatedNumberScheduled");
    push_count(&mut out, DS_AVAILABLE, raw, "numberAvailable");
    assert(out@ =~= daemonset_fields(raw@));
    out
}

/// Whether a condition has a type and the status `True`.
pub open spec fn condition_holds(c: JsonView, name: Seq<char>) -> bool {
    c.str_of("type"@) == Some(name) && c.str_of("status"@) == Some("True"@)
}

/// Whether some condition of a list has a type and the status `True`.
pub open spec fn some_condition(cs: Seq<JsonView>, name: Seq<char>) -> bool {
    exists|i: int| 0 <= i < cs.len() && condition_holds(#[trigger] cs[i], name)
}

fn str_is(a: Option<&str>, b: &str) -> (r: bool)
    ensures
        r == (opt_str(a) == Some(b@)),
{
    match a {
        Some(s) => same_text(s, b),
        None => false,
    }
}

fn has_condition(raw: &Json, name: &str) -> (r: bool)
    ensures
        r == some_condition(elements(raw@.array_of2("status"@, "conditions"@)), name@),
{
    if let Some(arr) = raw.array_of2("status", "conditions") {
        let ghost av = json_views(arr@);
        let mut i: usize = 0;
        while i < arr.len()
            invariant
                i <= arr.len(),
                av == json_views(arr@),
                elements(raw@.array_of2("status"@, "conditions"@)) == av,
                forall|k: int| 0 <= k < i ==> !condition_holds(#[trigger] av[k], name@),
            decreases arr.len() - i,
        {
            assert(av[i as int] == arr@[i as int]@);
            if str_is(arr[i].str_of("type"), name) && str_is(arr[i].str_of("status"), "True") {
                return true;
            }
            i += 1;
        }
    }
    false
}

/// The state of a job: complete, failed, or still active.
pub open spec fn job_status(raw: JsonView) -> Seq<char> {
    let conds = elements(raw.array_of2("status"@, "conditions"@));
    let active = status_count(raw, "active"@);
    if some_condition(conds, "Complete"@) {
        "Complete"@
    } else if some_condition(conds, "Failed"@) {
        "Failed"@
    } else if active > 0 {
        "Active ("@ + dec(active) + ")"@
    } else {
        "-"@
    }
}

/// A job shows its completions and its state.
pub open spec fn job_fields(raw: JsonView) -> Seq<(u32, Seq<char>)> {
    field(
        JOB_COMPLETIONS,
        Some(
            dec(status_count(raw, "succeeded"@)) + "/"@ + dec(
                nat_or(raw.nat_of2("spec"@, "completions"@), 1),
            ),
        ),
    ) + field(JOB_STATUS, Some(job_status(raw)))
}

fn project_job(raw: &Json) -> (r: ProjectedVec)
    ensures
        r@ == job_fields(raw@),
{
    let mut out = ProjectedVec::new();
    let succeeded = status_text(raw, "succeeded");
    let desired = u64_text(number_or(raw.nat_of2("spec", "completions"), 1));
    let t = cat3(succeeded.as_str(), "/", desired.as_str());
    push_field(&mut out, JOB_COMPLETIONS, Some(t.as_str()));
    let active: u64 = number_or(raw.nat_of2("status", "active"), 0);
    let status = if has_condition(raw, "Complete") {
        copy_text("Complete")
    } else if has_condition(raw, "Failed") {
        copy_text("Failed")
    } else if active > 0 {
        let n = u64_text(active);
        cat3("Active (", n.as_str(), ")")
    } else {
        copy_text("-")
    };
    push_field(&mut out, JOB_STATUS, Some(status.as_str()));
    assert(out@ =~= job_fields(raw@));
    out
}

/// A cron job shows its schedule, whether it is suspended, its active jobs and its last
/// run.
pub open spec fn cronjob_fields(raw: JsonView) -> Seq<(u32, Seq<char>)> {
    field(CJ_SCHEDULE, raw.str_of2("spec"@, "schedule"@)) + field(
        CJ_SUSPEND,
        match raw.get2("spec"@, "suspend"@) {
            Some(JsonView::Bool(b)) => Some(
                if b {
                    "True"@
                } else {
                    "False"@
                },
            ),
            _ => None,
        },
    ) + field(CJ_ACTIVE, Some(dec(elements(raw.array_of2("status"@, "active"@)).len()))) + field(
        CJ_LAST_SCHEDULE,
        raw.str_of2("status"@, "lastScheduleTime"@),
    )
}

fn project_cronjob(raw: &Json) -> (r: ProjectedVec)
    ensures
        r@ == cronjob_fields(raw@),
{
    let mut out = ProjectedVec::new();
    push_field(&mut out, CJ_SCHEDULE, raw.str_of2("spec", "schedule"));
    let suspend = match raw.get2("spec", "suspend") {
        Some(v) => v.as_bool(),
        None => None,
    };
    match suspend {
        Some(b) => if b {
            push_field(&mut out, CJ_SUSPEND, Some("True"));
        } else {
            push_field(&mut out, CJ_SUSPEND, Some("False"));
        },
        None => {
            push_field(&mut out, CJ_SUSPEND, None);
        },
    }
    let active: usize = match raw.array_of2("status", "active") {
        Some(a) => a.len(),
        None => 0,
    };
    let t = usize_text(active);
    push_field(&mut out, CJ_ACTIVE, Some(t.as_str()));
    push_field(&mut out, CJ_LAST_SCHEDULE, raw.str_of2("status", "lastScheduleTime"));
    assert(out@ =~= cronjob_fields(raw@));
    out
}

/// A volume claim shows its phase, volume, capacity, access modes and storage class.
pub open spec fn pvc_fields(raw: JsonView) -> Seq<(u32, Seq<char>)> {
    field(PVC_STATUS, raw.str_of2("status"@, "phase"@)) + field(
        PVC_VOLUME,
        raw.str_of2("spec"@, "volumeName"@),
    ) + field(PVC_CAPACITY, raw.str_of3("status"@, "capacity"@, "storage"@)) + field(
        PVC_ACCESS_MODES,
        listed(collect(elements(raw.array_of2("spec"@, "accessModes"@)), |v: JsonView| v.text())),
    ) + field(PVC_STORAGECLASS, raw.str_of2("spec"@, "storageClassName"@))
}

fn project_pvc(raw: &Json) -> (r: ProjectedVec)
    ensures
        r@ == pvc_fields(raw@),
{
    let mut out = ProjectedVec::new();
    push_field(&mut out, PVC_STATUS, raw.str_of2("status", "phase"));
    push_field(&mut out, PVC_VOLUME, raw.str_of2("spec", "volumeName"));
    push_field(&mut out, PVC_CAPACITY, raw.str_of3("status", "capacity", "storage"));
    let modes: Vec<String> = match raw.array_of2("spec", "accessModes") {
        Some(a) => string_items(a),
        None => Vec::new(),
    };
    assert(texts(modes@) =~= collect(
        elements(raw@.array_of2("spec"@, "accessModes"@)),
        |v: JsonView| v.text(),
    ));
    push_list(&mut out, PVC_ACCESS_MODES, &modes);
    push_field(&mut out, PVC_STORAGECLASS, raw.str_of2("spec", "storageClassName"));
    assert(out@ =~= pvc_fields(raw@));
    out
}

/// The status of a node: that of its first `Ready` condition.
pub open spec fn node_status(conds: Seq<JsonView>) -> Seq<char>
    decreases conds.len(),
{
    if conds.len() == 0 {
        "Unknown"@
    } else if conds[0].str_of("type"@) == Some("Ready"@) {
        if conds[0].str_of("status"@) == Some("True"@) {
            "Ready"@
        } else {
            "NotReady"@
        }
    } else {
        node_status(conds.skip(1))
    }
}

fn node_status_of(raw: &Json) -> (r: String)
    ensures
        r@ == node_status(elements(raw@.array_of2("status"@, "conditions"@))),
{
    if let Some(arr) = raw.array_of2("status", "conditions") {
        let ghost av = json_views(arr@);
        let mut i: usize = 0;
        assert(av.skip(0) =~= av);
        while i < arr.len()
            invariant
                i <= arr.len(),
                av == json_views(arr@),
                elements(raw@.array_of2("status"@, "conditions"@)) == av,
                node_status(av) == node_status(av.skip(i as int)),
            decreases arr.len() - i,
        {
            assert(av.skip(i as int)[0] == arr@[i as int]@);
            assert(av.skip(i as int).skip(1) =~= av.skip(i + 1));
            if str_is(arr[i].str_of("type"), "Ready") {
                return if str_is(arr[i].str_of("status"), "True") {
                    copy_text("Ready")
                } else {
                    copy_text("NotReady")
                };
            }
            i += 1;
        }
    }
    copy_text("Unknown")
}

/// What is left of a text when a prefix is removed as often as it stands in front.
pub open spec fn strip_all(s: Seq<char>, p: Seq<char>) -> Seq<char>
    decreases s.len(),
{
    if p.len() > 0 && starts(s, p) {
        strip_all(s.skip(p.len() as int), p)
    } else {
        s
    }
}

fn strip_all_of(s: &str, p: &str) -> (r: String)
    requires
        p@.len() > 0,
    ensures
        r@ == strip_all(s@, p@),
{
    let mut cur = copy_text(s);
    loop
        invariant
            p@.len() > 0,
            strip_all(s@, p@) == strip_all(cur@, p@),
        decreases cur@.len(),
    {
        match strip_prefix(cur.as_str(), p) {
            Some(rest) => {
                cur = rest;
            },
            None => {
                return cur;
            },
        }
    }
}

/// The roles that the labels of a node name.
pub open spec fn label_roles(labels: Seq<(Seq<char>, JsonView)>) -> Seq<Seq<char>>
    decreases labels.len(),
{
    if labels.len() == 0 {
        Seq::empty()
    } else {
        let rest = label_roles(labels.drop_last());
        let key = labels.last().0;
        if starts(key, "node-role.kubernetes.io/"@) {
            let role = strip_all(key, "node-role.kubernetes.io/"@);
            rest.push(
                if role.len() == 0 {
                    "node"@
                } else {
                    role
                },
            )
        } else {
            rest
        }
    }
}

/// The roles of a node: those of its role labels, else its legacy role, else `none`.
pub open spec fn node_roles(raw: JsonView) -> Seq<Seq<char>> {
    match raw.object_of2("metadata"@, "labels"@) {
        Some(labels) => {
            let roles = label_roles(labels);
            if roles.len() > 0 {
                roles
            } else {
                match JsonView::Object(labels).str_of("kubernetes.io/role"@) {
                    Some(r) => seq![r],
                    None => seq!["none"@],
                }
            }
        },
        None => seq!["none"@],
    }
}

fn node_roles_of(raw: &Json) -> (r: Vec<String>)
    ensures
        texts(r@) == node_roles(raw@),
{
    let mut roles: Vec<String> = Vec::new();
    if let Some(labels) = raw.object_of2("metadata", "labels") {
        let ghost lv = member_views(labels@);
        let mut i: usize = 0;
        assert(lv.take(0) =~= Seq::empty());
        assert(texts(roles@) =~= label_roles(lv.take(0)));
        proof {
            reveal_strlit("node-role.kubernetes.io/");
        }
        while i < labels.len()
            invariant
                i <= labels.len(),
                lv == member_views(labels@),
                "node-role.kubernetes.io/"@.len() > 0,
                texts(roles@) == label_roles(lv.take(i as int)),
            decreases labels.len() - i,
        {
            assert(lv.take(i + 1).drop_last() =~= lv.take(i as int));
            let key = labels[i].0.as_str();
            let ghost before = texts(roles@);
            if starts_with(key, "node-role.kubernetes.io/") {
                let role = strip_all_of(key, "node-role.kubernetes.io/");
                let t = if role.as_str().is_empty() {
                    copy_text("node")
                } else {
                    role
                };
                roles.push(t);
                assert(texts(roles@) =~= before.push(t@));
            }
            i += 1;
        }
        assert(lv.take(lv.len() as int) =~= lv);
        if roles.len() == 0 {
            let pos = crate::json::position(labels, "kubernetes.io/role");
            let legacy = match pos {
                Some(p) => labels[p].1.as_str(),
                None => None,
            };
            if let Some(r) = legacy {
                roles.push(copy_text(r));
                assert(texts(roles@) =~= seq![r@]);
            }
        }
    }
    if roles.len() == 0 {
        roles.push(copy_text("none"));
        assert(texts(roles@) =~= seq!["none"@]);
    }
    roles
}

/// A node shows its status, roles and version.
pub open spec fn node_fields(raw: JsonView) -> Seq<(u32, Seq<char>)> {
    field(
        NODE_STATUS,
        Some(node_status(elements(raw.array_of2("status"@, "conditions"@)))),
    ) + field(NODE_ROLES, Some(join(node_roles(raw), ","@))) + field(
        NODE_VERSION,
        raw.str_of3("status"@, "nodeInfo"@, "kubeletVersion"@),
    )
}

fn project_node(raw: &Json) -> (r: ProjectedVec)
    ensures
        r@ == node_fields(raw@),
{
    let mut out = ProjectedVec::new();
    let status = node_status_of(raw);
    push_field(&mut out, NODE_STATUS, Some(status.as_str()));
    let roles = node_roles_of(raw);
    let t = join_text(&roles, ",");
    push_field(&mut out, NODE_ROLES, Some(t.as_str()));
    push_field(&mut out, NODE_VERSION, raw.str_of3("status", "nodeInfo", "kubeletVersion"));
    assert(out@ =~= node_fields(raw@));
    out
}

/// A namespace shows its phase.
pub open spec fn namespace_fields(raw: JsonView) -> Seq<(u32, Seq<char>)> {
    field(NS_STATUS, raw.str_of2("status"@, "phase"@))
}

fn project_namespace(raw: &Json) -> (r: ProjectedVec)
    ensures
        r@ == namespace_fields(raw@),
{
    let mut out = ProjectedVec::new();
    push_field(&mut out, NS_STATUS, raw.str_of2("status", "phase"));
    assert(out@ =~= namespace_fields(raw@));
    out
}

/// The projected fields of an object of the kind with a given key.
pub open spec fn builtin_fields(key: Seq<char>, raw: JsonView) -> Seq<(u32, Seq<char>)> {
    if key == "v1/Pod"@ {
        pod_fields(raw)
    } else if key == "apps/v1/Deployment"@ {
        deployment_fields(raw)
    } else if key == "apps/v1/StatefulSet"@ {
        statefulset_fields(raw)
    } else if key == "apps/v1/DaemonSet"@ {
        daemonset_fields(raw)
    } else if key == "v1/Service"@ {
        service_fields(raw)
    } else if key == "networking.k8s.io/v1/Ingress"@ {
        ingress_fields(raw)
    } else if key == "batch/v1/Job"@ {
        job_fields(raw)
    } else if key == "batch/v1/CronJob"@ {
        cronjob_fields(raw)
    } else if key == "v1/PersistentVolumeClaim"@ {
        pvc_fields(raw)
    } else if key == "v1/Node"@ {
        node_fields(raw)
    } else if key == "v1/Namespace"@ {
        namespace_fields(raw)
    } else {
        Seq::empty()
    }
}

impl Projector for BuiltinProjector {
    open spec fn fields(&self, raw: JsonView) -> Seq<(u32, Seq<char>)> {
        builtin_fields(self.gvk_key@, raw)
    }

    fn project(&self, raw: &Json) -> (r: ProjectedVec) {
        let k = self.gvk_key.as_str();
        if same_text(k, "v1/Pod") {
            project_pod(raw)
        } else if same_text(k, "apps/v1/Deployment") {
            project_deployment(raw)
        } else if same_text(k, "apps/v1/StatefulSet") {
            project_statefulset(raw)
        } else if same_text(k, "apps/v1/DaemonSet") {
            project_daemonset(raw)
        } else if same_text(k, "v1/Service") {
            project_service(raw)
        } else if same_text(k, "networking.k8s.io/v1/Ingress") {
            project_ingress(raw)
        } else if same_text(k, "batch/v1/Job") {
            project_job(raw)
        } else if same_text(k, "batch/v1/CronJob") {
            project_cronjob(raw)
        } else if same_text(k, "v1/PersistentVolumeClaim") {
            project_pvc(raw)
        } else if same_text(k, "v1/Node") {
            project_node(raw)
        } else if same_text(k, "v1/Namespace") {
            project_namespace(raw)
        } else {
            ProjectedVec::new()
        }
    }
}

/// Whether a list of columns shows the projected field `id`.
pub open spec fn shows(cols: Seq<ColumnView>, id: u32) -> bool {
    exists|i: int| 0 <= i < cols.len() && (#[trigger] cols[i]).kind == ColumnKind::Projected(id)
}

/// Whether every field of a list has its column.
pub open spec fn all_shown(fields: Seq<(u32, Seq<char>)>, cols: Seq<ColumnView>) -> bool {
    forall|i: int| 0 <= i < fields.len() ==> shows(cols, (#[trigger] fields[i]).0)
}

/// A column between the name and the age is one of the whole set.
proof fn lemma_middle_shown(group: Seq<char>, version: Seq<char>, kind: Seq<char>, namespaced: bool, id: u32)
    requires
        shows(middle_columns(group, version, kind), id),
    ensures
        shows(builtin_columns(group, version, kind, namespaced), id),
{
    let mid = middle_columns(group, version, kind);
    let all = builtin_columns(group, version, kind, namespaced);
    let i = choose|i: int| 0 <= i < mid.len() && (#[trigger] mid[i]).kind == ColumnKind::Projected(id);
    let head: int = if namespaced {
        2
    } else {
        1
    };
    assert(all[head + i] == mid[i]);
}

/// The literals of the keys of the built-in kinds.
proof fn lemma_keys()
    ensures
        "v1/Pod"@.len() == 6,
        "apps/v1/Deployment"@.len() == 18,
        "apps/v1/StatefulSet"@.len() == 19,
        "apps/v1/DaemonSet"@.len() == 17,
        "v1/Service"@.len() == 10,
        "networking.k8s.io/v1/Ingress"@.len() == 28,
        "batch/v1/Job"@.len() == 12,
        "batch/v1/CronJob"@.len() == 16,
        "v1/PersistentVolumeClaim"@.len() == 24,
        "v1/Namespace"@.len() == 12,
        "v1/Node"@.len() == 7,
        "v1/Namespace"@[0] == 'v',
        "batch/v1/Job"@[0] == 'b',
{
    reveal_strlit("v1/Pod");
    reveal_strlit("apps/v1/Deployment");
    reveal_strlit("apps/v1/StatefulSet");
    reveal_strlit("apps/v1/DaemonSet");
    reveal_strlit("v1/Service");
    reveal_strlit("networking.k8s.io/v1/Ingress");
    reveal_strlit("batch/v1/Job");
    reveal_strlit("batch/v1/CronJob");
    reveal_strlit("v1/PersistentVolumeClaim");
    reveal_strlit("v1/Namespace");
    reveal_strlit("v1/Node");
}

/// The fields of a kind, and its key.
proof fn lemma_pod_shown(raw: JsonView)
    ensures
        all_shown(pod_fields(raw), middle_columns(""@, "v1"@, "Pod"@)),
        gvk_text(""@, "v1"@, "Pod"@) == "v1/Pod"@,
{
    reveal_strlit("");
    reveal_strlit("/");
    reveal_strlit("Pod");
    reveal_strlit("v1");
    reveal_strlit("v1/Pod");
    assert(""@.len() == 0);
    assert("Pod"@.len() == 3);
    let mid = middle_columns(""@, "v1"@, "Pod"@);
    assert(mid[0].kind == ColumnKind::Projected(POD_READY) && shows(mid, POD_READY));
    assert(mid[1].kind == ColumnKind::Projected(POD_STATUS) && shows(mid, POD_STATUS));
    assert(mid[2].kind == ColumnKind::Projected(POD_RESTARTS) && shows(mid, POD_RESTARTS));
    assert(mid[3].kind == ColumnKind::Projected(POD_NODE) && shows(mid, POD_NODE));
    assert(gvk_text(""@, "v1"@, "Pod"@) =~= "v1/Pod"@);
}

/// The fields of a kind, and its key.
proof fn lemma_deployment_shown(raw: JsonView)
    ensures
        all_shown(deployment_fields(raw), middle_columns("apps"@, "v1"@, "Deployment"@)),
        gvk_text("apps"@, "v1"@, "Deployment"@) == "apps/v1/Deployment"@,
{
    reveal_strlit("");
    reveal_strlit("/");
    reveal_strlit("Deployment");
    reveal_strlit("Pod");
    reveal_strlit("apps");
    reveal_strlit("apps/v1/Deployment");
    reveal_strlit("v1");
    assert(""@.len() == 0);
    assert("Deployment"@.len() == 10);
    assert("Pod"@.len() == 3);
    assert("apps"@.len() == 4);
    let mid = middle_columns("apps"@, "v1"@, "Deployment"@);
    assert(mid[0].kind == ColumnKind::Projected(DEP_READY) && shows(mid, DEP_READY));
    assert(mid[1].kind == ColumnKind::Projected(DEP_UPDATED) && shows(mid, DEP_UPDATED));
    assert(mid[2].kind == ColumnKind::Projected(DEP_AVAILABLE) && shows(mid, DEP_AVAILABLE));
    assert(gvk_text("apps"@, "v1"@, "Deployment"@) =~= "apps/v1/Deployment"@);
}

/// The fields of a kind, and its key.
proof fn lemma_statefulset_shown(raw: JsonView)
    ensures
        all_shown(statefulset_fields(raw), middle_columns("apps"@, "v1"@, "StatefulSet"@)),
        gvk_text("apps"@, "v1"@, "StatefulSet"@) == "apps/v1/StatefulSet"@,
{
    reveal_strlit("");
    reveal_strlit("/");
    reveal_strlit("Deployment");
    reveal_strlit("Pod");
    reveal_strlit("StatefulSet");
    reveal_strlit("apps");
    reveal_strlit("apps/v1/StatefulSet");
    reveal_strlit("v1");
    assert(""@.len() == 0);
    assert("Deployment"@.len() == 10);
    assert("Pod"@.len() == 3);
    assert("StatefulSet"@.len() == 11);
    assert("apps"@.len() == 4);
    let mid = middle_columns("apps"@, "v1"@, "StatefulSet"@);
    assert(mid[0].kind == ColumnKind::Projected(STS_READY) && shows(mid, STS_READY));
    assert(gvk_text("apps"@, "v1"@, "StatefulSet"@) =~= "apps/v1/StatefulSet"@);
}

/// The fields of a kind, and its key.
proof fn lemma_daemonset_shown(raw: JsonView)
    ensures
        all_shown(daemonset_fields(raw), middle_columns("apps"@, "v1"@, "DaemonSet"@)),
        gvk_text("apps"@, "v1"@, "DaemonSet"@) == "apps/v1/DaemonSet"@,
{
    reveal_strlit("");
    reveal_strlit("/");
    reveal_strlit("DaemonSet");
    reveal_strlit("Deployment");
    reveal_strlit("Pod");
    reveal_strlit("StatefulSet");
    reveal_strlit("apps");
    reveal_strlit("apps/v1/DaemonSet");
    reveal_strlit("v1");
    assert(""@.len() == 0);
    assert("DaemonSet"@.len() == 9);
    assert("Deployment"@.len() == 10);
    assert("Pod"@.len() == 3);
    assert("StatefulSet"@.len() == 11);
    assert("apps"@.len() == 4);
    let mid = middle_columns("apps"@, "v1"@, "DaemonSet"@);
    assert(mid[0].kind == ColumnKind::Projected(DS_DESIRED) && shows(mid, DS_DESIRED));
    assert(mid[1].kind == ColumnKind::Projected(DS_CURRENT) && shows(mid, DS_CURRENT));
    assert(mid[2].kind == ColumnKind::Projected(DS_READY) && shows(mid, DS_READY));
    assert(mid[3].kind == ColumnKind::Projected(DS_UPDATED) && shows(mid, DS_UPDATED));
    assert(mid[4].kind == ColumnKind::Projected(DS_AVAILABLE) && shows(mid, DS_AVAILABLE));
    assert(gvk_text("apps"@, "v1"@, "DaemonSet"@) =~= "apps/v1/DaemonSet"@);
}

/// The fields of a kind, and its key.
proof fn lemma_service_shown(raw: JsonView)
    ensures
        all_shown(service_fields(raw), middle_columns(""@, "v1"@, "Service"@)),
        gvk_text(""@, "v1"@, "Service"@) == "v1/Service"@,
{
    reveal_strlit("");
    reveal_strlit("/");
    reveal_strlit("DaemonSet");
    reveal_strlit("Deployment");
    reveal_strlit("Pod");
    reveal_strlit("Service");
    reveal_strlit("StatefulSet");
    reveal_strlit("apps");
    reveal_strlit("v1");
    reveal_strlit("v1/Service");
    assert(""@.len() == 0);
    assert("DaemonSet"@.len() == 9);
    assert("Deployment"@.len() == 10);
    assert("Pod"@.len() == 3);
    assert("Service"@.len() == 7);
    assert("StatefulSet"@.len() == 11);
    assert("apps"@.len() == 4);
    let mid = middle_columns(""@, "v1"@, "Service"@);
    assert(mid[0].kind == ColumnKind::Projected(SVC_TYPE) && shows(mid, SVC_TYPE));
    assert(mid[1].kind == ColumnKind::Projected(SVC_CLUSTER_IP) && shows(mid, SVC_CLUSTER_IP));
    assert(mid[2].kind == ColumnKind::Projected(SVC_EXTERNAL_IP) && shows(mid, SVC_EXTERNAL_IP));
    assert(mid[3].kind == ColumnKind::Projected(SVC_PORTS) && shows(mid, SVC_PORTS));
    assert(gvk_text(""@, "v1"@, "Service"@) =~= "v1/Service"@);
}

/// The fields of a kind, and its key.
proof fn lemma_ingress_shown(raw: JsonView)
    ensures
        all_shown(ingress_fields(raw), middle_columns("networking.k8s.io"@, "v1"@, "Ingress"@)),
        gvk_text("networking.k8s.io"@, "v1"@, "Ingress"@) == "networking.k8s.io/v1/Ingress"@,
{
    reveal_strlit("");
    reveal_strlit("/");
    reveal_strlit("DaemonSet");
    reveal_strlit("Deployment");
    reveal_strlit("Ingress");
    reveal_strlit("Pod");
    reveal_strlit("Service");
    reveal_strlit("StatefulSet");
    reveal_strlit("apps");
    reveal_strlit("networking.k8s.io");
    reveal_strlit("networking.k8s.io/v1/Ingress");
    reveal_strlit("v1");
    assert(""@.len() == 0);
    assert("DaemonSet"@.len() == 9);
    assert("Deployment"@.len() == 10);
    assert("Ingress"@.len() == 7);
    assert("Pod"@.len() == 3);
    assert("Service"@.len() == 7);
    assert("StatefulSet"@.len() == 11);
    assert("apps"@.len() == 4);
    assert("networking.k8s.io"@.len() == 17);
    let mid = middle_columns("networking.k8s.io"@, "v1"@, "Ingress"@);
    assert(mid[0].kind == ColumnKind::Projected(ING_CLASS) && shows(mid, ING_CLASS));
    assert(mid[1].kind == ColumnKind::Projected(ING_HOSTS) && shows(mid, ING_HOSTS));
    assert(mid[2].kind == ColumnKind::Projected(ING_ADDRESS) && shows(mid, ING_ADDRESS));
    assert(mid[3].kind == ColumnKind::Projected(ING_TLS) && shows(mid, ING_TLS));
    assert(gvk_text("networking.k8s.io"@, "v1"@, "Ingress"@) =~= "networking.k8s.io/v1/Ingress"@);
}

/// The fields of a kind, and its key.
proof fn lemma_job_shown(raw: JsonView)
    ensures
        all_shown(job_fields(raw), middle_columns("batch"@, "v1"@, "Job"@)),
        gvk_text("batch"@, "v1"@, "Job"@) == "batch/v1/Job"@,
{
    reveal_strlit("");
    reveal_strlit("/");
    reveal_strlit("DaemonSet");
    reveal_strlit("Deployment");
    reveal_strlit("Ingress");
    reveal_strlit("Job");
    reveal_strlit("Pod");
    reveal_strlit("Service");
    reveal_strlit("StatefulSet");
    reveal_strlit("apps");
    reveal_strlit("batch");
    reveal_strlit("batch/v1/Job");
    reveal_strlit("networking.k8s.io");
    reveal_strlit("v1");
    assert(""@.len() == 0);
    assert("DaemonSet"@.len() == 9);
    assert("Deployment"@.len() == 10);
    assert("Ingress"@.len() == 7);
    assert("Job"@.len() == 3);
    assert("Pod"@.len() == 3);
    assert("Service"@.len() == 7);
    assert("StatefulSet"@.len() == 11);
    assert("apps"@.len() == 4);
    assert("batch"@.len() == 5);
    assert("networking.k8s.io"@.len() == 17);
    let mid = middle_columns("batch"@, "v1"@, "Job"@);
    assert(mid[0].kind == ColumnKind::Projected(JOB_COMPLETIONS) && shows(mid, JOB_COMPLETIONS));
    assert(mid[1].kind == ColumnKind::Projected(JOB_STATUS) && shows(mid, JOB_STATUS));
    assert(gvk_text("batch"@, "v1"@, "Job"@) =~= "batch/v1/Job"@);
}

/// The fields of a kind, and its key.
proof fn lemma_cronjob_shown(raw: JsonView)
    ensures
        all_shown(cronjob_fields(raw), middle_columns("batch"@, "v1"@, "CronJob"@)),
        gvk_text("batch"@, "v1"@, "CronJob"@) == "batch/v1/CronJob"@,
{
    reveal_strlit("");
    reveal_strlit("/");
    reveal_strlit("CronJob");
    reveal_strlit("DaemonSet");
    reveal_strlit("Deployment");
    reveal_strlit("Ingress");
    reveal_strlit("Job");
    reveal_strlit("Pod");
    reveal_strlit("Service");
    reveal_strlit("StatefulSet");
    reveal_strlit("apps");
    reveal_strlit("batch");
    reveal_strlit("batch/v1/CronJob");
    reveal_strlit("networking.k8s.io");
    reveal_strlit("v1");
    assert(""@.len() == 0);
    assert("CronJob"@.len() == 7);
    assert("DaemonSet"@.len() == 9);
    assert("Deployment"@.len() == 10);
    assert("Ingress"@.len() == 7);
    assert("Job"@.len() == 3);
    assert("Pod"@.len() == 3);
    assert("Service"@.len() == 7);
    assert("StatefulSet"@.len() == 11);
    assert("apps"@.len() == 4);
    assert("batch"@.len() == 5);
    assert("networking.k8s.io"@.len() == 17);
    let mid = middle_columns("batch"@, "v1"@, "CronJob"@);
    assert(mid[0].kind == ColumnKind::Projected(CJ_SCHEDULE) && shows(mid, CJ_SCHEDULE));
    assert(mid[1].kind == ColumnKind::Projected(CJ_SUSPEND) && shows(mid, CJ_SUSPEND));
    assert(mid[2].kind == ColumnKind::Projected(CJ_ACTIVE) && shows(mid, CJ_ACTIVE));
    assert(mid[3].kind == ColumnKind::Projected(CJ_LAST_SCHEDULE) && shows(mid, CJ_LAST_SCHEDULE));
    assert(gvk_text("batch"@, "v1"@, "CronJob"@) =~= "batch/v1/CronJob"@);
}

/// The fields of a kind, and its key.
proof fn lemma_pvc_shown(raw: JsonView)
    ensures
        all_shown(pvc_fields(raw), middle_columns(""@, "v1"@, "PersistentVolumeClaim"@)),
        gvk_text(""@, "v1"@, "PersistentVolumeClaim"@) == "v1/PersistentVolumeClaim"@,
{
    reveal_strlit("");
    reveal_strlit("/");
    reveal_strlit("CronJob");
    reveal_strlit("DaemonSet");
    reveal_strlit("Deployment");
    reveal_strlit("Ingress");
    reveal_strlit("Job");
    reveal_strlit("PersistentVolumeClaim");
    reveal_strlit("Pod");
    reveal_strlit("Service");
    reveal_strlit("StatefulSet");
    reveal_strlit("apps");
    reveal_strlit("batch");
    reveal_strlit("networking.k8s.io");
    reveal_strlit("v1");
    reveal_strlit("v1/PersistentVolumeClaim");
    assert(""@.len() == 0);
    assert("CronJob"@.len() == 7);
    assert("DaemonSet"@.len() == 9);
    assert("Deployment"@.len() == 10);
    assert("Ingress"@.len() == 7);
    assert("Job"@.len() == 3);
    assert("PersistentVolumeClaim"@.len() == 21);
    assert("Pod"@.len() == 3);
    assert("Service"@.len() == 7);
    assert("StatefulSet"@.len() == 11);
    assert("apps"@.len() == 4);
    assert("batch"@.len() == 5);
    assert("networking.k8s.io"@.len() == 17);
    let mid = middle_columns(""@, "v1"@, "PersistentVolumeClaim"@);
    assert(mid[0].kind == ColumnKind::Projected(PVC_STATUS) && shows(mid, PVC_STATUS));
    assert(mid[1].kind == ColumnKind::Projected(PVC_VOLUME) && shows(mid, PVC_VOLUME));
    assert(mid[2].kind == ColumnKind::Projected(PVC_CAPACITY) && shows(mid, PVC_CAPACITY));
    assert(mid[3].kind == ColumnKind::Projected(PVC_ACCESS_MODES) && shows(mid, PVC_ACCESS_MODES));
    assert(mid[4].kind == ColumnKind::Projected(PVC_STORAGECLASS) && shows(mid, PVC_STORAGECLASS));
    assert(gvk_text(""@, "v1"@, "PersistentVolumeClaim"@) =~= "v1/PersistentVolumeClaim"@);
}

/// The fields of a kind, and its key.
proof fn lemma_namespace_shown(raw: JsonView)
    ensures
        all_shown(namespace_fields(raw), middle_columns(""@, "v1"@, "Namespace"@)),
        gvk_text(""@, "v1"@, "Namespace"@) == "v1/Namespace"@,
{
    reveal_strlit("");
    reveal_strlit("/");
    reveal_strlit("CronJob");
    reveal_strlit("DaemonSet");
    reveal_strlit("Deployment");
    reveal_strlit("Ingress");
    reveal_strlit("Job");
    reveal_strlit("Namespace");
    reveal_strlit("PersistentVolumeClaim");
    reveal_strlit("Pod");
    reveal_strlit("Service");
    reveal_strlit("StatefulSet");
    reveal_strlit("apps");
    reveal_strlit("batch");
    reveal_strlit("networking.k8s.io");
    reveal_strlit("v1");
    reveal_strlit("v1/Namespace");
    assert(""@.len() == 0);
    assert("CronJob"@.len() == 7);
    assert("DaemonSet"@.len() == 9);
    assert("Deployment"@.len() == 10);
    assert("Ingress"@.len() == 7);
    assert("Job"@.len() == 3);
    assert("Namespace"@.len() == 9);
    assert("PersistentVolumeClaim"@.len() == 21);
    assert("Pod"@.len() == 3);
    assert("Service"@.len() == 7);
    assert("StatefulSet"@.len() == 11);
    assert("apps"@.len() == 4);
    assert("batch"@.len() == 5);
    assert("networking.k8s.io"@.len() == 17);
    let mid = middle_columns(""@, "v1"@, "Namespace"@);
    assert(mid[0].kind == ColumnKind::Projected(NS_STATUS) && shows(mid, NS_STATUS));
    assert(gvk_text(""@, "v1"@, "Namespace"@) =~= "v1/Namespace"@);
}

/// The fields of a kind, and its key.
proof fn lemma_node_shown(raw: JsonView)
    ensures
        all_shown(node_fields(raw), middle_columns(""@, "v1"@, "Node"@)),
        gvk_text(""@, "v1"@, "Node"@) == "v1/Node"@,
{
    reveal_strlit("");
    reveal_strlit("/");
    reveal_strlit("CronJob");
    reveal_strlit("DaemonSet");
    reveal_strlit("Deployment");
    reveal_strlit("Ingress");
    reveal_strlit("Job");
    reveal_strlit("Namespace");
    reveal_strlit("Node");
    reveal_strlit("PersistentVolumeClaim");
    reveal_strlit("Pod");
    reveal_strlit("Service");
    reveal_strlit("StatefulSet");
    reveal_strlit("apps");
    reveal_strlit("batch");
    reveal_strlit("networking.k8s.io");
    reveal_strlit("v1");
    reveal_strlit("v1/Node");
    assert(""@.len() == 0);
    assert("CronJob"@.len() == 7);
    assert("DaemonSet"@.len() == 9);
    assert("Deployment"@.len() == 10);
    assert("Ingress"@.len() == 7);
    assert("Job"@.len() == 3);
    assert("Namespace"@.len() == 9);
    assert("Node"@.len() == 4);
    assert("PersistentVolumeClaim"@.len() == 21);
    assert("Pod"@.len() == 3);
    assert("Service"@.len() == 7);
    assert("StatefulSet"@.len() == 11);
    assert("apps"@.len() == 4);
    assert("batch"@.len() == 5);
    assert("networking.k8s.io"@.len() == 17);
    let mid = middle_columns(""@, "v1"@, "Node"@);
    assert(mid[0].kind == ColumnKind::Projected(NODE_STATUS) && shows(mid, NODE_STATUS));
    assert(mid[1].kind == ColumnKind::Projected(NODE_ROLES) && shows(mid, NODE_ROLES));
    assert(mid[2].kind == ColumnKind::Projected(NODE_VERSION) && shows(mid, NODE_VERSION));
    assert(gvk_text(""@, "v1"@, "Node"@) =~= "v1/Node"@);
}

/// Every projected field of a kind that has columns of its own is shown by one of them.
pub proof fn law_fields_shown(
    group: Seq<char>,
    version: Seq<char>,
    kind: Seq<char>,
    namespaced: bool,
    raw: JsonView,
    i: int,
)
    requires
        middle_columns(group, version, kind).len() > 0,
        0 <= i < builtin_fields(gvk_text(group, version, kind), raw).len(),
    ensures
        shows(
            builtin_columns(group, version, kind, namespaced),
            builtin_fields(gvk_text(group, version, kind), raw)[i].0,
        ),
{
    lemma_keys();
    lemma_pod_shown(raw);
    lemma_deployment_shown(raw);
    lemma_statefulset_shown(raw);
    lemma_daemonset_shown(raw);
    lemma_service_shown(raw);
    lemma_ingress_shown(raw);
    lemma_job_shown(raw);
    lemma_cronjob_shown(raw);
    lemma_pvc_shown(raw);
    lemma_namespace_shown(raw);
    lemma_node_shown(raw);
    lemma_middle_shown(
        group,
        version,
        kind,
        namespaced,
        builtin_fields(gvk_text(group, version, kind), raw)[i].0,
    );
}

/// Whether no two fields have the same number.
pub open spec fn distinct_ids(s: Seq<(u32, Seq<char>)>) -> bool {
    forall|i: int, j: int| 0 <= i < j < s.len() ==> (#[trigger] s[i]).0 != (#[trigger] s[j]).0
}

spec fn ids_in(s: Seq<(u32, Seq<char>)>, ids: Seq<u32>) -> bool {
    distinct_ids(s) && forall|i: int| 0 <= i < s.len() ==> ids.contains((#[trigger] s[i]).0)
}

proof fn lemma_one_more(s: Seq<(u32, Seq<char>)>, ids: Seq<u32>, id: u32, t: Option<Seq<char>>)
    requires
        ids_in(s, ids),
        forall|i: int| 0 <= i < ids.len() ==> #[trigger] ids[i] != id,
    ensures
        ids_in(s + field(id, t), ids.push(id)),
{
    let u = s + field(id, t);
    assert forall|i: int| 0 <= i < u.len() implies ids.push(id).contains((#[trigger] u[i]).0) by {
        if i < s.len() {
            assert(u[i] == s[i]);
            let k = choose|k: int| 0 <= k < ids.len() && ids[k] == s[i].0;
            assert(ids.push(id)[k] == s[i].0);
        } else {
            assert(ids.push(id)[ids.len() as int] == id);
        }
    }
    assert forall|i: int, j: int| 0 <= i < j < u.len() implies (#[trigger] u[i]).0 != (#[trigger] u[j]).0 by {
        assert(u[i] == s[i]);
        assert(ids.contains(s[i].0));
        if j < s.len() {
            assert(u[j] == s[j]);
        }
    }
}

proof fn lemma_first_field(id: u32)
    ensures
        forall|t: Option<Seq<char>>| ids_in(#[trigger] field(id, t), seq![id]),
{
    assert forall|t: Option<Seq<char>>| ids_in(#[trigger] field(id, t), seq![id]) by {
        assert(seq![id][0] == id);
    }
}

proof fn lemma_two_fields(a: u32, b: u32)
    requires
        a != b,
    ensures
        forall|ta: Option<Seq<char>>, tb: Option<Seq<char>>| ids_in(#[trigger] (field(a, ta) + field(b, tb)), seq![a, b]),
{
    lemma_first_field(a);
    assert forall|ta: Option<Seq<char>>, tb: Option<Seq<char>>| ids_in(#[trigger] (field(a, ta) + field(b, tb)), seq![a, b]) by {
        lemma_one_more(field(a, ta), seq![a], b, tb);
        assert(seq![a].push(b) =~= seq![a, b]);
    }
}

proof fn lemma_three_fields(a: u32, b: u32, c: u32)
    requires
        a != b,
        a != c,
        b != c,
    ensures
        forall|ta: Option<Seq<char>>, tb: Option<Seq<char>>, tc: Option<Seq<char>>| ids_in(#[trigger] (field(a, ta) + field(b, tb) + field(c, tc)), seq![a, b, c]),
{
    lemma_two_fields(a, b);
    assert forall|ta: Option<Seq<char>>, tb: Option<Seq<char>>, tc: Option<Seq<char>>| ids_in(#[trigger] (field(a, ta) + field(b, tb) + field(c, tc)), seq![a, b, c]) by {
        lemma_one_more(field(a, ta) + field(b, tb), seq![a, b], c, tc);
        assert(seq![a, b].push(c) =~= seq![a, b, c]);
    }
}

proof fn lemma_four_fields(a: u32, b: u32, c: u32, d: u32)
    requires
        a != b,
        a != c,
        a != d,
        b != c,
        b != d,
        c != d,
    ensures
        forall|ta: Option<Seq<char>>, tb: Option<Seq<char>>, tc: Option<Seq<char>>, td: Option<Seq<char>>| ids_in(#[trigger] (field(a, ta) + field(b, tb) + field(c, tc) + field(d, td)), seq![a, b, c, d]),
{
    lemma_three_fields(a, b, c);
    assert forall|ta: Option<Seq<char>>, tb: Option<Seq<char>>, tc: Option<Seq<char>>, td: Option<Seq<char>>| ids_in(#[trigger] (field(a, ta) + field(b, tb) + field(c, tc) + field(d, td)), seq![a, b, c, d]) by {
        lemma_one_more(field(a, ta) + field(b, tb) + field(c, tc), seq![a, b, c], d, td);
        assert(seq![a, b, c].push(d) =~= seq![a, b, c, d]);
    }
}

proof fn lemma_five_fields(a: u32, b: u32, c: u32, d: u32, e: u32)
    requires
        a != b,
        a != c,
        a != d,
        a != e,
        b != c,
        b != d,
        b != e,
        c != d,
        c != e,
        d != e,
    ensures
        forall|ta: Option<Seq<char>>, tb: Option<Seq<char>>, tc: Option<Seq<char>>, td: Option<Seq<char>>, te: Option<Seq<char>>| ids_in(#[trigger] (field(a, ta) + field(b, tb) + field(c, tc) + field(d, td) + field(e, te)), seq![a, b, c, d, e]),
{
    lemma_four_fields(a, b, c, d);
    assert forall|ta: Option<Seq<char>>, tb: Option<Seq<char>>, tc: Option<Seq<char>>, td: Option<Seq<char>>, te: Option<Seq<char>>| ids_in(#[trigger] (field(a, ta) + field(b, tb) + field(c, tc) + field(d, td) + field(e, te)), seq![a, b, c, d, e]) by {
        lemma_one_more(field(a, ta) + field(b, tb) + field(c, tc) + field(d, td), seq![a, b, c, d], e, te);
        assert(seq![a, b, c, d].push(e) =~= seq![a, b, c, d, e]);
    }
}

proof fn lemma_pod_ids(raw: JsonView)
    ensures
        distinct_ids(pod_fields(raw)),
{
    lemma_four_fields(POD_READY, POD_RESTARTS, POD_STATUS, POD_NODE);
    assert(ids_in(pod_fields(raw), seq![POD_READY, POD_RESTARTS, POD_STATUS, POD_NODE]));
}

proof fn lemma_deployment_ids(raw: JsonView)
    ensures
        distinct_ids(deployment_fields(raw)),
{
    lemma_three_fields(DEP_READY, DEP_UPDATED, DEP_AVAILABLE);
    assert(ids_in(deployment_fields(raw), seq![DEP_READY, DEP_UPDATED, DEP_AVAILABLE]));
}

proof fn lemma_statefulset_ids(raw: JsonView)
    ensures
        distinct_ids(statefulset_fields(raw)),
{
    lemma_first_field(STS_READY);
    assert(ids_in(statefulset_fields(raw), seq![STS_READY]));
}

proof fn lemma_daemonset_ids(raw: JsonView)
    ensures
        distinct_ids(daemonset_fields(raw)),
{
    lemma_five_fields(DS_DESIRED, DS_CURRENT, DS_READY, DS_UPDATED, DS_AVAILABLE);
    assert(ids_in(daemonset_fields(raw), seq![DS_DESIRED, DS_CURRENT, DS_READY, DS_UPDATED, DS_AVAILABLE]));
}

proof fn lemma_service_ids(raw: JsonView)
    ensures
        distinct_ids(service_fields(raw)),
{
    lemma_four_fields(SVC_TYPE, SVC_CLUSTER_IP, SVC_EXTERNAL_IP, SVC_PORTS);
    assert(ids_in(service_fields(raw), seq![SVC_TYPE, SVC_CLUSTER_IP, SVC_EXTERNAL_IP, SVC_PORTS]));
}

proof fn lemma_ingress_ids(raw: JsonView)
    ensures
        distinct_ids(ingress_fields(raw)),
{
    lemma_four_fields(ING_CLASS, ING_HOSTS, ING_ADDRESS, ING_TLS);
    assert(ids_in(ingress_fields(raw), seq![ING_CLASS, ING_HOSTS, ING_ADDRESS, ING_TLS]));
}

proof fn lemma_job_ids(raw: JsonView)
    ensures
        distinct_ids(job_fields(raw)),
{
    lemma_two_fields(JOB_COMPLETIONS, JOB_STATUS);
    assert(ids_in(job_fields(raw), seq![JOB_COMPLETIONS, JOB_STATUS]));
}

proof fn lemma_cronjob_ids(raw: JsonView)
    ensures
        distinct_ids(cronjob_fields(raw)),
{
    lemma_four_fields(CJ_SCHEDULE, CJ_SUSPEND, CJ_ACTIVE, CJ_LAST_SCHEDULE);
    assert(ids_in(cronjob_fields(raw), seq![CJ_SCHEDULE, CJ_SUSPEND, CJ_ACTIVE, CJ_LAST_SCHEDULE]));
}

proof fn lemma_pvc_ids(raw: JsonView)
    ensures
        distinct_ids(pvc_fields(raw)),
{
    lemma_five_fields(PVC_STATUS, PVC_VOLUME, PVC_CAPACITY, PVC_ACCESS_MODES, PVC_STORAGECLASS);
    assert(ids_in(pvc_fields(raw), seq![PVC_STATUS, PVC_VOLUME, PVC_CAPACITY, PVC_ACCESS_MODES, PVC_STORAGECLASS]));
}

proof fn lemma_node_ids(raw: JsonView)
    ensures
        distinct_ids(node_fields(raw)),
{
    lemma_three_fields(NODE_STATUS, NODE_ROLES, NODE_VERSION);
    assert(ids_in(node_fields(raw), seq![NODE_STATUS, NODE_ROLES, NODE_VERSION]));
}

proof fn lemma_namespace_ids(raw: JsonView)
    ensures
        distinct_ids(namespace_fields(raw)),
{
    lemma_first_field(NS_STATUS);
    assert(ids_in(namespace_fields(raw), seq![NS_STATUS]));
}

/// No object has two projected fields of the same number.
pub proof fn law_field_ids_distinct(key: Seq<char>, raw: JsonView)
    ensures
        distinct_ids(builtin_fields(key, raw)),
{
    lemma_pod_ids(raw);
    lemma_deployment_ids(raw);
    lemma_statefulset_ids(raw);
    lemma_daemonset_ids(raw);
    lemma_service_ids(raw);
    lemma_ingress_ids(raw);
    lemma_job_ids(raw);
    lemma_cronjob_ids(raw);
    lemma_pvc_ids(raw);
    lemma_node_ids(raw);
    lemma_namespace_ids(raw);
}

proof fn lemma_same_key(
    group: Seq<char>,
    version: Seq<char>,
    kind: Seq<char>,
    g: Seq<char>,
    v: Seq<char>,
    k: Seq<char>,
)
    requires
        !group.contains('/') && !version.contains('/') && !kind.contains('/'),
        !g.contains('/') && !v.contains('/') && !k.contains('/'),
        gvk_text(group, version, kind) == gvk_text(g, v, k),
    ensures
        group == g && version == v && kind == k,
{
    law_key_round_trip(group, version, kind);
    law_key_round_trip(g, v, k);
}

proof fn lemma_no_slashes()
    ensures
        !""@.contains('/'),
        !"apps"@.contains('/'),
        !"batch"@.contains('/'),
        !"networking.k8s.io"@.contains('/'),
        !"v1"@.contains('/'),
        !"Pod"@.contains('/'),
        !"Deployment"@.contains('/'),
        !"StatefulSet"@.contains('/'),
        !"DaemonSet"@.contains('/'),
        !"Service"@.contains('/'),
        !"Ingress"@.contains('/'),
        !"Job"@.contains('/'),
        !"CronJob"@.contains('/'),
        !"PersistentVolumeClaim"@.contains('/'),
        !"Node"@.contains('/'),
        !"Namespace"@.contains('/'),
{
    reveal_strlit("");
    reveal_strlit("apps");
    reveal_strlit("batch");
    reveal_strlit("networking.k8s.io");
    reveal_strlit("v1");
    reveal_strlit("Pod");
    reveal_strlit("Deployment");
    reveal_strlit("StatefulSet");
    reveal_strlit("DaemonSet");
    reveal_strlit("Service");
    reveal_strlit("Ingress");
    reveal_strlit("Job");
    reveal_strlit("CronJob");
    reveal_strlit("PersistentVolumeClaim");
    reveal_strlit("Node");
    reveal_strlit("Namespace");
}

/// Every projected field of a kind whose names have no slash is shown by a column of the
/// kind, and no two of them by the same one.
pub proof fn law_fields_are_columns(
    group: Seq<char>,
    version: Seq<char>,
    kind: Seq<char>,
    namespaced: bool,
    raw: JsonView,
)
    requires
        !group.contains('/'),
        !version.contains('/'),
        !kind.contains('/'),
    ensures
        distinct_ids(builtin_fields(gvk_text(group, version, kind), raw)),
        forall|i: int|
            0 <= i < builtin_fields(gvk_text(group, version, kind), raw).len() ==> shows(
                builtin_columns(group, version, kind, namespaced),
                (#[trigger] builtin_fields(gvk_text(group, version, kind), raw)[i]).0,
            ),
{
    let key = gvk_text(group, version, kind);
    law_field_ids_distinct(key, raw);
    lemma_keys();
    lemma_no_slashes();
    lemma_pod_shown(raw);
    lemma_deployment_shown(raw);
    lemma_statefulset_shown(raw);
    lemma_daemonset_shown(raw);
    lemma_service_shown(raw);
    lemma_ingress_shown(raw);
    lemma_job_shown(raw);
    lemma_cronjob_shown(raw);
    lemma_pvc_shown(raw);
    lemma_node_shown(raw);
    lemma_namespace_shown(raw);
    if key == "v1/Pod"@ {
        lemma_same_key(group, version, kind, ""@, "v1"@, "Pod"@);
    }
    if key == "apps/v1/Deployment"@ {
        lemma_same_key(group, version, kind, "apps"@, "v1"@, "Deployment"@);
    }
    if key == "apps/v1/StatefulSet"@ {
        lemma_same_key(group, version, kind, "apps"@, "v1"@, "StatefulSet"@);
    }
    if key == "apps/v1/DaemonSet"@ {
        lemma_same_key(group, version, kind, "apps"@, "v1"@, "DaemonSet"@);
    }
    if key == "v1/Service"@ {
        lemma_same_key(group, version, kind, ""@, "v1"@, "Service"@);
    }
    if key == "networking.k8s.io/v1/Ingress"@ {
        lemma_same_key(group, version, kind, "networking.k8s.io"@, "v1"@, "Ingress"@);
    }
    if key == "batch/v1/Job"@ {
        lemma_same_key(group, version, kind, "batch"@, "v1"@, "Job"@);
    }
    if key == "batch/v1/CronJob"@ {
        lemma_same_key(group, version, kind, "batch"@, "v1"@, "CronJob"@);
    }
    if key == "v1/PersistentVolumeClaim"@ {
        lemma_same_key(group, version, kind, ""@, "v1"@, "PersistentVolumeClaim"@);
    }
    if key == "v1/Node"@ {
        lemma_same_key(group, version, kind, ""@, "v1"@, "Node"@);
    }
    if key == "v1/Namespace"@ {
        lemma_same_key(group, version, kind, ""@, "v1"@, "Namespace"@);
    }
    assert forall|i: int| 0 <= i < builtin_fields(key, raw).len() implies shows(
        builtin_columns(group, version, kind, namespaced),
        (#[trigger] builtin_fields(key, raw)[i]).0,
    ) by {
        let id = builtin_fields(key, raw)[i].0;
        assert(shows(middle_columns(group, version, kind), id));
        lemma_middle_shown(group, version, kind, namespaced, id);
    }
}

// ---------------------------------------------------------------------------
// What the columns of the built-in kinds tell

/// Whether a column of a kind, known by its label, tells a text of an object.
pub open spec fn tells(
    group: Seq<char>,
    version: Seq<char>,
    kind: Seq<char>,
    raw: JsonView,
    label: Seq<char>,
    text: Seq<char>,
) -> bool {
    exists|i: int, j: int|
        {
            &&& 0 <= i < builtin_columns(group, version, kind, true).len()
            &&& 0 <= j < builtin_fields(gvk_text(group, version, kind), raw).len()
            &&& (#[trigger] builtin_columns(group, version, kind, true)[i]).label == label
            &&& builtin_columns(group, version, kind, true)[i].kind == ColumnKind::Projected(
                (#[trigger] builtin_fields(gvk_text(group, version, kind), raw)[j]).0,
            )
            &&& builtin_fields(gvk_text(group, version, kind), raw)[j].1 == text
        }
}

proof fn lemma_tells(
    group: Seq<char>,
    version: Seq<char>,
    kind: Seq<char>,
    raw: JsonView,
    k: int,
    label: Seq<char>,
    id: u32,
    text: Seq<char>,
)
    requires
        0 <= k < middle_columns(group, version, kind).len(),
        middle_columns(group, version, kind)[k].label == label,
        middle_columns(group, version, kind)[k].kind == ColumnKind::Projected(id),
        builtin_fields(gvk_text(group, version, kind), raw).contains((id, text)),
    ensures
        tells(group, version, kind, raw, label, text),
{
    let all = builtin_columns(group, version, kind, true);
    let fields = builtin_fields(gvk_text(group, version, kind), raw);
    let j = choose|j: int| 0 <= j < fields.len() && fields[j] == (id, text);
    assert(all[k + 2] == middle_columns(group, version, kind)[k]);
    assert(fields[j].0 == id);
}

proof fn lemma_field_first(id: u32, text: Seq<char>, rest: Seq<(u32, Seq<char>)>)
    ensures
        field(id, Some(text)).contains((id, text)),
        (field(id, Some(text)) + rest).contains((id, text)),
        (rest + field(id, Some(text))).contains((id, text)),
{
    assert(field(id, Some(text))[0] == (id, text));
    assert((field(id, Some(text)) + rest)[0] == (id, text));
    assert((rest + field(id, Some(text)))[rest.len() as int] == (id, text));
}

proof fn lemma_field_kept(s: Seq<(u32, Seq<char>)>, t: Seq<(u32, Seq<char>)>, x: (u32, Seq<char>))
    requires
        s.contains(x),
    ensures
        (s + t).contains(x),
{
    let i = choose|i: int| 0 <= i < s.len() && s[i] == x;
    assert((s + t)[i] == x);
}

proof fn lemma_kind_words()
    ensures
        ""@.len() == 0,
        "CronJob"@.len() == 7,
        "DaemonSet"@.len() == 9,
        "Deployment"@.len() == 10,
        "Ingress"@.len() == 7,
        "Job"@.len() == 3,
        "Namespace"@.len() == 9,
        "Node"@.len() == 4,
        "PersistentVolumeClaim"@.len() == 21,
        "Pod"@.len() == 3,
        "Service"@.len() == 7,
        "StatefulSet"@.len() == 11,
        "apps"@.len() == 4,
        "batch"@.len() == 5,
        "networking.k8s.io"@.len() == 17,
{
    reveal_strlit("");
    reveal_strlit("CronJob");
    reveal_strlit("DaemonSet");
    reveal_strlit("Deployment");
    reveal_strlit("Ingress");
    reveal_strlit("Job");
    reveal_strlit("Namespace");
    reveal_strlit("Node");
    reveal_strlit("PersistentVolumeClaim");
    reveal_strlit("Pod");
    reveal_strlit("Service");
    reveal_strlit("StatefulSet");
    reveal_strlit("apps");
    reveal_strlit("batch");
    reveal_strlit("networking.k8s.io");
}

proof fn lemma_first_condition(cs: Seq<JsonView>, i: int)
    requires
        0 <= i <= cs.len(),
        forall|k: int| 0 <= k < i ==> (#[trigger] cs[k]).str_of("type"@) != Some("Ready"@),
        i < cs.len() ==> cs[i].str_of("type"@) == Some("Ready"@),
    ensures
        i == cs.len() ==> node_status(cs) == "Unknown"@,
        i < cs.len() && cs[i].str_of("status"@) == Some("True"@) ==> node_status(cs) == "Ready"@,
        i < cs.len() && cs[i].str_of("status"@) != Some("True"@) ==> node_status(cs) == "NotReady"@,
    decreases i,
{
    if i > 0 {
        let rest = cs.skip(1);
        assert(cs[0].str_of("type"@) != Some("Ready"@));
        assert forall|k: int| 0 <= k < i - 1 implies (#[trigger] rest[k]).str_of("type"@) != Some("Ready"@) by {
            assert(rest[k] == cs[k + 1]);
        }
        if i < cs.len() {
            assert(rest[i - 1] == cs[i]);
        }
        lemma_first_condition(rest, i - 1);
    }
}

/// The status of a node goes by its first condition of the type Ready: it is ready where that
/// condition is true, and not ready where it is anything else.
pub proof fn law_node_status(raw: JsonView, cs: Seq<JsonView>, i: int)
    requires
        raw.array_of2("status"@, "conditions"@) == Some(cs),
        0 <= i < cs.len(),
        cs[i].str_of("type"@) == Some("Ready"@),
        forall|k: int| 0 <= k < i ==> (#[trigger] cs[k]).str_of("type"@) != Some("Ready"@),
    ensures
        cs[i].str_of("status"@) == Some("True"@) ==> tells(""@, "v1"@, "Node"@, raw, "Status"@, "Ready"@),
        cs[i].str_of("status"@) != Some("True"@) ==> tells(""@, "v1"@, "Node"@, raw, "Status"@, "NotReady"@),
{
    lemma_keys();
    lemma_kind_words();
    lemma_node_shown(raw);
    lemma_first_condition(cs, i);
    let all = builtin_fields("v1/Node"@, raw);
    let mid = middle_columns(""@, "v1"@, "Node"@);
    if cs[i].str_of("status"@) == Some("True"@) {
        let text = "Ready"@;
        let here = field(NODE_STATUS, Some(text));
        lemma_field_first(NODE_STATUS, text, Seq::<(u32, Seq<char>)>::empty());
        lemma_field_kept(here, field(NODE_ROLES, Some(join(node_roles(raw), ","@))), (NODE_STATUS, text));
        lemma_field_kept((here + field(NODE_ROLES, Some(join(node_roles(raw), ","@)))), field(NODE_VERSION, raw.str_of3("status"@, "nodeInfo"@, "kubeletVersion"@)), (NODE_STATUS, text));
        assert(all == ((here + field(NODE_ROLES, Some(join(node_roles(raw), ","@)))) + field(NODE_VERSION, raw.str_of3("status"@, "nodeInfo"@, "kubeletVersion"@))));
        assert(mid[0].label == "Status"@);
        lemma_tells(""@, "v1"@, "Node"@, raw, 0, "Status"@, NODE_STATUS, text);
    }
    if cs[i].str_of("status"@) != Some("True"@) {
        let text = "NotReady"@;
        let here = field(NODE_STATUS, Some(text));
        lemma_field_first(NODE_STATUS, text, Seq::<(u32, Seq<char>)>::empty());
        lemma_field_kept(here, field(NODE_ROLES, Some(join(node_roles(raw), ","@))), (NODE_STATUS, text));
        lemma_field_kept((here + field(NODE_ROLES, Some(join(node_roles(raw), ","@)))), field(NODE_VERSION, raw.str_of3("status"@, "nodeInfo"@, "kubeletVersion"@)), (NODE_STATUS, text));
        assert(all == ((here + field(NODE_ROLES, Some(join(node_roles(raw), ","@)))) + field(NODE_VERSION, raw.str_of3("status"@, "nodeInfo"@, "kubeletVersion"@))));
        assert(mid[0].label == "Status"@);
        lemma_tells(""@, "v1"@, "Node"@, raw, 0, "Status"@, NODE_STATUS, text);
    }
}

/// A node without a condition of the type Ready has an unknown status.
pub proof fn law_node_status_unknown(raw: JsonView, cs: Seq<JsonView>)
    requires
        raw.array_of2("status"@, "conditions"@) == Some(cs) || (raw.array_of2("status"@, "conditions"@) is None && cs.len() == 0),
        forall|k: int| 0 <= k < cs.len() ==> (#[trigger] cs[k]).str_of("type"@) != Some("Ready"@),
    ensures
        tells(""@, "v1"@, "Node"@, raw, "Status"@, "Unknown"@),
{
    lemma_keys();
    lemma_kind_words();
    lemma_node_shown(raw);
    assert(cs.len() == 0 ==> cs =~= Seq::empty());
    lemma_first_condition(cs, cs.len() as int);
    let all = builtin_fields("v1/Node"@, raw);
    let mid = middle_columns(""@, "v1"@, "Node"@);
    let text = "Unknown"@;
    let here = field(NODE_STATUS, Some(text));
    lemma_field_first(NODE_STATUS, text, Seq::<(u32, Seq<char>)>::empty());
    lemma_field_kept(here, field(NODE_ROLES, Some(join(node_roles(raw), ","@))), (NODE_STATUS, text));
    lemma_field_kept((here + field(NODE_ROLES, Some(join(node_roles(raw), ","@)))), field(NODE_VERSION, raw.str_of3("status"@, "nodeInfo"@, "kubeletVersion"@)), (NODE_STATUS, text));
    assert(all == ((here + field(NODE_ROLES, Some(join(node_roles(raw), ","@)))) + field(NODE_VERSION, raw.str_of3("status"@, "nodeInfo"@, "kubeletVersion"@))));
    assert(mid[0].label == "Status"@);
    lemma_tells(""@, "v1"@, "Node"@, raw, 0, "Status"@, NODE_STATUS, text);
}

/// The version of a node is that of its kubelet.
pub proof fn law_node_version(raw: JsonView, version: Seq<char>)
    requires
        raw.str_of3("status"@, "nodeInfo"@, "kubeletVersion"@) == Some(version),
    ensures
        tells(""@, "v1"@, "Node"@, raw, "Version"@, version),
{
    lemma_keys();
    lemma_kind_words();
    lemma_node_shown(raw);
    let all = builtin_fields("v1/Node"@, raw);
    let mid = middle_columns(""@, "v1"@, "Node"@);
    let text = version;
    let here = (field(NODE_STATUS, Some(node_status(elements(raw.array_of2("status"@, "conditions"@))))) + field(NODE_ROLES, Some(join(node_roles(raw), ","@)))) + field(NODE_VERSION, Some(text));
    lemma_field_first(NODE_VERSION, text, field(NODE_STATUS, Some(node_status(elements(raw.array_of2("status"@, "conditions"@))))) + field(NODE_ROLES, Some(join(node_roles(raw), ","@))));
    assert(all == here);
    assert(mid[2].label == "Version"@);
    lemma_tells(""@, "v1"@, "Node"@, raw, 2, "Version"@, NODE_VERSION, text);
}

spec fn shown_status(raw: JsonView) -> Option<Seq<char>> {
    let reason = or_text(raw.str_of2("status"@, "reason"@), Seq::empty());
    let phase = or_text(raw.str_of2("status"@, "phase"@), Seq::empty());
    let status = if reason.len() > 0 {
        reason
    } else {
        phase
    };
    if status.len() > 0 {
        Some(status)
    } else {
        None
    }
}

proof fn lemma_ready_counted(cs: Seq<JsonView>, f: spec_fn(JsonView) -> bool)
    requires
        forall|c: JsonView| #[trigger] f(c) == (c.flag_of("ready"@) == Some(true)),
    ensures
        ready_count(cs) == cs.filter(f).len(),
    decreases cs.len(),
{
    reveal(Seq::filter);
    if cs.len() > 0 {
        lemma_ready_counted(cs.drop_last(), f);
    }
}

/// A pod tells how many of its containers are ready, of how many, and where it runs; its status
/// is its reason, where it has one, else its phase.
pub proof fn law_pod_columns(raw: JsonView, cs: Seq<JsonView>, node: Seq<char>, reason: Seq<char>, phase: Seq<char>)
    requires
        raw.array_of2("status"@, "containerStatuses"@) == Some(cs),
        cs.len() < 0x1_0000_0000,
    ensures
        tells(""@, "v1"@, "Pod"@, raw, "Ready"@, dec(cs.filter(|c: JsonView| c.flag_of("ready"@) == Some(true)).len()) + "/"@ + dec(cs.len())),
        raw.str_of2("spec"@, "nodeName"@) == Some(node) ==> tells(""@, "v1"@, "Pod"@, raw, "Node"@, node),
        raw.str_of2("status"@, "reason"@) == Some(reason) && reason.len() > 0 ==> tells(""@, "v1"@, "Pod"@, raw, "Status"@, reason),
        raw.str_of2("status"@, "reason"@) is None && raw.str_of2("status"@, "phase"@) == Some(phase) && phase.len() > 0 ==> tells(""@, "v1"@, "Pod"@, raw, "Status"@, phase),
{
    lemma_keys();
    lemma_kind_words();
    lemma_pod_shown(raw);
    let ready = |c: JsonView| c.flag_of("ready"@) == Some(true);
    lemma_ready_counted(cs, ready);
    cs.lemma_filter_len(ready);
    let all = builtin_fields("v1/Pod"@, raw);
    let mid = middle_columns(""@, "v1"@, "Pod"@);
    let text = dec(cs.filter(|c: JsonView| c.flag_of("ready"@) == Some(true)).len()) + "/"@ + dec(cs.len());
    let here = field(POD_READY, Some(text));
    lemma_field_first(POD_READY, text, Seq::<(u32, Seq<char>)>::empty());
    lemma_field_kept(here, field(POD_RESTARTS, Some(dec(restart_sum(elements(raw.array_of2("status"@, "containerStatuses"@))) % 0x1_0000_0000))), (POD_READY, text));
    lemma_field_kept((here + field(POD_RESTARTS, Some(dec(restart_sum(elements(raw.array_of2("status"@, "containerStatuses"@))) % 0x1_0000_0000)))), field(POD_STATUS, shown_status(raw)), (POD_READY, text));
    lemma_field_kept(((here + field(POD_RESTARTS, Some(dec(restart_sum(elements(raw.array_of2("status"@, "containerStatuses"@))) % 0x1_0000_0000)))) + field(POD_STATUS, shown_status(raw))), field(POD_NODE, raw.str_of2("spec"@, "nodeName"@)), (POD_READY, text));
    assert(all == (((here + field(POD_RESTARTS, Some(dec(restart_sum(elements(raw.array_of2("status"@, "containerStatuses"@))) % 0x1_0000_0000)))) + field(POD_STATUS, shown_status(raw))) + field(POD_NODE, raw.str_of2("spec"@, "nodeName"@))));
    assert(mid[0].label == "Ready"@);
    lemma_tells(""@, "v1"@, "Pod"@, raw, 0, "Ready"@, POD_READY, text);
    if raw.str_of2("spec"@, "nodeName"@) == Some(node) {
        let text = node;
        let here = (field(POD_READY, Some(dec(ready_count(elements(raw.array_of2("status"@, "containerStatuses"@))) % 0x1_0000_0000) + "/"@ + dec(elements(raw.array_of2("status"@, "containerStatuses"@)).len() % 0x1_0000_0000))) + field(POD_RESTARTS, Some(dec(restart_sum(elements(raw.array_of2("status"@, "containerStatuses"@))) % 0x1_0000_0000))) + field(POD_STATUS, shown_status(raw))) + field(POD_NODE, Some(text));
        lemma_field_first(POD_NODE, text, field(POD_READY, Some(dec(ready_count(elements(raw.array_of2("status"@, "containerStatuses"@))) % 0x1_0000_0000) + "/"@ + dec(elements(raw.array_of2("status"@, "containerStatuses"@)).len() % 0x1_0000_0000))) + field(POD_RESTARTS, Some(dec(restart_sum(elements(raw.array_of2("status"@, "containerStatuses"@))) % 0x1_0000_0000))) + field(POD_STATUS, shown_status(raw)));
        assert(all == here);
        assert(mid[3].label == "Node"@);
        lemma_tells(""@, "v1"@, "Pod"@, raw, 3, "Node"@, POD_NODE, text);
    }
    if raw.str_of2("status"@, "reason"@) == Some(reason) && reason.len() > 0 {
        let text = reason;
        let here = (field(POD_READY, Some(dec(ready_count(elements(raw.array_of2("status"@, "containerStatuses"@))) % 0x1_0000_0000) + "/"@ + dec(elements(raw.array_of2("status"@, "containerStatuses"@)).len() % 0x1_0000_0000))) + field(POD_RESTARTS, Some(dec(restart_sum(elements(raw.array_of2("status"@, "containerStatuses"@))) % 0x1_0000_0000)))) + field(POD_STATUS, Some(text));
        lemma_field_first(POD_STATUS, text, field(POD_READY, Some(dec(ready_count(elements(raw.array_of2("status"@, "containerStatuses"@))) % 0x1_0000_0000) + "/"@ + dec(elements(raw.array_of2("status"@, "containerStatuses"@)).len() % 0x1_0000_0000))) + field(POD_RESTARTS, Some(dec(restart_sum(elements(raw.array_of2("status"@, "containerStatuses"@))) % 0x1_0000_0000))));
        lemma_field_kept(here, field(POD_NODE, raw.str_of2("spec"@, "nodeName"@)), (POD_STATUS, text));
        assert(all == (here + field(POD_NODE, raw.str_of2("spec"@, "nodeName"@))));
        assert(mid[1].label == "Status"@);
        lemma_tells(""@, "v1"@, "Pod"@, raw, 1, "Status"@, POD_STATUS, text);
    }
    if raw.str_of2("status"@, "reason"@) is None && raw.str_of2("status"@, "phase"@) == Some(phase) && phase.len() > 0 {
        let text = phase;
        let here = (field(POD_READY, Some(dec(ready_count(elements(raw.array_of2("status"@, "containerStatuses"@))) % 0x1_0000_0000) + "/"@ + dec(elements(raw.array_of2("status"@, "containerStatuses"@)).len() % 0x1_0000_0000))) + field(POD_RESTARTS, Some(dec(restart_sum(elements(raw.array_of2("status"@, "containerStatuses"@))) % 0x1_0000_0000)))) + field(POD_STATUS, Some(text));
        lemma_field_first(POD_STATUS, text, field(POD_READY, Some(dec(ready_count(elements(raw.array_of2("status"@, "containerStatuses"@))) % 0x1_0000_0000) + "/"@ + dec(elements(raw.array_of2("status"@, "containerStatuses"@)).len() % 0x1_0000_0000))) + field(POD_RESTARTS, Some(dec(restart_sum(elements(raw.array_of2("status"@, "containerStatuses"@))) % 0x1_0000_0000))));
        lemma_field_kept(here, field(POD_NODE, raw.str_of2("spec"@, "nodeName"@)), (POD_STATUS, text));
        assert(all == (here + field(POD_NODE, raw.str_of2("spec"@, "nodeName"@))));
        assert(mid[1].label == "Status"@);
        lemma_tells(""@, "v1"@, "Pod"@, raw, 1, "Status"@, POD_STATUS, text);
    }
}

/// The restarts of a pod are those of its containers together: a container more adds its own.
pub proof fn law_pod_restarts(raw: JsonView, fewer: JsonView, cs: Seq<JsonView>, c: JsonView, k: u64, n: nat)
    requires
        raw.array_of2("status"@, "containerStatuses"@) == Some(cs.push(c)),
        fewer.array_of2("status"@, "containerStatuses"@) == Some(cs),
        c.nat_of("restartCount"@) == Some(k),
        n + k < 0x1_0000_0000,
        restart_sum(cs) == n,
    ensures
        tells(""@, "v1"@, "Pod"@, fewer, "Restarts"@, dec(n)),
        tells(""@, "v1"@, "Pod"@, raw, "Restarts"@, dec((n + k) as nat)),
        restart_sum(Seq::empty()) == 0,
{
    assert(cs.push(c).drop_last() =~= cs);
    lemma_restarts_told(raw, (n + k) as nat);
    lemma_restarts_told(fewer, n);
}


proof fn lemma_restarts_told(raw: JsonView, n: nat)
    requires
        restart_sum(elements(raw.array_of2("status"@, "containerStatuses"@))) == n,
        n < 0x1_0000_0000,
    ensures
        tells(""@, "v1"@, "Pod"@, raw, "Restarts"@, dec(n)),
{
    lemma_keys();
    lemma_kind_words();
    lemma_pod_shown(raw);
    let all = builtin_fields("v1/Pod"@, raw);
    let mid = middle_columns(""@, "v1"@, "Pod"@);
    let text = dec(n);
    let here = (field(POD_READY, Some(dec(ready_count(elements(raw.array_of2("status"@, "containerStatuses"@))) % 0x1_0000_0000) + "/"@ + dec(elements(raw.array_of2("status"@, "containerStatuses"@)).len() % 0x1_0000_0000)))) + field(POD_RESTARTS, Some(text));
    lemma_field_first(POD_RESTARTS, text, field(POD_READY, Some(dec(ready_count(elements(raw.array_of2("status"@, "containerStatuses"@))) % 0x1_0000_0000) + "/"@ + dec(elements(raw.array_of2("status"@, "containerStatuses"@)).len() % 0x1_0000_0000))));
    lemma_field_kept(here, field(POD_STATUS, shown_status(raw)), (POD_RESTARTS, text));
    lemma_field_kept((here + field(POD_STATUS, shown_status(raw))), field(POD_NODE, raw.str_of2("spec"@, "nodeName"@)), (POD_RESTARTS, text));
    assert(all == ((here + field(POD_STATUS, shown_status(raw))) + field(POD_NODE, raw.str_of2("spec"@, "nodeName"@))));
    assert(mid[2].label == "Restarts"@);
    lemma_tells(""@, "v1"@, "Pod"@, raw, 2, "Restarts"@, POD_RESTARTS, text);
}

/// A deployment tells how many of its replicas are ready, of how many, how many are up to date
/// and how many available.
pub proof fn law_deployment_columns(raw: JsonView, ready: u64, all_of: u64, updated: u64, available: u64)
    requires
        raw.nat_of2("status"@, "readyReplicas"@) == Some(ready) || (raw.nat_of2("status"@, "readyReplicas"@) is None && ready == 0),
        raw.nat_of2("status"@, "replicas"@) == Some(all_of),
        raw.nat_of2("status"@, "updatedReplicas"@) == Some(updated),
        raw.nat_of2("status"@, "availableReplicas"@) == Some(available),
    ensures
        tells("apps"@, "v1"@, "Deployment"@, raw, "Ready"@, dec(ready as nat) + "/"@ + dec(all_of as nat)),
        tells("apps"@, "v1"@, "Deployment"@, raw, "Up-to-date"@, dec(updated as nat)),
        tells("apps"@, "v1"@, "Deployment"@, raw, "Available"@, dec(available as nat)),
{
    lemma_keys();
    lemma_kind_words();
    lemma_deployment_shown(raw);
    let all = builtin_fields("apps/v1/Deployment"@, raw);
    let mid = middle_columns("apps"@, "v1"@, "Deployment"@);
    let text = dec(ready as nat) + "/"@ + dec(all_of as nat);
    let here = field(DEP_READY, Some(text));
    lemma_field_first(DEP_READY, text, Seq::<(u32, Seq<char>)>::empty());
    lemma_field_kept(here, field(DEP_UPDATED, Some(dec(status_count(raw, "updatedReplicas"@)))), (DEP_READY, text));
    lemma_field_kept((here + field(DEP_UPDATED, Some(dec(status_count(raw, "updatedReplicas"@))))), field(DEP_AVAILABLE, Some(dec(status_count(raw, "availableReplicas"@)))), (DEP_READY, text));
    assert(all == ((here + field(DEP_UPDATED, Some(dec(status_count(raw, "updatedReplicas"@))))) + field(DEP_AVAILABLE, Some(dec(status_count(raw, "availableReplicas"@))))));
    assert(mid[0].label == "Ready"@);
    lemma_tells("apps"@, "v1"@, "Deployment"@, raw, 0, "Ready"@, DEP_READY, text);
    let text = dec(updated as nat);
    let here = (field(DEP_READY, Some(dec(status_count(raw, "readyReplicas"@)) + "/"@ + dec(status_count(raw, "replicas"@))))) + field(DEP_UPDATED, Some(text));
    lemma_field_first(DEP_UPDATED, text, field(DEP_READY, Some(dec(status_count(raw, "readyReplicas"@)) + "/"@ + dec(status_count(raw, "replicas"@)))));
    lemma_field_kept(here, field(DEP_AVAILABLE, Some(dec(status_count(raw, "availableReplicas"@)))), (DEP_UPDATED, text));
    assert(all == (here + field(DEP_AVAILABLE, Some(dec(status_count(raw, "availableReplicas"@))))));
    assert(mid[1].label == "Up-to-date"@);
    lemma_tells("apps"@, "v1"@, "Deployment"@, raw, 1, "Up-to-date"@, DEP_UPDATED, text);
    let text = dec(available as nat);
    let here = (field(DEP_READY, Some(dec(status_count(raw, "readyReplicas"@)) + "/"@ + dec(status_count(raw, "replicas"@)))) + field(DEP_UPDATED, Some(dec(status_count(raw, "updatedReplicas"@))))) + field(DEP_AVAILABLE, Some(text));
    lemma_field_first(DEP_AVAILABLE, text, field(DEP_READY, Some(dec(status_count(raw, "readyReplicas"@)) + "/"@ + dec(status_count(raw, "replicas"@)))) + field(DEP_UPDATED, Some(dec(status_count(raw, "updatedReplicas"@)))));
    assert(all == here);
    assert(mid[2].label == "Available"@);
    lemma_tells("apps"@, "v1"@, "Deployment"@, raw, 2, "Available"@, DEP_AVAILABLE, text);
}

/// A stateful set tells how many of its replicas are ready, of how many.
pub proof fn law_statefulset_columns(raw: JsonView, ready: u64, all_of: u64)
    requires
        raw.nat_of2("status"@, "readyReplicas"@) == Some(ready) || (raw.nat_of2("status"@, "readyReplicas"@) is None && ready == 0),
        raw.nat_of2("status"@, "replicas"@) == Some(all_of),
    ensures
        tells("apps"@, "v1"@, "StatefulSet"@, raw, "Ready"@, dec(ready as nat) + "/"@ + dec(all_of as nat)),
{
    lemma_keys();
    lemma_kind_words();
    lemma_statefulset_shown(raw);
    let all = builtin_fields("apps/v1/StatefulSet"@, raw);
    let mid = middle_columns("apps"@, "v1"@, "StatefulSet"@);
    let text = dec(ready as nat) + "/"@ + dec(all_of as nat);
    let here = field(STS_READY, Some(text));
    lemma_field_first(STS_READY, text, Seq::<(u32, Seq<char>)>::empty());
    assert(all == here);
    assert(mid[0].label == "Ready"@);
    lemma_tells("apps"@, "v1"@, "StatefulSet"@, raw, 0, "Ready"@, STS_READY, text);
}

/// A daemon set tells its five counts, each under its own label.
pub proof fn law_daemonset_columns(raw: JsonView, n: Seq<u64>)
    requires
        n.len() == 5,
        raw.nat_of2("status"@, "desiredNumberScheduled"@) == Some(n[0]),
        raw.nat_of2("status"@, "currentNumberScheduled"@) == Some(n[1]),
        raw.nat_of2("status"@, "numberReady"@) == Some(n[2]),
        raw.nat_of2("status"@, "updatedNumberScheduled"@) == Some(n[3]),
        raw.nat_of2("status"@, "numberAvailable"@) == Some(n[4]),
    ensures
        tells("apps"@, "v1"@, "DaemonSet"@, raw, "Desired"@, dec(n[0] as nat)),
        tells("apps"@, "v1"@, "DaemonSet"@, raw, "Current"@, dec(n[1] as nat)),
        tells("apps"@, "v1"@, "DaemonSet"@, raw, "Ready"@, dec(n[2] as nat)),
        tells("apps"@, "v1"@, "DaemonSet"@, raw, "Up-to-date"@, dec(n[3] as nat)),
        tells("apps"@, "v1"@, "DaemonSet"@, raw, "Available"@, dec(n[4] as nat)),
{
    lemma_keys();
    lemma_kind_words();
    lemma_daemonset_shown(raw);
    let all = builtin_fields("apps/v1/DaemonSet"@, raw);
    let mid = middle_columns("apps"@, "v1"@, "DaemonSet"@);
    let text = dec(n[0] as nat);
    let here = field(DS_DESIRED, Some(text));
    lemma_field_first(DS_DESIRED, text, Seq::<(u32, Seq<char>)>::empty());
    lemma_field_kept(here, field(DS_CURRENT, Some(dec(status_count(raw, "currentNumberScheduled"@)))), (DS_DESIRED, text));
    lemma_field_kept((here + field(DS_CURRENT, Some(dec(status_count(raw, "currentNumberScheduled"@))))), field(DS_READY, Some(dec(status_count(raw, "numberReady"@)))), (DS_DESIRED, text));
    lemma_field_kept(((here + field(DS_CURRENT, Some(dec(status_count(raw, "currentNumberScheduled"@))))) + field(DS_READY, Some(dec(status_count(raw, "numberReady"@))))), field(DS_UPDATED, Some(dec(status_count(raw, "updatedNumberScheduled"@)))), (DS_DESIRED, text));
    lemma_field_kept((((here + field(DS_CURRENT, Some(dec(status_count(raw, "currentNumberScheduled"@))))) + field(DS_READY, Some(dec(status_count(raw, "numberReady"@))))) + field(DS_UPDATED, Some(dec(status_count(raw, "updatedNumberScheduled"@))))), field(DS_AVAILABLE, Some(dec(status_count(raw, "numberAvailable"@)))), (DS_DESIRED, text));
    assert(all == ((((here + field(DS_CURRENT, Some(dec(status_count(raw, "currentNumberScheduled"@))))) + field(DS_READY, Some(dec(status_count(raw, "numberReady"@))))) + field(DS_UPDATED, Some(dec(status_count(raw, "updatedNumberScheduled"@))))) + field(DS_AVAILABLE, Some(dec(status_count(raw, "numberAvailable"@))))));
    assert(mid[0].label == "Desired"@);
    lemma_tells("apps"@, "v1"@, "DaemonSet"@, raw, 0, "Desired"@, DS_DESIRED, text);
    let text = dec(n[1] as nat);
    let here = (field(DS_DESIRED, Some(dec(status_count(raw, "desiredNumberScheduled"@))))) + field(DS_CURRENT, Some(text));
    lemma_field_first(DS_CURRENT, text, field(DS_DESIRED, Some(dec(status_count(raw, "desiredNumberScheduled"@)))));
    lemma_field_kept(here, field(DS_READY, Some(dec(status_count(raw, "numberReady"@)))), (DS_CURRENT, text));
    lemma_field_kept((here + field(DS_READY, Some(dec(status_count(raw, "numberReady"@))))), field(DS_UPDATED, Some(dec(status_count(raw, "updatedNumberScheduled"@)))), (DS_CURRENT, text));
    lemma_field_kept(((here + field(DS_READY, Some(dec(status_count(raw, "numberReady"@))))) + field(DS_UPDATED, Some(dec(status_count(raw, "updatedNumberScheduled"@))))), field(DS_AVAILABLE, Some(dec(status_count(raw, "numberAvailable"@)))), (DS_CURRENT, text));
    assert(all == (((here + field(DS_READY, Some(dec(status_count(raw, "numberReady"@))))) + field(DS_UPDATED, Some(dec(status_count(raw, "updatedNumberScheduled"@))))) + field(DS_AVAILABLE, Some(dec(status_count(raw, "numberAvailable"@))))));
    assert(mid[1].label == "Current"@);
    lemma_tells("apps"@, "v1"@, "DaemonSet"@, raw, 1, "Current"@, DS_CURRENT, text);
    let text = dec(n[2] as nat);
    let here = (field(DS_DESIRED, Some(dec(status_count(raw, "desiredNumberScheduled"@)))) + field(DS_CURRENT, Some(dec(status_count(raw, "currentNumberScheduled"@))))) + field(DS_READY, Some(text));
    lemma_field_first(DS_READY, text, field(DS_DESIRED, Some(dec(status_count(raw, "desiredNumberScheduled"@)))) + field(DS_CURRENT, Some(dec(status_count(raw, "currentNumberScheduled"@)))));
    lemma_field_kept(here, field(DS_UPDATED, Some(dec(status_count(raw, "updatedNumberScheduled"@)))), (DS_READY, text));
    lemma_field_kept((here + field(DS_UPDATED, Some(dec(status_count(raw, "updatedNumberScheduled"@))))), field(DS_AVAILABLE, Some(dec(status_count(raw, "numberAvailable"@)))), (DS_READY, text));
    assert(all == ((here + field(DS_UPDATED, Some(dec(status_count(raw, "updatedNumberScheduled"@))))) + field(DS_AVAILABLE, Some(dec(status_count(raw, "numberAvailable"@))))));
    assert(mid[2].label == "Ready"@);
    lemma_tells("apps"@, "v1"@, "DaemonSet"@, raw, 2, "Ready"@, DS_READY, text);
    let text = dec(n[3] as nat);
    let here = (field(DS_DESIRED, Some(dec(status_count(raw, "desiredNumberScheduled"@)))) + field(DS_CURRENT, Some(dec(status_count(raw, "currentNumberScheduled"@)))) + field(DS_READY, Some(dec(status_count(raw, "numberReady"@))))) + field(DS_UPDATED, Some(text));
    lemma_field_first(DS_UPDATED, text, field(DS_DESIRED, Some(dec(status_count(raw, "desiredNumberScheduled"@)))) + field(DS_CURRENT, Some(dec(status_count(raw, "currentNumberScheduled"@)))) + field(DS_READY, Some(dec(status_count(raw, "numberReady"@)))));
    lemma_field_kept(here, field(DS_AVAILABLE, Some(dec(status_count(raw, "numberAvailable"@)))), (DS_UPDATED, text));
    assert(all == (here + field(DS_AVAILABLE, Some(dec(status_count(raw, "numberAvailable"@))))));
    assert(mid[3].label == "Up-to-date"@);
    lemma_tells("apps"@, "v1"@, "DaemonSet"@, raw, 3, "Up-to-date"@, DS_UPDATED, text);
    let text = dec(n[4] as nat);
    let here = (field(DS_DESIRED, Some(dec(status_count(raw, "desiredNumberScheduled"@)))) + field(DS_CURRENT, Some(dec(status_count(raw, "currentNumberScheduled"@)))) + field(DS_READY, Some(dec(status_count(raw, "numberReady"@)))) + field(DS_UPDATED, Some(dec(status_count(raw, "updatedNumberScheduled"@))))) + field(DS_AVAILABLE, Some(text));
    lemma_field_first(DS_AVAILABLE, text, field(DS_DESIRED, Some(dec(status_count(raw, "desiredNumberScheduled"@)))) + field(DS_CURRENT, Some(dec(status_count(raw, "currentNumberScheduled"@)))) + field(DS_READY, Some(dec(status_count(raw, "numberReady"@)))) + field(DS_UPDATED, Some(dec(status_count(raw, "updatedNumberScheduled"@)))));
    assert(all == here);
    assert(mid[4].label == "Available"@);
    lemma_tells("apps"@, "v1"@, "DaemonSet"@, raw, 4, "Available"@, DS_AVAILABLE, text);
}

spec fn external_of(raw: JsonView) -> Seq<Seq<char>> {
    let direct = collect(elements(raw.array_of2("spec"@, "externalIPs"@)), |v: JsonView| v.text());
    if direct.len() > 0 {
        direct
    } else {
        collect(
            elements(raw.array_of3("status"@, "loadBalancer"@, "ingress"@)),
            |v: JsonView| ingress_address(v),
        )
    }
}

spec fn ports_of(raw: JsonView) -> Seq<Seq<char>> {
    first_n(elements(raw.array_of2("spec"@, "ports"@)), 4).map_values(|p: JsonView| port_label(p))
}

/// A service tells its type and its own address; an address it was given from outside, or else
/// the one of its load balancer; and its port, by name or by protocol.
pub proof fn law_service_columns(raw: JsonView, t: Seq<char>, x: JsonView, port: u64)
    requires
        x.nat_of("port"@) == Some(port),
    ensures
        raw.str_of2("spec"@, "type"@) == Some(t) ==> tells(""@, "v1"@, "Service"@, raw, "Type"@, t),
        raw.str_of2("spec"@, "clusterIP"@) == Some(t) ==> tells(""@, "v1"@, "Service"@, raw, "Cluster IP"@, t),
        raw.array_of2("spec"@, "externalIPs"@) == Some(seq![JsonView::Str(t)]) ==> tells(""@, "v1"@, "Service"@, raw, "External IP"@, t),
        raw.array_of2("spec"@, "externalIPs"@) is None && raw.array_of3("status"@, "loadBalancer"@, "ingress"@) == Some(seq![x]) && x.str_of("ip"@) == Some(t) ==> tells(""@, "v1"@, "Service"@, raw, "External IP"@, t),
        raw.array_of2("spec"@, "externalIPs"@) is None && raw.array_of3("status"@, "loadBalancer"@, "ingress"@) == Some(seq![x]) && x.str_of("ip"@) is None && x.str_of("hostname"@) == Some(t) ==> tells(""@, "v1"@, "Service"@, raw, "External IP"@, t),
        raw.array_of2("spec"@, "ports"@) == Some(seq![x]) && x.str_of("name"@) == Some(t) ==> tells(""@, "v1"@, "Service"@, raw, "Ports"@, t + ":"@ + dec(port as nat)),
        raw.array_of2("spec"@, "ports"@) == Some(seq![x]) && x.str_of("name"@) is None && x.str_of("protocol"@) == Some(t) ==> tells(""@, "v1"@, "Service"@, raw, "Ports"@, dec(port as nat) + "/"@ + t),
{
    lemma_keys();
    lemma_kind_words();
    lemma_service_shown(raw);
    lemma_single(JsonView::Str(t), t);
    lemma_single_address(x, t);
    lemma_single_port(x);
    assert(Seq::<JsonView>::empty().len() == 0);
    let all = builtin_fields("v1/Service"@, raw);
    let mid = middle_columns(""@, "v1"@, "Service"@);
    if raw.str_of2("spec"@, "type"@) == Some(t) {
        let text = t;
        let here = field(SVC_TYPE, Some(text));
        lemma_field_first(SVC_TYPE, text, Seq::<(u32, Seq<char>)>::empty());
        lemma_field_kept(here, field(SVC_CLUSTER_IP, raw.str_of2("spec"@, "clusterIP"@)), (SVC_TYPE, text));
        lemma_field_kept((here + field(SVC_CLUSTER_IP, raw.str_of2("spec"@, "clusterIP"@))), field(SVC_EXTERNAL_IP, listed(external_of(raw))), (SVC_TYPE, text));
        lemma_field_kept(((here + field(SVC_CLUSTER_IP, raw.str_of2("spec"@, "clusterIP"@))) + field(SVC_EXTERNAL_IP, listed(external_of(raw)))), field(SVC_PORTS, listed(ports_of(raw))), (SVC_TYPE, text));
        assert(all == (((here + field(SVC_CLUSTER_IP, raw.str_of2("spec"@, "clusterIP"@))) + field(SVC_EXTERNAL_IP, listed(external_of(raw)))) + field(SVC_PORTS, listed(ports_of(raw)))));
        assert(mid[0].label == "Type"@);
        lemma_tells(""@, "v1"@, "Service"@, raw, 0, "Type"@, SVC_TYPE, text);
    }
    if raw.str_of2("spec"@, "clusterIP"@) == Some(t) {
        let text = t;
        let here = (field(SVC_TYPE, raw.str_of2("spec"@, "type"@))) + field(SVC_CLUSTER_IP, Some(text));
        lemma_field_first(SVC_CLUSTER_IP, text, field(SVC_TYPE, raw.str_of2("spec"@, "type"@)));
        lemma_field_kept(here, field(SVC_EXTERNAL_IP, listed(external_of(raw))), (SVC_CLUSTER_IP, text));
        lemma_field_kept((here + field(SVC_EXTERNAL_IP, listed(external_of(raw)))), field(SVC_PORTS, listed(ports_of(raw))), (SVC_CLUSTER_IP, text));
        assert(all == ((here + field(SVC_EXTERNAL_IP, listed(external_of(raw)))) + field(SVC_PORTS, listed(ports_of(raw)))));
        assert(mid[1].label == "Cluster IP"@);
        lemma_tells(""@, "v1"@, "Service"@, raw, 1, "Cluster IP"@, SVC_CLUSTER_IP, text);
    }
    if raw.array_of2("spec"@, "externalIPs"@) == Some(seq![JsonView::Str(t)]) {
        let text = t;
        let here = (field(SVC_TYPE, raw.str_of2("spec"@, "type"@)) + field(SVC_CLUSTER_IP, raw.str_of2("spec"@, "clusterIP"@))) + field(SVC_EXTERNAL_IP, Some(text));
        lemma_field_first(SVC_EXTERNAL_IP, text, field(SVC_TYPE, raw.str_of2("spec"@, "type"@)) + field(SVC_CLUSTER_IP, raw.str_of2("spec"@, "clusterIP"@)));
        lemma_field_kept(here, field(SVC_PORTS, listed(ports_of(raw))), (SVC_EXTERNAL_IP, text));
        assert(all == (here + field(SVC_PORTS, listed(ports_of(raw)))));
        assert(mid[2].label == "External IP"@);
        lemma_tells(""@, "v1"@, "Service"@, raw, 2, "External IP"@, SVC_EXTERNAL_IP, text);
    }
    if raw.array_of2("spec"@, "externalIPs"@) is None && raw.array_of3("status"@, "loadBalancer"@, "ingress"@) == Some(seq![x]) && x.str_of("ip"@) == Some(t) {
        let text = t;
        let here = (field(SVC_TYPE, raw.str_of2("spec"@, "type"@)) + field(SVC_CLUSTER_IP, raw.str_of2("spec"@, "clusterIP"@))) + field(SVC_EXTERNAL_IP, Some(text));
        lemma_field_first(SVC_EXTERNAL_IP, text, field(SVC_TYPE, raw.str_of2("spec"@, "type"@)) + field(SVC_CLUSTER_IP, raw.str_of2("spec"@, "clusterIP"@)));
        lemma_field_kept(here, field(SVC_PORTS, listed(ports_of(raw))), (SVC_EXTERNAL_IP, text));
        assert(all == (here + field(SVC_PORTS, listed(ports_of(raw)))));
        assert(mid[2].label == "External IP"@);
        lemma_tells(""@, "v1"@, "Service"@, raw, 2, "External IP"@, SVC_EXTERNAL_IP, text);
    }
    if raw.array_of2("spec"@, "externalIPs"@) is None && raw.array_of3("status"@, "loadBalancer"@, "ingress"@) == Some(seq![x]) && x.str_of("ip"@) is None && x.str_of("hostname"@) == Some(t) {
        let text = t;
        let here = (field(SVC_TYPE, raw.str_of2("spec"@, "type"@)) + field(SVC_CLUSTER_IP, raw.str_of2("spec"@, "clusterIP"@))) + field(SVC_EXTERNAL_IP, Some(text));
        lemma_field_first(SVC_EXTERNAL_IP, text, field(SVC_TYPE, raw.str_of2("spec"@, "type"@)) + field(SVC_CLUSTER_IP, raw.str_of2("spec"@, "clusterIP"@)));
        lemma_field_kept(here, field(SVC_PORTS, listed(ports_of(raw))), (SVC_EXTERNAL_IP, text));
        assert(all == (here + field(SVC_PORTS, listed(ports_of(raw)))));
        assert(mid[2].label == "External IP"@);
        lemma_tells(""@, "v1"@, "Service"@, raw, 2, "External IP"@, SVC_EXTERNAL_IP, text);
    }
    if raw.array_of2("spec"@, "ports"@) == Some(seq![x]) && x.str_of("name"@) == Some(t) {
        let text = t + ":"@ + dec(port as nat);
        let here = (field(SVC_TYPE, raw.str_of2("spec"@, "type"@)) + field(SVC_CLUSTER_IP, raw.str_of2("spec"@, "clusterIP"@)) + field(SVC_EXTERNAL_IP, listed(external_of(raw)))) + field(SVC_PORTS, Some(text));
        lemma_field_first(SVC_PORTS, text, field(SVC_TYPE, raw.str_of2("spec"@, "type"@)) + field(SVC_CLUSTER_IP, raw.str_of2("spec"@, "clusterIP"@)) + field(SVC_EXTERNAL_IP, listed(external_of(raw))));
        assert(all == here);
        assert(mid[3].label == "Ports"@);
        lemma_tells(""@, "v1"@, "Service"@, raw, 3, "Ports"@, SVC_PORTS, text);
    }
    if raw.array_of2("spec"@, "ports"@) == Some(seq![x]) && x.str_of("name"@) is None && x.str_of("protocol"@) == Some(t) {
        let text = dec(port as nat) + "/"@ + t;
        let here = (field(SVC_TYPE, raw.str_of2("spec"@, "type"@)) + field(SVC_CLUSTER_IP, raw.str_of2("spec"@, "clusterIP"@)) + field(SVC_EXTERNAL_IP, listed(external_of(raw)))) + field(SVC_PORTS, Some(text));
        lemma_field_first(SVC_PORTS, text, field(SVC_TYPE, raw.str_of2("spec"@, "type"@)) + field(SVC_CLUSTER_IP, raw.str_of2("spec"@, "clusterIP"@)) + field(SVC_EXTERNAL_IP, listed(external_of(raw))));
        assert(all == here);
        assert(mid[3].label == "Ports"@);
        lemma_tells(""@, "v1"@, "Service"@, raw, 3, "Ports"@, SVC_PORTS, text);
    }
}

proof fn lemma_listed_one(t: Seq<char>)
    ensures
        listed(seq![t]) == Some(t),
{
    assert(seq![t].drop_last() =~= Seq::empty());
    assert(join(seq![t], ","@) =~= t);
}

proof fn lemma_collect_one(x: JsonView, t: Seq<char>, f: spec_fn(JsonView) -> Option<Seq<char>>)
    requires
        f(x) == Some(t),
    ensures
        collect(seq![x], f) == seq![t],
{
    let none = seq![x].drop_last();
    assert(none =~= Seq::empty());
    assert(collect(none, f) =~= Seq::empty());
    assert(seq![x].last() == x);
    assert(Seq::<Seq<char>>::empty().push(t) =~= seq![t]);
}

proof fn lemma_single(x: JsonView, t: Seq<char>)
    ensures
        x.text() == Some(t) ==> collect(seq![x], |v: JsonView| v.text()) == seq![t],
        collect(Seq::empty(), |v: JsonView| v.text()) == Seq::<Seq<char>>::empty(),
        listed(seq![t]) == Some(t),
{
    if x.text() == Some(t) {
        lemma_collect_one(x, t, |v: JsonView| v.text());
    }
    lemma_listed_one(t);
}

proof fn lemma_single_address(x: JsonView, t: Seq<char>)
    ensures
        ingress_address(x) == Some(t) ==> collect(seq![x], |v: JsonView| ingress_address(v)) == seq![t],
{
    if ingress_address(x) == Some(t) {
        lemma_collect_one(x, t, |v: JsonView| ingress_address(v));
    }
}

proof fn lemma_single_port(x: JsonView)
    ensures
        first_n(seq![x], 4).map_values(|p: JsonView| port_label(p)) == seq![port_label(x)],
        listed(seq![port_label(x)]) == Some(port_label(x)),
{
    assert(first_n(seq![x], 4).map_values(|p: JsonView| port_label(p)) =~= seq![port_label(x)]);
    lemma_listed_one(port_label(x));
}

/// Of the ports of a service the first four are told, each by itself.
pub proof fn law_service_ports(ps: Seq<JsonView>, i: int)
    requires
        0 <= i < ps.len(),
    ensures
        first_n(ps, 4).len() <= 4,
        i < 4 ==> first_n(ps, 4)[i] == ps[i],
        ps.len() <= 4 ==> first_n(ps, 4).len() == ps.len(),
{
}

spec fn secured(raw: JsonView) -> Option<Seq<char>> {
    match raw.array_of2("spec"@, "tls"@) {
        Some(tls) => Some(
            if tls.len() > 0 {
                "Y"@
            } else {
                "N"@
            },
        ),
        None => None,
    }
}

/// An ingress tells its class, its host, the address of its load balancer, and whether it has
/// certificates.
pub proof fn law_ingress_columns(raw: JsonView, t: Seq<char>, x: JsonView, certs: Seq<JsonView>)
    ensures
        raw.str_of2("spec"@, "ingressClassName"@) == Some(t) ==> tells("networking.k8s.io"@, "v1"@, "Ingress"@, raw, "Class"@, t),
        raw.array_of2("spec"@, "rules"@) == Some(seq![x]) && x.str_of("host"@) == Some(t) ==> tells("networking.k8s.io"@, "v1"@, "Ingress"@, raw, "Hosts"@, t),
        raw.array_of3("status"@, "loadBalancer"@, "ingress"@) == Some(seq![x]) && x.str_of("ip"@) == Some(t) ==> tells("networking.k8s.io"@, "v1"@, "Ingress"@, raw, "Address"@, t),
        raw.array_of2("spec"@, "tls"@) == Some(certs) && certs.len() > 0 ==> tells("networking.k8s.io"@, "v1"@, "Ingress"@, raw, "TLS"@, "Y"@),
        raw.array_of2("spec"@, "tls"@) == Some(certs) && certs.len() == 0 ==> tells("networking.k8s.io"@, "v1"@, "Ingress"@, raw, "TLS"@, "N"@),
{
    lemma_keys();
    lemma_kind_words();
    lemma_ingress_shown(raw);
    lemma_single_address(x, t);
    lemma_listed_one(t);
    if x.str_of("host"@) == Some(t) {
        lemma_collect_one(x, t, |v: JsonView| v.str_of("host"@));
    }
    let all = builtin_fields("networking.k8s.io/v1/Ingress"@, raw);
    let mid = middle_columns("networking.k8s.io"@, "v1"@, "Ingress"@);
    if raw.str_of2("spec"@, "ingressClassName"@) == Some(t) {
        let text = t;
        let here = field(ING_CLASS, Some(text));
        lemma_field_first(ING_CLASS, text, Seq::<(u32, Seq<char>)>::empty());
        lemma_field_kept(here, field(ING_HOSTS, listed(collect(elements(raw.array_of2("spec"@, "rules"@)), |v: JsonView| v.str_of("host"@)))), (ING_CLASS, text));
        lemma_field_kept((here + field(ING_HOSTS, listed(collect(elements(raw.array_of2("spec"@, "rules"@)), |v: JsonView| v.str_of("host"@))))), field(ING_ADDRESS, listed(collect(elements(raw.array_of3("status"@, "loadBalancer"@, "ingress"@)), |v: JsonView| ingress_address(v)))), (ING_CLASS, text));
        lemma_field_kept(((here + field(ING_HOSTS, listed(collect(elements(raw.array_of2("spec"@, "rules"@)), |v: JsonView| v.str_of("host"@))))) + field(ING_ADDRESS, listed(collect(elements(raw.array_of3("status"@, "loadBalancer"@, "ingress"@)), |v: JsonView| ingress_address(v))))), field(ING_TLS, secured(raw)), (ING_CLASS, text));
        assert(all == (((here + field(ING_HOSTS, listed(collect(elements(raw.array_of2("spec"@, "rules"@)), |v: JsonView| v.str_of("host"@))))) + field(ING_ADDRESS, listed(collect(elements(raw.array_of3("status"@, "loadBalancer"@, "ingress"@)), |v: JsonView| ingress_address(v))))) + field(ING_TLS, secured(raw))));
        assert(mid[0].label == "Class"@);
        lemma_tells("networking.k8s.io"@, "v1"@, "Ingress"@, raw, 0, "Class"@, ING_CLASS, text);
    }
    if raw.array_of2("spec"@, "rules"@) == Some(seq![x]) && x.str_of("host"@) == Some(t) {
        let text = t;
        let here = (field(ING_CLASS, raw.str_of2("spec"@, "ingressClassName"@))) + field(ING_HOSTS, Some(text));
        lemma_field_first(ING_HOSTS, text, field(ING_CLASS, raw.str_of2("spec"@, "ingressClassName"@)));
        lemma_field_kept(here, field(ING_ADDRESS, listed(collect(elements(raw.array_of3("status"@, "loadBalancer"@, "ingress"@)), |v: JsonView| ingress_address(v)))), (ING_HOSTS, text));
        lemma_field_kept((here + field(ING_ADDRESS, listed(collect(elements(raw.array_of3("status"@, "loadBalancer"@, "ingress"@)), |v: JsonView| ingress_address(v))))), field(ING_TLS, secured(raw)), (ING_HOSTS, text));
        assert(all == ((here + field(ING_ADDRESS, listed(collect(elements(raw.array_of3("status"@, "loadBalancer"@, "ingress"@)), |v: JsonView| ingress_address(v))))) + field(ING_TLS, secured(raw))));
        assert(mid[1].label == "Hosts"@);
        lemma_tells("networking.k8s.io"@, "v1"@, "Ingress"@, raw, 1, "Hosts"@, ING_HOSTS, text);
    }
    if raw.array_of3("status"@, "loadBalancer"@, "ingress"@) == Some(seq![x]) && x.str_of("ip"@) == Some(t) {
        let text = t;
        let here = (field(ING_CLASS, raw.str_of2("spec"@, "ingressClassName"@)) + field(ING_HOSTS, listed(collect(elements(raw.array_of2("spec"@, "rules"@)), |v: JsonView| v.str_of("host"@))))) + field(ING_ADDRESS, Some(text));
        lemma_field_first(ING_ADDRESS, text, field(ING_CLASS, raw.str_of2("spec"@, "ingressClassName"@)) + field(ING_HOSTS, listed(collect(elements(raw.array_of2("spec"@, "rules"@)), |v: JsonView| v.str_of("host"@)))));
        lemma_field_kept(here, field(ING_TLS, secured(raw)), (ING_ADDRESS, text));
        assert(all == (here + field(ING_TLS, secured(raw))));
        assert(mid[2].label == "Address"@);
        lemma_tells("networking.k8s.io"@, "v1"@, "Ingress"@, raw, 2, "Address"@, ING_ADDRESS, text);
    }
    if raw.array_of2("spec"@, "tls"@) == Some(certs) && certs.len() > 0 {
        let text = "Y"@;
        let here = (field(ING_CLASS, raw.str_of2("spec"@, "ingressClassName"@)) + field(ING_HOSTS, listed(collect(elements(raw.array_of2("spec"@, "rules"@)), |v: JsonView| v.str_of("host"@)))) + field(ING_ADDRESS, listed(collect(elements(raw.array_of3("status"@, "loadBalancer"@, "ingress"@)), |v: JsonView| ingress_address(v))))) + field(ING_TLS, Some(text));
        lemma_field_first(ING_TLS, text, field(ING_CLASS, raw.str_of2("spec"@, "ingressClassName"@)) + field(ING_HOSTS, listed(collect(elements(raw.array_of2("spec"@, "rules"@)), |v: JsonView| v.str_of("host"@)))) + field(ING_ADDRESS, listed(collect(elements(raw.array_of3("status"@, "loadBalancer"@, "ingress"@)), |v: JsonView| ingress_address(v)))));
        assert(all == here);
        assert(mid[3].label == "TLS"@);
        lemma_tells("networking.k8s.io"@, "v1"@, "Ingress"@, raw, 3, "TLS"@, ING_TLS, text);
    }
    if raw.array_of2("spec"@, "tls"@) == Some(certs) && certs.len() == 0 {
        let text = "N"@;
        let here = (field(ING_CLASS, raw.str_of2("spec"@, "ingressClassName"@)) + field(ING_HOSTS, listed(collect(elements(raw.array_of2("spec"@, "rules"@)), |v: JsonView| v.str_of("host"@)))) + field(ING_ADDRESS, listed(collect(elements(raw.array_of3("status"@, "loadBalancer"@, "ingress"@)), |v: JsonView| ingress_address(v))))) + field(ING_TLS, Some(text));
        lemma_field_first(ING_TLS, text, field(ING_CLASS, raw.str_of2("spec"@, "ingressClassName"@)) + field(ING_HOSTS, listed(collect(elements(raw.array_of2("spec"@, "rules"@)), |v: JsonView| v.str_of("host"@)))) + field(ING_ADDRESS, listed(collect(elements(raw.array_of3("status"@, "loadBalancer"@, "ingress"@)), |v: JsonView| ingress_address(v)))));
        assert(all == here);
        assert(mid[3].label == "TLS"@);
        lemma_tells("networking.k8s.io"@, "v1"@, "Ingress"@, raw, 3, "TLS"@, ING_TLS, text);
    }
}

/// A job tells how often it succeeded and how often it is to, once where it does not say. It is
/// complete where the condition of that type holds, else failed where that one does, else
/// active where pods of it run.
pub proof fn law_job_columns(raw: JsonView, cs: Seq<JsonView>, done: u64, wanted: u64, i: int, active: u64)
    requires
        raw.array_of2("status"@, "conditions"@) == Some(cs),
        raw.nat_of2("status"@, "succeeded"@) == Some(done),
        raw.nat_of2("status"@, "active"@) == Some(active),
    ensures
        raw.nat_of2("spec"@, "completions"@) == Some(wanted) ==> tells("batch"@, "v1"@, "Job"@, raw, "Completions"@, dec(done as nat) + "/"@ + dec(wanted as nat)),
        raw.nat_of2("spec"@, "completions"@) is None ==> tells("batch"@, "v1"@, "Job"@, raw, "Completions"@, dec(done as nat) + "/"@ + dec(1)),
        0 <= i < cs.len() && cs[i].str_of("type"@) == Some("Complete"@) && cs[i].str_of("status"@) == Some("True"@) ==> tells("batch"@, "v1"@, "Job"@, raw, "Status"@, "Complete"@),
        (0 <= i < cs.len() && cs[i].str_of("type"@) == Some("Failed"@) && cs[i].str_of("status"@) == Some("True"@) && forall|k: int| 0 <= k < cs.len() ==> (#[trigger] cs[k]).str_of("type"@) != Some("Complete"@)) ==> tells("batch"@, "v1"@, "Job"@, raw, "Status"@, "Failed"@),
        (active > 0 && forall|k: int| 0 <= k < cs.len() ==> (#[trigger] cs[k]).str_of("status"@) != Some("True"@)) ==> tells("batch"@, "v1"@, "Job"@, raw, "Status"@, "Active ("@ + dec(active as nat) + ")"@),
        (active == 0 && forall|k: int| 0 <= k < cs.len() ==> (#[trigger] cs[k]).str_of("status"@) != Some("True"@)) ==> tells("batch"@, "v1"@, "Job"@, raw, "Status"@, "-"@),
{
    lemma_keys();
    lemma_kind_words();
    lemma_job_shown(raw);
    if 0 <= i < cs.len() && condition_holds(cs[i], "Complete"@) {
        assert(some_condition(cs, "Complete"@));
    }
    if 0 <= i < cs.len() && condition_holds(cs[i], "Failed"@) {
        assert(some_condition(cs, "Failed"@));
    }
    let all = builtin_fields("batch/v1/Job"@, raw);
    let mid = middle_columns("batch"@, "v1"@, "Job"@);
    if raw.nat_of2("spec"@, "completions"@) == Some(wanted) {
        let text = dec(done as nat) + "/"@ + dec(wanted as nat);
        let here = field(JOB_COMPLETIONS, Some(text));
        lemma_field_first(JOB_COMPLETIONS, text, Seq::<(u32, Seq<char>)>::empty());
        lemma_field_kept(here, field(JOB_STATUS, Some(job_status(raw))), (JOB_COMPLETIONS, text));
        assert(all == (here + field(JOB_STATUS, Some(job_status(raw)))));
        assert(mid[0].label == "Completions"@);
        lemma_tells("batch"@, "v1"@, "Job"@, raw, 0, "Completions"@, JOB_COMPLETIONS, text);
    }
    if raw.nat_of2("spec"@, "completions"@) is None {
        let text = dec(done as nat) + "/"@ + dec(1);
        let here = field(JOB_COMPLETIONS, Some(text));
        lemma_field_first(JOB_COMPLETIONS, text, Seq::<(u32, Seq<char>)>::empty());
        lemma_field_kept(here, field(JOB_STATUS, Some(job_status(raw))), (JOB_COMPLETIONS, text));
        assert(all == (here + field(JOB_STATUS, Some(job_status(raw)))));
        assert(mid[0].label == "Completions"@);
        lemma_tells("batch"@, "v1"@, "Job"@, raw, 0, "Completions"@, JOB_COMPLETIONS, text);
    }
    if 0 <= i < cs.len() && cs[i].str_of("type"@) == Some("Complete"@) && cs[i].str_of("status"@) == Some("True"@) {
        let text = "Complete"@;
        let here = (field(JOB_COMPLETIONS, Some(dec(status_count(raw, "succeeded"@)) + "/"@ + dec(nat_or(raw.nat_of2("spec"@, "completions"@), 1))))) + field(JOB_STATUS, Some(text));
        lemma_field_first(JOB_STATUS, text, field(JOB_COMPLETIONS, Some(dec(status_count(raw, "succeeded"@)) + "/"@ + dec(nat_or(raw.nat_of2("spec"@, "completions"@), 1)))));
        assert(all == here);
        assert(mid[1].label == "Status"@);
        lemma_tells("batch"@, "v1"@, "Job"@, raw, 1, "Status"@, JOB_STATUS, text);
    }
    if (0 <= i < cs.len() && cs[i].str_of("type"@) == Some("Failed"@) && cs[i].str_of("status"@) == Some("True"@) && forall|k: int| 0 <= k < cs.len() ==> (#[trigger] cs[k]).str_of("type"@) != Some("Complete"@)) {
        let text = "Failed"@;
        let here = (field(JOB_COMPLETIONS, Some(dec(status_count(raw, "succeeded"@)) + "/"@ + dec(nat_or(raw.nat_of2("spec"@, "completions"@), 1))))) + field(JOB_STATUS, Some(text));
        lemma_field_first(JOB_STATUS, text, field(JOB_COMPLETIONS, Some(dec(status_count(raw, "succeeded"@)) + "/"@ + dec(nat_or(raw.nat_of2("spec"@, "completions"@), 1)))));
        assert(all == here);
        assert(mid[1].label == "Status"@);
        lemma_tells("batch"@, "v1"@, "Job"@, raw, 1, "Status"@, JOB_STATUS, text);
    }
    if (active > 0 && forall|k: int| 0 <= k < cs.len() ==> (#[trigger] cs[k]).str_of("status"@) != Some("True"@)) {
        let text = "Active ("@ + dec(active as nat) + ")"@;
        let here = (field(JOB_COMPLETIONS, Some(dec(status_count(raw, "succeeded"@)) + "/"@ + dec(nat_or(raw.nat_of2("spec"@, "completions"@), 1))))) + field(JOB_STATUS, Some(text));
        lemma_field_first(JOB_STATUS, text, field(JOB_COMPLETIONS, Some(dec(status_count(raw, "succeeded"@)) + "/"@ + dec(nat_or(raw.nat_of2("spec"@, "completions"@), 1)))));
        assert(all == here);
        assert(mid[1].label == "Status"@);
        lemma_tells("batch"@, "v1"@, "Job"@, raw, 1, "Status"@, JOB_STATUS, text);
    }
    if (active == 0 && forall|k: int| 0 <= k < cs.len() ==> (#[trigger] cs[k]).str_of("status"@) != Some("True"@)) {
        let text = "-"@;
        let here = (field(JOB_COMPLETIONS, Some(dec(status_count(raw, "succeeded"@)) + "/"@ + dec(nat_or(raw.nat_of2("spec"@, "completions"@), 1))))) + field(JOB_STATUS, Some(text));
        lemma_field_first(JOB_STATUS, text, field(JOB_COMPLETIONS, Some(dec(status_count(raw, "succeeded"@)) + "/"@ + dec(nat_or(raw.nat_of2("spec"@, "completions"@), 1)))));
        assert(all == here);
        assert(mid[1].label == "Status"@);
        lemma_tells("batch"@, "v1"@, "Job"@, raw, 1, "Status"@, JOB_STATUS, text);
    }
}

spec fn suspended(raw: JsonView) -> Option<Seq<char>> {
    match raw.get2("spec"@, "suspend"@) {
        Some(JsonView::Bool(b)) => Some(
            if b {
                "True"@
            } else {
                "False"@
            },
        ),
        _ => None,
    }
}

/// A cron job tells its schedule, whether it is suspended, how many jobs of it run, and when it
/// ran last.
pub proof fn law_cronjob_columns(raw: JsonView, t: Seq<char>, jobs: Seq<JsonView>)
    requires
        raw.array_of2("status"@, "active"@) == Some(jobs),
    ensures
        raw.str_of2("spec"@, "schedule"@) == Some(t) ==> tells("batch"@, "v1"@, "CronJob"@, raw, "Schedule"@, t),
        raw.get2("spec"@, "suspend"@) == Some(JsonView::Bool(true)) ==> tells("batch"@, "v1"@, "CronJob"@, raw, "Suspend"@, "True"@),
        raw.get2("spec"@, "suspend"@) == Some(JsonView::Bool(false)) ==> tells("batch"@, "v1"@, "CronJob"@, raw, "Suspend"@, "False"@),
        tells("batch"@, "v1"@, "CronJob"@, raw, "Active"@, dec(jobs.len())),
        raw.str_of2("status"@, "lastScheduleTime"@) == Some(t) ==> tells("batch"@, "v1"@, "CronJob"@, raw, "Last Schedule"@, t),
{
    lemma_keys();
    lemma_kind_words();
    lemma_cronjob_shown(raw);
    let all = builtin_fields("batch/v1/CronJob"@, raw);
    let mid = middle_columns("batch"@, "v1"@, "CronJob"@);
    if raw.str_of2("spec"@, "schedule"@) == Some(t) {
        let text = t;
        let here = field(CJ_SCHEDULE, Some(text));
        lemma_field_first(CJ_SCHEDULE, text, Seq::<(u32, Seq<char>)>::empty());
        lemma_field_kept(here, field(CJ_SUSPEND, suspended(raw)), (CJ_SCHEDULE, text));
        lemma_field_kept((here + field(CJ_SUSPEND, suspended(raw))), field(CJ_ACTIVE, Some(dec(elements(raw.array_of2("status"@, "active"@)).len()))), (CJ_SCHEDULE, text));
        lemma_field_kept(((here + field(CJ_SUSPEND, suspended(raw))) + field(CJ_ACTIVE, Some(dec(elements(raw.array_of2("status"@, "active"@)).len())))), field(CJ_LAST_SCHEDULE, raw.str_of2("status"@, "lastScheduleTime"@)), (CJ_SCHEDULE, text));
        assert(all == (((here + field(CJ_SUSPEND, suspended(raw))) + field(CJ_ACTIVE, Some(dec(elements(raw.array_of2("status"@, "active"@)).len())))) + field(CJ_LAST_SCHEDULE, raw.str_of2("status"@, "lastScheduleTime"@))));
        assert(mid[0].label == "Schedule"@);
        lemma_tells("batch"@, "v1"@, "CronJob"@, raw, 0, "Schedule"@, CJ_SCHEDULE, text);
    }
    if raw.get2("spec"@, "suspend"@) == Some(JsonView::Bool(true)) {
        let text = "True"@;
        let here = (field(CJ_SCHEDULE, raw.str_of2("spec"@, "schedule"@))) + field(CJ_SUSPEND, Some(text));
        lemma_field_first(CJ_SUSPEND, text, field(CJ_SCHEDULE, raw.str_of2("spec"@, "schedule"@)));
        lemma_field_kept(here, field(CJ_ACTIVE, Some(dec(elements(raw.array_of2("status"@, "active"@)).len()))), (CJ_SUSPEND, text));
        lemma_field_kept((here + field(CJ_ACTIVE, Some(dec(elements(raw.array_of2("status"@, "active"@)).len())))), field(CJ_LAST_SCHEDULE, raw.str_of2("status"@, "lastScheduleTime"@)), (CJ_SUSPEND, text));
        assert(all == ((here + field(CJ_ACTIVE, Some(dec(elements(raw.array_of2("status"@, "active"@)).len())))) + field(CJ_LAST_SCHEDULE, raw.str_of2("status"@, "lastScheduleTime"@))));
        assert(mid[1].label == "Suspend"@);
        lemma_tells("batch"@, "v1"@, "CronJob"@, raw, 1, "Suspend"@, CJ_SUSPEND, text);
    }
    if raw.get2("spec"@, "suspend"@) == Some(JsonView::Bool(false)) {
        let text = "False"@;
        let here = (field(CJ_SCHEDULE, raw.str_of2("spec"@, "schedule"@))) + field(CJ_SUSPEND, Some(text));
        lemma_field_first(CJ_SUSPEND, text, field(CJ_SCHEDULE, raw.str_of2("spec"@, "schedule"@)));
        lemma_field_kept(here, field(CJ_ACTIVE, Some(dec(elements(raw.array_of2("status"@, "active"@)).len()))), (CJ_SUSPEND, text));
        lemma_field_kept((here + field(CJ_ACTIVE, Some(dec(elements(raw.array_of2("status"@, "active"@)).len())))), field(CJ_LAST_SCHEDULE, raw.str_of2("status"@, "lastScheduleTime"@)), (CJ_SUSPEND, text));
        assert(all == ((here + field(CJ_ACTIVE, Some(dec(elements(raw.array_of2("status"@, "active"@)).len())))) + field(CJ_LAST_SCHEDULE, raw.str_of2("status"@, "lastScheduleTime"@))));
        assert(mid[1].label == "Suspend"@);
        lemma_tells("batch"@, "v1"@, "CronJob"@, raw, 1, "Suspend"@, CJ_SUSPEND, text);
    }
    let text = dec(jobs.len());
    let here = (field(CJ_SCHEDULE, raw.str_of2("spec"@, "schedule"@)) + field(CJ_SUSPEND, suspended(raw))) + field(CJ_ACTIVE, Some(text));
    lemma_field_first(CJ_ACTIVE, text, field(CJ_SCHEDULE, raw.str_of2("spec"@, "schedule"@)) + field(CJ_SUSPEND, suspended(raw)));
    lemma_field_kept(here, field(CJ_LAST_SCHEDULE, raw.str_of2("status"@, "lastScheduleTime"@)), (CJ_ACTIVE, text));
    assert(all == (here + field(CJ_LAST_SCHEDULE, raw.str_of2("status"@, "lastScheduleTime"@))));
    assert(mid[2].label == "Active"@);
    lemma_tells("batch"@, "v1"@, "CronJob"@, raw, 2, "Active"@, CJ_ACTIVE, text);
    if raw.str_of2("status"@, "lastScheduleTime"@) == Some(t) {
        let text = t;
        let here = (field(CJ_SCHEDULE, raw.str_of2("spec"@, "schedule"@)) + field(CJ_SUSPEND, suspended(raw)) + field(CJ_ACTIVE, Some(dec(elements(raw.array_of2("status"@, "active"@)).len())))) + field(CJ_LAST_SCHEDULE, Some(text));
        lemma_field_first(CJ_LAST_SCHEDULE, text, field(CJ_SCHEDULE, raw.str_of2("spec"@, "schedule"@)) + field(CJ_SUSPEND, suspended(raw)) + field(CJ_ACTIVE, Some(dec(elements(raw.array_of2("status"@, "active"@)).len()))));
        assert(all == here);
        assert(mid[3].label == "Last Schedule"@);
        lemma_tells("batch"@, "v1"@, "CronJob"@, raw, 3, "Last Schedule"@, CJ_LAST_SCHEDULE, text);
    }
}

/// A claim of a volume tells its phase, its volume, how much it holds, how it may be used, and
/// its class.
pub proof fn law_claim_columns(raw: JsonView, t: Seq<char>)
    ensures
        raw.str_of2("status"@, "phase"@) == Some(t) ==> tells(""@, "v1"@, "PersistentVolumeClaim"@, raw, "Status"@, t),
        raw.str_of2("spec"@, "volumeName"@) == Some(t) ==> tells(""@, "v1"@, "PersistentVolumeClaim"@, raw, "Volume"@, t),
        raw.str_of3("status"@, "capacity"@, "storage"@) == Some(t) ==> tells(""@, "v1"@, "PersistentVolumeClaim"@, raw, "Capacity"@, t),
        raw.array_of2("spec"@, "accessModes"@) == Some(seq![JsonView::Str(t)]) ==> tells(""@, "v1"@, "PersistentVolumeClaim"@, raw, "Access Modes"@, t),
        raw.str_of2("spec"@, "storageClassName"@) == Some(t) ==> tells(""@, "v1"@, "PersistentVolumeClaim"@, raw, "StorageClass"@, t),
{
    lemma_keys();
    lemma_kind_words();
    lemma_pvc_shown(raw);
    lemma_single(JsonView::Str(t), t);
    let all = builtin_fields("v1/PersistentVolumeClaim"@, raw);
    let mid = middle_columns(""@, "v1"@, "PersistentVolumeClaim"@);
    if raw.str_of2("status"@, "phase"@) == Some(t) {
        let text = t;
        let here = field(PVC_STATUS, Some(text));
        lemma_field_first(PVC_STATUS, text, Seq::<(u32, Seq<char>)>::empty());
        lemma_field_kept(here, field(PVC_VOLUME, raw.str_of2("spec"@, "volumeName"@)), (PVC_STATUS, text));
        lemma_field_kept((here + field(PVC_VOLUME, raw.str_of2("spec"@, "volumeName"@))), field(PVC_CAPACITY, raw.str_of3("status"@, "capacity"@, "storage"@)), (PVC_STATUS, text));
        lemma_field_kept(((here + field(PVC_VOLUME, raw.str_of2("spec"@, "volumeName"@))) + field(PVC_CAPACITY, raw.str_of3("status"@, "capacity"@, "storage"@))), field(PVC_ACCESS_MODES, listed(collect(elements(raw.array_of2("spec"@, "accessModes"@)), |v: JsonView| v.text()))), (PVC_STATUS, text));
        lemma_field_kept((((here + field(PVC_VOLUME, raw.str_of2("spec"@, "volumeName"@))) + field(PVC_CAPACITY, raw.str_of3("status"@, "capacity"@, "storage"@))) + field(PVC_ACCESS_MODES, listed(collect(elements(raw.array_of2("spec"@, "accessModes"@)), |v: JsonView| v.text())))), field(PVC_STORAGECLASS, raw.str_of2("spec"@, "storageClassName"@)), (PVC_STATUS, text));
        assert(all == ((((here + field(PVC_VOLUME, raw.str_of2("spec"@, "volumeName"@))) + field(PVC_CAPACITY, raw.str_of3("status"@, "capacity"@, "storage"@))) + field(PVC_ACCESS_MODES, listed(collect(elements(raw.array_of2("spec"@, "accessModes"@)), |v: JsonView| v.text())))) + field(PVC_STORAGECLASS, raw.str_of2("spec"@, "storageClassName"@))));
        assert(mid[0].label == "Status"@);
        lemma_tells(""@, "v1"@, "PersistentVolumeClaim"@, raw, 0, "Status"@, PVC_STATUS, text);
    }
    if raw.str_of2("spec"@, "volumeName"@) == Some(t) {
        let text = t;
        let here = (field(PVC_STATUS, raw.str_of2("status"@, "phase"@))) + field(PVC_VOLUME, Some(text));
        lemma_field_first(PVC_VOLUME, text, field(PVC_STATUS, raw.str_of2("status"@, "phase"@)));
        lemma_field_kept(here, field(PVC_CAPACITY, raw.str_of3("status"@, "capacity"@, "storage"@)), (PVC_VOLUME, text));
        lemma_field_kept((here + field(PVC_CAPACITY, raw.str_of3("status"@, "capacity"@, "storage"@))), field(PVC_ACCESS_MODES, listed(collect(elements(raw.array_of2("spec"@, "accessModes"@)), |v: JsonView| v.text()))), (PVC_VOLUME, text));
        lemma_field_kept(((here + field(PVC_CAPACITY, raw.str_of3("status"@, "capacity"@, "storage"@))) + field(PVC_ACCESS_MODES, listed(collect(elements(raw.array_of2("spec"@, "accessModes"@)), |v: JsonView| v.text())))), field(PVC_STORAGECLASS, raw.str_of2("spec"@, "storageClassName"@)), (PVC_VOLUME, text));
        assert(all == (((here + field(PVC_CAPACITY, raw.str_of3("status"@, "capacity"@, "storage"@))) + field(PVC_ACCESS_MODES, listed(collect(elements(raw.array_of2("spec"@, "accessModes"@)), |v: JsonView| v.text())))) + field(PVC_STORAGECLASS, raw.str_of2("spec"@, "storageClassName"@))));
        assert(mid[1].label == "Volume"@);
        lemma_tells(""@, "v1"@, "PersistentVolumeClaim"@, raw, 1, "Volume"@, PVC_VOLUME, text);
    }
    if raw.str_of3("status"@, "capacity"@, "storage"@) == Some(t) {
        let text = t;
        let here = (field(PVC_STATUS, raw.str_of2("status"@, "phase"@)) + field(PVC_VOLUME, raw.str_of2("spec"@, "volumeName"@))) + field(PVC_CAPACITY, Some(text));
        lemma_field_first(PVC_CAPACITY, text, field(PVC_STATUS, raw.str_of2("status"@, "phase"@)) + field(PVC_VOLUME, raw.str_of2("spec"@, "volumeName"@)));
        lemma_field_kept(here, field(PVC_ACCESS_MODES, listed(collect(elements(raw.array_of2("spec"@, "accessModes"@)), |v: JsonView| v.text()))), (PVC_CAPACITY, text));
        lemma_field_kept((here + field(PVC_ACCESS_MODES, listed(collect(elements(raw.array_of2("spec"@, "accessModes"@)), |v: JsonView| v.text())))), field(PVC_STORAGECLASS, raw.str_of2("spec"@, "storageClassName"@)), (PVC_CAPACITY, text));
        assert(all == ((here + field(PVC_ACCESS_MODES, listed(collect(elements(raw.array_of2("spec"@, "accessModes"@)), |v: JsonView| v.text())))) + field(PVC_STORAGECLASS, raw.str_of2("spec"@, "storageClassName"@))));
        assert(mid[2].label == "Capacity"@);
        lemma_tells(""@, "v1"@, "PersistentVolumeClaim"@, raw, 2, "Capacity"@, PVC_CAPACITY, text);
    }
    if raw.array_of2("spec"@, "accessModes"@) == Some(seq![JsonView::Str(t)]) {
        let text = t;
        let here = (field(PVC_STATUS, raw.str_of2("status"@, "phase"@)) + field(PVC_VOLUME, raw.str_of2("spec"@, "volumeName"@)) + field(PVC_CAPACITY, raw.str_of3("status"@, "capacity"@, "storage"@))) + field(PVC_ACCESS_MODES, Some(text));
        lemma_field_first(PVC_ACCESS_MODES, text, field(PVC_STATUS, raw.str_of2("status"@, "phase"@)) + field(PVC_VOLUME, raw.str_of2("spec"@, "volumeName"@)) + field(PVC_CAPACITY, raw.str_of3("status"@, "capacity"@, "storage"@)));
        lemma_field_kept(here, field(PVC_STORAGECLASS, raw.str_of2("spec"@, "storageClassName"@)), (PVC_ACCESS_MODES, text));
        assert(all == (here + field(PVC_STORAGECLASS, raw.str_of2("spec"@, "storageClassName"@))));
        assert(mid[3].label == "Access Modes"@);
        lemma_tells(""@, "v1"@, "PersistentVolumeClaim"@, raw, 3, "Access Modes"@, PVC_ACCESS_MODES, text);
    }
    if raw.str_of2("spec"@, "storageClassName"@) == Some(t) {
        let text = t;
        let here = (field(PVC_STATUS, raw.str_of2("status"@, "phase"@)) + field(PVC_VOLUME, raw.str_of2("spec"@, "volumeName"@)) + field(PVC_CAPACITY, raw.str_of3("status"@, "capacity"@, "storage"@)) + field(PVC_ACCESS_MODES, listed(collect(elements(raw.array_of2("spec"@, "accessModes"@)), |v: JsonView| v.text())))) + field(PVC_STORAGECLASS, Some(text));
        lemma_field_first(PVC_STORAGECLASS, text, field(PVC_STATUS, raw.str_of2("status"@, "phase"@)) + field(PVC_VOLUME, raw.str_of2("spec"@, "volumeName"@)) + field(PVC_CAPACITY, raw.str_of3("status"@, "capacity"@, "storage"@)) + field(PVC_ACCESS_MODES, listed(collect(elements(raw.array_of2("spec"@, "accessModes"@)), |v: JsonView| v.text()))));
        assert(all == here);
        assert(mid[4].label == "StorageClass"@);
        lemma_tells(""@, "v1"@, "PersistentVolumeClaim"@, raw, 4, "StorageClass"@, PVC_STORAGECLASS, text);
    }
}

/// The status of a namespace is its phase.
pub proof fn law_namespace_columns(raw: JsonView, t: Seq<char>)
    requires
        raw.str_of2("status"@, "phase"@) == Some(t),
    ensures
        tells(""@, "v1"@, "Namespace"@, raw, "Status"@, t),
{
    lemma_keys();
    lemma_kind_words();
    lemma_namespace_shown(raw);
    let all = builtin_fields("v1/Namespace"@, raw);
    let mid = middle_columns(""@, "v1"@, "Namespace"@);
    let text = t;
    let here = field(NS_STATUS, Some(text));
    lemma_field_first(NS_STATUS, text, Seq::<(u32, Seq<char>)>::empty());
    assert(all == here);
    assert(mid[0].label == "Status"@);
    lemma_tells(""@, "v1"@, "Namespace"@, raw, 0, "Status"@, NS_STATUS, text);
}

/// The roles of a node are those that its labels name, behind the mark of a role; a node without
/// such labels has the role of the older label, or none.
pub proof fn law_node_roles(raw: JsonView, labels: Seq<(Seq<char>, JsonView)>, i: int, role: Seq<char>)
    requires
        raw.object_of2("metadata"@, "labels"@) == Some(labels),
    ensures
        0 <= i < labels.len() && labels[i].0 == "node-role.kubernetes.io/"@ + role && role.len() > 0 && !starts(
            role,
            "node-role.kubernetes.io/"@,
        ) ==> node_roles(raw).contains(role),
        (forall|k: int|
            0 <= k < labels.len() ==> !starts((#[trigger] labels[k]).0, "node-role.kubernetes.io/"@)) && crate::json::lookup(
            labels,
            "kubernetes.io/role"@,
        ) == Some(JsonView::Str(role)) ==> node_roles(raw) == seq![role],
        (forall|k: int|
            0 <= k < labels.len() ==> !starts((#[trigger] labels[k]).0, "node-role.kubernetes.io/"@)) && crate::json::lookup(
            labels,
            "kubernetes.io/role"@,
        ) is None ==> node_roles(raw) == seq!["none"@],
{
    let p = "node-role.kubernetes.io/"@;
    if forall|k: int| 0 <= k < labels.len() ==> !starts((#[trigger] labels[k]).0, p) {
        lemma_no_roles(labels);
    }
    if 0 <= i < labels.len() && labels[i].0 == p + role && role.len() > 0 && !starts(role, p) {
        lemma_label_role(labels, i, role);
    }
}

proof fn lemma_no_roles(labels: Seq<(Seq<char>, JsonView)>)
    requires
        forall|k: int| 0 <= k < labels.len() ==> !starts((#[trigger] labels[k]).0, "node-role.kubernetes.io/"@),
    ensures
        label_roles(labels).len() == 0,
    decreases labels.len(),
{
    if labels.len() > 0 {
        let d = labels.drop_last();
        assert forall|k: int| 0 <= k < d.len() implies !starts((#[trigger] d[k]).0, "node-role.kubernetes.io/"@) by {
            assert(d[k] == labels[k]);
        }
        lemma_no_roles(d);
        assert(!starts(labels[labels.len() - 1].0, "node-role.kubernetes.io/"@));
    }
}

proof fn lemma_label_role(labels: Seq<(Seq<char>, JsonView)>, i: int, role: Seq<char>)
    requires
        0 <= i < labels.len(),
        labels[i].0 == "node-role.kubernetes.io/"@ + role,
        role.len() > 0,
        !starts(role, "node-role.kubernetes.io/"@),
    ensures
        label_roles(labels).contains(role),
    decreases labels.len(),
{
    reveal_strlit("node-role.kubernetes.io/");
    let p = "node-role.kubernetes.io/"@;
    let d = labels.drop_last();
    let rest = label_roles(d);
    let all = label_roles(labels);
    if i < d.len() {
        lemma_label_role(d, i, role);
        let k = choose|k: int| 0 <= k < rest.len() && rest[k] == role;
        assert(all[k] == role);
    } else {
        let key = p + role;
        assert(key.take(p.len() as int) =~= p);
        assert(key.skip(p.len() as int) =~= role);
        assert(strip_all(role, p) == role);
        assert(strip_all(key, p) == role);
        assert(all[all.len() - 1] == role);
    }
}

} // verus!
