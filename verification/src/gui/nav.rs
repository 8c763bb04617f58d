//! Navigation: the chosen kind, the curated kinds and the custom resources.
use crate::gui::model::{App, SelectionState};
use crate::gvk::{gvk_label, kind_text};
use crate::order::{codes, lemma_lex_irreflexive, text_less, text_lt};
use crate::text::{copy_text, same_text};
use crate::types::{KindView, ResourceKind};
use vstd::prelude::*;
use vstd::string::*;

verus! {

/// The models of a list of kinds.
pub open spec fn kind_views(v: Seq<ResourceKind>) -> Seq<KindView> {
    v.map_values(|k: ResourceKind| k@)
}

/// The chosen kind: the one chosen by name, else the one chosen by its place among the
/// discovered kinds.
pub open spec fn chosen_kind(sel: SelectionState, kinds: Seq<ResourceKind>) -> Option<KindView> {
    match sel.selected_kind {
        Some(k) => Some(k@),
        None => match sel.selected_idx {
            Some(i) => if i < kinds.len() {
                Some(kinds[i as int]@)
            } else {
                None
            },
            None => None,
        },
    }
}

/// The chosen kind.
pub open spec fn selected_kind(a: App) -> Option<KindView> {
    chosen_kind(a.selection, a.kinds@)
}

/// Whether a kind is the core kind of a given name.
pub open spec fn is_core_kind(k: KindView, name: Seq<char>) -> bool {
    k.group.len() == 0 && k.version == "v1"@ && k.kind == name
}

/// Whether a core kind of a given name is chosen.
pub open spec fn core_selected(a: App, name: Seq<char>) -> bool {
    selected_kind(a) matches Some(k) && is_core_kind(k, name)
}

/// Whether a kind is the core kind of a given name.
pub fn kind_is_core(k: &ResourceKind, name: &str) -> (r: bool)
    ensures
        r == is_core_kind(k@, name@),
{
    k.group.as_str().is_empty() && same_text(k.version.as_str(), "v1") && same_text(k.kind.as_str(), name)
}

impl App {
    /// The chosen kind.
    pub fn current_selected_kind(&self) -> (r: Option<&ResourceKind>)
        ensures
            match r {
                Some(k) => selected_kind(*self) == Some(k@),
                None => selected_kind(*self) is None,
            },
    {
        match &self.selection.selected_kind {
            Some(k) => Some(k),
            None => match self.selection.selected_idx {
                Some(i) => if i < self.kinds.len() {
                    Some(&self.kinds[i])
                } else {
                    None
                },
                None => None,
            },
        }
    }

    fn selected_is_core(&self, name: &str) -> (r: bool)
        ensures
            r == core_selected(*self, name@),
    {
        match self.current_selected_kind() {
            Some(k) => kind_is_core(k, name),
            None => false,
        }
    }

    /// Whether the chosen kind is that of pods.
    pub fn selected_is_pod(&self) -> (r: bool)
        ensures
            r == core_selected(*self, "Pod"@),
    {
        self.selected_is_core("Pod")
    }

    /// Whether the chosen kind is that of services.
    pub fn selected_is_service(&self) -> (r: bool)
        ensures
            r == core_selected(*self, "Service"@),
    {
        self.selected_is_core("Service")
    }

    /// Whether the chosen kind is that of nodes.
    pub fn selected_is_node(&self) -> (r: bool)
        ensures
            r == core_selected(*self, "Node"@),
    {
        self.selected_is_core("Node")
    }

    /// Whether the chosen kind is that of secrets.
    pub fn selected_is_secret(&self) -> (r: bool)
        ensures
            r == core_selected(*self, "Secret"@),
    {
        self.selected_is_core("Secret")
    }

    /// Choose a discovered kind by its place.
    pub fn on_select_idx(&mut self, idx: usize)
        ensures
            idx >= old(self).kinds@.len() ==> *final(self) == *old(self),
            idx < old(self).kinds@.len() ==> *final(self) == (App {
                selection: SelectionState {
                    selected_kind: Some(old(self).kinds@[idx as int]),
                    selected_idx: Some(idx),
                    ..old(self).selection
                },
                ..*old(self)
            }),
    {
        if idx < self.kinds.len() {
            let k = self.kinds[idx].clone();
            self.selection.selected_kind = Some(k);
            self.selection.selected_idx = Some(idx);
        }
    }

    /// Choose a kind by its name.
    pub fn on_select_gvk(&mut self, rk: ResourceKind)
        ensures
            *final(self) == (App {
                selection: SelectionState {
                    selected_kind: Some(rk),
                    selected_idx: None,
                    ..old(self).selection
                },
                ..*old(self)
            }),
            selected_kind(*final(self)) == Some(rk@),
    {
        self.selection.selected_kind = Some(rk);
        self.selection.selected_idx = None;
    }
}

// ---------------------------------------------------------------------------
// The tree of kinds

/// A section of the tree with kinds that every cluster has.
#[derive(Clone, Copy, Debug, PartialEq, Eq, Structural)]
pub enum Category {
    Workloads,
    Config,
    Network,
    Storage,
    AccessControl,
}

/// The title of a section.
pub open spec fn category_text(c: Category) -> Seq<char> {
    match c {
        Category::Workloads => "Workloads"@,
        Category::Config => "Config"@,
        Category::Network => "Network"@,
        Category::Storage => "Storage"@,
        Category::AccessControl => "Access Control"@,
    }
}

/// The title of a section.
pub fn category_title(c: Category) -> (r: &'static str)
    ensures
        r@ == category_text(c),
{
    match c {
        Category::Workloads => "Workloads",
        Category::Config => "Config",
        Category::Network => "Network",
        Category::Storage => "Storage",
        Category::AccessControl => "Access Control",
    }
}

/// A kind that every cluster has, and how it is called in the tree.
pub struct Curated {
    pub kind: ResourceKind,
    pub label: String,
}

/// The models of a list of entries: the kinds and their labels.
pub open spec fn curated_views(v: Seq<Curated>) -> Seq<(KindView, Seq<char>)> {
    v.map_values(|c: Curated| (c.kind@, c.label@))
}

/// An entry of the tree; the version is always `v1`.
pub open spec fn curated_entry(group: Seq<char>, kind: Seq<char>, label: Seq<char>, namespaced: bool) -> (
    KindView,
    Seq<char>,
) {
    (KindView { group, version: "v1"@, kind, namespaced }, label)
}

fn entry(group: &str, kind: &str, label: &str, namespaced: bool) -> (r: Curated)
    ensures
        (r.kind@, r.label@) == curated_entry(group@, kind@, label@, namespaced),
{
    Curated {
        kind: ResourceKind {
            group: copy_text(group),
            version: copy_text("v1"),
            kind: copy_text(kind),
            namespaced,
        },
        label: copy_text(label),
    }
}

/// The entries of a section.
pub open spec fn curated_kinds(c: Category) -> Seq<(KindView, Seq<char>)> {
    match c {
        Category::Workloads => seq![
            curated_entry(""@, "Pod"@, "Pods"@, true),
            curated_entry("apps"@, "Deployment"@, "Deployments"@, true),
            curated_entry("apps"@, "DaemonSet"@, "Daemon Sets"@, true),
            curated_entry("apps"@, "StatefulSet"@, "Stateful Sets"@, true),
            curated_entry("apps"@, "ReplicaSet"@, "Replica Sets"@, true),
            curated_entry(""@, "ReplicationController"@, "Replication Controllers"@, true),
            curated_entry("batch"@, "Job"@, "Jobs"@, true),
            curated_entry("batch"@, "CronJob"@, "Cron Jobs"@, true),
        ],
        Category::Config => seq![
            curated_entry(""@, "ConfigMap"@, "Config Maps"@, true),
            curated_entry(""@, "Secret"@, "Secrets"@, true),
            curated_entry(""@, "ResourceQuota"@, "Resource Quotas"@, true),
            curated_entry(""@, "LimitRange"@, "Limit Ranges"@, true),
            curated_entry("autoscaling"@, "HorizontalPodAutoscaler"@, "Horizontal Pod Autoscalers"@, true),
            curated_entry("autoscaling.k8s.io"@, "VerticalPodAutoscaler"@, "Vertical Pod Autoscalers"@, true),
            curated_entry("policy"@, "PodDisruptionBudget"@, "Pod Disruption Budgets"@, true),
            curated_entry("scheduling.k8s.io"@, "PriorityClass"@, "Priority Classes"@, false),
            curated_entry("node.k8s.io"@, "RuntimeClass"@, "Runtime Classes"@, false),
            curated_entry("coordination.k8s.io"@, "Lease"@, "Leases"@, true),
            curated_entry("admissionregistration.k8s.io"@, "MutatingWebhookConfiguration"@, "Mutating Webhook Configurations"@, false),
            curated_entry("admissionregistration.k8s.io"@, "ValidatingWebhookConfiguration"@, "Validating Webhook Configurations"@, false),
        ],
        Category::Network => seq![
            curated_entry(""@, "Service"@, "Services"@, true),
            curated_entry(""@, "Endpoints"@, "Endpoints"@, true),
            curated_entry("networking.k8s.io"@, "Ingress"@, "Ingresses"@, true),
            curated_entry("networking.k8s.io"@, "IngressClass"@, "Ingress Classes"@, false),
            curated_entry("networking.k8s.io"@, "NetworkPolicy"@, "Network Policies"@, true),
        ],
        Category::Storage => seq![
            curated_entry(""@, "PersistentVolumeClaim"@, "Persistent Volume Claims"@, true),
            curated_entry(""@, "PersistentVolume"@, "Persistent Volumes"@, false),
            curated_entry("storage.k8s.io"@, "StorageClass"@, "Storage Classes"@, false),
        ],
        Category::AccessControl => seq![
            curated_entry(""@, "ServiceAccount"@, "Service Accounts"@, true),
            curated_entry("rbac.authorization.k8s.io"@, "ClusterRole"@, "Cluster Roles"@, false),
            curated_entry("rbac.authorization.k8s.io"@, "Role"@, "Roles"@, true),
            curated_entry("rbac.authorization.k8s.io"@, "ClusterRoleBinding"@, "Cluster Role Bindings"@, false),
            curated_entry("rbac.authorization.k8s.io"@, "RoleBinding"@, "Role Bindings"@, true),
        ],
    }
}

/// The entries of a section.
pub fn curated(c: Category) -> (r: Vec<Curated>)
    ensures
        curated_views(r@) == curated_kinds(c),
{
    let r: Vec<Curated> = match c {
        Category::Workloads => vec![
            entry("", "Pod", "Pods", true),
            entry("apps", "Deployment", "Deployments", true),
            entry("apps", "DaemonSet", "Daemon Sets", true),
            entry("apps", "StatefulSet", "Stateful Sets", true),
            entry("apps", "ReplicaSet", "Replica Sets", true),
            entry("", "ReplicationController", "Replication Controllers", true),
            entry("batch", "Job", "Jobs", true),
            entry("batch", "CronJob", "Cron Jobs", true),
        ],
        Category::Config => vec![
            entry("", "ConfigMap", "Config Maps", true),
            entry("", "Secret", "Secrets", true),
            entry("", "ResourceQuota", "Resource Quotas", true),
            entry("", "LimitRange", "Limit Ranges", true),
            entry("autoscaling", "HorizontalPodAutoscaler", "Horizontal Pod Autoscalers", true),
            entry("autoscaling.k8s.io", "VerticalPodAutoscaler", "Vertical Pod Autoscalers", true),
            entry("policy", "PodDisruptionBudget", "Pod Disruption Budgets", true),
            entry("scheduling.k8s.io", "PriorityClass", "Priority Classes", false),
            entry("node.k8s.io", "RuntimeClass", "Runtime Classes", false),
            entry("coordination.k8s.io", "Lease", "Leases", true),
            entry("admissionregistration.k8s.io", "MutatingWebhookConfiguration", "Mutating Webhook Configurations", false),
            entry("admissionregistration.k8s.io", "ValidatingWebhookConfiguration", "Validating Webhook Configurations", false),
        ],
        Category::Network => vec![
            entry("", "Service", "Services", true),
            entry("", "Endpoints", "Endpoints", true),
            entry("networking.k8s.io", "Ingress", "Ingresses", true),
            entry("networking.k8s.io", "IngressClass", "Ingress Classes", false),
            entry("networking.k8s.io", "NetworkPolicy", "Network Policies", true),
        ],
        Category::Storage => vec![
            entry("", "PersistentVolumeClaim", "Persistent Volume Claims", true),
            entry("", "PersistentVolume", "Persistent Volumes", false),
            entry("storage.k8s.io", "StorageClass", "Storage Classes", false),
        ],
        Category::AccessControl => vec![
            entry("", "ServiceAccount", "Service Accounts", true),
            entry("rbac.authorization.k8s.io", "ClusterRole", "Cluster Roles", false),
            entry("rbac.authorization.k8s.io", "Role", "Roles", true),
            entry("rbac.authorization.k8s.io", "ClusterRoleBinding", "Cluster Role Bindings", false),
            entry("rbac.authorization.k8s.io", "RoleBinding", "Role Bindings", true),
        ],
    };
    assert(curated_views(r@) =~= curated_kinds(c));
    r
}

/// Whether a group belongs to every cluster.
pub open spec fn builtin_group(group: Seq<char>) -> bool {
    ||| group.len() == 0
    ||| group == "apps"@
    ||| group == "batch"@
    ||| group == "autoscaling"@
    ||| group == "autoscaling.k8s.io"@
    ||| group == "policy"@
    ||| group == "rbac.authorization.k8s.io"@
    ||| group == "networking.k8s.io"@
    ||| group == "storage.k8s.io"@
    ||| group == "node.k8s.io"@
    ||| group == "coordination.k8s.io"@
    ||| group == "admissionregistration.k8s.io"@
    ||| group == "events.k8s.io"@
    ||| group == "scheduling.k8s.io"@
    ||| group == "apiregistration.k8s.io"@
    ||| group == "authentication.k8s.io"@
    ||| group == "authorization.k8s.io"@
    ||| group == "discovery.k8s.io"@
    ||| group == "flowcontrol.apiserver.k8s.io"@
}

/// Whether a group belongs to every cluster.
pub fn is_builtin_group(group: &str) -> (r: bool)
    ensures
        r == builtin_group(group@),
{
    group.is_empty()
        || same_text(group, "apps")
        || same_text(group, "batch")
        || same_text(group, "autoscaling")
        || same_text(group, "autoscaling.k8s.io")
        || same_text(group, "policy")
        || same_text(group, "rbac.authorization.k8s.io")
        || same_text(group, "networking.k8s.io")
        || same_text(group, "storage.k8s.io")
        || same_text(group, "node.k8s.io")
        || same_text(group, "coordination.k8s.io")
        || same_text(group, "admissionregistration.k8s.io")
        || same_text(group, "events.k8s.io")
        || same_text(group, "scheduling.k8s.io")
        || same_text(group, "apiregistration.k8s.io")
        || same_text(group, "authentication.k8s.io")
        || same_text(group, "authorization.k8s.io")
        || same_text(group, "discovery.k8s.io")
        || same_text(group, "flowcontrol.apiserver.k8s.io")
}

/// Whether a kind has a name in a group.
pub open spec fn kind_matches(k: KindView, group: Seq<char>, kind: Seq<char>) -> bool {
    k.kind == kind && k.group == group
}

/// The place of a kind by its group and its name: the first of version `v1`, else the last
/// of any version.
pub open spec fn kind_index(kinds: Seq<KindView>, group: Seq<char>, kind: Seq<char>) -> Option<int> {
    match first_v1(kinds, group, kind) {
        Some(i) => Some(i),
        None => last_match(kinds, group, kind),
    }
}

/// The first kind of version `v1`.
pub open spec fn first_v1(kinds: Seq<KindView>, group: Seq<char>, kind: Seq<char>) -> Option<int>
    decreases kinds.len(),
{
    if kinds.len() == 0 {
        None
    } else {
        match first_v1(kinds.drop_last(), group, kind) {
            Some(i) => Some(i),
            None => if kind_matches(kinds.last(), group, kind) && kinds.last().version == "v1"@ {
                Some(kinds.len() - 1)
            } else {
                None
            },
        }
    }
}

/// The last kind of any version.
pub open spec fn last_match(kinds: Seq<KindView>, group: Seq<char>, kind: Seq<char>) -> Option<int>
    decreases kinds.len(),
{
    if kinds.len() == 0 {
        None
    } else if kind_matches(kinds.last(), group, kind) {
        Some(kinds.len() - 1)
    } else {
        last_match(kinds.drop_last(), group, kind)
    }
}

proof fn lemma_first_v1(kinds: Seq<KindView>, group: Seq<char>, kind: Seq<char>, n: int)
    requires
        0 <= n <= kinds.len(),
        first_v1(kinds.take(n), group, kind) is Some,
    ensures
        first_v1(kinds, group, kind) == first_v1(kinds.take(n), group, kind),
    decreases kinds.len() - n,
{
    if n < kinds.len() {
        assert(kinds.take(n + 1).drop_last() =~= kinds.take(n));
        lemma_first_v1(kinds, group, kind, n + 1);
    } else {
        assert(kinds.take(n) =~= kinds);
    }
}

/// Groups of kinds in ascending order of the groups; each holds the places of its kinds in
/// ascending order of their names.
pub open spec fn crd_add(gs: Seq<(Seq<char>, Seq<usize>)>, kinds: Seq<KindView>, i: usize) -> Seq<
    (Seq<char>, Seq<usize>),
>
    decreases gs.len(),
{
    let group = kinds[i as int].group;
    if gs.len() == 0 {
        seq![(group, seq![i])]
    } else if gs.last().0 == group {
        gs.drop_last().push((group, insert_kind(gs.last().1, kinds, i)))
    } else if text_lt(group, gs.last().0) {
        crd_add(gs.drop_last(), kinds, i).push(gs.last())
    } else {
        gs.push((group, seq![i]))
    }
}

/// Places of kinds in ascending order of their names with one more, behind those of the
/// same name.
pub open spec fn insert_kind(s: Seq<usize>, kinds: Seq<KindView>, i: usize) -> Seq<usize>
    decreases s.len(),
{
    if s.len() > 0 && text_lt(kinds[i as int].kind, kinds[s.last() as int].kind) {
        insert_kind(s.drop_last(), kinds, i).push(s.last())
    } else {
        s.push(i)
    }
}

/// The groups of the first `n` kinds, without those that every cluster has.
pub open spec fn crd_groups(kinds: Seq<KindView>, n: nat) -> Seq<(Seq<char>, Seq<usize>)>
    decreases n,
{
    if n == 0 {
        Seq::empty()
    } else {
        let rest = crd_groups(kinds, (n - 1) as nat);
        if builtin_group(kinds[n - 1].group) {
            rest
        } else {
            crd_add(rest, kinds, (n - 1) as usize)
        }
    }
}

/// The models of a list of groups.
pub open spec fn crd_views(v: Seq<(String, Vec<usize>)>) -> Seq<(Seq<char>, Seq<usize>)> {
    v.map_values(|g: (String, Vec<usize>)| (g.0@, g.1@))
}

/// Whether the groups hold only places below a bound.
pub open spec fn places_below(v: Seq<(String, Vec<usize>)>, n: int) -> bool {
    forall|g: int, k: int|
        #![trigger v[g].1@[k]]
        0 <= g < v.len() && 0 <= k < v[g].1@.len() ==> v[g].1@[k] < n
}

fn place_kind(s: &mut Vec<usize>, kinds: &Vec<ResourceKind>, i: usize)
    requires
        i < kinds@.len(),
        forall|k: int| 0 <= k < old(s)@.len() ==> (#[trigger] old(s)@[k]) < kinds@.len(),
    ensures
        final(s)@ == insert_kind(old(s)@, kind_views(kinds@), i),
        forall|k: int| 0 <= k < final(s)@.len() ==> (#[trigger] final(s)@[k]) < kinds@.len(),
{
    let ghost kv = kind_views(kinds@);
    let ghost all = s@;
    let mut j: usize = s.len();
    assert(all.take(all.len() as int) =~= all);
    assert(insert_kind(all, kv, i) + all.skip(all.len() as int) =~= insert_kind(all, kv, i));
    while j > 0 && text_less(kinds[i].kind.as_str(), kinds[s[j - 1]].kind.as_str())
        invariant
            j <= s.len(),
            s@ == all,
            i < kinds@.len(),
            kv == kind_views(kinds@),
            forall|k: int| 0 <= k < all.len() ==> (#[trigger] all[k]) < kinds@.len(),
            insert_kind(all, kv, i) == insert_kind(all.take(j as int), kv, i) + all.skip(j as int),
        ensures
            insert_kind(all, kv, i) == all.take(j as int).push(i) + all.skip(j as int),
        decreases j,
    {
        assert(all.take(j as int).last() == all[j - 1]);
        assert(all.take(j as int).drop_last() =~= all.take(j - 1));
        assert(insert_kind(all.take(j - 1), kv, i).push(all[j - 1]) + all.skip(j as int) =~= insert_kind(
            all.take(j - 1),
            kv,
            i,
        ) + all.skip(j - 1));
        j -= 1;
    }
    s.insert(j, i);
    assert(s@ =~= all.take(j as int).push(i) + all.skip(j as int));
}

fn add_crd(gs: &mut Vec<(String, Vec<usize>)>, kinds: &Vec<ResourceKind>, i: usize)
    requires
        i < kinds@.len(),
        places_below(old(gs)@, kinds@.len() as int),
    ensures
        crd_views(final(gs)@) == crd_add(crd_views(old(gs)@), kind_views(kinds@), i),
        places_below(final(gs)@, kinds@.len() as int),
{
    let ghost kv = kind_views(kinds@);
    let ghost all = crd_views(gs@);
    let ghost group = kv[i as int].group;
    let mut j: usize = gs.len();
    assert(all.take(all.len() as int) =~= all);
    assert(crd_add(all, kv, i) + all.skip(all.len() as int) =~= crd_add(all, kv, i));
    while j > 0 && text_less(kinds[i].group.as_str(), gs[j - 1].0.as_str())
        invariant
            j <= gs.len(),
            i < kinds@.len(),
            kv == kind_views(kinds@),
            all == crd_views(gs@),
            places_below(gs@, kinds@.len() as int),
            crd_add(all, kv, i) == crd_add(all.take(j as int), kv, i) + all.skip(j as int),
        ensures
            crd_add(all, kv, i) == crd_add(all.take(j as int), kv, i) + all.skip(j as int),
            j == 0 || !text_lt(kv[i as int].group, all[j - 1].0),
        decreases j,
    {
        let ghost t = all.take(j as int);
        assert(t.last() == all[j - 1]);
        assert(t.drop_last() =~= all.take(j - 1));
        proof {
            lemma_lex_irreflexive(codes(kv[i as int].group));
        }
        assert(crd_add(all.take(j - 1), kv, i).push(all[j - 1]) + all.skip(j as int) =~= crd_add(
            all.take(j - 1),
            kv,
            i,
        ) + all.skip(j - 1));
        j -= 1;
    }
    let ghost t = all.take(j as int);
    if j > 0 && same_text(gs[j - 1].0.as_str(), kinds[i].group.as_str()) {
        assert(t.last() == all[j - 1]);
        let ghost before = gs@;
        assert forall|k: int| 0 <= k < gs@[j - 1].1@.len() implies (#[trigger] gs@[j - 1].1@[k])
            < kinds@.len() by {}
        place_kind(&mut gs[j - 1].1, kinds, i);
        assert(crd_views(gs@) =~= t.drop_last().push(
            (group, insert_kind(all[j - 1].1, kv, i)),
        ) + all.skip(j as int));
    } else {
        if j > 0 {
            assert(t.last() == all[j - 1]);
        } else {
            assert(t =~= Seq::empty());
            assert(t.push((group, seq![i])) =~= seq![(group, seq![i])]);
        }
        let list: Vec<usize> = vec![i];
        assert(list@ =~= seq![i]);
        gs.insert(j, (kinds[i].group.clone(), list));
        assert(crd_views(gs@) =~= t.push((group, seq![i])) + all.skip(j as int));
    }
}

impl App {
    /// Whether an entry of the tree is the chosen kind.
    pub fn is_chosen(&self, k: &ResourceKind) -> (r: bool)
        ensures
            r == (selected_kind(*self) matches Some(cur) && kind_text(cur) == kind_text(k@)),
    {
        match self.current_selected_kind() {
            Some(cur) => {
                let a = gvk_label(cur);
                let b = gvk_label(k);
                same_text(a.as_str(), b.as_str())
            },
            None => false,
        }
    }

    /// The place of a kind by its group and its name: the first of version `v1`, else the
    /// last of any version.
    pub fn find_kind_index(&self, group: &str, kind: &str) -> (r: Option<usize>)
        ensures
            match r {
                Some(i) => kind_index(kind_views(self.kinds@), group@, kind@) == Some(i as int) && i
                    < self.kinds@.len(),
                None => kind_index(kind_views(self.kinds@), group@, kind@) is None,
            },
    {
        let ghost all = kind_views(self.kinds@);
        let mut candidate: Option<usize> = None;
        let mut i: usize = 0;
        assert(all.take(0) =~= Seq::empty());
        while i < self.kinds.len()
            invariant
                i <= self.kinds.len(),
                all == kind_views(self.kinds@),
                first_v1(all.take(i as int), group@, kind@) is None,
                match candidate {
                    Some(c) => last_match(all.take(i as int), group@, kind@) == Some(c as int) && c < i,
                    None => last_match(all.take(i as int), group@, kind@) is None,
                },
            decreases self.kinds.len() - i,
        {
            let k = &self.kinds[i];
            assert(all.take(i + 1).drop_last() =~= all.take(i as int));
            assert(all.take(i + 1).last() == k@);
            if same_text(k.kind.as_str(), kind) && same_text(k.group.as_str(), group) {
                if same_text(k.version.as_str(), "v1") {
                    proof {
                        lemma_first_v1(all, group@, kind@, i + 1);
                    }
                    return Some(i);
                }
                candidate = Some(i);
            }
            i += 1;
        }
        assert(all.take(all.len() as int) =~= all);
        candidate
    }

    /// The place of the kind of events: of the newer interface, else of the older one.
    pub fn find_events_index(&self) -> (r: Option<usize>)
        ensures
            match r {
                Some(i) => i < self.kinds@.len() && Some(i as int) == events_index(
                    kind_views(self.kinds@),
                ),
                None => events_index(kind_views(self.kinds@)) is None,
            },
    {
        match self.find_kind_index("events.k8s.io", "Event") {
            Some(i) => Some(i),
            None => self.find_kind_index("", "Event"),
        }
    }

    /// The kinds that not every cluster has, by their groups.
    pub fn custom_kinds(&self) -> (r: Vec<(String, Vec<usize>)>)
        ensures
            crd_views(r@) == crd_groups(kind_views(self.kinds@), self.kinds@.len()),
            places_below(r@, self.kinds@.len() as int),
    {
        let ghost kv = kind_views(self.kinds@);
        let mut gs: Vec<(String, Vec<usize>)> = Vec::new();
        let mut i: usize = 0;
        assert(crd_views(gs@) =~= Seq::empty());
        while i < self.kinds.len()
            invariant
                i <= self.kinds.len(),
                kv == kind_views(self.kinds@),
                crd_views(gs@) == crd_groups(kv, i as nat),
                places_below(gs@, self.kinds@.len() as int),
            decreases self.kinds.len() - i,
        {
            if !is_builtin_group(self.kinds[i].group.as_str()) {
                add_crd(&mut gs, &self.kinds, i);
            }
            i += 1;
        }
        gs
    }
}

/// The place of the kind of events: of the newer interface, else of the older one.
pub open spec fn events_index(kinds: Seq<KindView>) -> Option<int> {
    match kind_index(kinds, "events.k8s.io"@, "Event"@) {
        Some(i) => Some(i),
        None => kind_index(kinds, ""@, "Event"@),
    }
}

/// Every kind that not every cluster has is listed in its group, and no other kind is.
pub proof fn law_custom_kinds_listed(kinds: Seq<KindView>, n: nat, i: usize)
    requires
        n <= kinds.len() <= usize::MAX,
    ensures
        lists(crd_groups(kinds, n), kinds, i) <==> i < n && !builtin_group(kinds[i as int].group),
    decreases n,
{
    if n > 0 {
        law_custom_kinds_listed(kinds, (n - 1) as nat, i);
        if !builtin_group(kinds[n - 1].group) {
            lemma_crd_add(crd_groups(kinds, (n - 1) as nat), kinds, (n - 1) as usize, i);
        }
    }
}

/// Whether a group lists a kind.
pub open spec fn lists(gs: Seq<(Seq<char>, Seq<usize>)>, kinds: Seq<KindView>, i: usize) -> bool {
    exists|g: int|
        0 <= g < gs.len() && (#[trigger] gs[g]).0 == kinds[i as int].group && gs[g].1.contains(i)
}

proof fn lemma_insert_kind(s: Seq<usize>, kinds: Seq<KindView>, i: usize, x: usize)
    ensures
        insert_kind(s, kinds, i).contains(x) <==> s.contains(x) || x == i,
    decreases s.len(),
{
    if s.len() > 0 && text_lt(kinds[i as int].kind, kinds[s.last() as int].kind) {
        lemma_insert_kind(s.drop_last(), kinds, i, x);
        let d = insert_kind(s.drop_last(), kinds, i);
        let r = d.push(s.last());
        assert(s =~= s.drop_last().push(s.last()));
        assert(r[d.len() as int] == s.last());
        if d.contains(x) {
            let k = choose|k: int| 0 <= k < d.len() && d[k] == x;
            assert(r[k] == x);
        }
        if s.contains(x) {
            let k = choose|k: int| 0 <= k < s.len() && s[k] == x;
            if k < s.len() - 1 {
                assert(s.drop_last()[k] == x);
            }
        }
        if s.drop_last().contains(x) {
            let k = choose|k: int| 0 <= k < s.drop_last().len() && s.drop_last()[k] == x;
            assert(s[k] == x);
        }
        if r.contains(x) {
            let k = choose|k: int| 0 <= k < r.len() && r[k] == x;
            if k < d.len() {
                assert(d[k] == x);
            } else {
                assert(s[s.len() - 1] == x);
            }
        }
    } else {
        let r = s.push(i);
        assert(r[s.len() as int] == i);
        if s.contains(x) {
            let k = choose|k: int| 0 <= k < s.len() && s[k] == x;
            assert(r[k] == x);
        }
        if r.contains(x) {
            let k = choose|k: int| 0 <= k < r.len() && r[k] == x;
            if k < s.len() {
                assert(s[k] == x);
            }
        }
    }
}

proof fn lemma_crd_add(gs: Seq<(Seq<char>, Seq<usize>)>, kinds: Seq<KindView>, i: usize, x: usize)
    ensures
        lists(crd_add(gs, kinds, i), kinds, x) <==> lists(gs, kinds, x) || x == i,
    decreases gs.len(),
{
    let r = crd_add(gs, kinds, i);
    let group = kinds[i as int].group;
    if gs.len() == 0 {
        assert(r[0] == (group, seq![i]));
        assert(seq![i][0] == i);
    } else if gs.last().0 == group {
        lemma_insert_kind(gs.last().1, kinds, i, x);
        lemma_insert_kind(gs.last().1, kinds, i, i);
        let n = gs.len() - 1;
        assert(r[n] == (group, insert_kind(gs.last().1, kinds, i)));
        assert forall|g: int| 0 <= g < n implies #[trigger] r[g] == gs[g] by {}
        if lists(gs, kinds, x) {
            let g = choose|g: int|
                0 <= g < gs.len() && (#[trigger] gs[g]).0 == kinds[x as int].group && gs[g].1.contains(x);
            assert(r[g].0 == gs[g].0);
            assert(r[g].1.contains(x));
        }
        if lists(r, kinds, x) {
            let g = choose|g: int|
                0 <= g < r.len() && (#[trigger] r[g]).0 == kinds[x as int].group && r[g].1.contains(x);
            if g < n {
                assert(gs[g] == r[g]);
            } else if x != i {
                assert(gs[n].1.contains(x));
            }
        }
    } else if text_lt(group, gs.last().0) {
        let d = gs.drop_last();
        lemma_crd_add(d, kinds, i, x);
        let q = crd_add(d, kinds, i);
        assert(r == q.push(gs.last()));
        assert forall|g: int| 0 <= g < q.len() implies #[trigger] r[g] == q[g] by {}
        assert(r[q.len() as int] == gs.last());
        if lists(gs, kinds, x) {
            let g = choose|g: int|
                0 <= g < gs.len() && (#[trigger] gs[g]).0 == kinds[x as int].group && gs[g].1.contains(x);
            if g < d.len() {
                assert(d[g] == gs[g]);
            }
        }
        if lists(d, kinds, x) {
            let g = choose|g: int|
                0 <= g < d.len() && (#[trigger] d[g]).0 == kinds[x as int].group && d[g].1.contains(x);
            assert(gs[g] == d[g]);
        }
        if lists(q, kinds, x) {
            let g = choose|g: int|
                0 <= g < q.len() && (#[trigger] q[g]).0 == kinds[x as int].group && q[g].1.contains(x);
            assert(r[g] == q[g]);
        }
        if lists(r, kinds, x) {
            let g = choose|g: int|
                0 <= g < r.len() && (#[trigger] r[g]).0 == kinds[x as int].group && r[g].1.contains(x);
            if g < q.len() {
                assert(q[g] == r[g]);
            } else {
                assert(gs[gs.len() - 1] == r[g]);
            }
        }
    } else {
        assert(r == gs.push((group, seq![i])));
        assert(seq![i][0] == i);
        assert(r[gs.len() as int].1.contains(i));
        assert forall|g: int| 0 <= g < gs.len() implies #[trigger] r[g] == gs[g] by {}
        if lists(gs, kinds, x) {
            let g = choose|g: int|
                0 <= g < gs.len() && (#[trigger] gs[g]).0 == kinds[x as int].group && gs[g].1.contains(x);
            assert(r[g] == gs[g]);
        }
        if lists(r, kinds, x) {
            let g = choose|g: int|
                0 <= g < r.len() && (#[trigger] r[g]).0 == kinds[x as int].group && r[g].1.contains(x);
            if g < gs.len() {
                assert(gs[g] == r[g]);
            }
        }
    }
}

// ---------------------------------------------------------------------------
// Which kind is chosen

/// A kind that was chosen itself counts before a place in the list; a place counts where the
/// list has it.
pub proof fn law_chosen_kind(sel: SelectionState, kinds: Seq<ResourceKind>, k: ResourceKind, i: usize)
    ensures
        sel.selected_kind == Some(k) ==> chosen_kind(sel, kinds) == Some(k@),
        sel.selected_kind is None && sel.selected_idx == Some(i) && i < kinds.len() ==> chosen_kind(sel, kinds) == Some(
            kinds[i as int]@,
        ),
        sel.selected_kind is None && sel.selected_idx == Some(i) && i >= kinds.len() ==> chosen_kind(sel, kinds) is None,
        sel.selected_kind is None && sel.selected_idx is None ==> chosen_kind(sel, kinds) is None,
{
}

proof fn lemma_found_v1(kinds: Seq<KindView>, group: Seq<char>, kind: Seq<char>)
    ensures
        match first_v1(kinds, group, kind) {
            Some(i) => 0 <= i < kinds.len() && kinds[i].group == group && kinds[i].kind == kind && kinds[i].version
                == "v1"@,
            None => forall|i: int|
                0 <= i < kinds.len() ==> !((#[trigger] kinds[i]).group == group && kinds[i].kind == kind
                    && kinds[i].version == "v1"@),
        },
        match last_match(kinds, group, kind) {
            Some(i) => 0 <= i < kinds.len() && kinds[i].group == group && kinds[i].kind == kind,
            None => forall|i: int|
                0 <= i < kinds.len() ==> !((#[trigger] kinds[i]).group == group && kinds[i].kind == kind),
        },
    decreases kinds.len(),
{
    if kinds.len() > 0 {
        let d = kinds.drop_last();
        lemma_found_v1(d, group, kind);
        assert forall|i: int| 0 <= i < d.len() implies #[trigger] kinds[i] == d[i] by {}
    }
}

/// The kind that is found has the group and the name that are looked for. Of several versions
/// the first stable one counts; none is found only where there is none.
pub proof fn law_kind_index(kinds: Seq<KindView>, group: Seq<char>, kind: Seq<char>, i: int)
    requires
        0 <= i < kinds.len(),
        kinds[i].group == group,
        kinds[i].kind == kind,
    ensures
        kind_index(kinds, group, kind) matches Some(p) && {
            &&& 0 <= p < kinds.len()
            &&& kinds[p].group == group
            &&& kinds[p].kind == kind
            &&& kinds[i].version == "v1"@ ==> kinds[p].version == "v1"@
        },
{
    lemma_found_v1(kinds, group, kind);
}

/// No kind is found that has not the group and the name.
pub proof fn law_kind_not_found(kinds: Seq<KindView>, group: Seq<char>, kind: Seq<char>)
    requires
        forall|i: int| 0 <= i < kinds.len() ==> (#[trigger] kinds[i]).group != group || kinds[i].kind != kind,
    ensures
        kind_index(kinds, group, kind) is None,
{
    lemma_found_v1(kinds, group, kind);
}

/// The events of the newer group come before those of the core group.
pub proof fn law_events_index(kinds: Seq<KindView>, i: int)
    requires
        0 <= i < kinds.len(),
        kinds[i].kind == "Event"@,
        kinds[i].group == "events.k8s.io"@,
    ensures
        events_index(kinds) matches Some(p) && 0 <= p < kinds.len() && kinds[p].group == "events.k8s.io"@ && kinds[p].kind
            == "Event"@,
{
    lemma_found_v1(kinds, "events.k8s.io"@, "Event"@);
}

/// The kinds that are offered ahead of the others are stable ones of the groups that every
/// cluster has.
pub proof fn law_curated(c: Category, i: int)
    requires
        0 <= i < curated_kinds(c).len(),
    ensures
        curated_kinds(c)[i].0.version == "v1"@,
        builtin_group(curated_kinds(c)[i].0.group),
{
    reveal_strlit("");
}

/// Pods are offered first of all, and what runs them with them; each in a namespace.
pub proof fn law_curated_workloads(i: int)
    requires
        0 <= i < curated_kinds(Category::Workloads).len(),
    ensures
        curated_kinds(Category::Workloads)[i].0.namespaced,
        is_core_kind(curated_kinds(Category::Workloads)[0].0, "Pod"@),
        is_core_kind(curated_kinds(Category::Network)[0].0, "Service"@),
        is_core_kind(curated_kinds(Category::Config)[0].0, "ConfigMap"@),
        is_core_kind(curated_kinds(Category::Config)[1].0, "Secret"@),
{
    reveal_strlit("");
}

} // verus!
