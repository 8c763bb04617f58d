//! The relations of an object: its owners and what it uses, as text and as a graph.
//!
//! The owners are found by reading one object after another: `owner_to_fetch` says which
//! comes next, and the builders take the objects that were read.
use crate::codec::{json_read, lossy, lossy_text, parse_json};
use crate::gui::model::{
    App, GraphEdge, GraphModel, GraphNode, GraphNodeRole, GraphState, Handle, SelectionState,
};
use crate::gui::nav::selected_kind;
use crate::gui::results::{row_of, table};
use crate::gui::select::refers;
use crate::json::{collect, collect_from, json_views, lemma_collect_contains, member_views, or_text, owned, text_of, Json, JsonView};
use crate::order::{
    dedup, dedup_texts, law_sorted_unique, sort_texts, sorted_texts, strictly_ascends, text_less, text_lt,
};
use crate::text::{
    after_prefix, cat2, cat3, cat4, copy_text, cut, dec, join, join_text, lemma_first_at, lemma_split_concat,
    lemma_split_single, opt_text, same_text, split, split_char, split_once, strip_prefix, texts, usize_text,
};
use crate::types::{clone_option, uid_key, KindView, ResourceKind, ResourceRef, Uid};
use vstd::prelude::*;
use vstd::string::*;

verus! {

/// How many owners are followed.
pub const OWNER_LIMIT: usize = 5;

/// An owner of an object.
pub struct Owner {
    pub group: String,
    pub version: String,
    pub kind: String,
    pub name: String,
}

/// The model of an `Owner`.
pub struct OwnerView {
    pub group: Seq<char>,
    pub version: Seq<char>,
    pub kind: Seq<char>,
    pub name: Seq<char>,
}

impl View for Owner {
    type V = OwnerView;

    open spec fn view(&self) -> OwnerView {
        OwnerView {
            group: self.group@,
            version: self.version@,
            kind: self.kind@,
            name: self.name@,
        }
    }
}

/// The group and the version of an API version.
pub open spec fn api_parts(apiv: Seq<char>) -> (Seq<char>, Seq<char>) {
    match cut(apiv, '/') {
        Some((g, v)) => (g, v),
        None => (Seq::empty(), apiv),
    }
}

/// The owner that a reference names.
pub open spec fn owner_ref(o: JsonView) -> OwnerView {
    let (group, version) = api_parts(or_text(o.str_of("apiVersion"@), ""@));
    OwnerView {
        group,
        version,
        kind: or_text(o.str_of("kind"@), ""@),
        name: or_text(o.str_of("name"@), ""@),
    }
}

/// Whether a reference names the controller of an object.
pub open spec fn is_controller(o: JsonView) -> bool {
    o.flag_of("controller"@) == Some(true)
}

/// The first reference to a controller.
pub open spec fn first_controller(owners: Seq<JsonView>) -> Option<JsonView>
    decreases owners.len(),
{
    if owners.len() == 0 {
        None
    } else if is_controller(owners[0]) {
        Some(owners[0])
    } else {
        first_controller(owners.skip(1))
    }
}

/// The owner of an object: its controller, else the first one.
pub open spec fn owner_of(v: JsonView) -> Option<OwnerView> {
    match v.array_of2("metadata"@, "ownerReferences"@) {
        Some(owners) => match first_controller(owners) {
            Some(o) => Some(owner_ref(o)),
            None => if owners.len() > 0 {
                Some(owner_ref(owners[0]))
            } else {
                None
            },
        },
        None => None,
    }
}

/// The model of an optional owner.
pub open spec fn opt_owner(o: Option<Owner>) -> Option<OwnerView> {
    match o {
        Some(x) => Some(x@),
        None => None,
    }
}

fn read_owner(o: &Json) -> (r: Owner)
    ensures
        r@ == owner_ref(o@),
{
    let apiv = text_of(o.str_of("apiVersion"), "");
    let (group, version) = match split_once(apiv.as_str(), '/') {
        Some((g, v)) => (g, v),
        None => (String::new(), apiv),
    };
    assert(""@ =~= Seq::empty()) by {
        reveal_strlit("");
    }
    let r = Owner {
        group,
        version,
        kind: text_of(o.str_of("kind"), ""),
        name: text_of(o.str_of("name"), ""),
    };
    assert(r.group@ =~= owner_ref(o@).group);
    r
}

/// The owner of an object: its controller, else the first one.
pub fn owner_from_value(v: &Json) -> (r: Option<Owner>)
    ensures
        opt_owner(r) == owner_of(v@),
{
    match v.array_of2("metadata", "ownerReferences") {
        None => None,
        Some(owners) => {
            let ghost all = json_views(owners@);
            let mut i: usize = 0;
            assert(all.skip(0) =~= all);
            while i < owners.len()
                invariant
                    i <= owners.len(),
                    all == json_views(owners@),
                    v@.array_of2("metadata"@, "ownerReferences"@) == Some(all),
                    first_controller(all) == first_controller(all.skip(i as int)),
                decreases owners.len() - i,
            {
                let o = &owners[i];
                assert(all.skip(i as int)[0] == o@);
                if let Some(true) = o.flag_of("controller") {
                    return Some(read_owner(o));
                }
                assert(all.skip(i as int).skip(1) =~= all.skip(i + 1));
                i += 1;
            }
            if owners.len() > 0 {
                assert(all[0] == owners@[0]@);
                Some(read_owner(&owners[0]))
            } else {
                None
            }
        },
    }
}

/// The owners of an object, given the objects that were read on the way: its own, that of
/// its owner, and so on.
pub open spec fn owners_of(chain: Seq<JsonView>) -> Seq<OwnerView>
    decreases chain.len(),
{
    if chain.len() == 0 {
        Seq::empty()
    } else {
        match owner_of(chain[0]) {
            Some(o) => seq![o] + owners_of(chain.skip(1)),
            None => Seq::empty(),
        }
    }
}

/// The first owners of an object, as many as are followed.
pub open spec fn followed(chain: Seq<JsonView>) -> Seq<OwnerView> {
    owners_of(
        if chain.len() <= OWNER_LIMIT {
            chain
        } else {
            chain.take(OWNER_LIMIT as int)
        },
    )
}

/// The models of a list of owners.
pub open spec fn owner_views(v: Seq<Owner>) -> Seq<OwnerView> {
    v.map_values(|o: Owner| o@)
}

/// Whether a reference names an owner. The owner is read in the namespace of the object.
pub open spec fn names_owner(r: ResourceRef, o: OwnerView, ns: Option<Seq<char>>) -> bool {
    &&& r.cluster is None
    &&& r.gvk@ == (KindView {
        group: o.group,
        version: o.version,
        kind: o.kind,
        namespaced: true,
    })
    &&& opt_text(r.namespace) == ns
    &&& r.name@ == o.name
}

/// The object to read next, given those that were read: the owner of the last one, until
/// enough owners were followed.
pub fn owner_to_fetch(chain: &Vec<Json>, ns: &Option<String>) -> (r: Option<ResourceRef>)
    requires
        chain@.len() > 0,
    ensures
        match r {
            Some(x) => {
                &&& chain@.len() < OWNER_LIMIT
                &&& owner_of(chain@.last()@) matches Some(o) && names_owner(x, o, opt_text(*ns))
            },
            None => chain@.len() >= OWNER_LIMIT || owner_of(chain@.last()@) is None,
        },
{
    if chain.len() >= OWNER_LIMIT {
        return None;
    }
    match owner_from_value(&chain[chain.len() - 1]) {
        None => None,
        Some(o) => Some(
            ResourceRef {
                cluster: None,
                gvk: ResourceKind {
                    group: o.group,
                    version: o.version,
                    kind: o.kind,
                    namespaced: true,
                },
                namespace: clone_option(ns),
                name: o.name,
            },
        ),
    }
}

fn follow(chain: &Vec<Json>) -> (r: Vec<Owner>)
    ensures
        owner_views(r@) == followed(json_views(chain@)),
{
    let n: usize = if chain.len() <= OWNER_LIMIT {
        chain.len()
    } else {
        OWNER_LIMIT
    };
    let ghost all = if json_views(chain@).len() <= OWNER_LIMIT {
        json_views(chain@)
    } else {
        json_views(chain@).take(OWNER_LIMIT as int)
    };
    let mut out: Vec<Owner> = Vec::new();
    let mut i: usize = 0;
    assert(all.skip(0) =~= all);
    assert(owner_views(out@) + owners_of(all) =~= owners_of(all));
    while i < n
        invariant
            i <= n,
            n == all.len(),
            n <= chain.len(),
            forall|k: int| 0 <= k < n ==> #[trigger] all[k] == chain@[k]@,
            followed(json_views(chain@)) == owners_of(all),
            owners_of(all) == owner_views(out@) + owners_of(all.skip(i as int)),
        decreases n - i,
    {
        let ghost rest = all.skip(i as int);
        assert(rest[0] == chain@[i as int]@);
        match owner_from_value(&chain[i]) {
            None => {
                assert(owner_views(out@) + owners_of(rest) =~= owner_views(out@));
                return out;
            },
            Some(o) => {
                let ghost before = owner_views(out@);
                let ghost ov = o@;
                out.push(o);
                assert(owner_views(out@) =~= before.push(ov));
                assert(rest.skip(1) =~= all.skip(i + 1));
                assert(before + (seq![ov] + owners_of(rest.skip(1))) =~= owner_views(out@) + owners_of(
                    all.skip(i + 1),
                ));
            },
        }
        i += 1;
    }
    assert(owner_views(out@) + owners_of(all.skip(n as int)) =~= owner_views(out@));
    out
}

/// The API version of an owner.
pub open spec fn api_text(o: OwnerView) -> Seq<char> {
    if o.group.len() == 0 {
        o.version
    } else {
        o.group + "/"@ + o.version
    }
}

fn api_label(o: &Owner) -> (r: String)
    ensures
        r@ == api_text(o@),
{
    if o.group.as_str().is_empty() {
        o.version.clone()
    } else {
        cat3(o.group.as_str(), "/", o.version.as_str())
    }
}

/// An owner as it is shown.
pub open spec fn owner_label(o: OwnerView) -> Seq<char> {
    api_text(o) + "/"@ + o.kind + " "@ + o.name
}

fn show_owner(o: &Owner) -> (r: String)
    ensures
        r@ == owner_label(o@),
{
    let api = api_label(o);
    let mut r = cat4(api.as_str(), "/", o.kind.as_str(), " ");
    r.append(o.name.as_str());
    r
}

/// An object as it is shown: its kind, its namespace where the kind has them, its name.
pub open spec fn root_label(v: JsonView, k: KindView) -> Seq<char> {
    let name = or_text(v.str_of2("metadata"@, "name"@), ""@);
    let ns = or_text(v.str_of2("metadata"@, "namespace"@), ""@);
    if k.namespaced {
        k.kind + " "@ + ns + "/"@ + name
    } else {
        k.kind + " "@ + name
    }
}

fn show_root(v: &Json, k: &ResourceKind) -> (r: String)
    ensures
        r@ == root_label(v@, k@),
{
    let name = text_of(v.str_of2("metadata", "name"), "");
    let ns = text_of(v.str_of2("metadata", "namespace"), "");
    if k.namespaced {
        let mut r = cat4(k.kind.as_str(), " ", ns.as_str(), "/");
        r.append(name.as_str());
        r
    } else {
        cat3(k.kind.as_str(), " ", name.as_str())
    }
}

// ---------------------------------------------------------------------------
// What an object uses

/// The elements of the volumes of a pod.
pub open spec fn volumes(v: JsonView) -> Seq<JsonView> {
    match v.array_of2("spec"@, "volumes"@) {
        Some(a) => a,
        None => Seq::empty(),
    }
}

/// The config map that a volume mounts.
pub open spec fn volume_config_map(vol: JsonView) -> Option<Seq<char>> {
    vol.str_of2("configMap"@, "name"@)
}

/// The secret that a volume mounts.
pub open spec fn volume_secret(vol: JsonView) -> Option<Seq<char>> {
    match vol.get("secret"@) {
        Some(m) => match m.get("secretName"@) {
            Some(n) => n.text(),
            None => m.str_of("name"@),
        },
        None => None,
    }
}

/// The config maps that the volumes of a pod mount, each once, in order.
pub open spec fn config_maps(v: JsonView) -> Seq<Seq<char>> {
    dedup(sorted_texts(collect(volumes(v), |x: JsonView| volume_config_map(x))))
}

/// The secrets that the volumes of a pod mount, each once, in order.
pub open spec fn secrets(v: JsonView) -> Seq<Seq<char>> {
    dedup(sorted_texts(collect(volumes(v), |x: JsonView| volume_secret(x))))
}

fn read_volume_secret(vol: &Json) -> (r: Option<String>)
    ensures
        opt_text(r) == volume_secret(vol@),
{
    match vol.get("secret") {
        Some(m) => match m.get("secretName") {
            Some(n) => owned(n.as_str()),
            None => owned(m.str_of("name")),
        },
        None => None,
    }
}

fn read_config_maps(v: &Json) -> (r: Vec<String>)
    ensures
        texts(r@) == config_maps(v@),
{
    let none: Vec<Json> = Vec::new();
    assert(json_views(none@) =~= Seq::empty());
    let vols = match v.array_of2("spec", "volumes") {
        Some(a) => a,
        None => &none,
    };
    let f = |x: &Json| -> (t: Option<String>)
        ensures
            opt_text(t) == volume_config_map(x@),
        { owned(x.str_of2("configMap", "name")) };
    let found = collect_from(vols, f, Ghost(|x: JsonView| volume_config_map(x)));
    dedup_texts(sort_texts(found))
}

fn read_secrets(v: &Json) -> (r: Vec<String>)
    ensures
        texts(r@) == secrets(v@),
{
    let none: Vec<Json> = Vec::new();
    assert(json_views(none@) =~= Seq::empty());
    let vols = match v.array_of2("spec", "volumes") {
        Some(a) => a,
        None => &none,
    };
    let f = |x: &Json| -> (t: Option<String>)
        ensures
            opt_text(t) == volume_secret(x@),
        { read_volume_secret(x) };
    let found = collect_from(vols, f, Ghost(|x: JsonView| volume_secret(x)));
    dedup_texts(sort_texts(found))
}

/// The requirements of a selector: those whose value is a text.
pub open spec fn requirements(m: Seq<(Seq<char>, JsonView)>) -> Seq<Seq<char>>
    decreases m.len(),
{
    if m.len() == 0 {
        Seq::empty()
    } else {
        match m.last().1.text() {
            Some(t) => requirements(m.drop_last()).push(m.last().0 + "="@ + t),
            None => requirements(m.drop_last()),
        }
    }
}

/// A selector as one text.
pub open spec fn selector_text(m: Seq<(Seq<char>, JsonView)>) -> Seq<char> {
    join(sorted_texts(requirements(m)), ","@)
}

/// The selector of a service as one text, where it has one.
pub open spec fn service_selector(v: JsonView) -> Option<Seq<char>> {
    match v.object_of2("spec"@, "selector"@) {
        Some(m) => Some(selector_text(m)),
        None => None,
    }
}

/// A selector as one text.
pub fn show_selector(m: &Vec<(String, Json)>) -> (r: String)
    ensures
        r@ == selector_text(member_views(m@)),
{
    let ghost mv = member_views(m@);
    let mut items: Vec<String> = Vec::new();
    let mut i: usize = 0;
    assert(texts(items@) =~= requirements(mv.take(0)));
    while i < m.len()
        invariant
            i <= m.len(),
            mv == member_views(m@),
            texts(items@) == requirements(mv.take(i as int)),
        decreases m.len() - i,
    {
        assert(mv.take(i + 1).drop_last() =~= mv.take(i as int));
        assert(mv.take(i + 1).last() == (m@[i as int].0@, m@[i as int].1@));
        let ghost before = texts(items@);
        if let Some(t) = m[i].1.as_str() {
            let item = cat3(m[i].0.as_str(), "=", t);
            let ghost iv = item@;
            items.push(item);
            assert(texts(items@) =~= before.push(iv));
        }
        i += 1;
    }
    assert(mv.take(mv.len() as int) =~= mv);
    let sorted = sort_texts(items);
    join_text(&sorted, ",")
}

/// The selector of a service as one text, where it has one.
pub fn pod_selector(v: &Json) -> (r: Option<String>)
    ensures
        opt_text(r) == service_selector(v@),
{
    match v.object_of2("spec", "selector") {
        Some(m) => Some(show_selector(m)),
        None => None,
    }
}

// ---------------------------------------------------------------------------
// As text

/// The lines of the owners.
pub open spec fn owner_lines(owners: Seq<OwnerView>) -> Seq<char>
    decreases owners.len(),
{
    if owners.len() == 0 {
        Seq::empty()
    } else {
        owner_lines(owners.drop_last()) + "  -> "@ + owner_label(owners.last()) + "\n"@
    }
}

/// A line with a list of names, where there are any.
pub open spec fn names_line(label: Seq<char>, names: Seq<Seq<char>>) -> Seq<char> {
    if names.len() == 0 {
        Seq::empty()
    } else {
        label + join(names, ", "@) + "\n"@
    }
}

/// The lines of what a pod uses.
pub open spec fn pod_lines(v: JsonView) -> Seq<char> {
    (match v.str_of2("spec"@, "serviceAccountName"@) {
        Some(sa) => "  ServiceAccount: "@ + sa + "\n"@,
        None => Seq::empty(),
    }) + names_line("  ConfigMaps: "@, config_maps(v)) + names_line("  Secrets: "@, secrets(v))
}

/// The line of the pods that a service selects.
pub open spec fn service_lines(v: JsonView, pods: nat) -> Seq<char> {
    match service_selector(v) {
        Some(sel) => "  Pods: "@ + dec(pods) + " (selector: "@ + (if sel.len() == 0 {
            "(none)"@
        } else {
            sel
        }) + ")\n"@,
        None => Seq::empty(),
    }
}

/// The relations of an object as text. `pods` is how many pods its selector finds.
pub open spec fn graph_text(chain: Seq<JsonView>, k: KindView, pods: nat) -> Seq<char> {
    root_label(chain[0], k) + "\n"@ + "\nOwner Chain:\n"@ + owner_lines(followed(chain)) + "\nDirect:\n"@ + (if k.kind
        == "Pod"@ {
        pod_lines(chain[0])
    } else if k.kind == "Service"@ {
        service_lines(chain[0], pods)
    } else {
        Seq::empty()
    })
}

fn show_names(label: &str, names: &Vec<String>) -> (r: String)
    ensures
        r@ == names_line(label@, texts(names@)),
{
    if names.len() == 0 {
        let r = String::new();
        assert(r@ =~= names_line(label@, texts(names@)));
        r
    } else {
        let list = join_text(names, ", ");
        cat3(label, list.as_str(), "\n")
    }
}

fn show_pod(v: &Json) -> (r: String)
    ensures
        r@ == pod_lines(v@),
{
    let sa = match v.str_of2("spec", "serviceAccountName") {
        Some(sa) => cat3("  ServiceAccount: ", sa, "\n"),
        None => String::new(),
    };
    let cms = show_names("  ConfigMaps: ", &read_config_maps(v));
    let secs = show_names("  Secrets: ", &read_secrets(v));
    let r = cat3(sa.as_str(), cms.as_str(), secs.as_str());
    assert(r@ =~= pod_lines(v@));
    r
}

fn show_service(v: &Json, pods: usize) -> (r: String)
    ensures
        r@ == service_lines(v@, pods as nat),
{
    match pod_selector(v) {
        Some(sel) => {
            let n = usize_text(pods);
            let mut r = cat3("  Pods: ", n.as_str(), " (selector: ");
            if sel.as_str().is_empty() {
                r.append("(none)");
            } else {
                r.append(sel.as_str());
            }
            r.append(")\n");
            r
        },
        None => {
            let r = String::new();
            assert(r@ =~= service_lines(v@, pods as nat));
            r
        },
    }
}

/// The relations of an object as text: `chain` holds the object and the owners that were
/// read, `pods` is how many pods its selector finds.
pub fn build_graph_text(chain: &Vec<Json>, gvk: &ResourceKind, pods: usize) -> (r: String)
    requires
        chain@.len() > 0,
    ensures
        r@ == graph_text(json_views(chain@), gvk@, pods as nat),
{
    let v = &chain[0];
    assert(json_views(chain@)[0] == v@);
    let mut out = show_root(v, gvk);
    out.append("\n");
    out.append("\nOwner Chain:\n");
    let ghost head = out@;
    let owners = follow(chain);
    let ghost ov = owner_views(owners@);
    let mut i: usize = 0;
    assert(ov.take(0) =~= Seq::empty());
    assert(head + owner_lines(ov.take(0)) =~= head);
    while i < owners.len()
        invariant
            i <= owners.len(),
            ov == owner_views(owners@),
            out@ == head + owner_lines(ov.take(i as int)),
        decreases owners.len() - i,
    {
        assert(ov.take(i + 1).drop_last() =~= ov.take(i as int));
        assert(ov.take(i + 1).last() == owners@[i as int]@);
        let label = show_owner(&owners[i]);
        out.append("  -> ");
        out.append(label.as_str());
        out.append("\n");
        assert(out@ =~= head + owner_lines(ov.take(i + 1)));
        i += 1;
    }
    assert(ov.take(ov.len() as int) =~= ov);
    out.append("\nDirect:\n");
    let ghost mid = out@;
    if same_text(gvk.kind.as_str(), "Pod") {
        let t = show_pod(v);
        out.append(t.as_str());
    } else if same_text(gvk.kind.as_str(), "Service") {
        let t = show_service(v, pods);
        out.append(t.as_str());
    } else {
        assert(mid + Seq::<char>::empty() =~= mid);
    }
    out
}

// ---------------------------------------------------------------------------
// As a graph

/// The model of a part in a graph.
pub enum RoleView {
    Root,
    OwnerChain(nat),
    Related(Seq<char>),
}

/// The model of a node.
pub struct NodeView {
    pub id: Seq<char>,
    pub label: Seq<char>,
    pub kind: Seq<char>,
    pub role: RoleView,
}

/// The model of an edge.
pub struct EdgeView {
    pub from: Seq<char>,
    pub to: Seq<char>,
    pub label: Option<Seq<char>>,
}

impl View for GraphNodeRole {
    type V = RoleView;

    open spec fn view(&self) -> RoleView {
        match self {
            GraphNodeRole::Root => RoleView::Root,
            GraphNodeRole::OwnerChain(n) => RoleView::OwnerChain(*n as nat),
            GraphNodeRole::Related(s) => RoleView::Related(s@),
        }
    }
}

impl View for GraphNode {
    type V = NodeView;

    open spec fn view(&self) -> NodeView {
        NodeView { id: self.id@, label: self.label@, kind: self.kind@, role: self.role@ }
    }
}

impl View for GraphEdge {
    type V = EdgeView;

    open spec fn view(&self) -> EdgeView {
        EdgeView { from: self.from@, to: self.to@, label: opt_text(self.label) }
    }
}

/// The models of a list of nodes.
pub open spec fn node_views(v: Seq<GraphNode>) -> Seq<NodeView> {
    v.map_values(|n: GraphNode| n@)
}

/// The models of a list of edges.
pub open spec fn edge_views(v: Seq<GraphEdge>) -> Seq<EdgeView> {
    v.map_values(|e: GraphEdge| e@)
}

/// The name of the node of the object itself.
pub open spec fn root_id(v: JsonView, k: KindView) -> Seq<char> {
    "root:"@ + k.group + ":"@ + k.version + ":"@ + k.kind + ":"@ + or_text(
        v.str_of2("metadata"@, "name"@),
        ""@,
    )
}

/// The name of the node of an owner.
pub open spec fn owner_id(o: OwnerView) -> Seq<char> {
    "own:"@ + o.group + "/"@ + o.version + "/"@ + o.kind + ":"@ + o.name
}

/// The node of the object itself.
pub open spec fn root_node(v: JsonView, k: KindView) -> NodeView {
    NodeView { id: root_id(v, k), label: root_label(v, k), kind: k.kind, role: RoleView::Root }
}

/// The nodes of the owners.
pub open spec fn owner_nodes(owners: Seq<OwnerView>) -> Seq<NodeView> {
    Seq::new(
        owners.len(),
        |i: int|
            NodeView {
                id: owner_id(owners[i]),
                label: owner_label(owners[i]),
                kind: owners[i].kind,
                role: RoleView::OwnerChain((i + 1) as nat),
            },
    )
}

/// The edges from each owner to what it owns.
pub open spec fn owner_edges(root: Seq<char>, owners: Seq<OwnerView>) -> Seq<EdgeView> {
    Seq::new(
        owners.len(),
        |i: int|
            EdgeView {
                from: owner_id(owners[i]),
                to: if i == 0 {
                    root
                } else {
                    owner_id(owners[i - 1])
                },
                label: Some("owner"@),
            },
    )
}

/// A node of something that the object uses.
pub open spec fn used_node(id: Seq<char>, kind: Seq<char>, name: Seq<char>) -> NodeView {
    NodeView { id, label: kind + " "@ + name, kind, role: RoleView::Related(kind) }
}

/// The nodes of things of one kind that the object uses.
pub open spec fn used_nodes(prefix: Seq<char>, kind: Seq<char>, names: Seq<Seq<char>>) -> Seq<NodeView> {
    Seq::new(names.len(), |i: int| used_node(prefix + names[i], kind, names[i]))
}

/// The edges of things of one kind that the object uses.
pub open spec fn used_edges(prefix: Seq<char>, root: Seq<char>, names: Seq<Seq<char>>) -> Seq<EdgeView> {
    Seq::new(
        names.len(),
        |i: int| EdgeView { from: prefix + names[i], to: root, label: Some("mounts"@) },
    )
}

/// The name of the node of a service account.
pub open spec fn account_id(ns: Option<Seq<char>>, sa: Seq<char>) -> Seq<char> {
    "sa:"@ + or_text(ns, ""@) + ":"@ + "v1"@ + ":"@ + sa
}

/// The nodes of what a pod uses.
pub open spec fn pod_nodes(v: JsonView, ns: Option<Seq<char>>) -> Seq<NodeView> {
    (match v.str_of2("spec"@, "serviceAccountName"@) {
        Some(sa) => seq![used_node(account_id(ns, sa), "ServiceAccount"@, sa)],
        None => Seq::empty(),
    }) + used_nodes("cm:"@, "ConfigMap"@, config_maps(v)) + used_nodes("sec:"@, "Secret"@, secrets(v))
}

/// The edges of what a pod uses.
pub open spec fn pod_edges(v: JsonView, ns: Option<Seq<char>>, root: Seq<char>) -> Seq<EdgeView> {
    (match v.str_of2("spec"@, "serviceAccountName"@) {
        Some(sa) => seq![
            EdgeView { from: account_id(ns, sa), to: root, label: Some("uses"@) },
        ],
        None => Seq::empty(),
    }) + used_edges("cm:"@, root, config_maps(v)) + used_edges("sec:"@, root, secrets(v))
}

/// The node of the pods that a service selects.
pub open spec fn pods_node(sel: Seq<char>, pods: nat) -> NodeView {
    NodeView {
        id: "pods:"@ + sel,
        label: if sel.len() == 0 {
            "Pods"@
        } else {
            "Pods ("@ + dec(pods) + ")"@
        },
        kind: "Pods"@,
        role: RoleView::Related("Pods"@),
    }
}

/// The nodes of what an object uses or selects.
pub open spec fn direct_nodes(v: JsonView, k: KindView, ns: Option<Seq<char>>, pods: nat) -> Seq<NodeView> {
    if k.kind == "Pod"@ {
        pod_nodes(v, ns)
    } else if k.kind == "Service"@ {
        match service_selector(v) {
            Some(sel) => seq![pods_node(sel, pods)],
            None => Seq::empty(),
        }
    } else {
        Seq::empty()
    }
}

/// The edges of what an object uses or selects.
pub open spec fn direct_edges(v: JsonView, k: KindView, ns: Option<Seq<char>>) -> Seq<EdgeView> {
    let root = root_id(v, k);
    if k.kind == "Pod"@ {
        pod_edges(v, ns, root)
    } else if k.kind == "Service"@ {
        match service_selector(v) {
            Some(sel) => seq![
                EdgeView { from: root, to: "pods:"@ + sel, label: Some("selects"@) },
            ],
            None => Seq::empty(),
        }
    } else {
        Seq::empty()
    }
}

/// The nodes of the graph of an object.
pub open spec fn graph_nodes(chain: Seq<JsonView>, k: KindView, ns: Option<Seq<char>>, pods: nat) -> Seq<NodeView> {
    seq![root_node(chain[0], k)] + owner_nodes(followed(chain)) + direct_nodes(chain[0], k, ns, pods)
}

/// The edges of the graph of an object.
pub open spec fn graph_edges(chain: Seq<JsonView>, k: KindView, ns: Option<Seq<char>>) -> Seq<EdgeView> {
    owner_edges(root_id(chain[0], k), followed(chain)) + direct_edges(chain[0], k, ns)
}

fn make_root_id(v: &Json, k: &ResourceKind) -> (r: String)
    ensures
        r@ == root_id(v@, k@),
{
    let name = text_of(v.str_of2("metadata", "name"), "");
    let mut r = cat4("root:", k.group.as_str(), ":", k.version.as_str());
    r.append(":");
    r.append(k.kind.as_str());
    r.append(":");
    r.append(name.as_str());
    r
}

fn make_owner_id(o: &Owner) -> (r: String)
    ensures
        r@ == owner_id(o@),
{
    let mut r = cat4("own:", o.group.as_str(), "/", o.version.as_str());
    r.append("/");
    r.append(o.kind.as_str());
    r.append(":");
    r.append(o.name.as_str());
    r
}

impl GraphModel {
    fn add(&mut self, node: GraphNode, edge: GraphEdge)
        ensures
            node_views(final(self).nodes@) == node_views(old(self).nodes@).push(node@),
            edge_views(final(self).edges@) == edge_views(old(self).edges@).push(edge@),
    {
        let ghost n = node_views(self.nodes@);
        let ghost e = edge_views(self.edges@);
        self.nodes.push(node);
        self.edges.push(edge);
        assert(node_views(self.nodes@) =~= n.push(node@));
        assert(edge_views(self.edges@) =~= e.push(edge@));
    }

    fn add_owners(&mut self, root: &str, owners: &Vec<Owner>)
        ensures
            node_views(final(self).nodes@) == node_views(old(self).nodes@) + owner_nodes(
                owner_views(owners@),
            ),
            edge_views(final(self).edges@) == edge_views(old(self).edges@) + owner_edges(
                root@,
                owner_views(owners@),
            ),
    {
        let ghost ov = owner_views(owners@);
        let ghost n0 = node_views(self.nodes@);
        let ghost e0 = edge_views(self.edges@);
        let mut child = copy_text(root);
        let mut i: usize = 0;
        assert(n0 + owner_nodes(ov).take(0) =~= n0);
        assert(e0 + owner_edges(root@, ov).take(0) =~= e0);
        while i < owners.len()
            invariant
                i <= owners.len(),
                ov == owner_views(owners@),
                child@ == if i == 0 {
                    root@
                } else {
                    owner_id(ov[i - 1])
                },
                node_views(self.nodes@) == n0 + owner_nodes(ov).take(i as int),
                edge_views(self.edges@) == e0 + owner_edges(root@, ov).take(i as int),
            decreases owners.len() - i,
        {
            let o = &owners[i];
            assert(ov[i as int] == o@);
            let id = make_owner_id(o);
            let node = GraphNode {
                id: id.clone(),
                label: show_owner(o),
                kind: o.kind.clone(),
                role: GraphNodeRole::OwnerChain(i + 1),
            };
            let edge = GraphEdge { from: id.clone(), to: child, label: Some(copy_text("owner")) };
            assert(node@ == owner_nodes(ov)[i as int]);
            assert(edge@ == owner_edges(root@, ov)[i as int]);
            self.add(node, edge);
            child = id;
            assert(node_views(self.nodes@) =~= n0 + owner_nodes(ov).take(i + 1));
            assert(edge_views(self.edges@) =~= e0 + owner_edges(root@, ov).take(i + 1));
            i += 1;
        }
        assert(owner_nodes(ov).take(ov.len() as int) =~= owner_nodes(ov));
        assert(owner_edges(root@, ov).take(ov.len() as int) =~= owner_edges(root@, ov));
    }

    fn add_used(&mut self, root: &str, prefix: &str, kind: &str, names: &Vec<String>)
        ensures
            node_views(final(self).nodes@) == node_views(old(self).nodes@) + used_nodes(
                prefix@,
                kind@,
                texts(names@),
            ),
            edge_views(final(self).edges@) == edge_views(old(self).edges@) + used_edges(
                prefix@,
                root@,
                texts(names@),
            ),
    {
        let ghost nv = texts(names@);
        let ghost n0 = node_views(self.nodes@);
        let ghost e0 = edge_views(self.edges@);
        let ghost nodes = used_nodes(prefix@, kind@, nv);
        let ghost edges = used_edges(prefix@, root@, nv);
        let mut i: usize = 0;
        assert(n0 + nodes.take(0) =~= n0);
        assert(e0 + edges.take(0) =~= e0);
        while i < names.len()
            invariant
                i <= names.len(),
                nv == texts(names@),
                nodes == used_nodes(prefix@, kind@, nv),
                edges == used_edges(prefix@, root@, nv),
                node_views(self.nodes@) == n0 + nodes.take(i as int),
                edge_views(self.edges@) == e0 + edges.take(i as int),
            decreases names.len() - i,
        {
            let name = names[i].as_str();
            assert(nv[i as int] == name@);
            let id = cat2(prefix, name);
            let node = used(id.clone(), kind, name);
            let edge = GraphEdge { from: id, to: copy_text(root), label: Some(copy_text("mounts")) };
            assert(node@ == nodes[i as int]);
            assert(edge@ == edges[i as int]);
            self.add(node, edge);
            assert(node_views(self.nodes@) =~= n0 + nodes.take(i + 1));
            assert(edge_views(self.edges@) =~= e0 + edges.take(i + 1));
            i += 1;
        }
        assert(nodes.take(nv.len() as int) =~= nodes);
        assert(edges.take(nv.len() as int) =~= edges);
    }

    fn add_pod(&mut self, v: &Json, ns: &Option<String>, root: &str)
        ensures
            node_views(final(self).nodes@) == node_views(old(self).nodes@) + pod_nodes(
                v@,
                opt_text(*ns),
            ),
            edge_views(final(self).edges@) == edge_views(old(self).edges@) + pod_edges(
                v@,
                opt_text(*ns),
                root@,
            ),
    {
        let ghost n0 = node_views(self.nodes@);
        let ghost e0 = edge_views(self.edges@);
        if let Some(sa) = v.str_of2("spec", "serviceAccountName") {
            let space = match ns {
                Some(s) => s.clone(),
                None => copy_text(""),
            };
            let mut id = cat4("sa:", space.as_str(), ":", "v1");
            id.append(":");
            id.append(sa);
            assert(id@ == account_id(opt_text(*ns), sa@));
            let node = used(id.clone(), "ServiceAccount", sa);
            let edge = GraphEdge { from: id, to: copy_text(root), label: Some(copy_text("uses")) };
            self.add(node, edge);
        }
        self.add_used(root, "cm:", "ConfigMap", &read_config_maps(v));
        self.add_used(root, "sec:", "Secret", &read_secrets(v));
        assert(node_views(self.nodes@) =~= n0 + pod_nodes(v@, opt_text(*ns)));
        assert(edge_views(self.edges@) =~= e0 + pod_edges(v@, opt_text(*ns), root@));
    }
}

fn used(id: String, kind: &str, name: &str) -> (r: GraphNode)
    ensures
        r@ == used_node(id@, kind@, name@),
{
    GraphNode {
        id,
        label: cat3(kind, " ", name),
        kind: copy_text(kind),
        role: GraphNodeRole::Related(copy_text(kind)),
    }
}

/// The relations of an object as a graph: `chain` holds the object and the owners that
/// were read, `pods` is how many pods its selector finds.
pub fn build_graph_model(chain: &Vec<Json>, gvk: &ResourceKind, ns: &Option<String>, pods: usize) -> (r: GraphModel)
    requires
        chain@.len() > 0,
    ensures
        node_views(r.nodes@) == graph_nodes(json_views(chain@), gvk@, opt_text(*ns), pods as nat),
        edge_views(r.edges@) == graph_edges(json_views(chain@), gvk@, opt_text(*ns)),
{
    let v = &chain[0];
    let ghost cv = json_views(chain@);
    assert(cv[0] == v@);
    let root = make_root_id(v, gvk);
    let mut m = GraphModel { nodes: Vec::new(), edges: Vec::new() };
    m.nodes.push(
        GraphNode {
            id: root.clone(),
            label: show_root(v, gvk),
            kind: gvk.kind.clone(),
            role: GraphNodeRole::Root,
        },
    );
    assert(node_views(m.nodes@) =~= seq![root_node(v@, gvk@)]);
    assert(edge_views(m.edges@) =~= Seq::empty());
    let owners = follow(chain);
    m.add_owners(root.as_str(), &owners);
    let ghost n1 = node_views(m.nodes@);
    let ghost e1 = edge_views(m.edges@);
    if same_text(gvk.kind.as_str(), "Pod") {
        m.add_pod(v, ns, root.as_str());
    } else if same_text(gvk.kind.as_str(), "Service") {
        assert("Service"@ != "Pod"@) by {
            reveal_strlit("Service");
            reveal_strlit("Pod");
        }
        if let Some(sel) = pod_selector(v) {
            let label = if sel.as_str().is_empty() {
                copy_text("Pods")
            } else {
                let n = usize_text(pods);
                cat3("Pods (", n.as_str(), ")")
            };
            let id = cat2("pods:", sel.as_str());
            let node = GraphNode {
                id: id.clone(),
                label,
                kind: copy_text("Pods"),
                role: GraphNodeRole::Related(copy_text("Pods")),
            };
            let edge = GraphEdge { from: root, to: id, label: Some(copy_text("selects")) };
            m.add(node, edge);
        }
    }
    assert(node_views(m.nodes@) =~= n1 + direct_nodes(v@, gvk@, opt_text(*ns), pods as nat));
    assert(edge_views(m.edges@) =~= e1 + direct_edges(v@, gvk@, opt_text(*ns)));
    assert(edge_views(m.edges@) =~= graph_edges(cv, gvk@, opt_text(*ns)));
    m
}

// ---------------------------------------------------------------------------
// The task

/// What is to be done where the relations of an object are asked for: the task to stop,
/// and the object to read.
pub struct GraphStart {
    pub abort: Option<Handle>,
    pub stop: Option<Handle>,
    pub reference: Option<ResourceRef>,
}

/// What names the object of a row of the chosen kind.
pub open spec fn row_reference(a: App, key: u128, r: Option<ResourceRef>) -> bool {
    match (selected_kind(a), row_of(table(a.results), key)) {
        (Some(k), Some(row)) => r matches Some(x) && refers(x, k, row),
        _ => r is None,
    }
}

impl App {
    /// What names the object of a row of the chosen kind.
    pub fn reference_of(&self, uid: &Uid) -> (r: Option<ResourceRef>)
        ensures
            row_reference(*self, uid_key(*uid), r),
    {
        match self.current_selected_kind() {
            None => None,
            Some(k) => match self.results.find(uid) {
                None => None,
                Some(row) => Some(
                    ResourceRef {
                        cluster: None,
                        gvk: k.clone(),
                        namespace: clone_option(&row.namespace),
                        name: row.name.clone(),
                    },
                ),
            },
        }
    }

    /// Ask for the relations of an object. The previous task is to stop; nothing runs where
    /// the object is not known.
    pub fn start_graph_task(&mut self, uid: Uid) -> (r: GraphStart)
        ensures
            r.abort == old(self).graph.task,
            r.stop == old(self).graph.stop,
            row_reference(*old(self), uid_key(uid), r.reference),
            *final(self) == (App {
                graph: GraphState {
                    task: None,
                    stop: None,
                    running: r.reference is Some,
                    text: final(self).graph.text,
                    error: None,
                    uid: Some(uid),
                    ..old(self).graph
                },
                ..*old(self)
            }),
            final(self).graph.text@ == Seq::<char>::empty(),
    {
        let reference = self.reference_of(&uid);
        let abort = self.graph.task;
        let stop = self.graph.stop;
        self.graph.task = None;
        self.graph.stop = None;
        self.graph.running = reference.is_some();
        self.graph.text = String::new();
        self.graph.error = None;
        self.graph.uid = Some(uid);
        GraphStart { abort, stop, reference }
    }
}

/// The object that bytes hold, or the bytes as text where they hold none.
pub fn graph_reply(bytes: &[u8]) -> (r: Result<Json, String>)
    ensures
        match r {
            Ok(v) => json_read(bytes@) == Some(v@),
            Err(t) => json_read(bytes@) is None && t@ == lossy(bytes@),
        },
{
    match parse_json(bytes) {
        Some(v) => Ok(v),
        None => Err(lossy_text(bytes)),
    }
}

// ---------------------------------------------------------------------------
// On the screen

/// A group of nodes of one kind, each with its name and its label.
pub struct NodeGroup {
    pub kind: String,
    pub items: Vec<(String, String)>,
}

/// The model of a `NodeGroup`.
pub struct GroupView {
    pub kind: Seq<char>,
    pub items: Seq<(Seq<char>, Seq<char>)>,
}

/// The texts of a list of pairs.
pub open spec fn pair_views(v: Seq<(String, String)>) -> Seq<(Seq<char>, Seq<char>)> {
    v.map_values(|p: (String, String)| (p.0@, p.1@))
}

impl View for NodeGroup {
    type V = GroupView;

    open spec fn view(&self) -> GroupView {
        GroupView { kind: self.kind@, items: pair_views(self.items@) }
    }
}

/// The models of a list of groups.
pub open spec fn group_views(v: Seq<NodeGroup>) -> Seq<GroupView> {
    v.map_values(|g: NodeGroup| g@)
}

/// Groups in ascending order of their kinds, with one more node.
pub open spec fn group_add(gs: Seq<GroupView>, kind: Seq<char>, item: (Seq<char>, Seq<char>)) -> Seq<GroupView>
    decreases gs.len(),
{
    if gs.len() == 0 {
        seq![GroupView { kind, items: seq![item] }]
    } else if gs.last().kind == kind {
        gs.drop_last().push(GroupView { kind, items: gs.last().items.push(item) })
    } else if text_lt(kind, gs.last().kind) {
        group_add(gs.drop_last(), kind, item).push(gs.last())
    } else {
        gs.push(GroupView { kind, items: seq![item] })
    }
}

/// The groups of the related nodes.
pub open spec fn related_groups(nodes: Seq<NodeView>) -> Seq<GroupView>
    decreases nodes.len(),
{
    if nodes.len() == 0 {
        Seq::empty()
    } else {
        let rest = related_groups(nodes.drop_last());
        match nodes.last().role {
            RoleView::Related(_) => group_add(
                rest,
                nodes.last().kind,
                (nodes.last().id, nodes.last().label),
            ),
            _ => rest,
        }
    }
}

/// The node of the object itself: the last one of that part, with its name and label.
pub open spec fn root_of(nodes: Seq<NodeView>) -> Option<(Seq<char>, Seq<char>)>
    decreases nodes.len(),
{
    if nodes.len() == 0 {
        None
    } else if nodes.last().role is Root {
        Some((nodes.last().id, nodes.last().label))
    } else {
        root_of(nodes.drop_last())
    }
}

fn add_to_groups(gs: &mut Vec<NodeGroup>, kind: &str, id: &str, label: &str)
    ensures
        group_views(final(gs)@) == group_add(group_views(old(gs)@), kind@, (id@, label@)),
{
    let ghost all = group_views(gs@);
    let ghost item = (id@, label@);
    let mut i: usize = gs.len();
    assert(all.take(all.len() as int) =~= all);
    assert(group_add(all, kind@, item) + all.skip(all.len() as int) =~= group_add(all, kind@, item));
    while i > 0 && text_less(kind, gs[i - 1].kind.as_str())
        invariant
            i <= gs.len(),
            all == group_views(gs@),
            item == (id@, label@),
            group_add(all, kind@, item) == group_add(all.take(i as int), kind@, item) + all.skip(
                i as int,
            ),
        ensures
            group_add(all, kind@, item) == group_add(all.take(i as int), kind@, item) + all.skip(
                i as int,
            ),
            i == 0 || !text_lt(kind@, all[i - 1].kind),
        decreases i,
    {
        let ghost t = all.take(i as int);
        assert(t.last() == gs@[i - 1]@);
        assert(t.drop_last() =~= all.take(i - 1));
        proof {
            crate::order::lemma_lex_irreflexive(crate::order::codes(kind@));
        }
        assert(group_add(all.take(i - 1), kind@, item).push(all[i - 1]) + all.skip(i as int)
            =~= group_add(all.take(i - 1), kind@, item) + all.skip(i - 1));
        i -= 1;
    }
    let ghost t = all.take(i as int);
    if i > 0 && same_text(gs[i - 1].kind.as_str(), kind) {
        assert(t.last() == gs@[i - 1]@);
        let ghost g0 = gs@[i - 1]@;
        let ghost before = gs@;
        gs[i - 1].items.push((copy_text(id), copy_text(label)));
        assert(gs@[i - 1]@.items =~= g0.items.push(item));
        assert(group_views(gs@) =~= t.drop_last().push(
            GroupView { kind: kind@, items: g0.items.push(item) },
        ) + all.skip(i as int));
    } else {
        let mut items: Vec<(String, String)> = Vec::new();
        items.push((copy_text(id), copy_text(label)));
        assert(pair_views(items@) =~= seq![item]);
        let ghost fresh = GroupView { kind: kind@, items: seq![item] };
        if i > 0 {
            assert(t.last() == gs@[i - 1]@);
        } else {
            assert(t =~= Seq::empty());
            assert(t.push(fresh) =~= seq![fresh]);
        }
        gs.insert(i, NodeGroup { kind: copy_text(kind), items });
        assert(group_views(gs@) =~= t.push(fresh) + all.skip(i as int));
    }
}

/// A graph sorted for the screen: its root, its owners by their distance, and the related
/// nodes by their kind.
pub struct GraphParts {
    pub root: Option<(String, String)>,
    pub owners: Vec<(String, usize, String)>,
    pub groups: Vec<NodeGroup>,
}

/// The owners among the nodes, each with its name, its distance and its label.
pub open spec fn owners_among(nodes: Seq<NodeView>) -> Seq<(Seq<char>, nat, Seq<char>)>
    decreases nodes.len(),
{
    if nodes.len() == 0 {
        Seq::empty()
    } else {
        let rest = owners_among(nodes.drop_last());
        match nodes.last().role {
            RoleView::OwnerChain(d) => insert_owner(rest, (nodes.last().id, d, nodes.last().label)),
            _ => rest,
        }
    }
}

/// Owners by their distance with one more, behind those of the same distance.
pub open spec fn insert_owner(s: Seq<(Seq<char>, nat, Seq<char>)>, o: (Seq<char>, nat, Seq<char>)) -> Seq<
    (Seq<char>, nat, Seq<char>),
>
    decreases s.len(),
{
    if s.len() > 0 && o.1 < s.last().1 {
        insert_owner(s.drop_last(), o).push(s.last())
    } else {
        s.push(o)
    }
}

/// The models of a list of owners with their distances.
pub open spec fn chain_views(v: Seq<(String, usize, String)>) -> Seq<(Seq<char>, nat, Seq<char>)> {
    v.map_values(|o: (String, usize, String)| (o.0@, o.1 as nat, o.2@))
}

fn add_owner(v: &mut Vec<(String, usize, String)>, o: (String, usize, String))
    ensures
        chain_views(final(v)@) == insert_owner(chain_views(old(v)@), (o.0@, o.1 as nat, o.2@)),
{
    let ghost s = chain_views(v@);
    let ghost ov = (o.0@, o.1 as nat, o.2@);
    let mut i: usize = v.len();
    let ghost whole = v@;
    assert(s.take(s.len() as int) =~= s);
    assert(insert_owner(s, ov) + s.skip(s.len() as int) =~= insert_owner(s, ov));
    while i > 0 && o.1 < v[i - 1].1
        invariant
            i <= v.len(),
            v@ == whole,
            s == chain_views(whole),
            ov == (o.0@, o.1 as nat, o.2@),
            insert_owner(s, ov) == insert_owner(s.take(i as int), ov) + s.skip(i as int),
        ensures
            insert_owner(s, ov) == s.take(i as int).push(ov) + s.skip(i as int),
        decreases i,
    {
        assert(s.take(i as int).last() == s[i - 1]);
        assert(s.take(i as int).drop_last() =~= s.take(i - 1));
        assert(insert_owner(s.take(i - 1), ov).push(s[i - 1]) + s.skip(i as int) =~= insert_owner(
            s.take(i - 1),
            ov,
        ) + s.skip(i - 1));
        i -= 1;
    }
    v.insert(i, o);
    assert(chain_views(v@) =~= s.take(i as int).push(ov) + s.skip(i as int));
}

impl GraphModel {
    /// The graph sorted for the screen.
    pub fn parts(&self) -> (r: GraphParts)
        ensures
            match r.root {
                Some((id, label)) => root_of(node_views(self.nodes@)) == Some((id@, label@)),
                None => root_of(node_views(self.nodes@)) is None,
            },
            chain_views(r.owners@) == owners_among(node_views(self.nodes@)),
            group_views(r.groups@) == related_groups(node_views(self.nodes@)),
    {
        let ghost all = node_views(self.nodes@);
        let mut root: Option<(String, String)> = None;
        let mut owners: Vec<(String, usize, String)> = Vec::new();
        let mut groups: Vec<NodeGroup> = Vec::new();
        let mut i: usize = 0;
        assert(all.take(0) =~= Seq::empty());
        assert(chain_views(owners@) =~= Seq::empty());
        assert(group_views(groups@) =~= Seq::empty());
        while i < self.nodes.len()
            invariant
                i <= self.nodes.len(),
                all == node_views(self.nodes@),
                match root {
                    Some((id, label)) => root_of(all.take(i as int)) == Some((id@, label@)),
                    None => root_of(all.take(i as int)) is None,
                },
                chain_views(owners@) == owners_among(all.take(i as int)),
                group_views(groups@) == related_groups(all.take(i as int)),
            decreases self.nodes.len() - i,
        {
            let node = &self.nodes[i];
            assert(all.take(i + 1).drop_last() =~= all.take(i as int));
            assert(all.take(i + 1).last() == node@);
            match &node.role {
                GraphNodeRole::Root => {
                    root = Some((node.id.clone(), node.label.clone()));
                },
                GraphNodeRole::OwnerChain(d) => {
                    add_owner(&mut owners, (node.id.clone(), *d, node.label.clone()));
                },
                GraphNodeRole::Related(_) => {
                    add_to_groups(
                        &mut groups,
                        node.kind.as_str(),
                        node.id.as_str(),
                        node.label.as_str(),
                    );
                },
            }
            i += 1;
        }
        assert(all.take(all.len() as int) =~= all);
        GraphParts { root, owners, groups }
    }
}

/// How many nodes of a group are listed.
pub const GROUP_SHOWN: usize = 8;

/// The label of a group.
pub open spec fn group_label(g: GroupView) -> Seq<char> {
    g.kind + " ("@ + dec(g.items.len()) + ")"@
}

/// The line below the nodes of a group that are listed, where there are more.
pub open spec fn more_label(g: GroupView) -> Option<Seq<char>> {
    if g.items.len() > GROUP_SHOWN {
        Some("+"@ + dec((g.items.len() - GROUP_SHOWN) as nat) + " more"@)
    } else {
        None
    }
}

impl NodeGroup {
    /// The label of the group.
    pub fn label(&self) -> (r: String)
        ensures
            r@ == group_label(self@),
    {
        let n = usize_text(self.items.len());
        cat4(self.kind.as_str(), " (", n.as_str(), ")")
    }

    /// The line below the nodes that are listed, where there are more.
    pub fn more(&self) -> (r: Option<String>)
        ensures
            opt_text(r) == more_label(self@),
    {
        if self.items.len() > GROUP_SHOWN {
            let n = usize_text(self.items.len() - GROUP_SHOWN);
            Some(cat3("+", n.as_str(), " more"))
        } else {
            None
        }
    }
}

/// The colour of a group, by its kind; the colour of a link for any other.
pub open spec fn group_color(kind: Seq<char>) -> Option<(u8, u8, u8)> {
    if kind == "Pods"@ {
        Some((86, 204, 149))
    } else if kind == "ServiceAccount"@ {
        Some((86, 156, 214))
    } else if kind == "ConfigMap"@ {
        Some((255, 206, 86))
    } else if kind == "Secret"@ {
        Some((209, 99, 196))
    } else if kind == "Service"@ {
        Some((255, 159, 64))
    } else {
        None
    }
}

/// The colour of a group, by its kind.
pub fn color_of_group(kind: &str) -> (r: Option<(u8, u8, u8)>)
    ensures
        r == group_color(kind@),
{
    if same_text(kind, "Pods") {
        Some((86, 204, 149))
    } else if same_text(kind, "ServiceAccount") {
        Some((86, 156, 214))
    } else if same_text(kind, "ConfigMap") {
        Some((255, 206, 86))
    } else if same_text(kind, "Secret") {
        Some((209, 99, 196))
    } else if same_text(kind, "Service") {
        Some((255, 159, 64))
    } else {
        None
    }
}

/// The object that a node stands for, by the name of the node: its kind, its namespace and
/// its name. `ns` is the namespace of the object whose graph it is.
pub open spec fn node_target(id: Seq<char>, ns: Seq<char>) -> Option<(KindView, Seq<char>, Seq<char>)> {
    match after_prefix(id, "cm:"@) {
        Some(rest) => Some((core_kind("v1"@, "ConfigMap"@), ns, rest)),
        None => match after_prefix(id, "sec:"@) {
            Some(rest) => Some((core_kind("v1"@, "Secret"@), ns, rest)),
            None => match after_prefix(id, "sa:"@) {
                Some(rest) => {
                    let p = split(rest, ':');
                    if p.len() == 3 {
                        Some((core_kind(p[1], "ServiceAccount"@), p[0], p[2]))
                    } else {
                        None
                    }
                },
                None => None,
            },
        },
    }
}

/// A namespaced kind of the core group.
pub open spec fn core_kind(version: Seq<char>, kind: Seq<char>) -> KindView {
    KindView { group: Seq::empty(), version, kind, namespaced: true }
}

fn core_resource(version: &str, kind: &str) -> (r: ResourceKind)
    ensures
        r@ == core_kind(version@, kind@),
{
    let r = ResourceKind {
        group: String::new(),
        version: copy_text(version),
        kind: copy_text(kind),
        namespaced: true,
    };
    assert(r@.group =~= Seq::empty());
    r
}

/// The object that a node stands for, by the name of the node.
pub fn target_of_node(id: &str, ns: &str) -> (r: Option<(ResourceKind, String, String)>)
    ensures
        match r {
            Some((k, n, name)) => node_target(id@, ns@) == Some((k@, n@, name@)),
            None => node_target(id@, ns@) is None,
        },
{
    if let Some(rest) = strip_prefix(id, "cm:") {
        return Some((core_resource("v1", "ConfigMap"), copy_text(ns), rest));
    }
    if let Some(rest) = strip_prefix(id, "sec:") {
        return Some((core_resource("v1", "Secret"), copy_text(ns), rest));
    }
    match strip_prefix(id, "sa:") {
        Some(rest) => {
            let p = split_char(rest.as_str(), ':');
            if p.len() == 3 {
                assert(texts(p@)[0] == p@[0]@ && texts(p@)[1] == p@[1]@ && texts(p@)[2] == p@[2]@);
                Some((core_resource(p[1].as_str(), "ServiceAccount"), p[0].clone(), p[2].clone()))
            } else {
                None
            }
        },
        None => None,
    }
}

/// The namespace of the selected row; empty where there is none.
pub open spec fn selected_namespace(a: App) -> Seq<char> {
    match a.details.selected {
        Some(u) => match row_of(table(a.results), uid_key(u)) {
            Some(row) => or_text(row.namespace, Seq::empty()),
            None => Seq::empty(),
        },
        None => Seq::empty(),
    }
}

impl App {
    /// The namespace of the selected row.
    pub fn namespace_of_selected(&self) -> (r: String)
        ensures
            r@ == selected_namespace(*self),
    {
        match &self.details.selected {
            Some(u) => match self.results.find(u) {
                Some(row) => match &row.namespace {
                    Some(n) => n.clone(),
                    None => String::new(),
                },
                None => String::new(),
            },
            None => String::new(),
        }
    }

    /// Go to the object that a node stands for, where it stands for one: its kind and its
    /// namespace are chosen, and it is opened once its row is there.
    pub fn open_node(&mut self, id: &str)
        ensures
            match node_target(id@, selected_namespace(*old(self))) {
                Some((k, ns, name)) => {
                    &&& *final(self) == (App {
                        selection: SelectionState {
                            selected_kind: final(self).selection.selected_kind,
                            selected_idx: None,
                            namespace: final(self).selection.namespace,
                            ..old(self).selection
                        },
                        graph: GraphState {
                            pending_open: final(self).graph.pending_open,
                            ..old(self).graph
                        },
                        ..*old(self)
                    })
                    &&& final(self).selection.selected_kind matches Some(x) && x@ == k
                    &&& final(self).selection.namespace@ == ns
                    &&& final(self).graph.pending_open matches Some((x, n, m)) && x@ == k && n@ == ns
                        && m@ == name
                },
                None => *final(self) == *old(self),
            },
    {
        let ns = self.namespace_of_selected();
        if let Some((rk, ns, name)) = target_of_node(id, ns.as_str()) {
            self.selection.selected_kind = Some(rk.clone());
            self.selection.selected_idx = None;
            self.selection.namespace = ns.clone();
            self.graph.pending_open = Some((rk, ns, name));
        }
    }
}

/// A config map node leads to the config map of its name, in the namespace of the object.
pub proof fn law_config_map_node(name: Seq<char>, ns: Seq<char>)
    ensures
        node_target("cm:"@ + name, ns) == Some((core_kind("v1"@, "ConfigMap"@), ns, name)),
{
    reveal_strlit("cm:");
    let id = "cm:"@ + name;
    assert(id.take("cm:"@.len() as int) =~= "cm:"@);
    assert(id.skip("cm:"@.len() as int) =~= name);
}

/// A secret node leads to the secret of its name, in the namespace of the object.
pub proof fn law_secret_node(name: Seq<char>, ns: Seq<char>)
    ensures
        node_target("sec:"@ + name, ns) == Some((core_kind("v1"@, "Secret"@), ns, name)),
{
    reveal_strlit("cm:");
    reveal_strlit("sec:");
    let id = "sec:"@ + name;
    assert(id[0] == 's');
    assert(id.take("sec:"@.len() as int) =~= "sec:"@);
    assert(id.skip("sec:"@.len() as int) =~= name);
}

/// The node of a service account leads to the account, where neither its namespace nor its
/// name holds a colon.
pub proof fn law_account_node(ns0: Seq<char>, name: Seq<char>, ns: Seq<char>)
    requires
        !ns0.contains(':'),
        !name.contains(':'),
    ensures
        node_target(account_id(Some(ns0), name), ns) == Some(
            (core_kind("v1"@, "ServiceAccount"@), ns0, name),
        ),
{
    reveal_strlit("cm:");
    reveal_strlit("sec:");
    reveal_strlit("sa:");
    reveal_strlit(":");
    reveal_strlit("v1");
    let id = account_id(Some(ns0), name);
    let rest = ns0 + ":"@ + "v1"@ + ":"@ + name;
    assert(id =~= "sa:"@ + rest);
    assert(id[0] == 's' && id[1] == 'a');
    assert(id.take("sa:"@.len() as int) =~= "sa:"@);
    assert(id.skip("sa:"@.len() as int) =~= rest);
    let tail = "v1"@.push(':') + name;
    assert(rest =~= ns0.push(':') + tail);
    lemma_split_concat(ns0, ':', tail);
    assert(!"v1"@.contains(':'));
    lemma_split_concat("v1"@, ':', name);
    lemma_split_single(ns0, ':');
    lemma_split_single("v1"@, ':');
    lemma_split_single(name, ':');
    assert(split(rest, ':') =~= seq![ns0, "v1"@, name]);
    assert(or_text(Some(ns0), ""@) == ns0);
}

/// Whether a graph has a node of a name.
pub open spec fn has_node(nodes: Seq<NodeView>, id: Seq<char>) -> bool {
    exists|i: int| 0 <= i < nodes.len() && (#[trigger] nodes[i]).id == id
}

/// Every edge of the graph of an object joins two of its nodes.
pub proof fn law_edges_join_nodes(chain: Seq<JsonView>, k: KindView, ns: Option<Seq<char>>, pods: nat, j: int)
    requires
        0 <= j < graph_edges(chain, k, ns).len(),
    ensures
        has_node(graph_nodes(chain, k, ns, pods), graph_edges(chain, k, ns)[j].from),
        has_node(graph_nodes(chain, k, ns, pods), graph_edges(chain, k, ns)[j].to),
{
    let nodes = graph_nodes(chain, k, ns, pods);
    let edges = graph_edges(chain, k, ns);
    let v = chain[0];
    let n = followed(chain).len() as int;
    assert(nodes[0] == root_node(v, k));
    if j < n {
        assert(nodes[1 + j] == owner_nodes(followed(chain))[j]);
        assert(nodes[1 + j].id == edges[j].from);
        if j > 0 {
            assert(nodes[j] == owner_nodes(followed(chain))[j - 1]);
            assert(nodes[j].id == edges[j].to);
        } else {
            assert(nodes[0].id == edges[j].to);
        }
    } else {
        let d = j - n;
        let dn = direct_nodes(v, k, ns, pods);
        let de = direct_edges(v, k, ns);
        assert(edges[j] == de[d]);
        assert(nodes[1 + n + d] == dn[d]);
        if k.kind == "Pod"@ {
            let a: int = if v.str_of2("spec"@, "serviceAccountName"@) is Some {
                1
            } else {
                0
            };
            let c = config_maps(v).len() as int;
            assert(dn[d].id == de[d].from) by {
                if a <= d < a + c {
                    assert(dn[d] == used_nodes("cm:"@, "ConfigMap"@, config_maps(v))[d - a]);
                } else if d >= a + c {
                    assert(dn[d] == used_nodes("sec:"@, "Secret"@, secrets(v))[d - a - c]);
                }
            }
            assert(nodes[1 + n + d].id == edges[j].from);
            assert(nodes[0].id == edges[j].to);
        } else {
            assert(nodes[0].id == edges[j].from);
            assert(nodes[1 + n + d].id == edges[j].to);
        }
    }
}

// ---------------------------------------------------------------------------
// Whom an object belongs to, and what it uses

/// The owner that counts is the first that controls the object; where none does, the first of
/// all. It keeps its kind and its name.
pub proof fn law_owner(v: JsonView, a: Seq<JsonView>, i: int, kind: Seq<char>, name: Seq<char>)
    requires
        v.array_of2("metadata"@, "ownerReferences"@) == Some(a),
        0 <= i < a.len(),
        a[i].flag_of("controller"@) == Some(true) || (i == 0 && forall|k: int|
            0 <= k < a.len() ==> (#[trigger] a[k]).flag_of("controller"@) != Some(true)),
        forall|k: int| 0 <= k < i ==> (#[trigger] a[k]).flag_of("controller"@) != Some(true),
        a[i].str_of("kind"@) == Some(kind),
        a[i].str_of("name"@) == Some(name),
    ensures
        owner_of(v) matches Some(o) && o.kind == kind && o.name == name,
{
    lemma_first_controller(a, i);
}

/// An object without owner references belongs to nothing.
pub proof fn law_no_owner(v: JsonView)
    ensures
        v.array_of2("metadata"@, "ownerReferences"@) is None ==> owner_of(v) is None,
        v.array_of2("metadata"@, "ownerReferences"@) == Some(Seq::<JsonView>::empty()) ==> owner_of(v) is None,
{
}

proof fn lemma_first_controller(a: Seq<JsonView>, i: int)
    requires
        0 <= i < a.len(),
        forall|k: int| 0 <= k < i ==> (#[trigger] a[k]).flag_of("controller"@) != Some(true),
    ensures
        a[i].flag_of("controller"@) == Some(true) ==> first_controller(a) == Some(a[i]),
        (forall|k: int| 0 <= k < a.len() ==> (#[trigger] a[k]).flag_of("controller"@) != Some(true))
            ==> first_controller(a) is None,
    decreases a.len(),
{
    let rest = a.skip(1);
    if i > 0 {
        assert(!is_controller(a[0]));
        assert forall|k: int| 0 <= k < i - 1 implies (#[trigger] rest[k]).flag_of("controller"@) != Some(true) by {
            assert(rest[k] == a[k + 1]);
        }
        lemma_first_controller(rest, i - 1);
        if forall|k: int| 0 <= k < a.len() ==> (#[trigger] a[k]).flag_of("controller"@) != Some(true) {
            assert forall|k: int| 0 <= k < rest.len() implies (#[trigger] rest[k]).flag_of("controller"@) != Some(
                true,
            ) by {
                assert(rest[k] == a[k + 1]);
            }
        }
    } else if rest.len() > 0 {
        lemma_first_controller(rest, 0);
        if forall|k: int| 0 <= k < a.len() ==> (#[trigger] a[k]).flag_of("controller"@) != Some(true) {
            assert forall|k: int| 0 <= k < rest.len() implies (#[trigger] rest[k]).flag_of("controller"@) != Some(
                true,
            ) by {
                assert(rest[k] == a[k + 1]);
            }
            assert(!is_controller(a[0]));
        }
    } else if forall|k: int| 0 <= k < a.len() ==> (#[trigger] a[k]).flag_of("controller"@) != Some(true) {
        assert(!is_controller(a[0]));
        assert(first_controller(rest) is None);
    }
}

/// What stands before the slash of an API version is the group, and what stands behind it the
/// version; without a slash all of it is the version, of the core group.
pub proof fn law_api_parts(group: Seq<char>, version: Seq<char>)
    ensures
        !group.contains('/') ==> api_parts(group + "/"@ + version) == (group, version),
        !version.contains('/') ==> api_parts(version) == (Seq::<char>::empty(), version),
{
    reveal_strlit("/");
    let s = group + "/"@ + version;
    if !group.contains('/') {
        assert forall|k: int| 0 <= k < group.len() implies s[k] != '/' by {
            assert(group[k] == s[k]);
            assert(group.contains(group[k]));
        }
        lemma_first_at(s, '/', group.len() as int);
        assert(s.take(group.len() as int) =~= group);
        assert(s.skip(group.len() as int + 1) =~= version);
    }
    if !version.contains('/') {
        assert forall|k: int| 0 <= k < version.len() implies version[k] != '/' by {
            assert(version.contains(version[k]));
        }
        lemma_first_at(version, '/', version.len() as int);
    }
}

proof fn lemma_owners_of(chain: Seq<JsonView>, i: int)
    requires
        0 <= i < owners_of(chain).len(),
    ensures
        owners_of(chain).len() <= chain.len(),
        owner_of(chain[i]) == Some(owners_of(chain)[i]),
    decreases chain.len(),
{
    if i > 0 {
        lemma_owners_of(chain.skip(1), i - 1);
    } else if owners_of(chain.skip(1)).len() > 0 {
        lemma_owners_of(chain.skip(1), 0);
    }
}

/// Each owner that is shown is the owner of the object before it in the chain, and no more are
/// followed than the limit.
pub proof fn law_owner_chain(chain: Seq<JsonView>, i: int)
    requires
        0 <= i < followed(chain).len(),
    ensures
        followed(chain).len() <= OWNER_LIMIT,
        owner_of(chain[i]) == Some(followed(chain)[i]),
{
    let c = if chain.len() <= OWNER_LIMIT {
        chain
    } else {
        chain.take(OWNER_LIMIT as int)
    };
    lemma_owners_of(c, i);
}

/// The edges of the chain lead from each owner to what it owns: the first to the object itself,
/// and each other one to the owner before it.
pub proof fn law_owner_edges(chain: Seq<JsonView>, k: KindView, ns: Option<Seq<char>>, pods: nat, i: int)
    requires
        0 <= i < followed(chain).len(),
    ensures
        graph_edges(chain, k, ns)[i].from == graph_nodes(chain, k, ns, pods)[i + 1].id,
        graph_edges(chain, k, ns)[i].to == graph_nodes(chain, k, ns, pods)[i].id,
        graph_nodes(chain, k, ns, pods)[0].role is Root,
        graph_nodes(chain, k, ns, pods)[i + 1].kind == followed(chain)[i].kind,
        graph_nodes(chain, k, ns, pods)[i + 1].role == RoleView::OwnerChain((i + 1) as nat),
{
    let own = owner_nodes(followed(chain));
    let nodes = graph_nodes(chain, k, ns, pods);
    assert(nodes[i + 1] == own[i]);
    if i > 0 {
        assert(nodes[i] == own[i - 1]);
    }
}

/// A pod is shown with each configuration map and each secret that one of its volumes mounts,
/// and with no other; each is listed once, in order.
pub proof fn law_pod_uses(v: JsonView, a: Seq<JsonView>, name: Seq<char>)
    requires
        v.array_of2("spec"@, "volumes"@) == Some(a),
    ensures
        config_maps(v).contains(name) <==> exists|i: int|
            0 <= i < a.len() && (#[trigger] a[i]).str_of2("configMap"@, "name"@) == Some(name),
        secrets(v).contains(name) <==> exists|i: int| 0 <= i < a.len() && volume_secret(#[trigger] a[i]) == Some(name),
        strictly_ascends(config_maps(v)),
        strictly_ascends(secrets(v)),
{
    let f = |x: JsonView| volume_config_map(x);
    let g = |x: JsonView| volume_secret(x);
    law_sorted_unique(collect(a, f));
    law_sorted_unique(collect(a, g));
    lemma_collect_contains(a, f, name);
    lemma_collect_contains(a, g, name);
    if config_maps(v).contains(name) {
        let i = choose|i: int| 0 <= i < a.len() && f(#[trigger] a[i]) == Some(name);
        assert(a[i].str_of2("configMap"@, "name"@) == Some(name));
    }
    if exists|i: int| 0 <= i < a.len() && (#[trigger] a[i]).str_of2("configMap"@, "name"@) == Some(name) {
        let i = choose|i: int| 0 <= i < a.len() && (#[trigger] a[i]).str_of2("configMap"@, "name"@) == Some(name);
        assert(f(a[i]) == Some(name));
    }
    if secrets(v).contains(name) {
        let i = choose|i: int| 0 <= i < a.len() && g(#[trigger] a[i]) == Some(name);
        assert(volume_secret(a[i]) == Some(name));
    }
    if exists|i: int| 0 <= i < a.len() && volume_secret(#[trigger] a[i]) == Some(name) {
        let i = choose|i: int| 0 <= i < a.len() && volume_secret(#[trigger] a[i]) == Some(name);
        assert(g(a[i]) == Some(name));
    }
}

/// A volume names its secret under one of two keys; the first of them counts where it is there.
pub proof fn law_volume_secret(vol: JsonView, name: Seq<char>)
    ensures
        vol.str_of2("secret"@, "secretName"@) == Some(name) ==> volume_secret(vol) == Some(name),
        vol.get2("secret"@, "secretName"@) is None && vol.str_of2("secret"@, "name"@) == Some(name) ==> volume_secret(
            vol,
        ) == Some(name),
        vol.get("secret"@) is None ==> volume_secret(vol) is None,
{
}

/// What a pod uses is joined to it: the edges lead to the pod from nodes of their own, and name
/// what they mean.
pub proof fn law_used_edges(v: JsonView, ns: Option<Seq<char>>, root: Seq<char>, sa: Seq<char>)
    requires
        v.str_of2("spec"@, "serviceAccountName"@) == Some(sa),
    ensures
        pod_nodes(v, ns).len() == pod_edges(v, ns, root).len(),
        forall|i: int|
            0 <= i < pod_edges(v, ns, root).len() ==> (#[trigger] pod_edges(v, ns, root)[i]).to == root && pod_edges(
                v,
                ns,
                root,
            )[i].from == pod_nodes(v, ns)[i].id,
        pod_nodes(v, ns)[0].kind == "ServiceAccount"@,
        pod_edges(v, ns, root)[0].label == Some("uses"@),
        forall|i: int| 1 <= i < pod_edges(v, ns, root).len() ==> (#[trigger] pod_edges(v, ns, root)[i]).label == Some(
            "mounts"@,
        ),
{
}

/// A selector asks for each of its labels, joined by commas.
pub proof fn law_selector(k: Seq<char>, t: Seq<char>)
    ensures
        selector_text(seq![(k, JsonView::Str(t))]) == k + "="@ + t,
        selector_text(Seq::empty()) == Seq::<char>::empty(),
{
    let m = seq![(k, JsonView::Str(t))];
    assert(m.drop_last() =~= Seq::empty());
    assert(requirements(m.drop_last()) =~= Seq::empty());
    let r = seq![k + "="@ + t];
    assert(requirements(m) =~= r);
    assert(r.drop_last() =~= Seq::empty());
    assert(sorted_texts(r.drop_last()) =~= Seq::empty());
    assert(sorted_texts(r) =~= r);
    assert(join(r, ","@) =~= r[0]);
}

/// The object itself is shown with its kind, and with its namespace where its kind has one.
pub proof fn law_root_label(v: JsonView, k: KindView, ns: Seq<char>, name: Seq<char>)
    requires
        v.str_of2("metadata"@, "name"@) == Some(name),
        v.str_of2("metadata"@, "namespace"@) == Some(ns),
    ensures
        k.namespaced ==> root_label(v, k) == k.kind + " "@ + ns + "/"@ + name,
        !k.namespaced ==> root_label(v, k) == k.kind + " "@ + name,
{
}

proof fn lemma_group_add(gs: Seq<GroupView>, kind: Seq<char>, item: (Seq<char>, Seq<char>), k: Seq<char>, x: (Seq<char>, Seq<char>))
    ensures
        in_group(group_add(gs, kind, item), k, x) <==> in_group(gs, k, x) || (k == kind && x == item),
    decreases gs.len(),
{
    let all = group_add(gs, kind, item);
    if gs.len() == 0 {
        assert(all[0].items[0] == item);
        if k == kind && x == item {
            assert(all[0].items.contains(x));
        }
    } else {
        let d = gs.drop_last();
        assert(gs =~= d.push(gs.last()));
        if gs.last().kind == kind {
            let items = gs.last().items.push(item);
            let n = gs.len() - 1;
            assert(all[n].items == items);
            if k == kind && x == item {
                assert(items[items.len() - 1] == x);
                assert(all[n].items.contains(x));
            }
            if in_group(gs, k, x) {
                let i = choose|i: int| 0 <= i < gs.len() && (#[trigger] gs[i]).kind == k && gs[i].items.contains(x);
                if i < n {
                    assert(all[i] == gs[i]);
                } else {
                    let j = choose|j: int| 0 <= j < gs[i].items.len() && gs[i].items[j] == x;
                    assert(items[j] == x);
                    assert(all[n].items.contains(x));
                }
            }
            if in_group(all, k, x) {
                let i = choose|i: int| 0 <= i < all.len() && (#[trigger] all[i]).kind == k && all[i].items.contains(x);
                if i < n {
                    assert(gs[i] == all[i]);
                } else {
                    let j = choose|j: int| 0 <= j < items.len() && items[j] == x;
                    if j < gs.last().items.len() {
                        assert(gs[n].items[j] == x);
                        assert(gs[n].items.contains(x));
                    }
                }
            }
        } else if text_lt(kind, gs.last().kind) {
            let rest = group_add(d, kind, item);
            lemma_group_add(d, kind, item, k, x);
            lemma_group_push(d, gs.last(), k, x);
            lemma_group_push(rest, gs.last(), k, x);
        } else {
            let g = GroupView { kind, items: seq![item] };
            lemma_group_push(gs, g, k, x);
            assert(g.items[0] == item);
            if k == kind && x == item {
                assert(g.items.contains(x));
            }
        }
    }
}

proof fn lemma_group_push(gs: Seq<GroupView>, g: GroupView, k: Seq<char>, x: (Seq<char>, Seq<char>))
    ensures
        in_group(gs.push(g), k, x) <==> in_group(gs, k, x) || (g.kind == k && g.items.contains(x)),
{
    let all = gs.push(g);
    if in_group(gs, k, x) {
        let i = choose|i: int| 0 <= i < gs.len() && (#[trigger] gs[i]).kind == k && gs[i].items.contains(x);
        assert(all[i] == gs[i]);
    }
    if g.kind == k && g.items.contains(x) {
        assert(all[gs.len() as int] == g);
    }
    if in_group(all, k, x) {
        let i = choose|i: int| 0 <= i < all.len() && (#[trigger] all[i]).kind == k && all[i].items.contains(x);
        if i < gs.len() {
            assert(gs[i] == all[i]);
        }
    }
}

/// Whether a group of a kind holds an item.
pub open spec fn in_group(gs: Seq<GroupView>, kind: Seq<char>, x: (Seq<char>, Seq<char>)) -> bool {
    exists|i: int| 0 <= i < gs.len() && (#[trigger] gs[i]).kind == kind && gs[i].items.contains(x)
}

/// The groups hold the related nodes, each under its kind, and no other nodes.
pub proof fn law_groups(nodes: Seq<NodeView>, kind: Seq<char>, id: Seq<char>, label: Seq<char>)
    ensures
        in_group(related_groups(nodes), kind, (id, label)) <==> exists|i: int|
            0 <= i < nodes.len() && (#[trigger] nodes[i]).role is Related && nodes[i].kind == kind && nodes[i].id == id
                && nodes[i].label == label,
    decreases nodes.len(),
{
    if nodes.len() > 0 {
        let d = nodes.drop_last();
        let n = nodes.last();
        law_groups(d, kind, id, label);
        if n.role is Related {
            lemma_group_add(related_groups(d), n.kind, (n.id, n.label), kind, (id, label));
        }
        assert(nodes[nodes.len() - 1] == n);
        if exists|i: int|
            0 <= i < d.len() && (#[trigger] d[i]).role is Related && d[i].kind == kind && d[i].id == id && d[i].label
                == label {
            let i = choose|i: int|
                0 <= i < d.len() && (#[trigger] d[i]).role is Related && d[i].kind == kind && d[i].id == id && d[i].label
                    == label;
            assert(nodes[i] == d[i]);
        }
        if exists|i: int|
            0 <= i < nodes.len() && (#[trigger] nodes[i]).role is Related && nodes[i].kind == kind && nodes[i].id == id
                && nodes[i].label == label {
            let i = choose|i: int|
                0 <= i < nodes.len() && (#[trigger] nodes[i]).role is Related && nodes[i].kind == kind && nodes[i].id == id
                    && nodes[i].label == label;
            if i < d.len() {
                assert(d[i] == nodes[i]);
            }
        }
    }
}

/// A group shows its first items, and says how many more it has.
pub proof fn law_group_more(g: GroupView, n: nat)
    ensures
        more_label(g) is None <==> g.items.len() <= GROUP_SHOWN,
        n > 0 && g.items.len() == GROUP_SHOWN + n ==> more_label(g) == Some("+"@ + dec(n) + " more"@),
        group_label(g) == g.kind + " ("@ + dec(g.items.len()) + ")"@,
{
}

/// What is read for the graph is the object of the row, by the chosen kind, its namespace and
/// its name.
pub proof fn law_row_reference(a: App, key: u128, r: Option<ResourceRef>, k: KindView, row: crate::types::LiteView)
    requires
        row_reference(a, key, r),
        selected_kind(a) == Some(k),
        row_of(table(a.results), key) == Some(row),
    ensures
        r matches Some(x) && x.gvk@ == k && x.name@ == row.name && opt_text(x.namespace) == row.namespace,
{
}

/// The graph of a service says how many pods it selects, and by which labels; that of a pod what
/// it uses.
pub proof fn law_graph_text(v: JsonView, k: KindView, pods: nat, sel: Seq<char>, sa: Seq<char>)
    ensures
        service_selector(v) == Some(sel) && sel.len() > 0 ==> service_lines(v, pods) == "  Pods: "@ + dec(pods)
            + " (selector: "@ + sel + ")\n"@,
        k.kind == "Service"@ ==> crate::text::occurs(graph_text(seq![v], k, pods), service_lines(v, pods)),
        k.kind == "Pod"@ ==> crate::text::occurs(graph_text(seq![v], k, pods), pod_lines(v)),
        v.str_of2("spec"@, "serviceAccountName"@) == Some(sa) ==> crate::text::occurs(
            pod_lines(v),
            "  ServiceAccount: "@ + sa + "\n"@,
        ),
        config_maps(v).len() > 0 ==> crate::text::occurs(
            pod_lines(v),
            "  ConfigMaps: "@ + join(config_maps(v), ", "@) + "\n"@,
        ),
        secrets(v).len() > 0 ==> crate::text::occurs(pod_lines(v), "  Secrets: "@ + join(secrets(v), ", "@) + "\n"@),
{
    broadcast use crate::text::lemma_occurs_either;

    reveal_strlit("Pod");
    reveal_strlit("Service");
    assert("Pod"@.len() == 3 && "Service"@.len() == 7);
    crate::text::lemma_occurs_itself(service_lines(v, pods));
    crate::text::lemma_occurs_itself(pod_lines(v));
    crate::text::lemma_occurs_itself("  ServiceAccount: "@ + sa + "\n"@);
    crate::text::lemma_occurs_itself("  ConfigMaps: "@ + join(config_maps(v), ", "@) + "\n"@);
    crate::text::lemma_occurs_itself("  Secrets: "@ + join(secrets(v), ", "@) + "\n"@);
}

/// The namespace of the selected object is the one of its row.
pub proof fn law_selected_namespace(a: App, u: Uid, row: crate::types::LiteView, ns: Seq<char>)
    requires
        a.details.selected == Some(u),
        row_of(table(a.results), uid_key(u)) == Some(row),
    ensures
        row.namespace == Some(ns) ==> selected_namespace(a) == ns,
        row.namespace is None ==> selected_namespace(a).len() == 0,
{
}

/// Owners are listed from the nearest to the farthest.
pub proof fn law_owners_by_distance(nodes: Seq<NodeView>, i: int, j: int)
    requires
        0 <= i < j < owners_among(nodes).len(),
    ensures
        owners_among(nodes)[i].1 <= owners_among(nodes)[j].1,
    decreases nodes.len(),
{
    lemma_owners_ordered(nodes);
}

spec fn near_first(s: Seq<(Seq<char>, nat, Seq<char>)>) -> bool {
    forall|i: int, j: int| 0 <= i < j < s.len() ==> (#[trigger] s[i]).1 <= (#[trigger] s[j]).1
}

proof fn lemma_insert_owner(s: Seq<(Seq<char>, nat, Seq<char>)>, o: (Seq<char>, nat, Seq<char>))
    requires
        near_first(s),
    ensures
        near_first(insert_owner(s, o)),
        insert_owner(s, o).len() == s.len() + 1,
        forall|i: int|
            0 <= i < insert_owner(s, o).len() ==> (#[trigger] insert_owner(s, o)[i]).1 <= o.1 || (s.len() > 0
                && insert_owner(s, o)[i].1 <= s.last().1),
    decreases s.len(),
{
    if s.len() > 0 && o.1 < s.last().1 {
        let d = s.drop_last();
        assert(near_first(d)) by {
            assert forall|i: int, j: int| 0 <= i < j < d.len() implies (#[trigger] d[i]).1 <= (#[trigger] d[j]).1 by {
                assert(s[i].1 <= s[j].1);
            }
        }
        lemma_insert_owner(d, o);
        let r = insert_owner(d, o);
        let all = r.push(s.last());
        if d.len() > 0 {
            assert(s[d.len() - 1].1 <= s[s.len() - 1].1);
        }
        assert forall|i: int, j: int| 0 <= i < j < all.len() implies (#[trigger] all[i]).1 <= (#[trigger] all[j]).1 by {
            if j < r.len() {
                assert(r[i].1 <= r[j].1);
            } else {
                assert(all[i] == r[i]);
            }
        }
    } else {
        let all = s.push(o);
        assert forall|i: int, j: int| 0 <= i < j < all.len() implies (#[trigger] all[i]).1 <= (#[trigger] all[j]).1 by {
            if j < s.len() {
                assert(s[i].1 <= s[j].1);
            } else if i < s.len() - 1 {
                assert(s[i].1 <= s[s.len() - 1].1);
            }
        }
        assert forall|i: int| 0 <= i < all.len() implies (#[trigger] all[i]).1 <= o.1 || (s.len() > 0 && all[i].1
            <= s.last().1) by {
            if i < s.len() - 1 {
                assert(s[i].1 <= s[s.len() - 1].1);
            }
        }
    }
}

proof fn lemma_owners_ordered(nodes: Seq<NodeView>)
    ensures
        near_first(owners_among(nodes)),
    decreases nodes.len(),
{
    if nodes.len() > 0 {
        lemma_owners_ordered(nodes.drop_last());
        match nodes.last().role {
            RoleView::OwnerChain(d) => {
                lemma_insert_owner(owners_among(nodes.drop_last()), (nodes.last().id, d, nodes.last().label));
            },
            _ => {},
        }
    }
}

} // verus!
