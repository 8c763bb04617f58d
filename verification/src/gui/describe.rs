//! The description of an object, line by line.
use crate::codec::{json_line, json_read, json_to_line, lossy, lossy_text, parse_json};
use crate::gui::graph::row_reference;
use crate::gui::model::{App, DescribeState, Handle};
use crate::json::{
    collect, collect_from, int_in, int_or, items_in, json_views, member_views, members_in, object_in, opt_items,
    opt_members, opt_str, opt_text_of, opt_view, or_text, owned, str_in, text_of, views_in, Json,
    JsonView, Num, NumView,
};
use crate::text::{
    cat2, cat3, cat4, cat5, concat, copy_text, dec, dec_int, i64_text, join, join_text, lemma_occurs_concat,
    lemma_occurs_either, lemma_occurs_itself, occurs, opt_text, pad_end, pad_left, pad_right, pad_start, same_text,
    texts, u64_text, usize_text,
};
use crate::types::{uid_key, ResourceRef, Uid};
use vstd::prelude::*;
use vstd::string::*;

verus! {

/// A name and a value on a line.
pub open spec fn pair(k: Seq<char>, v: Seq<char>) -> Seq<char> {
    k + ": "@ + v + "\n"@
}

/// A name and a value on a line, where there is a value.
pub open spec fn opt_pair(k: Seq<char>, v: Option<Seq<char>>) -> Seq<char> {
    match v {
        Some(t) => pair(k, t),
        None => Seq::empty(),
    }
}

/// A title, and a text for each element of a list, where there is a list.
pub open spec fn section<A>(title: Seq<char>, s: Option<Seq<A>>, f: spec_fn(A) -> Seq<char>) -> Seq<char> {
    match s {
        Some(x) => title + concat(x, f),
        None => Seq::empty(),
    }
}

/// A name and a value on an indented line.
pub open spec fn entry(k: Seq<char>, v: Seq<char>) -> Seq<char> {
    pair("  "@ + k, v)
}

/// A member on an indented line.
pub open spec fn label_line(m: (Seq<char>, JsonView)) -> Seq<char> {
    entry(m.0, or_text(m.1.text(), ""@))
}

/// A condition on an indented line.
pub open spec fn condition_line(c: JsonView) -> Seq<char> {
    entry(
        or_text(c.str_of("type"@), ""@),
        or_text(c.str_of("status"@), ""@) + " "@ + or_text(c.str_of("reason"@), ""@),
    )
}

/// Two texts of an element on an indented line.
pub open spec fn named_line(c: JsonView, k: Seq<char>, v: Seq<char>) -> Seq<char> {
    entry(or_text(c.str_of(k), ""@), or_text(c.str_of(v), ""@))
}

/// The name of a member on a line of its own.
pub open spec fn key_line(m: (Seq<char>, JsonView)) -> Seq<char> {
    pair("  "@, m.0)
}

/// The integer below two names, as text.
pub open spec fn num2(v: JsonView, a: Seq<char>, b: Seq<char>, d: int) -> Seq<char> {
    dec_int(int_or(v.get2(a, b), d))
}

fn show_pair(k: &str, v: &str) -> (r: String)
    ensures
        r@ == pair(k@, v@),
{
    cat4(k, ": ", v, "\n")
}

fn show_entry(k: &str, v: &str) -> (r: String)
    ensures
        r@ == entry(k@, v@),
{
    let key = cat2("  ", k);
    show_pair(key.as_str(), v)
}

fn add_pair(out: &mut String, k: &str, v: &str)
    ensures
        final(out)@ == old(out)@ + pair(k@, v@),
{
    let line = show_pair(k, v);
    out.append(line.as_str());
}

fn add_opt(out: &mut String, k: &str, v: Option<&str>)
    ensures
        final(out)@ == old(out)@ + opt_pair(k@, opt_str(v)),
{
    let ghost before = out@;
    match v {
        Some(t) => add_pair(out, k, t),
        None => {
            assert(before + Seq::<char>::empty() =~= before);
        },
    }
}

fn add_items<F: Fn(&Json) -> String>(
    out: &mut String,
    title: &str,
    s: Option<&Vec<Json>>,
    f: F,
    g: Ghost<spec_fn(JsonView) -> Seq<char>>,
)
    requires
        forall|v: &Json| call_requires(f, (v,)),
        forall|v: &Json, t: String| call_ensures(f, (v,), t) ==> t@ == g@(v@),
    ensures
        final(out)@ == old(out)@ + section(title@, views_in(s), g@),
{
    let ghost before = out@;
    match s {
        None => {
            assert(before + Seq::<char>::empty() =~= before);
        },
        Some(a) => {
            let ghost av = json_views(a@);
            out.append(title);
            let ghost head = out@;
            let mut i: usize = 0;
            assert(head + concat(av.take(0), g@) =~= head);
            while i < a.len()
                invariant
                    i <= a.len(),
                    av == json_views(a@),
                    forall|v: &Json| call_requires(f, (v,)),
                    forall|v: &Json, t: String| call_ensures(f, (v,), t) ==> t@ == g@(v@),
                    out@ == head + concat(av.take(i as int), g@),
                decreases a.len() - i,
            {
                assert(av.take(i + 1).drop_last() =~= av.take(i as int));
                assert(av.take(i + 1).last() == a@[i as int]@);
                let line = f(&a[i]);
                out.append(line.as_str());
                assert(out@ =~= head + concat(av.take(i + 1), g@));
                i += 1;
            }
            assert(av.take(av.len() as int) =~= av);
            assert(out@ =~= before + (title@ + concat(av, g@)));
        },
    }
}

fn add_members<F: Fn(&str, &Json) -> String>(
    out: &mut String,
    title: &str,
    s: Option<&Vec<(String, Json)>>,
    f: F,
    g: Ghost<spec_fn((Seq<char>, JsonView)) -> Seq<char>>,
)
    requires
        forall|k: &str, v: &Json| call_requires(f, (k, v)),
        forall|k: &str, v: &Json, t: String| call_ensures(f, (k, v), t) ==> t@ == g@((k@, v@)),
    ensures
        final(out)@ == old(out)@ + section(title@, members_in(s), g@),
{
    let ghost before = out@;
    match s {
        None => {
            assert(before + Seq::<char>::empty() =~= before);
        },
        Some(m) => {
            let ghost mv = member_views(m@);
            out.append(title);
            let ghost head = out@;
            let mut i: usize = 0;
            assert(head + concat(mv.take(0), g@) =~= head);
            while i < m.len()
                invariant
                    i <= m.len(),
                    mv == member_views(m@),
                    forall|k: &str, v: &Json| call_requires(f, (k, v)),
                    forall|k: &str, v: &Json, t: String|
                        call_ensures(f, (k, v), t) ==> t@ == g@((k@, v@)),
                    out@ == head + concat(mv.take(i as int), g@),
                decreases m.len() - i,
            {
                assert(mv.take(i + 1).drop_last() =~= mv.take(i as int));
                assert(mv.take(i + 1).last() == (m@[i as int].0@, m@[i as int].1@));
                let line = f(m[i].0.as_str(), &m[i].1);
                out.append(line.as_str());
                assert(out@ =~= head + concat(mv.take(i + 1), g@));
                i += 1;
            }
            assert(mv.take(mv.len() as int) =~= mv);
            assert(out@ =~= before + (title@ + concat(mv, g@)));
        },
    }
}

fn add_labels(out: &mut String, title: &str, s: Option<&Vec<(String, Json)>>)
    ensures
        final(out)@ == old(out)@ + section(title@, members_in(s), |m: (Seq<char>, JsonView)| label_line(m)),
{
    let f = |k: &str, v: &Json| -> (t: String)
        ensures
            t@ == label_line((k@, v@)),
        {
            let value = text_of(v.as_str(), "");
            show_entry(k, value.as_str())
        };
    add_members(out, title, s, f, Ghost(|m: (Seq<char>, JsonView)| label_line(m)))
}

fn add_keys(out: &mut String, title: &str, s: Option<&Vec<(String, Json)>>)
    ensures
        final(out)@ == old(out)@ + section(title@, members_in(s), |m: (Seq<char>, JsonView)| key_line(m)),
{
    let f = |k: &str, v: &Json| -> (t: String)
        ensures
            t@ == key_line((k@, v@)),
        { show_pair("  ", k) };
    add_members(out, title, s, f, Ghost(|m: (Seq<char>, JsonView)| key_line(m)))
}

fn add_named(out: &mut String, title: &str, s: Option<&Vec<Json>>, k: &str, v: &str)
    ensures
        final(out)@ == old(out)@ + section(title@, views_in(s), |c: JsonView| named_line(c, k@, v@)),
{
    let f = |c: &Json| -> (t: String)
        ensures
            t@ == named_line(c@, k@, v@),
        {
            let name = text_of(c.str_of(k), "");
            let value = text_of(c.str_of(v), "");
            show_entry(name.as_str(), value.as_str())
        };
    add_items(out, title, s, f, Ghost(|c: JsonView| named_line(c, k@, v@)))
}

fn add_conditions(out: &mut String, s: Option<&Vec<Json>>)
    ensures
        final(out)@ == old(out)@ + section("Conditions:\n"@, views_in(s), |c: JsonView| condition_line(c)),
{
    let f = |c: &Json| -> (t: String)
        ensures
            t@ == condition_line(c@),
        {
            let kind = text_of(c.str_of("type"), "");
            let status = text_of(c.str_of("status"), "");
            let reason = text_of(c.str_of("reason"), "");
            let value = cat3(status.as_str(), " ", reason.as_str());
            show_entry(kind.as_str(), value.as_str())
        };
    add_items(out, "Conditions:\n", s, f, Ghost(|c: JsonView| condition_line(c)))
}

fn show_num2(v: &Json, a: &str, b: &str, d: i64) -> (r: String)
    ensures
        r@ == num2(v@, a@, b@, d as int),
{
    i64_text(int_in(v.get2(a, b), d))
}

// ---------------------------------------------------------------------------
// What every object has

/// The owners of an object, where it has any.
pub open spec fn owner_section(v: JsonView) -> Option<Seq<JsonView>> {
    match v.array_of2("metadata"@, "ownerReferences"@) {
        Some(a) => if a.len() > 0 {
            Some(a)
        } else {
            None
        },
        None => None,
    }
}

/// The lines that every description begins with.
pub open spec fn generic_text(v: JsonView) -> Seq<char> {
    pair("Kind"@, or_text(v.str_of("kind"@), "(unknown)"@)) + pair(
        "Namespace"@,
        or_text(v.str_of2("metadata"@, "namespace"@), "-"@),
    ) + pair("Name"@, or_text(v.str_of2("metadata"@, "name"@), ""@)) + section(
        "Owner References:\n"@,
        owner_section(v),
        |c: JsonView| named_line(c, "kind"@, "name"@),
    ) + section(
        "Labels:\n"@,
        v.object_of2("metadata"@, "labels"@),
        |m: (Seq<char>, JsonView)| label_line(m),
    ) + section(
        "Annotations:\n"@,
        v.object_of2("metadata"@, "annotations"@),
        |m: (Seq<char>, JsonView)| label_line(m),
    )
}

/// The lines that every description begins with.
pub fn describe_generic(v: &Json) -> (r: String)
    ensures
        r@ == generic_text(v@),
{
    let kind = text_of(v.str_of("kind"), "(unknown)");
    let ns = text_of(v.str_of2("metadata", "namespace"), "-");
    let name = text_of(v.str_of2("metadata", "name"), "");
    let mut out = show_pair("Kind", kind.as_str());
    add_pair(&mut out, "Namespace", ns.as_str());
    add_pair(&mut out, "Name", name.as_str());
    let owners = match v.array_of2("metadata", "ownerReferences") {
        Some(a) => if a.len() > 0 {
            Some(a)
        } else {
            None
        },
        None => None,
    };
    add_named(&mut out, "Owner References:\n", owners, "kind", "name");
    add_labels(&mut out, "Labels:\n", v.object_of2("metadata", "labels"));
    add_labels(&mut out, "Annotations:\n", v.object_of2("metadata", "annotations"));
    out
}

/// The state of a container.
pub open spec fn state_text(s: JsonView) -> Seq<char> {
    match opt_members(s.get("state"@)) {
        None => Seq::empty(),
        Some(_) => if opt_members(s.get2("state"@, "running"@)) is Some {
            "running since "@ + or_text(s.str_of3("state"@, "running"@, "startedAt"@), ""@)
        } else if opt_members(s.get2("state"@, "waiting"@)) is Some {
            "waiting: "@ + or_text(s.str_of3("state"@, "waiting"@, "reason"@), ""@)
        } else if opt_members(s.get2("state"@, "terminated"@)) is Some {
            "terminated: "@ + or_text(s.str_of3("state"@, "terminated"@, "reason"@), ""@)
        } else {
            Seq::empty()
        },
    }
}

/// A truth value as text.
pub open spec fn flag_text(b: bool) -> Seq<char> {
    if b {
        "true"@
    } else {
        "false"@
    }
}

/// The status of a container on an indented line.
pub open spec fn status_line(s: JsonView) -> Seq<char> {
    entry(
        or_text(s.str_of("name"@), ""@),
        "ready="@ + flag_text(s.flag_of("ready"@) == Some(true)) + " restarts="@ + dec_int(
            int_or(s.get("restartCount"@), 0),
        ) + " "@ + state_text(s),
    )
}

fn show_flag(b: bool) -> (r: String)
    ensures
        r@ == flag_text(b),
{
    if b {
        copy_text("true")
    } else {
        copy_text("false")
    }
}

fn show_state(s: &Json) -> (r: String)
    ensures
        r@ == state_text(s@),
{
    if object_in(s.get("state")).is_none() {
        return String::new();
    }
    if object_in(s.get2("state", "running")).is_some() {
        let t = text_of(s.str_of3("state", "running", "startedAt"), "");
        cat2("running since ", t.as_str())
    } else if object_in(s.get2("state", "waiting")).is_some() {
        let t = text_of(s.str_of3("state", "waiting", "reason"), "");
        cat2("waiting: ", t.as_str())
    } else if object_in(s.get2("state", "terminated")).is_some() {
        let t = text_of(s.str_of3("state", "terminated", "reason"), "");
        cat2("terminated: ", t.as_str())
    } else {
        String::new()
    }
}

fn show_status(s: &Json) -> (r: String)
    ensures
        r@ == status_line(s@),
{
    let name = text_of(s.str_of("name"), "");
    let ready = match s.flag_of("ready") {
        Some(b) => b,
        None => false,
    };
    let flag = show_flag(ready);
    let restarts = i64_text(int_in(s.get("restartCount"), 0));
    let state = show_state(s);
    let mut t = cat4("ready=", flag.as_str(), " restarts=", restarts.as_str());
    t.append(" ");
    t.append(state.as_str());
    show_entry(name.as_str(), t.as_str())
}

/// The description of a pod.
pub open spec fn pod_text(v: JsonView) -> Seq<char> {
    generic_text(v) + pair("Node"@, or_text(v.str_of2("spec"@, "nodeName"@), ""@)) + pair("Phase"@, or_text(v.str_of2("status"@, "phase"@), ""@)) + pair("PodIP"@, or_text(v.str_of2("status"@, "podIP"@), ""@)) + pair("HostIP"@, or_text(v.str_of2("status"@, "hostIP"@), ""@)) + section("Conditions:\n"@, v.array_of2("status"@, "conditions"@), |c: JsonView| condition_line(c)) + section("Containers:\n"@, opt_items(v.get2("spec"@, "containers"@)), |c: JsonView| named_line(c, "name"@, "image"@)) + section("Container Statuses:\n"@, opt_items(v.get2("status"@, "containerStatuses"@)), |c: JsonView| status_line(c))
}

/// The description of a pod.
pub fn describe_pod(v: &Json) -> (r: String)
    ensures
        r@ == pod_text(v@),
{
    let mut out = describe_generic(v);
    let t = text_of(v.str_of2("spec", "nodeName"), "");
    add_pair(&mut out, "Node", t.as_str());
    let t = text_of(v.str_of2("status", "phase"), "");
    add_pair(&mut out, "Phase", t.as_str());
    let t = text_of(v.str_of2("status", "podIP"), "");
    add_pair(&mut out, "PodIP", t.as_str());
    let t = text_of(v.str_of2("status", "hostIP"), "");
    add_pair(&mut out, "HostIP", t.as_str());
    add_conditions(&mut out, v.array_of2("status", "conditions"));
    add_named(&mut out, "Containers:\n", items_in(v.get2("spec", "containers")), "name", "image");
    let f = |c: &Json| -> (t: String)
        ensures
            t@ == status_line(c@),
        { show_status(c) };
    add_items(&mut out, "Container Statuses:\n", items_in(v.get2("status", "containerStatuses")), f, Ghost(|c: JsonView| status_line(c)));
    out
}

/// The description of a deployment.
pub open spec fn deployment_text(v: JsonView) -> Seq<char> {
    generic_text(v) + pair("Replicas (spec)"@, num2(v, "spec"@, "replicas"@, 0)) + pair("Replicas (ready/updated/available)"@, num2(v, "status"@, "readyReplicas"@, 0) + "/"@ + num2(v, "status"@, "updatedReplicas"@, 0) + "/"@ + num2(v, "status"@, "availableReplicas"@, 0)) + opt_pair("Strategy"@, v.str_of3("spec"@, "strategy"@, "type"@)) + section("Selector:\n"@, opt_members(v.get3("spec"@, "selector"@, "matchLabels"@)), |m: (Seq<char>, JsonView)| label_line(m)) + section("Template Labels:\n"@, opt_members(v.get4("spec"@, "template"@, "metadata"@, "labels"@)), |m: (Seq<char>, JsonView)| label_line(m)) + section("Images:\n"@, opt_items(v.get4("spec"@, "template"@, "spec"@, "containers"@)), |c: JsonView| named_line(c, "name"@, "image"@)) + section("Conditions:\n"@, v.array_of2("status"@, "conditions"@), |c: JsonView| condition_line(c))
}

/// The description of a deployment.
pub fn describe_deployment(v: &Json) -> (r: String)
    ensures
        r@ == deployment_text(v@),
{
    let mut out = describe_generic(v);
    let n0 = show_num2(v, "spec", "replicas", 0);
    add_pair(&mut out, "Replicas (spec)", n0.as_str());
    let n0 = show_num2(v, "status", "readyReplicas", 0);
    let n1 = show_num2(v, "status", "updatedReplicas", 0);
    let n2 = show_num2(v, "status", "availableReplicas", 0);
    let t = cat5(n0.as_str(), "/", n1.as_str(), "/", n2.as_str());
    add_pair(&mut out, "Replicas (ready/updated/available)", t.as_str());
    add_opt(&mut out, "Strategy", v.str_of3("spec", "strategy", "type"));
    add_labels(&mut out, "Selector:\n", object_in(v.get3("spec", "selector", "matchLabels")));
    add_labels(&mut out, "Template Labels:\n", object_in(v.get4("spec", "template", "metadata", "labels")));
    add_named(&mut out, "Images:\n", items_in(v.get4("spec", "template", "spec", "containers")), "name", "image");
    add_conditions(&mut out, v.array_of2("status", "conditions"));
    out
}

/// The description of a replica set.
pub open spec fn replicaset_text(v: JsonView) -> Seq<char> {
    generic_text(v) + pair("Replicas (spec)"@, num2(v, "spec"@, "replicas"@, 0)) + pair("Replicas (ready/available/fully)"@, num2(v, "status"@, "readyReplicas"@, 0) + "/"@ + num2(v, "status"@, "availableReplicas"@, 0) + "/"@ + num2(v, "status"@, "fullyLabeledReplicas"@, 0))
}

/// The description of a replica set.
pub fn describe_replicaset(v: &Json) -> (r: String)
    ensures
        r@ == replicaset_text(v@),
{
    let mut out = describe_generic(v);
    let n0 = show_num2(v, "spec", "replicas", 0);
    add_pair(&mut out, "Replicas (spec)", n0.as_str());
    let n0 = show_num2(v, "status", "readyReplicas", 0);
    let n1 = show_num2(v, "status", "availableReplicas", 0);
    let n2 = show_num2(v, "status", "fullyLabeledReplicas", 0);
    let t = cat5(n0.as_str(), "/", n1.as_str(), "/", n2.as_str());
    add_pair(&mut out, "Replicas (ready/available/fully)", t.as_str());
    out
}

/// The claims of a stateful set, where it has any.
pub open spec fn claim_section(v: JsonView) -> Option<Seq<JsonView>> {
    match v.array_of2("spec"@, "volumeClaimTemplates"@) {
        Some(a) => if a.len() > 0 {
            Some(a)
        } else {
            None
        },
        None => None,
    }
}

/// A claim on a line.
pub open spec fn claim_line(c: JsonView) -> Seq<char> {
    pair("  "@, or_text(c.str_of2("metadata"@, "name"@), ""@))
}

/// The description of a stateful set.
pub open spec fn statefulset_text(v: JsonView) -> Seq<char> {
    generic_text(v) + pair("Replicas (spec)"@, num2(v, "spec"@, "replicas"@, 0)) + pair("Replicas (ready/current)"@, num2(v, "status"@, "readyReplicas"@, 0) + "/"@ + num2(v, "status"@, "currentReplicas"@, 0)) + opt_pair("UpdateStrategy"@, v.str_of3("spec"@, "updateStrategy"@, "type"@)) + opt_pair("ServiceName"@, v.str_of2("spec"@, "serviceName"@)) + section("VolumeClaims:\n"@, claim_section(v), |c: JsonView| claim_line(c))
}

/// The description of a stateful set.
pub fn describe_statefulset(v: &Json) -> (r: String)
    ensures
        r@ == statefulset_text(v@),
{
    let mut out = describe_generic(v);
    let n0 = show_num2(v, "spec", "replicas", 0);
    add_pair(&mut out, "Replicas (spec)", n0.as_str());
    let n0 = show_num2(v, "status", "readyReplicas", 0);
    let n1 = show_num2(v, "status", "currentReplicas", 0);
    let t = cat3(n0.as_str(), "/", n1.as_str());
    add_pair(&mut out, "Replicas (ready/current)", t.as_str());
    add_opt(&mut out, "UpdateStrategy", v.str_of3("spec", "updateStrategy", "type"));
    add_opt(&mut out, "ServiceName", v.str_of2("spec", "serviceName"));
    let claims = match v.array_of2("spec", "volumeClaimTemplates") {
        Some(a) => if a.len() > 0 {
            Some(a)
        } else {
            None
        },
        None => None,
    };
    let f = |c: &Json| -> (t: String)
        ensures
            t@ == claim_line(c@),
        {
            let name = text_of(c.str_of2("metadata", "name"), "");
            show_pair("  ", name.as_str())
        };
    add_items(&mut out, "VolumeClaims:\n", claims, f, Ghost(|c: JsonView| claim_line(c)));
    out
}

/// The description of a daemon set.
pub open spec fn daemonset_text(v: JsonView) -> Seq<char> {
    generic_text(v) + pair("Desired/Updated/Ready/Available"@, num2(v, "status"@, "desiredNumberScheduled"@, 0) + "/"@ + num2(v, "status"@, "updatedNumberScheduled"@, 0) + "/"@ + num2(v, "status"@, "numberReady"@, 0) + "/"@ + num2(v, "status"@, "numberAvailable"@, 0))
}

/// The description of a daemon set.
pub fn describe_daemonset(v: &Json) -> (r: String)
    ensures
        r@ == daemonset_text(v@),
{
    let mut out = describe_generic(v);
    let n0 = show_num2(v, "status", "desiredNumberScheduled", 0);
    let n1 = show_num2(v, "status", "updatedNumberScheduled", 0);
    let n2 = show_num2(v, "status", "numberReady", 0);
    let n3 = show_num2(v, "status", "numberAvailable", 0);
    let mut t = cat5(n0.as_str(), "/", n1.as_str(), "/", n2.as_str());
    t.append("/");
    t.append(n3.as_str());
    add_pair(&mut out, "Desired/Updated/Ready/Available", t.as_str());
    out
}

/// The description of a job.
pub open spec fn job_text(v: JsonView) -> Seq<char> {
    generic_text(v) + pair("Parallelism"@, num2(v, "spec"@, "parallelism"@, 1)) + pair("Completions"@, num2(v, "spec"@, "completions"@, 1)) + pair("Succeeded/Failed"@, num2(v, "status"@, "succeeded"@, 0) + "/"@ + num2(v, "status"@, "failed"@, 0)) + opt_pair("StartTime"@, v.str_of2("status"@, "startTime"@)) + opt_pair("CompletionTime"@, v.str_of2("status"@, "completionTime"@))
}

/// The description of a job.
pub fn describe_job(v: &Json) -> (r: String)
    ensures
        r@ == job_text(v@),
{
    let mut out = describe_generic(v);
    let n0 = show_num2(v, "spec", "parallelism", 1);
    add_pair(&mut out, "Parallelism", n0.as_str());
    let n0 = show_num2(v, "spec", "completions", 1);
    add_pair(&mut out, "Completions", n0.as_str());
    let n0 = show_num2(v, "status", "succeeded", 0);
    let n1 = show_num2(v, "status", "failed", 0);
    let t = cat3(n0.as_str(), "/", n1.as_str());
    add_pair(&mut out, "Succeeded/Failed", t.as_str());
    add_opt(&mut out, "StartTime", v.str_of2("status", "startTime"));
    add_opt(&mut out, "CompletionTime", v.str_of2("status", "completionTime"));
    out
}

/// A truth value as text, where there is one.
pub open spec fn opt_flag_text(v: Option<JsonView>) -> Option<Seq<char>> {
    match v {
        Some(x) => match x.flag() {
            Some(b) => Some(flag_text(b)),
            None => None,
        },
        None => None,
    }
}

/// An integer as text, where there is one.
pub open spec fn opt_int_text(v: Option<JsonView>) -> Option<Seq<char>> {
    match v {
        Some(x) => match x.integer() {
            Some(n) => Some(dec_int(n)),
            None => None,
        },
        None => None,
    }
}

/// The length of a list as text, where there is one.
pub open spec fn opt_len_text(v: Option<Seq<JsonView>>) -> Option<Seq<char>> {
    match v {
        Some(a) => Some(dec(a.len())),
        None => None,
    }
}

fn add_owned(out: &mut String, k: &str, v: Option<String>)
    ensures
        final(out)@ == old(out)@ + opt_pair(k@, opt_text(v)),
{
    match &v {
        Some(t) => add_opt(out, k, Some(t.as_str())),
        None => add_opt(out, k, None),
    }
}

fn show_opt_flag(v: Option<&Json>) -> (r: Option<String>)
    ensures
        opt_text(r) == opt_flag_text(opt_view(v)),
{
    match v {
        Some(x) => match x.as_bool() {
            Some(b) => Some(show_flag(b)),
            None => None,
        },
        None => None,
    }
}

fn show_opt_int(v: Option<&Json>) -> (r: Option<String>)
    ensures
        opt_text(r) == opt_int_text(opt_view(v)),
{
    match v {
        Some(x) => match x.as_i64() {
            Some(n) => Some(i64_text(n)),
            None => None,
        },
        None => None,
    }
}

/// The description of a cron job.
pub open spec fn cronjob_text(v: JsonView) -> Seq<char> {
    generic_text(v) + opt_pair("Schedule"@, v.str_of2("spec"@, "schedule"@)) + opt_pair("Suspend"@, opt_flag_text(v.get2("spec"@, "suspend"@))) + opt_pair("History(success)"@, opt_int_text(v.get2("spec"@, "successfulJobsHistoryLimit"@))) + opt_pair("History(failed)"@, opt_int_text(v.get2("spec"@, "failedJobsHistoryLimit"@))) + opt_pair("LastSchedule"@, v.str_of2("status"@, "lastScheduleTime"@)) + opt_pair("Active Jobs"@, opt_len_text(v.array_of2("status"@, "active"@)))
}

/// The description of a cron job.
pub fn describe_cronjob(v: &Json) -> (r: String)
    ensures
        r@ == cronjob_text(v@),
{
    let mut out = describe_generic(v);
    add_opt(&mut out, "Schedule", v.str_of2("spec", "schedule"));
    add_owned(&mut out, "Suspend", show_opt_flag(v.get2("spec", "suspend")));
    add_owned(&mut out, "History(success)", show_opt_int(v.get2("spec", "successfulJobsHistoryLimit")));
    add_owned(&mut out, "History(failed)", show_opt_int(v.get2("spec", "failedJobsHistoryLimit")));
    add_opt(&mut out, "LastSchedule", v.str_of2("status", "lastScheduleTime"));
    let active = match v.array_of2("status", "active") {
        Some(a) => Some(usize_text(a.len())),
        None => None,
    };
    add_owned(&mut out, "Active Jobs", active);
    out
}

/// A port of a container: by its number or its name.
pub open spec fn target_text(v: Option<JsonView>) -> Seq<char> {
    match v {
        Some(JsonView::Number(NumView::Pos(n))) => dec(n as nat),
        Some(JsonView::Number(NumView::Neg(n))) => dec_int(n as int),
        Some(JsonView::Number(NumView::Float(s))) => s,
        Some(JsonView::Str(s)) => s,
        _ => Seq::empty(),
    }
}

/// A port of a service on an indented line.
pub open spec fn port_line(p: JsonView) -> Seq<char> {
    entry(
        or_text(p.str_of("name"@), ""@),
        dec_int(int_or(p.get("port"@), 0)) + "/"@ + or_text(p.str_of("protocol"@), "TCP"@) + " -> "@
            + target_text(p.get("targetPort"@)),
    )
}

fn show_target(v: Option<&Json>) -> (r: String)
    ensures
        r@ == target_text(opt_view(v)),
{
    match v {
        Some(Json::Number(Num::Pos(n))) => u64_text(*n),
        Some(Json::Number(Num::Neg(n))) => i64_text(*n),
        Some(Json::Number(Num::Float(s))) => s.clone(),
        Some(Json::Str(s)) => s.clone(),
        _ => String::new(),
    }
}

fn show_port(p: &Json) -> (r: String)
    ensures
        r@ == port_line(p@),
{
    let name = text_of(p.str_of("name"), "");
    let port = i64_text(int_in(p.get("port"), 0));
    let proto = text_of(p.str_of("protocol"), "TCP");
    let target = show_target(p.get("targetPort"));
    let t = cat5(port.as_str(), "/", proto.as_str(), " -> ", target.as_str());
    show_entry(name.as_str(), t.as_str())
}

/// The description of a service.
pub open spec fn service_text(v: JsonView) -> Seq<char> {
    generic_text(v) + pair("Type"@, or_text(v.str_of2("spec"@, "type"@), ""@)) + pair("ClusterIP"@, or_text(v.str_of2("spec"@, "clusterIP"@), ""@)) + section("Selector:\n"@, opt_members(v.get2("spec"@, "selector"@)), |m: (Seq<char>, JsonView)| label_line(m)) + section("Ports:\n"@, opt_items(v.get2("spec"@, "ports"@)), |c: JsonView| port_line(c))
}

/// The description of a service.
pub fn describe_service(v: &Json) -> (r: String)
    ensures
        r@ == service_text(v@),
{
    let mut out = describe_generic(v);
    let t = text_of(v.str_of2("spec", "type"), "");
    add_pair(&mut out, "Type", t.as_str());
    let t = text_of(v.str_of2("spec", "clusterIP"), "");
    add_pair(&mut out, "ClusterIP", t.as_str());
    add_labels(&mut out, "Selector:\n", object_in(v.get2("spec", "selector")));
    let f = |c: &Json| -> (t: String)
        ensures
            t@ == port_line(c@),
        { show_port(c) };
    add_items(&mut out, "Ports:\n", items_in(v.get2("spec", "ports")), f, Ghost(|c: JsonView| port_line(c)));
    out
}

/// A path of an ingress rule on an indented line.
pub open spec fn path_line(host: Seq<char>, p: JsonView) -> Seq<char> {
    entry(
        host + or_text(p.str_of("path"@), "/"@),
        or_text(p.str_of3("backend"@, "service"@, "name"@), ""@) + ":"@ + dec_int(
            int_or(p.get4("backend"@, "service"@, "port"@, "number"@), 0),
        ),
    )
}

/// The paths of an ingress rule, each on an indented line.
pub open spec fn rule_line(r: JsonView) -> Seq<char> {
    section(
        Seq::empty(),
        r.array_of2("http"@, "paths"@),
        |p: JsonView| path_line(or_text(r.str_of("host"@), ""@), p),
    )
}

fn show_rule(r: &Json) -> (t: String)
    ensures
        t@ == rule_line(r@),
{
    let host = text_of(r.str_of("host"), "");
    let mut out = String::new();
    let ghost hv = host@;
    let f = |p: &Json| -> (t: String)
        ensures
            t@ == path_line(host@, p@),
        {
            let path = text_of(p.str_of("path"), "/");
            let name = text_of(p.str_of3("backend", "service", "name"), "");
            let port = i64_text(int_in(p.get4("backend", "service", "port", "number"), 0));
            let key = cat2(host.as_str(), path.as_str());
            let value = cat3(name.as_str(), ":", port.as_str());
            show_entry(key.as_str(), value.as_str())
        };
    assert(""@ =~= Seq::empty()) by {
        reveal_strlit("");
    }
    add_items(&mut out, "", r.array_of2("http", "paths"), f, Ghost(|p: JsonView| path_line(hv, p)));
    assert(out@ =~= rule_line(r@));
    out
}

/// The description of an ingress.
pub open spec fn ingress_text(v: JsonView) -> Seq<char> {
    generic_text(v) + opt_pair("Class"@, v.str_of2("spec"@, "ingressClassName"@)) + section("Rules:\n"@, opt_items(v.get2("spec"@, "rules"@)), |c: JsonView| rule_line(c))
}

/// The description of an ingress.
pub fn describe_ingress(v: &Json) -> (r: String)
    ensures
        r@ == ingress_text(v@),
{
    let mut out = describe_generic(v);
    add_opt(&mut out, "Class", v.str_of2("spec", "ingressClassName"));
    let f = |c: &Json| -> (t: String)
        ensures
            t@ == rule_line(c@),
        { show_rule(c) };
    add_items(&mut out, "Rules:\n", items_in(v.get2("spec", "rules")), f, Ghost(|c: JsonView| rule_line(c)));
    out
}

/// The description of a config map.
pub open spec fn configmap_text(v: JsonView) -> Seq<char> {
    generic_text(v) + section("Data keys:\n"@, opt_members(v.get("data"@)), |m: (Seq<char>, JsonView)| key_line(m))
}

/// The description of a config map.
pub fn describe_configmap(v: &Json) -> (r: String)
    ensures
        r@ == configmap_text(v@),
{
    let mut out = describe_generic(v);
    add_keys(&mut out, "Data keys:\n", object_in(v.get("data")));
    out
}

/// The description of a secret.
pub open spec fn secret_text(v: JsonView) -> Seq<char> {
    generic_text(v) + opt_pair("Type"@, v.str_of("type"@)) + section("Data keys:\n"@, opt_members(v.get("data"@)), |m: (Seq<char>, JsonView)| key_line(m))
}

/// The description of a secret.
pub fn describe_secret(v: &Json) -> (r: String)
    ensures
        r@ == secret_text(v@),
{
    let mut out = describe_generic(v);
    add_opt(&mut out, "Type", v.str_of("type"));
    add_keys(&mut out, "Data keys:\n", object_in(v.get("data")));
    out
}

/// The texts of a list one behind the other, where there is a list.
pub open spec fn opt_joined(v: Option<Seq<JsonView>>) -> Option<Seq<char>> {
    match v {
        Some(a) => Some(join(collect(a, |x: JsonView| x.text()), ", "@)),
        None => None,
    }
}

/// The description of a volume claim.
pub open spec fn pvc_text(v: JsonView) -> Seq<char> {
    generic_text(v) + opt_pair("Phase"@, v.str_of2("status"@, "phase"@)) + opt_pair("StorageClass"@, v.str_of2("spec"@, "storageClassName"@)) + opt_pair("AccessModes"@, opt_joined(v.array_of2("spec"@, "accessModes"@))) + opt_pair("Requested"@, opt_text_of(v.get4("spec"@, "resources"@, "requests"@, "storage"@))) + opt_pair("Capacity"@, v.str_of3("status"@, "capacity"@, "storage"@))
}

/// The description of a volume claim.
pub fn describe_pvc(v: &Json) -> (r: String)
    ensures
        r@ == pvc_text(v@),
{
    let mut out = describe_generic(v);
    add_opt(&mut out, "Phase", v.str_of2("status", "phase"));
    add_opt(&mut out, "StorageClass", v.str_of2("spec", "storageClassName"));
    let modes = match v.array_of2("spec", "accessModes") {
        Some(a) => {
            let f = |x: &Json| -> (t: Option<String>)
                ensures
                    opt_text(t) == x@.text(),
                { owned(x.as_str()) };
            let list = collect_from(a, f, Ghost(|x: JsonView| x.text()));
            Some(join_text(&list, ", "))
        },
        None => None,
    };
    add_owned(&mut out, "AccessModes", modes);
    add_opt(&mut out, "Requested", str_in(v.get4("spec", "resources", "requests", "storage")));
    add_opt(&mut out, "Capacity", v.str_of3("status", "capacity", "storage"));
    out
}

/// The description of a namespace.
pub open spec fn namespace_text(v: JsonView) -> Seq<char> {
    generic_text(v) + opt_pair("Phase"@, v.str_of2("status"@, "phase"@))
}

/// The description of a namespace.
pub fn describe_namespace(v: &Json) -> (r: String)
    ensures
        r@ == namespace_text(v@),
{
    let mut out = describe_generic(v);
    add_opt(&mut out, "Phase", v.str_of2("status", "phase"));
    out
}

/// A capacity on an indented line: a text as it is, any other value as JSON.
pub open spec fn capacity_line(m: (Seq<char>, JsonView)) -> Seq<char> {
    entry(m.0, or_text(m.1.text(), json_line(m.1)))
}

/// The description of a node.
pub open spec fn node_text(v: JsonView) -> Seq<char> {
    generic_text(v) + section("Addresses:\n"@, opt_items(v.get2("status"@, "addresses"@)), |c: JsonView| named_line(c, "type"@, "address"@)) + section("Capacity:\n"@, v.object_of2("status"@, "capacity"@), |m: (Seq<char>, JsonView)| capacity_line(m)) + section("Conditions:\n"@, v.array_of2("status"@, "conditions"@), |c: JsonView| condition_line(c))
}

/// The description of a node.
pub fn describe_node(v: &Json) -> (r: String)
    ensures
        r@ == node_text(v@),
{
    let mut out = describe_generic(v);
    add_named(&mut out, "Addresses:\n", items_in(v.get2("status", "addresses")), "type", "address");
    let f = |k: &str, x: &Json| -> (t: String)
        ensures
            t@ == capacity_line((k@, x@)),
        {
            let line = json_to_line(x);
            let value = text_of(x.as_str(), line.as_str());
            show_entry(k, value.as_str())
        };
    add_members(
        &mut out,
        "Capacity:\n",
        v.object_of2("status", "capacity"),
        f,
        Ghost(|m: (Seq<char>, JsonView)| capacity_line(m)),
    );
    add_conditions(&mut out, v.array_of2("status", "conditions"));
    out
}

// ---------------------------------------------------------------------------
// All together

/// The description of an object, by its kind.
pub open spec fn describe_text(v: JsonView) -> Seq<char> {
    let kind = or_text(v.str_of("kind"@), ""@);
    if kind == "Pod"@ {
        pod_text(v)
    } else if kind == "Deployment"@ {
        deployment_text(v)
    } else if kind == "ReplicaSet"@ {
        replicaset_text(v)
    } else if kind == "StatefulSet"@ {
        statefulset_text(v)
    } else if kind == "DaemonSet"@ {
        daemonset_text(v)
    } else if kind == "Job"@ {
        job_text(v)
    } else if kind == "CronJob"@ {
        cronjob_text(v)
    } else if kind == "Service"@ {
        service_text(v)
    } else if kind == "Ingress"@ {
        ingress_text(v)
    } else if kind == "IngressClass"@ {
        ingress_text(v)
    } else if kind == "ConfigMap"@ {
        configmap_text(v)
    } else if kind == "Secret"@ {
        secret_text(v)
    } else if kind == "PersistentVolumeClaim"@ {
        pvc_text(v)
    } else if kind == "Namespace"@ {
        namespace_text(v)
    } else if kind == "Node"@ {
        node_text(v)
    } else {
        generic_text(v)
    }
}

/// The description of an object, by its kind.
pub fn render_describe(v: &Json) -> (r: String)
    ensures
        r@ == describe_text(v@),
{
    let kind = text_of(v.str_of("kind"), "");
    let k = kind.as_str();
    if same_text(k, "Pod") {
        describe_pod(v)
    } else if same_text(k, "Deployment") {
        describe_deployment(v)
    } else if same_text(k, "ReplicaSet") {
        describe_replicaset(v)
    } else if same_text(k, "StatefulSet") {
        describe_statefulset(v)
    } else if same_text(k, "DaemonSet") {
        describe_daemonset(v)
    } else if same_text(k, "Job") {
        describe_job(v)
    } else if same_text(k, "CronJob") {
        describe_cronjob(v)
    } else if same_text(k, "Service") {
        describe_service(v)
    } else if same_text(k, "Ingress") {
        describe_ingress(v)
    } else if same_text(k, "IngressClass") {
        describe_ingress(v)
    } else if same_text(k, "ConfigMap") {
        describe_configmap(v)
    } else if same_text(k, "Secret") {
        describe_secret(v)
    } else if same_text(k, "PersistentVolumeClaim") {
        describe_pvc(v)
    } else if same_text(k, "Namespace") {
        describe_namespace(v)
    } else if same_text(k, "Node") {
        describe_node(v)
    } else {
        describe_generic(v)
    }
}

/// The first of two texts that is there.
pub open spec fn either(a: Option<Seq<char>>, b: Option<Seq<char>>) -> Option<Seq<char>> {
    match a {
        Some(t) => Some(t),
        None => b,
    }
}

/// How often an event was seen.
pub open spec fn event_count(v: JsonView) -> int {
    match v.int_of("deprecatedCount"@) {
        Some(n) => n,
        None => match v.int_of("count"@) {
            Some(n) => n,
            None => 0,
        },
    }
}

/// An event on one line.
pub open spec fn event_text(v: JsonView) -> Seq<char> {
    or_text(either(v.str_of("eventTime"@), v.str_of("deprecatedLastTimestamp"@)), ""@) + " "@ + pad_left(
        or_text(v.str_of("type"@), ""@),
        7,
    ) + " "@ + pad_right(or_text(v.str_of("reason"@), ""@), 24) + " "@ + or_text(
        either(v.str_of("note"@), v.str_of("message"@)),
        ""@,
    ) + (if event_count(v) > 1 {
        " (x"@ + dec_int(event_count(v)) + ")"@
    } else {
        Seq::empty()
    })
}

fn first_of<'a>(a: Option<&'a str>, b: Option<&'a str>) -> (r: Option<&'a str>)
    ensures
        opt_str(r) == either(opt_str(a), opt_str(b)),
{
    match a {
        Some(t) => Some(t),
        None => b,
    }
}

/// An event on one line.
pub fn event_line(v: &Json) -> (r: String)
    ensures
        r@ == event_text(v@),
{
    let time = text_of(first_of(v.str_of("eventTime"), v.str_of("deprecatedLastTimestamp")), "");
    let kind = text_of(v.str_of("type"), "");
    let reason = text_of(v.str_of("reason"), "");
    let note = text_of(first_of(v.str_of("note"), v.str_of("message")), "");
    let count: i64 = match v.int_of("deprecatedCount") {
        Some(n) => n,
        None => match v.int_of("count") {
            Some(n) => n,
            None => 0,
        },
    };
    let kind = pad_start(kind.as_str(), 7);
    let reason = pad_end(reason.as_str(), 24);
    let mut out = cat4(time.as_str(), " ", kind.as_str(), " ");
    out.append(reason.as_str());
    out.append(" ");
    out.append(note.as_str());
    let ghost head = out@;
    if count > 1 {
        let n = i64_text(count);
        let t = cat3(" (x", n.as_str(), ")");
        out.append(t.as_str());
    } else {
        assert(head + Seq::<char>::empty() =~= head);
    }
    out
}

/// Events, each on one line.
pub open spec fn event_texts(events: Seq<JsonView>) -> Seq<Seq<char>> {
    Seq::new(events.len(), |i: int| event_text(events[i]))
}

/// The lines of a list of events.
pub open spec fn event_lines(events: Seq<JsonView>) -> Seq<char> {
    join(event_texts(events), "\n"@)
}

/// The lines of a list of events.
pub fn events_text(events: &Vec<Json>) -> (r: String)
    ensures
        r@ == event_lines(json_views(events@)),
{
    let ghost all = json_views(events@);
    let mut lines: Vec<String> = Vec::new();
    let mut i: usize = 0;
    assert(texts(lines@) =~= event_texts(all).take(0));
    while i < events.len()
        invariant
            i <= events.len(),
            all == json_views(events@),
            texts(lines@) == event_texts(all).take(i as int),
        decreases events.len() - i,
    {
        assert(all[i as int] == events@[i as int]@);
        let ghost before = texts(lines@);
        lines.push(event_line(&events[i]));
        assert(texts(lines@) =~= before.push(event_texts(all)[i as int]));
        assert(texts(lines@) =~= event_texts(all).take(i + 1));
        i += 1;
    }
    assert(event_texts(all).take(all.len() as int) =~= event_texts(all));
    join_text(&lines, "\n")
}

/// Where the events of an object are looked for: by its identity, in the newer and then in
/// the older interface. Where an object has no identity, it has no events.
pub open spec fn event_queries(uid: Option<Seq<char>>) -> Seq<(Seq<char>, Seq<char>)> {
    match uid {
        Some(u) => if u.len() > 0 {
            seq![
                ("events.k8s.io/v1/Event"@, "regarding.uid="@ + u),
                ("v1/Event"@, "involvedObject.uid="@ + u),
            ]
        } else {
            Seq::empty()
        },
        None => Seq::empty(),
    }
}

/// The kinds and the field selectors of a list of queries.
pub open spec fn query_views(v: Seq<(String, String)>) -> Seq<(Seq<char>, Seq<char>)> {
    v.map_values(|q: (String, String)| (q.0@, q.1@))
}

/// Where the events of an object are looked for, in order: the first query that finds any
/// gives them. At most `EVENT_LIMIT` are asked for.
pub fn events_to_fetch(v: &Json) -> (r: Vec<(String, String)>)
    ensures
        query_views(r@) == event_queries(v@.str_of2("metadata"@, "uid"@)),
{
    let mut out: Vec<(String, String)> = Vec::new();
    if let Some(u) = v.str_of2("metadata", "uid") {
        if !u.is_empty() {
            out.push((copy_text("events.k8s.io/v1/Event"), cat2("regarding.uid=", u)));
            out.push((copy_text("v1/Event"), cat2("involvedObject.uid=", u)));
        }
    }
    assert(query_views(out@) =~= event_queries(v@.str_of2("metadata"@, "uid"@)));
    out
}

/// How many events are asked for.
pub const EVENT_LIMIT: u32 = 200;

/// A description with the events of the object.
pub fn describe_with_events(text: &str, events: &str) -> (r: String)
    ensures
        r@ == text@ + "\n\nEvents:\n"@ + events@,
{
    cat3(text, "\n\nEvents:\n", events)
}

/// What is to be done where the description of an object is asked for: the task to stop,
/// and the object to read.
pub struct DescribeStart {
    pub abort: Option<Handle>,
    pub stop: Option<Handle>,
    pub reference: Option<ResourceRef>,
}

impl App {
    /// Ask for the description of an object. The previous task is to stop; nothing runs
    /// where the object is not known.
    pub fn start_describe_task(&mut self, uid: Uid) -> (r: DescribeStart)
        ensures
            r.abort == old(self).describe.task,
            r.stop == old(self).describe.stop,
            row_reference(*old(self), uid_key(uid), r.reference),
            *final(self) == (App {
                describe: DescribeState {
                    task: None,
                    stop: None,
                    running: r.reference is Some,
                    text: final(self).describe.text,
                    error: None,
                    uid: Some(uid),
                },
                ..*old(self)
            }),
            final(self).describe.text@ == Seq::<char>::empty(),
    {
        let reference = self.reference_of(&uid);
        let abort = self.describe.task;
        let stop = self.describe.stop;
        self.describe = DescribeState {
            task: None,
            stop: None,
            running: reference.is_some(),
            text: String::new(),
            error: None,
            uid: Some(uid),
        };
        DescribeStart { abort, stop, reference }
    }
}

/// What the bytes of an object say of it: its description and where its events are looked
/// for. Bytes that are no JSON are shown as they are.
pub fn describe_reply(bytes: &[u8]) -> (r: (String, Vec<(String, String)>))
    ensures
        match json_read(bytes@) {
            Some(v) => {
                &&& r.0@ == describe_text(v)
                &&& query_views(r.1@) == event_queries(v.str_of2("metadata"@, "uid"@))
            },
            None => r.0@ == lossy(bytes@) && r.1@.len() == 0,
        },
{
    match parse_json(bytes) {
        Some(v) => (render_describe(&v), events_to_fetch(&v)),
        None => (lossy_text(bytes), Vec::new()),
    }
}

// ---------------------------------------------------------------------------
// What a description says

/// Whether a text has a line that gives a value under a name.
pub open spec fn tells(text: Seq<char>, k: Seq<char>, v: Seq<char>) -> bool {
    occurs(text, k + ": "@ + v + "\n"@)
}

proof fn lemma_pair(k: Seq<char>, v: Seq<char>)
    ensures
        occurs(pair(k, v), k + ": "@ + v + "\n"@),
        occurs(opt_pair(k, Some(v)), k + ": "@ + v + "\n"@),
{
    lemma_occurs_itself(pair(k, v));
}

proof fn lemma_section<A>(title: Seq<char>, s: Seq<A>, f: spec_fn(A) -> Seq<char>, i: int, k: Seq<char>, v: Seq<char>)
    requires
        0 <= i < s.len(),
        f(s[i]) == pair(k, v),
    ensures
        occurs(section(title, Some(s), f), k + ": "@ + v + "\n"@),
{
    lemma_pair(k, v);
    lemma_occurs_concat(s, f, i, k + ": "@ + v + "\n"@);
    lemma_occurs_either(title, concat(s, f), k + ": "@ + v + "\n"@);
}

proof fn lemma_described(v: JsonView)
    ensures
        v.str_of("kind"@) == Some("Pod"@) ==> describe_text(v) == pod_text(v),
        v.str_of("kind"@) == Some("Deployment"@) ==> describe_text(v) == deployment_text(v),
        v.str_of("kind"@) == Some("ReplicaSet"@) ==> describe_text(v) == replicaset_text(v),
        v.str_of("kind"@) == Some("StatefulSet"@) ==> describe_text(v) == statefulset_text(v),
        v.str_of("kind"@) == Some("DaemonSet"@) ==> describe_text(v) == daemonset_text(v),
        v.str_of("kind"@) == Some("Job"@) ==> describe_text(v) == job_text(v),
        v.str_of("kind"@) == Some("CronJob"@) ==> describe_text(v) == cronjob_text(v),
        v.str_of("kind"@) == Some("Service"@) ==> describe_text(v) == service_text(v),
        v.str_of("kind"@) == Some("Ingress"@) ==> describe_text(v) == ingress_text(v),
        v.str_of("kind"@) == Some("IngressClass"@) ==> describe_text(v) == ingress_text(v),
        v.str_of("kind"@) == Some("ConfigMap"@) ==> describe_text(v) == configmap_text(v),
        v.str_of("kind"@) == Some("Secret"@) ==> describe_text(v) == secret_text(v),
        v.str_of("kind"@) == Some("PersistentVolumeClaim"@) ==> describe_text(v) == pvc_text(v),
        v.str_of("kind"@) == Some("Namespace"@) ==> describe_text(v) == namespace_text(v),
        v.str_of("kind"@) == Some("Node"@) ==> describe_text(v) == node_text(v),
{
    reveal_strlit("Pod");
    reveal_strlit("Deployment");
    reveal_strlit("ReplicaSet");
    reveal_strlit("StatefulSet");
    reveal_strlit("DaemonSet");
    reveal_strlit("Job");
    reveal_strlit("CronJob");
    reveal_strlit("Service");
    reveal_strlit("Ingress");
    reveal_strlit("IngressClass");
    reveal_strlit("ConfigMap");
    reveal_strlit("Secret");
    reveal_strlit("PersistentVolumeClaim");
    reveal_strlit("Namespace");
    reveal_strlit("Node");
    assert("Pod"@.len() == 3 && "Pod"@[0] == 'P');
    assert("Deployment"@.len() == 10 && "Deployment"@[0] == 'D');
    assert("ReplicaSet"@.len() == 10 && "ReplicaSet"@[0] == 'R');
    assert("StatefulSet"@.len() == 11 && "StatefulSet"@[0] == 'S');
    assert("DaemonSet"@.len() == 9 && "DaemonSet"@[0] == 'D');
    assert("Job"@.len() == 3 && "Job"@[0] == 'J');
    assert("CronJob"@.len() == 7 && "CronJob"@[0] == 'C');
    assert("Service"@.len() == 7 && "Service"@[0] == 'S');
    assert("Ingress"@.len() == 7 && "Ingress"@[0] == 'I');
    assert("IngressClass"@.len() == 12 && "IngressClass"@[0] == 'I');
    assert("ConfigMap"@.len() == 9 && "ConfigMap"@[0] == 'C');
    assert("Secret"@.len() == 6 && "Secret"@[0] == 'S');
    assert("PersistentVolumeClaim"@.len() == 21 && "PersistentVolumeClaim"@[0] == 'P');
    assert("Namespace"@.len() == 9 && "Namespace"@[0] == 'N');
    assert("Node"@.len() == 4 && "Node"@[0] == 'N');
}

/// Every description gives the kind, the namespace and the name of the object.
pub proof fn law_described(v: JsonView, t: Seq<char>)
    ensures
        v.str_of("kind"@) == Some(t) ==> tells(describe_text(v), "Kind"@, t),
        v.str_of2("metadata"@, "namespace"@) == Some(t) ==> tells(describe_text(v), "Namespace"@, t),
        v.str_of2("metadata"@, "namespace"@) is None ==> tells(describe_text(v), "Namespace"@, "-"@),
        v.str_of2("metadata"@, "name"@) == Some(t) ==> tells(describe_text(v), "Name"@, t),
{
    broadcast use lemma_occurs_either;

    lemma_pair("Kind"@, t);
    lemma_pair("Namespace"@, t);
    lemma_pair("Namespace"@, "-"@);
    lemma_pair("Name"@, t);
    lemma_begins_generic(v, "Kind"@ + ": "@ + t + "\n"@);
    lemma_begins_generic(v, "Namespace"@ + ": "@ + t + "\n"@);
    lemma_begins_generic(v, "Namespace"@ + ": "@ + "-"@ + "\n"@);
    lemma_begins_generic(v, "Name"@ + ": "@ + t + "\n"@);
}

proof fn lemma_begins_generic(v: JsonView, p: Seq<char>)
    ensures
        occurs(generic_text(v), p) ==> occurs(describe_text(v), p),
{
    broadcast use lemma_occurs_either;

}

/// Every description gives the owners, the labels and the annotations of the object.
pub proof fn law_described_labels(v: JsonView, m: Seq<(Seq<char>, JsonView)>, a: Seq<JsonView>, i: int, k: Seq<char>, t: Seq<char>)
    ensures
        v.object_of2("metadata"@, "labels"@) == Some(m) && 0 <= i < m.len() && m[i] == (k, JsonView::Str(t)) ==> tells(
            describe_text(v),
            "  "@ + k,
            t,
        ),
        v.object_of2("metadata"@, "annotations"@) == Some(m) && 0 <= i < m.len() && m[i] == (k, JsonView::Str(t))
            ==> tells(describe_text(v), "  "@ + k, t),
        v.array_of2("metadata"@, "ownerReferences"@) == Some(a) && 0 <= i < a.len() && a[i].str_of("kind"@) == Some(k)
            && a[i].str_of("name"@) == Some(t) ==> tells(describe_text(v), "  "@ + k, t),
{
    broadcast use lemma_occurs_either;

    let p = "  "@ + k + ": "@ + t + "\n"@;
    if 0 <= i < m.len() && m[i] == (k, JsonView::Str(t)) {
        lemma_section("Labels:\n"@, m, |m: (Seq<char>, JsonView)| label_line(m), i, "  "@ + k, t);
        lemma_section("Annotations:\n"@, m, |m: (Seq<char>, JsonView)| label_line(m), i, "  "@ + k, t);
    }
    if 0 <= i < a.len() && a[i].str_of("kind"@) == Some(k) && a[i].str_of("name"@) == Some(t) {
        lemma_section("Owner References:\n"@, a, |c: JsonView| named_line(c, "kind"@, "name"@), i, "  "@ + k, t);
    }
    if v.object_of2("metadata"@, "labels"@) == Some(m) && 0 <= i < m.len() && m[i] == (k, JsonView::Str(t)) {
        assert(occurs(generic_text(v), p));
        lemma_begins_generic(v, p);
    }
    if v.object_of2("metadata"@, "annotations"@) == Some(m) && 0 <= i < m.len() && m[i] == (k, JsonView::Str(t)) {
        assert(occurs(generic_text(v), p));
        lemma_begins_generic(v, p);
    }
    if v.array_of2("metadata"@, "ownerReferences"@) == Some(a) && 0 <= i < a.len() && a[i].str_of("kind"@) == Some(k)
        && a[i].str_of("name"@) == Some(t) {
        assert(occurs(generic_text(v), p));
        lemma_begins_generic(v, p);
    }
}

/// The description of a pod gives its node, phase and addresses, its conditions and its
/// containers with their images.
pub proof fn law_pod_described(v: JsonView, a: Seq<JsonView>, i: int, r: Seq<char>, s: Seq<char>, t: Seq<char>)
    requires
        v.str_of("kind"@) == Some("Pod"@),
    ensures
        v.str_of2("spec"@, "nodeName"@) == Some(t) ==> tells(describe_text(v), "Node"@, t),
        v.str_of2("status"@, "phase"@) == Some(t) ==> tells(describe_text(v), "Phase"@, t),
        v.str_of2("status"@, "podIP"@) == Some(t) ==> tells(describe_text(v), "PodIP"@, t),
        v.str_of2("status"@, "hostIP"@) == Some(t) ==> tells(describe_text(v), "HostIP"@, t),
        v.array_of2("status"@, "conditions"@) == Some(a) && 0 <= i < a.len() && a[i].str_of("type"@) == Some(t) && a[i].str_of("status"@) == Some(s) && a[i].str_of("reason"@) == Some(r) ==> tells(describe_text(v), "  "@ + t, s + " "@ + r),
        opt_items(v.get2("spec"@, "containers"@)) == Some(a) && 0 <= i < a.len() && a[i].str_of("name"@) == Some(t) && a[i].str_of("image"@) == Some(s) ==> tells(describe_text(v), "  "@ + t, s),
{
    broadcast use lemma_occurs_either;

    lemma_described(v);
    lemma_pair("Node"@, t);
    lemma_pair("Phase"@, t);
    lemma_pair("PodIP"@, t);
    lemma_pair("HostIP"@, t);
    if v.array_of2("status"@, "conditions"@) == Some(a) && 0 <= i < a.len() && a[i].str_of("type"@) == Some(t) && a[i].str_of("status"@) == Some(s) && a[i].str_of("reason"@) == Some(r) {
        lemma_section("Conditions:\n"@, a, |c: JsonView| condition_line(c), i, "  "@ + t, s + " "@ + r);
    }
    if opt_items(v.get2("spec"@, "containers"@)) == Some(a) && 0 <= i < a.len() && a[i].str_of("name"@) == Some(t) && a[i].str_of("image"@) == Some(s) {
        lemma_section("Containers:\n"@, a, |c: JsonView| named_line(c, "name"@, "image"@), i, "  "@ + t, s);
    }
}

/// The line of a container's status says whether it is ready, how often it was restarted, and
/// what it does.
pub proof fn law_container_status(s: JsonView, ready: bool, n: int, name: Seq<char>, t: Seq<char>)
    requires
        s.str_of("name"@) == Some(name),
        s.flag_of("ready"@) == Some(ready),
        int_or(s.get("restartCount"@), 0) == n,
    ensures
        status_line(s) == pair(
            "  "@ + name,
            "ready="@ + (if ready {
                "true"@
            } else {
                "false"@
            }) + " restarts="@ + dec_int(n) + " "@ + state_text(s),
        ),
        s.str_of3("state"@, "running"@, "startedAt"@) == Some(t) ==> state_text(s) == "running since "@ + t,
        opt_members(s.get2("state"@, "running"@)) is None && s.str_of3("state"@, "waiting"@, "reason"@) == Some(t)
            ==> state_text(s) == "waiting: "@ + t,
        opt_members(s.get2("state"@, "running"@)) is None && opt_members(s.get2("state"@, "waiting"@)) is None
            && s.str_of3("state"@, "terminated"@, "reason"@) == Some(t) ==> state_text(s) == "terminated: "@ + t,
        opt_members(s.get("state"@)) is None ==> state_text(s) == Seq::<char>::empty(),
{
}

/// The description of a deployment gives how many replicas it wants, how many are ready, up to
/// date and available, and the images that it runs.
pub proof fn law_deployment_described(v: JsonView, a: Seq<JsonView>, i: int, m: Seq<(Seq<char>, JsonView)>, n: int, r: Seq<char>, s: Seq<char>, t: Seq<char>, x: int, y: int)
    requires
        v.str_of("kind"@) == Some("Deployment"@),
    ensures
        int_or(v.get2("spec"@, "replicas"@), 0) == n ==> tells(describe_text(v), "Replicas (spec)"@, dec_int(n)),
        int_or(v.get2("status"@, "readyReplicas"@), 0) == n && int_or(v.get2("status"@, "updatedReplicas"@), 0) == x && int_or(v.get2("status"@, "availableReplicas"@), 0) == y ==> tells(describe_text(v), "Replicas (ready/updated/available)"@, dec_int(n) + "/"@ + dec_int(x) + "/"@ + dec_int(y)),
        v.str_of3("spec"@, "strategy"@, "type"@) == Some(t) ==> tells(describe_text(v), "Strategy"@, t),
        opt_members(v.get3("spec"@, "selector"@, "matchLabels"@)) == Some(m) && 0 <= i < m.len() && m[i] == (t, JsonView::Str(s)) ==> tells(describe_text(v), "  "@ + t, s),
        opt_items(v.get4("spec"@, "template"@, "spec"@, "containers"@)) == Some(a) && 0 <= i < a.len() && a[i].str_of("name"@) == Some(t) && a[i].str_of("image"@) == Some(s) ==> tells(describe_text(v), "  "@ + t, s),
        v.array_of2("status"@, "conditions"@) == Some(a) && 0 <= i < a.len() && a[i].str_of("type"@) == Some(t) && a[i].str_of("status"@) == Some(s) && a[i].str_of("reason"@) == Some(r) ==> tells(describe_text(v), "  "@ + t, s + " "@ + r),
{
    broadcast use lemma_occurs_either;

    lemma_described(v);
    lemma_pair("Replicas (spec)"@, dec_int(n));
    lemma_pair("Replicas (ready/updated/available)"@, dec_int(n) + "/"@ + dec_int(x) + "/"@ + dec_int(y));
    lemma_pair("Strategy"@, t);
    if opt_members(v.get3("spec"@, "selector"@, "matchLabels"@)) == Some(m) && 0 <= i < m.len() && m[i] == (t, JsonView::Str(s)) {
        lemma_section("Selector:\n"@, m, |m: (Seq<char>, JsonView)| label_line(m), i, "  "@ + t, s);
    }
    if opt_items(v.get4("spec"@, "template"@, "spec"@, "containers"@)) == Some(a) && 0 <= i < a.len() && a[i].str_of("name"@) == Some(t) && a[i].str_of("image"@) == Some(s) {
        lemma_section("Images:\n"@, a, |c: JsonView| named_line(c, "name"@, "image"@), i, "  "@ + t, s);
    }
    if v.array_of2("status"@, "conditions"@) == Some(a) && 0 <= i < a.len() && a[i].str_of("type"@) == Some(t) && a[i].str_of("status"@) == Some(s) && a[i].str_of("reason"@) == Some(r) {
        lemma_section("Conditions:\n"@, a, |c: JsonView| condition_line(c), i, "  "@ + t, s + " "@ + r);
    }
}

/// The description of a replica set gives how many replicas it wants, and how many are ready,
/// available and fully labelled.
pub proof fn law_replicaset_described(v: JsonView, n: int, x: int, y: int)
    requires
        v.str_of("kind"@) == Some("ReplicaSet"@),
    ensures
        int_or(v.get2("spec"@, "replicas"@), 0) == n ==> tells(describe_text(v), "Replicas (spec)"@, dec_int(n)),
        int_or(v.get2("status"@, "readyReplicas"@), 0) == n && int_or(v.get2("status"@, "availableReplicas"@), 0) == x && int_or(v.get2("status"@, "fullyLabeledReplicas"@), 0) == y ==> tells(describe_text(v), "Replicas (ready/available/fully)"@, dec_int(n) + "/"@ + dec_int(x) + "/"@ + dec_int(y)),
{
    broadcast use lemma_occurs_either;

    lemma_described(v);
    lemma_pair("Replicas (spec)"@, dec_int(n));
    lemma_pair("Replicas (ready/available/fully)"@, dec_int(n) + "/"@ + dec_int(x) + "/"@ + dec_int(y));
}

/// The description of a stateful set gives how many replicas it wants, how many are ready and
/// current, and its service.
pub proof fn law_statefulset_described(v: JsonView, a: Seq<JsonView>, i: int, n: int, t: Seq<char>, x: int)
    requires
        v.str_of("kind"@) == Some("StatefulSet"@),
    ensures
        int_or(v.get2("spec"@, "replicas"@), 0) == n ==> tells(describe_text(v), "Replicas (spec)"@, dec_int(n)),
        int_or(v.get2("status"@, "readyReplicas"@), 0) == n && int_or(v.get2("status"@, "currentReplicas"@), 0) == x ==> tells(describe_text(v), "Replicas (ready/current)"@, dec_int(n) + "/"@ + dec_int(x)),
        v.str_of3("spec"@, "updateStrategy"@, "type"@) == Some(t) ==> tells(describe_text(v), "UpdateStrategy"@, t),
        v.str_of2("spec"@, "serviceName"@) == Some(t) ==> tells(describe_text(v), "ServiceName"@, t),
        v.array_of2("spec"@, "volumeClaimTemplates"@) == Some(a) && 0 <= i < a.len() && a[i].str_of2("metadata"@, "name"@) == Some(t) ==> tells(describe_text(v), "  "@, t),
{
    broadcast use lemma_occurs_either;

    lemma_described(v);
    lemma_pair("Replicas (spec)"@, dec_int(n));
    lemma_pair("Replicas (ready/current)"@, dec_int(n) + "/"@ + dec_int(x));
    lemma_pair("UpdateStrategy"@, t);
    lemma_pair("ServiceName"@, t);
    if v.array_of2("spec"@, "volumeClaimTemplates"@) == Some(a) && 0 <= i < a.len() && a[i].str_of2("metadata"@, "name"@) == Some(t) {
        lemma_section("VolumeClaims:\n"@, a, |c: JsonView| claim_line(c), i, "  "@, t);
    }
}

/// The description of a daemon set gives how many of its pods are wanted, up to date, ready and
/// available.
pub proof fn law_daemonset_described(v: JsonView, n: int, x: int, y: int, z: int)
    requires
        v.str_of("kind"@) == Some("DaemonSet"@),
    ensures
        int_or(v.get2("status"@, "desiredNumberScheduled"@), 0) == n && int_or(v.get2("status"@, "updatedNumberScheduled"@), 0) == x && int_or(v.get2("status"@, "numberReady"@), 0) == y && int_or(v.get2("status"@, "numberAvailable"@), 0) == z ==> tells(describe_text(v), "Desired/Updated/Ready/Available"@, dec_int(n) + "/"@ + dec_int(x) + "/"@ + dec_int(y) + "/"@ + dec_int(z)),
{
    broadcast use lemma_occurs_either;

    lemma_described(v);
    lemma_pair("Desired/Updated/Ready/Available"@, dec_int(n) + "/"@ + dec_int(x) + "/"@ + dec_int(y) + "/"@ + dec_int(z));
}

/// The description of a job gives what it asks for, how many of its pods succeeded and failed,
/// and when it ran.
pub proof fn law_job_described(v: JsonView, n: int, t: Seq<char>, x: int)
    requires
        v.str_of("kind"@) == Some("Job"@),
    ensures
        int_or(v.get2("spec"@, "parallelism"@), 1) == n ==> tells(describe_text(v), "Parallelism"@, dec_int(n)),
        int_or(v.get2("spec"@, "completions"@), 1) == n ==> tells(describe_text(v), "Completions"@, dec_int(n)),
        int_or(v.get2("status"@, "succeeded"@), 0) == n && int_or(v.get2("status"@, "failed"@), 0) == x ==> tells(describe_text(v), "Succeeded/Failed"@, dec_int(n) + "/"@ + dec_int(x)),
        v.str_of2("status"@, "startTime"@) == Some(t) ==> tells(describe_text(v), "StartTime"@, t),
        v.str_of2("status"@, "completionTime"@) == Some(t) ==> tells(describe_text(v), "CompletionTime"@, t),
{
    broadcast use lemma_occurs_either;

    lemma_described(v);
    lemma_pair("Parallelism"@, dec_int(n));
    lemma_pair("Completions"@, dec_int(n));
    lemma_pair("Succeeded/Failed"@, dec_int(n) + "/"@ + dec_int(x));
    lemma_pair("StartTime"@, t);
    lemma_pair("CompletionTime"@, t);
}

/// The description of a cron job gives its schedule, whether it is suspended, when it last ran,
/// and how many of its jobs are active.
pub proof fn law_cronjob_described(v: JsonView, a: Seq<JsonView>, b: bool, t: Seq<char>)
    requires
        v.str_of("kind"@) == Some("CronJob"@),
    ensures
        v.str_of2("spec"@, "schedule"@) == Some(t) ==> tells(describe_text(v), "Schedule"@, t),
        v.get2("spec"@, "suspend"@) == Some(JsonView::Bool(b)) ==> tells(describe_text(v), "Suspend"@, (if b {
            "true"@
        } else {
            "false"@
        })),
        v.str_of2("status"@, "lastScheduleTime"@) == Some(t) ==> tells(describe_text(v), "LastSchedule"@, t),
        v.array_of2("status"@, "active"@) == Some(a) ==> tells(describe_text(v), "Active Jobs"@, dec(a.len())),
{
    broadcast use lemma_occurs_either;

    lemma_described(v);
    lemma_pair("Schedule"@, t);
    lemma_pair("Suspend"@, (if b {
            "true"@
        } else {
            "false"@
        }));
    lemma_pair("LastSchedule"@, t);
    lemma_pair("Active Jobs"@, dec(a.len()));
}

/// The description of a service gives its type and address, its selector, and each of its ports
/// with the protocol and the port that it leads to.
pub proof fn law_service_described(v: JsonView, a: Seq<JsonView>, i: int, m: Seq<(Seq<char>, JsonView)>, n: int, r: Seq<char>, s: Seq<char>, t: Seq<char>)
    requires
        v.str_of("kind"@) == Some("Service"@),
    ensures
        v.str_of2("spec"@, "type"@) == Some(t) ==> tells(describe_text(v), "Type"@, t),
        v.str_of2("spec"@, "clusterIP"@) == Some(t) ==> tells(describe_text(v), "ClusterIP"@, t),
        opt_members(v.get2("spec"@, "selector"@)) == Some(m) && 0 <= i < m.len() && m[i] == (t, JsonView::Str(s)) ==> tells(describe_text(v), "  "@ + t, s),
        opt_items(v.get2("spec"@, "ports"@)) == Some(a) && 0 <= i < a.len() && a[i].str_of("name"@) == Some(t) && int_or(a[i].get("port"@), 0) == n && a[i].str_of("protocol"@) == Some(r) && a[i].get("targetPort"@) == Some(JsonView::Str(s)) ==> tells(describe_text(v), "  "@ + t, dec_int(n) + "/"@ + r + " -> "@ + s),
{
    broadcast use lemma_occurs_either;

    lemma_described(v);
    lemma_pair("Type"@, t);
    lemma_pair("ClusterIP"@, t);
    if opt_members(v.get2("spec"@, "selector"@)) == Some(m) && 0 <= i < m.len() && m[i] == (t, JsonView::Str(s)) {
        lemma_section("Selector:\n"@, m, |m: (Seq<char>, JsonView)| label_line(m), i, "  "@ + t, s);
    }
    if opt_items(v.get2("spec"@, "ports"@)) == Some(a) && 0 <= i < a.len() && a[i].str_of("name"@) == Some(t) && int_or(a[i].get("port"@), 0) == n && a[i].str_of("protocol"@) == Some(r) && a[i].get("targetPort"@) == Some(JsonView::Str(s)) {
        lemma_section("Ports:\n"@, a, |c: JsonView| port_line(c), i, "  "@ + t, dec_int(n) + "/"@ + r + " -> "@ + s);
    }
}

/// The description of a secret gives its type and its keys.
pub proof fn law_secret_described(v: JsonView, i: int, m: Seq<(Seq<char>, JsonView)>, t: Seq<char>)
    requires
        v.str_of("kind"@) == Some("Secret"@),
    ensures
        v.str_of("type"@) == Some(t) ==> tells(describe_text(v), "Type"@, t),
        opt_members(v.get("data"@)) == Some(m) && 0 <= i < m.len() && m[i].0 == t ==> tells(describe_text(v), "  "@, t),
{
    broadcast use lemma_occurs_either;

    lemma_described(v);
    lemma_pair("Type"@, t);
    if opt_members(v.get("data"@)) == Some(m) && 0 <= i < m.len() && m[i].0 == t {
        lemma_section("Data keys:\n"@, m, |m: (Seq<char>, JsonView)| key_line(m), i, "  "@, t);
    }
}

/// The description of a secret shows none of its values: two secrets that differ in nothing else
/// are described alike.
pub proof fn law_secret_values_undescribed(m: Seq<(Seq<char>, JsonView)>, n: Seq<(Seq<char>, JsonView)>)
    requires
        m.len() == n.len(),
        forall|i: int| 0 <= i < m.len() ==> (#[trigger] m[i]).0 == n[i].0,
    ensures
        concat(m, |m: (Seq<char>, JsonView)| key_line(m)) == concat(n, |m: (Seq<char>, JsonView)| key_line(m)),
    decreases m.len(),
{
    if m.len() > 0 {
        assert(m.last().0 == n.last().0);
        law_secret_values_undescribed(m.drop_last(), n.drop_last());
    }
}

/// The description of a configuration map gives its keys.
pub proof fn law_configmap_described(v: JsonView, i: int, m: Seq<(Seq<char>, JsonView)>, t: Seq<char>)
    requires
        v.str_of("kind"@) == Some("ConfigMap"@),
    ensures
        opt_members(v.get("data"@)) == Some(m) && 0 <= i < m.len() && m[i].0 == t ==> tells(describe_text(v), "  "@, t),
{
    broadcast use lemma_occurs_either;

    lemma_described(v);
    if opt_members(v.get("data"@)) == Some(m) && 0 <= i < m.len() && m[i].0 == t {
        lemma_section("Data keys:\n"@, m, |m: (Seq<char>, JsonView)| key_line(m), i, "  "@, t);
    }
}

/// The description of a volume claim gives its phase and class, what it requests and what it has.
pub proof fn law_claim_described(v: JsonView, t: Seq<char>)
    requires
        v.str_of("kind"@) == Some("PersistentVolumeClaim"@),
    ensures
        v.str_of2("status"@, "phase"@) == Some(t) ==> tells(describe_text(v), "Phase"@, t),
        v.str_of2("spec"@, "storageClassName"@) == Some(t) ==> tells(describe_text(v), "StorageClass"@, t),
        v.get4("spec"@, "resources"@, "requests"@, "storage"@) == Some(JsonView::Str(t)) ==> tells(describe_text(v), "Requested"@, t),
        v.str_of3("status"@, "capacity"@, "storage"@) == Some(t) ==> tells(describe_text(v), "Capacity"@, t),
{
    broadcast use lemma_occurs_either;

    lemma_described(v);
    lemma_pair("Phase"@, t);
    lemma_pair("StorageClass"@, t);
    lemma_pair("Requested"@, t);
    lemma_pair("Capacity"@, t);
}

/// The description of a namespace gives its phase.
pub proof fn law_namespace_described(v: JsonView, t: Seq<char>)
    requires
        v.str_of("kind"@) == Some("Namespace"@),
    ensures
        v.str_of2("status"@, "phase"@) == Some(t) ==> tells(describe_text(v), "Phase"@, t),
{
    broadcast use lemma_occurs_either;

    lemma_described(v);
    lemma_pair("Phase"@, t);
}

/// The description of a node gives its addresses, its capacity and its conditions.
pub proof fn law_node_described(v: JsonView, a: Seq<JsonView>, i: int, m: Seq<(Seq<char>, JsonView)>, r: Seq<char>, s: Seq<char>, t: Seq<char>)
    requires
        v.str_of("kind"@) == Some("Node"@),
    ensures
        opt_items(v.get2("status"@, "addresses"@)) == Some(a) && 0 <= i < a.len() && a[i].str_of("type"@) == Some(t) && a[i].str_of("address"@) == Some(s) ==> tells(describe_text(v), "  "@ + t, s),
        v.object_of2("status"@, "capacity"@) == Some(m) && 0 <= i < m.len() && m[i] == (t, JsonView::Str(s)) ==> tells(describe_text(v), "  "@ + t, s),
        v.array_of2("status"@, "conditions"@) == Some(a) && 0 <= i < a.len() && a[i].str_of("type"@) == Some(t) && a[i].str_of("status"@) == Some(s) && a[i].str_of("reason"@) == Some(r) ==> tells(describe_text(v), "  "@ + t, s + " "@ + r),
{
    broadcast use lemma_occurs_either;

    lemma_described(v);
    if opt_items(v.get2("status"@, "addresses"@)) == Some(a) && 0 <= i < a.len() && a[i].str_of("type"@) == Some(t) && a[i].str_of("address"@) == Some(s) {
        lemma_section("Addresses:\n"@, a, |c: JsonView| named_line(c, "type"@, "address"@), i, "  "@ + t, s);
    }
    if v.object_of2("status"@, "capacity"@) == Some(m) && 0 <= i < m.len() && m[i] == (t, JsonView::Str(s)) {
        lemma_section("Capacity:\n"@, m, |m: (Seq<char>, JsonView)| capacity_line(m), i, "  "@ + t, s);
    }
    if v.array_of2("status"@, "conditions"@) == Some(a) && 0 <= i < a.len() && a[i].str_of("type"@) == Some(t) && a[i].str_of("status"@) == Some(s) && a[i].str_of("reason"@) == Some(r) {
        lemma_section("Conditions:\n"@, a, |c: JsonView| condition_line(c), i, "  "@ + t, s + " "@ + r);
    }
}

/// A rule of an ingress gives, for each of its paths, the host with the path, and the service
/// and port that it leads to.
pub proof fn law_ingress_rule(r: JsonView, a: Seq<JsonView>, i: int, host: Seq<char>, path: Seq<char>, service: Seq<char>, n: int)
    requires
        r.array_of2("http"@, "paths"@) == Some(a),
        0 <= i < a.len(),
        r.str_of("host"@) == Some(host),
        a[i].str_of("path"@) == Some(path),
        a[i].str_of3("backend"@, "service"@, "name"@) == Some(service),
        int_or(a[i].get4("backend"@, "service"@, "port"@, "number"@), 0) == n,
    ensures
        tells(rule_line(r), "  "@ + (host + path), service + ":"@ + dec_int(n)),
{
    lemma_section(
        Seq::empty(),
        a,
        |p: JsonView| path_line(or_text(r.str_of("host"@), ""@), p),
        i,
        "  "@ + (host + path),
        service + ":"@ + dec_int(n),
    );
}

/// The line of an event gives its time, its type, its reason and its note, and how often it
/// happened where that is more than once.
pub proof fn law_event_line(v: JsonView, time: Seq<char>, kind: Seq<char>, reason: Seq<char>, note: Seq<char>, n: int)
    requires
        v.str_of("eventTime"@) == Some(time) || (v.str_of("eventTime"@) is None && v.str_of(
            "deprecatedLastTimestamp"@,
        ) == Some(time)),
        v.str_of("type"@) == Some(kind),
        v.str_of("reason"@) == Some(reason),
        v.str_of("note"@) == Some(note) || (v.str_of("note"@) is None && v.str_of("message"@) == Some(note)),
        v.int_of("deprecatedCount"@) == Some(n) || (v.int_of("deprecatedCount"@) is None && v.int_of("count"@)
            == Some(n)),
    ensures
        ({
            let head = time + " "@ + pad_left(kind, 7) + " "@ + pad_right(reason, 24) + " "@ + note;
            &&& n <= 1 ==> event_text(v) == head
            &&& n > 1 ==> event_text(v) == head + (" (x"@ + dec_int(n) + ")"@)
        }),
{
    let head = time + " "@ + pad_left(kind, 7) + " "@ + pad_right(reason, 24) + " "@ + note;
    assert(head + Seq::<char>::empty() =~= head);
}

/// Events are asked for by the object's own identity, and not at all where it has none.
pub proof fn law_events_asked(u: Seq<char>, i: int)
    ensures
        event_queries(None).len() == 0,
        u.len() == 0 ==> event_queries(Some(u)).len() == 0,
        u.len() > 0 ==> event_queries(Some(u)).len() == 2,
        0 <= i < event_queries(Some(u)).len() ==> ({
            let q = event_queries(Some(u))[i].1;
            q.len() > u.len() && q.skip(q.len() - u.len()) == u
        }),
{
    reveal_strlit("regarding.uid=");
    reveal_strlit("involvedObject.uid=");
    let a = "regarding.uid="@ + u;
    let b = "involvedObject.uid="@ + u;
    assert(a.skip(a.len() - u.len()) =~= u);
    assert(b.skip(b.len() - u.len()) =~= u);
}

/// Events are listed one to a line, in the order in which they were read.
pub proof fn law_event_lines(a: JsonView, b: JsonView)
    ensures
        event_lines(seq![a, b]) == event_text(a) + "\n"@ + event_text(b),
        event_lines(seq![a]) == event_text(a),
{
    let two = event_texts(seq![a, b]);
    assert(two =~= seq![event_text(a), event_text(b)]);
    assert(two.drop_last() =~= seq![event_text(a)]);
    assert(event_texts(seq![a]) =~= seq![event_text(a)]);
    assert(join(two.drop_last(), "\n"@) =~= event_text(a));
}

} // verus!
