//! What is discovered, listed and watched of a cluster.
//!
//! The cluster itself is spoken to elsewhere: here is what is asked of it, what is made of
//! the answers, and when it is asked again.
use crate::codec::{uuid_bytes, uuid_read};
use crate::columns::{builtin_fields, builtin_projector_for, gvk_key, gvk_text, is_projected_key, BuiltinProjector, Projector};
use crate::json::{
    lemma_object_view, lookup, member_views, opt_str, remove_member, without, Json, JsonView,
};
use crate::order::{codes, is_stable_order, key_seqs, lex_lt, stable_order, text_key, text_lt};
use crate::persist::{join_path, path_join};
use crate::settings::{
    flag_setting, flag_setting_or, number_setting, read_flag, read_flag_or, read_number, read_setting, setting,
    setting_views,
};
use crate::small::{AnnotationVec, LabelVec, ProjectedVec};
use crate::text::{
    ascii_lower, ascii_lowercase, cat3, contains_text, copy_text, occurs, occurs_at, opt_text, parse_unsigned, same_option, same_text,
    string_or,
    text_or, unsigned_value,
};
use crate::types::{clone_option, same_uid, Delta, DeltaKind, LiteEvent, LiteObj, LiteView, Uid};
use vstd::prelude::*;
use vstd::string::*;

verus! {

// ---------------------------------------------------------------------------
// Discovery

/// A kind that the cluster serves.
#[derive(Debug)]
pub struct DiscoveredResource {
    pub group: String,
    pub version: String,
    pub kind: String,
    pub namespaced: bool,
}

/// The model of a `DiscoveredResource`.
pub struct ResourceView {
    pub group: Seq<char>,
    pub version: Seq<char>,
    pub kind: Seq<char>,
    pub namespaced: bool,
}

impl View for DiscoveredResource {
    type V = ResourceView;

    open spec fn view(&self) -> ResourceView {
        ResourceView { group: self.group@, version: self.version@, kind: self.kind@, namespaced: self.namespaced }
    }
}

/// The models of a list of kinds.
pub open spec fn resource_views(v: Seq<DiscoveredResource>) -> Seq<ResourceView> {
    v.map_values(|d: DiscoveredResource| d@)
}

impl DiscoveredResource {
    /// The key of the kind.
    pub fn gvk_key(&self) -> (r: String)
        ensures
            r@ == gvk_text(self.group@, self.version@, self.kind@),
    {
        gvk_key(self.group.as_str(), self.version.as_str(), self.kind.as_str())
    }
}

/// The place of the first kind of a group, a version and a name.
pub open spec fn kind_place(
    kinds: Seq<DiscoveredResource>,
    group: Seq<char>,
    version: Seq<char>,
    kind: Seq<char>,
) -> Option<int>
    decreases kinds.len(),
{
    if kinds.len() == 0 {
        None
    } else if kinds[0].group@ == group && kinds[0].version@ == version && kinds[0].kind@ == kind {
        Some(0)
    } else {
        match kind_place(kinds.skip(1), group, version, kind) {
            Some(i) => Some(i + 1),
            None => None,
        }
    }
}

/// The place of the first kind of a group, a version and a name.
pub fn find_kind(kinds: &Vec<DiscoveredResource>, group: &str, version: &str, kind: &str) -> (r: Option<usize>)
    ensures
        match r {
            Some(i) => i < kinds.len() && kind_place(kinds@, group@, version@, kind@) == Some(i as int),
            None => kind_place(kinds@, group@, version@, kind@) is None,
        },
{
    let mut i: usize = 0;
    assert(kinds@.skip(0) =~= kinds@);
    while i < kinds.len()
        invariant
            i <= kinds.len(),
            kind_place(kinds@, group@, version@, kind@) == (match kind_place(
                kinds@.skip(i as int),
                group@,
                version@,
                kind@,
            ) {
                Some(j) => Some(i + j),
                None => None,
            }),
        decreases kinds.len() - i,
    {
        let k = &kinds[i];
        assert(kinds@.skip(i as int)[0] == kinds@[i as int]);
        assert(kinds@.skip(i as int).skip(1) =~= kinds@.skip(i + 1));
        if same_text(k.group.as_str(), group) && same_text(k.version.as_str(), version) && same_text(
            k.kind.as_str(),
            kind,
        ) {
            return Some(i);
        }
        i += 1;
    }
    None
}

/// The key by which kinds are ordered: group, version and name, each a text on its own.
pub open spec fn resource_key(d: ResourceView) -> Seq<i64> {
    codes(d.group) + seq![-1i64] + codes(d.version) + seq![-1i64] + codes(d.kind)
}

/// The keys by which kinds are ordered.
pub open spec fn resource_keys(v: Seq<ResourceView>) -> Seq<Seq<i64>> {
    Seq::new(v.len(), |i: int| resource_key(v[i]))
}

/// Whether kinds stand in order: by group, then version, then name. Equal ones keep their
/// order.
pub open spec fn resources_ordered(before: Seq<ResourceView>, after: Seq<ResourceView>) -> bool {
    exists|order: Seq<usize>|
        {
            &&& #[trigger] is_stable_order(resource_keys(before), order)
            &&& after == Seq::new(order.len(), |i: int| before[order[i] as int])
        }
}

/// Kinds in order: by group, then version, then name.
pub fn order_resources(v: Vec<DiscoveredResource>) -> (r: Vec<DiscoveredResource>)
    ensures
        resources_ordered(resource_views(v@), resource_views(r@)),
{
    let ghost all = resource_views(v@);
    let mut keys: Vec<Vec<i64>> = Vec::new();
    let mut i: usize = 0;
    while i < v.len()
        invariant
            i <= v.len(),
            all == resource_views(v@),
            keys@.len() == i,
            forall|k: int| 0 <= k < i ==> (#[trigger] keys@[k])@ == resource_key(all[k]),
        decreases v.len() - i,
    {
        let d = &v[i];
        assert(all[i as int] == d@);
        let mut key = text_key(d.group.as_str());
        key.push(-1);
        let mut version = text_key(d.version.as_str());
        key.append(&mut version);
        key.push(-1);
        let mut kind = text_key(d.kind.as_str());
        key.append(&mut kind);
        assert(key@ =~= resource_key(all[i as int]));
        keys.push(key);
        i += 1;
    }
    let order = stable_order(&keys);
    assert(key_seqs(keys@) =~= resource_keys(all));
    let mut out: Vec<DiscoveredResource> = Vec::new();
    let mut j: usize = 0;
    while j < order.len()
        invariant
            j <= order.len(),
            order@.len() == v@.len(),
            all == resource_views(v@),
            forall|k: int| 0 <= k < order@.len() ==> (#[trigger] order@[k]) < v@.len(),
            out@.len() == j,
            forall|k: int| 0 <= k < j ==> (#[trigger] out@[k])@ == all[order@[k] as int],
        decreases order.len() - j,
    {
        let d = &v[order[j]];
        assert(all[order@[j as int] as int] == d@);
        out.push(
            DiscoveredResource {
                group: d.group.clone(),
                version: d.version.clone(),
                kind: d.kind.clone(),
                namespaced: d.namespaced,
            },
        );
        j += 1;
    }
    proof {
        assert(resource_views(out@) =~= Seq::new(order@.len(), |i: int| all[order@[i] as int]));
        assert(is_stable_order(resource_keys(all), order@));
    }
    out
}

/// A kind as it is kept on disk, with the plural under which it is served.
#[derive(Debug)]
pub struct DiskEntry {
    pub group: String,
    pub version: String,
    pub kind: String,
    pub plural: String,
    pub namespaced: bool,
}

/// The API version of a kind: its version in the core group, else group and version.
pub open spec fn api_version_text(group: Seq<char>, version: Seq<char>) -> Seq<char> {
    if group.len() == 0 {
        version
    } else {
        group + "/"@ + version
    }
}

impl DiskEntry {
    /// The API version of the kind.
    pub fn api_version(&self) -> (r: String)
        ensures
            r@ == api_version_text(self.group@, self.version@),
    {
        if self.group.as_str().is_empty() {
            self.version.clone()
        } else {
            cat3(self.group.as_str(), "/", self.version.as_str())
        }
    }

    /// The key of the kind.
    pub fn key(&self) -> (r: String)
        ensures
            r@ == gvk_text(self.group@, self.version@, self.kind@),
    {
        gvk_key(self.group.as_str(), self.version.as_str(), self.kind.as_str())
    }
}

/// The kinds of a list as it is kept on disk.
pub open spec fn entry_views(v: Seq<DiskEntry>) -> Seq<ResourceView> {
    v.map_values(
        |e: DiskEntry|
            ResourceView { group: e.group@, version: e.version@, kind: e.kind@, namespaced: e.namespaced },
    )
}

/// The kinds that were kept on disk, in order.
pub fn resources_from_disk(entries: &Vec<DiskEntry>) -> (r: Vec<DiscoveredResource>)
    ensures
        resources_ordered(entry_views(entries@), resource_views(r@)),
{
    let ghost all = entry_views(entries@);
    let mut out: Vec<DiscoveredResource> = Vec::new();
    let mut i: usize = 0;
    assert(resource_views(out@) =~= all.take(0));
    while i < entries.len()
        invariant
            i <= entries.len(),
            all == entry_views(entries@),
            resource_views(out@) == all.take(i as int),
        decreases entries.len() - i,
    {
        let ghost before = resource_views(out@);
        let e = &entries[i];
        let d = DiscoveredResource {
            group: e.group.clone(),
            version: e.version.clone(),
            kind: e.kind.clone(),
            namespaced: e.namespaced,
        };
        let ghost dv = d@;
        out.push(d);
        assert(resource_views(out@) =~= before.push(dv));
        assert(all[i as int] == dv);
        assert(resource_views(out@) =~= all.take(i + 1));
        i += 1;
    }
    assert(all.take(all.len() as int) =~= all);
    order_resources(out)
}

/// Where discovered kinds are kept.
pub open spec fn cache_dir_of(env: Seq<(Seq<char>, Seq<char>)>) -> Seq<char> {
    match setting(env, "ORKA_DISCOVERY_PATH"@) {
        Some(p) => p,
        None => path_join(
            match setting(env, "HOME"@) {
                Some(h) => h,
                None => "."@,
            },
            ".orka/cache/discovery"@,
        ),
    }
}

/// Where discovered kinds are kept.
pub fn cache_dir(env: &Vec<(String, String)>) -> (r: String)
    ensures
        r@ == cache_dir_of(setting_views(env@)),
{
    match read_setting(env, "ORKA_DISCOVERY_PATH") {
        Some(p) => copy_text(p),
        None => match read_setting(env, "HOME") {
            Some(h) => join_path(h, ".orka/cache/discovery"),
            None => join_path(".", ".orka/cache/discovery"),
        },
    }
}

/// The file in which discovered kinds are kept, and the one that is written before it takes
/// its place.
pub fn cache_files(env: &Vec<(String, String)>) -> (r: (String, String))
    ensures
        r.0@ == path_join(cache_dir_of(setting_views(env@)), "default.json"@),
        r.1@ == path_join(cache_dir_of(setting_views(env@)), "default.json.tmp"@),
{
    let dir = cache_dir(env);
    (join_path(dir.as_str(), "default.json"), join_path(dir.as_str(), "default.json.tmp"))
}

/// How many seconds discovered kinds are kept.
pub fn cache_ttl_secs(env: &Vec<(String, String)>) -> (r: u64)
    ensures
        r == number_setting(setting_views(env@), "ORKA_DISCOVERY_TTL_SECS"@, 86_400),
{
    read_number(env, "ORKA_DISCOVERY_TTL_SECS", 86_400)
}

/// Whether kinds that were kept at a time are still good. A time that is yet to come is.
pub open spec fn fresh_at(now: u64, generated_at: u64, ttl: u64) -> bool {
    now - generated_at <= ttl
}

/// Kinds that were kept stay good for as long as was set, and no longer.
pub proof fn law_fresh(kept: u64, age: u64, ttl: u64)
    requires
        kept + age <= u64::MAX,
    ensures
        fresh_at((kept + age) as u64, kept, ttl) <==> age <= ttl,
        fresh_at(kept, (kept + age) as u64, ttl),
{
}

/// Whether kinds that were kept at a time are still good. A time that is yet to come is.
pub fn is_fresh(now: u64, generated_at: u64, ttl: u64) -> (r: bool)
    ensures
        r == fresh_at(now, generated_at, ttl),
{
    now <= generated_at || now - generated_at <= ttl
}

/// The namespace that is asked for: one, where the kind has namespaces.
pub open spec fn scope_asked(namespaced: bool, namespace: Option<Seq<char>>) -> Option<Seq<char>> {
    if namespaced {
        namespace
    } else {
        None
    }
}

/// A kind without namespaces is asked for everywhere, whatever namespace is chosen; any other in
/// the one that is chosen, and everywhere where none is.
pub proof fn law_scope_asked(namespace: Option<Seq<char>>)
    ensures
        scope_asked(false, namespace) is None,
        scope_asked(true, namespace) == namespace,
{
}

/// The namespace that is asked for: one, where the kind has namespaces.
pub fn scope_for<'a>(namespaced: bool, namespace: Option<&'a str>) -> (r: Option<&'a str>)
    ensures
        opt_str(r) == scope_asked(namespaced, opt_str(namespace)),
{
    if namespaced {
        namespace
    } else {
        None
    }
}

// ---------------------------------------------------------------------------
// Objects

/// The metadata of an object as it is served. Labels and annotations stand in the order of
/// their names.
pub struct Meta {
    pub uid: Option<String>,
    pub name: Option<String>,
    pub namespace: Option<String>,
    pub created: Option<i64>,
    pub labels: Vec<(String, String)>,
    pub annotations: Vec<(String, String)>,
}

/// Why an object cannot be taken in.
#[derive(Clone, Copy, Debug, PartialEq, Eq, Structural)]
pub enum ObjectError {
    NoUid,
    BadUid,
}

/// What is said where an object cannot be taken in.
pub open spec fn object_error_text(e: ObjectError) -> Seq<char> {
    match e {
        ObjectError::NoUid => "object missing metadata.uid"@,
        ObjectError::BadUid => "parsing metadata.uid as uuid"@,
    }
}

impl ObjectError {
    /// What is said of the error.
    pub fn text(&self) -> (r: String)
        ensures
            r@ == object_error_text(*self),
    {
        match self {
            ObjectError::NoUid => copy_text("object missing metadata.uid"),
            ObjectError::BadUid => copy_text("parsing metadata.uid as uuid"),
        }
    }
}

/// The identity of an object, or why it has none.
pub open spec fn identity(uid: Option<Seq<char>>) -> Result<Seq<u8>, ObjectError> {
    match uid {
        None => Err(ObjectError::NoUid),
        Some(s) => match uuid_read(s) {
            None => Err(ObjectError::BadUid),
            Some(b) => Ok(b),
        },
    }
}

/// The identity of an object.
pub fn to_uid(uid: &Option<String>) -> (r: Result<Uid, ObjectError>)
    ensures
        match r {
            Ok(u) => identity(opt_text(*uid)) == Ok::<Seq<u8>, ObjectError>(u@),
            Err(e) => identity(opt_text(*uid)) == Err::<Seq<u8>, ObjectError>(e),
        },
{
    match uid {
        None => Err(ObjectError::NoUid),
        Some(s) => match uuid_bytes(s.as_str()) {
            Err(_) => Err(ObjectError::BadUid),
            Ok(u) => Ok(u),
        },
    }
}

/// The names and values of a list of pairs.
pub open spec fn pairs_of(v: Seq<(String, String)>) -> Seq<(Seq<char>, Seq<char>)> {
    v.map_values(|p: (String, String)| (p.0@, p.1@))
}

/// The first pairs of a list, at most so many.
pub open spec fn first_pairs(s: Seq<(Seq<char>, Seq<char>)>, n: int) -> Seq<(Seq<char>, Seq<char>)> {
    if s.len() > n {
        s.take(n)
    } else {
        s
    }
}

/// How many labels of an object are kept.
pub const LABELS: usize = 128;

/// How many annotations of an object are kept.
pub const ANNOTATIONS: usize = 64;

/// The fields of an object that lists read. Labels and annotations are kept where they are
/// asked for.
pub open spec fn lite_view_of(m: Meta, uid: Seq<u8>, enrich: bool, projected: Seq<(u32, Seq<char>)>) -> LiteView {
    LiteView {
        uid,
        namespace: opt_text(m.namespace),
        name: text_or(m.name, ""@),
        creation_ts: match m.created {
            Some(t) => t,
            None => 0,
        },
        projected,
        labels: if enrich {
            first_pairs(pairs_of(m.labels@), 128)
        } else {
            Seq::empty()
        },
        annotations: if enrich {
            first_pairs(pairs_of(m.annotations@), 64)
        } else {
            Seq::empty()
        },
    }
}

fn keep_labels(v: &Vec<(String, String)>) -> (r: LabelVec)
    ensures
        r@ == first_pairs(pairs_of(v@), 128),
{
    let ghost all = pairs_of(v@);
    let mut out = LabelVec::new();
    let mut i: usize = 0;
    assert(all.take(0) =~= Seq::empty());
    while i < v.len() && i < LABELS
        invariant
            i <= v.len(),
            i <= 128,
            all == pairs_of(v@),
            out@ == all.take(i as int),
        ensures
            i < v.len() ==> i == 128,
        decreases v.len() - i,
    {
        out.push(v[i].0.clone(), v[i].1.clone());
        assert(out@ =~= all.take(i + 1));
        i += 1;
    }
    assert(all.take(all.len() as int) =~= all);
    out
}

fn keep_annotations(v: &Vec<(String, String)>) -> (r: AnnotationVec)
    ensures
        r@ == first_pairs(pairs_of(v@), 64),
{
    let ghost all = pairs_of(v@);
    let mut out = AnnotationVec::new();
    let mut i: usize = 0;
    assert(all.take(0) =~= Seq::empty());
    while i < v.len() && i < ANNOTATIONS
        invariant
            i <= v.len(),
            i <= 64,
            all == pairs_of(v@),
            out@ == all.take(i as int),
        ensures
            i < v.len() ==> i == 64,
        decreases v.len() - i,
    {
        out.push(v[i].0.clone(), v[i].1.clone());
        assert(out@ =~= all.take(i + 1));
        i += 1;
    }
    assert(all.take(all.len() as int) =~= all);
    out
}

/// The fields of an object that lists read, without projected ones.
pub fn lite_from_dynamic(m: &Meta, enrich: bool) -> (r: Result<LiteObj, ObjectError>)
    ensures
        match identity(opt_text(m.uid)) {
            Ok(u) => r matches Ok(o) && o@ == lite_view_of(*m, u, enrich, Seq::empty()),
            Err(e) => r matches Err(x) && x == e,
        },
{
    match to_uid(&m.uid) {
        Err(e) => Err(e),
        Ok(uid) => {
            let labels = if enrich {
                keep_labels(&m.labels)
            } else {
                LabelVec::new()
            };
            let annotations = if enrich {
                keep_annotations(&m.annotations)
            } else {
                AnnotationVec::new()
            };
            Ok(
                LiteObj {
                    uid,
                    namespace: clone_option(&m.namespace),
                    name: string_or(&m.name, ""),
                    creation_ts: match m.created {
                        Some(t) => t,
                        None => 0,
                    },
                    projected: ProjectedVec::new(),
                    labels,
                    annotations,
                },
            )
        },
    }
}

/// How objects of a kind are taken in: with which projected fields, and whether with labels
/// and annotations.
pub struct LiteShape {
    pub projector: Option<BuiltinProjector>,
    pub enrich: bool,
}

/// The projected fields of an object of a kind.
pub open spec fn projected_fields(
    env: Seq<(Seq<char>, Seq<char>)>,
    key: Seq<char>,
    raw: JsonView,
) -> Seq<(u32, Seq<char>)> {
    if is_projected_key(key) && flag_setting_or(env, "ORKA_LITE_PROJECT"@, true) {
        builtin_fields(key, raw)
    } else {
        Seq::empty()
    }
}

impl LiteShape {
    /// Whether a shape is the one that settings ask for, for a kind.
    pub open spec fn is_for(&self, env: Seq<(Seq<char>, Seq<char>)>, key: Seq<char>) -> bool {
        &&& self.enrich == flag_setting(env, "ORKA_LIST_ENRICH"@)
        &&& match self.projector {
            Some(p) => p.gvk_key@ == key && is_projected_key(key) && flag_setting_or(
                env,
                "ORKA_LITE_PROJECT"@,
                true,
            ),
            None => !is_projected_key(key) || !flag_setting_or(env, "ORKA_LITE_PROJECT"@, true),
        }
    }

    /// The shape that settings ask for, for a kind.
    pub fn new(group: &str, version: &str, kind: &str, env: &Vec<(String, String)>) -> (r: LiteShape)
        ensures
            r.is_for(setting_views(env@), gvk_text(group@, version@, kind@)),
    {
        let projector = if read_flag_or(env, "ORKA_LITE_PROJECT", true) {
            builtin_projector_for(group, version, kind)
        } else {
            None
        };
        LiteShape { projector, enrich: read_flag(env, "ORKA_LIST_ENRICH") }
    }

    /// An object in the shape.
    pub fn shape(&self, m: &Meta, raw: &Json) -> (r: Result<LiteObj, ObjectError>)
        ensures
            match identity(opt_text(m.uid)) {
                Ok(u) => r matches Ok(o) && o@ == lite_view_of(
                    *m,
                    u,
                    self.enrich,
                    match self.projector {
                        Some(p) => builtin_fields(p.gvk_key@, raw@),
                        None => Seq::empty(),
                    },
                ),
                Err(e) => r matches Err(x) && x == e,
            },
    {
        match lite_from_dynamic(m, self.enrich) {
            Ok(mut o) => {
                if let Some(p) = &self.projector {
                    o.projected = p.project(raw);
                }
                Ok(o)
            },
            Err(e) => Err(e),
        }
    }
}

/// Objects of a kind are shaped as settings ask: the projected fields of the kind, unless
/// they are switched off.
pub proof fn law_shape(s: LiteShape, env: Seq<(Seq<char>, Seq<char>)>, key: Seq<char>, raw: JsonView)
    requires
        s.is_for(env, key),
    ensures
        projected_fields(env, key, raw) == (match s.projector {
            Some(p) => builtin_fields(p.gvk_key@, raw),
            None => Seq::empty(),
        }),
{
}

/// The members of an object whose metadata says nothing of who manages its fields.
pub open spec fn unmanaged_members(m: Seq<(Seq<char>, JsonView)>) -> Seq<(Seq<char>, JsonView)> {
    m.map_values(
        |x: (Seq<char>, JsonView)|
            if x.0 == "metadata"@ {
                (x.0, unmanaged_metadata(x.1))
            } else {
                x
            },
    )
}

/// Metadata that says nothing of who manages the fields.
pub open spec fn unmanaged_metadata(v: JsonView) -> JsonView {
    match v {
        JsonView::Object(m) => JsonView::Object(without(m, "managedFields"@)),
        _ => v,
    }
}

/// An object whose metadata says nothing of who manages its fields.
pub open spec fn unmanaged(v: JsonView) -> JsonView {
    match v {
        JsonView::Object(m) => JsonView::Object(unmanaged_members(m)),
        _ => v,
    }
}

fn unmanage(v: Json) -> (r: Json)
    ensures
        r@ == unmanaged_metadata(v@),
{
    broadcast use lemma_object_view;

    match v {
        Json::Object(m) => Json::Object(remove_member(m, "managedFields")),
        v => v,
    }
}

/// Take the record of who manages the fields out of an object.
pub fn strip_managed_fields(v: Json) -> (r: Json)
    ensures
        r@ == unmanaged(v@),
{
    broadcast use lemma_object_view;

    match v {
        Json::Object(m) => {
            let ghost all = unmanaged_members(member_views(m@));
            let ghost items = m@;
            let mut out: Vec<(String, Json)> = Vec::new();
            assert(member_views(out@) =~= all.take(0));
            for x in it: m
                invariant
                    it.seq() == items,
                    all == unmanaged_members(member_views(items)),
                    member_views(out@) == all.take(it.index() as int),
            {
                let ghost i = it.index() as int;
                let ghost before = member_views(out@);
                assert(member_views(items)[i] == (x.0@, x.1@));
                let (name, value) = x;
                let kept = if same_text(name.as_str(), "metadata") {
                    unmanage(value)
                } else {
                    value
                };
                assert(all[i] == (name@, kept@));
                let ghost y = (name@, kept@);
                out.push((name, kept));
                assert(member_views(out@) =~= before.push(y));
                assert(member_views(out@) =~= all.take(i + 1));
            }
            assert(all.take(all.len() as int) =~= all);
            Json::Object(out)
        },
        v => v,
    }
}

/// The change of an object.
pub fn delta_from(uid: &Option<String>, raw: Json, kind: DeltaKind) -> (r: Result<Delta, ObjectError>)
    ensures
        match identity(opt_text(*uid)) {
            Ok(u) => r matches Ok(d) && d.uid@ == u && d.kind == kind && d.raw@ == unmanaged(raw@),
            Err(e) => r matches Err(x) && x == e,
        },
{
    match to_uid(uid) {
        Ok(u) => Ok(Delta { uid: u, kind, raw: strip_managed_fields(raw) }),
        Err(e) => Err(e),
    }
}

// ---------------------------------------------------------------------------
// Pages

/// How far a list has been read, page by page.
pub struct Paging {
    pub limit: u32,
    pub token: Option<String>,
    pub done: bool,
}

/// A list after a page: it goes on where the page ended, and is done where there is no more.
pub open spec fn paged(p: Paging, next: Option<String>) -> Paging {
    Paging { limit: p.limit, token: next, done: next is None }
}

/// How many objects are asked for at a time; none is no limit.
pub open spec fn limit_asked(p: Paging) -> Option<u32> {
    if p.limit > 0 {
        Some(p.limit)
    } else {
        None
    }
}

/// A list is read on for as long as pages name where the next one begins, and every page asks
/// for as much as the first.
pub proof fn law_pages(p: Paging, next: Option<String>)
    ensures
        paged(p, next).done <==> next is None,
        paged(p, next).token == next,
        limit_asked(paged(p, next)) == limit_asked(p),
        limit_asked(p) is None <==> p.limit == 0,
        limit_asked(p) matches Some(n) ==> n == p.limit,
{
}

/// How many objects a page has at most; zero for no limit.
pub open spec fn page_limit(env: Seq<(Seq<char>, Seq<char>)>) -> u32 {
    match setting(env, "ORKA_SNAPSHOT_PAGE_LIMIT"@) {
        Some(s) => match unsigned_value(s, u32::MAX as nat) {
            Some(n) => n as u32,
            None => 500,
        },
        None => 500,
    }
}

impl Paging {
    /// Before the first page.
    pub fn start(env: &Vec<(String, String)>) -> (r: Paging)
        ensures
            r.limit == page_limit(setting_views(env@)),
            r.token is None,
            !r.done,
    {
        let limit: u32 = match read_setting(env, "ORKA_SNAPSHOT_PAGE_LIMIT") {
            Some(s) => match parse_unsigned(s, u32::MAX as u64) {
                Some(n) => n as u32,
                None => 500,
            },
            None => 500,
        };
        Paging { limit, token: None, done: false }
    }

    /// What the next page is asked for with: a limit, and the place where the last one ended.
    pub fn request(&self) -> (r: (Option<u32>, Option<&str>))
        ensures
            r.0 == limit_asked(*self),
            opt_str(r.1) == opt_text(self.token),
    {
        (
            if self.limit > 0 {
                Some(self.limit)
            } else {
                None
            },
            match &self.token {
                Some(t) => Some(t.as_str()),
                None => None,
            },
        )
    }

    /// Take a page: where it ended, if there is more.
    pub fn take_page(&mut self, next: Option<String>)
        ensures
            *final(self) == paged(*old(self), next),
    {
        self.done = next.is_none();
        self.token = next;
    }
}

// ---------------------------------------------------------------------------
// Watches

/// A watch that is opened again and again: how long it waits after a failure, and how often
/// it reads everything anew.
#[derive(Debug, Clone, Copy, PartialEq, Eq, Structural)]
pub struct Watcher {
    pub backoff: u64,
    pub backoff_max: u64,
    pub relist_secs: u64,
}

/// The next wait: twice as long, at most so long, one second at least.
pub open spec fn next_backoff(b: u64, max: u64) -> u64 {
    let twice = if 2 * b < max {
        2 * b
    } else {
        max as int
    };
    if twice < 1 {
        1
    } else {
        twice as u64
    }
}

/// The lesser of two waits.
pub open spec fn shorter(a: u64, b: u64) -> u64 {
    if a < b {
        a
    } else {
        b
    }
}

/// By how much the next full read is moved: a part of the jitter, back or forth.
pub open spec fn jitter_by(jitter: i64, nanos: u32) -> int {
    if jitter > 0 {
        let part = nanos as int % (jitter + 1);
        if nanos % 2 == 0 {
            part
        } else {
            -part
        }
    } else {
        0
    }
}

/// The seconds until the next full read; one at least.
pub open spec fn relist_seconds(secs: u64, jitter: i64, nanos: u32) -> int {
    let t = secs + jitter_by(jitter, nanos);
    if t < 1 {
        1
    } else {
        t
    }
}

/// Whether an error says that the place from which the watch went on is too old.
pub open spec fn is_expired(error: Seq<char>) -> bool {
    occurs(error, "410"@) || occurs(ascii_lower(error), "expired"@)
}

/// Whether an error says that the place from which the watch went on is too old.
pub fn expired(error: &str) -> (r: bool)
    ensures
        r == is_expired(error@),
{
    if contains_text(error, "410") {
        return true;
    }
    let low = ascii_lowercase(error);
    contains_text(low.as_str(), "expired")
}

impl Watcher {
    /// Before the watch is opened first.
    pub fn new(env: &Vec<(String, String)>) -> (r: Watcher)
        ensures
            r.backoff == 1,
            r.relist_secs == number_setting(setting_views(env@), "ORKA_RELIST_SECS"@, 300),
            r.backoff_max == number_setting(setting_views(env@), "ORKA_WATCH_BACKOFF_MAX_SECS"@, 30),
    {
        Watcher {
            backoff: 1,
            backoff_max: read_number(env, "ORKA_WATCH_BACKOFF_MAX_SECS", 30),
            relist_secs: read_number(env, "ORKA_RELIST_SECS", 300),
        }
    }

    /// The seconds until everything is read anew. The jitter is a tenth of the interval; the
    /// nanoseconds of the clock say how much of it is taken.
    pub fn relist_after(&self, jitter: i64, nanos: u32) -> (r: u64)
        requires
            self.relist_secs < i64::MAX - 1_000_000_000,
            nanos < 1_000_000_000,
            jitter < i64::MAX,
        ensures
            r == relist_seconds(self.relist_secs, jitter, nanos),
    {
        let secs: i64 = self.relist_secs as i64;
        let by: i64 = if jitter > 0 {
            let m: i64 = nanos as i64 % (jitter + 1);
            proof {
                assert(m <= nanos && m >= 0) by (nonlinear_arith)
                    requires
                        m == nanos as int % (jitter + 1),
                        jitter > 0,
                        nanos >= 0,
                ;
            }
            if nanos % 2 == 0 {
                m
            } else {
                0 - m
            }
        } else {
            0
        };
        let t: i64 = secs + by;
        if t < 1 {
            1
        } else {
            t as u64
        }
    }

    /// The stream ended or failed: the seconds to wait before it is opened again.
    pub fn ended(&mut self) -> (wait: u64)
        ensures
            wait == shorter(old(self).backoff, old(self).backoff_max),
            *final(self) == (Watcher {
                backoff: next_backoff(old(self).backoff, old(self).backoff_max),
                ..*old(self)
            }),
    {
        let wait: u64 = if self.backoff < self.backoff_max {
            self.backoff
        } else {
            self.backoff_max
        };
        let twice: u128 = self.backoff as u128 * 2;
        let capped: u64 = if twice < self.backoff_max as u128 {
            twice as u64
        } else {
            self.backoff_max
        };
        self.backoff = if capped < 1 {
            1
        } else {
            capped
        };
        wait
    }

    /// It is time to read everything anew: the next failure waits as the first one did.
    pub fn relisted(&mut self)
        ensures
            *final(self) == (Watcher { backoff: 1, ..*old(self) }),
    {
        self.backoff = 1;
    }
}

/// What a watch is told of its stream.
#[derive(Debug)]
pub enum WatchNews {
    /// A change came, and was handed on.
    Sent,
    /// A change came, and nobody takes changes any more.
    Closed,
    /// The stream ended.
    Ended,
    /// The stream failed.
    Failed(String),
    /// It is time to read everything anew.
    Due,
}

/// What a watch does next.
#[derive(Debug, Clone, Copy, PartialEq, Eq, Structural)]
pub enum WatchAction {
    /// Wait for what the stream tells next.
    GoOn,
    /// Stop for good.
    Stop,
    /// Wait so many seconds, and open the stream again.
    Reopen(u64),
    /// Read every object once, wait so many seconds, and open the stream again.
    ListAndReopen(u64),
}

/// What a watch does next, and how it goes on. After an end or a failure it waits; where the
/// place from which it went on is too old, a watch that lists reads every object first. When
/// it is time to read everything anew, the stream is opened again at once.
pub open spec fn watched(w: Watcher, news: WatchNews, lists: bool) -> (Watcher, WatchAction) {
    let wait = shorter(w.backoff, w.backoff_max);
    let tired = Watcher { backoff: next_backoff(w.backoff, w.backoff_max), ..w };
    match news {
        WatchNews::Sent => (w, WatchAction::GoOn),
        WatchNews::Closed => (w, WatchAction::Stop),
        WatchNews::Ended => (tired, WatchAction::Reopen(wait)),
        WatchNews::Failed(e) => if lists && is_expired(e@) {
            (tired, WatchAction::ListAndReopen(wait))
        } else {
            (tired, WatchAction::Reopen(wait))
        },
        WatchNews::Due => (Watcher { backoff: 1, ..w }, WatchAction::Reopen(0)),
    }
}

impl Watcher {
    /// Take what the stream tells, and say what comes next. A watch of whole objects lists
    /// again where its place is too old; one of shaped objects only opens its stream again.
    pub fn watch_step(&mut self, news: WatchNews, lists: bool) -> (r: WatchAction)
        ensures
            (*final(self), r) == watched(*old(self), news, lists),
    {
        match news {
            WatchNews::Sent => WatchAction::GoOn,
            WatchNews::Closed => WatchAction::Stop,
            WatchNews::Ended => {
                let wait: u64 = self.ended();
                WatchAction::Reopen(wait)
            },
            WatchNews::Failed(e) => {
                let wait: u64 = self.ended();
                if lists && expired(e.as_str()) {
                    WatchAction::ListAndReopen(wait)
                } else {
                    WatchAction::Reopen(wait)
                }
            },
            WatchNews::Due => {
                self.relisted();
                WatchAction::Reopen(0)
            },
        }
    }
}

/// A watch stops only when nobody takes its changes any more, and never waits longer than
/// its longest wait.
pub proof fn law_watch_goes_on(w: Watcher, news: WatchNews, lists: bool)
    ensures
        watched(w, news, lists).1 is Stop <==> news is Closed,
        watched(w, news, lists).1 matches WatchAction::Reopen(t) ==> t <= w.backoff_max,
        watched(w, news, lists).1 matches WatchAction::ListAndReopen(t) ==> t <= w.backoff_max && lists,
        watched(w, news, lists).0.backoff_max == w.backoff_max,
        watched(w, news, lists).0.relist_secs == w.relist_secs,
{
}

/// The wait after some failures in a row.
pub open spec fn backoff_after(max: u64, failures: nat) -> u64
    decreases failures,
{
    if failures == 0 {
        1
    } else {
        next_backoff(backoff_after(max, (failures - 1) as nat), max)
    }
}

/// Two to the power of a number.
pub open spec fn pow_two(n: nat) -> nat
    decreases n,
{
    if n == 0 {
        1
    } else {
        2 * pow_two((n - 1) as nat)
    }
}

/// The wait doubles with each failure in a row, up to the longest one; it is never shorter
/// than one second, and never longer than the longest one.
pub proof fn law_backoff(max: u64, failures: nat)
    ensures
        1 <= backoff_after(max, failures),
        max >= 1 ==> backoff_after(max, failures) == if pow_two(failures) < max {
            pow_two(failures) as u64
        } else {
            max
        },
        max == 0 ==> backoff_after(max, failures) == 1,
        shorter(backoff_after(max, failures), max) <= max,
    decreases failures,
{
    if failures > 0 {
        law_backoff(max, (failures - 1) as nat);
    }
}

/// The next full read is moved by the jitter at most.
pub proof fn law_jitter(secs: u64, jitter: i64, nanos: u32)
    requires
        0 <= jitter,
        jitter < secs,
    ensures
        secs - jitter <= relist_seconds(secs, jitter, nanos) <= secs + jitter,
        1 <= relist_seconds(secs, jitter, nanos),
{
    if jitter > 0 {
        let m = nanos as int % (jitter + 1);
        assert(0 <= m <= jitter) by (nonlinear_arith)
            requires
                m == nanos as int % (jitter + 1),
                jitter > 0,
        ;
    }
}

/// What a watch tells.
pub enum WatchEvent {
    Applied(Meta, Json),
    Deleted(Meta, Json),
    Restarted(Vec<(Meta, Json)>),
}

/// Whether an event carries an object in a shape.
pub open spec fn carries(s: LiteShape, m: Meta, raw: JsonView, o: LiteView) -> bool {
    identity(opt_text(m.uid)) matches Ok(u) && o == lite_view_of(
        m,
        u,
        s.enrich,
        match s.projector {
            Some(p) => builtin_fields(p.gvk_key@, raw),
            None => Seq::empty(),
        },
    )
}

/// Why an event cannot be taken in: the error of the first object that cannot.
pub open spec fn first_error(list: Seq<(Meta, Json)>) -> Option<ObjectError>
    decreases list.len(),
{
    if list.len() == 0 {
        None
    } else {
        match first_error(list.drop_last()) {
            Some(e) => Some(e),
            None => match identity(opt_text(list.last().0.uid)) {
                Ok(_) => None,
                Err(e) => Some(e),
            },
        }
    }
}

/// Whether objects are passed on as applied, in a shape.
pub open spec fn all_applied(s: LiteShape, list: Seq<(Meta, Json)>, v: Seq<LiteEvent>) -> bool {
    &&& v.len() == list.len()
    &&& forall|i: int|
        0 <= i < v.len() ==> (#[trigger] v[i] matches LiteEvent::Applied(o) && carries(
            s,
            list[i].0,
            list[i].1@,
            o@,
        ))
}

fn restarted_events(shape: &LiteShape, list: &Vec<(Meta, Json)>) -> (r: Result<Vec<LiteEvent>, ObjectError>)
    ensures
        match first_error(list@) {
            None => r matches Ok(v) && all_applied(*shape, list@, v@),
            Some(e) => r matches Err(x) && x == e,
        },
{
    let mut out: Vec<LiteEvent> = Vec::new();
    let mut i: usize = 0;
    assert(list@.take(0) =~= Seq::empty());
    while i < list.len()
        invariant
            i <= list.len(),
            out@.len() == i,
            first_error(list@.take(i as int)) is None,
            forall|k: int|
                0 <= k < i ==> (#[trigger] out@[k] matches LiteEvent::Applied(o) && carries(
                    *shape,
                    list@[k].0,
                    list@[k].1@,
                    o@,
                )),
        decreases list.len() - i,
    {
        assert(list@.take(i + 1).drop_last() =~= list@.take(i as int));
        assert(list@.take(i + 1).last() == list@[i as int]);
        match shape.shape(&list[i].0, &list[i].1) {
            Ok(o) => {
                out.push(LiteEvent::Applied(o));
            },
            Err(e) => {
                proof {
                    lemma_error_stays(list@, i + 1);
                }
                return Err(e);
            },
        }
        i += 1;
    }
    assert(list@.take(list@.len() as int) =~= list@);
    Ok(out)
}

/// Why an event cannot be told: an object of it has no identity.
pub open spec fn event_error(event: WatchEvent) -> Option<ObjectError> {
    match event {
        WatchEvent::Applied(m, _) => match identity(opt_text(m.uid)) {
            Ok(_) => None,
            Err(e) => Some(e),
        },
        WatchEvent::Deleted(m, _) => match identity(opt_text(m.uid)) {
            Ok(_) => None,
            Err(e) => Some(e),
        },
        WatchEvent::Restarted(list) => first_error(list@),
    }
}

/// Whether an event is told by these.
pub open spec fn told_as(shape: LiteShape, event: WatchEvent, v: Seq<LiteEvent>) -> bool {
    match event {
        WatchEvent::Applied(m, raw) => v.len() == 1 && (v[0] matches LiteEvent::Applied(o) && carries(
            shape,
            m,
            raw@,
            o@,
        )),
        WatchEvent::Deleted(m, raw) => v.len() == 1 && (v[0] matches LiteEvent::Deleted(o) && carries(
            shape,
            m,
            raw@,
            o@,
        )),
        WatchEvent::Restarted(list) => all_applied(shape, list@, v),
    }
}

/// The events that are passed on for what a watch tells: objects in a shape. A restart
/// passes every object on as applied. One object without an identity fails the watch.
pub fn lite_events(shape: &LiteShape, event: WatchEvent) -> (r: Result<Vec<LiteEvent>, ObjectError>)
    ensures
        match r {
            Ok(v) => event_error(event) is None && told_as(*shape, event, v@),
            Err(e) => event_error(event) == Some(e),
        },
{
    match event {
        WatchEvent::Applied(m, raw) => match shape.shape(&m, &raw) {
            Ok(o) => Ok(vec![LiteEvent::Applied(o)]),
            Err(e) => Err(e),
        },
        WatchEvent::Deleted(m, raw) => match shape.shape(&m, &raw) {
            Ok(o) => Ok(vec![LiteEvent::Deleted(o)]),
            Err(e) => Err(e),
        },
        WatchEvent::Restarted(list) => restarted_events(shape, &list),
    }
}

proof fn lemma_error_stays(list: Seq<(Meta, Json)>, n: int)
    requires
        0 <= n <= list.len(),
        first_error(list.take(n)) is Some,
    ensures
        first_error(list) == first_error(list.take(n)),
    decreases list.len(),
{
    if n < list.len() {
        assert(list.drop_last().take(n) =~= list.take(n));
        lemma_error_stays(list.drop_last(), n);
    } else {
        assert(list.take(n) =~= list);
    }
}

// ---------------------------------------------------------------------------
// The same change told twice

/// The model of a `LiteEvent`.
pub enum LiteEventView {
    Applied(LiteView),
    Deleted(LiteView),
}

impl View for LiteEvent {
    type V = LiteEventView;

    open spec fn view(&self) -> LiteEventView {
        match self {
            LiteEvent::Applied(o) => LiteEventView::Applied(o@),
            LiteEvent::Deleted(o) => LiteEventView::Deleted(o@),
        }
    }
}

/// The model of an optional event.
pub open spec fn opt_event(e: Option<LiteEvent>) -> Option<LiteEventView> {
    match e {
        Some(x) => Some(x@),
        None => None,
    }
}

/// Changes on their way to whoever takes them. The last one that was handed on is kept.
pub struct LiteFeed {
    pub last: Option<LiteEvent>,
}

/// The changes that are handed on: one that is the same as the one before it is not.
pub open spec fn handed_on(last: Option<LiteEventView>, events: Seq<LiteEventView>) -> Seq<LiteEventView>
    decreases events.len(),
{
    if events.len() == 0 {
        events
    } else if last == Some(events[0]) {
        handed_on(last, events.skip(1))
    } else {
        seq![events[0]] + handed_on(Some(events[0]), events.skip(1))
    }
}

fn same_projected(a: &ProjectedVec, b: &ProjectedVec) -> (r: bool)
    ensures
        r == (a@ == b@),
{
    if a.len() != b.len() {
        return false;
    }
    let mut i: usize = 0;
    while i < a.len()
        invariant
            i <= a@.len(),
            a@.len() == b@.len(),
            a@.take(i as int) =~= b@.take(i as int),
        decreases a@.len() - i,
    {
        let (x, s) = a.get(i);
        let (y, t) = b.get(i);
        if x != y || !same_text(s, t) {
            assert(a@[i as int] != b@[i as int]);
            return false;
        }
        assert(a@.take(i + 1) =~= a@.take(i as int).push(a@[i as int]));
        assert(b@.take(i + 1) =~= b@.take(i as int).push(b@[i as int]));
        i += 1;
    }
    assert(a@.take(i as int) =~= a@);
    assert(b@.take(i as int) =~= b@);
    true
}

fn same_labels(a: &LabelVec, b: &LabelVec) -> (r: bool)
    ensures
        r == (a@ == b@),
{
    if a.len() != b.len() {
        return false;
    }
    let mut i: usize = 0;
    while i < a.len()
        invariant
            i <= a@.len(),
            a@.len() == b@.len(),
            a@.take(i as int) =~= b@.take(i as int),
        decreases a@.len() - i,
    {
        let (x, s) = a.get(i);
        let (y, t) = b.get(i);
        if !same_text(x, y) || !same_text(s, t) {
            assert(a@[i as int] != b@[i as int]);
            return false;
        }
        assert(a@.take(i + 1) =~= a@.take(i as int).push(a@[i as int]));
        assert(b@.take(i + 1) =~= b@.take(i as int).push(b@[i as int]));
        i += 1;
    }
    assert(a@.take(i as int) =~= a@);
    assert(b@.take(i as int) =~= b@);
    true
}

fn same_annotations(a: &AnnotationVec, b: &AnnotationVec) -> (r: bool)
    ensures
        r == (a@ == b@),
{
    if a.len() != b.len() {
        return false;
    }
    let mut i: usize = 0;
    while i < a.len()
        invariant
            i <= a@.len(),
            a@.len() == b@.len(),
            a@.take(i as int) =~= b@.take(i as int),
        decreases a@.len() - i,
    {
        let (x, s) = a.get(i);
        let (y, t) = b.get(i);
        if !same_text(x, y) || !same_text(s, t) {
            assert(a@[i as int] != b@[i as int]);
            return false;
        }
        assert(a@.take(i + 1) =~= a@.take(i as int).push(a@[i as int]));
        assert(b@.take(i + 1) =~= b@.take(i as int).push(b@[i as int]));
        i += 1;
    }
    assert(a@.take(i as int) =~= a@);
    assert(b@.take(i as int) =~= b@);
    true
}

/// Whether two objects are the same in everything that lists show of them.
pub fn same_lite(a: &LiteObj, b: &LiteObj) -> (r: bool)
    ensures
        r == (a@ == b@),
{
    same_option(&a.namespace, &b.namespace) && same_uid(&a.uid, &b.uid) && same_text(a.name.as_str(), b.name.as_str()) && a.creation_ts == b.creation_ts
        && same_projected(&a.projected, &b.projected) && same_labels(&a.labels, &b.labels) && same_annotations(
        &a.annotations,
        &b.annotations,
    )
}

/// Whether two changes are the same.
pub fn same_event(a: &LiteEvent, b: &LiteEvent) -> (r: bool)
    ensures
        r == (a@ == b@),
{
    match (a, b) {
        (LiteEvent::Applied(x), LiteEvent::Applied(y)) => same_lite(x, y),
        (LiteEvent::Deleted(x), LiteEvent::Deleted(y)) => same_lite(x, y),
        _ => false,
    }
}

impl LiteFeed {
    /// Before the first change.
    pub fn new() -> (r: LiteFeed)
        ensures
            r.last is None,
    {
        LiteFeed { last: None }
    }

    /// Take a change: it is handed on, unless it is the same as the one before it.
    pub fn step(&mut self, event: LiteEvent) -> (r: Option<LiteEvent>)
        ensures
            opt_event(final(self).last) == Some(event@),
            opt_event(r) == if opt_event(old(self).last) == Some(event@) {
                None
            } else {
                Some(event@)
            },
            handed_on(opt_event(old(self).last), seq![event@]) == match opt_event(r) {
                Some(e) => seq![e],
                None => Seq::empty(),
            },
    {
        proof {
            let one = seq![event@];
            assert(one.skip(1) =~= Seq::empty());
            assert(handed_on(opt_event(self.last), one.skip(1)) =~= Seq::empty());
            assert(handed_on(Some(event@), one.skip(1)) =~= Seq::empty());
            assert(seq![event@] + Seq::empty() =~= seq![event@]);
        }
        if let Some(last) = &self.last {
            if same_event(last, &event) {
                return None;
            }
        }
        let kept = match &event {
            LiteEvent::Applied(o) => LiteEvent::Applied(o.clone()),
            LiteEvent::Deleted(o) => LiteEvent::Deleted(o.clone()),
        };
        self.last = Some(kept);
        Some(event)
    }
}

/// Nothing is handed on twice in a row, and where nothing is told twice in a row everything
/// is handed on, in order and as it came.
pub proof fn law_handed_on(last: Option<LiteEventView>, events: Seq<LiteEventView>)
    ensures
        handed_on(last, events).len() > 0 ==> Some(handed_on(last, events)[0]) != last,
        forall|i: int|
            0 <= i < handed_on(last, events).len() - 1 ==> handed_on(last, events)[i] != #[trigger] handed_on(
                last,
                events,
            )[i + 1],
        (events.len() > 0 ==> Some(events[0]) != last) && (forall|i: int|
            0 < i < events.len() ==> events[i - 1] != #[trigger] events[i]) ==> handed_on(last, events) == events,
    decreases events.len(),
{
    if events.len() > 0 {
        let rest = events.skip(1);
        if last == Some(events[0]) {
            law_handed_on(last, rest);
        } else {
            law_handed_on(Some(events[0]), rest);
            let out = handed_on(last, events);
            let tail = handed_on(Some(events[0]), rest);
            assert forall|i: int| 0 <= i < out.len() - 1 implies out[i] != #[trigger] out[i + 1] by {
                if i > 0 {
                    assert(out[i] == tail[i - 1] && out[i + 1] == tail[i - 1 + 1]);
                }
            }
            if forall|i: int| 0 < i < events.len() ==> events[i - 1] != #[trigger] events[i] {
                assert forall|i: int| 0 < i < rest.len() implies rest[i - 1] != #[trigger] rest[i] by {
                    assert(rest[i] == events[i + 1] && rest[i - 1] == events[i]);
                }
                if rest.len() > 0 {
                    assert(rest[0] == events[1]);
                }
                assert(out =~= events);
            }
        }
    }
}

// ---------------------------------------------------------------------------
// What lists and watches bring

/// Keys whose texts end in a mark below every character are ordered by the texts first, and by
/// what stands behind the marks where these are equal.
pub proof fn lemma_separated(a: Seq<char>, x: Seq<i64>, b: Seq<char>, y: Seq<i64>)
    ensures
        lex_lt(codes(a) + seq![-1i64] + x, codes(b) + seq![-1i64] + y) <==> text_lt(a, b) || (a == b && lex_lt(x, y)),
    decreases a.len(),
{
    let s = codes(a) + seq![-1i64] + x;
    let t = codes(b) + seq![-1i64] + y;
    if a.len() == 0 && b.len() == 0 {
        assert(a =~= b);
        assert(s.skip(1) =~= x && t.skip(1) =~= y);
        assert(!text_lt(a, b));
    } else if a.len() == 0 {
        assert(s[0] == -1 && t[0] == b[0] as i64);
        crate::order::lemma_code(b[0]);
        assert(text_lt(a, b));
    } else if b.len() == 0 {
        assert(t[0] == -1 && s[0] == a[0] as i64);
        crate::order::lemma_code(a[0]);
        assert(!text_lt(a, b));
    } else {
        assert(s[0] == a[0] as i64 && t[0] == b[0] as i64);
        crate::order::lemma_code(a[0]);
        crate::order::lemma_code(b[0]);
        let (p, q) = (a.skip(1), b.skip(1));
        lemma_separated(p, x, q, y);
        assert(s.skip(1) =~= codes(p) + seq![-1i64] + x);
        assert(t.skip(1) =~= codes(q) + seq![-1i64] + y);
        assert(codes(a).skip(1) =~= codes(p));
        assert(codes(b).skip(1) =~= codes(q));
        if p == q && a[0] == b[0] {
            assert(a =~= seq![a[0]] + p);
            assert(b =~= seq![b[0]] + q);
        }
    }
}

/// Kinds are listed by group, then by version, then by name.
pub proof fn law_kinds_ordered(before: Seq<ResourceView>, after: Seq<ResourceView>, i: int, j: int)
    requires
        resources_ordered(before, after),
        0 <= i < j < after.len(),
    ensures
        after.len() == before.len(),
        before.contains(after[i]),
        !text_lt(after[j].group, after[i].group),
        after[i].group == after[j].group ==> !text_lt(after[j].version, after[i].version),
        after[i].group == after[j].group && after[i].version == after[j].version ==> !text_lt(
            after[j].kind,
            after[i].kind,
        ),
{
    let keys = resource_keys(before);
    let order = choose|order: Seq<usize>|
        {
            &&& #[trigger] is_stable_order(keys, order)
            &&& after == Seq::new(order.len(), |i: int| before[order[i] as int])
        };
    let (a, b) = (order[i] as int, order[j] as int);
    assert(crate::order::before(keys, a, b));
    if lex_lt(keys[a], keys[b]) && lex_lt(keys[b], keys[a]) {
        crate::order::lemma_lex_transitive(keys[a], keys[b], keys[a]);
        crate::order::lemma_lex_irreflexive(keys[a]);
    }
    let (x, y) = (before[a], before[b]);
    assert(after[i] == x && after[j] == y);
    let tail_x = codes(x.version) + seq![-1i64] + codes(x.kind);
    let tail_y = codes(y.version) + seq![-1i64] + codes(y.kind);
    assert(resource_key(x) =~= codes(x.group) + seq![-1i64] + tail_x);
    assert(resource_key(y) =~= codes(y.group) + seq![-1i64] + tail_y);
    lemma_separated(y.group, tail_y, x.group, tail_x);
    lemma_separated(y.version, codes(y.kind), x.version, codes(x.kind));
}

/// The kind that is found is the first that has the group, the version and the name; none is
/// found where there is none.
pub proof fn law_kind_found(
    kinds: Seq<DiscoveredResource>,
    group: Seq<char>,
    version: Seq<char>,
    kind: Seq<char>,
    i: int,
)
    requires
        0 <= i < kinds.len(),
        kinds[i].group@ == group && kinds[i].version@ == version && kinds[i].kind@ == kind,
    ensures
        kind_place(kinds, group, version, kind) matches Some(p) && {
            &&& 0 <= p <= i
            &&& kinds[p].group@ == group
            &&& kinds[p].version@ == version
            &&& kinds[p].kind@ == kind
        },
    decreases kinds.len(),
{
    if !(kinds[0].group@ == group && kinds[0].version@ == version && kinds[0].kind@ == kind) {
        law_kind_found(kinds.skip(1), group, version, kind, i - 1);
    }
}

/// A kind that is found is one that was asked for.
pub proof fn law_kind_is_asked_for(kinds: Seq<DiscoveredResource>, group: Seq<char>, version: Seq<char>, kind: Seq<char>)
    ensures
        kind_place(kinds, group, version, kind) matches Some(p) ==> {
            &&& 0 <= p < kinds.len()
            &&& kinds[p].group@ == group
            &&& kinds[p].version@ == version
            &&& kinds[p].kind@ == kind
        },
    decreases kinds.len(),
{
    if kinds.len() > 0 {
        law_kind_is_asked_for(kinds.skip(1), group, version, kind);
    }
}

/// A row has the identity, the name, the namespace and the time of creation of its object. It
/// has labels and notes only where lists are enriched: the first ones, as many as fit.
pub proof fn law_row_of_object(m: Meta, uid: Seq<u8>, fields: Seq<(u32, Seq<char>)>, name: String, created: i64)
    ensures
        ({
            let plain = lite_view_of(m, uid, false, fields);
            let rich = lite_view_of(m, uid, true, fields);
            &&& plain.uid == uid && rich.uid == uid
            &&& plain.projected == fields && rich.projected == fields
            &&& plain.namespace == opt_text(m.namespace)
            &&& m.name == Some(name) ==> plain.name == name@
            &&& m.created == Some(created) ==> plain.creation_ts == created
            &&& m.created is None ==> plain.creation_ts == 0
            &&& plain.labels.len() == 0 && plain.annotations.len() == 0
            &&& rich.labels.len() <= 128 && rich.annotations.len() <= 64
            &&& m.labels@.len() <= 128 ==> rich.labels.len() == m.labels@.len()
            &&& m.annotations@.len() <= 64 ==> rich.annotations.len() == m.annotations@.len()
            &&& forall|i: int|
                0 <= i < rich.labels.len() ==> #[trigger] rich.labels[i] == (m.labels@[i].0@, m.labels@[i].1@)
            &&& forall|i: int|
                0 <= i < rich.annotations.len() ==> #[trigger] rich.annotations[i] == (
                    m.annotations@[i].0@,
                    m.annotations@[i].1@,
                )
        }),
{
}

/// Fields are told where the kind has some and settings do not forbid it; labels only where
/// settings ask for them.
pub proof fn law_fields_switched_off(s: LiteShape, env: Seq<(Seq<char>, Seq<char>)>, key: Seq<char>, raw: JsonView)
    requires
        s.is_for(env, key),
    ensures
        !flag_setting_or(env, "ORKA_LITE_PROJECT"@, true) ==> projected_fields(env, key, raw).len() == 0,
        flag_setting_or(env, "ORKA_LITE_PROJECT"@, true) && is_projected_key(key) ==> projected_fields(env, key, raw)
            == builtin_fields(key, raw),
        s.enrich <==> flag_setting(env, "ORKA_LIST_ENRICH"@),
{
}

/// An event of an object that changed tells that it is there, and one of an object that went
/// tells that it is gone; after a restart everything that is there is told anew, in order.
pub proof fn law_events_told(shape: LiteShape, m: Meta, raw: Json, list: Vec<(Meta, Json)>, v: Seq<LiteEvent>, i: int)
    ensures
        told_as(shape, WatchEvent::Applied(m, raw), v) ==> v.len() == 1 && v[0] is Applied,
        told_as(shape, WatchEvent::Deleted(m, raw), v) ==> v.len() == 1 && v[0] is Deleted,
        told_as(shape, WatchEvent::Restarted(list), v) ==> v.len() == list@.len() && (0 <= i < v.len() ==> v[i] is Applied),
{
}

proof fn lemma_unmanaged_lookup(m: Seq<(Seq<char>, JsonView)>, key: Seq<char>)
    ensures
        lookup(unmanaged_members(m), key) == match lookup(m, key) {
            Some(v) => Some(
                if key == "metadata"@ {
                    unmanaged_metadata(v)
                } else {
                    v
                },
            ),
            None => None,
        },
    decreases m.len(),
{
    let u = unmanaged_members(m);
    if m.len() > 0 {
        assert(u[0].0 == m[0].0);
        if m[0].0 != key {
            lemma_unmanaged_lookup(m.skip(1), key);
            assert(u.skip(1) =~= unmanaged_members(m.skip(1)));
        }
    }
}

/// What a watch hands on has no managed fields; everything else of the object stands.
pub proof fn law_managed_fields_gone(v: JsonView, key: Seq<char>)
    ensures
        unmanaged(v).get2("metadata"@, "managedFields"@) is None,
        key != "metadata"@ ==> unmanaged(v).get(key) == v.get(key),
        key != "managedFields"@ ==> unmanaged(v).get2("metadata"@, key) == v.get2("metadata"@, key),
{
    if let JsonView::Object(m) = v {
        lemma_unmanaged_lookup(m, "metadata"@);
        lemma_unmanaged_lookup(m, key);
        if let Some(JsonView::Object(mm)) = lookup(m, "metadata"@) {
            crate::json::lemma_without(mm, "managedFields"@, key);
        }
    }
}

/// A watch goes on after a change, and after its stream ended or failed it opens it again: it
/// waits as long as its patience says, and the next time twice as long, up to the limit. A
/// stream that fails because it is too old makes it read everything once, where it lists; when
/// it is due to read everything, it opens the stream anew at once and is patient again.
pub proof fn law_watch_answers(w: Watcher, error: String, lists: bool)
    requires
        1 <= w.backoff <= w.backoff_max,
    ensures
        watched(w, WatchNews::Sent, lists) == (w, WatchAction::GoOn),
        watched(w, WatchNews::Ended, lists).1 == WatchAction::Reopen(w.backoff),
        watched(w, WatchNews::Ended, lists).0.backoff == if 2 * w.backoff <= w.backoff_max {
            2 * w.backoff
        } else {
            w.backoff_max as int
        },
        watched(w, WatchNews::Failed(error), lists).0 == watched(w, WatchNews::Ended, lists).0,
        watched(w, WatchNews::Failed(error), lists).1 == if lists && is_expired(error@) {
            WatchAction::ListAndReopen(w.backoff)
        } else {
            WatchAction::Reopen(w.backoff)
        },
        watched(w, WatchNews::Due, lists).1 == WatchAction::Reopen(0),
        watched(w, WatchNews::Due, lists).0.backoff == 1,
{
}

/// An error that names the code 410, or says that something expired, is one of a stream that is
/// too old; one that does neither is not.
pub proof fn law_expired(error: Seq<char>, i: int)
    ensures
        0 <= i && i + 3 <= error.len() && error.subrange(i, i + 3) == seq!['4', '1', '0'] ==> is_expired(error),
        0 <= i && i + 7 <= error.len() && error.subrange(i, i + 7) == seq!['e', 'x', 'p', 'i', 'r', 'e', 'd']
            ==> is_expired(error),
        is_expired(error) ==> error.len() >= 3,
{
    reveal_strlit("410");
    reveal_strlit("expired");
    assert("410"@ =~= seq!['4', '1', '0']);
    let word = seq!['e', 'x', 'p', 'i', 'r', 'e', 'd'];
    assert("expired"@ =~= word);
    if 0 <= i && i + 3 <= error.len() && error.subrange(i, i + 3) == seq!['4', '1', '0'] {
        assert(occurs_at(error, "410"@, i));
    }
    if 0 <= i && i + 7 <= error.len() && error.subrange(i, i + 7) == word {
        let low = ascii_lower(error);
        assert(low.subrange(i, i + 7) =~= word) by {
            assert forall|k: int| 0 <= k < 7 implies low.subrange(i, i + 7)[k] == word[k] by {
                assert(error[i + k] == error.subrange(i, i + 7)[k]);
            }
        }
        assert(occurs_at(low, "expired"@, i));
    }
}

/// Discovered kinds are kept where it was set; else below the home directory.
pub proof fn law_cache_dir(env: Seq<(Seq<char>, Seq<char>)>, p: Seq<char>)
    ensures
        setting(env, "ORKA_DISCOVERY_PATH"@) == Some(p) ==> cache_dir_of(env) == p,
        setting(env, "ORKA_DISCOVERY_PATH"@) is None && setting(env, "HOME"@) == Some(p) && p.len() > 0 && p.last() != '/'
            ==> cache_dir_of(env) == p + "/.orka/cache/discovery"@,
{
    reveal_strlit("/");
    reveal_strlit(".orka/cache/discovery");
    reveal_strlit("/.orka/cache/discovery");
    assert(p + "/"@ + ".orka/cache/discovery"@ =~= p + "/.orka/cache/discovery"@);
}

/// The identity of an object is what its identifier reads as; without one, or with one that is
/// none, the object is refused.
pub proof fn law_identity(t: Seq<char>, b: Seq<u8>)
    ensures
        identity(None) == Err::<Seq<u8>, ObjectError>(ObjectError::NoUid),
        uuid_read(t) is None ==> identity(Some(t)) == Err::<Seq<u8>, ObjectError>(ObjectError::BadUid),
        uuid_read(t) == Some(b) ==> identity(Some(t)) == Ok::<Seq<u8>, ObjectError>(b),
{
}

/// As many objects are asked for in a page as was set; five hundred where nothing was.
pub proof fn law_page_limit(env: Seq<(Seq<char>, Seq<char>)>, t: Seq<char>, n: nat)
    ensures
        setting(env, "ORKA_SNAPSHOT_PAGE_LIMIT"@) is None ==> page_limit(env) == 500,
        n <= u32::MAX && setting(env, "ORKA_SNAPSHOT_PAGE_LIMIT"@) == Some(t) && unsigned_value(t, u32::MAX as nat) == Some(n)
            ==> page_limit(env) == n,
{
}

/// The API version of a kind is its group and its version; of the core group the version alone.
pub proof fn law_api_version(group: Seq<char>, version: Seq<char>)
    ensures
        group.len() == 0 ==> api_version_text(group, version) == version,
        group.len() > 0 ==> api_version_text(group, version) == group + "/"@ + version,
{
}

} // verus!
