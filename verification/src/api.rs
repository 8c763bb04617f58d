//! The types of the API: statistics, response metadata, errors and events.
use crate::apply::{ApplyResult, DiffSummary};
use crate::codec::{uuid_bytes, uuid_fault, uuid_read};
use crate::columns::{gvk_key, gvk_text};
use crate::gvk::{key_parts, parse_gvk_key};
use crate::json::{opt_str, owned};
use crate::kubehub::DiscoveredResource;
use crate::ops::ForwardEvent;
use crate::schema::CrdSchema;
use crate::settings::{
    flag_setting_or, number_setting, read_flag_or, read_number, read_setting, read_size, read_text, setting,
    setting_views, size_setting, text_setting,
};
use crate::text::{
    ascii_lower, cat2, copy_text, opt_text, parse_usize, same_ignoring_case, same_text, split,
    split_char, texts, trim, trimmed, unsigned_value,
};
use crate::types::{LiteObj, ResourceKind, Uid, WorldSnapshot};
use vstd::prelude::*;
use vstd::string::*;

verus! {

/// Statistics and runtime configuration.
#[derive(Debug, PartialEq, Eq)]
pub struct Stats {
    pub shards: usize,
    pub relist_secs: u64,
    pub watch_backoff_max_secs: u64,
    pub max_labels_per_obj: Option<usize>,
    pub max_annos_per_obj: Option<usize>,
    pub max_postings_per_key: Option<usize>,
    pub max_rss_mb: Option<usize>,
    pub max_index_bytes: Option<usize>,
    pub metrics_addr: Option<String>,
    pub traffic_snapshot_bytes: Option<u64>,
    pub traffic_watch_bytes: Option<u64>,
    pub traffic_details_bytes: Option<u64>,
}

impl Default for Stats {
    fn default() -> (r: Self)
        ensures
            r == (Stats {
                shards: 0,
                relist_secs: 0,
                watch_backoff_max_secs: 0,
                max_labels_per_obj: None,
                max_annos_per_obj: None,
                max_postings_per_key: None,
                max_rss_mb: None,
                max_index_bytes: None,
                metrics_addr: None,
                traffic_snapshot_bytes: None,
                traffic_watch_bytes: None,
                traffic_details_bytes: None,
            }),
    {
        Stats {
            shards: 0,
            relist_secs: 0,
            watch_backoff_max_secs: 0,
            max_labels_per_obj: None,
            max_annos_per_obj: None,
            max_postings_per_key: None,
            max_rss_mb: None,
            max_index_bytes: None,
            metrics_addr: None,
            traffic_snapshot_bytes: None,
            traffic_watch_bytes: None,
            traffic_details_bytes: None,
        }
    }
}

impl Clone for Stats {
    fn clone(&self) -> (r: Self)
        ensures
            r == *self,
    {
        Stats {
            shards: self.shards,
            relist_secs: self.relist_secs,
            watch_backoff_max_secs: self.watch_backoff_max_secs,
            max_labels_per_obj: self.max_labels_per_obj,
            max_annos_per_obj: self.max_annos_per_obj,
            max_postings_per_key: self.max_postings_per_key,
            max_rss_mb: self.max_rss_mb,
            max_index_bytes: self.max_index_bytes,
            metrics_addr: crate::types::clone_option(&self.metrics_addr),
            traffic_snapshot_bytes: self.traffic_snapshot_bytes,
            traffic_watch_bytes: self.traffic_watch_bytes,
            traffic_details_bytes: self.traffic_details_bytes,
        }
    }
}

/// What was lost under pressure.
#[derive(Debug, Clone, Copy, PartialEq, Eq, Structural)]
pub struct PressureEvents {
    pub dropped: u64,
    pub trimmed_bytes: u64,
}

impl Default for PressureEvents {
    fn default() -> (r: Self)
        ensures
            r == (PressureEvents { dropped: 0, trimmed_bytes: 0 }),
    {
        PressureEvents { dropped: 0, trimmed_bytes: 0 }
    }
}

/// What a response says about itself.
#[derive(Debug, Clone, Copy, PartialEq, Eq, Structural)]
pub struct ResponseMeta {
    pub partial: bool,
    pub pressure_events: PressureEvents,
    pub explain_available: bool,
}

impl Default for ResponseMeta {
    fn default() -> (r: Self)
        ensures
            r == (ResponseMeta {
                partial: false,
                pressure_events: PressureEvents { dropped: 0, trimmed_bytes: 0 },
                explain_available: false,
            }),
    {
        ResponseMeta {
            partial: false,
            pressure_events: PressureEvents::default(),
            explain_available: false,
        }
    }
}

/// An error of the API.
#[derive(Debug)]
pub enum OrkaError {
    Capability(String),
    Validation(String),
    Conflict(String),
    NotFound(String),
    Internal(String),
}

/// The text of an error: its class and its message.
pub open spec fn error_text(e: OrkaError) -> Seq<char> {
    match e {
        OrkaError::Capability(s) => "capability: "@ + s@,
        OrkaError::Validation(s) => "validation: "@ + s@,
        OrkaError::Conflict(s) => "conflict: "@ + s@,
        OrkaError::NotFound(s) => "not_found: "@ + s@,
        OrkaError::Internal(s) => "internal: "@ + s@,
    }
}

impl OrkaError {
    /// The text of the error.
    pub fn text(&self) -> (r: String)
        ensures
            r@ == error_text(*self),
    {
        match self {
            OrkaError::Capability(s) => cat2("capability: ", s.as_str()),
            OrkaError::Validation(s) => cat2("validation: ", s.as_str()),
            OrkaError::Conflict(s) => cat2("conflict: ", s.as_str()),
            OrkaError::NotFound(s) => cat2("not_found: ", s.as_str()),
            OrkaError::Internal(s) => cat2("internal: ", s.as_str()),
        }
    }
}

/// An event of a port forward.
#[derive(Debug)]
pub enum PortForwardEvent {
    Ready(String),
    Connected(String),
    Closed,
    Error(String),
}
// ---------------------------------------------------------------------------
// Settings of the API

/// Whether a setting is `1`, `true` or `yes`, in any case of its letters; a default where
/// it is not set.
pub open spec fn flag_of(env: Seq<(Seq<char>, Seq<char>)>, name: Seq<char>, d: bool) -> bool {
    match setting(env, name) {
        Some(v) => v == "1"@ || ascii_lower(v) == ascii_lower("true"@) || ascii_lower(v) == ascii_lower("yes"@),
        None => d,
    }
}

/// Whether a setting is `1`, `true` or `yes`.
pub fn env_flag(env: &Vec<(String, String)>, name: &str, default: bool) -> (r: bool)
    ensures
        r == flag_of(setting_views(env@), name@, default),
{
    match read_setting(env, name) {
        Some(v) => same_text(v, "1") || same_ignoring_case(v, "true") || same_ignoring_case(v, "yes"),
        None => default,
    }
}

/// Whether schemas are never asked for.
pub fn schema_offline_only(env: &Vec<(String, String)>) -> (r: bool)
    ensures
        r == flag_of(setting_views(env@), "ORKA_SCHEMA_OFFLINE_ONLY"@, false),
{
    env_flag(env, "ORKA_SCHEMA_OFFLINE_ONLY", false)
}

/// Whether schemas of the core group are never asked for.
pub fn schema_builtin_skip(env: &Vec<(String, String)>) -> (r: bool)
    ensures
        r == flag_of(setting_views(env@), "ORKA_SCHEMA_BUILTIN_SKIP"@, true),
{
    env_flag(env, "ORKA_SCHEMA_BUILTIN_SKIP", true)
}

/// Whether the schema of a kind may be asked for.
pub open spec fn schema_allowed(env: Seq<(Seq<char>, Seq<char>)>, builtin: bool) -> bool {
    !flag_of(env, "ORKA_SCHEMA_OFFLINE_ONLY"@, false) && !(builtin && flag_of(
        env,
        "ORKA_SCHEMA_BUILTIN_SKIP"@,
        true,
    ))
}

/// Whether the schema of a kind may be asked for.
pub fn may_ask_schema(env: &Vec<(String, String)>, builtin: bool) -> (r: bool)
    ensures
        r == schema_allowed(setting_views(env@), builtin),
{
    !schema_offline_only(env) && !(builtin && schema_builtin_skip(env))
}

/// Whether a part of a list of groups admits a group: by its name, or all by a star. The
/// core group is `core`.
pub open spec fn part_admits(part: Seq<char>, group: Seq<char>) -> bool {
    let t = trimmed(part);
    t.len() > 0 && (t == "*"@ || ascii_lower(t) == ascii_lower(
        if group.len() == 0 {
            "core"@
        } else {
            group
        },
    ))
}

/// Whether a list of groups admits a group.
pub open spec fn admits(list: Seq<char>, group: Seq<char>) -> bool {
    exists|i: int| 0 <= i < split(list, ',').len() && part_admits(#[trigger] split(list, ',')[i], group)
}

fn is_admitted(list: &str, group: &str) -> (r: bool)
    ensures
        r == admits(list@, group@),
{
    let parts = split_char(list, ',');
    let ghost pv = texts(parts@);
    let name = if group.is_empty() {
        "core"
    } else {
        group
    };
    let mut i: usize = 0;
    while i < parts.len()
        invariant
            i <= parts.len(),
            pv == texts(parts@),
            pv == split(list@, ','),
            name@ == if group@.len() == 0 {
                "core"@
            } else {
                group@
            },
            forall|k: int| 0 <= k < i ==> !part_admits(#[trigger] pv[k], group@),
        decreases parts.len() - i,
    {
        assert(pv[i as int] == parts@[i as int]@);
        let t = trim(parts[i].as_str());
        if !t.as_str().is_empty() && (same_text(t.as_str(), "*") || same_ignoring_case(t.as_str(), name)) {
            assert(part_admits(split(list@, ',')[i as int], group@));
            return true;
        }
        i += 1;
    }
    false
}

/// Whether a snapshot of a kind is read without the objects themselves.
pub open spec fn lite_listed(env: Seq<(Seq<char>, Seq<char>)>, group: Seq<char>) -> bool {
    flag_setting_or(env, "ORKA_LIST_LITE_BUILTINS"@, true) && admits(
        text_setting(env, "ORKA_LIST_LITE_GROUPS"@, "*"@),
        group,
    )
}

/// Whether a snapshot of a kind is read without the objects themselves.
pub fn use_lite_list(env: &Vec<(String, String)>, group: &str) -> (r: bool)
    ensures
        r == lite_listed(setting_views(env@), group@),
{
    let list = read_text(env, "ORKA_LIST_LITE_GROUPS", "*");
    read_flag_or(env, "ORKA_LIST_LITE_BUILTINS", true) && is_admitted(list.as_str(), group)
}

/// Whether the schema of a kind is asked for while a snapshot is taken.
pub fn snapshot_asks_schema(env: &Vec<(String, String)>, group: &str) -> (r: bool)
    ensures
        r == (!flag_of(setting_views(env@), "ORKA_DEFER_SCHEMA"@, true) && schema_allowed(
            setting_views(env@),
            group@.len() == 0,
        )),
{
    !env_flag(env, "ORKA_DEFER_SCHEMA", true) && may_ask_schema(env, group.is_empty())
}

/// Whether a key is that of a kind of the core group.
pub fn is_builtin_key(key: &str) -> (r: bool)
    ensures
        r == (split(key@, '/').len() == 2),
{
    let parts = split_char(key, '/');
    assert(texts(parts@).len() == parts@.len());
    parts.len() == 2
}

/// How many changes wait to be taken in.
pub fn queue_cap(env: &Vec<(String, String)>) -> (r: usize)
    ensures
        r == size_setting(setting_views(env@), "ORKA_QUEUE_CAP"@, 2048),
{
    read_size(env, "ORKA_QUEUE_CAP", 2048)
}

/// A setting that is a size, where it is one.
pub open spec fn limit_setting(env: Seq<(Seq<char>, Seq<char>)>, name: Seq<char>) -> Option<usize> {
    match setting(env, name) {
        Some(s) => match unsigned_value(s, usize::MAX as nat) {
            Some(n) => Some(n as usize),
            None => None,
        },
        None => None,
    }
}

fn read_limit(env: &Vec<(String, String)>, name: &str) -> (r: Option<usize>)
    ensures
        r == limit_setting(setting_views(env@), name@),
{
    match read_setting(env, name) {
        Some(s) => parse_usize(s),
        None => None,
    }
}

/// Whether statistics tell the settings, and how many bytes were read.
pub open spec fn stats_read(
    e: Seq<(Seq<char>, Seq<char>)>,
    snapshot: u64,
    watch: u64,
    details: u64,
    r: Stats,
) -> bool {
    &&& r.shards == size_setting(e, "ORKA_SHARDS"@, 1)
    &&& r.relist_secs == number_setting(e, "ORKA_RELIST_SECS"@, 300)
    &&& r.watch_backoff_max_secs == number_setting(e, "ORKA_WATCH_BACKOFF_MAX_SECS"@, 30)
    &&& r.max_labels_per_obj == limit_setting(e, "ORKA_MAX_LABELS_PER_OBJ"@)
    &&& r.max_annos_per_obj == limit_setting(e, "ORKA_MAX_ANNOS_PER_OBJ"@)
    &&& r.max_postings_per_key == limit_setting(e, "ORKA_MAX_POSTINGS_PER_KEY"@)
    &&& r.max_rss_mb == limit_setting(e, "ORKA_MAX_RSS_MB"@)
    &&& r.max_index_bytes == limit_setting(e, "ORKA_MAX_INDEX_BYTES"@)
    &&& opt_text(r.metrics_addr) == setting(e, "ORKA_METRICS_ADDR"@)
    &&& r.traffic_snapshot_bytes == Some(snapshot)
    &&& r.traffic_watch_bytes == Some(watch)
    &&& r.traffic_details_bytes == Some(details)
}

/// The bytes that were read are told under what they were read for, and what is not set is not
/// limited.
pub proof fn law_stats(e: Seq<(Seq<char>, Seq<char>)>, snapshot: u64, watch: u64, details: u64, r: Stats)
    requires
        stats_read(e, snapshot, watch, details, r),
    ensures
        r.traffic_snapshot_bytes == Some(snapshot),
        r.traffic_watch_bytes == Some(watch),
        r.traffic_details_bytes == Some(details),
        e.len() == 0 ==> r.shards == 1 && r.relist_secs == 300 && r.watch_backoff_max_secs == 30,
        e.len() == 0 ==> r.max_labels_per_obj is None && r.max_annos_per_obj is None && r.max_postings_per_key is None
            && r.max_rss_mb is None && r.max_index_bytes is None && r.metrics_addr is None,
{
}

/// The statistics: settings, and how many bytes were read.
pub fn read_stats(env: &Vec<(String, String)>, snapshot: u64, watch: u64, details: u64) -> (r: Stats)
    ensures
        stats_read(setting_views(env@), snapshot, watch, details, r),
{
    Stats {
        shards: read_size(env, "ORKA_SHARDS", 1),
        relist_secs: read_number(env, "ORKA_RELIST_SECS", 300),
        watch_backoff_max_secs: read_number(env, "ORKA_WATCH_BACKOFF_MAX_SECS", 30),
        max_labels_per_obj: read_limit(env, "ORKA_MAX_LABELS_PER_OBJ"),
        max_annos_per_obj: read_limit(env, "ORKA_MAX_ANNOS_PER_OBJ"),
        max_postings_per_key: read_limit(env, "ORKA_MAX_POSTINGS_PER_KEY"),
        max_rss_mb: read_limit(env, "ORKA_MAX_RSS_MB"),
        max_index_bytes: read_limit(env, "ORKA_MAX_INDEX_BYTES"),
        metrics_addr: owned(read_setting(env, "ORKA_METRICS_ADDR")),
        traffic_snapshot_bytes: Some(snapshot),
        traffic_watch_bytes: Some(watch),
        traffic_details_bytes: Some(details),
    }
}

// ---------------------------------------------------------------------------
// The API in the same process

/// The API in the same process.
#[derive(Debug, Clone, Copy, PartialEq, Eq, Structural)]
pub struct InProcApi;

impl InProcApi {
    /// The API.
    pub fn new() -> (r: Self)
        ensures
            r == InProcApi,
    {
        InProcApi
    }

    /// The key of a kind.
    pub fn gvk_key(gvk: &ResourceKind) -> (r: String)
        ensures
            r@ == gvk_text(gvk.group@, gvk.version@, gvk.kind@),
    {
        gvk_key(gvk.group.as_str(), gvk.version.as_str(), gvk.kind.as_str())
    }

    /// An error inside, as the API tells it.
    pub fn map_err(text: &str) -> (r: OrkaError)
        ensures
            r matches OrkaError::Internal(s) && s@ == text@,
    {
        OrkaError::Internal(copy_text(text))
    }
}

impl From<DiscoveredResource> for ResourceKind {
    fn from(v: DiscoveredResource) -> (r: Self) {
        ResourceKind { group: v.group, version: v.version, kind: v.kind, namespaced: v.namespaced }
    }
}

impl vstd::std_specs::convert::FromSpecImpl<DiscoveredResource> for ResourceKind {
    open spec fn obeys_from_spec() -> bool {
        true
    }

    open spec fn from_spec(v: DiscoveredResource) -> ResourceKind {
        ResourceKind { group: v.group, version: v.version, kind: v.kind, namespaced: v.namespaced }
    }
}

/// The namespace in which an object is read: owed where its kind has namespaces.
pub fn raw_scope(namespaced: bool, namespace: Option<&str>) -> (r: Result<Option<String>, OrkaError>)
    ensures
        if !namespaced {
            r matches Ok(n) && n is None
        } else if namespace is None {
            r matches Err(OrkaError::Validation(s)) && s@ == "namespace required for namespaced kind"@
        } else {
            r matches Ok(n) && opt_text(n) == opt_str(namespace)
        },
{
    if !namespaced {
        return Ok(None);
    }
    match namespace {
        Some(n) => Ok(Some(copy_text(n))),
        None => Err(OrkaError::Validation(copy_text("namespace required for namespaced kind"))),
    }
}

/// The kind whose last manifests are asked for.
pub fn history_kind(key: &str) -> (r: Result<(String, String, String), OrkaError>)
    ensures
        match key_parts(key@) {
            Some((g, v, k)) => r matches Ok(p) && p.0@ == g && p.1@ == v && p.2@ == k,
            None => r matches Err(OrkaError::Validation(s)) && s@ == "invalid gvk: "@ + key@,
        },
{
    match parse_gvk_key(key) {
        Ok(p) => Ok(p),
        Err(_) => Err(OrkaError::Validation(cat2("invalid gvk: ", key))),
    }
}

/// The identity whose last manifests are asked for: that of the live object.
pub fn history_uid(uid: Option<&str>) -> (r: Result<Uid, OrkaError>)
    ensures
        match opt_str(uid) {
            None => r matches Err(OrkaError::Internal(s)) && s@ == "object missing metadata.uid"@,
            Some(t) => match uuid_read(t) {
                Some(b) => r matches Ok(u) && u@ == b,
                None => r matches Err(OrkaError::Internal(s)) && s@ == "invalid uid: "@ + uuid_fault(t),
            },
        },
{
    match uid {
        None => Err(OrkaError::Internal(copy_text("object missing metadata.uid"))),
        Some(t) => match uuid_bytes(t) {
            Ok(u) => Ok(u),
            Err(e) => Err(OrkaError::Internal(cat2("invalid uid: ", e.as_str()))),
        },
    }
}

/// An event of a forward, as the API tells it.
pub open spec fn told_event(e: ForwardEvent) -> PortForwardEvent {
    match e {
        ForwardEvent::Ready(s) => PortForwardEvent::Ready(s),
        ForwardEvent::Connected(s) => PortForwardEvent::Connected(s),
        ForwardEvent::Closed => PortForwardEvent::Closed,
        ForwardEvent::Error(s) => PortForwardEvent::Error(s),
    }
}

/// An event of a forward, as the API tells it.
pub fn forward_event(e: ForwardEvent) -> (r: PortForwardEvent)
    ensures
        r == told_event(e),
{
    match e {
        ForwardEvent::Ready(s) => PortForwardEvent::Ready(s),
        ForwardEvent::Connected(s) => PortForwardEvent::Connected(s),
        ForwardEvent::Closed => PortForwardEvent::Closed,
        ForwardEvent::Error(s) => PortForwardEvent::Error(s),
    }
}

/// A snapshot, and what is to be said of it.
pub struct SnapshotResponse {
    pub data: WorldSnapshot,
    pub meta: ResponseMeta,
}

/// The answer to a snapshot of objects that were listed.
pub fn snapshot_of(items: Vec<LiteObj>, explain_available: bool) -> (r: SnapshotResponse)
    ensures
        r.data.epoch == 0,
        r.data.items == items,
        r.meta == (ResponseMeta {
            partial: false,
            pressure_events: PressureEvents { dropped: 0, trimmed_bytes: 0 },
            explain_available,
        }),
{
    SnapshotResponse {
        data: WorldSnapshot { epoch: 0, items },
        meta: ResponseMeta {
            partial: false,
            pressure_events: PressureEvents { dropped: 0, trimmed_bytes: 0 },
            explain_available,
        },
    }
}

// ---------------------------------------------------------------------------
// The API for tests

/// A hit of a search: the place of an object, and its score.
#[derive(Debug, Clone, Copy, PartialEq, Eq, Structural)]
pub struct Hit {
    pub doc: u32,
    pub score: i64,
}

/// How many hits each stage of a search left.
#[derive(Debug, Clone, Copy, PartialEq, Eq, Structural)]
pub struct SearchDebugInfo {
    pub total: usize,
    pub after_ns: usize,
    pub after_label_keys: usize,
    pub after_labels: usize,
    pub after_anno_keys: usize,
    pub after_annos: usize,
    pub after_fields: usize,
}

/// An API that gives back what it was made with.
pub struct MockApi {
    pub kinds: Vec<ResourceKind>,
    pub snapshot: Option<WorldSnapshot>,
    pub hits: Vec<Hit>,
    pub debug: SearchDebugInfo,
    pub raw_obj: Option<Vec<u8>>,
    pub dry: Option<DiffSummary>,
    pub diff_pair: Option<(DiffSummary, Option<DiffSummary>)>,
    pub apply: Option<ApplyResult>,
    pub stats: Stats,
    pub schemas: Vec<(String, CrdSchema)>,
}

impl Default for MockApi {
    fn default() -> (r: Self)
        ensures
            r.kinds@.len() == 0,
            r.snapshot is None,
            r.hits@.len() == 0,
            r.debug == (SearchDebugInfo {
                total: 0,
                after_ns: 0,
                after_label_keys: 0,
                after_labels: 0,
                after_anno_keys: 0,
                after_annos: 0,
                after_fields: 0,
            }),
            r.raw_obj is None,
            r.dry is None,
            r.diff_pair is None,
            r.apply is None,
            r.stats == (Stats {
                shards: 0,
                relist_secs: 0,
                watch_backoff_max_secs: 0,
                max_labels_per_obj: None,
                max_annos_per_obj: None,
                max_postings_per_key: None,
                max_rss_mb: None,
                max_index_bytes: None,
                metrics_addr: None,
                traffic_snapshot_bytes: None,
                traffic_watch_bytes: None,
                traffic_details_bytes: None,
            }),
            r.schemas@.len() == 0,
    {
        MockApi {
            kinds: Vec::new(),
            snapshot: None,
            hits: Vec::new(),
            debug: SearchDebugInfo {
                total: 0,
                after_ns: 0,
                after_label_keys: 0,
                after_labels: 0,
                after_anno_keys: 0,
                after_annos: 0,
                after_fields: 0,
            },
            raw_obj: None,
            dry: None,
            diff_pair: None,
            apply: None,
            stats: Stats::default(),
            schemas: Vec::new(),
        }
    }
}

/// The schema that a list has for a key: the first one.
pub open spec fn schema_for(v: Seq<(String, CrdSchema)>, key: Seq<char>) -> Option<CrdSchema>
    decreases v.len(),
{
    if v.len() == 0 {
        None
    } else if v[0].0@ == key {
        Some(v[0].1)
    } else {
        schema_for(v.skip(1), key)
    }
}

impl MockApi {
    /// An API that has nothing.
    pub fn new() -> (r: Self)
        ensures
            r.kinds@.len() == 0,
            r.snapshot is None,
            r.hits@.len() == 0,
            r.debug == (SearchDebugInfo {
                total: 0,
                after_ns: 0,
                after_label_keys: 0,
                after_labels: 0,
                after_anno_keys: 0,
                after_annos: 0,
                after_fields: 0,
            }),
            r.raw_obj is None,
            r.dry is None,
            r.diff_pair is None,
            r.apply is None,
            r.stats == (Stats {
                shards: 0,
                relist_secs: 0,
                watch_backoff_max_secs: 0,
                max_labels_per_obj: None,
                max_annos_per_obj: None,
                max_postings_per_key: None,
                max_rss_mb: None,
                max_index_bytes: None,
                metrics_addr: None,
                traffic_snapshot_bytes: None,
                traffic_watch_bytes: None,
                traffic_details_bytes: None,
            }),
            r.schemas@.len() == 0,
    {
        MockApi::default()
    }

    /// The kinds.
    pub fn discover(&self) -> (r: &Vec<ResourceKind>)
        ensures
            *r == self.kinds,
    {
        &self.kinds
    }

    /// The snapshot.
    pub fn take_snapshot(&self) -> (r: Result<&WorldSnapshot, OrkaError>)
        ensures
            match self.snapshot {
                Some(s) => r matches Ok(x) && *x == s,
                None => r matches Err(OrkaError::NotFound(e)) && e@ == "no snapshot"@,
            },
    {
        match &self.snapshot {
            Some(s) => Ok(s),
            None => Err(OrkaError::NotFound(copy_text("no snapshot"))),
        }
    }

    /// The hits of any search.
    pub fn search(&self) -> (r: (&Vec<Hit>, SearchDebugInfo))
        ensures
            *r.0 == self.hits,
            r.1 == self.debug,
    {
        (&self.hits, self.debug)
    }

    /// The bytes of any object.
    pub fn get_raw(&self) -> (r: Result<&Vec<u8>, OrkaError>)
        ensures
            match self.raw_obj {
                Some(b) => r matches Ok(x) && *x == b,
                None => r matches Err(OrkaError::NotFound(e)) && e@ == "no raw"@,
            },
    {
        match &self.raw_obj {
            Some(b) => Ok(b),
            None => Err(OrkaError::NotFound(copy_text("no raw"))),
        }
    }

    /// What any manifest would change.
    pub fn dry_run(&self) -> (r: Result<DiffSummary, OrkaError>)
        ensures
            match self.dry {
                Some(d) => r matches Ok(x) && x == d,
                None => r matches Err(OrkaError::Internal(e)) && e@ == "no dry-run configured"@,
            },
    {
        match self.dry {
            Some(d) => Ok(d),
            None => Err(OrkaError::Internal(copy_text("no dry-run configured"))),
        }
    }

    /// What differs from any manifest.
    pub fn diff(&self) -> (r: Result<(DiffSummary, Option<DiffSummary>), OrkaError>)
        ensures
            match self.diff_pair {
                Some(d) => r matches Ok(x) && x == d,
                None => r matches Err(OrkaError::NotFound(e)) && e@ == "no diff configured"@,
            },
    {
        match self.diff_pair {
            Some(d) => Ok(d),
            None => Err(OrkaError::NotFound(copy_text("no diff configured"))),
        }
    }

    /// The outcome of applying any manifest.
    pub fn apply(&self) -> (r: Result<&ApplyResult, OrkaError>)
        ensures
            match self.apply {
                Some(a) => r matches Ok(x) && *x == a,
                None => r matches Err(OrkaError::Internal(e)) && e@ == "no apply configured"@,
            },
    {
        match &self.apply {
            Some(a) => Ok(a),
            None => Err(OrkaError::Internal(copy_text("no apply configured"))),
        }
    }

    /// The statistics.
    pub fn read_stats(&self) -> (r: Stats)
        ensures
            r == self.stats,
    {
        self.stats.clone()
    }

    /// The schema of a kind.
    pub fn schema(&self, gvk_key: &str) -> (r: Option<&CrdSchema>)
        ensures
            match r {
                Some(s) => schema_for(self.schemas@, gvk_key@) == Some(*s),
                None => schema_for(self.schemas@, gvk_key@) is None,
            },
    {
        let mut i: usize = 0;
        assert(self.schemas@.skip(0) =~= self.schemas@);
        while i < self.schemas.len()
            invariant
                i <= self.schemas.len(),
                schema_for(self.schemas@, gvk_key@) == schema_for(self.schemas@.skip(i as int), gvk_key@),
            decreases self.schemas.len() - i,
        {
            assert(self.schemas@.skip(i as int)[0] == self.schemas@[i as int]);
            assert(self.schemas@.skip(i as int).skip(1) =~= self.schemas@.skip(i + 1));
            if same_text(self.schemas[i].0.as_str(), gvk_key) {
                return Some(&self.schemas[i].1);
            }
            i += 1;
        }
        None
    }
}

// ---------------------------------------------------------------------------
// What is asked of a cluster, and how it is told

/// A flag is on where it is set to one, to true or to yes, in whatever case.
pub proof fn law_flag_of(env: Seq<(Seq<char>, Seq<char>)>, name: Seq<char>, d: bool, t: Seq<char>)
    ensures
        setting(env, name) is None ==> flag_of(env, name, d) == d,
        setting(env, name) == Some(t) && (t == "1"@ || ascii_lower(t) == ascii_lower("true"@) || ascii_lower(t)
            == ascii_lower("yes"@)) ==> flag_of(env, name, d),
        setting(env, name) == Some(t) && t != "1"@ && ascii_lower(t) != ascii_lower("true"@) && ascii_lower(t)
            != ascii_lower("yes"@) ==> !flag_of(env, name, d),
{
}

/// No schema is asked for offline, and none of a built-in kind unless that was switched on; else
/// one is.
pub proof fn law_schema_allowed(env: Seq<(Seq<char>, Seq<char>)>, builtin: bool)
    ensures
        flag_of(env, "ORKA_SCHEMA_OFFLINE_ONLY"@, false) ==> !schema_allowed(env, builtin),
        flag_of(env, "ORKA_SCHEMA_BUILTIN_SKIP"@, true) ==> !schema_allowed(env, true),
        !flag_of(env, "ORKA_SCHEMA_OFFLINE_ONLY"@, false) ==> schema_allowed(env, false),
        !flag_of(env, "ORKA_SCHEMA_OFFLINE_ONLY"@, false) && !flag_of(env, "ORKA_SCHEMA_BUILTIN_SKIP"@, true)
            ==> schema_allowed(env, true),
{
}

/// A list admits a group where one of its parts names it, in whatever case and with whatever
/// spaces around it, or is a star; the core group goes by a name of its own.
pub proof fn law_admits(list: Seq<char>, group: Seq<char>, i: int)
    ensures
        0 <= i < split(list, ',').len() && trimmed(split(list, ',')[i]) == "*"@ ==> admits(list, group),
        0 <= i < split(list, ',').len() && group.len() > 0 && trimmed(split(list, ',')[i]) == group ==> admits(list, group),
        0 <= i < split(list, ',').len() && trimmed(split(list, ',')[i]) == "core"@ ==> admits(list, Seq::empty()),
        group.len() > 0 && (forall|k: int|
            0 <= k < split(list, ',').len() ==> trimmed(#[trigger] split(list, ',')[k]) != "*"@ && ascii_lower(
                trimmed(split(list, ',')[k]),
            ) != ascii_lower(group)) ==> !admits(list, group),
{
    reveal_strlit("*");
    reveal_strlit("core");
    assert("*"@.len() == 1 && "core"@.len() == 4);
    if 0 <= i < split(list, ',').len() {
        assert(trimmed(split(list, ',')[i]) == "*"@ ==> part_admits(split(list, ',')[i], group));
        assert(group.len() > 0 && trimmed(split(list, ',')[i]) == group ==> part_admits(split(list, ',')[i], group));
        assert(trimmed(split(list, ',')[i]) == "core"@ ==> part_admits(split(list, ',')[i], Seq::empty()));
    }
}

/// An error says of what sort it is, and then what it is.
pub proof fn law_error_text(s: String)
    ensures
        error_text(OrkaError::Capability(s)) == "capability: "@ + s@,
        error_text(OrkaError::Validation(s)) == "validation: "@ + s@,
        error_text(OrkaError::Conflict(s)) == "conflict: "@ + s@,
        error_text(OrkaError::NotFound(s)) == "not_found: "@ + s@,
        error_text(OrkaError::Internal(s)) == "internal: "@ + s@,
{
}

/// What happens to a forward is told as what it is, with its text.
pub proof fn law_told_event(e: ForwardEvent)
    ensures
        e matches ForwardEvent::Ready(s) ==> told_event(e) == PortForwardEvent::Ready(s),
        e matches ForwardEvent::Connected(s) ==> told_event(e) == PortForwardEvent::Connected(s),
        e is Closed <==> told_event(e) is Closed,
        e matches ForwardEvent::Error(s) ==> told_event(e) == PortForwardEvent::Error(s),
{
}

/// The schema of a key is the one that was put under it.
pub proof fn law_schema_for(v: Seq<(String, CrdSchema)>, key: Seq<char>, i: int)
    requires
        0 <= i < v.len(),
        v[i].0@ == key,
        forall|k: int| 0 <= k < i ==> (#[trigger] v[k]).0@ != key,
    ensures
        schema_for(v, key) == Some(v[i].1),
    decreases v.len(),
{
    if i > 0 {
        assert(v[0].0@ != key);
        let rest = v.skip(1);
        assert forall|k: int| 0 <= k < i - 1 implies (#[trigger] rest[k]).0@ != key by {
            assert(rest[k] == v[k + 1]);
        }
        law_schema_for(rest, key, i - 1);
    }
}

} // verus!
