//! The details pane: what a read of an object brings, the secrets, the editor, and the
//! controls of the log and session views.
use crate::codec::{
    base64_bytes, base64_read, json_line, json_read, json_to_line, lossy, lossy_text, parse_json, utf8_text, yaml_page,
    yaml_to_page,
};
use crate::gui::logs::PrefixTheme;
use crate::gui::model::{
    App, DetailsPaneTab, DetailsState, EditState, ExecState, GraphState, GraphViewMode, Handle, LogsState,
    SecretEntry, ServiceLogsState,
};
use crate::gui::nav::core_selected;
use crate::json::{
    collect, collect_from, lemma_array_view, lemma_collect_contains, lemma_object_view, lookup, member_views, object_in, opt_members,
    or_text, owned, position, text_of, Json, JsonView,
};
use crate::rx::{compile, regex_ok, regex_source};
use crate::text::{
    cat2, cat5, contains_string, copy_text, dec, join, join_text, lemma_unique_contains, lines, opt_text, pad_left,
    pad_start, same_text, split_lines, texts, to_bytes, to_chars, trim, trimmed, unique, unique_texts, usize_text,
};
use crate::types::{same_uid, Uid};
use std::collections::VecDeque;
use vstd::prelude::*;
use vstd::string::*;
use vstd::utf8::{decode_utf8, encode_utf8, valid_utf8};

verus! {

// ---------------------------------------------------------------------------
// What a read of an object brings

/// The names of a list of containers.
pub open spec fn container_names(a: Option<Seq<JsonView>>) -> Seq<Seq<char>> {
    match a {
        Some(s) => collect(s, |c: JsonView| c.str_of("name"@)),
        None => Seq::empty(),
    }
}

/// The names of the containers of a pod, each once: the containers, those that run first,
/// and those that were added later.
pub open spec fn pod_containers(v: JsonView) -> Seq<Seq<char>> {
    if or_text(v.str_of("kind"@), ""@) == "Pod"@ {
        unique(
            container_names(v.array_of2("spec"@, "containers"@)) + container_names(
                v.array_of2("spec"@, "initContainers"@),
            ) + container_names(v.array_of2("spec"@, "ephemeralContainers"@)),
        )
    } else {
        Seq::empty()
    }
}

fn read_names(a: Option<&Vec<Json>>) -> (r: Vec<String>)
    ensures
        texts(r@) == container_names(crate::json::views_in(a)),
{
    match a {
        Some(s) => {
            let f = |c: &Json| -> (t: Option<String>)
                ensures
                    opt_text(t) == c@.str_of("name"@),
                { owned(c.str_of("name")) };
            collect_from(s, f, Ghost(|c: JsonView| c.str_of("name"@)))
        },
        None => {
            let r: Vec<String> = Vec::new();
            assert(texts(r@) =~= Seq::empty());
            r
        },
    }
}

fn append_all(v: &mut Vec<String>, more: Vec<String>)
    ensures
        texts(final(v)@) == texts(old(v)@) + texts(more@),
{
    let ghost before = v@;
    let mut more = more;
    let ghost tail = more@;
    v.append(&mut more);
    assert(texts(v@) =~= texts(before) + texts(tail));
}

/// The names of the containers of a pod, each once.
pub fn containers_of(v: &Json) -> (r: Vec<String>)
    ensures
        texts(r@) == pod_containers(v@),
{
    let kind = text_of(v.str_of("kind"), "");
    if !same_text(kind.as_str(), "Pod") {
        let r: Vec<String> = Vec::new();
        assert(texts(r@) =~= Seq::empty());
        return r;
    }
    let mut names = read_names(v.array_of2("spec", "containers"));
    append_all(&mut names, read_names(v.array_of2("spec", "initContainers")));
    append_all(&mut names, read_names(v.array_of2("spec", "ephemeralContainers")));
    unique_texts(names)
}

/// The model of a `SecretEntry`.
pub struct EntryView {
    pub key: Seq<char>,
    pub decoded: Option<Seq<char>>,
    pub b64: Seq<char>,
}

impl View for SecretEntry {
    type V = EntryView;

    open spec fn view(&self) -> EntryView {
        EntryView { key: self.key@, decoded: opt_text(self.decoded), b64: self.b64@ }
    }
}

/// The models of a list of entries.
pub open spec fn entry_views(v: Seq<SecretEntry>) -> Seq<EntryView> {
    v.map_values(|e: SecretEntry| e@)
}

/// The text of a value in base64, where its bytes are a text. What is no base64 stands
/// for no bytes.
pub open spec fn decoded_text(b64: Seq<char>) -> Option<Seq<char>> {
    let bytes = match base64_read(b64) {
        Some(b) => b,
        None => Seq::empty(),
    };
    if valid_utf8(bytes) {
        Some(decode_utf8(bytes))
    } else {
        None
    }
}

/// The entries of a secret: the members whose value is a text.
pub open spec fn secret_entries(m: Seq<(Seq<char>, JsonView)>) -> Seq<EntryView>
    decreases m.len(),
{
    if m.len() == 0 {
        Seq::empty()
    } else {
        match m.last().1.text() {
            Some(b64) => secret_entries(m.drop_last()).push(
                EntryView { key: m.last().0, decoded: decoded_text(b64), b64 },
            ),
            None => secret_entries(m.drop_last()),
        }
    }
}

/// The members of the data of a secret.
pub open spec fn secret_data(v: JsonView) -> Option<Seq<(Seq<char>, JsonView)>> {
    if v.str_of("kind"@) == Some("Secret"@) {
        opt_members(v.get("data"@))
    } else {
        None
    }
}

/// The text of a value in base64, where its bytes are a text.
pub fn decode_entry(b64: &str) -> (r: Option<String>)
    ensures
        opt_text(r) == decoded_text(b64@),
{
    let bytes: Vec<u8> = match base64_bytes(b64) {
        Some(b) => b,
        None => Vec::new(),
    };
    assert(bytes@ =~= match base64_read(b64@) {
        Some(b) => b,
        None => Seq::empty(),
    });
    utf8_text(bytes)
}

fn read_entries(m: &Vec<(String, Json)>) -> (r: Vec<SecretEntry>)
    ensures
        entry_views(r@) == secret_entries(member_views(m@)),
{
    let ghost mv = member_views(m@);
    let mut out: Vec<SecretEntry> = Vec::new();
    let mut i: usize = 0;
    assert(entry_views(out@) =~= secret_entries(mv.take(0)));
    while i < m.len()
        invariant
            i <= m.len(),
            mv == member_views(m@),
            entry_views(out@) == secret_entries(mv.take(i as int)),
        decreases m.len() - i,
    {
        assert(mv.take(i + 1).drop_last() =~= mv.take(i as int));
        assert(mv.take(i + 1).last() == (m@[i as int].0@, m@[i as int].1@));
        let ghost before = entry_views(out@);
        if let Some(b64) = m[i].1.as_str() {
            let e = SecretEntry {
                key: m[i].0.clone(),
                decoded: decode_entry(b64),
                b64: copy_text(b64),
            };
            let ghost ev = e@;
            out.push(e);
            assert(entry_views(out@) =~= before.push(ev));
        }
        i += 1;
    }
    assert(mv.take(mv.len() as int) =~= mv);
    out
}

/// Members with a mark in place of each value.
pub open spec fn marked_members(m: Seq<(Seq<char>, JsonView)>) -> Seq<(Seq<char>, JsonView)> {
    Seq::new(m.len(), |i: int| (m[i].0, JsonView::Str("[REDACTED]"@)))
}

/// The place of the first member of a name; the length where there is none.
pub open spec fn member_at(m: Seq<(Seq<char>, JsonView)>, key: Seq<char>) -> nat
    decreases m.len(),
{
    if m.len() == 0 || m[0].0 == key {
        0
    } else {
        1 + member_at(m.skip(1), key)
    }
}

/// A value with another value for a member that it has.
pub open spec fn with_member(v: JsonView, key: Seq<char>, x: JsonView) -> JsonView {
    match v {
        JsonView::Object(m) => {
            let i = member_at(m, key) as int;
            if i < m.len() {
                JsonView::Object(m.update(i, (key, x)))
            } else {
                v
            }
        },
        _ => v,
    }
}

/// A secret without its values; any other object as it is.
pub open spec fn redacted(v: JsonView) -> JsonView {
    match secret_data(v) {
        Some(m) => with_member(v, "data"@, JsonView::Object(marked_members(m))),
        None => v,
    }
}

proof fn lemma_member_at(m: Seq<(Seq<char>, JsonView)>, key: Seq<char>, i: int)
    requires
        0 <= i <= m.len(),
        forall|k: int| 0 <= k < i ==> (#[trigger] m[k]).0 != key,
        i < m.len() ==> m[i].0 == key,
    ensures
        member_at(m, key) == i,
    decreases m.len(),
{
    if i > 0 {
        assert(m[0].0 != key);
        assert forall|k: int| 0 <= k < i - 1 implies (#[trigger] m.skip(1)[k]).0 != key by {
            assert(m.skip(1)[k] == m[k + 1]);
        }
        lemma_member_at(m.skip(1), key, i - 1);
    }
}

fn mark_members(m: &Vec<(String, Json)>) -> (r: Vec<(String, Json)>)
    ensures
        member_views(r@) == marked_members(member_views(m@)),
{
    let ghost all = marked_members(member_views(m@));
    let mut out: Vec<(String, Json)> = Vec::new();
    let mut i: usize = 0;
    assert(member_views(out@) =~= all.take(0));
    while i < m.len()
        invariant
            i <= m.len(),
            all == marked_members(member_views(m@)),
            member_views(out@) == all.take(i as int),
        decreases m.len() - i,
    {
        let ghost before = member_views(out@);
        out.push((m[i].0.clone(), Json::Str(copy_text("[REDACTED]"))));
        assert(member_views(out@) =~= before.push(all[i as int]));
        assert(member_views(out@) =~= all.take(i + 1));
        i += 1;
    }
    assert(all.take(all.len() as int) =~= all);
    out
}

/// A secret without its values; any other object as it is.
pub fn redact(v: Json) -> (r: Json)
    ensures
        r@ == redacted(v@),
{
    broadcast use {lemma_array_view, lemma_object_view};

    let is_secret = match v.str_of("kind") {
        Some(k) => same_text(k, "Secret"),
        None => false,
    };
    if !is_secret {
        return v;
    }
    let ghost vv = v@;
    match v {
        Json::Object(m) => {
            let mut m = m;
            let ghost mv = member_views(m@);
            match position(&m, "data") {
                Some(i) => {
                    let marked = match &m[i].1 {
                        Json::Object(d) => Some(mark_members(d)),
                        _ => None,
                    };
                    if let Some(d) = marked {
                        proof {
                            assert forall|k: int| 0 <= k < i implies (#[trigger] mv[k]).0
                                != "data"@ by {
                                assert(mv[k].0 == m@[k].0@);
                            }
                            lemma_member_at(mv, "data"@, i as int);
                        }
                        let ghost dv = member_views(d@);
                        m.set(i, (copy_text("data"), Json::Object(d)));
                        assert(member_views(m@) =~= mv.update(
                            i as int,
                            ("data"@, JsonView::Object(dv)),
                        ));
                    }
                    Json::Object(m)
                },
                None => Json::Object(m),
            }
        },
        other => other,
    }
}

/// What a read of an object brings: the text to show, the containers of a pod, and the
/// entries of a secret.
pub struct Details {
    pub text: String,
    pub containers: Option<Vec<String>>,
    pub entries: Option<Vec<SecretEntry>>,
}

/// The text to show where an object is too large.
pub open spec fn oversized_text(len: nat, max: nat) -> Seq<char> {
    "object too large to render ("@ + dec(len) + " bytes > "@ + dec(max)
        + "); adjust ORKA_DETAILS_MAX_BYTES to override"@
}

/// The text to show for a value that was read: as YAML without secrets. Where it cannot be
/// written so, a secret stands on one line, without its values too, and any other value as
/// the bytes it was read from.
pub open spec fn value_text(v: JsonView, raw: Seq<u8>) -> Seq<char> {
    match yaml_page(redacted(v)) {
        Some(page) => page,
        None => if secret_data(v) is Some {
            json_line(redacted(v))
        } else {
            lossy(raw)
        },
    }
}

/// The text to show for an object: that of its value, else the bytes themselves.
pub open spec fn shown_text(bytes: Seq<u8>, max: nat) -> Seq<char> {
    if bytes.len() > max {
        oversized_text(bytes.len(), max)
    } else {
        match json_read(bytes) {
            Some(v) => value_text(v, bytes),
            None => lossy(bytes),
        }
    }
}

/// The object that was read, where it is not too large.
pub open spec fn shown_object(bytes: Seq<u8>, max: nat) -> Option<JsonView> {
    if bytes.len() > max {
        None
    } else {
        json_read(bytes)
    }
}

/// What a value brings, where `text` is to be shown for it.
pub open spec fn brings(v: JsonView, d: Details) -> bool {
    &&& match d.containers {
        Some(c) => texts(c@) == pod_containers(v) && c@.len() > 0,
        None => pod_containers(v).len() == 0,
    }
    &&& match d.entries {
        Some(e) => secret_data(v) is Some && entry_views(e@) == secret_entries(secret_data(v)->0),
        None => secret_data(v) is None,
    }
}

/// What a value brings: the entries of a secret stand beside the text, which does not hold
/// them.
pub fn details_of(v: Json, raw: &[u8]) -> (r: Details)
    ensures
        r.text@ == value_text(v@, raw@),
        brings(v@, r),
{
    let names = containers_of(&v);
    let containers = if names.len() == 0 {
        None
    } else {
        Some(names)
    };
    let is_secret = match v.str_of("kind") {
        Some(k) => same_text(k, "Secret"),
        None => false,
    };
    let entries = if is_secret {
        match object_in(v.get("data")) {
            Some(m) => Some(read_entries(m)),
            None => None,
        }
    } else {
        None
    };
    let clean = redact(v);
    let text = match yaml_to_page(&clean) {
        Some(y) => y,
        None => if entries.is_some() {
            json_to_line(&clean)
        } else {
            lossy_text(raw)
        },
    };
    Details { text, containers, entries }
}

/// What the bytes of an object bring.
pub fn details_reply(bytes: &[u8], max: usize) -> (r: Details)
    ensures
        r.text@ == shown_text(bytes@, max as nat),
        match shown_object(bytes@, max as nat) {
            Some(v) => brings(v, r),
            None => r.containers is None && r.entries is None,
        },
{
    if bytes.len() > max {
        let len = usize_text(bytes.len());
        let limit = usize_text(max);
        let text = cat5(
            "object too large to render (",
            len.as_str(),
            " bytes > ",
            limit.as_str(),
            "); adjust ORKA_DETAILS_MAX_BYTES to override",
        );
        return Details { text, containers: None, entries: None };
    }
    match parse_json(bytes) {
        Some(v) => details_of(v, bytes),
        None => Details { text: lossy_text(bytes), containers: None, entries: None },
    }
}

/// No value of a secret is left in what is shown of it: every member of its data has its name
/// and the mark.
pub proof fn law_redacted_hides(v: JsonView, key: Seq<char>)
    ensures
        secret_data(v) is Some ==> match redacted(v).get("data"@) {
            Some(JsonView::Object(m)) => {
                &&& m.len() == secret_data(v)->0.len()
                &&& forall|i: int|
                    0 <= i < m.len() ==> (#[trigger] m[i]) == (secret_data(v)->0[i].0, JsonView::Str("[REDACTED]"@))
            },
            _ => false,
        },
        key != "data"@ ==> redacted(v).get(key) == v.get(key),
{
    if secret_data(v) is Some {
        let m = v->Object_0;
        let x = JsonView::Object(marked_members(secret_data(v)->0));
        lemma_with_member(m, "data"@, x, key);
        lemma_with_member(m, "data"@, x, "data"@);
    }
}

/// Whether two secrets are the same but for the values of their data.
pub open spec fn same_but_values(a: JsonView, b: JsonView) -> bool {
    match (secret_data(a), secret_data(b)) {
        (Some(m), Some(n)) => {
            &&& m.len() == n.len()
            &&& forall|i: int| 0 <= i < m.len() ==> (#[trigger] m[i]).0 == n[i].0
            &&& with_member(a, "data"@, JsonView::Null) == with_member(b, "data"@, JsonView::Null)
        },
        _ => false,
    }
}

proof fn lemma_member_at_stays(m: Seq<(Seq<char>, JsonView)>, key: Seq<char>, x: JsonView)
    requires
        lookup(m, key) is Some,
    ensures
        member_at(m, key) < m.len(),
        member_at(m.update(member_at(m, key) as int, (key, x)), key) == member_at(m, key),
    decreases m.len(),
{
    if m.len() > 0 && m[0].0 != key {
        let i = member_at(m, key) as int;
        lemma_member_at_stays(m.skip(1), key, x);
        assert(m.update(i, (key, x)).skip(1) =~= m.skip(1).update(i - 1, (key, x)));
    }
}

/// Two secrets that differ only in their values are the same without them.
pub proof fn law_redacted_alike(a: JsonView, b: JsonView)
    requires
        same_but_values(a, b),
    ensures
        redacted(a) == redacted(b),
{
    let am = a->Object_0;
    let bm = b->Object_0;
    let m = secret_data(a)->0;
    let n = secret_data(b)->0;
    assert(marked_members(m) =~= marked_members(n));
    let z = JsonView::Object(marked_members(m));
    let key = "data"@;
    lemma_member_at_stays(am, key, JsonView::Null);
    lemma_member_at_stays(bm, key, JsonView::Null);
    let i = member_at(am, key) as int;
    let j = member_at(bm, key) as int;
    let u = am.update(i, (key, JsonView::Null));
    assert(u == bm.update(j, (key, JsonView::Null)));
    assert(i == j);
    assert(am.update(i, (key, z)) =~= u.update(i, (key, z)));
    assert(bm.update(j, (key, z)) =~= u.update(i, (key, z)));
}

/// Two secrets that differ only in their values are shown by the same text: nothing of the
/// values is left in it.
pub proof fn law_secret_values_do_not_show(a: JsonView, b: JsonView, x: Seq<u8>, y: Seq<u8>, max: nat)
    requires
        same_but_values(a, b),
        json_read(x) == Some(a),
        json_read(y) == Some(b),
        x.len() <= max,
        y.len() <= max,
    ensures
        shown_text(x, max) == shown_text(y, max),
{
    law_redacted_alike(a, b);
}

/// A member that was replaced is found with its new value, and the others as before.
pub proof fn lemma_with_member(m: Seq<(Seq<char>, JsonView)>, key: Seq<char>, x: JsonView, other: Seq<char>)
    requires
        lookup(m, key) is Some,
    ensures
        member_at(m, key) < m.len(),
        lookup(m.update(member_at(m, key) as int, (key, x)), other) == if other == key {
            Some(x)
        } else {
            lookup(m, other)
        },
    decreases m.len(),
{
    if m.len() > 0 {
        let i = member_at(m, key) as int;
        let u = m.update(i, (key, x));
        if m[0].0 == key {
            assert(u.skip(1) =~= m.skip(1));
        } else {
            lemma_with_member(m.skip(1), key, x, other);
            assert(u.skip(1) =~= m.skip(1).update(i - 1, (key, x)));
        }
    }
}

// ---------------------------------------------------------------------------
// Secrets on the screen

/// What is shown of an entry of a secret.
pub open spec fn entry_shown(e: EntryView, revealed: bool) -> Seq<char> {
    if revealed {
        match e.decoded {
            Some(s) => s,
            None => "(binary) base64="@ + e.b64,
        }
    } else {
        "\u{2022}\u{2022}\u{2022}\u{2022}\u{2022}\u{2022}"@
    }
}

/// What is copied of an entry of a secret.
pub open spec fn entry_copied(e: EntryView) -> Seq<char> {
    or_text(e.decoded, e.b64)
}

/// A set of texts, kept as a list, with one text more or less.
pub open spec fn toggled(s: Seq<Seq<char>>, t: Seq<char>) -> Seq<Seq<char>> {
    if s.contains(t) {
        without_text(s, t)
    } else {
        s.push(t)
    }
}

/// A list without a text.
pub open spec fn without_text(s: Seq<Seq<char>>, t: Seq<char>) -> Seq<Seq<char>>
    decreases s.len(),
{
    if s.len() == 0 {
        s
    } else if s.last() == t {
        without_text(s.drop_last(), t)
    } else {
        without_text(s.drop_last(), t).push(s.last())
    }
}

/// Add a text to a set, or take it away where it is there.
pub fn toggle_text(v: &mut Vec<String>, t: &str)
    ensures
        texts(final(v)@) == toggled(texts(old(v)@), t@),
{
    if contains_string(v, t) {
        let ghost all = texts(v@);
        let mut kept: Vec<String> = Vec::new();
        let mut i: usize = 0;
        assert(texts(kept@) =~= without_text(all.take(0), t@));
        while i < v.len()
            invariant
                i <= v.len(),
                all == texts(v@),
                texts(kept@) == without_text(all.take(i as int), t@),
            decreases v.len() - i,
        {
            let ghost before = texts(kept@);
            assert(all.take(i + 1).drop_last() =~= all.take(i as int));
            assert(all.take(i + 1).last() == v@[i as int]@);
            if !same_text(v[i].as_str(), t) {
                kept.push(v[i].clone());
                assert(texts(kept@) =~= before.push(v@[i as int]@));
            }
            i += 1;
        }
        assert(all.take(all.len() as int) =~= all);
        *v = kept;
    } else {
        let ghost before = texts(v@);
        v.push(copy_text(t));
        assert(texts(v@) =~= before.push(t@));
    }
}

proof fn lemma_without_text(s: Seq<Seq<char>>, t: Seq<char>, x: Seq<char>)
    ensures
        without_text(s, t).contains(x) <==> s.contains(x) && x != t,
    decreases s.len(),
{
    if s.len() > 0 {
        let d = s.drop_last();
        lemma_without_text(d, t, x);
        let w = without_text(d, t);
        if s.contains(x) {
            let k = choose|k: int| 0 <= k < s.len() && s[k] == x;
            if k < d.len() {
                assert(d[k] == x);
            }
        }
        if d.contains(x) {
            let k = choose|k: int| 0 <= k < d.len() && d[k] == x;
            assert(s[k] == x);
        }
        if s.last() != t {
            let r = w.push(s.last());
            if w.contains(x) {
                let k = choose|k: int| 0 <= k < w.len() && w[k] == x;
                assert(r[k] == x);
            }
            assert(r[w.len() as int] == s.last());
            if r.contains(x) {
                let k = choose|k: int| 0 <= k < r.len() && r[k] == x;
                if k < w.len() {
                    assert(w[k] == x);
                } else {
                    assert(s[s.len() - 1] == x);
                }
            }
            if x == s.last() {
                assert(s[s.len() - 1] == x);
            }
        }
    }
}

/// A toggle changes whether a text is in a set, and leaves the other texts alone.
pub proof fn law_toggled(s: Seq<Seq<char>>, t: Seq<char>, x: Seq<char>)
    ensures
        toggled(s, t).contains(x) <==> (s.contains(x) != (x == t)),
{
    lemma_without_text(s, t, x);
    if !s.contains(t) {
        let r = s.push(t);
        assert(r[s.len() as int] == t);
        if s.contains(x) {
            let k = choose|k: int| 0 <= k < s.len() && s[k] == x;
            assert(r[k] == x);
        }
        if r.contains(x) {
            let k = choose|k: int| 0 <= k < r.len() && r[k] == x;
            if k < s.len() {
                assert(s[k] == x);
            }
        }
    }
}

impl SecretEntry {
    /// What is shown of the entry.
    pub fn shown(&self, revealed: bool) -> (r: String)
        ensures
            r@ == entry_shown(self@, revealed),
    {
        if revealed {
            match &self.decoded {
                Some(s) => s.clone(),
                None => cat2("(binary) base64=", self.b64.as_str()),
            }
        } else {
            copy_text("\u{2022}\u{2022}\u{2022}\u{2022}\u{2022}\u{2022}")
        }
    }

    /// What is copied of the entry.
    pub fn copied(&self) -> (r: String)
        ensures
            r@ == entry_copied(self@),
    {
        match &self.decoded {
            Some(s) => s.clone(),
            None => self.b64.clone(),
        }
    }
}

impl App {
    /// Show an entry of a secret, or hide it where it is shown.
    pub fn toggle_secret(&mut self, key: &str)
        ensures
            *final(self) == (App {
                details: DetailsState {
                    secret_revealed: final(self).details.secret_revealed,
                    ..old(self).details
                },
                ..*old(self)
            }),
            texts(final(self).details.secret_revealed@) == toggled(
                texts(old(self).details.secret_revealed@),
                key@,
            ),
    {
        toggle_text(&mut self.details.secret_revealed, key);
    }
}

// ---------------------------------------------------------------------------
// The editor

/// How many lines an editor shows: at least one.
pub open spec fn editor_lines(s: Seq<char>) -> nat {
    if lines(s).len() == 0 {
        1
    } else {
        lines(s).len()
    }
}

/// How wide the line numbers are: at least two digits.
pub open spec fn number_width(n: nat) -> nat {
    if dec(n).len() < 2 {
        2
    } else {
        dec(n).len()
    }
}

/// The line numbers from one on, each on a line, right-aligned.
pub open spec fn numbers(n: nat, width: nat) -> Seq<char>
    decreases n,
{
    if n == 0 {
        Seq::empty()
    } else {
        numbers((n - 1) as nat, width) + pad_left(dec(n), width as int) + "\n"@
    }
}

/// The line numbers beside the text of an editor.
pub fn gutter(text: &str) -> (r: String)
    ensures
        r@ == numbers(editor_lines(text@), number_width(editor_lines(text@))),
{
    let all = split_lines(text);
    let n: usize = if all.len() == 0 {
        1
    } else {
        all.len()
    };
    let shown = to_chars(usize_text(n).as_str());
    let width: usize = if shown.len() < 2 {
        2
    } else {
        shown.len()
    };
    let mut out = String::new();
    let mut i: usize = 0;
    while i < n
        invariant
            i <= n,
            out@ == numbers(i as nat, width as nat),
        decreases n - i,
    {
        i += 1;
        let num = usize_text(i);
        let cell = pad_start(num.as_str(), width);
        let ghost before = out@;
        out.append(cell.as_str());
        out.append("\n");
        assert(out@ =~= before + pad_left(dec(i as nat), width as int) + "\n"@);
    }
    out
}

/// How many line feeds a run of bytes holds.
pub open spec fn line_feeds(b: Seq<u8>) -> nat
    decreases b.len(),
{
    if b.len() == 0 {
        0
    } else {
        line_feeds(b.drop_last()) + if b.last() == 10 {
            1nat
        } else {
            0nat
        }
    }
}

/// The line of the caret: how many line feeds stand in the bytes before it.
pub fn caret_line(text: &str, at: usize) -> (r: usize)
    ensures
        r == line_feeds(
            if at < encode_utf8(text@).len() {
                encode_utf8(text@).take(at as int)
            } else {
                encode_utf8(text@)
            },
        ),
{
    let b = to_bytes(text);
    let n: usize = if at < b.len() {
        at
    } else {
        b.len()
    };
    let mut count: usize = 0;
    let mut i: usize = 0;
    assert(b@.take(0) =~= Seq::empty());
    while i < n
        invariant
            i <= n <= b.len(),
            count <= i,
            count == line_feeds(b@.take(i as int)),
        decreases n - i,
    {
        assert(b@.take(i + 1).drop_last() =~= b@.take(i as int));
        if b[i] == 10 {
            count += 1;
        }
        i += 1;
    }
    assert(b@.take(b@.len() as int) =~= b@);
    count
}

/// How many spaces a line begins with.
pub open spec fn leading_spaces(s: Seq<char>) -> nat
    decreases s.len(),
{
    if s.len() == 0 || s[0] != ' ' {
        0
    } else {
        1 + leading_spaces(s.skip(1))
    }
}

/// How many levels a line is indented: two spaces each.
pub fn indent_levels(line: &str) -> (r: usize)
    ensures
        r == leading_spaces(line@) / 2,
{
    let v = to_chars(line);
    let ghost s = line@;
    let mut i: usize = 0;
    assert(s.skip(0) =~= s);
    while i < v.len() && v[i] == ' '
        invariant
            i <= v.len(),
            v@ == s,
            leading_spaces(s) == i + leading_spaces(s.skip(i as int)),
        decreases v.len() - i,
    {
        assert(s.skip(i as int).skip(1) =~= s.skip(i + 1));
        i += 1;
    }
    i / 2
}

impl EditState {
    /// Give up what was edited.
    pub fn reset(&mut self)
        ensures
            *final(self) == (EditState { status: final(self).status, ..edit_reset(*old(self)) }),
            final(self).status@ == Seq::<char>::empty(),
    {
        self.buffer = self.original.clone();
        self.dirty = false;
        self.status = String::new();
    }

    /// Take over what was typed.
    pub fn typed(&mut self, text: String)
        ensures
            *final(self) == edit_typed(*old(self), text),
    {
        self.dirty = !same_text(text.as_str(), self.original.as_str());
        self.buffer = text;
    }
}

// ---------------------------------------------------------------------------
// The controls of the log views

/// What a search text comes to: no search where it is empty, an expression where it is
/// one, else an error.
pub open spec fn grep_becomes(text: Seq<char>, cache: Option<regex::Regex>, error: Option<String>) -> bool {
    let t = trimmed(text);
    if t.len() == 0 {
        cache is None && error is None
    } else if regex_ok(t) {
        (cache matches Some(re) && regex_source(re) == t) && error is None
    } else {
        cache is None && opt_text(error) == Some("invalid regex"@)
    }
}

/// What a search text comes to.
pub fn compile_grep(text: &str) -> (r: (Option<regex::Regex>, Option<String>))
    ensures
        grep_becomes(text@, r.0, r.1),
{
    let t = trim(text);
    if t.as_str().is_empty() {
        (None, None)
    } else {
        match compile(t.as_str()) {
            Some(re) => (Some(re), None),
            None => (None, Some(copy_text("invalid regex"))),
        }
    }
}

/// A limit as it is asked for: none where it is not positive.
pub open spec fn limit_of(n: i64) -> Option<i64> {
    if n <= 0 {
        None
    } else {
        Some(n)
    }
}

/// A limit as it is asked for.
pub fn read_limit(n: i64) -> (r: Option<i64>)
    ensures
        r == limit_of(n),
{
    if n <= 0 {
        None
    } else {
        Some(n)
    }
}

/// The container that is named in place of all of them.
pub open spec fn all_containers() -> Seq<char> {
    "(all)"@
}

impl LogsState {
    /// Take over a search text.
    pub fn set_grep(&mut self, text: String)
        ensures
            *final(self) == (LogsState {
                grep: text,
                grep_cache: final(self).grep_cache,
                grep_error: final(self).grep_error,
                ..*old(self)
            }),
            grep_becomes(text@, final(self).grep_cache, final(self).grep_error),
    {
        let (cache, error) = compile_grep(text.as_str());
        self.grep_cache = cache;
        self.grep_error = error;
        self.grep = text;
    }

    /// Take over a colour theme. True where the stream is to start again.
    pub fn set_theme(&mut self, theme: PrefixTheme) -> (restart: bool)
        ensures
            *final(self) == (LogsState { prefix_theme: theme, ..*old(self) }),
            restart == (theme != old(self).prefix_theme && old(self).running && opt_text(
                old(self).container,
            ) == Some(all_containers())),
    {
        let changed = theme != self.prefix_theme;
        self.prefix_theme = theme;
        let all = match &self.container {
            Some(c) => same_text(c.as_str(), "(all)"),
            None => false,
        };
        changed && self.running && all
    }

    /// Take over how many lines are shown: at least a hundred.
    pub fn set_visible(&mut self, n: i32)
        ensures
            *final(self) == (LogsState {
                visible_follow_limit: visible_limit(n),
                ..*old(self)
            }),
    {
        self.visible_follow_limit = if n < 100 {
            100
        } else {
            n as usize
        };
    }

    /// Take over how old lines may be. True where the stream is to start again.
    pub fn set_since(&mut self, n: i64) -> (restart: bool)
        ensures
            *final(self) == (LogsState { since_seconds: limit_of(n), ..*old(self) }),
            restart == old(self).running,
    {
        self.since_seconds = read_limit(n);
        self.running
    }

    /// Take over how many old lines are asked for. True where the stream is to start again.
    pub fn set_tail(&mut self, n: i64) -> (restart: bool)
        ensures
            *final(self) == (LogsState { tail_lines: limit_of(n), ..*old(self) }),
            restart == old(self).running,
    {
        self.tail_lines = read_limit(n);
        self.running
    }

    /// Choose a container. True where the stream is to start again.
    pub fn choose_container(&mut self, name: String) -> (restart: bool)
        ensures
            match chosen_container(old(self).container, old(self).containers@) {
                cur => if name@ == cur {
                    *final(self) == *old(self) && !restart
                } else {
                    *final(self) == (LogsState { container: Some(name), ..*old(self) }) && restart
                        == old(self).running
                },
            },
    {
        let current = current_container(&self.container, &self.containers);
        if same_text(name.as_str(), current.as_str()) {
            false
        } else {
            self.container = Some(name);
            self.running
        }
    }

    /// Forget the lines.
    pub fn clear_lines(&mut self)
        ensures
            *final(self) == (LogsState {
                ring: final(self).ring,
                backlog: final(self).backlog,
                ..*old(self)
            }),
            final(self).ring@.len() == 0,
            final(self).backlog@.len() == 0,
    {
        self.ring = VecDeque::new();
        self.backlog = VecDeque::new();
    }
}

/// The container that a view shows: the chosen one, else the first.
pub open spec fn chosen_container(cur: Option<String>, containers: Seq<String>) -> Seq<char> {
    match cur {
        Some(c) => c@,
        None => if containers.len() > 0 {
            containers[0]@
        } else {
            Seq::empty()
        },
    }
}

/// The container that a view shows: the chosen one, else the first.
pub fn current_container(cur: &Option<String>, containers: &Vec<String>) -> (r: String)
    ensures
        r@ == chosen_container(*cur, containers@),
{
    match cur {
        Some(c) => c.clone(),
        None => if containers.len() > 0 {
            containers[0].clone()
        } else {
            String::new()
        },
    }
}

impl ServiceLogsState {
    /// Take over a search text.
    pub fn set_grep(&mut self, text: String)
        ensures
            *final(self) == (ServiceLogsState {
                grep: text,
                grep_cache: final(self).grep_cache,
                grep_error: final(self).grep_error,
                ..*old(self)
            }),
            grep_becomes(text@, final(self).grep_cache, final(self).grep_error),
    {
        let (cache, error) = compile_grep(text.as_str());
        self.grep_cache = cache;
        self.grep_error = error;
        self.grep = text;
    }

    /// Take over a colour theme. True where the streams are to start again.
    pub fn set_theme(&mut self, theme: PrefixTheme) -> (restart: bool)
        ensures
            *final(self) == (ServiceLogsState { prefix_theme: theme, ..*old(self) }),
            restart == (theme != old(self).prefix_theme && old(self).running),
    {
        let changed = theme != self.prefix_theme;
        self.prefix_theme = theme;
        changed && self.running
    }

    /// Take over how many lines are shown: at least a hundred.
    pub fn set_visible(&mut self, n: i32)
        ensures
            *final(self) == (ServiceLogsState {
                visible_follow_limit: visible_limit(n),
                ..*old(self)
            }),
    {
        self.visible_follow_limit = if n < 100 {
            100
        } else {
            n as usize
        };
    }

    /// Take over how old lines may be. True where the streams are to start again.
    pub fn set_since(&mut self, n: i64) -> (restart: bool)
        ensures
            *final(self) == (ServiceLogsState { since_seconds: limit_of(n), ..*old(self) }),
            restart == old(self).running,
    {
        self.since_seconds = read_limit(n);
        self.running
    }

    /// Take over how many old lines are asked for. True where the streams are to start
    /// again.
    pub fn set_tail(&mut self, n: i64) -> (restart: bool)
        ensures
            *final(self) == (ServiceLogsState { tail_lines: limit_of(n), ..*old(self) }),
            restart == old(self).running,
    {
        self.tail_lines = read_limit(n);
        self.running
    }
}

/// The name of a colour theme.
pub open spec fn theme_text(theme: PrefixTheme) -> Seq<char> {
    match theme {
        PrefixTheme::Bright => "Bright"@,
        PrefixTheme::Basic => "Basic"@,
        PrefixTheme::Gray => "Gray"@,
        PrefixTheme::NoColor => "None"@,
    }
}

/// The name of a colour theme.
pub fn theme_label(theme: PrefixTheme) -> (r: &'static str)
    ensures
        r@ == theme_text(theme),
{
    match theme {
        PrefixTheme::Bright => "Bright",
        PrefixTheme::Basic => "Basic",
        PrefixTheme::Gray => "Gray",
        PrefixTheme::NoColor => "None",
    }
}

// ---------------------------------------------------------------------------
// The session view

/// How many pieces of output of a single command are shown.
pub const SHOWN_PIECES: usize = 5000;

/// The last pieces of output, the last one first, each ended.
pub open spec fn pieces_text(p: Seq<Seq<char>>, n: nat) -> Seq<char>
    decreases n,
{
    if n == 0 || n > p.len() {
        Seq::empty()
    } else {
        pieces_text(p, (n - 1) as nat) + ended(p[p.len() - n])
    }
}

/// A text with a line feed at its end.
pub open spec fn ended(s: Seq<char>) -> Seq<char> {
    if s.len() > 0 && s.last() == '\n' {
        s
    } else {
        s + "\n"@
    }
}

/// What is shown of the output of a single command: its lines in the order in which the
/// pieces came, those of one piece from the last to the first.
pub open spec fn output_text(p: Seq<Seq<char>>) -> Seq<char> {
    let n = if p.len() < SHOWN_PIECES {
        p.len()
    } else {
        SHOWN_PIECES as nat
    };
    join(lines(pieces_text(p, n)).reverse(), "\n"@)
}

fn end_line(s: &str) -> (r: String)
    ensures
        r@ == ended(s@),
{
    let v = to_chars(s);
    if v.len() > 0 && v[v.len() - 1] == '\n' {
        copy_text(s)
    } else {
        cat2(s, "\n")
    }
}

fn reverse_texts(v: Vec<String>) -> (r: Vec<String>)
    ensures
        texts(r@) == texts(v@).reverse(),
{
    let mut out: Vec<String> = Vec::new();
    let mut i: usize = v.len();
    while i > 0
        invariant
            i <= v.len(),
            out@.len() == v@.len() - i,
            forall|k: int| 0 <= k < out@.len() ==> (#[trigger] out@[k])@ == v@[v@.len() - 1 - k]@,
        decreases i,
    {
        i -= 1;
        out.push(v[i].clone());
    }
    assert(texts(out@) =~= texts(v@).reverse());
    out
}

/// What is shown of the output of a single command.
pub fn session_output(backlog: &VecDeque<String>) -> (r: String)
    ensures
        r@ == output_text(texts(backlog@)),
{
    let ghost p = texts(backlog@);
    let len: usize = backlog.len();
    let n: usize = if len < SHOWN_PIECES {
        len
    } else {
        SHOWN_PIECES
    };
    let mut all = String::new();
    let mut i: usize = 0;
    while i < n
        invariant
            i <= n <= len,
            len == backlog@.len(),
            p == texts(backlog@),
            all@ == pieces_text(p, i as nat),
        decreases n - i,
    {
        assert(p[len - 1 - i] == backlog@[len - 1 - i]@);
        let piece = end_line(backlog[len - 1 - i].as_str());
        let ghost before = all@;
        all.append(piece.as_str());
        i += 1;
        assert(all@ =~= before + ended(p[p.len() - i]));
    }
    let parts = reverse_texts(split_lines(all.as_str()));
    join_text(&parts, "\n")
}

/// A key of the keyboard that a terminal knows.
#[derive(Clone, Copy, Debug, PartialEq, Eq, Structural)]
pub enum TermKey {
    Enter,
    Tab,
    Backspace,
    Left,
    Right,
    Up,
    Down,
    Home,
    End,
    PageUp,
    PageDown,
    ControlC,
    ControlZ,
}

/// The bytes that a key sends.
pub open spec fn key_code(k: TermKey) -> Seq<u8> {
    match k {
        TermKey::Enter => seq![13u8],
        TermKey::Tab => seq![9u8],
        TermKey::Backspace => seq![127u8],
        TermKey::Left => seq![27u8, 91, 68],
        TermKey::Right => seq![27u8, 91, 67],
        TermKey::Up => seq![27u8, 91, 65],
        TermKey::Down => seq![27u8, 91, 66],
        TermKey::Home => seq![27u8, 91, 72],
        TermKey::End => seq![27u8, 91, 70],
        TermKey::PageUp => seq![27u8, 91, 53, 126],
        TermKey::PageDown => seq![27u8, 91, 54, 126],
        TermKey::ControlC => seq![3u8],
        TermKey::ControlZ => seq![26u8],
    }
}

/// The bytes that a key sends.
pub fn key_bytes(k: TermKey) -> (r: Vec<u8>)
    ensures
        r@ == key_code(k),
{
    let r: Vec<u8> = match k {
        TermKey::Enter => vec![13],
        TermKey::Tab => vec![9],
        TermKey::Backspace => vec![127],
        TermKey::Left => vec![27, 91, 68],
        TermKey::Right => vec![27, 91, 67],
        TermKey::Up => vec![27, 91, 65],
        TermKey::Down => vec![27, 91, 66],
        TermKey::Home => vec![27, 91, 72],
        TermKey::End => vec![27, 91, 70],
        TermKey::PageUp => vec![27, 91, 53, 126],
        TermKey::PageDown => vec![27, 91, 54, 126],
        TermKey::ControlC => vec![3],
        TermKey::ControlZ => vec![26],
    };
    assert(r@ =~= key_code(k));
    r
}

/// The hint below a session.
pub open spec fn hint_text(s: ExecState) -> Seq<char> {
    if s.mode_oneshot {
        if s.running {
            "running\u{2026}"@
        } else {
            "enter a command and click Run"@
        }
    } else if s.running {
        if s.focused {
            "typing active \u{2022} Esc to release"@
        } else {
            "click inside to type"@
        }
    } else {
        "press Start to open a shell"@
    }
}

impl ExecState {
    /// The hint below the session.
    pub fn hint(&self) -> (r: &'static str)
        ensures
            r@ == hint_text(*self),
    {
        if self.mode_oneshot {
            if self.running {
                "running\u{2026}"
            } else {
                "enter a command and click Run"
            }
        } else if self.running {
            if self.focused {
                "typing active \u{2022} Esc to release"
            } else {
                "click inside to type"
            }
        } else {
            "press Start to open a shell"
        }
    }

    /// Take over the size of the terminal. A size where the session is to learn of it.
    pub fn sized(&mut self, cols: u16, rows: u16) -> (r: Option<(Handle, u16, u16)>)
        ensures
            resized(*old(self), cols, rows, r, *final(self)),
    {
        match self.resize {
            Some(h) => {
                let same = match (self.last_cols, self.last_rows) {
                    (Some(c), Some(w)) => c == cols && w == rows,
                    _ => false,
                };
                if same {
                    None
                } else {
                    self.last_cols = Some(cols);
                    self.last_rows = Some(rows);
                    Some((h, cols, rows))
                }
            },
            None => None,
        }
    }

    /// Send the line that was typed: its bytes and a line feed, where the session takes
    /// input. The line is then empty.
    pub fn send_line(&mut self) -> (r: Option<(Handle, Vec<u8>)>)
        ensures
            line_sent(*old(self), r, *final(self)),
    {
        match self.input {
            Some(h) => {
                let mut bytes = to_bytes(self.stdin_buf.as_str());
                bytes.push(10);
                self.stdin_buf = String::new();
                Some((h, bytes))
            },
            None => None,
        }
    }

    /// Choose a container of a list. True where the session is to end.
    pub fn choose_container(&mut self, name: String, containers: &Vec<String>) -> (stop: bool)
        ensures
            match chosen_container(old(self).container, containers@) {
                cur => if name@ == cur {
                    *final(self) == *old(self) && !stop
                } else {
                    *final(self) == (ExecState { container: Some(name), ..*old(self) }) && stop
                        == old(self).running
                },
            },
    {
        let current = current_container(&self.container, containers);
        if same_text(name.as_str(), current.as_str()) {
            false
        } else {
            self.container = Some(name);
            self.running
        }
    }
}

// ---------------------------------------------------------------------------
// The pane

/// Whether a tab of the pane is offered.
pub open spec fn tab_offered(a: App, tab: DetailsPaneTab) -> bool {
    match tab {
        DetailsPaneTab::SvcLogs => core_selected(a, "Service"@),
        DetailsPaneTab::Exec => core_selected(a, "Pod"@),
        _ => true,
    }
}

/// Whether what is shown belongs to another object than the selected one, and nothing
/// runs for it.
pub open spec fn needs_fetch(shown: Option<Uid>, selected: Option<Uid>, running: bool) -> bool {
    &&& selected is Some
    &&& !running
    &&& !(shown is Some && shown->0@ == selected->0@)
}

fn wants_fetch(shown: Option<Uid>, selected: Option<Uid>, running: bool) -> (r: bool)
    ensures
        r == needs_fetch(shown, selected, running),
{
    match (selected, shown) {
        (Some(b), Some(a)) => !running && !same_uid(&a, &b),
        (Some(_), None) => !running,
        (None, _) => false,
    }
}

impl App {
    /// Whether a tab of the pane is offered.
    pub fn offers_tab(&self, tab: DetailsPaneTab) -> (r: bool)
        ensures
            r == tab_offered(*self, tab),
    {
        match tab {
            DetailsPaneTab::SvcLogs => self.selected_is_service(),
            DetailsPaneTab::Exec => self.selected_is_pod(),
            _ => true,
        }
    }

    /// Whether the description of the selected object is to be read.
    pub fn describe_due(&self) -> (r: bool)
        ensures
            r == needs_fetch(self.describe.uid, self.details.selected, self.describe.running),
    {
        wants_fetch(self.describe.uid, self.details.selected, self.describe.running)
    }

    /// Whether the relations of the selected object are to be read.
    pub fn graph_due(&self) -> (r: bool)
        ensures
            r == needs_fetch(self.graph.uid, self.details.selected, self.graph.running),
    {
        wants_fetch(self.graph.uid, self.details.selected, self.graph.running)
    }

    /// Choose how the relations are drawn; the map is there only where it is enabled.
    pub fn choose_graph_mode(&mut self, mode: GraphViewMode)
        ensures
            *final(self) == (App {
                graph: GraphState {
                    mode: if old(self).atlas_enabled {
                        mode
                    } else {
                        GraphViewMode::Classic
                    },
                    ..old(self).graph
                },
                ..*old(self)
            }),
    {
        self.graph.mode = if self.atlas_enabled {
            mode
        } else {
            GraphViewMode::Classic
        };
    }
}

// ---------------------------------------------------------------------------
// What the details show

proof fn lemma_names(a: Option<Seq<JsonView>>, name: Seq<char>)
    ensures
        container_names(a).contains(name) <==> a is Some && exists|i: int|
            0 <= i < a->0.len() && (#[trigger] a->0[i]).str_of("name"@) == Some(name),
{
    if a is Some {
        let s = a->0;
        let f = |c: JsonView| c.str_of("name"@);
        lemma_collect_contains(s, f, name);
        if container_names(a).contains(name) {
            let i = choose|i: int| 0 <= i < s.len() && f(#[trigger] s[i]) == Some(name);
            assert(s[i].str_of("name"@) == Some(name));
        }
        if exists|i: int| 0 <= i < s.len() && (#[trigger] s[i]).str_of("name"@) == Some(name) {
            let i = choose|i: int| 0 <= i < s.len() && (#[trigger] s[i]).str_of("name"@) == Some(name);
            assert(f(s[i]) == Some(name));
        }
    }
}

/// Whether a list of an object has an item of a name.
pub open spec fn names_one(v: JsonView, list: Seq<char>, name: Seq<char>) -> bool {
    v.array_of2("spec"@, list) matches Some(a) && exists|i: int|
        0 <= i < a.len() && (#[trigger] a[i]).str_of("name"@) == Some(name)
}

/// The containers of a pod are those that it is made of, those that prepare it and those that
/// were added to it; nothing else has containers.
pub proof fn law_containers(v: JsonView, name: Seq<char>)
    ensures
        v.str_of("kind"@) == Some("Pod"@) ==> (pod_containers(v).contains(name) <==> names_one(v, "containers"@, name)
            || names_one(v, "initContainers"@, name) || names_one(v, "ephemeralContainers"@, name)),
        v.str_of("kind"@) matches Some(k) && k != "Pod"@ ==> pod_containers(v).len() == 0,
{
    let a = container_names(v.array_of2("spec"@, "containers"@));
    let b = container_names(v.array_of2("spec"@, "initContainers"@));
    let c = container_names(v.array_of2("spec"@, "ephemeralContainers"@));
    lemma_names(v.array_of2("spec"@, "containers"@), name);
    lemma_names(v.array_of2("spec"@, "initContainers"@), name);
    lemma_names(v.array_of2("spec"@, "ephemeralContainers"@), name);
    lemma_unique_contains(a + b + c, name);
    if a.contains(name) {
        let i = choose|i: int| 0 <= i < a.len() && a[i] == name;
        assert((a + b + c)[i] == name);
    }
    if b.contains(name) {
        let i = choose|i: int| 0 <= i < b.len() && b[i] == name;
        assert((a + b + c)[a.len() + i] == name);
    }
    if c.contains(name) {
        let i = choose|i: int| 0 <= i < c.len() && c[i] == name;
        assert((a + b + c)[a.len() + b.len() + i] == name);
    }
    if (a + b + c).contains(name) {
        let i = choose|i: int| 0 <= i < (a + b + c).len() && (a + b + c)[i] == name;
        if i < a.len() {
            assert(a[i] == name);
        } else if i < a.len() + b.len() {
            assert(b[i - a.len()] == name);
        } else {
            assert(c[i - a.len() - b.len()] == name);
        }
    }
}

/// A secret lists each of its texts under its key, with what it decodes to.
pub proof fn law_secret_entries(m: Seq<(Seq<char>, JsonView)>, i: int, b64: Seq<char>, bytes: Seq<u8>)
    requires
        0 <= i < m.len(),
        m[i].1 == JsonView::Str(b64),
        base64_read(b64) == Some(bytes),
    ensures
        exists|j: int|
            0 <= j < secret_entries(m).len() && (#[trigger] secret_entries(m)[j]).key == m[i].0 && secret_entries(m)[j].b64
                == b64 && (valid_utf8(bytes) ==> secret_entries(m)[j].decoded == Some(decode_utf8(bytes))) && (
            !valid_utf8(bytes) ==> secret_entries(m)[j].decoded is None),
    decreases m.len(),
{
    let all = secret_entries(m);
    if i < m.len() - 1 {
        let d = m.drop_last();
        law_secret_entries(d, i, b64, bytes);
        let rest = secret_entries(d);
        let j = choose|j: int|
            0 <= j < rest.len() && (#[trigger] rest[j]).key == d[i].0 && rest[j].b64 == b64 && (valid_utf8(bytes)
                ==> rest[j].decoded == Some(decode_utf8(bytes))) && (!valid_utf8(bytes) ==> rest[j].decoded is None);
        assert(all[j] == rest[j]);
    } else {
        assert(all[all.len() - 1].key == m[i].0);
    }
}

/// A value that is not revealed shows nothing of itself: all look alike. A revealed one shows
/// its text, or says that it has none. A copy takes the text, or the encoded form of what is no
/// text.
pub proof fn law_entry_shown(a: EntryView, b: EntryView, t: Seq<char>)
    ensures
        entry_shown(a, false) == entry_shown(b, false),
        a.decoded == Some(t) ==> entry_shown(a, true) == t && entry_copied(a) == t,
        a.decoded is None ==> entry_shown(a, true) == "(binary) base64="@ + a.b64 && entry_copied(a) == a.b64,
{
}

/// An object that is too large is not shown, whatever it holds: two of one size look alike.
pub proof fn law_too_large(x: Seq<u8>, y: Seq<u8>, max: nat)
    requires
        x.len() == y.len(),
        x.len() > max,
    ensures
        shown_text(x, max) == shown_text(y, max),
        shown_object(x, max) is None,
{
}

/// The state of an editor whose text was typed over.
pub open spec fn edit_typed(e: EditState, text: String) -> EditState {
    EditState { buffer: text, dirty: text@ != e.original@, ..e }
}

/// The state of an editor whose text was put back.
pub open spec fn edit_reset(e: EditState) -> EditState {
    EditState { buffer: e.original, dirty: false, ..e }
}

/// An editor is dirty where its text is not the one that was read, and only there; a reset
/// brings the text back that was read.
pub proof fn law_editor(e: EditState, text: String)
    ensures
        edit_typed(e, text).buffer@ == text@,
        edit_typed(e, text).dirty <==> edit_typed(e, text).buffer@ != edit_typed(e, text).original@,
        edit_typed(e, text).original@ == e.original@,
        edit_reset(edit_typed(e, text)).buffer@ == e.original@,
        !edit_reset(edit_typed(e, text)).dirty,
{
}

/// A limit of nothing, or of less, is no limit.
pub proof fn law_limit(n: i64)
    ensures
        n > 0 <==> limit_of(n) == Some(n),
        n <= 0 <==> limit_of(n) is None,
{
}

/// The line of the caret is the number of line feeds before it.
pub proof fn law_caret_line(a: Seq<u8>, b: Seq<u8>, c: u8)
    ensures
        line_feeds(Seq::empty()) == 0,
        line_feeds(a + b) == line_feeds(a) + line_feeds(b),
        line_feeds(seq![10u8]) == 1,
        c != 10 ==> line_feeds(seq![c]) == 0,
    decreases b.len(),
{
    assert(seq![10u8].drop_last() =~= Seq::empty());
    assert(seq![c].drop_last() =~= Seq::empty());
    assert(line_feeds(Seq::empty()) == 0);
    if b.len() == 0 {
        assert(a + b =~= a);
    } else {
        law_caret_line(a, b.drop_last(), c);
        assert((a + b).drop_last() =~= a + b.drop_last());
    }
}

/// A line is indented by the spaces at its head, two to a level.
pub proof fn law_indent(s: Seq<char>, n: nat)
    requires
        n <= s.len(),
        forall|i: int| 0 <= i < n ==> #[trigger] s[i] == ' ',
        n < s.len() ==> s[n as int] != ' ',
    ensures
        leading_spaces(s) == n,
    decreases s.len(),
{
    if n > 0 {
        assert(s[0] == ' ');
        let rest = s.skip(1);
        assert forall|i: int| 0 <= i < n - 1 implies #[trigger] rest[i] == ' ' by {
            assert(s[i + 1] == ' ');
        }
        law_indent(rest, (n - 1) as nat);
    }
}

/// The keys of a terminal send what terminals send for them: the arrows the escape for the
/// direction in which the cursor moves, and the others their control codes.
pub proof fn law_key_codes()
    ensures
        key_code(TermKey::Up) == seq![0x1bu8, '[' as u8, 'A' as u8],
        key_code(TermKey::Down) == seq![0x1bu8, '[' as u8, 'B' as u8],
        key_code(TermKey::Right) == seq![0x1bu8, '[' as u8, 'C' as u8],
        key_code(TermKey::Left) == seq![0x1bu8, '[' as u8, 'D' as u8],
        key_code(TermKey::Home) == seq![0x1bu8, '[' as u8, 'H' as u8],
        key_code(TermKey::End) == seq![0x1bu8, '[' as u8, 'F' as u8],
        key_code(TermKey::PageUp) == seq![0x1bu8, '[' as u8, '5' as u8, '~' as u8],
        key_code(TermKey::PageDown) == seq![0x1bu8, '[' as u8, '6' as u8, '~' as u8],
        key_code(TermKey::Enter) == seq!['\r' as u8],
        key_code(TermKey::Tab) == seq!['\t' as u8],
        key_code(TermKey::ControlC) == seq![('C' as u8 - 64) as u8],
        key_code(TermKey::ControlZ) == seq![('Z' as u8 - 64) as u8],
        key_code(TermKey::Backspace) == seq![0x7fu8],
{
}

/// What the panes show is read anew where another object is selected, and not while a read of
/// it runs, nor where nothing is selected.
pub proof fn law_needs_fetch(shown: Option<Uid>, selected: Option<Uid>, running: bool)
    ensures
        running ==> !needs_fetch(shown, selected, running),
        selected is None ==> !needs_fetch(shown, selected, running),
        shown == selected ==> !needs_fetch(shown, selected, running),
        !running && selected is Some && shown is None ==> needs_fetch(shown, selected, running),
        !running && selected is Some && shown is Some && shown->0@ != selected->0@ ==> needs_fetch(
            shown,
            selected,
            running,
        ),
{
}

/// The container that is read is the one that was chosen; where none was, the first.
pub proof fn law_chosen_container(cur: Option<String>, containers: Seq<String>)
    ensures
        cur is Some ==> chosen_container(cur, containers) == cur->0@,
        cur is None && containers.len() > 0 ==> chosen_container(cur, containers) == containers[0]@,
        cur is None && containers.len() == 0 ==> chosen_container(cur, containers) == Seq::<char>::empty(),
{
}

/// Line numbers count up from one, one to a line, all of one width.
pub proof fn law_gutter(n: nat, width: nat)
    ensures
        numbers(0, width) == Seq::<char>::empty(),
        numbers(n + 1, width) == numbers(n, width) + pad_left(dec(n + 1), width as int) + "\n"@,
        number_width(n) >= 2,
        number_width(n) >= dec(n).len(),
{
}

/// Whether a terminal was told its size: only where it changed, and only where it listens.
pub open spec fn resized(pre: ExecState, cols: u16, rows: u16, r: Option<(Handle, u16, u16)>, post: ExecState) -> bool {
    match pre.resize {
        Some(h) => if pre.last_cols != Some(cols) || pre.last_rows != Some(rows) {
            &&& r == Some((h, cols, rows))
            &&& post == (ExecState { last_cols: Some(cols), last_rows: Some(rows), ..pre })
        } else {
            r is None && post == pre
        },
        None => r is None && post == pre,
    }
}

/// A terminal is told a new size once: the columns and then the rows, and nothing where the size
/// is the one that it was told before.
pub proof fn law_resized(
    pre: ExecState,
    cols: u16,
    rows: u16,
    r: Option<(Handle, u16, u16)>,
    mid: ExecState,
    again: Option<(Handle, u16, u16)>,
    post: ExecState,
)
    requires
        resized(pre, cols, rows, r, mid),
        resized(mid, cols, rows, again, post),
    ensures
        again is None && post == mid,
        r matches Some(x) ==> x.1 == cols && x.2 == rows && pre.resize == Some(x.0),
        pre.resize is None ==> r is None,
        pre.resize is Some && pre.last_cols is None ==> r is Some,
{
}

/// Whether the line that was typed was sent.
pub open spec fn line_sent(pre: ExecState, r: Option<(Handle, Vec<u8>)>, post: ExecState) -> bool {
    match pre.input {
        Some(h) => {
            &&& r matches Some((x, bytes)) && x == h && bytes@ == encode_utf8(pre.stdin_buf@).push(10)
            &&& post == (ExecState { stdin_buf: post.stdin_buf, ..pre })
            &&& post.stdin_buf@ == Seq::<char>::empty()
        },
        None => r is None && post == pre,
    }
}

/// A line is sent whole, with a line feed at its end, and is gone then; without a session that
/// takes it, it stays.
pub proof fn law_line_sent(pre: ExecState, r: Option<(Handle, Vec<u8>)>, post: ExecState)
    requires
        line_sent(pre, r, post),
    ensures
        r is Some <==> pre.input is Some,
        r matches Some(x) ==> x.1@.last() == '\n' as u8 && x.1@.drop_last() == encode_utf8(pre.stdin_buf@),
        r is Some ==> post.stdin_buf@.len() == 0,
        r is None ==> post == pre,
{
    if r is Some {
        let b = (r->0).1@;
        assert(b.drop_last() =~= encode_utf8(pre.stdin_buf@));
    }
}

/// How many lines a view that follows shows.
pub open spec fn visible_limit(n: i32) -> usize {
    if n < 100 {
        100
    } else {
        n as usize
    }
}

/// A view that follows shows as many lines as were asked for, and never fewer than a hundred.
pub proof fn law_visible_limit(n: i32)
    ensures
        n >= 100 ==> visible_limit(n) == n,
        visible_limit(n) >= 100,
        n < 100 ==> visible_limit(n) == 100,
{
}

/// A shell is offered on pods and the logs of services on services; every other tab is offered
/// always.
pub proof fn law_tab_offered(a: App, tab: DetailsPaneTab)
    ensures
        tab_offered(a, DetailsPaneTab::Exec) <==> core_selected(a, "Pod"@),
        tab_offered(a, DetailsPaneTab::SvcLogs) <==> core_selected(a, "Service"@),
        !(tab is Exec) && !(tab is SvcLogs) ==> tab_offered(a, tab),
{
}

/// An expression that is no expression is told, and searched for by nothing; one of spaces
/// alone is none.
pub proof fn law_grep(text: Seq<char>, cache: Option<regex::Regex>, error: Option<String>)
    requires
        grep_becomes(text, cache, error),
    ensures
        cache is Some ==> regex_source(cache->0) == trimmed(text) && error is None,
        trimmed(text).len() == 0 ==> cache is None && error is None,
        trimmed(text).len() > 0 && !regex_ok(trimmed(text)) ==> cache is None && error is Some,
        trimmed(text).len() > 0 && regex_ok(trimmed(text)) ==> cache is Some,
{
}

proof fn lemma_pieces(p: Seq<Seq<char>>, n: nat)
    requires
        n <= p.len(),
        forall|i: int| 0 <= i < p.len() ==> !(#[trigger] p[i]).contains('\n') && p[i].len() > 0 && p[i].last() != '\r',
    ensures
        lines(pieces_text(p, n)) == p.skip(p.len() - n).reverse(),
        n > 0 ==> pieces_text(p, n).len() > 0 && pieces_text(p, n).last() == '\n',
    decreases n,
{
    reveal_strlit("\n");
    if n == 0 {
        crate::text::law_lines(Seq::empty(), Seq::empty());
        assert(lines(Seq::empty()) =~= Seq::empty());
        assert(p.skip(p.len() as int).reverse() =~= Seq::empty());
    } else {
        let m = (n - 1) as nat;
        lemma_pieces(p, m);
        let last = p[p.len() - n];
        let before = pieces_text(p, m);
        assert(!last.contains('\n') && last.last() != '\r');
        assert(last[last.len() - 1] != '\n') by {
            assert(last.contains(last[last.len() - 1]));
        }
        assert(ended(last) =~= last.push('\n'));
        lemma_lines_add(before, last);
        assert(pieces_text(p, n) == before + ended(last));
        assert(p.skip(p.len() - n).reverse() =~= p.skip(p.len() - m).reverse().push(last));
    }
}

proof fn lemma_lines_add(a: Seq<char>, b: Seq<char>)
    requires
        a.len() == 0 || a.last() == '\n',
        !b.contains('\n'),
        b.len() > 0 && b.last() != '\r',
    ensures
        lines(a + b.push('\n')) == lines(a).push(b),
    decreases a.len(),
{
    if a.len() == 0 {
        assert(a + b.push('\n') =~= b.push('\n') + Seq::<char>::empty());
        crate::text::law_lines(b, Seq::empty());
        assert(seq![b] + lines(Seq::empty()) =~= lines(a).push(b));
    } else {
        let i = crate::text::first_at(a, '\n') as int;
        lemma_first_feed(a);
        let (x, y) = (a.take(i), a.skip(i + 1));
        assert(a =~= x.push('\n') + y);
        assert forall|k: int| 0 <= k < x.len() implies x[k] != '\n' by {
            assert(x[k] == a[k]);
        }
        assert(y.len() > 0 ==> y.last() == a.last());
        lemma_lines_add(y, b);
        crate::text::law_lines(x, y);
        crate::text::law_lines(x, y + b.push('\n'));
        assert(a + b.push('\n') =~= x.push('\n') + (y + b.push('\n')));
        assert(lines(a + b.push('\n')) =~= lines(a).push(b));
    }
}

proof fn lemma_first_feed(a: Seq<char>)
    requires
        a.len() > 0,
        a.last() == '\n',
    ensures
        crate::text::first_at(a, '\n') < a.len(),
        a[crate::text::first_at(a, '\n') as int] == '\n',
        forall|k: int| 0 <= k < crate::text::first_at(a, '\n') ==> #[trigger] a[k] != '\n',
    decreases a.len(),
{
    if a[0] != '\n' {
        let rest = a.skip(1);
        assert(rest.last() == a.last());
        lemma_first_feed(rest);
        let i = crate::text::first_at(rest, '\n') as int;
        assert(a[i + 1] == rest[i]);
        assert forall|k: int| 0 <= k < i + 1 implies #[trigger] a[k] != '\n' by {
            if k > 0 {
                assert(a[k] == rest[k - 1]);
            }
        }
    }
}

/// The output of a session is shown in the order in which it came: where each piece is a line,
/// the lines are the pieces, from the first to the last.
pub proof fn law_session_output(p: Seq<Seq<char>>)
    requires
        p.len() < SHOWN_PIECES,
        forall|i: int| 0 <= i < p.len() ==> !(#[trigger] p[i]).contains('\n') && p[i].len() > 0 && p[i].last() != '\r',
    ensures
        output_text(p) == join(p, "\n"@),
{
    lemma_pieces(p, p.len());
    assert(p.skip(0) =~= p);
    assert(p.reverse().reverse() =~= p);
}

} // verus!
