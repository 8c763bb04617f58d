//! What the command line prints: kinds, objects and changes.
use crate::age::{age_text, render_age};
use crate::json::{or_text, text_of, Json, JsonView};
use crate::kubehub::{api_version_text, DiscoveredResource};
use crate::json::opt_str;
use crate::text::{cat2, cat3, cat5, copy_text, opt_text, pad_end, pad_right, same_text, string_or};
use crate::types::{key_of, uid_key, Delta, DeltaKind, LiteObj, LiteView};
use std::collections::HashMap;
use vstd::prelude::*;
use vstd::string::*;

verus! {

broadcast use {vstd::std_specs::hash::group_hash_axioms};

/// A kind on one line: its API version, its name, and whether it has namespaces.
pub open spec fn discover_text(group: Seq<char>, version: Seq<char>, kind: Seq<char>, namespaced: bool) -> Seq<char> {
    api_version_text(group, version) + " \u{2022} "@ + kind + " \u{2022} "@ + if namespaced {
        "namespaced"@
    } else {
        "cluster"@
    }
}

/// A kind on one line: its API version, its name, and whether it has namespaces.
pub fn discover_line(d: &DiscoveredResource) -> (r: String)
    ensures
        r@ == discover_text(d.group@, d.version@, d.kind@, d.namespaced),
{
    let gv = if d.group.as_str().is_empty() {
        d.version.clone()
    } else {
        cat3(d.group.as_str(), "/", d.version.as_str())
    };
    let scope = if d.namespaced {
        "namespaced"
    } else {
        "cluster"
    };
    cat5(gv.as_str(), " \u{2022} ", d.kind.as_str(), " \u{2022} ", scope)
}

/// The head of a list of objects.
pub fn ls_header() -> (r: String)
    ensures
        r@ == "NAMESPACE   NAME                 AGE"@,
{
    copy_text("NAMESPACE   NAME                 AGE")
}

/// An object on one line of a list: its namespace, its name and its age.
pub open spec fn ls_line(o: LiteView, now: i64) -> Seq<char> {
    pad_right(
        match o.namespace {
            Some(n) => n,
            None => "-"@,
        },
        11,
    ) + " "@ + pad_right(o.name, 20) + " "@ + age_text(o.creation_ts as int, now as int)
}

/// An object on one line of a list.
pub fn ls_row(o: &LiteObj, now: i64) -> (r: String)
    ensures
        r@ == ls_line(o@, now),
{
    let ns = string_or(&o.namespace, "-");
    let a = pad_end(ns.as_str(), 11);
    let b = pad_end(o.name.as_str(), 20);
    let c = render_age(o.creation_ts, now);
    cat5(a.as_str(), " ", b.as_str(), " ", c.as_str())
}

/// Whether an object is listed: in any namespace, or in the one that is asked for.
pub open spec fn listed_in(namespace: Option<Seq<char>>, filter: Option<Seq<char>>) -> bool {
    match filter {
        Some(f) => namespace == Some(f),
        None => true,
    }
}

/// Whether an object is listed.
pub fn is_listed(o: &LiteObj, filter: Option<&str>) -> (r: bool)
    ensures
        r == listed_in(o@.namespace, opt_str(filter)),
{
    match filter {
        None => true,
        Some(f) => match &o.namespace {
            Some(n) => same_text(n.as_str(), f),
            None => false,
        },
    }
}

/// The lines of a list of objects.
pub open spec fn ls_lines(items: Seq<LiteView>, filter: Option<Seq<char>>, now: i64) -> Seq<Seq<char>>
    decreases items.len(),
{
    if items.len() == 0 {
        Seq::empty()
    } else {
        let rest = ls_lines(items.drop_last(), filter, now);
        if listed_in(items.last().namespace, filter) {
            rest.push(ls_line(items.last(), now))
        } else {
            rest
        }
    }
}

/// The lines of a list of objects.
pub fn ls_rows(items: &Vec<LiteObj>, filter: Option<&str>, now: i64) -> (r: Vec<String>)
    ensures
        crate::text::texts(r@) == ls_lines(crate::types::lite_views(items@), opt_str(filter), now),
{
    let ghost all = crate::types::lite_views(items@);
    let mut out: Vec<String> = Vec::new();
    let mut i: usize = 0;
    assert(all.take(0) =~= Seq::empty());
    assert(crate::text::texts(out@) =~= Seq::empty());
    while i < items.len()
        invariant
            i <= items.len(),
            all == crate::types::lite_views(items@),
            crate::text::texts(out@) == ls_lines(all.take(i as int), opt_str(filter), now),
        decreases items.len() - i,
    {
        assert(all.take(i + 1).drop_last() =~= all.take(i as int));
        assert(all.take(i + 1).last() == items@[i as int]@);
        let ghost before = crate::text::texts(out@);
        if is_listed(&items[i], filter) {
            let row = ls_row(&items[i], now);
            let ghost rv = row@;
            out.push(row);
            assert(crate::text::texts(out@) =~= before.push(rv));
        }
        i += 1;
    }
    assert(all.take(all.len() as int) =~= all);
    out
}

/// An object by its namespace and its name.
pub open spec fn key_of_object(v: JsonView) -> Seq<char> {
    let name = or_text(v.str_of2("metadata"@, "name"@), ""@);
    match v.str_of2("metadata"@, "namespace"@) {
        Some(ns) => ns + "/"@ + name,
        None => name,
    }
}

/// An object by its namespace and its name.
pub fn json_key(v: &Json) -> (r: String)
    ensures
        r@ == key_of_object(v@),
{
    let name = text_of(v.str_of2("metadata", "name"), "");
    match v.str_of2("metadata", "namespace") {
        Some(ns) => cat3(ns, "/", name.as_str()),
        None => name,
    }
}

/// The version of an object.
pub open spec fn version_of(v: JsonView) -> Seq<char> {
    or_text(v.str_of2("metadata"@, "resourceVersion"@), ""@)
}

/// The versions of the objects that a watch has printed.
pub struct WatchPrinter {
    pub seen: HashMap<u128, String>,
}

/// The line for a change: a plus for an object that is new, a tilde for one that has another
/// version, a minus for one that is gone. A change that is no change has no line.
pub open spec fn change_line(known: Option<Seq<char>>, kind: DeltaKind, raw: JsonView) -> Option<Seq<char>> {
    match kind {
        DeltaKind::Applied => match known {
            None => Some("+ "@ + key_of_object(raw)),
            Some(v) => if v != version_of(raw) {
                Some("~ "@ + key_of_object(raw))
            } else {
                None
            },
        },
        DeltaKind::Deleted => Some("- "@ + key_of_object(raw)),
    }
}

/// The version that is known of an object after a change.
pub open spec fn known_after(kind: DeltaKind, raw: JsonView) -> Option<Seq<char>> {
    match kind {
        DeltaKind::Applied => Some(version_of(raw)),
        DeltaKind::Deleted => None,
    }
}

impl WatchPrinter {
    /// The version that is known of an object.
    pub open spec fn known(&self, key: u128) -> Option<Seq<char>> {
        if self.seen@.contains_key(key) {
            Some(self.seen@[key]@)
        } else {
            None
        }
    }

    /// A watch that has printed nothing.
    pub fn new() -> (r: WatchPrinter)
        ensures
            forall|key: u128| #[trigger] r.known(key) is None,
    {
        WatchPrinter { seen: HashMap::new() }
    }

    /// Take a change: the line that is printed for it. Where a namespace is asked for,
    /// changes of others are passed over.
    pub fn take(&mut self, d: &Delta, filter: Option<&str>) -> (r: Option<String>)
        ensures
            ({
                let key = uid_key(d.uid);
                if !listed_in(d.raw@.str_of2("metadata"@, "namespace"@), opt_str(filter)) {
                    r is None && *final(self) == *old(self)
                } else {
                    &&& opt_text(r) == change_line(old(self).known(key), d.kind, d.raw@)
                    &&& final(self).known(key) == known_after(d.kind, d.raw@)
                    &&& forall|k: u128| k != key ==> #[trigger] final(self).known(k) == old(self).known(k)
                }
            }),
    {
        if let Some(f) = filter {
            let same = match d.raw.str_of2("metadata", "namespace") {
                Some(n) => same_text(n, f),
                None => false,
            };
            if !same {
                return None;
            }
        }
        let name = json_key(&d.raw);
        let rv = text_of(d.raw.str_of2("metadata", "resourceVersion"), "");
        let key: u128 = key_of(&d.uid);
        match d.kind {
            DeltaKind::Applied => {
                let line = match self.seen.get(&key) {
                    None => Some(cat2("+ ", name.as_str())),
                    Some(v) => if same_text(v.as_str(), rv.as_str()) {
                        None
                    } else {
                        Some(cat2("~ ", name.as_str()))
                    },
                };
                self.seen.insert(key, rv);
                line
            },
            DeltaKind::Deleted => {
                self.seen.remove(&key);
                Some(cat2("- ", name.as_str()))
            },
        }
    }
}

/// An object that is applied again with the same version is printed once; one that is
/// applied after it was deleted is new again.
pub proof fn law_printed_once(raw: JsonView)
    ensures
        change_line(known_after(DeltaKind::Applied, raw), DeltaKind::Applied, raw) is None,
        change_line(known_after(DeltaKind::Deleted, raw), DeltaKind::Applied, raw) == Some("+ "@ + key_of_object(raw)),
{
}

/// A kind that was discovered is printed with its group, where it has one, its version and its
/// name; its scope stands at the end.
pub proof fn law_discovered_line(group: Seq<char>, version: Seq<char>, kind: Seq<char>)
    ensures
        discover_text(Seq::empty(), version, kind, true) == version + " \u{2022} "@ + kind + " \u{2022} "@
            + "namespaced"@,
        discover_text(Seq::empty(), version, kind, false) == version + " \u{2022} "@ + kind + " \u{2022} "@
            + "cluster"@,
        group.len() > 0 ==> discover_text(group, version, kind, true) == group + "/"@ + discover_text(
            Seq::empty(),
            version,
            kind,
            true,
        ),
        group.len() > 0 ==> discover_text(group, version, kind, false) == group + "/"@ + discover_text(
            Seq::empty(),
            version,
            kind,
            false,
        ),
{
    if group.len() > 0 {
        assert(discover_text(group, version, kind, true) =~= group + "/"@ + discover_text(
            Seq::empty(),
            version,
            kind,
            true,
        ));
        assert(discover_text(group, version, kind, false) =~= group + "/"@ + discover_text(
            Seq::empty(),
            version,
            kind,
            false,
        ));
    }
}

/// A list shows the objects of the namespace that was asked for, all of them where none was, in
/// the order in which they came: an object more is one line more at the end, or none.
pub proof fn law_listed(items: Seq<LiteView>, o: LiteView, ns: Seq<char>, now: i64)
    ensures
        ls_lines(Seq::empty(), Some(ns), now).len() == 0,
        ls_lines(Seq::empty(), None, now).len() == 0,
        ls_lines(items.push(o), None, now) == ls_lines(items, None, now).push(ls_line(o, now)),
        o.namespace == Some(ns) ==> ls_lines(items.push(o), Some(ns), now) == ls_lines(items, Some(ns), now).push(
            ls_line(o, now),
        ),
        o.namespace != Some(ns) ==> ls_lines(items.push(o), Some(ns), now) == ls_lines(items, Some(ns), now),
{
    assert(items.push(o).drop_last() =~= items);
}

/// A line of a list begins with the namespace, or a dash where there is none; the name follows,
/// and the age stands at the end.
pub proof fn law_list_line(o: LiteView, ns: Seq<char>, now: i64)
    requires
        ns.len() <= 11,
        o.namespace is None || o.namespace == Some(ns),
        o.name.len() <= 20,
    ensures
        ls_line(o, now).skip(33) == age_text(o.creation_ts as int, now as int),
        ls_line(o, now).subrange(12, 12 + o.name.len() as int) == o.name,
        o.namespace == Some(ns) ==> ls_line(o, now).take(ns.len() as int) == ns,
        o.namespace is None ==> ls_line(o, now).take(1) == seq!['-'],
{
    reveal_strlit(" ");
    reveal_strlit("-");
    assert(" "@.len() == 1 && "-"@ =~= seq!['-']);
    let line = ls_line(o, now);
    let first = match o.namespace {
        Some(n) => n,
        None => "-"@,
    };
    assert(line.skip(33) =~= age_text(o.creation_ts as int, now as int));
    assert(line.subrange(12, 12 + o.name.len() as int) =~= o.name);
    assert(line.take(first.len() as int) =~= first);
}

/// A watch prints a plus for an object it sees for the first time, a tilde where its version is
/// another one, a minus where it is gone, and nothing where it is told of the same version
/// again. An object is named by its namespace, where it has one, and its name.
pub proof fn law_watch_lines(raw: JsonView, seen: Seq<char>, now: Seq<char>, ns: Seq<char>, name: Seq<char>)
    requires
        raw.str_of2("metadata"@, "resourceVersion"@) == Some(now),
        raw.str_of2("metadata"@, "name"@) == Some(name),
    ensures
        raw.str_of2("metadata"@, "namespace"@) == Some(ns) ==> {
            &&& change_line(None, DeltaKind::Applied, raw) == Some("+ "@ + (ns + "/"@ + name))
            &&& seen != now ==> change_line(Some(seen), DeltaKind::Applied, raw) == Some("~ "@ + (ns + "/"@ + name))
            &&& change_line(Some(seen), DeltaKind::Deleted, raw) == Some("- "@ + (ns + "/"@ + name))
        },
        raw.str_of2("metadata"@, "namespace"@) is None ==> {
            &&& change_line(None, DeltaKind::Applied, raw) == Some("+ "@ + name)
            &&& seen != now ==> change_line(Some(seen), DeltaKind::Applied, raw) == Some("~ "@ + name)
            &&& change_line(Some(seen), DeltaKind::Deleted, raw) == Some("- "@ + name)
        },
        change_line(Some(now), DeltaKind::Applied, raw) is None,
        known_after(DeltaKind::Applied, raw) == Some(now),
        known_after(DeltaKind::Deleted, raw) is None,
{
}

/// A watch of a namespace prints what happens in it and nothing else; one of all prints all.
pub proof fn law_watch_scope(ns: Option<Seq<char>>, wanted: Seq<char>)
    ensures
        listed_in(ns, None),
        listed_in(Some(wanted), Some(wanted)),
        ns != Some(wanted) ==> !listed_in(ns, Some(wanted)),
{
}

} // verus!
