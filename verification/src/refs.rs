//! References inside a schema: where they lead, and whether every chain of them ends.
use crate::json::{json_views, lemma_array_view, lemma_object_view, member_views, opt_view, Json, JsonView};
use crate::text::{
    ascii_lower, ascii_lowercase, contains_text, occurs, parse_usize, same_text, split, split_char, sub_text, texts,
    to_chars, unsigned_value,
};
use vstd::prelude::*;
use vstd::string::*;

verus! {

// ---------------------------------------------------------------------------
// Members at any depth

/// Whether a value has a member of a name that is a text, at any depth.
pub open spec fn says(v: JsonView, name: Seq<char>) -> bool
    decreases v,
{
    match v {
        JsonView::Array(a) => elements_say(a, a.len(), name),
        JsonView::Object(m) => members_say(m, m.len(), name),
        _ => false,
    }
}

/// Whether one of the first elements of a list has such a member.
pub open spec fn elements_say(a: Seq<JsonView>, n: nat, name: Seq<char>) -> bool
    decreases a, n,
{
    n > 0 && n <= a.len() && (elements_say(a, (n - 1) as nat, name) || says(a[n - 1], name))
}

/// Whether one of the first members of an object is such a member, or has one.
pub open spec fn members_say(m: Seq<(Seq<char>, JsonView)>, n: nat, name: Seq<char>) -> bool
    decreases m, n,
{
    n > 0 && n <= m.len() && (members_say(m, (n - 1) as nat, name) || (m[n - 1].0 == name && m[n - 1].1 is Str) || says(
        m[n - 1].1,
        name,
    ))
}

/// Whether a value has a member of a name that is a text, at any depth.
pub fn has_text(v: &Json, name: &str) -> (r: bool)
    ensures
        r == says(v@, name@),
    decreases v,
{
    broadcast use {lemma_array_view, lemma_object_view};

    let mut found = false;
    match v {
        Json::Array(a) => {
            let ghost av = json_views(a@);
            let mut i: usize = 0;
            while i < a.len()
                invariant
                    i <= a.len(),
                    av == json_views(a@),
                    *v == Json::Array(*a),
                    v@ == JsonView::Array(av),
                    found == elements_say(av, i as nat, name@),
                decreases a.len() - i,
            {
                let x = &a[i];
                assert(av[i as int] == a@[i as int]@);
                let here = has_text(x, name);
                found = found || here;
                i += 1;
            }
        },
        Json::Object(m) => {
            let ghost mv = member_views(m@);
            let mut i: usize = 0;
            while i < m.len()
                invariant
                    i <= m.len(),
                    mv == member_views(m@),
                    *v == Json::Object(*m),
                    v@ == JsonView::Object(mv),
                    found == members_say(mv, i as nat, name@),
                decreases m.len() - i,
            {
                let x = &m[i].1;
                assert(mv[i as int] == (m@[i as int].0@, m@[i as int].1@));
                let here = has_text(x, name);
                let is_text = match x {
                    Json::Str(_) => true,
                    _ => false,
                };
                found = found || (same_text(m[i].0.as_str(), name) && is_text) || here;
                i += 1;
            }
        },
        _ => {},
    }
    found
}

/// Whether a schema asks at any depth that the elements of a list differ.
pub open spec fn asks_unique(v: JsonView) -> bool
    decreases v,
{
    match v {
        JsonView::Array(a) => elements_ask(a, a.len()),
        JsonView::Object(m) => members_ask(m, m.len()),
        _ => false,
    }
}

/// Whether one of the first elements of a list asks that.
pub open spec fn elements_ask(a: Seq<JsonView>, n: nat) -> bool
    decreases a, n,
{
    n > 0 && n <= a.len() && (elements_ask(a, (n - 1) as nat) || asks_unique(a[n - 1]))
}

/// Whether one of the first members of an object asks that.
pub open spec fn members_ask(m: Seq<(Seq<char>, JsonView)>, n: nat) -> bool
    decreases m, n,
{
    n > 0 && n <= m.len() && (members_ask(m, (n - 1) as nat) || m[n - 1] == ("uniqueItems"@, JsonView::Bool(true))
        || asks_unique(m[n - 1].1))
}

// ---------------------------------------------------------------------------
// Where a reference leads

/// Whether a character can stand in a reference.
pub open spec fn is_plain(c: char) -> bool {
    '!' <= c && c <= '~'
}

/// The value of a hexadecimal digit.
pub open spec fn hex_value(c: char) -> Option<int> {
    if '0' <= c && c <= '9' {
        Some(c as int - 48)
    } else if 'a' <= c && c <= 'f' {
        Some(c as int - 87)
    } else if 'A' <= c && c <= 'F' {
        Some(c as int - 55)
    } else {
        None
    }
}

/// The byte that a percent sign and two digits stand for at a place.
pub open spec fn byte_at(s: Seq<char>, i: int) -> Option<int> {
    if 0 <= i && i + 2 < s.len() && s[i] == '%' {
        match (hex_value(s[i + 1]), hex_value(s[i + 2])) {
            (Some(a), Some(b)) => Some(16 * a + b),
            _ => None,
        }
    } else {
        None
    }
}

/// A text with its percent signs resolved, from a place on.
pub open spec fn decoded(s: Seq<char>, i: int) -> Seq<char>
    decreases s.len() - i,
{
    if i < 0 || i >= s.len() {
        Seq::empty()
    } else {
        match byte_at(s, i) {
            Some(b) => seq![b as char] + decoded(s, i + 3),
            None => seq![s[i]] + decoded(s, i + 1),
        }
    }
}

/// Whether a reference stays in its schema. Its percent signs stand for ASCII characters.
pub open spec fn is_local(s: Seq<char>) -> bool {
    &&& s.len() > 0
    &&& s[0] == '#'
    &&& forall|i: int| 0 <= i < s.len() ==> is_plain(#[trigger] s[i])
    &&& forall|i: int| 0 <= i < s.len() ==> (#[trigger] byte_at(s, i) matches Some(b) ==> b < 128)
}

/// Whether a reference names a document on the web, none of which is the schema of schemas.
/// No such document is fetched: the reference leads nowhere.
pub open spec fn is_remote(s: Seq<char>) -> bool {
    &&& begins_with(s, "http://"@) || begins_with(s, "https://"@)
    &&& forall|i: int| 0 <= i < s.len() ==> is_plain(#[trigger] s[i]) && s[i] != '%'
    &&& !occurs(ascii_lower(s), "json-schema"@)
}

/// Whether a text begins with another.
pub open spec fn begins_with(s: Seq<char>, p: Seq<char>) -> bool {
    s.len() >= p.len() && s.take(p.len() as int) == p
}

/// A step of a pointer: `~1` stands for a slash, and `~0` for a tilde.
pub open spec fn unescaped(s: Seq<char>) -> Seq<char>
    decreases s.len(),
{
    if s.len() == 0 {
        s
    } else if s.len() > 1 && s[0] == '~' && s[1] == '1' {
        seq!['/'] + unescaped(s.skip(2))
    } else if s.len() > 1 && s[0] == '~' && s[1] == '0' {
        seq!['~'] + unescaped(s.skip(2))
    } else {
        seq![s[0]] + unescaped(s.skip(1))
    }
}

/// The member of a name that an object has; the last one where it has several.
pub open spec fn last_member(m: Seq<(Seq<char>, JsonView)>, name: Seq<char>) -> Option<JsonView>
    decreases m.len(),
{
    if m.len() == 0 {
        None
    } else if m.last().0 == name {
        Some(m.last().1)
    } else {
        last_member(m.drop_last(), name)
    }
}

/// The place in a list that a step names: a number without a sign and without zeros before
/// it.
pub open spec fn list_place(t: Seq<char>) -> Option<nat> {
    if t.len() > 0 && (t[0] == '+' || (t[0] == '0' && t.len() != 1)) {
        None
    } else {
        unsigned_value(t, usize::MAX as nat)
    }
}

/// What a step of a pointer leads to.
pub open spec fn stepped(v: JsonView, step: Seq<char>) -> Option<JsonView> {
    match v {
        JsonView::Object(m) => last_member(m, unescaped(step)),
        JsonView::Array(a) => match list_place(unescaped(step)) {
            Some(i) => if i < a.len() {
                Some(a[i as int])
            } else {
                None
            },
            None => None,
        },
        _ => None,
    }
}

/// What the steps of a pointer lead to.
pub open spec fn walked(v: JsonView, steps: Seq<Seq<char>>) -> Option<JsonView>
    decreases steps.len(),
{
    if steps.len() == 0 {
        Some(v)
    } else {
        match stepped(v, steps[0]) {
            Some(x) => walked(x, steps.skip(1)),
            None => None,
        }
    }
}

/// What a local reference leads to, where it leads anywhere.
pub open spec fn pointed(root: JsonView, s: Seq<char>) -> Option<JsonView> {
    let path = decoded(s, 1);
    if path.len() == 0 {
        Some(root)
    } else if path[0] != '/' {
        None
    } else {
        walked(root, split(path.skip(1), '/'))
    }
}

fn hex_of(c: char) -> (r: Option<u8>)
    ensures
        match r {
            Some(n) => hex_value(c) == Some(n as int) && n < 16,
            None => hex_value(c) is None,
        },
{
    if '0' <= c && c <= '9' {
        Some((c as u32 - 48) as u8)
    } else if 'a' <= c && c <= 'f' {
        Some((c as u32 - 87) as u8)
    } else if 'A' <= c && c <= 'F' {
        Some((c as u32 - 55) as u8)
    } else {
        None
    }
}

fn read_byte(v: &Vec<char>, i: usize) -> (r: Option<u8>)
    requires
        i <= v.len(),
    ensures
        match r {
            Some(n) => byte_at(v@, i as int) == Some(n as int),
            None => byte_at(v@, i as int) is None,
        },
{
    if v.len() - i > 2 && v[i] == '%' {
        match (hex_of(v[i + 1]), hex_of(v[i + 2])) {
            (Some(a), Some(b)) => Some(16 * a + b),
            _ => None,
        }
    } else {
        None
    }
}

fn decode(v: &Vec<char>, from: usize) -> (r: Vec<char>)
    requires
        from <= v.len(),
        forall|i: int| 0 <= i < v@.len() ==> (#[trigger] byte_at(v@, i) matches Some(b) ==> b < 128),
    ensures
        r@ == decoded(v@, from as int),
{
    let mut out: Vec<char> = Vec::new();
    let mut i: usize = from;
    assert(out@ + decoded(v@, i as int) =~= decoded(v@, from as int));
    while i < v.len()
        invariant
            from <= i <= v.len(),
            forall|k: int| 0 <= k < v@.len() ==> (#[trigger] byte_at(v@, k) matches Some(b) ==> b < 128),
            out@ + decoded(v@, i as int) == decoded(v@, from as int),
        decreases v.len() - i,
    {
        let ghost before = out@;
        let ghost rest = decoded(v@, i as int);
        match read_byte(v, i) {
            Some(b) => {
                out.push(b as char);
                i += 3;
            },
            None => {
                out.push(v[i]);
                i += 1;
            },
        }
        assert(out@ + decoded(v@, i as int) =~= before + rest);
    }
    assert(out@ =~= decoded(v@, from as int));
    out
}

fn is_local_text(s: &str) -> (r: bool)
    ensures
        r == is_local(s@),
{
    let v = to_chars(s);
    if v.len() == 0 || v[0] != '#' {
        return false;
    }
    let mut i: usize = 0;
    while i < v.len()
        invariant
            i <= v.len(),
            v@ == s@,
            v@.len() > 0,
            v@[0] == '#',
            forall|k: int| 0 <= k < i ==> is_plain(#[trigger] v@[k]),
            forall|k: int| 0 <= k < i ==> (#[trigger] byte_at(v@, k) matches Some(b) ==> b < 128),
        decreases v.len() - i,
    {
        let c = v[i];
        if !('!' <= c && c <= '~') {
            assert(!is_plain(s@[i as int]));
            return false;
        }
        if let Some(b) = read_byte(&v, i) {
            if b >= 128 {
                assert(byte_at(s@, i as int) == Some(b as int));
                return false;
            }
        }
        i += 1;
    }
    true
}

fn begins(s: &str, p: &str) -> (r: bool)
    ensures
        r == begins_with(s@, p@),
{
    let v = to_chars(s);
    let w = to_chars(p);
    if v.len() < w.len() {
        return false;
    }
    let head = sub_text(&v, 0, w.len());
    assert(head@ =~= s@.take(p@.len() as int));
    same_text(head.as_str(), p)
}

fn is_remote_text(s: &str) -> (r: bool)
    ensures
        r == is_remote(s@),
{
    if !begins(s, "http://") && !begins(s, "https://") {
        return false;
    }
    let v = to_chars(s);
    let mut i: usize = 0;
    while i < v.len()
        invariant
            i <= v.len(),
            v@ == s@,
            forall|k: int| 0 <= k < i ==> is_plain(#[trigger] v@[k]) && v@[k] != '%',
        decreases v.len() - i,
    {
        let c = v[i];
        if !('!' <= c && c <= '~' && c != '%') {
            assert(!(is_plain(s@[i as int]) && s@[i as int] != '%'));
            return false;
        }
        i += 1;
    }
    let low = ascii_lowercase(s);
    !contains_text(low.as_str(), "json-schema")
}

fn unescape(s: &str) -> (r: String)
    ensures
        r@ == unescaped(s@),
{
    let v = to_chars(s);
    let mut out = String::new();
    let mut i: usize = 0;
    assert(out@ + unescaped(v@.skip(0)) =~= unescaped(s@)) by {
        assert(v@.skip(0) =~= s@);
    }
    while i < v.len()
        invariant
            i <= v.len(),
            v@ == s@,
            out@ + unescaped(v@.skip(i as int)) == unescaped(s@),
        decreases v.len() - i,
    {
        let ghost rest = v@.skip(i as int);
        let ghost before = out@;
        if v.len() - i > 1 && v[i] == '~' && v[i + 1] == '1' {
            out.push('/');
            assert(rest.skip(2) =~= v@.skip(i + 2));
            i += 2;
        } else if v.len() - i > 1 && v[i] == '~' && v[i + 1] == '0' {
            out.push('~');
            assert(rest.skip(2) =~= v@.skip(i + 2));
            i += 2;
        } else {
            out.push(v[i]);
            assert(rest.skip(1) =~= v@.skip(i + 1));
            i += 1;
        }
        assert(out@ + unescaped(v@.skip(i as int)) =~= before + unescaped(rest));
    }
    assert(unescaped(v@.skip(i as int)) =~= Seq::empty());
    assert(out@ =~= unescaped(s@));
    out
}

fn find_last<'a>(m: &'a Vec<(String, Json)>, name: &str) -> (r: Option<&'a Json>)
    ensures
        opt_view(r) == last_member(member_views(m@), name@),
{
    let ghost mv = member_views(m@);
    let mut i: usize = m.len();
    assert(mv.take(i as int) =~= mv);
    while i > 0
        invariant
            i <= m.len(),
            mv == member_views(m@),
            last_member(mv, name@) == last_member(mv.take(i as int), name@),
        decreases i,
    {
        assert(mv.take(i as int).last() == (m@[i - 1].0@, m@[i - 1].1@));
        assert(mv.take(i as int).drop_last() =~= mv.take(i - 1));
        if same_text(m[i - 1].0.as_str(), name) {
            return Some(&m[i - 1].1);
        }
        i -= 1;
    }
    None
}

fn step<'a>(v: &'a Json, t: &str) -> (r: Option<&'a Json>)
    ensures
        opt_view(r) == stepped(v@, t@),
{
    broadcast use {lemma_array_view, lemma_object_view};

    match v {
        Json::Object(m) => {
            let name = unescape(t);
            find_last(m, name.as_str())
        },
        Json::Array(a) => {
            let name = unescape(t);
            let c = to_chars(name.as_str());
            if c.len() > 0 && (c[0] == '+' || (c[0] == '0' && c.len() != 1)) {
                return None;
            }
            match parse_usize(name.as_str()) {
                Some(i) => {
                    if i < a.len() {
                        assert(json_views(a@)[i as int] == a@[i as int]@);
                        Some(&a[i])
                    } else {
                        None
                    }
                },
                None => None,
            }
        },
        _ => None,
    }
}

fn follow<'a>(root: &'a Json, s: &str) -> (r: Option<&'a Json>)
    requires
        is_local(s@),
    ensures
        opt_view(r) == pointed(root@, s@),
{
    let v = to_chars(s);
    let c = decode(&v, 1);
    if c.len() == 0 {
        return Some(root);
    }
    if c[0] != '/' {
        return None;
    }
    let rest = sub_text(&c, 1, c.len());
    assert(rest@ =~= c@.skip(1));
    let steps = split_char(rest.as_str(), '/');
    let ghost all = texts(steps@);
    let mut v: &Json = root;
    let mut i: usize = 0;
    assert(all.skip(0) =~= all);
    while i < steps.len()
        invariant
            i <= steps.len(),
            all == texts(steps@),
            pointed(root@, s@) == walked(root@, all),
            walked(root@, all) == walked(v@, all.skip(i as int)),
        decreases steps.len() - i,
    {
        assert(all.skip(i as int)[0] == steps@[i as int]@);
        assert(all.skip(i as int).skip(1) =~= all.skip(i + 1));
        match step(v, steps[i].as_str()) {
            Some(x) => {
                v = x;
            },
            None => {
                return None;
            },
        }
        i += 1;
    }
    Some(v)
}

// ---------------------------------------------------------------------------
// Whether references end

/// Whether a member of a schema is itself a schema for the same value.
pub open spec fn holds_schema(name: Seq<char>) -> bool {
    name == "not"@ || name == "if"@ || name == "then"@ || name == "else"@
}

/// Whether a member of a schema is a list of schemas for the same value.
pub open spec fn holds_schemas(name: Seq<char>) -> bool {
    name == "allOf"@ || name == "anyOf"@ || name == "oneOf"@
}

/// Whether a value, taken as a schema, needs at most so many references, one behind the
/// other, before it goes on to a smaller part of what it checks. Every reference on the way
/// is local, or leads nowhere.
pub open spec fn settles(root: JsonView, v: JsonView, n: nat) -> bool
    decreases n, v, 0nat,
{
    match v {
        JsonView::Object(m) => members_settle(root, m, m.len(), n),
        _ => true,
    }
}

/// Whether the first members of a schema need at most so many references.
pub open spec fn members_settle(root: JsonView, m: Seq<(Seq<char>, JsonView)>, k: nat, n: nat) -> bool
    decreases n, m, k,
{
    if k == 0 || k > m.len() {
        k == 0
    } else {
        &&& members_settle(root, m, (k - 1) as nat, n)
        &&& if m[k - 1].0 == "$ref"@ {
            match m[k - 1].1 {
                JsonView::Str(s) => if is_local(s) {
                    match pointed(root, s) {
                        Some(t) => n > 0 && settles(root, t, (n - 1) as nat),
                        None => true,
                    }
                } else {
                    is_remote(s) && !says(root, "$id"@)
                },
                _ => true,
            }
        } else if holds_schema(m[k - 1].0) {
            settles(root, m[k - 1].1, n)
        } else if holds_schemas(m[k - 1].0) {
            match m[k - 1].1 {
                JsonView::Array(a) => elements_settle(root, a, a.len(), n),
                _ => true,
            }
        } else if m[k - 1].0 == "dependencies"@ {
            match m[k - 1].1 {
                JsonView::Object(d) => parts_settle(root, d, d.len(), n),
                _ => true,
            }
        } else {
            true
        }
    }
}

/// Whether the first schemas of a list need at most so many references.
pub open spec fn elements_settle(root: JsonView, a: Seq<JsonView>, k: nat, n: nat) -> bool
    decreases n, a, k,
{
    k == 0 || (k <= a.len() && elements_settle(root, a, (k - 1) as nat, n) && settles(root, a[k - 1], n))
}

/// Whether the first schemas of an object need at most so many references.
pub open spec fn parts_settle(root: JsonView, m: Seq<(Seq<char>, JsonView)>, k: nat, n: nat) -> bool
    decreases n, m, k,
{
    k == 0 || (k <= m.len() && parts_settle(root, m, (k - 1) as nat, n) && settles(root, m[k - 1].1, n))
}

/// Whether a value and everything in it settle, each taken as a schema.
pub open spec fn all_settle(root: JsonView, v: JsonView, n: nat) -> bool
    decreases v,
{
    settles(root, v, n) && match v {
        JsonView::Array(a) => all_elements_settle(root, a, a.len(), n),
        JsonView::Object(m) => all_members_settle(root, m, m.len(), n),
        _ => true,
    }
}

/// Whether the first elements of a list and everything in them settle.
pub open spec fn all_elements_settle(root: JsonView, a: Seq<JsonView>, k: nat, n: nat) -> bool
    decreases a, k,
{
    k == 0 || (k <= a.len() && all_elements_settle(root, a, (k - 1) as nat, n) && all_settle(root, a[k - 1], n))
}

/// Whether the first members of an object and everything in them settle.
pub open spec fn all_members_settle(root: JsonView, m: Seq<(Seq<char>, JsonView)>, k: nat, n: nat) -> bool
    decreases m, k,
{
    k == 0 || (k <= m.len() && all_members_settle(root, m, (k - 1) as nat, n) && all_settle(root, m[k - 1].1, n))
}

/// Whether a text can name a whole schema.
pub open spec fn is_base(t: Seq<char>) -> bool {
    is_remote(t) && !t.contains('#')
}

/// Whether a schema has no identifier but one that names all of it.
pub open spec fn ids_fine(schema: JsonView) -> bool {
    !says(schema, "$id"@) || match schema {
        JsonView::Object(m) => forall|i: int|
            0 <= i < m.len() ==> !says((#[trigger] m[i]).1, "$id"@) && (m[i].0 == "$id"@ ==> match m[i].1 {
                JsonView::Str(t) => is_base(t),
                _ => true,
            }),
        _ => true,
    }
}

/// Whether the references of a schema end after so many, one behind the other. Without a
/// reference they do. Else no part of the schema has an identifier of its own.
pub open spec fn ends_within(schema: JsonView, n: nat) -> bool {
    !says(schema, "$ref"@) || (ids_fine(schema) && all_settle(schema, schema, n))
}

/// Whether the references of a schema end: no chain of them comes back to where it began
/// without going on to a smaller part of what is checked. A schema may refer to itself below
/// a member or an element. A reference by anything but a place in the schema or a document on
/// the web is not followed, nor are references in a schema whose parts have identifiers: such
/// a schema does not count as one that ends.
pub open spec fn ends(schema: JsonView) -> bool {
    exists|n: nat| ends_within(schema, n)
}

fn ids_are_fine(schema: &Json) -> (r: bool)
    ensures
        r == ids_fine(schema@),
{
    broadcast use {lemma_array_view, lemma_object_view};

    if !has_text(schema, "$id") {
        return true;
    }
    match schema {
        Json::Object(m) => {
            let ghost mv = member_views(m@);
            let mut i: usize = 0;
            while i < m.len()
                invariant
                    i <= m.len(),
                    mv == member_views(m@),
                    mv.len() == m@.len(),
                    schema@ == JsonView::Object(mv),
                    says(schema@, "$id"@),
                    forall|k: int|
                        0 <= k < i ==> !says((#[trigger] mv[k]).1, "$id"@) && (mv[k].0 == "$id"@ ==> match mv[k].1 {
                            JsonView::Str(t) => is_base(t),
                            _ => true,
                        }),
                decreases m.len() - i,
            {
                let x = &m[i].1;
                assert(mv[i as int] == (m@[i as int].0@, m@[i as int].1@));
                if has_text(x, "$id") {
                    assert(schema@->Object_0[i as int] == mv[i as int]);
                    return false;
                }
                if same_text(m[i].0.as_str(), "$id") {
                    if let Json::Str(t) = x {
                        if !is_remote_text(t.as_str()) || has_char(t.as_str(), '#') {
                            assert(schema@->Object_0[i as int] == mv[i as int]);
                            return false;
                        }
                    }
                }
                i += 1;
            }
            true
        },
        _ => true,
    }
}

fn has_char(t: &str, c: char) -> (r: bool)
    ensures
        r == t@.contains(c),
{
    let v = to_chars(t);
    let mut i: usize = 0;
    while i < v.len()
        invariant
            i <= v.len(),
            v@ == t@,
            forall|k: int| 0 <= k < i ==> #[trigger] v@[k] != c,
        decreases v.len() - i,
    {
        if v[i] == c {
            assert(t@[i as int] == c);
            return true;
        }
        i += 1;
    }
    false
}

fn node_settles(root: &Json, v: &Json, n: usize, free: bool) -> (r: bool)
    requires
        free == !says(root@, "$id"@),
    ensures
        r == settles(root@, v@, n as nat),
    decreases n, v, 0nat,
{
    broadcast use {lemma_array_view, lemma_object_view};

    match v {
        Json::Object(m) => {
            let ghost mv = member_views(m@);
            let mut k: usize = 0;
            while k < m.len()
                invariant
                    k <= m.len(),
                    mv == member_views(m@),
                    *v == Json::Object(*m),
                    v@ == JsonView::Object(mv),
                    members_settle(root@, mv, k as nat, n as nat),
                    free == !says(root@, "$id"@),
                decreases m.len() - k,
            {
                let name = m[k].0.as_str();
                let x = &m[k].1;
                assert(mv[k as int] == (m@[k as int].0@, m@[k as int].1@));
                proof {
                    if let Json::Array(a) = x {
                        lemma_array_view(*a);
                        assert(json_views(a@).len() == a@.len());
                    }
                    if let Json::Object(d) = x {
                        lemma_object_view(*d);
                        assert(member_views(d@).len() == d@.len());
                    }
                }
                let here = if same_text(name, "$ref") {
                    match x {
                        Json::Str(s) => {
                            if !is_local_text(s.as_str()) {
                                free && is_remote_text(s.as_str())
                            } else {
                                match follow(root, s.as_str()) {
                                    Some(t) => n > 0 && node_settles(root, t, n - 1, free),
                                    None => true,
                                }
                            }
                        },
                        _ => true,
                    }
                } else if same_text(name, "not") || same_text(name, "if") || same_text(name, "then") || same_text(
                    name,
                    "else",
                ) {
                    node_settles(root, x, n, free)
                } else if same_text(name, "allOf") || same_text(name, "anyOf") || same_text(name, "oneOf") {
                    match x {
                        Json::Array(a) => list_settles(root, a, n, free),
                        _ => true,
                    }
                } else if same_text(name, "dependencies") {
                    match x {
                        Json::Object(d) => object_settles(root, d, n, free),
                        _ => true,
                    }
                } else {
                    true
                };
                if !here {
                    proof {
                        assert(!members_settle(root@, mv, (k + 1) as nat, n as nat));
                        lemma_member_fails(root@, mv, (k + 1) as nat, mv.len(), n as nat);
                    }
                    return false;
                }
                k += 1;
            }
            true
        },
        _ => true,
    }
}

fn list_settles(root: &Json, a: &Vec<Json>, n: usize, free: bool) -> (r: bool)
    requires
        free == !says(root@, "$id"@),
    ensures
        r == elements_settle(root@, json_views(a@), a@.len(), n as nat),
    decreases n, a, 1nat,
{
    let ghost av = json_views(a@);
    let mut k: usize = 0;
    while k < a.len()
        invariant
            k <= a.len(),
            av == json_views(a@),
            elements_settle(root@, av, k as nat, n as nat),
            free == !says(root@, "$id"@),
        decreases a.len() - k,
    {
        let x = &a[k];
        assert(av[k as int] == a@[k as int]@);
        if !node_settles(root, x, n, free) {
            proof {
                lemma_element_fails(root@, av, (k + 1) as nat, av.len(), n as nat);
            }
            return false;
        }
        k += 1;
    }
    true
}

fn object_settles(root: &Json, m: &Vec<(String, Json)>, n: usize, free: bool) -> (r: bool)
    requires
        free == !says(root@, "$id"@),
    ensures
        r == parts_settle(root@, member_views(m@), m@.len(), n as nat),
    decreases n, m, 1nat,
{
    let ghost mv = member_views(m@);
    let mut k: usize = 0;
    while k < m.len()
        invariant
            k <= m.len(),
            mv == member_views(m@),
            parts_settle(root@, mv, k as nat, n as nat),
            free == !says(root@, "$id"@),
        decreases m.len() - k,
    {
        let x = &m[k].1;
        assert(mv[k as int] == (m@[k as int].0@, m@[k as int].1@));
        if !node_settles(root, x, n, free) {
            proof {
                lemma_part_fails(root@, mv, (k + 1) as nat, mv.len(), n as nat);
            }
            return false;
        }
        k += 1;
    }
    true
}

proof fn lemma_member_fails(root: JsonView, m: Seq<(Seq<char>, JsonView)>, k: nat, end: nat, n: nat)
    requires
        k <= end <= m.len(),
        !members_settle(root, m, k, n),
    ensures
        !members_settle(root, m, end, n),
    decreases end,
{
    if k < end {
        lemma_member_fails(root, m, k, (end - 1) as nat, n);
    }
}

proof fn lemma_element_fails(root: JsonView, a: Seq<JsonView>, k: nat, end: nat, n: nat)
    requires
        k <= end <= a.len(),
        !elements_settle(root, a, k, n),
    ensures
        !elements_settle(root, a, end, n),
    decreases end,
{
    if k < end {
        lemma_element_fails(root, a, k, (end - 1) as nat, n);
    }
}

proof fn lemma_part_fails(root: JsonView, m: Seq<(Seq<char>, JsonView)>, k: nat, end: nat, n: nat)
    requires
        k <= end <= m.len(),
        !parts_settle(root, m, k, n),
    ensures
        !parts_settle(root, m, end, n),
    decreases end,
{
    if k < end {
        lemma_part_fails(root, m, k, (end - 1) as nat, n);
    }
}

fn everything_settles(root: &Json, v: &Json, n: usize, free: bool) -> (r: bool)
    requires
        free == !says(root@, "$id"@),
    ensures
        r == all_settle(root@, v@, n as nat),
    decreases v,
{
    broadcast use {lemma_array_view, lemma_object_view};

    let mut ok = node_settles(root, v, n, free);
    let ghost here = ok;
    match v {
        Json::Array(a) => {
            let ghost av = json_views(a@);
            let mut k: usize = 0;
            while k < a.len()
                invariant
                    k <= a.len(),
                    av == json_views(a@),
                    *v == Json::Array(*a),
                    v@ == JsonView::Array(av),
                    here == settles(root@, v@, n as nat),
                    free == !says(root@, "$id"@),
                    ok == (here && all_elements_settle(root@, av, k as nat, n as nat)),
                decreases a.len() - k,
            {
                let x = &a[k];
                assert(av[k as int] == a@[k as int]@);
                ok = ok && everything_settles(root, x, n, free);
                k += 1;
            }
        },
        Json::Object(m) => {
            let ghost mv = member_views(m@);
            let mut k: usize = 0;
            while k < m.len()
                invariant
                    k <= m.len(),
                    mv == member_views(m@),
                    *v == Json::Object(*m),
                    v@ == JsonView::Object(mv),
                    here == settles(root@, v@, n as nat),
                    free == !says(root@, "$id"@),
                    ok == (here && all_members_settle(root@, mv, k as nat, n as nat)),
                decreases m.len() - k,
            {
                let x = &m[k].1;
                assert(mv[k as int] == (m@[k as int].0@, m@[k as int].1@));
                ok = ok && everything_settles(root, x, n, free);
                k += 1;
            }
        },
        _ => {},
    }
    ok
}

/// Whether the references of a schema end after so many, one behind the other.
pub fn references_end(schema: &Json, n: usize) -> (r: bool)
    ensures
        r == ends_within(schema@, n as nat),
        r ==> ends(schema@),
{
    if !has_text(schema, "$ref") {
        assert(ends_within(schema@, n as nat));
        return true;
    }
    let free = !has_text(schema, "$id");
    ids_are_fine(schema) && everything_settles(schema, schema, n, free)
}

/// A schema without a reference ends, whatever it holds.
pub proof fn law_no_reference_ends(schema: JsonView)
    requires
        !says(schema, "$ref"@),
    ensures
        ends(schema),
{
    assert(ends_within(schema, 0));
}

/// A schema that is nothing but a reference to itself never ends.
pub proof fn law_self_reference_never_ends(schema: JsonView, n: nat)
    requires
        schema == JsonView::Object(seq![("$ref"@, JsonView::Str("#"@))]),
    ensures
        !ends_within(schema, n),
        !ends(schema),
{
    assert forall|n: nat| !ends_within(schema, n) by {
        lemma_self_reference(schema, n);
    }
}

proof fn lemma_self_reference(schema: JsonView, n: nat)
    requires
        schema == JsonView::Object(seq![("$ref"@, JsonView::Str("#"@))]),
    ensures
        !settles(schema, schema, n),
        !ends_within(schema, n),
    decreases n,
{
    reveal_strlit("#");
    let m = seq![("$ref"@, JsonView::Str("#"@))];
    assert(m[0] == ("$ref"@, JsonView::Str("#"@)));
    assert(members_say(m, 1, "$ref"@));
    assert(pointed(schema, "#"@) == Some(schema));
    if n > 0 {
        lemma_self_reference(schema, (n - 1) as nat);
    }
    assert(!members_settle(schema, m, 1, n));
}

} // verus!
