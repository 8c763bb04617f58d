//! Schemas of custom kinds: their columns, the fields that lists show of them, and the
//! check of a manifest against them.
use crate::codec::{parse_yaml, schema_compiles, schema_errors, schema_faults, yaml_read, YamlError, YamlErrorView};
use crate::columns::Projector;
use crate::gui::nav::{builtin_group, is_builtin_group};
use crate::gvk::{key_parts, parse_gvk_key};
use crate::json::{
    json_views, lemma_array_view, lemma_object_view, member_views, object_in, opt_members, opt_view, or_text,
    text_of, Json, JsonView, Num, NumView,
};
use crate::patterns::{all_tame, holds_all, patterns_tame, Ask};
use crate::refs::{asks_unique, ends, ends_within, references_end};
use crate::settings::setting_views;
use crate::small::ProjectedVec;
use crate::text::{
    cat2, cat3, contains_text, copy_text, dec, dec_int, first_at, i64_text, is_digit, lemma_first_at, occurs,
    opt_text, parse_usize, same_text, split, split_char, sub_text, texts, to_chars, u64_text, unsigned_value,
};
use vstd::prelude::*;
use vstd::string::*;

verus! {

/// A column that a kind asks to be shown.
#[derive(Debug)]
pub struct PrinterCol {
    pub name: String,
    pub json_path: String,
}

/// A field that is taken out of objects, with its number.
#[derive(Debug)]
pub struct PathSpec {
    pub id: u32,
    pub json_path: String,
}

/// What a schema leaves open.
#[derive(Debug, Clone, Copy, PartialEq, Eq, Structural)]
pub struct SchemaFlags {
    pub yaml_only_nodes: bool,
    pub preserves_unknown: bool,
}

impl Default for SchemaFlags {
    fn default() -> (r: Self)
        ensures
            r == (SchemaFlags { yaml_only_nodes: false, preserves_unknown: false }),
    {
        SchemaFlags { yaml_only_nodes: false, preserves_unknown: false }
    }
}

/// The schema of a custom kind.
#[derive(Debug)]
pub struct CrdSchema {
    pub served_version: String,
    pub printer_cols: Vec<PrinterCol>,
    pub projected_paths: Vec<PathSpec>,
    pub flags: SchemaFlags,
}

/// The numbers and the paths of a list of fields.
pub open spec fn spec_views(v: Seq<PathSpec>) -> Seq<(u32, Seq<char>)> {
    v.map_values(|p: PathSpec| (p.id, p.json_path@))
}

/// The names and the paths of a list of columns.
pub open spec fn col_views(v: Seq<PrinterCol>) -> Seq<(Seq<char>, Seq<char>)> {
    v.map_values(|p: PrinterCol| (p.name@, p.json_path@))
}

// ---------------------------------------------------------------------------
// Paths

/// Whether a character may stand in the name of a field.
pub open spec fn is_key_char(c: char) -> bool {
    ||| is_digit(c)
    ||| 'a' <= c && c <= 'z'
    ||| 'A' <= c && c <= 'Z'
    ||| c == '_'
    ||| c == '-'
}

/// Whether a part of a path is simple: a name, or a name and a number in brackets.
pub open spec fn simple_part(s: Seq<char>) -> bool {
    let p = first_at(s, '[') as int;
    if p >= s.len() {
        s.len() > 0 && forall|i: int| 0 <= i < s.len() ==> is_key_char(#[trigger] s[i])
    } else {
        &&& forall|i: int| 0 <= i < p ==> is_key_char(#[trigger] s[i])
        &&& p + 2 < s.len()
        &&& s.last() == ']'
        &&& forall|i: int| p < i < s.len() - 1 ==> is_digit(#[trigger] s[i])
    }
}

/// A path without the dot that it may begin with.
pub open spec fn undotted(s: Seq<char>) -> Seq<char> {
    if s.len() > 0 && s[0] == '.' {
        s.skip(1)
    } else {
        s
    }
}

/// The path as it is kept, where all its parts are simple.
pub open spec fn normalized(jp: Seq<char>) -> Option<Seq<char>> {
    let s = undotted(jp);
    if forall|i: int| 0 <= i < split(s, '.').len() ==> simple_part(#[trigger] split(s, '.')[i]) {
        Some(s)
    } else {
        None
    }
}

fn key_char(c: char) -> (r: bool)
    ensures
        r == is_key_char(c),
{
    (c >= '0' && c <= '9') || (c >= 'a' && c <= 'z') || (c >= 'A' && c <= 'Z') || c == '_' || c == '-'
}

fn find_char(v: &Vec<char>, c: char) -> (r: usize)
    ensures
        r == first_at(v@, c),
        r <= v@.len(),
        forall|i: int| 0 <= i < r ==> #[trigger] v@[i] != c,
        r < v@.len() ==> v@[r as int] == c,
{
    let mut i: usize = 0;
    while i < v.len() && v[i] != c
        invariant
            i <= v.len(),
            forall|k: int| 0 <= k < i ==> #[trigger] v@[k] != c,
        ensures
            i < v.len() ==> v@[i as int] == c,
        decreases v.len() - i,
    {
        i += 1;
    }
    proof {
        lemma_first_at(v@, c, i as int);
    }
    i
}

fn is_simple_part(s: &str) -> (r: bool)
    ensures
        r == simple_part(s@),
{
    let v = to_chars(s);
    let n: usize = v.len();
    let p: usize = find_char(&v, '[');
    let mut i: usize = 0;
    while i < p
        invariant
            i <= p <= n,
            n == v.len(),
            v@ == s@,
            p == first_at(s@, '['),
            forall|k: int| 0 <= k < i ==> is_key_char(#[trigger] s@[k]),
        decreases p - i,
    {
        if !key_char(v[i]) {
            return false;
        }
        i += 1;
    }
    if p >= n {
        return n > 0;
    }
    if n - p < 3 || v[n - 1] != ']' {
        return false;
    }
    let mut j: usize = p + 1;
    while j < n - 1
        invariant
            p < j <= n - 1,
            n == v.len(),
            v@ == s@,
            p == first_at(s@, '['),
            p < n,
            forall|k: int| p < k < j ==> is_digit(#[trigger] s@[k]),
        decreases n - j,
    {
        if !(v[j] >= '0' && v[j] <= '9') {
            return false;
        }
        j += 1;
    }
    true
}

/// The path as it is kept, where all its parts are simple.
pub fn normalize_json_path(jp: &str) -> (r: Option<String>)
    ensures
        opt_text(r) == normalized(jp@),
{
    let v = to_chars(jp);
    let s = if v.len() > 0 && v[0] == '.' {
        let t = sub_text(&v, 1, v.len());
        assert(t@ =~= jp@.skip(1));
        t
    } else {
        copy_text(jp)
    };
    let parts = split_char(s.as_str(), '.');
    let ghost pv = texts(parts@);
    let mut i: usize = 0;
    while i < parts.len()
        invariant
            i <= parts.len(),
            pv == texts(parts@),
            pv == split(s@, '.'),
            s@ == undotted(jp@),
            forall|k: int| 0 <= k < i ==> simple_part(#[trigger] pv[k]),
        decreases parts.len() - i,
    {
        assert(pv[i as int] == parts@[i as int]@);
        if !is_simple_part(parts[i].as_str()) {
            assert(!simple_part(split(s@, '.')[i as int]));
            return None;
        }
        i += 1;
    }
    Some(s)
}

/// A path that is kept is kept as it is.
pub proof fn law_normalized_again(jp: Seq<char>)
    ensures
        normalized(jp) matches Some(s) ==> normalized(s) == Some(s) && s.len() > 0,
{
    if let Some(s) = normalized(jp) {
        assert(s.len() > 0 && s[0] != '.') by {
            crate::text::lemma_split_nonempty(s, '.');
            assert(simple_part(split(s, '.')[0]));
            if s.len() == 0 {
                crate::text::lemma_split_single(s, '.');
            } else if s[0] == '.' {
                crate::text::lemma_split_concat(Seq::<char>::empty(), '.', s.skip(1));
                assert(Seq::<char>::empty().push('.') + s.skip(1) =~= s);
                crate::text::lemma_split_single(Seq::<char>::empty(), '.');
            }
        }
    }
}
/// The name in a part of a path, and the number in its brackets; `None` where it has no
/// closing bracket or no number in it.
pub open spec fn part_of(s: Seq<char>) -> Option<(Seq<char>, Option<nat>)> {
    let p = first_at(s, '[');
    if s.len() == 0 {
        None
    } else if p >= s.len() {
        Some((s, None))
    } else {
        let rest = s.skip(p as int + 1);
        let q = first_at(rest, ']');
        if q >= rest.len() {
            None
        } else {
            match unsigned_value(rest.take(q as int), usize::MAX as nat) {
                Some(n) => Some((s.take(p as int), Some(n))),
                None => None,
            }
        }
    }
}

/// The value below a part of a path.
pub open spec fn below(v: JsonView, part: Seq<char>) -> Option<JsonView> {
    match part_of(part) {
        None => None,
        Some((key, at)) => match v.get(key) {
            None => None,
            Some(x) => match at {
                None => Some(x),
                Some(i) => match x.items() {
                    Some(a) => if i < a.len() {
                        Some(a[i as int])
                    } else {
                        None
                    },
                    None => None,
                },
            },
        },
    }
}

/// The value below some parts of a path, one after the other.
pub open spec fn below_all(v: JsonView, parts: Seq<Seq<char>>) -> Option<JsonView>
    decreases parts.len(),
{
    if parts.len() == 0 {
        Some(v)
    } else {
        match below(v, parts[0]) {
            Some(x) => below_all(x, parts.skip(1)),
            None => None,
        }
    }
}

/// The value at a path.
pub open spec fn value_at(v: JsonView, path: Seq<char>) -> Option<JsonView> {
    below_all(v, split(path, '.'))
}

/// A number as text.
pub open spec fn num_text(n: NumView) -> Seq<char> {
    match n {
        NumView::Pos(x) => dec(x as nat),
        NumView::Neg(x) => dec_int(x as int),
        NumView::Float(s) => s,
    }
}

/// A scalar as text; none for null, arrays and objects.
pub open spec fn scalar_text(v: JsonView) -> Option<Seq<char>> {
    match v {
        JsonView::Str(s) => Some(s),
        JsonView::Number(n) => Some(num_text(n)),
        JsonView::Bool(b) => Some(
            if b {
                "true"@
            } else {
                "false"@
            },
        ),
        _ => None,
    }
}

/// The scalar at a path as text.
pub open spec fn field_at(v: JsonView, path: Seq<char>) -> Option<Seq<char>> {
    match value_at(v, path) {
        Some(x) => scalar_text(x),
        None => None,
    }
}

/// The fields that an object has, with their numbers.
pub open spec fn fields_of(specs: Seq<(u32, Seq<char>)>, v: JsonView) -> Seq<(u32, Seq<char>)>
    decreases specs.len(),
{
    if specs.len() == 0 {
        Seq::empty()
    } else {
        let rest = fields_of(specs.drop_last(), v);
        match field_at(v, specs.last().1) {
            Some(s) => rest.push((specs.last().0, s)),
            None => rest,
        }
    }
}

/// The first elements of a list, at most so many.
pub open spec fn at_most<A>(s: Seq<A>, n: nat) -> Seq<A> {
    if s.len() > n {
        s.take(n as int)
    } else {
        s
    }
}

/// A projector that takes the fields at given paths, the first eight that an object has.
pub struct SchemaProjector {
    specs: Vec<PathSpec>,
}

fn read_part(s: &str) -> (r: Option<(String, Option<usize>)>)
    ensures
        match r {
            Some((k, at)) => part_of(s@) == Some(
                (
                    k@,
                    match at {
                        Some(n) => Some(n as nat),
                        None => None,
                    },
                ),
            ),
            None => part_of(s@) is None,
        },
{
    let v = to_chars(s);
    if v.len() == 0 {
        return None;
    }
    let p: usize = find_char(&v, '[');
    if p >= v.len() {
        return Some((copy_text(s), None));
    }
    let rest = sub_text(&v, p + 1, v.len());
    assert(rest@ =~= s@.skip(p + 1));
    let w = to_chars(rest.as_str());
    let q: usize = find_char(&w, ']');
    if q >= w.len() {
        return None;
    }
    let digits = sub_text(&w, 0, q);
    assert(digits@ =~= rest@.take(q as int));
    match parse_usize(digits.as_str()) {
        Some(n) => {
            let key = sub_text(&v, 0, p);
            assert(key@ =~= s@.take(p as int));
            Some((key, Some(n)))
        },
        None => None,
    }
}

fn read_below<'a>(v: &'a Json, part: &str) -> (r: Option<&'a Json>)
    ensures
        opt_view(r) == below(v@, part@),
{
    match read_part(part) {
        None => None,
        Some((key, at)) => match v.get(key.as_str()) {
            None => None,
            Some(x) => match at {
                None => Some(x),
                Some(i) => match x.as_array() {
                    Some(a) => if i < a.len() {
                        Some(&a[i])
                    } else {
                        None
                    },
                    None => None,
                },
            },
        },
    }
}

fn scalar(v: &Json) -> (r: Option<String>)
    ensures
        opt_text(r) == scalar_text(v@),
{
    match v {
        Json::Str(s) => Some(s.clone()),
        Json::Number(Num::Pos(n)) => Some(u64_text(*n)),
        Json::Number(Num::Neg(n)) => Some(i64_text(*n)),
        Json::Number(Num::Float(s)) => Some(s.clone()),
        Json::Bool(b) => Some(
            if *b {
                copy_text("true")
            } else {
                copy_text("false")
            },
        ),
        _ => None,
    }
}

impl SchemaProjector {
    /// The numbers and the paths of the fields.
    pub closed spec fn wanted(&self) -> Seq<(u32, Seq<char>)> {
        spec_views(self.specs@)
    }

    /// A projector for given fields.
    pub fn new(specs: Vec<PathSpec>) -> (r: Self)
        ensures
            r.wanted() == spec_views(specs@),
    {
        SchemaProjector { specs }
    }

    /// The value at a path: names between dots, each with a number in brackets at most.
    pub fn extract_path<'a>(root: &'a Json, path: &str) -> (r: Option<&'a Json>)
        ensures
            opt_view(r) == value_at(root@, path@),
    {
        let parts = split_char(path, '.');
        let ghost pv = texts(parts@);
        let mut cur = root;
        let mut i: usize = 0;
        assert(pv.skip(0) =~= pv);
        while i < parts.len()
            invariant
                i <= parts.len(),
                pv == texts(parts@),
                pv == split(path@, '.'),
                value_at(root@, path@) == below_all(cur@, pv.skip(i as int)),
            decreases parts.len() - i,
        {
            assert(pv.skip(i as int)[0] == parts@[i as int]@);
            assert(pv.skip(i as int).skip(1) =~= pv.skip(i + 1));
            match read_below(cur, parts[i].as_str()) {
                Some(x) => {
                    cur = x;
                },
                None => {
                    return None;
                },
            }
            i += 1;
        }
        Some(cur)
    }
}

/// The fields among the first paths are the first of all fields.
proof fn lemma_fields_grow(specs: Seq<(u32, Seq<char>)>, v: JsonView, i: int)
    requires
        0 <= i <= specs.len(),
    ensures
        fields_of(specs.take(i), v).len() <= fields_of(specs, v).len(),
        fields_of(specs, v).take(fields_of(specs.take(i), v).len() as int) == fields_of(specs.take(i), v),
    decreases specs.len(),
{
    if i < specs.len() {
        assert(specs.drop_last().take(i) =~= specs.take(i));
        lemma_fields_grow(specs.drop_last(), v, i);
        let a = fields_of(specs.take(i), v);
        let b = fields_of(specs.drop_last(), v);
        assert(fields_of(specs, v).take(a.len() as int) =~= b.take(a.len() as int));
    } else {
        assert(specs.take(i) =~= specs);
        assert(fields_of(specs, v).take(fields_of(specs, v).len() as int) =~= fields_of(specs, v));
    }
}

impl Projector for SchemaProjector {
    open spec fn fields(&self, raw: JsonView) -> Seq<(u32, Seq<char>)> {
        at_most(fields_of(self.wanted(), raw), 8)
    }

    fn project(&self, raw: &Json) -> (r: ProjectedVec) {
        let ghost all = spec_views(self.specs@);
        let mut out = ProjectedVec::new();
        let mut i: usize = 0;
        assert(all.take(0) =~= Seq::empty());
        while i < self.specs.len()
            invariant
                i <= self.specs.len(),
                all == spec_views(self.specs@),
                out@ == fields_of(all.take(i as int), raw@),
                out@.len() < 8,
            decreases self.specs.len() - i,
        {
            let spec_ = &self.specs[i];
            assert(all.take(i + 1).drop_last() =~= all.take(i as int));
            assert(all.take(i + 1).last() == (spec_.id, spec_.json_path@));
            if let Some(v) = SchemaProjector::extract_path(raw, spec_.json_path.as_str()) {
                if let Some(s) = scalar(v) {
                    out.push(spec_.id, s);
                    if out.len() >= 8 {
                        proof {
                            lemma_fields_grow(all, raw@, i + 1);
                            assert(out@ == fields_of(all.take(i + 1), raw@));
                            assert(fields_of(all, raw@).take(8) == out@);
                            if fields_of(all, raw@).len() == 8 {
                                assert(fields_of(all, raw@).take(8) =~= fields_of(all, raw@));
                            }
                        }
                        return out;
                    }
                }
            }
            i += 1;
        }
        assert(all.take(all.len() as int) =~= all);
        out
    }
}

/// A projector takes eight fields at most.
pub proof fn law_eight_fields(p: SchemaProjector, raw: JsonView)
    ensures
        p.fields(raw).len() <= 8,
{
}

fn copy_specs(v: &Vec<PathSpec>) -> (r: Vec<PathSpec>)
    ensures
        spec_views(r@) == spec_views(v@),
{
    let mut out: Vec<PathSpec> = Vec::new();
    let ghost all = spec_views(v@);
    let mut i: usize = 0;
    assert(spec_views(out@) =~= all.take(0));
    while i < v.len()
        invariant
            i <= v.len(),
            all == spec_views(v@),
            spec_views(out@) == all.take(i as int),
        decreases v.len() - i,
    {
        let ghost before = spec_views(out@);
        out.push(PathSpec { id: v[i].id, json_path: v[i].json_path.clone() });
        assert(spec_views(out@) =~= before.push((v@[i as int].id, v@[i as int].json_path@)));
        assert(spec_views(out@) =~= all.take(i + 1));
        i += 1;
    }
    assert(all.take(all.len() as int) =~= all);
    out
}

impl CrdSchema {
    /// The projector of the schema's fields.
    pub fn projector(&self) -> (r: SchemaProjector)
        ensures
            r.wanted() == spec_views(self.projected_paths@),
    {
        SchemaProjector::new(copy_specs(&self.projected_paths))
    }
}

// ---------------------------------------------------------------------------
// The schema in a definition

/// Whether a type is a scalar.
pub open spec fn is_scalar(ty: Seq<char>) -> bool {
    ty == "string"@ || ty == "integer"@ || ty == "number"@ || ty == "boolean"@
}

/// The path of a member below a path.
pub open spec fn child_path(base: Seq<char>, name: Seq<char>) -> Seq<char> {
    if base.len() == 0 {
        name
    } else {
        base + "."@ + name
    }
}

/// The paths of the scalars below the first properties of a schema, at most four deep.
pub open spec fn leaves(m: Seq<(Seq<char>, JsonView)>, base: Seq<char>, depth: nat, n: nat) -> Seq<Seq<char>>
    decreases 4 - depth, n,
{
    if depth > 3 || n == 0 || n > m.len() {
        Seq::empty()
    } else {
        leaves(m, base, depth, (n - 1) as nat) + leaf(m[n - 1].1, child_path(base, m[n - 1].0), depth)
    }
}

/// The paths of the scalars of a property. Of an array, the first element stands for all.
pub open spec fn leaf(v: JsonView, path: Seq<char>, depth: nat) -> Seq<Seq<char>>
    decreases 4 - depth, 0nat,
{
    let ty = or_text(v.str_of("type"@), ""@);
    if depth > 3 {
        Seq::empty()
    } else if ty == "object"@ {
        match opt_members(v.get("properties"@)) {
            Some(p) => leaves(p, path, depth + 1, p.len()),
            None => Seq::empty(),
        }
    } else if ty == "array"@ {
        match v.get("items"@) {
            Some(items) => {
                let ity = or_text(items.str_of("type"@), ""@);
                if is_scalar(ity) {
                    seq![path + "[0]"@]
                } else if ity == "object"@ {
                    match opt_members(items.get("properties"@)) {
                        Some(p) => leaves(p, path + "[0]"@, depth + 1, p.len()),
                        None => Seq::empty(),
                    }
                } else {
                    Seq::empty()
                }
            },
            None => Seq::empty(),
        }
    } else if is_scalar(ty) {
        seq![path]
    } else {
        Seq::empty()
    }
}

/// The paths that a schema suggests: those of the first sixteen scalars of its
/// specification; none where there is none.
pub open spec fn suggested(schema: JsonView) -> Option<Seq<Seq<char>>> {
    match schema.get3("properties"@, "spec"@, "properties"@) {
        Some(JsonView::Object(p)) => {
            let all = at_most(leaves(p, "spec"@, 0, p.len()), 16);
            if all.len() == 0 {
                None
            } else {
                Some(all)
            }
        },
        _ => None,
    }
}

proof fn lemma_at_most<A>(a: Seq<A>, b: Seq<A>, n: nat)
    ensures
        at_most(at_most(a, n) + b, n) == at_most(a + b, n),
        at_most(a, n).len() >= n ==> at_most(a + b, n) == at_most(a, n),
{
    assert(at_most(at_most(a, n) + b, n) =~= at_most(a + b, n));
    if at_most(a, n).len() >= n {
        assert(at_most(a + b, n) =~= at_most(a, n));
    }
}

fn scalar_type(ty: &str) -> (r: bool)
    ensures
        r == is_scalar(ty@),
{
    same_text(ty, "string") || same_text(ty, "integer") || same_text(ty, "number") || same_text(ty, "boolean")
}

fn push_leaf(out: &mut Vec<String>, path: String)
    requires
        old(out)@.len() < 16,
    ensures
        texts(final(out)@) == at_most(texts(old(out)@) + seq![path@], 16),
{
    let ghost before = texts(out@);
    out.push(path);
    assert(texts(out@) =~= before + seq![path@]);
}

fn walk_member(v: &Json, path: String, depth: usize, out: &mut Vec<String>)
    requires
        depth <= 3,
        old(out)@.len() < 16,
    ensures
        texts(final(out)@) == at_most(texts(old(out)@) + leaf(v@, path@, depth as nat), 16),
        final(out)@.len() <= 16,
    decreases 4 - depth, 0nat,
{
    let ghost before = texts(out@);
    assert(before + Seq::<Seq<char>>::empty() =~= before);
    let ty = text_of(v.str_of("type"), "");
    if same_text(ty.as_str(), "object") {
        if let Some(p) = object_in(v.get("properties")) {
            walk_object(p, path.as_str(), depth + 1, out);
        }
    } else if same_text(ty.as_str(), "array") {
        if let Some(items) = v.get("items") {
            let ity = text_of(items.str_of("type"), "");
            let elem = cat2(path.as_str(), "[0]");
            if scalar_type(ity.as_str()) {
                push_leaf(out, elem);
            } else if same_text(ity.as_str(), "object") {
                if let Some(p) = object_in(items.get("properties")) {
                    walk_object(p, elem.as_str(), depth + 1, out);
                }
            }
        }
    } else if scalar_type(ty.as_str()) {
        push_leaf(out, path);
    }
    assert(texts(out@).len() == out@.len());
}

fn walk_object(m: &Vec<(String, Json)>, base: &str, depth: usize, out: &mut Vec<String>)
    requires
        depth <= 4,
        old(out)@.len() <= 16,
    ensures
        texts(final(out)@) == at_most(
            texts(old(out)@) + leaves(member_views(m@), base@, depth as nat, m@.len()),
            16,
        ),
        final(out)@.len() <= 16,
    decreases 4 - depth, 1nat,
{
    let ghost mv = member_views(m@);
    let ghost start = texts(out@);
    assert(start + Seq::<Seq<char>>::empty() =~= start);
    if depth > 3 {
        return;
    }
    let mut i: usize = 0;
    while i < m.len() && out.len() < 16
        invariant
            i <= m.len(),
            depth <= 3,
            mv == member_views(m@),
            out@.len() <= 16,
            texts(out@) == at_most(start + leaves(mv, base@, depth as nat, i as nat), 16),
        ensures
            i < m.len() ==> out@.len() >= 16,
        decreases m.len() - i,
    {
        let ghost before = texts(out@);
        let ghost done = leaves(mv, base@, depth as nat, i as nat);
        assert(mv[i as int] == (m@[i as int].0@, m@[i as int].1@));
        let path = if base.is_empty() {
            m[i].0.clone()
        } else {
            cat3(base, ".", m[i].0.as_str())
        };
        let ghost more = leaf(m@[i as int].1@, path@, depth as nat);
        walk_member(&m[i].1, path, depth, out);
        proof {
            assert(texts(out@) == at_most(before + more, 16));
            lemma_at_most(start + done, more, 16);
            assert((start + done) + more =~= start + (done + more));
        }
        i += 1;
    }
    proof {
        lemma_leaves_grow(mv, base@, depth as nat, i as nat, m@.len());
        let done = leaves(mv, base@, depth as nat, i as nat);
        let all = leaves(mv, base@, depth as nat, m@.len());
        let more = all.skip(done.len() as int);
        assert(all =~= done + more) by {
            assert(all.take(done.len() as int) == done);
            assert(all =~= all.take(done.len() as int) + all.skip(done.len() as int));
        }
        assert((start + done) + more =~= start + all);
        lemma_at_most(start + done, more, 16);
        assert(texts(out@).len() == out@.len());
    }
}

proof fn lemma_leaves_grow(m: Seq<(Seq<char>, JsonView)>, base: Seq<char>, depth: nat, i: nat, n: nat)
    requires
        i <= n <= m.len(),
    ensures
        leaves(m, base, depth, i).len() <= leaves(m, base, depth, n).len(),
        leaves(m, base, depth, n).take(leaves(m, base, depth, i).len() as int) == leaves(m, base, depth, i),
    decreases n,
{
    let a = leaves(m, base, depth, i);
    if i < n {
        lemma_leaves_grow(m, base, depth, i, (n - 1) as nat);
        let b = leaves(m, base, depth, (n - 1) as nat);
        assert(leaves(m, base, depth, n).take(a.len() as int) =~= b.take(a.len() as int));
    } else {
        assert(leaves(m, base, depth, n).take(a.len() as int) =~= a);
    }
}

/// The paths that a schema suggests.
pub fn derive_projected_from_openapi(schema: &Json) -> (r: Option<Vec<String>>)
    ensures
        match r {
            Some(v) => suggested(schema@) == Some(texts(v@)),
            None => suggested(schema@) is None,
        },
{
    broadcast use lemma_object_view;

    match schema.get3("properties", "spec", "properties") {
        Some(Json::Object(p)) => {
            let mut out: Vec<String> = Vec::new();
            walk_object(p, "spec", 0, &mut out);
            assert(Seq::<Seq<char>>::empty() + leaves(member_views(p@), "spec"@, 0, p@.len()) =~= leaves(
                member_views(p@),
                "spec"@,
                0,
                p@.len(),
            ));
            if out.len() == 0 {
                None
            } else {
                Some(out)
            }
        },
        _ => None,
    }
}
/// The group, the version and the name of a kind that has a definition; none for the kinds
/// of the core group.
pub open spec fn custom_key(key: Seq<char>) -> Result<Option<(Seq<char>, Seq<char>, Seq<char>)>, Seq<char>> {
    match key_parts(key) {
        None => Err("invalid gvk key: "@ + key),
        Some(p) => if p.0.len() == 0 {
            Ok(None)
        } else {
            Ok(Some(p))
        },
    }
}

/// The group, the version and the name of a kind that has a definition.
pub fn read_custom_key(key: &str) -> (r: Result<Option<(String, String, String)>, String>)
    ensures
        match r {
            Ok(Some((g, v, k))) => custom_key(key@) == Ok::<
                Option<(Seq<char>, Seq<char>, Seq<char>)>,
                Seq<char>,
            >(Some((g@, v@, k@))),
            Ok(None) => custom_key(key@) == Ok::<Option<(Seq<char>, Seq<char>, Seq<char>)>, Seq<char>>(None),
            Err(e) => custom_key(key@) == Err::<Option<(Seq<char>, Seq<char>, Seq<char>)>, Seq<char>>(e@),
        },
{
    match parse_gvk_key(key) {
        Ok((g, v, k)) => {
            if g.as_str().is_empty() {
                Ok(None)
            } else {
                Ok(Some((g, v, k)))
            }
        },
        Err(_) => Err(cat2("invalid gvk key: ", key)),
    }
}

/// Whether a definition is that of a kind.
pub open spec fn defines(v: JsonView, group: Seq<char>, kind: Seq<char>) -> bool {
    &&& v.get("spec"@) is Some
    &&& or_text(v.str_of2("spec"@, "group"@), ""@) == group
    &&& or_text(v.str_of3("spec"@, "names"@, "kind"@), ""@) == kind
}

/// The place of the first definition of a kind.
pub open spec fn definition_at(crds: Seq<JsonView>, group: Seq<char>, kind: Seq<char>) -> Option<int>
    decreases crds.len(),
{
    if crds.len() == 0 {
        None
    } else if defines(crds[0], group, kind) {
        Some(0)
    } else {
        match definition_at(crds.skip(1), group, kind) {
            Some(i) => Some(i + 1),
            None => None,
        }
    }
}

/// The place of the first definition of a kind.
pub fn find_definition(crds: &Vec<Json>, group: &str, kind: &str) -> (r: Option<usize>)
    ensures
        match r {
            Some(i) => i < crds.len() && definition_at(json_views(crds@), group@, kind@) == Some(i as int),
            None => definition_at(json_views(crds@), group@, kind@) is None,
        },
{
    let ghost all = json_views(crds@);
    let mut i: usize = 0;
    assert(all.skip(0) =~= all);
    while i < crds.len()
        invariant
            i <= crds.len(),
            all == json_views(crds@),
            definition_at(all, group@, kind@) == (match definition_at(all.skip(i as int), group@, kind@) {
                Some(j) => Some(i + j),
                None => None,
            }),
        decreases crds.len() - i,
    {
        let v = &crds[i];
        assert(all.skip(i as int)[0] == v@);
        assert(all.skip(i as int).skip(1) =~= all.skip(i + 1));
        if v.get("spec").is_some() {
            let g = text_of(v.str_of2("spec", "group"), "");
            let k = text_of(v.str_of3("spec", "names", "kind"), "");
            if same_text(g.as_str(), group) && same_text(k.as_str(), kind) {
                return Some(i);
            }
        }
        i += 1;
    }
    None
}

/// Whether every cluster serves a group, so that its kinds need no definition.
pub open spec fn served_group(group: Seq<char>) -> bool {
    builtin_group(group) || group == "apiextensions.k8s.io"@ || group == "certificates.k8s.io"@
}

/// The place of the definition of a kind and the version that is asked for. The kinds of the
/// groups that every cluster serves need no definition; another kind without one is an error.
pub open spec fn definition_of(crds: Seq<JsonView>, key: Seq<char>) -> Result<Option<(int, Seq<char>)>, Seq<char>> {
    match custom_key(key) {
        Err(e) => Err(e),
        Ok(None) => Ok(None),
        Ok(Some((group, version, kind))) => match definition_at(crds, group, kind) {
            Some(i) => Ok(Some((i, version))),
            None => if served_group(group) {
                Ok(None)
            } else {
                Err("CRD not found for "@ + key)
            },
        },
    }
}

/// The place of the definition of a kind among those of a cluster, and the version that is
/// asked for.
pub fn read_definition(crds: &Vec<Json>, key: &str) -> (r: Result<Option<(usize, String)>, String>)
    ensures
        match definition_of(json_views(crds@), key@) {
            Ok(Some((i, version))) => r matches Ok(Some(p)) && p.0 == i && p.0 < crds.len() && p.1@ == version,
            Ok(None) => r matches Ok(None),
            Err(e) => r matches Err(x) && x@ == e,
        },
{
    match read_custom_key(key) {
        Err(e) => Err(e),
        Ok(None) => Ok(None),
        Ok(Some((group, version, kind))) => match find_definition(crds, group.as_str(), kind.as_str()) {
            Some(i) => Ok(Some((i, version))),
            None => {
                let g = group.as_str();
                if is_builtin_group(g) || same_text(g, "apiextensions.k8s.io") || same_text(g, "certificates.k8s.io") {
                    Ok(None)
                } else {
                    Err(cat2("CRD not found for ", key))
                }
            },
        },
    }
}

/// A kind that every cluster has and that no definition is about has no schema, and that is
/// no error.
pub proof fn law_builtin_kind_has_no_schema(
    crds: Seq<JsonView>,
    key: Seq<char>,
    group: Seq<char>,
    version: Seq<char>,
    kind: Seq<char>,
)
    requires
        key_parts(key) == Some((group, version, kind)),
        builtin_group(group),
        definition_at(crds, group, kind) is None,
    ensures
        definition_of(crds, key) == Ok::<Option<(int, Seq<char>)>, Seq<char>>(None),
{
}

/// The first version whose flag is set.
pub open spec fn flagged(versions: Seq<JsonView>, flag: Seq<char>) -> Option<JsonView>
    decreases versions.len(),
{
    if versions.len() == 0 {
        None
    } else if versions[0].flag_of(flag) == Some(true) {
        Some(versions[0])
    } else {
        flagged(versions.skip(1), flag)
    }
}

/// The first version of a name.
pub open spec fn version_named(versions: Seq<JsonView>, name: Seq<char>) -> Option<JsonView>
    decreases versions.len(),
{
    if versions.len() == 0 {
        None
    } else if versions[0].str_of("name"@) == Some(name) {
        Some(versions[0])
    } else {
        version_named(versions.skip(1), name)
    }
}

/// The versions of a definition.
pub open spec fn versions_of(v: JsonView) -> Seq<JsonView> {
    match v.array_of2("spec"@, "versions"@) {
        Some(a) => a,
        None => Seq::empty(),
    }
}

/// The version that is shown: the one that is stored, else the first that is served, else
/// the one that was asked for.
pub open spec fn chosen_version(v: JsonView, version: Seq<char>) -> Seq<char> {
    match flagged(versions_of(v), "storage"@) {
        Some(x) => or_text(x.str_of("name"@), version),
        None => match flagged(versions_of(v), "served"@) {
            Some(x) => or_text(x.str_of("name"@), version),
            None => version,
        },
    }
}

/// The columns of a list that have a name and a simple path.
pub open spec fn columns_in(cols: Seq<JsonView>) -> Seq<(Seq<char>, Seq<char>)>
    decreases cols.len(),
{
    if cols.len() == 0 {
        Seq::empty()
    } else {
        let rest = columns_in(cols.drop_last());
        let c = cols.last();
        let name = or_text(c.str_of("name"@), ""@);
        match normalized(or_text(c.str_of("jsonPath"@), ""@)) {
            Some(p) => if name.len() > 0 {
                rest.push((name, p))
            } else {
                rest
            },
            None => rest,
        }
    }
}

/// The columns of a value's list of columns.
pub open spec fn columns_under(v: Option<JsonView>) -> Seq<(Seq<char>, Seq<char>)> {
    match v {
        Some(JsonView::Array(a)) => columns_in(a),
        _ => Seq::empty(),
    }
}

/// The columns of a definition: those of a version, else those of the definition itself.
pub open spec fn printed(v: JsonView, version: Seq<char>) -> Seq<(Seq<char>, Seq<char>)> {
    let own = columns_under(
        match version_named(versions_of(v), version) {
            Some(x) => x.get("additionalPrinterColumns"@),
            None => None,
        },
    );
    if own.len() > 0 {
        own
    } else {
        columns_under(v.get2("spec"@, "additionalPrinterColumns"@))
    }
}

/// The schema of a version of a definition, else the one of the definition itself.
pub open spec fn openapi_of(v: JsonView, version: Seq<char>) -> Option<JsonView> {
    let own = match version_named(versions_of(v), version) {
        Some(x) => x.get2("schema"@, "openAPIV3Schema"@),
        None => None,
    };
    match own {
        Some(s) => Some(s),
        None => v.get3("spec"@, "validation"@, "openAPIV3Schema"@),
    }
}

/// The first six paths, numbered from zero.
pub open spec fn numbered(paths: Seq<Seq<char>>) -> Seq<(u32, Seq<char>)> {
    Seq::new(at_most(paths, 6).len(), |i: int| (i as u32, paths[i]))
}

/// The paths that are projected: those of the columns, else those that the schema suggests,
/// else a name and a namespace.
pub open spec fn projected_paths_of(v: JsonView, version: Seq<char>) -> Seq<(u32, Seq<char>)> {
    let cols = printed(v, version);
    if cols.len() > 0 {
        numbered(cols.map_values(|c: (Seq<char>, Seq<char>)| c.1))
    } else {
        let found = match openapi_of(v, version) {
            Some(s) => suggested(s),
            None => None,
        };
        numbered(
            match found {
                Some(p) => p,
                None => seq!["spec.name"@, "spec.namespace"@],
            },
        )
    }
}

fn find_flag<'a>(versions: &'a Vec<Json>, flag: &str) -> (r: Option<&'a Json>)
    ensures
        opt_view(r) == flagged(json_views(versions@), flag@),
{
    let ghost all = json_views(versions@);
    let mut i: usize = 0;
    assert(all.skip(0) =~= all);
    while i < versions.len()
        invariant
            i <= versions.len(),
            all == json_views(versions@),
            flagged(all, flag@) == flagged(all.skip(i as int), flag@),
        decreases versions.len() - i,
    {
        assert(all.skip(i as int)[0] == versions@[i as int]@);
        assert(all.skip(i as int).skip(1) =~= all.skip(i + 1));
        let set = match versions[i].flag_of(flag) {
            Some(b) => b,
            None => false,
        };
        if set {
            return Some(&versions[i]);
        }
        i += 1;
    }
    None
}

fn find_version<'a>(versions: &'a Vec<Json>, name: &str) -> (r: Option<&'a Json>)
    ensures
        opt_view(r) == version_named(json_views(versions@), name@),
{
    let ghost all = json_views(versions@);
    let mut i: usize = 0;
    assert(all.skip(0) =~= all);
    while i < versions.len()
        invariant
            i <= versions.len(),
            all == json_views(versions@),
            version_named(all, name@) == version_named(all.skip(i as int), name@),
        decreases versions.len() - i,
    {
        assert(all.skip(i as int)[0] == versions@[i as int]@);
        assert(all.skip(i as int).skip(1) =~= all.skip(i + 1));
        let same = match versions[i].str_of("name") {
            Some(n) => same_text(n, name),
            None => false,
        };
        if same {
            return Some(&versions[i]);
        }
        i += 1;
    }
    None
}

fn read_columns(v: Option<&Json>) -> (r: Vec<PrinterCol>)
    ensures
        col_views(r@) == columns_under(opt_view(v)),
{
    broadcast use lemma_array_view;

    let mut out: Vec<PrinterCol> = Vec::new();
    assert(col_views(out@) =~= Seq::empty());
    if let Some(Json::Array(a)) = v {
        let ghost all = json_views(a@);
        let mut i: usize = 0;
        assert(all.take(0) =~= Seq::empty());
        while i < a.len()
            invariant
                i <= a.len(),
                all == json_views(a@),
                col_views(out@) == columns_in(all.take(i as int)),
            decreases a.len() - i,
        {
            let c = &a[i];
            assert(all.take(i + 1).drop_last() =~= all.take(i as int));
            assert(all.take(i + 1).last() == c@);
            let ghost before = col_views(out@);
            let name = text_of(c.str_of("name"), "");
            let raw = text_of(c.str_of("jsonPath"), "");
            if !name.as_str().is_empty() {
                if let Some(json_path) = normalize_json_path(raw.as_str()) {
                    let ghost x = (name@, json_path@);
                    out.push(PrinterCol { name, json_path });
                    assert(col_views(out@) =~= before.push(x));
                }
            }
            i += 1;
        }
        assert(all.take(all.len() as int) =~= all);
    }
    out
}

fn number_paths(paths: &Vec<String>) -> (r: Vec<PathSpec>)
    ensures
        spec_views(r@) == numbered(texts(paths@)),
{
    let ghost all = texts(paths@);
    let mut out: Vec<PathSpec> = Vec::new();
    let mut i: usize = 0;
    while i < paths.len() && i < 6
        invariant
            i <= paths.len(),
            i <= 6,
            all == texts(paths@),
            out@.len() == i,
            forall|k: int| 0 <= k < i ==> #[trigger] out@[k].id == k && out@[k].json_path@ == all[k],
        ensures
            i < paths.len() ==> i == 6,
        decreases paths.len() - i,
    {
        out.push(PathSpec { id: i as u32, json_path: paths[i].clone() });
        i += 1;
    }
    assert(spec_views(out@) =~= numbered(all));
    out
}

fn versions_in(v: &Json) -> (r: Option<&Vec<Json>>)
    ensures
        versions_of(v@) == (match r {
            Some(a) => json_views(a@),
            None => Seq::empty(),
        }),
{
    v.array_of2("spec", "versions")
}

fn choose_version(v: &Json, version: &str) -> (r: String)
    ensures
        r@ == chosen_version(v@, version@),
{
    let empty: Vec<Json> = Vec::new();
    assert(json_views(empty@) =~= Seq::empty());
    let versions = match versions_in(v) {
        Some(a) => a,
        None => &empty,
    };
    match find_flag(versions, "storage") {
        Some(x) => text_of(x.str_of("name"), version),
        None => match find_flag(versions, "served") {
            Some(x) => text_of(x.str_of("name"), version),
            None => copy_text(version),
        },
    }
}

/// The schema of a definition.
pub fn openapi_schema<'a>(v: &'a Json, version: &str) -> (r: Option<&'a Json>)
    ensures
        opt_view(r) == openapi_of(v@, version@),
{
    let own = match versions_in(v) {
        Some(a) => match find_version(a, version) {
            Some(x) => x.get2("schema", "openAPIV3Schema"),
            None => None,
        },
        None => None,
    };
    match own {
        Some(s) => Some(s),
        None => v.get3("spec", "validation", "openAPIV3Schema"),
    }
}

/// The schema that a definition is checked against: that of the version that is shown.
pub fn validation_schema<'a>(v: &'a Json, version: &str) -> (r: Option<&'a Json>)
    ensures
        opt_view(r) == openapi_of(v@, chosen_version(v@, version@)),
{
    let shown = choose_version(v, version);
    openapi_schema(v, shown.as_str())
}

/// The schema of a custom kind, by its definition and the version that was asked for.
pub fn crd_schema(v: &Json, version: &str) -> (r: CrdSchema)
    ensures
        ({
            let shown = chosen_version(v@, version@);
            &&& r.served_version@ == shown
            &&& col_views(r.printer_cols@) == printed(v@, shown)
            &&& spec_views(r.projected_paths@) == projected_paths_of(v@, shown)
            &&& r.flags == (SchemaFlags { yaml_only_nodes: false, preserves_unknown: false })
        }),
{
    let shown = choose_version(v, version);
    let own = match versions_in(v) {
        Some(a) => match find_version(a, shown.as_str()) {
            Some(x) => x.get("additionalPrinterColumns"),
            None => None,
        },
        None => None,
    };
    let mut printer_cols = read_columns(own);
    if printer_cols.len() == 0 {
        assert(col_views(printer_cols@).len() == 0);
        printer_cols = read_columns(v.get2("spec", "additionalPrinterColumns"));
    }
    assert(col_views(printer_cols@) == printed(v@, shown@));
    let projected_paths = if printer_cols.len() > 0 {
        let paths = column_paths(&printer_cols);
        number_paths(&paths)
    } else {
        let found = match openapi_schema(v, shown.as_str()) {
            Some(s) => derive_projected_from_openapi(s),
            None => None,
        };
        let paths = match found {
            Some(p) => p,
            None => {
                let p = vec![copy_text("spec.name"), copy_text("spec.namespace")];
                assert(texts(p@) =~= seq!["spec.name"@, "spec.namespace"@]);
                p
            },
        };
        number_paths(&paths)
    };
    CrdSchema {
        served_version: shown,
        printer_cols,
        projected_paths,
        flags: SchemaFlags { yaml_only_nodes: false, preserves_unknown: false },
    }
}

fn column_paths(cols: &Vec<PrinterCol>) -> (r: Vec<String>)
    ensures
        texts(r@) == col_views(cols@).map_values(|c: (Seq<char>, Seq<char>)| c.1),
{
    let ghost all = col_views(cols@).map_values(|c: (Seq<char>, Seq<char>)| c.1);
    let mut out: Vec<String> = Vec::new();
    let mut i: usize = 0;
    assert(texts(out@) =~= all.take(0));
    while i < cols.len()
        invariant
            i <= cols.len(),
            all == col_views(cols@).map_values(|c: (Seq<char>, Seq<char>)| c.1),
            texts(out@) == all.take(i as int),
        decreases cols.len() - i,
    {
        let ghost before = texts(out@);
        out.push(cols[i].json_path.clone());
        assert(texts(out@) =~= before.push(cols@[i as int].json_path@));
        assert(texts(out@) =~= all.take(i + 1));
        i += 1;
    }
    assert(all.take(all.len() as int) =~= all);
    out
}

/// Six fields of a custom kind are projected at most, numbered from zero in their order.
pub proof fn law_six_paths(v: JsonView, version: Seq<char>, i: int)
    ensures
        projected_paths_of(v, version).len() <= 6,
        0 <= i < projected_paths_of(v, version).len() ==> projected_paths_of(v, version)[i].0 == i,
{
}

/// The path of a printed column is kept as it is.
pub proof fn law_columns_simple(cols: Seq<JsonView>, i: int)
    requires
        0 <= i < columns_in(cols).len(),
    ensures
        columns_in(cols)[i].0.len() > 0,
        normalized(columns_in(cols)[i].1) == Some(columns_in(cols)[i].1),
    decreases cols.len(),
{
    if cols.len() > 0 {
        let rest = columns_in(cols.drop_last());
        law_normalized_again(or_text(cols.last().str_of("jsonPath"@), ""@));
        if i < rest.len() {
            law_columns_simple(cols.drop_last(), i);
        }
    }
}

// ---------------------------------------------------------------------------
// The check of a manifest

/// What is wrong with a manifest, and where.
#[derive(Debug)]
pub struct ValidationIssue {
    pub path: String,
    pub error: String,
    pub hint: Option<String>,
}

/// The hint for an error, by the words in it.
pub open spec fn hint_of(error: Seq<char>) -> Option<Seq<char>> {
    if occurs(error, "required property"@) {
        Some("missing required field"@)
    } else if occurs(error, "type:"@) || occurs(error, "expected type"@) {
        Some("mismatched type"@)
    } else if occurs(error, "enum"@) {
        Some("value not in allowed set"@)
    } else {
        None
    }
}

/// The hint for an error.
pub fn hint_for(error: &str) -> (r: Option<String>)
    ensures
        opt_text(r) == hint_of(error@),
{
    if contains_text(error, "required property") {
        Some(copy_text("missing required field"))
    } else if contains_text(error, "type:") || contains_text(error, "expected type") {
        Some(copy_text("mismatched type"))
    } else if contains_text(error, "enum") {
        Some(copy_text("value not in allowed set"))
    } else {
        None
    }
}

/// Whether an issue is that of an error at a place.
pub open spec fn is_issue(x: ValidationIssue, path: Seq<char>, error: Seq<char>) -> bool {
    x.path@ == path && x.error@ == error && opt_text(x.hint) == hint_of(error)
}

/// The issues of errors: each error with its place and a hint.
pub fn issues_of(errors: Vec<(String, String)>) -> (r: Vec<ValidationIssue>)
    ensures
        r@.len() == errors@.len(),
        forall|i: int|
            0 <= i < r@.len() ==> is_issue(#[trigger] r@[i], errors@[i].0@, errors@[i].1@),
{
    let mut out: Vec<ValidationIssue> = Vec::new();
    let mut i: usize = 0;
    while i < errors.len()
        invariant
            i <= errors.len(),
            out@.len() == i,
            forall|k: int| 0 <= k < i ==> is_issue(#[trigger] out@[k], errors@[k].0@, errors@[k].1@),
        decreases errors.len() - i,
    {
        let hint = hint_for(errors[i].1.as_str());
        out.push(ValidationIssue { path: errors[i].0.clone(), error: errors[i].1.clone(), hint });
        i += 1;
    }
    out
}

/// Why a manifest could not be checked.
#[derive(Clone, Copy, Debug, PartialEq, Eq, Structural)]
pub enum CheckError {
    Convert,
    Compile,
    /// The schema is one that is not checked against: its references may not end, or its
    /// patterns ask for more than is matched.
    Unchecked,
}

impl CheckError {
    /// What is said of the error.
    pub fn text(&self) -> (r: String)
        ensures
            r@ == (match *self {
                CheckError::Convert => "converting YAML to JSON"@,
                CheckError::Compile => "compiling CRD JSON Schema"@,
                CheckError::Unchecked => "CRD JSON Schema not checked: its references or patterns go too far"@,
            }),
    {
        match self {
            CheckError::Convert => copy_text("converting YAML to JSON"),
            CheckError::Compile => copy_text("compiling CRD JSON Schema"),
            CheckError::Unchecked => copy_text("CRD JSON Schema not checked: its references or patterns go too far"),
        }
    }
}

/// How many references, one behind the other, a schema may need.
pub const REFERENCE_LIMIT: usize = 64;

/// Whether a schema is one that a value is checked against: its references end, and its
/// patterns, and those that the value may be taken for, can be matched.
pub open spec fn checkable(schema: JsonView, v: JsonView) -> bool {
    ends_within(schema, REFERENCE_LIMIT as nat) && all_tame(schema, v)
}

/// Whether issues are those of a value under a schema. Which they are is left open where the
/// schema asks that the elements of a list differ and the value may hold a negative zero.
pub open spec fn are_issues(issues: Seq<ValidationIssue>, schema: JsonView, v: JsonView) -> bool {
    let errors = schema_faults(schema, v);
    &&& forall|i: int|
        0 <= i < issues.len() ==> is_issue(#[trigger] issues[i], issues[i].path@, issues[i].error@)
    &&& (!asks_unique(schema) || holds_all(Ask::Numbers, v)) ==> {
        &&& issues.len() == errors.len()
        &&& forall|i: int|
            0 <= i < issues.len() ==> is_issue(#[trigger] issues[i], errors[i].0, errors[i].1)
    }
}

/// Check a value against a schema. Each error that the schema finds is one issue, with a hint
/// by its words.
pub fn validate_value(schema: &Json, v: &Json) -> (r: Result<Vec<ValidationIssue>, CheckError>)
    requires
        ends(schema@),
        all_tame(schema@, v@),
    ensures
        match r {
            Ok(issues) => schema_compiles(schema@) && are_issues(issues@, schema@, v@),
            Err(e) => !schema_compiles(schema@) && e == CheckError::Compile,
        },
{
    match schema_errors(schema, v) {
        Some(errors) => {
            let ghost views = setting_views(errors@);
            assert(forall|i: int| 0 <= i < errors@.len() ==> #[trigger] views[i] == (errors@[i].0@, errors@[i].1@));
            Ok(issues_of(errors))
        },
        None => Err(CheckError::Compile),
    }
}

/// Check a manifest against the schema of its kind. The kinds that every cluster has have
/// none, and a text that is no YAML is one issue. Each error that the schema finds is one
/// issue, with a hint by its words.
pub fn validate_yaml(schema: Option<&Json>, yaml: &str) -> (r: Result<Vec<ValidationIssue>, CheckError>)
    ensures
        schema is None ==> {
            &&& r matches Ok(v)
            &&& v@.len() == 1
            &&& is_plain_issue(v@[0], "no CRD schema available for builtin kind"@, None)
        },
        schema matches Some(s) ==> match yaml_read(yaml@) {
            Err(YamlErrorView::Parse(e)) => {
                &&& r matches Ok(v)
                &&& v@.len() == 1
                &&& is_plain_issue(v@[0], "YAML parse error: "@ + e, Some("check indentation and syntax"@))
            },
            Err(YamlErrorView::Convert(_)) => r == Err::<Vec<ValidationIssue>, CheckError>(CheckError::Convert),
            Ok(value) => match r {
                Ok(v) => checkable(s@, value) && schema_compiles(s@) && are_issues(v@, s@, value),
                Err(CheckError::Unchecked) => !checkable(s@, value),
                Err(e) => checkable(s@, value) && !schema_compiles(s@) && e == CheckError::Compile,
            },
        },
{
    let schema = match schema {
        Some(s) => s,
        None => {
            return Ok(
                vec![
                    ValidationIssue {
                        path: String::new(),
                        error: copy_text("no CRD schema available for builtin kind"),
                        hint: None,
                    },
                ],
            );
        },
    };
    match parse_yaml(yaml) {
        Ok(v) => if references_end(schema, REFERENCE_LIMIT) && patterns_tame(schema, &v) {
            validate_value(schema, &v)
        } else {
            Err(CheckError::Unchecked)
        },
        Err(YamlError::Parse(e)) => Ok(
            vec![
                ValidationIssue {
                    path: String::new(),
                    error: cat2("YAML parse error: ", e.as_str()),
                    hint: Some(copy_text("check indentation and syntax")),
                },
            ],
        ),
        Err(YamlError::Convert(_)) => Err(CheckError::Convert),
    }
}

/// Whether an issue has no place, and has an error and a hint.
pub open spec fn is_plain_issue(x: ValidationIssue, error: Seq<char>, hint: Option<Seq<char>>) -> bool {
    x.path@ =~= Seq::<char>::empty() && x.error@ == error && opt_text(x.hint) == hint
}

// ---------------------------------------------------------------------------
// What paths lead to, and what a definition shows

proof fn lemma_absent(s: Seq<char>, c: char)
    requires
        !s.contains(c),
    ensures
        first_at(s, c) == s.len(),
{
    assert forall|k: int| 0 <= k < s.len() implies s[k] != c by {
        assert(s.contains(s[k]));
    }
    lemma_first_at(s, c, s.len() as int);
}

/// A part of a path without brackets leads to the member of its name; one with a number in
/// brackets to that element of the list under the name.
pub proof fn law_part(v: JsonView, key: Seq<char>, n: Seq<char>, i: nat, a: Seq<JsonView>)
    requires
        key.len() > 0,
        !key.contains('['),
    ensures
        below(v, key) == v.get(key),
        !n.contains(']') && unsigned_value(n, usize::MAX as nat) == Some(i) && v.get(key) == Some(JsonView::Array(a))
            && i < a.len() ==> below(v, key + seq!['['] + n + seq![']']) == Some(a[i as int]),
        !n.contains(']') && unsigned_value(n, usize::MAX as nat) == Some(i) && v.get(key) == Some(JsonView::Array(a))
            && i >= a.len() ==> below(v, key + seq!['['] + n + seq![']']) is None,
{
    lemma_absent(key, '[');
    let s = key + seq!['['] + n + seq![']'];
    assert forall|k: int| 0 <= k < key.len() implies s[k] != '[' by {
        assert(s[k] == key[k]);
        assert(key.contains(key[k]));
    }
    lemma_first_at(s, '[', key.len() as int);
    let rest = s.skip(key.len() as int + 1);
    assert(rest =~= n + seq![']']);
    assert(s.take(key.len() as int) =~= key);
    if !n.contains(']') {
        assert forall|k: int| 0 <= k < n.len() implies rest[k] != ']' by {
            assert(rest[k] == n[k]);
            assert(n.contains(n[k]));
        }
        lemma_first_at(rest, ']', n.len() as int);
        assert(rest.take(n.len() as int) =~= n);
    }
}

/// A path leads through its parts, from the first to the last.
pub proof fn law_path(v: JsonView, a: Seq<char>, b: Seq<char>)
    requires
        a.len() > 0 && !a.contains('.') && !a.contains('['),
        b.len() > 0 && !b.contains('.') && !b.contains('['),
    ensures
        value_at(v, a) == v.get(a),
        value_at(v, a + seq!['.'] + b) == v.get2(a, b),
{
    reveal_with_fuel(below_all, 3);
    crate::text::lemma_split_single(a, '.');
    crate::text::lemma_split_single(b, '.');
    crate::text::lemma_split_concat(a, '.', b);
    law_part(v, a, Seq::empty(), 0, Seq::empty());
    assert(split(a, '.') =~= seq![a]);
    assert(seq![a].skip(1) =~= Seq::empty());
    let p = split(a + seq!['.'] + b, '.');
    assert(a + seq!['.'] + b =~= a.push('.') + b);
    assert(p =~= seq![a, b]);
    let rest = p.skip(1);
    assert(rest =~= seq![b]);
    assert(rest.skip(1) =~= Seq::empty());
    if v.get(a) is Some {
        let x = v.get(a)->0;
        law_part(x, b, Seq::empty(), 0, Seq::empty());
    }
}

/// Texts, numbers and truth values are shown; nothing else is.
pub proof fn law_scalars(v: JsonView)
    ensures
        v matches JsonView::Str(s) ==> scalar_text(v) == Some(s),
        v == JsonView::Bool(true) ==> scalar_text(v) == Some("true"@),
        v == JsonView::Bool(false) ==> scalar_text(v) == Some("false"@),
        v matches JsonView::Number(NumView::Pos(x)) ==> scalar_text(v) == Some(dec(x as nat)),
        v matches JsonView::Number(NumView::Neg(x)) ==> scalar_text(v) == Some(dec_int(x as int)),
        v is Null || v is Array || v is Object ==> scalar_text(v) is None,
{
}

/// The fields of an object are those that the paths lead to, each under the number of its path.
pub proof fn law_fields(specs: Seq<(u32, Seq<char>)>, v: JsonView, id: u32, t: Seq<char>)
    ensures
        fields_of(specs, v).contains((id, t)) <==> exists|i: int|
            0 <= i < specs.len() && (#[trigger] specs[i]).0 == id && field_at(v, specs[i].1) == Some(t),
    decreases specs.len(),
{
    if specs.len() > 0 {
        let d = specs.drop_last();
        law_fields(d, v, id, t);
        let rest = fields_of(d, v);
        let all = fields_of(specs, v);
        if all.contains((id, t)) {
            let k = choose|k: int| 0 <= k < all.len() && all[k] == (id, t);
            if k < rest.len() {
                assert(rest[k] == (id, t));
                let i = choose|i: int|
                    0 <= i < d.len() && (#[trigger] d[i]).0 == id && field_at(v, d[i].1) == Some(t);
                assert(specs[i] == d[i]);
            } else {
                assert(specs[specs.len() - 1].0 == id);
            }
        }
        if exists|i: int| 0 <= i < specs.len() && (#[trigger] specs[i]).0 == id && field_at(v, specs[i].1) == Some(t) {
            let i = choose|i: int|
                0 <= i < specs.len() && (#[trigger] specs[i]).0 == id && field_at(v, specs[i].1) == Some(t);
            if i < d.len() {
                assert(d[i] == specs[i]);
                let k = choose|k: int| 0 <= k < rest.len() && rest[k] == (id, t);
                assert(all[k] == (id, t));
            } else {
                assert(all[all.len() - 1] == (id, t));
            }
        }
    }
}

proof fn lemma_flagged(versions: Seq<JsonView>, flag: Seq<char>, i: int)
    requires
        0 <= i < versions.len(),
        versions[i].flag_of(flag) == Some(true),
        forall|k: int| 0 <= k < i ==> (#[trigger] versions[k]).flag_of(flag) != Some(true),
    ensures
        flagged(versions, flag) == Some(versions[i]),
    decreases versions.len(),
{
    if i > 0 {
        assert(versions[0].flag_of(flag) != Some(true));
        let rest = versions.skip(1);
        assert forall|k: int| 0 <= k < i - 1 implies (#[trigger] rest[k]).flag_of(flag) != Some(true) by {
            assert(rest[k] == versions[k + 1]);
        }
        lemma_flagged(rest, flag, i - 1);
    }
}

proof fn lemma_none_flagged(versions: Seq<JsonView>, flag: Seq<char>)
    requires
        forall|k: int| 0 <= k < versions.len() ==> (#[trigger] versions[k]).flag_of(flag) != Some(true),
    ensures
        flagged(versions, flag) is None,
    decreases versions.len(),
{
    if versions.len() > 0 {
        assert(versions[0].flag_of(flag) != Some(true));
        let rest = versions.skip(1);
        assert forall|k: int| 0 <= k < rest.len() implies (#[trigger] rest[k]).flag_of(flag) != Some(true) by {
            assert(rest[k] == versions[k + 1]);
        }
        lemma_none_flagged(rest, flag);
    }
}

/// The version that counts is the first that is stored; where none is, the first that is served;
/// where none is either, the one that was asked for.
pub proof fn law_version_chosen(v: JsonView, a: Seq<JsonView>, i: int, name: Seq<char>, version: Seq<char>)
    requires
        v.array_of2("spec"@, "versions"@) == Some(a),
    ensures
        0 <= i < a.len() && a[i].flag_of("storage"@) == Some(true) && a[i].str_of("name"@) == Some(name) && (forall|k: int|
            0 <= k < i ==> (#[trigger] a[k]).flag_of("storage"@) != Some(true)) ==> chosen_version(v, version) == name,
        (forall|k: int| 0 <= k < a.len() ==> (#[trigger] a[k]).flag_of("storage"@) != Some(true)) && 0 <= i < a.len()
            && a[i].flag_of("served"@) == Some(true) && a[i].str_of("name"@) == Some(name) && (forall|k: int|
            0 <= k < i ==> (#[trigger] a[k]).flag_of("served"@) != Some(true)) ==> chosen_version(v, version) == name,
        (forall|k: int|
            0 <= k < a.len() ==> (#[trigger] a[k]).flag_of("storage"@) != Some(true) && a[k].flag_of("served"@) != Some(
                true,
            )) ==> chosen_version(v, version) == version,
{
    if 0 <= i < a.len() && a[i].flag_of("storage"@) == Some(true) && (forall|k: int|
        0 <= k < i ==> (#[trigger] a[k]).flag_of("storage"@) != Some(true)) {
        lemma_flagged(a, "storage"@, i);
    }
    if forall|k: int| 0 <= k < a.len() ==> (#[trigger] a[k]).flag_of("storage"@) != Some(true) {
        lemma_none_flagged(a, "storage"@);
        if 0 <= i < a.len() && a[i].flag_of("served"@) == Some(true) && (forall|k: int|
            0 <= k < i ==> (#[trigger] a[k]).flag_of("served"@) != Some(true)) {
            lemma_flagged(a, "served"@, i);
        }
    }
    if forall|k: int|
        0 <= k < a.len() ==> (#[trigger] a[k]).flag_of("storage"@) != Some(true) && a[k].flag_of("served"@) != Some(true) {
        lemma_none_flagged(a, "storage"@);
        lemma_none_flagged(a, "served"@);
    }
}

/// A column of a definition is shown under its name, with its path, where the path is simple and
/// the name is not empty.
pub proof fn law_columns_shown(cols: Seq<JsonView>, i: int, name: Seq<char>, path: Seq<char>, p: Seq<char>)
    requires
        0 <= i < cols.len(),
        cols[i].str_of("name"@) == Some(name),
        name.len() > 0,
        cols[i].str_of("jsonPath"@) == Some(path),
        normalized(path) == Some(p),
    ensures
        columns_in(cols).contains((name, p)),
    decreases cols.len(),
{
    let all = columns_in(cols);
    if i < cols.len() - 1 {
        let d = cols.drop_last();
        law_columns_shown(d, i, name, path, p);
        let rest = columns_in(d);
        let k = choose|k: int| 0 <= k < rest.len() && rest[k] == (name, p);
        assert(all[k] == rest[k]);
    } else {
        assert(all[all.len() - 1] == (name, p));
    }
}

/// The columns and the schema of a version count before those of the whole definition.
pub proof fn law_version_first(v: JsonView, version: Seq<char>, x: JsonView, s: JsonView)
    requires
        version_named(versions_of(v), version) == Some(x),
    ensures
        columns_under(x.get("additionalPrinterColumns"@)).len() > 0 ==> printed(v, version) == columns_under(
            x.get("additionalPrinterColumns"@),
        ),
        columns_under(x.get("additionalPrinterColumns"@)).len() == 0 ==> printed(v, version) == columns_under(
            v.get2("spec"@, "additionalPrinterColumns"@),
        ),
        x.get2("schema"@, "openAPIV3Schema"@) == Some(s) ==> openapi_of(v, version) == Some(s),
        x.get2("schema"@, "openAPIV3Schema"@) is None ==> openapi_of(v, version) == v.get3(
            "spec"@,
            "validation"@,
            "openAPIV3Schema"@,
        ),
{
}

/// The version of a name is one that bears it.
pub proof fn law_version_named(versions: Seq<JsonView>, name: Seq<char>)
    ensures
        match version_named(versions, name) {
            Some(x) => versions.contains(x) && x.str_of("name"@) == Some(name),
            None => forall|k: int| 0 <= k < versions.len() ==> (#[trigger] versions[k]).str_of("name"@) != Some(name),
        },
    decreases versions.len(),
{
    if versions.len() > 0 {
        let rest = versions.skip(1);
        law_version_named(rest, name);
        assert(versions.contains(versions[0]));
        match version_named(rest, name) {
            Some(x) => {
                let k = choose|k: int| 0 <= k < rest.len() && rest[k] == x;
                assert(versions[k + 1] == x);
            },
            None => {
                assert forall|k: int| 1 <= k < versions.len() implies #[trigger] versions[k] == rest[k - 1] by {}
            },
        }
    }
}

/// What a schema offers of a property: its path where it is a text, a number or a truth value;
/// the first element of a list of such; what lies below it where it is an object.
pub proof fn law_leaf(v: JsonView, path: Seq<char>, depth: nat, ty: Seq<char>, items: JsonView, p: Seq<(Seq<char>, JsonView)>)
    requires
        depth <= 3,
    ensures
        v.str_of("type"@) == Some(ty) && (ty == "string"@ || ty == "integer"@ || ty == "number"@ || ty == "boolean"@)
            ==> leaf(v, path, depth) == seq![path],
        v.str_of("type"@) == Some("array"@) && v.get("items"@) == Some(items) && items.str_of("type"@) == Some(ty) && (ty
            == "string"@ || ty == "integer"@ || ty == "number"@ || ty == "boolean"@) ==> leaf(v, path, depth) == seq![
            path + "[0]"@,
        ],
        v.str_of("type"@) == Some("object"@) && v.get("properties"@) == Some(JsonView::Object(p)) ==> leaf(v, path, depth)
            == leaves(p, path, depth + 1, p.len()),
        leaf(v, path, 4).len() == 0,
        v.str_of("type"@) is None ==> leaf(v, path, depth).len() == 0,
{
    reveal_strlit("string");
    reveal_strlit("integer");
    reveal_strlit("number");
    reveal_strlit("boolean");
    reveal_strlit("object");
    reveal_strlit("array");
    reveal_strlit("");
    assert("string"@.len() == 6 && "integer"@.len() == 7 && "number"@.len() == 6 && "boolean"@.len() == 7);
    assert("object"@.len() == 6 && "array"@.len() == 5 && ""@.len() == 0);
    assert("string"@[0] == 's' && "number"@[0] == 'n' && "object"@[0] == 'o');
    assert(leaf(v, path, 4) =~= Seq::empty());
}

/// A property of a schema is found below its base, by its name.
pub proof fn law_leaves(m: Seq<(Seq<char>, JsonView)>, base: Seq<char>, depth: nat, i: int, t: Seq<char>)
    requires
        depth <= 3,
        0 <= i < m.len(),
        leaf(m[i].1, child_path(base, m[i].0), depth).contains(t),
    ensures
        leaves(m, base, depth, m.len()).contains(t),
        base.len() > 0 ==> child_path(base, m[i].0) == base + "."@ + m[i].0,
{
    lemma_leaves_contain(m, base, depth, m.len(), i, t);
}

proof fn lemma_leaves_contain(m: Seq<(Seq<char>, JsonView)>, base: Seq<char>, depth: nat, n: nat, i: int, t: Seq<char>)
    requires
        depth <= 3,
        0 <= i < n <= m.len(),
        leaf(m[i].1, child_path(base, m[i].0), depth).contains(t),
    ensures
        leaves(m, base, depth, n).contains(t),
    decreases n,
{
    let rest = leaves(m, base, depth, (n - 1) as nat);
    let one = leaf(m[n - 1].1, child_path(base, m[n - 1].0), depth);
    let all = leaves(m, base, depth, n);
    assert(all == rest + one);
    if i < n - 1 {
        lemma_leaves_contain(m, base, depth, (n - 1) as nat, i, t);
        let k = choose|k: int| 0 <= k < rest.len() && rest[k] == t;
        assert(all[k] == t);
    } else {
        let k = choose|k: int| 0 <= k < one.len() && one[k] == t;
        assert(all[rest.len() + k] == t);
    }
}

/// The definition that is found is of the group and the kind; none is found where there is none.
pub proof fn law_definition_found(crds: Seq<JsonView>, group: Seq<char>, kind: Seq<char>)
    ensures
        match definition_at(crds, group, kind) {
            Some(i) => 0 <= i < crds.len() && defines(crds[i], group, kind),
            None => forall|i: int| 0 <= i < crds.len() ==> !defines(#[trigger] crds[i], group, kind),
        },
    decreases crds.len(),
{
    if crds.len() > 0 {
        let rest = crds.skip(1);
        law_definition_found(rest, group, kind);
        match definition_at(rest, group, kind) {
            Some(i) => {
                assert(crds[i + 1] == rest[i]);
            },
            None => {
                assert forall|i: int| 1 <= i < crds.len() implies #[trigger] crds[i] == rest[i - 1] by {}
            },
        }
    }
}

/// A definition is of the group and the kind that it names.
pub proof fn law_defines(v: JsonView, group: Seq<char>, kind: Seq<char>)
    requires
        v.str_of2("spec"@, "group"@) == Some(group),
        v.str_of3("spec"@, "names"@, "kind"@) == Some(kind),
    ensures
        defines(v, group, kind),
        forall|g: Seq<char>, k: Seq<char>| defines(v, g, k) ==> g == group && k == kind,
{
}

/// An error is hinted at by what it says.
pub proof fn law_hints(error: Seq<char>)
    ensures
        occurs(error, "required property"@) ==> hint_of(error) == Some("missing required field"@),
        !occurs(error, "required property"@) && occurs(error, "type:"@) ==> hint_of(error) == Some("mismatched type"@),
        !occurs(error, "required property"@) && !occurs(error, "type:"@) && !occurs(error, "expected type"@) && occurs(
            error,
            "enum"@,
        ) ==> hint_of(error) == Some("value not in allowed set"@),
        !occurs(error, "required property"@) && !occurs(error, "type:"@) && !occurs(error, "expected type"@) && !occurs(
            error,
            "enum"@,
        ) ==> hint_of(error) is None,
{
}

/// Where a check is trusted to be told in full, its issues are the faults that were found, each
/// at its place, in order.
pub proof fn law_issues(issues: Seq<ValidationIssue>, schema: JsonView, v: JsonView, i: int)
    requires
        are_issues(issues, schema, v),
        !asks_unique(schema),
        0 <= i < issues.len(),
    ensures
        issues.len() == schema_faults(schema, v).len(),
        issues[i].path@ == schema_faults(schema, v)[i].0,
        issues[i].error@ == schema_faults(schema, v)[i].1,
        opt_text(issues[i].hint) == hint_of(issues[i].error@),
{
    assert(is_issue(issues[i], schema_faults(schema, v)[i].0, schema_faults(schema, v)[i].1));
}

} // verus!
