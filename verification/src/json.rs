//! JSON values and the reads that the library makes on them.
use crate::order::{codes, lemma_lex_irreflexive, lemma_lex_transitive, lemma_text_order, text_less, text_lt};
use crate::text::{copy_text, opt_text, same_text, texts};
use vstd::prelude::*;

verus! {

/// A JSON number: a non-negative integer, a negative integer, or the text of any
/// other number.
pub enum Num {
    Pos(u64),
    Neg(i64),
    Float(String),
}

/// A JSON value. The members of an object stand in the order of their names.
pub enum Json {
    Null,
    Bool(bool),
    Number(Num),
    Str(String),
    Array(Vec<Json>),
    Object(Vec<(String, Json)>),
}

/// The model of a JSON number.
pub enum NumView {
    Pos(u64),
    Neg(i64),
    Float(Seq<char>),
}

/// The model of a JSON value.
pub enum JsonView {
    Null,
    Bool(bool),
    Number(NumView),
    Str(Seq<char>),
    Array(Seq<JsonView>),
    Object(Seq<(Seq<char>, JsonView)>),
}

impl View for Num {
    type V = NumView;

    open spec fn view(&self) -> NumView {
        match self {
            Num::Pos(n) => NumView::Pos(*n),
            Num::Neg(n) => NumView::Neg(*n),
            Num::Float(s) => NumView::Float(s@),
        }
    }
}

/// The model of a value.
pub open spec fn json_view(v: Json) -> JsonView
    decreases v,
{
    match v {
        Json::Null => JsonView::Null,
        Json::Bool(b) => JsonView::Bool(b),
        Json::Number(n) => JsonView::Number(n@),
        Json::Str(s) => JsonView::Str(s@),
        Json::Array(a) => JsonView::Array(
            Seq::new(
                a@.len(),
                |i: int|
                    if 0 <= i < a@.len() {
                        json_view(a@[i])
                    } else {
                        JsonView::Null
                    },
            ),
        ),
        Json::Object(m) => JsonView::Object(
            Seq::new(
                m@.len(),
                |i: int|
                    if 0 <= i < m@.len() {
                        (m@[i].0@, json_view(m@[i].1))
                    } else {
                        (Seq::empty(), JsonView::Null)
                    },
            ),
        ),
    }
}

impl View for Json {
    type V = JsonView;

    open spec fn view(&self) -> JsonView {
        json_view(*self)
    }
}

/// The models of a list of values.
pub open spec fn json_views(a: Seq<Json>) -> Seq<JsonView> {
    Seq::new(a.len(), |i: int| a[i]@)
}

/// The models of a list of members.
pub open spec fn member_views(m: Seq<(String, Json)>) -> Seq<(Seq<char>, JsonView)> {
    Seq::new(m.len(), |i: int| (m[i].0@, m[i].1@))
}

/// The model of an array is the array of its elements' models.
pub broadcast proof fn lemma_array_view(a: Vec<Json>)
    ensures
        #[trigger] json_view(Json::Array(a)) == JsonView::Array(json_views(a@)),
{
    assert(json_view(Json::Array(a))->Array_0 =~= json_views(a@));
}

/// The model of an object is the object of its members' models.
pub broadcast proof fn lemma_object_view(m: Vec<(String, Json)>)
    ensures
        #[trigger] json_view(Json::Object(m)) == JsonView::Object(member_views(m@)),
{
    assert(json_view(Json::Object(m))->Object_0 =~= member_views(m@));
}

/// The model of an optional value.
pub open spec fn opt_view(v: Option<&Json>) -> Option<JsonView> {
    match v {
        Some(x) => Some(x@),
        None => None,
    }
}

/// The text of an optional string slice.
pub open spec fn opt_str(v: Option<&str>) -> Option<Seq<char>> {
    match v {
        Some(x) => Some(x@),
        None => None,
    }
}

/// The first member named `key`.
pub open spec fn lookup(m: Seq<(Seq<char>, JsonView)>, key: Seq<char>) -> Option<JsonView>
    decreases m.len(),
{
    if m.len() == 0 {
        None
    } else if m[0].0 == key {
        Some(m[0].1)
    } else {
        lookup(m.skip(1), key)
    }
}

impl JsonView {
    /// The member named `key`, where the value is an object that has one.
    pub open spec fn get(self, key: Seq<char>) -> Option<JsonView> {
        match self {
            JsonView::Object(m) => lookup(m, key),
            _ => None,
        }
    }

    /// The value below two names.
    pub open spec fn get2(self, a: Seq<char>, b: Seq<char>) -> Option<JsonView> {
        match self.get(a) {
            Some(x) => x.get(b),
            None => None,
        }
    }

    /// The value below three names.
    pub open spec fn get3(self, a: Seq<char>, b: Seq<char>, c: Seq<char>) -> Option<JsonView> {
        match self.get2(a, b) {
            Some(x) => x.get(c),
            None => None,
        }
    }

    /// The text, where the value is one.
    pub open spec fn text(self) -> Option<Seq<char>> {
        match self {
            JsonView::Str(s) => Some(s),
            _ => None,
        }
    }

    /// The elements, where the value is an array.
    pub open spec fn items(self) -> Option<Seq<JsonView>> {
        match self {
            JsonView::Array(a) => Some(a),
            _ => None,
        }
    }

    /// The members, where the value is an object.
    pub open spec fn members(self) -> Option<Seq<(Seq<char>, JsonView)>> {
        match self {
            JsonView::Object(m) => Some(m),
            _ => None,
        }
    }

    /// The truth value, where the value is one.
    pub open spec fn flag(self) -> Option<bool> {
        match self {
            JsonView::Bool(b) => Some(b),
            _ => None,
        }
    }

    /// The number, where the value is an integer that fits an `i64`.
    pub open spec fn integer(self) -> Option<int> {
        match self {
            JsonView::Number(NumView::Pos(n)) => if n <= i64::MAX {
                Some(n as int)
            } else {
                None
            },
            JsonView::Number(NumView::Neg(n)) => Some(n as int),
            _ => None,
        }
    }

    /// The number, where the value is a non-negative integer.
    pub open spec fn natural(self) -> Option<u64> {
        match self {
            JsonView::Number(NumView::Pos(n)) => Some(n),
            _ => None,
        }
    }

    /// The non-negative integer of the member named `key`.
    pub open spec fn nat_of(self, key: Seq<char>) -> Option<u64> {
        match self.get(key) {
            Some(x) => x.natural(),
            None => None,
        }
    }

    /// The non-negative integer below two names.
    pub open spec fn nat_of2(self, a: Seq<char>, b: Seq<char>) -> Option<u64> {
        match self.get2(a, b) {
            Some(x) => x.natural(),
            None => None,
        }
    }

    /// The elements of the array below three names.
    pub open spec fn array_of3(self, a: Seq<char>, b: Seq<char>, c: Seq<char>) -> Option<Seq<JsonView>> {
        match self.get3(a, b, c) {
            Some(x) => x.items(),
            None => None,
        }
    }

    /// The truth value of the member named `key`.
    pub open spec fn flag_of(self, key: Seq<char>) -> Option<bool> {
        match self.get(key) {
            Some(x) => x.flag(),
            None => None,
        }
    }

    /// The text of the member named `key`.
    pub open spec fn str_of(self, key: Seq<char>) -> Option<Seq<char>> {
        match self.get(key) {
            Some(x) => x.text(),
            None => None,
        }
    }

    /// The text below two names.
    pub open spec fn str_of2(self, a: Seq<char>, b: Seq<char>) -> Option<Seq<char>> {
        match self.get2(a, b) {
            Some(x) => x.text(),
            None => None,
        }
    }

    /// The text below three names.
    pub open spec fn str_of3(self, a: Seq<char>, b: Seq<char>, c: Seq<char>) -> Option<Seq<char>> {
        match self.get3(a, b, c) {
            Some(x) => x.text(),
            None => None,
        }
    }

    /// The integer of the member named `key`.
    pub open spec fn int_of(self, key: Seq<char>) -> Option<int> {
        match self.get(key) {
            Some(x) => x.integer(),
            None => None,
        }
    }

    /// The integer below two names.
    pub open spec fn int_of2(self, a: Seq<char>, b: Seq<char>) -> Option<int> {
        match self.get2(a, b) {
            Some(x) => x.integer(),
            None => None,
        }
    }

    /// The elements of the array named `key`, or none.
    pub open spec fn array_of(self, key: Seq<char>) -> Option<Seq<JsonView>> {
        match self.get(key) {
            Some(x) => x.items(),
            None => None,
        }
    }

    /// The elements of the array below two names.
    pub open spec fn array_of2(self, a: Seq<char>, b: Seq<char>) -> Option<Seq<JsonView>> {
        match self.get2(a, b) {
            Some(x) => x.items(),
            None => None,
        }
    }

    /// The members of the object below two names.
    pub open spec fn object_of2(self, a: Seq<char>, b: Seq<char>) -> Option<Seq<(Seq<char>, JsonView)>> {
        match self.get2(a, b) {
            Some(x) => x.members(),
            None => None,
        }
    }

    /// Whether every object inside has its members in strictly ascending order of
    /// their names.
    pub open spec fn sorted(self) -> bool
        decreases self,
    {
        match self {
            JsonView::Array(a) => forall|i: int| 0 <= i < a.len() ==> (#[trigger] a[i]).sorted(),
            JsonView::Object(m) => {
                &&& names_ascend(m)
                &&& forall|i: int| 0 <= i < m.len() ==> (#[trigger] m[i]).1.sorted()
            },
            _ => true,
        }
    }
}

/// Whether the names of the members strictly ascend.
pub open spec fn names_ascend(m: Seq<(Seq<char>, JsonView)>) -> bool {
    forall|i: int, j: int| 0 <= i < j < m.len() ==> text_lt(#[trigger] m[i].0, #[trigger] m[j].0)
}

/// The place of the first member named `key`.
pub fn position(m: &Vec<(String, Json)>, key: &str) -> (r: Option<usize>)
    ensures
        match r {
            Some(i) => {
                &&& i < m.len()
                &&& m@[i as int].0@ == key@
                &&& lookup(member_views(m@), key@) == Some(m@[i as int].1@)
                &&& forall|k: int| 0 <= k < i ==> (#[trigger] m@[k]).0@ != key@
            },
            None => {
                &&& lookup(member_views(m@), key@) is None
                &&& forall|k: int| 0 <= k < m.len() ==> (#[trigger] m@[k]).0@ != key@
            },
        },
{
    let ghost mv = member_views(m@);
    let mut i: usize = 0;
    assert(mv.skip(0) =~= mv);
    while i < m.len()
        invariant
            i <= m.len(),
            mv == member_views(m@),
            lookup(mv, key@) == lookup(mv.skip(i as int), key@),
            forall|k: int| 0 <= k < i ==> (#[trigger] m@[k]).0@ != key@,
        decreases m.len() - i,
    {
        assert(mv.skip(i as int)[0] == (m@[i as int].0@, m@[i as int].1@));
        if same_text(m[i].0.as_str(), key) {
            return Some(i);
        }
        assert(mv.skip(i as int).skip(1) =~= mv.skip(i + 1));
        i += 1;
    }
    None
}

impl Json {
    /// The member named `key`.
    pub fn get(&self, key: &str) -> (r: Option<&Json>)
        ensures
            opt_view(r) == self@.get(key@),
    {
        broadcast use lemma_object_view;

        match self {
            Json::Object(m) => match position(m, key) {
                Some(i) => Some(&m[i].1),
                None => None,
            },
            _ => None,
        }
    }

    /// The value below two names.
    pub fn get2(&self, a: &str, b: &str) -> (r: Option<&Json>)
        ensures
            opt_view(r) == self@.get2(a@, b@),
    {
        match self.get(a) {
            Some(x) => x.get(b),
            None => None,
        }
    }

    /// The value below three names.
    pub fn get3(&self, a: &str, b: &str, c: &str) -> (r: Option<&Json>)
        ensures
            opt_view(r) == self@.get3(a@, b@, c@),
    {
        match self.get2(a, b) {
            Some(x) => x.get(c),
            None => None,
        }
    }

    /// The text, where the value is one.
    pub fn as_str(&self) -> (r: Option<&str>)
        ensures
            opt_str(r) == self@.text(),
    {
        match self {
            Json::Str(s) => Some(s.as_str()),
            _ => None,
        }
    }

    /// The truth value, where the value is one.
    pub fn as_bool(&self) -> (r: Option<bool>)
        ensures
            r == self@.flag(),
    {
        match self {
            Json::Bool(b) => Some(*b),
            _ => None,
        }
    }

    /// The number, where the value is an integer that fits.
    pub fn as_i64(&self) -> (r: Option<i64>)
        ensures
            match r {
                Some(n) => self@.integer() == Some(n as int),
                None => self@.integer() is None,
            },
    {
        match self {
            Json::Number(Num::Pos(n)) => if *n <= 9223372036854775807 {
                Some(*n as i64)
            } else {
                None
            },
            Json::Number(Num::Neg(n)) => Some(*n),
            _ => None,
        }
    }

    /// The elements, where the value is an array.
    pub fn as_array(&self) -> (r: Option<&Vec<Json>>)
        ensures
            match r {
                Some(a) => self@.items() == Some(json_views(a@)),
                None => self@.items() is None,
            },
    {
        broadcast use lemma_array_view;

        match self {
            Json::Array(a) => Some(a),
            _ => None,
        }
    }

    /// The members, where the value is an object.
    pub fn as_object(&self) -> (r: Option<&Vec<(String, Json)>>)
        ensures
            match r {
                Some(m) => self@.members() == Some(member_views(m@)),
                None => self@.members() is None,
            },
    {
        broadcast use lemma_object_view;

        match self {
            Json::Object(m) => Some(m),
            _ => None,
        }
    }

    /// The number, where the value is a non-negative integer.
    pub fn as_u64(&self) -> (r: Option<u64>)
        ensures
            r == self@.natural(),
    {
        match self {
            Json::Number(Num::Pos(n)) => Some(*n),
            _ => None,
        }
    }

    /// The non-negative integer of the member named `key`.
    pub fn nat_of(&self, key: &str) -> (r: Option<u64>)
        ensures
            r == self@.nat_of(key@),
    {
        match self.get(key) {
            Some(x) => x.as_u64(),
            None => None,
        }
    }

    /// The non-negative integer below two names.
    pub fn nat_of2(&self, a: &str, b: &str) -> (r: Option<u64>)
        ensures
            r == self@.nat_of2(a@, b@),
    {
        match self.get2(a, b) {
            Some(x) => x.as_u64(),
            None => None,
        }
    }

    /// The truth value of the member named `key`.
    pub fn flag_of(&self, key: &str) -> (r: Option<bool>)
        ensures
            r == self@.flag_of(key@),
    {
        match self.get(key) {
            Some(x) => x.as_bool(),
            None => None,
        }
    }

    /// The elements of the array below three names.
    pub fn array_of3(&self, a: &str, b: &str, c: &str) -> (r: Option<&Vec<Json>>)
        ensures
            match r {
                Some(x) => self@.array_of3(a@, b@, c@) == Some(json_views(x@)),
                None => self@.array_of3(a@, b@, c@) is None,
            },
    {
        match self.get3(a, b, c) {
            Some(x) => x.as_array(),
            None => None,
        }
    }

    /// The text of the member named `key`.
    pub fn str_of(&self, key: &str) -> (r: Option<&str>)
        ensures
            opt_str(r) == self@.str_of(key@),
    {
        match self.get(key) {
            Some(x) => x.as_str(),
            None => None,
        }
    }

    /// The text below two names.
    pub fn str_of2(&self, a: &str, b: &str) -> (r: Option<&str>)
        ensures
            opt_str(r) == self@.str_of2(a@, b@),
    {
        match self.get2(a, b) {
            Some(x) => x.as_str(),
            None => None,
        }
    }

    /// The text below three names.
    pub fn str_of3(&self, a: &str, b: &str, c: &str) -> (r: Option<&str>)
        ensures
            opt_str(r) == self@.str_of3(a@, b@, c@),
    {
        match self.get3(a, b, c) {
            Some(x) => x.as_str(),
            None => None,
        }
    }

    /// The integer of the member named `key`.
    pub fn int_of(&self, key: &str) -> (r: Option<i64>)
        ensures
            match r {
                Some(n) => self@.int_of(key@) == Some(n as int),
                None => self@.int_of(key@) is None,
            },
    {
        match self.get(key) {
            Some(x) => x.as_i64(),
            None => None,
        }
    }

    /// The integer below two names.
    pub fn int_of2(&self, a: &str, b: &str) -> (r: Option<i64>)
        ensures
            match r {
                Some(n) => self@.int_of2(a@, b@) == Some(n as int),
                None => self@.int_of2(a@, b@) is None,
            },
    {
        match self.get2(a, b) {
            Some(x) => x.as_i64(),
            None => None,
        }
    }

    /// The elements of the array named `key`.
    pub fn array_of(&self, key: &str) -> (r: Option<&Vec<Json>>)
        ensures
            match r {
                Some(a) => self@.array_of(key@) == Some(json_views(a@)),
                None => self@.array_of(key@) is None,
            },
    {
        match self.get(key) {
            Some(x) => x.as_array(),
            None => None,
        }
    }

    /// The elements of the array below two names.
    pub fn array_of2(&self, a: &str, b: &str) -> (r: Option<&Vec<Json>>)
        ensures
            match r {
                Some(x) => self@.array_of2(a@, b@) == Some(json_views(x@)),
                None => self@.array_of2(a@, b@) is None,
            },
    {
        match self.get2(a, b) {
            Some(x) => x.as_array(),
            None => None,
        }
    }

    /// The members of the object below two names.
    pub fn object_of2(&self, a: &str, b: &str) -> (r: Option<&Vec<(String, Json)>>)
        ensures
            match r {
                Some(x) => self@.object_of2(a@, b@) == Some(member_views(x@)),
                None => self@.object_of2(a@, b@) is None,
            },
    {
        match self.get2(a, b) {
            Some(x) => x.as_object(),
            None => None,
        }
    }
}

/// The texts that `f` finds in the elements of a list, in order.
pub open spec fn collect(a: Seq<JsonView>, f: spec_fn(JsonView) -> Option<Seq<char>>) -> Seq<Seq<char>>
    decreases a.len(),
{
    if a.len() == 0 {
        Seq::empty()
    } else {
        match f(a.last()) {
            Some(t) => collect(a.drop_last(), f).push(t),
            None => collect(a.drop_last(), f),
        }
    }
}

/// An optional text, or a text in its place.
pub open spec fn or_text(a: Option<Seq<char>>, d: Seq<char>) -> Seq<char> {
    match a {
        Some(s) => s,
        None => d,
    }
}

/// A copy of an optional text, or of a default in its place.
pub fn text_of(a: Option<&str>, d: &str) -> (r: String)
    ensures
        r@ == or_text(opt_str(a), d@),
{
    match a {
        Some(s) => copy_text(s),
        None => copy_text(d),
    }
}

/// The texts that a function finds in the elements of a list, in order.
pub fn collect_from<F: Fn(&Json) -> Option<String>>(
    a: &Vec<Json>,
    f: F,
    g: Ghost<spec_fn(JsonView) -> Option<Seq<char>>>,
) -> (r: Vec<String>)
    requires
        forall|v: &Json| call_requires(f, (v,)),
        forall|v: &Json, t: Option<String>| call_ensures(f, (v,), t) ==> opt_text(t) == g@(v@),
    ensures
        texts(r@) == collect(json_views(a@), g@),
{
    let ghost av = json_views(a@);
    let mut out: Vec<String> = Vec::new();
    let mut i: usize = 0;
    assert(texts(out@) =~= collect(av.take(0), g@));
    while i < a.len()
        invariant
            i <= a.len(),
            av == json_views(a@),
            forall|v: &Json| call_requires(f, (v,)),
            forall|v: &Json, t: Option<String>| call_ensures(f, (v,), t) ==> opt_text(t) == g@(v@),
            texts(out@) == collect(av.take(i as int), g@),
        decreases a.len() - i,
    {
        assert(av.take(i + 1).drop_last() =~= av.take(i as int));
        let ghost before = texts(out@);
        if let Some(t) = f(&a[i]) {
            let ghost tv = t@;
            out.push(t);
            assert(texts(out@) =~= before.push(tv));
        }
        i += 1;
    }
    assert(av.take(av.len() as int) =~= av);
    out
}

/// A copy of an optional text.
pub fn owned(a: Option<&str>) -> (r: Option<String>)
    ensures
        opt_text(r) == opt_str(a),
{
    match a {
        Some(s) => Some(copy_text(s)),
        None => None,
    }
}

impl JsonView {
    /// The value below four names.
    pub open spec fn get4(self, a: Seq<char>, b: Seq<char>, c: Seq<char>, d: Seq<char>) -> Option<JsonView> {
        match self.get3(a, b, c) {
            Some(x) => x.get(d),
            None => None,
        }
    }
}

/// The text of an optional value, where it is one.
pub open spec fn opt_text_of(v: Option<JsonView>) -> Option<Seq<char>> {
    match v {
        Some(x) => x.text(),
        None => None,
    }
}

/// The elements of an optional value, where it is an array.
pub open spec fn opt_items(v: Option<JsonView>) -> Option<Seq<JsonView>> {
    match v {
        Some(x) => x.items(),
        None => None,
    }
}

/// The members of an optional value, where it is an object.
pub open spec fn opt_members(v: Option<JsonView>) -> Option<Seq<(Seq<char>, JsonView)>> {
    match v {
        Some(x) => x.members(),
        None => None,
    }
}

/// The number of an optional value, where it is an integer, or a number in its place.
pub open spec fn int_or(v: Option<JsonView>, d: int) -> int {
    match v {
        Some(x) => match x.integer() {
            Some(n) => n,
            None => d,
        },
        None => d,
    }
}

impl Json {
    /// The value below four names.
    pub fn get4(&self, a: &str, b: &str, c: &str, d: &str) -> (r: Option<&Json>)
        ensures
            opt_view(r) == self@.get4(a@, b@, c@, d@),
    {
        match self.get3(a, b, c) {
            Some(x) => x.get(d),
            None => None,
        }
    }
}

/// The text of an optional value, where it is one.
pub fn str_in<'a>(v: Option<&'a Json>) -> (r: Option<&'a str>)
    ensures
        opt_str(r) == opt_text_of(opt_view(v)),
{
    match v {
        Some(x) => x.as_str(),
        None => None,
    }
}

/// The models of an optional list of values.
pub open spec fn views_in(v: Option<&Vec<Json>>) -> Option<Seq<JsonView>> {
    match v {
        Some(a) => Some(json_views(a@)),
        None => None,
    }
}

/// The models of an optional list of members.
pub open spec fn members_in(v: Option<&Vec<(String, Json)>>) -> Option<Seq<(Seq<char>, JsonView)>> {
    match v {
        Some(m) => Some(member_views(m@)),
        None => None,
    }
}

/// The elements of an optional value, where it is an array.
pub fn items_in<'a>(v: Option<&'a Json>) -> (r: Option<&'a Vec<Json>>)
    ensures
        views_in(r) == opt_items(opt_view(v)),
{
    match v {
        Some(x) => x.as_array(),
        None => None,
    }
}

/// The members of an optional value, where it is an object.
pub fn object_in<'a>(v: Option<&'a Json>) -> (r: Option<&'a Vec<(String, Json)>>)
    ensures
        members_in(r) == opt_members(opt_view(v)),
{
    match v {
        Some(x) => x.as_object(),
        None => None,
    }
}

/// The number of an optional value, where it is an integer, or a number in its place.
pub fn int_in(v: Option<&Json>, d: i64) -> (r: i64)
    ensures
        r == int_or(opt_view(v), d as int),
{
    match v {
        Some(x) => match x.as_i64() {
            Some(n) => n,
            None => d,
        },
        None => d,
    }
}
/// Whether a text is a zero, as a number of another kind than an integer is written.
pub open spec fn is_zero(s: Seq<char>) -> bool {
    s == "0.0"@ || s == "-0.0"@
}

/// Whether two numbers are equal. The two signs of zero are.
pub open spec fn num_equal(a: NumView, b: NumView) -> bool {
    match (a, b) {
        (NumView::Float(s), NumView::Float(t)) => s == t || (is_zero(s) && is_zero(t)),
        _ => a == b,
    }
}

/// Whether two values are equal: the same scalars, the same elements, the same members.
pub open spec fn equal(a: JsonView, b: JsonView) -> bool
    decreases a,
{
    match (a, b) {
        (JsonView::Number(x), JsonView::Number(y)) => num_equal(x, y),
        (JsonView::Array(x), JsonView::Array(y)) => {
            &&& x.len() == y.len()
            &&& forall|i: int| 0 <= i < x.len() ==> equal(#[trigger] x[i], y[i])
        },
        (JsonView::Object(x), JsonView::Object(y)) => {
            &&& x.len() == y.len()
            &&& forall|i: int|
                0 <= i < x.len() ==> (#[trigger] x[i]).0 == y[i].0 && equal(x[i].1, y[i].1)
        },
        _ => a == b,
    }
}

/// A value is equal to itself.
pub proof fn lemma_equal_self(a: JsonView)
    ensures
        equal(a, a),
    decreases a,
{
    match a {
        JsonView::Array(x) => {
            assert forall|i: int| 0 <= i < x.len() implies equal(#[trigger] x[i], x[i]) by {
                lemma_equal_self(x[i]);
            }
        },
        JsonView::Object(x) => {
            assert forall|i: int| 0 <= i < x.len() implies equal((#[trigger] x[i]).1, x[i].1) by {
                lemma_equal_self(x[i].1);
            }
        },
        _ => {},
    }
}

fn zero_text(s: &str) -> (r: bool)
    ensures
        r == is_zero(s@),
{
    same_text(s, "0.0") || same_text(s, "-0.0")
}

impl Num {
    /// Whether two numbers are equal.
    pub fn same(&self, other: &Num) -> (r: bool)
        ensures
            r == num_equal(self@, other@),
    {
        match (self, other) {
            (Num::Pos(a), Num::Pos(b)) => *a == *b,
            (Num::Neg(a), Num::Neg(b)) => *a == *b,
            (Num::Float(a), Num::Float(b)) => same_text(a.as_str(), b.as_str()) || (zero_text(a.as_str())
                && zero_text(b.as_str())),
            _ => false,
        }
    }
}

impl Json {
    /// Whether two values are equal.
    pub fn same(&self, other: &Json) -> (r: bool)
        ensures
            r == equal(self@, other@),
        decreases self,
    {
        broadcast use {lemma_array_view, lemma_object_view};

        match (self, other) {
            (Json::Null, Json::Null) => true,
            (Json::Bool(a), Json::Bool(b)) => *a == *b,
            (Json::Number(a), Json::Number(b)) => a.same(b),
            (Json::Str(a), Json::Str(b)) => same_text(a.as_str(), b.as_str()),
            (Json::Array(a), Json::Array(b)) => {
                if a.len() != b.len() {
                    return false;
                }
                let mut i: usize = 0;
                while i < a.len()
                    invariant
                        i <= a.len(),
                        a.len() == b.len(),
                        *self == Json::Array(*a),
                        self@ == JsonView::Array(json_views(a@)),
                        other@ == JsonView::Array(json_views(b@)),
                        forall|k: int| 0 <= k < i ==> equal(#[trigger] json_views(a@)[k], json_views(b@)[k]),
                    decreases a.len() - i,
                {
                    assert(json_views(a@)[i as int] == a@[i as int]@);
                    if !a[i].same(&b[i]) {
                        return false;
                    }
                    i += 1;
                }
                true
            },
            (Json::Object(a), Json::Object(b)) => {
                if a.len() != b.len() {
                    return false;
                }
                let mut i: usize = 0;
                while i < a.len()
                    invariant
                        i <= a.len(),
                        a.len() == b.len(),
                        *self == Json::Object(*a),
                        self@ == JsonView::Object(member_views(a@)),
                        other@ == JsonView::Object(member_views(b@)),
                        forall|k: int|
                            0 <= k < i ==> (#[trigger] member_views(a@)[k]).0 == member_views(b@)[k].0 && equal(
                                member_views(a@)[k].1,
                                member_views(b@)[k].1,
                            ),
                    decreases a.len() - i,
                {
                    assert(member_views(a@)[i as int] == (a@[i as int].0@, a@[i as int].1@));
                    if !same_text(a[i].0.as_str(), b[i].0.as_str()) || !a[i].1.same(&b[i].1) {
                        return false;
                    }
                    i += 1;
                }
                true
            },
            _ => false,
        }
    }

    /// A copy of the value.
    pub fn copy(&self) -> (r: Json)
        ensures
            r@ == self@,
        decreases self,
    {
        broadcast use {lemma_array_view, lemma_object_view};

        match self {
            Json::Null => Json::Null,
            Json::Bool(b) => Json::Bool(*b),
            Json::Number(Num::Pos(n)) => Json::Number(Num::Pos(*n)),
            Json::Number(Num::Neg(n)) => Json::Number(Num::Neg(*n)),
            Json::Number(Num::Float(s)) => Json::Number(Num::Float(s.clone())),
            Json::Str(s) => Json::Str(s.clone()),
            Json::Array(a) => {
                let mut out: Vec<Json> = Vec::new();
                let mut i: usize = 0;
                while i < a.len()
                    invariant
                        i <= a.len(),
                        *self == Json::Array(*a),
                        self@ == JsonView::Array(json_views(a@)),
                        json_views(out@) =~= json_views(a@).take(i as int),
                    decreases a.len() - i,
                {
                    let ghost before = json_views(out@);
                    let x = &a[i];
                    out.push(x.copy());
                    assert(json_views(out@) =~= before.push(a@[i as int]@));
                    i += 1;
                }
                assert(json_views(a@).take(a@.len() as int) =~= json_views(a@));
                Json::Array(out)
            },
            Json::Object(m) => {
                let mut out: Vec<(String, Json)> = Vec::new();
                let mut i: usize = 0;
                while i < m.len()
                    invariant
                        i <= m.len(),
                        *self == Json::Object(*m),
                        self@ == JsonView::Object(member_views(m@)),
                        member_views(out@) =~= member_views(m@).take(i as int),
                    decreases m.len() - i,
                {
                    let ghost before = member_views(out@);
                    let x = &m[i].1;
                    out.push((m[i].0.clone(), x.copy()));
                    assert(member_views(out@) =~= before.push((m@[i as int].0@, m@[i as int].1@)));
                    i += 1;
                }
                assert(member_views(m@).take(m@.len() as int) =~= member_views(m@));
                Json::Object(out)
            },
        }
    }
}

/// The members but those of a name.
pub open spec fn without(m: Seq<(Seq<char>, JsonView)>, key: Seq<char>) -> Seq<(Seq<char>, JsonView)>
    decreases m.len(),
{
    if m.len() == 0 {
        Seq::empty()
    } else {
        let rest = without(m.drop_last(), key);
        if m.last().0 == key {
            rest
        } else {
            rest.push(m.last())
        }
    }
}

/// The members with one more, in the order of their names; it takes the place of one of
/// its name.
pub open spec fn with(m: Seq<(Seq<char>, JsonView)>, key: Seq<char>, v: JsonView) -> Seq<(Seq<char>, JsonView)>
    decreases m.len(),
{
    if m.len() == 0 {
        seq![(key, v)]
    } else if m[0].0 == key {
        seq![(key, v)] + m.skip(1)
    } else if text_lt(key, m[0].0) {
        seq![(key, v)] + m
    } else {
        seq![m[0]] + with(m.skip(1), key, v)
    }
}

/// Take the members of a name away.
pub fn remove_member(m: Vec<(String, Json)>, key: &str) -> (r: Vec<(String, Json)>)
    ensures
        member_views(r@) == without(member_views(m@), key@),
{
    let ghost all = member_views(m@);
    let mut out: Vec<(String, Json)> = Vec::new();
    assert(all.take(0) =~= Seq::empty());
    assert(member_views(out@) =~= Seq::empty());
    let ghost items = m@;
    for x in it: m
        invariant
            it.seq() == items,
            all == member_views(items),
            member_views(out@) == without(all.take(it.index() as int), key@),
    {
        let ghost i = it.index() as int;
        assert(all.take(i + 1).drop_last() =~= all.take(i));
        assert(all.take(i + 1).last() == (x.0@, x.1@));
        let ghost before = member_views(out@);
        if !same_text(x.0.as_str(), key) {
            out.push(x);
            assert(member_views(out@) =~= before.push((x.0@, x.1@)));
        }
    }
    assert(all.take(all.len() as int) =~= all);
    out
}

/// Put a member in its place.
pub fn insert_member(m: Vec<(String, Json)>, key: String, v: Json) -> (r: Vec<(String, Json)>)
    ensures
        member_views(r@) == with(member_views(m@), key@, v@),
{
    let ghost all = member_views(m@);
    let mut m = m;
    let mut i: usize = 0;
    assert(all.skip(0) =~= all);
    assert(all.take(0) =~= Seq::empty());
    assert(Seq::<(Seq<char>, JsonView)>::empty() + with(all, key@, v@) =~= with(all, key@, v@));
    while i < m.len() && text_less(m[i].0.as_str(), key.as_str())
        invariant
            i <= m.len(),
            all == member_views(m@),
            with(all, key@, v@) == all.take(i as int) + with(all.skip(i as int), key@, v@),
        ensures
            i < m.len() ==> !text_lt(m@[i as int].0@, key@),
        decreases m.len() - i,
    {
        let ghost rest = all.skip(i as int);
        assert(rest[0] == (m@[i as int].0@, m@[i as int].1@));
        proof {
            lemma_less(m@[i as int].0@, key@);
        }
        assert(rest.skip(1) =~= all.skip(i + 1));
        assert(all.take(i as int) + (seq![rest[0]] + with(all.skip(i + 1), key@, v@)) =~= all.take(i + 1) + with(
            all.skip(i + 1),
            key@,
            v@,
        ));
        i += 1;
    }
    let ghost rest = all.skip(i as int);
    if i < m.len() && same_text(m[i].0.as_str(), key.as_str()) {
        assert(rest[0] == (m@[i as int].0@, m@[i as int].1@));
        m.set(i, (key, v));
        assert(member_views(m@) =~= all.take(i as int) + (seq![(key@, v@)] + rest.skip(1)));
    } else {
        assert(i < m.len() ==> rest[0] == (m@[i as int].0@, m@[i as int].1@));
        proof {
            if i < m.len() {
                lemma_text_order(m@[i as int].0@, key@);
            }
        }
        m.insert(i, (key, v));
        assert(member_views(m@) =~= all.take(i as int) + (seq![(key@, v@)] + rest));
        assert(seq![(key@, v@)] + Seq::<(Seq<char>, JsonView)>::empty() =~= seq![(key@, v@)]);
    }
    m
}

proof fn lemma_less(a: Seq<char>, b: Seq<char>)
    requires
        text_lt(a, b),
    ensures
        a != b,
        !text_lt(b, a),
{
    lemma_lex_irreflexive(codes(a));
    if text_lt(b, a) {
        lemma_lex_transitive(codes(a), codes(b), codes(a));
    }
}
/// What two lists of members hold under a name, one after the other.
pub proof fn lemma_lookup_join(a: Seq<(Seq<char>, JsonView)>, b: Seq<(Seq<char>, JsonView)>, key: Seq<char>)
    ensures
        lookup(a + b, key) == (if lookup(a, key) is Some {
            lookup(a, key)
        } else {
            lookup(b, key)
        }),
    decreases a.len(),
{
    if a.len() == 0 {
        assert(a + b =~= b);
    } else {
        assert((a + b).skip(1) =~= a.skip(1) + b);
        lemma_lookup_join(a.skip(1), b, key);
    }
}

/// What a list of members with one more at its end holds under a name.
pub proof fn lemma_lookup_push(m: Seq<(Seq<char>, JsonView)>, x: (Seq<char>, JsonView), key: Seq<char>)
    ensures
        lookup(m.push(x), key) == (if lookup(m, key) is Some {
            lookup(m, key)
        } else if x.0 == key {
            Some(x.1)
        } else {
            None
        }),
{
    assert(m.push(x) =~= m + seq![x]);
    lemma_lookup_join(m, seq![x], key);
    assert(seq![x].skip(1) =~= Seq::empty());
    assert(lookup(seq![x].skip(1), key) is None);
}

/// Where the members of a name are gone, nothing stands under it, and the rest is as before.
pub proof fn lemma_without(m: Seq<(Seq<char>, JsonView)>, key: Seq<char>, other: Seq<char>)
    ensures
        lookup(without(m, key), key) is None,
        other != key ==> lookup(without(m, key), other) == lookup(m, other),
        without(without(m, key), key) == without(m, key),
    decreases m.len(),
{
    if m.len() > 0 {
        let rest = m.drop_last();
        lemma_without(rest, key, other);
        assert(m =~= rest.push(m.last()));
        lemma_lookup_push(rest, m.last(), other);
        let r = without(rest, key);
        if m.last().0 != key {
            lemma_lookup_push(r, m.last(), key);
            lemma_lookup_push(r, m.last(), other);
            assert(r.push(m.last()).drop_last() =~= r);
        }
    }
}

/// Taking away the members of two names is the same in either order.
pub proof fn lemma_without_swap(m: Seq<(Seq<char>, JsonView)>, a: Seq<char>, b: Seq<char>)
    ensures
        without(without(m, a), b) == without(without(m, b), a),
    decreases m.len(),
{
    if m.len() > 0 {
        let rest = m.drop_last();
        lemma_without_swap(rest, a, b);
        let x = m.last();
        let ra = without(rest, a);
        let rb = without(rest, b);
        if x.0 != a && x.0 != b {
            assert(ra.push(x).drop_last() =~= ra);
            assert(rb.push(x).drop_last() =~= rb);
        } else if x.0 == a && x.0 != b {
            assert(rb.push(x).drop_last() =~= rb);
        } else if x.0 != a && x.0 == b {
            assert(ra.push(x).drop_last() =~= ra);
        }
    }
}

/// A member that was put in is found under its name, and the others as before.
pub proof fn lemma_with(m: Seq<(Seq<char>, JsonView)>, key: Seq<char>, v: JsonView, other: Seq<char>)
    ensures
        lookup(with(m, key, v), key) == Some(v),
        other != key ==> lookup(with(m, key, v), other) == lookup(m, other),
    decreases m.len(),
{
    if m.len() == 0 {
        assert(seq![(key, v)].skip(1) =~= m);
    } else if m[0].0 == key {
        assert((seq![(key, v)] + m.skip(1)).skip(1) =~= m.skip(1));
    } else if text_lt(key, m[0].0) {
        assert((seq![(key, v)] + m).skip(1) =~= m);
    } else {
        lemma_with(m.skip(1), key, v, other);
        let r = with(m.skip(1), key, v);
        assert((seq![m[0]] + r).skip(1) =~= r);
    }
}

/// What is collected are the texts that the items give.
pub proof fn lemma_collect_contains(a: Seq<JsonView>, f: spec_fn(JsonView) -> Option<Seq<char>>, t: Seq<char>)
    ensures
        collect(a, f).contains(t) <==> exists|i: int| 0 <= i < a.len() && f(#[trigger] a[i]) == Some(t),
    decreases a.len(),
{
    if a.len() > 0 {
        let d = a.drop_last();
        let rest = collect(d, f);
        let all = collect(a, f);
        lemma_collect_contains(d, f, t);
        if all.contains(t) {
            let k = choose|k: int| 0 <= k < all.len() && all[k] == t;
            if k < rest.len() {
                assert(rest[k] == t);
                let i = choose|i: int| 0 <= i < d.len() && f(#[trigger] d[i]) == Some(t);
                assert(f(a[i]) == Some(t));
            } else {
                assert(f(a[a.len() - 1]) == Some(t));
            }
        }
        if exists|i: int| 0 <= i < a.len() && f(#[trigger] a[i]) == Some(t) {
            let i = choose|i: int| 0 <= i < a.len() && f(#[trigger] a[i]) == Some(t);
            if i < d.len() {
                assert(d[i] == a[i]);
                assert(rest.contains(t));
                let k = choose|k: int| 0 <= k < rest.len() && rest[k] == t;
                assert(all[k] == t);
            } else {
                assert(all[all.len() - 1] == t);
            }
        }
    }
}

/// Whether a value holds no number with a fraction.
pub open spec fn whole_numbers(v: JsonView) -> bool
    decreases v,
{
    match v {
        JsonView::Number(n) => !(n is Float),
        JsonView::Array(a) => forall|i: int| 0 <= i < a.len() ==> whole_numbers(#[trigger] a[i]),
        JsonView::Object(m) => forall|i: int| 0 <= i < m.len() ==> whole_numbers((#[trigger] m[i]).1),
        _ => true,
    }
}

/// Two values are equal where they are the same, member by member and element by element, and
/// only there; fractions alone have two forms of one number.
pub proof fn law_equal(a: JsonView, b: JsonView)
    requires
        whole_numbers(a),
    ensures
        equal(a, b) <==> a == b,
    decreases a,
{
    lemma_equal_self(a);
    match (a, b) {
        (JsonView::Array(x), JsonView::Array(y)) => {
            if equal(a, b) {
                assert forall|i: int| 0 <= i < x.len() implies #[trigger] x[i] == y[i] by {
                    assert(equal(x[i], y[i]));
                    law_equal(x[i], y[i]);
                }
                assert(x =~= y);
            }
        },
        (JsonView::Object(x), JsonView::Object(y)) => {
            if equal(a, b) {
                assert forall|i: int| 0 <= i < x.len() implies #[trigger] x[i] == y[i] by {
                    assert(equal(x[i].1, y[i].1));
                    law_equal(x[i].1, y[i].1);
                }
                assert(x =~= y);
            }
        },
        _ => {},
    }
}

/// A member is found by its name: the first of it, and none where there is none.
pub proof fn law_lookup(m: Seq<(Seq<char>, JsonView)>, key: Seq<char>, i: int)
    ensures
        0 <= i < m.len() && m[i].0 == key && (forall|k: int| 0 <= k < i ==> (#[trigger] m[k]).0 != key) ==> lookup(m, key)
            == Some(m[i].1),
        (forall|k: int| 0 <= k < m.len() ==> (#[trigger] m[k]).0 != key) ==> lookup(m, key) is None,
    decreases m.len(),
{
    if m.len() > 0 {
        let rest = m.skip(1);
        law_lookup(rest, key, i - 1);
        if 0 < i < m.len() && forall|k: int| 0 <= k < i ==> (#[trigger] m[k]).0 != key {
            assert(m[0].0 != key);
            assert(rest[i - 1] == m[i]);
            assert forall|k: int| 0 <= k < i - 1 implies (#[trigger] rest[k]).0 != key by {
                assert(rest[k] == m[k + 1]);
            }
        }
        if forall|k: int| 0 <= k < m.len() ==> (#[trigger] m[k]).0 != key {
            assert(m[0].0 != key);
            assert forall|k: int| 0 <= k < rest.len() implies (#[trigger] rest[k]).0 != key by {
                assert(rest[k] == m[k + 1]);
            }
        }
    }
}

} // verus!
