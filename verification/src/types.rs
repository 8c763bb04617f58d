//! Core types: objects, their identity, and the references that address them.
use crate::json::Json;
use crate::small::{AnnotationVec, LabelVec, ProjectedVec};
use crate::text::{opt_text, same_text};
use vstd::prelude::*;

verus! {

/// The identity of an object.
pub type Uid = [u8; 16];

/// The number that a run of bytes denotes, most significant byte first.
pub open spec fn be_value(s: Seq<u8>) -> nat
    decreases s.len(),
{
    if s.len() == 0 {
        0
    } else {
        be_value(s.drop_last()) * 256 + s.last() as nat
    }
}

/// The number by which an identity is found in a map.
pub open spec fn uid_key(u: Uid) -> u128 {
    be_value(u@) as u128
}

/// 256 to the power `n`.
pub open spec fn pow256(n: nat) -> nat
    decreases n,
{
    if n == 0 {
        1
    } else {
        256 * pow256((n - 1) as nat)
    }
}

/// `n` bytes denote a number below 256 to the power `n`.
pub proof fn lemma_be_bound(s: Seq<u8>)
    ensures
        be_value(s) < pow256(s.len()),
    decreases s.len(),
{
    if s.len() > 0 {
        lemma_be_bound(s.drop_last());
        assert(s.drop_last().len() == s.len() - 1);
    }
}

/// Runs of bytes of one length that denote the same number are equal.
pub proof fn lemma_be_injective(s: Seq<u8>, t: Seq<u8>)
    requires
        s.len() == t.len(),
        be_value(s) == be_value(t),
    ensures
        s == t,
    decreases s.len(),
{
    if s.len() > 0 {
        assert(s.last() == t.last() && be_value(s.drop_last()) == be_value(t.drop_last()));
        lemma_be_injective(s.drop_last(), t.drop_last());
        assert(s =~= s.drop_last().push(s.last()));
        assert(t =~= t.drop_last().push(t.last()));
    } else {
        assert(s =~= t);
    }
}

proof fn lemma_pow256_16()
    ensures
        pow256(16) == 0x1_0000_0000_0000_0000_0000_0000_0000_0000,
        forall|i: nat| i < 16 ==> #[trigger] pow256(i) <= 0x100_0000_0000_0000_0000_0000_0000_0000,
{
    reveal_with_fuel(pow256, 17);
    assert forall|i: nat| i < 16 implies #[trigger] pow256(i)
        <= 0x100_0000_0000_0000_0000_0000_0000_0000 by {
        reveal_with_fuel(pow256, 17);
    }
}

/// Two identities have the same key only where they are equal.
pub proof fn lemma_uid_key_injective(a: Uid, b: Uid)
    requires
        uid_key(a) == uid_key(b),
    ensures
        a@ == b@,
{
    lemma_be_bound(a@);
    lemma_be_bound(b@);
    lemma_pow256_16();
    lemma_be_injective(a@, b@);
}

/// The number by which an identity is found in a map.
pub fn key_of(u: &Uid) -> (r: u128)
    ensures
        r == uid_key(*u),
{
    let mut acc: u128 = 0;
    let mut i: usize = 0;
    while i < 16
        invariant
            i <= 16,
            acc == be_value(u@.take(i as int)),
        decreases 16 - i,
    {
        proof {
            lemma_be_bound(u@.take(i as int));
            lemma_pow256_16();
            assert(u@.take(i + 1).drop_last() =~= u@.take(i as int));
        }
        acc = acc * 256 + u[i] as u128;
        i += 1;
    }
    assert(u@.take(16) =~= u@);
    acc
}

/// Whether two identities are the same.
pub fn same_uid(a: &Uid, b: &Uid) -> (r: bool)
    ensures
        r == (a@ == b@),
{
    let mut i: usize = 0;
    while i < 16
        invariant
            i <= 16,
            forall|k: int| 0 <= k < i ==> a@[k] == b@[k],
        decreases 16 - i,
    {
        if a[i] != b[i] {
            assert(a@[i as int] != b@[i as int]);
            return false;
        }
        i += 1;
    }
    assert(a@ =~= b@);
    true
}

/// Whether an optional identity is present and the same as another.
pub fn uid_is(a: &Option<Uid>, b: &Uid) -> (r: bool)
    ensures
        r == (a is Some && a->0@ == b@),
{
    match a {
        Some(x) => same_uid(x, b),
        None => false,
    }
}

/// What happened to an object.
#[derive(Debug, Clone, Copy, PartialEq, Eq, Structural)]
pub enum DeltaKind {
    Applied,
    Deleted,
}

/// A change of one object, with the object as it is served.
pub struct Delta {
    pub uid: Uid,
    pub kind: DeltaKind,
    pub raw: Json,
}

/// The fields of an object that lists and searches read.
pub struct LiteObj {
    pub uid: Uid,
    pub namespace: Option<String>,
    pub name: String,
    pub creation_ts: i64,
    pub projected: ProjectedVec,
    pub labels: LabelVec,
    pub annotations: AnnotationVec,
}

/// The model of a `LiteObj`.
pub struct LiteView {
    pub uid: Seq<u8>,
    pub namespace: Option<Seq<char>>,
    pub name: Seq<char>,
    pub creation_ts: i64,
    pub projected: Seq<(u32, Seq<char>)>,
    pub labels: Seq<(Seq<char>, Seq<char>)>,
    pub annotations: Seq<(Seq<char>, Seq<char>)>,
}

impl View for LiteObj {
    type V = LiteView;

    open spec fn view(&self) -> LiteView {
        LiteView {
            uid: self.uid@,
            namespace: opt_text(self.namespace),
            name: self.name@,
            creation_ts: self.creation_ts,
            projected: self.projected@,
            labels: self.labels@,
            annotations: self.annotations@,
        }
    }
}

impl Clone for LiteObj {
    fn clone(&self) -> (r: Self)
        ensures
            r@ == self@,
            r.uid == self.uid,
            r.name == self.name,
            r.namespace == self.namespace,
    {
        let namespace = match &self.namespace {
            Some(s) => Some(s.clone()),
            None => None,
        };
        LiteObj {
            uid: self.uid,
            namespace,
            name: self.name.clone(),
            creation_ts: self.creation_ts,
            projected: self.projected.clone(),
            labels: self.labels.clone(),
            annotations: self.annotations.clone(),
        }
    }
}

/// The models of a list of objects.
pub open spec fn lite_views(v: Seq<LiteObj>) -> Seq<LiteView> {
    v.map_values(|o: LiteObj| o@)
}

/// A snapshot of the objects of one kind.
pub struct WorldSnapshot {
    pub epoch: u64,
    pub items: Vec<LiteObj>,
}

impl Default for WorldSnapshot {
    fn default() -> (r: Self)
        ensures
            r.epoch == 0,
            r.items@ == Seq::<LiteObj>::empty(),
    {
        WorldSnapshot { epoch: 0, items: Vec::new() }
    }
}

/// A served resource kind.
#[derive(Debug, PartialEq, Eq)]
pub struct ResourceKind {
    pub group: String,
    pub version: String,
    pub kind: String,
    pub namespaced: bool,
}

/// The model of a `ResourceKind`.
pub struct KindView {
    pub group: Seq<char>,
    pub version: Seq<char>,
    pub kind: Seq<char>,
    pub namespaced: bool,
}

impl View for ResourceKind {
    type V = KindView;

    open spec fn view(&self) -> KindView {
        KindView {
            group: self.group@,
            version: self.version@,
            kind: self.kind@,
            namespaced: self.namespaced,
        }
    }
}

impl Clone for ResourceKind {
    fn clone(&self) -> (r: Self)
        ensures
            r == *self,
    {
        ResourceKind {
            group: self.group.clone(),
            version: self.version.clone(),
            kind: self.kind.clone(),
            namespaced: self.namespaced,
        }
    }
}

/// A copy of an optional string.
pub fn clone_option(s: &Option<String>) -> (r: Option<String>)
    ensures
        r == *s,
{
    match s {
        Some(x) => Some(x.clone()),
        None => None,
    }
}

/// A reference to one object.
#[derive(Debug, PartialEq, Eq)]
pub struct ResourceRef {
    pub cluster: Option<String>,
    pub gvk: ResourceKind,
    pub namespace: Option<String>,
    pub name: String,
}

impl Clone for ResourceRef {
    fn clone(&self) -> (r: Self)
        ensures
            r == *self,
    {
        ResourceRef {
            cluster: clone_option(&self.cluster),
            gvk: self.gvk.clone(),
            namespace: clone_option(&self.namespace),
            name: self.name.clone(),
        }
    }
}

/// The objects of one kind, in one namespace or in all.
#[derive(Debug, PartialEq, Eq)]
pub struct Selector {
    pub gvk: ResourceKind,
    pub namespace: Option<String>,
}

impl Clone for Selector {
    fn clone(&self) -> (r: Self)
        ensures
            r == *self,
    {
        Selector { gvk: self.gvk.clone(), namespace: clone_option(&self.namespace) }
    }
}

/// A change event with a shaped object.
pub enum LiteEvent {
    Applied(LiteObj),
    Deleted(LiteObj),
}

/// Whether two kinds agree in group, version and kind.
pub open spec fn same_gvk(a: KindView, b: KindView) -> bool {
    a.group == b.group && a.version == b.version && a.kind == b.kind
}

/// Whether two kinds agree in group, version and kind.
pub fn gvk_equal(a: &ResourceKind, b: &ResourceKind) -> (r: bool)
    ensures
        r == same_gvk(a@, b@),
{
    same_text(a.group.as_str(), b.group.as_str()) && same_text(a.version.as_str(), b.version.as_str())
        && same_text(a.kind.as_str(), b.kind.as_str())
}

} // verus!
