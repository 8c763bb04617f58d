//! The keys of kinds: `version/Kind` for the core group, `group/version/Kind` for others.
use crate::columns::{gvk_key, gvk_text};
use crate::text::{
    cat3, copy_text, lemma_split_concat, lemma_split_nonempty, lemma_split_single, split, split_char, texts,
};
use crate::types::{KindView, ResourceKind};
use vstd::prelude::*;
use vstd::string::*;

verus! {

/// The group, the version and the name that a key holds, where it has two or three parts.
pub open spec fn key_parts(key: Seq<char>) -> Option<(Seq<char>, Seq<char>, Seq<char>)> {
    let p = split(key, '/');
    if p.len() == 2 {
        Some((Seq::empty(), p[0], p[1]))
    } else if p.len() == 3 {
        Some((p[0], p[1], p[2]))
    } else {
        None
    }
}

/// The message for a key that has neither two nor three parts.
pub open spec fn bad_key_text(key: Seq<char>) -> Seq<char> {
    "invalid gvk key: "@ + key + " (expect v1/Kind or group/v1/Kind)"@
}

/// The group, the version and the name that a key holds.
pub fn parse_gvk_key(key: &str) -> (r: Result<(String, String, String), String>)
    ensures
        match r {
            Ok((g, v, k)) => key_parts(key@) == Some((g@, v@, k@)),
            Err(e) => key_parts(key@) is None && e@ == bad_key_text(key@),
        },
{
    let p = split_char(key, '/');
    let ghost pv = texts(p@);
    assert forall|i: int| 0 <= i < pv.len() implies pv[i] == (#[trigger] p@[i])@ by {}
    if p.len() == 2 {
        let g = String::new();
        assert(g@ =~= Seq::empty());
        Ok((g, p[0].clone(), p[1].clone()))
    } else if p.len() == 3 {
        Ok((p[0].clone(), p[1].clone(), p[2].clone()))
    } else {
        Err(cat3("invalid gvk key: ", key, " (expect v1/Kind or group/v1/Kind)"))
    }
}

/// The kind that a key stands for. A key that has neither two nor three parts stands for
/// a kind of that name, without a version.
pub open spec fn kind_of_key(key: Seq<char>) -> KindView {
    match key_parts(key) {
        Some((group, version, kind)) => KindView { group, version, kind, namespaced: true },
        None => KindView {
            group: Seq::empty(),
            version: Seq::empty(),
            kind: key,
            namespaced: true,
        },
    }
}

/// The kind that a key stands for.
pub fn parse_gvk_key_to_kind(key: &str) -> (r: ResourceKind)
    ensures
        r@ == kind_of_key(key@),
{
    match parse_gvk_key(key) {
        Ok((group, version, kind)) => ResourceKind { group, version, kind, namespaced: true },
        Err(_) => {
            let r = ResourceKind {
                group: String::new(),
                version: String::new(),
                kind: copy_text(key),
                namespaced: true,
            };
            assert(r@.group =~= Seq::empty());
            assert(r@.version =~= Seq::empty());
            r
        },
    }
}

/// The key of a kind.
pub open spec fn kind_text(k: KindView) -> Seq<char> {
    gvk_text(k.group, k.version, k.kind)
}

/// The key of a kind.
pub fn gvk_label(k: &ResourceKind) -> (r: String)
    ensures
        r@ == kind_text(k@),
{
    gvk_key(k.group.as_str(), k.version.as_str(), k.kind.as_str())
}

/// The key of a kind holds the kind: where no part has a slash, it is read back as it was
/// written.
pub proof fn law_key_round_trip(group: Seq<char>, version: Seq<char>, kind: Seq<char>)
    requires
        !group.contains('/'),
        !version.contains('/'),
        !kind.contains('/'),
    ensures
        key_parts(gvk_text(group, version, kind)) == Some((group, version, kind)),
{
    reveal_strlit("/");
    lemma_split_single(group, '/');
    lemma_split_single(version, '/');
    lemma_split_single(kind, '/');
    let tail = version.push('/') + kind;
    lemma_split_concat(version, '/', kind);
    assert(split(tail, '/') =~= seq![version, kind]);
    if group.len() == 0 {
        assert(group =~= Seq::empty());
        assert(gvk_text(group, version, kind) =~= tail);
    } else {
        assert(gvk_text(group, version, kind) =~= group.push('/') + tail);
        lemma_split_concat(group, '/', tail);
        assert(split(gvk_text(group, version, kind), '/') =~= seq![group, version, kind]);
    }
}

/// A key that is read is written back as it was, unless it has an empty group.
pub proof fn law_key_written_back(key: Seq<char>)
    requires
        split(key, '/').len() == 3 ==> split(key, '/')[0].len() > 0,
    ensures
        match key_parts(key) {
            Some((g, v, k)) => gvk_text(g, v, k) == key,
            None => true,
        },
{
    reveal_strlit("/");
    lemma_joined(key, '/');
    let p = split(key, '/');
    if p.len() == 2 {
        assert(glued(p, '/') =~= p[0].push('/') + p[1]) by {
            reveal_with_fuel(glued, 3);
        }
        assert(gvk_text(Seq::empty(), p[0], p[1]) =~= key);
    } else if p.len() == 3 {
        assert(glued(p, '/') =~= p[0].push('/') + p[1].push('/') + p[2]) by {
            reveal_with_fuel(glued, 4);
        }
        assert(gvk_text(p[0], p[1], p[2]) =~= key);
    }
}

/// Pieces with a separator between them.
spec fn glued(p: Seq<Seq<char>>, c: char) -> Seq<char>
    decreases p.len(),
{
    if p.len() == 0 {
        Seq::empty()
    } else if p.len() == 1 {
        p[0]
    } else {
        glued(p.drop_last(), c).push(c) + p.last()
    }
}

proof fn lemma_joined(s: Seq<char>, c: char)
    ensures
        glued(split(s, c), c) == s,
    decreases s.len(),
{
    lemma_split_nonempty(s, c);
    if s.len() > 0 {
        let d = s.drop_last();
        lemma_joined(d, c);
        lemma_split_nonempty(d, c);
        let p = split(d, c);
        let q = split(s, c);
        if s.last() == c {
            assert(q =~= p.push(Seq::empty()));
            assert(q.drop_last() =~= p);
            assert(glued(q, c) =~= s);
        } else {
            assert(q =~= p.drop_last().push(p.last().push(s.last())));
            assert(q.drop_last() =~= p.drop_last());
            assert(s =~= d.push(s.last()));
            if p.len() == 1 {
                assert(glued(q, c) =~= s);
            } else {
                assert(glued(q, c) =~= glued(p, c).push(s.last()));
            }
        }
    } else {
        assert(s =~= Seq::empty());
        assert(split(s, c) =~= seq![s]);
    }
}

} // verus!
