//! Imperative operations: capabilities, log streams, scaling, draining.
use crate::codec::utf8_text;
use crate::json::{lemma_object_view, member_views, opt_str, owned, Json, JsonView, Num, NumView};
use crate::kubehub::{find_kind, kind_place, DiscoveredResource};
use crate::gvk::{bad_key_text, key_parts, parse_gvk_key};
use crate::settings::{number_setting, read_number, read_size, read_text, setting_views, size_setting, text_setting};
use crate::text::{
    cat2, cat3, cat5, contains_string, copy_text, join, join_text, lemma_split_nonempty, lemma_split_pieces,
    lemma_split_single, opt_text, same_text, split, texts,
};
use vstd::prelude::*;
use vstd::string::*;
use vstd::utf8::{decode_utf8, valid_utf8};

verus! {

/// One line of log output.
#[derive(Debug)]
pub struct LogChunk {
    pub line: String,
}

/// Options of a log stream.
#[derive(Debug, Clone, Copy, PartialEq, Eq, Structural)]
pub struct LogOptions {
    pub follow: bool,
    pub tail_lines: Option<i64>,
    pub since_seconds: Option<i64>,
}

impl Default for LogOptions {
    /// A stream that is followed, from its beginning.
    fn default() -> (r: Self)
        ensures
            r == (LogOptions { follow: true, tail_lines: None, since_seconds: None }),
    {
        LogOptions { follow: true, tail_lines: None, since_seconds: None }
    }
}

/// How a workload can be scaled.
#[derive(Debug)]
pub struct ScaleCaps {
    pub gvk: String,
    pub resource: String,
    pub subresource_patch: bool,
    pub spec_replicas_patch: bool,
}

/// What the current user may do.
#[derive(Debug)]
pub struct OpsCaps {
    pub namespace: Option<String>,
    pub pods_log_get: bool,
    pub pods_exec_create: bool,
    pub pods_portforward_create: bool,
    pub nodes_patch: bool,
    pub pods_eviction_create: Option<bool>,
    pub scale: Option<ScaleCaps>,
}

/// An event of a port forward.
#[derive(Debug)]
pub enum ForwardEvent {
    Ready(String),
    Connected(String),
    Closed,
    Error(String),
}

/// The operations on a cluster.
#[derive(Debug, Clone, Copy, PartialEq, Eq, Structural)]
pub struct KubeOps;

impl KubeOps {
    /// The operations.
    pub fn new() -> (r: Self)
        ensures
            r == KubeOps,
    {
        KubeOps
    }
}

// ---------------------------------------------------------------------------
// Lines of a log

/// `bytes::BytesMut`: bytes that are taken away at one end and added at the other.
#[verifier::external_type_specification]
#[verifier::external_body]
pub struct ExBytesMut(bytes::BytesMut);

/// The bytes that a `bytes::BytesMut` holds.
pub uninterp spec fn buffer_bytes(b: bytes::BytesMut) -> Seq<u8>;

/// `bytes::BytesMut::new`: a buffer that holds nothing.
#[verifier::external_body]
fn new_buffer() -> (r: bytes::BytesMut)
    ensures
        buffer_bytes(r) == Seq::<u8>::empty(),
{
    bytes::BytesMut::new()
}

/// `bytes::BytesMut::extend_from_slice`: the bytes go behind what the buffer held. More than
/// the machine can hold is left out: the outside function panics there.
#[verifier::external_body]
fn extend_buffer(b: &mut bytes::BytesMut, more: &[u8])
    requires
        buffer_bytes(*old(b)).len() + more@.len() <= isize::MAX,
    ensures
        buffer_bytes(*final(b)) == buffer_bytes(*old(b)) + more@,
{
    b.extend_from_slice(more)
}

/// `bytes::BytesMut::split_to`: the first bytes are taken away and handed out, the rest
/// stays. The place must lie in the buffer.
#[verifier::external_body]
fn split_buffer(b: &mut bytes::BytesMut, at: usize) -> (r: bytes::BytesMut)
    requires
        at <= buffer_bytes(*old(b)).len(),
    ensures
        buffer_bytes(r) == buffer_bytes(*old(b)).take(at as int),
        buffer_bytes(*final(b)) == buffer_bytes(*old(b)).skip(at as int),
{
    b.split_to(at)
}

/// `bytes::BytesMut::deref`: the bytes that the buffer holds.
#[verifier::external_body]
fn view_buffer(b: &bytes::BytesMut) -> (r: &[u8])
    ensures
        r@ == buffer_bytes(*b),
{
    b
}

/// The byte that ends a line.
pub const NEWLINE: u8 = 10;

/// The texts of the lines that are texts.
pub open spec fn line_texts(lines: Seq<Seq<u8>>) -> Seq<Seq<char>>
    decreases lines.len(),
{
    if lines.len() == 0 {
        Seq::empty()
    } else {
        let rest = line_texts(lines.drop_last());
        if valid_utf8(lines.last()) {
            rest.push(decode_utf8(lines.last()))
        } else {
            rest
        }
    }
}

/// The lines that are whole where bytes are added to an unfinished one.
pub open spec fn whole_lines(held: Seq<u8>, chunk: Seq<u8>) -> Seq<Seq<u8>> {
    split(held + chunk, NEWLINE).drop_last()
}

/// The unfinished line where bytes are added to an unfinished one.
pub open spec fn unfinished(held: Seq<u8>, chunk: Seq<u8>) -> Seq<u8> {
    split(held + chunk, NEWLINE).last()
}

/// The last line of a stream, where it is not empty.
pub open spec fn tail_line(held: Seq<u8>) -> Seq<Seq<u8>> {
    if held.len() == 0 {
        Seq::empty()
    } else {
        seq![held]
    }
}

/// The lines of a list of chunks.
pub open spec fn chunk_lines(v: Seq<LogChunk>) -> Seq<Seq<char>> {
    v.map_values(|c: LogChunk| c.line@)
}

/// A pump that makes lines out of bytes.
pub struct LinePump {
    buf: bytes::BytesMut,
}

/// What happens to a pump.
pub enum PumpEvent {
    Chunk(Vec<u8>),
    Failed,
    Ended,
    Cancelled,
}

/// What a pump gives: lines, and whether it is done.
pub struct PumpStep {
    pub lines: Vec<LogChunk>,
    pub done: bool,
}

fn copy_bytes(s: &[u8]) -> (r: Vec<u8>)
    ensures
        r@ == s@,
{
    let mut out: Vec<u8> = Vec::new();
    let mut i: usize = 0;
    while i < s.len()
        invariant
            i <= s@.len(),
            out@ == s@.take(i as int),
        decreases s@.len() - i,
    {
        out.push(s[i]);
        assert(out@ =~= s@.take(i + 1));
        i += 1;
    }
    assert(s@.take(s@.len() as int) =~= s@);
    out
}

fn find_newline(s: &[u8]) -> (r: Option<usize>)
    ensures
        match r {
            Some(i) => i < s@.len() && s@[i as int] == NEWLINE && forall|k: int|
                0 <= k < i ==> #[trigger] s@[k] != NEWLINE,
            None => !s@.contains(NEWLINE),
        },
{
    let mut i: usize = 0;
    while i < s.len()
        invariant
            i <= s@.len(),
            forall|k: int| 0 <= k < i ==> #[trigger] s@[k] != NEWLINE,
        decreases s@.len() - i,
    {
        if s[i] == NEWLINE {
            return Some(i);
        }
        i += 1;
    }
    None
}

fn push_line(out: &mut Vec<LogChunk>, line: Vec<u8>)
    ensures
        chunk_lines(final(out)@) == chunk_lines(old(out)@) + line_texts(seq![line@]),
{
    let ghost before = chunk_lines(out@);
    let ghost bytes = line@;
    assert(seq![bytes].drop_last() =~= Seq::empty());
    assert(line_texts(seq![bytes].drop_last()) =~= Seq::empty());
    if let Some(s) = utf8_text(line) {
        let ghost t = s@;
        out.push(LogChunk { line: s });
        assert(chunk_lines(out@) =~= before + seq![t]);
        assert(Seq::<Seq<char>>::empty().push(t) =~= seq![t]);
    } else {
        assert(before + Seq::<Seq<char>>::empty() =~= before);
    }
}

proof fn lemma_line_texts_join(a: Seq<Seq<u8>>, b: Seq<Seq<u8>>)
    ensures
        line_texts(a + b) == line_texts(a) + line_texts(b),
    decreases b.len(),
{
    if b.len() == 0 {
        assert(a + b =~= a);
        assert(line_texts(a) + line_texts(b) =~= line_texts(a));
    } else {
        assert((a + b).drop_last() =~= a + b.drop_last());
        lemma_line_texts_join(a, b.drop_last());
        assert(line_texts(a + b) =~= line_texts(a) + line_texts(b));
    }
}

/// A split of a text whose first separator stands at a place.
proof fn lemma_split_first(s: Seq<u8>, i: int)
    requires
        0 <= i < s.len(),
        s[i] == NEWLINE,
        forall|k: int| 0 <= k < i ==> #[trigger] s[k] != NEWLINE,
    ensures
        split(s, NEWLINE) == seq![s.take(i)] + split(s.skip(i + 1), NEWLINE),
{
    let a = s.take(i);
    let b = s.skip(i + 1);
    assert(a.push(NEWLINE) + b =~= s);
    crate::text::lemma_split_concat(a, NEWLINE, b);
    lemma_split_single(a, NEWLINE);
}

impl LinePump {
    /// The bytes of the unfinished line.
    pub closed spec fn held(&self) -> Seq<u8> {
        buffer_bytes(self.buf)
    }

    /// A pump that holds nothing.
    pub fn new() -> (r: LinePump)
        ensures
            r.held() == Seq::<u8>::empty(),
    {
        LinePump { buf: new_buffer() }
    }

    fn take_chunk(&mut self, chunk: &[u8], out: &mut Vec<LogChunk>)
        requires
            old(self).held().len() + chunk@.len() <= isize::MAX,
            old(out)@.len() == 0,
        ensures
            final(self).held() == unfinished(old(self).held(), chunk@),
            chunk_lines(final(out)@) == line_texts(whole_lines(old(self).held(), chunk@)),
    {
        let ghost all = self.held() + chunk@;
        extend_buffer(&mut self.buf, chunk);
        let ghost mut done: Seq<Seq<u8>> = Seq::empty();
        assert(done + split(all, NEWLINE) =~= split(all, NEWLINE));
        assert(chunk_lines(out@) =~= Seq::empty());
        let mut at = find_newline(view_buffer(&self.buf));
        while at.is_some()
            invariant
                split(all, NEWLINE) == done + split(self.held(), NEWLINE),
                chunk_lines(out@) == line_texts(done),
                match at {
                    Some(i) => {
                        &&& i < self.held().len()
                        &&& self.held()[i as int] == NEWLINE
                        &&& forall|k: int| 0 <= k < i ==> #[trigger] self.held()[k] != NEWLINE
                    },
                    None => !self.held().contains(NEWLINE),
                },
            decreases self.held().len(),
        {
            let i: usize = match at {
                Some(i) => i,
                None => 0,
            };
            let ghost before = self.held();
            let line = split_buffer(&mut self.buf, i);
            let _dropped = split_buffer(&mut self.buf, 1);
            assert(self.held() =~= before.skip(i + 1));
            let bytes = copy_bytes(view_buffer(&line));
            proof {
                lemma_split_first(before, i as int);
                lemma_line_texts_join(done, seq![before.take(i as int)]);
                let next = done + seq![before.take(i as int)];
                assert(done + (seq![before.take(i as int)] + split(self.held(), NEWLINE)) =~= next + split(
                    self.held(),
                    NEWLINE,
                ));
                done = next;
            }
            push_line(out, bytes);
            at = find_newline(view_buffer(&self.buf));
        }
        proof {
            lemma_split_single(self.held(), NEWLINE);
            assert((done + seq![self.held()]).drop_last() =~= done);
        }
    }

    /// Take what happened: a chunk gives the lines that are whole, and any other event ends
    /// the pump and gives the unfinished line. Lines that are no text are passed over.
    pub fn step(&mut self, event: PumpEvent) -> (r: PumpStep)
        requires
            event matches PumpEvent::Chunk(c) ==> old(self).held().len() + c@.len() <= isize::MAX,
        ensures
            match event {
                PumpEvent::Chunk(c) => {
                    &&& !r.done
                    &&& chunk_lines(r.lines@) == line_texts(whole_lines(old(self).held(), c@))
                    &&& final(self).held() == unfinished(old(self).held(), c@)
                },
                _ => {
                    &&& r.done
                    &&& chunk_lines(r.lines@) == line_texts(tail_line(old(self).held()))
                    &&& final(self).held() == old(self).held()
                },
            },
    {
        let mut lines: Vec<LogChunk> = Vec::new();
        match event {
            PumpEvent::Chunk(c) => {
                self.take_chunk(c.as_slice(), &mut lines);
                PumpStep { lines, done: false }
            },
            _ => {
                let bytes = copy_bytes(view_buffer(&self.buf));
                assert(chunk_lines(lines@) =~= Seq::empty());
                if bytes.len() > 0 {
                    push_line(&mut lines, bytes);
                    assert(chunk_lines(lines@) =~= line_texts(seq![self.held()]));
                }
                PumpStep { lines, done: true }
            },
        }
    }
}

proof fn lemma_split_more(s: Seq<u8>, more: Seq<u8>)
    ensures
        split(s + more, NEWLINE) == split(s, NEWLINE).drop_last() + split(
            split(s, NEWLINE).last() + more,
            NEWLINE,
        ),
    decreases more.len(),
{
    let p = split(s, NEWLINE);
    lemma_split_nonempty(s, NEWLINE);
    if more.len() == 0 {
        assert(s + more =~= s);
        assert(p.last() + more =~= p.last());
        lemma_split_pieces(s, NEWLINE);
        lemma_split_single(p.last(), NEWLINE);
        assert(p.drop_last() + seq![p.last()] =~= p);
    } else {
        lemma_split_more(s, more.drop_last());
        assert((s + more).drop_last() =~= s + more.drop_last());
        assert((p.last() + more).drop_last() =~= p.last() + more.drop_last());
        let q = split(p.last() + more.drop_last(), NEWLINE);
        lemma_split_nonempty(p.last() + more.drop_last(), NEWLINE);
        let head = p.drop_last();
        if more.last() == NEWLINE {
            assert((head + q).push(Seq::empty()) =~= head + q.push(Seq::empty()));
        } else {
            let x = (head + q).last().push(more.last());
            assert((head + q).last() == q.last());
            assert((head + q).drop_last().push(x) =~= head + q.drop_last().push(q.last().push(more.last())));
        }
    }
}

/// The lines of a stream do not depend on how it is cut into chunks: two chunks, one after
/// the other, give the lines of the two together, and leave the same unfinished line.
pub proof fn law_chunks(held: Seq<u8>, a: Seq<u8>, b: Seq<u8>)
    ensures
        line_texts(whole_lines(held, a)) + line_texts(whole_lines(unfinished(held, a), b)) == line_texts(
            whole_lines(held, a + b),
        ),
        unfinished(unfinished(held, a), b) == unfinished(held, a + b),
{
    let s = held + a;
    assert(held + (a + b) =~= s + b);
    lemma_split_more(s, b);
    let p = split(s, NEWLINE);
    let q = split(p.last() + b, NEWLINE);
    lemma_split_nonempty(p.last() + b, NEWLINE);
    assert((p.drop_last() + q).drop_last() =~= p.drop_last() + q.drop_last());
    lemma_line_texts_join(p.drop_last(), q.drop_last());
}

/// The bytes of a stream that came in chunks.
pub open spec fn stream(chunks: Seq<Seq<u8>>) -> Seq<u8>
    decreases chunks.len(),
{
    if chunks.len() == 0 {
        Seq::empty()
    } else {
        stream(chunks.drop_last()) + chunks.last()
    }
}

/// The unfinished line that a pump holds after some chunks.
pub open spec fn held_after(chunks: Seq<Seq<u8>>) -> Seq<u8>
    decreases chunks.len(),
{
    if chunks.len() == 0 {
        Seq::empty()
    } else {
        unfinished(held_after(chunks.drop_last()), chunks.last())
    }
}

/// The lines that a pump gives for some chunks, one after the other.
pub open spec fn pumped(chunks: Seq<Seq<u8>>) -> Seq<Seq<char>>
    decreases chunks.len(),
{
    if chunks.len() == 0 {
        Seq::empty()
    } else {
        pumped(chunks.drop_last()) + line_texts(whole_lines(held_after(chunks.drop_last()), chunks.last()))
    }
}

/// The lines that a pump gives for a stream that ends, or fails, after some chunks.
pub open spec fn all_pumped(chunks: Seq<Seq<u8>>) -> Seq<Seq<char>> {
    pumped(chunks) + line_texts(tail_line(held_after(chunks)))
}

/// The lines of a stream: its pieces, without an empty one at its end.
pub open spec fn stream_lines(bytes: Seq<u8>) -> Seq<Seq<u8>> {
    let p = split(bytes, NEWLINE);
    if p.last().len() == 0 {
        p.drop_last()
    } else {
        p
    }
}

proof fn lemma_pumped(chunks: Seq<Seq<u8>>)
    ensures
        held_after(chunks) == unfinished(Seq::empty(), stream(chunks)),
        pumped(chunks) == line_texts(whole_lines(Seq::empty(), stream(chunks))),
    decreases chunks.len(),
{
    let none = Seq::<u8>::empty();
    if chunks.len() == 0 {
        assert(none + stream(chunks) =~= none);
        assert(split(none, NEWLINE) =~= seq![none]);
        assert(split(none, NEWLINE).drop_last() =~= Seq::empty());
        assert(pumped(chunks) =~= line_texts(whole_lines(none, stream(chunks))));
    } else {
        lemma_pumped(chunks.drop_last());
        law_chunks(none, stream(chunks.drop_last()), chunks.last());
    }
}

/// The lines of a whole stream are its pieces between the ends of lines, without an empty
/// one at the end and without those that are no text.
pub proof fn law_stream(chunks: Seq<Seq<u8>>)
    ensures
        all_pumped(chunks) == line_texts(stream_lines(stream(chunks))),
{
    let s = stream(chunks);
    lemma_pumped(chunks);
    assert(Seq::<u8>::empty() + s =~= s);
    let p = split(s, NEWLINE);
    lemma_split_nonempty(s, NEWLINE);
    lemma_line_texts_join(p.drop_last(), tail_line(p.last()));
    if p.last().len() == 0 {
        assert(p.drop_last() + tail_line(p.last()) =~= p.drop_last());
    } else {
        assert(p.drop_last() + tail_line(p.last()) =~= p);
    }
}

/// However a stream is cut into chunks, its lines are the same.
pub proof fn law_cut_anywhere(a: Seq<Seq<u8>>, b: Seq<Seq<u8>>)
    requires
        stream(a) == stream(b),
    ensures
        all_pumped(a) == all_pumped(b),
{
    law_stream(a);
    law_stream(b);
}

/// No line has the byte that ends one.
pub proof fn law_no_newline(held: Seq<u8>, chunk: Seq<u8>, i: int)
    ensures
        0 <= i < whole_lines(held, chunk).len() ==> !whole_lines(held, chunk)[i].contains(NEWLINE),
        !unfinished(held, chunk).contains(NEWLINE),
{
    lemma_split_pieces(held + chunk, NEWLINE);
    lemma_split_nonempty(held + chunk, NEWLINE);
}

/// How many lines of a log wait to be read.
pub fn queue_cap(env: &Vec<(String, String)>) -> (r: usize)
    ensures
        r == size_setting(setting_views(env@), "ORKA_OPS_QUEUE_CAP"@, 1024),
{
    read_size(env, "ORKA_OPS_QUEUE_CAP", 1024)
}
// ---------------------------------------------------------------------------
// Capabilities

/// A question to the cluster: may the user do this?
pub struct AccessQuery {
    pub group: Option<String>,
    pub resource: String,
    pub subresource: Option<String>,
    pub verb: String,
    pub namespace: Option<String>,
}

/// The model of an `AccessQuery`.
pub struct AccessView {
    pub group: Option<Seq<char>>,
    pub resource: Seq<char>,
    pub subresource: Option<Seq<char>>,
    pub verb: Seq<char>,
    pub namespace: Option<Seq<char>>,
}

impl View for AccessQuery {
    type V = AccessView;

    open spec fn view(&self) -> AccessView {
        AccessView {
            group: opt_text(self.group),
            resource: self.resource@,
            subresource: opt_text(self.subresource),
            verb: self.verb@,
            namespace: opt_text(self.namespace),
        }
    }
}

/// The models of a list of questions.
pub open spec fn access_views(v: Seq<AccessQuery>) -> Seq<AccessView> {
    v.map_values(|q: AccessQuery| q@)
}

/// A question about a resource; the core group has no name.
pub open spec fn access_of(
    ns: Option<Seq<char>>,
    group: Seq<char>,
    resource: Seq<char>,
    sub: Option<Seq<char>>,
    verb: Seq<char>,
) -> AccessView {
    AccessView {
        group: if group.len() == 0 {
            None
        } else {
            Some(group)
        },
        resource,
        subresource: sub,
        verb,
        namespace: ns,
    }
}

/// A question about a resource.
pub fn ssar_check(ns: Option<&str>, group: &str, resource: &str, sub: Option<&str>, verb: &str) -> (r: AccessQuery)
    ensures
        r@ == access_of(opt_str(ns), group@, resource@, opt_str(sub), verb@),
{
    AccessQuery {
        group: if group.is_empty() {
            None
        } else {
            Some(copy_text(group))
        },
        resource: copy_text(resource),
        subresource: owned(sub),
        verb: copy_text(verb),
        namespace: owned(ns),
    }
}

/// What is asked about pods and nodes; whether pods may be moved off is asked in a namespace
/// only.
pub open spec fn caps_questions_of(ns: Option<Seq<char>>) -> Seq<AccessView> {
    seq![
        access_of(ns, ""@, "pods"@, Some("log"@), "get"@),
        access_of(ns, ""@, "pods"@, Some("exec"@), "create"@),
        access_of(ns, ""@, "pods"@, Some("portforward"@), "create"@),
        access_of(None, ""@, "nodes"@, None, "patch"@),
    ] + (if ns is Some {
        seq![access_of(ns, "policy"@, "pods"@, Some("eviction"@), "create"@)]
    } else {
        Seq::empty()
    })
}

/// What is asked about pods and nodes.
pub fn caps_questions(namespace: Option<&str>) -> (r: Vec<AccessQuery>)
    ensures
        access_views(r@) == caps_questions_of(opt_str(namespace)),
{
    let mut v = vec![
        ssar_check(namespace, "", "pods", Some("log"), "get"),
        ssar_check(namespace, "", "pods", Some("exec"), "create"),
        ssar_check(namespace, "", "pods", Some("portforward"), "create"),
        ssar_check(None, "", "nodes", None, "patch"),
    ];
    if namespace.is_some() {
        v.push(ssar_check(namespace, "policy", "pods", Some("eviction"), "create"));
    }
    assert(access_views(v@) =~= caps_questions_of(opt_str(namespace)));
    v
}

/// What is asked about scaling a kind: through its scale, and through the kind itself.
pub fn scale_questions(namespaced: bool, namespace: Option<&str>, group: &str, plural: &str) -> (r: (
    AccessQuery,
    AccessQuery,
))
    ensures
        (r.0@, r.1@) == scale_asked(namespaced, opt_str(namespace), group@, plural@),
{
    let ns = if namespaced {
        namespace
    } else {
        None
    };
    (ssar_check(ns, group, plural, Some("scale"), "patch"), ssar_check(ns, group, plural, None, "patch"))
}

/// An answer: no where none came.
pub open spec fn allowed(a: Option<bool>) -> bool {
    a == Some(true)
}

fn is_allowed(a: Option<bool>) -> (r: bool)
    ensures
        r == allowed(a),
{
    match a {
        Some(b) => b,
        None => false,
    }
}

/// How a kind can be scaled, by the answers.
pub fn scale_caps(
    group: &str,
    version: &str,
    kind: &str,
    plural: &str,
    sub: Option<bool>,
    own: Option<bool>,
) -> (r: ScaleCaps)
    ensures
        r.gvk@ == group@ + "/"@ + version@ + "/"@ + kind@,
        r.resource@ == plural@,
        r.subresource_patch == allowed(sub),
        r.spec_replicas_patch == allowed(own),
{
    ScaleCaps {
        gvk: cat5(group, "/", version, "/", kind),
        resource: copy_text(plural),
        subresource_patch: is_allowed(sub),
        spec_replicas_patch: is_allowed(own),
    }
}

/// Whether the question for a right was answered by yes.
pub open spec fn granted(
    ns: Option<Seq<char>>,
    answers: Seq<Option<bool>>,
    resource: Seq<char>,
    sub: Option<Seq<char>>,
    verb: Seq<char>,
) -> bool {
    exists|i: int|
        {
            &&& 0 <= i < caps_questions_of(ns).len()
            &&& i < answers.len()
            &&& (#[trigger] caps_questions_of(ns)[i]).resource == resource
            &&& caps_questions_of(ns)[i].subresource == sub
            &&& caps_questions_of(ns)[i].verb == verb
            &&& answers[i] == Some(true)
        }
}

proof fn lemma_question_words()
    ensures
        "pods"@.len() == 4,
        "nodes"@.len() == 5,
        "log"@.len() == 3,
        "exec"@.len() == 4,
        "portforward"@.len() == 11,
        "eviction"@.len() == 8,
{
    reveal_strlit("pods");
    reveal_strlit("nodes");
    reveal_strlit("log");
    reveal_strlit("exec");
    reveal_strlit("portforward");
    reveal_strlit("eviction");
}

/// Each right is asked for once, in the namespace that was chosen but for nodes, which have
/// none; evictions belong to their own group and are asked for only in a namespace.
pub proof fn law_rights(ns: Option<Seq<char>>, answers: Seq<Option<bool>>)
    requires
        answers.len() == caps_questions_of(ns).len(),
    ensures
        answers[0] == Some(true) <==> granted(ns, answers, "pods"@, Some("log"@), "get"@),
        answers[1] == Some(true) <==> granted(ns, answers, "pods"@, Some("exec"@), "create"@),
        answers[2] == Some(true) <==> granted(ns, answers, "pods"@, Some("portforward"@), "create"@),
        answers[3] == Some(true) <==> granted(ns, answers, "nodes"@, None, "patch"@),
        ns is Some && answers[4] == Some(true) <==> granted(ns, answers, "pods"@, Some("eviction"@), "create"@),
        forall|i: int|
            0 <= i < answers.len() ==> {
                let q = #[trigger] caps_questions_of(ns)[i];
                &&& q.namespace == if q.resource == "nodes"@ {
                    None
                } else {
                    ns
                }
                &&& q.group == if q.subresource == Some("eviction"@) {
                    Some("policy"@)
                } else {
                    None
                }
            },
{
    lemma_question_words();
    reveal_strlit("");
    reveal_strlit("policy");
    let q = caps_questions_of(ns);
    assert(""@.len() == 0 && "policy"@.len() == 6);
    assert(q[0] == access_of(ns, ""@, "pods"@, Some("log"@), "get"@));
    assert(q[1] == access_of(ns, ""@, "pods"@, Some("exec"@), "create"@));
    assert(q[2] == access_of(ns, ""@, "pods"@, Some("portforward"@), "create"@));
    assert(q[3] == access_of(None, ""@, "nodes"@, None, "patch"@));
    if ns is Some {
        assert(q[4] == access_of(ns, "policy"@, "pods"@, Some("eviction"@), "create"@));
    }
}

/// What the user may do, by the answers to the questions about pods and nodes.
pub fn caps_from(namespace: Option<&str>, answers: &Vec<Option<bool>>, scale: Option<ScaleCaps>) -> (r: OpsCaps)
    requires
        answers@.len() == caps_questions_of(opt_str(namespace)).len(),
    ensures
        opt_text(r.namespace) == opt_str(namespace),
        r.pods_log_get == allowed(answers@[0]),
        r.pods_exec_create == allowed(answers@[1]),
        r.pods_portforward_create == allowed(answers@[2]),
        r.nodes_patch == allowed(answers@[3]),
        r.pods_eviction_create == if namespace is Some {
            Some(allowed(answers@[4]))
        } else {
            None
        },
        r.scale == scale,
        r.pods_log_get <==> granted(opt_str(namespace), answers@, "pods"@, Some("log"@), "get"@),
        r.pods_exec_create <==> granted(opt_str(namespace), answers@, "pods"@, Some("exec"@), "create"@),
        r.pods_portforward_create <==> granted(
            opt_str(namespace),
            answers@,
            "pods"@,
            Some("portforward"@),
            "create"@,
        ),
        r.nodes_patch <==> granted(opt_str(namespace), answers@, "nodes"@, None, "patch"@),
        r.pods_eviction_create == Some(true) <==> granted(
            opt_str(namespace),
            answers@,
            "pods"@,
            Some("eviction"@),
            "create"@,
        ),
{
    proof {
        law_rights(opt_str(namespace), answers@);
    }
    OpsCaps {
        namespace: owned(namespace),
        pods_log_get: is_allowed(answers[0]),
        pods_exec_create: is_allowed(answers[1]),
        pods_portforward_create: is_allowed(answers[2]),
        nodes_patch: is_allowed(answers[3]),
        pods_eviction_create: if namespace.is_some() {
            Some(is_allowed(answers[4]))
        } else {
            None
        },
        scale,
    }
}

// ---------------------------------------------------------------------------
// What is asked of the cluster

/// Why an operation cannot be asked for.
pub enum OpsError {
    BadKey(String),
    NotFound { group: String, version: String, kind: String },
    NamespaceRequired,
    LogsNamespace,
    ExecNamespace,
    ForwardNamespace,
    DrainTimeout(Vec<String>),
}

/// What is said where an operation cannot be asked for.
pub open spec fn ops_error_text(e: OpsError) -> Seq<char> {
    match e {
        OpsError::BadKey(s) => s@,
        OpsError::NotFound { group, version, kind } => "GVK not found: "@ + group@ + "/"@ + version@ + "/"@ + kind@,
        OpsError::NamespaceRequired => "namespace required for namespaced kind"@,
        OpsError::LogsNamespace => "namespace is required for pod logs"@,
        OpsError::ExecNamespace => "namespace is required for exec"@,
        OpsError::ForwardNamespace => "namespace is required for port-forward"@,
        OpsError::DrainTimeout(v) => "drain timeout; remaining: "@ + join(texts(v@), ", "@),
    }
}

impl OpsError {
    /// What is said of the error.
    pub fn text(&self) -> (r: String)
        ensures
            r@ == ops_error_text(*self),
    {
        match self {
            OpsError::BadKey(s) => s.clone(),
            OpsError::NotFound { group, version, kind } => {
                let mut t = cat5("GVK not found: ", group.as_str(), "/", version.as_str(), "/");
                t.append(kind.as_str());
                t
            },
            OpsError::NamespaceRequired => copy_text("namespace required for namespaced kind"),
            OpsError::LogsNamespace => copy_text("namespace is required for pod logs"),
            OpsError::ExecNamespace => copy_text("namespace is required for exec"),
            OpsError::ForwardNamespace => copy_text("namespace is required for port-forward"),
            OpsError::DrainTimeout(v) => {
                let t = join_text(v, ", ");
                cat2("drain timeout; remaining: ", t.as_str())
            },
        }
    }
}

/// Where a workload is: the place of its kind among those that the cluster serves, and its
/// namespace where the kind has namespaces.
pub fn locate_workload(kinds: &Vec<DiscoveredResource>, gvk_key: &str, namespace: Option<&str>) -> (r: Result<
    (usize, Option<String>),
    OpsError,
>)
    ensures
        workload_located(kinds@, gvk_key@, opt_str(namespace), r),
{
    match parse_gvk_key(gvk_key) {
        Err(e) => Err(OpsError::BadKey(e)),
        Ok((group, version, kind)) => match find_kind(kinds, group.as_str(), version.as_str(), kind.as_str()) {
            None => Err(OpsError::NotFound { group, version, kind }),
            Some(i) => {
                if !kinds[i].namespaced {
                    Ok((i, None))
                } else {
                    match namespace {
                        None => Err(OpsError::NamespaceRequired),
                        Some(n) => Ok((i, Some(copy_text(n)))),
                    }
                }
            },
        },
    }
}

/// The streams of a session: with a terminal, all but the errors, which come with the
/// output; without one, the output and the errors.
#[derive(Debug, Clone, Copy, PartialEq, Eq, Structural)]
pub struct Streams {
    pub stdin: bool,
    pub stdout: bool,
    pub stderr: bool,
    pub tty: bool,
}

/// The streams of a session.
pub open spec fn streams_of(pty: bool) -> Streams {
    Streams { stdin: pty, stdout: true, stderr: !pty, tty: pty }
}

/// A session always brings output. One with a terminal takes input and has no errors of their
/// own, which a terminal does not part from the output.
pub proof fn law_session_streams(pty: bool)
    ensures
        streams_of(pty).stdout,
        streams_of(pty).tty <==> pty,
        streams_of(pty).stdin <==> pty,
        streams_of(pty).tty ==> !streams_of(pty).stderr,
        !streams_of(pty).tty ==> streams_of(pty).stderr,
{
}

/// The streams of a session.
pub fn session_streams(pty: bool) -> (r: Streams)
    ensures
        r == streams_of(pty),
{
    Streams { stdin: pty, stdout: true, stderr: !pty, tty: pty }
}

/// How a workload is scaled: through its scale, or through the workload itself.
#[derive(Debug, Clone, Copy, PartialEq, Eq, Structural)]
pub enum ScaleStep {
    Subresource,
    Workload,
    Done,
}

/// How a scale begins.
pub open spec fn scale_start(use_subresource: bool) -> ScaleStep {
    if use_subresource {
        ScaleStep::Subresource
    } else {
        ScaleStep::Workload
    }
}

/// How a scale goes on.
pub open spec fn scale_after(step: ScaleStep, ok: bool) -> ScaleStep {
    if step == ScaleStep::Subresource && !ok {
        ScaleStep::Workload
    } else {
        ScaleStep::Done
    }
}

/// A scale goes to the workload itself where it is asked to, or where the subresource refused;
/// it never goes there after the subresource took it, nor twice.
pub proof fn law_scale_steps(ok: bool)
    ensures
        scale_start(true) is Subresource,
        scale_start(false) is Workload,
        scale_after(ScaleStep::Subresource, ok) is Workload <==> !ok,
        scale_after(ScaleStep::Subresource, ok) is Done <==> ok,
        scale_after(ScaleStep::Workload, ok) is Done,
{
}

/// The first step of scaling a workload.
pub fn scale_first(use_subresource: bool) -> (r: ScaleStep)
    ensures
        r == scale_start(use_subresource),
{
    if use_subresource {
        ScaleStep::Subresource
    } else {
        ScaleStep::Workload
    }
}

/// The step after a step: where its scale cannot be changed, the workload itself is.
pub fn scale_next(step: ScaleStep, ok: bool) -> (r: ScaleStep)
    ensures
        r == scale_after(step, ok),
{
    match step {
        ScaleStep::Subresource => if ok {
            ScaleStep::Done
        } else {
            ScaleStep::Workload
        },
        _ => ScaleStep::Done,
    }
}

/// An object with one member.
pub open spec fn one(name: Seq<char>, v: JsonView) -> JsonView {
    JsonView::Object(seq![(name, v)])
}

fn single(name: &str, v: Json) -> (r: Json)
    ensures
        r@ == one(name@, v@),
{
    broadcast use lemma_object_view;

    let m = vec![(copy_text(name), v)];
    assert(member_views(m@) =~= seq![(name@, v@)]);
    Json::Object(m)
}

/// A number as JSON.
pub open spec fn number_of(n: int) -> NumView {
    if n >= 0 {
        NumView::Pos(n as u64)
    } else {
        NumView::Neg(n as i64)
    }
}

/// The change that sets a number of replicas.
pub open spec fn scale_change(n: int) -> JsonView {
    one("spec"@, one("replicas"@, JsonView::Number(number_of(n))))
}

/// The change that restarts a workload: its pods are marked with a time.
pub open spec fn restart_change(ts: Seq<char>) -> JsonView {
    one(
        "spec"@,
        one(
            "template"@,
            one(
                "metadata"@,
                one("annotations"@, one("kubectl.kubernetes.io/restartedAt"@, JsonView::Str(ts))),
            ),
        ),
    )
}

/// The change that closes a node for new pods, or opens it.
pub open spec fn cordon_change(on: bool) -> JsonView {
    one("spec"@, one("unschedulable"@, JsonView::Bool(on)))
}

proof fn lemma_one(name: Seq<char>, v: JsonView, other: Seq<char>)
    ensures
        one(name, v).get(name) == Some(v),
        other != name ==> one(name, v).get(other) is None,
{
    let m = seq![(name, v)];
    assert(m[0] == (name, v));
    assert(crate::json::lookup(m.skip(1), other) is None);
}

/// A scale sets the number of replicas that was asked for, and touches nothing else.
pub proof fn law_scale_sets_replicas(n: int, other: Seq<char>)
    requires
        i32::MIN <= n <= i32::MAX,
    ensures
        scale_change(n).int_of2("spec"@, "replicas"@) == Some(n),
        other != "spec"@ ==> scale_change(n).get(other) is None,
        other != "replicas"@ ==> scale_change(n).get2("spec"@, other) is None,
{
    let inner = one("replicas"@, JsonView::Number(number_of(n)));
    lemma_one("spec"@, inner, other);
    lemma_one("replicas"@, JsonView::Number(number_of(n)), other);
}

/// A restart marks the pods of a workload with its time, and touches nothing else of it.
pub proof fn law_restart_marks_pods(ts: Seq<char>, other: Seq<char>)
    ensures
        restart_change(ts).get4("spec"@, "template"@, "metadata"@, "annotations"@) matches Some(a) && a.str_of(
            "kubectl.kubernetes.io/restartedAt"@,
        ) == Some(ts) && (other != "kubectl.kubernetes.io/restartedAt"@ ==> a.get(other) is None),
        other != "spec"@ ==> restart_change(ts).get(other) is None,
        other != "template"@ ==> restart_change(ts).get2("spec"@, other) is None,
        other != "metadata"@ ==> restart_change(ts).get3("spec"@, "template"@, other) is None,
{
    let a = one("kubectl.kubernetes.io/restartedAt"@, JsonView::Str(ts));
    let b = one("annotations"@, a);
    let c = one("metadata"@, b);
    let d = one("template"@, c);
    lemma_one("kubectl.kubernetes.io/restartedAt"@, JsonView::Str(ts), other);
    lemma_one("annotations"@, a, other);
    lemma_one("metadata"@, b, other);
    lemma_one("template"@, c, other);
    lemma_one("spec"@, d, other);
}

/// A node that is cordoned takes no new pods, and one that is uncordoned does; nothing else of
/// it changes.
pub proof fn law_cordon_closes(on: bool, other: Seq<char>)
    ensures
        cordon_change(on).get2("spec"@, "unschedulable"@) == Some(JsonView::Bool(on)),
        other != "spec"@ ==> cordon_change(on).get(other) is None,
        other != "unschedulable"@ ==> cordon_change(on).get2("spec"@, other) is None,
{
    let inner = one("unschedulable"@, JsonView::Bool(on));
    lemma_one("spec"@, inner, other);
    lemma_one("unschedulable"@, JsonView::Bool(on), other);
}

/// The change that scales a workload.
pub fn scale_patch(replicas: i32) -> (r: Json)
    ensures
        r@ == scale_change(replicas as int),
{
    let n = if replicas >= 0 {
        Num::Pos(replicas as u64)
    } else {
        Num::Neg(replicas as i64)
    };
    single("spec", single("replicas", Json::Number(n)))
}

/// The change that restarts a workload: the time stands in an annotation of its pods.
pub fn restart_patch(ts: &str) -> (r: Json)
    ensures
        r@ == restart_change(ts@),
{
    let at = single("kubectl.kubernetes.io/restartedAt", Json::Str(copy_text(ts)));
    single("spec", single("template", single("metadata", single("annotations", at))))
}

/// The change that closes a node for new pods, or opens it again.
pub fn cordon_patch(on: bool) -> (r: Json)
    ensures
        r@ == cordon_change(on),
{
    single("spec", single("unschedulable", Json::Bool(on)))
}

/// The seconds that a pod has to stop, as the cluster takes them: in four bytes.
pub fn grace_period(seconds: Option<i64>) -> (r: Option<u32>)
    ensures
        r == (match seconds {
            Some(s) => Some((s as int % 0x1_0000_0000) as u32),
            None => None,
        }),
{
    match seconds {
        None => None,
        Some(s) => {
            if s >= 0 {
                Some((s % 0x1_0000_0000) as u32)
            } else {
                let t: i128 = s as i128 + 0x1_0000_0000_0000_0000;
                assert(t as int % 0x1_0000_0000 == s as int % 0x1_0000_0000);
                Some((t % 0x1_0000_0000) as u32)
            }
        },
    }
}

// ---------------------------------------------------------------------------
// Draining a node

/// A pod on a node that is to be drained.
pub struct DrainPod {
    pub namespace: Option<String>,
    pub name: Option<String>,
    pub owner_kinds: Vec<String>,
    pub annotations: Vec<String>,
}

/// A namespace and a name, where a pod is to be moved off: it has both, no daemon set owns
/// it, and it does not mirror a file of the node.
pub open spec fn target_pod(p: DrainPod) -> Option<(Seq<char>, Seq<char>)> {
    if p.namespace is None || p.name is None || texts(p.owner_kinds@).contains("DaemonSet"@) || texts(
        p.annotations@,
    ).contains("kubernetes.io/config.mirror"@) {
        None
    } else {
        Some((p.namespace->0@, p.name->0@))
    }
}

/// The namespaces and names of a list.
pub open spec fn names_of(v: Seq<(String, String)>) -> Seq<(Seq<char>, Seq<char>)> {
    v.map_values(|p: (String, String)| (p.0@, p.1@))
}

/// The pods that are to be moved off, each once.
pub open spec fn target_pods(pods: Seq<DrainPod>) -> Seq<(Seq<char>, Seq<char>)>
    decreases pods.len(),
{
    if pods.len() == 0 {
        Seq::empty()
    } else {
        let rest = target_pods(pods.drop_last());
        match target_pod(pods.last()) {
            Some(t) => if rest.contains(t) {
                rest
            } else {
                rest.push(t)
            },
            None => rest,
        }
    }
}

fn has_pair(v: &Vec<(String, String)>, ns: &str, name: &str) -> (r: bool)
    ensures
        r == names_of(v@).contains((ns@, name@)),
{
    let mut i: usize = 0;
    while i < v.len()
        invariant
            i <= v.len(),
            forall|k: int| 0 <= k < i ==> #[trigger] names_of(v@)[k] != (ns@, name@),
        decreases v.len() - i,
    {
        assert(names_of(v@)[i as int] == (v@[i as int].0@, v@[i as int].1@));
        if same_text(v[i].0.as_str(), ns) && same_text(v[i].1.as_str(), name) {
            return true;
        }
        i += 1;
    }
    false
}

/// The pods that are to be moved off, each once.
pub fn drain_targets(pods: &Vec<DrainPod>) -> (r: Vec<(String, String)>)
    ensures
        names_of(r@) == target_pods(pods@),
        names_of(r@).no_duplicates(),
        forall|ns: Seq<char>, name: Seq<char>| #[trigger]
            names_of(r@).contains((ns, name)) <==> exists|i: int|
                {
                    &&& 0 <= i < pods@.len()
                    &&& opt_text((#[trigger] pods@[i]).namespace) == Some(ns)
                    &&& opt_text(pods@[i].name) == Some(name)
                    &&& !texts(pods@[i].owner_kinds@).contains("DaemonSet"@)
                    &&& !texts(pods@[i].annotations@).contains("kubernetes.io/config.mirror"@)
                },
{
    let mut out: Vec<(String, String)> = Vec::new();
    let mut i: usize = 0;
    assert(pods@.take(0) =~= Seq::empty());
    assert(names_of(out@) =~= Seq::empty());
    while i < pods.len()
        invariant
            i <= pods.len(),
            names_of(out@) == target_pods(pods@.take(i as int)),
        decreases pods.len() - i,
    {
        let p = &pods[i];
        assert(pods@.take(i + 1).drop_last() =~= pods@.take(i as int));
        assert(pods@.take(i + 1).last() == *p);
        let ghost before = names_of(out@);
        let skip = contains_string(&p.owner_kinds, "DaemonSet") || contains_string(
            &p.annotations,
            "kubernetes.io/config.mirror",
        );
        if !skip {
            if let (Some(ns), Some(name)) = (&p.namespace, &p.name) {
                if !has_pair(&out, ns.as_str(), name.as_str()) {
                    out.push((ns.clone(), name.clone()));
                    assert(names_of(out@) =~= before.push((ns@, name@)));
                }
            }
        }
        i += 1;
    }
    assert(pods@.take(pods@.len() as int) =~= pods@);
    proof {
        assert forall|ns: Seq<char>, name: Seq<char>| #[trigger]
            names_of(out@).contains((ns, name)) <==> exists|i: int|
                {
                    &&& 0 <= i < pods@.len()
                    &&& opt_text((#[trigger] pods@[i]).namespace) == Some(ns)
                    &&& opt_text(pods@[i].name) == Some(name)
                    &&& !texts(pods@[i].owner_kinds@).contains("DaemonSet"@)
                    &&& !texts(pods@[i].annotations@).contains("kubernetes.io/config.mirror"@)
                } by {
            law_drain_evicts(pods@, ns, name);
        }
        law_drain_evicts(pods@, Seq::empty(), Seq::empty());
    }
    out
}

/// What a drain does after it has seen which pods are left.
pub enum DrainStep {
    Done,
    Evict(Vec<(String, String)>),
    Failed(OpsError),
}

/// The pods that are left, as they are told.
pub open spec fn left_texts(v: Seq<(Seq<char>, Seq<char>)>) -> Seq<Seq<char>> {
    v.map_values(|p: (Seq<char>, Seq<char>)| p.0 + "/"@ + p.1)
}

/// After a drain has seen which pods are left: it is done where there are none, fails where
/// its time is over, and else asks for them to be moved off once more.
pub fn drain_step(pods: &Vec<DrainPod>, late: bool) -> (r: DrainStep)
    ensures
        ({
            let left = target_pods(pods@);
            if left.len() == 0 {
                r is Done
            } else if late {
                r matches DrainStep::Failed(OpsError::DrainTimeout(v)) && texts(v@) == left_texts(left)
            } else {
                r matches DrainStep::Evict(v) && names_of(v@) == left
            }
        }),
        r is Done <==> forall|i: int|
            0 <= i < pods@.len() ==> {
                ||| (#[trigger] pods@[i]).namespace is None
                ||| pods@[i].name is None
                ||| texts(pods@[i].owner_kinds@).contains("DaemonSet"@)
                ||| texts(pods@[i].annotations@).contains("kubernetes.io/config.mirror"@)
            },
{
    proof {
        law_drain_ends(pods@);
    }
    let left = drain_targets(pods);
    assert(names_of(left@).len() == left@.len());
    if left.len() == 0 {
        DrainStep::Done
    } else if late {
        let ghost all = left_texts(names_of(left@));
        let mut out: Vec<String> = Vec::new();
        let mut i: usize = 0;
        assert(texts(out@) =~= all.take(0));
        while i < left.len()
            invariant
                i <= left.len(),
                all == left_texts(names_of(left@)),
                texts(out@) == all.take(i as int),
            decreases left.len() - i,
        {
            let ghost before = texts(out@);
            out.push(cat3(left[i].0.as_str(), "/", left[i].1.as_str()));
            assert(names_of(left@)[i as int] == (left@[i as int].0@, left@[i as int].1@));
            assert(texts(out@) =~= before.push(all[i as int]));
            assert(texts(out@) =~= all.take(i + 1));
            i += 1;
        }
        assert(all.take(all.len() as int) =~= all);
        DrainStep::Failed(OpsError::DrainTimeout(out))
    } else {
        DrainStep::Evict(left)
    }
}

/// No pod of a daemon set, and none that mirrors a file of the node, is moved off.
pub proof fn law_drain_spares(pods: Seq<DrainPod>, t: (Seq<char>, Seq<char>))
    ensures
        target_pods(pods).contains(t) <==> exists|i: int|
            0 <= i < pods.len() && target_pod(#[trigger] pods[i]) == Some(t),
    decreases pods.len(),
{
    if pods.len() > 0 {
        let front = pods.drop_last();
        law_drain_spares(front, t);
        let rest = target_pods(front);
        assert(forall|i: int| 0 <= i < front.len() ==> #[trigger] front[i] == pods[i]);
        if target_pods(pods).contains(t) && !rest.contains(t) {
            assert(target_pod(pods[pods.len() - 1]) == Some(t));
        }
        if rest.contains(t) {
            let j = choose|j: int| 0 <= j < rest.len() && rest[j] == t;
            assert(target_pods(pods)[j] == t);
            let i = choose|i: int| 0 <= i < front.len() && target_pod(#[trigger] front[i]) == Some(t);
            assert(target_pod(pods[i]) == Some(t));
        }
        if exists|i: int| 0 <= i < pods.len() && target_pod(#[trigger] pods[i]) == Some(t) {
            let i = choose|i: int| 0 <= i < pods.len() && target_pod(#[trigger] pods[i]) == Some(t);
            if i < front.len() {
                assert(target_pod(front[i]) == Some(t));
            } else if !rest.contains(t) {
                assert(target_pods(pods).last() == t);
            }
        }
    }
}

/// A drain evicts a pod where some pod of its namespace and name is neither one that a daemon
/// set owns nor the mirror of one that the node keeps itself; and it evicts it once.
pub proof fn law_drain_evicts(pods: Seq<DrainPod>, ns: Seq<char>, name: Seq<char>)
    ensures
        target_pods(pods).no_duplicates(),
        target_pods(pods).contains((ns, name)) <==> exists|i: int|
            {
                &&& 0 <= i < pods.len()
                &&& opt_text((#[trigger] pods[i]).namespace) == Some(ns)
                &&& opt_text(pods[i].name) == Some(name)
                &&& !texts(pods[i].owner_kinds@).contains("DaemonSet"@)
                &&& !texts(pods[i].annotations@).contains("kubernetes.io/config.mirror"@)
            },
    decreases pods.len(),
{
    let t = (ns, name);
    law_drain_spares(pods, t);
    assert forall|i: int| 0 <= i < pods.len() implies (target_pod(#[trigger] pods[i]) == Some(t) <==> {
        &&& opt_text(pods[i].namespace) == Some(ns)
        &&& opt_text(pods[i].name) == Some(name)
        &&& !texts(pods[i].owner_kinds@).contains("DaemonSet"@)
        &&& !texts(pods[i].annotations@).contains("kubernetes.io/config.mirror"@)
    }) by {
    }
    if pods.len() > 0 {
        law_drain_evicts(pods.drop_last(), ns, name);
    }
}

/// A drain has nobody left to evict where every pod with a namespace and a name is one of a
/// daemon set or a mirror.
pub proof fn law_drain_ends(pods: Seq<DrainPod>)
    ensures
        target_pods(pods).len() == 0 <==> forall|i: int|
            0 <= i < pods.len() ==> {
                ||| (#[trigger] pods[i]).namespace is None
                ||| pods[i].name is None
                ||| texts(pods[i].owner_kinds@).contains("DaemonSet"@)
                ||| texts(pods[i].annotations@).contains("kubernetes.io/config.mirror"@)
            },
{
    if target_pods(pods).len() > 0 {
        let t = target_pods(pods)[0];
        assert(target_pods(pods).contains(t));
        law_drain_evicts(pods, t.0, t.1);
    }
    assert forall|i: int| 0 <= i < pods.len() && target_pods(pods).len() == 0 implies {
        ||| (#[trigger] pods[i]).namespace is None
        ||| pods[i].name is None
        ||| texts(pods[i].owner_kinds@).contains("DaemonSet"@)
        ||| texts(pods[i].annotations@).contains("kubernetes.io/config.mirror"@)
    } by {
        if pods[i].namespace is Some && pods[i].name is Some {
            law_drain_evicts(pods, pods[i].namespace->0@, pods[i].name->0@);
        }
    }
}

/// The pods of a node, as they are asked for.
pub fn node_selector(node: &str) -> (r: String)
    ensures
        r@ == "spec.nodeName="@ + node@,
{
    cat2("spec.nodeName=", node)
}

/// How many seconds a drain takes at most, and how many it waits between two looks.
pub fn drain_times(env: &Vec<(String, String)>) -> (r: (u64, u64))
    ensures
        r.0 == number_setting(setting_views(env@), "ORKA_DRAIN_TIMEOUT_SECS"@, 300),
        r.1 == number_setting(setting_views(env@), "ORKA_DRAIN_POLL_SECS"@, 2),
{
    (read_number(env, "ORKA_DRAIN_TIMEOUT_SECS", 300), read_number(env, "ORKA_DRAIN_POLL_SECS", 2))
}

// ---------------------------------------------------------------------------
// Forwarding a port

/// The address that a forward listens at.
pub fn bind_address(env: &Vec<(String, String)>) -> (r: String)
    ensures
        r@ == text_setting(setting_views(env@), "ORKA_PF_BIND"@, "127.0.0.1"@),
{
    read_text(env, "ORKA_PF_BIND", "127.0.0.1")
}

/// What happens to a forward.
pub enum ForwardInput {
    Cancelled,
    Accepted(String),
    NoStream,
    Refused(String),
}

/// What a forward tells, and whether it is over. One connection after the other is taken;
/// a connection without a stream is told and passed over.
pub fn forward_step(input: ForwardInput) -> (r: (ForwardEvent, bool))
    ensures
        forward_stepped(input, r),
{
    match input {
        ForwardInput::Cancelled => (ForwardEvent::Closed, true),
        ForwardInput::Accepted(peer) => (ForwardEvent::Connected(peer), false),
        ForwardInput::NoStream => (ForwardEvent::Error(copy_text("pf stream missing")), false),
        ForwardInput::Refused(error) => (ForwardEvent::Error(cat2("accept error: ", error.as_str())), true),
    }
}

/// Whether what happened to a forward was told, and whether it ends there.
pub open spec fn forward_stepped(input: ForwardInput, r: (ForwardEvent, bool)) -> bool {
    match input {
        ForwardInput::Cancelled => r.0 is Closed && r.1,
        ForwardInput::Accepted(peer) => (r.0 matches ForwardEvent::Connected(p) && p@ == peer@) && !r.1,
        ForwardInput::NoStream => (r.0 matches ForwardEvent::Error(e) && e@ == "pf stream missing"@) && !r.1,
        ForwardInput::Refused(error) => (r.0 matches ForwardEvent::Error(e) && e@ == "accept error: "@ + error@) && r.1,
    }
}

/// A forward ends where it is cancelled or can accept no more, and only there; a connection
/// without a stream is told as an error, and the others go on.
pub proof fn law_forward_stepped(input: ForwardInput, r: (ForwardEvent, bool))
    requires
        forward_stepped(input, r),
    ensures
        r.1 <==> input is Cancelled || input is Refused,
        r.0 is Closed <==> input is Cancelled,
        r.0 is Connected <==> input is Accepted,
        r.0 is Error <==> input is NoStream || input is Refused,
        input matches ForwardInput::Accepted(peer) ==> r.0->Connected_0@ == peer@,
{
}

/// Only an answer that allows something allows it: a denial does not, nor no answer.
pub proof fn law_allowed(a: Option<bool>)
    ensures
        allowed(a) <==> a is Some && a->0,
{
}

/// A right is asked for in the words of the cluster: the core group has no name, and every other
/// part is as it was given.
pub proof fn law_access(ns: Option<Seq<char>>, group: Seq<char>, resource: Seq<char>, sub: Option<Seq<char>>, verb: Seq<char>)
    ensures
        ({
            let a = access_of(ns, group, resource, sub, verb);
            &&& a.resource == resource && a.verb == verb && a.subresource == sub && a.namespace == ns
            &&& group.len() == 0 ==> a.group is None
            &&& group.len() > 0 ==> a.group == Some(group)
        }),
{
}

/// What is asked about scaling a kind.
pub open spec fn scale_asked(namespaced: bool, namespace: Option<Seq<char>>, group: Seq<char>, plural: Seq<char>) -> (
    AccessView,
    AccessView,
) {
    let ns = if namespaced {
        namespace
    } else {
        None
    };
    (access_of(ns, group, plural, Some("scale"@), "patch"@), access_of(ns, group, plural, None, "patch"@))
}

/// A kind is asked about by its own group and name, first whether its scale may be patched and
/// then whether it may itself; in a namespace only where it has one.
pub proof fn law_scale_asked(ns: Seq<char>, group: Seq<char>, plural: Seq<char>)
    requires
        group.len() > 0,
    ensures
        ({
            let (a, b) = scale_asked(true, Some(ns), group, plural);
            let c = scale_asked(false, Some(ns), group, plural).0;
            &&& a.verb == "patch"@ && b.verb == "patch"@
            &&& a.resource == plural && b.resource == plural
            &&& a.group == Some(group) && b.group == Some(group)
            &&& a.subresource == Some("scale"@) && b.subresource is None
            &&& a.namespace == Some(ns) && b.namespace == Some(ns) && c.namespace is None
        }),
{
}

/// Where a workload is changed.
pub open spec fn workload_located(
    kinds: Seq<DiscoveredResource>,
    key: Seq<char>,
    namespace: Option<Seq<char>>,
    r: Result<(usize, Option<String>), OpsError>,
) -> bool {
    match key_parts(key) {
        None => r matches Err(OpsError::BadKey(s)) && s@ == bad_key_text(key),
        Some((g, v, k)) => match kind_place(kinds, g, v, k) {
            None => r matches Err(OpsError::NotFound { group, version, kind }) && group@ == g && version@ == v && kind@ == k,
            Some(i) => if !kinds[i].namespaced {
                r matches Ok((j, ns)) && j == i && ns is None
            } else if namespace is None {
                r matches Err(OpsError::NamespaceRequired)
            } else {
                r matches Ok((j, ns)) && j == i && opt_text(ns) == namespace
            },
        },
    }
}

/// A workload is changed in the namespace that was given, where its kind has namespaces, and
/// refused without one; a key that names no kind is refused.
pub proof fn law_workload_located(
    kinds: Seq<DiscoveredResource>,
    key: Seq<char>,
    namespace: Option<Seq<char>>,
    r: Result<(usize, Option<String>), OpsError>,
    g: Seq<char>,
    v: Seq<char>,
    k: Seq<char>,
)
    requires
        workload_located(kinds, key, namespace, r),
    ensures
        key_parts(key) is None ==> r is Err && r->Err_0 is BadKey,
        key_parts(key) == Some((g, v, k)) && kind_place(kinds, g, v, k) is None ==> r is Err && r->Err_0 is NotFound,
        key_parts(key) == Some((g, v, k)) && r is Ok ==> kind_place(kinds, g, v, k) == Some((r->Ok_0).0 as int),
        r matches Ok(p) ==> (kinds[p.0 as int].namespaced ==> namespace is Some && opt_text(p.1) == namespace),
        r matches Ok(p) ==> (!kinds[p.0 as int].namespaced ==> p.1 is None),
{
}

} // verus!
