//! The manifests that were applied last, in a log that only grows.
//!
//! A record is the time (8 bytes), the identity (16), the length of the version (4), the
//! length of the manifest (4), the version and the manifest. Numbers have their least byte
//! first.
use crate::codec::{lossy_text, text_in, zstd_pack, zstd_packed, zstd_unpack, zstd_unpacked};
use crate::settings::{read_setting, setting, setting_views};
use crate::text::{cat2, cat3, copy_text, parse_i32, signed_value, to_bytes};
use crate::types::{key_of, lemma_uid_key_injective, uid_key, Uid};
use std::collections::HashMap;
use vstd::prelude::*;
use vstd::string::*;
use vstd::utf8::{encode_utf8, encode_utf8_decode_utf8, encode_utf8_valid_utf8};

verus! {

broadcast use {vstd::std_specs::hash::group_hash_axioms};

/// A manifest that was applied: to what, at which version and time, and its packed text.
#[derive(Debug)]
pub struct LastApplied {
    pub uid: Uid,
    pub rv: String,
    pub ts: i64,
    pub yaml_zstd: Vec<u8>,
}

/// The model of a `LastApplied`.
pub struct RecordView {
    pub uid: Seq<u8>,
    pub rv: Seq<char>,
    pub ts: i64,
    pub yaml: Seq<u8>,
}

impl View for LastApplied {
    type V = RecordView;

    open spec fn view(&self) -> RecordView {
        RecordView { uid: self.uid@, rv: self.rv@, ts: self.ts, yaml: self.yaml_zstd@ }
    }
}

/// The models of a list of records.
pub open spec fn record_views(v: Seq<LastApplied>) -> Seq<RecordView> {
    v.map_values(|r: LastApplied| r@)
}

// ---------------------------------------------------------------------------
// Numbers as bytes

/// The lowest bytes of a number, the least one first.
pub open spec fn le_bytes(n: nat, count: nat) -> Seq<u8>
    decreases count,
{
    if count == 0 {
        Seq::empty()
    } else {
        seq![(n % 256) as u8] + le_bytes(n / 256, (count - 1) as nat)
    }
}

/// The number of bytes with the least one first.
pub open spec fn le_value(s: Seq<u8>) -> nat
    decreases s.len(),
{
    if s.len() == 0 {
        0
    } else {
        s[0] as nat + 256 * le_value(s.skip(1))
    }
}

/// One more than the greatest number of so many bytes.
pub open spec fn byte_limit(count: nat) -> nat
    decreases count,
{
    if count == 0 {
        1
    } else {
        256 * byte_limit((count - 1) as nat)
    }
}

/// A number that fits its bytes is read back from them.
pub proof fn law_number_bytes(n: nat, count: nat)
    ensures
        le_bytes(n, count).len() == count,
        n < byte_limit(count) ==> le_value(le_bytes(n, count)) == n,
    decreases count,
{
    if count > 0 {
        law_number_bytes(n / 256, (count - 1) as nat);
        let rest = le_bytes(n / 256, (count - 1) as nat);
        assert(le_bytes(n, count).skip(1) =~= rest);
    }
}

proof fn lemma_le_bound(s: Seq<u8>)
    ensures
        le_value(s) < byte_limit(s.len()),
    decreases s.len(),
{
    if s.len() > 0 {
        lemma_le_bound(s.skip(1));
    }
}

proof fn lemma_limits()
    ensures
        byte_limit(4) == 0x1_0000_0000,
        byte_limit(8) == 0x1_0000_0000_0000_0000,
{
    reveal_with_fuel(byte_limit, 9);
}

fn push_number(out: &mut Vec<u8>, n: u64, count: usize)
    ensures
        final(out)@ == old(out)@ + le_bytes(n as nat, count as nat),
{
    let ghost start = out@;
    let mut left: u64 = n;
    let mut i: usize = 0;
    assert(start + le_bytes(n as nat, count as nat) =~= start + le_bytes(n as nat, count as nat));
    while i < count
        invariant
            i <= count,
            start + le_bytes(n as nat, count as nat) == out@ + le_bytes(left as nat, (count - i) as nat),
        decreases count - i,
    {
        let ghost before = out@;
        let ghost rest = le_bytes(left as nat / 256, (count - i - 1) as nat);
        out.push((left % 256) as u8);
        assert(before + (seq![(left as nat % 256) as u8] + rest) =~= out@ + rest);
        left = left / 256;
        i += 1;
    }
    assert(out@ + le_bytes(left as nat, 0) =~= out@);
}

fn number_at(log: &[u8], at: usize, count: usize) -> (r: u64)
    requires
        at + count <= log@.len(),
        count <= 8,
    ensures
        r == le_value(log@.subrange(at as int, at + count)),
    decreases count,
{
    proof {
        lemma_limits();
    }
    if count == 0 {
        return 0;
    }
    let n: usize = log.len();
    assert(at < n);
    let rest: u64 = number_at(log, at + 1, count - 1);
    let ghost s = log@.subrange(at as int, at + count);
    proof {
        assert(s.skip(1) =~= log@.subrange(at + 1, at + count));
        lemma_le_bound(s);
        lemma_limit_grows(count as nat, 8);
    }
    rest * 256 + log[at] as u64
}

proof fn lemma_limit_grows(a: nat, b: nat)
    requires
        a <= b,
    ensures
        byte_limit(a) <= byte_limit(b),
        byte_limit(a) > 0,
    decreases b,
{
    if a < b {
        lemma_limit_grows(a, (b - 1) as nat);
    } else if a > 0 {
        lemma_limit_grows((a - 1) as nat, (b - 1) as nat);
    }
}

/// A time as an unsigned word: negative times stand at its upper end.
pub open spec fn time_word(ts: i64) -> nat {
    if ts >= 0 {
        ts as nat
    } else {
        (ts + 0x1_0000_0000_0000_0000) as nat
    }
}

/// The time of an unsigned word.
pub open spec fn word_time(n: nat) -> i64 {
    if n <= i64::MAX {
        n as i64
    } else {
        (n - 0x1_0000_0000_0000_0000) as i64
    }
}

fn time_to_word(ts: i64) -> (r: u64)
    ensures
        r == time_word(ts),
{
    if ts >= 0 {
        ts as u64
    } else {
        (ts as i128 + 0x1_0000_0000_0000_0000) as u64
    }
}

fn word_to_time(n: u64) -> (r: i64)
    ensures
        r == word_time(n as nat),
{
    if n <= i64::MAX as u64 {
        n as i64
    } else {
        (n as i128 - 0x1_0000_0000_0000_0000) as i64
    }
}

// ---------------------------------------------------------------------------
// Records

/// A length as a record holds it: in four bytes.
pub open spec fn short(n: nat) -> nat {
    n % 0x1_0000_0000
}

/// The bytes of a record.
pub open spec fn record_bytes(r: RecordView) -> Seq<u8> {
    le_bytes(time_word(r.ts), 8) + r.uid + le_bytes(short(encode_utf8(r.rv).len()), 4) + le_bytes(
        short(r.yaml.len()),
        4,
    ) + encode_utf8(r.rv) + r.yaml
}

/// How many bytes stand before the version in a record.
pub const HEADER: usize = 32;

/// The length of the version in the record at a place.
pub open spec fn rv_len(log: Seq<u8>, at: int) -> nat {
    le_value(log.subrange(at + 24, at + 28))
}

/// The length of the manifest in the record at a place.
pub open spec fn yaml_len(log: Seq<u8>, at: int) -> nat {
    le_value(log.subrange(at + 28, at + 32))
}

/// Where the record after the one at a place begins.
pub open spec fn next_at(log: Seq<u8>, at: int) -> int {
    at + 32 + rv_len(log, at) + yaml_len(log, at)
}

/// The record at a place, where the log holds all of it. Its identity is the one that was
/// asked for.
pub open spec fn record_at(log: Seq<u8>, at: int, uid: Seq<u8>) -> Option<RecordView> {
    if at < 0 || at + 32 > log.len() || next_at(log, at) > log.len() {
        None
    } else {
        let body = at + 32 + rv_len(log, at);
        Some(
            RecordView {
                uid,
                rv: text_in(log.subrange(at + 32, body as int)),
                ts: word_time(le_value(log.subrange(at, at + 8))),
                yaml: log.subrange(body as int, next_at(log, at)),
            },
        )
    }
}

/// How many bytes stand from a place on.
pub open spec fn remaining(log: Seq<u8>, at: int) -> nat {
    if at < log.len() {
        (log.len() - at) as nat
    } else {
        0
    }
}

/// The identities of the records from a place on, each with its place; `None` where the head
/// of one is cut short. Less than a time at the end is no record.
pub open spec fn walk(log: Seq<u8>, at: int) -> Option<Seq<(Seq<u8>, int)>>
    decreases remaining(log, at),
{
    if at < 0 || at + 8 > log.len() {
        Some(Seq::empty())
    } else if at + 32 > log.len() {
        None
    } else {
        match walk(log, next_at(log, at)) {
            Some(rest) => Some(seq![(log.subrange(at + 8, at + 24), at)] + rest),
            None => None,
        }
    }
}

/// The places of the records of an identity.
pub open spec fn places_in(records: Seq<(Seq<u8>, int)>, uid: Seq<u8>) -> Seq<int>
    decreases records.len(),
{
    if records.len() == 0 {
        Seq::empty()
    } else {
        let rest = places_in(records.drop_last(), uid);
        if records.last().0 == uid {
            rest.push(records.last().1)
        } else {
            rest
        }
    }
}

/// The bytes of a record.
pub fn encode_record(la: &LastApplied) -> (r: Vec<u8>)
    ensures
        r@ == record_bytes(la@),
{
    let rv = to_bytes(la.rv.as_str());
    let mut out: Vec<u8> = Vec::new();
    push_number(&mut out, time_to_word(la.ts), 8);
    let mut i: usize = 0;
    let ghost head = out@;
    while i < 16
        invariant
            i <= 16,
            out@ == head + la.uid@.take(i as int),
        decreases 16 - i,
    {
        out.push(la.uid[i]);
        assert(out@ =~= head + la.uid@.take(i + 1));
        i += 1;
    }
    assert(la.uid@.take(16) =~= la.uid@);
    let a: u64 = rv.len() as u64 % 0x1_0000_0000;
    let b: u64 = la.yaml_zstd.len() as u64 % 0x1_0000_0000;
    push_number(&mut out, a, 4);
    push_number(&mut out, b, 4);
    push_all(&mut out, &rv);
    push_all(&mut out, &la.yaml_zstd);
    out
}

fn push_all(out: &mut Vec<u8>, more: &Vec<u8>)
    ensures
        final(out)@ == old(out)@ + more@,
{
    let ghost start = out@;
    let mut i: usize = 0;
    assert(start + more@.take(0) =~= start);
    while i < more.len()
        invariant
            i <= more.len(),
            out@ == start + more@.take(i as int),
        decreases more.len() - i,
    {
        out.push(more[i]);
        assert(out@ =~= start + more@.take(i + 1));
        i += 1;
    }
    assert(more@.take(more@.len() as int) =~= more@);
}

fn bytes_between(log: &[u8], from: usize, to: usize) -> (r: Vec<u8>)
    requires
        from <= to <= log@.len(),
    ensures
        r@ == log@.subrange(from as int, to as int),
{
    let mut out: Vec<u8> = Vec::new();
    let mut i: usize = from;
    while i < to
        invariant
            from <= i <= to <= log@.len(),
            out@ == log@.subrange(from as int, i as int),
        decreases to - i,
    {
        out.push(log[i]);
        assert(out@ =~= log@.subrange(from as int, i + 1));
        i += 1;
    }
    out
}

/// The record at a place.
pub fn decode_record(log: &[u8], at: u64, uid: &Uid) -> (r: Option<LastApplied>)
    ensures
        match r {
            Some(x) => record_at(log@, at as int, uid@) == Some(x@),
            None => record_at(log@, at as int, uid@) is None,
        },
{
    let n: usize = log.len();
    if at as u128 + 32 > n as u128 {
        return None;
    }
    let at: usize = at as usize;
    let ts: u64 = number_at(log, at, 8);
    let a: u64 = number_at(log, at + 24, 4);
    let b: u64 = number_at(log, at + 28, 4);
    if at as u128 + 32 + a as u128 + b as u128 > n as u128 {
        return None;
    }
    let from: usize = at + 32;
    let mid: usize = from + a as usize;
    let to: usize = mid + b as usize;
    let rv = bytes_between(log, from, mid);
    let yaml_zstd = bytes_between(log, mid, to);
    Some(LastApplied { uid: *uid, rv: lossy_text(rv.as_slice()), ts: word_to_time(ts), yaml_zstd })
}
// ---------------------------------------------------------------------------
// The store

/// Why a store could not be read.
#[derive(Clone, Copy, Debug, PartialEq, Eq, Structural)]
pub enum StoreError {
    CutShort,
}

impl StoreError {
    /// What is said of the error.
    pub fn text(&self) -> (r: String)
        ensures
            r@ == "failed to fill whole buffer"@,
    {
        copy_text("failed to fill whole buffer")
    }
}

/// How many places of one identity are remembered once a record is put.
pub const PLACES: usize = 64;

/// The last places, as many as are remembered.
pub open spec fn last_places(s: Seq<u64>) -> Seq<u64> {
    if s.len() > 64 {
        s.skip(s.len() - 64)
    } else {
        s
    }
}

/// The last elements, the latest first, at most so many.
pub open spec fn latest<A>(s: Seq<A>, cap: nat) -> Seq<A> {
    let n = if cap < s.len() {
        cap
    } else {
        s.len()
    };
    s.skip(s.len() - n).reverse()
}

/// The records at some places; `None` where the log does not hold all of one.
pub open spec fn records_at(log: Seq<u8>, places: Seq<u64>, uid: Seq<u8>) -> Option<Seq<RecordView>>
    decreases places.len(),
{
    if places.len() == 0 {
        Some(Seq::empty())
    } else {
        match (records_at(log, places.drop_last(), uid), record_at(log, places.last() as int, uid)) {
            (Some(rest), Some(r)) => Some(rest.push(r)),
            _ => None,
        }
    }
}

/// A store of the manifests that were applied last.
pub trait Store {
    /// The bytes that the store has.
    spec fn log(&self) -> Seq<u8>;

    /// The places of the records of an identity.
    spec fn places(&self, uid: Uid) -> Seq<u64>;

    /// Add a record. Its bytes are handed back: they stand at the end of the log.
    fn put_last(&mut self, la: LastApplied) -> (record: Vec<u8>)
        ensures
            record@ == record_bytes(la@),
            final(self).log() == old(self).log() + record@,
            final(self).places(la.uid) == last_places(old(self).places(la.uid).push(old(self).log().len() as u64)),
            forall|u: Uid| u@ != la.uid@ ==> #[trigger] final(self).places(u) == old(self).places(u),
    ;

    /// The last records of an identity, the latest first; three, unless a limit is given.
    fn get_last(&self, uid: Uid, limit: Option<usize>) -> (r: Result<Vec<LastApplied>, StoreError>)
        ensures
            match records_at(
                self.log(),
                latest(
                    self.places(uid),
                    (match limit {
                        Some(n) => n,
                        None => 3,
                    }) as nat,
                ),
                uid@,
            ) {
                Some(records) => r matches Ok(v) && record_views(v@) == records,
                None => r matches Err(StoreError::CutShort),
            },
    ;
}

/// A log of records, with the places of each identity.
pub struct LogStore {
    pub bytes: Vec<u8>,
    pub index: HashMap<u128, Vec<u64>>,
}

impl LogStore {
    /// The places of the records of an identity.
    pub open spec fn offsets(&self, uid: Uid) -> Seq<u64> {
        if self.index@.contains_key(uid_key(uid)) {
            self.index@[uid_key(uid)]@
        } else {
            Seq::empty()
        }
    }

    fn note(&mut self, uid: &Uid, place: u64, cap: Option<usize>)
        ensures
            final(self).bytes == old(self).bytes,
            final(self).offsets(*uid) == (match cap {
                Some(_) => last_places(old(self).offsets(*uid).push(place)),
                None => old(self).offsets(*uid).push(place),
            }),
            forall|u: Uid| u@ != uid@ ==> #[trigger] final(self).offsets(u) == old(self).offsets(u),
    {
        let key: u128 = key_of(uid);
        let mut v: Vec<u64> = match self.index.remove(&key) {
            Some(v) => v,
            None => Vec::new(),
        };
        assert(v@ =~= old(self).offsets(*uid));
        v.push(place);
        let keep = if cap.is_some() && v.len() > PLACES {
            let n: usize = v.len();
            v.split_off(n - PLACES)
        } else {
            v
        };
        self.index.insert(key, keep);
        proof {
            assert forall|u: Uid| u@ != uid@ implies #[trigger] self.offsets(u) == old(self).offsets(u) by {
                if uid_key(u) == uid_key(*uid) {
                    lemma_uid_key_injective(u, *uid);
                }
            }
        }
    }

    /// Open a log: find the places of its records. A record whose head is cut short is an
    /// error; less than a time at the end is passed over.
    pub fn open(bytes: Vec<u8>) -> (r: Result<LogStore, StoreError>)
        ensures
            match walk(bytes@, 0) {
                Some(records) => {
                    &&& r matches Ok(s)
                    &&& s.bytes@ == bytes@
                    &&& forall|u: Uid| place_values(#[trigger] s.offsets(u)) == places_in(records, u@)
                },
                None => r matches Err(StoreError::CutShort),
            },
    {
        let mut s = LogStore { bytes, index: HashMap::new() };
        let n: usize = s.bytes.len();
        let mut at: usize = 0;
        let ghost mut seen: Seq<(Seq<u8>, int)> = Seq::empty();
        assert(forall|u: Uid| s.offsets(u) =~= Seq::empty());
        assert(forall|u: Uid| place_values(#[trigger] s.offsets(u)) =~= places_in(seen, u@));
        assert(joined(seen, walk(bytes@, 0)) == walk(bytes@, 0)) by {
            if let Some(x) = walk(bytes@, 0) {
                assert(seen + x =~= x);
            }
        }
        while n - at >= 8
            invariant
                at <= n,
                n == s.bytes.len(),
                s.bytes@ == bytes@,
                joined(seen, walk(bytes@, at as int)) == walk(bytes@, 0),
                forall|u: Uid| place_values(#[trigger] s.offsets(u)) == places_in(seen, u@),
            decreases n - at,
        {
            if n - at < 32 {
                return Err(StoreError::CutShort);
            }
            let uid = uid_at(s.bytes.as_slice(), at + 8);
            let a: u64 = number_at(s.bytes.as_slice(), at + 24, 4);
            let b: u64 = number_at(s.bytes.as_slice(), at + 28, 4);
            let ghost before = s;
            s.note(&uid, at as u64, None);
            let ghost was = seen;
            proof {
                seen = seen.push((uid@, at as int));
                assert(bytes@.subrange(at + 8, at + 24) =~= uid@);
                assert forall|u: Uid| place_values(#[trigger] s.offsets(u)) == places_in(seen, u@) by {
                    assert(place_values(before.offsets(u)) == places_in(was, u@));
                    assert(seen.drop_last() =~= was);
                    if u@ == uid@ {
                        assert(u == uid) by {
                            assert(u =~= uid);
                        }
                        assert(place_values(s.offsets(u)) =~= place_values(before.offsets(u)).push(at as int));
                    } else {
                        assert(s.offsets(u) == before.offsets(u));
                    }
                }
                let rest = walk(bytes@, next_at(bytes@, at as int));
                if let Some(x) = rest {
                    assert(was + (seq![(uid@, at as int)] + x) =~= seen + x);
                }
                assert(joined(seen, rest) == walk(bytes@, 0));
            }
            let left: usize = n - at - 32;
            if a as u128 + b as u128 >= left as u128 {
                assert(walk(bytes@, next_at(bytes@, at as int)) == Some(Seq::<(Seq<u8>, int)>::empty()));
                at = n;
            } else {
                at = at + 32 + a as usize + b as usize;
            }
        }
        assert(seen + Seq::<(Seq<u8>, int)>::empty() =~= seen);
        Ok(s)
    }
}

/// Places as numbers.
pub open spec fn place_values(s: Seq<u64>) -> Seq<int> {
    s.map_values(|x: u64| x as int)
}

spec fn joined(a: Seq<(Seq<u8>, int)>, b: Option<Seq<(Seq<u8>, int)>>) -> Option<Seq<(Seq<u8>, int)>> {
    match b {
        Some(x) => Some(a + x),
        None => None,
    }
}

fn uid_at(log: &[u8], at: usize) -> (r: Uid)
    requires
        at + 16 <= log@.len(),
    ensures
        r@ == log@.subrange(at as int, at + 16),
{
    let mut u: Uid = [0u8;16];
    let n: usize = log.len();
    let mut i: usize = 0;
    while i < 16
        invariant
            i <= 16,
            at + 16 <= n,
            n == log@.len(),
            forall|k: int| 0 <= k < i ==> #[trigger] u@[k] == log@[at + k],
        decreases 16 - i,
    {
        u[i] = log[at + i];
        i += 1;
    }
    assert(u@ =~= log@.subrange(at as int, at + 16));
    u
}

impl Store for LogStore {
    open spec fn log(&self) -> Seq<u8> {
        self.bytes@
    }

    open spec fn places(&self, uid: Uid) -> Seq<u64> {
        self.offsets(uid)
    }

    fn put_last(&mut self, la: LastApplied) -> (record: Vec<u8>) {
        let record = encode_record(&la);
        let place: u64 = self.bytes.len() as u64;
        push_all(&mut self.bytes, &record);
        self.note(&la.uid, place, Some(PLACES));
        record
    }

    fn get_last(&self, uid: Uid, limit: Option<usize>) -> (r: Result<Vec<LastApplied>, StoreError>) {
        let cap: usize = match limit {
            Some(n) => n,
            None => 3,
        };
        let key: u128 = key_of(&uid);
        let empty: Vec<u64> = Vec::new();
        let places: &Vec<u64> = match self.index.get(&key) {
            Some(v) => v,
            None => &empty,
        };
        assert(places@ =~= self.offsets(uid));
        let n: usize = places.len();
        let count: usize = if cap < n {
            cap
        } else {
            n
        };
        let ghost want = latest(places@, cap as nat);
        let mut out: Vec<LastApplied> = Vec::new();
        let mut i: usize = 0;
        assert(want.take(0) =~= Seq::empty());
        assert(record_views(out@) =~= Seq::empty());
        while i < count
            invariant
                i <= count <= n,
                n == places.len(),
                want == latest(places@, cap as nat),
                want.len() == count,
                count == if cap < n {
                    cap
                } else {
                    n
                },
                self.offsets(uid) == places@,
                records_at(self.bytes@, want.take(i as int), uid@) == Some(record_views(out@)),
                match limit {
                    Some(x) => cap == x,
                    None => cap == 3,
                },
            decreases count - i,
        {
            let ghost before = record_views(out@);
            let place: u64 = places[n - 1 - i];
            assert(want[i as int] == place);
            assert(want.take(i + 1).drop_last() =~= want.take(i as int));
            match decode_record(self.bytes.as_slice(), place, &uid) {
                Some(r) => {
                    out.push(r);
                    assert(record_views(out@) =~= before.push(r@));
                },
                None => {
                    proof {
                        lemma_cut(self.bytes@, want, i + 1, uid@);
                    }
                    return Err(StoreError::CutShort);
                },
            }
            i += 1;
        }
        assert(want.take(count as int) =~= want);
        Ok(out)
    }
}

proof fn lemma_cut(log: Seq<u8>, places: Seq<u64>, n: int, uid: Seq<u8>)
    requires
        0 <= n <= places.len(),
        records_at(log, places.take(n), uid) is None,
    ensures
        records_at(log, places, uid) is None,
    decreases places.len(),
{
    if n < places.len() {
        assert(places.drop_last().take(n) =~= places.take(n));
        lemma_cut(log, places.drop_last(), n, uid);
    } else {
        assert(places.take(n) =~= places);
    }
}
// ---------------------------------------------------------------------------
// What a store promises

/// Whether the lengths in a record fit their four bytes.
pub open spec fn fits(r: RecordView) -> bool {
    encode_utf8(r.rv).len() < 0x1_0000_0000 && r.yaml.len() < 0x1_0000_0000
}

proof fn lemma_record_parts(log: Seq<u8>, r: RecordView, more: Seq<u8>)
    requires
        fits(r),
        r.uid.len() == 16,
    ensures
        ({
            let all = log + record_bytes(r) + more;
            let at = log.len() as int;
            &&& at + 32 <= all.len()
            &&& all.subrange(at, at + 8) == le_bytes(time_word(r.ts), 8)
            &&& all.subrange(at + 8, at + 24) == r.uid
            &&& rv_len(all, at) == encode_utf8(r.rv).len()
            &&& yaml_len(all, at) == r.yaml.len()
            &&& next_at(all, at) == at + record_bytes(r).len()
            &&& all.subrange(at + 32, at + 32 + encode_utf8(r.rv).len()) == encode_utf8(r.rv)
            &&& all.subrange(at + 32 + encode_utf8(r.rv).len(), next_at(all, at)) == r.yaml
        }),
{
    let all = log + record_bytes(r) + more;
    let at = log.len() as int;
    let rv = encode_utf8(r.rv);
    let t = le_bytes(time_word(r.ts), 8);
    let a = le_bytes(short(rv.len()), 4);
    let b = le_bytes(short(r.yaml.len()), 4);
    law_number_bytes(time_word(r.ts), 8);
    law_number_bytes(short(rv.len()), 4);
    law_number_bytes(short(r.yaml.len()), 4);
    lemma_limits();
    assert(record_bytes(r) == t + r.uid + a + b + rv + r.yaml);
    assert(all.subrange(at, at + 8) =~= t);
    assert(all.subrange(at + 8, at + 24) =~= r.uid);
    assert(all.subrange(at + 24, at + 28) =~= a);
    assert(all.subrange(at + 28, at + 32) =~= b);
    assert(all.subrange(at + 32, at + 32 + rv.len()) =~= rv);
    assert(all.subrange(at + 32 + rv.len(), at + 32 + rv.len() + r.yaml.len()) =~= r.yaml);
}

/// What is read at the place of a record is the record, whatever comes after it.
pub proof fn law_record_read_back(log: Seq<u8>, r: RecordView, more: Seq<u8>)
    requires
        fits(r),
        r.uid.len() == 16,
    ensures
        record_at(log + record_bytes(r) + more, log.len() as int, r.uid) == Some(r),
{
    lemma_record_parts(log, r, more);
    law_number_bytes(time_word(r.ts), 8);
    lemma_limits();
    encode_utf8_valid_utf8(r.rv);
    encode_utf8_decode_utf8(r.rv);
}

/// A record that can be read stays what it is where the log grows.
pub proof fn law_record_stays(log: Seq<u8>, at: int, uid: Seq<u8>, more: Seq<u8>)
    ensures
        record_at(log, at, uid) matches Some(r) ==> record_at(log + more, at, uid) == Some(r),
{
    let all = log + more;
    if record_at(log, at, uid) is Some {
        assert(all.subrange(at, at + 8) =~= log.subrange(at, at + 8));
        assert(all.subrange(at + 24, at + 28) =~= log.subrange(at + 24, at + 28));
        assert(all.subrange(at + 28, at + 32) =~= log.subrange(at + 28, at + 32));
        let body = at + 32 + rv_len(log, at);
        assert(all.subrange(at + 32, body as int) =~= log.subrange(at + 32, body as int));
        assert(all.subrange(body as int, next_at(log, at)) =~= log.subrange(body as int, next_at(log, at)));
    }
}

/// The records of an identity, in the order in which they were put, as far as they are
/// remembered; `None` where the log does not hold all of one.
pub open spec fn history<S: Store>(s: S, uid: Uid) -> Option<Seq<RecordView>> {
    records_at(s.log(), s.places(uid), uid@)
}

/// The last records, as many as are remembered.
pub open spec fn last_records(s: Seq<RecordView>) -> Seq<RecordView> {
    if s.len() > 64 {
        s.skip(s.len() - 64)
    } else {
        s
    }
}

proof fn lemma_records_skip(log: Seq<u8>, places: Seq<u64>, uid: Seq<u8>, n: int)
    requires
        0 <= n <= places.len(),
        records_at(log, places, uid) is Some,
    ensures
        records_at(log, places, uid)->0.len() == places.len(),
        records_at(log, places.skip(n), uid) == Some(records_at(log, places, uid)->0.skip(n)),
    decreases places.len(),
{
    if places.len() == 0 {
        assert(places.skip(n) =~= places);
        assert(records_at(log, places, uid)->0.skip(n) =~= Seq::empty());
    } else {
        let rest = places.drop_last();
        lemma_records_skip(log, rest, uid, if n < places.len() {
            n
        } else {
            0
        });
        let all = records_at(log, places, uid)->0;
        if n < places.len() {
            assert(places.skip(n).drop_last() =~= rest.skip(n));
            assert(all.skip(n) =~= records_at(log, rest, uid)->0.skip(n).push(all.last()));
        } else {
            assert(places.skip(n) =~= Seq::empty());
            assert(all.skip(n) =~= Seq::empty());
        }
    }
}

proof fn lemma_records_stay(log: Seq<u8>, more: Seq<u8>, places: Seq<u64>, uid: Seq<u8>)
    ensures
        records_at(log, places, uid) is Some ==> records_at(log + more, places, uid) == records_at(
            log,
            places,
            uid,
        ),
    decreases places.len(),
{
    if places.len() > 0 {
        lemma_records_stay(log, more, places.drop_last(), uid);
        law_record_stays(log, places.last() as int, uid, more);
    }
}

/// What was put is read back. Where a record is put, the history of its identity is what it
/// was with the record at its end, and the history of any other identity is what it was.
pub proof fn law_put_then_get<S: Store>(before: S, after: S, la: RecordView, uid: Uid, other: Uid)
    requires
        la.uid == uid@,
        fits(la),
        before.log().len() <= u64::MAX,
        after.log() == before.log() + record_bytes(la),
        after.places(uid) == last_places(before.places(uid).push(before.log().len() as u64)),
        other@ != uid@ ==> after.places(other) == before.places(other),
        history(before, uid) is Some,
    ensures
        history(after, uid) == Some(last_records(history(before, uid)->0.push(la))),
        other@ != uid@ && history(before, other) is Some ==> history(after, other) == history(before, other),
{
    let log = before.log();
    let more = record_bytes(la);
    let p = before.places(uid);
    let q = p.push(log.len() as u64);
    lemma_records_stay(log, more, p, uid@);
    lemma_records_stay(log, more, before.places(other), other@);
    law_record_read_back(log, la, Seq::empty());
    assert(log + more + Seq::<u8>::empty() =~= log + more);
    assert(q.drop_last() =~= p);
    assert(records_at(log + more, q, uid@) == Some(history(before, uid)->0.push(la)));
    lemma_records_skip(log, p, uid@, 0);
    if q.len() > 64 {
        lemma_records_skip(log + more, q, uid@, q.len() - 64);
    }
}

proof fn lemma_records_reverse(log: Seq<u8>, places: Seq<u64>, uid: Seq<u8>)
    requires
        records_at(log, places, uid) is Some,
    ensures
        records_at(log, places.reverse(), uid) == Some(records_at(log, places, uid)->0.reverse()),
    decreases places.len(),
{
    if places.len() == 0 {
        assert(places.reverse() =~= places);
        assert(records_at(log, places, uid)->0.reverse() =~= Seq::empty());
    } else {
        let all = records_at(log, places, uid)->0;
        lemma_records_skip(log, places, uid, 1);
        let tail = places.skip(1);
        lemma_records_reverse(log, tail, uid);
        lemma_records_first(log, places, uid);
        assert(places.reverse().drop_last() =~= tail.reverse());
        assert(all.reverse() =~= all.skip(1).reverse().push(all[0]));
    }
}

proof fn lemma_records_first(log: Seq<u8>, places: Seq<u64>, uid: Seq<u8>)
    requires
        places.len() > 0,
        records_at(log, places, uid) is Some,
    ensures
        record_at(log, places[0] as int, uid) == Some(records_at(log, places, uid)->0[0]),
    decreases places.len(),
{
    if places.len() > 1 {
        lemma_records_first(log, places.drop_last(), uid);
        lemma_records_skip(log, places.drop_last(), uid, 0);
    } else {
        assert(places.drop_last() =~= Seq::empty());
        assert(records_at(log, places.drop_last(), uid) == Some(Seq::<RecordView>::empty()));
    }
}

/// What a read gives back is the end of the history, the latest record first.
pub proof fn law_get_is_latest<S: Store>(s: S, uid: Uid, cap: nat)
    requires
        history(s, uid) is Some,
    ensures
        records_at(s.log(), latest(s.places(uid), cap), uid@) == Some(latest(history(s, uid)->0, cap)),
{
    let p = s.places(uid);
    let n: nat = if cap < p.len() {
        cap
    } else {
        p.len()
    };
    lemma_records_skip(s.log(), p, uid@, p.len() - n);
    lemma_records_reverse(s.log(), p.skip(p.len() - n), uid@);
}

/// Whether a log is made of whole records from a place on.
pub open spec fn whole(log: Seq<u8>, at: int) -> bool
    decreases remaining(log, at),
{
    at == log.len() || (0 <= at && at + 32 <= log.len() && next_at(log, at) <= log.len() && whole(
        log,
        next_at(log, at),
    ))
}

/// The walk over a log that is whole is the walk over the log before a record was put, and
/// the record: a store that is opened again finds what was put. The log stays whole.
pub proof fn law_reopen(log: Seq<u8>, at: int, r: RecordView)
    requires
        0 <= at,
        whole(log, at),
        fits(r),
        r.uid.len() == 16,
    ensures
        whole(log + record_bytes(r), at),
        walk(log, at) is Some,
        walk(log + record_bytes(r), at) == Some(walk(log, at)->0.push((r.uid, log.len() as int))),
    decreases remaining(log, at),
{
    let all = log + record_bytes(r);
    if at == log.len() {
        lemma_record_parts(log, r, Seq::empty());
        assert(all + Seq::<u8>::empty() =~= all);
        assert(next_at(all, at) == all.len());
        assert(whole(all, all.len() as int));
        assert(walk(all, next_at(all, at)) == Some(Seq::<(Seq<u8>, int)>::empty()));
        assert(seq![(r.uid, at)] + Seq::<(Seq<u8>, int)>::empty() =~= walk(log, at)->0.push((r.uid, at)));
    } else {
        assert(all.subrange(at + 8, at + 24) =~= log.subrange(at + 8, at + 24));
        assert(all.subrange(at + 24, at + 28) =~= log.subrange(at + 24, at + 28));
        assert(all.subrange(at + 28, at + 32) =~= log.subrange(at + 28, at + 32));
        let next = next_at(log, at);
        law_reopen(log, next, r);
        assert(next_at(all, at) == next);
        let rest = walk(log, next)->0;
        let x = (log.subrange(at + 8, at + 24), at);
        let y = (r.uid, log.len() as int);
        assert(seq![x] + rest.push(y) =~= (seq![x] + rest).push(y));
    }
}

/// The places of an identity after one more record was found.
pub proof fn law_reopen_places(records: Seq<(Seq<u8>, int)>, uid: Seq<u8>, at: int, other: Seq<u8>)
    ensures
        places_in(records.push((uid, at)), other) == (if other == uid {
            places_in(records, other).push(at)
        } else {
            places_in(records, other)
        }),
{
    assert(records.push((uid, at)).drop_last() =~= records);
}

// ---------------------------------------------------------------------------
// A run of records

/// The log that a run of records makes.
pub open spec fn logged(rs: Seq<RecordView>) -> Seq<u8>
    decreases rs.len(),
{
    if rs.len() == 0 {
        Seq::empty()
    } else {
        logged(rs.drop_last()) + record_bytes(rs.last())
    }
}

/// The records of an identity in a run.
pub open spec fn records_of(rs: Seq<RecordView>, uid: Seq<u8>) -> Seq<RecordView>
    decreases rs.len(),
{
    if rs.len() == 0 {
        Seq::empty()
    } else if rs.last().uid == uid {
        records_of(rs.drop_last(), uid).push(rs.last())
    } else {
        records_of(rs.drop_last(), uid)
    }
}

/// The places that are remembered of an identity after a run.
pub open spec fn placed(rs: Seq<RecordView>, uid: Seq<u8>) -> Seq<u64>
    decreases rs.len(),
{
    if rs.len() == 0 {
        Seq::empty()
    } else if rs.last().uid == uid {
        last_places(placed(rs.drop_last(), uid).push(logged(rs.drop_last()).len() as u64))
    } else {
        placed(rs.drop_last(), uid)
    }
}

/// Whether a run can be logged: its lengths fit their bytes, and its places their words.
pub open spec fn can_log(rs: Seq<RecordView>) -> bool {
    &&& forall|i: int| 0 <= i < rs.len() ==> fits(#[trigger] rs[i]) && rs[i].uid.len() == 16
    &&& logged(rs).len() <= u64::MAX
}

/// Whether a store is one that was empty and into which a run of records was put.
pub open spec fn holds<S: Store>(s: S, rs: Seq<RecordView>) -> bool {
    s.log() == logged(rs) && forall|u: Uid| #[trigger] s.places(u) == placed(rs, u@)
}

/// A store over an empty log holds the run of no records.
pub proof fn law_opened_empty(s: LogStore)
    requires
        s.bytes@.len() == 0,
        forall|u: Uid| place_values(#[trigger] s.offsets(u)) == places_in(Seq::empty(), u@),
    ensures
        holds(s, Seq::empty()),
{
    assert(s.log() =~= logged(Seq::empty()));
    assert forall|u: Uid| #[trigger] s.places(u) == placed(Seq::empty(), u@) by {
        assert(place_values(s.offsets(u)).len() == s.offsets(u).len());
        assert(s.places(u) =~= Seq::empty());
    }
}

/// Where one more record is put, the store holds the run with the record at its end.
pub proof fn law_put_extends<S: Store>(before: S, after: S, rs: Seq<RecordView>, la: RecordView, uid: Uid)
    requires
        holds(before, rs),
        la.uid == uid@,
        after.log() == before.log() + record_bytes(la),
        after.places(uid) == last_places(before.places(uid).push(before.log().len() as u64)),
        forall|u: Uid| u@ != uid@ ==> #[trigger] after.places(u) == before.places(u),
    ensures
        holds(after, rs.push(la)),
{
    let all = rs.push(la);
    assert(all.drop_last() =~= rs);
    assert forall|u: Uid| #[trigger] after.places(u) == placed(all, u@) by {
        if u@ == uid@ {
            assert(u =~= uid);
        }
    }
}

proof fn lemma_log_grows(rs: Seq<RecordView>)
    requires
        rs.len() > 0,
        can_log(rs),
    ensures
        can_log(rs.drop_last()),
        fits(rs.last()) && rs.last().uid.len() == 16,
{
    assert(fits(rs[rs.len() - 1]));
    assert forall|i: int| 0 <= i < rs.drop_last().len() implies fits(#[trigger] rs.drop_last()[i])
        && rs.drop_last()[i].uid.len() == 16 by {
        assert(rs.drop_last()[i] == rs[i]);
    }
}

spec fn all_placed(rs: Seq<RecordView>, uid: Seq<u8>) -> Seq<u64>
    decreases rs.len(),
{
    if rs.len() == 0 {
        Seq::empty()
    } else if rs.last().uid == uid {
        all_placed(rs.drop_last(), uid).push(logged(rs.drop_last()).len() as u64)
    } else {
        all_placed(rs.drop_last(), uid)
    }
}

proof fn lemma_run(rs: Seq<RecordView>, uid: Seq<u8>)
    requires
        can_log(rs),
    ensures
        records_at(logged(rs), all_placed(rs, uid), uid) == Some(records_of(rs, uid)),
        all_placed(rs, uid).len() == records_of(rs, uid).len(),
        placed(rs, uid) == last_places(all_placed(rs, uid)),
    decreases rs.len(),
{
    if rs.len() > 0 {
        lemma_log_grows(rs);
        let pre = rs.drop_last();
        lemma_run(pre, uid);
        let log = logged(pre);
        let r = rs.last();
        let more = record_bytes(r);
        let p = all_placed(pre, uid);
        lemma_records_stay(log, more, p, uid);
        if r.uid == uid {
            law_record_read_back(log, r, Seq::empty());
            assert(log + more + Seq::<u8>::empty() =~= log + more);
            let q = p.push(log.len() as u64);
            assert(q.drop_last() =~= p);
            assert(last_places(last_places(p).push(log.len() as u64)) =~= last_places(q));
        }
    }
}

proof fn lemma_run_found(rs: Seq<RecordView>, uid: Seq<u8>)
    requires
        can_log(rs),
    ensures
        whole(logged(rs), 0),
        walk(logged(rs), 0) is Some,
        places_in(walk(logged(rs), 0)->0, uid) == place_values(all_placed(rs, uid)),
    decreases rs.len(),
{
    if rs.len() == 0 {
        assert(place_values(all_placed(rs, uid)) =~= Seq::empty());
    } else {
        lemma_log_grows(rs);
        let pre = rs.drop_last();
        lemma_run_found(pre, uid);
        let r = rs.last();
        law_reopen(logged(pre), 0, r);
        law_reopen_places(walk(logged(pre), 0)->0, r.uid, logged(pre).len() as int, uid);
        if r.uid == uid {
            assert(place_values(all_placed(rs, uid)) =~= place_values(all_placed(pre, uid)).push(
                logged(pre).len() as int,
            ));
        }
    }
}

proof fn lemma_all_of(rs: Seq<RecordView>, uid: Seq<u8>)
    ensures
        forall|i: int|
            0 <= i < records_of(rs, uid).len() ==> (#[trigger] records_of(rs, uid)[i]).uid == uid && rs.contains(
                records_of(rs, uid)[i],
            ),
    decreases rs.len(),
{
    if rs.len() > 0 {
        let pre = rs.drop_last();
        lemma_all_of(pre, uid);
        let all = records_of(rs, uid);
        assert forall|i: int| 0 <= i < all.len() implies (#[trigger] all[i]).uid == uid && rs.contains(all[i]) by {
            if i < records_of(pre, uid).len() {
                let x = records_of(pre, uid)[i];
                assert(pre.contains(x));
                let k = choose|k: int| 0 <= k < pre.len() && pre[k] == x;
                assert(rs[k] == x);
            } else {
                assert(rs[rs.len() - 1] == rs.last());
            }
        }
    }
}

/// After any run of records was put into an empty store, a read gives back the last records
/// of the identity, the latest first: as many as were asked for and were put. No record of
/// another identity is among them. A read asks for no more than are remembered, or no more
/// were put than that.
pub proof fn law_run_of_puts<S: Store>(s: S, rs: Seq<RecordView>, uid: Uid, cap: nat)
    requires
        holds(s, rs),
        can_log(rs),
        cap <= 64 || records_of(rs, uid@).len() <= 64,
    ensures
        records_at(s.log(), latest(s.places(uid), cap), uid@) == Some(latest(records_of(rs, uid@), cap)),
        latest(records_of(rs, uid@), cap).len() == if cap < records_of(rs, uid@).len() {
            cap
        } else {
            records_of(rs, uid@).len()
        },
        forall|i: int|
            0 <= i < latest(records_of(rs, uid@), cap).len() ==> {
                let n = records_of(rs, uid@).len();
                let x = #[trigger] latest(records_of(rs, uid@), cap)[i];
                x == records_of(rs, uid@)[n - 1 - i] && x.uid == uid@ && rs.contains(x)
            },
{
    let x = records_of(rs, uid@);
    let p = all_placed(rs, uid@);
    lemma_run(rs, uid@);
    if p.len() > 64 {
        lemma_records_skip(logged(rs), p, uid@, p.len() - 64);
    }
    assert(history(s, uid) == Some(last_records(x)));
    law_get_is_latest(s, uid, cap);
    assert(latest(last_records(x), cap) =~= latest(x, cap));
    lemma_all_of(rs, uid@);
}

/// A store that is opened again on the log of a run reads what the store before it read: the
/// last records of the identity, the latest first.
pub proof fn law_reopened_run(s: LogStore, rs: Seq<RecordView>, uid: Uid, cap: nat)
    requires
        can_log(rs),
        s.bytes@ == logged(rs),
        walk(s.bytes@, 0) matches Some(found) ==> place_values(s.offsets(uid)) == places_in(found, uid@),
    ensures
        walk(s.bytes@, 0) is Some,
        records_at(s.log(), latest(s.places(uid), cap), uid@) == Some(latest(records_of(rs, uid@), cap)),
{
    lemma_run_found(rs, uid@);
    let p = s.offsets(uid);
    let q = all_placed(rs, uid@);
    assert(p =~= q) by {
        assert(place_values(p).len() == p.len() && place_values(q).len() == q.len());
        assert forall|i: int| 0 <= i < p.len() implies p[i] == q[i] by {
            assert(place_values(p)[i] == place_values(q)[i]);
        }
    }
    lemma_run(rs, uid@);
    assert(history(s, uid) == Some(records_of(rs, uid@)));
    law_get_is_latest(s, uid, cap);
}

// ---------------------------------------------------------------------------
// The text of a manifest, the time, and where the log is

/// The level at which manifests are packed.
pub open spec fn pack_level(env: Seq<(Seq<char>, Seq<char>)>) -> i32 {
    match setting(env, "ORKA_ZSTD_LEVEL"@) {
        Some(s) => match signed_value(s, i32::MIN as int, i32::MAX as int) {
            Some(n) => n as i32,
            None => 3,
        },
        None => 3,
    }
}

/// The text that packed bytes stand for; bytes that are not packed stand for themselves.
pub open spec fn unpacked_text(blob: Seq<u8>) -> Seq<char> {
    match zstd_unpacked(blob) {
        Some(b) => text_in(b),
        None => text_in(blob),
    }
}

/// A manifest that stands as it is reads back as it was, where its bytes are no packed ones.
pub proof fn law_unpacked_manifest_reads_back(yaml: Seq<char>)
    requires
        zstd_unpacked(encode_utf8(yaml)) is None,
    ensures
        unpacked_text(encode_utf8(yaml)) == yaml,
{
    encode_utf8_valid_utf8(yaml);
    encode_utf8_decode_utf8(yaml);
}

/// Pack a manifest. Where packing fails its bytes stand as they are. A manifest that was
/// packed is unpacked to the same text, and so is one that stands as it is, unless its bytes
/// are themselves packed ones.
pub fn maybe_compress(yaml: &str, env: &Vec<(String, String)>) -> (r: Vec<u8>)
    ensures
        match zstd_packed(encode_utf8(yaml@), pack_level(setting_views(env@))) {
            Some(p) => r@ == p && unpacked_text(r@) == yaml@,
            None => r@ == encode_utf8(yaml@) && (zstd_unpacked(r@) is None ==> unpacked_text(r@) == yaml@),
        },
{
    let level: i32 = match read_setting(env, "ORKA_ZSTD_LEVEL") {
        Some(s) => match parse_i32(s) {
            Some(n) => n,
            None => 3,
        },
        None => 3,
    };
    let bytes = to_bytes(yaml);
    proof {
        encode_utf8_valid_utf8(yaml@);
        encode_utf8_decode_utf8(yaml@);
    }
    match zstd_pack(bytes.as_slice(), level) {
        Some(p) => p,
        None => bytes,
    }
}

/// The text of a packed manifest.
pub fn maybe_decompress(blob: &[u8]) -> (r: String)
    ensures
        r@ == unpacked_text(blob@),
{
    match zstd_unpack(blob) {
        Some(b) => lossy_text(b.as_slice()),
        None => lossy_text(blob),
    }
}

/// The seconds that `std::time::SystemTime::now` is after the epoch, as
/// `std::time::SystemTime::duration_since` tells; none where it is before it. Nothing is
/// claimed: the time is no function of anything.
#[verifier::external_body]
fn clock_seconds() -> (r: Option<u64>) {
    std::time::SystemTime::now().duration_since(std::time::UNIX_EPOCH).ok().map(|d| d.as_secs())
}

/// A time in seconds after the epoch; zero where the clock stands before it.
pub fn ts_of(seconds: Option<u64>) -> (r: i64)
    ensures
        r == (match seconds {
            Some(s) => word_time(s as nat),
            None => 0,
        }),
{
    match seconds {
        Some(s) => word_to_time(s),
        None => 0,
    }
}

/// The time now, in seconds after the epoch: what `ts_of` makes of the clock. Any time can
/// come back, so nothing is promised of it.
pub fn now_ts() -> (r: i64) {
    ts_of(clock_seconds())
}

/// A path with one more part.
pub open spec fn path_join(a: Seq<char>, b: Seq<char>) -> Seq<char> {
    if a.len() == 0 || a.last() == '/' {
        a + b
    } else {
        a + "/"@ + b
    }
}

/// A path with one more part.
pub fn join_path(a: &str, b: &str) -> (r: String)
    ensures
        r@ == path_join(a@, b@),
{
    let v = crate::text::to_chars(a);
    if v.len() == 0 || v[v.len() - 1] == '/' {
        cat2(a, b)
    } else {
        cat3(a, "/", b)
    }
}

/// Where the log is: where a setting says, else below the home directory, else here.
pub open spec fn log_path(env: Seq<(Seq<char>, Seq<char>)>) -> Seq<char> {
    match setting(env, "ORKA_DB_PATH"@) {
        Some(p) => p,
        None => match setting(env, "HOME"@) {
            Some(h) => path_join(path_join(h, ".orka"@), "lastapplied.log"@),
            None => "lastapplied.log"@,
        },
    }
}

/// Where the log is.
pub fn default_log_path(env: &Vec<(String, String)>) -> (r: String)
    ensures
        r@ == log_path(setting_views(env@)),
{
    match read_setting(env, "ORKA_DB_PATH") {
        Some(p) => copy_text(p),
        None => match read_setting(env, "HOME") {
            Some(h) => {
                let dir = join_path(h, ".orka");
                join_path(dir.as_str(), "lastapplied.log")
            },
            None => copy_text("lastapplied.log"),
        },
    }
}

/// The record of a manifest that was applied now.
pub fn record_of(uid: Uid, rv: String, ts: i64, yaml: &str, env: &Vec<(String, String)>) -> (r: LastApplied)
    ensures
        r.uid == uid,
        r.rv@ == rv@,
        r.ts == ts,
        match zstd_packed(encode_utf8(yaml@), pack_level(setting_views(env@))) {
            Some(p) => r.yaml_zstd@ == p && unpacked_text(r.yaml_zstd@) == yaml@,
            None => r.yaml_zstd@ == encode_utf8(yaml@),
        },
{
    LastApplied { uid, rv, ts, yaml_zstd: maybe_compress(yaml, env) }
}

/// A record begins with its time, then comes whom it is of, then the lengths of what follows:
/// the version and the manifest.
pub proof fn law_record_layout(r: RecordView)
    requires
        fits(r),
        r.uid.len() == 16,
    ensures
        record_bytes(r).len() == 32 + encode_utf8(r.rv).len() + r.yaml.len(),
        record_bytes(r).subrange(8, 24) == r.uid,
        le_value(record_bytes(r).subrange(24, 28)) == encode_utf8(r.rv).len(),
        le_value(record_bytes(r).subrange(28, 32)) == r.yaml.len(),
        r.ts >= 0 ==> le_value(record_bytes(r).subrange(0, 8)) == r.ts,
        record_bytes(r).subrange(32, 32 + encode_utf8(r.rv).len() as int) == encode_utf8(r.rv),
        record_bytes(r).skip(32 + encode_utf8(r.rv).len() as int) == r.yaml,
{
    let none = Seq::<u8>::empty();
    lemma_record_parts(none, r, none);
    let all = none + record_bytes(r) + none;
    assert(all =~= record_bytes(r));
    lemma_limits();
    law_number_bytes(time_word(r.ts), 8);
    law_number_bytes(short(encode_utf8(r.rv).len()), 4);
    law_number_bytes(short(r.yaml.len()), 4);
    assert(record_bytes(r).skip(32 + encode_utf8(r.rv).len() as int) =~= all.subrange(
        32 + encode_utf8(r.rv).len() as int,
        next_at(all, 0),
    ));
}

/// A number is written with its lowest byte first.
pub proof fn law_lowest_byte_first(n: nat, count: nat)
    requires
        count > 0,
    ensures
        le_bytes(n, count)[0] == n % 256,
        le_bytes(n, count).skip(1) == le_bytes(n / 256, (count - 1) as nat),
{
    assert(le_bytes(n, count).skip(1) =~= le_bytes(n / 256, (count - 1) as nat));
}

/// The log stands where it was set to stand; else below the home directory, where there is one.
pub proof fn law_log_path(env: Seq<(Seq<char>, Seq<char>)>, p: Seq<char>)
    ensures
        setting(env, "ORKA_DB_PATH"@) == Some(p) ==> log_path(env) == p,
        setting(env, "ORKA_DB_PATH"@) is None && setting(env, "HOME"@) == Some(p) && p.len() > 0 && p.last() != '/'
            ==> log_path(env) == p + "/.orka/lastapplied.log"@,
        setting(env, "ORKA_DB_PATH"@) is None && setting(env, "HOME"@) is None ==> log_path(env) == "lastapplied.log"@,
{
    reveal_strlit("/");
    reveal_strlit(".orka");
    reveal_strlit("lastapplied.log");
    reveal_strlit("/.orka/lastapplied.log");
    let a = p + "/"@ + ".orka"@;
    assert(a.last() == 'a');
    assert(a + "/"@ + "lastapplied.log"@ =~= p + "/.orka/lastapplied.log"@);
}

/// Of the records of an object the latest come first, as many as are asked for.
pub proof fn law_latest<A>(s: Seq<A>, cap: nat, i: int)
    requires
        0 <= i < latest(s, cap).len(),
    ensures
        latest(s, cap).len() <= cap,
        latest(s, cap)[i] == s[s.len() - 1 - i],
        cap >= s.len() ==> latest(s, cap).len() == s.len(),
{
}

/// The level of packing is the one that was set; three where none was, or none that is a number.
pub proof fn law_pack_level(env: Seq<(Seq<char>, Seq<char>)>, t: Seq<char>, n: int)
    ensures
        setting(env, "ORKA_ZSTD_LEVEL"@) is None ==> pack_level(env) == 3,
        setting(env, "ORKA_ZSTD_LEVEL"@) == Some(t) && signed_value(t, i32::MIN as int, i32::MAX as int) is None
            ==> pack_level(env) == 3,
        i32::MIN <= n <= i32::MAX && setting(env, "ORKA_ZSTD_LEVEL"@) == Some(t) && signed_value(
            t,
            i32::MIN as int,
            i32::MAX as int,
        ) == Some(n) ==> pack_level(env) == n,
{
}

} // verus!
