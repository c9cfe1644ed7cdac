//! The in-memory journal backend.
//!
//! Entries live in a flat key-value store whose composite key is the
//! entity id's UTF-8 bytes followed by the sequence number as eight
//! big-endian bytes, so that byte-wise comparison of keys coincides with
//! `(entity id, sequence number)` comparison.  Values are records in the
//! at-rest binary format.  A second, fault-injecting backend wraps it for
//! exercising the failure paths of the engine.

use crate::codec::{be64, lemma_be64_round_trip, lemma_record_round_trip, push_be64, read_be64, record_dec, Codec};
use crate::error::Error;
use crate::record::{Meta, Record};
use crate::storage::{batch_journal, batch_wf, journal_slice, lemma_batch_journal_step, lemma_journal_slice_split, lemma_union_empty, lemma_union_insert, record_at, replay_post, Adapter, Journal};
use vstd::prelude::*;
use vstd::utf8::{encode_utf8, encode_utf8_decode_utf8};

verus! {

/// The composite key under which an event is stored: the entity id's
/// UTF-8 bytes, then the sequence number as big-endian bytes.
pub open spec fn key_spec(entity: Seq<char>, seq: u64) -> Seq<u8> {
    encode_utf8(entity) + be64(seq)
}

/// Distinct (entity, sequence) pairs have distinct keys.
pub proof fn lemma_key_spec_injective(e1: Seq<char>, s1: u64, e2: Seq<char>, s2: u64)
    requires
        key_spec(e1, s1) == key_spec(e2, s2),
    ensures
        e1 == e2,
        s1 == s2,
{
    let b1 = encode_utf8(e1);
    let b2 = encode_utf8(e2);
    lemma_be64_round_trip(s1);
    lemma_be64_round_trip(s2);
    assert(key_spec(e1, s1).len() == b1.len() + 8);
    assert(key_spec(e2, s2).len() == b2.len() + 8);
    assert(b1.len() == b2.len());
    assert(b1 =~= key_spec(e1, s1).subrange(0, b1.len() as int));
    assert(b2 =~= key_spec(e2, s2).subrange(0, b2.len() as int));
    encode_utf8_decode_utf8(e1);
    encode_utf8_decode_utf8(e2);
    assert(be64(s1) =~= key_spec(e1, s1).subrange(b1.len() as int, key_spec(e1, s1).len() as int));
    assert(be64(s2) =~= key_spec(e2, s2).subrange(b2.len() as int, key_spec(e2, s2).len() as int));
}

/// The key parts: length, entity prefix, sequence suffix.
proof fn lemma_key_parts(e: Seq<char>, s: u64)
    ensures
        key_spec(e, s).len() == encode_utf8(e).len() + 8,
        key_spec(e, s).subrange(0, encode_utf8(e).len() as int) == encode_utf8(e),
        key_spec(e, s).subrange(encode_utf8(e).len() as int, key_spec(e, s).len() as int) == be64(
            s,
        ),
{
    lemma_be64_round_trip(s);
    assert(key_spec(e, s).subrange(0, encode_utf8(e).len() as int) =~= encode_utf8(e));
    assert(key_spec(e, s).subrange(encode_utf8(e).len() as int, key_spec(e, s).len() as int)
        =~= be64(s));
}

/// Builds the composite key for one journal slot.
fn make_key(entity_id: &str, seq: u64) -> (r: Vec<u8>)
    ensures
        r@ == key_spec(entity_id@, seq),
{
    let mut key = entity_id.as_bytes_vec();
    push_be64(&mut key, seq);
    key
}

/// Byte-wise equality of two byte strings.
fn bytes_eq(a: &[u8], b: &[u8]) -> (r: bool)
    ensures
        r <==> a@ == b@,
{
    if a.len() != b.len() {
        proof {
            assert(a@.len() != b@.len());
        }
        return false;
    }
    let n = a.len();
    let mut i: usize = 0;
    while i < n
        invariant
            n == a@.len() == b@.len(),
            i <= n,
            forall|k: int| 0 <= k < i ==> a@[k] == b@[k],
        decreases n - i,
    {
        if a[i] != b[i] {
            return false;
        }
        i += 1;
    }
    proof {
        assert(a@ =~= b@);
    }
    true
}

/// Whether `k` is a key of the entity whose UTF-8 bytes are `idb`: right
/// length, and the entity bytes as prefix.
fn key_matches_entity(k: &[u8], idb: &[u8]) -> (r: bool)
    ensures
        r <==> (k@.len() == idb@.len() + 8 && k@.subrange(0, idb@.len() as int) == idb@),
{
    if k.len() < 8 || k.len() - 8 != idb.len() {
        return false;
    }
    let n = idb.len();
    let mut i: usize = 0;
    while i < n
        invariant
            n == idb@.len(),
            k@.len() == n + 8,
            i <= n,
            forall|j: int| 0 <= j < i ==> k@[j] == idb@[j],
        decreases n - i,
    {
        if k[i] != idb[i] {
            proof {
                assert(k@.subrange(0, idb@.len() as int)[i as int] == k@[i as int]);
            }
            return false;
        }
        i += 1;
    }
    proof {
        assert(k@.subrange(0, idb@.len() as int) =~= idb@);
    }
    true
}

/// The in-memory backend: a flat store from composite keys to encoded
/// records, with the journal it stands for carried as a ghost map.
pub struct MemoryAdapter<T: Codec> {
    entries: Vec<(Vec<u8>, Vec<u8>)>,
    journal_gh: Ghost<Journal<T>>,
}

impl<T: Codec> MemoryAdapter<T> {
    /// One stored entry is coherent: its value decodes to an event record
    /// whose identity matches its key and whose content the journal maps.
    pub closed spec fn entry_ok(j: Journal<T>, k: Seq<u8>, v: Seq<u8>) -> bool {
        match record_dec::<T>(v) {
            Some(d) => {
                &&& d.3 is None
                &&& d.1 >= 1
                &&& k == key_spec(d.0, d.1 as u64)
                &&& j.dom().contains((d.0, d.1 as u64))
                &&& j[(d.0, d.1 as u64)] == (d.2, d.4)
            },
            None => false,
        }
    }

    /// The backend's invariant: distinct keys, coherent entries, and a
    /// journal that holds nothing beyond the entries.
    pub closed spec fn wf_spec(self) -> bool {
        &&& forall|i: int, k: int|
            0 <= i < k < self.entries@.len() ==> (#[trigger] self.entries@[i]).0@ != (
            #[trigger] self.entries@[k]).0@
        &&& forall|i: int|
            0 <= i < self.entries@.len() ==> Self::entry_ok(
                self.journal_gh@,
                (#[trigger] self.entries@[i]).0@,
                self.entries@[i].1@,
            )
        &&& forall|p: (Seq<char>, u64)|
            #[trigger] self.journal_gh@.dom().contains(p) ==> exists|i: int|
                0 <= i < self.entries@.len() && (#[trigger] self.entries@[i]).0@ == key_spec(
                    p.0,
                    p.1,
                )
    }

    /// An empty journal.
    pub fn new() -> (r: Self)
        ensures
            r.wf(),
            r.journal() == Journal::<T>::empty(),
    {
        MemoryAdapter { entries: Vec::new(), journal_gh: Ghost(Map::empty()) }
    }

    /// A slot is in the journal exactly when some entry carries its key.
    proof fn lemma_lookup(self, id: Seq<char>, s: u64)
        requires
            self.wf_spec(),
        ensures
            self.journal_gh@.dom().contains((id, s)) <==> exists|i: int|
                0 <= i < self.entries@.len() && (#[trigger] self.entries@[i]).0@ == key_spec(
                    id,
                    s,
                ),
    {
        if self.journal_gh@.dom().contains((id, s)) {
            assert(exists|i: int|
                0 <= i < self.entries@.len() && (#[trigger] self.entries@[i]).0@ == key_spec(
                    id,
                    s,
                ));
        }
        if exists|i: int|
            0 <= i < self.entries@.len() && (#[trigger] self.entries@[i]).0@ == key_spec(id, s) {
            let i = choose|i: int|
                0 <= i < self.entries@.len() && (#[trigger] self.entries@[i]).0@ == key_spec(
                    id,
                    s,
                );
            let d = record_dec::<T>(self.entries@[i].1@).unwrap();
            lemma_key_spec_injective(d.0, d.1 as u64, id, s);
        }
    }

    /// Stores one record, replacing the slot if it was already occupied.
    #[verifier::rlimit(100)]
    fn store(&mut self, rec: &Record<T>)
        requires
            old(self).wf_spec(),
            rec.seq_nr_spec() >= 1,
            rec.tag_spec() is None,
        ensures
            final(self).wf_spec(),
            final(self).journal_gh@ == old(self).journal_gh@.insert(
                (rec.entity_spec(), rec.seq_nr_spec() as u64),
                (rec.timestamp_spec(), rec.message_spec()),
            ),
    {
        let seq_u = rec.seq_nr() as u64;
        let key = make_key(rec.entity_id(), seq_u);
        let klen = key.len();
        let value = rec.encode();
        proof {
            assert(encode_utf8(rec.entity_spec()).len() < 0x1_0000_0000_0000_0000) by {
                lemma_key_parts(rec.entity_spec(), seq_u);
                assert(klen == key_spec(rec.entity_spec(), seq_u).len());
            }
            assert(rec.message_spec().enc_spec().len() < 0x1_0000_0000_0000_0000) by {
                rec.message_spec().lemma_enc_len();
            }
            lemma_record_round_trip(*rec);
        }
        // Find and remove an existing entry for the same key, if any.
        let mut i: usize = 0;
        let n = self.entries.len();
        let mut found: Option<usize> = None;
        while i < n
            invariant
                n == self.entries@.len(),
                i <= n,
                found is None ==> forall|j: int| 0 <= j < i ==> (#[trigger] self.entries@[j]).0@ != key@,
                found matches Some(f) ==> f < n && self.entries@[f as int].0@ == key@,
            decreases n - i,
        {
            if found.is_none() && bytes_eq(self.entries[i].0.as_slice(), key.as_slice()) {
                found = Some(i);
            }
            i += 1;
        }
        let ghost pre = *self;
        if let Some(f) = found {
            self.entries.remove(f);
            proof {
                // The removed entry was the only one with this key.
                assert forall|a: int, b: int|
                    0 <= a < b < self.entries@.len() implies (#[trigger] self.entries@[a]).0@ != (
                #[trigger] self.entries@[b]).0@ by {
                    let a0 = if a < f { a } else { a + 1 };
                    let b0 = if b < f { b } else { b + 1 };
                    assert(self.entries@[a] == pre.entries@[a0]);
                    assert(self.entries@[b] == pre.entries@[b0]);
                }
                assert forall|j: int|
                    0 <= j < self.entries@.len() implies (#[trigger] self.entries@[j]).0@ != key@ by {
                    let j0 = if j < f { j } else { j + 1 };
                    assert(self.entries@[j] == pre.entries@[j0]);
                }
            }
        }
        let ghost mid = *self;
        let ghost p = (rec.entity_spec(), rec.seq_nr_spec() as u64);
        let ghost entry = (rec.timestamp_spec(), rec.message_spec());
        self.entries.push((key, value));
        proof {
            self.journal_gh = Ghost(pre.journal_gh@.insert(p, entry));
        }
        proof {
            let j1 = self.journal_gh@;
            // Old entries keep entry_ok: their slots differ from p.
            assert forall|a: int|
                0 <= a < self.entries@.len() implies Self::entry_ok(
                j1,
                (#[trigger] self.entries@[a]).0@,
                self.entries@[a].1@,
            ) by {
                if a == self.entries@.len() - 1 {
                    assert(self.entries@[a].0@ == key_spec(p.0, p.1));
                    assert(record_dec::<T>(value@) == Some(
                        (
                            rec.entity_spec(),
                            rec.seq_nr_spec(),
                            rec.timestamp_spec(),
                            rec.tag_spec(),
                            rec.message_spec(),
                        ),
                    ));
                } else {
                    assert(mid.entries@[a] == self.entries@[a]);
                    let a0 = if found is Some && a >= found.unwrap() {
                        a + 1
                    } else {
                        a
                    };
                    assert(pre.entries@[a0] == self.entries@[a]);
                    assert(Self::entry_ok(
                        pre.journal_gh@,
                        self.entries@[a].0@,
                        self.entries@[a].1@,
                    ));
                    let d = record_dec::<T>(self.entries@[a].1@).unwrap();
                    if (d.0, d.1 as u64) == p {
                        lemma_key_spec_injective(d.0, d.1 as u64, p.0, p.1);
                        assert(self.entries@[a].0@ == key@);
                        assert(false);
                    }
                }
            }
            // The journal holds nothing beyond the entries.
            assert forall|q: (Seq<char>, u64)| #[trigger]
                j1.dom().contains(q) implies exists|i2: int|
                0 <= i2 < self.entries@.len() && (#[trigger] self.entries@[i2]).0@ == key_spec(
                    q.0,
                    q.1,
                ) by {
                if q == p {
                    let w = self.entries@.len() - 1;
                    assert(0 <= w < self.entries@.len() && self.entries@[w].0@ == key_spec(
                        q.0,
                        q.1,
                    ));
                } else {
                    assert(pre.journal_gh@.dom().contains(q));
                    let i0 = choose|i0: int|
                        0 <= i0 < pre.entries@.len() && (#[trigger] pre.entries@[i0]).0@
                            == key_spec(q.0, q.1);
                    if found is Some && i0 == found.unwrap() {
                        // that entry held slot p, not q
                        let d = record_dec::<T>(pre.entries@[i0].1@).unwrap();
                        lemma_key_spec_injective(d.0, d.1 as u64, q.0, q.1);
                        assert(pre.entries@[i0].0@ == key@);
                        lemma_key_spec_injective(q.0, q.1, p.0, p.1);
                        assert(false);
                    } else {
                        let i1 = if found is Some && i0 > found.unwrap() {
                            i0 - 1
                        } else {
                            i0
                        };
                        assert(self.entries@[i1] == pre.entries@[i0]);
                        assert(0 <= i1 < self.entries@.len() && self.entries@[i1].0@ == key_spec(
                            q.0,
                            q.1,
                        ));
                    }
                }
            }
        }
    }
}

impl<T: Codec> Default for MemoryAdapter<T> {
    /// An empty journal.
    fn default() -> (r: Self)
        ensures
            r.wf(),
            r.journal() == Journal::<T>::empty(),
    {
        MemoryAdapter::new()
    }
}

impl<T: Codec> Adapter<T> for MemoryAdapter<T> {
    open spec fn wf(self) -> bool {
        self.wf_spec()
    }

    closed spec fn journal(self) -> Journal<T> {
        self.journal_gh@
    }

    #[verifier::rlimit(100)]
    fn read_highest_sequence_number(&self, entity_id: &str) -> (r: Result<Option<u64>, Error>)
        ensures
            r is Ok,
    {
        let idb = entity_id.as_bytes();
        let n = self.entries.len();
        let mut best: Option<u64> = None;
        let mut i: usize = 0;
        while i < n
            invariant
                self.wf_spec(),
                n == self.entries@.len(),
                i <= n,
                idb@ == encode_utf8(entity_id@),
                best is None ==> forall|s: u64|
                    #![trigger key_spec(entity_id@, s)]
                    !exists|j: int|
                        0 <= j < i && (#[trigger] self.entries@[j]).0@ == key_spec(entity_id@, s),
                best matches Some(m) ==> {
                    &&& self.journal_gh@.dom().contains((entity_id@, m))
                    &&& forall|j: int, s: u64|
                        #![trigger self.entries@[j], key_spec(entity_id@, s)]
                        0 <= j < i && self.entries@[j].0@ == key_spec(entity_id@, s) ==> s <= m
                },
            decreases n - i,
        {
            let k = &self.entries[i].0;
            if key_matches_entity(k.as_slice(), idb) {
                let s = read_be64(k.as_slice(), k.len() - 8);
                proof {
                    let d = record_dec::<T>(self.entries@[i as int].1@).unwrap();
                    lemma_key_parts(d.0, d.1 as u64);
                    assert(encode_utf8(d.0).len() == idb@.len());
                    assert(encode_utf8(d.0) == k@.subrange(0, idb@.len() as int));
                    encode_utf8_decode_utf8(d.0);
                    encode_utf8_decode_utf8(entity_id@);
                    assert(d.0 == entity_id@);
                    assert(k@.subrange(k@.len() - 8, k@.len() as int) == be64(d.1 as u64));
                    lemma_be64_round_trip(d.1 as u64);
                    assert(s == d.1 as u64);
                    assert(k@ == key_spec(entity_id@, s));
                }
                match best {
                    None => {
                        best = Some(s);
                    },
                    Some(m) => {
                        if s > m {
                            best = Some(s);
                        }
                    },
                }
                proof {
                    assert forall|j: int, s2: u64|
                        #![trigger self.entries@[j], key_spec(entity_id@, s2)]
                        0 <= j < i + 1 && self.entries@[j].0@ == key_spec(
                            entity_id@,
                            s2,
                        ) implies s2 <= best.unwrap() by {
                        if j == i {
                            lemma_key_spec_injective(entity_id@, s2, entity_id@, s);
                        }
                    }
                }
            } else {
                proof {
                    assert forall|s: u64|
                        #![trigger key_spec(entity_id@, s)]
                        self.entries@[i as int].0@ != key_spec(entity_id@, s) by {
                        let d = record_dec::<T>(self.entries@[i as int].1@).unwrap();
                        if self.entries@[i as int].0@ == key_spec(entity_id@, s) {
                            lemma_key_spec_injective(d.0, d.1 as u64, entity_id@, s);
                            lemma_key_parts(entity_id@, s);
                        }
                    }
                }
            }
            i += 1;
        }
        proof {
            match best {
                None => {
                    assert forall|s: u64|
                        !(#[trigger] self.journal_gh@.dom().contains((entity_id@, s))) by {
                        self.lemma_lookup(entity_id@, s);
                    }
                },
                Some(m) => {
                    assert forall|s: u64| #[trigger]
                        self.journal_gh@.dom().contains((entity_id@, s)) implies s <= m by {
                        self.lemma_lookup(entity_id@, s);
                    }
                },
            }
        }
        Ok(best)
    }

    fn write(&mut self, batch: Vec<Record<T>>) -> (r: Result<(), Error>)
        ensures
            r is Ok,
    {
        let ghost j0 = self.journal_gh@;
        let n = batch.len();
        let mut i: usize = 0;
        proof {
            lemma_union_empty(j0);
            assert(batch@.take(0) =~= Seq::<Record<T>>::empty());
        }
        while i < n
            invariant
                n == batch@.len(),
                i <= n,
                batch_wf(batch@),
                self.wf_spec(),
                self.journal_gh@ == j0.union_prefer_right(batch_journal(batch@.take(i as int))),
            decreases n - i,
        {
            self.store(&batch[i]);
            proof {
                lemma_batch_journal_step(batch@, i as int);
                lemma_union_insert(
                    j0,
                    batch_journal(batch@.take(i as int)),
                    (batch@[i as int].entity_spec(), batch@[i as int].seq_nr_spec() as u64),
                    (batch@[i as int].timestamp_spec(), batch@[i as int].message_spec()),
                );
            }
            i += 1;
        }
        proof {
            assert(batch@.take(n as int) =~= batch@);
        }
        Ok(())
    }

    fn replay(&self, entity_id: &str, from: u64, to: u64, max: u64) -> (r: Result<
        Vec<Record<T>>,
        Error,
    >)
        ensures
            r is Ok,
    {
        let ghost j = self.journal_gh@;
        let ghost id = entity_id@;
        let mut out: Vec<Record<T>> = Vec::new();
        if from > to || max == 0 {
            proof {
                if from > to {
                    assert(journal_slice(j, id, from as int, to as int) =~= Seq::<u64>::empty());
                } else {
                    assert(out@.len() == 0);
                }
            }
            if max == 0 && from <= to {
                proof {
                    let ss0 = journal_slice(j, id, from as int, to as int);
                    if ss0.len() > 0 {
                        assert(ss0.take(0) =~= Seq::<u64>::empty());
                    }
                }
            }
            return Ok(out);
        }
        let mut s = from;
        let mut stop = false;
        while !stop
            invariant
                self.wf_spec(),
                j == self.journal_gh@,
                id == entity_id@,
                max >= 1,
                from <= s <= to,
                out@.len() <= max,
                !stop ==> out@.len() < max,
                !stop ==> replay_exact(j, id, from as int, s as int - 1, out@),
                stop ==> replay_post(j, id, from, to, max, out@),
            decreases (to - s) + if stop {
                0int
            } else {
                1int
            },
        {
            let key = make_key(entity_id, s);
            let n = self.entries.len();
            let mut found: Option<usize> = None;
            let mut i: usize = 0;
            while i < n
                invariant
                    self.wf_spec(),
                    n == self.entries@.len(),
                    i <= n,
                    found is None ==> forall|jx: int|
                        0 <= jx < i ==> (#[trigger] self.entries@[jx]).0@ != key@,
                    found matches Some(f) ==> f < n && self.entries@[f as int].0@ == key@,
                decreases n - i,
            {
                if found.is_none() && bytes_eq(self.entries[i].0.as_slice(), key.as_slice()) {
                    found = Some(i);
                }
                i += 1;
            }
            let ghost pre_len = out@.len();
            match found {
                Some(f) => {
                    proof {
                        let d = record_dec::<T>(self.entries@[f as int].1@).unwrap();
                        lemma_key_spec_injective(d.0, d.1 as u64, id, s);
                        self.lemma_lookup(id, s);
                    }
                    match Record::<T>::decode(self.entries[f].1.as_slice()) {
                        Some(rec) => {
                            out.push(rec);
                        },
                        None => {
                            proof {
                                assert(false);
                            }
                        },
                    }
                },
                None => {
                    proof {
                        self.lemma_lookup(id, s);
                        assert(!j.dom().contains((id, s)));
                    }
                },
            }
            proof {
                let ss_prev = journal_slice(j, id, from as int, s as int - 1);
                let ss_now = journal_slice(j, id, from as int, s as int);
                if j.dom().contains((id, s)) {
                    assert(ss_now == ss_prev + seq![s]);
                } else {
                    assert(ss_now == ss_prev + Seq::<u64>::empty());
                    assert(ss_now =~= ss_prev);
                }
                assert(replay_exact(j, id, from as int, s as int, out@));
            }
            if out.len() as u64 >= max {
                // Capped: the remaining range cannot change the first `max`.
                proof {
                    assert(out@.len() == max);
                    lemma_replay_capped(j, id, from, s, to, max, out@);
                }
                stop = true;
            } else if s == to {
                proof {
                    let ss0 = journal_slice(j, id, from as int, to as int);
                    assert(out@.len() == ss0.len());
                    assert(out@.len() <= max);
                    assert(!(ss0.len() > max));
                }
                stop = true;
            } else {
                s += 1;
            }
        }
        Ok(out)
    }
}

/// `recs` is exactly the replayed range `[from, upto]`, uncapped.
pub open spec fn replay_exact<T: Codec>(
    j: Journal<T>,
    id: Seq<char>,
    from: int,
    upto: int,
    recs: Seq<Record<T>>,
) -> bool {
    let ss = journal_slice(j, id, from, upto);
    &&& recs.len() == ss.len()
    &&& forall|i: int| 0 <= i < recs.len() ==> record_at(j, id, ss[i], #[trigger] recs[i])
}

/// Once `max` records have been produced from the prefix of the range,
/// the rest of the range cannot change the first `max`.
proof fn lemma_replay_capped<T: Codec>(
    j: Journal<T>,
    id: Seq<char>,
    from: u64,
    s: u64,
    to: u64,
    max: u64,
    recs: Seq<Record<T>>,
)
    requires
        from <= s <= to,
        recs.len() == max,
        replay_exact(j, id, from as int, s as int, recs),
    ensures
        replay_post(j, id, from, to, max, recs),
{
    let ss_pre = journal_slice(j, id, from as int, s as int);
    let ss_all = journal_slice(j, id, from as int, to as int);
    lemma_journal_slice_split(j, id, from as int, s as int, to as int);
    assert(ss_all == ss_pre + journal_slice(j, id, s as int + 1, to as int));
    if ss_all.len() > max {
        assert(ss_all.take(max as int) =~= ss_pre);
    } else {
        assert(ss_all =~= ss_pre);
    }
}

/// A backend that can be made to fail its writes, for exercising the
/// engine's failure paths: the wrapped journal is untouched by a failed
/// write, and the error it reports is a storage error.
pub struct FaultyAdapter<T: Codec> {
    inner: MemoryAdapter<T>,
    fail_writes: bool,
}

impl<T: Codec> FaultyAdapter<T> {
    /// A fresh backend that does not fail yet.
    pub fn new() -> (r: Self)
        ensures
            r.wf(),
            r.journal() == Journal::<T>::empty(),
            !r.failing(),
    {
        FaultyAdapter { inner: MemoryAdapter::new(), fail_writes: false }
    }

    /// Whether writes currently fail.
    pub closed spec fn failing(self) -> bool {
        self.fail_writes
    }

    /// Turns write failures on or off.
    pub fn set_fail_writes(&mut self, fail: bool)
        requires
            old(self).wf(),
        ensures
            final(self).wf(),
            final(self).journal() == old(self).journal(),
            final(self).failing() == fail,
    {
        self.fail_writes = fail;
    }
}

impl<T: Codec> Adapter<T> for FaultyAdapter<T> {
    closed spec fn wf(self) -> bool {
        self.inner.wf_spec()
    }

    closed spec fn journal(self) -> Journal<T> {
        self.inner.journal()
    }

    fn read_highest_sequence_number(&self, entity_id: &str) -> (r: Result<Option<u64>, Error>)
        ensures
            r is Ok,
    {
        self.inner.read_highest_sequence_number(entity_id)
    }

    fn write(&mut self, batch: Vec<Record<T>>) -> (r: Result<(), Error>)
        ensures
            final(self).failing() == old(self).failing(),
            r is Ok <==> !old(self).failing(),
    {
        if self.fail_writes {
            Err(Error::StorageError(String::from_str("Induced write failure")))
        } else {
            self.inner.write(batch)
        }
    }

    fn replay(&self, entity_id: &str, from: u64, to: u64, max: u64) -> (r: Result<
        Vec<Record<T>>,
        Error,
    >)
        ensures
            r is Ok,
    {
        self.inner.replay(entity_id, from, to, max)
    }
}

} // verus!
