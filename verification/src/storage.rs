//! The journal contract: append a batch atomically, look up the highest
//! sequence number, and replay a bounded range.
//!
//! A backend's contents are modeled as a map from (entity id, sequence
//! number) to (timestamp, payload).  `write` is all-or-nothing: on failure
//! the journal is unchanged, which is what lets the dispatcher retry by
//! redelivery.

use crate::codec::Codec;
use crate::error::Error;
use crate::record::{Meta, Record};
use vstd::prelude::*;

verus! {

/// The journal's model: what one backend holds.
pub type Journal<T> = Map<(Seq<char>, u64), (i64, T)>;

/// A batch the journal accepts: event records with positive sequence
/// numbers, no tags, and no two records for the same (entity, sequence)
/// slot.
pub open spec fn batch_wf<T>(batch: Seq<Record<T>>) -> bool {
    &&& forall|i: int|
        0 <= i < batch.len() ==> (#[trigger] batch[i]).seq_nr_spec() >= 1 && batch[i].tag_spec()
            is None
    &&& forall|i: int, k: int|
        0 <= i < k < batch.len() ==> !((#[trigger] batch[i]).entity_spec() == (
        #[trigger] batch[k]).entity_spec() && batch[i].seq_nr_spec() == batch[k].seq_nr_spec())
}

/// The journal entries a batch stands for.
pub open spec fn batch_journal<T>(batch: Seq<Record<T>>) -> Journal<T>
    decreases batch.len(),
{
    if batch.len() == 0 {
        Map::empty()
    } else {
        batch_journal(batch.drop_last()).insert(
            (batch.last().entity_spec(), batch.last().seq_nr_spec() as u64),
            (batch.last().timestamp_spec(), batch.last().message_spec()),
        )
    }
}

/// The sequence numbers present for an entity in `[from, to]`, ascending.
pub open spec fn journal_slice<T>(j: Journal<T>, id: Seq<char>, from: int, to: int) -> Seq<
    u64,
>
    decreases to - from + 1,
{
    if from > to {
        Seq::empty()
    } else {
        journal_slice(j, id, from, to - 1) + (if 0 <= to <= u64::MAX && j.dom().contains(
            (id, to as u64),
        ) {
            seq![to as u64]
        } else {
            Seq::empty()
        })
    }
}

/// One replayed record: the journal entry at `(id, s)`, as an event record.
pub open spec fn record_at<T>(j: Journal<T>, id: Seq<char>, s: u64, rec: Record<T>) -> bool {
    &&& rec.entity_spec() == id
    &&& rec.seq_nr_spec() == s as i64
    &&& j.dom().contains((id, s))
    &&& rec.timestamp_spec() == j[(id, s)].0
    &&& rec.message_spec() == j[(id, s)].1
    &&& rec.tag_spec() is None
}

/// What `replay` returns: the records for the present sequence numbers in
/// `[from, to]`, ascending, capped at `max`.
pub open spec fn replay_post<T>(
    j: Journal<T>,
    id: Seq<char>,
    from: u64,
    to: u64,
    max: u64,
    recs: Seq<Record<T>>,
) -> bool {
    let ss0 = journal_slice(j, id, from as int, to as int);
    let ss = if ss0.len() > max {
        ss0.take(max as int)
    } else {
        ss0
    };
    &&& recs.len() == ss.len()
    &&& forall|i: int| 0 <= i < recs.len() ==> record_at(j, id, ss[i], #[trigger] recs[i])
}

/// A pluggable event journal.
///
/// `wf` is the backend's internal well-formedness; every operation
/// preserves it.  An `Err` from any operation is an infrastructure error:
/// the caller must not commit broker offsets past the work that raised it.
pub trait Adapter<T: Codec>: Sized {
    /// Well-formedness of the backend's representation.
    spec fn wf(self) -> bool;

    /// The journal's contents.
    spec fn journal(self) -> Journal<T>;

    /// Returns the greatest sequence number persisted for this entity, or
    /// `None` if the entity has no events.
    fn read_highest_sequence_number(&self, entity_id: &str) -> (r: Result<Option<u64>, Error>)
        requires
            self.wf(),
        ensures
            match r {
                Ok(None) => forall|s: u64| !self.journal().dom().contains((entity_id@, s)),
                Ok(Some(m)) => self.journal().dom().contains((entity_id@, m)) && forall|s: u64|
                    self.journal().dom().contains((entity_id@, s)) ==> s <= m,
                Err(e) => e.is_infrastructure_spec(),
            },
    ;

    /// Appends the whole batch, or nothing: on failure the journal is
    /// unchanged.
    fn write(&mut self, batch: Vec<Record<T>>) -> (r: Result<(), Error>)
        requires
            old(self).wf(),
            batch_wf(batch@),
        ensures
            final(self).wf(),
            r is Ok ==> final(self).journal() == old(self).journal().union_prefer_right(
                batch_journal(batch@),
            ),
            r matches Err(e) ==> final(self).journal() == old(self).journal()
                && e.is_infrastructure_spec(),
    ;

    /// Replays the records for this entity with sequence numbers in
    /// `[from, to]`, in ascending order, at most `max` of them.
    fn replay(&self, entity_id: &str, from: u64, to: u64, max: u64) -> (r: Result<
        Vec<Record<T>>,
        Error,
    >)
        requires
            self.wf(),
        ensures
            match r {
                Ok(recs) => replay_post(self.journal(), entity_id@, from, to, max, recs@),
                Err(e) => e.is_infrastructure_spec(),
            },
    ;
}

/// A batch's journal entries, taken record by record from the left.
pub proof fn lemma_batch_journal_step<T>(batch: Seq<Record<T>>, i: int)
    requires
        0 <= i < batch.len(),
    ensures
        batch_journal(batch.take(i + 1)) == batch_journal(batch.take(i)).insert(
            (batch[i].entity_spec(), batch[i].seq_nr_spec() as u64),
            (batch[i].timestamp_spec(), batch[i].message_spec()),
        ),
{
    assert(batch.take(i + 1).drop_last() =~= batch.take(i));
    assert(batch.take(i + 1).last() == batch[i]);
}

/// Inserting on the right of a union inserts into the union.
pub proof fn lemma_union_insert<K, V>(m: Map<K, V>, x: Map<K, V>, k: K, v: V)
    ensures
        m.union_prefer_right(x.insert(k, v)) == m.union_prefer_right(x).insert(k, v),
{
    assert(m.union_prefer_right(x.insert(k, v)) =~= m.union_prefer_right(x).insert(k, v));
}

/// A union with the empty map changes nothing.
pub proof fn lemma_union_empty<K, V>(m: Map<K, V>)
    ensures
        m.union_prefer_right(Map::empty()) == m,
{
    assert(m.union_prefer_right(Map::<K, V>::empty()) =~= m);
}

/// A slice splits at any cut point into the part up to the cut and the
/// part after it.
pub proof fn lemma_journal_slice_split<T>(
    j: Journal<T>,
    id: Seq<char>,
    from: int,
    cut: int,
    to: int,
)
    requires
        from - 1 <= cut <= to,
    ensures
        journal_slice(j, id, from, to) == journal_slice(j, id, from, cut) + journal_slice(
            j,
            id,
            cut + 1,
            to,
        ),
    decreases to - cut,
{
    if to == cut {
        assert(journal_slice(j, id, cut + 1, to) =~= Seq::<u64>::empty());
        assert(journal_slice(j, id, from, to) =~= journal_slice(j, id, from, cut) + Seq::<
            u64,
        >::empty());
    } else {
        lemma_journal_slice_split(j, id, from, cut, to - 1);
        let tail = if 0 <= to <= u64::MAX && j.dom().contains((id, to as u64)) {
            seq![to as u64]
        } else {
            Seq::<u64>::empty()
        };
        assert(journal_slice(j, id, from, to) == journal_slice(j, id, from, to - 1) + tail);
        assert(journal_slice(j, id, cut + 1, to) == journal_slice(j, id, cut + 1, to - 1) + tail);
        assert((journal_slice(j, id, from, cut) + journal_slice(j, id, cut + 1, to - 1)) + tail
            =~= journal_slice(j, id, from, cut) + (journal_slice(j, id, cut + 1, to - 1) + tail));
    }
}

/// A slice has at most one element per sequence number in its range.
pub proof fn lemma_journal_slice_len<T>(j: Journal<T>, id: Seq<char>, from: int, to: int)
    ensures
        journal_slice(j, id, from, to).len() <= if to >= from {
            to - from + 1
        } else {
            0
        },
    decreases to - from + 1,
{
    if from <= to {
        lemma_journal_slice_len(j, id, from, to - 1);
    }
}


/// A present slot in the range appears in the slice.
proof fn lemma_journal_slice_contains<T>(j: Journal<T>, id: Seq<char>, from: int, to: int, s: u64)
    requires
        0 <= from <= s <= to <= u64::MAX,
        j.dom().contains((id, s)),
    ensures
        exists|i: int|
            0 <= i < journal_slice(j, id, from, to).len() && #[trigger] journal_slice(
                j,
                id,
                from,
                to,
            )[i] == s,
    decreases to - from + 1,
{
    let ss = journal_slice(j, id, from, to);
    let ss0 = journal_slice(j, id, from, to - 1);
    if s == to {
        assert(ss == ss0 + seq![s]);
        assert(ss[ss.len() - 1] == s);
    } else {
        lemma_journal_slice_contains(j, id, from, to - 1, s);
        let i = choose|i: int|
            0 <= i < ss0.len() && #[trigger] journal_slice(j, id, from, to - 1)[i] == s;
        assert(ss[i] == s);
    }
}

/// Law: replay misses nothing.  A slot that the journal holds inside the
/// replayed window appears among the replayed records, carrying the
/// journaled timestamp and payload — so an event that `write` appended is
/// returned by a wide enough `replay`.
pub proof fn lemma_replay_complete<T>(
    j: Journal<T>,
    id: Seq<char>,
    from: u64,
    to: u64,
    max: u64,
    recs: Seq<Record<T>>,
    s: u64,
)
    requires
        replay_post(j, id, from, to, max, recs),
        j.dom().contains((id, s)),
        from <= s <= to,
        journal_slice(j, id, from as int, to as int).len() <= max,
    ensures
        exists|i: int|
            0 <= i < recs.len() && (#[trigger] recs[i]).seq_nr_spec() == s as i64 && recs[
                i
            ].timestamp_spec() == j[(id, s)].0 && recs[i].message_spec() == j[(id, s)].1,
{
    let ss = journal_slice(j, id, from as int, to as int);
    lemma_journal_slice_contains(j, id, from as int, to as int, s);
    let i = choose|i: int|
        0 <= i < ss.len() && #[trigger] journal_slice(j, id, from as int, to as int)[i] == s;
    assert(record_at(j, id, ss[i], recs[i]));
    assert(recs[i].seq_nr_spec() == s as i64 && recs[i].timestamp_spec() == j[(id, s)].0 && recs[
        i
    ].message_spec() == j[(id, s)].1);
}

} // verus!
