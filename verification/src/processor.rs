//! The per-entity processor: the sole writer of an entity's state and
//! sequence counter, and the home of the critical section that validates
//! a command, journals its events atomically, and only then applies them.

use crate::clock::now_millis;
use crate::command::Command;
use crate::error::Error;
use crate::event::{fold_events, lemma_fold_events_concat, lemma_fold_events_snoc, lemma_fold_events_wf, AggregateState, Event};
use crate::record::{Meta, Record};
use crate::storage::{batch_journal, batch_wf, journal_slice, replay_post, Adapter, Journal};
use vstd::prelude::*;

verus! {

/// The payloads journaled for an entity at sequence numbers `1..=n`, in
/// order, skipping absent slots.
pub open spec fn events_upto<T>(j: Journal<T>, id: Seq<char>, n: int) -> Seq<T>
    decreases n,
{
    if n <= 0 {
        Seq::empty()
    } else {
        events_upto(j, id, n - 1) + (if 0 < n <= u64::MAX && j.dom().contains((id, n as u64)) {
            seq![j[(id, n as u64)].1]
        } else {
            Seq::empty()
        })
    }
}

/// The journal entries one command's events stand for: event `i` (from 0)
/// at sequence number `base + i + 1`, all stamped `now`.
pub open spec fn events_batch<T>(id: Seq<char>, base: i64, now: i64, evs: Seq<T>) -> Journal<T>
    decreases evs.len(),
{
    if evs.len() == 0 {
        Map::empty()
    } else {
        events_batch(id, base, now, evs.drop_last()).insert(
            (id, (base + evs.len()) as u64),
            (now, evs.last()),
        )
    }
}

/// The payloads at the given sequence numbers.
pub open spec fn slice_events<T>(j: Journal<T>, id: Seq<char>, ss: Seq<u64>) -> Seq<T> {
    ss.map(|i: int, s: u64| j[(id, s)].1)
}

/// `h` is the greatest sequence number present for the entity.
pub open spec fn is_highest<T>(j: Journal<T>, id: Seq<char>, h: u64) -> bool {
    &&& j.dom().contains((id, h))
    &&& forall|s: u64| #[trigger] j.dom().contains((id, s)) ==> s <= h
}

/// What a batch adds to the journal: exactly the slots
/// `base + 1 ..= base + len`, stamped `now`, holding the events in order.
pub proof fn lemma_events_batch_facts<T>(id: Seq<char>, base: i64, now: i64, evs: Seq<T>)
    requires
        base >= 0,
        base + evs.len() <= i64::MAX,
    ensures
        forall|p: (Seq<char>, u64)|
            #[trigger] events_batch(id, base, now, evs).dom().contains(p) <==> (p.0 == id && base
                < p.1 <= base + evs.len()),
        forall|s: u64|
            base < s <= base + evs.len() ==> #[trigger] events_batch(id, base, now, evs)[
                (id, s)
            ] == (now, evs[s - base - 1]),
    decreases evs.len(),
{
    if evs.len() > 0 {
        lemma_events_batch_facts(id, base, now, evs.drop_last());
        let m = events_batch(id, base, now, evs);
        let m0 = events_batch(id, base, now, evs.drop_last());
        let top = (base + evs.len()) as u64;
        assert(m == m0.insert((id, top), (now, evs.last())));
        assert forall|s: u64|
            base < s <= base + evs.len() implies #[trigger] m[(id, s)] == (
            now,
            evs[s - base - 1],
        ) by {
            if s == top {
                assert(m[(id, s)] == (now, evs.last()));
                assert(evs.last() == evs[s - base - 1]);
            } else {
                assert(s < base + evs.len());
                assert((id, s) != (id, top));
                assert(m[(id, s)] == m0[(id, s)]);
                assert(m0[(id, s)] == (now, evs.drop_last()[s - base - 1]));
                assert(evs.drop_last()[s - base - 1] == evs[s - base - 1]);
            }
        }
    }
}

/// Two journals that agree on the slots `1..=n` of an entity yield the
/// same payloads up to `n`.
pub proof fn lemma_events_upto_agree<T>(j0: Journal<T>, j1: Journal<T>, id: Seq<char>, n: int)
    requires
        forall|s: u64|
            1 <= s <= n ==> (#[trigger] j0.dom().contains((id, s)) <==> j1.dom().contains(
                (id, s),
            )),
        forall|s: u64|
            1 <= s <= n && #[trigger] j0.dom().contains((id, s)) ==> j0[(id, s)] == j1[(id, s)],
    ensures
        events_upto(j0, id, n) == events_upto(j1, id, n),
    decreases n,
{
    if n > 0 {
        lemma_events_upto_agree(j0, j1, id, n - 1);
    }
}

/// Extending the journal with a batch above `base` leaves the payloads up
/// to `base` unchanged and appends the batch's events above it.
pub proof fn lemma_events_upto_batch<T>(
    j0: Journal<T>,
    id: Seq<char>,
    base: i64,
    now: i64,
    evs: Seq<T>,
    n: int,
)
    requires
        base >= 0,
        base + evs.len() <= i64::MAX,
        forall|s: u64| #[trigger] j0.dom().contains((id, s)) ==> s <= base,
        base <= n <= base + evs.len(),
    ensures
        events_upto(j0.union_prefer_right(events_batch(id, base, now, evs)), id, n) == events_upto(
            j0,
            id,
            base as int,
        ) + evs.take(n - base),
    decreases n,
{
    let j1 = j0.union_prefer_right(events_batch(id, base, now, evs));
    lemma_events_batch_facts(id, base, now, evs);
    if n == base {
        lemma_events_upto_agree(j0, j1, id, base as int);
        assert(events_upto(j0, id, base as int) + evs.take(0) =~= events_upto(
            j0,
            id,
            base as int,
        ));
    } else {
        lemma_events_upto_batch(j0, id, base, now, evs, n - 1);
        assert(j1.dom().contains((id, n as u64)));
        assert(j1[(id, n as u64)] == (now, evs[n - base - 1]));
        assert(events_upto(j1, id, n) == events_upto(j1, id, n - 1) + seq![evs[n - base - 1]]);
        assert(evs.take(n - base) =~= evs.take(n - base - 1) + seq![evs[n - base - 1]]);
        assert((events_upto(j0, id, base as int) + evs.take(n - base - 1)) + seq![evs[n - base - 1]]
            =~= events_upto(j0, id, base as int) + (evs.take(n - base - 1) + seq![evs[n - base
            - 1]]));
    }
}

/// If every slot `1..=m` is present, the replayed range `[0, m]` is
/// exactly `1, 2, ..., m`, and its payloads are the payloads up to `m`.
pub proof fn lemma_contiguous_slice<T>(j: Journal<T>, id: Seq<char>, m: int)
    requires
        0 <= m <= u64::MAX,
        forall|s: u64| 1 <= s <= m ==> #[trigger] j.dom().contains((id, s)),
        !j.dom().contains((id, 0u64)),
    ensures
        journal_slice(j, id, 0, m).len() == m,
        slice_events(j, id, journal_slice(j, id, 0, m)) == events_upto(j, id, m),
    decreases m,
{
    if m == 0 {
        assert(journal_slice(j, id, 0, 0).len() == 0) by {
            assert(journal_slice(j, id, 0, -1) =~= Seq::<u64>::empty());
        }
        assert(slice_events(j, id, journal_slice(j, id, 0, 0)) =~= Seq::<T>::empty());
    } else {
        lemma_contiguous_slice(j, id, m - 1);
        assert(j.dom().contains((id, m as u64)));
        let ss0 = journal_slice(j, id, 0, m - 1);
        let ss1 = journal_slice(j, id, 0, m);
        assert(ss1 == ss0 + seq![m as u64]);
        assert(slice_events(j, id, ss1) =~= slice_events(j, id, ss0) + seq![j[(id, m as u64)].1]);
        assert(events_upto(j, id, m) == events_upto(j, id, m - 1) + seq![j[(id, m as u64)].1]);
    }
}

/// The absence of a journal entry for any slot of an entity, slot by slot.
pub open spec fn no_entries<T>(j: Journal<T>, id: Seq<char>) -> bool {
    forall|s: u64| !(#[trigger] j.dom().contains((id, s)))
}


/// The per-entity processor: in-memory state, the monotonic sequence
/// counter, and the entity id it is the sole writer for.
pub struct Processor<State: AggregateState> {
    entity_id: String,
    state: State,
    seq_nr: i64,
}

/// How one `process_command` call relates the processor and the journal
/// before the call to the processor, the journal, and the result after it.
///
/// On success the journal has gained exactly the command's events, at the
/// next consecutive sequence numbers, and the state is their fold; on any
/// failure the processor and — except for a failed write, the journal —
/// are exactly as they were.
pub open spec fn process_post<State: AggregateState, C: Command<State>>(
    pre: Processor<State>,
    j0: Journal<C::E>,
    cmd: C,
    now: i64,
    post: Processor<State>,
    j1: Journal<C::E>,
    r: Result<(), Error>,
) -> bool {
    let id = pre.entity_spec();
    let st0 = pre.state_spec();
    let evs = cmd.events_spec(st0);
    &&& post.entity_spec() == id
    &&& post.synced(j1)
    &&& match r {
        Ok(()) => {
            &&& cmd.validate_spec(st0)
            &&& cmd.directive_ok(st0)
            &&& evs.len() >= 1
            &&& pre.seq_nr_spec() + evs.len() <= i64::MAX
            &&& post.seq_nr_spec() == pre.seq_nr_spec() + evs.len()
            &&& post.state_spec() == fold_events(st0, evs)
            &&& j1 == j0.union_prefer_right(events_batch(id, pre.seq_nr_spec(), now, evs))
        },
        Err(e) => {
            &&& post.state_spec() == st0
            &&& post.seq_nr_spec() == pre.seq_nr_spec()
            &&& if !cmd.validate_spec(st0) {
                &&& e matches Error::Validation(_)
                &&& j1 == j0
            } else if !cmd.directive_ok(st0) {
                &&& !(e matches Error::Validation(_))
                &&& j1 == j0
            } else if pre.seq_nr_spec() + evs.len() > i64::MAX {
                &&& e matches Error::InvalidState(_)
                &&& j1 == j0
            } else {
                &&& e.is_infrastructure_spec()
                &&& j1 == j0
            }
        },
    }
}

impl<State: AggregateState> Processor<State> {
    /// The entity this processor writes for.
    pub closed spec fn entity_spec(self) -> Seq<char> {
        self.entity_id@
    }

    /// The processor's in-memory state.
    pub closed spec fn state_spec(self) -> State {
        self.state
    }

    /// The processor's sequence counter: the number of events it has
    /// journaled for its entity.
    pub closed spec fn seq_nr_spec(self) -> i64 {
        self.seq_nr
    }

    /// The processor agrees with the journal: the journal holds exactly
    /// the slots `1..=seq_nr` for its entity, and the state is the fold
    /// of their payloads over the initial state.
    pub open spec fn synced<E: Event<State>>(self, j: Journal<E>) -> bool {
        &&& self.state_spec().inv()
        &&& 0 <= self.seq_nr_spec()
        &&& forall|s: u64|
            1 <= s <= self.seq_nr_spec() ==> #[trigger] j.dom().contains((self.entity_spec(), s))
        &&& forall|s: u64|
            #[trigger] j.dom().contains((self.entity_spec(), s)) ==> 1 <= s <= self.seq_nr_spec()
        &&& self.state_spec() == fold_events(
            State::initial_spec(),
            events_upto(j, self.entity_spec(), self.seq_nr_spec() as int),
        )
    }

    /// Returns a copy of the current in-memory state.  This is the
    /// freshest value, because the processor is the sole writer.
    pub fn get_state(&self) -> (r: State)
        ensures
            r == self.state_spec(),
    {
        self.state.snapshot()
    }

    /// Returns the sequence counter.
    pub fn seq_nr(&self) -> (r: i64)
        ensures
            r == self.seq_nr_spec(),
    {
        self.seq_nr
    }

    /// Whether this processor writes for the given entity.
    pub fn has_entity(&self, id: &String) -> (r: bool)
        ensures
            r <==> self.entity_spec() == id@,
    {
        self.entity_id == *id
    }

    /// Returns the entity id this processor writes for.
    pub fn entity_id(&self) -> (r: &str)
        ensures
            r@ == self.entity_spec(),
    {
        self.entity_id.as_str()
    }

    /// Starts the processor for an entity whose journal holds no events:
    /// initial state, counter at zero.
    pub fn fresh(entity_id: String) -> (r: Self)
        ensures
            r.entity_spec() == entity_id@,
            r.state_spec() == State::initial_spec(),
            r.seq_nr_spec() == 0,
    {
        proof {
            State::lemma_initial_wf();
        }
        Processor { entity_id, state: State::initial(), seq_nr: 0 }
    }

    /// The critical section, at a given timestamp: validate, translate,
    /// assign sequence numbers, journal the batch atomically, fold the
    /// events into the state, run the effects.  A failed validation or a
    /// failed write leaves the state, the counter, and the journal
    /// unchanged.
    pub fn process_command_at<C: Command<State>, A: Adapter<C::E>>(
        &mut self,
        store: &mut A,
        cmd: &C,
        now: i64,
    ) -> (r: Result<(), Error>)
        requires
            old(self).synced(old(store).journal()),
            old(store).wf(),
            cmd.entity_spec() == old(self).entity_spec(),
        ensures
            final(store).wf(),
            process_post(
                *old(self),
                old(store).journal(),
                *cmd,
                now,
                *final(self),
                final(store).journal(),
                r,
            ),
    {
        let ghost j0 = store.journal();
        // 1. Validate; a rejection is terminal and changes nothing.
        if let Err(e) = cmd.validate(&self.state) {
            let msg = String::from_str("Command rejected: ").concat(e.message().as_str());
            return Err(Error::Validation(msg));
        }
        // 2. Translate the command into its events.
        let boxed = match cmd.directive(&self.state) {
            Ok(nev) => nev.into_vec(),
            Err(e) => {
                return Err(e);
            },
        };
        let mut events: Vec<C::E> = Vec::new();
        let mut bi: usize = 0;
        let ghost boxed0 = boxed@;
        let mut boxed = boxed;
        while boxed.len() > 0
            invariant
                events@.len() + boxed@.len() == boxed0.len(),
                boxed0.map(|i: int, e: Box<C::E>| *e) == events@ + boxed@.map(
                    |i: int, e: Box<C::E>| *e,
                ),
            decreases boxed@.len(),
        {
            let b = boxed.remove(0);
            events.push(*b);
            proof {
                assert(boxed0.map(|i: int, e: Box<C::E>| *e) =~= events@ + boxed@.map(
                    |i: int, e: Box<C::E>| *e,
                ));
            }
        }
        proof {
            assert(boxed@.map(|i: int, e: Box<C::E>| *e) =~= Seq::<C::E>::empty());
            assert(events@ + Seq::<C::E>::empty() =~= events@);
            assert(events@ == cmd.events_spec(self.state));
        }
        let k = events.len();
        // 3. The counter must not wrap.
        if k as u64 > (i64::MAX as u64) || self.seq_nr > i64::MAX - (k as i64) {
            return Err(Error::InvalidState(String::from_str("Sequence counter exhausted")));
        }
        // 4. Assign sequence numbers and build the event records.
        let mut records: Vec<Record<C::E>> = Vec::new();
        let mut i: usize = 0;
        while i < k
            invariant
                i <= k,
                k == events@.len(),
                0 <= self.seq_nr,
                self.seq_nr + k <= i64::MAX,
                records@.len() == i,
                forall|x: int|
                    0 <= x < i ==> {
                        &&& (#[trigger] records@[x]).entity_spec() == self.entity_id@
                        &&& records@[x].seq_nr_spec() == self.seq_nr + 1 + x
                        &&& records@[x].timestamp_spec() == now
                        &&& records@[x].message_spec() == events@[x]
                        &&& records@[x].tag_spec() is None
                    },
            decreases k - i,
        {
            let ev = events[i].duplicate();
            let seq = self.seq_nr + 1 + (i as i64);
            records.push(Record::event(self.entity_id.clone(), seq, ev, now));
            i += 1;
        }
        // 5. Journal the batch atomically; on failure nothing changes.
        proof {
            lemma_records_batch(records@, self.entity_id@, self.seq_nr, now, events@);
        }
        if let Err(e) = store.write(records) {
            return Err(e);
        }
        // 6. Fold the events into the state, from the current state.
        let old_state = self.state.snapshot();
        let mut st = self.state.snapshot();
        let mut fi: usize = 0;
        while fi < k
            invariant
                fi <= k,
                k == events@.len(),
                old_state.inv(),
                st.inv(),
                st == fold_events(old_state, events@.take(fi as int)),
            decreases k - fi,
        {
            proof {
                lemma_fold_events_snoc(old_state, events@.take(fi as int), events@[fi as int]);
                assert(events@.take(fi as int).push(events@[fi as int]) =~= events@.take(
                    fi as int + 1,
                ));
                lemma_fold_events_wf(old_state, events@.take(fi as int));
                events@[fi as int].lemma_apply_wf(st);
            }
            st = events[fi].apply(&st);
            fi += 1;
        }
        proof {
            assert(events@.take(k as int) =~= events@);
        }
        // 7. Post-commit effects; they cannot roll anything back.
        let mut ei: usize = 0;
        while ei < k
            invariant
                ei <= k,
                k == events@.len(),
            decreases k - ei,
        {
            events[ei].effects(&old_state, &st);
            ei += 1;
        }
        // 8. Commit.
        self.state = st;
        self.seq_nr = self.seq_nr + (k as i64);
        proof {
            let id = self.entity_id@;
            let base = old(self).seq_nr_spec();
            let evs = events@;
            let j1 = store.journal();
            lemma_events_batch_facts(id, base, now, evs);
            assert(j1 == j0.union_prefer_right(events_batch(id, base, now, evs)));
            lemma_events_upto_batch(j0, id, base, now, evs, base + evs.len());
            assert(evs.take(evs.len() as int) =~= evs);
            lemma_fold_events_concat(
                State::initial_spec(),
                events_upto(j0, id, base as int),
                evs,
            );
            lemma_fold_events_wf(old_state, evs);
        }
        Ok(())
    }

    /// The critical section, stamped with the wall clock.
    pub fn process_command<C: Command<State>, A: Adapter<C::E>>(
        &mut self,
        store: &mut A,
        cmd: &C,
    ) -> (r: Result<(), Error>)
        requires
            old(self).synced(old(store).journal()),
            old(store).wf(),
            cmd.entity_spec() == old(self).entity_spec(),
        ensures
            final(store).wf(),
            exists|now: i64|
                process_post(
                    *old(self),
                    old(store).journal(),
                    *cmd,
                    now,
                    *final(self),
                    final(store).journal(),
                    r,
                ),
    {
        let now = now_millis();
        let r = self.process_command_at(store, cmd, now);
        proof {
            assert(process_post(
                *old(self),
                old(store).journal(),
                *cmd,
                now,
                *self,
                store.journal(),
                r,
            ));
        }
        r
    }
}

/// The records the processor builds for one command are exactly the batch
/// the journal contract describes.
proof fn lemma_records_batch<T>(
    records: Seq<Record<T>>,
    id: Seq<char>,
    base: i64,
    now: i64,
    evs: Seq<T>,
)
    requires
        0 <= base,
        base + evs.len() <= i64::MAX,
        records.len() == evs.len(),
        forall|x: int|
            0 <= x < records.len() ==> {
                &&& (#[trigger] records[x]).entity_spec() == id
                &&& records[x].seq_nr_spec() == base + 1 + x
                &&& records[x].timestamp_spec() == now
                &&& records[x].message_spec() == evs[x]
                &&& records[x].tag_spec() is None
            },
    ensures
        batch_wf(records),
        batch_journal(records) == events_batch(id, base, now, evs),
    decreases records.len(),
{
    if records.len() > 0 {
        lemma_records_batch(records.drop_last(), id, base, now, evs.drop_last());
        assert(batch_journal(records) == batch_journal(records.drop_last()).insert(
            (records.last().entity_spec(), records.last().seq_nr_spec() as u64),
            (records.last().timestamp_spec(), records.last().message_spec()),
        ));
        assert(records.last().seq_nr_spec() as u64 == (base + evs.len()) as u64);
        assert(records.last().message_spec() == evs.last());
    }
}


/// How many more records than the highest sequence number the recovery
/// replay asks for.
const BUFFER_SIZE: u64 = 100;

/// Folds replayed records over the initial state, in order.
fn fold_replayed<State: AggregateState, E: Event<State>>(recs: &Vec<Record<E>>) -> (st: State)
    ensures
        st == fold_events(
            State::initial_spec(),
            recs@.map(|i: int, r: Record<E>| r.message_spec()),
        ),
        st.inv(),
{
    proof {
        State::lemma_initial_wf();
    }
    let ghost evs = recs@.map(|i: int, r: Record<E>| r.message_spec());
    let mut st = State::initial();
    let n = recs.len();
    let mut i: usize = 0;
    proof {
        assert(evs.take(0) =~= Seq::<E>::empty());
    }
    while i < n
        invariant
            i <= n,
            n == recs@.len(),
            evs == recs@.map(|i: int, r: Record<E>| r.message_spec()),
            st.inv(),
            st == fold_events(State::initial_spec(), evs.take(i as int)),
        decreases n - i,
    {
        proof {
            lemma_fold_events_snoc(State::initial_spec(), evs.take(i as int), evs[i as int]);
            assert(evs.take(i as int).push(evs[i as int]) =~= evs.take(i as int + 1));
            evs[i as int].lemma_apply_wf(st);
        }
        st = recs[i].message().apply(&st);
        i += 1;
    }
    proof {
        assert(evs.take(n as int) =~= evs);
    }
    st
}

/// The state recovered from the journal alone: the fold of the replayed
/// range `[0, highest]` over the initial state.
///
/// An entity with no journaled events is reported as unknown.
pub fn recover_state<State: AggregateState, E: Event<State>, A: Adapter<E>>(
    store: &A,
    entity_id: &str,
) -> (r: Result<State, Error>)
    requires
        store.wf(),
    ensures
        match r {
            Ok(st) => exists|h: u64|
                #[trigger] is_highest(store.journal(), entity_id@, h) && st == fold_events(
                    State::initial_spec(),
                    slice_events(
                        store.journal(),
                        entity_id@,
                        journal_slice(store.journal(), entity_id@, 0, h as int),
                    ),
                ),
            Err(e) => e.is_infrastructure_spec() || (no_entries(store.journal(), entity_id@)
                && e matches Error::InvalidCommand(_)) || (e matches Error::InvalidState(_)
                && exists|s: u64|
                #[trigger] store.journal().dom().contains((entity_id@, s)) && s > i64::MAX as u64),
        },
{
    let ghost j = store.journal();
    let ghost id = entity_id@;
    let h = match store.read_highest_sequence_number(entity_id) {
        Err(e) => {
            return Err(e);
        },
        Ok(None) => {
            return Err(
                Error::InvalidCommand(String::from_str("Could not find entity with this id")),
            );
        },
        Ok(Some(h)) => h,
    };
    if h > i64::MAX as u64 {
        return Err(Error::InvalidState(String::from_str("Sequence counter out of range")));
    }
    let max = if h > u64::MAX - BUFFER_SIZE {
        u64::MAX
    } else {
        h + BUFFER_SIZE
    };
    let recs = match store.replay(entity_id, 0, h, max) {
        Err(e) => {
            return Err(e);
        },
        Ok(recs) => recs,
    };
    proof {
        crate::storage::lemma_journal_slice_len(j, id, 0, h as int);
        let ss0 = journal_slice(j, id, 0, h as int);
        assert(!(ss0.len() > max));
        assert(recs@.map(|i: int, r: Record<E>| r.message_spec()) =~= slice_events(j, id, ss0));
    }
    let st = fold_replayed(&recs);
    proof {
        assert(is_highest(j, id, h) && st == fold_events(
            State::initial_spec(),
            slice_events(j, id, journal_slice(j, id, 0, h as int)),
        ));
    }
    Ok(st)
}

impl<State: AggregateState> Processor<State> {
    /// Starts the processor for an entity, hydrating state and counter
    /// from the journal, as recovery does.
    pub fn activate<E: Event<State>, A: Adapter<E>>(store: &A, entity_id: String) -> (r: Result<
        Self,
        Error,
    >)
        requires
            store.wf(),
        ensures
            match r {
                Ok(p) => {
                    &&& p.entity_spec() == entity_id@
                    &&& 0 <= p.seq_nr_spec()
                    &&& ((no_entries(store.journal(), entity_id@) && p.seq_nr_spec() == 0
                        && p.state_spec() == State::initial_spec()) || (is_highest(
                        store.journal(),
                        entity_id@,
                        p.seq_nr_spec() as u64,
                    ) && p.state_spec() == fold_events(
                        State::initial_spec(),
                        slice_events(
                            store.journal(),
                            entity_id@,
                            journal_slice(
                                store.journal(),
                                entity_id@,
                                0,
                                p.seq_nr_spec() as int,
                            ),
                        ),
                    )))
                },
                Err(e) => e.is_infrastructure_spec() || (e matches Error::InvalidState(_)
                    && exists|s: u64|
                    #[trigger] store.journal().dom().contains((entity_id@, s)) && s > i64::MAX
                        as u64),
            },
    {
        let ghost j = store.journal();
        let ghost id = entity_id@;
        let h = match store.read_highest_sequence_number(entity_id.as_str()) {
            Err(e) => {
                return Err(e);
            },
            Ok(None) => {
                return Ok(Self::fresh(entity_id));
            },
            Ok(Some(h)) => h,
        };
        if h > i64::MAX as u64 {
            return Err(Error::InvalidState(String::from_str("Sequence counter out of range")));
        }
        let max = if h > u64::MAX - BUFFER_SIZE {
            u64::MAX
        } else {
            h + BUFFER_SIZE
        };
        let recs = match store.replay(entity_id.as_str(), 0, h, max) {
            Err(e) => {
                return Err(e);
            },
            Ok(recs) => recs,
        };
        proof {
            crate::storage::lemma_journal_slice_len(j, id, 0, h as int);
            let ss0 = journal_slice(j, id, 0, h as int);
            assert(!(ss0.len() > max));
            assert(recs@.map(|i: int, r: Record<E>| r.message_spec()) =~= slice_events(j, id, ss0));
        }
        let st = fold_replayed(&recs);
        Ok(Processor { entity_id, state: st, seq_nr: h as i64 })
    }
}

/// Law: a processor in sync with its journal is reproduced exactly by
/// replaying the journal on a fresh processor — the live state is the
/// fold of the journal, and the journal's highest slot is the counter.
pub proof fn lemma_replay_matches_live<State: AggregateState, E: Event<State>>(
    p: Processor<State>,
    j: Journal<E>,
)
    requires
        p.synced(j),
    ensures
        p.seq_nr_spec() == 0 ==> no_entries(j, p.entity_spec()),
        p.seq_nr_spec() >= 1 ==> is_highest(j, p.entity_spec(), p.seq_nr_spec() as u64),
        forall|h: u64|
            #[trigger] is_highest(j, p.entity_spec(), h) ==> fold_events(
                State::initial_spec(),
                slice_events(j, p.entity_spec(), journal_slice(j, p.entity_spec(), 0, h as int)),
            ) == p.state_spec(),
{
    let id = p.entity_spec();
    let n = p.seq_nr_spec();
    assert forall|h: u64| #[trigger] is_highest(j, id, h) implies fold_events(
        State::initial_spec(),
        slice_events(j, id, journal_slice(j, id, 0, h as int)),
    ) == p.state_spec() by {
        assert(h == n as u64);
        lemma_contiguous_slice(j, id, h as int);
    }
}

/// Law: a successful command appends exactly its events to the entity's
/// journaled history, in order, after everything already journaled.
pub proof fn lemma_command_appends<State: AggregateState, C: Command<State>>(
    pre: Processor<State>,
    j0: Journal<C::E>,
    cmd: C,
    now: i64,
    post: Processor<State>,
    j1: Journal<C::E>,
)
    requires
        pre.synced(j0),
        process_post(pre, j0, cmd, now, post, j1, Ok(())),
    ensures
        events_upto(j1, pre.entity_spec(), post.seq_nr_spec() as int) == events_upto(
            j0,
            pre.entity_spec(),
            pre.seq_nr_spec() as int,
        ) + cmd.events_spec(pre.state_spec()),
{
    let id = pre.entity_spec();
    let base = pre.seq_nr_spec();
    let evs = cmd.events_spec(pre.state_spec());
    lemma_events_upto_batch(j0, id, base, now, evs, base + evs.len());
    assert(evs.take(evs.len() as int) =~= evs);
}

/// Law: for one entity, the journal holds the events of two successive
/// commands in submission order — the first command's events at strictly
/// lower sequence numbers, then the second's.
pub proof fn lemma_commands_ordered<State: AggregateState, C: Command<State>>(
    p0: Processor<State>,
    j0: Journal<C::E>,
    c1: C,
    t1: i64,
    p1: Processor<State>,
    j1: Journal<C::E>,
    c2: C,
    t2: i64,
    p2: Processor<State>,
    j2: Journal<C::E>,
)
    requires
        p0.synced(j0),
        process_post(p0, j0, c1, t1, p1, j1, Ok(())),
        process_post(p1, j1, c2, t2, p2, j2, Ok(())),
    ensures
        p0.seq_nr_spec() < p1.seq_nr_spec() < p2.seq_nr_spec(),
        events_upto(j2, p0.entity_spec(), p2.seq_nr_spec() as int) == events_upto(
            j0,
            p0.entity_spec(),
            p0.seq_nr_spec() as int,
        ) + c1.events_spec(p0.state_spec()) + c2.events_spec(p1.state_spec()),
{
    lemma_command_appends(p0, j0, c1, t1, p1, j1);
    lemma_command_appends(p1, j1, c2, t2, p2, j2);
}


/// Law: a processor in sync with its journal holds, for its entity,
/// exactly the contiguous slots `1..=seq_nr`, and its state is the fold
/// of their payloads over the initial state.  Every run of the critical
/// section preserves the sync, so this holds after any number of
/// successful commands.
pub proof fn lemma_history_contiguous<State: AggregateState, E: Event<State>>(
    p: Processor<State>,
    j: Journal<E>,
)
    requires
        p.synced(j),
    ensures
        forall|s: u64|
            #[trigger] j.dom().contains((p.entity_spec(), s)) <==> 1 <= s <= p.seq_nr_spec(),
        p.state_spec() == fold_events(
            State::initial_spec(),
            events_upto(j, p.entity_spec(), p.seq_nr_spec() as int),
        ),
{
}


/// Law: the critical section reports a validation error exactly when
/// validation rejected the command against the state the processor held
/// before the call — and a rejected command changes nothing.
pub proof fn lemma_validation_error_exact<State: AggregateState, C: Command<State>>(
    pre: Processor<State>,
    j0: Journal<C::E>,
    cmd: C,
    now: i64,
    post: Processor<State>,
    j1: Journal<C::E>,
    r: Result<(), Error>,
)
    requires
        process_post(pre, j0, cmd, now, post, j1, r),
    ensures
        (r matches Err(e) && e matches Error::Validation(_)) <==> !cmd.validate_spec(
            pre.state_spec(),
        ),
        !cmd.validate_spec(pre.state_spec()) ==> j1 == j0 && post.state_spec() == pre.state_spec()
            && post.seq_nr_spec() == pre.seq_nr_spec(),
{
}

} // verus!
