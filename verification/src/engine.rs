//! The engine: the per-entity registry and the decisions of the
//! dispatcher and the ingress.
//!
//! The engine owns the journal and one processor per entity id, created
//! on first sight and hydrated from the journal.  Commands for one entity
//! are handled strictly in submission order; entities do not interfere
//! with one another.  The broker plumbing around it — producing,
//! consuming, committing offsets — lives outside and calls in with plain
//! values; the decisions it must not get wrong (which keys are valid,
//! when offsets may be committed) are verified here.

use crate::clock::now_millis;
use crate::codec::bytes_to_string;
use crate::command::Command;
use crate::error::Error;
use crate::event::{fold_events, lemma_fold_events_wf, AggregateState, Event};
use crate::processor::{events_batch, events_upto, is_highest, lemma_contiguous_slice, lemma_events_batch_facts, lemma_events_upto_agree, no_entries, process_post, slice_events, Processor};
use crate::record::{Meta, Record};
use crate::storage::{journal_slice, Adapter, Journal};
use core::marker::PhantomData;
use vstd::prelude::*;
use vstd::utf8::{decode_utf8, encode_utf8_decode_utf8, valid_utf8};

verus! {

/// A journal every entity's history is contiguous in: slots start at one,
/// stay within the signed range, and have no gaps.
pub open spec fn journal_shaped<T>(j: Journal<T>) -> bool {
    forall|id: Seq<char>, s: u64|
        #[trigger] j.dom().contains((id, s)) ==> 1 <= s <= i64::MAX as u64 && (s > 1
            ==> j.dom().contains((id, (s - 1) as u64)))
}

/// In a shaped journal, every slot below a present one is present.
proof fn lemma_shaped_contiguous<T>(j: Journal<T>, id: Seq<char>, h: u64, s: u64)
    requires
        journal_shaped(j),
        j.dom().contains((id, h)),
        1 <= s <= h,
    ensures
        j.dom().contains((id, s)),
    decreases h - s,
{
    if s < h {
        lemma_shaped_contiguous(j, id, (h - 1) as u64, s);
    }
}

/// A processor hydrated from a shaped journal agrees with it.
proof fn lemma_hydrated_synced<State: AggregateState, E: Event<State>>(
    p: Processor<State>,
    j: Journal<E>,
)
    requires
        journal_shaped(j),
        0 <= p.seq_nr_spec(),
        (no_entries(j, p.entity_spec()) && p.seq_nr_spec() == 0 && p.state_spec()
            == State::initial_spec()) || (is_highest(j, p.entity_spec(), p.seq_nr_spec() as u64)
            && p.state_spec() == fold_events(
            State::initial_spec(),
            slice_events(
                j,
                p.entity_spec(),
                journal_slice(j, p.entity_spec(), 0, p.seq_nr_spec() as int),
            ),
        )),
    ensures
        p.synced(j),
{
    let id = p.entity_spec();
    State::lemma_initial_wf();
    if no_entries(j, id) && p.seq_nr_spec() == 0 {
        assert(events_upto(j, id, 0) =~= Seq::<E>::empty());
    } else {
        let h = p.seq_nr_spec() as u64;
        assert(is_highest(j, id, h));
        assert forall|s: u64| 1 <= s <= h implies #[trigger] j.dom().contains((id, s)) by {
            lemma_shaped_contiguous(j, id, h, s);
        }
        assert(!j.dom().contains((id, 0u64)));
        lemma_contiguous_slice(j, id, h as int);
        lemma_fold_events_wf(State::initial_spec(), events_upto(j, id, h as int));
    }
}

/// Offsets may be committed only when no outcome in the chunk carries an
/// infrastructure error: a validation failure is terminal for its
/// command, but a storage or connection failure must be retried by
/// redelivery.
pub fn commit_allowed(results: &Vec<Result<(), Error>>) -> (r: bool)
    ensures
        r <==> forall|i: int|
            0 <= i < results@.len() ==> !((#[trigger] results@[i]) matches Err(e)
                && e.is_infrastructure_spec()),
{
    let n = results.len();
    let mut i: usize = 0;
    while i < n
        invariant
            n == results@.len(),
            i <= n,
            forall|k: int|
                0 <= k < i ==> !((#[trigger] results@[k]) matches Err(e)
                    && e.is_infrastructure_spec()),
        decreases n - i,
    {
        match &results[i] {
            Err(e) => {
                if e.is_infrastructure() {
                    return false;
                }
            },
            Ok(_) => {},
        }
        i += 1;
    }
    true
}

/// Decodes a broker message key into an entity id: a missing key and a
/// key that is not valid UTF-8 are each rejected with their own kind.
pub fn parse_entity_id(key: Option<Vec<u8>>) -> (r: Result<String, Error>)
    ensures
        match r {
            Ok(s) => key matches Some(b) && valid_utf8(b@) && s@ == decode_utf8(b@),
            Err(e) => (key is None && e matches Error::InvalidKey(_)) || (key matches Some(b)
                && !valid_utf8(b@) && e matches Error::InvalidEntityId(_)),
        },
{
    let bytes = match key {
        None => {
            return Err(Error::InvalidKey(String::from_str("Message carries no key")));
        },
        Some(b) => b,
    };
    let ghost bv = bytes@;
    match bytes_to_string(bytes) {
        None => Err(Error::InvalidEntityId(String::from_str("Key is not valid UTF-8"))),
        Some(s) => {
            proof {
                encode_utf8_decode_utf8(s@);
            }
            Ok(s)
        },
    }
}

/// Whether a chunk is small enough that the dispatcher should sleep
/// before processing it, to coalesce bursts.
pub fn should_coalesce(chunk_len: usize) -> (r: bool)
    ensures
        r <==> chunk_len <= 2,
{
    chunk_len <= 2
}

/// The ingress-side counter: stamps each submitted command with a
/// process-wide, strictly increasing diagnostic sequence number.
pub struct IngressSequencer {
    seq_nr: i64,
}

impl IngressSequencer {
    /// The next number to be handed out.
    pub closed spec fn current(self) -> i64 {
        self.seq_nr
    }

    /// A counter starting at zero.
    pub fn new() -> (r: Self)
        ensures
            r.current() == 0,
    {
        IngressSequencer { seq_nr: 0 }
    }

    /// Hands out the current number and advances; `None` once the counter
    /// is exhausted.
    pub fn next(&mut self) -> (r: Option<i64>)
        ensures
            old(self).current() < i64::MAX ==> (r == Some(old(self).current())
                && final(self).current() == old(self).current() + 1),
            old(self).current() == i64::MAX ==> (r is None
                && final(self).current() == old(self).current()),
    {
        if self.seq_nr == i64::MAX {
            return None;
        }
        let r = self.seq_nr;
        self.seq_nr = self.seq_nr + 1;
        Some(r)
    }
}

/// Envelopes a submitted command for the broker: keyed by its entity id,
/// tagged with its name, stamped with the ingress sequence number and the
/// given timestamp.
pub fn make_command_record<State: AggregateState, C: Command<State>>(
    cmd: C,
    seq_nr: i64,
    now: i64,
) -> (r: Record<C>)
    ensures
        r.entity_spec() == cmd.entity_spec(),
        r.seq_nr_spec() == seq_nr,
        r.timestamp_spec() == now,
        r.message_spec() == cmd,
        r.tag_spec() matches Some(t) && t == cmd.name_spec(),
{
    let id = cmd.entity_id();
    let name = cmd.name();
    Record::command(id.as_str(), cmd, now, name, seq_nr)
}

/// The engine: the journal and one processor per entity, created on
/// first sight.
pub struct Engine<State: AggregateState, C: Command<State>, A: Adapter<C::E>> {
    procs: Vec<Processor<State>>,
    store: A,
    _commands: PhantomData<C>,
}

impl<State: AggregateState, C: Command<State>, A: Adapter<C::E>> Engine<State, C, A> {
    /// The engine's journal.
    pub closed spec fn journal(self) -> Journal<C::E> {
        self.store.journal()
    }

    /// The in-memory state of the live processor for an entity, if one
    /// has been created.
    pub closed spec fn live_state(self, id: Seq<char>) -> Option<State> {
        if exists|i: int|
            0 <= i < self.procs@.len() && (#[trigger] self.procs@[i]).entity_spec() == id {
            let i = choose|i: int|
                0 <= i < self.procs@.len() && (#[trigger] self.procs@[i]).entity_spec() == id;
            Some(self.procs@[i].state_spec())
        } else {
            None
        }
    }

    /// The engine's invariant: a well-formed, shaped journal, one
    /// processor per entity, each in sync with the journal.
    pub closed spec fn wf_spec(self) -> bool {
        &&& self.store.wf()
        &&& journal_shaped(self.store.journal())
        &&& forall|i: int, k: int|
            0 <= i < k < self.procs@.len() ==> (#[trigger] self.procs@[i]).entity_spec() != (
            #[trigger] self.procs@[k]).entity_spec()
        &&& forall|i: int|
            0 <= i < self.procs@.len() ==> (#[trigger] self.procs@[i]).synced(self.store.journal())
    }

    /// The registry's processors, in registry order.
    pub closed spec fn procs_view(self) -> Seq<Processor<State>> {
        self.procs@
    }

    /// The live state of an entity served by exactly one processor is
    /// that processor's state.
    proof fn lemma_live_state_unique(self, i: int, id: Seq<char>)
        requires
            0 <= i < self.procs@.len(),
            self.procs@[i].entity_spec() == id,
            forall|k: int|
                0 <= k < self.procs@.len() && k != i ==> (#[trigger] self.procs@[k]).entity_spec()
                    != id,
        ensures
            self.live_state(id) == Some(self.procs@[i].state_spec()),
    {
        assert(exists|k: int|
            0 <= k < self.procs@.len() && (#[trigger] self.procs@[k]).entity_spec() == id);
        let k = choose|k: int|
            0 <= k < self.procs@.len() && (#[trigger] self.procs@[k]).entity_spec() == id;
        assert(k == i);
    }

    /// The live state of the entity a given processor serves.
    proof fn lemma_live_state_at(self, i: int)
        requires
            self.wf_spec(),
            0 <= i < self.procs@.len(),
        ensures
            self.live_state(self.procs@[i].entity_spec()) == Some(self.procs@[i].state_spec()),
    {
        let id = self.procs@[i].entity_spec();
        assert forall|k: int|
            0 <= k < self.procs@.len() && k != i implies (#[trigger] self.procs@[k]).entity_spec()
            != id by {
            if k < i {
                assert(self.procs@[k].entity_spec() != self.procs@[i].entity_spec());
            }
        }
        self.lemma_live_state_unique(i, id);
    }

    /// An entity no processor serves has no live state.
    proof fn lemma_no_live_state(self, id: Seq<char>)
        requires
            forall|i: int|
                0 <= i < self.procs@.len() ==> (#[trigger] self.procs@[i]).entity_spec() != id,
        ensures
            self.live_state(id) is None,
    {
    }

    /// Starts an engine over a journal whose histories are contiguous —
    /// an empty journal, or one written by an engine.
    pub fn start(store: A) -> (r: Self)
        requires
            store.wf(),
            journal_shaped(store.journal()),
        ensures
            r.wf_spec(),
            r.journal() == store.journal(),
            forall|id: Seq<char>| r.live_state(id) is None,
    {
        let e = Engine { procs: Vec::new(), store, _commands: PhantomData };
        proof {
            assert forall|id: Seq<char>| e.live_state(id) is None by {
                e.lemma_no_live_state(id);
            }
        }
        e
    }
}


/// A processor for another entity stays in sync when a batch for this
/// entity is appended.
proof fn lemma_other_synced<State: AggregateState, E: Event<State>>(
    q: Processor<State>,
    j0: Journal<E>,
    j1: Journal<E>,
    id: Seq<char>,
    base: i64,
    now: i64,
    evs: Seq<E>,
)
    requires
        q.synced(j0),
        q.entity_spec() != id,
        j1 == j0.union_prefer_right(events_batch(id, base, now, evs)),
        0 <= base,
        base + evs.len() <= i64::MAX,
    ensures
        q.synced(j1),
{
    lemma_events_batch_facts(id, base, now, evs);
    let qid = q.entity_spec();
    assert forall|s: u64|
        #[trigger] j1.dom().contains((qid, s)) implies j0.dom().contains((qid, s)) by {}
    lemma_events_upto_agree(j0, j1, qid, q.seq_nr_spec() as int);
}

/// Appending a contiguous batch for one entity keeps the journal shaped.
proof fn lemma_shaped_after_batch<T>(
    j0: Journal<T>,
    j1: Journal<T>,
    id: Seq<char>,
    base: i64,
    now: i64,
    evs: Seq<T>,
)
    requires
        journal_shaped(j0),
        j1 == j0.union_prefer_right(events_batch(id, base, now, evs)),
        0 <= base,
        base + evs.len() <= i64::MAX,
        base >= 1 ==> j0.dom().contains((id, base as u64)),
    ensures
        journal_shaped(j1),
{
    lemma_events_batch_facts(id, base, now, evs);
    assert forall|id2: Seq<char>, s: u64|
        #[trigger] j1.dom().contains((id2, s)) implies 1 <= s <= i64::MAX as u64 && (s > 1
        ==> j1.dom().contains((id2, (s - 1) as u64))) by {
        if events_batch(id, base, now, evs).dom().contains((id2, s)) {
            assert(id2 == id && base < s <= base + evs.len());
            if s > 1 {
                if s - 1 > base {
                    assert(events_batch(id, base, now, evs).dom().contains((id, (s - 1) as u64)));
                } else {
                    assert(s - 1 == base);
                    assert(j0.dom().contains((id, base as u64)));
                }
            }
        } else {
            assert(j0.dom().contains((id2, s)));
        }
    }
}

impl<State: AggregateState, C: Command<State>, A: Adapter<C::E>> Engine<State, C, A> {
    /// Handles one command at a given timestamp: routes it to the
    /// processor for its entity — creating and hydrating one on first
    /// sight — and runs the critical section.  Entities other than the
    /// command's are untouched, in the journal and in memory.
    pub fn enqueue_at(&mut self, command: &C, now: i64) -> (r: Result<(), Error>)
        requires
            old(self).wf_spec(),
        ensures
            final(self).wf_spec(),
            forall|id2: Seq<char>, s: u64|
                id2 != command.entity_spec() ==> ((#[trigger] final(self).journal().dom().contains(
                    (id2, s),
                ) <==> old(self).journal().dom().contains((id2, s))) && (old(
                    self,
                ).journal().dom().contains((id2, s)) ==> final(self).journal()[(id2, s)] == old(
                    self,
                ).journal()[(id2, s)])),
            forall|id2: Seq<char>|
                id2 != command.entity_spec() ==> #[trigger] final(self).live_state(id2) == old(
                    self,
                ).live_state(id2),
            (exists|pre: Processor<State>, post: Processor<State>|
                {
                    &&& pre.entity_spec() == command.entity_spec()
                    &&& pre.synced(old(self).journal())
                    &&& (old(self).live_state(command.entity_spec()) matches Some(st)
                        ==> pre.state_spec() == st)
                    &&& #[trigger] process_post(
                        pre,
                        old(self).journal(),
                        *command,
                        now,
                        post,
                        final(self).journal(),
                        r,
                    )
                    &&& final(self).live_state(command.entity_spec()) == Some(post.state_spec())
                }) || (r matches Err(e) && (e.is_infrastructure_spec() || e matches
            Error::InvalidState(_)) && final(self).journal() == old(self).journal() && forall|
                id2: Seq<char>,
            |
                #[trigger] final(self).live_state(id2) == old(self).live_state(id2)),
    {
        let cid = command.entity_id();
        let ghost id = command.entity_spec();
        let ghost j0 = self.store.journal();
        let ghost eng0 = *self;
        let n = self.procs.len();
        let mut idx: usize = n;
        let mut i: usize = 0;
        while i < n
            invariant
                n == self.procs@.len(),
                i <= n,
                idx <= n,
                cid@ == id,
                *self == eng0,
                idx == n ==> forall|k: int|
                    0 <= k < i ==> (#[trigger] self.procs@[k]).entity_spec() != id,
                idx < n ==> self.procs@[idx as int].entity_spec() == id,
            decreases n - i,
        {
            if idx == n && self.procs[i].has_entity(&cid) {
                idx = i;
            }
            i += 1;
        }
        if idx == n {
            // First sight of this entity: hydrate a processor from the
            // journal.
            let p = match Processor::<State>::activate::<C::E, A>(&self.store, cid.clone()) {
                Err(e) => {
                    proof {
                        assert forall|id2: Seq<char>|
                            #[trigger] self.live_state(id2) == eng0.live_state(id2) by {}
                    }
                    return Err(e);
                },
                Ok(p) => p,
            };
            proof {
                lemma_hydrated_synced(p, j0);
                eng0.lemma_no_live_state(id);
            }
            self.procs.push(p);
        }
        let ghost procs1 = self.procs@;
        let ghost found = idx < n;
        let mut p = self.procs.swap_remove(idx);
        let ghost pre = p;
        proof {
            if found {
                eng0.lemma_live_state_at(idx as int);
            }
        }
        let r = p.process_command_at(&mut self.store, command, now);
        let ghost post = p;
        let ghost j1 = self.store.journal();
        self.procs.push(p);
        proof {
            let base = pre.seq_nr_spec();
            let evs = command.events_spec(pre.state_spec());
            // The journal either gained this entity's batch or is unchanged.
            if r is Ok {
                lemma_events_batch_facts(id, base, now, evs);
                lemma_shaped_after_batch(j0, j1, id, base, now, evs);
            } else {
                assert(j1 == j0);
            }
            // Every processor is in sync with the new journal.
            assert forall|k: int|
                0 <= k < self.procs@.len() implies (#[trigger] self.procs@[k]).synced(j1) by {
                if k == self.procs@.len() - 1 {
                    assert(self.procs@[k] == post);
                } else {
                    let q = self.procs@[k];
                    assert(q.synced(j0) && q.entity_spec() != id) by {
                        lemma_registry_member(procs1, idx as int, k, id);
                    }
                    if r is Ok {
                        lemma_other_synced(q, j0, j1, id, base, now, evs);
                    }
                }
            }
            // Distinct entities.
            assert forall|a: int, b: int|
                0 <= a < b < self.procs@.len() implies (#[trigger] self.procs@[a]).entity_spec()
                != (#[trigger] self.procs@[b]).entity_spec() by {
                lemma_registry_member(procs1, idx as int, a, id);
                if b < self.procs@.len() - 1 {
                    lemma_registry_member(procs1, idx as int, b, id);
                }
            }
            // Other entities' journal slots are untouched.
            if r is Ok {
                assert forall|id2: Seq<char>, s: u64|
                    id2 != id implies ((#[trigger] j1.dom().contains((id2, s))
                    <==> j0.dom().contains((id2, s))) && (j0.dom().contains((id2, s)) ==> j1[
                    (id2, s)
                ] == j0[(id2, s)])) by {}
            }
            // Other entities' live state is untouched.
            if found {
                assert(eng0.procs_view() =~= procs1);
            } else {
                assert(eng0.procs_view() =~= procs1.drop_last());
            }
            assert forall|id2: Seq<char>|
                id2 != id implies #[trigger] self.live_state(id2) == eng0.live_state(id2) by {
                lemma_live_state_frame(eng0, procs1, *self, idx as int, id, id2, post);
            }
            // The target entity's live state is the processed state.
            self.lemma_live_state_at(self.procs@.len() - 1);
            assert(eng0 == *old(self));
            assert(exists|pre2: Processor<State>, post2: Processor<State>|
                {
                    &&& pre2.entity_spec() == command.entity_spec()
                    &&& pre2.synced(old(self).journal())
                    &&& (old(self).live_state(command.entity_spec()) matches Some(st)
                        ==> pre2.state_spec() == st)
                    &&& #[trigger] process_post(
                        pre2,
                        old(self).journal(),
                        *command,
                        now,
                        post2,
                        self.journal(),
                        r,
                    )
                    &&& self.live_state(command.entity_spec()) == Some(post2.state_spec())
                }) by {
                assert(pre.entity_spec() == id && pre.synced(j0) && (eng0.live_state(id)
                    matches Some(st) ==> pre.state_spec() == st) && self.live_state(id) == Some(
                    post.state_spec(),
                ));
                assert(process_post(
                    pre,
                    old(self).journal(),
                    *command,
                    now,
                    post,
                    self.journal(),
                    r,
                ));
            }
        }
        r
    }

    /// Handles one command, stamped with the wall clock.
    pub fn enqueue(&mut self, command: &C) -> (r: Result<(), Error>)
        requires
            old(self).wf_spec(),
        ensures
            final(self).wf_spec(),
            forall|id2: Seq<char>|
                id2 != command.entity_spec() ==> #[trigger] final(self).live_state(id2) == old(
                    self,
                ).live_state(id2),
            (exists|now: i64, pre: Processor<State>, post: Processor<State>|
                {
                    &&& pre.entity_spec() == command.entity_spec()
                    &&& pre.synced(old(self).journal())
                    &&& (old(self).live_state(command.entity_spec()) matches Some(st)
                        ==> pre.state_spec() == st)
                    &&& #[trigger] process_post(
                        pre,
                        old(self).journal(),
                        *command,
                        now,
                        post,
                        final(self).journal(),
                        r,
                    )
                    &&& final(self).live_state(command.entity_spec()) == Some(post.state_spec())
                }) || (r matches Err(e) && (e.is_infrastructure_spec() || e matches
            Error::InvalidState(_)) && final(self).journal() == old(self).journal() && forall|
                id2: Seq<char>,
            |
                #[trigger] final(self).live_state(id2) == old(self).live_state(id2)),
    {
        let now = now_millis();
        self.enqueue_at(command, now)
    }

    /// Routes a decoded command record to its entity's processor, as the
    /// dispatcher does for each record of a chunk.
    pub fn dispatch_at(&mut self, record: &Record<C>, now: i64) -> (r: Result<(), Error>)
        requires
            old(self).wf_spec(),
        ensures
            final(self).wf_spec(),
            forall|id2: Seq<char>|
                id2 != record.message_spec().entity_spec() ==> #[trigger] final(self).live_state(
                    id2,
                ) == old(self).live_state(id2),
            (exists|pre: Processor<State>, post: Processor<State>|
                {
                    &&& pre.entity_spec() == record.message_spec().entity_spec()
                    &&& pre.synced(old(self).journal())
                    &&& #[trigger] process_post(
                        pre,
                        old(self).journal(),
                        record.message_spec(),
                        now,
                        post,
                        final(self).journal(),
                        r,
                    )
                }) || (r matches Err(e) && (e.is_infrastructure_spec() || e matches
            Error::InvalidState(_)) && final(self).journal() == old(self).journal()),
    {
        self.enqueue_at(record.message(), now)
    }

    /// Returns the freshest state of an entity: the live processor's
    /// state when one exists, else the fold of the entity's journal —
    /// the cold path of recovery.  An entity with neither is unknown.
    pub fn state(&self, entity_id: &str) -> (r: Result<State, Error>)
        requires
            self.wf_spec(),
        ensures
            match r {
                Ok(st) => (self.live_state(entity_id@) == Some(st)) || (self.live_state(entity_id@)
                    is None && exists|h: u64|
                    #[trigger] is_highest(self.journal(), entity_id@, h) && st == fold_events(
                        State::initial_spec(),
                        slice_events(
                            self.journal(),
                            entity_id@,
                            journal_slice(self.journal(), entity_id@, 0, h as int),
                        ),
                    )),
                Err(e) => self.live_state(entity_id@) is None && (e.is_infrastructure_spec() || (
                no_entries(self.journal(), entity_id@) && e matches Error::InvalidCommand(_))
                    || e matches Error::InvalidState(_)),
            },
    {
        let cid = String::from_str(entity_id);
        let n = self.procs.len();
        let mut i: usize = 0;
        while i < n
            invariant
                self.wf_spec(),
                n == self.procs@.len(),
                i <= n,
                cid@ == entity_id@,
                forall|k: int|
                    0 <= k < i ==> (#[trigger] self.procs@[k]).entity_spec() != entity_id@,
            decreases n - i,
        {
            if self.procs[i].has_entity(&cid) {
                proof {
                    self.lemma_live_state_at(i as int);
                }
                return Ok(self.procs[i].get_state());
            }
            i += 1;
        }
        proof {
            self.lemma_no_live_state(entity_id@);
        }
        let r = crate::processor::recover_state::<State, C::E, A>(&self.store, entity_id);
        proof {
            if r is Ok {
                let st = r.unwrap();
                let h = choose|h: u64|
                    #[trigger] is_highest(self.store.journal(), entity_id@, h) && st == fold_events(
                        State::initial_spec(),
                        slice_events(
                            self.store.journal(),
                            entity_id@,
                            journal_slice(self.store.journal(), entity_id@, 0, h as int),
                        ),
                    );
                assert(is_highest(self.journal(), entity_id@, h) && st == fold_events(
                    State::initial_spec(),
                    slice_events(
                        self.journal(),
                        entity_id@,
                        journal_slice(self.journal(), entity_id@, 0, h as int),
                    ),
                ));
            }
        }
        r
    }
}

/// Every registry entry other than the removed one keeps its place: it is
/// in sync with the journal and serves another entity.
proof fn lemma_registry_member<State: AggregateState>(
    procs1: Seq<Processor<State>>,
    idx: int,
    k: int,
    id: Seq<char>,
)
    requires
        0 <= idx < procs1.len(),
        0 <= k < procs1.len() - 1,
    ensures
        procs1.update(idx, procs1.last()).drop_last()[k] == if k == idx {
            procs1.last()
        } else {
            procs1[k]
        },
{
}


/// The live state of entities other than the processed one is unchanged
/// by routing: the registry holds the same processors for them.
proof fn lemma_live_state_frame<State: AggregateState, C: Command<State>, A: Adapter<C::E>>(
    eng0: Engine<State, C, A>,
    procs1: Seq<Processor<State>>,
    eng2: Engine<State, C, A>,
    idx: int,
    id: Seq<char>,
    id2: Seq<char>,
    post: Processor<State>,
)
    requires
        id2 != id,
        0 <= idx < procs1.len(),
        procs1[idx].entity_spec() == id,
        post.entity_spec() == id,
        eng2.procs_view() == procs1.update(idx, procs1.last()).drop_last().push(post),
        (eng0.procs_view() == procs1) || (eng0.procs_view() == procs1.drop_last() && procs1.last().entity_spec() == id),
        forall|a: int, b: int|
            0 <= a < b < procs1.len() ==> (#[trigger] procs1[a]).entity_spec() != (
            #[trigger] procs1[b]).entity_spec(),
    ensures
        eng2.live_state(id2) == eng0.live_state(id2),
{
    let rest = procs1.update(idx, procs1.last()).drop_last();
    let v2 = eng2.procs_view();
    let v0 = eng0.procs_view();
    if exists|i: int| 0 <= i < v0.len() && (#[trigger] v0[i]).entity_spec() == id2 {
        let i0 = choose|i: int| 0 <= i < v0.len() && (#[trigger] v0[i]).entity_spec() == id2;
        assert(procs1[i0].entity_spec() == id2);
        assert(i0 != idx);
        let w = if i0 == procs1.len() - 1 {
            idx
        } else {
            i0
        };
        assert(v2[w].entity_spec() == id2);
        assert(v2[w].state_spec() == v0[i0].state_spec());
        eng2.lemma_live_state_unique(w, id2);
        eng0.lemma_live_state_unique(i0, id2);
    } else {
        assert forall|i: int| 0 <= i < v2.len() implies (#[trigger] v2[i]).entity_spec() != id2 by {
            if i == v2.len() - 1 {
            } else if i == idx && procs1.len() >= 1 && idx < procs1.len() - 1 {
                assert(v2[i] == procs1.last());
                if procs1.last().entity_spec() == id2 {
                    assert(v0[procs1.len() - 1].entity_spec() == id2);
                }
            } else {
                assert(v2[i] == procs1[i]);
                if procs1[i].entity_spec() == id2 {
                    assert(v0[i].entity_spec() == id2);
                }
            }
        }
    }
}

} // verus!
