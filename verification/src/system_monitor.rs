//! The event fabric's core state: the snapshot store, the subscriber
//! registry with bounded per-subscriber queues, and the dispatch and
//! subscribe transitions. The threads that drive these transitions live
//! outside the core and call in under a lock.
use vstd::prelude::*;

use crate::errors::InternalError;
use crate::monitor::Update;
use crate::monitor::UpdateRep;
use crate::monitor::UpdateScope;
use crate::strutil::str_eq;
use crate::value::distinct_keys;
use crate::value::lemma_map_bind;
use crate::value::lemma_map_find_witness;
use crate::value::lemma_map_key_index;
use crate::value::map_bind;
use crate::value::map_find;
use crate::value::map_key_index;

verus! {

/// Each subscriber queue holds the initial snapshots plus a little slack.
pub const SUBSCRIBER_QUEUE_CAP: usize = 10;

/// Subscriber ids beyond this bound are rejected.
pub const MAX_SUBSCRIBER_ID: u32 = 0x8000_0000u32;

/// The snapshot store: the latest snapshot-scoped update of each source.
pub struct StateSnapshot {
    entries: Vec<(String, Update)>,
}

impl View for StateSnapshot {
    type V = Seq<(Seq<char>, UpdateRep)>;

    closed spec fn view(&self) -> Seq<(Seq<char>, UpdateRep)> {
        Seq::new(self.entries@.len(), |i: int| (self.entries@[i].0@, self.entries@[i].1@))
    }
}

impl StateSnapshot {
    /// Source ids are pairwise distinct.
    pub open spec fn wf(&self) -> bool {
        distinct_keys(self@)
    }

    /// The stored snapshot of source `k`, if any.
    pub open spec fn spec_get(&self, k: Seq<char>) -> Option<UpdateRep> {
        map_find(self@, k)
    }

    /// An empty store.
    pub fn new() -> (r: StateSnapshot)
        ensures
            r@ =~= Seq::<(Seq<char>, UpdateRep)>::empty(),
            r.wf(),
    {
        StateSnapshot { entries: Vec::new() }
    }

    /// The position of source `k`, if present.
    fn find_index(&self, k: &str) -> (r: Option<usize>)
        ensures
            match r {
                Some(i) => map_key_index(self@, k@) == i as int && i < self@.len(),
                None => map_key_index(self@, k@) == -1,
            },
    {
        let n = self.entries.len();
        let mut i: usize = 0;
        while i < n
            invariant
                i <= n,
                n == self@.len(),
                n == self.entries@.len(),
                forall|j: int| 0 <= j < i ==> self@[j].0 != k@,
                forall|j: int| 0 <= j < n ==> self@[j] == (self.entries@[j].0@, self.entries@[j].1@),
            decreases n - i,
        {
            if str_eq(self.entries[i].0.as_str(), k) {
                proof {
                    lemma_map_find_witness(self@, k@, i as int);
                }
                return Some(i);
            }
            i += 1;
        }
        proof {
            lemma_map_key_index(self@, k@);
            if map_key_index(self@, k@) != -1 {
                let r = map_key_index(self@, k@);
                assert(self@[r].0 != k@);
                assert(false);
            }
        }
        None
    }

    /// Merge an update: a snapshot-scoped update replaces the stored
    /// snapshot of its source; a partial update leaves the store untouched.
    pub fn update(&mut self, update: &Update) -> (r: bool)
        ensures
            update.scope == UpdateScope::Partial ==> final(self)@ == old(self)@ && r == false,
            update.scope == UpdateScope::Snapshot ==> final(self)@ == map_bind(
                old(self)@,
                update@.source,
                update@,
            ) && r == true,
            old(self).wf() ==> final(self).wf(),
    {
        proof {
            lemma_map_key_index(self@, update.source@);
            if old(self).wf() {
                lemma_map_bind(old(self)@, update@.source, update@);
            }
        }
        match update.scope {
            UpdateScope::Partial => false,
            UpdateScope::Snapshot => {
                match self.find_index(update.source.as_str()) {
                    Some(i) => {
                        self.entries.remove(i);
                        self.entries.insert(i, (update.source.clone(), update.clone()));
                        proof {
                            assert(self@ =~= map_bind(old(self)@, update@.source, update@));
                        }
                    },
                    None => {
                        self.entries.push((update.source.clone(), update.clone()));
                        proof {
                            assert(self@ =~= map_bind(old(self)@, update@.source, update@));
                        }
                    },
                }
                true
            },
        }
    }

    /// A copy of every stored snapshot, in store order.
    pub fn values(&self) -> (r: Vec<Update>)
        ensures
            r@.len() == self@.len(),
            forall|i: int| 0 <= i < r@.len() ==> (#[trigger] r@[i])@ == self@[i].1,
    {
        let mut out: Vec<Update> = Vec::new();
        let n = self.entries.len();
        let mut i: usize = 0;
        while i < n
            invariant
                i <= n,
                n == self@.len(),
                n == self.entries@.len(),
                out@.len() == i as int,
                forall|j: int| 0 <= j < i ==> (#[trigger] out@[j])@ == self@[j].1,
                forall|j: int| 0 <= j < n ==> self@[j] == (self.entries@[j].0@, self.entries@[j].1@),
            decreases n - i,
        {
            out.push(self.entries[i].1.clone());
            i += 1;
        }
        out
    }
}

impl Clone for StateSnapshot {
    /// The clone has the same entries.
    fn clone(&self) -> (r: Self)
        ensures
            r@ == self@,
    {
        let mut entries: Vec<(String, Update)> = Vec::new();
        let n = self.entries.len();
        let mut i: usize = 0;
        while i < n
            invariant
                i <= n,
                n == self.entries@.len(),
                entries@.len() == i as int,
                forall|j: int| 0 <= j < i ==> entries@[j].0@ == self.entries@[j].0@
                    && entries@[j].1@ == self.entries@[j].1@,
            decreases n - i,
        {
            let e = &self.entries[i];
            entries.push((e.0.clone(), e.1.clone()));
            i += 1;
        }
        let r = StateSnapshot { entries };
        proof {
            assert(r@ =~= self@);
        }
        r
    }
}

/// One registered subscriber: its id and its bounded queue.
pub struct Subscriber {
    id: u32,
    queue: Vec<Update>,
    cap: usize,
}

/// The mathematical shape of a `Subscriber`.
pub struct SubscriberRep {
    pub id: u32,
    pub queue: Seq<UpdateRep>,
    pub cap: nat,
}

impl View for Subscriber {
    type V = SubscriberRep;

    closed spec fn view(&self) -> SubscriberRep {
        SubscriberRep {
            id: self.id,
            queue: Seq::new(self.queue@.len(), |i: int| self.queue@[i]@),
            cap: self.cap as nat,
        }
    }
}

/// The position of the subscriber with `id`, or -1 when none has it.
pub open spec fn find_subscriber(s: Seq<SubscriberRep>, id: u32) -> int
    decreases s.len(),
{
    if s.len() == 0 {
        -1
    } else if s[0].id == id {
        0
    } else {
        let r = find_subscriber(s.skip(1), id);
        if r == -1 {
            -1
        } else {
            r + 1
        }
    }
}

/// How `find_subscriber` relates to the sequence.
pub proof fn lemma_find_subscriber(s: Seq<SubscriberRep>, id: u32)
    ensures
        find_subscriber(s, id) == -1 ==> forall|i: int| 0 <= i < s.len() ==> s[i].id != id,
        find_subscriber(s, id) != -1 ==> {
            let r = find_subscriber(s, id);
            &&& 0 <= r < s.len()
            &&& s[r].id == id
            &&& forall|i: int| 0 <= i < r ==> s[i].id != id
        },
    decreases s.len(),
{
    if s.len() > 0 && s[0].id != id {
        lemma_find_subscriber(s.skip(1), id);
        let st = s.skip(1);
        assert(forall|i: int| 0 <= i < st.len() ==> st[i] == s[i + 1]);
        let r1 = find_subscriber(st, id);
        if r1 == -1 {
            assert forall|i: int| 0 <= i < s.len() implies s[i].id != id by {
                if i > 0 {
                    assert(st[i - 1] == s[i]);
                }
            }
        } else {
            assert(s[r1 + 1] == st[r1]);
            assert forall|i: int| 0 <= i < r1 + 1 implies s[i].id != id by {
                if i > 0 {
                    assert(st[i - 1] == s[i]);
                }
            }
        }
    }
}

/// The fabric core: poll interval, snapshot store and subscriber registry.
pub struct SystemMonitor {
    poll_time_ms: u32,
    event_buffer: usize,
    last_state: StateSnapshot,
    listeners: Vec<Subscriber>,
    next_subscriber_id: u32,
}

impl SystemMonitor {
    /// The registry's shape.
    pub closed spec fn listeners_rep(&self) -> Seq<SubscriberRep> {
        Seq::new(self.listeners@.len(), |i: int| self.listeners@[i]@)
    }

    /// The snapshot store's shape.
    pub closed spec fn snapshot_rep(&self) -> Seq<(Seq<char>, UpdateRep)> {
        self.last_state@
    }

    /// The next id a subscriber will get.
    pub closed spec fn spec_next_id(&self) -> u32 {
        self.next_subscriber_id
    }

    /// The configured poll interval in milliseconds.
    pub closed spec fn spec_poll_time_ms(&self) -> u32 {
        self.poll_time_ms
    }

    /// Every subscriber id was allocated below the next id, so ids are
    /// pairwise distinct; source ids in the store are distinct too.
    pub open spec fn wf(&self) -> bool {
        &&& (forall|i: int| 0 <= i < self.listeners_rep().len() ==> (
            #[trigger] self.listeners_rep()[i]).id < self.spec_next_id())
        &&& (forall|i: int, j: int|
            0 <= i < j < self.listeners_rep().len() ==> self.listeners_rep()[i].id
                != self.listeners_rep()[j].id)
        &&& distinct_keys(self.snapshot_rep())
    }

    /// A fabric with no subscribers and an empty snapshot store.
    pub fn new(poll_time: u32, event_buffer: usize) -> (r: SystemMonitor)
        ensures
            r.wf(),
            r.listeners_rep() =~= Seq::<SubscriberRep>::empty(),
            r.snapshot_rep() =~= Seq::<(Seq<char>, UpdateRep)>::empty(),
            r.spec_next_id() == 0,
            r.spec_poll_time_ms() == poll_time,
    {
        SystemMonitor {
            poll_time_ms: poll_time,
            event_buffer,
            last_state: StateSnapshot::new(),
            listeners: Vec::new(),
            next_subscriber_id: 0,
        }
    }

    /// The configured poll interval in milliseconds.
    pub fn poll_time_ms(&self) -> (r: u32)
        ensures
            r == self.spec_poll_time_ms(),
    {
        self.poll_time_ms
    }

    /// Register a new subscriber: allocate the next id and prime its queue
    /// with a copy of every stored snapshot, in store order.
    pub fn subscribe(&mut self) -> (r: Result<u32, InternalError>)
        requires
            old(self).wf(),
        ensures
            final(self).wf(),
            final(self).snapshot_rep() == old(self).snapshot_rep(),
            old(self).spec_next_id() >= MAX_SUBSCRIBER_ID ==> (r is Err && *final(self)
                == *old(self)),
            old(self).spec_next_id() < MAX_SUBSCRIBER_ID ==> {
                &&& r matches Ok(id) && id == old(self).spec_next_id()
                &&& final(self).spec_next_id() == old(self).spec_next_id() + 1
                &&& final(self).listeners_rep().len() == old(self).listeners_rep().len() + 1
                &&& final(self).listeners_rep().last().id == old(self).spec_next_id()
                &&& final(self).listeners_rep().last().queue.len() == old(self).snapshot_rep().len()
                &&& (forall|i: int|
                    0 <= i < old(self).snapshot_rep().len() ==> final(self).listeners_rep().last().queue[i] == old(self).snapshot_rep()[i].1)
                &&& (forall|i: int|
                    0 <= i < old(self).listeners_rep().len() ==> final(self).listeners_rep()[i]
                        == old(self).listeners_rep()[i])
            },
            final(self).spec_poll_time_ms() == old(self).spec_poll_time_ms(),
    {
        if self.next_subscriber_id >= MAX_SUBSCRIBER_ID {
            return Err(InternalError::new("Too many listeners".to_owned()));
        }
        let id = self.next_subscriber_id;
        self.next_subscriber_id = id + 1;
        let queue = self.last_state.values();
        let sub = Subscriber { id, queue, cap: SUBSCRIBER_QUEUE_CAP };
        self.listeners.push(sub);
        proof {
            assert(final(self).listeners_rep().last() == sub@);
            assert forall|i: int| 0 <= i < old(self).listeners_rep().len() implies final(self).listeners_rep()[i] == old(self).listeners_rep()[i] by {
                assert(final(self).listeners@[i] == old(self).listeners@[i]);
            }
        }
        Ok(id)
    }

    /// Deliver one update: merge it into the snapshot store, then append it
    /// to every subscriber queue that still has room; a full queue drops the
    /// update for that subscriber only, and no queue can hold up another.
    #[verifier::loop_isolation(false)]
    pub fn dispatch(&mut self, update: &Update)
        requires
            old(self).wf(),
        ensures
            final(self).wf(),
            update.scope == UpdateScope::Snapshot ==> final(self).snapshot_rep() == map_bind(
                old(self).snapshot_rep(),
                update@.source,
                update@,
            ),
            update.scope == UpdateScope::Partial ==> final(self).snapshot_rep() == old(self).snapshot_rep(),
            final(self).listeners_rep().len() == old(self).listeners_rep().len(),
            forall|i: int| 0 <= i < old(self).listeners_rep().len() ==> {
                let was = #[trigger] old(self).listeners_rep()[i];
                let now = final(self).listeners_rep()[i];
                &&& now.id == was.id
                &&& now.cap == was.cap
                &&& (was.queue.len() < was.cap ==> now.queue == was.queue.push(update@))
                &&& (was.queue.len() >= was.cap ==> now.queue == was.queue)
            },
            final(self).spec_next_id() == old(self).spec_next_id(),
            final(self).spec_poll_time_ms() == old(self).spec_poll_time_ms(),
    {
        self.last_state.update(update);
        let ghost orig = old(self).listeners_rep();
        let ghost snap = self.last_state@;
        let mut pending: Vec<Subscriber> = Vec::new();
        core::mem::swap(&mut pending, &mut self.listeners);
        let n = pending.len();
        let mut i: usize = 0;
        while i < n
            invariant
                i <= n,
                n == orig.len(),
                self.poll_time_ms == old(self).poll_time_ms,
                self.event_buffer == old(self).event_buffer,
                self.next_subscriber_id == old(self).next_subscriber_id,
                self.last_state@ == snap,
                pending@.len() == n - i,
                forall|j: int| 0 <= j < pending@.len() ==> (#[trigger] pending@[j])@ == orig[i + j],
                self.listeners@.len() == i as int,
                forall|j: int| 0 <= j < i ==> {
                    let was = #[trigger] orig[j];
                    let now = self.listeners@[j]@;
                    &&& now.id == was.id
                    &&& now.cap == was.cap
                    &&& (was.queue.len() < was.cap ==> now.queue == was.queue.push(update@))
                    &&& (was.queue.len() >= was.cap ==> now.queue == was.queue)
                },
            decreases n - i,
        {
            let mut sub = pending.remove(0);
            if sub.queue.len() < sub.cap {
                sub.queue.push(update.clone());
                proof {
                    assert(sub@.queue =~= orig[i as int].queue.push(update@));
                }
            }
            self.listeners.push(sub);
            i += 1;
        }
        proof {
            assert forall|i2: int, j2: int|
                0 <= i2 < j2 < final(self).listeners_rep().len() implies final(self).listeners_rep()[i2].id != final(self).listeners_rep()[j2].id by {
                assert(orig[i2].id != orig[j2].id);
            }
            assert forall|i2: int| 0 <= i2 < final(self).listeners_rep().len() implies (
            #[trigger] final(self).listeners_rep()[i2]).id < final(self).spec_next_id() by {
                assert(orig[i2].id < old(self).spec_next_id());
            }
        }
    }

    /// Take the oldest queued update of subscriber `id`, if any.
    pub fn pop(&mut self, id: u32) -> (r: Option<Update>)
        requires
            old(self).wf(),
        ensures
            final(self).wf(),
            final(self).snapshot_rep() == old(self).snapshot_rep(),
            final(self).spec_next_id() == old(self).spec_next_id(),
            final(self).spec_poll_time_ms() == old(self).spec_poll_time_ms(),
            final(self).listeners_rep().len() == old(self).listeners_rep().len(),
            find_subscriber(old(self).listeners_rep(), id) == -1 ==> (r is None && final(self).listeners_rep() == old(self).listeners_rep()),
            find_subscriber(old(self).listeners_rep(), id) != -1 ==> {
                let k = find_subscriber(old(self).listeners_rep(), id);
                let was = old(self).listeners_rep()[k];
                &&& (forall|j: int|
                    0 <= j < old(self).listeners_rep().len() && j != k ==> final(self).listeners_rep()[j] == old(self).listeners_rep()[j])
                &&& final(self).listeners_rep()[k].id == was.id
                &&& final(self).listeners_rep()[k].cap == was.cap
                &&& (was.queue.len() == 0 ==> r is None && final(self).listeners_rep()[k].queue
                    == was.queue)
                &&& (was.queue.len() > 0 ==> (r matches Some(u) && u@ == was.queue[0] && final(self).listeners_rep()[k].queue == was.queue.skip(1)))
            },
    {
        let k = match self.find_listener(id) {
            Some(k) => k,
            None => {
                proof {
                    assert(final(self).listeners_rep() =~= old(self).listeners_rep());
                }
                return None;
            },
        };
        let ghost orig = old(self).listeners_rep();
        let mut sub = self.listeners.remove(k);
        let r = if sub.queue.len() > 0 {
            let u = sub.queue.remove(0);
            proof {
                assert(sub@.queue =~= orig[k as int].queue.skip(1));
            }
            Some(u)
        } else {
            None
        };
        self.listeners.insert(k, sub);
        proof {
            assert forall|j: int| 0 <= j < orig.len() && j != k as int implies final(self).listeners_rep()[j] == orig[j] by {
                if j < k as int {
                    assert(final(self).listeners@[j] == old(self).listeners@[j]);
                } else {
                    assert(final(self).listeners@[j] == old(self).listeners@[j]);
                }
            }
            assert forall|i2: int, j2: int|
                0 <= i2 < j2 < final(self).listeners_rep().len() implies final(self).listeners_rep()[i2].id != final(self).listeners_rep()[j2].id by {
                assert(orig[i2].id != orig[j2].id);
                assert(final(self).listeners_rep()[i2].id == orig[i2].id);
                assert(final(self).listeners_rep()[j2].id == orig[j2].id);
            }
            assert forall|i2: int| 0 <= i2 < final(self).listeners_rep().len() implies (
            #[trigger] final(self).listeners_rep()[i2]).id < final(self).spec_next_id() by {
                assert(final(self).listeners_rep()[i2].id == orig[i2].id);
            }
        }
        r
    }

    /// The position of subscriber `id`, if registered.
    fn find_listener(&self, id: u32) -> (r: Option<usize>)
        ensures
            match r {
                Some(k) => find_subscriber(self.listeners_rep(), id) == k as int && k
                    < self.listeners_rep().len(),
                None => find_subscriber(self.listeners_rep(), id) == -1,
            },
    {
        let n = self.listeners.len();
        let mut i: usize = 0;
        while i < n
            invariant
                i <= n,
                n == self.listeners_rep().len(),
                n == self.listeners@.len(),
                forall|j: int| 0 <= j < i ==> (#[trigger] self.listeners_rep()[j]).id != id,
            decreases n - i,
        {
            if self.listeners[i].id == id {
                proof {
                    assert(self.listeners_rep()[i as int].id == id);
                    lemma_find_subscriber_witness(self.listeners_rep(), id, i as int);
                }
                return Some(i);
            }
            proof {
                assert(self.listeners_rep()[i as int].id != id);
            }
            i += 1;
        }
        proof {
            lemma_find_subscriber(self.listeners_rep(), id);
            if find_subscriber(self.listeners_rep(), id) != -1 {
                let r = find_subscriber(self.listeners_rep(), id);
                assert(self.listeners_rep()[r].id != id);
                assert(false);
            }
        }
        None
    }

    /// Deregister subscriber `id`: after this, no registry entry carries it.
    pub fn unsubscribe(&mut self, id: u32)
        requires
            old(self).wf(),
        ensures
            final(self).wf(),
            final(self).snapshot_rep() == old(self).snapshot_rep(),
            final(self).spec_next_id() == old(self).spec_next_id(),
            final(self).spec_poll_time_ms() == old(self).spec_poll_time_ms(),
            find_subscriber(old(self).listeners_rep(), id) == -1 ==> final(self).listeners_rep()
                == old(self).listeners_rep(),
            find_subscriber(old(self).listeners_rep(), id) != -1 ==> final(self).listeners_rep()
                == old(self).listeners_rep().remove(find_subscriber(old(self).listeners_rep(), id)),
            forall|i: int| 0 <= i < final(self).listeners_rep().len() ==> (#[trigger] final(self).listeners_rep()[i]).id != id,
    {
        let ghost orig = old(self).listeners_rep();
        let k = match self.find_listener(id) {
            Some(k) => k,
            None => {
                proof {
                    lemma_find_subscriber(orig, id);
                    assert(final(self).listeners_rep() =~= orig);
                }
                return;
            },
        };
        self.listeners.remove(k);
        proof {
            lemma_find_subscriber(orig, id);
            assert(final(self).listeners_rep() =~= orig.remove(k as int));
            let t = final(self).listeners_rep();
            assert forall|j: int| 0 <= j < t.len() implies (#[trigger] t[j]).id != id by {
                if j < k as int {
                    assert(t[j] == orig[j]);
                } else {
                    assert(t[j] == orig[j + 1]);
                    assert(orig[k as int].id == id);
                }
            }
            assert forall|i2: int, j2: int| 0 <= i2 < j2 < t.len() implies t[i2].id != t[j2].id by {
                let a = if i2 < k as int { i2 } else { i2 + 1 };
                let b = if j2 < k as int { j2 } else { j2 + 1 };
                assert(t[i2] == orig[a]);
                assert(t[j2] == orig[b]);
            }
            assert forall|i2: int| 0 <= i2 < t.len() implies (#[trigger] t[i2]).id < final(self).spec_next_id() by {
                let a = if i2 < k as int { i2 } else { i2 + 1 };
                assert(t[i2] == orig[a]);
            }
        }
    }
}

/// A found position fixes `find_subscriber`.
pub proof fn lemma_find_subscriber_witness(s: Seq<SubscriberRep>, id: u32, i: int)
    requires
        0 <= i < s.len(),
        s[i].id == id,
        forall|j: int| 0 <= j < i ==> s[j].id != id,
    ensures
        find_subscriber(s, id) == i,
    decreases s.len(),
{
    if s[0].id != id {
        lemma_find_subscriber_witness(s.skip(1), id, i - 1);
        assert(forall|j: int| 0 <= j < s.skip(1).len() ==> s.skip(1)[j] == s[j + 1]);
    }
}


/// The snapshot store after a run of dispatched updates: each
/// snapshot-scoped update rebinds its source, partial updates change
/// nothing. One `dispatch` call takes exactly one such step.
pub open spec fn spec_store_after(
    init: Seq<(Seq<char>, UpdateRep)>,
    trace: Seq<UpdateRep>,
) -> Seq<(Seq<char>, UpdateRep)>
    decreases trace.len(),
{
    if trace.len() == 0 {
        init
    } else {
        let prev = spec_store_after(init, trace.drop_last());
        let u = trace.last();
        if u.scope == UpdateScope::Snapshot {
            map_bind(prev, u.source, u)
        } else {
            prev
        }
    }
}

/// The position of the last snapshot-scoped update of source `src` in a
/// trace, or -1 when it has none.
pub open spec fn last_snapshot_of(trace: Seq<UpdateRep>, src: Seq<char>) -> int
    decreases trace.len(),
{
    if trace.len() == 0 {
        -1
    } else if trace.last().scope == UpdateScope::Snapshot && trace.last().source == src {
        trace.len() - 1
    } else {
        last_snapshot_of(trace.drop_last(), src)
    }
}

/// What a subscriber is primed with after a run of updates: for each source,
/// its last snapshot-scoped update overrides anything stored before, and
/// partial updates never change the stored snapshot. Together with the
/// `dispatch` and `subscribe` contracts this pins what a new subscriber
/// observes.
pub proof fn lemma_snapshot_store_law(
    init: Seq<(Seq<char>, UpdateRep)>,
    trace: Seq<UpdateRep>,
    src: Seq<char>,
)
    requires
        distinct_keys(init),
    ensures
        distinct_keys(spec_store_after(init, trace)),
        last_snapshot_of(trace, src) == -1 ==> map_find(spec_store_after(init, trace), src)
            == map_find(init, src),
        last_snapshot_of(trace, src) != -1 ==> 0 <= last_snapshot_of(trace, src) < trace.len()
            && map_find(spec_store_after(init, trace), src) == Some(
            trace[last_snapshot_of(trace, src)],
        ),
    decreases trace.len(),
{
    if trace.len() > 0 {
        lemma_snapshot_store_law(init, trace.drop_last(), src);
        let prev = spec_store_after(init, trace.drop_last());
        let u = trace.last();
        if u.scope == UpdateScope::Snapshot {
            lemma_map_bind(prev, u.source, u);
        }
        let k = last_snapshot_of(trace.drop_last(), src);
        if k != -1 {
            assert(trace.drop_last()[k] == trace[k]);
        }
    }
}


/// The fabric's run phase: it starts out not running, the first subscriber
/// starts it, and teardown ends it for good.
#[derive(Debug, Clone, Copy, PartialEq, Eq, Structural)]
pub enum FabricPhase {
    NotRunning,
    Running,
    Ended,
}

/// What a subscribe call must do about the phase: nothing while running,
/// start the sources and workers on the first subscribe, and refuse once the
/// fabric has ended.
pub fn subscribe_phase_step(phase: FabricPhase) -> (r: Result<bool, InternalError>)
    ensures
        phase is Running ==> (r matches Ok(must_start) && !must_start),
        phase is NotRunning ==> (r matches Ok(must_start) && must_start),
        phase is Ended ==> (r matches Err(e) && e.reason@
            == "cannot subscribe monitor, it has already ended"@),
{
    match phase {
        FabricPhase::Running => Ok(false),
        FabricPhase::NotRunning => Ok(true),
        FabricPhase::Ended => Err(
            InternalError::new("cannot subscribe monitor, it has already ended".to_owned()),
        ),
    }
}

/// The phase after a start attempt: running when every spawn succeeded, and
/// rolled back to not running — ready for another attempt — when one failed.
pub fn start_outcome_step(started: bool) -> (r: FabricPhase)
    ensures
        started ==> r is Running,
        !started ==> r is NotRunning,
{
    if started {
        FabricPhase::Running
    } else {
        FabricPhase::NotRunning
    }
}

/// The phase after teardown: ended, whatever came before; `Ended` is
/// terminal.
pub fn teardown_step(phase: FabricPhase) -> (r: FabricPhase)
    ensures
        r is Ended,
{
    match phase {
        _ => FabricPhase::Ended,
    }
}

} // verus!
