//! The per-path debounce table: pending events, a sliding deadline and a
//! generation counter for each target path.
use vstd::prelude::*;
use crate::sonarr::{views, SonarrEventView, SonarrRequestBody};

verus! {

/// How long a path must stay quiet before its events are drained, in milliseconds.
pub const DEBOUNCE_WINDOW_MS: u64 = 15000;

/// The state of one path: buffered events in arrival order, the instant (in
/// milliseconds of a monotonic clock) at which they fall due, and the generation
/// of the most recently armed expiry task.
pub ghost struct EntryState {
    pub buffer: Seq<SonarrEventView>,
    pub deadline: u64,
    pub generation: u64,
}

pub struct DebounceEntry {
    pub queue: Vec<SonarrRequestBody>,
    pub deadline: u64,
    pub generation: u64,
}

impl View for DebounceEntry {
    type V = EntryState;

    open spec fn view(&self) -> EntryState {
        EntryState { buffer: views(self.queue@), deadline: self.deadline, generation: self.generation }
    }
}

/// Whether an enqueue found an entry for the path or had to create one.
#[derive(PartialEq, Eq, Structural, Clone, Copy, Debug)]
pub enum DebounceDecision {
    Created,
    Refreshed,
}

/// What an enqueue reports: its decision, the path's new deadline and its generation.
#[derive(PartialEq, Eq, Structural, Clone, Copy, Debug)]
pub struct Enqueued {
    pub decision: DebounceDecision,
    pub deadline: u64,
    pub generation: u64,
}

/// The table after an event is appended for `p`, with the deadline moved to `deadline`.
pub open spec fn enqueued(
    m: Map<Seq<char>, EntryState>,
    p: Seq<char>,
    e: SonarrEventView,
    deadline: u64,
) -> Map<Seq<char>, EntryState> {
    if m.contains_key(p) {
        m.insert(p, EntryState { buffer: m[p].buffer.push(e), deadline, generation: m[p].generation })
    } else {
        m.insert(p, EntryState { buffer: seq![e], deadline, generation: 0 })
    }
}

/// Whether `p` can be armed: it has an entry whose generation can still grow.
pub open spec fn can_arm(m: Map<Seq<char>, EntryState>, p: Seq<char>) -> bool {
    m.contains_key(p) && m[p].generation < u64::MAX
}

/// The table after arming `p`: its generation is one higher.
pub open spec fn armed(m: Map<Seq<char>, EntryState>, p: Seq<char>) -> Map<Seq<char>, EntryState> {
    if can_arm(m, p) {
        m.insert(p, EntryState { generation: (m[p].generation + 1) as u64, ..m[p] })
    } else {
        m
    }
}

/// What arming `p` hands the expiry task: the new generation and the deadline.
pub open spec fn arm_result(m: Map<Seq<char>, EntryState>, p: Seq<char>) -> Option<(u64, u64)> {
    if can_arm(m, p) {
        Some(((m[p].generation + 1) as u64, m[p].deadline))
    } else {
        None
    }
}

/// Whether a task holding generation `g` may drain `p`.
pub open spec fn may_drain(m: Map<Seq<char>, EntryState>, p: Seq<char>, g: u64) -> bool {
    m.contains_key(p) && m[p].generation == g
}

/// The table after a task holding generation `g` tries to drain `p`.
pub open spec fn drained(m: Map<Seq<char>, EntryState>, p: Seq<char>, g: u64) -> Map<
    Seq<char>,
    EntryState,
> {
    if may_drain(m, p, g) {
        m.insert(p, EntryState { buffer: Seq::empty(), ..m[p] })
    } else {
        m
    }
}

/// The events a task holding generation `g` takes from `p`, if it may drain.
pub open spec fn drain_result(m: Map<Seq<char>, EntryState>, p: Seq<char>, g: u64) -> Option<
    Seq<SonarrEventView>,
> {
    if may_drain(m, p, g) {
        Some(m[p].buffer)
    } else {
        None
    }
}

/// One operation on the table.
pub ghost enum TableOp {
    Enqueue { path: Seq<char>, event: SonarrEventView, deadline: u64 },
    Arm { path: Seq<char> },
    Drain { path: Seq<char>, generation: u64 },
}

/// The table after one operation.
pub open spec fn step(m: Map<Seq<char>, EntryState>, op: TableOp) -> Map<Seq<char>, EntryState> {
    match op {
        TableOp::Enqueue { path, event, deadline } => enqueued(m, path, event, deadline),
        TableOp::Arm { path } => armed(m, path),
        TableOp::Drain { path, generation } => drained(m, path, generation),
    }
}

/// The table after a sequence of operations.
pub open spec fn run(m: Map<Seq<char>, EntryState>, ops: Seq<TableOp>) -> Map<Seq<char>, EntryState>
    decreases ops.len(),
{
    if ops.len() == 0 {
        m
    } else {
        step(run(m, ops.drop_last()), ops.last())
    }
}

/// The events buffered for `p`.
pub open spec fn buffer_at(m: Map<Seq<char>, EntryState>, p: Seq<char>) -> Seq<SonarrEventView> {
    if m.contains_key(p) {
        m[p].buffer
    } else {
        Seq::empty()
    }
}

/// The events that a sequence of operations enqueues for `p`, in order.
pub open spec fn enqueued_at(ops: Seq<TableOp>, p: Seq<char>) -> Seq<SonarrEventView>
    decreases ops.len(),
{
    if ops.len() == 0 {
        Seq::empty()
    } else {
        enqueued_at(ops.drop_last(), p) + match ops.last() {
            TableOp::Enqueue { path, event, deadline } => if path == p {
                seq![event]
            } else {
                Seq::empty()
            },
            _ => Seq::empty(),
        }
    }
}

/// The events that the drains of a sequence of operations take from `p`, batch after batch.
pub open spec fn drained_at(m: Map<Seq<char>, EntryState>, ops: Seq<TableOp>, p: Seq<char>) -> Seq<
    SonarrEventView,
>
    decreases ops.len(),
{
    if ops.len() == 0 {
        Seq::empty()
    } else {
        drained_at(m, ops.drop_last(), p) + match ops.last() {
            TableOp::Drain { path, generation } => if path == p {
                match drain_result(run(m, ops.drop_last()), p, generation) {
                    Some(batch) => batch,
                    None => Seq::empty(),
                }
            } else {
                Seq::empty()
            },
            _ => Seq::empty(),
        }
    }
}

/// No event is lost and none is taken twice: whatever the operations, the events
/// buffered for a path before, followed by those enqueued for it, are exactly the
/// events drained from it, batch after batch, followed by those still buffered.
pub proof fn lemma_drains_conserve_events(
    m: Map<Seq<char>, EntryState>,
    ops: Seq<TableOp>,
    p: Seq<char>,
)
    ensures
        buffer_at(m, p) + enqueued_at(ops, p) == drained_at(m, ops, p) + buffer_at(run(m, ops), p),
    decreases ops.len(),
{
    if ops.len() == 0 {
        assert(buffer_at(m, p) + enqueued_at(ops, p) =~= drained_at(m, ops, p) + buffer_at(
            run(m, ops),
            p,
        ));
    } else {
        let prev = ops.drop_last();
        lemma_drains_conserve_events(m, prev, p);
        let before = run(m, prev);
        match ops.last() {
            TableOp::Enqueue { path, event, deadline } => {
                if path == p {
                    assert(buffer_at(m, p) + enqueued_at(ops, p) =~= (buffer_at(m, p)
                        + enqueued_at(prev, p)).push(event));
                    assert(drained_at(m, ops, p) + buffer_at(run(m, ops), p) =~= (drained_at(
                        m,
                        prev,
                        p,
                    ) + buffer_at(before, p)).push(event));
                } else {
                    assert(enqueued_at(ops, p) =~= enqueued_at(prev, p));
                    assert(drained_at(m, ops, p) =~= drained_at(m, prev, p));
                }
            },
            TableOp::Arm { path } => {
                assert(enqueued_at(ops, p) =~= enqueued_at(prev, p));
                assert(drained_at(m, ops, p) =~= drained_at(m, prev, p));
            },
            TableOp::Drain { path, generation } => {
                assert(enqueued_at(ops, p) =~= enqueued_at(prev, p));
                if path == p && may_drain(before, p, generation) {
                    assert(drained_at(m, ops, p) + buffer_at(run(m, ops), p) =~= drained_at(
                        m,
                        prev,
                        p,
                    ) + buffer_at(before, p));
                } else {
                    assert(drained_at(m, ops, p) =~= drained_at(m, prev, p));
                }
            },
        }
    }
}

/// Generations never go down: once a path has an entry it keeps one, and its
/// generation after any operations is at least what it was.
pub proof fn lemma_generation_monotone(
    m: Map<Seq<char>, EntryState>,
    ops: Seq<TableOp>,
    p: Seq<char>,
)
    requires
        m.contains_key(p),
    ensures
        run(m, ops).contains_key(p),
        run(m, ops)[p].generation >= m[p].generation,
    decreases ops.len(),
{
    if ops.len() > 0 {
        lemma_generation_monotone(m, ops.drop_last(), p);
    }
}

/// Only the task holding the current generation drains: a task holding any
/// other generation leaves the table as it is and takes nothing.
pub proof fn lemma_only_current_generation_drains(
    m: Map<Seq<char>, EntryState>,
    p: Seq<char>,
    g: u64,
)
    ensures
        drain_result(m, p, g) is Some <==> (m.contains_key(p) && m[p].generation == g),
        !(m.contains_key(p) && m[p].generation == g) ==> drained(m, p, g) == m,
{
}

/// A task superseded by a later arm never drains: once the path's generation has
/// passed the one it holds, no later sequence of operations lets it drain.
pub proof fn lemma_superseded_task_never_drains(
    m: Map<Seq<char>, EntryState>,
    p: Seq<char>,
    g: u64,
    ops: Seq<TableOp>,
)
    requires
        m.contains_key(p),
        g < m[p].generation,
    ensures
        drain_result(run(m, ops), p, g) is None,
        drained(run(m, ops), p, g) == run(m, ops),
{
    lemma_generation_monotone(m, ops, p);
}

/// The operations of the first `n` arrivals of a burst at `p`: each event is
/// enqueued with the deadline its arrival time gives, then a task is armed.
pub open spec fn burst_ops(p: Seq<char>, evs: Seq<SonarrEventView>, times: Seq<u64>, n: nat) -> Seq<
    TableOp,
>
    decreases n,
{
    if n == 0 {
        Seq::empty()
    } else {
        burst_ops(p, evs, times, (n - 1) as nat) + seq![
            TableOp::Enqueue {
                path: p,
                event: evs[n - 1],
                deadline: (times[n - 1] + DEBOUNCE_WINDOW_MS) as u64,
            },
            TableOp::Arm { path: p },
        ]
    }
}

/// The generation of `p` before a burst: that of its entry, 0 when it has none.
pub open spec fn base_generation(m: Map<Seq<char>, EntryState>, p: Seq<char>) -> nat {
    if m.contains_key(p) {
        m[p].generation as nat
    } else {
        0
    }
}

proof fn lemma_burst_state(
    m: Map<Seq<char>, EntryState>,
    p: Seq<char>,
    evs: Seq<SonarrEventView>,
    times: Seq<u64>,
    n: nat,
)
    requires
        n <= evs.len() == times.len(),
        buffer_at(m, p).len() == 0,
        base_generation(m, p) + evs.len() <= u64::MAX,
        forall|i: int| 0 <= i < times.len() ==> times[i] <= u64::MAX - DEBOUNCE_WINDOW_MS,
    ensures
        n > 0 ==> run(m, burst_ops(p, evs, times, n)).contains_key(p),
        n > 0 ==> run(m, burst_ops(p, evs, times, n))[p] == (EntryState {
            buffer: evs.take(n as int),
            deadline: (times[n - 1] + DEBOUNCE_WINDOW_MS) as u64,
            generation: (base_generation(m, p) + n) as u64,
        }),
        n == 0 ==> run(m, burst_ops(p, evs, times, n)) == m,
    decreases n,
{
    if n > 0 {
        let k = (n - 1) as nat;
        lemma_burst_state(m, p, evs, times, k);
        let ops = burst_ops(p, evs, times, n);
        let e = TableOp::Enqueue {
            path: p,
            event: evs[k as int],
            deadline: (times[k as int] + DEBOUNCE_WINDOW_MS) as u64,
        };
        assert(ops.drop_last() =~= burst_ops(p, evs, times, k).push(e));
        assert(ops.drop_last().drop_last() =~= burst_ops(p, evs, times, k));
        let st = run(m, burst_ops(p, evs, times, k));
        assert(ops.last() == TableOp::Arm { path: p });
        assert(ops.drop_last().last() == e);
        let st1 = enqueued(st, p, evs[k as int], (times[k as int] + DEBOUNCE_WINDOW_MS) as u64);
        assert(run(m, ops.drop_last()) == st1);
        assert(run(m, ops) == armed(st1, p));
        if k == 0 {
            assert(buffer_at(m, p) =~= Seq::<SonarrEventView>::empty());
        }
        assert(buffer_at(st, p).push(evs[k as int]) =~= evs.take(n as int));
    }
}

/// Events that reach a path less than a debounce window apart are delivered
/// together, once: each arrival arms a task holding the next generation and the
/// arrival's deadline; every task but the last is superseded by the next arrival,
/// which comes before its deadline, and can never drain afterwards; the last task
/// drains exactly the events of the burst, in arrival order.
pub proof fn lemma_burst_drains_once(
    m: Map<Seq<char>, EntryState>,
    p: Seq<char>,
    evs: Seq<SonarrEventView>,
    times: Seq<u64>,
)
    requires
        evs.len() == times.len() > 0,
        buffer_at(m, p).len() == 0,
        base_generation(m, p) + evs.len() <= u64::MAX,
        forall|i: int| 0 <= i < times.len() ==> times[i] <= u64::MAX - DEBOUNCE_WINDOW_MS,
        forall|i: int|
            0 <= i < times.len() - 1 ==> times[i] <= #[trigger] times[i + 1] < times[i]
                + DEBOUNCE_WINDOW_MS,
    ensures
        forall|i: int|
            0 <= i < evs.len() ==> arm_result(
                enqueued(
                    run(m, #[trigger] burst_ops(p, evs, times, i as nat)),
                    p,
                    evs[i],
                    (times[i] + DEBOUNCE_WINDOW_MS) as u64,
                ),
                p,
            ) == Some(
                ((base_generation(m, p) + i + 1) as u64, (times[i] + DEBOUNCE_WINDOW_MS) as u64),
            ),
        forall|i: int, k: int|
            0 <= i < evs.len() - 1 && i + 2 <= k <= evs.len() ==> times[i + 1] < times[i]
                + DEBOUNCE_WINDOW_MS && #[trigger] drain_result(
                run(m, burst_ops(p, evs, times, k as nat)),
                p,
                (base_generation(m, p) + i + 1) as u64,
            ) is None,
        drain_result(
            run(m, burst_ops(p, evs, times, evs.len())),
            p,
            (base_generation(m, p) + evs.len()) as u64,
        ) == Some(evs),
{
    let base = base_generation(m, p);
    assert forall|i: int| 0 <= i < evs.len() implies arm_result(
        enqueued(
            run(m, #[trigger] burst_ops(p, evs, times, i as nat)),
            p,
            evs[i],
            (times[i] + DEBOUNCE_WINDOW_MS) as u64,
        ),
        p,
    ) == Some(((base + i + 1) as u64, (times[i] + DEBOUNCE_WINDOW_MS) as u64)) by {
        lemma_burst_state(m, p, evs, times, i as nat);
    }
    assert forall|i: int, k: int|
        0 <= i < evs.len() - 1 && i + 2 <= k <= evs.len() implies times[i + 1] < times[i]
        + DEBOUNCE_WINDOW_MS && #[trigger] drain_result(
        run(m, burst_ops(p, evs, times, k as nat)),
        p,
        (base + i + 1) as u64,
    ) is None by {
        lemma_burst_state(m, p, evs, times, k as nat);
    }
    lemma_burst_state(m, p, evs, times, evs.len());
    assert(evs.take(evs.len() as int) =~= evs);
}

/// A mapping from target path to its pending events, deadline and generation.
/// Entries are held as (path, entry) pairs with distinct paths; the table's
/// view is the map from each path to its entry's state.
pub struct DebounceTable {
    entries: Vec<(String, DebounceEntry)>,
}

/// The position of path `p` among the entries.
pub open spec fn index_of(entries: Seq<(String, DebounceEntry)>, p: Seq<char>) -> int {
    choose|i: int| 0 <= i < entries.len() && entries[i].0@ == p
}

impl View for DebounceTable {
    type V = Map<Seq<char>, EntryState>;

    closed spec fn view(&self) -> Map<Seq<char>, EntryState> {
        Map::new(
            |p: Seq<char>| exists|i: int| 0 <= i < self.entries@.len() && self.entries@[i].0@ == p,
            |p: Seq<char>| self.entries@[index_of(self.entries@, p)].1@,
        )
    }
}

impl DebounceTable {
    /// Each path has at most one entry.
    pub closed spec fn wf(&self) -> bool {
        forall|i: int, j: int|
            0 <= i < self.entries@.len() && 0 <= j < self.entries@.len() && self.entries@[i].0@
                == self.entries@[j].0@ ==> i == j
    }

    proof fn lemma_index_of(&self, i: int)
        requires
            self.wf(),
            0 <= i < self.entries@.len(),
        ensures
            index_of(self.entries@, self.entries@[i].0@) == i,
            self@.contains_key(self.entries@[i].0@),
            self@[self.entries@[i].0@] == self.entries@[i].1@,
    {
        let p = self.entries@[i].0@;
        assert(exists|j: int| 0 <= j < self.entries@.len() && self.entries@[j].0@ == p);
        let j = index_of(self.entries@, p);
        assert(j == i);
    }

    pub fn new() -> (r: DebounceTable)
        ensures
            r.wf(),
            r@ == Map::<Seq<char>, EntryState>::empty(),
    {
        let r = DebounceTable { entries: Vec::new() };
        assert(r@ =~= Map::<Seq<char>, EntryState>::empty());
        r
    }

    /// The position of the entry for `key`, if there is one.
    fn find(&self, key: &String) -> (r: Option<usize>)
        requires
            self.wf(),
        ensures
            r is None ==> !self@.contains_key(key@),
            r matches Some(i) ==> i < self.entries@.len() && self.entries@[i as int].0@ == key@,
    {
        let mut i: usize = 0;
        while i < self.entries.len()
            invariant
                i <= self.entries@.len(),
                forall|j: int| 0 <= j < i ==> self.entries@[j].0@ != key@,
            decreases self.entries@.len() - i,
        {
            if self.entries[i].0 == *key {
                return Some(i);
            }
            i = i + 1;
        }
        None
    }

    /// Replaces the entry at `i` and hands back the one it held.
    fn replace_at(&mut self, i: usize, entry: DebounceEntry) -> (prev: DebounceEntry)
        requires
            old(self).wf(),
            i < old(self).entries@.len(),
        ensures
            final(self).wf(),
            final(self).entries@.len() == old(self).entries@.len(),
            final(self).entries@[i as int].0@ == old(self).entries@[i as int].0@,
            final(self)@ == old(self)@.insert(old(self).entries@[i as int].0@, entry@),
            prev@ == old(self)@[old(self).entries@[i as int].0@],
    {
        proof {
            self.lemma_index_of(i as int);
        }
        let ghost p = self.entries@[i as int].0@;
        let ghost before = self.entries@;
        let (k, prev) = self.entries.remove(i);
        self.entries.insert(i, (k, entry));
        assert(self.entries@ == before.update(i as int, (k, entry)));
        assert forall|a: int, b: int|
            0 <= a < self.entries@.len() && 0 <= b < self.entries@.len() && self.entries@[a].0@
                == self.entries@[b].0@ implies a == b by {
            assert(before[a].0@ == self.entries@[a].0@);
            assert(before[b].0@ == self.entries@[b].0@);
        }
        assert forall|q: Seq<char>| #[trigger] self@.contains_key(q) == old(self)@.insert(
            p,
            entry@,
        ).contains_key(q) by {
            if self@.contains_key(q) {
                let a = choose|a: int| 0 <= a < self.entries@.len() && self.entries@[a].0@ == q;
                assert(before[a].0@ == q);
            }
            if old(self)@.contains_key(q) {
                let a = choose|a: int| 0 <= a < before.len() && before[a].0@ == q;
                assert(self.entries@[a].0@ == q);
            }
        }
        assert forall|q: Seq<char>| #[trigger] self@.contains_key(q) implies self@[q] == old(
            self,
        )@.insert(p, entry@)[q] by {
            let a = choose|a: int| 0 <= a < self.entries@.len() && self.entries@[a].0@ == q;
            self.lemma_index_of(a);
            if a != i {
                assert(before[a] == self.entries@[a]);
                assert(exists|b: int| 0 <= b < before.len() && before[b].0@ == q);
                let b = index_of(before, q);
                assert(b == a);
            }
        }
        assert(self@ =~= old(self)@.insert(p, entry@));
        prev
    }

    fn placeholder() -> (r: DebounceEntry) {
        DebounceEntry { queue: Vec::new(), deadline: 0, generation: 0 }
    }

    /// Appends `event` to the buffer of `path` and moves its deadline to
    /// `now + DEBOUNCE_WINDOW_MS`, creating the entry (generation 0) if there is none.
    pub fn enqueue(&mut self, path: &str, event: SonarrRequestBody, now: u64) -> (r: Enqueued)
        requires
            old(self).wf(),
            now <= u64::MAX - DEBOUNCE_WINDOW_MS,
        ensures
            final(self).wf(),
            final(self)@ == enqueued(old(self)@, path@, event@, (now + DEBOUNCE_WINDOW_MS) as u64),
            r.decision == if old(self)@.contains_key(path@) {
                DebounceDecision::Refreshed
            } else {
                DebounceDecision::Created
            },
            r.deadline == now + DEBOUNCE_WINDOW_MS,
            r.generation == final(self)@[path@].generation,
    {
        let deadline = now + DEBOUNCE_WINDOW_MS;
        let key = path.to_owned();
        match self.find(&key) {
            Some(i) => {
                proof {
                    self.lemma_index_of(i as int);
                }
                let mut entry = self.replace_at(i, Self::placeholder());
                entry.queue.push(event);
                entry.deadline = deadline;
                let generation = entry.generation;
                self.replace_at(i, entry);
                assert(views(entry.queue@) =~= old(self)@[path@].buffer.push(event@));
                assert(self@ =~= enqueued(old(self)@, path@, event@, deadline));
                Enqueued { decision: DebounceDecision::Refreshed, deadline, generation }
            },
            None => {
                let mut queue: Vec<SonarrRequestBody> = Vec::new();
                queue.push(event);
                let entry = DebounceEntry { queue, deadline, generation: 0 };
                let ghost before = self.entries@;
                self.entries.push((key, entry));
                proof {
                    let n = before.len() as int;
                    assert forall|a: int, b: int|
                        0 <= a < self.entries@.len() && 0 <= b < self.entries@.len()
                            && self.entries@[a].0@ == self.entries@[b].0@ implies a == b by {
                        if a < n {
                            assert(self.entries@[a] == before[a]);
                        }
                        if b < n {
                            assert(self.entries@[b] == before[b]);
                        }
                    }
                    assert(views(self.entries@[n].1.queue@) =~= seq![event@]);
                    let target = enqueued(old(self)@, path@, event@, deadline);
                    assert forall|q: Seq<char>| #[trigger] self@.contains_key(q)
                        == target.contains_key(q) by {
                        if self@.contains_key(q) && q != path@ {
                            let a = choose|a: int|
                                0 <= a < self.entries@.len() && self.entries@[a].0@ == q;
                            assert(before[a].0@ == q);
                        }
                        if old(self)@.contains_key(q) {
                            let a = choose|a: int| 0 <= a < before.len() && before[a].0@ == q;
                            assert(self.entries@[a].0@ == q);
                        }
                        assert(self.entries@[n].0@ == path@);
                    }
                    assert forall|q: Seq<char>| #[trigger] self@.contains_key(q) implies self@[q]
                        == target[q] by {
                        let a = choose|a: int|
                            0 <= a < self.entries@.len() && self.entries@[a].0@ == q;
                        self.lemma_index_of(a);
                        if a < n {
                            assert(before[a] == self.entries@[a]);
                            assert(exists|b: int| 0 <= b < before.len() && before[b].0@ == q);
                            let b = index_of(before, q);
                            assert(before[b].0@ == self.entries@[b].0@);
                            assert(b == a);
                        }
                    }
                    assert(self@ =~= target);
                }
                Enqueued { decision: DebounceDecision::Created, deadline, generation: 0 }
            },
        }
    }

    /// Arms a new expiry task for `path`: raises its generation by one and returns
    /// the new generation with the deadline the task must wait for. Returns `None`
    /// when the path has no entry or its generation cannot grow.
    pub fn arm(&mut self, path: &str) -> (r: Option<(u64, u64)>)
        requires
            old(self).wf(),
        ensures
            final(self).wf(),
            final(self)@ == armed(old(self)@, path@),
            r == arm_result(old(self)@, path@),
    {
        let key = path.to_owned();
        match self.find(&key) {
            Some(i) => {
                proof {
                    self.lemma_index_of(i as int);
                }
                if self.entries[i].1.generation == u64::MAX {
                    return None;
                }
                let mut entry = self.replace_at(i, Self::placeholder());
                entry.generation = entry.generation + 1;
                let generation = entry.generation;
                let deadline = entry.deadline;
                self.replace_at(i, entry);
                assert(self@ =~= armed(old(self)@, path@));
                Some((generation, deadline))
            },
            None => None,
        }
    }

    /// Takes the buffered events of `path`, leaving its buffer empty, when
    /// `expected_generation` is the path's current generation; otherwise changes
    /// nothing and returns `None`.
    pub fn try_drain(&mut self, path: &str, expected_generation: u64) -> (r: Option<
        Vec<SonarrRequestBody>,
    >)
        requires
            old(self).wf(),
        ensures
            final(self).wf(),
            final(self)@ == drained(old(self)@, path@, expected_generation),
            r is Some <==> drain_result(old(self)@, path@, expected_generation) is Some,
            r matches Some(v) ==> Some(views(v@)) == drain_result(
                old(self)@,
                path@,
                expected_generation,
            ),
    {
        let key = path.to_owned();
        match self.find(&key) {
            Some(i) => {
                proof {
                    self.lemma_index_of(i as int);
                }
                if self.entries[i].1.generation != expected_generation {
                    return None;
                }
                let mut entry = self.replace_at(i, Self::placeholder());
                let mut taken: Vec<SonarrRequestBody> = Vec::new();
                std::mem::swap(&mut taken, &mut entry.queue);
                self.replace_at(i, entry);
                assert(views(entry.queue@) =~= Seq::<SonarrEventView>::empty());
                assert(self@ =~= drained(old(self)@, path@, expected_generation));
                Some(taken)
            },
            None => None,
        }
    }
}

} // verus!
