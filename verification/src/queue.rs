//! Queues of tasks ordered by a key.
//!
//! One structure serves two purposes. The sleep queue keys each task by the
//! tick at which it is to wake. The wait queue of a synchronization object
//! keys each task by its priority number. In both, the entry with the
//! smallest key leaves first, entries with equal keys leave in the order in
//! which they arrived, and no task is queued twice.

use vstd::prelude::*;
use crate::task::TaskId;

verus! {

/// One queued task with the key it is ordered by.
#[derive(Clone, Copy, PartialEq, Eq, Debug, Structural)]
pub struct Entry {
    /// Wake tick or priority number. The smallest key is served first.
    pub key: u64,
    /// The queued task.
    pub task: TaskId,
}

/// Keys never decrease from the front to the back.
pub open spec fn sorted(q: Seq<Entry>) -> bool {
    forall|i: int, j: int| 0 <= i <= j < q.len() ==> q[i].key <= q[j].key
}

/// No task occurs twice.
pub open spec fn distinct(q: Seq<Entry>) -> bool {
    forall|i: int, j: int| 0 <= i < j < q.len() ==> q[i].task != q[j].task
}

/// Whether `task` is queued.
pub open spec fn holds(q: Seq<Entry>, task: TaskId) -> bool {
    exists|i: int| 0 <= i < q.len() && q[i].task == task
}

/// The queue with the entry of `task` taken out, or the queue itself where
/// the task is not queued.
pub open spec fn without(q: Seq<Entry>, task: TaskId) -> Seq<Entry> {
    if holds(q, task) {
        q.remove(choose|i: int| 0 <= i < q.len() && q[i].task == task)
    } else {
        q
    }
}

/// The position just behind the last entry whose key is at most `key`. In a
/// sorted queue this is the number of entries with a key of at most `key`.
pub open spec fn rank(q: Seq<Entry>, key: u64) -> int
    decreases q.len(),
{
    if q.len() == 0 || q.last().key <= key {
        q.len() as int
    } else {
        rank(q.drop_last(), key)
    }
}

/// The queue with `e` put behind every entry whose key is at most its own.
pub open spec fn placed(q: Seq<Entry>, e: Entry) -> Seq<Entry> {
    q.insert(rank(q, e.key), e)
}

/// What `rank` returns splits the queue: behind it every key is larger, and
/// in a sorted queue every key before it is at most `key`.
pub proof fn lemma_rank_splits(q: Seq<Entry>, key: u64)
    ensures
        0 <= rank(q, key) <= q.len(),
        forall|j: int| rank(q, key) <= j < q.len() ==> q[j].key > key,
        sorted(q) ==> forall|j: int| 0 <= j < rank(q, key) ==> q[j].key <= key,
    decreases q.len(),
{
    if q.len() == 0 || q.last().key <= key {
    } else {
        let p = q.drop_last();
        lemma_rank_splits(p, key);
        assert forall|j: int| rank(q, key) <= j < q.len() implies q[j].key > key by {
            if j < p.len() {
                assert(p[j] == q[j]);
            }
        }
        if sorted(q) {
            assert(sorted(p)) by {
                assert forall|i: int, j: int| 0 <= i <= j < p.len() implies p[i].key <= p[j].key by {
                    assert(p[i] == q[i] && p[j] == q[j]);
                }
            }
            assert forall|j: int| 0 <= j < rank(q, key) implies q[j].key <= key by {
                assert(p[j] == q[j]);
            }
        }
    }
}

/// In a sorted queue only one position splits the keys at `key`.
pub proof fn lemma_rank_is(q: Seq<Entry>, key: u64, k: int)
    requires
        sorted(q),
        0 <= k <= q.len(),
        forall|j: int| 0 <= j < k ==> q[j].key <= key,
        forall|j: int| k <= j < q.len() ==> q[j].key > key,
    ensures
        rank(q, key) == k,
{
    lemma_rank_splits(q, key);
    let r = rank(q, key);
    if r < k {
        assert(q[r].key > key);
    } else if r > k {
        assert(q[k].key <= key);
    }
}

/// Placing an entry keeps a queue sorted, and keeps its tasks distinct where
/// the task was not queued before.
pub proof fn lemma_placed_keeps_order(q: Seq<Entry>, e: Entry)
    requires
        sorted(q),
    ensures
        sorted(placed(q, e)),
        distinct(q) && !holds(q, e.task) ==> distinct(placed(q, e)),
        forall|t: TaskId| holds(placed(q, e), t) <==> (t == e.task || holds(q, t)),
{
    lemma_rank_splits(q, e.key);
    let k = rank(q, e.key);
    let p = placed(q, e);
    assert forall|i: int, j: int| 0 <= i <= j < p.len() implies p[i].key <= p[j].key by {
        let a = if i < k { i } else { i - 1 };
        let b = if j < k { j } else { j - 1 };
        if i != k {
            assert(p[i] == q[a]);
        }
        if j != k {
            assert(p[j] == q[b]);
        }
    }
    if distinct(q) && !holds(q, e.task) {
        assert forall|i: int, j: int| 0 <= i < j < p.len() implies p[i].task != p[j].task by {
            let a = if i < k { i } else { i - 1 };
            let b = if j < k { j } else { j - 1 };
            if i != k {
                assert(p[i] == q[a]);
            }
            if j != k {
                assert(p[j] == q[b]);
            }
        }
    }
    assert forall|t: TaskId| holds(p, t) <==> (t == e.task || holds(q, t)) by {
        if holds(p, t) {
            let i = choose|i: int| 0 <= i < p.len() && p[i].task == t;
            if i != k {
                let a = if i < k { i } else { i - 1 };
                assert(p[i] == q[a]);
            }
        }
        if t == e.task {
            assert(p[k] == e);
        }
        if holds(q, t) {
            let a = choose|a: int| 0 <= a < q.len() && q[a].task == t;
            let i = if a < k { a } else { a + 1 };
            assert(p[i] == q[a]);
        }
    }
}

/// Taking a task out keeps the queue sorted and its tasks distinct, removes
/// that task and no other.
pub proof fn lemma_without_keeps_order(q: Seq<Entry>, task: TaskId)
    ensures
        sorted(q) ==> sorted(without(q, task)),
        distinct(q) ==> distinct(without(q, task)),
        distinct(q) ==> !holds(without(q, task), task),
        forall|t: TaskId| t != task ==> (holds(without(q, task), t) <==> holds(q, t)),
        without(q, task).len() == q.len() - (if holds(q, task) { 1int } else { 0int }),
{
    if holds(q, task) {
        let k = choose|i: int| 0 <= i < q.len() && q[i].task == task;
        let p = q.remove(k);
        assert(p == without(q, task));
        assert forall|i: int| 0 <= i < p.len() implies p[i] == q[if i < k { i } else { i + 1 }] by {}
        if sorted(q) {
            assert forall|i: int, j: int| 0 <= i <= j < p.len() implies p[i].key <= p[j].key by {
                assert(p[i] == q[if i < k { i } else { i + 1 }]);
                assert(p[j] == q[if j < k { j } else { j + 1 }]);
            }
        }
        if distinct(q) {
            assert forall|i: int, j: int| 0 <= i < j < p.len() implies p[i].task != p[j].task by {
                assert(p[i] == q[if i < k { i } else { i + 1 }]);
                assert(p[j] == q[if j < k { j } else { j + 1 }]);
            }
            if holds(p, task) {
                let i = choose|i: int| 0 <= i < p.len() && p[i].task == task;
                assert(p[i] == q[if i < k { i } else { i + 1 }]);
                assert(false);
            }
        }
        assert forall|t: TaskId| t != task implies (holds(p, t) <==> holds(q, t)) by {
            if holds(p, t) {
                let i = choose|i: int| 0 <= i < p.len() && p[i].task == t;
                assert(p[i] == q[if i < k { i } else { i + 1 }]);
            }
            if holds(q, t) {
                let a = choose|a: int| 0 <= a < q.len() && q[a].task == t;
                let i = if a < k { a } else { a - 1 };
                assert(p[i] == q[a]);
            }
        }
    }
}

/// A queue of tasks, smallest key first, first come first served among equal
/// keys, each task at most once.
pub struct OrderedQueue {
    entries: Vec<Entry>,
}

impl View for OrderedQueue {
    type V = Seq<Entry>;

    closed spec fn view(&self) -> Seq<Entry> {
        self.entries@
    }
}

impl OrderedQueue {
    /// The queue is sorted by key and holds no task twice.
    pub open spec fn wf(&self) -> bool {
        sorted(self@) && distinct(self@)
    }

    /// An empty queue.
    pub fn new() -> (q: OrderedQueue)
        ensures
            q@ == Seq::<Entry>::empty(),
            q.wf(),
    {
        OrderedQueue { entries: Vec::new() }
    }

    /// Number of queued tasks.
    pub fn len(&self) -> (n: usize)
        ensures
            n == self@.len(),
    {
        self.entries.len()
    }

    /// Whether no task is queued.
    pub fn is_empty(&self) -> (b: bool)
        ensures
            b == (self@.len() == 0),
    {
        self.entries.len() == 0
    }

    /// The entry that leaves next, if any.
    pub fn front(&self) -> (e: Option<Entry>)
        ensures
            e == (if self@.len() == 0 { None } else { Some(self@[0]) }),
    {
        if self.entries.len() == 0 {
            None
        } else {
            Some(self.entries[0])
        }
    }

    /// The entry at position `i`, counted from the front.
    pub fn get(&self, i: usize) -> (e: Option<Entry>)
        ensures
            e == (if i < self@.len() { Some(self@[i as int]) } else { None }),
    {
        if i < self.entries.len() {
            Some(self.entries[i])
        } else {
            None
        }
    }

    fn find(&self, task: TaskId) -> (at: Option<usize>)
        ensures
            match at {
                Some(i) => i < self@.len() && self@[i as int].task == task
                    && forall|j: int| 0 <= j < i ==> self@[j].task != task,
                None => !holds(self@, task),
            },
    {
        let mut i: usize = 0;
        while i < self.entries.len()
            invariant
                i <= self.entries.len(),
                forall|j: int| 0 <= j < i ==> self.entries@[j].task != task,
            decreases self.entries.len() - i,
        {
            if self.entries[i].task == task {
                return Some(i);
            }
            i += 1;
        }
        None
    }

    /// Whether `task` is queued.
    pub fn contains(&self, task: TaskId) -> (b: bool)
        ensures
            b == holds(self@, task),
    {
        self.find(task).is_some()
    }

    /// Takes `task` out of the queue. Does nothing where the task is not
    /// queued, so that it is safe to call from both sides that may wake a
    /// task. Returns whether the task was queued.
    pub fn remove(&mut self, task: TaskId) -> (found: bool)
        requires
            old(self).wf(),
        ensures
            final(self).wf(),
            found == holds(old(self)@, task),
            final(self)@ == without(old(self)@, task),
    {
        proof {
            lemma_without_keeps_order(self@, task);
        }
        match self.find(task) {
            Some(i) => {
                let _ = self.entries.remove(i);
                true
            },
            None => false,
        }
    }

    /// Number of entries whose key is at most `key`. They stand at the front
    /// of the queue.
    pub fn count_up_to(&self, key: u64) -> (n: usize)
        requires
            self.wf(),
        ensures
            n == rank(self@, key),
            n <= self@.len(),
    {
        let mut i: usize = 0;
        while i < self.entries.len() && self.entries[i].key <= key
            invariant
                i <= self.entries.len(),
                forall|j: int| 0 <= j < i ==> self.entries@[j].key <= key,
            decreases self.entries.len() - i,
        {
            i += 1;
        }
        proof {
            assert forall|j: int| i <= j < self@.len() implies self@[j].key > key by {
                assert(self@[i as int].key <= self@[j].key);
            }
            lemma_rank_is(self@, key, i as int);
        }
        i
    }

    /// Queues `task` under `key`, behind every entry whose key is at most
    /// `key`. A task that is queued already is moved to its new place.
    pub fn insert(&mut self, task: TaskId, key: u64)
        requires
            old(self).wf(),
        ensures
            final(self).wf(),
            final(self)@ == placed(without(old(self)@, task), Entry { key, task }),
    {
        let _ = self.remove(task);
        proof {
            lemma_placed_keeps_order(self@, Entry { key, task });
        }
        let at = self.count_up_to(key);
        self.entries.insert(at, Entry { key, task });
    }

    /// Takes the front entry out, if there is one.
    pub fn pop_front(&mut self) -> (e: Option<Entry>)
        requires
            old(self).wf(),
        ensures
            final(self).wf(),
            old(self)@.len() == 0 ==> e.is_none() && final(self)@ == old(self)@,
            old(self)@.len() > 0 ==> e == Some(old(self)@[0]) && final(self)@ == old(self)@.skip(1),
    {
        if self.entries.len() == 0 {
            None
        } else {
            let e = self.entries.remove(0);
            proof {
                let q = old(self)@;
                assert(self@ =~= q.skip(1));
                lemma_skip_keeps_order(q, 1);
            }
            Some(e)
        }
    }
}

/// Dropping entries from the front keeps the queue sorted and its tasks
/// distinct.
pub proof fn lemma_skip_keeps_order(q: Seq<Entry>, n: int)
    requires
        0 <= n <= q.len(),
    ensures
        sorted(q) ==> sorted(q.skip(n)),
        distinct(q) ==> distinct(q.skip(n)),
{
    let p = q.skip(n);
    if sorted(q) {
        assert forall|i: int, j: int| 0 <= i <= j < p.len() implies p[i].key <= p[j].key by {
            assert(p[i] == q[i + n] && p[j] == q[j + n]);
        }
    }
    if distinct(q) {
        assert forall|i: int, j: int| 0 <= i < j < p.len() implies p[i].task != p[j].task by {
            assert(p[i] == q[i + n] && p[j] == q[j + n]);
        }
    }
}

/// A task is in a queue with one more entry at its back exactly if it is that
/// entry's task or was in the queue before.
pub proof fn lemma_holds_push(q: Seq<Entry>, e: Entry, t: TaskId)
    ensures
        holds(q.push(e), t) <==> (t == e.task || holds(q, t)),
{
    let p = q.push(e);
    if holds(p, t) {
        let i = choose|i: int| 0 <= i < p.len() && p[i].task == t;
        if i < q.len() {
            assert(q[i] == p[i]);
        }
    }
    if t == e.task {
        assert(p[q.len() as int] == e);
    }
    if holds(q, t) {
        let i = choose|i: int| 0 <= i < q.len() && q[i].task == t;
        assert(p[i] == q[i]);
    }
}

/// Placement is by key first and by arrival second: the new entry stands
/// behind every entry whose key is at most its own and before every entry
/// whose key is larger, and the entries that were queued before keep their
/// order.
pub proof fn lemma_placed_is_stable(q: Seq<Entry>, e: Entry)
    requires
        sorted(q),
    ensures
        placed(q, e).len() == q.len() + 1,
        0 <= rank(q, e.key) <= q.len(),
        placed(q, e)[rank(q, e.key)] == e,
        forall|i: int| 0 <= i < rank(q, e.key) ==> placed(q, e)[i] == q[i] && q[i].key <= e.key,
        forall|i: int|
            rank(q, e.key) <= i < q.len() ==> placed(q, e)[i + 1] == q[i] && q[i].key > e.key,
{
    lemma_rank_splits(q, e.key);
}

} // verus!
