//! Routing of messages to the tasks that subscribed to their kind.
//!
//! Each task owns one queue. A task subscribes to message kinds; sending a message hands it
//! to the queue of every task subscribed to the message's kind, in the order of the tasks.
//! The queues themselves are the application's (FreeRTOS queues on the board); this module
//! keeps them, the subscription table, and decides who receives what.

use vstd::prelude::*;

use crate::msg::{spec_msg_id, Msg};

verus! {

/// The number of tasks the router serves.
pub const NUM_TASKS: usize = 4;

/// The capacity of each task's queue.
pub const QUEUE_DEPTH: usize = 5;

/// The number of slots in the subscription table, one per message kind (with room to spare).
pub const MAX_MESSAGES: usize = 10;

/// The number of bits of a subscription mask: task numbers below this can subscribe.
pub const MASK_BITS: usize = 32;

/// Whether bit `t` of `mask` is set.
pub open spec fn mask_has(mask: u32, t: u32) -> bool {
    (mask >> t) & 1u32 == 1u32
}

/// The set of task numbers whose bit is set in `mask`.
pub open spec fn mask_tasks(mask: u32) -> Set<int> {
    Set::new(|t: int| 0 <= t < MASK_BITS && mask_has(mask, t as u32))
}

/// The tasks below `n` that belong to `subs`, in increasing order.
pub open spec fn tasks_in(subs: Set<int>, n: int) -> Seq<usize>
    decreases n,
{
    if n <= 0 {
        Seq::empty()
    } else {
        tasks_in(subs, n - 1) + if subs.contains(n - 1) {
            seq![(n - 1) as usize]
        } else {
            Seq::empty()
        }
    }
}

/// The subscription table after task `task` subscribes to kind `kind`.
pub open spec fn spec_subscribe(subs: Seq<Set<int>>, kind: int, task: int) -> Seq<Set<int>> {
    subs.update(kind, subs[kind].insert(task))
}

/// The tasks that a message of kind `kind` is handed to, in the order it is handed to them.
pub open spec fn spec_recipients(subs: Seq<Set<int>>, kind: int) -> Seq<usize> {
    tasks_in(subs[kind], NUM_TASKS as int)
}

/// A well-formed subscription table: one set per slot, each of task numbers below
/// `MASK_BITS`.
pub open spec fn table_wf(subs: Seq<Set<int>>) -> bool {
    &&& subs.len() == MAX_MESSAGES
    &&& forall|k: int, t: int| 0 <= k < MAX_MESSAGES && #[trigger] subs[k].contains(t) ==> 0 <= t
        < MASK_BITS
}

/// The table of a fresh router: nobody subscribed to anything.
pub open spec fn empty_table() -> Seq<Set<int>> {
    Seq::new(MAX_MESSAGES as nat, |k: int| Set::<int>::empty())
}

proof fn lemma_or_bit(m: u32, t: u32, s: u32)
    requires
        t < 32,
        s < 32,
    ensures
        mask_has(m | (1u32 << t), s) <==> (mask_has(m, s) || s == t),
{
    assert(((m | (1u32 << t)) >> s) & 1u32 == 1u32 <==> (((m >> s) & 1u32 == 1u32) || s == t))
        by (bit_vector)
        requires
            t < 32,
            s < 32,
    ;
}

proof fn lemma_and_bit(m: u32, t: u32)
    requires
        t < 32,
    ensures
        (m & (1u32 << t) != 0) <==> mask_has(m, t),
{
    assert((m & (1u32 << t) != 0) <==> ((m >> t) & 1u32 == 1u32)) by (bit_vector)
        requires
            t < 32,
    ;
}

proof fn lemma_zero_mask()
    ensures
        mask_tasks(0u32) == Set::<int>::empty(),
{
    assert forall|t: int| !mask_tasks(0u32).contains(t) by {
        if 0 <= t < 32 {
            let s = t as u32;
            assert((0u32 >> s) & 1u32 == 0u32) by (bit_vector);
        }
    }
    assert(mask_tasks(0u32) =~= Set::<int>::empty());
}

/// A task is among `tasks_in(subs, n)` exactly when it is below `n` and in `subs`; the
/// sequence is strictly increasing.
pub proof fn lemma_tasks_in(subs: Set<int>, n: int)
    requires
        0 <= n <= MASK_BITS,
    ensures
        forall|t: usize| tasks_in(subs, n).contains(t) <==> (t < n && subs.contains(t as int)),
        forall|i: int, j: int|
            0 <= i < j < tasks_in(subs, n).len() ==> tasks_in(subs, n)[i] < tasks_in(subs, n)[j],
        forall|i: int| 0 <= i < tasks_in(subs, n).len() ==> tasks_in(subs, n)[i] < n,
    decreases n,
{
    if n > 0 {
        lemma_tasks_in(subs, n - 1);
        let prev = tasks_in(subs, n - 1);
        let cur = tasks_in(subs, n);
        let last: usize = (n - 1) as usize;
        assert(last as int == n - 1);
        if subs.contains(n - 1) {
            assert(cur =~= prev.push(last));
            assert forall|t: usize| cur.contains(t) <==> (t < n && subs.contains(t as int)) by {
                if cur.contains(t) {
                    let i = choose|i: int| 0 <= i < cur.len() && cur[i] == t;
                    if i < prev.len() {
                        assert(prev[i] == t);
                        assert(prev.contains(t));
                    }
                }
                if t < n && subs.contains(t as int) {
                    if t < n - 1 {
                        assert(prev.contains(t));
                        let i = choose|i: int| 0 <= i < prev.len() && prev[i] == t;
                        assert(cur[i] == t);
                    } else {
                        assert(cur[cur.len() - 1] == t);
                    }
                }
            }
        } else {
            assert(cur =~= prev);
        }
    }
}

/// The routing state: one queue per task and, per message kind, the set of subscribed tasks
/// kept as a bit mask.
pub struct Router<Q> {
    queues: Vec<Q>,
    subs: Vec<u32>,
}

impl<Q> Router<Q> {
    /// The router serves `NUM_TASKS` queues and has one mask per table slot.
    pub closed spec fn wf(&self) -> bool {
        &&& self.queues.len() == NUM_TASKS
        &&& self.subs.len() == MAX_MESSAGES
    }

    /// The subscription table: for each slot, the set of subscribed task numbers.
    pub closed spec fn view(&self) -> Seq<Set<int>> {
        Seq::new(self.subs@.len(), |k: int| mask_tasks(self.subs@[k]))
    }

    /// The queues, one per task, in task order.
    pub closed spec fn queues_view(&self) -> Seq<Q> {
        self.queues@
    }

    /// A router that serves the given queues, with no subscriptions.
    fn new(queues: Vec<Q>) -> (r: Self)
        requires
            queues@.len() == NUM_TASKS,
        ensures
            r.wf(),
            r@ == empty_table(),
            r.queues_view() == queues@,
            table_wf(r@),
    {
        let mut subs: Vec<u32> = Vec::new();
        let mut k: usize = 0;
        while k < MAX_MESSAGES
            invariant
                k <= MAX_MESSAGES,
                subs@.len() == k,
                forall|i: int| 0 <= i < k ==> subs@[i] == 0u32,
            decreases MAX_MESSAGES - k,
        {
            subs.push(0u32);
            k = k + 1;
        }
        let r = Router { queues, subs };
        proof {
            lemma_zero_mask();
            assert(r@ =~= empty_table());
        }
        r
    }

    /// Subscribes task `task_id` to the kind of `msg`.
    pub fn subscribe(&mut self, msg: Msg, task_id: usize)
        requires
            old(self).wf(),
            task_id < MASK_BITS,
        ensures
            final(self).wf(),
            final(self)@ == spec_subscribe(old(self)@, spec_msg_id(msg), task_id as int),
            final(self).queues_view() == old(self).queues_view(),
            table_wf(final(self)@),
    {
        let msg_id = msg.id();
        let old_mask = self.subs[msg_id];
        let new_mask = old_mask | (1u32 << (task_id as u32));
        self.subs.set(msg_id, new_mask);
        proof {
            let ghost k = spec_msg_id(msg);
            assert forall|t: int| #![auto] mask_tasks(new_mask).contains(t) <==> mask_tasks(
                old_mask,
            ).insert(task_id as int).contains(t) by {
                if 0 <= t < 32 {
                    lemma_or_bit(old_mask, task_id as u32, t as u32);
                }
            }
            assert(mask_tasks(new_mask) =~= mask_tasks(old_mask).insert(task_id as int));
            assert(self@ =~= spec_subscribe(old(self)@, k, task_id as int));
        }
    }

    /// The tasks that `msg` is handed to: those subscribed to its kind, in increasing order.
    pub fn recipients(&self, msg: Msg) -> (r: Vec<usize>)
        requires
            self.wf(),
        ensures
            r@ == spec_recipients(self@, spec_msg_id(msg)),
            forall|t: usize| r@.contains(t) <==> (t < NUM_TASKS && self@[spec_msg_id(msg)].contains(t as int)),
            forall|i: int, j: int| 0 <= i < j < r@.len() ==> r@[i] < r@[j],
            table_wf(self@),
    {
        let msg_id = msg.id();
        let mask = self.subs[msg_id];
        let ghost set = self@[msg_id as int];
        assert(set == mask_tasks(mask));
        let mut r: Vec<usize> = Vec::new();
        let mut task_id: usize = 0;
        while task_id < NUM_TASKS
            invariant
                task_id <= NUM_TASKS,
                set == mask_tasks(mask),
                r@ == tasks_in(set, task_id as int),
            decreases NUM_TASKS - task_id,
        {
            proof {
                lemma_and_bit(mask, task_id as u32);
            }
            if mask & (1u32 << (task_id as u32)) != 0 {
                r.push(task_id);
            }
            task_id = task_id + 1;
        }
        proof {
            lemma_tasks_in(set, NUM_TASKS as int);
        }
        r
    }

    /// The queue of task `task_id`.
    pub fn queue(&self, task_id: usize) -> (q: &Q)
        requires
            self.wf(),
            task_id < NUM_TASKS,
        ensures
            *q == self.queues_view()[task_id as int],
    {
        &self.queues[task_id]
    }
}

/// The number of a task's queue, from its FreeRTOS task number, which is 1-based.
pub fn task_index(task_id: i32) -> (r: usize)
    requires
        task_id >= 1,
    ensures
        r == task_id - 1,
{
    (task_id - 1) as usize
}

/// Collects the queues of the tasks as they are installed, then turns into a [`Router`].
pub struct RouterBuilder<Q> {
    queues: Vec<Q>,
}

impl<Q> RouterBuilder<Q> {
    /// The queues installed so far, in the order of their tasks.
    pub closed spec fn view(&self) -> Seq<Q> {
        self.queues@
    }

    /// A builder with no task installed yet.
    pub fn new() -> (b: Self)
        ensures
            b@ == Seq::<Q>::empty(),
    {
        RouterBuilder { queues: Vec::new() }
    }

    /// The number of tasks installed so far.
    pub fn count(&self) -> (n: usize)
        ensures
            n == self@.len(),
    {
        self.queues.len()
    }

    /// Installs the queue of the next task and returns the task's number: tasks are numbered
    /// from 1 in the order they are installed.
    pub fn install_task(&mut self, queue: Q) -> (id: u32)
        requires
            old(self)@.len() < NUM_TASKS,
        ensures
            final(self)@ == old(self)@.push(queue),
            id == final(self)@.len(),
    {
        self.queues.push(queue);
        self.queues.len() as u32
    }

    /// Turns a builder with every task installed into a router that serves their queues,
    /// with no subscriptions yet.
    pub fn start(self) -> (r: Router<Q>)
        requires
            self@.len() == NUM_TASKS,
        ensures
            r.wf(),
            r@ == empty_table(),
            r.queues_view() == self@,
    {
        Router::new(self.queues)
    }
}

/// Subscribing task `task` to kind `kind` adds `task` to the recipients of that kind and of
/// no other kind; every earlier recipient stays, in increasing order of tasks.
pub proof fn lemma_subscribe_then_send(subs: Seq<Set<int>>, kind: int, task: int, other: int)
    requires
        table_wf(subs),
        0 <= kind < MAX_MESSAGES,
        0 <= other < MAX_MESSAGES,
        0 <= task < MASK_BITS,
    ensures
        table_wf(spec_subscribe(subs, kind, task)),
        forall|t: usize|
            #![auto]
            spec_recipients(spec_subscribe(subs, kind, task), other).contains(t) <==> (
            spec_recipients(subs, other).contains(t) || (other == kind && t == task && task
                < NUM_TASKS)),
        other != kind ==> spec_recipients(spec_subscribe(subs, kind, task), other)
            == spec_recipients(subs, other),
{
    let after = spec_subscribe(subs, kind, task);
    lemma_tasks_in(subs[other], NUM_TASKS as int);
    lemma_tasks_in(after[other], NUM_TASKS as int);
    if other != kind {
        assert(after[other] == subs[other]);
    }
    assert forall|t: usize|
        #![auto]
        spec_recipients(after, other).contains(t) <==> (spec_recipients(subs, other).contains(t)
            || (other == kind && t == task && task < NUM_TASKS)) by {
        let ra = tasks_in(after[other], NUM_TASKS as int);
        let rb = tasks_in(subs[other], NUM_TASKS as int);
        assert(ra.contains(t) <==> (t < NUM_TASKS && after[other].contains(t as int)));
        assert(rb.contains(t) <==> (t < NUM_TASKS && subs[other].contains(t as int)));
        if other == kind {
            assert(after[other] == subs[other].insert(task));
        }
    }
}

/// Subscribing twice is the same as subscribing once.
pub proof fn lemma_subscribe_idempotent(subs: Seq<Set<int>>, kind: int, task: int)
    requires
        0 <= kind < subs.len(),
    ensures
        spec_subscribe(spec_subscribe(subs, kind, task), kind, task) == spec_subscribe(
            subs,
            kind,
            task,
        ),
{
    let once = spec_subscribe(subs, kind, task);
    assert(once[kind].insert(task) =~= once[kind]);
    assert(spec_subscribe(once, kind, task) =~= once);
}

/// The order in which subscriptions are made does not matter.
pub proof fn lemma_subscribe_commutes(
    subs: Seq<Set<int>>,
    kind1: int,
    task1: int,
    kind2: int,
    task2: int,
)
    requires
        0 <= kind1 < subs.len(),
        0 <= kind2 < subs.len(),
    ensures
        spec_subscribe(spec_subscribe(subs, kind1, task1), kind2, task2) == spec_subscribe(
            spec_subscribe(subs, kind2, task2),
            kind1,
            task1,
        ),
{
    let a = spec_subscribe(spec_subscribe(subs, kind1, task1), kind2, task2);
    let b = spec_subscribe(spec_subscribe(subs, kind2, task2), kind1, task1);
    assert forall|k: int| 0 <= k < subs.len() implies a[k] == b[k] by {
        assert(a[k] =~= b[k]);
    }
    assert(a =~= b);
}

/// A fresh router hands a message to nobody.
pub proof fn lemma_fresh_router_sends_nowhere(kind: int)
    requires
        0 <= kind < MAX_MESSAGES,
    ensures
        table_wf(empty_table()),
        spec_recipients(empty_table(), kind) == Seq::<usize>::empty(),
{
    lemma_tasks_in(empty_table()[kind], NUM_TASKS as int);
    assert(spec_recipients(empty_table(), kind) =~= Seq::<usize>::empty()) by {
        let r = spec_recipients(empty_table(), kind);
        if r.len() > 0 {
            assert(r.contains(r[0]));
            assert(empty_table()[kind] == Set::<int>::empty());
            assert(!empty_table()[kind].contains(r[0] as int));
        }
    }
}

} // verus!
