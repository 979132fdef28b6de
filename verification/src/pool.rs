//! The worker pool's dispatch discipline. OS threads, the channel and the
//! fault boundary live outside this crate; here stand the decisions they
//! follow — what a worker does with each item it receives, and what the pool
//! sends when work is submitted or the pool is shut down — together with a
//! sequential model of the shared queue, over which the delivery laws are
//! proved: every unit is executed exactly once while a worker runs, a
//! faulting unit stops no later unit, and shutdown's end signals stop every
//! worker, after which nothing more is delivered.
use vstd::prelude::*;

verus! {

/// Work that is sent to workers: a unit to execute, or the signal to stop.
pub enum Work<W> {
    Unit(W),
    End,
}

/// What a worker does with one received item.
pub enum WorkerStep<W> {
    Execute(W),
    Stop,
}

impl<W> Work<W> {
    /// One worker's decision on a received item: execute a unit, stop on the
    /// end signal.
    pub fn step(self) -> (r: WorkerStep<W>)
        ensures
            match self {
                Work::Unit(w) => r == WorkerStep::Execute(w),
                Work::End => r == WorkerStep::<W>::Stop,
            },
    {
        match self {
            Work::Unit(w) => WorkerStep::Execute(w),
            Work::End => WorkerStep::Stop,
        }
    }
}

/// Whether a worker keeps serving after a unit has finished: always — a
/// fault inside a unit is caught at the worker boundary and isolated to that
/// unit, so the worker resumes dequeuing whether the unit finished cleanly
/// or not.
pub fn worker_continues(_faulted: bool) -> (r: bool)
    ensures
        r,
{
    true
}

/// The unit payloads that `workers` workers deliver from the queue, in queue
/// order: each unit goes to exactly one worker, each end signal stops one
/// worker, and delivery ends when no worker is left.
pub open spec fn delivered<W>(q: Seq<Work<W>>, workers: nat) -> Seq<W>
    decreases q.len(),
{
    if q.len() == 0 || workers == 0 {
        Seq::empty()
    } else {
        match q[0] {
            Work::Unit(w) => seq![w] + delivered(q.drop_first(), workers),
            Work::End => delivered(q.drop_first(), (workers - 1) as nat),
        }
    }
}

/// How many workers are still running once `workers` workers have consumed
/// the queue.
pub open spec fn workers_left<W>(q: Seq<Work<W>>, workers: nat) -> nat
    decreases q.len(),
{
    if q.len() == 0 || workers == 0 {
        workers
    } else {
        match q[0] {
            Work::Unit(_) => workers_left(q.drop_first(), workers),
            Work::End => workers_left(q.drop_first(), (workers - 1) as nat),
        }
    }
}

/// The tail of the queue that no worker is left to consume.
pub open spec fn undelivered<W>(q: Seq<Work<W>>, workers: nat) -> Seq<Work<W>>
    decreases q.len(),
{
    if q.len() == 0 || workers == 0 {
        q
    } else {
        match q[0] {
            Work::Unit(_) => undelivered(q.drop_first(), workers),
            Work::End => undelivered(q.drop_first(), (workers - 1) as nat),
        }
    }
}

/// How many end signals a queue holds.
pub open spec fn end_count<W>(q: Seq<Work<W>>) -> nat
    decreases q.len(),
{
    if q.len() == 0 {
        0
    } else {
        (if q[0] is End {
            1nat
        } else {
            0nat
        }) + end_count(q.drop_first())
    }
}

/// `n` end signals, one per worker to stop.
pub open spec fn end_signals<W>(n: nat) -> Seq<Work<W>> {
    Seq::new(n, |i: int| Work::End)
}

/// The sequential model of the pool: the items the shared queue holds, in
/// submission order, and how many workers are still running. The runtime
/// pool differs only in who dequeues: there, workers race for items, but the
/// channel still delivers each item to exactly one of them.
pub struct ThreadPool<W> {
    queue: Vec<Work<W>>,
    workers: usize,
}

/// The model's mathematical state.
pub ghost struct PoolView<W> {
    pub pending: Seq<Work<W>>,
    pub workers: nat,
}

impl<W> View for ThreadPool<W> {
    type V = PoolView<W>;

    closed spec fn view(&self) -> PoolView<W> {
        PoolView { pending: self.queue@, workers: self.workers as nat }
    }
}

impl<W> ThreadPool<W> {
    /// A pool of `worker_num` workers with an empty queue.
    pub fn new(worker_num: usize) -> (r: Self)
        ensures
            r@.pending == Seq::<Work<W>>::empty(),
            r@.workers == worker_num,
    {
        ThreadPool { queue: Vec::new(), workers: worker_num }
    }

    /// How many workers are still running.
    pub fn worker_count(&self) -> (r: usize)
        ensures
            r == self@.workers,
    {
        self.workers
    }

    /// How many items wait in the queue.
    pub fn pending_count(&self) -> (r: usize)
        ensures
            r == self@.pending.len(),
    {
        self.queue.len()
    }

    /// Submits a unit of work: it joins the queue and nothing else changes;
    /// the caller is never blocked on worker availability (the queue is
    /// unbounded).
    pub fn do_work(&mut self, work_unit: W)
        ensures
            final(self)@.pending == old(self)@.pending.push(Work::Unit(work_unit)),
            final(self)@.workers == old(self)@.workers,
    {
        self.queue.push(Work::Unit(work_unit));
    }

    /// Shuts the pool down: exactly one end signal per running worker joins
    /// the queue. Work submitted after this sits behind the end signals and
    /// is never delivered.
    pub fn dispose(&mut self)
        ensures
            final(self)@.pending == old(self)@.pending + end_signals::<W>(old(self)@.workers),
            final(self)@.workers == old(self)@.workers,
    {
        let n = self.workers;
        for k in 0..n
            invariant
                self.workers == n,
                self.queue@ == old(self)@.pending + end_signals::<W>(k as nat),
        {
            self.queue.push(Work::End);
            proof {
                assert(self.queue@ =~= old(self)@.pending + end_signals::<W>((k + 1) as nat));
            }
        }
    }

    /// Runs the workers until the queue is empty or the last of them has
    /// stopped: the delivered units come back in queue order — each executed
    /// once, none twice — each end signal stops one worker, and whatever sat
    /// behind the last worker's end signal stays undelivered.
    pub fn run(&mut self) -> (executed: Vec<W>)
        ensures
            executed@ == delivered(old(self)@.pending, old(self)@.workers),
            final(self)@.workers == workers_left(old(self)@.pending, old(self)@.workers),
            final(self)@.pending == undelivered(old(self)@.pending, old(self)@.workers),
    {
        let mut executed: Vec<W> = Vec::new();
        let ghost q0 = self@.pending;
        let ghost w0 = self@.workers;
        proof {
            assert(executed@ + delivered(self.queue@, self@.workers) =~= delivered(q0, w0));
        }
        while self.queue.len() > 0 && self.workers > 0
            invariant
                executed@ + delivered(self.queue@, self@.workers) == delivered(q0, w0),
                workers_left(self.queue@, self@.workers) == workers_left(q0, w0),
                undelivered(self.queue@, self@.workers) == undelivered(q0, w0),
            decreases self.queue.len(),
        {
            let ghost q = self.queue@;
            let item = self.queue.remove(0);
            proof {
                assert(self.queue@ =~= q.drop_first());
            }
            match item.step() {
                WorkerStep::Execute(w) => {
                    executed.push(w);
                    proof {
                        assert(executed@ + delivered(self.queue@, self@.workers) =~= delivered(
                            q0,
                            w0,
                        ));
                    }
                },
                WorkerStep::Stop => {
                    self.workers = self.workers - 1;
                },
            }
        }
        proof {
            assert(delivered(self.queue@, self@.workers) =~= Seq::<W>::empty());
            assert(executed@ =~= delivered(q0, w0));
        }
        executed
    }
}

/// Every submitted unit is executed exactly once: with at least one worker,
/// a queue holding exactly the submitted units, in submission order, is
/// delivered as exactly that sequence — no unit twice, no unit dropped.
pub proof fn lemma_units_executed_exactly_once<W>(ws: Seq<W>, workers: nat)
    requires
        workers >= 1,
    ensures
        delivered(ws.map_values(|w: W| Work::Unit(w)), workers) == ws,
    decreases ws.len(),
{
    let q = ws.map_values(|w: W| Work::Unit(w));
    if ws.len() == 0 {
        assert(delivered(q, workers) =~= ws);
    } else {
        lemma_units_executed_exactly_once(ws.drop_first(), workers);
        assert(q.drop_first() =~= ws.drop_first().map_values(|w: W| Work::Unit(w)));
        assert(delivered(q, workers) =~= ws);
    }
}

/// A faulting unit stops no later unit: whatever executing an earlier item
/// did — the worker continues either way, see `worker_continues` — every
/// unit the worker supply reaches is among the executed ones.
pub proof fn lemma_fault_stops_no_later_unit<W>(q: Seq<Work<W>>, j: int, workers: nat)
    requires
        0 <= j < q.len(),
        q[j] is Unit,
        end_count(q.take(j)) < workers,
    ensures
        delivered(q, workers).contains(q[j]->Unit_0),
    decreases q.len(),
{
    if j == 0 {
        assert(delivered(q, workers)[0] == q[0]->Unit_0);
    } else {
        let t = q.drop_first();
        assert(q.take(j).drop_first() =~= t.take(j - 1));
        let w = q[j]->Unit_0;
        match q[0] {
            Work::Unit(v) => {
                lemma_fault_stops_no_later_unit(t, j - 1, workers);
                let k = choose|k: int|
                    0 <= k < delivered(t, workers).len() && delivered(t, workers)[k] == w;
                assert(delivered(q, workers)[k + 1] == w);
            },
            Work::End => {
                lemma_fault_stops_no_later_unit(t, j - 1, (workers - 1) as nat);
                assert(delivered(q, workers) == delivered(t, (workers - 1) as nat));
            },
        }
    }
}

/// Shutdown on a pool with zero pending units stops every worker: the end
/// signals alone are queued, one per worker; running them executes nothing
/// and leaves no worker running.
pub proof fn lemma_shutdown_stops_all_workers<W>(n: nat)
    ensures
        delivered(end_signals::<W>(n), n) == Seq::<W>::empty(),
        workers_left(end_signals::<W>(n), n) == 0,
    decreases n,
{
    let q = end_signals::<W>(n);
    if n == 0 {
        assert(delivered(q, n) =~= Seq::<W>::empty());
    } else {
        lemma_shutdown_stops_all_workers::<W>((n - 1) as nat);
        assert(q.drop_first() =~= end_signals::<W>((n - 1) as nat));
        assert(delivered(q, n) =~= Seq::<W>::empty());
    }
}

} // verus!
