//! Bookkeeping and placement logic of the fixed-capacity worker pool.
//!
//! The pool tracks its workers by numeric id.  The threads themselves,
//! their queues and their wake signals live with the embedding program;
//! on every submission it reports, for each tracked worker, whether the
//! thread is still running, whether it is busy, and how long its queue
//! is.  From that snapshot [`ThreadPool::submit`] reclaims dead workers
//! and decides where the task goes: to the first idle worker, to a
//! newly spawned one (reusing a freed id when one exists), or — with
//! the pool full and busy — to the queue of the least-loaded worker.

use vstd::prelude::*;

verus! {

/// What the embedding program observed of one worker at submission time.
#[derive(Clone, Copy, PartialEq, Eq, Structural, Debug)]
pub struct WorkerStatus {
    /// The worker's thread has not terminated.
    pub live: bool,
    /// The worker is currently running a task.
    pub occupied: bool,
    /// Number of tasks waiting in the worker's queue.
    pub queue_len: usize,
}

/// Where a submitted task is to be placed.
///
/// Indices refer to the pool's worker list after dead workers have been
/// reclaimed, i.e. to the list of workers whose status was `live`.
#[derive(Clone, Copy, PartialEq, Eq, Structural, Debug)]
pub enum Placement {
    /// Hand the task directly to the idle worker at `index` and wake it.
    AssignIdle { index: usize },
    /// Spawn a new worker with the given id and hand it the task.
    SpawnNew { thread_number: usize },
    /// All workers busy and the pool full: enqueue on the worker at `index`.
    EnqueueLeastLoaded { index: usize },
}

/// One step of the pool: the worker ids and free ids after a submission,
/// and the placement it decided on.
pub struct PoolStep {
    pub threads: Seq<usize>,
    pub free: Seq<usize>,
    pub placement: Placement,
}

/// The ids of the workers whose status is `live`, in order.
pub open spec fn keep_live(ids: Seq<usize>, st: Seq<WorkerStatus>) -> Seq<usize>
    decreases ids.len(),
{
    if ids.len() == 0 || st.len() == 0 {
        Seq::empty()
    } else if st.last().live {
        keep_live(ids.drop_last(), st.drop_last()).push(ids.last())
    } else {
        keep_live(ids.drop_last(), st.drop_last())
    }
}

/// The ids of the workers whose status is not `live`, in order.
pub open spec fn dead_part(ids: Seq<usize>, st: Seq<WorkerStatus>) -> Seq<usize>
    decreases ids.len(),
{
    if ids.len() == 0 || st.len() == 0 {
        Seq::empty()
    } else if st.last().live {
        dead_part(ids.drop_last(), st.drop_last())
    } else {
        dead_part(ids.drop_last(), st.drop_last()).push(ids.last())
    }
}

/// The statuses of the live workers, in order.
pub open spec fn live_part(st: Seq<WorkerStatus>) -> Seq<WorkerStatus>
    decreases st.len(),
{
    if st.len() == 0 {
        Seq::empty()
    } else if st.last().live {
        live_part(st.drop_last()).push(st.last())
    } else {
        live_part(st.drop_last())
    }
}

/// Index of the first worker that is not occupied, if any.
pub open spec fn first_idle(live: Seq<WorkerStatus>) -> Option<int>
    decreases live.len(),
{
    if live.len() == 0 {
        None
    } else if !live[0].occupied {
        Some(0int)
    } else {
        match first_idle(live.drop_first()) {
            Some(i) => Some(i + 1),
            None => None,
        }
    }
}

/// Index of the first worker with the smallest queue length.
pub open spec fn min_queue_index(live: Seq<WorkerStatus>) -> int
    decreases live.len(),
{
    if live.len() <= 1 {
        0
    } else {
        let prev = min_queue_index(live.drop_last());
        if live.last().queue_len < live[prev].queue_len {
            live.len() - 1
        } else {
            prev
        }
    }
}

/// The placement decision over the post-reclamation state: prefer an idle
/// worker, else grow the pool while below capacity (reusing the oldest
/// freed id), else enqueue on the least-loaded worker.
pub open spec fn spec_place(cap: int, ids: Seq<usize>, free: Seq<usize>, live: Seq<WorkerStatus>) -> Placement {
    match first_idle(live) {
        Some(i) => (Placement::AssignIdle { index: i as usize }),
        None => if ids.len() < cap {
            if free.len() > 0 {
                (Placement::SpawnNew { thread_number: free[0] })
            } else {
                (Placement::SpawnNew { thread_number: ids.len() as usize })
            }
        } else {
            (Placement::EnqueueLeastLoaded { index: min_queue_index(live) as usize })
        },
    }
}

/// One full submission step: reclaim dead workers, then place the task.
pub open spec fn spec_submit(cap: int, ids: Seq<usize>, free: Seq<usize>, st: Seq<WorkerStatus>) -> PoolStep {
    let ids1 = keep_live(ids, st);
    let free1 = free + dead_part(ids, st);
    let p = spec_place(cap, ids1, free1, live_part(st));
    match p {
        Placement::SpawnNew { thread_number } => if free1.len() > 0 {
            (PoolStep { threads: ids1.push(thread_number), free: free1.drop_first(), placement: p })
        } else {
            (PoolStep { threads: ids1.push(thread_number), free: free1, placement: p })
        },
        _ => (PoolStep { threads: ids1, free: free1, placement: p }),
    }
}

/// The worker pool's bookkeeping: its capacity, the ids of the workers it
/// tracks (in creation order), and the ids freed by reclaimed workers.
pub struct ThreadPool {
    thread_count: usize,
    threads: Vec<usize>,
    dead_thread_numbers: Vec<usize>,
}

/// The id books are consistent: every id — tracked or freed — is
/// distinct, and together they are exactly the ids handed out so far,
/// `0` up to their count.
pub open spec fn ids_wf(all: Seq<usize>) -> bool {
    &&& all.no_duplicates()
    &&& forall|i: int| 0 <= i < all.len() ==> (#[trigger] all[i]) < all.len()
}

impl ThreadPool {
    /// The pool's internal invariant: capacity is positive and fixed, the
    /// pool never hands out more ids than its capacity, and tracked and
    /// freed ids together are distinct.
    pub closed spec fn wf(self) -> bool {
        &&& 1 <= self.thread_count
        &&& self.threads@.len() + self.dead_thread_numbers@.len() <= self.thread_count
        &&& ids_wf(self.threads@ + self.dead_thread_numbers@)
    }

    pub closed spec fn spec_capacity(self) -> int {
        self.thread_count as int
    }

    pub closed spec fn spec_threads(self) -> Seq<usize> {
        self.threads@
    }

    pub closed spec fn spec_free(self) -> Seq<usize> {
        self.dead_thread_numbers@
    }

    /// A fresh pool for the given number of logical CPUs (every machine
    /// detects at least one), with no workers yet.
    pub fn new(thread_count: usize) -> (pool: ThreadPool)
        requires
            1 <= thread_count,
        ensures
            pool.wf(),
            pool.spec_capacity() == thread_count,
            pool.spec_threads() == Seq::<usize>::empty(),
            pool.spec_free() == Seq::<usize>::empty(),
    {
        let pool = ThreadPool { thread_count, threads: Vec::new(), dead_thread_numbers: Vec::new() };
        proof {
            assert(pool.threads@ + pool.dead_thread_numbers@ =~= Seq::<usize>::empty());
        }
        pool
    }

    /// The fixed capacity chosen at construction.
    pub fn capacity(&self) -> (c: usize)
        ensures
            c == self.spec_capacity(),
    {
        self.thread_count
    }

    /// The number of workers the pool currently tracks.
    pub fn worker_count(&self) -> (n: usize)
        ensures
            n == self.spec_threads().len(),
    {
        self.threads.len()
    }

    /// The id of the tracked worker at `index`.
    pub fn thread_number_at(&self, index: usize) -> (id: usize)
        requires
            index < self.spec_threads().len(),
        ensures
            id == self.spec_threads()[index as int],
    {
        self.threads[index]
    }

    /// Decide where one submitted task goes, given a snapshot of every
    /// tracked worker (one status per worker, in order).  Dead workers are
    /// reclaimed first: the caller must drop exactly the workers it
    /// reported as not live, so that its worker list stays parallel to the
    /// pool's.  The returned placement indexes into that reduced list.
    #[verifier::loop_isolation(false)]
    pub fn submit(&mut self, status: &Vec<WorkerStatus>) -> (p: Placement)
        requires
            old(self).wf(),
            status@.len() == old(self).spec_threads().len(),
        ensures
            final(self).wf(),
            final(self).spec_capacity() == old(self).spec_capacity(),
            final(self).spec_threads().len() <= old(self).spec_capacity(),
            final(self).spec_threads().no_duplicates(),
            ({
                let step = spec_submit(
                    old(self).spec_capacity(),
                    old(self).spec_threads(),
                    old(self).spec_free(),
                    status@,
                );
                &&& final(self).spec_threads() == step.threads
                &&& final(self).spec_free() == step.free
                &&& p == step.placement
            }),
    {
        let ghost old_ids = self.threads@;

        // Reclaim: keep live workers, free the ids of dead ones.
        let mut kept: Vec<usize> = Vec::new();
        let mut live: Vec<WorkerStatus> = Vec::new();
        let mut i: usize = 0;
        while i < self.threads.len()
            invariant
                i <= self.threads@.len(),
                self.threads@ == old_ids,
                status@.len() == old_ids.len(),
                self.thread_count == old(self).thread_count,
                kept@ == keep_live(old_ids.take(i as int), status@.take(i as int)),
                live@ == live_part(status@.take(i as int)),
                kept@.len() == live@.len(),
                self.dead_thread_numbers@ == old(self).dead_thread_numbers@
                    + dead_part(old_ids.take(i as int), status@.take(i as int)),
            decreases self.threads@.len() - i,
        {
            proof {
                assert(old_ids.take(i + 1).drop_last() =~= old_ids.take(i as int));
                assert(status@.take(i + 1).drop_last() =~= status@.take(i as int));
            }
            if status[i].live {
                kept.push(self.threads[i]);
                live.push(status[i]);
                proof {
                    assert(self.dead_thread_numbers@ =~= old(self).dead_thread_numbers@
                        + dead_part(old_ids.take(i + 1), status@.take(i + 1)));
                }
            } else {
                self.dead_thread_numbers.push(self.threads[i]);
                proof {
                    assert(self.dead_thread_numbers@ =~= old(self).dead_thread_numbers@
                        + dead_part(old_ids.take(i + 1), status@.take(i + 1)));
                }
            }
            i = i + 1;
        }
        proof {
            assert(old_ids.take(old_ids.len() as int) =~= old_ids);
            assert(status@.take(status@.len() as int) =~= status@);
        }
        self.threads = kept;

        proof {
            lemma_keep_live_len(old_ids, status@);
            lemma_live_part_len(status@);
            broadcast use vstd::seq_lib::group_to_multiset_ensures;
            lemma_parts_multiset(old_ids, status@);
            vstd::seq_lib::lemma_multiset_commutative(old_ids, old(self).dead_thread_numbers@);
            vstd::seq_lib::lemma_multiset_commutative(self.threads@, self.dead_thread_numbers@);
            vstd::seq_lib::lemma_multiset_commutative(
                old(self).dead_thread_numbers@,
                dead_part(old_ids, status@),
            );
            assert((self.threads@ + self.dead_thread_numbers@).to_multiset()
                =~= (old_ids + old(self).dead_thread_numbers@).to_multiset());
            lemma_ids_wf_permutation(
                old_ids + old(self).dead_thread_numbers@,
                self.threads@ + self.dead_thread_numbers@,
            );
            assert((self.threads@ + self.dead_thread_numbers@).to_multiset().len()
                == (old_ids + old(self).dead_thread_numbers@).to_multiset().len());
            assert(self.threads@.len() + self.dead_thread_numbers@.len()
                == old_ids.len() + old(self).dead_thread_numbers@.len());
            lemma_no_duplicates_prefix(self.threads@, self.dead_thread_numbers@);
        }
        let ghost kept_ids = self.threads@;
        let ghost freed_ids = self.dead_thread_numbers@;

        // Prefer an idle worker.
        let mut j: usize = 0;
        while j < live.len()
            invariant
                j <= live@.len(),
                forall|k: int| 0 <= k < j ==> live@[k].occupied,
            decreases live@.len() - j,
        {
            if !live[j].occupied {
                proof {
                    lemma_first_idle_at(live@, j as int);
                }
                return Placement::AssignIdle { index: j };
            }
            j = j + 1;
        }
        proof {
            lemma_first_idle_none(live@);
        }

        // Grow while below capacity, reusing the oldest freed id.
        if self.threads.len() < self.thread_count {
            let thread_number: usize;
            if self.dead_thread_numbers.len() > 0 {
                thread_number = self.dead_thread_numbers.remove(0);
                proof {
                    assert(self.dead_thread_numbers@ =~= (old(self).dead_thread_numbers@
                        + dead_part(old_ids, status@)).drop_first());
                }
            } else {
                thread_number = self.threads.len();
            }
            self.threads.push(thread_number);
            proof {
                broadcast use vstd::seq_lib::group_to_multiset_ensures;
                if freed_ids.len() > 0 {
                    // The reused id moves from the freed book to the
                    // tracked one: a rearrangement.
                    assert(freed_ids.contains(freed_ids[0]));
                    assert(freed_ids.remove(0) =~= self.dead_thread_numbers@);
                    vstd::seq_lib::lemma_multiset_commutative(kept_ids, freed_ids);
                    vstd::seq_lib::lemma_multiset_commutative(self.threads@, self.dead_thread_numbers@);
                    assert((self.threads@ + self.dead_thread_numbers@).to_multiset()
                        =~= (kept_ids + freed_ids).to_multiset());
                    lemma_ids_wf_permutation(
                        kept_ids + freed_ids,
                        self.threads@ + self.dead_thread_numbers@,
                    );
                    assert((self.threads@ + self.dead_thread_numbers@).to_multiset().len()
                        == (kept_ids + freed_ids).to_multiset().len());
                    assert(self.threads@.len() + self.dead_thread_numbers@.len()
                        == kept_ids.len() + freed_ids.len());
                } else {
                    // A fresh id: with no freed ids, the tracked ids are
                    // exactly 0 .. len, so len itself is unused.
                    assert(kept_ids + freed_ids =~= kept_ids);
                    assert(self.threads@ =~= kept_ids.push(kept_ids.len() as usize));
                    assert(self.threads@ + self.dead_thread_numbers@ =~= self.threads@);
                    assert forall|i2: int, j2: int| 0 <= i2 < j2 < self.threads@.len()
                        implies self.threads@[i2] != self.threads@[j2] by {
                        if j2 == self.threads@.len() - 1 {
                            assert(kept_ids[i2] < kept_ids.len());
                        }
                    }
                }
                lemma_no_duplicates_prefix(self.threads@, self.dead_thread_numbers@);
            }
            return Placement::SpawnNew { thread_number };
        }

        // Full and busy: enqueue on the first least-loaded worker.
        let mut best: usize = 0;
        let mut k: usize = 1;
        while k < live.len()
            invariant
                live@.len() == self.threads@.len(),
                self.threads@.len() == self.thread_count,
                1 <= self.thread_count,
                1 <= k <= live@.len(),
                best < k,
                best == min_queue_index(live@.take(k as int)),
            decreases live@.len() - k,
        {
            proof {
                assert(live@.take(k + 1).drop_last() =~= live@.take(k as int));
            }
            if live[k].queue_len < live[best].queue_len {
                best = k;
            }
            k = k + 1;
        }
        proof {
            assert(live@.take(live@.len() as int) =~= live@);
        }
        Placement::EnqueueLeastLoaded { index: best }
    }
}


/// Statuses of `n` workers that are all alive, all busy, and have empty queues.
pub open spec fn busy_status(n: nat) -> Seq<WorkerStatus> {
    Seq::new(n, |i: int| WorkerStatus { live: true, occupied: true, queue_len: 0 })
}

/// Statuses of `n` workers that are all alive and busy except the one at `k`,
/// whose thread has terminated.
pub open spec fn one_dead_status(n: nat, k: int) -> Seq<WorkerStatus> {
    Seq::new(n, |i: int| WorkerStatus { live: i != k, occupied: true, queue_len: 0 })
}

/// The worker ids after `n` submissions to a fresh pool of capacity `cap`,
/// each made while every existing worker is busy.
pub open spec fn burst_threads(cap: int, n: nat) -> Seq<usize>
    decreases n,
{
    if n == 0 {
        Seq::empty()
    } else {
        spec_submit(cap, burst_threads(cap, (n - 1) as nat), Seq::empty(), busy_status((n - 1) as nat)).threads
    }
}

/// When every reported worker is live, reclamation keeps all of them and
/// frees nothing.
proof fn lemma_all_live_parts(ids: Seq<usize>, st: Seq<WorkerStatus>)
    requires
        st.len() == ids.len(),
        forall|i: int| 0 <= i < st.len() ==> (#[trigger] st[i]).live,
    ensures
        keep_live(ids, st) =~= ids,
        dead_part(ids, st) =~= Seq::<usize>::empty(),
        live_part(st) =~= st,
    decreases ids.len(),
{
    if ids.len() != 0 {
        assert(forall|i: int| 0 <= i < st.len() - 1 ==> #[trigger] st.drop_last()[i] == st[i]);
        lemma_all_live_parts(ids.drop_last(), st.drop_last());
    }
}

/// When exactly the worker at `k` is dead, reclamation drops it, keeps the
/// others in order, and frees exactly its id.
proof fn lemma_one_dead_parts(ids: Seq<usize>, st: Seq<WorkerStatus>, k: int)
    requires
        st.len() == ids.len(),
        0 <= k < st.len(),
        !st[k].live,
        forall|i: int| 0 <= i < st.len() && i != k ==> (#[trigger] st[i]).live,
    ensures
        keep_live(ids, st) =~= ids.remove(k),
        dead_part(ids, st) =~= seq![ids[k]],
        live_part(st) =~= st.remove(k),
    decreases ids.len(),
{
    assert(forall|i: int| 0 <= i < st.len() - 1 ==> #[trigger] st.drop_last()[i] == st[i]);
    if k == ids.len() - 1 {
        lemma_all_live_parts(ids.drop_last(), st.drop_last());
    } else {
        lemma_one_dead_parts(ids.drop_last(), st.drop_last(), k);
    }
}

/// Law: no submission leaves the pool tracking more workers than its
/// capacity, whatever the snapshot reports.
pub proof fn lemma_capacity_never_exceeded(cap: int, ids: Seq<usize>, free: Seq<usize>, st: Seq<WorkerStatus>)
    requires
        ids.len() <= cap,
        st.len() == ids.len(),
    ensures
        spec_submit(cap, ids, free, st).threads.len() <= cap,
{
    lemma_keep_live_len(ids, st);
}

/// Law: a burst of `n <= capacity` submissions against a fresh pool, each
/// arriving while every existing worker is busy, spawns a new worker for
/// every task: the k-th task is handed directly to a fresh worker with id
/// `k`, and after the burst the pool tracks exactly `n` workers.
pub proof fn lemma_burst_fills_pool(cap: int, n: nat)
    requires
        1 <= cap,
        n <= cap,
    ensures
        burst_threads(cap, n) =~= Seq::new(n, |i: int| i as usize),
        forall|k: int| 0 <= k < n ==> #[trigger] spec_submit(
            cap,
            burst_threads(cap, k as nat),
            Seq::empty(),
            busy_status(k as nat),
        ).placement == (Placement::SpawnNew { thread_number: k as usize }),
    decreases n,
{
    if n > 0 {
        lemma_burst_fills_pool(cap, (n - 1) as nat);
        let ids = burst_threads(cap, (n - 1) as nat);
        let st = busy_status((n - 1) as nat);
        lemma_all_live_parts(ids, st);
        lemma_first_idle_none(st);
        assert(Seq::<usize>::empty() + Seq::<usize>::empty() =~= Seq::<usize>::empty());
        assert(spec_submit(cap, ids, Seq::empty(), st).placement
            == (Placement::SpawnNew { thread_number: (n - 1) as usize }));
        assert(burst_threads(cap, n) =~= Seq::new(n, |i: int| i as usize));
    }
}

/// Law: with the pool full and every worker busy, the extra task goes to the
/// first worker whose queue is shortest at submission time, and the worker
/// list does not change.
pub proof fn lemma_overload_enqueues_least_loaded(cap: int, ids: Seq<usize>, free: Seq<usize>, st: Seq<WorkerStatus>)
    requires
        1 <= cap,
        ids.len() == cap,
        st.len() == ids.len(),
        forall|i: int| 0 <= i < st.len() ==> (#[trigger] st[i]).live && st[i].occupied,
    ensures
        ({
            let step = spec_submit(cap, ids, free, st);
            &&& step.threads == ids
            &&& step.free == free + Seq::<usize>::empty()
            &&& step.placement == (Placement::EnqueueLeastLoaded { index: min_queue_index(st) as usize })
        }),
        forall|j: int| 0 <= j < st.len()
            ==> st[min_queue_index(st)].queue_len <= (#[trigger] st[j]).queue_len,
        forall|j: int| 0 <= j < min_queue_index(st)
            ==> (#[trigger] st[j]).queue_len > st[min_queue_index(st)].queue_len,
{
    lemma_all_live_parts(ids, st);
    lemma_first_idle_none(st);
    lemma_min_queue_index(st);
}

/// Law: a worker that died (say, its task panicked) is dropped from the pool
/// at the next submission, and — the others being busy — its id is handed to
/// the worker spawned in its place, leaving the free list empty again.
pub proof fn lemma_panicked_worker_reaped(cap: int, ids: Seq<usize>, k: int)
    requires
        1 <= cap,
        ids.len() <= cap,
        0 <= k < ids.len(),
    ensures
        ({
            let step = spec_submit(cap, ids, Seq::empty(), one_dead_status(ids.len(), k));
            &&& step.placement == (Placement::SpawnNew { thread_number: ids[k] })
            &&& step.threads =~= ids.remove(k).push(ids[k])
            &&& step.free =~= Seq::<usize>::empty()
        }),
{
    let st = one_dead_status(ids.len(), k);
    lemma_one_dead_parts(ids, st, k);
    assert(forall|i: int| 0 <= i < st.len() - 1 ==> #[trigger] st.remove(k)[i].occupied);
    lemma_first_idle_none(st.remove(k));
    assert(Seq::<usize>::empty() + seq![ids[k]] =~= seq![ids[k]]);
    lemma_keep_live_len(ids, st);
    assert(seq![ids[k]].drop_first() =~= Seq::<usize>::empty());
}

/// Reclamation only rearranges ids: the kept and the freed ids together
/// are the same multiset as the ids scanned.
proof fn lemma_parts_multiset(ids: Seq<usize>, st: Seq<WorkerStatus>)
    requires
        ids.len() == st.len(),
    ensures
        keep_live(ids, st).to_multiset().add(dead_part(ids, st).to_multiset()) =~= ids.to_multiset(),
    decreases ids.len(),
{
    broadcast use vstd::seq_lib::group_to_multiset_ensures;
    if ids.len() != 0 {
        lemma_parts_multiset(ids.drop_last(), st.drop_last());
        assert(ids.drop_last().push(ids.last()) =~= ids);
    }
}

/// A rearrangement of well-formed id books is well formed.
proof fn lemma_ids_wf_permutation(a: Seq<usize>, b: Seq<usize>)
    requires
        ids_wf(a),
        a.to_multiset() == b.to_multiset(),
    ensures
        ids_wf(b),
{
    broadcast use vstd::seq_lib::group_to_multiset_ensures;
    a.lemma_multiset_has_no_duplicates();
    b.lemma_multiset_has_no_duplicates_conv();
    assert(a.to_multiset().len() == a.len());
    assert(b.to_multiset().len() == b.len());
    assert(a.len() == b.len());
    assert forall|i: int| 0 <= i < b.len() implies (#[trigger] b[i]) < b.len() by {
        assert(b.contains(b[i]));
        assert(a.to_multiset().count(b[i]) > 0);
        assert(a.contains(b[i]));
        let j = choose|j: int| 0 <= j < a.len() && a[j] == b[i];
        assert(a[j] < a.len());
    }
}

/// Distinctness of concatenated id books carries to the first book.
proof fn lemma_no_duplicates_prefix(a: Seq<usize>, b: Seq<usize>)
    requires
        (a + b).no_duplicates(),
    ensures
        a.no_duplicates(),
{
    assert forall|i: int, j: int| 0 <= i < j < a.len() implies a[i] != a[j] by {
        assert((a + b)[i] == a[i] && (a + b)[j] == a[j]);
    }
}

/// Reclamation never keeps more workers than were tracked.
proof fn lemma_keep_live_len(ids: Seq<usize>, st: Seq<WorkerStatus>)
    ensures
        keep_live(ids, st).len() <= ids.len(),
    decreases ids.len(),
{
    if ids.len() != 0 && st.len() != 0 {
        lemma_keep_live_len(ids.drop_last(), st.drop_last());
    }
}

/// The live projection never lengthens the status list.
proof fn lemma_live_part_len(st: Seq<WorkerStatus>)
    ensures
        live_part(st).len() <= st.len(),
    decreases st.len(),
{
    if st.len() != 0 {
        lemma_live_part_len(st.drop_last());
    }
}

/// If every worker before `j` is occupied and `j` is not, then `j` is the
/// first idle index.
proof fn lemma_first_idle_at(live: Seq<WorkerStatus>, j: int)
    requires
        0 <= j < live.len(),
        !live[j].occupied,
        forall|k: int| 0 <= k < j ==> live[k].occupied,
    ensures
        first_idle(live) == Some(j),
    decreases j,
{
    if j == 0 {
    } else {
        lemma_first_idle_at(live.drop_first(), j - 1);
    }
}

/// If every worker is occupied there is no idle index.
proof fn lemma_first_idle_none(live: Seq<WorkerStatus>)
    requires
        forall|k: int| 0 <= k < live.len() ==> live[k].occupied,
    ensures
        first_idle(live) is None,
    decreases live.len(),
{
    if live.len() != 0 {
        lemma_first_idle_none(live.drop_first());
    }
}

/// The least-loaded index is in range, carries a minimal queue length, and
/// is the first index with that length.
pub proof fn lemma_min_queue_index(live: Seq<WorkerStatus>)
    requires
        live.len() > 0,
    ensures
        0 <= min_queue_index(live) < live.len(),
        forall|j: int| 0 <= j < live.len()
            ==> live[min_queue_index(live)].queue_len <= #[trigger] live[j].queue_len,
        forall|j: int| 0 <= j < min_queue_index(live)
            ==> #[trigger] live[j].queue_len > live[min_queue_index(live)].queue_len,
    decreases live.len(),
{
    if live.len() > 1 {
        lemma_min_queue_index(live.drop_last());
        assert(forall|j: int| 0 <= j < live.len() - 1 ==> live.drop_last()[j] == live[j]);
    }
}

} // verus!
