use vstd::prelude::*;

verus! {

/// The pool of tile workers, with the most recent compute duration of each, in
/// nanoseconds: `reload_durs[i]` belongs to `workers[i]`. Workers are added at the end
/// and retired from the end.
pub struct WorkerPool<W> {
    workers: Vec<W>,
    reload_durs: Vec<u64>,
}

/// What the pool needs next to reach a requested size.
#[derive(Clone, Copy, Debug, PartialEq, Eq)]
pub enum PoolStep {
    /// Start one more worker and add it.
    Spawn,
    /// Retire the most recently added worker.
    Retire,
    /// The pool has the requested size.
    Ready,
}

/// A pool as its workers and their durations.
pub type PoolView<W> = (Seq<W>, Seq<u64>);

/// The pool with `w` added: its duration slot starts at zero.
pub open spec fn pool_add<W>(p: PoolView<W>, w: W) -> PoolView<W> {
    (p.0.push(w), p.1.push(0u64))
}

/// The pool with its most recently added worker and that worker's slot removed.
pub open spec fn pool_retire<W>(p: PoolView<W>) -> PoolView<W> {
    (p.0.drop_last(), p.1.drop_last())
}

pub open spec fn pool_wf<W>(p: PoolView<W>) -> bool {
    p.0.len() == p.1.len()
}

/// The step toward `target` from a pool of `len` workers.
pub open spec fn step_spec(len: int, target: int) -> PoolStep {
    if len < target {
        PoolStep::Spawn
    } else if len > target {
        PoolStep::Retire
    } else {
        PoolStep::Ready
    }
}

impl<W> WorkerPool<W> {
    pub closed spec fn view(&self) -> PoolView<W> {
        (self.workers@, self.reload_durs@)
    }

    /// Each worker has its duration slot.
    pub open spec fn wf(&self) -> bool {
        pool_wf(self.view())
    }

    pub fn new() -> (r: Self)
        ensures
            r.wf(),
            r.view().0.len() == 0,
            r.view().1.len() == 0,
    {
        WorkerPool { workers: Vec::new(), reload_durs: Vec::new() }
    }

    pub fn len(&self) -> (r: usize)
        requires
            self.wf(),
        ensures
            r == self.view().0.len(),
            r == self.view().1.len(),
    {
        self.workers.len()
    }

    /// The step that brings the pool toward `target` workers.
    pub fn next_step(&self, target: usize) -> (r: PoolStep)
        requires
            self.wf(),
        ensures
            r == step_spec(self.view().0.len() as int, target as int),
    {
        let len = self.workers.len();
        if len < target {
            PoolStep::Spawn
        } else if len > target {
            PoolStep::Retire
        } else {
            PoolStep::Ready
        }
    }

    /// Adds a worker, with a zero duration slot.
    pub fn add(&mut self, w: W)
        requires
            old(self).wf(),
        ensures
            final(self).wf(),
            final(self).view() == pool_add(old(self).view(), w),
    {
        self.workers.push(w);
        self.reload_durs.push(0);
    }

    /// Removes the most recently added worker and its slot, and hands the worker back.
    pub fn retire(&mut self) -> (r: Option<W>)
        requires
            old(self).wf(),
        ensures
            final(self).wf(),
            old(self).view().0.len() == 0 ==> r.is_none() && final(self).view() == old(self).view(),
            old(self).view().0.len() > 0 ==> r == Some(old(self).view().0.last()) && final(self).view()
                == pool_retire(old(self).view()),
    {
        match self.workers.pop() {
            Some(w) => {
                self.reload_durs.pop();
                Some(w)
            },
            None => None,
        }
    }

    /// The worker at `id`.
    pub fn worker(&self, id: usize) -> (r: &W)
        requires
            self.wf(),
            id < self.view().0.len(),
        ensures
            *r == self.view().0[id as int],
    {
        &self.workers[id]
    }

    /// Records the compute duration of worker `id`.
    pub fn record(&mut self, id: usize, dur: u64)
        requires
            old(self).wf(),
            id < old(self).view().0.len(),
        ensures
            final(self).wf(),
            final(self).view().0 == old(self).view().0,
            final(self).view().1 == old(self).view().1.update(id as int, dur),
    {
        self.reload_durs.set(id, dur);
    }

    /// The recorded durations, in worker order.
    pub fn durations(&self) -> (r: Vec<u64>)
        requires
            self.wf(),
        ensures
            r@ == self.view().1,
    {
        self.reload_durs.clone()
    }

    /// The longest recorded duration: the cost of the last reload; zero for an empty pool.
    pub fn max_duration(&self) -> (r: u64)
        requires
            self.wf(),
        ensures
            forall|i: int| 0 <= i < self.view().1.len() ==> self.view().1[i] <= r,
            self.view().1.len() == 0 ==> r == 0,
            self.view().1.len() > 0 ==> exists|i: int| 0 <= i < self.view().1.len() && self.view().1[i] == r,
    {
        let mut m: u64 = 0;
        let mut i: usize = 0;
        while i < self.reload_durs.len()
            invariant
                i <= self.reload_durs@.len(),
                forall|j: int| 0 <= j < i ==> self.reload_durs@[j] <= m,
                i == 0 ==> m == 0,
                i > 0 ==> exists|j: int| 0 <= j < i && self.reload_durs@[j] == m,
            decreases self.reload_durs@.len() - i,
        {
            if self.reload_durs[i] > m || i == 0 {
                m = self.reload_durs[i];
            }
            i = i + 1;
        }
        m
    }

    /// Sets every recorded duration to zero.
    pub fn reset_durations(&mut self)
        requires
            old(self).wf(),
        ensures
            final(self).wf(),
            final(self).view().0 == old(self).view().0,
            final(self).view().1.len() == old(self).view().1.len(),
            forall|i: int| 0 <= i < final(self).view().1.len() ==> final(self).view().1[i] == 0,
    {
        let mut i: usize = 0;
        while i < self.reload_durs.len()
            invariant
                i <= self.reload_durs@.len(),
                self.reload_durs@.len() == old(self).reload_durs@.len(),
                self.workers@ == old(self).workers@,
                forall|j: int| 0 <= j < i ==> self.reload_durs@[j] == 0,
            decreases self.reload_durs@.len() - i,
        {
            self.reload_durs.set(i, 0);
            i = i + 1;
        }
    }
}

/// The pool with the workers `ws` added in order.
pub open spec fn pool_add_all<W>(p: PoolView<W>, ws: Seq<W>) -> PoolView<W>
    decreases ws.len(),
{
    if ws.len() == 0 {
        p
    } else {
        pool_add(pool_add_all(p, ws.drop_last()), ws.last())
    }
}

/// The pool after `j` retirements.
pub open spec fn pool_retire_n<W>(p: PoolView<W>, j: nat) -> PoolView<W>
    decreases j,
{
    if j == 0 {
        p
    } else {
        pool_retire(pool_retire_n(p, (j - 1) as nat))
    }
}

/// Adding workers appends them, each with a zero duration slot.
pub proof fn lemma_pool_add_all<W>(p: PoolView<W>, ws: Seq<W>)
    requires
        pool_wf(p),
    ensures
        pool_add_all(p, ws).0 == p.0 + ws,
        pool_add_all(p, ws).1 == p.1 + Seq::new(ws.len(), |i: int| 0u64),
        pool_wf(pool_add_all(p, ws)),
    decreases ws.len(),
{
    if ws.len() > 0 {
        lemma_pool_add_all(p, ws.drop_last());
        assert((p.0 + ws.drop_last()).push(ws.last()) =~= p.0 + ws);
        assert((p.1 + Seq::new(ws.drop_last().len(), |i: int| 0u64)).push(0u64) =~= p.1 + Seq::new(
            ws.len(),
            |i: int| 0u64,
        ));
    } else {
        assert(p.0 + ws =~= p.0);
        assert(p.1 + Seq::new(0, |i: int| 0u64) =~= p.1);
    }
}

/// Retiring `j` workers of a pool of `m` leaves its first `m - j` workers and slots,
/// and the `i`-th retirement hands back worker `m - 1 - i`: the most recently added
/// go first.
pub proof fn lemma_pool_retire_n<W>(p: PoolView<W>, j: nat)
    requires
        pool_wf(p),
        j <= p.0.len(),
    ensures
        pool_retire_n(p, j).0 == p.0.take(p.0.len() - j),
        pool_retire_n(p, j).1 == p.1.take(p.1.len() - j),
        pool_wf(pool_retire_n(p, j)),
        forall|i: int| 0 <= i < j ==> #[trigger] pool_retire_n(p, i as nat).0.last() == p.0[p.0.len() - 1 - i],
    decreases j,
{
    if j > 0 {
        lemma_pool_retire_n(p, (j - 1) as nat);
        assert(p.0.take(p.0.len() - (j - 1)).drop_last() =~= p.0.take(p.0.len() - j));
        assert(p.1.take(p.1.len() - (j - 1)).drop_last() =~= p.1.take(p.1.len() - j));
        assert forall|i: int| 0 <= i < j implies #[trigger] pool_retire_n(p, i as nat).0.last()
            == p.0[p.0.len() - 1 - i] by {
            lemma_pool_retire_n(p, i as nat);
        }
    } else {
        assert(p.0.take(p.0.len() as int) =~= p.0);
        assert(p.1.take(p.1.len() as int) =~= p.1);
    }
}

/// Growing a pool by any number of workers and then retiring as many gives the pool
/// back exactly; the new workers leave newest first.
pub proof fn lemma_pool_grow_shrink<W>(p: PoolView<W>, ws: Seq<W>)
    requires
        pool_wf(p),
    ensures
        ({
            let grown = pool_add_all(p, ws);
            &&& pool_wf(grown)
            &&& grown.0.len() == p.0.len() + ws.len()
            &&& grown.1.len() == p.1.len() + ws.len()
            &&& pool_retire_n(grown, ws.len()) == p
            &&& forall|i: int|
                0 <= i < ws.len() ==> #[trigger] pool_retire_n(grown, i as nat).0.last() == ws[ws.len() - 1
                    - i]
        }),
{
    let grown = pool_add_all(p, ws);
    lemma_pool_add_all(p, ws);
    lemma_pool_retire_n(grown, ws.len());
    assert(grown.0.take(grown.0.len() - ws.len()) =~= p.0);
    assert(grown.1.take(grown.1.len() - ws.len()) =~= p.1);
    assert forall|i: int| 0 <= i < ws.len() implies #[trigger] pool_retire_n(grown, i as nat).0.last()
        == ws[ws.len() - 1 - i] by {
        assert(grown.0[grown.0.len() - 1 - i] == ws[ws.len() - 1 - i]);
    }
}

/// Taking the pool's steps toward `target` one at a time reaches it: a spawn or a retire
/// brings the size one closer, and a pool of the target size is ready.
pub proof fn lemma_steps_reach_target<W>(p: PoolView<W>, target: nat, w: W)
    requires
        pool_wf(p),
    ensures
        step_spec(p.0.len() as int, target as int) == PoolStep::Spawn ==> pool_add(p, w).0.len()
            == p.0.len() + 1 && pool_add(p, w).0.len() <= target,
        step_spec(p.0.len() as int, target as int) == PoolStep::Retire ==> pool_retire(p).0.len()
            == p.0.len() - 1 && pool_retire(p).0.len() >= target,
        step_spec(p.0.len() as int, target as int) == PoolStep::Ready <==> p.0.len() == target,
{
}

} // verus!
