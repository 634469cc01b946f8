//! A queue of products that several workers drain.

use vstd::prelude::*;

use crate::benchmarks::workload::Size;

verus! {

/// The sum of counts.
pub open spec fn total(counts: Seq<u64>) -> nat
    decreases counts.len(),
{
    if counts.len() == 0 {
        0
    } else {
        total(counts.drop_last()) + counts.last() as nat
    }
}

/// Zeros sum up to zero.
proof fn total_of_zeros(counts: Seq<u64>)
    requires
        forall|i: int| 0 <= i < counts.len() ==> counts[i] == 0,
    ensures
        total(counts) == 0,
    decreases counts.len(),
{
    if counts.len() > 0 {
        total_of_zeros(counts.drop_last());
    }
}

/// Where one count grows, the sum grows by as much; and no count exceeds the sum.
proof fn total_of_update(counts: Seq<u64>, i: int, v: u64)
    requires
        0 <= i < counts.len(),
    ensures
        counts[i] <= total(counts),
        total(counts.update(i, v)) == total(counts) - counts[i] + v,
    decreases counts.len(),
{
    let after = counts.update(i, v);
    if i == counts.len() - 1 {
        assert(after.drop_last() =~= counts.drop_last());
    } else {
        total_of_update(counts.drop_last(), i, v);
        assert(after.drop_last() =~= counts.drop_last().update(i, v));
    }
}

/// Products in a row, of which each worker takes the foremost when it is free.
pub struct WorkQueue {
    items: Vec<Size>,
    next: usize,
    counts: Vec<u64>,
}

impl WorkQueue {
    /// The products that nobody has taken.
    pub closed spec fn left(self) -> Seq<Size> {
        self.items@.skip(self.next as int)
    }

    /// How many products each worker has taken.
    pub closed spec fn counts(self) -> Seq<u64> {
        self.counts@
    }

    /// The number of products at the start.
    pub closed spec fn size(self) -> nat {
        self.items@.len()
    }

    /// Every product is either left or counted for the worker that took it.
    pub closed spec fn wf(self) -> bool {
        &&& self.next <= self.items@.len()
        &&& total(self.counts@) == self.next
    }

    /// A queue of a workload, for a number of workers.
    pub fn new(workload: &Vec<Size>, workers: usize) -> (q: WorkQueue)
        ensures
            q.wf(),
            q.left() == workload@,
            q.size() == workload@.len(),
            q.counts() == Seq::new(workers as nat, |i: int| 0u64),
    {
        let mut items: Vec<Size> = Vec::new();
        let mut i: usize = 0;
        while i < workload.len()
            invariant
                i <= workload@.len(),
                items@ == workload@.take(i as int),
            decreases workload@.len() - i,
        {
            items.push(workload[i]);
            assert(workload@.take(i + 1) =~= workload@.take(i as int).push(workload@[i as int]));
            i = i + 1;
        }
        assert(items@ =~= workload@);
        let mut counts: Vec<u64> = Vec::new();
        let mut w: usize = 0;
        while w < workers
            invariant
                w <= workers,
                counts@ == Seq::new(w as nat, |i: int| 0u64),
            decreases workers - w,
        {
            counts.push(0);
            assert(counts@ =~= Seq::new((w + 1) as nat, |i: int| 0u64));
            w = w + 1;
        }
        proof {
            total_of_zeros(counts@);
        }
        let q = WorkQueue { items, next: 0, counts };
        assert(q.left() =~= workload@);
        q
    }

    /// Hands the foremost product to a worker and counts it, or says that there is
    /// none.
    pub fn take(&mut self, worker: usize) -> (product: Option<Size>)
        requires
            old(self).wf(),
            worker < old(self).counts().len(),
        ensures
            final(self).wf(),
            final(self).size() == old(self).size(),
            match product {
                Some(p) => {
                    &&& old(self).left().len() > 0
                    &&& p == old(self).left()[0]
                    &&& final(self).left() == old(self).left().skip(1)
                    &&& final(self).counts() == old(self).counts().update(
                        worker as int,
                        (old(self).counts()[worker as int] + 1) as u64,
                    )
                    &&& old(self).counts()[worker as int] < u64::MAX
                },
                None => old(self).left().len() == 0 && *final(self) == *old(self),
            },
    {
        if self.next >= self.items.len() {
            return None;
        }
        let product = self.items[self.next];
        let count: u64 = self.counts[worker];
        proof {
            total_of_update(self.counts@, worker as int, (count + 1) as u64);
        }
        self.counts[worker] = count + 1;
        self.next = self.next + 1;
        assert(self.left() =~= old(self).left().skip(1));
        Some(product)
    }

    /// How many products the workers have taken together. With those that are left
    /// they are all products, so a drained queue has given out each of them once.
    pub fn done(&self) -> (n: u64)
        requires
            self.wf(),
        ensures
            n as nat == total(self.counts()),
            n + self.left().len() == self.size(),
    {
        self.next as u64
    }
}

} // verus!
