//! A queue of tasks that hands out the one due first.
use vstd::prelude::*;

verus! {

/// A task due at `timestamp`, in milliseconds on a monotonic clock.
#[derive(Debug)]
pub struct MinInstantEntry<T> {
    pub timestamp: u64,
    pub task: T,
}

impl<T> MinInstantEntry<T> {
    /// The task itself.
    pub fn task(&self) -> (r: &T)
        ensures
            *r == self.task,
    {
        &self.task
    }
}

/// Tasks by due time; the earliest comes first.
#[derive(Debug)]
pub struct MinInstantHeap<T> {
    pub entries: Vec<MinInstantEntry<T>>,
}

impl<T> MinInstantHeap<T> {
    pub fn new() -> (r: Self)
        ensures
            r.entries@.len() == 0,
    {
        MinInstantHeap { entries: Vec::new() }
    }

    pub fn len(&self) -> (r: usize)
        ensures
            r == self.entries@.len(),
    {
        self.entries.len()
    }

    pub fn push(&mut self, entry: MinInstantEntry<T>)
        ensures
            final(self).entries@ == old(self).entries@.push(entry),
    {
        self.entries.push(entry);
    }

    /// The entry due first, if any.
    pub fn peek(&self) -> (r: Option<&MinInstantEntry<T>>)
        ensures
            r is None <==> self.entries@.len() == 0,
            r is Some ==> self.entries@.contains(*r->0) && forall|i: int|
                0 <= i < self.entries@.len() ==> r->0.timestamp <= #[trigger] self.entries@[i].timestamp,
    {
        if self.entries.len() == 0 {
            return None;
        }
        let mut best: usize = 0;
        let mut i: usize = 1;
        while i < self.entries.len()
            invariant
                1 <= i <= self.entries@.len(),
                best < i,
                forall|j: int| 0 <= j < i ==> self.entries@[best as int].timestamp <= #[trigger] self.entries@[j].timestamp,
            decreases self.entries@.len() - i,
        {
            if self.entries[i].timestamp < self.entries[best].timestamp {
                best = i;
            }
            i = i + 1;
        }
        Some(&self.entries[best])
    }
}

} // verus!
