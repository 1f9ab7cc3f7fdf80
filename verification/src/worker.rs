//! The pool of executor workers.
use vstd::prelude::*;

verus! {

/// An executor: its number and the handle of its thread. The pool does
/// nothing with a handle but keep it and hand it back to be joined.
#[derive(Debug)]
pub struct Worker<H> {
    pub id: usize,
    pub thread: Option<H>,
}

/// The workers that the server owns, in the order in which they came.
pub struct WorkerPool<H> {
    workers: Vec<Worker<H>>,
}

impl<H> WorkerPool<H> {
    /// The workers, in the order in which they came.
    pub closed spec fn view(&self) -> Seq<Worker<H>> {
        self.workers@
    }

    /// A pool without workers.
    pub fn new() -> (r: Self)
        ensures
            r@ == Seq::<Worker<H>>::empty(),
    {
        WorkerPool { workers: Vec::new() }
    }

    /// The number of workers.
    pub fn len(&self) -> (n: usize)
        ensures
            n == self@.len(),
    {
        self.workers.len()
    }

    /// Takes `new_workers` into the pool, behind those that are there.
    pub fn add_workers(&mut self, new_workers: Vec<Worker<H>>)
        ensures
            final(self)@ == old(self)@ + new_workers@,
    {
        let mut new_workers = new_workers;
        self.workers.append(&mut new_workers);
    }

    /// Gives up every worker, in the order in which they came.
    pub fn release(&mut self) -> (workers: Vec<Worker<H>>)
        ensures
            workers@ == old(self)@,
            final(self)@ == Seq::<Worker<H>>::empty(),
    {
        let mut leaving: Vec<Worker<H>> = Vec::new();
        std::mem::swap(&mut self.workers, &mut leaving);
        leaving
    }
}

} // verus!
