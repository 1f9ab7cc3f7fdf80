//! What a shutdown consists of: the steps that the caller has to carry out,
//! in the order in which it has to carry them out.
use vstd::prelude::*;
use crate::database_state::DatabaseSnapshot;
use crate::worker::{Worker, WorkerPool};

verus! {

/// One step of a shutdown. The coordinator decides the steps; to carry them
/// out takes a channel, threads and a disk, which the caller has.
#[derive(Debug)]
pub enum ShutdownStep<H> {
    /// Send one terminate message through the task channel.
    SendTerminate,
    /// Wait for the thread of the worker `id` to end.
    JoinWorker { id: usize, thread: H },
    /// Make sure that the directory of the database files exists.
    EnsureDatabaseDir,
    /// Write `snapshot` to the file that has the database's name, in place of
    /// what the file held.
    PersistDatabase { snapshot: DatabaseSnapshot },
    /// Shut the storage subsystem down.
    ShutdownStorage,
}

/// A step of a shutdown, with the text in it as a sequence of characters.
pub enum StepModel<H> {
    SendTerminate,
    JoinWorker { id: usize, thread: H },
    EnsureDatabaseDir,
    PersistDatabase { name: Seq<char> },
    ShutdownStorage,
}

impl<H> ShutdownStep<H> {
    /// The step with its text as a sequence of characters.
    pub open spec fn view(&self) -> StepModel<H> {
        match *self {
            ShutdownStep::SendTerminate => StepModel::SendTerminate,
            ShutdownStep::JoinWorker { id, thread } => StepModel::JoinWorker { id, thread },
            ShutdownStep::EnsureDatabaseDir => StepModel::EnsureDatabaseDir,
            ShutdownStep::PersistDatabase { snapshot } => StepModel::PersistDatabase {
                name: snapshot.name@,
            },
            ShutdownStep::ShutdownStorage => StepModel::ShutdownStorage,
        }
    }
}

/// The steps in `steps`, each as its model.
pub open spec fn step_models<H>(steps: Seq<ShutdownStep<H>>) -> Seq<StepModel<H>> {
    steps.map_values(|s: ShutdownStep<H>| s@)
}

/// `n` terminate messages.
pub open spec fn terminate_steps<H>(n: nat) -> Seq<StepModel<H>> {
    Seq::new(n, |i: int| StepModel::SendTerminate)
}

/// A join for each of `workers` that has a thread, in their order.
pub open spec fn join_steps<H>(workers: Seq<Worker<H>>) -> Seq<StepModel<H>>
    decreases workers.len(),
{
    if workers.len() == 0 {
        Seq::empty()
    } else {
        let before = join_steps(workers.drop_last());
        match workers.last().thread {
            Some(thread) => before.push(StepModel::JoinWorker { id: workers.last().id, thread }),
            None => before,
        }
    }
}

/// How a pool of `workers` is stopped: a terminate message for each worker,
/// and only then the joins.
pub open spec fn pool_steps<H>(workers: Seq<Worker<H>>) -> Seq<StepModel<H>> {
    terminate_steps(workers.len()) + join_steps(workers)
}

/// A write for each of `names`, in their order.
pub open spec fn persist_steps<H>(names: Seq<Seq<char>>) -> Seq<StepModel<H>> {
    Seq::new(names.len(), |i: int| StepModel::PersistDatabase { name: names[i] })
}

/// The whole shutdown of a server with `workers` whose databases are written
/// in the order `names`: the workers are stopped, then the databases are
/// written, then the storage is shut down.
pub open spec fn shutdown_steps<H>(workers: Seq<Worker<H>>, names: Seq<Seq<char>>) -> Seq<
    StepModel<H>,
> {
    pool_steps(workers) + seq![StepModel::EnsureDatabaseDir] + persist_steps(names)
        + seq![StepModel::ShutdownStorage]
}

impl<H> WorkerPool<H> {
    /// Stops the pool: says to send one terminate message for each worker
    /// and then to join each worker that has a thread, and gives the workers
    /// up. The steps are put behind those in `steps`.
    pub fn shutdown(&mut self, steps: &mut Vec<ShutdownStep<H>>)
        ensures
            final(self)@ == Seq::<Worker<H>>::empty(),
            step_models(final(steps)@) == step_models(old(steps)@) + pool_steps(old(self)@),
    {
        let ghost before = step_models(steps@);
        let ghost owned = self@;
        let leaving = self.release();
        let count = leaving.len();
        let mut sent: usize = 0;
        while sent < count
            invariant
                sent <= count,
                count == owned.len(),
                step_models(steps@) == before + terminate_steps::<H>(sent as nat),
            decreases count - sent,
        {
            let ghost so_far = steps@;
            steps.push(ShutdownStep::SendTerminate);
            sent = sent + 1;
            proof {
                let sending = StepModel::<H>::SendTerminate;
                assert(step_models(steps@) =~= step_models(so_far).push(sending));
                assert(terminate_steps::<H>(sent as nat) =~= terminate_steps::<H>(
                    (sent - 1) as nat,
                ).push(sending));
                assert(step_models(steps@) =~= before + terminate_steps::<H>(sent as nat));
            }
        }
        for worker in it: leaving
            invariant
                it.seq() == owned,
                step_models(steps@) == before + terminate_steps::<H>(owned.len()) + join_steps(
                    owned.take(it.index() as int),
                ),
        {
            let ghost k = it.index() as int;
            assert(owned.take(k + 1).drop_last() == owned.take(k));
            assert(owned.take(k + 1).last() == worker);
            let ghost so_far = steps@;
            let ghost joined = join_steps(owned.take(k));
            let Worker { id, thread } = worker;
            match thread {
                Some(thread) => {
                    steps.push(ShutdownStep::JoinWorker { id, thread });
                    proof {
                        let joining = StepModel::JoinWorker { id, thread };
                        assert(step_models(steps@) =~= step_models(so_far).push(joining));
                        assert(join_steps(owned.take(k + 1)) == joined.push(joining));
                        assert(step_models(steps@) =~= before + terminate_steps::<H>(owned.len())
                            + joined.push(joining));
                    }
                },
                None => {
                    assert(join_steps(owned.take(k + 1)) == joined);
                },
            }
        }
        assert(owned.take(owned.len() as int) == owned);
        assert(before + terminate_steps::<H>(owned.len()) + join_steps(owned) == before
            + pool_steps(owned));
    }
}

/// How many of `steps` send a terminate message.
pub open spec fn terminate_count<H>(steps: Seq<StepModel<H>>) -> nat
    decreases steps.len(),
{
    if steps.len() == 0 {
        0
    } else {
        let earlier = terminate_count(steps.drop_last());
        if steps.last() is SendTerminate {
            earlier + 1
        } else {
            earlier
        }
    }
}

/// The workers once each of `batches` has been added, in order.
pub open spec fn added_all<H>(workers: Seq<Worker<H>>, batches: Seq<Seq<Worker<H>>>) -> Seq<
    Worker<H>,
>
    decreases batches.len(),
{
    if batches.len() == 0 {
        workers
    } else {
        added_all(workers, batches.drop_last()) + batches.last()
    }
}

/// How many workers `batches` hold together.
pub open spec fn total_workers<H>(batches: Seq<Seq<Worker<H>>>) -> nat
    decreases batches.len(),
{
    if batches.len() == 0 {
        0
    } else {
        total_workers(batches.drop_last()) + batches.last().len()
    }
}

/// The terminate messages of two runs of steps add up.
proof fn lemma_count_concat<H>(a: Seq<StepModel<H>>, b: Seq<StepModel<H>>)
    ensures
        terminate_count(a + b) == terminate_count(a) + terminate_count(b),
    decreases b.len(),
{
    if b.len() == 0 {
        assert(a + b =~= a);
    } else {
        lemma_count_concat(a, b.drop_last());
        assert((a + b).drop_last() =~= a + b.drop_last());
    }
}

/// `n` terminate steps hold `n` terminate messages.
proof fn lemma_count_terminates<H>(n: nat)
    ensures
        terminate_count(terminate_steps::<H>(n)) == n,
    decreases n,
{
    if n > 0 {
        lemma_count_terminates::<H>((n - 1) as nat);
        assert(terminate_steps::<H>(n).drop_last() =~= terminate_steps::<H>((n - 1) as nat));
    }
}

/// The joins are joins, and no more of them than there are workers.
proof fn lemma_joins<H>(workers: Seq<Worker<H>>)
    ensures
        join_steps(workers).len() <= workers.len(),
        forall|k: int| 0 <= k < join_steps(workers).len() ==> #[trigger] join_steps(workers)[k]
            is JoinWorker,
        terminate_count(join_steps(workers)) == 0,
    decreases workers.len(),
{
    if workers.len() > 0 {
        lemma_joins(workers.drop_last());
        let before = join_steps(workers.drop_last());
        if workers.last().thread is Some {
            assert(join_steps(workers).drop_last() =~= before);
        }
    }
}

/// The writes hold no terminate message.
proof fn lemma_count_persists<H>(names: Seq<Seq<char>>)
    ensures
        terminate_count(persist_steps::<H>(names)) == 0,
    decreases names.len(),
{
    if names.len() > 0 {
        lemma_count_persists::<H>(names.drop_last());
        assert(persist_steps::<H>(names).drop_last() =~= persist_steps::<H>(names.drop_last()));
    }
}

/// A shutdown sends exactly as many terminate messages as the pool has
/// workers.
pub proof fn law_one_terminate_per_worker<H>(workers: Seq<Worker<H>>, names: Seq<Seq<char>>)
    ensures
        terminate_count(shutdown_steps(workers, names)) == workers.len(),
{
    let ensure = seq![StepModel::<H>::EnsureDatabaseDir];
    let stop = seq![StepModel::<H>::ShutdownStorage];
    lemma_count_terminates::<H>(workers.len());
    lemma_joins(workers);
    lemma_count_persists::<H>(names);
    lemma_count_concat(terminate_steps::<H>(workers.len()), join_steps(workers));
    lemma_count_concat(pool_steps(workers), ensure);
    lemma_count_concat(pool_steps(workers) + ensure, persist_steps::<H>(names));
    lemma_count_concat(pool_steps(workers) + ensure + persist_steps::<H>(names), stop);
    assert(terminate_count(ensure) == 0 && terminate_count(stop) == 0) by {
        reveal_with_fuel(terminate_count, 2);
    }
}

/// The workers that a shutdown terminates are those that were added since
/// the shutdown before it: starting from an empty pool, after any number of
/// batches of workers, a shutdown sends one terminate message for each
/// worker in the batches.
pub proof fn law_terminates_count_workers_added<H>(
    batches: Seq<Seq<Worker<H>>>,
    names: Seq<Seq<char>>,
)
    ensures
        added_all(Seq::<Worker<H>>::empty(), batches).len() == total_workers(batches),
        terminate_count(shutdown_steps(added_all(Seq::<Worker<H>>::empty(), batches), names))
            == total_workers(batches),
    decreases batches.len(),
{
    if batches.len() > 0 {
        law_terminates_count_workers_added(batches.drop_last(), names);
    }
    law_one_terminate_per_worker(added_all(Seq::<Worker<H>>::empty(), batches), names);
}

/// A shutdown joins every thread: each worker that has a thread has its
/// join among the steps, after the last terminate message.
pub proof fn law_every_thread_is_joined<H>(workers: Seq<Worker<H>>, names: Seq<Seq<char>>, i: int)
    requires
        0 <= i < workers.len(),
        workers[i].thread is Some,
    ensures
        exists|k: int|
            workers.len() <= k < pool_steps(workers).len() && #[trigger] shutdown_steps(
                workers,
                names,
            )[k] == (StepModel::JoinWorker { id: workers[i].id, thread: workers[i].thread->0 }),
    decreases workers.len(),
{
    let n = workers.len() as int;
    let wanted = StepModel::JoinWorker { id: workers[i].id, thread: workers[i].thread->0 };
    let earlier = workers.drop_last();
    let at: int;
    if i == n - 1 {
        at = join_steps(earlier).len() as int;
    } else {
        law_every_thread_is_joined(earlier, names, i);
        let k = choose|k: int|
            earlier.len() <= k < pool_steps(earlier).len() && #[trigger] shutdown_steps(
                earlier,
                names,
            )[k] == wanted;
        at = k - earlier.len();
        assert(shutdown_steps(earlier, names)[k] == join_steps(earlier)[at]);
    }
    lemma_joins(earlier);
    assert(0 <= at < join_steps(workers).len() && join_steps(workers)[at] == wanted);
    assert(shutdown_steps(workers, names)[n + at] == join_steps(workers)[at]);
}

/// The order of a shutdown: first every terminate message, then every
/// join, then the directory and the writes, one for each name, and the
/// storage last.
pub proof fn law_shutdown_order<H>(workers: Seq<Worker<H>>, names: Seq<Seq<char>>)
    ensures
        ({
            let steps = shutdown_steps(workers, names);
            let joined = pool_steps(workers).len() as int;
            &&& workers.len() <= joined <= 2 * workers.len()
            &&& steps.len() == joined + names.len() + 2
            &&& forall|k: int| 0 <= k < workers.len() ==> #[trigger] steps[k] is SendTerminate
            &&& forall|k: int| workers.len() <= k < joined ==> #[trigger] steps[k] is JoinWorker
            &&& steps[joined] is EnsureDatabaseDir
            &&& forall|j: int|
                0 <= j < names.len() ==> #[trigger] steps[joined + 1 + j]
                    == (StepModel::<H>::PersistDatabase { name: names[j] })
            &&& steps.last() is ShutdownStorage
        }),
{
    lemma_joins(workers);
    let steps = shutdown_steps(workers, names);
    let joined = pool_steps(workers).len() as int;
    assert forall|k: int| workers.len() <= k < joined implies #[trigger] steps[k] is JoinWorker by {
        assert(steps[k] == join_steps(workers)[k - workers.len()]);
    }
    assert forall|j: int| 0 <= j < names.len() implies #[trigger] steps[joined + 1 + j] == (
    StepModel::<H>::PersistDatabase { name: names[j] }) by {
        assert(steps[joined + 1 + j] == persist_steps::<H>(names)[j]);
    }
}

} // verus!
