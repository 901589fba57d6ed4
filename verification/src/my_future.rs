use vstd::prelude::*;

verus! {

/// The batch size that a server uses where it is given none.
pub const BATCH: usize = 64;

/// What the accept loop does next.
#[derive(Debug, Clone, Copy, PartialEq, Eq, Structural)]
pub enum BatchStep {
    /// Try to accept one more connection.
    Continue,
    /// Hand the batch out.
    Ready,
    /// Nothing was accepted: wait to be woken.
    Pending,
}

/// The next step of the accept loop that has `collected` connections, the last
/// of them just accepted or the listener just found empty. A batch goes out as
/// soon as it is full, or as soon as the listener has no more and the batch is
/// not empty.
pub open spec fn batch_step(capacity: usize, collected: usize, accepted: bool) -> BatchStep {
    if accepted {
        if collected >= capacity {
            BatchStep::Ready
        } else {
            BatchStep::Continue
        }
    } else if collected == 0 {
        BatchStep::Pending
    } else {
        BatchStep::Ready
    }
}

/// One poll of the accept loop over a listener with `queued` connections ready:
/// how many connections the batch holds in the end, and how the poll ends.
pub open spec fn drain(capacity: usize, queued: nat, collected: usize) -> (nat, BatchStep)
    decreases queued,
{
    if queued == 0 || collected == usize::MAX {
        (collected as nat, batch_step(capacity, collected, false))
    } else if batch_step(capacity, (collected + 1) as usize, true) == BatchStep::Ready {
        ((collected + 1) as nat, BatchStep::Ready)
    } else {
        drain(capacity, (queued - 1) as nat, (collected + 1) as usize)
    }
}

/// A poll never ends in the middle of a batch. It waits exactly when nothing is
/// ready, and a batch that goes out is never empty, never larger than what was
/// ready, and never larger than the capacity, but for the one connection that
/// a capacity of zero still lets through.
pub proof fn lemma_drain(capacity: usize, queued: nat, collected: usize)
    requires
        collected == 0 || collected < capacity,
        collected + queued <= usize::MAX,
    ensures
        drain(capacity, queued, collected).1 != BatchStep::Continue,
        drain(capacity, queued, collected).1 == BatchStep::Pending <==> queued == 0 && collected
            == 0,
        collected <= drain(capacity, queued, collected).0 <= collected + queued,
        drain(capacity, queued, collected).1 == BatchStep::Ready ==> 1 <= drain(
            capacity,
            queued,
            collected,
        ).0,
        capacity >= 1 ==> drain(capacity, queued, collected).0 <= capacity,
        capacity == 0 && collected == 0 ==> drain(capacity, queued, collected).0 <= 1,
    decreases queued,
{
    if queued > 0 && collected < usize::MAX && batch_step(capacity, (collected + 1) as usize, true)
        != BatchStep::Ready {
        lemma_drain(capacity, (queued - 1) as nat, (collected + 1) as usize);
    }
}

/// The policy of the batched accept: up to `capacity` connections are taken
/// from the listener on each wake.
pub struct PollStream {
    capacity: usize,
}

impl PollStream {
    /// The size of a full batch.
    pub closed spec fn cap(&self) -> usize {
        self.capacity
    }

    /// A policy with the given batch size.
    pub fn with_capacity(capacity: usize) -> (stream: Self)
        ensures
            stream.cap() == capacity,
    {
        PollStream { capacity }
    }

    /// The size of a full batch.
    pub fn capacity(&self) -> (capacity: usize)
        ensures
            capacity == self.cap(),
    {
        self.capacity
    }

    /// What the accept loop does next, with `collected` connections in the
    /// batch, after it accepted one (`accepted`) or found the listener empty.
    pub fn step(&self, collected: usize, accepted: bool) -> (step: BatchStep)
        ensures
            step == batch_step(self.cap(), collected, accepted),
    {
        if accepted {
            if collected >= self.capacity {
                BatchStep::Ready
            } else {
                BatchStep::Continue
            }
        } else if collected == 0 {
            BatchStep::Pending
        } else {
            BatchStep::Ready
        }
    }
}

/// A task that remembers that it has finished, so that it is never driven
/// again afterwards.
#[derive(Debug, Clone, Copy, PartialEq, Eq, Structural)]
pub struct MyFuture {
    pub done: bool,
}

impl MyFuture {
    /// A task that has not finished.
    pub fn new() -> (task: Self)
        ensures
            !task.done,
    {
        MyFuture { done: false }
    }

    /// Whether the task has finished.
    pub fn is_done(&self) -> (done: bool)
        ensures
            done == self.done,
    {
        self.done
    }

    /// Takes note of what driving the task once gave: `ready` says that it
    /// finished. A task that had finished before stays finished. Returns
    /// whether the task has finished now.
    pub fn on_poll(&mut self, ready: bool) -> (done: bool)
        ensures
            final(self).done == (old(self).done || ready),
            done == final(self).done,
    {
        if !self.done && ready {
            self.done = true;
        }
        self.done
    }
}

/// Whether every task of a set has finished.
pub open spec fn all_done(tasks: Seq<MyFuture>) -> bool {
    forall|i: int| 0 <= i < tasks.len() ==> (#[trigger] tasks[i]).done
}

/// A set of tasks that is scheduled as one unit: each poll drives every member
/// that has not finished once, and the set has finished when all members have.
pub struct MyFutureTasks {
    tasks: Vec<MyFuture>,
}

impl View for MyFutureTasks {
    type V = Seq<MyFuture>;

    closed spec fn view(&self) -> Seq<MyFuture> {
        self.tasks@
    }
}

impl MyFutureTasks {
    /// Joins the tasks.
    pub fn new(tasks: Vec<MyFuture>) -> (set: Self)
        ensures
            set@ == tasks@,
    {
        MyFutureTasks { tasks }
    }

    /// Number of member tasks.
    pub fn len(&self) -> (n: usize)
        ensures
            n == self@.len(),
    {
        self.tasks.len()
    }

    /// Whether member `i` is to be driven in this poll: it is a member and has
    /// not finished.
    pub fn needs_poll(&self, i: usize) -> (needed: bool)
        ensures
            needed == (i < self@.len() && !self@[i as int].done),
    {
        i < self.tasks.len() && !self.tasks[i].is_done()
    }

    /// Takes note of what driving member `i` once gave. Nothing changes for an
    /// index that is no member.
    pub fn on_poll(&mut self, i: usize, ready: bool)
        ensures
            i < old(self)@.len() ==> final(self)@ == old(self)@.update(
                i as int,
                MyFuture { done: old(self)@[i as int].done || ready },
            ),
            i >= old(self)@.len() ==> final(self)@ == old(self)@,
    {
        if i < self.tasks.len() {
            let mut task = self.tasks[i];
            task.on_poll(ready);
            self.tasks.set(i, task);
        }
    }

    /// Whether the set has finished: every member has.
    pub fn is_done(&self) -> (done: bool)
        ensures
            done == all_done(self@),
    {
        let mut i: usize = 0;
        while i < self.tasks.len()
            invariant
                i <= self.tasks@.len(),
                forall|j: int| 0 <= j < i ==> (#[trigger] self.tasks@[j]).done,
            decreases self.tasks@.len() - i,
        {
            if !self.tasks[i].is_done() {
                return false;
            }
            i = i + 1;
        }
        true
    }
}

} // verus!
