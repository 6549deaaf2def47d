//! The fence-gated submission queue.
//!
//! Every submission is tagged with the next value of a counter that only
//! grows, and the GPU fence is signalled to that value behind the submission's
//! commands. A submission is complete once the fence has reached its value.
//! The queue keeps what a submission owns until then, and hands it back to be
//! used again.
//!
//! The queue holds the decisions only. Its caller talks to the GPU: it reads the
//! fence and passes the value in, and does what the answers say.

use crate::barriers::BarrierList;
use std::collections::VecDeque;
use vstd::prelude::*;

verus! {

/// The fence value that a submission was tagged with. A submission with a
/// smaller id completes no later than one with a larger id.
#[derive(Clone, Copy, Debug, Default, PartialEq, Eq, PartialOrd, Ord, Hash)]
pub struct SubmissionId(pub u64);

/// A command buffer that is being recorded, with the allocator that backs it and
/// the tokens of the records that are released once the GPU has consumed it.
pub struct Recording<C, A> {
    pub commands: C,
    pub barriers: BarrierList,
    pub allocator: A,
}

impl<C, A> Recording<C, A> {
    /// A recording into `commands`, backed by `allocator`, with no records to
    /// release yet.
    pub fn new(commands: C, allocator: A) -> (recording: Self)
        ensures
            recording.commands == commands,
            recording.allocator == allocator,
            recording.barriers@ == Seq::<u64>::empty(),
    {
        Self { commands, barriers: BarrierList::new(), allocator }
    }

    /// Adds the record named by `token` to those that are released once the GPU
    /// has consumed the recording.
    pub fn defer(&mut self, token: u64)
        ensures
            final(self).commands == old(self).commands,
            final(self).allocator == old(self).allocator,
            final(self).barriers@ == old(self).barriers@.push(token),
    {
        self.barriers.push(token);
    }

    /// Number of records that wait for the recording to be consumed.
    pub fn deferred(&self) -> (count: usize)
        ensures
            count == self.barriers@.len(),
    {
        self.barriers.len()
    }
}

struct Submission<A, T> {
    data: T,
    barriers: BarrierList,
    allocator: A,
    fence_value: SubmissionId,
}

/// A submission that the GPU may still be working on, as contracts see it.
pub struct SubmissionView<A, T> {
    pub fence_value: u64,
    pub data: T,
    pub allocator: A,
    pub barriers: Seq<u64>,
}

impl<A, T> View for Submission<A, T> {
    type V = SubmissionView<A, T>;

    closed spec fn view(&self) -> SubmissionView<A, T> {
        SubmissionView {
            fence_value: self.fence_value.0,
            data: self.data,
            allocator: self.allocator,
            barriers: self.barriers@,
        }
    }
}

/// The state of a queue as contracts see it.
pub struct QueueView<C, A, T> {
    /// The highest fence value that is known to be reached.
    pub last_value: u64,
    /// The value that the next submission is tagged with.
    pub next_value: u64,
    /// Command buffers that wait to be used again, the one used next last.
    pub commands: Seq<C>,
    /// The submissions that were not handed back yet, oldest first.
    pub submissions: Seq<SubmissionView<A, T>>,
}

/// The larger of two fence values.
pub open spec fn later(a: u64, b: u64) -> u64 {
    if a >= b {
        a
    } else {
        b
    }
}

impl<C, A, T> QueueView<C, A, T> {
    /// Whether the submission tagged `id` is known to be complete.
    pub open spec fn is_complete(self, id: u64) -> bool {
        id <= self.last_value
    }

    /// The queue after the fence was read at `completed`.
    pub open spec fn polled(self, completed: u64) -> Self {
        QueueView { last_value: later(self.last_value, completed), ..self }
    }

    /// The queue after it was asked about `id`: the fence is read only where
    /// `id` is newer than what is known to be reached.
    pub open spec fn asked(self, id: u64, completed: u64) -> Self {
        if id > self.last_value {
            self.polled(completed)
        } else {
            self
        }
    }

    /// The queue after the fence was waited on until it reached `id`.
    pub open spec fn waited(self, id: u64, completed: u64) -> Self {
        QueueView { last_value: later(self.asked(id, completed).last_value, id), ..self }
    }

    /// Number of the first `count` submissions that are not known to be
    /// complete.
    pub open spec fn outstanding_among(self, count: int) -> nat
        decreases count,
    {
        if count <= 0 {
            0
        } else {
            self.outstanding_among(count - 1) + if self.is_complete(
                self.submissions[count - 1].fence_value,
            ) {
                0nat
            } else {
                1nat
            }
        }
    }

    /// Number of submissions that are not known to be complete.
    pub open spec fn outstanding(self) -> nat {
        self.outstanding_among(self.submissions.len() as int)
    }

    /// Whether the oldest submission is handed back when recording begins with
    /// the fence read at `completed`.
    pub open spec fn recycles(self, completed: u64) -> bool {
        self.submissions.len() > 0 && self.submissions[0].fence_value <= self.asked(
            self.submissions[0].fence_value,
            completed,
        ).last_value
    }

    /// The queue after recording began with the fence read at `completed`: the
    /// oldest submission has left it if it was complete, and so has the command
    /// buffer that was put back last, if there was one.
    pub open spec fn recorded(self, completed: u64) -> Self {
        QueueView {
            last_value: if self.submissions.len() > 0 {
                self.asked(self.submissions[0].fence_value, completed).last_value
            } else {
                self.last_value
            },
            next_value: self.next_value,
            commands: if self.commands.len() > 0 {
                self.commands.drop_last()
            } else {
                self.commands
            },
            submissions: if self.recycles(completed) {
                self.submissions.drop_first()
            } else {
                self.submissions
            },
        }
    }

    /// The queue after `recording` was submitted with `data`.
    pub open spec fn submitted(self, recording: Recording<C, A>, data: T) -> Self {
        QueueView {
            last_value: self.last_value,
            next_value: (self.next_value + 1) as u64,
            commands: self.commands.push(recording.commands),
            submissions: self.submissions.push(
                SubmissionView {
                    fence_value: self.next_value,
                    data,
                    allocator: recording.allocator,
                    barriers: recording.barriers@,
                },
            ),
        }
    }

    /// The submissions carry fence values that grow from the oldest to the
    /// newest, all of them below the value of the next submission, which is not
    /// zero.
    pub open spec fn wf(self) -> bool {
        &&& self.next_value >= 1
        &&& forall|i: int|
            0 <= i < self.submissions.len() ==> (#[trigger] self.submissions[i]).fence_value
                < self.next_value
        &&& forall|i: int, j: int|
            0 <= i < j < self.submissions.len() ==> (#[trigger] self.submissions[i]).fence_value < (
            #[trigger] self.submissions[j]).fence_value
    }
}

/// What a submission owned, handed back once the submission is complete.
pub struct Recycled<A, T> {
    /// The command allocator, to be reset and used again.
    pub allocator: A,
    /// The list that held the submission's tokens, emptied.
    pub barriers: BarrierList,
    /// The tokens of the records to release.
    pub released: Vec<u64>,
    /// What the submitter attached.
    pub data: T,
}

/// What recording starts from.
pub struct RecordPlan<C, A, T> {
    /// What the oldest submission owned, where that submission is complete;
    /// else a new command allocator has to be made.
    pub recycled: Option<Recycled<A, T>>,
    /// A command buffer to reset and use again; else a new one has to be made.
    pub commands: Option<C>,
}

/// Whether `recycled` is what the submission `from` owned, ready to be used
/// again.
pub open spec fn hands_back<A, T>(recycled: Recycled<A, T>, from: SubmissionView<A, T>) -> bool {
    &&& recycled.allocator == from.allocator
    &&& recycled.data == from.data
    &&& recycled.released@ == from.barriers
    &&& recycled.barriers@ == Seq::<u64>::empty()
}

/// Whether entry `i` of `released` is what submission `i` of `from` owned, and
/// that submission is complete once the fence has reached `last_value`.
pub open spec fn handed_back_at<A, T>(
    released: Seq<Recycled<A, T>>,
    from: Seq<SubmissionView<A, T>>,
    last_value: u64,
    i: int,
) -> bool {
    hands_back(released[i], from[i]) && from[i].fence_value <= last_value
}

/// The queue of submissions to the GPU.
pub struct Graphics<C, A, T> {
    last_value: u64,
    next_value: u64,
    commands: Vec<C>,
    submissions: VecDeque<Submission<A, T>>,
}

impl<C, A, T> View for Graphics<C, A, T> {
    type V = QueueView<C, A, T>;

    closed spec fn view(&self) -> QueueView<C, A, T> {
        QueueView {
            last_value: self.last_value,
            next_value: self.next_value,
            commands: self.commands@,
            submissions: Seq::new(self.submissions@.len(), |i: int| self.submissions@[i]@),
        }
    }
}

impl<C, A, T> Graphics<C, A, T> {
    /// A queue without submissions. Nothing is known to be reached, and the
    /// first submission is tagged one.
    pub fn new() -> (queue: Self)
        ensures
            queue@.wf(),
            queue@ == (QueueView::<C, A, T> {
                last_value: 0,
                next_value: 1,
                commands: Seq::empty(),
                submissions: Seq::empty(),
            }),
    {
        let queue = Self {
            last_value: 0,
            next_value: 1,
            commands: Vec::new(),
            submissions: VecDeque::new(),
        };
        assert(queue@.submissions =~= Seq::empty());
        queue
    }

    /// The id that the next submission gets, which is the value to signal the
    /// fence to behind it.
    pub fn next_id(&self) -> (id: SubmissionId)
        ensures
            id.0 == self@.next_value,
    {
        SubmissionId(self.next_value)
    }

    /// The highest fence value that is known to be reached.
    pub fn last_completed(&self) -> (id: SubmissionId)
        ensures
            id.0 == self@.last_value,
    {
        SubmissionId(self.last_value)
    }

    /// Number of submissions that were not handed back yet.
    pub fn pending(&self) -> (count: usize)
        ensures
            count == self@.submissions.len(),
    {
        self.submissions.len()
    }

    /// Number of submissions that are not known to be complete.
    pub fn outstanding(&self) -> (count: usize)
        ensures
            count == self@.outstanding(),
    {
        let mut count: usize = 0;
        let mut i: usize = 0;
        while i < self.submissions.len()
            invariant
                i <= self.submissions@.len(),
                count <= i,
                count == self@.outstanding_among(i as int),
            decreases self.submissions@.len() - i,
        {
            assert(self@.submissions[i as int] == self.submissions@[i as int]@);
            if self.submissions[i].fence_value.0 > self.last_value {
                count = count + 1;
            }
            i = i + 1;
        }
        count
    }

    /// Takes note of the fence value `completed` and returns the highest value
    /// that is known to be reached.
    pub fn poll_fence(&mut self, completed: u64) -> (id: SubmissionId)
        ensures
            final(self)@ == old(self)@.polled(completed),
            id.0 == final(self)@.last_value,
    {
        if completed > self.last_value {
            self.last_value = completed;
        }
        assert(self@.submissions =~= old(self)@.submissions);
        SubmissionId(self.last_value)
    }

    /// Whether the fence has to be read to tell if `fence_value` is complete:
    /// only where it is newer than what is known to be reached.
    pub fn needs_poll(&self, fence_value: SubmissionId) -> (needed: bool)
        ensures
            needed == (fence_value.0 > self@.last_value),
    {
        fence_value.0 > self.last_value
    }

    /// Whether the submission tagged `fence_value` is complete. `completed` is
    /// the value read from the fence; it is looked at only where `needs_poll`
    /// says so.
    pub fn is_complete(&mut self, fence_value: SubmissionId, completed: u64) -> (done: bool)
        ensures
            final(self)@ == old(self)@.asked(fence_value.0, completed),
            done == final(self)@.is_complete(fence_value.0),
    {
        if fence_value.0 > self.last_value {
            self.poll_fence(completed);
        }
        fence_value.0 <= self.last_value
    }

    /// Makes sure that the submission tagged `fence_value` is complete. Where it
    /// is not, the answer is `true`: the caller blocks until the fence has
    /// reached the value, which the queue takes as done.
    pub fn wait_until(&mut self, fence_value: SubmissionId, completed: u64) -> (block: bool)
        ensures
            final(self)@ == old(self)@.waited(fence_value.0, completed),
            block == !old(self)@.asked(fence_value.0, completed).is_complete(fence_value.0),
            final(self)@.is_complete(fence_value.0),
    {
        if !self.is_complete(fence_value, completed) {
            self.last_value = fence_value.0;
            assert(self@.submissions =~= old(self)@.submissions);
            true
        } else {
            false
        }
    }

    /// Waits for everything that was submitted: the caller signals the fence to
    /// the id that is returned and, where the answer says so, blocks until the
    /// fence has reached it.
    pub fn flush(&mut self, completed: u64) -> (r: (SubmissionId, bool))
        requires
            old(self)@.wf(),
            old(self)@.next_value < u64::MAX,
        ensures
            final(self)@.wf(),
            r.0.0 == old(self)@.next_value,
            r.1 == !old(self)@.asked(r.0.0, completed).is_complete(r.0.0),
            final(self)@ == (QueueView {
                next_value: (old(self)@.next_value + 1) as u64,
                ..old(self)@.waited(old(self)@.next_value, completed)
            }),
            final(self)@.outstanding() == 0,
    {
        let id = SubmissionId(self.next_value);
        let block = self.wait_until(id, completed);
        self.next_value = self.next_value + 1;
        proof {
            assert(self@.submissions =~= old(self)@.submissions);
            lemma_all_complete(self@, self@.submissions.len() as int);
        }
        (id, block)
    }

    /// Starts a recording, with the fence read at `completed`.
    ///
    /// Where the oldest submission is complete, what it owned is handed back:
    /// its allocator and its list, to record with, the tokens of the records to
    /// release, and what its submitter attached. The fence value is looked at
    /// only where that submission is newer than what is known to be reached.
    /// A command buffer that was put back is handed out with it.
    pub fn record(&mut self, completed: u64) -> (plan: RecordPlan<C, A, T>)
        requires
            old(self)@.wf(),
        ensures
            final(self)@.wf(),
            final(self)@ == old(self)@.recorded(completed),
            match plan.recycled {
                Some(recycled) => old(self)@.recycles(completed) && hands_back(
                    recycled,
                    old(self)@.submissions[0],
                ),
                None => !old(self)@.recycles(completed),
            },
            plan.commands == (if old(self)@.commands.len() > 0 {
                Some(old(self)@.commands.last())
            } else {
                None
            }),
    {
        let ghost before = self@;
        let mut recycled: Option<Recycled<A, T>> = None;
        if self.submissions.len() > 0 {
            let oldest = self.submissions[0].fence_value;
            assert(oldest.0 == before.submissions[0].fence_value);
            if self.is_complete(oldest, completed) {
                match self.submissions.pop_front() {
                    Some(submission) => {
                        let Submission { data, mut barriers, allocator, fence_value: _ } =
                            submission;
                        let released = barriers.drain();
                        recycled = Some(Recycled { allocator, barriers, released, data });
                        assert(self@.submissions =~= before.submissions.drop_first());
                    },
                    None => {},
                }
            } else {
                assert(self@.submissions =~= before.submissions);
            }
        }
        let ghost middle = self@;
        let commands = self.commands.pop();
        assert(self@.submissions =~= middle.submissions);
        RecordPlan { recycled, commands }
    }

    /// Hands back what the complete submissions owned, oldest first, with the
    /// fence read at `completed`. The fence value is looked at only where a
    /// submission is newer than what is known to be reached.
    pub fn release_completed_submissions(&mut self, completed: u64) -> (released: Vec<
        Recycled<A, T>,
    >)
        requires
            old(self)@.wf(),
        ensures
            final(self)@.wf(),
            final(self)@ == (QueueView {
                last_value: final(self)@.last_value,
                submissions: old(self)@.submissions.subrange(
                    released@.len() as int,
                    old(self)@.submissions.len() as int,
                ),
                ..old(self)@
            }),
            final(self)@.last_value == (if exists|i: int|
                0 <= i < old(self)@.submissions.len() && (
                #[trigger] old(self)@.submissions[i]).fence_value > old(self)@.last_value {
                later(old(self)@.last_value, completed)
            } else {
                old(self)@.last_value
            }),
            released@.len() <= old(self)@.submissions.len(),
            forall|i: int|
                0 <= i < released@.len() ==> #[trigger] handed_back_at(
                    released@,
                    old(self)@.submissions,
                    final(self)@.last_value,
                    i,
                ),
            released@.len() < old(self)@.submissions.len() ==> old(self)@.submissions[released@.len() as int].fence_value
                > final(self)@.last_value,
            final(self)@.outstanding() == final(self)@.submissions.len(),
    {
        let ghost before = self@;
        let ghost mut polled: bool = false;
        let mut released: Vec<Recycled<A, T>> = Vec::new();
        let mut more: bool = self.submissions.len() > 0;
        while more
            invariant
                self@.wf(),
                before.wf(),
                released@.len() <= before.submissions.len(),
                self@.submissions == before.submissions.subrange(
                    released@.len() as int,
                    before.submissions.len() as int,
                ),
                self@.next_value == before.next_value,
                self@.commands == before.commands,
                self@.last_value == (if polled {
                    later(before.last_value, completed)
                } else {
                    before.last_value
                }),
                polled ==> exists|i: int|
                    0 <= i < before.submissions.len() && (
                    #[trigger] before.submissions[i]).fence_value > before.last_value,
                forall|i: int|
                    0 <= i < released@.len() ==> #[trigger] handed_back_at(
                        released@,
                        before.submissions,
                        self@.last_value,
                        i,
                    ),
                more ==> self@.submissions.len() > 0,
                !more ==> (released@.len() < before.submissions.len() ==> polled
                    && before.submissions[released@.len() as int].fence_value > self@.last_value),
            decreases
                    self@.submissions.len() + if more {
                        1nat
                    } else {
                        0nat
                    },
        {
            let ghost now = self@;
            let ghost done = released@;
            let oldest = self.submissions[0].fence_value;
            assert(oldest.0 == now.submissions[0].fence_value);
            assert(now.submissions[0] == before.submissions[done.len() as int]);
            if self.is_complete(oldest, completed) {
                proof {
                    if oldest.0 > now.last_value {
                        polled = true;
                    }
                }
                let ghost mid = self@;
                let ghost inner = self.submissions@;
                assert forall|i: int| 0 <= i < inner.len() implies (#[trigger] inner[i])@
                    == before.submissions[done.len() + i] by {
                    assert(mid.submissions[i] == inner[i]@);
                    assert(now.submissions[i] == before.submissions[done.len() + i]);
                }
                match self.submissions.pop_front() {
                    Some(submission) => {
                        assert(submission == inner[0]);
                        let Submission { data, mut barriers, allocator, fence_value: _ } =
                            submission;
                        let tokens = barriers.drain();
                        let recycled = Recycled { allocator, barriers, released: tokens, data };
                        assert(hands_back(recycled, before.submissions[done.len() as int]));
                        released.push(recycled);
                        assert forall|i: int| 0 <= i < self@.submissions.len() implies (
                        #[trigger] self@.submissions[i]) == before.submissions.subrange(
                            released@.len() as int,
                            before.submissions.len() as int,
                        )[i] by {
                            assert(self.submissions@[i] == inner[i + 1]);
                        }
                        assert(self@.submissions =~= before.submissions.subrange(
                            released@.len() as int,
                            before.submissions.len() as int,
                        ));
                        assert forall|i: int|
                            0 <= i < released@.len() implies #[trigger] handed_back_at(
                            released@,
                            before.submissions,
                            self@.last_value,
                            i,
                        ) by {
                            if i < done.len() {
                                assert(released@[i] == done[i]);
                                assert(handed_back_at(done, before.submissions, now.last_value, i));
                                assert(now.last_value <= self@.last_value);
                            }
                        }
                    },
                    None => {
                        assert(false);
                    },
                }
                more = self.submissions.len() > 0;
            } else {
                proof {
                    polled = true;
                }
                assert(self@.submissions =~= now.submissions);
                assert forall|i: int| 0 <= i < released@.len() implies #[trigger] handed_back_at(
                    released@,
                    before.submissions,
                    self@.last_value,
                    i,
                ) by {
                    assert(handed_back_at(done, before.submissions, now.last_value, i));
                    assert(now.last_value <= self@.last_value);
                }
                more = false;
            }
        }
        proof {
            lemma_none_complete(self@, self@.submissions.len() as int);
            if !polled {
                assert(released@.len() == before.submissions.len());
                assert forall|i: int| 0 <= i < before.submissions.len() implies (
                #[trigger] before.submissions[i]).fence_value <= before.last_value by {
                    assert(handed_back_at(released@, before.submissions, self@.last_value, i));
                }
            }
        }
        released
    }

    /// Takes over a recording whose commands were handed to the GPU, with
    /// `value` attached, and returns the id that it is tagged with: the value
    /// that the fence is signalled to behind the commands.
    ///
    /// The command buffer is put back to be used again; the allocator and the
    /// deferred records stay with the submission until it is complete.
    pub fn submit(&mut self, recording: Recording<C, A>, value: T) -> (id: SubmissionId)
        requires
            old(self)@.wf(),
            old(self)@.next_value < u64::MAX,
        ensures
            final(self)@.wf(),
            id.0 == old(self)@.next_value,
            final(self)@ == old(self)@.submitted(recording, value),
    {
        let next_value: u64 = self.next_value;
        self.next_value = next_value + 1;
        let submission_id = SubmissionId(next_value);
        let Recording { commands, barriers, allocator } = recording;
        self.commands.push(commands);
        self.submissions.push_back(
            Submission { data: value, barriers, allocator, fence_value: submission_id },
        );
        assert(self@.submissions =~= old(self)@.submitted(recording, value).submissions);
        submission_id
    }
}

/// Submissions complete in the order of their ids: once a submission is known
/// to be complete, so is every submission with a smaller id, and it stays so
/// whatever is read from the fence later.
pub proof fn lemma_completion_follows_ids<C, A, T>(
    queue: QueueView<C, A, T>,
    earlier: u64,
    later_id: u64,
    completed: u64,
)
    requires
        earlier <= later_id,
        queue.is_complete(later_id),
    ensures
        queue.is_complete(earlier),
        queue.polled(completed).is_complete(later_id),
        queue.asked(earlier, completed) == queue,
{
}

/// Once the fence is known to have reached the value of the newest submission,
/// no submission is outstanding.
pub proof fn lemma_all_complete<C, A, T>(queue: QueueView<C, A, T>, count: int)
    requires
        0 <= count <= queue.submissions.len(),
        forall|i: int|
            0 <= i < queue.submissions.len() ==> (#[trigger] queue.submissions[i]).fence_value
                <= queue.last_value,
    ensures
        queue.outstanding_among(count) == 0,
    decreases count,
{
    if count > 0 {
        lemma_all_complete(queue, count - 1);
    }
}

/// Where the oldest submission is not known to be complete, none is.
pub proof fn lemma_none_complete<C, A, T>(queue: QueueView<C, A, T>, count: int)
    requires
        queue.wf(),
        0 <= count <= queue.submissions.len(),
        queue.submissions.len() > 0 ==> queue.submissions[0].fence_value > queue.last_value,
    ensures
        queue.outstanding_among(count) == count,
    decreases count,
{
    if count > 0 {
        lemma_none_complete(queue, count - 1);
        if count > 1 {
            assert(queue.submissions[0].fence_value < queue.submissions[count - 1].fence_value);
        }
    }
}

} // verus!
