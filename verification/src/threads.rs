use vstd::prelude::*;

use crate::decorators::repeated;

verus! {

/// The index of a thread's indent in the indent storage.
pub type ThreadIndentId = usize;

/// The first vacant index of the storage, or its length if all are taken.
pub open spec fn first_vacant(taken: Seq<bool>) -> int
    decreases taken.len(),
{
    if taken.len() == 0 {
        0
    } else if !taken[0] {
        0
    } else {
        1 + first_vacant(taken.drop_first())
    }
}

/// The first vacant index is vacant (or one past the end), and every index below it is taken.
pub proof fn lemma_first_vacant(taken: Seq<bool>)
    ensures
        0 <= first_vacant(taken) <= taken.len(),
        first_vacant(taken) < taken.len() ==> !taken[first_vacant(taken)],
        forall|j: int| 0 <= j < first_vacant(taken) ==> #[trigger] taken[j],
    decreases taken.len(),
{
    if taken.len() > 0 && taken[0] {
        lemma_first_vacant(taken.drop_first());
        assert forall|j: int| 0 <= j < first_vacant(taken) implies #[trigger] taken[j] by {
            if j > 0 {
                assert(taken[j] == taken.drop_first()[j - 1]);
            }
        }
    }
}

/// The thread indents: to separate the logs of different threads, each thread's log is
/// indented by a multiple of the thread indent step, i.e. stands in a "column" of its own.
/// A thread checks out the lowest vacant index (and the indent made of that many steps) when
/// it starts logging, and checks it in when it ends, so that a later thread can reuse it.
pub struct ThreadIndents {
    /// Which indices are taken by a thread.
    indents_taken: Vec<bool>,
    /// The thread indent step, a string of spaces.
    thread_indent_step: String,
}

impl ThreadIndents {
    /// Which indices are taken.
    pub closed spec fn taken(self) -> Seq<bool> {
        self.indents_taken@
    }

    /// The thread indent step.
    pub closed spec fn step(self) -> Seq<char> {
        self.thread_indent_step@
    }

    /// Creates the storage with four vacant indices and the given thread indent step
    /// (50 spaces if `None`).
    pub fn new(thread_indent_step: Option<String>) -> (t: Self)
        ensures
            t.taken() == seq![false, false, false, false],
            t.step() == match thread_indent_step {
                Some(s) => s@,
                None => "                                                  "@,
            },
    {
        let mut indents_taken = Vec::new();
        indents_taken.push(false);
        indents_taken.push(false);
        indents_taken.push(false);
        indents_taken.push(false);
        let thread_indent_step = match thread_indent_step {
            Some(step) => step,
            None => String::from_str("                                                  "),
        };
        let t = Self { indents_taken, thread_indent_step };
        assert(t.taken() =~= seq![false, false, false, false]);
        t
    }

    /// Returns the thread indent for the index: the step repeated `index` times.
    pub fn idx_to_string(&self, index: usize) -> (s: String)
        ensures
            s@ == repeated(self.step(), index as nat),
    {
        let mut ret_val = String::new();
        let mut i: usize = 0;
        while i < index
            invariant
                i <= index,
                ret_val@ == repeated(self.step(), i as nat),
            decreases index - i,
        {
            ret_val.append(self.thread_indent_step.as_str());
            i = i + 1;
            proof {
                assert(repeated(self.step(), i as nat) == repeated(self.step(), (i - 1) as nat) + self.step());
            }
        }
        ret_val
    }

    /// Takes the lowest vacant index (a new one if all are taken) and returns it with its
    /// thread indent.
    pub fn check_out(&mut self) -> (r: (ThreadIndentId, String))
        ensures
            r.0 == first_vacant(old(self).taken()),
            r.1@ == repeated(old(self).step(), r.0 as nat),
            final(self).step() == old(self).step(),
            final(self).taken() == if r.0 < old(self).taken().len() {
                old(self).taken().update(r.0 as int, true)
            } else {
                old(self).taken().push(true)
            },
    {
        proof { lemma_first_vacant(self.indents_taken@); }
        let mut index: usize = 0;
        while index < self.indents_taken.len()
            invariant
                index <= self.indents_taken@.len(),
                self.indents_taken@ == old(self).indents_taken@,
                self.thread_indent_step == old(self).thread_indent_step,
                forall|j: int| 0 <= j < index ==> #[trigger] self.indents_taken@[j],
                0 <= first_vacant(old(self).taken()) <= old(self).taken().len(),
                first_vacant(old(self).taken()) < old(self).taken().len() ==> !old(self).taken()[first_vacant(old(self).taken())],
                forall|j: int| 0 <= j < first_vacant(old(self).taken()) ==> #[trigger] old(self).taken()[j],
            decreases self.indents_taken@.len() - index,
        {
            if !self.indents_taken[index] {
                self.indents_taken.set(index, true);
                return (index, self.idx_to_string(index));
            }
            index = index + 1;
        }
        self.indents_taken.push(true);
        let index = self.indents_taken.len() - 1;
        (index, self.idx_to_string(index))
    }

    /// Vacates the index for later reuse.
    pub fn check_in(&mut self, id: ThreadIndentId)
        requires
            id < old(self).taken().len(),
        ensures
            final(self).taken() == old(self).taken().update(id as int, false),
            final(self).step() == old(self).step(),
    {
        self.indents_taken.set(id, false);
    }
}

/// The indices of the threads that log at the same time differ: an index that is checked
/// out is taken, so the next check-out (with no check-in between) gives another one.
pub proof fn law_checked_out_indents_differ(taken: Seq<bool>, after: Seq<bool>, first: int)
    requires
        first == first_vacant(taken),
        after == if first < taken.len() { taken.update(first, true) } else { taken.push(true) },
    ensures
        first_vacant(after) != first,
        first_vacant(after) > first,
{
    lemma_first_vacant(taken);
    lemma_first_vacant(after);
    assert(after[first]);
    if first_vacant(after) < first {
        assert(after[first_vacant(after)] == taken[first_vacant(after)]);
    }
}

/// An index that is checked in can be reused: the next check-out gives it, or a lower one.
pub proof fn law_checked_in_indent_is_reused(taken: Seq<bool>, id: int)
    requires
        0 <= id < taken.len(),
    ensures
        first_vacant(taken.update(id, false)) <= id,
{
    let after = taken.update(id, false);
    lemma_first_vacant(after);
    if first_vacant(after) > id {
        assert(after[id]);
    }
}

/// What to flush before the thread's next log update, so that the log, the other threads'
/// logs and the instrumented code's own output (`stdout`, `stderr`) appear in the right order.
#[derive(Clone, Copy, PartialEq, Eq, Debug, Structural)]
pub enum SyncStep {
    /// Nothing has been logged yet: only the buffered output of the instrumented code is written.
    FirstUpdate,
    /// Another thread (by its key) logged last: its cached log is flushed, then the buffered
    /// output of the instrumented code is written.
    OtherThread(u64),
    /// This thread logged last: its own cache is flushed only if the instrumented code has
    /// output something since (or a full flush is requested), before that output is written.
    SameThread,
}

/// Which thread (by the key the caller gives it) updated the log last.
pub struct UpdateTracker {
    last_fcl_update_thread: Option<u64>,
}

impl UpdateTracker {
    /// The thread that updated the log last, if any.
    pub closed spec fn last(self) -> Option<u64> {
        self.last_fcl_update_thread
    }

    /// Creates a tracker for which nothing has been logged.
    pub fn new() -> (t: Self)
        ensures
            t.last() is None,
    {
        Self { last_fcl_update_thread: None }
    }

    /// Tells what to flush before the current thread updates the log.
    pub fn sync_step(&self, current: u64) -> (step: SyncStep)
        ensures
            step == match self.last() {
                None => SyncStep::FirstUpdate,
                Some(last) => if last == current { SyncStep::SameThread } else { SyncStep::OtherThread(last) },
            },
    {
        match self.last_fcl_update_thread {
            None => SyncStep::FirstUpdate,
            Some(last) => if last == current { SyncStep::SameThread } else { SyncStep::OtherThread(last) },
        }
    }

    /// Records that the current thread has updated the log.
    pub fn record_update(&mut self, current: u64)
        ensures
            final(self).last() == Some(current),
    {
        self.last_fcl_update_thread = Some(current);
    }

    /// Records that the current thread's logger is removed: if it logged last, there is
    /// nothing of it left to flush later.
    pub fn thread_removed(&mut self, current: u64)
        ensures
            final(self).last() == if old(self).last() == Some(current) { None } else { old(self).last() },
    {
        if self.last_fcl_update_thread == Some(current) {
            self.last_fcl_update_thread = None;
        }
    }
}

/// Whether the thread that logged last must flush its own cache before the instrumented
/// code's buffered output is written: if there is any such output, or a full flush is requested.
pub fn own_flush_needed(stderr_buffered: bool, stdout_buffered: bool, full_flush: bool) -> (b: bool)
    ensures
        b == (stderr_buffered || stdout_buffered || full_flush),
{
    stderr_buffered || stdout_buffered || full_flush
}

} // verus!
