//! Retirement of replaced line programs. The audio thread may still read a program that control
//! has just replaced, so the replaced program is kept until two more audio-thread generations
//! have completed (one for the read that may be in flight, one spare); every install also frees
//! the retired programs whose grace has run out.

use vstd::prelude::*;

verus! {

/// A replaced program and the completed-generation count from which no reader can hold it.
pub struct RetiredProgram<T> {
    pub program: T,
    pub retired_at_generation: u64,
}

/// The retired programs of one line, oldest first.
pub struct LineRetirement<T> {
    pub retired: Vec<RetiredProgram<T>>,
}

/// Whether a retired program may still be read once `completed` generations have completed.
pub open spec fn still_needed<T>(completed: u64) -> spec_fn(RetiredProgram<T>) -> bool {
    |e: RetiredProgram<T>| completed < e.retired_at_generation
}

/// The generation count at which a program retired after `completed` generations may be freed.
pub open spec fn grace_end(completed: u64) -> u64 {
    if completed + 2 > u64::MAX {
        u64::MAX
    } else {
        (completed + 2) as u64
    }
}

impl<T> LineRetirement<T> {
    /// Nothing retired.
    pub fn new() -> (r: Self)
        ensures
            r.retired@.len() == 0,
    {
        LineRetirement { retired: Vec::new() }
    }

    /// After a replacement was published while `completed` generations had completed: free the
    /// retired programs no reader can hold any more, and keep `previous` until two more
    /// generations have completed.
    pub fn retire(&mut self, previous: T, completed: u64)
        ensures
            final(self).retired@ == old(self).retired@.filter(still_needed(completed)).push(
                RetiredProgram { program: previous, retired_at_generation: grace_end(completed) },
            ),
    {
        let mut pending: Vec<RetiredProgram<T>> = Vec::new();
        std::mem::swap(&mut self.retired, &mut pending);
        let ghost all = pending@;
        let mut kept: Vec<RetiredProgram<T>> = Vec::new();
        let ghost mut done: int = 0;
        while pending.len() > 0
            invariant
                0 <= done <= all.len(),
                pending@ == all.subrange(done, all.len() as int),
                kept@ == all.subrange(0, done).filter(still_needed(completed)),
            decreases pending@.len(),
        {
            let entry = pending.remove(0);
            proof {
                let head = all.subrange(0, done);
                let next = all.subrange(0, done + 1);
                assert(next =~= head + seq![entry]);
                Seq::filter_distributes_over_add(head, seq![entry], still_needed(completed));
                reveal_with_fuel(Seq::filter, 2);
                done = done + 1;
            }
            if completed < entry.retired_at_generation {
                kept.push(entry);
            }
            proof {
                assert(pending@ =~= all.subrange(done, all.len() as int));
            }
        }
        proof {
            assert(all.subrange(0, done) =~= all);
        }
        kept.push(RetiredProgram { program: previous, retired_at_generation: completed.saturating_add(2) });
        self.retired = kept;
    }
}

impl<T> LineRetirement<T> {
    /// A replacement made while the stage is being built: keep `previous` until the line itself
    /// is dropped (a control handle may already exist).
    pub fn retain_until_drop(&mut self, previous: T)
        ensures
            final(self).retired@ == old(self).retired@.push(
                RetiredProgram { program: previous, retired_at_generation: u64::MAX },
            ),
    {
        self.retired.push(RetiredProgram { program: previous, retired_at_generation: u64::MAX });
    }
}

/// A retired program is kept by every later retirement made while fewer generations than its
/// grace end have completed: it is never freed while a read may still hold it.
pub proof fn lemma_retired_program_outlives_in_flight_reads<T>(retired: Seq<RetiredProgram<T>>, e: RetiredProgram<T>, completed: u64)
    requires
        retired.contains(e),
        completed < e.retired_at_generation,
    ensures
        retired.filter(still_needed(completed)).contains(e),
{
    let i = choose|i: int| 0 <= i < retired.len() && retired[i] == e;
    retired.lemma_filter_contains(still_needed(completed), i);
}

/// Nothing whose grace has run out survives a retirement.
pub proof fn lemma_retirement_frees_expired<T>(retired: Seq<RetiredProgram<T>>, completed: u64, i: int)
    requires
        0 <= i < retired.filter(still_needed(completed)).len(),
    ensures
        completed < retired.filter(still_needed(completed))[i].retired_at_generation,
{
    retired.lemma_filter_pred(still_needed(completed), i);
}

} // verus!
