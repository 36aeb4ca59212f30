//! Replacing a file so that it is never seen half written.
use vstd::prelude::*;

verus! {

/// What is to be done next to replace a file.
#[derive(Clone, Copy, Debug, PartialEq, Eq, Structural)]
pub enum AtomicWriteStep {
    /// Create a temporary file beside the target.
    CreateTemporary,
    /// Write the contents to the temporary file.
    Write,
    /// Flush what is buffered to the temporary file.
    Flush,
    /// Bring the temporary file to the disk.
    Sync,
    /// Move the temporary file over the target.
    Replace,
    /// The target is replaced.
    Done,
    /// The target is as it was.
    Failed,
}

impl AtomicWriteStep {
    /// The step that follows.
    pub open spec fn spec_next(self, succeeded: bool) -> AtomicWriteStep {
        match self {
            AtomicWriteStep::Done => AtomicWriteStep::Done,
            AtomicWriteStep::Failed => AtomicWriteStep::Failed,
            _ => if !succeeded {
                AtomicWriteStep::Failed
            } else {
                match self {
                    AtomicWriteStep::CreateTemporary => AtomicWriteStep::Write,
                    AtomicWriteStep::Write => AtomicWriteStep::Flush,
                    AtomicWriteStep::Flush => AtomicWriteStep::Sync,
                    AtomicWriteStep::Sync => AtomicWriteStep::Replace,
                    _ => AtomicWriteStep::Done,
                }
            },
        }
    }

    /// The step after a run with the given outcomes.
    pub open spec fn after(outcomes: Seq<bool>) -> AtomicWriteStep
        decreases outcomes.len(),
    {
        if outcomes.len() == 0 {
            AtomicWriteStep::CreateTemporary
        } else {
            AtomicWriteStep::after(outcomes.drop_last()).spec_next(outcomes.last())
        }
    }

    /// The first step for a target, which must lie in a directory.
    pub fn first(has_parent: bool) -> (step: AtomicWriteStep)
        ensures
            step == (if has_parent {
                AtomicWriteStep::CreateTemporary
            } else {
                AtomicWriteStep::Failed
            }),
    {
        if has_parent {
            AtomicWriteStep::CreateTemporary
        } else {
            AtomicWriteStep::Failed
        }
    }

    /// The step that follows once this one succeeded or failed.
    pub fn next(self, succeeded: bool) -> (step: AtomicWriteStep)
        ensures
            step == self.spec_next(succeeded),
    {
        match self {
            AtomicWriteStep::Done => AtomicWriteStep::Done,
            AtomicWriteStep::Failed => AtomicWriteStep::Failed,
            _ => {
                if !succeeded {
                    return AtomicWriteStep::Failed;
                }
                match self {
                    AtomicWriteStep::CreateTemporary => AtomicWriteStep::Write,
                    AtomicWriteStep::Write => AtomicWriteStep::Flush,
                    AtomicWriteStep::Flush => AtomicWriteStep::Sync,
                    AtomicWriteStep::Sync => AtomicWriteStep::Replace,
                    _ => AtomicWriteStep::Done,
                }
            },
        }
    }
}

/// What came of the first steps is what the outcomes up to them tell.
proof fn lemma_after(outcomes: Seq<bool>)
    ensures
        ({
            let all_good = forall|i: int|
                #![trigger outcomes[i]]
                0 <= i < outcomes.len() && i < 5 ==> outcomes[i];
            AtomicWriteStep::after(outcomes) == (if !all_good {
                AtomicWriteStep::Failed
            } else if outcomes.len() == 0 {
                AtomicWriteStep::CreateTemporary
            } else if outcomes.len() == 1 {
                AtomicWriteStep::Write
            } else if outcomes.len() == 2 {
                AtomicWriteStep::Flush
            } else if outcomes.len() == 3 {
                AtomicWriteStep::Sync
            } else if outcomes.len() == 4 {
                AtomicWriteStep::Replace
            } else {
                AtomicWriteStep::Done
            })
        }),
    decreases outcomes.len(),
{
    if outcomes.len() > 0 {
        let earlier = outcomes.drop_last();
        lemma_after(earlier);
        assert(forall|i: int| #![trigger outcomes[i]] 0 <= i < earlier.len() ==> earlier[i]
            == outcomes[i]);
        assert(outcomes[outcomes.len() - 1] == outcomes.last());
    }
}

/// The target is moved over only once the contents were written, flushed and synced, and it is
/// replaced only if every step succeeded: any failure leaves it as it was.
pub proof fn law_target_survives_failure(outcomes: Seq<bool>)
    ensures
        AtomicWriteStep::after(outcomes) == AtomicWriteStep::Done <==> outcomes.len() >= 5 && (
        forall|i: int| 0 <= i < 5 ==> #[trigger] outcomes[i]),
        AtomicWriteStep::after(outcomes) == AtomicWriteStep::Replace ==> outcomes.len() == 4 && (
        forall|i: int| 0 <= i < 4 ==> #[trigger] outcomes[i]),
        AtomicWriteStep::after(outcomes) == AtomicWriteStep::Failed <==> exists|i: int|
            0 <= i < outcomes.len() && i < 5 && !#[trigger] outcomes[i],
{
    lemma_after(outcomes);
}

/// A write that goes well creates the temporary file, writes, flushes and syncs it, and only then
/// moves it over the target; a failure is final at every step before that.
pub proof fn law_steps_follow_in_order(outcomes: Seq<bool>)
    requires
        forall|i: int| 0 <= i < outcomes.len() ==> #[trigger] outcomes[i],
    ensures
        outcomes.len() == 0 ==> AtomicWriteStep::after(outcomes)
            == AtomicWriteStep::CreateTemporary,
        outcomes.len() == 1 ==> AtomicWriteStep::after(outcomes) == AtomicWriteStep::Write,
        outcomes.len() == 2 ==> AtomicWriteStep::after(outcomes) == AtomicWriteStep::Flush,
        outcomes.len() == 3 ==> AtomicWriteStep::after(outcomes) == AtomicWriteStep::Sync,
        outcomes.len() == 4 ==> AtomicWriteStep::after(outcomes) == AtomicWriteStep::Replace,
        outcomes.len() >= 5 ==> AtomicWriteStep::after(outcomes) == AtomicWriteStep::Done,
        AtomicWriteStep::after(outcomes) != AtomicWriteStep::Done ==> AtomicWriteStep::after(
            outcomes.push(false),
        ) == AtomicWriteStep::Failed,
        AtomicWriteStep::Failed.spec_next(true) == AtomicWriteStep::Failed,
        AtomicWriteStep::Done.spec_next(false) == AtomicWriteStep::Done,
{
    lemma_after(outcomes);
    assert(outcomes.push(false).drop_last() =~= outcomes);
}

} // verus!
