//! The order in which a compaction, or the installation of a leader's snapshot, changes the disk.

use vstd::prelude::*;

verus! {

/// What to do next on disk.
#[derive(Clone, Copy, Debug, PartialEq, Eq, Structural)]
pub enum CompactionStep {
    /// Put the new snapshot in place of the old one.
    InstallSnapshot,
    /// Write the next generation.
    AdvanceGeneration,
    /// Empty the log.
    ResetLog,
    /// All is done.
    Done,
    /// A step failed.
    Failed,
}

/// The step after one that succeeded or failed.
pub open spec fn compaction_after(step: CompactionStep, succeeded: bool) -> CompactionStep {
    match step {
        CompactionStep::Done => CompactionStep::Done,
        CompactionStep::Failed => CompactionStep::Failed,
        _ => if !succeeded {
            CompactionStep::Failed
        } else {
            match step {
                CompactionStep::InstallSnapshot => CompactionStep::AdvanceGeneration,
                CompactionStep::AdvanceGeneration => CompactionStep::ResetLog,
                _ => CompactionStep::Done,
            }
        },
    }
}

/// The step after one that succeeded or failed.
pub fn next_compaction_step(step: CompactionStep, succeeded: bool) -> (next: CompactionStep)
    ensures
        next == compaction_after(step, succeeded),
{
    match step {
        CompactionStep::Done => CompactionStep::Done,
        CompactionStep::Failed => CompactionStep::Failed,
        CompactionStep::InstallSnapshot => {
            if succeeded {
                CompactionStep::AdvanceGeneration
            } else {
                CompactionStep::Failed
            }
        },
        CompactionStep::AdvanceGeneration => {
            if succeeded {
                CompactionStep::ResetLog
            } else {
                CompactionStep::Failed
            }
        },
        CompactionStep::ResetLog => {
            if succeeded {
                CompactionStep::Done
            } else {
                CompactionStep::Failed
            }
        },
    }
}

/// What has changed on disk.
pub struct DiskChanges {
    pub snapshot_installed: bool,
    pub generation_advanced: bool,
    pub log_reset: bool,
}

/// What has changed on disk after steps that succeeded or failed as `fates` says, and the next
/// step.
pub open spec fn compaction_run(fates: Seq<bool>) -> (DiskChanges, CompactionStep)
    decreases fates.len(),
{
    if fates.len() == 0 {
        (
            DiskChanges { snapshot_installed: false, generation_advanced: false, log_reset: false },
            CompactionStep::InstallSnapshot,
        )
    } else {
        let (before, step) = compaction_run(fates.drop_last());
        let succeeded = fates.last();
        (
            DiskChanges {
                snapshot_installed: before.snapshot_installed || (step
                    == CompactionStep::InstallSnapshot && succeeded),
                generation_advanced: before.generation_advanced || (step
                    == CompactionStep::AdvanceGeneration && succeeded),
                log_reset: before.log_reset || (step == CompactionStep::ResetLog && succeeded),
            },
            compaction_after(step, succeeded),
        )
    }
}

proof fn lemma_compaction(fates: Seq<bool>)
    ensures
        ({
            let (disk, step) = compaction_run(fates);
            &&& disk.generation_advanced ==> disk.snapshot_installed
            &&& disk.log_reset ==> disk.generation_advanced
            &&& step == CompactionStep::AdvanceGeneration ==> disk.snapshot_installed
            &&& step == CompactionStep::ResetLog ==> disk.generation_advanced
            &&& step == CompactionStep::Done ==> disk.log_reset
        }),
    decreases fates.len(),
{
    if fates.len() > 0 {
        lemma_compaction(fates.drop_last());
    }
}

/// Wherever a compaction stops, the log is empty only if its records are in the installed snapshot
/// and the generation has advanced. No place in an emptied log is taken for one in the log before.
pub proof fn law_log_is_emptied_last(fates: Seq<bool>)
    ensures
        ({
            let (disk, step) = compaction_run(fates);
            &&& disk.log_reset ==> disk.snapshot_installed && disk.generation_advanced
            &&& step == CompactionStep::Done ==> disk.snapshot_installed && disk.generation_advanced
                && disk.log_reset
        }),
{
    lemma_compaction(fates);
}

/// Steps that succeed lead from the snapshot to the generation, from there to the log, and then to
/// the end. A step that fails ends the compaction, and what has ended stays as it is.
pub proof fn law_compactions_go_step_by_step(step: CompactionStep, fates: Seq<bool>, fate: bool)
    ensures
        compaction_after(CompactionStep::InstallSnapshot, true) == CompactionStep::AdvanceGeneration,
        compaction_after(CompactionStep::AdvanceGeneration, true) == CompactionStep::ResetLog,
        compaction_after(CompactionStep::ResetLog, true) == CompactionStep::Done,
        step != CompactionStep::Done ==> compaction_after(step, false) == CompactionStep::Failed,
        compaction_after(CompactionStep::Done, fate) == CompactionStep::Done,
        compaction_after(CompactionStep::Failed, fate) == CompactionStep::Failed,
        ({
            let (disk, end) = compaction_run(fates);
            &&& fates.len() >= 3 && fates.take(3) == seq![true, true, true] ==> end
                == CompactionStep::Done && disk.snapshot_installed && disk.generation_advanced
                && disk.log_reset
            &&& fates.len() >= 3 && fates.take(3) != seq![true, true, true] ==> end
                == CompactionStep::Failed && !disk.log_reset
        }),
{
    lemma_compaction_end(fates);
}

proof fn lemma_compaction_end(fates: Seq<bool>)
    ensures
        ({
            let (disk, end) = compaction_run(fates);
            let all = forall|i: int| 0 <= i < fates.len() && i < 3 ==> #[trigger] fates[i];
            &&& all && fates.len() == 0 ==> end == CompactionStep::InstallSnapshot
            &&& all && fates.len() == 1 ==> end == CompactionStep::AdvanceGeneration
            &&& all && fates.len() == 2 ==> end == CompactionStep::ResetLog
            &&& all && fates.len() >= 3 ==> end == CompactionStep::Done && disk.log_reset
            &&& !all ==> end == CompactionStep::Failed
            &&& fates.len() < 3 || !all ==> !disk.log_reset
        }),
        fates.len() >= 3 ==> (fates.take(3) == seq![true, true, true] <==> forall|i: int|
            0 <= i < fates.len() && i < 3 ==> #[trigger] fates[i]),
        compaction_run(fates).0.log_reset ==> compaction_run(fates).0.snapshot_installed
            && compaction_run(fates).0.generation_advanced,
    decreases fates.len(),
{
    lemma_compaction(fates);
    if fates.len() > 0 {
        let before = fates.drop_last();
        lemma_compaction_end(before);
        assert forall|i: int| 0 <= i < before.len() implies before[i] == #[trigger] fates[i] by {}
        assert(fates[fates.len() - 1] == fates.last());
    }
    if fates.len() >= 3 {
        let start = fates.take(3);
        assert(start[0] == fates[0] && start[1] == fates[1] && start[2] == fates[2]);
        if fates[0] && fates[1] && fates[2] {
            assert(start =~= seq![true, true, true]);
        }
    }
}

} // verus!
