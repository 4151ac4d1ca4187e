//! Replacing a file so that a crash at any moment leaves the old contents or the new ones.
//!
//! The new contents are first written to a temporary file beside the old one. The old file is then
//! set aside as a backup, the temporary file takes its name, and the backup goes away.

use vstd::prelude::*;

verus! {

/// What to do next with the files.
#[derive(Clone, Copy, Debug, PartialEq, Eq, Structural)]
pub enum ReplaceStep {
    /// Write the new contents to the temporary file and force them to disk.
    WriteTemporary,
    /// Remove a backup that is left over.
    RemoveBackup,
    /// Rename the current file to the backup.
    SetAside,
    /// Rename the temporary file to the current one.
    Install,
    /// Remove the backup, now that the new contents are in place.
    DropBackup,
    /// Rename the backup to the current file again.
    PutBack,
    /// The new contents are in place.
    Done,
    /// The replacement failed.
    Failed,
}

/// The step after one that succeeded or failed, given which files there are now.
pub open spec fn step_after(
    step: ReplaceStep,
    succeeded: bool,
    current: bool,
    backup: bool,
) -> ReplaceStep {
    match step {
        ReplaceStep::WriteTemporary => if !succeeded {
            ReplaceStep::Failed
        } else if backup {
            ReplaceStep::RemoveBackup
        } else if current {
            ReplaceStep::SetAside
        } else {
            ReplaceStep::Install
        },
        ReplaceStep::RemoveBackup => if !succeeded {
            ReplaceStep::Failed
        } else if current {
            ReplaceStep::SetAside
        } else {
            ReplaceStep::Install
        },
        ReplaceStep::SetAside => if succeeded {
            ReplaceStep::Install
        } else {
            ReplaceStep::Failed
        },
        ReplaceStep::Install => if succeeded {
            if backup {
                ReplaceStep::DropBackup
            } else {
                ReplaceStep::Done
            }
        } else if backup && !current {
            ReplaceStep::PutBack
        } else {
            ReplaceStep::Failed
        },
        ReplaceStep::DropBackup => if succeeded {
            ReplaceStep::Done
        } else {
            ReplaceStep::Failed
        },
        ReplaceStep::PutBack => ReplaceStep::Failed,
        ReplaceStep::Done => ReplaceStep::Done,
        ReplaceStep::Failed => ReplaceStep::Failed,
    }
}

/// The step after one that succeeded or failed, given which files there are now.
pub fn next_step(step: ReplaceStep, succeeded: bool, current: bool, backup: bool) -> (next:
    ReplaceStep)
    ensures
        next == step_after(step, succeeded, current, backup),
{
    match step {
        ReplaceStep::WriteTemporary => {
            if !succeeded {
                ReplaceStep::Failed
            } else if backup {
                ReplaceStep::RemoveBackup
            } else if current {
                ReplaceStep::SetAside
            } else {
                ReplaceStep::Install
            }
        },
        ReplaceStep::RemoveBackup => {
            if !succeeded {
                ReplaceStep::Failed
            } else if current {
                ReplaceStep::SetAside
            } else {
                ReplaceStep::Install
            }
        },
        ReplaceStep::SetAside => {
            if succeeded {
                ReplaceStep::Install
            } else {
                ReplaceStep::Failed
            }
        },
        ReplaceStep::Install => {
            if succeeded {
                if backup {
                    ReplaceStep::DropBackup
                } else {
                    ReplaceStep::Done
                }
            } else if backup && !current {
                ReplaceStep::PutBack
            } else {
                ReplaceStep::Failed
            }
        },
        ReplaceStep::DropBackup => {
            if succeeded {
                ReplaceStep::Done
            } else {
                ReplaceStep::Failed
            }
        },
        ReplaceStep::PutBack => ReplaceStep::Failed,
        ReplaceStep::Done => ReplaceStep::Done,
        ReplaceStep::Failed => ReplaceStep::Failed,
    }
}

/// Whether a backup has to be renamed to the current file before the file is read.
pub fn needs_restore(current: bool, backup: bool) -> (needed: bool)
    ensures
        needed == (!current && backup),
{
    !current && backup
}

/// The name of a file that stands beside another: a dot and the suffix follow the name.
pub fn sidecar_path(path: &str, suffix: &str) -> (sidecar: String)
    ensures
        sidecar@ == path@ + seq!['.'] + suffix@,
{
    let mut sidecar: String = path.to_owned();
    sidecar.push('.');
    sidecar.push_str(suffix);
    assert(sidecar@ =~= path@ + seq!['.'] + suffix@);
    sidecar
}

/// The contents of the files that a replacement works with.
#[verifier::ext_equal]
pub struct Files {
    pub current: Option<Seq<u8>>,
    pub backup: Option<Seq<u8>>,
    pub temporary: Option<Seq<u8>>,
}

/// The files after a step. A step that fails leaves the current file and the backup as they were;
/// what a write that fails leaves in the temporary file is `torn`.
pub open spec fn files_after(
    files: Files,
    step: ReplaceStep,
    succeeded: bool,
    contents: Seq<u8>,
    torn: Option<Seq<u8>>,
) -> Files {
    match step {
        ReplaceStep::WriteTemporary => Files {
            temporary: if succeeded {
                Some(contents)
            } else {
                torn
            },
            ..files
        },
        ReplaceStep::RemoveBackup if succeeded => Files { backup: None, ..files },
        ReplaceStep::SetAside if succeeded => Files {
            current: None,
            backup: files.current,
            ..files
        },
        ReplaceStep::Install if succeeded => Files {
            current: files.temporary,
            temporary: None,
            ..files
        },
        ReplaceStep::DropBackup if succeeded => Files { backup: None, ..files },
        ReplaceStep::PutBack if succeeded => Files {
            current: files.backup,
            backup: None,
            ..files
        },
        _ => files,
    }
}

/// The files and the next step after a run whose steps succeeded or failed as `fates` says.
pub open spec fn replace_run(
    files: Files,
    contents: Seq<u8>,
    fates: Seq<bool>,
    torn: Option<Seq<u8>>,
) -> (Files, ReplaceStep)
    decreases fates.len(),
{
    if fates.len() == 0 {
        (files, ReplaceStep::WriteTemporary)
    } else {
        let (before, step) = replace_run(files, contents, fates.drop_last(), torn);
        let after = files_after(before, step, fates.last(), contents, torn);
        (after, step_after(step, fates.last(), after.current is Some, after.backup is Some))
    }
}

/// What a reader finds that restores a backup first.
pub open spec fn recovered(files: Files) -> Option<Seq<u8>> {
    if files.current is None && files.backup is Some {
        files.backup
    } else {
        files.current
    }
}

/// Whether no backup stands in for a missing file, as it is after every read.
pub open spec fn settled(files: Files) -> bool {
    files.current is None ==> files.backup is None
}

/// What holds of the files before each step.
spec fn in_step(old: Option<Seq<u8>>, contents: Seq<u8>, files: Files, step: ReplaceStep) -> bool {
    match step {
        ReplaceStep::WriteTemporary => files.current == old && (old is None ==> files.backup
            is None),
        ReplaceStep::RemoveBackup => files.current == old && old is Some && files.temporary == Some(
            contents,
        ),
        ReplaceStep::SetAside => files.current == old && old is Some && files.backup is None
            && files.temporary == Some(contents),
        ReplaceStep::Install => files.current is None && files.backup == old && files.temporary
            == Some(contents),
        ReplaceStep::DropBackup => files.current == Some(contents),
        ReplaceStep::PutBack => files.current is None && files.backup == old,
        ReplaceStep::Done => files.current == Some(contents) && files.backup is None,
        ReplaceStep::Failed => recovered(files) == old || recovered(files) == Some(contents),
    }
}

proof fn lemma_in_step(files: Files, contents: Seq<u8>, fates: Seq<bool>, torn: Option<Seq<u8>>)
    requires
        settled(files),
    ensures
        ({
            let (now, step) = replace_run(files, contents, fates, torn);
            in_step(files.current, contents, now, step)
        }),
    decreases fates.len(),
{
    if fates.len() > 0 {
        lemma_in_step(files, contents, fates.drop_last(), torn);
    }
}

/// Wherever a replacement stops, by a crash or by a step that fails, a reader finds the old
/// contents or the new ones, whole.
pub proof fn law_replacement_is_atomic(
    files: Files,
    contents: Seq<u8>,
    fates: Seq<bool>,
    torn: Option<Seq<u8>>,
)
    requires
        settled(files),
    ensures
        ({
            let (now, step) = replace_run(files, contents, fates, torn);
            recovered(now) == files.current || recovered(now) == Some(contents)
        }),
{
    lemma_in_step(files, contents, fates, torn);
}

/// A replacement that says it is done has put the new contents in place, and left no backup.
pub proof fn law_replacement_done_is_complete(
    files: Files,
    contents: Seq<u8>,
    fates: Seq<bool>,
    torn: Option<Seq<u8>>,
)
    requires
        settled(files),
        replace_run(files, contents, fates, torn).1 == ReplaceStep::Done,
    ensures
        replace_run(files, contents, fates, torn).0.current == Some(contents),
        settled(replace_run(files, contents, fates, torn).0),
{
    lemma_in_step(files, contents, fates, torn);
}

/// A replacement whose steps all succeed is done after five of them at most.
pub proof fn law_replacement_ends(files: Files, contents: Seq<u8>, torn: Option<Seq<u8>>)
    requires
        settled(files),
    ensures
        replace_run(files, contents, seq![true, true, true, true, true], torn).1
            == ReplaceStep::Done,
{
    reveal_with_fuel(replace_run, 6);
    let all = seq![true, true, true, true, true];
    let four = seq![true, true, true, true];
    let three = seq![true, true, true];
    let two = seq![true, true];
    let one = seq![true];
    assert(all.drop_last() =~= four);
    assert(four.drop_last() =~= three);
    assert(three.drop_last() =~= two);
    assert(two.drop_last() =~= one);
    assert(one.drop_last() =~= seq![]);
}

/// Where the new contents cannot take the file's name, the old file gets it back, and the
/// replacement has failed.
pub proof fn law_failed_installs_are_undone(
    files: Files,
    contents: Seq<u8>,
    fates: Seq<bool>,
    torn: Option<Seq<u8>>,
)
    requires
        settled(files),
        files.current is Some,
        replace_run(files, contents, fates, torn).1 == ReplaceStep::Install,
    ensures
        ({
            let (now, step) = replace_run(files, contents, fates.push(false).push(true), torn);
            now.current == files.current && now.backup is None && step == ReplaceStep::Failed
        }),
{
    reveal_with_fuel(replace_run, 3);
    lemma_in_step(files, contents, fates, torn);
    let (one, two) = (fates.push(false), fates.push(false).push(true));
    assert(one.drop_last() =~= fates);
    assert(two.drop_last() =~= one);
}

/// A replacement in which a step failed never says that it is done, and it is not done before the
/// new contents are written.
pub proof fn law_failed_replacements_say_so(
    files: Files,
    contents: Seq<u8>,
    fates: Seq<bool>,
    torn: Option<Seq<u8>>,
    place: int,
)
    requires
        0 <= place < fates.len(),
        !fates[place],
        replace_run(files, contents, fates.take(place), torn).1 != ReplaceStep::Done,
    ensures
        replace_run(files, contents, fates, torn).1 == ReplaceStep::Failed || replace_run(
            files,
            contents,
            fates,
            torn,
        ).1 == ReplaceStep::PutBack,
        fates.len() > place + 1 ==> replace_run(files, contents, fates, torn).1
            == ReplaceStep::Failed,
    decreases fates.len(),
{
    let before = fates.drop_last();
    if place == fates.len() - 1 {
        assert(fates.take(place) =~= before);
    } else {
        assert(before.take(place) =~= fates.take(place));
        law_failed_replacements_say_so(files, contents, before, torn, place);
    }
}

/// A backup is put back exactly where a reader would otherwise find nothing though there is one:
/// what is read then is what was there before.
pub proof fn law_backups_are_put_back(files: Files, needed: bool)
    requires
        call_ensures(needs_restore, (files.current is Some, files.backup is Some), needed),
    ensures
        needed ==> files.backup is Some && recovered(files) == files.backup,
        !needed ==> recovered(files) == files.current,
        needed <==> !settled(files),
{
}

} // verus!
