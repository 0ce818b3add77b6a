//! Archiving the staging tree: the archive's name and the order of the steps
//! that write it and clear the staging tree away.

use vstd::prelude::*;
use vstd::string::*;

verus! {

/// The pattern by which the archive's time stamp is written: the date, an
/// underscore and the time of day, to the second.
pub open spec fn timestamp_pattern() -> Seq<char> {
    "%Y-%m-%d_%H-%M-%S"@
}

/// The extension of an archive file, with its dot.
pub open spec fn archive_extension() -> Seq<char> {
    seq!['.', 't', 'a', 'r']
}

/// The archive's path: the staging root as written, a hyphen, the time stamp
/// and the archive extension.
pub open spec fn archive_name(folder: Seq<char>, timestamp: Seq<char>) -> Seq<char> {
    folder + seq!['-'] + timestamp + archive_extension()
}

/// Why no archive was written.
#[derive(Clone, Copy, Debug, PartialEq, Eq, Structural)]
pub enum ArchiveError {
    /// The archive file could not be created.
    CreateFailed,
    /// An entry of the staging tree could not be appended.
    AppendFailed,
    /// The archive could not be finalised.
    FinishFailed,
}

/// Where the archiving stands: the step that the caller is to perform next,
/// or how it ended.
#[derive(Clone, Copy, Debug, PartialEq, Eq, Structural)]
pub enum ArchiveStage {
    /// Create the archive file.
    CreateFile,
    /// Append the whole staging tree to it.
    AppendTree,
    /// Finalise the archive.
    Finish,
    /// Remove the staging tree with all that it holds.
    RemoveStaging,
    /// The archive is written. The staging tree is gone, unless removing it
    /// failed.
    Complete { staging_removed: bool },
    /// No archive was written, and the staging tree is as it was.
    Failed(ArchiveError),
}

/// The stage that follows `stage` once the caller reports whether the step
/// went well.
pub open spec fn archive_step(stage: ArchiveStage, ok: bool) -> ArchiveStage {
    match stage {
        ArchiveStage::CreateFile => if ok {
            ArchiveStage::AppendTree
        } else {
            ArchiveStage::Failed(ArchiveError::CreateFailed)
        },
        ArchiveStage::AppendTree => if ok {
            ArchiveStage::Finish
        } else {
            ArchiveStage::Failed(ArchiveError::AppendFailed)
        },
        ArchiveStage::Finish => if ok {
            ArchiveStage::RemoveStaging
        } else {
            ArchiveStage::Failed(ArchiveError::FinishFailed)
        },
        ArchiveStage::RemoveStaging => ArchiveStage::Complete { staging_removed: ok },
        ArchiveStage::Complete { .. } => stage,
        ArchiveStage::Failed(_) => stage,
    }
}

/// The staging tree is removed only once the archive was finalised, and a
/// failure is final: after it no step is asked for, so the tree stays.
pub proof fn lemma_staging_outlives_failure(stage: ArchiveStage, ok: bool)
    ensures
        archive_step(stage, ok) is RemoveStaging ==> stage is Finish && ok,
        stage is Failed ==> archive_step(stage, ok) == stage,
        archive_step(stage, ok) is Complete ==> stage is RemoveStaging || stage is Complete,
{
}

/// One archiving of the staging tree.
#[derive(Clone, Debug)]
pub struct Archiving {
    /// The staging root.
    pub folder: String,
    /// The local time at which the archiving began.
    pub timestamp: String,
    /// The archive file.
    pub archive_path: String,
    pub stage: ArchiveStage,
}

/// The local time as text: `chrono::Local::now()`, written by
/// `DateTime::format` with `pattern`. Nothing is claimed of the text. The
/// pattern is held to the library's own, which chrono can parse: with a
/// pattern that it cannot parse, writing the text panics.
#[verifier::external_body]
fn local_time_text(pattern: &str) -> (text: String)
    requires
        pattern@ == timestamp_pattern(),
{
    chrono::Local::now().format(pattern).to_string()
}

/// The path of the archive of `folder` that was begun at `timestamp`.
pub fn archive_file_name(folder: &str, timestamp: &str) -> (name: String)
    ensures
        name@ == archive_name(folder@, timestamp@),
{
    let mut name: String = String::from_str(folder);
    proof {
        reveal_strlit("-");
        reveal_strlit(".tar");
        assert("-"@ =~= seq!['-']);
        assert(".tar"@ =~= archive_extension());
    }
    name.append("-");
    name.append(timestamp);
    name.append(".tar");
    name
}

/// The archiving of `folder` that begins at `timestamp`: nothing is done yet.
pub fn archiving_at(folder: &str, timestamp: String) -> (job: Archiving)
    ensures
        job.folder@ == folder@,
        job.timestamp@ == timestamp@,
        job.archive_path@ == archive_name(folder@, timestamp@),
        job.stage == ArchiveStage::CreateFile,
{
    let archive_path: String = archive_file_name(folder, timestamp.as_str());
    Archiving {
        folder: String::from_str(folder),
        timestamp,
        archive_path,
        stage: ArchiveStage::CreateFile,
    }
}

/// Begins the archiving of the staging tree `backup_folder_path` now: the
/// archive is named after the staging root and the local time.
pub fn zip_files_in_folder(backup_folder_path: &str) -> (job: Archiving)
    ensures
        job.folder@ == backup_folder_path@,
        job.archive_path@ == archive_name(backup_folder_path@, job.timestamp@),
        job.stage == ArchiveStage::CreateFile,
{
    let timestamp: String = local_time_text("%Y-%m-%d_%H-%M-%S");
    archiving_at(backup_folder_path, timestamp)
}

impl Archiving {
    /// Takes in whether the step asked for went well, and moves on.
    pub fn report(&mut self, ok: bool)
        ensures
            final(self).stage == archive_step(old(self).stage, ok),
            final(self).folder == old(self).folder,
            final(self).timestamp == old(self).timestamp,
            final(self).archive_path == old(self).archive_path,
    {
        self.stage = next_stage(self.stage, ok);
    }

    /// How the archiving ended: the archive's path, or why there is none.
    /// `None` while a step is still owed.
    pub fn result(&self) -> (result: Option<Result<String, ArchiveError>>)
        ensures
            match self.stage {
                ArchiveStage::Complete { .. } => result is Some && result.unwrap() is Ok
                    && result.unwrap().unwrap()@ == self.archive_path@,
                ArchiveStage::Failed(error) => result == Some(
                    Err::<String, ArchiveError>(error),
                ),
                _ => result is None,
            },
    {
        match self.stage {
            ArchiveStage::Complete { .. } => Some(Ok(self.archive_path.clone())),
            ArchiveStage::Failed(error) => Some(Err(error)),
            _ => None,
        }
    }
}

/// The stage that follows `stage`.
pub fn next_stage(stage: ArchiveStage, ok: bool) -> (next: ArchiveStage)
    ensures
        next == archive_step(stage, ok),
{
    match stage {
        ArchiveStage::CreateFile => if ok {
            ArchiveStage::AppendTree
        } else {
            ArchiveStage::Failed(ArchiveError::CreateFailed)
        },
        ArchiveStage::AppendTree => if ok {
            ArchiveStage::Finish
        } else {
            ArchiveStage::Failed(ArchiveError::AppendFailed)
        },
        ArchiveStage::Finish => if ok {
            ArchiveStage::RemoveStaging
        } else {
            ArchiveStage::Failed(ArchiveError::FinishFailed)
        },
        ArchiveStage::RemoveStaging => ArchiveStage::Complete { staging_removed: ok },
        ArchiveStage::Complete { staging_removed } => ArchiveStage::Complete { staging_removed },
        ArchiveStage::Failed(error) => ArchiveStage::Failed(error),
    }
}

} // verus!
