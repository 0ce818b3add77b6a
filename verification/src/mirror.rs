//! The mirror walk: a worklist of filesystem tasks that copies a source file
//! or a whole source tree below the staging root.
//!
//! The walk decides; the caller acts. The caller performs the task that
//! [`Mirror::next_task`] hands out, reports what happened through
//! [`Mirror::report`], and repeats until no task is left.

use vstd::prelude::*;
use vstd::string::*;
use crate::walk_laws::{lemma_initial_walk_stays_under_root, lemma_step_stays_under_root};
use crate::path::{
    build_full_backup_path, containing_dir, directory_of, file_name, final_segment, is_absolute,
    is_absolute_path, join, join_path, mirrored_path, names_entry,
};

verus! {

/// What a path resolves to on disk.
#[derive(Clone, Copy, Debug, PartialEq, Eq, Structural)]
pub enum EntryKind {
    /// A directory, reached directly or through symbolic links.
    Directory,
    /// A regular file.
    RegularFile,
    /// Anything else: a dangling link, a device, a socket, or nothing at all.
    Other,
}

/// One child found when a directory was listed.
#[derive(Clone, Debug, PartialEq, Eq)]
pub struct Entry {
    /// The child's own path.
    pub path: String,
    pub kind: EntryKind,
    /// Whether the child, with every symbolic link resolved, is the listed
    /// directory itself.
    pub same_as_parent: bool,
}

pub struct EntryModel {
    pub path: Seq<char>,
    pub kind: EntryKind,
    pub same_as_parent: bool,
}

impl View for Entry {
    type V = EntryModel;

    open spec fn view(&self) -> EntryModel {
        EntryModel { path: self.path@, kind: self.kind, same_as_parent: self.same_as_parent }
    }
}

/// A filesystem action that the walk asks of its caller.
#[derive(Clone, Debug, PartialEq, Eq)]
pub enum Task {
    /// Create `dir` and every missing ancestor of it.
    CreateDir { dir: String },
    /// List the immediate children of `dir`.
    List { dir: String },
    /// Copy the bytes of the file `from` to `to`.
    Copy { from: String, to: String },
}

pub enum Job {
    CreateDir { dir: Seq<char> },
    List { dir: Seq<char> },
    Copy { from: Seq<char>, to: Seq<char> },
}

impl View for Task {
    type V = Job;

    open spec fn view(&self) -> Job {
        match *self {
            Task::CreateDir { dir } => Job::CreateDir { dir: dir@ },
            Task::List { dir } => Job::List { dir: dir@ },
            Task::Copy { from, to } => Job::Copy { from: from@, to: to@ },
        }
    }
}

/// Why an entry was passed over without failing the walk.
#[derive(Clone, Copy, Debug, PartialEq, Eq, Structural)]
pub enum NoticeKind {
    /// The entry is neither a directory nor a regular file.
    NotRegular,
    /// The file's path has no final segment to copy it under.
    NoFileName,
    /// Copying the file failed.
    CopyFailed,
}

/// A diagnostic recorded during the walk.
#[derive(Clone, Debug, PartialEq, Eq)]
pub struct Notice {
    pub kind: NoticeKind,
    /// The source entry that the notice is about.
    pub path: String,
}

pub struct NoticeModel {
    pub kind: NoticeKind,
    pub path: Seq<char>,
}

impl View for Notice {
    type V = NoticeModel;

    open spec fn view(&self) -> NoticeModel {
        NoticeModel { kind: self.kind, path: self.path@ }
    }
}

/// Why a walk could not start or had to stop.
#[derive(Clone, Copy, Debug, PartialEq, Eq, Structural)]
pub enum MirrorError {
    /// The source path is not absolute.
    InvalidInput,
    /// The source is neither a regular file nor a directory.
    NotFound,
    /// A destination directory could not be created.
    CreateDirFailed,
    /// A source directory could not be listed.
    ListFailed,
}

/// What the caller saw when it performed a task.
#[derive(Clone, Debug, PartialEq, Eq)]
pub enum Outcome {
    /// The directory was created, or the file copied.
    Done,
    /// The action failed.
    Failed,
    /// The directory was listed and these are its children, in listing order.
    Listed(Vec<Entry>),
}

pub enum OutcomeModel {
    Done,
    Failed,
    Listed(Seq<EntryModel>),
}

impl View for Outcome {
    type V = OutcomeModel;

    open spec fn view(&self) -> OutcomeModel {
        match *self {
            Outcome::Done => OutcomeModel::Done,
            Outcome::Failed => OutcomeModel::Failed,
            Outcome::Listed(entries) => OutcomeModel::Listed(entry_models(entries@)),
        }
    }
}

pub open spec fn entry_models(entries: Seq<Entry>) -> Seq<EntryModel> {
    entries.map_values(|e: Entry| e@)
}

pub open spec fn jobs(tasks: Seq<Task>) -> Seq<Job> {
    tasks.map_values(|t: Task| t@)
}

pub open spec fn notice_models(notices: Seq<Notice>) -> Seq<NoticeModel> {
    notices.map_values(|n: Notice| n@)
}

/// The tasks that one child of a listed directory gives rise to. `dest` is
/// the mirrored location of the listed directory.
///
/// A directory is visited in its own right, at the mirrored location of its
/// own path, unless it is the listed directory itself. A regular file is
/// copied into `dest` under its own name. Nothing else is touched.
pub open spec fn entry_jobs(entry: EntryModel, dest: Seq<char>, root: Seq<char>) -> Seq<Job> {
    match entry.kind {
        EntryKind::Directory => if entry.same_as_parent {
            Seq::empty()
        } else {
            seq![
                Job::CreateDir { dir: mirrored_path(entry.path, root) },
                Job::List { dir: entry.path },
            ]
        },
        EntryKind::RegularFile => if names_entry(final_segment(entry.path)) {
            seq![Job::Copy { from: entry.path, to: join_path(dest, final_segment(entry.path)) }]
        } else {
            Seq::empty()
        },
        EntryKind::Other => Seq::empty(),
    }
}

/// The notices that one child of a listed directory gives rise to.
pub open spec fn entry_notices(entry: EntryModel) -> Seq<NoticeModel> {
    match entry.kind {
        EntryKind::Directory => Seq::empty(),
        EntryKind::RegularFile => if names_entry(final_segment(entry.path)) {
            Seq::empty()
        } else {
            seq![NoticeModel { kind: NoticeKind::NoFileName, path: entry.path }]
        },
        EntryKind::Other => seq![NoticeModel { kind: NoticeKind::NotRegular, path: entry.path }],
    }
}

/// The tasks of a whole listing, child by child in listing order.
pub open spec fn listing_jobs(entries: Seq<EntryModel>, dest: Seq<char>, root: Seq<char>) -> Seq<
    Job,
>
    decreases entries.len(),
{
    if entries.len() == 0 {
        Seq::empty()
    } else {
        listing_jobs(entries.drop_last(), dest, root) + entry_jobs(entries.last(), dest, root)
    }
}

/// The notices of a whole listing, child by child in listing order.
pub open spec fn listing_notices(entries: Seq<EntryModel>) -> Seq<NoticeModel>
    decreases entries.len(),
{
    if entries.len() == 0 {
        Seq::empty()
    } else {
        listing_notices(entries.drop_last()) + entry_notices(entries.last())
    }
}

/// The state of a walk as plain values.
pub struct MirrorModel {
    /// The staging root.
    pub root: Seq<char>,
    /// The tasks still owed; the first is the one handed out next.
    pub tasks: Seq<Job>,
    /// The diagnostics recorded so far, oldest first.
    pub notices: Seq<NoticeModel>,
    /// The structural failure that stopped the walk, if one did.
    pub failure: Option<MirrorError>,
}

/// The walk that mirrors `source` below `root`, before any task was
/// performed. `kind` is what `source` resolves to.
pub open spec fn initial_walk(source: Seq<char>, kind: EntryKind, root: Seq<char>) -> Result<
    MirrorModel,
    MirrorError,
> {
    let target = mirrored_path(source, root);
    if !is_absolute_path(source) {
        Err(MirrorError::InvalidInput)
    } else {
        match kind {
            EntryKind::Directory => Ok(
                MirrorModel {
                    root,
                    tasks: seq![Job::CreateDir { dir: target }, Job::List { dir: source }],
                    notices: Seq::empty(),
                    failure: None,
                },
            ),
            EntryKind::RegularFile => Ok(
                MirrorModel {
                    root,
                    tasks: seq![Job::CreateDir { dir: containing_dir(target) }] + entry_jobs(
                        EntryModel { path: source, kind, same_as_parent: false },
                        containing_dir(target),
                        root,
                    ),
                    notices: entry_notices(
                        EntryModel { path: source, kind, same_as_parent: false },
                    ),
                    failure: None,
                },
            ),
            EntryKind::Other => Err(MirrorError::NotFound),
        }
    }
}

/// The walk `s` stopped by the structural failure `error`: no task is left.
pub open spec fn stopped(s: MirrorModel, error: MirrorError) -> MirrorModel {
    MirrorModel { root: s.root, tasks: Seq::empty(), notices: s.notices, failure: Some(error) }
}

/// The walk `s` with its first task done and `more` put in front of the rest.
pub open spec fn advanced(s: MirrorModel, more: Seq<Job>, noted: Seq<NoticeModel>) -> MirrorModel {
    MirrorModel {
        root: s.root,
        tasks: more + s.tasks.remove(0),
        notices: s.notices + noted,
        failure: s.failure,
    }
}

/// The walk after the caller reported `outcome` for the first task of `s`.
///
/// A failure to create a directory or to list one stops the walk. A failed
/// copy is recorded and the walk goes on. A listing puts the tasks of its
/// children in front of what was already owed, so the tree is walked depth
/// first in listing order. An outcome that does not answer the first task,
/// or any outcome when no task is owed, changes nothing.
pub open spec fn step(s: MirrorModel, outcome: OutcomeModel) -> MirrorModel {
    if s.tasks.len() == 0 {
        s
    } else {
        match (s.tasks[0], outcome) {
            (Job::CreateDir { .. }, OutcomeModel::Done) => advanced(s, Seq::empty(), Seq::empty()),
            (Job::CreateDir { .. }, OutcomeModel::Failed) => stopped(
                s,
                MirrorError::CreateDirFailed,
            ),
            (Job::List { dir }, OutcomeModel::Listed(entries)) => advanced(
                s,
                listing_jobs(entries, mirrored_path(dir, s.root), s.root),
                listing_notices(entries),
            ),
            (Job::List { .. }, OutcomeModel::Failed) => stopped(s, MirrorError::ListFailed),
            (Job::Copy { .. }, OutcomeModel::Done) => advanced(s, Seq::empty(), Seq::empty()),
            (Job::Copy { from, .. }, OutcomeModel::Failed) => advanced(
                s,
                Seq::empty(),
                seq![NoticeModel { kind: NoticeKind::CopyFailed, path: from }],
            ),
            _ => s,
        }
    }
}

/// A task writes below `root` when the directory it creates, or the file it
/// copies to, has `root` in front. Listing writes nothing.
pub open spec fn writes_under(root: Seq<char>, job: Job) -> bool {
    match job {
        Job::CreateDir { dir } => root.is_prefix_of(dir),
        Job::List { .. } => true,
        Job::Copy { to, .. } => root.is_prefix_of(to),
    }
}

/// Every task that the walk still owes writes below its staging root.
pub open spec fn stays_under_root(s: MirrorModel) -> bool {
    forall|i: int| 0 <= i < s.tasks.len() ==> writes_under(s.root, #[trigger] s.tasks[i])
}

/// A mirror walk in progress. Whatever was reported to it, every task that it
/// still owes writes below its staging root, and it owes none once it has
/// failed.
#[derive(Debug)]
pub struct Mirror {
    root: String,
    tasks: Vec<Task>,
    notices: Vec<Notice>,
    failure: Option<MirrorError>,
}

impl View for Mirror {
    type V = MirrorModel;

    closed spec fn view(&self) -> MirrorModel {
        MirrorModel {
            root: self.root@,
            tasks: jobs(self.tasks@),
            notices: notice_models(self.notices@),
            failure: self.failure,
        }
    }
}

/// Adds to `batch` and `notices` what one child of a listing gives rise to.
fn plan_entry(entry: &Entry, dest: &str, root: &str, batch: &mut Vec<Task>, notices: &mut Vec<
    Notice,
>)
    ensures
        jobs(final(batch)@) == jobs(old(batch)@) + entry_jobs(entry@, dest@, root@),
        notice_models(final(notices)@) == notice_models(old(notices)@) + entry_notices(entry@),
{
    match entry.kind {
        EntryKind::Directory => {
            if !entry.same_as_parent {
                let dir: String = build_full_backup_path(entry.path.as_str(), root);
                batch.push(Task::CreateDir { dir });
                batch.push(Task::List { dir: entry.path.clone() });
            }
        },
        EntryKind::RegularFile => {
            match file_name(entry.path.as_str()) {
                Some(name) => {
                    let to: String = join(dest, name.as_str());
                    batch.push(Task::Copy { from: entry.path.clone(), to });
                },
                None => {
                    notices.push(Notice { kind: NoticeKind::NoFileName, path: entry.path.clone() });
                },
            }
        },
        EntryKind::Other => {
            notices.push(Notice { kind: NoticeKind::NotRegular, path: entry.path.clone() });
        },
    }
    proof {
        assert(jobs(batch@) =~= jobs(old(batch)@) + entry_jobs(entry@, dest@, root@));
        assert(notice_models(notices@) =~= notice_models(old(notices)@) + entry_notices(entry@));
    }
}

/// The tasks of a whole listing; its notices are added to `notices`.
fn plan_listing(entries: &Vec<Entry>, dest: &str, root: &str, notices: &mut Vec<Notice>) -> (batch:
    Vec<Task>)
    ensures
        jobs(batch@) == listing_jobs(entry_models(entries@), dest@, root@),
        notice_models(final(notices)@) == notice_models(old(notices)@) + listing_notices(
            entry_models(entries@),
        ),
{
    let mut batch: Vec<Task> = Vec::new();
    let mut i: usize = 0;
    proof {
        assert(jobs(batch@) =~= Seq::empty());
        assert(notice_models(notices@) =~= notice_models(old(notices)@) + Seq::empty());
    }
    while i < entries.len()
        invariant
            i <= entries.len(),
            jobs(batch@) == listing_jobs(entry_models(entries@).take(i as int), dest@, root@),
            notice_models(notices@) == notice_models(old(notices)@) + listing_notices(
                entry_models(entries@).take(i as int),
            ),
        decreases entries.len() - i,
    {
        plan_entry(&entries[i], dest, root, &mut batch, notices);
        proof {
            let all = entry_models(entries@);
            assert(all.take(i + 1).drop_last() =~= all.take(i as int));
            assert(all.take(i + 1).last() == entries@[i as int]@);
            assert(notice_models(notices@) =~= notice_models(old(notices)@) + listing_notices(
                all.take(i + 1),
            ));
        }
        i = i + 1;
    }
    proof {
        let all = entry_models(entries@);
        assert(all.take(i as int) =~= all);
    }
    batch
}

/// Begins the mirror of `source_path` below the staging root
/// `backup_folder_path`. `source_kind` is what the source resolves to on
/// disk.
///
/// A source that is not absolute is refused as invalid input, whatever it
/// resolves to. A source that is neither a directory nor a regular file is
/// not found. Either way no task was handed out, so nothing on disk changes.
pub fn backup_directory_contents(
    source_path: &str,
    source_kind: EntryKind,
    backup_folder_path: &str,
) -> (walk: Result<Mirror, MirrorError>)
    ensures
        match initial_walk(source_path@, source_kind, backup_folder_path@) {
            Ok(start) => walk is Ok && walk->Ok_0@ == start,
            Err(error) => walk is Err && walk->Err_0 == error,
        },
{
    if !is_absolute(source_path) {
        return Err(MirrorError::InvalidInput);
    }
    let target: String = build_full_backup_path(source_path, backup_folder_path);
    let mut tasks: Vec<Task> = Vec::new();
    let mut notices: Vec<Notice> = Vec::new();
    match source_kind {
        EntryKind::Directory => {
            tasks.push(Task::CreateDir { dir: target });
            tasks.push(Task::List { dir: String::from_str(source_path) });
        },
        EntryKind::RegularFile => {
            let dest: String = directory_of(target.as_str());
            let entry = Entry {
                path: String::from_str(source_path),
                kind: source_kind,
                same_as_parent: false,
            };
            tasks.push(Task::CreateDir { dir: dest.clone() });
            plan_entry(&entry, dest.as_str(), backup_folder_path, &mut tasks, &mut notices);
        },
        EntryKind::Other => {
            return Err(MirrorError::NotFound);
        },
    }
    let root: String = String::from_str(backup_folder_path);
    proof {
        let expected = initial_walk(source_path@, source_kind, backup_folder_path@).unwrap();
        lemma_initial_walk_stays_under_root(source_path@, source_kind, backup_folder_path@);
        assert(jobs(tasks@) =~= expected.tasks);
        assert(notice_models(notices@) =~= expected.notices);
    }
    let walk = Mirror { root, tasks, notices, failure: None };
    Ok(walk)
}

impl Mirror {
    #[verifier::type_invariant]
    closed spec fn sound(&self) -> bool {
        &&& stays_under_root(self@)
        &&& self.failure is Some ==> self.tasks@.len() == 0
    }

    /// The staging root below which this walk copies.
    pub fn root(&self) -> (root: &str)
        ensures
            root@ == self@.root,
    {
        self.root.as_str()
    }

    /// The task that the caller is to perform next, or `None` once the walk
    /// has come to its end.
    pub fn next_task(&self) -> (task: Option<Task>)
        ensures
            task is Some == (self@.tasks.len() > 0),
            task is Some ==> task.unwrap()@ == self@.tasks[0],
            task is Some ==> writes_under(self@.root, task.unwrap()@),
            task is Some ==> self@.failure is None,
    {
        proof {
            use_type_invariant(self);
        }
        if self.tasks.len() == 0 {
            None
        } else {
            let task: Task = match &self.tasks[0] {
                Task::CreateDir { dir } => Task::CreateDir { dir: dir.clone() },
                Task::List { dir } => Task::List { dir: dir.clone() },
                Task::Copy { from, to } => Task::Copy { from: from.clone(), to: to.clone() },
            };
            proof {
                assert(writes_under(self@.root, self@.tasks[0]));
            }
            Some(task)
        }
    }

    /// How many tasks are still owed.
    pub fn pending(&self) -> (n: usize)
        ensures
            n == self@.tasks.len(),
    {
        self.tasks.len()
    }

    /// The structural failure that stopped the walk, if one did.
    pub fn failure(&self) -> (failure: Option<MirrorError>)
        ensures
            failure == self@.failure,
            failure is Some ==> self@.tasks.len() == 0,
    {
        proof {
            use_type_invariant(self);
        }
        self.failure
    }

    /// How many diagnostics were recorded so far.
    pub fn notice_count(&self) -> (n: usize)
        ensures
            n == self@.notices.len(),
    {
        self.notices.len()
    }

    /// The `i`-th diagnostic, oldest first.
    pub fn notice(&self, i: usize) -> (notice: Option<Notice>)
        ensures
            notice is Some == (i < self@.notices.len()),
            notice is Some ==> notice.unwrap()@ == self@.notices[i as int],
    {
        if i < self.notices.len() {
            let n: &Notice = &self.notices[i];
            Some(Notice { kind: n.kind, path: n.path.clone() })
        } else {
            None
        }
    }

    /// Takes in what the caller saw when it performed the task handed out
    /// last, and moves the walk on.
    pub fn report(&mut self, outcome: Outcome)
        ensures
            final(self)@ == step(old(self)@, outcome@),
    {
        proof {
            use_type_invariant(&*self);
            lemma_step_stays_under_root(self@, outcome@);
        }
        if self.tasks.len() == 0 {
            return ;
        }
        let ghost expected = step(old(self)@, outcome@);
        let mut rest: Vec<Task> = Vec::new();
        let mut notices: Vec<Notice> = Vec::new();
        core::mem::swap(&mut self.tasks, &mut rest);
        core::mem::swap(&mut self.notices, &mut notices);
        let task: Task = rest.remove(0);
        match task {
            Task::CreateDir { dir } => match outcome {
                Outcome::Done => {},
                Outcome::Failed => {
                    rest.clear();
                    self.failure = Some(MirrorError::CreateDirFailed);
                },
                Outcome::Listed(_) => {
                    rest.insert(0, Task::CreateDir { dir });
                },
            },
            Task::List { dir } => match outcome {
                Outcome::Done => {
                    rest.insert(0, Task::List { dir });
                },
                Outcome::Failed => {
                    rest.clear();
                    self.failure = Some(MirrorError::ListFailed);
                },
                Outcome::Listed(entries) => {
                    let dest: String = build_full_backup_path(dir.as_str(), self.root.as_str());
                    let mut batch: Vec<Task> = plan_listing(
                        &entries,
                        dest.as_str(),
                        self.root.as_str(),
                        &mut notices,
                    );
                    batch.append(&mut rest);
                    rest = batch;
                },
            },
            Task::Copy { from, to } => match outcome {
                Outcome::Done => {},
                Outcome::Failed => {
                    notices.push(Notice { kind: NoticeKind::CopyFailed, path: from });
                },
                Outcome::Listed(_) => {
                    rest.insert(0, Task::Copy { from, to });
                },
            },
        }
        proof {
            assert(jobs(rest@) =~= expected.tasks);
            assert(notice_models(notices@) =~= expected.notices);
        }
        self.notices = notices;
        self.tasks = rest;
    }
}

} // verus!
