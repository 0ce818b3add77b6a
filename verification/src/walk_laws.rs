//! What holds of every mirror walk, stated over the walk's model.

use vstd::prelude::*;
use crate::mirror::{
    entry_jobs, entry_notices, initial_walk, listing_jobs, listing_notices, stays_under_root, step,
    writes_under, EntryKind, EntryModel, Job, MirrorError, MirrorModel, NoticeKind, NoticeModel,
    OutcomeModel,
};
use crate::path::{
    containing_dir, final_segment, is_absolute_path, join_path, lemma_child_lands_at_its_mirrored_path,
    lemma_final_segment_of_child, lemma_join_keeps_base, lemma_mirrored_path_is_under_root,
    lemma_mirrored_path_keeps_name, lemma_name_start, mirrored_path, name_start, names_entry,
    separator,
};

verus! {

/// A source that is not absolute is refused as invalid input, whatever it
/// resolves to, and no walk comes into being.
pub proof fn lemma_relative_source_is_refused(source: Seq<char>, kind: EntryKind, root: Seq<char>)
    requires
        !is_absolute_path(source),
    ensures
        initial_walk(source, kind, root) == Err::<MirrorModel, MirrorError>(
            MirrorError::InvalidInput,
        ),
{
}

/// An absolute source that is neither a directory nor a regular file is not
/// found, and no walk comes into being.
pub proof fn lemma_missing_source_is_not_found(source: Seq<char>, root: Seq<char>)
    requires
        is_absolute_path(source),
    ensures
        initial_walk(source, EntryKind::Other, root) == Err::<MirrorModel, MirrorError>(
            MirrorError::NotFound,
        ),
{
}

/// A regular file given as the source is copied to its own mirrored
/// location, after the directory part of that location was created.
pub proof fn lemma_source_file_lands_at_mirrored_path(source: Seq<char>, root: Seq<char>)
    requires
        is_absolute_path(source),
        names_entry(final_segment(source)),
    ensures
        initial_walk(source, EntryKind::RegularFile, root) == Ok::<MirrorModel, MirrorError>(
            MirrorModel {
                root,
                tasks: seq![
                    Job::CreateDir { dir: containing_dir(mirrored_path(source, root)) },
                    Job::Copy { from: source, to: mirrored_path(source, root) },
                ],
                notices: Seq::empty(),
                failure: None,
            },
        ),
{
    let target = mirrored_path(source, root);
    let dest = containing_dir(target);
    lemma_mirrored_path_keeps_name(source, root);
    lemma_name_start(target);
    assert(join_path(dest, final_segment(source)) =~= target);
    let walk = initial_walk(source, EntryKind::RegularFile, root).unwrap();
    assert(walk.tasks =~= seq![
        Job::CreateDir { dir: dest },
        Job::Copy { from: source, to: target },
    ]);
}

/// A regular file found in the absolute directory `dir` under the name `name`
/// is copied to the mirrored location of its own path.
pub proof fn lemma_listed_file_lands_at_mirrored_path(
    dir: Seq<char>,
    name: Seq<char>,
    root: Seq<char>,
)
    requires
        is_absolute_path(dir),
        names_entry(name),
        forall|i: int| 0 <= i < name.len() ==> name[i] != separator(),
    ensures
        entry_jobs(
            EntryModel {
                path: join_path(dir, name),
                kind: EntryKind::RegularFile,
                same_as_parent: false,
            },
            mirrored_path(dir, root),
            root,
        ) == seq![
            Job::Copy {
                from: join_path(dir, name),
                to: mirrored_path(join_path(dir, name), root),
            },
        ],
{
    lemma_final_segment_of_child(dir, name);
    lemma_child_lands_at_its_mirrored_path(dir, name, root);
}

/// The tasks of a listing are the tasks of its front part followed by those
/// of its back part, and so are its notices.
pub proof fn lemma_listing_splits(
    front: Seq<EntryModel>,
    back: Seq<EntryModel>,
    dest: Seq<char>,
    root: Seq<char>,
)
    ensures
        listing_jobs(front + back, dest, root) == listing_jobs(front, dest, root) + listing_jobs(
            back,
            dest,
            root,
        ),
        listing_notices(front + back) == listing_notices(front) + listing_notices(back),
    decreases back.len(),
{
    if back.len() == 0 {
        assert(front + back =~= front);
        assert(listing_jobs(front, dest, root) + listing_jobs(back, dest, root) =~= listing_jobs(
            front,
            dest,
            root,
        ));
        assert(listing_notices(front) + listing_notices(back) =~= listing_notices(front));
    } else {
        lemma_listing_splits(front, back.drop_last(), dest, root);
        assert((front + back).drop_last() =~= front + back.drop_last());
        assert((front + back).last() == back.last());
        assert(listing_jobs(front + back, dest, root) =~= listing_jobs(front, dest, root)
            + listing_jobs(back, dest, root));
        assert(listing_notices(front + back) =~= listing_notices(front) + listing_notices(back));
    }
}

/// A child that is the listed directory itself, reached through links, is
/// passed over in silence: the listing gives the tasks and notices that it
/// would give without that child, so every sibling is still served.
pub proof fn lemma_self_link_is_passed_over(
    before: Seq<EntryModel>,
    link: EntryModel,
    after: Seq<EntryModel>,
    dest: Seq<char>,
    root: Seq<char>,
)
    requires
        link.kind == EntryKind::Directory,
        link.same_as_parent,
    ensures
        listing_jobs(before + seq![link] + after, dest, root) == listing_jobs(
            before + after,
            dest,
            root,
        ),
        listing_notices(before + seq![link] + after) == listing_notices(before + after),
{
    let single = seq![link];
    assert(single.drop_last() =~= Seq::<EntryModel>::empty());
    assert(single.last() == link);
    assert(listing_jobs(single.drop_last(), dest, root) =~= Seq::<Job>::empty());
    assert(listing_notices(single.drop_last()) =~= Seq::<NoticeModel>::empty());
    assert(entry_jobs(link, dest, root) =~= Seq::<Job>::empty());
    assert(entry_notices(link) =~= Seq::<NoticeModel>::empty());
    assert(listing_jobs(single, dest, root) =~= Seq::<Job>::empty());
    assert(listing_notices(single) =~= Seq::<NoticeModel>::empty());
    lemma_listing_splits(before, single, dest, root);
    lemma_listing_splits(before + single, after, dest, root);
    lemma_listing_splits(before, after, dest, root);
    assert(listing_jobs(before + single + after, dest, root) =~= listing_jobs(
        before + after,
        dest,
        root,
    ));
    assert(listing_notices(before + single + after) =~= listing_notices(before + after));
}

/// A copy that failed is recorded in exactly one notice, and the walk goes
/// on with every other task it owed, without a failure of its own.
pub proof fn lemma_failed_copy_is_isolated(s: MirrorModel)
    requires
        s.tasks.len() > 0,
        s.tasks[0] is Copy,
    ensures
        step(s, OutcomeModel::Failed).tasks == s.tasks.remove(0),
        step(s, OutcomeModel::Failed).notices == s.notices.push(
            NoticeModel { kind: NoticeKind::CopyFailed, path: s.tasks[0]->from },
        ),
        step(s, OutcomeModel::Failed).failure == s.failure,
        step(s, OutcomeModel::Failed).root == s.root,
{
    let next = step(s, OutcomeModel::Failed);
    assert(next.tasks =~= s.tasks.remove(0));
    assert(next.notices =~= s.notices.push(
        NoticeModel { kind: NoticeKind::CopyFailed, path: s.tasks[0]->from },
    ));
}

/// A directory that cannot be created, or cannot be listed, ends the walk:
/// no task is left and the failure is recorded.
pub proof fn lemma_structural_failure_stops(s: MirrorModel)
    requires
        s.tasks.len() > 0,
        !(s.tasks[0] is Copy),
    ensures
        step(s, OutcomeModel::Failed).tasks.len() == 0,
        step(s, OutcomeModel::Failed).failure == Some(
            if s.tasks[0] is CreateDir {
                MirrorError::CreateDirFailed
            } else {
                MirrorError::ListFailed
            },
        ),
        step(s, OutcomeModel::Failed).notices == s.notices,
{
}

proof fn lemma_prefix_chain(a: Seq<char>, b: Seq<char>, c: Seq<char>)
    requires
        a.is_prefix_of(b),
        b.is_prefix_of(c),
    ensures
        a.is_prefix_of(c),
{
    assert(a =~= c.subrange(0, a.len() as int)) by {
        assert(a =~= b.subrange(0, a.len() as int));
        assert(b =~= c.subrange(0, b.len() as int));
    }
}

proof fn lemma_entry_writes_under_root(entry: EntryModel, dest: Seq<char>, root: Seq<char>)
    requires
        root.is_prefix_of(dest),
    ensures
        forall|i: int|
            0 <= i < entry_jobs(entry, dest, root).len() ==> writes_under(
                root,
                #[trigger] entry_jobs(entry, dest, root)[i],
            ),
{
    lemma_mirrored_path_is_under_root(entry.path, root);
    let to = join_path(dest, final_segment(entry.path));
    lemma_join_keeps_base(dest, final_segment(entry.path));
    lemma_prefix_chain(root, dest, to);
}

proof fn lemma_listing_writes_under_root(entries: Seq<EntryModel>, dest: Seq<char>, root: Seq<char>)
    requires
        root.is_prefix_of(dest),
    ensures
        forall|i: int|
            0 <= i < listing_jobs(entries, dest, root).len() ==> writes_under(
                root,
                #[trigger] listing_jobs(entries, dest, root)[i],
            ),
    decreases entries.len(),
{
    if entries.len() > 0 {
        lemma_listing_writes_under_root(entries.drop_last(), dest, root);
        lemma_entry_writes_under_root(entries.last(), dest, root);
        let front = listing_jobs(entries.drop_last(), dest, root);
        let back = entry_jobs(entries.last(), dest, root);
        let all = listing_jobs(entries, dest, root);
        assert(all == front + back);
        assert forall|i: int| 0 <= i < all.len() implies writes_under(root, #[trigger] all[i]) by {
            if i < front.len() {
                assert(all[i] == front[i]);
            } else {
                assert(all[i] == back[i - front.len()]);
            }
        }
    }
}

/// A walk begins with tasks that write below its staging root only.
pub proof fn lemma_initial_walk_stays_under_root(source: Seq<char>, kind: EntryKind, root: Seq<char>)
    requires
        initial_walk(source, kind, root) is Ok,
    ensures
        stays_under_root(initial_walk(source, kind, root)->Ok_0),
        (initial_walk(source, kind, root)->Ok_0).root == root,
{
    let target = mirrored_path(source, root);
    lemma_mirrored_path_is_under_root(source, root);
    lemma_mirrored_path_keeps_name(source, root);
    let entry = EntryModel { path: source, kind, same_as_parent: false };
    lemma_entry_writes_under_root(entry, containing_dir(target), root);
}

/// Whatever the caller reports, a walk whose tasks write below its staging
/// root goes on to tasks that write below that root: nothing outside the
/// staging tree is ever created or written.
pub proof fn lemma_step_stays_under_root(s: MirrorModel, outcome: OutcomeModel)
    requires
        stays_under_root(s),
    ensures
        stays_under_root(step(s, outcome)),
        step(s, outcome).root == s.root,
{
    let next = step(s, outcome);
    if s.tasks.len() > 0 {
        let rest = s.tasks.remove(0);
        assert forall|i: int| 0 <= i < rest.len() implies writes_under(s.root, #[trigger] rest[i]) by {
            assert(rest[i] == s.tasks[i + 1]);
        }
        match (s.tasks[0], outcome) {
            (Job::List { dir }, OutcomeModel::Listed(entries)) => {
                let dest = mirrored_path(dir, s.root);
                lemma_mirrored_path_is_under_root(dir, s.root);
                lemma_listing_writes_under_root(entries, dest, s.root);
                let more = listing_jobs(entries, dest, s.root);
                assert forall|i: int| 0 <= i < next.tasks.len() implies writes_under(
                    s.root,
                    #[trigger] next.tasks[i],
                ) by {
                    if i < more.len() {
                        assert(next.tasks[i] == more[i]);
                    } else {
                        assert(next.tasks[i] == rest[i - more.len()]);
                    }
                }
            },
            _ => {
                assert forall|i: int| 0 <= i < next.tasks.len() implies writes_under(
                    s.root,
                    #[trigger] next.tasks[i],
                ) by {
                    if next.tasks.len() == rest.len() {
                        assert(next.tasks =~= rest);
                    }
                }
            },
        }
    }
}

/// A task is faithful when it copies a file to the mirrored location of that
/// file's own path, or lists a directory whose path is absolute. Creating a
/// directory is always faithful.
pub open spec fn faithful(root: Seq<char>, job: Job) -> bool {
    match job {
        Job::CreateDir { .. } => true,
        Job::List { dir } => is_absolute_path(dir),
        Job::Copy { from, to } => to == mirrored_path(from, root),
    }
}

/// Every task that the walk still owes is faithful.
pub open spec fn mirrors_faithfully(s: MirrorModel) -> bool {
    forall|i: int| 0 <= i < s.tasks.len() ==> faithful(s.root, #[trigger] s.tasks[i])
}

/// The path of `entry` is the listed directory `dir` followed by one more
/// segment.
pub open spec fn child_of(dir: Seq<char>, entry: EntryModel) -> bool {
    entry.path == join_path(dir, final_segment(entry.path))
}

/// A listing is honest when it answers a task that lists `dir` with children
/// of `dir` only. Any other outcome is honest.
pub open spec fn honest(s: MirrorModel, outcome: OutcomeModel) -> bool {
    match outcome {
        OutcomeModel::Listed(entries) => s.tasks.len() > 0 && s.tasks[0] is List ==> forall|
            i: int,
        |
            0 <= i < entries.len() ==> child_of(s.tasks[0]->List_dir, #[trigger] entries[i]),
        _ => true,
    }
}

proof fn lemma_entry_is_faithful(entry: EntryModel, dir: Seq<char>, root: Seq<char>)
    requires
        is_absolute_path(dir),
        child_of(dir, entry),
    ensures
        forall|i: int|
            0 <= i < entry_jobs(entry, mirrored_path(dir, root), root).len() ==> faithful(
                root,
                #[trigger] entry_jobs(entry, mirrored_path(dir, root), root)[i],
            ),
{
    let name = final_segment(entry.path);
    lemma_name_start(entry.path);
    assert(join_path(dir, name)[0] == dir[0]);
    if names_entry(name) {
        assert(name[0] != separator()) by {
            assert(name[0] == entry.path[name_start(entry.path)]);
        }
        lemma_child_lands_at_its_mirrored_path(dir, name, root);
    }
}

proof fn lemma_listing_is_faithful(entries: Seq<EntryModel>, dir: Seq<char>, root: Seq<char>)
    requires
        is_absolute_path(dir),
        forall|i: int| 0 <= i < entries.len() ==> child_of(dir, #[trigger] entries[i]),
    ensures
        forall|i: int|
            0 <= i < listing_jobs(entries, mirrored_path(dir, root), root).len() ==> faithful(
                root,
                #[trigger] listing_jobs(entries, mirrored_path(dir, root), root)[i],
            ),
    decreases entries.len(),
{
    if entries.len() > 0 {
        let dest = mirrored_path(dir, root);
        let shorter = entries.drop_last();
        assert forall|i: int| 0 <= i < shorter.len() implies child_of(dir, #[trigger] shorter[i]) by {
            assert(shorter[i] == entries[i]);
        }
        lemma_listing_is_faithful(shorter, dir, root);
        lemma_entry_is_faithful(entries.last(), dir, root);
        let front = listing_jobs(shorter, dest, root);
        let back = entry_jobs(entries.last(), dest, root);
        let all = listing_jobs(entries, dest, root);
        assert(all == front + back);
        assert forall|i: int| 0 <= i < all.len() implies faithful(root, #[trigger] all[i]) by {
            if i < front.len() {
                assert(all[i] == front[i]);
            } else {
                assert(all[i] == back[i - front.len()]);
            }
        }
    }
}

/// A walk begins with faithful tasks: a source file is copied to its own
/// mirrored location, and a source directory is listed under its absolute
/// path.
pub proof fn lemma_initial_walk_mirrors_faithfully(
    source: Seq<char>,
    kind: EntryKind,
    root: Seq<char>,
)
    requires
        initial_walk(source, kind, root) is Ok,
    ensures
        mirrors_faithfully(initial_walk(source, kind, root)->Ok_0),
{
    if kind == EntryKind::RegularFile && names_entry(final_segment(source)) {
        lemma_source_file_lands_at_mirrored_path(source, root);
    }
}

/// As long as every listing holds children of the listed directory only, a
/// walk of faithful tasks goes on to faithful tasks. So at any depth below an
/// absolute source, whatever is copied lands at the staging root followed by
/// its own path without the root component.
pub proof fn lemma_step_mirrors_faithfully(s: MirrorModel, outcome: OutcomeModel)
    requires
        mirrors_faithfully(s),
        honest(s, outcome),
    ensures
        mirrors_faithfully(step(s, outcome)),
{
    let next = step(s, outcome);
    if s.tasks.len() > 0 {
        let rest = s.tasks.remove(0);
        assert forall|i: int| 0 <= i < rest.len() implies faithful(s.root, #[trigger] rest[i]) by {
            assert(rest[i] == s.tasks[i + 1]);
        }
        match (s.tasks[0], outcome) {
            (Job::List { dir }, OutcomeModel::Listed(entries)) => {
                assert(faithful(s.root, s.tasks[0]));
                lemma_listing_is_faithful(entries, dir, s.root);
                let more = listing_jobs(entries, mirrored_path(dir, s.root), s.root);
                assert forall|i: int| 0 <= i < next.tasks.len() implies faithful(
                    s.root,
                    #[trigger] next.tasks[i],
                ) by {
                    if i < more.len() {
                        assert(next.tasks[i] == more[i]);
                    } else {
                        assert(next.tasks[i] == rest[i - more.len()]);
                    }
                }
            },
            _ => {
                assert forall|i: int| 0 <= i < next.tasks.len() implies faithful(
                    s.root,
                    #[trigger] next.tasks[i],
                ) by {
                    if next.tasks.len() == rest.len() {
                        assert(next.tasks =~= rest);
                    }
                }
            },
        }
    }
}

} // verus!
