//! Why a mirror walk comes to an end: over a file tree without cycles other
//! than links from a directory back to itself, every answered task lowers a
//! bound on the tasks that are still to come.

use vstd::prelude::*;
use crate::mirror::{
    entry_jobs, listing_jobs, step, EntryKind, EntryModel, Job, MirrorModel, OutcomeModel,
};
use crate::path::mirrored_path;

verus! {

/// Whether the walk goes down into `entry`: a directory other than the
/// listed one itself.
pub open spec fn descends(entry: EntryModel) -> bool {
    entry.kind == EntryKind::Directory && !entry.same_as_parent
}

/// The tree that `tree` shows is free of cycles, but for links from a
/// directory back to itself: `depth` falls from every directory to each
/// directory that listing shows in it.
pub open spec fn free_of_cycles(
    tree: spec_fn(Seq<char>) -> Seq<EntryModel>,
    depth: spec_fn(Seq<char>) -> nat,
) -> bool {
    forall|dir: Seq<char>, i: int|
        0 <= i < tree(dir).len() && descends(#[trigger] tree(dir)[i]) ==> depth(tree(dir)[i].path)
            < depth(dir)
}

/// A bound on the tasks that listing `dir` and serving its first `n`
/// children takes, the listing itself counted.
pub open spec fn visit_cost(
    tree: spec_fn(Seq<char>) -> Seq<EntryModel>,
    depth: spec_fn(Seq<char>) -> nat,
    dir: Seq<char>,
    n: nat,
) -> nat
    decreases depth(dir), n,
{
    if n == 0 {
        1
    } else {
        let entry = tree(dir)[n - 1];
        let before = visit_cost(tree, depth, dir, (n - 1) as nat);
        if descends(entry) && depth(entry.path) < depth(dir) {
            before + 1 + visit_cost(tree, depth, entry.path, tree(entry.path).len())
        } else if entry.kind == EntryKind::RegularFile {
            before + 1
        } else {
            before
        }
    }
}

/// A bound on the tasks that `job` takes, itself counted.
pub open spec fn job_cost(
    tree: spec_fn(Seq<char>) -> Seq<EntryModel>,
    depth: spec_fn(Seq<char>) -> nat,
    job: Job,
) -> nat {
    match job {
        Job::List { dir } => visit_cost(tree, depth, dir, tree(dir).len()),
        _ => 1,
    }
}

/// A bound on the tasks that a walk owing `tasks` still takes.
pub open spec fn remaining(
    tree: spec_fn(Seq<char>) -> Seq<EntryModel>,
    depth: spec_fn(Seq<char>) -> nat,
    tasks: Seq<Job>,
) -> nat
    decreases tasks.len(),
{
    if tasks.len() == 0 {
        0
    } else {
        remaining(tree, depth, tasks.drop_last()) + job_cost(tree, depth, tasks.last())
    }
}

/// Whether `outcome` is what a caller may see on performing the first task
/// of `s` in the tree that `tree` shows: any directory can fail to be created
/// or listed and any copy can fail, but a listing that succeeds shows what
/// the tree holds.
pub open spec fn answers(
    tree: spec_fn(Seq<char>) -> Seq<EntryModel>,
    s: MirrorModel,
    outcome: OutcomeModel,
) -> bool {
    s.tasks.len() > 0 && match (s.tasks[0], outcome) {
        (Job::List { dir }, OutcomeModel::Listed(entries)) => entries == tree(dir),
        (Job::List { .. }, OutcomeModel::Failed) => true,
        (Job::List { .. }, OutcomeModel::Done) => false,
        (_, OutcomeModel::Listed(_)) => false,
        _ => true,
    }
}

proof fn lemma_visit_costs(
    tree: spec_fn(Seq<char>) -> Seq<EntryModel>,
    depth: spec_fn(Seq<char>) -> nat,
    dir: Seq<char>,
    n: nat,
)
    ensures
        visit_cost(tree, depth, dir, n) >= 1,
    decreases n,
{
    if n > 0 {
        lemma_visit_costs(tree, depth, dir, (n - 1) as nat);
    }
}

proof fn lemma_remaining_adds_up(
    tree: spec_fn(Seq<char>) -> Seq<EntryModel>,
    depth: spec_fn(Seq<char>) -> nat,
    front: Seq<Job>,
    back: Seq<Job>,
)
    ensures
        remaining(tree, depth, front + back) == remaining(tree, depth, front) + remaining(
            tree,
            depth,
            back,
        ),
    decreases back.len(),
{
    if back.len() == 0 {
        assert(front + back =~= front);
    } else {
        lemma_remaining_adds_up(tree, depth, front, back.drop_last());
        assert((front + back).drop_last() =~= front + back.drop_last());
        assert((front + back).last() == back.last());
    }
}

proof fn lemma_remaining_of_one(
    tree: spec_fn(Seq<char>) -> Seq<EntryModel>,
    depth: spec_fn(Seq<char>) -> nat,
    job: Job,
)
    ensures
        remaining(tree, depth, seq![job]) == job_cost(tree, depth, job),
{
    let one = seq![job];
    assert(one.drop_last() =~= Seq::<Job>::empty());
    assert(remaining(tree, depth, one.drop_last()) == 0);
    assert(one.last() == job);
}

proof fn lemma_listing_is_within_its_cost(
    tree: spec_fn(Seq<char>) -> Seq<EntryModel>,
    depth: spec_fn(Seq<char>) -> nat,
    dir: Seq<char>,
    n: nat,
    dest: Seq<char>,
    root: Seq<char>,
)
    requires
        free_of_cycles(tree, depth),
        n <= tree(dir).len(),
    ensures
        remaining(tree, depth, listing_jobs(tree(dir).take(n as int), dest, root)) + 1
            <= visit_cost(tree, depth, dir, n),
    decreases n,
{
    let shown = tree(dir).take(n as int);
    if n == 0 {
        assert(listing_jobs(shown, dest, root) =~= Seq::<Job>::empty());
    } else {
        let entry = tree(dir)[n - 1];
        lemma_listing_is_within_its_cost(tree, depth, dir, (n - 1) as nat, dest, root);
        assert(shown.drop_last() =~= tree(dir).take(n - 1));
        assert(shown.last() == entry);
        let front = listing_jobs(shown.drop_last(), dest, root);
        let back = entry_jobs(entry, dest, root);
        lemma_remaining_adds_up(tree, depth, front, back);
        if descends(entry) {
            let create = Job::CreateDir { dir: mirrored_path(entry.path, root) };
            let list = Job::List { dir: entry.path };
            assert(back =~= seq![create] + seq![list]);
            lemma_remaining_adds_up(tree, depth, seq![create], seq![list]);
            lemma_remaining_of_one(tree, depth, create);
            lemma_remaining_of_one(tree, depth, list);
            assert(depth(entry.path) < depth(dir));
        } else if back.len() == 0 {
            assert(remaining(tree, depth, back) == 0);
        } else {
            assert(back =~= seq![back[0]]);
            lemma_remaining_of_one(tree, depth, back[0]);
        }
    }
}

/// Over a tree that is free of cycles, every answered task lowers the bound
/// on the tasks still to come. The bound is a natural number, so the walk
/// comes to an end, whatever fails on the way and however directories link
/// back to themselves.
pub proof fn lemma_walk_comes_to_an_end(
    tree: spec_fn(Seq<char>) -> Seq<EntryModel>,
    depth: spec_fn(Seq<char>) -> nat,
    s: MirrorModel,
    outcome: OutcomeModel,
)
    requires
        free_of_cycles(tree, depth),
        answers(tree, s, outcome),
    ensures
        remaining(tree, depth, step(s, outcome).tasks) < remaining(tree, depth, s.tasks),
{
    let first = s.tasks[0];
    let rest = s.tasks.remove(0);
    assert(s.tasks =~= seq![first] + rest);
    lemma_remaining_adds_up(tree, depth, seq![first], rest);
    lemma_remaining_of_one(tree, depth, first);
    match (first, outcome) {
        (Job::List { dir }, OutcomeModel::Listed(entries)) => {
            let dest = mirrored_path(dir, s.root);
            let more = listing_jobs(entries, dest, s.root);
            assert(tree(dir).take(tree(dir).len() as int) =~= tree(dir));
            lemma_listing_is_within_its_cost(tree, depth, dir, tree(dir).len(), dest, s.root);
            lemma_remaining_adds_up(tree, depth, more, rest);
        },
        (Job::List { dir }, _) => {
            lemma_visit_costs(tree, depth, dir, tree(dir).len());
            assert(remaining(tree, depth, Seq::<Job>::empty()) == 0);
        },
        (Job::CreateDir { .. }, OutcomeModel::Failed) => {
            assert(remaining(tree, depth, Seq::<Job>::empty()) == 0);
        },
        _ => {
            assert(step(s, outcome).tasks =~= rest);
        },
    }
}

} // verus!
