//! Paths as text: separators, the root component, joining and the final
//! segment.

use vstd::prelude::*;
use vstd::string::*;

verus! {

/// The character that separates the segments of a path.
pub open spec fn separator() -> char {
    '/'
}

/// A path is absolute when it begins at the filesystem root.
pub open spec fn is_absolute_path(p: Seq<char>) -> bool {
    p.len() > 0 && p[0] == separator()
}

/// `p` without its root component, that is without every leading separator.
pub open spec fn strip_root(p: Seq<char>) -> Seq<char>
    decreases p.len(),
{
    if p.len() > 0 && p[0] == separator() {
        strip_root(p.skip(1))
    } else {
        p
    }
}

/// `rel` placed below `base`: one separator is put between the two unless
/// `base` is empty or already ends in one.
pub open spec fn join_path(base: Seq<char>, rel: Seq<char>) -> Seq<char> {
    if base.len() == 0 || base.last() == separator() {
        base + rel
    } else {
        base + seq![separator()] + rel
    }
}

/// Where the entry at `source` lands below the staging root `root`.
pub open spec fn mirrored_path(source: Seq<char>, root: Seq<char>) -> Seq<char> {
    join_path(root, strip_root(source))
}

/// The index at which the final segment of `p` begins: just behind the last
/// separator, or 0 where `p` holds none.
pub open spec fn name_start(p: Seq<char>) -> int
    decreases p.len(),
{
    if p.len() == 0 || p.last() == separator() {
        p.len() as int
    } else {
        name_start(p.drop_last())
    }
}

/// The text behind the last separator of `p`.
pub open spec fn final_segment(p: Seq<char>) -> Seq<char> {
    p.skip(name_start(p))
}

/// Everything of `p` up to and including its last separator.
pub open spec fn containing_dir(p: Seq<char>) -> Seq<char> {
    p.take(name_start(p))
}

/// A final segment names an entry unless it is empty, `.` or `..`.
pub open spec fn names_entry(segment: Seq<char>) -> bool {
    segment.len() > 0 && segment != seq!['.'] && segment != seq!['.', '.']
}

/// The root component is gone after stripping, and nothing else is.
pub proof fn lemma_strip_root_is_suffix(p: Seq<char>)
    ensures
        !is_absolute_path(strip_root(p)),
        strip_root(p).len() <= p.len(),
        strip_root(p) == p.skip(p.len() - strip_root(p).len()),
        forall|i: int| 0 <= i < p.len() - strip_root(p).len() ==> p[i] == separator(),
    decreases p.len(),
{
    if p.len() > 0 && p[0] == separator() {
        let q = p.skip(1);
        lemma_strip_root_is_suffix(q);
        let k = q.len() - strip_root(q).len();
        assert(q.skip(k) =~= p.skip(k + 1));
        assert forall|i: int| 0 <= i < p.len() - strip_root(p).len() implies p[i] == separator() by {
            if i > 0 {
                assert(p[i] == q[i - 1]);
            }
        }
    } else {
        assert(p.skip(0) =~= p);
    }
}

/// `name_start` lies inside `p`, sits just behind a separator, and no
/// separator follows it.
pub proof fn lemma_name_start(p: Seq<char>)
    ensures
        0 <= name_start(p) <= p.len(),
        name_start(p) > 0 ==> p[name_start(p) - 1] == separator(),
        forall|i: int| name_start(p) <= i < p.len() ==> p[i] != separator(),
        containing_dir(p) + final_segment(p) == p,
    decreases p.len(),
{
    if p.len() == 0 || p.last() == separator() {
    } else {
        let q = p.drop_last();
        lemma_name_start(q);
        assert forall|i: int| name_start(p) <= i < p.len() implies p[i] != separator() by {
            if i < q.len() {
                assert(p[i] == q[i]);
            }
        }
    }
    assert(containing_dir(p) + final_segment(p) =~= p);
}

/// Joining never loses the base: the result begins with it.
pub proof fn lemma_join_keeps_base(base: Seq<char>, rel: Seq<char>)
    ensures
        base.is_prefix_of(join_path(base, rel)),
{
    assert(join_path(base, rel).take(base.len() as int) =~= base);
}

/// Two relative paths joined below one base meet only where they are equal.
pub proof fn lemma_join_is_injective(base: Seq<char>, a: Seq<char>, b: Seq<char>)
    requires
        join_path(base, a) == join_path(base, b),
    ensures
        a == b,
{
    let gap: int = if base.len() == 0 || base.last() == separator() {
        0
    } else {
        1
    };
    let start = base.len() + gap;
    assert(join_path(base, a).skip(start) =~= a);
    assert(join_path(base, b).skip(start) =~= b);
}

/// Joining in two steps gives what joining at once gives.
pub proof fn lemma_join_is_associative(base: Seq<char>, mid: Seq<char>, rel: Seq<char>)
    ensures
        join_path(join_path(base, mid), rel) == join_path(base, join_path(mid, rel)),
{
    assert(join_path(join_path(base, mid), rel) =~= join_path(base, join_path(mid, rel)));
}

/// Stripping the root of a child's path gives the child's name below the
/// stripped path of its directory.
pub proof fn lemma_strip_root_of_child(dir: Seq<char>, name: Seq<char>)
    requires
        is_absolute_path(dir),
        !is_absolute_path(name),
    ensures
        strip_root(join_path(dir, name)) == join_path(strip_root(dir), name),
    decreases dir.len(),
{
    let rest = dir.skip(1);
    let child = join_path(dir, name);
    assert(child[0] == separator());
    assert(strip_root(child) == strip_root(child.skip(1)));
    assert(strip_root(dir) == strip_root(rest));
    if is_absolute_path(rest) {
        lemma_strip_root_of_child(rest, name);
        assert(dir.last() == rest.last());
        assert(child.skip(1) =~= join_path(rest, name));
    } else if rest.len() == 0 {
        assert(dir =~= seq![separator()]);
        assert(child.skip(1) =~= name);
        assert(strip_root(rest) =~= rest);
        assert(join_path(rest, name) =~= name);
        assert(strip_root(name) == name);
    } else {
        assert(dir.last() == rest.last());
        assert(child.skip(1) =~= join_path(rest, name));
        assert(join_path(rest, name)[0] == rest[0]);
        assert(strip_root(rest) == rest);
        assert(strip_root(join_path(rest, name)) == join_path(rest, name));
    }
}

/// The mirrored location lies below the staging root, whatever the source.
pub proof fn lemma_mirrored_path_is_under_root(source: Seq<char>, root: Seq<char>)
    ensures
        root.is_prefix_of(mirrored_path(source, root)),
{
    lemma_join_keeps_base(root, strip_root(source));
}

/// An absolute path that begins with a single separator is mirrored at the
/// staging root followed by the path without that separator, however deep the
/// path is. Below a staging root that is not empty and does not end in a
/// separator, that is the root followed by the path as it stands.
pub proof fn lemma_mirrored_path_of_absolute(source: Seq<char>, root: Seq<char>)
    requires
        is_absolute_path(source),
        !is_absolute_path(source.skip(1)),
    ensures
        mirrored_path(source, root) == join_path(root, source.skip(1)),
        root.len() > 0 && root.last() != separator() ==> mirrored_path(source, root) == root
            + source,
{
    assert(strip_root(source.skip(1)) == source.skip(1));
    if root.len() > 0 && root.last() != separator() {
        assert(root + seq![separator()] + source.skip(1) =~= root + source);
    }
}

/// Two sources are mirrored at one location only if they are the same text
/// once their root components are gone.
pub proof fn lemma_mirrored_paths_collide_only_when_equal(
    a: Seq<char>,
    b: Seq<char>,
    root: Seq<char>,
)
    requires
        mirrored_path(a, root) == mirrored_path(b, root),
    ensures
        strip_root(a) == strip_root(b),
{
    lemma_join_is_injective(root, strip_root(a), strip_root(b));
}

/// A child named `name` in the absolute directory `dir`, placed under the
/// mirrored location of `dir`, lands at the mirrored location of the child's
/// own path.
pub proof fn lemma_child_lands_at_its_mirrored_path(
    dir: Seq<char>,
    name: Seq<char>,
    root: Seq<char>,
)
    requires
        is_absolute_path(dir),
        !is_absolute_path(name),
    ensures
        join_path(mirrored_path(dir, root), name) == mirrored_path(join_path(dir, name), root),
{
    lemma_strip_root_of_child(dir, name);
    lemma_join_is_associative(root, strip_root(dir), name);
}

/// A name without a separator is the final segment of its path below any
/// directory.
pub proof fn lemma_final_segment_of_child(dir: Seq<char>, name: Seq<char>)
    requires
        forall|i: int| 0 <= i < name.len() ==> name[i] != separator(),
    ensures
        final_segment(join_path(dir, name)) == name,
        containing_dir(join_path(dir, name)) + name == join_path(dir, name),
    decreases name.len(),
{
    let p = join_path(dir, name);
    if name.len() == 0 {
        assert(p.len() == 0 || p.last() == separator());
        assert(final_segment(p) =~= name);
    } else {
        let shorter = name.drop_last();
        lemma_final_segment_of_child(dir, shorter);
        assert(p.drop_last() =~= join_path(dir, shorter));
        assert(p.last() == name.last());
        lemma_name_start(p.drop_last());
        assert(name_start(p) == name_start(p.drop_last()));
        assert(final_segment(p) =~= final_segment(p.drop_last()).push(p.last()));
        assert(shorter.push(name.last()) =~= name);
    }
    lemma_name_start(p);
}

/// Text in front of a path that is empty or ends in a separator moves the
/// start of the final segment by its length and leaves the segment as it is.
pub proof fn lemma_name_start_after_prefix(front: Seq<char>, p: Seq<char>)
    requires
        front.len() == 0 || front.last() == separator(),
    ensures
        name_start(front + p) == front.len() + name_start(p),
        final_segment(front + p) == final_segment(p),
    decreases p.len(),
{
    let whole = front + p;
    if p.len() == 0 {
        assert(whole =~= front);
    } else if p.last() == separator() {
        assert(whole.last() == p.last());
    } else {
        assert(whole.last() == p.last());
        assert(whole.drop_last() =~= front + p.drop_last());
        lemma_name_start_after_prefix(front, p.drop_last());
    }
    lemma_name_start(p);
    assert(final_segment(whole) =~= final_segment(p));
}

/// The mirrored location ends in the final segment of the source, and its
/// directory part lies below the staging root.
pub proof fn lemma_mirrored_path_keeps_name(source: Seq<char>, root: Seq<char>)
    ensures
        final_segment(mirrored_path(source, root)) == final_segment(source),
        root.is_prefix_of(containing_dir(mirrored_path(source, root))),
{
    let rel = strip_root(source);
    lemma_strip_root_is_suffix(source);
    let lead = source.take(source.len() - rel.len());
    assert(lead + rel =~= source);
    lemma_name_start_after_prefix(lead, rel);
    let front = if root.len() == 0 || root.last() == separator() {
        root
    } else {
        root + seq![separator()]
    };
    assert(front + rel =~= mirrored_path(source, root));
    lemma_name_start_after_prefix(front, rel);
    lemma_name_start(rel);
    assert(containing_dir(mirrored_path(source, root)).take(root.len() as int) =~= root);
}

/// Tells whether `path` begins at the filesystem root.
pub fn is_absolute(path: &str) -> (b: bool)
    ensures
        b == is_absolute_path(path@),
{
    path.unicode_len() > 0 && path.get_char(0) == '/'
}

/// The number of separators that `path` begins with.
fn root_len(path: &str) -> (k: usize)
    ensures
        k <= path@.len(),
        strip_root(path@) == path@.skip(k as int),
{
    let n: usize = path.unicode_len();
    let mut k: usize = 0;
    proof {
        assert(path@.skip(0) =~= path@);
    }
    while k < n && path.get_char(k) == '/'
        invariant
            k <= n,
            n == path@.len(),
            strip_root(path@) == strip_root(path@.skip(k as int)),
        decreases n - k,
    {
        proof {
            assert(path@.skip(k as int).skip(1) =~= path@.skip(k + 1));
        }
        k = k + 1;
    }
    k
}

/// The path at which `source_path` is mirrored below `backup_folder_path`:
/// the root component of the source is dropped and the rest is placed under
/// the staging root.
pub fn build_full_backup_path(source_path: &str, backup_folder_path: &str) -> (full: String)
    ensures
        full@ == mirrored_path(source_path@, backup_folder_path@),
{
    let k: usize = root_len(source_path);
    let relative: &str = source_path.substring_char(k, source_path.unicode_len());
    join(backup_folder_path, relative)
}

/// Places `rel` below `base`.
pub fn join(base: &str, rel: &str) -> (joined: String)
    ensures
        joined@ == join_path(base@, rel@),
{
    let n: usize = base.unicode_len();
    let mut joined: String = String::from_str(base);
    if n > 0 && base.get_char(n - 1) != '/' {
        proof {
            reveal_strlit("/");
            assert("/"@ =~= seq![separator()]);
        }
        joined.append("/");
    }
    joined.append(rel);
    joined
}

/// The index at which the final segment of `path` begins.
fn final_segment_start(path: &str) -> (k: usize)
    ensures
        k == name_start(path@),
        k <= path@.len(),
{
    let n: usize = path.unicode_len();
    let mut k: usize = n;
    proof {
        assert(path@.take(n as int) =~= path@);
    }
    while k > 0 && path.get_char(k - 1) != '/'
        invariant
            k <= n,
            n == path@.len(),
            name_start(path@) == name_start(path@.take(k as int)),
        decreases k,
    {
        proof {
            assert(path@.take(k as int).drop_last() =~= path@.take(k - 1));
        }
        k = k - 1;
    }
    k
}

/// The final segment of `path`, where it names an entry.
pub fn file_name(path: &str) -> (name: Option<String>)
    ensures
        name.is_some() == names_entry(final_segment(path@)),
        name.is_some() ==> name.unwrap()@ == final_segment(path@),
{
    let n: usize = path.unicode_len();
    let k: usize = final_segment_start(path);
    let segment: &str = path.substring_char(k, n);
    let len: usize = n - k;
    if len == 0 {
        return None;
    }
    if len == 1 && segment.get_char(0) == '.' {
        proof {
            assert(segment@ =~= seq!['.']);
        }
        return None;
    }
    if len == 2 && segment.get_char(0) == '.' && segment.get_char(1) == '.' {
        proof {
            assert(segment@ =~= seq!['.', '.']);
        }
        return None;
    }
    Some(String::from_str(segment))
}

/// The directory part of `path`: everything up to and including its last
/// separator.
pub fn directory_of(path: &str) -> (dir: String)
    ensures
        dir@ == containing_dir(path@),
{
    let k: usize = final_segment_start(path);
    String::from_str(path.substring_char(0, k))
}

} // verus!
