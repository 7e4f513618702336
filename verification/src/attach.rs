//! The remote-attach picker: the bounded walk over the configured root
//! folders, and the rule that decides which files may be read.
//!
//! The walk is a state machine. It asks for the listing of a directory
//! ([`WalkStep::ReadDir`]), the caller reads the directory and hands the
//! listing back ([`AttachWalk::feed_listing`]), and so on until
//! [`WalkStep::Done`]. Children are visited depth-first, files before
//! directories, each in name order;
//! hidden entries and symbolic links are skipped, noise directories such as
//! `node_modules` are listed but not entered, and the walk never returns more
//! than its cap of entries.

use vstd::prelude::*;

use crate::models::{AttachFileEntry, EntryView};
use crate::paths::{join, lemma_join_extends, spec_join};
use crate::text::{chars_of, opt_view, spec_starts_with, str_eq};

verus! {

broadcast use {vstd::seq_lib::group_to_multiset_ensures, vstd::multiset::group_multiset_axioms};

/// Soft cap on the number of entries a single walk can return.
pub const MAX_ENTRIES: usize = 50000;

/// What `symlink_metadata` says a directory child is; `Unreadable` when it
/// could not be read.
#[derive(Debug, Clone, Copy, PartialEq, Eq, Structural)]
pub enum EntryKind {
    File,
    Dir,
    Symlink,
    Other,
    Unreadable,
}

/// What the picker records of a path: its final component (`None` when the
/// path has none, as `/`), the path itself, whether it is a directory, and
/// its length in bytes when its metadata could be read.
#[derive(Debug)]
pub struct PathInfo {
    pub file_name: Option<String>,
    pub path: String,
    pub is_dir: bool,
    pub len: Option<u64>,
}

/// One child of a directory listing. `name_is_utf8` is false when the file
/// name is not valid UTF-8 (`name` then holds its lossy form); `name_bytes`
/// are the name's bytes as the file system holds them, which order the
/// children. Its path is the listed directory's joined with `name`.
#[derive(Debug)]
pub struct DirChild {
    pub name: String,
    pub name_is_utf8: bool,
    pub name_bytes: Vec<u8>,
    pub kind: EntryKind,
    pub len: Option<u64>,
}

/// The next thing the walk needs.
#[derive(Debug)]
pub enum WalkStep {
    /// List the directory at this path and pass the listing to
    /// [`AttachWalk::feed_listing`].
    ReadDir(String),
    /// The walk of the current root is over.
    Done,
}

// ---------------------------------------------------------------------------
// Specifications
// ---------------------------------------------------------------------------

/// The entry recorded for a path: named by its final component (or the
/// whole path), with size 0 for a directory and the metadata length (or 0)
/// for anything else.
pub open spec fn spec_entry_for(info: PathInfo) -> AttachFileEntry {
    AttachFileEntry {
        name: match info.file_name {
            Some(n) => n,
            None => info.path,
        },
        path: info.path,
        is_dir: info.is_dir,
        size: if info.is_dir {
            0
        } else {
            match info.len {
                Some(l) => l,
                None => 0,
            }
        },
    }
}

/// The entry recorded for the child `c` of the directory `dir`: named by
/// its name, at `dir` joined with it, with size 0 for a directory and the
/// metadata length (or 0) for a file.
pub open spec fn spec_child_entry(dir: Seq<char>, c: DirChild) -> EntryView {
    EntryView {
        name: c.name@,
        path: spec_join(dir, c.name@),
        is_dir: c.kind is Dir,
        size: if c.kind is Dir {
            0
        } else {
            match c.len {
                Some(l) => l,
                None => 0,
            }
        },
    }
}

/// The entries recorded for children, each with its directory.
pub open spec fn spec_child_entries(cs: Seq<(Seq<char>, DirChild)>) -> Seq<EntryView> {
    cs.map_values(|x: (Seq<char>, DirChild)| spec_child_entry(x.0, x.1))
}

/// The views of entries.
pub open spec fn spec_entry_views(v: Seq<AttachFileEntry>) -> Seq<EntryView> {
    v.map_values(|e: AttachFileEntry| e@)
}

/// A hidden child: a UTF-8 name that starts with `.` and is not `.` itself.
pub open spec fn spec_is_hidden(c: DirChild) -> bool {
    &&& c.name_is_utf8
    &&& c.name@.len() > 0
    &&& c.name@[0] == '.'
    &&& c.name@ != seq!['.']
}

/// Directory names never entered by the walk.
pub open spec fn spec_is_noise_dir_name(n: Seq<char>) -> bool {
    ||| n == ".git"@
    ||| n == "node_modules"@
    ||| n == ".hg"@
    ||| n == ".svn"@
    ||| n == "target"@
    ||| n == "build"@
    ||| n == "dist"@
    ||| n == ".cache"@
    ||| n == ".next"@
    ||| n == ".venv"@
    ||| n == "venv"@
    ||| n == "__pycache__"@
    ||| n == ".DS_Store"@
}

/// A child the walk lists: not hidden, and a plain file or directory
/// (symbolic links and unreadable entries are skipped).
pub open spec fn spec_is_listed(c: DirChild) -> bool {
    &&& !spec_is_hidden(c)
    &&& (c.kind is File || c.kind is Dir)
}

/// A child the walk enters: a listed directory whose name is no noise
/// directory.
pub open spec fn spec_is_entered(c: DirChild) -> bool {
    &&& spec_is_listed(c)
    &&& c.kind is Dir
    &&& !(c.name_is_utf8 && spec_is_noise_dir_name(c.name@))
}

/// Lexicographic order of names by their bytes (as the file system holds
/// them), as `Path` orders them.
pub open spec fn spec_name_le(a: Seq<u8>, b: Seq<u8>) -> bool
    decreases a.len(),
{
    if a.len() == 0 {
        true
    } else if b.len() == 0 {
        false
    } else if a[0] != b[0] {
        a[0] < b[0]
    } else {
        spec_name_le(a.drop_first(), b.drop_first())
    }
}

/// The order of the children of one directory: files (and whatever is no
/// directory) before directories, then by name.
pub open spec fn spec_child_le(a: DirChild, b: DirChild) -> bool {
    if (a.kind is Dir) != (b.kind is Dir) {
        !(a.kind is Dir)
    } else {
        spec_name_le(a.name_bytes@, b.name_bytes@)
    }
}

/// Children in ascending order: files before directories, each by name.
pub open spec fn spec_sorted_children(s: Seq<DirChild>) -> bool {
    forall|i: int, j: int| 0 <= i < j < s.len() ==> spec_child_le(s[i], s[j])
}

/// Each open directory with the children still to visit in it, outermost
/// first; each directory's children in reverse order (the next one
/// last).
pub open spec fn spec_frame_views(frames: Seq<(String, Vec<DirChild>)>) -> Seq<(Seq<char>, Seq<DirChild>)> {
    frames.map_values(|f: (String, Vec<DirChild>)| (f.0@, f.1@))
}

/// Number of steps the walk still has before it in its frames.
pub open spec fn spec_pending(frames: Seq<(Seq<char>, Seq<DirChild>)>) -> nat
    decreases frames.len(),
{
    if frames.len() == 0 {
        0
    } else {
        spec_pending(frames.drop_last()) + frames.last().1.len() + 1
    }
}

/// The frames once the next child of the innermost directory is taken.
pub open spec fn spec_after_next(frames: Seq<(Seq<char>, Seq<DirChild>)>) -> Seq<(Seq<char>, Seq<DirChild>)> {
    frames.drop_last().push((frames.last().0, frames.last().1.drop_last()))
}

/// What the walk does from `n` recorded entries, with cap `cap`, on the
/// open directories `frames`: the children it records (each with its
/// directory), in order, the directory it then asks for (`None`: the walk
/// of the root is over), and the frames it is left with. It takes the next
/// child of the innermost directory (an exhausted directory is closed): a
/// hidden child, a symbolic link or anything but a file or a directory is
/// skipped; a file or directory is recorded, and a directory that is
/// entered is asked for at once while the cap leaves room, so its walk
/// follows its entry (depth-first). Nothing is recorded once `n` reaches
/// the cap.
pub open spec fn spec_run(n: nat, cap: nat, frames: Seq<(Seq<char>, Seq<DirChild>)>) -> (
    Seq<(Seq<char>, DirChild)>,
    Option<Seq<char>>,
    Seq<(Seq<char>, Seq<DirChild>)>,
)
    decreases spec_pending(frames),
{
    if n >= cap || frames.len() == 0 {
        (seq![], None, seq![])
    } else if frames.last().1.len() == 0 {
        proof {
            assert(spec_pending(frames) == spec_pending(frames.drop_last()) + 1);
        }
        spec_run(n, cap, frames.drop_last())
    } else {
        let d = frames.last().0;
        let c = frames.last().1.last();
        let rest = spec_after_next(frames);
        proof {
            assert(rest.drop_last() =~= frames.drop_last());
            assert(spec_pending(rest) + 1 == spec_pending(frames));
        }
        if !spec_is_listed(c) {
            spec_run(n, cap, rest)
        } else if spec_is_entered(c) && n + 1 < cap {
            (seq![(d, c)], Some(spec_join(d, c.name@)), rest)
        } else {
            let r = spec_run(n + 1, cap, rest);
            (seq![(d, c)] + r.0, r.1, r.2)
        }
    }
}

/// Every step of the walk records only listed children (no hidden entry,
/// no symbolic link, nothing but files and directories), never takes the
/// entries past the cap, and asks only for a directory it entered (so
/// nothing under a hidden or noise directory is ever listed): the one it
/// recorded last.
pub proof fn lemma_run_records_listed(n: nat, cap: nat, frames: Seq<(Seq<char>, Seq<DirChild>)>)
    ensures
        ({
            let r = spec_run(n, cap, frames);
            &&& forall|i: int| 0 <= i < r.0.len() ==> spec_is_listed(#[trigger] r.0[i].1)
            &&& (n < cap ==> n + r.0.len() <= cap)
            &&& (n >= cap ==> r.0.len() == 0)
            &&& (r.1 matches Some(p) ==> r.0.len() > 0 && spec_is_entered(r.0.last().1) && p == spec_join(
                r.0.last().0,
                r.0.last().1.name@,
            ) && n + r.0.len() < cap)
        }),
    decreases spec_pending(frames),
{
    if n >= cap || frames.len() == 0 {
    } else if frames.last().1.len() == 0 {
        assert(spec_pending(frames) == spec_pending(frames.drop_last()) + 1);
        lemma_run_records_listed(n, cap, frames.drop_last());
    } else {
        let d = frames.last().0;
        let c = frames.last().1.last();
        let rest = spec_after_next(frames);
        assert(rest.drop_last() =~= frames.drop_last());
        assert(spec_pending(rest) + 1 == spec_pending(frames));
        if !spec_is_listed(c) {
            lemma_run_records_listed(n, cap, rest);
        } else if spec_is_entered(c) && n + 1 < cap {
        } else {
            lemma_run_records_listed(n + 1, cap, rest);
            let r = spec_run(n + 1, cap, rest);
            let all = seq![(d, c)] + r.0;
            assert forall|i: int| 0 <= i < all.len() implies spec_is_listed(#[trigger] all[i].1) by {
                if i > 0 {
                    assert(all[i] == r.0[i - 1]);
                }
            }
            if r.1 is Some {
                assert(all.last() == r.0.last());
            }
        }
    }
}

/// A prefix of a prefix is a prefix.
proof fn lemma_starts_with_trans(a: Seq<char>, b: Seq<char>, c: Seq<char>)
    requires
        spec_starts_with(a, b),
        spec_starts_with(b, c),
    ensures
        spec_starts_with(a, c),
{
    assert(a.subrange(0, c.len() as int) =~= b.subrange(0, c.len() as int));
}

/// When every open directory lies under `root` (as a text prefix), so do
/// the directories of the children the walk records, their paths, the
/// directory it asks for, and the directories it leaves open: a walk never
/// leaves its root.
pub proof fn lemma_run_stays_under(n: nat, cap: nat, frames: Seq<(Seq<char>, Seq<DirChild>)>, root: Seq<char>)
    requires
        forall|i: int| 0 <= i < frames.len() ==> spec_starts_with(#[trigger] frames[i].0, root),
    ensures
        ({
            let r = spec_run(n, cap, frames);
            &&& forall|i: int| 0 <= i < r.0.len() ==> spec_starts_with(#[trigger] r.0[i].0, root)
            &&& forall|i: int| 0 <= i < r.0.len() ==> spec_starts_with(
                #[trigger] spec_child_entries(r.0)[i].path,
                root,
            )
            &&& (r.1 matches Some(p) ==> spec_starts_with(p, root))
            &&& forall|i: int| 0 <= i < r.2.len() ==> spec_starts_with(#[trigger] r.2[i].0, root)
        }),
    decreases spec_pending(frames),
{
    let r = spec_run(n, cap, frames);
    if n >= cap || frames.len() == 0 {
    } else if frames.last().1.len() == 0 {
        assert(spec_pending(frames) == spec_pending(frames.drop_last()) + 1);
        assert forall|i: int| 0 <= i < frames.drop_last().len() implies spec_starts_with(
            #[trigger] frames.drop_last()[i].0,
            root,
        ) by {
            assert(frames.drop_last()[i] == frames[i]);
        }
        lemma_run_stays_under(n, cap, frames.drop_last(), root);
    } else {
        let d = frames.last().0;
        let c = frames.last().1.last();
        let rest = spec_after_next(frames);
        assert(rest.drop_last() =~= frames.drop_last());
        assert(spec_pending(rest) + 1 == spec_pending(frames));
        assert(spec_starts_with(d, root)) by {
            assert(frames[frames.len() - 1].0 == d);
        }
        assert forall|i: int| 0 <= i < rest.len() implies spec_starts_with(#[trigger] rest[i].0, root) by {
            if i < rest.len() - 1 {
                assert(rest[i] == frames[i]);
            }
        }
        lemma_join_extends(d, c.name@);
        lemma_starts_with_trans(spec_join(d, c.name@), d, root);
        if !spec_is_listed(c) {
            lemma_run_stays_under(n, cap, rest, root);
        } else if spec_is_entered(c) && n + 1 < cap {
            assert(spec_child_entries(r.0)[0].path == spec_join(d, c.name@));
        } else {
            lemma_run_stays_under(n + 1, cap, rest, root);
            let q = spec_run(n + 1, cap, rest);
            let all = seq![(d, c)] + q.0;
            assert(r.0 == all);
            assert forall|i: int| 0 <= i < all.len() implies spec_starts_with(#[trigger] all[i].0, root) by {
                if i > 0 {
                    assert(all[i] == q.0[i - 1]);
                }
            }
            assert forall|i: int| 0 <= i < all.len() implies spec_starts_with(
                #[trigger] spec_child_entries(all)[i].path,
                root,
            ) by {
                if i > 0 {
                    assert(spec_child_entries(all)[i] == spec_child_entries(q.0)[i - 1]);
                }
            }
        }
    }
}

/// The walk enters directories at every depth: whenever the next child of
/// the innermost open directory `d` is a directory the walk enters, and the
/// cap leaves room for it and one more entry, the step records that
/// directory and asks for its listing next, however many directories are
/// open.
pub proof fn lemma_walk_enters_at_every_depth(
    entries: Seq<EntryView>,
    cap: nat,
    frames: Seq<(Seq<char>, Seq<DirChild>)>,
    new_entries: Seq<EntryView>,
    new_frames: Seq<(Seq<char>, Seq<DirChild>)>,
    step: Option<Seq<char>>,
)
    requires
        spec_walk_result(entries, cap, frames, new_entries, new_frames, step),
        frames.len() > 0,
        frames.last().1.len() > 0,
        spec_is_entered(frames.last().1.last()),
        entries.len() + 1 < cap,
    ensures
        new_entries == entries.push(spec_child_entry(frames.last().0, frames.last().1.last())),
        step == Some(spec_join(frames.last().0, frames.last().1.last().name@)),
        new_frames == frames.drop_last().push((frames.last().0, frames.last().1.drop_last())),
{
    let d = frames.last().0;
    let c = frames.last().1.last();
    let rest = spec_after_next(frames);
    assert(rest.drop_last() =~= frames.drop_last());
    assert(spec_pending(rest) + 1 == spec_pending(frames));
    assert(spec_run(entries.len(), cap, frames) == (seq![(d, c)], Some(spec_join(d, c.name@)), rest));
    assert(spec_child_entries(seq![(d, c)]) =~= seq![spec_child_entry(d, c)]);
}

/// A walk that ends a root below the cap has missed nothing in the open
/// directories: every directory it enters was asked for (so none is left
/// among them), and every file and directory it lists was recorded, under
/// its own directory.
pub proof fn lemma_run_complete(n: nat, cap: nat, frames: Seq<(Seq<char>, Seq<DirChild>)>)
    ensures
        ({
            let r = spec_run(n, cap, frames);
            (r.1 is None && n + r.0.len() < cap) ==> forall|i: int, j: int|
                0 <= i < frames.len() && 0 <= j < frames[i].1.len() && spec_is_listed(#[trigger] frames[i].1[j])
                    ==> !spec_is_entered(frames[i].1[j]) && r.0.contains((frames[i].0, frames[i].1[j]))
        }),
    decreases spec_pending(frames),
{
    let r = spec_run(n, cap, frames);
    if n >= cap || frames.len() == 0 {
    } else if frames.last().1.len() == 0 {
        assert(spec_pending(frames) == spec_pending(frames.drop_last()) + 1);
        lemma_run_complete(n, cap, frames.drop_last());
        if r.1 is None && n + r.0.len() < cap {
            assert forall|i: int, j: int|
                0 <= i < frames.len() && 0 <= j < frames[i].1.len() && spec_is_listed(#[trigger] frames[i].1[j])
                    implies !spec_is_entered(frames[i].1[j]) && r.0.contains((frames[i].0, frames[i].1[j])) by {
                assert(i < frames.len() - 1);
                assert(frames.drop_last()[i] == frames[i]);
            }
        }
    } else {
        let d = frames.last().0;
        let c = frames.last().1.last();
        let rest = spec_after_next(frames);
        assert(rest.drop_last() =~= frames.drop_last());
        assert(spec_pending(rest) + 1 == spec_pending(frames));
        let k = frames.len() - 1;
        if !spec_is_listed(c) {
            lemma_run_complete(n, cap, rest);
            if r.1 is None && n + r.0.len() < cap {
                assert forall|i: int, j: int|
                    0 <= i < frames.len() && 0 <= j < frames[i].1.len() && spec_is_listed(#[trigger] frames[i].1[j])
                        implies !spec_is_entered(frames[i].1[j]) && r.0.contains((frames[i].0, frames[i].1[j])) by {
                    if i < k {
                        assert(rest[i] == frames[i]);
                    } else {
                        assert(j < frames[i].1.len() - 1);
                        assert(rest[i].1[j] == frames[i].1[j]);
                    }
                }
            }
        } else if spec_is_entered(c) && n + 1 < cap {
        } else {
            lemma_run_complete(n + 1, cap, rest);
            let q = spec_run(n + 1, cap, rest);
            assert(r.0 == seq![(d, c)] + q.0);
            if r.1 is None && n + r.0.len() < cap {
                assert forall|i: int, j: int|
                    0 <= i < frames.len() && 0 <= j < frames[i].1.len() && spec_is_listed(#[trigger] frames[i].1[j])
                        implies !spec_is_entered(frames[i].1[j]) && r.0.contains((frames[i].0, frames[i].1[j])) by {
                    if i < k {
                        assert(rest[i] == frames[i]);
                        let w = choose|w: int| 0 <= w < q.0.len() && q.0[w] == (rest[i].0, rest[i].1[j]);
                        assert(r.0[w + 1] == q.0[w]);
                    } else if j < frames[i].1.len() - 1 {
                        assert(rest[i].1[j] == frames[i].1[j]);
                        assert(rest[i].0 == frames[i].0);
                        let w = choose|w: int| 0 <= w < q.0.len() && q.0[w] == (rest[i].0, rest[i].1[j]);
                        assert(r.0[w + 1] == q.0[w]);
                    } else {
                        assert(frames[i].1[j] == c);
                        assert(r.0[0] == (d, c));
                    }
                }
            }
        }
    }
}

/// Names compare as byte strings do: a name precedes every name it is a
/// prefix of, and otherwise the first byte where two names differ decides.
pub proof fn lemma_name_le_is_byte_order(a: Seq<u8>, b: Seq<u8>, k: int)
    requires
        0 <= k <= a.len(),
        k <= b.len(),
        a.subrange(0, k) == b.subrange(0, k),
    ensures
        k == a.len() ==> spec_name_le(a, b),
        k < a.len() && k < b.len() && a[k] < b[k] ==> spec_name_le(a, b) && !spec_name_le(b, a),
        k < a.len() && k == b.len() ==> !spec_name_le(a, b),
    decreases k,
{
    if k > 0 {
        assert(a[0] == a.subrange(0, k)[0]);
        assert(b[0] == b.subrange(0, k)[0]);
        assert(a.drop_first().subrange(0, k - 1) =~= a.subrange(0, k).drop_first());
        assert(b.drop_first().subrange(0, k - 1) =~= b.subrange(0, k).drop_first());
        lemma_name_le_is_byte_order(a.drop_first(), b.drop_first(), k - 1);
        if k < a.len() && k < b.len() {
            assert(a.drop_first()[k - 1] == a[k]);
            assert(b.drop_first()[k - 1] == b[k]);
        }
    }
}

/// In a directory's listing order, no file comes after a directory, and
/// children of the same kind come in the byte order of their names.
pub proof fn lemma_sorted_children_files_first(s: Seq<DirChild>, i: int, j: int)
    requires
        spec_sorted_children(s),
        0 <= i < j < s.len(),
    ensures
        s[i].kind is Dir ==> s[j].kind is Dir,
        (s[i].kind is Dir) == (s[j].kind is Dir) ==> spec_name_le(s[i].name_bytes@, s[j].name_bytes@),
{
    assert(spec_child_le(s[i], s[j]));
}

/// `s` is `l` in ascending order: files before directories, each by name.
pub open spec fn spec_sorts(l: Seq<DirChild>, s: Seq<DirChild>) -> bool {
    spec_sorted_children(s) && s.to_multiset() == l.to_multiset()
}

/// The directory a step asks for.
pub open spec fn spec_step_dir(step: WalkStep) -> Option<Seq<char>> {
    match step {
        WalkStep::ReadDir(p) => Some(p@),
        WalkStep::Done => None,
    }
}

// ---------------------------------------------------------------------------
// Name order
// ---------------------------------------------------------------------------

/// The name order is total.
pub proof fn lemma_name_le_total(a: Seq<u8>, b: Seq<u8>)
    ensures
        spec_name_le(a, b) || spec_name_le(b, a),
    decreases a.len(),
{
    if a.len() > 0 && b.len() > 0 && a[0] == b[0] {
        lemma_name_le_total(a.drop_first(), b.drop_first());
    }
}

/// The name order is transitive.
pub proof fn lemma_name_le_transitive(a: Seq<u8>, b: Seq<u8>, c: Seq<u8>)
    requires
        spec_name_le(a, b),
        spec_name_le(b, c),
    ensures
        spec_name_le(a, c),
    decreases a.len(),
{
    if a.len() > 0 && b.len() > 0 && c.len() > 0 && a[0] == b[0] && b[0] == c[0] {
        lemma_name_le_transitive(a.drop_first(), b.drop_first(), c.drop_first());
    }
}

/// Past a common prefix of length `i` the order is that of the rests.
proof fn lemma_name_le_skip(a: Seq<u8>, b: Seq<u8>, i: int)
    requires
        0 <= i <= a.len(),
        i <= b.len(),
        forall|j: int| 0 <= j < i ==> a[j] == b[j],
    ensures
        spec_name_le(a, b) == spec_name_le(a.subrange(i, a.len() as int), b.subrange(i, b.len() as int)),
    decreases i,
{
    if i > 0 {
        lemma_name_le_skip(a.drop_first(), b.drop_first(), i - 1);
        assert(a.drop_first().subrange(i - 1, a.len() - 1) =~= a.subrange(i, a.len() as int));
        assert(b.drop_first().subrange(i - 1, b.len() - 1) =~= b.subrange(i, b.len() as int));
    } else {
        assert(a.subrange(0, a.len() as int) =~= a);
        assert(b.subrange(0, b.len() as int) =~= b);
    }
}

/// Whether `a` comes no later than `b` in name order.
pub fn name_le(a: &[u8], b: &[u8]) -> (res: bool)
    ensures
        res == spec_name_le(a@, b@),
{
    let x = a;
    let y = b;
    let mut i: usize = 0;
    while i < x.len() && i < y.len() && x[i] == y[i]
        invariant
            0 <= i <= x@.len(),
            i <= y@.len(),
            forall|j: int| 0 <= j < i ==> x@[j] == y@[j],
        decreases x@.len() - i,
    {
        i = i + 1;
    }
    proof {
        lemma_name_le_skip(x@, y@, i as int);
    }
    if i == x.len() {
        true
    } else if i == y.len() {
        false
    } else {
        x[i] < y[i]
    }
}

/// The child order is total.
pub proof fn lemma_child_le_total(a: DirChild, b: DirChild)
    ensures
        spec_child_le(a, b) || spec_child_le(b, a),
{
    lemma_name_le_total(a.name_bytes@, b.name_bytes@);
}

/// The child order is transitive.
pub proof fn lemma_child_le_transitive(a: DirChild, b: DirChild, c: DirChild)
    requires
        spec_child_le(a, b),
        spec_child_le(b, c),
    ensures
        spec_child_le(a, c),
{
    if (a.kind is Dir) == (b.kind is Dir) && (b.kind is Dir) == (c.kind is Dir) {
        lemma_name_le_transitive(a.name_bytes@, b.name_bytes@, c.name_bytes@);
    }
}

/// Whether `a` comes no later than `b` among the children of a directory.
pub fn child_le(a: &DirChild, b: &DirChild) -> (res: bool)
    ensures
        res == spec_child_le(*a, *b),
{
    let ad = match a.kind {
        EntryKind::Dir => true,
        _ => false,
    };
    let bd = match b.kind {
        EntryKind::Dir => true,
        _ => false,
    };
    if ad != bd {
        !ad
    } else {
        name_le(a.name_bytes.as_slice(), b.name_bytes.as_slice())
    }
}

/// Children in descending order.
spec fn spec_sorted_desc(s: Seq<DirChild>) -> bool {
    forall|i: int, j: int| 0 <= i < j < s.len() ==> spec_child_le(s[j], s[i])
}

/// Merges two runs in ascending order into one.
fn merge_by_name(a: Vec<DirChild>, b: Vec<DirChild>) -> (res: Vec<DirChild>)
    requires
        spec_sorted_children(a@),
        spec_sorted_children(b@),
    ensures
        res@.to_multiset() == a@.to_multiset().add(b@.to_multiset()),
        spec_sorted_children(res@),
{
    let ghost total = a@.to_multiset().add(b@.to_multiset());
    let mut ra = reversed(a);
    let mut rb = reversed(b);
    proof {
        assert(ra@.to_multiset() == a@.to_multiset()) by {
            a@.lemma_reverse_to_multiset();
        }
        assert(rb@.to_multiset() == b@.to_multiset()) by {
            b@.lemma_reverse_to_multiset();
        }
        assert forall|i: int, j: int| 0 <= i < j < ra@.len() implies spec_child_le(ra@[j], ra@[i]) by {
            assert(ra@[i] == a@[a@.len() - 1 - i]);
            assert(ra@[j] == a@[a@.len() - 1 - j]);
        }
        assert forall|i: int, j: int| 0 <= i < j < rb@.len() implies spec_child_le(rb@[j], rb@[i]) by {
            assert(rb@[i] == b@[b@.len() - 1 - i]);
            assert(rb@[j] == b@[b@.len() - 1 - j]);
        }
    }
    let mut out: Vec<DirChild> = Vec::new();
    while ra.len() > 0 || rb.len() > 0
        invariant
            out@.to_multiset().add(ra@.to_multiset()).add(rb@.to_multiset()) == total,
            spec_sorted_children(out@),
            spec_sorted_desc(ra@),
            spec_sorted_desc(rb@),
            forall|p: int, i: int|
                #![trigger out@[p], ra@[i]]
                0 <= p < out@.len() && 0 <= i < ra@.len() ==> spec_child_le(out@[p], ra@[i]),
            forall|p: int, i: int|
                #![trigger out@[p], rb@[i]]
                0 <= p < out@.len() && 0 <= i < rb@.len() ==> spec_child_le(out@[p], rb@[i]),
        decreases ra@.len() + rb@.len(),
    {
        let take_a = if ra.len() == 0 {
            false
        } else if rb.len() == 0 {
            true
        } else {
            child_le(&ra[ra.len() - 1], &rb[rb.len() - 1])
        };
        let ghost ra0 = ra@;
        let ghost rb0 = rb@;
        let ghost out0 = out@;
        if take_a {
            let x = ra.pop().unwrap();
            proof {
                assert(ra0 == ra@.push(x));
                if rb0.len() > 0 {
                    assert forall|i: int| 0 <= i < rb0.len() implies spec_child_le(x, rb0[i]) by {
                        if i < rb0.len() - 1 {
                            lemma_child_le_transitive(x, rb0[rb0.len() - 1], rb0[i]);
                        }
                    }
                }
                assert forall|i: int| 0 <= i < ra@.len() implies spec_child_le(x, ra@[i]) by {
                    assert(ra0[i] == ra@[i]);
                    assert(ra0[ra0.len() - 1] == x);
                }
            }
            out.push(x);
            proof {
                assert(out@.to_multiset() == out0.to_multiset().insert(x));
                assert(ra0.to_multiset() == ra@.to_multiset().insert(x));
                assert(out@.to_multiset().add(ra@.to_multiset()) =~= out0.to_multiset().add(ra0.to_multiset()));
            }
        } else {
            let x = rb.pop().unwrap();
            proof {
                assert(rb0 == rb@.push(x));
                if ra0.len() > 0 {
                    lemma_child_le_total(ra0[ra0.len() - 1], x);
                    assert forall|i: int| 0 <= i < ra0.len() implies spec_child_le(x, ra0[i]) by {
                        if i < ra0.len() - 1 {
                            lemma_child_le_transitive(x, ra0[ra0.len() - 1], ra0[i]);
                        }
                    }
                }
                assert forall|i: int| 0 <= i < rb@.len() implies spec_child_le(x, rb@[i]) by {
                    assert(rb0[i] == rb@[i]);
                    assert(rb0[rb0.len() - 1] == x);
                }
            }
            out.push(x);
            proof {
                assert(out@.to_multiset() == out0.to_multiset().insert(x));
                assert(rb0.to_multiset() == rb@.to_multiset().insert(x));
                assert(out@.to_multiset().add(ra@.to_multiset()).add(rb@.to_multiset()) =~= out0.to_multiset().add(
                    ra0.to_multiset(),
                ).add(rb0.to_multiset()));
            }
        }
        proof {
            assert forall|p: int, q: int| 0 <= p < q < out@.len() implies spec_child_le(out@[p], out@[q]) by {
                if q < out@.len() - 1 {
                    assert(out@[p] == out0[p] && out@[q] == out0[q]);
                } else if take_a {
                    assert(out@[p] == out0[p]);
                    assert(spec_child_le(out0[p], ra0[ra0.len() - 1]));
                } else {
                    assert(out@[p] == out0[p]);
                    assert(spec_child_le(out0[p], rb0[rb0.len() - 1]));
                }
            }
            assert forall|p: int, i: int|
                #![trigger out@[p], ra@[i]]
                0 <= p < out@.len() && 0 <= i < ra@.len() implies spec_child_le(out@[p], ra@[i]) by {
                assert(ra@[i] == ra0[i]);
                if p < out@.len() - 1 {
                    assert(out@[p] == out0[p]);
                }
            }
            assert forall|p: int, i: int|
                #![trigger out@[p], rb@[i]]
                0 <= p < out@.len() && 0 <= i < rb@.len() implies spec_child_le(out@[p], rb@[i]) by {
                assert(rb@[i] == rb0[i]);
                if p < out@.len() - 1 {
                    assert(out@[p] == out0[p]);
                }
            }
        }
    }
    proof {
        assert(ra@.to_multiset() =~= vstd::multiset::Multiset::empty());
        assert(rb@.to_multiset() =~= vstd::multiset::Multiset::empty());
        assert(out@.to_multiset().add(ra@.to_multiset()).add(rb@.to_multiset()) =~= out@.to_multiset());
    }
    out
}

/// The children in ascending order, files before directories, each by name
/// (a merge sort).
pub fn sort_children(v: Vec<DirChild>) -> (res: Vec<DirChild>)
    ensures
        res@.to_multiset() == v@.to_multiset(),
        spec_sorted_children(res@),
    decreases v@.len(),
{
    let n = v.len();
    if n <= 1 {
        return v;
    }
    let ghost v0 = v@;
    let mut left = v;
    let mut right: Vec<DirChild> = Vec::new();
    while right.len() < n / 2
        invariant
            left@.len() + right@.len() == n,
            right@.len() <= n / 2,
            n >= 2,
            left@.to_multiset().add(right@.to_multiset()) == v0.to_multiset(),
        decreases n - right@.len(),
    {
        let ghost l0 = left@;
        let ghost r0 = right@;
        let x = left.pop().unwrap();
        right.push(x);
        proof {
            assert(l0 == left@.push(x));
            assert(l0.to_multiset() == left@.to_multiset().insert(x));
            assert(right@.to_multiset() == r0.to_multiset().insert(x));
            assert(left@.to_multiset().add(right@.to_multiset()) =~= l0.to_multiset().add(r0.to_multiset()));
        }
    }
    let sl = sort_children(left);
    let sr = sort_children(right);
    merge_by_name(sl, sr)
}

/// The sequence reversed.
fn reversed(v: Vec<DirChild>) -> (res: Vec<DirChild>)
    ensures
        res@ == v@.reverse(),
{
    let mut input = v;
    let mut out: Vec<DirChild> = Vec::new();
    while input.len() > 0
        invariant
            out@ + input@.reverse() == v@.reverse(),
        decreases input@.len(),
    {
        let ghost before = input@;
        let x = input.pop().unwrap();
        assert(before.reverse() =~= seq![x] + input@.reverse());
        out.push(x);
        assert(out@ + input@.reverse() =~= v@.reverse());
    }
    assert(out@ =~= v@.reverse());
    out
}

// ---------------------------------------------------------------------------
// Entries
// ---------------------------------------------------------------------------

/// Records the entry for `info` at the end of `out`.
pub fn push_entry(out: &mut Vec<AttachFileEntry>, info: PathInfo)
    ensures
        final(out)@ == old(out)@.push(spec_entry_for(info)),
{
    let size = if info.is_dir {
        0
    } else {
        match info.len {
            Some(l) => l,
            None => 0,
        }
    };
    let name = match info.file_name {
        Some(n) => n,
        None => info.path.clone(),
    };
    out.push(AttachFileEntry { name, path: info.path, is_dir: info.is_dir, size });
}

/// Whether `c` is hidden.
fn is_hidden(c: &DirChild) -> (res: bool)
    ensures
        res == spec_is_hidden(*c),
{
    if !c.name_is_utf8 {
        return false;
    }
    proof {
        reveal_strlit(".");
        assert("."@ =~= seq!['.']);
    }
    let n = chars_of(c.name.as_str());
    n.len() > 0 && n[0] == '.' && !str_eq(c.name.as_str(), ".")
}

/// Whether `n` names a noise directory.
fn is_noise_dir_name(n: &str) -> (res: bool)
    ensures
        res == spec_is_noise_dir_name(n@),
{
    str_eq(n, ".git") || str_eq(n, "node_modules") || str_eq(n, ".hg") || str_eq(n, ".svn")
        || str_eq(n, "target") || str_eq(n, "build") || str_eq(n, "dist") || str_eq(n, ".cache")
        || str_eq(n, ".next") || str_eq(n, ".venv") || str_eq(n, "venv") || str_eq(n, "__pycache__")
        || str_eq(n, ".DS_Store")
}

// ---------------------------------------------------------------------------
// The walk
// ---------------------------------------------------------------------------

/// What a walk step leaves: from `entries` recorded with cap `cap` and the
/// open directories `frames`, the walk (as [`spec_run`] says) records the
/// new entries, keeps the frames, and asks for `step`.
pub open spec fn spec_walk_result(
    entries: Seq<EntryView>,
    cap: nat,
    frames: Seq<(Seq<char>, Seq<DirChild>)>,
    new_entries: Seq<EntryView>,
    new_frames: Seq<(Seq<char>, Seq<DirChild>)>,
    step: Option<Seq<char>>,
) -> bool {
    let r = spec_run(entries.len(), cap, frames);
    &&& new_entries == entries + spec_child_entries(r.0)
    &&& new_frames == r.2
    &&& step == r.1
}

/// A walk over the configured roots, bounded by a cap on the entries.
pub struct AttachWalk {
    out: Vec<AttachFileEntry>,
    frames: Vec<(String, Vec<DirChild>)>,
    asked: Option<String>,
    cap: usize,
    stopped: bool,
    root: Ghost<Seq<char>>,
    begun: Ghost<Seq<Seq<char>>>,
}

/// `p` lies under one of `roots` (as a text prefix).
pub open spec fn spec_under_some_root(p: Seq<char>, roots: Seq<Seq<char>>) -> bool {
    exists|j: int| 0 <= j < roots.len() && #[trigger] spec_starts_with(p, roots[j])
}

impl AttachWalk {
    /// The entries recorded so far.
    pub closed spec fn entries(&self) -> Seq<EntryView> {
        spec_entry_views(self.out@)
    }

    /// The cap on the number of entries.
    pub closed spec fn limit(&self) -> nat {
        self.cap as nat
    }

    /// The open directories, outermost first, each with the children still
    /// to visit in it, in reverse order.
    pub closed spec fn frames(&self) -> Seq<(Seq<char>, Seq<DirChild>)> {
        spec_frame_views(self.frames@)
    }

    /// The directory whose listing the walk waits for.
    pub closed spec fn asked(&self) -> Option<Seq<char>> {
        opt_view(self.asked)
    }

    /// The root being walked.
    pub closed spec fn root(&self) -> Seq<char> {
        self.root@
    }

    /// The roots whose walk was begun, in order.
    pub closed spec fn roots(&self) -> Seq<Seq<char>> {
        self.begun@
    }

    /// Whether the cap was reached after a root, which ends the walk.
    pub closed spec fn stopped(&self) -> bool {
        self.stopped
    }

    /// The walk's invariant: never more entries than the cap, every open
    /// directory, and the one asked for, under the root being walked, which
    /// is the last root begun, and every entry under one of the roots begun.
    pub closed spec fn wf(&self) -> bool {
        &&& self.out@.len() <= self.cap
        &&& (self.begun@.len() > 0 ==> self.root@ == self.begun@.last())
        &&& ((self.frames@.len() > 0 || self.asked is Some) ==> self.begun@.len() > 0)
        &&& forall|i: int| 0 <= i < self.entries().len() ==> spec_under_some_root(#[trigger] self.entries()[i].path, self.begun@)
        &&& forall|i: int| 0 <= i < self.frames().len() ==> spec_starts_with(#[trigger] self.frames()[i].0, self.root@)
        &&& (self.asked() matches Some(d) ==> spec_starts_with(d, self.root@))
    }

    /// A walk with no entries, capped at `cap` entries.
    pub fn new(cap: usize) -> (res: Self)
        ensures
            res.wf(),
            res.entries() == Seq::<EntryView>::empty(),
            res.limit() == cap,
            res.frames() == Seq::<(Seq<char>, Seq<DirChild>)>::empty(),
            res.asked() is None,
            res.roots() == Seq::<Seq<char>>::empty(),
            !res.stopped(),
    {
        let res = AttachWalk {
            out: Vec::new(),
            frames: Vec::new(),
            asked: None,
            cap,
            stopped: false,
            root: Ghost(Seq::empty()),
            begun: Ghost(Seq::empty()),
        };
        assert(res.frames() =~= Seq::<(Seq<char>, Seq<DirChild>)>::empty());
        assert(res.entries() =~= Seq::<EntryView>::empty());
        res
    }

    /// Starts the walk of a root: records its entry, then asks for its
    /// listing unless the cap is reached. Once the walk has stopped, or when
    /// the cap is already reached, nothing is recorded and the walk stops.
    pub fn begin_root(&mut self, root: PathInfo) -> (step: WalkStep)
        requires
            old(self).wf(),
        ensures
            final(self).wf(),
            final(self).entries().len() <= final(self).limit(),
            final(self).limit() == old(self).limit(),
            final(self).frames() == Seq::<(Seq<char>, Seq<DirChild>)>::empty(),
            final(self).root() == root.path@,
            final(self).roots() == old(self).roots().push(root.path@),
            final(self).asked() == spec_step_dir(step),
            (old(self).stopped() || old(self).entries().len() >= old(self).limit()) ==> {
                &&& final(self).stopped()
                &&& final(self).entries() == old(self).entries()
                &&& step is Done
            },
            !(old(self).stopped() || old(self).entries().len() >= old(self).limit()) ==> {
                &&& !final(self).stopped()
                &&& final(self).entries() == old(self).entries().push(spec_entry_for(root)@)
                &&& (final(self).entries().len() < final(self).limit() ==> step == WalkStep::ReadDir(root.path))
                &&& (final(self).entries().len() >= final(self).limit() ==> step is Done)
            },
    {
        self.frames = Vec::new();
        self.asked = None;
        let ghost b0 = self.begun@;
        let ghost e00 = self.entries();
        self.root = Ghost(root.path@);
        self.begun = Ghost(self.begun@.push(root.path@));
        assert(self.frames() =~= Seq::<(Seq<char>, Seq<DirChild>)>::empty());
        assert forall|i: int| 0 <= i < e00.len() implies spec_under_some_root(#[trigger] e00[i].path, self.begun@) by {
            let j = choose|j: int| 0 <= j < b0.len() && #[trigger] spec_starts_with(e00[i].path, b0[j]);
            assert(self.begun@[j] == b0[j]);
        }
        if self.stopped || self.out.len() >= self.cap {
            self.stopped = true;
            return WalkStep::Done;
        }
        let path = root.path.clone();
        let ghost out0 = self.out@;
        push_entry(&mut self.out, root);
        assert(self.entries() =~= spec_entry_views(out0).push(spec_entry_for(root)@));
        assert(spec_starts_with(path@, self.begun@[self.begun@.len() - 1])) by {
            assert(path@.subrange(0, path@.len() as int) =~= path@);
        }
        assert forall|i: int| 0 <= i < self.entries().len() implies spec_under_some_root(
            #[trigger] self.entries()[i].path,
            self.begun@,
        ) by {
            if i < e00.len() {
                assert(self.entries()[i] == e00[i]);
            } else {
                assert(self.entries()[i].path == path@);
            }
        }
        if self.out.len() >= self.cap {
            WalkStep::Done
        } else {
            assert(spec_starts_with(path@, self.root@)) by {
                assert(path@.subrange(0, path@.len() as int) =~= path@);
            }
            self.asked = Some(path.clone());
            WalkStep::ReadDir(path)
        }
    }

    /// After a root's walk is done: whether the cap is reached, which ends
    /// the walk over the remaining roots.
    pub fn root_done(&mut self) -> (stop: bool)
        requires
            old(self).wf(),
        ensures
            final(self).wf(),
            final(self).entries().len() <= final(self).limit(),
            stop == (old(self).stopped() || old(self).entries().len() >= old(self).limit()),
            final(self).stopped() == stop,
            final(self).entries() == old(self).entries(),
            final(self).limit() == old(self).limit(),
            final(self).frames() == old(self).frames(),
            final(self).asked() == old(self).asked(),
            final(self).root() == old(self).root(),
            final(self).roots() == old(self).roots(),
    {
        if self.out.len() >= self.cap {
            self.stopped = true;
        }
        assert(self.frames() == old(self).frames());
        assert(self.asked() == old(self).asked());
        self.stopped
    }

    /// Hands over the listing of the directory the last
    /// [`WalkStep::ReadDir`] asked for (`None` when it could not be read)
    /// and walks on: the listing, files before directories and each by name,
    /// becomes the innermost open
    /// directory, and the walk goes on as [`spec_run`] says, recording
    /// entries until it must ask for a directory, the root's walk is over,
    /// or the cap is reached. Every entry recorded lies under the root.
    pub fn feed_listing(&mut self, listing: Option<Vec<DirChild>>) -> (step: WalkStep)
        requires
            old(self).wf(),
        ensures
            final(self).wf(),
            final(self).entries().len() <= final(self).limit(),
            final(self).limit() == old(self).limit(),
            final(self).stopped() == old(self).stopped(),
            final(self).root() == old(self).root(),
            final(self).roots() == old(self).roots(),
            final(self).asked() == spec_step_dir(step),
            match (listing, old(self).asked()) {
                (Some(l), Some(d)) => exists|s: Seq<DirChild>|
                    #[trigger] spec_sorts(l@, s) && spec_walk_result(
                        old(self).entries(),
                        old(self).limit(),
                        old(self).frames().push((d, s.reverse())),
                        final(self).entries(),
                        final(self).frames(),
                        spec_step_dir(step),
                    ),
                _ => spec_walk_result(
                    old(self).entries(),
                    old(self).limit(),
                    old(self).frames(),
                    final(self).entries(),
                    final(self).frames(),
                    spec_step_dir(step),
                ),
            },
            forall|i: int|
                old(self).entries().len() <= i < final(self).entries().len() ==> spec_starts_with(
                    #[trigger] final(self).entries()[i].path,
                    final(self).root(),
                ),
    {
        let asked = match &self.asked {
            Some(d) => Some(d.clone()),
            None => None,
        };
        assert(asked matches Some(x) ==> old(self).asked() == Some(x@));
        self.asked = None;
        let ghost root = self.root@;
        let ghost n = self.out@.len();
        let ghost e0 = self.entries();
        assert(self.frames() == old(self).frames());
        assert(forall|i: int| 0 <= i < self.frames().len() ==> spec_starts_with(#[trigger] self.frames()[i].0, root));
        match (listing, asked) {
            (Some(children), Some(dir)) => {
                let ghost l = children@;
                let sorted = sort_children(children);
                let frame = reversed(sorted);
                let ghost fv = self.frames();
                let ghost d = dir@;
                assert(spec_starts_with(d, root));
                self.frames.push((dir, frame));
                assert(self.frames() =~= fv.push((d, sorted@.reverse())));
                assert forall|i: int| 0 <= i < self.frames().len() implies spec_starts_with(
                    #[trigger] self.frames()[i].0,
                    root,
                ) by {
                    if i < fv.len() {
                        assert(self.frames()[i] == fv[i]);
                    }
                }
                let ghost f1 = self.frames();
                let step = self.advance();
                assert(spec_sorts(l, sorted@));
                proof {
                    lemma_run_stays_under(n, self.cap as nat, f1, root);
                    self.lemma_walk_under(e0, f1);
                }
                step
            },
            (_, _) => {
                let ghost f1 = self.frames();
                let step = self.advance();
                proof {
                    lemma_run_stays_under(n, self.cap as nat, f1, root);
                    self.lemma_walk_under(e0, f1);
                }
                step
            },
        }
    }

    /// After a step from `e0` and `f1` whose open directories lie under the
    /// root, the new entries and the walk's state lie under it too.
    proof fn lemma_walk_under(&self, e0: Seq<EntryView>, f1: Seq<(Seq<char>, Seq<DirChild>)>)
        requires
            self.out@.len() <= self.cap,
            self.begun@.len() > 0 ==> self.root@ == self.begun@.last(),
            self.begun@.len() == 0 ==> f1.len() == 0,
            forall|i: int| 0 <= i < e0.len() ==> spec_under_some_root(#[trigger] e0[i].path, self.begun@),
            spec_walk_result(e0, self.cap as nat, f1, self.entries(), self.frames(), self.asked()),
            ({
                let r = spec_run(e0.len(), self.cap as nat, f1);
                &&& forall|i: int| 0 <= i < r.0.len() ==> spec_starts_with(
                    #[trigger] spec_child_entries(r.0)[i].path,
                    self.root@,
                )
                &&& (r.1 matches Some(p) ==> spec_starts_with(p, self.root@))
                &&& forall|i: int| 0 <= i < r.2.len() ==> spec_starts_with(#[trigger] r.2[i].0, self.root@)
            }),
        ensures
            self.wf(),
            forall|i: int|
                e0.len() <= i < self.entries().len() ==> spec_starts_with(#[trigger] self.entries()[i].path, self.root@),
    {
        let r = spec_run(e0.len(), self.cap as nat, f1);
        assert forall|i: int| e0.len() <= i < self.entries().len() implies spec_starts_with(
            #[trigger] self.entries()[i].path,
            self.root@,
        ) by {
            assert(self.entries()[i] == spec_child_entries(r.0)[i - e0.len()]);
        }
        if self.begun@.len() == 0 {
            assert(r.0.len() == 0 && r.1 is None && r.2.len() == 0);
            assert(self.entries() =~= e0);
        }
        assert forall|i: int| 0 <= i < self.entries().len() implies spec_under_some_root(
            #[trigger] self.entries()[i].path,
            self.begun@,
        ) by {
            if i < e0.len() {
                assert(self.entries()[i] == e0[i]);
            } else {
                assert(spec_starts_with(self.entries()[i].path, self.begun@[self.begun@.len() - 1]));
            }
        }
    }

    /// Visits children until a directory must be listed or the walk of the
    /// current root is over.
    fn advance(&mut self) -> (step: WalkStep)
        requires
            old(self).out@.len() <= old(self).cap,
            old(self).asked is None,
        ensures
            final(self).out@.len() <= final(self).cap,
            final(self).cap == old(self).cap,
            final(self).stopped == old(self).stopped,
            final(self).root == old(self).root,
            final(self).begun == old(self).begun,
            final(self).asked() == spec_step_dir(step),
            spec_walk_result(
                old(self).entries(),
                old(self).cap as nat,
                old(self).frames(),
                final(self).entries(),
                final(self).frames(),
                spec_step_dir(step),
            ),
    {
        let ghost start = self.entries();
        let ghost n0 = self.out@.len();
        let ghost f0 = self.frames();
        let ghost cap = self.cap as nat;
        let ghost mut taken: Seq<(Seq<char>, DirChild)> = Seq::empty();
        assert(start + spec_child_entries(taken) =~= start);
        loop
            invariant
                self.out@.len() <= self.cap,
                self.asked is None,
                self.cap == old(self).cap,
                cap == self.cap,
                self.stopped == old(self).stopped,
                self.root == old(self).root,
                self.begun == old(self).begun,
                start == old(self).entries(),
                n0 == start.len(),
                n0 == old(self).out@.len(),
                f0 == old(self).frames(),
                self.entries() == start + spec_child_entries(taken),
                self.out@.len() == n0 + taken.len(),
                ({
                    let r = spec_run(self.out@.len(), cap, self.frames());
                    spec_run(n0, cap, f0) == (taken + r.0, r.1, r.2)
                }),
            decreases spec_pending(self.frames()),
        {
            let ghost fv = self.frames();
            let ghost n = self.out@.len();
            let ghost t0 = taken;
            if self.out.len() >= self.cap {
                self.frames = Vec::new();
                assert(self.frames() =~= Seq::<(Seq<char>, Seq<DirChild>)>::empty());
                assert(taken + Seq::<(Seq<char>, DirChild)>::empty() =~= taken);
                return WalkStep::Done;
            }
            let ghost frames0 = self.frames@;
            let top = self.frames.pop();
            match top {
                None => {
                    assert(fv.len() == 0);
                    assert(taken + Seq::<(Seq<char>, DirChild)>::empty() =~= taken);
                    assert(self.frames() =~= Seq::<(Seq<char>, Seq<DirChild>)>::empty());
                    return WalkStep::Done;
                },
                Some((dir, mut children)) => {
                    assert(frames0 == self.frames@.push((dir, children)));
                    assert(fv.drop_last() =~= self.frames());
                    assert(fv.last() == (dir@, children@));
                    let ghost ch0 = children@;
                    let next = children.pop();
                    match next {
                        None => {
                            assert(spec_run(n, cap, fv) == spec_run(n, cap, fv.drop_last()));
                            assert(spec_pending(fv) == spec_pending(fv.drop_last()) + 1);
                        },
                        Some(c) => {
                            assert(ch0 == children@.push(c));
                            let path = join(dir.as_str(), c.name.as_str());
                            let ghost d = dir@;
                            self.frames.push((dir, children));
                            assert(self.frames() =~= spec_after_next(fv));
                            assert(fv.last().1.last() == c);
                            assert(spec_after_next(fv).drop_last() =~= fv.drop_last());
                            assert(spec_pending(spec_after_next(fv)) + 1 == spec_pending(fv));
                            if is_hidden(&c) {
                                assert(spec_run(n, cap, fv) == spec_run(n, cap, spec_after_next(fv)));
                                continue;
                            }
                            let ghost cc = c;
                            let ghost out0 = self.out@;
                            match c.kind {
                                EntryKind::Dir => {
                                    let enter = !(c.name_is_utf8 && is_noise_dir_name(c.name.as_str()));
                                    let info = PathInfo { file_name: Some(c.name), path: path.clone(), is_dir: true, len: c.len };
                                    assert(info.path@ == spec_join(d, cc.name@));
                                    push_entry(&mut self.out, info);
                                    proof {
                                        assert(spec_entry_for(info)@ == spec_child_entry(d, cc));
                                        assert(self.entries() =~= spec_entry_views(out0).push(spec_child_entry(d, cc)));
                                        assert(spec_child_entries(taken.push((d, cc))) =~= spec_child_entries(taken).push(
                                            spec_child_entry(d, cc),
                                        ));
                                        taken = taken.push((d, cc));
                                    }
                                    if enter && self.out.len() < self.cap {
                                        assert(spec_run(n, cap, fv) == (seq![(d, cc)], Some(spec_join(d, cc.name@)), spec_after_next(fv)));
                                        assert(taken =~= t0 + seq![(d, cc)]);
                                        self.asked = Some(path.clone());
                                        return WalkStep::ReadDir(path);
                                    }
                                    proof {
                                        let r = spec_run((n + 1) as nat, cap, spec_after_next(fv));
                                        assert(spec_run(n, cap, fv) == (seq![(d, cc)] + r.0, r.1, r.2));
                                        assert(t0 + (seq![(d, cc)] + r.0) =~= taken + r.0);
                                    }
                                },
                                EntryKind::File => {
                                    let info = PathInfo { file_name: Some(c.name), path, is_dir: false, len: c.len };
                                    push_entry(&mut self.out, info);
                                    proof {
                                        assert(spec_entry_for(info)@ == spec_child_entry(d, cc));
                                        assert(self.entries() =~= spec_entry_views(out0).push(spec_child_entry(d, cc)));
                                        assert(spec_child_entries(taken.push((d, cc))) =~= spec_child_entries(taken).push(
                                            spec_child_entry(d, cc),
                                        ));
                                        taken = taken.push((d, cc));
                                        let r = spec_run((n + 1) as nat, cap, spec_after_next(fv));
                                        assert(spec_run(n, cap, fv) == (seq![(d, cc)] + r.0, r.1, r.2));
                                        assert(t0 + (seq![(d, cc)] + r.0) =~= taken + r.0);
                                    }
                                },
                                _ => {
                                    assert(spec_run(n, cap, fv) == spec_run(n, cap, spec_after_next(fv)));
                                },
                            }
                        },
                    }
                },
            }
        }
    }

    /// Every entry a walk has recorded lies under one of the roots it was
    /// begun on, and there are no more of them than the cap.
    pub proof fn lemma_entries_under_roots(&self)
        requires
            self.wf(),
        ensures
            self.entries().len() <= self.limit(),
            forall|i: int|
                0 <= i < self.entries().len() ==> spec_under_some_root(#[trigger] self.entries()[i].path, self.roots()),
    {
    }

    /// The entries recorded.
    pub fn into_entries(self) -> (res: Vec<AttachFileEntry>)
        ensures
            spec_entry_views(res@) == self.entries(),
    {
        self.out
    }
}

} // verus!
