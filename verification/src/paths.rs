//! Path components, and the rule that keeps remote-attach reads inside the
//! configured roots.

use vstd::prelude::*;

use crate::codec::{base64_encode_std, spec_base64_std};
use crate::models::AttachFileBytes;
use crate::text::{
    chars_eq, chars_of, find_char, lemma_find_bounds, owned, push_str, spec_find, spec_split, spec_starts_with,
    string_of,
};

verus! {

// ---------------------------------------------------------------------------
// Specifications
// ---------------------------------------------------------------------------

/// A `/`-separated segment that is a component of its own: not empty and
/// not `.`.
pub open spec fn spec_is_kept_segment(s: Seq<char>) -> bool {
    s.len() > 0 && s != seq!['.']
}

/// The segments that are components, in order.
pub open spec fn spec_kept_segments(segs: Seq<Seq<char>>) -> Seq<Seq<char>>
    decreases segs.len(),
{
    if segs.len() == 0 {
        seq![]
    } else {
        (if spec_is_kept_segment(segs[0]) {
            seq![segs[0]]
        } else {
            seq![]
        }) + spec_kept_segments(segs.drop_first())
    }
}

/// The components of a Unix path, as `Path::components` yields them: `/`
/// for the root of an absolute path, `.` for a leading current directory,
/// then every other segment that is neither empty nor `.`.
pub open spec fn spec_components(p: Seq<char>) -> Seq<Seq<char>> {
    let segs = spec_split(p, '/');
    if p.len() > 0 && p[0] == '/' {
        seq![seq!['/']] + spec_kept_segments(segs.drop_first())
    } else if segs[0] == seq!['.'] {
        seq![seq!['.']] + spec_kept_segments(segs.drop_first())
    } else {
        spec_kept_segments(segs)
    }
}

/// `Path::starts_with`: the components of `base` begin those of `path`.
pub open spec fn spec_path_starts_with(path: Seq<char>, base: Seq<char>) -> bool {
    let c = spec_components(path);
    let b = spec_components(base);
    b.len() <= c.len() && c.subrange(0, b.len() as int) == b
}

/// `path` lies under at least one of `roots`.
pub open spec fn spec_under_any_root(path: Seq<char>, roots: Seq<String>) -> bool {
    exists|i: int| 0 <= i < roots.len() && spec_path_starts_with(path, #[trigger] roots[i]@)
}

/// The message refusing a read outside the configured roots.
pub open spec fn spec_outside_roots_message(path: Seq<char>) -> Seq<char> {
    "attach-paths: path "@ + path + " is outside the configured allowed_attach_paths.json roots"@
}

/// The message refusing a read of something that is no file.
pub open spec fn spec_not_a_file_message(path: Seq<char>) -> Seq<char> {
    "attach-paths: not a file: "@ + path
}

/// The views of a sequence of strings.
pub open spec fn spec_views(s: Seq<String>) -> Seq<Seq<char>> {
    s.map_values(|x: String| x@)
}

/// `PathBuf::join` of a relative `rel` onto `base`: a `/` between them
/// unless `base` is empty or already ends with one.
pub open spec fn spec_join(base: Seq<char>, rel: Seq<char>) -> Seq<char> {
    if base.len() == 0 || base.last() == '/' {
        base + rel
    } else {
        base + seq!['/'] + rel
    }
}

/// A joined path begins with the path it was joined onto.
pub proof fn lemma_join_extends(base: Seq<char>, rel: Seq<char>)
    ensures
        spec_starts_with(spec_join(base, rel), base),
{
    assert(spec_join(base, rel).subrange(0, base.len() as int) =~= base);
}

/// `base` joined with the relative path `rel`.
pub fn join(base: &str, rel: &str) -> (res: String)
    ensures
        res@ == spec_join(base@, rel@),
{
    let v = chars_of(base);
    let mut s = owned(base);
    if v.len() > 0 && v[v.len() - 1] != '/' {
        crate::text::string_push(&mut s, '/');
    }
    push_str(&mut s, rel);
    s
}

// ---------------------------------------------------------------------------
// Components
// ---------------------------------------------------------------------------

/// Components of `v[from..]` after the segment that ends at `from - 1`.
fn kept_segments_from(v: &[char], from: usize, acc: &mut Vec<String>)
    requires
        from <= v@.len(),
    ensures
        spec_views(final(acc)@) == spec_views(old(acc)@) + spec_kept_segments(
            spec_split(v@.subrange(from as int, v@.len() as int), '/'),
        ),
{
    let len = v.len();
    let mut pos = from;
    while pos <= len
        invariant
            from <= pos <= len,
            len == v@.len(),
            spec_views(acc@) + spec_kept_segments(spec_split(v@.subrange(pos as int, len as int), '/'))
                == spec_views(old(acc)@) + spec_kept_segments(
                spec_split(v@.subrange(from as int, len as int), '/'),
            ),
        decreases len - pos,
    {
        let ghost rest = v@.subrange(pos as int, len as int);
        let found = find_char(v, pos, len, '/');
        proof {
            lemma_find_bounds(rest, '/');
        }
        let end = match found {
            Some(i) => pos + i,
            None => len,
        };
        let ghost seg = v@.subrange(pos as int, end as int);
        let ghost segs = spec_split(rest, '/');
        assert(segs[0] == seg) by {
            if found is Some {
                assert(rest.subrange(0, end - pos) =~= seg);
            } else {
                assert(rest =~= seg);
            }
        }
        let ghost acc0 = acc@;
        if end > pos && !chars_eq(v, pos, end, ".") {
            proof {
                reveal_strlit(".");
                assert("."@ =~= seq!['.']);
            }
            acc.push(string_of(v, pos, end));
            assert(spec_views(acc@) =~= spec_views(acc0) + seq![seg]);
        } else {
            proof {
                reveal_strlit(".");
                assert("."@ =~= seq!['.']);
            }
            assert(spec_views(acc@) =~= spec_views(acc0) + Seq::<Seq<char>>::empty());
        }
        match found {
            None => {
                assert(segs.drop_first() =~= Seq::<Seq<char>>::empty());
                assert(spec_kept_segments(segs.drop_first()) =~= Seq::<Seq<char>>::empty());
                assert(spec_kept_segments(segs) =~= (if spec_is_kept_segment(seg) {
                    seq![seg]
                } else {
                    seq![]
                }));
                return;
            },
            Some(i) => {
                assert(rest.subrange(i + 1, rest.len() as int) =~= v@.subrange(
                    (pos + i + 1) as int,
                    len as int,
                ));
                assert(segs.drop_first() =~= spec_split(rest.subrange(i + 1, rest.len() as int), '/'));
                pos = pos + i + 1;
            },
        }
    }
}

/// The components of the path `p` (`Path::components`, Unix rules).
pub fn path_components(p: &str) -> (res: Vec<String>)
    ensures
        spec_views(res@) == spec_components(p@),
{
    let v = chars_of(p);
    let mut acc: Vec<String> = Vec::new();
    let ghost segs = spec_split(p@, '/');
    assert(v@.subrange(0, v@.len() as int) =~= v@);
    let found = find_char(v.as_slice(), 0, v.len(), '/');
    proof {
        lemma_find_bounds(v@, '/');
    }
    let first_end = match found {
        Some(i) => i,
        None => v.len(),
    };
    assert(segs[0] == v@.subrange(0, first_end as int)) by {
        if found is Some {
            assert(v@.subrange(0, first_end as int) == v@.subrange(0, spec_find(v@, '/')));
        } else {
            assert(v@.subrange(0, first_end as int) =~= v@);
        }
    }
    let ghost tail = match found {
        Some(i) => spec_split(v@.subrange(i + 1, v@.len() as int), '/'),
        None => Seq::<Seq<char>>::empty(),
    };
    assert(segs.drop_first() =~= tail);
    if v.len() > 0 && v[0] == '/' {
        acc.push(owned_slash());
        let ghost acc0 = acc@;
        assert(first_end == 0);
        kept_segments_from(v.as_slice(), 1, &mut acc);
        assert(spec_views(acc0) =~= seq![seq!['/']]);
        return acc;
    }
    let dot = chars_eq(v.as_slice(), 0, first_end, ".");
    proof {
        reveal_strlit(".");
        assert("."@ =~= seq!['.']);
    }
    if dot {
        acc.push(string_of(v.as_slice(), 0, first_end));
        let ghost acc0 = acc@;
        assert(spec_views(acc0) =~= seq![seq!['.']]);
        match found {
            Some(i) => {
                kept_segments_from(v.as_slice(), i + 1, &mut acc);
            },
            None => {
                assert(spec_kept_segments(tail) =~= Seq::<Seq<char>>::empty());
            },
        }
        return acc;
    }
    kept_segments_from(v.as_slice(), 0, &mut acc);
    acc
}

/// The string `/`.
fn owned_slash() -> (res: String)
    ensures
        res@ == seq!['/'],
{
    let mut s = String::new();
    crate::text::string_push(&mut s, '/');
    assert(s@ =~= seq!['/']);
    s
}

/// Whether the components of `base` begin those of `path`
/// (`Path::starts_with`).
pub fn path_starts_with(path: &str, base: &str) -> (res: bool)
    ensures
        res == spec_path_starts_with(path@, base@),
{
    let c = path_components(path);
    let b = path_components(base);
    if b.len() > c.len() {
        return false;
    }
    let mut i: usize = 0;
    while i < b.len()
        invariant
            b@.len() <= c@.len(),
            0 <= i <= b@.len(),
            spec_views(c@) == spec_components(path@),
            spec_views(b@) == spec_components(base@),
            forall|j: int| 0 <= j < i ==> c@[j]@ == b@[j]@,
        decreases b@.len() - i,
    {
        let ci = chars_of(c[i].as_str());
        assert(ci@.subrange(0, ci@.len() as int) =~= ci@);
        if !chars_eq(ci.as_slice(), 0, ci.len(), b[i].as_str()) {
            assert(spec_views(c@)[i as int] != spec_views(b@)[i as int]);
            return false;
        }
        i = i + 1;
    }
    assert(spec_views(c@).subrange(0, b@.len() as int) =~= spec_views(b@));
    true
}

/// Whether `path` (already canonical) lies under at least one of the
/// canonical `roots`. This bounds what remote-attach reads can reach.
pub fn is_under_any_allowed_root(path: &str, roots: &Vec<String>) -> (res: bool)
    ensures
        res == spec_under_any_root(path@, roots@),
{
    let mut i: usize = 0;
    while i < roots.len()
        invariant
            0 <= i <= roots@.len(),
            forall|j: int| 0 <= j < i ==> !spec_path_starts_with(path@, #[trigger] roots@[j]@),
        decreases roots@.len() - i,
    {
        if path_starts_with(path, roots[i].as_str()) {
            return true;
        }
        i = i + 1;
    }
    false
}

/// Whether a remote-attach read of `path` (canonical) may go ahead: refused
/// when the path lies under none of the canonical `roots`, then when it is
/// no regular file.
pub fn check_attach_read(path: &str, roots: &Vec<String>, is_file: bool) -> (res: Result<(), String>)
    ensures
        !spec_under_any_root(path@, roots@) ==> (res matches Err(m) && m@ == spec_outside_roots_message(path@)),
        spec_under_any_root(path@, roots@) && !is_file ==> (res matches Err(m) && m@ == spec_not_a_file_message(path@)),
        spec_under_any_root(path@, roots@) && is_file ==> res is Ok,
{
    if !is_under_any_allowed_root(path, roots) {
        let mut m = String::new();
        push_str(&mut m, "attach-paths: path ");
        push_str(&mut m, path);
        push_str(&mut m, " is outside the configured allowed_attach_paths.json roots");
        return Err(m);
    }
    if !is_file {
        let mut m = String::new();
        push_str(&mut m, "attach-paths: not a file: ");
        push_str(&mut m, path);
        return Err(m);
    }
    Ok(())
}

/// The reply to a remote-attach read: the file's bytes in standard base64,
/// and their number.
pub fn attach_file_bytes(bytes: &[u8]) -> (res: AttachFileBytes)
    requires
        (bytes@.len() / 3) * 4 + 4 <= usize::MAX,
    ensures
        res.base64@ == spec_base64_std(bytes@),
        res.size == bytes@.len(),
{
    let base64 = base64_encode_std(bytes);
    AttachFileBytes { base64, size: bytes.len() as u64 }
}

/// Every configured root admits what lies under it, wherever it stands in
/// the list.
pub proof fn lemma_each_root_admits(path: Seq<char>, roots: Seq<String>, i: int)
    requires
        0 <= i < roots.len(),
        spec_path_starts_with(path, roots[i]@),
    ensures
        spec_under_any_root(path, roots),
{
}

/// A single root admits exactly the paths whose components it begins; no
/// root admits nothing.
pub proof fn lemma_single_root(path: Seq<char>, root: String)
    ensures
        spec_under_any_root(path, seq![root]) == spec_path_starts_with(path, root@),
        !spec_under_any_root(path, Seq::<String>::empty()),
{
    if spec_path_starts_with(path, root@) {
        assert(seq![root][0] == root);
    }
}

/// Joining two lists of roots admits what either list admits, and nothing
/// else: the order of the roots does not matter.
pub proof fn lemma_roots_union(path: Seq<char>, a: Seq<String>, b: Seq<String>)
    ensures
        spec_under_any_root(path, a + b) == (spec_under_any_root(path, a) || spec_under_any_root(path, b)),
        spec_under_any_root(path, a + b) == spec_under_any_root(path, b + a),
{
    if spec_under_any_root(path, a) {
        let i = choose|i: int| 0 <= i < a.len() && spec_path_starts_with(path, #[trigger] a[i]@);
        assert((a + b)[i] == a[i]);
        assert((b + a)[b.len() + i] == a[i]);
    }
    if spec_under_any_root(path, b) {
        let i = choose|i: int| 0 <= i < b.len() && spec_path_starts_with(path, #[trigger] b[i]@);
        assert((a + b)[a.len() + i] == b[i]);
        assert((b + a)[i] == b[i]);
    }
    if spec_under_any_root(path, a + b) {
        let i = choose|i: int| 0 <= i < (a + b).len() && spec_path_starts_with(path, #[trigger] (a + b)[i]@);
        if i < a.len() {
            assert((a + b)[i] == a[i]);
        } else {
            assert((a + b)[i] == b[i - a.len()]);
        }
    }
    if spec_under_any_root(path, b + a) {
        let i = choose|i: int| 0 <= i < (b + a).len() && spec_path_starts_with(path, #[trigger] (b + a)[i]@);
        if i < b.len() {
            assert((b + a)[i] == b[i]);
        } else {
            assert((b + a)[i] == a[i - b.len()]);
        }
    }
}

} // verus!
