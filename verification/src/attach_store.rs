//! The remote-attach allow-list, kept in `<jan_data_folder>/allowed_attach_paths.json`
//! as a plain JSON array of path strings. A missing or corrupt file, or one
//! whose top level is no array of strings (and nulls), is an empty
//! allow-list. Nulls and blank entries are dropped and the others trimmed, so
//! a hand-edited file with a stray `null` still degrades gracefully.

use vstd::prelude::*;

use crate::paths::spec_views;
use crate::text::{opt_view, spec_trim, trimmed};

verus! {

/// Name of the allow-list file inside the data folder.
pub const ATTACH_PATHS_FILE: &'static str = "allowed_attach_paths.json";

/// What `serde_json` parses from `bytes` as a `Vec<Option<String>>` (an
/// array whose items are strings or `null`): `None` when it refuses them.
pub uninterp spec fn spec_json_path_list(bytes: Seq<u8>) -> Option<Seq<Option<Seq<char>>>>;

/// Parses `bytes` as a JSON array of strings and nulls
/// (`serde_json::from_slice`); `None` where the crate returns an error.
#[verifier::external_body]
fn json_path_list(bytes: &[u8]) -> (res: Option<Vec<Option<String>>>)
    ensures
        res is Some <==> spec_json_path_list(bytes@) is Some,
        res is Some ==> spec_opt_views(res->0@) == spec_json_path_list(bytes@)->0,
{
    serde_json::from_slice::<Vec<Option<String>>>(bytes).ok()
}

/// The views of optional strings.
pub open spec fn spec_opt_views(v: Seq<Option<String>>) -> Seq<Option<Seq<char>>> {
    v.map_values(|o: Option<String>| opt_view(o))
}

/// The strings of a list, its nulls left out.
pub open spec fn spec_present(list: Seq<Option<Seq<char>>>) -> Seq<Seq<char>>
    decreases list.len(),
{
    if list.len() == 0 {
        seq![]
    } else {
        spec_present(list.drop_last()) + match list.last() {
            Some(s) => seq![s],
            None => Seq::<Seq<char>>::empty(),
        }
    }
}

/// The strings of a list, its nulls left out.
pub fn present_paths(list: Vec<Option<String>>) -> (res: Vec<String>)
    ensures
        spec_views(res@) == spec_present(spec_opt_views(list@)),
{
    let ghost all = spec_opt_views(list@);
    let mut out: Vec<String> = Vec::new();
    let mut i: usize = 0;
    assert(all.take(0) =~= Seq::<Option<Seq<char>>>::empty());
    assert(spec_views(out@) =~= Seq::<Seq<char>>::empty());
    while i < list.len()
        invariant
            0 <= i <= list@.len(),
            all == spec_opt_views(list@),
            spec_views(out@) == spec_present(all.take(i as int)),
        decreases list@.len() - i,
    {
        let ghost before = out@;
        assert(all.take(i + 1).drop_last() =~= all.take(i as int));
        assert(all.take(i + 1).last() == opt_view(list@[i as int]));
        match &list[i] {
            Some(p) => {
                out.push(copy_path(p));
                assert(spec_views(out@) =~= spec_views(before) + seq![p@]);
            },
            None => {
                assert(spec_views(out@) =~= spec_views(before) + Seq::<Seq<char>>::empty());
            },
        }
        i = i + 1;
    }
    assert(all.take(list@.len() as int) =~= all);
    out
}

/// A copy of `s`.
fn copy_path(s: &String) -> (res: String)
    ensures
        res@ == s@,
{
    crate::text::owned(s.as_str())
}

/// The entries of an allow-list, trimmed, blank ones dropped.
pub open spec fn spec_clean_paths(list: Seq<Seq<char>>) -> Seq<Seq<char>>
    decreases list.len(),
{
    if list.len() == 0 {
        seq![]
    } else {
        let t = spec_trim(list[0]);
        (if t.len() > 0 {
            seq![t]
        } else {
            seq![]
        }) + spec_clean_paths(list.drop_first())
    }
}

/// The allow-list held by the file content `bytes`.
pub open spec fn spec_allowed_attach_paths(bytes: Seq<u8>) -> Seq<Seq<char>> {
    match spec_json_path_list(bytes) {
        Some(list) => spec_clean_paths(spec_present(list)),
        None => seq![],
    }
}

/// Trims every entry and drops the blank ones.
pub fn clean_attach_paths(list: Vec<String>) -> (res: Vec<String>)
    ensures
        spec_views(res@) == spec_clean_paths(spec_views(list@)),
{
    let mut out: Vec<String> = Vec::new();
    let mut i: usize = 0;
    let ghost all = spec_views(list@);
    assert(all.subrange(0, all.len() as int) =~= all);
    while i < list.len()
        invariant
            0 <= i <= list@.len(),
            all == spec_views(list@),
            spec_views(out@) + spec_clean_paths(all.subrange(i as int, all.len() as int))
                == spec_clean_paths(all),
        decreases list@.len() - i,
    {
        let ghost rest = all.subrange(i as int, all.len() as int);
        assert(rest.drop_first() =~= all.subrange(i + 1, all.len() as int));
        assert(rest[0] == list@[i as int]@);
        let t = trimmed(list[i].as_str());
        let ghost out0 = out@;
        if !t.as_str().is_empty() {
            out.push(t);
            assert(spec_views(out@) =~= spec_views(out0) + seq![t@]);
        } else {
            assert(spec_views(out@) =~= spec_views(out0) + Seq::<Seq<char>>::empty());
        }
        i = i + 1;
    }
    assert(spec_views(out@) =~= spec_clean_paths(all));
    out
}

/// The allow-list held by the file content `bytes`.
pub fn parse_allowed_attach_paths(bytes: &[u8]) -> (res: Vec<String>)
    ensures
        spec_views(res@) == spec_allowed_attach_paths(bytes@),
{
    match json_path_list(bytes) {
        Some(list) => clean_attach_paths(present_paths(list)),
        None => {
            let v: Vec<String> = Vec::new();
            assert(spec_views(v@) =~= Seq::<Seq<char>>::empty());
            v
        },
    }
}

} // verus!
