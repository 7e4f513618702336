//! JSON values as the invoke dispatcher reads them, and the argument helpers
//! it uses: string fields tried under several spellings, the `{ args: [...] }`
//! array of the filesystem routes, and key renaming.

use vstd::prelude::*;

use crate::paths::spec_views;
use crate::text::{owned, push_str, str_eq, string_push};

verus! {

/// A JSON value. Numbers keep their textual form; an object keeps its
/// members in order, each key at most once.
#[derive(Debug)]
pub enum JsonValue {
    Null,
    Bool(bool),
    Number(String),
    Str(String),
    Array(Vec<JsonValue>),
    Object(Vec<(String, JsonValue)>),
}

/// An object member by the view of its key.
pub open spec fn spec_member(f: (String, JsonValue)) -> (Seq<char>, JsonValue) {
    (f.0@, f.1)
}

/// The members of an object by the views of their keys.
pub open spec fn spec_members(fields: Seq<(String, JsonValue)>) -> Seq<(Seq<char>, JsonValue)> {
    fields.map_values(|f: (String, JsonValue)| spec_member(f))
}

/// Position of the first member named `k`, or -1.
pub open spec fn spec_member_index(fields: Seq<(Seq<char>, JsonValue)>, k: Seq<char>) -> int
    decreases fields.len(),
{
    if fields.len() == 0 {
        -1
    } else if fields[0].0 == k {
        0
    } else {
        let r = spec_member_index(fields.drop_first(), k);
        if r < 0 {
            -1
        } else {
            r + 1
        }
    }
}

/// `Value::get`: the member `k` of an object; nothing for other values.
pub open spec fn spec_get(v: JsonValue, k: Seq<char>) -> Option<JsonValue> {
    match v {
        JsonValue::Object(f) => {
            let i = spec_member_index(spec_members(f@), k);
            if i < 0 {
                None
            } else {
                Some(f@[i].1)
            }
        },
        _ => None,
    }
}

/// The first of `keys` under which `v` holds a string, and that string.
pub open spec fn spec_arg_str(v: JsonValue, keys: Seq<Seq<char>>) -> Option<Seq<char>>
    decreases keys.len(),
{
    if keys.len() == 0 {
        None
    } else {
        match spec_get(v, keys[0]) {
            Some(JsonValue::Str(s)) => Some(s@),
            _ => spec_arg_str(v, keys.drop_first()),
        }
    }
}

/// The value under the first of `keys` that `v` holds.
pub open spec fn spec_arg_value(v: JsonValue, keys: Seq<Seq<char>>) -> Option<JsonValue>
    decreases keys.len(),
{
    if keys.len() == 0 {
        None
    } else {
        match spec_get(v, keys[0]) {
            Some(x) => Some(x),
            None => spec_arg_value(v, keys.drop_first()),
        }
    }
}

/// `k` in double quotes.
pub open spec fn spec_quoted(k: Seq<char>) -> Seq<char> {
    seq!['"'] + k + seq!['"']
}

/// The quoted keys separated by `, `.
pub open spec fn spec_quoted_list(keys: Seq<Seq<char>>) -> Seq<char>
    decreases keys.len(),
{
    if keys.len() == 0 {
        seq![]
    } else if keys.len() == 1 {
        spec_quoted(keys[0])
    } else {
        spec_quoted(keys[0]) + ", "@ + spec_quoted_list(keys.drop_first())
    }
}

/// The list of keys as the error messages print it: `["a", "b"]`.
pub open spec fn spec_keys_text(keys: Seq<Seq<char>>) -> Seq<char> {
    seq!['['] + spec_quoted_list(keys) + seq![']']
}

/// The error for a missing string argument.
pub open spec fn spec_missing_string(keys: Seq<Seq<char>>) -> Seq<char> {
    "Missing string field (tried "@ + spec_keys_text(keys) + seq![')']
}

/// The error for a missing argument of any kind.
pub open spec fn spec_missing_value(keys: Seq<Seq<char>>) -> Seq<char> {
    "Missing object field (tried "@ + spec_keys_text(keys) + seq![')']
}

/// Every item is a string.
pub open spec fn spec_all_strings(items: Seq<JsonValue>) -> bool {
    forall|i: int| 0 <= i < items.len() ==> (#[trigger] items[i]) is Str
}

/// The texts of string items.
pub open spec fn spec_item_texts(items: Seq<JsonValue>) -> Seq<Seq<char>> {
    items.map_values(|x: JsonValue| match x {
        JsonValue::Str(s) => s@,
        _ => Seq::empty(),
    })
}

/// The `{ args: [...] }` strings of a filesystem route.
pub open spec fn spec_fs_args(v: JsonValue) -> Result<Seq<Seq<char>>, Seq<char>> {
    match spec_get(v, "args"@) {
        Some(JsonValue::Array(items)) => if spec_all_strings(items@) {
            Ok(spec_item_texts(items@))
        } else {
            Err("fs arg is not a string"@)
        },
        _ => Err("Expected { args: [...] }"@),
    }
}

/// The texts of the string items of an array, in order (other items are
/// left out).
pub open spec fn spec_string_items(items: Seq<JsonValue>) -> Seq<Seq<char>>
    decreases items.len(),
{
    if items.len() == 0 {
        seq![]
    } else {
        (match items[0] {
            JsonValue::Str(s) => seq![s@],
            _ => seq![],
        }) + spec_string_items(items.drop_first())
    }
}

/// The name `k` is renamed to: the target of the first mapping from `k`,
/// or `k` itself.
pub open spec fn spec_renamed(k: Seq<char>, mappings: Seq<(Seq<char>, Seq<char>)>) -> Seq<char>
    decreases mappings.len(),
{
    if mappings.len() == 0 {
        k
    } else if mappings[0].0 == k {
        mappings[0].1
    } else {
        spec_renamed(k, mappings.drop_first())
    }
}

/// Sets member `k` of `acc` to `v`: in place when it is there, at the end
/// otherwise.
pub open spec fn spec_set_member(acc: Seq<(Seq<char>, JsonValue)>, k: Seq<char>, v: JsonValue) -> Seq<(Seq<char>, JsonValue)> {
    let i = spec_member_index(acc, k);
    if i < 0 {
        acc.push((k, v))
    } else {
        acc.update(i, (k, v))
    }
}

/// The members of an object with their keys renamed, later members winning
/// over earlier ones renamed to the same key.
pub open spec fn spec_renamed_members(
    acc: Seq<(Seq<char>, JsonValue)>,
    fields: Seq<(Seq<char>, JsonValue)>,
    mappings: Seq<(Seq<char>, Seq<char>)>,
) -> Seq<(Seq<char>, JsonValue)>
    decreases fields.len(),
{
    if fields.len() == 0 {
        acc
    } else {
        spec_renamed_members(
            spec_set_member(acc, spec_renamed(fields[0].0, mappings), fields[0].1),
            fields.drop_first(),
            mappings,
        )
    }
}

/// The keys of a slice of string literals.
pub open spec fn spec_keys(keys: Seq<&str>) -> Seq<Seq<char>> {
    keys.map_values(|k: &str| k@)
}

/// The mappings of a slice of pairs of string literals.
pub open spec fn spec_mappings(m: Seq<(&str, &str)>) -> Seq<(Seq<char>, Seq<char>)> {
    m.map_values(|p: (&str, &str)| (p.0@, p.1@))
}

// ---------------------------------------------------------------------------
// Executable helpers
// ---------------------------------------------------------------------------

/// Position of the first member named `k`.
pub fn member_index(fields: &Vec<(String, JsonValue)>, k: &str) -> (res: Option<usize>)
    ensures
        res is None <==> spec_member_index(spec_members(fields@), k@) < 0,
        res matches Some(i) ==> i == spec_member_index(spec_members(fields@), k@) && i < fields@.len(),
{
    let ghost m = spec_members(fields@);
    let mut i: usize = 0;
    while i < fields.len()
        invariant
            0 <= i <= fields@.len(),
            m == spec_members(fields@),
            forall|j: int| 0 <= j < i ==> m[j].0 != k@,
        decreases fields@.len() - i,
    {
        if str_eq(fields[i].0.as_str(), k) {
            proof {
                lemma_member_index_is(m, k@, i as int);
            }
            return Some(i);
        }
        i = i + 1;
    }
    proof {
        lemma_member_index_is(m, k@, m.len() as int);
    }
    None
}

/// The first member named `k` is at `i` when no earlier one is; with
/// `i == fields.len()` there is none.
proof fn lemma_member_index_is(fields: Seq<(Seq<char>, JsonValue)>, k: Seq<char>, i: int)
    requires
        0 <= i <= fields.len(),
        forall|j: int| 0 <= j < i ==> fields[j].0 != k,
        i < fields.len() ==> fields[i].0 == k,
    ensures
        spec_member_index(fields, k) == (if i < fields.len() { i } else { -1 }),
    decreases fields.len(),
{
    if fields.len() > 0 && i > 0 {
        assert forall|j: int| 0 <= j < i - 1 implies fields.drop_first()[j].0 != k by {
            assert(fields.drop_first()[j] == fields[j + 1]);
        }
        lemma_member_index_is(fields.drop_first(), k, i - 1);
    }
}

/// `spec_member_index` is -1 or the position of a member named `k`.
proof fn lemma_member_index_bounds(fields: Seq<(Seq<char>, JsonValue)>, k: Seq<char>)
    ensures
        -1 <= spec_member_index(fields, k) < fields.len(),
        spec_member_index(fields, k) >= 0 ==> fields[spec_member_index(fields, k)].0 == k,
    decreases fields.len(),
{
    if fields.len() > 0 && fields[0].0 != k {
        lemma_member_index_bounds(fields.drop_first(), k);
    }
}

/// The member `k` of `v`, if `v` is an object that has one.
pub fn get<'a>(v: &'a JsonValue, k: &str) -> (res: Option<&'a JsonValue>)
    ensures
        match res {
            Some(x) => spec_get(*v, k@) == Some(*x),
            None => spec_get(*v, k@) is None,
        },
{
    match v {
        JsonValue::Object(fields) => match member_index(fields, k) {
            Some(i) => Some(&fields[i].1),
            None => None,
        },
        _ => None,
    }
}

/// Appends `["a", "b"]` for the keys to `m`.
fn push_keys_text(m: &mut String, keys: &[&str])
    ensures
        final(m)@ == old(m)@ + spec_keys_text(spec_keys(keys@)),
{
    string_push(m, '[');
    let ghost start = m@;
    let ghost ks = spec_keys(keys@);
    let mut i: usize = 0;
    while i < keys.len()
        invariant
            0 <= i <= keys@.len(),
            ks == spec_keys(keys@),
            m@ + (if i == 0 {
                spec_quoted_list(ks)
            } else if i < keys@.len() {
                ", "@ + spec_quoted_list(ks.subrange(i as int, ks.len() as int))
            } else {
                Seq::empty()
            }) == start + spec_quoted_list(ks),
        decreases keys@.len() - i,
    {
        let ghost rest = ks.subrange(i as int, ks.len() as int);
        assert(rest.drop_first() =~= ks.subrange(i + 1, ks.len() as int));
        assert(rest[0] == keys@[i as int]@);
        if i > 0 {
            push_str(m, ", ");
        }
        string_push(m, '"');
        push_str(m, keys[i]);
        string_push(m, '"');
        i = i + 1;
        assert(ks.subrange(0, ks.len() as int) =~= ks);
    }
    string_push(m, ']');
    assert(m@ =~= old(m)@ + spec_keys_text(ks));
}

/// `arg_str`: the string under the first of `keys` that holds one; an error
/// naming the keys otherwise.
pub fn arg_str(args: &JsonValue, keys: &[&str]) -> (res: Result<String, String>)
    ensures
        match spec_arg_str(*args, spec_keys(keys@)) {
            Some(s) => res matches Ok(x) && x@ == s,
            None => res matches Err(m) && m@ == spec_missing_string(spec_keys(keys@)),
        },
{
    let ghost ks = spec_keys(keys@);
    let mut i: usize = 0;
    assert(ks.subrange(0, ks.len() as int) =~= ks);
    while i < keys.len()
        invariant
            0 <= i <= keys@.len(),
            ks == spec_keys(keys@),
            spec_arg_str(*args, ks.subrange(i as int, ks.len() as int)) == spec_arg_str(*args, ks),
        decreases keys@.len() - i,
    {
        let ghost rest = ks.subrange(i as int, ks.len() as int);
        assert(rest.drop_first() =~= ks.subrange(i + 1, ks.len() as int));
        assert(rest[0] == keys@[i as int]@);
        match get(args, keys[i]) {
            Some(JsonValue::Str(s)) => {
                return Ok(owned(s.as_str()));
            },
            _ => {},
        }
        i = i + 1;
    }
    assert(ks.subrange(i as int, ks.len() as int) =~= Seq::<Seq<char>>::empty());
    let mut m = owned("Missing string field (tried ");
    push_keys_text(&mut m, keys);
    string_push(&mut m, ')');
    Err(m)
}

/// Removes and returns member `i` of `fields`.
pub(crate) fn take_member(fields: Vec<(String, JsonValue)>, i: usize) -> (res: JsonValue)
    requires
        i < fields@.len(),
    ensures
        res == fields@[i as int].1,
{
    let mut f = fields;
    let (_, v) = f.remove(i);
    v
}

/// `arg_value`: the value under the first of `keys` that `args` holds
/// (taken out of `args`); an error naming the keys otherwise.
pub fn arg_value(args: JsonValue, keys: &[&str]) -> (res: Result<JsonValue, String>)
    ensures
        match spec_arg_value(args, spec_keys(keys@)) {
            Some(x) => res == Ok::<JsonValue, String>(x),
            None => res matches Err(m) && m@ == spec_missing_value(spec_keys(keys@)),
        },
{
    let ghost ks = spec_keys(keys@);
    let mut i: usize = 0;
    assert(ks.subrange(0, ks.len() as int) =~= ks);
    while i < keys.len()
        invariant
            0 <= i <= keys@.len(),
            ks == spec_keys(keys@),
            spec_arg_value(args, ks.subrange(i as int, ks.len() as int)) == spec_arg_value(args, ks),
        decreases keys@.len() - i,
    {
        let ghost rest = ks.subrange(i as int, ks.len() as int);
        assert(rest.drop_first() =~= ks.subrange(i + 1, ks.len() as int));
        assert(rest[0] == keys@[i as int]@);
        let found = match &args {
            JsonValue::Object(fields) => member_index(fields, keys[i]),
            _ => None,
        };
        if let Some(j) = found {
            match args {
                JsonValue::Object(fields) => {
                    return Ok(take_member(fields, j));
                },
                _ => {},
            }
        }
        i = i + 1;
    }
    assert(ks.subrange(i as int, ks.len() as int) =~= Seq::<Seq<char>>::empty());
    let mut m = owned("Missing object field (tried ");
    push_keys_text(&mut m, keys);
    string_push(&mut m, ')');
    Err(m)
}

/// The texts of `items` when all are strings.
fn item_texts(items: &Vec<JsonValue>) -> (res: Option<Vec<String>>)
    ensures
        res is Some <==> spec_all_strings(items@),
        res matches Some(v) ==> spec_views(v@) == spec_item_texts(items@),
{
    let mut out: Vec<String> = Vec::new();
    let mut i: usize = 0;
    while i < items.len()
        invariant
            0 <= i <= items@.len(),
            out@.len() == i,
            forall|j: int| 0 <= j < i ==> (#[trigger] items@[j]) is Str,
            forall|j: int| 0 <= j < i ==> spec_views(out@)[j] == spec_item_texts(items@)[j],
        decreases items@.len() - i,
    {
        match &items[i] {
            JsonValue::Str(s) => {
                out.push(owned(s.as_str()));
            },
            _ => {
                return None;
            },
        }
        i = i + 1;
    }
    assert(spec_views(out@) =~= spec_item_texts(items@));
    Some(out)
}

/// `fs_args`: the strings of the `{ args: [...] }` array.
pub fn fs_args(args: &JsonValue) -> (res: Result<Vec<String>, String>)
    ensures
        match spec_fs_args(*args) {
            Ok(v) => res matches Ok(x) && spec_views(x@) == v,
            Err(e) => res matches Err(m) && m@ == e,
        },
{
    match get(args, "args") {
        Some(JsonValue::Array(items)) => match item_texts(items) {
            Some(v) => Ok(v),
            None => Err(owned("fs arg is not a string")),
        },
        _ => Err(owned("Expected { args: [...] }")),
    }
}

/// The texts of the string items of `items`, in order.
pub fn string_items(items: &Vec<JsonValue>) -> (res: Vec<String>)
    ensures
        spec_views(res@) == spec_string_items(items@),
{
    let mut out: Vec<String> = Vec::new();
    let mut i: usize = 0;
    assert(items@.subrange(0, items@.len() as int) =~= items@);
    while i < items.len()
        invariant
            0 <= i <= items@.len(),
            spec_views(out@) + spec_string_items(items@.subrange(i as int, items@.len() as int))
                == spec_string_items(items@),
        decreases items@.len() - i,
    {
        let ghost rest = items@.subrange(i as int, items@.len() as int);
        assert(rest.drop_first() =~= items@.subrange(i + 1, items@.len() as int));
        let ghost before = out@;
        match &items[i] {
            JsonValue::Str(s) => {
                out.push(owned(s.as_str()));
                assert(spec_views(out@) =~= spec_views(before) + seq![s@]);
            },
            _ => {
                assert(spec_views(out@) =~= spec_views(before) + Seq::<Seq<char>>::empty());
            },
        }
        i = i + 1;
    }
    assert(items@.subrange(i as int, items@.len() as int) =~= Seq::<JsonValue>::empty());
    assert(spec_views(out@) =~= spec_string_items(items@));
    out
}

/// The name `k` is renamed to.
fn renamed(k: &str, mappings: &[(&str, &str)]) -> (res: String)
    ensures
        res@ == spec_renamed(k@, spec_mappings(mappings@)),
{
    let ghost ms = spec_mappings(mappings@);
    let mut i: usize = 0;
    assert(ms.subrange(0, ms.len() as int) =~= ms);
    while i < mappings.len()
        invariant
            0 <= i <= mappings@.len(),
            ms == spec_mappings(mappings@),
            spec_renamed(k@, ms.subrange(i as int, ms.len() as int)) == spec_renamed(k@, ms),
        decreases mappings@.len() - i,
    {
        let ghost rest = ms.subrange(i as int, ms.len() as int);
        assert(rest.drop_first() =~= ms.subrange(i + 1, ms.len() as int));
        assert(rest[0] == (mappings@[i as int].0@, mappings@[i as int].1@));
        if str_eq(mappings[i].0, k) {
            return owned(mappings[i].1);
        }
        i = i + 1;
    }
    assert(ms.subrange(i as int, ms.len() as int) =~= Seq::<(Seq<char>, Seq<char>)>::empty());
    owned(k)
}

/// Sets member `k` to `v`, in place when it is there.
fn set_member(acc: &mut Vec<(String, JsonValue)>, k: String, v: JsonValue)
    ensures
        spec_members(final(acc)@) == spec_set_member(spec_members(old(acc)@), k@, v),
{
    let ghost m = spec_members(acc@);
    let ghost kk = k@;
    match member_index(acc, k.as_str()) {
        Some(i) => {
            acc.set(i, (k, v));
            assert(spec_members(acc@) =~= m.update(i as int, (kk, v)));
        },
        None => {
            acc.push((k, v));
            assert(spec_members(acc@) =~= m.push((kk, v)));
        },
    }
}

/// `normalize_keys`: an object with its member names renamed by
/// `mappings`; any other value unchanged.
pub fn normalize_keys(args: JsonValue, mappings: &[(&str, &str)]) -> (res: JsonValue)
    ensures
        match args {
            JsonValue::Object(f) => res matches JsonValue::Object(g) && spec_members(g@) == spec_renamed_members(
                Seq::empty(),
                spec_members(f@),
                spec_mappings(mappings@),
            ),
            _ => res == args,
        },
{
    match args {
        JsonValue::Object(fields) => {
            let ghost all = spec_members(fields@);
            let ghost ms = spec_mappings(mappings@);
            let mut rest: Vec<(String, JsonValue)> = Vec::new();
            let mut input = fields;
            let ghost orig = input@;
            while input.len() > 0
                invariant
                    rest@ + input@.reverse() == orig.reverse(),
                decreases input@.len(),
            {
                let ghost before = input@;
                let x = input.pop().unwrap();
                assert(before.reverse() =~= seq![x] + input@.reverse());
                rest.push(x);
                assert(rest@ + input@.reverse() =~= orig.reverse());
            }
            assert(rest@ =~= orig.reverse());
            let mut out: Vec<(String, JsonValue)> = Vec::new();
            let n = rest.len();
            assert(all.subrange(0, all.len() as int) =~= all);
            assert(spec_members(out@) =~= Seq::<(Seq<char>, JsonValue)>::empty());
            while rest.len() > 0
                invariant
                    n == orig.len(),
                    rest@.len() <= n,
                    rest@ == orig.reverse().subrange(0, rest@.len() as int),
                    all == spec_members(orig),
                    ms == spec_mappings(mappings@),
                    spec_renamed_members(
                        spec_members(out@),
                        all.subrange(n - rest@.len(), all.len() as int),
                        ms,
                    ) == spec_renamed_members(Seq::empty(), all, ms),
                decreases rest@.len(),
            {
                let k = n - rest.len();
                let (name, value) = rest.pop().unwrap();
                assert((name, value) == orig[k as int]);
                assert(rest@ =~= orig.reverse().subrange(0, rest@.len() as int));
                let ghost tail = all.subrange(k as int, all.len() as int);
                assert(tail.drop_first() =~= all.subrange(k + 1, all.len() as int));
                assert(tail[0] == (name@, value));
                let new_name = renamed(name.as_str(), mappings);
                set_member(&mut out, new_name, value);
            }
            assert(all.subrange(n as int, all.len() as int) =~= Seq::<(Seq<char>, JsonValue)>::empty());
            JsonValue::Object(out)
        },
        other => other,
    }
}

} // verus!
