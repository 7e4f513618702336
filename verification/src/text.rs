//! Character-level helpers shared by the rest of the library: conversions
//! between strings and character vectors, Unicode whitespace trimming,
//! searching for a separator, ASCII case folding and decimal formatting.

use vstd::prelude::*;

verus! {

// ---------------------------------------------------------------------------
// Specifications
// ---------------------------------------------------------------------------

/// The Unicode `White_Space` property, the set `char::is_whitespace` and
/// `str::trim` use.
pub open spec fn spec_is_whitespace(c: char) -> bool {
    ||| ('\u{9}' <= c && c <= '\u{d}')
    ||| c == ' '
    ||| c == '\u{85}'
    ||| c == '\u{a0}'
    ||| c == '\u{1680}'
    ||| ('\u{2000}' <= c && c <= '\u{200a}')
    ||| c == '\u{2028}'
    ||| c == '\u{2029}'
    ||| c == '\u{202f}'
    ||| c == '\u{205f}'
    ||| c == '\u{3000}'
}

/// `s` without its leading whitespace.
pub open spec fn spec_trim_start(s: Seq<char>) -> Seq<char>
    decreases s.len(),
{
    if s.len() > 0 && spec_is_whitespace(s[0]) {
        spec_trim_start(s.drop_first())
    } else {
        s
    }
}

/// `s` without its trailing whitespace.
pub open spec fn spec_trim_end(s: Seq<char>) -> Seq<char>
    decreases s.len(),
{
    if s.len() > 0 && spec_is_whitespace(s.last()) {
        spec_trim_end(s.drop_last())
    } else {
        s
    }
}

/// `s` without leading and trailing whitespace (`str::trim`).
pub open spec fn spec_trim(s: Seq<char>) -> Seq<char> {
    spec_trim_end(spec_trim_start(s))
}

/// Index of the first occurrence of `c` in `s`, or -1.
pub open spec fn spec_find(s: Seq<char>, c: char) -> int
    decreases s.len(),
{
    if s.len() == 0 {
        -1
    } else if s[0] == c {
        0
    } else {
        let r = spec_find(s.drop_first(), c);
        if r < 0 {
            -1
        } else {
            r + 1
        }
    }
}

/// Index of the last occurrence of `c` in `s`, or -1.
pub open spec fn spec_rfind(s: Seq<char>, c: char) -> int
    decreases s.len(),
{
    if s.len() == 0 {
        -1
    } else if s.last() == c {
        s.len() - 1
    } else {
        spec_rfind(s.drop_last(), c)
    }
}

/// `str::split_once`: the parts before and after the first `c`.
pub open spec fn spec_split_once(s: Seq<char>, c: char) -> Option<(Seq<char>, Seq<char>)> {
    let i = spec_find(s, c);
    if i < 0 {
        None
    } else {
        Some((s.subrange(0, i), s.subrange(i + 1, s.len() as int)))
    }
}

/// `str::rsplit_once`: the parts before and after the last `c`.
pub open spec fn spec_rsplit_once(s: Seq<char>, c: char) -> Option<(Seq<char>, Seq<char>)> {
    let i = spec_rfind(s, c);
    if i < 0 {
        None
    } else {
        Some((s.subrange(0, i), s.subrange(i + 1, s.len() as int)))
    }
}

/// `str::split` on a single character: the pieces between the separators,
/// empty pieces included.
pub open spec fn spec_split(s: Seq<char>, c: char) -> Seq<Seq<char>>
    decreases s.len(),
{
    let i = spec_find(s, c);
    if i < 0 {
        seq![s]
    } else {
        proof {
            lemma_find_bounds(s, c);
        }
        seq![s.subrange(0, i)] + spec_split(s.subrange(i + 1, s.len() as int), c)
    }
}

/// `s` begins with `p`.
pub open spec fn spec_starts_with(s: Seq<char>, p: Seq<char>) -> bool {
    p.len() <= s.len() && s.subrange(0, p.len() as int) == p
}

/// ASCII lower-casing of one character (`char::to_ascii_lowercase`).
pub open spec fn spec_ascii_lower(c: char) -> char {
    if 'A' <= c && c <= 'Z' {
        ((c as u32) + 32) as char
    } else {
        c
    }
}

/// ASCII lower-casing of a string (`str::to_ascii_lowercase`).
pub open spec fn spec_ascii_lowercase(s: Seq<char>) -> Seq<char> {
    s.map_values(|c: char| spec_ascii_lower(c))
}

/// The decimal digit for `d < 10`.
pub open spec fn spec_digit(d: nat) -> char {
    ((d + 48) as u32) as char
}

/// Decimal representation of `n`, without leading zeros.
pub open spec fn spec_decimal(n: nat) -> Seq<char>
    decreases n,
{
    if n < 10 {
        seq![spec_digit(n)]
    } else {
        spec_decimal(n / 10).push(spec_digit(n % 10))
    }
}

/// The view of an optional value.
pub open spec fn opt_view<T: View>(o: Option<T>) -> Option<T::V> {
    match o {
        Some(t) => Some(t@),
        None => None,
    }
}

// ---------------------------------------------------------------------------
// Lemmas
// ---------------------------------------------------------------------------

/// `spec_find` is either -1 or the index of the first `c`.
pub proof fn lemma_find_bounds(s: Seq<char>, c: char)
    ensures
        -1 <= spec_find(s, c) < s.len(),
        spec_find(s, c) >= 0 ==> s[spec_find(s, c)] == c,
        forall|j: int| 0 <= j < s.len() && (spec_find(s, c) < 0 || j < spec_find(s, c)) ==> s[j] != c,
    decreases s.len(),
{
    if s.len() > 0 && s[0] != c {
        lemma_find_bounds(s.drop_first(), c);
        assert forall|j: int| 0 <= j < s.len() && (spec_find(s, c) < 0 || j < spec_find(s, c)) implies s[j] != c by {
            if j > 0 {
                assert(s[j] == s.drop_first()[j - 1]);
            }
        }
    }
}

/// The first `c` is at `i` when no earlier character is `c`; with `i == s.len()`
/// there is no `c`.
pub proof fn lemma_find_is(s: Seq<char>, c: char, i: int)
    requires
        0 <= i <= s.len(),
        forall|j: int| 0 <= j < i ==> s[j] != c,
        i < s.len() ==> s[i] == c,
    ensures
        spec_find(s, c) == (if i < s.len() { i } else { -1 }),
    decreases s.len(),
{
    if s.len() > 0 && i > 0 {
        assert forall|j: int| 0 <= j < i - 1 implies s.drop_first()[j] != c by {
            assert(s.drop_first()[j] == s[j + 1]);
        }
        lemma_find_is(s.drop_first(), c, i - 1);
    }
}

/// `spec_rfind` is either -1 or the index of the last `c`.
pub proof fn lemma_rfind_bounds(s: Seq<char>, c: char)
    ensures
        -1 <= spec_rfind(s, c) < s.len(),
        spec_rfind(s, c) >= 0 ==> s[spec_rfind(s, c)] == c,
        forall|j: int| 0 <= j < s.len() && spec_rfind(s, c) < j ==> s[j] != c,
    decreases s.len(),
{
    if s.len() > 0 && s.last() != c {
        lemma_rfind_bounds(s.drop_last(), c);
        assert forall|j: int| 0 <= j < s.len() && spec_rfind(s, c) < j implies s[j] != c by {
            if j < s.len() - 1 {
                assert(s[j] == s.drop_last()[j]);
            }
        }
    }
}

/// The last `c` is at `i` when no later character is `c`; with `i == -1`
/// there is no `c`.
pub proof fn lemma_rfind_is(s: Seq<char>, c: char, i: int)
    requires
        -1 <= i < s.len(),
        forall|j: int| i < j < s.len() ==> s[j] != c,
        i >= 0 ==> s[i] == c,
    ensures
        spec_rfind(s, c) == i,
    decreases s.len(),
{
    if s.len() > 0 && i < s.len() - 1 {
        assert forall|j: int| i < j < s.len() - 1 implies s.drop_last()[j] != c by {
            assert(s.drop_last()[j] == s[j]);
        }
        lemma_rfind_is(s.drop_last(), c, i);
    }
}

/// Leading whitespace is dropped up to the first non-whitespace character.
pub proof fn lemma_trim_start_is(s: Seq<char>, i: int)
    requires
        0 <= i <= s.len(),
        forall|j: int| 0 <= j < i ==> spec_is_whitespace(s[j]),
        i < s.len() ==> !spec_is_whitespace(s[i]),
    ensures
        spec_trim_start(s) == s.subrange(i, s.len() as int),
    decreases s.len(),
{
    if i > 0 {
        assert forall|j: int| 0 <= j < i - 1 implies spec_is_whitespace(s.drop_first()[j]) by {
            assert(s.drop_first()[j] == s[j + 1]);
        }
        lemma_trim_start_is(s.drop_first(), i - 1);
        assert(s.drop_first().subrange(i - 1, s.len() - 1) =~= s.subrange(i, s.len() as int));
    } else {
        assert(s.subrange(0, s.len() as int) =~= s);
    }
}

/// Trailing whitespace is dropped down to the last non-whitespace character.
pub proof fn lemma_trim_end_is(s: Seq<char>, k: int)
    requires
        0 <= k <= s.len(),
        forall|j: int| k <= j < s.len() ==> spec_is_whitespace(s[j]),
        k > 0 ==> !spec_is_whitespace(s[k - 1]),
    ensures
        spec_trim_end(s) == s.subrange(0, k),
    decreases s.len(),
{
    if k < s.len() {
        assert forall|j: int| k <= j < s.len() - 1 implies spec_is_whitespace(s.drop_last()[j]) by {
            assert(s.drop_last()[j] == s[j]);
        }
        lemma_trim_end_is(s.drop_last(), k);
        assert(s.drop_last().subrange(0, k) =~= s.subrange(0, k));
    } else {
        assert(s.subrange(0, s.len() as int) =~= s);
    }
}

/// A string without whitespace at either end is its own trim.
pub proof fn lemma_trim_noop(s: Seq<char>)
    requires
        s.len() > 0 ==> !spec_is_whitespace(s[0]) && !spec_is_whitespace(s.last()),
    ensures
        spec_trim(s) == s,
{
    lemma_trim_start_is(s, 0);
    assert(s.subrange(0, s.len() as int) =~= s);
    lemma_trim_end_is(s, s.len() as int);
}

/// What `spec_trim_start` leaves starts with no whitespace.
pub proof fn lemma_trim_start_clean(s: Seq<char>)
    ensures
        spec_trim_start(s).len() > 0 ==> !spec_is_whitespace(spec_trim_start(s)[0]),
    decreases s.len(),
{
    if s.len() > 0 && spec_is_whitespace(s[0]) {
        lemma_trim_start_clean(s.drop_first());
    }
}

/// `spec_trim_end` keeps a prefix, which ends with no whitespace.
pub proof fn lemma_trim_end_prefix(s: Seq<char>)
    ensures
        spec_trim_end(s).len() <= s.len(),
        spec_trim_end(s) == s.subrange(0, spec_trim_end(s).len() as int),
        spec_trim_end(s).len() > 0 ==> !spec_is_whitespace(spec_trim_end(s).last()),
    decreases s.len(),
{
    if s.len() > 0 && spec_is_whitespace(s.last()) {
        lemma_trim_end_prefix(s.drop_last());
        assert(s.drop_last().subrange(0, spec_trim_end(s).len() as int) =~= s.subrange(
            0,
            spec_trim_end(s).len() as int,
        ));
    } else {
        assert(s.subrange(0, s.len() as int) =~= s);
    }
}

/// A trimmed string has no whitespace at either end, so trimming it again
/// changes nothing.
pub proof fn lemma_trim_idempotent(s: Seq<char>)
    ensures
        spec_trim(s).len() > 0 ==> !spec_is_whitespace(spec_trim(s)[0]) && !spec_is_whitespace(
            spec_trim(s).last(),
        ),
        spec_trim(spec_trim(s)) == spec_trim(s),
{
    let t = spec_trim_start(s);
    lemma_trim_start_clean(s);
    lemma_trim_end_prefix(t);
    if spec_trim(s).len() > 0 {
        assert(spec_trim(s)[0] == t[0]);
    }
    lemma_trim_noop(spec_trim(s));
}

/// `spec_trim_start` keeps a suffix; what it drops is whitespace, and what
/// it keeps starts with no whitespace.
pub proof fn lemma_trim_start_suffix(s: Seq<char>)
    ensures
        spec_trim_start(s).len() <= s.len(),
        spec_trim_start(s) == s.subrange(s.len() - spec_trim_start(s).len(), s.len() as int),
        forall|j: int| 0 <= j < s.len() - spec_trim_start(s).len() ==> spec_is_whitespace(#[trigger] s[j]),
        spec_trim_start(s).len() > 0 ==> !spec_is_whitespace(spec_trim_start(s)[0]),
    decreases s.len(),
{
    if s.len() > 0 && spec_is_whitespace(s[0]) {
        lemma_trim_start_suffix(s.drop_first());
        let t = spec_trim_start(s);
        assert(s.drop_first().subrange(s.len() - 1 - t.len(), s.len() - 1) =~= s.subrange(
            s.len() - t.len(),
            s.len() as int,
        ));
        assert forall|j: int| 0 <= j < s.len() - t.len() implies spec_is_whitespace(#[trigger] s[j]) by {
            if j > 0 {
                assert(s[j] == s.drop_first()[j - 1]);
            }
        }
    } else {
        assert(s.subrange(0, s.len() as int) =~= s);
    }
}

/// What `spec_trim_end` drops is whitespace.
pub proof fn lemma_trim_end_dropped(s: Seq<char>)
    ensures
        forall|j: int| spec_trim_end(s).len() <= j < s.len() ==> spec_is_whitespace(#[trigger] s[j]),
    decreases s.len(),
{
    if s.len() > 0 && spec_is_whitespace(s.last()) {
        lemma_trim_end_dropped(s.drop_last());
        lemma_trim_end_prefix(s.drop_last());
        assert forall|j: int| spec_trim_end(s).len() <= j < s.len() implies spec_is_whitespace(#[trigger] s[j]) by {
            if j < s.len() - 1 {
                assert(s[j] == s.drop_last()[j]);
            }
        }
    }
}

/// Trimming the end first changes nothing of the trim.
pub proof fn lemma_trim_of_trim_end(s: Seq<char>)
    ensures
        spec_trim(spec_trim_end(s)) == spec_trim(s),
{
    let t = spec_trim_end(s);
    lemma_trim_end_prefix(s);
    lemma_trim_end_dropped(s);
    lemma_trim_start_suffix(s);
    let m = t.len() as int;
    let a = s.len() - spec_trim_start(s).len();
    if a < m {
        assert forall|j: int| 0 <= j < a implies spec_is_whitespace(t[j]) by {
            assert(t[j] == s[j]);
        }
        assert(t[a] == s[a]);
        lemma_trim_start_is(t, a);
        let u = t.subrange(a, m);
        assert(u =~= s.subrange(a, m));
        assert(u.last() == s[m - 1]);
        lemma_trim_end_is(u, u.len() as int);
        assert(u.subrange(0, u.len() as int) =~= u);
        let w = s.subrange(a, s.len() as int);
        assert forall|j: int| m - a <= j < w.len() implies spec_is_whitespace(w[j]) by {
            assert(w[j] == s[a + j]);
        }
        assert(w[m - a - 1] == s[m - 1]);
        lemma_trim_end_is(w, m - a);
        assert(w.subrange(0, m - a) =~= u);
    } else {
        assert forall|j: int| 0 <= j < t.len() implies spec_is_whitespace(t[j]) by {
            assert(t[j] == s[j]);
        }
        lemma_trim_start_is(t, t.len() as int);
        assert(t.subrange(t.len() as int, t.len() as int) =~= Seq::<char>::empty());
        if a < s.len() {
            assert(spec_trim_start(s)[0] == s[a]);
        }
        assert(spec_trim_start(s) =~= Seq::<char>::empty());
    }
}


// ---------------------------------------------------------------------------
// Executable helpers
// ---------------------------------------------------------------------------

/// Appends `c` to `s` (`String::push`).
#[verifier::external_body]
pub(crate) fn string_push(s: &mut String, c: char)
    ensures
        final(s)@ == old(s)@.push(c),
{
    s.push(c);
}

/// The characters of `s`, in order.
pub fn chars_of(s: &str) -> (res: Vec<char>)
    ensures
        res@ == s@,
{
    let mut res: Vec<char> = Vec::new();
    for c in it: s.chars()
        invariant
            res@ == it.seq().take(it.index() as int),
    {
        res.push(c);
    }
    res
}

/// Appends the characters `v[from..to]` to `s`.
pub fn push_chars(s: &mut String, v: &[char], from: usize, to: usize)
    requires
        from <= to <= v@.len(),
    ensures
        final(s)@ == old(s)@ + v@.subrange(from as int, to as int),
{
    let mut i = from;
    while i < to
        invariant
            from <= i <= to <= v@.len(),
            s@ == old(s)@ + v@.subrange(from as int, i as int),
        decreases to - i,
    {
        string_push(s, v[i]);
        i = i + 1;
        assert(v@.subrange(from as int, i as int) =~= v@.subrange(from as int, i - 1).push(v@[i - 1]));
    }
}

/// The string made of `v[from..to]`.
pub fn string_of(v: &[char], from: usize, to: usize) -> (res: String)
    requires
        from <= to <= v@.len(),
    ensures
        res@ == v@.subrange(from as int, to as int),
{
    let mut s = String::new();
    push_chars(&mut s, v, from, to);
    s
}

/// Appends the string `t` to `s`.
pub fn push_str(s: &mut String, t: &str)
    ensures
        final(s)@ == old(s)@ + t@,
{
    let v = chars_of(t);
    push_chars(s, v.as_slice(), 0, v.len());
    assert(v@.subrange(0, v@.len() as int) =~= v@);
}

/// An owned copy of `t`.
pub fn owned(t: &str) -> (res: String)
    ensures
        res@ == t@,
{
    let mut s = String::new();
    push_str(&mut s, t);
    s
}

/// Whether `c` has the Unicode `White_Space` property.
pub fn is_whitespace(c: char) -> (res: bool)
    ensures
        res == spec_is_whitespace(c),
{
    ('\u{9}' <= c && c <= '\u{d}') || c == ' ' || c == '\u{85}' || c == '\u{a0}' || c
        == '\u{1680}' || ('\u{2000}' <= c && c <= '\u{200a}') || c == '\u{2028}' || c
        == '\u{2029}' || c == '\u{202f}' || c == '\u{205f}' || c == '\u{3000}'
}

/// Bounds `[start, end)` of `v[from..to]` with surrounding whitespace removed.
pub fn trim_bounds(v: &[char], from: usize, to: usize) -> (res: (usize, usize))
    requires
        from <= to <= v@.len(),
    ensures
        from <= res.0 <= res.1 <= to,
        v@.subrange(res.0 as int, res.1 as int) == spec_trim(v@.subrange(from as int, to as int)),
{
    let ghost s = v@.subrange(from as int, to as int);
    let mut i = from;
    while i < to && is_whitespace(v[i])
        invariant
            from <= i <= to <= v@.len(),
            forall|j: int| from <= j < i ==> spec_is_whitespace(v@[j]),
        decreases to - i,
    {
        i = i + 1;
    }
    proof {
        lemma_trim_start_is(s, i - from);
    }
    let ghost t = v@.subrange(i as int, to as int);
    assert(t =~= s.subrange(i - from, s.len() as int));
    let mut k = to;
    while k > i && is_whitespace(v[k - 1])
        invariant
            from <= i <= k <= to <= v@.len(),
            forall|j: int| k <= j < to ==> spec_is_whitespace(v@[j]),
        decreases k - i,
    {
        k = k - 1;
    }
    proof {
        lemma_trim_end_is(t, k - i);
    }
    assert(t.subrange(0, k - i) =~= v@.subrange(i as int, k as int));
    (i, k)
}

/// `str::trim` as an owned string.
pub fn trimmed(s: &str) -> (res: String)
    ensures
        res@ == spec_trim(s@),
{
    let v = chars_of(s);
    let (a, b) = trim_bounds(v.as_slice(), 0, v.len());
    assert(v@.subrange(0, v@.len() as int) =~= v@);
    string_of(v.as_slice(), a, b)
}

/// Index of the first `c` in `v[from..to]`, relative to `from`.
pub fn find_char(v: &[char], from: usize, to: usize, c: char) -> (res: Option<usize>)
    requires
        from <= to <= v@.len(),
    ensures
        res is None <==> spec_find(v@.subrange(from as int, to as int), c) < 0,
        res is Some ==> res->0 == spec_find(v@.subrange(from as int, to as int), c),
{
    let ghost s = v@.subrange(from as int, to as int);
    let mut i = from;
    while i < to
        invariant
            from <= i <= to <= v@.len(),
            s == v@.subrange(from as int, to as int),
            forall|j: int| from <= j < i ==> v@[j] != c,
        decreases to - i,
    {
        if v[i] == c {
            proof {
                assert forall|j: int| 0 <= j < i - from implies s[j] != c by {
                    assert(s[j] == v@[from + j]);
                }
                lemma_find_is(s, c, i - from);
            }
            return Some(i - from);
        }
        i = i + 1;
    }
    proof {
        assert forall|j: int| 0 <= j < s.len() implies s[j] != c by {
            assert(s[j] == v@[from + j]);
        }
        lemma_find_is(s, c, s.len() as int);
    }
    None
}

/// Index of the last `c` in `v[from..to]`, relative to `from`.
pub fn rfind_char(v: &[char], from: usize, to: usize, c: char) -> (res: Option<usize>)
    requires
        from <= to <= v@.len(),
    ensures
        res is None <==> spec_rfind(v@.subrange(from as int, to as int), c) < 0,
        res is Some ==> res->0 == spec_rfind(v@.subrange(from as int, to as int), c),
{
    let ghost s = v@.subrange(from as int, to as int);
    let mut k = to;
    while k > from
        invariant
            from <= k <= to <= v@.len(),
            s == v@.subrange(from as int, to as int),
            forall|j: int| k <= j < to ==> v@[j] != c,
        decreases k - from,
    {
        if v[k - 1] == c {
            proof {
                assert forall|j: int| k - 1 - from < j < s.len() implies s[j] != c by {
                    assert(s[j] == v@[from + j]);
                }
                lemma_rfind_is(s, c, k - 1 - from);
            }
            return Some(k - 1 - from);
        }
        k = k - 1;
    }
    proof {
        assert forall|j: int| -1 < j < s.len() implies s[j] != c by {
            assert(s[j] == v@[from + j]);
        }
        lemma_rfind_is(s, c, -1);
    }
    None
}

/// Whether `v[from..to]` equals `t`.
pub fn chars_eq(v: &[char], from: usize, to: usize, t: &str) -> (res: bool)
    requires
        from <= to <= v@.len(),
    ensures
        res == (v@.subrange(from as int, to as int) == t@),
{
    let w = chars_of(t);
    if to - from != w.len() {
        return false;
    }
    let mut i: usize = 0;
    while i < w.len()
        invariant
            from <= to <= v@.len(),
            to - from == w@.len(),
            w@ == t@,
            0 <= i <= w@.len(),
            forall|j: int| 0 <= j < i ==> v@[from + j] == w@[j],
        decreases w@.len() - i,
    {
        if v[from + i] != w[i] {
            assert(v@.subrange(from as int, to as int)[i as int] != t@[i as int]);
            return false;
        }
        i = i + 1;
    }
    assert(v@.subrange(from as int, to as int) =~= t@);
    true
}

/// Whether the string `s` equals `t`.
pub fn str_eq(s: &str, t: &str) -> (res: bool)
    ensures
        res == (s@ == t@),
{
    let v = chars_of(s);
    assert(v@.subrange(0, v@.len() as int) =~= v@);
    chars_eq(v.as_slice(), 0, v.len(), t)
}

/// Whether `s` begins with `p` (`str::starts_with`).
pub fn starts_with(s: &str, p: &str) -> (res: bool)
    ensures
        res == spec_starts_with(s@, p@),
{
    let v = chars_of(s);
    let w = chars_of(p);
    if w.len() > v.len() {
        return false;
    }
    let r = chars_eq(v.as_slice(), 0, w.len(), p);
    r
}

/// `char::to_ascii_lowercase`.
pub fn ascii_lower(c: char) -> (res: char)
    ensures
        res == spec_ascii_lower(c),
{
    if 'A' <= c && c <= 'Z' {
        let u = (c as u32) + 32;
        assert(u < 128) by {
            assert((c as u32) <= ('Z' as u32));
        }
        char_from_u32_ascii(u)
    } else {
        c
    }
}

/// The ASCII character with code `u`.
fn char_from_u32_ascii(u: u32) -> (res: char)
    requires
        u < 128,
    ensures
        res == u as char,
{
    let b = u as u8;
    assert(b as u32 == u) by (bit_vector)
        requires
            u < 128,
            b == u as u8,
    ;
    b as char
}

/// `str::to_ascii_lowercase`.
pub fn ascii_lowercase(s: &str) -> (res: Vec<char>)
    ensures
        res@ == spec_ascii_lowercase(s@),
{
    let v = chars_of(s);
    let mut out: Vec<char> = Vec::new();
    let mut i: usize = 0;
    while i < v.len()
        invariant
            v@ == s@,
            0 <= i <= v@.len(),
            out@ == spec_ascii_lowercase(v@.subrange(0, i as int)),
        decreases v@.len() - i,
    {
        out.push(ascii_lower(v[i]));
        i = i + 1;
        assert(spec_ascii_lowercase(v@.subrange(0, i as int)) =~= spec_ascii_lowercase(
            v@.subrange(0, i - 1),
        ).push(spec_ascii_lower(v@[i - 1])));
    }
    assert(v@.subrange(0, v@.len() as int) =~= v@);
    out
}

/// Appends the decimal representation of `n` to `s`.
pub fn push_decimal(s: &mut String, n: u64)
    ensures
        final(s)@ == old(s)@ + spec_decimal(n as nat),
    decreases n,
{
    if n >= 10 {
        push_decimal(s, n / 10);
    }
    let d = n % 10;
    string_push(s, char_from_u32_ascii((d + 48) as u32));
    if n >= 10 {
        assert(old(s)@ + spec_decimal(n as nat) =~= (old(s)@ + spec_decimal(n as nat / 10)).push(
            spec_digit((n % 10) as nat),
        ));
    }
}

} // verus!
