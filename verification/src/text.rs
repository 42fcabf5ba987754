//! Character-level text operations used by the templating and CSS code, each
//! stated over the `Seq<char>` view of a string.
use vstd::prelude::*;

verus! {

/// Appends one character to a string (`String::push`).
#[verifier::external_body]
fn push_char(s: &mut String, c: char)
    ensures
        final(s)@ == old(s)@.push(c),
{
    s.push(c);
}

/// The characters of a string slice, in order.
pub fn chars_of(s: &str) -> (v: Vec<char>)
    ensures
        v@ == s@,
{
    broadcast use vstd::string::group_string_axioms;
    let mut v: Vec<char> = Vec::new();
    for c in it: s.chars()
        invariant
            it.seq() == s@,
            v@ == it.seq().take(it.index() as int),
    {
        v.push(c);
    }
    assert(v@ =~= s@);
    v
}

/// A string holding exactly the characters `v[from..to]`.
pub fn string_from_range(v: &[char], from: usize, to: usize) -> (s: String)
    requires
        from <= to <= v@.len(),
    ensures
        s@ == v@.subrange(from as int, to as int),
{
    let mut s = String::new();
    let mut i = from;
    while i < to
        invariant
            from <= i <= to <= v@.len(),
            s@ == v@.subrange(from as int, i as int),
        decreases to - i,
    {
        push_char(&mut s, v[i]);
        i = i + 1;
        assert(s@ =~= v@.subrange(from as int, i as int));
    }
    s
}

/// A string holding exactly the characters of `v`.
pub fn string_from_chars(v: &[char]) -> (s: String)
    ensures
        s@ == v@,
{
    let s = string_from_range(v, 0, v.len());
    assert(v@.subrange(0, v@.len() as int) =~= v@);
    s
}

/// Whether `a[from..to]` and `b` hold the same characters.
pub fn range_eq(a: &[char], from: usize, to: usize, b: &[char]) -> (r: bool)
    requires
        from <= to <= a@.len(),
    ensures
        r == (a@.subrange(from as int, to as int) == b@),
{
    if to - from != b.len() {
        return false;
    }
    let mut i: usize = 0;
    while i < b.len()
        invariant
            to - from == b@.len(),
            from <= to <= a@.len(),
            i <= b@.len(),
            forall|k: int| 0 <= k < i ==> a@[from + k] == b@[k],
        decreases b.len() - i,
    {
        if a[from + i] != b[i] {
            assert(a@.subrange(from as int, to as int)[i as int] != b@[i as int]);
            return false;
        }
        i = i + 1;
    }
    assert(a@.subrange(from as int, to as int) =~= b@);
    true
}

/// Whether two character slices are equal.
pub fn chars_eq(a: &[char], b: &[char]) -> (r: bool)
    ensures
        r == (a@ == b@),
{
    let r = range_eq(a, 0, a.len(), b);
    assert(a@.subrange(0, a@.len() as int) =~= a@);
    r
}

/// Whether two strings are equal.
pub fn str_eq(a: &str, b: &str) -> (r: bool)
    ensures
        r == (a@ == b@),
{
    let va = chars_of(a);
    let vb = chars_of(b);
    chars_eq(va.as_slice(), vb.as_slice())
}

/// The characters of each buffer in a list.
pub open spec fn char_views(s: Seq<Vec<char>>) -> Seq<Seq<char>> {
    Seq::new(s.len(), |i: int| s[i]@)
}

/// The characters of each string in a list.
pub open spec fn str_views(s: Seq<&str>) -> Seq<Seq<char>> {
    Seq::new(s.len(), |i: int| s[i]@)
}

/// `char::is_whitespace`: the Unicode `White_Space` property.
pub open spec fn is_ws(c: char) -> bool {
    let u = c as u32;
    ||| 0x09 <= u <= 0x0d
    ||| u == 0x20
    ||| u == 0x85
    ||| u == 0xa0
    ||| u == 0x1680
    ||| 0x2000 <= u <= 0x200a
    ||| u == 0x2028
    ||| u == 0x2029
    ||| u == 0x202f
    ||| u == 0x205f
    ||| u == 0x3000
}

pub fn is_whitespace(c: char) -> (r: bool)
    ensures
        r == is_ws(c),
{
    let u = c as u32;
    (0x09 <= u && u <= 0x0d) || u == 0x20 || u == 0x85 || u == 0xa0 || u == 0x1680 || (0x2000
        <= u && u <= 0x200a) || u == 0x2028 || u == 0x2029 || u == 0x202f || u == 0x205f || u
        == 0x3000
}

/// `s` with its leading whitespace removed (`str::trim_start`).
pub open spec fn trim_start(s: Seq<char>) -> Seq<char>
    decreases s.len(),
{
    if s.len() > 0 && is_ws(s[0]) {
        trim_start(s.drop_first())
    } else {
        s
    }
}

/// `s` with its trailing whitespace removed (`str::trim_end`).
pub open spec fn trim_end(s: Seq<char>) -> Seq<char>
    decreases s.len(),
{
    if s.len() > 0 && is_ws(s.last()) {
        trim_end(s.drop_last())
    } else {
        s
    }
}

/// `str::trim`.
pub open spec fn trim(s: Seq<char>) -> Seq<char> {
    trim_end(trim_start(s))
}

proof fn lemma_trim_start_skip(s: Seq<char>, i: int)
    requires
        0 <= i <= s.len(),
        forall|k: int| 0 <= k < i ==> is_ws(#[trigger] s[k]),
    ensures
        trim_start(s) == trim_start(s.subrange(i, s.len() as int)),
    decreases i,
{
    if i > 0 {
        lemma_trim_start_skip(s.drop_first(), i - 1);
        assert(s.drop_first().subrange(i - 1, s.drop_first().len() as int) =~= s.subrange(
            i,
            s.len() as int,
        ));
    } else {
        assert(s.subrange(0, s.len() as int) =~= s);
    }
}

proof fn lemma_trim_end_skip(s: Seq<char>, j: int)
    requires
        0 <= j <= s.len(),
        forall|k: int| j <= k < s.len() ==> is_ws(#[trigger] s[k]),
    ensures
        trim_end(s) == trim_end(s.subrange(0, j)),
    decreases s.len() - j,
{
    if j < s.len() {
        lemma_trim_end_skip(s.drop_last(), j);
        assert(s.drop_last().subrange(0, j) =~= s.subrange(0, j));
    } else {
        assert(s.subrange(0, j) =~= s);
    }
}

/// The bounds `[start, end)` of `v[from..to]` once surrounding whitespace is removed.
pub fn trim_bounds(v: &[char], from: usize, to: usize) -> (r: (usize, usize))
    requires
        from <= to <= v@.len(),
    ensures
        from <= r.0 <= r.1 <= to,
        v@.subrange(r.0 as int, r.1 as int) == trim(v@.subrange(from as int, to as int)),
{
    let ghost s = v@.subrange(from as int, to as int);
    let mut a = from;
    while a < to && is_whitespace(v[a])
        invariant
            from <= a <= to <= v@.len(),
            forall|k: int| from <= k < a ==> is_ws(#[trigger] v@[k]),
        decreases to - a,
    {
        a = a + 1;
    }
    proof {
        assert forall|k: int| 0 <= k < a - from implies is_ws(#[trigger] s[k]) by {
            assert(s[k] == v@[from + k]);
        }
        lemma_trim_start_skip(s, a - from);
        let t = s.subrange(a - from, s.len() as int);
        assert(t =~= v@.subrange(a as int, to as int));
        if a < to {
            assert(t[0] == v@[a as int]);
        }
        assert(trim_start(t) == t);
    }
    let mut b = to;
    while b > a && is_whitespace(v[b - 1])
        invariant
            from <= a <= b <= to <= v@.len(),
            forall|k: int| b <= k < to ==> is_ws(#[trigger] v@[k]),
        decreases b - a,
    {
        b = b - 1;
    }
    proof {
        let t = v@.subrange(a as int, to as int);
        assert forall|k: int| b - a <= k < t.len() implies is_ws(#[trigger] t[k]) by {
            assert(t[k] == v@[a + k]);
        }
        lemma_trim_end_skip(t, b - a);
        let u = t.subrange(0, b - a);
        assert(u =~= v@.subrange(a as int, b as int));
        if b > a {
            assert(u.last() == v@[b - 1]);
        }
        assert(trim_end(u) == u);
    }
    (a, b)
}

/// `p` occurs in `s` at position `i`.
pub open spec fn occurs_at(s: Seq<char>, p: Seq<char>, i: int) -> bool {
    0 <= i && i + p.len() <= s.len() && s.subrange(i, i + p.len()) == p
}

/// The first position at or after `i` where `p` occurs in `s` (`str::find`).
pub open spec fn find_from(s: Seq<char>, p: Seq<char>, i: int) -> Option<int>
    decreases s.len() + 1 - i,
{
    if i < 0 || i + p.len() > s.len() {
        None
    } else if occurs_at(s, p, i) {
        Some(i)
    } else {
        find_from(s, p, i + 1)
    }
}

pub open spec fn find(s: Seq<char>, p: Seq<char>) -> Option<int> {
    find_from(s, p, 0)
}

pub proof fn lemma_find_from_some(s: Seq<char>, p: Seq<char>, i: int)
    requires
        0 <= i,
    ensures
        find_from(s, p, i) matches Some(k) ==> i <= k && occurs_at(s, p, k) && forall|j: int|
            i <= j < k ==> !occurs_at(s, p, j),
        find_from(s, p, i) is None ==> forall|j: int| i <= j ==> !occurs_at(s, p, j),
    decreases s.len() + 1 - i,
{
    if i + p.len() <= s.len() && !occurs_at(s, p, i) {
        lemma_find_from_some(s, p, i + 1);
    }
}

/// The first occurrence of `p` in `s` at or after `from` (`str::find` on a suffix).
pub fn find_chars(s: &[char], p: &[char], from: usize) -> (r: Option<usize>)
    requires
        from <= s@.len(),
    ensures
        r matches Some(k) ==> find_from(s@, p@, from as int) == Some(k as int),
        r is None ==> find_from(s@, p@, from as int) is None,
{
    if p.len() > s.len() {
        assert(find_from(s@, p@, from as int) is None);
        return None;
    }
    if p.len() == 0 {
        assert(occurs_at(s@, p@, from as int)) by {
            assert(s@.subrange(from as int, from as int) =~= p@);
        }
        return Some(from);
    }
    let n = s.len();
    let last = n - p.len();
    let mut i = from;
    while i <= last
        invariant
            from <= i,
            n == s@.len(),
            0 < p@.len() <= n,
            last == s@.len() - p@.len(),
            find_from(s@, p@, from as int) == find_from(s@, p@, i as int),
        decreases last + 1 - i,
    {
        if range_eq(s, i, i + p.len(), p) {
            return Some(i);
        }
        i = i + 1;
    }
    None
}

} // verus!

verus! {

/// Appends `s[from..to]` to `out`.
pub fn push_range(out: &mut Vec<char>, s: &[char], from: usize, to: usize)
    requires
        from <= to <= s@.len(),
    ensures
        final(out)@ == old(out)@ + s@.subrange(from as int, to as int),
{
    let ghost start = out@;
    let mut i = from;
    while i < to
        invariant
            from <= i <= to <= s@.len(),
            out@ == start + s@.subrange(from as int, i as int),
        decreases to - i,
    {
        out.push(s[i]);
        i = i + 1;
        assert(out@ =~= start + s@.subrange(from as int, i as int));
    }
}

/// Appends all of `s` to `out`.
pub fn push_all(out: &mut Vec<char>, s: &[char])
    ensures
        final(out)@ == old(out)@ + s@,
{
    push_range(out, s, 0, s.len());
    assert(s@.subrange(0, s@.len() as int) =~= s@);
}

/// `s[i..]` with every non-overlapping occurrence of `p`, scanning left to right,
/// replaced by `r` (`str::replace` for a non-empty pattern).
pub open spec fn replaced_from(s: Seq<char>, p: Seq<char>, r: Seq<char>, i: int) -> Seq<char>
    decreases s.len() + 1 - i,
{
    if i < 0 || i > s.len() || p.len() == 0 {
        s.subrange(if i < 0 { 0 } else if i > s.len() { s.len() as int } else { i }, s.len() as int)
    } else {
        match find_from(s, p, i) {
            Some(k) => {
                proof {
                    lemma_find_from_some(s, p, i);
                }
                s.subrange(i, k) + r + replaced_from(s, p, r, k + p.len())
            },
            None => s.subrange(i, s.len() as int),
        }
    }
}

/// `str::replace(s, p, r)` for a non-empty pattern `p`.
pub open spec fn replaced(s: Seq<char>, p: Seq<char>, r: Seq<char>) -> Seq<char> {
    replaced_from(s, p, r, 0)
}

/// Replaces every occurrence of the non-empty pattern `p` in `s` by `r`.
pub fn replace_all(s: &[char], p: &[char], r: &[char]) -> (out: Vec<char>)
    requires
        p@.len() > 0,
    ensures
        out@ == replaced(s@, p@, r@),
{
    let mut out: Vec<char> = Vec::new();
    let mut i: usize = 0;
    while i <= s.len()
        invariant
            i <= s@.len() + 1,
            p@.len() > 0,
            i <= s@.len() ==> out@ + replaced_from(s@, p@, r@, i as int) == replaced(s@, p@, r@),
            i > s@.len() ==> out@ == replaced(s@, p@, r@),
        decreases s@.len() + 1 - i,
    {
        proof {
            lemma_find_from_some(s@, p@, i as int);
        }
        match find_chars(s, p, i) {
            Some(k) => {
                let ghost before = out@;
                push_range(&mut out, s, i, k);
                push_all(&mut out, r);
                assert(out@ + replaced_from(s@, p@, r@, (k + p@.len()) as int) =~= before
                    + replaced_from(s@, p@, r@, i as int));
                i = k + p.len();
            },
            None => {
                push_range(&mut out, s, i, s.len());
                return out;
            },
        }
    }
    out
}

/// `s` with the first occurrence of `pats[i]` replaced by `r`, trying the patterns
/// `pats[i..]` in turn and stopping at the first that occurs.
pub open spec fn replace_first_listed(s: Seq<char>, pats: Seq<Seq<char>>, r: Seq<char>, i: int) -> Seq<
    char,
>
    decreases pats.len() - i,
{
    if i < 0 || i >= pats.len() {
        s
    } else {
        match find(s, pats[i]) {
            Some(pos) => s.subrange(0, pos) + r + s.subrange(pos + pats[i].len(), s.len() as int),
            None => replace_first_listed(s, pats, r, i + 1),
        }
    }
}

/// Replaces the first occurrence of the first pattern of `pats` that occurs in `s`.
pub fn replace_first_of(s: &[char], pats: &Vec<Vec<char>>, r: &[char]) -> (out: Vec<char>)
    ensures
        out@ == replace_first_listed(s@, char_views(pats@), r@, 0),
{
    let ghost ps = char_views(pats@);
    let n = s.len();
    let mut i: usize = 0;
    while i < pats.len()
        invariant
            i <= pats@.len(),
            n == s@.len(),
            ps == char_views(pats@),
            replace_first_listed(s@, ps, r@, 0) == replace_first_listed(s@, ps, r@, i as int),
        decreases pats.len() - i,
    {
        let pat = &pats[i];
        assert(ps[i as int] == pat@);
        proof {
            lemma_find_from_some(s@, pat@, 0);
        }
        match find_chars(s, pat.as_slice(), 0) {
            Some(pos) => {
                assert(occurs_at(s@, pat@, pos as int));
                let mut out: Vec<char> = Vec::new();
                push_range(&mut out, s, 0, pos);
                push_all(&mut out, r);
                push_range(&mut out, s, pos + pat.len(), s.len());
                return out;
            },
            None => {},
        }
        i = i + 1;
    }
    let mut out: Vec<char> = Vec::new();
    push_all(&mut out, s);
    assert(out@ =~= s@);
    out
}

} // verus!

verus! {

/// The whitespace-separated words of `s` (`str::split_whitespace`).
pub open spec fn words(s: Seq<char>) -> Seq<Seq<char>>
    decreases s.len(),
{
    let t = trim_start(s);
    if t.len() == 0 {
        seq![]
    } else {
        proof {
            lemma_trim_start_len(s);
        }
        let k = word_end(t, 0);
        proof {
            lemma_word_end(t, 0);
        }
        seq![t.subrange(0, k)] + words(t.subrange(k, t.len() as int))
    }
}

/// The end of the run of non-whitespace characters of `s` starting at `i`.
pub open spec fn word_end(s: Seq<char>, i: int) -> int
    decreases s.len() - i,
{
    if i < 0 || i >= s.len() || is_ws(s[i]) {
        i
    } else {
        word_end(s, i + 1)
    }
}

pub proof fn lemma_word_end(s: Seq<char>, i: int)
    requires
        0 <= i <= s.len(),
    ensures
        i <= word_end(s, i) <= s.len(),
        forall|j: int| i <= j < word_end(s, i) ==> !is_ws(#[trigger] s[j]),
        word_end(s, i) < s.len() ==> is_ws(s[word_end(s, i)]),
        i < s.len() && !is_ws(s[i]) ==> word_end(s, i) > i,
    decreases s.len() - i,
{
    if i < s.len() && !is_ws(s[i]) {
        lemma_word_end(s, i + 1);
    }
}

pub proof fn lemma_trim_start_len(s: Seq<char>)
    ensures
        trim_start(s).len() <= s.len(),
        trim_start(s).len() > 0 ==> !is_ws(trim_start(s)[0]),
        exists|k: int| 0 <= k <= s.len() && trim_start(s) == s.subrange(k, s.len() as int) && forall|j: int| 0 <= j < k ==> is_ws(#[trigger] s[j]),
    decreases s.len(),
{
    if s.len() > 0 && is_ws(s[0]) {
        lemma_trim_start_len(s.drop_first());
        let k = choose|k: int| 0 <= k <= s.drop_first().len() && trim_start(s.drop_first()) == s.drop_first().subrange(k, s.drop_first().len() as int) && forall|j: int| 0 <= j < k ==> is_ws(#[trigger] s.drop_first()[j]);
        assert(s.drop_first().subrange(k, s.drop_first().len() as int) =~= s.subrange(k + 1, s.len() as int));
        assert forall|j: int| 0 <= j < k + 1 implies is_ws(#[trigger] s[j]) by {
            if j > 0 {
                assert(s[j] == s.drop_first()[j - 1]);
            }
        }
    } else {
        assert(s.subrange(0, s.len() as int) =~= s);
    }
}

/// The words of `v[from..to]`, as strings.
pub fn split_words(v: &[char], from: usize, to: usize) -> (r: Vec<String>)
    requires
        from <= to <= v@.len(),
    ensures
        r@.len() == words(v@.subrange(from as int, to as int)).len(),
        forall|i: int| 0 <= i < r@.len() ==> (#[trigger] r@[i])@ == words(v@.subrange(from as int, to as int))[i],
    decreases to - from,
{
    let ghost s = v@.subrange(from as int, to as int);
    let mut a = from;
    while a < to && is_whitespace(v[a])
        invariant
            from <= a <= to <= v@.len(),
            forall|k: int| from <= k < a ==> is_ws(#[trigger] v@[k]),
        decreases to - a,
    {
        a = a + 1;
    }
    proof {
        assert forall|k: int| 0 <= k < a - from implies is_ws(#[trigger] s[k]) by {
            assert(s[k] == v@[from + k]);
        }
        lemma_trim_start_skip(s, a - from);
        let t = s.subrange(a - from, s.len() as int);
        assert(t =~= v@.subrange(a as int, to as int));
        if a < to {
            assert(t[0] == v@[a as int]);
        }
        assert(trim_start(t) == t);
    }
    if a == to {
        let r: Vec<String> = Vec::new();
        return r;
    }
    let mut b = a;
    while b < to && !is_whitespace(v[b])
        invariant
            a <= b <= to <= v@.len(),
            forall|k: int| a <= k < b ==> !is_ws(#[trigger] v@[k]),
        decreases to - b,
    {
        b = b + 1;
    }
    let ghost t = v@.subrange(a as int, to as int);
    proof {
        assert forall|k: int| 0 <= k < b - a implies !is_ws(#[trigger] t[k]) by {
            assert(t[k] == v@[a + k]);
        }
        if b < to {
            assert(t[b - a] == v@[b as int]);
        }
        lemma_word_end_from(t, 0, b - a);
        assert(t.subrange(0, b - a) =~= v@.subrange(a as int, b as int));
        assert(t.subrange(b - a, t.len() as int) =~= v@.subrange(b as int, to as int));
    }
    let first = string_from_range(v, a, b);
    let rest = split_words(v, b, to);
    let mut r: Vec<String> = Vec::new();
    r.push(first);
    let mut i: usize = 0;
    while i < rest.len()
        invariant
            i <= rest@.len(),
            r@.len() == i + 1,
            r@[0]@ == v@.subrange(a as int, b as int),
            forall|j: int| 0 <= j < i ==> (#[trigger] r@[j + 1])@ == rest@[j]@,
        decreases rest.len() - i,
    {
        r.push(rest[i].clone());
        i = i + 1;
    }
    proof {
        let tt = trim_start(s);
        assert(tt == t);
        assert(words(s) == seq![t.subrange(0, b - a)] + words(t.subrange(b - a, t.len() as int)));
        assert forall|j: int| 0 <= j < r@.len() implies (#[trigger] r@[j])@ == words(s)[j] by {
            if j > 0 {
                assert(r@[(j - 1) + 1]@ == rest@[j - 1]@);
            }
        }
    }
    r
}

proof fn lemma_word_end_from(t: Seq<char>, m: int, e: int)
    requires
        0 <= m <= e <= t.len(),
        forall|k: int| m <= k < e ==> !is_ws(#[trigger] t[k]),
        e < t.len() ==> is_ws(t[e]),
    ensures
        word_end(t, m) == e,
    decreases e - m,
{
    if m < e {
        lemma_word_end_from(t, m + 1, e);
    }
}

} // verus!
