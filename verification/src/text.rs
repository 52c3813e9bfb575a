//! Character-level text primitives shared by the whole library.
//!
//! Strings are modelled by their views (`Seq<char>`); the executable helpers
//! below work on `Vec<char>` and are proved against the spec functions.
use vstd::prelude::*;

verus! {

/// Unicode `White_Space` property, the set `char::is_whitespace` (and so
/// `str::trim`) uses.
pub open spec fn is_ws(c: char) -> bool {
    let u = c as u32;
    (0x9 <= u && u <= 0xd) || u == 0x20 || u == 0x85 || u == 0xa0 || u == 0x1680 || (0x2000 <= u
        && u <= 0x200a) || u == 0x2028 || u == 0x2029 || u == 0x202f || u == 0x205f || u == 0x3000
}

/// `s` without its leading whitespace.
pub open spec fn trim_start(s: Seq<char>) -> Seq<char>
    decreases s.len(),
{
    if s.len() > 0 && is_ws(s[0]) {
        trim_start(s.drop_first())
    } else {
        s
    }
}

/// `s` without its trailing whitespace.
pub open spec fn trim_end(s: Seq<char>) -> Seq<char>
    decreases s.len(),
{
    if s.len() > 0 && is_ws(s.last()) {
        trim_end(s.drop_last())
    } else {
        s
    }
}

/// `s` without leading and trailing whitespace (what `str::trim` returns).
pub open spec fn trim(s: Seq<char>) -> Seq<char> {
    trim_end(trim_start(s))
}

/// Every character of `s` is whitespace.
pub open spec fn all_ws(s: Seq<char>) -> bool {
    forall|i: int| 0 <= i < s.len() ==> is_ws(#[trigger] s[i])
}

/// `p` occurs in `h` at position `i`.
pub open spec fn matches_at<T>(h: Seq<T>, p: Seq<T>, i: int) -> bool {
    0 <= i && i + p.len() <= h.len() && h.subrange(i, i + p.len()) == p
}

/// First position at or after `k` where `p` occurs in `h`.
pub open spec fn find_from<T>(h: Seq<T>, p: Seq<T>, k: int) -> Option<int>
    decreases h.len() + 1 - k,
{
    if k < 0 || k + p.len() > h.len() {
        None
    } else if matches_at(h, p, k) {
        Some(k)
    } else {
        find_from(h, p, k + 1)
    }
}

/// First position where `p` occurs in `h` (what `str::find` gives, counted in characters).
pub open spec fn find<T>(h: Seq<T>, p: Seq<T>) -> Option<int> {
    find_from(h, p, 0)
}

/// `h` contains `p`.
pub open spec fn contains(h: Seq<char>, p: Seq<char>) -> bool {
    find(h, p) is Some
}

/// `h` starts with `p`.
pub open spec fn starts_with(h: Seq<char>, p: Seq<char>) -> bool {
    p.len() <= h.len() && h.subrange(0, p.len() as int) == p
}

/// Every non-overlapping occurrence of the non-empty `p` in `h`, scanned from
/// the left, replaced by `r` (what `str::replace` does).
pub open spec fn replace_all(h: Seq<char>, p: Seq<char>, r: Seq<char>) -> Seq<char>
    decreases h.len(),
{
    if h.len() == 0 || p.len() == 0 {
        h
    } else if matches_at(h, p, 0) {
        r + replace_all(h.skip(p.len() as int), p, r)
    } else {
        seq![h[0]] + replace_all(h.skip(1), p, r)
    }
}

/// `h` with every trailing `c` removed (what `str::trim_end_matches(c)` does).
pub open spec fn trim_end_char(h: Seq<char>, c: char) -> Seq<char>
    decreases h.len(),
{
    if h.len() > 0 && h.last() == c {
        trim_end_char(h.drop_last(), c)
    } else {
        h
    }
}

/// The lowercase mapping of a string, as `str::to_lowercase` computes it.
pub uninterp spec fn lowercase(s: Seq<char>) -> Seq<char>;

/// Calls `str::to_lowercase`; its result is given the name `lowercase`.
#[verifier::external_body]
pub(crate) fn to_lowercase(s: &str) -> (r: String)
    ensures
        r@ == lowercase(s@),
{
    s.to_lowercase()
}

/// The characters of `s`, in order.
pub fn chars_of(s: &str) -> (r: Vec<char>)
    ensures
        r@ == s@,
{
    let mut out: Vec<char> = Vec::new();
    for c in it: s.chars()
        invariant
            out@ == it.seq().take(it.index() as int),
            it.seq() == s@,
    {
        out.push(c);
    }
    out
}

/// Collects characters into a `String` (std's `FromIterator<char>` for
/// `String`, documented to hold exactly the given characters, in order).
#[verifier::external_body]
pub(crate) fn string_of(v: &[char]) -> (r: String)
    ensures
        r@ == v@,
{
    v.iter().collect()
}

/// Whether a string is empty.
pub fn is_empty_str(s: &str) -> (r: bool)
    ensures
        r == (s@.len() == 0),
{
    chars_of(s).len() == 0
}

/// Copies a string.
pub fn copy_string(s: &String) -> (r: String)
    ensures
        r == *s,
        r@ == s@,
{
    s.clone()
}

/// Copies an optional string.
pub fn copy_opt_string(s: &Option<String>) -> (r: Option<String>)
    ensures
        r == *s,
{
    match s {
        Some(x) => Some(x.clone()),
        None => None,
    }
}

/// A string holding exactly the characters of `s`.
pub fn str_to_string(s: &str) -> (r: String)
    ensures
        r@ == s@,
{
    s.to_owned()
}

/// Character-wise equality.
pub fn chars_eq(a: &[char], b: &[char]) -> (r: bool)
    ensures
        r == (a@ == b@),
{
    if a.len() != b.len() {
        return false;
    }
    let mut i: usize = 0;
    while i < a.len()
        invariant
            a.len() == b.len(),
            0 <= i <= a.len(),
            forall|j: int| 0 <= j < i ==> a@[j] == b@[j],
        decreases a.len() - i,
    {
        if a[i] != b[i] {
            return false;
        }
        i = i + 1;
    }
    assert(a@ =~= b@);
    true
}

/// Equality of two strings by their characters.
pub fn str_eq(a: &str, b: &str) -> (r: bool)
    ensures
        r == (a@ == b@),
{
    let x = chars_of(a);
    let y = chars_of(b);
    chars_eq(x.as_slice(), y.as_slice())
}

/// `c` is whitespace in the sense of `char::is_whitespace`.
pub fn is_ws_char(c: char) -> (r: bool)
    ensures
        r == is_ws(c),
{
    let u = c as u32;
    (0x9 <= u && u <= 0xd) || u == 0x20 || u == 0x85 || u == 0xa0 || u == 0x1680 || (0x2000 <= u
        && u <= 0x200a) || u == 0x2028 || u == 0x2029 || u == 0x202f || u == 0x205f || u == 0x3000
}

proof fn lemma_subrange_drop_first(s: Seq<char>, i: int, j: int)
    requires
        0 <= i < j <= s.len(),
    ensures
        s.subrange(i, j).drop_first() == s.subrange(i + 1, j),
        s.subrange(i, j)[0] == s[i],
{
    assert(s.subrange(i, j).drop_first() =~= s.subrange(i + 1, j));
}

proof fn lemma_subrange_drop_last(s: Seq<char>, i: int, j: int)
    requires
        0 <= i < j <= s.len(),
    ensures
        s.subrange(i, j).drop_last() == s.subrange(i, j - 1),
        s.subrange(i, j).last() == s[j - 1],
{
    assert(s.subrange(i, j).drop_last() =~= s.subrange(i, j - 1));
}

/// Bounds `(start, end)` of the trimmed part of `v`.
pub fn trim_bounds(v: &[char]) -> (r: (usize, usize))
    ensures
        r.0 <= r.1 <= v.len(),
        v@.subrange(r.0 as int, r.1 as int) == trim(v@),
{
    let n = v.len();
    let mut i: usize = 0;
    assert(v@.subrange(0, n as int) =~= v@);
    while i < n && is_ws_char(v[i])
        invariant
            n == v.len(),
            0 <= i <= n,
            trim_start(v@) == trim_start(v@.subrange(i as int, n as int)),
        decreases n - i,
    {
        proof {
            lemma_subrange_drop_first(v@, i as int, n as int);
        }
        i = i + 1;
    }
    let ghost ts = v@.subrange(i as int, n as int);
    assert(trim_start(ts) == ts);
    let mut j: usize = n;
    while j > i && is_ws_char(v[j - 1])
        invariant
            n == v.len(),
            0 <= i <= j <= n,
            trim(v@) == trim_end(v@.subrange(i as int, j as int)),
        decreases j,
    {
        proof {
            lemma_subrange_drop_last(v@, i as int, j as int);
        }
        j = j - 1;
    }
    (i, j)
}

/// The characters of `v` without surrounding whitespace.
pub fn trim_chars(v: &[char]) -> (r: Vec<char>)
    ensures
        r@ == trim(v@),
{
    let (a, b) = trim_bounds(v);
    slice_range(v, a, b)
}

/// `str::trim`, as an owned string.
pub fn trim_str(s: &str) -> (r: String)
    ensures
        r@ == trim(s@),
{
    let v = chars_of(s);
    let t = trim_chars(v.as_slice());
    string_of(t.as_slice())
}

/// The characters `v[a..b]`.
pub fn slice_range(v: &[char], a: usize, b: usize) -> (r: Vec<char>)
    requires
        a <= b <= v.len(),
    ensures
        r@ == v@.subrange(a as int, b as int),
{
    let mut out: Vec<char> = Vec::new();
    let mut i = a;
    while i < b
        invariant
            a <= i <= b <= v.len(),
            out@ == v@.subrange(a as int, i as int),
        decreases b - i,
    {
        out.push(v[i]);
        i = i + 1;
        assert(out@ =~= v@.subrange(a as int, i as int));
    }
    assert(out@ =~= v@.subrange(a as int, b as int));
    out
}

/// Appends all of `src` to `dst`.
pub fn push_all(dst: &mut Vec<char>, src: &[char])
    ensures
        final(dst)@ == old(dst)@ + src@,
{
    let mut i: usize = 0;
    let ghost d0 = dst@;
    while i < src.len()
        invariant
            0 <= i <= src.len(),
            dst@ == d0 + src@.subrange(0, i as int),
        decreases src.len() - i,
    {
        dst.push(src[i]);
        i = i + 1;
        assert(dst@ =~= d0 + src@.subrange(0, i as int));
    }
    assert(src@.subrange(0, src.len() as int) =~= src@);
}

/// Appends the characters of `s` to `dst`.
pub fn push_str(dst: &mut Vec<char>, s: &str)
    ensures
        final(dst)@ == old(dst)@ + s@,
{
    let v = chars_of(s);
    push_all(dst, v.as_slice());
}

/// All characters of `v` are whitespace.
pub fn is_blank_chars(v: &[char]) -> (r: bool)
    ensures
        r == all_ws(v@),
{
    let mut i: usize = 0;
    while i < v.len()
        invariant
            0 <= i <= v.len(),
            forall|j: int| 0 <= j < i ==> is_ws(v@[j]),
        decreases v.len() - i,
    {
        if !is_ws_char(v[i]) {
            return false;
        }
        i = i + 1;
    }
    true
}

proof fn lemma_trim_start_empty_iff(s: Seq<char>)
    ensures
        (trim_start(s).len() == 0) == all_ws(s),
        all_ws(s) ==> trim_start(s) == Seq::<char>::empty(),
        !all_ws(s) ==> trim_start(s).len() > 0 && !is_ws(trim_start(s)[0]),
    decreases s.len(),
{
    if s.len() > 0 {
        if is_ws(s[0]) {
            lemma_trim_start_empty_iff(s.drop_first());
            if all_ws(s.drop_first()) {
                assert forall|i: int| 0 <= i < s.len() implies is_ws(#[trigger] s[i]) by {
                    if i > 0 {
                        assert(s[i] == s.drop_first()[i - 1]);
                    }
                }
            } else {
                let k = choose|i: int| 0 <= i < s.drop_first().len() && !is_ws(s.drop_first()[i]);
                assert(s[k + 1] == s.drop_first()[k]);
            }
        }
    } else {
        assert(s =~= Seq::<char>::empty());
    }
}

proof fn lemma_trim_end_nonempty(s: Seq<char>)
    requires
        s.len() > 0,
        !is_ws(s[0]),
    ensures
        trim_end(s).len() > 0,
    decreases s.len(),
{
    if is_ws(s.last()) {
        if s.len() == 1 {
            assert(s.last() == s[0]);
        } else {
            assert(s.drop_last()[0] == s[0]);
            lemma_trim_end_nonempty(s.drop_last());
        }
    }
}

/// The trimmed string is empty exactly when every character is whitespace.
pub proof fn lemma_trim_empty_iff(s: Seq<char>)
    ensures
        (trim(s).len() == 0) == all_ws(s),
{
    lemma_trim_start_empty_iff(s);
    if !all_ws(s) {
        lemma_trim_end_nonempty(trim_start(s));
    } else {
        assert(trim_end(Seq::<char>::empty()) =~= Seq::<char>::empty());
    }
}

/// `str::trim(s).is_empty()`.
pub fn is_blank(s: &str) -> (r: bool)
    ensures
        r == (trim(s@).len() == 0),
        r == all_ws(s@),
{
    let v = chars_of(s);
    proof {
        lemma_trim_empty_iff(s@);
    }
    is_blank_chars(v.as_slice())
}

/// Whether `p` occurs in `h` at `i`.
pub fn matches_at_exec(h: &[char], p: &[char], i: usize) -> (r: bool)
    ensures
        r == matches_at(h@, p@, i as int),
{
    if i > h.len() || p.len() > h.len() - i {
        return false;
    }
    let mut k: usize = 0;
    while k < p.len()
        invariant
            i + p.len() <= h.len(),
            0 <= k <= p.len(),
            forall|j: int| 0 <= j < k ==> h@[i + j] == p@[j],
        decreases p.len() - k,
    {
        if h[i + k] != p[k] {
            assert(h@.subrange(i as int, i + p.len())[k as int] == h@[i + k]);
            return false;
        }
        k = k + 1;
    }
    assert(h@.subrange(i as int, i + p.len()) =~= p@);
    true
}

/// First position of `p` in `h`.
pub fn find_chars(h: &[char], p: &[char]) -> (r: Option<usize>)
    ensures
        match r {
            Some(i) => find(h@, p@) == Some(i as int),
            None => find(h@, p@) is None,
        },
{
    if p.len() > h.len() {
        return None;
    }
    let last = h.len() - p.len();
    let mut k: usize = 0;
    loop
        invariant
            last + p.len() == h.len(),
            0 <= k <= last,
            find(h@, p@) == find_from(h@, p@, k as int),
        decreases last - k,
    {
        if matches_at_exec(h, p, k) {
            return Some(k);
        }
        if k == last {
            assert(find_from(h@, p@, k + 1) is None);
            return None;
        }
        k = k + 1;
    }
}

/// Whether the bytes `p` occur in `h` at `i`.
pub fn matches_at_bytes(h: &[u8], p: &[u8], i: usize) -> (r: bool)
    ensures
        r == matches_at(h@, p@, i as int),
{
    if i > h.len() || p.len() > h.len() - i {
        return false;
    }
    let mut k: usize = 0;
    while k < p.len()
        invariant
            i + p.len() <= h.len(),
            0 <= k <= p.len(),
            forall|j: int| 0 <= j < k ==> h@[i + j] == p@[j],
        decreases p.len() - k,
    {
        if h[i + k] != p[k] {
            assert(h@.subrange(i as int, i + p.len())[k as int] == h@[i + k]);
            return false;
        }
        k = k + 1;
    }
    assert(h@.subrange(i as int, i + p.len()) =~= p@);
    true
}

/// First position of the bytes `p` in `h` (what `str::find` gives, counted
/// in bytes).
pub fn find_bytes(h: &[u8], p: &[u8]) -> (r: Option<usize>)
    ensures
        match r {
            Some(i) => find(h@, p@) == Some(i as int),
            None => find(h@, p@) is None,
        },
{
    if p.len() > h.len() {
        return None;
    }
    let last = h.len() - p.len();
    let mut k: usize = 0;
    loop
        invariant
            last + p.len() == h.len(),
            0 <= k <= last,
            find(h@, p@) == find_from(h@, p@, k as int),
        decreases last - k,
    {
        if matches_at_bytes(h, p, k) {
            return Some(k);
        }
        if k == last {
            assert(find_from(h@, p@, k + 1) is None);
            return None;
        }
        k = k + 1;
    }
}

/// Whether `h` contains `p`.
pub fn contains_chars(h: &[char], p: &[char]) -> (r: bool)
    ensures
        r == contains(h@, p@),
{
    match find_chars(h, p) {
        Some(_) => true,
        None => false,
    }
}

/// Whether `s` contains the string `p`.
pub fn str_contains(s: &[char], p: &str) -> (r: bool)
    ensures
        r == contains(s@, p@),
{
    let pv = chars_of(p);
    contains_chars(s, pv.as_slice())
}

/// Whether `h` starts with `p`.
pub fn starts_with_chars(h: &[char], p: &[char]) -> (r: bool)
    ensures
        r == starts_with(h@, p@),
{
    let m = matches_at_exec(h, p, 0);
    assert(m == starts_with(h@, p@));
    m
}

proof fn lemma_skip_matches(h: Seq<char>, p: Seq<char>, i: int)
    requires
        0 <= i <= h.len(),
    ensures
        matches_at(h.skip(i), p, 0) == matches_at(h, p, i),
{
    if i + p.len() <= h.len() {
        assert(h.skip(i).subrange(0, p.len() as int) =~= h.subrange(i, i + p.len()));
    }
}

/// Every non-overlapping occurrence of the non-empty `p` replaced by `r`.
pub fn replace_chars(h: &[char], p: &[char], r: &[char]) -> (out: Vec<char>)
    requires
        p.len() > 0,
    ensures
        out@ == replace_all(h@, p@, r@),
{
    let mut out: Vec<char> = Vec::new();
    let mut i: usize = 0;
    let n = h.len();
    assert(h@.skip(0) =~= h@);
    while i < n
        invariant
            n == h.len(),
            p.len() > 0,
            0 <= i <= n,
            replace_all(h@, p@, r@) == out@ + replace_all(h@.skip(i as int), p@, r@),
        decreases n - i,
    {
        proof {
            lemma_skip_matches(h@, p@, i as int);
        }
        if matches_at_exec(h, p, i) {
            push_all(&mut out, r);
            proof {
                assert(h@.skip(i as int).skip(p.len() as int) =~= h@.skip(i + p.len()));
            }
            i = i + p.len();
        } else {
            out.push(h[i]);
            proof {
                assert(h@.skip(i as int).skip(1) =~= h@.skip(i + 1));
                assert(h@.skip(i as int)[0] == h@[i as int]);
            }
            i = i + 1;
        }
    }
    assert(h@.skip(n as int) =~= Seq::<char>::empty());
    assert(out@ + Seq::<char>::empty() =~= out@);
    out
}

/// `str::replace` with a non-empty pattern.
pub fn replace_str(h: &[char], p: &str, r: &str) -> (out: Vec<char>)
    requires
        p@.len() > 0,
    ensures
        out@ == replace_all(h@, p@, r@),
{
    let pv = chars_of(p);
    let rv = chars_of(r);
    replace_chars(h, pv.as_slice(), rv.as_slice())
}

/// `str::trim_end_matches(c)` for a single character.
pub fn trim_end_char_exec(v: &[char], c: char) -> (r: Vec<char>)
    ensures
        r@ == trim_end_char(v@, c),
{
    let mut j = v.len();
    assert(v@.subrange(0, j as int) =~= v@);
    while j > 0 && v[j - 1] == c
        invariant
            0 <= j <= v.len(),
            trim_end_char(v@, c) == trim_end_char(v@.subrange(0, j as int), c),
        decreases j,
    {
        proof {
            lemma_subrange_drop_last(v@, 0, j as int);
        }
        j = j - 1;
    }
    slice_range(v, 0, j)
}

} // verus!
