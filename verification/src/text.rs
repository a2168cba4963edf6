//! Sequences of characters and bytes: searching, trimming, splitting into
//! lines, and decimal numbers. Everything here is stated over `Seq` and
//! implemented over `Vec`.

use vstd::prelude::*;

verus! {

/// Index of the first element of `s` equal to `x`, or `s.len()` where there is none.
pub open spec fn first_index<T>(s: Seq<T>, x: T) -> int
    decreases s.len(),
{
    if s.len() == 0 || s[0] == x {
        0
    } else {
        1 + first_index(s.drop_first(), x)
    }
}

/// `first_index` is in range, points at `x` when it is inside, and nothing
/// before it equals `x`.
pub proof fn lemma_first_index<T>(s: Seq<T>, x: T)
    ensures
        0 <= first_index(s, x) <= s.len(),
        first_index(s, x) < s.len() ==> s[first_index(s, x)] == x,
        forall|j: int| 0 <= j < first_index(s, x) ==> s[j] != x,
    decreases s.len(),
{
    if s.len() == 0 || s[0] == x {
    } else {
        let t = s.drop_first();
        lemma_first_index(t, x);
        assert forall|j: int| 0 <= j < first_index(s, x) implies s[j] != x by {
            if j > 0 {
                assert(s[j] == t[j - 1]);
            }
        }
    }
}

/// An index with the three properties of `lemma_first_index` is the first index.
pub proof fn lemma_first_index_is<T>(s: Seq<T>, x: T, i: int)
    requires
        0 <= i <= s.len(),
        i < s.len() ==> s[i] == x,
        forall|j: int| 0 <= j < i ==> s[j] != x,
    ensures
        first_index(s, x) == i,
{
    lemma_first_index(s, x);
    let k = first_index(s, x);
    if k < i {
        assert(s[k] != x);
    }
}

/// Index of the last element of `s` equal to `x`, or `-1` where there is none.
pub open spec fn last_index<T>(s: Seq<T>, x: T) -> int
    decreases s.len(),
{
    if s.len() == 0 {
        -1
    } else if s.last() == x {
        s.len() - 1
    } else {
        last_index(s.drop_last(), x)
    }
}

/// `last_index` is in range, points at `x` when it is inside, and nothing
/// after it equals `x`.
pub proof fn lemma_last_index<T>(s: Seq<T>, x: T)
    ensures
        -1 <= last_index(s, x) < s.len(),
        0 <= last_index(s, x) ==> s[last_index(s, x)] == x,
        forall|j: int| last_index(s, x) < j < s.len() ==> s[j] != x,
    decreases s.len(),
{
    if s.len() == 0 || s.last() == x {
    } else {
        let t = s.drop_last();
        lemma_last_index(t, x);
        assert forall|j: int| last_index(s, x) < j < s.len() implies s[j] != x by {
            if j < s.len() - 1 {
                assert(s[j] == t[j]);
            }
        }
    }
}

/// Whether `s` begins with `p`.
pub open spec fn starts_with<T>(s: Seq<T>, p: Seq<T>) -> bool {
    p.len() <= s.len() && s.take(p.len() as int) == p
}

/// Whether `s` ends with `p`.
pub open spec fn ends_with<T>(s: Seq<T>, p: Seq<T>) -> bool {
    p.len() <= s.len() && s.skip(s.len() - p.len()) == p
}

/// Index at which `p` first occurs in `s`. Where `p` does not occur, the
/// result is `s.len()` (for an empty `p` the result is 0).
pub open spec fn find_sub<T>(s: Seq<T>, p: Seq<T>) -> int
    decreases s.len(),
{
    if s.len() == 0 || starts_with(s, p) {
        0
    } else {
        1 + find_sub(s.drop_first(), p)
    }
}

/// Whether `p` occurs in `s`.
pub open spec fn contains_sub<T>(s: Seq<T>, p: Seq<T>) -> bool {
    find_sub(s, p) + p.len() <= s.len()
}

/// `find_sub` is in range, `p` occurs there when it is found, and `p` occurs
/// at no earlier index.
pub proof fn lemma_find_sub<T>(s: Seq<T>, p: Seq<T>)
    ensures
        0 <= find_sub(s, p) <= s.len(),
        contains_sub(s, p) ==> starts_with(s.skip(find_sub(s, p)), p),
        forall|j: int| 0 <= j < find_sub(s, p) ==> !starts_with(s.skip(j), p),
    decreases s.len(),
{
    if s.len() == 0 {
        if contains_sub(s, p) {
            assert(p.len() == 0);
            assert(s.skip(0).take(0) =~= p);
        }
    } else if starts_with(s, p) {
        assert(s.skip(0) =~= s);
    } else {
        let t = s.drop_first();
        lemma_find_sub(t, p);
        let k = find_sub(t, p);
        assert(s.skip(k + 1) =~= t.skip(k));
        assert forall|j: int| 0 <= j < find_sub(s, p) implies !starts_with(s.skip(j), p) by {
            if j == 0 {
                assert(s.skip(0) =~= s);
            } else {
                assert(s.skip(j) =~= t.skip(j - 1));
            }
        }
    }
}

/// An index where `p` occurs and before which it does not is `find_sub`.
pub proof fn lemma_find_sub_is<T>(s: Seq<T>, p: Seq<T>, i: int)
    requires
        0 <= i <= s.len(),
        i < s.len() ==> starts_with(s.skip(i), p),
        forall|j: int| 0 <= j < i ==> !starts_with(s.skip(j), p),
    ensures
        find_sub(s, p) == i,
    decreases s.len(),
{
    if s.len() == 0 {
    } else if starts_with(s, p) {
        assert(s.skip(0) =~= s);
    } else {
        let t = s.drop_first();
        assert(s.skip(0) =~= s);
        assert(i > 0);
        assert forall|j: int| 0 <= j < i - 1 implies !starts_with(t.skip(j), p) by {
            assert(s.skip(j + 1) =~= t.skip(j));
        }
        if i - 1 < t.len() {
            assert(s.skip(i) =~= t.skip(i - 1));
        }
        lemma_find_sub_is(t, p, i - 1);
    }
}

/// `s` with `w` in place of each occurrence of the non-empty `p`; the
/// occurrences are taken from the left and do not overlap.
pub open spec fn substituted<T>(s: Seq<T>, p: Seq<T>, w: Seq<T>) -> Seq<T>
    decreases s.len(),
{
    if s.len() == 0 || p.len() == 0 {
        s
    } else if starts_with(s, p) {
        w + substituted(s.skip(p.len() as int), p, w)
    } else {
        seq![s[0]] + substituted(s.drop_first(), p, w)
    }
}

/// The white space of Unicode (the property `White_Space`).
pub open spec fn is_space(c: char) -> bool {
    let n = c as u32;
    (0x09 <= n && n <= 0x0D) || n == 0x20 || n == 0x85 || n == 0xA0 || n == 0x1680 || (0x2000 <= n
        && n <= 0x200A) || n == 0x2028 || n == 0x2029 || n == 0x202F || n == 0x205F || n == 0x3000
}

/// Number of leading white-space characters of `s`.
pub open spec fn leading_space(s: Seq<char>) -> int
    decreases s.len(),
{
    if s.len() > 0 && is_space(s[0]) {
        1 + leading_space(s.drop_first())
    } else {
        0
    }
}

/// Length of `s` without its trailing white space.
pub open spec fn len_without_trailing_space(s: Seq<char>) -> int
    decreases s.len(),
{
    if s.len() > 0 && is_space(s.last()) {
        len_without_trailing_space(s.drop_last())
    } else {
        s.len() as int
    }
}

/// `s` without leading and trailing white space.
pub open spec fn trim(s: Seq<char>) -> Seq<char> {
    let t = s.skip(leading_space(s));
    t.take(len_without_trailing_space(t))
}

/// Number of leading elements of `s` equal to `x`.
pub open spec fn leading_run<T>(s: Seq<T>, x: T) -> int
    decreases s.len(),
{
    if s.len() > 0 && s[0] == x {
        1 + leading_run(s.drop_first(), x)
    } else {
        0
    }
}

/// Length of `s` without its trailing elements equal to `x`.
pub open spec fn len_without_trailing_run<T>(s: Seq<T>, x: T) -> int
    decreases s.len(),
{
    if s.len() > 0 && s.last() == x {
        len_without_trailing_run(s.drop_last(), x)
    } else {
        s.len() as int
    }
}

/// `s` without the elements equal to `x` at its two ends.
pub open spec fn trim_run<T>(s: Seq<T>, x: T) -> Seq<T> {
    let t = s.skip(leading_run(s, x));
    t.take(len_without_trailing_run(t, x))
}

/// `leading_space` is in range, and it is where the white space ends.
proof fn lemma_leading_space(s: Seq<char>)
    ensures
        0 <= leading_space(s) <= s.len(),
        leading_space(s) < s.len() ==> !is_space(s[leading_space(s)]),
        forall|j: int| 0 <= j < leading_space(s) ==> is_space(s[j]),
    decreases s.len(),
{
    if s.len() > 0 && is_space(s[0]) {
        let t = s.drop_first();
        lemma_leading_space(t);
        assert forall|j: int| 0 <= j < leading_space(s) implies is_space(s[j]) by {
            if j > 0 {
                assert(s[j] == t[j - 1]);
            }
        }
    }
}

/// The place where the leading white space ends is `leading_space`.
proof fn lemma_leading_space_is(s: Seq<char>, i: int)
    requires
        0 <= i <= s.len(),
        i < s.len() ==> !is_space(s[i]),
        forall|j: int| 0 <= j < i ==> is_space(s[j]),
    ensures
        leading_space(s) == i,
{
    lemma_leading_space(s);
    let k = leading_space(s);
    if k < i {
        assert(is_space(s[k]));
    } else if i < k {
        assert(is_space(s[i]));
    }
}

/// `len_without_trailing_space` is in range, and it is where the trailing
/// white space begins.
proof fn lemma_len_without_trailing_space(s: Seq<char>)
    ensures
        0 <= len_without_trailing_space(s) <= s.len(),
        len_without_trailing_space(s) > 0 ==> !is_space(s[len_without_trailing_space(s) - 1]),
        forall|j: int| len_without_trailing_space(s) <= j < s.len() ==> is_space(s[j]),
    decreases s.len(),
{
    if s.len() > 0 && is_space(s.last()) {
        let t = s.drop_last();
        lemma_len_without_trailing_space(t);
        assert forall|j: int| len_without_trailing_space(s) <= j < s.len() implies is_space(
            s[j],
        ) by {
            if j < s.len() - 1 {
                assert(s[j] == t[j]);
            }
        }
    }
}

/// The place where the trailing white space begins is
/// `len_without_trailing_space`.
proof fn lemma_len_without_trailing_space_is(s: Seq<char>, n: int)
    requires
        0 <= n <= s.len(),
        n > 0 ==> !is_space(s[n - 1]),
        forall|j: int| n <= j < s.len() ==> is_space(s[j]),
    ensures
        len_without_trailing_space(s) == n,
{
    lemma_len_without_trailing_space(s);
    let k = len_without_trailing_space(s);
    if k < n {
        assert(is_space(s[n - 1]));
    } else if n < k {
        assert(is_space(s[k - 1]));
    }
}

/// `leading_run` is in range, and it is where the run ends.
proof fn lemma_leading_run<T>(s: Seq<T>, x: T)
    ensures
        0 <= leading_run(s, x) <= s.len(),
        leading_run(s, x) < s.len() ==> s[leading_run(s, x)] != x,
        forall|j: int| 0 <= j < leading_run(s, x) ==> s[j] == x,
    decreases s.len(),
{
    if s.len() > 0 && s[0] == x {
        let t = s.drop_first();
        lemma_leading_run(t, x);
        assert forall|j: int| 0 <= j < leading_run(s, x) implies s[j] == x by {
            if j > 0 {
                assert(s[j] == t[j - 1]);
            }
        }
    }
}

/// The place where the leading run ends is `leading_run`.
proof fn lemma_leading_run_is<T>(s: Seq<T>, x: T, i: int)
    requires
        0 <= i <= s.len(),
        i < s.len() ==> s[i] != x,
        forall|j: int| 0 <= j < i ==> s[j] == x,
    ensures
        leading_run(s, x) == i,
{
    lemma_leading_run(s, x);
    let k = leading_run(s, x);
    if k < i {
        assert(s[k] == x);
    } else if i < k {
        assert(s[i] == x);
    }
}

/// `len_without_trailing_run` is in range, and it is where the trailing run
/// begins.
proof fn lemma_len_without_trailing_run<T>(s: Seq<T>, x: T)
    ensures
        0 <= len_without_trailing_run(s, x) <= s.len(),
        len_without_trailing_run(s, x) > 0 ==> s[len_without_trailing_run(s, x) - 1] != x,
        forall|j: int| len_without_trailing_run(s, x) <= j < s.len() ==> s[j] == x,
    decreases s.len(),
{
    if s.len() > 0 && s.last() == x {
        let t = s.drop_last();
        lemma_len_without_trailing_run(t, x);
        assert forall|j: int| len_without_trailing_run(s, x) <= j < s.len() implies s[j]
            == x by {
            if j < s.len() - 1 {
                assert(s[j] == t[j]);
            }
        }
    }
}

/// The place where the trailing run begins is `len_without_trailing_run`.
proof fn lemma_len_without_trailing_run_is<T>(s: Seq<T>, x: T, n: int)
    requires
        0 <= n <= s.len(),
        n > 0 ==> s[n - 1] != x,
        forall|j: int| n <= j < s.len() ==> s[j] == x,
    ensures
        len_without_trailing_run(s, x) == n,
{
    lemma_len_without_trailing_run(s, x);
    let k = len_without_trailing_run(s, x);
    if k < n {
        assert(s[n - 1] == x);
    } else if n < k {
        assert(s[k - 1] == x);
    }
}


/// Copy of `v[from..to]`.
pub fn subvec<T: Copy>(v: &Vec<T>, from: usize, to: usize) -> (r: Vec<T>)
    requires
        from <= to <= v.len(),
    ensures
        r@ == v@.subrange(from as int, to as int),
{
    let mut r: Vec<T> = Vec::new();
    let mut i: usize = from;
    while i < to
        invariant
            from <= i <= to <= v.len(),
            r@ == v@.subrange(from as int, i as int),
        decreases to - i,
    {
        r.push(v[i]);
        assert(v@.subrange(from as int, i + 1) == v@.subrange(from as int, i as int).push(v@[i as int]));
        i += 1;
    }
    r
}

/// Pushes the elements of `w` onto `v`.
pub fn append<T: Copy>(v: &mut Vec<T>, w: &Vec<T>)
    ensures
        final(v)@ == old(v)@ + w@,
{
    let mut i: usize = 0;
    while i < w.len()
        invariant
            i <= w.len(),
            v@ == old(v)@ + w@.take(i as int),
        decreases w.len() - i,
    {
        v.push(w[i]);
        assert(w@.take(i + 1) == w@.take(i as int).push(w@[i as int]));
        i += 1;
    }
    assert(w@.take(w@.len() as int) == w@);
}

/// The characters of `s`, in order.
pub fn chars_of(s: &str) -> (v: Vec<char>)
    ensures
        v@ == s@,
{
    broadcast use vstd::string::group_string_axioms;

    let mut v: Vec<char> = Vec::new();
    for c in it: s.chars()
        invariant
            it.seq() == s@,
            v@ == it.seq().take(it.index()),
    {
        v.push(c);
        assert(it.seq().take(it.index() + 1) == it.seq().take(it.index()).push(c));
    }
    assert(s@.take(s@.len() as int) == s@);
    v
}

/// Pushes the characters of `s` onto `v`.
pub fn append_str(v: &mut Vec<char>, s: &str)
    ensures
        final(v)@ == old(v)@ + s@,
{
    let w = chars_of(s);
    append(v, &w);
}

/// `String::from_iter` over characters: the string that holds exactly the
/// characters of `v`, in order.
#[verifier::external_body]
pub(crate) fn string_of(v: &Vec<char>) -> (s: String)
    ensures
        s@ == v@,
{
    String::from_iter(v)
}

/// Whether `a` and `b` hold the same elements.
pub fn same_chars(a: &Vec<char>, b: &Vec<char>) -> (r: bool)
    ensures
        r == (a@ == b@),
{
    if a.len() != b.len() {
        return false;
    }
    let mut i: usize = 0;
    while i < a.len()
        invariant
            a.len() == b.len(),
            i <= a.len(),
            forall|j: int| 0 <= j < i ==> a@[j] == b@[j],
        decreases a.len() - i,
    {
        if a[i] != b[i] {
            return false;
        }
        i += 1;
    }
    assert(a@ =~= b@);
    true
}

/// Whether `a` and `b` hold the same bytes.
pub fn same_bytes(a: &[u8], b: &[u8]) -> (r: bool)
    ensures
        r == (a@ == b@),
{
    if a.len() != b.len() {
        return false;
    }
    let mut i: usize = 0;
    while i < a.len()
        invariant
            a.len() == b.len(),
            i <= a.len(),
            forall|j: int| 0 <= j < i ==> a@[j] == b@[j],
        decreases a.len() - i,
    {
        if a[i] != b[i] {
            return false;
        }
        i += 1;
    }
    assert(a@ =~= b@);
    true
}

/// Whether `v` holds exactly the characters of `s`.
pub fn is_str(v: &Vec<char>, s: &str) -> (r: bool)
    ensures
        r == (v@ == s@),
{
    let w = chars_of(s);
    same_chars(v, &w)
}

/// Whether `p` occurs in `v` at index `i`.
pub fn occurs_at(v: &Vec<char>, i: usize, p: &Vec<char>) -> (r: bool)
    requires
        i <= v.len(),
    ensures
        r == starts_with(v@.skip(i as int), p@),
{
    if p.len() > v.len() - i {
        return false;
    }
    let mut k: usize = 0;
    while k < p.len()
        invariant
            i <= v.len(),
            p.len() <= v.len() - i,
            k <= p.len(),
            forall|j: int| 0 <= j < k ==> v@[i + j] == p@[j],
        decreases p.len() - k,
    {
        if v[i + k] != p[k] {
            assert(v@.skip(i as int).take(p@.len() as int)[k as int] != p@[k as int]);
            return false;
        }
        k += 1;
    }
    assert(v@.skip(i as int).take(p@.len() as int) =~= p@);
    true
}

/// Whether `v` begins with the characters of `p`.
pub fn has_prefix(v: &Vec<char>, p: &str) -> (r: bool)
    ensures
        r == starts_with(v@, p@),
{
    let w = chars_of(p);
    assert(v@.skip(0) =~= v@);
    occurs_at(v, 0, &w)
}

/// Whether `v` ends with the characters of `p`.
pub fn has_suffix(v: &Vec<char>, p: &str) -> (r: bool)
    ensures
        r == ends_with(v@, p@),
{
    let w = chars_of(p);
    if w.len() > v.len() {
        return false;
    }
    let at: usize = v.len() - w.len();
    let r = occurs_at(v, at, &w);
    assert(v@.skip(at as int).take(w@.len() as int) =~= v@.skip(at as int));
    r
}

/// Index of the first `c` in `v` at or after `from`, or `v.len()`.
pub fn find_char_from(v: &Vec<char>, from: usize, c: char) -> (r: usize)
    requires
        from <= v.len(),
    ensures
        r == from + first_index(v@.skip(from as int), c),
        from <= r <= v.len(),
{
    let mut i: usize = from;
    while i < v.len() && v[i] != c
        invariant
            from <= i <= v.len(),
            forall|j: int| from <= j < i ==> v@[j] != c,
        decreases v.len() - i,
    {
        i += 1;
    }
    proof {
        lemma_first_index_is(v@.skip(from as int), c, i - from);
    }
    i
}

/// Index of the first `b` in `v` at or after `from`, or `v.len()`.
pub fn find_byte_from(v: &Vec<u8>, from: usize, b: u8) -> (r: usize)
    requires
        from <= v.len(),
    ensures
        r == from + first_index(v@.skip(from as int), b),
        from <= r <= v.len(),
{
    let mut i: usize = from;
    while i < v.len() && v[i] != b
        invariant
            from <= i <= v.len(),
            forall|j: int| from <= j < i ==> v@[j] != b,
        decreases v.len() - i,
    {
        i += 1;
    }
    proof {
        lemma_first_index_is(v@.skip(from as int), b, i - from);
    }
    i
}

/// Index of the last `c` in `v`.
pub fn rfind_char(v: &Vec<char>, c: char) -> (r: Option<usize>)
    ensures
        match r {
            Some(i) => i == last_index(v@, c) && i < v.len(),
            None => last_index(v@, c) == -1,
        },
{
    let mut i: usize = v.len();
    assert(v@.take(v@.len() as int) == v@);
    while i > 0 && v[i - 1] != c
        invariant
            i <= v.len(),
            last_index(v@, c) == last_index(v@.take(i as int), c),
        decreases i,
    {
        assert(v@.take(i as int).drop_last() == v@.take(i - 1));
        i -= 1;
    }
    if i == 0 {
        None
    } else {
        Some(i - 1)
    }
}

/// Index at which `p` first occurs in `v`, or `v.len()`.
pub fn find_str(v: &Vec<char>, p: &Vec<char>) -> (r: usize)
    ensures
        r == find_sub(v@, p@),
        r <= v.len(),
{
    let mut i: usize = 0;
    while i < v.len()
        invariant
            i <= v.len(),
            forall|j: int| 0 <= j < i ==> !starts_with(v@.skip(j), p@),
        decreases v.len() - i,
    {
        if occurs_at(v, i, p) {
            proof {
                lemma_find_sub_is(v@, p@, i as int);
            }
            return i;
        }
        i += 1;
    }
    proof {
        lemma_find_sub_is(v@, p@, i as int);
    }
    i
}

/// `v` with `w` in place of each occurrence of `p`; a copy of `v` where `p`
/// is empty.
pub fn substitute(v: &Vec<char>, p: &Vec<char>, w: &Vec<char>) -> (r: Vec<char>)
    ensures
        r@ == substituted(v@, p@, w@),
{
    let mut out: Vec<char> = Vec::new();
    if p.len() == 0 {
        append(&mut out, v);
        assert(Seq::<char>::empty() + v@ == v@);
        return out;
    }
    let mut i: usize = 0;
    assert(v@.skip(0) == v@);
    while i < v.len()
        invariant
            i <= v.len(),
            p.len() > 0,
            substituted(v@, p@, w@) == out@ + substituted(v@.skip(i as int), p@, w@),
        decreases v.len() - i,
    {
        let ghost s = v@.skip(i as int);
        let ghost before = out@;
        if occurs_at(v, i, p) {
            assert(s.skip(p@.len() as int) == v@.skip(i + p@.len()));
            append(&mut out, w);
            assert(before + (w@ + substituted(v@.skip(i + p@.len()), p@, w@)) == (before + w@)
                + substituted(v@.skip(i + p@.len()), p@, w@));
            i += p.len();
        } else {
            out.push(v[i]);
            assert(s.drop_first() == v@.skip(i + 1));
            assert(out@ + substituted(v@.skip(i + 1), p@, w@) == before + (seq![v@[i as int]]
                + substituted(v@.skip(i + 1), p@, w@)));
            i += 1;
        }
    }
    assert(out@ + Seq::<char>::empty() == out@);
    out
}

/// `text` with `with` in place of each occurrence of `pattern`.
pub fn substitute_str(text: &Vec<char>, pattern: &str, with: &str) -> (r: Vec<char>)
    ensures
        r@ == substituted(text@, pattern@, with@),
{
    substitute(text, &chars_of(pattern), &chars_of(with))
}

/// Whether `c` is white space.
pub fn is_space_char(c: char) -> (r: bool)
    ensures
        r == is_space(c),
{
    let n: u32 = c as u32;
    (0x09 <= n && n <= 0x0D) || n == 0x20 || n == 0x85 || n == 0xA0 || n == 0x1680 || (0x2000 <= n
        && n <= 0x200A) || n == 0x2028 || n == 0x2029 || n == 0x202F || n == 0x205F || n == 0x3000
}

/// `v` without leading and trailing white space.
pub fn trimmed(v: &Vec<char>) -> (r: Vec<char>)
    ensures
        r@ == trim(v@),
{
    let mut a: usize = 0;
    while a < v.len() && is_space_char(v[a])
        invariant
            a <= v.len(),
            forall|j: int| 0 <= j < a ==> is_space(v@[j]),
        decreases v.len() - a,
    {
        a += 1;
    }
    let mut b: usize = v.len();
    while b > a && is_space_char(v[b - 1])
        invariant
            a <= b <= v.len(),
            forall|j: int| b <= j < v.len() ==> is_space(v@[j]),
        decreases b,
    {
        b -= 1;
    }
    proof {
        lemma_leading_space_is(v@, a as int);
        let t = v@.skip(a as int);
        lemma_len_without_trailing_space_is(t, b - a);
        assert(t.take(b - a) == v@.subrange(a as int, b as int));
    }
    subvec(v, a, b)
}

/// `v` without the characters equal to `c` at its two ends.
pub fn trimmed_of(v: &Vec<char>, c: char) -> (r: Vec<char>)
    ensures
        r@ == trim_run(v@, c),
{
    let mut a: usize = 0;
    while a < v.len() && v[a] == c
        invariant
            a <= v.len(),
            forall|j: int| 0 <= j < a ==> v@[j] == c,
        decreases v.len() - a,
    {
        a += 1;
    }
    let mut b: usize = v.len();
    while b > a && v[b - 1] == c
        invariant
            a <= b <= v.len(),
            forall|j: int| b <= j < v.len() ==> v@[j] == c,
        decreases b,
    {
        b -= 1;
    }
    proof {
        lemma_leading_run_is(v@, c, a as int);
        let t = v@.skip(a as int);
        lemma_len_without_trailing_run_is(t, c, b - a);
        assert(t.take(b - a) == v@.subrange(a as int, b as int));
    }
    subvec(v, a, b)
}

/// `v` without the characters equal to `c` at its end.
pub fn trimmed_end_of(v: &Vec<char>, c: char) -> (r: Vec<char>)
    ensures
        r@ == v@.take(len_without_trailing_run(v@, c)),
{
    let mut b: usize = v.len();
    while b > 0 && v[b - 1] == c
        invariant
            b <= v.len(),
            forall|j: int| b <= j < v.len() ==> v@[j] == c,
        decreases b,
    {
        b -= 1;
    }
    proof {
        lemma_len_without_trailing_run_is(v@, c, b as int);
    }
    subvec(v, 0, b)
}


/// The views of the elements of `v`.
pub open spec fn views(v: Seq<Vec<char>>) -> Seq<Seq<char>> {
    v.map_values(|l: Vec<char>| l@)
}

/// `l` without one carriage return at its end.
pub open spec fn without_cr(l: Seq<char>) -> Seq<char> {
    if l.len() > 0 && l.last() == '\r' {
        l.drop_last()
    } else {
        l
    }
}

/// The lines of a text. A line ends at a line feed, and a carriage return
/// just before that line feed is not part of it. What follows the last line
/// feed is a line if it is not empty, and is kept whole.
pub open spec fn lines(s: Seq<char>) -> Seq<Seq<char>>
    decreases s.len(),
{
    if s.len() == 0 {
        Seq::empty()
    } else {
        let k = first_index(s, '\n');
        if 0 <= k < s.len() {
            seq![without_cr(s.take(k))] + lines(s.skip(k + 1))
        } else {
            seq![s]
        }
    }
}

/// The lines of `v`.
pub fn lines_of(v: &Vec<char>) -> (r: Vec<Vec<char>>)
    ensures
        views(r@) == lines(v@),
{
    let mut out: Vec<Vec<char>> = Vec::new();
    let mut pos: usize = 0;
    assert(v@.skip(0) == v@);
    assert(views(out@) == Seq::<Seq<char>>::empty());
    while pos < v.len()
        invariant
            pos <= v.len(),
            lines(v@) == views(out@) + lines(v@.skip(pos as int)),
        decreases v.len() - pos,
    {
        let ghost s = v@.skip(pos as int);
        let ghost before = views(out@);
        let k = find_char_from(v, pos, '\n');
        if k == v.len() {
            let line = subvec(v, pos, k);
            assert(line@ == s);
            out.push(line);
            assert(views(out@) == before.push(s));
            pos = k;
            assert(lines(v@.skip(pos as int)) == Seq::<Seq<char>>::empty());
            assert(before + seq![s] == before.push(s));
        } else {
            let mut end: usize = k;
            if end > pos && v[end - 1] == '\r' {
                end -= 1;
            }
            let line = subvec(v, pos, end);
            assert(s.take(k - pos) == v@.subrange(pos as int, k as int));
            assert(line@ == without_cr(s.take(k - pos)));
            out.push(line);
            assert(views(out@) == before.push(line@));
            assert(s.skip(k - pos + 1) == v@.skip(k + 1));
            pos = k + 1;
            assert(before + (seq![line@] + lines(v@.skip(pos as int))) == before.push(line@) + lines(
                v@.skip(pos as int),
            ));
        }
    }
    assert(views(out@) + Seq::<Seq<char>>::empty() == views(out@));
    out
}

/// The character of the decimal digit `d`.
pub open spec fn digit_char(d: int) -> char {
    ((48 + d) as u8) as char
}

/// The decimal numeral of `n`, without leading zeros.
pub open spec fn decimal(n: nat) -> Seq<char>
    decreases n,
{
    if n < 10 {
        seq![digit_char(n as int)]
    } else {
        decimal(n / 10).push(digit_char((n % 10) as int))
    }
}

/// The decimal numeral of `n`.
pub fn decimal_of(n: u64) -> (r: Vec<char>)
    ensures
        r@ == decimal(n as nat),
    decreases n,
{
    if n < 10 {
        let mut r: Vec<char> = Vec::new();
        r.push(((48 + n) as u8) as char);
        r
    } else {
        let mut r = decimal_of(n / 10);
        r.push(((48 + n % 10) as u8) as char);
        r
    }
}

/// Whether `c` is one of the ten ASCII digits.
pub open spec fn is_digit(c: char) -> bool {
    '0' <= c && c <= '9'
}

/// The number that the numeral `s` of ASCII digits stands for.
pub open spec fn decimal_value(s: Seq<char>) -> nat
    decreases s.len(),
{
    if s.len() == 0 {
        0
    } else {
        10 * decimal_value(s.drop_last()) + ((s.last() as u32) - 48) as nat
    }
}

/// Whether `s` holds ASCII digits only.
pub open spec fn all_digits(s: Seq<char>) -> bool {
    forall|i: int| 0 <= i < s.len() ==> is_digit(#[trigger] s[i])
}

/// The number that `s` stands for, where `s` is a non-empty numeral of ASCII
/// digits whose value a `u64` can hold.
pub open spec fn parse_decimal(s: Seq<char>) -> Option<u64> {
    if s.len() > 0 && all_digits(s) && decimal_value(s) <= u64::MAX {
        Some(decimal_value(s) as u64)
    } else {
        None
    }
}

/// The numeral of a number is made of digits and is worth the number.
pub proof fn lemma_decimal_reads_back(n: nat)
    ensures
        decimal(n).len() > 0,
        all_digits(decimal(n)),
        decimal_value(decimal(n)) == n,
        n <= u64::MAX ==> parse_decimal(decimal(n)) == Some(n as u64),
    decreases n,
{
    if n < 10 {
        let s = decimal(n);
        assert(s.drop_last() =~= Seq::<char>::empty());
        assert(s.last() == digit_char(n as int));
        assert(decimal_value(s.drop_last()) == 0);
    } else {
        lemma_decimal_reads_back(n / 10);
        let front = decimal(n / 10);
        let s = decimal(n);
        assert(s.drop_last() =~= front);
        assert(s.last() == digit_char((n % 10) as int));
        assert forall|i: int| 0 <= i < s.len() implies is_digit(#[trigger] s[i]) by {
            if i < front.len() {
                assert(s[i] == front[i]);
            }
        }
    }
}

/// Where `a` holds no `x`, the first `x` of `a`, `x` and `b` in a row is
/// the one in the middle.
pub proof fn lemma_first_index_in_the_middle<T>(a: Seq<T>, x: T, b: Seq<T>)
    requires
        !a.contains(x),
    ensures
        first_index(a + seq![x] + b, x) == a.len(),
        (a + seq![x] + b).take(a.len() as int) == a,
        (a + seq![x] + b).skip(a.len() as int + 1) == b,
{
    let s = a + seq![x] + b;
    assert forall|j: int| 0 <= j < a.len() implies s[j] != x by {
        assert(s[j] == a[j]);
        assert(a.contains(a[j]));
    }
    assert(s[a.len() as int] == x);
    lemma_first_index_is(s, x, a.len() as int);
    assert(s.take(a.len() as int) =~= a);
    assert(s.skip(a.len() as int + 1) =~= b);
}

/// A numeral is worth at least as much as each of its prefixes.
pub proof fn lemma_decimal_value_grows(s: Seq<char>, i: int)
    requires
        0 <= i <= s.len(),
        all_digits(s),
    ensures
        decimal_value(s.take(i)) <= decimal_value(s),
    decreases s.len() - i,
{
    if i == s.len() {
        assert(s.take(i) == s);
    } else {
        lemma_decimal_value_grows(s, i + 1);
        assert(s.take(i + 1).drop_last() == s.take(i));
        assert(is_digit(s[i]));
    }
}

/// The number that `v` stands for.
pub fn parse_u64(v: &Vec<char>) -> (r: Option<u64>)
    ensures
        r == parse_decimal(v@),
{
    if v.len() == 0 {
        return None;
    }
    let mut acc: u64 = 0;
    let mut i: usize = 0;
    while i < v.len()
        invariant
            i <= v.len(),
            all_digits(v@.take(i as int)),
            acc == decimal_value(v@.take(i as int)),
        decreases v.len() - i,
    {
        let c = v[i];
        if !('0' <= c && c <= '9') {
            assert(!is_digit(v@[i as int]));
            return None;
        }
        let d: u64 = (c as u32 - 48) as u64;
        assert(v@.take(i + 1).drop_last() == v@.take(i as int));
        assert forall|j: int| 0 <= j < i + 1 implies is_digit(#[trigger] v@.take(i + 1)[j]) by {
            if j < i {
                assert(v@.take(i + 1)[j] == v@.take(i as int)[j]);
            }
        }
        let next = match acc.checked_mul(10) {
            Some(m) => m.checked_add(d),
            None => None,
        };
        match next {
            Some(n) => {
                acc = n;
            },
            None => {
                proof {
                    assert(decimal_value(v@.take(i + 1)) > u64::MAX);
                    if all_digits(v@) {
                        lemma_decimal_value_grows(v@, i + 1);
                    }
                }
                return None;
            },
        }
        i += 1;
    }
    assert(v@.take(v@.len() as int) == v@);
    Some(acc)
}

/// The lower-case form of an ASCII capital; any other character itself.
pub open spec fn lower(c: char) -> char {
    if 'A' <= c && c <= 'Z' {
        (((c as u32) + 32) as u8) as char
    } else {
        c
    }
}

/// `s` with its ASCII capitals in lower case.
pub open spec fn lowercase(s: Seq<char>) -> Seq<char> {
    s.map_values(|c: char| lower(c))
}

/// `v` with its ASCII capitals in lower case.
pub fn lowercase_of(v: &Vec<char>) -> (r: Vec<char>)
    ensures
        r@ == lowercase(v@),
{
    let mut r: Vec<char> = Vec::new();
    let mut i: usize = 0;
    while i < v.len()
        invariant
            i <= v.len(),
            r@ == lowercase(v@.take(i as int)),
        decreases v.len() - i,
    {
        let c = v[i];
        let l = if 'A' <= c && c <= 'Z' {
            ((c as u32 + 32) as u8) as char
        } else {
            c
        };
        r.push(l);
        assert(v@.take(i + 1) == v@.take(i as int).push(c));
        assert(r@ =~= lowercase(v@.take(i + 1)));
        i += 1;
    }
    assert(v@.take(v@.len() as int) == v@);
    r
}

} // verus!
