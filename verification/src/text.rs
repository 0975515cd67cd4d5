//! Sequences of characters and of bytes: the models of names, patterns,
//! locators and archive paths, with the executable tests that decide them.

use vstd::prelude::*;

verus! {

/// `suffix` is the tail of `s`.
pub open spec fn ends_with<T>(s: Seq<T>, suffix: Seq<T>) -> bool {
    suffix.len() <= s.len() && s.subrange(s.len() - suffix.len(), s.len() as int) == suffix
}

/// `pattern` stands in `s` at position `at`.
pub open spec fn occurs_at<T>(s: Seq<T>, pattern: Seq<T>, at: int) -> bool {
    0 <= at && at + pattern.len() <= s.len() && s.subrange(at, at + pattern.len()) == pattern
}

/// `pattern` is a contiguous part of `s`.
pub open spec fn contains<T>(s: Seq<T>, pattern: Seq<T>) -> bool {
    exists|at: int| occurs_at(s, pattern, at)
}

/// `a` and `b` agree on their first `k` characters, and there `a` ends while
/// `b` goes on, or `a` has the smaller code point.
pub open spec fn parts_at(a: Seq<char>, b: Seq<char>, k: int) -> bool {
    &&& 0 <= k <= a.len()
    &&& k <= b.len()
    &&& a.take(k) == b.take(k)
    &&& if k == a.len() {
        k < b.len()
    } else {
        k < b.len() && a[k] < b[k]
    }
}

/// Strict lexicographic order by code point.
pub open spec fn precedes(a: Seq<char>, b: Seq<char>) -> bool {
    exists|k: int| parts_at(a, b, k)
}

/// The lower-case form of an ASCII capital; any other character unchanged.
pub open spec fn lower(c: char) -> char {
    if 'A' <= c && c <= 'Z' {
        ((c as u8) + 32) as char
    } else {
        c
    }
}

/// `s` with every ASCII capital in lower case.
pub open spec fn lowered(s: Seq<char>) -> Seq<char> {
    Seq::new(s.len(), |i: int| lower(s[i]))
}

/// A white-space character: one with the Unicode property `White_Space`.
pub open spec fn is_space(c: char) -> bool {
    let u = c as u32;
    ||| 0x9 <= u <= 0xd
    ||| u == 0x20
    ||| u == 0x85
    ||| u == 0xa0
    ||| u == 0x1680
    ||| 0x2000 <= u <= 0x200a
    ||| u == 0x2028
    ||| u == 0x2029
    ||| u == 0x202f
    ||| u == 0x205f
    ||| u == 0x3000
}

/// `s` without the white space at its start.
pub open spec fn trim_start(s: Seq<char>) -> Seq<char>
    decreases s.len(),
{
    if s.len() > 0 && is_space(s[0]) {
        trim_start(s.drop_first())
    } else {
        s
    }
}

/// `s` without the white space at its end.
pub open spec fn trim_end(s: Seq<char>) -> Seq<char>
    decreases s.len(),
{
    if s.len() > 0 && is_space(s.last()) {
        trim_end(s.drop_last())
    } else {
        s
    }
}

/// `s` without the white space at its start and at its end.
pub open spec fn trimmed(s: Seq<char>) -> Seq<char> {
    trim_end(trim_start(s))
}

/// `at` is the first place from `from` on where `pattern` stands in `s`.
pub open spec fn first_at(s: Seq<char>, pattern: Seq<char>, from: int, at: int) -> bool {
    &&& from <= at
    &&& occurs_at(s, pattern, at)
    &&& forall|j: int| from <= j < at ==> !occurs_at(s, pattern, j)
}

/// No sequence precedes itself.
pub proof fn lemma_precedes_irreflexive(a: Seq<char>)
    ensures
        !precedes(a, a),
{
}

/// The order is transitive.
pub proof fn lemma_precedes_transitive(a: Seq<char>, b: Seq<char>, c: Seq<char>)
    requires
        precedes(a, b),
        precedes(b, c),
    ensures
        precedes(a, c),
{
    let k1 = choose|k: int| parts_at(a, b, k);
    let k2 = choose|k: int| parts_at(b, c, k);
    let k = if k1 <= k2 { k1 } else { k2 };
    assert(a.take(k) == c.take(k)) by {
        assert(a.take(k) == a.take(k1).take(k));
        assert(b.take(k) == b.take(k1).take(k));
        assert(b.take(k) == b.take(k2).take(k));
        assert(c.take(k) == c.take(k2).take(k));
    }
    if k1 < k2 {
        assert(b.take(k2)[k1] == c.take(k2)[k1]);
    } else if k2 < k1 {
        assert(a.take(k1)[k2] == b.take(k1)[k2]);
    }
    assert(parts_at(a, c, k));
}

/// Two sequences neither of which precedes the other are equal.
pub proof fn lemma_precedes_total(a: Seq<char>, b: Seq<char>)
    ensures
        precedes(a, b) || precedes(b, a) || a == b,
{
    assert(a.take(0) == b.take(0));
    lemma_precedes_from(a, b, 0);
}

/// Trichotomy, from a common prefix of length `k` on.
proof fn lemma_precedes_from(a: Seq<char>, b: Seq<char>, k: int)
    requires
        0 <= k <= a.len(),
        k <= b.len(),
        a.take(k) == b.take(k),
    ensures
        precedes(a, b) || precedes(b, a) || a == b,
    decreases a.len() - k,
{
    if k == a.len() {
        if k == b.len() {
            assert(a.take(k) == a);
            assert(b.take(k) == b);
        } else {
            assert(parts_at(a, b, k));
        }
    } else if k == b.len() {
        assert(parts_at(b, a, k));
    } else if a[k] < b[k] {
        assert(parts_at(a, b, k));
    } else if b[k] < a[k] {
        assert(parts_at(b, a, k));
    } else {
        assert(a.take(k + 1) == a.take(k).push(a[k]));
        assert(b.take(k + 1) == b.take(k).push(b[k]));
        lemma_precedes_from(a, b, k + 1);
    }
}

/// The characters of `s`, in order.
pub fn to_chars(s: &str) -> (v: Vec<char>)
    ensures
        v@ == s@,
{
    let mut v: Vec<char> = Vec::new();
    for c in it: s.chars()
        invariant
            it.seq() == s@,
            v@ == s@.take(it.index()),
    {
        assert(s@.take(it.index() + 1) == s@.take(it.index()).push(c));
        v.push(c);
    }
    assert(s@.take(s@.len() as int) == s@);
    v
}

/// Whether `pattern` stands in `s` at `at`.
pub fn chars_occur_at(s: &[char], pattern: &[char], at: usize) -> (r: bool)
    ensures
        r == occurs_at(s@, pattern@, at as int),
{
    let n = s.len();
    let m = pattern.len();
    if at > n || m > n - at {
        return false;
    }
    let mut k: usize = 0;
    while k < m
        invariant
            n == s.len(),
            m == pattern.len(),
            at <= n,
            m <= n - at,
            k <= m,
            s@.subrange(at as int, at + k) == pattern@.take(k as int),
        decreases m - k,
    {
        if s[at + k] != pattern[k] {
            assert(s@.subrange(at as int, at + m)[k as int] != pattern@[k as int]);
            return false;
        }
        assert(s@.subrange(at as int, at + k + 1) == s@.subrange(at as int, at + k).push(
            s@[at + k],
        ));
        assert(pattern@.take(k + 1) == pattern@.take(k as int).push(pattern@[k as int]));
        k = k + 1;
    }
    assert(pattern@.take(m as int) == pattern@);
    true
}

/// Whether `s` and `other` hold the same characters.
pub fn chars_equal(s: &[char], other: &[char]) -> (r: bool)
    ensures
        r == (s@ == other@),
{
    if s.len() != other.len() {
        return false;
    }
    let r = chars_occur_at(s, other, 0);
    assert(s@.subrange(0, s@.len() as int) == s@);
    r
}

/// Whether `s` ends in `suffix`.
pub fn chars_end_with(s: &[char], suffix: &[char]) -> (r: bool)
    ensures
        r == ends_with(s@, suffix@),
{
    if suffix.len() > s.len() {
        return false;
    }
    chars_occur_at(s, suffix, s.len() - suffix.len())
}

/// Whether `pattern` is a contiguous part of `s`.
pub fn chars_contain(s: &[char], pattern: &[char]) -> (r: bool)
    ensures
        r == contains(s@, pattern@),
{
    let n = s.len();
    let m = pattern.len();
    if m > n {
        return false;
    }
    let mut at: usize = 0;
    while at < n - m
        invariant
            n == s.len(),
            m == pattern.len(),
            m <= n,
            at <= n - m,
            forall|j: int| 0 <= j < at ==> !occurs_at(s@, pattern@, j),
        decreases n - m - at,
    {
        if chars_occur_at(s, pattern, at) {
            return true;
        }
        at = at + 1;
    }
    chars_occur_at(s, pattern, at)
}

/// Whether `a` comes strictly before `b` in code point order.
pub fn chars_precede(a: &[char], b: &[char]) -> (r: bool)
    ensures
        r == precedes(a@, b@),
{
    let n = a.len();
    let m = b.len();
    let mut k: usize = 0;
    while k < n && k < m
        invariant
            n == a.len(),
            m == b.len(),
            k <= n,
            k <= m,
            a@.take(k as int) == b@.take(k as int),
        decreases n - k,
    {
        if a[k] != b[k] {
            let r = a[k] < b[k];
            proof {
                if r {
                    assert(parts_at(a@, b@, k as int));
                } else {
                    assert forall|j: int| !parts_at(a@, b@, j) by {
                        if parts_at(a@, b@, j) {
                            if j < k {
                                assert(a@.take(k as int)[j] == b@.take(k as int)[j]);
                            } else if j > k {
                                assert(a@.take(j)[k as int] == b@.take(j)[k as int]);
                            }
                        }
                    }
                }
            }
            return r;
        }
        assert(a@.take(k + 1) == a@.take(k as int).push(a@[k as int]));
        assert(b@.take(k + 1) == b@.take(k as int).push(b@[k as int]));
        k = k + 1;
    }
    proof {
        if k == n && k < m {
            assert(parts_at(a@, b@, k as int));
        } else {
            assert forall|j: int| !parts_at(a@, b@, j) by {
                if parts_at(a@, b@, j) {
                    if j < k {
                        assert(a@.take(k as int)[j] == b@.take(k as int)[j]);
                    }
                }
            }
        }
    }
    k == n && k < m
}

/// The lower-case form of `c` where it is an ASCII capital, else `c`.
pub fn lower_char(c: char) -> (r: char)
    ensures
        r == lower(c),
{
    if 'A' <= c && c <= 'Z' {
        ((c as u8) + 32) as char
    } else {
        c
    }
}

/// `s` with every ASCII capital in lower case.
pub fn chars_lowered(s: &[char]) -> (v: Vec<char>)
    ensures
        v@ == lowered(s@),
{
    let mut v: Vec<char> = Vec::new();
    let mut i: usize = 0;
    while i < s.len()
        invariant
            i <= s.len(),
            v@ == lowered(s@).take(i as int),
        decreases s.len() - i,
    {
        v.push(lower_char(s[i]));
        assert(lowered(s@).take(i + 1) == lowered(s@).take(i as int).push(lower(s@[i as int])));
        i = i + 1;
    }
    assert(lowered(s@).take(s@.len() as int) == lowered(s@));
    v
}

/// The first place from `from` on where `pattern` stands in `s`; `None`
/// where it stands nowhere from there on.
pub fn chars_find(s: &[char], pattern: &[char], from: usize) -> (r: Option<usize>)
    ensures
        match r {
            Some(at) => first_at(s@, pattern@, from as int, at as int),
            None => forall|j: int| from <= j ==> !occurs_at(s@, pattern@, j),
        },
{
    let n = s.len();
    let m = pattern.len();
    if m > n || from > n - m {
        return None;
    }
    let mut at: usize = from;
    while at < n - m
        invariant
            n == s.len(),
            m == pattern.len(),
            m <= n,
            from <= at <= n - m,
            forall|j: int| from <= j < at ==> !occurs_at(s@, pattern@, j),
        decreases n - m - at,
    {
        if chars_occur_at(s, pattern, at) {
            return Some(at);
        }
        at = at + 1;
    }
    if chars_occur_at(s, pattern, at) {
        Some(at)
    } else {
        None
    }
}

/// Whether `c` is a white-space character.
pub fn is_space_char(c: char) -> (r: bool)
    ensures
        r == is_space(c),
{
    let u = c as u32;
    (0x9 <= u && u <= 0xd) || u == 0x20 || u == 0x85 || u == 0xa0 || u == 0x1680 || (0x2000 <= u
        && u <= 0x200a) || u == 0x2028 || u == 0x2029 || u == 0x202f || u == 0x205f || u == 0x3000
}

/// `s` without the white space at its start and at its end.
pub fn chars_trimmed(s: &[char]) -> (r: &[char])
    ensures
        r@ == trimmed(s@),
{
    let n = s.len();
    let mut a: usize = 0;
    assert(s@.skip(0) == s@);
    while a < n && is_space_char(s[a])
        invariant
            n == s.len(),
            a <= n,
            trim_start(s@) == trim_start(s@.skip(a as int)),
        decreases n - a,
    {
        assert(s@.skip(a as int).drop_first() == s@.skip(a + 1));
        a = a + 1;
    }
    let ghost rest = s@.skip(a as int);
    assert(trim_start(s@) == rest);
    let mut b: usize = n;
    assert(s@.subrange(a as int, n as int) == s@.skip(a as int));
    while b > a && is_space_char(s[b - 1])
        invariant
            n == s.len(),
            a <= b <= n,
            rest == s@.skip(a as int),
            trim_end(rest) == trim_end(s@.subrange(a as int, b as int)),
        decreases b,
    {
        assert(s@.subrange(a as int, b as int).drop_last() == s@.subrange(a as int, b - 1));
        b = b - 1;
    }
    &s[a..b]
}

/// Whether `a` and `b` hold the same bytes.
pub fn bytes_equal(a: &[u8], b: &[u8]) -> (r: bool)
    ensures
        r == (a@ == b@),
{
    if a.len() != b.len() {
        return false;
    }
    let mut k: usize = 0;
    while k < a.len()
        invariant
            a.len() == b.len(),
            k <= a.len(),
            a@.take(k as int) == b@.take(k as int),
        decreases a.len() - k,
    {
        if a[k] != b[k] {
            return false;
        }
        assert(a@.take(k + 1) == a@.take(k as int).push(a@[k as int]));
        assert(b@.take(k + 1) == b@.take(k as int).push(b@[k as int]));
        k = k + 1;
    }
    assert(a@.take(a@.len() as int) == a@);
    assert(b@.take(b@.len() as int) == b@);
    true
}

} // verus!
