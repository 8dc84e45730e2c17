//! Small verified string helpers shared across the crate: equality,
//! prefix tests, character search and splitting over `Seq<char>` views.

use vstd::prelude::*;

verus! {

/// Character-wise equality of two string slices.
pub fn str_eq(a: &str, b: &str) -> (r: bool)
    ensures
        r == (a@ == b@),
{
    let na = a.unicode_len();
    let nb = b.unicode_len();
    if na != nb {
        return false;
    }
    let mut i: usize = 0;
    while i < na
        invariant
            na == a@.len(),
            nb == b@.len(),
            na == nb,
            0 <= i <= na,
            forall|k: int| 0 <= k < i ==> a@[k] == b@[k],
        decreases na - i,
    {
        if a.get_char(i) != b.get_char(i) {
            return false;
        }
        i = i + 1;
    }
    proof {
        assert(a@ =~= b@);
    }
    true
}

/// `p` is the first `p.len()` characters of `s`.
pub fn starts_with(s: &str, p: &str) -> (r: bool)
    ensures
        r == (p@.len() <= s@.len() && s@.subrange(0, p@.len() as int) == p@),
{
    let ns = s.unicode_len();
    let np = p.unicode_len();
    if np > ns {
        return false;
    }
    let mut i: usize = 0;
    while i < np
        invariant
            ns == s@.len(),
            np == p@.len(),
            np <= ns,
            0 <= i <= np,
            forall|k: int| 0 <= k < i ==> s@[k] == p@[k],
        decreases np - i,
    {
        if s.get_char(i) != p.get_char(i) {
            proof {
                assert(s@.subrange(0, np as int)[i as int] == s@[i as int]);
            }
            return false;
        }
        i = i + 1;
    }
    proof {
        assert(s@.subrange(0, np as int) =~= p@);
    }
    true
}

/// `p` is the last `p.len()` characters of `s`.
pub fn ends_with(s: &str, p: &str) -> (r: bool)
    ensures
        r == (p@.len() <= s@.len() && s@.subrange(s@.len() - p@.len(), s@.len() as int) == p@),
{
    let ns = s.unicode_len();
    let np = p.unicode_len();
    if np > ns {
        return false;
    }
    let base = ns - np;
    let mut i: usize = 0;
    while i < np
        invariant
            ns == s@.len(),
            np == p@.len(),
            np <= ns,
            base == ns - np,
            0 <= i <= np,
            forall|k: int| 0 <= k < i ==> s@[base + k] == p@[k],
        decreases np - i,
    {
        if s.get_char(base + i) != p.get_char(i) {
            proof {
                assert(s@.subrange(base as int, ns as int)[i as int] == s@[base + i]);
            }
            return false;
        }
        i = i + 1;
    }
    proof {
        assert(s@.subrange(base as int, ns as int) =~= p@);
    }
    true
}

/// Index of the first occurrence of `c` in `s` at or after `from`, or
/// `s.len()` when there is none.
pub open spec fn spec_find_char(s: Seq<char>, from: int, c: char) -> int
    decreases s.len() - from,
{
    if from < 0 || from >= s.len() {
        s.len() as int
    } else if s[from] == c {
        from
    } else {
        spec_find_char(s, from + 1, c)
    }
}

/// The search never lands before its starting point.
pub proof fn lemma_find_char_ge(s: Seq<char>, from: int, c: char)
    requires
        0 <= from <= s.len(),
    ensures
        from <= spec_find_char(s, from, c) <= s.len(),
    decreases s.len() - from,
{
    if from < s.len() && s[from] != c {
        lemma_find_char_ge(s, from + 1, c);
    }
}

/// The first occurrence is where nothing earlier matches and either the
/// position matches or the end was reached.
pub proof fn lemma_find_char_at(s: Seq<char>, from: int, c: char, j: int)
    requires
        0 <= from <= j <= s.len(),
        forall|k: int| from <= k < j ==> s[k] != c,
        j == s.len() || s[j] == c,
    ensures
        spec_find_char(s, from, c) == j,
    decreases j - from,
{
    if from < j {
        lemma_find_char_at(s, from + 1, c, j);
    }
}

/// Find the first occurrence of `c` in `s` at or after `from`.
pub fn find_char(s: &str, from: usize, c: char) -> (r: usize)
    requires
        from <= s@.len(),
    ensures
        r as int == spec_find_char(s@, from as int, c),
        from <= r <= s@.len(),
        r < s@.len() ==> s@[r as int] == c,
        forall|k: int| from <= k < r ==> s@[k] != c,
{
    let n = s.unicode_len();
    let mut i: usize = from;
    while i < n
        invariant
            n == s@.len(),
            from <= i <= n,
            forall|k: int| from <= k < i ==> s@[k] != c,
        decreases n - i,
    {
        if s.get_char(i) == c {
            proof {
                lemma_find_char_at(s@, from as int, c, i as int);
            }
            return i;
        }
        i = i + 1;
    }
    proof {
        lemma_find_char_at(s@, from as int, c, n as int);
    }
    n
}

/// The characters of `s`, one by one, as an owned string.
pub fn substring_owned(s: &str, from: usize, to: usize) -> (r: String)
    requires
        from <= to <= s@.len(),
    ensures
        r@ == s@.subrange(from as int, to as int),
{
    let sub = s.substring_char(from, to);
    sub.to_owned()
}

/// A character the layout strings are trimmed of.
pub open spec fn is_space(c: char) -> bool {
    c == ' ' || c == '\t' || c == '\r' || c == '\n'
}

/// `s` with leading and trailing whitespace removed: the subrange between
/// the first and last non-space characters.
pub open spec fn spec_trim(s: Seq<char>) -> Seq<char> {
    spec_trim_back(spec_trim_front(s))
}

pub open spec fn spec_trim_front(s: Seq<char>) -> Seq<char>
    decreases s.len(),
{
    if s.len() > 0 && is_space(s[0]) {
        spec_trim_front(s.drop_first())
    } else {
        s
    }
}

pub open spec fn spec_trim_back(s: Seq<char>) -> Seq<char>
    decreases s.len(),
{
    if s.len() > 0 && is_space(s.last()) {
        spec_trim_back(s.drop_last())
    } else {
        s
    }
}

/// Trimming the front never lengthens a string.
pub proof fn lemma_trim_front_len(s: Seq<char>)
    ensures
        spec_trim_front(s).len() <= s.len(),
    decreases s.len(),
{
    if s.len() > 0 && is_space(s[0]) {
        lemma_trim_front_len(s.drop_first());
    }
}

proof fn lemma_trim_front_skip(s: Seq<char>, i: int)
    requires
        0 <= i <= s.len(),
        forall|k: int| 0 <= k < i ==> is_space(s[k]),
        i == s.len() || !is_space(s[i]),
    ensures
        spec_trim_front(s) == s.skip(i),
    decreases i,
{
    if i == 0 {
        assert(s.skip(0) =~= s);
    } else {
        assert(is_space(s[0]));
        assert(forall|k: int| 0 <= k < i - 1 ==> s.drop_first()[k] == s[k + 1]);
        assert(i - 1 == s.drop_first().len() || !is_space(s.drop_first()[i - 1]));
        lemma_trim_front_skip(s.drop_first(), i - 1);
        assert(s.drop_first().skip(i - 1) =~= s.skip(i));
    }
}

proof fn lemma_trim_back_take(s: Seq<char>, j: int)
    requires
        0 <= j <= s.len(),
        forall|k: int| j <= k < s.len() ==> is_space(s[k]),
        j == 0 || !is_space(s[j - 1]),
    ensures
        spec_trim_back(s) == s.take(j),
    decreases s.len() - j,
{
    if j == s.len() {
        assert(s.take(j) =~= s);
    } else {
        assert(is_space(s.last()));
        assert(forall|k: int| 0 <= k < s.drop_last().len() ==> s.drop_last()[k] == s[k]);
        lemma_trim_back_take(s.drop_last(), j);
        assert(s.drop_last().take(j) =~= s.take(j));
    }
}

/// Remove leading and trailing whitespace.
pub fn trim_spaces(s: &str) -> (r: String)
    ensures
        r@ == spec_trim(s@),
{
    let n = s.unicode_len();
    let mut a: usize = 0;
    while a < n
        invariant
            n == s@.len(),
            0 <= a <= n,
            forall|k: int| 0 <= k < a ==> is_space(s@[k]),
        ensures
            0 <= a <= n,
            forall|k: int| 0 <= k < a ==> is_space(s@[k]),
            a == n || !is_space(s@[a as int]),
        decreases n - a,
    {
        let c = s.get_char(a);
        if !(c == ' ' || c == '\t' || c == '\r' || c == '\n') {
            break ;
        }
        a = a + 1;
    }
    proof {
        lemma_trim_front_skip(s@, a as int);
    }
    let mut b: usize = n;
    while b > a
        invariant
            n == s@.len(),
            0 <= a <= b <= n,
            a == n || !is_space(s@[a as int]),
            forall|k: int| b <= k < n ==> is_space(s@[k]),
            spec_trim_front(s@) == s@.skip(a as int),
        ensures
            0 <= a <= b <= n,
            forall|k: int| b <= k < n ==> is_space(s@[k]),
            b == a || !is_space(s@[b - 1]),
            spec_trim_front(s@) == s@.skip(a as int),
        decreases b,
    {
        let c = s.get_char(b - 1);
        if !(c == ' ' || c == '\t' || c == '\r' || c == '\n') {
            break ;
        }
        b = b - 1;
    }
    proof {
        let t = s@.skip(a as int);
        assert(forall|k: int| 0 <= k < t.len() ==> t[k] == s@[k + a]);
        assert(b - a == 0 || !is_space(t[b - a - 1]));
        lemma_trim_back_take(t, b - a);
        assert(t.take(b - a) =~= s@.subrange(a as int, b as int));
    }
    substring_owned(s, a, b)
}

/// Relies on String::push: appends exactly one character.
#[verifier::external_body]
pub fn push_char(s: &mut String, c: char)
    ensures
        final(s)@ == old(s)@.push(c),
{
    s.push(c)
}

/// Index of the first occurrence of `needle` in `hay` at or after `from`,
/// or `-1` when there is none.
pub open spec fn spec_find_sub(hay: Seq<char>, needle: Seq<char>, from: int) -> int
    decreases hay.len() - from + 1,
{
    if from < 0 || from + needle.len() > hay.len() {
        -1
    } else if hay.subrange(from, from + needle.len() as int) == needle {
        from
    } else {
        spec_find_sub(hay, needle, from + 1)
    }
}

/// A found occurrence lies in range and matches.
pub proof fn lemma_find_sub_props(hay: Seq<char>, needle: Seq<char>, from: int)
    requires
        0 <= from,
    ensures
        ({
            let r = spec_find_sub(hay, needle, from);
            r == -1 || (from <= r && r + needle.len() <= hay.len() && hay.subrange(
                r,
                r + needle.len() as int,
            ) == needle)
        }),
    decreases hay.len() - from + 1,
{
    if from + needle.len() <= hay.len() && hay.subrange(from, from + needle.len() as int)
        != needle {
        lemma_find_sub_props(hay, needle, from + 1);
    }
}

/// Find the first occurrence of `needle` in `hay`.
pub fn find_sub(hay: &str, needle: &str) -> (r: Option<usize>)
    ensures
        match r {
            Some(i) => spec_find_sub(hay@, needle@, 0) == i,
            None => spec_find_sub(hay@, needle@, 0) == -1,
        },
{
    let nh = hay.unicode_len();
    let nn = needle.unicode_len();
    if nn > nh {
        return None;
    }
    let limit = nh - nn;
    let mut i: usize = 0;
    loop
        invariant
            nh == hay@.len(),
            nn == needle@.len(),
            nn <= nh,
            limit == nh - nn,
            0 <= i <= limit,
            spec_find_sub(hay@, needle@, 0) == spec_find_sub(hay@, needle@, i as int),
        decreases limit - i,
    {
        if match_at(hay, needle, i) {
            return Some(i);
        }
        if i == limit {
            proof {
                assert(spec_find_sub(hay@, needle@, limit as int) == spec_find_sub(
                    hay@,
                    needle@,
                    limit as int + 1,
                ));
                assert(spec_find_sub(hay@, needle@, limit as int + 1) == -1);
            }
            return None;
        }
        i = i + 1;
    }
}

/// Index of the last occurrence of `c` in `s`, or `-1` when there is none.
pub open spec fn spec_rfind_char(s: Seq<char>, c: char) -> int
    decreases s.len(),
{
    if s.len() == 0 {
        -1
    } else if s.last() == c {
        s.len() - 1
    } else {
        spec_rfind_char(s.drop_last(), c)
    }
}

/// Find the last occurrence of `c` in `s`.
pub fn rfind_char(s: &str, c: char) -> (r: Option<usize>)
    ensures
        match r {
            Some(i) => spec_rfind_char(s@, c) == i && i < s@.len() && s@[i as int] == c,
            None => spec_rfind_char(s@, c) == -1,
        },
{
    let n = s.unicode_len();
    let mut j: usize = n;
    assert(s@.take(n as int) =~= s@);
    while j > 0
        invariant
            n == s@.len(),
            0 <= j <= n,
            spec_rfind_char(s@, c) == spec_rfind_char(s@.take(j as int), c),
        decreases j,
    {
        if s.get_char(j - 1) == c {
            proof {
                assert(s@.take(j as int).last() == s@[j - 1]);
            }
            return Some(j - 1);
        }
        proof {
            assert(s@.take(j as int).last() == s@[j - 1]);
            assert(s@.take(j as int).drop_last() =~= s@.take(j as int - 1));
        }
        j = j - 1;
    }
    None
}

/// Index of the last whitespace character in `s`, or `-1` when there is
/// none.
pub open spec fn spec_rfind_space(s: Seq<char>) -> int
    decreases s.len(),
{
    if s.len() == 0 {
        -1
    } else if is_space(s.last()) {
        s.len() - 1
    } else {
        spec_rfind_space(s.drop_last())
    }
}

/// Find the last whitespace character in `s`.
pub fn rfind_space(s: &str) -> (r: Option<usize>)
    ensures
        match r {
            Some(i) => spec_rfind_space(s@) == i && i < s@.len() && is_space(s@[i as int]),
            None => spec_rfind_space(s@) == -1,
        },
{
    let n = s.unicode_len();
    let mut j: usize = n;
    assert(s@.take(n as int) =~= s@);
    while j > 0
        invariant
            n == s@.len(),
            0 <= j <= n,
            spec_rfind_space(s@) == spec_rfind_space(s@.take(j as int)),
        decreases j,
    {
        let c = s.get_char(j - 1);
        proof {
            assert(s@.take(j as int).last() == s@[j - 1]);
            assert(s@.take(j as int).drop_last() =~= s@.take(j as int - 1));
        }
        if c == ' ' || c == '\t' || c == '\r' || c == '\n' {
            return Some(j - 1);
        }
        j = j - 1;
    }
    None
}

/// Index of the first whitespace character at or after `from`, or the end.
pub open spec fn spec_first_space(s: Seq<char>, from: int) -> int
    decreases s.len() - from,
{
    if from < 0 || from >= s.len() {
        s.len() as int
    } else if is_space(s[from]) {
        from
    } else {
        spec_first_space(s, from + 1)
    }
}

/// Find the first whitespace character at or after `from`.
pub fn first_space(s: &str, from: usize) -> (r: usize)
    requires
        from <= s@.len(),
    ensures
        r as int == spec_first_space(s@, from as int),
        from <= r <= s@.len(),
{
    let n = s.unicode_len();
    let mut i: usize = from;
    while i < n
        invariant
            n == s@.len(),
            from <= i <= n,
            spec_first_space(s@, from as int) == spec_first_space(s@, i as int),
        decreases n - i,
    {
        let c = s.get_char(i);
        if c == ' ' || c == '\t' || c == '\r' || c == '\n' {
            return i;
        }
        i = i + 1;
    }
    n
}

/// `s` with every leading and trailing occurrence of `q` removed.
pub open spec fn spec_trim_char(s: Seq<char>, q: char) -> Seq<char> {
    spec_trim_char_back(spec_trim_char_front(s, q), q)
}

pub open spec fn spec_trim_char_front(s: Seq<char>, q: char) -> Seq<char>
    decreases s.len(),
{
    if s.len() > 0 && s[0] == q {
        spec_trim_char_front(s.drop_first(), q)
    } else {
        s
    }
}

pub open spec fn spec_trim_char_back(s: Seq<char>, q: char) -> Seq<char>
    decreases s.len(),
{
    if s.len() > 0 && s.last() == q {
        spec_trim_char_back(s.drop_last(), q)
    } else {
        s
    }
}

proof fn lemma_trim_char_front_skip(s: Seq<char>, q: char, i: int)
    requires
        0 <= i <= s.len(),
        forall|k: int| 0 <= k < i ==> s[k] == q,
        i == s.len() || s[i] != q,
    ensures
        spec_trim_char_front(s, q) == s.skip(i),
    decreases i,
{
    if i == 0 {
        assert(s.skip(0) =~= s);
    } else {
        assert(s[0] == q);
        assert(forall|k: int| 0 <= k < i - 1 ==> s.drop_first()[k] == s[k + 1]);
        lemma_trim_char_front_skip(s.drop_first(), q, i - 1);
        assert(s.drop_first().skip(i - 1) =~= s.skip(i));
    }
}

proof fn lemma_trim_char_back_take(s: Seq<char>, q: char, j: int)
    requires
        0 <= j <= s.len(),
        forall|k: int| j <= k < s.len() ==> s[k] == q,
        j == 0 || s[j - 1] != q,
    ensures
        spec_trim_char_back(s, q) == s.take(j),
    decreases s.len() - j,
{
    if j == s.len() {
        assert(s.take(j) =~= s);
    } else {
        assert(s.last() == q);
        assert(forall|k: int| 0 <= k < s.drop_last().len() ==> s.drop_last()[k] == s[k]);
        lemma_trim_char_back_take(s.drop_last(), q, j);
        assert(s.drop_last().take(j) =~= s.take(j));
    }
}

/// Remove every leading and trailing occurrence of `q`.
pub fn trim_char_ends(s: &str, q: char) -> (r: String)
    ensures
        r@ == spec_trim_char(s@, q),
{
    let n = s.unicode_len();
    let mut a: usize = 0;
    while a < n
        invariant
            n == s@.len(),
            0 <= a <= n,
            forall|k: int| 0 <= k < a ==> s@[k] == q,
        ensures
            0 <= a <= n,
            forall|k: int| 0 <= k < a ==> s@[k] == q,
            a == n || s@[a as int] != q,
        decreases n - a,
    {
        if s.get_char(a) != q {
            break ;
        }
        a = a + 1;
    }
    proof {
        lemma_trim_char_front_skip(s@, q, a as int);
    }
    let mut b: usize = n;
    while b > a
        invariant
            n == s@.len(),
            0 <= a <= b <= n,
            a == n || s@[a as int] != q,
            forall|k: int| b <= k < n ==> s@[k] == q,
            spec_trim_char_front(s@, q) == s@.skip(a as int),
        ensures
            0 <= a <= b <= n,
            forall|k: int| b <= k < n ==> s@[k] == q,
            b == a || s@[b - 1] != q,
            spec_trim_char_front(s@, q) == s@.skip(a as int),
        decreases b,
    {
        if s.get_char(b - 1) != q {
            break ;
        }
        b = b - 1;
    }
    proof {
        let t = s@.skip(a as int);
        assert(forall|k: int| 0 <= k < t.len() ==> t[k] == s@[k + a]);
        assert(b - a == 0 || t[b - a - 1] != q);
        lemma_trim_char_back_take(t, q, b - a);
        assert(t.take(b - a) =~= s@.subrange(a as int, b as int));
    }
    substring_owned(s, a, b)
}

/// Remove every leading occurrence of `q`.
pub fn trim_char_start(s: &str, q: char) -> (r: String)
    ensures
        r@ == spec_trim_char_front(s@, q),
{
    let n = s.unicode_len();
    let mut a: usize = 0;
    while a < n
        invariant
            n == s@.len(),
            0 <= a <= n,
            forall|k: int| 0 <= k < a ==> s@[k] == q,
        ensures
            0 <= a <= n,
            forall|k: int| 0 <= k < a ==> s@[k] == q,
            a == n || s@[a as int] != q,
        decreases n - a,
    {
        if s.get_char(a) != q {
            break ;
        }
        a = a + 1;
    }
    proof {
        lemma_trim_char_front_skip(s@, q, a as int);
        assert(s@.skip(a as int) =~= s@.subrange(a as int, n as int));
    }
    substring_owned(s, a, n)
}

/// Remove every trailing occurrence of `q`.
pub fn trim_char_end(s: &str, q: char) -> (r: String)
    ensures
        r@ == spec_trim_char_back(s@, q),
{
    let n = s.unicode_len();
    let mut b: usize = n;
    while b > 0
        invariant
            n == s@.len(),
            0 <= b <= n,
            forall|k: int| b <= k < n ==> s@[k] == q,
        ensures
            0 <= b <= n,
            forall|k: int| b <= k < n ==> s@[k] == q,
            b == 0 || s@[b - 1] != q,
        decreases b,
    {
        if s.get_char(b - 1) != q {
            break ;
        }
        b = b - 1;
    }
    proof {
        lemma_trim_char_back_take(s@, q, b as int);
        assert(s@.take(b as int) =~= s@.subrange(0, b as int));
    }
    substring_owned(s, 0, b)
}

/// Remove leading whitespace only.
pub fn trim_start_spaces(s: &str) -> (r: String)
    ensures
        r@ == spec_trim_front(s@),
{
    let n = s.unicode_len();
    let mut a: usize = 0;
    while a < n
        invariant
            n == s@.len(),
            0 <= a <= n,
            forall|k: int| 0 <= k < a ==> is_space(s@[k]),
        ensures
            0 <= a <= n,
            forall|k: int| 0 <= k < a ==> is_space(s@[k]),
            a == n || !is_space(s@[a as int]),
        decreases n - a,
    {
        let c = s.get_char(a);
        if !(c == ' ' || c == '\t' || c == '\r' || c == '\n') {
            break ;
        }
        a = a + 1;
    }
    proof {
        lemma_trim_front_skip(s@, a as int);
        assert(s@.skip(a as int) =~= s@.subrange(a as int, n as int));
    }
    substring_owned(s, a, n)
}

/// The pieces of `s` split on `c`, in order; empty pieces are kept and an
/// empty string yields one empty piece.
pub open spec fn spec_split_char(s: Seq<char>, c: char) -> Seq<Seq<char>> {
    spec_split_char_from(s, c, 0)
}

pub open spec fn spec_split_char_from(s: Seq<char>, c: char, start: int) -> Seq<Seq<char>>
    decreases s.len() - start,
    via spec_split_char_from_decreases
{
    if start < 0 || start > s.len() {
        Seq::empty()
    } else {
        let j = spec_find_char(s, start, c);
        if j >= s.len() {
            seq![s.subrange(start, s.len() as int)]
        } else {
            seq![s.subrange(start, j)] + spec_split_char_from(s, c, j + 1)
        }
    }
}

#[via_fn]
proof fn spec_split_char_from_decreases(s: Seq<char>, c: char, start: int) {
    if 0 <= start <= s.len() {
        lemma_find_char_ge(s, start, c);
    }
}

/// Split a string on one separator character.
pub fn split_char(s: &str, c: char) -> (r: Vec<String>)
    ensures
        r@.len() == spec_split_char(s@, c).len(),
        forall|i: int| 0 <= i < r@.len() ==> (#[trigger] r@[i])@ == spec_split_char(s@, c)[i],
{
    let n = s.unicode_len();
    let mut r: Vec<String> = Vec::new();
    let mut start: usize = 0;
    loop
        invariant
            n == s@.len(),
            0 <= start <= n,
            spec_split_char(s@, c) == r@.map_values(|p: String| p@) + spec_split_char_from(
                s@,
                c,
                start as int,
            ),
        ensures
            r@.len() == spec_split_char(s@, c).len(),
            forall|i: int| 0 <= i < r@.len() ==> (#[trigger] r@[i])@ == spec_split_char(s@, c)[i],
        decreases n - start + 1,
    {
        let j = find_char(s, start, c);
        let piece = substring_owned(s, start, j);
        let ghost old_pieces = r@.map_values(|p: String| p@);
        r.push(piece);
        proof {
            assert(r@.map_values(|p: String| p@) =~= old_pieces + seq![s@.subrange(
                start as int, j as int)]);
        }
        if j == n {
            proof {
                assert(spec_split_char_from(s@, c, start as int) == seq![s@.subrange(
                    start as int, n as int)]);
                assert(spec_split_char(s@, c) =~= r@.map_values(|p: String| p@));
                let pieces = r@.map_values(|p: String| p@);
                assert(forall|i: int| 0 <= i < r@.len() ==> (#[trigger] r@[i])@ == pieces[i]);
            }
            return r;
        }
        proof {
            assert(spec_split_char_from(s@, c, start as int) =~= seq![s@.subrange(
                start as int, j as int)] + spec_split_char_from(s@, c, j as int + 1));
            assert(spec_split_char(s@, c) =~= r@.map_values(|p: String| p@)
                + spec_split_char_from(s@, c, j as int + 1));
        }
        start = j + 1;
    }
}

/// Code-point lexicographic order on character sequences: the order Rust
/// itself gives strings, since UTF-8 byte order follows code-point order.
pub open spec fn lex_le(a: Seq<char>, b: Seq<char>) -> bool
    decreases a.len(),
{
    if a.len() == 0 {
        true
    } else if b.len() == 0 {
        false
    } else if (a[0] as u32) < (b[0] as u32) {
        true
    } else if (a[0] as u32) > (b[0] as u32) {
        false
    } else {
        lex_le(a.drop_first(), b.drop_first())
    }
}

/// The order is total.
pub proof fn lemma_lex_le_total(a: Seq<char>, b: Seq<char>)
    ensures
        lex_le(a, b) || lex_le(b, a),
    decreases a.len(),
{
    if a.len() > 0 && b.len() > 0 && (a[0] as u32) == (b[0] as u32) {
        lemma_lex_le_total(a.drop_first(), b.drop_first());
    }
}

/// The order is transitive.
pub proof fn lemma_lex_le_trans(a: Seq<char>, b: Seq<char>, c: Seq<char>)
    requires
        lex_le(a, b),
        lex_le(b, c),
    ensures
        lex_le(a, c),
    decreases a.len(),
{
    if a.len() > 0 {
        assert(b.len() > 0);
        assert(c.len() > 0);
        if (a[0] as u32) == (b[0] as u32) && (b[0] as u32) == (c[0] as u32) {
            lemma_lex_le_trans(a.drop_first(), b.drop_first(), c.drop_first());
        }
    }
}

/// Compare two strings in code-point order.
pub fn str_le(a: &str, b: &str) -> (r: bool)
    ensures
        r == lex_le(a@, b@),
{
    let na = a.unicode_len();
    let nb = b.unicode_len();
    let mut i: usize = 0;
    proof {
        assert(a@.skip(0) =~= a@);
        assert(b@.skip(0) =~= b@);
    }
    loop
        invariant
            na == a@.len(),
            nb == b@.len(),
            0 <= i <= na,
            0 <= i <= nb,
            lex_le(a@, b@) == lex_le(a@.skip(i as int), b@.skip(i as int)),
        decreases na - i,
    {
        if i >= na {
            return true;
        }
        if i >= nb {
            return false;
        }
        let ca = a.get_char(i);
        let cb = b.get_char(i);
        proof {
            assert(a@.skip(i as int)[0] == a@[i as int]);
            assert(b@.skip(i as int)[0] == b@[i as int]);
            assert(a@.skip(i as int).drop_first() =~= a@.skip(i + 1));
            assert(b@.skip(i as int).drop_first() =~= b@.skip(i + 1));
        }
        let ua = ca as u32;
        let ub = cb as u32;
        if ua < ub {
            return true;
        }
        if ua > ub {
            return false;
        }
        i = i + 1;
    }
}

/// Inserting anywhere adds exactly one occurrence to the multiset.
pub proof fn lemma_insert_to_multiset<A>(s: Seq<A>, p: int, x: A)
    requires
        0 <= p <= s.len(),
    ensures
        s.insert(p, x).to_multiset() == s.to_multiset().insert(x),
{
    broadcast use vstd::seq_lib::group_to_multiset_ensures;

    let t = s.insert(p, x);
    assert(t.remove(p) =~= s);
    assert(t[p] == x);
    assert(t.remove(p).to_multiset() =~= t.to_multiset().remove(x));
    assert(t.contains(x));
    assert(t.to_multiset().count(x) > 0);
    assert(t.to_multiset().remove(x).insert(x) =~= t.to_multiset());
    assert(s.to_multiset().insert(x) =~= t.to_multiset());
}

/// `needle` occurs contiguously somewhere in `hay`.
pub open spec fn contains_seq(hay: Seq<char>, needle: Seq<char>) -> bool {
    exists|i: int|
        0 <= i <= hay.len() - needle.len() && #[trigger] hay.subrange(i, i + needle.len() as int)
            == needle
}

fn match_at(hay: &str, needle: &str, i: usize) -> (r: bool)
    requires
        i + needle@.len() <= hay@.len(),
    ensures
        r == (hay@.subrange(i as int, i + needle@.len()) == needle@),
{
    let nh = hay.unicode_len();
    let nn = needle.unicode_len();
    let mut k: usize = 0;
    while k < nn
        invariant
            nh == hay@.len(),
            nn == needle@.len(),
            i + nn <= nh,
            0 <= k <= nn,
            forall|t: int| 0 <= t < k ==> hay@[i + t] == needle@[t],
        decreases nn - k,
    {
        if hay.get_char(i + k) != needle.get_char(k) {
            proof {
                assert(hay@.subrange(i as int, i + nn as int)[k as int] == hay@[i + k]);
            }
            return false;
        }
        k = k + 1;
    }
    proof {
        assert(hay@.subrange(i as int, i + nn as int) =~= needle@);
    }
    true
}

/// Substring search.
pub fn contains(hay: &str, needle: &str) -> (r: bool)
    ensures
        r == contains_seq(hay@, needle@),
{
    let nh = hay.unicode_len();
    let nn = needle.unicode_len();
    if nn > nh {
        return false;
    }
    let limit = nh - nn;
    let mut i: usize = 0;
    loop
        invariant
            nh == hay@.len(),
            nn == needle@.len(),
            nn <= nh,
            limit == nh - nn,
            0 <= i <= limit,
            forall|t: int|
                0 <= t < i ==> #[trigger] hay@.subrange(t, t + nn as int) != needle@,
        decreases limit - i,
    {
        if match_at(hay, needle, i) {
            return true;
        }
        if i == limit {
            assert(forall|t: int|
                0 <= t <= limit ==> #[trigger] hay@.subrange(t, t + nn as int) != needle@);
            return false;
        }
        i = i + 1;
    }
}

} // verus!
