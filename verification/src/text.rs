//! Verified text utilities: equality, search, substitution, splitting,
//! trimming and decimal conversion over `&str` / `String` values, each
//! specified against the `Seq<char>` view.
use vstd::prelude::*;

verus! {

/// The pattern `pat` occurs in `s` at position `i`.
pub open spec fn match_at(s: Seq<char>, pat: Seq<char>, i: int) -> bool {
    0 <= i && i + pat.len() <= s.len() && s.subrange(i, i + pat.len()) == pat
}

/// Some occurrence of `pat` exists in `s`.
pub open spec fn contains_spec(s: Seq<char>, pat: Seq<char>) -> bool {
    exists|i: int| match_at(s, pat, i)
}

/// Result of replacing every occurrence of `pat` in `s` by `repl`,
/// scanning left to right without overlap.  An empty pattern leaves `s`
/// unchanged (callers only use non-empty patterns).
pub open spec fn replace_spec(s: Seq<char>, pat: Seq<char>, repl: Seq<char>) -> Seq<char>
    decreases s.len(),
{
    if pat.len() == 0 {
        s
    } else if s.len() < pat.len() {
        s
    } else if s.subrange(0, pat.len() as int) == pat {
        repl + replace_spec(s.skip(pat.len() as int), pat, repl)
    } else {
        seq![s[0]] + replace_spec(s.skip(1), pat, repl)
    }
}

/// Executable string equality, fully specified.
pub fn str_eq(a: &str, b: &str) -> (r: bool)
    ensures
        r == (a@ == b@),
{
    let n = a.unicode_len();
    if n != b.unicode_len() {
        return false;
    }
    let mut i: usize = 0;
    while i < n
        invariant
            n == a@.len(),
            n == b@.len(),
            i <= n,
            forall|j: int| 0 <= j < i ==> a@[j] == b@[j],
        decreases n - i,
    {
        if a.get_char(i) != b.get_char(i) {
            return false;
        }
        i += 1;
    }
    proof {
        assert(a@ =~= b@);
    }
    true
}

/// `pat` occurs in `s` at the given position.
pub fn starts_with_at(s: &str, pat: &str, i: usize) -> (r: bool)
    requires
        i + pat@.len() <= s@.len(),
    ensures
        r == match_at(s@, pat@, i as int),
{
    let n = s.unicode_len();
    let m = pat.unicode_len();
    let mut j: usize = 0;
    while j < m
        invariant
            n == s@.len(),
            m == pat@.len(),
            i + m <= s@.len(),
            j <= m,
            forall|k: int| 0 <= k < j ==> s@[i + k] == pat@[k],
        decreases m - j,
    {
        if s.get_char(i + j) != pat.get_char(j) {
            proof {
                assert(s@.subrange(i as int, i + pat@.len())[j as int] == s@[i + j]);
            }
            return false;
        }
        j += 1;
    }
    proof {
        assert(s@.subrange(i as int, i + pat@.len()) =~= pat@);
    }
    true
}

/// `s` starts with `pat`.
pub fn starts_with(s: &str, pat: &str) -> (r: bool)
    ensures
        r == (pat@.len() <= s@.len() && s@.subrange(0, pat@.len() as int) == pat@),
{
    let n = s.unicode_len();
    let m = pat.unicode_len();
    if m > n {
        return false;
    }
    starts_with_at(s, pat, 0)
}

/// `s` ends with `pat`.
pub open spec fn ends_with_spec(s: Seq<char>, pat: Seq<char>) -> bool {
    pat.len() <= s.len() && s.subrange(s.len() - pat.len(), s.len() as int) == pat
}

/// `s` ends with `pat`.
pub fn ends_with(s: &str, pat: &str) -> (r: bool)
    ensures
        r == ends_with_spec(s@, pat@),
{
    let n = s.unicode_len();
    let m = pat.unicode_len();
    if m > n {
        return false;
    }
    starts_with_at(s, pat, n - m)
}

/// Position of the first occurrence of `pat` in `s`, if any.
pub fn find_str(s: &str, pat: &str) -> (r: Option<usize>)
    ensures
        match r {
            Some(i) => match_at(s@, pat@, i as int) && forall|j: int|
                0 <= j < i ==> !match_at(s@, pat@, j),
            None => !contains_spec(s@, pat@),
        },
{
    let n = s.unicode_len();
    let m = pat.unicode_len();
    if m == 0 {
        proof {
            assert(s@.subrange(0, 0) =~= pat@);
        }
        return Some(0);
    }
    if m > n {
        proof {
            assert(forall|i: int| !match_at(s@, pat@, i));
        }
        return None;
    }
    let last = n - m;
    let mut i: usize = 0;
    loop
        invariant
            n == s@.len(),
            m == pat@.len(),
            0 < m <= n,
            last == n - m,
            i <= last + 1,
            forall|j: int| 0 <= j < i ==> !match_at(s@, pat@, j),
        decreases last + 1 - i,
    {
        if i > last {
            proof {
                assert forall|j: int| !match_at(s@, pat@, j) by {
                    if 0 <= j < i {
                    } else {
                        assert(j < 0 || j + pat@.len() > s@.len());
                    }
                }
            }
            return None;
        }
        if starts_with_at(s, pat, i) {
            return Some(i);
        }
        i += 1;
    }
}

/// `pat` occurs somewhere in `s`.
pub fn contains_str(s: &str, pat: &str) -> (r: bool)
    ensures
        r == contains_spec(s@, pat@),
{
    let r = find_str(s, pat);
    match r {
        Some(i) => {
            proof {
                assert(match_at(s@, pat@, i as int));
            }
            true
        },
        None => false,
    }
}

/// The character `c` occurs in `s`.
pub fn contains_char(s: &str, c: char) -> (r: bool)
    ensures
        r == s@.contains(c),
{
    let n = s.unicode_len();
    let mut i: usize = 0;
    while i < n
        invariant
            n == s@.len(),
            i <= n,
            forall|j: int| 0 <= j < i ==> s@[j] != c,
        decreases n - i,
    {
        if s.get_char(i) == c {
            return true;
        }
        i += 1;
    }
    false
}

/// Number of occurrences of the character `c` in `s`.
pub open spec fn count_char(s: Seq<char>, c: char) -> nat
    decreases s.len(),
{
    if s.len() == 0 {
        0
    } else {
        (if s[0] == c {
            1nat
        } else {
            0nat
        }) + count_char(s.skip(1), c)
    }
}

proof fn lemma_count_char_push(s: Seq<char>, c: char, d: char)
    ensures
        count_char(s.push(d), c) == count_char(s, c) + (if d == c {
            1nat
        } else {
            0nat
        }),
    decreases s.len(),
{
    assert(s.push(d).len() == s.len() + 1);
    if s.len() == 0 {
        assert(s.push(d).skip(1) =~= Seq::<char>::empty());
        assert(s.push(d)[0] == d);
        assert(count_char(Seq::<char>::empty(), c) == 0);
        assert(count_char(s, c) == 0);
        assert(count_char(s.push(d), c) == (if d == c {
            1nat
        } else {
            0nat
        }) + count_char(s.push(d).skip(1), c));
    } else {
        assert(s.push(d).skip(1) =~= s.skip(1).push(d));
        lemma_count_char_push(s.skip(1), c, d);
        assert(s.push(d)[0] == s[0]);
        assert(count_char(s.push(d), c) == (if s[0] == c {
            1nat
        } else {
            0nat
        }) + count_char(s.push(d).skip(1), c));
        assert(count_char(s, c) == (if s[0] == c {
            1nat
        } else {
            0nat
        }) + count_char(s.skip(1), c));
    }
}

/// A sequence without `c` counts zero occurrences.
pub proof fn lemma_count_char_absent(s: Seq<char>, c: char)
    requires
        forall|i: int| 0 <= i < s.len() ==> s[i] != c,
    ensures
        count_char(s, c) == 0,
    decreases s.len(),
{
    if s.len() > 0 {
        lemma_count_char_absent(s.skip(1), c);
    }
}

/// A single occurrence counts one.
pub proof fn lemma_count_char_single(c: char)
    ensures
        count_char(seq![c], c) == 1,
{
    assert(seq![c].skip(1) =~= Seq::<char>::empty());
    assert(count_char(Seq::<char>::empty(), c) == 0);
}

/// Counting distributes over concatenation.
pub proof fn lemma_count_char_concat(a: Seq<char>, b: Seq<char>, c: char)
    ensures
        count_char(a + b, c) == count_char(a, c) + count_char(b, c),
    decreases a.len(),
{
    if a.len() == 0 {
        assert(a + b =~= b);
    } else {
        assert((a + b)[0] == a[0]);
        assert((a + b).skip(1) =~= a.skip(1) + b);
        lemma_count_char_concat(a.skip(1), b, c);
    }
}

/// A contiguous piece of `s` holds no more occurrences than `s`.
pub proof fn lemma_count_char_subrange_le(s: Seq<char>, x: int, y: int, c: char)
    requires
        0 <= x <= y <= s.len(),
    ensures
        count_char(s.subrange(x, y), c) <= count_char(s, c),
{
    assert(s =~= s.subrange(0, x) + s.subrange(x, y) + s.subrange(y, s.len() as int));
    lemma_count_char_concat(s.subrange(0, x) + s.subrange(x, y), s.subrange(y, s.len() as int), c);
    lemma_count_char_concat(s.subrange(0, x), s.subrange(x, y), c);
}

/// Trimming cannot add occurrences.
pub proof fn lemma_count_char_trim_le(s: Seq<char>, c: char)
    ensures
        count_char(trim_spec(s), c) <= count_char(s, c),
{
    if leading_ws(s) <= s.len() - trailing_ws(s) {
        lemma_leading_trailing_bounds(s);
        lemma_count_char_subrange_le(s, leading_ws(s), s.len() - trailing_ws(s), c);
    } else {
        assert(count_char(Seq::<char>::empty(), c) == 0);
        lemma_count_char_nonneg(s, c);
    }
}

/// Counts are not negative (they are `nat`), stated for convenience.
pub proof fn lemma_count_char_nonneg(s: Seq<char>, c: char)
    ensures
        count_char(s, c) >= 0,
{
}

/// The whitespace counts stay within the length.
pub proof fn lemma_leading_trailing_bounds(s: Seq<char>)
    ensures
        0 <= leading_ws(s) <= s.len(),
        0 <= trailing_ws(s) <= s.len(),
    decreases s.len(),
{
    if s.len() > 0 {
        lemma_leading_trailing_bounds(s.skip(1));
        lemma_leading_trailing_bounds(s.take(s.len() - 1));
    }
}

/// Every part produced by splitting on `pat` holds at least `count(pat)`
/// fewer occurrences of `c` than the whole, provided `pat` occurs at all.
pub proof fn lemma_count_split_le(s: Seq<char>, pat: Seq<char>, c: char, k: int)
    requires
        pat.len() > 0,
        first_match(s, pat) >= 0,
        0 <= k < split_spec(s, pat).len(),
    ensures
        count_char(split_spec(s, pat)[k], c) + count_char(pat, c) <= count_char(s, c),
    decreases s.len(),
{
    lemma_first_match(s, pat);
    let i = first_match(s, pat);
    let rest = s.skip(i + pat.len());
    assert(s =~= s.subrange(0, i) + s.subrange(i, i + pat.len()) + rest);
    lemma_count_char_concat(s.subrange(0, i) + s.subrange(i, i + pat.len()), rest, c);
    lemma_count_char_concat(s.subrange(0, i), s.subrange(i, i + pat.len()), c);
    assert(s.subrange(i, i + pat.len()) == pat);
    if k == 0 {
        assert(split_spec(s, pat)[0] == s.subrange(0, i));
        lemma_count_char_nonneg(rest, c);
    } else {
        assert(split_spec(s, pat)[k] == split_spec(rest, pat)[k - 1]);
        if first_match(rest, pat) >= 0 {
            lemma_count_split_le(rest, pat, c, k - 1);
        } else {
            assert(split_spec(rest, pat) =~= seq![rest]);
            assert(split_spec(s, pat)[k] == rest);
            lemma_count_char_nonneg(s.subrange(0, i), c);
        }
        lemma_count_char_nonneg(s.subrange(0, i), c);
    }
}

/// Count occurrences of `c` in `s`.
pub fn count_char_exec(s: &str, c: char) -> (r: usize)
    ensures
        r == count_char(s@, c),
{
    let n = s.unicode_len();
    let mut i: usize = 0;
    let mut cnt: usize = 0;
    proof {
        assert(s@.subrange(0, 0) =~= Seq::<char>::empty());
    }
    while i < n
        invariant
            n == s@.len(),
            i <= n,
            cnt <= i,
            cnt == count_char(s@.subrange(0, i as int), c),
        decreases n - i,
    {
        let ch = s.get_char(i);
        proof {
            assert(s@.subrange(0, i + 1) =~= s@.subrange(0, i as int).push(s@[i as int]));
            lemma_count_char_push(s@.subrange(0, i as int), c, s@[i as int]);
        }
        if ch == c {
            cnt += 1;
        }
        i += 1;
    }
    proof {
        assert(s@.subrange(0, n as int) =~= s@);
    }
    cnt
}

/// Replace every occurrence of `pat` in `s` by `repl`, left to right.
pub fn replace_all(s: &str, pat: &str, repl: &str) -> (r: String)
    requires
        pat@.len() > 0,
    ensures
        r@ == replace_spec(s@, pat@, repl@),
{
    let n = s.unicode_len();
    let m = pat.unicode_len();
    let mut out = String::new();
    let mut i: usize = 0;
    proof {
        assert(s@.skip(0) =~= s@);
    }
    if m <= n {
        let last = n - m;
        while i <= last
            invariant
                n == s@.len(),
                m == pat@.len(),
                0 < m <= n,
                last == n - m,
                i <= n,
                replace_spec(s@, pat@, repl@) == out@ + replace_spec(
                    s@.skip(i as int),
                    pat@,
                    repl@,
                ),
            decreases n - i,
        {
            let ghost rem = s@.skip(i as int);
            proof {
                assert(rem.len() == n - i >= m);
            }
            if starts_with_at(s, pat, i) {
                proof {
                    assert(rem.subrange(0, m as int) =~= s@.subrange(i as int, i + m));
                    assert(rem.subrange(0, m as int) == pat@);
                    assert(rem.skip(m as int) =~= s@.skip(i + m));
                    assert(replace_spec(rem, pat@, repl@) == repl@ + replace_spec(
                        s@.skip(i + m),
                        pat@,
                        repl@,
                    ));
                }
                out.append(repl);
                i += m;
            } else {
                proof {
                    assert(rem.subrange(0, m as int) =~= s@.subrange(i as int, i + m));
                    assert(rem.subrange(0, m as int) != pat@);
                    assert(rem.skip(1) =~= s@.skip(i + 1));
                    assert(rem[0] == s@[i as int]);
                    assert(replace_spec(rem, pat@, repl@) == seq![s@[i as int]] + replace_spec(
                        s@.skip(i + 1),
                        pat@,
                        repl@,
                    ));
                }
                let piece = s.substring_char(i, i + 1);
                proof {
                    assert(piece@ =~= seq![s@[i as int]]);
                }
                out.append(piece);
                i += 1;
            }
        }
    }
    let tail = s.substring_char(i, n);
    proof {
        assert(tail@ =~= s@.skip(i as int));
        assert(s@.skip(i as int).len() < m || m > n);
        assert(replace_spec(s@.skip(i as int), pat@, repl@) == s@.skip(i as int));
    }
    out.append(tail);
    out
}

/// Whitespace as recognized by trimming.
pub open spec fn is_space(c: char) -> bool {
    c == ' ' || c == '\t' || c == '\n' || c == '\r'
}

/// Number of whitespace characters at the front of `s`.
pub open spec fn leading_ws(s: Seq<char>) -> int
    decreases s.len(),
{
    if s.len() == 0 {
        0
    } else if is_space(s[0]) {
        1 + leading_ws(s.skip(1))
    } else {
        0
    }
}

/// Number of whitespace characters at the back of `s`.
pub open spec fn trailing_ws(s: Seq<char>) -> int
    decreases s.len(),
{
    if s.len() == 0 {
        0
    } else if is_space(s[s.len() - 1]) {
        1 + trailing_ws(s.take(s.len() - 1))
    } else {
        0
    }
}

/// `s` with leading and trailing whitespace removed.
pub open spec fn trim_spec(s: Seq<char>) -> Seq<char> {
    if leading_ws(s) <= s.len() - trailing_ws(s) {
        s.subrange(leading_ws(s), s.len() - trailing_ws(s))
    } else {
        Seq::empty()
    }
}

proof fn lemma_leading_ws_at(s: Seq<char>, a: int)
    requires
        0 <= a <= s.len(),
        forall|j: int| 0 <= j < a ==> is_space(s[j]),
        a < s.len() ==> !is_space(s[a]),
    ensures
        leading_ws(s) == a,
    decreases a,
{
    if a == 0 {
    } else {
        assert(is_space(s[0]));
        lemma_leading_ws_at(s.skip(1), a - 1);
    }
}

proof fn lemma_trailing_ws_at(s: Seq<char>, b: int)
    requires
        0 <= b <= s.len(),
        forall|j: int| b <= j < s.len() ==> is_space(s[j]),
        b > 0 ==> !is_space(s[b - 1]),
    ensures
        trailing_ws(s) == s.len() - b,
    decreases s.len() - b,
{
    if b == s.len() {
        if s.len() == 0 {
        } else {
            assert(!is_space(s[s.len() - 1]));
        }
    } else {
        assert(is_space(s[s.len() - 1]));
        let t = s.take(s.len() - 1);
        assert(forall|j: int| b <= j < t.len() ==> t[j] == s[j]);
        lemma_trailing_ws_at(t, b);
    }
}

/// `s` with surrounding whitespace removed.
pub fn trim(s: &str) -> (r: String)
    ensures
        r@ == trim_spec(s@),
{
    let n = s.unicode_len();
    let mut a: usize = 0;
    while a < n && is_space_exec(s.get_char(a))
        invariant
            n == s@.len(),
            a <= n,
            forall|j: int| 0 <= j < a ==> is_space(s@[j]),
        decreases n - a,
    {
        a += 1;
    }
    let mut b: usize = n;
    while b > a && is_space_exec(s.get_char(b - 1))
        invariant
            n == s@.len(),
            a <= b <= n,
            forall|j: int| b <= j < n ==> is_space(s@[j]),
        decreases b,
    {
        b -= 1;
    }
    proof {
        if a == n {
            lemma_leading_ws_at(s@, a as int);
            lemma_trailing_ws_at(s@, 0);
            assert(trim_spec(s@) =~= s@.subrange(a as int, b as int));
        } else if b == a {
            assert(is_space(s@[a as int]));
            assert(!is_space(s@[a as int]));
        } else {
            assert(!is_space(s@[a as int]));
            lemma_leading_ws_at(s@, a as int);
            assert(!is_space(s@[b - 1]));
            lemma_trailing_ws_at(s@, b as int);
            assert(trim_spec(s@) =~= s@.subrange(a as int, b as int));
        }
    }
    s.substring_char(a, b).to_owned()
}

fn is_space_exec(c: char) -> (r: bool)
    ensures
        r == is_space(c),
{
    c == ' ' || c == '\t' || c == '\n' || c == '\r'
}

/// `s` without its leading run of `c`.
pub open spec fn strip_leading(s: Seq<char>, c: char) -> Seq<char>
    decreases s.len(),
{
    if s.len() > 0 && s[0] == c {
        strip_leading(s.skip(1), c)
    } else {
        s
    }
}

/// `s` without its trailing run of `c`.
pub open spec fn strip_trailing(s: Seq<char>, c: char) -> Seq<char>
    decreases s.len(),
{
    if s.len() > 0 && s[s.len() - 1] == c {
        strip_trailing(s.take(s.len() - 1), c)
    } else {
        s
    }
}

proof fn lemma_strip_leading_at(s: Seq<char>, a: int, c: char)
    requires
        0 <= a <= s.len(),
        forall|j: int| 0 <= j < a ==> s[j] == c,
        a < s.len() ==> s[a] != c,
    ensures
        strip_leading(s, c) == s.skip(a),
    decreases a,
{
    if a == 0 {
        assert(s.skip(0) =~= s);
    } else {
        lemma_strip_leading_at(s.skip(1), a - 1, c);
        assert(s.skip(1).skip(a - 1) =~= s.skip(a));
    }
}

proof fn lemma_strip_trailing_at(s: Seq<char>, b: int, c: char)
    requires
        0 <= b <= s.len(),
        forall|j: int| b <= j < s.len() ==> s[j] == c,
        b > 0 ==> s[b - 1] != c,
    ensures
        strip_trailing(s, c) == s.take(b),
    decreases s.len() - b,
{
    if b == s.len() {
        assert(s.take(b) =~= s);
    } else {
        let t = s.take(s.len() - 1);
        lemma_strip_trailing_at(t, b, c);
        assert(t.take(b) =~= s.take(b));
    }
}

/// Remove the leading run of `c` from `s`.
pub fn strip_leading_exec(s: &str, c: char) -> (r: String)
    ensures
        r@ == strip_leading(s@, c),
{
    let n = s.unicode_len();
    let mut a: usize = 0;
    while a < n && s.get_char(a) == c
        invariant
            n == s@.len(),
            a <= n,
            forall|j: int| 0 <= j < a ==> s@[j] == c,
        decreases n - a,
    {
        a += 1;
    }
    proof {
        lemma_strip_leading_at(s@, a as int, c);
        assert(s@.skip(a as int) =~= s@.subrange(a as int, n as int));
    }
    s.substring_char(a, n).to_owned()
}

/// Remove the trailing run of `c` from `s`.
pub fn strip_trailing_exec(s: &str, c: char) -> (r: String)
    ensures
        r@ == strip_trailing(s@, c),
{
    let n = s.unicode_len();
    let mut b: usize = n;
    while b > 0 && s.get_char(b - 1) == c
        invariant
            n == s@.len(),
            b <= n,
            forall|j: int| b <= j < n ==> s@[j] == c,
        decreases b,
    {
        b -= 1;
    }
    proof {
        lemma_strip_trailing_at(s@, b as int, c);
        assert(s@.take(b as int) =~= s@.subrange(0, b as int));
    }
    s.substring_char(0, b).to_owned()
}

/// Index of the first occurrence of `pat` in `s`, or -1 if none.
pub open spec fn first_match(s: Seq<char>, pat: Seq<char>) -> int
    decreases s.len(),
{
    if pat.len() == 0 {
        0
    } else if s.len() < pat.len() {
        -1
    } else if s.subrange(0, pat.len() as int) == pat {
        0
    } else {
        let r = first_match(s.skip(1), pat);
        if r < 0 {
            -1
        } else {
            1 + r
        }
    }
}

/// What `first_match` means, in terms of `match_at`.
pub proof fn lemma_first_match(s: Seq<char>, pat: Seq<char>)
    requires
        pat.len() > 0,
    ensures
        first_match(s, pat) == -1 <==> !contains_spec(s, pat),
        first_match(s, pat) >= 0 ==> match_at(s, pat, first_match(s, pat)) && (forall|j: int|
            0 <= j < first_match(s, pat) ==> !match_at(s, pat, j)),
    decreases s.len(),
{
    if s.len() < pat.len() {
        assert(forall|i: int| !match_at(s, pat, i));
    } else if s.subrange(0, pat.len() as int) == pat {
        assert(match_at(s, pat, 0));
    } else {
        lemma_first_match(s.skip(1), pat);
        let t = s.skip(1);
        assert forall|i: int| 1 <= i && match_at(s, pat, i) implies match_at(t, pat, i - 1) by {
            assert(t.subrange(i - 1, i - 1 + pat.len()) =~= s.subrange(i, i + pat.len()));
        }
        assert forall|i: int| 0 <= i && match_at(t, pat, i) implies match_at(s, pat, i + 1) by {
            assert(t.subrange(i, i + pat.len()) =~= s.subrange(i + 1, i + 1 + pat.len()));
        }
        assert(!match_at(s, pat, 0));
        let r = first_match(t, pat);
        if r < 0 {
            assert forall|i: int| !match_at(s, pat, i) by {
                if i >= 1 && match_at(s, pat, i) {
                    assert(match_at(t, pat, i - 1));
                }
            }
        } else {
            assert(match_at(s, pat, r + 1));
            assert forall|j: int| 0 <= j < r + 1 implies !match_at(s, pat, j) by {
                if j >= 1 && match_at(s, pat, j) {
                    assert(match_at(t, pat, j - 1));
                }
            }
        }
    }
}

/// Split `s` at the first occurrence of `pat`: the part before and the part
/// after, or `None` when `pat` does not occur.
pub fn split_once_str(s: &str, pat: &str) -> (r: Option<(String, String)>)
    requires
        pat@.len() > 0,
    ensures
        match r {
            Some(p) => {
                let i = first_match(s@, pat@);
                i >= 0 && p.0@ == s@.subrange(0, i) && p.1@ == s@.skip(i + pat@.len())
            },
            None => first_match(s@, pat@) == -1,
        },
{
    proof {
        lemma_first_match(s@, pat@);
    }
    let n = s.unicode_len();
    let m = pat.unicode_len();
    match find_str(s, pat) {
        Some(i) => {
            let ghost fm = first_match(s@, pat@);
            proof {
                assert(match_at(s@, pat@, fm));
                if fm < i {
                    assert(!match_at(s@, pat@, fm));
                }
                if i < fm {
                    assert(!match_at(s@, pat@, i as int));
                }
                assert(fm == i as int);
            }
            let before = s.substring_char(0, i).to_owned();
            let after = s.substring_char(i + m, n).to_owned();
            Some((before, after))
        },
        None => None,
    }
}

/// `s` split at every occurrence of `pat`, left to right.
pub open spec fn split_spec(s: Seq<char>, pat: Seq<char>) -> Seq<Seq<char>>
    decreases s.len(),
{
    if pat.len() == 0 {
        seq![s]
    } else {
        let i = first_match(s, pat);
        if i < 0 || i + pat.len() > s.len() {
            seq![s]
        } else {
            seq![s.subrange(0, i)] + split_spec(s.skip(i + pat.len()), pat)
        }
    }
}

/// Split `s` at every occurrence of `pat`.
pub fn split_all(s: &str, pat: &str) -> (r: Vec<String>)
    requires
        pat@.len() > 0,
    ensures
        r.deep_view() == split_spec(s@, pat@),
        r.len() > 0,
{
    let mut parts: Vec<String> = Vec::new();
    let mut cur = s.to_owned();
    let ghost whole = s@;
    proof {
        assert(parts.deep_view() =~= Seq::<Seq<char>>::empty());
    }
    loop
        invariant
            pat@.len() > 0,
            whole == s@,
            split_spec(whole, pat@) == parts.deep_view() + split_spec(cur@, pat@),
        decreases cur@.len() + 1,
    {
        let ghost before = parts.deep_view();
        proof {
            lemma_first_match(cur@, pat@);
        }
        match split_once_str(cur.as_str(), pat) {
            Some(p) => {
                let ghost i = first_match(cur@, pat@);
                proof {
                    assert(match_at(cur@, pat@, i));
                    assert(split_spec(cur@, pat@) == seq![cur@.subrange(0, i)] + split_spec(
                        cur@.skip(i + pat@.len()),
                        pat@,
                    ));
                }
                let (a, b) = p;
                parts.push(a);
                proof {
                    assert(parts.deep_view() =~= before + seq![cur@.subrange(0, i)]);
                    assert(parts.deep_view() + split_spec(b@, pat@) =~= before + (seq![
                        cur@.subrange(0, i),
                    ] + split_spec(b@, pat@)));
                }
                cur = b;
            },
            None => {
                let ghost cv = cur@;
                parts.push(cur);
                proof {
                    assert(split_spec(cv, pat@) == seq![cv]);
                    assert(parts.deep_view() =~~= before + seq![cv]);
                    assert(parts.deep_view() == before + seq![cv]);
                    assert(split_spec(whole, pat@) == before + seq![cv]);
                    assert(parts.deep_view() == split_spec(whole, pat@));
                    assert(parts.len() > 0);
                }
                return parts;
            },
        }
    }
}

/// The parts joined with `sep` between consecutive parts.
pub open spec fn join_spec(parts: Seq<Seq<char>>, sep: Seq<char>) -> Seq<char>
    decreases parts.len(),
{
    if parts.len() == 0 {
        Seq::empty()
    } else if parts.len() == 1 {
        parts[0]
    } else {
        parts[0] + sep + join_spec(parts.skip(1), sep)
    }
}

/// Join the parts with `sep` between consecutive parts.
pub fn join_strings(parts: &Vec<String>, sep: &str) -> (r: String)
    ensures
        r@ == join_spec(parts.deep_view(), sep@),
{
    let mut out = String::new();
    let n = parts.len();
    if n == 0 {
        return out;
    }
    let mut i: usize = 0;
    while i < n
        invariant
            n == parts.len(),
            i <= n,
            i == 0 ==> out@ == Seq::<char>::empty(),
            i > 0 ==> join_spec(parts.deep_view(), sep@) == out@ + (if i < n {
                sep@ + join_spec(parts.deep_view().skip(i as int), sep@)
            } else {
                Seq::<char>::empty()
            }),
        decreases n - i,
    {
        let ghost dv = parts.deep_view();
        proof {
            assert(dv.len() == n);
            assert(dv.skip(i as int)[0] == dv[i as int]);
            assert(parts[i as int]@ == dv[i as int]);
        }
        if i > 0 {
            out.append(sep);
        }
        out.append(parts[i].as_str());
        proof {
            if i == 0 {
                assert(dv.skip(0) =~= dv);
                if n == 1 {
                    assert(join_spec(dv, sep@) == dv[0]);
                } else {
                    assert(join_spec(dv, sep@) == dv[0] + sep@ + join_spec(dv.skip(1), sep@));
                    assert(dv.skip(0).skip(1) =~= dv.skip(1));
                }
            } else {
                let rest = dv.skip(i as int);
                if i + 1 < n {
                    assert(rest.len() > 1);
                    assert(join_spec(rest, sep@) == rest[0] + sep@ + join_spec(
                        rest.skip(1),
                        sep@,
                    ));
                    assert(rest.skip(1) =~= dv.skip(i + 1));
                } else {
                    assert(rest.len() == 1);
                    assert(join_spec(rest, sep@) == rest[0]);
                }
            }
        }
        i += 1;
    }
    out
}

/// `c` is an ASCII decimal digit.
pub open spec fn is_digit(c: char) -> bool {
    48 <= c as u32 <= 57
}

/// Numeric value of a digit character.
pub open spec fn digit_val(c: char) -> int {
    c as u32 - 48
}

/// The digit character for a value in 0..10.
pub open spec fn digit_char(d: int) -> char {
    if d == 0 {
        '0'
    } else if d == 1 {
        '1'
    } else if d == 2 {
        '2'
    } else if d == 3 {
        '3'
    } else if d == 4 {
        '4'
    } else if d == 5 {
        '5'
    } else if d == 6 {
        '6'
    } else if d == 7 {
        '7'
    } else if d == 8 {
        '8'
    } else {
        '9'
    }
}

/// Every character of `s` is a decimal digit.
pub open spec fn all_digits(s: Seq<char>) -> bool {
    forall|i: int| 0 <= i < s.len() ==> is_digit(s[i])
}

/// Value of `s` read as a decimal numeral.
pub open spec fn dec_value(s: Seq<char>) -> int
    decreases s.len(),
{
    if s.len() == 0 {
        0
    } else {
        dec_value(s.take(s.len() - 1)) * 10 + digit_val(s[s.len() - 1])
    }
}

/// Decimal numeral for a non-negative value, without leading zeros.
pub open spec fn dec_str(n: int) -> Seq<char>
    decreases n,
{
    if n <= 0 {
        seq!['0']
    } else if n < 10 {
        seq![digit_char(n)]
    } else {
        dec_str(n / 10) + seq![digit_char(n % 10)]
    }
}

proof fn lemma_dec_value_mono(s: Seq<char>, i: int)
    requires
        0 <= i <= s.len(),
        all_digits(s),
    ensures
        dec_value(s.take(i)) <= dec_value(s),
        dec_value(s) >= 0,
    decreases s.len() - i,
{
    if i == s.len() {
        assert(s.take(i) =~= s);
        lemma_dec_value_nonneg(s);
    } else {
        lemma_dec_value_mono(s, i + 1);
        let t = s.take(i + 1);
        assert(t.take(i) =~= s.take(i));
        assert(all_digits(t));
        assert(dec_value(t) == dec_value(s.take(i)) * 10 + digit_val(s[i]));
        lemma_dec_value_nonneg(s.take(i));
    }
}

proof fn lemma_dec_value_nonneg(s: Seq<char>)
    requires
        all_digits(s),
    ensures
        dec_value(s) >= 0,
    decreases s.len(),
{
    if s.len() > 0 {
        assert(all_digits(s.take(s.len() - 1)));
        lemma_dec_value_nonneg(s.take(s.len() - 1));
    }
}

/// Parse a non-empty all-digit string as a `u64`; `None` when a character is
/// not a digit, the string is empty, or the value does not fit.
pub fn parse_u64(s: &str) -> (r: Option<u64>)
    ensures
        match r {
            Some(v) => s@.len() > 0 && all_digits(s@) && v == dec_value(s@),
            None => s@.len() == 0 || !all_digits(s@) || dec_value(s@) > u64::MAX,
        },
{
    let n = s.unicode_len();
    if n == 0 {
        return None;
    }
    let mut v: u64 = 0;
    let mut i: usize = 0;
    proof {
        assert(s@.take(0) =~= Seq::<char>::empty());
    }
    while i < n
        invariant
            n == s@.len(),
            0 < n,
            i <= n,
            all_digits(s@.take(i as int)),
            v == dec_value(s@.take(i as int)),
        decreases n - i,
    {
        let c = s.get_char(i);
        let u = c as u32;
        if u < 48 || u > 57 {
            proof {
                assert(!is_digit(s@[i as int]));
            }
            return None;
        }
        let d = (u - 48) as u64;
        proof {
            assert(s@.take(i + 1).take(i as int) =~= s@.take(i as int));
            assert(s@.take(i + 1)[i as int] == s@[i as int]);
            assert(dec_value(s@.take(i + 1)) == dec_value(s@.take(i as int)) * 10 + digit_val(
                s@[i as int],
            ));
        }
        if v > (u64::MAX - d) / 10 {
            proof {
                assert(dec_value(s@.take(i + 1)) > u64::MAX);
                if all_digits(s@) {
                    lemma_dec_value_mono(s@, i + 1);
                    lemma_dec_value_step_ge(s@, i + 1);
                }
            }
            return None;
        }
        v = v * 10 + d;
        i += 1;
    }
    proof {
        assert(s@.take(n as int) =~= s@);
    }
    Some(v)
}

proof fn lemma_dec_value_step_ge(s: Seq<char>, i: int)
    requires
        0 <= i <= s.len(),
        all_digits(s),
    ensures
        dec_value(s) >= dec_value(s.take(i)),
    decreases s.len() - i,
{
    lemma_dec_value_mono(s, i);
}

spec fn rev_digits(ds: Seq<u64>) -> Seq<char> {
    Seq::new(ds.len(), |i: int| digit_char(ds[ds.len() - 1 - i] as int))
}

proof fn lemma_digit_lit()
    ensures
        "0123456789"@.len() == 10,
        forall|d: int| 0 <= d < 10 ==> "0123456789"@[d] == digit_char(d),
{
    reveal_strlit("0123456789");
    assert forall|d: int| 0 <= d < 10 implies "0123456789"@[d] == digit_char(d) by {
        if d == 0 {
        } else if d == 1 {
        } else if d == 2 {
        } else if d == 3 {
        } else if d == 4 {
        } else if d == 5 {
        } else if d == 6 {
        } else if d == 7 {
        } else if d == 8 {
        } else {
        }
    }
}

/// Render a `u64` as its decimal numeral.
pub fn u64_to_string(x: u64) -> (r: String)
    ensures
        r@ == dec_str(x as int),
{
    let digits = "0123456789";
    proof {
        lemma_digit_lit();
    }
    let mut rev: Vec<u64> = Vec::new();
    let mut m: u64 = x;
    while m >= 10
        invariant
            dec_str(x as int) == dec_str(m as int) + rev_digits(rev@),
            forall|j: int| 0 <= j < rev@.len() ==> rev@[j] < 10,
        decreases m,
    {
        let d = m % 10;
        let ghost old_rev = rev@;
        let ghost old_m = m as int;
        rev.push(d);
        m = m / 10;
        proof {
            assert(dec_str(old_m) == dec_str(old_m / 10) + seq![digit_char(old_m % 10)]);
            assert(rev_digits(rev@) =~= seq![digit_char(d as int)] + rev_digits(old_rev));
            assert(dec_str(m as int) + rev_digits(rev@) =~= (dec_str(old_m / 10) + seq![
                digit_char(old_m % 10),
            ]) + rev_digits(old_rev));
        }
    }
    let mut out = digits.substring_char(m as usize, m as usize + 1).to_owned();
    proof {
        assert(out@ =~= seq![digit_char(m as int)]);
        assert(dec_str(m as int) == seq![digit_char(m as int)]);
    }
    let mut j: usize = rev.len();
    while j > 0
        invariant
            j <= rev.len(),
            digits@.len() == 10,
            forall|t: int| 0 <= t < 10 ==> digits@[t] == digit_char(t),
            forall|k: int| 0 <= k < rev@.len() ==> rev@[k] < 10,
            dec_str(x as int) == dec_str(m as int) + rev_digits(rev@),
            dec_str(m as int) == seq![digit_char(m as int)],
            out@ =~= seq![digit_char(m as int)] + rev_digits(rev@).take(rev@.len() - j),
        decreases j,
    {
        let d = rev[j - 1];
        let piece = digits.substring_char(d as usize, d as usize + 1);
        proof {
            assert(piece@ =~= seq![digit_char(d as int)]);
            assert(rev_digits(rev@)[rev@.len() - j] == digit_char(d as int));
            assert(rev_digits(rev@).take(rev@.len() - (j - 1)) =~= rev_digits(rev@).take(
                rev@.len() - j,
            ).push(digit_char(d as int)));
        }
        out.append(piece);
        j -= 1;
    }
    proof {
        assert(rev_digits(rev@).take(rev@.len() as int) =~= rev_digits(rev@));
        assert(out@ =~= dec_str(x as int));
    }
    out
}

} // verus!

use vstd::string::StrSliceExecFns;
use vstd::string::StringExecFns;
