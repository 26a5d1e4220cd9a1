//! Verified text utilities used by the parser and the detector: substring
//! search with first-match semantics, whitespace trimming, and the
//! brace-balance scan that the state extractor's fallback uses.

use vstd::prelude::*;

verus! {

/// Whether the pattern `p` occurs in `s` starting at position `i`.
pub open spec fn match_at(s: Seq<char>, p: Seq<char>, i: int) -> bool {
    0 <= i && i + p.len() <= s.len() && s.subrange(i, i + p.len()) == p
}

/// Whether the pattern `p` occurs anywhere in `s`.
pub open spec fn has_match(s: Seq<char>, p: Seq<char>) -> bool {
    exists|i: int| match_at(s, p, i)
}

/// The first position at or after `from` where `p` occurs in `s`, if any.
pub open spec fn find_at(s: Seq<char>, p: Seq<char>, from: int) -> Option<int>
    decreases s.len() - from + 1,
{
    if from < 0 || from + p.len() > s.len() {
        None
    } else if s.subrange(from, from + p.len()) == p {
        Some(from)
    } else {
        find_at(s, p, from + 1)
    }
}

/// What a `Some` answer of `find_at` means: a match at the answer, none
/// earlier (at or after `from`).
pub proof fn lemma_find_at_some(s: Seq<char>, p: Seq<char>, from: int, i: int)
    requires
        find_at(s, p, from) == Some(i),
    ensures
        from <= i,
        match_at(s, p, i),
        forall|k: int| from <= k < i ==> !match_at(s, p, k),
    decreases s.len() - from + 1,
{
    if !(from < 0 || from + p.len() > s.len()) && s.subrange(from, from + p.len()) != p {
        lemma_find_at_some(s, p, from + 1, i);
    }
}

/// What a `None` answer of `find_at` means: no match at or after `from`.
pub proof fn lemma_find_at_none(s: Seq<char>, p: Seq<char>, from: int)
    requires
        from >= 0,
        find_at(s, p, from) is None,
    ensures
        forall|k: int| k >= from ==> !match_at(s, p, k),
    decreases s.len() - from + 1,
{
    if from + p.len() <= s.len() {
        lemma_find_at_none(s, p, from + 1);
    }
}

/// Test two text slices for equality of their character sequences.
pub fn str_eq(a: &str, b: &str) -> (r: bool)
    ensures
        r == (a@ == b@),
{
    let sa: String = a.to_owned();
    sa.eq(&b.to_owned())
}

/// Find the first occurrence of `p` in `s` at or after position `from`.
pub fn find_sub_from(s: &str, p: &str, from: usize) -> (r: Option<usize>)
    ensures
        match r {
            Some(i) => find_at(s@, p@, from as int) == Some(i as int),
            None => find_at(s@, p@, from as int) is None,
        },
{
    let n = s.unicode_len();
    let m = p.unicode_len();
    if from > n || m > n - from {
        proof {
            assert(find_at(s@, p@, from as int) is None);
        }
        return None;
    }
    if m == 0 {
        proof {
            assert(s@.subrange(from as int, from as int) =~= p@);
        }
        return Some(from);
    }
    let mut i: usize = from;
    while i <= n - m
        invariant
            from <= i <= n - m + 1,
            1 <= m <= n,
            n == s@.len(),
            m == p@.len(),
            find_at(s@, p@, from as int) == find_at(s@, p@, i as int),
        decreases n - i,
    {
        let mut j: usize = 0;
        let mut matched = true;
        while j < m
            invariant
                0 <= j <= m,
                i <= n - m,
                n == s@.len(),
                m == p@.len(),
                matched ==> forall|k: int| 0 <= k < j ==> s@[i + k] == p@[k],
                !matched ==> !match_at(s@, p@, i as int),
            decreases m - j,
        {
            if s.get_char(i + j) != p.get_char(j) {
                proof {
                    assert(s@.subrange(i as int, i + m) != p@) by {
                        assert(s@.subrange(i as int, i + m)[j as int] == s@[i + j]);
                    }
                }
                matched = false;
                j = m;
            } else {
                j += 1;
            }
        }
        if matched {
            proof {
                assert(s@.subrange(i as int, i + m) =~= p@);
            }
            return Some(i);
        }
        proof {
            assert(find_at(s@, p@, i as int) == find_at(s@, p@, i + 1));
        }
        i += 1;
    }
    proof {
        assert(find_at(s@, p@, i as int) is None);
    }
    None
}

/// Find the first occurrence of `p` in `s`, as a character position.
pub fn find_sub(s: &str, p: &str) -> (r: Option<usize>)
    ensures
        match r {
            Some(i) => find_at(s@, p@, 0) == Some(i as int),
            None => find_at(s@, p@, 0) is None,
        },
{
    find_sub_from(s, p, 0)
}

/// Whether `p` occurs anywhere in `s`.
pub fn contains_sub(s: &str, p: &str) -> (r: bool)
    ensures
        r == has_match(s@, p@),
{
    match find_sub(s, p) {
        Some(i) => {
            proof {
                lemma_find_at_some(s@, p@, 0, i as int);
            }
            true
        },
        None => {
            proof {
                lemma_find_at_none(s@, p@, 0);
                assert(forall|k: int| !match_at(s@, p@, k));
            }
            false
        },
    }
}

/// The Unicode whitespace characters, as `str::trim` understands them.
pub open spec fn is_space(c: char) -> bool {
    c == ' ' || c == '\u{9}' || c == '\u{A}' || c == '\u{B}' || c == '\u{C}' || c == '\u{D}'
        || c == '\u{85}' || c == '\u{A0}' || c == '\u{1680}' || ('\u{2000}' <= c && c
        <= '\u{200A}') || c == '\u{2028}' || c == '\u{2029}' || c == '\u{202F}' || c == '\u{205F}'
        || c == '\u{3000}'
}

/// `s` with leading whitespace removed.
pub open spec fn trim_front(s: Seq<char>) -> Seq<char>
    decreases s.len(),
{
    if s.len() > 0 && is_space(s.first()) {
        trim_front(s.drop_first())
    } else {
        s
    }
}

/// `s` with trailing whitespace removed.
pub open spec fn trim_back(s: Seq<char>) -> Seq<char>
    decreases s.len(),
{
    if s.len() > 0 && is_space(s.last()) {
        trim_back(s.drop_last())
    } else {
        s
    }
}

/// `s` with leading and trailing whitespace removed.
pub open spec fn trimmed(s: Seq<char>) -> Seq<char> {
    trim_back(trim_front(s))
}

proof fn lemma_trim_front_at(s: Seq<char>, a: int)
    requires
        0 <= a <= s.len(),
        forall|k: int| 0 <= k < a ==> is_space(s[k]),
        a == s.len() || !is_space(s[a]),
    ensures
        trim_front(s) == s.subrange(a, s.len() as int),
    decreases a,
{
    if a == 0 {
        assert(s.subrange(0, s.len() as int) =~= s);
    } else {
        assert(is_space(s.first()));
        lemma_trim_front_at(s.drop_first(), a - 1);
        assert(s.drop_first().subrange(a - 1, s.drop_first().len() as int) =~= s.subrange(
            a,
            s.len() as int,
        ));
    }
}

proof fn lemma_trim_back_at(t: Seq<char>, m: int)
    requires
        0 <= m <= t.len(),
        forall|k: int| m <= k < t.len() ==> is_space(t[k]),
        m == 0 || !is_space(t[m - 1]),
    ensures
        trim_back(t) == t.subrange(0, m),
    decreases t.len(),
{
    if m == t.len() {
        assert(t.subrange(0, m) =~= t);
    } else {
        assert(is_space(t.last()));
        lemma_trim_back_at(t.drop_last(), m);
        assert(t.drop_last().subrange(0, m) =~= t.subrange(0, m));
    }
}

/// Whether `c` is whitespace.
pub fn is_space_char(c: char) -> (r: bool)
    ensures
        r == is_space(c),
{
    c == ' ' || c == '\u{9}' || c == '\u{A}' || c == '\u{B}' || c == '\u{C}' || c == '\u{D}'
        || c == '\u{85}' || c == '\u{A0}' || c == '\u{1680}' || ('\u{2000}' <= c && c
        <= '\u{200A}') || c == '\u{2028}' || c == '\u{2029}' || c == '\u{202F}' || c == '\u{205F}'
        || c == '\u{3000}'
}

/// Remove leading and trailing whitespace.
pub fn trim_str<'a>(s: &'a str) -> (r: &'a str)
    ensures
        r@ == trimmed(s@),
{
    let n = s.unicode_len();
    let mut a: usize = 0;
    while a < n && is_space_char(s.get_char(a))
        invariant
            0 <= a <= n,
            n == s@.len(),
            forall|k: int| 0 <= k < a ==> is_space(s@[k]),
        decreases n - a,
    {
        a += 1;
    }
    proof {
        lemma_trim_front_at(s@, a as int);
    }
    let mut b: usize = n;
    while b > a && is_space_char(s.get_char(b - 1))
        invariant
            a <= b <= n,
            n == s@.len(),
            forall|k: int| b <= k < n ==> is_space(s@[k]),
        decreases b,
    {
        b -= 1;
    }
    proof {
        let t = s@.subrange(a as int, n as int);
        lemma_trim_back_at(t, b - a);
        assert(t.subrange(0, b - a) =~= s@.subrange(a as int, b as int));
    }
    s.substring_char(a, b)
}

/// One character with an ASCII capital letter lowered.
pub open spec fn lower_char(c: char) -> char {
    if 'A' <= c && c <= 'Z' {
        ((c as u8) + 32) as char
    } else {
        c
    }
}

/// A text with its ASCII capital letters lowered.
pub open spec fn ascii_lower_of(s: Seq<char>) -> Seq<char> {
    s.map_values(|c: char| lower_char(c))
}

/// Whether `s`, with ASCII capitals lowered, equals `t`.
pub fn str_eq_lower(s: &str, t: &str) -> (r: bool)
    ensures
        r == (ascii_lower_of(s@) == t@),
{
    let n = s.unicode_len();
    let m = t.unicode_len();
    if n != m {
        return false;
    }
    let mut i: usize = 0;
    while i < n
        invariant
            0 <= i <= n,
            n == s@.len(),
            n == t@.len(),
            forall|k: int| 0 <= k < i ==> ascii_lower_of(s@)[k] == t@[k],
        decreases n - i,
    {
        let c = s.get_char(i);
        let lc = if c >= 'A' && c <= 'Z' {
            ((c as u8) + 32) as char
        } else {
            c
        };
        if lc != t.get_char(i) {
            proof {
                assert(ascii_lower_of(s@)[i as int] == lower_char(s@[i as int]));
                assert(ascii_lower_of(s@)[i as int] != t@[i as int]);
            }
            return false;
        }
        i += 1;
    }
    proof {
        assert(ascii_lower_of(s@) =~= t@);
    }
    true
}

/// The running brace balance contribution of one character.
pub open spec fn brace_delta(c: char) -> int {
    if c == '{' {
        1
    } else if c == '}' {
        -1
    } else {
        0
    }
}

/// The number of `{` minus the number of `}` in `s`.
pub open spec fn balance(s: Seq<char>) -> int
    decreases s.len(),
{
    if s.len() == 0 {
        0
    } else {
        balance(s.drop_last()) + brace_delta(s.last())
    }
}

pub proof fn lemma_balance_snoc(s: Seq<char>, i: int, j: int)
    requires
        0 <= i <= j < s.len(),
    ensures
        balance(s.subrange(i, j + 1)) == balance(s.subrange(i, j)) + brace_delta(s[j]),
{
    let t = s.subrange(i, j + 1);
    assert(t.drop_last() =~= s.subrange(i, j));
    assert(t.last() == s[j]);
}

/// Scan forward from an opening brace to the position where the brace count
/// first returns to zero. `Some(end)` is the least cut past `start` at which
/// the braces of `s[start..end]` balance; `None` means no prefix balances.
pub fn balanced_end(s: &str, start: usize) -> (r: Option<usize>)
    requires
        start < s@.len(),
        s@[start as int] == '{',
    ensures
        match r {
            Some(end) => {
                &&& start < end <= s@.len()
                &&& balance(s@.subrange(start as int, end as int)) == 0
                &&& forall|j: int|
                    start < j < end ==> balance(s@.subrange(start as int, j)) != 0
            },
            None => forall|j: int|
                start < j <= s@.len() ==> balance(s@.subrange(start as int, j)) != 0,
        },
{
    let n = s.unicode_len();
    let mut depth: usize = 1;
    let mut i: usize = start + 1;
    proof {
        lemma_balance_snoc(s@, start as int, start as int);
        assert(s@.subrange(start as int, start as int) =~= Seq::empty());
    }
    while i < n
        invariant
            start < i <= n,
            n == s@.len(),
            1 <= depth <= i - start,
            depth == balance(s@.subrange(start as int, i as int)),
            forall|j: int| start < j <= i ==> balance(s@.subrange(start as int, j)) != 0,
        decreases n - i,
    {
        let c = s.get_char(i);
        proof {
            lemma_balance_snoc(s@, start as int, i as int);
        }
        if c == '{' {
            depth += 1;
        } else if c == '}' {
            depth -= 1;
            if depth == 0 {
                return Some(i + 1);
            }
        }
        i += 1;
    }
    None
}

} // verus!
