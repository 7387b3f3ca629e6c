//! Verified character-sequence scanning: whitespace trimming, substring
//! search, and prefix stripping, used to interpret checker responses.

use vstd::prelude::*;

verus! {

/// Whether `c` has Unicode's White_Space property, the set of characters
/// removed when a response body is trimmed.
pub open spec fn is_space(c: char) -> bool {
    ||| c == ' '
    ||| c == '\t'
    ||| c == '\n'
    ||| c == '\r'
    ||| c as int == 0x0b
    ||| c as int == 0x0c
    ||| c as int == 0x85
    ||| c as int == 0xa0
    ||| c as int == 0x1680
    ||| (0x2000 <= c as int && c as int <= 0x200a)
    ||| c as int == 0x2028
    ||| c as int == 0x2029
    ||| c as int == 0x202f
    ||| c as int == 0x205f
    ||| c as int == 0x3000
}

/// Runtime test for [`is_space`].
pub fn is_space_char(c: char) -> (b: bool)
    ensures
        b == is_space(c),
{
    let n = c as u32;
    n == 0x20 || n == 0x09 || n == 0x0a || n == 0x0d || n == 0x0b || n == 0x0c || n == 0x85
        || n == 0xa0 || n == 0x1680 || (0x2000 <= n && n <= 0x200a) || n == 0x2028 || n == 0x2029
        || n == 0x202f || n == 0x205f || n == 0x3000
}

/// `s` with its leading whitespace removed.
pub open spec fn trim_start_spec(s: Seq<char>) -> Seq<char>
    decreases s.len(),
{
    if s.len() > 0 && is_space(s[0]) {
        trim_start_spec(s.drop_first())
    } else {
        s
    }
}

/// `s` with its trailing whitespace removed.
pub open spec fn trim_end_spec(s: Seq<char>) -> Seq<char>
    decreases s.len(),
{
    if s.len() > 0 && is_space(s.last()) {
        trim_end_spec(s.drop_last())
    } else {
        s
    }
}

/// `s` with both leading and trailing whitespace removed.
pub open spec fn trim_spec(s: Seq<char>) -> Seq<char> {
    trim_end_spec(trim_start_spec(s))
}

proof fn lemma_trim_start_range(s: Seq<char>, i: int)
    requires
        0 <= i <= s.len(),
        forall|j: int| 0 <= j < i ==> is_space(s[j]),
        i == s.len() || !is_space(s[i]),
    ensures
        trim_start_spec(s) == s.subrange(i, s.len() as int),
    decreases i,
{
    if i == 0 {
        assert(s.subrange(0, s.len() as int) =~= s);
    } else {
        let t = s.drop_first();
        assert(forall|j: int| 0 <= j < i - 1 ==> is_space(t[j]));
        lemma_trim_start_range(t, i - 1);
        assert(t.subrange(i - 1, t.len() as int) =~= s.subrange(i, s.len() as int));
    }
}

proof fn lemma_trim_end_range(s: Seq<char>, j: int)
    requires
        0 <= j <= s.len(),
        forall|k: int| j <= k < s.len() ==> is_space(s[k]),
        j == 0 || !is_space(s[j - 1]),
    ensures
        trim_end_spec(s) == s.subrange(0, j),
    decreases s.len() - j,
{
    if j == s.len() {
        assert(s.subrange(0, j) =~= s);
    } else {
        let t = s.drop_last();
        assert(forall|k: int| j <= k < t.len() ==> is_space(t[k]));
        lemma_trim_end_range(t, j);
        assert(t.subrange(0, j) =~= s.subrange(0, j));
    }
}

/// Removes leading and trailing whitespace from `s`.
pub fn trim<'a>(s: &'a str) -> (r: &'a str)
    ensures
        r@ == trim_spec(s@),
{
    let n = s.unicode_len();
    let mut i: usize = 0;
    loop
        invariant
            i <= n,
            n == s@.len(),
            forall|j: int| 0 <= j < i ==> is_space(s@[j]),
        ensures
            i <= n,
            forall|j: int| 0 <= j < i ==> is_space(s@[j]),
            i == n || !is_space(s@[i as int]),
        decreases n - i,
    {
        if i == n {
            break ;
        }
        if !is_space_char(s.get_char(i)) {
            break ;
        }
        i += 1;
    }
    let mut j: usize = n;
    loop
        invariant
            i <= j <= n,
            n == s@.len(),
            i == n || !is_space(s@[i as int]),
            forall|k: int| j <= k < n ==> is_space(s@[k]),
        ensures
            i <= j <= n,
            forall|k: int| j <= k < n ==> is_space(s@[k]),
            j == i || !is_space(s@[j - 1]),
        decreases j,
    {
        if j == i {
            break ;
        }
        if !is_space_char(s.get_char(j - 1)) {
            break ;
        }
        j -= 1;
    }
    let r = s.substring_char(i, j);
    proof {
        lemma_trim_start_range(s@, i as int);
        let t = s@.subrange(i as int, n as int);
        assert(forall|k: int| j - i <= k < t.len() ==> is_space(t[k]));
        if j > i {
            assert(t[j - i - 1] == s@[j - 1]);
        }
        lemma_trim_end_range(t, j - i);
        assert(t.subrange(0, j - i) =~= s@.subrange(i as int, j as int));
    }
    r
}

/// Whether `pat` occurs in `s` starting at index `i`.
pub open spec fn matches_at(s: Seq<char>, pat: Seq<char>, i: int) -> bool {
    0 <= i && i + pat.len() <= s.len() && s.subrange(i, i + pat.len() as int) == pat
}

/// The index of the first occurrence of `pat` in `s` at or after `i`,
/// if there is one.
pub open spec fn find_from(s: Seq<char>, pat: Seq<char>, i: int) -> Option<int>
    decreases s.len() - i,
{
    if i < 0 || i + pat.len() > s.len() {
        None
    } else if pat.len() == 0 {
        Some(i)
    } else if matches_at(s, pat, i) {
        Some(i)
    } else {
        find_from(s, pat, i + 1)
    }
}

/// A found index marks an occurrence at or after the search start.
pub proof fn lemma_find_from_some(s: Seq<char>, pat: Seq<char>, i: int, k: int)
    requires
        find_from(s, pat, i) == Some(k),
    ensures
        i <= k,
        matches_at(s, pat, k),
    decreases s.len() - i,
{
    if !(i < 0 || i + pat.len() > s.len()) && pat.len() != 0 && !matches_at(s, pat, i) {
        lemma_find_from_some(s, pat, i + 1, k);
    } else if !(i < 0 || i + pat.len() > s.len()) && pat.len() == 0 {
        assert(s.subrange(i, i + pat.len() as int) =~= pat);
    }
}

/// Tests whether `pat` occurs in `s` starting at index `i`.
pub fn starts_with_at(s: &str, pat: &str, i: usize) -> (b: bool)
    requires
        i + pat@.len() <= s@.len(),
    ensures
        b == matches_at(s@, pat@, i as int),
{
    let n = s.unicode_len();
    let m = pat.unicode_len();
    let mut k: usize = 0;
    loop
        invariant
            k <= m,
            n == s@.len(),
            m == pat@.len(),
            i + m <= n,
            forall|j: int| 0 <= j < k ==> s@[i + j] == pat@[j],
        ensures
            (k == m && forall|j: int| 0 <= j < m ==> s@[i + j] == pat@[j]) || (k < m && s@[i + k]
                != pat@[k as int]),
        decreases m - k,
    {
        if k == m {
            break ;
        }
        if s.get_char(i + k) != pat.get_char(k) {
            break ;
        }
        k += 1;
    }
    if k == m {
        proof {
            assert(s@.subrange(i as int, i + pat@.len() as int) =~= pat@);
        }
        true
    } else {
        proof {
            if matches_at(s@, pat@, i as int) {
                assert(s@.subrange(i as int, i + pat@.len() as int)[k as int] == pat@[k as int]);
            }
        }
        false
    }
}

/// Finds the first occurrence of `pat` in `s` at or after index `from`.
pub fn find_sub_from(s: &str, pat: &str, from: usize) -> (r: Option<usize>)
    requires
        from <= s@.len(),
    ensures
        match r {
            Some(i) => find_from(s@, pat@, from as int) == Some(i as int),
            None => find_from(s@, pat@, from as int) is None,
        },
{
    let n = s.unicode_len();
    let m = pat.unicode_len();
    if m == 0 {
        proof {
            assert(s@.subrange(from as int, from as int) =~= pat@);
        }
        return Some(from);
    }
    if m > n || from > n - m {
        proof {
            assert(find_from(s@, pat@, from as int) is None);
        }
        return None;
    }
    let mut i: usize = from;
    loop
        invariant
            from <= i,
            1 <= m <= n,
            i <= n - m + 1,
            n == s@.len(),
            m == pat@.len(),
            find_from(s@, pat@, from as int) == find_from(s@, pat@, i as int),
        ensures
            (i <= n - m && matches_at(s@, pat@, i as int) && find_from(s@, pat@, from as int)
                == Some(i as int)) || find_from(s@, pat@, from as int) is None,
        decreases n - i,
    {
        if i > n - m {
            proof {
                assert(find_from(s@, pat@, i as int) is None);
            }
            break ;
        }
        if starts_with_at(s, pat, i) {
            proof {
                assert(find_from(s@, pat@, i as int) == Some(i as int));
            }
            break ;
        }
        proof {
            assert(find_from(s@, pat@, i as int) == find_from(s@, pat@, i + 1));
        }
        i += 1;
    }
    if i <= n - m && starts_with_at(s, pat, i) {
        Some(i)
    } else {
        None
    }
}

/// `s` with `pat` removed from its front when `pat` is a prefix of `s`,
/// and `s` unchanged otherwise.
pub open spec fn strip_prefix_spec(s: Seq<char>, pat: Seq<char>) -> Seq<char> {
    if matches_at(s, pat, 0) {
        s.subrange(pat.len() as int, s.len() as int)
    } else {
        s
    }
}

/// Removes `pat` from the front of `s` when it is a prefix of `s`.
pub fn strip_prefix<'a>(s: &'a str, pat: &str) -> (r: &'a str)
    ensures
        r@ == strip_prefix_spec(s@, pat@),
{
    let n = s.unicode_len();
    let m = pat.unicode_len();
    if m <= n && starts_with_at(s, pat, 0) {
        s.substring_char(m, n)
    } else {
        s
    }
}

} // verus!
