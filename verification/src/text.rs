//! Character-sequence helpers: first and last occurrence of a character,
//! with the lemmas that connect a scanning loop to the recursive definitions.

use vstd::prelude::*;

verus! {

/// The remainder of `s` after prefix `p`, or `None` when `s` does not start
/// with `p`.
pub open spec fn strip_prefix_spec(s: Seq<char>, p: Seq<char>) -> Option<Seq<char>> {
    if p.len() <= s.len() && s.subrange(0, p.len() as int) == p {
        Some(s.subrange(p.len() as int, s.len() as int))
    } else {
        None
    }
}

/// Position of the first occurrence of `c` in `s`, if any.
pub fn find_char_at(s: &str, c: char) -> (r: Option<usize>)
    ensures
        match r {
            Some(i) => first_occ(s@, c) == i && i < s@.len(),
            None => first_occ(s@, c) == -1,
        },
{
    let n = s.unicode_len();
    let mut i: usize = 0;
    while i < n
        invariant
            i <= n,
            n == s@.len(),
            forall|j: int| 0 <= j < i ==> s@[j] != c,
        decreases n - i,
    {
        if s.get_char(i) == c {
            proof {
                lemma_first_occ_found(s@, c, i as int);
            }
            return Some(i);
        }
        i = i + 1;
    }
    proof {
        lemma_first_occ_none(s@, c);
    }
    None
}

/// Whether two string slices hold the same characters.
pub fn str_eq(a: &str, b: &str) -> (r: bool)
    ensures
        r == (a@ == b@),
{
    let na = a.unicode_len();
    let nb = b.unicode_len();
    if na != nb {
        return false;
    }
    let mut i: usize = 0;
    while i < na
        invariant
            i <= na,
            na == a@.len() == b@.len(),
            forall|j: int| 0 <= j < i ==> a@[j] == b@[j],
        decreases na - i,
    {
        let ca = a.get_char(i);
        let cb = b.get_char(i);
        if ca != cb {
            return false;
        }
        i = i + 1;
    }
    proof {
        assert(a@ =~= b@);
    }
    true
}

/// Index of the first occurrence of `c` in `s`, or -1 if absent.
pub open spec fn first_occ(s: Seq<char>, c: char) -> int
    decreases s.len(),
{
    if s.len() == 0 {
        -1
    } else if s[0] == c {
        0
    } else {
        let r = first_occ(s.subrange(1, s.len() as int), c);
        if r < 0 {
            -1
        } else {
            r + 1
        }
    }
}

/// Index of the last occurrence of `c` in `s`, or -1 if absent.
pub open spec fn last_occ(s: Seq<char>, c: char) -> int
    decreases s.len(),
{
    if s.len() == 0 {
        -1
    } else if s.last() == c {
        s.len() - 1
    } else {
        last_occ(s.drop_last(), c)
    }
}

pub proof fn lemma_first_occ_found(s: Seq<char>, c: char, d: int)
    requires
        0 <= d < s.len(),
        s[d] == c,
        forall|j: int| 0 <= j < d ==> s[j] != c,
    ensures
        first_occ(s, c) == d,
    decreases s.len(),
{
    if d > 0 {
        let t = s.subrange(1, s.len() as int);
        assert(t[d - 1] == c);
        assert(forall|j: int| 0 <= j < d - 1 ==> t[j] == s[j + 1] && t[j] != c);
        lemma_first_occ_found(t, c, d - 1);
    }
}

pub proof fn lemma_first_occ_none(s: Seq<char>, c: char)
    requires
        forall|j: int| 0 <= j < s.len() ==> s[j] != c,
    ensures
        first_occ(s, c) == -1,
    decreases s.len(),
{
    if s.len() > 0 {
        let t = s.subrange(1, s.len() as int);
        assert(forall|j: int| 0 <= j < t.len() ==> t[j] == s[j + 1] && t[j] != c);
        lemma_first_occ_none(t, c);
    }
}

pub proof fn lemma_first_occ_props(s: Seq<char>, c: char)
    ensures
        first_occ(s, c) >= 0 ==> first_occ(s, c) < s.len() && s[first_occ(s, c)] == c && (forall|
            j: int,
        |
            0 <= j < first_occ(s, c) ==> s[j] != c),
        first_occ(s, c) < 0 ==> forall|j: int| 0 <= j < s.len() ==> s[j] != c,
    decreases s.len(),
{
    if s.len() > 0 && s[0] != c {
        let t = s.subrange(1, s.len() as int);
        lemma_first_occ_props(t, c);
        if first_occ(s, c) >= 0 {
            assert forall|j: int| 0 <= j < first_occ(s, c) implies s[j] != c by {
                if j > 0 {
                    assert(s[j] == t[j - 1]);
                }
            }
        } else {
            assert forall|j: int| 0 <= j < s.len() implies s[j] != c by {
                if j > 0 {
                    assert(s[j] == t[j - 1]);
                }
            }
        }
    }
}

pub proof fn lemma_last_occ_found(s: Seq<char>, c: char, d: int)
    requires
        0 <= d < s.len(),
        s[d] == c,
        forall|j: int| d < j < s.len() ==> s[j] != c,
    ensures
        last_occ(s, c) == d,
    decreases s.len(),
{
    if d < s.len() - 1 {
        let t = s.drop_last();
        assert(t[d] == c);
        lemma_last_occ_found(t, c, d);
    }
}

pub proof fn lemma_last_occ_none(s: Seq<char>, c: char)
    requires
        forall|j: int| 0 <= j < s.len() ==> s[j] != c,
    ensures
        last_occ(s, c) == -1,
    decreases s.len(),
{
    if s.len() > 0 {
        lemma_last_occ_none(s.drop_last(), c);
    }
}

pub proof fn lemma_last_occ_props(s: Seq<char>, c: char)
    ensures
        last_occ(s, c) >= 0 ==> last_occ(s, c) < s.len() && s[last_occ(s, c)] == c && (forall|
            j: int,
        |
            last_occ(s, c) < j < s.len() ==> s[j] != c),
        last_occ(s, c) < 0 ==> forall|j: int| 0 <= j < s.len() ==> s[j] != c,
    decreases s.len(),
{
    if s.len() > 0 && s.last() != c {
        let t = s.drop_last();
        lemma_last_occ_props(t, c);
        if last_occ(s, c) >= 0 {
            assert forall|j: int| last_occ(s, c) < j < s.len() implies s[j] != c by {
                if j < s.len() - 1 {
                    assert(s[j] == t[j]);
                }
            }
        } else {
            assert forall|j: int| 0 <= j < s.len() implies s[j] != c by {
                if j < s.len() - 1 {
                    assert(s[j] == t[j]);
                }
            }
        }
    }
}

} // verus!
