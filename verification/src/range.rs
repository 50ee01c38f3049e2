//! The byte-range resolver: turns a `Range` specifier such as `"0-499"` or
//! `"1000-"` (already stripped of its `bytes=` unit prefix) into a validated
//! inclusive interval over a file of known size. Anything malformed or out of
//! bounds resolves to "no range"; callers then serve the whole file.

use vstd::prelude::*;

use crate::digits::{all_digits, dec_str, dec_val, is_digit, is_u64_token, lemma_dec_str_props};
use crate::digits::parse_dec_u64;
use crate::text::{first_occ, lemma_first_occ_found, lemma_first_occ_none, lemma_first_occ_props};

verus! {

/// What the resolver accepts and returns, as a function of the specifier's
/// characters and the file size: exactly one dash; the start token a decimal
/// integer; the end token a decimal integer or empty (empty means `size - 1`);
/// and `start <= end < size`. Everything else is "no range".
pub open spec fn range_spec(s: Seq<char>, size: u64) -> Option<(u64, u64)> {
    let d = first_occ(s, '-');
    if d < 0 {
        None
    } else if first_occ(s.subrange(d + 1, s.len() as int), '-') >= 0 {
        None
    } else {
        let start_tok = s.subrange(0, d);
        let end_tok = s.subrange(d + 1, s.len() as int);
        if !is_u64_token(start_tok) {
            None
        } else {
            let start = dec_val(start_tok);
            if end_tok.len() == 0 {
                if size > 0 && start <= size - 1 {
                    Some((start as u64, (size - 1) as u64))
                } else {
                    None
                }
            } else if is_u64_token(end_tok) {
                let end = dec_val(end_tok);
                if start <= end && end < size {
                    Some((start as u64, end as u64))
                } else {
                    None
                }
            } else {
                None
            }
        }
    }
}

/// Resolve a range specifier against the file size.
pub fn parse_range(range_str: &str, file_size: u64) -> (r: Option<(u64, u64)>)
    ensures
        r == range_spec(range_str@, file_size),
{
    let n = range_str.unicode_len();
    let mut i: usize = 0;
    let mut found = false;
    let mut d: usize = 0;
    let mut second = false;
    while i < n
        invariant
            i <= n,
            n == range_str@.len(),
            !found ==> !second && forall|j: int| 0 <= j < i ==> range_str@[j] != '-',
            found ==> d < i && range_str@[d as int] == '-' && forall|j: int|
                0 <= j < d ==> range_str@[j] != '-',
            found ==> (second <==> exists|j: int| d < j < i && range_str@[j] == '-'),
        decreases n - i,
    {
        let c = range_str.get_char(i);
        if c as u32 == 45 {
            proof {
                assert(c == '-') by {
                    assert(c as u32 == '-' as u32);
                }
            }
            if found {
                second = true;
            } else {
                found = true;
                d = i;
            }
        } else {
            proof {
                assert(c != '-') by {
                    assert('-' as u32 == 45);
                }
            }
        }
        i = i + 1;
    }
    if !found {
        proof {
            lemma_first_occ_none(range_str@, '-');
        }
        return None;
    }
    proof {
        lemma_first_occ_found(range_str@, '-', d as int);
    }
    let ghost tail = range_str@.subrange(d + 1, range_str@.len() as int);
    if second {
        proof {
            let j = choose|j: int| d < j < n && range_str@[j] == '-';
            assert(tail[j - (d + 1)] == '-');
            lemma_first_occ_props(tail, '-');
        }
        return None;
    }
    proof {
        assert(forall|k: int| 0 <= k < tail.len() ==> tail[k] == range_str@[k + d + 1] && tail[k]
            != '-');
        lemma_first_occ_none(tail, '-');
    }
    let start = match parse_dec_u64(range_str, 0, d) {
        Some(v) => v,
        None => {
            return None;
        },
    };
    if d + 1 == n {
        if file_size > 0 && start <= file_size - 1 {
            Some((start, file_size - 1))
        } else {
            None
        }
    } else {
        let end = match parse_dec_u64(range_str, d + 1, n) {
            Some(v) => v,
            None => {
                return None;
            },
        };
        if start <= end && end < file_size {
            Some((start, end))
        } else {
            None
        }
    }
}

/// Digit characters are never the dash.
proof fn lemma_digits_have_no_dash(s: Seq<char>)
    requires
        all_digits(s),
    ensures
        forall|j: int| 0 <= j < s.len() ==> s[j] != '-',
{
    assert forall|j: int| 0 <= j < s.len() implies s[j] != '-' by {
        assert(is_digit(s[j]));
        assert('-' as int == 45);
    }
}

/// Every explicit `"start-end"` specifier with `start <= end < size`, written
/// in canonical decimal, is accepted and resolves to exactly `(start, end)`.
pub proof fn lemma_resolver_accepts_explicit(start: u64, end: u64, size: u64)
    requires
        start <= end < size,
    ensures
        range_spec(dec_str(start as int) + seq!['-'] + dec_str(end as int), size) == Some(
            (start, end),
        ),
{
    let st = dec_str(start as int);
    let et = dec_str(end as int);
    lemma_dec_str_props(start as int);
    lemma_dec_str_props(end as int);
    let s = st + seq!['-'] + et;
    let d = st.len() as int;
    assert(s[d] == '-');
    lemma_digits_have_no_dash(st);
    lemma_digits_have_no_dash(et);
    assert(forall|j: int| 0 <= j < d ==> s[j] == st[j]);
    lemma_first_occ_found(s, '-', d);
    assert(s.subrange(d + 1, s.len() as int) =~= et);
    lemma_first_occ_none(et, '-');
    assert(s.subrange(0, d) =~= st);
}

/// Every open-ended `"start-"` specifier with `start < size`, written in
/// canonical decimal, is accepted and resolves to `(start, size - 1)`.
pub proof fn lemma_resolver_accepts_open_end(start: u64, size: u64)
    requires
        start < size,
    ensures
        range_spec(dec_str(start as int) + seq!['-'], size) == Some((start, (size - 1) as u64)),
{
    let st = dec_str(start as int);
    lemma_dec_str_props(start as int);
    let s = st + seq!['-'];
    let d = st.len() as int;
    assert(s[d] == '-');
    lemma_digits_have_no_dash(st);
    assert(forall|j: int| 0 <= j < d ==> s[j] == st[j]);
    lemma_first_occ_found(s, '-', d);
    assert(s.subrange(d + 1, s.len() as int) =~= Seq::<char>::empty());
    lemma_first_occ_none(Seq::<char>::empty(), '-');
    assert(s.subrange(0, d) =~= st);
}

/// The resolver accepts nothing else: whenever it returns a range, the
/// specifier had exactly one dash, a numeric start token, a numeric or empty
/// end token, and the returned interval lies within the file. In particular a
/// specifier with `end >= size`, with `start > end`, with a non-numeric
/// token, or without exactly one dash always resolves to "no range".
pub proof fn lemma_resolver_accepts_only_valid(s: Seq<char>, size: u64)
    ensures
        range_spec(s, size) matches Some(r) ==> exists|d: int|
            {
                &&& 0 <= d < s.len()
                &&& s[d] == '-'
                &&& forall|j: int| 0 <= j < s.len() && j != d ==> s[j] != '-'
                &&& is_u64_token(s.subrange(0, d))
                &&& r.0 == dec_val(s.subrange(0, d))
                &&& r.0 <= r.1 < size
                &&& d + 1 < s.len() ==> is_u64_token(s.subrange(d + 1, s.len() as int)) && r.1
                    == dec_val(s.subrange(d + 1, s.len() as int))
                &&& d + 1 == s.len() ==> r.1 == size - 1
            },
{
    if range_spec(s, size) is Some {
        let d = first_occ(s, '-');
        lemma_first_occ_props(s, '-');
        let tail = s.subrange(d + 1, s.len() as int);
        lemma_first_occ_props(tail, '-');
        assert(forall|j: int| d < j < s.len() ==> s[j] == tail[j - (d + 1)]);
        let r = range_spec(s, size)->Some_0;
        assert(0 <= d < s.len() && s[d] == '-');
        assert(forall|j: int| 0 <= j < s.len() && j != d ==> s[j] != '-');
        assert(is_u64_token(s.subrange(0, d)));
        crate::digits::lemma_dec_val_nonneg(s.subrange(0, d));
        if d + 1 < s.len() {
            crate::digits::lemma_dec_val_nonneg(tail);
        }
        assert(r.0 == dec_val(s.subrange(0, d)));
        assert(r.0 <= r.1 < size);
    }
}


/// A specifier without exactly one dash always resolves to "no range":
/// no dash at all, or a second dash anywhere, is rejected.
pub proof fn lemma_resolver_rejects_wrong_dash_count(s: Seq<char>, size: u64)
    ensures
        (forall|j: int| 0 <= j < s.len() ==> s[j] != '-') ==> range_spec(s, size) is None,
        (exists|a: int, b: int| 0 <= a < b < s.len() && s[a] == '-' && s[b] == '-')
            ==> range_spec(s, size) is None,
{
    lemma_resolver_accepts_only_valid(s, size);
    if range_spec(s, size) is Some {
        let d = choose|d: int|
            {
                &&& 0 <= d < s.len()
                &&& s[d] == '-'
                &&& forall|j: int| 0 <= j < s.len() && j != d ==> s[j] != '-'
            };
        assert(s[d] == '-');
        if exists|a: int, b: int| 0 <= a < b < s.len() && s[a] == '-' && s[b] == '-' {
            let (a, b) = choose|a: int, b: int|
                0 <= a < b < s.len() && s[a] == '-' && s[b] == '-';
            assert(a != d || b != d);
            assert(false);
        }
    }
}

} // verus!

