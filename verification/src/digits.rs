//! Decimal digit strings: the spec-level model of base-10 text, a verified
//! formatter from `u64` to its canonical digit string, and a verified parser
//! for digit substrings. Shared by the range resolver and the URL builders.

use vstd::prelude::*;

verus! {

/// A decimal digit character.
pub open spec fn is_digit(c: char) -> bool {
    48 <= c as int && c as int <= 57
}

/// Numeric value of a digit character.
pub open spec fn digit_val(c: char) -> int {
    c as int - 48
}

/// The digit character for a value in `0..10`.
pub open spec fn digit_char(d: int) -> char {
    if d == 0 {
        '0'
    } else if d == 1 {
        '1'
    } else if d == 2 {
        '2'
    } else if d == 3 {
        '3'
    } else if d == 4 {
        '4'
    } else if d == 5 {
        '5'
    } else if d == 6 {
        '6'
    } else if d == 7 {
        '7'
    } else if d == 8 {
        '8'
    } else {
        '9'
    }
}

pub open spec fn all_digits(s: Seq<char>) -> bool {
    forall|i: int| 0 <= i < s.len() ==> is_digit(#[trigger] s[i])
}

/// Value of a digit string read in base 10 (0 for the empty string).
pub open spec fn dec_val(s: Seq<char>) -> int
    decreases s.len(),
{
    if s.len() == 0 {
        0
    } else {
        10 * dec_val(s.drop_last()) + digit_val(s.last())
    }
}

/// The canonical decimal rendering of `n >= 0`: no sign, no leading zeros
/// (except for `"0"` itself).
pub open spec fn dec_str(n: int) -> Seq<char>
    decreases n,
{
    if n < 10 {
        seq![digit_char(n)]
    } else {
        dec_str(n / 10).push(digit_char(n % 10))
    }
}

/// A string accepted when parsing an unsigned 64-bit integer: nonempty,
/// digits only, value within range. Leading zeros are accepted.
pub open spec fn is_u64_token(s: Seq<char>) -> bool {
    s.len() > 0 && all_digits(s) && dec_val(s) <= u64::MAX
}

pub proof fn lemma_dec_val_nonneg(s: Seq<char>)
    requires
        all_digits(s),
    ensures
        dec_val(s) >= 0,
    decreases s.len(),
{
    if s.len() > 0 {
        lemma_dec_val_nonneg(s.drop_last());
    }
}

pub proof fn lemma_dec_val_push(s: Seq<char>, c: char)
    ensures
        dec_val(s.push(c)) == 10 * dec_val(s) + digit_val(c),
{
    assert(s.push(c).drop_last() =~= s);
}

pub proof fn lemma_dec_str_props(n: int)
    requires
        n >= 0,
    ensures
        all_digits(dec_str(n)),
        dec_val(dec_str(n)) == n,
        dec_str(n).len() >= 1,
    decreases n,
{
    if n < 10 {
        assert(is_digit(digit_char(n)));
        assert(digit_val(digit_char(n)) == n);
        assert(dec_str(n).drop_last() =~= Seq::<char>::empty());
        assert(dec_val(dec_str(n)) == 10 * dec_val(Seq::<char>::empty()) + digit_val(
            digit_char(n),
        ));
    } else {
        lemma_dec_str_props(n / 10);
        lemma_dec_val_push(dec_str(n / 10), digit_char(n % 10));
        assert(is_digit(digit_char(n % 10)));
        assert(digit_val(digit_char(n % 10)) == n % 10);
        vstd::arithmetic::div_mod::lemma_fundamental_div_mod(n, 10);
    }
}

/// Every digit string dominates each of its prefixes in value.
pub proof fn lemma_dec_val_prefix_le(s: Seq<char>, k: int)
    requires
        all_digits(s),
        0 <= k <= s.len(),
    ensures
        dec_val(s.subrange(0, k)) <= dec_val(s),
    decreases s.len() - k,
{
    if k < s.len() {
        assert(s.subrange(0, k + 1).drop_last() =~= s.subrange(0, k));
        lemma_dec_val_nonneg(s.subrange(0, k));
        assert(dec_val(s.subrange(0, k + 1)) == 10 * dec_val(s.subrange(0, k)) + digit_val(
            s.subrange(0, k + 1).last(),
        ));
        assert(is_digit(s[k]));
        lemma_dec_val_prefix_le(s, k + 1);
    } else {
        assert(s.subrange(0, k) =~= s);
    }
}

/// The one-character string for a digit value.
fn digit_str(d: u64) -> (r: &'static str)
    requires
        d < 10,
    ensures
        r@ =~= seq![digit_char(d as int)],
{
    if d == 0 {
        proof {
            reveal_strlit("0");
        }
        "0"
    } else if d == 1 {
        proof {
            reveal_strlit("1");
        }
        "1"
    } else if d == 2 {
        proof {
            reveal_strlit("2");
        }
        "2"
    } else if d == 3 {
        proof {
            reveal_strlit("3");
        }
        "3"
    } else if d == 4 {
        proof {
            reveal_strlit("4");
        }
        "4"
    } else if d == 5 {
        proof {
            reveal_strlit("5");
        }
        "5"
    } else if d == 6 {
        proof {
            reveal_strlit("6");
        }
        "6"
    } else if d == 7 {
        proof {
            reveal_strlit("7");
        }
        "7"
    } else if d == 8 {
        proof {
            reveal_strlit("8");
        }
        "8"
    } else {
        proof {
            reveal_strlit("9");
        }
        "9"
    }
}

/// Render `n` in decimal.
pub fn fmt_u64(n: u64) -> (r: String)
    ensures
        r@ == dec_str(n as int),
    decreases n,
{
    if n < 10 {
        let mut s = String::new();
        s.append(digit_str(n));
        proof {
            assert(s@ =~= dec_str(n as int));
        }
        s
    } else {
        let mut s = fmt_u64(n / 10);
        s.append(digit_str(n % 10));
        proof {
            assert(s@ =~= dec_str(n as int));
        }
        s
    }
}

/// Parse the character span `from..to` of `s` as an unsigned 64-bit decimal
/// integer, with exactly the acceptance of `is_u64_token`.
pub fn parse_dec_u64(s: &str, from: usize, to: usize) -> (r: Option<u64>)
    requires
        from <= to <= s@.len(),
    ensures
        match r {
            Some(v) => is_u64_token(s@.subrange(from as int, to as int)) && v == dec_val(
                s@.subrange(from as int, to as int),
            ),
            None => !is_u64_token(s@.subrange(from as int, to as int)),
        },
{
    let ghost token = s@.subrange(from as int, to as int);
    if from == to {
        return None;
    }
    let mut acc: u64 = 0;
    let mut i = from;
    while i < to
        invariant
            from <= i <= to <= s@.len(),
            token == s@.subrange(from as int, to as int),
            all_digits(s@.subrange(from as int, i as int)),
            acc == dec_val(s@.subrange(from as int, i as int)),
        decreases to - i,
    {
        let c = s.get_char(i);
        let u = c as u32;
        if u < 48 || u > 57 {
            proof {
                assert(token[i - from] == s@[i as int]);
                assert(!is_digit(token[i - from]));
            }
            return None;
        }
        let d = (u - 48) as u64;
        proof {
            assert(s@.subrange(from as int, i + 1).drop_last() =~= s@.subrange(
                from as int,
                i as int,
            ));
            assert(s@.subrange(from as int, i + 1).last() == s@[i as int]);
        }
        let next = match acc.checked_mul(10) {
            Some(t) => t.checked_add(d),
            None => None,
        };
        match next {
            Some(v) => {
                acc = v;
            },
            None => {
                proof {
                    assert(dec_val(s@.subrange(from as int, i + 1)) > u64::MAX);
                    if all_digits(token) {
                        lemma_dec_val_prefix_le(token, i + 1 - from);
                        assert(token.subrange(0, i + 1 - from) =~= s@.subrange(from as int, i + 1));
                    }
                }
                return None;
            },
        }
        i = i + 1;
    }
    proof {
        assert(s@.subrange(from as int, i as int) =~= token);
    }
    Some(acc)
}

} // verus!
