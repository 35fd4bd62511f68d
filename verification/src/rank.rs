//! Filter tokens and display ranks.
//!
//! A filter token is either a rank — an optionally signed integer whose value
//! lies within the current listing — or a literal identifier. `is_integer`
//! recognises the signed-integer shape, `parse_index` mirrors an unsigned
//! parse (a leading `+` allowed, a leading `-` or an overflowing value
//! rejected), and `is_valid_rank` combines the two exactly as resolution
//! uses them.

use vstd::prelude::*;

use crate::decimal::{all_digits, dec_chars, dec_val, digit_val, is_digit, lemma_dec_chars_val,
    lemma_dec_val_prefix};

verus! {

/// The characters of `s` after an optional leading sign.
pub open spec fn int_body(s: Seq<char>) -> Seq<char> {
    if s.len() > 0 && (s[0] == '+' || s[0] == '-') {
        s.skip(1)
    } else {
        s
    }
}

/// True when `s` is an optionally signed, nonempty run of digits.
pub open spec fn is_integer_spec(s: Seq<char>) -> bool {
    int_body(s).len() > 0 && all_digits(int_body(s))
}

/// The value an unsigned parse of `s` yields: the digits after an optional
/// leading `+`, provided nothing else occurs and the value is in range.
pub open spec fn index_value(s: Seq<char>) -> Option<nat> {
    let body = if s.len() > 0 && s[0] == '+' {
        s.skip(1)
    } else {
        s
    };
    if s.len() > 0 && s[0] != '-' && body.len() > 0 && all_digits(body) && dec_val(body)
        <= usize::MAX {
        Some(dec_val(body))
    } else {
        None
    }
}

/// True when `s` is an integer token whose parsed value is a rank within a
/// listing of `max` rows, counting from one.
pub open spec fn is_valid_rank_spec(s: Seq<char>, max: nat) -> bool {
    is_integer_spec(s) && match index_value(s) {
        Some(v) => 1 <= v <= max,
        None => false,
    }
}

/// True when `s` is an optionally signed, nonempty run of digits.
pub fn is_integer(s: &str) -> (r: bool)
    ensures
        r == is_integer_spec(s@),
{
    let n = s.unicode_len();
    let start: usize = if n > 0 && (s.get_char(0) == '+' || s.get_char(0) == '-') {
        1
    } else {
        0
    };
    if n == start {
        return false;
    }
    let mut i = start;
    while i < n
        invariant
            start <= i <= n,
            n == s@.len(),
            start == 0 || start == 1,
            start == 1 ==> (s@[0] == '+' || s@[0] == '-'),
            start == 0 ==> n > 0 && !(s@[0] == '+' || s@[0] == '-'),
            forall|k: int| start <= k < i ==> is_digit(s@[k]),
        decreases n - i,
    {
        let u = s.get_char(i) as u32;
        if u < 0x30 || u > 0x39 {
            proof {
                assert(!is_digit(s@[i as int]));
                if start == 1 {
                    assert(int_body(s@) == s@.skip(1));
                    assert(int_body(s@)[i - 1] == s@[i as int]);
                } else {
                    assert(int_body(s@) == s@);
                }
                assert(!is_digit(int_body(s@)[i - start]));
            }
            return false;
        }
        i += 1;
    }
    proof {
        assert(forall|k: int| 0 <= k < int_body(s@).len() ==> is_digit(int_body(s@)[k]));
    }
    true
}

/// The rank index an unsigned parse of `s` yields, if any.
pub fn parse_index(s: &str) -> (r: Option<usize>)
    ensures
        match r {
            Some(v) => index_value(s@) == Some(v as nat),
            None => index_value(s@) is None,
        },
{
    let n = s.unicode_len();
    if n == 0 {
        return None;
    }
    let c0 = s.get_char(0);
    if c0 == '-' {
        return None;
    }
    let start: usize = if c0 == '+' {
        1
    } else {
        0
    };
    if n == start {
        return None;
    }
    let ghost body = if s@[0] == '+' {
        s@.skip(1)
    } else {
        s@
    };
    let mut acc: usize = 0;
    let mut i = start;
    while i < n
        invariant
            start <= i <= n,
            n == s@.len(),
            s@[0] != '-',
            start == (if s@[0] == '+' {
                1int
            } else {
                0int
            }),
            body == (if s@[0] == '+' {
                s@.skip(1)
            } else {
                s@
            }),
            body.len() == n - start,
            forall|k: int| 0 <= k < i - start ==> is_digit(body[k]),
            acc as nat == dec_val(body.take(i - start)),
        decreases n - i,
    {
        let u = s.get_char(i) as u32;
        proof {
            assert(body[i - start] == s@[i as int]);
        }
        if u < 0x30 || u > 0x39 {
            proof {
                assert(!is_digit(body[i - start]));
            }
            return None;
        }
        let d = (u - 0x30) as usize;
        proof {
            assert(body.take(i - start + 1).drop_last() =~= body.take(i - start));
            assert(body.take(i - start + 1).last() == body[i - start]);
            assert(dec_val(body.take(i - start + 1)) == acc as nat * 10 + d as nat);
        }
        let next = match acc.checked_mul(10) {
            Some(t) => t.checked_add(d),
            None => None,
        };
        match next {
            Some(v) => {
                acc = v;
            },
            None => {
                proof {
                    assert(dec_val(body.take(i - start + 1)) > usize::MAX);
                    lemma_dec_val_prefix(body, i - start + 1);
                    assert(dec_val(body) > usize::MAX);
                }
                return None;
            },
        }
        i += 1;
    }
    proof {
        assert(body.take(n - start) =~= body);
    }
    Some(acc)
}

/// True when `s` is an integer token naming a rank within `max` rows.
pub fn is_valid_rank(s: &str, max: usize) -> (r: bool)
    ensures
        r == is_valid_rank_spec(s@, max as nat),
{
    if !is_integer(s) {
        return false;
    }
    match parse_index(s) {
        Some(v) => v >= 1 && v <= max,
        None => false,
    }
}

/// The token "0" is never a rank: ranks count from one.
pub proof fn lemma_rank_zero_invalid(max: nat)
    ensures
        !is_valid_rank_spec(seq!['0'], max),
{
    let s = seq!['0'];
    assert(s[0] == '0');
    assert(s.last() == '0');
    assert(s.drop_last() =~= Seq::<char>::empty());
    assert(dec_val(s) == dec_val(Seq::<char>::empty()) * 10 + digit_val('0'));
    assert(dec_val(s) == 0);
}

/// The token for one past the listing length is never a rank.
pub proof fn lemma_rank_past_end_invalid(max: nat)
    ensures
        !is_valid_rank_spec(dec_chars(max + 1), max),
{
    let s = dec_chars(max + 1);
    lemma_dec_chars_val(max + 1);
    assert(is_digit(s[0]));
    assert(s[0] != '+' && s[0] != '-');
}

/// The token "1" is a rank exactly when the listing is nonempty.
pub proof fn lemma_rank_one_valid(max: nat)
    ensures
        is_valid_rank_spec(seq!['1'], max) <==> max >= 1,
{
    let s = seq!['1'];
    assert(s[0] == '1');
    assert(s.last() == '1');
    assert(s.drop_last() =~= Seq::<char>::empty());
    assert(dec_val(s) == dec_val(Seq::<char>::empty()) * 10 + digit_val('1'));
    assert(dec_val(s) == 1);
    assert(int_body(s) == s);
    assert(all_digits(s));
}

} // verus!
