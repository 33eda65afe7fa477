//! Decimal digit strings: their mathematical value and verified parsing.

use vstd::prelude::*;

use vstd::arithmetic::div_mod::lemma_fundamental_div_mod;

verus! {

/// A decimal digit character.
pub open spec fn is_digit(c: char) -> bool {
    '0' as u32 <= c as u32 && c as u32 <= '9' as u32
}

/// The numeric value of a digit character.
pub open spec fn digit_value(c: char) -> int {
    c as u32 - '0' as u32
}

/// Every character of the string is a decimal digit.
pub open spec fn all_digits(s: Seq<char>) -> bool {
    forall|i: int| 0 <= i < s.len() ==> is_digit(#[trigger] s[i])
}

/// The value of a digit string read as a decimal number.
pub open spec fn digits_value(s: Seq<char>) -> int
    decreases s.len(),
{
    if s.len() == 0 {
        0
    } else {
        digits_value(s.drop_last()) * 10 + digit_value(s.last())
    }
}

/// The string with an optional leading plus sign removed, as the standard
/// library's unsigned parsers accept one.
pub open spec fn strip_sign(s: Seq<char>) -> Seq<char> {
    if s.len() > 0 && s[0] == '+' {
        s.subrange(1, s.len() as int)
    } else {
        s
    }
}

/// Some all-digit prefix of the string already exceeds `max`: a
/// left-to-right scan overflows before it meets any other defect.
pub open spec fn prefix_overflows(t: Seq<char>, max: int) -> bool {
    exists|k: int|
        0 <= k <= t.len() && all_digits(#[trigger] t.take(k)) && digits_value(t.take(k)) > max
}

/// Why a numeric segment failed to parse, mirroring the standard library's
/// taxonomy for unsigned integers.
pub enum NumErr {
    /// The segment is empty.
    Empty,
    /// A non-digit character stands where a digit is expected.
    InvalidDigit,
    /// The digits read so far already exceed the permitted maximum.
    Overflow,
}

/// The value of an all-digit string is non-negative.
pub proof fn lemma_digits_value_nonneg(s: Seq<char>)
    requires
        all_digits(s),
    ensures
        digits_value(s) >= 0,
    decreases s.len(),
{
    if s.len() > 0 {
        assert forall|i: int| 0 <= i < s.drop_last().len() implies is_digit(
            #[trigger] s.drop_last()[i],
        ) by {
            assert(s.drop_last()[i] == s[i]);
        }
        lemma_digits_value_nonneg(s.drop_last());
    }
}

/// A shorter all-digit prefix is worth no more than a longer one.
pub proof fn lemma_digits_value_prefix_le(t: Seq<char>, k: int, m: int)
    requires
        0 <= k <= m <= t.len(),
        all_digits(t.take(m)),
    ensures
        all_digits(t.take(k)),
        digits_value(t.take(k)) <= digits_value(t.take(m)),
    decreases m - k,
{
    assert forall|i: int| 0 <= i < t.take(k).len() implies is_digit(#[trigger] t.take(k)[i]) by {
        assert(t.take(k)[i] == t.take(m)[i]);
    }
    if k < m {
        assert forall|i: int| 0 <= i < t.take(m - 1).len() implies is_digit(
            #[trigger] t.take(m - 1)[i],
        ) by {
            assert(t.take(m - 1)[i] == t.take(m)[i]);
        }
        assert(t.take(m).drop_last() =~= t.take(m - 1));
        assert(is_digit(t.take(m).last()));
        lemma_digits_value_nonneg(t.take(m - 1));
        assert(digits_value(t.take(m)) == digits_value(t.take(m - 1)) * 10 + digit_value(
            t.take(m).last(),
        ));
        lemma_digits_value_prefix_le(t, k, m - 1);
    }
}

/// Parses a decimal segment the way the standard library parses an unsigned
/// integer: an optional leading `+`, then at least one digit, and a value of
/// at most `max`. The error names the defect a left-to-right scan meets
/// first: emptiness, a non-digit character, or an overflowing digit prefix.
pub fn parse_unsigned(s: &str, max: u32) -> (r: Result<u32, NumErr>)
    ensures
        match r {
            Ok(v) => {
                let t = strip_sign(s@);
                &&& t.len() > 0
                &&& all_digits(t)
                &&& v as int == digits_value(t)
                &&& v <= max
            },
            Err(e) => match e {
                NumErr::Empty => s@.len() == 0,
                NumErr::InvalidDigit => {
                    let t = strip_sign(s@);
                    &&& s@.len() > 0
                    &&& !prefix_overflows(t, max as int)
                    &&& (t.len() == 0 || !all_digits(t))
                },
                NumErr::Overflow => prefix_overflows(strip_sign(s@), max as int),
            },
        },
{
    let n = s.unicode_len();
    if n == 0 {
        return Err(NumErr::Empty);
    }
    let start: usize = if s.get_char(0) == '+' {
        1
    } else {
        0
    };
    let ghost t = strip_sign(s@);
    proof {
        assert(t =~= s@.subrange(start as int, n as int));
    }
    if start == n {
        proof {
            assert forall|k: int| 0 <= k <= t.len() && all_digits(#[trigger] t.take(k)) implies
            digits_value(t.take(k)) <= max as int by {
                assert(t.take(k) =~= Seq::<char>::empty());
            }
        }
        return Err(NumErr::InvalidDigit);
    }
    let mut val: u32 = 0;
    let mut i: usize = start;
    while i < n
        invariant
            start <= i <= n,
            n == s@.len(),
            start <= 1,
            t == strip_sign(s@),
            t =~= s@.subrange(start as int, n as int),
            all_digits(t.take(i - start)),
            val as int == digits_value(t.take(i - start)),
            val <= max,
        decreases n - i,
    {
        let c = s.get_char(i);
        let ghost j = i - start;
        proof {
            assert(t[j] == s@[i as int]);
        }
        let cu = c as u32;
        if !('0' as u32 <= cu && cu <= '9' as u32) {
            proof {
                assert forall|k: int| 0 <= k <= t.len() && all_digits(#[trigger] t.take(k)) implies
                digits_value(t.take(k)) <= max as int by {
                    if k <= j {
                        lemma_digits_value_prefix_le(t, k, j);
                    } else {
                        assert(t.take(k)[j] == t[j]);
                        assert(false);
                    }
                }
            }
            return Err(NumErr::InvalidDigit);
        }
        let d: u32 = cu - '0' as u32;
        proof {
            assert(is_digit(t[j]) && digit_value(t[j]) == d as int);
            assert(t.take(j + 1).drop_last() =~= t.take(j));
            assert(t.take(j + 1).last() == t[j]);
            assert(digits_value(t.take(j + 1)) == val as int * 10 + d as int);
        }
        if d > max || val > (max - d) / 10 {
            proof {
                if d <= max {
                    lemma_fundamental_div_mod((max - d) as int, 10);
                }
                assert(val as int * 10 + d as int > max as int);
                assert forall|i2: int| 0 <= i2 < t.take(j + 1).len() implies is_digit(
                    #[trigger] t.take(j + 1)[i2],
                ) by {
                    if i2 < j {
                        assert(t.take(j + 1)[i2] == t.take(j)[i2]);
                    } else {
                        assert(t.take(j + 1)[i2] == t[j]);
                    }
                }
                assert(prefix_overflows(t, max as int)) by {
                    assert(0 <= j + 1 <= t.len() && all_digits(t.take(j + 1)) && digits_value(
                        t.take(j + 1),
                    ) > max as int);
                }
            }
            return Err(NumErr::Overflow);
        }
        proof {
            lemma_fundamental_div_mod((max - d) as int, 10);
            assert(val as int * 10 + d as int <= max as int);
            assert forall|i2: int| 0 <= i2 < t.take(j + 1).len() implies is_digit(
                #[trigger] t.take(j + 1)[i2],
            ) by {
                if i2 < j {
                    assert(t.take(j + 1)[i2] == t.take(j)[i2]);
                } else {
                    assert(t.take(j + 1)[i2] == t[j]);
                }
            }
        }
        val = val * 10 + d;
        i = i + 1;
    }
    proof {
        assert(t.take(n - start) =~= t);
    }
    Ok(val)
}

} // verus!
