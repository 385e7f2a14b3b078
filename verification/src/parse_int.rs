use vstd::prelude::*;
use vstd::string::StrSliceExecFns;

verus! {

/// A decimal digit.
pub open spec fn is_digit_char(c: char) -> bool {
    48 <= c as int <= 57
}

/// The numeric value of a decimal digit.
pub open spec fn digit_val(c: char) -> int {
    c as int - 48
}

pub open spec fn all_digits(s: Seq<char>) -> bool {
    forall|i: int| 0 <= i < s.len() ==> is_digit_char(#[trigger] s[i])
}

/// The value of a string of decimal digits, most significant first.
pub open spec fn digits_val(s: Seq<char>) -> int
    decreases s.len(),
{
    if s.len() == 0 {
        0
    } else {
        10 * digits_val(s.drop_last()) + digit_val(s.last())
    }
}

/// Whether `s` is integer text: an optional sign followed by at least one
/// decimal digit and nothing else.
pub open spec fn is_int_text(s: Seq<char>) -> bool {
    if s.len() == 0 {
        false
    } else if s[0] == '+' || s[0] == '-' {
        s.len() > 1 && all_digits(s.skip(1))
    } else {
        all_digits(s)
    }
}

/// The magnitude of integer text (the value of its digits).
pub open spec fn int_text_mag(s: Seq<char>) -> int {
    if s.len() > 0 && (s[0] == '+' || s[0] == '-') {
        digits_val(s.skip(1))
    } else {
        digits_val(s)
    }
}

/// The signed value of integer text.
pub open spec fn int_text_val(s: Seq<char>) -> int {
    if s.len() > 0 && s[0] == '-' {
        -int_text_mag(s)
    } else {
        int_text_mag(s)
    }
}

/// Whether `s` is exactly the text of a 64-bit signed integer: integer text
/// whose value fits the type.
pub open spec fn parses_as_i64(s: Seq<char>) -> bool {
    is_int_text(s) && i64::MIN <= int_text_val(s) <= i64::MAX
}

proof fn lemma_digits_val_nonneg(s: Seq<char>)
    requires
        all_digits(s),
    ensures
        digits_val(s) >= 0,
    decreases s.len(),
{
    if s.len() > 0 {
        assert(all_digits(s.drop_last()));
        lemma_digits_val_nonneg(s.drop_last());
    }
}

/// Appending digits never shrinks the value of digit text.
proof fn lemma_digits_val_prefix_le(s: Seq<char>, i: int)
    requires
        all_digits(s),
        0 <= i <= s.len(),
    ensures
        digits_val(s.subrange(0, i)) <= digits_val(s),
    decreases s.len() - i,
{
    if i == s.len() {
        assert(s.subrange(0, i) =~= s);
    } else {
        let t = s.subrange(0, s.len() - 1);
        assert(t =~= s.drop_last());
        assert(all_digits(t));
        assert(t.subrange(0, i) =~= s.subrange(0, i));
        lemma_digits_val_prefix_le(t, i);
        lemma_digits_val_nonneg(t);
        assert(digits_val(s) == 10 * digits_val(t) + digit_val(s.last()));
        assert(digit_val(s.last()) >= 0);
    }
}

/// Parses decimal integer text exactly as the standard 64-bit signed parse
/// does: an optional sign, then one or more digits, rejecting anything else
/// and any value out of range.
pub fn parse_i64(s: &str) -> (r: Option<i64>)
    ensures
        r is Some ==> parses_as_i64(s@) && r->0 == int_text_val(s@),
        r is None ==> !parses_as_i64(s@),
{
    let n = s.unicode_len();
    if n == 0 {
        return None;
    }
    let c0 = s.get_char(0);
    let neg = c0 == '-';
    let has_sign = neg || c0 == '+';
    let start: usize = if has_sign {
        1
    } else {
        0
    };
    if start >= n {
        // a sign with no digits
        return None;
    }
    let ghost digits = s@.subrange(start as int, n as int);
    proof {
        if has_sign {
            assert(digits =~= s@.skip(1));
        } else {
            assert(digits =~= s@);
        }
    }
    // the negated value of the digits read so far; kept negative so that the
    // most negative 64-bit value is reachable without overflow
    let mut acc: i128 = 0;
    let mut i: usize = start;
    while i < n
        invariant
            start <= i <= n,
            n == s@.len(),
            start < n,
            has_sign == (s@[0] == '+' || s@[0] == '-'),
            has_sign ==> start == 1,
            !has_sign ==> start == 0,
            i64::MIN <= acc <= 0,
            all_digits(s@.subrange(start as int, i as int)),
            acc == -digits_val(s@.subrange(start as int, i as int)),
        decreases n - i,
    {
        let c = s.get_char(i);
        let u = c as u32;
        let ghost prefix = s@.subrange(start as int, i as int);
        let ghost whole = s@.subrange(start as int, n as int);
        proof {
            if has_sign {
                assert(whole =~= s@.skip(1));
            } else {
                assert(whole =~= s@);
            }
        }
        if u < 48 || u > 57 {
            proof {
                assert(!is_digit_char(s@[i as int]));
                assert(whole[i - start] == s@[i as int]);
                assert(!all_digits(whole));
                assert(!is_int_text(s@));
            }
            return None;
        }
        let d: i128 = (u - 48) as i128;
        let acc2: i128 = acc * 10 - d;
        proof {
            assert(s@.subrange(start as int, i + 1 as int) =~= prefix.push(s@[i as int]));
            assert(prefix.push(s@[i as int]).drop_last() =~= prefix);
            assert(all_digits(s@.subrange(start as int, i + 1 as int)));
        }
        if acc2 < i64::MIN as i128 {
            // the digits already exceed the 64-bit range, and further digits
            // can only grow the magnitude
            proof {
                if all_digits(whole) {
                    lemma_digits_val_prefix_le(whole, i + 1 - start);
                    assert(whole.subrange(0, i + 1 - start) =~= s@.subrange(
                        start as int,
                        i + 1 as int,
                    ));
                    assert(digits_val(whole) >= -acc2);
                    assert(int_text_mag(s@) == digits_val(whole));
                    assert(!parses_as_i64(s@));
                } else {
                    assert(!is_int_text(s@));
                }
            }
            return None;
        }
        acc = acc2;
        i = i + 1;
    }
    proof {
        assert(s@.subrange(start as int, n as int) =~= digits);
        assert(is_int_text(s@));
        assert(int_text_mag(s@) == -acc);
    }
    if neg {
        Some(acc as i64)
    } else {
        if acc < -(i64::MAX as i128) {
            proof {
                assert(int_text_val(s@) == -acc > i64::MAX);
            }
            return None;
        }
        Some((-acc) as i64)
    }
}

} // verus!
