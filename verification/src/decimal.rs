//! Decimal text: reading a port number the way `str::parse::<u16>` does,
//! and rendering a tally for the outcome reports.

use vstd::prelude::*;
use vstd::string::*;

verus! {

/// Whether `c` is an ASCII decimal digit.
pub open spec fn is_digit(c: char) -> bool {
    48 <= c as u32 && c as u32 <= 57
}

/// Every character of `s` is an ASCII decimal digit.
pub open spec fn all_digits(s: Seq<char>) -> bool {
    forall|i: int| 0 <= i < s.len() ==> is_digit(#[trigger] s[i])
}

/// The value of a digit string read in base ten.
pub open spec fn digits_val(s: Seq<char>) -> int
    decreases s.len(),
{
    if s.len() == 0 {
        0
    } else {
        digits_val(s.drop_last()) * 10 + (s.last() as u32 - 48)
    }
}

/// The number `str::parse::<u16>` reads from `s`: an optional leading plus
/// sign, then at least one decimal digit, the whole fitting in `u16`.
pub open spec fn parse_u16_spec(s: Seq<char>) -> Option<u16> {
    let body = if s.len() > 0 && s[0] == '+' {
        s.drop_first()
    } else {
        s
    };
    if body.len() > 0 && all_digits(body) && digits_val(body) <= u16::MAX {
        Some(digits_val(body) as u16)
    } else {
        None
    }
}

/// A digit string's value is never negative.
proof fn lemma_digits_val_nonneg(s: Seq<char>)
    requires
        all_digits(s),
    ensures
        digits_val(s) >= 0,
    decreases s.len(),
{
    if s.len() > 0 {
        assert(forall|i: int|
            0 <= i < s.drop_last().len() ==> is_digit(#[trigger] s.drop_last()[i]));
        lemma_digits_val_nonneg(s.drop_last());
        assert(is_digit(s.last()));
    }
}

/// Reading more digits never shrinks the value.
proof fn lemma_digits_val_mono(s: Seq<char>, k: int)
    requires
        all_digits(s),
        0 <= k <= s.len(),
    ensures
        digits_val(s) >= digits_val(s.take(k)),
    decreases s.len() - k,
{
    if k < s.len() {
        assert(s.take(k + 1).drop_last() =~= s.take(k));
        assert(s.take(k + 1).last() == s[k]);
        assert(forall|i: int|
            0 <= i < s.take(k).len() ==> is_digit(#[trigger] s.take(k)[i]));
        lemma_digits_val_nonneg(s.take(k));
        assert(is_digit(s[k]));
        assert(digits_val(s.take(k + 1)) >= digits_val(s.take(k)));
        lemma_digits_val_mono(s, k + 1);
    } else {
        assert(s.take(k) =~= s);
    }
}

/// Read a port number exactly as `str::parse::<u16>` accepts one: an
/// optional leading plus sign, then at least one decimal digit, the value
/// fitting in `u16`. Anything else is rejected.
pub fn parse_u16(s: &String) -> (r: Option<u16>)
    ensures
        r == parse_u16_spec(s@),
{
    let n = s.as_str().unicode_len();
    let mut start: usize = 0;
    if n > 0 && s.as_str().get_char(0) == '+' {
        start = 1;
    }
    let ghost body = if start == 1 { s@.drop_first() } else { s@ };
    if start >= n {
        proof {
            assert(body.len() == 0);
        }
        return None;
    }
    let mut value: u32 = 0;
    let mut i: usize = start;
    while i < n
        invariant
            start <= i <= n,
            start <= 1,
            n == s@.len(),
            start == 1 ==> s@.len() > 0 && s@[0] == '+',
            start == 0 ==> !(s@.len() > 0 && s@[0] == '+'),
            body == (if start == 1 { s@.drop_first() } else { s@ }),
            body.len() == n - start,
            forall|j: int| 0 <= j < i - start ==> is_digit(#[trigger] body[j]),
            value as int == digits_val(body.take(i - start)),
            value <= 65535,
        decreases n - i,
    {
        let c = s.as_str().get_char(i);
        let cv = c as u32;
        let ghost j = i - start;
        proof {
            assert(body[j] == s@[i as int]);
        }
        if cv < 48 || cv > 57 {
            proof {
                assert(!is_digit(body[j]));
                assert(!all_digits(body));
            }
            return None;
        }
        let d: u32 = cv - 48;
        value = value * 10 + d;
        proof {
            assert(body.take(j + 1).drop_last() =~= body.take(j));
            assert(body.take(j + 1).last() == body[j]);
            assert(value as int == digits_val(body.take(j + 1)));
        }
        if value > 65535 {
            proof {
                if all_digits(body) {
                    lemma_digits_val_mono(body, j + 1);
                }
            }
            return None;
        }
        i += 1;
    }
    proof {
        assert(body.take(n - start) =~= body);
        assert(all_digits(body));
        assert(body.len() > 0);
    }
    Some(value as u16)
}

/// The character of the decimal digit `d`.
pub open spec fn digit_char(d: int) -> char {
    ((d + 48) as u32) as char
}

/// The decimal rendering of `n`, most significant digit first, with no
/// leading zero except for zero itself.
pub open spec fn dec_str(n: int) -> Seq<char>
    decreases n,
{
    if n <= 9 {
        seq![digit_char(n)]
    } else {
        dec_str(n / 10).push(digit_char(n % 10))
    }
}

/// The decimal digit `d` as a one-character string.
fn digit_str(d: usize) -> (s: &'static str)
    requires
        d <= 9,
    ensures
        s@ =~= seq![digit_char(d as int)],
{
    if d == 0 {
        proof {
            reveal_strlit("0");
            vstd::utf8::char_u32_cast('0', 48u32);
        }
        "0"
    } else if d == 1 {
        proof {
            reveal_strlit("1");
            vstd::utf8::char_u32_cast('1', 49u32);
        }
        "1"
    } else if d == 2 {
        proof {
            reveal_strlit("2");
            vstd::utf8::char_u32_cast('2', 50u32);
        }
        "2"
    } else if d == 3 {
        proof {
            reveal_strlit("3");
            vstd::utf8::char_u32_cast('3', 51u32);
        }
        "3"
    } else if d == 4 {
        proof {
            reveal_strlit("4");
            vstd::utf8::char_u32_cast('4', 52u32);
        }
        "4"
    } else if d == 5 {
        proof {
            reveal_strlit("5");
            vstd::utf8::char_u32_cast('5', 53u32);
        }
        "5"
    } else if d == 6 {
        proof {
            reveal_strlit("6");
            vstd::utf8::char_u32_cast('6', 54u32);
        }
        "6"
    } else if d == 7 {
        proof {
            reveal_strlit("7");
            vstd::utf8::char_u32_cast('7', 55u32);
        }
        "7"
    } else if d == 8 {
        proof {
            reveal_strlit("8");
            vstd::utf8::char_u32_cast('8', 56u32);
        }
        "8"
    } else {
        proof {
            reveal_strlit("9");
            vstd::utf8::char_u32_cast('9', 57u32);
        }
        "9"
    }
}

/// Render `n` in decimal.
pub fn to_decimal(n: usize) -> (s: String)
    ensures
        s@ == dec_str(n as int),
    decreases n,
{
    if n <= 9 {
        String::from_str(digit_str(n))
    } else {
        let mut s = to_decimal(n / 10);
        s.append(digit_str(n % 10));
        proof {
            assert(s@ =~= dec_str(n as int));
        }
        s
    }
}

} // verus!
