//! Decimal numerals: parsing record fields the way the standard integer
//! parser does, and formatting amounts and codes for records and JSON.

use vstd::prelude::*;

verus! {

/// A decimal digit.
pub open spec fn is_digit(c: char) -> bool {
    ('0' as int) <= (c as int) <= ('9' as int)
}

/// The value of a decimal digit.
pub open spec fn digit_val(c: char) -> int {
    c as int - ('0' as int)
}

/// Whether every character is a decimal digit.
pub open spec fn all_digits(s: Seq<char>) -> bool {
    forall|i: int| 0 <= i < s.len() ==> is_digit(s[i])
}

/// The value of a sequence of decimal digits, most significant first.
pub open spec fn digits_val(s: Seq<char>) -> int
    decreases s.len(),
{
    if s.len() == 0 {
        0
    } else {
        digits_val(s.drop_last()) * 10 + digit_val(s.last())
    }
}

/// The digits of a numeral: what follows an optional leading plus sign.
pub open spec fn numeral_body(s: Seq<char>) -> Seq<char> {
    if s.len() > 0 && s[0] == '+' {
        s.drop_first()
    } else {
        s
    }
}

/// Whether the characters form an unsigned decimal numeral, as the standard
/// integer parser accepts: an optional plus sign followed by one or more
/// digits.
pub open spec fn is_numeral(s: Seq<char>) -> bool {
    numeral_body(s).len() > 0 && all_digits(numeral_body(s))
}

/// The value of a numeral.
pub open spec fn numeral_val(s: Seq<char>) -> int {
    digits_val(numeral_body(s))
}

pub proof fn lemma_digits_val_nonneg(s: Seq<char>)
    requires
        all_digits(s),
    ensures
        digits_val(s) >= 0,
    decreases s.len(),
{
    if s.len() > 0 {
        assert(forall|i: int| 0 <= i < s.drop_last().len() ==> s.drop_last()[i] == s[i]);
        lemma_digits_val_nonneg(s.drop_last());
    }
}

/// A digit prefix never exceeds the value of the whole digit string.
pub proof fn lemma_digits_val_take(s: Seq<char>, k: int)
    requires
        all_digits(s),
        0 <= k <= s.len(),
    ensures
        digits_val(s.take(k)) <= digits_val(s),
    decreases s.len(),
{
    if k == s.len() {
        assert(s.take(k) =~= s);
    } else {
        let d = s.drop_last();
        assert(forall|i: int| 0 <= i < d.len() ==> d[i] == s[i]);
        lemma_digits_val_take(d, k);
        assert(d.take(k) =~= s.take(k));
        lemma_digits_val_nonneg(d);
    }
}

/// Parses an unsigned decimal numeral into a `u16`, exactly as the standard
/// parser does: `Some` on a well-formed numeral whose value fits, `None`
/// otherwise.
pub fn parse_u16(s: &str) -> (r: Option<u16>)
    ensures
        is_numeral(s@) ==> numeral_val(s@) >= 0,
        is_numeral(s@) && numeral_val(s@) <= u16::MAX ==> r == Some(numeral_val(s@) as u16),
        !(is_numeral(s@) && numeral_val(s@) <= u16::MAX) ==> r is None,
{
    proof {
        if is_numeral(s@) {
            lemma_digits_val_nonneg(numeral_body(s@));
        }
    }
    let n = s.unicode_len();
    let mut start: usize = 0;
    if n > 0 && s.get_char(0) == '+' {
        start = 1;
    }
    proof {
        if start == 1 {
            assert(numeral_body(s@) =~= s@.skip(1));
        } else {
            assert(numeral_body(s@) =~= s@.skip(0));
            assert(s@.skip(0) =~= s@);
        }
    }
    if start == n {
        return None;
    }
    let ghost body = numeral_body(s@);
    let mut acc: u32 = 0;
    let mut j: usize = start;
    while j < n
        invariant
            n == s@.len(),
            start <= j <= n,
            start < n,
            body == numeral_body(s@),
            body == s@.skip(start as int),
            acc <= u16::MAX,
            all_digits(body.take(j - start)),
            acc == digits_val(body.take(j - start)),
        decreases n - j,
    {
        let c = s.get_char(j);
        let d = c as u32;
        proof {
            assert(body[j - start] == s@[j as int]);
        }
        if d < 48 || d > 57 {
            proof {
                assert(!is_digit(body[j - start]));
            }
            return None;
        }
        proof {
            let t = body.take(j - start + 1);
            assert(t.drop_last() =~= body.take(j - start));
            assert(t.last() == body[j - start]);
            assert(digit_val(body[j - start]) == d - 48);
        }
        acc = acc * 10 + (d - 48);
        j = j + 1;
        if acc > 65535 {
            proof {
                if all_digits(body) {
                    lemma_digits_val_take(body, j - start);
                    assert(body.take(j - start) =~= body.take((j - start) as int));
                    assert(numeral_val(s@) > u16::MAX);
                }
            }
            return None;
        }
    }
    proof {
        assert(body.take(n - start) =~= body);
    }
    Some(acc as u16)
}

/// The character of a decimal digit value.
pub open spec fn dec_digit(d: int) -> char {
    (48 + d) as char
}

/// The decimal numeral of a non-negative number, most significant digit
/// first, without leading zeros.
pub open spec fn dec_str(n: nat) -> Seq<char>
    decreases n,
{
    if n < 10 {
        seq![dec_digit(n as int)]
    } else {
        dec_str(n / 10) + seq![dec_digit((n % 10) as int)]
    }
}

/// The record text of an integer code: a minus sign for negative codes,
/// then the decimal numeral.
pub open spec fn code_str(c: int) -> Seq<char> {
    if c < 0 {
        seq!['-'] + dec_str((-c) as nat)
    } else {
        dec_str(c as nat)
    }
}

fn digit_str(d: u16) -> (r: &'static str)
    requires
        d < 10,
    ensures
        r@ == seq![dec_digit(d as int)],
{
    let r = match d {
        0 => "0",
        1 => "1",
        2 => "2",
        3 => "3",
        4 => "4",
        5 => "5",
        6 => "6",
        7 => "7",
        8 => "8",
        _ => "9",
    };
    proof {
        reveal_strlit("0");
        reveal_strlit("1");
        reveal_strlit("2");
        reveal_strlit("3");
        reveal_strlit("4");
        reveal_strlit("5");
        reveal_strlit("6");
        reveal_strlit("7");
        reveal_strlit("8");
        reveal_strlit("9");
        assert(r@ =~= seq![dec_digit(d as int)]);
    }
    r
}

/// Formats a number as its decimal numeral.
pub fn u16_to_string(n: u16) -> (r: String)
    ensures
        r@ == dec_str(n as nat),
    decreases n,
{
    if n < 10 {
        digit_str(n).to_owned()
    } else {
        let mut r = u16_to_string(n / 10);
        r.append(digit_str(n % 10));
        r
    }
}

/// Formats an integer code as record text.
pub fn code_to_string(c: i8) -> (r: String)
    ensures
        r@ == code_str(c as int),
{
    if c < 0 {
        let m: u16 = (-(c as i32)) as u16;
        let mut r = "-".to_owned();
        r.append(u16_to_string(m).as_str());
        proof {
            reveal_strlit("-");
            assert(r@ =~= code_str(c as int));
        }
        r
    } else {
        u16_to_string(c as u16)
    }
}

} // verus!
