//! Decimal text, both directions: reading a non-negative integer from
//! text (the delete request's id parameter) and rendering one back
//! (ids in the HTML listing). Rendering then parsing gives the number
//! back.

use vstd::prelude::*;

verus! {

/// The character is a decimal digit.
pub open spec fn is_dec_digit(c: char) -> bool {
    48 <= c as u32 <= 57
}

/// The numeric value of a digit character.
pub open spec fn digit_val(c: char) -> nat {
    (c as u32 - 48) as nat
}

/// The digit character for a value below ten.
pub open spec fn digit_char(d: nat) -> char {
    if d == 0 {
        '0'
    } else if d == 1 {
        '1'
    } else if d == 2 {
        '2'
    } else if d == 3 {
        '3'
    } else if d == 4 {
        '4'
    } else if d == 5 {
        '5'
    } else if d == 6 {
        '6'
    } else if d == 7 {
        '7'
    } else if d == 8 {
        '8'
    } else {
        '9'
    }
}

/// The value of a digit string read left to right.
pub open spec fn dec_val(s: Seq<char>) -> nat
    decreases s.len(),
{
    if s.len() == 0 {
        0
    } else {
        dec_val(s.drop_last()) * 10 + digit_val(s.last())
    }
}

/// The decimal rendering of a number: most significant digit first,
/// no sign, no leading zeros (a lone zero for zero).
pub open spec fn dec_str(n: nat) -> Seq<char>
    decreases n,
{
    if n < 10 {
        seq![digit_char(n)]
    } else {
        dec_str(n / 10) + seq![digit_char(n % 10)]
    }
}

/// Every character is a decimal digit.
pub open spec fn all_dec_digits(s: Seq<char>) -> bool {
    forall|i: int| 0 <= i < s.len() ==> is_dec_digit(#[trigger] s[i])
}

/// The text with an optional leading plus sign stripped.
pub open spec fn digits_part(s: Seq<char>) -> Seq<char> {
    if s.len() > 0 && s[0] == '+' {
        s.subrange(1, s.len() as int)
    } else {
        s
    }
}

/// What `parse_u64` accepts, exactly as `u64` parsing does: an
/// optional leading plus sign, then one or more decimal digits whose
/// value fits in a `u64`. Anything else is rejected.
pub open spec fn parses_as_u64(s: Seq<char>) -> Option<u64> {
    if digits_part(s).len() > 0 && all_dec_digits(digits_part(s)) && dec_val(digits_part(s))
        <= u64::MAX {
        Some(dec_val(digits_part(s)) as u64)
    } else {
        None
    }
}

/// A longer digit string never has a smaller value: appending digits
/// multiplies and adds, and digit values are never negative.
proof fn lemma_dec_val_prefix_le(t: Seq<char>, s: Seq<char>)
    requires
        t.len() <= s.len(),
        forall|i: int| 0 <= i < t.len() ==> t[i] == s[i],
    ensures
        dec_val(t) <= dec_val(s),
    decreases s.len(),
{
    if s.len() > t.len() {
        let rest = s.drop_last();
        assert(forall|i: int| 0 <= i < rest.len() ==> rest[i] == s[i]);
        lemma_dec_val_prefix_le(t, rest);
    } else {
        assert(t =~= s);
    }
}

/// Parse a non-negative decimal integer, as `u64` text parsing does.
pub fn parse_u64(s: &str) -> (r: Option<u64>)
    ensures
        r == parses_as_u64(s@),
{
    let len = s.unicode_len();
    if len == 0 {
        return None;
    }
    let mut start: usize = 0;
    let c0 = s.get_char(0);
    if c0 == '+' {
        start = 1;
    }
    if start >= len {
        return None;
    }
    let ghost digits = digits_part(s@);
    proof {
        assert(digits =~= s@.subrange(start as int, len as int));
    }
    let mut acc: u64 = 0;
    let mut i: usize = start;
    while i < len
        invariant
            len == s@.len(),
            start <= i <= len,
            start <= 1,
            digits == s@.subrange(start as int, len as int),
            digits == digits_part(s@),
            digits.len() > 0,
            acc as nat == dec_val(s@.subrange(start as int, i as int)),
            forall|k: int| start <= k < i ==> is_dec_digit(#[trigger] s@[k]),
        decreases len - i,
    {
        proof {
            assert(s@.subrange(start as int, i as int + 1).drop_last() =~= s@.subrange(
                start as int,
                i as int,
            ));
            assert(s@.subrange(start as int, i as int + 1).last() == s@[i as int]);
        }
        let c = s.get_char(i);
        let v = c as u32;
        if v < 48 || v > 57 {
            proof {
                let bad: int = i as int - start as int;
                assert(0 <= bad < digits.len());
                assert(digits[bad] == s@[i as int]);
                assert(!is_dec_digit(digits[bad]));
                assert(!all_dec_digits(digits));
                assert(parses_as_u64(s@) is None);
            }
            return None;
        }
        let d = (v - 48) as u64;
        if acc > (u64::MAX - d) / 10 {
            proof {
                assert(acc * 10 + d > u64::MAX) by {
                    let lim = (u64::MAX - d) as int;
                    assert(acc as int * 10 > lim) by {
                        assert(acc as int > lim / 10);
                        assert(lim == 10 * (lim / 10) + lim % 10) by {
                            vstd::arithmetic::div_mod::lemma_fundamental_div_mod(lim, 10);
                        }
                        assert(lim % 10 < 10) by {
                            vstd::arithmetic::div_mod::lemma_mod_bound(lim, 10);
                        }
                    }
                }
                let t = s@.subrange(start as int, i as int + 1);
                assert(dec_val(t) == acc * 10 + d);
                lemma_dec_val_prefix_le(t, digits);
                assert(dec_val(digits) > u64::MAX);
            }
            return None;
        }
        proof {
            assert(acc * 10 + d <= u64::MAX) by {
                let lim = (u64::MAX - d) as int;
                assert(acc as int <= lim / 10);
                assert(acc as int * 10 <= lim) by {
                    assert(lim == 10 * (lim / 10) + lim % 10) by {
                        vstd::arithmetic::div_mod::lemma_fundamental_div_mod(lim, 10);
                    }
                    assert(lim % 10 >= 0) by {
                        vstd::arithmetic::div_mod::lemma_mod_bound(lim, 10);
                    }
                }
            }
        }
        acc = acc * 10 + d;
        i = i + 1;
    }
    proof {
        assert(s@.subrange(start as int, len as int) =~= digits);
        assert(forall|k: int| 0 <= k < digits.len() ==> is_dec_digit(#[trigger] digits[k]));
        assert(all_dec_digits(digits));
    }
    Some(acc)
}

/// Append one digit character to the text.
fn push_digit(s: &mut String, d: u64)
    requires
        d < 10,
    ensures
        final(s)@ == old(s)@ + seq![digit_char(d as nat)],
{
    if d == 0 {
        s.append("0");
        proof {
            reveal_strlit("0");
            assert(old(s)@ + "0"@ =~= old(s)@ + seq![digit_char(d as nat)]);
        }
    } else if d == 1 {
        s.append("1");
        proof {
            reveal_strlit("1");
            assert(old(s)@ + "1"@ =~= old(s)@ + seq![digit_char(d as nat)]);
        }
    } else if d == 2 {
        s.append("2");
        proof {
            reveal_strlit("2");
            assert(old(s)@ + "2"@ =~= old(s)@ + seq![digit_char(d as nat)]);
        }
    } else if d == 3 {
        s.append("3");
        proof {
            reveal_strlit("3");
            assert(old(s)@ + "3"@ =~= old(s)@ + seq![digit_char(d as nat)]);
        }
    } else if d == 4 {
        s.append("4");
        proof {
            reveal_strlit("4");
            assert(old(s)@ + "4"@ =~= old(s)@ + seq![digit_char(d as nat)]);
        }
    } else if d == 5 {
        s.append("5");
        proof {
            reveal_strlit("5");
            assert(old(s)@ + "5"@ =~= old(s)@ + seq![digit_char(d as nat)]);
        }
    } else if d == 6 {
        s.append("6");
        proof {
            reveal_strlit("6");
            assert(old(s)@ + "6"@ =~= old(s)@ + seq![digit_char(d as nat)]);
        }
    } else if d == 7 {
        s.append("7");
        proof {
            reveal_strlit("7");
            assert(old(s)@ + "7"@ =~= old(s)@ + seq![digit_char(d as nat)]);
        }
    } else if d == 8 {
        s.append("8");
        proof {
            reveal_strlit("8");
            assert(old(s)@ + "8"@ =~= old(s)@ + seq![digit_char(d as nat)]);
        }
    } else {
        s.append("9");
        proof {
            reveal_strlit("9");
            assert(old(s)@ + "9"@ =~= old(s)@ + seq![digit_char(d as nat)]);
        }
    }
}

/// Render a number as decimal text.
pub fn u64_to_string(n: u64) -> (r: String)
    ensures
        r@ == dec_str(n as nat),
    decreases n,
{
    if n < 10 {
        let mut s = String::new();
        push_digit(&mut s, n);
        proof {
            assert(Seq::<char>::empty() + seq![digit_char(n as nat)] =~= seq![
                digit_char(n as nat),
            ]);
        }
        s
    } else {
        let mut s = u64_to_string(n / 10);
        push_digit(&mut s, n % 10);
        s
    }
}

/// Every character of a decimal rendering is a digit (in particular,
/// the first one is no sign).
pub proof fn lemma_dec_str_digits(n: nat)
    ensures
        dec_str(n).len() > 0,
        forall|i: int| 0 <= i < dec_str(n).len() ==> is_dec_digit(#[trigger] dec_str(n)[i]),
    decreases n,
{
    if n >= 10 {
        lemma_dec_str_digits(n / 10);
    }
}

/// Reading a rendering back gives the number it came from.
proof fn lemma_dec_val_of_dec_str(n: nat)
    ensures
        dec_val(dec_str(n)) == n,
    decreases n,
{
    reveal_with_fuel(dec_val, 3);
    if n < 10 {
        assert(dec_str(n) == seq![digit_char(n)]);
        assert(dec_str(n).drop_last() =~= Seq::<char>::empty());
        assert(dec_str(n).last() == digit_char(n));
        assert(digit_val(digit_char(n)) == n);
        assert(dec_val(dec_str(n)) == dec_val(Seq::<char>::empty()) * 10 + digit_val(
            digit_char(n),
        ));
    } else {
        lemma_dec_val_of_dec_str(n / 10);
        let s = dec_str(n);
        assert(s.drop_last() =~= dec_str(n / 10));
        assert(s.last() == digit_char(n % 10));
        assert(digit_val(digit_char(n % 10)) == n % 10);
        vstd::arithmetic::div_mod::lemma_fundamental_div_mod(n as int, 10);
    }
}

/// Law (round trip): rendering a number and parsing the text back
/// yields the same number.
pub proof fn lemma_dec_round_trip(n: u64)
    ensures
        parses_as_u64(dec_str(n as nat)) == Some(n),
{
    lemma_dec_str_digits(n as nat);
    lemma_dec_val_of_dec_str(n as nat);
}

} // verus!
