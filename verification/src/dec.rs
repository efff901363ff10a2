//! Decimal text for the 8-bit counter: emission and parsing.

use vstd::prelude::*;
use vstd::string::*;

verus! {

/// Whether a character is a decimal digit.
pub open spec fn is_digit(ch: char) -> bool {
    48 <= ch as u32 && ch as u32 <= 57
}

/// The digit character for a value from 0 to 9.
pub open spec fn digit_char(d: int) -> char {
    if d == 0 {
        '0'
    } else if d == 1 {
        '1'
    } else if d == 2 {
        '2'
    } else if d == 3 {
        '3'
    } else if d == 4 {
        '4'
    } else if d == 5 {
        '5'
    } else if d == 6 {
        '6'
    } else if d == 7 {
        '7'
    } else if d == 8 {
        '8'
    } else {
        '9'
    }
}

/// The value of a digit character.
pub open spec fn digit_val(ch: char) -> int {
    ch as u32 - 48
}

/// Whether every character of a text is a decimal digit.
pub open spec fn all_digits(s: Seq<char>) -> bool {
    forall|i: int| 0 <= i < s.len() ==> is_digit(#[trigger] s[i])
}

/// The number that a digit string denotes, most significant digit first.
pub open spec fn dec_val(s: Seq<char>) -> int
    decreases s.len(),
{
    if s.len() == 0 {
        0
    } else {
        dec_val(s.drop_last()) * 10 + digit_val(s.last())
    }
}

/// The decimal text of a counter value, without leading zeros.
pub open spec fn dec_chars(n: int) -> Seq<char>
    recommends
        0 <= n < 256,
{
    if n < 10 {
        seq![digit_char(n)]
    } else if n < 100 {
        seq![digit_char(n / 10), digit_char(n % 10)]
    } else {
        seq![digit_char(n / 100), digit_char((n / 10) % 10), digit_char(n % 10)]
    }
}

/// The digits that 8-bit decimal parsing reads: everything after an
/// optional leading `+` sign.
pub open spec fn digits_part(s: Seq<char>) -> Seq<char> {
    if s.len() > 0 && s[0] == '+' {
        s.drop_first()
    } else {
        s
    }
}

/// What parsing a text as a decimal 8-bit value yields: the denoted number
/// when the text is an optional `+` followed by one or more digits whose
/// value fits in 8 bits, and nothing otherwise.
pub open spec fn parse_u8_spec(s: Seq<char>) -> Option<u8> {
    let d = digits_part(s);
    if d.len() > 0 && all_digits(d) && dec_val(d) < 256 {
        Some(dec_val(d) as u8)
    } else {
        None
    }
}

/// A digit string denotes a number, never anything negative.
pub proof fn lemma_dec_val_nonneg(s: Seq<char>)
    requires
        all_digits(s),
    ensures
        dec_val(s) >= 0,
    decreases s.len(),
{
    if s.len() > 0 {
        assert(all_digits(s.drop_last()));
        lemma_dec_val_nonneg(s.drop_last());
        assert(is_digit(s.last()));
    }
}

/// A one-digit string denotes the value of its digit.
proof fn lemma_dec_val_singleton(c: char)
    ensures
        dec_val(seq![c]) == digit_val(c),
{
    assert(dec_val(Seq::<char>::empty()) == 0);
    assert(seq![c].drop_last() =~= Seq::<char>::empty());
    assert(seq![c].last() == c);
}

/// The value denoted by a digit string, capped at 256: what the running
/// accumulator of the parser holds.
spec fn capped_val(v: int) -> int {
    if v < 256 {
        v
    } else {
        256
    }
}

/// Parse a text as a decimal 8-bit value, as `parse_u8_spec` describes.
pub(crate) fn parse_u8(s: &str) -> (r: Option<u8>)
    ensures
        r == parse_u8_spec(s@),
{
    let n: usize = s.unicode_len();
    let mut start: usize = 0;
    if n > 0 && s.get_char(0) == '+' {
        start = 1;
    }
    let ghost d = digits_part(s@);
    assert(d =~= s@.subrange(start as int, n as int));
    if start >= n {
        assert(d.len() == 0);
        return None;
    }
    let mut acc: u32 = 0;
    let mut i: usize = start;
    while i < n
        invariant
            start <= i <= n,
            n == s@.len(),
            start <= 1,
            d == digits_part(s@),
            d =~= s@.subrange(start as int, n as int),
            all_digits(s@.subrange(start as int, i as int)),
            acc == capped_val(dec_val(s@.subrange(start as int, i as int))),
        decreases n - i,
    {
        let ch = s.get_char(i);
        let cv: u32 = ch as u32;
        if cv < 48 || cv > 57 {
            proof {
                assert(!is_digit(d[i - start]));
                assert(!all_digits(d));
            }
            return None;
        }
        let dv: u32 = cv - 48;
        proof {
            let pre = s@.subrange(start as int, i as int);
            let post = s@.subrange(start as int, i + 1 as int);
            assert(post.drop_last() =~= pre);
            assert(post.last() == s@[i as int]);
            assert(all_digits(post));
            lemma_dec_val_nonneg(pre);
        }
        let mut t: u32 = acc * 10 + dv;
        if t > 255 {
            t = 256;
        }
        acc = t;
        i = i + 1;
    }
    assert(all_digits(d));
    proof {
        lemma_dec_val_nonneg(d);
    }
    if acc > 255 {
        assert(dec_val(d) >= 256);
        return None;
    }
    Some(acc as u8)
}

/// The digit character of a value from 0 to 9, as a one-character text.
fn digit_str(dv: u8) -> (r: &'static str)
    requires
        dv < 10,
    ensures
        r@ == seq![digit_char(dv as int)],
{
    if dv == 0 {
        proof {
            reveal_strlit("0");
            assert("0"@ =~= seq![digit_char(0int)]);
        }
        "0"
    } else if dv == 1 {
        proof {
            reveal_strlit("1");
            assert("1"@ =~= seq![digit_char(1int)]);
        }
        "1"
    } else if dv == 2 {
        proof {
            reveal_strlit("2");
            assert("2"@ =~= seq![digit_char(2int)]);
        }
        "2"
    } else if dv == 3 {
        proof {
            reveal_strlit("3");
            assert("3"@ =~= seq![digit_char(3int)]);
        }
        "3"
    } else if dv == 4 {
        proof {
            reveal_strlit("4");
            assert("4"@ =~= seq![digit_char(4int)]);
        }
        "4"
    } else if dv == 5 {
        proof {
            reveal_strlit("5");
            assert("5"@ =~= seq![digit_char(5int)]);
        }
        "5"
    } else if dv == 6 {
        proof {
            reveal_strlit("6");
            assert("6"@ =~= seq![digit_char(6int)]);
        }
        "6"
    } else if dv == 7 {
        proof {
            reveal_strlit("7");
            assert("7"@ =~= seq![digit_char(7int)]);
        }
        "7"
    } else if dv == 8 {
        proof {
            reveal_strlit("8");
            assert("8"@ =~= seq![digit_char(8int)]);
        }
        "8"
    } else {
        proof {
            reveal_strlit("9");
            assert("9"@ =~= seq![digit_char(9int)]);
        }
        "9"
    }
}

/// Append the decimal text of a counter value to a string.
pub(crate) fn push_decimal(out: &mut String, n: u8)
    ensures
        final(out)@ == old(out)@ + dec_chars(n as int),
{
    let ghost start_chars = out@;
    if n >= 100 {
        out.append(digit_str(n / 100));
        out.append(digit_str((n / 10) % 10));
        out.append(digit_str(n % 10));
        assert(out@ =~= start_chars + dec_chars(n as int));
    } else if n >= 10 {
        out.append(digit_str(n / 10));
        out.append(digit_str(n % 10));
        assert(out@ =~= start_chars + dec_chars(n as int));
    } else {
        out.append(digit_str(n));
        assert(out@ =~= start_chars + dec_chars(n as int));
    }
}

/// The decimal text of a counter value parses back to that value, and is
/// made of digits alone: in particular it holds no `.` and no sign.
pub proof fn lemma_dec_chars_parse(n: int)
    requires
        0 <= n < 256,
    ensures
        parse_u8_spec(dec_chars(n)) == Some(n as u8),
        forall|i: int|
            0 <= i < dec_chars(n).len() ==> is_digit(#[trigger] dec_chars(n)[i]) && dec_chars(n)[i]
                != '.',
        dec_chars(n).len() > 0,
{
    let s = dec_chars(n);
    if n < 10 {
        assert(s =~= seq![digit_char(n)]);
        lemma_dec_val_singleton(digit_char(n));
        assert(digit_val(digit_char(n)) == n);
    } else if n < 100 {
        let hi = n / 10;
        let lo = n % 10;
        assert(hi * 10 + lo == n);
        assert(1 <= hi < 10 && 0 <= lo < 10);
        assert(s =~= seq![digit_char(hi), digit_char(lo)]);
        assert(s.drop_last() =~= seq![digit_char(hi)]);
        lemma_dec_val_singleton(digit_char(hi));
        assert(dec_val(s) == hi * 10 + lo);
    } else {
        let hi = n / 100;
        let mid = (n / 10) % 10;
        let lo = n % 10;
        assert((n / 10) / 10 == n / 100) by (nonlinear_arith)
            requires
                100 <= n < 256,
        ;
        assert((n / 10) * 10 + lo == n);
        assert(hi * 10 + mid == n / 10);
        assert(hi * 100 + mid * 10 + lo == n);
        assert(1 <= hi < 10 && 0 <= mid < 10 && 0 <= lo < 10);
        assert(s =~= seq![digit_char(hi), digit_char(mid), digit_char(lo)]);
        assert(s.drop_last() =~= seq![digit_char(hi), digit_char(mid)]);
        assert(seq![digit_char(hi), digit_char(mid)].drop_last() =~= seq![digit_char(hi)]);
        lemma_dec_val_singleton(digit_char(hi));
        assert(dec_val(seq![digit_char(hi), digit_char(mid)]) == hi * 10 + mid);
        assert(dec_val(s) == (hi * 10 + mid) * 10 + lo);
    }
    assert(digits_part(s) == s);
}

} // verus!
