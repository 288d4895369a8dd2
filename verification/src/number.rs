//! Whole numbers in decimal notation.

use vstd::prelude::*;
use crate::lexis::is_digit;
use crate::text::{lemma_skip_more, lemma_skip_step};

verus! {

/// The value of a decimal digit.
pub open spec fn digit_value(c: char) -> int {
    if c == '1' {
        1
    } else if c == '2' {
        2
    } else if c == '3' {
        3
    } else if c == '4' {
        4
    } else if c == '5' {
        5
    } else if c == '6' {
        6
    } else if c == '7' {
        7
    } else if c == '8' {
        8
    } else if c == '9' {
        9
    } else {
        0
    }
}

/// The decimal digit for a value below ten.
pub open spec fn digit_char(d: int) -> char {
    if d == 1 {
        '1'
    } else if d == 2 {
        '2'
    } else if d == 3 {
        '3'
    } else if d == 4 {
        '4'
    } else if d == 5 {
        '5'
    } else if d == 6 {
        '6'
    } else if d == 7 {
        '7'
    } else if d == 8 {
        '8'
    } else if d == 9 {
        '9'
    } else {
        '0'
    }
}

/// The number that the digits `d` denote.
pub open spec fn number_of(d: Seq<char>) -> int
    decreases d.len(),
{
    if d.len() == 0 {
        0
    } else {
        number_of(d.drop_last()) * 10 + digit_value(d.last())
    }
}

/// The digits of `n`, without leading zeros.
pub open spec fn digits_of(n: nat) -> Seq<char>
    decreases n,
{
    if n < 10 {
        seq![digit_char(n as int)]
    } else {
        digits_of(n / 10).push(digit_char((n % 10) as int))
    }
}

/// The decimal notation of `n`.
pub open spec fn decimal(n: int) -> Seq<char> {
    if n < 0 {
        seq!['-'] + digits_of((-n) as nat)
    } else {
        digits_of(n as nat)
    }
}

/// The length of the longest prefix of `s` made of digits.
pub open spec fn digits_len(s: Seq<char>) -> nat
    decreases s.len(),
{
    if s.len() > 0 && is_digit(s[0]) {
        1 + digits_len(s.skip(1))
    } else {
        0
    }
}

/// Reads a whole number, with an optional minus sign: its value and what
/// follows its last digit. `None` where no digit stands there or the value
/// does not fit in 64 bits.
pub open spec fn read_int(s: Seq<char>) -> Option<(int, Seq<char>)> {
    let negative = s.len() > 0 && s[0] == '-';
    let body = if negative {
        s.skip(1)
    } else {
        s
    };
    let n = digits_len(body);
    let magnitude = number_of(body.take(n as int));
    let value = if negative {
        -magnitude
    } else {
        magnitude
    };
    if n == 0 || value < i64::MIN || value > i64::MAX {
        None
    } else {
        Some((value, body.skip(n as int)))
    }
}

/// Whether the text is made of digits alone.
pub open spec fn all_digits(d: Seq<char>) -> bool {
    forall|i: int| 0 <= i < d.len() ==> is_digit(#[trigger] d[i])
}

/// Whether a number would not run on into `s`.
pub open spec fn ends_number(s: Seq<char>) -> bool {
    s.len() == 0 || !is_digit(s[0])
}

/// A run of digits is no longer than the text it starts.
pub proof fn lemma_digits_len_bound(s: Seq<char>)
    ensures
        digits_len(s) <= s.len(),
    decreases s.len(),
{
    if s.len() > 0 && is_digit(s[0]) {
        lemma_digits_len_bound(s.skip(1));
    }
}

/// A run of digits in front of what ends a number is read whole, and no
/// further.
pub proof fn lemma_digits_len_of(d: Seq<char>, s: Seq<char>)
    requires
        all_digits(d),
        ends_number(s),
    ensures
        digits_len(d + s) == d.len(),
    decreases d.len(),
{
    if d.len() == 0 {
        assert(d + s =~= s);
    } else {
        assert((d + s)[0] == d[0]);
        assert((d + s).skip(1) =~= d.skip(1) + s);
        assert(all_digits(d.skip(1))) by {
            assert forall|i: int| 0 <= i < d.skip(1).len() implies is_digit(
                #[trigger] d.skip(1)[i],
            ) by {
                assert(d.skip(1)[i] == d[i + 1]);
            }
        }
        lemma_digits_len_of(d.skip(1), s);
    }
}

/// The digits of a number are digits, at least one, and denote the number.
pub proof fn lemma_digits_of(n: nat)
    ensures
        all_digits(digits_of(n)),
        digits_of(n).len() > 0,
        digits_of(n)[0] != '-',
        number_of(digits_of(n)) == n,
    decreases n,
{
    if n < 10 {
        let d = digits_of(n);
        assert(d.drop_last() =~= Seq::<char>::empty());
        assert(number_of(d.drop_last()) == 0);
    } else {
        lemma_digits_of(n / 10);
        let d = digits_of(n);
        assert(d.drop_last() =~= digits_of(n / 10));
        assert(d[0] == digits_of(n / 10)[0]);
    }
}

/// Reading the notation of a number that fits in 64 bits gives the number
/// back, and leaves what stood behind it.
pub proof fn lemma_decimal_roundtrip(n: int, rest: Seq<char>)
    requires
        i64::MIN <= n <= i64::MAX,
        ends_number(rest),
    ensures
        read_int(decimal(n) + rest) == Some((n, rest)),
{
    let m: nat = if n < 0 {
        (-n) as nat
    } else {
        n as nat
    };
    let d = digits_of(m);
    lemma_digits_of(m);
    lemma_digits_len_of(d, rest);
    let s = decimal(n) + rest;
    if n < 0 {
        assert(s[0] == '-');
        assert(s.skip(1) =~= d + rest);
    } else {
        assert(s[0] == d[0]);
        assert(s =~= d + rest);
    }
    assert((d + rest).take(d.len() as int) =~= d);
    assert((d + rest).skip(d.len() as int) =~= rest);
}

/// The value of the character as a decimal digit, if it is one.
pub(crate) fn digit(c: char) -> (r: Option<u8>)
    ensures
        r is Some == is_digit(c),
        r matches Some(d) ==> d == digit_value(c) && d <= 9,
{
    if c == '0' {
        Some(0)
    } else if c == '1' {
        Some(1)
    } else if c == '2' {
        Some(2)
    } else if c == '3' {
        Some(3)
    } else if c == '4' {
        Some(4)
    } else if c == '5' {
        Some(5)
    } else if c == '6' {
        Some(6)
    } else if c == '7' {
        Some(7)
    } else if c == '8' {
        Some(8)
    } else if c == '9' {
        Some(9)
    } else {
        None
    }
}

/// The decimal digit for `d`.
pub(crate) fn digit_for(d: u64) -> (c: char)
    requires
        d <= 9,
    ensures
        c == digit_char(d as int),
{
    if d == 1 {
        '1'
    } else if d == 2 {
        '2'
    } else if d == 3 {
        '3'
    } else if d == 4 {
        '4'
    } else if d == 5 {
        '5'
    } else if d == 6 {
        '6'
    } else if d == 7 {
        '7'
    } else if d == 8 {
        '8'
    } else if d == 9 {
        '9'
    } else {
        '0'
    }
}

/// Appends the digits of `n` to `out`.
pub(crate) fn push_digits(out: &mut Vec<char>, n: u64)
    ensures
        final(out)@ == old(out)@ + digits_of(n as nat),
    decreases n,
{
    let ghost before = out@;
    if n >= 10 {
        push_digits(out, n / 10);
    }
    out.push(digit_for(n % 10));
    assert(out@ =~= before + digits_of(n as nat));
}

/// Appends the decimal notation of `n` to `out`.
pub(crate) fn push_decimal(out: &mut Vec<char>, n: i64)
    ensures
        final(out)@ == old(out)@ + decimal(n as int),
{
    let ghost before = out@;
    if n < 0 {
        out.push('-');
        let m: u64 = if n == i64::MIN {
            9223372036854775808u64
        } else {
            (-n) as u64
        };
        push_digits(out, m);
        assert(out@ =~= before + decimal(n as int));
    } else {
        push_digits(out, n as u64);
    }
}

/// Reads a whole number at `pos`; on success its value and the position
/// behind its last digit.
pub(crate) fn scan_int(src: &Vec<char>, pos: usize) -> (r: Option<(i64, usize)>)
    requires
        pos <= src.len(),
    ensures
        match r {
            None => read_int(src@.skip(pos as int)) is None,
            Some((v, end)) => pos < end <= src.len() && read_int(src@.skip(pos as int)) == Some(
                (v as int, src@.skip(end as int)),
            ),
        },
{
    let negative = pos < src.len() && src[pos] == '-';
    let start: usize = if negative {
        pos + 1
    } else {
        pos
    };
    let ghost s = src@.skip(pos as int);
    let ghost body = src@.skip(start as int);
    proof {
        if pos < src.len() {
            lemma_skip_step(src@, pos as int);
        }
        assert(body == if s.len() > 0 && s[0] == '-' {
            s.skip(1)
        } else {
            s
        });
    }
    let limit: u128 = 9223372036854775808u128;
    let mut acc: u128 = 0;
    let mut over = false;
    let mut i: usize = start;
    assert(src@.subrange(start as int, start as int) =~= Seq::<char>::empty());
    while i < src.len() && digit(src[i]).is_some()
        invariant
            start <= i <= src.len(),
            limit == 9223372036854775808u128,
            (i - start) + digits_len(src@.skip(i as int)) == digits_len(body),
            body == src@.skip(start as int),
            !over ==> acc == number_of(src@.subrange(start as int, i as int)) && acc <= limit,
            over ==> number_of(src@.subrange(start as int, i as int)) > limit,
        decreases src.len() - i,
    {
        let d = digit(src[i]).unwrap();
        proof {
            lemma_skip_step(src@, i as int);
            let next = src@.subrange(start as int, i as int + 1);
            assert(next.drop_last() =~= src@.subrange(start as int, i as int));
            assert(next.last() == src@[i as int]);
        }
        if !over {
            let v: u128 = acc * 10 + d as u128;
            if v > limit {
                over = true;
            } else {
                acc = v;
            }
        }
        i += 1;
    }
    proof {
        if i < src.len() {
            lemma_skip_step(src@, i as int);
        }
        lemma_skip_more(src@, start as int, (i - start) as int);
    }
    if i == start || over {
        return None;
    }
    if negative {
        if acc == limit {
            Some((i64::MIN, i))
        } else {
            Some((-(acc as i64), i))
        }
    } else {
        if acc == limit {
            None
        } else {
            Some((acc as i64, i))
        }
    }
}

} // verus!
