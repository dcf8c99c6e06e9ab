//! Building decimal text: digit sequences and zero-padded numbers.
//!
//! These are used to render ISO date and date-time strings from their
//! numeric parts.
use vstd::prelude::*;

verus! {

/// The ASCII digit character for the value `d` (meaningful for 0..=9).
pub open spec fn digit_char(d: int) -> char {
    ((48 + d) as u8) as char
}

/// The decimal digit characters of `n`, empty for `n <= 0`.
pub open spec fn dec_digits_rec(n: int) -> Seq<char>
    decreases n,
{
    if n <= 0 {
        Seq::empty()
    } else {
        dec_digits_rec(n / 10).push(digit_char(n % 10))
    }
}

/// The decimal rendering of a nonnegative `n`, `"0"` for zero.
pub open spec fn dec_digits(n: int) -> Seq<char> {
    if n == 0 {
        seq!['0']
    } else {
        dec_digits_rec(n)
    }
}

/// `w` copies of the character `'0'`.
pub open spec fn zero_chars(w: int) -> Seq<char> {
    Seq::new(if w >= 0 { w as nat } else { 0 }, |i: int| '0')
}

/// The decimal rendering of `n`, left-padded with zeros to width `w`.
pub open spec fn padded(n: int, w: int) -> Seq<char> {
    zero_chars(w - dec_digits(n).len()) + dec_digits(n)
}

/// Relies on `String::push`: appends exactly the one given character.
#[verifier::external_body]
pub fn push_char(s: &mut String, c: char)
    ensures
        final(s)@ == old(s)@.push(c),
{
    s.push(c)
}

/// Appends the decimal digits of `n` (nothing for zero).
pub fn push_digits(s: &mut String, n: u64)
    ensures
        final(s)@ == old(s)@ + dec_digits_rec(n as int),
    decreases n,
{
    if n == 0 {
        proof {
            assert(s@ =~= s@ + dec_digits_rec(0));
        }
        return ;
    }
    push_digits(s, n / 10);
    let d: u8 = 48 + (n % 10) as u8;
    push_char(s, d as char);
    proof {
        assert(s@ =~= old(s)@ + dec_digits_rec(n as int));
    }
}

/// Ten to the power `k`.
pub open spec fn pow10(k: nat) -> int
    decreases k,
{
    if k == 0 {
        1
    } else {
        10 * pow10((k - 1) as nat)
    }
}

/// A value below ten to the `k` has at most `k` decimal digits.
proof fn lemma_digits_len_bound(n: int, k: nat)
    requires
        0 <= n < pow10(k),
    ensures
        dec_digits_rec(n).len() <= k,
    decreases k,
{
    if n > 0 {
        if k == 0 {
        } else {
            lemma_digits_len_bound(n / 10, (k - 1) as nat);
        }
    }
}

/// Appends the decimal rendering of `n`, left-padded with zeros to width `w`.
pub fn push_padded(s: &mut String, n: u64, w: usize)
    ensures
        final(s)@ == old(s)@ + padded(n as int, w as int),
{
    proof {
        reveal_with_fuel(pow10, 21);
        assert(n < pow10(20));
        lemma_digits_len_bound(n as int, 20);
    }
    let mut len: usize = 0;
    let mut m: u64 = n;
    while m > 0
        invariant
            len <= 20,
            dec_digits_rec(n as int).len() <= 20,
            dec_digits_rec(n as int).len() == len + dec_digits_rec(m as int).len(),
        decreases m,
    {
        m = m / 10;
        len = len + 1;
    }
    if n == 0 {
        len = 1;
    }
    proof {
        assert(dec_digits(n as int).len() == len);
    }
    let pad: usize = if w > len {
        w - len
    } else {
        0
    };
    let mut k: usize = 0;
    while k < pad
        invariant
            dec_digits(n as int).len() == len,
            k <= pad,
            s@ == old(s)@ + zero_chars(k as int),
        decreases pad - k,
    {
        push_char(s, '0');
        k = k + 1;
        proof {
            assert(zero_chars(k as int - 1).push('0') =~= zero_chars(k as int));
        }
    }
    proof {
        assert(zero_chars(k as int) =~= zero_chars(w - dec_digits(n as int).len()));
    }
    if n == 0 {
        push_char(s, '0');
        proof {
            assert(zero_chars(w - dec_digits(n as int).len()).push('0') =~= padded(
                n as int,
                w as int,
            ));
            assert(s@ =~= old(s)@ + padded(n as int, w as int));
        }
    } else {
        push_digits(s, n);
        proof {
            assert(s@ =~= old(s)@ + padded(n as int, w as int));
        }
    }
}

} // verus!
