//! Decimal rendering of integers, proved against a digit-by-digit
//! specification. Durations, identifiers and calendar fields are all
//! displayed through these functions.

use vstd::prelude::*;

use crate::text::string_from_chars;

verus! {

pub open spec fn digit_char(d: int) -> char {
    ((48 + d) as u8) as char
}

/// The decimal digits of `n`, most significant first, with no sign and no
/// leading zeros (`0` itself is the single digit `0`).
pub open spec fn dec_digits(n: nat) -> Seq<char>
    decreases n,
{
    if n < 10 {
        seq![digit_char(n as int)]
    } else {
        dec_digits(n / 10) + seq![digit_char((n % 10) as int)]
    }
}

/// The decimal form of a signed value: a leading `-` for negatives.
pub open spec fn dec_signed(n: int) -> Seq<char> {
    if n < 0 {
        seq!['-'] + dec_digits((-n) as nat)
    } else {
        dec_digits(n as nat)
    }
}

/// The decimal digits of `n`, left-padded with zeros to two places.
pub open spec fn dec_pad2(n: nat) -> Seq<char> {
    if n < 10 {
        seq!['0'] + dec_digits(n)
    } else {
        dec_digits(n)
    }
}

/// The decimal digits of `n`, left-padded with zeros to four places.
pub open spec fn dec_pad4(n: nat) -> Seq<char> {
    if n < 10 {
        seq!['0', '0', '0'] + dec_digits(n)
    } else if n < 100 {
        seq!['0', '0'] + dec_digits(n)
    } else if n < 1000 {
        seq!['0'] + dec_digits(n)
    } else {
        dec_digits(n)
    }
}

/// Small numbers have one digit below ten, two below one hundred.
pub proof fn lemma_dec_digits_len_small(n: nat)
    requires
        n < 100,
    ensures
        n < 10 ==> dec_digits(n).len() == 1,
        n >= 10 ==> dec_digits(n).len() == 2,
        dec_pad2(n).len() == 2,
{
    if n >= 10 {
        assert(dec_digits(n) == dec_digits(n / 10) + seq![digit_char((n % 10) as int)]);
        assert(n / 10 < 10);
    }
}

/// From one thousand up there are at least four digits.
pub proof fn lemma_dec_digits_len_ge4(n: nat)
    requires
        n >= 1000,
    ensures
        dec_digits(n).len() >= 4,
    decreases n,
{
    if n >= 10000 {
        lemma_dec_digits_len_ge4(n / 10);
    } else {
        lemma_dec_digits_len_small(n / 100);
        assert(dec_digits(n) == dec_digits(n / 10) + seq![digit_char((n % 10) as int)]);
        assert(dec_digits(n / 10) == dec_digits(n / 10 / 10) + seq![digit_char(
            ((n / 10) % 10) as int,
        )]);
        assert(n / 10 / 10 == n / 100);
    }
}

/// The zero-padded four-place form has at least four places.
pub proof fn lemma_dec_pad4_len(n: nat)
    ensures
        dec_pad4(n).len() >= 4,
{
    if n < 100 {
        lemma_dec_digits_len_small(n);
    } else if n < 1000 {
        assert(dec_digits(n) == dec_digits(n / 10) + seq![digit_char((n % 10) as int)]);
        lemma_dec_digits_len_small(n / 10);
    } else {
        lemma_dec_digits_len_ge4(n);
    }
}

/// The decimal digits of `n`, least significant last.
pub fn u64_dec_chars(n: u64) -> (r: Vec<char>)
    ensures
        r@ == dec_digits(n as nat),
{
    let mut rev: Vec<char> = Vec::new();
    let mut m: u64 = n;
    loop
        invariant_except_break
            m > 0 ==> dec_digits(n as nat) =~= dec_digits(m as nat) + rev@.reverse(),
            m == 0 ==> rev@.len() == 0 && n == 0,
        ensures
            dec_digits(n as nat) =~= rev@.reverse(),
        decreases m, (if rev@.len() == 0 { 1int } else { 0int }),
    {
        let d = (m % 10) as u8;
        let c = (48 + d) as char;
        proof {
            assert(c == digit_char((m as nat % 10) as int));
        }
        let ghost old_rev = rev@;
        let ghost old_m = m as nat;
        rev.push(c);
        m = m / 10;
        proof {
            assert(rev@.reverse() =~= seq![c] + old_rev.reverse());
            if old_m == 0 {
                assert(n == 0 && old_rev.len() == 0);
                assert(old_rev.reverse() =~= Seq::<char>::empty());
                assert(dec_digits(n as nat) =~= seq![c]);
                assert(rev@.reverse() =~= seq![c]);
            } else if old_m < 10 {
                assert(dec_digits(old_m) == seq![digit_char(old_m as int)]);
                assert(dec_digits(n as nat) =~= rev@.reverse());
            } else {
                assert(dec_digits(old_m) == dec_digits(old_m / 10) + seq![digit_char(
                    (old_m % 10) as int,
                )]);
                assert(dec_digits(n as nat) =~= dec_digits(m as nat) + rev@.reverse());
            }
        }
        if m == 0 {
            break;
        }
    }
    let mut out: Vec<char> = Vec::new();
    let total = rev.len();
    let mut j: usize = 0;
    while j < total
        invariant
            total == rev@.len(),
            j <= total,
            out@ =~= rev@.reverse().take(j as int),
        decreases total - j,
    {
        out.push(rev[total - 1 - j]);
        j = j + 1;
        proof {
            assert(out@ =~= rev@.reverse().take(j as int));
        }
    }
    proof {
        assert(rev@.reverse().take(total as int) =~= rev@.reverse());
    }
    out
}

/// `n` in decimal.
pub fn u64_to_string(n: u64) -> (r: String)
    ensures
        r@ == dec_digits(n as nat),
{
    let cs = u64_dec_chars(n);
    string_from_chars(&cs)
}

/// The decimal characters of a signed value.
pub fn i64_dec_chars(n: i64) -> (r: Vec<char>)
    ensures
        r@ == dec_signed(n as int),
{
    if n >= 0 {
        u64_dec_chars(n as u64)
    } else {
        let m: u64 = ((-(n + 1)) as u64) + 1;
        proof {
            assert(m as nat == (-(n as int)) as nat);
        }
        let digits = u64_dec_chars(m);
        let mut out: Vec<char> = Vec::new();
        out.push('-');
        let mut j: usize = 0;
        let total = digits.len();
        while j < total
            invariant
                total == digits@.len(),
                j <= total,
                out@ =~= seq!['-'] + digits@.take(j as int),
            decreases total - j,
        {
            out.push(digits[j]);
            j = j + 1;
            proof {
                assert(out@ =~= seq!['-'] + digits@.take(j as int));
            }
        }
        proof {
            assert(digits@.take(total as int) =~= digits@);
        }
        out
    }
}

/// `n` in decimal, with a leading `-` when negative.
pub fn i64_to_string(n: i64) -> (r: String)
    ensures
        r@ == dec_signed(n as int),
{
    let cs = i64_dec_chars(n);
    string_from_chars(&cs)
}

/// The decimal characters of `n`, zero-padded to two places.
pub fn u64_pad2_chars(n: u64) -> (r: Vec<char>)
    ensures
        r@ == dec_pad2(n as nat),
{
    let digits = u64_dec_chars(n);
    if n < 10 {
        let mut out: Vec<char> = Vec::new();
        out.push('0');
        out.push(digits[0]);
        proof {
            assert(digits@ =~= seq![digits@[0]]);
            assert(out@ =~= seq!['0'] + digits@);
        }
        out
    } else {
        digits
    }
}

/// The decimal characters of `n`, zero-padded to four places.
pub fn u64_pad4_chars(n: u64) -> (r: Vec<char>)
    ensures
        r@ == dec_pad4(n as nat),
{
    let digits = u64_dec_chars(n);
    let mut out: Vec<char> = Vec::new();
    if n < 10 {
        out.push('0');
        out.push('0');
        out.push('0');
    } else if n < 100 {
        out.push('0');
        out.push('0');
    } else if n < 1000 {
        out.push('0');
    }
    let ghost zeros = out@;
    let mut j: usize = 0;
    let total = digits.len();
    while j < total
        invariant
            total == digits@.len(),
            j <= total,
            out@ =~= zeros + digits@.take(j as int),
        decreases total - j,
    {
        out.push(digits[j]);
        j = j + 1;
        proof {
            assert(out@ =~= zeros + digits@.take(j as int));
        }
    }
    proof {
        assert(digits@.take(total as int) =~= digits@);
        assert(out@ =~= zeros + digits@);
    }
    out
}

} // verus!
