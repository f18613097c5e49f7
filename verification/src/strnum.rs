//! Decimal rendering of unsigned and signed integers, with exact
//! character-level specifications.

use vstd::prelude::*;

verus! {

/// The character for one decimal digit.
pub open spec fn digit_char(d: nat) -> char {
    if d == 0 {
        '0'
    } else if d == 1 {
        '1'
    } else if d == 2 {
        '2'
    } else if d == 3 {
        '3'
    } else if d == 4 {
        '4'
    } else if d == 5 {
        '5'
    } else if d == 6 {
        '6'
    } else if d == 7 {
        '7'
    } else if d == 8 {
        '8'
    } else {
        '9'
    }
}

/// Decimal digits of `n`, most significant first, without leading zeros
/// (except that 0 renders as "0").
pub open spec fn spec_digits(n: nat) -> Seq<char>
    decreases n,
{
    if n < 10 {
        seq![digit_char(n)]
    } else {
        spec_digits(n / 10).push(digit_char(n % 10))
    }
}

/// Decimal digits of `n` in exactly `w` places, zero-padded on the left;
/// only the `w` least significant digits of `n` appear.
pub open spec fn spec_digits_padded(n: nat, w: nat) -> Seq<char>
    decreases w,
{
    if w == 0 {
        Seq::<char>::empty()
    } else {
        spec_digits_padded(n / 10, (w - 1) as nat).push(digit_char(n % 10))
    }
}

/// Digits of a signed value: a leading '-' for negatives.
pub open spec fn spec_int_str(n: int) -> Seq<char> {
    if n < 0 {
        seq!['-'] + spec_digits((-n) as nat)
    } else {
        spec_digits(n as nat)
    }
}

/// Relies on std's `String::push`: appends exactly one character.
#[verifier::external_body]
pub(crate) fn push_char(s: &mut String, c: char)
    ensures
        final(s)@ == old(s)@.push(c),
{
    s.push(c);
}

fn digit_to_char(d: u8) -> (c: char)
    requires
        d < 10,
    ensures
        c == digit_char(d as nat),
{
    match d {
        0 => '0',
        1 => '1',
        2 => '2',
        3 => '3',
        4 => '4',
        5 => '5',
        6 => '6',
        7 => '7',
        8 => '8',
        _ => '9',
    }
}

/// Renders `n` in decimal.
pub fn u128_to_string(n: u128) -> (r: String)
    ensures
        r@ == spec_digits(n as nat),
    decreases n,
{
    let d: u8 = (n % 10) as u8;
    if n < 10 {
        let mut s = String::new();
        push_char(&mut s, digit_to_char(d));
        proof {
            assert(s@ =~= spec_digits(n as nat));
        }
        s
    } else {
        let mut s = u128_to_string(n / 10);
        push_char(&mut s, digit_to_char(d));
        s
    }
}

/// Renders `n` in decimal.
pub fn u64_to_string(n: u64) -> (r: String)
    ensures
        r@ == spec_digits(n as nat),
{
    u128_to_string(n as u128)
}

/// Renders the `w` least significant decimal digits of `n`, zero-padded.
pub fn u128_to_string_padded(n: u128, w: usize) -> (r: String)
    ensures
        r@ == spec_digits_padded(n as nat, w as nat),
    decreases w,
{
    if w == 0 {
        let s = String::new();
        proof {
            assert(s@ =~= spec_digits_padded(n as nat, 0));
        }
        s
    } else {
        let d: u8 = (n % 10) as u8;
        let mut s = u128_to_string_padded(n / 10, w - 1);
        push_char(&mut s, digit_to_char(d));
        s
    }
}

/// Renders a signed value in decimal, with '-' for negatives.
pub fn i64_to_string(n: i64) -> (r: String)
    ensures
        r@ == spec_int_str(n as int),
{
    if n < 0 {
        let mag: i128 = -(n as i128);
        let mut s = String::new();
        push_char(&mut s, '-');
        let digits = u128_to_string(mag as u128);
        s.append(digits.as_str());
        proof {
            assert(s@ =~= spec_int_str(n as int));
        }
        s
    } else {
        u128_to_string(n as u128)
    }
}

/// Powers of ten.
pub open spec fn pow10(e: nat) -> nat
    decreases e,
{
    if e == 0 {
        1
    } else {
        10 * pow10((e - 1) as nat)
    }
}

pub proof fn lemma_pow10_pos(e: nat)
    ensures
        pow10(e) >= 1,
    decreases e,
{
    if e > 0 {
        lemma_pow10_pos((e - 1) as nat);
    }
}

pub proof fn lemma_pow10_monotone(a: nat, b: nat)
    requires
        a <= b,
    ensures
        pow10(a) <= pow10(b),
        pow10(a) >= 1,
    decreases b,
{
    lemma_pow10_pos(a);
    if a < b {
        lemma_pow10_monotone(a, (b - 1) as nat);
    }
}

/// A zero-padded rendering has exactly the requested width.
pub proof fn lemma_padded_len(n: nat, w: nat)
    ensures
        spec_digits_padded(n, w).len() == w,
    decreases w,
{
    if w > 0 {
        lemma_padded_len(n / 10, (w - 1) as nat);
    }
}

/// A number has at most `w` digits exactly when it is below `10^w`.
pub proof fn lemma_digits_len(n: nat, w: nat)
    requires
        w >= 1,
    ensures
        spec_digits(n).len() >= 1,
        spec_digits(n).len() <= w <==> n < pow10(w),
    decreases n,
{
    assert(pow10(1) == 10) by {
        reveal_with_fuel(pow10, 2);
    };
    lemma_pow10_monotone(1, w);
    if n < 10 {
    } else {
        if w == 1 {
            lemma_digits_len(n / 10, 1);
        } else {
            lemma_digits_len(n / 10, (w - 1) as nat);
            assert(n / 10 < pow10((w - 1) as nat) <==> n < pow10(w)) by {
                assert(pow10(w) == 10 * pow10((w - 1) as nat));
            };
        }
    }
}

/// Splitting a number as `q * 10^w + r` splits its digit string.
pub proof fn lemma_digits_concat(q: nat, r: nat, w: nat)
    requires
        q >= 1,
        r < pow10(w),
    ensures
        spec_digits(q * pow10(w) + r) == spec_digits(q) + spec_digits_padded(r, w),
    decreases w,
{
    if w == 0 {
        assert(q * pow10(0) + r == q);
        assert(spec_digits(q) + spec_digits_padded(r, 0) =~= spec_digits(q));
    } else {
        let m = q * pow10(w) + r;
        let p1 = pow10((w - 1) as nat);
        lemma_pow10_monotone(0, (w - 1) as nat);
        assert(pow10(w) == 10 * p1);
        assert(m == 10 * (q * p1 + r / 10) + (r % 10)) by {
            assert(q * pow10(w) == 10 * (q * p1)) by (nonlinear_arith)
                requires
                    pow10(w) == 10 * p1,
            ;
        };
        assert(q * p1 >= 1) by (nonlinear_arith)
            requires
                q >= 1,
                p1 >= 1,
        ;
        let a = q * p1 + r / 10;
        assert(m / 10 == a && m % 10 == r % 10) by {
            assert(m == 10 * a + (r % 10));
            assert(0 <= r % 10 < 10);
        };
        assert(m >= 10);
        assert(r / 10 < p1);
        lemma_digits_concat(q, r / 10, (w - 1) as nat);
        assert(spec_digits(m) == spec_digits(a).push(digit_char(r % 10)));
        assert((spec_digits(q) + spec_digits_padded(r / 10, (w - 1) as nat)).push(
            digit_char(r % 10),
        ) =~= spec_digits(q) + spec_digits_padded(r, w));
    }
}

/// A padded rendering is the plain rendering left-padded with zeros.
pub proof fn lemma_padded_split(n: nat, w: nat)
    requires
        spec_digits(n).len() <= w,
    ensures
        spec_digits_padded(n, w) == spec_digits_padded(0, (w - spec_digits(n).len()) as nat)
            + spec_digits(n),
    decreases n,
{
    let len = spec_digits(n).len();
    if n < 10 {
        assert(spec_digits_padded(n, w) == spec_digits_padded(0, (w - 1) as nat).push(
            digit_char(n),
        ));
        assert(spec_digits_padded(0, (w - 1) as nat).push(digit_char(n)) =~= spec_digits_padded(
            0,
            (w - 1) as nat,
        ) + spec_digits(n));
    } else {
        lemma_padded_split(n / 10, (w - 1) as nat);
        assert(spec_digits_padded(0, (w - len) as nat) + spec_digits(n / 10).push(
            digit_char(n % 10),
        ) =~= (spec_digits_padded(0, (w - len) as nat) + spec_digits(n / 10)).push(
            digit_char(n % 10),
        ));
    }
}

/// Renders a year as at least four digits, zero-padded, '-' for negatives.
pub open spec fn spec_year_str(y: int) -> Seq<char>
    decreases (if y < 0 { 1int } else { 0int }),
{
    if y < 0 {
        seq!['-'] + spec_year_str(-y)
    } else if y < 10000 {
        spec_digits_padded(y as nat, 4)
    } else {
        spec_digits(y as nat)
    }
}

/// Renders a year in at least four digits.
pub fn year_to_string(y: i32) -> (r: String)
    ensures
        r@ == spec_year_str(y as int),
{
    if y < 0 {
        let mag: i64 = -(y as i64);
        let mut s = String::new();
        push_char(&mut s, '-');
        let digits = year_to_string_nonneg(mag);
        s.append(digits.as_str());
        proof {
            assert(s@ =~= spec_year_str(y as int));
        }
        s
    } else {
        year_to_string_nonneg(y as i64)
    }
}

fn year_to_string_nonneg(y: i64) -> (r: String)
    requires
        0 <= y,
    ensures
        r@ == spec_year_str(y as int),
{
    if y < 10000 {
        u128_to_string_padded(y as u128, 4)
    } else {
        u128_to_string(y as u128)
    }
}

} // verus!
