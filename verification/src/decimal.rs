//! Exact decimal values and fixed-precision rendering.
//!
//! A price or volume is carried as a sign, an integer mantissa and a power
//! of ten, so that rendering at a configured number of decimal places is a
//! pure integer computation with an exact specification.

use vstd::arithmetic::div_mod::lemma_fundamental_div_mod;
use vstd::arithmetic::div_mod::lemma_small_mod;
use vstd::prelude::*;

use crate::strnum::lemma_digits_concat;
use crate::strnum::lemma_digits_len;
use crate::strnum::lemma_padded_len;
use crate::strnum::lemma_padded_split;
use crate::strnum::lemma_pow10_monotone;
use crate::strnum::lemma_pow10_pos;
use crate::strnum::pow10;
use crate::strnum::push_char;
use crate::strnum::spec_digits;
use crate::strnum::spec_digits_padded;
use crate::strnum::u128_to_string;

verus! {

/// Bound on the mantissa: fewer than 38 decimal digits.
pub open spec fn mant_limit() -> nat {
    pow10(37)
}

/// Bound on the magnitude of the power-of-ten exponent.
pub open spec fn exp_limit() -> int {
    8000
}

/// A decimal number: `(-1)^neg * mant * 10^exp`.
#[derive(Clone, Copy, Debug)]
pub struct Dec {
    pub neg: bool,
    pub mant: u128,
    pub exp: i32,
}

impl Dec {
    /// Mantissa and exponent small enough for rendering arithmetic.
    pub open spec fn wf(self) -> bool {
        self.mant < mant_limit() && -exp_limit() <= self.exp <= exp_limit()
    }

    /// The value scaled by 10^p and rounded to an integer magnitude,
    /// halves away from zero.
    pub open spec fn spec_scaled(self, p: nat) -> nat {
        let e = self.exp + p;
        if e >= 0 {
            (self.mant * pow10(e as nat)) as nat
        } else {
            ((self.mant + pow10((-e) as nat) / 2) as nat) / pow10((-e) as nat)
        }
    }
}

/// The rendering of magnitude `scaled / 10^p` with exactly `p` decimal
/// places and a '-' sign when `neg`.
pub open spec fn spec_fixed_chars(neg: bool, scaled: nat, p: nat) -> Seq<char> {
    let sign = if neg {
        seq!['-']
    } else {
        Seq::<char>::empty()
    };
    if p == 0 {
        sign + spec_digits(scaled)
    } else {
        sign + spec_digits(scaled / pow10(p)) + seq!['.'] + spec_digits_padded(
            scaled % pow10(p),
            p,
        )
    }
}

/// What `format_fixed` returns: the decimal rounded to `p` places,
/// rendered with exactly `p` digits after the point.
pub open spec fn spec_format_dec(d: Dec, p: nat) -> Seq<char> {
    spec_fixed_chars(d.neg, d.spec_scaled(p), p)
}

/// 10^e as a u128; `e` must keep it inside 128 bits.
fn pow10_u128(e: u32) -> (r: u128)
    requires
        e <= 38,
    ensures
        r == pow10(e as nat),
{
    proof {
        lemma_pow10_in_u128(e as nat);
    }
    let mut r: u128 = 1;
    let mut i: u32 = 0;
    while i < e
        invariant
            i <= e <= 38,
            r == pow10(i as nat),
        decreases e - i,
    {
        proof {
            lemma_pow10_monotone((i + 1) as nat, 38);
            lemma_pow10_in_u128(38);
        }
        r = r * 10;
        i = i + 1;
    }
    r
}

#[verifier::rlimit(50)]
proof fn lemma_pow10_in_u128(e: nat)
    requires
        e <= 38,
    ensures
        pow10(e) <= pow10(38),
        pow10(38) < u128::MAX,
        pow10(37) < i128::MAX,
{
    lemma_pow10_monotone(e, 38);
    assert(pow10(38) == 100000000000000000000000000000000000000) by {
        reveal_with_fuel(pow10, 39);
    };
}

/// Appends `w` zero characters.
fn append_zeros(s: &mut String, w: usize)
    ensures
        final(s)@ == old(s)@ + spec_digits_padded(0, w as nat),
{
    let mut i: usize = 0;
    while i < w
        invariant
            i <= w,
            s@ == old(s)@ + spec_digits_padded(0, i as nat),
        decreases w - i,
    {
        push_char(s, '0');
        proof {
            assert(old(s)@ + spec_digits_padded(0, (i + 1) as nat) =~= (old(s)@
                + spec_digits_padded(0, i as nat)).push('0'));
        }
        i = i + 1;
    }
}

/// Renders `scaled / 10^p` from the digit string of `scaled`, placing the
/// decimal point `p` digits from the right.
fn fixed_from_digit_string(neg: bool, digits: String, Ghost(scaled): Ghost<nat>, p: u8) -> (r:
    String)
    requires
        digits@ == spec_digits(scaled),
    ensures
        r@ == spec_fixed_chars(neg, scaled, p as nat),
{
    let mut out = String::new();
    if neg {
        push_char(&mut out, '-');
    }
    let ghost sign = out@;
    if p == 0 {
        out.append(digits.as_str());
        proof {
            assert(out@ =~= spec_fixed_chars(neg, scaled, 0));
        }
        return out;
    }
    let pn = p as usize;
    let len = digits.as_str().unicode_len();
    proof {
        lemma_digits_len(scaled, p as nat);
        lemma_pow10_pos(p as nat);
    }
    if len > pn {
        // scaled >= 10^p: split the digit string around the point.
        let ghost ip = scaled / pow10(p as nat);
        let ghost fp = scaled % pow10(p as nat);
        proof {
            lemma_fundamental_div_mod(scaled as int, pow10(p as nat) as int);
            vstd::arithmetic::div_mod::lemma_mod_bound(scaled as int, pow10(p as nat) as int);
            assert(scaled >= pow10(p as nat));
            if ip == 0 {
                assert(scaled == pow10(p as nat) * 0 + fp);
                assert(false);
            }
            assert(scaled == ip * pow10(p as nat) + fp) by (nonlinear_arith)
                requires
                    scaled as int == pow10(p as nat) as int * (scaled as int / pow10(
                        p as nat,
                    ) as int) + scaled as int % pow10(p as nat) as int,
                    ip == scaled / pow10(p as nat),
                    fp == scaled % pow10(p as nat),
            ;
            lemma_digits_concat(ip, fp, p as nat);
            lemma_padded_len(fp, p as nat);
            assert(digits@ == spec_digits(ip) + spec_digits_padded(fp, p as nat));
            assert(spec_digits(ip).len() == len - pn);
            assert(spec_digits(ip) =~= digits@.subrange(0, len - pn));
            assert(spec_digits_padded(fp, p as nat) =~= digits@.subrange(
                len - pn as int,
                len as int,
            ));
        }
        let ipart = digits.as_str().substring_char(0, len - pn);
        let fpart = digits.as_str().substring_char(len - pn, len);
        out.append(ipart);
        push_char(&mut out, '.');
        out.append(fpart);
        proof {
            assert(out@ =~= spec_fixed_chars(neg, scaled, p as nat));
        }
        out
    } else {
        // scaled < 10^p: integer part is 0, left-pad the fraction.
        proof {
            assert(scaled < pow10(p as nat));
            vstd::arithmetic::div_mod::lemma_basic_div(scaled as int, pow10(p as nat) as int);
            lemma_small_mod(scaled, pow10(p as nat));
            lemma_padded_split(scaled, p as nat);
        }
        push_char(&mut out, '0');
        push_char(&mut out, '.');
        append_zeros(&mut out, pn - len);
        out.append(digits.as_str());
        proof {
            assert(spec_digits(0nat) =~= seq!['0']);
            assert(out@ =~= sign + spec_digits(0nat) + seq!['.'] + spec_digits_padded(
                scaled,
                p as nat,
            ));
        }
        out
    }
}

/// Renders `d` with exactly `p` digits after the decimal point, rounding
/// halves away from zero.  The same value and precision always yield the
/// same characters: the result equals `spec_format_dec(d, p)`.
pub fn format_fixed(d: &Dec, p: u8) -> (r: String)
    requires
        d.wf(),
    ensures
        r@ == spec_format_dec(*d, p as nat),
{
    let e32: i32 = d.exp + p as i32;
    if d.mant == 0 {
        proof {
            lemma_zero_scaled(*d, p as nat);
        }
        let mut z = String::new();
        push_char(&mut z, '0');
        proof {
            assert(z@ =~= spec_digits(0nat));
        }
        fixed_from_digit_string(d.neg, z, Ghost(0nat), p)
    } else if e32 >= 0 {
        // scaled = mant * 10^e: digits of mant followed by e zeros.
        let e = e32 as usize;
        let ghost scaled = d.mant as nat * pow10(e as nat);
        proof {
            lemma_pow10_pos(e as nat);
            lemma_digits_concat(d.mant as nat, 0, e as nat);
        }
        let mut s = u128_to_string(d.mant);
        append_zeros(&mut s, e);
        fixed_from_digit_string(d.neg, s, Ghost(scaled), p)
    } else {
        let k32: i32 = -e32;
        if k32 > 38 {
            // The value rounds to zero at this precision.
            proof {
                lemma_tiny_scaled(*d, p as nat);
            }
            let mut z = String::new();
            push_char(&mut z, '0');
            proof {
                assert(z@ =~= spec_digits(0nat));
            }
            fixed_from_digit_string(d.neg, z, Ghost(0nat), p)
        } else {
            let k = k32 as u32;
            let powk = pow10_u128(k);
            proof {
                lemma_pow10_pos(k as nat);
                lemma_pow10_in_u128(k as nat);
                lemma_pow10_monotone(37, 38);
                assert(pow10(38) == 10 * pow10(37)) by {
                    lemma_pow10_monotone(37, 37);
                };
            }
            let scaled: u128 = (d.mant + powk / 2) / powk;
            proof {
                assert(scaled as nat == ((d.mant + pow10(k as nat) / 2) as nat) / pow10(
                    k as nat,
                ));
            }
            let s = u128_to_string(scaled);
            fixed_from_digit_string(d.neg, s, Ghost(scaled as nat), p)
        }
    }
}

/// A decimal digit.
pub open spec fn is_digit_char(c: char) -> bool {
    48 <= c as int <= 57
}

/// The numeric value of a digit character.
pub open spec fn digit_val(c: char) -> nat {
    (c as int - 48) as nat
}

/// The number written by a digit string (0 when empty).
pub open spec fn digits_val(s: Seq<char>) -> nat
    decreases s.len(),
{
    if s.len() == 0 {
        0
    } else {
        digits_val(s.drop_last()) * 10 + digit_val(s.last())
    }
}

/// How many consecutive digit characters stand at position `i` of `s`.
pub open spec fn digits_run_len(s: Seq<char>, i: int) -> int
    decreases s.len() - i,
{
    if i < 0 || i >= s.len() || !is_digit_char(s[i]) {
        0
    } else {
        1 + digits_run_len(s, i + 1)
    }
}

/// The decimal-literal grammar and its value: an optional sign, digits
/// with an optional fractional part (at least one digit in total), and an
/// optional `e`/`E` exponent with its own optional sign and mandatory
/// digits.  The value is `(negative, mantissa, power-of-ten exponent)`.
pub open spec fn spec_parse_dec(s: Seq<char>) -> Option<(bool, nat, int)> {
    let signed = s.len() > 0 && (s[0] == '+' || s[0] == '-');
    let neg = s.len() > 0 && s[0] == '-';
    let i0: int = if signed {
        1
    } else {
        0
    };
    let il = digits_run_len(s, i0);
    let has_dot = i0 + il < s.len() && s[i0 + il] == '.';
    let fstart = i0 + il + if has_dot {
        1int
    } else {
        0int
    };
    let fl = if has_dot {
        digits_run_len(s, fstart)
    } else {
        0int
    };
    if il + fl == 0 {
        None
    } else {
        let mant = digits_val(s.subrange(i0, i0 + il) + s.subrange(fstart, fstart + fl));
        let estart = fstart + fl;
        if estart == s.len() {
            Some((neg, mant, -fl))
        } else if s[estart] == 'e' || s[estart] == 'E' {
            let esigned = estart + 1 < s.len() && (s[estart + 1] == '+' || s[estart + 1] == '-');
            let eneg = estart + 1 < s.len() && s[estart + 1] == '-';
            let dstart = estart + 1 + if esigned {
                1int
            } else {
                0int
            };
            let el = digits_run_len(s, dstart);
            if el == 0 || dstart + el != s.len() {
                None
            } else {
                let ev = digits_val(s.subrange(dstart, dstart + el)) as int;
                Some((neg, mant, (if eneg {
                    -ev
                } else {
                    ev
                }) - fl))
            }
        } else {
            None
        }
    }
}

/// Appending a digit multiplies the value by ten and adds the digit.
pub proof fn lemma_digits_val_push(s: Seq<char>, c: char)
    ensures
        digits_val(s.push(c)) == digits_val(s) * 10 + digit_val(c),
{
    assert(s.push(c).drop_last() =~= s);
}

pub fn is_digit(c: char) -> (r: bool)
    ensures
        r == is_digit_char(c),
{
    let v = c as u32;
    48 <= v && v <= 57
}

/// Scans the run of digits starting at `start`.
fn scan_run(s: &str, start: usize) -> (end: usize)
    requires
        start <= s@.len(),
    ensures
        start <= end <= s@.len(),
        end - start == digits_run_len(s@, start as int),
        forall|i: int| start <= i < end ==> is_digit_char(s@[i]),
    decreases s@.len() - start,
{
    let len = s.unicode_len();
    let mut j = start;
    while j < len && is_digit(s.get_char(j))
        invariant
            start <= j <= len,
            len == s@.len(),
            digits_run_len(s@, start as int) == (j - start) + digits_run_len(s@, j as int),
            forall|i: int| start <= i < j ==> is_digit_char(s@[i]),
        decreases len - j,
    {
        j = j + 1;
    }
    j
}

/// Accumulates the value of the digits of `s` in `[from, to)` onto a value
/// already holding `digits_val(prefix)`; the second component reports that
/// the running value reached the mantissa limit.
fn digits_value_acc(
    s: &str,
    from: usize,
    to: usize,
    acc: u128,
    over_in: bool,
    Ghost(prefix): Ghost<Seq<char>>,
) -> (res: (u128, bool))
    requires
        from <= to <= s@.len(),
        forall|i: int| from <= i < to ==> is_digit_char(s@[i]),
        !over_in ==> acc == digits_val(prefix) && acc < mant_limit(),
        over_in ==> digits_val(prefix) >= mant_limit(),
    ensures
        ({
            let full = prefix + s@.subrange(from as int, to as int);
            &&& (!res.1 ==> res.0 == digits_val(full) && res.0 < mant_limit())
            &&& (res.1 ==> digits_val(full) >= mant_limit())
        }),
{
    let mut j = from;
    let mut m = acc;
    let mut over = over_in;
    proof {
        assert(prefix + s@.subrange(from as int, from as int) =~= prefix);
        lemma_pow10_in_u128(37);
    }
    while j < to
        invariant
            from <= j <= to <= s@.len(),
            forall|i: int| from <= i < to ==> is_digit_char(s@[i]),
            !over ==> m == digits_val(prefix + s@.subrange(from as int, j as int)) && m
                < mant_limit(),
            over ==> digits_val(prefix + s@.subrange(from as int, j as int)) >= mant_limit(),
            pow10(37) < u128::MAX,
        decreases to - j,
    {
        let c = s.get_char(j);
        let d = ((c as u32) - 48) as u8;
        let ghost cur = prefix + s@.subrange(from as int, j as int);
        proof {
            assert(is_digit_char(s@[j as int]));
            assert((prefix + s@.subrange(from as int, (j + 1) as int)) =~= cur.push(c));
            lemma_digits_val_push(cur, c);
        }
        if !over {
            proof {
                assert(pow10(38) == 10 * pow10(37));
                lemma_pow10_in_u128(38);
            }
            let m2 = m * 10 + d as u128;
            if m2 < pow10_u128(37) {
                m = m2;
            } else {
                over = true;
            }
        } else {
            proof {
                assert(digits_val(cur.push(c)) >= digits_val(cur));
            }
        }
        j = j + 1;
    }
    (m, over)
}

/// Parses a decimal literal (optional sign, digits with optional dot,
/// optional exponent).  Returns the value exactly when the string matches
/// the grammar of `spec_parse_dec` and mantissa and exponent fit the
/// representable bounds; rejects it otherwise.
#[verifier::rlimit(80)]
pub fn parse_decimal(s: &str) -> (r: Option<Dec>)
    ensures
        match spec_parse_dec(s@) {
            Option::None => r is None,
            Option::Some((n, m, e)) => if m < mant_limit() && -exp_limit() <= e <= exp_limit() {
                r matches Some(d) && d.neg == n && d.mant == m && d.exp == e && d.wf()
            } else {
                r is None
            },
        },
{
    let len = s.unicode_len();
    let mut neg = false;
    let mut i0: usize = 0;
    if len > 0 {
        let c0 = s.get_char(0);
        if c0 == '-' {
            neg = true;
            i0 = 1;
        } else if c0 == '+' {
            i0 = 1;
        }
    }
    let j1 = scan_run(s, i0);
    let has_dot = j1 < len && s.get_char(j1) == '.';
    let fstart = if has_dot {
        j1 + 1
    } else {
        j1
    };
    let j2 = if has_dot {
        scan_run(s, fstart)
    } else {
        fstart
    };
    if j1 == i0 && j2 == fstart {
        return None;
    }
    let ghost intd = s@.subrange(i0 as int, j1 as int);
    let ghost fracd = s@.subrange(fstart as int, j2 as int);
    proof {
        lemma_pow10_pos(37);
        assert(Seq::<char>::empty() + intd =~= intd);
    }
    let (m1, o1) = digits_value_acc(s, i0, j1, 0, false, Ghost(Seq::<char>::empty()));
    let (m2, o2) = digits_value_acc(s, fstart, j2, m1, o1, Ghost(intd));
    let fl = j2 - fstart;
    let estart = j2;
    let mut ev: u128 = 0;
    if estart < len {
        let ce = s.get_char(estart);
        if !(ce == 'e' || ce == 'E') {
            return None;
        }
        let mut eneg = false;
        let mut dstart = estart + 1;
        if estart + 1 < len {
            let cs = s.get_char(estart + 1);
            if cs == '-' {
                eneg = true;
                dstart = estart + 2;
            } else if cs == '+' {
                dstart = estart + 2;
            }
        }
        let j3 = scan_run(s, dstart);
        if j3 == dstart || j3 != len {
            return None;
        }
        proof {
            assert(Seq::<char>::empty() + s@.subrange(dstart as int, j3 as int) =~= s@.subrange(
                dstart as int,
                j3 as int,
            ));
        }
        let (evv, oe) = digits_value_acc(s, dstart, j3, 0, false, Ghost(Seq::<char>::empty()));
        if oe {
            // The exponent value is at least 10^37, far beyond the bound.
            proof {
                assert(pow10(30) == 1000000000000000000000000000000) by {
                    reveal_with_fuel(pow10, 31);
                };
                lemma_pow10_monotone(30, 37);
                let fl_s = (j2 - fstart) as int;
                assert(fl_s <= usize::MAX);
                assert(digits_val(s@.subrange(dstart as int, j3 as int)) - fl_s > exp_limit());
            }
            return None;
        }
        ev = evv;
        proof {
            lemma_pow10_in_u128(37);
        }
        if eneg {
            let e_final: i128 = -(ev as i128) - fl as i128;
            return finish_parse(neg, m2, o2, e_final, Ghost(s@));
        }
    }
    let e_final: i128 = ev as i128 - fl as i128;
    finish_parse(neg, m2, o2, e_final, Ghost(s@))
}

/// Final range checks shared by the exponent branches of `parse_decimal`.
fn finish_parse(neg: bool, mant: u128, over: bool, e_final: i128, Ghost(s): Ghost<Seq<char>>) -> (r:
    Option<Dec>)
    requires
        spec_parse_dec(s) matches Some((n, m, e)) && n == neg && e == e_final && (!over ==> mant
            == m && m < mant_limit()) && (over ==> m >= mant_limit()),
    ensures
        match spec_parse_dec(s) {
            Option::None => r is None,
            Option::Some((n, m, e)) => if m < mant_limit() && -exp_limit() <= e <= exp_limit() {
                r matches Some(d) && d.neg == n && d.mant == m && d.exp == e && d.wf()
            } else {
                r is None
            },
        },
{
    if over {
        return None;
    }
    if e_final < -8000 || e_final > 8000 {
        return None;
    }
    Some(Dec { neg, mant, exp: e_final as i32 })
}

proof fn lemma_zero_scaled(d: Dec, p: nat)
    requires
        d.mant == 0,
    ensures
        d.spec_scaled(p) == 0,
{
    let e = d.exp + p;
    if e >= 0 {
    } else {
        let k = (-e) as nat;
        lemma_pow10_pos(k);
        lemma_small_mod(0, pow10(k));
        assert(pow10(k) / 2 < pow10(k));
        vstd::arithmetic::div_mod::lemma_basic_div((pow10(k) / 2) as int, pow10(k) as int);
    }
}

proof fn lemma_tiny_scaled(d: Dec, p: nat)
    requires
        d.wf(),
        d.exp + p < 0,
        -(d.exp + p) > 38,
    ensures
        d.spec_scaled(p) == 0,
{
    let k = (-(d.exp + p)) as nat;
    lemma_pow10_pos((k - 1) as nat);
    lemma_pow10_monotone(38, (k - 1) as nat);
    lemma_pow10_monotone(37, (k - 1) as nat);
    assert(pow10(k) == 10 * pow10((k - 1) as nat));
    assert(pow10(k) / 2 == 5 * pow10((k - 1) as nat));
    assert(d.mant + pow10(k) / 2 < pow10(k));
    vstd::arithmetic::div_mod::lemma_basic_div((d.mant + pow10(k) / 2) as int, pow10(k) as int);
}

} // verus!
