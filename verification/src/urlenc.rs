//! Percent-encoding and -decoding of URL components, character by
//! character, with exact specifications.

use vstd::prelude::*;

use crate::strnum::push_char;

verus! {

/// Characters that stay bare in an encoded component (RFC 3986
/// unreserved: letters, digits, '-', '_', '.', '~').
pub open spec fn is_unreserved(c: char) -> bool {
    let v = c as int;
    (65 <= v <= 90) || (97 <= v <= 122) || (48 <= v <= 57) || c == '-' || c == '_' || c == '.'
        || c == '~'
}

/// Uppercase hexadecimal digit characters.
pub open spec fn hex_char(d: nat) -> char {
    if d < 10 {
        crate::strnum::digit_char(d)
    } else if d == 10 {
        'A'
    } else if d == 11 {
        'B'
    } else if d == 12 {
        'C'
    } else if d == 13 {
        'D'
    } else if d == 14 {
        'E'
    } else {
        'F'
    }
}

/// The UTF-8 bytes of one character.
pub open spec fn utf8_bytes(c: char) -> Seq<u8> {
    let v = c as int;
    if v < 0x80 {
        seq![v as u8]
    } else if v < 0x800 {
        seq![(0xC0 + v / 64) as u8, (0x80 + v % 64) as u8]
    } else if v < 0x10000 {
        seq![(0xE0 + v / 4096) as u8, (0x80 + (v / 64) % 64) as u8, (0x80 + v % 64) as u8]
    } else {
        seq![
            (0xF0 + v / 262144) as u8,
            (0x80 + (v / 4096) % 64) as u8,
            (0x80 + (v / 64) % 64) as u8,
            (0x80 + v % 64) as u8,
        ]
    }
}

/// `%XX` for one byte.
pub open spec fn pct_byte_chars(b: u8) -> Seq<char> {
    seq!['%', hex_char((b / 16) as nat), hex_char((b % 16) as nat)]
}

/// `%XX%XX...` for a byte string.
pub open spec fn pct_bytes_chars(bs: Seq<u8>) -> Seq<char>
    decreases bs.len(),
{
    if bs.len() == 0 {
        Seq::<char>::empty()
    } else {
        pct_bytes_chars(bs.drop_last()) + pct_byte_chars(bs.last())
    }
}

/// The encoding of one character: bare when unreserved, otherwise the
/// percent-encoded UTF-8 bytes.
pub open spec fn pct_encode_char(c: char) -> Seq<char> {
    if is_unreserved(c) {
        seq![c]
    } else {
        pct_bytes_chars(utf8_bytes(c))
    }
}

/// The percent-encoding of a component.
pub open spec fn spec_pct_encode(s: Seq<char>) -> Seq<char>
    decreases s.len(),
{
    if s.len() == 0 {
        Seq::<char>::empty()
    } else {
        spec_pct_encode(s.drop_last()) + pct_encode_char(s.last())
    }
}

fn hex_char_exec(d: u8) -> (c: char)
    requires
        d < 16,
    ensures
        c == hex_char(d as nat),
{
    match d {
        0 => '0',
        1 => '1',
        2 => '2',
        3 => '3',
        4 => '4',
        5 => '5',
        6 => '6',
        7 => '7',
        8 => '8',
        9 => '9',
        10 => 'A',
        11 => 'B',
        12 => 'C',
        13 => 'D',
        14 => 'E',
        _ => 'F',
    }
}

fn push_pct_byte(out: &mut String, b: u8)
    ensures
        final(out)@ == old(out)@ + pct_byte_chars(b),
{
    push_char(out, '%');
    push_char(out, hex_char_exec(b / 16));
    push_char(out, hex_char_exec(b % 16));
    proof {
        assert(out@ =~= old(out)@ + pct_byte_chars(b));
    }
}

fn is_unreserved_exec(c: char) -> (r: bool)
    ensures
        r == is_unreserved(c),
{
    let v = c as u32;
    (65 <= v && v <= 90) || (97 <= v && v <= 122) || (48 <= v && v <= 57) || c == '-' || c == '_'
        || c == '.' || c == '~'
}

/// Appends the encoding of one character.
fn push_encoded_char(out: &mut String, c: char)
    ensures
        final(out)@ == old(out)@ + pct_encode_char(c),
{
    if is_unreserved_exec(c) {
        push_char(out, c);
        proof {
            assert(out@ =~= old(out)@ + pct_encode_char(c));
        }
        return ;
    }
    let v = c as u32;
    if v < 0x80 {
        push_pct_byte(out, v as u8);
        proof {
            let bs = utf8_bytes(c);
            assert(bs =~= seq![(c as int) as u8]);
            assert(bs.drop_last() =~= Seq::<u8>::empty());
            assert(pct_bytes_chars(bs.drop_last()) =~= Seq::<char>::empty());
            assert(pct_bytes_chars(bs) =~= pct_byte_chars((c as int) as u8));
            assert(out@ =~= old(out)@ + pct_encode_char(c));
        }
    } else if v < 0x800 {
        let b0 = (0xC0 + v / 64) as u8;
        let b1 = (0x80 + v % 64) as u8;
        push_pct_byte(out, b0);
        push_pct_byte(out, b1);
        proof {
            let bs = utf8_bytes(c);
            assert(bs =~= seq![b0, b1]);
            assert(bs.drop_last() =~= seq![b0]);
            assert(seq![b0].drop_last() =~= Seq::<u8>::empty());
            assert(pct_bytes_chars(seq![b0].drop_last()) =~= Seq::<char>::empty());
            assert(pct_bytes_chars(seq![b0]) =~= pct_byte_chars(b0));
            assert(pct_bytes_chars(bs) =~= pct_byte_chars(b0) + pct_byte_chars(b1));
            assert(out@ =~= old(out)@ + pct_encode_char(c));
        }
    } else if v < 0x10000 {
        let b0 = (0xE0 + v / 4096) as u8;
        let b1 = (0x80 + (v / 64) % 64) as u8;
        let b2 = (0x80 + v % 64) as u8;
        push_pct_byte(out, b0);
        push_pct_byte(out, b1);
        push_pct_byte(out, b2);
        proof {
            let bs = utf8_bytes(c);
            assert(bs =~= seq![b0, b1, b2]);
            assert(bs.drop_last() =~= seq![b0, b1]);
            assert(seq![b0, b1].drop_last() =~= seq![b0]);
            assert(seq![b0].drop_last() =~= Seq::<u8>::empty());
            assert(pct_bytes_chars(seq![b0].drop_last()) =~= Seq::<char>::empty());
            assert(pct_bytes_chars(seq![b0]) =~= pct_byte_chars(b0));
            assert(pct_bytes_chars(seq![b0, b1]) =~= pct_byte_chars(b0) + pct_byte_chars(b1));
            assert(pct_bytes_chars(bs) =~= pct_byte_chars(b0) + pct_byte_chars(b1)
                + pct_byte_chars(b2));
            assert(out@ =~= old(out)@ + pct_encode_char(c));
        }
    } else {
        let b0 = (0xF0 + v / 262144) as u8;
        let b1 = (0x80 + (v / 4096) % 64) as u8;
        let b2 = (0x80 + (v / 64) % 64) as u8;
        let b3 = (0x80 + v % 64) as u8;
        push_pct_byte(out, b0);
        push_pct_byte(out, b1);
        push_pct_byte(out, b2);
        push_pct_byte(out, b3);
        proof {
            let bs = utf8_bytes(c);
            assert(bs =~= seq![b0, b1, b2, b3]);
            assert(bs.drop_last() =~= seq![b0, b1, b2]);
            assert(seq![b0, b1, b2].drop_last() =~= seq![b0, b1]);
            assert(seq![b0, b1].drop_last() =~= seq![b0]);
            assert(seq![b0].drop_last() =~= Seq::<u8>::empty());
            assert(pct_bytes_chars(seq![b0].drop_last()) =~= Seq::<char>::empty());
            assert(pct_bytes_chars(seq![b0]) =~= pct_byte_chars(b0));
            assert(pct_bytes_chars(seq![b0, b1]) =~= pct_byte_chars(b0) + pct_byte_chars(b1));
            assert(pct_bytes_chars(seq![b0, b1, b2]) =~= pct_byte_chars(b0) + pct_byte_chars(b1)
                + pct_byte_chars(b2));
            assert(pct_bytes_chars(bs) =~= pct_byte_chars(b0) + pct_byte_chars(b1)
                + pct_byte_chars(b2) + pct_byte_chars(b3));
            assert(out@ =~= old(out)@ + pct_encode_char(c));
        }
    }
}

/// Percent-encodes a component: unreserved characters stay, every other
/// character becomes the `%XX` form of its UTF-8 bytes.
pub fn pct_encode(s: &str) -> (r: String)
    ensures
        r@ == spec_pct_encode(s@),
{
    let len = s.unicode_len();
    let mut out = String::new();
    let mut i: usize = 0;
    proof {
        assert(out@ =~= spec_pct_encode(s@.subrange(0, 0)));
    }
    while i < len
        invariant
            i <= len,
            len == s@.len(),
            out@ == spec_pct_encode(s@.subrange(0, i as int)),
        decreases len - i,
    {
        let c = s.get_char(i);
        push_encoded_char(&mut out, c);
        proof {
            assert(s@.subrange(0, (i + 1) as int).drop_last() =~= s@.subrange(0, i as int));
        }
        i = i + 1;
    }
    proof {
        assert(s@.subrange(0, len as int) =~= s@);
    }
    out
}

/// Appends the percent-encoding of `s` to `out`.
pub fn append_encoded(out: &mut String, s: &str)
    ensures
        final(out)@ == old(out)@ + spec_pct_encode(s@),
{
    let enc = pct_encode(s);
    out.append(enc.as_str());
}

/// A hexadecimal digit (either case) and its value.
pub open spec fn is_hex_char(c: char) -> bool {
    let v = c as int;
    (48 <= v <= 57) || (65 <= v <= 70) || (97 <= v <= 102)
}

pub open spec fn hex_val(c: char) -> nat {
    let v = c as int;
    if 48 <= v <= 57 {
        (v - 48) as nat
    } else if 65 <= v <= 70 {
        (v - 55) as nat
    } else {
        (v - 87) as nat
    }
}

/// Percent-decoding at the character level: '+' becomes a space, a '%'
/// followed by two hexadecimal digits becomes the character with that code
/// (bytes of multi-byte encodings decode one by one), anything else stays.
pub open spec fn spec_pct_decode(s: Seq<char>) -> Seq<char>
    decreases s.len(),
{
    if s.len() == 0 {
        Seq::<char>::empty()
    } else if s[0] == '+' {
        seq![' '] + spec_pct_decode(s.drop_first())
    } else if s[0] == '%' && s.len() >= 3 && is_hex_char(s[1]) && is_hex_char(s[2]) {
        seq![((hex_val(s[1]) * 16 + hex_val(s[2])) as u8) as char] + spec_pct_decode(
            s.subrange(3, s.len() as int),
        )
    } else {
        seq![s[0]] + spec_pct_decode(s.drop_first())
    }
}

fn is_hex_exec(c: char) -> (r: bool)
    ensures
        r == is_hex_char(c),
{
    let v = c as u32;
    (48 <= v && v <= 57) || (65 <= v && v <= 70) || (97 <= v && v <= 102)
}

fn hex_val_exec(c: char) -> (r: u8)
    requires
        is_hex_char(c),
    ensures
        r == hex_val(c),
{
    let v = c as u32;
    if 48 <= v && v <= 57 {
        (v - 48) as u8
    } else if 65 <= v && v <= 70 {
        (v - 55) as u8
    } else {
        (v - 87) as u8
    }
}

/// Percent-decodes a component at the character level.
pub fn pct_decode(s: &str) -> (r: String)
    ensures
        r@ == spec_pct_decode(s@),
{
    let len = s.unicode_len();
    let mut out = String::new();
    let mut i: usize = 0;
    proof {
        assert(s@.subrange(0, len as int) =~= s@);
        assert(out@ + spec_pct_decode(s@) =~= spec_pct_decode(s@));
    }
    while i < len
        invariant
            i <= len,
            len == s@.len(),
            spec_pct_decode(s@) == out@ + spec_pct_decode(s@.subrange(i as int, len as int)),
        decreases len - i,
    {
        let ghost suffix = s@.subrange(i as int, len as int);
        let c = s.get_char(i);
        if c == '+' {
            push_char(&mut out, ' ');
            proof {
                assert(suffix.drop_first() =~= s@.subrange((i + 1) as int, len as int));
                assert(out@ + spec_pct_decode(s@.subrange((i + 1) as int, len as int))
                    =~= spec_pct_decode(s@));
            }
            i = i + 1;
        } else if c == '%' && len - i > 2 && is_hex_exec(s.get_char(i + 1)) && is_hex_exec(
            s.get_char(i + 2),
        ) {
            let h = hex_val_exec(s.get_char(i + 1));
            let l = hex_val_exec(s.get_char(i + 2));
            let b = h * 16 + l;
            push_char(&mut out, b as char);
            proof {
                assert(suffix.subrange(3, suffix.len() as int) =~= s@.subrange(
                    (i + 3) as int,
                    len as int,
                ));
                assert(out@ + spec_pct_decode(s@.subrange((i + 3) as int, len as int))
                    =~= spec_pct_decode(s@));
            }
            i = i + 3;
        } else {
            push_char(&mut out, c);
            proof {
                assert(suffix.drop_first() =~= s@.subrange((i + 1) as int, len as int));
                assert(out@ + spec_pct_decode(s@.subrange((i + 1) as int, len as int))
                    =~= spec_pct_decode(s@));
            }
            i = i + 1;
        }
    }
    proof {
        assert(s@.subrange(len as int, len as int) =~= Seq::<char>::empty());
        assert(out@ =~= spec_pct_decode(s@));
    }
    out
}

/// Character-wise equality of two strings.
pub fn str_eq(a: &str, b: &str) -> (r: bool)
    ensures
        r == (a@ == b@),
{
    let la = a.unicode_len();
    let lb = b.unicode_len();
    if la != lb {
        return false;
    }
    let mut i: usize = 0;
    while i < la
        invariant
            i <= la,
            la == a@.len(),
            la == b@.len(),
            forall|j: int| 0 <= j < i ==> a@[j] == b@[j],
        decreases la - i,
    {
        if a.get_char(i) != b.get_char(i) {
            return false;
        }
        i = i + 1;
    }
    proof {
        assert(a@ =~= b@);
    }
    true
}

} // verus!
