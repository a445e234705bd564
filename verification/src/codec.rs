//! Byte-level encoding primitives shared by the ticket and frame codecs:
//! lowercase hexadecimal text and big-endian integer fields.

use vstd::prelude::*;

verus! {

/// The lowercase hexadecimal digit for a value below 16.
pub open spec fn hex_digit(v: int) -> char {
    if v == 0 {
        '0'
    } else if v == 1 {
        '1'
    } else if v == 2 {
        '2'
    } else if v == 3 {
        '3'
    } else if v == 4 {
        '4'
    } else if v == 5 {
        '5'
    } else if v == 6 {
        '6'
    } else if v == 7 {
        '7'
    } else if v == 8 {
        '8'
    } else if v == 9 {
        '9'
    } else if v == 10 {
        'a'
    } else if v == 11 {
        'b'
    } else if v == 12 {
        'c'
    } else if v == 13 {
        'd'
    } else if v == 14 {
        'e'
    } else {
        'f'
    }
}

/// The value of a hexadecimal digit character; 16 marks a character that is
/// no lowercase hexadecimal digit.
pub open spec fn hex_char_val(c: char) -> int {
    if c == '0' {
        0
    } else if c == '1' {
        1
    } else if c == '2' {
        2
    } else if c == '3' {
        3
    } else if c == '4' {
        4
    } else if c == '5' {
        5
    } else if c == '6' {
        6
    } else if c == '7' {
        7
    } else if c == '8' {
        8
    } else if c == '9' {
        9
    } else if c == 'a' {
        10
    } else if c == 'b' {
        11
    } else if c == 'c' {
        12
    } else if c == 'd' {
        13
    } else if c == 'e' {
        14
    } else if c == 'f' {
        15
    } else {
        16
    }
}

/// The lowercase hexadecimal text of a byte sequence, two digits per byte.
pub open spec fn hex_of(b: Seq<u8>) -> Seq<char>
    decreases b.len(),
{
    if b.len() == 0 {
        Seq::<char>::empty()
    } else {
        seq![hex_digit(b[0] as int / 16), hex_digit(b[0] as int % 16)] + hex_of(b.drop_first())
    }
}

/// The bytes denoted by a hexadecimal text, or `None` where the text has odd
/// length or a character that is no lowercase hexadecimal digit.
pub open spec fn parse_hex(s: Seq<char>) -> Option<Seq<u8>>
    decreases s.len(),
{
    if s.len() == 0 {
        Some(Seq::<u8>::empty())
    } else if s.len() == 1 {
        None
    } else {
        let hi = hex_char_val(s[0]);
        let lo = hex_char_val(s[1]);
        if hi < 16 && lo < 16 {
            match parse_hex(s.skip(2)) {
                Some(rest) => Some(seq![(hi * 16 + lo) as u8] + rest),
                None => None,
            }
        } else {
            None
        }
    }
}

pub proof fn lemma_hex_of_len(b: Seq<u8>)
    ensures
        hex_of(b).len() == 2 * b.len(),
    decreases b.len(),
{
    if b.len() > 0 {
        lemma_hex_of_len(b.drop_first());
    }
}

/// Appending one byte appends its two digits.
pub proof fn lemma_hex_of_push(b: Seq<u8>, x: u8)
    ensures
        hex_of(b.push(x)) == hex_of(b) + seq![
            hex_digit(x as int / 16),
            hex_digit(x as int % 16),
        ],
    decreases b.len(),
{
    if b.len() == 0 {
        let p = b.push(x);
        assert(p.len() == 1 && p[0] == x);
        assert(p.drop_first() =~= Seq::<u8>::empty());
        assert(hex_of(p) == seq![hex_digit(x as int / 16), hex_digit(x as int % 16)] + hex_of(
            p.drop_first(),
        ));
        assert(hex_of(b.push(x)) =~= hex_of(b) + seq![
            hex_digit(x as int / 16),
            hex_digit(x as int % 16),
        ]);
    } else {
        assert(b.push(x).drop_first() =~= b.drop_first().push(x));
        lemma_hex_of_push(b.drop_first(), x);
        assert(hex_of(b.push(x)) =~= hex_of(b) + seq![
            hex_digit(x as int / 16),
            hex_digit(x as int % 16),
        ]);
    }
}

/// Parsing a hexadecimal text that starts with the digits of `a` consumes
/// exactly those digits and parses the remainder.
pub proof fn lemma_parse_hex_concat(a: Seq<u8>, rest: Seq<char>)
    ensures
        parse_hex(hex_of(a) + rest) == match parse_hex(rest) {
            Some(b) => Some(a + b),
            None => None::<Seq<u8>>,
        },
    decreases a.len(),
{
    if a.len() == 0 {
        assert(hex_of(a) + rest =~= rest);
        if parse_hex(rest) is Some {
            assert(a + parse_hex(rest).unwrap() =~= parse_hex(rest).unwrap());
        }
    } else {
        let s = hex_of(a) + rest;
        let x = a[0];
        lemma_hex_of_len(a);
        assert(s.len() >= 2);
        assert(s[0] == hex_digit(x as int / 16));
        assert(s[1] == hex_digit(x as int % 16));
        lemma_hex_digit_val(x as int / 16);
        lemma_hex_digit_val(x as int % 16);
        assert(hex_char_val(s[0]) == x as int / 16);
        assert(hex_char_val(s[1]) == x as int % 16);
        assert((x as int / 16) * 16 + (x as int % 16) == x as int) by {
            vstd::arithmetic::div_mod::lemma_fundamental_div_mod(x as int, 16);
        }
        assert(s.skip(2) =~= hex_of(a.drop_first()) + rest);
        lemma_parse_hex_concat(a.drop_first(), rest);
        match parse_hex(rest) {
            Some(b) => {
                assert(parse_hex(s.skip(2)) == Some(a.drop_first() + b));
                assert(seq![x] + (a.drop_first() + b) =~= a + b);
            },
            None => {},
        }
    }
}

/// A hexadecimal digit's character denotes the value it was made from.
pub proof fn lemma_hex_digit_val(v: int)
    requires
        0 <= v < 16,
    ensures
        hex_char_val(hex_digit(v)) == v,
{
}

/// Hexadecimal text round-trips: parsing the text of `a` yields `a`.
pub proof fn lemma_parse_hex_of(a: Seq<u8>)
    ensures
        parse_hex(hex_of(a)) == Some(a),
{
    lemma_parse_hex_concat(a, Seq::<char>::empty());
    assert(hex_of(a) + Seq::<char>::empty() =~= hex_of(a));
    assert(a + Seq::<u8>::empty() =~= a);
}

/// A successful parse is canonical: the parsed bytes encode back to the text.
pub proof fn lemma_parse_hex_sound(s: Seq<char>)
    ensures
        parse_hex(s) matches Some(b) ==> hex_of(b) == s,
    decreases s.len(),
{
    if s.len() >= 2 {
        let hi = hex_char_val(s[0]);
        let lo = hex_char_val(s[1]);
        if hi < 16 && lo < 16 {
            lemma_parse_hex_sound(s.skip(2));
            match parse_hex(s.skip(2)) {
                Some(rest) => {
                    let x = (hi * 16 + lo) as u8;
                    let b = seq![x] + rest;
                    assert(b[0] == x);
                    assert(x as int / 16 == hi && x as int % 16 == lo) by {
                        vstd::arithmetic::div_mod::lemma_fundamental_div_mod_converse(
                            x as int,
                            16,
                            hi,
                            lo,
                        );
                    }
                    lemma_hex_digit_of_val(hi, s[0]);
                    lemma_hex_digit_of_val(lo, s[1]);
                    assert(b.drop_first() =~= rest);
                    assert(hex_of(b) =~= s);
                },
                None => {},
            }
        }
    }
}

/// A character with a digit value below 16 is that value's digit character.
pub proof fn lemma_hex_digit_of_val(v: int, c: char)
    requires
        hex_char_val(c) == v,
        0 <= v < 16,
    ensures
        hex_digit(v) == c,
{
}

/// The lowercase hexadecimal digit of a value below 16.
pub fn hex_digit_char(v: u8) -> (c: char)
    requires
        v < 16,
    ensures
        c == hex_digit(v as int),
{
    if v == 0 {
        '0'
    } else if v == 1 {
        '1'
    } else if v == 2 {
        '2'
    } else if v == 3 {
        '3'
    } else if v == 4 {
        '4'
    } else if v == 5 {
        '5'
    } else if v == 6 {
        '6'
    } else if v == 7 {
        '7'
    } else if v == 8 {
        '8'
    } else if v == 9 {
        '9'
    } else if v == 10 {
        'a'
    } else if v == 11 {
        'b'
    } else if v == 12 {
        'c'
    } else if v == 13 {
        'd'
    } else if v == 14 {
        'e'
    } else {
        'f'
    }
}

/// The value of a hexadecimal digit character; 16 for any other character.
pub fn hex_char_value(c: char) -> (v: u8)
    ensures
        v as int == hex_char_val(c),
{
    if c == '0' {
        0
    } else if c == '1' {
        1
    } else if c == '2' {
        2
    } else if c == '3' {
        3
    } else if c == '4' {
        4
    } else if c == '5' {
        5
    } else if c == '6' {
        6
    } else if c == '7' {
        7
    } else if c == '8' {
        8
    } else if c == '9' {
        9
    } else if c == 'a' {
        10
    } else if c == 'b' {
        11
    } else if c == 'c' {
        12
    } else if c == 'd' {
        13
    } else if c == 'e' {
        14
    } else if c == 'f' {
        15
    } else {
        16
    }
}

/// Relies on `String::push`: appends the given character at the end.
#[verifier::external_body]
pub(crate) fn push_char(s: &mut String, c: char)
    ensures
        final(s)@ == old(s)@.push(c),
{
    s.push(c);
}

/// Appends the lowercase hexadecimal text of `bytes` to `out`.
pub fn append_hex(out: &mut String, bytes: &Vec<u8>)
    ensures
        final(out)@ == old(out)@ + hex_of(bytes@),
{
    let mut i: usize = 0;
    while i < bytes.len()
        invariant
            i <= bytes.len(),
            out@ == old(out)@ + hex_of(bytes@.take(i as int)),
        decreases bytes.len() - i,
    {
        let b = bytes[i];
        push_char(out, hex_digit_char(b / 16));
        push_char(out, hex_digit_char(b % 16));
        proof {
            lemma_hex_of_push(bytes@.take(i as int), b);
            assert(bytes@.take(i as int).push(b) =~= bytes@.take(i as int + 1));
            assert(out@ =~= old(out)@ + hex_of(bytes@.take(i as int + 1)));
        }
        i = i + 1;
    }
    proof {
        assert(bytes@.take(bytes@.len() as int) =~= bytes@);
    }
}

/// The high byte of a 16-bit value in big-endian order.
pub open spec fn be16_hi(v: u16) -> u8 {
    (v / 256) as u8
}

/// The low byte of a 16-bit value in big-endian order.
pub open spec fn be16_lo(v: u16) -> u8 {
    (v % 256) as u8
}

/// The 16-bit value read from two bytes in big-endian order.
pub open spec fn be16(hi: u8, lo: u8) -> u16 {
    (hi as int * 256 + lo as int) as u16
}

pub proof fn lemma_be16_roundtrip(v: u16)
    ensures
        be16(be16_hi(v), be16_lo(v)) == v,
{
    vstd::arithmetic::div_mod::lemma_fundamental_div_mod(v as int, 256);
}

pub proof fn lemma_be16_split(hi: u8, lo: u8)
    ensures
        be16_hi(be16(hi, lo)) == hi,
        be16_lo(be16(hi, lo)) == lo,
{
    vstd::arithmetic::div_mod::lemma_fundamental_div_mod_converse(
        be16(hi, lo) as int,
        256,
        hi as int,
        lo as int,
    );
}

/// The 16-bit value read from two bytes in big-endian order.
pub fn join_be16(hi: u8, lo: u8) -> (v: u16)
    ensures
        v == be16(hi, lo),
{
    hi as u16 * 256 + lo as u16
}

/// The two big-endian bytes of a 16-bit value.
pub fn split_be16(v: u16) -> (r: (u8, u8))
    ensures
        r.0 == be16_hi(v),
        r.1 == be16_lo(v),
{
    ((v / 256) as u8, (v % 256) as u8)
}

} // verus!
