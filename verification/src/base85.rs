use vstd::prelude::*;
use vstd::arithmetic::div_mod::{
    lemma_div_denominator, lemma_div_is_ordered, lemma_fundamental_div_mod,
    lemma_fundamental_div_mod_converse,
};

verus! {

/// ASCII whitespace, which the decoder skips between symbols.
pub open spec fn is_ascii_space(c: char) -> bool {
    c == ' ' || c == '\t' || c == '\n' || c == '\x0c' || c == '\r'
}

pub fn is_ascii_space_char(c: char) -> (r: bool)
    ensures
        r == is_ascii_space(c),
{
    c == ' ' || c == '\t' || c == '\n' || c == '\x0c' || c == '\r'
}

/// Value of a symbol in the base-85 alphabet (digits, uppercase, lowercase,
/// then punctuation), or -1 when the character is not a symbol.
#[verifier::opaque]
pub open spec fn digit_of(c: char) -> int {
    let u = c as u32;
    if 48 <= u && u <= 57 {
        u - 48
    } else if 65 <= u && u <= 90 {
        u - 55
    } else if 97 <= u && u <= 122 {
        u - 61
    } else if u == 33 {
        62
    } else if u == 35 {
        63
    } else if u == 36 {
        64
    } else if u == 37 {
        65
    } else if u == 38 {
        66
    } else if u == 40 {
        67
    } else if u == 41 {
        68
    } else if u == 42 {
        69
    } else if u == 43 {
        70
    } else if u == 45 {
        71
    } else if u == 59 {
        72
    } else if u == 60 {
        73
    } else if u == 61 {
        74
    } else if u == 62 {
        75
    } else if u == 63 {
        76
    } else if u == 64 {
        77
    } else if u == 94 {
        78
    } else if u == 95 {
        79
    } else if u == 96 {
        80
    } else if u == 123 {
        81
    } else if u == 124 {
        82
    } else if u == 125 {
        83
    } else if u == 126 {
        84
    } else {
        -1
    }
}

/// The symbol standing for a value in 0..85, inverse of `digit_of`.
#[verifier::opaque]
pub open spec fn char_for(d: int) -> char {
    if 0 <= d && d < 10 {
        ((48 + d) as u32) as char
    } else if 10 <= d && d < 36 {
        ((55 + d) as u32) as char
    } else if 36 <= d && d < 62 {
        ((61 + d) as u32) as char
    } else if d == 62 {
        '!'
    } else if d == 63 {
        '#'
    } else if d == 64 {
        '$'
    } else if d == 65 {
        '%'
    } else if d == 66 {
        '&'
    } else if d == 67 {
        '('
    } else if d == 68 {
        ')'
    } else if d == 69 {
        '*'
    } else if d == 70 {
        '+'
    } else if d == 71 {
        '-'
    } else if d == 72 {
        ';'
    } else if d == 73 {
        '<'
    } else if d == 74 {
        '='
    } else if d == 75 {
        '>'
    } else if d == 76 {
        '?'
    } else if d == 77 {
        '@'
    } else if d == 78 {
        '^'
    } else if d == 79 {
        '_'
    } else if d == 80 {
        '`'
    } else if d == 81 {
        '{'
    } else if d == 82 {
        '|'
    } else if d == 83 {
        '}'
    } else {
        '~'
    }
}

/// The symbol of each value decodes back to that value, and no symbol is
/// whitespace.
pub proof fn lemma_char_for_digit(d: int)
    requires
        0 <= d < 85,
    ensures
        digit_of(char_for(d)) == d,
        !is_ascii_space(char_for(d)),
{
    reveal(digit_of);
    reveal(char_for);
}

/// Look a character up in the alphabet.
pub fn digit_value(c: char) -> (r: Option<u8>)
    ensures
        match r {
            Some(d) => digit_of(c) == d as int && d < 85,
            None => digit_of(c) == -1,
        },
{
    proof {
        reveal(digit_of);
    }
    let u = c as u32;
    if 48 <= u && u <= 57 {
        Some((u - 48) as u8)
    } else if 65 <= u && u <= 90 {
        Some((u - 55) as u8)
    } else if 97 <= u && u <= 122 {
        Some((u - 61) as u8)
    } else if u == 33 {
        Some(62)
    } else if u == 35 {
        Some(63)
    } else if u == 36 {
        Some(64)
    } else if u == 37 {
        Some(65)
    } else if u == 38 {
        Some(66)
    } else if u == 40 {
        Some(67)
    } else if u == 41 {
        Some(68)
    } else if u == 42 {
        Some(69)
    } else if u == 43 {
        Some(70)
    } else if u == 45 {
        Some(71)
    } else if u == 59 {
        Some(72)
    } else if u == 60 {
        Some(73)
    } else if u == 61 {
        Some(74)
    } else if u == 62 {
        Some(75)
    } else if u == 63 {
        Some(76)
    } else if u == 64 {
        Some(77)
    } else if u == 94 {
        Some(78)
    } else if u == 95 {
        Some(79)
    } else if u == 96 {
        Some(80)
    } else if u == 123 {
        Some(81)
    } else if u == 124 {
        Some(82)
    } else if u == 125 {
        Some(83)
    } else if u == 126 {
        Some(84)
    } else {
        None
    }
}

/// The symbol of a value in 0..85.
pub fn symbol_for(d: u8) -> (c: char)
    requires
        d < 85,
    ensures
        c == char_for(d as int),
{
    proof {
        reveal(char_for);
    }
    if d < 10 {
        (48 + d) as char
    } else if d < 36 {
        (55 + d) as char
    } else if d < 62 {
        (61 + d) as char
    } else if d == 62 {
        '!'
    } else if d == 63 {
        '#'
    } else if d == 64 {
        '$'
    } else if d == 65 {
        '%'
    } else if d == 66 {
        '&'
    } else if d == 67 {
        '('
    } else if d == 68 {
        ')'
    } else if d == 69 {
        '*'
    } else if d == 70 {
        '+'
    } else if d == 71 {
        '-'
    } else if d == 72 {
        ';'
    } else if d == 73 {
        '<'
    } else if d == 74 {
        '='
    } else if d == 75 {
        '>'
    } else if d == 76 {
        '?'
    } else if d == 77 {
        '@'
    } else if d == 78 {
        '^'
    } else if d == 79 {
        '_'
    } else if d == 80 {
        '`'
    } else if d == 81 {
        '{'
    } else if d == 82 {
        '|'
    } else if d == 83 {
        '}'
    } else {
        '~'
    }
}

/// Powers of 85 up to the fifth, the group size of the encoding.
pub open spec fn pow85(k: int) -> int {
    if k <= 0 {
        1
    } else if k == 1 {
        85
    } else if k == 2 {
        7225
    } else if k == 3 {
        614125
    } else if k == 4 {
        52200625
    } else {
        4437053125
    }
}

/// The four bytes of a 32-bit group value, big-endian.
pub open spec fn be_bytes4(v: int) -> Seq<u8> {
    seq![
        ((v / 0x1000000) % 256) as u8,
        ((v / 0x10000) % 256) as u8,
        ((v / 0x100) % 256) as u8,
        (v % 256) as u8,
    ]
}

/// A partial accumulator of `count` symbols padded with copies of the
/// greatest symbol value until five symbols are reached.
pub open spec fn padded(acc: int, count: int) -> int {
    acc * pow85(5 - count) + (pow85(5 - count) - 1)
}

/// One step of decoding: consume the text from the front, carrying the
/// accumulator and the number of symbols gathered in the current group.
/// Whitespace is skipped; a symbol outside the alphabet, or a group value
/// beyond 32 bits, rejects the whole text.  A final partial group is padded
/// and yields one byte fewer than it has symbols.
pub open spec fn decode_from(s: Seq<char>, acc: int, count: int) -> Option<Seq<u8>>
    decreases s.len(),
{
    if s.len() == 0 {
        if count == 0 {
            Some(Seq::empty())
        } else {
            let v = padded(acc, count);
            if v > 0xFFFFFFFF {
                None
            } else {
                Some(be_bytes4(v).take(count - 1))
            }
        }
    } else {
        let c = s[0];
        let rest = s.drop_first();
        if is_ascii_space(c) {
            decode_from(rest, acc, count)
        } else if digit_of(c) < 0 {
            None
        } else {
            let acc2 = acc * 85 + digit_of(c);
            if count == 4 {
                if acc2 > 0xFFFFFFFF {
                    None
                } else {
                    match decode_from(rest, 0, 0) {
                        None => None,
                        Some(tail) => Some(be_bytes4(acc2) + tail),
                    }
                }
            } else {
                decode_from(rest, acc2, count + 1)
            }
        }
    }
}

/// The base-85 decoding of a whole text, if the text is well formed.
pub open spec fn b85_decode_spec(s: Seq<char>) -> Option<Seq<u8>> {
    decode_from(s, 0, 0)
}

/// Decode a text in the RFC 1924-alphabet base-85 variant: groups of five
/// symbols become four big-endian bytes; a final partial group is padded with
/// the greatest symbol and yields one byte fewer than it has symbols.
pub fn decode_base85_rfc1924(input: &str) -> (r: Option<Vec<u8>>)
    ensures
        match r {
            Some(v) => b85_decode_spec(input@) == Some(v@),
            None => b85_decode_spec(input@) is None,
        },
{
    let cs = crate::text::chars_of(input);
    decode_b85_chars(&cs)
}

/// Decode a character sequence in the RFC 1924-alphabet base-85 variant.
pub fn decode_b85_chars(cs: &Vec<char>) -> (r: Option<Vec<u8>>)
    ensures
        match r {
            Some(v) => b85_decode_spec(cs@) == Some(v@),
            None => b85_decode_spec(cs@) is None,
        },
{
    let mut out: Vec<u8> = Vec::new();
    let mut acc: u64 = 0;
    let mut count: usize = 0;
    let mut i: usize = 0;
    proof {
        assert(cs@.skip(0) =~= cs@);
        if let Some(rest) = decode_from(cs@, 0, 0) {
            assert(Seq::<u8>::empty() + rest =~= rest);
        }
    }
    while i < cs.len()
        invariant
            i <= cs@.len(),
            count <= 4,
            acc < pow85(count as int),
            match decode_from(cs@.skip(i as int), acc as int, count as int) {
                None => b85_decode_spec(cs@) is None,
                Some(rest) => b85_decode_spec(cs@) == Some(out@ + rest),
            },
        decreases cs@.len() - i,
    {
        let c = cs[i];
        proof {
            assert(cs@.skip(i as int)[0] == c);
            assert(cs@.skip(i as int).drop_first() =~= cs@.skip(i + 1));
        }
        match digit_value(c) {
            None => {
                if is_ascii_space_char(c) {
                    i += 1;
                } else {
                    return None;
                }
            },
            Some(d) => {
                proof {
                    reveal(digit_of);
                    assert(!is_ascii_space(c));
                    assert(pow85(count as int) <= 52200625);
                }
                let acc2: u64 = acc * 85 + (d as u64);
                if count == 4 {
                    if acc2 > 0xFFFFFFFF {
                        return None;
                    }
                    out.push(((acc2 / 0x1000000) % 256) as u8);
                    out.push(((acc2 / 0x10000) % 256) as u8);
                    out.push(((acc2 / 0x100) % 256) as u8);
                    out.push((acc2 % 256) as u8);
                    proof {
                        assert(out@.drop_last().drop_last().drop_last().drop_last() + be_bytes4(
                            acc2 as int,
                        ) =~= out@);
                    }
                    acc = 0;
                    count = 0;
                } else {
                    acc = acc2;
                    count = count + 1;
                }
                i += 1;
            },
        }
    }
    proof {
        assert(cs@.skip(i as int) =~= Seq::<char>::empty());
    }
    if count == 0 {
        proof {
            assert(out@ + Seq::<u8>::empty() =~= out@);
        }
        return Some(out);
    }
    let pad: u64 = if count == 1 {
        52200625
    } else if count == 2 {
        614125
    } else if count == 3 {
        7225
    } else {
        85
    };
    let val: u64 = acc * pad + (pad - 1);
    proof {
        assert(val == padded(acc as int, count as int));
    }
    if val > 0xFFFFFFFF {
        return None;
    }
    let ghost pre = out@;
    if count > 1 {
        out.push(((val / 0x1000000) % 256) as u8);
    }
    if count > 2 {
        out.push(((val / 0x10000) % 256) as u8);
    }
    if count > 3 {
        out.push(((val / 0x100) % 256) as u8);
    }
    proof {
        assert(out@ =~= pre + be_bytes4(val as int).take(count - 1));
    }
    Some(out)
}

/// Big-endian 32-bit value of four bytes.
pub open spec fn be_val4(b: Seq<u8>) -> int {
    b[0] * 0x1000000 + b[1] * 0x10000 + b[2] * 0x100 + b[3]
}

/// The value of a short tail, zero-padded at the low end to four bytes.
pub open spec fn tail_val(b: Seq<u8>) -> int {
    if b.len() == 1 {
        b[0] * 0x1000000
    } else if b.len() == 2 {
        b[0] * 0x1000000 + b[1] * 0x10000
    } else {
        b[0] * 0x1000000 + b[1] * 0x10000 + b[2] * 0x100
    }
}

/// The five symbols of a 32-bit group value, most significant digit first.
pub open spec fn group_chars(v: int) -> Seq<char> {
    seq![
        char_for((v / 52200625) % 85),
        char_for((v / 614125) % 85),
        char_for((v / 7225) % 85),
        char_for((v / 85) % 85),
        char_for(v % 85),
    ]
}

/// The encoding: each four-byte group becomes five symbols; a tail of m
/// bytes, zero-padded to a full group, becomes that group's first m+1
/// symbols.
pub open spec fn b85_encode_spec(b: Seq<u8>) -> Seq<char>
    decreases b.len(),
{
    if b.len() >= 4 {
        group_chars(be_val4(b.take(4))) + b85_encode_spec(b.skip(4))
    } else if b.len() == 0 {
        Seq::empty()
    } else {
        group_chars(tail_val(b)).take(b.len() as int + 1)
    }
}

/// The base-85 digits of a 32-bit value form a chain of quotients: each
/// quotient is eighty-five times the next coarser one plus the next digit.
proof fn lemma_digit_chain(v: int)
    requires
        0 <= v <= 0xFFFFFFFF,
    ensures
        0 <= v / 52200625 < 85,
        v / 52200625 == (v / 52200625) % 85,
        v / 614125 == (v / 52200625) * 85 + (v / 614125) % 85,
        v / 7225 == (v / 614125) * 85 + (v / 7225) % 85,
        v / 85 == (v / 7225) * 85 + (v / 85) % 85,
        v == (v / 85) * 85 + v % 85,
        v / 614125 >= 0,
        v / 7225 >= 0,
        v / 85 >= 0,
{
    lemma_div_is_ordered(0, v, 52200625);
    lemma_div_is_ordered(0, v, 614125);
    lemma_div_is_ordered(0, v, 7225);
    lemma_div_is_ordered(0, v, 85);
    lemma_div_is_ordered(v, 0xFFFFFFFF, 52200625);
    assert(0xFFFFFFFFint / 52200625 == 82) by {
        lemma_fundamental_div_mod_converse(0xFFFFFFFF, 52200625, 82, 14516045);
    }
    lemma_fundamental_div_mod_converse(v / 52200625, 85, 0, v / 52200625);
    lemma_div_denominator(v, 614125, 85);
    lemma_fundamental_div_mod(v / 614125, 85);
    lemma_div_denominator(v, 7225, 85);
    lemma_fundamental_div_mod(v / 7225, 85);
    lemma_div_denominator(v, 85, 85);
    lemma_fundamental_div_mod(v / 85, 85);
    lemma_fundamental_div_mod(v, 85);
}

/// One accumulating step of the decoder, on a text whose first character is
/// a symbol of the alphabet.
proof fn lemma_decode_step(s: Seq<char>, acc: int, count: int)
    requires
        s.len() >= 1,
        digit_of(s[0]) >= 0,
        0 <= count < 4,
    ensures
        decode_from(s, acc, count) == decode_from(
            s.drop_first(),
            acc * 85 + digit_of(s[0]),
            count + 1,
        ),
{
    reveal(digit_of);
    assert(!is_ascii_space(s[0]));
}

/// The fifth step of a group: the decoder checks the accumulator and emits
/// four bytes.
proof fn lemma_decode_emit(s: Seq<char>, acc: int)
    requires
        s.len() >= 1,
        digit_of(s[0]) >= 0,
    ensures
        decode_from(s, acc, 4) == ({
            let acc2 = acc * 85 + digit_of(s[0]);
            if acc2 > 0xFFFFFFFF {
                None
            } else {
                match decode_from(s.drop_first(), 0, 0) {
                    None => None,
                    Some(t) => Some(be_bytes4(acc2) + t),
                }
            }
        }),
{
    reveal(digit_of);
    assert(!is_ascii_space(s[0]));
}

/// Decoding the five symbols of a 32-bit group, followed by anything,
/// yields that group's four bytes followed by the decoding of the rest.
proof fn lemma_decode_group(v: int, rest: Seq<char>)
    requires
        0 <= v <= 0xFFFFFFFF,
    ensures
        decode_from(group_chars(v) + rest, 0, 0) == (match decode_from(rest, 0, 0) {
            None => None::<Seq<u8>>,
            Some(t) => Some(be_bytes4(v) + t),
        }),
{
    lemma_digit_chain(v);
    let q1 = v / 52200625;
    let q2 = v / 614125;
    let q3 = v / 7225;
    let q4 = v / 85;
    let d0 = q1 % 85;
    let d1 = q2 % 85;
    let d2 = q3 % 85;
    let d3 = q4 % 85;
    let d4 = v % 85;
    lemma_char_for_digit(d0);
    lemma_char_for_digit(d1);
    lemma_char_for_digit(d2);
    lemma_char_for_digit(d3);
    lemma_char_for_digit(d4);
    let g = group_chars(v);
    let s0 = g + rest;
    let s1 = seq![char_for(d1), char_for(d2), char_for(d3), char_for(d4)] + rest;
    let s2 = seq![char_for(d2), char_for(d3), char_for(d4)] + rest;
    let s3 = seq![char_for(d3), char_for(d4)] + rest;
    let s4 = seq![char_for(d4)] + rest;
    assert(s0.drop_first() =~= s1);
    assert(s1.drop_first() =~= s2);
    assert(s2.drop_first() =~= s3);
    assert(s3.drop_first() =~= s4);
    assert(s4.drop_first() =~= rest);
    lemma_decode_step(s0, 0, 0);
    lemma_decode_step(s1, d0, 1);
    lemma_decode_step(s2, q2, 2);
    lemma_decode_step(s3, q3, 3);
    lemma_decode_emit(s4, q4);
    assert(0 * 85 + d0 == q1);
    assert(q4 * 85 + d4 == v);
}

/// The four big-endian bytes of the value of four bytes are those bytes.
proof fn lemma_be_bytes_of_val(b: Seq<u8>)
    requires
        b.len() == 4,
    ensures
        be_bytes4(be_val4(b)) =~= b,
{
    let v = be_val4(b);
    let r0 = b[1] * 0x10000 + b[2] * 0x100 + b[3];
    lemma_fundamental_div_mod_converse(v, 0x1000000, b[0] as int, r0);
    lemma_fundamental_div_mod_converse(b[0] as int, 256, 0, b[0] as int);
    let q1 = b[0] * 256 + b[1];
    lemma_fundamental_div_mod_converse(v, 0x10000, q1, b[2] * 0x100 + b[3]);
    lemma_fundamental_div_mod_converse(q1, 256, b[0] as int, b[1] as int);
    let q2 = b[0] * 0x10000 + b[1] * 0x100 + b[2];
    lemma_fundamental_div_mod_converse(v, 0x100, q2, b[3] as int);
    lemma_fundamental_div_mod_converse(q2, 256, b[0] * 256 + b[1], b[2] as int);
}

/// Decoding the two symbols of a one-byte tail yields that byte.
proof fn lemma_decode_tail1(b: Seq<u8>)
    requires
        b.len() == 1,
    ensures
        decode_from(group_chars(tail_val(b)).take(2), 0, 0) == Some(b),
{
    let v = tail_val(b);
    lemma_digit_chain(v);
    let q1 = v / 52200625;
    let q2 = v / 614125;
    let d0 = q1 % 85;
    let d1 = q2 % 85;
    lemma_char_for_digit(d0);
    lemma_char_for_digit(d1);
    let s0 = seq![char_for(d0), char_for(d1)];
    let s1 = seq![char_for(d1)];
    assert(group_chars(v).take(2) =~= s0);
    assert(s0.drop_first() =~= s1);
    assert(s1.drop_first() =~= Seq::<char>::empty());
    lemma_decode_step(s0, 0, 0);
    lemma_decode_step(s1, d0, 1);
    assert(0 * 85 + d0 == q1);
    let val = padded(q2, 2);
    assert(val == q2 * 614125 + 614124);
    lemma_fundamental_div_mod(v, 614125);
    let r = v % 614125;
    let e = 614124 - r;
    assert(val == v + e);
    assert(v == b[0] * 0x1000000);
    lemma_fundamental_div_mod_converse(val, 0x1000000, b[0] as int, e);
    lemma_fundamental_div_mod_converse(b[0] as int, 256, 0, b[0] as int);
    assert(be_bytes4(val).take(1) =~= b);
}

/// Decoding the three symbols of a two-byte tail yields those bytes.
proof fn lemma_decode_tail2(b: Seq<u8>)
    requires
        b.len() == 2,
    ensures
        decode_from(group_chars(tail_val(b)).take(3), 0, 0) == Some(b),
{
    let v = tail_val(b);
    lemma_digit_chain(v);
    let q1 = v / 52200625;
    let q2 = v / 614125;
    let q3 = v / 7225;
    let d0 = q1 % 85;
    let d1 = q2 % 85;
    let d2 = q3 % 85;
    lemma_char_for_digit(d0);
    lemma_char_for_digit(d1);
    lemma_char_for_digit(d2);
    let s0 = seq![char_for(d0), char_for(d1), char_for(d2)];
    let s1 = seq![char_for(d1), char_for(d2)];
    let s2 = seq![char_for(d2)];
    assert(group_chars(v).take(3) =~= s0);
    assert(s0.drop_first() =~= s1);
    assert(s1.drop_first() =~= s2);
    assert(s2.drop_first() =~= Seq::<char>::empty());
    lemma_decode_step(s0, 0, 0);
    lemma_decode_step(s1, d0, 1);
    lemma_decode_step(s2, q2, 2);
    assert(0 * 85 + d0 == q1);
    let val = padded(q3, 3);
    assert(val == q3 * 7225 + 7224);
    lemma_fundamental_div_mod(v, 7225);
    let r = v % 7225;
    let e = 7224 - r;
    assert(val == v + e);
    assert(v == b[0] * 0x1000000 + b[1] * 0x10000);
    lemma_fundamental_div_mod_converse(val, 0x1000000, b[0] as int, b[1] * 0x10000 + e);
    lemma_fundamental_div_mod_converse(b[0] as int, 256, 0, b[0] as int);
    lemma_fundamental_div_mod_converse(val, 0x10000, b[0] * 256 + b[1], e);
    lemma_fundamental_div_mod_converse(b[0] * 256 + b[1], 256, b[0] as int, b[1] as int);
    assert(be_bytes4(val).take(2) =~= b);
}

/// Decoding the four symbols of a three-byte tail yields those bytes.
proof fn lemma_decode_tail3(b: Seq<u8>)
    requires
        b.len() == 3,
    ensures
        decode_from(group_chars(tail_val(b)).take(4), 0, 0) == Some(b),
{
    let v = tail_val(b);
    lemma_digit_chain(v);
    let q1 = v / 52200625;
    let q2 = v / 614125;
    let q3 = v / 7225;
    let q4 = v / 85;
    let d0 = q1 % 85;
    let d1 = q2 % 85;
    let d2 = q3 % 85;
    let d3 = q4 % 85;
    lemma_char_for_digit(d0);
    lemma_char_for_digit(d1);
    lemma_char_for_digit(d2);
    lemma_char_for_digit(d3);
    let s0 = seq![char_for(d0), char_for(d1), char_for(d2), char_for(d3)];
    let s1 = seq![char_for(d1), char_for(d2), char_for(d3)];
    let s2 = seq![char_for(d2), char_for(d3)];
    let s3 = seq![char_for(d3)];
    assert(group_chars(v).take(4) =~= s0);
    assert(s0.drop_first() =~= s1);
    assert(s1.drop_first() =~= s2);
    assert(s2.drop_first() =~= s3);
    assert(s3.drop_first() =~= Seq::<char>::empty());
    lemma_decode_step(s0, 0, 0);
    lemma_decode_step(s1, d0, 1);
    lemma_decode_step(s2, q2, 2);
    lemma_decode_step(s3, q3, 3);
    assert(0 * 85 + d0 == q1);
    let val = padded(q4, 4);
    assert(val == q4 * 85 + 84);
    lemma_fundamental_div_mod(v, 85);
    let r = v % 85;
    let e = 84 - r;
    assert(val == v + e);
    assert(v == b[0] * 0x1000000 + b[1] * 0x10000 + b[2] * 0x100);
    lemma_fundamental_div_mod_converse(
        val,
        0x1000000,
        b[0] as int,
        b[1] * 0x10000 + b[2] * 0x100 + e,
    );
    lemma_fundamental_div_mod_converse(b[0] as int, 256, 0, b[0] as int);
    lemma_fundamental_div_mod_converse(val, 0x10000, b[0] * 256 + b[1], b[2] * 0x100 + e);
    lemma_fundamental_div_mod_converse(b[0] * 256 + b[1], 256, b[0] as int, b[1] as int);
    lemma_fundamental_div_mod_converse(val, 0x100, b[0] * 0x10000 + b[1] * 0x100 + b[2], e);
    lemma_fundamental_div_mod_converse(
        b[0] * 0x10000 + b[1] * 0x100 + b[2],
        256,
        b[0] * 256 + b[1],
        b[2] as int,
    );
    assert(be_bytes4(val).take(3) =~= b);
}

/// One unfolding of the encoding at a full group.
proof fn lemma_encode_unfold(d: Seq<u8>, i: int)
    requires
        0 <= i,
        i + 4 <= d.len(),
    ensures
        b85_encode_spec(d.skip(i)) == group_chars(be_val4(d.subrange(i, i + 4)))
            + b85_encode_spec(d.skip(i + 4)),
{
    assert(d.skip(i).take(4) =~= d.subrange(i, i + 4));
    assert(d.skip(i).skip(4) =~= d.skip(i + 4));
}

/// Decoding the encoding of any byte sequence yields exactly that sequence:
/// the decoder's padding rule inverts the encoder's on tails of every length.
pub proof fn lemma_b85_round_trip(b: Seq<u8>)
    ensures
        b85_decode_spec(b85_encode_spec(b)) == Some(b),
    decreases b.len(),
{
    if b.len() >= 4 {
        let v = be_val4(b.take(4));
        lemma_b85_round_trip(b.skip(4));
        lemma_decode_group(v, b85_encode_spec(b.skip(4)));
        lemma_be_bytes_of_val(b.take(4));
        assert(b.take(4) + b.skip(4) =~= b);
    } else if b.len() == 0 {
        assert(b =~= Seq::<u8>::empty());
    } else if b.len() == 1 {
        lemma_decode_tail1(b);
    } else if b.len() == 2 {
        lemma_decode_tail2(b);
    } else {
        lemma_decode_tail3(b);
    }
}

/// Push the five symbols of a 32-bit group value.
fn push_group(out: &mut Vec<char>, v: u64)
    requires
        v <= 0xFFFFFFFF,
    ensures
        final(out)@ == old(out)@ + group_chars(v as int),
{
    out.push(symbol_for(((v / 52200625) % 85) as u8));
    out.push(symbol_for(((v / 614125) % 85) as u8));
    out.push(symbol_for(((v / 7225) % 85) as u8));
    out.push(symbol_for(((v / 85) % 85) as u8));
    out.push(symbol_for((v % 85) as u8));
    proof {
        assert(out@ =~= old(out)@ + group_chars(v as int));
    }
}

/// Encode bytes in the RFC 1924-alphabet base-85 variant: the inverse of
/// `decode_base85_rfc1924` on every byte sequence.
pub fn encode_base85_rfc1924(data: &Vec<u8>) -> (r: String)
    ensures
        r@ == b85_encode_spec(data@),
{
    let cs = encode_b85_chars(data);
    crate::text::string_of(&cs)
}

/// Restoring the encoding invariant after one full group is emitted.
proof fn lemma_encode_step_inv(d: Seq<u8>, out0: Seq<char>, i: int, v: int)
    requires
        0 <= i,
        i + 4 <= d.len(),
        v == be_val4(d.subrange(i, i + 4)),
        b85_encode_spec(d) == out0 + b85_encode_spec(d.skip(i)),
    ensures
        b85_encode_spec(d) == (out0 + group_chars(v)) + b85_encode_spec(d.skip(i + 4)),
{
    lemma_encode_unfold(d, i);
    assert((out0 + group_chars(v)) + b85_encode_spec(d.skip(i + 4)) =~= out0 + (group_chars(v)
        + b85_encode_spec(d.skip(i + 4))));
}

/// The big-endian value of four bytes starting at `i`.
fn group_val(data: &Vec<u8>, i: usize) -> (v: u64)
    requires
        i + 4 <= data@.len(),
    ensures
        v == be_val4(data@.subrange(i as int, i as int + 4)),
        v <= 0xFFFFFFFF,
{
    let n = data.len();
    let v: u64 = (data[i] as u64) * 0x1000000 + (data[i + 1] as u64) * 0x10000 + (data[i
        + 2] as u64) * 0x100 + (data[i + 3] as u64);
    proof {
        assert(data@.subrange(i as int, i as int + 4) =~= seq![
            data@[i as int],
            data@[i as int + 1],
            data@[i as int + 2],
            data@[i as int + 3],
        ]);
    }
    v
}

/// Push the first `m + 1` symbols of a group value, the form of an `m`-byte
/// tail.
fn push_tail(out: &mut Vec<char>, v: u64, m: usize)
    requires
        1 <= m < 4,
    ensures
        final(out)@ == old(out)@ + group_chars(v as int).take(m as int + 1),
{
    out.push(symbol_for(((v / 52200625) % 85) as u8));
    out.push(symbol_for(((v / 614125) % 85) as u8));
    if m > 1 {
        out.push(symbol_for(((v / 7225) % 85) as u8));
    }
    if m > 2 {
        out.push(symbol_for(((v / 85) % 85) as u8));
    }
    proof {
        assert(out@ =~= old(out)@ + group_chars(v as int).take(m as int + 1));
    }
}

/// Encode bytes as base-85 symbols.
pub fn encode_b85_chars(data: &Vec<u8>) -> (r: Vec<char>)
    ensures
        r@ == b85_encode_spec(data@),
{
    let n = data.len();
    let mut out: Vec<char> = Vec::new();
    let mut i: usize = 0;
    proof {
        assert(data@.skip(0) =~= data@);
        assert(Seq::<char>::empty() + b85_encode_spec(data@) =~= b85_encode_spec(data@));
    }
    while n - i >= 4
        invariant
            n == data@.len(),
            i <= n,
            b85_encode_spec(data@) == out@ + b85_encode_spec(data@.skip(i as int)),
        decreases n - i,
    {
        let v = group_val(data, i);
        proof {
            lemma_encode_step_inv(data@, out@, i as int, v as int);
        }
        push_group(&mut out, v);
        i += 4;
    }
    if i < n {
        let m = n - i;
        let b0: u64 = data[i] as u64;
        let b1: u64 = if m > 1 {
            data[i + 1] as u64
        } else {
            0
        };
        let b2: u64 = if m > 2 {
            data[i + 2] as u64
        } else {
            0
        };
        let v: u64 = b0 * 0x1000000 + b1 * 0x10000 + b2 * 0x100;
        proof {
            let t = data@.skip(i as int);
            assert(t.len() == m);
            assert(t[0] == data@[i as int]);
            if m > 1 {
                assert(t[1] == data@[i as int + 1]);
            }
            if m > 2 {
                assert(t[2] == data@[i as int + 2]);
            }
            assert(tail_val(t) == v as int);
        }
        push_tail(&mut out, v, m);
    } else {
        proof {
            assert(data@.skip(i as int) =~= Seq::<u8>::empty());
            assert(out@ + Seq::<char>::empty() =~= out@);
        }
    }
    out
}

} // verus!
