use vstd::prelude::*;
use vstd::utf8::*;

use crate::render::text::push_char;

verus! {

/// Lower-case hexadecimal digits.
pub open spec fn hex_digits() -> Seq<char> {
    seq!['0', '1', '2', '3', '4', '5', '6', '7', '8', '9', 'a', 'b', 'c', 'd', 'e', 'f']
}

/// A byte in lower-case hexadecimal without leading zeros, as `{:x}` prints it.
pub open spec fn spec_hex(b: u8) -> Seq<char> {
    if b < 16 {
        seq![hex_digits()[b as int]]
    } else {
        seq![hex_digits()[(b / 16) as int], hex_digits()[(b % 16) as int]]
    }
}

/// Each byte written as `\x` followed by its hexadecimal digits.
pub open spec fn spec_hex_escape(bytes: Seq<u8>) -> Seq<char>
    decreases bytes.len(),
{
    if bytes.len() == 0 {
        seq![]
    } else {
        seq!['\\', 'x'] + spec_hex(bytes[0]) + spec_hex_escape(bytes.drop_first())
    }
}

/// The UTF-8 bytes of `c`, each written as `\x` and its hexadecimal digits.
pub open spec fn spec_char2hex(c: char) -> Seq<char> {
    spec_hex_escape(encode_utf8(seq![c]))
}

/// Numeric value of a lower-case hexadecimal digit.
pub open spec fn digit_value(c: char) -> int {
    if '0' <= c <= '9' {
        c as int - '0' as int
    } else {
        c as int - 'a' as int + 10
    }
}

/// The number that a sequence of lower-case hexadecimal digits spells.
pub open spec fn spec_hex_value(digits: Seq<char>) -> int
    decreases digits.len(),
{
    if digits.len() == 0 {
        0
    } else {
        spec_hex_value(digits.drop_last()) * 16 + digit_value(digits.last())
    }
}

proof fn lemma_digit_value(d: int)
    requires
        0 <= d < 16,
    ensures
        digit_value(hex_digits()[d]) == d,
{
    let h = hex_digits();
    if d < 8 {
        if d < 4 {
            assert(d == 0 || d == 1 || d == 2 || d == 3);
        } else {
            assert(d == 4 || d == 5 || d == 6 || d == 7);
        }
    } else {
        if d < 12 {
            assert(d == 8 || d == 9 || d == 10 || d == 11);
        } else {
            assert(d == 12 || d == 13 || d == 14 || d == 15);
        }
    }
}

/// The hexadecimal form of a byte reads back as that byte, and is one digit
/// long exactly for bytes below 16 (no leading zero is printed).
pub proof fn lemma_hex_roundtrip(b: u8)
    ensures
        spec_hex_value(spec_hex(b)) == b,
        1 <= spec_hex(b).len() <= 2,
        spec_hex(b).len() == 1 <==> b < 16,
{
    let h = spec_hex(b);
    if b < 16 {
        lemma_digit_value(b as int);
        assert(h.drop_last() =~= Seq::<char>::empty());
        assert(spec_hex_value(h.drop_last()) == 0);
        assert(spec_hex_value(h) == digit_value(h.last()));
    } else {
        lemma_digit_value((b / 16) as int);
        lemma_digit_value((b % 16) as int);
        let hi = h.drop_last();
        assert(hi =~= seq![hex_digits()[(b / 16) as int]]);
        assert(hi.drop_last() =~= Seq::<char>::empty());
        assert(spec_hex_value(hi.drop_last()) == 0);
        assert(spec_hex_value(hi) == (b / 16) as int);
        assert(spec_hex_value(h) == spec_hex_value(hi) * 16 + (b % 16) as int);
    }
}

proof fn lemma_hex_not_backslash(b: u8)
    ensures
        forall|i: int| 0 <= i < spec_hex(b).len() ==> #[trigger] spec_hex(b)[i] != '\\',
{
}

proof fn lemma_escape_starts_with_backslash(bytes: Seq<u8>)
    requires
        bytes.len() > 0,
    ensures
        spec_hex_escape(bytes).len() >= 3,
        spec_hex_escape(bytes)[0] == '\\',
{
    lemma_hex_roundtrip(bytes[0]);
}

proof fn lemma_escape_injective(b1: Seq<u8>, b2: Seq<u8>)
    requires
        spec_hex_escape(b1) == spec_hex_escape(b2),
    ensures
        b1 == b2,
    decreases b1.len(),
{
    if b1.len() == 0 {
        if b2.len() > 0 {
            lemma_escape_starts_with_backslash(b2);
        }
        assert(b1 =~= b2);
    } else {
        if b2.len() == 0 {
            lemma_escape_starts_with_backslash(b1);
        } else {
            let e = spec_hex_escape(b1);
            let h1 = spec_hex(b1[0]);
            let h2 = spec_hex(b2[0]);
            let r1 = spec_hex_escape(b1.drop_first());
            let r2 = spec_hex_escape(b2.drop_first());
            lemma_hex_roundtrip(b1[0]);
            lemma_hex_roundtrip(b2[0]);
            lemma_hex_not_backslash(b1[0]);
            lemma_hex_not_backslash(b2[0]);
            assert(e == seq!['\\', 'x'] + h1 + r1);
            assert(e == seq!['\\', 'x'] + h2 + r2);
            if h1.len() != h2.len() {
                if h1.len() == 1 {
                    if b1.drop_first().len() > 0 {
                        lemma_escape_starts_with_backslash(b1.drop_first());
                        assert(e[3] == r1[0]);
                        assert(e[3] == h2[1]);
                    } else {
                        assert(e.len() == 3);
                    }
                } else {
                    if b2.drop_first().len() > 0 {
                        lemma_escape_starts_with_backslash(b2.drop_first());
                        assert(e[3] == r2[0]);
                        assert(e[3] == h1[1]);
                    } else {
                        assert(e.len() == 3);
                    }
                }
            } else {
                assert(h1 =~= e.subrange(2, 2 + h1.len() as int));
                assert(h2 =~= e.subrange(2, 2 + h2.len() as int));
                assert(r1 =~= e.subrange(2 + h1.len() as int, e.len() as int));
                assert(r2 =~= e.subrange(2 + h2.len() as int, e.len() as int));
                lemma_escape_injective(b1.drop_first(), b2.drop_first());
                assert(b1 =~= seq![b1[0]] + b1.drop_first());
                assert(b2 =~= seq![b2[0]] + b2.drop_first());
            }
        }
    }
}

/// Different characters get different escapes: the escape shows every UTF-8
/// byte of the character and UTF-8 tells characters apart.
pub proof fn lemma_char2hex_injective(c1: char, c2: char)
    requires
        spec_char2hex(c1) == spec_char2hex(c2),
    ensures
        c1 == c2,
{
    lemma_escape_injective(encode_utf8(seq![c1]), encode_utf8(seq![c2]));
    encode_utf8_decode_utf8(seq![c1]);
    encode_utf8_decode_utf8(seq![c2]);
    assert(seq![c1][0] == seq![c2][0]);
}

fn hex_digit(d: u8) -> (c: char)
    requires
        d < 16,
    ensures
        c == hex_digits()[d as int],
{
    let digits: [char; 16] = ['0', '1', '2', '3', '4', '5', '6', '7', '8', '9', 'a', 'b', 'c', 'd', 'e', 'f'];
    assert(digits@ == hex_digits());
    digits[d as usize]
}

/// The UTF-8 encoding of `c`.
fn utf8_bytes(c: char) -> (bytes: Vec<u8>)
    ensures
        bytes@ == encode_utf8(seq![c]),
{
    let u = c as u32;
    proof {
        char_is_scalar(c);
        assert(encode_utf8(seq![c]) =~= encode_scalar(u) + encode_utf8(seq![c].drop_first()));
        assert(encode_utf8(seq![c].drop_first()) =~= Seq::<u8>::empty());
        assert(encode_utf8(seq![c]) =~= encode_scalar(u));
    }
    let mut bytes: Vec<u8> = Vec::new();
    if u <= 0x7F {
        bytes.push((u & 0x7F) as u8);
    } else if u <= 0x7FF {
        bytes.push(0xC0 | ((u >> 6) & 0x1F) as u8);
        bytes.push(0x80 | (u & 0x3F) as u8);
    } else if u <= 0xFFFF {
        bytes.push(0xE0 | ((u >> 12) & 0x0F) as u8);
        bytes.push(0x80 | ((u >> 6) & 0x3F) as u8);
        bytes.push(0x80 | (u & 0x3F) as u8);
    } else {
        bytes.push(0xF0 | ((u >> 18) & 0x7) as u8);
        bytes.push(0x80 | ((u >> 12) & 0x3F) as u8);
        bytes.push(0x80 | ((u >> 6) & 0x3F) as u8);
        bytes.push(0x80 | (u & 0x3F) as u8);
    }
    assert(bytes@ =~= encode_scalar(u));
    bytes
}

/// Appends `\x` and the hexadecimal digits of `b`.
fn push_hex_escape(s: &mut String, b: u8)
    ensures
        final(s)@ == old(s)@ + seq!['\\', 'x'] + spec_hex(b),
{
    push_char(s, '\\');
    push_char(s, 'x');
    if b < 16 {
        let d = hex_digit(b);
        push_char(s, d);
    } else {
        let hi = hex_digit(b / 16);
        push_char(s, hi);
        let lo = hex_digit(b % 16);
        push_char(s, lo);
    }
    assert(s@ =~= old(s)@ + seq!['\\', 'x'] + spec_hex(b));
}

proof fn lemma_hex_escape_append(bytes: Seq<u8>, b: u8)
    ensures
        spec_hex_escape(bytes.push(b)) == spec_hex_escape(bytes) + seq!['\\', 'x'] + spec_hex(b),
    decreases bytes.len(),
{
    if bytes.len() == 0 {
        assert(bytes.push(b).drop_first() =~= Seq::<u8>::empty());
        assert(spec_hex_escape(Seq::<u8>::empty()) =~= Seq::<char>::empty());
        assert(bytes.push(b)[0] == b);
        assert(spec_hex_escape(bytes.push(b)) =~= seq!['\\', 'x'] + spec_hex(b));
    } else {
        assert(bytes.push(b).drop_first() =~= bytes.drop_first().push(b));
        lemma_hex_escape_append(bytes.drop_first(), b);
        assert(spec_hex_escape(bytes.push(b)) =~= spec_hex_escape(bytes) + seq!['\\', 'x'] + spec_hex(b));
    }
}

/// The UTF-8 bytes of `c` in the form `\xNN`, one group per byte, for
/// messages about characters that a font lacks.
pub fn char2hex(c: char) -> (s: String)
    ensures
        s@ == spec_char2hex(c),
{
    let bytes = utf8_bytes(c);
    let mut s = String::new();
    let mut i: usize = 0;
    while i < bytes.len()
        invariant
            i <= bytes@.len(),
            bytes@ == encode_utf8(seq![c]),
            s@ == spec_hex_escape(bytes@.take(i as int)),
        decreases bytes@.len() - i,
    {
        let b = bytes[i];
        push_hex_escape(&mut s, b);
        proof {
            assert(bytes@.take(i + 1) =~= bytes@.take(i as int).push(b));
            lemma_hex_escape_append(bytes@.take(i as int), b);
        }
        i = i + 1;
    }
    assert(bytes@.take(i as int) =~= bytes@);
    s
}

} // verus!
