use vstd::prelude::*;
use vstd::utf8::*;
use vstd::string::*;
use vstd::arithmetic::div_mod::{lemma_div_denominator, lemma_div_multiples_vanish, lemma_fundamental_div_mod};
use data_encoding::DecodeError;
use crate::util::text::{
    ascii_lower_char, ascii_lowercase, ascii_upper_char, ascii_uppercase, string_from_utf8,
    to_lowercase, to_uppercase, unicode_uppercase,
};

verus! {

broadcast use vstd::utf8::group_utf8_lib, vstd::string::group_string_axioms;

/// The error that decoding reports.
#[verifier::external_type_specification]
#[verifier::external_body]
pub struct ExDecodeError(DecodeError);

/// A symbol of the RFC 4648 base32 alphabet: `A`-`Z` and `2`-`7`.
pub open spec fn is_base32_symbol(c: char) -> bool {
    ||| 65 <= c as u32 <= 90
    ||| 50 <= c as u32 <= 55
}

/// The base32 symbol for the 5-bit value `v`: `A`-`Z` for 0-25, then `2`-`7`.
pub open spec fn base32_symbol(v: int) -> char {
    if v < 26 {
        (65 + v) as char
    } else {
        (24 + v) as char
    }
}

/// The 40-bit number that the 5 bytes `b` spell, most significant first.
pub open spec fn group_value(b: Seq<u8>) -> int {
    b[0] * 0x1_0000_0000int + b[1] * 0x100_0000int + b[2] * 0x1_0000int + b[3] * 0x100int + b[4]
}

/// The 8 symbols for the 40 bits of the 5 bytes `b`, 5 bits each, most
/// significant first.
pub open spec fn base32_group(b: Seq<u8>) -> Seq<char> {
    let n = group_value(b);
    seq![
        base32_symbol(n / 0x8_0000_0000 % 32),
        base32_symbol(n / 0x4000_0000 % 32),
        base32_symbol(n / 0x200_0000 % 32),
        base32_symbol(n / 0x10_0000 % 32),
        base32_symbol(n / 0x8000 % 32),
        base32_symbol(n / 0x400 % 32),
        base32_symbol(n / 0x20 % 32),
        base32_symbol(n % 32),
    ]
}

/// Unpadded RFC 4648 base32 of `bytes`: each group of 5 bytes gives 8
/// symbols; a last group of `k < 5` bytes is completed with zero bytes and
/// gives the first `ceil(8 k / 5)` of its symbols.
pub open spec fn base32_nopad(bytes: Seq<u8>) -> Seq<char>
    decreases bytes.len(),
{
    if bytes.len() >= 5 {
        base32_group(bytes.take(5)) + base32_nopad(bytes.skip(5))
    } else if bytes.len() == 0 {
        Seq::empty()
    } else {
        base32_group(bytes + Seq::new((5 - bytes.len()) as nat, |i: int| 0u8)).take(
            ((8 * bytes.len() + 4) / 5) as int,
        )
    }
}

/// What unpadded base32 decoding gives for `text`: the bytes whose encoding
/// `text` is, or nothing where it is the encoding of no bytes.
pub closed spec fn base32_nopad_decoded(text: Seq<u8>) -> Option<Seq<u8>> {
    if exists|b: Seq<u8>| encode_utf8(#[trigger] base32_nopad(b)) == text {
        Some(choose|b: Seq<u8>| encode_utf8(#[trigger] base32_nopad(b)) == text)
    } else {
        None
    }
}

proof fn lemma_symbol(v: int)
    requires
        0 <= v < 32,
    ensures
        is_base32_symbol(base32_symbol(v)),
{
    if v < 26 {
        assert(((65 + v) as char) as u32 == 65 + v);
    } else {
        assert(((24 + v) as char) as u32 == 24 + v);
    }
}

proof fn lemma_group_symbols(b: Seq<u8>)
    requires
        b.len() == 5,
    ensures
        base32_group(b).len() == 8,
        forall|i: int| 0 <= i < 8 ==> is_base32_symbol(#[trigger] base32_group(b)[i]),
{
    let n = group_value(b);
    lemma_symbol(n / 0x8_0000_0000 % 32);
    lemma_symbol(n / 0x4000_0000 % 32);
    lemma_symbol(n / 0x200_0000 % 32);
    lemma_symbol(n / 0x10_0000 % 32);
    lemma_symbol(n / 0x8000 % 32);
    lemma_symbol(n / 0x400 % 32);
    lemma_symbol(n / 0x20 % 32);
    lemma_symbol(n % 32);
}

/// Unpadded base32 of `n` bytes has `ceil(8 n / 5)` symbols, each of the
/// alphabet `A-Z2-7`.
pub proof fn lemma_base32_nopad_shape(bytes: Seq<u8>)
    ensures
        base32_nopad(bytes).len() == (8 * bytes.len() + 4) / 5,
        forall|i: int|
            0 <= i < base32_nopad(bytes).len() ==> is_base32_symbol(#[trigger] base32_nopad(bytes)[i]),
    decreases bytes.len(),
{
    if bytes.len() >= 5 {
        lemma_group_symbols(bytes.take(5));
        lemma_base32_nopad_shape(bytes.skip(5));
        let g = base32_group(bytes.take(5));
        let rest = base32_nopad(bytes.skip(5));
        assert forall|i: int| 0 <= i < base32_nopad(bytes).len() implies is_base32_symbol(
            #[trigger] base32_nopad(bytes)[i],
        ) by {
            if i < 8 {
                assert(base32_nopad(bytes)[i] == g[i]);
            } else {
                assert(base32_nopad(bytes)[i] == rest[i - 8]);
            }
        }
    } else if bytes.len() > 0 {
        lemma_group_symbols(bytes + Seq::new((5 - bytes.len()) as nat, |i: int| 0u8));
    }
}

proof fn lemma_symbol_injective(v1: int, v2: int)
    requires
        0 <= v1 < 32,
        0 <= v2 < 32,
        base32_symbol(v1) == base32_symbol(v2),
    ensures
        v1 == v2,
{
    if v1 < 26 {
        assert(((65 + v1) as char) as u32 == 65 + v1);
    } else {
        assert(((24 + v1) as char) as u32 == 24 + v1);
    }
    if v2 < 26 {
        assert(((65 + v2) as char) as u32 == 65 + v2);
    } else {
        assert(((24 + v2) as char) as u32 == 24 + v2);
    }
}

proof fn lemma_digit_step(n1: int, n2: int, d: int)
    requires
        0 <= n1,
        0 <= n2,
        0 < d,
        n1 / (d * 32) == n2 / (d * 32),
        n1 / d % 32 == n2 / d % 32,
    ensures
        n1 / d == n2 / d,
{
    lemma_div_denominator(n1, d, 32);
    lemma_div_denominator(n2, d, 32);
    lemma_fundamental_div_mod(n1 / d, 32);
    lemma_fundamental_div_mod(n2 / d, 32);
}

proof fn lemma_byte_step(m1: int, c1: int, m2: int, c2: int)
    requires
        0 <= c1 < 256,
        0 <= c2 < 256,
        256 * m1 + c1 == 256 * m2 + c2,
    ensures
        m1 == m2,
        c1 == c2,
{
}

proof fn lemma_shift_down(n1: int, n2: int, c: int, d: int)
    requires
        0 <= n1,
        0 <= n2,
        0 < c,
        0 < d,
        n1 / c == n2 / c,
    ensures
        n1 / (c * d) == n2 / (c * d),
{
    lemma_div_denominator(n1, c, d);
    lemma_div_denominator(n2, c, d);
}

proof fn lemma_digits_determine_value(n1: int, n2: int)
    requires
        0 <= n1 < 0x100_0000_0000,
        0 <= n2 < 0x100_0000_0000,
        n1 / 0x8_0000_0000 % 32 == n2 / 0x8_0000_0000 % 32,
        n1 / 0x4000_0000 % 32 == n2 / 0x4000_0000 % 32,
        n1 / 0x200_0000 % 32 == n2 / 0x200_0000 % 32,
        n1 / 0x10_0000 % 32 == n2 / 0x10_0000 % 32,
        n1 / 0x8000 % 32 == n2 / 0x8000 % 32,
        n1 / 0x400 % 32 == n2 / 0x400 % 32,
        n1 / 0x20 % 32 == n2 / 0x20 % 32,
        n1 % 32 == n2 % 32,
    ensures
        n1 == n2,
{
    assert(n1 / 0x8_0000_0000 < 32);
    assert(n2 / 0x8_0000_0000 < 32);
    lemma_digit_step(n1, n2, 0x4000_0000);
    lemma_digit_step(n1, n2, 0x200_0000);
    lemma_digit_step(n1, n2, 0x10_0000);
    lemma_digit_step(n1, n2, 0x8000);
    lemma_digit_step(n1, n2, 0x400);
    lemma_digit_step(n1, n2, 0x20);
    lemma_digit_step(n1, n2, 1);
}

proof fn lemma_value_determines_bytes(b1: Seq<u8>, b2: Seq<u8>)
    requires
        b1.len() == 5,
        b2.len() == 5,
        group_value(b1) == group_value(b2),
    ensures
        b1 == b2,
{
    let m1 = b1[0] * 0x100_0000int + b1[1] * 0x1_0000int + b1[2] * 0x100int + b1[3];
    let m2 = b2[0] * 0x100_0000int + b2[1] * 0x1_0000int + b2[2] * 0x100int + b2[3];
    lemma_byte_step(m1, b1[4] as int, m2, b2[4] as int);
    let k1 = b1[0] * 0x1_0000int + b1[1] * 0x100int + b1[2];
    let k2 = b2[0] * 0x1_0000int + b2[1] * 0x100int + b2[2];
    lemma_byte_step(k1, b1[3] as int, k2, b2[3] as int);
    let h1 = b1[0] * 0x100int + b1[1];
    let h2 = b2[0] * 0x100int + b2[1];
    lemma_byte_step(h1, b1[2] as int, h2, b2[2] as int);
    lemma_byte_step(b1[0] as int, b1[1] as int, b2[0] as int, b2[1] as int);
    assert(b1 =~= b2);
}

proof fn lemma_group_injective(b1: Seq<u8>, b2: Seq<u8>)
    requires
        b1.len() == 5,
        b2.len() == 5,
        base32_group(b1) == base32_group(b2),
    ensures
        b1 == b2,
{
    let n1 = group_value(b1);
    let n2 = group_value(b2);
    lemma_symbol_injective(n1 / 0x8_0000_0000 % 32, n2 / 0x8_0000_0000 % 32);
    lemma_symbol_injective(n1 / 0x4000_0000 % 32, n2 / 0x4000_0000 % 32);
    lemma_symbol_injective(n1 / 0x200_0000 % 32, n2 / 0x200_0000 % 32);
    lemma_symbol_injective(n1 / 0x10_0000 % 32, n2 / 0x10_0000 % 32);
    lemma_symbol_injective(n1 / 0x8000 % 32, n2 / 0x8000 % 32);
    lemma_symbol_injective(n1 / 0x400 % 32, n2 / 0x400 % 32);
    lemma_symbol_injective(n1 / 0x20 % 32, n2 / 0x20 % 32);
    lemma_symbol_injective(n1 % 32, n2 % 32);
    lemma_digits_determine_value(n1, n2);
    lemma_value_determines_bytes(b1, b2);
}

/// `b` completed with zero bytes to a group of 5.
pub open spec fn padded_group(b: Seq<u8>) -> Seq<u8> {
    b + Seq::new((5 - b.len()) as nat, |i: int| 0u8)
}

/// The number that the bytes `b` spell, most significant first.
pub open spec fn bytes_value(b: Seq<u8>) -> int
    decreases b.len(),
{
    if b.len() == 0 {
        0
    } else {
        bytes_value(b.drop_last()) * 256 + b.last()
    }
}

proof fn lemma_bytes_value_injective(b1: Seq<u8>, b2: Seq<u8>)
    requires
        b1.len() == b2.len(),
        bytes_value(b1) == bytes_value(b2),
    ensures
        b1 == b2,
    decreases b1.len(),
{
    if b1.len() > 0 {
        lemma_bytes_value_nonneg(b1.drop_last());
        lemma_bytes_value_nonneg(b2.drop_last());
        lemma_byte_step(
            bytes_value(b1.drop_last()),
            b1.last() as int,
            bytes_value(b2.drop_last()),
            b2.last() as int,
        );
        lemma_bytes_value_injective(b1.drop_last(), b2.drop_last());
        assert(b1 =~= b1.drop_last().push(b1.last()));
        assert(b2 =~= b2.drop_last().push(b2.last()));
    } else {
        assert(b1 =~= b2);
    }
}

proof fn lemma_bytes_value_nonneg(b: Seq<u8>)
    ensures
        bytes_value(b) >= 0,
    decreases b.len(),
{
    if b.len() > 0 {
        lemma_bytes_value_nonneg(b.drop_last());
    }
}

/// The padded group's value is the value of the `k` bytes shifted up by the
/// `5 - k` zero bytes.
proof fn lemma_padded_value(b: Seq<u8>)
    requires
        0 < b.len() < 5,
    ensures
        b.len() == 1 ==> group_value(padded_group(b)) == bytes_value(b) * 0x1_0000_0000,
        b.len() == 2 ==> group_value(padded_group(b)) == bytes_value(b) * 0x100_0000,
        b.len() == 3 ==> group_value(padded_group(b)) == bytes_value(b) * 0x1_0000,
        b.len() == 4 ==> group_value(padded_group(b)) == bytes_value(b) * 0x100,
        bytes_value(b) >= 0,
{
    reveal_with_fuel(bytes_value, 5);
    lemma_bytes_value_nonneg(b);
    let p = padded_group(b);
    assert(p[4] == 0);
    if b.len() == 1 {
        assert(b.drop_last() =~= Seq::<u8>::empty());
        assert(p[1] == 0 && p[2] == 0 && p[3] == 0);
    } else if b.len() == 2 {
        assert(b.drop_last().drop_last() =~= Seq::<u8>::empty());
        assert(p[2] == 0 && p[3] == 0);
    } else if b.len() == 3 {
        assert(b.drop_last().drop_last().drop_last() =~= Seq::<u8>::empty());
        assert(p[3] == 0);
    } else {
        assert(b.drop_last().drop_last().drop_last().drop_last() =~= Seq::<u8>::empty());
    }
}

proof fn lemma_partial_injective(b1: Seq<u8>, b2: Seq<u8>)
    requires
        0 < b1.len() < 5,
        b1.len() == b2.len(),
        base32_group(padded_group(b1)).take(((8 * b1.len() + 4) / 5) as int) == base32_group(
            padded_group(b2),
        ).take(((8 * b2.len() + 4) / 5) as int),
    ensures
        b1 == b2,
{
    let t = ((8 * b1.len() + 4) / 5) as int;
    let p1 = padded_group(b1);
    let p2 = padded_group(b2);
    let g1 = base32_group(p1);
    let g2 = base32_group(p2);
    let n1 = group_value(p1);
    let n2 = group_value(p2);
    lemma_padded_value(b1);
    lemma_padded_value(b2);
    assert forall|j: int| 0 <= j < t implies g1[j] == g2[j] by {
        assert(g1[j] == g1.take(t)[j]);
    }
    lemma_symbol_injective(n1 / 0x8_0000_0000 % 32, n2 / 0x8_0000_0000 % 32);
    lemma_symbol_injective(n1 / 0x4000_0000 % 32, n2 / 0x4000_0000 % 32);
    assert(n1 / 0x8_0000_0000 < 32);
    assert(n2 / 0x8_0000_0000 < 32);
    lemma_digit_step(n1, n2, 0x4000_0000);
    let v1 = bytes_value(b1);
    let v2 = bytes_value(b2);
    if b1.len() == 1 {
        lemma_shift_down(n1, n2, 0x4000_0000, 4);
        lemma_div_multiples_vanish(v1, 0x1_0000_0000);
        lemma_div_multiples_vanish(v2, 0x1_0000_0000);
    } else {
        lemma_symbol_injective(n1 / 0x200_0000 % 32, n2 / 0x200_0000 % 32);
        lemma_symbol_injective(n1 / 0x10_0000 % 32, n2 / 0x10_0000 % 32);
        lemma_digit_step(n1, n2, 0x200_0000);
        lemma_digit_step(n1, n2, 0x10_0000);
        if b1.len() == 2 {
            lemma_shift_down(n1, n2, 0x10_0000, 16);
            lemma_div_multiples_vanish(v1, 0x100_0000);
            lemma_div_multiples_vanish(v2, 0x100_0000);
        } else {
            lemma_symbol_injective(n1 / 0x8000 % 32, n2 / 0x8000 % 32);
            lemma_digit_step(n1, n2, 0x8000);
            if b1.len() == 3 {
                lemma_shift_down(n1, n2, 0x8000, 2);
                lemma_div_multiples_vanish(v1, 0x1_0000);
                lemma_div_multiples_vanish(v2, 0x1_0000);
            } else {
                lemma_symbol_injective(n1 / 0x400 % 32, n2 / 0x400 % 32);
                lemma_symbol_injective(n1 / 0x20 % 32, n2 / 0x20 % 32);
                lemma_digit_step(n1, n2, 0x400);
                lemma_digit_step(n1, n2, 0x20);
                lemma_shift_down(n1, n2, 0x20, 8);
                lemma_div_multiples_vanish(v1, 0x100);
                lemma_div_multiples_vanish(v2, 0x100);
            }
        }
    }
    assert(v1 == v2);
    lemma_bytes_value_injective(b1, b2);
}

/// Unpadded base32 is injective: different byte strings have different
/// encodings.
pub proof fn lemma_base32_nopad_injective(b1: Seq<u8>, b2: Seq<u8>)
    requires
        base32_nopad(b1) == base32_nopad(b2),
    ensures
        b1 == b2,
    decreases b1.len(),
{
    lemma_base32_nopad_shape(b1);
    lemma_base32_nopad_shape(b2);
    if b1.len() < b2.len() {
        assert((8 * b1.len() + 4) / 5 < (8 * b2.len() + 4) / 5);
    } else if b2.len() < b1.len() {
        assert((8 * b2.len() + 4) / 5 < (8 * b1.len() + 4) / 5);
    }
    assert(b1.len() == b2.len());
    if b1.len() >= 5 {
        let e1 = base32_nopad(b1);
        lemma_group_symbols(b1.take(5));
        lemma_group_symbols(b2.take(5));
        assert(base32_group(b1.take(5)) =~= e1.take(8));
        assert(base32_group(b2.take(5)) =~= e1.take(8));
        assert(base32_nopad(b1.skip(5)) =~= e1.skip(8));
        assert(base32_nopad(b2.skip(5)) =~= e1.skip(8));
        lemma_group_injective(b1.take(5), b2.take(5));
        lemma_base32_nopad_injective(b1.skip(5), b2.skip(5));
        assert(b1 =~= b1.take(5) + b1.skip(5));
        assert(b2 =~= b2.take(5) + b2.skip(5));
    } else if b1.len() > 0 {
        lemma_partial_injective(b1, b2);
    } else {
        assert(b1 =~= b2);
    }
}

/// Decoding what unpadded base32 gives for `b` gives `b` back.
pub proof fn lemma_base32_nopad_decoded(b: Seq<u8>)
    ensures
        base32_nopad_decoded(encode_utf8(base32_nopad(b))) == Some(b),
{
    let text = encode_utf8(base32_nopad(b));
    assert(encode_utf8(base32_nopad(b)) == text);
    let c = choose|c: Seq<u8>| encode_utf8(#[trigger] base32_nopad(c)) == text;
    assert(decode_utf8(encode_utf8(base32_nopad(c))) == decode_utf8(text));
    lemma_base32_nopad_injective(c, b);
}

/// Calls `data_encoding::BASE32_NOPAD.encode`. Claimed, as the crate documents
/// it: the result is the RFC 4648 base32 of the input without padding
/// (`base32_nopad`). The input is bounded as `encode_len` asks, above which
/// it may panic.
#[verifier::external_body]
fn base32_nopad_encode(input: &[u8]) -> (r: String)
    requires
        input@.len() <= usize::MAX / 512,
    ensures
        r@ == base32_nopad(input@),
{
    data_encoding::BASE32_NOPAD.encode(input)
}

/// Calls `data_encoding::BASE32_NOPAD.decode`. Claimed, as the crate documents
/// it for its canonical encodings: what it returns encodes back to the input
/// (decoding is canonical), and it rejects only inputs that are the encoding
/// of no bytes (decoding is correct). The input is bounded as `decode_len`
/// asks, above which it may panic.
#[verifier::external_body]
fn base32_nopad_decode(input: &[u8]) -> (r: Result<Vec<u8>, DecodeError>)
    requires
        input@.len() <= usize::MAX / 8,
    ensures
        r matches Ok(v) ==> encode_utf8(base32_nopad(v@)) == input@,
        r is Err ==> forall|b: Seq<u8>| encode_utf8(#[trigger] base32_nopad(b)) != input@,
{
    data_encoding::BASE32_NOPAD.decode(input)
}

/// Decodes `input` as unpadded base32: the bytes whose encoding it is, or the
/// decoder's error where it is the encoding of no bytes.
fn decode_base32_bytes(input: &[u8]) -> (r: Result<Vec<u8>, DecodeError>)
    requires
        input@.len() <= usize::MAX / 8,
    ensures
        match r {
            Ok(v) => base32_nopad_decoded(input@) == Some(v@),
            Err(_) => base32_nopad_decoded(input@) is None,
        },
{
    let r = base32_nopad_decode(input);
    proof {
        if r is Ok {
            let v = r->Ok_0;
            lemma_base32_nopad_decoded(v@);
        }
    }
    r
}

/// The text that `encode` gives for `s`: the lowercase unpadded base32 of its
/// UTF-8 bytes.
pub open spec fn encode_spec(s: Seq<char>) -> Seq<char> {
    ascii_lowercase(base32_nopad(encode_utf8(s)))
}

/// The bytes that `decode` hands to the base32 decoder for `s`: those of its
/// uppercase, which for ASCII text is its ASCII uppercase.
pub open spec fn decode_input(s: Seq<char>) -> Seq<u8> {
    if is_ascii_chars(s) {
        encode_utf8(ascii_uppercase(s))
    } else {
        encode_utf8(unicode_uppercase(s))
    }
}

/// What `decode` gives for `s`: the text whose UTF-8 bytes the uppercase of
/// `s` encodes, or nothing where base32 decoding fails.
pub open spec fn decode_spec(s: Seq<char>) -> Option<Seq<char>> {
    match base32_nopad_decoded(decode_input(s)) {
        Some(b) => Some(decode_utf8(b)),
        None => None,
    }
}

/// `decode` can be called on `s`: its uppercase is within the decoder's
/// length bound, and where it decodes, the bytes are valid UTF-8.
pub open spec fn decodable(s: Seq<char>) -> bool {
    &&& decode_input(s).len() <= usize::MAX / 8
    &&& base32_nopad_decoded(decode_input(s)) matches Some(b) ==> valid_utf8(b)
}

/// `s` is lowercase base32 text: each character is a lowercase alphabet symbol.
pub open spec fn is_base32_label(s: Seq<char>) -> bool {
    forall|i: int|
        0 <= i < s.len() ==> {
            let v = #[trigger] s[i] as u32;
            (97 <= v <= 122) || (50 <= v <= 55)
        }
}

proof fn lemma_lower_symbols(e: Seq<char>)
    requires
        forall|i: int| 0 <= i < e.len() ==> is_base32_symbol(#[trigger] e[i]),
    ensures
        is_ascii_chars(e),
        is_base32_label(ascii_lowercase(e)),
        is_ascii_chars(ascii_lowercase(e)),
        ascii_uppercase(ascii_lowercase(e)) == e,
{
    let l = ascii_lowercase(e);
    assert forall|i: int| 0 <= i < e.len() implies ascii_upper_char(ascii_lower_char(e[i]))
        == e[i] by {
        let c = e[i];
        if 65 <= c as u32 <= 90 {
            assert((((c as u32) + 32) as char) as u32 == (c as u32) + 32);
            let w: u32 = ((((c as u32) + 32) as char) as u32 - 32) as u32;
            assert(w == c as u32);
            char_u32_cast(c, w);
        }
    }
    assert forall|i: int| 0 <= i < l.len() implies {
        let v = #[trigger] l[i] as u32;
        (97 <= v <= 122) || (50 <= v <= 55)
    } by {
        let c = e[i];
        if 65 <= c as u32 <= 90 {
            assert((((c as u32) + 32) as char) as u32 == (c as u32) + 32);
        }
    }
    assert(ascii_uppercase(l) =~= e);
}

/// Encodes the UTF-8 bytes of `input` as lowercase unpadded base32.
/// What it returns decodes back to `input`.
pub fn encode(input: &str) -> (r: String)
    requires
        encode_utf8(input@).len() <= usize::MAX / 512,
    ensures
        r@ == encode_spec(input@),
        is_base32_label(r@),
        r@.len() == (8 * encode_utf8(input@).len() + 4) / 5,
        decodable(r@),
        decode_spec(r@) == Some(input@),
{
    let bytes = input.as_bytes();
    let encoded = base32_nopad_encode(bytes);
    let r = to_lowercase(encoded.as_str());
    proof {
        lemma_base32_nopad_shape(bytes@);
        lemma_lower_symbols(encoded@);
        lemma_encode_spec(input@);
    }
    r
}

/// What `encode` gives for `s` is lowercase base32 text of `ceil(8 n / 5)`
/// symbols for the `n` UTF-8 bytes of `s`, and `decode` gives `s` back from it.
pub proof fn lemma_encode_spec(s: Seq<char>)
    requires
        encode_utf8(s).len() <= usize::MAX / 512,
    ensures
        is_base32_label(encode_spec(s)),
        encode_spec(s).len() == (8 * encode_utf8(s).len() + 4) / 5,
        decodable(encode_spec(s)),
        decode_spec(encode_spec(s)) == Some(s),
{
    let bytes = encode_utf8(s);
    let e = base32_nopad(bytes);
    let r = encode_spec(s);
    lemma_base32_nopad_shape(bytes);
    lemma_base32_nopad_decoded(bytes);
    lemma_lower_symbols(e);
    assert(decode_input(r) == encode_utf8(e));
    assert(encode_utf8(e).len() == e.len());
}

/// Decodes lowercase or uppercase unpadded base32 text to the string whose
/// UTF-8 bytes it encodes.
pub fn decode(input: &str) -> (r: Result<String, DecodeError>)
    requires
        decodable(input@),
    ensures
        r is Ok <==> decode_spec(input@) is Some,
        r matches Ok(s) ==> decode_spec(input@) == Some(s@),
{
    let upper = to_uppercase(input);
    let decoded = decode_base32_bytes(upper.as_str().as_bytes());
    match decoded {
        Ok(bytes) => match string_from_utf8(bytes) {
            Some(s) => Ok(s),
            None => {
                proof {
                    assert(false);
                }
                Ok(String::new())
            },
        },
        Err(e) => Err(e),
    }
}

/// `decode` where it can be called, and nothing where the input is too long
/// for the decoder or decodes to bytes that are not UTF-8.
pub fn decode_checked(input: &str) -> (r: Option<Result<String, DecodeError>>)
    ensures
        r is None <==> !decodable(input@),
        r matches Some(d) ==> (d is Ok <==> decode_spec(input@) is Some),
        r matches Some(Ok(s)) ==> decode_spec(input@) == Some(s@),
{
    let upper = to_uppercase(input);
    let bytes = upper.as_str().as_bytes();
    if bytes.len() > usize::MAX / 8 {
        return None;
    }
    match decode_base32_bytes(bytes) {
        Ok(v) => {
            if string_from_utf8(v).is_none() {
                return None;
            }
        },
        Err(_) => {},
    }
    Some(decode(input))
}

proof fn lemma_ascii_case_char(c: char)
    requires
        c <= '\u{7f}',
    ensures
        ascii_upper_char(ascii_upper_char(c)) == ascii_upper_char(c),
        ascii_upper_char(ascii_lower_char(c)) == ascii_upper_char(c),
        '\0' <= ascii_upper_char(c) <= '\u{7f}',
        '\0' <= ascii_lower_char(c) <= '\u{7f}',
{
    if 65 <= c as u32 <= 90 {
        assert((((c as u32) + 32) as char) as u32 == (c as u32) + 32);
        let w: u32 = ((((c as u32) + 32) as char) as u32 - 32) as u32;
        assert(w == c as u32);
        char_u32_cast(c, w);
    } else if 97 <= c as u32 <= 122 {
        assert((((c as u32) - 32) as char) as u32 == (c as u32) - 32);
    }
}

/// Decoding ignores the case of ASCII text: `x`, its ASCII uppercase and its
/// ASCII lowercase (which is what `str::to_uppercase` and `str::to_lowercase`
/// give for ASCII text) can be decoded alike and decode to the same result.
pub proof fn lemma_decode_ignores_case(x: Seq<char>)
    requires
        is_ascii_chars(x),
    ensures
        decodable(ascii_uppercase(x)) == decodable(x),
        decodable(ascii_lowercase(x)) == decodable(x),
        decode_spec(ascii_uppercase(x)) == decode_spec(x),
        decode_spec(ascii_lowercase(x)) == decode_spec(x),
{
    let u = ascii_uppercase(x);
    let l = ascii_lowercase(x);
    assert forall|i: int| 0 <= i < x.len() implies {
        &&& ascii_upper_char(#[trigger] u[i]) == u[i]
        &&& ascii_upper_char(l[i]) == u[i]
        &&& '\0' <= u[i] <= '\u{7f}'
        &&& '\0' <= l[i] <= '\u{7f}'
    } by {
        lemma_ascii_case_char(x[i]);
    }
    assert(is_ascii_chars(u));
    assert(is_ascii_chars(l));
    assert(ascii_uppercase(u) =~= u);
    assert(ascii_uppercase(l) =~= u);
}

} // verus!
