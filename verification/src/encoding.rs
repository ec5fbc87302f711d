//! Base64 (RFC 4648) and UTF-8 conversions used by the network recorder and
//! the identity header, with the outside calls behind trusted wrappers.
use vstd::prelude::*;
use vstd::utf8::*;
use vstd::string::StringSliceAdditionalSpecFns;
use base64::Engine;

verus! {

/// The padding symbol `=`.
pub open spec fn pad_byte() -> u8 {
    61u8
}

/// The base64 symbol for a 6-bit value `v`, in the standard alphabet
/// (`A-Z a-z 0-9 + /`) or, when `url_safe`, the URL-safe one (`- _` for the
/// last two).
pub open spec fn b64_symbol(v: u8, url_safe: bool) -> u8 {
    if v < 26 {
        (v + 65) as u8
    } else if v < 52 {
        (v + 71) as u8
    } else if v < 62 {
        (v - 4) as u8
    } else if v == 62 {
        if url_safe { 45u8 } else { 43u8 }
    } else {
        if url_safe { 95u8 } else { 47u8 }
    }
}

/// The base64 encoding of `b` as ASCII bytes: each group of three bytes
/// becomes four symbols; a final group of one or two bytes becomes two or
/// three symbols, followed, when `pad`, by `=` up to four.
pub open spec fn b64_encode(b: Seq<u8>, url_safe: bool, pad: bool) -> Seq<u8>
    decreases b.len(),
{
    if b.len() == 0 {
        seq![]
    } else if b.len() == 1 {
        seq![b64_symbol(b[0] >> 2u8, url_safe), b64_symbol((b[0] & 3u8) << 4u8, url_safe)]
            + (if pad { seq![pad_byte(), pad_byte()] } else { seq![] })
    } else if b.len() == 2 {
        seq![
            b64_symbol(b[0] >> 2u8, url_safe),
            b64_symbol(((b[0] & 3u8) << 4u8) | (b[1] >> 4u8), url_safe),
            b64_symbol((b[1] & 15u8) << 2u8, url_safe),
        ] + (if pad { seq![pad_byte()] } else { seq![] })
    } else {
        seq![
            b64_symbol(b[0] >> 2u8, url_safe),
            b64_symbol(((b[0] & 3u8) << 4u8) | (b[1] >> 4u8), url_safe),
            b64_symbol(((b[1] & 15u8) << 2u8) | (b[2] >> 6u8), url_safe),
            b64_symbol(b[2] & 63u8, url_safe),
        ] + b64_encode(b.subrange(3, b.len() as int), url_safe, pad)
    }
}

/// Whether `s` is the encoding of some byte string.
pub open spec fn is_b64(s: Seq<u8>, url_safe: bool, pad: bool) -> bool {
    exists|b: Seq<u8>| b64_encode(b, url_safe, pad) == s
}

/// The byte string whose encoding is `s`, if there is one (it is unique, see
/// [`lemma_b64_encode_injective`]).
pub open spec fn b64_decode(s: Seq<u8>, url_safe: bool, pad: bool) -> Option<Seq<u8>> {
    if is_b64(s, url_safe, pad) {
        Some(choose|b: Seq<u8>| b64_encode(b, url_safe, pad) == s)
    } else {
        None
    }
}

proof fn lemma_symbol_injective(v: u8, w: u8, url_safe: bool)
    requires
        v < 64,
        w < 64,
        b64_symbol(v, url_safe) == b64_symbol(w, url_safe),
    ensures
        v == w,
{
}

proof fn lemma_symbol_not_pad(v: u8, url_safe: bool)
    requires
        v < 64,
    ensures
        b64_symbol(v, url_safe) != pad_byte(),
{
}

proof fn lemma_group_bits(a: u8, b: u8, c: u8, x: u8, y: u8, z: u8)
    ensures
        a >> 2u8 < 64,
        ((a & 3u8) << 4u8) | (b >> 4u8) < 64,
        ((b & 15u8) << 2u8) | (c >> 6u8) < 64,
        c & 63u8 < 64,
        (a & 3u8) << 4u8 < 64,
        (b & 15u8) << 2u8 < 64,
        (a >> 2u8 == x >> 2u8 && ((a & 3u8) << 4u8) | (b >> 4u8) == ((x & 3u8) << 4u8) | (y >> 4u8)
            && ((b & 15u8) << 2u8) | (c >> 6u8) == ((y & 15u8) << 2u8) | (z >> 6u8) && c & 63u8
            == z & 63u8) ==> (a == x && b == y && c == z),
        (a >> 2u8 == x >> 2u8 && (a & 3u8) << 4u8 == (x & 3u8) << 4u8) ==> a == x,
        (a >> 2u8 == x >> 2u8 && ((a & 3u8) << 4u8) | (b >> 4u8) == ((x & 3u8) << 4u8) | (y >> 4u8)
            && (b & 15u8) << 2u8 == (y & 15u8) << 2u8) ==> (a == x && b == y),
{
    assert(a >> 2u8 < 64) by (bit_vector);
    assert(((a & 3u8) << 4u8) | (b >> 4u8) < 64) by (bit_vector);
    assert(((b & 15u8) << 2u8) | (c >> 6u8) < 64) by (bit_vector);
    assert(c & 63u8 < 64) by (bit_vector);
    assert((a & 3u8) << 4u8 < 64) by (bit_vector);
    assert((b & 15u8) << 2u8 < 64) by (bit_vector);
    assert((a >> 2u8 == x >> 2u8 && ((a & 3u8) << 4u8) | (b >> 4u8) == ((x & 3u8) << 4u8) | (y
        >> 4u8) && ((b & 15u8) << 2u8) | (c >> 6u8) == ((y & 15u8) << 2u8) | (z >> 6u8) && c
        & 63u8 == z & 63u8) ==> (a == x && b == y && c == z)) by (bit_vector);
    assert((a >> 2u8 == x >> 2u8 && (a & 3u8) << 4u8 == (x & 3u8) << 4u8) ==> a == x)
        by (bit_vector);
    assert((a >> 2u8 == x >> 2u8 && ((a & 3u8) << 4u8) | (b >> 4u8) == ((x & 3u8) << 4u8) | (y
        >> 4u8) && (b & 15u8) << 2u8 == (y & 15u8) << 2u8) ==> (a == x && b == y))
        by (bit_vector);
}

/// The length of an encoding, and that its padding is exactly its trailing
/// `=` symbols.
proof fn lemma_encode_shape(b: Seq<u8>, url_safe: bool, pad: bool)
    ensures
        ({
            let e = b64_encode(b, url_safe, pad);
            &&& b.len() % 3 == 0 ==> e.len() == 4 * (b.len() / 3)
            &&& b.len() % 3 == 1 ==> e.len() == 4 * (b.len() / 3) + (if pad { 4int } else { 2 })
            &&& b.len() % 3 == 2 ==> e.len() == 4 * (b.len() / 3) + (if pad { 4int } else { 3 })
            &&& b.len() >= 3 ==> e[3] != pad_byte()
            &&& b.len() >= 3 ==> e[2] != pad_byte()
            &&& (pad && b.len() == 1) ==> e[2] == pad_byte()
            &&& (pad && b.len() == 2) ==> e[2] != pad_byte() && e[3] == pad_byte()
        }),
    decreases b.len(),
{
    if b.len() >= 3 {
        lemma_group_bits(b[0], b[1], b[2], b[0], b[1], b[2]);
        lemma_symbol_not_pad(((b[1] & 15u8) << 2u8) | (b[2] >> 6u8), url_safe);
        lemma_symbol_not_pad(b[2] & 63u8, url_safe);
        lemma_encode_shape(b.subrange(3, b.len() as int), url_safe, pad);
    } else if b.len() == 2 {
        lemma_group_bits(b[0], b[1], 0, b[0], b[1], 0);
        lemma_symbol_not_pad((b[1] & 15u8) << 2u8, url_safe);
    }
}

/// Distinct byte strings have distinct encodings.
pub proof fn lemma_b64_encode_injective(x: Seq<u8>, y: Seq<u8>, url_safe: bool, pad: bool)
    requires
        b64_encode(x, url_safe, pad) == b64_encode(y, url_safe, pad),
    ensures
        x == y,
    decreases x.len(),
{
    let ex = b64_encode(x, url_safe, pad);
    let ey = b64_encode(y, url_safe, pad);
    lemma_encode_shape(x, url_safe, pad);
    lemma_encode_shape(y, url_safe, pad);
    if x.len() == 0 || y.len() == 0 {
        if x.len() != 0 {
            assert(ex.len() > 0);
        }
        if y.len() != 0 {
            assert(ey.len() > 0);
        }
        assert(x =~= y);
        return;
    }
    let (a, b, c) = (x[0], if x.len() > 1 { x[1] } else { 0u8 }, if x.len() > 2 { x[2] } else { 0u8 });
    let (p, q, r) = (y[0], if y.len() > 1 { y[1] } else { 0u8 }, if y.len() > 2 { y[2] } else { 0u8 });
    lemma_group_bits(a, b, c, p, q, r);
    lemma_group_bits(p, q, r, a, b, c);
    let xl = if x.len() >= 3 { 3int } else { x.len() as int };
    let yl = if y.len() >= 3 { 3int } else { y.len() as int };
    // The two encodings start with groups of the same width.
    if xl != yl {
        if pad {
            assert(ex[2] == ey[2] && ex[3] == ey[3]);
        } else {
            if x.len() >= 3 && y.len() < 3 {
                assert(ey.len() < 4);
                assert(ex.len() >= 4);
            } else if y.len() >= 3 && x.len() < 3 {
                assert(ex.len() < 4);
                assert(ey.len() >= 4);
            } else {
                assert(ex.len() != ey.len());
            }
        }
        assert(false);
    }
    assert(ex[0] == ey[0]);
    lemma_symbol_injective(a >> 2u8, p >> 2u8, url_safe);
    assert(ex[1] == ey[1]);
    if xl == 1 {
        lemma_symbol_injective((a & 3u8) << 4u8, (p & 3u8) << 4u8, url_safe);
        assert(x =~= y);
    } else if xl == 2 {
        lemma_symbol_injective(((a & 3u8) << 4u8) | (b >> 4u8), ((p & 3u8) << 4u8) | (q >> 4u8), url_safe);
        assert(ex[2] == ey[2]);
        lemma_symbol_injective((b & 15u8) << 2u8, (q & 15u8) << 2u8, url_safe);
        assert(x =~= y);
    } else {
        lemma_symbol_injective(((a & 3u8) << 4u8) | (b >> 4u8), ((p & 3u8) << 4u8) | (q >> 4u8), url_safe);
        assert(ex[2] == ey[2]);
        lemma_symbol_injective(((b & 15u8) << 2u8) | (c >> 6u8), ((q & 15u8) << 2u8) | (r >> 6u8), url_safe);
        assert(ex[3] == ey[3]);
        lemma_symbol_injective(c & 63u8, r & 63u8, url_safe);
        let tx = x.subrange(3, x.len() as int);
        let ty = y.subrange(3, y.len() as int);
        assert(b64_encode(tx, url_safe, pad) =~= ex.subrange(4, ex.len() as int));
        assert(b64_encode(ty, url_safe, pad) =~= ey.subrange(4, ey.len() as int));
        lemma_b64_encode_injective(tx, ty, url_safe, pad);
        assert(x =~= seq![a, b, c] + tx);
        assert(y =~= seq![p, q, r] + ty);
    }
}

/// Decoding an encoding gives back the encoded bytes.
pub proof fn lemma_b64_decode_encode(b: Seq<u8>, url_safe: bool, pad: bool)
    ensures
        b64_decode(b64_encode(b, url_safe, pad), url_safe, pad) == Some(b),
{
    let s = b64_encode(b, url_safe, pad);
    assert(is_b64(s, url_safe, pad));
    let c = choose|c: Seq<u8>| b64_encode(c, url_safe, pad) == s;
    lemma_b64_encode_injective(c, b, url_safe, pad);
}

proof fn lemma_symbol_ascii(v: u8, url_safe: bool)
    requires
        v < 64,
    ensures
        b64_symbol(v, url_safe) < 128,
{
}

/// Every byte of an encoding is an ASCII symbol.
pub proof fn lemma_b64_encode_ascii(b: Seq<u8>, url_safe: bool, pad: bool)
    ensures
        forall|i: int| 0 <= i < b64_encode(b, url_safe, pad).len() ==> #[trigger] b64_encode(b, url_safe, pad)[i] < 128,
    decreases b.len(),
{
    let e = b64_encode(b, url_safe, pad);
    if b.len() >= 3 {
        lemma_group_bits(b[0], b[1], b[2], b[0], b[1], b[2]);
        lemma_symbol_ascii(b[0] >> 2u8, url_safe);
        lemma_symbol_ascii(((b[0] & 3u8) << 4u8) | (b[1] >> 4u8), url_safe);
        lemma_symbol_ascii(((b[1] & 15u8) << 2u8) | (b[2] >> 6u8), url_safe);
        lemma_symbol_ascii(b[2] & 63u8, url_safe);
        let rest = b64_encode(b.subrange(3, b.len() as int), url_safe, pad);
        lemma_b64_encode_ascii(b.subrange(3, b.len() as int), url_safe, pad);
        assert forall|i: int| 0 <= i < e.len() implies #[trigger] e[i] < 128 by {
            if i >= 4 {
                assert(e[i] == rest[i - 4]);
            }
        }
    } else if b.len() == 2 {
        lemma_group_bits(b[0], b[1], 0, b[0], b[1], 0);
        lemma_symbol_ascii(b[0] >> 2u8, url_safe);
        lemma_symbol_ascii(((b[0] & 3u8) << 4u8) | (b[1] >> 4u8), url_safe);
        lemma_symbol_ascii((b[1] & 15u8) << 2u8, url_safe);
    } else if b.len() == 1 {
        lemma_group_bits(b[0], 0, 0, b[0], 0, 0);
        lemma_symbol_ascii(b[0] >> 2u8, url_safe);
        lemma_symbol_ascii((b[0] & 3u8) << 4u8, url_safe);
    }
}

/// An encoding is valid UTF-8, and its characters re-encode to it.
pub proof fn lemma_b64_encode_utf8(b: Seq<u8>, url_safe: bool, pad: bool)
    ensures
        valid_utf8(b64_encode(b, url_safe, pad)),
        encode_utf8(decode_utf8(b64_encode(b, url_safe, pad))) == b64_encode(b, url_safe, pad),
{
    let e = b64_encode(b, url_safe, pad);
    lemma_b64_encode_ascii(b, url_safe, pad);
    assert(partial_valid_utf8(e, 0)) by {
        assert(e.subrange(0, 0) =~= Seq::<u8>::empty());
    }
    assert forall|i: int| 0 <= 0 <= i < e.len() <= e.len() implies #[trigger] is_leading_byte_width_1(e[i]) by {}
    partial_valid_utf8_extend_ascii_block(e, 0, e.len() as int);
    assert(e.subrange(0, e.len() as int) =~= e);
    decode_utf8_encode_utf8(e);
}

/// The RFC 4648 alphabet: `A-Z a-z 0-9` followed by `+ /`, or by `- _` in
/// the URL-safe variant.
pub open spec fn b64_alphabet(url_safe: bool) -> Seq<char> {
    if url_safe {
        "ABCDEFGHIJKLMNOPQRSTUVWXYZabcdefghijklmnopqrstuvwxyz0123456789-_"@
    } else {
        "ABCDEFGHIJKLMNOPQRSTUVWXYZabcdefghijklmnopqrstuvwxyz0123456789+/"@
    }
}

/// Each 6-bit value is written as the symbol at that position of the
/// alphabet.
pub proof fn law_b64_symbol_is_alphabet(url_safe: bool)
    ensures
        forall|v: u8| v < 64 ==> #[trigger] b64_symbol(v, url_safe) as u32 == b64_alphabet(url_safe)[v as int] as u32,
{
    reveal_strlit("ABCDEFGHIJKLMNOPQRSTUVWXYZabcdefghijklmnopqrstuvwxyz0123456789-_");
    reveal_strlit("ABCDEFGHIJKLMNOPQRSTUVWXYZabcdefghijklmnopqrstuvwxyz0123456789+/");
    assert forall|v: u8| v < 64 implies #[trigger] b64_symbol(v, url_safe) as u32 == b64_alphabet(url_safe)[v as int] as u32 by {
        if v == 0 {
            assert(b64_alphabet(url_safe)[0] == (if url_safe { 'A' } else { 'A' }));
        } else if v == 1 {
            assert(b64_alphabet(url_safe)[1] == (if url_safe { 'B' } else { 'B' }));
        } else if v == 2 {
            assert(b64_alphabet(url_safe)[2] == (if url_safe { 'C' } else { 'C' }));
        } else if v == 3 {
            assert(b64_alphabet(url_safe)[3] == (if url_safe { 'D' } else { 'D' }));
        } else if v == 4 {
            assert(b64_alphabet(url_safe)[4] == (if url_safe { 'E' } else { 'E' }));
        } else if v == 5 {
            assert(b64_alphabet(url_safe)[5] == (if url_safe { 'F' } else { 'F' }));
        } else if v == 6 {
            assert(b64_alphabet(url_safe)[6] == (if url_safe { 'G' } else { 'G' }));
        } else if v == 7 {
            assert(b64_alphabet(url_safe)[7] == (if url_safe { 'H' } else { 'H' }));
        } else if v == 8 {
            assert(b64_alphabet(url_safe)[8] == (if url_safe { 'I' } else { 'I' }));
        } else if v == 9 {
            assert(b64_alphabet(url_safe)[9] == (if url_safe { 'J' } else { 'J' }));
        } else if v == 10 {
            assert(b64_alphabet(url_safe)[10] == (if url_safe { 'K' } else { 'K' }));
        } else if v == 11 {
            assert(b64_alphabet(url_safe)[11] == (if url_safe { 'L' } else { 'L' }));
        } else if v == 12 {
            assert(b64_alphabet(url_safe)[12] == (if url_safe { 'M' } else { 'M' }));
        } else if v == 13 {
            assert(b64_alphabet(url_safe)[13] == (if url_safe { 'N' } else { 'N' }));
        } else if v == 14 {
            assert(b64_alphabet(url_safe)[14] == (if url_safe { 'O' } else { 'O' }));
        } else if v == 15 {
            assert(b64_alphabet(url_safe)[15] == (if url_safe { 'P' } else { 'P' }));
        } else if v == 16 {
            assert(b64_alphabet(url_safe)[16] == (if url_safe { 'Q' } else { 'Q' }));
        } else if v == 17 {
            assert(b64_alphabet(url_safe)[17] == (if url_safe { 'R' } else { 'R' }));
        } else if v == 18 {
            assert(b64_alphabet(url_safe)[18] == (if url_safe { 'S' } else { 'S' }));
        } else if v == 19 {
            assert(b64_alphabet(url_safe)[19] == (if url_safe { 'T' } else { 'T' }));
        } else if v == 20 {
            assert(b64_alphabet(url_safe)[20] == (if url_safe { 'U' } else { 'U' }));
        } else if v == 21 {
            assert(b64_alphabet(url_safe)[21] == (if url_safe { 'V' } else { 'V' }));
        } else if v == 22 {
            assert(b64_alphabet(url_safe)[22] == (if url_safe { 'W' } else { 'W' }));
        } else if v == 23 {
            assert(b64_alphabet(url_safe)[23] == (if url_safe { 'X' } else { 'X' }));
        } else if v == 24 {
            assert(b64_alphabet(url_safe)[24] == (if url_safe { 'Y' } else { 'Y' }));
        } else if v == 25 {
            assert(b64_alphabet(url_safe)[25] == (if url_safe { 'Z' } else { 'Z' }));
        } else if v == 26 {
            assert(b64_alphabet(url_safe)[26] == (if url_safe { 'a' } else { 'a' }));
        } else if v == 27 {
            assert(b64_alphabet(url_safe)[27] == (if url_safe { 'b' } else { 'b' }));
        } else if v == 28 {
            assert(b64_alphabet(url_safe)[28] == (if url_safe { 'c' } else { 'c' }));
        } else if v == 29 {
            assert(b64_alphabet(url_safe)[29] == (if url_safe { 'd' } else { 'd' }));
        } else if v == 30 {
            assert(b64_alphabet(url_safe)[30] == (if url_safe { 'e' } else { 'e' }));
        } else if v == 31 {
            assert(b64_alphabet(url_safe)[31] == (if url_safe { 'f' } else { 'f' }));
        } else if v == 32 {
            assert(b64_alphabet(url_safe)[32] == (if url_safe { 'g' } else { 'g' }));
        } else if v == 33 {
            assert(b64_alphabet(url_safe)[33] == (if url_safe { 'h' } else { 'h' }));
        } else if v == 34 {
            assert(b64_alphabet(url_safe)[34] == (if url_safe { 'i' } else { 'i' }));
        } else if v == 35 {
            assert(b64_alphabet(url_safe)[35] == (if url_safe { 'j' } else { 'j' }));
        } else if v == 36 {
            assert(b64_alphabet(url_safe)[36] == (if url_safe { 'k' } else { 'k' }));
        } else if v == 37 {
            assert(b64_alphabet(url_safe)[37] == (if url_safe { 'l' } else { 'l' }));
        } else if v == 38 {
            assert(b64_alphabet(url_safe)[38] == (if url_safe { 'm' } else { 'm' }));
        } else if v == 39 {
            assert(b64_alphabet(url_safe)[39] == (if url_safe { 'n' } else { 'n' }));
        } else if v == 40 {
            assert(b64_alphabet(url_safe)[40] == (if url_safe { 'o' } else { 'o' }));
        } else if v == 41 {
            assert(b64_alphabet(url_safe)[41] == (if url_safe { 'p' } else { 'p' }));
        } else if v == 42 {
            assert(b64_alphabet(url_safe)[42] == (if url_safe { 'q' } else { 'q' }));
        } else if v == 43 {
            assert(b64_alphabet(url_safe)[43] == (if url_safe { 'r' } else { 'r' }));
        } else if v == 44 {
            assert(b64_alphabet(url_safe)[44] == (if url_safe { 's' } else { 's' }));
        } else if v == 45 {
            assert(b64_alphabet(url_safe)[45] == (if url_safe { 't' } else { 't' }));
        } else if v == 46 {
            assert(b64_alphabet(url_safe)[46] == (if url_safe { 'u' } else { 'u' }));
        } else if v == 47 {
            assert(b64_alphabet(url_safe)[47] == (if url_safe { 'v' } else { 'v' }));
        } else if v == 48 {
            assert(b64_alphabet(url_safe)[48] == (if url_safe { 'w' } else { 'w' }));
        } else if v == 49 {
            assert(b64_alphabet(url_safe)[49] == (if url_safe { 'x' } else { 'x' }));
        } else if v == 50 {
            assert(b64_alphabet(url_safe)[50] == (if url_safe { 'y' } else { 'y' }));
        } else if v == 51 {
            assert(b64_alphabet(url_safe)[51] == (if url_safe { 'z' } else { 'z' }));
        } else if v == 52 {
            assert(b64_alphabet(url_safe)[52] == (if url_safe { '0' } else { '0' }));
        } else if v == 53 {
            assert(b64_alphabet(url_safe)[53] == (if url_safe { '1' } else { '1' }));
        } else if v == 54 {
            assert(b64_alphabet(url_safe)[54] == (if url_safe { '2' } else { '2' }));
        } else if v == 55 {
            assert(b64_alphabet(url_safe)[55] == (if url_safe { '3' } else { '3' }));
        } else if v == 56 {
            assert(b64_alphabet(url_safe)[56] == (if url_safe { '4' } else { '4' }));
        } else if v == 57 {
            assert(b64_alphabet(url_safe)[57] == (if url_safe { '5' } else { '5' }));
        } else if v == 58 {
            assert(b64_alphabet(url_safe)[58] == (if url_safe { '6' } else { '6' }));
        } else if v == 59 {
            assert(b64_alphabet(url_safe)[59] == (if url_safe { '7' } else { '7' }));
        } else if v == 60 {
            assert(b64_alphabet(url_safe)[60] == (if url_safe { '8' } else { '8' }));
        } else if v == 61 {
            assert(b64_alphabet(url_safe)[61] == (if url_safe { '9' } else { '9' }));
        } else if v == 62 {
            assert(b64_alphabet(url_safe)[62] == (if url_safe { '-' } else { '+' }));
        } else if v == 63 {
            assert(b64_alphabet(url_safe)[63] == (if url_safe { '_' } else { '/' }));
        }
    }
}

proof fn lemma_group_value(a: u8, b: u8, c: u8)
    ensures
        (a >> 2u8) as int * 262144 + ((((a & 3u8) << 4u8) | (b >> 4u8)) as int) * 4096 + ((((b & 15u8) << 2u8)
            | (c >> 6u8)) as int) * 64 + ((c & 63u8) as int) == a as int * 65536 + b as int * 256 + c as int,
        (a >> 2u8) as int * 64 + (((a & 3u8) << 4u8) as int) == a as int * 16,
        (a >> 2u8) as int * 4096 + ((((a & 3u8) << 4u8) | (b >> 4u8)) as int) * 64 + (((b & 15u8) << 2u8) as int)
            == (a as int * 256 + b as int) * 4,
{
    assert((a >> 2u8) as int * 262144 + ((((a & 3u8) << 4u8) | (b >> 4u8)) as int) * 4096 + ((((b & 15u8) << 2u8)
            | (c >> 6u8)) as int) * 64 + ((c & 63u8) as int) == a as int * 65536 + b as int * 256 + c as int) by (bit_vector);
    assert((a >> 2u8) as int * 64 + (((a & 3u8) << 4u8) as int) == a as int * 16) by (bit_vector);
    assert((a >> 2u8) as int * 4096 + ((((a & 3u8) << 4u8) | (b >> 4u8)) as int) * 64 + (((b & 15u8) << 2u8) as int)
            == (a as int * 256 + b as int) * 4) by (bit_vector);
}

/// Base64 writes each group of three bytes as the four alphabet symbols
/// whose 6-bit values spell the same 24 bits; a last group of one byte as
/// two symbols spelling its 8 bits followed by 4 zero bits, and of two
/// bytes as three symbols spelling its 16 bits followed by 2 zero bits,
/// each followed by `=` up to four symbols when padded.
pub proof fn law_b64_encode_groups(b: Seq<u8>, url_safe: bool, pad: bool)
    ensures
        b.len() == 0 ==> b64_encode(b, url_safe, pad) == Seq::<u8>::empty(),
        b.len() >= 3 ==> exists|x0: u8, x1: u8, x2: u8, x3: u8|
            #![trigger b64_symbol(x0, url_safe), b64_symbol(x1, url_safe), b64_symbol(x2, url_safe), b64_symbol(x3, url_safe)]
            x0 < 64 && x1 < 64 && x2 < 64 && x3 < 64 && x0 as int * 262144 + x1 as int * 4096 + x2 as int * 64
                + x3 as int == b[0] as int * 65536 + b[1] as int * 256 + b[2] as int && b64_encode(
                b,
                url_safe,
                pad,
            ) == seq![b64_symbol(x0, url_safe), b64_symbol(x1, url_safe), b64_symbol(x2, url_safe), b64_symbol(x3, url_safe)]
                + b64_encode(b.subrange(3, b.len() as int), url_safe, pad),
        b.len() == 1 ==> exists|x0: u8, x1: u8|
            #![trigger b64_symbol(x0, url_safe), b64_symbol(x1, url_safe)]
            x0 < 64 && x1 < 64 && x0 as int * 64 + x1 as int == b[0] as int * 16 && b64_encode(
                b,
                url_safe,
                pad,
            ) == seq![b64_symbol(x0, url_safe), b64_symbol(x1, url_safe)] + (if pad {
                seq![61u8, 61u8]
            } else {
                seq![]
            }),
        b.len() == 2 ==> exists|x0: u8, x1: u8, x2: u8|
            #![trigger b64_symbol(x0, url_safe), b64_symbol(x1, url_safe), b64_symbol(x2, url_safe)]
            x0 < 64 && x1 < 64 && x2 < 64 && x0 as int * 4096 + x1 as int * 64 + x2 as int == (b[0] as int * 256
                + b[1] as int) * 4 && b64_encode(b, url_safe, pad) == seq![
                b64_symbol(x0, url_safe),
                b64_symbol(x1, url_safe),
                b64_symbol(x2, url_safe),
            ] + (if pad {
                seq![61u8]
            } else {
                seq![]
            }),
{
    if b.len() >= 3 {
        lemma_group_bits(b[0], b[1], b[2], b[0], b[1], b[2]);
        lemma_group_value(b[0], b[1], b[2]);
        let (x0, x1, x2, x3) = (b[0] >> 2u8, ((b[0] & 3u8) << 4u8) | (b[1] >> 4u8), ((b[1] & 15u8) << 2u8) | (b[2] >> 6u8), b[2] & 63u8);
        assert(b64_encode(b, url_safe, pad) == seq![b64_symbol(x0, url_safe), b64_symbol(x1, url_safe), b64_symbol(x2, url_safe), b64_symbol(x3, url_safe)]
            + b64_encode(b.subrange(3, b.len() as int), url_safe, pad));
    } else if b.len() == 2 {
        lemma_group_bits(b[0], b[1], 0, b[0], b[1], 0);
        lemma_group_value(b[0], b[1], 0);
        let (x0, x1, x2) = (b[0] >> 2u8, ((b[0] & 3u8) << 4u8) | (b[1] >> 4u8), (b[1] & 15u8) << 2u8);
        assert(b64_encode(b, url_safe, pad) == seq![b64_symbol(x0, url_safe), b64_symbol(x1, url_safe), b64_symbol(x2, url_safe)]
            + (if pad { seq![61u8] } else { seq![] }));
    } else if b.len() == 1 {
        lemma_group_bits(b[0], 0, 0, b[0], 0, 0);
        lemma_group_value(b[0], 0, 0);
        let (x0, x1) = (b[0] >> 2u8, (b[0] & 3u8) << 4u8);
        assert(b64_encode(b, url_safe, pad) == seq![b64_symbol(x0, url_safe), b64_symbol(x1, url_safe)]
            + (if pad { seq![61u8, 61u8] } else { seq![] }));
    }
}

/// The text that `String::from_utf8_lossy` makes of `bytes`: their UTF-8
/// decoding, with each invalid sequence replaced by U+FFFD.
pub uninterp spec fn utf8_lossy(bytes: Seq<u8>) -> Seq<char>;

/// Calls `STANDARD.encode` of the `base64` crate (standard alphabet, with
/// padding). Claimed: the result's characters are the RFC 4648 encoding of
/// `bytes`. The crate panics when the encoded length overflows `usize`; the
/// `requires` rules that out.
#[verifier::external_body]
pub(crate) fn encode_standard(bytes: &[u8]) -> (r: String)
    requires
        (bytes@.len() / 3) * 4 + 4 <= usize::MAX,
    ensures
        encode_utf8(r@) == b64_encode(bytes@, false, true),
{
    base64::engine::general_purpose::STANDARD.encode(bytes)
}

/// Calls `URL_SAFE_NO_PAD.decode` of the `base64` crate. Claimed: it succeeds
/// exactly on the canonical unpadded URL-safe encodings (the crate rejects
/// padding, symbols outside the alphabet, impossible lengths and non-zero
/// trailing bits), and then returns the encoded bytes.
#[verifier::external_body]
pub(crate) fn decode_url_safe_no_pad(text: &str) -> (r: Option<Vec<u8>>)
    ensures
        r matches Some(b) ==> b64_encode(b@, true, false) == text.spec_bytes(),
        r is None ==> !is_b64(text.spec_bytes(), true, false),
{
    base64::engine::general_purpose::URL_SAFE_NO_PAD.decode(text).ok()
}

/// Calls `URL_SAFE.decode` of the `base64` crate. Claimed: it succeeds
/// exactly on the canonical padded URL-safe encodings (the crate requires
/// canonical padding and zero trailing bits), and then returns the encoded
/// bytes.
#[verifier::external_body]
pub(crate) fn decode_url_safe(text: &str) -> (r: Option<Vec<u8>>)
    ensures
        r matches Some(b) ==> b64_encode(b@, true, true) == text.spec_bytes(),
        r is None ==> !is_b64(text.spec_bytes(), true, true),
{
    base64::engine::general_purpose::URL_SAFE.decode(text).ok()
}

/// Calls `std::str::from_utf8`. Claimed, as its documentation says: it
/// succeeds exactly when `bytes` are valid UTF-8, and the string it returns
/// has those bytes.
#[verifier::external_body]
pub(crate) fn str_from_utf8(bytes: &[u8]) -> (r: Option<&str>)
    ensures
        r is Some <==> valid_utf8(bytes@),
        r matches Some(s) ==> s.spec_bytes() == bytes@,
{
    std::str::from_utf8(bytes).ok()
}

/// Calls `String::from_utf8_lossy`. Claimed: the result is a function of
/// the bytes alone, and valid UTF-8 is decoded unchanged. What it makes of
/// invalid sequences is left unsaid.
#[verifier::external_body]
pub(crate) fn string_from_utf8_lossy(bytes: &[u8]) -> (r: String)
    ensures
        r@ == utf8_lossy(bytes@),
        valid_utf8(bytes@) ==> r@ == decode_utf8(bytes@),
{
    String::from_utf8_lossy(bytes).into_owned()
}

/// Decodes `text` as unpadded URL-safe base64, or failing that as padded
/// URL-safe base64.
pub fn decode_url_safe_either(text: &str) -> (r: Option<Vec<u8>>)
    ensures
        r matches Some(b) ==> Some(b@) == b64_decode_either(text.spec_bytes()),
        r is None <==> b64_decode_either(text.spec_bytes()) is None,
{
    match decode_url_safe_no_pad(text) {
        Some(b) => {
            proof {
                lemma_b64_decode_encode(b@, true, false);
            }
            Some(b)
        },
        None => {
            let r = decode_url_safe(text);
            proof {
                if r is Some {
                    lemma_b64_decode_encode(r->0@, true, true);
                }
            }
            r
        },
    }
}

/// URL-safe decoding that accepts either the unpadded or the padded form.
pub open spec fn b64_decode_either(s: Seq<u8>) -> Option<Seq<u8>> {
    match b64_decode(s, true, false) {
        Some(b) => Some(b),
        None => b64_decode(s, true, true),
    }
}

} // verus!
