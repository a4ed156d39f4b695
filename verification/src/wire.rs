//! What numbers and strings look like on the wire: fixed-width integers in either byte order,
//! and strings that end at a zero byte.

use vstd::prelude::*;
use vstd::utf8::{
    decode_utf8, encode_scalar, encode_utf8, is_char_boundary,
    is_char_boundary_iff_not_is_continuation_byte, is_char_boundary_start_end_of_seq,
    is_continuation_byte,
};

verus! {

// ---------------------------------------------------------------------------
// Integers
// ---------------------------------------------------------------------------

/// How many numbers `width` bytes can tell apart.
pub open spec fn span(width: nat) -> nat
    decreases width,
{
    if width == 0 {
        1
    } else {
        256 * span((width - 1) as nat)
    }
}

/// The number that `bytes` spell, least significant byte first.
pub open spec fn le_value(bytes: Seq<u8>) -> nat
    decreases bytes.len(),
{
    if bytes.len() == 0 {
        0
    } else {
        bytes[0] as nat + 256 * le_value(bytes.drop_first())
    }
}

/// The low `width` bytes of `n`, least significant byte first.
pub open spec fn le_bytes(n: nat, width: nat) -> Seq<u8>
    decreases width,
{
    if width == 0 {
        seq![]
    } else {
        seq![(n % 256) as u8] + le_bytes(n / 256, (width - 1) as nat)
    }
}

/// The number that `bytes` spell, most significant byte first.
pub open spec fn be_value(bytes: Seq<u8>) -> nat
    decreases bytes.len(),
{
    if bytes.len() == 0 {
        0
    } else {
        256 * be_value(bytes.drop_last()) + bytes.last() as nat
    }
}

/// The low `width` bytes of `n`, most significant byte first.
pub open spec fn be_bytes(n: nat, width: nat) -> Seq<u8>
    decreases width,
{
    if width == 0 {
        seq![]
    } else {
        be_bytes(n / 256, (width - 1) as nat).push((n % 256) as u8)
    }
}

/// The four bytes of a signed 32-bit number in network order: two's complement, most
/// significant byte first.
pub open spec fn be_i32(n: int) -> Seq<u8> {
    be_bytes((n % 0x1_0000_0000) as nat, 4)
}

/// The signed number that four bytes in network order spell.
pub open spec fn be_i32_value(bytes: Seq<u8>) -> int {
    if be_value(bytes) < 0x8000_0000 {
        be_value(bytes) as int
    } else {
        be_value(bytes) - 0x1_0000_0000
    }
}

pub proof fn lemma_le_bytes_len(n: nat, width: nat)
    ensures
        le_bytes(n, width).len() == width,
    decreases width,
{
    if width > 0 {
        lemma_le_bytes_len(n / 256, (width - 1) as nat);
    }
}

pub proof fn lemma_be_bytes_len(n: nat, width: nat)
    ensures
        be_bytes(n, width).len() == width,
    decreases width,
{
    if width > 0 {
        lemma_be_bytes_len(n / 256, (width - 1) as nat);
    }
}

/// Little-endian bytes read back as the number that was written, if it fits the width.
pub proof fn lemma_le_round_trip(n: nat, width: nat)
    requires
        n < span(width),
    ensures
        le_value(le_bytes(n, width)) == n,
    decreases width,
{
    if width > 0 {
        lemma_le_round_trip(n / 256, (width - 1) as nat);
        assert(le_bytes(n, width).drop_first() =~= le_bytes(n / 256, (width - 1) as nat));
    }
}

/// Big-endian bytes read back as the number that was written, if it fits the width.
pub proof fn lemma_be_round_trip(n: nat, width: nat)
    requires
        n < span(width),
    ensures
        be_value(be_bytes(n, width)) == n,
    decreases width,
{
    if width > 0 {
        lemma_be_round_trip(n / 256, (width - 1) as nat);
        assert(be_bytes(n, width).drop_last() =~= be_bytes(n / 256, (width - 1) as nat));
    }
}

/// A signed 32-bit number reads back from its network bytes.
pub proof fn lemma_be_i32_round_trip(n: int)
    requires
        -0x8000_0000 <= n < 0x8000_0000,
    ensures
        be_i32(n).len() == 4,
        be_i32_value(be_i32(n)) == n,
{
    reveal_with_fuel(span, 5);
    lemma_be_bytes_len((n % 0x1_0000_0000) as nat, 4);
    lemma_be_round_trip((n % 0x1_0000_0000) as nat, 4);
}

/// `le_value` on two, three and four bytes, written out.
pub proof fn lemma_le_value_digits(bytes: Seq<u8>)
    ensures
        bytes.len() == 2 ==> le_value(bytes) == bytes[0] + 256 * bytes[1],
        bytes.len() == 3 ==> le_value(bytes) == bytes[0] + 256 * bytes[1] + 65536 * bytes[2],
        bytes.len() == 4 ==> le_value(bytes) == bytes[0] + 256 * bytes[1] + 65536 * bytes[2]
            + 16777216 * bytes[3],
{
    reveal_with_fuel(le_value, 5);
}

/// `be_value` on four bytes, written out.
pub proof fn lemma_be_value_digits(bytes: Seq<u8>)
    ensures
        bytes.len() == 4 ==> be_value(bytes) == 16777216 * bytes[0] + 65536 * bytes[1] + 256
            * bytes[2] + bytes[3],
{
    reveal_with_fuel(be_value, 5);
}

/// `le_bytes` at widths two, three and four, written out.
pub proof fn lemma_le_bytes_digits(n: nat)
    ensures
        le_bytes(n, 2) == seq![(n % 256) as u8, (n / 256 % 256) as u8],
        le_bytes(n, 3) == seq![(n % 256) as u8, (n / 256 % 256) as u8, (n / 65536 % 256) as u8],
        le_bytes(n, 4) == seq![
            (n % 256) as u8,
            (n / 256 % 256) as u8,
            (n / 65536 % 256) as u8,
            (n / 16777216 % 256) as u8,
        ],
{
    reveal_with_fuel(le_bytes, 5);
    assert(le_bytes(n, 2) =~= seq![(n % 256) as u8, (n / 256 % 256) as u8]);
    assert(le_bytes(n, 3) =~= seq![
        (n % 256) as u8,
        (n / 256 % 256) as u8,
        (n / 65536 % 256) as u8,
    ]);
    assert(le_bytes(n, 4) =~= seq![
        (n % 256) as u8,
        (n / 256 % 256) as u8,
        (n / 65536 % 256) as u8,
        (n / 16777216 % 256) as u8,
    ]);
}

// ---------------------------------------------------------------------------
// Strings
// ---------------------------------------------------------------------------

/// A string as most fields carry it: its UTF-8 bytes and a zero byte.
pub open spec fn cstr(text: Seq<char>) -> Seq<u8> {
    encode_utf8(text).push(0)
}

/// Whether `bytes` can stand in a field that ends at the first zero byte.
pub open spec fn nul_free(bytes: Seq<u8>) -> bool {
    !bytes.contains(0)
}

/// What stands before the first zero byte; everything, if there is none.
pub open spec fn before_nul(bytes: Seq<u8>) -> Seq<u8> {
    match bytes.index_of_first(0) {
        Some(end) => bytes.take(end),
        None => bytes,
    }
}

/// The first zero byte after a field without one is the field's own terminator.
pub proof fn lemma_nul_after(field: Seq<u8>, rest: Seq<u8>)
    requires
        nul_free(field),
    ensures
        (field.push(0) + rest).index_of_first(0) == Some(field.len() as int),
        (field.push(0) + rest).take(field.len() as int) == field,
        (field.push(0) + rest).skip(field.len() as int + 1) == rest,
{
    let whole = field.push(0) + rest;
    whole.index_of_first_ensures(0);
    assert(whole[field.len() as int] == 0);
    assert(whole.contains(0));
    let at = whole.index_of_first(0)->0;
    if at < field.len() {
        assert(field[at] == whole[at]);
        assert(field.contains(0));
    }
    assert(whole.take(field.len() as int) =~= field);
    assert(whole.skip(field.len() as int + 1) =~= rest);
}

/// A field without a zero byte is read up to the zero byte that ends it, or as a whole if nothing
/// ends it.
pub proof fn law_field_ends_at_nul(field: Seq<u8>, rest: Seq<u8>)
    requires
        !field.contains(0),
    ensures
        before_nul(field.push(0) + rest) == field,
        before_nul(field) == field,
{
    lemma_nul_after(field, rest);
    field.index_of_first_ensures(0);
}

proof fn lemma_scalar_zero_byte(scalar: u32)
    ensures
        encode_scalar(scalar).contains(0) <==> scalar == 0,
        encode_scalar(scalar).len() >= 1,
{
    assert((scalar & 0x7F) as u8 == 0 && scalar <= 0x7F ==> scalar == 0) by (bit_vector);
    assert(0u32 & 0x7F == 0) by (bit_vector);
    assert(forall|b: u8| #[trigger] (0xC0u8 | b) != 0) by (bit_vector);
    assert(forall|b: u8| #[trigger] (0xE0u8 | b) != 0) by (bit_vector);
    assert(forall|b: u8| #[trigger] (0xF0u8 | b) != 0) by (bit_vector);
    assert(forall|b: u8| #[trigger] (0x80u8 | b) != 0) by (bit_vector);
    let bytes = encode_scalar(scalar);
    if scalar == 0 {
        assert(bytes[0] == 0);
    }
}

proof fn lemma_char_zero_byte(c: char)
    ensures
        encode_scalar(c as u32).contains(0) <==> c == '\0',
{
    lemma_scalar_zero_byte(c as u32);
}

/// UTF-8 has a zero byte exactly where the text has a NUL character.
pub proof fn lemma_encode_nul_free(text: Seq<char>)
    ensures
        nul_free(encode_utf8(text)) <==> !text.contains('\0'),
    decreases text.len(),
{
    if text.len() > 0 {
        let head = encode_scalar(text[0] as u32);
        let tail = encode_utf8(text.drop_first());
        lemma_encode_nul_free(text.drop_first());
        lemma_char_zero_byte(text[0]);
        if head.contains(0) {
            let i = head.index_of(0);
            assert((head + tail)[i] == 0);
            assert(text[0] == '\0');
        }
        if tail.contains(0) {
            let i = tail.index_of(0);
            assert((head + tail)[head.len() + i] == 0);
            let j = text.drop_first().index_of('\0');
            assert(text[j + 1] == '\0');
        }
        if text.contains('\0') {
            let j = text.index_of('\0');
            if j > 0 {
                assert(text.drop_first()[j - 1] == '\0');
            }
        }
        if (head + tail).contains(0) {
            let i = (head + tail).index_of(0);
            if i < head.len() {
                assert(head[i] == 0);
            } else {
                assert(tail[i - head.len()] == 0);
            }
        }
    }
}

/// Encoding goes through concatenation.
pub proof fn lemma_encode_concat(a: Seq<char>, b: Seq<char>)
    ensures
        encode_utf8(a + b) == encode_utf8(a) + encode_utf8(b),
    decreases a.len(),
{
    if a.len() == 0 {
        assert(a + b =~= b);
        assert(encode_utf8(a) + encode_utf8(b) =~= encode_utf8(b));
    } else {
        lemma_encode_concat(a.drop_first(), b);
        assert((a + b).drop_first() =~= a.drop_first() + b);
        assert(encode_utf8(a + b) =~= encode_utf8(a) + encode_utf8(b));
    }
}

/// Two texts with the same bytes are the same text.
pub proof fn lemma_encode_injective(a: Seq<char>, b: Seq<char>)
    requires
        encode_utf8(a) == encode_utf8(b),
    ensures
        a == b,
{
    broadcast use vstd::utf8::group_utf8_lib;

    assert(decode_utf8(encode_utf8(a)) == a);
    assert(decode_utf8(encode_utf8(b)) == b);
}

proof fn lemma_scalar_starts_char(scalar: u32)
    ensures
        encode_scalar(scalar).len() >= 1,
        !is_continuation_byte(encode_scalar(scalar)[0]),
{
    assert((scalar & 0x7F) as u8 <= 0x7F) by (bit_vector);
    assert(forall|b: u8| #[trigger] (0xC0u8 | b) > 0xBF) by (bit_vector);
    assert(forall|b: u8| #[trigger] (0xE0u8 | b) > 0xBF) by (bit_vector);
    assert(forall|b: u8| #[trigger] (0xF0u8 | b) > 0xBF) by (bit_vector);
}

/// A text can be cut, in its bytes, where two texts were joined.
pub proof fn lemma_cut_between(a: Seq<char>, b: Seq<char>)
    ensures
        is_char_boundary(encode_utf8(a + b), encode_utf8(a).len() as int),
{
    broadcast use vstd::utf8::group_utf8_lib;

    lemma_encode_concat(a, b);
    let cut = encode_utf8(a).len() as int;
    if b.len() == 0 {
        assert(encode_utf8(a + b) =~= encode_utf8(a));
        is_char_boundary_start_end_of_seq(encode_utf8(a + b));
    } else {
        lemma_scalar_starts_char(b[0] as u32);
        assert(encode_utf8(a + b)[cut] == encode_scalar(b[0] as u32)[0]);
        is_char_boundary_iff_not_is_continuation_byte(encode_utf8(a + b), cut);
    }
}

/// The position of the first zero byte.
pub fn find_nul(bytes: &[u8]) -> (position: Option<usize>)
    ensures
        match position {
            Some(i) => bytes@.index_of_first(0) == Some(i as int),
            None => bytes@.index_of_first(0) is None,
        },
{
    proof {
        bytes@.index_of_first_ensures(0);
    }
    let mut i: usize = 0;
    while i < bytes.len()
        invariant
            i <= bytes@.len(),
            forall|j: int| 0 <= j < i ==> bytes@[j] != 0,
        decreases bytes@.len() - i,
    {
        if bytes[i] == 0 {
            proof {
                bytes@.index_of_first_ensures(0);
                assert(bytes@.contains(bytes@[i as int]));
            }
            return Some(i);
        }
        i = i + 1;
    }
    proof {
        bytes@.index_of_first_ensures(0);
    }
    None
}

} // verus!
