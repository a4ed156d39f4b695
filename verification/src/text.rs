//! Text: decimal numbers, joining, the two ways of reading bytes as text, and what errors say.

use std::io::Error as IoError;

use vstd::prelude::*;
use vstd::string::{StringExecFns, StringSliceAdditionalSpecFns};
use vstd::utf8::{decode_utf8, encode_utf8, valid_utf8};

use crate::wire::lemma_encode_injective;

verus! {

#[verifier::external_type_specification]
#[verifier::external_body]
pub struct ExUtf8Error(std::str::Utf8Error);

#[verifier::external_type_specification]
#[verifier::external_body]
pub struct ExIoError(IoError);

/// What an I/O error says.
pub uninterp spec fn io_text(error: IoError) -> Seq<char>;

/// What a `Utf8Error` says.
pub uninterp spec fn utf8_error_text(error: std::str::Utf8Error) -> Seq<char>;

/// What is said of bytes that are not UTF-8: where they cease to be.
pub uninterp spec fn utf8_fault(bytes: Seq<u8>) -> Seq<char>;

/// `std::str::from_utf8`: the text whose UTF-8 encoding the bytes are, if they are valid UTF-8. The
/// error says where they cease to be.
pub assume_specification<'a>[ std::str::from_utf8 ](v: &'a [u8]) -> (text: Result<
    &'a str,
    std::str::Utf8Error,
>)
    ensures
        text is Ok <==> valid_utf8(v@),
        text matches Ok(s) ==> s.spec_bytes() == v@,
        text matches Err(e) ==> utf8_error_text(e) == utf8_fault(v@),
;

/// The text that `String::from_utf8_lossy` makes of bytes that are not valid UTF-8.
pub uninterp spec fn utf8_repaired(bytes: Seq<u8>) -> Seq<char>;

/// Bytes read as text that must not fail: as they are where they are UTF-8, repaired where not.
pub open spec fn utf8_lossy(bytes: Seq<u8>) -> Seq<char> {
    if valid_utf8(bytes) {
        decode_utf8(bytes)
    } else {
        utf8_repaired(bytes)
    }
}

/// Text that was encoded reads back as it was.
pub proof fn lemma_lossy_of_encoded(text: Seq<char>)
    ensures
        utf8_lossy(encode_utf8(text)) == text,
{
    broadcast use vstd::utf8::group_utf8_lib;

}

/// `String::from_utf8_lossy`: the bytes as text, with replacement characters for what is not
/// UTF-8. Valid UTF-8 comes out unchanged.
#[verifier::external_body]
pub(crate) fn text_lossy(bytes: &[u8]) -> (text: String)
    ensures
        valid_utf8(bytes@) ==> text@ == decode_utf8(bytes@),
        !valid_utf8(bytes@) ==> text@ == utf8_repaired(bytes@),
{
    String::from_utf8_lossy(bytes).into_owned()
}

/// One decimal digit.
pub open spec fn digit(d: nat) -> char {
    (('0' as u8 + d) as u8) as char
}

/// A number in decimal, without leading zeros.
pub open spec fn decimal(n: nat) -> Seq<char>
    decreases n,
{
    if n < 10 {
        seq![digit(n)]
    } else {
        decimal(n / 10).push(digit(n % 10))
    }
}

fn digit_text(d: u64) -> (text: &'static str)
    requires
        d < 10,
    ensures
        text@ == seq![digit(d as nat)],
{
    proof {
        reveal_strlit("0");
        reveal_strlit("1");
        reveal_strlit("2");
        reveal_strlit("3");
        reveal_strlit("4");
        reveal_strlit("5");
        reveal_strlit("6");
        reveal_strlit("7");
        reveal_strlit("8");
        reveal_strlit("9");
    }
    match d {
        0 => "0",
        1 => "1",
        2 => "2",
        3 => "3",
        4 => "4",
        5 => "5",
        6 => "6",
        7 => "7",
        8 => "8",
        _ => "9",
    }
}

/// Writes a number in decimal.
pub fn decimal_text(n: u64) -> (text: String)
    ensures
        text@ == decimal(n as nat),
    decreases n,
{
    if n < 10 {
        digit_text(n).to_owned()
    } else {
        let mut text = decimal_text(n / 10);
        text.append(digit_text(n % 10));
        proof {
            assert(text@ =~= decimal(n as nat));
        }
        text
    }
}

/// Compares two texts.
pub fn same_text(a: &str, b: &str) -> (same: bool)
    ensures
        same <==> a@ == b@,
{
    let left = a.as_bytes();
    let right = b.as_bytes();
    if left.len() != right.len() {
        return false;
    }
    let mut i: usize = 0;
    while i < left.len()
        invariant
            i <= left@.len(),
            left@.len() == right@.len(),
            left@ == encode_utf8(a@),
            right@ == encode_utf8(b@),
            forall|j: int| 0 <= j < i ==> left@[j] == right@[j],
        decreases left@.len() - i,
    {
        if left[i] != right[i] {
            return false;
        }
        i = i + 1;
    }
    proof {
        assert(left@ =~= right@);
        lemma_encode_injective(a@, b@);
    }
    true
}

// ---------------------------------------------------------------------------
// What holds of every number and text
// ---------------------------------------------------------------------------

/// The number that decimal digits spell.
pub open spec fn digits_value(text: Seq<char>) -> int
    decreases text.len(),
{
    if text.len() == 0 {
        0
    } else {
        10 * digits_value(text.drop_last()) + (text.last() as int - '0' as int)
    }
}

/// A number in decimal is made of digits, has no zero in front unless it is zero, and reads back as
/// the number.
pub proof fn law_decimal_reads_back(n: nat)
    ensures
        digits_value(decimal(n)) == n,
        decimal(n).len() > 0,
        decimal(n)[0] == '0' <==> n == 0,
        n == 0 ==> decimal(n).len() == 1,
        forall|i: int| 0 <= i < decimal(n).len() ==> '0' <= #[trigger] decimal(n)[i] <= '9',
    decreases n,
{
    reveal_with_fuel(digits_value, 2);
    if n >= 10 {
        law_decimal_reads_back(n / 10);
        assert(decimal(n).drop_last() =~= decimal(n / 10));
    } else {
        assert(decimal(n).drop_last() =~= Seq::<char>::empty());
    }
}

/// Different numbers look different.
pub proof fn law_decimal_tells_apart(n: nat, other: nat)
    requires
        n != other,
    ensures
        decimal(n) != decimal(other),
{
    law_decimal_reads_back(n);
    law_decimal_reads_back(other);
}

/// Bytes that are text are read as that text, and written as the same bytes again; only what is no
/// text is repaired.
pub proof fn law_text_is_not_repaired(bytes: Seq<u8>, text: Seq<char>)
    ensures
        utf8_lossy(encode_utf8(text)) == text,
        valid_utf8(bytes) ==> encode_utf8(utf8_lossy(bytes)) == bytes,
        !valid_utf8(bytes) ==> utf8_lossy(bytes) == utf8_repaired(bytes),
{
    broadcast use vstd::utf8::group_utf8_lib;

}

} // verus!
