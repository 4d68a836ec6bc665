//! Integers as they travel in a payload: big-endian, two's complement.

use vstd::arithmetic::div_mod::{lemma_fundamental_div_mod, lemma_fundamental_div_mod_converse};
use vstd::prelude::*;

verus! {

/// The `width` big-endian bytes of `value`, two's complement for a negative
/// one: the last byte is `value mod 256`, the bytes before it are those of
/// `value div 256`.
pub open spec fn be_bytes(value: int, width: nat) -> Seq<u8>
    decreases width,
{
    if width == 0 {
        Seq::empty()
    } else {
        be_bytes(value / 256, (width - 1) as nat).push((value % 256) as u8)
    }
}

/// The number that `bytes` spell in base 256, most significant byte first.
pub open spec fn be_unsigned(bytes: Seq<u8>) -> int
    decreases bytes.len(),
{
    if bytes.len() == 0 {
        0
    } else {
        be_unsigned(bytes.drop_last()) * 256 + bytes.last()
    }
}

/// 256 to the power `width`: the number of values that `width` bytes hold.
pub open spec fn span(width: nat) -> int
    decreases width,
{
    if width == 0 {
        1
    } else {
        256 * span((width - 1) as nat)
    }
}

/// The number that `bytes` spell as a two's complement integer.
pub open spec fn be_signed(bytes: Seq<u8>) -> int {
    let unsigned = be_unsigned(bytes);
    if 2 * unsigned >= span(bytes.len()) {
        unsigned - span(bytes.len())
    } else {
        unsigned
    }
}

/// The remainder by `256 * s`, from the remainder by 256 and that of the
/// quotient by `s`.
proof fn lemma_mod_of_product(value: int, s: int)
    requires
        s > 0,
    ensures
        value % (256 * s) == ((value / 256) % s) * 256 + value % 256,
{
    let high = value / 256;
    let quotient = high / s;
    let remainder = (high % s) * 256 + value % 256;
    lemma_fundamental_div_mod(value, 256);
    lemma_fundamental_div_mod(high, s);
    assert(value == quotient * (256 * s) + remainder) by (nonlinear_arith)
        requires
            value == 256 * high + value % 256,
            high == s * quotient + high % s,
            remainder == (high % s) * 256 + value % 256,
    ;
    assert(0 <= remainder < 256 * s) by (nonlinear_arith)
        requires
            0 <= high % s < s,
            0 <= value % 256 < 256,
            remainder == (high % s) * 256 + value % 256,
    ;
    lemma_fundamental_div_mod_converse(value, 256 * s, quotient, remainder);
}

/// Encoding yields `width` bytes.
pub proof fn lemma_be_bytes_len(value: int, width: nat)
    ensures
        be_bytes(value, width).len() == width,
    decreases width,
{
    if width > 0 {
        lemma_be_bytes_len(value / 256, (width - 1) as nat);
    }
}

/// The bytes of `value` spell `value mod 256^width`.
pub proof fn lemma_be_unsigned_of_bytes(value: int, width: nat)
    ensures
        be_unsigned(be_bytes(value, width)) == value % span(width),
        span(width) > 0,
    decreases width,
{
    if width > 0 {
        let rest = (width - 1) as nat;
        lemma_be_unsigned_of_bytes(value / 256, rest);
        lemma_be_bytes_len(value / 256, rest);
        let bytes = be_bytes(value, width);
        assert(bytes.drop_last() =~= be_bytes(value / 256, rest));
        assert(bytes.last() == (value % 256) as u8);
        lemma_mod_of_product(value, span(rest));
    }
}

/// Reading back what was written: a value within the unsigned range of
/// `width` bytes is the number that its bytes spell.
pub proof fn lemma_unsigned_round_trip(value: int, width: nat)
    requires
        0 <= value < span(width),
    ensures
        be_unsigned(be_bytes(value, width)) == value,
{
    lemma_be_unsigned_of_bytes(value, width);
    let s = span(width);
    assert(value % s == value) by (nonlinear_arith)
        requires
            0 <= value < s,
    ;
}

/// Reading back what was written: a value within the two's complement range
/// of `width` bytes is the signed number that its bytes spell.
pub proof fn lemma_signed_round_trip(value: int, width: nat)
    requires
        -span(width) <= 2 * value < span(width),
    ensures
        be_signed(be_bytes(value, width)) == value,
{
    lemma_be_unsigned_of_bytes(value, width);
    lemma_be_bytes_len(value, width);
    let s = span(width);
    if value >= 0 {
        assert(value % s == value) by (nonlinear_arith)
            requires
                0 <= value < s,
        ;
    } else {
        assert(value % s == value + s) by (nonlinear_arith)
            requires
                -s <= value < 0,
        ;
    }
}

/// One step of encoding, on the remainder `wrapped` of `value` by
/// `256^width`: its last digit is the last byte, and its other digits are
/// the remainder of `value div 256` by `256^(width - 1)`.
pub proof fn lemma_be_bytes_step(value: int, width: nat, wrapped: int)
    requires
        width > 0,
        wrapped == value % span(width),
    ensures
        be_bytes(value, width) == be_bytes(value / 256, (width - 1) as nat).push(
            (wrapped % 256) as u8,
        ),
        wrapped / 256 == (value / 256) % span((width - 1) as nat),
        0 <= wrapped % 256 < 256,
{
    let rest = (width - 1) as nat;
    lemma_be_unsigned_of_bytes(value, rest);
    lemma_mod_of_product(value, span(rest));
    let high = (value / 256) % span(rest);
    assert(wrapped == high * 256 + value % 256);
    assert(wrapped % 256 == value % 256 && wrapped / 256 == high) by {
        lemma_fundamental_div_mod_converse(wrapped, 256, high, value % 256);
    }
}

} // verus!
