//! Numbers as digits in base 256, least significant first or last.
use vstd::prelude::*;
use vstd::arithmetic::{div_mod, power};

verus! {

/// The `width` low bytes of `value`, least significant first.
pub open spec fn le_bytes(value: nat, width: nat) -> Seq<u8>
    decreases width,
{
    if width == 0 {
        Seq::empty()
    } else {
        seq![(value % 256) as u8] + le_bytes(value / 256, (width - 1) as nat)
    }
}

/// The number whose bytes, least significant first, are `bytes`.
pub open spec fn le_value(bytes: Seq<u8>) -> nat
    decreases bytes.len(),
{
    if bytes.len() == 0 {
        0
    } else {
        bytes[0] as nat + 256 * le_value(bytes.drop_first())
    }
}

/// The `width` low bytes of `value`, most significant first.
pub open spec fn be_bytes(value: nat, width: nat) -> Seq<u8> {
    le_bytes(value, width).reverse()
}

/// The number whose bytes, most significant first, are `bytes`.
pub open spec fn be_value(bytes: Seq<u8>) -> nat {
    le_value(bytes.reverse())
}

/// 256 to the power of `width`: the first number that needs more bytes.
pub open spec fn byte_limit(width: nat) -> nat
    decreases width,
{
    if width == 0 {
        1
    } else {
        256 * byte_limit((width - 1) as nat)
    }
}

/// An encoded number takes as many bytes as were asked for.
pub broadcast proof fn lemma_le_bytes_len(value: nat, width: nat)
    ensures
        #[trigger] le_bytes(value, width).len() == width,
    decreases width,
{
    if width > 0 {
        lemma_le_bytes_len(value / 256, (width - 1) as nat);
    }
}

/// A number stays below the limit of its width.
pub proof fn lemma_le_value_bound(bytes: Seq<u8>)
    ensures
        le_value(bytes) < byte_limit(bytes.len()),
    decreases bytes.len(),
{
    if bytes.len() > 0 {
        lemma_le_value_bound(bytes.drop_first());
    }
}

/// Decoding gives back every number that fits in the width.
pub proof fn lemma_le_value_of_bytes(value: nat, width: nat)
    requires
        value < byte_limit(width),
    ensures
        le_value(le_bytes(value, width)) == value,
    decreases width,
{
    lemma_le_bytes_len(value, width);
    if width > 0 {
        let rest = le_bytes(value / 256, (width - 1) as nat);
        lemma_le_value_of_bytes(value / 256, (width - 1) as nat);
        assert(le_bytes(value, width).drop_first() =~= rest);
    }
}

/// Encoding gives back the bytes that a number was decoded from.
pub proof fn lemma_le_bytes_of_value(bytes: Seq<u8>)
    ensures
        le_bytes(le_value(bytes), bytes.len()) == bytes,
    decreases bytes.len(),
{
    if bytes.len() > 0 {
        lemma_le_bytes_of_value(bytes.drop_first());
        let value = le_value(bytes);
        assert(value % 256 == bytes[0] as nat);
        assert(value / 256 == le_value(bytes.drop_first()));
        assert(seq![bytes[0]] + bytes.drop_first() =~= bytes);
    } else {
        assert(le_bytes(le_value(bytes), 0) =~= bytes);
    }
}

/// Decoding big-endian bytes gives back every number that fits in the width.
pub proof fn lemma_be_value_of_bytes(value: nat, width: nat)
    requires
        value < byte_limit(width),
    ensures
        be_bytes(value, width).len() == width,
        be_value(be_bytes(value, width)) == value,
{
    lemma_le_bytes_len(value, width);
    lemma_le_value_of_bytes(value, width);
    assert(be_bytes(value, width).reverse() =~= le_bytes(value, width));
}

/// The limits of the widths that are in use.
pub proof fn lemma_byte_limits()
    ensures
        byte_limit(2) == 0x1_0000,
        byte_limit(4) == 0x1_0000_0000,
        byte_limit(8) == 0x1_0000_0000_0000_0000,
{
    reveal_with_fuel(byte_limit, 9);
}

/// Bytes show a number only up to multiples of the limit of their width.
pub proof fn lemma_le_bytes_agree(a: nat, b: nat, width: nat)
    requires
        a % byte_limit(width) == b % byte_limit(width),
    ensures
        le_bytes(a, width) == le_bytes(b, width),
    decreases width,
{
    if width > 0 {
        let rest = byte_limit((width - 1) as nat) as int;
        lemma_le_value_bound(le_bytes(0, (width - 1) as nat));
        lemma_le_bytes_len(0, (width - 1) as nat);
        div_mod::lemma_mod_breakdown(a as int, 256, rest);
        div_mod::lemma_mod_breakdown(b as int, 256, rest);
        assert(a % 256 == b % 256);
        lemma_le_bytes_agree(a / 256, b / 256, (width - 1) as nat);
    }
}

/// Four bytes show a number only up to multiples of 2^32.
pub proof fn lemma_le_bytes_wrap(a: nat, b: nat)
    requires
        a % 0x1_0000_0000 == b % 0x1_0000_0000,
    ensures
        le_bytes(a, 4) == le_bytes(b, 4),
{
    lemma_byte_limits();
    lemma_le_bytes_agree(a, b, 4);
}

/// Byte `i` of an encoded number, counted from the least significant one, is its digit for
/// 256 to the power of `i`.
pub proof fn law_le_digits(value: nat, width: nat, i: nat)
    requires
        i < width,
    ensures
        le_bytes(value, width)[i as int] == (value as int / power::pow(256, i)) % 256,
    decreases width,
{
    reveal(power::pow);
    lemma_le_bytes_len(value / 256, (width - 1) as nat);
    if i > 0 {
        let before = (i - 1) as nat;
        law_le_digits(value / 256, (width - 1) as nat, before);
        power::lemma_pow_positive(256, before);
        div_mod::lemma_div_denominator(value as int, 256, power::pow(256, before));
    }
}

/// Byte `i` of a number that is encoded most significant byte first is its digit for 256 to
/// the power of the number of bytes that follow.
pub proof fn law_be_digits(value: nat, width: nat, i: nat)
    requires
        i < width,
    ensures
        be_bytes(value, width).len() == width,
        be_bytes(value, width)[i as int] == (value as int / power::pow(256, (width - 1 - i) as nat))
            % 256,
{
    lemma_le_bytes_len(value, width);
    law_le_digits(value, width, (width - 1 - i) as nat);
}

/// One more byte at the end counts for 256 to the power of the number of bytes before it,
/// where the least significant byte comes first.
pub proof fn law_le_value_grows(bytes: Seq<u8>, last: u8)
    ensures
        le_value(Seq::empty()) == 0,
        le_value(bytes.push(last)) == le_value(bytes) + power::pow(256, bytes.len()) * last,
    decreases bytes.len(),
{
    reveal(power::pow);
    let grown = bytes.push(last);
    if bytes.len() == 0 {
        assert(grown.drop_first() =~= Seq::empty());
        assert(power::pow(256, 0) * last == last) by (nonlinear_arith)
            requires
                power::pow(256, 0) == 1,
        ;
    } else {
        let rest = bytes.drop_first();
        law_le_value_grows(rest, last);
        assert(grown.drop_first() =~= rest.push(last));
        assert(256 * (power::pow(256, rest.len()) * last) == power::pow(256, bytes.len()) * last)
            by (nonlinear_arith)
            requires
                power::pow(256, bytes.len()) == 256 * power::pow(256, rest.len()),
        ;
    }
}

/// One more byte at the end moves the others up by one place, where the most significant
/// byte comes first.
pub proof fn law_be_value_grows(bytes: Seq<u8>, last: u8)
    ensures
        be_value(Seq::empty()) == 0,
        be_value(bytes.push(last)) == 256 * be_value(bytes) + last,
{
    let digits = bytes.push(last).reverse();
    assert(Seq::<u8>::empty().reverse() =~= Seq::empty());
    assert(digits.drop_first() =~= bytes.reverse());
}

/// What four bytes count for, read from either end.
pub proof fn law_four_bytes(bytes: Seq<u8>)
    requires
        bytes.len() == 4,
    ensures
        le_value(bytes) == bytes[0] + 0x100 * bytes[1] + 0x1_0000 * bytes[2] + 0x100_0000
            * bytes[3],
        be_value(bytes) == bytes[3] + 0x100 * bytes[2] + 0x1_0000 * bytes[1] + 0x100_0000
            * bytes[0],
{
    reveal_with_fuel(le_value, 5);
}

/// What eight bytes count for, the least significant first.
pub proof fn law_eight_bytes(bytes: Seq<u8>)
    requires
        bytes.len() == 8,
    ensures
        le_value(bytes) == bytes[0] + 0x100 * bytes[1] + 0x1_0000 * bytes[2] + 0x100_0000
            * bytes[3] + 0x1_0000_0000 * bytes[4] + 0x100_0000_0000 * bytes[5]
            + 0x1_0000_0000_0000 * bytes[6] + 0x100_0000_0000_0000 * bytes[7],
{
    reveal_with_fuel(le_value, 9);
}

/// Four bytes show the low 32 bits of a number, from either end.
pub proof fn law_four_bytes_show(value: nat)
    ensures
        ({
            let low = le_bytes(value, 4);
            let high = be_bytes(value, 4);
            &&& low.len() == 4
            &&& low[0] + 0x100 * low[1] + 0x1_0000 * low[2] + 0x100_0000 * low[3] == value
                % 0x1_0000_0000
            &&& high.len() == 4
            &&& high[3] + 0x100 * high[2] + 0x1_0000 * high[1] + 0x100_0000 * high[0] == value
                % 0x1_0000_0000
        }),
{
    let shown = value % 0x1_0000_0000;
    lemma_byte_limits();
    lemma_le_bytes_len(value, 4);
    lemma_le_bytes_wrap(value, shown);
    lemma_le_value_of_bytes(shown, 4);
    law_four_bytes(le_bytes(value, 4));
}

/// Eight bytes show a whole number below 2^64.
pub proof fn law_eight_bytes_show(value: u64)
    ensures
        ({
            let low = le_bytes(value as nat, 8);
            &&& low.len() == 8
            &&& low[0] + 0x100 * low[1] + 0x1_0000 * low[2] + 0x100_0000 * low[3]
                + 0x1_0000_0000 * low[4] + 0x100_0000_0000 * low[5] + 0x1_0000_0000_0000
                * low[6] + 0x100_0000_0000_0000 * low[7] == value
        }),
{
    lemma_byte_limits();
    lemma_le_bytes_len(value as nat, 8);
    lemma_le_value_of_bytes(value as nat, 8);
    law_eight_bytes(le_bytes(value as nat, 8));
}

/// Appends `tail` to `out`.
pub(crate) fn append_bytes(out: &mut Vec<u8>, tail: &[u8])
    ensures
        final(out)@ == old(out)@ + tail@,
{
    out.extend_from_slice(tail);
    assert(out@ =~= old(out)@ + tail@);
}

/// Encodes the `width` low bytes of `value`, least significant first.
pub fn encode_le(value: u64, width: usize) -> (bytes: Vec<u8>)
    ensures
        bytes@ == le_bytes(value as nat, width as nat),
{
    let mut bytes: Vec<u8> = Vec::new();
    let mut rest: u64 = value;
    let mut left: usize = width;
    assert(bytes@ + le_bytes(rest as nat, left as nat) =~= le_bytes(value as nat, width as nat));
    while left > 0
        invariant
            bytes@ + le_bytes(rest as nat, left as nat) == le_bytes(value as nat, width as nat),
        decreases left,
    {
        let ghost before = bytes@;
        let ghost tail = le_bytes((rest / 256) as nat, (left - 1) as nat);
        assert(le_bytes(rest as nat, left as nat) == seq![(rest % 256) as u8] + tail);
        bytes.push((rest % 256) as u8);
        rest = rest / 256;
        left = left - 1;
        assert(bytes@ + tail =~= before + (seq![bytes@[before.len() as int]] + tail));
    }
    assert(bytes@ + le_bytes(rest as nat, 0) =~= bytes@);
    bytes
}

/// Encodes the `width` low bytes of `value`, most significant first.
pub fn encode_be(value: u64, width: usize) -> (bytes: Vec<u8>)
    ensures
        bytes@ == be_bytes(value as nat, width as nat),
{
    let digits: Vec<u8> = encode_le(value, width);
    proof {
        lemma_le_bytes_len(value as nat, width as nat);
    }
    let mut bytes: Vec<u8> = Vec::new();
    let mut left: usize = digits.len();
    while left > 0
        invariant
            left <= digits@.len(),
            bytes@.len() == digits@.len() - left,
            forall|i: int| 0 <= i < bytes@.len() ==> bytes@[i] == digits@[digits@.len() - 1 - i],
        decreases left,
    {
        left = left - 1;
        bytes.push(digits[left]);
    }
    assert(bytes@ =~= digits@.reverse());
    bytes
}

/// Decodes the `width` bytes of `bytes` from `start` on, least significant first.
pub fn decode_le(bytes: &[u8], start: usize, width: usize) -> (value: u64)
    requires
        start + width <= bytes@.len(),
        width <= 8,
    ensures
        value as nat == le_value(bytes@.subrange(start as int, start + width)),
        (value as nat) < byte_limit(width as nat),
{
    let ghost field = bytes@.subrange(start as int, start + width);
    let mut value: u64 = 0;
    let mut left: usize = width;
    while left > 0
        invariant
            left <= width <= 8,
            start + width <= bytes.len(),
            field == bytes@.subrange(start as int, start + width),
            value as nat == le_value(field.skip(left as int)),
        decreases left,
    {
        let ghost after = field.skip(left as int);
        left = left - 1;
        let ghost here = field.skip(left as int);
        proof {
            lemma_le_value_bound(after);
            reveal_with_fuel(byte_limit, 9);
            assert(here.drop_first() =~= after);
            assert(here[0] == bytes@[start + left]);
        }
        value = bytes[start + left] as u64 + 256 * value;
    }
    proof {
        assert(field.skip(0) =~= field);
        lemma_le_value_bound(field);
    }
    value
}

/// Decodes the `width` bytes of `bytes` from `start` on, most significant first.
pub fn decode_be(bytes: &[u8], start: usize, width: usize) -> (value: u64)
    requires
        start + width <= bytes@.len(),
        width <= 8,
    ensures
        value as nat == be_value(bytes@.subrange(start as int, start + width)),
        (value as nat) < byte_limit(width as nat),
{
    let ghost field = bytes@.subrange(start as int, start + width);
    let ghost digits = field.reverse();
    let mut value: u64 = 0;
    let mut done: usize = 0;
    while done < width
        invariant
            done <= width <= 8,
            start + width <= bytes.len(),
            field == bytes@.subrange(start as int, start + width),
            digits == field.reverse(),
            value as nat == le_value(digits.skip(width - done)),
        decreases width - done,
    {
        let ghost after = digits.skip(width - done);
        let ghost here = digits.skip(width - done - 1);
        proof {
            lemma_le_value_bound(after);
            reveal_with_fuel(byte_limit, 9);
            assert(here.drop_first() =~= after);
            assert(here[0] == bytes@[start + done]);
        }
        value = bytes[start + done] as u64 + 256 * value;
        done = done + 1;
    }
    proof {
        assert(digits.skip(0) =~= digits);
        lemma_le_value_bound(digits);
    }
    value
}

} // verus!
