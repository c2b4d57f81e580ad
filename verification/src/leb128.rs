//! LEB128, the variable-length integers of DWARF.

use vstd::arithmetic::power::*;
use vstd::prelude::*;

verus! {

/// The unsigned encoding: groups of seven bits, least significant group first, the high bit
/// set on every byte but the last.
pub open spec fn uleb128(value: nat) -> Seq<u8>
    decreases value,
{
    if value < 128 {
        seq![value as u8]
    } else {
        seq![(128 + value % 128) as u8] + uleb128(value / 128)
    }
}

/// Whether `value` fits in the seven bits of one byte of the signed encoding.
pub open spec fn fits_one_group(value: int) -> bool {
    -64 <= value < 64
}

/// The signed encoding: two's complement, in groups of seven bits, least significant group
/// first, the high bit set on every byte but the last.
pub open spec fn sleb128(value: int) -> Seq<u8>
    decreases (if value < 0 { -value } else { value }),
{
    if fits_one_group(value) {
        seq![(value % 128) as u8]
    } else {
        seq![(128 + value % 128) as u8] + sleb128(value / 128)
    }
}

/// Reads an unsigned number from the front of `bytes`: its value and the bytes it takes.
pub open spec fn read_uleb128(bytes: Seq<u8>) -> Option<(nat, int)>
    decreases bytes.len(),
{
    if bytes.len() == 0 {
        None
    } else if bytes[0] < 128 {
        Some((bytes[0] as nat, 1))
    } else {
        match read_uleb128(bytes.skip(1)) {
            Some((high, taken)) => Some(((bytes[0] - 128) as nat + 128 * high, taken + 1)),
            None => None,
        }
    }
}

/// Reads a signed number from the front of `bytes`: its value and the bytes it takes.
pub open spec fn read_sleb128(bytes: Seq<u8>) -> Option<(int, int)>
    decreases bytes.len(),
{
    if bytes.len() == 0 {
        None
    } else if bytes[0] < 64 {
        Some((bytes[0] as int, 1))
    } else if bytes[0] < 128 {
        Some((bytes[0] - 128, 1))
    } else {
        match read_sleb128(bytes.skip(1)) {
            Some((high, taken)) => Some(((bytes[0] - 128) + 128 * high, taken + 1)),
            None => None,
        }
    }
}

/// Reading an unsigned encoding gives back the number and stops at its end, whatever follows.
pub proof fn law_uleb128_round_trip(value: nat, rest: Seq<u8>)
    ensures
        read_uleb128(uleb128(value) + rest) == Some((value, uleb128(value).len() as int)),
    decreases value,
{
    let all: Seq<u8> = uleb128(value) + rest;
    if value >= 128 {
        law_uleb128_round_trip(value / 128, rest);
        assert(all.skip(1) =~= uleb128(value / 128) + rest);
    }
}

/// Reading a signed encoding gives back the number and stops at its end, whatever follows.
pub proof fn law_sleb128_round_trip(value: int, rest: Seq<u8>)
    ensures
        read_sleb128(sleb128(value) + rest) == Some((value, sleb128(value).len() as int)),
    decreases (if value < 0 { -value } else { value }),
{
    let all: Seq<u8> = sleb128(value) + rest;
    if !fits_one_group(value) {
        law_sleb128_round_trip(value / 128, rest);
        assert(all.skip(1) =~= sleb128(value / 128) + rest);
    }
}

/// An unsigned encoding takes as few bytes as it can: `n` bytes hold the numbers below 2^(7n) that
/// `n - 1` do not. Its high bits are set on every byte but the last.
pub proof fn law_uleb128_is_shortest(value: nat)
    ensures
        ({
            let data: Seq<u8> = uleb128(value);
            &&& data.len() >= 1
            &&& value < pow(128, data.len())
            &&& data.len() > 1 ==> value >= pow(128, (data.len() - 1) as nat)
            &&& forall|i: int|
                0 <= i < data.len() ==> (#[trigger] data[i] < 128 <==> i == data.len() - 1)
        }),
    decreases value,
{
    let data: Seq<u8> = uleb128(value);
    lemma_pow1(128);
    if value >= 128 {
        let rest: Seq<u8> = uleb128(value / 128);
        law_uleb128_is_shortest(value / 128);
        assert(data =~= seq![(128 + value % 128) as u8] + rest);
        lemma_pow_adds(128, 1, rest.len());
        assert(value == 128 * (value / 128) + value % 128);
        assert(value < 128 * pow(128, rest.len())) by (nonlinear_arith)
            requires
                value == 128 * (value / 128) + value % 128,
                value % 128 < 128,
                value / 128 < pow(128, rest.len()),
        ;
        if rest.len() > 1 {
            lemma_pow_adds(128, 1, (rest.len() - 1) as nat);
        }
        assert forall|i: int| 0 <= i < data.len() implies (#[trigger] data[i] < 128 <==> i
            == data.len() - 1) by {
            if i > 0 {
                assert(data[i] == rest[i - 1]);
            }
        }
    }
}

/// A signed encoding takes as few bytes as it can: `n` bytes hold the numbers from -64 * 128^(n-1)
/// to 64 * 128^(n-1) that `n - 1` do not. Its high bits are set on every byte but the last.
pub proof fn law_sleb128_is_shortest(value: int)
    ensures
        ({
            let data: Seq<u8> = sleb128(value);
            let half: int = 64 * pow(128, (data.len() - 1) as nat);
            &&& data.len() >= 1
            &&& -half <= value < half
            &&& data.len() > 1 ==> {
                let less: int = 64 * pow(128, (data.len() - 2) as nat);
                value < -less || less <= value
            }
            &&& forall|i: int|
                0 <= i < data.len() ==> (#[trigger] data[i] < 128 <==> i == data.len() - 1)
        }),
    decreases (if value < 0 { -value } else { value }),
{
    let data: Seq<u8> = sleb128(value);
    lemma_pow0(128);
    if !fits_one_group(value) {
        let rest: Seq<u8> = sleb128(value / 128);
        law_sleb128_is_shortest(value / 128);
        assert(data =~= seq![(128 + value % 128) as u8] + rest);
        let power: int = pow(128, (rest.len() - 1) as nat);
        lemma_pow_adds(128, 1, (rest.len() - 1) as nat);
        lemma_pow1(128);
        assert(-(64 * (128 * power)) <= value < 64 * (128 * power)) by (nonlinear_arith)
            requires
                value == 128 * (value / 128) + value % 128,
                0 <= value % 128 < 128,
                -(64 * power) <= value / 128 < 64 * power,
        ;
        if rest.len() > 1 {
            lemma_pow_adds(128, 1, (rest.len() - 2) as nat);
            let less: int = 64 * pow(128, (rest.len() - 2) as nat);
            assert(value < -(128 * less) || 128 * less <= value) by (nonlinear_arith)
                requires
                    value == 128 * (value / 128) + value % 128,
                    0 <= value % 128 < 128,
                    value / 128 < -less || less <= value / 128,
            ;
        }
        assert forall|i: int| 0 <= i < data.len() implies (#[trigger] data[i] < 128 <==> i
            == data.len() - 1) by {
            if i > 0 {
                assert(data[i] == rest[i - 1]);
            }
        }
    }
}

/// Appends `value` as an unsigned LEB128 number.
pub fn encode_uleb128(buf: &mut Vec<u8>, value: u64)
    ensures
        final(buf)@ == old(buf)@ + uleb128(value as nat),
{
    let mut value: u64 = value;
    let ghost whole: Seq<u8> = buf@ + uleb128(value as nat);
    loop
        invariant_except_break
            buf@ + uleb128(value as nat) == whole,
        ensures
            buf@ == whole,
        decreases value,
    {
        let low: u8 = (value & 0x7f) as u8;
        let mut byte: u8 = low;
        let high: u64 = value >> 7;
        assert(value & 0x7f == value % 128 && value >> 7 == value / 128) by (bit_vector);
        if high != 0 {
            byte = byte | 0x80;
            assert(low | 0x80 == 128 + low) by (bit_vector)
                requires
                    low < 128u8,
            ;
        }
        let ghost before: Seq<u8> = buf@;
        buf.push(byte);
        if high == 0 {
            assert(buf@ =~= before + uleb128(value as nat));
            break;
        }
        assert(buf@ + uleb128(high as nat) =~= before + uleb128(value as nat));
        value = high;
    }
}

/// Appends `value` as a signed LEB128 number.
pub fn encode_sleb128(buf: &mut Vec<u8>, value: i64)
    ensures
        final(buf)@ == old(buf)@ + sleb128(value as int),
{
    let mut value: i64 = value;
    let ghost whole: Seq<u8> = buf@ + sleb128(value as int);
    loop
        invariant_except_break
            buf@ + sleb128(value as int) == whole,
        ensures
            buf@ == whole,
        decreases (if value < 0 { -(value as int) } else { value as int }),
    {
        let low: u8 = (value & 0x7f) as u8;
        let mut byte: u8 = low;
        let high: i64 = value >> 7;
        assert(0 <= value & 0x7f < 128 && value == 128 * (value >> 7) + (value & 0x7f))
            by (bit_vector);
        assert(low & 0x40 == 0 <==> low < 64) by (bit_vector)
            requires
                low < 128u8,
        ;
        let more: bool = !((high == 0 && byte & 0x40 == 0) || (high == -1 && byte & 0x40 != 0));
        if more {
            byte = byte | 0x80;
            assert(low | 0x80 == 128 + low) by (bit_vector)
                requires
                    low < 128u8,
            ;
        }
        let ghost before: Seq<u8> = buf@;
        buf.push(byte);
        if !more {
            assert(buf@ =~= before + sleb128(value as int));
            break;
        }
        assert(buf@ + sleb128(high as int) =~= before + sleb128(value as int));
        value = high;
    }
}

} // verus!
