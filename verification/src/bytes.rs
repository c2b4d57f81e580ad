//! Little-endian integers in byte buffers.

use vstd::arithmetic::power::*;
use vstd::prelude::*;

verus! {

/// The `width` low-order bytes of `value`, least significant byte first.
pub open spec fn le_bytes(value: nat, width: nat) -> Seq<u8>
    decreases width,
{
    if width == 0 {
        Seq::empty()
    } else {
        seq![(value % 256) as u8] + le_bytes(value / 256, (width - 1) as nat)
    }
}

/// The number that a sequence of bytes stands for, least significant byte first.
pub open spec fn le_value(bytes: Seq<u8>) -> nat
    decreases bytes.len(),
{
    if bytes.len() == 0 {
        0
    } else {
        bytes[0] as nat + 256 * le_value(bytes.skip(1))
    }
}

/// A little-endian field of `width` bytes holds `width` bytes.
pub proof fn lemma_le_bytes_len(value: nat, width: nat)
    ensures
        le_bytes(value, width).len() == width,
    decreases width,
{
    if width > 0 {
        lemma_le_bytes_len(value / 256, (width - 1) as nat);
    }
}

/// A number that fits in `width` bytes is read back from its little-endian bytes.
pub proof fn lemma_le_round_trip(value: nat, width: nat)
    requires
        value < pow(256, width),
    ensures
        le_value(le_bytes(value, width)) == value,
    decreases width,
{
    if width == 0 {
        lemma_pow0(256);
    } else {
        let rest: nat = (width - 1) as nat;
        lemma_pow_adds(256, 1, rest);
        lemma_pow1(256);
        assert(value / 256 < pow(256, rest)) by (nonlinear_arith)
            requires
                value < 256 * pow(256, rest),
        ;
        lemma_le_round_trip(value / 256, rest);
        assert(le_bytes(value, width).skip(1) =~= le_bytes(value / 256, rest));
    }
}

/// Two numbers that fit in `width` bytes and have the same little-endian bytes are equal.
pub proof fn lemma_le_injective(a: nat, b: nat, width: nat)
    requires
        a < pow(256, width),
        b < pow(256, width),
        le_bytes(a, width) == le_bytes(b, width),
    ensures
        a == b,
{
    lemma_le_round_trip(a, width);
    lemma_le_round_trip(b, width);
}

/// The bytes of a field, most significant last, are those of the number in base 256.
pub proof fn law_le_bytes_digits(value: nat, width: nat, i: int)
    requires
        0 <= i < width,
    ensures
        le_bytes(value, width).len() == width,
        le_bytes(value, width)[i] as int == (value as int / pow(256, i as nat)) % 256,
    decreases width,
{
    lemma_le_bytes_len(value, width);
    lemma_pow0(256);
    if i == 0 {
        assert(value as int / 1 == value);
    } else {
        let rest: nat = (width - 1) as nat;
        let low: nat = (i - 1) as nat;
        law_le_bytes_digits(value / 256, rest, i - 1);
        lemma_le_bytes_len(value / 256, rest);
        lemma_pow_adds(256, 1, low);
        lemma_pow1(256);
        lemma_pow_positive(256, low);
        vstd::arithmetic::div_mod::lemma_div_denominator(value as int, 256, pow(256, low));
    }
}

/// A field of four bytes is read with the first byte as the lowest.
pub proof fn law_le_value_of_four(a: u8, b: u8, c: u8, d: u8)
    ensures
        le_value(seq![a, b, c, d]) == a + 256 * b + 65_536 * c + 16_777_216 * d,
{
    let all: Seq<u8> = seq![a, b, c, d];
    assert(all.skip(1) =~= seq![b, c, d]);
    assert(seq![b, c, d].skip(1) =~= seq![c, d]);
    assert(seq![c, d].skip(1) =~= seq![d]);
    assert(seq![d].skip(1) =~= Seq::<u8>::empty());
    assert(le_value(Seq::<u8>::empty()) == 0);
    assert(le_value(seq![d]) == d + 256 * le_value(seq![d].skip(1)));
    assert(le_value(seq![c, d]) == c + 256 * d);
    assert(le_value(seq![b, c, d]) == b + 256 * c + 65_536 * d);
}

/// The low 32 bits of a number.
pub proof fn lemma_low_32(value: u64)
    ensures
        value as u32 == value % 0x1_0000_0000,
{
    assert(value as u32 == value % 0x1_0000_0000) by (bit_vector);
}

/// The powers of 256 that bound fields of two, four and eight bytes.
pub proof fn lemma_field_bounds()
    ensures
        pow(256, 2) == 0x1_0000,
        pow(256, 4) == 0x1_0000_0000,
        pow(256, 8) == 0x1_0000_0000_0000_0000,
{
    reveal_with_fuel(pow, 9);
}

/// Appends the `width` low-order bytes of `value`, least significant byte first.
pub fn push_le(buf: &mut Vec<u8>, value: u64, width: usize)
    ensures
        final(buf)@ == old(buf)@ + le_bytes(value as nat, width as nat),
{
    let mut rest: u64 = value;
    let mut written: usize = 0;
    assert(buf@ + le_bytes(rest as nat, width as nat) =~= old(buf)@ + le_bytes(
        value as nat,
        width as nat,
    ));
    while written < width
        invariant
            written <= width,
            buf@ + le_bytes(rest as nat, (width - written) as nat) == old(buf)@ + le_bytes(
                value as nat,
                width as nat,
            ),
        decreases width - written,
    {
        let byte: u8 = (rest % 256) as u8;
        let ghost before: Seq<u8> = buf@;
        buf.push(byte);
        proof {
            let left: nat = (width - written) as nat;
            assert(buf@ + le_bytes((rest / 256) as nat, (left - 1) as nat) =~= before + le_bytes(
                rest as nat,
                left,
            ));
        }
        rest = rest / 256;
        written = written + 1;
    }
    assert(buf@ + le_bytes(rest as nat, 0) =~= buf@);
}

/// Appends `bytes`.
pub fn push_bytes(buf: &mut Vec<u8>, bytes: &[u8])
    ensures
        final(buf)@ == old(buf)@ + bytes@,
{
    buf.extend_from_slice(bytes);
    assert(buf@ =~= old(buf)@ + bytes@);
}

/// Overwrites the four bytes at `pos` with `value`, least significant byte first.
pub fn patch_u32(buf: &mut Vec<u8>, pos: usize, value: u32)
    requires
        pos + 4 <= old(buf)@.len(),
    ensures
        final(buf)@ == old(buf)@.take(pos as int) + le_bytes(value as nat, 4) + old(buf)@.skip(
            pos + 4,
        ),
{
    let mut field: Vec<u8> = Vec::new();
    push_le(&mut field, value as u64, 4);
    proof {
        lemma_le_bytes_len(value as nat, 4);
    }
    assert(field@ =~= le_bytes(value as nat, 4));
    let total: usize = buf.len();
    let mut i: usize = 0;
    while i < 4
        invariant
            i <= 4,
            field@.len() == 4,
            pos + 4 <= total,
            total == old(buf)@.len(),
            buf@.len() == old(buf)@.len(),
            forall|k: int|
                0 <= k < buf@.len() ==> #[trigger] buf@[k] == (if pos <= k < pos + i {
                    field@[k - pos]
                } else {
                    old(buf)@[k]
                }),
        decreases 4 - i,
    {
        buf.set(pos + i, field[i]);
        i = i + 1;
    }
    assert(buf@ =~= old(buf)@.take(pos as int) + field@ + old(buf)@.skip(pos + 4));
}

} // verus!
