//! Numbers as text.

use vstd::prelude::*;

verus! {

/// The ASCII code of a lower-case hexadecimal digit.
pub open spec fn hex_digit(digit: nat) -> u8 {
    if digit < 10 {
        (48 + digit) as u8
    } else {
        (87 + digit) as u8
    }
}

/// A number in lower-case hexadecimal ASCII, without leading zeros.
pub open spec fn hex(value: nat) -> Seq<u8>
    decreases value,
{
    if value < 16 {
        seq![hex_digit(value)]
    } else {
        hex(value / 16).push(hex_digit(value % 16))
    }
}

/// A decimal digit.
pub open spec fn decimal_digit(digit: nat) -> char {
    (48 + digit) as char
}

/// A number in decimal, without leading zeros.
pub open spec fn decimal(value: nat) -> Seq<char>
    decreases value,
{
    if value < 10 {
        seq![decimal_digit(value)]
    } else {
        decimal(value / 10).push(decimal_digit(value % 10))
    }
}

/// The number that a hexadecimal digit stands for: `0` to `9`, then `a` to `f`.
pub open spec fn hex_digit_value(digit: u8) -> Option<nat> {
    if 0x30 <= digit <= 0x39 {
        Some((digit - 0x30) as nat)
    } else if 0x61 <= digit <= 0x66 {
        Some((digit - 0x61 + 10) as nat)
    } else {
        None
    }
}

/// The number that lower-case hexadecimal digits stand for, the most significant first.
pub open spec fn read_hex(digits: Seq<u8>) -> Option<nat>
    decreases digits.len(),
{
    if digits.len() == 0 {
        Some(0)
    } else {
        match (read_hex(digits.drop_last()), hex_digit_value(digits.last())) {
            (Some(high), Some(low)) => Some(16 * high + low),
            _ => None,
        }
    }
}

/// The number that decimal digits stand for, the most significant first.
pub open spec fn read_decimal(digits: Seq<char>) -> Option<nat>
    decreases digits.len(),
{
    if digits.len() == 0 {
        Some(0)
    } else if '0' <= digits.last() <= '9' {
        match read_decimal(digits.drop_last()) {
            Some(high) => Some((10 * high + (digits.last() as int - '0' as int)) as nat),
            None => None,
        }
    } else {
        None
    }
}

/// A hexadecimal form is read back as its number, and has no leading zero but for 0 itself.
pub proof fn law_hex_reads_back(value: nat)
    ensures
        read_hex(hex(value)) == Some(value),
        hex(value).len() >= 1,
        hex(value)[0] == 0x30 <==> value == 0,
    decreases value,
{
    lemma_hex_len(value);
    if value < 16 {
        assert(hex(value).drop_last() =~= Seq::<u8>::empty());
        assert(hex(value).last() == hex_digit(value));
        assert(read_hex(Seq::<u8>::empty()) == Some(0nat));
    } else {
        law_hex_reads_back(value / 16);
        assert(hex(value).drop_last() =~= hex(value / 16));
        assert(hex(value).last() == hex_digit(value % 16));
    }
}

/// A decimal form is read back as its number, and has no leading zero but for 0 itself.
pub proof fn law_decimal_reads_back(value: nat)
    ensures
        read_decimal(decimal(value)) == Some(value),
        decimal(value).len() >= 1,
        decimal(value)[0] == '0' <==> value == 0,
    decreases value,
{
    lemma_decimal_len(value);
    if value < 10 {
        assert(decimal(value).drop_last() =~= Seq::<char>::empty());
        assert(decimal(value).last() == decimal_digit(value));
        assert(read_decimal(Seq::<char>::empty()) == Some(0nat));
    } else {
        law_decimal_reads_back(value / 10);
        assert(decimal(value).drop_last() =~= decimal(value / 10));
        assert(decimal(value).last() == decimal_digit(value % 10));
    }
}

/// Different numbers have different hexadecimal forms.
pub proof fn law_hex_injective(a: nat, b: nat)
    requires
        hex(a) == hex(b),
    ensures
        a == b,
    decreases a,
{
    lemma_hex_len(a);
    lemma_hex_len(b);
    assert(hex(a).last() == hex_digit(a % 16));
    assert(hex(b).last() == hex_digit(b % 16));
    if a >= 16 && b >= 16 {
        assert(hex(a / 16) =~= hex(a).drop_last());
        assert(hex(b / 16) =~= hex(b).drop_last());
        law_hex_injective(a / 16, b / 16);
    }
}

/// A hexadecimal form has a digit, and just one below 16.
proof fn lemma_hex_len(value: nat)
    ensures
        hex(value).len() >= 1,
        hex(value).len() == 1 <==> value < 16,
    decreases value,
{
    if value >= 16 {
        lemma_hex_len(value / 16);
    }
}

/// Hexadecimal forms hold no zero byte.
pub proof fn lemma_hex_nonzero(value: nat)
    ensures
        forall|i: int| 0 <= i < hex(value).len() ==> hex(value)[i] != 0,
    decreases value,
{
    if value >= 16 {
        lemma_hex_nonzero(value / 16);
        assert(hex(value) == hex(value / 16).push(hex_digit(value % 16)));
    } else {
        assert(hex(value) == seq![hex_digit(value)]);
    }
}

/// Different numbers have different decimal forms.
pub proof fn law_decimal_injective(a: nat, b: nat)
    requires
        decimal(a) == decimal(b),
    ensures
        a == b,
    decreases a,
{
    lemma_decimal_len(a);
    lemma_decimal_len(b);
    assert(decimal(a).last() == decimal_digit(a % 10));
    assert(decimal(b).last() == decimal_digit(b % 10));
    if a >= 10 && b >= 10 {
        assert(decimal(a / 10) =~= decimal(a).drop_last());
        assert(decimal(b / 10) =~= decimal(b).drop_last());
        law_decimal_injective(a / 10, b / 10);
    }
}

/// A decimal form has a digit, and just one below 10.
proof fn lemma_decimal_len(value: nat)
    ensures
        decimal(value).len() >= 1,
        decimal(value).len() == 1 <==> value < 10,
    decreases value,
{
    if value >= 10 {
        lemma_decimal_len(value / 10);
    }
}

/// Appends `value` in lower-case hexadecimal.
pub fn push_hex(buf: &mut Vec<u8>, value: u64)
    ensures
        final(buf)@ == old(buf)@ + hex(value as nat),
    decreases value,
{
    if value >= 16 {
        push_hex(buf, value / 16);
    }
    let low: u8 = (value % 16) as u8;
    let digit: u8 = if low < 10 {
        48 + low
    } else {
        87 + low
    };
    buf.push(digit);
    assert(buf@ =~= old(buf)@ + hex(value as nat));
}

/// The text of a decimal digit.
fn digit_text(digit: u64) -> (text: &'static str)
    requires
        digit < 10,
    ensures
        text@ == seq![decimal_digit(digit as nat)],
{
    proof {
        reveal_strlit("0");
        reveal_strlit("1");
        reveal_strlit("2");
        reveal_strlit("3");
        reveal_strlit("4");
        reveal_strlit("5");
        reveal_strlit("6");
        reveal_strlit("7");
        reveal_strlit("8");
        reveal_strlit("9");
    }
    let text: &'static str = match digit {
        0 => "0",
        1 => "1",
        2 => "2",
        3 => "3",
        4 => "4",
        5 => "5",
        6 => "6",
        7 => "7",
        8 => "8",
        _ => "9",
    };
    assert(text@ =~= seq![decimal_digit(digit as nat)]);
    text
}

/// Appends `value` in decimal.
pub fn append_decimal(text: &mut String, value: u64)
    ensures
        final(text)@ == old(text)@ + decimal(value as nat),
    decreases value,
{
    if value >= 10 {
        append_decimal(text, value / 10);
    }
    text.append(digit_text(value % 10));
    assert(text@ =~= old(text)@ + decimal(value as nat));
}

} // verus!
