//! Helpers for the routines that print through `printf`.
use vstd::prelude::*;
use vstd::string::StringSliceAdditionalSpecFns;

verus! {

/// Whether `n` is a power of two.
pub open spec fn is_power_of_two(n: nat) -> bool
    decreases n,
{
    n == 1 || (n >= 2 && n % 2 == 0 && is_power_of_two(n / 2))
}

/// The smallest power of two that is not below `value`.
pub open spec fn round_up_spec(value: nat) -> nat
    decreases value,
{
    if value <= 1 {
        1
    } else {
        2 * round_up_spec(((value + 1) / 2) as nat)
    }
}

/// `round_up_spec(value)` is a power of two, is at least `value`, and no smaller
/// power of two is at least `value`.
pub proof fn lemma_round_up_spec(value: nat)
    ensures
        is_power_of_two(round_up_spec(value)),
        value <= round_up_spec(value),
        value >= 1 ==> round_up_spec(value) < 2 * value,
        forall|p: nat| is_power_of_two(p) && value <= p ==> round_up_spec(value) <= p,
    decreases value,
{
    if value > 1 {
        let half = ((value + 1) / 2) as nat;
        lemma_round_up_spec(half);
        assert forall|p: nat| is_power_of_two(p) && value <= p implies round_up_spec(value)
            <= p by {
            assert(p >= 2);
            assert(is_power_of_two(p / 2));
            assert(half <= p / 2);
        }
    } else {
        assert forall|p: nat| is_power_of_two(p) && value <= p implies round_up_spec(value)
            <= p by {
            lemma_power_of_two_positive(p);
        }
    }
}

/// A power of two is at least one.
pub proof fn lemma_power_of_two_positive(p: nat)
    requires
        is_power_of_two(p),
    ensures
        p >= 1,
    decreases p,
{
    if p != 1 {
        lemma_power_of_two_positive(p / 2);
    }
}

/// Rounds up to the nearest power of two.
///
/// The doubling counter lives in a `u32`, so the result must fit: `value` may not
/// exceed `2^31`.
pub fn round_up(value: u32) -> (power: u32)
    requires
        value <= 0x8000_0000,
    ensures
        power == round_up_spec(value as nat),
{
    let mut power: u32 = 1;
    while power < value
        invariant
            value <= 0x8000_0000,
            1 <= power <= 0x8000_0000,
            is_power_of_two(power as nat),
            forall|p: nat| is_power_of_two(p) && value <= p ==> power <= p,
        decreases 0x1_0000_0000 - power,
    {
        proof {
            assert forall|p: nat| is_power_of_two(p) && value <= p implies 2 * power <= p by {
                lemma_power_of_two_gap(power as nat, p);
            }
            lemma_power_of_two_bound(power as nat);
        }
        power = power * 2;
    }
    proof {
        lemma_round_up_spec(value as nat);
        lemma_power_of_two_positive(round_up_spec(value as nat));
    }
    power
}

/// Two powers of two with `a < b` satisfy `2 * a <= b`.
pub proof fn lemma_power_of_two_gap(a: nat, b: nat)
    requires
        is_power_of_two(a),
        is_power_of_two(b),
        a < b,
    ensures
        2 * a <= b,
    decreases b,
{
    lemma_power_of_two_positive(a);
    if a == 1 {
    } else {
        assert(b != 1);
        lemma_power_of_two_gap(a / 2, b / 2);
    }
}

/// A power of two in a `u32` below `2^31` doubles without leaving the type.
pub proof fn lemma_power_of_two_bound(a: nat)
    requires
        is_power_of_two(a),
        a < 0x8000_0000,
    ensures
        2 * a <= 0x8000_0000,
{
    assert(is_power_of_two(0x8000_0000nat)) by {
        reveal_with_fuel(is_power_of_two, 33);
    }
    lemma_power_of_two_gap(a, 0x8000_0000nat);
}

/// What is left of `width` bits after `count` chunks of 32 bits.
pub open spec fn bits_left(width: int, count: int) -> int {
    if width > 32 * count {
        width - 32 * count
    } else {
        0
    }
}

/// How a number of a given width is printed in chunks of 32 bits.
#[derive(Debug, PartialEq, Eq)]
pub struct PrintFeltPlan {
    /// The width that the number is extended to: the next power of two.
    pub width: u32,
    /// Whether the number has to be zero-extended to that width first.
    pub extend: bool,
    /// For each chunk, most significant first, the number of bits by which the
    /// number is shifted right before its low 32 bits are printed.
    pub shifts: Vec<u32>,
}

/// Plans the printing of a number of `bit_width` bits: the width is rounded up
/// to a power of two, and one chunk of 32 bits is printed for every 32 bits or
/// part thereof, from the most significant down.
pub fn print_felt_plan(bit_width: u32) -> (plan: PrintFeltPlan)
    requires
        bit_width <= 0x8000_0000,
    ensures
        plan.width == round_up_spec(bit_width as nat),
        plan.extend == (bit_width != plan.width),
        plan.shifts@.len() == (plan.width + 31) / 32,
        forall|i: int|
            0 <= i < plan.shifts@.len() ==> #[trigger] plan.shifts@[i] == bits_left(
                plan.width as int,
                i + 1,
            ),
{
    let width: u32 = round_up(bit_width);
    proof {
        lemma_round_up_spec(bit_width as nat);
        lemma_power_of_two_positive(width as nat);
    }
    let mut shifts: Vec<u32> = Vec::new();
    let mut left: u32 = width;
    while left > 0
        invariant
            left == bits_left(width as int, shifts@.len() as int),
            shifts@.len() <= (width + 31) / 32,
            left == 0 ==> shifts@.len() == (width + 31) / 32,
            width >= 1,
            forall|i: int|
                0 <= i < shifts@.len() ==> #[trigger] shifts@[i] == bits_left(width as int, i + 1),
        decreases left,
    {
        let shift: u32 = if left >= 32 {
            left - 32
        } else {
            0
        };
        shifts.push(shift);
        left = shift;
    }
    PrintFeltPlan { width, extend: bit_width != width, shifts }
}

/// The decimal digits of `number` as ASCII text.
pub open spec fn decimal_text(number: nat) -> Seq<u8>
    decreases number,
{
    if number < 10 {
        seq![(48 + number) as u8]
    } else {
        decimal_text(number / 10).push((48 + number % 10) as u8)
    }
}

/// The first `count` bytes of `bytes` as decimal numbers with `", "` between
/// them.
pub open spec fn joined_text(bytes: Seq<u8>, count: int) -> Seq<u8>
    decreases count,
{
    if count <= 0 {
        Seq::empty()
    } else if count == 1 {
        decimal_text(bytes[0] as nat)
    } else {
        joined_text(bytes, count - 1) + ", ".spec_bytes() + decimal_text(bytes[count - 1] as nat)
    }
}

/// The text of the array type that holds a format string of `len` bytes.
pub open spec fn array_type_text(len: nat) -> Seq<u8> {
    "!llvm.array<".spec_bytes() + decimal_text(len) + " x i8>".spec_bytes()
}

/// The text of the dense attribute that holds the bytes of a format string.
pub open spec fn dense_attribute_text(format: Seq<u8>) -> Seq<u8> {
    "dense<[".spec_bytes() + joined_text(format, format.len() as int) + "]> : tensor<".spec_bytes()
        + decimal_text(format.len()) + " x i8>".spec_bytes()
}

/// Appends the decimal digits of `number` to `text`.
pub fn append_decimal(text: &mut Vec<u8>, number: u64)
    ensures
        final(text)@ == old(text)@ + decimal_text(number as nat),
    decreases number,
{
    if number < 10 {
        text.push(48 + number as u8);
        assert(text@ =~= old(text)@ + decimal_text(number as nat));
    } else {
        append_decimal(text, number / 10);
        text.push(48 + (number % 10) as u8);
        assert(text@ =~= old(text)@ + decimal_text(number as nat));
    }
}

/// The text of the array type that holds a format string of `len` bytes:
/// `!llvm.array<len x i8>`.
pub fn array_type(len: usize) -> (text: Vec<u8>)
    ensures
        text@ == array_type_text(len as nat),
{
    let mut text: Vec<u8> = Vec::new();
    text.extend_from_slice("!llvm.array<".as_bytes());
    append_decimal(&mut text, len as u64);
    text.extend_from_slice(" x i8>".as_bytes());
    assert(text@ =~= array_type_text(len as nat));
    text
}

/// The text of the dense attribute that holds the bytes of a format string:
/// `dense<[b0, b1, ..]> : tensor<len x i8>`.
pub fn dense_attribute(format: &[u8]) -> (text: Vec<u8>)
    ensures
        text@ == dense_attribute_text(format@),
{
    let mut text: Vec<u8> = Vec::new();
    text.extend_from_slice("dense<[".as_bytes());
    let ghost head = text@;
    let mut index: usize = 0;
    while index < format.len()
        invariant
            index <= format@.len(),
            head == "dense<[".spec_bytes(),
            text@ == head + joined_text(format@, index as int),
        decreases format@.len() - index,
    {
        if index > 0 {
            text.extend_from_slice(", ".as_bytes());
        }
        append_decimal(&mut text, format[index] as u64);
        index = index + 1;
        assert(text@ =~= head + joined_text(format@, index as int));
    }
    text.extend_from_slice("]> : tensor<".as_bytes());
    append_decimal(&mut text, format.len() as u64);
    text.extend_from_slice(" x i8>".as_bytes());
    assert(text@ =~= dense_attribute_text(format@));
    text
}

} // verus!
