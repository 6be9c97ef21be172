//! Field elements of the STARK prime field as four 64-bit digits.
use vstd::bytes::*;
use vstd::prelude::*;

verus! {

/// The STARK field prime, `2^251 + 17 * 2^192 + 1`.
pub open spec fn stark_prime() -> int {
    0x800000000000011000000000000000000000000000000000000000000000001int
}

/// The number that four 64-bit digits denote, least significant digit first.
pub open spec fn le_digits_value(digits: Seq<u64>) -> int
    recommends
        digits.len() == 4,
{
    digits[0] as int + digits[1] as int * 0x1_0000_0000_0000_0000int + digits[2] as int
        * 0x1_0000_0000_0000_0000_0000_0000_0000_0000int + digits[3] as int
        * 0x1_0000_0000_0000_0000_0000_0000_0000_0000_0000_0000_0000_0000int
}

/// The four 64-bit digits that 32 bytes hold, each digit and the whole in
/// little-endian order.
pub open spec fn le_bytes_digits(bytes: Seq<u8>) -> Seq<u64>
    recommends
        bytes.len() == 32,
{
    seq![
        spec_u64_from_le_bytes(bytes.subrange(0, 8)),
        spec_u64_from_le_bytes(bytes.subrange(8, 16)),
        spec_u64_from_le_bytes(bytes.subrange(16, 24)),
        spec_u64_from_le_bytes(bytes.subrange(24, 32)),
    ]
}

/// The 32 bytes of four 64-bit digits, each digit and the whole in little-endian
/// order.
pub open spec fn le_digits_bytes(digits: Seq<u64>) -> Seq<u8>
    recommends
        digits.len() == 4,
{
    spec_u64_to_le_bytes(digits[0]) + spec_u64_to_le_bytes(digits[1]) + spec_u64_to_le_bytes(
        digits[2],
    ) + spec_u64_to_le_bytes(digits[3])
}

/// Reading back the bytes of four digits gives the digits.
pub proof fn lemma_digits_bytes_digits(digits: Seq<u64>)
    requires
        digits.len() == 4,
    ensures
        le_digits_bytes(digits).len() == 32,
        le_bytes_digits(le_digits_bytes(digits)) == digits,
{
    lemma_auto_spec_u64_to_from_le_bytes();
    let bytes = le_digits_bytes(digits);
    assert(bytes.subrange(0, 8) == spec_u64_to_le_bytes(digits[0]));
    assert(bytes.subrange(8, 16) == spec_u64_to_le_bytes(digits[1]));
    assert(bytes.subrange(16, 24) == spec_u64_to_le_bytes(digits[2]));
    assert(bytes.subrange(24, 32) == spec_u64_to_le_bytes(digits[3]));
    assert(le_bytes_digits(bytes) =~= digits);
}

/// Four digits are determined by the number they denote.
pub proof fn lemma_le_digits_value_injective(a: Seq<u64>, b: Seq<u64>)
    requires
        a.len() == 4,
        b.len() == 4,
        le_digits_value(a) == le_digits_value(b),
    ensures
        a == b,
{
    let base = 0x1_0000_0000_0000_0000int;
    let high_a = a[1] as int + a[2] as int * base + a[3] as int * (base * base);
    let high_b = b[1] as int + b[2] as int * base + b[3] as int * (base * base);
    assert(base * base == 0x1_0000_0000_0000_0000_0000_0000_0000_0000int && base * (base * base)
        == 0x1_0000_0000_0000_0000_0000_0000_0000_0000_0000_0000_0000_0000int)
        by (nonlinear_arith)
        requires
            base == 0x1_0000_0000_0000_0000int,
    ;
    assert(le_digits_value(a) == a[0] as int + base * high_a) by (nonlinear_arith)
        requires
            le_digits_value(a) == a[0] as int + a[1] as int * base + a[2] as int * (base * base)
                + a[3] as int * (base * (base * base)),
            high_a == a[1] as int + a[2] as int * base + a[3] as int * (base * base),
    ;
    assert(le_digits_value(b) == b[0] as int + base * high_b) by (nonlinear_arith)
        requires
            le_digits_value(b) == b[0] as int + b[1] as int * base + b[2] as int * (base * base)
                + b[3] as int * (base * (base * base)),
            high_b == b[1] as int + b[2] as int * base + b[3] as int * (base * base),
    ;
    lemma_digit_split(a[0] as int, high_a, b[0] as int, high_b, base);
    let top_a = a[2] as int + a[3] as int * base;
    let top_b = b[2] as int + b[3] as int * base;
    assert(high_a == a[1] as int + base * top_a) by (nonlinear_arith)
        requires
            high_a == a[1] as int + a[2] as int * base + a[3] as int * (base * base),
            top_a == a[2] as int + a[3] as int * base,
    ;
    assert(high_b == b[1] as int + base * top_b) by (nonlinear_arith)
        requires
            high_b == b[1] as int + b[2] as int * base + b[3] as int * (base * base),
            top_b == b[2] as int + b[3] as int * base,
    ;
    lemma_digit_split(a[1] as int, top_a, b[1] as int, top_b, base);
    assert(top_a == a[2] as int + base * (a[3] as int)) by (nonlinear_arith)
        requires
            top_a == a[2] as int + a[3] as int * base,
    ;
    assert(top_b == b[2] as int + base * (b[3] as int)) by (nonlinear_arith)
        requires
            top_b == b[2] as int + b[3] as int * base,
    ;
    lemma_digit_split(a[2] as int, a[3] as int, b[2] as int, b[3] as int, base);
    assert(a =~= b);
}

/// A number splits in one way into a digit below `base` and a multiple of `base`.
proof fn lemma_digit_split(low_a: int, high_a: int, low_b: int, high_b: int, base: int)
    by (nonlinear_arith)
    requires
        base > 0,
        0 <= low_a < base,
        0 <= low_b < base,
        low_a + base * high_a == low_b + base * high_b,
    ensures
        low_a == low_b,
        high_a == high_b,
{
    if high_a < high_b {
        assert(base * high_b - base * high_a == base * (high_b - high_a));
        assert(base * (high_b - high_a) >= base);
    } else if high_b < high_a {
        assert(base * high_a - base * high_b == base * (high_a - high_b));
        assert(base * (high_a - high_b) >= base);
    }
}

/// `starknet_types_core::felt::Felt::from_bytes_le`, read back with
/// `Felt::to_le_digits`.
///
/// `from_bytes_le` takes 32 bytes as a little-endian number and maps it into the
/// field, which reduces it modulo the field prime; `to_le_digits` returns the
/// canonical representative of a field element as four 64-bit digits, least
/// significant first. So the digits returned denote the number that the bytes
/// denote, reduced modulo the prime.
#[verifier::external_body]
fn felt_from_bytes_le(bytes: &[u8]) -> (digits: [u64; 4])
    requires
        bytes@.len() == 32,
    ensures
        le_digits_value(digits@) == le_digits_value(le_bytes_digits(bytes@)) % stark_prime(),
{
    let bytes: &[u8; 32] = bytes.try_into().unwrap();
    starknet_types_core::felt::Felt::from_bytes_le(bytes).to_le_digits()
}

/// An element of the STARK prime field, held as the four 64-bit digits of its
/// canonical representative, least significant digit first.
#[derive(Clone, Copy, Debug, PartialEq, Eq, Hash, Structural)]
pub struct Felt252 {
    d0: u64,
    d1: u64,
    d2: u64,
    d3: u64,
}

impl Felt252 {
    /// The four digits, least significant first.
    pub closed spec fn digits(self) -> Seq<u64> {
        seq![self.d0, self.d1, self.d2, self.d3]
    }

    /// The canonical representative.
    pub open spec fn value(self) -> int {
        le_digits_value(self.digits())
    }

    /// The digits denote a number below the field prime.
    pub open spec fn wf(self) -> bool {
        self.value() < stark_prime()
    }

    #[verifier::type_invariant]
    spec fn canonical(self) -> bool {
        self.wf()
    }

    /// The field element that `value` denotes: its residue modulo the field
    /// prime.
    pub closed spec fn from_value(value: int) -> Felt252 {
        let residue = value % stark_prime();
        let base = 0x1_0000_0000_0000_0000int;
        Felt252 {
            d0: (residue % base) as u64,
            d1: ((residue / base) % base) as u64,
            d2: (((residue / base) / base) % base) as u64,
            d3: (((residue / base) / base) / base) as u64,
        }
    }

    /// `from_value` yields the canonical field element of the residue, and every
    /// canonical field element is the one that its value denotes.
    pub proof fn lemma_from_value(value: int)
        ensures
            Felt252::from_value(value).value() == value % stark_prime(),
            Felt252::from_value(value).wf(),
            forall|felt: Felt252|
                felt.wf() && felt.value() == value % stark_prime() ==> felt == Felt252::from_value(
                    value,
                ),
    {
        let residue = value % stark_prime();
        let base = 0x1_0000_0000_0000_0000int;
        vstd::arithmetic::div_mod::lemma_mod_bound(value, stark_prime());
        let q1 = residue / base;
        let q2 = q1 / base;
        let q3 = q2 / base;
        vstd::arithmetic::div_mod::lemma_fundamental_div_mod(residue, base);
        vstd::arithmetic::div_mod::lemma_fundamental_div_mod(q1, base);
        vstd::arithmetic::div_mod::lemma_fundamental_div_mod(q2, base);
        vstd::arithmetic::div_mod::lemma_mod_bound(residue, base);
        vstd::arithmetic::div_mod::lemma_mod_bound(q1, base);
        vstd::arithmetic::div_mod::lemma_mod_bound(q2, base);
        vstd::arithmetic::div_mod::lemma_div_pos_is_pos(residue, base);
        vstd::arithmetic::div_mod::lemma_div_pos_is_pos(q1, base);
        vstd::arithmetic::div_mod::lemma_div_pos_is_pos(q2, base);
        assert(base * base == 0x1_0000_0000_0000_0000_0000_0000_0000_0000int && base * (base
            * base) == 0x1_0000_0000_0000_0000_0000_0000_0000_0000_0000_0000_0000_0000int)
            by (nonlinear_arith)
            requires
                base == 0x1_0000_0000_0000_0000int,
        ;
        assert(residue == residue % base + (q1 % base) * base + (q2 % base) * (base * base) + q3
            * (base * (base * base))) by (nonlinear_arith)
            requires
                residue == base * q1 + residue % base,
                q1 == base * q2 + q1 % base,
                q2 == base * q3 + q2 % base,
        ;
        assert(q3 < base) by (nonlinear_arith)
            requires
                residue == residue % base + (q1 % base) * base + (q2 % base) * (base * base) + q3
                    * (base * (base * base)),
                0 <= residue % base,
                0 <= q1 % base,
                0 <= q2 % base,
                base > 0,
                residue < base * (base * (base * base)),
        {
            if q3 >= base {
                assert(q3 * (base * (base * base)) >= base * (base * (base * base)));
                assert((q1 % base) * base >= 0);
                assert((q2 % base) * (base * base) >= 0);
            }
        }
        let made = Felt252::from_value(value);
        assert(made.digits() =~= seq![
            (residue % base) as u64,
            (q1 % base) as u64,
            (q2 % base) as u64,
            q3 as u64,
        ]);
        assert(made.value() == residue);
        assert forall|felt: Felt252|
            felt.wf() && felt.value() == value % stark_prime() implies felt == made by {
            lemma_le_digits_value_injective(felt.digits(), made.digits());
            felt.lemma_digits_injective(made);
        }
    }

    /// A field element has four digits.
    pub broadcast proof fn lemma_digits_len(self)
        ensures
            #[trigger] self.digits().len() == 4,
    {
    }

    /// Two field elements with the same digits are the same.
    pub proof fn lemma_digits_injective(self, other: Felt252)
        requires
            self.digits() == other.digits(),
        ensures
            self == other,
    {
        assert(self.digits()[0] == other.digits()[0]);
        assert(self.digits()[1] == other.digits()[1]);
        assert(self.digits()[2] == other.digits()[2]);
        assert(self.digits()[3] == other.digits()[3]);
    }

    /// The field element that a 128-bit number denotes.
    pub fn from_u128(value: u128) -> (felt: Felt252)
        ensures
            felt.value() == value,
            felt.wf(),
            felt.digits() == seq![
                (value % 0x1_0000_0000_0000_0000) as u64,
                (value / 0x1_0000_0000_0000_0000) as u64,
                0u64,
                0u64,
            ],
    {
        let low: u64 = (value & 0xffff_ffff_ffff_ffff) as u64;
        let high: u64 = (value >> 64) as u64;
        assert(low == value % 0x1_0000_0000_0000_0000 && high == value / 0x1_0000_0000_0000_0000)
            by (bit_vector)
            requires
                low == (value & 0xffff_ffff_ffff_ffff) as u64,
                high == (value >> 64) as u64,
        ;
        Felt252 { d0: low, d1: high, d2: 0, d3: 0 }
    }

    /// The field element that four little-endian digits denote, reduced modulo the
    /// field prime.
    pub fn from_le_digits(digits: [u64; 4]) -> (felt: Felt252)
        ensures
            felt == Felt252::from_value(le_digits_value(digits@)),
            felt.value() == le_digits_value(digits@) % stark_prime(),
            felt.wf(),
            le_digits_value(digits@) < stark_prime() ==> felt.digits() == digits@,
    {
        let mut bytes: Vec<u8> = u64_to_le_bytes(digits[0]);
        let mut next: Vec<u8> = u64_to_le_bytes(digits[1]);
        bytes.append(&mut next);
        let mut next: Vec<u8> = u64_to_le_bytes(digits[2]);
        bytes.append(&mut next);
        let mut next: Vec<u8> = u64_to_le_bytes(digits[3]);
        bytes.append(&mut next);
        proof {
            assert(bytes@ =~= le_digits_bytes(digits@));
            lemma_digits_bytes_digits(digits@);
        }
        Felt252::from_bytes_le(bytes.as_slice())
    }

    /// The field element that 32 little-endian bytes denote, reduced modulo the
    /// field prime.
    pub fn from_bytes_le(bytes: &[u8]) -> (felt: Felt252)
        requires
            bytes@.len() == 32,
        ensures
            felt == Felt252::from_value(le_digits_value(le_bytes_digits(bytes@))),
            felt.value() == le_digits_value(le_bytes_digits(bytes@)) % stark_prime(),
            felt.wf(),
            le_digits_value(le_bytes_digits(bytes@)) < stark_prime() ==> felt.digits()
                == le_bytes_digits(bytes@),
    {
        let reduced: [u64; 4] = felt_from_bytes_le(bytes);
        let felt = Felt252 { d0: reduced[0], d1: reduced[1], d2: reduced[2], d3: reduced[3] };
        proof {
            assert(felt.digits() =~= reduced@);
            Felt252::lemma_from_value(le_digits_value(le_bytes_digits(bytes@)));
            if le_digits_value(le_bytes_digits(bytes@)) < stark_prime() {
                lemma_le_digits_value_injective(reduced@, le_bytes_digits(bytes@));
            }
        }
        felt
    }

    /// The four digits of the canonical representative, least significant first.
    pub fn to_le_digits(&self) -> (digits: [u64; 4])
        ensures
            digits@ == self.digits(),
    {
        let digits: [u64; 4] = [self.d0, self.d1, self.d2, self.d3];
        assert(digits@ =~= self.digits());
        digits
    }

    /// The 32 bytes of the canonical representative, least significant first.
    pub fn to_bytes_le(&self) -> (bytes: Vec<u8>)
        ensures
            bytes@ == le_digits_bytes(self.digits()),
            bytes@.len() == 32,
    {
        let mut bytes: Vec<u8> = u64_to_le_bytes(self.d0);
        let mut next: Vec<u8> = u64_to_le_bytes(self.d1);
        bytes.append(&mut next);
        let mut next: Vec<u8> = u64_to_le_bytes(self.d2);
        bytes.append(&mut next);
        let mut next: Vec<u8> = u64_to_le_bytes(self.d3);
        bytes.append(&mut next);
        assert(bytes@ =~= le_digits_bytes(self.digits()));
        bytes
    }
}

/// A canonical field element survives the trip through its bytes, and through
/// its digits.
pub proof fn lemma_felt_round_trip(felt: Felt252)
    requires
        felt.wf(),
    ensures
        le_bytes_digits(le_digits_bytes(felt.digits())) == felt.digits(),
        le_digits_value(felt.digits()) % stark_prime() == felt.value(),
        Felt252::from_value(le_digits_value(le_bytes_digits(le_digits_bytes(felt.digits()))))
            == felt,
        Felt252::from_value(le_digits_value(felt.digits())) == felt,
{
    felt.lemma_digits_len();
    lemma_digits_bytes_digits(felt.digits());
    assert(felt.value() >= 0);
    vstd::arithmetic::div_mod::lemma_small_mod(felt.value() as nat, stark_prime() as nat);
    Felt252::lemma_from_value(felt.value());
}

} // verus!
