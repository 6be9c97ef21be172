//! The integer kinds and their forms in registers and in memory.
use crate::types::TypeKind;
use crate::values::{JitValue, ValueView};
use vstd::bytes::*;
use vstd::prelude::*;

verus! {

/// `2^64`, the number of values of a word.
pub open spec fn word_modulus() -> int {
    0x1_0000_0000_0000_0000
}

/// The least significant 64-bit word of `value` in two's complement.
pub open spec fn low_word(value: int) -> u64 {
    (value % word_modulus()) as u64
}

/// The second 64-bit word of `value` in two's complement.
pub open spec fn high_word(value: int) -> u64 {
    ((value / word_modulus()) % word_modulus()) as u64
}

/// One of the ten integer kinds.
#[derive(Clone, Copy, Debug, PartialEq, Eq, Structural)]
pub enum IntKind {
    U8,
    U16,
    U32,
    U64,
    U128,
    I8,
    I16,
    I32,
    I64,
    I128,
}

impl IntKind {
    /// Width in bits.
    pub open spec fn bits_spec(self) -> u32 {
        match self {
            IntKind::U8 | IntKind::I8 => 8,
            IntKind::U16 | IntKind::I16 => 16,
            IntKind::U32 | IntKind::I32 => 32,
            IntKind::U64 | IntKind::I64 => 64,
            IntKind::U128 | IntKind::I128 => 128,
        }
    }

    /// Whether the kind holds negative numbers.
    pub open spec fn signed(self) -> bool {
        self is I8 || self is I16 || self is I32 || self is I64 || self is I128
    }

    /// Number of values of the kind, `2^bits`.
    pub open spec fn modulus(self) -> int {
        match self {
            IntKind::U8 | IntKind::I8 => 0x100,
            IntKind::U16 | IntKind::I16 => 0x1_0000,
            IntKind::U32 | IntKind::I32 => 0x1_0000_0000,
            IntKind::U64 | IntKind::I64 => 0x1_0000_0000_0000_0000,
            IntKind::U128 | IntKind::I128 => 0x1_0000_0000_0000_0000_0000_0000_0000_0000int,
        }
    }

    /// Least number of the kind.
    pub open spec fn min(self) -> int {
        if self.signed() {
            -(self.modulus() / 2)
        } else {
            0
        }
    }

    /// Greatest number of the kind.
    pub open spec fn max(self) -> int {
        if self.signed() {
            self.modulus() / 2 - 1
        } else {
            self.modulus() - 1
        }
    }

    /// Whether `value` is a number of the kind.
    pub open spec fn holds(self, value: int) -> bool {
        self.min() <= value <= self.max()
    }

    /// The number of the kind whose two's complement form is congruent to `raw`.
    pub open spec fn from_raw(self, raw: int) -> int {
        let low = raw % self.modulus();
        if self.signed() && low >= self.modulus() / 2 {
            low - self.modulus()
        } else {
            low
        }
    }

    /// Width in bits.
    #[verifier::when_used_as_spec(bits_spec)]
    pub fn bits(self) -> (bits: u32)
        ensures
            bits == self.bits_spec(),
    {
        match self {
            IntKind::U8 | IntKind::I8 => 8,
            IntKind::U16 | IntKind::I16 => 16,
            IntKind::U32 | IntKind::I32 => 32,
            IntKind::U64 | IntKind::I64 => 64,
            IntKind::U128 | IntKind::I128 => 128,
        }
    }

    /// How often the number of values of the kind goes into that of a word; 0
    /// for the 128-bit kinds, which take two words.
    pub open spec fn per_word(self) -> int {
        match self {
            IntKind::U8 | IntKind::I8 => 0x100_0000_0000_0000,
            IntKind::U16 | IntKind::I16 => 0x1_0000_0000_0000,
            IntKind::U32 | IntKind::I32 => 0x1_0000_0000,
            IntKind::U64 | IntKind::I64 => 1,
            IntKind::U128 | IntKind::I128 => 0,
        }
    }

    /// The number of values of the kind divides that of a word, or is its square.
    pub proof fn lemma_modulus(self)
        ensures
            self.modulus() > 0,
            self.bits_spec() <= 64 ==> self.per_word() > 0 && self.modulus() * self.per_word()
                == word_modulus(),
            self.bits_spec() > 64 ==> self.modulus() == word_modulus() * word_modulus(),
    {
        assert(0x100 * 0x100_0000_0000_0000 == 0x1_0000_0000_0000_0000int) by (nonlinear_arith);
        assert(0x1_0000 * 0x1_0000_0000_0000 == 0x1_0000_0000_0000_0000int) by (nonlinear_arith);
        assert(0x1_0000_0000 * 0x1_0000_0000 == 0x1_0000_0000_0000_0000int) by (nonlinear_arith);
        assert(0x1_0000_0000_0000_0000 * 0x1_0000_0000_0000_0000
            == 0x1_0000_0000_0000_0000_0000_0000_0000_0000int) by (nonlinear_arith);
    }

    /// What two words hold, reduced to the width of the kind: the low word
    /// reduced, or both words for the 128-bit kinds.
    pub proof fn lemma_words_raw(self, low: u64, high: u64)
        ensures
            (low + high * word_modulus()) % self.modulus() == if self.bits_spec() <= 64 {
                low as int % self.modulus()
            } else {
                low + high * word_modulus()
            },
    {
        self.lemma_modulus();
        let modulus = self.modulus();
        let word = word_modulus();
        if self.bits_spec() <= 64 {
            let per_word = self.per_word();
            assert(low + high * word == modulus * (high * per_word) + low) by (nonlinear_arith)
                requires
                    modulus * per_word == word,
            ;
            vstd::arithmetic::div_mod::lemma_mod_multiples_vanish(
                high * per_word,
                low as int,
                modulus,
            );
        } else {
            assert(0 <= low + high * word < word * word) by (nonlinear_arith)
                requires
                    0 <= low < word,
                    0 <= high < word,
            ;
            vstd::arithmetic::div_mod::lemma_small_mod(
                (low + high * word) as nat,
                modulus as nat,
            );
        }
    }

    /// A number of the kind is recovered from its two's complement form.
    pub proof fn lemma_from_raw(self, value: int)
        requires
            self.holds(value),
        ensures
            self.from_raw(value) == value,
            self.from_raw(value % self.modulus()) == value,
            self.bits_spec() <= 64 ==> self.from_raw(low_word(value) as int) == value,
            self.from_raw(low_word(value) + high_word(value) * word_modulus()) == value,
    {
        self.lemma_modulus();
        let modulus = self.modulus();
        let word = word_modulus();
        lemma_wrap(value, modulus);
        vstd::arithmetic::div_mod::lemma_mod_twice(value, modulus);
        vstd::arithmetic::div_mod::lemma_mod_bound(value, word);
        vstd::arithmetic::div_mod::lemma_mod_bound(value / word, word);
        self.lemma_words_raw(low_word(value), high_word(value));
        if self.bits_spec() <= 64 {
            vstd::arithmetic::div_mod::lemma_mod_mod(value, modulus, self.per_word());
        } else {
            lemma_two_words(value);
        }
    }
}

/// A number within one modulus of zero wraps to itself, or to itself plus the
/// modulus when it is negative.
pub proof fn lemma_wrap(value: int, modulus: int)
    requires
        modulus > 0,
        -modulus <= value < modulus,
    ensures
        value % modulus == if value >= 0 {
            value
        } else {
            value + modulus
        },
{
    if value >= 0 {
        vstd::arithmetic::div_mod::lemma_fundamental_div_mod_converse(value, modulus, 0, value);
    } else {
        vstd::arithmetic::div_mod::lemma_fundamental_div_mod_converse(
            value,
            modulus,
            -1,
            value + modulus,
        );
    }
}

/// The two low words of a number hold it modulo `2^128`.
pub proof fn lemma_two_words(value: int)
    ensures
        low_word(value) + high_word(value) * word_modulus() == value % (word_modulus()
            * word_modulus()),
{
    let word = word_modulus();
    let quotient = value / word;
    vstd::arithmetic::div_mod::lemma_fundamental_div_mod(value, word);
    vstd::arithmetic::div_mod::lemma_fundamental_div_mod(quotient, word);
    vstd::arithmetic::div_mod::lemma_mod_bound(value, word);
    vstd::arithmetic::div_mod::lemma_mod_bound(quotient, word);
    let rest = value % word + (quotient % word) * word;
    assert(value == (quotient / word) * (word * word) + rest) by (nonlinear_arith)
        requires
            value == word * quotient + value % word,
            quotient == word * (quotient / word) + quotient % word,
            rest == value % word + (quotient % word) * word,
    ;
    assert(0 <= rest < word * word) by (nonlinear_arith)
        requires
            0 <= value % word < word,
            0 <= quotient % word < word,
            rest == value % word + (quotient % word) * word,
    ;
    vstd::arithmetic::div_mod::lemma_fundamental_div_mod_converse(
        value,
        word * word,
        quotient / word,
        rest,
    );
}

impl TypeKind {
    /// The integer kind that this type kind is, if it is one.
    pub open spec fn int_kind_spec(&self) -> Option<IntKind> {
        match self {
            TypeKind::Uint8 => Some(IntKind::U8),
            TypeKind::Uint16 => Some(IntKind::U16),
            TypeKind::Uint32 => Some(IntKind::U32),
            TypeKind::Uint64 => Some(IntKind::U64),
            TypeKind::Uint128 => Some(IntKind::U128),
            TypeKind::Sint8 => Some(IntKind::I8),
            TypeKind::Sint16 => Some(IntKind::I16),
            TypeKind::Sint32 => Some(IntKind::I32),
            TypeKind::Sint64 => Some(IntKind::I64),
            TypeKind::Sint128 => Some(IntKind::I128),
            _ => None,
        }
    }

    /// The integer kind that this type kind is, if it is one.
    #[verifier::when_used_as_spec(int_kind_spec)]
    pub fn int_kind(&self) -> (kind: Option<IntKind>)
        ensures
            kind == self.int_kind_spec(),
    {
        match self {
            TypeKind::Uint8 => Some(IntKind::U8),
            TypeKind::Uint16 => Some(IntKind::U16),
            TypeKind::Uint32 => Some(IntKind::U32),
            TypeKind::Uint64 => Some(IntKind::U64),
            TypeKind::Uint128 => Some(IntKind::U128),
            TypeKind::Sint8 => Some(IntKind::I8),
            TypeKind::Sint16 => Some(IntKind::I16),
            TypeKind::Sint32 => Some(IntKind::I32),
            TypeKind::Sint64 => Some(IntKind::I64),
            TypeKind::Sint128 => Some(IntKind::I128),
            _ => None,
        }
    }
}

impl ValueView {
    /// The integer kind and the number of an integer value.
    pub open spec fn as_int(self) -> Option<(IntKind, int)> {
        match self {
            ValueView::Uint8(value) => Some((IntKind::U8, value as int)),
            ValueView::Uint16(value) => Some((IntKind::U16, value as int)),
            ValueView::Uint32(value) => Some((IntKind::U32, value as int)),
            ValueView::Uint64(value) => Some((IntKind::U64, value as int)),
            ValueView::Uint128(value) => Some((IntKind::U128, value as int)),
            ValueView::Sint8(value) => Some((IntKind::I8, value as int)),
            ValueView::Sint16(value) => Some((IntKind::I16, value as int)),
            ValueView::Sint32(value) => Some((IntKind::I32, value as int)),
            ValueView::Sint64(value) => Some((IntKind::I64, value as int)),
            ValueView::Sint128(value) => Some((IntKind::I128, value as int)),
            _ => None,
        }
    }

    /// The integer value of the given kind and number.
    pub open spec fn of_int(kind: IntKind, value: int) -> ValueView {
        match kind {
            IntKind::U8 => ValueView::Uint8(value as u8),
            IntKind::U16 => ValueView::Uint16(value as u16),
            IntKind::U32 => ValueView::Uint32(value as u32),
            IntKind::U64 => ValueView::Uint64(value as u64),
            IntKind::U128 => ValueView::Uint128(value as u128),
            IntKind::I8 => ValueView::Sint8(value as i8),
            IntKind::I16 => ValueView::Sint16(value as i16),
            IntKind::I32 => ValueView::Sint32(value as i32),
            IntKind::I64 => ValueView::Sint64(value as i64),
            IntKind::I128 => ValueView::Sint128(value as i128),
        }
    }

    /// An integer value is rebuilt from its kind and number.
    pub proof fn lemma_of_int_as_int(self)
        requires
            self.as_int() is Some,
        ensures
            ValueView::of_int(self.as_int().unwrap().0, self.as_int().unwrap().1) == self,
            self.as_int().unwrap().0.holds(self.as_int().unwrap().1),
    {
    }
}

/// The bytes of `raw`, a number below the modulus of the kind, in memory:
/// little-endian, as many as the kind is wide.
pub open spec fn raw_bytes(kind: IntKind, raw: int) -> Seq<u8> {
    match kind {
        IntKind::U8 | IntKind::I8 => seq![raw as u8],
        IntKind::U16 | IntKind::I16 => spec_u16_to_le_bytes(raw as u16),
        IntKind::U32 | IntKind::I32 => spec_u32_to_le_bytes(raw as u32),
        IntKind::U64 | IntKind::I64 => spec_u64_to_le_bytes(raw as u64),
        IntKind::U128 | IntKind::I128 => spec_u128_to_le_bytes(raw as u128),
    }
}

/// The bytes of the two's complement form of `value` in memory: little-endian,
/// as many as the kind is wide.
pub open spec fn int_bytes(kind: IntKind, value: int) -> Seq<u8> {
    raw_bytes(kind, value % kind.modulus())
}

/// The two low words of a number hold it modulo the modulus of any kind.
pub proof fn lemma_words_value(kind: IntKind, value: int)
    ensures
        (low_word(value) + high_word(value) * word_modulus()) % kind.modulus() == value
            % kind.modulus(),
{
    kind.lemma_modulus();
    let word = word_modulus();
    vstd::arithmetic::div_mod::lemma_mod_bound(value, word);
    vstd::arithmetic::div_mod::lemma_mod_bound(value / word, word);
    kind.lemma_words_raw(low_word(value), high_word(value));
    if kind.bits_spec() <= 64 {
        vstd::arithmetic::div_mod::lemma_mod_mod(value, kind.modulus(), kind.per_word());
    } else {
        lemma_two_words(value);
        vstd::arithmetic::div_mod::lemma_mod_twice(value, kind.modulus());
    }
}

/// The number of the given kind that `bytes` hold in little-endian order.
pub open spec fn int_from_bytes(kind: IntKind, bytes: Seq<u8>) -> int {
    kind.from_raw(
        match kind {
            IntKind::U8 | IntKind::I8 => bytes[0] as int,
            IntKind::U16 | IntKind::I16 => spec_u16_from_le_bytes(bytes) as int,
            IntKind::U32 | IntKind::I32 => spec_u32_from_le_bytes(bytes) as int,
            IntKind::U64 | IntKind::I64 => spec_u64_from_le_bytes(bytes) as int,
            IntKind::U128 | IntKind::I128 => spec_u128_from_le_bytes(bytes) as int,
        },
    )
}

/// The memory form of an integer is as long as the kind is wide, and reading it
/// gives the integer back.
pub proof fn lemma_int_bytes(kind: IntKind, value: int)
    requires
        kind.holds(value),
    ensures
        int_bytes(kind, value).len() == kind.bits_spec() / 8,
        int_from_bytes(kind, int_bytes(kind, value)) == value,
{
    kind.lemma_modulus();
    let raw = value % kind.modulus();
    vstd::arithmetic::div_mod::lemma_mod_bound(value, kind.modulus());
    kind.lemma_from_raw(value);
    lemma_raw_bytes(kind, raw);
}

/// The memory form of a raw number is as long as the kind is wide, and holds
/// the raw number.
pub proof fn lemma_raw_bytes(kind: IntKind, raw: int)
    requires
        0 <= raw < kind.modulus(),
    ensures
        raw_bytes(kind, raw).len() == kind.bits_spec() / 8,
        int_from_bytes(kind, raw_bytes(kind, raw)) == kind.from_raw(raw),
{
    lemma_auto_spec_u16_to_from_le_bytes();
    lemma_auto_spec_u32_to_from_le_bytes();
    lemma_auto_spec_u64_to_from_le_bytes();
    lemma_auto_spec_u128_to_from_le_bytes();
    match kind {
        IntKind::U8 | IntKind::I8 => {
            assert(raw_bytes(kind, raw)[0] == raw as u8);
        },
        IntKind::U16 | IntKind::I16 => {
            assert(spec_u16_to_le_bytes(raw as u16).len() == 2);
            assert(spec_u16_from_le_bytes(spec_u16_to_le_bytes(raw as u16)) == raw as u16);
        },
        IntKind::U32 | IntKind::I32 => {
            assert(spec_u32_to_le_bytes(raw as u32).len() == 4);
            assert(spec_u32_from_le_bytes(spec_u32_to_le_bytes(raw as u32)) == raw as u32);
        },
        IntKind::U64 | IntKind::I64 => {
            assert(spec_u64_to_le_bytes(raw as u64).len() == 8);
            assert(spec_u64_from_le_bytes(spec_u64_to_le_bytes(raw as u64)) == raw as u64);
        },
        IntKind::U128 | IntKind::I128 => {
            assert(spec_u128_to_le_bytes(raw as u128).len() == 16);
            assert(spec_u128_from_le_bytes(spec_u128_to_le_bytes(raw as u128)) == raw as u128);
        },
    }
}

impl JitValue {
    /// The kind of an integer value and the two 64-bit words of its two's
    /// complement form, extended to 128 bits.
    pub fn int_words(&self) -> (words: Option<(IntKind, u64, u64)>)
        ensures
            match self@.as_int() {
                Some((kind, value)) => words == Some((kind, low_word(value), high_word(value))),
                None => words is None,
            },
    {
        match self {
            JitValue::Uint8(value) => Some((IntKind::U8, *value as u64, 0)),
            JitValue::Uint16(value) => Some((IntKind::U16, *value as u64, 0)),
            JitValue::Uint32(value) => Some((IntKind::U32, *value as u64, 0)),
            JitValue::Uint64(value) => Some((IntKind::U64, *value, 0)),
            JitValue::Uint128(value) => {
                let pair = split_words(*value);
                Some((IntKind::U128, pair.0, pair.1))
            },
            JitValue::Sint8(value) => {
                let pair = signed_words(*value as i128);
                Some((IntKind::I8, pair.0, pair.1))
            },
            JitValue::Sint16(value) => {
                let pair = signed_words(*value as i128);
                Some((IntKind::I16, pair.0, pair.1))
            },
            JitValue::Sint32(value) => {
                let pair = signed_words(*value as i128);
                Some((IntKind::I32, pair.0, pair.1))
            },
            JitValue::Sint64(value) => {
                let pair = signed_words(*value as i128);
                Some((IntKind::I64, pair.0, pair.1))
            },
            JitValue::Sint128(value) => {
                let pair = signed_words(*value);
                Some((IntKind::I128, pair.0, pair.1))
            },
            _ => None,
        }
    }

    /// The integer of the given kind whose two's complement form is congruent
    /// to the number that the two words hold.
    pub fn from_int_words(kind: IntKind, low: u64, high: u64) -> (value: JitValue)
        ensures
            value@ == ValueView::of_int(kind, kind.from_raw(low + high * word_modulus())),
    {
        proof {
            kind.lemma_words_raw(low, high);
        }
        match kind {
            IntKind::U8 => JitValue::Uint8((low % 0x100) as u8),
            IntKind::U16 => JitValue::Uint16((low % 0x1_0000) as u16),
            IntKind::U32 => JitValue::Uint32((low % 0x1_0000_0000) as u32),
            IntKind::U64 => JitValue::Uint64(low),
            IntKind::U128 => JitValue::Uint128(join_words(low, high)),
            IntKind::I8 => {
                let raw: u64 = low % 0x100;
                JitValue::Sint8(
                    if raw >= 0x80 {
                        (raw as i64 - 0x100) as i8
                    } else {
                        raw as i8
                    },
                )
            },
            IntKind::I16 => {
                let raw: u64 = low % 0x1_0000;
                JitValue::Sint16(
                    if raw >= 0x8000 {
                        (raw as i64 - 0x1_0000) as i16
                    } else {
                        raw as i16
                    },
                )
            },
            IntKind::I32 => {
                let raw: u64 = low % 0x1_0000_0000;
                JitValue::Sint32(
                    if raw >= 0x8000_0000 {
                        (raw as i64 - 0x1_0000_0000) as i32
                    } else {
                        raw as i32
                    },
                )
            },
            IntKind::I64 => JitValue::Sint64(
                if low >= 0x8000_0000_0000_0000 {
                    (low as i128 - 0x1_0000_0000_0000_0000) as i64
                } else {
                    low as i64
                },
            ),
            IntKind::I128 => {
                let raw: u128 = join_words(low, high);
                JitValue::Sint128(
                    if raw >= 0x8000_0000_0000_0000_0000_0000_0000_0000 {
                        (raw - 0x8000_0000_0000_0000_0000_0000_0000_0000) as i128 + i128::MIN
                    } else {
                        raw as i128
                    },
                )
            },
        }
    }
}

/// The two words of a 128-bit number, the low one first.
pub fn split_words(value: u128) -> (words: (u64, u64))
    ensures
        words.0 == low_word(value as int),
        words.1 == high_word(value as int),
        value == words.0 + words.1 * word_modulus(),
{
    ((value % 0x1_0000_0000_0000_0000) as u64, (value / 0x1_0000_0000_0000_0000) as u64)
}

/// The 128-bit number that two words hold, the low one first.
pub fn join_words(low: u64, high: u64) -> (value: u128)
    ensures
        value == low + high * word_modulus(),
{
    high as u128 * 0x1_0000_0000_0000_0000 + low as u128
}

/// The two words of the two's complement form of a signed number, the low one
/// first.
pub fn signed_words(value: i128) -> (words: (u64, u64))
    ensures
        words.0 == low_word(value as int),
        words.1 == high_word(value as int),
{
    if value >= 0 {
        split_words(value as u128)
    } else {
        let raw: u128 = (value - i128::MIN) as u128 + 0x8000_0000_0000_0000_0000_0000_0000_0000;
        split_words(raw)
    }
}

/// The memory form of the integer of the given kind that two words hold.
pub fn int_image(kind: IntKind, low: u64, high: u64) -> (bytes: Vec<u8>)
    ensures
        bytes@ == raw_bytes(kind, (low + high * word_modulus()) % kind.modulus()),
        bytes@.len() == kind.bits_spec() / 8,
{
    proof {
        kind.lemma_words_raw(low, high);
    }
    match kind {
        IntKind::U8 | IntKind::I8 => {
            let mut bytes: Vec<u8> = Vec::new();
            bytes.push((low % 0x100) as u8);
            assert(bytes@ =~= seq![(low % 0x100) as u8]);
            bytes
        },
        IntKind::U16 | IntKind::I16 => u16_to_le_bytes((low % 0x1_0000) as u16),
        IntKind::U32 | IntKind::I32 => u32_to_le_bytes((low % 0x1_0000_0000) as u32),
        IntKind::U64 | IntKind::I64 => u64_to_le_bytes(low),
        IntKind::U128 | IntKind::I128 => u128_to_le_bytes(join_words(low, high)),
    }
}

/// The integer of the given kind that the bytes of its memory form hold.
pub fn int_from_image(kind: IntKind, bytes: &[u8]) -> (value: JitValue)
    requires
        bytes@.len() == kind.bits_spec() / 8,
    ensures
        value@ == ValueView::of_int(kind, int_from_bytes(kind, bytes@)),
{
    match kind {
        IntKind::U8 | IntKind::I8 => {
            let raw: u8 = bytes[0];
            proof {
                kind.lemma_words_raw(raw as u64, 0);
            }
            JitValue::from_int_words(kind, raw as u64, 0)
        },
        IntKind::U16 | IntKind::I16 => {
            let raw: u16 = u16_from_le_bytes(bytes);
            JitValue::from_int_words(kind, raw as u64, 0)
        },
        IntKind::U32 | IntKind::I32 => {
            let raw: u32 = u32_from_le_bytes(bytes);
            JitValue::from_int_words(kind, raw as u64, 0)
        },
        IntKind::U64 | IntKind::I64 => {
            let raw: u64 = u64_from_le_bytes(bytes);
            JitValue::from_int_words(kind, raw, 0)
        },
        IntKind::U128 | IntKind::I128 => {
            let raw: u128 = u128_from_le_bytes(bytes);
            let words = split_words(raw);
            JitValue::from_int_words(kind, words.0, words.1)
        },
    }
}

} // verus!
