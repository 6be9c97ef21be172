use cairo_native::arch::Arch;
use cairo_native::felt::Felt252;
use cairo_native::layout::{get_integer_layout, round_up_to, Layout, MAX_LAYOUT_SIZE};
use cairo_native::memory::{Arena, Memory, Region};
use cairo_native::types::{
    fixed_size_of, tag_bits_of, tag_size_of, RegistryError, TypeInfo, TypeKind, TypeRegistry,
};
use cairo_native::utility::{
    append_decimal, array_type, dense_attribute, print_felt_plan, round_up,
};
use starknet_types_core::felt::Felt;

#[test]
fn round_up_powers() {
    assert_eq!(round_up(0), 1);
    assert_eq!(round_up(1), 1);
    assert_eq!(round_up(2), 2);
    assert_eq!(round_up(3), 4);
    assert_eq!(round_up(252), 256);
    assert_eq!(round_up(256), 256);
    assert_eq!(round_up(257), 512);
    assert_eq!(round_up(0x8000_0000), 0x8000_0000);
}

#[test]
fn print_plan_of_a_field_element() {
    let plan = print_felt_plan(252);
    assert_eq!(plan.width, 256);
    assert!(plan.extend);
    assert_eq!(plan.shifts, vec![224, 192, 160, 128, 96, 64, 32, 0]);
}

#[test]
fn print_plan_of_narrow_numbers() {
    let plan = print_felt_plan(8);
    assert_eq!(plan.width, 8);
    assert!(!plan.extend);
    assert_eq!(plan.shifts, vec![0]);

    let plan = print_felt_plan(33);
    assert_eq!(plan.width, 64);
    assert!(plan.extend);
    assert_eq!(plan.shifts, vec![32, 0]);

    let plan = print_felt_plan(0);
    assert_eq!(plan.width, 1);
    assert!(plan.extend);
    assert_eq!(plan.shifts, vec![0]);
}

#[test]
fn decimal_text_of_numbers() {
    let mut text = b"n=".to_vec();
    append_decimal(&mut text, 0);
    assert_eq!(text, b"n=0".to_vec());
    append_decimal(&mut text, 9);
    append_decimal(&mut text, 10);
    append_decimal(&mut text, 18446744073709551615);
    assert_eq!(text, b"n=091018446744073709551615".to_vec());
}

#[test]
fn printf_format_texts() {
    assert_eq!(array_type(5), b"!llvm.array<5 x i8>".to_vec());
    assert_eq!(
        dense_attribute(b"%08X\0"),
        b"dense<[37, 48, 56, 88, 0]> : tensor<5 x i8>".to_vec()
    );
    assert_eq!(dense_attribute(b""), b"dense<[]> : tensor<0 x i8>".to_vec());
    assert_eq!(dense_attribute(b"a"), b"dense<[97]> : tensor<1 x i8>".to_vec());
}

#[test]
fn integer_layouts() {
    let layout = |width, arch| {
        let layout = get_integer_layout(width, arch);
        (layout.size, layout.align)
    };
    for arch in [Arch::X86_64, Arch::Aarch64] {
        assert_eq!(layout(0, arch), (0, 1));
        assert_eq!(layout(1, arch), (1, 1));
        assert_eq!(layout(8, arch), (1, 1));
        assert_eq!(layout(9, arch), (2, 2));
        assert_eq!(layout(16, arch), (2, 2));
        assert_eq!(layout(32, arch), (4, 4));
        assert_eq!(layout(33, arch), (8, 8));
        assert_eq!(layout(64, arch), (8, 8));
    }
    assert_eq!(layout(128, Arch::X86_64), (16, 8));
    assert_eq!(layout(128, Arch::Aarch64), (16, 16));
    assert_eq!(layout(252, Arch::X86_64), (32, 8));
    assert_eq!(layout(252, Arch::Aarch64), (32, 16));
    assert_eq!(layout(65, Arch::Aarch64), (16, 16));
    assert_eq!(layout(129, Arch::Aarch64), (24, 16));
    assert_eq!(Arch::X86_64.max_align(), 8);
    assert_eq!(Arch::Aarch64.max_align(), 16);
    assert_eq!(Arch::X86_64.return_registers(), 2);
    assert_eq!(Arch::Aarch64.return_registers(), 4);
}

#[test]
fn layout_arithmetic() {
    assert_eq!(round_up_to(0, 8), 0);
    assert_eq!(round_up_to(1, 8), 8);
    assert_eq!(round_up_to(8, 8), 8);
    assert_eq!(round_up_to(17, 16), 32);
    assert_eq!(round_up_to(5, 1), 5);

    let byte = Layout { size: 1, align: 1 };
    let word = Layout { size: 8, align: 8 };
    assert_eq!(byte.extend(word), Some((Layout { size: 16, align: 8 }, 8)));
    assert_eq!(word.extend(byte), Some((Layout { size: 9, align: 8 }, 8)));
    assert_eq!(Layout { size: 9, align: 8 }.pad_to_align(), Layout { size: 16, align: 8 });
    assert_eq!(word.pad_to_align(), word);
    assert_eq!(Layout::empty(), Layout { size: 0, align: 1 });
    assert_eq!(Layout::empty().extend(word), Some((word, 0)));

    let huge = Layout { size: MAX_LAYOUT_SIZE, align: 1 };
    assert_eq!(huge.extend(byte), None);
    assert_eq!(huge.extend(Layout::empty()), Some((huge, MAX_LAYOUT_SIZE)));

    assert_eq!(Layout::from_size_align(24, 8), Some(Layout { size: 24, align: 8 }));
    assert_eq!(Layout::from_size_align(24, 3), None);
    assert_eq!(Layout::from_size_align(24, 32), None);
    assert_eq!(Layout::from_size_align(MAX_LAYOUT_SIZE + 1, 8), None);
}

#[test]
fn enum_tags() {
    assert_eq!(tag_bits_of(0), 0);
    assert_eq!(tag_bits_of(1), 0);
    assert_eq!(tag_bits_of(2), 1);
    assert_eq!(tag_bits_of(3), 2);
    assert_eq!(tag_bits_of(4), 2);
    assert_eq!(tag_bits_of(5), 3);
    assert_eq!(tag_bits_of(256), 8);
    assert_eq!(tag_bits_of(257), 9);
    assert_eq!(tag_size_of(0), 0);
    assert_eq!(tag_size_of(1), 0);
    assert_eq!(tag_size_of(2), 1);
    assert_eq!(tag_size_of(256), 1);
    assert_eq!(tag_size_of(257), 2);
    assert_eq!(tag_size_of(65536), 2);
    assert_eq!(tag_size_of(65537), 4);
}

#[test]
fn fixed_sizes_of_kinds() {
    assert_eq!(fixed_size_of(&TypeKind::Uint8), Some(1));
    assert_eq!(fixed_size_of(&TypeKind::Sint16), Some(2));
    assert_eq!(fixed_size_of(&TypeKind::Uint32), Some(4));
    assert_eq!(fixed_size_of(&TypeKind::Sint64), Some(8));
    assert_eq!(fixed_size_of(&TypeKind::Uint128), Some(16));
    assert_eq!(fixed_size_of(&TypeKind::Felt252), Some(32));
    assert_eq!(fixed_size_of(&TypeKind::ContractAddress), Some(32));
    assert_eq!(fixed_size_of(&TypeKind::EcPoint), Some(64));
    assert_eq!(fixed_size_of(&TypeKind::EcState), Some(128));
    assert_eq!(fixed_size_of(&TypeKind::Array(0)), Some(16));
    assert_eq!(fixed_size_of(&TypeKind::Nullable(0)), Some(8));
    assert_eq!(fixed_size_of(&TypeKind::GasBuiltin), Some(16));
    assert_eq!(fixed_size_of(&TypeKind::System), Some(8));
    assert_eq!(fixed_size_of(&TypeKind::RangeCheck), Some(0));
    assert_eq!(fixed_size_of(&TypeKind::Struct(vec![])), None);
    assert_eq!(fixed_size_of(&TypeKind::Bytes31), None);
    assert!(TypeKind::RangeCheck.is_builtin());
    assert!(TypeKind::GasBuiltin.is_builtin());
    assert!(TypeKind::System.is_builtin());
    assert!(!TypeKind::Uint8.is_builtin());
    assert!(!TypeKind::Struct(vec![]).is_builtin());
}

fn info(kind: TypeKind, size: u64, align: u64) -> TypeInfo {
    TypeInfo {
        kind,
        layout: Layout { size, align },
        zero_sized: size == 0,
        complex: false,
        memory_allocated: false,
    }
}

#[test]
fn registry_accepts_valid_descriptions() {
    let mut registry = TypeRegistry::new(Arch::X86_64);
    assert_eq!(registry.len(), 0);
    assert!(registry.get(0).is_none());
    assert_eq!(registry.declare(info(TypeKind::Uint8, 1, 1)), Ok(0));
    assert_eq!(registry.declare(info(TypeKind::Felt252, 32, 8)), Ok(1));
    assert_eq!(registry.declare(info(TypeKind::Struct(vec![0, 1]), 40, 8)), Ok(2));
    assert_eq!(registry.declare(info(TypeKind::Struct(vec![0, 1]), 48, 8)), Ok(3));
    assert_eq!(registry.declare(info(TypeKind::Enum(vec![0, 1]), 40, 8)), Ok(4));
    assert_eq!(registry.declare(info(TypeKind::NonZero(1), 32, 8)), Ok(5));
    assert_eq!(registry.declare(info(TypeKind::Array(2), 16, 8)), Ok(6));
    assert_eq!(registry.len(), 7);
    assert_eq!(registry.get(1).unwrap().kind, TypeKind::Felt252);
    assert!(registry.get(7).is_none());
}

#[test]
fn registry_and_arena_check_themselves() {
    let mut registry = TypeRegistry::new(Arch::X86_64);
    assert!(registry.is_wf());
    registry.declare(info(TypeKind::Uint8, 1, 1)).unwrap();
    registry.declare(info(TypeKind::Felt252, 32, 8)).unwrap();
    registry.declare(info(TypeKind::Struct(vec![0, 1]), 40, 8)).unwrap();
    registry.declare(info(TypeKind::Enum(vec![0, 2]), 48, 8)).unwrap();
    registry.declare(info(TypeKind::Array(3), 16, 8)).unwrap();
    assert!(registry.is_wf());

    // Entries that were not declared but written are found out.
    let written = |entries: Vec<TypeInfo>| TypeRegistry { arch: Arch::X86_64, types: entries };
    assert!(written(vec![info(TypeKind::Uint8, 1, 1), info(TypeKind::NonZero(0), 1, 1)]).is_wf());
    assert!(!written(vec![info(TypeKind::NonZero(0), 1, 1)]).is_wf());
    assert!(!written(vec![info(TypeKind::Uint8, 1, 1), info(TypeKind::NonZero(1), 1, 1)]).is_wf());
    assert!(!written(vec![info(TypeKind::Uint8, 2, 1)]).is_wf());
    assert!(!written(vec![info(TypeKind::Uint8, 1, 1), info(TypeKind::Struct(vec![0, 0]), 1, 1)])
        .is_wf());
    assert!(!written(vec![info(TypeKind::Felt252, 32, 16)]).is_wf());

    let mut arena = Arena::new(0x1000, 8).unwrap();
    assert!(arena.is_wf());
    arena.store(1, &vec![1, 2, 3]).unwrap();
    assert!(arena.is_wf());
    assert!(!Arena { base: 0x1000, capacity: 2, bytes: vec![1, 2, 3] }.is_wf());
    assert!(!Arena { base: 0x1001, capacity: 8, bytes: vec![] }.is_wf());
    assert!(!Arena { base: 0, capacity: 8, bytes: vec![] }.is_wf());
    assert!(!Arena { base: u64::MAX - 15, capacity: 64, bytes: vec![] }.is_wf());
}

#[test]
fn registry_rejects_invalid_descriptions() {
    let mut registry = TypeRegistry::new(Arch::X86_64);
    assert_eq!(registry.declare(info(TypeKind::Uint8, 1, 1)), Ok(0));
    assert_eq!(registry.declare(info(TypeKind::Felt252, 32, 8)), Ok(1));

    // Built from a type that is not there yet, itself included.
    assert_eq!(registry.declare(info(TypeKind::Array(2), 16, 8)), Err(RegistryError::UnknownType));
    assert_eq!(
        registry.declare(info(TypeKind::Struct(vec![0, 5]), 16, 8)),
        Err(RegistryError::UnknownType)
    );
    // A size that the kind does not have.
    assert_eq!(registry.declare(info(TypeKind::Uint32, 8, 4)), Err(RegistryError::InvalidLayout));
    // An alignment that is no power of two, or that the architecture caps.
    assert_eq!(registry.declare(info(TypeKind::Uint32, 4, 3)), Err(RegistryError::InvalidLayout));
    assert_eq!(registry.declare(info(TypeKind::Felt252, 32, 16)), Err(RegistryError::InvalidLayout));
    // A struct whose members do not fit: the field element lies at offset 8.
    assert_eq!(
        registry.declare(info(TypeKind::Struct(vec![0, 1]), 39, 8)),
        Err(RegistryError::InvalidLayout)
    );
    // An enum whose second variant does not fit behind the tag.
    assert_eq!(
        registry.declare(info(TypeKind::Enum(vec![0, 1]), 39, 8)),
        Err(RegistryError::InvalidLayout)
    );
    // A transparent wrapper with another layout than what it wraps.
    assert_eq!(registry.declare(info(TypeKind::NonZero(0), 2, 2)), Err(RegistryError::InvalidLayout));
    // A type said to be without representation that has a size.
    assert_eq!(
        registry.declare(TypeInfo {
            kind: TypeKind::Uint8,
            layout: Layout { size: 1, align: 1 },
            zero_sized: true,
            complex: false,
            memory_allocated: false,
        }),
        Err(RegistryError::InvalidLayout)
    );
    // A capability token without representation that is said to have one.
    assert_eq!(
        registry.declare(TypeInfo {
            kind: TypeKind::RangeCheck,
            layout: Layout { size: 0, align: 1 },
            zero_sized: false,
            complex: false,
            memory_allocated: false,
        }),
        Err(RegistryError::InvalidLayout)
    );
    assert_eq!(registry.len(), 2);
    assert!(TypeKind::Pedersen.is_unit_builtin());
    assert!(!TypeKind::GasBuiltin.is_unit_builtin());

    let mut registry = TypeRegistry::new(Arch::Aarch64);
    assert_eq!(registry.declare(info(TypeKind::Felt252, 32, 16)), Ok(0));
}

const PRIME_TOP: u64 = 0x0800_0000_0000_0011;

#[test]
fn field_elements_are_reduced() {
    // The prime plus five.
    let felt = Felt252::from_le_digits([6, 0, 0, PRIME_TOP]);
    assert_eq!(felt.to_le_digits(), [5, 0, 0, 0]);
    // The prime itself.
    assert_eq!(Felt252::from_le_digits([1, 0, 0, PRIME_TOP]).to_le_digits(), [0, 0, 0, 0]);
    // The greatest field element stays.
    assert_eq!(
        Felt252::from_le_digits([0, 0, 0, PRIME_TOP]).to_le_digits(),
        [0, 0, 0, PRIME_TOP]
    );
    // 2^256 - 1 is 31 * prime + (2^251 - 527 * 2^192 - 32).
    let all_ones = Felt252::from_le_digits([u64::MAX; 4]);
    assert_eq!(all_ones.to_le_digits(), Felt::from_bytes_le(&[0xff; 32]).to_le_digits());
    assert_eq!(
        all_ones.to_le_digits(),
        [u64::MAX - 31, u64::MAX, u64::MAX, 0x07ff_ffff_ffff_fdf0]
    );
}

#[test]
fn field_elements_agree_with_the_field() {
    let minus_one = Felt::from(-1);
    let felt = Felt252::from_le_digits(minus_one.to_le_digits());
    assert_eq!(felt.to_le_digits(), [0, 0, 0, PRIME_TOP]);
    assert_eq!(felt.to_bytes_le(), minus_one.to_bytes_le().to_vec());
    assert_eq!(Felt252::from_bytes_le(&minus_one.to_bytes_le()), felt);

    let small = Felt252::from_u128(0x1_0000_0000_0000_0002);
    assert_eq!(small.to_le_digits(), [2, 1, 0, 0]);
    assert_eq!(small, Felt252::from_le_digits([2, 1, 0, 0]));
    assert_eq!(Felt252::from_u128(u128::MAX).to_le_digits(), [u64::MAX, u64::MAX, 0, 0]);
    let mut bytes = vec![0u8; 32];
    bytes[0] = 2;
    bytes[8] = 1;
    assert_eq!(small.to_bytes_le(), bytes);
}

#[test]
fn arena_stores_blocks_in_order() {
    assert!(Arena::new(0, 64).is_none());
    assert!(Arena::new(0x1008, 64).is_none());
    assert!(Arena::new(0x1000, MAX_LAYOUT_SIZE + 1).is_none());
    assert!(Arena::new(0xffff_ffff_ffff_fff0, 64).is_none());

    let mut arena = Arena::new(0x1000, 64).unwrap();
    assert_eq!(arena.len(), 0);
    assert_eq!(arena.store(1, &vec![1, 2, 3]), Some(0x1000));
    assert_eq!(arena.store(8, &vec![4, 5]), Some(0x1008));
    assert_eq!(arena.bytes, vec![1, 2, 3, 0, 0, 0, 0, 0, 4, 5]);
    assert_eq!(arena.reserve(16, 4), Some(0x1010));
    assert_eq!(arena.len(), 20);
    assert_eq!(&arena.bytes[10..], &[0u8; 10]);
    // 44 bytes are left, from offset 20 on.
    assert_eq!(arena.store(1, &vec![9; 45]), None);
    assert_eq!(arena.reserve(16, 33), None);
    assert_eq!(arena.len(), 20);
    assert_eq!(arena.reserve(16, 32), Some(0x1020));
    assert_eq!(arena.len(), 64);
    assert_eq!(arena.store(1, &vec![]), Some(0x1040));
    assert_eq!(arena.store(1, &vec![1]), None);
}

#[test]
fn memory_reads_from_the_first_region_that_holds_the_range() {
    let mut memory = Memory::new();
    assert_eq!(memory.read(0x1000, 1), None);
    assert_eq!(memory.read(0x1000, 0), Some(vec![]));
    memory.map(Region { base: 0x1000, bytes: vec![1, 2, 3, 4] });
    memory.map(Region { base: 0x1002, bytes: vec![7, 8, 9, 10] });
    assert_eq!(memory.read(0x1000, 4), Some(vec![1, 2, 3, 4]));
    assert_eq!(memory.read(0x1001, 2), Some(vec![2, 3]));
    assert_eq!(memory.read(0x1002, 2), Some(vec![3, 4]));
    assert_eq!(memory.read(0x1002, 3), Some(vec![7, 8, 9]));
    assert_eq!(memory.read(0x1003, 3), Some(vec![8, 9, 10]));
    assert_eq!(memory.read(0x1000, 5), None);
    assert_eq!(memory.read(0x0fff, 2), None);
    assert_eq!(memory.read(0x1006, 1), None);
    assert_eq!(memory.read(u64::MAX, 2), None);
}
