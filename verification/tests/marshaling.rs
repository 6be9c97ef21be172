//! The encoder, the planner and the decoder on concrete values.
use cairo_native::arch::Arch;
use cairo_native::decode::{deserialize, parse_result, ParsedResult};
use cairo_native::error::{DecodeError, EncodeError};
use cairo_native::executor::{
    AotNativeExecutor, CompiledFunction, JitNativeExecutor, NativeExecutor,
};
use cairo_native::felt::Felt252;
use cairo_native::image::serialize;
use cairo_native::invoke::{
    finish_invocation, plan_return_slot, prepare_invocation, ExecutionResult, FunctionSignature,
};
use cairo_native::layout::Layout;
use cairo_native::mapper::ArgumentMapper;
use cairo_native::memory::{Arena, Memory, Region};
use cairo_native::scalar::{int_from_image, int_image, IntKind};
use cairo_native::types::{TypeId, TypeInfo, TypeKind, TypeRegistry};
use cairo_native::values::JitValue;

const BASE: u64 = 0x0001_0000;

struct Types {
    registry: TypeRegistry,
    unit: TypeId,
    range_check: TypeId,
    gas: TypeId,
    system: TypeId,
    u8_ty: TypeId,
    u16_ty: TypeId,
    u32_ty: TypeId,
    u64_ty: TypeId,
    u128_ty: TypeId,
    i8_ty: TypeId,
    i16_ty: TypeId,
    i32_ty: TypeId,
    i64_ty: TypeId,
    i128_ty: TypeId,
    felt: TypeId,
    bytes: TypeId,
    choice: TypeId,
    record: TypeId,
    boxed_choice: TypeId,
    single: TypeId,
    non_zero: TypeId,
    snapshot: TypeId,
    boxed: TypeId,
    nullable: TypeId,
    dict: TypeId,
    bytes31: TypeId,
    pair: TypeId,
    nested: TypeId,
}

fn declare(
    registry: &mut TypeRegistry,
    kind: TypeKind,
    size: u64,
    align: u64,
    complex: bool,
    memory_allocated: bool,
) -> TypeId {
    let builtin_without_size = size == 0 && kind.is_builtin();
    registry
        .declare(TypeInfo {
            kind,
            layout: Layout { size, align },
            zero_sized: size == 0 || builtin_without_size,
            complex,
            memory_allocated,
        })
        .unwrap()
}

fn types(arch: Arch) -> Types {
    let wide = arch.max_align();
    let mut registry = TypeRegistry::new(arch);
    let r = &mut registry;
    let unit = declare(r, TypeKind::Struct(vec![]), 0, 1, false, false);
    let range_check = declare(r, TypeKind::RangeCheck, 0, 1, false, false);
    let gas = declare(r, TypeKind::GasBuiltin, 16, wide, false, false);
    let system = declare(r, TypeKind::System, 8, 8, false, false);
    let u8_ty = declare(r, TypeKind::Uint8, 1, 1, false, false);
    let u16_ty = declare(r, TypeKind::Uint16, 2, 2, false, false);
    let u32_ty = declare(r, TypeKind::Uint32, 4, 4, false, false);
    let u64_ty = declare(r, TypeKind::Uint64, 8, 8, false, false);
    let u128_ty = declare(r, TypeKind::Uint128, 16, wide, false, false);
    let i8_ty = declare(r, TypeKind::Sint8, 1, 1, false, false);
    let i16_ty = declare(r, TypeKind::Sint16, 2, 2, false, false);
    let i32_ty = declare(r, TypeKind::Sint32, 4, 4, false, false);
    let i64_ty = declare(r, TypeKind::Sint64, 8, 8, false, false);
    let i128_ty = declare(r, TypeKind::Sint128, 16, wide, false, false);
    let felt = declare(r, TypeKind::Felt252, 32, wide, arch == Arch::X86_64, false);
    let bytes = declare(r, TypeKind::Array(u8_ty), 16, 8, true, false);
    // An enum over a 32-bit number and an array of bytes, passed in registers.
    let choice = declare(r, TypeKind::Enum(vec![u32_ty, bytes]), 24, 8, true, false);
    // A struct of a byte, a field element and that enum.
    let record_size = if arch == Arch::X86_64 { 64 } else { 80 };
    let record = declare(r, TypeKind::Struct(vec![u8_ty, felt, choice]), record_size, wide, true, false);
    let boxed_choice = declare(r, TypeKind::Enum(vec![u32_ty, bytes]), 24, 8, true, true);
    let single = declare(r, TypeKind::Enum(vec![u16_ty]), 2, 2, false, false);
    let non_zero = declare(r, TypeKind::NonZero(u64_ty), 8, 8, false, false);
    let snapshot = declare(r, TypeKind::Snapshot(bytes), 16, 8, true, false);
    let boxed = declare(r, TypeKind::Box(u32_ty), 8, 8, false, false);
    let nullable = declare(r, TypeKind::Nullable(u32_ty), 8, 8, false, false);
    let dict = declare(r, TypeKind::Felt252Dict(felt), 8, 8, false, false);
    let bytes31 = declare(r, TypeKind::Bytes31, 32, 8, false, false);
    let pair = declare(r, TypeKind::Struct(vec![u8_ty, u64_ty]), 16, 8, true, false);
    let nested = declare(r, TypeKind::Array(bytes), 16, 8, true, false);
    Types {
        registry,
        unit,
        range_check,
        gas,
        system,
        u8_ty,
        u16_ty,
        u32_ty,
        u64_ty,
        u128_ty,
        i8_ty,
        i16_ty,
        i32_ty,
        i64_ty,
        i128_ty,
        felt,
        bytes,
        choice,
        record,
        boxed_choice,
        single,
        non_zero,
        snapshot,
        boxed,
        nullable,
        dict,
        bytes31,
        pair,
        nested,
    }
}

fn mapper(types: &Types) -> ArgumentMapper<'_> {
    ArgumentMapper::new(Arena::new(BASE, 0x1000).unwrap(), &types.registry)
}

fn pushed(types: &Types, id: TypeId, value: JitValue) -> Vec<u64> {
    let mut mapper = mapper(types);
    mapper.push(id, &value).unwrap();
    mapper.invoke_data().to_vec()
}

fn push_error(types: &Types, id: TypeId, value: JitValue) -> EncodeError {
    let mut mapper = mapper(types);
    mapper.push(id, &value).unwrap_err()
}

fn felt(digits: [u64; 4]) -> Felt252 {
    Felt252::from_le_digits(digits)
}

fn array(bytes: &[u8]) -> JitValue {
    JitValue::Array(bytes.iter().map(|byte| JitValue::Uint8(*byte)).collect())
}

fn jit_struct(fields: Vec<JitValue>) -> JitValue {
    JitValue::Struct { fields }
}

fn jit_enum(tag: usize, value: JitValue) -> JitValue {
    JitValue::Enum { tag, value: Box::new(value) }
}

fn memory_of(regions: Vec<(u64, Vec<u8>)>) -> Memory {
    let mut memory = Memory::new();
    for (base, bytes) in regions {
        memory.map(Region { base, bytes });
    }
    memory
}

fn registers(arch: Arch, leading: &[u64]) -> Vec<u64> {
    let mut registers = leading.to_vec();
    registers.resize(arch.return_registers(), 0);
    registers
}

#[test]
fn push_aligned_appends_on_the_x86_family() {
    let types = types(Arch::X86_64);
    let mut mapper = mapper(&types);
    for len in 0..12u64 {
        assert_eq!(mapper.invoke_data().len() as u64, 2 * len);
        mapper.push_aligned(8, &[len, len]);
    }
    mapper.push_aligned(1, &[7]);
    mapper.push_aligned(4, &[8, 9, 10, 11, 12]);
    assert_eq!(mapper.invoke_data().len(), 30);
    assert_eq!(&mapper.invoke_data()[22..], &[11, 11, 7, 8, 9, 10, 11, 12]);
}

/// The word stream after `values` have been pushed with an alignment of 16 bytes
/// behind `len` words on the ARM-family target.
fn aligned_behind(len: u64, values: &[u64]) -> Vec<u64> {
    let types = types(Arch::Aarch64);
    let mut mapper = mapper(&types);
    for index in 0..len {
        mapper.push_aligned(8, &[100 + index]);
    }
    mapper.push_aligned(16, values);
    mapper.invoke_data()[len as usize..].to_vec()
}

#[test]
fn push_aligned_pads_behind_the_registers() {
    // In the registers nothing is padded.
    assert_eq!(aligned_behind(0, &[1, 2]), vec![1, 2]);
    assert_eq!(aligned_behind(1, &[1, 2]), vec![1, 2]);
    assert_eq!(aligned_behind(5, &[1, 2]), vec![1, 2]);
    // Two words fill the last two registers.
    assert_eq!(aligned_behind(6, &[1, 2]), vec![1, 2]);
    // Four words fill the last four registers.
    assert_eq!(aligned_behind(4, &[1, 2, 3, 4]), vec![1, 2, 3, 4]);
    // One register is left: it is padded, and the value starts the stack.
    assert_eq!(aligned_behind(7, &[1, 2]), vec![0, 1, 2]);
    assert_eq!(aligned_behind(7, &[1, 2, 3, 4]), vec![0, 1, 2, 3, 4]);
    // On the stack, values start at even words.
    assert_eq!(aligned_behind(8, &[1, 2]), vec![1, 2]);
    assert_eq!(aligned_behind(9, &[1, 2]), vec![0, 1, 2]);
    assert_eq!(aligned_behind(10, &[1, 2, 3, 4]), vec![1, 2, 3, 4]);
    assert_eq!(aligned_behind(11, &[1, 2, 3, 4]), vec![0, 1, 2, 3, 4]);
}

#[test]
fn push_aligned_splits_across_the_boundary() {
    assert_eq!(aligned_behind(5, &[1, 2, 3, 4]), vec![1, 2, 3, 4, 0]);
    assert_eq!(aligned_behind(6, &[1, 2, 3, 4]), vec![1, 2, 3, 4, 0]);
    assert_eq!(aligned_behind(6, &[1, 2, 3, 4, 5, 6]), vec![1, 2, 3, 4, 0, 5, 6]);
    // Other alignments never pad.
    let types = types(Arch::Aarch64);
    let mut mapper = mapper(&types);
    for index in 0..7 {
        mapper.push_aligned(8, &[index]);
    }
    mapper.push_aligned(8, &[7, 8, 9]);
    assert_eq!(mapper.invoke_data(), &[0, 1, 2, 3, 4, 5, 6, 7, 8, 9]);
}

#[test]
fn integers_are_pushed_sign_extended() {
    for arch in [Arch::X86_64, Arch::Aarch64] {
        let types = types(arch);
        assert_eq!(pushed(&types, types.u8_ty, JitValue::Uint8(0xfe)), vec![0xfe]);
        assert_eq!(pushed(&types, types.u16_ty, JitValue::Uint16(0xfffe)), vec![0xfffe]);
        assert_eq!(pushed(&types, types.u32_ty, JitValue::Uint32(u32::MAX)), vec![0xffff_ffff]);
        assert_eq!(pushed(&types, types.u64_ty, JitValue::Uint64(u64::MAX)), vec![u64::MAX]);
        assert_eq!(
            pushed(&types, types.u128_ty, JitValue::Uint128((5 << 64) | 7)),
            vec![7, 5]
        );
        assert_eq!(pushed(&types, types.i8_ty, JitValue::Sint8(-2)), vec![u64::MAX - 1]);
        assert_eq!(pushed(&types, types.i8_ty, JitValue::Sint8(i8::MIN)), vec![0xffff_ffff_ffff_ff80]);
        assert_eq!(pushed(&types, types.i16_ty, JitValue::Sint16(-1)), vec![u64::MAX]);
        assert_eq!(pushed(&types, types.i32_ty, JitValue::Sint32(2147483647)), vec![0x7fff_ffff]);
        assert_eq!(
            pushed(&types, types.i32_ty, JitValue::Sint32(i32::MIN)),
            vec![0xffff_ffff_8000_0000]
        );
        assert_eq!(pushed(&types, types.i64_ty, JitValue::Sint64(-1)), vec![u64::MAX]);
        assert_eq!(pushed(&types, types.i64_ty, JitValue::Sint64(i64::MIN)), vec![1 << 63]);
        assert_eq!(pushed(&types, types.i128_ty, JitValue::Sint128(-1)), vec![u64::MAX, u64::MAX]);
        assert_eq!(pushed(&types, types.i128_ty, JitValue::Sint128(-2)), vec![u64::MAX - 1, u64::MAX]);
        assert_eq!(pushed(&types, types.i128_ty, JitValue::Sint128(i128::MIN)), vec![0, 1 << 63]);
        assert_eq!(
            pushed(&types, types.i128_ty, JitValue::Sint128(i128::MAX)),
            vec![u64::MAX, u64::MAX >> 1]
        );
        assert_eq!(pushed(&types, types.i128_ty, JitValue::Sint128(1 << 64)), vec![0, 1]);
    }
}

#[test]
fn two_i32_arguments_take_one_word_each() {
    let types = types(Arch::X86_64);
    let mut mapper = mapper(&types);
    mapper.push(types.i32_ty, &JitValue::Sint32(2147483647)).unwrap();
    mapper.push(types.i32_ty, &JitValue::Sint32(1)).unwrap();
    assert_eq!(mapper.invoke_data(), &[2147483647, 1]);
}

#[test]
fn wide_integers_are_aligned_on_the_arm_family() {
    let types = types(Arch::Aarch64);
    let mut mapper = mapper(&types);
    for _ in 0..9 {
        mapper.push(types.u64_ty, &JitValue::Uint64(3)).unwrap();
    }
    mapper.push(types.u128_ty, &JitValue::Uint128(1)).unwrap();
    assert_eq!(&mapper.invoke_data()[9..], &[0, 1, 0]);
    mapper.push(types.u8_ty, &JitValue::Uint8(4)).unwrap();
    mapper.push(types.felt, &JitValue::Felt252(felt([5, 6, 7, 8]))).unwrap();
    assert_eq!(&mapper.invoke_data()[12..], &[4, 0, 5, 6, 7, 8]);

    let types = crate::types(Arch::X86_64);
    let mut mapper = crate::mapper(&types);
    for _ in 0..9 {
        mapper.push(types.u64_ty, &JitValue::Uint64(3)).unwrap();
    }
    mapper.push(types.u128_ty, &JitValue::Uint128(1)).unwrap();
    mapper.push(types.felt, &JitValue::Felt252(felt([5, 6, 7, 8]))).unwrap();
    assert_eq!(&mapper.invoke_data()[9..], &[1, 0, 5, 6, 7, 8]);
}

#[test]
fn field_elements_and_curve_values_are_pushed_digit_by_digit() {
    let types = types(Arch::X86_64);
    assert_eq!(
        pushed(&types, types.felt, JitValue::Felt252(felt([1, 2, 3, 4]))),
        vec![1, 2, 3, 4]
    );
    let mut registry = TypeRegistry::new(Arch::X86_64);
    let point = declare(&mut registry, TypeKind::EcPoint, 64, 8, true, false);
    let state = declare(&mut registry, TypeKind::EcState, 128, 8, true, false);
    let address = declare(&mut registry, TypeKind::ContractAddress, 32, 8, true, false);
    let mut mapper = ArgumentMapper::new(Arena::new(BASE, 64).unwrap(), &registry);
    mapper.push(point, &JitValue::EcPoint(felt([1, 2, 3, 4]), felt([5, 6, 7, 8]))).unwrap();
    mapper
        .push(
            state,
            &JitValue::EcState(
                felt([9, 0, 0, 0]),
                felt([10, 0, 0, 0]),
                felt([11, 0, 0, 0]),
                felt([12, 0, 0, 1]),
            ),
        )
        .unwrap();
    mapper.push(address, &JitValue::Felt252(felt([13, 0, 0, 0]))).unwrap();
    assert_eq!(
        mapper.invoke_data(),
        &[1, 2, 3, 4, 5, 6, 7, 8, 9, 0, 0, 0, 10, 0, 0, 0, 11, 0, 0, 0, 12, 0, 0, 1, 13, 0, 0, 0]
    );
    assert_eq!(mapper.arena.len(), 0);
}

#[test]
fn structs_are_pushed_field_by_field() {
    let types = types(Arch::X86_64);
    assert_eq!(
        pushed(
            &types,
            types.pair,
            jit_struct(vec![JitValue::Uint8(1), JitValue::Uint64(2)])
        ),
        vec![1, 2]
    );
    assert_eq!(pushed(&types, types.unit, jit_struct(vec![])), Vec::<u64>::new());
    // Members and fields are paired up as far as both go.
    assert_eq!(pushed(&types, types.pair, jit_struct(vec![JitValue::Uint8(1)])), vec![1]);
    assert_eq!(
        pushed(
            &types,
            types.pair,
            jit_struct(vec![JitValue::Uint8(1), JitValue::Uint64(2), JitValue::Uint64(3)])
        ),
        vec![1, 2]
    );
}

#[test]
fn enums_in_registers_are_pushed_as_tag_and_payload() {
    let types = types(Arch::X86_64);
    assert_eq!(pushed(&types, types.choice, jit_enum(0, JitValue::Uint32(9))), vec![0, 9]);
    assert_eq!(
        pushed(&types, types.choice, jit_enum(1, array(&[5, 6]))),
        vec![1, BASE, 2, 2]
    );
    // One variant needs no tag.
    assert_eq!(pushed(&types, types.single, jit_enum(0, JitValue::Uint16(9))), vec![9]);
}

#[test]
fn enums_in_memory_are_pushed_as_pointer() {
    let types = types(Arch::X86_64);
    let mut mapper = mapper(&types);
    mapper.push(types.boxed_choice, &jit_enum(0, JitValue::Uint32(0x0403_0201))).unwrap();
    assert_eq!(mapper.invoke_data(), &[BASE]);
    let mut image = vec![0u8; 24];
    image[4..8].copy_from_slice(&[1, 2, 3, 4]);
    assert_eq!(mapper.arena.bytes, image);

    mapper.push(types.boxed_choice, &jit_enum(1, array(&[5, 6, 7]))).unwrap();
    // The elements are stored first, then the enum behind them.
    assert_eq!(mapper.invoke_data(), &[BASE, BASE + 32]);
    assert_eq!(&mapper.arena.bytes[24..27], &[5, 6, 7]);
    let mut image = vec![0u8; 24];
    image[0] = 1;
    image[8..16].copy_from_slice(&(BASE + 24).to_le_bytes());
    image[16..20].copy_from_slice(&3u32.to_le_bytes());
    image[20..24].copy_from_slice(&3u32.to_le_bytes());
    assert_eq!(&mapper.arena.bytes[32..], &image[..]);
}

#[test]
fn arrays_are_pushed_as_pointer_length_and_capacity() {
    let types = types(Arch::X86_64);
    let mut mapper = mapper(&types);
    mapper.push(types.bytes, &array(&[1, 2, 3])).unwrap();
    assert_eq!(mapper.invoke_data(), &[BASE, 3, 3]);
    assert_eq!(mapper.arena.bytes, vec![1, 2, 3]);

    // Elements are a stride apart, and nested arrays come first.
    let mut mapper = crate::mapper(&types);
    mapper
        .push(types.nested, &JitValue::Array(vec![array(&[9]), array(&[]), array(&[8, 7])]))
        .unwrap();
    assert_eq!(mapper.invoke_data(), &[BASE + 8, 3, 3]);
    let mut stored = vec![9, 8, 7, 0, 0, 0, 0, 0];
    for (pointer, len) in [(BASE, 1u32), (0, 0), (BASE + 1, 2)] {
        stored.extend_from_slice(&(pointer as u64).to_le_bytes());
        stored.extend_from_slice(&len.to_le_bytes());
        stored.extend_from_slice(&len.to_le_bytes());
    }
    assert_eq!(mapper.arena.bytes, stored);
}

#[test]
fn empty_array_is_null_pointer_and_zero_length() {
    for arch in [Arch::X86_64, Arch::Aarch64] {
        let types = types(arch);
        let mut mapper = mapper(&types);
        mapper.push(types.bytes, &array(&[])).unwrap();
        assert_eq!(mapper.invoke_data(), &[0, 0, 0]);
        assert_eq!(mapper.arena.len(), 0);

        // Decoding looks at the length alone: nothing is mapped at the pointer.
        let mut header = 0xdead_beef_u64.to_le_bytes().to_vec();
        header.extend_from_slice(&[0; 8]);
        let memory = memory_of(vec![(0x4000, header)]);
        assert_eq!(deserialize(&types.registry, &memory, types.bytes, 0x4000), Ok(array(&[])));
        let memory = memory_of(vec![(0x4000, vec![0; 16])]);
        assert_eq!(deserialize(&types.registry, &memory, types.bytes, 0x4000), Ok(array(&[])));
    }
}

#[test]
fn transparent_wrappers_pass_through() {
    let types = types(Arch::X86_64);
    assert_eq!(pushed(&types, types.non_zero, JitValue::Uint64(5)), vec![5]);
    assert_eq!(pushed(&types, types.snapshot, array(&[1])), vec![BASE, 1, 1]);
    assert_eq!(
        push_error(&types, types.non_zero, JitValue::Uint32(5)),
        EncodeError::TypeMismatch
    );
}

#[test]
fn zero_sized_builtins_are_elided() {
    let mut registry = TypeRegistry::new(Arch::X86_64);
    let kinds = [
        TypeKind::Bitwise,
        TypeKind::BuiltinCosts,
        TypeKind::EcOp,
        TypeKind::Pedersen,
        TypeKind::Poseidon,
        TypeKind::RangeCheck,
        TypeKind::SegmentArena,
    ];
    let ids: Vec<TypeId> =
        kinds.into_iter().map(|kind| declare(&mut registry, kind, 0, 1, false, false)).collect();
    let number = declare(&mut registry, TypeKind::Uint8, 1, 1, false, false);
    let mut mapper = ArgumentMapper::new(Arena::new(BASE, 64).unwrap(), &registry);
    mapper.push(number, &JitValue::Uint8(1)).unwrap();
    for id in &ids {
        mapper.push(*id, &JitValue::Null).unwrap();
        mapper.push(*id, &JitValue::Uint64(7)).unwrap();
        assert_eq!(mapper.invoke_data(), &[1]);
        assert_eq!(mapper.arena.len(), 0);
    }

    // As parameters they take no argument, as return types they take no part.
    let mut param_types = ids.clone();
    param_types.push(number);
    let mut ret_types = ids.clone();
    ret_types.push(number);
    let signature = FunctionSignature { param_types, ret_types };
    let call = prepare_invocation(
        &registry,
        Arena::new(BASE, 64).unwrap(),
        &signature,
        &vec![JitValue::Uint8(9)],
        None,
        None,
        false,
    )
    .unwrap();
    assert_eq!(call.invoke_data, vec![9]);
    assert_eq!(call.return_ptr, None);
    let finished =
        finish_invocation(&registry, &Memory::new(), &signature, None, &[0x109, 0]).unwrap();
    assert_eq!(
        finished.result,
        ExecutionResult { remaining_gas: None, return_value: JitValue::Uint8(9) }
    );
    assert_eq!(finished.release, None);

    // The signature without the tokens is called and answered alike.
    let plain = FunctionSignature { param_types: vec![number], ret_types: vec![number] };
    let plain_call = prepare_invocation(
        &registry,
        Arena::new(BASE, 64).unwrap(),
        &plain,
        &vec![JitValue::Uint8(9)],
        None,
        None,
        false,
    )
    .unwrap();
    assert_eq!(plain_call.invoke_data, call.invoke_data);
    assert_eq!(plain_call.return_ptr, call.return_ptr);
    assert_eq!(plain_call.arena.bytes, call.arena.bytes);
    assert_eq!(
        finish_invocation(&registry, &Memory::new(), &plain, None, &[0x109, 0]),
        Ok(finished)
    );
}

#[test]
fn dictionaries_need_runtime_support() {
    let types = types(Arch::X86_64);
    let handle = JitValue::Felt252Dict { handle: 0x7000 };
    assert_eq!(push_error(&types, types.dict, JitValue::Felt252Dict { handle: 0x7000 }), EncodeError::UnsupportedType);
    let mut mapper = mapper(&types);
    mapper.runtime_support = true;
    mapper.push(types.dict, &handle).unwrap();
    assert_eq!(mapper.invoke_data(), &[0x7000]);
    assert_eq!(push_error(&types, types.dict, JitValue::Uint8(1)), EncodeError::TypeMismatch);
}

#[test]
fn encode_errors() {
    let types = types(Arch::X86_64);
    // The value is of another kind than the type.
    assert_eq!(push_error(&types, types.u8_ty, JitValue::Uint16(1)), EncodeError::TypeMismatch);
    assert_eq!(push_error(&types, types.i32_ty, JitValue::Uint32(1)), EncodeError::TypeMismatch);
    assert_eq!(push_error(&types, types.felt, JitValue::Uint8(1)), EncodeError::TypeMismatch);
    assert_eq!(push_error(&types, types.bytes, JitValue::Uint8(1)), EncodeError::TypeMismatch);
    assert_eq!(push_error(&types, types.bytes, array(&[1]).into_enum()), EncodeError::TypeMismatch);
    assert_eq!(push_error(&types, types.pair, JitValue::Null), EncodeError::TypeMismatch);
    assert_eq!(push_error(&types, types.choice, JitValue::Uint32(1)), EncodeError::TypeMismatch);
    assert_eq!(
        push_error(&types, types.bytes, JitValue::Array(vec![JitValue::Uint16(1)])),
        EncodeError::TypeMismatch
    );
    // The tag names no variant.
    assert_eq!(
        push_error(&types, types.choice, jit_enum(2, JitValue::Uint32(1))),
        EncodeError::TypeMismatch
    );
    assert_eq!(
        push_error(&types, types.boxed_choice, jit_enum(2, JitValue::Uint32(1))),
        EncodeError::TypeMismatch
    );
    // Types that are no arguments.
    assert_eq!(push_error(&types, types.boxed, JitValue::Uint32(1)), EncodeError::UnsupportedType);
    assert_eq!(push_error(&types, types.nullable, JitValue::Null), EncodeError::UnsupportedType);
    assert_eq!(push_error(&types, types.bytes31, JitValue::Null), EncodeError::UnsupportedType);
    assert_eq!(push_error(&types, types.gas, JitValue::Uint128(1)), EncodeError::UnsupportedType);
    assert_eq!(push_error(&types, types.system, JitValue::Uint64(1)), EncodeError::UnsupportedType);
    // A type that has not been declared.
    assert_eq!(push_error(&types, 1000, JitValue::Uint8(1)), EncodeError::UnknownType);
    // A type that never crosses the boundary, in either direction.
    let mut registry = TypeRegistry::new(Arch::X86_64);
    let other = declare(&mut registry, TypeKind::Other, 8, 8, false, false);
    let mut mapper = ArgumentMapper::new(Arena::new(BASE, 64).unwrap(), &registry);
    assert_eq!(mapper.push(other, &JitValue::Uint64(1)), Err(EncodeError::UnsupportedType));
    assert_eq!(
        parse_result(other, &registry, &Memory::new(), None, &[0, 0]),
        Err(DecodeError::UnsupportedType)
    );

    // Scratch memory that does not hold the elements.
    let mut mapper = ArgumentMapper::new(Arena::new(BASE, 2).unwrap(), &types.registry);
    assert_eq!(mapper.push(types.bytes, &array(&[1, 2, 3])), Err(EncodeError::ScratchExhausted));
    assert_eq!(mapper.push(types.bytes, &array(&[1, 2])), Ok(()));
    assert_eq!(
        mapper.push(types.boxed_choice, &jit_enum(0, JitValue::Uint32(1))),
        Err(EncodeError::ScratchExhausted)
    );
}

#[test]
fn a_failed_push_leaves_what_was_pushed() {
    let types = types(Arch::X86_64);
    let mut mapper = mapper(&types);
    mapper.push(types.u64_ty, &JitValue::Uint64(3)).unwrap();
    mapper.push(types.bytes, &array(&[1, 2])).unwrap();
    let words = mapper.invoke_data().to_vec();
    let stored = mapper.arena.bytes.clone();
    assert_eq!(words, vec![3, BASE, 2, 2]);

    // A failure that is met at once changes nothing.
    let failing = [
        (types.u8_ty, JitValue::Uint16(1), EncodeError::TypeMismatch),
        (types.felt, JitValue::Uint8(1), EncodeError::TypeMismatch),
        (types.bytes, JitValue::Null, EncodeError::TypeMismatch),
        (types.pair, JitValue::Uint8(1), EncodeError::TypeMismatch),
        (types.choice, jit_enum(2, JitValue::Uint32(1)), EncodeError::TypeMismatch),
        (types.boxed_choice, jit_enum(2, JitValue::Uint32(1)), EncodeError::TypeMismatch),
        (types.non_zero, JitValue::Uint8(1), EncodeError::TypeMismatch),
        (types.dict, JitValue::Felt252Dict { handle: 1 }, EncodeError::UnsupportedType),
        (types.boxed, JitValue::Uint32(1), EncodeError::UnsupportedType),
        (types.nullable, JitValue::Null, EncodeError::UnsupportedType),
        (types.bytes31, JitValue::Null, EncodeError::UnsupportedType),
        (1000, JitValue::Null, EncodeError::UnknownType),
    ];
    for (id, value, error) in failing {
        assert_eq!(mapper.push(id, &value), Err(error));
        assert_eq!(mapper.invoke_data(), &words[..]);
        assert_eq!(mapper.arena.bytes, stored);
    }

    // A failure that is met on the way leaves what was pushed before it.
    assert_eq!(
        mapper.push(types.pair, &jit_struct(vec![JitValue::Uint8(9), JitValue::Uint8(9)])),
        Err(EncodeError::TypeMismatch)
    );
    assert_eq!(mapper.invoke_data(), &[3, BASE, 2, 2, 9]);
    assert_eq!(mapper.arena.bytes, stored);
    assert_eq!(
        mapper.push(types.choice, &jit_enum(1, JitValue::Uint8(9))),
        Err(EncodeError::TypeMismatch)
    );
    assert_eq!(mapper.invoke_data(), &[3, BASE, 2, 2, 9, 1]);
    // The elements that were made before the failure stay stored.
    assert_eq!(
        mapper.push(
            types.nested,
            &JitValue::Array(vec![array(&[7, 8]), JitValue::Array(vec![JitValue::Uint16(1)])])
        ),
        Err(EncodeError::TypeMismatch)
    );
    assert_eq!(mapper.invoke_data(), &[3, BASE, 2, 2, 9, 1]);
    assert_eq!(mapper.arena.bytes, vec![1, 2, 7, 8]);
}

trait IntoEnum {
    fn into_enum(self) -> JitValue;
}

impl IntoEnum for JitValue {
    fn into_enum(self) -> JitValue {
        jit_enum(0, self)
    }
}

fn boundary_values() -> Vec<(fn(&Types) -> TypeId, JitValue, Vec<u8>)> {
    fn case(
        id: fn(&Types) -> TypeId,
        value: JitValue,
        bytes: Vec<u8>,
    ) -> (fn(&Types) -> TypeId, JitValue, Vec<u8>) {
        (id, value, bytes)
    }
    let mut cases = Vec::new();
    for value in [0, 1, u8::MAX] {
        cases.push(case(|t| t.u8_ty, JitValue::Uint8(value), value.to_le_bytes().to_vec()));
    }
    for value in [0, 1, u16::MAX] {
        cases.push(case(|t| t.u16_ty, JitValue::Uint16(value), value.to_le_bytes().to_vec()));
    }
    for value in [0, 1, u32::MAX] {
        cases.push(case(|t| t.u32_ty, JitValue::Uint32(value), value.to_le_bytes().to_vec()));
    }
    for value in [0, 1, u64::MAX] {
        cases.push(case(|t| t.u64_ty, JitValue::Uint64(value), value.to_le_bytes().to_vec()));
    }
    for value in [0, 1, u64::MAX as u128 + 1, u128::MAX] {
        cases.push(case(|t| t.u128_ty, JitValue::Uint128(value), value.to_le_bytes().to_vec()));
    }
    for value in [0, -1, i8::MIN, i8::MAX] {
        cases.push(case(|t| t.i8_ty, JitValue::Sint8(value), value.to_le_bytes().to_vec()));
    }
    for value in [0, -1, i16::MIN, i16::MAX] {
        cases.push(case(|t| t.i16_ty, JitValue::Sint16(value), value.to_le_bytes().to_vec()));
    }
    for value in [0, -1, i32::MIN, i32::MAX] {
        cases.push(case(|t| t.i32_ty, JitValue::Sint32(value), value.to_le_bytes().to_vec()));
    }
    for value in [0, -1, i64::MIN, i64::MAX] {
        cases.push(case(|t| t.i64_ty, JitValue::Sint64(value), value.to_le_bytes().to_vec()));
    }
    for value in [0, -1, i128::MIN, i128::MAX, -(1 << 64), i64::MIN as i128] {
        cases.push(case(|t| t.i128_ty, JitValue::Sint128(value), value.to_le_bytes().to_vec()));
    }
    cases
}

fn same(value: &JitValue) -> JitValue {
    match value {
        JitValue::Uint8(value) => JitValue::Uint8(*value),
        JitValue::Uint16(value) => JitValue::Uint16(*value),
        JitValue::Uint32(value) => JitValue::Uint32(*value),
        JitValue::Uint64(value) => JitValue::Uint64(*value),
        JitValue::Uint128(value) => JitValue::Uint128(*value),
        JitValue::Sint8(value) => JitValue::Sint8(*value),
        JitValue::Sint16(value) => JitValue::Sint16(*value),
        JitValue::Sint32(value) => JitValue::Sint32(*value),
        JitValue::Sint64(value) => JitValue::Sint64(*value),
        JitValue::Sint128(value) => JitValue::Sint128(*value),
        JitValue::Felt252(value) => JitValue::Felt252(*value),
        _ => panic!("not a scalar"),
    }
}

#[test]
fn scalars_round_trip_through_registers() {
    for arch in [Arch::X86_64, Arch::Aarch64] {
        let types = types(arch);
        for (id, value, _) in boundary_values() {
            let id = id(&types);
            let signature = FunctionSignature { param_types: vec![id], ret_types: vec![id] };
            let call = prepare_invocation(
                &types.registry,
                Arena::new(BASE, 64).unwrap(),
                &signature,
                &vec![same(&value)],
                None,
                None,
                false,
            )
            .unwrap();
            assert_eq!(call.return_ptr, None);
            assert_eq!(call.arena.len(), 0);
            // The callee hands its argument registers back.
            let registers = registers(arch, &call.invoke_data);
            let finished =
                finish_invocation(&types.registry, &Memory::new(), &signature, None, &registers)
                    .unwrap();
            assert_eq!(finished.result.return_value, value);
            assert_eq!(finished.result.remaining_gas, None);
            assert_eq!(finished.release, None);
        }
    }
}

#[test]
fn scalars_round_trip_through_the_return_slot() {
    for arch in [Arch::X86_64, Arch::Aarch64] {
        let types = types(arch);
        for (id, value, bytes) in boundary_values() {
            let id = id(&types);
            // The fuel counter as a second return value forces the return slot.
            let signature =
                FunctionSignature { param_types: vec![types.gas, id], ret_types: vec![types.gas, id] };
            let call = prepare_invocation(
                &types.registry,
                Arena::new(BASE, 64).unwrap(),
                &signature,
                &vec![same(&value)],
                Some(1000),
                None,
                false,
            )
            .unwrap();
            assert_eq!(call.return_ptr, Some(BASE));
            assert_eq!(call.invoke_data[0], BASE);
            // The argument has the same memory form as the return value.
            let mut arena = Arena::new(0x8000, 64).unwrap();
            assert_eq!(serialize(&types.registry, &mut arena, id, &value), Ok(bytes.clone()));
            // The callee writes what is left of the fuel, then the value.
            let mut slot = 999u128.to_le_bytes().to_vec();
            slot.extend_from_slice(&bytes);
            let memory = memory_of(vec![(BASE, slot)]);
            let finished = finish_invocation(
                &types.registry,
                &memory,
                &signature,
                call.return_ptr,
                &registers(arch, &[0xaaaa, 0xbbbb]),
            )
            .unwrap();
            assert_eq!(finished.result.return_value, value);
            assert_eq!(finished.result.remaining_gas, Some(999));
        }
    }
}

#[test]
fn field_elements_round_trip() {
    let value = || felt([u64::MAX, 1, 2, 0x0123_4567_89ab_cdef]);
    // In registers on the ARM-family target.
    let types = types(Arch::Aarch64);
    let signature = FunctionSignature { param_types: vec![types.felt], ret_types: vec![types.felt] };
    let call = prepare_invocation(
        &types.registry,
        Arena::new(BASE, 64).unwrap(),
        &signature,
        &vec![JitValue::Felt252(value())],
        None,
        None,
        false,
    )
    .unwrap();
    assert_eq!(call.return_ptr, None);
    assert_eq!(call.invoke_data, vec![u64::MAX, 1, 2, 0x0123_4567_89ab_cdef]);
    let finished =
        finish_invocation(&types.registry, &Memory::new(), &signature, None, &call.invoke_data)
            .unwrap();
    assert_eq!(finished.result.return_value, JitValue::Felt252(value()));
    // What the registers hold is reduced modulo the prime.
    let finished = finish_invocation(
        &types.registry,
        &Memory::new(),
        &signature,
        None,
        &[6, 0, 0, 0x0800_0000_0000_0011],
    )
    .unwrap();
    assert_eq!(finished.result.return_value, JitValue::Felt252(felt([5, 0, 0, 0])));

    // Through the return slot on the x86-family target.
    let types = crate::types(Arch::X86_64);
    let signature = FunctionSignature { param_types: vec![types.felt], ret_types: vec![types.felt] };
    let call = prepare_invocation(
        &types.registry,
        Arena::new(BASE, 64).unwrap(),
        &signature,
        &vec![JitValue::Felt252(value())],
        None,
        None,
        false,
    )
    .unwrap();
    assert_eq!(call.return_ptr, Some(BASE));
    assert_eq!(call.invoke_data, vec![BASE, u64::MAX, 1, 2, 0x0123_4567_89ab_cdef]);
    assert_eq!(call.arena.bytes, vec![0; 32]);
    let memory = memory_of(vec![(BASE, value().to_bytes_le())]);
    let finished =
        finish_invocation(&types.registry, &memory, &signature, call.return_ptr, &[0, 0]).unwrap();
    assert_eq!(finished.result.return_value, JitValue::Felt252(value()));
    assert_eq!(
        finish_invocation(&types.registry, &memory, &signature, None, &[0, 0]),
        Err(DecodeError::MissingReturnSlot)
    );
    // What memory holds is reduced modulo the prime as well.
    let mut bytes = vec![0u8; 32];
    bytes[0] = 6;
    bytes[24..].copy_from_slice(&0x0800_0000_0000_0011u64.to_le_bytes());
    let memory = memory_of(vec![(BASE, bytes)]);
    assert_eq!(
        deserialize(&types.registry, &memory, types.felt, BASE),
        Ok(JitValue::Felt252(felt([5, 0, 0, 0])))
    );
}

fn record(choice: JitValue) -> JitValue {
    jit_struct(vec![
        JitValue::Uint8(0xa5),
        JitValue::Felt252(felt([1, 2, 3, 4])),
        choice,
    ])
}

#[test]
fn nested_struct_round_trips_through_memory() {
    for arch in [Arch::X86_64, Arch::Aarch64] {
        let types = types(arch);
        for choice in [
            || jit_enum(0, JitValue::Uint32(0xdead_beef)),
            || jit_enum(1, array(&[1, 2, 3])),
            || jit_enum(1, array(&[])),
        ] {
            let mut arena = Arena::new(BASE, 0x1000).unwrap();
            let image = serialize(&types.registry, &mut arena, types.record, &record(choice())).unwrap();
            let layout = types.registry.get(types.record).unwrap().layout;
            assert_eq!(image.len() as u64, layout.size);
            let address = arena.store(layout.align, &image).unwrap();
            let memory = memory_of(vec![(arena.base, arena.bytes)]);
            assert_eq!(
                deserialize(&types.registry, &memory, types.record, address),
                Ok(record(choice()))
            );
        }
    }
}

#[test]
fn nested_struct_has_the_layout_of_its_members() {
    let types = types(Arch::X86_64);
    let mut arena = Arena::new(BASE, 0x1000).unwrap();
    let image =
        serialize(&types.registry, &mut arena, types.record, &record(jit_enum(1, array(&[7, 8]))))
            .unwrap();
    let mut expected = vec![0u8; 64];
    expected[0] = 0xa5;
    for (index, digit) in [1u64, 2, 3, 4].iter().enumerate() {
        expected[8 + 8 * index..16 + 8 * index].copy_from_slice(&digit.to_le_bytes());
    }
    expected[40] = 1;
    expected[48..56].copy_from_slice(&BASE.to_le_bytes());
    expected[56..60].copy_from_slice(&2u32.to_le_bytes());
    expected[60..64].copy_from_slice(&2u32.to_le_bytes());
    assert_eq!(image, expected);
    assert_eq!(arena.bytes, vec![7, 8]);

    // The same struct as an argument goes field by field.
    let words = pushed(&types, types.record, record(jit_enum(0, JitValue::Uint32(6))));
    assert_eq!(words, vec![0xa5, 1, 2, 3, 4, 0, 6]);
}

#[test]
fn integer_images() {
    assert_eq!(int_image(IntKind::U8, 0x1ff, 7), vec![0xff]);
    assert_eq!(int_image(IntKind::I16, 0xffff_ffff_ffff_fffe, u64::MAX), vec![0xfe, 0xff]);
    assert_eq!(int_image(IntKind::U32, 0x0403_0201, 0), vec![1, 2, 3, 4]);
    assert_eq!(int_image(IntKind::I64, 1 << 63, u64::MAX), (1u64 << 63).to_le_bytes().to_vec());
    assert_eq!(int_image(IntKind::U128, 1, 2), ((2u128 << 64) | 1).to_le_bytes().to_vec());
    assert_eq!(int_from_image(IntKind::I8, &[0x80]), JitValue::Sint8(i8::MIN));
    assert_eq!(int_from_image(IntKind::U16, &[0xfe, 0xff]), JitValue::Uint16(0xfffe));
    assert_eq!(int_from_image(IntKind::I32, &[0xff; 4]), JitValue::Sint32(-1));
    assert_eq!(int_from_image(IntKind::I128, &[0xff; 16]), JitValue::Sint128(-1));
    assert_eq!(JitValue::from_int_words(IntKind::U8, 0x1234, 9), JitValue::Uint8(0x34));
    assert_eq!(JitValue::from_int_words(IntKind::I8, 0x12ff, 9), JitValue::Sint8(-1));
    assert_eq!(JitValue::from_int_words(IntKind::I64, u64::MAX, 9), JitValue::Sint64(-1));
    assert_eq!(JitValue::from_int_words(IntKind::I128, 0, 1 << 63), JitValue::Sint128(i128::MIN));
    assert_eq!(JitValue::Sint16(-2).int_words(), Some((IntKind::I16, u64::MAX - 1, u64::MAX)));
    assert_eq!(JitValue::Uint64(5).int_words(), Some((IntKind::U64, 5, 0)));
    assert_eq!(JitValue::Null.int_words(), None);
    assert_eq!(IntKind::I128.bits(), 128);
    assert_eq!(TypeKind::Sint8.int_kind(), Some(IntKind::I8));
    assert_eq!(TypeKind::Felt252.int_kind(), None);
}

#[test]
fn return_slot_plan() {
    let types = types(Arch::X86_64);
    let plan = |ret_types: Vec<TypeId>| plan_return_slot(&types.registry, &ret_types);
    // Nothing is left after the builtins without size: no slot.
    assert_eq!(plan(vec![]), Ok(None));
    assert_eq!(plan(vec![types.range_check]), Ok(None));
    // One value that is not complex: registers.
    assert_eq!(plan(vec![types.u64_ty]), Ok(None));
    assert_eq!(plan(vec![types.range_check, types.u128_ty]), Ok(None));
    assert_eq!(plan(vec![types.gas]), Ok(None));
    // One complex value.
    assert_eq!(plan(vec![types.bytes]), Ok(Some(Layout { size: 16, align: 8 })));
    assert_eq!(plan(vec![types.range_check, types.felt]), Ok(Some(Layout { size: 32, align: 8 })));
    // More than one value: each at the offset that its alignment gives.
    assert_eq!(plan(vec![types.u8_ty, types.u64_ty]), Ok(Some(Layout { size: 16, align: 8 })));
    assert_eq!(
        plan(vec![types.range_check, types.gas, types.system, types.u8_ty]),
        Ok(Some(Layout { size: 25, align: 8 }))
    );
    // A type without a runtime representation is no return value, builtin or
    // not.
    assert_eq!(plan(vec![types.unit, types.u8_ty]), Ok(None));
    assert_eq!(plan(vec![types.gas, types.unit]), Ok(None));
    assert_eq!(plan(vec![types.unit]), Ok(None));
    assert_eq!(plan(vec![types.unit, types.bytes, types.unit]), Ok(Some(Layout { size: 16, align: 8 })));
    assert_eq!(
        plan(vec![types.u8_ty, types.unit, types.u64_ty]),
        Ok(Some(Layout { size: 16, align: 8 }))
    );
    assert_eq!(plan(vec![types.u8_ty, 1000]), Err(EncodeError::UnknownType));

    let types = crate::types(Arch::Aarch64);
    assert_eq!(plan_return_slot(&types.registry, &vec![types.felt]), Ok(None));
    assert_eq!(
        plan_return_slot(&types.registry, &vec![types.gas, types.system, types.u128_ty]),
        Ok(Some(Layout { size: 48, align: 16 }))
    );
}

#[test]
fn implicit_arguments_come_from_the_side_channel() {
    let types = types(Arch::X86_64);
    let signature = FunctionSignature {
        param_types: vec![types.range_check, types.gas, types.system, types.u8_ty, types.unit, types.u16_ty],
        ret_types: vec![types.range_check, types.gas, types.system, types.u8_ty],
    };
    let prepare = |args: Vec<JitValue>, gas: Option<u128>, handler: Option<u64>| {
        prepare_invocation(
            &types.registry,
            Arena::new(BASE, 64).unwrap(),
            &signature,
            &args,
            gas,
            handler,
            false,
        )
    };
    let args = || vec![JitValue::Uint8(1), JitValue::Uint16(2)];
    let call = prepare(args(), Some((3 << 64) | 4), Some(0x5000)).unwrap();
    assert_eq!(call.return_ptr, Some(BASE));
    assert_eq!(call.invoke_data, vec![BASE, 4, 3, 0x5000, 1, 2]);
    assert_eq!(call.arena.bytes, vec![0; 25]);

    assert_eq!(prepare(args(), None, Some(0x5000)).unwrap_err(), EncodeError::MissingImplicit);
    assert_eq!(prepare(args(), Some(1), None).unwrap_err(), EncodeError::MissingImplicit);
    assert_eq!(
        prepare(vec![JitValue::Uint8(1)], Some(1), Some(1)).unwrap_err(),
        EncodeError::MissingArgument
    );
    assert_eq!(
        prepare(vec![JitValue::Uint16(2), JitValue::Uint8(1)], Some(1), Some(1)).unwrap_err(),
        EncodeError::TypeMismatch
    );
    // The scratch memory does not hold the return slot.
    assert_eq!(
        prepare_invocation(
            &types.registry,
            Arena::new(BASE, 24).unwrap(),
            &signature,
            &args(),
            Some(1),
            Some(1),
            false,
        )
        .unwrap_err(),
        EncodeError::ScratchExhausted
    );
    let unknown = FunctionSignature { param_types: vec![1000], ret_types: vec![types.u8_ty] };
    assert_eq!(
        prepare_invocation(
            &types.registry,
            Arena::new(BASE, 24).unwrap(),
            &unknown,
            &args(),
            None,
            None,
            false,
        )
        .unwrap_err(),
        EncodeError::UnknownType
    );
}

#[test]
fn fuel_is_read_before_the_value() {
    for arch in [Arch::X86_64, Arch::Aarch64] {
        let types = types(arch);
        // With a return slot: the fuel, the context, then the value.
        let signature = FunctionSignature {
            param_types: vec![],
            ret_types: vec![types.range_check, types.gas, types.system, types.u128_ty],
        };
        let mut slot = ((7u128 << 64) | 8).to_le_bytes().to_vec();
        slot.extend_from_slice(&0x5000u64.to_le_bytes());
        if arch == Arch::Aarch64 {
            slot.extend_from_slice(&[0; 8]);
        }
        slot.extend_from_slice(&0x0102_0304u128.to_le_bytes());
        let memory = memory_of(vec![(BASE, slot)]);
        let finished = finish_invocation(
            &types.registry,
            &memory,
            &signature,
            Some(BASE),
            &registers(arch, &[11, 12]),
        )
        .unwrap();
        assert_eq!(
            finished.result,
            ExecutionResult {
                remaining_gas: Some((7 << 64) | 8),
                return_value: JitValue::Uint128(0x0102_0304),
            }
        );

        // Without one the function returned its fuel alone, in two registers.
        let signature =
            FunctionSignature { param_types: vec![], ret_types: vec![types.range_check, types.gas] };
        assert_eq!(
            finish_invocation(&types.registry, &memory, &signature, None, &registers(arch, &[11, 12])),
            Err(DecodeError::UnsupportedType)
        );
        let signature = FunctionSignature {
            param_types: vec![types.gas],
            ret_types: vec![types.gas, types.unit],
        };
        // One value with a size is left, and it is not complex: no return slot,
        // and no hidden first argument.
        let call = prepare_invocation(
            &types.registry,
            Arena::new(BASE, 64).unwrap(),
            &signature,
            &vec![],
            Some((12 << 64) | 11),
            None,
            false,
        )
        .unwrap();
        assert_eq!(call.return_ptr, None);
        assert_eq!(call.invoke_data, vec![11, 12]);
        assert_eq!(call.arena.len(), 0);
        let finished = finish_invocation(
            &types.registry,
            &memory,
            &signature,
            None,
            &registers(arch, &[11, 12]),
        )
        .unwrap();
        assert_eq!(
            finished.result,
            ExecutionResult {
                remaining_gas: Some((12 << 64) | 11),
                return_value: jit_struct(vec![]),
            }
        );
    }
}

fn parsed(value: JitValue) -> Result<ParsedResult, DecodeError> {
    Ok(ParsedResult { value, release: None })
}

#[test]
fn pointers_are_followed_and_released() {
    let types = types(Arch::X86_64);
    let heap = 0x6000u64;
    let memory = memory_of(vec![
        (heap, 77u32.to_le_bytes().to_vec()),
        (BASE, heap.to_le_bytes().to_vec()),
        (BASE + 8, vec![0; 8]),
    ]);
    let parse = |id: TypeId, return_ptr: Option<u64>, register: u64| {
        parse_result(id, &types.registry, &memory, return_ptr, &[register, 0])
    };
    let released =
        || Ok(ParsedResult { value: JitValue::Uint32(77), release: Some(heap) });
    assert_eq!(parse(types.boxed, None, heap), released());
    assert_eq!(parse(types.boxed, Some(BASE), 0), released());
    assert_eq!(parse(types.nullable, None, heap), released());
    assert_eq!(parse(types.nullable, Some(BASE), 0), released());
    // A null pointer is the null value, and nothing is read or released.
    assert_eq!(parse(types.nullable, None, 0), parsed(JitValue::Null));
    assert_eq!(parse(types.nullable, Some(BASE + 8), heap), parsed(JitValue::Null));
    assert_eq!(parse(types.boxed, None, 0), Err(DecodeError::NullPointer));
    assert_eq!(parse(types.boxed, Some(BASE + 8), heap), Err(DecodeError::NullPointer));
    // A dictionary is its handle.
    assert_eq!(parse(types.dict, None, 0x7000), parsed(JitValue::Felt252Dict { handle: 0x7000 }));
    assert_eq!(parse(types.dict, Some(BASE), 0), parsed(JitValue::Felt252Dict { handle: heap }));
    assert_eq!(parse(types.dict, None, 0), Err(DecodeError::NullPointer));
    // In memory, pointers are followed as well.
    assert_eq!(deserialize(&types.registry, &memory, types.boxed, BASE), Ok(JitValue::Uint32(77)));
    assert_eq!(deserialize(&types.registry, &memory, types.nullable, BASE + 8), Ok(JitValue::Null));
    assert_eq!(
        deserialize(&types.registry, &memory, types.boxed, BASE + 8),
        Err(DecodeError::NullPointer)
    );
}

#[test]
fn values_in_registers_are_parsed() {
    let types = types(Arch::X86_64);
    let memory = Memory::new();
    let parse = |id: TypeId, low: u64, high: u64| {
        parse_result(id, &types.registry, &memory, None, &[low, high])
    };
    assert_eq!(parse(types.u8_ty, 0xffff_ff01, 5), parsed(JitValue::Uint8(1)));
    assert_eq!(parse(types.i16_ty, 0xffff_8000, 5), parsed(JitValue::Sint16(i16::MIN)));
    assert_eq!(parse(types.u128_ty, 1, 2), parsed(JitValue::Uint128((2 << 64) | 1)));
    assert_eq!(parse(types.i128_ty, u64::MAX, u64::MAX), parsed(JitValue::Sint128(-1)));
    assert_eq!(parse(types.non_zero, 9, 0), parsed(JitValue::Uint64(9)));
    assert_eq!(parse(types.unit, 9, 0), parsed(jit_struct(vec![])));
    // The tag is the low byte of the first register; one variant has none.
    let boolean = {
        let mut registry = TypeRegistry::new(Arch::X86_64);
        let unit = declare(&mut registry, TypeKind::Struct(vec![]), 0, 1, false, false);
        let boolean = declare(&mut registry, TypeKind::Enum(vec![unit, unit]), 1, 1, false, false);
        let only = declare(&mut registry, TypeKind::Enum(vec![unit]), 0, 1, false, false);
        let parse = |id: TypeId, low: u64| parse_result(id, &registry, &memory, None, &[low, 0]);
        assert_eq!(parse(boolean, 0xff00), parsed(jit_enum(0, jit_struct(vec![]))));
        assert_eq!(parse(boolean, 0xff01), parsed(jit_enum(1, jit_struct(vec![]))));
        assert_eq!(parse(boolean, 2), Err(DecodeError::InvalidTag));
        assert_eq!(parse(only, 0xffff), parsed(jit_enum(0, jit_struct(vec![]))));
        boolean
    };
    assert_eq!(boolean, 1);
}

#[test]
fn decode_errors() {
    let types = types(Arch::X86_64);
    let memory = memory_of(vec![(BASE, vec![2, 0, 0, 0, 0, 0, 0, 0])]);
    let parse = |id: TypeId, return_ptr: Option<u64>| {
        parse_result(id, &types.registry, &memory, return_ptr, &[0, 0])
    };
    // Types that are returned through the slot, without one.
    assert_eq!(parse(types.bytes, None), Err(DecodeError::MissingReturnSlot));
    assert_eq!(parse(types.pair, None), Err(DecodeError::MissingReturnSlot));
    assert_eq!(parse(types.felt, None), Err(DecodeError::MissingReturnSlot));
    assert_eq!(parse(types.boxed_choice, None), Err(DecodeError::MissingReturnSlot));
    // Memory that is not mapped.
    assert_eq!(
        parse(types.bytes, Some(BASE)),
        Err(DecodeError::Unmapped { address: BASE, len: 16 })
    );
    assert_eq!(
        parse(types.pair, Some(BASE)),
        Err(DecodeError::Unmapped { address: BASE + 8, len: 8 })
    );
    assert_eq!(
        parse(types.u64_ty, Some(0x9000)),
        Err(DecodeError::Unmapped { address: 0x9000, len: 8 })
    );
    // A tag without variant.
    assert_eq!(parse(types.boxed_choice, Some(BASE)), Err(DecodeError::InvalidTag));
    // Types that are no return values.
    assert_eq!(parse(types.bytes31, Some(BASE)), Err(DecodeError::UnsupportedType));
    assert_eq!(parse(types.range_check, None), Err(DecodeError::UnsupportedType));
    assert_eq!(parse(types.gas, None), Err(DecodeError::UnsupportedType));
    assert_eq!(parse(1000, None), Err(DecodeError::UnknownType));
    // Addresses that leave the address space.
    assert_eq!(parse(types.pair, Some(u64::MAX - 3)), Err(DecodeError::Unmapped {
        address: u64::MAX - 3,
        len: 1,
    }));
    let memory = memory_of(vec![(u64::MAX - 3, vec![0; 3])]);
    assert_eq!(
        deserialize(&types.registry, &memory, types.pair, u64::MAX - 3),
        Err(DecodeError::AddressOverflow)
    );
    let signature = FunctionSignature { param_types: vec![], ret_types: vec![] };
    assert_eq!(
        finish_invocation(&types.registry, &memory, &signature, None, &[0, 0]),
        Err(DecodeError::NoReturnType)
    );
    let signature = FunctionSignature { param_types: vec![], ret_types: vec![types.gas, types.u8_ty] };
    assert_eq!(
        finish_invocation(&types.registry, &memory, &signature, Some(u64::MAX - 20), &[0, 0]),
        Err(DecodeError::AddressOverflow)
    );
}

#[test]
fn arrays_are_decoded_element_by_element() {
    let types = types(Arch::X86_64);
    let heap = 0x6000u64;
    let mut header = heap.to_le_bytes().to_vec();
    header.extend_from_slice(&3u32.to_le_bytes());
    header.extend_from_slice(&8u32.to_le_bytes());
    let memory = memory_of(vec![(BASE, header), (heap, vec![4, 5, 6])]);
    assert_eq!(parse_result(types.bytes, &types.registry, &memory, Some(BASE), &[0, 0]), parsed(array(&[4, 5, 6])));
    assert_eq!(
        parse_result(types.snapshot, &types.registry, &memory, Some(BASE), &[0, 0]),
        parsed(array(&[4, 5, 6]))
    );
    let memory = memory_of(vec![(BASE, memory.regions[0].bytes.clone()), (heap, vec![4, 5])]);
    assert_eq!(
        deserialize(&types.registry, &memory, types.bytes, BASE),
        Err(DecodeError::Unmapped { address: heap + 2, len: 1 })
    );
}

#[test]
fn executors_find_their_functions() {
    let function = |id: u64, address: u64, types: &Types| CompiledFunction {
        id,
        address,
        signature: FunctionSignature {
            param_types: vec![types.u8_ty],
            ret_types: vec![types.u8_ty],
        },
    };
    let aot_types = types(Arch::X86_64);
    let functions = vec![
        function(3, 0x100, &aot_types),
        function(5, 0x200, &aot_types),
        function(3, 0x300, &aot_types),
    ];
    let executor = NativeExecutor::from(AotNativeExecutor { registry: aot_types.registry, functions });
    assert!(matches!(executor, NativeExecutor::Aot(_)));
    assert_eq!(executor.registry().arch, Arch::X86_64);
    assert_eq!(executor.functions().len(), 3);
    assert_eq!(executor.find_function(3).unwrap().address, 0x100);
    assert_eq!(executor.find_function(5).unwrap().address, 0x200);
    assert!(executor.find_function(4).is_none());

    let found = executor.find_function(5).unwrap();
    let call = executor
        .prepare(found, Arena::new(BASE, 64).unwrap(), &vec![JitValue::Uint8(200)], None, None)
        .unwrap();
    assert_eq!(call.invoke_data, vec![200]);
    let finished = executor.finish(found, &Memory::new(), call.return_ptr, &[200, 0]).unwrap();
    assert_eq!(finished.result.return_value, JitValue::Uint8(200));

    let jit_types = types(Arch::Aarch64);
    let executor = NativeExecutor::from(JitNativeExecutor {
        registry: jit_types.registry,
        functions: Vec::new(),
    });
    assert!(matches!(executor, NativeExecutor::Jit(_)));
    assert_eq!(executor.registry().arch, Arch::Aarch64);
    assert!(executor.find_function(3).is_none());
    let executor = NativeExecutor::from_jit(JitNativeExecutor {
        registry: TypeRegistry::new(Arch::X86_64),
        functions: Vec::new(),
    });
    assert!(matches!(executor, NativeExecutor::Jit(_)));
}
