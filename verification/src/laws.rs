//! What holds across the encoder, the planner and the decoder.
use crate::arch::{Arch, REGISTER_WORDS};
use crate::decode::{decode_spec, parse_result_spec};
use crate::error::{DecodeError, EncodeError};
use crate::felt::{lemma_felt_round_trip, Felt252};
use crate::image::{felt_bytes, image_spec, ImageFailure};
use crate::invoke::{
    consume_builtins_spec, encode_params_spec, finish_spec, first_kept_complex, kept_count,
    plan_spec,
};
use crate::layout::{align_up, integer_layout, Layout};
use crate::mapper::{
    int_words_spec, lemma_push_aligned, push_aligned_spec, push_felt_spec, push_fields_spec,
    push_spec, MapperView, PushFailure,
};
use crate::roundtrip::{
    extends, failure_extends, lemma_elements_facts, lemma_extends_transitive, lemma_image_facts,
    lemma_store_extends, scratch_ok, types_wf,
};
use crate::types::{entry_wf, TypeKind};
use crate::memory::{Memory, ScratchView};
use crate::scalar::{lemma_int_bytes, word_modulus};
use crate::types::{TypeId, TypeInfo};
use crate::values::ValueView;
use vstd::bytes::*;
use vstd::prelude::*;

verus! {

/// An integer passed as the first argument comes back unchanged when the
/// callee returns its argument registers as its return registers.
///
/// On an empty word stream an integer is pushed without padding, so the words
/// pushed are the first registers. Decoding those registers as the same type,
/// without a return slot, gives the value that was encoded.
pub proof fn lemma_int_round_trip_registers(
    types: Seq<TypeInfo>,
    arch: Arch,
    runtime: bool,
    scratch: ScratchView,
    memory: Memory,
    id: int,
    value: ValueView,
    registers: Seq<u64>,
)
    requires
        0 <= id < types.len(),
        types[id].kind.int_kind_spec() is Some,
        value.as_int() is Some,
        value.as_int().unwrap().0 == types[id].kind.int_kind_spec().unwrap(),
        push_spec(types, arch, runtime, MapperView { words: Seq::empty(), scratch }, id, value)
            matches Ok(state) && state.words == registers.subrange(0, state.words.len() as int),
        registers.len() >= 2,
    ensures
        parse_result_spec(types, arch, memory, id, None, registers) == Ok::<
            (ValueView, Option<u64>),
            DecodeError,
        >((value, None)),
{
    let (kind, number) = value.as_int().unwrap();
    value.lemma_of_int_as_int();
    kind.lemma_from_raw(number);
    let words = push_spec(
        types,
        arch,
        runtime,
        MapperView { words: Seq::empty(), scratch },
        id,
        value,
    )->Ok_0.words;
    let pushed = int_words_spec(kind, number);
    assert(words =~= pushed);
    assert(registers[0] == registers.subrange(0, words.len() as int)[0]);
    if kind.bits_spec() > 64 {
        assert(registers[1] == registers.subrange(0, words.len() as int)[1]);
    }
}

/// An integer written to memory by the encoder is read back unchanged from
/// the return slot.
///
/// Where memory holds at `address` the bytes that the encoder makes of an
/// integer, decoding the same type with `address` as return slot gives the
/// integer.
pub proof fn lemma_int_round_trip_memory(
    types: Seq<TypeInfo>,
    arch: Arch,
    scratch: ScratchView,
    memory: Memory,
    id: int,
    value: ValueView,
    address: u64,
    registers: Seq<u64>,
)
    requires
        0 <= id < types.len(),
        types[id].kind.int_kind_spec() is Some,
        value.as_int() is Some,
        value.as_int().unwrap().0 == types[id].kind.int_kind_spec().unwrap(),
        image_spec(types, scratch, id, value) matches Ok(made) && memory.read_spec(
            address as int,
            made.0.len() as int,
        ) == Some(made.0),
    ensures
        image_spec(types, scratch, id, value) is Ok,
        decode_spec(types, memory, id, address as int) == Ok::<ValueView, DecodeError>(value),
        parse_result_spec(types, arch, memory, id, Some(address), registers) == Ok::<
            (ValueView, Option<u64>),
            DecodeError,
        >((value, None)),
{
    let (kind, number) = value.as_int().unwrap();
    value.lemma_of_int_as_int();
    lemma_int_bytes(kind, number);
}

/// A field element written to memory by the encoder is read back unchanged
/// from the return slot.
pub proof fn lemma_felt_round_trip_memory(
    types: Seq<TypeInfo>,
    arch: Arch,
    scratch: ScratchView,
    memory: Memory,
    id: int,
    felt: Felt252,
    address: u64,
    registers: Seq<u64>,
)
    requires
        0 <= id < types.len(),
        types[id].kind.is_felt_like(),
        felt.wf(),
        memory.read_spec(address as int, 32) == Some(felt_bytes(felt)),
    ensures
        image_spec(types, scratch, id, ValueView::Felt252(felt)) == Ok::<
            (Seq<u8>, ScratchView),
            ImageFailure,
        >((felt_bytes(felt), scratch)),
        decode_spec(types, memory, id, address as int) == Ok::<ValueView, DecodeError>(
            ValueView::Felt252(felt),
        ),
        parse_result_spec(types, arch, memory, id, Some(address), registers) == Ok::<
            (ValueView, Option<u64>),
            DecodeError,
        >((ValueView::Felt252(felt), None)),
{
    lemma_felt_round_trip(felt);
    felt.lemma_digits_len();
    crate::felt::lemma_digits_bytes_digits(felt.digits());
    assert(felt_bytes(felt).subrange(0, 32) =~= felt_bytes(felt));
}

/// A field element passed as the first argument on the ARM-family target
/// comes back unchanged when the callee returns its argument registers as its
/// return registers.
pub proof fn lemma_felt_round_trip_registers(
    types: Seq<TypeInfo>,
    memory: Memory,
    id: int,
    felt: Felt252,
    registers: Seq<u64>,
)
    requires
        0 <= id < types.len(),
        types[id].kind.is_felt_like(),
        felt.wf(),
        registers.len() == 4,
        registers == push_felt_spec(Arch::Aarch64, Seq::empty(), felt),
    ensures
        parse_result_spec(types, Arch::Aarch64, memory, id, None, registers) == Ok::<
            (ValueView, Option<u64>),
            DecodeError,
        >((ValueView::Felt252(felt), None)),
{
    lemma_felt_round_trip(felt);
    felt.lemma_digits_len();
    assert(registers =~= felt.digits());
    assert(registers.subrange(0, 4) =~= felt.digits());
}

/// On the ARM-family target a 128-bit integer or a field element that is pushed
/// behind seven or more words lies wholly on the stack, in one piece, and
/// starts at a stack offset that is a multiple of 16 bytes.
pub proof fn lemma_wide_argument_aligned(
    types: Seq<TypeInfo>,
    runtime: bool,
    state: MapperView,
    id: int,
    value: ValueView,
)
    requires
        0 <= id < types.len(),
        state.words.len() + 1 >= REGISTER_WORDS,
        match value {
            ValueView::Felt252(_) => types[id].kind.is_felt_like(),
            ValueView::Uint128(_) => types[id].kind is Uint128,
            ValueView::Sint128(_) => types[id].kind is Sint128,
            _ => false,
        },
    ensures
        push_spec(types, Arch::Aarch64, runtime, state, id, value) matches Ok(after) && {
            let words = match value {
                ValueView::Felt252(felt) => felt.digits(),
                _ => int_words_spec(value.as_int().unwrap().0, value.as_int().unwrap().1),
            };
            let start = after.words.len() - words.len();
            &&& after.scratch == state.scratch
            &&& start >= REGISTER_WORDS
            &&& (start - REGISTER_WORDS) * 8 % 16 == 0
            &&& after.words.subrange(start, after.words.len() as int) == words
            &&& after.words.subrange(0, state.words.len() as int) == state.words
        },
{
    let words = match value {
        ValueView::Felt252(felt) => felt.digits(),
        _ => int_words_spec(value.as_int().unwrap().0, value.as_int().unwrap().1),
    };
    match value {
        ValueView::Felt252(felt) => {
            felt.lemma_digits_len();
        },
        _ => {},
    }
    lemma_push_aligned(Arch::Aarch64, state.words, 16, words);
}

/// A parameter without a runtime representation takes no argument and leaves
/// the word stream and the scratch memory as they are.
pub proof fn lemma_zero_sized_parameter_elided(
    types: Seq<TypeInfo>,
    arch: Arch,
    runtime: bool,
    state: MapperView,
    params: Seq<TypeId>,
    args: Seq<ValueView>,
    gas: Option<u128>,
    syscall_handler: Option<u64>,
    index: int,
    next: int,
)
    requires
        0 <= index < params.len(),
        params[index] < types.len(),
        types[params[index] as int].zero_sized,
    ensures
        encode_params_spec(
            types,
            arch,
            runtime,
            state,
            params,
            args,
            gas,
            syscall_handler,
            index,
            next,
        ) == encode_params_spec(
            types,
            arch,
            runtime,
            state,
            params,
            args,
            gas,
            syscall_handler,
            index + 1,
            next,
        ),
{
}

/// A returned capability token without a runtime representation moves neither
/// the cursor into the return slot nor the fuel read so far.
pub proof fn lemma_unit_builtin_return_elided(
    types: Seq<TypeInfo>,
    memory: Memory,
    rets: Seq<TypeId>,
    registers: Seq<u64>,
    index: int,
    cursor: Option<u64>,
    gas: Option<u128>,
)
    requires
        0 <= index < rets.len(),
        rets[index] < types.len(),
        types[rets[index] as int].kind.is_unit_builtin(),
    ensures
        consume_builtins_spec(types, memory, rets, registers, index, cursor, gas)
            == consume_builtins_spec(types, memory, rets, registers, index + 1, cursor, gas),
{
}

/// Where a function returns its fuel counter and a value, the fuel is read
/// first, from the return slot if there is one and from the first two return
/// registers if there is none, and the value is decoded behind it.
pub proof fn lemma_fuel_before_value(
    types: Seq<TypeInfo>,
    arch: Arch,
    memory: Memory,
    fuel: TypeId,
    value: TypeId,
    return_ptr: Option<u64>,
    registers: Seq<u64>,
)
    requires
        fuel < types.len(),
        value < types.len(),
        types[fuel as int].kind is GasBuiltin,
        !types[value as int].kind.is_builtin_spec(),
        types[fuel as int].layout.wf(),
        types[value as int].layout.wf(),
        registers.len() >= 2,
    ensures
        match return_ptr {
            Some(slot) => {
                let at = align_up(slot as int, types[fuel as int].layout.align as int);
                let start = align_up(at + 16, types[value as int].layout.align as int);
                at + 16 <= u64::MAX ==> match memory.read_spec(at, 16) {
                    Some(bytes) => start <= u64::MAX ==> finish_spec(
                        types,
                        arch,
                        memory,
                        seq![fuel, value],
                        return_ptr,
                        registers,
                    ) == match parse_result_spec(
                        types,
                        arch,
                        memory,
                        value as int,
                        Some(start as u64),
                        registers,
                    ) {
                        Ok((decoded, release)) => Ok(
                            (Some(spec_u128_from_le_bytes(bytes)), decoded, release),
                        ),
                        Err(error) => Err(error),
                    },
                    None => finish_spec(
                        types,
                        arch,
                        memory,
                        seq![fuel, value],
                        return_ptr,
                        registers,
                    ) == Err::<(Option<u128>, ValueView, Option<u64>), DecodeError>(
                        DecodeError::Unmapped { address: at as u64, len: 16 },
                    ),
                }
            },
            None => finish_spec(types, arch, memory, seq![fuel, value], return_ptr, registers)
                == match parse_result_spec(types, arch, memory, value as int, None, registers) {
                Ok((decoded, release)) => Ok(
                    (
                        Some((registers[0] + registers[1] * word_modulus()) as u128),
                        decoded,
                        release,
                    ),
                ),
                Err(error) => Err(error),
            },
        },
{
    let rets = seq![fuel, value];
    assert(rets.last() == value);
    reveal_with_fuel(consume_builtins_spec, 3);
    match return_ptr {
        Some(slot) => {
            let at = align_up(slot as int, types[fuel as int].layout.align as int);
            crate::layout::lemma_align_up(slot as int, types[fuel as int].layout.align as int);
            crate::layout::lemma_align_up(at + 16, types[value as int].layout.align as int);
            if at + 16 <= u64::MAX {
                let after = consume_builtins_spec(
                    types,
                    memory,
                    rets,
                    registers,
                    0,
                    return_ptr,
                    None,
                );
                match memory.read_spec(at, 16) {
                    Some(bytes) => {
                        assert(after == Ok::<(Option<u64>, Option<u128>), DecodeError>(
                            (Some((at + 16) as u64), Some(spec_u128_from_le_bytes(bytes))),
                        ));
                    },
                    None => {
                        assert(after is Err);
                    },
                }
            }
        },
        None => {},
    }
}

/// A value that is returned beside types without a runtime representation
/// alone, and that is not complex, comes back in registers: no return slot is
/// planned, whether those types are capability tokens or not.
pub proof fn lemma_lone_value_needs_no_slot(types: Seq<TypeInfo>, value: TypeId, unit: TypeId)
    requires
        value < types.len(),
        unit < types.len(),
        !types[value as int].zero_sized,
        !types[value as int].complex,
        types[unit as int].zero_sized,
    ensures
        plan_spec(types, seq![value, unit]) == Ok::<Option<Layout>, EncodeError>(None),
        plan_spec(types, seq![unit, value]) == Ok::<Option<Layout>, EncodeError>(None),
        plan_spec(types, seq![unit]) == Ok::<Option<Layout>, EncodeError>(None),
{
    reveal_with_fuel(kept_count, 3);
    reveal_with_fuel(first_kept_complex, 3);
}

/// An array without elements is passed as the null address with length and
/// capacity zero, and stores nothing.
pub proof fn lemma_empty_array_encoding(
    types: Seq<TypeInfo>,
    arch: Arch,
    runtime: bool,
    state: MapperView,
    id: int,
)
    requires
        0 <= id < types.len(),
        types[id].kind is Array,
    ensures
        push_spec(types, arch, runtime, state, id, ValueView::Array(Seq::empty())) == Ok::<
            MapperView,
            PushFailure,
        >(
            MapperView {
                words: push_aligned_spec(
                    arch,
                    state.words,
                    integer_layout(64, arch).align as int,
                    seq![0u64, 0u64, 0u64],
                ),
                scratch: state.scratch,
            },
        ),
        integer_layout(64, arch).align == 8,
        push_aligned_spec(
            arch,
            state.words,
            integer_layout(64, arch).align as int,
            seq![0u64, 0u64, 0u64],
        ) == state.words + seq![0u64, 0u64, 0u64],
{
    reveal_with_fuel(crate::image::elements_image, 2);
    reveal_with_fuel(crate::image::array_storage, 2);
}

/// An array whose length field is zero decodes to the empty array, whatever
/// its pointer is and whatever memory holds there.
pub proof fn lemma_empty_array_decoding(
    types: Seq<TypeInfo>,
    memory: Memory,
    id: int,
    address: u64,
    header: Seq<u8>,
)
    requires
        0 <= id < types.len(),
        types[id].kind is Array,
        memory.read_spec(address as int, 16) == Some(header),
        spec_u32_from_le_bytes(header.subrange(8, 12)) == 0,
    ensures
        decode_spec(types, memory, id, address as int) == Ok::<ValueView, DecodeError>(
            ValueView::Array(Seq::empty()),
        ),
{
    let element = types[id].kind->Array_0;
    let pointer = spec_u64_from_le_bytes(header.subrange(0, 8));
    assert(crate::decode::read_at(memory, address as int, 16) == Ok::<Seq<u8>, DecodeError>(
        header,
    ));
    assert(crate::decode::decode_elements(
        types,
        memory,
        id,
        element as int,
        pointer as int,
        0,
        Seq::empty(),
    ) == Ok::<Seq<ValueView>, DecodeError>(Seq::empty()));
}

/// `after` is `before` with words and scratch memory appended.
pub open spec fn appends(after: MapperView, before: MapperView) -> bool {
    &&& before.words.len() <= after.words.len()
    &&& after.words.subrange(0, before.words.len() as int) == before.words
    &&& extends(after.scratch, before.scratch)
    &&& scratch_ok(before.scratch) ==> scratch_ok(after.scratch)
}

/// Appending to what has been appended to is appending.
pub proof fn lemma_appends_transitive(last: MapperView, middle: MapperView, first: MapperView)
    requires
        appends(last, middle),
        appends(middle, first),
    ensures
        appends(last, first),
{
    lemma_extends_transitive(last.scratch, middle.scratch, first.scratch);
    assert(last.words.subrange(0, first.words.len() as int) =~= middle.words.subrange(
        0,
        first.words.len() as int,
    ));
}

/// Pushing a field element appends words.
pub proof fn lemma_push_felt_appends(arch: Arch, words: Seq<u64>, felt: Felt252)
    ensures
        words.len() <= push_felt_spec(arch, words, felt).len(),
        push_felt_spec(arch, words, felt).subrange(0, words.len() as int) == words,
{
    felt.lemma_digits_len();
    lemma_push_aligned(arch, words, integer_layout(252, arch).align as int, felt.digits());
}

/// Encoding an argument never rewrites what has been encoded: the words that
/// are there stay where they are, and so does what the scratch memory holds.
pub proof fn lemma_push_appends(
    types: Seq<TypeInfo>,
    arch: Arch,
    runtime: bool,
    state: MapperView,
    id: int,
    value: ValueView,
)
    requires
        types_wf(types, arch),
    ensures
        push_spec(types, arch, runtime, state, id, value) matches Ok(after) ==> appends(
            after,
            state,
        ),
    decreases id, 1int, 0int,
{
    assert(state.words.subrange(0, state.words.len() as int) =~= state.words);
    assert(state.scratch.bytes.subrange(0, state.scratch.bytes.len() as int)
        =~= state.scratch.bytes);
    if 0 <= id < types.len() && push_spec(types, arch, runtime, state, id, value) is Ok {
        let info = types[id];
        let after = push_spec(types, arch, runtime, state, id, value)->Ok_0;
        assert(entry_wf(types, arch, id));
        match info.kind {
            TypeKind::Array(element) => {
                let items = value->Array_0;
                let element = element as int;
                assert(info.kind.children()[0] < id);
                assert(entry_wf(types, arch, element));
                let stored = crate::image::array_storage(
                    types,
                    state.scratch,
                    id,
                    element,
                    items,
                );
                assert(stored is Ok);
                let made = crate::image::elements_image(
                    types,
                    state.scratch,
                    id,
                    element,
                    items,
                    0,
                    Seq::empty(),
                );
                assert(made is Ok);
                lemma_elements_facts(
                    types,
                    arch,
                    state.scratch,
                    id,
                    element,
                    items,
                    0,
                    Seq::empty(),
                );
                if items.len() != 0 {
                    lemma_store_extends(made->Ok_0.1, types[element].layout.align, made->Ok_0.0);
                    lemma_extends_transitive(stored->Ok_0.1, made->Ok_0.1, state.scratch);
                }
                lemma_push_aligned(
                    arch,
                    state.words,
                    integer_layout(64, arch).align as int,
                    seq![stored->Ok_0.0, items.len() as u64, items.len() as u64],
                );
            },
            TypeKind::Struct(members) => {
                lemma_push_fields_appends(
                    types,
                    arch,
                    runtime,
                    state,
                    id,
                    members@,
                    value->fields,
                    0,
                );
            },
            TypeKind::Enum(variants) => {
                if info.memory_allocated {
                    lemma_image_facts(types, arch, state.scratch, id, value);
                    let made = crate::image::image_spec(types, state.scratch, id, value)->Ok_0;
                    lemma_store_extends(made.1, info.layout.align, made.0);
                    lemma_extends_transitive(after.scratch, made.1, state.scratch);
                    assert(after.words.subrange(0, state.words.len() as int) =~= state.words);
                } else {
                    let tag = value->tag;
                    let tagged = MapperView {
                        words: if variants@.len() > 1 {
                            state.words.push(tag as u64)
                        } else {
                            state.words
                        },
                        scratch: state.scratch,
                    };
                    assert(tagged.words.subrange(0, state.words.len() as int) =~= state.words);
                    lemma_push_appends(
                        types,
                        arch,
                        runtime,
                        tagged,
                        variants@[tag as int] as int,
                        *value->value,
                    );
                    lemma_appends_transitive(after, tagged, state);
                }
            },
            TypeKind::NonZero(inner) => {
                lemma_push_appends(types, arch, runtime, state, inner as int, value);
            },
            TypeKind::Snapshot(inner) => {
                lemma_push_appends(types, arch, runtime, state, inner as int, value);
            },
            TypeKind::EcPoint => {
                let first = push_felt_spec(arch, state.words, value->EcPoint_0);
                lemma_push_felt_appends(arch, state.words, value->EcPoint_0);
                lemma_push_felt_appends(arch, first, value->EcPoint_1);
                assert(after.words.subrange(0, state.words.len() as int) =~= first.subrange(
                    0,
                    state.words.len() as int,
                ));
            },
            TypeKind::EcState => {
                let first = push_felt_spec(arch, state.words, value->EcState_0);
                let second = push_felt_spec(arch, first, value->EcState_1);
                let third = push_felt_spec(arch, second, value->EcState_2);
                lemma_push_felt_appends(arch, state.words, value->EcState_0);
                lemma_push_felt_appends(arch, first, value->EcState_1);
                lemma_push_felt_appends(arch, second, value->EcState_2);
                lemma_push_felt_appends(arch, third, value->EcState_3);
                assert(second.subrange(0, state.words.len() as int) =~= first.subrange(
                    0,
                    state.words.len() as int,
                ));
                assert(third.subrange(0, state.words.len() as int) =~= second.subrange(
                    0,
                    state.words.len() as int,
                ));
                assert(after.words.subrange(0, state.words.len() as int) =~= third.subrange(
                    0,
                    state.words.len() as int,
                ));
            },
            TypeKind::Felt252Dict(_) => {
                assert(after.words.subrange(0, state.words.len() as int) =~= state.words);
            },
            _ => {
                if info.kind.is_felt_like() {
                    lemma_push_felt_appends(arch, state.words, value->Felt252_0);
                } else if info.kind.int_kind_spec() is Some {
                    let (kind, number) = value.as_int().unwrap();
                    lemma_push_aligned(
                        arch,
                        state.words,
                        integer_layout(kind.bits_spec(), arch).align as int,
                        int_words_spec(kind, number),
                    );
                }
            },
        }
    }
}

/// Encoding the fields of a struct never rewrites what has been encoded.
pub proof fn lemma_push_fields_appends(
    types: Seq<TypeInfo>,
    arch: Arch,
    runtime: bool,
    state: MapperView,
    parent: int,
    members: Seq<TypeId>,
    fields: Seq<ValueView>,
    index: int,
)
    requires
        types_wf(types, arch),
        0 <= index,
    ensures
        push_fields_spec(types, arch, runtime, state, parent, members, fields, index) matches Ok(
            after,
        ) ==> appends(after, state),
    decreases parent, 0int, members.len() - index,
{
    assert(state.words.subrange(0, state.words.len() as int) =~= state.words);
    assert(state.scratch.bytes.subrange(0, state.scratch.bytes.len() as int)
        =~= state.scratch.bytes);
    if index < members.len() && index < fields.len() && members[index] < parent {
        match push_spec(types, arch, runtime, state, members[index] as int, fields[index]) {
            Ok(next) => {
                lemma_push_appends(
                    types,
                    arch,
                    runtime,
                    state,
                    members[index] as int,
                    fields[index],
                );
                lemma_push_fields_appends(
                    types,
                    arch,
                    runtime,
                    next,
                    parent,
                    members,
                    fields,
                    index + 1,
                );
                match push_fields_spec(
                    types,
                    arch,
                    runtime,
                    next,
                    parent,
                    members,
                    fields,
                    index + 1,
                ) {
                    Ok(after) => {
                        lemma_appends_transitive(after, next, state);
                    },
                    Err(_) => {},
                }
            },
            Err(_) => {},
        }
    }
}

/// Where encoding an argument fails, what had been encoded before is still
/// there: the words that were there stay where they are, and so does what the
/// scratch memory held.
pub proof fn lemma_push_failure_appends(
    types: Seq<TypeInfo>,
    arch: Arch,
    runtime: bool,
    state: MapperView,
    id: int,
    value: ValueView,
)
    requires
        types_wf(types, arch),
    ensures
        push_spec(types, arch, runtime, state, id, value) matches Err(failure) ==> appends(
            failure.state,
            state,
        ),
    decreases id, 1int, 0int,
{
    assert(state.words.subrange(0, state.words.len() as int) =~= state.words);
    assert(state.scratch.bytes.subrange(0, state.scratch.bytes.len() as int)
        =~= state.scratch.bytes);
    if 0 <= id < types.len() && push_spec(types, arch, runtime, state, id, value) is Err {
        let info = types[id];
        let failure = push_spec(types, arch, runtime, state, id, value)->Err_0;
        assert(entry_wf(types, arch, id));
        match info.kind {
            TypeKind::Array(element) => {
                assert(info.kind.children()[0] < id);
                if value is Array {
                    let items = value->Array_0;
                    lemma_elements_facts(
                        types,
                        arch,
                        state.scratch,
                        id,
                        element as int,
                        items,
                        0,
                        Seq::empty(),
                    );
                    let stored = crate::image::array_storage(
                        types,
                        state.scratch,
                        id,
                        element as int,
                        items,
                    );
                    assert(stored is Err);
                    assert(failure_extends(stored->Err_0, state.scratch));
                }
            },
            TypeKind::Struct(members) => {
                if value is Struct {
                    lemma_push_fields_failure_appends(
                        types,
                        arch,
                        runtime,
                        state,
                        id,
                        members@,
                        value->fields,
                        0,
                    );
                }
            },
            TypeKind::Enum(variants) => {
                if value is Enum {
                    if info.memory_allocated {
                        lemma_image_facts(types, arch, state.scratch, id, value);
                    } else if value->tag < variants@.len() {
                        let tag = value->tag;
                        assert(info.kind.children()[tag as int] < id);
                        let tagged = MapperView {
                            words: if variants@.len() > 1 {
                                state.words.push(tag as u64)
                            } else {
                                state.words
                            },
                            scratch: state.scratch,
                        };
                        assert(tagged.words.subrange(0, state.words.len() as int)
                            =~= state.words);
                        lemma_push_failure_appends(
                            types,
                            arch,
                            runtime,
                            tagged,
                            variants@[tag as int] as int,
                            *value->value,
                        );
                        lemma_appends_transitive(failure.state, tagged, state);
                    }
                }
            },
            TypeKind::NonZero(inner) => {
                assert(info.kind.children()[0] < id);
                lemma_push_failure_appends(types, arch, runtime, state, inner as int, value);
            },
            TypeKind::Snapshot(inner) => {
                assert(info.kind.children()[0] < id);
                lemma_push_failure_appends(types, arch, runtime, state, inner as int, value);
            },
            _ => {},
        }
    }
}

/// Where encoding the fields of a struct fails, what had been encoded before is
/// still there.
pub proof fn lemma_push_fields_failure_appends(
    types: Seq<TypeInfo>,
    arch: Arch,
    runtime: bool,
    state: MapperView,
    parent: int,
    members: Seq<TypeId>,
    fields: Seq<ValueView>,
    index: int,
)
    requires
        types_wf(types, arch),
        0 <= index,
    ensures
        push_fields_spec(types, arch, runtime, state, parent, members, fields, index) matches Err(
            failure,
        ) ==> appends(failure.state, state),
    decreases parent, 0int, members.len() - index,
{
    assert(state.words.subrange(0, state.words.len() as int) =~= state.words);
    assert(state.scratch.bytes.subrange(0, state.scratch.bytes.len() as int)
        =~= state.scratch.bytes);
    if index < members.len() && index < fields.len() && members[index] < parent {
        match push_spec(types, arch, runtime, state, members[index] as int, fields[index]) {
            Ok(next) => {
                lemma_push_appends(
                    types,
                    arch,
                    runtime,
                    state,
                    members[index] as int,
                    fields[index],
                );
                lemma_push_fields_failure_appends(
                    types,
                    arch,
                    runtime,
                    next,
                    parent,
                    members,
                    fields,
                    index + 1,
                );
                match push_fields_spec(
                    types,
                    arch,
                    runtime,
                    next,
                    parent,
                    members,
                    fields,
                    index + 1,
                ) {
                    Ok(_) => {},
                    Err(failure) => {
                        lemma_appends_transitive(failure.state, next, state);
                    },
                }
            },
            Err(_) => {
                lemma_push_failure_appends(
                    types,
                    arch,
                    runtime,
                    state,
                    members[index] as int,
                    fields[index],
                );
            },
        }
    }
}

/// Whether values of the kind are passed as data of their own: integers, field
/// elements, curve values, arrays, structs, enums and dictionaries.
pub open spec fn is_data_kind(kind: TypeKind) -> bool {
    kind is Array || kind is Struct || kind is Enum || kind is EcPoint || kind is EcState
        || kind is Felt252Dict || kind.is_felt_like() || kind.int_kind_spec() is Some
}

/// Whether `value` is of the variant that values of the kind have.
pub open spec fn same_variant(kind: TypeKind, value: ValueView) -> bool {
    match kind {
        TypeKind::Array(_) => value is Array,
        TypeKind::Struct(_) => value is Struct,
        TypeKind::Enum(_) => value is Enum,
        TypeKind::EcPoint => value is EcPoint,
        TypeKind::EcState => value is EcState,
        TypeKind::Felt252Dict(_) => value is Felt252Dict,
        _ => if kind.is_felt_like() {
            value is Felt252
        } else {
            kind.int_kind_spec() matches Some(held) && value.as_int() matches Some(given)
                && given.0 == held
        },
    }
}

/// A value of another variant than its type has is turned down as a mismatch,
/// and the word stream and the scratch memory are left as they were.
pub proof fn lemma_mismatch_changes_nothing(
    types: Seq<TypeInfo>,
    arch: Arch,
    runtime: bool,
    state: MapperView,
    id: int,
    value: ValueView,
)
    requires
        0 <= id < types.len(),
        is_data_kind(types[id].kind),
        !same_variant(types[id].kind, value),
    ensures
        push_spec(types, arch, runtime, state, id, value) == Err::<MapperView, PushFailure>(
            PushFailure { error: EncodeError::TypeMismatch, state },
        ),
{
}

/// A dictionary without runtime support, and a value of a type that is never
/// passed, are turned down as unsupported, and the word stream and the scratch
/// memory are left as they were.
pub proof fn lemma_unsupported_changes_nothing(
    types: Seq<TypeInfo>,
    arch: Arch,
    runtime: bool,
    state: MapperView,
    id: int,
    value: ValueView,
)
    requires
        0 <= id < types.len(),
        if types[id].kind is Felt252Dict {
            value is Felt252Dict && !runtime
        } else {
            !is_data_kind(types[id].kind) && !(types[id].kind is NonZero) && !(types[id].kind
                is Snapshot) && !types[id].kind.is_unit_builtin()
        },
    ensures
        push_spec(types, arch, runtime, state, id, value) == Err::<MapperView, PushFailure>(
            PushFailure { error: EncodeError::UnsupportedType, state },
        ),
{
}

} // verus!
