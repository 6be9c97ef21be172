//! The return decoder: from registers and memory back to typed values.
use crate::arch::Arch;
use crate::error::DecodeError;
use crate::felt::{le_bytes_digits, le_digits_value, Felt252};
use crate::image::{stride, tag_kind};
use crate::layout::round_up_to;
use crate::memory::Memory;
use crate::scalar::{
    int_from_bytes, int_from_image, lemma_wrap, word_modulus, IntKind,
};
use crate::types::{
    entry_wf, field_offset, fields_end, lemma_fields_end_monotone, payload_offset, tag_size,
    tag_size_of, TypeId, TypeInfo, TypeKind, TypeRegistry,
};
use crate::values::{views, JitValue, ValueView};
use vstd::bytes::*;
use vstd::prelude::*;

verus! {

/// The address that stands for the payload of an enum returned in registers:
/// nothing is read there unless the payload has a size.
pub const DANGLING: u64 = 1;

/// The `len` bytes at `address`, or the error that names them as unmapped.
pub open spec fn read_at(memory: Memory, address: int, len: int) -> Result<Seq<u8>, DecodeError> {
    match memory.read_spec(address, len) {
        Some(bytes) => Ok(bytes),
        None => Err(DecodeError::Unmapped { address: address as u64, len: len as u64 }),
    }
}

/// The field element held by the 32 bytes of `bytes` from `32 * index` on.
pub open spec fn felt_at(bytes: Seq<u8>, index: int) -> Felt252 {
    Felt252::from_value(
        le_digits_value(le_bytes_digits(bytes.subrange(32 * index, 32 * index + 32))),
    )
}

/// The tag that `bytes` hold for an enum with `count` variants.
pub open spec fn tag_from_bytes(count: nat, bytes: Seq<u8>) -> int {
    match tag_kind(tag_size(count)) {
        Some(kind) => int_from_bytes(kind, bytes),
        None => 0,
    }
}

/// The tag that a register holds for an enum with `count` variants: as many of
/// its low bytes as the tag is wide.
pub open spec fn tag_from_register(count: nat, register: u64) -> int {
    match tag_kind(tag_size(count)) {
        Some(kind) => kind.from_raw(register as int),
        None => 0,
    }
}

/// The value of type `id` that memory holds at `address`.
pub open spec fn decode_spec(types: Seq<TypeInfo>, memory: Memory, id: int, address: int) -> Result<
    ValueView,
    DecodeError,
>
    decreases id, 1int, 0int,
{
    if id < 0 || id >= types.len() {
        Err(DecodeError::UnknownType)
    } else if address > u64::MAX {
        Err(DecodeError::AddressOverflow)
    } else {
        let info = types[id];
        match info.kind {
            TypeKind::Array(element) => match read_at(memory, address, 16) {
                Ok(bytes) => match decode_elements(
                    types,
                    memory,
                    id,
                    element as int,
                    spec_u64_from_le_bytes(bytes.subrange(0, 8)) as int,
                    spec_u32_from_le_bytes(bytes.subrange(8, 12)) as int,
                    Seq::empty(),
                ) {
                    Ok(items) => Ok(ValueView::Array(items)),
                    Err(error) => Err(error),
                },
                Err(error) => Err(error),
            },
            TypeKind::Struct(members) => match decode_fields(
                types,
                memory,
                id,
                members@,
                address,
                0,
                Seq::empty(),
            ) {
                Ok(fields) => Ok(ValueView::Struct { fields }),
                Err(error) => Err(error),
            },
            TypeKind::Enum(variants) => match read_at(
                memory,
                address,
                tag_size(variants@.len()) as int,
            ) {
                Ok(bytes) => {
                    let tag = tag_from_bytes(variants@.len(), bytes);
                    if tag >= variants@.len() {
                        Err(DecodeError::InvalidTag)
                    } else if variants@[tag] >= id {
                        Err(DecodeError::UnknownType)
                    } else {
                        match decode_spec(
                            types,
                            memory,
                            variants@[tag] as int,
                            address + payload_offset(
                                tag_size(variants@.len()),
                                types[variants@[tag] as int].layout,
                            ),
                        ) {
                            Ok(payload) => Ok(
                                ValueView::Enum { tag: tag as usize, value: Box::new(payload) },
                            ),
                            Err(error) => Err(error),
                        }
                    }
                },
                Err(error) => Err(error),
            },
            TypeKind::NonZero(inner) => if inner >= id {
                Err(DecodeError::UnknownType)
            } else {
                decode_spec(types, memory, inner as int, address)
            },
            TypeKind::Snapshot(inner) => if inner >= id {
                Err(DecodeError::UnknownType)
            } else {
                decode_spec(types, memory, inner as int, address)
            },
            TypeKind::Box(inner) => match read_at(memory, address, 8) {
                Ok(bytes) => if spec_u64_from_le_bytes(bytes) == 0 {
                    Err(DecodeError::NullPointer)
                } else if inner >= id {
                    Err(DecodeError::UnknownType)
                } else {
                    decode_spec(types, memory, inner as int, spec_u64_from_le_bytes(bytes) as int)
                },
                Err(error) => Err(error),
            },
            TypeKind::Nullable(inner) => match read_at(memory, address, 8) {
                Ok(bytes) => if spec_u64_from_le_bytes(bytes) == 0 {
                    Ok(ValueView::Null)
                } else if inner >= id {
                    Err(DecodeError::UnknownType)
                } else {
                    decode_spec(types, memory, inner as int, spec_u64_from_le_bytes(bytes) as int)
                },
                Err(error) => Err(error),
            },
            TypeKind::Felt252Dict(_) => match read_at(memory, address, 8) {
                Ok(bytes) => if spec_u64_from_le_bytes(bytes) == 0 {
                    Err(DecodeError::NullPointer)
                } else {
                    Ok(ValueView::Felt252Dict { handle: spec_u64_from_le_bytes(bytes) })
                },
                Err(error) => Err(error),
            },
            TypeKind::EcPoint => match read_at(memory, address, 64) {
                Ok(bytes) => Ok(ValueView::EcPoint(felt_at(bytes, 0), felt_at(bytes, 1))),
                Err(error) => Err(error),
            },
            TypeKind::EcState => match read_at(memory, address, 128) {
                Ok(bytes) => Ok(
                    ValueView::EcState(
                        felt_at(bytes, 0),
                        felt_at(bytes, 1),
                        felt_at(bytes, 2),
                        felt_at(bytes, 3),
                    ),
                ),
                Err(error) => Err(error),
            },
            _ => if info.kind.is_felt_like() {
                match read_at(memory, address, 32) {
                    Ok(bytes) => Ok(ValueView::Felt252(felt_at(bytes, 0))),
                    Err(error) => Err(error),
                }
            } else {
                match info.kind.int_kind_spec() {
                    Some(kind) => match read_at(memory, address, kind.bits_spec() as int / 8) {
                        Ok(bytes) => Ok(ValueView::of_int(kind, int_from_bytes(kind, bytes))),
                        Err(error) => Err(error),
                    },
                    None => Err(DecodeError::UnsupportedType),
                }
            },
        }
    }
}

/// `items` followed by the `remaining` elements of an array of type `parent`
/// that memory holds from `address` on, one stride apart. No byte is read for
/// an array without elements.
pub open spec fn decode_elements(
    types: Seq<TypeInfo>,
    memory: Memory,
    parent: int,
    element: int,
    address: int,
    remaining: int,
    items: Seq<ValueView>,
) -> Result<Seq<ValueView>, DecodeError>
    decreases parent, 0int, remaining,
{
    if remaining <= 0 {
        Ok(items)
    } else if element < 0 || element >= parent {
        Err(DecodeError::UnknownType)
    } else {
        match decode_spec(types, memory, element, address) {
            Ok(item) => decode_elements(
                types,
                memory,
                parent,
                element,
                address + stride(types[element].layout),
                remaining - 1,
                items.push(item),
            ),
            Err(error) => Err(error),
        }
    }
}

/// `fields` followed by the members of a struct of type `parent` from `index`
/// on that memory holds at their offsets from `address`.
pub open spec fn decode_fields(
    types: Seq<TypeInfo>,
    memory: Memory,
    parent: int,
    members: Seq<TypeId>,
    address: int,
    index: int,
    fields: Seq<ValueView>,
) -> Result<Seq<ValueView>, DecodeError>
    decreases parent, 0int, members.len() - index,
{
    if index < 0 || index >= members.len() {
        Ok(fields)
    } else if members[index] >= parent {
        Err(DecodeError::UnknownType)
    } else {
        match decode_spec(
            types,
            memory,
            members[index] as int,
            address + field_offset(types, members, index),
        ) {
            Ok(field) => decode_fields(
                types,
                memory,
                parent,
                members,
                address,
                index + 1,
                fields.push(field),
            ),
            Err(error) => Err(error),
        }
    }
}

/// Reads `len` bytes at `address`.
fn read_bytes(memory: &Memory, address: u64, len: u64) -> (result: Result<Vec<u8>, DecodeError>)
    ensures
        match read_at(*memory, address as int, len as int) {
            Ok(bytes) => result matches Ok(read) && read@ == bytes && read@.len() == len,
            Err(error) => result matches Err(e) && e == error,
        },
{
    match memory.read(address, len) {
        Some(bytes) => Ok(bytes),
        None => Err(DecodeError::Unmapped { address, len }),
    }
}

/// Reads the pointer at `address`.
fn read_pointer(memory: &Memory, address: u64) -> (result: Result<u64, DecodeError>)
    ensures
        match read_at(*memory, address as int, 8) {
            Ok(bytes) => result == Ok::<u64, DecodeError>(spec_u64_from_le_bytes(bytes)),
            Err(error) => result == Err::<u64, DecodeError>(error),
        },
{
    match read_bytes(memory, address, 8) {
        Ok(bytes) => Ok(u64_from_le_bytes(bytes.as_slice())),
        Err(error) => Err(error),
    }
}

/// The field element held by the 32 bytes of `bytes` from `32 * index` on.
fn felt_from_bytes(bytes: &Vec<u8>, index: usize) -> (felt: Felt252)
    requires
        index < 4,
        bytes@.len() >= 32 * (index + 1),
    ensures
        felt == felt_at(bytes@, index as int),
{
    let part = vstd::slice::slice_subrange(bytes.as_slice(), 32 * index, 32 * index + 32);
    Felt252::from_bytes_le(part)
}

/// The tag that `bytes` hold for an enum with a tag of `size` bytes.
fn tag_from_image(size: u64, bytes: &Vec<u8>) -> (tag: u64)
    requires
        size == 1 || size == 2 || size == 4 || size == 8,
        bytes@.len() == size,
    ensures
        tag == int_from_bytes(tag_kind(size).unwrap(), bytes@),
{
    proof {
        let kind = tag_kind(size).unwrap();
        let raw: int = if size == 1 {
            bytes@[0] as int
        } else if size == 2 {
            spec_u16_from_le_bytes(bytes@) as int
        } else if size == 4 {
            spec_u32_from_le_bytes(bytes@) as int
        } else {
            spec_u64_from_le_bytes(bytes@) as int
        };
        kind.lemma_modulus();
        lemma_wrap(raw, kind.modulus());
    }
    if size == 1 {
        bytes[0] as u64
    } else if size == 2 {
        u16_from_le_bytes(bytes.as_slice()) as u64
    } else if size == 4 {
        u32_from_le_bytes(bytes.as_slice()) as u64
    } else {
        u64_from_le_bytes(bytes.as_slice())
    }
}

/// The tag that a register holds for an enum with a tag of `size` bytes.
fn tag_from_word(size: u64, register: u64) -> (tag: u64)
    requires
        size == 1 || size == 2 || size == 4 || size == 8,
    ensures
        tag == tag_kind(size).unwrap().from_raw(register as int),
{
    if size == 1 {
        register % 0x100
    } else if size == 2 {
        register % 0x1_0000
    } else if size == 4 {
        register % 0x1_0000_0000
    } else {
        proof {
            lemma_wrap(register as int, IntKind::U64.modulus());
        }
        register
    }
}

/// Decodes the value of type `type_id` that `memory` holds at `address`.
///
/// The value is laid out as [`crate::image::image_spec`] describes. An array
/// without elements is decoded without a look at what its pointer refers to,
/// and a null pointer in place of a nullable value gives [`JitValue::Null`].
pub fn deserialize(registry: &TypeRegistry, memory: &Memory, type_id: TypeId, address: u64) -> (result:
    Result<JitValue, DecodeError>)
    requires
        registry.wf(),
    ensures
        match decode_spec(registry.types@, *memory, type_id as int, address as int) {
            Ok(value) => result matches Ok(decoded) && decoded@ == value,
            Err(error) => result matches Err(e) && e == error,
        },
    decreases type_id, 1int,
{
    if type_id >= registry.types.len() {
        return Err(DecodeError::UnknownType);
    }
    let info = &registry.types[type_id];
    proof {
        assert(entry_wf(registry.types@, registry.arch, type_id as int));
    }
    match &info.kind {
        TypeKind::Array(element) => {
            proof {
                assert(info.kind.children()[0] < type_id);
            }
            match read_bytes(memory, address, 16) {
                Ok(bytes) => {
                    let pointer: u64 = u64_from_le_bytes(
                        vstd::slice::slice_subrange(bytes.as_slice(), 0, 8),
                    );
                    let len: u32 = u32_from_le_bytes(
                        vstd::slice::slice_subrange(bytes.as_slice(), 8, 12),
                    );
                    match deserialize_elements(registry, memory, type_id, *element, pointer, len) {
                        Ok(items) => {
                            let value = JitValue::Array(items);
                            proof {
                                value.lemma_view_items();
                            }
                            Ok(value)
                        },
                        Err(error) => Err(error),
                    }
                },
                Err(error) => Err(error),
            }
        },
        TypeKind::Struct(members) => {
            match deserialize_fields(registry, memory, type_id, members, address) {
                Ok(fields) => {
                    let value = JitValue::Struct { fields };
                    proof {
                        value.lemma_view_items();
                    }
                    Ok(value)
                },
                Err(error) => Err(error),
            }
        },
        TypeKind::Enum(variants) => {
            let size: u64 = tag_size_of(variants.len());
            match read_bytes(memory, address, size) {
                Ok(bytes) => {
                    let tag: u64 = if size == 0 {
                        0
                    } else {
                        tag_from_image(size, &bytes)
                    };
                    if tag >= variants.len() as u64 {
                        return Err(DecodeError::InvalidTag);
                    }
                    let variant: usize = variants[tag as usize];
                    proof {
                        assert(info.kind.children()[tag as int] < type_id);
                        assert(entry_wf(registry.types@, registry.arch, variant as int));
                    }
                    let offset: u64 = round_up_to(size, registry.types[variant].layout.align);
                    if offset > u64::MAX - address {
                        assert(decode_spec(
                            registry.types@,
                            *memory,
                            variant as int,
                            address + offset,
                        ) == Err::<ValueView, DecodeError>(DecodeError::AddressOverflow));
                        return Err(DecodeError::AddressOverflow);
                    }
                    match deserialize(registry, memory, variant, address + offset) {
                        Ok(payload) => {
                            let value = JitValue::Enum {
                                tag: tag as usize,
                                value: Box::new(payload),
                            };
                            proof {
                                value.lemma_view_items();
                            }
                            Ok(value)
                        },
                        Err(error) => Err(error),
                    }
                },
                Err(error) => Err(error),
            }
        },
        TypeKind::NonZero(inner) => {
            proof {
                assert(info.kind.children()[0] < type_id);
            }
            deserialize(registry, memory, *inner, address)
        },
        TypeKind::Snapshot(inner) => {
            proof {
                assert(info.kind.children()[0] < type_id);
            }
            deserialize(registry, memory, *inner, address)
        },
        TypeKind::Box(inner) => {
            proof {
                assert(info.kind.children()[0] < type_id);
            }
            match read_pointer(memory, address) {
                Ok(pointer) => {
                    if pointer == 0 {
                        Err(DecodeError::NullPointer)
                    } else {
                        deserialize(registry, memory, *inner, pointer)
                    }
                },
                Err(error) => Err(error),
            }
        },
        TypeKind::Nullable(inner) => {
            proof {
                assert(info.kind.children()[0] < type_id);
            }
            match read_pointer(memory, address) {
                Ok(pointer) => {
                    if pointer == 0 {
                        Ok(JitValue::Null)
                    } else {
                        deserialize(registry, memory, *inner, pointer)
                    }
                },
                Err(error) => Err(error),
            }
        },
        TypeKind::Felt252Dict(_) => match read_pointer(memory, address) {
            Ok(pointer) => {
                if pointer == 0 {
                    Err(DecodeError::NullPointer)
                } else {
                    Ok(JitValue::Felt252Dict { handle: pointer })
                }
            },
            Err(error) => Err(error),
        },
        TypeKind::EcPoint => match read_bytes(memory, address, 64) {
            Ok(bytes) => Ok(
                JitValue::EcPoint(felt_from_bytes(&bytes, 0), felt_from_bytes(&bytes, 1)),
            ),
            Err(error) => Err(error),
        },
        TypeKind::EcState => match read_bytes(memory, address, 128) {
            Ok(bytes) => Ok(
                JitValue::EcState(
                    felt_from_bytes(&bytes, 0),
                    felt_from_bytes(&bytes, 1),
                    felt_from_bytes(&bytes, 2),
                    felt_from_bytes(&bytes, 3),
                ),
            ),
            Err(error) => Err(error),
        },
        TypeKind::Felt252
        | TypeKind::ClassHash
        | TypeKind::ContractAddress
        | TypeKind::StorageAddress
        | TypeKind::StorageBaseAddress => match read_bytes(memory, address, 32) {
            Ok(bytes) => Ok(JitValue::Felt252(felt_from_bytes(&bytes, 0))),
            Err(error) => Err(error),
        },
        _ => match info.kind.int_kind() {
            Some(kind) => match read_bytes(memory, address, (kind.bits() / 8) as u64) {
                Ok(bytes) => Ok(int_from_image(kind, bytes.as_slice())),
                Err(error) => Err(error),
            },
            None => Err(DecodeError::UnsupportedType),
        },
    }
}

/// Decodes the `len` elements of an array of type `parent` from `pointer` on.
fn deserialize_elements(
    registry: &TypeRegistry,
    memory: &Memory,
    parent: TypeId,
    element: TypeId,
    pointer: u64,
    len: u32,
) -> (result: Result<Vec<JitValue>, DecodeError>)
    requires
        registry.wf(),
        parent < registry.types@.len(),
        element < parent,
    ensures
        match decode_elements(
            registry.types@,
            *memory,
            parent as int,
            element as int,
            pointer as int,
            len as int,
            Seq::empty(),
        ) {
            Ok(items) => result matches Ok(decoded) && views(decoded@) == items,
            Err(error) => result matches Err(e) && e == error,
        },
    decreases parent, 0int,
{
    let ghost types = registry.types@;
    proof {
        assert(entry_wf(types, registry.arch, element as int));
    }
    let layout = registry.types[element].layout;
    let step: u64 = layout.pad_to_align().size;
    let mut items: Vec<JitValue> = Vec::new();
    let mut cursor: u128 = pointer as u128;
    let mut remaining: u32 = len;
    assert(views(items@) =~= Seq::<ValueView>::empty());
    while remaining > 0
        invariant
            registry.wf(),
            types == registry.types@,
            element < parent < types.len(),
            step == stride(types[element as int].layout),
            step <= 0xffff_ffff,
            cursor + remaining * 0x1_0000_0000 <= 0x1_0000_0000_0000_0000 + len * 0x1_0000_0000,
            remaining <= len,
            decode_elements(
                types,
                *memory,
                parent as int,
                element as int,
                cursor as int,
                remaining as int,
                views(items@),
            ) == decode_elements(
                types,
                *memory,
                parent as int,
                element as int,
                pointer as int,
                len as int,
                Seq::empty(),
            ),
        decreases remaining,
    {
        if cursor > u64::MAX as u128 {
            assert(decode_spec(types, *memory, element as int, cursor as int) == Err::<
                ValueView,
                DecodeError,
            >(DecodeError::AddressOverflow));
            return Err(DecodeError::AddressOverflow);
        }
        match deserialize(registry, memory, element, cursor as u64) {
            Ok(item) => {
                let ghost before = items@;
                let ghost seen = item@;
                items.push(item);
                assert(views(items@) =~= views(before).push(seen));
            },
            Err(error) => {
                return Err(error);
            },
        }
        cursor = cursor + step as u128;
        remaining = remaining - 1;
    }
    Ok(items)
}

/// Decodes the members of a struct of type `type_id` at `address`.
fn deserialize_fields(
    registry: &TypeRegistry,
    memory: &Memory,
    type_id: TypeId,
    members: &Vec<TypeId>,
    address: u64,
) -> (result: Result<Vec<JitValue>, DecodeError>)
    requires
        registry.wf(),
        type_id < registry.types@.len(),
        registry.types@[type_id as int].kind == TypeKind::Struct(*members),
    ensures
        match decode_fields(
            registry.types@,
            *memory,
            type_id as int,
            members@,
            address as int,
            0,
            Seq::empty(),
        ) {
            Ok(fields) => result matches Ok(decoded) && views(decoded@) == fields,
            Err(error) => result matches Err(e) && e == error,
        },
    decreases type_id, 0int,
{
    let ghost types = registry.types@;
    let size: u64 = registry.types[type_id].layout.size;
    proof {
        assert(entry_wf(types, registry.arch, type_id as int));
        assert(types[type_id as int].kind.children() == members@);
        assert forall|i: int| 0 <= i < members@.len() implies #[trigger] members@[i]
            < type_id by {
            assert(types[type_id as int].kind.children()[i] < type_id);
        }
        assert forall|i: int| 0 <= i < members@.len() implies (#[trigger] types[members@[i] as int]).layout.wf() by {
            assert(members@[i] < type_id);
            assert(entry_wf(types, registry.arch, members@[i] as int));
        }
    }
    let mut fields: Vec<JitValue> = Vec::new();
    let mut end: u64 = 0;
    let mut index: usize = 0;
    assert(views(fields@) =~= Seq::<ValueView>::empty());
    while index < members.len()
        invariant
            registry.wf(),
            types == registry.types@,
            type_id < types.len(),
            size <= crate::types::MAX_TYPE_SIZE,
            index <= members@.len(),
            forall|i: int| 0 <= i < members@.len() ==> #[trigger] members@[i] < type_id,
            forall|i: int|
                0 <= i < members@.len() ==> (#[trigger] types[members@[i] as int]).layout.wf(),
            fields_end(types, members@, members@.len() as int) <= size,
            end == fields_end(types, members@, index as int),
            decode_fields(
                types,
                *memory,
                type_id as int,
                members@,
                address as int,
                index as int,
                views(fields@),
            ) == decode_fields(
                types,
                *memory,
                type_id as int,
                members@,
                address as int,
                0,
                Seq::empty(),
            ),
        decreases members@.len() - index,
    {
        let member: usize = members[index];
        proof {
            assert(members@[index as int] < type_id);
            assert(entry_wf(types, registry.arch, member as int));
            lemma_fields_end_monotone(types, members@, index as int, members@.len() as int);
        }
        let member_layout = registry.types[member].layout;
        let offset: u64 = round_up_to(end, member_layout.align);
        if offset > u64::MAX - address {
            assert(decode_spec(types, *memory, member as int, address + offset) == Err::<
                ValueView,
                DecodeError,
            >(DecodeError::AddressOverflow));
            return Err(DecodeError::AddressOverflow);
        }
        match deserialize(registry, memory, member, address + offset) {
            Ok(field) => {
                let ghost before = fields@;
                let ghost seen = field@;
                fields.push(field);
                assert(views(fields@) =~= views(before).push(seen));
            },
            Err(error) => {
                return Err(error);
            },
        }
        end = offset + member_layout.size;
        index = index + 1;
    }
    Ok(fields)
}

/// A decoded return value.
#[derive(Debug, PartialEq, Eq)]
pub struct ParsedResult {
    /// The value.
    pub value: JitValue,
    /// The address of the heap block that held a boxed or nullable value: the
    /// value has been copied out of it, and the caller frees it.
    pub release: Option<u64>,
}

/// The pointer that a function returns: what the return slot holds where there
/// is one, the first return register where there is none.
pub open spec fn returned_pointer(memory: Memory, return_ptr: Option<u64>, registers: Seq<u64>) -> Result<
    u64,
    DecodeError,
> {
    match return_ptr {
        Some(slot) => match read_at(memory, slot as int, 8) {
            Ok(bytes) => Ok(spec_u64_from_le_bytes(bytes)),
            Err(error) => Err(error),
        },
        None => Ok(registers[0]),
    }
}

/// The number that the return registers hold for an integer of the given kind.
pub open spec fn register_int(kind: IntKind, registers: Seq<u64>) -> int {
    kind.from_raw(
        if kind.bits_spec() <= 64 {
            registers[0] as int
        } else {
            registers[0] + registers[1] * word_modulus()
        },
    )
}

/// The value of type `id` that a function returned, and the heap block to free.
///
/// With a return slot the value is read from it. Without one, integers come
/// from the first one or two return registers, a field element from the four
/// return registers of the ARM-family target, pointers from the first
/// register, and the tag of an enum from the low bytes of the first register,
/// its payload being without size.
pub open spec fn parse_result_spec(
    types: Seq<TypeInfo>,
    arch: Arch,
    memory: Memory,
    id: int,
    return_ptr: Option<u64>,
    registers: Seq<u64>,
) -> Result<(ValueView, Option<u64>), DecodeError>
    decreases id,
{
    if id < 0 || id >= types.len() {
        Err(DecodeError::UnknownType)
    } else {
        let info = types[id];
        match info.kind {
            TypeKind::Array(_) | TypeKind::EcPoint | TypeKind::EcState => from_slot(
                types,
                memory,
                id,
                return_ptr,
            ),
            TypeKind::Struct(members) => if members@.len() == 0 {
                Ok((ValueView::Struct { fields: Seq::empty() }, None))
            } else {
                from_slot(types, memory, id, return_ptr)
            },
            TypeKind::Enum(variants) => if info.memory_allocated {
                from_slot(types, memory, id, return_ptr)
            } else {
                let tag = tag_from_register(variants@.len(), registers[0]);
                if tag >= variants@.len() {
                    Err(DecodeError::InvalidTag)
                } else {
                    match decode_spec(
                        types,
                        memory,
                        variants@[tag] as int,
                        match return_ptr {
                            Some(slot) => slot as int,
                            None => DANGLING as int,
                        },
                    ) {
                        Ok(payload) => Ok(
                            (
                                ValueView::Enum { tag: tag as usize, value: Box::new(payload) },
                                None,
                            ),
                        ),
                        Err(error) => Err(error),
                    }
                }
            },
            TypeKind::NonZero(inner) => if inner >= id {
                Err(DecodeError::UnknownType)
            } else {
                parse_result_spec(types, arch, memory, inner as int, return_ptr, registers)
            },
            TypeKind::Snapshot(inner) => if inner >= id {
                Err(DecodeError::UnknownType)
            } else {
                parse_result_spec(types, arch, memory, inner as int, return_ptr, registers)
            },
            TypeKind::Box(inner) => match returned_pointer(memory, return_ptr, registers) {
                Ok(pointer) => if pointer == 0 {
                    Err(DecodeError::NullPointer)
                } else {
                    match decode_spec(types, memory, inner as int, pointer as int) {
                        Ok(value) => Ok((value, Some(pointer))),
                        Err(error) => Err(error),
                    }
                },
                Err(error) => Err(error),
            },
            TypeKind::Nullable(inner) => match returned_pointer(memory, return_ptr, registers) {
                Ok(pointer) => if pointer == 0 {
                    Ok((ValueView::Null, None))
                } else {
                    match decode_spec(types, memory, inner as int, pointer as int) {
                        Ok(value) => Ok((value, Some(pointer))),
                        Err(error) => Err(error),
                    }
                },
                Err(error) => Err(error),
            },
            TypeKind::Felt252Dict(_) => match returned_pointer(memory, return_ptr, registers) {
                Ok(pointer) => if pointer == 0 {
                    Err(DecodeError::NullPointer)
                } else {
                    Ok((ValueView::Felt252Dict { handle: pointer }, None))
                },
                Err(error) => Err(error),
            },
            _ => if info.kind.is_felt_like() {
                match return_ptr {
                    Some(slot) => from_slot(types, memory, id, return_ptr),
                    None => if arch is Aarch64 {
                        Ok(
                            (
                                ValueView::Felt252(
                                    Felt252::from_value(
                                        le_digits_value(registers.subrange(0, 4)),
                                    ),
                                ),
                                None,
                            ),
                        )
                    } else {
                        Err(DecodeError::MissingReturnSlot)
                    },
                }
            } else {
                match info.kind.int_kind_spec() {
                    Some(kind) => match return_ptr {
                        Some(slot) => from_slot(types, memory, id, return_ptr),
                        None => Ok((ValueView::of_int(kind, register_int(kind, registers)), None)),
                    },
                    None => Err(DecodeError::UnsupportedType),
                }
            },
        }
    }
}

/// The value of type `id` that the return slot holds.
pub open spec fn from_slot(types: Seq<TypeInfo>, memory: Memory, id: int, return_ptr: Option<u64>) -> Result<
    (ValueView, Option<u64>),
    DecodeError,
> {
    match return_ptr {
        Some(slot) => match decode_spec(types, memory, id, slot as int) {
            Ok(value) => Ok((value, None)),
            Err(error) => Err(error),
        },
        None => Err(DecodeError::MissingReturnSlot),
    }
}

/// Whether `result` is the outcome that `expected` describes.
pub open spec fn parsed_as(
    result: Result<ParsedResult, DecodeError>,
    expected: Result<(ValueView, Option<u64>), DecodeError>,
) -> bool {
    match expected {
        Ok((value, release)) => result matches Ok(parsed) && parsed.value@ == value
            && parsed.release == release,
        Err(error) => result matches Err(e) && e == error,
    }
}

/// Reads the value of type `type_id` from the return slot.
fn parse_slot(registry: &TypeRegistry, memory: &Memory, type_id: TypeId, return_ptr: Option<u64>) -> (result:
    Result<ParsedResult, DecodeError>)
    requires
        registry.wf(),
    ensures
        parsed_as(result, from_slot(registry.types@, *memory, type_id as int, return_ptr)),
{
    match return_ptr {
        Some(slot) => match deserialize(registry, memory, type_id, slot) {
            Ok(value) => Ok(ParsedResult { value, release: None }),
            Err(error) => Err(error),
        },
        None => Err(DecodeError::MissingReturnSlot),
    }
}

/// The pointer that a function returns.
fn parse_pointer(memory: &Memory, return_ptr: Option<u64>, ret_registers: &[u64]) -> (result:
    Result<u64, DecodeError>)
    requires
        ret_registers@.len() >= 2,
    ensures
        result == returned_pointer(*memory, return_ptr, ret_registers@),
{
    match return_ptr {
        Some(slot) => read_pointer(memory, slot),
        None => Ok(ret_registers[0]),
    }
}

/// Decodes the value of type `type_id` that a function returned.
///
/// `return_ptr` is the address of the return slot, or rather of the part of it
/// where the value begins, if a slot was allocated; `ret_registers` holds the
/// integer return registers after the call.
pub fn parse_result(
    type_id: TypeId,
    registry: &TypeRegistry,
    memory: &Memory,
    return_ptr: Option<u64>,
    ret_registers: &[u64],
) -> (result: Result<ParsedResult, DecodeError>)
    requires
        registry.wf(),
        ret_registers@.len() == registry.arch.return_registers_spec(),
    ensures
        parsed_as(
            result,
            parse_result_spec(
                registry.types@,
                registry.arch,
                *memory,
                type_id as int,
                return_ptr,
                ret_registers@,
            ),
        ),
    decreases type_id,
{
    if type_id >= registry.types.len() {
        return Err(DecodeError::UnknownType);
    }
    let info = &registry.types[type_id];
    proof {
        assert(entry_wf(registry.types@, registry.arch, type_id as int));
    }
    match &info.kind {
        TypeKind::Array(_) | TypeKind::EcPoint | TypeKind::EcState => parse_slot(
            registry,
            memory,
            type_id,
            return_ptr,
        ),
        TypeKind::Struct(members) => {
            if members.len() == 0 {
                let value = JitValue::Struct { fields: Vec::new() };
                proof {
                    value.lemma_view_items();
                    assert(views(Seq::<JitValue>::empty()) =~= Seq::<ValueView>::empty());
                }
                Ok(ParsedResult { value, release: None })
            } else {
                parse_slot(registry, memory, type_id, return_ptr)
            }
        },
        TypeKind::Enum(variants) => {
            if info.memory_allocated {
                parse_slot(registry, memory, type_id, return_ptr)
            } else {
                let size: u64 = tag_size_of(variants.len());
                let tag: u64 = if size == 0 {
                    0
                } else {
                    tag_from_word(size, ret_registers[0])
                };
                if tag >= variants.len() as u64 {
                    return Err(DecodeError::InvalidTag);
                }
                let address: u64 = match return_ptr {
                    Some(slot) => slot,
                    None => DANGLING,
                };
                match deserialize(registry, memory, variants[tag as usize], address) {
                    Ok(payload) => {
                        let value = JitValue::Enum { tag: tag as usize, value: Box::new(payload) };
                        proof {
                            value.lemma_view_items();
                        }
                        Ok(ParsedResult { value, release: None })
                    },
                    Err(error) => Err(error),
                }
            }
        },
        TypeKind::NonZero(inner) => {
            proof {
                assert(info.kind.children()[0] < type_id);
            }
            parse_result(*inner, registry, memory, return_ptr, ret_registers)
        },
        TypeKind::Snapshot(inner) => {
            proof {
                assert(info.kind.children()[0] < type_id);
            }
            parse_result(*inner, registry, memory, return_ptr, ret_registers)
        },
        TypeKind::Box(inner) => match parse_pointer(memory, return_ptr, ret_registers) {
            Ok(pointer) => {
                if pointer == 0 {
                    Err(DecodeError::NullPointer)
                } else {
                    match deserialize(registry, memory, *inner, pointer) {
                        Ok(value) => Ok(ParsedResult { value, release: Some(pointer) }),
                        Err(error) => Err(error),
                    }
                }
            },
            Err(error) => Err(error),
        },
        TypeKind::Nullable(inner) => match parse_pointer(memory, return_ptr, ret_registers) {
            Ok(pointer) => {
                if pointer == 0 {
                    Ok(ParsedResult { value: JitValue::Null, release: None })
                } else {
                    match deserialize(registry, memory, *inner, pointer) {
                        Ok(value) => Ok(ParsedResult { value, release: Some(pointer) }),
                        Err(error) => Err(error),
                    }
                }
            },
            Err(error) => Err(error),
        },
        TypeKind::Felt252Dict(_) => match parse_pointer(memory, return_ptr, ret_registers) {
            Ok(pointer) => {
                if pointer == 0 {
                    Err(DecodeError::NullPointer)
                } else {
                    Ok(
                        ParsedResult {
                            value: JitValue::Felt252Dict { handle: pointer },
                            release: None,
                        },
                    )
                }
            },
            Err(error) => Err(error),
        },
        TypeKind::Felt252
        | TypeKind::ClassHash
        | TypeKind::ContractAddress
        | TypeKind::StorageAddress
        | TypeKind::StorageBaseAddress => match return_ptr {
            Some(slot) => parse_slot(registry, memory, type_id, return_ptr),
            None => match registry.arch {
                Arch::Aarch64 => {
                    let digits: [u64; 4] = [
                        ret_registers[0],
                        ret_registers[1],
                        ret_registers[2],
                        ret_registers[3],
                    ];
                    assert(digits@ =~= ret_registers@.subrange(0, 4));
                    Ok(
                        ParsedResult {
                            value: JitValue::Felt252(Felt252::from_le_digits(digits)),
                            release: None,
                        },
                    )
                },
                Arch::X86_64 => Err(DecodeError::MissingReturnSlot),
            },
        },
        _ => match info.kind.int_kind() {
            Some(kind) => match return_ptr {
                Some(slot) => parse_slot(registry, memory, type_id, return_ptr),
                None => {
                    let high: u64 = if kind.bits() <= 64 {
                        0
                    } else {
                        ret_registers[1]
                    };
                    Ok(
                        ParsedResult {
                            value: JitValue::from_int_words(kind, ret_registers[0], high),
                            release: None,
                        },
                    )
                },
            },
            None => Err(DecodeError::UnsupportedType),
        },
    }
}

} // verus!
