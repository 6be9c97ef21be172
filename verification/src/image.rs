//! The form of values in memory.
//!
//! A value in memory occupies as many bytes as the layout of its type says.
//! Integers and field elements are little-endian; a struct holds its members at
//! the offsets that their alignments give; an enum holds its tag, then the
//! payload of the active variant at the offset that its alignment gives; an array
//! is a pointer to its elements, each padded to the element's alignment, with
//! length and capacity as 32-bit numbers behind the pointer.
use crate::error::EncodeError;
use crate::felt::{le_digits_bytes, Felt252};
use crate::layout::{align_up, round_up_to, Layout};
use crate::memory::{place, zeros, Arena, ScratchView};
use crate::scalar::{int_bytes, int_image, lemma_words_value, IntKind};
use crate::types::{
    entry_wf, field_offset, fields_end, lemma_fields_end_monotone, payload_offset, tag_size,
    tag_size_of, TypeId, TypeInfo, TypeKind, TypeRegistry,
};
use crate::values::{views, JitValue, ValueView};
use vstd::bytes::*;
use vstd::prelude::*;

verus! {

/// Distance in bytes between two neighbours of an array of this layout.
pub open spec fn stride(layout: Layout) -> int {
    align_up(layout.size as int, layout.align as int)
}

/// `image` followed by zero bytes up to `len` bytes.
pub open spec fn padded(image: Seq<u8>, len: int) -> Seq<u8> {
    image + zeros(len - image.len())
}

/// The unsigned integer kind of the given size in bytes.
pub open spec fn tag_kind(size: u64) -> Option<IntKind> {
    if size == 1 {
        Some(IntKind::U8)
    } else if size == 2 {
        Some(IntKind::U16)
    } else if size == 4 {
        Some(IntKind::U32)
    } else if size == 8 {
        Some(IntKind::U64)
    } else {
        None
    }
}

/// The bytes of the tag `tag` of an enum with `count` variants.
pub open spec fn tag_bytes(count: nat, tag: int) -> Seq<u8> {
    match tag_kind(tag_size(count)) {
        Some(kind) => int_bytes(kind, tag),
        None => Seq::empty(),
    }
}

/// The bytes of a field element.
pub open spec fn felt_bytes(felt: Felt252) -> Seq<u8> {
    le_digits_bytes(felt.digits())
}

/// The bytes of an array: the address of its elements, its length, and its
/// capacity, which equals the length.
pub open spec fn array_bytes(address: u64, len: int) -> Seq<u8> {
    spec_u64_to_le_bytes(address) + spec_u32_to_le_bytes(len as u32) + spec_u32_to_le_bytes(
        len as u32,
    )
}

/// The bytes of an enum of `size` bytes with `count` variants: the tag at the
/// start, the payload at `offset`, zero elsewhere.
pub open spec fn enum_bytes(size: int, count: nat, tag: int, offset: int, payload: Seq<u8>) -> Seq<
    u8,
> {
    place(place(zeros(size), 0, tag_bytes(count, tag)), offset, payload)
}

/// Why the form of a value could not be made, and the scratch memory as it was
/// left.
pub struct ImageFailure {
    /// What went wrong.
    pub error: EncodeError,
    /// The scratch memory: what was stored before the failure stays stored.
    pub scratch: ScratchView,
}

/// The bytes of `value` as a value of type `id`, and the scratch memory after
/// the elements of the arrays in it have been stored; or why there are none,
/// and the scratch memory at that point.
pub open spec fn image_spec(
    types: Seq<TypeInfo>,
    scratch: ScratchView,
    id: int,
    value: ValueView,
) -> Result<(Seq<u8>, ScratchView), ImageFailure>
    decreases id, 2int, 0int,
{
    if id < 0 || id >= types.len() {
        Err(ImageFailure { error: EncodeError::UnknownType, scratch })
    } else {
        let info = types[id];
        match info.kind {
            TypeKind::Array(element) => match value {
                ValueView::Array(items) => if items.len() > u32::MAX {
                    Err(ImageFailure { error: EncodeError::ValueTooLarge, scratch })
                } else {
                    match array_storage(types, scratch, id, element as int, items) {
                        Ok((address, after)) => Ok(
                            (array_bytes(address, items.len() as int), after),
                        ),
                        Err(error) => Err(error),
                    }
                },
                _ => Err(ImageFailure { error: EncodeError::TypeMismatch, scratch }),
            },
            TypeKind::Struct(members) => match value {
                ValueView::Struct { fields } => fields_image(
                    types,
                    scratch,
                    id,
                    members@,
                    fields,
                    0,
                    zeros(info.layout.size as int),
                ),
                _ => Err(ImageFailure { error: EncodeError::TypeMismatch, scratch }),
            },
            TypeKind::Enum(variants) => match value {
                ValueView::Enum { tag, value: payload } => if tag >= variants@.len() {
                    Err(ImageFailure { error: EncodeError::TypeMismatch, scratch })
                } else if variants@[tag as int] >= id {
                    Err(ImageFailure { error: EncodeError::UnknownType, scratch })
                } else {
                    match image_spec(types, scratch, variants@[tag as int] as int, *payload) {
                        Ok((image, after)) => Ok(
                            (
                                enum_bytes(
                                    info.layout.size as int,
                                    variants@.len(),
                                    tag as int,
                                    payload_offset(
                                        tag_size(variants@.len()),
                                        types[variants@[tag as int] as int].layout,
                                    ),
                                    image,
                                ),
                                after,
                            ),
                        ),
                        Err(error) => Err(error),
                    }
                },
                _ => Err(ImageFailure { error: EncodeError::TypeMismatch, scratch }),
            },
            TypeKind::NonZero(inner) => if inner >= id {
                Err(ImageFailure { error: EncodeError::UnknownType, scratch })
            } else {
                image_spec(types, scratch, inner as int, value)
            },
            TypeKind::Snapshot(inner) => if inner >= id {
                Err(ImageFailure { error: EncodeError::UnknownType, scratch })
            } else {
                image_spec(types, scratch, inner as int, value)
            },
            TypeKind::EcPoint => match value {
                ValueView::EcPoint(x, y) => Ok((felt_bytes(x) + felt_bytes(y), scratch)),
                _ => Err(ImageFailure { error: EncodeError::TypeMismatch, scratch }),
            },
            TypeKind::EcState => match value {
                ValueView::EcState(x, y, x0, y0) => Ok(
                    (felt_bytes(x) + felt_bytes(y) + felt_bytes(x0) + felt_bytes(y0), scratch),
                ),
                _ => Err(ImageFailure { error: EncodeError::TypeMismatch, scratch }),
            },
            _ => if info.kind.is_felt_like() {
                match value {
                    ValueView::Felt252(felt) => Ok((felt_bytes(felt), scratch)),
                    _ => Err(ImageFailure { error: EncodeError::TypeMismatch, scratch }),
                }
            } else if info.kind.int_kind_spec() is Some {
                match value.as_int() {
                    Some((kind, number)) => if info.kind.int_kind_spec() == Some(kind) {
                        Ok((int_bytes(kind, number), scratch))
                    } else {
                        Err(ImageFailure { error: EncodeError::TypeMismatch, scratch })
                    },
                    None => Err(ImageFailure { error: EncodeError::TypeMismatch, scratch }),
                }
            } else if info.kind.is_unit_builtin() {
                Ok((Seq::empty(), scratch))
            } else {
                Err(ImageFailure { error: EncodeError::UnsupportedType, scratch })
            },
        }
    }
}

/// The address at which the elements of an array of type `parent` are stored,
/// and the scratch memory after that. An empty array has the null address and
/// stores nothing.
pub open spec fn array_storage(
    types: Seq<TypeInfo>,
    scratch: ScratchView,
    parent: int,
    element: int,
    items: Seq<ValueView>,
) -> Result<(u64, ScratchView), ImageFailure>
    decreases parent, 1int, items.len() + 1,
{
    match elements_image(types, scratch, parent, element, items, 0, Seq::empty()) {
        Ok((storage, after)) => if items.len() == 0 {
            Ok((0, after))
        } else if after.can_store(types[element].layout.align, storage.len() as int) {
            Ok(
                (
                    after.store_address(types[element].layout.align),
                    after.store(types[element].layout.align, storage),
                ),
            )
        } else {
            Err(ImageFailure { error: EncodeError::ScratchExhausted, scratch: after })
        },
        Err(error) => Err(error),
    }
}

/// `storage` followed by the elements of an array from `index` on, each padded
/// to the stride of the element type.
pub open spec fn elements_image(
    types: Seq<TypeInfo>,
    scratch: ScratchView,
    parent: int,
    element: int,
    items: Seq<ValueView>,
    index: int,
    storage: Seq<u8>,
) -> Result<(Seq<u8>, ScratchView), ImageFailure>
    decreases parent, 1int, items.len() - index,
{
    if index < 0 || index >= items.len() {
        Ok((storage, scratch))
    } else if element < 0 || element >= parent {
        Err(ImageFailure { error: EncodeError::UnknownType, scratch })
    } else {
        match image_spec(types, scratch, element, items[index]) {
            Ok((image, after)) => elements_image(
                types,
                after,
                parent,
                element,
                items,
                index + 1,
                storage + padded(image, stride(types[element].layout)),
            ),
            Err(error) => Err(error),
        }
    }
}

/// `image` with the members of a struct from `index` on placed at their
/// offsets. Members and fields are paired up as far as both go.
pub open spec fn fields_image(
    types: Seq<TypeInfo>,
    scratch: ScratchView,
    parent: int,
    members: Seq<TypeId>,
    fields: Seq<ValueView>,
    index: int,
    image: Seq<u8>,
) -> Result<(Seq<u8>, ScratchView), ImageFailure>
    decreases parent, 1int, members.len() - index,
{
    if index < 0 || index >= members.len() || index >= fields.len() {
        Ok((image, scratch))
    } else if members[index] >= parent {
        Err(ImageFailure { error: EncodeError::UnknownType, scratch })
    } else {
        match image_spec(types, scratch, members[index] as int, fields[index]) {
            Ok((part, after)) => fields_image(
                types,
                after,
                parent,
                members,
                fields,
                index + 1,
                place(image, field_offset(types, members, index), part),
            ),
            Err(error) => Err(error),
        }
    }
}

/// `count` zero bytes.
pub fn zero_bytes(count: usize) -> (bytes: Vec<u8>)
    ensures
        bytes@ == zeros(count as int),
{
    let mut bytes: Vec<u8> = Vec::new();
    let mut index: usize = 0;
    while index < count
        invariant
            index <= count,
            bytes@ == zeros(index as int),
        decreases count - index,
    {
        bytes.push(0);
        index = index + 1;
        assert(bytes@ =~= zeros(index as int));
    }
    bytes
}

/// Extends `bytes` with zero bytes up to `len` bytes.
pub fn pad_bytes(bytes: &mut Vec<u8>, len: usize)
    requires
        old(bytes)@.len() <= len,
    ensures
        final(bytes)@ == padded(old(bytes)@, len as int),
        final(bytes)@.len() == len,
{
    while bytes.len() < len
        invariant
            old(bytes)@.len() <= bytes@.len() <= len,
            bytes@ == padded(old(bytes)@, bytes@.len() as int),
        decreases len - bytes@.len(),
    {
        bytes.push(0);
        assert(bytes@ =~= padded(old(bytes)@, bytes@.len() as int));
    }
    assert(old(bytes)@ =~= padded(old(bytes)@, old(bytes)@.len() as int));
}

/// Overwrites the bytes of `image` from `offset` on with `part`.
pub fn place_bytes(image: &mut Vec<u8>, offset: usize, part: &Vec<u8>)
    requires
        offset + part@.len() <= old(image)@.len(),
    ensures
        final(image)@ == place(old(image)@, offset as int, part@),
        final(image)@.len() == old(image)@.len(),
{
    let mut index: usize = 0;
    let len: usize = image.len();
    while index < part.len()
        invariant
            index <= part@.len(),
            len == image@.len(),
            offset + part@.len() <= image@.len(),
            image@.len() == old(image)@.len(),
            image@ == place(old(image)@, offset as int, part@.subrange(0, index as int)),
        decreases part@.len() - index,
    {
        image.set(offset + index, part[index]);
        index = index + 1;
        assert(image@ =~= place(old(image)@, offset as int, part@.subrange(0, index as int)));
    }
    assert(part@.subrange(0, part@.len() as int) =~= part@);
    assert(old(image)@ =~= place(old(image)@, offset as int, part@.subrange(0, 0)));
}

/// The bytes of an array at `address` with `len` elements.
pub fn array_image(address: u64, len: u32) -> (bytes: Vec<u8>)
    ensures
        bytes@ == array_bytes(address, len as int),
        bytes@.len() == 16,
{
    let mut bytes: Vec<u8> = u64_to_le_bytes(address);
    let mut part: Vec<u8> = u32_to_le_bytes(len);
    bytes.append(&mut part);
    let mut part: Vec<u8> = u32_to_le_bytes(len);
    bytes.append(&mut part);
    proof {
        lemma_auto_spec_u32_to_from_le_bytes();
        assert(spec_u32_to_le_bytes(len).len() == 4);
        assert(bytes@ =~= array_bytes(address, len as int));
    }
    bytes
}

/// The bytes of the tag `tag` of an enum with `count` variants.
pub fn tag_image(count: usize, tag: usize) -> (bytes: Vec<u8>)
    ensures
        bytes@ == tag_bytes(count as nat, tag as int),
        bytes@.len() == tag_size(count as nat),
{
    let size: u64 = tag_size_of(count);
    proof {
        lemma_words_value(IntKind::U8, tag as int);
        lemma_words_value(IntKind::U16, tag as int);
        lemma_words_value(IntKind::U32, tag as int);
        lemma_words_value(IntKind::U64, tag as int);
        assert(crate::scalar::low_word(tag as int) == tag as u64 && crate::scalar::high_word(
            tag as int,
        ) == 0);
    }
    if size == 1 {
        int_image(IntKind::U8, tag as u64, 0)
    } else if size == 2 {
        int_image(IntKind::U16, tag as u64, 0)
    } else if size == 4 {
        int_image(IntKind::U32, tag as u64, 0)
    } else if size == 8 {
        int_image(IntKind::U64, tag as u64, 0)
    } else {
        Vec::new()
    }
}

/// The bytes of `value` as a value of type `type_id`.
///
/// The elements of the arrays in `value` are stored in `arena`, innermost
/// first; nothing else is stored.
pub fn serialize(
    registry: &TypeRegistry,
    arena: &mut Arena,
    type_id: TypeId,
    value: &JitValue,
) -> (result: Result<Vec<u8>, EncodeError>)
    requires
        registry.wf(),
        old(arena).wf(),
    ensures
        final(arena).wf(),
        final(arena).base == old(arena).base,
        final(arena).capacity == old(arena).capacity,
        match image_spec(registry.types@, old(arena)@, type_id as int, value@) {
            Ok((image, scratch)) => {
                &&& result matches Ok(bytes)
                &&& bytes@ == image
                &&& final(arena)@ == scratch
                &&& bytes@.len() == registry.types@[type_id as int].layout.size
            },
            Err(failure) => result matches Err(e) && e == failure.error && final(arena)@
                == failure.scratch,
        },
    decreases type_id, 1int,
{
    if type_id >= registry.types.len() {
        return Err(EncodeError::UnknownType);
    }
    let info = &registry.types[type_id];
    proof {
        assert(entry_wf(registry.types@, registry.arch, type_id as int));
        value.lemma_view_items();
    }
    match &info.kind {
        TypeKind::Array(element) => match value {
            JitValue::Array(items) => {
                if items.len() as u64 > 0xffff_ffff {
                    return Err(EncodeError::ValueTooLarge);
                }
                proof {
                    assert(info.kind.children()[0] < type_id);
                }
                match store_elements(registry, arena, type_id, *element, items) {
                    Ok(address) => Ok(array_image(address, items.len() as u32)),
                    Err(error) => Err(error),
                }
            },
            _ => Err(EncodeError::TypeMismatch),
        },
        TypeKind::Struct(members) => match value {
            JitValue::Struct { fields } => serialize_struct(
                registry,
                arena,
                type_id,
                members,
                fields,
            ),
            _ => Err(EncodeError::TypeMismatch),
        },
        TypeKind::Enum(variants) => match value {
            JitValue::Enum { tag, value: payload } => {
                if *tag >= variants.len() {
                    return Err(EncodeError::TypeMismatch);
                }
                let variant: usize = variants[*tag];
                proof {
                    assert(info.kind.children()[*tag as int] < type_id);
                    assert(entry_wf(registry.types@, registry.arch, variant as int));
                }
                let variant_layout = registry.types[variant].layout;
                match serialize(registry, arena, variant, payload) {
                    Ok(part) => {
                        let mut image: Vec<u8> = zero_bytes(info.layout.size as usize);
                        let tag_part: Vec<u8> = tag_image(variants.len(), *tag);
                        place_bytes(&mut image, 0, &tag_part);
                        let offset: u64 = round_up_to(tag_part.len() as u64, variant_layout.align);
                        place_bytes(&mut image, offset as usize, &part);
                        Ok(image)
                    },
                    Err(error) => Err(error),
                }
            },
            _ => Err(EncodeError::TypeMismatch),
        },
        TypeKind::NonZero(inner) => {
            proof {
                assert(info.kind.children()[0] < type_id);
            }
            serialize(registry, arena, *inner, value)
        },
        TypeKind::Snapshot(inner) => {
            proof {
                assert(info.kind.children()[0] < type_id);
            }
            serialize(registry, arena, *inner, value)
        },
        TypeKind::EcPoint => match value {
            JitValue::EcPoint(x, y) => {
                let mut bytes: Vec<u8> = x.to_bytes_le();
                let mut part: Vec<u8> = y.to_bytes_le();
                bytes.append(&mut part);
                assert(bytes@ =~= felt_bytes(*x) + felt_bytes(*y));
                Ok(bytes)
            },
            _ => Err(EncodeError::TypeMismatch),
        },
        TypeKind::EcState => match value {
            JitValue::EcState(x, y, x0, y0) => {
                let mut bytes: Vec<u8> = x.to_bytes_le();
                let mut part: Vec<u8> = y.to_bytes_le();
                bytes.append(&mut part);
                let mut part: Vec<u8> = x0.to_bytes_le();
                bytes.append(&mut part);
                let mut part: Vec<u8> = y0.to_bytes_le();
                bytes.append(&mut part);
                assert(bytes@ =~= felt_bytes(*x) + felt_bytes(*y) + felt_bytes(*x0) + felt_bytes(
                    *y0,
                ));
                Ok(bytes)
            },
            _ => Err(EncodeError::TypeMismatch),
        },
        TypeKind::Felt252
        | TypeKind::ClassHash
        | TypeKind::ContractAddress
        | TypeKind::StorageAddress
        | TypeKind::StorageBaseAddress => match value {
            JitValue::Felt252(felt) => Ok(felt.to_bytes_le()),
            _ => Err(EncodeError::TypeMismatch),
        },
        TypeKind::Bitwise
        | TypeKind::BuiltinCosts
        | TypeKind::EcOp
        | TypeKind::Pedersen
        | TypeKind::Poseidon
        | TypeKind::RangeCheck
        | TypeKind::SegmentArena => Ok(Vec::new()),
        _ => match info.kind.int_kind() {
            Some(kind) => match value.int_words() {
                Some((value_kind, low, high)) => {
                    if value_kind == kind {
                        proof {
                            lemma_words_value(kind, value@.as_int().unwrap().1);
                        }
                        Ok(int_image(kind, low, high))
                    } else {
                        Err(EncodeError::TypeMismatch)
                    }
                },
                None => Err(EncodeError::TypeMismatch),
            },
            None => Err(EncodeError::UnsupportedType),
        },
    }
}

/// The bytes of a struct of type `type_id` with the given members and fields.
fn serialize_struct(
    registry: &TypeRegistry,
    arena: &mut Arena,
    type_id: TypeId,
    members: &Vec<TypeId>,
    fields: &Vec<JitValue>,
) -> (result: Result<Vec<u8>, EncodeError>)
    requires
        registry.wf(),
        old(arena).wf(),
        type_id < registry.types@.len(),
        registry.types@[type_id as int].kind == TypeKind::Struct(*members),
    ensures
        final(arena).wf(),
        final(arena).base == old(arena).base,
        final(arena).capacity == old(arena).capacity,
        match fields_image(
            registry.types@,
            old(arena)@,
            type_id as int,
            members@,
            views(fields@),
            0,
            zeros(registry.types@[type_id as int].layout.size as int),
        ) {
            Ok((image, scratch)) => {
                &&& result matches Ok(bytes)
                &&& bytes@ == image
                &&& final(arena)@ == scratch
                &&& bytes@.len() == registry.types@[type_id as int].layout.size
            },
            Err(failure) => result matches Err(e) && e == failure.error && final(arena)@
                == failure.scratch,
        },
    decreases type_id, 0int,
{
    let ghost types = registry.types@;
    let info = &registry.types[type_id];
    let size: u64 = info.layout.size;
    proof {
        assert(entry_wf(types, registry.arch, type_id as int));
        assert(info.kind.children() == members@);
        assert forall|i: int| 0 <= i < members@.len() implies (#[trigger] types[members@[i] as int]).layout.wf() by {
            assert(info.kind.children()[i] < type_id);
            assert(entry_wf(types, registry.arch, members@[i] as int));
        }
    }
    let mut image: Vec<u8> = zero_bytes(size as usize);
    let mut end: u64 = 0;
    let mut index: usize = 0;
    while index < members.len() && index < fields.len()
        invariant
            registry.wf(),
            arena.wf(),
            arena.base == old(arena).base,
            arena.capacity == old(arena).capacity,
            types == registry.types@,
            type_id < types.len(),
            size == types[type_id as int].layout.size,
            size <= crate::types::MAX_TYPE_SIZE,
            index <= members@.len(),
            index <= fields@.len(),
            forall|i: int| 0 <= i < members@.len() ==> #[trigger] members@[i] < type_id,
            forall|i: int|
                0 <= i < members@.len() ==> (#[trigger] types[members@[i] as int]).layout.wf(),
            fields_end(types, members@, members@.len() as int) <= size,
            end == fields_end(types, members@, index as int),
            image@.len() == size,
            fields_image(
                types,
                arena@,
                type_id as int,
                members@,
                views(fields@),
                index as int,
                image@,
            ) == fields_image(
                types,
                old(arena)@,
                type_id as int,
                members@,
                views(fields@),
                0,
                zeros(size as int),
            ),
        decreases members@.len() - index,
    {
        let member: usize = members[index];
        proof {
            assert(members@[index as int] < type_id);
            assert(entry_wf(types, registry.arch, member as int));
            lemma_fields_end_monotone(types, members@, index as int, members@.len() as int);
        }
        let member_layout = registry.types[member].layout;
        let offset: u64 = round_up_to(end, member_layout.align);
        match serialize(registry, arena, member, &fields[index]) {
            Ok(part) => {
                place_bytes(&mut image, offset as usize, &part);
            },
            Err(error) => {
                return Err(error);
            },
        }
        end = offset + member_layout.size;
        index = index + 1;
    }
    Ok(image)
}

/// Stores the elements of an array of type `parent` in `arena` and returns
/// their address; the null address for an empty array.
pub fn store_elements(
    registry: &TypeRegistry,
    arena: &mut Arena,
    parent: TypeId,
    element: TypeId,
    items: &Vec<JitValue>,
) -> (result: Result<u64, EncodeError>)
    requires
        registry.wf(),
        old(arena).wf(),
        parent < registry.types@.len(),
        element < parent,
    ensures
        final(arena).wf(),
        final(arena).base == old(arena).base,
        final(arena).capacity == old(arena).capacity,
        match array_storage(
            registry.types@,
            old(arena)@,
            parent as int,
            element as int,
            views(items@),
        ) {
            Ok((address, scratch)) => result == Ok::<u64, EncodeError>(address) && final(arena)@
                == scratch,
            Err(failure) => result == Err::<u64, EncodeError>(failure.error) && final(arena)@
                == failure.scratch,
        },
    decreases parent, 0int,
{
    let ghost types = registry.types@;
    proof {
        assert(entry_wf(types, registry.arch, element as int));
    }
    let layout = registry.types[element].layout;
    let step: u64 = layout.pad_to_align().size;
    let mut storage: Vec<u8> = Vec::new();
    let mut index: usize = 0;
    while index < items.len()
        invariant
            registry.wf(),
            arena.wf(),
            arena.base == old(arena).base,
            arena.capacity == old(arena).capacity,
            types == registry.types@,
            element < parent < types.len(),
            layout == types[element as int].layout,
            layout.wf(),
            layout.size <= step <= 0xffff_ffff,
            step == stride(layout),
            index <= items@.len(),
            elements_image(
                types,
                arena@,
                parent as int,
                element as int,
                views(items@),
                index as int,
                storage@,
            ) == elements_image(
                types,
                old(arena)@,
                parent as int,
                element as int,
                views(items@),
                0,
                Seq::empty(),
            ),
        decreases items@.len() - index,
    {
        match serialize(registry, arena, element, &items[index]) {
            Ok(mut image) => {
                pad_bytes(&mut image, step as usize);
                storage.append(&mut image);
            },
            Err(error) => {
                return Err(error);
            },
        }
        index = index + 1;
    }
    if items.len() == 0 {
        return Ok(0);
    }
    match arena.store(layout.align, &storage) {
        Some(address) => Ok(address),
        None => Err(EncodeError::ScratchExhausted),
    }
}

} // verus!
