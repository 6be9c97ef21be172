//! Decoding what the encoder wrote to memory gives the value back.
use crate::arch::Arch;
use crate::decode::{decode_elements, decode_fields, decode_spec, read_at, tag_from_bytes};
use crate::error::DecodeError;
use crate::felt::{lemma_digits_bytes_digits, lemma_felt_round_trip, Felt252};
use crate::image::{
    array_bytes, array_storage, elements_image, felt_bytes, fields_image, image_spec,
    ImageFailure,
    padded, stride, tag_bytes, tag_kind,
};
use crate::layout::lemma_align_up;
use crate::memory::{place, zeros, Memory, ScratchView};
use crate::scalar::lemma_int_bytes;
use crate::types::{
    entry_wf, field_offset, fields_end, lemma_fields_end_monotone, payload_offset, tag_bits,
    tag_size, TypeId, TypeInfo, TypeKind,
};
use crate::values::ValueView;
use vstd::bytes::*;
use vstd::prelude::*;

verus! {

/// Every entry of a type table is a valid description given the entries before
/// it.
pub open spec fn types_wf(types: Seq<TypeInfo>, arch: Arch) -> bool {
    forall|id: int| 0 <= id < types.len() ==> entry_wf(types, arch, id)
}

/// The scratch memory lies within the address space, does not start at the
/// null address, and holds no more than it may.
pub open spec fn scratch_ok(scratch: ScratchView) -> bool {
    &&& scratch.base > 0
    &&& scratch.base + scratch.capacity <= u64::MAX
    &&& scratch.bytes.len() <= scratch.capacity
}

/// `after` is `before` with blocks appended.
pub open spec fn extends(after: ScratchView, before: ScratchView) -> bool {
    &&& after.base == before.base
    &&& after.capacity == before.capacity
    &&& before.bytes.len() <= after.bytes.len()
    &&& after.bytes.subrange(0, before.bytes.len() as int) == before.bytes
}

/// Appending to what has been appended to is appending.
pub proof fn lemma_extends_transitive(last: ScratchView, middle: ScratchView, first: ScratchView)
    requires
        extends(last, middle),
        extends(middle, first),
    ensures
        extends(last, first),
{
    assert(last.bytes.subrange(0, first.bytes.len() as int) =~= middle.bytes.subrange(
        0,
        first.bytes.len() as int,
    ));
}

/// Storing a block appends to the scratch memory and keeps it within bounds.
pub proof fn lemma_store_extends(scratch: ScratchView, align: u64, data: Seq<u8>)
    requires
        align == 1 || align == 2 || align == 4 || align == 8 || align == 16,
        scratch.can_store(align, data.len() as int),
    ensures
        extends(scratch.store(align, data), scratch),
        scratch_ok(scratch) ==> scratch_ok(scratch.store(align, data)),
        scratch.store(align, data).bytes.subrange(
            scratch.store_offset(align),
            scratch.store_offset(align) + data.len(),
        ) == data,
        scratch.bytes.len() <= scratch.store_offset(align),
        scratch.store(align, data).bytes.len() == scratch.store_offset(align) + data.len(),
{
    scratch.lemma_store_keeps(align, data);
    lemma_align_up(scratch.bytes.len() as int, align as int);
}

/// Placing a part keeps the length of an image, puts the part where it is
/// placed, and leaves the bytes before it as they are.
pub proof fn lemma_place(image: Seq<u8>, offset: int, part: Seq<u8>)
    requires
        0 <= offset,
        offset + part.len() <= image.len(),
    ensures
        place(image, offset, part).len() == image.len(),
        place(image, offset, part).subrange(offset, offset + part.len()) == part,
        place(image, offset, part).subrange(0, offset) == image.subrange(0, offset),
{
    let placed = place(image, offset, part);
    assert(placed.subrange(offset, offset + part.len()) =~= part);
    assert(placed.subrange(0, offset) =~= image.subrange(0, offset));
}

/// Whether the scratch memory of a failure is what was there with blocks
/// appended.
pub open spec fn failure_extends(failure: ImageFailure, scratch: ScratchView) -> bool {
    extends(failure.scratch, scratch) && (scratch_ok(scratch) ==> scratch_ok(failure.scratch))
}

/// The form of a value in memory is as long as its type says, and making it
/// appends to the scratch memory, also where it fails.
pub proof fn lemma_image_facts(
    types: Seq<TypeInfo>,
    arch: Arch,
    scratch: ScratchView,
    id: int,
    value: ValueView,
)
    requires
        types_wf(types, arch),
    ensures
        image_spec(types, scratch, id, value) matches Ok(made) ==> {
            &&& 0 <= id < types.len()
            &&& made.0.len() == types[id].layout.size
            &&& extends(made.1, scratch)
            &&& scratch_ok(scratch) ==> scratch_ok(made.1)
        },
        image_spec(types, scratch, id, value) matches Err(failure) ==> failure_extends(
            failure,
            scratch,
        ),
    decreases id, 1int, 0int,
{
    assert(scratch.bytes.subrange(0, scratch.bytes.len() as int) =~= scratch.bytes);
    if 0 <= id < types.len() && image_spec(types, scratch, id, value) is Err {
        let info = types[id];
        assert(entry_wf(types, arch, id));
        match info.kind {
            TypeKind::Array(element) => {
                assert(info.kind.children()[0] < id);
                if value is Array {
                    let items = value->Array_0;
                    lemma_elements_facts(
                        types,
                        arch,
                        scratch,
                        id,
                        element as int,
                        items,
                        0,
                        Seq::empty(),
                    );
                    if items.len() <= u32::MAX {
                        let stored = array_storage(types, scratch, id, element as int, items);
                        assert(stored is Err);
                        assert(failure_extends(stored->Err_0, scratch));
                    }
                }
            },
            TypeKind::Struct(members) => {
                if value is Struct {
                    lemma_fields_facts(
                        types,
                        arch,
                        scratch,
                        id,
                        members@,
                        value->fields,
                        0,
                        zeros(info.layout.size as int),
                    );
                }
            },
            TypeKind::Enum(variants) => {
                if value is Enum && value->tag < variants@.len() {
                    assert(info.kind.children()[value->tag as int] < id);
                    lemma_image_facts(
                        types,
                        arch,
                        scratch,
                        variants@[value->tag as int] as int,
                        *value->value,
                    );
                }
            },
            TypeKind::NonZero(inner) => {
                assert(info.kind.children()[0] < id);
                lemma_image_facts(types, arch, scratch, inner as int, value);
            },
            TypeKind::Snapshot(inner) => {
                assert(info.kind.children()[0] < id);
                lemma_image_facts(types, arch, scratch, inner as int, value);
            },
            _ => {},
        }
    }
    if 0 <= id < types.len() && image_spec(types, scratch, id, value) is Ok {
        let info = types[id];
        assert(entry_wf(types, arch, id));
        assert(scratch.bytes.subrange(0, scratch.bytes.len() as int) =~= scratch.bytes);
        match info.kind {
            TypeKind::Array(element) => {
                let items = value->Array_0;
                assert(info.kind.children()[0] < id);
                assert(array_storage(types, scratch, id, element as int, items) is Ok);
                assert(elements_image(
                    types,
                    scratch,
                    id,
                    element as int,
                    items,
                    0,
                    Seq::empty(),
                ) is Ok);
                lemma_elements_facts(
                    types,
                    arch,
                    scratch,
                    id,
                    element as int,
                    items,
                    0,
                    Seq::empty(),
                );
                let made = elements_image(
                    types,
                    scratch,
                    id,
                    element as int,
                    items,
                    0,
                    Seq::empty(),
                )->Ok_0;
                assert(entry_wf(types, arch, element as int));
                if items.len() != 0 {
                    lemma_store_extends(made.1, types[element as int].layout.align, made.0);
                    lemma_extends_transitive(
                        made.1.store(types[element as int].layout.align, made.0),
                        made.1,
                        scratch,
                    );
                }
                lemma_auto_spec_u32_to_from_le_bytes();
                lemma_auto_spec_u64_to_from_le_bytes();
                let len = items.len() as u32;
                assert(spec_u32_to_le_bytes(len).len() == 4);
                let address = array_storage(types, scratch, id, element as int, items)->Ok_0.0;
                assert(spec_u64_to_le_bytes(address).len() == 8);
                assert(array_bytes(address, items.len() as int).len() == 16);
            },
            TypeKind::Struct(members) => {
                let fields = value->fields;
                lemma_fields_facts(
                    types,
                    arch,
                    scratch,
                    id,
                    members@,
                    fields,
                    0,
                    zeros(info.layout.size as int),
                );
            },
            TypeKind::Enum(variants) => {
                let tag = value->tag;
                let payload = *value->value;
                let variant = variants@[tag as int] as int;
                lemma_image_facts(types, arch, scratch, variant, payload);
                assert(entry_wf(types, arch, variant));
                lemma_enum_bytes(types, arch, id, tag as int);
                let made = image_spec(types, scratch, variant, payload)->Ok_0;
                let offset = payload_offset(tag_size(variants@.len()), types[variant].layout);
                let tagged = place(
                    zeros(info.layout.size as int),
                    0,
                    tag_bytes(variants@.len(), tag as int),
                );
                lemma_place(
                    zeros(info.layout.size as int),
                    0,
                    tag_bytes(variants@.len(), tag as int),
                );
                lemma_place(tagged, offset, made.0);
            },
            TypeKind::NonZero(inner) => {
                lemma_image_facts(types, arch, scratch, inner as int, value);
            },
            TypeKind::Snapshot(inner) => {
                lemma_image_facts(types, arch, scratch, inner as int, value);
            },
            TypeKind::EcPoint => {
                let x = value->EcPoint_0;
                let y = value->EcPoint_1;
                x.lemma_digits_len();
                y.lemma_digits_len();
                lemma_digits_bytes_digits(x.digits());
                lemma_digits_bytes_digits(y.digits());
            },
            TypeKind::EcState => {
                let x = value->EcState_0;
                let y = value->EcState_1;
                let x0 = value->EcState_2;
                let y0 = value->EcState_3;
                x.lemma_digits_len();
                y.lemma_digits_len();
                x0.lemma_digits_len();
                y0.lemma_digits_len();
                lemma_digits_bytes_digits(x.digits());
                lemma_digits_bytes_digits(y.digits());
                lemma_digits_bytes_digits(x0.digits());
                lemma_digits_bytes_digits(y0.digits());
            },
            _ => {
                if info.kind.is_felt_like() {
                    let felt = value->Felt252_0;
                    felt.lemma_digits_len();
                    lemma_digits_bytes_digits(felt.digits());
                } else if info.kind.int_kind_spec() is Some {
                    let (kind, number) = value.as_int().unwrap();
                    value.lemma_of_int_as_int();
                    lemma_int_bytes(kind, number);
                }
            },
        }
    }
}

/// The tag of an enum fits into its tag bytes, which lie before every payload
/// within the enum.
pub proof fn lemma_enum_bytes(types: Seq<TypeInfo>, arch: Arch, id: int, tag: int)
    requires
        types_wf(types, arch),
        0 <= id < types.len(),
        types[id].kind is Enum,
        0 <= tag < types[id].kind->Enum_0@.len(),
    ensures
        ({
            let variants = types[id].kind->Enum_0@;
            let size = tag_size(variants.len());
            let offset = payload_offset(size, types[variants[tag] as int].layout);
            &&& tag_bytes(variants.len(), tag).len() == size
            &&& size <= offset
            &&& offset + types[variants[tag] as int].layout.size <= types[id].layout.size
            &&& tag_from_bytes(variants.len(), tag_bytes(variants.len(), tag)) == tag
            &&& variants[tag] < id
        }),
{
    let variants = types[id].kind->Enum_0@;
    let count = variants.len();
    let size = tag_size(count);
    assert(entry_wf(types, arch, id));
    assert(types[id].kind.children()[tag] < id);
    let variant = variants[tag] as int;
    assert(entry_wf(types, arch, variant));
    lemma_align_up(size as int, types[variant].layout.align as int);
    assert(payload_offset(size, types[variant].layout) + types[variant].layout.size
        <= types[id].layout.size);
    lemma_tag_count(count);
    let declared = types[id].kind->Enum_0;
    assert(declared.len() == declared@.len());
    crate::types::lemma_tag_bits_bound(count);
    vstd::arithmetic::power2::lemma2_to64();
    let bits = tag_bits(count);
    match tag_kind(size) {
        Some(kind) => {
            if bits < 8 {
                vstd::arithmetic::power2::lemma_pow2_strictly_increases(bits, 8);
            } else if 8 < bits < 16 {
                vstd::arithmetic::power2::lemma_pow2_strictly_increases(bits, 16);
            } else if 16 < bits < 32 {
                vstd::arithmetic::power2::lemma_pow2_strictly_increases(bits, 32);
            } else if 32 < bits < 64 {
                vstd::arithmetic::power2::lemma_pow2_strictly_increases(bits, 64);
            }
            assert(kind.holds(tag));
            lemma_int_bytes(kind, tag);
        },
        None => {
            assert(size == 0);
            assert(tag_bits(count) == 0);
        },
    }
}

/// The tag bits of an enum tell its variants apart: there are at most
/// `2^bits` of them.
pub proof fn lemma_tag_count(count: nat)
    ensures
        count <= vstd::arithmetic::power2::pow2(tag_bits(count)),
    decreases count,
{
    vstd::arithmetic::power2::lemma2_to64();
    if count > 1 {
        lemma_tag_count(((count + 1) / 2) as nat);
        vstd::arithmetic::power2::lemma_pow2_unfold(tag_bits(count));
    }
}

/// Making the form of the elements of an array appends them to what is there,
/// and appends to the scratch memory.
pub proof fn lemma_elements_facts(
    types: Seq<TypeInfo>,
    arch: Arch,
    scratch: ScratchView,
    parent: int,
    element: int,
    items: Seq<ValueView>,
    index: int,
    storage: Seq<u8>,
)
    requires
        types_wf(types, arch),
        0 <= parent < types.len(),
        0 <= index,
    ensures
        elements_image(types, scratch, parent, element, items, index, storage) matches Ok(made)
            ==> {
            &&& storage.len() <= made.0.len()
            &&& made.0.subrange(0, storage.len() as int) == storage
            &&& extends(made.1, scratch)
            &&& scratch_ok(scratch) ==> scratch_ok(made.1)
        },
        elements_image(types, scratch, parent, element, items, index, storage) matches Err(
            failure,
        ) ==> failure_extends(failure, scratch),
    decreases parent, 0int, items.len() - index,
{
    assert(scratch.bytes.subrange(0, scratch.bytes.len() as int) =~= scratch.bytes);
    assert(storage.subrange(0, storage.len() as int) =~= storage);
    if index < items.len() && 0 <= element < parent {
        match image_spec(types, scratch, element, items[index]) {
            Ok((image, after)) => {
                lemma_image_facts(types, arch, scratch, element, items[index]);
                let next = storage + padded(image, stride(types[element].layout));
                lemma_elements_facts(types, arch, after, parent, element, items, index + 1, next);
                match elements_image(types, after, parent, element, items, index + 1, next) {
                    Ok(made) => {
                        assert(entry_wf(types, arch, element));
                        lemma_align_up(
                            types[element].layout.size as int,
                            types[element].layout.align as int,
                        );
                        lemma_extends_transitive(made.1, after, scratch);
                        assert(made.0.subrange(0, storage.len() as int) =~= next.subrange(
                            0,
                            storage.len() as int,
                        ));
                        assert(next.subrange(0, storage.len() as int) =~= storage);
                    },
                    Err(failure) => {
                        lemma_extends_transitive(failure.scratch, after, scratch);
                    },
                }
            },
            Err(_) => {
                lemma_image_facts(types, arch, scratch, element, items[index]);
            },
        }
    }
}

/// Making the form of the members of a struct keeps the length of the image and
/// the bytes before the members that are placed, and appends to the scratch
/// memory.
pub proof fn lemma_fields_facts(
    types: Seq<TypeInfo>,
    arch: Arch,
    scratch: ScratchView,
    parent: int,
    members: Seq<TypeId>,
    fields: Seq<ValueView>,
    index: int,
    image: Seq<u8>,
)
    requires
        types_wf(types, arch),
        0 <= parent < types.len(),
        types[parent].kind matches TypeKind::Struct(declared) && declared@ == members,
        image.len() == types[parent].layout.size,
        0 <= index <= members.len(),
    ensures
        fields_image(types, scratch, parent, members, fields, index, image) matches Ok(made) ==> {
            &&& made.0.len() == image.len()
            &&& made.0.subrange(0, fields_end(types, members, index)) == image.subrange(
                0,
                fields_end(types, members, index),
            )
            &&& extends(made.1, scratch)
            &&& scratch_ok(scratch) ==> scratch_ok(made.1)
        },
        fields_image(types, scratch, parent, members, fields, index, image) matches Err(failure)
            ==> failure_extends(failure, scratch),
    decreases parent, 0int, members.len() - index,
{
    assert(scratch.bytes.subrange(0, scratch.bytes.len() as int) =~= scratch.bytes);
    lemma_struct_members(types, arch, parent, members);
    if index < members.len() && index < fields.len() {
        let member = members[index] as int;
        match image_spec(types, scratch, member, fields[index]) {
            Ok((part, after)) => {
                lemma_image_facts(types, arch, scratch, member, fields[index]);
                lemma_fields_end_monotone(types, members, index, members.len() as int);
                lemma_fields_end_monotone(types, members, index + 1, members.len() as int);
                let offset = field_offset(types, members, index);
                lemma_align_up(
                    fields_end(types, members, index),
                    types[member].layout.align as int,
                );
                let next = place(image, offset, part);
                lemma_place(image, offset, part);
                lemma_fields_facts(types, arch, after, parent, members, fields, index + 1, next);
                match fields_image(types, after, parent, members, fields, index + 1, next) {
                    Ok(made) => {
                        lemma_extends_transitive(made.1, after, scratch);
                        let end = fields_end(types, members, index);
                        assert(made.0.subrange(0, end) =~= made.0.subrange(
                            0,
                            fields_end(types, members, index + 1),
                        ).subrange(0, end));
                        assert(next.subrange(0, end) =~= next.subrange(0, offset).subrange(0, end));
                        assert(image.subrange(0, end) =~= image.subrange(0, offset).subrange(
                            0,
                            end,
                        ));
                        assert(next.subrange(0, end) =~= next.subrange(
                            0,
                            fields_end(types, members, index + 1),
                        ).subrange(0, end));
                    },
                    Err(failure) => {
                        lemma_extends_transitive(failure.scratch, after, scratch);
                    },
                }
            },
            Err(_) => {
                lemma_image_facts(types, arch, scratch, member, fields[index]);
            },
        }
    }
}

/// The members of a declared struct are declared before it, have valid
/// layouts, and end within the struct.
pub proof fn lemma_struct_members(
    types: Seq<TypeInfo>,
    arch: Arch,
    parent: int,
    members: Seq<TypeId>,
)
    requires
        types_wf(types, arch),
        0 <= parent < types.len(),
        types[parent].kind matches TypeKind::Struct(declared) && declared@ == members,
    ensures
        forall|i: int| 0 <= i < members.len() ==> #[trigger] members[i] < parent,
        forall|i: int| 0 <= i < members.len() ==> (#[trigger] types[members[i] as int]).layout.wf(),
        fields_end(types, members, members.len() as int) <= types[parent].layout.size,
{
    assert(entry_wf(types, arch, parent));
    assert(types[parent].kind.children() == members);
    assert forall|i: int| 0 <= i < members.len() implies #[trigger] members[i] < parent by {
        assert(types[parent].kind.children()[i] < parent);
    }
    assert forall|i: int| 0 <= i < members.len() implies (#[trigger] types[members[i] as int]).layout.wf() by {
        assert(members[i] < parent);
        assert(entry_wf(types, arch, members[i] as int));
    }
}

/// Memory shows `bytes` at `base`: every range of them is read as it is.
pub open spec fn shows(memory: Memory, base: int, bytes: Seq<u8>) -> bool {
    forall|address: int, len: int|
        base <= address && 0 < len && address + len <= base + bytes.len()
            ==> #[trigger] memory.read_spec(address, len) == Some(
            bytes.subrange(address - base, address - base + len),
        )
}

/// Memory whose first region holds `bytes` at `base` shows them.
pub proof fn lemma_first_region_shows(memory: Memory, base: int, bytes: Seq<u8>)
    requires
        memory.regions@.len() > 0,
        memory.regions@[0].base == base,
        memory.regions@[0].bytes@ == bytes,
    ensures
        shows(memory, base, bytes),
{
    assert forall|address: int, len: int|
        base <= address && 0 < len && address + len <= base + bytes.len()
        implies #[trigger] memory.read_spec(address, len) == Some(
        bytes.subrange(address - base, address - base + len),
    ) by {
        assert(memory.regions@[0].holds(address, len));
        assert(crate::memory::find_region(memory.regions@, address, len, 0) == Some(0int));
    }
}

/// Memory that shows bytes shows every part of them.
pub proof fn lemma_shows_part(
    memory: Memory,
    base: int,
    bytes: Seq<u8>,
    offset: int,
    part: Seq<u8>,
)
    requires
        shows(memory, base, bytes),
        0 <= offset,
        offset + part.len() <= bytes.len(),
        bytes.subrange(offset, offset + part.len()) == part,
    ensures
        shows(memory, base + offset, part),
{
    assert forall|address: int, len: int|
        base + offset <= address && 0 < len && address + len <= base + offset + part.len()
        implies #[trigger] memory.read_spec(address, len) == Some(
        part.subrange(address - (base + offset), address - (base + offset) + len),
    ) by {
        assert(bytes.subrange(address - base, address - base + len) =~= part.subrange(
            address - (base + offset),
            address - (base + offset) + len,
        ));
    }
}

/// Memory that shows bytes reads all of them at their address.
pub proof fn lemma_shows_read(memory: Memory, base: int, bytes: Seq<u8>)
    requires
        shows(memory, base, bytes),
    ensures
        read_at(memory, base, bytes.len() as int) == Ok::<Seq<u8>, DecodeError>(bytes),
{
    if bytes.len() > 0 {
        assert(memory.read_spec(base, bytes.len() as int) == Some(
            bytes.subrange(0, bytes.len() as int),
        ));
        assert(bytes.subrange(0, bytes.len() as int) =~= bytes);
    } else {
        assert(bytes =~= Seq::empty());
    }
}

/// Whether `value` is a value of type `id` that can be held in memory: it has
/// the shape of the type, with as many fields as a struct has members, and its
/// field elements are canonical.
pub open spec fn honest(types: Seq<TypeInfo>, id: int, value: ValueView) -> bool
    decreases id,
{
    if id < 0 || id >= types.len() {
        false
    } else {
        match types[id].kind {
            TypeKind::Array(element) => value matches ValueView::Array(items) && element < id
                && forall|i: int|
                0 <= i < items.len() && element < id ==> honest(
                    types,
                    element as int,
                    #[trigger] items[i],
                ),
            TypeKind::Struct(members) => value matches ValueView::Struct { fields }
                && fields.len() == members@.len() && forall|i: int|
                0 <= i < fields.len() && members@[i] < id ==> honest(
                    types,
                    members@[i] as int,
                    #[trigger] fields[i],
                ),
            TypeKind::Enum(variants) => value matches ValueView::Enum { tag, value: payload }
                && tag < variants@.len() && variants@[tag as int] < id && honest(
                types,
                variants@[tag as int] as int,
                *payload,
            ),
            TypeKind::NonZero(inner) => inner < id && honest(types, inner as int, value),
            TypeKind::Snapshot(inner) => inner < id && honest(types, inner as int, value),
            TypeKind::EcPoint => value matches ValueView::EcPoint(x, y) && x.wf() && y.wf(),
            TypeKind::EcState => value matches ValueView::EcState(x, y, x0, y0) && x.wf()
                && y.wf() && x0.wf() && y0.wf(),
            _ => if types[id].kind.is_felt_like() {
                value matches ValueView::Felt252(felt) && felt.wf()
            } else {
                types[id].kind.int_kind_spec() matches Some(kind) && value.as_int() matches Some(
                    held,
                ) && held.0 == kind
            },
        }
    }
}

/// Decoding the form that the encoder gives a value in memory gives the value
/// back.
///
/// Where memory shows the form of `value` at `address`, and the scratch memory
/// that holds the elements of its arrays where the encoder stored them, the
/// decoder reads `value` at `address`.
#[verifier::rlimit(50)]
pub proof fn lemma_round_trip(
    types: Seq<TypeInfo>,
    arch: Arch,
    scratch: ScratchView,
    memory: Memory,
    id: int,
    value: ValueView,
    address: int,
)
    requires
        types_wf(types, arch),
        scratch_ok(scratch),
        honest(types, id, value),
        image_spec(types, scratch, id, value) matches Ok(made) && shows(
            memory,
            made.1.base as int,
            made.1.bytes,
        ) && shows(memory, address, made.0) && address + made.0.len() <= u64::MAX,
        0 <= address,
    ensures
        decode_spec(types, memory, id, address) == Ok::<ValueView, DecodeError>(value),
    decreases id, 1int, 0int,
{
    let info = types[id];
    let made = image_spec(types, scratch, id, value)->Ok_0;
    let image = made.0;
    assert(entry_wf(types, arch, id));
    lemma_image_facts(types, arch, scratch, id, value);
    lemma_shows_read(memory, address, image);
    match info.kind {
        TypeKind::Array(element) => {
            let items = value->Array_0;
            let element = element as int;
            assert(array_storage(types, scratch, id, element, items) is Ok);
            let stored = elements_image(types, scratch, id, element, items, 0, Seq::empty());
            assert(stored is Ok);
            let storage = stored->Ok_0.0;
            let middle = stored->Ok_0.1;
            lemma_elements_facts(types, arch, scratch, id, element, items, 0, Seq::empty());
            assert(entry_wf(types, arch, element));
            let align = types[element].layout.align;
            let pointer = array_storage(types, scratch, id, element, items)->Ok_0.0;
            lemma_auto_spec_u32_to_from_le_bytes();
            lemma_auto_spec_u64_to_from_le_bytes();
            let len = items.len() as u32;
            assert(spec_u32_to_le_bytes(len).len() == 4);
            assert(spec_u64_to_le_bytes(pointer).len() == 8);
            assert(image.subrange(0, 8) =~= spec_u64_to_le_bytes(pointer));
            assert(image.subrange(8, 12) =~= spec_u32_to_le_bytes(len));
            if items.len() == 0 {
                assert(items =~= Seq::empty());
                assert(decode_elements(types, memory, id, element, pointer as int, 0, Seq::empty())
                    == Ok::<Seq<ValueView>, DecodeError>(Seq::empty()));
            } else {
                lemma_store_extends(middle, align, storage);
                lemma_shows_part(
                    memory,
                    made.1.base as int,
                    made.1.bytes,
                    middle.store_offset(align),
                    storage,
                );
                lemma_shows_part(memory, made.1.base as int, made.1.bytes, 0, middle.bytes);
                assert(items.subrange(0, 0) =~= Seq::empty());
                lemma_elements_round_trip(
                    types,
                    arch,
                    scratch,
                    memory,
                    id,
                    element,
                    items,
                    0,
                    Seq::empty(),
                    pointer as int,
                );
            }
        },
        TypeKind::Struct(members) => {
            let fields = value->fields;
            lemma_struct_members(types, arch, id, members@);
            assert(fields.subrange(0, 0) =~= Seq::empty());
            lemma_fields_round_trip(
                types,
                arch,
                scratch,
                memory,
                id,
                members@,
                fields,
                0,
                zeros(info.layout.size as int),
                address,
            );
        },
        TypeKind::Enum(variants) => {
            let tag = value->tag;
            let payload = *value->value;
            let variant = variants@[tag as int] as int;
            let count = variants@.len();
            lemma_enum_bytes(types, arch, id, tag as int);
            lemma_image_facts(types, arch, scratch, variant, payload);
            let part = image_spec(types, scratch, variant, payload)->Ok_0.0;
            let offset = payload_offset(tag_size(count), types[variant].layout);
            let blank = zeros(info.layout.size as int);
            let tagged = place(blank, 0, tag_bytes(count, tag as int));
            lemma_place(blank, 0, tag_bytes(count, tag as int));
            lemma_place(tagged, offset, part);
            assert(image.subrange(0, tag_size(count) as int) =~= image.subrange(0, offset).subrange(
                0,
                tag_size(count) as int,
            ));
            assert(tagged.subrange(0, tag_size(count) as int) =~= tagged.subrange(
                0,
                offset,
            ).subrange(0, tag_size(count) as int));
            lemma_shows_part(
                memory,
                address,
                image,
                0,
                tag_bytes(count, tag as int),
            );
            lemma_shows_read(memory, address, tag_bytes(count, tag as int));
            lemma_shows_part(memory, address, image, offset, part);
            lemma_round_trip(types, arch, scratch, memory, variant, payload, address + offset);
        },
        TypeKind::NonZero(inner) => {
            lemma_round_trip(types, arch, scratch, memory, inner as int, value, address);
        },
        TypeKind::Snapshot(inner) => {
            lemma_round_trip(types, arch, scratch, memory, inner as int, value, address);
        },
        TypeKind::EcPoint => {
            let x = value->EcPoint_0;
            let y = value->EcPoint_1;
            lemma_felt_round_trip(x);
            lemma_felt_round_trip(y);
            x.lemma_digits_len();
            y.lemma_digits_len();
            lemma_digits_bytes_digits(x.digits());
            lemma_digits_bytes_digits(y.digits());
            assert(image.subrange(0, 32) =~= felt_bytes(x));
            assert(image.subrange(32, 64) =~= felt_bytes(y));
        },
        TypeKind::EcState => {
            let x = value->EcState_0;
            let y = value->EcState_1;
            let x0 = value->EcState_2;
            let y0 = value->EcState_3;
            lemma_felt_round_trip(x);
            lemma_felt_round_trip(y);
            lemma_felt_round_trip(x0);
            lemma_felt_round_trip(y0);
            x.lemma_digits_len();
            y.lemma_digits_len();
            x0.lemma_digits_len();
            y0.lemma_digits_len();
            lemma_digits_bytes_digits(x.digits());
            lemma_digits_bytes_digits(y.digits());
            lemma_digits_bytes_digits(x0.digits());
            lemma_digits_bytes_digits(y0.digits());
            assert(image.subrange(0, 32) =~= felt_bytes(x));
            assert(image.subrange(32, 64) =~= felt_bytes(y));
            assert(image.subrange(64, 96) =~= felt_bytes(x0));
            assert(image.subrange(96, 128) =~= felt_bytes(y0));
        },
        _ => {
            if info.kind.is_felt_like() {
                let felt = value->Felt252_0;
                lemma_felt_round_trip(felt);
                felt.lemma_digits_len();
                lemma_digits_bytes_digits(felt.digits());
                assert(image.subrange(0, 32) =~= felt_bytes(felt));
            } else {
                let (kind, number) = value.as_int().unwrap();
                value.lemma_of_int_as_int();
                lemma_int_bytes(kind, number);
            }
        },
    }
}

/// A value that the encoder stored in scratch memory is read back from a copy
/// of that memory.
///
/// Where the form of `value` has been stored behind the elements of its arrays,
/// and the first region of memory is the scratch memory after that, the decoder
/// reads `value` at the address where its form was stored.
pub proof fn lemma_stored_round_trip(
    types: Seq<TypeInfo>,
    arch: Arch,
    scratch: ScratchView,
    memory: Memory,
    id: int,
    value: ValueView,
)
    requires
        types_wf(types, arch),
        scratch_ok(scratch),
        honest(types, id, value),
        image_spec(types, scratch, id, value) matches Ok(made) && made.1.can_store(
            types[id].layout.align,
            made.0.len() as int,
        ) && memory.regions@.len() > 0 && memory.regions@[0].base == scratch.base
            && memory.regions@[0].bytes@ == made.1.store(types[id].layout.align, made.0).bytes,
    ensures
        decode_spec(
            types,
            memory,
            id,
            image_spec(types, scratch, id, value)->Ok_0.1.store_address(types[id].layout.align) as int,
        ) == Ok::<ValueView, DecodeError>(value),
{
    let made = image_spec(types, scratch, id, value)->Ok_0;
    let align = types[id].layout.align;
    let stored = made.1.store(align, made.0);
    lemma_image_facts(types, arch, scratch, id, value);
    assert(entry_wf(types, arch, id));
    lemma_store_extends(made.1, align, made.0);
    lemma_first_region_shows(memory, scratch.base as int, stored.bytes);
    lemma_shows_part(memory, scratch.base as int, stored.bytes, 0, made.1.bytes);
    lemma_shows_part(
        memory,
        scratch.base as int,
        stored.bytes,
        made.1.store_offset(align),
        made.0,
    );
    lemma_round_trip(
        types,
        arch,
        scratch,
        memory,
        id,
        value,
        scratch.base + made.1.store_offset(align),
    );
}

/// Decoding the elements of an array that the encoder stored gives them back.
pub proof fn lemma_elements_round_trip(
    types: Seq<TypeInfo>,
    arch: Arch,
    scratch: ScratchView,
    memory: Memory,
    parent: int,
    element: int,
    items: Seq<ValueView>,
    index: int,
    storage: Seq<u8>,
    start: int,
)
    requires
        types_wf(types, arch),
        scratch_ok(scratch),
        0 <= element < parent < types.len(),
        0 <= index <= items.len(),
        forall|i: int| 0 <= i < items.len() ==> honest(types, element, #[trigger] items[i]),
        elements_image(types, scratch, parent, element, items, index, storage) matches Ok(made)
            && shows(memory, made.1.base as int, made.1.bytes) && shows(memory, start, made.0)
            && start + made.0.len() <= u64::MAX,
        0 <= start,
    ensures
        decode_elements(
            types,
            memory,
            parent,
            element,
            start + storage.len(),
            items.len() - index,
            items.subrange(0, index),
        ) == Ok::<Seq<ValueView>, DecodeError>(items),
    decreases parent, 0int, items.len() - index,
{
    if index >= items.len() {
        assert(items.subrange(0, index) =~= items);
    } else {
        let made = elements_image(types, scratch, parent, element, items, index, storage)->Ok_0;
        let first = image_spec(types, scratch, element, items[index]);
        assert(first is Ok);
        let image = first->Ok_0.0;
        let after = first->Ok_0.1;
        assert(entry_wf(types, arch, element));
        let step = stride(types[element].layout);
        lemma_align_up(types[element].layout.size as int, types[element].layout.align as int);
        lemma_image_facts(types, arch, scratch, element, items[index]);
        let next = storage + padded(image, step);
        lemma_elements_facts(types, arch, after, parent, element, items, index + 1, next);
        assert(next.len() == storage.len() + step);
        assert(made.0.subrange(storage.len() as int, (storage.len() + image.len()) as int) =~= made.0.subrange(
            0,
            next.len() as int,
        ).subrange(storage.len() as int, (storage.len() + image.len()) as int));
        assert(next.subrange(storage.len() as int, (storage.len() + image.len()) as int) =~= image);
        lemma_shows_part(memory, start, made.0, storage.len() as int, image);
        lemma_shows_part(memory, made.1.base as int, made.1.bytes, 0, after.bytes);
        lemma_round_trip(
            types,
            arch,
            scratch,
            memory,
            element,
            items[index],
            start + storage.len(),
        );
        lemma_elements_round_trip(
            types,
            arch,
            after,
            memory,
            parent,
            element,
            items,
            index + 1,
            next,
            start,
        );
        assert(items.subrange(0, index).push(items[index]) =~= items.subrange(0, index + 1));
    }
}

/// Decoding the members of a struct that the encoder placed gives the fields
/// back.
pub proof fn lemma_fields_round_trip(
    types: Seq<TypeInfo>,
    arch: Arch,
    scratch: ScratchView,
    memory: Memory,
    parent: int,
    members: Seq<TypeId>,
    fields: Seq<ValueView>,
    index: int,
    image: Seq<u8>,
    address: int,
)
    requires
        types_wf(types, arch),
        scratch_ok(scratch),
        0 <= parent < types.len(),
        types[parent].kind matches TypeKind::Struct(declared) && declared@ == members,
        fields.len() == members.len(),
        forall|i: int|
            0 <= i < fields.len() ==> honest(types, members[i] as int, #[trigger] fields[i]),
        image.len() == types[parent].layout.size,
        0 <= index <= members.len(),
        fields_image(types, scratch, parent, members, fields, index, image) matches Ok(made)
            && shows(memory, made.1.base as int, made.1.bytes) && shows(memory, address, made.0),
        0 <= address,
        address + types[parent].layout.size <= u64::MAX,
    ensures
        decode_fields(types, memory, parent, members, address, index, fields.subrange(0, index))
            == Ok::<Seq<ValueView>, DecodeError>(fields),
    decreases parent, 0int, members.len() - index,
{
    lemma_struct_members(types, arch, parent, members);
    if index >= members.len() {
        assert(fields.subrange(0, index) =~= fields);
    } else {
        let made = fields_image(types, scratch, parent, members, fields, index, image)->Ok_0;
        let member = members[index] as int;
        assert(members[index] < parent);
        let first = image_spec(types, scratch, member, fields[index]);
        assert(first is Ok);
        let part = first->Ok_0.0;
        let after = first->Ok_0.1;
        lemma_image_facts(types, arch, scratch, member, fields[index]);
        lemma_fields_end_monotone(types, members, index, members.len() as int);
        lemma_fields_end_monotone(types, members, index + 1, members.len() as int);
        let offset = field_offset(types, members, index);
        let end = fields_end(types, members, index + 1);
        lemma_align_up(fields_end(types, members, index), types[member].layout.align as int);
        let next = place(image, offset, part);
        lemma_place(image, offset, part);
        lemma_fields_facts(types, arch, after, parent, members, fields, index + 1, next);
        assert(made.0.subrange(offset, end) =~= made.0.subrange(0, end).subrange(offset, end));
        assert(next.subrange(offset, end) =~= next.subrange(0, end).subrange(offset, end));
        lemma_shows_part(memory, address, made.0, offset, part);
        lemma_shows_part(memory, made.1.base as int, made.1.bytes, 0, after.bytes);
        lemma_round_trip(types, arch, scratch, memory, member, fields[index], address + offset);
        lemma_fields_round_trip(
            types,
            arch,
            after,
            memory,
            parent,
            members,
            fields,
            index + 1,
            next,
            address,
        );
        assert(fields.subrange(0, index).push(fields[index]) =~= fields.subrange(0, index + 1));
    }
}

} // verus!
