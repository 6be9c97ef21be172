//! The closed set of Cairo types and the registry that describes them.
use crate::arch::Arch;
use crate::layout::{
    align_up, integer_size, lemma_align_up, round_up_to, Layout,
};
use vstd::prelude::*;

verus! {

/// Identifies a type of a [`TypeRegistry`]: its position in declaration order.
pub type TypeId = usize;

/// The kind of a Cairo type, with the types it is built from.
#[derive(Debug, PartialEq, Eq)]
pub enum TypeKind {
    Felt252,
    ClassHash,
    ContractAddress,
    StorageAddress,
    StorageBaseAddress,
    Uint8,
    Uint16,
    Uint32,
    Uint64,
    Uint128,
    Sint8,
    Sint16,
    Sint32,
    Sint64,
    Sint128,
    EcPoint,
    EcState,
    /// An array of the given element type.
    Array(TypeId),
    /// A struct with the given member types, in declaration order.
    Struct(Vec<TypeId>),
    /// An enum with the given variant payload types, in declaration order.
    Enum(Vec<TypeId>),
    /// A value known to differ from zero; represented as the value itself.
    NonZero(TypeId),
    /// A read-only view of a value; represented as the value itself.
    Snapshot(TypeId),
    /// A pointer to a heap value.
    Box(TypeId),
    /// A pointer to a heap value, or null.
    Nullable(TypeId),
    /// A dictionary from field elements to the given type.
    Felt252Dict(TypeId),
    Bitwise,
    BuiltinCosts,
    EcOp,
    Pedersen,
    Poseidon,
    RangeCheck,
    SegmentArena,
    /// The fuel counter.
    GasBuiltin,
    /// The handle of the external call context.
    System,
    Uint128MulGuarantee,
    Uninitialized(TypeId),
    Felt252DictEntry(TypeId),
    SquashedFelt252Dict(TypeId),
    Span(TypeId),
    Bytes31,
    Secp256Point,
    /// Any other type; none of them crosses the call boundary.
    Other,
}

impl TypeKind {
    /// A field element or one of its address-like aliases.
    pub open spec fn is_felt_like(self) -> bool {
        self is Felt252 || self is ClassHash || self is ContractAddress || self is StorageAddress
            || self is StorageBaseAddress
    }

    /// A capability token that never has a runtime representation.
    pub open spec fn is_unit_builtin_spec(&self) -> bool {
        self is Bitwise || self is BuiltinCosts || self is EcOp || self is Pedersen
            || self is Poseidon || self is RangeCheck || self is SegmentArena
    }

    /// A capability token, with or without a runtime representation.
    pub open spec fn is_builtin_spec(&self) -> bool {
        self.is_unit_builtin_spec() || self is GasBuiltin || self is System
    }

    /// The types this kind is built from.
    pub open spec fn children(self) -> Seq<TypeId> {
        match self {
            TypeKind::Array(inner) => seq![inner],
            TypeKind::Struct(members) => members@,
            TypeKind::Enum(variants) => variants@,
            TypeKind::NonZero(inner) => seq![inner],
            TypeKind::Snapshot(inner) => seq![inner],
            TypeKind::Box(inner) => seq![inner],
            TypeKind::Nullable(inner) => seq![inner],
            TypeKind::Felt252Dict(inner) => seq![inner],
            TypeKind::Uninitialized(inner) => seq![inner],
            TypeKind::Felt252DictEntry(inner) => seq![inner],
            TypeKind::SquashedFelt252Dict(inner) => seq![inner],
            TypeKind::Span(inner) => seq![inner],
            _ => Seq::empty(),
        }
    }

    /// The size in bytes that the in-memory form of this kind must have, where
    /// the kind fixes it.
    pub open spec fn fixed_size(self) -> Option<u64> {
        match self {
            TypeKind::Uint8 | TypeKind::Sint8 => Some(1),
            TypeKind::Uint16 | TypeKind::Sint16 => Some(2),
            TypeKind::Uint32 | TypeKind::Sint32 => Some(4),
            TypeKind::Uint64 | TypeKind::Sint64 => Some(8),
            TypeKind::Uint128 | TypeKind::Sint128 => Some(16),
            TypeKind::Felt252
            | TypeKind::ClassHash
            | TypeKind::ContractAddress
            | TypeKind::StorageAddress
            | TypeKind::StorageBaseAddress => Some(32),
            TypeKind::EcPoint => Some(64),
            TypeKind::EcState => Some(128),
            TypeKind::Array(_) => Some(16),
            TypeKind::Box(_) | TypeKind::Nullable(_) | TypeKind::Felt252Dict(_) => Some(8),
            TypeKind::GasBuiltin => Some(16),
            TypeKind::System => Some(8),
            TypeKind::Bitwise
            | TypeKind::BuiltinCosts
            | TypeKind::EcOp
            | TypeKind::Pedersen
            | TypeKind::Poseidon
            | TypeKind::RangeCheck
            | TypeKind::SegmentArena => Some(0),
            _ => None,
        }
    }

    /// Whether this kind is a capability token that never has a runtime
    /// representation.
    #[verifier::when_used_as_spec(is_unit_builtin_spec)]
    pub fn is_unit_builtin(&self) -> (unit: bool)
        ensures
            unit == self.is_unit_builtin_spec(),
    {
        match self {
            TypeKind::Bitwise
            | TypeKind::BuiltinCosts
            | TypeKind::EcOp
            | TypeKind::Pedersen
            | TypeKind::Poseidon
            | TypeKind::RangeCheck
            | TypeKind::SegmentArena => true,
            _ => false,
        }
    }

    /// Whether this kind is a capability token.
    #[verifier::when_used_as_spec(is_builtin_spec)]
    pub fn is_builtin(&self) -> (builtin: bool)
        ensures
            builtin == self.is_builtin_spec(),
    {
        match self {
            TypeKind::Bitwise
            | TypeKind::BuiltinCosts
            | TypeKind::EcOp
            | TypeKind::Pedersen
            | TypeKind::Poseidon
            | TypeKind::RangeCheck
            | TypeKind::SegmentArena
            | TypeKind::GasBuiltin
            | TypeKind::System => true,
            _ => false,
        }
    }
}

/// Largest size that the in-memory form of a type may have: a limit of the
/// registry, chosen so that sizes and the strides made of them are lengths on
/// every target.
pub const MAX_TYPE_SIZE: u64 = 0x7fff_ffff;

/// What the layout oracle says of one type.
#[derive(Debug, PartialEq, Eq)]
pub struct TypeInfo {
    /// The kind of the type and the types it is built from.
    pub kind: TypeKind,
    /// Size and alignment of the in-memory form.
    pub layout: Layout,
    /// The type has no runtime representation.
    pub zero_sized: bool,
    /// The type cannot be returned in registers alone.
    pub complex: bool,
    /// The type is passed by pointer to its in-memory form.
    pub memory_allocated: bool,
}

/// Number of bits of the tag of an enum with `count` variants: the least number
/// of bits that tells them apart.
pub open spec fn tag_bits(count: nat) -> nat
    decreases count,
{
    if count <= 1 {
        0
    } else {
        1 + tag_bits(((count + 1) / 2) as nat)
    }
}

/// The tag of an enum has at most 64 bits.
pub proof fn lemma_tag_bits_bound(count: nat)
    requires
        count <= usize::MAX,
    ensures
        tag_bits(count) <= 64,
{
    vstd::arithmetic::power2::lemma2_to64();
    lemma_tag_bits_below_power(count, 64);
}

/// Up to `2^bits` variants need at most `bits` tag bits.
pub proof fn lemma_tag_bits_below_power(count: nat, bits: nat)
    requires
        count <= vstd::arithmetic::power2::pow2(bits),
    ensures
        tag_bits(count) <= bits,
    decreases bits,
{
    vstd::arithmetic::power2::lemma2_to64();
    if count > 1 {
        if bits == 0 {
            assert(false);
        } else {
            vstd::arithmetic::power2::lemma_pow2_unfold(bits);
            lemma_tag_bits_below_power(((count + 1) / 2) as nat, (bits - 1) as nat);
        }
    }
}

/// Size in bytes of the tag of an enum with `count` variants.
pub open spec fn tag_size(count: nat) -> u64 {
    integer_size(tag_bits(count) as u32)
}

/// Offset one past the end of the first `count` members of a struct, each placed
/// at the next offset that its alignment allows.
pub open spec fn fields_end(types: Seq<TypeInfo>, members: Seq<TypeId>, count: int) -> int
    decreases count, 0int,
{
    if count <= 0 {
        0
    } else {
        field_offset(types, members, count - 1) + types[members[count - 1] as int].layout.size
    }
}

/// Offset of member `index` of a struct.
pub open spec fn field_offset(types: Seq<TypeInfo>, members: Seq<TypeId>, index: int) -> int
    decreases index, 1int,
{
    if index < 0 {
        0
    } else {
        align_up(
            fields_end(types, members, index),
            types[members[index] as int].layout.align as int,
        )
    }
}

/// Offset of the payload of an enum variant behind a tag of `tag` bytes.
pub open spec fn payload_offset(tag: u64, variant: Layout) -> int {
    align_up(tag as int, variant.align as int)
}

/// Whether every variant of an enum, placed behind the tag, ends within `size`.
pub open spec fn variants_fit(types: Seq<TypeInfo>, variants: Seq<TypeId>, size: int) -> bool {
    forall|i: int|
        0 <= i < variants.len() ==> payload_offset(
            tag_size(variants.len()),
            (#[trigger] types[variants[i] as int]).layout,
        ) + types[variants[i] as int].layout.size <= size
}

/// Whether entry `id` of `types` is a valid description given the entries
/// before it.
pub open spec fn entry_wf(types: Seq<TypeInfo>, arch: Arch, id: int) -> bool {
    let info = types[id];
    &&& info.layout.wf()
    &&& info.layout.size <= MAX_TYPE_SIZE
    &&& info.layout.align <= arch.max_align_spec()
    &&& forall|i: int| 0 <= i < info.kind.children().len() ==> #[trigger] info.kind.children()[i] < id
    &&& info.zero_sized ==> info.layout.size == 0
    &&& info.kind.is_unit_builtin() ==> info.zero_sized
    &&& info.kind.fixed_size() matches Some(size) ==> info.layout.size == size
    &&& info.kind matches TypeKind::Struct(members) ==> fields_end(
        types,
        members@,
        members@.len() as int,
    ) <= info.layout.size
    &&& info.kind matches TypeKind::Enum(variants) ==> {
        &&& tag_size(variants@.len()) <= info.layout.size
        &&& variants_fit(types, variants@, info.layout.size as int)
    }
    &&& info.kind matches TypeKind::NonZero(inner) ==> info.layout == types[inner as int].layout
    &&& info.kind matches TypeKind::Snapshot(inner) ==> info.layout == types[inner as int].layout
}

/// The end of a struct's members never moves backwards as members are added.
pub proof fn lemma_fields_end_monotone(
    types: Seq<TypeInfo>,
    members: Seq<TypeId>,
    low: int,
    high: int,
)
    requires
        0 <= low <= high <= members.len(),
        forall|i: int| 0 <= i < members.len() ==> (#[trigger] types[members[i] as int]).layout.wf(),
    ensures
        0 <= fields_end(types, members, low) <= fields_end(types, members, high),
        low < high ==> field_offset(types, members, low) + types[members[low] as int].layout.size
            <= fields_end(types, members, high),
    decreases high - low,
{
    lemma_fields_end_nonnegative(types, members, low);
    if low < high {
        lemma_fields_end_monotone(types, members, low, high - 1);
        lemma_fields_end_nonnegative(types, members, high - 1);
        let layout = types[members[high - 1] as int].layout;
        lemma_align_up(fields_end(types, members, high - 1), layout.align as int);
    }
}

/// The end of a struct's members is never negative.
pub proof fn lemma_fields_end_nonnegative(types: Seq<TypeInfo>, members: Seq<TypeId>, count: int)
    requires
        0 <= count <= members.len(),
        forall|i: int| 0 <= i < members.len() ==> (#[trigger] types[members[i] as int]).layout.wf(),
    ensures
        0 <= fields_end(types, members, count),
    decreases count,
{
    if count > 0 {
        lemma_fields_end_nonnegative(types, members, count - 1);
        let layout = types[members[count - 1] as int].layout;
        lemma_align_up(fields_end(types, members, count - 1), layout.align as int);
    }
}

/// Why a type description was turned down.
#[derive(Clone, Copy, Debug, PartialEq, Eq, Structural)]
pub enum RegistryError {
    /// The description is built from a type that has not been declared.
    UnknownType,
    /// Size, alignment or flags do not fit the kind of the type.
    InvalidLayout,
}

/// The struct member offsets of two type tables agree where the tables agree on
/// the members.
pub proof fn lemma_fields_end_frame(
    a: Seq<TypeInfo>,
    b: Seq<TypeInfo>,
    members: Seq<TypeId>,
    count: int,
    bound: int,
)
    requires
        0 <= count <= members.len(),
        bound <= a.len(),
        bound <= b.len(),
        forall|j: int| 0 <= j < bound ==> a[j] == b[j],
        forall|i: int| 0 <= i < members.len() ==> #[trigger] members[i] < bound,
    ensures
        fields_end(a, members, count) == fields_end(b, members, count),
        count < members.len() ==> field_offset(a, members, count) == field_offset(
            b,
            members,
            count,
        ),
    decreases count,
{
    if count > 0 {
        lemma_fields_end_frame(a, b, members, count - 1, bound);
        assert(members[count - 1] < bound);
    }
    if count < members.len() {
        assert(members[count] < bound);
    }
}

/// Whether an entry is valid depends only on the entries up to it.
pub proof fn lemma_entry_wf_frame(a: Seq<TypeInfo>, b: Seq<TypeInfo>, arch: Arch, id: int)
    requires
        0 <= id < a.len(),
        id < b.len(),
        forall|j: int| 0 <= j <= id ==> a[j] == b[j],
    ensures
        entry_wf(a, arch, id) == entry_wf(b, arch, id),
{
    let info = a[id];
    let children = info.kind.children();
    if forall|i: int| 0 <= i < children.len() ==> #[trigger] children[i] < id {
        match info.kind {
            TypeKind::Struct(members) => {
                lemma_fields_end_frame(a, b, members@, members@.len() as int, id);
            },
            TypeKind::Enum(variants) => {
                assert forall|i: int| 0 <= i < variants@.len() implies a[variants@[i] as int]
                    == b[variants@[i] as int] by {
                    assert(children[i] < id);
                }
            },
            TypeKind::NonZero(inner) => {
                assert(children[0] < id);
            },
            TypeKind::Snapshot(inner) => {
                assert(children[0] < id);
            },
            _ => {},
        }
    }
}

/// The types of a program, each described to the extent that marshaling needs.
///
/// A type is declared after the types it is built from, so that its identifier
/// exceeds theirs.
#[derive(Debug)]
pub struct TypeRegistry {
    /// The architecture whose layouts the registry holds.
    pub arch: Arch,
    /// The declared types, by identifier.
    pub types: Vec<TypeInfo>,
}

impl TypeRegistry {
    /// Every entry is a valid description given the entries before it.
    pub open spec fn wf(&self) -> bool {
        forall|id: int| 0 <= id < self.types@.len() ==> entry_wf(self.types@, self.arch, id)
    }

    /// The first `bound` entries are valid descriptions.
    pub open spec fn wf_below(&self, bound: int) -> bool {
        bound <= self.types@.len() && forall|id: int|
            0 <= id < bound ==> entry_wf(self.types@, self.arch, id)
    }

    /// Whether `id` names a declared type.
    pub open spec fn contains(&self, id: TypeId) -> bool {
        id < self.types@.len()
    }

    /// A registry without types.
    pub fn new(arch: Arch) -> (registry: TypeRegistry)
        ensures
            registry.wf(),
            registry.arch == arch,
            registry.types@.len() == 0,
    {
        TypeRegistry { arch, types: Vec::new() }
    }

    /// Number of declared types.
    pub fn len(&self) -> (count: usize)
        ensures
            count == self.types@.len(),
    {
        self.types.len()
    }

    /// The description of type `id`, if it has been declared.
    pub fn get(&self, id: TypeId) -> (info: Option<&TypeInfo>)
        ensures
            info == if self.contains(id) {
                Some(&self.types@[id as int])
            } else {
                None
            },
    {
        if id < self.types.len() {
            Some(&self.types[id])
        } else {
            None
        }
    }

    /// Whether every entry is a valid description given the entries before it:
    /// what the functions of this crate ask of a registry.
    ///
    /// A registry that only [`TypeRegistry::declare`] has filled passes.
    pub fn is_wf(&self) -> (valid: bool)
        ensures
            valid == self.wf(),
    {
        let mut index: usize = 0;
        while index < self.types.len()
            invariant
                index <= self.types@.len(),
                self.wf_below(index as int),
            decreases self.types@.len() - index,
        {
            let info = &self.types[index];
            if !children_below(&info.kind, index) {
                assert(!entry_wf(self.types@, self.arch, index as int));
                return false;
            }
            let valid = self.entry_valid(index, info);
            proof {
                lemma_entry_wf_frame(
                    self.types@,
                    self.types@.subrange(0, index as int).push(*info),
                    self.arch,
                    index as int,
                );
            }
            if !valid {
                return false;
            }
            index = index + 1;
        }
        true
    }

    /// Declares a type and returns its identifier.
    ///
    /// The description is accepted exactly when it is valid given the types
    /// declared so far; otherwise the registry is left as it was.
    pub fn declare(&mut self, info: TypeInfo) -> (result: Result<TypeId, RegistryError>)
        requires
            old(self).wf(),
        ensures
            final(self).wf(),
            final(self).arch == old(self).arch,
            match result {
                Ok(id) => {
                    &&& id == old(self).types@.len()
                    &&& final(self).types@ == old(self).types@.push(info)
                    &&& entry_wf(final(self).types@, old(self).arch, id as int)
                },
                Err(error) => {
                    &&& final(self).types@ == old(self).types@
                    &&& !entry_wf(
                        old(self).types@.push(info),
                        old(self).arch,
                        old(self).types@.len() as int,
                    )
                    &&& error is UnknownType <==> exists|i: int|
                        0 <= i < info.kind.children().len() && #[trigger] info.kind.children()[i]
                            >= old(self).types@.len()
                },
            },
    {
        let id: usize = self.types.len();
        let ghost extended = self.types@.push(info);
        if !children_below(&info.kind, id) {
            return Err(RegistryError::UnknownType);
        }
        proof {
            assert(extended[id as int] == info);
            assert forall|j: int| 0 <= j < id implies extended[j] == self.types@[j] by {}
        }
        proof {
            assert(self.types@.subrange(0, id as int) =~= self.types@);
        }
        if !self.entry_valid(id, &info) {
            return Err(RegistryError::InvalidLayout);
        }
        self.types.push(info);
        proof {
            assert(self.types@ == extended);
            assert forall|other: int| 0 <= other < self.types@.len() implies entry_wf(
                self.types@,
                self.arch,
                other,
            ) by {
                if other < id {
                    lemma_entry_wf_frame(old(self).types@, self.types@, self.arch, other);
                }
            }
        }
        Ok(id)
    }

    /// Checks a description whose children are among the first `bound` entries
    /// against those entries.
    fn entry_valid(&self, bound: usize, info: &TypeInfo) -> (valid: bool)
        requires
            self.wf_below(bound as int),
            forall|i: int|
                0 <= i < info.kind.children().len() ==> #[trigger] info.kind.children()[i]
                    < bound,
        ensures
            valid == entry_wf(
                self.types@.subrange(0, bound as int).push(*info),
                self.arch,
                bound as int,
            ),
    {
        let ghost extended = self.types@.subrange(0, bound as int).push(*info);
        let ghost id = bound as int;
        proof {
            assert(extended[id] == *info);
        }
        let layout = info.layout;
        if !(layout.align == 1 || layout.align == 2 || layout.align == 4 || layout.align == 8
            || layout.align == 16) || layout.size > MAX_TYPE_SIZE || layout.align
            > self.arch.max_align() {
            return false;
        }
        if info.zero_sized && layout.size != 0 {
            return false;
        }
        if info.kind.is_unit_builtin() && !info.zero_sized {
            return false;
        }
        match fixed_size_of(&info.kind) {
            Some(size) => {
                if layout.size != size {
                    return false;
                }
            },
            None => {},
        }
        match &info.kind {
            TypeKind::Struct(members) => {
                let mut end: u64 = 0;
                let mut index: usize = 0;
                while index < members.len()
                    invariant
                        self.wf_below(bound as int),
                        extended == self.types@.subrange(0, bound as int).push(*info),
                        info.kind == TypeKind::Struct(*members),
                        layout == info.layout,
                        layout.wf(),
                        0 <= index <= members@.len(),
                        forall|i: int|
                            0 <= i < members@.len() ==> #[trigger] members@[i] < bound,
                        end == fields_end(extended, members@, index as int),
                        end <= layout.size,
                    decreases members@.len() - index,
                {
                    let member: usize = members[index];
                    let member_layout = self.types[member].layout;
                    proof {
                        assert(members@[index as int] < bound);
                        assert(entry_wf(self.types@, self.arch, member as int));
                        assert(extended[member as int] == self.types@[member as int]);
                        assert forall|i: int| 0 <= i < members@.len() implies (
                        #[trigger] extended[members@[i] as int]).layout.wf() by {
                            assert(members@[i] < bound);
                            assert(entry_wf(self.types@, self.arch, members@[i] as int));
                        }
                        lemma_fields_end_monotone(
                            extended,
                            members@,
                            index as int + 1,
                            members@.len() as int,
                        );
                    }
                    let offset: u64 = round_up_to(end, member_layout.align);
                    if offset > layout.size || member_layout.size > layout.size - offset {
                        return false;
                    }
                    end = offset + member_layout.size;
                    index = index + 1;
                }
                true
            },
            TypeKind::Enum(variants) => {
                let tag: u64 = tag_size_of(variants.len());
                if tag > layout.size {
                    return false;
                }
                let mut index: usize = 0;
                while index < variants.len()
                    invariant
                        self.wf_below(bound as int),
                        extended == self.types@.subrange(0, bound as int).push(*info),
                        info.kind == TypeKind::Enum(*variants),
                        layout == info.layout,
                        layout.wf(),
                        tag == tag_size(variants@.len()),
                        tag <= layout.size,
                        0 <= index <= variants@.len(),
                        forall|i: int|
                            0 <= i < variants@.len() ==> #[trigger] variants@[i]
                                < bound,
                        forall|i: int|
                            0 <= i < index ==> payload_offset(
                                tag,
                                (#[trigger] extended[variants@[i] as int]).layout,
                            ) + extended[variants@[i] as int].layout.size <= layout.size,
                    decreases variants@.len() - index,
                {
                    let variant: usize = variants[index];
                    let variant_layout = self.types[variant].layout;
                    proof {
                        assert(variants@[index as int] < bound);
                        assert(entry_wf(self.types@, self.arch, variant as int));
                        assert(extended[variant as int] == self.types@[variant as int]);
                    }
                    let offset: u64 = round_up_to(tag, variant_layout.align);
                    if offset > layout.size || variant_layout.size > layout.size - offset {
                        assert(!variants_fit(extended, variants@, layout.size as int)) by {
                            assert(extended[variants@[index as int] as int].layout
                                == variant_layout);
                        }
                        return false;
                    }
                    index = index + 1;
                }
                true
            },
            TypeKind::NonZero(inner) => {
                proof {
                    assert(info.kind.children()[0] < bound);
                    assert(extended[*inner as int] == self.types@[*inner as int]);
                }
                layout == self.types[*inner].layout
            },
            TypeKind::Snapshot(inner) => {
                proof {
                    assert(info.kind.children()[0] < bound);
                    assert(extended[*inner as int] == self.types@[*inner as int]);
                }
                layout == self.types[*inner].layout
            },
            _ => true,
        }
    }
}

/// Whether every type that `kind` is built from has an identifier below `bound`.
fn children_below(kind: &TypeKind, bound: usize) -> (below: bool)
    ensures
        below == forall|i: int|
            0 <= i < kind.children().len() ==> #[trigger] kind.children()[i] < bound,
{
    match kind {
        TypeKind::Struct(members) => {
            assert(kind.children() == members@);
            all_below(members, bound)
        },
        TypeKind::Enum(variants) => {
            assert(kind.children() == variants@);
            all_below(variants, bound)
        },
        TypeKind::Array(inner)
        | TypeKind::NonZero(inner)
        | TypeKind::Snapshot(inner)
        | TypeKind::Box(inner)
        | TypeKind::Nullable(inner)
        | TypeKind::Felt252Dict(inner)
        | TypeKind::Uninitialized(inner)
        | TypeKind::Felt252DictEntry(inner)
        | TypeKind::SquashedFelt252Dict(inner)
        | TypeKind::Span(inner) => {
            proof {
                assert(kind.children() =~= seq![*inner]);
                if *inner >= bound {
                    assert(kind.children()[0] >= bound);
                }
            }
            *inner < bound
        },
        _ => true,
    }
}

/// Whether every identifier of `ids` is below `bound`.
fn all_below(ids: &Vec<TypeId>, bound: usize) -> (below: bool)
    ensures
        below == forall|i: int| 0 <= i < ids@.len() ==> #[trigger] ids@[i] < bound,
{
    let mut index: usize = 0;
    while index < ids.len()
        invariant
            0 <= index <= ids@.len(),
            forall|i: int| 0 <= i < index ==> #[trigger] ids@[i] < bound,
        decreases ids@.len() - index,
    {
        if ids[index] >= bound {
            return false;
        }
        index = index + 1;
    }
    true
}

/// The size that the in-memory form of `kind` must have, where the kind fixes it.
pub fn fixed_size_of(kind: &TypeKind) -> (size: Option<u64>)
    ensures
        size == kind.fixed_size(),
{
    match kind {
        TypeKind::Uint8 | TypeKind::Sint8 => Some(1),
        TypeKind::Uint16 | TypeKind::Sint16 => Some(2),
        TypeKind::Uint32 | TypeKind::Sint32 => Some(4),
        TypeKind::Uint64 | TypeKind::Sint64 => Some(8),
        TypeKind::Uint128 | TypeKind::Sint128 => Some(16),
        TypeKind::Felt252
        | TypeKind::ClassHash
        | TypeKind::ContractAddress
        | TypeKind::StorageAddress
        | TypeKind::StorageBaseAddress => Some(32),
        TypeKind::EcPoint => Some(64),
        TypeKind::EcState => Some(128),
        TypeKind::Array(_) => Some(16),
        TypeKind::Box(_) | TypeKind::Nullable(_) | TypeKind::Felt252Dict(_) => Some(8),
        TypeKind::GasBuiltin => Some(16),
        TypeKind::System => Some(8),
        TypeKind::Bitwise
        | TypeKind::BuiltinCosts
        | TypeKind::EcOp
        | TypeKind::Pedersen
        | TypeKind::Poseidon
        | TypeKind::RangeCheck
        | TypeKind::SegmentArena => Some(0),
        _ => None,
    }
}

/// Number of bits of the tag of an enum with `count` variants.
pub fn tag_bits_of(count: usize) -> (bits: u32)
    ensures
        bits == tag_bits(count as nat),
        bits <= 64,
{
    let mut bits: u32 = 0;
    let mut rest: usize = count;
    proof {
        lemma_tag_bits_bound(count as nat);
    }
    while rest > 1
        invariant
            bits + tag_bits(rest as nat) == tag_bits(count as nat),
            tag_bits(count as nat) <= 64,
        decreases rest,
    {
        rest = rest / 2 + rest % 2;
        bits = bits + 1;
    }
    bits
}

/// Size in bytes of the tag of an enum with `count` variants.
pub fn tag_size_of(count: usize) -> (size: u64)
    ensures
        size == tag_size(count as nat),
        size == 0 || size == 1 || size == 2 || size == 4 || size == 8,
        size == 0 <==> count <= 1,
{
    let bits: u32 = tag_bits_of(count);
    proof {
        if count > 1 {
            assert(tag_bits(count as nat) >= 1);
        }
    }
    if bits == 0 {
        0
    } else if bits <= 8 {
        1
    } else if bits <= 16 {
        2
    } else if bits <= 32 {
        4
    } else {
        8
    }
}

} // verus!
