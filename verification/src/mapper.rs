//! The argument encoder: from typed values to the word stream of a call.
use crate::arch::{Arch, REGISTER_WORDS};
use crate::error::EncodeError;
use crate::felt::Felt252;
use crate::image::{array_storage, image_spec, serialize, store_elements};
use crate::layout::{get_integer_layout, integer_layout};
use crate::memory::{Arena, ScratchView};
use crate::scalar::{high_word, low_word, IntKind};
use crate::types::{entry_wf, TypeId, TypeInfo, TypeKind, TypeRegistry};
use crate::values::{views, JitValue, ValueView};
use vstd::prelude::*;

verus! {

/// Whether `count` words written behind `len` words would start in the
/// registers and end on the stack.
pub open spec fn straddles(len: int, count: int) -> bool {
    len + 1 < REGISTER_WORDS && len + count > REGISTER_WORDS
}

/// The word stream `words` after `values` have been pushed with the given
/// alignment.
///
/// Only a 16-byte alignment on the ARM-family target pads. The stack starts
/// 16-byte aligned behind the eight register words. Behind the registers, a pad
/// word makes the number of words even. With one register left, a pad word
/// fills it. Where the values would start in the registers and end on the
/// stack, their first four words are written, then a pad word, then the rest.
pub open spec fn push_aligned_spec(arch: Arch, words: Seq<u64>, align: int, values: Seq<u64>) -> Seq<
    u64,
> {
    if arch is Aarch64 && align == 16 {
        if words.len() >= REGISTER_WORDS {
            if words.len() % 2 != 0 {
                words.push(0) + values
            } else {
                words + values
            }
        } else if words.len() + 1 >= REGISTER_WORDS {
            words.push(0) + values
        } else if words.len() + values.len() > REGISTER_WORDS {
            words + values.subrange(0, 4) + seq![0u64] + values.subrange(4, values.len() as int)
        } else {
            words + values
        }
    } else {
        words + values
    }
}

/// Pushing keeps the words that are there. A 16-byte aligned value that lands
/// behind the registers starts at an even word, that is at a stack offset that
/// is a multiple of 16, and is written in one piece.
pub proof fn lemma_push_aligned(arch: Arch, words: Seq<u64>, align: int, values: Seq<u64>)
    requires
        arch is Aarch64 && align == 16 && straddles(words.len() as int, values.len() as int)
            ==> values.len() >= 4,
    ensures
        push_aligned_spec(arch, words, align, values).len() >= words.len() + values.len(),
        push_aligned_spec(arch, words, align, values).len() <= words.len() + values.len() + 1,
        push_aligned_spec(arch, words, align, values).subrange(0, words.len() as int) == words,
        !(arch is Aarch64 && align == 16) ==> push_aligned_spec(arch, words, align, values)
            == words + values,
        arch is Aarch64 && align == 16 && words.len() + 1 >= REGISTER_WORDS ==> {
            let after = push_aligned_spec(arch, words, align, values);
            let start = after.len() - values.len();
            &&& start >= REGISTER_WORDS
            &&& start % 2 == 0
            &&& (start - REGISTER_WORDS) * 8 % 16 == 0
            &&& after.subrange(start, after.len() as int) == values
        },
{
    let after = push_aligned_spec(arch, words, align, values);
    assert(after.subrange(0, words.len() as int) =~= words);
    if arch is Aarch64 && align == 16 && words.len() + 1 >= REGISTER_WORDS {
        let start = after.len() - values.len();
        assert(after.subrange(start, after.len() as int) =~= values);
    }
}

/// The words of an integer argument: one word, or two for a 128-bit kind, in
/// two's complement, sign-extended.
pub open spec fn int_words_spec(kind: IntKind, value: int) -> Seq<u64> {
    if kind.bits_spec() <= 64 {
        seq![low_word(value)]
    } else {
        seq![low_word(value), high_word(value)]
    }
}

/// The word stream after a field element has been pushed: its four digits,
/// aligned as a 252-bit integer.
pub open spec fn push_felt_spec(arch: Arch, words: Seq<u64>, felt: Felt252) -> Seq<u64> {
    push_aligned_spec(arch, words, integer_layout(252, arch).align as int, felt.digits())
}

/// Why an argument could not be pushed, and what the mapper had produced by
/// then.
pub struct PushFailure {
    /// What went wrong.
    pub error: EncodeError,
    /// The word stream and the scratch memory as they were left: what was
    /// pushed and stored before the failure stays.
    pub state: MapperView,
}

/// What an [`ArgumentMapper`] has produced so far.
pub struct MapperView {
    /// The word stream.
    pub words: Seq<u64>,
    /// The scratch memory.
    pub scratch: ScratchView,
}

/// The state of a mapper after `value` has been pushed as an argument of type
/// `id`; or why it cannot be pushed, and the state of the mapper at that point.
pub open spec fn push_spec(
    types: Seq<TypeInfo>,
    arch: Arch,
    runtime: bool,
    state: MapperView,
    id: int,
    value: ValueView,
) -> Result<MapperView, PushFailure>
    decreases id, 1int, 0int,
{
    if id < 0 || id >= types.len() {
        Err(PushFailure { error: EncodeError::UnknownType, state })
    } else {
        let info = types[id];
        match info.kind {
            TypeKind::Array(element) => match value {
                ValueView::Array(items) => match array_storage(
                    types,
                    state.scratch,
                    id,
                    element as int,
                    items,
                ) {
                    Ok((address, after)) => Ok(
                        MapperView {
                            words: push_aligned_spec(
                                arch,
                                state.words,
                                integer_layout(64, arch).align as int,
                                seq![address, items.len() as u64, items.len() as u64],
                            ),
                            scratch: after,
                        },
                    ),
                    Err(failure) => Err(
                        PushFailure {
                            error: failure.error,
                            state: MapperView { words: state.words, scratch: failure.scratch },
                        },
                    ),
                },
                _ => Err(PushFailure { error: EncodeError::TypeMismatch, state }),
            },
            TypeKind::Struct(members) => match value {
                ValueView::Struct { fields } => push_fields_spec(
                    types,
                    arch,
                    runtime,
                    state,
                    id,
                    members@,
                    fields,
                    0,
                ),
                _ => Err(PushFailure { error: EncodeError::TypeMismatch, state }),
            },
            TypeKind::Enum(variants) => match value {
                ValueView::Enum { tag, value: payload } => if info.memory_allocated {
                    match image_spec(types, state.scratch, id, value) {
                        Ok((image, after)) => if after.can_store(
                            info.layout.align,
                            image.len() as int,
                        ) {
                            Ok(
                                MapperView {
                                    words: state.words.push(
                                        after.store_address(info.layout.align),
                                    ),
                                    scratch: after.store(info.layout.align, image),
                                },
                            )
                        } else {
                            Err(
                                PushFailure {
                                    error: EncodeError::ScratchExhausted,
                                    state: MapperView { words: state.words, scratch: after },
                                },
                            )
                        },
                        Err(failure) => Err(
                        PushFailure {
                            error: failure.error,
                            state: MapperView { words: state.words, scratch: failure.scratch },
                        },
                    ),
                    }
                } else if tag >= variants@.len() {
                    Err(PushFailure { error: EncodeError::TypeMismatch, state })
                } else if variants@[tag as int] >= id {
                    Err(PushFailure { error: EncodeError::UnknownType, state })
                } else {
                    push_spec(
                        types,
                        arch,
                        runtime,
                        MapperView {
                            words: if variants@.len() > 1 {
                                state.words.push(tag as u64)
                            } else {
                                state.words
                            },
                            scratch: state.scratch,
                        },
                        variants@[tag as int] as int,
                        *payload,
                    )
                },
                _ => Err(PushFailure { error: EncodeError::TypeMismatch, state }),
            },
            TypeKind::NonZero(inner) => if inner >= id {
                Err(PushFailure { error: EncodeError::UnknownType, state })
            } else {
                push_spec(types, arch, runtime, state, inner as int, value)
            },
            TypeKind::Snapshot(inner) => if inner >= id {
                Err(PushFailure { error: EncodeError::UnknownType, state })
            } else {
                push_spec(types, arch, runtime, state, inner as int, value)
            },
            TypeKind::EcPoint => match value {
                ValueView::EcPoint(x, y) => Ok(
                    MapperView {
                        words: push_felt_spec(arch, push_felt_spec(arch, state.words, x), y),
                        scratch: state.scratch,
                    },
                ),
                _ => Err(PushFailure { error: EncodeError::TypeMismatch, state }),
            },
            TypeKind::EcState => match value {
                ValueView::EcState(x, y, x0, y0) => Ok(
                    MapperView {
                        words: push_felt_spec(
                            arch,
                            push_felt_spec(
                                arch,
                                push_felt_spec(arch, push_felt_spec(arch, state.words, x), y),
                                x0,
                            ),
                            y0,
                        ),
                        scratch: state.scratch,
                    },
                ),
                _ => Err(PushFailure { error: EncodeError::TypeMismatch, state }),
            },
            TypeKind::Felt252Dict(_) => match value {
                ValueView::Felt252Dict { handle } => if runtime {
                    Ok(MapperView { words: state.words.push(handle), scratch: state.scratch })
                } else {
                    Err(PushFailure { error: EncodeError::UnsupportedType, state })
                },
                _ => Err(PushFailure { error: EncodeError::TypeMismatch, state }),
            },
            _ => if info.kind.is_felt_like() {
                match value {
                    ValueView::Felt252(felt) => Ok(
                        MapperView {
                            words: push_felt_spec(arch, state.words, felt),
                            scratch: state.scratch,
                        },
                    ),
                    _ => Err(PushFailure { error: EncodeError::TypeMismatch, state }),
                }
            } else if info.kind.int_kind_spec() is Some {
                match value.as_int() {
                    Some((kind, number)) => if info.kind.int_kind_spec() == Some(kind) {
                        Ok(
                            MapperView {
                                words: push_aligned_spec(
                                    arch,
                                    state.words,
                                    integer_layout(kind.bits_spec(), arch).align as int,
                                    int_words_spec(kind, number),
                                ),
                                scratch: state.scratch,
                            },
                        )
                    } else {
                        Err(PushFailure { error: EncodeError::TypeMismatch, state })
                    },
                    None => Err(PushFailure { error: EncodeError::TypeMismatch, state }),
                }
            } else if info.kind.is_unit_builtin() {
                Ok(state)
            } else {
                Err(PushFailure { error: EncodeError::UnsupportedType, state })
            },
        }
    }
}

/// The state of a mapper after the fields of a struct from `index` on have been
/// pushed in declaration order. Members and fields are paired up as far as both
/// go.
pub open spec fn push_fields_spec(
    types: Seq<TypeInfo>,
    arch: Arch,
    runtime: bool,
    state: MapperView,
    parent: int,
    members: Seq<TypeId>,
    fields: Seq<ValueView>,
    index: int,
) -> Result<MapperView, PushFailure>
    decreases parent, 0int, members.len() - index,
{
    if index < 0 || index >= members.len() || index >= fields.len() {
        Ok(state)
    } else if members[index] >= parent {
        Err(PushFailure { error: EncodeError::UnknownType, state })
    } else {
        match push_spec(types, arch, runtime, state, members[index] as int, fields[index]) {
            Ok(after) => push_fields_spec(
                types,
                arch,
                runtime,
                after,
                parent,
                members,
                fields,
                index + 1,
            ),
            Err(error) => Err(error),
        }
    }
}

/// A capability token without a runtime representation leaves the word stream
/// and the scratch memory as they are, whatever value stands for it.
pub proof fn lemma_unit_builtin_elided(
    types: Seq<TypeInfo>,
    arch: Arch,
    runtime: bool,
    state: MapperView,
    id: int,
    value: ValueView,
)
    requires
        0 <= id < types.len(),
        types[id].kind.is_unit_builtin(),
    ensures
        push_spec(types, arch, runtime, state, id, value) == Ok::<MapperView, PushFailure>(state),
{
}

/// Encodes arguments into the word stream that the call trampoline loads into
/// registers and stack.
pub struct ArgumentMapper<'a> {
    /// Scratch memory for what is passed by pointer.
    pub arena: Arena,
    /// The types of the program.
    pub registry: &'a TypeRegistry,
    /// The word stream.
    pub invoke_data: Vec<u64>,
    /// Whether the runtime support for dictionaries is there.
    pub runtime_support: bool,
}

impl<'a> View for ArgumentMapper<'a> {
    type V = MapperView;

    open spec fn view(&self) -> MapperView {
        MapperView { words: self.invoke_data@, scratch: self.arena@ }
    }
}

impl<'a> ArgumentMapper<'a> {
    /// The scratch memory and the registry are well formed.
    pub open spec fn wf(&self) -> bool {
        self.arena.wf() && self.registry.wf()
    }

    /// A mapper with an empty word stream, without runtime support.
    pub fn new(arena: Arena, registry: &'a TypeRegistry) -> (mapper: Self)
        requires
            arena.wf(),
            registry.wf(),
        ensures
            mapper.wf(),
            mapper.arena == arena,
            mapper.registry == registry,
            mapper.invoke_data@ == Seq::<u64>::empty(),
            !mapper.runtime_support,
    {
        Self { arena, registry, invoke_data: Vec::new(), runtime_support: false }
    }

    /// The word stream.
    pub fn invoke_data(&self) -> (words: &[u64])
        ensures
            words@ == self@.words,
    {
        self.invoke_data.as_slice()
    }

    /// Pushes `values` with the given alignment.
    ///
    /// The alignment is one that the architecture honours. Where the values
    /// would start in the registers and end on the stack, there are at least
    /// four of them.
    pub fn push_aligned(&mut self, align: usize, values: &[u64])
        requires
            align == 1 || align == 2 || align == 4 || align == 8 || align == 16,
            align <= old(self).registry.arch.max_align_spec(),
            old(self).registry.arch is Aarch64 && align == 16 && straddles(
                old(self).invoke_data@.len() as int,
                values@.len() as int,
            ) ==> values@.len() >= 4,
        ensures
            final(self).invoke_data@ == push_aligned_spec(
                old(self).registry.arch,
                old(self).invoke_data@,
                align as int,
                values@,
            ),
            final(self).arena == old(self).arena,
            final(self).registry == old(self).registry,
            final(self).runtime_support == old(self).runtime_support,
            final(self).invoke_data@.subrange(0, old(self).invoke_data@.len() as int) == old(
                self,
            ).invoke_data@,
            align == 16 && old(self).invoke_data@.len() + 1 >= REGISTER_WORDS ==> {
                let start = final(self).invoke_data@.len() - values@.len();
                &&& start >= REGISTER_WORDS
                &&& (start - REGISTER_WORDS) * 8 % 16 == 0
                &&& final(self).invoke_data@.subrange(
                    start,
                    final(self).invoke_data@.len() as int,
                ) == values@
            },
    {
        let ghost before = self.invoke_data@;
        let mut rest: &[u64] = values;
        if align == 16 {
            let len: usize = self.invoke_data.len();
            if len >= REGISTER_WORDS {
                if len % 2 != 0 {
                    self.invoke_data.push(0);
                }
            } else if len + 1 >= REGISTER_WORDS {
                self.invoke_data.push(0);
            } else if values.len() > REGISTER_WORDS - len {
                let (chunk, tail) = values.split_at(4);
                self.invoke_data.extend_from_slice(chunk);
                self.invoke_data.push(0);
                rest = tail;
            }
        }
        self.invoke_data.extend_from_slice(rest);
        proof {
            assert(self.invoke_data@ =~= push_aligned_spec(
                self.registry.arch,
                before,
                align as int,
                values@,
            ));
            lemma_push_aligned(self.registry.arch, before, align as int, values@);
        }
    }

    /// Pushes a field element: its four digits, aligned as a 252-bit integer.
    pub fn push_felt(&mut self, felt: &Felt252)
        ensures
            final(self).invoke_data@ == push_felt_spec(
                old(self).registry.arch,
                old(self).invoke_data@,
                *felt,
            ),
            final(self).arena == old(self).arena,
            final(self).registry == old(self).registry,
            final(self).runtime_support == old(self).runtime_support,
    {
        let align: u64 = get_integer_layout(252, self.registry.arch).align;
        let digits: [u64; 4] = felt.to_le_digits();
        proof {
            felt.lemma_digits_len();
        }
        self.push_aligned(align as usize, digits.as_slice());
    }

    /// Pushes `value` as an argument of type `type_id`.
    ///
    /// Integers go as one or two sign-extended words, field elements as four
    /// digits, structs field by field. An array goes as the address of its
    /// elements in scratch memory, its length and its capacity. An enum that is
    /// passed in memory goes as the address of its form in scratch memory, any
    /// other as its tag, where it has more than one variant, and the payload of
    /// the active variant. A capability token without a runtime representation
    /// adds nothing.
    ///
    /// Where the value cannot be pushed, the mapper is left as it was when the
    /// failure was met: nothing is taken back, and nothing more is added.
    #[verifier::rlimit(40)]
    pub fn push(&mut self, type_id: TypeId, value: &JitValue) -> (result: Result<(), EncodeError>)
        requires
            old(self).wf(),
        ensures
            final(self).wf(),
            final(self).registry == old(self).registry,
            final(self).runtime_support == old(self).runtime_support,
            final(self).arena.base == old(self).arena.base,
            final(self).arena.capacity == old(self).arena.capacity,
            match push_spec(
                old(self).registry.types@,
                old(self).registry.arch,
                old(self).runtime_support,
                old(self)@,
                type_id as int,
                value@,
            ) {
                Ok(state) => result is Ok && final(self)@ == state,
                Err(failure) => result == Err::<(), EncodeError>(failure.error) && final(self)@
                    == failure.state,
            },
        decreases type_id, 1int,
    {
        if type_id >= self.registry.types.len() {
            return Err(EncodeError::UnknownType);
        }
        let registry: &TypeRegistry = self.registry;
        let info = &registry.types[type_id];
        proof {
            assert(entry_wf(registry.types@, registry.arch, type_id as int));
            value.lemma_view_items();
        }
        match &info.kind {
            TypeKind::Array(element) => match value {
                JitValue::Array(items) => {
                    proof {
                        assert(info.kind.children()[0] < type_id);
                    }
                    self.push_array(type_id, *element, items)
                },
                _ => Err(EncodeError::TypeMismatch),
            },
            TypeKind::Struct(members) => match value {
                JitValue::Struct { fields } => self.push_fields(type_id, members, fields),
                _ => Err(EncodeError::TypeMismatch),
            },
            TypeKind::Enum(variants) => match value {
                JitValue::Enum { tag, value: payload } => {
                    if info.memory_allocated {
                        self.push_boxed(type_id, value)
                    } else {
                        if *tag >= variants.len() {
                            return Err(EncodeError::TypeMismatch);
                        }
                        proof {
                            assert(info.kind.children()[*tag as int] < type_id);
                        }
                        if variants.len() > 1 {
                            self.invoke_data.push(*tag as u64);
                        }
                        self.push(variants[*tag], payload)
                    }
                },
                _ => Err(EncodeError::TypeMismatch),
            },
            TypeKind::NonZero(inner) => {
                proof {
                    assert(info.kind.children()[0] < type_id);
                }
                self.push(*inner, value)
            },
            TypeKind::Snapshot(inner) => {
                proof {
                    assert(info.kind.children()[0] < type_id);
                }
                self.push(*inner, value)
            },
            TypeKind::EcPoint => match value {
                JitValue::EcPoint(x, y) => {
                    self.push_felt(x);
                    self.push_felt(y);
                    Ok(())
                },
                _ => Err(EncodeError::TypeMismatch),
            },
            TypeKind::EcState => match value {
                JitValue::EcState(x, y, x0, y0) => {
                    self.push_felt(x);
                    self.push_felt(y);
                    self.push_felt(x0);
                    self.push_felt(y0);
                    Ok(())
                },
                _ => Err(EncodeError::TypeMismatch),
            },
            TypeKind::Felt252Dict(_) => match value {
                JitValue::Felt252Dict { handle } => {
                    if self.runtime_support {
                        self.invoke_data.push(*handle);
                        Ok(())
                    } else {
                        Err(EncodeError::UnsupportedType)
                    }
                },
                _ => Err(EncodeError::TypeMismatch),
            },
            TypeKind::Felt252
            | TypeKind::ClassHash
            | TypeKind::ContractAddress
            | TypeKind::StorageAddress
            | TypeKind::StorageBaseAddress => match value {
                JitValue::Felt252(felt) => {
                    self.push_felt(felt);
                    Ok(())
                },
                _ => Err(EncodeError::TypeMismatch),
            },
            TypeKind::Bitwise
            | TypeKind::BuiltinCosts
            | TypeKind::EcOp
            | TypeKind::Pedersen
            | TypeKind::Poseidon
            | TypeKind::RangeCheck
            | TypeKind::SegmentArena => Ok(()),
            _ => match info.kind.int_kind() {
                Some(kind) => match value.int_words() {
                    Some((value_kind, low, high)) => {
                        if value_kind == kind {
                            self.push_int(kind, low, high);
                            Ok(())
                        } else {
                            Err(EncodeError::TypeMismatch)
                        }
                    },
                    None => Err(EncodeError::TypeMismatch),
                },
                None => Err(EncodeError::UnsupportedType),
            },
        }
    }

    /// Pushes an integer of the given kind, held as the two words of its two's
    /// complement form.
    fn push_int(&mut self, kind: IntKind, low: u64, high: u64)
        ensures
            final(self).invoke_data@ == push_aligned_spec(
                old(self).registry.arch,
                old(self).invoke_data@,
                integer_layout(kind.bits_spec(), old(self).registry.arch).align as int,
                if kind.bits_spec() <= 64 {
                    seq![low]
                } else {
                    seq![low, high]
                },
            ),
            final(self).arena == old(self).arena,
            final(self).registry == old(self).registry,
            final(self).runtime_support == old(self).runtime_support,
    {
        let align: u64 = get_integer_layout(kind.bits(), self.registry.arch).align;
        if kind.bits() <= 64 {
            let words: [u64; 1] = [low];
            assert(words@ =~= seq![low]);
            self.push_aligned(align as usize, words.as_slice());
        } else {
            let words: [u64; 2] = [low, high];
            assert(words@ =~= seq![low, high]);
            self.push_aligned(align as usize, words.as_slice());
        }
    }

    /// Pushes an array: stores its elements and pushes their address, the
    /// length and the capacity.
    fn push_array(&mut self, type_id: TypeId, element: TypeId, items: &Vec<JitValue>) -> (result:
        Result<(), EncodeError>)
        requires
            old(self).wf(),
            type_id < old(self).registry.types@.len(),
            element < type_id,
        ensures
            final(self).wf(),
            final(self).registry == old(self).registry,
            final(self).runtime_support == old(self).runtime_support,
            final(self).arena.base == old(self).arena.base,
            final(self).arena.capacity == old(self).arena.capacity,
            match array_storage(
                old(self).registry.types@,
                old(self).arena@,
                type_id as int,
                element as int,
                views(items@),
            ) {
                Ok((address, after)) => result is Ok && final(self)@ == (MapperView {
                    words: push_aligned_spec(
                        old(self).registry.arch,
                        old(self).invoke_data@,
                        integer_layout(64, old(self).registry.arch).align as int,
                        seq![address, items@.len() as u64, items@.len() as u64],
                    ),
                    scratch: after,
                }),
                Err(failure) => result == Err::<(), EncodeError>(failure.error) && final(self)@
                    == (MapperView {
                    words: old(self).invoke_data@,
                    scratch: failure.scratch,
                }),
            },
    {
        let registry: &TypeRegistry = self.registry;
        match store_elements(registry, &mut self.arena, type_id, element, items) {
            Ok(address) => {
                let align: u64 = get_integer_layout(64, registry.arch).align;
                let words: [u64; 3] = [address, items.len() as u64, items.len() as u64];
                assert(words@ =~= seq![address, items@.len() as u64, items@.len() as u64]);
                self.push_aligned(align as usize, words.as_slice());
                Ok(())
            },
            Err(error) => Err(error),
        }
    }

    /// Pushes a value that is passed in memory: stores its form in scratch
    /// memory and pushes the address.
    fn push_boxed(&mut self, type_id: TypeId, value: &JitValue) -> (result: Result<
        (),
        EncodeError,
    >)
        requires
            old(self).wf(),
            type_id < old(self).registry.types@.len(),
        ensures
            final(self).wf(),
            final(self).registry == old(self).registry,
            final(self).runtime_support == old(self).runtime_support,
            final(self).arena.base == old(self).arena.base,
            final(self).arena.capacity == old(self).arena.capacity,
            match image_spec(old(self).registry.types@, old(self).arena@, type_id as int, value@) {
                Ok((image, after)) => {
                    let align = old(self).registry.types@[type_id as int].layout.align;
                    if after.can_store(align, image.len() as int) {
                        result is Ok && final(self)@ == (MapperView {
                            words: old(self).invoke_data@.push(after.store_address(align)),
                            scratch: after.store(align, image),
                        })
                    } else {
                        result == Err::<(), EncodeError>(EncodeError::ScratchExhausted)
                            && final(self)@ == (MapperView {
                            words: old(self).invoke_data@,
                            scratch: after,
                        })
                    }
                },
                Err(failure) => result == Err::<(), EncodeError>(failure.error) && final(self)@
                    == (MapperView {
                    words: old(self).invoke_data@,
                    scratch: failure.scratch,
                }),
            },
    {
        let registry: &TypeRegistry = self.registry;
        proof {
            assert(entry_wf(registry.types@, registry.arch, type_id as int));
        }
        let align: u64 = registry.types[type_id].layout.align;
        match serialize(registry, &mut self.arena, type_id, value) {
            Ok(image) => match self.arena.store(align, &image) {
                Some(address) => {
                    self.invoke_data.push(address);
                    Ok(())
                },
                None => Err(EncodeError::ScratchExhausted),
            },
            Err(error) => Err(error),
        }
    }

    /// Pushes the fields of a struct of type `type_id` in declaration order.
    fn push_fields(
        &mut self,
        type_id: TypeId,
        members: &Vec<TypeId>,
        fields: &Vec<JitValue>,
    ) -> (result: Result<(), EncodeError>)
        requires
            old(self).wf(),
            type_id < old(self).registry.types@.len(),
            old(self).registry.types@[type_id as int].kind == TypeKind::Struct(*members),
        ensures
            final(self).wf(),
            final(self).registry == old(self).registry,
            final(self).runtime_support == old(self).runtime_support,
            final(self).arena.base == old(self).arena.base,
            final(self).arena.capacity == old(self).arena.capacity,
            match push_fields_spec(
                old(self).registry.types@,
                old(self).registry.arch,
                old(self).runtime_support,
                old(self)@,
                type_id as int,
                members@,
                views(fields@),
                0,
            ) {
                Ok(state) => result is Ok && final(self)@ == state,
                Err(failure) => result == Err::<(), EncodeError>(failure.error) && final(self)@
                    == failure.state,
            },
        decreases type_id, 0int,
    {
        let ghost types = self.registry.types@;
        proof {
            assert(entry_wf(types, self.registry.arch, type_id as int));
            assert(types[type_id as int].kind.children() == members@);
            assert forall|i: int| 0 <= i < members@.len() implies #[trigger] members@[i]
                < type_id by {
                assert(types[type_id as int].kind.children()[i] < type_id);
            }
        }
        let mut index: usize = 0;
        while index < members.len() && index < fields.len()
            invariant
                self.wf(),
                self.registry == old(self).registry,
                self.runtime_support == old(self).runtime_support,
                self.arena.base == old(self).arena.base,
                self.arena.capacity == old(self).arena.capacity,
                types == self.registry.types@,
                index <= members@.len(),
                index <= fields@.len(),
                forall|i: int| 0 <= i < members@.len() ==> #[trigger] members@[i] < type_id,
                push_fields_spec(
                    types,
                    self.registry.arch,
                    self.runtime_support,
                    self@,
                    type_id as int,
                    members@,
                    views(fields@),
                    index as int,
                ) == push_fields_spec(
                    types,
                    self.registry.arch,
                    self.runtime_support,
                    old(self)@,
                    type_id as int,
                    members@,
                    views(fields@),
                    0,
                ),
            decreases members@.len() - index,
        {
            proof {
                assert(members@[index as int] < type_id);
            }
            match self.push(members[index], &fields[index]) {
                Ok(()) => {},
                Err(error) => {
                    return Err(error);
                },
            }
            index = index + 1;
        }
        Ok(())
    }
}

} // verus!
