//! The two halves of an invocation: what is done before the call, and what is
//! made of its outcome.
use crate::arch::Arch;
use crate::decode::{parse_result, parse_result_spec, read_at};
use crate::error::{DecodeError, EncodeError};
use crate::layout::{align_up, get_integer_layout, integer_layout, Layout};
use crate::mapper::{push_aligned_spec, push_spec, ArgumentMapper, MapperView};
use crate::memory::{zeros, Arena, Memory, ScratchView};
use crate::scalar::{high_word, join_words, low_word, split_words, word_modulus};
use crate::types::{entry_wf, TypeId, TypeInfo, TypeKind, TypeRegistry};
use crate::values::{views, JitValue, ValueView};
use vstd::bytes::*;
use vstd::prelude::*;

verus! {

/// The parameter and return types of a function, in declaration order.
#[derive(Debug, PartialEq, Eq)]
pub struct FunctionSignature {
    /// The parameter types.
    pub param_types: Vec<TypeId>,
    /// The return types.
    pub ret_types: Vec<TypeId>,
}

/// What a function left behind.
#[derive(Debug, PartialEq, Eq)]
pub struct ExecutionResult {
    /// What is left of the fuel, where the function returns its fuel counter.
    pub remaining_gas: Option<u128>,
    /// The value that the function returned.
    pub return_value: JitValue,
}

/// Whether a return type is left out of the return values: it is, where the
/// type has no runtime representation.
pub open spec fn elided_return(info: TypeInfo) -> bool {
    info.zero_sized
}

/// Whether every identifier of `ids` names a type.
pub open spec fn all_known(types: Seq<TypeInfo>, ids: Seq<TypeId>) -> bool {
    forall|i: int| 0 <= i < ids.len() ==> #[trigger] ids[i] < types.len()
}

/// Number of return values among the first `count` return types.
pub open spec fn kept_count(types: Seq<TypeInfo>, rets: Seq<TypeId>, count: int) -> int
    decreases count,
{
    if count <= 0 {
        0
    } else {
        kept_count(types, rets, count - 1) + if elided_return(types[rets[count - 1] as int]) {
            0int
        } else {
            1int
        }
    }
}

/// Whether the first return value among the first `count` return types is
/// complex.
pub open spec fn first_kept_complex(types: Seq<TypeInfo>, rets: Seq<TypeId>, count: int) -> bool
    decreases count,
{
    if count <= 0 {
        false
    } else if kept_count(types, rets, count - 1) > 0 {
        first_kept_complex(types, rets, count - 1)
    } else {
        !elided_return(types[rets[count - 1] as int]) && types[rets[count - 1] as int].complex
    }
}

/// The layout of the return values among the first `count` return types, one
/// behind the other; `None` where it is not addressable.
pub open spec fn slot_layout(types: Seq<TypeInfo>, rets: Seq<TypeId>, count: int) -> Option<Layout>
    decreases count,
{
    if count <= 0 {
        Some(Layout { size: 0, align: 1 })
    } else {
        match slot_layout(types, rets, count - 1) {
            Some(layout) => if elided_return(types[rets[count - 1] as int]) {
                Some(layout)
            } else if layout.can_extend(types[rets[count - 1] as int].layout) {
                Some(layout.extend_spec(types[rets[count - 1] as int].layout).0)
            } else {
                None
            },
            None => None,
        }
    }
}

/// Whether a function with the given return types returns through a return
/// slot: it does where more than one return value is left once the types
/// without a runtime representation are left out, or the one that is left is
/// complex.
pub open spec fn needs_return_slot(types: Seq<TypeInfo>, rets: Seq<TypeId>) -> bool {
    kept_count(types, rets, rets.len() as int) > 1 || first_kept_complex(
        types,
        rets,
        rets.len() as int,
    )
}

/// The layout of the return slot of a function with the given return types, if
/// it has one.
pub open spec fn plan_spec(types: Seq<TypeInfo>, rets: Seq<TypeId>) -> Result<
    Option<Layout>,
    EncodeError,
> {
    if !all_known(types, rets) {
        Err(EncodeError::UnknownType)
    } else if !needs_return_slot(types, rets) {
        Ok(None)
    } else {
        match slot_layout(types, rets, rets.len() as int) {
            Some(layout) => Ok(Some(layout)),
            None => Err(EncodeError::ReturnSlotTooLarge),
        }
    }
}

/// Decides whether a function with the given return types returns through a
/// return slot, and how large the slot is.
pub fn plan_return_slot(registry: &TypeRegistry, ret_types: &Vec<TypeId>) -> (plan: Result<
    Option<Layout>,
    EncodeError,
>)
    requires
        registry.wf(),
    ensures
        plan == plan_spec(registry.types@, ret_types@),
        plan matches Ok(Some(layout)) ==> layout.wf(),
{
    let ghost types = registry.types@;
    let mut count: usize = 0;
    let mut complex: bool = false;
    let mut layout: Option<Layout> = Some(Layout::empty());
    let mut index: usize = 0;
    while index < ret_types.len()
        invariant
            registry.wf(),
            types == registry.types@,
            index <= ret_types@.len(),
            forall|i: int| 0 <= i < index ==> #[trigger] ret_types@[i] < types.len(),
            count == kept_count(types, ret_types@, index as int),
            count <= index,
            count == 0 ==> !complex,
            complex == first_kept_complex(types, ret_types@, index as int),
            layout == slot_layout(types, ret_types@, index as int),
            layout matches Some(so_far) ==> so_far.wf(),
        decreases ret_types@.len() - index,
    {
        let id: usize = ret_types[index];
        if id >= registry.types.len() {
            return Err(EncodeError::UnknownType);
        }
        let info = &registry.types[id];
        proof {
            assert(entry_wf(types, registry.arch, id as int));
        }
        if !info.zero_sized {
            if count == 0 {
                complex = info.complex;
            }
            count = count + 1;
            layout = match layout {
                Some(so_far) => match so_far.extend(info.layout) {
                    Some(placed) => Some(placed.0),
                    None => None,
                },
                None => None,
            };
        }
        index = index + 1;
    }
    if count > 1 || complex {
        match layout {
            Some(layout) => Ok(Some(layout)),
            None => Err(EncodeError::ReturnSlotTooLarge),
        }
    } else {
        Ok(None)
    }
}

/// The state of a mapper after the parameters from `index` on have been
/// encoded, `next` being the first argument not yet used.
///
/// A parameter without a representation takes no argument and adds nothing. The
/// fuel counter and the external call context come from the side channel, any
/// other parameter takes the next argument.
pub open spec fn encode_params_spec(
    types: Seq<TypeInfo>,
    arch: Arch,
    runtime: bool,
    state: MapperView,
    params: Seq<TypeId>,
    args: Seq<ValueView>,
    gas: Option<u128>,
    syscall_handler: Option<u64>,
    index: int,
    next: int,
) -> Result<MapperView, EncodeError>
    decreases params.len() - index,
{
    if index < 0 || index >= params.len() {
        Ok(state)
    } else if params[index] >= types.len() {
        Err(EncodeError::UnknownType)
    } else {
        let info = types[params[index] as int];
        if info.zero_sized {
            encode_params_spec(
                types,
                arch,
                runtime,
                state,
                params,
                args,
                gas,
                syscall_handler,
                index + 1,
                next,
            )
        } else {
            match info.kind {
                TypeKind::GasBuiltin => match gas {
                    Some(gas_value) => encode_params_spec(
                        types,
                        arch,
                        runtime,
                        MapperView {
                            words: push_aligned_spec(
                                arch,
                                state.words,
                                integer_layout(128, arch).align as int,
                                seq![low_word(gas_value as int), high_word(gas_value as int)],
                            ),
                            scratch: state.scratch,
                        },
                        params,
                        args,
                        gas,
                        syscall_handler,
                        index + 1,
                        next,
                    ),
                    None => Err(EncodeError::MissingImplicit),
                },
                TypeKind::System => match syscall_handler {
                    Some(handler) => encode_params_spec(
                        types,
                        arch,
                        runtime,
                        MapperView {
                            words: push_aligned_spec(
                                arch,
                                state.words,
                                integer_layout(64, arch).align as int,
                                seq![handler],
                            ),
                            scratch: state.scratch,
                        },
                        params,
                        args,
                        gas,
                        syscall_handler,
                        index + 1,
                        next,
                    ),
                    None => Err(EncodeError::MissingImplicit),
                },
                _ => if next < 0 || next >= args.len() {
                    Err(EncodeError::MissingArgument)
                } else {
                    match push_spec(
                        types,
                        arch,
                        runtime,
                        state,
                        params[index] as int,
                        args[next],
                    ) {
                        Ok(after) => encode_params_spec(
                            types,
                            arch,
                            runtime,
                            after,
                            params,
                            args,
                            gas,
                            syscall_handler,
                            index + 1,
                            next + 1,
                        ),
                        Err(failure) => Err(failure.error),
                    }
                },
            }
        }
    }
}

/// The state of a fresh mapper over `scratch` after the return slot has been
/// set up: where the function has one, it is zero-filled scratch memory, and
/// its address is the first word.
pub open spec fn slot_spec(arch: Arch, scratch: ScratchView, plan: Option<Layout>) -> Result<
    (MapperView, Option<u64>),
    EncodeError,
> {
    match plan {
        Some(layout) => if scratch.can_store(layout.align, layout.size as int) {
            Ok(
                (
                    MapperView {
                        words: push_aligned_spec(
                            arch,
                            Seq::empty(),
                            integer_layout(64, arch).align as int,
                            seq![scratch.store_address(layout.align)],
                        ),
                        scratch: scratch.store(layout.align, zeros(layout.size as int)),
                    },
                    Some(scratch.store_address(layout.align)),
                ),
            )
        } else {
            Err(EncodeError::ScratchExhausted)
        },
        None => Ok((MapperView { words: Seq::empty(), scratch }, None)),
    }
}

/// The word stream, the scratch memory and the address of the return slot of a
/// call.
pub open spec fn prepare_spec(
    types: Seq<TypeInfo>,
    arch: Arch,
    runtime: bool,
    scratch: ScratchView,
    signature: FunctionSignature,
    args: Seq<ValueView>,
    gas: Option<u128>,
    syscall_handler: Option<u64>,
) -> Result<(MapperView, Option<u64>), EncodeError> {
    match plan_spec(types, signature.ret_types@) {
        Ok(plan) => match slot_spec(arch, scratch, plan) {
            Ok((state, return_ptr)) => match encode_params_spec(
                types,
                arch,
                runtime,
                state,
                signature.param_types@,
                args,
                gas,
                syscall_handler,
                0,
                0,
            ) {
                Ok(after) => Ok((after, return_ptr)),
                Err(error) => Err(error),
            },
            Err(error) => Err(error),
        },
        Err(error) => Err(error),
    }
}

/// What the trampoline needs for a call, and what the decoder needs after it.
#[derive(Debug)]
pub struct PreparedCall {
    /// The word stream: the first eight words go to the integer argument
    /// registers, the rest to the stack, in order.
    pub invoke_data: Vec<u64>,
    /// The scratch memory, which must lie at its address during the call.
    pub arena: Arena,
    /// The address of the return slot, if the function returns through one.
    pub return_ptr: Option<u64>,
}

/// Prepares a call: sets up the return slot and encodes the arguments.
///
/// Fails, before anything is handed to the trampoline, where the function takes
/// the fuel counter or the external call context and none was supplied, where
/// arguments are missing or not of the declared type, where a type cannot be
/// passed, and where the scratch memory does not suffice.
pub fn prepare_invocation(
    registry: &TypeRegistry,
    arena: Arena,
    signature: &FunctionSignature,
    args: &Vec<JitValue>,
    gas: Option<u128>,
    syscall_handler: Option<u64>,
    runtime_support: bool,
) -> (result: Result<PreparedCall, EncodeError>)
    requires
        registry.wf(),
        arena.wf(),
    ensures
        match prepare_spec(
            registry.types@,
            registry.arch,
            runtime_support,
            arena@,
            *signature,
            views(args@),
            gas,
            syscall_handler,
        ) {
            Ok((state, return_ptr)) => {
                &&& result matches Ok(call)
                &&& call.invoke_data@ == state.words
                &&& call.arena@ == state.scratch
                &&& call.arena.wf()
                &&& call.return_ptr == return_ptr
            },
            Err(error) => result matches Err(e) && e == error,
        },
{
    let ghost types = registry.types@;
    let ghost initial = arena@;
    let plan = match plan_return_slot(registry, &signature.ret_types) {
        Ok(plan) => plan,
        Err(error) => {
            return Err(error);
        },
    };
    let mut mapper = ArgumentMapper::new(arena, registry);
    mapper.runtime_support = runtime_support;
    let return_ptr: Option<u64> = match plan {
        Some(layout) => match mapper.arena.reserve(layout.align, layout.size) {
            Some(address) => {
                let align: u64 = get_integer_layout(64, registry.arch).align;
                let words: [u64; 1] = [address];
                assert(words@ =~= seq![address]);
                mapper.push_aligned(align as usize, words.as_slice());
                Some(address)
            },
            None => {
                return Err(EncodeError::ScratchExhausted);
            },
        },
        None => None,
    };
    let ghost start = mapper@;
    proof {
        assert(plan_spec(types, signature.ret_types@) == Ok::<Option<Layout>, EncodeError>(plan));
        assert(slot_spec(registry.arch, initial, plan) == Ok::<
            (MapperView, Option<u64>),
            EncodeError,
        >((start, return_ptr)));
    }
    let mut next: usize = 0;
    let mut index: usize = 0;
    while index < signature.param_types.len()
        invariant
            mapper.wf(),
            mapper.registry == registry,
            mapper.runtime_support == runtime_support,
            types == registry.types@,
            plan_spec(types, signature.ret_types@) == Ok::<Option<Layout>, EncodeError>(plan),
            slot_spec(registry.arch, initial, plan) == Ok::<
                (MapperView, Option<u64>),
                EncodeError,
            >((start, return_ptr)),
            initial == arena@,
            index <= signature.param_types@.len(),
            next <= index,
            encode_params_spec(
                types,
                registry.arch,
                runtime_support,
                mapper@,
                signature.param_types@,
                views(args@),
                gas,
                syscall_handler,
                index as int,
                next as int,
            ) == encode_params_spec(
                types,
                registry.arch,
                runtime_support,
                start,
                signature.param_types@,
                views(args@),
                gas,
                syscall_handler,
                0,
                0,
            ),
        decreases signature.param_types@.len() - index,
    {
        let id: usize = signature.param_types[index];
        if id >= registry.types.len() {
            return Err(EncodeError::UnknownType);
        }
        let info = &registry.types[id];
        if !info.zero_sized {
            match &info.kind {
                TypeKind::GasBuiltin => match gas {
                    Some(gas_value) => {
                        let align: u64 = get_integer_layout(128, registry.arch).align;
                        let pair = split_words(gas_value);
                        let words: [u64; 2] = [pair.0, pair.1];
                        assert(words@ =~= seq![
                            low_word(gas_value as int),
                            high_word(gas_value as int),
                        ]);
                        mapper.push_aligned(align as usize, words.as_slice());
                    },
                    None => {
                        return Err(EncodeError::MissingImplicit);
                    },
                },
                TypeKind::System => match syscall_handler {
                    Some(handler) => {
                        let align: u64 = get_integer_layout(64, registry.arch).align;
                        let words: [u64; 1] = [handler];
                        assert(words@ =~= seq![handler]);
                        mapper.push_aligned(align as usize, words.as_slice());
                    },
                    None => {
                        return Err(EncodeError::MissingImplicit);
                    },
                },
                _ => {
                    if next >= args.len() {
                        return Err(EncodeError::MissingArgument);
                    }
                    match mapper.push(id, &args[next]) {
                        Ok(()) => {},
                        Err(error) => {
                            return Err(error);
                        },
                    }
                    next = next + 1;
                },
            }
        }
        index = index + 1;
    }
    Ok(PreparedCall { invoke_data: mapper.invoke_data, arena: mapper.arena, return_ptr })
}

/// `address` rounded up to the alignment of a type, where there is a return
/// slot.
pub open spec fn aligned_cursor(cursor: Option<u64>, align: u64) -> Option<int> {
    match cursor {
        Some(address) => Some(align_up(address as int, align as int)),
        None => None,
    }
}

/// The cursor into the return slot and the fuel left, after the capability
/// tokens that lead the return types from `index` on have been consumed.
///
/// The fuel counter is read from the return slot where there is one, and from
/// the first two return registers where there is none. The external call
/// context is skipped. Capability tokens without a runtime representation move
/// nothing.
pub open spec fn consume_builtins_spec(
    types: Seq<TypeInfo>,
    memory: Memory,
    rets: Seq<TypeId>,
    registers: Seq<u64>,
    index: int,
    cursor: Option<u64>,
    gas: Option<u128>,
) -> Result<(Option<u64>, Option<u128>), DecodeError>
    decreases rets.len() - index,
{
    if index < 0 || index >= rets.len() {
        Ok((cursor, gas))
    } else if rets[index] >= types.len() {
        Err(DecodeError::UnknownType)
    } else {
        let info = types[rets[index] as int];
        match info.kind {
            TypeKind::GasBuiltin => match aligned_cursor(cursor, info.layout.align) {
                Some(address) => if address + 16 > u64::MAX {
                    Err(DecodeError::AddressOverflow)
                } else {
                    match read_at(memory, address, 16) {
                        Ok(bytes) => consume_builtins_spec(
                            types,
                            memory,
                            rets,
                            registers,
                            index + 1,
                            Some((address + 16) as u64),
                            Some(spec_u128_from_le_bytes(bytes)),
                        ),
                        Err(error) => Err(error),
                    }
                },
                None => consume_builtins_spec(
                    types,
                    memory,
                    rets,
                    registers,
                    index + 1,
                    cursor,
                    Some((registers[0] + registers[1] * word_modulus()) as u128),
                ),
            },
            TypeKind::System => match aligned_cursor(cursor, info.layout.align) {
                Some(address) => if address + 8 > u64::MAX {
                    Err(DecodeError::AddressOverflow)
                } else {
                    consume_builtins_spec(
                        types,
                        memory,
                        rets,
                        registers,
                        index + 1,
                        Some((address + 8) as u64),
                        gas,
                    )
                },
                None => consume_builtins_spec(
                    types,
                    memory,
                    rets,
                    registers,
                    index + 1,
                    cursor,
                    gas,
                ),
            },
            _ => if info.kind.is_builtin_spec() {
                consume_builtins_spec(types, memory, rets, registers, index + 1, cursor, gas)
            } else {
                Ok((cursor, gas))
            },
        }
    }
}

/// What a call with the given outcome returned: the fuel left, the value of
/// the last return type, and the heap block to free.
pub open spec fn finish_spec(
    types: Seq<TypeInfo>,
    arch: Arch,
    memory: Memory,
    rets: Seq<TypeId>,
    return_ptr: Option<u64>,
    registers: Seq<u64>,
) -> Result<(Option<u128>, ValueView, Option<u64>), DecodeError> {
    if rets.len() == 0 {
        Err(DecodeError::NoReturnType)
    } else {
        match consume_builtins_spec(types, memory, rets, registers, 0, return_ptr, None) {
            Ok((cursor, gas)) => if rets.last() >= types.len() {
                Err(DecodeError::UnknownType)
            } else {
                match aligned_cursor(cursor, types[rets.last() as int].layout.align) {
                    Some(address) => if address > u64::MAX {
                        Err(DecodeError::AddressOverflow)
                    } else {
                        match parse_result_spec(
                            types,
                            arch,
                            memory,
                            rets.last() as int,
                            Some(address as u64),
                            registers,
                        ) {
                            Ok((value, release)) => Ok((gas, value, release)),
                            Err(error) => Err(error),
                        }
                    },
                    None => match parse_result_spec(
                        types,
                        arch,
                        memory,
                        rets.last() as int,
                        None,
                        registers,
                    ) {
                        Ok((value, release)) => Ok((gas, value, release)),
                        Err(error) => Err(error),
                    },
                }
            },
            Err(error) => Err(error),
        }
    }
}

/// What a finished call hands back.
#[derive(Debug, PartialEq, Eq)]
pub struct FinishedCall {
    /// The fuel left and the return value.
    pub result: ExecutionResult,
    /// The address of the heap block that held a boxed or nullable return
    /// value, for the caller to free.
    pub release: Option<u64>,
}

/// `address` rounded up to a multiple of `align`, if that is an address.
fn align_address(address: u64, align: u64) -> (aligned: Option<u64>)
    requires
        align == 1 || align == 2 || align == 4 || align == 8 || align == 16,
    ensures
        match aligned {
            Some(aligned) => aligned == align_up(address as int, align as int),
            None => align_up(address as int, align as int) > u64::MAX,
        },
{
    let rest: u64 = address % align;
    if rest == 0 {
        Some(address)
    } else if align - rest > u64::MAX - address {
        None
    } else {
        Some(address + (align - rest))
    }
}

/// Makes the result of a call from what the callee left in the return
/// registers and in memory.
///
/// The return values are consumed in the order of the return types: the fuel
/// counter and the external call context first, from the return slot where one
/// was allocated and from the registers where none was, then the value of the
/// last return type.
#[verifier::loop_isolation(false)]
pub fn finish_invocation(
    registry: &TypeRegistry,
    memory: &Memory,
    signature: &FunctionSignature,
    return_ptr: Option<u64>,
    ret_registers: &[u64],
) -> (result: Result<FinishedCall, DecodeError>)
    requires
        registry.wf(),
        ret_registers@.len() == registry.arch.return_registers_spec(),
    ensures
        match finish_spec(
            registry.types@,
            registry.arch,
            *memory,
            signature.ret_types@,
            return_ptr,
            ret_registers@,
        ) {
            Ok((gas, value, release)) => {
                &&& result matches Ok(finished)
                &&& finished.result.remaining_gas == gas
                &&& finished.result.return_value@ == value
                &&& finished.release == release
            },
            Err(error) => result matches Err(e) && e == error,
        },
{
    let ghost types = registry.types@;
    let rets = &signature.ret_types;
    if rets.len() == 0 {
        return Err(DecodeError::NoReturnType);
    }
    let mut cursor: Option<u64> = return_ptr;
    let mut gas: Option<u128> = None;
    let mut index: usize = 0;
    let mut done: bool = false;
    while index < rets.len() && !done
        invariant
            registry.wf(),
            types == registry.types@,
            ret_registers@.len() == registry.arch.return_registers_spec(),
            index <= rets@.len(),
            consume_builtins_spec(
                types,
                *memory,
                rets@,
                ret_registers@,
                index as int,
                cursor,
                gas,
            ) == consume_builtins_spec(
                types,
                *memory,
                rets@,
                ret_registers@,
                0,
                return_ptr,
                None,
            ),
            done ==> consume_builtins_spec(
                types,
                *memory,
                rets@,
                ret_registers@,
                index as int,
                cursor,
                gas,
            ) == Ok::<(Option<u64>, Option<u128>), DecodeError>((cursor, gas)),
        decreases
                rets@.len() - index,
                (if done {
                    0int
                } else {
                    1int
                }),
    {
        let id: usize = rets[index];
        if id >= registry.types.len() {
            return Err(DecodeError::UnknownType);
        }
        let info = &registry.types[id];
        proof {
            assert(entry_wf(types, registry.arch, id as int));
        }
        match &info.kind {
            TypeKind::GasBuiltin => match cursor {
                Some(address) => {
                    let at: u64 = match align_address(address, info.layout.align) {
                        Some(at) => at,
                        None => {
                            return Err(DecodeError::AddressOverflow);
                        },
                    };
                    if at > u64::MAX - 16 {
                        return Err(DecodeError::AddressOverflow);
                    }
                    match memory.read(at, 16) {
                        Some(bytes) => {
                            gas = Some(u128_from_le_bytes(bytes.as_slice()));
                            cursor = Some(at + 16);
                        },
                        None => {
                            return Err(DecodeError::Unmapped { address: at, len: 16 });
                        },
                    }
                },
                None => {
                    gas = Some(join_words(ret_registers[0], ret_registers[1]));
                },
            },
            TypeKind::System => match cursor {
                Some(address) => {
                    let at: u64 = match align_address(address, info.layout.align) {
                        Some(at) => at,
                        None => {
                            return Err(DecodeError::AddressOverflow);
                        },
                    };
                    if at > u64::MAX - 8 {
                        return Err(DecodeError::AddressOverflow);
                    }
                    cursor = Some(at + 8);
                },
                None => {},
            },
            _ => {
                if !info.kind.is_builtin() {
                    done = true;
                }
            },
        }
        if !done {
            index = index + 1;
        }
    }
    let last: usize = rets[rets.len() - 1];
    if last >= registry.types.len() {
        return Err(DecodeError::UnknownType);
    }
    proof {
        assert(entry_wf(types, registry.arch, last as int));
        assert(rets@.last() == last);
    }
    let start: Option<u64> = match cursor {
        Some(address) => match align_address(address, registry.types[last].layout.align) {
            Some(at) => Some(at),
            None => {
                return Err(DecodeError::AddressOverflow);
            },
        },
        None => None,
    };
    match parse_result(last, registry, memory, start, ret_registers) {
        Ok(parsed) => Ok(
            FinishedCall {
                result: ExecutionResult { remaining_gas: gas, return_value: parsed.value },
                release: parsed.release,
            },
        ),
        Err(error) => Err(error),
    }
}

} // verus!
