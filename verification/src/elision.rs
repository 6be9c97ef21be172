//! Capability tokens without a runtime representation leave no trace: a
//! signature with such a token more or less is called and answered alike.
use crate::arch::Arch;
use crate::invoke::{
    all_known, consume_builtins_spec, encode_params_spec, finish_spec, first_kept_complex,
    kept_count, plan_spec, prepare_spec, slot_layout, FunctionSignature,
};
use crate::layout::integer_layout;
use crate::mapper::{push_aligned_spec, push_spec, MapperView};
use crate::memory::{Memory, ScratchView};
use crate::roundtrip::types_wf;
use crate::scalar::{high_word, low_word};
use crate::types::{entry_wf, TypeId, TypeInfo, TypeKind};
use crate::values::ValueView;
use vstd::prelude::*;

verus! {

/// Whether `longer` is `shorter` with a capability token without a runtime
/// representation put in at position `at`.
pub open spec fn token_inserted(
    types: Seq<TypeInfo>,
    shorter: Seq<TypeId>,
    longer: Seq<TypeId>,
    at: int,
) -> bool {
    &&& 0 <= at <= shorter.len()
    &&& longer.len() == shorter.len() + 1
    &&& longer[at] < types.len()
    &&& types[longer[at] as int].kind.is_unit_builtin()
    &&& longer == shorter.insert(at, longer[at])
}

/// What lies around an inserted token: the types before it are where they
/// were, the types behind it have moved by one.
pub proof fn lemma_token_inserted(
    types: Seq<TypeInfo>,
    arch: Arch,
    shorter: Seq<TypeId>,
    longer: Seq<TypeId>,
    at: int,
)
    requires
        types_wf(types, arch),
        token_inserted(types, shorter, longer, at),
    ensures
        forall|i: int| 0 <= i < at ==> longer[i] == shorter[i],
        forall|i: int| at <= i < shorter.len() ==> longer[i + 1] == shorter[i],
        types[longer[at] as int].zero_sized,
        !(types[longer[at] as int].kind is GasBuiltin),
        !(types[longer[at] as int].kind is System),
        types[longer[at] as int].kind.is_builtin_spec(),
{
    shorter.insert_ensures(at, longer[at]);
    assert(entry_wf(types, arch, longer[at] as int));
    assert forall|i: int| at <= i < shorter.len() implies longer[i + 1] == shorter[i] by {
        assert(longer[i + 1] == shorter.insert(at, longer[at])[i + 1]);
    }
}

/// Behind an inserted token the parameters are encoded as without it.
pub proof fn lemma_params_behind_token(
    types: Seq<TypeInfo>,
    arch: Arch,
    runtime: bool,
    state: MapperView,
    shorter: Seq<TypeId>,
    longer: Seq<TypeId>,
    at: int,
    args: Seq<ValueView>,
    gas: Option<u128>,
    syscall_handler: Option<u64>,
    index: int,
    next: int,
)
    requires
        types_wf(types, arch),
        token_inserted(types, shorter, longer, at),
        at <= index,
    ensures
        encode_params_spec(
            types,
            arch,
            runtime,
            state,
            longer,
            args,
            gas,
            syscall_handler,
            index + 1,
            next,
        ) == encode_params_spec(
            types,
            arch,
            runtime,
            state,
            shorter,
            args,
            gas,
            syscall_handler,
            index,
            next,
        ),
    decreases shorter.len() - index,
{
    lemma_token_inserted(types, arch, shorter, longer, at);
    if index < shorter.len() && shorter[index] < types.len() {
        let info = types[shorter[index] as int];
        assert(longer[index + 1] == shorter[index]);
        if info.zero_sized {
            lemma_params_behind_token(
                types,
                arch,
                runtime,
                state,
                shorter,
                longer,
                at,
                args,
                gas,
                syscall_handler,
                index + 1,
                next,
            );
        } else {
            match info.kind {
                TypeKind::GasBuiltin => match gas {
                    Some(gas_value) => {
                        lemma_params_behind_token(
                            types,
                            arch,
                            runtime,
                            fuel_pushed(arch, state, gas_value),
                            shorter,
                            longer,
                            at,
                            args,
                            gas,
                            syscall_handler,
                            index + 1,
                            next,
                        );
                    },
                    None => {},
                },
                TypeKind::System => match syscall_handler {
                    Some(handler) => {
                        lemma_params_behind_token(
                            types,
                            arch,
                            runtime,
                            handler_pushed(arch, state, handler),
                            shorter,
                            longer,
                            at,
                            args,
                            gas,
                            syscall_handler,
                            index + 1,
                            next,
                        );
                    },
                    None => {},
                },
                _ => {
                    if 0 <= next < args.len() {
                        match push_spec(
                            types,
                            arch,
                            runtime,
                            state,
                            shorter[index] as int,
                            args[next],
                        ) {
                            Ok(after) => {
                                lemma_params_behind_token(
                                    types,
                                    arch,
                                    runtime,
                                    after,
                                    shorter,
                                    longer,
                                    at,
                                    args,
                                    gas,
                                    syscall_handler,
                                    index + 1,
                                    next + 1,
                                );
                            },
                            Err(_) => {},
                        }
                    }
                },
            }
        }
    } else if index < shorter.len() {
        assert(longer[index + 1] == shorter[index]);
    }
}

/// The state of a mapper after the fuel has been pushed.
pub open spec fn fuel_pushed(arch: Arch, state: MapperView, gas: u128) -> MapperView {
    MapperView {
        words: push_aligned_spec(
            arch,
            state.words,
            integer_layout(128, arch).align as int,
            seq![low_word(gas as int), high_word(gas as int)],
        ),
        scratch: state.scratch,
    }
}

/// The state of a mapper after the external call context has been pushed.
pub open spec fn handler_pushed(arch: Arch, state: MapperView, handler: u64) -> MapperView {
    MapperView {
        words: push_aligned_spec(
            arch,
            state.words,
            integer_layout(64, arch).align as int,
            seq![handler],
        ),
        scratch: state.scratch,
    }
}

/// The parameters are encoded alike with and without an inserted token.
pub proof fn lemma_params_with_token(
    types: Seq<TypeInfo>,
    arch: Arch,
    runtime: bool,
    state: MapperView,
    shorter: Seq<TypeId>,
    longer: Seq<TypeId>,
    at: int,
    args: Seq<ValueView>,
    gas: Option<u128>,
    syscall_handler: Option<u64>,
    index: int,
    next: int,
)
    requires
        types_wf(types, arch),
        token_inserted(types, shorter, longer, at),
        0 <= index <= at,
    ensures
        encode_params_spec(
            types,
            arch,
            runtime,
            state,
            longer,
            args,
            gas,
            syscall_handler,
            index,
            next,
        ) == encode_params_spec(
            types,
            arch,
            runtime,
            state,
            shorter,
            args,
            gas,
            syscall_handler,
            index,
            next,
        ),
    decreases at - index,
{
    lemma_token_inserted(types, arch, shorter, longer, at);
    if index == at {
        lemma_params_behind_token(
            types,
            arch,
            runtime,
            state,
            shorter,
            longer,
            at,
            args,
            gas,
            syscall_handler,
            at,
            next,
        );
    } else {
        assert(longer[index] == shorter[index]);
        if shorter[index] < types.len() {
            let info = types[shorter[index] as int];
            if info.zero_sized {
                lemma_params_with_token(
                    types,
                    arch,
                    runtime,
                    state,
                    shorter,
                    longer,
                    at,
                    args,
                    gas,
                    syscall_handler,
                    index + 1,
                    next,
                );
            } else {
                match info.kind {
                    TypeKind::GasBuiltin => match gas {
                        Some(gas_value) => {
                            lemma_params_with_token(
                                types,
                                arch,
                                runtime,
                                fuel_pushed(arch, state, gas_value),
                                shorter,
                                longer,
                                at,
                                args,
                                gas,
                                syscall_handler,
                                index + 1,
                                next,
                            );
                        },
                        None => {},
                    },
                    TypeKind::System => match syscall_handler {
                        Some(handler) => {
                            lemma_params_with_token(
                                types,
                                arch,
                                runtime,
                                handler_pushed(arch, state, handler),
                                shorter,
                                longer,
                                at,
                                args,
                                gas,
                                syscall_handler,
                                index + 1,
                                next,
                            );
                        },
                        None => {},
                    },
                    _ => {
                        if 0 <= next < args.len() {
                            match push_spec(
                                types,
                                arch,
                                runtime,
                                state,
                                shorter[index] as int,
                                args[next],
                            ) {
                                Ok(after) => {
                                    lemma_params_with_token(
                                        types,
                                        arch,
                                        runtime,
                                        after,
                                        shorter,
                                        longer,
                                        at,
                                        args,
                                        gas,
                                        syscall_handler,
                                        index + 1,
                                        next + 1,
                                    );
                                },
                                Err(_) => {},
                            }
                        }
                    },
                }
            }
        }
    }
}

/// Up to an inserted token the return values are counted and laid out as
/// without it.
pub proof fn lemma_plan_before_token(
    types: Seq<TypeInfo>,
    arch: Arch,
    shorter: Seq<TypeId>,
    longer: Seq<TypeId>,
    at: int,
    count: int,
)
    requires
        types_wf(types, arch),
        token_inserted(types, shorter, longer, at),
        count <= at,
    ensures
        kept_count(types, longer, count) == kept_count(types, shorter, count),
        first_kept_complex(types, longer, count) == first_kept_complex(types, shorter, count),
        slot_layout(types, longer, count) == slot_layout(types, shorter, count),
    decreases count,
{
    lemma_token_inserted(types, arch, shorter, longer, at);
    if count > 0 {
        lemma_plan_before_token(types, arch, shorter, longer, at, count - 1);
        assert(longer[count - 1] == shorter[count - 1]);
    }
}

/// Where no return value is left, none is complex.
pub proof fn lemma_none_kept(types: Seq<TypeInfo>, rets: Seq<TypeId>, count: int)
    ensures
        kept_count(types, rets, count) >= 0,
        kept_count(types, rets, count) == 0 ==> !first_kept_complex(types, rets, count),
    decreases count,
{
    if count > 0 {
        lemma_none_kept(types, rets, count - 1);
    }
}

/// Behind an inserted token the return values are counted and laid out as
/// without it.
pub proof fn lemma_plan_behind_token(
    types: Seq<TypeInfo>,
    arch: Arch,
    shorter: Seq<TypeId>,
    longer: Seq<TypeId>,
    at: int,
    count: int,
)
    requires
        types_wf(types, arch),
        token_inserted(types, shorter, longer, at),
        at <= count <= shorter.len(),
    ensures
        kept_count(types, longer, count + 1) == kept_count(types, shorter, count),
        first_kept_complex(types, longer, count + 1) == first_kept_complex(
            types,
            shorter,
            count,
        ),
        slot_layout(types, longer, count + 1) == slot_layout(types, shorter, count),
    decreases count - at,
{
    lemma_token_inserted(types, arch, shorter, longer, at);
    if count == at {
        lemma_plan_before_token(types, arch, shorter, longer, at, at);
        lemma_none_kept(types, shorter, at);
    } else {
        lemma_plan_behind_token(types, arch, shorter, longer, at, count - 1);
        assert(longer[count] == shorter[count - 1]);
    }
}

/// The return slot is planned alike with and without an inserted token.
pub proof fn lemma_plan_with_token(
    types: Seq<TypeInfo>,
    arch: Arch,
    shorter: Seq<TypeId>,
    longer: Seq<TypeId>,
    at: int,
)
    requires
        types_wf(types, arch),
        token_inserted(types, shorter, longer, at),
    ensures
        plan_spec(types, longer) == plan_spec(types, shorter),
{
    lemma_token_inserted(types, arch, shorter, longer, at);
    lemma_plan_behind_token(types, arch, shorter, longer, at, shorter.len() as int);
    if all_known(types, shorter) {
        assert forall|i: int| 0 <= i < longer.len() implies #[trigger] longer[i] < types.len() by {
            if i < at {
                assert(longer[i] == shorter[i]);
            } else if i > at {
                assert(longer[(i - 1) + 1] == shorter[i - 1]);
            }
        }
    } else {
        let i = choose|i: int| 0 <= i < shorter.len() && !(#[trigger] shorter[i] < types.len());
        if i < at {
            assert(longer[i] == shorter[i]);
        } else {
            assert(longer[i + 1] == shorter[i]);
        }
    }
}

/// Behind an inserted token the leading capability tokens of the return types
/// are consumed as without it.
pub proof fn lemma_consume_behind_token(
    types: Seq<TypeInfo>,
    arch: Arch,
    memory: Memory,
    shorter: Seq<TypeId>,
    longer: Seq<TypeId>,
    at: int,
    registers: Seq<u64>,
    index: int,
    cursor: Option<u64>,
    gas: Option<u128>,
)
    requires
        types_wf(types, arch),
        token_inserted(types, shorter, longer, at),
        at <= index,
    ensures
        consume_builtins_spec(types, memory, longer, registers, index + 1, cursor, gas)
            == consume_builtins_spec(types, memory, shorter, registers, index, cursor, gas),
    decreases shorter.len() - index,
{
    lemma_token_inserted(types, arch, shorter, longer, at);
    if index < shorter.len() {
        assert(longer[index + 1] == shorter[index]);
        if shorter[index] < types.len() {
            let step = consume_step(types, memory, shorter[index], registers, cursor, gas);
            if step is Some {
                lemma_consume_behind_token(
                    types,
                    arch,
                    memory,
                    shorter,
                    longer,
                    at,
                    registers,
                    index + 1,
                    step.unwrap().0,
                    step.unwrap().1,
                );
            }
        }
    }
}

/// The cursor and the fuel after one leading return type has been consumed,
/// where consuming goes on behind it.
pub open spec fn consume_step(
    types: Seq<TypeInfo>,
    memory: Memory,
    id: TypeId,
    registers: Seq<u64>,
    cursor: Option<u64>,
    gas: Option<u128>,
) -> Option<(Option<u64>, Option<u128>)> {
    let info = types[id as int];
    match info.kind {
        TypeKind::GasBuiltin => match crate::invoke::aligned_cursor(cursor, info.layout.align) {
            Some(address) => if address + 16 > u64::MAX {
                None
            } else {
                match crate::decode::read_at(memory, address, 16) {
                    Ok(bytes) => Some(
                        (
                            Some((address + 16) as u64),
                            Some(vstd::bytes::spec_u128_from_le_bytes(bytes)),
                        ),
                    ),
                    Err(_) => None,
                }
            },
            None => Some(
                (
                    cursor,
                    Some((registers[0] + registers[1] * crate::scalar::word_modulus()) as u128),
                ),
            ),
        },
        TypeKind::System => match crate::invoke::aligned_cursor(cursor, info.layout.align) {
            Some(address) => if address + 8 > u64::MAX {
                None
            } else {
                Some((Some((address + 8) as u64), gas))
            },
            None => Some((cursor, gas)),
        },
        _ => if info.kind.is_builtin_spec() {
            Some((cursor, gas))
        } else {
            None
        },
    }
}

/// The leading capability tokens of the return types are consumed alike with
/// and without an inserted token.
pub proof fn lemma_consume_with_token(
    types: Seq<TypeInfo>,
    arch: Arch,
    memory: Memory,
    shorter: Seq<TypeId>,
    longer: Seq<TypeId>,
    at: int,
    registers: Seq<u64>,
    index: int,
    cursor: Option<u64>,
    gas: Option<u128>,
)
    requires
        types_wf(types, arch),
        token_inserted(types, shorter, longer, at),
        0 <= index <= at,
    ensures
        consume_builtins_spec(types, memory, longer, registers, index, cursor, gas)
            == consume_builtins_spec(types, memory, shorter, registers, index, cursor, gas),
    decreases at - index,
{
    lemma_token_inserted(types, arch, shorter, longer, at);
    if index == at {
        lemma_consume_behind_token(
            types,
            arch,
            memory,
            shorter,
            longer,
            at,
            registers,
            at,
            cursor,
            gas,
        );
    } else {
        assert(longer[index] == shorter[index]);
        if shorter[index] < types.len() {
            let step = consume_step(types, memory, shorter[index], registers, cursor, gas);
            if step is Some {
                lemma_consume_with_token(
                    types,
                    arch,
                    memory,
                    shorter,
                    longer,
                    at,
                    registers,
                    index + 1,
                    step.unwrap().0,
                    step.unwrap().1,
                );
            }
        }
    }
}

/// A capability token without a runtime representation among the parameters
/// changes nothing of a call: with the token put in at any place, the same
/// arguments give the same word stream, scratch memory and return slot, or the
/// same error.
pub proof fn lemma_token_parameter_elided(
    types: Seq<TypeInfo>,
    arch: Arch,
    runtime: bool,
    scratch: ScratchView,
    without: FunctionSignature,
    with: FunctionSignature,
    at: int,
    args: Seq<ValueView>,
    gas: Option<u128>,
    syscall_handler: Option<u64>,
)
    requires
        types_wf(types, arch),
        token_inserted(types, without.param_types@, with.param_types@, at),
        with.ret_types@ == without.ret_types@,
    ensures
        prepare_spec(types, arch, runtime, scratch, with, args, gas, syscall_handler)
            == prepare_spec(types, arch, runtime, scratch, without, args, gas, syscall_handler),
{
    match plan_spec(types, without.ret_types@) {
        Ok(plan) => match crate::invoke::slot_spec(arch, scratch, plan) {
            Ok((state, _)) => {
                lemma_params_with_token(
                    types,
                    arch,
                    runtime,
                    state,
                    without.param_types@,
                    with.param_types@,
                    at,
                    args,
                    gas,
                    syscall_handler,
                    0,
                    0,
                );
            },
            Err(_) => {},
        },
        Err(_) => {},
    }
}

/// A capability token without a runtime representation among the return types
/// before the last changes nothing of a call: with the token put in, the same
/// arguments give the same word stream, scratch memory and return slot, and
/// the same outcome of the callee gives the same result.
pub proof fn lemma_token_return_elided(
    types: Seq<TypeInfo>,
    arch: Arch,
    runtime: bool,
    scratch: ScratchView,
    memory: Memory,
    without: FunctionSignature,
    with: FunctionSignature,
    at: int,
    args: Seq<ValueView>,
    gas: Option<u128>,
    syscall_handler: Option<u64>,
    return_ptr: Option<u64>,
    registers: Seq<u64>,
)
    requires
        types_wf(types, arch),
        token_inserted(types, without.ret_types@, with.ret_types@, at),
        at < without.ret_types@.len(),
        with.param_types@ == without.param_types@,
    ensures
        prepare_spec(types, arch, runtime, scratch, with, args, gas, syscall_handler)
            == prepare_spec(types, arch, runtime, scratch, without, args, gas, syscall_handler),
        finish_spec(types, arch, memory, with.ret_types@, return_ptr, registers) == finish_spec(
            types,
            arch,
            memory,
            without.ret_types@,
            return_ptr,
            registers,
        ),
{
    let shorter = without.ret_types@;
    let longer = with.ret_types@;
    lemma_token_inserted(types, arch, shorter, longer, at);
    lemma_plan_with_token(types, arch, shorter, longer, at);
    lemma_consume_with_token(
        types,
        arch,
        memory,
        shorter,
        longer,
        at,
        registers,
        0,
        return_ptr,
        None,
    );
    assert(longer.last() == longer[(shorter.len() - 1) + 1]);
    assert(longer.last() == shorter.last());
}

} // verus!
