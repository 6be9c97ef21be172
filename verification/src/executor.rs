//! The executors: a program's types and compiled functions, ready to be called.
use crate::error::{DecodeError, EncodeError};
use crate::invoke::{
    finish_invocation, finish_spec, prepare_invocation, prepare_spec, FinishedCall,
    FunctionSignature, PreparedCall,
};
use crate::memory::{Arena, Memory};
use crate::types::TypeRegistry;
use crate::values::{views, JitValue};
use std::rc::Rc;
use vstd::prelude::*;

verus! {

/// A compiled function: where its code lies and what it takes and returns.
#[derive(Debug, PartialEq, Eq)]
pub struct CompiledFunction {
    /// The identifier of the function in its program.
    pub id: u64,
    /// The address of its code.
    pub address: u64,
    /// Its parameter and return types.
    pub signature: FunctionSignature,
}

/// A program compiled ahead of time and loaded from a shared library.
#[derive(Debug)]
pub struct AotNativeExecutor {
    /// The types of the program.
    pub registry: TypeRegistry,
    /// The functions of the program.
    pub functions: Vec<CompiledFunction>,
}

/// A program compiled just in time.
#[derive(Debug)]
pub struct JitNativeExecutor {
    /// The types of the program.
    pub registry: TypeRegistry,
    /// The functions of the program.
    pub functions: Vec<CompiledFunction>,
}

/// Either kind of executor; both are called through the same trampoline.
pub enum NativeExecutor {
    Aot(Rc<AotNativeExecutor>),
    Jit(Rc<JitNativeExecutor>),
}

/// Index of the first function from `from` on with the given identifier.
pub open spec fn find_function_spec(functions: Seq<CompiledFunction>, id: u64, from: int) -> Option<
    int,
>
    decreases functions.len() - from,
{
    if from < 0 || from >= functions.len() {
        None
    } else if functions[from].id == id {
        Some(from)
    } else {
        find_function_spec(functions, id, from + 1)
    }
}

impl NativeExecutor {
    /// The types of the program.
    pub open spec fn registry_spec(&self) -> TypeRegistry {
        match self {
            NativeExecutor::Aot(executor) => executor.registry,
            NativeExecutor::Jit(executor) => executor.registry,
        }
    }

    /// The functions of the program.
    pub open spec fn functions_spec(&self) -> Seq<CompiledFunction> {
        match self {
            NativeExecutor::Aot(executor) => executor.functions@,
            NativeExecutor::Jit(executor) => executor.functions@,
        }
    }

    /// The registry is well formed.
    pub open spec fn wf(&self) -> bool {
        self.registry_spec().wf()
    }

    /// An executor for a program compiled ahead of time.
    pub fn from_aot(executor: AotNativeExecutor) -> (wrapped: NativeExecutor)
        ensures
            wrapped == NativeExecutor::Aot(Rc::new(executor)),
            wrapped.registry_spec() == executor.registry,
            wrapped.functions_spec() == executor.functions@,
            wrapped is Aot,
    {
        NativeExecutor::Aot(Rc::new(executor))
    }

    /// An executor for a program compiled just in time.
    pub fn from_jit(executor: JitNativeExecutor) -> (wrapped: NativeExecutor)
        ensures
            wrapped == NativeExecutor::Jit(Rc::new(executor)),
            wrapped.registry_spec() == executor.registry,
            wrapped.functions_spec() == executor.functions@,
            wrapped is Jit,
    {
        NativeExecutor::Jit(Rc::new(executor))
    }

    /// The types of the program.
    pub fn registry(&self) -> (registry: &TypeRegistry)
        ensures
            *registry == self.registry_spec(),
    {
        match self {
            NativeExecutor::Aot(executor) => &executor.registry,
            NativeExecutor::Jit(executor) => &executor.registry,
        }
    }

    /// The functions of the program.
    pub fn functions(&self) -> (functions: &Vec<CompiledFunction>)
        ensures
            functions@ == self.functions_spec(),
    {
        match self {
            NativeExecutor::Aot(executor) => &executor.functions,
            NativeExecutor::Jit(executor) => &executor.functions,
        }
    }

    /// The first function with the given identifier, if there is one.
    pub fn find_function(&self, id: u64) -> (function: Option<&CompiledFunction>)
        ensures
            match find_function_spec(self.functions_spec(), id, 0) {
                Some(index) => function == Some(&self.functions_spec()[index]),
                None => function is None,
            },
    {
        let functions = self.functions();
        let mut index: usize = 0;
        while index < functions.len()
            invariant
                index <= functions@.len(),
                functions@ == self.functions_spec(),
                find_function_spec(functions@, id, index as int) == find_function_spec(
                    functions@,
                    id,
                    0,
                ),
            decreases functions@.len() - index,
        {
            if functions[index].id == id {
                return Some(&functions[index]);
            }
            index = index + 1;
        }
        None
    }

    /// Prepares a call of `function`: see [`prepare_invocation`].
    pub fn prepare(
        &self,
        function: &CompiledFunction,
        arena: Arena,
        args: &Vec<JitValue>,
        gas: Option<u128>,
        syscall_handler: Option<u64>,
    ) -> (result: Result<PreparedCall, EncodeError>)
        requires
            self.wf(),
            arena.wf(),
        ensures
            match prepare_spec(
                self.registry_spec().types@,
                self.registry_spec().arch,
                false,
                arena@,
                function.signature,
                views(args@),
                gas,
                syscall_handler,
            ) {
                Ok((state, return_ptr)) => {
                    &&& result matches Ok(call)
                    &&& call.invoke_data@ == state.words
                    &&& call.arena@ == state.scratch
                    &&& call.arena.wf()
                    &&& call.return_ptr == return_ptr
                },
                Err(error) => result matches Err(e) && e == error,
            },
    {
        prepare_invocation(
            self.registry(),
            arena,
            &function.signature,
            args,
            gas,
            syscall_handler,
            false,
        )
    }

    /// Makes the result of a call of `function`: see [`finish_invocation`].
    pub fn finish(
        &self,
        function: &CompiledFunction,
        memory: &Memory,
        return_ptr: Option<u64>,
        ret_registers: &[u64],
    ) -> (result: Result<FinishedCall, DecodeError>)
        requires
            self.wf(),
            ret_registers@.len() == self.registry_spec().arch.return_registers_spec(),
        ensures
            match finish_spec(
                self.registry_spec().types@,
                self.registry_spec().arch,
                *memory,
                function.signature.ret_types@,
                return_ptr,
                ret_registers@,
            ) {
                Ok((gas, value, release)) => {
                    &&& result matches Ok(finished)
                    &&& finished.result.remaining_gas == gas
                    &&& finished.result.return_value@ == value
                    &&& finished.release == release
                },
                Err(error) => result matches Err(e) && e == error,
            },
    {
        finish_invocation(self.registry(), memory, &function.signature, return_ptr, ret_registers)
    }
}

impl From<AotNativeExecutor> for NativeExecutor {
    fn from(value: AotNativeExecutor) -> (wrapped: Self) {
        NativeExecutor::from_aot(value)
    }
}

impl vstd::std_specs::convert::FromSpecImpl<AotNativeExecutor> for NativeExecutor {
    open spec fn obeys_from_spec() -> bool {
        true
    }

    open spec fn from_spec(value: AotNativeExecutor) -> Self {
        NativeExecutor::Aot(Rc::new(value))
    }
}

impl From<JitNativeExecutor> for NativeExecutor {
    fn from(value: JitNativeExecutor) -> (wrapped: Self) {
        NativeExecutor::from_jit(value)
    }
}

impl vstd::std_specs::convert::FromSpecImpl<JitNativeExecutor> for NativeExecutor {
    open spec fn obeys_from_spec() -> bool {
        true
    }

    open spec fn from_spec(value: JitNativeExecutor) -> Self {
        NativeExecutor::Jit(Rc::new(value))
    }
}

} // verus!
