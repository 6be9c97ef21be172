//! Why an invocation fails before or after the call.
use vstd::prelude::*;

verus! {

/// Why a value could not be encoded.
#[derive(Clone, Copy, Debug, PartialEq, Eq, Structural)]
pub enum EncodeError {
    /// The value is not of the declared type.
    TypeMismatch,
    /// The type cannot cross the call boundary as an argument.
    UnsupportedType,
    /// The function takes the fuel counter or the external call context, and
    /// none was supplied.
    MissingImplicit,
    /// A type identifier names no declared type.
    UnknownType,
    /// The scratch memory set aside for the call is used up.
    ScratchExhausted,
    /// An array nested in memory has more elements than its length field holds.
    ValueTooLarge,
    /// The function takes more arguments than were supplied.
    MissingArgument,
    /// The return values of the function, one behind the other, are larger than
    /// anything that can be addressed.
    ReturnSlotTooLarge,
}

/// Why a result could not be decoded.
#[derive(Clone, Copy, Debug, PartialEq, Eq, Structural)]
pub enum DecodeError {
    /// The type cannot cross the call boundary as a result.
    UnsupportedType,
    /// A type identifier names no declared type.
    UnknownType,
    /// The type is returned through the return slot, and none was allocated.
    MissingReturnSlot,
    /// The bytes at the given address are not mapped; mapping them and decoding
    /// again gets further.
    Unmapped { address: u64, len: u64 },
    /// The tag read for an enum names none of its variants.
    InvalidTag,
    /// A null pointer stands where a value was expected.
    NullPointer,
    /// An address computed while decoding leaves the address space.
    AddressOverflow,
    /// The function declares no return type.
    NoReturnType,
}

} // verus!
