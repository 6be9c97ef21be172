//! Dynamically typed values that cross the call boundary.
use crate::felt::Felt252;
use vstd::prelude::*;

verus! {

/// A value of a Cairo type, as the caller of a compiled function sees it.
#[derive(Debug, PartialEq, Eq)]
pub enum JitValue {
    /// A field element, or one of its address-like aliases.
    Felt252(Felt252),
    /// An array of values of one type.
    Array(Vec<JitValue>),
    /// A struct, its fields in declaration order.
    Struct { fields: Vec<JitValue> },
    /// An enum: the index of the active variant and its payload.
    Enum { tag: usize, value: Box<JitValue> },
    /// A dictionary, by the handle that the runtime support gave it.
    Felt252Dict { handle: u64 },
    Uint8(u8),
    Uint16(u16),
    Uint32(u32),
    Uint64(u64),
    Uint128(u128),
    Sint8(i8),
    Sint16(i16),
    Sint32(i32),
    Sint64(i64),
    Sint128(i128),
    /// A point of the STARK curve.
    EcPoint(Felt252, Felt252),
    /// The state of a curve accumulation.
    EcState(Felt252, Felt252, Felt252, Felt252),
    /// What a null pointer decodes to.
    Null,
}

/// The mathematical content of a [`JitValue`]: the same shape, with sequences in
/// place of vectors.
pub enum ValueView {
    Felt252(Felt252),
    Array(Seq<ValueView>),
    Struct { fields: Seq<ValueView> },
    Enum { tag: usize, value: Box<ValueView> },
    Felt252Dict { handle: u64 },
    Uint8(u8),
    Uint16(u16),
    Uint32(u32),
    Uint64(u64),
    Uint128(u128),
    Sint8(i8),
    Sint16(i16),
    Sint32(i32),
    Sint64(i64),
    Sint128(i128),
    EcPoint(Felt252, Felt252),
    EcState(Felt252, Felt252, Felt252, Felt252),
    Null,
}

/// The mathematical content of `value`.
pub open spec fn value_view(value: JitValue) -> ValueView
    decreases value,
{
    match value {
        JitValue::Felt252(felt) => ValueView::Felt252(felt),
        JitValue::Array(items) => ValueView::Array(
            Seq::new(
                items@.len(),
                |i: int|
                    if 0 <= i < items@.len() {
                        value_view(items@[i])
                    } else {
                        ValueView::Null
                    },
            ),
        ),
        JitValue::Struct { fields } => ValueView::Struct {
            fields: Seq::new(
                fields@.len(),
                |i: int|
                    if 0 <= i < fields@.len() {
                        value_view(fields@[i])
                    } else {
                        ValueView::Null
                    },
            ),
        },
        JitValue::Enum { tag, value } => ValueView::Enum {
            tag,
            value: Box::new(value_view(*value)),
        },
        JitValue::Felt252Dict { handle } => ValueView::Felt252Dict { handle },
        JitValue::Uint8(value) => ValueView::Uint8(value),
        JitValue::Uint16(value) => ValueView::Uint16(value),
        JitValue::Uint32(value) => ValueView::Uint32(value),
        JitValue::Uint64(value) => ValueView::Uint64(value),
        JitValue::Uint128(value) => ValueView::Uint128(value),
        JitValue::Sint8(value) => ValueView::Sint8(value),
        JitValue::Sint16(value) => ValueView::Sint16(value),
        JitValue::Sint32(value) => ValueView::Sint32(value),
        JitValue::Sint64(value) => ValueView::Sint64(value),
        JitValue::Sint128(value) => ValueView::Sint128(value),
        JitValue::EcPoint(x, y) => ValueView::EcPoint(x, y),
        JitValue::EcState(x, y, x0, y0) => ValueView::EcState(x, y, x0, y0),
        JitValue::Null => ValueView::Null,
    }
}

impl View for JitValue {
    type V = ValueView;

    open spec fn view(&self) -> ValueView {
        value_view(*self)
    }
}

/// The views of a sequence of values.
pub open spec fn views(items: Seq<JitValue>) -> Seq<ValueView> {
    Seq::new(items.len(), |i: int| items[i]@)
}

impl JitValue {
    /// The view of an array or a struct holds the views of its items.
    pub proof fn lemma_view_items(self)
        ensures
            self matches JitValue::Array(items) ==> self@ == ValueView::Array(views(items@)),
            self matches JitValue::Struct { fields } ==> self@ == (ValueView::Struct {
                fields: views(fields@),
            }),
            self matches JitValue::Enum { tag, value } ==> self@ == (ValueView::Enum {
                tag,
                value: Box::new((*value)@),
            }),
    {
        match self {
            JitValue::Array(items) => {
                let seen = self@->Array_0;
                assert(seen.len() == items@.len());
                assert forall|i: int| 0 <= i < seen.len() implies seen[i] == views(items@)[i] by {}
                assert(seen =~= views(items@));
            },
            JitValue::Struct { fields } => {
                let seen = self@->fields;
                assert(seen.len() == fields@.len());
                assert forall|i: int| 0 <= i < seen.len() implies seen[i] == views(fields@)[i] by {}
                assert(seen =~= views(fields@));
            },
            _ => {},
        }
    }
}

} // verus!
