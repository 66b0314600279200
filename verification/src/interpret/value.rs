//! The values that evaluation yields.
//!
//! A number is held as the 64 bits of its IEEE 754 binary64 form. The
//! library does not compute with such numbers itself: sums, differences,
//! products and quotients come from a function that the caller hands in.
//! Whether a number is zero it tells by the bits.

use crate::interpret::scope::{Function, FunctionView};
use crate::parse::ast::{AssignmentProp, Operation, PropView};
use vstd::prelude::*;

verus! {

/// A value.
#[derive(Debug, PartialEq)]
pub enum RuntimeValue {
    Null,
    /// A number, by its bits.
    Number(u64),
    /// The left side of an assignment, on its way to the assignment.
    AssignmentProp(AssignmentProp),
    Function(Function),
}

/// A value as a mathematical value.
pub enum ValueView {
    Null,
    Number(u64),
    AssignmentProp(PropView),
    Function(FunctionView),
}

impl View for RuntimeValue {
    type V = ValueView;

    open spec fn view(&self) -> ValueView {
        match self {
            RuntimeValue::Null => ValueView::Null,
            RuntimeValue::Number(bits) => ValueView::Number(*bits),
            RuntimeValue::AssignmentProp(prop) => ValueView::AssignmentProp(prop@),
            RuntimeValue::Function(f) => ValueView::Function(f@),
        }
    }
}

impl Clone for RuntimeValue {
    fn clone(&self) -> (r: Self)
        ensures
            r@ == self@,
    {
        match self {
            RuntimeValue::Null => RuntimeValue::Null,
            RuntimeValue::Number(bits) => RuntimeValue::Number(*bits),
            RuntimeValue::AssignmentProp(prop) => RuntimeValue::AssignmentProp(prop.clone()),
            RuntimeValue::Function(f) => RuntimeValue::Function(f.clone()),
        }
    }
}

/// What the caller's arithmetic makes of an operation and two numbers.
pub type Arithmetic = spec_fn(Operation, u64, u64) -> u64;

/// The bits are those of zero, positive or negative.
pub open spec fn is_zero(bits: u64) -> bool {
    bits == 0 || bits == 0x8000_0000_0000_0000
}

/// `binary` answers every question.
pub open spec fn binary_total<A: Fn(Operation, u64, u64) -> u64>(binary: &A) -> bool {
    forall|op: Operation, a: u64, b: u64| binary.requires((op, a, b))
}

/// `binary` gives one answer to one question.
pub open spec fn binary_single_valued<A: Fn(Operation, u64, u64) -> u64>(binary: &A) -> bool {
    forall|op: Operation, a: u64, b: u64, r1: u64, r2: u64|
        binary.ensures((op, a, b), r1) && binary.ensures((op, a, b), r2) ==> r1 == r2
}

/// The function that `binary` computes.
pub open spec fn binary_fn<A: Fn(Operation, u64, u64) -> u64>(binary: &A) -> spec_fn(
    Operation,
    u64,
    u64,
) -> u64 {
    |op: Operation, a: u64, b: u64| choose|r: u64| binary.ensures((op, a, b), r)
}

/// What an arithmetic operation yields: a number where both sides are
/// numbers, and `Null` where one of them is not, or where a number is
/// divided by zero.
pub open spec fn arithmetic(
    binary: spec_fn(Operation, u64, u64) -> u64,
    operation: Operation,
    left: ValueView,
    right: ValueView,
) -> ValueView {
    match (left, right) {
        (ValueView::Number(a), ValueView::Number(b)) => if operation == Operation::Div && is_zero(
            b,
        ) {
            ValueView::Null
        } else {
            ValueView::Number(binary(operation, a, b))
        },
        _ => ValueView::Null,
    }
}

impl RuntimeValue {
    /// The value of `self operation other`, for the four arithmetic
    /// operations.
    fn combine<A: Fn(Operation, u64, u64) -> u64>(
        self,
        other: RuntimeValue,
        operation: Operation,
        binary: &A,
    ) -> (r: RuntimeValue)
        requires
            binary_total(binary),
            binary_single_valued(binary),
        ensures
            r@ == arithmetic(binary_fn(binary), operation, self@, other@),
    {
        match (self, other) {
            (RuntimeValue::Number(a), RuntimeValue::Number(b)) => {
                if operation == Operation::Div && (b == 0 || b == 0x8000_0000_0000_0000) {
                    RuntimeValue::Null
                } else {
                    RuntimeValue::Number(binary(operation, a, b))
                }
            },
            _ => RuntimeValue::Null,
        }
    }

    /// The sum, or `Null` where one side is no number.
    pub fn add<A: Fn(Operation, u64, u64) -> u64>(self, other: RuntimeValue, binary: &A) -> (r:
        RuntimeValue)
        requires
            binary_total(binary),
            binary_single_valued(binary),
        ensures
            r@ == arithmetic(binary_fn(binary), Operation::Add, self@, other@),
    {
        self.combine(other, Operation::Add, binary)
    }

    /// The difference, or `Null` where one side is no number.
    pub fn sub<A: Fn(Operation, u64, u64) -> u64>(self, other: RuntimeValue, binary: &A) -> (r:
        RuntimeValue)
        requires
            binary_total(binary),
            binary_single_valued(binary),
        ensures
            r@ == arithmetic(binary_fn(binary), Operation::Sub, self@, other@),
    {
        self.combine(other, Operation::Sub, binary)
    }

    /// The product, or `Null` where one side is no number.
    pub fn mul<A: Fn(Operation, u64, u64) -> u64>(self, other: RuntimeValue, binary: &A) -> (r:
        RuntimeValue)
        requires
            binary_total(binary),
            binary_single_valued(binary),
        ensures
            r@ == arithmetic(binary_fn(binary), Operation::Mul, self@, other@),
    {
        self.combine(other, Operation::Mul, binary)
    }

    /// The quotient, or `Null` where one side is no number or the divisor is
    /// zero.
    pub fn div<A: Fn(Operation, u64, u64) -> u64>(self, other: RuntimeValue, binary: &A) -> (r:
        RuntimeValue)
        requires
            binary_total(binary),
            binary_single_valued(binary),
        ensures
            r@ == arithmetic(binary_fn(binary), Operation::Div, self@, other@),
    {
        self.combine(other, Operation::Div, binary)
    }
}

/// Arithmetic on anything but two numbers yields `Null`, and so does a
/// division by zero, whatever the numbers' arithmetic is.
pub proof fn lemma_arithmetic_null(
    binary: spec_fn(Operation, u64, u64) -> u64,
    operation: Operation,
    left: ValueView,
    right: ValueView,
)
    ensures
        !(left is Number) || !(right is Number) ==> arithmetic(binary, operation, left, right)
            == ValueView::Null,
        operation == Operation::Div && right is Number && is_zero(right->Number_0) ==> arithmetic(
            binary,
            operation,
            left,
            right,
        ) == ValueView::Null,
        left is Number && right is Number && !(operation == Operation::Div && is_zero(
            right->Number_0,
        )) ==> arithmetic(binary, operation, left, right) == ValueView::Number(
            binary(operation, left->Number_0, right->Number_0),
        ),
{
}

} // verus!
