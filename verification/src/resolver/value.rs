use vstd::prelude::*;

verus! {

/// The kinds of value an operator can take.
#[derive(Clone, Copy, Debug, PartialEq, Eq, Structural)]
pub enum OperandType { Number, Date, Duration, Invalid }

/// The number of each operand kind, in declaration order from 0.
pub open spec fn spec_operand_number(t: OperandType) -> nat {
    match t {
        OperandType::Number => 0,
        OperandType::Date => 1,
        OperandType::Duration => 2,
        OperandType::Invalid => 3,
    }
}

impl OperandType {
    /// The number of this operand kind (its place in declaration order, from 0).
    pub fn as_number(&self) -> (r: u32)
        ensures
            r == spec_operand_number(*self),
    {
        match self {
            OperandType::Number => 0,
            OperandType::Date => 1,
            OperandType::Duration => 2,
            OperandType::Invalid => 3,
        }
    }
}

} // verus!
