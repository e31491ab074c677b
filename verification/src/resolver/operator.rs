use vstd::prelude::*;
use crate::resolver::value::{OperandType, spec_operand_number};
use crate::tokenizer::token_type::TokenType;

verus! {

/// The binary operators of arithmetic.
#[derive(Clone, Copy, Debug, PartialEq, Eq, Structural)]
pub enum OperatorType { Plus, Min, Mult, Div, Power, Remain, Modulo }

/// The number of each operator, from 1 in declaration order.
pub open spec fn spec_operator_number(op: OperatorType) -> nat {
    match op {
        OperatorType::Plus => 1,
        OperatorType::Min => 2,
        OperatorType::Mult => 3,
        OperatorType::Div => 4,
        OperatorType::Power => 5,
        OperatorType::Remain => 6,
        OperatorType::Modulo => 7,
    }
}

/// The operator a token stands for, where it stands for one.
pub open spec fn spec_operator_of(kind: TokenType) -> Option<OperatorType> {
    match kind {
        TokenType::Plus => Some(OperatorType::Plus),
        TokenType::Min => Some(OperatorType::Min),
        TokenType::Mult => Some(OperatorType::Mult),
        TokenType::Div => Some(OperatorType::Div),
        TokenType::Power => Some(OperatorType::Power),
        TokenType::Percent => Some(OperatorType::Remain),
        TokenType::Modulo => Some(OperatorType::Modulo),
        _ => None,
    }
}

impl OperatorType {
    /// The number of this operator (from 1, in declaration order).
    pub fn as_number(&self) -> (r: u32)
        ensures
            r == spec_operator_number(*self),
    {
        match self {
            OperatorType::Plus => 1,
            OperatorType::Min => 2,
            OperatorType::Mult => 3,
            OperatorType::Div => 4,
            OperatorType::Power => 5,
            OperatorType::Remain => 6,
            OperatorType::Modulo => 7,
        }
    }

    /// The operator that a token of kind `value` stands for; the kind must be one of
    /// `+ - * / ^ % %%`.
    pub fn from_token_type(value: &TokenType) -> (op: OperatorType)
        requires
            spec_operator_of(*value) is Some,
        ensures
            spec_operator_of(*value) == Some(op),
    {
        match value {
            TokenType::Plus => OperatorType::Plus,
            TokenType::Min => OperatorType::Min,
            TokenType::Mult => OperatorType::Mult,
            TokenType::Div => OperatorType::Div,
            TokenType::Power => OperatorType::Power,
            TokenType::Percent => OperatorType::Remain,
            _ => OperatorType::Modulo,
        }
    }

    /// How the operator is written.
    pub fn symbol(&self) -> (r: &'static str)
        ensures
            r@ == spec_operator_symbol(*self),
    {
        match self {
            OperatorType::Plus => "+",
            OperatorType::Min => "-",
            OperatorType::Mult => "*",
            OperatorType::Div => "/",
            OperatorType::Power => "^",
            OperatorType::Remain => "%",
            OperatorType::Modulo => "%%",
        }
    }
}

/// How each operator is written.
pub open spec fn spec_operator_symbol(op: OperatorType) -> Seq<char> {
    match op {
        OperatorType::Plus => "+"@,
        OperatorType::Min => "-"@,
        OperatorType::Mult => "*"@,
        OperatorType::Div => "/"@,
        OperatorType::Power => "^"@,
        OperatorType::Remain => "%"@,
        OperatorType::Modulo => "%%"@,
    }
}

/// The key under which the implementation of `op` on operands of kinds `type1` and
/// `type2` is found: the three numbers as digits in base 265.
pub open spec fn spec_operator_id(type1: OperandType, op: OperatorType, type2: OperandType) -> nat {
    spec_operand_number(type1) * 265 * 265 + spec_operator_number(op) * 265 + spec_operand_number(type2)
}

/// The key of an operator on two operand kinds (see `spec_operator_id`).
pub fn operator_id_from(type1: OperandType, op: OperatorType, type2: OperandType) -> (r: u32)
    ensures
        r == spec_operator_id(type1, op, type2),
{
    type1.as_number() * 265 * 265 + op.as_number() * 265 + type2.as_number()
}

/// Different operator keys for different operand kinds and operators.
pub proof fn lemma_operator_id_injective(a1: OperandType, o1: OperatorType, b1: OperandType, a2: OperandType, o2: OperatorType, b2: OperandType)
    requires
        spec_operator_id(a1, o1, b1) == spec_operator_id(a2, o2, b2),
    ensures
        a1 == a2,
        o1 == o2,
        b1 == b2,
{
}

} // verus!
