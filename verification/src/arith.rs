use vstd::prelude::*;
use crate::ast::{BinaryOperator, UnaryOperator};
use crate::float::{
    bits_are_zero, is_zero_bits, negate_bits, negated, FloatRequest, FloatRequestModel, FloatTable,
};
use crate::value::{result_model, EvalError, EvalErrorModel, Value, ValueModel};

verus! {

/// Largest exponent for which an integer power stays an integer.
pub const MAX_INTEGER_EXPONENT: i64 = 20;

/// The quotient of two integers, rounded toward zero.
pub open spec fn trunc_div(a: int, b: int) -> int
    recommends
        b != 0,
{
    if a >= 0 && b > 0 {
        a / b
    } else if a < 0 && b < 0 {
        (-a) / (-b)
    } else if a < 0 {
        -((-a) / b)
    } else {
        -(a / (-b))
    }
}

/// The quotient of two 64-bit integers, rounded toward zero. The one
/// quotient that does not fit, that of the least integer by -1, wraps to
/// the least integer.
pub open spec fn int_quotient(l: i64, r: i64) -> i64
    recommends
        r != 0,
{
    if l == i64::MIN && r == -1 {
        i64::MIN
    } else {
        trunc_div(l as int, r as int) as i64
    }
}

/// The power of an integer, each multiplication wrapping at 64 bits.
pub open spec fn int_power(base: i64, exponent: nat) -> i64
    decreases exponent,
{
    if exponent == 0 {
        1
    } else {
        base.wrapping_mul(int_power(base, (exponent - 1) as nat))
    }
}

/// The host's answer to a request, or the error that asks for it.
pub open spec fn float_answer(
    floats: Map<FloatRequestModel, u64>,
    request: FloatRequestModel,
) -> Result<u64, EvalErrorModel> {
    if floats.contains_key(request) {
        Ok(floats[request])
    } else {
        Err(EvalErrorModel::FloatPending(request))
    }
}

/// A binary operator on two floats: a zero divisor is an error, and
/// everything else is the host's answer.
pub open spec fn float_binary(
    op: BinaryOperator,
    left: u64,
    right: u64,
    floats: Map<FloatRequestModel, u64>,
) -> Result<ValueModel, EvalErrorModel> {
    if op == BinaryOperator::Div && is_zero_bits(right) {
        Err(EvalErrorModel::DivisionByZero)
    } else {
        match float_answer(floats, FloatRequestModel::Binary { op, left, right }) {
            Ok(bits) => Ok(ValueModel::Float(bits)),
            Err(error) => Err(error),
        }
    }
}

/// A binary operator on two integers converted to floats, the left one
/// first.
pub open spec fn converted_binary(
    op: BinaryOperator,
    left: i64,
    right: i64,
    floats: Map<FloatRequestModel, u64>,
) -> Result<ValueModel, EvalErrorModel> {
    match float_answer(floats, FloatRequestModel::FromInteger(left)) {
        Ok(left_bits) => match float_answer(floats, FloatRequestModel::FromInteger(right)) {
            Ok(right_bits) => float_binary(op, left_bits, right_bits, floats),
            Err(error) => Err(error),
        },
        Err(error) => Err(error),
    }
}

/// A binary operator on two integers. Sums, differences and products wrap
/// at 64 bits. A power with an exponent from 0 to 20 is an integer; any
/// other power is computed on floats.
pub open spec fn integer_binary(
    op: BinaryOperator,
    left: i64,
    right: i64,
    floats: Map<FloatRequestModel, u64>,
) -> Result<ValueModel, EvalErrorModel> {
    match op {
        BinaryOperator::Plus => Ok(ValueModel::Integer(left.wrapping_add(right))),
        BinaryOperator::Minus => Ok(ValueModel::Integer(left.wrapping_sub(right))),
        BinaryOperator::Times => Ok(ValueModel::Integer(left.wrapping_mul(right))),
        BinaryOperator::Div => if right == 0 {
            Err(EvalErrorModel::DivisionByZero)
        } else {
            Ok(ValueModel::Integer(int_quotient(left, right)))
        },
        BinaryOperator::Pow => if 0 <= right <= MAX_INTEGER_EXPONENT {
            Ok(ValueModel::Integer(int_power(left, right as nat)))
        } else {
            converted_binary(op, left, right, floats)
        },
    }
}

/// What a binary operator gives on two values. Two integers stay integers;
/// an integer beside a float is converted to a float; anything that is not
/// a number is an error.
pub open spec fn binary_result(
    op: BinaryOperator,
    left: ValueModel,
    right: ValueModel,
    floats: Map<FloatRequestModel, u64>,
) -> Result<ValueModel, EvalErrorModel> {
    match (left, right) {
        (ValueModel::Integer(l), ValueModel::Integer(r)) => integer_binary(op, l, r, floats),
        (ValueModel::Float(l), ValueModel::Float(r)) => float_binary(op, l, r, floats),
        (ValueModel::Integer(l), ValueModel::Float(r)) => match float_answer(
            floats,
            FloatRequestModel::FromInteger(l),
        ) {
            Ok(bits) => float_binary(op, bits, r, floats),
            Err(error) => Err(error),
        },
        (ValueModel::Float(l), ValueModel::Integer(r)) => match float_answer(
            floats,
            FloatRequestModel::FromInteger(r),
        ) {
            Ok(bits) => float_binary(op, l, bits, floats),
            Err(error) => Err(error),
        },
        _ => Err(EvalErrorModel::InvalidOperandTypes),
    }
}

/// What a unary operator gives on a value.
pub open spec fn unary_result(op: UnaryOperator, operand: ValueModel) -> Result<
    ValueModel,
    EvalErrorModel,
> {
    match operand {
        ValueModel::Integer(n) => Ok(ValueModel::Integer(0i64.wrapping_sub(n))),
        ValueModel::Float(bits) => Ok(ValueModel::Float(negate_bits(bits))),
        _ => Err(EvalErrorModel::InvalidUnaryOperand),
    }
}

/// Looks a request up in the table.
pub fn answer(floats: &FloatTable, request: FloatRequest) -> (result: Result<u64, EvalError>)
    ensures
        match result {
            Ok(bits) => float_answer(floats@, request@) == Ok::<u64, EvalErrorModel>(bits),
            Err(error) => float_answer(floats@, request@) == Err::<u64, EvalErrorModel>(error@),
        },
{
    match floats.lookup(&request) {
        Some(bits) => Ok(bits),
        None => Err(EvalError::FloatPending(request)),
    }
}

/// Computes the quotient of two integers, rounded toward zero.
pub fn quotient(left: i64, right: i64) -> (result: i64)
    requires
        right != 0,
    ensures
        result == int_quotient(left, right),
{
    match left.checked_div(right) {
        Some(q) => {
            assert(q == int_quotient(left, right)) by (nonlinear_arith)
                requires
                    right != 0,
                    !(left == i64::MIN && right == -1),
                    left.checked_div(right) == Some(q),
            {
            }
            q
        },
        None => {
            assert(left == i64::MIN && right == -1) by (nonlinear_arith)
                requires
                    right != 0,
                    left.checked_div(right) is None,
            {
            }
            i64::MIN
        },
    }
}

/// Computes a power of an integer, wrapping at 64 bits.
pub fn power(base: i64, exponent: u32) -> (result: i64)
    ensures
        result == int_power(base, exponent as nat),
{
    let mut result: i64 = 1;
    let mut i: u32 = 0;
    while i < exponent
        invariant
            i <= exponent,
            result == int_power(base, i as nat),
        decreases exponent - i,
    {
        result = base.wrapping_mul(result);
        i += 1;
    }
    result
}

/// Applies a binary operator to two floats.
pub fn float_op(op: BinaryOperator, left: u64, right: u64, floats: &FloatTable) -> (result: Result<
    Value,
    EvalError,
>)
    ensures
        result_model(result) == float_binary(op, left, right, floats@),
{
    if op == BinaryOperator::Div && bits_are_zero(right) {
        return Err(EvalError::DivisionByZero);
    }
    match answer(floats, FloatRequest::Binary { op, left, right }) {
        Ok(bits) => Ok(Value::Float(bits)),
        Err(error) => Err(error),
    }
}

/// Applies a binary operator to two values.
pub fn binary_op(op: BinaryOperator, left: &Value, right: &Value, floats: &FloatTable) -> (result:
    Result<Value, EvalError>)
    ensures
        result_model(result) == binary_result(op, left@, right@, floats@),
{
    match (left, right) {
        (Value::Integer(l), Value::Integer(r)) => {
            let l: i64 = *l;
            let r: i64 = *r;
            match op {
                BinaryOperator::Plus => Ok(Value::Integer(l.wrapping_add(r))),
                BinaryOperator::Minus => Ok(Value::Integer(l.wrapping_sub(r))),
                BinaryOperator::Times => Ok(Value::Integer(l.wrapping_mul(r))),
                BinaryOperator::Div => {
                    if r == 0 {
                        Err(EvalError::DivisionByZero)
                    } else {
                        Ok(Value::Integer(quotient(l, r)))
                    }
                },
                BinaryOperator::Pow => {
                    if 0 <= r && r <= MAX_INTEGER_EXPONENT {
                        Ok(Value::Integer(power(l, r as u32)))
                    } else {
                        let left_bits = match answer(floats, FloatRequest::FromInteger(l)) {
                            Ok(bits) => bits,
                            Err(error) => { return Err(error); },
                        };
                        let right_bits = match answer(floats, FloatRequest::FromInteger(r)) {
                            Ok(bits) => bits,
                            Err(error) => { return Err(error); },
                        };
                        float_op(op, left_bits, right_bits, floats)
                    }
                },
            }
        },
        (Value::Float(l), Value::Float(r)) => float_op(op, *l, *r, floats),
        (Value::Integer(l), Value::Float(r)) => {
            match answer(floats, FloatRequest::FromInteger(*l)) {
                Ok(bits) => float_op(op, bits, *r, floats),
                Err(error) => Err(error),
            }
        },
        (Value::Float(l), Value::Integer(r)) => {
            match answer(floats, FloatRequest::FromInteger(*r)) {
                Ok(bits) => float_op(op, *l, bits, floats),
                Err(error) => Err(error),
            }
        },
        _ => Err(EvalError::InvalidOperandTypes),
    }
}

/// Applies a unary operator to a value.
pub fn unary_op(op: UnaryOperator, operand: &Value) -> (result: Result<Value, EvalError>)
    ensures
        result_model(result) == unary_result(op, operand@),
{
    match operand {
        Value::Integer(n) => Ok(Value::Integer(0i64.wrapping_sub(*n))),
        Value::Float(bits) => Ok(Value::Float(negated(*bits))),
        _ => Err(EvalError::InvalidUnaryOperand),
    }
}

} // verus!
