use vstd::prelude::*;

use crate::builtin::overflow_message;
use crate::object::{truthy, Object, Value};
use crate::text::text_of;
use crate::token::TokenType;

verus! {

pub open spec fn division_message() -> Seq<char> {
    "division by zero"@
}

pub open spec fn operator_message() -> Seq<char> {
    "unknown operator"@
}

pub open spec fn mismatch_message() -> Seq<char> {
    "type mismatch"@
}

/// `x` fits in an `i64`.
pub open spec fn in_i64(x: int) -> bool {
    i64::MIN <= x <= i64::MAX
}

/// Integer division truncated toward zero.
pub open spec fn trunc_div(x: int, d: int) -> int {
    if x == 0 {
        0
    } else if x > 0 && d > 0 {
        x / d
    } else if x < 0 && d < 0 {
        (x * -1) / (d * -1)
    } else if x < 0 {
        ((x * -1) / d) * -1
    } else {
        (x / (d * -1)) * -1
    }
}

/// An integer result, or the overflow error when it does not fit.
pub open spec fn checked(x: int) -> Value {
    if in_i64(x) {
        Value::Integer(x)
    } else {
        Value::Error(overflow_message())
    }
}

/// Operator `op` on two integers.
pub open spec fn arith(op: TokenType, a: int, b: int) -> Value {
    match op {
        TokenType::ADD => checked(a + b),
        TokenType::MINUS => checked(a - b),
        TokenType::MULTIPLY => checked(a * b),
        TokenType::DIVIDE => if b == 0 {
            Value::Error(division_message())
        } else {
            checked(trunc_div(a, b))
        },
        TokenType::EQUAL_EQUAL => Value::Boolean(a == b),
        TokenType::BANG_EQUAL => Value::Boolean(a != b),
        TokenType::LESS => Value::Boolean(a < b),
        TokenType::LESS_EQUAL => Value::Boolean(a <= b),
        TokenType::GREATER => Value::Boolean(a > b),
        TokenType::GREATER_EQUAL => Value::Boolean(a >= b),
        _ => Value::Error(operator_message()),
    }
}

/// Infix operator `op` on two values: an error operand is the result
/// (the left one first); integers compute and compare; strings concatenate
/// with `+` and compare for equality; booleans compare for equality; other
/// pairings are a type mismatch.
pub open spec fn infix_value(op: TokenType, l: Value, r: Value) -> Value {
    if l is Error {
        l
    } else if r is Error {
        r
    } else {
        match (l, r) {
            (Value::Integer(a), Value::Integer(b)) => arith(op, a, b),
            (Value::Str(a), Value::Str(b)) => if op is ADD {
                Value::Str(a + b)
            } else if op is EQUAL_EQUAL {
                Value::Boolean(a == b)
            } else if op is BANG_EQUAL {
                Value::Boolean(a != b)
            } else {
                Value::Error(operator_message())
            },
            (Value::Boolean(a), Value::Boolean(b)) => if op is EQUAL_EQUAL {
                Value::Boolean(a == b)
            } else if op is BANG_EQUAL {
                Value::Boolean(a != b)
            } else {
                Value::Error(operator_message())
            },
            _ => Value::Error(mismatch_message()),
        }
    }
}

/// Prefix operator `op` on a value: `!` negates truthiness, `-` negates an
/// integer.
pub open spec fn prefix_value(op: TokenType, v: Value) -> Value {
    if op is BANG {
        Value::Boolean(!truthy(v))
    } else if op is MINUS {
        match v {
            Value::Integer(n) => checked(-n),
            Value::Error(m) => Value::Error(m),
            _ => Value::Error(mismatch_message()),
        }
    } else {
        Value::Error(operator_message())
    }
}

fn error(msg: &str) -> (r: Object)
    ensures
        r@ == Value::Error(msg@),
{
    Object::Error(text_of(msg))
}

fn overflow() -> (r: Object)
    ensures
        r@ == Value::Error(overflow_message()),
{
    proof {
        reveal_strlit("integer overflow");
    }
    error("integer overflow")
}

fn unknown_operator() -> (r: Object)
    ensures
        r@ == Value::Error(operator_message()),
{
    proof {
        reveal_strlit("unknown operator");
    }
    error("unknown operator")
}

/// Operator `op` on two integers.
pub fn integer_infix(op: &TokenType, a: i64, b: i64) -> (r: Object)
    ensures
        r@ == arith(*op, a as int, b as int),
{
    match op {
        TokenType::ADD => match a.checked_add(b) {
            Some(v) => Object::Integer(v),
            None => overflow(),
        },
        TokenType::MINUS => match a.checked_sub(b) {
            Some(v) => Object::Integer(v),
            None => overflow(),
        },
        TokenType::MULTIPLY => match a.checked_mul(b) {
            Some(v) => Object::Integer(v),
            None => overflow(),
        },
        TokenType::DIVIDE => {
            if b == 0 {
                proof {
                    reveal_strlit("division by zero");
                }
                error("division by zero")
            } else {
                match a.checked_div(b) {
                    Some(v) => Object::Integer(v),
                    None => overflow(),
                }
            }
        },
        TokenType::EQUAL_EQUAL => Object::Boolean(a == b),
        TokenType::BANG_EQUAL => Object::Boolean(a != b),
        TokenType::LESS => Object::Boolean(a < b),
        TokenType::LESS_EQUAL => Object::Boolean(a <= b),
        TokenType::GREATER => Object::Boolean(a > b),
        TokenType::GREATER_EQUAL => Object::Boolean(a >= b),
        _ => unknown_operator(),
    }
}

/// Infix operator `op` on two values.
pub fn infix_values(op: &TokenType, l: Object, r: Object) -> (res: Object)
    ensures
        res@ == infix_value(*op, l@, r@),
{
    if let Object::Error(_) = l {
        return l;
    }
    if let Object::Error(_) = r {
        return r;
    }
    match (l, r) {
        (Object::Integer(a), Object::Integer(b)) => integer_infix(op, a, b),
        (Object::String(a), Object::String(b)) => match op {
            TokenType::ADD => Object::String(
                <String as vstd::string::StringExecFns>::concat(a, b.as_str()),
            ),
            TokenType::EQUAL_EQUAL => Object::Boolean(a.eq(&b)),
            TokenType::BANG_EQUAL => Object::Boolean(!a.eq(&b)),
            _ => unknown_operator(),
        },
        (Object::Boolean(a), Object::Boolean(b)) => match op {
            TokenType::EQUAL_EQUAL => Object::Boolean(a == b),
            TokenType::BANG_EQUAL => Object::Boolean(a != b),
            _ => unknown_operator(),
        },
        _ => {
            proof {
                reveal_strlit("type mismatch");
            }
            error("type mismatch")
        },
    }
}

/// Prefix operator `op` on a value.
pub fn prefix_values(op: &TokenType, v: Object) -> (r: Object)
    ensures
        r@ == prefix_value(*op, v@),
{
    match op {
        TokenType::BANG => Object::Boolean(!v.is_truthy()),
        TokenType::MINUS => match v {
            Object::Integer(n) => match 0i64.checked_sub(n) {
                Some(m) => Object::Integer(m),
                None => overflow(),
            },
            Object::Error(_) => v,
            _ => {
                proof {
                    reveal_strlit("type mismatch");
                }
                error("type mismatch")
            },
        },
        _ => unknown_operator(),
    }
}

} // verus!
