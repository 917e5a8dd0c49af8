use vstd::prelude::*;

use crate::env::binding;
use crate::object::{lemma_array_value, Builtin, Object, Value};
use crate::text::text_of;

verus! {

/// The message of a builtin called with the wrong number of arguments.
pub open spec fn arity_message() -> Seq<char> {
    "wrong number of arguments"@
}

/// The message of an integer result out of range.
pub open spec fn overflow_message() -> Seq<char> {
    "integer overflow"@
}

/// The values of a list of objects.
pub open spec fn values(params: Seq<Object>) -> Seq<Value> {
    params.map_values(|o: Object| o@)
}

/// A count as a value: an integer, or the overflow error when it does not
/// fit.
pub open spec fn count_value(n: nat) -> Value {
    if n <= i64::MAX {
        Value::Integer(n as int)
    } else {
        Value::Error(overflow_message())
    }
}

/// What `len` gives for argument values `args`.
pub open spec fn len_value(args: Seq<Value>) -> Value {
    if args.len() != 1 {
        Value::Error(arity_message())
    } else {
        match args[0] {
            Value::Array(s) => count_value(s.len()),
            Value::Str(s) => count_value(s.len()),
            _ => Value::Null,
        }
    }
}

/// What `first` gives.
pub open spec fn first_value(args: Seq<Value>) -> Value {
    if args.len() != 1 {
        Value::Error(arity_message())
    } else {
        match args[0] {
            Value::Array(s) => if s.len() > 0 {
                s[0]
            } else {
                Value::Null
            },
            _ => Value::Null,
        }
    }
}

/// What `last` gives.
pub open spec fn last_value(args: Seq<Value>) -> Value {
    if args.len() != 1 {
        Value::Error(arity_message())
    } else {
        match args[0] {
            Value::Array(s) => if s.len() > 0 {
                s.last()
            } else {
                Value::Null
            },
            _ => Value::Null,
        }
    }
}

/// What `rest` gives.
pub open spec fn rest_value(args: Seq<Value>) -> Value {
    if args.len() != 1 {
        Value::Error(arity_message())
    } else {
        match args[0] {
            Value::Array(s) => if s.len() > 0 {
                Value::Array(s.subrange(1, s.len() as int))
            } else {
                Value::Null
            },
            _ => Value::Null,
        }
    }
}

/// What `push` gives.
pub open spec fn push_value(args: Seq<Value>) -> Value {
    if args.len() != 2 {
        Value::Error(arity_message())
    } else {
        match args[0] {
            Value::Array(s) => Value::Array(s.push(args[1])),
            _ => Value::Null,
        }
    }
}

/// What `unshift` gives.
pub open spec fn unshift_value(args: Seq<Value>) -> Value {
    if args.len() != 2 {
        Value::Error(arity_message())
    } else {
        match args[0] {
            Value::Array(s) => Value::Array(seq![args[1]].add(s)),
            _ => Value::Null,
        }
    }
}

/// What builtin `b` gives for argument values `args`; `print` gives `Null`
/// for one argument.
pub open spec fn builtin_value(b: Builtin, args: Seq<Value>) -> Value {
    match b {
        Builtin::Len => len_value(args),
        Builtin::First => first_value(args),
        Builtin::Last => last_value(args),
        Builtin::Rest => rest_value(args),
        Builtin::Push => push_value(args),
        Builtin::UnShift => unshift_value(args),
        Builtin::Print => if args.len() == 1 {
            Value::Null
        } else {
            Value::Error(arity_message())
        },
    }
}

/// The first two characters and the length of a name, which tell the
/// builtin names apart.
spec fn name_code(x: Seq<char>) -> (char, char, nat) {
    (x[0], x[1], x.len())
}

fn arity_error() -> (r: Object)
    ensures
        r@ == Value::Error(arity_message()),
{
    proof {
        reveal_strlit("wrong number of arguments");
    }
    Object::Error(text_of("wrong number of arguments"))
}

/// The builtin bindings, in order.
pub open spec fn builtin_entries() -> Seq<(Seq<char>, Value)> {
    seq![
        ("len"@, Value::Builtin(Builtin::Len)),
        ("first"@, Value::Builtin(Builtin::First)),
        ("last"@, Value::Builtin(Builtin::Last)),
        ("rest"@, Value::Builtin(Builtin::Rest)),
        ("push"@, Value::Builtin(Builtin::Push)),
        ("unshift"@, Value::Builtin(Builtin::UnShift)),
        ("print"@, Value::Builtin(Builtin::Print)),
    ]
}

/// The bindings of the builtin functions by name.
pub fn make_builtin() -> (r: Vec<(String, Object)>)
    ensures
        r@.len() == 7,
        crate::env::entries_of(r@) == builtin_entries(),
        binding(r@, "len"@) == Some(Value::Builtin(Builtin::Len)),
        binding(r@, "first"@) == Some(Value::Builtin(Builtin::First)),
        binding(r@, "last"@) == Some(Value::Builtin(Builtin::Last)),
        binding(r@, "rest"@) == Some(Value::Builtin(Builtin::Rest)),
        binding(r@, "push"@) == Some(Value::Builtin(Builtin::Push)),
        binding(r@, "unshift"@) == Some(Value::Builtin(Builtin::UnShift)),
        binding(r@, "print"@) == Some(Value::Builtin(Builtin::Print)),
{
    let mut r: Vec<(String, Object)> = Vec::new();
    r.push((text_of("len"), Object::Builtin(Builtin::Len)));
    r.push((text_of("first"), Object::Builtin(Builtin::First)));
    r.push((text_of("last"), Object::Builtin(Builtin::Last)));
    r.push((text_of("rest"), Object::Builtin(Builtin::Rest)));
    r.push((text_of("push"), Object::Builtin(Builtin::Push)));
    r.push((text_of("unshift"), Object::Builtin(Builtin::UnShift)));
    r.push((text_of("print"), Object::Builtin(Builtin::Print)));
    proof {
        reveal_strlit("len");
        reveal_strlit("first");
        reveal_strlit("last");
        reveal_strlit("rest");
        reveal_strlit("push");
        reveal_strlit("unshift");
        reveal_strlit("print");
        let s = r@;
        assert(crate::env::entries_of(r@) =~= builtin_entries());
        reveal_with_fuel(crate::env::binding_from, 8);
        assert forall|i: int, j: int| 0 <= i < j < 7 implies s[i].0@ != s[j].0@ by {
            assert(name_code(s[i].0@) != name_code(s[j].0@));
        }
        assert(binding(s, "len"@) == Some(Value::Builtin(Builtin::Len)));
        assert(binding(s, "first"@) == Some(Value::Builtin(Builtin::First)));
        assert(binding(s, "last"@) == Some(Value::Builtin(Builtin::Last)));
        assert(binding(s, "rest"@) == Some(Value::Builtin(Builtin::Rest)));
        assert(binding(s, "push"@) == Some(Value::Builtin(Builtin::Push)));
        assert(binding(s, "unshift"@) == Some(Value::Builtin(Builtin::UnShift)));
        assert(binding(s, "print"@) == Some(Value::Builtin(Builtin::Print)));
    }
    r
}

/// `len(x)`: the number of elements of an array or characters of a string,
/// else `Null`.
pub fn len(params: &Vec<Object>) -> (r: Object)
    ensures
        r@ == len_value(values(params@)),
{
    if params.len() != 1 {
        return arity_error();
    }
    let n = match &params[0] {
        Object::Array(v) => v.len(),
        Object::String(s) => <str as vstd::string::StrSliceExecFns>::unicode_len(s.as_str()),
        _ => {
            return Object::Null;
        },
    };
    if n as u64 <= 9223372036854775807u64 {
        Object::Integer(n as i64)
    } else {
        proof {
            reveal_strlit("integer overflow");
        }
        Object::Error(text_of("integer overflow"))
    }
}

/// `first(x)`: the first element of an array, else `Null`.
pub fn first(params: &Vec<Object>) -> (r: Object)
    ensures
        r@ == first_value(values(params@)),
{
    if params.len() != 1 {
        return arity_error();
    }
    match &params[0] {
        Object::Array(v) => if v.len() > 0 {
            v[0].copy()
        } else {
            Object::Null
        },
        _ => Object::Null,
    }
}

/// `last(x)`: the last element of an array, else `Null`.
pub fn last(params: &Vec<Object>) -> (r: Object)
    ensures
        r@ == last_value(values(params@)),
{
    if params.len() != 1 {
        return arity_error();
    }
    match &params[0] {
        Object::Array(v) => if v.len() > 0 {
            v[v.len() - 1].copy()
        } else {
            Object::Null
        },
        _ => Object::Null,
    }
}

/// `rest(x)`: a new array of all elements of an array but the first;
/// `Null` for an empty array or any other value.
pub fn rest(params: &Vec<Object>) -> (r: Object)
    ensures
        r@ == rest_value(values(params@)),
{
    if params.len() != 1 {
        return arity_error();
    }
    match &params[0] {
        Object::Array(v) => {
            if v.len() == 0 {
                return Object::Null;
            }
            let mut out: Vec<Object> = Vec::new();
            let mut i: usize = 1;
            while i < v.len()
                invariant
                    1 <= i <= v@.len(),
                    out@.len() == i - 1,
                    forall|k: int| 0 <= k < out@.len() ==> (#[trigger] out@[k])@ == v@[k + 1]@,
                decreases v@.len() - i,
            {
                out.push(v[i].copy());
                i += 1;
            }
            let r = Object::Array(out);
            proof {
                let s = params@[0]@->Array_0;
                assert(r@->Array_0 =~= s.subrange(1, s.len() as int));
            }
            r
        },
        _ => Object::Null,
    }
}

/// `push(a, x)`: a new array of the elements of array `a`, then `x`;
/// `Null` when `a` is no array. `a` itself is left as it is.
pub fn push(params: &Vec<Object>) -> (r: Object)
    ensures
        r@ == push_value(values(params@)),
{
    if params.len() != 2 {
        return arity_error();
    }
    match &params[0] {
        Object::Array(v) => {
            let mut out = crate::object::copy_objects(v);
            out.push(params[1].copy());
            let r = Object::Array(out);
            proof {
                let s = params@[0]@->Array_0;
                assert(r@->Array_0 =~= s.push(params@[1]@));
            }
            r
        },
        _ => Object::Null,
    }
}

/// `unshift(a, x)`: a new array of `x`, then the elements of array `a`;
/// `Null` when `a` is no array. `a` itself is left as it is.
pub fn unshift(params: &Vec<Object>) -> (r: Object)
    ensures
        r@ == unshift_value(values(params@)),
{
    if params.len() != 2 {
        return arity_error();
    }
    match &params[0] {
        Object::Array(v) => {
            let mut out: Vec<Object> = Vec::new();
            out.push(params[1].copy());
            let mut i: usize = 0;
            while i < v.len()
                invariant
                    i <= v@.len(),
                    out@.len() == i + 1,
                    out@[0]@ == params@[1]@,
                    forall|k: int| 0 <= k < i ==> (#[trigger] out@[k + 1])@ == v@[k]@,
                decreases v@.len() - i,
            {
                out.push(v[i].copy());
                i += 1;
            }
            let r = Object::Array(out);
            proof {
                let s = params@[0]@->Array_0;
                assert(r@->Array_0 =~= seq![params@[1]@].add(s)) by {
                    assert forall|k: int| 0 <= k < s.len() implies r@->Array_0[k + 1] == s[k] by {
                        assert(out@[k + 1]@ == v@[k]@);
                    }
                }
            }
            r
        },
        _ => Object::Null,
    }
}

} // verus!
