use vstd::prelude::*;

verus! {

/// The functions that every global environment provides.
#[derive(Debug, Clone, Copy, PartialEq, Eq, Structural)]
pub enum Builtin {
    Len,
    First,
    Last,
    Rest,
    Push,
    UnShift,
    Print,
}

/// A runtime value of Lynx.
#[derive(PartialEq, Debug)]
pub enum Object {
    Integer(i64),
    Boolean(bool),
    String(String),
    Array(Vec<Object>),
    /// Key and value pairs; keys are integers, strings or booleans, each at
    /// most once. A vector keeps insertion and lookup provable over the
    /// values, where a hash map over these objects would rest on hashing that
    /// nothing here specifies.
    Hash(Vec<(Object, Object)>),
    Null,
    /// A closure: its index in the evaluator's table of functions.
    Function(usize),
    Builtin(Builtin),
    Error(String),
}

/// The mathematical value of an `Object`: texts as character sequences,
/// arrays and hashes as sequences.
pub enum Value {
    Integer(int),
    Boolean(bool),
    Str(Seq<char>),
    Array(Seq<Value>),
    Hash(Seq<(Value, Value)>),
    Null,
    Function(nat),
    Builtin(Builtin),
    Error(Seq<char>),
}

/// The value of `o`.
pub open spec fn value_of(o: Object) -> Value
    decreases o,
{
    match o {
        Object::Integer(n) => Value::Integer(n as int),
        Object::Boolean(b) => Value::Boolean(b),
        Object::String(s) => Value::Str(s@),
        Object::Array(v) => Value::Array(
            Seq::new(
                v@.len(),
                |i: int|
                    if 0 <= i < v@.len() {
                        value_of(v@[i])
                    } else {
                        Value::Null
                    },
            ),
        ),
        Object::Hash(v) => Value::Hash(
            Seq::new(
                v@.len(),
                |i: int|
                    if 0 <= i < v@.len() {
                        (value_of(v@[i].0), value_of(v@[i].1))
                    } else {
                        (Value::Null, Value::Null)
                    },
            ),
        ),
        Object::Null => Value::Null,
        Object::Function(i) => Value::Function(i as nat),
        Object::Builtin(b) => Value::Builtin(b),
        Object::Error(s) => Value::Error(s@),
    }
}

impl View for Object {
    type V = Value;

    open spec fn view(&self) -> Value {
        value_of(*self)
    }
}

/// `Null`, `false` and errors are false; every other value is true.
pub open spec fn truthy(v: Value) -> bool {
    match v {
        Value::Boolean(b) => b,
        Value::Null => false,
        Value::Error(_) => false,
        _ => true,
    }
}

/// Only integers, strings and booleans can be hash keys.
pub open spec fn hashable(v: Value) -> bool {
    v is Integer || v is Str || v is Boolean
}

/// `a` and `b` are the same hash key.
pub open spec fn same_key(a: Value, b: Value) -> bool {
    hashable(a) && a == b
}

/// The value bound to `key` by the first pair at or after `i` that has it.
pub open spec fn lookup_from(pairs: Seq<(Value, Value)>, key: Value, i: int) -> Option<Value>
    decreases pairs.len() - i,
{
    if i < 0 || i >= pairs.len() {
        None
    } else if same_key(pairs[i].0, key) {
        Some(pairs[i].1)
    } else {
        lookup_from(pairs, key, i + 1)
    }
}

/// The value bound to `key` in a hash's pairs.
pub open spec fn hash_lookup(pairs: Seq<(Value, Value)>, key: Value) -> Option<Value> {
    lookup_from(pairs, key, 0)
}

/// An error value with message `msg`.
pub open spec fn error_with(v: Value, msg: Seq<char>) -> bool {
    v == Value::Error(msg)
}

/// Arrays whose elements have equal values have equal values.
pub proof fn lemma_array_value(a: Vec<Object>, b: Vec<Object>)
    requires
        a@.len() == b@.len(),
        forall|i: int| 0 <= i < a@.len() ==> (#[trigger] a@[i])@ == b@[i]@,
    ensures
        Object::Array(a)@ == Object::Array(b)@,
{
    assert(Object::Array(a)@->Array_0 =~= Object::Array(b)@->Array_0);
}

/// Hashes whose pairs have equal values have equal values.
pub proof fn lemma_hash_value(a: Vec<(Object, Object)>, b: Vec<(Object, Object)>)
    requires
        a@.len() == b@.len(),
        forall|i: int|
            0 <= i < a@.len() ==> (#[trigger] a@[i]).0@ == b@[i].0@ && a@[i].1@ == b@[i].1@,
    ensures
        Object::Hash(a)@ == Object::Hash(b)@,
{
    assert(Object::Hash(a)@->Hash_0 =~= Object::Hash(b)@->Hash_0);
}

/// Whether `a` and `b` are the same hash key.
pub fn key_eq(a: &Object, b: &Object) -> (r: bool)
    ensures
        r == same_key(a@, b@),
{
    match (a, b) {
        (Object::Integer(x), Object::Integer(y)) => *x == *y,
        (Object::String(x), Object::String(y)) => x.eq(y),
        (Object::Boolean(x), Object::Boolean(y)) => *x == *y,
        _ => false,
    }
}

/// Copies of the objects of `v`, in order.
pub fn copy_objects(v: &Vec<Object>) -> (r: Vec<Object>)
    ensures
        r@.len() == v@.len(),
        forall|i: int| 0 <= i < v@.len() ==> (#[trigger] r@[i])@ == v@[i]@,
    decreases v,
{
    let mut r: Vec<Object> = Vec::new();
    let mut i: usize = 0;
    while i < v.len()
        invariant
            i <= v@.len(),
            r@.len() == i,
            forall|k: int| 0 <= k < i ==> (#[trigger] r@[k])@ == v@[k]@,
        decreases v@.len() - i,
    {
        proof {
            vstd::std_specs::vec::axiom_vec_index_decreases(*v, i as int);
        }
        r.push(v[i].copy());
        i += 1;
    }
    r
}

/// Copies of the pairs of `v`, in order.
pub fn copy_object_pairs(v: &Vec<(Object, Object)>) -> (r: Vec<(Object, Object)>)
    ensures
        r@.len() == v@.len(),
        forall|i: int|
            0 <= i < v@.len() ==> (#[trigger] r@[i]).0@ == v@[i].0@ && r@[i].1@ == v@[i].1@,
    decreases v,
{
    let mut r: Vec<(Object, Object)> = Vec::new();
    let mut i: usize = 0;
    while i < v.len()
        invariant
            i <= v@.len(),
            r@.len() == i,
            forall|k: int|
                0 <= k < i ==> (#[trigger] r@[k]).0@ == v@[k].0@ && r@[k].1@ == v@[k].1@,
        decreases v@.len() - i,
    {
        proof {
            vstd::std_specs::vec::axiom_vec_index_decreases(*v, i as int);
            assert(decreases_to!(v@[i as int] => v@[i as int].0));
            assert(decreases_to!(v@[i as int] => v@[i as int].1));
        }
        let k = v[i].0.copy();
        let x = v[i].1.copy();
        r.push((k, x));
        i += 1;
    }
    r
}

impl Object {
    /// A copy of this value.
    pub fn copy(&self) -> (r: Object)
        ensures
            r@ == self@,
        decreases self,
    {
        match self {
            Object::Integer(n) => Object::Integer(*n),
            Object::Boolean(b) => Object::Boolean(*b),
            Object::String(s) => Object::String(s.clone()),
            Object::Array(v) => {
                let c = copy_objects(v);
                proof {
                    lemma_array_value(c, *v);
                }
                Object::Array(c)
            },
            Object::Hash(v) => {
                let c = copy_object_pairs(v);
                proof {
                    lemma_hash_value(c, *v);
                }
                Object::Hash(c)
            },
            Object::Null => Object::Null,
            Object::Function(i) => Object::Function(*i),
            Object::Builtin(b) => Object::Builtin(*b),
            Object::Error(s) => Object::Error(s.clone()),
        }
    }

    /// Whether this value counts as true in a condition.
    pub fn is_truthy(&self) -> (r: bool)
        ensures
            r == truthy(self@),
    {
        match self {
            Object::Boolean(b) => *b,
            Object::Null => false,
            Object::Error(_) => false,
            _ => true,
        }
    }

    /// For a hash, the value bound to `key`; `None` for any other value.
    pub fn hash_get(&self, key: &Object) -> (r: Option<&Object>)
        ensures
            self@ is Hash ==> (match hash_lookup(self@->Hash_0, key@) {
                Some(v) => r is Some && r->0@ == v,
                None => r is None,
            }),
            !(self@ is Hash) ==> r is None,
    {
        match self {
            Object::Hash(pairs) => {
                let ghost view = self@->Hash_0;
                let mut i: usize = 0;
                while i < pairs.len()
                    invariant
                        *self == Object::Hash(*pairs),
                        view == self@->Hash_0,
                        i <= pairs@.len(),
                        hash_lookup(view, key@) == lookup_from(view, key@, i as int),
                    decreases pairs@.len() - i,
                {
                    if key_eq(&pairs[i].0, key) {
                        return Some(&pairs[i].1);
                    }
                    i += 1;
                }
                None
            },
            _ => None,
        }
    }
}

} // verus!
