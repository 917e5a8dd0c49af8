use vstd::prelude::*;

use crate::ast::{
    copy_expressions, expr_tree, expr_trees, pair_trees, program_tree, stmt_tree, stmt_trees, AstNode,
    ExprTree, Expression, Statement, StmtTree,
};
use crate::builtin::{builtin_value, first, last, len, make_builtin, push, rest, unshift, values};
use crate::env::{entries_find, entries_of, entries_set, Env};
use crate::object::{hashable, truthy, Builtin, Object, Value};
use crate::ops::{checked, infix_value, infix_values, prefix_value, prefix_values};
use crate::text::text_of;
use crate::token::TokenType;

verus! {

/// How deeply evaluation may nest: statements and expressions each count
/// one level, so a chain of user function calls may be about fifty calls deep.
pub const MAX_DEPTH: u64 = 160;

/// How many loop rounds and function calls one program may perform.
pub const MAX_STEPS: u64 = 1000000;

/// What evaluating a statement or an expression gives: a value, nothing, or
/// a `return` or `break` on its way out.
#[derive(Debug)]
pub enum Flow {
    Value(Object),
    Absent,
    Return(Object),
    Break,
}

/// A function value: its parameters, its body, and the index of the scope
/// it was defined in.
#[derive(Debug)]
pub struct FnDef {
    params: Vec<Expression>,
    body: Statement,
    env: usize,
}

pub open spec fn no_identifier(name: Seq<char>) -> Seq<char> {
    "no identifier found: "@ + name
}

pub open spec fn depth_message() -> Seq<char> {
    "maximum depth exceeded"@
}

pub open spec fn step_message() -> Seq<char> {
    "step limit exceeded"@
}

pub open spec fn not_callable_message() -> Seq<char> {
    "not callable"@
}

pub open spec fn unhashable_message() -> Seq<char> {
    "unhashable key"@
}

/// What evaluation gives, over values.
pub enum Out {
    Val(Value),
    Absent,
    Ret(Value),
    Brk,
}

/// The mathematical form of a flow.
pub open spec fn flow_out(f: Flow) -> Out {
    match f {
        Flow::Value(v) => Out::Val(v@),
        Flow::Absent => Out::Absent,
        Flow::Return(v) => Out::Ret(v@),
        Flow::Break => Out::Brk,
    }
}

/// The mathematical form of an operand's result.
pub open spec fn operand_out(r: Result<Object, Flow>) -> Result<Value, Out> {
    match r {
        Ok(v) => Ok(v@),
        Err(f) => Err(flow_out(f)),
    }
}

/// A function value in the machine: parameters, body, captured scope.
pub struct Closure {
    pub params: Seq<ExprTree>,
    pub body: StmtTree,
    pub env: usize,
}

/// The state of an evaluator: each scope's bindings and enclosing scope,
/// the function values, what was printed, and the budget left.
pub struct Machine {
    pub scopes: Seq<Seq<(Seq<char>, Value)>>,
    pub parents: Seq<Option<usize>>,
    pub funcs: Seq<Closure>,
    pub out: Seq<Value>,
    pub steps: nat,
}

/// The value of `key` in scope `i`, looked up through the enclosing scopes.
pub open spec fn m_lookup(m: Machine, i: int, key: Seq<char>) -> Option<Value>
    decreases i,
{
    if i < 0 || i >= m.scopes.len() || i >= m.parents.len() {
        None
    } else {
        match entries_find(m.scopes[i], key, 0) {
            Some(v) => Some(v),
            None => match m.parents[i] {
                Some(j) => if j < i {
                    m_lookup(m, j as int, key)
                } else {
                    None
                },
                None => None,
            },
        }
    }
}

/// The value of identifier `n` in scope `env`: its binding, or an error.
pub open spec fn ident_value(m: Machine, env: int, n: Seq<char>) -> Value {
    match m_lookup(m, env, n) {
        Some(v) => v,
        None => Value::Error(no_identifier(n)),
    }
}

/// `m` with `name` bound to `v` in scope `env`.
pub open spec fn m_bind(m: Machine, env: int, name: Seq<char>, v: Value) -> Machine {
    Machine { scopes: m.scopes.update(env, entries_set(m.scopes[env], name, v)), ..m }
}

/// `m` with one step of the budget spent.
pub open spec fn m_spend(m: Machine) -> Machine {
    Machine { steps: (m.steps - 1) as nat, ..m }
}

/// The argument for parameter `i`: `Null` when it is missing.
pub open spec fn argument(args: Seq<Value>, i: int) -> Value {
    if 0 <= i < args.len() {
        args[i]
    } else {
        Value::Null
    }
}

/// The bindings of a call scope: the first `n` parameters bound in order to
/// their arguments; a parameter that is no identifier binds nothing.
pub open spec fn bind_params(ps: Seq<ExprTree>, args: Seq<Value>, n: int) -> Seq<(Seq<char>, Value)>
    decreases n,
{
    if n <= 0 {
        Seq::empty()
    } else {
        let st = bind_params(ps, args, n - 1);
        match ps[n - 1] {
            ExprTree::Ident(s) => entries_set(st, s, argument(args, n - 1)),
            _ => st,
        }
    }
}

/// A builtin call: `print` with one argument records it and gives `Null`.
pub open spec fn builtin_call(m: Machine, b: Builtin, args: Seq<Value>) -> (Value, Machine) {
    if b is Print && args.len() == 1 {
        (Value::Null, Machine { out: m.out.push(args[0]), ..m })
    } else {
        (builtin_value(b, args), m)
    }
}

/// `let id = v`: an error value is the result and binds nothing.
pub open spec fn let_value(m: Machine, env: int, id: ExprTree, v: Value) -> (Out, Machine) {
    if v is Error {
        (Out::Val(v), m)
    } else {
        match id {
            ExprTree::Ident(n) => (Out::Absent, m_bind(m, env, n, v)),
            _ => (Out::Absent, m),
        }
    }
}

/// A function literal in scope `env`: a new function value capturing
/// `env`; a named one is bound there and gives nothing.
pub open spec fn ev_fn(m: Machine, env: int, n: ExprTree, ps: Seq<ExprTree>, b: StmtTree) -> (Out, Machine) {
    let idx = m.funcs.len();
    let m1 = Machine { funcs: m.funcs.push(Closure { params: ps, body: b, env: env as usize }), ..m };
    match n {
        ExprTree::Ident(s) => if s.len() == 0 {
            (Out::Val(Value::Function(idx)), m1)
        } else {
            (Out::Absent, m_bind(m1, env, s, Value::Function(idx)))
        },
        _ => (Out::Val(Value::Function(idx)), m1),
    }
}

/// The meaning of a statement in scope `env`, with `d` levels of nesting left.
pub open spec fn ev_stmt(m: Machine, env: int, s: StmtTree, d: nat) -> (Out, Machine)
    decreases d, 3nat, 0int,
{
    if d == 0 {
        (Out::Val(Value::Error(depth_message())), m)
    } else {
        let d1 = (d - 1) as nat;
        match s {
            StmtTree::Let(id, e) => ev_let(m, env, *id, *e, d1),
            StmtTree::Return(e) => ev_return(m, env, *e, d1),
            StmtTree::Expr(e) => ev_expr(m, env, *e, d1),
            StmtTree::Block(v) => ev_items(m, env, v, 0, Out::Absent, d1),
        }
    }
}

pub open spec fn ev_let(m: Machine, env: int, id: ExprTree, e: ExprTree, d: nat) -> (Out, Machine)
    decreases d, 4nat, 0int,
{
    match ev_expr(m, env, e, d) {
        (Out::Val(v), m1) => let_value(m1, env, id, v),
        (Out::Absent, m1) => let_value(m1, env, id, Value::Null),
        (o, m1) => (o, m1),
    }
}

pub open spec fn ev_return(m: Machine, env: int, e: ExprTree, d: nat) -> (Out, Machine)
    decreases d, 4nat, 0int,
{
    match ev_expr(m, env, e, d) {
        (Out::Val(v), m1) => (Out::Ret(v), m1),
        (Out::Absent, m1) => (Out::Ret(Value::Null), m1),
        (o, m1) => (o, m1),
    }
}

/// The statements of a block from `i` on: the last value so far is `acc`;
/// a `return` or `break` stops the block and is passed on.
pub open spec fn ev_items(m: Machine, env: int, v: Seq<StmtTree>, i: int, acc: Out, d: nat) -> (Out, Machine)
    decreases d, 4nat, v.len() - i,
{
    if i < 0 || i >= v.len() {
        (acc, m)
    } else {
        match ev_stmt(m, env, v[i], d) {
            (Out::Ret(x), m1) => (Out::Ret(x), m1),
            (Out::Brk, m1) => (Out::Brk, m1),
            (Out::Val(x), m1) => ev_items(m1, env, v, i + 1, Out::Val(x), d),
            (Out::Absent, m1) => ev_items(m1, env, v, i + 1, acc, d),
        }
    }
}

/// A function body: a block's statements, or a single statement.
pub open spec fn ev_block(m: Machine, env: int, s: StmtTree, d: nat) -> (Out, Machine)
    decreases d, 5nat, 0int,
{
    match s {
        StmtTree::Block(v) => ev_items(m, env, v, 0, Out::Absent, d),
        _ => ev_stmt(m, env, s, d),
    }
}

/// The meaning of an expression in scope `env`, with `d` levels left.
pub open spec fn ev_expr(m: Machine, env: int, e: ExprTree, d: nat) -> (Out, Machine)
    decreases d, 3nat, 0int,
{
    if d == 0 {
        (Out::Val(Value::Error(depth_message())), m)
    } else {
        let d1 = (d - 1) as nat;
        match e {
            ExprTree::Ident(n) => (Out::Val(ident_value(m, env, n)), m),
            ExprTree::Int(n) => (Out::Val(checked(n as int)), m),
            ExprTree::Bool(b) => (Out::Val(Value::Boolean(b)), m),
            ExprTree::Str(s) => (Out::Val(Value::Str(s)), m),
            ExprTree::Array(items) => ev_array(m, env, items, 0, Seq::empty(), d1),
            ExprTree::Hash(pairs) => ev_hash(m, env, pairs, 0, Seq::empty(), d1),
            ExprTree::Prefix(op, x) => ev_prefix(m, env, op, *x, d1),
            ExprTree::Infix(l, op, r) => ev_infix(m, env, *l, op, *r, d1),
            ExprTree::If(c, t, o) => ev_if(m, env, *c, *t, o, d1),
            ExprTree::While(c, b) => ev_while(m, env, *c, *b, d1),
            ExprTree::Break => (Out::Brk, m),
            ExprTree::Fn(n, ps, b) => ev_fn(m, env, *n, ps, *b),
            ExprTree::Call(f, a) => ev_fncall(m, env, *f, a, d1),
        }
    }
}

/// An operand: its value (`Null` for none), or the `return` or `break` to
/// pass on.
pub open spec fn ev_operand(m: Machine, env: int, e: ExprTree, d: nat) -> (Result<Value, Out>, Machine)
    decreases d, 4nat, 0int,
{
    match ev_expr(m, env, e, d) {
        (Out::Val(v), m1) => (Ok(v), m1),
        (Out::Absent, m1) => (Ok(Value::Null), m1),
        (o, m1) => (Err(o), m1),
    }
}

pub open spec fn ev_prefix(m: Machine, env: int, op: TokenType, x: ExprTree, d: nat) -> (Out, Machine)
    decreases d, 5nat, 0int,
{
    match ev_operand(m, env, x, d) {
        (Ok(v), m1) => (Out::Val(prefix_value(op, v)), m1),
        (Err(o), m1) => (o, m1),
    }
}

/// `l op r`: the left operand, then the right one, then the operator.
pub open spec fn ev_infix(m: Machine, env: int, l: ExprTree, op: TokenType, r: ExprTree, d: nat) -> (Out, Machine)
    decreases d, 5nat, 0int,
{
    match ev_operand(m, env, l, d) {
        (Err(o), m1) => (o, m1),
        (Ok(a), m1) => match ev_operand(m1, env, r, d) {
            (Err(o), m2) => (o, m2),
            (Ok(b), m2) => (Out::Val(infix_value(op, a, b)), m2),
        },
    }
}

/// The elements of an array literal from `i` on, after `acc`; an error
/// element is the result.
pub open spec fn ev_array(m: Machine, env: int, items: Seq<ExprTree>, i: int, acc: Seq<Value>, d: nat) -> (Out, Machine)
    decreases d, 5nat, items.len() - i,
{
    if i < 0 || i >= items.len() {
        (Out::Val(Value::Array(acc)), m)
    } else {
        match ev_operand(m, env, items[i], d) {
            (Err(o), m1) => (o, m1),
            (Ok(v), m1) => if v is Error {
                (Out::Val(v), m1)
            } else {
                ev_array(m1, env, items, i + 1, acc.push(v), d)
            },
        }
    }
}

/// The pairs of a hash literal from `i` on, after `acc`: key, then value;
/// an error is the result, and a key that is no integer, string or boolean
/// is an error.
pub open spec fn ev_hash(m: Machine, env: int, pairs: Seq<(ExprTree, ExprTree)>, i: int, acc: Seq<(Value, Value)>, d: nat) -> (Out, Machine)
    decreases d, 5nat, pairs.len() - i,
{
    if i < 0 || i >= pairs.len() {
        (Out::Val(Value::Hash(acc)), m)
    } else {
        match ev_operand(m, env, pairs[i].0, d) {
            (Err(o), m1) => (o, m1),
            (Ok(k), m1) => if k is Error {
                (Out::Val(k), m1)
            } else if !hashable(k) {
                (Out::Val(Value::Error(unhashable_message())), m1)
            } else {
                match ev_operand(m1, env, pairs[i].1, d) {
                    (Err(o), m2) => (o, m2),
                    (Ok(v), m2) => if v is Error {
                        (Out::Val(v), m2)
                    } else {
                        ev_hash(m2, env, pairs, i + 1, hash_insert(acc, k, v), d)
                    },
                }
            },
        }
    }
}

pub open spec fn ev_if(m: Machine, env: int, c: ExprTree, t: StmtTree, o: Option<Box<StmtTree>>, d: nat) -> (Out, Machine)
    decreases d, 5nat, 0int,
{
    match ev_operand(m, env, c, d) {
        (Err(x), m1) => (x, m1),
        (Ok(v), m1) => if truthy(v) {
            ev_stmt(m1, env, t, d)
        } else {
            match o {
                Some(b) => ev_stmt(m1, env, *b, d),
                None => (Out::Absent, m1),
            }
        },
    }
}

/// `while`: each round spends a step, then evaluates the condition; a true
/// condition runs the body; `break` ends the loop, `return` is passed on.
pub open spec fn ev_while(m: Machine, env: int, c: ExprTree, b: StmtTree, d: nat) -> (Out, Machine)
    decreases d, 5nat, m.steps,
{
    if m.steps == 0 {
        (Out::Val(Value::Error(step_message())), m)
    } else {
        match ev_operand(m_spend(m), env, c, d) {
            (Err(x), m2) => (x, m2),
            (Ok(v), m2) => if !truthy(v) {
                (Out::Absent, m2)
            } else {
                match ev_stmt(m2, env, b, d) {
                    (Out::Brk, m3) => (Out::Absent, m3),
                    (Out::Ret(x), m3) => (Out::Ret(x), m3),
                    (_, m3) => if m3.steps < m.steps {
                        ev_while(m3, env, c, b, d)
                    } else {
                        (Out::Absent, m3)
                    },
                }
            },
        }
    }
}

/// A call: the callee, then the arguments left to right, then the call.
pub open spec fn ev_fncall(m: Machine, env: int, f: ExprTree, args: Seq<ExprTree>, d: nat) -> (Out, Machine)
    decreases d, 8nat, 0int,
{
    match ev_operand(m, env, f, d) {
        (Err(o), m1) => (o, m1),
        (Ok(fv), m1) => if fv is Error {
            (Out::Val(fv), m1)
        } else {
            ev_args(m1, env, fv, args, 0, Seq::empty(), d)
        },
    }
}

/// The arguments from `i` on, after `acc`, then the call of `fv`; an error
/// argument is the result.
pub open spec fn ev_args(m: Machine, env: int, fv: Value, args: Seq<ExprTree>, i: int, acc: Seq<Value>, d: nat) -> (Out, Machine)
    decreases d, 7nat, args.len() - i,
{
    if i < 0 || i >= args.len() {
        (Out::Val(dispatch(m, fv, acc, d).0), dispatch(m, fv, acc, d).1)
    } else {
        match ev_operand(m, env, args[i], d) {
            (Err(o), m1) => (o, m1),
            (Ok(v), m1) => if v is Error {
                (Out::Val(v), m1)
            } else {
                ev_args(m1, env, fv, args, i + 1, acc.push(v), d)
            },
        }
    }
}

/// Calling `fv` with `args`: a builtin, a function value, or the
/// not-callable error.
pub open spec fn dispatch(m: Machine, fv: Value, args: Seq<Value>, d: nat) -> (Value, Machine)
    decreases d, 6nat, 1int,
{
    match fv {
        Value::Builtin(b) => builtin_call(m, b, args),
        Value::Function(k) => if k < m.funcs.len() {
            ev_call(m, k as int, args, d)
        } else {
            (Value::Error(not_callable_message()), m)
        },
        _ => (Value::Error(not_callable_message()), m),
    }
}

/// The scope a call of function value `k` runs in: the parameters bound to
/// the arguments, inside the scope the function captured.
pub open spec fn m_enter(m: Machine, k: int, args: Seq<Value>) -> Machine {
    let f = m.funcs[k];
    Machine {
        scopes: m.scopes.push(bind_params(f.params, args, f.params.len() as int)),
        parents: m.parents.push(Some(f.env)),
        ..m
    }
}

/// Calling function value `k`: a step is spent; the body runs in a new scope
/// whose enclosing scope is the one the function captured, with the
/// parameters bound to the arguments; a `return` gives the call's value,
/// and a body with none gives `Null`.
pub open spec fn ev_call(m: Machine, k: int, args: Seq<Value>, d: nat) -> (Value, Machine)
    decreases d, 6nat, 0int,
{
    if m.steps == 0 {
        (Value::Error(step_message()), m)
    } else {
        match ev_block(m_enter(m_spend(m), k, args), m.scopes.len() as int, m.funcs[k].body, d) {
            (Out::Val(v), m3) => (v, m3),
            (Out::Ret(v), m3) => (v, m3),
            (_, m3) => (Value::Null, m3),
        }
    }
}

/// A program's statements from `i` on in the global scope: the value of
/// the last one that has a value (`value` so far); a `return` ends the
/// program with its value, a `break` ends it.
pub open spec fn ev_program(m: Machine, stmts: Seq<StmtTree>, i: int, value: Value) -> (Value, Machine)
    decreases stmts.len() - i,
{
    if i < 0 || i >= stmts.len() {
        (value, m)
    } else {
        match ev_stmt(m, 0, stmts[i], MAX_DEPTH as nat) {
            (Out::Val(v), m1) => ev_program(m1, stmts, i + 1, v),
            (Out::Absent, m1) => ev_program(m1, stmts, i + 1, value),
            (Out::Ret(v), m1) => (v, m1),
            (Out::Brk, m1) => (value, m1),
        }
    }
}

/// No two pairs have the same key, and every key can be a hash key.
pub open spec fn hash_keys_unique(pairs: Seq<(Value, Value)>) -> bool {
    &&& forall|i: int| 0 <= i < pairs.len() ==> hashable(#[trigger] pairs[i].0)
    &&& forall|i: int, j: int|
        0 <= i < j < pairs.len() ==> (#[trigger] pairs[i]).0 != (#[trigger] pairs[j]).0
}

/// The index of the first pair at or after `i` whose key is `k`.
pub open spec fn key_index_from(pairs: Seq<(Value, Value)>, k: Value, i: int) -> Option<int>
    decreases pairs.len() - i,
{
    if i < 0 || i >= pairs.len() {
        None
    } else if pairs[i].0 == k {
        Some(i)
    } else {
        key_index_from(pairs, k, i + 1)
    }
}

/// The pairs after binding `k` to `v`: the pair with key `k` gets value
/// `v`, or `(k, v)` is added at the end.
pub open spec fn hash_insert(pairs: Seq<(Value, Value)>, k: Value, v: Value) -> Seq<(Value, Value)> {
    match key_index_from(pairs, k, 0) {
        Some(i) => pairs.update(i, (k, v)),
        None => pairs.push((k, v)),
    }
}

/// The pairs of a hash literal whose first `n` keys and values are given.
pub open spec fn hash_build(keys: Seq<Value>, vals: Seq<Value>, n: int) -> Seq<(Value, Value)>
    decreases n,
{
    if n <= 0 {
        Seq::empty()
    } else {
        hash_insert(hash_build(keys, vals, n - 1), keys[n - 1], vals[n - 1])
    }
}

/// Binds key `k` to `v` in a hash's pairs: replaces the value of an equal
/// key, or adds the pair at the end.
pub fn insert_pair(pairs: &mut Vec<(Object, Object)>, k: Object, v: Object)
    requires
        hash_keys_unique(Object::Hash(*old(pairs))@->Hash_0),
        hashable(k@),
    ensures
        hash_keys_unique(Object::Hash(*final(pairs))@->Hash_0),
        crate::object::hash_lookup(Object::Hash(*final(pairs))@->Hash_0, k@) == Some(v@),
        Object::Hash(*final(pairs))@->Hash_0 == hash_insert(Object::Hash(*old(pairs))@->Hash_0, k@, v@),
{
    let ghost before = Object::Hash(*pairs)@->Hash_0;
    let mut i: usize = 0;
    while i < pairs.len()
        invariant
            *pairs == *old(pairs),
            before == Object::Hash(*pairs)@->Hash_0,
            hashable(k@),
            hash_keys_unique(before),
            i <= pairs@.len(),
            forall|m: int| 0 <= m < i ==> (#[trigger] before[m]).0 != k@,
            key_index_from(before, k@, 0) == key_index_from(before, k@, i as int),
        decreases pairs@.len() - i,
    {
        if crate::object::key_eq(&pairs[i].0, &k) {
            let ghost kv = k@;
            let ghost vv = v@;
            pairs.set(i, (k, v));
            proof {
                let after = Object::Hash(*pairs)@->Hash_0;
                assert(before[i as int].0 == kv);
                assert(after =~= before.update(i as int, (kv, vv)));
                assert forall|a: int| 0 <= a < after.len() implies after[a].0 == before[a].0 by {}
                lemma_lookup_at(after, kv, 0, i as int);
            }
            return;
        }
        i += 1;
    }
    let ghost kv = k@;
    let ghost vv = v@;
    pairs.push((k, v));
    proof {
        let after = Object::Hash(*pairs)@->Hash_0;
        assert(after =~= before.push((kv, vv)));
        lemma_lookup_at(after, kv, 0, before.len() as int);
    }
}

proof fn lemma_lookup_at(pairs: Seq<(Value, Value)>, key: Value, i: int, j: int)
    requires
        0 <= i <= j < pairs.len(),
        forall|m: int| i <= m < j ==> (#[trigger] pairs[m]).0 != key,
        pairs[j].0 == key,
        hashable(key),
    ensures
        crate::object::lookup_from(pairs, key, i) == Some(pairs[j].1),
    decreases j - i,
{
    if i < j {
        lemma_lookup_at(pairs, key, i + 1, j);
    }
}

/// Evaluates programs against a tree of scopes. Scope 0 is the global
/// scope; every other scope has an enclosing scope with a smaller index.
/// Functions and scopes are kept in tables and referred to by index, so a
/// closure may be stored in the scope it captures.
#[derive(Debug)]
pub struct Evaluator {
    envs: Vec<Env>,
    functions: Vec<FnDef>,
    output: Vec<Object>,
    steps: u64,
}

impl Evaluator {
    /// The state of this evaluator, as mathematical values.
    pub closed spec fn state(&self) -> Machine {
        Machine {
            scopes: self.envs@.map_values(|e: Env| e.entries()),
            parents: self.envs@.map_values(|e: Env| e.parent()),
            funcs: self.functions@.map_values(
                |f: FnDef| Closure { params: expr_trees(f.params), body: stmt_tree(f.body), env: f.env },
            ),
            out: self.output@.map_values(|o: Object| o@),
            steps: self.steps as nat,
        }
    }

    pub closed spec fn scopes(&self) -> Seq<Env> {
        self.envs@
    }

    /// For each function value, the index of the scope it captured.
    pub closed spec fn captured(&self) -> Seq<usize> {
        self.functions@.map_values(|f: FnDef| f.env)
    }

    pub closed spec fn wf(&self) -> bool {
        &&& self.envs@.len() >= 1
        &&& forall|i: int|
            0 <= i < self.envs@.len() ==> match (#[trigger] self.envs@[i]).parent() {
                Some(j) => j < i,
                None => true,
            }
        &&& forall|f: int|
            0 <= f < self.functions@.len() ==> (#[trigger] self.functions@[f]).env
                < self.envs@.len()
    }

    /// `self` came from `old` by evaluation: scopes and functions were only
    /// added, no scope changed its enclosing scope, no function changed,
    /// and nothing printed was taken back.
    pub closed spec fn extends(&self, old: &Evaluator) -> bool {
        &&& old.envs@.len() <= self.envs@.len()
        &&& forall|i: int|
            0 <= i < old.envs@.len() ==> (#[trigger] self.envs@[i]).parent()
                == old.envs@[i].parent()
        &&& old.functions@.len() <= self.functions@.len()
        &&& forall|f: int|
            0 <= f < old.functions@.len() ==> #[trigger] self.functions@[f]
                == old.functions@[f]
        &&& old.output@.len() <= self.output@.len()
        &&& forall|k: int|
            0 <= k < old.output@.len() ==> (#[trigger] self.output@[k])@ == old.output@[k]@
    }

    /// As `extends`, within one program: the budget did not grow.
    pub closed spec fn spends(&self, old: &Evaluator) -> bool {
        &&& self.extends(old)
        &&& self.steps <= old.steps
    }

    /// An evaluator whose global scope holds the bindings of `env`.
    pub fn new(env: Env) -> (r: Evaluator)
        ensures
            r.wf(),
            r.state() == (Machine {
                scopes: seq![env.entries()],
                parents: seq![None],
                funcs: Seq::empty(),
                out: Seq::empty(),
                steps: MAX_STEPS as nat,
            }),
    {
        let mut envs: Vec<Env> = Vec::new();
        envs.push(env.detached());
        let r = Evaluator { envs, functions: Vec::new(), output: Vec::new(), steps: MAX_STEPS };
        proof {
            assert(r.state().scopes =~= seq![env.entries()]);
            assert(r.state().parents =~= seq![None]);
            assert(r.state().funcs =~= Seq::<Closure>::empty());
            assert(r.state().out =~= Seq::<Value>::empty());
        }
        r
    }

    /// Makes the global scope hold the builtin functions and nothing else.
    pub fn builtin(&mut self)
        requires
            old(self).wf(),
        ensures
            final(self).wf(),
            final(self).spends(old(self)),
            final(self).state() == (Machine {
                scopes: old(self).state().scopes.update(0, crate::builtin::builtin_entries()),
                ..old(self).state()
            }),
    {
        let global = Env::from(make_builtin());
        self.envs.set(0, global);
        proof {
            assert(self.state().scopes =~= old(self).state().scopes.update(0, crate::builtin::builtin_entries()));
            assert(self.state().parents =~= old(self).state().parents);
            assert(self.state().funcs =~= old(self).state().funcs);
        }
    }

    /// The global scope.
    pub fn get_env(&self) -> (r: &Env)
        requires
            self.wf(),
        ensures
            *r == self.scopes()[0],
            r.entries() == self.state().scopes[0],
    {
        &self.envs[0]
    }

    /// The values passed to `print`, in order.
    pub fn output(&self) -> (r: &Vec<Object>)
        ensures
            values(r@) == self.state().out,
    {
        proof {
            assert(values(self.output@) =~= self.state().out);
        }
        &self.output
    }

    /// The value of identifier `name` in scope `env`.
    pub fn eval_identifier(&self, name: &String, env: usize) -> (r: Object)
        requires
            self.wf(),
            env < self.scopes().len(),
        ensures
            r@ == ident_value(self.state(), env as int, name@),
    {
        let mut i = env;
        loop
            invariant
                self.wf(),
                i < self.envs@.len(),
                m_lookup(self.state(), env as int, name@) == m_lookup(self.state(), i as int, name@),
            decreases i,
        {
            proof {
                self.envs@[i as int].lemma_find_entries(name@);
            }
            match self.envs[i].get(name.clone()) {
                Some(v) => {
                    return v;
                },
                None => match self.envs[i].outer() {
                    Some(j) => {
                        i = j;
                    },
                    None => {
                        return Object::Error(
                            <String as vstd::string::StringExecFns>::concat(
                                text_of("no identifier found: "),
                                name.as_str(),
                            ),
                        );
                    },
                },
            }
        }
    }

    /// The value of an integer literal.
    pub fn eval_integer(&self, n: u64) -> (r: Object)
        ensures
            r@ == checked(n as int),
    {
        if n <= 9223372036854775807u64 {
            Object::Integer(n as i64)
        } else {
            proof {
                reveal_strlit("integer overflow");
            }
            Object::Error(text_of("integer overflow"))
        }
    }

    /// The value of a string literal.
    pub fn eval_string(&self, s: &String) -> (r: Object)
        ensures
            r@ == Value::Str(s@),
    {
        Object::String(s.clone())
    }

    /// The value of a boolean literal.
    pub fn eval_boolean(&self, b: bool) -> (r: Object)
        ensures
            r@ == Value::Boolean(b),
    {
        Object::Boolean(b)
    }

    /// An error value with message `msg`.
    fn error_value(&self, msg: &str) -> (r: Object)
        ensures
            r@ == Value::Error(msg@),
    {
        Object::Error(text_of(msg))
    }

    /// Binds `name` to `v` in scope `env`.
    fn bind(&mut self, env: usize, name: String, v: Object)
        requires
            old(self).wf(),
            env < old(self).scopes().len(),
        ensures
            final(self).wf(),
            final(self).spends(old(self)),
            final(self).steps == old(self).steps,
            final(self).state() == m_bind(old(self).state(), env as int, name@, v@),
    {
        let ghost before = self.envs@;
        let ghost nv = name@;
        let ghost vv = v@;
        self.envs[env].set(name, v);
        proof {
            assert(self.state().scopes =~= old(self).state().scopes.update(
                env as int,
                entries_set(old(self).state().scopes[env as int], nv, vv),
            ));
            assert(self.state().parents =~= old(self).state().parents);
            assert forall|i: int| 0 <= i < before.len() implies (#[trigger] self.envs@[i]).parent()
                == before[i].parent() by {}
        }
    }

    /// Spends one step of the budget.
    fn spend(&mut self)
        requires
            old(self).wf(),
            old(self).steps > 0,
        ensures
            final(self).wf(),
            final(self).spends(old(self)),
            final(self).state() == m_spend(old(self).state()),
    {
        self.steps = self.steps - 1;
    }

    /// Evaluates a statement in scope `env`.
    pub fn eval_statement(&mut self, stmt: &Statement, env: usize, depth: u64) -> (r: Flow)
        requires
            old(self).wf(),
            env < old(self).scopes().len(),
        ensures
            final(self).wf(),
            final(self).spends(old(self)),
            (flow_out(r), final(self).state()) == ev_stmt(old(self).state(), env as int, stmt_tree(*stmt), depth as nat),
        decreases depth, 3nat,
    {
        if depth == 0 {
            return Flow::Value(self.error_value("maximum depth exceeded"));
        }
        match stmt {
            Statement::Let(id, e) => self.eval_let_statement(id, e, env, depth - 1),
            Statement::Return(e) => self.eval_return_statement(e, env, depth - 1),
            Statement::Expr(e) => self.eval_expression(e, env, depth - 1),
            Statement::BlockStatement(v) => self.eval_block_statements(v, env, depth - 1),
        }
    }

    /// `let name = value`: binds the value in scope `env`; an error value
    /// is the statement's value and binds nothing.
    fn eval_let_statement(&mut self, id: &Expression, e: &Expression, env: usize, depth: u64) -> (r: Flow)
        requires
            old(self).wf(),
            env < old(self).scopes().len(),
        ensures
            final(self).wf(),
            final(self).spends(old(self)),
            (flow_out(r), final(self).state()) == ev_let(old(self).state(), env as int, expr_tree(*id), expr_tree(*e), depth as nat),
        decreases depth, 4nat,
    {
        let v = match self.eval_expression(e, env, depth) {
            Flow::Value(v) => v,
            Flow::Absent => Object::Null,
            Flow::Return(v) => {
                return Flow::Return(v);
            },
            Flow::Break => {
                return Flow::Break;
            },
        };
        if let Object::Error(_) = v {
            return Flow::Value(v);
        }
        match id {
            Expression::Identifier(name) => {
                self.bind(env, name.clone(), v);
                Flow::Absent
            },
            _ => Flow::Absent,
        }
    }

    /// `return value`.
    fn eval_return_statement(&mut self, e: &Expression, env: usize, depth: u64) -> (r: Flow)
        requires
            old(self).wf(),
            env < old(self).scopes().len(),
        ensures
            final(self).wf(),
            final(self).spends(old(self)),
            (flow_out(r), final(self).state()) == ev_return(old(self).state(), env as int, expr_tree(*e), depth as nat),
        decreases depth, 4nat,
    {
        match self.eval_expression(e, env, depth) {
            Flow::Value(v) => Flow::Return(v),
            Flow::Absent => Flow::Return(Object::Null),
            Flow::Return(v) => Flow::Return(v),
            Flow::Break => Flow::Break,
        }
    }

    /// A function body: a block's statements, or a single statement.
    fn eval_block_statement(&mut self, block: &Statement, env: usize, depth: u64) -> (r: Flow)
        requires
            old(self).wf(),
            env < old(self).scopes().len(),
        ensures
            final(self).wf(),
            final(self).spends(old(self)),
            (flow_out(r), final(self).state()) == ev_block(old(self).state(), env as int, stmt_tree(*block), depth as nat),
        decreases depth, 5nat,
    {
        match block {
            Statement::BlockStatement(v) => self.eval_block_statements(v, env, depth),
            _ => self.eval_statement(block, env, depth),
        }
    }

    /// Evaluates statements in order: the value of the last one that has a
    /// value; a `return` or `break` stops and is passed on.
    fn eval_block_statements(&mut self, stmts: &Vec<Statement>, env: usize, depth: u64) -> (r: Flow)
        requires
            old(self).wf(),
            env < old(self).scopes().len(),
        ensures
            final(self).wf(),
            final(self).spends(old(self)),
            (flow_out(r), final(self).state()) == ev_items(old(self).state(), env as int, stmt_trees(*stmts), 0, Out::Absent, depth as nat),
        decreases depth, 4nat,
    {
        let ghost t = stmt_trees(*stmts);
        let mut result = Flow::Absent;
        let mut i: usize = 0;
        while i < stmts.len()
            invariant
                self.wf(),
                self.spends(old(self)),
                env < self.envs@.len(),
                i <= stmts@.len(),
                t == stmt_trees(*stmts),
                !(result is Return) && !(result is Break),
                ev_items(old(self).state(), env as int, t, 0, Out::Absent, depth as nat) == ev_items(
                    self.state(),
                    env as int,
                    t,
                    i as int,
                    flow_out(result),
                    depth as nat,
                ),
            decreases stmts@.len() - i,
        {
            proof {
                assert(t[i as int] == stmt_tree(stmts@[i as int]));
            }
            let f = self.eval_statement(&stmts[i], env, depth);
            match f {
                Flow::Return(_) | Flow::Break => {
                    return f;
                },
                Flow::Value(_) => {
                    result = f;
                },
                Flow::Absent => {},
            }
            i += 1;
        }
        result
    }

    /// Evaluates an expression in scope `env`.
    pub fn eval_expression(&mut self, expr: &Expression, env: usize, depth: u64) -> (r: Flow)
        requires
            old(self).wf(),
            env < old(self).scopes().len(),
        ensures
            final(self).wf(),
            final(self).spends(old(self)),
            (flow_out(r), final(self).state()) == ev_expr(old(self).state(), env as int, expr_tree(*expr), depth as nat),
        decreases depth, 3nat,
    {
        if depth == 0 {
            return Flow::Value(self.error_value("maximum depth exceeded"));
        }
        match expr {
            Expression::Identifier(name) => Flow::Value(self.eval_identifier(name, env)),
            Expression::Integer(n) => Flow::Value(self.eval_integer(*n)),
            Expression::Boolean(b) => Flow::Value(self.eval_boolean(*b)),
            Expression::String(s) => Flow::Value(self.eval_string(s)),
            Expression::Array(items) => self.eval_array_expression(items, env, depth - 1),
            Expression::Hash(pairs) => {
                proof {
                    assert(expr_tree(*expr)->Hash_0 =~= pair_trees(*pairs));
                }
                self.eval_hash_expression(pairs, env, depth - 1)
            },
            Expression::Prefix(op, e) => self.eval_prefix_expression(op, e, env, depth - 1),
            Expression::Infix(l, op, r) => self.eval_infix_expression(l, op, r, env, depth - 1),
            Expression::If(c, t, e) => self.eval_if_expression(c, t, e, env, depth - 1),
            Expression::While(c, b) => self.eval_while_expression(c, b, env, depth - 1),
            Expression::Break => Flow::Break,
            Expression::Fn(n, p, b) => self.eval_fn_expression(n, p, b, env),
            Expression::FnCall(f, a) => self.eval_fn_call_expression(f, a, env, depth - 1),
        }
    }

    /// The value of an operand: a value, `Null` for none, or the flow to
    /// pass on.
    fn operand(&mut self, e: &Expression, env: usize, depth: u64) -> (r: Result<Object, Flow>)
        requires
            old(self).wf(),
            env < old(self).scopes().len(),
        ensures
            final(self).wf(),
            final(self).spends(old(self)),
            (operand_out(r), final(self).state()) == ev_operand(old(self).state(), env as int, expr_tree(*e), depth as nat),
        decreases depth, 4nat,
    {
        match self.eval_expression(e, env, depth) {
            Flow::Value(v) => Ok(v),
            Flow::Absent => Ok(Object::Null),
            Flow::Return(v) => Err(Flow::Return(v)),
            Flow::Break => Err(Flow::Break),
        }
    }

    /// `!x` or `-x`.
    fn eval_prefix_expression(&mut self, op: &TokenType, e: &Expression, env: usize, depth: u64) -> (r: Flow)
        requires
            old(self).wf(),
            env < old(self).scopes().len(),
        ensures
            final(self).wf(),
            final(self).spends(old(self)),
            (flow_out(r), final(self).state()) == ev_prefix(old(self).state(), env as int, *op, expr_tree(*e), depth as nat),
        decreases depth, 5nat,
    {
        match self.operand(e, env, depth) {
            Ok(v) => Flow::Value(prefix_values(op, v)),
            Err(f) => f,
        }
    }

    /// `l op r`: the left operand first, then the right one; a `return` or
    /// `break` in either is passed on; else the operator on both values.
    fn eval_infix_expression(
        &mut self,
        l: &Expression,
        op: &TokenType,
        r: &Expression,
        env: usize,
        depth: u64,
    ) -> (res: Flow)
        requires
            old(self).wf(),
            env < old(self).scopes().len(),
        ensures
            final(self).wf(),
            final(self).spends(old(self)),
            (flow_out(res), final(self).state()) == ev_infix(old(self).state(), env as int, expr_tree(*l), *op, expr_tree(*r), depth as nat),
        decreases depth, 5nat,
    {
        let left = match self.operand(l, env, depth) {
            Ok(v) => v,
            Err(f) => {
                return f;
            },
        };
        let right = match self.operand(r, env, depth) {
            Ok(v) => v,
            Err(f) => {
                return f;
            },
        };
        Flow::Value(infix_values(op, left, right))
    }

    /// An array literal: its elements left to right; an error element is
    /// the result.
    fn eval_array_expression(&mut self, items: &Vec<Expression>, env: usize, depth: u64) -> (r: Flow)
        requires
            old(self).wf(),
            env < old(self).scopes().len(),
        ensures
            final(self).wf(),
            final(self).spends(old(self)),
            (flow_out(r), final(self).state()) == ev_array(old(self).state(), env as int, expr_trees(*items), 0, Seq::empty(), depth as nat),
        decreases depth, 5nat,
    {
        let ghost t = expr_trees(*items);
        let mut out: Vec<Object> = Vec::new();
        let mut i: usize = 0;
        proof {
            assert(values(out@) =~= Seq::<Value>::empty());
        }
        while i < items.len()
            invariant
                self.wf(),
                self.spends(old(self)),
                env < self.envs@.len(),
                i <= items@.len(),
                t == expr_trees(*items),
                ev_array(old(self).state(), env as int, t, 0, Seq::empty(), depth as nat) == ev_array(
                    self.state(),
                    env as int,
                    t,
                    i as int,
                    values(out@),
                    depth as nat,
                ),
            decreases items@.len() - i,
        {
            proof {
                assert(t[i as int] == expr_tree(items@[i as int]));
            }
            let v = match self.operand(&items[i], env, depth) {
                Ok(v) => v,
                Err(f) => {
                    return f;
                },
            };
            if let Object::Error(_) = v {
                return Flow::Value(v);
            }
            let ghost before = out@;
            out.push(v);
            proof {
                assert(values(out@) =~= values(before).push(out@[out@.len() - 1]@));
            }
            i += 1;
        }
        let r = Object::Array(out);
        proof {
            assert(r@->Array_0 =~= values(out@));
        }
        Flow::Value(r)
    }

    /// A hash literal: key, then value, for each pair in order; a later
    /// pair with an equal key replaces the value of the earlier one.
    fn eval_hash_expression(&mut self, pairs: &Vec<(Expression, Expression)>, env: usize, depth: u64) -> (r: Flow)
        requires
            old(self).wf(),
            env < old(self).scopes().len(),
        ensures
            final(self).wf(),
            final(self).spends(old(self)),
            (flow_out(r), final(self).state()) == ev_hash(old(self).state(), env as int, pair_trees(*pairs), 0, Seq::empty(), depth as nat),
            r is Value && r->Value_0 is Hash ==> hash_keys_unique(r->Value_0@->Hash_0),
        decreases depth, 5nat,
    {
        let ghost t = pair_trees(*pairs);
        let mut out: Vec<(Object, Object)> = Vec::new();
        let mut i: usize = 0;
        proof {
            assert(Object::Hash(out)@->Hash_0 =~= Seq::<(Value, Value)>::empty());
        }
        while i < pairs.len()
            invariant
                self.wf(),
                self.spends(old(self)),
                env < self.envs@.len(),
                i <= pairs@.len(),
                t == pair_trees(*pairs),
                hash_keys_unique(Object::Hash(out)@->Hash_0),
                ev_hash(old(self).state(), env as int, t, 0, Seq::empty(), depth as nat) == ev_hash(
                    self.state(),
                    env as int,
                    t,
                    i as int,
                    Object::Hash(out)@->Hash_0,
                    depth as nat,
                ),
            decreases pairs@.len() - i,
        {
            proof {
                assert(t[i as int] == (expr_tree(pairs@[i as int].0), expr_tree(pairs@[i as int].1)));
            }
            let k = match self.operand(&pairs[i].0, env, depth) {
                Ok(v) => v,
                Err(f) => {
                    return f;
                },
            };
            if let Object::Error(_) = k {
                return Flow::Value(k);
            }
            let hashable_key = match k {
                Object::Integer(_) | Object::String(_) | Object::Boolean(_) => true,
                _ => false,
            };
            if !hashable_key {
                return Flow::Value(self.error_value("unhashable key"));
            }
            let v = match self.operand(&pairs[i].1, env, depth) {
                Ok(v) => v,
                Err(f) => {
                    return f;
                },
            };
            if let Object::Error(_) = v {
                return Flow::Value(v);
            }
            insert_pair(&mut out, k, v);
            i += 1;
        }
        Flow::Value(Object::Hash(out))
    }

    /// `if`: the first block when the condition is true, else the second
    /// block if there is one, else nothing.
    fn eval_if_expression(
        &mut self,
        cond: &Expression,
        then: &Statement,
        other: &Option<Statement>,
        env: usize,
        depth: u64,
    ) -> (r: Flow)
        requires
            old(self).wf(),
            env < old(self).scopes().len(),
        ensures
            final(self).wf(),
            final(self).spends(old(self)),
            (flow_out(r), final(self).state()) == ev_if(
                old(self).state(),
                env as int,
                expr_tree(*cond),
                stmt_tree(*then),
                match *other {
                    Some(x) => Some(Box::new(stmt_tree(x))),
                    None => None,
                },
                depth as nat,
            ),
        decreases depth, 5nat,
    {
        let c = match self.operand(cond, env, depth) {
            Ok(v) => v,
            Err(f) => {
                return f;
            },
        };
        if c.is_truthy() {
            self.eval_statement(then, env, depth)
        } else {
            match other {
                Some(s) => self.eval_statement(s, env, depth),
                None => Flow::Absent,
            }
        }
    }

    /// `while`: the body as long as the condition is true, until a `break`;
    /// a `return` is passed on. Each round takes one step of the budget.
    fn eval_while_expression(&mut self, cond: &Expression, body: &Statement, env: usize, depth: u64) -> (r: Flow)
        requires
            old(self).wf(),
            env < old(self).scopes().len(),
        ensures
            final(self).wf(),
            final(self).spends(old(self)),
            (flow_out(r), final(self).state()) == ev_while(old(self).state(), env as int, expr_tree(*cond), stmt_tree(*body), depth as nat),
        decreases depth, 5nat,
    {
        let ghost c = expr_tree(*cond);
        let ghost b = stmt_tree(*body);
        loop
            invariant
                self.wf(),
                self.spends(old(self)),
                env < self.envs@.len(),
                c == expr_tree(*cond),
                b == stmt_tree(*body),
                ev_while(old(self).state(), env as int, c, b, depth as nat) == ev_while(
                    self.state(),
                    env as int,
                    c,
                    b,
                    depth as nat,
                ),
            decreases self.steps,
        {
            if self.steps == 0 {
                return Flow::Value(self.error_value("step limit exceeded"));
            }
            let ghost m = self.state();
            self.spend();
            let v = match self.operand(cond, env, depth) {
                Ok(v) => v,
                Err(f) => {
                    return f;
                },
            };
            if !v.is_truthy() {
                return Flow::Absent;
            }
            match self.eval_statement(body, env, depth) {
                Flow::Break => {
                    return Flow::Absent;
                },
                Flow::Return(v) => {
                    return Flow::Return(v);
                },
                _ => {},
            }
            proof {
                assert(self.state().steps < m.steps);
            }
        }
    }

    /// A function literal: a new function value that captures scope `env`.
    /// A named one is bound in `env` and has no value; an anonymous one is
    /// the value.
    pub fn eval_fn_expression(
        &mut self,
        name: &Expression,
        params: &Vec<Expression>,
        body: &Statement,
        env: usize,
    ) -> (r: Flow)
        requires
            old(self).wf(),
            env < old(self).scopes().len(),
        ensures
            final(self).wf(),
            final(self).spends(old(self)),
            (flow_out(r), final(self).state()) == ev_fn(old(self).state(), env as int, expr_tree(*name), expr_trees(*params), stmt_tree(*body)),
            final(self).captured() == old(self).captured().push(env),
    {
        let def = FnDef { params: copy_expressions(params), body: body.copy(), env };
        let index = self.functions.len();
        self.functions.push(def);
        let f = Object::Function(index);
        proof {
            assert(self.captured() =~= old(self).captured().push(env));
            assert(self.state().funcs =~= old(self).state().funcs.push(
                Closure { params: expr_trees(*params), body: stmt_tree(*body), env },
            ));
            assert(self.state().scopes =~= old(self).state().scopes);
            assert(self.state().parents =~= old(self).state().parents);
        }
        match name {
            Expression::Identifier(n) => {
                if <str as vstd::string::StrSliceExecFns>::unicode_len(n.as_str()) == 0 {
                    Flow::Value(f)
                } else {
                    self.bind(env, n.clone(), f);
                    Flow::Absent
                }
            },
            _ => Flow::Value(f),
        }
    }

    /// A new scope for a call of function `f` with `args`: inside the scope
    /// `f` captured, with each parameter bound to its argument (`Null` when
    /// missing; extra arguments are ignored). Its index is returned.
    pub fn enclose_fn_env(&mut self, f: usize, args: &Vec<Object>) -> (r: usize)
        requires
            old(self).wf(),
            f < old(self).captured().len(),
        ensures
            final(self).wf(),
            final(self).spends(old(self)),
            r == old(self).state().scopes.len(),
            r == old(self).scopes().len(),
            final(self).scopes().len() == r + 1,
            final(self).state() == m_enter(old(self).state(), f as int, values(args@)),
            final(self).captured() == old(self).captured(),
    {
        let captured = self.functions[f].env;
        let mut scope = Env::enclosed_outer_env(captured);
        let params = &self.functions[f].params;
        let ghost ps = expr_trees(*params);
        let mut i: usize = 0;
        while i < params.len()
            invariant
                params == &old(self).functions@[f as int].params,
                ps == expr_trees(*params),
                i <= params@.len(),
                scope.parent() == Some(captured),
                scope.entries() == bind_params(ps, values(args@), i as int),
            decreases params@.len() - i,
        {
            proof {
                assert(ps[i as int] == expr_tree(params@[i as int]));
            }
            match &params[i] {
                Expression::Identifier(n) => {
                    let v = if i < args.len() {
                        args[i].copy()
                    } else {
                        Object::Null
                    };
                    scope.set(n.clone(), v);
                },
                _ => {},
            }
            i += 1;
        }
        let index = self.envs.len();
        self.envs.push(scope);
        proof {
            assert(self.state().scopes =~= old(self).state().scopes.push(
                bind_params(ps, values(args@), ps.len() as int),
            ));
            assert(self.state().parents =~= old(self).state().parents.push(Some(captured)));
            assert(self.captured() =~= old(self).captured());
        }
        index
    }

    /// Calls function `f` with `args`: a step is spent, and the body runs in
    /// a new scope inside the scope the function captured, not the caller's.
    /// A `return` gives the call's value; a body with no value gives `Null`.
    pub fn call_function(&mut self, f: usize, args: &Vec<Object>, depth: u64) -> (r: Object)
        requires
            old(self).wf(),
            f < old(self).captured().len(),
        ensures
            final(self).wf(),
            final(self).spends(old(self)),
            (r@, final(self).state()) == ev_call(old(self).state(), f as int, values(args@), depth as nat),
        decreases depth, 6nat,
    {
        if self.steps == 0 {
            return self.error_value("step limit exceeded");
        }
        self.spend();
        let body = self.functions[f].body.copy();
        let scope = self.enclose_fn_env(f, args);
        match self.eval_block_statement(&body, scope, depth) {
            Flow::Value(v) => v,
            Flow::Return(v) => v,
            _ => Object::Null,
        }
    }

    /// A call of builtin `b` with `args`; `print` records its argument.
    pub fn call_builtin(&mut self, b: Builtin, args: &Vec<Object>) -> (r: Object)
        requires
            old(self).wf(),
        ensures
            final(self).wf(),
            final(self).spends(old(self)),
            (r@, final(self).state()) == builtin_call(old(self).state(), b, values(args@)),
    {
        match b {
            Builtin::Len => len(args),
            Builtin::First => first(args),
            Builtin::Last => last(args),
            Builtin::Rest => rest(args),
            Builtin::Push => push(args),
            Builtin::UnShift => unshift(args),
            Builtin::Print => {
                if args.len() == 1 {
                    self.output.push(args[0].copy());
                    proof {
                        assert(self.state().out =~= old(self).state().out.push(values(args@)[0]));
                    }
                    Object::Null
                } else {
                    self.error_value("wrong number of arguments")
                }
            },
        }
    }

    /// A call: the callee, then the arguments left to right, then the call.
    /// Calling a value that is no function is an error.
    fn eval_fn_call_expression(&mut self, callee: &Expression, args: &Vec<Expression>, env: usize, depth: u64) -> (r: Flow)
        requires
            old(self).wf(),
            env < old(self).scopes().len(),
        ensures
            final(self).wf(),
            final(self).spends(old(self)),
            (flow_out(r), final(self).state()) == ev_fncall(old(self).state(), env as int, expr_tree(*callee), expr_trees(*args), depth as nat),
        decreases depth, 7nat,
    {
        let fv = match self.operand(callee, env, depth) {
            Ok(v) => v,
            Err(f) => {
                return f;
            },
        };
        if let Object::Error(_) = fv {
            return Flow::Value(fv);
        }
        let ghost t = expr_trees(*args);
        let ghost m1 = self.state();
        let mut argv: Vec<Object> = Vec::new();
        let mut i: usize = 0;
        proof {
            assert(values(argv@) =~= Seq::<Value>::empty());
        }
        while i < args.len()
            invariant
                self.wf(),
                self.spends(old(self)),
                env < self.envs@.len(),
                i <= args@.len(),
                t == expr_trees(*args),
                !(fv@ is Error),
                ev_fncall(old(self).state(), env as int, expr_tree(*callee), t, depth as nat) == ev_args(
                    m1,
                    env as int,
                    fv@,
                    t,
                    0,
                    Seq::empty(),
                    depth as nat,
                ),
                ev_args(m1, env as int, fv@, t, 0, Seq::empty(), depth as nat) == ev_args(
                    self.state(),
                    env as int,
                    fv@,
                    t,
                    i as int,
                    values(argv@),
                    depth as nat,
                ),
            decreases args@.len() - i,
        {
            proof {
                assert(t[i as int] == expr_tree(args@[i as int]));
            }
            let v = match self.operand(&args[i], env, depth) {
                Ok(v) => v,
                Err(f) => {
                    return f;
                },
            };
            if let Object::Error(_) = v {
                return Flow::Value(v);
            }
            let ghost before = argv@;
            argv.push(v);
            proof {
                assert(values(argv@) =~= values(before).push(argv@[argv@.len() - 1]@));
            }
            i += 1;
        }
        proof {
            let m = self.state();
            assert(ev_args(m, env as int, fv@, t, args@.len() as int, values(argv@), depth as nat) == (
                Out::Val(dispatch(m, fv@, values(argv@), depth as nat).0),
                dispatch(m, fv@, values(argv@), depth as nat).1,
            ));
            assert(m.funcs.len() == self.functions@.len());
        }
        match fv {
            Object::Builtin(b) => Flow::Value(self.call_builtin(b, &argv)),
            Object::Function(index) => {
                if index < self.functions.len() {
                    Flow::Value(self.call_function(index, &argv, depth))
                } else {
                    Flow::Value(self.error_value("not callable"))
                }
            },
            _ => Flow::Value(self.error_value("not callable")),
        }
    }

    /// Evaluates a program in the global scope with a full budget: the value
    /// of its last statement that has one (`Null` if none); a `return` at
    /// the top ends the program with its value, a `break` ends it.
    pub fn eval_program(&mut self, program: AstNode) -> (r: Option<Object>)
        requires
            old(self).wf(),
        ensures
            final(self).wf(),
            final(self).extends(old(self)),
            r is Some,
            (r->0@, final(self).state()) == ev_program(
                Machine { steps: MAX_STEPS as nat, ..old(self).state() },
                program_tree(program),
                0,
                Value::Null,
            ),
    {
        self.steps = MAX_STEPS;
        let ghost m0 = self.state();
        proof {
            assert(self.state().scopes =~= old(self).state().scopes);
            assert(self.state().parents =~= old(self).state().parents);
            assert(self.state().funcs =~= old(self).state().funcs);
            assert(self.state().out =~= old(self).state().out);
            assert(m0 == Machine { steps: MAX_STEPS as nat, ..old(self).state() });
        }
        match &program {
            AstNode::Program(statements) => {
                let ghost t = stmt_trees(*statements);
                let mut value = Object::Null;
                let mut i: usize = 0;
                while i < statements.len()
                    invariant
                        self.wf(),
                        self.extends(old(self)),
                        i <= statements@.len(),
                        t == stmt_trees(*statements),
                        t == program_tree(program),
                        m0 == (Machine { steps: MAX_STEPS as nat, ..old(self).state() }),
                        ev_program(m0, t, 0, Value::Null) == ev_program(self.state(), t, i as int, value@),
                    decreases statements@.len() - i,
                {
                    proof {
                        assert(t[i as int] == stmt_tree(statements@[i as int]));
                    }
                    let ghost mi = self.state();
                    let flow = self.eval_statement(&statements[i], 0, MAX_DEPTH);
                    proof {
                        assert((flow_out(flow), self.state()) == ev_stmt(mi, 0, t[i as int], MAX_DEPTH as nat));
                    }
                    match flow {
                        Flow::Value(v) => {
                            value = v;
                        },
                        Flow::Absent => {},
                        Flow::Return(v) => {
                            proof {
                                assert(ev_program(mi, t, i as int, value@) == (v@, self.state()));
                            }
                            return Some(v);
                        },
                        Flow::Break => {
                            proof {
                                assert(ev_program(mi, t, i as int, value@) == (value@, self.state()));
                            }
                            return Some(value);
                        },
                    }
                    i += 1;
                }
                Some(value)
            },
        }
    }
}

/// Lexical scoping: in the scope of a call, whose enclosing scope is the
/// scope the function captured, a name that no parameter binds has the
/// value it has in the captured scope, whichever scope the call came from.
pub proof fn lemma_call_sees_definition_scope(m: Machine, k: int, args: Seq<Value>, key: Seq<char>)
    requires
        0 <= k < m.funcs.len(),
        m.parents.len() == m.scopes.len(),
        m.funcs[k].env < m.scopes.len(),
        entries_find(bind_params(m.funcs[k].params, args, m.funcs[k].params.len() as int), key, 0) is None,
    ensures
        m_lookup(m_enter(m, k, args), m.scopes.len() as int, key) == m_lookup(
            m_enter(m, k, args),
            m.funcs[k].env as int,
            key,
        ),
{
}

/// Determinism: two evaluators in the same state give a program the same
/// value and end in the same state.
pub proof fn lemma_evaluation_deterministic(a: Machine, b: Machine, p: Seq<StmtTree>)
    requires
        a == b,
    ensures
        ev_program(a, p, 0, Value::Null) == ev_program(b, p, 0, Value::Null),
{
}

/// Closure identity: a function value or a call scope made after another
/// one is a different one. Evaluation only adds function values and scopes,
/// at the end of their tables, and never changes which scope a function
/// value captured; so a function literal evaluated in a later call gives a
/// new function value, capturing a new scope.
pub proof fn lemma_closures_distinct(s: Evaluator, t: Evaluator, u: Evaluator, f: int, scope: int)
    requires
        t.extends(&s),
        u.extends(&t),
        0 <= f < t.captured().len(),
        0 <= scope < t.scopes().len(),
    ensures
        f < u.captured().len(),
        u.captured()[f] == t.captured()[f],
        scope < u.scopes().len(),
        f != u.captured().len(),
        scope != u.scopes().len(),
{
    assert(u.functions@[f] == t.functions@[f]);
}

proof fn lemma_no_key_index(pairs: Seq<(Value, Value)>, k: Value, i: int)
    requires
        0 <= i,
        forall|m: int| i <= m < pairs.len() ==> (#[trigger] pairs[m]).0 != k,
    ensures
        key_index_from(pairs, k, i) is None,
    decreases pairs.len() - i,
{
    if i < pairs.len() {
        lemma_no_key_index(pairs, k, i + 1);
    }
}

/// With distinct keys, a hash literal keeps its pairs in source order.
proof fn lemma_hash_build_distinct(keys: Seq<Value>, vals: Seq<Value>, n: int)
    requires
        0 <= n <= keys.len(),
        n <= vals.len(),
        forall|a: int, b: int| 0 <= a < b < n ==> keys[a] != keys[b],
    ensures
        hash_build(keys, vals, n) == Seq::new(n as nat, |j: int| (keys[j], vals[j])),
    decreases n,
{
    if n > 0 {
        lemma_hash_build_distinct(keys, vals, n - 1);
        let before = hash_build(keys, vals, n - 1);
        lemma_no_key_index(before, keys[n - 1], 0);
        assert(hash_build(keys, vals, n) =~= Seq::new(n as nat, |j: int| (keys[j], vals[j])));
    }
}

/// Hash literals: when the keys of a hash literal are distinct integers,
/// strings and booleans, looking up any of its keys gives that key's value.
pub proof fn lemma_hash_literal_lookup(keys: Seq<Value>, vals: Seq<Value>, n: int, i: int)
    requires
        0 <= i < n <= keys.len(),
        n <= vals.len(),
        forall|a: int| 0 <= a < n ==> hashable(#[trigger] keys[a]),
        forall|a: int, b: int| 0 <= a < b < n ==> keys[a] != keys[b],
    ensures
        crate::object::hash_lookup(hash_build(keys, vals, n), keys[i]) == Some(vals[i]),
{
    lemma_hash_build_distinct(keys, vals, n);
    let pairs = hash_build(keys, vals, n);
    assert forall|m: int| 0 <= m < i implies (#[trigger] pairs[m]).0 != keys[i] by {}
    lemma_lookup_at(pairs, keys[i], 0, i);
}

} // verus!
