use vstd::prelude::*;

use crate::token::TokenType;

verus! {

/// A parsed program: its statements in order.
#[derive(Debug)]
pub enum AstNode {
    Program(Vec<Statement>),
}

/// An expression of Lynx.
#[allow(non_camel_case_types)]
#[derive(PartialEq, Debug)]
pub enum Expression {
    Identifier(String),
    Integer(u64),
    Boolean(bool),
    String(String),
    Array(Vec<Expression>),
    /// Key and value pairs, in source order.
    Hash(Vec<(Expression, Expression)>),
    /// `!` or `-` and its operand.
    Prefix(TokenType, Box<Expression>),
    Infix(Box<Expression>, TokenType, Box<Expression>),
    If(Box<Expression>, Statement, Option<Statement>),
    While(Box<Expression>, Statement),
    Break,
    /// Name (an identifier, empty for an anonymous function), parameters, body.
    Fn(Box<Expression>, Vec<Expression>, Statement),
    /// Callee and arguments.
    FnCall(Box<Expression>, Vec<Expression>),
}

/// A statement of Lynx.
#[derive(PartialEq, Debug)]
pub enum Statement {
    Let(Box<Expression>, Box<Expression>),
    Return(Box<Expression>),
    Expr(Box<Expression>),
    BlockStatement(Vec<Statement>),
}

/// The mathematical form of an expression: names and texts as character
/// sequences, lists as sequences.
pub enum ExprTree {
    Ident(Seq<char>),
    Int(u64),
    Bool(bool),
    Str(Seq<char>),
    Array(Seq<ExprTree>),
    Hash(Seq<(ExprTree, ExprTree)>),
    Prefix(TokenType, Box<ExprTree>),
    Infix(Box<ExprTree>, TokenType, Box<ExprTree>),
    If(Box<ExprTree>, Box<StmtTree>, Option<Box<StmtTree>>),
    While(Box<ExprTree>, Box<StmtTree>),
    Break,
    Fn(Box<ExprTree>, Seq<ExprTree>, Box<StmtTree>),
    Call(Box<ExprTree>, Seq<ExprTree>),
}

/// The mathematical form of a statement.
pub enum StmtTree {
    Let(Box<ExprTree>, Box<ExprTree>),
    Return(Box<ExprTree>),
    Expr(Box<ExprTree>),
    Block(Seq<StmtTree>),
}

/// The form of each expression of `v`.
pub open spec fn expr_trees(v: Vec<Expression>) -> Seq<ExprTree>
    decreases v,
{
    Seq::new(
        v@.len(),
        |i: int|
            if 0 <= i < v@.len() {
                expr_tree(v@[i])
            } else {
                ExprTree::Break
            },
    )
}

/// The form of an expression.
pub open spec fn expr_tree(e: Expression) -> ExprTree
    decreases e,
{
    match e {
        Expression::Identifier(s) => ExprTree::Ident(s@),
        Expression::Integer(n) => ExprTree::Int(n),
        Expression::Boolean(b) => ExprTree::Bool(b),
        Expression::String(s) => ExprTree::Str(s@),
        Expression::Array(v) => ExprTree::Array(expr_trees(v)),
        Expression::Hash(v) => ExprTree::Hash(
            Seq::new(
                v@.len(),
                |i: int|
                    if 0 <= i < v@.len() {
                        (expr_tree(v@[i].0), expr_tree(v@[i].1))
                    } else {
                        (ExprTree::Break, ExprTree::Break)
                    },
            ),
        ),
        Expression::Prefix(op, x) => ExprTree::Prefix(op, Box::new(expr_tree(*x))),
        Expression::Infix(l, op, r) => ExprTree::Infix(
            Box::new(expr_tree(*l)),
            op,
            Box::new(expr_tree(*r)),
        ),
        Expression::If(c, t, e) => ExprTree::If(
            Box::new(expr_tree(*c)),
            Box::new(stmt_tree(t)),
            match e {
                Some(x) => Some(Box::new(stmt_tree(x))),
                None => None,
            },
        ),
        Expression::While(c, b) => ExprTree::While(Box::new(expr_tree(*c)), Box::new(stmt_tree(b))),
        Expression::Break => ExprTree::Break,
        Expression::Fn(n, p, b) => ExprTree::Fn(
            Box::new(expr_tree(*n)),
            expr_trees(p),
            Box::new(stmt_tree(b)),
        ),
        Expression::FnCall(f, a) => ExprTree::Call(Box::new(expr_tree(*f)), expr_trees(a)),
    }
}

/// The form of each statement of `v`.
pub open spec fn stmt_trees(v: Vec<Statement>) -> Seq<StmtTree>
    decreases v,
{
    Seq::new(
        v@.len(),
        |i: int|
            if 0 <= i < v@.len() {
                stmt_tree(v@[i])
            } else {
                StmtTree::Block(Seq::empty())
            },
    )
}

/// The form of a statement.
pub open spec fn stmt_tree(s: Statement) -> StmtTree
    decreases s,
{
    match s {
        Statement::Let(n, e) => StmtTree::Let(Box::new(expr_tree(*n)), Box::new(expr_tree(*e))),
        Statement::Return(e) => StmtTree::Return(Box::new(expr_tree(*e))),
        Statement::Expr(e) => StmtTree::Expr(Box::new(expr_tree(*e))),
        Statement::BlockStatement(v) => StmtTree::Block(stmt_trees(v)),
    }
}

/// The form of the pairs of a hash literal.
pub open spec fn pair_trees(v: Vec<(Expression, Expression)>) -> Seq<(ExprTree, ExprTree)> {
    Seq::new(v@.len(), |i: int| (expr_tree(v@[i].0), expr_tree(v@[i].1)))
}

/// The form of a program.
pub open spec fn program_tree(p: AstNode) -> Seq<StmtTree> {
    match p {
        AstNode::Program(v) => stmt_trees(v),
    }
}

/// A copy of each expression of `v`, in order.
pub fn copy_expressions(v: &Vec<Expression>) -> (r: Vec<Expression>)
    ensures
        r@.len() == v@.len(),
        expr_trees(r) == expr_trees(*v),
    decreases v,
{
    let mut r: Vec<Expression> = Vec::new();
    let mut i: usize = 0;
    while i < v.len()
        invariant
            i <= v@.len(),
            r@.len() == i,
            forall|k: int| 0 <= k < i ==> expr_tree(#[trigger] r@[k]) == expr_tree(v@[k]),
        decreases v@.len() - i,
    {
        proof {
            vstd::std_specs::vec::axiom_vec_index_decreases(*v, i as int);
        }
        r.push(v[i].copy());
        i += 1;
    }
    proof {
        assert(expr_trees(r) =~= expr_trees(*v));
    }
    r
}

/// A copy of each statement of `v`, in order.
pub fn copy_statements(v: &Vec<Statement>) -> (r: Vec<Statement>)
    ensures
        r@.len() == v@.len(),
        stmt_trees(r) == stmt_trees(*v),
    decreases v,
{
    let mut r: Vec<Statement> = Vec::new();
    let mut i: usize = 0;
    while i < v.len()
        invariant
            i <= v@.len(),
            r@.len() == i,
            forall|k: int| 0 <= k < i ==> stmt_tree(#[trigger] r@[k]) == stmt_tree(v@[k]),
        decreases v@.len() - i,
    {
        proof {
            vstd::std_specs::vec::axiom_vec_index_decreases(*v, i as int);
        }
        r.push(v[i].copy());
        i += 1;
    }
    proof {
        assert(stmt_trees(r) =~= stmt_trees(*v));
    }
    r
}

/// A copy of each key and value pair of `v`, in order.
pub fn copy_pairs(v: &Vec<(Expression, Expression)>) -> (r: Vec<(Expression, Expression)>)
    ensures
        r@.len() == v@.len(),
        pair_trees(r) == pair_trees(*v),
    decreases v,
{
    let mut r: Vec<(Expression, Expression)> = Vec::new();
    let mut i: usize = 0;
    while i < v.len()
        invariant
            i <= v@.len(),
            r@.len() == i,
            forall|k: int|
                0 <= k < i ==> expr_tree(#[trigger] r@[k].0) == expr_tree(v@[k].0) && expr_tree(r@[k].1)
                    == expr_tree(v@[k].1),
        decreases v@.len() - i,
    {
        proof {
            vstd::std_specs::vec::axiom_vec_index_decreases(*v, i as int);
            assert(decreases_to!(v@[i as int] => v@[i as int].0));
            assert(decreases_to!(v@[i as int] => v@[i as int].1));
        }
        let k = v[i].0.copy();
        let x = v[i].1.copy();
        r.push((k, x));
        i += 1;
    }
    proof {
        assert(pair_trees(r) =~= pair_trees(*v));
    }
    r
}

impl Expression {
    /// A copy of this expression.
    pub fn copy(&self) -> (r: Expression)
        ensures
            expr_tree(r) == expr_tree(*self),
        decreases self,
    {
        match self {
            Expression::Identifier(s) => Expression::Identifier(s.clone()),
            Expression::Integer(n) => Expression::Integer(*n),
            Expression::Boolean(b) => Expression::Boolean(*b),
            Expression::String(s) => Expression::String(s.clone()),
            Expression::Array(v) => Expression::Array(copy_expressions(v)),
            Expression::Hash(v) => {
                let c = copy_pairs(v);
                proof {
                    assert(expr_tree(Expression::Hash(c))->Hash_0 =~= pair_trees(c));
                    assert(expr_tree(Expression::Hash(*v))->Hash_0 =~= pair_trees(*v));
                }
                Expression::Hash(c)
            },
            Expression::Prefix(op, e) => Expression::Prefix(op.copy(), Box::new((**e).copy())),
            Expression::Infix(l, op, r) => Expression::Infix(
                Box::new((**l).copy()),
                op.copy(),
                Box::new((**r).copy()),
            ),
            Expression::If(c, t, e) => Expression::If(
                Box::new((**c).copy()),
                t.copy(),
                match e {
                    Some(s) => Some(s.copy()),
                    None => None,
                },
            ),
            Expression::While(c, b) => Expression::While(Box::new((**c).copy()), b.copy()),
            Expression::Break => Expression::Break,
            Expression::Fn(n, p, b) => Expression::Fn(
                Box::new((**n).copy()),
                copy_expressions(p),
                b.copy(),
            ),
            Expression::FnCall(f, a) => Expression::FnCall(Box::new((**f).copy()), copy_expressions(a)),
        }
    }
}

impl Statement {
    /// A copy of this statement.
    pub fn copy(&self) -> (r: Statement)
        ensures
            stmt_tree(r) == stmt_tree(*self),
        decreases self,
    {
        match self {
            Statement::Let(n, e) => Statement::Let(Box::new((**n).copy()), Box::new((**e).copy())),
            Statement::Return(e) => Statement::Return(Box::new((**e).copy())),
            Statement::Expr(e) => Statement::Expr(Box::new((**e).copy())),
            Statement::BlockStatement(v) => Statement::BlockStatement(copy_statements(v)),
        }
    }
}

/// Binding power of an operator, lowest first.
#[derive(Debug, Eq, PartialEq, PartialOrd)]
pub enum Precedence {
    Lowest,
    Equals,
    Compare,
    Addition,
    Multiply,
    Prefix,
    Group,
    Index,
}

/// The binding power of a token that continues an expression, as a number.
pub open spec fn level_of(token: TokenType) -> u8 {
    match token {
        TokenType::EQUAL_EQUAL | TokenType::BANG_EQUAL | TokenType::LESS_EQUAL
        | TokenType::GREATER_EQUAL => 1,
        TokenType::LESS | TokenType::GREATER => 2,
        TokenType::ADD | TokenType::MINUS => 3,
        TokenType::MULTIPLY | TokenType::DIVIDE => 4,
        TokenType::BANG => 5,
        TokenType::LEFT_PAREN => 6,
        TokenType::LEFT_BRACE => 7,
        _ => 0,
    }
}

impl Precedence {
    /// The rank of this precedence: 0 for `Lowest` up to 7 for `Index`.
    pub open spec fn rank(&self) -> u8 {
        match self {
            Precedence::Lowest => 0,
            Precedence::Equals => 1,
            Precedence::Compare => 2,
            Precedence::Addition => 3,
            Precedence::Multiply => 4,
            Precedence::Prefix => 5,
            Precedence::Group => 6,
            Precedence::Index => 7,
        }
    }

    /// The precedence with which `token` continues an expression.
    pub fn get(token: &TokenType) -> (r: Precedence)
        ensures
            r.rank() == level_of(*token),
    {
        match token {
            TokenType::ADD | TokenType::MINUS => Precedence::Addition,
            TokenType::MULTIPLY | TokenType::DIVIDE => Precedence::Multiply,
            TokenType::BANG => Precedence::Prefix,
            TokenType::LEFT_PAREN => Precedence::Group,
            TokenType::LEFT_BRACE => Precedence::Index,
            TokenType::EQUAL_EQUAL | TokenType::BANG_EQUAL | TokenType::LESS_EQUAL
            | TokenType::GREATER_EQUAL => Precedence::Equals,
            TokenType::LESS | TokenType::GREATER => Precedence::Compare,
            _ => Precedence::Lowest,
        }
    }

    /// The rank of this precedence.
    pub fn level(&self) -> (r: u8)
        ensures
            r == self.rank(),
    {
        match self {
            Precedence::Lowest => 0,
            Precedence::Equals => 1,
            Precedence::Compare => 2,
            Precedence::Addition => 3,
            Precedence::Multiply => 4,
            Precedence::Prefix => 5,
            Precedence::Group => 6,
            Precedence::Index => 7,
        }
    }
}

} // verus!
