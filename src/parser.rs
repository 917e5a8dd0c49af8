use vstd::prelude::*;

use crate::ast::{
    program_tree, expr_tree, expr_trees, level_of, pair_trees, stmt_tree, stmt_trees, AstNode, ExprTree, Expression,
    Precedence, Statement, StmtTree,
};
use crate::lexer::{lex, lex_from, scan, skip_ws, Lexeme};
use crate::lexer::tokenize;
use crate::token::TokenType;

verus! {

/// A syntax error: the index of the offending token, what was expected there
/// (`None` for an expression) and the token found.
#[derive(Debug)]
pub struct ParseError {
    pub position: usize,
    pub expected: Option<TokenType>,
    pub got: TokenType,
}

/// A token stream that ends with its only `EOF`.
pub open spec fn stream_wf(t: Seq<TokenType>) -> bool {
    &&& 1 <= t.len() <= usize::MAX
    &&& t.last() == TokenType::EOF
    &&& forall|k: int| 0 <= k < t.len() - 1 ==> #[trigger] t[k] != TokenType::EOF
}

/// Every error points at a token of `t`, holds that token as the one
/// found, and, where it names an expected token, names another one.
pub open spec fn errors_within(e: Seq<ParseError>, t: Seq<TokenType>) -> bool {
    forall|k: int|
        0 <= k < e.len() ==> {
            &&& (#[trigger] e[k]).position < t.len()
            &&& e[k].got == t[e[k].position as int]
            &&& (e[k].expected is Some ==> e[k].expected->0 != e[k].got)
        }
}

/// A rule that started at `pos` stopped at `q`: never backwards, never past
/// `EOF`, and forward whenever it did not start at `EOF` or it succeeded.
pub open spec fn advanced(t: Seq<TokenType>, pos: int, q: int, ok: bool) -> bool {
    &&& pos <= q < t.len()
    &&& (t[pos] != TokenType::EOF ==> pos < q)
    &&& (ok ==> pos < q)
}

/// Whether `t` is a binary operator.
pub open spec fn binary_spec(t: TokenType) -> bool {
    t is ADD || t is MINUS || t is MULTIPLY || t is DIVIDE || t is EQUAL_EQUAL || t is BANG_EQUAL
        || t is LESS || t is LESS_EQUAL || t is GREATER || t is GREATER_EQUAL
}

fn is_binary(t: &TokenType) -> (r: bool)
    ensures
        r == binary_spec(*t),
{
    match t {
        TokenType::ADD | TokenType::MINUS | TokenType::MULTIPLY | TokenType::DIVIDE
        | TokenType::EQUAL_EQUAL | TokenType::BANG_EQUAL | TokenType::LESS
        | TokenType::LESS_EQUAL | TokenType::GREATER | TokenType::GREATER_EQUAL => true,
        _ => false,
    }
}

fn closes(t: &TokenType, paren: bool) -> (r: bool)
    ensures
        r == (if paren { *t is RIGHT_PAREN } else { *t is RIGHT_BRACE }),
{
    if paren {
        matches!(t, TokenType::RIGHT_PAREN)
    } else {
        matches!(t, TokenType::RIGHT_BRACE)
    }
}

fn closer(paren: bool) -> (r: TokenType)
    ensures
        r == (if paren { TokenType::RIGHT_PAREN } else { TokenType::RIGHT_BRACE }),
{
    if paren {
        TokenType::RIGHT_PAREN
    } else {
        TokenType::RIGHT_BRACE
    }
}

/// Records that `expected` was wanted at `position` and `got` was found.
fn fail(
    errors: &mut Vec<ParseError>,
    position: usize,
    expected: Option<TokenType>,
    got: &TokenType,
)
    ensures
        final(errors)@ == old(errors)@.push(ParseError { position, expected, got: *got }),
{
    errors.push(ParseError { position, expected, got: got.copy() });
}

proof fn lemma_not_last(t: Seq<TokenType>, p: int)
    requires
        stream_wf(t),
        0 <= p < t.len(),
        t[p] != TokenType::EOF,
    ensures
        p + 1 < t.len(),
{
}

/// The lexeme a token stands for.
pub open spec fn lexeme_of(t: TokenType) -> Lexeme {
    match t {
        TokenType::IDENTIFIER(s) => Lexeme::Ident(s@),
        TokenType::STRING(s) => Lexeme::Str(s@),
        _ => Lexeme::Plain(t),
    }
}

/// The lexemes of a token stream.
pub open spec fn lexemes(t: Seq<TokenType>) -> Seq<Lexeme> {
    t.map_values(|x: TokenType| lexeme_of(x))
}

/// Lexeme `x` is the token `k`.
pub open spec fn is_tok(x: Lexeme, k: TokenType) -> bool {
    x == Lexeme::Plain(k)
}

/// The binding power of a lexeme that continues an expression.
pub open spec fn level(x: Lexeme) -> u8 {
    match x {
        Lexeme::Plain(t) => level_of(t),
        _ => 0,
    }
}

/// Lexeme `x` is a binary operator.
pub open spec fn binary(x: Lexeme) -> bool {
    match x {
        Lexeme::Plain(t) => binary_spec(t),
        _ => false,
    }
}

/// Lexeme `x` closes a list: `)` (`paren`) or `]`.
pub open spec fn closes_spec(x: Lexeme, paren: bool) -> bool {
    if paren {
        is_tok(x, TokenType::RIGHT_PAREN)
    } else {
        is_tok(x, TokenType::RIGHT_BRACE)
    }
}

/// The operator token of a lexeme.
pub open spec fn op_of(x: Lexeme) -> TokenType {
    match x {
        Lexeme::Plain(t) => t,
        _ => TokenType::NONE,
    }
}

/// The expression at `pos` whose operators bind tighter than `min`, and
/// the position after it; `None` where the lexemes do not form one.
pub open spec fn p_expr(l: Seq<Lexeme>, pos: int, min: u8) -> (Option<ExprTree>, int)
    decreases l.len() - pos, 2nat,
{
    if pos < 0 || pos >= l.len() {
        (None, pos)
    } else {
        let (first, p) = match l[pos] {
            Lexeme::Ident(n) => (Some(ExprTree::Ident(n)), pos + 1),
            Lexeme::Str(s) => (Some(ExprTree::Str(s)), pos + 1),
            Lexeme::Plain(t) => match t {
                TokenType::NUMBER(n) => (Some(ExprTree::Int(n)), pos + 1),
                TokenType::TRUE => (Some(ExprTree::Bool(true)), pos + 1),
                TokenType::FALSE => (Some(ExprTree::Bool(false)), pos + 1),
                TokenType::BREAK => (Some(ExprTree::Break), pos + 1),
                TokenType::LEFT_BRACE => match p_list(l, pos + 1, false) {
                    (Some(v), q) => (Some(ExprTree::Array(v)), q),
                    (None, q) => (None, q),
                },
                TokenType::LEFT_CURLY_BRACE => p_hash(l, pos),
                TokenType::IF => p_if(l, pos),
                TokenType::WHILE => p_while(l, pos),
                TokenType::FN => p_fn(l, pos),
                TokenType::BANG | TokenType::MINUS => p_prefix(l, pos),
                TokenType::LEFT_PAREN => p_grouped(l, pos),
                TokenType::EOF => (None, pos),
                _ => (None, pos + 1),
            },
        };
        match first {
            Some(e) => if pos < p <= l.len() {
                p_infix(l, e, p, min)
            } else {
                (None, p)
            },
            None => (None, p),
        }
    }
}

/// Continues expression `left` at `p` with operators and calls that bind
/// tighter than `min`, each leaning left.
pub open spec fn p_infix(l: Seq<Lexeme>, left: ExprTree, p: int, min: u8) -> (Option<ExprTree>, int)
    decreases l.len() - p, 2nat,
{
    if p < 0 || p >= l.len() {
        (None, p)
    } else if level(l[p]) <= min {
        (Some(left), p)
    } else if binary(l[p]) {
        match p_expr(l, p + 1, level(l[p])) {
            (Some(e), q) => if p < q <= l.len() {
                p_infix(l, ExprTree::Infix(Box::new(left), op_of(l[p]), Box::new(e)), q, min)
            } else {
                (None, q)
            },
            (None, q) => (None, q),
        }
    } else if is_tok(l[p], TokenType::LEFT_PAREN) {
        match p_list(l, p + 1, true) {
            (Some(a), q) => if p < q <= l.len() {
                p_infix(l, ExprTree::Call(Box::new(left), a), q, min)
            } else {
                (None, q)
            },
            (None, q) => (None, q),
        }
    } else {
        (Some(left), p)
    }
}

/// A comma separated list from `pos` up to and with its closer.
pub open spec fn p_list(l: Seq<Lexeme>, pos: int, paren: bool) -> (Option<Seq<ExprTree>>, int)
    decreases l.len() - pos, 4nat,
{
    if pos < 0 || pos >= l.len() {
        (None, pos)
    } else if closes_spec(l[pos], paren) {
        (Some(Seq::empty()), pos + 1)
    } else {
        p_items(l, pos, paren)
    }
}

/// The items of a list from `p` on, up to and with its closer; a trailing
/// comma is allowed.
pub open spec fn p_items(l: Seq<Lexeme>, p: int, paren: bool) -> (Option<Seq<ExprTree>>, int)
    decreases l.len() - p, 3nat,
{
    if p < 0 || p >= l.len() {
        (None, p)
    } else {
        match p_expr(l, p, 0) {
            (None, q) => (None, q),
            (Some(e), q) => if q <= p || q >= l.len() {
                (None, q)
            } else if is_tok(l[q], TokenType::COMMA) {
                if q + 1 < l.len() && closes_spec(l[q + 1], paren) {
                    (Some(seq![e]), q + 2)
                } else {
                    match p_items(l, q + 1, paren) {
                        (Some(rest), r) => (Some(seq![e] + rest), r),
                        (None, r) => (None, r),
                    }
                }
            } else if closes_spec(l[q], paren) {
                (Some(seq![e]), q + 1)
            } else {
                (None, q)
            },
        }
    }
}

/// A hash literal whose `{` is at `pos`.
pub open spec fn p_hash(l: Seq<Lexeme>, pos: int) -> (Option<ExprTree>, int)
    decreases l.len() - pos, 1nat,
{
    let p = pos + 1;
    if pos < 0 || p >= l.len() {
        (None, p)
    } else if is_tok(l[p], TokenType::RIGHT_CURLY_BRACE) {
        (Some(ExprTree::Hash(Seq::empty())), p + 1)
    } else {
        match p_pairs(l, p) {
            (Some(v), q) => (Some(ExprTree::Hash(v)), q),
            (None, q) => (None, q),
        }
    }
}

/// The `key: value` pairs of a hash literal from `p` on, up to and with
/// its `}`; a trailing comma is allowed.
pub open spec fn p_pairs(l: Seq<Lexeme>, p: int) -> (Option<Seq<(ExprTree, ExprTree)>>, int)
    decreases l.len() - p, 3nat,
{
    if p < 0 || p >= l.len() {
        (None, p)
    } else {
        match p_expr(l, p, 0) {
            (None, q) => (None, q),
            (Some(k), q) => if q <= p || q >= l.len() {
                (None, q)
            } else if !is_tok(l[q], TokenType::COLON) {
                (None, q)
            } else {
                match p_expr(l, q + 1, 0) {
                    (None, q2) => (None, q2),
                    (Some(v), q2) => if q2 <= q || q2 >= l.len() {
                        (None, q2)
                    } else if is_tok(l[q2], TokenType::COMMA) {
                        if q2 + 1 < l.len() && is_tok(l[q2 + 1], TokenType::RIGHT_CURLY_BRACE) {
                            (Some(seq![(k, v)]), q2 + 2)
                        } else {
                            match p_pairs(l, q2 + 1) {
                                (Some(rest), r) => (Some(seq![(k, v)] + rest), r),
                                (None, r) => (None, r),
                            }
                        }
                    } else if is_tok(l[q2], TokenType::RIGHT_CURLY_BRACE) {
                        (Some(seq![(k, v)]), q2 + 1)
                    } else {
                        (None, q2)
                    },
                }
            },
        }
    }
}

/// `!` or `-` at `pos` and its operand.
pub open spec fn p_prefix(l: Seq<Lexeme>, pos: int) -> (Option<ExprTree>, int)
    decreases l.len() - pos, 1nat,
{
    if pos < 0 || pos >= l.len() {
        (None, pos)
    } else {
        match p_expr(l, pos + 1, 5) {
            (Some(e), q) => (Some(ExprTree::Prefix(op_of(l[pos]), Box::new(e))), q),
            (None, q) => (None, q),
        }
    }
}

/// A parenthesised expression whose `(` is at `pos`.
pub open spec fn p_grouped(l: Seq<Lexeme>, pos: int) -> (Option<ExprTree>, int)
    decreases l.len() - pos, 1nat,
{
    if pos < 0 || pos >= l.len() {
        (None, pos)
    } else {
        match p_expr(l, pos + 1, 0) {
            (Some(e), q) => if 0 <= q < l.len() && is_tok(l[q], TokenType::RIGHT_PAREN) {
                (Some(e), q + 1)
            } else {
                (None, q)
            },
            (None, q) => (None, q),
        }
    }
}

/// A block `{ ... }` at `pos`.
pub open spec fn p_block(l: Seq<Lexeme>, pos: int) -> (Option<StmtTree>, int)
    decreases l.len() - pos, 1nat,
{
    if pos < 0 || pos >= l.len() || !is_tok(l[pos], TokenType::LEFT_CURLY_BRACE) {
        (None, pos)
    } else {
        match p_block_items(l, pos + 1) {
            (Some(v), q) => (Some(StmtTree::Block(v)), q),
            (None, q) => (None, q),
        }
    }
}

/// The statements of a block from `p` on, up to and with its `}`; stray
/// `;` are skipped.
pub open spec fn p_block_items(l: Seq<Lexeme>, p: int) -> (Option<Seq<StmtTree>>, int)
    decreases l.len() - p, 8nat,
{
    if p < 0 || p >= l.len() || is_tok(l[p], TokenType::EOF) {
        (None, p)
    } else if is_tok(l[p], TokenType::RIGHT_CURLY_BRACE) {
        (Some(Seq::empty()), p + 1)
    } else if is_tok(l[p], TokenType::SEMICOLON) {
        p_block_items(l, p + 1)
    } else {
        match p_stmt(l, p) {
            (Some(s), q) => if p < q <= l.len() {
                match p_block_items(l, q) {
                    (Some(rest), r) => (Some(seq![s] + rest), r),
                    (None, r) => (None, r),
                }
            } else {
                (None, q)
            },
            (None, q) => (None, q),
        }
    }
}

/// `if` at `pos`: condition, block, and an optional `else` block.
pub open spec fn p_if(l: Seq<Lexeme>, pos: int) -> (Option<ExprTree>, int)
    decreases l.len() - pos, 1nat,
{
    if pos < 0 || pos >= l.len() {
        (None, pos)
    } else {
        match p_expr(l, pos + 1, 0) {
            (None, q) => (None, q),
            (Some(c), q) => if q <= pos || q > l.len() {
                (None, q)
            } else {
                match p_block(l, q) {
                    (None, q2) => (None, q2),
                    (Some(b), q2) => if 0 <= q2 < l.len() && is_tok(l[q2], TokenType::ELSE) && q < q2 {
                        match p_block(l, q2 + 1) {
                            (Some(e), q3) => (Some(ExprTree::If(Box::new(c), Box::new(b), Some(Box::new(e)))), q3),
                            (None, q3) => (None, q3),
                        }
                    } else {
                        (Some(ExprTree::If(Box::new(c), Box::new(b), None)), q2)
                    },
                }
            },
        }
    }
}

/// `while` at `pos`: condition and body.
pub open spec fn p_while(l: Seq<Lexeme>, pos: int) -> (Option<ExprTree>, int)
    decreases l.len() - pos, 1nat,
{
    if pos < 0 || pos >= l.len() {
        (None, pos)
    } else {
        match p_expr(l, pos + 1, 0) {
            (None, q) => (None, q),
            (Some(c), q) => if q <= pos || q > l.len() {
                (None, q)
            } else {
                match p_block(l, q) {
                    (Some(b), q2) => (Some(ExprTree::While(Box::new(c), Box::new(b))), q2),
                    (None, q2) => (None, q2),
                }
            },
        }
    }
}

/// `fn` at `pos`: `fn (params) { body }` with an empty name, or
/// `fn name(params) { body }`.
pub open spec fn p_fn(l: Seq<Lexeme>, pos: int) -> (Option<ExprTree>, int)
    decreases l.len() - pos, 1nat,
{
    if pos < 0 || pos + 1 >= l.len() {
        (None, pos + 1)
    } else {
        let named = l[pos + 1] is Ident;
        if !is_tok(l[pos + 1], TokenType::LEFT_PAREN) && !named {
            (None, pos + 1)
        } else if named && !(pos + 2 < l.len() && is_tok(l[pos + 2], TokenType::LEFT_PAREN)) {
            (None, pos + 2)
        } else {
            let name = if named {
                ExprTree::Ident(l[pos + 1]->Ident_0)
            } else {
                ExprTree::Ident(Seq::empty())
            };
            let start = if named {
                pos + 3
            } else {
                pos + 2
            };
            match p_list(l, start, true) {
                (None, q) => (None, q),
                (Some(ps), q) => if q <= pos || q > l.len() {
                    (None, q)
                } else {
                    match p_block(l, q) {
                        (Some(b), q2) => (Some(ExprTree::Fn(Box::new(name), ps, Box::new(b))), q2),
                        (None, q2) => (None, q2),
                    }
                },
            }
        }
    }
}

/// The statement at `pos`: `let`, `return` or an expression, and a
/// trailing `;` if there is one.
pub open spec fn p_stmt(l: Seq<Lexeme>, pos: int) -> (Option<StmtTree>, int)
    decreases l.len() - pos, 7nat,
{
    let (s, q) = p_stmt_body(l, pos);
    if s is Some && 0 <= q < l.len() && is_tok(l[q], TokenType::SEMICOLON) {
        (s, q + 1)
    } else {
        (s, q)
    }
}

/// The statement at `pos` without its trailing `;`.
pub open spec fn p_stmt_body(l: Seq<Lexeme>, pos: int) -> (Option<StmtTree>, int)
    decreases l.len() - pos, 6nat,
{
    if pos < 0 || pos >= l.len() {
        (None, pos)
    } else if is_tok(l[pos], TokenType::LET) {
        p_let(l, pos)
    } else if is_tok(l[pos], TokenType::RETURN) {
        p_return(l, pos)
    } else {
        match p_expr(l, pos, 0) {
            (Some(e), q) => (Some(StmtTree::Expr(Box::new(e))), q),
            (None, q) => (None, q),
        }
    }
}

/// `let name = value` at `pos`.
pub open spec fn p_let(l: Seq<Lexeme>, pos: int) -> (Option<StmtTree>, int)
    decreases l.len() - pos, 5nat,
{
    if pos < 0 || pos + 1 >= l.len() || !(l[pos + 1] is Ident) {
        (None, pos + 1)
    } else if pos + 2 >= l.len() || !is_tok(l[pos + 2], TokenType::ASSIGN) {
        (None, pos + 2)
    } else {
        match p_expr(l, pos + 3, 0) {
            (Some(e), q) => (Some(StmtTree::Let(Box::new(ExprTree::Ident(l[pos + 1]->Ident_0)), Box::new(e))), q),
            (None, q) => (None, q),
        }
    }
}

/// `return value` at `pos`.
pub open spec fn p_return(l: Seq<Lexeme>, pos: int) -> (Option<StmtTree>, int)
    decreases l.len() - pos, 5nat,
{
    if pos < 0 || pos >= l.len() {
        (None, pos)
    } else {
        match p_expr(l, pos + 1, 0) {
            (Some(e), q) => (Some(StmtTree::Return(Box::new(e))), q),
            (None, q) => (None, q),
        }
    }
}

/// The position after the next `;` from `p` on, or of `EOF`.
pub open spec fn sync_from(l: Seq<Lexeme>, p: int) -> int
    decreases l.len() - p,
{
    if p < 0 || p >= l.len() || is_tok(l[p], TokenType::EOF) {
        p
    } else if is_tok(l[p], TokenType::SEMICOLON) {
        p + 1
    } else {
        sync_from(l, p + 1)
    }
}

/// The statements of a program from `p` up to `EOF`, and whether all of
/// them parsed. A statement that does not parse is left out, and parsing
/// goes on after the next `;`.
pub open spec fn p_program(l: Seq<Lexeme>, p: int) -> (Seq<StmtTree>, bool)
    decreases l.len() - p,
{
    if p < 0 || p >= l.len() || is_tok(l[p], TokenType::EOF) {
        (Seq::empty(), true)
    } else if is_tok(l[p], TokenType::SEMICOLON) {
        p_program(l, p + 1)
    } else {
        match p_stmt(l, p) {
            (Some(s), q) => if p < q <= l.len() {
                (seq![s] + p_program(l, q).0, p_program(l, q).1)
            } else {
                (Seq::empty(), false)
            },
            (None, q) => if p < sync_from(l, q) <= l.len() {
                (p_program(l, sync_from(l, q)).0, false)
            } else {
                (Seq::empty(), false)
            },
        }
    }
}

/// The tree of a lexeme that is an operand alone: a literal or a name.
pub open spec fn operand_tree(x: Lexeme) -> Option<ExprTree> {
    match x {
        Lexeme::Ident(n) => Some(ExprTree::Ident(n)),
        Lexeme::Str(s) => Some(ExprTree::Str(s)),
        Lexeme::Plain(TokenType::NUMBER(n)) => Some(ExprTree::Int(n)),
        Lexeme::Plain(TokenType::TRUE) => Some(ExprTree::Bool(true)),
        Lexeme::Plain(TokenType::FALSE) => Some(ExprTree::Bool(false)),
        _ => None,
    }
}

/// An operand at `p` followed by a lexeme that binds no tighter than `min`
/// parses as that operand alone.
pub proof fn lemma_lone_operand(l: Seq<Lexeme>, p: int, min: u8)
    requires
        0 <= p && p + 1 < l.len(),
        operand_tree(l[p]) is Some,
        level(l[p + 1]) <= min,
    ensures
        p_expr(l, p, min) == (operand_tree(l[p]), p + 1),
{
    assert(p_infix(l, operand_tree(l[p])->0, p + 1, min) == (operand_tree(l[p]), p + 1));
}

/// Associativity: `a op1 b op2 c`, with two binary operators of one
/// precedence above `min` and then a lexeme that binds no tighter than
/// `min`, parses as `(a op1 b) op2 c`.
pub proof fn lemma_left_associative(l: Seq<Lexeme>, pos: int, min: u8)
    requires
        0 <= pos && pos + 5 < l.len(),
        operand_tree(l[pos]) is Some,
        operand_tree(l[pos + 2]) is Some,
        operand_tree(l[pos + 4]) is Some,
        binary(l[pos + 1]),
        binary(l[pos + 3]),
        level(l[pos + 1]) == level(l[pos + 3]),
        min < level(l[pos + 1]),
        level(l[pos + 5]) <= min,
    ensures
        p_expr(l, pos, min) == (
            Some(
                ExprTree::Infix(
                    Box::new(
                        ExprTree::Infix(
                            Box::new(operand_tree(l[pos])->0),
                            op_of(l[pos + 1]),
                            Box::new(operand_tree(l[pos + 2])->0),
                        ),
                    ),
                    op_of(l[pos + 3]),
                    Box::new(operand_tree(l[pos + 4])->0),
                ),
            ),
            pos + 5,
        ),
{
    let lv = level(l[pos + 1]);
    let a = operand_tree(l[pos])->0;
    let b = operand_tree(l[pos + 2])->0;
    let c = operand_tree(l[pos + 4])->0;
    lemma_lone_operand(l, pos + 2, lv);
    lemma_lone_operand(l, pos + 4, lv);
    let ab = ExprTree::Infix(Box::new(a), op_of(l[pos + 1]), Box::new(b));
    let abc = ExprTree::Infix(Box::new(ab), op_of(l[pos + 3]), Box::new(c));
    assert(p_infix(l, abc, pos + 5, min) == (Some(abc), pos + 5));
    assert(p_infix(l, ab, pos + 3, min) == (Some(abc), pos + 5));
    assert(p_infix(l, a, pos + 1, min) == (Some(abc), pos + 5));
}

/// A whole program `a op1 b op2 c` (as in `a + b + c` or `a - b - c`) is
/// one expression statement `(a op1 b) op2 c`, and parses without error.
pub proof fn lemma_program_left_associative(l: Seq<Lexeme>)
    requires
        l.len() == 6,
        operand_tree(l[0]) is Some,
        operand_tree(l[2]) is Some,
        operand_tree(l[4]) is Some,
        binary(l[1]),
        binary(l[3]),
        level(l[1]) == level(l[3]),
        is_tok(l[5], TokenType::EOF),
    ensures
        p_program(l, 0) == (
            seq![
                StmtTree::Expr(
                    Box::new(
                        ExprTree::Infix(
                            Box::new(
                                ExprTree::Infix(
                                    Box::new(operand_tree(l[0])->0),
                                    op_of(l[1]),
                                    Box::new(operand_tree(l[2])->0),
                                ),
                            ),
                            op_of(l[3]),
                            Box::new(operand_tree(l[4])->0),
                        ),
                    ),
                ),
            ],
            true,
        ),
{
    lemma_left_associative(l, 0, 0);
    let e = p_expr(l, 0, 0).0->0;
    assert(p_stmt_body(l, 0) == (Some(StmtTree::Expr(Box::new(e))), 5int));
    assert(p_stmt(l, 0) == (Some(StmtTree::Expr(Box::new(e))), 5int));
    assert(p_program(l, 5) == (Seq::<StmtTree>::empty(), true));
    assert(seq![StmtTree::Expr(Box::new(e))] + Seq::<StmtTree>::empty() =~= seq![StmtTree::Expr(Box::new(e))]);
}

/// The result `r` of an exec rule is the grammar's result `g`.
pub open spec fn gives_expr(r: (Option<Expression>, usize), g: (Option<ExprTree>, int)) -> bool {
    r.1 as int == g.1 && (r.0 is Some <==> g.0 is Some) && (r.0 is Some ==> expr_tree(r.0->0) == g.0->0)
}

pub open spec fn gives_stmt(r: (Option<Statement>, usize), g: (Option<StmtTree>, int)) -> bool {
    r.1 as int == g.1 && (r.0 is Some <==> g.0 is Some) && (r.0 is Some ==> stmt_tree(r.0->0) == g.0->0)
}

pub open spec fn gives_exprs(r: (Option<Vec<Expression>>, usize), g: (Option<Seq<ExprTree>>, int)) -> bool {
    r.1 as int == g.1 && (r.0 is Some <==> g.0 is Some) && (r.0 is Some ==> expr_trees(r.0->0) == g.0->0)
}

pub open spec fn gives_pairs(
    r: (Option<Vec<(Expression, Expression)>>, usize),
    g: (Option<Seq<(ExprTree, ExprTree)>>, int),
) -> bool {
    r.1 as int == g.1 && (r.0 is Some <==> g.0 is Some) && (r.0 is Some ==> pair_trees(r.0->0) == g.0->0)
}

pub open spec fn gives_stmts(r: (Option<Vec<Statement>>, usize), g: (Option<Seq<StmtTree>>, int)) -> bool {
    r.1 as int == g.1 && (r.0 is Some <==> g.0 is Some) && (r.0 is Some ==> stmt_trees(r.0->0) == g.0->0)
}

proof fn lemma_prepend_exprs(v: Vec<Expression>, w: Vec<Expression>, x: Expression)
    requires
        v@ == w@.insert(0, x),
    ensures
        expr_trees(v) == seq![expr_tree(x)] + expr_trees(w),
{
    assert(expr_trees(v) =~= seq![expr_tree(x)] + expr_trees(w));
}

proof fn lemma_prepend_stmts(v: Vec<Statement>, w: Vec<Statement>, x: Statement)
    requires
        v@ == w@.insert(0, x),
    ensures
        stmt_trees(v) == seq![stmt_tree(x)] + stmt_trees(w),
{
    assert(stmt_trees(v) =~= seq![stmt_tree(x)] + stmt_trees(w));
}

/// Parses the expression at `pos` whose operators bind tighter than `min`.
pub fn parse_expression(toks: &Vec<TokenType>, pos: usize, min: u8, errors: &mut Vec<ParseError>) -> (r: (Option<Expression>, usize))
    requires
        stream_wf(toks@),
        pos < toks@.len(),
        errors_within(old(errors)@, toks@),
    ensures
        advanced(toks@, pos as int, r.1 as int, r.0 is Some),
        gives_expr(r, p_expr(lexemes(toks@), pos as int, min)),
        errors_within(final(errors)@, toks@),
        r.0 is Some ==> final(errors)@ == old(errors)@,
        r.0 is None ==> old(errors)@.len() < final(errors)@.len(),
    decreases toks@.len() - pos, 2nat,
{
    let (first, p) = match &toks[pos] {
        TokenType::NUMBER(n) => (Some(Expression::Integer(*n)), pos + 1),
        TokenType::TRUE => (Some(Expression::Boolean(true)), pos + 1),
        TokenType::FALSE => (Some(Expression::Boolean(false)), pos + 1),
        TokenType::STRING(s) => (Some(Expression::String(s.clone())), pos + 1),
        TokenType::IDENTIFIER(s) => (Some(Expression::Identifier(s.clone())), pos + 1),
        TokenType::BREAK => (Some(Expression::Break), pos + 1),
        TokenType::LEFT_BRACE => {
            let (items, q) = parse_list(toks, pos + 1, false, errors);
            match items {
                Some(v) => (Some(Expression::Array(v)), q),
                None => (None, q),
            }
        },
        TokenType::LEFT_CURLY_BRACE => parse_hash(toks, pos, errors),
        TokenType::IF => parse_if(toks, pos, errors),
        TokenType::WHILE => parse_while(toks, pos, errors),
        TokenType::FN => parse_fn(toks, pos, errors),
        TokenType::BANG | TokenType::MINUS => parse_prefix(toks, pos, errors),
        TokenType::LEFT_PAREN => parse_grouped(toks, pos, errors),
        TokenType::EOF => {
            fail(errors, pos, None, &toks[pos]);
            (None, pos)
        },
        _ => {
            fail(errors, pos, None, &toks[pos]);
            (None, pos + 1)
        },
    };
    match first {
        Some(e) => parse_infix(toks, e, p, min, errors),
        None => (None, p),
    }
}

/// Continues expression `left` at `p` with operators and calls that bind
/// tighter than `min`.
pub fn parse_infix(toks: &Vec<TokenType>, left: Expression, p: usize, min: u8, errors: &mut Vec<ParseError>) -> (r: (Option<Expression>, usize))
    requires
        stream_wf(toks@),
        p < toks@.len(),
        errors_within(old(errors)@, toks@),
    ensures
        p <= r.1 < toks@.len(),
        gives_expr(r, p_infix(lexemes(toks@), expr_tree(left), p as int, min)),
        errors_within(final(errors)@, toks@),
        r.0 is Some ==> final(errors)@ == old(errors)@,
        r.0 is None ==> old(errors)@.len() < final(errors)@.len(),
    decreases toks@.len() - p, 2nat,
{
    let lv = Precedence::get(&toks[p]).level();
    if lv <= min {
        return (Some(left), p);
    }
    proof {
        lemma_not_last(toks@, p as int);
    }
    if is_binary(&toks[p]) {
        let op = toks[p].copy();
        let (right, q) = parse_expression(toks, p + 1, lv, errors);
        match right {
            Some(e) => parse_infix(toks, Expression::Infix(Box::new(left), op, Box::new(e)), q, min, errors),
            None => (None, q),
        }
    } else if matches!(toks[p], TokenType::LEFT_PAREN) {
        let (args, q) = parse_list(toks, p + 1, true, errors);
        match args {
            Some(v) => parse_infix(toks, Expression::FnCall(Box::new(left), v), q, min, errors),
            None => (None, q),
        }
    } else {
        (Some(left), p)
    }
}

/// Parses comma separated expressions from `pos` up to and with the closing
/// `)` (`paren`) or `]`; a trailing comma is allowed.
pub fn parse_list(toks: &Vec<TokenType>, pos: usize, paren: bool, errors: &mut Vec<ParseError>) -> (r: (Option<Vec<Expression>>, usize))
    requires
        stream_wf(toks@),
        pos < toks@.len(),
        errors_within(old(errors)@, toks@),
    ensures
        advanced(toks@, pos as int, r.1 as int, r.0 is Some),
        gives_exprs(r, p_list(lexemes(toks@), pos as int, paren)),
        errors_within(final(errors)@, toks@),
        r.0 is Some ==> final(errors)@ == old(errors)@,
        r.0 is None ==> old(errors)@.len() < final(errors)@.len(),
    decreases toks@.len() - pos, 4nat,
{
    if closes(&toks[pos], paren) {
        let v: Vec<Expression> = Vec::new();
        proof {
            assert(expr_trees(v) =~= Seq::<ExprTree>::empty());
        }
        return (Some(v), pos + 1);
    }
    parse_items(toks, pos, paren, errors)
}

/// Parses the items of a list from `p` on, up to and with its closer.
fn parse_items(toks: &Vec<TokenType>, p: usize, paren: bool, errors: &mut Vec<ParseError>) -> (r: (Option<Vec<Expression>>, usize))
    requires
        stream_wf(toks@),
        p < toks@.len(),
        errors_within(old(errors)@, toks@),
    ensures
        advanced(toks@, p as int, r.1 as int, r.0 is Some),
        gives_exprs(r, p_items(lexemes(toks@), p as int, paren)),
        errors_within(final(errors)@, toks@),
        r.0 is Some ==> final(errors)@ == old(errors)@,
        r.0 is None ==> old(errors)@.len() < final(errors)@.len(),
    decreases toks@.len() - p, 3nat,
{
    let (e, q) = parse_expression(toks, p, 0, errors);
    let x = match e {
        Some(x) => x,
        None => {
            return (None, q);
        },
    };
    if matches!(toks[q], TokenType::COMMA) {
        proof {
            lemma_not_last(toks@, q as int);
        }
        if closes(&toks[q + 1], paren) {
            let mut v: Vec<Expression> = Vec::new();
            v.push(x);
            proof {
                assert(expr_trees(v) =~= seq![expr_tree(x)]);
            }
            return (Some(v), q + 2);
        }
        let (rest, r) = parse_items(toks, q + 1, paren, errors);
        match rest {
            Some(mut v) => {
                let ghost w = v;
                let ghost tx = expr_tree(x);
                v.insert(0, x);
                proof {
                    lemma_prepend_exprs(v, w, v@[0]);
                }
                (Some(v), r)
            },
            None => (None, r),
        }
    } else if closes(&toks[q], paren) {
        let mut v: Vec<Expression> = Vec::new();
        v.push(x);
        proof {
            assert(expr_trees(v) =~= seq![expr_tree(x)]);
        }
        (Some(v), q + 1)
    } else {
        fail(errors, q, Some(closer(paren)), &toks[q]);
        (None, q)
    }
}

/// Parses a hash literal whose `{` is at `pos`.
fn parse_hash(toks: &Vec<TokenType>, pos: usize, errors: &mut Vec<ParseError>) -> (r: (Option<Expression>, usize))
    requires
        stream_wf(toks@),
        pos < toks@.len(),
        toks@[pos as int] is LEFT_CURLY_BRACE,
        errors_within(old(errors)@, toks@),
    ensures
        advanced(toks@, pos as int, r.1 as int, r.0 is Some),
        gives_expr(r, p_hash(lexemes(toks@), pos as int)),
        errors_within(final(errors)@, toks@),
        r.0 is Some ==> final(errors)@ == old(errors)@,
        r.0 is None ==> old(errors)@.len() < final(errors)@.len(),
    decreases toks@.len() - pos, 1nat,
{
    proof {
        lemma_not_last(toks@, pos as int);
    }
    let p = pos + 1;
    if matches!(toks[p], TokenType::RIGHT_CURLY_BRACE) {
        let e = Expression::Hash(Vec::new());
        proof {
            assert(expr_tree(e)->Hash_0 =~= Seq::<(ExprTree, ExprTree)>::empty());
        }
        return (Some(e), p + 1);
    }
    let (pairs, q) = parse_pairs(toks, p, errors);
    match pairs {
        Some(v) => {
            let e = Expression::Hash(v);
            proof {
                assert(expr_tree(e)->Hash_0 =~= pair_trees(v));
            }
            (Some(e), q)
        },
        None => (None, q),
    }
}

/// Parses the `key: value` pairs of a hash literal from `p` on, up to and
/// with its `}`.
fn parse_pairs(toks: &Vec<TokenType>, p: usize, errors: &mut Vec<ParseError>) -> (r: (Option<Vec<(Expression, Expression)>>, usize))
    requires
        stream_wf(toks@),
        p < toks@.len(),
        errors_within(old(errors)@, toks@),
    ensures
        advanced(toks@, p as int, r.1 as int, r.0 is Some),
        gives_pairs(r, p_pairs(lexemes(toks@), p as int)),
        errors_within(final(errors)@, toks@),
        r.0 is Some ==> final(errors)@ == old(errors)@,
        r.0 is None ==> old(errors)@.len() < final(errors)@.len(),
    decreases toks@.len() - p, 3nat,
{
    let (key, q) = parse_expression(toks, p, 0, errors);
    let key = match key {
        Some(k) => k,
        None => {
            return (None, q);
        },
    };
    if !matches!(toks[q], TokenType::COLON) {
        fail(errors, q, Some(TokenType::COLON), &toks[q]);
        return (None, q);
    }
    proof {
        lemma_not_last(toks@, q as int);
    }
    let (value, q2) = parse_expression(toks, q + 1, 0, errors);
    let value = match value {
        Some(v) => v,
        None => {
            return (None, q2);
        },
    };
    if matches!(toks[q2], TokenType::COMMA) {
        proof {
            lemma_not_last(toks@, q2 as int);
        }
        if matches!(toks[q2 + 1], TokenType::RIGHT_CURLY_BRACE) {
            let mut v: Vec<(Expression, Expression)> = Vec::new();
            v.push((key, value));
            proof {
                assert(pair_trees(v) =~= seq![(expr_tree(v@[0].0), expr_tree(v@[0].1))]);
            }
            return (Some(v), q2 + 2);
        }
        let (rest, r) = parse_pairs(toks, q2 + 1, errors);
        match rest {
            Some(mut v) => {
                let ghost w = v;
                v.insert(0, (key, value));
                proof {
                    assert(pair_trees(v) =~= seq![(expr_tree(v@[0].0), expr_tree(v@[0].1))] + pair_trees(w));
                }
                (Some(v), r)
            },
            None => (None, r),
        }
    } else if matches!(toks[q2], TokenType::RIGHT_CURLY_BRACE) {
        let mut v: Vec<(Expression, Expression)> = Vec::new();
        v.push((key, value));
        proof {
            assert(pair_trees(v) =~= seq![(expr_tree(v@[0].0), expr_tree(v@[0].1))]);
        }
        (Some(v), q2 + 1)
    } else {
        fail(errors, q2, Some(TokenType::RIGHT_CURLY_BRACE), &toks[q2]);
        (None, q2)
    }
}

/// Parses `!` or `-` at `pos` and its operand.
fn parse_prefix(toks: &Vec<TokenType>, pos: usize, errors: &mut Vec<ParseError>) -> (r: (Option<Expression>, usize))
    requires
        stream_wf(toks@),
        pos < toks@.len(),
        toks@[pos as int] is BANG || toks@[pos as int] is MINUS,
        errors_within(old(errors)@, toks@),
    ensures
        advanced(toks@, pos as int, r.1 as int, r.0 is Some),
        gives_expr(r, p_prefix(lexemes(toks@), pos as int)),
        errors_within(final(errors)@, toks@),
        r.0 is Some ==> final(errors)@ == old(errors)@,
        r.0 is None ==> old(errors)@.len() < final(errors)@.len(),
    decreases toks@.len() - pos, 1nat,
{
    let op = toks[pos].copy();
    let (e, q) = parse_expression(toks, pos + 1, 5, errors);
    match e {
        Some(x) => (Some(Expression::Prefix(op, Box::new(x))), q),
        None => (None, q),
    }
}

/// Parses a parenthesised expression whose `(` is at `pos`.
fn parse_grouped(toks: &Vec<TokenType>, pos: usize, errors: &mut Vec<ParseError>) -> (r: (Option<Expression>, usize))
    requires
        stream_wf(toks@),
        pos < toks@.len(),
        toks@[pos as int] is LEFT_PAREN,
        errors_within(old(errors)@, toks@),
    ensures
        advanced(toks@, pos as int, r.1 as int, r.0 is Some),
        gives_expr(r, p_grouped(lexemes(toks@), pos as int)),
        errors_within(final(errors)@, toks@),
        r.0 is Some ==> final(errors)@ == old(errors)@,
        r.0 is None ==> old(errors)@.len() < final(errors)@.len(),
    decreases toks@.len() - pos, 1nat,
{
    let (e, q) = parse_expression(toks, pos + 1, 0, errors);
    match e {
        Some(x) => {
            if matches!(toks[q], TokenType::RIGHT_PAREN) {
                (Some(x), q + 1)
            } else {
                fail(errors, q, Some(TokenType::RIGHT_PAREN), &toks[q]);
                (None, q)
            }
        },
        None => (None, q),
    }
}

/// Parses a block `{ ... }` that starts at `pos`.
pub fn parse_block(toks: &Vec<TokenType>, pos: usize, errors: &mut Vec<ParseError>) -> (r: (Option<Statement>, usize))
    requires
        stream_wf(toks@),
        pos < toks@.len(),
        errors_within(old(errors)@, toks@),
    ensures
        pos <= r.1 < toks@.len(),
        r.0 is Some ==> pos < r.1,
        gives_stmt(r, p_block(lexemes(toks@), pos as int)),
        errors_within(final(errors)@, toks@),
        r.0 is Some ==> final(errors)@ == old(errors)@,
        r.0 is None ==> old(errors)@.len() < final(errors)@.len(),
    decreases toks@.len() - pos, 1nat,
{
    if !matches!(toks[pos], TokenType::LEFT_CURLY_BRACE) {
        fail(errors, pos, Some(TokenType::LEFT_CURLY_BRACE), &toks[pos]);
        return (None, pos);
    }
    proof {
        lemma_not_last(toks@, pos as int);
    }
    let (items, q) = parse_block_items(toks, pos + 1, errors);
    match items {
        Some(v) => (Some(Statement::BlockStatement(v)), q),
        None => (None, q),
    }
}

/// Parses the statements of a block from `p` on, up to and with its `}`.
fn parse_block_items(toks: &Vec<TokenType>, p: usize, errors: &mut Vec<ParseError>) -> (r: (Option<Vec<Statement>>, usize))
    requires
        stream_wf(toks@),
        p < toks@.len(),
        errors_within(old(errors)@, toks@),
    ensures
        p <= r.1 < toks@.len(),
        r.0 is Some ==> p < r.1,
        gives_stmts(r, p_block_items(lexemes(toks@), p as int)),
        errors_within(final(errors)@, toks@),
        r.0 is Some ==> final(errors)@ == old(errors)@,
        r.0 is None ==> old(errors)@.len() < final(errors)@.len(),
    decreases toks@.len() - p, 8nat,
{
    if matches!(toks[p], TokenType::EOF) {
        fail(errors, p, Some(TokenType::RIGHT_CURLY_BRACE), &toks[p]);
        return (None, p);
    }
    proof {
        lemma_not_last(toks@, p as int);
    }
    if matches!(toks[p], TokenType::RIGHT_CURLY_BRACE) {
        let v: Vec<Statement> = Vec::new();
        proof {
            assert(stmt_trees(v) =~= Seq::<StmtTree>::empty());
        }
        return (Some(v), p + 1);
    }
    if matches!(toks[p], TokenType::SEMICOLON) {
        return parse_block_items(toks, p + 1, errors);
    }
    let (st, q) = parse_statement(toks, p, errors);
    let x = match st {
        Some(x) => x,
        None => {
            return (None, q);
        },
    };
    let (rest, r) = parse_block_items(toks, q, errors);
    match rest {
        Some(mut v) => {
            let ghost w = v;
            v.insert(0, x);
            proof {
                lemma_prepend_stmts(v, w, v@[0]);
            }
            (Some(v), r)
        },
        None => (None, r),
    }
}

/// Parses `if` at `pos`: condition, block, and an optional `else` block.
fn parse_if(toks: &Vec<TokenType>, pos: usize, errors: &mut Vec<ParseError>) -> (r: (Option<Expression>, usize))
    requires
        stream_wf(toks@),
        pos < toks@.len(),
        toks@[pos as int] is IF,
        errors_within(old(errors)@, toks@),
    ensures
        advanced(toks@, pos as int, r.1 as int, r.0 is Some),
        gives_expr(r, p_if(lexemes(toks@), pos as int)),
        errors_within(final(errors)@, toks@),
        r.0 is Some ==> final(errors)@ == old(errors)@,
        r.0 is None ==> old(errors)@.len() < final(errors)@.len(),
    decreases toks@.len() - pos, 1nat,
{
    let (cond, q) = parse_expression(toks, pos + 1, 0, errors);
    let cond = match cond {
        Some(c) => c,
        None => {
            return (None, q);
        },
    };
    let (then, q2) = parse_block(toks, q, errors);
    let then = match then {
        Some(b) => b,
        None => {
            return (None, q2);
        },
    };
    if matches!(toks[q2], TokenType::ELSE) {
        proof {
            lemma_not_last(toks@, q2 as int);
        }
        let (other, q3) = parse_block(toks, q2 + 1, errors);
        match other {
            Some(b) => (Some(Expression::If(Box::new(cond), then, Some(b))), q3),
            None => (None, q3),
        }
    } else {
        (Some(Expression::If(Box::new(cond), then, None)), q2)
    }
}

/// Parses `while` at `pos`: condition and body.
fn parse_while(toks: &Vec<TokenType>, pos: usize, errors: &mut Vec<ParseError>) -> (r: (Option<Expression>, usize))
    requires
        stream_wf(toks@),
        pos < toks@.len(),
        toks@[pos as int] is WHILE,
        errors_within(old(errors)@, toks@),
    ensures
        advanced(toks@, pos as int, r.1 as int, r.0 is Some),
        gives_expr(r, p_while(lexemes(toks@), pos as int)),
        errors_within(final(errors)@, toks@),
        r.0 is Some ==> final(errors)@ == old(errors)@,
        r.0 is None ==> old(errors)@.len() < final(errors)@.len(),
    decreases toks@.len() - pos, 1nat,
{
    let (cond, q) = parse_expression(toks, pos + 1, 0, errors);
    let cond = match cond {
        Some(c) => c,
        None => {
            return (None, q);
        },
    };
    let (body, q2) = parse_block(toks, q, errors);
    match body {
        Some(b) => (Some(Expression::While(Box::new(cond), b)), q2),
        None => (None, q2),
    }
}

/// Parses `fn` at `pos`: an anonymous function literal `fn (..) {..}` or a
/// named declaration `fn name(..) {..}`.
fn parse_fn(toks: &Vec<TokenType>, pos: usize, errors: &mut Vec<ParseError>) -> (r: (Option<Expression>, usize))
    requires
        stream_wf(toks@),
        pos < toks@.len(),
        toks@[pos as int] is FN,
        errors_within(old(errors)@, toks@),
    ensures
        advanced(toks@, pos as int, r.1 as int, r.0 is Some),
        gives_expr(r, p_fn(lexemes(toks@), pos as int)),
        errors_within(final(errors)@, toks@),
        r.0 is Some ==> final(errors)@ == old(errors)@,
        r.0 is None ==> old(errors)@.len() < final(errors)@.len(),
    decreases toks@.len() - pos, 1nat,
{
    proof {
        lemma_not_last(toks@, pos as int);
    }
    let (name, start) = if matches!(toks[pos + 1], TokenType::LEFT_PAREN) {
        (Expression::Identifier(String::new()), pos + 2)
    } else {
        match &toks[pos + 1] {
            TokenType::IDENTIFIER(n) => {
                proof {
                    lemma_not_last(toks@, pos + 1);
                }
                if !matches!(toks[pos + 2], TokenType::LEFT_PAREN) {
                    fail(errors, pos + 2, Some(TokenType::LEFT_PAREN), &toks[pos + 2]);
                    return (None, pos + 2);
                }
                (Expression::Identifier(n.clone()), pos + 3)
            },
            _ => {
                fail(errors, pos + 1, Some(TokenType::IDENTIFIER(String::new())), &toks[pos + 1]);
                return (None, pos + 1);
            },
        }
    };
    proof {
        let l = lexemes(toks@);
        if l[pos + 1] is Ident {
            assert(expr_tree(name) == ExprTree::Ident(l[pos + 1]->Ident_0));
            assert(start == pos + 3);
        } else {
            assert(expr_tree(name) == ExprTree::Ident(Seq::empty()));
            assert(start == pos + 2);
        }
    }
    let (params, q) = parse_list(toks, start, true, errors);
    let params = match params {
        Some(v) => v,
        None => {
            return (None, q);
        },
    };
    let (body, q2) = parse_block(toks, q, errors);
    match body {
        Some(b) => (Some(Expression::Fn(Box::new(name), params, b)), q2),
        None => (None, q2),
    }
}

/// Parses the statement at `pos`: `let`, `return`, or an expression; a
/// trailing `;` is taken along.
pub fn parse_statement(toks: &Vec<TokenType>, pos: usize, errors: &mut Vec<ParseError>) -> (r: (Option<Statement>, usize))
    requires
        stream_wf(toks@),
        pos < toks@.len(),
        errors_within(old(errors)@, toks@),
    ensures
        advanced(toks@, pos as int, r.1 as int, r.0 is Some),
        errors_within(final(errors)@, toks@),
        r.0 is Some ==> final(errors)@ == old(errors)@,
        r.0 is None ==> old(errors)@.len() < final(errors)@.len(),
        gives_stmt(r, p_stmt(lexemes(toks@), pos as int)),
    decreases toks@.len() - pos, 7nat,
{
    let (s, q) = parse_statement_body(toks, pos, errors);
    if s.is_some() && matches!(toks[q], TokenType::SEMICOLON) {
        (s, q + 1)
    } else {
        (s, q)
    }
}

/// Parses the statement at `pos` without its trailing `;`.
fn parse_statement_body(toks: &Vec<TokenType>, pos: usize, errors: &mut Vec<ParseError>) -> (r: (Option<Statement>, usize))
    requires
        stream_wf(toks@),
        pos < toks@.len(),
        errors_within(old(errors)@, toks@),
    ensures
        advanced(toks@, pos as int, r.1 as int, r.0 is Some),
        errors_within(final(errors)@, toks@),
        r.0 is Some ==> final(errors)@ == old(errors)@,
        r.0 is None ==> old(errors)@.len() < final(errors)@.len(),
        gives_stmt(r, p_stmt_body(lexemes(toks@), pos as int)),
    decreases toks@.len() - pos, 6nat,
{
    proof {
        assert(lexemes(toks@)[pos as int] == lexeme_of(toks@[pos as int]));
    }
    match &toks[pos] {
        TokenType::LET => parse_let_statement(toks, pos, errors),
        TokenType::RETURN => parse_return_statement(toks, pos, errors),
        _ => {
            let (e, q) = parse_expression(toks, pos, 0, errors);
            match e {
                Some(x) => (Some(Statement::Expr(Box::new(x))), q),
                None => (None, q),
            }
        },
    }
}

/// Parses `let name = value` at `pos`.
fn parse_let_statement(toks: &Vec<TokenType>, pos: usize, errors: &mut Vec<ParseError>) -> (r: (Option<Statement>, usize))
    requires
        stream_wf(toks@),
        pos < toks@.len(),
        toks@[pos as int] is LET,
        errors_within(old(errors)@, toks@),
    ensures
        advanced(toks@, pos as int, r.1 as int, r.0 is Some),
        gives_stmt(r, p_let(lexemes(toks@), pos as int)),
        errors_within(final(errors)@, toks@),
        r.0 is Some ==> final(errors)@ == old(errors)@,
        r.0 is None ==> old(errors)@.len() < final(errors)@.len(),
    decreases toks@.len() - pos, 5nat,
{
    proof {
        lemma_not_last(toks@, pos as int);
    }
    let name = match &toks[pos + 1] {
        TokenType::IDENTIFIER(n) => n.clone(),
        _ => {
            fail(errors, pos + 1, Some(TokenType::IDENTIFIER(String::new())), &toks[pos + 1]);
            return (None, pos + 1);
        },
    };
    proof {
        lemma_not_last(toks@, pos + 1);
    }
    if !matches!(toks[pos + 2], TokenType::ASSIGN) {
        fail(errors, pos + 2, Some(TokenType::ASSIGN), &toks[pos + 2]);
        return (None, pos + 2);
    }
    proof {
        lemma_not_last(toks@, pos + 2);
    }
    let (e, q) = parse_expression(toks, pos + 3, 0, errors);
    match e {
        Some(x) => (Some(Statement::Let(Box::new(Expression::Identifier(name)), Box::new(x))), q),
        None => (None, q),
    }
}

/// Parses `return value` at `pos`.
fn parse_return_statement(toks: &Vec<TokenType>, pos: usize, errors: &mut Vec<ParseError>) -> (r: (Option<Statement>, usize))
    requires
        stream_wf(toks@),
        pos < toks@.len(),
        toks@[pos as int] is RETURN,
        errors_within(old(errors)@, toks@),
    ensures
        advanced(toks@, pos as int, r.1 as int, r.0 is Some),
        gives_stmt(r, p_return(lexemes(toks@), pos as int)),
        errors_within(final(errors)@, toks@),
        r.0 is Some ==> final(errors)@ == old(errors)@,
        r.0 is None ==> old(errors)@.len() < final(errors)@.len(),
    decreases toks@.len() - pos, 5nat,
{
    let (e, q) = parse_expression(toks, pos + 1, 0, errors);
    match e {
        Some(x) => (Some(Statement::Return(Box::new(x))), q),
        None => (None, q),
    }
}

/// Skips from `pos` past the next `;`, or up to `EOF`.
fn synchronize(toks: &Vec<TokenType>, pos: usize) -> (r: usize)
    requires
        stream_wf(toks@),
        pos < toks@.len(),
    ensures
        pos <= r < toks@.len(),
        r == sync_from(lexemes(toks@), pos as int),
{
    let mut p = pos;
    while !matches!(toks[p], TokenType::SEMICOLON) && !matches!(toks[p], TokenType::EOF)
        invariant
            stream_wf(toks@),
            pos <= p < toks@.len(),
            sync_from(lexemes(toks@), pos as int) == sync_from(lexemes(toks@), p as int),
        decreases toks@.len() - p,
    {
        p = p + 1;
    }
    if matches!(toks[p], TokenType::SEMICOLON) {
        p + 1
    } else {
        p
    }
}

/// One step of a program at `p`, which is not `EOF`: a stray `;` is
/// skipped (`None`, no error); a statement is parsed (`Some`); or a
/// statement fails, is recorded, and is skipped up to and with the next `;`.
/// The grammar's program from `p` is the step's statement, if any, then the
/// program from the returned position.
fn parse_step(toks: &Vec<TokenType>, p: usize, errors: &mut Vec<ParseError>) -> (r: (Option<Statement>, usize))
    requires
        stream_wf(toks@),
        p < toks@.len(),
        !(toks@[p as int] is EOF),
        errors_within(old(errors)@, toks@),
    ensures
        p < r.1 < toks@.len(),
        errors_within(final(errors)@, toks@),
        old(errors)@.len() <= final(errors)@.len(),
        r.0 is Some ==> final(errors)@ == old(errors)@ && p_program(lexemes(toks@), p as int) == (
            seq![stmt_tree(r.0->0)] + p_program(lexemes(toks@), r.1 as int).0,
            p_program(lexemes(toks@), r.1 as int).1,
        ),
        r.0 is None && toks@[p as int] is SEMICOLON ==> final(errors)@ == old(errors)@ && p_program(
            lexemes(toks@),
            p as int,
        ) == p_program(lexemes(toks@), r.1 as int),
        r.0 is None && !(toks@[p as int] is SEMICOLON) ==> old(errors)@.len() < final(errors)@.len()
            && p_program(lexemes(toks@), p as int) == (
            p_program(lexemes(toks@), r.1 as int).0,
            false,
        ),
{
    let ghost l = lexemes(toks@);
    proof {
        assert(l[p as int] == lexeme_of(toks@[p as int]));
        lemma_not_last(toks@, p as int);
    }
    if matches!(toks[p], TokenType::SEMICOLON) {
        return (None, p + 1);
    }
    let (st, q) = parse_statement(toks, p, errors);
    match st {
        Some(x) => (Some(x), q),
        None => (None, synchronize(toks, q)),
    }
}

/// Parses the statements from `pos` up to `EOF`: the grammar's program.
/// A statement that fails is recorded in `errors` and skipped up to and
/// with the next `;`; no error is recorded exactly when all statements parse.
pub fn parse_statements(toks: &Vec<TokenType>, pos: usize, errors: &mut Vec<ParseError>) -> (r: Vec<
    Statement,
>)
    requires
        stream_wf(toks@),
        pos < toks@.len(),
        errors_within(old(errors)@, toks@),
    ensures
        errors_within(final(errors)@, toks@),
        old(errors)@.len() <= final(errors)@.len(),
        stmt_trees(r) == p_program(lexemes(toks@), pos as int).0,
        (final(errors)@.len() == old(errors)@.len()) == p_program(lexemes(toks@), pos as int).1,
{
    let ghost l = lexemes(toks@);
    let mut statements: Vec<Statement> = Vec::new();
    let mut p = pos;
    proof {
        assert(stmt_trees(statements) =~= Seq::<StmtTree>::empty());
        assert(Seq::<StmtTree>::empty() + p_program(l, pos as int).0 =~= p_program(l, pos as int).0);
    }
    loop
        invariant
            stream_wf(toks@),
            l == lexemes(toks@),
            pos <= p < toks@.len(),
            errors_within(errors@, toks@),
            old(errors)@.len() <= errors@.len(),
            p_program(l, pos as int).0 == stmt_trees(statements) + p_program(l, p as int).0,
            p_program(l, pos as int).1 == ((errors@.len() == old(errors)@.len()) && p_program(l, p as int).1),
        decreases toks@.len() - p,
    {
        if matches!(toks[p], TokenType::EOF) {
            proof {
                assert(l[p as int] == lexeme_of(toks@[p as int]));
                assert(p_program(l, p as int) == (Seq::<StmtTree>::empty(), true));
                assert(stmt_trees(statements) + Seq::<StmtTree>::empty() =~= stmt_trees(statements));
            }
            return statements;
        }
        let (st, q) = parse_step(toks, p, errors);
        match st {
            Some(x) => {
                let ghost before = statements;
                statements.push(x);
                proof {
                    assert(stmt_trees(statements) =~= stmt_trees(before).push(stmt_tree(x)));
                    assert(stmt_trees(before) + (seq![stmt_tree(x)] + p_program(l, q as int).0)
                        =~= stmt_trees(statements) + p_program(l, q as int).0);
                }
            },
            None => {},
        }
        p = q;
    }
}

/// A parser over the tokens of one source text. It keeps a current and a
/// next token, both `NONE` before the first call of `next_token`.
#[derive(Debug)]
pub struct Parser {
    tokens: Vec<TokenType>,
    pulled: usize,
    cur_token: TokenType,
    peek_token: TokenType,
    errors: Vec<ParseError>,
}

impl Parser {
    /// The tokens, ending with their only `EOF`.
    pub closed spec fn tokens(&self) -> Seq<TokenType> {
        self.tokens@
    }

    /// How many tokens `next_token` has taken.
    pub closed spec fn pulled(&self) -> int {
        self.pulled as int
    }

    /// The token `next_token` takes next: `EOF` once all are taken.
    pub closed spec fn upcoming(&self) -> TokenType {
        if self.pulled < self.tokens@.len() {
            self.tokens@[self.pulled as int]
        } else {
            TokenType::EOF
        }
    }

    pub closed spec fn cur(&self) -> TokenType {
        self.cur_token
    }

    pub closed spec fn peek(&self) -> TokenType {
        self.peek_token
    }

    pub closed spec fn error_list(&self) -> Seq<ParseError> {
        self.errors@
    }

    pub closed spec fn wf(&self) -> bool {
        &&& stream_wf(self.tokens@)
        &&& self.pulled <= self.tokens@.len()
        &&& errors_within(self.errors@, self.tokens@)
    }

    /// A parser over the tokens of `input`.
    pub fn get(input: &str) -> (r: Parser)
        ensures
            r.wf(),
            r.tokens().len() == crate::lexer::lex(input@).len(),
            forall|k: int|
                0 <= k < r.tokens().len() ==> crate::lexer::denotes(
                    #[trigger] r.tokens()[k],
                    crate::lexer::lex(input@)[k],
                ),
            r.pulled() == 0,
            r.cur() == TokenType::NONE,
            r.peek() == TokenType::NONE,
            r.error_list().len() == 0,
    {
        let tokens = tokenize(input);
        // Reading the length bounds it by usize::MAX, as a well-formed stream requires.
        let _n = tokens.len();
        Parser {
            tokens,
            pulled: 0,
            cur_token: TokenType::NONE,
            peek_token: TokenType::NONE,
            errors: Vec::new(),
        }
    }

    /// A parser over any token stream: the tokens before its first `EOF`,
    /// then `EOF`.
    pub fn from_tokens(tokens: Vec<TokenType>) -> (r: Parser)
        ensures
            r.wf(),
            r.pulled() == 0,
            r.error_list().len() == 0,
            r.tokens().last() == TokenType::EOF,
            r.tokens().len() <= tokens@.len() + 1,
            forall|k: int| 0 <= k < r.tokens().len() - 1 ==> r.tokens()[k] == tokens@[k],
            forall|k: int| 0 <= k < r.tokens().len() - 1 ==> tokens@[k] != TokenType::EOF,
            r.tokens().len() - 1 == tokens@.len() || tokens@[r.tokens().len() - 1] is EOF,
    {
        let mut kept: Vec<TokenType> = Vec::new();
        let mut i: usize = 0;
        while i < tokens.len() && !matches!(tokens[i], TokenType::EOF)
            invariant
                i <= tokens@.len(),
                kept@.len() == i,
                forall|k: int| 0 <= k < i ==> kept@[k] == tokens@[k] && tokens@[k] != TokenType::EOF,
            decreases tokens@.len() - i,
        {
            kept.push(tokens[i].copy());
            i += 1;
        }
        kept.push(TokenType::EOF);
        // Reading the length bounds it by usize::MAX, as a well-formed stream requires.
        let _n = kept.len();
        Parser {
            tokens: kept,
            pulled: 0,
            cur_token: TokenType::NONE,
            peek_token: TokenType::NONE,
            errors: Vec::new(),
        }
    }

    /// Moves on by one token: the next token becomes the current one.
    pub fn next_token(&mut self)
        requires
            old(self).wf(),
        ensures
            final(self).wf(),
            final(self).tokens() == old(self).tokens(),
            final(self).error_list() == old(self).error_list(),
            final(self).cur() == old(self).peek(),
            final(self).peek() == old(self).upcoming(),
            final(self).pulled() == if old(self).pulled() < old(self).tokens().len() {
                old(self).pulled() + 1
            } else {
                old(self).pulled()
            },
    {
        let next = if self.pulled < self.tokens.len() {
            let t = self.tokens[self.pulled].copy();
            self.pulled = self.pulled + 1;
            t
        } else {
            TokenType::EOF
        };
        self.cur_token = self.peek_token.copy();
        self.peek_token = next;
    }

    /// The precedence of the current token.
    pub fn cur_precedence(&self) -> (r: Precedence)
        ensures
            r.rank() == level_of(self.cur()),
    {
        Precedence::get(&self.cur_token)
    }

    /// The precedence of the next token.
    pub fn peek_precedence(&self) -> (r: Precedence)
        ensures
            r.rank() == level_of(self.peek()),
    {
        Precedence::get(&self.peek_token)
    }

    /// The syntax errors found so far.
    pub fn errors(&self) -> (r: &Vec<ParseError>)
        ensures
            r@ == self.error_list(),
    {
        &self.errors
    }

    /// The position at which `parse_program` starts: the next token not yet
    /// taken, or the final `EOF`.
    pub open spec fn start(&self) -> int {
        if self.pulled() < self.tokens().len() {
            self.pulled()
        } else {
            self.tokens().len() - 1
        }
    }

    /// Parses the tokens not yet taken into a program: the grammar's program
    /// from `start()`. Afterwards all tokens are taken. Errors are added to
    /// `errors()`, and none is added exactly when every statement parses.
    pub fn parse_program(&mut self) -> (r: AstNode)
        requires
            old(self).wf(),
        ensures
            final(self).wf(),
            final(self).tokens() == old(self).tokens(),
            final(self).pulled() == final(self).tokens().len(),
            old(self).error_list().len() <= final(self).error_list().len(),
            program_tree(r) == p_program(lexemes(old(self).tokens()), old(self).start()).0,
            (final(self).error_list().len() == old(self).error_list().len()) == p_program(
                lexemes(old(self).tokens()),
                old(self).start(),
            ).1,
    {
        let start = if self.pulled < self.tokens.len() {
            self.pulled
        } else {
            self.tokens.len() - 1
        };
        let statements = parse_statements(&self.tokens, start, &mut self.errors);
        self.pulled = self.tokens.len();
        self.cur_token = TokenType::EOF;
        self.peek_token = TokenType::EOF;
        AstNode::Program(statements)
    }
}

/// A lexeme that no token of another kind also denotes: no identifier or
/// string in a `Plain`.
pub open spec fn proper(x: Lexeme) -> bool {
    match x {
        Lexeme::Plain(t) => !(t is IDENTIFIER) && !(t is STRING),
        _ => true,
    }
}

/// The lexer gives only proper lexemes.
proof fn lemma_lex_proper(s: Seq<char>, i: int)
    requires
        0 <= i <= s.len(),
    ensures
        forall|k: int| 0 <= k < lex_from(s, i).len() ==> proper(#[trigger] lex_from(s, i)[k]),
    decreases s.len() - i,
{
    crate::lexer::lemma_skip_ws(s, i);
    let j = skip_ws(s, i);
    if j < s.len() {
        crate::lexer::lemma_scan_advances(s, j);
        let k = scan(s, j).1;
        lemma_lex_proper(s, k);
        let rest = lex_from(s, k);
        assert(proper(scan(s, j).0));
        assert forall|m: int| 0 <= m < lex_from(s, i).len() implies proper(#[trigger] lex_from(s, i)[m]) by {
            if m > 0 {
                assert(lex_from(s, i)[m] == rest[m - 1]);
            }
        }
    }
}

/// Parses source text: the grammar's program over the lexemes of `source`,
/// and the syntax errors, which are empty exactly when every statement
/// parses.
pub fn parse(source: &str) -> (r: (AstNode, Vec<ParseError>))
    ensures
        forall|k: int|
            0 <= k < r.1@.len() ==> {
                &&& (#[trigger] r.1@[k]).position < lex(source@).len()
                &&& crate::lexer::denotes(r.1@[k].got, lex(source@)[r.1@[k].position as int])
                &&& (r.1@[k].expected is Some ==> r.1@[k].expected->0 != r.1@[k].got)
            },
        program_tree(r.0) == p_program(lex(source@), 0).0,
        (r.1@.len() == 0) == p_program(lex(source@), 0).1,
{
    let mut parser = Parser::get(source);
    proof {
        lemma_lex_proper(source@, 0);
        let t = parser.tokens();
        assert forall|k: int| 0 <= k < t.len() implies lexemes(t)[k] == lex(source@)[k] by {
            assert(crate::lexer::denotes(t[k], lex(source@)[k]));
            assert(proper(lex(source@)[k]));
        }
        assert(lexemes(t) =~= lex(source@));
    }
    let program = parser.parse_program();
    (program, parser.errors)
}

} // verus!
