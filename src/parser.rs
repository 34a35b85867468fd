use vstd::prelude::*;
use crate::ast::{BinOp, Expr, SExpr, SStmt, Stmt};
use crate::lexer::{Tok, Token, toks};

verus! {

/// The token at position `i`, if there is one.
pub open spec fn tok_at(t: Seq<Tok>, i: int) -> Option<Tok> {
    if 0 <= i < t.len() {
        Some(t[i])
    } else {
        None
    }
}

/// The position after taking one token at `i`; at the end nothing is taken.
pub open spec fn next_pos(t: Seq<Tok>, i: int) -> int {
    if 0 <= i < t.len() {
        i + 1
    } else {
        i
    }
}

/// The binary operator that a token stands for.
pub open spec fn binop_of(t: Tok) -> Option<BinOp> {
    match t {
        Tok::Plus => Some(BinOp::Add),
        Tok::Minus => Some(BinOp::Sub),
        Tok::Asterisk => Some(BinOp::Mul),
        Tok::Slash => Some(BinOp::Div),
        Tok::GreaterThan => Some(BinOp::Greater),
        _ => None,
    }
}

// Each production below maps a start position to its result, or `None` on a
// mismatch, and the position where it stopped: tokens taken before a mismatch
// stay taken.
/// primary := INT | IDENT | `(` expression `)`
pub open spec fn spec_primary(t: Seq<Tok>, i: int) -> (Option<SExpr>, int)
    decreases t.len() - i, 0int,
{
    if !(0 <= i < t.len()) {
        (None, i)
    } else {
        match t[i] {
            Tok::Integer(v) => (Some(SExpr::Const(v)), i + 1),
            Tok::Identifier(name) => (Some(SExpr::Var(name)), i + 1),
            Tok::LeftParen => {
                let (e, k) = spec_expr(t, i + 1);
                if tok_at(t, k) == Some(Tok::RightParen) {
                    (e, k + 1)
                } else {
                    (None, next_pos(t, k))
                }
            },
            _ => (None, i + 1),
        }
    }
}

/// The operator loop after the first operand `left`: each operator is
/// followed by exactly one primary, folded in from the left, so all
/// operators share one precedence. An operator without its operand fails the
/// whole expression.
pub open spec fn spec_rest(t: Seq<Tok>, left: SExpr, i: int) -> (Option<SExpr>, int)
    decreases t.len() - i, 1int,
{
    if 0 <= i < t.len() && binop_of(t[i]) is Some {
        let (r, k) = spec_primary(t, i + 1);
        match r {
            Some(e) => if i < k <= t.len() {
                spec_rest(t, SExpr::Bin(binop_of(t[i])->0, Box::new(left), Box::new(e)), k)
            } else {
                (None, k)
            },
            None => (None, k),
        }
    } else {
        (Some(left), i)
    }
}

/// expression := primary (op primary)*
pub open spec fn spec_expr(t: Seq<Tok>, i: int) -> (Option<SExpr>, int)
    decreases t.len() - i, 2int,
{
    let (p, k) = spec_primary(t, i);
    match p {
        Some(e) => if i <= k <= t.len() {
            spec_rest(t, e, k)
        } else {
            (None, k)
        },
        None => (None, k),
    }
}

/// let-statement := `let` IDENT `=` expression `;`
pub open spec fn spec_let(t: Seq<Tok>, i: int) -> (Option<SStmt>, int)
    decreases t.len() - i, 3int,
{
    let p = next_pos(t, i);
    match tok_at(t, p) {
        Some(Tok::Identifier(name)) => if tok_at(t, p + 1) == Some(Tok::Equals) && i < p {
            let (e, k) = spec_expr(t, p + 2);
            match e {
                Some(x) => if tok_at(t, k) == Some(Tok::Semicolon) {
                    (Some(SStmt::Assign(name, x)), k + 1)
                } else {
                    (None, next_pos(t, k))
                },
                None => (None, k),
            }
        } else {
            (None, next_pos(t, p + 1))
        },
        _ => (None, next_pos(t, p)),
    }
}

/// if-statement := `if` `(` expression `)` block [`else` block], held as an
/// expression statement.
pub open spec fn spec_if(t: Seq<Tok>, i: int) -> (Option<SStmt>, int)
    decreases t.len() - i, 3int,
{
    let p = next_pos(t, i);
    if tok_at(t, p) == Some(Tok::LeftParen) && i < p {
        let (c, k) = spec_expr(t, p + 1);
        match c {
            Some(cond) => if tok_at(t, k) == Some(Tok::RightParen) && i <= k {
                let (b, m) = spec_block(t, k + 1);
                match b {
                    Some(then_b) => if tok_at(t, m) == Some(Tok::Else) && i <= m {
                        let (e, q) = spec_block(t, m + 1);
                        match e {
                            Some(else_b) => (
                                Some(
                                    SStmt::Expr(
                                        SExpr::If(
                                            Box::new(cond),
                                            Box::new(then_b),
                                            Some(Box::new(else_b)),
                                        ),
                                    ),
                                ),
                                q,
                            ),
                            None => (None, q),
                        }
                    } else {
                        (Some(SStmt::Expr(SExpr::If(Box::new(cond), Box::new(then_b), None))), m)
                    },
                    None => (None, m),
                }
            } else {
                (None, next_pos(t, k))
            },
            None => (None, k),
        }
    } else {
        (None, next_pos(t, p))
    }
}

/// expression-statement := expression `;`
pub open spec fn spec_expr_stmt(t: Seq<Tok>, i: int) -> (Option<SStmt>, int)
    decreases t.len() - i, 3int,
{
    let (e, k) = spec_expr(t, i);
    match e {
        Some(x) => if tok_at(t, k) == Some(Tok::Semicolon) {
            (Some(SStmt::Expr(x)), k + 1)
        } else {
            (None, next_pos(t, k))
        },
        None => (None, k),
    }
}

/// A statement, chosen by the next token.
pub open spec fn spec_stmt(t: Seq<Tok>, i: int) -> (Option<SStmt>, int)
    decreases t.len() - i, 4int,
{
    match tok_at(t, i) {
        Some(Tok::Let) => spec_let(t, i),
        Some(Tok::If) => spec_if(t, i),
        _ => spec_expr_stmt(t, i),
    }
}

/// The statements of a block after its `{`, with `acc` already parsed; the
/// block closes as soon as `}` is the next token.
pub open spec fn spec_block_rest(t: Seq<Tok>, acc: Seq<SStmt>, i: int) -> (Option<SStmt>, int)
    decreases t.len() - i, 5int,
{
    if tok_at(t, i) == Some(Tok::RightBrace) {
        (Some(SStmt::Block(acc)), i + 1)
    } else {
        let (s, k) = spec_stmt(t, i);
        match s {
            Some(st) => if i < k <= t.len() {
                spec_block_rest(t, acc.push(st), k)
            } else {
                (None, k)
            },
            None => (None, k),
        }
    }
}

/// block := `{` statement* `}`
pub open spec fn spec_block(t: Seq<Tok>, i: int) -> (Option<SStmt>, int)
    decreases t.len() - i, 6int,
{
    if tok_at(t, i) == Some(Tok::LeftBrace) {
        spec_block_rest(t, Seq::empty(), i + 1)
    } else {
        (None, next_pos(t, i))
    }
}

/// The statements parsed from position `i` to the end; a statement that fails
/// to parse is left out and parsing resumes where it stopped.
pub open spec fn spec_program_from(t: Seq<Tok>, i: int) -> Seq<SStmt>
    decreases t.len() - i,
{
    if 0 <= i < t.len() {
        let (s, k) = spec_stmt(t, i);
        let rest = if i < k <= t.len() {
            spec_program_from(t, k)
        } else {
            Seq::empty()
        };
        match s {
            Some(st) => seq![st] + rest,
            None => rest,
        }
    } else {
        Seq::empty()
    }
}

/// The statements of a whole token sequence.
pub open spec fn spec_program(t: Seq<Tok>) -> Seq<SStmt> {
    spec_program_from(t, 0)
}

pub open spec fn opt_expr(r: Option<Expr>) -> Option<SExpr> {
    match r {
        Some(e) => Some(e@),
        None => None,
    }
}

pub open spec fn opt_stmt(r: Option<Stmt>) -> Option<SStmt> {
    match r {
        Some(s) => Some(s@),
        None => None,
    }
}

/// The models of a sequence of statements.
pub open spec fn stmts(v: Seq<Stmt>) -> Seq<SStmt> {
    v.map_values(|s: Stmt| s@)
}

/// Parses a token sequence into statements. A construct that does not match
/// the grammar is left out; every attempt takes at least one token, so parsing
/// always ends.
pub fn parse(tokens: Vec<Token>) -> (r: Vec<Stmt>)
    ensures
        stmts(r@) == spec_program(toks(tokens@)),
{
    let ghost t = toks(tokens@);
    let mut pos: usize = 0;
    let mut statements: Vec<Stmt> = Vec::new();
    while pos < tokens.len()
        invariant
            t == toks(tokens@),
            pos <= tokens.len(),
            stmts(statements@) + spec_program_from(t, pos as int) == spec_program(t),
        decreases tokens.len() - pos,
    {
        let ghost prev = statements@;
        let ghost i = pos as int;
        let r = parse_statement(&tokens, &mut pos);
        let ghost rest = spec_program_from(t, pos as int);
        match r {
            Some(stmt) => {
                statements.push(stmt);
                assert(stmts(statements@) =~= stmts(prev).push(stmt@));
                assert(stmts(statements@) + rest =~= stmts(prev) + (seq![stmt@] + rest));
            },
            None => {},
        }
    }
    assert(stmts(statements@) + spec_program_from(t, pos as int) =~= stmts(statements@));
    statements
}

/// Whether `a` is the token `b`, which carries no payload.
fn same_token(a: &Token, b: &Token) -> (r: bool)
    requires
        !(*b is Integer),
        !(*b is Identifier),
    ensures
        r == (a@ == b@),
{
    match b {
        Token::Plus => matches!(a, Token::Plus),
        Token::Minus => matches!(a, Token::Minus),
        Token::Asterisk => matches!(a, Token::Asterisk),
        Token::Slash => matches!(a, Token::Slash),
        Token::Equals => matches!(a, Token::Equals),
        Token::GreaterThan => matches!(a, Token::GreaterThan),
        Token::LessThan => matches!(a, Token::LessThan),
        Token::LeftParen => matches!(a, Token::LeftParen),
        Token::RightParen => matches!(a, Token::RightParen),
        Token::LeftBrace => matches!(a, Token::LeftBrace),
        Token::RightBrace => matches!(a, Token::RightBrace),
        Token::Semicolon => matches!(a, Token::Semicolon),
        Token::Let => matches!(a, Token::Let),
        Token::If => matches!(a, Token::If),
        Token::Else => matches!(a, Token::Else),
        Token::Error => matches!(a, Token::Error),
        _ => false,
    }
}

/// Whether the token at `pos` is `want`, which carries no payload.
fn token_at_is(tokens: &Vec<Token>, pos: usize, want: Token) -> (b: bool)
    requires
        !(want is Integer),
        !(want is Identifier),
    ensures
        b == (tok_at(toks(tokens@), pos as int) == Some(want@)),
{
    if pos < tokens.len() {
        same_token(&tokens[pos], &want)
    } else {
        false
    }
}

/// Takes one token, if any is left.
fn advance(tokens: &Vec<Token>, pos: &mut usize)
    requires
        *old(pos) <= tokens.len(),
    ensures
        *final(pos) as int == next_pos(toks(tokens@), *old(pos) as int),
        *final(pos) <= tokens.len(),
{
    if *pos < tokens.len() {
        *pos = *pos + 1;
    }
}

fn binop_token(t: &Token) -> (r: Option<BinOp>)
    ensures
        r == binop_of(t@),
{
    match t {
        Token::Plus => Some(BinOp::Add),
        Token::Minus => Some(BinOp::Sub),
        Token::Asterisk => Some(BinOp::Mul),
        Token::Slash => Some(BinOp::Div),
        Token::GreaterThan => Some(BinOp::Greater),
        _ => None,
    }
}

fn make_binary(op: BinOp, left: Expr, right: Expr) -> (e: Expr)
    ensures
        e@ == SExpr::Bin(op, Box::new(left@), Box::new(right@)),
{
    match op {
        BinOp::Add => Expr::Add(Box::new(left), Box::new(right)),
        BinOp::Sub => Expr::Sub(Box::new(left), Box::new(right)),
        BinOp::Mul => Expr::Mul(Box::new(left), Box::new(right)),
        BinOp::Div => Expr::Div(Box::new(left), Box::new(right)),
        BinOp::Greater => Expr::Greater(Box::new(left), Box::new(right)),
    }
}

fn parse_statement(tokens: &Vec<Token>, pos: &mut usize) -> (r: Option<Stmt>)
    requires
        *old(pos) <= tokens.len(),
    ensures
        (opt_stmt(r), *final(pos) as int) == spec_stmt(toks(tokens@), *old(pos) as int),
        *old(pos) <= *final(pos) <= tokens.len(),
        *old(pos) < tokens.len() ==> *old(pos) < *final(pos),
        r is Some ==> *old(pos) < *final(pos),
    decreases tokens.len() - *old(pos), 4nat,
{
    if *pos < tokens.len() {
        match &tokens[*pos] {
            Token::Let => {
                return parse_let_statement(tokens, pos);
            },
            Token::If => {
                return parse_if_statement(tokens, pos);
            },
            _ => {},
        }
    }
    parse_expression_statement(tokens, pos)
}

fn parse_let_statement(tokens: &Vec<Token>, pos: &mut usize) -> (r: Option<Stmt>)
    requires
        *old(pos) <= tokens.len(),
    ensures
        (opt_stmt(r), *final(pos) as int) == spec_let(toks(tokens@), *old(pos) as int),
        *old(pos) <= *final(pos) <= tokens.len(),
        *old(pos) < tokens.len() ==> *old(pos) < *final(pos),
        r is Some ==> *old(pos) < *final(pos),
    decreases tokens.len() - *old(pos), 3nat,
{
    advance(tokens, pos);
    if *pos >= tokens.len() {
        return None;
    }
    let name = match &tokens[*pos] {
        Token::Identifier(name) => name.clone(),
        _ => {
            *pos = *pos + 1;
            return None;
        },
    };
    *pos = *pos + 1;
    if !token_at_is(tokens, *pos, Token::Equals) {
        advance(tokens, pos);
        return None;
    }
    *pos = *pos + 1;
    match parse_expression(tokens, pos) {
        Some(e) => {
            let semi = token_at_is(tokens, *pos, Token::Semicolon);
            advance(tokens, pos);
            if semi {
                Some(Stmt::Assign(name, e))
            } else {
                None
            }
        },
        None => None,
    }
}

fn parse_if_statement(tokens: &Vec<Token>, pos: &mut usize) -> (r: Option<Stmt>)
    requires
        *old(pos) <= tokens.len(),
    ensures
        (opt_stmt(r), *final(pos) as int) == spec_if(toks(tokens@), *old(pos) as int),
        *old(pos) <= *final(pos) <= tokens.len(),
        *old(pos) < tokens.len() ==> *old(pos) < *final(pos),
        r is Some ==> *old(pos) < *final(pos),
    decreases tokens.len() - *old(pos), 3nat,
{
    advance(tokens, pos);
    if !token_at_is(tokens, *pos, Token::LeftParen) {
        advance(tokens, pos);
        return None;
    }
    *pos = *pos + 1;
    let condition = match parse_expression(tokens, pos) {
        Some(c) => c,
        None => {
            return None;
        },
    };
    if !token_at_is(tokens, *pos, Token::RightParen) {
        advance(tokens, pos);
        return None;
    }
    *pos = *pos + 1;
    let then_branch = match parse_block(tokens, pos) {
        Some(b) => b,
        None => {
            return None;
        },
    };
    let else_branch = if token_at_is(tokens, *pos, Token::Else) {
        *pos = *pos + 1;
        match parse_block(tokens, pos) {
            Some(b) => Some(Box::new(b)),
            None => {
                return None;
            },
        }
    } else {
        None
    };
    let node = Expr::If(Box::new(condition), Box::new(then_branch), else_branch);
    assert(node@ == SExpr::If(
        Box::new(condition@),
        Box::new(then_branch@),
        match else_branch {
            Some(b) => Some(Box::new(b@)),
            None => None,
        },
    ));
    Some(Stmt::Expr(node))
}

fn parse_expression_statement(tokens: &Vec<Token>, pos: &mut usize) -> (r: Option<Stmt>)
    requires
        *old(pos) <= tokens.len(),
    ensures
        (opt_stmt(r), *final(pos) as int) == spec_expr_stmt(toks(tokens@), *old(pos) as int),
        *old(pos) <= *final(pos) <= tokens.len(),
        *old(pos) < tokens.len() ==> *old(pos) < *final(pos),
        r is Some ==> *old(pos) < *final(pos),
    decreases tokens.len() - *old(pos), 3nat,
{
    match parse_expression(tokens, pos) {
        Some(e) => {
            let semi = token_at_is(tokens, *pos, Token::Semicolon);
            advance(tokens, pos);
            if semi {
                Some(Stmt::Expr(e))
            } else {
                None
            }
        },
        None => None,
    }
}

fn parse_expression(tokens: &Vec<Token>, pos: &mut usize) -> (r: Option<Expr>)
    requires
        *old(pos) <= tokens.len(),
    ensures
        (opt_expr(r), *final(pos) as int) == spec_expr(toks(tokens@), *old(pos) as int),
        *old(pos) <= *final(pos) <= tokens.len(),
        *old(pos) < tokens.len() ==> *old(pos) < *final(pos),
        r is Some ==> *old(pos) < *final(pos),
    decreases tokens.len() - *old(pos), 2nat,
{
    parse_binary_expression(tokens, pos)
}

fn parse_binary_expression(tokens: &Vec<Token>, pos: &mut usize) -> (r: Option<Expr>)
    requires
        *old(pos) <= tokens.len(),
    ensures
        (opt_expr(r), *final(pos) as int) == spec_expr(toks(tokens@), *old(pos) as int),
        *old(pos) <= *final(pos) <= tokens.len(),
        *old(pos) < tokens.len() ==> *old(pos) < *final(pos),
        r is Some ==> *old(pos) < *final(pos),
    decreases tokens.len() - *old(pos), 1nat,
{
    let ghost t = toks(tokens@);
    let ghost i0 = *pos as int;
    let mut left = match parse_primary(tokens, pos) {
        Some(e) => e,
        None => {
            return None;
        },
    };
    loop
        invariant
            t == toks(tokens@),
            i0 == *old(pos) as int,
            i0 < *pos <= tokens.len(),
            spec_expr(t, i0) == spec_rest(t, left@, *pos as int),
        decreases tokens.len() - *pos,
    {
        let op = if *pos < tokens.len() {
            binop_token(&tokens[*pos])
        } else {
            None
        };
        match op {
            Some(op) => {
                *pos = *pos + 1;
                match parse_primary(tokens, pos) {
                    Some(right) => {
                        left = make_binary(op, left, right);
                    },
                    None => {
                        return None;
                    },
                }
            },
            None => {
                return Some(left);
            },
        }
    }
}

fn parse_primary(tokens: &Vec<Token>, pos: &mut usize) -> (r: Option<Expr>)
    requires
        *old(pos) <= tokens.len(),
    ensures
        (opt_expr(r), *final(pos) as int) == spec_primary(toks(tokens@), *old(pos) as int),
        *old(pos) <= *final(pos) <= tokens.len(),
        *old(pos) < tokens.len() ==> *old(pos) < *final(pos),
        r is Some ==> *old(pos) < *final(pos),
    decreases tokens.len() - *old(pos), 0nat,
{
    if *pos >= tokens.len() {
        return None;
    }
    let i = *pos;
    *pos = i + 1;
    match &tokens[i] {
        Token::Integer(v) => Some(Expr::Const(*v)),
        Token::Identifier(name) => Some(Expr::Var(name.clone())),
        Token::LeftParen => {
            let e = parse_expression(tokens, pos);
            let close = token_at_is(tokens, *pos, Token::RightParen);
            advance(tokens, pos);
            if close {
                e
            } else {
                None
            }
        },
        _ => None,
    }
}

fn parse_block(tokens: &Vec<Token>, pos: &mut usize) -> (r: Option<Stmt>)
    requires
        *old(pos) <= tokens.len(),
    ensures
        (opt_stmt(r), *final(pos) as int) == spec_block(toks(tokens@), *old(pos) as int),
        *old(pos) <= *final(pos) <= tokens.len(),
        *old(pos) < tokens.len() ==> *old(pos) < *final(pos),
        r is Some ==> *old(pos) < *final(pos),
    decreases tokens.len() - *old(pos), 5nat,
{
    let ghost t = toks(tokens@);
    let ghost i0 = *pos as int;
    if !token_at_is(tokens, *pos, Token::LeftBrace) {
        advance(tokens, pos);
        return None;
    }
    *pos = *pos + 1;
    let mut statements: Vec<Stmt> = Vec::new();
    assert(stmts(statements@) =~= Seq::<SStmt>::empty());
    loop
        invariant
            t == toks(tokens@),
            i0 == *old(pos) as int,
            i0 < *pos <= tokens.len(),
            spec_block(t, i0) == spec_block_rest(t, stmts(statements@), *pos as int),
        decreases tokens.len() - *pos,
    {
        if token_at_is(tokens, *pos, Token::RightBrace) {
            *pos = *pos + 1;
            let ghost sv = statements@;
            let block = Stmt::Block(statements);
            assert(block@ == SStmt::Block(stmts(sv))) by {
                assert(block@->Block_0 =~= stmts(sv));
            }
            return Some(block);
        }
        let ghost prev = statements@;
        match parse_statement(tokens, pos) {
            Some(stmt) => {
                statements.push(stmt);
                assert(stmts(statements@) =~= stmts(prev).push(stmt@));
            },
            None => {
                return None;
            },
        }
    }
}

} // verus!
