use vstd::prelude::*;
use crate::ast::{SExpr, SStmt};
use crate::lexer::Tok;
use crate::parser::{
    next_pos, spec_block, spec_block_rest, spec_expr, spec_expr_stmt, spec_if, spec_let,
    spec_primary, spec_program, spec_program_from, spec_rest, spec_stmt, tok_at,
};

verus! {

proof fn lemma_primary_pos(t: Seq<Tok>, i: int)
    requires
        0 <= i <= t.len(),
    ensures
        i <= spec_primary(t, i).1 <= t.len(),
        spec_primary(t, i).0 is Some ==> i + 1 <= spec_primary(t, i).1,
    decreases t.len() - i, 0int,
{
    if i < t.len() && t[i] is LeftParen {
        lemma_expr_pos(t, i + 1);
    }
}

proof fn lemma_rest_pos(t: Seq<Tok>, left: SExpr, i: int)
    requires
        0 <= i <= t.len(),
    ensures
        i <= spec_rest(t, left, i).1 <= t.len(),
    decreases t.len() - i, 1int,
{
    if 0 <= i < t.len() && crate::parser::binop_of(t[i]) is Some {
        lemma_primary_pos(t, i + 1);
        let (r, k) = spec_primary(t, i + 1);
        if let Some(e) = r {
            lemma_rest_pos(
                t,
                SExpr::Bin(crate::parser::binop_of(t[i])->0, Box::new(left), Box::new(e)),
                k,
            );
        }
    }
}

proof fn lemma_expr_pos(t: Seq<Tok>, i: int)
    requires
        0 <= i <= t.len(),
    ensures
        i <= spec_expr(t, i).1 <= t.len(),
        spec_expr(t, i).0 is Some ==> i + 1 <= spec_expr(t, i).1,
    decreases t.len() - i, 2int,
{
    lemma_primary_pos(t, i);
    let (p, k) = spec_primary(t, i);
    if let Some(e) = p {
        lemma_rest_pos(t, e, k);
    }
}

proof fn lemma_let_pos(t: Seq<Tok>, i: int)
    requires
        0 <= i <= t.len(),
    ensures
        i <= spec_let(t, i).1 <= t.len(),
        spec_let(t, i).0 is Some ==> i + 2 <= spec_let(t, i).1,
    decreases t.len() - i, 3int,
{
    let p = next_pos(t, i);
    if p + 2 <= t.len() && i < p {
        lemma_expr_pos(t, p + 2);
    }
}

proof fn lemma_if_pos(t: Seq<Tok>, i: int)
    requires
        0 <= i <= t.len(),
    ensures
        i <= spec_if(t, i).1 <= t.len(),
        spec_if(t, i).0 is Some ==> i + 2 <= spec_if(t, i).1,
    decreases t.len() - i, 3int,
{
    let p = next_pos(t, i);
    if tok_at(t, p) == Some(Tok::LeftParen) && i < p {
        lemma_expr_pos(t, p + 1);
        let (c, k) = spec_expr(t, p + 1);
        if c is Some && tok_at(t, k) == Some(Tok::RightParen) && i <= k {
            lemma_block_pos(t, k + 1);
            let (b, m) = spec_block(t, k + 1);
            if b is Some && tok_at(t, m) == Some(Tok::Else) && i <= m {
                lemma_block_pos(t, m + 1);
            }
        }
    }
}

proof fn lemma_expr_stmt_pos(t: Seq<Tok>, i: int)
    requires
        0 <= i <= t.len(),
    ensures
        i <= spec_expr_stmt(t, i).1 <= t.len(),
        spec_expr_stmt(t, i).0 is Some ==> i + 2 <= spec_expr_stmt(t, i).1,
    decreases t.len() - i, 3int,
{
    lemma_expr_pos(t, i);
}

proof fn lemma_stmt_pos(t: Seq<Tok>, i: int)
    requires
        0 <= i <= t.len(),
    ensures
        i <= spec_stmt(t, i).1 <= t.len(),
        spec_stmt(t, i).0 is Some ==> i + 2 <= spec_stmt(t, i).1,
    decreases t.len() - i, 4int,
{
    lemma_let_pos(t, i);
    lemma_if_pos(t, i);
    lemma_expr_stmt_pos(t, i);
}

proof fn lemma_block_rest_pos(t: Seq<Tok>, acc: Seq<SStmt>, i: int)
    requires
        0 <= i <= t.len(),
    ensures
        i <= spec_block_rest(t, acc, i).1 <= t.len(),
        spec_block_rest(t, acc, i).0 is Some ==> i + 1 <= spec_block_rest(t, acc, i).1,
    decreases t.len() - i, 5int,
{
    if tok_at(t, i) != Some(Tok::RightBrace) {
        lemma_stmt_pos(t, i);
        let (s, k) = spec_stmt(t, i);
        if let Some(st) = s {
            if i < k <= t.len() {
                lemma_block_rest_pos(t, acc.push(st), k);
            }
        }
    }
}

proof fn lemma_block_pos(t: Seq<Tok>, i: int)
    requires
        0 <= i <= t.len(),
    ensures
        i <= spec_block(t, i).1 <= t.len(),
        spec_block(t, i).0 is Some ==> i + 2 <= spec_block(t, i).1,
    decreases t.len() - i, 6int,
{
    if tok_at(t, i) == Some(Tok::LeftBrace) {
        lemma_block_rest_pos(t, Seq::empty(), i + 1);
    }
}

proof fn lemma_program_from_len(t: Seq<Tok>, i: int)
    requires
        0 <= i <= t.len(),
    ensures
        2 * spec_program_from(t, i).len() <= t.len() - i,
    decreases t.len() - i,
{
    if i < t.len() {
        lemma_stmt_pos(t, i);
        let (s, k) = spec_stmt(t, i);
        if i < k <= t.len() {
            lemma_program_from_len(t, k);
        }
    }
}

/// Parsing never produces more statements than half the tokens: every
/// statement spans at least two tokens, and malformed input only shortens
/// the result.
pub proof fn lemma_program_len(t: Seq<Tok>)
    ensures
        2 * spec_program(t).len() <= t.len(),
{
    lemma_program_from_len(t, 0);
}

} // verus!
