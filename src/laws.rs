use vstd::prelude::*;
use crate::ast::{BinOp, SExpr, SStmt};
use crate::code_gen::{
    emit, label_line, label_name, jump_line, bnez_line, lookup_from, spec_gen_program, initial_state, lookup, spec_gen_expr, spec_gen_stmt, spec_gen_stmts, spec_generate, GenState,
};
use crate::lexer::{
    digit_value, digits_value, is_digit, is_ident_char, is_space, lex, lex_from, run_end, Tok,
};
use crate::text::{decimal, digit_char};
use crate::parser::{
    binop_of, spec_expr, spec_expr_stmt, spec_let, spec_primary, spec_program, spec_program_from,
    spec_rest, spec_stmt, tok_at,
};

verus! {

/// Parsing is deterministic: the same source text always yields the same
/// statements.
pub proof fn lemma_parse_deterministic(a: Seq<char>, b: Seq<char>)
    requires
        a == b,
    ensures
        spec_program(lex(a)) == spec_program(lex(b)),
{
}

/// A `let` that is not followed by an identifier produces no statement.
pub proof fn lemma_let_without_name_fails(t: Seq<Tok>, i: int)
    requires
        tok_at(t, i) == Some(Tok::Let),
        !(tok_at(t, i + 1) matches Some(Tok::Identifier(_))),
    ensures
        spec_stmt(t, i).0 is None,
{
}

/// Reading a variable that the table does not hold fails the lowering.
pub proof fn lemma_undeclared_read_fails(name: Seq<char>, s: GenState)
    requires
        lookup(s.vars, name) is None,
    ensures
        spec_gen_expr(SExpr::Var(name), s) is None,
{
}

/// A program whose first statement reads a variable as the left operand of an
/// operator yields no assembly: no variable is declared yet.
pub proof fn lemma_first_read_is_fatal(name: Seq<char>, op: BinOp, right: SExpr)
    ensures
        spec_generate(seq![SStmt::Expr(SExpr::Bin(op, Box::new(SExpr::Var(name)), Box::new(right)))])
            is None,
{
    let prog = seq![SStmt::Expr(SExpr::Bin(op, Box::new(SExpr::Var(name)), Box::new(right)))];
    assert(prog.subrange(0, 0) =~= Seq::<SStmt>::empty());
    assert(prog.subrange(0, prog.len() - 1) =~= Seq::<SStmt>::empty());
    let s0 = initial_state();
    assert(lookup(s0.vars, name) is None);
    assert(spec_gen_expr(SExpr::Var(name), s0) is None);
    assert(spec_gen_stmt(prog[0], s0) is None);
    assert(spec_gen_stmts(prog.subrange(0, 0), s0) == Some(s0));
    assert(spec_gen_stmts(prog, s0) is None);
}

proof fn lemma_digit_char(d: nat)
    requires
        d < 10,
    ensures
        is_digit(digit_char(d)),
        digit_value(digit_char(d)) == d,
{
}

proof fn lemma_decimal(n: nat)
    ensures
        decimal(n).len() >= 1,
        forall|k: int| 0 <= k < decimal(n).len() ==> is_digit(#[trigger] decimal(n)[k]),
        digits_value(decimal(n)) == n,
    decreases n,
{
    if n < 10 {
        lemma_digit_char(n);
        assert(decimal(n).drop_last() =~= Seq::<char>::empty());
        assert(decimal(n).last() == digit_char(n));
        assert(digits_value(decimal(n)) == digits_value(Seq::<char>::empty()) * 10 + digit_value(
            digit_char(n),
        ));
    } else {
        lemma_decimal(n / 10);
        lemma_digit_char(n % 10);
        assert(decimal(n).drop_last() =~= decimal(n / 10));
        assert(decimal(n).last() == digit_char(n % 10));
        assert(digits_value(decimal(n)) == digits_value(decimal(n / 10)) * 10 + digit_value(
            digit_char(n % 10),
        ));
        assert((n / 10) * 10 + n % 10 == n);
    }
}

proof fn lemma_run_end_exact(s: Seq<char>, i: int, j: int, p: spec_fn(char) -> bool)
    requires
        0 <= i <= j <= s.len(),
        forall|k: int| i <= k < j ==> p(#[trigger] s[k]),
        j == s.len() || !p(s[j]),
    ensures
        run_end(s, i, p) == j,
    decreases j - i,
{
    if i < j {
        lemma_run_end_exact(s, i + 1, j, p);
    }
}

/// The text `let x = N;` for a literal written in decimal.
pub open spec fn let_text(n: nat) -> Seq<char> {
    seq!['l', 'e', 't', ' ', 'x', ' ', '=', ' '] + decimal(n) + seq![';']
}

/// Tokenizing `let x = N;` for a literal within the 32-bit range gives the
/// keyword, the name, `=`, the integer and `;`.
pub proof fn lemma_let_text_tokens(n: i32)
    requires
        n >= 0,
    ensures
        lex(let_text(n as nat)) == seq![
            Tok::Let,
            Tok::Identifier(seq!['x']),
            Tok::Equals,
            Tok::Integer(n),
            Tok::Semicolon,
        ],
{
    let d = decimal(n as nat);
    let s = let_text(n as nat);
    let len = d.len() as int;
    lemma_decimal(n as nat);
    assert(s.len() == 9 + len);
    assert(forall|k: int| 0 <= k < len ==> s[8 + k] == d[k]);
    assert(s[8 + len] == ';');
    assert(s[0] == 'l' && s[1] == 'e' && s[2] == 't' && s[3] == ' ' && s[4] == 'x');
    assert(s[5] == ' ' && s[6] == '=' && s[7] == ' ');
    lemma_run_end_exact(s, 0, 3, |c: char| is_ident_char(c));
    assert(s.subrange(0, 3) =~= seq!['l', 'e', 't']);
    lemma_run_end_exact(s, 3, 4, |c: char| is_space(c));
    lemma_run_end_exact(s, 4, 5, |c: char| is_ident_char(c));
    assert(s.subrange(4, 5) =~= seq!['x']);
    assert(seq!['x'] != seq!['l', 'e', 't']);
    assert(seq!['x'] != seq!['i', 'f']);
    assert(seq!['x'] != seq!['e', 'l', 's', 'e']);
    lemma_run_end_exact(s, 5, 6, |c: char| is_space(c));
    lemma_run_end_exact(s, 7, 8, |c: char| is_space(c));
    assert forall|k: int| 8 <= k < 8 + len implies is_digit(s[k]) by {
        assert(s[k] == d[k - 8]);
    }
    lemma_run_end_exact(s, 8, 8 + len, |c: char| is_digit(c));
    assert(s.subrange(8, 8 + len) =~= d);
    assert(is_digit(s[8]));
    let tail = lex_from(s, 8 + len);
    assert(lex_from(s, 9 + len) == Seq::<Tok>::empty());
    assert(tail =~= seq![Tok::Semicolon]);
    assert(lex_from(s, 8) =~= seq![Tok::Integer(n), Tok::Semicolon]);
    assert(lex_from(s, 7) == lex_from(s, 8));
    assert(lex_from(s, 6) =~= seq![Tok::Equals, Tok::Integer(n), Tok::Semicolon]);
    assert(lex_from(s, 5) == lex_from(s, 6));
    assert(lex_from(s, 4) =~= seq![
        Tok::Identifier(seq!['x']),
        Tok::Equals,
        Tok::Integer(n),
        Tok::Semicolon,
    ]);
    assert(lex_from(s, 3) == lex_from(s, 4));
    assert(lex_from(s, 0) =~= seq![
        Tok::Let,
        Tok::Identifier(seq!['x']),
        Tok::Equals,
        Tok::Integer(n),
        Tok::Semicolon,
    ]);
}

/// Tokenizing then parsing `let x = N;`, for any literal within the 32-bit
/// range, yields exactly one assignment binding `x` to the constant `N`.
pub proof fn lemma_let_literal_parses(n: i32)
    requires
        n >= 0,
    ensures
        spec_program(lex(let_text(n as nat))) == seq![SStmt::Assign(seq!['x'], SExpr::Const(n))],
{
    lemma_let_text_tokens(n);
    let t = lex(let_text(n as nat));
    assert(spec_primary(t, 3) == (Some(SExpr::Const(n)), 4int));
    assert(spec_expr(t, 3) == (Some(SExpr::Const(n)), 4int));
    assert(spec_let(t, 0) == (Some(SStmt::Assign(seq!['x'], SExpr::Const(n))), 5int));
    assert(spec_stmt(t, 0) == (Some(SStmt::Assign(seq!['x'], SExpr::Const(n))), 5int));
    assert(spec_program_from(t, 5) == Seq::<SStmt>::empty());
    assert(spec_program_from(t, 0) =~= seq![SStmt::Assign(seq!['x'], SExpr::Const(n))]);
}

/// All operators share one precedence and fold from the left: for any
/// literals `a`, `b`, `c` and operators `o1`, `o2`, the statement
/// `a o1 b o2 c ;` parses as `(a o1 b) o2 c`, whatever the operators are.
pub proof fn lemma_flat_precedence(a: i32, o1: Tok, b: i32, o2: Tok, c: i32)
    requires
        binop_of(o1) is Some,
        binop_of(o2) is Some,
    ensures
        spec_program(
            seq![Tok::Integer(a), o1, Tok::Integer(b), o2, Tok::Integer(c), Tok::Semicolon],
        ) == seq![
            SStmt::Expr(
                SExpr::Bin(
                    binop_of(o2)->0,
                    Box::new(
                        SExpr::Bin(
                            binop_of(o1)->0,
                            Box::new(SExpr::Const(a)),
                            Box::new(SExpr::Const(b)),
                        ),
                    ),
                    Box::new(SExpr::Const(c)),
                ),
            ),
        ],
{
    let t = seq![Tok::Integer(a), o1, Tok::Integer(b), o2, Tok::Integer(c), Tok::Semicolon];
    let ab = SExpr::Bin(binop_of(o1)->0, Box::new(SExpr::Const(a)), Box::new(SExpr::Const(b)));
    let abc = SExpr::Bin(binop_of(o2)->0, Box::new(ab), Box::new(SExpr::Const(c)));
    assert(spec_primary(t, 0) == (Some(SExpr::Const(a)), 1int));
    assert(spec_primary(t, 2) == (Some(SExpr::Const(b)), 3int));
    assert(spec_primary(t, 4) == (Some(SExpr::Const(c)), 5int));
    assert(binop_of(t[5]) is None);
    assert(spec_rest(t, abc, 5) == (Some(abc), 5int));
    assert(spec_rest(t, ab, 3) == (Some(abc), 5int));
    assert(spec_rest(t, SExpr::Const(a), 1) == (Some(abc), 5int));
    assert(spec_expr(t, 0) == (Some(abc), 5int));
    assert(spec_expr_stmt(t, 0) == (Some(SStmt::Expr(abc)), 6int));
    assert(spec_stmt(t, 0) == (Some(SStmt::Expr(abc)), 6int));
    assert(spec_program_from(t, 6) == Seq::<SStmt>::empty());
    assert(spec_program_from(t, 0) =~= seq![SStmt::Expr(abc)]);
}

/// The table `b` extends `a`: every name of `a` keeps its index (so its
/// offset), and when `a` lists each name once, so does `b`.
pub open spec fn table_extends(a: Seq<Seq<char>>, b: Seq<Seq<char>>) -> bool {
    &&& a.len() <= b.len()
    &&& forall|k: int| 0 <= k < a.len() ==> b[k] == a[k]
    &&& a.no_duplicates() ==> b.no_duplicates()
}

proof fn lemma_lookup_from_none(vars: Seq<Seq<char>>, name: Seq<char>, i: int)
    requires
        0 <= i,
        lookup_from(vars, name, i) is None,
    ensures
        forall|k: int| i <= k < vars.len() ==> vars[k] != name,
    decreases vars.len() - i,
{
    if i < vars.len() {
        lemma_lookup_from_none(vars, name, i + 1);
    }
}

/// `b` extends the text of `a`: it starts with it.
pub open spec fn text_extends(a: Seq<char>, b: Seq<char>) -> bool {
    &&& a.len() <= b.len()
    &&& forall|k: int| 0 <= k < a.len() ==> b[k] == a[k]
}

/// Lowering an expression only extends the variable table.
pub proof fn lemma_expr_table(e: SExpr, s: GenState)
    ensures
        spec_gen_expr(e, s) matches Some((s2, _)) ==> table_extends(s.vars, s2.vars)
            && text_extends(s.out, s2.out),
    decreases e, 1nat,
{
    match e {
        SExpr::Bin(op, l, r) => {
            lemma_expr_table(*l, s);
            if let Some((s1, _)) = spec_gen_expr(*l, s) {
                lemma_expr_table(*r, s1);
            }
        },
        SExpr::If(..) => {
            lemma_if_table(e, s);
        },
        _ => {},
    }
}

/// Lowering a conditional only extends the variable table and the text.
proof fn lemma_if_table(e: SExpr, s: GenState)
    requires
        e is If,
    ensures
        spec_gen_expr(e, s) matches Some((s2, _)) ==> table_extends(s.vars, s2.vars)
            && text_extends(s.out, s2.out),
    decreases e, 0nat,
{
    if let SExpr::If(c, then_b, else_b) = e {
        lemma_expr_table(*c, s);
        if let Some((s1, ct)) = spec_gen_expr(*c, s) {
            let l = s1.labels;
            let s2 = GenState { out: s1.out, vars: s1.vars, temps: s1.temps, labels: l + 3 };
            let s3 = emit(emit(emit(s2, bnez_line(ct, l)), jump_line(l + 1)), label_line(l));
            assert(text_extends(s.out, s3.out));
            assert(table_extends(s.vars, s3.vars));
            lemma_stmt_table(*then_b, s3);
            if let Some(s4) = spec_gen_stmt(*then_b, s3) {
                let s5 = emit(emit(s4, jump_line(l + 2)), label_line(l + 1));
                assert(text_extends(s.out, s5.out));
                assert(table_extends(s.vars, s5.vars));
                match else_b {
                    Some(b) => {
                        lemma_stmt_table(*b, s5);
                        if let Some(s7) = spec_gen_stmt(*b, s5) {
                            assert(text_extends(s.out, emit(s7, label_line(l + 2)).out));
                            assert(table_extends(s.vars, s7.vars));
                        }
                    },
                    None => {
                        assert(text_extends(s.out, emit(s5, label_line(l + 2)).out));
                    },
                }
            }
        }
    }
}

/// Lowering a statement only extends the variable table.
pub proof fn lemma_stmt_table(st: SStmt, s: GenState)
    ensures
        spec_gen_stmt(st, s) matches Some(s2) ==> table_extends(s.vars, s2.vars)
            && text_extends(s.out, s2.out),
    decreases st, 1nat,
{
    match st {
        SStmt::Assign(name, e) => {
            lemma_expr_table(e, s);
            if let Some((s1, _)) = spec_gen_expr(e, s) {
                if lookup(s1.vars, name) is None {
                    lemma_lookup_from_none(s1.vars, name, 0);
                    let v = s1.vars.push(name);
                    assert(s1.vars.no_duplicates() ==> v.no_duplicates()) by {
                        if s1.vars.no_duplicates() {
                            assert forall|i: int, j: int|
                                0 <= i < v.len() && 0 <= j < v.len() && i != j implies v[i]
                                != v[j] by {
                                if i < s1.vars.len() && j < s1.vars.len() {
                                } else if i == s1.vars.len() {
                                    assert(v[j] == s1.vars[j]);
                                } else {
                                    assert(v[i] == s1.vars[i]);
                                }
                            }
                        }
                    }
                }
            }
        },
        SStmt::Block(ss) => {
            lemma_stmts_table(ss, s);
        },
        SStmt::Expr(e) => {
            lemma_expr_table(e, s);
        },
    }
}

/// Lowering statements in order only extends the variable table.
pub proof fn lemma_stmts_table(ss: Seq<SStmt>, s: GenState)
    ensures
        spec_gen_stmts(ss, s) matches Some(s2) ==> table_extends(s.vars, s2.vars)
            && text_extends(s.out, s2.out),
    decreases ss, 1nat,
{
    if ss.len() > 0 {
        let prefix = ss.subrange(0, ss.len() - 1);
        lemma_stmts_table(prefix, s);
        if let Some(s1) = spec_gen_stmts(prefix, s) {
            lemma_stmt_table(ss[ss.len() - 1], s1);
        }
    }
}

/// Variables get stack slots in first-assignment order, and distinct names
/// never share one: after a program is lowered, its table lists each name
/// once (a name's offset is four times its index), and lowering more
/// statements never moves a name already in the table.
pub proof fn lemma_offsets_distinct(prog: Seq<SStmt>, more: Seq<SStmt>)
    ensures
        spec_gen_program(prog) matches Some(s) ==> s.vars.no_duplicates(),
        spec_gen_program(prog) matches Some(s) ==> (spec_gen_stmts(more, s) matches Some(s2)
            ==> table_extends(s.vars, s2.vars)),
{
    lemma_stmts_table(prog, initial_state());
    if let Some(s) = spec_gen_program(prog) {
        lemma_stmts_table(more, s);
    }
}

proof fn lemma_label_injective(a: nat, b: nat)
    requires
        a != b,
    ensures
        label_name(a) != label_name(b),
{
    lemma_decimal(a);
    lemma_decimal(b);
    if label_name(a) == label_name(b) {
        assert(label_name(a).subrange(1, label_name(a).len() as int) =~= decimal(a));
        assert(label_name(b).subrange(1, label_name(b).len() as int) =~= decimal(b));
    }
}

/// Lowering a conditional takes three distinct labels `L{a}`, `L{a+1}`,
/// `L{a+2}` from the counter, where `a` is the label counter once the
/// condition is lowered. After the condition's code comes a branch-if-nonzero
/// to the then-label, an unconditional jump to the else-label, and the
/// then-label; the then-branch ends with a jump to the end-label before the
/// else-label; and the end-label closes the whole text.
pub proof fn lemma_if_layout(
    c: SExpr,
    then_b: SStmt,
    else_b: Option<Box<SStmt>>,
    s: GenState,
)
    ensures
        spec_gen_expr(SExpr::If(Box::new(c), Box::new(then_b), else_b), s) matches Some((r, _))
            ==> ({
            let (s1, ct) = spec_gen_expr(c, s)->0;
            let a = s1.labels;
            let entry = s1.out + bnez_line(ct, a) + jump_line(a + 1) + label_line(a);
            &&& spec_gen_expr(c, s) is Some
            &&& label_name(a) != label_name(a + 1)
            &&& label_name(a + 1) != label_name(a + 2)
            &&& label_name(a) != label_name(a + 2)
            &&& text_extends(entry, r.out)
            &&& exists|body: Seq<char>|
                text_extends(entry + body + jump_line(a + 2) + label_line(a + 1), r.out)
            &&& label_line(a + 2).len() <= r.out.len()
            &&& r.out.subrange(r.out.len() - label_line(a + 2).len(), r.out.len() as int)
                == label_line(a + 2)
        }),
{
    let e = SExpr::If(Box::new(c), Box::new(then_b), else_b);
    if let Some((r, _)) = spec_gen_expr(e, s) {
        let (s1, ct) = spec_gen_expr(c, s)->0;
        let a = s1.labels;
        lemma_label_injective(a, a + 1);
        lemma_label_injective(a + 1, a + 2);
        lemma_label_injective(a, a + 2);
        let entry = s1.out + bnez_line(ct, a) + jump_line(a + 1) + label_line(a);
        let s2 = GenState { out: s1.out, vars: s1.vars, temps: s1.temps, labels: a + 3 };
        let s3 = emit(emit(emit(s2, bnez_line(ct, a)), jump_line(a + 1)), label_line(a));
        assert(s3.out =~= entry);
        lemma_stmt_table(then_b, s3);
        let s4 = spec_gen_stmt(then_b, s3)->0;
        let s5 = emit(emit(s4, jump_line(a + 2)), label_line(a + 1));
        let body = s4.out.subrange(entry.len() as int, s4.out.len() as int);
        assert(entry + body =~= s4.out);
        assert(s5.out =~= entry + body + jump_line(a + 2) + label_line(a + 1));
        let s7 = match else_b {
            Some(b) => {
                lemma_stmt_table(*b, s5);
                spec_gen_stmt(*b, s5)->0
            },
            None => s5,
        };
        assert(text_extends(s5.out, s7.out));
        assert(r.out == s7.out + label_line(a + 2));
        assert(r.out.subrange(r.out.len() - label_line(a + 2).len(), r.out.len() as int)
            =~= label_line(a + 2));
        assert(text_extends(entry + body + jump_line(a + 2) + label_line(a + 1), r.out));
        assert(text_extends(entry, r.out));
    }
}

} // verus!
