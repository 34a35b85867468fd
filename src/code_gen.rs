use vstd::prelude::*;
use crate::ast::{BinOp, Expr, SExpr, SStmt, Stmt};
use crate::parser::stmts;
use crate::text::{decimal, push_char, push_decimal, push_signed, push_text, signed_decimal};

verus! {

/// The state of one generation run: the text emitted so far, the variable
/// table in first-assignment order (a variable's stack offset is four times its
/// index), and the register and label counters.
pub struct GenState {
    pub out: Seq<char>,
    pub vars: Seq<Seq<char>>,
    pub temps: nat,
    pub labels: nat,
}

/// The largest value a counter or an offset may reach.
pub open spec fn counter_max() -> nat {
    u64::MAX as nat
}

/// The index of the first entry of `vars` at or after `i` that is `name`.
pub open spec fn lookup_from(vars: Seq<Seq<char>>, name: Seq<char>, i: int) -> Option<int>
    decreases vars.len() - i,
{
    if 0 <= i < vars.len() {
        if vars[i] == name {
            Some(i)
        } else {
            lookup_from(vars, name, i + 1)
        }
    } else {
        None
    }
}

/// The index of `name` in the variable table, if it was ever assigned.
pub open spec fn lookup(vars: Seq<Seq<char>>, name: Seq<char>) -> Option<int> {
    lookup_from(vars, name, 0)
}

pub open spec fn temp_name(n: nat) -> Seq<char> {
    seq!['t'] + decimal(n)
}

pub open spec fn label_name(n: nat) -> Seq<char> {
    seq!['L'] + decimal(n)
}

pub open spec fn mnemonic_of(op: BinOp) -> Seq<char> {
    match op {
        BinOp::Add => "add"@,
        BinOp::Sub => "sub"@,
        BinOp::Mul => "mul"@,
        BinOp::Div => "div"@,
        BinOp::Greater => "sgt"@,
    }
}

pub open spec fn li_line(t: nat, v: int) -> Seq<char> {
    "    li "@ + temp_name(t) + ", "@ + signed_decimal(v) + "\n"@
}

pub open spec fn lw_line(t: nat, offset: nat) -> Seq<char> {
    "    lw "@ + temp_name(t) + ", "@ + decimal(offset) + "(sp)\n"@
}

pub open spec fn sw_line(t: nat, offset: nat) -> Seq<char> {
    "    sw "@ + temp_name(t) + ", "@ + decimal(offset) + "(sp)\n"@
}

pub open spec fn op_line(op: BinOp, res: nat, l: nat, r: nat) -> Seq<char> {
    "    "@ + mnemonic_of(op) + " "@ + temp_name(res) + ", "@ + temp_name(l) + ", "@ + temp_name(r)
        + "\n"@
}

pub open spec fn bnez_line(t: nat, label: nat) -> Seq<char> {
    "    bnez "@ + temp_name(t) + ", "@ + label_name(label) + "\n"@
}

pub open spec fn jump_line(label: nat) -> Seq<char> {
    "    j "@ + label_name(label) + "\n"@
}

pub open spec fn label_line(label: nat) -> Seq<char> {
    label_name(label) + ":\n"@
}

pub open spec fn prologue() -> Seq<char> {
    ".text\n"@ + ".globl main\n"@ + "main:\n"@
}

pub open spec fn epilogue() -> Seq<char> {
    "    li a0, 0\n"@ + "    ret\n"@
}

pub open spec fn emit(s: GenState, line: Seq<char>) -> GenState {
    GenState { out: s.out + line, vars: s.vars, temps: s.temps, labels: s.labels }
}

/// Allocates a fresh register, the one numbered by the counter.
pub open spec fn fresh_temp(s: GenState) -> Option<(GenState, nat)> {
    if s.temps < counter_max() {
        Some((GenState { out: s.out, vars: s.vars, temps: s.temps + 1, labels: s.labels }, s.temps))
    } else {
        None
    }
}

/// Lowers an expression: the state after it and the register holding its
/// value, or `None` when it reads a variable that was never assigned (or a
/// counter would overflow).
pub open spec fn spec_gen_expr(e: SExpr, s: GenState) -> Option<(GenState, nat)>
    decreases e,
{
    match e {
        SExpr::Const(v) => match fresh_temp(s) {
            Some((s1, t)) => Some((emit(s1, li_line(t, v as int)), t)),
            None => None,
        },
        SExpr::Var(name) => match lookup(s.vars, name) {
            Some(k) => match fresh_temp(s) {
                Some((s1, t)) => Some((emit(s1, lw_line(t, (4 * k) as nat)), t)),
                None => None,
            },
            None => None,
        },
        SExpr::Bin(op, l, r) => match spec_gen_expr(*l, s) {
            Some((s1, a)) => match spec_gen_expr(*r, s1) {
                Some((s2, b)) => match fresh_temp(s2) {
                    Some((s3, t)) => Some((emit(s3, op_line(op, t, a, b)), t)),
                    None => None,
                },
                None => None,
            },
            None => None,
        },
        SExpr::If(c, then_b, else_b) => match spec_gen_expr(*c, s) {
            Some((s1, ct)) => if s1.labels + 3 <= counter_max() {
                let l = s1.labels;
                let s2 = GenState { out: s1.out, vars: s1.vars, temps: s1.temps, labels: l + 3 };
                let s3 = emit(emit(emit(s2, bnez_line(ct, l)), jump_line(l + 1)), label_line(l));
                match spec_gen_stmt(*then_b, s3) {
                    Some(s4) => {
                        let s5 = emit(emit(s4, jump_line(l + 2)), label_line(l + 1));
                        let s6 = match else_b {
                            Some(b) => spec_gen_stmt(*b, s5),
                            None => Some(s5),
                        };
                        match s6 {
                            Some(s7) => match fresh_temp(emit(s7, label_line(l + 2))) {
                                Some((s8, t)) => Some((s8, t)),
                                None => None,
                            },
                            None => None,
                        }
                    },
                    None => None,
                }
            } else {
                None
            },
            None => None,
        },
    }
}

/// Lowers a statement; `None` when it reads a variable never assigned.
pub open spec fn spec_gen_stmt(st: SStmt, s: GenState) -> Option<GenState>
    decreases st,
{
    match st {
        SStmt::Assign(name, e) => match spec_gen_expr(e, s) {
            Some((s1, t)) => match lookup(s1.vars, name) {
                Some(k) => Some(emit(s1, sw_line(t, (4 * k) as nat))),
                None => if 4 * s1.vars.len() <= counter_max() {
                    let s2 = GenState {
                        out: s1.out,
                        vars: s1.vars.push(name),
                        temps: s1.temps,
                        labels: s1.labels,
                    };
                    Some(emit(s2, sw_line(t, 4 * s1.vars.len())))
                } else {
                    None
                },
            },
            None => None,
        },
        SStmt::Block(ss) => spec_gen_stmts(ss, s),
        SStmt::Expr(e) => match spec_gen_expr(e, s) {
            Some((s1, _)) => Some(s1),
            None => None,
        },
    }
}

/// Lowers statements in order.
pub open spec fn spec_gen_stmts(ss: Seq<SStmt>, s: GenState) -> Option<GenState>
    decreases ss,
{
    if ss.len() == 0 {
        Some(s)
    } else {
        match spec_gen_stmts(ss.subrange(0, ss.len() - 1), s) {
            Some(s1) => spec_gen_stmt(ss[ss.len() - 1], s1),
            None => None,
        }
    }
}

/// The state a generation run starts from: the prologue emitted, no variables.
pub open spec fn initial_state() -> GenState {
    GenState { out: prologue(), vars: Seq::empty(), temps: 0, labels: 0 }
}

/// The final state of lowering a whole program.
pub open spec fn spec_gen_program(prog: Seq<SStmt>) -> Option<GenState> {
    spec_gen_stmts(prog, initial_state())
}

/// The assembly text for a whole program: prologue, each statement in order,
/// epilogue; `None` when the program reads a variable before assigning it.
pub open spec fn spec_generate(prog: Seq<SStmt>) -> Option<Seq<char>> {
    match spec_gen_program(prog) {
        Some(s) => Some(s.out + epilogue()),
        None => None,
    }
}

/// A failure while lowering a prefix of the statements fails them all.
proof fn lemma_stmts_fail(ss: Seq<SStmt>, s: GenState, k: int)
    requires
        0 <= k <= ss.len(),
        spec_gen_stmts(ss.subrange(0, k), s) is None,
    ensures
        spec_gen_stmts(ss, s) is None,
    decreases ss.len() - k,
{
    if k < ss.len() {
        assert(ss.subrange(0, k + 1).subrange(0, k) =~= ss.subrange(0, k));
        lemma_stmts_fail(ss, s, k + 1);
    } else {
        assert(ss.subrange(0, k) =~= ss);
    }
}

proof fn lemma_lookup_from_bounds(vars: Seq<Seq<char>>, name: Seq<char>, i: int)
    requires
        0 <= i,
    ensures
        lookup_from(vars, name, i) is Some ==> i <= lookup_from(vars, name, i)->0 < vars.len(),
    decreases vars.len() - i,
{
    if 0 <= i < vars.len() && vars[i] != name {
        lemma_lookup_from_bounds(vars, name, i + 1);
    }
}

fn push_temp(out: &mut String, t: u64)
    ensures
        final(out)@ == old(out)@ + temp_name(t as nat),
{
    push_char(out, 't');
    push_decimal(out, t);
    assert(out@ =~= old(out)@ + temp_name(t as nat));
}

fn push_label(out: &mut String, l: u64)
    ensures
        final(out)@ == old(out)@ + label_name(l as nat),
{
    push_char(out, 'L');
    push_decimal(out, l);
    assert(out@ =~= old(out)@ + label_name(l as nat));
}

fn mnemonic(op: BinOp) -> (r: &'static str)
    ensures
        r@ == mnemonic_of(op),
{
    match op {
        BinOp::Add => "add",
        BinOp::Sub => "sub",
        BinOp::Mul => "mul",
        BinOp::Div => "div",
        BinOp::Greater => "sgt",
    }
}

/// The generator's running state; see `GenState` for its model.
struct CodeGenerator {
    output: String,
    variables: Vec<String>,
    temp_counter: u64,
    label_counter: u64,
}

impl View for CodeGenerator {
    type V = GenState;

    closed spec fn view(&self) -> GenState {
        GenState {
            out: self.output@,
            vars: self.variables@.map_values(|v: String| v@),
            temps: self.temp_counter as nat,
            labels: self.label_counter as nat,
        }
    }
}

impl CodeGenerator {
    /// Every variable's offset fits in 64 bits.
    closed spec fn wf(&self) -> bool {
        4 * self.variables.len() <= counter_max() + 4
    }

    fn new() -> (g: Self)
        ensures
            g@ == (GenState { out: Seq::empty(), vars: Seq::empty(), temps: 0, labels: 0 }),
            g.wf(),
    {
        let g = CodeGenerator {
            output: String::new(),
            variables: Vec::new(),
            temp_counter: 0,
            label_counter: 0,
        };
        assert(g@.vars =~= Seq::<Seq<char>>::empty());
        g
    }

    fn new_temp(&mut self) -> (r: Option<u64>)
        requires
            old(self).wf(),
        ensures
            final(self).wf(),
            match fresh_temp(old(self)@) {
                Some((s, t)) => r == Some(t as u64) && final(self)@ == s,
                None => r is None && final(self)@ == old(self)@,
            },
    {
        if self.temp_counter == u64::MAX {
            return None;
        }
        let temp = self.temp_counter;
        self.temp_counter = temp + 1;
        Some(temp)
    }

    fn new_label(&mut self) -> (r: u64)
        requires
            old(self).label_counter < u64::MAX,
            old(self).wf(),
        ensures
            final(self).wf(),
            r as nat == old(self)@.labels,
            final(self)@ == (GenState {
                out: old(self)@.out,
                vars: old(self)@.vars,
                temps: old(self)@.temps,
                labels: old(self)@.labels + 1,
            }),
    {
        let label = self.label_counter;
        self.label_counter = label + 1;
        label
    }

    /// The index of `name` in the variable table.
    fn find_variable(&self, name: &String) -> (r: Option<usize>)
        ensures
            match lookup(self@.vars, name@) {
                Some(k) => r == Some(k as usize) && 0 <= k < self.variables.len(),
                None => r is None,
            },
    {
        let mut i: usize = 0;
        proof {
            lemma_lookup_from_bounds(self@.vars, name@, 0);
        }
        while i < self.variables.len()
            invariant
                i <= self.variables.len(),
                lookup(self@.vars, name@) == lookup_from(self@.vars, name@, i as int),
            decreases self.variables.len() - i,
        {
            if self.variables[i] == *name {
                return Some(i);
            }
            i = i + 1;
        }
        None
    }

    fn emit_li(&mut self, t: u64, v: i32)
        ensures
            final(self)@ == emit(old(self)@, li_line(t as nat, v as int)),
            final(self).wf() == old(self).wf(),
    {
        push_text(&mut self.output, "    li ");
        push_temp(&mut self.output, t);
        push_text(&mut self.output, ", ");
        push_signed(&mut self.output, v);
        push_text(&mut self.output, "\n");
        assert(self@.out =~= old(self)@.out + li_line(t as nat, v as int));
    }

    fn emit_memory(&mut self, store: bool, t: u64, offset: u64)
        ensures
            final(self)@ == emit(
                old(self)@,
                if store {
                    sw_line(t as nat, offset as nat)
                } else {
                    lw_line(t as nat, offset as nat)
                },
            ),
            final(self).wf() == old(self).wf(),
    {
        if store {
            push_text(&mut self.output, "    sw ");
        } else {
            push_text(&mut self.output, "    lw ");
        }
        push_temp(&mut self.output, t);
        push_text(&mut self.output, ", ");
        push_decimal(&mut self.output, offset);
        push_text(&mut self.output, "(sp)\n");
        assert(self@.out =~= old(self)@.out + (if store {
            sw_line(t as nat, offset as nat)
        } else {
            lw_line(t as nat, offset as nat)
        }));
    }

    fn emit_op(&mut self, op: BinOp, res: u64, l: u64, r: u64)
        ensures
            final(self)@ == emit(old(self)@, op_line(op, res as nat, l as nat, r as nat)),
            final(self).wf() == old(self).wf(),
    {
        push_text(&mut self.output, "    ");
        push_text(&mut self.output, mnemonic(op));
        push_text(&mut self.output, " ");
        push_temp(&mut self.output, res);
        push_text(&mut self.output, ", ");
        push_temp(&mut self.output, l);
        push_text(&mut self.output, ", ");
        push_temp(&mut self.output, r);
        push_text(&mut self.output, "\n");
        assert(self@.out =~= old(self)@.out + op_line(op, res as nat, l as nat, r as nat));
    }

    fn emit_bnez(&mut self, t: u64, label: u64)
        ensures
            final(self)@ == emit(old(self)@, bnez_line(t as nat, label as nat)),
            final(self).wf() == old(self).wf(),
    {
        push_text(&mut self.output, "    bnez ");
        push_temp(&mut self.output, t);
        push_text(&mut self.output, ", ");
        push_label(&mut self.output, label);
        push_text(&mut self.output, "\n");
        assert(self@.out =~= old(self)@.out + bnez_line(t as nat, label as nat));
    }

    fn emit_jump(&mut self, label: u64)
        ensures
            final(self)@ == emit(old(self)@, jump_line(label as nat)),
            final(self).wf() == old(self).wf(),
    {
        push_text(&mut self.output, "    j ");
        push_label(&mut self.output, label);
        push_text(&mut self.output, "\n");
        assert(self@.out =~= old(self)@.out + jump_line(label as nat));
    }

    fn emit_label(&mut self, label: u64)
        ensures
            final(self)@ == emit(old(self)@, label_line(label as nat)),
            final(self).wf() == old(self).wf(),
    {
        push_label(&mut self.output, label);
        push_text(&mut self.output, ":\n");
        assert(self@.out =~= old(self)@.out + label_line(label as nat));
    }

    /// Lowers a whole program from a fresh state.
    fn generate(&mut self, ast: Vec<Stmt>) -> (r: Option<String>)
        requires
            old(self)@ == (GenState { out: Seq::empty(), vars: Seq::empty(), temps: 0, labels: 0 }),
            old(self).wf(),
        ensures
            match spec_generate(stmts(ast@)) {
                Some(text) => r is Some && r->0@ == text,
                None => r is None,
            },
            r is Some ==> final(self)@.out == r->0@,
    {
        let ghost prog = stmts(ast@);
        push_text(&mut self.output, ".text\n");
        push_text(&mut self.output, ".globl main\n");
        push_text(&mut self.output, "main:\n");
        assert(self@.out =~= prologue());
        assert(self@ == initial_state());
        assert(prog.subrange(0, 0) =~= Seq::<SStmt>::empty());
        let mut i: usize = 0;
        while i < ast.len()
            invariant
                self.wf(),
                prog == stmts(ast@),
                i <= ast.len(),
                spec_gen_stmts(prog.subrange(0, i as int), initial_state()) == Some(self@),
            decreases ast.len() - i,
        {
            assert(prog.subrange(0, i + 1).subrange(0, i as int) =~= prog.subrange(0, i as int));
            assert(prog.subrange(0, i + 1)[i as int] == ast@[i as int]@);
            if !self.generate_stmt(&ast[i]) {
                proof {
                    lemma_stmts_fail(prog, initial_state(), i + 1);
                }
                return None;
            }
            i = i + 1;
        }
        assert(prog.subrange(0, i as int) =~= prog);
        push_text(&mut self.output, "    li a0, 0\n");
        push_text(&mut self.output, "    ret\n");
        assert(self@.out =~= spec_gen_program(prog)->0.out + epilogue());
        Some(self.output.clone())
    }

    fn generate_binary(&mut self, op: BinOp, left: u64, right: u64) -> (r: Option<u64>)
        requires
            old(self).wf(),
        ensures
            final(self).wf(),
            match fresh_temp(old(self)@) {
                Some((s, t)) => r == Some(t as u64) && final(self)@ == emit(
                    s,
                    op_line(op, t, left as nat, right as nat),
                ),
                None => r is None,
            },
    {
        let result = match self.new_temp() {
            Some(t) => t,
            None => {
                return None;
            },
        };
        self.emit_op(op, result, left, right);
        Some(result)
    }

    fn generate_expr(&mut self, expr: &Expr) -> (r: Option<u64>)
        requires
            old(self).wf(),
        ensures
            final(self).wf(),
            match spec_gen_expr(expr@, old(self)@) {
                Some((s, t)) => r == Some(t as u64) && final(self)@ == s,
                None => r is None,
            },
        decreases expr, 1nat,
    {
        match expr {
            Expr::Const(value) => {
                let temp = match self.new_temp() {
                    Some(t) => t,
                    None => {
                        return None;
                    },
                };
                self.emit_li(temp, *value);
                Some(temp)
            },
            Expr::Var(name) => {
                let k = match self.find_variable(name) {
                    Some(k) => k,
                    None => {
                        return None;
                    },
                };
                let temp = match self.new_temp() {
                    Some(t) => t,
                    None => {
                        return None;
                    },
                };
                let offset = k as u64 * 4;
                self.emit_memory(false, temp, offset);
                Some(temp)
            },
            Expr::Add(..) | Expr::Sub(..) | Expr::Mul(..) | Expr::Div(..) | Expr::Greater(..) => {
                self.generate_binary_expr(expr)
            },
            Expr::If(..) => self.generate_if(expr),
        }
    }

    #[verifier::rlimit(40)]
    fn generate_binary_expr(&mut self, expr: &Expr) -> (r: Option<u64>)
        requires
            old(self).wf(),
            expr@ is Bin,
        ensures
            final(self).wf(),
            match spec_gen_expr(expr@, old(self)@) {
                Some((s, t)) => r == Some(t as u64) && final(self)@ == s,
                None => r is None,
            },
        decreases expr, 0nat,
    {
        let (op, left, right) = match expr {
            Expr::Add(l, r) => (BinOp::Add, l, r),
            Expr::Sub(l, r) => (BinOp::Sub, l, r),
            Expr::Mul(l, r) => (BinOp::Mul, l, r),
            Expr::Div(l, r) => (BinOp::Div, l, r),
            Expr::Greater(l, r) => (BinOp::Greater, l, r),
            _ => {
                return None;
            },
        };
        assert(expr@ == SExpr::Bin(op, Box::new(left@), Box::new(right@)));
        let left_temp = match self.generate_expr(left) {
            Some(t) => t,
            None => {
                return None;
            },
        };
        let right_temp = match self.generate_expr(right) {
            Some(t) => t,
            None => {
                return None;
            },
        };
        self.generate_binary(op, left_temp, right_temp)
    }

    fn generate_if(&mut self, expr: &Expr) -> (r: Option<u64>)
        requires
            old(self).wf(),
            *expr is If,
        ensures
            final(self).wf(),
            match spec_gen_expr(expr@, old(self)@) {
                Some((s, t)) => r == Some(t as u64) && final(self)@ == s,
                None => r is None,
            },
        decreases expr, 0nat,
    {
        let (condition, then_branch, else_branch) = match expr {
            Expr::If(c, t, e) => (c, t, e),
            _ => {
                return None;
            },
        };
        let condition_temp = match self.generate_expr(condition) {
            Some(t) => t,
            None => {
                return None;
            },
        };
        if self.label_counter > u64::MAX - 3 {
            return None;
        }
        let then_label = self.new_label();
        let else_label = self.new_label();
        let end_label = self.new_label();
        self.emit_bnez(condition_temp, then_label);
        self.emit_jump(else_label);
        self.emit_label(then_label);
        if !self.generate_stmt(then_branch) {
            return None;
        }
        self.emit_jump(end_label);
        self.emit_label(else_label);
        match else_branch {
            Some(b) => {
                if !self.generate_stmt(b) {
                    return None;
                }
            },
            None => {},
        }
        self.emit_label(end_label);
        self.new_temp()
    }

    fn generate_stmt(&mut self, stmt: &Stmt) -> (ok: bool)
        requires
            old(self).wf(),
        ensures
            final(self).wf(),
            match spec_gen_stmt(stmt@, old(self)@) {
                Some(s) => ok && final(self)@ == s,
                None => !ok,
            },
        decreases stmt, 1nat,
    {
        match stmt {
            Stmt::Assign(name, expr) => {
                let temp = match self.generate_expr(expr) {
                    Some(t) => t,
                    None => {
                        return false;
                    },
                };
                let offset = match self.find_variable(name) {
                    Some(k) => k as u64 * 4,
                    None => {
                        let len = self.variables.len();
                        if len as u64 > u64::MAX / 4 {
                            return false;
                        }
                        let ghost before = self@;
                        self.variables.push(name.clone());
                        assert(self@.vars =~= before.vars.push(name@));
                        len as u64 * 4
                    },
                };
                self.emit_memory(true, temp, offset);
                true
            },
            Stmt::Block(statements) => {
                let ghost ss = stmt@->Block_0;
                let ghost s0 = self@;
                let mut i: usize = 0;
                assert(ss.subrange(0, 0) =~= Seq::<SStmt>::empty());
                while i < statements.len()
                    invariant
                        self.wf(),
                        s0 == old(self)@,
                        *stmt == Stmt::Block(*statements),
                        stmt@ == SStmt::Block(ss),
                        i <= statements.len(),
                        ss.len() == statements.len(),
                        forall|k: int| 0 <= k < ss.len() ==> ss[k] == statements@[k]@,
                        spec_gen_stmts(ss.subrange(0, i as int), s0) == Some(self@),
                    decreases statements.len() - i,
                {
                    assert(ss.subrange(0, i + 1).subrange(0, i as int) =~= ss.subrange(0, i as int));
                    assert(ss.subrange(0, i + 1)[i as int] == statements@[i as int]@);
                    let ghost before = self@;
                    proof {
                        vstd::std_specs::vec::axiom_vec_index_decreases(*statements, i as int);
                        assert(decreases_to!(*stmt => *statements));
                        assert(decreases_to!(*stmt => statements[i as int]));
                    }
                    if !self.generate_stmt(&statements[i]) {
                        assert(spec_gen_stmts(ss.subrange(0, i as int), s0) == Some(before));
                        assert(spec_gen_stmt(ss[i as int], before) is None);
                        proof {
                            lemma_stmts_fail(ss, s0, i + 1);
                        }
                        return false;
                    }
                    i = i + 1;
                }
                assert(ss.subrange(0, i as int) =~= ss);
                true
            },
            Stmt::Expr(expr) => {
                match self.generate_expr(expr) {
                    Some(_) => true,
                    None => false,
                }
            },
        }
    }
}

/// Lowers a program to assembly text, or gives `None` when the program reads a
/// variable that no earlier assignment declared (or a counter would overflow).
pub fn try_generate(ast: Vec<Stmt>) -> (r: Option<String>)
    ensures
        match spec_generate(stmts(ast@)) {
            Some(text) => r is Some && r->0@ == text,
            None => r is None,
        },
{
    let mut generator = CodeGenerator::new();
    generator.generate(ast)
}

/// Lowers a program to assembly text: prologue, each statement in order,
/// epilogue. Reading a variable before any assignment to it is fatal, so the
/// program must not do so.
pub fn generate(ast: Vec<Stmt>) -> (r: String)
    requires
        spec_generate(stmts(ast@)) is Some,
    ensures
        r@ == spec_generate(stmts(ast@))->0,
{
    match try_generate(ast) {
        Some(text) => text,
        None => String::new(),
    }
}

} // verus!
