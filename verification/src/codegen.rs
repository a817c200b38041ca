//! The code generator: abstract syntax tree to x86-64 assembly text
//! (Intel syntax), as a stack-machine program. Every expression leaves
//! exactly one value on the runtime stack; operators pop their operands
//! and push their result. Short-circuit `||` and `&&` branch over the
//! right operand to freshly allocated labels numbered by a strictly
//! monotonic counter.
//!
//! The `spec_gen_*` functions are the mathematical description of the
//! emitted text; [`gen_program`] is proved to return exactly their value.

use vstd::prelude::*;

use crate::data::{BinOpKind, Defn, DefnView, Expr, Stmt, UnOpKind};
use crate::decimal::{dec_seq, u64_to_string};

verus! {

/// The number of nodes of an expression tree.
pub open spec fn expr_size(e: Expr) -> nat
    decreases e,
{
    match e {
        Expr::BinOp { kind, lhs, rhs } => 1 + expr_size(*lhs) + expr_size(*rhs),
        Expr::UnOp { kind, operand } => 1 + expr_size(*operand),
        Expr::Num(_) => 1,
    }
}

/// How many labels the given operator allocates: one for each
/// short-circuit operator, none otherwise.
pub open spec fn binop_labels(kind: BinOpKind) -> nat {
    match kind {
        BinOpKind::LogicOr => 1,
        BinOpKind::LogicAnd => 1,
        _ => 0,
    }
}

/// How many labels code generation for `e` allocates.
pub open spec fn expr_labels(e: Expr) -> nat
    decreases e,
{
    match e {
        Expr::BinOp { kind, lhs, rhs } => binop_labels(kind) + expr_labels(*lhs) + expr_labels(
            *rhs,
        ),
        Expr::UnOp { kind, operand } => expr_labels(*operand),
        Expr::Num(_) => 0,
    }
}

/// How many labels code generation for one statement allocates.
pub open spec fn stmt_labels(s: Stmt) -> nat {
    match s {
        Stmt::ExprStmt(e) => expr_labels(e),
        Stmt::Return(e) => expr_labels(e),
    }
}

/// How many labels code generation for a statement sequence allocates.
pub open spec fn stmts_labels(ss: Seq<Stmt>) -> nat
    decreases ss.len(),
{
    if ss.len() == 0 {
        0
    } else {
        stmt_labels(ss[0]) + stmts_labels(ss.drop_first())
    }
}

/// How many labels code generation for a whole definition allocates.
pub open spec fn defn_labels(d: DefnView) -> nat {
    stmts_labels(d.stmts)
}

/// The `push` of a number literal.
pub open spec fn push_num_line(v: u32) -> Seq<char> {
    "    push "@ + dec_seq(v as nat) + "\n"@
}

/// The conditional jump past the right operand of `||`.
pub open spec fn jne_line(l: nat) -> Seq<char> {
    "    jne .L"@ + dec_seq(l) + "\n"@
}

/// The conditional jump past the right operand of `&&`.
pub open spec fn je_line(l: nat) -> Seq<char> {
    "    je .L"@ + dec_seq(l) + "\n"@
}

/// A label placement, unindented and colon-terminated.
pub open spec fn label_line(l: nat) -> Seq<char> {
    ".L"@ + dec_seq(l) + ":\n"@
}

/// The instructions for a non-short-circuit binary operator, after both
/// operands were popped into `rdi` and `rax`; includes the final push.
pub open spec fn binop_lines(kind: BinOpKind) -> Seq<char> {
    match kind {
        BinOpKind::Eq => "    cmp rax, rdi\n"@ + "    sete al\n"@ + "    movzb rax, al\n"@
            + "    push rax\n"@,
        BinOpKind::Neq => "    cmp rax, rdi\n"@ + "    setne al\n"@ + "    movzb rax, al\n"@
            + "    push rax\n"@,
        BinOpKind::Leq => "    cmp rax, rdi\n"@ + "    setle al\n"@ + "    movzb rax, al\n"@
            + "    push rax\n"@,
        BinOpKind::Lt => "    cmp rax, rdi\n"@ + "    setl al\n"@ + "    movzb rax, al\n"@
            + "    push rax\n"@,
        BinOpKind::Add => "    add rax, rdi\n"@ + "    push rax\n"@,
        BinOpKind::Sub => "    sub rax, rdi\n"@ + "    push rax\n"@,
        BinOpKind::Mul => "    imul rax, rdi\n"@ + "    push rax\n"@,
        BinOpKind::Div => "    cqo\n"@ + "    idiv rdi\n"@ + "    push rax\n"@,
        BinOpKind::Mod => "    cqo\n"@ + "    idiv rdi\n"@ + "    push rdx\n"@,
        _ => Seq::<char>::empty(),
    }
}

/// The text emitted for an expression when the next free label is `l`.
/// Emission order is one post-order traversal; a short-circuit operator
/// allocates its label before its operands are generated.
pub open spec fn spec_gen_expr(e: Expr, l: nat) -> Seq<char>
    decreases e,
{
    match e {
        Expr::Num(v) => push_num_line(v),
        Expr::UnOp { kind, operand } => spec_gen_expr(*operand, l) + "    pop rax\n"@ + (match kind {
            UnOpKind::LogicNot => "    xor rax, 1\n"@,
            UnOpKind::Neg => "    neg rax\n"@,
        }) + "    push rax\n"@,
        Expr::BinOp { kind, lhs, rhs } => match kind {
            BinOpKind::LogicOr => spec_gen_expr(*lhs, (l + 1) as nat) + "    pop rax\n"@
                + "    cmp rax, 0\n"@ + jne_line(l) + spec_gen_expr(
                *rhs,
                l + 1 + expr_labels(*lhs),
            ) + "    pop rax\n"@ + label_line(l) + "    push rax\n"@,
            BinOpKind::LogicAnd => spec_gen_expr(*lhs, (l + 1) as nat) + "    pop rax\n"@
                + "    cmp rax, 0\n"@ + je_line(l) + spec_gen_expr(
                *rhs,
                l + 1 + expr_labels(*lhs),
            ) + "    pop rax\n"@ + label_line(l) + "    push rax\n"@,
            _ => spec_gen_expr(*lhs, l) + spec_gen_expr(*rhs, l + expr_labels(*lhs))
                + "    pop rdi\n"@ + "    pop rax\n"@ + binop_lines(kind),
        },
    }
}

/// The text emitted for one statement: a `return` pops into the return
/// register and returns at once; an expression statement discards its
/// value.
pub open spec fn spec_gen_stmt(s: Stmt, l: nat) -> Seq<char> {
    match s {
        Stmt::Return(e) => spec_gen_expr(e, l) + "    pop rax\n"@ + "    ret\n"@,
        Stmt::ExprStmt(e) => spec_gen_expr(e, l) + "    pop rax\n"@,
    }
}

/// The text emitted for a statement sequence, in order, threading the
/// label counter through.
pub open spec fn spec_gen_stmts(ss: Seq<Stmt>, l: nat) -> Seq<char>
    decreases ss.len(),
{
    if ss.len() == 0 {
        Seq::<char>::empty()
    } else {
        spec_gen_stmt(ss[0], l) + spec_gen_stmts(ss.drop_first(), l + stmt_labels(ss[0]))
    }
}

/// The text emitted for one function definition: its label, its
/// statements, and the closing `ret`.
pub open spec fn spec_gen_func_defn(d: DefnView, l: nat) -> Seq<char> {
    d.name + ":\n"@ + spec_gen_stmts(d.stmts, l) + "    ret\n"@
}

/// The whole program text: the syntax-mode directive, the global-entry
/// directive, and the single function, with the label counter starting
/// at zero.
pub open spec fn spec_gen_program(d: DefnView) -> Seq<char> {
    ".intel_syntax noprefix\n"@ + ".global main\n"@ + spec_gen_func_defn(d, 0)
}

/// Every expression has at least one node.
proof fn lemma_expr_size_pos(e: Expr)
    ensures
        expr_size(e) >= 1,
{
}

/// Generating a statement sequence extended by one statement appends
/// that statement's text, generated at the counter the earlier
/// statements left behind.
proof fn lemma_gen_stmts_push(ss: Seq<Stmt>, s: Stmt, l: nat)
    ensures
        stmts_labels(ss.push(s)) == stmts_labels(ss) + stmt_labels(s),
        spec_gen_stmts(ss.push(s), l) == spec_gen_stmts(ss, l) + spec_gen_stmt(
            s,
            l + stmts_labels(ss),
        ),
    decreases ss.len(),
{
    reveal_with_fuel(stmts_labels, 3);
    reveal_with_fuel(spec_gen_stmts, 3);
    if ss.len() == 0 {
        assert(ss.push(s)[0] == s);
        assert(ss.push(s).drop_first() =~= Seq::<Stmt>::empty());
        assert(spec_gen_stmts(ss.push(s), l) =~= spec_gen_stmt(s, l));
        assert(spec_gen_stmts(ss, l) + spec_gen_stmt(s, l + stmts_labels(ss)) =~= spec_gen_stmt(
            s,
            l,
        ));
    } else {
        assert(ss.push(s)[0] == ss[0]);
        assert(ss.push(s).drop_first() =~= ss.drop_first().push(s));
        lemma_gen_stmts_push(ss.drop_first(), s, (l + stmt_labels(ss[0])) as nat);
        assert(spec_gen_stmts(ss.push(s), l) == spec_gen_stmt(ss[0], l) + spec_gen_stmts(
            ss.drop_first().push(s),
            l + stmt_labels(ss[0]),
        ));
        assert(spec_gen_stmt(ss[0], l) + (spec_gen_stmts(ss.drop_first(), l + stmt_labels(ss[0]))
            + spec_gen_stmt(s, l + stmt_labels(ss[0]) + stmts_labels(ss.drop_first()))) =~= (
        spec_gen_stmt(ss[0], l) + spec_gen_stmts(ss.drop_first(), l + stmt_labels(ss[0])))
            + spec_gen_stmt(s, l + stmts_labels(ss)));
    }
}

/// Generates the whole assembly text for one function definition.
pub fn gen_program(defn: Defn) -> (r: String)
    requires
        defn_labels(defn@) <= usize::MAX,
    ensures
        r@ == spec_gen_program(defn@),
{
    let ghost d = defn@;
    let mut codegen = CodeGen::new();
    codegen.gen_program(defn);
    proof {
        assert(codegen.out@ =~= spec_gen_program(d));
    }
    codegen.out
}

/// Owns the output text being built and the monotonic label counter,
/// threaded through the whole generation pass.
struct CodeGen {
    out: String,
    label: usize,
}

impl CodeGen {
    fn new() -> (c: Self)
        ensures
            c.out@ == Seq::<char>::empty(),
            c.label == 0,
    {
        Self { out: String::new(), label: 0 }
    }

    fn gen_program(&mut self, defn: Defn)
        requires
            old(self).label + defn_labels(defn@) <= usize::MAX,
        ensures
            final(self).out@ == old(self).out@ + ".intel_syntax noprefix\n"@ + ".global main\n"@
                + spec_gen_func_defn(defn@, old(self).label as nat),
    {
        self.out.append(".intel_syntax noprefix\n");
        self.out.append(".global main\n");
        self.gen_func_defn(defn);
    }

    fn gen_func_defn(&mut self, defn: Defn)
        requires
            old(self).label + defn_labels(defn@) <= usize::MAX,
        ensures
            final(self).out@ == old(self).out@ + spec_gen_func_defn(defn@, old(self).label as nat),
            final(self).label == old(self).label + defn_labels(defn@),
    {
        let ghost d = defn@;
        let ghost l0 = old(self).label as nat;
        let (name, stmts) = match defn {
            Defn::FuncDef { name, stmts } => (name, stmts),
        };
        self.out.append(name.as_str());
        self.out.append(":\n");
        let ghost base = self.out@;
        let n = stmts.len();
        let mut i: usize = 0;
        proof {
            assert(d.stmts.take(0) =~= Seq::<Stmt>::empty());
            assert(d.stmts.skip(0) =~= d.stmts);
            assert(base + Seq::<char>::empty() =~= base);
        }
        loop
            invariant
                d == defn@,
                l0 == old(self).label,
                base == old(self).out@ + d.name + ":\n"@,
                n == stmts@.len(),
                stmts@ == d.stmts,
                i <= n,
                self.out@ == base + spec_gen_stmts(d.stmts.take(i as int), l0),
                self.label == l0 + stmts_labels(d.stmts.take(i as int)),
                self.label + stmts_labels(d.stmts.skip(i as int)) <= usize::MAX,
            ensures
                i == n,
                self.out@ == base + spec_gen_stmts(d.stmts.take(i as int), l0),
                self.label == l0 + stmts_labels(d.stmts.take(i as int)),
            decreases n - i,
        {
            if i >= n {
                break ;
            }
            proof {
                lemma_stmts_labels_split(d.stmts, i as int);
            }
            let ghost taken = d.stmts.take(i as int);
            self.gen_stmt(&stmts[i]);
            proof {
                lemma_gen_stmts_push(taken, d.stmts[i as int], l0);
                assert(d.stmts.take(i + 1) =~= taken.push(d.stmts[i as int]));
            }
            i = i + 1;
        }
        self.out.append("    ret\n");
        proof {
            assert(d.stmts.take(n as int) =~= d.stmts);
            assert(self.out@ =~= old(self).out@ + spec_gen_func_defn(d, l0));
        }
    }

    fn gen_stmt(&mut self, stmt: &Stmt)
        requires
            old(self).label + stmt_labels(*stmt) <= usize::MAX,
        ensures
            final(self).out@ == old(self).out@ + spec_gen_stmt(*stmt, old(self).label as nat),
            final(self).label == old(self).label + stmt_labels(*stmt),
    {
        match stmt {
            Stmt::Return(expr) => {
                self.gen_expr(expr);
                self.out.append("    pop rax\n");
                self.out.append("    ret\n");
                proof {
                    assert(self.out@ =~= old(self).out@ + spec_gen_stmt(
                        *stmt,
                        old(self).label as nat,
                    ));
                }
            },
            Stmt::ExprStmt(expr) => {
                self.gen_expr(expr);
                self.out.append("    pop rax\n");
                proof {
                    assert(self.out@ =~= old(self).out@ + spec_gen_stmt(
                        *stmt,
                        old(self).label as nat,
                    ));
                }
            },
        }
    }

    fn gen_expr(&mut self, expr: &Expr)
        requires
            old(self).label + expr_labels(*expr) <= usize::MAX,
        ensures
            final(self).out@ == old(self).out@ + spec_gen_expr(*expr, old(self).label as nat),
            final(self).label == old(self).label + expr_labels(*expr),
        decreases expr_size(*expr), 0int,
    {
        match expr {
            Expr::BinOp { kind, lhs, rhs } => {
                self.gen_binary(*kind, lhs, rhs);
            },
            Expr::UnOp { kind, operand } => {
                self.gen_unary(*kind, operand);
            },
            Expr::Num(val) => {
                self.out.append("    push ");
                let num = u64_to_string(*val as u64);
                self.out.append(num.as_str());
                self.out.append("\n");
                proof {
                    assert(self.out@ =~= old(self).out@ + push_num_line(*val));
                }
            },
        }
    }

    #[verifier::rlimit(100)]
    fn gen_binary(&mut self, kind: BinOpKind, lhs: &Expr, rhs: &Expr)
        requires
            old(self).label + binop_labels(kind) + expr_labels(*lhs) + expr_labels(*rhs)
                <= usize::MAX,
        ensures
            final(self).out@ == old(self).out@ + spec_gen_expr(
                Expr::BinOp { kind, lhs: Box::new(*lhs), rhs: Box::new(*rhs) },
                old(self).label as nat,
            ),
            final(self).label == old(self).label + binop_labels(kind) + expr_labels(*lhs)
                + expr_labels(*rhs),
        decreases expr_size(*lhs) + expr_size(*rhs), 1int,
    {
        proof {
            lemma_expr_size_pos(*lhs);
            lemma_expr_size_pos(*rhs);
        }
        let ghost e = Expr::BinOp { kind, lhs: Box::new(*lhs), rhs: Box::new(*rhs) };
        let ghost l0 = old(self).label as nat;
        match kind {
            BinOpKind::LogicOr => {
                let label = self.get_label();
                let num = u64_to_string(label as u64);
                self.gen_expr(lhs);
                self.out.append("    pop rax\n");
                self.out.append("    cmp rax, 0\n");
                self.out.append("    jne .L");
                self.out.append(num.as_str());
                self.out.append("\n");
                self.gen_expr(rhs);
                self.out.append("    pop rax\n");
                self.out.append(".L");
                self.out.append(num.as_str());
                self.out.append(":\n");
                self.out.append("    push rax\n");
                proof {
                    assert(self.out@ =~= old(self).out@ + spec_gen_expr(e, l0));
                }
            },
            BinOpKind::LogicAnd => {
                let label = self.get_label();
                let num = u64_to_string(label as u64);
                self.gen_expr(lhs);
                self.out.append("    pop rax\n");
                self.out.append("    cmp rax, 0\n");
                self.out.append("    je .L");
                self.out.append(num.as_str());
                self.out.append("\n");
                self.gen_expr(rhs);
                self.out.append("    pop rax\n");
                self.out.append(".L");
                self.out.append(num.as_str());
                self.out.append(":\n");
                self.out.append("    push rax\n");
                proof {
                    assert(self.out@ =~= old(self).out@ + spec_gen_expr(e, l0));
                }
            },
            _ => {
                self.gen_expr(lhs);
                self.gen_expr(rhs);
                self.out.append("    pop rdi\n");
                self.out.append("    pop rax\n");
                match kind {
                    BinOpKind::Eq => {
                        self.out.append("    cmp rax, rdi\n");
                        self.out.append("    sete al\n");
                        self.out.append("    movzb rax, al\n");
                    },
                    BinOpKind::Neq => {
                        self.out.append("    cmp rax, rdi\n");
                        self.out.append("    setne al\n");
                        self.out.append("    movzb rax, al\n");
                    },
                    BinOpKind::Leq => {
                        self.out.append("    cmp rax, rdi\n");
                        self.out.append("    setle al\n");
                        self.out.append("    movzb rax, al\n");
                    },
                    BinOpKind::Lt => {
                        self.out.append("    cmp rax, rdi\n");
                        self.out.append("    setl al\n");
                        self.out.append("    movzb rax, al\n");
                    },
                    BinOpKind::Add => {
                        self.out.append("    add rax, rdi\n");
                    },
                    BinOpKind::Sub => {
                        self.out.append("    sub rax, rdi\n");
                    },
                    BinOpKind::Mul => {
                        self.out.append("    imul rax, rdi\n");
                    },
                    BinOpKind::Div => {
                        self.out.append("    cqo\n");
                        self.out.append("    idiv rdi\n");
                    },
                    BinOpKind::Mod => {
                        self.out.append("    cqo\n");
                        self.out.append("    idiv rdi\n");
                        self.out.append("    push rdx\n");
                        proof {
                            assert(self.out@ =~= old(self).out@ + spec_gen_expr(e, l0));
                        }
                        return ;
                    },
                    _ => {},
                }
                self.out.append("    push rax\n");
                proof {
                    assert(self.out@ =~= old(self).out@ + spec_gen_expr(e, l0));
                }
            },
        }
    }

    fn gen_unary(&mut self, kind: UnOpKind, operand: &Expr)
        requires
            old(self).label + expr_labels(*operand) <= usize::MAX,
        ensures
            final(self).out@ == old(self).out@ + spec_gen_expr(
                Expr::UnOp { kind, operand: Box::new(*operand) },
                old(self).label as nat,
            ),
            final(self).label == old(self).label + expr_labels(*operand),
        decreases expr_size(*operand), 1int,
    {
        let ghost e = Expr::UnOp { kind, operand: Box::new(*operand) };
        self.gen_expr(operand);
        self.out.append("    pop rax\n");
        match kind {
            UnOpKind::LogicNot => self.out.append("    xor rax, 1\n"),
            UnOpKind::Neg => self.out.append("    neg rax\n"),
        }
        self.out.append("    push rax\n");
        proof {
            assert(self.out@ =~= old(self).out@ + spec_gen_expr(
                e,
                old(self).label as nat,
            ));
        }
    }

    /// Allocates a fresh label: returns the counter and advances it;
    /// labels are never reused and never reset mid-pass.
    fn get_label(&mut self) -> (l: usize)
        requires
            old(self).label < usize::MAX,
        ensures
            l == old(self).label,
            final(self).label == old(self).label + 1,
            final(self).out@ == old(self).out@,
    {
        let label = self.label;
        self.label = self.label + 1;
        label
    }
}

/// The labels of a statement sequence split at `i`: those of the first
/// `i` statements and those of the rest.
proof fn lemma_stmts_labels_split(ss: Seq<Stmt>, i: int)
    requires
        0 <= i < ss.len(),
    ensures
        stmts_labels(ss.skip(i)) == stmt_labels(ss[i]) + stmts_labels(ss.skip(i + 1)),
    decreases ss.len(),
{
    assert(ss.skip(i)[0] == ss[i]);
    assert(ss.skip(i).drop_first() =~= ss.skip(i + 1));
}

} // verus!
