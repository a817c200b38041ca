//! The observable meaning of a compiled program: what the generated
//! stack-machine code computes when executed. Values are 64-bit
//! two's-complement registers; division follows the hardware's
//! truncating signed divide, which faults on a zero divisor and on the
//! one overflowing quotient. `None` stands for a run whose exit value is
//! not defined: a fault, or a function body that never set the return
//! register.

use vstd::prelude::*;

use crate::data::{BinOpKind, DefnView, Expr, Stmt, UnOpKind};

verus! {

/// Reduction of an integer into a signed 64-bit register,
/// two's-complement.
pub open spec fn wrap64(x: int) -> i64 {
    let m = x % 0x1_0000_0000_0000_0000;
    if m >= 0x8000_0000_0000_0000 {
        (m - 0x1_0000_0000_0000_0000) as i64
    } else {
        m as i64
    }
}

/// Signed division truncating toward zero, as the hardware divide does.
pub open spec fn trunc_div(a: int, b: int) -> int {
    let q = abs_of(a) / abs_of(b);
    if (a < 0) != (b < 0) {
        -q
    } else {
        q
    }
}

/// The remainder matching [`trunc_div`]: it takes the dividend's sign.
pub open spec fn trunc_mod(a: int, b: int) -> int {
    a - b * trunc_div(a, b)
}

/// The absolute value.
pub open spec fn abs_of(x: int) -> int {
    if x < 0 {
        -x
    } else {
        x
    }
}

/// The value an expression's generated code leaves on top of the stack,
/// or `None` when execution faults. `||` and `&&` skip their right
/// operand (and any fault in it) when the left operand decides; they
/// yield the deciding operand's value itself, not a normalized boolean.
/// `!` is bitwise xor with one, meaningful only on operands that are
/// already zero or one.
pub open spec fn eval_expr(e: Expr) -> Option<i64>
    decreases e,
{
    match e {
        Expr::Num(v) => Some(v as i64),
        Expr::UnOp { kind, operand } => match eval_expr(*operand) {
            None => None,
            Some(x) => match kind {
                UnOpKind::Neg => Some(wrap64(-(x as int))),
                UnOpKind::LogicNot => Some(x ^ 1),
            },
        },
        Expr::BinOp { kind, lhs, rhs } => match eval_expr(*lhs) {
            None => None,
            Some(l) => match kind {
                BinOpKind::LogicOr => if l != 0 {
                    Some(l)
                } else {
                    eval_expr(*rhs)
                },
                BinOpKind::LogicAnd => if l == 0 {
                    Some(l)
                } else {
                    eval_expr(*rhs)
                },
                _ => match eval_expr(*rhs) {
                    None => None,
                    Some(r) => match kind {
                        BinOpKind::Eq => Some(if l == r { 1i64 } else { 0i64 }),
                        BinOpKind::Neq => Some(if l != r { 1i64 } else { 0i64 }),
                        BinOpKind::Leq => Some(if l <= r { 1i64 } else { 0i64 }),
                        BinOpKind::Lt => Some(if l < r { 1i64 } else { 0i64 }),
                        BinOpKind::Add => Some(wrap64(l + r)),
                        BinOpKind::Sub => Some(wrap64(l - r)),
                        BinOpKind::Mul => Some(wrap64(l * r)),
                        BinOpKind::Div => if r == 0 || (l == i64::MIN && r == -1) {
                            None
                        } else {
                            Some(trunc_div(l as int, r as int) as i64)
                        },
                        BinOpKind::Mod => if r == 0 || (l == i64::MIN && r == -1) {
                            None
                        } else {
                            Some(trunc_mod(l as int, r as int) as i64)
                        },
                        _ => None,
                    },
                },
            },
        },
    }
}

/// The value in the return register when the function returns: an
/// explicit `return` ends the run at once with its expression's value;
/// an expression statement leaves its value there, and the last one
/// left decides when the body runs off its end. An empty body returns
/// whatever the register happened to hold.
pub open spec fn eval_stmts(ss: Seq<Stmt>) -> Option<i64>
    decreases ss.len(),
{
    if ss.len() == 0 {
        None
    } else {
        match ss[0] {
            Stmt::Return(e) => eval_expr(e),
            Stmt::ExprStmt(e) => match eval_expr(e) {
                None => None,
                Some(v) => if ss.len() == 1 {
                    Some(v)
                } else {
                    eval_stmts(ss.drop_first())
                },
            },
        }
    }
}

/// The low eight bits of a register, as a process exit code: the value
/// modulo 256, with negative values wrapping as two's-complement.
pub open spec fn low_byte(v: i64) -> u8 {
    ((v as int) % 256) as u8
}

/// The process exit code of a compiled and executed definition: the low
/// eight bits of the returned value.
pub open spec fn exit_code(d: DefnView) -> Option<u8> {
    match eval_stmts(d.stmts) {
        None => None,
        Some(v) => Some(low_byte(v)),
    }
}

/// A value already in signed 64-bit range is its own register image.
pub proof fn lemma_wrap64_small(x: int)
    requires
        -0x8000_0000_0000_0000 <= x < 0x8000_0000_0000_0000,
    ensures
        wrap64(x) as int == x,
{
    let m = 0x1_0000_0000_0000_0000;
    if x >= 0 {
        vstd::arithmetic::div_mod::lemma_small_mod(x as nat, m as nat);
    } else {
        vstd::arithmetic::div_mod::lemma_mod_add_multiples_vanish(x, m);
        vstd::arithmetic::div_mod::lemma_small_mod((m + x) as nat, m as nat);
        assert(x % m == m + x);
    }
}

} // verus!
