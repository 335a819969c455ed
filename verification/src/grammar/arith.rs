//! Arithmetic expressions.

use vstd::prelude::*;
use crate::ast_view::ArithView;
use crate::bytes::{
    AMP, BANG, CARET, COLON, DOLLAR, EQUALS, GT, LPAREN, LT, MINUS, PERCENT, PIPE, PLUS, QUESTION,
    RPAREN, SLASH, STAR, TILDE,
};
use crate::grammar::{blanks, Parsed, too_deep};
use crate::text::{byte_at, ByteClass, is_digit, is_name_start, name_end, run_end};

verus! {

/// The binary operators of arithmetic.
#[derive(Clone, Copy, Debug)]
pub enum BinOp {
    LogOr,
    LogAnd,
    BitOr,
    BitXor,
    BitAnd,
    Eq,
    Ne,
    Le,
    Ge,
    Lt,
    Gt,
    Shl,
    Shr,
    Add,
    Sub,
    Mul,
    Div,
    Rem,
}

/// Number of precedence levels of the left-associative binary operators;
/// level 0 binds loosest.
pub const BINARY_LEVELS: u8 = 10;

/// The binary operator of precedence `level` that stands at `p`, with its
/// length. An operator is not taken for the start of a longer one: `|` not
/// in `||`, `&` not in `&&`, `<` not in `<<` or `<=`, `*` not in `**`.
#[verifier::opaque]
pub open spec fn binop_at(b: Seq<u8>, p: int, level: nat) -> Option<(BinOp, int)> {
    let c = byte_at(b, p);
    let d = byte_at(b, p + 1);
    if level == 0 {
        if c == PIPE && d == PIPE {
            Some((BinOp::LogOr, 2))
        } else {
            None
        }
    } else if level == 1 {
        if c == AMP && d == AMP {
            Some((BinOp::LogAnd, 2))
        } else {
            None
        }
    } else if level == 2 {
        if c == PIPE && d != PIPE {
            Some((BinOp::BitOr, 1))
        } else {
            None
        }
    } else if level == 3 {
        if c == CARET {
            Some((BinOp::BitXor, 1))
        } else {
            None
        }
    } else if level == 4 {
        if c == AMP && d != AMP {
            Some((BinOp::BitAnd, 1))
        } else {
            None
        }
    } else if level == 5 {
        if c == EQUALS && d == EQUALS {
            Some((BinOp::Eq, 2))
        } else if c == BANG && d == EQUALS {
            Some((BinOp::Ne, 2))
        } else {
            None
        }
    } else if level == 6 {
        if c == LT && d == EQUALS {
            Some((BinOp::Le, 2))
        } else if c == GT && d == EQUALS {
            Some((BinOp::Ge, 2))
        } else if c == LT && d != LT {
            Some((BinOp::Lt, 1))
        } else if c == GT && d != GT {
            Some((BinOp::Gt, 1))
        } else {
            None
        }
    } else if level == 7 {
        if c == LT && d == LT {
            Some((BinOp::Shl, 2))
        } else if c == GT && d == GT {
            Some((BinOp::Shr, 2))
        } else {
            None
        }
    } else if level == 8 {
        if c == PLUS {
            Some((BinOp::Add, 1))
        } else if c == MINUS {
            Some((BinOp::Sub, 1))
        } else {
            None
        }
    } else if level == 9 {
        if c == STAR && d != STAR {
            Some((BinOp::Mul, 1))
        } else if c == SLASH {
            Some((BinOp::Div, 1))
        } else if c == PERCENT {
            Some((BinOp::Rem, 1))
        } else {
            None
        }
    } else {
        None
    }
}

/// The expression that applies `op` to `l` and `r`.
pub open spec fn bin_view(op: BinOp, l: ArithView, r: ArithView) -> ArithView {
    let l = Box::new(l);
    let r = Box::new(r);
    match op {
        BinOp::LogOr => ArithView::LogOr(l, r),
        BinOp::LogAnd => ArithView::LogAnd(l, r),
        BinOp::BitOr => ArithView::BitOr(l, r),
        BinOp::BitXor => ArithView::BitXor(l, r),
        BinOp::BitAnd => ArithView::BitAnd(l, r),
        BinOp::Eq => ArithView::Eq(l, r),
        BinOp::Ne => ArithView::Ne(l, r),
        BinOp::Le => ArithView::Le(l, r),
        BinOp::Ge => ArithView::Ge(l, r),
        BinOp::Lt => ArithView::Lt(l, r),
        BinOp::Gt => ArithView::Gt(l, r),
        BinOp::Shl => ArithView::Shl(l, r),
        BinOp::Shr => ArithView::Shr(l, r),
        BinOp::Add => ArithView::Add(l, r),
        BinOp::Sub => ArithView::Sub(l, r),
        BinOp::Mul => ArithView::Mul(l, r),
        BinOp::Div => ArithView::Div(l, r),
        BinOp::Rem => ArithView::Rem(l, r),
    }
}

/// The number that a run of decimal digits writes.
pub open spec fn decimal(digits: Seq<u8>) -> int
    decreases digits.len(),
{
    if digits.len() == 0 {
        0
    } else {
        decimal(digits.drop_last()) * 10 + (digits.last() - 0x30)
    }
}

/// An expression: an assignment or what binds tighter. Leading blanks are
/// skipped here; every expression ends behind the blanks that follow it.
pub open spec fn g_arith(b: Seq<u8>, p: int, d: nat) -> Parsed<ArithView, int>
    decreases d, 40int, b.len() - p,
{
    g_assign(b, blanks(b, p), d)
}

/// `name = expr`, right-associative, or a conditional expression.
pub open spec fn g_assign(b: Seq<u8>, p: int, d: nat) -> Parsed<ArithView, int>
    decreases d, 39int, b.len() - p,
{
    let e = name_end(b, p);
    let q = blanks(b, e);
    if e > p && byte_at(b, q) == EQUALS && byte_at(b, q + 1) != EQUALS {
        if d == 0 {
            Parsed::Fail(q, too_deep())
        } else {
            match g_assign(b, blanks(b, q + 1), (d - 1) as nat) {
                Parsed::Done(rhs, t2) => Parsed::Done(
                    ArithView::Assign(b.subrange(p, e), Box::new(rhs)),
                    t2,
                ),
                Parsed::Fail(at, msg) => Parsed::Fail(at, msg),
            }
        }
    } else {
        g_ternary(b, p, d)
    }
}

/// `cond ? then : else`, or a binary expression.
pub open spec fn g_ternary(b: Seq<u8>, p: int, d: nat) -> Parsed<ArithView, int>
    decreases d, 38int, b.len() - p,
{
    match g_binary(b, p, d, 0) {
        Parsed::Done(cond, t1) => if byte_at(b, t1) == QUESTION {
            if d == 0 {
                Parsed::Fail(t1, too_deep())
            } else {
                match g_assign(b, blanks(b, t1 + 1), (d - 1) as nat) {
                    Parsed::Done(then, t2) => if byte_at(b, t2) == COLON {
                        match g_assign(b, blanks(b, t2 + 1), (d - 1) as nat) {
                            Parsed::Done(other, t3) => Parsed::Done(
                                ArithView::Ternary(
                                    Box::new(cond),
                                    Box::new(then),
                                    Box::new(other),
                                ),
                                t3,
                            ),
                            Parsed::Fail(at, msg) => Parsed::Fail(at, msg),
                        }
                    } else {
                        Parsed::Fail(t2, "expected ':'"@)
                    },
                    Parsed::Fail(at, msg) => Parsed::Fail(at, msg),
                }
            }
        } else {
            Parsed::Done(cond, t1)
        },
        Parsed::Fail(at, msg) => Parsed::Fail(at, msg),
    }
}

/// Operands of the next tighter level, joined left to right by the
/// operators of `level`.
pub open spec fn g_binary(b: Seq<u8>, p: int, d: nat, level: nat) -> Parsed<ArithView, int>
    decreases d,
        (if level < 10 {
            35 - 2 * level
        } else {
            15
        }),
        b.len() - p,
{
    if level >= 10 {
        g_power(b, p, d)
    } else {
        match g_binary(b, p, d, level + 1) {
            Parsed::Done(lhs, t1) => g_binary_rest(b, t1, d, level, lhs),
            Parsed::Fail(at, msg) => Parsed::Fail(at, msg),
        }
    }
}

/// What follows the operand `lhs` at `level`: nothing, or an operator, an
/// operand, and what follows them.
pub open spec fn g_binary_rest(b: Seq<u8>, p: int, d: nat, level: nat, lhs: ArithView) -> Parsed<
    ArithView,
    int,
>
    decreases d,
        (if level < 10 {
            34 - 2 * level
        } else {
            14
        }),
        b.len() - p,
{
    if level >= 10 {
        Parsed::Done(lhs, p)
    } else {
        match binop_at(b, p, level) {
            Some((op, n)) => match g_binary(b, blanks(b, p + n), d, level + 1) {
                Parsed::Done(rhs, t2) => if p < t2 <= b.len() {
                    g_binary_rest(b, t2, d, level, bin_view(op, lhs, rhs))
                } else {
                    Parsed::Done(bin_view(op, lhs, rhs), t2)
                },
                Parsed::Fail(at, msg) => Parsed::Fail(at, msg),
            },
            None => Parsed::Done(lhs, p),
        }
    }
}

/// `base ** exponent`, right-associative, or a unary expression.
pub open spec fn g_power(b: Seq<u8>, p: int, d: nat) -> Parsed<ArithView, int>
    decreases d, 13int, b.len() - p,
{
    match g_unary(b, p, d) {
        Parsed::Done(base, t1) => if byte_at(b, t1) == STAR && byte_at(b, t1 + 1) == STAR {
            if d == 0 {
                Parsed::Fail(t1, too_deep())
            } else {
                match g_power(b, blanks(b, t1 + 2), (d - 1) as nat) {
                    Parsed::Done(exp, t2) => Parsed::Done(
                        ArithView::Pow(Box::new(base), Box::new(exp)),
                        t2,
                    ),
                    Parsed::Fail(at, msg) => Parsed::Fail(at, msg),
                }
            }
        } else {
            Parsed::Done(base, t1)
        },
        Parsed::Fail(at, msg) => Parsed::Fail(at, msg),
    }
}

/// A name that must stand at `p`, for `++` and `--`.
#[verifier::opaque]
pub open spec fn g_target(b: Seq<u8>, p: int) -> Parsed<Seq<u8>, int> {
    let e = name_end(b, p);
    if e > p {
        Parsed::Done(b.subrange(p, e), blanks(b, e))
    } else {
        Parsed::Fail(p, "expected variable name"@)
    }
}

/// `!x`, `~x`, `-x`, `+x`, `++name`, `--name`, or a postfix expression.
pub open spec fn g_unary(b: Seq<u8>, p: int, d: nat) -> Parsed<ArithView, int>
    decreases d, 12int, b.len() - p,
{
    let c = byte_at(b, p);
    let n = byte_at(b, p + 1);
    if (c == PLUS || c == MINUS) && n == c {
        match g_target(b, blanks(b, p + 2)) {
            Parsed::Done(name, t1) => Parsed::Done(
                if c == PLUS {
                    ArithView::PreInc(name)
                } else {
                    ArithView::PreDec(name)
                },
                t1,
            ),
            Parsed::Fail(at, msg) => Parsed::Fail(at, msg),
        }
    } else if (c == BANG && n != EQUALS) || c == TILDE || c == PLUS || c == MINUS {
        if d == 0 {
            Parsed::Fail(p, too_deep())
        } else {
            match g_unary(b, blanks(b, p + 1), (d - 1) as nat) {
                Parsed::Done(x, t1) => Parsed::Done(
                    if c == BANG {
                        ArithView::LogNot(Box::new(x))
                    } else if c == TILDE {
                        ArithView::BitNot(Box::new(x))
                    } else if c == PLUS {
                        ArithView::Pos(Box::new(x))
                    } else {
                        ArithView::Neg(Box::new(x))
                    },
                    t1,
                ),
                Parsed::Fail(at, msg) => Parsed::Fail(at, msg),
            }
        }
    } else {
        g_postfix(b, p, d)
    }
}

/// `name++`, `name--`, a name, or a primary expression.
pub open spec fn g_postfix(b: Seq<u8>, p: int, d: nat) -> Parsed<ArithView, int>
    decreases d, 11int, b.len() - p,
{
    let e = name_end(b, p);
    if e > p {
        let name = b.subrange(p, e);
        if byte_at(b, e) == PLUS && byte_at(b, e + 1) == PLUS {
            Parsed::Done(ArithView::PostInc(name), blanks(b, e + 2))
        } else if byte_at(b, e) == MINUS && byte_at(b, e + 1) == MINUS {
            Parsed::Done(ArithView::PostDec(name), blanks(b, e + 2))
        } else {
            Parsed::Done(ArithView::Var(name), blanks(b, e))
        }
    } else {
        g_primary(b, p, d)
    }
}

/// A decimal number that fits in 64 bits.
#[verifier::opaque]
pub open spec fn g_number(b: Seq<u8>, p: int) -> Parsed<ArithView, int> {
    let e = run_end(b, p, ByteClass::Digit);
    if decimal(b.subrange(p, e)) <= i64::MAX {
        Parsed::Done(ArithView::Lit(decimal(b.subrange(p, e)) as i64), blanks(b, e))
    } else {
        Parsed::Fail(p, "number too large"@)
    }
}

/// A decimal number, `$name`, or an expression in parentheses.
pub open spec fn g_primary(b: Seq<u8>, p: int, d: nat) -> Parsed<ArithView, int>
    decreases d, 10int, b.len() - p,
{
    let c = byte_at(b, p);
    if is_digit(c) {
        g_number(b, p)
    } else if c == DOLLAR && is_name_start(byte_at(b, p + 1)) {
        g_variable(b, p + 1)
    } else if c == LPAREN {
        g_paren(b, p + 1, d)
    } else {
        Parsed::Fail(p, "expected arithmetic operand"@)
    }
}

/// The variable whose name starts at `p`.
#[verifier::opaque]
pub open spec fn g_variable(b: Seq<u8>, p: int) -> Parsed<ArithView, int> {
    Parsed::Done(ArithView::Var(b.subrange(p, name_end(b, p))), blanks(b, name_end(b, p)))
}

/// An expression in parentheses from behind the opening one, a level
/// deeper.
pub open spec fn g_paren(b: Seq<u8>, p: int, d: nat) -> Parsed<ArithView, int>
    decreases d, 9int, b.len() - p,
{
    if d == 0 {
        Parsed::Fail(p - 1, too_deep())
    } else {
        match g_arith(b, p, (d - 1) as nat) {
            Parsed::Done(x, t1) => if byte_at(b, t1) == RPAREN {
                Parsed::Done(x, blanks(b, t1 + 1))
            } else {
                Parsed::Fail(t1, "expected ')'"@)
            },
            Parsed::Fail(at, msg) => Parsed::Fail(at, msg),
        }
    }
}

} // verus!
