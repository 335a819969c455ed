//! Parsing of arithmetic expressions by precedence climbing.

use vstd::prelude::*;
use vstd::string::StringSliceAdditionalSpecFns;
use crate::ast::Arith;
use crate::ast_view::{arith_view, ArithView};
use crate::bytes::{
    AMP, BANG, CARET, COLON, DOLLAR, EQUALS, GT, LPAREN, LT, MINUS, PERCENT, PIPE, PLUS, QUESTION,
    RPAREN, SLASH, STAR, TILDE,
};
use crate::grammar::arith::{
    bin_view, BinOp, binop_at, decimal, g_arith, g_assign, g_binary, g_binary_rest, g_number,
    g_paren, g_postfix, g_power, g_primary, g_target, g_ternary, g_unary, g_variable,
};
use crate::grammar::Parsed;
use crate::lexer::ParseError;
use crate::parser::Parser;
use crate::text::{byte_at, ByteClass, class_holds, is_digit};

verus! {

/// The outcome `r` of a parse that ended at `end` is what the grammar `g`
/// says.
pub(crate) open spec fn arith_agrees(
    r: Result<Arith, ParseError>,
    end: int,
    g: Parsed<ArithView, int>,
) -> bool {
    &&& r is Ok ==> g == Parsed::Done(arith_view(r->Ok_0), end)
    &&& r is Err ==> g == Parsed::<ArithView, int>::Fail(r->Err_0.pos as int, r->Err_0.msg@)
}

/// Builds the node of a binary operator.
fn mk_bin<'a>(op: BinOp, l: Arith<'a>, r: Arith<'a>) -> (e: Arith<'a>)
    ensures
        arith_view(e) == bin_view(op, arith_view(l), arith_view(r)),
{
    let l = Box::new(l);
    let r = Box::new(r);
    match op {
        BinOp::LogOr => Arith::LogOr(l, r),
        BinOp::LogAnd => Arith::LogAnd(l, r),
        BinOp::BitOr => Arith::BitOr(l, r),
        BinOp::BitXor => Arith::BitXor(l, r),
        BinOp::BitAnd => Arith::BitAnd(l, r),
        BinOp::Eq => Arith::Eq(l, r),
        BinOp::Ne => Arith::Ne(l, r),
        BinOp::Le => Arith::Le(l, r),
        BinOp::Ge => Arith::Ge(l, r),
        BinOp::Lt => Arith::Lt(l, r),
        BinOp::Gt => Arith::Gt(l, r),
        BinOp::Shl => Arith::Shl(l, r),
        BinOp::Shr => Arith::Shr(l, r),
        BinOp::Add => Arith::Add(l, r),
        BinOp::Sub => Arith::Sub(l, r),
        BinOp::Mul => Arith::Mul(l, r),
        BinOp::Div => Arith::Div(l, r),
        BinOp::Rem => Arith::Rem(l, r),
    }
}

/// A longer run of digits writes no smaller a number.
proof fn lemma_decimal_grows(digits: Seq<u8>, k: int)
    requires
        0 <= k <= digits.len(),
        forall|i: int| 0 <= i < digits.len() ==> is_digit(#[trigger] digits[i]),
    ensures
        0 <= decimal(digits.take(k)) <= decimal(digits),
    decreases digits.len() - k,
{
    if k == digits.len() {
        assert(digits.take(k) == digits);
        lemma_decimal_nonneg(digits);
    } else {
        lemma_decimal_grows(digits, k + 1);
        assert(digits.take(k + 1).drop_last() == digits.take(k));
        lemma_decimal_nonneg(digits.take(k));
    }
}

/// Digits write no negative number.
proof fn lemma_decimal_nonneg(digits: Seq<u8>)
    requires
        forall|i: int| 0 <= i < digits.len() ==> is_digit(#[trigger] digits[i]),
    ensures
        0 <= decimal(digits),
    decreases digits.len(),
{
    if digits.len() > 0 {
        lemma_decimal_nonneg(digits.drop_last());
    }
}

/// The number written by decimal digits, where it fits.
pub(crate) fn decimal_value(digits: &[u8]) -> (r: Option<i64>)
    requires
        forall|i: int| 0 <= i < digits@.len() ==> is_digit(#[trigger] digits@[i]),
    ensures
        match r {
            Some(v) => v == decimal(digits@),
            None => decimal(digits@) > i64::MAX,
        },
{
    let mut v: i64 = 0;
    let mut i: usize = 0;
    while i < digits.len()
        invariant
            i <= digits@.len(),
            forall|i: int| 0 <= i < digits@.len() ==> is_digit(#[trigger] digits@[i]),
            v == decimal(digits@.take(i as int)),
            0 <= v,
        decreases digits@.len() - i,
    {
        let d = (digits[i] - 0x30) as i64;
        proof {
            assert(digits@.take(i + 1).drop_last() == digits@.take(i as int));
            lemma_decimal_grows(digits@, i + 1);
        }
        if v > (i64::MAX - d) / 10 {
            return None;
        }
        v = v * 10 + d;
        i += 1;
    }
    assert(digits@.take(digits@.len() as int) == digits@);
    Some(v)
}

impl<'a> Parser<'a> {
    /// An arithmetic expression.
    #[verifier::spinoff_prover]
    pub(crate) fn parse_arith(&mut self, depth: usize) -> (r: Result<Arith<'a>, ParseError>)
        requires
            old(self).inv(),
        ensures
            final(self).after_in_line(old(self)),
            final(self).in_input(r),
            arith_agrees(
                r,
                final(self).at(),
                g_arith(old(self).bytes(), old(self).at(), depth as nat),
            ),
        decreases depth, 40int,
    {
        self.skip_blanks();
        self.parse_assign(depth)
    }

    /// `name = expr`, or a conditional expression.
    #[verifier::spinoff_prover]
    fn parse_assign(&mut self, depth: usize) -> (r: Result<Arith<'a>, ParseError>)
        requires
            old(self).inv(),
        ensures
            final(self).after_in_line(old(self)),
            final(self).in_input(r),
            arith_agrees(
                r,
                final(self).at(),
                g_assign(old(self).bytes(), old(self).at(), depth as nat),
            ),
        decreases depth, 39int,
    {
        let start = self.here();
        let name = self.name();
        if self.here() > start {
            self.skip_blanks();
            if self.peek() == EQUALS && self.peek_at(1) != EQUALS {
                if depth == 0 {
                    return self.fail("nesting too deep");
                }
                self.take(1);
                self.skip_blanks();
                let rhs = self.parse_assign(depth - 1)?;
                return Ok(Arith::Assign(name, Box::new(rhs)));
            }
        }
        self.rewind(start);
        self.parse_ternary(depth)
    }

    /// `cond ? then : else`, or a binary expression.
    #[verifier::spinoff_prover]
    fn parse_ternary(&mut self, depth: usize) -> (r: Result<Arith<'a>, ParseError>)
        requires
            old(self).inv(),
        ensures
            final(self).after_in_line(old(self)),
            final(self).in_input(r),
            arith_agrees(
                r,
                final(self).at(),
                g_ternary(old(self).bytes(), old(self).at(), depth as nat),
            ),
        decreases depth, 38int,
    {
        let cond = self.parse_binary(depth, 0)?;
        if self.peek() != QUESTION {
            return Ok(cond);
        }
        if depth == 0 {
            return self.fail("nesting too deep");
        }
        self.take(1);
        self.skip_blanks();
        let then = self.parse_assign(depth - 1)?;
        if self.peek() != COLON {
            return self.fail("expected ':'");
        }
        self.take(1);
        self.skip_blanks();
        let other = self.parse_assign(depth - 1)?;
        Ok(Arith::Ternary(Box::new(cond), Box::new(then), Box::new(other)))
    }

    /// The binary operator of `level` at the cursor, and its length.
    #[verifier::spinoff_prover]
    fn binop(&self, level: u8) -> (r: Option<(BinOp, usize)>)
        ensures
            match r {
                Some((op, n)) => binop_at(self.bytes(), self.at(), level as nat) == Some(
                    (op, n as int),
                ) && 1 <= n <= 2 && forall|i: int|
                    self.at() <= i < self.at() + n ==> 0 < #[trigger] byte_at(self.bytes(), i)
                        < 0x80,
                None => binop_at(self.bytes(), self.at(), level as nat) is None,
            },
    {
        reveal(binop_at);
        let c = self.peek();
        let d = self.peek_at(1);
        if level == 0 {
            if c == PIPE && d == PIPE {
                Some((BinOp::LogOr, 2))
            } else {
                None
            }
        } else if level == 1 {
            if c == AMP && d == AMP {
                Some((BinOp::LogAnd, 2))
            } else {
                None
            }
        } else if level == 2 {
            if c == PIPE && d != PIPE {
                Some((BinOp::BitOr, 1))
            } else {
                None
            }
        } else if level == 3 {
            if c == CARET {
                Some((BinOp::BitXor, 1))
            } else {
                None
            }
        } else if level == 4 {
            if c == AMP && d != AMP {
                Some((BinOp::BitAnd, 1))
            } else {
                None
            }
        } else if level == 5 {
            if c == EQUALS && d == EQUALS {
                Some((BinOp::Eq, 2))
            } else if c == BANG && d == EQUALS {
                Some((BinOp::Ne, 2))
            } else {
                None
            }
        } else if level == 6 {
            if c == LT && d == EQUALS {
                Some((BinOp::Le, 2))
            } else if c == GT && d == EQUALS {
                Some((BinOp::Ge, 2))
            } else if c == LT && d != LT {
                Some((BinOp::Lt, 1))
            } else if c == GT && d != GT {
                Some((BinOp::Gt, 1))
            } else {
                None
            }
        } else if level == 7 {
            if c == LT && d == LT {
                Some((BinOp::Shl, 2))
            } else if c == GT && d == GT {
                Some((BinOp::Shr, 2))
            } else {
                None
            }
        } else if level == 8 {
            if c == PLUS {
                Some((BinOp::Add, 1))
            } else if c == MINUS {
                Some((BinOp::Sub, 1))
            } else {
                None
            }
        } else if level == 9 {
            if c == STAR && d != STAR {
                Some((BinOp::Mul, 1))
            } else if c == SLASH {
                Some((BinOp::Div, 1))
            } else if c == PERCENT {
                Some((BinOp::Rem, 1))
            } else {
                None
            }
        } else {
            None
        }
    }

    /// Operands of the next tighter level, joined by the operators of `level`.
    #[verifier::spinoff_prover]
    fn parse_binary(&mut self, depth: usize, level: u8) -> (r: Result<Arith<'a>, ParseError>)
        requires
            old(self).inv(),
        ensures
            final(self).after_in_line(old(self)),
            final(self).in_input(r),
            arith_agrees(
                r,
                final(self).at(),
                g_binary(old(self).bytes(), old(self).at(), depth as nat, level as nat),
            ),
        decreases depth,
            (if level < 10 {
                35 - 2 * level
            } else {
                15
            }),
    {
        if level >= 10 {
            return self.parse_power(depth);
        }
        let mut lhs = self.parse_binary(depth, level + 1)?;
        loop
            invariant
                level < 10,
                self.after_in_line(old(self)),
                g_binary(old(self).bytes(), old(self).at(), depth as nat, level as nat)
                    == g_binary_rest(
                    self.bytes(),
                    self.at(),
                    depth as nat,
                    level as nat,
                    arith_view(lhs),
                ),
            decreases self.bytes().len() - self.at(),
        {
            match self.binop(level) {
                None => {
                    return Ok(lhs);
                },
                Some((op, n)) => {
                    self.take(n);
                    self.skip_blanks();
                    let rhs = self.parse_binary(depth, level + 1)?;
                    lhs = mk_bin(op, lhs, rhs);
                },
            }
        }
    }

    /// `base ** exponent`, or a unary expression.
    #[verifier::spinoff_prover]
    fn parse_power(&mut self, depth: usize) -> (r: Result<Arith<'a>, ParseError>)
        requires
            old(self).inv(),
        ensures
            final(self).after_in_line(old(self)),
            final(self).in_input(r),
            arith_agrees(
                r,
                final(self).at(),
                g_power(old(self).bytes(), old(self).at(), depth as nat),
            ),
        decreases depth, 13int,
    {
        let base = self.parse_unary(depth)?;
        if self.peek() == STAR && self.peek_at(1) == STAR {
            if depth == 0 {
                return self.fail("nesting too deep");
            }
            self.take(2);
            self.skip_blanks();
            let exp = self.parse_power(depth - 1)?;
            Ok(Arith::Pow(Box::new(base), Box::new(exp)))
        } else {
            Ok(base)
        }
    }

    /// Reads the name that `++` or `--` applies to.
    #[verifier::spinoff_prover]
    fn parse_target(&mut self) -> (r: Result<&'a str, ParseError>)
        requires
            old(self).inv(),
        ensures
            final(self).after_in_line(old(self)),
            final(self).in_input(r),
            r is Ok ==> g_target(old(self).bytes(), old(self).at()) == Parsed::Done(
                r->Ok_0.spec_bytes(),
                final(self).at(),
            ),
            r is Err ==> g_target(old(self).bytes(), old(self).at()) == Parsed::<
                Seq<u8>,
                int,
            >::Fail(r->Err_0.pos as int, r->Err_0.msg@),
    {
        reveal(g_target);
        let start = self.here();
        let name = self.name();
        if self.here() == start {
            return self.fail("expected variable name");
        }
        self.skip_blanks();
        Ok(name)
    }

    /// A unary operator and its operand, or a postfix expression.
    #[verifier::spinoff_prover]
    fn parse_unary(&mut self, depth: usize) -> (r: Result<Arith<'a>, ParseError>)
        requires
            old(self).inv(),
        ensures
            final(self).after_in_line(old(self)),
            final(self).in_input(r),
            arith_agrees(
                r,
                final(self).at(),
                g_unary(old(self).bytes(), old(self).at(), depth as nat),
            ),
        decreases depth, 12int,
    {
        let c = self.peek();
        let n = self.peek_at(1);
        if (c == PLUS || c == MINUS) && n == c {
            self.take(2);
            self.skip_blanks();
            let name = self.parse_target()?;
            if c == PLUS {
                Ok(Arith::PreInc(name))
            } else {
                Ok(Arith::PreDec(name))
            }
        } else if (c == BANG && n != EQUALS) || c == TILDE || c == PLUS || c == MINUS {
            if depth == 0 {
                return self.fail("nesting too deep");
            }
            self.take(1);
            self.skip_blanks();
            let x = Box::new(self.parse_unary(depth - 1)?);
            if c == BANG {
                Ok(Arith::LogNot(x))
            } else if c == TILDE {
                Ok(Arith::BitNot(x))
            } else if c == PLUS {
                Ok(Arith::Pos(x))
            } else {
                Ok(Arith::Neg(x))
            }
        } else {
            self.parse_postfix(depth)
        }
    }

    /// `name++`, `name--`, a name, or a primary expression.
    #[verifier::spinoff_prover]
    fn parse_postfix(&mut self, depth: usize) -> (r: Result<Arith<'a>, ParseError>)
        requires
            old(self).inv(),
        ensures
            final(self).after_in_line(old(self)),
            final(self).in_input(r),
            arith_agrees(
                r,
                final(self).at(),
                g_postfix(old(self).bytes(), old(self).at(), depth as nat),
            ),
        decreases depth, 11int,
    {
        let start = self.here();
        let name = self.name();
        if self.here() == start {
            return self.parse_primary(depth);
        }
        let c = self.peek();
        if (c == PLUS || c == MINUS) && self.peek_at(1) == c {
            self.take(2);
            self.skip_blanks();
            if c == PLUS {
                Ok(Arith::PostInc(name))
            } else {
                Ok(Arith::PostDec(name))
            }
        } else {
            self.skip_blanks();
            Ok(Arith::Var(name))
        }
    }

    /// A decimal number.
    #[verifier::spinoff_prover]
    fn parse_number(&mut self) -> (r: Result<Arith<'a>, ParseError>)
        requires
            old(self).inv(),
        ensures
            final(self).after_in_line(old(self)),
            final(self).in_input(r),
            arith_agrees(r, final(self).at(), g_number(old(self).bytes(), old(self).at())),
    {
        reveal(g_number);
        let start = self.here();
        let digits = self.number();
        match decimal_value(digits.as_bytes()) {
            Some(v) => {
                self.skip_blanks();
                Ok(Arith::Lit(v))
            },
            None => Err(ParseError { pos: start, msg: "number too large" }),
        }
    }

    /// A number, `$name`, or an expression in parentheses.
    #[verifier::spinoff_prover]
    fn parse_primary(&mut self, depth: usize) -> (r: Result<Arith<'a>, ParseError>)
        requires
            old(self).inv(),
        ensures
            final(self).after_in_line(old(self)),
            final(self).in_input(r),
            arith_agrees(
                r,
                final(self).at(),
                g_primary(old(self).bytes(), old(self).at(), depth as nat),
            ),
        decreases depth, 10int,
    {
        let c = self.peek();
        if 0x30 <= c && c <= 0x39 {
            self.parse_number()
        } else if c == DOLLAR && class_holds(ByteClass::NameStart, self.peek_at(1)) {
            self.take(1);
            self.parse_variable()
        } else if c == LPAREN {
            self.take(1);
            self.parse_paren(depth)
        } else {
            self.fail("expected arithmetic operand")
        }
    }

    /// The variable whose name starts at the cursor.
    #[verifier::spinoff_prover]
    fn parse_variable(&mut self) -> (r: Result<Arith<'a>, ParseError>)
        requires
            old(self).inv(),
        ensures
            final(self).after_in_line(old(self)),
            final(self).in_input(r),
            arith_agrees(r, final(self).at(), g_variable(old(self).bytes(), old(self).at())),
    {
        reveal(g_variable);
        let name = self.name();
        self.skip_blanks();
        Ok(Arith::Var(name))
    }

    /// An expression in parentheses from behind the opening one.
    #[verifier::spinoff_prover]
    fn parse_paren(&mut self, depth: usize) -> (r: Result<Arith<'a>, ParseError>)
        requires
            old(self).inv(),
            old(self).at() > 0,
        ensures
            final(self).after_in_line(old(self)),
            final(self).in_input(r),
            arith_agrees(
                r,
                final(self).at(),
                g_paren(old(self).bytes(), old(self).at(), depth as nat),
            ),
        decreases depth, 9int,
    {
        if depth == 0 {
            return self.fail_at(self.here() - 1, "nesting too deep");
        }
        let x = self.parse_arith(depth - 1)?;
        if self.peek() != RPAREN {
            return self.fail("expected ')'");
        }
        self.take(1);
        self.skip_blanks();
        Ok(x)
    }
}

} // verus!
