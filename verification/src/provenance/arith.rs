//! The texts of arithmetic expressions come from the input.

use vstd::prelude::*;
use crate::ast_view::ArithView;
use crate::grammar::arith::{
    bin_view, binop_at, g_arith, g_assign, g_binary, g_binary_rest, g_number, g_paren, g_postfix,
    g_power, g_primary, g_target, g_ternary, g_unary, g_variable, BinOp,
};
use crate::grammar::{blanks, Parsed};
use crate::provenance::{arith_from, lemma_within};
use crate::text::{byte_at, lemma_run_end, name_end, run_end, ByteClass};

verus! {

/// Blanks end in the input, not before they start.
pub proof fn lemma_blanks(b: Seq<u8>, p: int)
    requires
        0 <= p <= b.len(),
    ensures
        p <= blanks(b, p) <= b.len(),
{
    lemma_run_end(b, p, ByteClass::Blank);
}

/// A name ends in the input, not before it starts.
pub proof fn lemma_name_end(b: Seq<u8>, p: int)
    requires
        0 <= p <= b.len(),
    ensures
        p <= name_end(b, p) <= b.len(),
{
    lemma_run_end(b, p + 1, ByteClass::NameChar);
}

/// The outcome of parsing an expression from `p`: it ends in the input,
/// not before `p`, and its texts come from the input.
pub open spec fn arith_ok(r: Parsed<ArithView, int>, b: Seq<u8>, p: int) -> bool {
    r matches Parsed::Done(x, e) ==> p <= e <= b.len() && arith_from(x, b)
}

/// An operator applied to expressions from the input is from the input.
proof fn lemma_bin_from(op: BinOp, l: ArithView, r: ArithView, b: Seq<u8>)
    requires
        arith_from(l, b),
        arith_from(r, b),
    ensures
        arith_from(bin_view(op, l, r), b),
{
}

#[verifier::spinoff_prover]
pub proof fn lemma_g_arith(b: Seq<u8>, p: int, d: nat)
    requires
        0 <= p <= b.len(),
    ensures
        arith_ok(g_arith(b, p, d), b, p),
    decreases d, 40int, b.len() - p,
{
    lemma_blanks(b, p);
    lemma_g_assign(b, blanks(b, p), d);
}

#[verifier::spinoff_prover]
proof fn lemma_g_assign(b: Seq<u8>, p: int, d: nat)
    requires
        0 <= p <= b.len(),
    ensures
        arith_ok(g_assign(b, p, d), b, p),
    decreases d, 39int, b.len() - p,
{
    let e = name_end(b, p);
    lemma_name_end(b, p);
    let q = blanks(b, e);
    lemma_blanks(b, e);
    if e > p && byte_at(b, q) == 0x3d && byte_at(b, q + 1) != 0x3d {
        if d > 0 {
            lemma_blanks(b, q + 1);
            lemma_g_assign(b, blanks(b, q + 1), (d - 1) as nat);
            lemma_within(b, p, e);
        }
    } else {
        lemma_g_ternary(b, p, d);
    }
}

#[verifier::spinoff_prover]
proof fn lemma_g_ternary(b: Seq<u8>, p: int, d: nat)
    requires
        0 <= p <= b.len(),
    ensures
        arith_ok(g_ternary(b, p, d), b, p),
    decreases d, 38int, b.len() - p,
{
    lemma_g_binary(b, p, d, 0);
    if let Parsed::Done(cond, t1) = g_binary(b, p, d, 0) {
        if byte_at(b, t1) == 0x3f && d > 0 {
            lemma_blanks(b, t1 + 1);
            lemma_g_assign(b, blanks(b, t1 + 1), (d - 1) as nat);
            if let Parsed::Done(then, t2) = g_assign(b, blanks(b, t1 + 1), (d - 1) as nat) {
                if byte_at(b, t2) == 0x3a {
                    lemma_blanks(b, t2 + 1);
                    lemma_g_assign(b, blanks(b, t2 + 1), (d - 1) as nat);
                }
            }
        }
    }
}

/// An expression of a level ends in the input, not before it starts,
/// and its texts come from the input.
#[verifier::spinoff_prover]
pub proof fn lemma_g_binary(b: Seq<u8>, p: int, d: nat, level: nat)
    requires
        0 <= p <= b.len(),
    ensures
        arith_ok(g_binary(b, p, d, level), b, p),
    decreases d,
        (if level < 10 {
            35 - 2 * level
        } else {
            15
        }),
        b.len() - p,
{
    if level >= 10 {
        lemma_g_power(b, p, d);
    } else {
        lemma_g_binary(b, p, d, level + 1);
        if let Parsed::Done(lhs, t1) = g_binary(b, p, d, level + 1) {
            lemma_g_binary_rest(b, t1, d, level, lhs);
        }
    }
}

#[verifier::spinoff_prover]
proof fn lemma_g_binary_rest(b: Seq<u8>, p: int, d: nat, level: nat, lhs: ArithView)
    requires
        0 <= p <= b.len(),
        arith_from(lhs, b),
    ensures
        arith_ok(g_binary_rest(b, p, d, level, lhs), b, p),
    decreases d,
        (if level < 10 {
            34 - 2 * level
        } else {
            14
        }),
        b.len() - p,
{
    reveal(binop_at);
    if level < 10 {
        if let Some((op, n)) = binop_at(b, p, level) {
            lemma_blanks(b, p + n);
            lemma_g_binary(b, blanks(b, p + n), d, level + 1);
            if let Parsed::Done(rhs, t2) = g_binary(b, blanks(b, p + n), d, level + 1) {
                lemma_bin_from(op, lhs, rhs, b);
                if p < t2 <= b.len() {
                    lemma_g_binary_rest(b, t2, d, level, bin_view(op, lhs, rhs));
                }
            }
        }
    }
}

#[verifier::spinoff_prover]
proof fn lemma_g_power(b: Seq<u8>, p: int, d: nat)
    requires
        0 <= p <= b.len(),
    ensures
        arith_ok(g_power(b, p, d), b, p),
    decreases d, 13int, b.len() - p,
{
    lemma_g_unary(b, p, d);
    if let Parsed::Done(base, t1) = g_unary(b, p, d) {
        if byte_at(b, t1) == 0x2a && byte_at(b, t1 + 1) == 0x2a && d > 0 {
            lemma_blanks(b, t1 + 2);
            lemma_g_power(b, blanks(b, t1 + 2), (d - 1) as nat);
        }
    }
}

#[verifier::spinoff_prover]
proof fn lemma_g_unary(b: Seq<u8>, p: int, d: nat)
    requires
        0 <= p <= b.len(),
    ensures
        arith_ok(g_unary(b, p, d), b, p),
    decreases d, 12int, b.len() - p,
{
    reveal(g_target);
    let c = byte_at(b, p);
    let n = byte_at(b, p + 1);
    if (c == 0x2b || c == 0x2d) && n == c {
        let q = blanks(b, p + 2);
        lemma_blanks(b, p + 2);
        lemma_name_end(b, q);
        lemma_blanks(b, name_end(b, q));
        lemma_within(b, q, name_end(b, q));
    } else if (c == 0x21 && n != 0x3d) || c == 0x7e || c == 0x2b || c == 0x2d {
        if d > 0 {
            lemma_blanks(b, p + 1);
            lemma_g_unary(b, blanks(b, p + 1), (d - 1) as nat);
        }
    } else {
        lemma_g_postfix(b, p, d);
    }
}

#[verifier::spinoff_prover]
proof fn lemma_g_postfix(b: Seq<u8>, p: int, d: nat)
    requires
        0 <= p <= b.len(),
    ensures
        arith_ok(g_postfix(b, p, d), b, p),
    decreases d, 11int, b.len() - p,
{
    let e = name_end(b, p);
    lemma_name_end(b, p);
    if e > p {
        lemma_within(b, p, e);
        lemma_blanks(b, e);
        if e + 2 <= b.len() {
            lemma_blanks(b, e + 2);
        }
    } else {
        lemma_g_primary(b, p, d);
    }
}

#[verifier::spinoff_prover]
proof fn lemma_g_primary(b: Seq<u8>, p: int, d: nat)
    requires
        0 <= p <= b.len(),
    ensures
        arith_ok(g_primary(b, p, d), b, p),
    decreases d, 10int, b.len() - p,
{
    reveal(g_number);
    reveal(g_variable);
    let c = byte_at(b, p);
    if crate::text::is_digit(c) {
        lemma_run_end(b, p, ByteClass::Digit);
        lemma_blanks(b, run_end(b, p, ByteClass::Digit));
    } else if c == 0x24 && crate::text::is_name_start(byte_at(b, p + 1)) {
        lemma_name_end(b, p + 1);
        lemma_blanks(b, name_end(b, p + 1));
        lemma_within(b, p + 1, name_end(b, p + 1));
    } else if c == 0x28 {
        lemma_g_paren(b, p + 1, d);
    }
}

#[verifier::spinoff_prover]
proof fn lemma_g_paren(b: Seq<u8>, p: int, d: nat)
    requires
        0 <= p <= b.len(),
    ensures
        arith_ok(g_paren(b, p, d), b, p),
    decreases d, 9int, b.len() - p,
{
    if d > 0 {
        lemma_g_arith(b, p, (d - 1) as nat);
        if let Parsed::Done(x, t1) = g_arith(b, p, (d - 1) as nat) {
            if byte_at(b, t1) == 0x29 {
                lemma_blanks(b, t1 + 1);
            }
        }
    }
}

} // verus!
