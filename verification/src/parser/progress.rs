//! Every rule of the grammar reads forwards: it never moves back, never runs
//! past the end of the tokens, and a rule that succeeds has read at least one
//! token (the operator loop alone may succeed at once, having read no
//! operator).

use vstd::prelude::*;
use crate::lexer::{TokenKind, TokView};
use crate::ast::{SpecExpr, SpecStmt};
use crate::ast::operator::{binary_op_of, unary_op_of};
use crate::parser::expression::{Precedence, level, precedence_of, next_level};
use crate::parser::grammar::{
    PState, rem, peek, peek_is, advance, p_next, p_expect, p_identifier, p_type, p_pointer_type,
    p_array_type, p_typed_identifier, p_expression, p_expr_impl, p_infix_loop, p_prefix, p_primary,
    p_unary, p_infix, p_binary, p_reference, p_if, p_arguments, p_arguments_loop, p_block,
    p_block_loop, p_statement, p_let, p_for, p_while,
};

verus! {

/// A rule that ended at `r.0` from `st` read forwards, within the tokens,
/// and read at least one token if it succeeded.
pub open spec fn moves_on<X>(toks: Seq<TokView>, st: PState, r: (PState, Result<X, Seq<char>>)) -> bool {
    &&& st.idx <= r.0.idx <= toks.len()
    &&& (r.1 is Ok ==> st.idx < r.0.idx)
}

pub proof fn lemma_type_moves_on(toks: Seq<TokView>, st: PState)
    requires
        st.idx <= toks.len(),
    ensures
        moves_on(toks, st, p_type(toks, st)),
    decreases rem(toks, st), 1nat,
{
    if let Some(t) = peek(toks, st) {
        if t.kind == TokenKind::Star {
            lemma_pointer_type_moves_on(toks, st);
        } else if t.kind == TokenKind::LBracket {
            lemma_array_type_moves_on(toks, st);
        }
    }
}

proof fn lemma_pointer_type_moves_on(toks: Seq<TokView>, st: PState)
    requires
        st.idx <= toks.len(),
    ensures
        moves_on(toks, st, p_pointer_type(toks, st)),
    decreases rem(toks, st), 0nat,
{
    let (s1, r1) = p_expect(toks, st, TokenKind::Star);
    if r1 is Ok {
        lemma_type_moves_on(toks, s1);
    }
}

proof fn lemma_array_type_moves_on(toks: Seq<TokView>, st: PState)
    requires
        st.idx <= toks.len(),
    ensures
        moves_on(toks, st, p_array_type(toks, st)),
    decreases rem(toks, st), 0nat,
{
    let (s1, r1) = p_expect(toks, st, TokenKind::LBracket);
    if r1 is Ok {
        lemma_type_moves_on(toks, s1);
    }
}

proof fn lemma_typed_identifier_moves_on(toks: Seq<TokView>, st: PState)
    requires
        st.idx <= toks.len(),
    ensures
        moves_on(toks, st, p_typed_identifier(toks, st)),
{
    let (s1, r1) = p_identifier(toks, st);
    if r1 is Ok {
        let (s2, r2) = p_expect(toks, s1, TokenKind::Colon);
        if r2 is Ok {
            lemma_type_moves_on(toks, s2);
        }
    }
}

pub proof fn lemma_expression_moves_on(toks: Seq<TokView>, st: PState)
    requires
        st.idx <= toks.len(),
    ensures
        moves_on(toks, st, p_expression(toks, st)),
    decreases rem(toks, st), 8nat,
{
    lemma_expr_impl_moves_on(toks, st, Precedence::Lowest);
}

pub proof fn lemma_expr_impl_moves_on(toks: Seq<TokView>, st: PState, prec: Precedence)
    requires
        st.idx <= toks.len(),
    ensures
        moves_on(toks, st, p_expr_impl(toks, st, prec)),
    decreases rem(toks, st), 7nat,
{
    lemma_prefix_moves_on(toks, st);
    let (s1, r1) = p_prefix(toks, st);
    if r1 is Ok && rem(toks, s1) <= rem(toks, st) {
        lemma_infix_loop_moves_on(toks, s1, r1->Ok_0, prec);
    }
}

proof fn lemma_infix_loop_moves_on(toks: Seq<TokView>, st: PState, lhs: SpecExpr, prec: Precedence)
    requires
        st.idx <= toks.len(),
    ensures
        st.idx <= p_infix_loop(toks, st, lhs, prec).0.idx <= toks.len(),
    decreases rem(toks, st), 6nat,
{
    if let Some(t) = peek(toks, st) {
        let next_prec = precedence_of(t.kind);
        if !(level(next_prec) < level(prec) || next_prec == Precedence::Lowest) {
            lemma_infix_moves_on(toks, st, lhs, next_prec);
            let (s1, r1) = p_infix(toks, st, lhs, next_prec);
            if r1 is Ok && rem(toks, s1) < rem(toks, st) {
                lemma_infix_loop_moves_on(toks, s1, r1->Ok_0, prec);
            }
        }
    }
}

pub proof fn lemma_prefix_moves_on(toks: Seq<TokView>, st: PState)
    requires
        st.idx <= toks.len(),
    ensures
        moves_on(toks, st, p_prefix(toks, st)),
    decreases rem(toks, st), 5nat,
{
    match peek(toks, st) {
        Some(t) => if t.kind == TokenKind::Ampersand {
            lemma_reference_moves_on(toks, st);
        } else if t.kind == TokenKind::Minus || t.kind == TokenKind::Bang || t.kind
            == TokenKind::Star {
            lemma_unary_moves_on(toks, st);
        } else {
            lemma_primary_moves_on(toks, st);
        },
        None => lemma_primary_moves_on(toks, st),
    }
}

proof fn lemma_primary_moves_on(toks: Seq<TokView>, st: PState)
    requires
        st.idx <= toks.len(),
    ensures
        moves_on(toks, st, p_primary(toks, st)),
    decreases rem(toks, st), 4nat,
{
    if peek_is(toks, st, TokenKind::LBrace) {
        lemma_block_moves_on(toks, st);
    } else {
        let (s1, next) = p_next(toks, st);
        if let Some(t) = next {
            if t.kind == TokenKind::If {
                lemma_if_moves_on(toks, s1);
            } else if t.kind == TokenKind::LParen {
                lemma_expr_impl_moves_on(toks, s1, Precedence::Lowest);
            }
        }
    }
}

proof fn lemma_unary_moves_on(toks: Seq<TokView>, st: PState)
    requires
        st.idx <= toks.len(),
    ensures
        moves_on(toks, st, p_unary(toks, st)),
    decreases rem(toks, st), 4nat,
{
    let (s1, next) = p_next(toks, st);
    if let Some(t) = next {
        if unary_op_of(t.kind) is Some {
            lemma_expr_impl_moves_on(toks, s1, Precedence::Unary);
        }
    }
}

proof fn lemma_infix_moves_on(toks: Seq<TokView>, st: PState, lhs: SpecExpr, prec: Precedence)
    requires
        st.idx <= toks.len(),
    ensures
        moves_on(toks, st, p_infix(toks, st, lhs, prec)),
    decreases rem(toks, st), 5nat,
{
    let (s1, next) = p_next(toks, st);
    if let Some(t) = next {
        if t.kind == TokenKind::LParen {
            lemma_arguments_moves_on(toks, s1);
        } else if t.kind == TokenKind::Equals {
            lemma_expr_impl_moves_on(toks, s1, Precedence::Assignment);
        } else if t.kind == TokenKind::PlusEquals || t.kind == TokenKind::MinusEquals || t.kind
            == TokenKind::StarEquals || t.kind == TokenKind::SlashEquals {
            lemma_expr_impl_moves_on(toks, s1, Precedence::Assignment);
        } else if t.kind == TokenKind::Dot {
            let (s2, next2) = p_next(toks, s1);
            if let Some(t2) = next2 {
                if t2.kind == TokenKind::LBracket {
                    lemma_expr_impl_moves_on(toks, s2, Precedence::Lowest);
                } else {
                    lemma_binary_moves_on(toks, s2, lhs, prec, t);
                }
            }
        } else {
            lemma_binary_moves_on(toks, s1, lhs, prec, t);
        }
    }
}

proof fn lemma_binary_moves_on(toks: Seq<TokView>, st: PState, lhs: SpecExpr, prec: Precedence, t: TokView)
    requires
        st.idx <= toks.len(),
    ensures
        st.idx <= p_binary(toks, st, lhs, prec, t).0.idx <= toks.len(),
        p_binary(toks, st, lhs, prec, t).1 is Ok ==> st.idx < p_binary(toks, st, lhs, prec, t).0.idx,
    decreases rem(toks, st), 8nat,
{
    if binary_op_of(t.kind) is Some {
        let rhs_prec = match next_level(prec) {
            Some(p) => p,
            None => Precedence::Primary,
        };
        lemma_expr_impl_moves_on(toks, st, rhs_prec);
    }
}

proof fn lemma_reference_moves_on(toks: Seq<TokView>, st: PState)
    requires
        st.idx <= toks.len(),
    ensures
        moves_on(toks, st, p_reference(toks, st)),
    decreases rem(toks, st), 4nat,
{
    let (s1, r1) = p_expect(toks, st, TokenKind::Ampersand);
    if r1 is Ok {
        lemma_expr_impl_moves_on(toks, s1, Precedence::Unary);
    }
}

proof fn lemma_if_moves_on(toks: Seq<TokView>, st: PState)
    requires
        st.idx <= toks.len(),
    ensures
        moves_on(toks, st, p_if(toks, st)),
    decreases rem(toks, st), 8nat,
{
    lemma_expr_impl_moves_on(toks, st, Precedence::Lowest);
    let (s1, r1) = p_expr_impl(toks, st, Precedence::Lowest);
    if r1 is Ok && rem(toks, s1) <= rem(toks, st) {
        lemma_block_moves_on(toks, s1);
        let (s2, r2) = p_block(toks, s1);
        if r2 is Ok && peek_is(toks, s2, TokenKind::Else) {
            let (s3, r3) = p_expect(toks, s2, TokenKind::Else);
            if r3 is Ok {
                if peek_is(toks, s3, TokenKind::If) {
                    let s4 = advance(toks, s3);
                    if rem(toks, s4) < rem(toks, st) {
                        lemma_if_moves_on(toks, s4);
                    }
                } else if rem(toks, s3) <= rem(toks, st) {
                    lemma_block_moves_on(toks, s3);
                }
            }
        }
    }
}

proof fn lemma_arguments_moves_on(toks: Seq<TokView>, st: PState)
    requires
        st.idx <= toks.len(),
    ensures
        moves_on(toks, st, p_arguments(toks, st)),
    decreases rem(toks, st), 8nat,
{
    if !peek_is(toks, st, TokenKind::RParen) {
        lemma_expr_impl_moves_on(toks, st, Precedence::Lowest);
        let (s2, r2) = p_expr_impl(toks, st, Precedence::Lowest);
        if r2 is Ok && rem(toks, s2) < rem(toks, st) {
            lemma_arguments_loop_moves_on(toks, s2, seq![r2->Ok_0], st.position);
        }
    }
}

proof fn lemma_arguments_loop_moves_on(toks: Seq<TokView>, st: PState, items: Seq<SpecExpr>, start_position: nat)
    requires
        st.idx <= toks.len(),
    ensures
        moves_on(toks, st, p_arguments_loop(toks, st, items, start_position)),
    decreases rem(toks, st), 9nat,
{
    if let Some(t) = peek(toks, st) {
        if t.kind != TokenKind::RParen && t.kind == TokenKind::Comma {
            let s1 = advance(toks, st);
            if !peek_is(toks, s1, TokenKind::RParen) {
                lemma_expr_impl_moves_on(toks, s1, Precedence::Lowest);
                let (s2, r2) = p_expr_impl(toks, s1, Precedence::Lowest);
                if r2 is Ok && rem(toks, s2) < rem(toks, st) {
                    lemma_arguments_loop_moves_on(toks, s2, items.push(r2->Ok_0), start_position);
                }
            }
        }
    }
}

proof fn lemma_block_moves_on(toks: Seq<TokView>, st: PState)
    requires
        st.idx <= toks.len(),
    ensures
        moves_on(toks, st, p_block(toks, st)),
    decreases rem(toks, st), 3nat,
{
    let (s1, r1) = p_expect(toks, st, TokenKind::LBrace);
    if r1 is Ok {
        lemma_block_loop_moves_on(toks, s1, seq![]);
    }
}

proof fn lemma_block_loop_moves_on(toks: Seq<TokView>, st: PState, stmts: Seq<SpecStmt>)
    requires
        st.idx <= toks.len(),
    ensures
        moves_on(toks, st, p_block_loop(toks, st, stmts)),
    decreases rem(toks, st), 10nat,
{
    if !peek_is(toks, st, TokenKind::RBrace) && peek(toks, st) is Some {
        lemma_statement_moves_on(toks, st);
        let (s1, r1) = p_statement(toks, st);
        if r1 is Ok && rem(toks, s1) < rem(toks, st) {
            lemma_block_loop_moves_on(toks, s1, stmts.push(r1->Ok_0));
        }
    }
}

proof fn lemma_statement_moves_on(toks: Seq<TokView>, st: PState)
    requires
        st.idx <= toks.len(),
    ensures
        moves_on(toks, st, p_statement(toks, st)),
    decreases rem(toks, st), 9nat,
{
    if let Some(t) = peek(toks, st) {
        if t.kind == TokenKind::Let {
            lemma_let_moves_on(toks, st);
        } else if t.kind == TokenKind::For {
            lemma_for_moves_on(toks, st);
        } else if t.kind == TokenKind::While {
            lemma_while_moves_on(toks, st);
        } else {
            lemma_expression_moves_on(toks, st);
        }
    }
}

proof fn lemma_let_moves_on(toks: Seq<TokView>, st: PState)
    requires
        st.idx <= toks.len(),
    ensures
        moves_on(toks, st, p_let(toks, st)),
    decreases rem(toks, st), 8nat,
{
    let (s1, r1) = p_expect(toks, st, TokenKind::Let);
    if r1 is Ok {
        lemma_typed_identifier_moves_on(toks, s1);
        let (s2, r2) = p_typed_identifier(toks, s1);
        if r2 is Ok {
            let (s3, r3) = p_expect(toks, s2, TokenKind::Equals);
            if r3 is Ok && rem(toks, s3) < rem(toks, st) {
                lemma_expression_moves_on(toks, s3);
            }
        }
    }
}

proof fn lemma_for_moves_on(toks: Seq<TokView>, st: PState)
    requires
        st.idx <= toks.len(),
    ensures
        moves_on(toks, st, p_for(toks, st)),
    decreases rem(toks, st), 8nat,
{
    let (s1, r1) = p_expect(toks, st, TokenKind::For);
    if r1 is Ok {
        lemma_typed_identifier_moves_on(toks, s1);
        let (s2, r2) = p_typed_identifier(toks, s1);
        if r2 is Ok {
            let (s3, r3) = p_expect(toks, s2, TokenKind::In);
            if r3 is Ok && rem(toks, s3) < rem(toks, st) {
                lemma_expression_moves_on(toks, s3);
                let (s4, r4) = p_expression(toks, s3);
                if r4 is Ok && rem(toks, s4) < rem(toks, st) {
                    lemma_block_moves_on(toks, s4);
                }
            }
        }
    }
}

proof fn lemma_while_moves_on(toks: Seq<TokView>, st: PState)
    requires
        st.idx <= toks.len(),
    ensures
        moves_on(toks, st, p_while(toks, st)),
    decreases rem(toks, st), 8nat,
{
    let (s1, r1) = p_expect(toks, st, TokenKind::While);
    if r1 is Ok {
        lemma_expression_moves_on(toks, s1);
        let (s2, r2) = p_expression(toks, s1);
        if r2 is Ok && rem(toks, s2) < rem(toks, st) {
            lemma_block_moves_on(toks, s2);
        }
    }
}

} // verus!
