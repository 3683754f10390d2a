//! The parser as mathematical functions over the token sequence.
//!
//! Each function takes the tokens and the parse state (how many tokens are
//! consumed, the end offset of the last consumed token, the region names seen
//! so far) and gives the new state with the result or an error message. The
//! executable parser is proved to compute exactly these functions.
//!
//! Where a function goes on from the state that a recursive call returned,
//! it checks that the call did not move backwards: the check always holds (the
//! executable parser proves so of every step), and it lets the definitions be
//! seen to terminate.

use vstd::prelude::*;
use crate::lexer::{TokenKind, TokView, digits};
use crate::ast::operator::{binary_op_of, unary_op_of};
use crate::ast::types::{RegionId, SpecType, type_of_kind, primitive};
use crate::ast::{SpecLiteral, SpecExpr, SpecStmt, SpecBlock, SpecTypedIdentifier, SpecToplevel, SpecAst};
use crate::parser::expression::{Precedence, level, precedence_of, next_level};
use crate::parser::messages::{
    msg_expected, msg_expected_eof, msg_expected_any, msg_expected_any_eof, msg_delimiter,
    msg_unexpected_kind, msg_invalid_array_size, msg_unexpected_when,
};

verus! {

/// Parse state: tokens consumed, byte offset where the last consumed token
/// ends, and the region names interned so far (a name's region id is its
/// index).
pub struct PState {
    pub idx: nat,
    pub position: nat,
    pub regions: Seq<Seq<char>>,
}

/// The region table `b` extends `a`: every name in `a` keeps its index.
pub open spec fn regions_extend(a: Seq<Seq<char>>, b: Seq<Seq<char>>) -> bool {
    a.len() <= b.len() && forall|i: int| 0 <= i < a.len() ==> #[trigger] b[i] == a[i]
}

/// Tokens left to read.
pub open spec fn rem(toks: Seq<TokView>, st: PState) -> nat {
    if st.idx <= toks.len() {
        (toks.len() - st.idx) as nat
    } else {
        0
    }
}

pub open spec fn peek(toks: Seq<TokView>, st: PState) -> Option<TokView> {
    if st.idx < toks.len() {
        Some(toks[st.idx as int])
    } else {
        None
    }
}

pub open spec fn peek_is(toks: Seq<TokView>, st: PState, k: TokenKind) -> bool {
    peek(toks, st) matches Some(t) && t.kind == k
}

/// Consume one token, if there is one.
pub open spec fn advance(toks: Seq<TokView>, st: PState) -> PState {
    if st.idx < toks.len() {
        PState { idx: st.idx + 1, position: toks[st.idx as int].end, regions: st.regions }
    } else {
        st
    }
}

pub open spec fn p_next(toks: Seq<TokView>, st: PState) -> (PState, Option<TokView>) {
    (advance(toks, st), peek(toks, st))
}

/// Consume the next token, which must be of kind `k`.
pub open spec fn p_expect(toks: Seq<TokView>, st: PState, k: TokenKind) -> (PState, Result<TokView, Seq<char>>) {
    match peek(toks, st) {
        Some(t) => if t.kind == k {
            (advance(toks, st), Ok(t))
        } else {
            (advance(toks, st), Err(msg_expected(k, t.kind, t.start)))
        },
        None => (st, Err(msg_expected_eof(k))),
    }
}

/// Consume the next token if it is of kind `k`.
pub open spec fn p_optional(toks: Seq<TokView>, st: PState, k: TokenKind) -> (PState, Option<TokView>) {
    if peek_is(toks, st, k) {
        (advance(toks, st), peek(toks, st))
    } else {
        (st, None)
    }
}

/// Consume the next token, which must be of one of the kinds `ks`.
pub open spec fn p_any_of(toks: Seq<TokView>, st: PState, ks: Seq<TokenKind>) -> (PState, Result<TokView, Seq<char>>) {
    match peek(toks, st) {
        Some(t) => if ks.contains(t.kind) {
            (advance(toks, st), Ok(t))
        } else {
            (advance(toks, st), Err(msg_expected_any(ks, t.kind, t.start)))
        },
        None => (st, Err(msg_expected_any_eof(ks))),
    }
}

pub open spec fn p_identifier(toks: Seq<TokView>, st: PState) -> (PState, Result<Seq<char>, Seq<char>>) {
    let (s1, r) = p_expect(toks, st, TokenKind::Ident);
    (s1, match r {
        Ok(t) => Ok(t.lexeme),
        Err(e) => Err(e),
    })
}

/// Intern a region name: a name seen before keeps its index, a new one is
/// appended.
pub open spec fn intern(regions: Seq<Seq<char>>, name: Seq<char>) -> (Seq<Seq<char>>, nat) {
    if regions.contains(name) {
        (regions, regions.index_of(name) as nat)
    } else {
        (regions.push(name), regions.len())
    }
}

pub open spec fn p_region(st: PState, name: Seq<char>) -> (PState, RegionId) {
    let (r, id) = intern(st.regions, name);
    (PState { idx: st.idx, position: st.position, regions: r }, RegionId(id as usize))
}

/// The value of a string of decimal digits.
pub open spec fn decimal_value(t: Seq<char>) -> nat
    decreases t.len(),
{
    if t.len() == 0 {
        0
    } else {
        decimal_value(t.drop_last()) * 10 + ((t.last() as int) - 48) as nat
    }
}

/// A string of decimal digits whose value is at most `max`, read as a number.
pub open spec fn parse_unsigned(t: Seq<char>, max: nat) -> Option<nat> {
    if digits(t) && decimal_value(t) <= max {
        Some(decimal_value(t))
    } else {
        None
    }
}

/// The tokens that name primitive types, in the order they are listed when
/// one is expected.
pub open spec fn type_kinds() -> Seq<TokenKind> {
    seq![
        TokenKind::U8,
        TokenKind::U16,
        TokenKind::U32,
        TokenKind::U64,
        TokenKind::I8,
        TokenKind::I16,
        TokenKind::I32,
        TokenKind::I64,
        TokenKind::F32,
        TokenKind::F64,
        TokenKind::ISize,
        TokenKind::USize,
        TokenKind::BoolType,
        TokenKind::CharType,
        TokenKind::StrType,
        TokenKind::VoidType,
    ]
}

// Types
// -------------------------

pub open spec fn p_base_type(toks: Seq<TokView>, st: PState) -> (PState, Result<SpecType, Seq<char>>) {
    let (s1, r) = p_any_of(toks, st, type_kinds());
    match r {
        Err(e) => (s1, Err(e)),
        Ok(t) => match type_of_kind(t.kind) {
            Some(ty) => (s1, Ok(ty)),
            None => (s1, Err(msg_unexpected_kind(t.kind, t.start))),
        },
    }
}

/// `type = primitive | "*" type "'" identifier | "[" type ";" integer "]"`
pub open spec fn p_type(toks: Seq<TokView>, st: PState) -> (PState, Result<SpecType, Seq<char>>)
    decreases rem(toks, st), 1nat,
{
    match peek(toks, st) {
        None => (st, Err("Unexpected end of input while parsing type"@)),
        Some(t) => if t.kind == TokenKind::Star {
            p_pointer_type(toks, st)
        } else if t.kind == TokenKind::LBracket {
            p_array_type(toks, st)
        } else if type_of_kind(t.kind) matches Some(ty) && primitive(ty) {
            p_base_type(toks, st)
        } else {
            (st, Err(msg_unexpected_kind(t.kind, t.start)))
        },
    }
}

pub open spec fn p_pointer_type(toks: Seq<TokView>, st: PState) -> (PState, Result<SpecType, Seq<char>>)
    decreases rem(toks, st), 0nat,
{
    let (s1, r1) = p_expect(toks, st, TokenKind::Star);
    match r1 {
        Err(e) => (s1, Err(e)),
        Ok(_) => {
            let (s2, r2) = p_type(toks, s1);
            match r2 {
                Err(e) => (s2, Err(e)),
                Ok(pointee) => {
                    let (s3, r3) = p_expect(toks, s2, TokenKind::Apostrophe);
                    match r3 {
                        Err(e) => (s3, Err(e)),
                        Ok(_) => {
                            let (s4, r4) = p_identifier(toks, s3);
                            match r4 {
                                Err(e) => (s4, Err(e)),
                                Ok(name) => {
                                    let (s5, region) = p_region(s4, name);
                                    (s5, Ok(SpecType::Pointer(Box::new(pointee), region)))
                                },
                            }
                        },
                    }
                },
            }
        },
    }
}

pub open spec fn p_array_type(toks: Seq<TokView>, st: PState) -> (PState, Result<SpecType, Seq<char>>)
    decreases rem(toks, st), 0nat,
{
    let (s1, r1) = p_expect(toks, st, TokenKind::LBracket);
    match r1 {
        Err(e) => (s1, Err(e)),
        Ok(_) => {
            let (s2, r2) = p_type(toks, s1);
            match r2 {
                Err(e) => (s2, Err(e)),
                Ok(element) => {
                    let (s3, r3) = p_expect(toks, s2, TokenKind::Semicolon);
                    match r3 {
                        Err(e) => (s3, Err(e)),
                        Ok(_) => {
                            let (s4, r4) = p_expect(toks, s3, TokenKind::IntLit);
                            match r4 {
                                Err(e) => (s4, Err(e)),
                                Ok(size_tok) => match parse_unsigned(size_tok.lexeme, usize::MAX as nat) {
                                    None => (s4, Err(msg_invalid_array_size(size_tok.lexeme, size_tok.start))),
                                    Some(size) => {
                                        let (s5, r5) = p_expect(toks, s4, TokenKind::RBracket);
                                        match r5 {
                                            Err(e) => (s5, Err(e)),
                                            Ok(_) => (s5, Ok(SpecType::Array { element_type: Box::new(element), size: size as usize })),
                                        }
                                    },
                                },
                            }
                        },
                    }
                },
            }
        },
    }
}

/// `identifier ":" type`
pub open spec fn p_typed_identifier(toks: Seq<TokView>, st: PState) -> (PState, Result<(Seq<char>, SpecType), Seq<char>>) {
    let (s1, r1) = p_identifier(toks, st);
    match r1 {
        Err(e) => (s1, Err(e)),
        Ok(name) => {
            let (s2, r2) = p_expect(toks, s1, TokenKind::Colon);
            match r2 {
                Err(e) => (s2, Err(e)),
                Ok(_) => {
                    let (s3, r3) = p_type(toks, s2);
                    match r3 {
                        Err(e) => (s3, Err(e)),
                        Ok(ty) => (s3, Ok((name, ty))),
                    }
                },
            }
        },
    }
}


// Literals
// -------------------------

pub open spec fn is_literal_kind(k: TokenKind) -> bool {
    k == TokenKind::IntLit || k == TokenKind::FloatLit || k == TokenKind::StringLit || k
        == TokenKind::CharLit || k == TokenKind::BoolLit
}

/// The value of a literal token. An integer is read as decimal digits; a
/// float keeps its text; a string keeps its text, quotes included; a
/// character literal gives its second character.
pub open spec fn p_literal(t: TokView) -> Result<SpecLiteral, Seq<char>> {
    match t.kind {
        TokenKind::IntLit => match parse_unsigned(t.lexeme, i64::MAX as nat) {
            Some(v) => Ok(SpecLiteral::Int(v as i64)),
            None => Err("Invalid integer literal"@),
        },
        TokenKind::FloatLit => Ok(SpecLiteral::Float(t.lexeme)),
        TokenKind::StringLit => Ok(SpecLiteral::String(t.lexeme)),
        TokenKind::BoolLit => if t.lexeme == "true"@ {
            Ok(SpecLiteral::Bool(true))
        } else if t.lexeme == "false"@ {
            Ok(SpecLiteral::Bool(false))
        } else {
            Err("Invalid boolean literal"@)
        },
        TokenKind::CharLit => if t.lexeme.len() > 1 {
            Ok(SpecLiteral::Char(t.lexeme[1]))
        } else {
            Err("Invalid character literal"@)
        },
        _ => Err(msg_unexpected_kind(t.kind, t.start)),
    }
}

/// A block's statements, with a final expression statement moved to the tail.
pub open spec fn make_block(stmts: Seq<SpecStmt>) -> SpecBlock {
    if stmts.len() > 0 && stmts.last() is Expr {
        SpecBlock {
            region_id: RegionId(0),
            statements: stmts.drop_last(),
            tail: Some(Box::new(stmts.last()->Expr_0)),
        }
    } else {
        SpecBlock { region_id: RegionId(0), statements: stmts, tail: None }
    }
}

// Expressions and statements
// -------------------------

/// `expression`, from the loosest precedence.
pub open spec fn p_expression(toks: Seq<TokView>, st: PState) -> (PState, Result<SpecExpr, Seq<char>>)
    decreases rem(toks, st), 8nat,
{
    p_expr_impl(toks, st, Precedence::Lowest)
}

/// A prefix form, then infix operators binding at least as tightly as `prec`.
pub open spec fn p_expr_impl(toks: Seq<TokView>, st: PState, prec: Precedence) -> (PState, Result<SpecExpr, Seq<char>>)
    decreases rem(toks, st), 7nat,
{
    let (s1, r1) = p_prefix(toks, st);
    match r1 {
        Err(e) => (s1, Err(e)),
        Ok(lhs) => if rem(toks, s1) <= rem(toks, st) {
            p_infix_loop(toks, s1, lhs, prec)
        } else {
            (s1, Err(seq![]))
        },
    }
}

/// Fold infix operators into `lhs` while the next one binds at least as
/// tightly as `prec`.
pub open spec fn p_infix_loop(toks: Seq<TokView>, st: PState, lhs: SpecExpr, prec: Precedence) -> (PState, Result<SpecExpr, Seq<char>>)
    decreases rem(toks, st), 6nat,
{
    match peek(toks, st) {
        None => (st, Ok(lhs)),
        Some(t) => {
            let next_prec = precedence_of(t.kind);
            if level(next_prec) < level(prec) || next_prec == Precedence::Lowest {
                (st, Ok(lhs))
            } else {
                let (s1, r1) = p_infix(toks, st, lhs, next_prec);
                match r1 {
                    Err(e) => (s1, Err(e)),
                    Ok(e) => if rem(toks, s1) < rem(toks, st) {
                        p_infix_loop(toks, s1, e, prec)
                    } else {
                        (s1, Err(seq![]))
                    },
                }
            }
        },
    }
}

/// `&` forms a borrow; `-`, `!` and `*` a unary operation; anything else a
/// primary expression.
pub open spec fn p_prefix(toks: Seq<TokView>, st: PState) -> (PState, Result<SpecExpr, Seq<char>>)
    decreases rem(toks, st), 5nat,
{
    match peek(toks, st) {
        Some(t) => if t.kind == TokenKind::Ampersand {
            p_reference(toks, st)
        } else if t.kind == TokenKind::Minus || t.kind == TokenKind::Bang || t.kind
            == TokenKind::Star {
            p_unary(toks, st)
        } else {
            p_primary(toks, st)
        },
        None => p_primary(toks, st),
    }
}

/// A block, a literal, an identifier, an `if`, or a parenthesized expression.
pub open spec fn p_primary(toks: Seq<TokView>, st: PState) -> (PState, Result<SpecExpr, Seq<char>>)
    decreases rem(toks, st), 4nat,
{
    if peek_is(toks, st, TokenKind::LBrace) {
        let (s1, r1) = p_block(toks, st);
        match r1 {
            Err(e) => (s1, Err(e)),
            Ok(b) => (s1, Ok(SpecExpr::Block(b))),
        }
    } else {
        let (s1, next) = p_next(toks, st);
        match next {
            None => (s1, Err("Unexpected end of input"@)),
            Some(t) => if is_literal_kind(t.kind) {
                match p_literal(t) {
                    Ok(l) => (s1, Ok(SpecExpr::Literal(l))),
                    Err(e) => (s1, Err(e)),
                }
            } else if t.kind == TokenKind::Ident {
                (s1, Ok(SpecExpr::Identifier(SpecTypedIdentifier { name: t.lexeme, type_: None })))
            } else if t.kind == TokenKind::If {
                p_if(toks, s1)
            } else if t.kind == TokenKind::LParen {
                let (s2, r2) = p_expr_impl(toks, s1, Precedence::Lowest);
                match r2 {
                    Err(e) => (s2, Err(e)),
                    Ok(e) => {
                        let (s3, r3) = p_expect(toks, s2, TokenKind::RParen);
                        match r3 {
                            Err(msg) => (s3, Err(msg)),
                            Ok(_) => (s3, Ok(e)),
                        }
                    },
                }
            } else {
                (s1, Err(msg_unexpected_when(t.kind, "primary expression"@)))
            },
        }
    }
}

/// A unary operator applied to an operand that binds at least as tightly as
/// a unary operation.
pub open spec fn p_unary(toks: Seq<TokView>, st: PState) -> (PState, Result<SpecExpr, Seq<char>>)
    decreases rem(toks, st), 4nat,
{
    let (s1, next) = p_next(toks, st);
    match next {
        None => (s1, Err("Unexpected end of input"@)),
        Some(t) => match unary_op_of(t.kind) {
            None => (s1, Err(msg_unexpected_when(t.kind, "unary expression"@))),
            Some(op) => {
                let (s2, r2) = p_expr_impl(toks, s1, Precedence::Unary);
                match r2 {
                    Err(e) => (s2, Err(e)),
                    Ok(e) => (s2, Ok(SpecExpr::UnaryOp { op, expr: Box::new(e) })),
                }
            },
        },
    }
}

/// An infix form after `lhs`: a call, an assignment, a compound assignment,
/// an index `.[e]`, or a binary operation whose right side binds one level
/// tighter than `prec`.
pub open spec fn p_infix(toks: Seq<TokView>, st: PState, lhs: SpecExpr, prec: Precedence) -> (PState, Result<SpecExpr, Seq<char>>)
    decreases rem(toks, st), 5nat,
{
    let (s1, next) = p_next(toks, st);
    match next {
        None => (s1, Err("Unexpected end of input"@)),
        Some(t) => if t.kind == TokenKind::LParen {
            let (s2, r2) = p_arguments(toks, s1);
            match r2 {
                Err(e) => (s2, Err(e)),
                Ok(args) => (s2, Ok(SpecExpr::Call { callee: Box::new(lhs), args })),
            }
        } else if t.kind == TokenKind::Equals {
            let (s2, r2) = p_expr_impl(toks, s1, Precedence::Assignment);
            match r2 {
                Err(e) => (s2, Err(e)),
                Ok(rhs) => (s2, Ok(SpecExpr::Assign { target: Box::new(lhs), value: Box::new(rhs) })),
            }
        } else if t.kind == TokenKind::PlusEquals || t.kind == TokenKind::MinusEquals || t.kind
            == TokenKind::StarEquals || t.kind == TokenKind::SlashEquals {
            match binary_op_of(t.kind) {
                None => (s1, Err(msg_unexpected_when(t.kind, "post assignment"@))),
                Some(op) => {
                    let (s2, r2) = p_expr_impl(toks, s1, Precedence::Assignment);
                    match r2 {
                        Err(e) => (s2, Err(e)),
                        Ok(rhs) => (s2, Ok(SpecExpr::PostAssign { target: Box::new(lhs), op, value: Box::new(rhs) })),
                    }
                },
            }
        } else if t.kind == TokenKind::Dot {
            let (s2, next2) = p_next(toks, s1);
            match next2 {
                None => (s2, Err("Unexpected end of input after '.'"@)),
                Some(t2) => if t2.kind == TokenKind::LBracket {
                    let (s3, r3) = p_expr_impl(toks, s2, Precedence::Lowest);
                    match r3 {
                        Err(e) => (s3, Err(e)),
                        Ok(index) => {
                            let (s4, r4) = p_expect(toks, s3, TokenKind::RBracket);
                            match r4 {
                                Err(e) => (s4, Err(e)),
                                Ok(_) => (s4, Ok(SpecExpr::Index { indexed: Box::new(lhs), index: Box::new(index) })),
                            }
                        },
                    }
                } else {
                    p_binary(toks, s2, lhs, prec, t)
                },
            }
        } else {
            p_binary(toks, s1, lhs, prec, t)
        },
    }
}

/// The binary-operator part of an infix form whose operator token `t` has
/// been consumed.
pub open spec fn p_binary(toks: Seq<TokView>, st: PState, lhs: SpecExpr, prec: Precedence, t: TokView) -> (PState, Result<SpecExpr, Seq<char>>)
    decreases rem(toks, st), 8nat,
{
    match binary_op_of(t.kind) {
        Some(op) => {
            let rhs_prec = match next_level(prec) {
                Some(p) => p,
                None => Precedence::Primary,
            };
            let (s1, r1) = p_expr_impl(toks, st, rhs_prec);
            match r1 {
                Err(e) => (s1, Err(e)),
                Ok(rhs) => (s1, Ok(SpecExpr::BinaryOp { left: Box::new(lhs), op, right: Box::new(rhs) })),
            }
        },
        None => (st, Err(msg_unexpected_when(t.kind, "infix expression"@))),
    }
}

/// `& operand ' region`
pub open spec fn p_reference(toks: Seq<TokView>, st: PState) -> (PState, Result<SpecExpr, Seq<char>>)
    decreases rem(toks, st), 4nat,
{
    let (s1, r1) = p_expect(toks, st, TokenKind::Ampersand);
    match r1 {
        Err(e) => (s1, Err(e)),
        Ok(_) => {
            let (s2, r2) = p_expr_impl(toks, s1, Precedence::Unary);
            match r2 {
                Err(e) => (s2, Err(e)),
                Ok(e) => {
                    let (s3, r3) = p_expect(toks, s2, TokenKind::Apostrophe);
                    match r3 {
                        Err(msg) => (s3, Err(msg)),
                        Ok(_) => {
                            let (s4, r4) = p_identifier(toks, s3);
                            match r4 {
                                Err(msg) => (s4, Err(msg)),
                                Ok(name) => {
                                    let (s5, region) = p_region(s4, name);
                                    (s5, Ok(SpecExpr::Borrow { expr: Box::new(e), region_id: region }))
                                },
                            }
                        },
                    }
                },
            }
        },
    }
}

/// After `if`: a condition, a block, and optionally `else` followed by
/// another `if` expression or a block.
pub open spec fn p_if(toks: Seq<TokView>, st: PState) -> (PState, Result<SpecExpr, Seq<char>>)
    decreases rem(toks, st), 8nat,
{
    let (s1, r1) = p_expr_impl(toks, st, Precedence::Lowest);
    match r1 {
        Err(e) => (s1, Err(e)),
        Ok(condition) => if rem(toks, s1) <= rem(toks, st) {
            let (s2, r2) = p_block(toks, s1);
            match r2 {
                Err(e) => (s2, Err(e)),
                Ok(then_branch) => if peek_is(toks, s2, TokenKind::Else) {
                    let (s3, r3) = p_expect(toks, s2, TokenKind::Else);
                    match r3 {
                        Err(e) => (s3, Err(e)),
                        Ok(_) => if peek_is(toks, s3, TokenKind::If) {
                            let s4 = advance(toks, s3);
                            if rem(toks, s4) < rem(toks, st) {
                                let (s5, r5) = p_if(toks, s4);
                                match r5 {
                                    Err(e) => (s5, Err(e)),
                                    Ok(else_if) => (s5, Ok(SpecExpr::If {
                                        condition: Box::new(condition),
                                        then_branch,
                                        else_branch: Some(Box::new(else_if)),
                                    })),
                                }
                            } else {
                                (s4, Err(seq![]))
                            }
                        } else if rem(toks, s3) <= rem(toks, st) {
                            let (s4, r4) = p_block(toks, s3);
                            match r4 {
                                Err(e) => (s4, Err(e)),
                                Ok(else_block) => (s4, Ok(SpecExpr::If {
                                    condition: Box::new(condition),
                                    then_branch,
                                    else_branch: Some(Box::new(SpecExpr::Block(else_block))),
                                })),
                            }
                        } else {
                            (s3, Err(seq![]))
                        },
                    }
                } else {
                    (s2, Ok(SpecExpr::If { condition: Box::new(condition), then_branch, else_branch: None }))
                },
            }
        } else {
            (s1, Err(seq![]))
        },
    }
}

/// Call arguments, after the call's `(`: expressions separated by commas up
/// to `)`, a trailing comma allowed. No other opener is taken, so an argument
/// may itself begin with `(`.
pub open spec fn p_arguments(toks: Seq<TokView>, st: PState) -> (PState, Result<Seq<SpecExpr>, Seq<char>>)
    decreases rem(toks, st), 8nat,
{
    let start_position = st.position;
    if peek_is(toks, st, TokenKind::RParen) {
        let (s2, r2) = p_expect(toks, st, TokenKind::RParen);
        (s2, match r2 {
            Ok(_) => Ok(seq![]),
            Err(e) => Err(e),
        })
    } else {
        let (s2, r2) = p_expr_impl(toks, st, Precedence::Lowest);
        match r2 {
            Err(e) => (s2, Err(e)),
            Ok(first) => if rem(toks, s2) < rem(toks, st) {
                p_arguments_loop(toks, s2, seq![first], start_position)
            } else {
                (s2, Err(seq![]))
            },
        }
    }
}

pub open spec fn p_arguments_loop(toks: Seq<TokView>, st: PState, items: Seq<SpecExpr>, start_position: nat) -> (PState, Result<Seq<SpecExpr>, Seq<char>>)
    decreases rem(toks, st), 9nat,
{
    match peek(toks, st) {
        None => {
            let (s1, r1) = p_expect(toks, st, TokenKind::RParen);
            (s1, match r1 {
                Ok(_) => Ok(items),
                Err(e) => Err(e),
            })
        },
        Some(t) => if t.kind == TokenKind::RParen {
            let (s1, r1) = p_expect(toks, st, TokenKind::RParen);
            (s1, match r1 {
                Ok(_) => Ok(items),
                Err(e) => Err(e),
            })
        } else if t.kind == TokenKind::Comma {
            let s1 = advance(toks, st);
            if peek_is(toks, s1, TokenKind::RParen) {
                let (s2, r2) = p_expect(toks, s1, TokenKind::RParen);
                (s2, match r2 {
                    Ok(_) => Ok(items),
                    Err(e) => Err(e),
                })
            } else {
                let (s2, r2) = p_expr_impl(toks, s1, Precedence::Lowest);
                match r2 {
                    Err(e) => (s2, Err(e)),
                    Ok(item) => if rem(toks, s2) < rem(toks, st) {
                        p_arguments_loop(toks, s2, items.push(item), start_position)
                    } else {
                        (s2, Err(seq![]))
                    },
                }
            }
        } else {
            (st, Err(msg_delimiter(TokenKind::Comma, TokenKind::RParen, t.kind, start_position)))
        },
    }
}

/// `{ statement* }`, the last statement becoming the tail if it is an
/// expression.
pub open spec fn p_block(toks: Seq<TokView>, st: PState) -> (PState, Result<SpecBlock, Seq<char>>)
    decreases rem(toks, st), 3nat,
{
    let (s1, r1) = p_expect(toks, st, TokenKind::LBrace);
    match r1 {
        Err(e) => (s1, Err(e)),
        Ok(_) => p_block_loop(toks, s1, seq![]),
    }
}

pub open spec fn p_block_loop(toks: Seq<TokView>, st: PState, stmts: Seq<SpecStmt>) -> (PState, Result<SpecBlock, Seq<char>>)
    decreases rem(toks, st), 10nat,
{
    if peek_is(toks, st, TokenKind::RBrace) {
        let (s1, r1) = p_expect(toks, st, TokenKind::RBrace);
        (s1, match r1 {
            Ok(_) => Ok(make_block(stmts)),
            Err(e) => Err(e),
        })
    } else if peek(toks, st) is None {
        (st, Err("Unexpected end of input while parsing block"@))
    } else {
        let (s1, r1) = p_statement(toks, st);
        match r1 {
            Err(e) => (s1, Err(e)),
            Ok(s) => if rem(toks, s1) < rem(toks, st) {
                p_block_loop(toks, s1, stmts.push(s))
            } else {
                (s1, Err(seq![]))
            },
        }
    }
}

/// `let`, `for`, `while`, or an expression.
pub open spec fn p_statement(toks: Seq<TokView>, st: PState) -> (PState, Result<SpecStmt, Seq<char>>)
    decreases rem(toks, st), 9nat,
{
    match peek(toks, st) {
        None => (st, Err("Unexpected end of input while parsing statement"@)),
        Some(t) => if t.kind == TokenKind::Let {
            p_let(toks, st)
        } else if t.kind == TokenKind::For {
            p_for(toks, st)
        } else if t.kind == TokenKind::While {
            p_while(toks, st)
        } else {
            let (s1, r1) = p_expression(toks, st);
            match r1 {
                Err(e) => (s1, Err(e)),
                Ok(e) => (s1, Ok(SpecStmt::Expr(e))),
            }
        },
    }
}

/// `let identifier : type = expression`
pub open spec fn p_let(toks: Seq<TokView>, st: PState) -> (PState, Result<SpecStmt, Seq<char>>)
    decreases rem(toks, st), 8nat,
{
    let (s1, r1) = p_expect(toks, st, TokenKind::Let);
    match r1 {
        Err(e) => (s1, Err(e)),
        Ok(_) => {
            let (s2, r2) = p_typed_identifier(toks, s1);
            match r2 {
                Err(e) => (s2, Err(e)),
                Ok((name, ty)) => {
                    let (s3, r3) = p_expect(toks, s2, TokenKind::Equals);
                    match r3 {
                        Err(e) => (s3, Err(e)),
                        Ok(_) => if rem(toks, s3) < rem(toks, st) {
                            let (s4, r4) = p_expression(toks, s3);
                            match r4 {
                                Err(e) => (s4, Err(e)),
                                Ok(value) => (s4, Ok(SpecStmt::Let {
                                    identifier: SpecTypedIdentifier { name, type_: Some(ty) },
                                    value: Box::new(value),
                                })),
                            }
                        } else {
                            (s3, Err(seq![]))
                        },
                    }
                },
            }
        },
    }
}

/// `for identifier : type in expression block`
pub open spec fn p_for(toks: Seq<TokView>, st: PState) -> (PState, Result<SpecStmt, Seq<char>>)
    decreases rem(toks, st), 8nat,
{
    let (s1, r1) = p_expect(toks, st, TokenKind::For);
    match r1 {
        Err(e) => (s1, Err(e)),
        Ok(_) => {
            let (s2, r2) = p_typed_identifier(toks, s1);
            match r2 {
                Err(e) => (s2, Err(e)),
                Ok((name, ty)) => {
                    let (s3, r3) = p_expect(toks, s2, TokenKind::In);
                    match r3 {
                        Err(e) => (s3, Err(e)),
                        Ok(_) => if rem(toks, s3) < rem(toks, st) {
                            let (s4, r4) = p_expression(toks, s3);
                            match r4 {
                                Err(e) => (s4, Err(e)),
                                Ok(iterable) => if rem(toks, s4) < rem(toks, st) {
                                    let (s5, r5) = p_block(toks, s4);
                                    match r5 {
                                        Err(e) => (s5, Err(e)),
                                        Ok(body) => (s5, Ok(SpecStmt::For {
                                            iterator: SpecTypedIdentifier { name, type_: Some(ty) },
                                            iterable: Box::new(iterable),
                                            body,
                                        })),
                                    }
                                } else {
                                    (s4, Err(seq![]))
                                },
                            }
                        } else {
                            (s3, Err(seq![]))
                        },
                    }
                },
            }
        },
    }
}

/// `while expression block`
pub open spec fn p_while(toks: Seq<TokView>, st: PState) -> (PState, Result<SpecStmt, Seq<char>>)
    decreases rem(toks, st), 8nat,
{
    let (s1, r1) = p_expect(toks, st, TokenKind::While);
    match r1 {
        Err(e) => (s1, Err(e)),
        Ok(_) => {
            let (s2, r2) = p_expression(toks, s1);
            match r2 {
                Err(e) => (s2, Err(e)),
                Ok(condition) => if rem(toks, s2) < rem(toks, st) {
                    let (s3, r3) = p_block(toks, s2);
                    match r3 {
                        Err(e) => (s3, Err(e)),
                        Ok(body) => (s3, Ok(SpecStmt::While { condition: Box::new(condition), body })),
                    }
                } else {
                    (s2, Err(seq![]))
                },
            }
        },
    }
}


// Declarations
// -------------------------

/// Fields or variants up to `}`: typed identifiers, each optionally followed
/// by a comma.
pub open spec fn p_members(toks: Seq<TokView>, st: PState, acc: Seq<SpecTypedIdentifier>) -> (PState, Result<Seq<SpecTypedIdentifier>, Seq<char>>)
    decreases rem(toks, st),
{
    if peek_is(toks, st, TokenKind::RBrace) {
        let (s1, r1) = p_expect(toks, st, TokenKind::RBrace);
        (s1, match r1 {
            Ok(_) => Ok(acc),
            Err(e) => Err(e),
        })
    } else {
        let (s1, r1) = p_typed_identifier(toks, st);
        match r1 {
            Err(e) => (s1, Err(e)),
            Ok((name, ty)) => {
                let (s2, _) = p_optional(toks, s1, TokenKind::Comma);
                if rem(toks, s2) < rem(toks, st) {
                    p_members(toks, s2, acc.push(SpecTypedIdentifier { name, type_: Some(ty) }))
                } else {
                    (s2, Err(seq![]))
                }
            },
        }
    }
}

/// `keyword identifier { members }` for `struct` and `enum`.
pub open spec fn p_declaration(toks: Seq<TokView>, st: PState, keyword: TokenKind) -> (PState, Result<(Seq<char>, Seq<SpecTypedIdentifier>), Seq<char>>) {
    let (s1, r1) = p_expect(toks, st, keyword);
    match r1 {
        Err(e) => (s1, Err(e)),
        Ok(_) => {
            let (s2, r2) = p_identifier(toks, s1);
            match r2 {
                Err(e) => (s2, Err(e)),
                Ok(name) => {
                    let (s3, r3) = p_expect(toks, s2, TokenKind::LBrace);
                    match r3 {
                        Err(e) => (s3, Err(e)),
                        Ok(_) => {
                            let (s4, r4) = p_members(toks, s3, seq![]);
                            match r4 {
                                Err(e) => (s4, Err(e)),
                                Ok(members) => (s4, Ok((name, members))),
                            }
                        },
                    }
                },
            }
        },
    }
}

/// `struct identifier { fields }`
pub open spec fn p_struct_declaration(toks: Seq<TokView>, st: PState) -> (PState, Result<SpecToplevel, Seq<char>>) {
    let (s1, r1) = p_declaration(toks, st, TokenKind::Struct);
    (s1, match r1 {
        Ok((name, fields)) => Ok(SpecToplevel::StructDecl { name, fields }),
        Err(e) => Err(e),
    })
}

/// `enum identifier { variants }`
pub open spec fn p_enum_declaration(toks: Seq<TokView>, st: PState) -> (PState, Result<SpecToplevel, Seq<char>>) {
    let (s1, r1) = p_declaration(toks, st, TokenKind::Enum);
    (s1, match r1 {
        Ok((name, variants)) => Ok(SpecToplevel::EnumDecl { name, variants }),
        Err(e) => Err(e),
    })
}

/// A struct or enum declaration.
pub open spec fn p_toplevel(toks: Seq<TokView>, st: PState) -> (PState, Result<SpecToplevel, Seq<char>>) {
    match peek(toks, st) {
        None => (st, Err("Unexpected end of input while parsing toplevel statement"@)),
        Some(t) => if t.kind == TokenKind::Struct {
            p_struct_declaration(toks, st)
        } else if t.kind == TokenKind::Enum {
            p_enum_declaration(toks, st)
        } else {
            (st, Err(msg_unexpected_kind(t.kind, t.start)))
        },
    }
}

/// Declarations up to the end of the input.
pub open spec fn p_module(toks: Seq<TokView>, st: PState, acc: Seq<SpecToplevel>) -> (PState, Result<SpecAst, Seq<char>>)
    decreases rem(toks, st),
{
    if peek(toks, st) is None {
        (st, Ok(SpecAst { toplevel_stmts: acc }))
    } else {
        let (s1, r1) = p_toplevel(toks, st);
        match r1 {
            Err(e) => (s1, Err(e)),
            Ok(t) => if rem(toks, s1) < rem(toks, st) {
                p_module(toks, s1, acc.push(t))
            } else {
                (s1, Err(seq![]))
            },
        }
    }
}

// Combinators over an element parser
// -------------------------

/// Items between `start` and `end`: `start` is consumed if it is next, then
/// `elem` is applied until `end` is next, then `end` is expected.
pub open spec fn p_between<V>(toks: Seq<TokView>, st: PState, start: TokenKind, end: TokenKind, elem: spec_fn(PState) -> (PState, Result<V, Seq<char>>)) -> (PState, Result<Seq<V>, Seq<char>>) {
    let s1 = if peek_is(toks, st, start) {
        advance(toks, st)
    } else {
        st
    };
    p_between_loop(toks, s1, end, elem, seq![])
}

pub open spec fn p_between_loop<V>(toks: Seq<TokView>, st: PState, end: TokenKind, elem: spec_fn(PState) -> (PState, Result<V, Seq<char>>), items: Seq<V>) -> (PState, Result<Seq<V>, Seq<char>>)
    decreases rem(toks, st),
{
    if peek(toks, st) is None || peek_is(toks, st, end) {
        let (s1, r1) = p_expect(toks, st, end);
        (s1, match r1 {
            Ok(_) => Ok(items),
            Err(e) => Err(e),
        })
    } else {
        let (s1, r1) = elem(st);
        match r1 {
            Err(e) => (s1, Err(e)),
            Ok(item) => if rem(toks, s1) < rem(toks, st) {
                p_between_loop(toks, s1, end, elem, items.push(item))
            } else {
                (s1, Err(seq![]))
            },
        }
    }
}

/// Items between `start` and `end`, separated by `delimiter`, a trailing
/// delimiter allowed: `start` is consumed if it is next.
pub open spec fn p_delimited<V>(toks: Seq<TokView>, st: PState, start: TokenKind, end: TokenKind, delimiter: TokenKind, elem: spec_fn(PState) -> (PState, Result<V, Seq<char>>)) -> (PState, Result<Seq<V>, Seq<char>>) {
    let s1 = if peek_is(toks, st, start) {
        advance(toks, st)
    } else {
        st
    };
    p_delimited_items(toks, s1, end, delimiter, elem, st.position)
}

/// The items of a delimited list, after its opener, up to and with `end`;
/// `start_position` is where the list began, for the error message.
pub open spec fn p_delimited_items<V>(toks: Seq<TokView>, st: PState, end: TokenKind, delimiter: TokenKind, elem: spec_fn(PState) -> (PState, Result<V, Seq<char>>), start_position: nat) -> (PState, Result<Seq<V>, Seq<char>>) {
    if peek_is(toks, st, end) {
        let (s2, r2) = p_expect(toks, st, end);
        (s2, match r2 {
            Ok(_) => Ok(seq![]),
            Err(e) => Err(e),
        })
    } else {
        let (s2, r2) = elem(st);
        match r2 {
            Err(e) => (s2, Err(e)),
            Ok(first) => p_delimited_loop(toks, s2, end, delimiter, elem, seq![first], start_position),
        }
    }
}

pub open spec fn p_delimited_loop<V>(toks: Seq<TokView>, st: PState, end: TokenKind, delimiter: TokenKind, elem: spec_fn(PState) -> (PState, Result<V, Seq<char>>), items: Seq<V>, start_position: nat) -> (PState, Result<Seq<V>, Seq<char>>)
    decreases rem(toks, st),
{
    match peek(toks, st) {
        None => {
            let (s1, r1) = p_expect(toks, st, end);
            (s1, match r1 {
                Ok(_) => Ok(items),
                Err(e) => Err(e),
            })
        },
        Some(t) => if t.kind == end {
            let (s1, r1) = p_expect(toks, st, end);
            (s1, match r1 {
                Ok(_) => Ok(items),
                Err(e) => Err(e),
            })
        } else if t.kind == delimiter {
            let s1 = advance(toks, st);
            if peek_is(toks, s1, end) {
                let (s2, r2) = p_expect(toks, s1, end);
                (s2, match r2 {
                    Ok(_) => Ok(items),
                    Err(e) => Err(e),
                })
            } else {
                let (s2, r2) = elem(s1);
                match r2 {
                    Err(e) => (s2, Err(e)),
                    Ok(item) => if rem(toks, s2) < rem(toks, st) {
                        p_delimited_loop(toks, s2, end, delimiter, elem, items.push(item), start_position)
                    } else {
                        (s2, Err(seq![]))
                    },
                }
            }
        } else {
            (st, Err(msg_delimiter(delimiter, end, t.kind, start_position)))
        },
    }
}

} // verus!
