//! Operators of the Sorrel language and their tokens.

use vstd::prelude::*;
use crate::lexer::{TokenKind, literal_of};
use crate::lexer::rules::{literal_kind, lemma_literal_kind, lemma_literal_injective};

verus! {

#[derive(Debug, Clone, Copy, PartialEq, Eq, Structural)]
pub enum BinaryOp {
    Plus,  // +
    Minus,  // -
    Star,  // *
    Slash,  // /
    PlusEquals,  // +=
    MinusEquals,  // -=
    StarEquals,  // *=
    SlashEquals,  // /=
    DoubleEqual,  // ==
    BangEqual,  // !=
    LessThan,  // <
    LessEqual,  // <=
    GreaterThan,  // >
    GreaterEqual,  // >=
    And,  // &&
    Or,  // ||
}

#[derive(Debug, Clone, Copy, PartialEq, Eq, Structural)]
pub enum UnaryOp {
    Negate,  // -a
    Not,  // !a
    Deref,  // *a
    Ref,  // &a
}

/// The binary operator that a token stands for.
pub open spec fn binary_op_of(k: TokenKind) -> Option<BinaryOp> {
    match k {
        TokenKind::Plus => Some(BinaryOp::Plus),
        TokenKind::Minus => Some(BinaryOp::Minus),
        TokenKind::Star => Some(BinaryOp::Star),
        TokenKind::Slash => Some(BinaryOp::Slash),
        TokenKind::PlusEquals => Some(BinaryOp::PlusEquals),
        TokenKind::MinusEquals => Some(BinaryOp::MinusEquals),
        TokenKind::StarEquals => Some(BinaryOp::StarEquals),
        TokenKind::SlashEquals => Some(BinaryOp::SlashEquals),
        TokenKind::DoubleEqual => Some(BinaryOp::DoubleEqual),
        TokenKind::BangEqual => Some(BinaryOp::BangEqual),
        TokenKind::LessThan => Some(BinaryOp::LessThan),
        TokenKind::LessThanEqual => Some(BinaryOp::LessEqual),
        TokenKind::GreaterThan => Some(BinaryOp::GreaterThan),
        TokenKind::GreaterThanEqual => Some(BinaryOp::GreaterEqual),
        TokenKind::DoubleAmpersand => Some(BinaryOp::And),
        TokenKind::DoublePipe => Some(BinaryOp::Or),
        _ => None,
    }
}

/// The unary operator that a token stands for.
pub open spec fn unary_op_of(k: TokenKind) -> Option<UnaryOp> {
    match k {
        TokenKind::Minus => Some(UnaryOp::Negate),
        TokenKind::Bang => Some(UnaryOp::Not),
        TokenKind::Star => Some(UnaryOp::Deref),
        TokenKind::Ampersand => Some(UnaryOp::Ref),
        _ => None,
    }
}

impl TokenKind {
    /// Convert a TokenKind to a BinaryOp, if this is a valid operator token.
    pub fn to_binary_op(&self) -> (r: Option<BinaryOp>)
        ensures
            r == binary_op_of(*self),
    {
        match self {
            TokenKind::Plus => Some(BinaryOp::Plus),
            TokenKind::Minus => Some(BinaryOp::Minus),
            TokenKind::Star => Some(BinaryOp::Star),
            TokenKind::Slash => Some(BinaryOp::Slash),
            TokenKind::PlusEquals => Some(BinaryOp::PlusEquals),
            TokenKind::MinusEquals => Some(BinaryOp::MinusEquals),
            TokenKind::StarEquals => Some(BinaryOp::StarEquals),
            TokenKind::SlashEquals => Some(BinaryOp::SlashEquals),
            TokenKind::DoubleEqual => Some(BinaryOp::DoubleEqual),
            TokenKind::BangEqual => Some(BinaryOp::BangEqual),
            TokenKind::LessThan => Some(BinaryOp::LessThan),
            TokenKind::LessThanEqual => Some(BinaryOp::LessEqual),
            TokenKind::GreaterThan => Some(BinaryOp::GreaterThan),
            TokenKind::GreaterThanEqual => Some(BinaryOp::GreaterEqual),
            TokenKind::DoubleAmpersand => Some(BinaryOp::And),
            TokenKind::DoublePipe => Some(BinaryOp::Or),
            _ => None,
        }
    }

    pub fn is_binary_op(&self) -> (r: bool)
        ensures
            r == binary_op_of(*self).is_some(),
    {
        self.to_binary_op().is_some()
    }

    pub fn is_unary_op(&self) -> (r: bool)
        ensures
            r == unary_op_of(*self).is_some(),
    {
        self.to_unary_op().is_some()
    }

    /// Convert a TokenKind to a UnaryOp, if this is a valid operator token.
    pub fn to_unary_op(&self) -> (r: Option<UnaryOp>)
        ensures
            r == unary_op_of(*self),
    {
        match self {
            TokenKind::Minus => Some(UnaryOp::Negate),
            TokenKind::Bang => Some(UnaryOp::Not),
            TokenKind::Star => Some(UnaryOp::Deref),
            TokenKind::Ampersand => Some(UnaryOp::Ref),
            _ => None,
        }
    }
}


/// How a binary operator is written in source text.
pub open spec fn binary_spelling(op: BinaryOp) -> Seq<char> {
    match op {
        BinaryOp::Plus => seq!['+'],
        BinaryOp::Minus => seq!['-'],
        BinaryOp::Star => seq!['*'],
        BinaryOp::Slash => seq!['/'],
        BinaryOp::PlusEquals => seq!['+', '='],
        BinaryOp::MinusEquals => seq!['-', '='],
        BinaryOp::StarEquals => seq!['*', '='],
        BinaryOp::SlashEquals => seq!['/', '='],
        BinaryOp::DoubleEqual => seq!['=', '='],
        BinaryOp::BangEqual => seq!['!', '='],
        BinaryOp::LessThan => seq!['<'],
        BinaryOp::LessEqual => seq!['<', '='],
        BinaryOp::GreaterThan => seq!['>'],
        BinaryOp::GreaterEqual => seq!['>', '='],
        BinaryOp::And => seq!['&', '&'],
        BinaryOp::Or => seq!['|', '|'],
    }
}

/// How a unary operator is written in source text.
pub open spec fn unary_spelling(op: UnaryOp) -> Seq<char> {
    match op {
        UnaryOp::Negate => seq!['-'],
        UnaryOp::Not => seq!['!'],
        UnaryOp::Deref => seq!['*'],
        UnaryOp::Ref => seq!['&'],
    }
}

/// A token stands for a binary operator exactly when the token is written
/// the way that operator is: `!=` gives `BangEqual`, `<=` gives `LessEqual`,
/// and so on for every operator.
pub proof fn law_binary_op_spelling(k: TokenKind, op: BinaryOp)
    ensures
        binary_op_of(k) == Some(op) <==> literal_of(k) == Some(binary_spelling(op)),
{
    lemma_literal_kind(k);
    if literal_of(k) == Some(binary_spelling(op)) {
        assert(literal_kind(binary_spelling(op)) == Some(k));
        match op {
            _ => {},
        }
    }
}

/// Different tokens stand for different binary operators.
pub proof fn law_binary_op_injective(k1: TokenKind, k2: TokenKind)
    requires
        binary_op_of(k1) is Some,
        binary_op_of(k1) == binary_op_of(k2),
    ensures
        k1 == k2,
{
    let op = binary_op_of(k1)->Some_0;
    law_binary_op_spelling(k1, op);
    law_binary_op_spelling(k2, op);
    lemma_literal_injective(k1, k2);
}

/// A token stands for a unary operator exactly when the token is written
/// the way that operator is.
pub proof fn law_unary_op_spelling(k: TokenKind, op: UnaryOp)
    ensures
        unary_op_of(k) == Some(op) <==> literal_of(k) == Some(unary_spelling(op)),
{
    lemma_literal_kind(k);
    if literal_of(k) == Some(unary_spelling(op)) {
        assert(literal_kind(unary_spelling(op)) == Some(k));
        match op {
            _ => {},
        }
    }
}

} // verus!
