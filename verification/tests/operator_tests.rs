use sorrel::ast::operator::{BinaryOp, UnaryOp};
use sorrel::ast::types::{RegionId, Type, TypeId};
use sorrel::lexer::TokenKind;
use sorrel::parser::expression::Precedence;

#[test]
fn binary_operators_from_tokens() {
    assert_eq!(TokenKind::Plus.to_binary_op(), Some(BinaryOp::Plus));
    assert_eq!(TokenKind::LessThanEqual.to_binary_op(), Some(BinaryOp::LessEqual));
    assert_eq!(TokenKind::GreaterThanEqual.to_binary_op(), Some(BinaryOp::GreaterEqual));
    assert_eq!(TokenKind::DoubleAmpersand.to_binary_op(), Some(BinaryOp::And));
    assert_eq!(TokenKind::DoublePipe.to_binary_op(), Some(BinaryOp::Or));
    assert_eq!(TokenKind::SlashEquals.to_binary_op(), Some(BinaryOp::SlashEquals));
    assert_eq!(TokenKind::Equals.to_binary_op(), None);
    assert_eq!(TokenKind::Percent.to_binary_op(), None);
    assert!(TokenKind::BangEqual.is_binary_op());
    assert!(!TokenKind::Bang.is_binary_op());
}

#[test]
fn unary_operators_from_tokens() {
    assert_eq!(TokenKind::Minus.to_unary_op(), Some(UnaryOp::Negate));
    assert_eq!(TokenKind::Bang.to_unary_op(), Some(UnaryOp::Not));
    assert_eq!(TokenKind::Star.to_unary_op(), Some(UnaryOp::Deref));
    assert_eq!(TokenKind::Ampersand.to_unary_op(), Some(UnaryOp::Ref));
    assert_eq!(TokenKind::Plus.to_unary_op(), None);
    assert!(TokenKind::Minus.is_unary_op());
    assert!(!TokenKind::Slash.is_unary_op());
}

#[test]
fn precedence_of_tokens() {
    assert_eq!(Precedence::from_token_kind(TokenKind::Equals), Precedence::Assignment);
    assert_eq!(Precedence::from_token_kind(TokenKind::DoublePipe), Precedence::LogicalOr);
    assert_eq!(Precedence::from_token_kind(TokenKind::DoubleAmpersand), Precedence::LogicalAnd);
    assert_eq!(Precedence::from_token_kind(TokenKind::DoubleEqual), Precedence::Equality);
    assert_eq!(Precedence::from_token_kind(TokenKind::LessThanEqual), Precedence::Comparison);
    assert_eq!(Precedence::from_token_kind(TokenKind::Minus), Precedence::Term);
    assert_eq!(Precedence::from_token_kind(TokenKind::Slash), Precedence::Factor);
    assert_eq!(Precedence::from_token_kind(TokenKind::LParen), Precedence::Call);
    assert_eq!(Precedence::from_token_kind(TokenKind::Dot), Precedence::Lowest);
    assert_eq!(Precedence::from_token_kind(TokenKind::PlusEquals), Precedence::Lowest);
}

#[test]
fn precedence_ladder() {
    let mut p = Precedence::Lowest;
    let mut levels = vec![p.level()];
    while let Some(q) = p.next_higher() {
        assert!(q > p);
        assert_eq!(q.level(), p.level() + 10);
        levels.push(q.level());
        p = q;
    }
    assert_eq!(p, Precedence::Primary);
    assert_eq!(levels, vec![0, 10, 20, 30, 40, 50, 60, 70, 80, 90, 100]);
    assert_eq!(Precedence::Term.next_higher(), Some(Precedence::Factor));
}

#[test]
fn types_from_tokens() {
    assert_eq!(Type::from_token_kind(&TokenKind::I32), Some(Type::I32));
    assert_eq!(Type::from_token_kind(&TokenKind::USize), Some(Type::USize));
    assert_eq!(Type::from_token_kind(&TokenKind::StrType), Some(Type::Str));
    assert_eq!(Type::from_token_kind(&TokenKind::Ident), None);
    assert_eq!(Type::from_token_kind(&TokenKind::BoolLit), None);
}

#[test]
fn primitive_and_numeric_types() {
    assert!(Type::U8.is_primitive());
    assert!(Type::Void.is_primitive());
    assert!(!Type::Var(TypeId(3)).is_primitive());
    assert!(!Type::Pointer(Box::new(Type::U8), RegionId(0)).is_primitive());
    assert!(Type::F64.is_numeric());
    assert!(Type::ISize.is_numeric());
    assert!(!Type::Bool.is_numeric());
    assert!(!Type::Char.is_numeric());
    assert!(!Type::Array { element_type: Box::new(Type::U8), size: 1 }.is_numeric());
}
