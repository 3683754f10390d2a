//! Error messages of the parser.
//!
//! Each message is stated as text: token kinds are written by their variant
//! names, lists of kinds as `[A, B]`, positions in decimal.

use vstd::prelude::*;
use crate::lexer::TokenKind;

verus! {

broadcast use vstd::string::group_string_axioms;

/// The name of a token kind, as its derived `Debug` writes it.
pub open spec fn kind_name(k: TokenKind) -> Seq<char> {
    match k {
        TokenKind::Plus => "Plus"@,
        TokenKind::Minus => "Minus"@,
        TokenKind::Star => "Star"@,
        TokenKind::Slash => "Slash"@,
        TokenKind::Percent => "Percent"@,
        TokenKind::LParen => "LParen"@,
        TokenKind::RParen => "RParen"@,
        TokenKind::LBracket => "LBracket"@,
        TokenKind::RBracket => "RBracket"@,
        TokenKind::LBrace => "LBrace"@,
        TokenKind::RBrace => "RBrace"@,
        TokenKind::Equals => "Equals"@,
        TokenKind::Dot => "Dot"@,
        TokenKind::Comma => "Comma"@,
        TokenKind::DotDot => "DotDot"@,
        TokenKind::DotDotDot => "DotDotDot"@,
        TokenKind::Colon => "Colon"@,
        TokenKind::Semicolon => "Semicolon"@,
        TokenKind::Ampersand => "Ampersand"@,
        TokenKind::Apostrophe => "Apostrophe"@,
        TokenKind::PlusEquals => "PlusEquals"@,
        TokenKind::MinusEquals => "MinusEquals"@,
        TokenKind::StarEquals => "StarEquals"@,
        TokenKind::SlashEquals => "SlashEquals"@,
        TokenKind::DoubleEqual => "DoubleEqual"@,
        TokenKind::BangEqual => "BangEqual"@,
        TokenKind::LessThan => "LessThan"@,
        TokenKind::LessThanEqual => "LessThanEqual"@,
        TokenKind::GreaterThan => "GreaterThan"@,
        TokenKind::GreaterThanEqual => "GreaterThanEqual"@,
        TokenKind::DoubleAmpersand => "DoubleAmpersand"@,
        TokenKind::DoublePipe => "DoublePipe"@,
        TokenKind::Bang => "Bang"@,
        TokenKind::If => "If"@,
        TokenKind::Else => "Else"@,
        TokenKind::For => "For"@,
        TokenKind::While => "While"@,
        TokenKind::Return => "Return"@,
        TokenKind::Break => "Break"@,
        TokenKind::Def => "Def"@,
        TokenKind::Let => "Let"@,
        TokenKind::In => "In"@,
        TokenKind::Struct => "Struct"@,
        TokenKind::Enum => "Enum"@,
        TokenKind::U8 => "U8"@,
        TokenKind::U16 => "U16"@,
        TokenKind::U32 => "U32"@,
        TokenKind::U64 => "U64"@,
        TokenKind::I8 => "I8"@,
        TokenKind::I16 => "I16"@,
        TokenKind::I32 => "I32"@,
        TokenKind::I64 => "I64"@,
        TokenKind::F32 => "F32"@,
        TokenKind::F64 => "F64"@,
        TokenKind::ISize => "ISize"@,
        TokenKind::USize => "USize"@,
        TokenKind::CharType => "CharType"@,
        TokenKind::StrType => "StrType"@,
        TokenKind::BoolType => "BoolType"@,
        TokenKind::VoidType => "VoidType"@,
        TokenKind::IntLit => "IntLit"@,
        TokenKind::FloatLit => "FloatLit"@,
        TokenKind::CharLit => "CharLit"@,
        TokenKind::StringLit => "StringLit"@,
        TokenKind::BoolLit => "BoolLit"@,
        TokenKind::Ident => "Ident"@,
        TokenKind::Comment => "Comment"@,
        TokenKind::DocComment => "DocComment"@,
        TokenKind::Error => "Error"@,
    }
}

/// The decimal digits of `n`.
pub open spec fn decimal(n: nat) -> Seq<char>
    decreases n,
{
    if n < 10 {
        seq![(48 + n) as char]
    } else {
        decimal(n / 10) + seq![(48 + n % 10) as char]
    }
}

/// Kind names separated by `, `.
pub open spec fn kind_names(ks: Seq<TokenKind>) -> Seq<char>
    decreases ks.len(),
{
    if ks.len() == 0 {
        seq![]
    } else if ks.len() == 1 {
        kind_name(ks[0])
    } else {
        kind_names(ks.drop_last()) + ", "@ + kind_name(ks.last())
    }
}

/// A list of kinds, as a slice's `Debug` writes it.
pub open spec fn kind_list(ks: Seq<TokenKind>) -> Seq<char> {
    "["@ + kind_names(ks) + "]"@
}

pub open spec fn msg_expected(expected: TokenKind, found: TokenKind, pos: nat) -> Seq<char> {
    "Expected token kind "@ + kind_name(expected) + ", but found "@ + kind_name(found)
        + " at position "@ + decimal(pos)
}

pub open spec fn msg_expected_eof(expected: TokenKind) -> Seq<char> {
    "Expected token kind "@ + kind_name(expected) + ", but found end of input"@
}

pub open spec fn msg_expected_any(expected: Seq<TokenKind>, found: TokenKind, pos: nat) -> Seq<char> {
    "Expected one of "@ + kind_list(expected) + ", but found "@ + kind_name(found) + " at position "@
        + decimal(pos)
}

pub open spec fn msg_expected_any_eof(expected: Seq<TokenKind>) -> Seq<char> {
    "Expected one of "@ + kind_list(expected) + ", but found end of input"@
}

pub open spec fn msg_delimiter(delimiter: TokenKind, end: TokenKind, found: TokenKind, pos: nat) -> Seq<char> {
    "Expected delimiter "@ + kind_name(delimiter) + " or end "@ + kind_name(end) + " but found "@
        + kind_name(found) + " at position "@ + decimal(pos)
}

pub open spec fn msg_unexpected_kind(kind: TokenKind, pos: nat) -> Seq<char> {
    "Unexpected token kind "@ + kind_name(kind) + " at position "@ + decimal(pos)
}

pub open spec fn msg_invalid_array_size(lexeme: Seq<char>, pos: nat) -> Seq<char> {
    "Invalid array size '"@ + lexeme + "' at position "@ + decimal(pos)
}

/// `Unexpected token K when parsing <what>`.
pub open spec fn msg_unexpected_when(kind: TokenKind, what: Seq<char>) -> Seq<char> {
    "Unexpected token "@ + kind_name(kind) + " when parsing "@ + what
}

/// Formats "Expected token kind {:?}, but found {:?} at position {}" with
/// `std::format!`; the result is that text with the two kinds' variant names
/// and the position in decimal.
#[verifier::external_body]
pub(crate) fn format_expected(expected: TokenKind, found: TokenKind, pos: usize) -> (r: String)
    ensures
        r@ == msg_expected(expected, found, pos as nat),
{
    format!("Expected token kind {:?}, but found {:?} at position {}", expected, found, pos)
}

/// Formats "Expected token kind {:?}, but found end of input" with
/// `std::format!`.
#[verifier::external_body]
pub(crate) fn format_expected_eof(expected: TokenKind) -> (r: String)
    ensures
        r@ == msg_expected_eof(expected),
{
    format!("Expected token kind {:?}, but found end of input", expected)
}

/// Formats "Expected one of {:?}, but found {:?} at position {}" with
/// `std::format!`; a slice of kinds is written `[A, B]`.
#[verifier::external_body]
pub(crate) fn format_expected_any(expected: &[TokenKind], found: TokenKind, pos: usize) -> (r: String)
    ensures
        r@ == msg_expected_any(expected@, found, pos as nat),
{
    format!("Expected one of {:?}, but found {:?} at position {}", expected, found, pos)
}

/// Formats "Expected one of {:?}, but found end of input" with `std::format!`.
#[verifier::external_body]
pub(crate) fn format_expected_any_eof(expected: &[TokenKind]) -> (r: String)
    ensures
        r@ == msg_expected_any_eof(expected@),
{
    format!("Expected one of {:?}, but found end of input", expected)
}

/// Formats "Expected delimiter {:?} or end {:?} but found {:?} at position {}"
/// with `std::format!`.
#[verifier::external_body]
pub(crate) fn format_delimiter(delimiter: TokenKind, end: TokenKind, found: TokenKind, pos: usize) -> (r: String)
    ensures
        r@ == msg_delimiter(delimiter, end, found, pos as nat),
{
    format!("Expected delimiter {:?} or end {:?} but found {:?} at position {}", delimiter, end, found, pos)
}

/// Formats "Unexpected token kind {:?} at position {}" with `std::format!`.
#[verifier::external_body]
pub(crate) fn format_unexpected_kind(kind: TokenKind, pos: usize) -> (r: String)
    ensures
        r@ == msg_unexpected_kind(kind, pos as nat),
{
    format!("Unexpected token kind {:?} at position {}", kind, pos)
}

/// Formats "Invalid array size '{}' at position {}" with `std::format!`; the
/// text is written as it is.
#[verifier::external_body]
pub(crate) fn format_invalid_array_size(lexeme: &str, pos: usize) -> (r: String)
    ensures
        r@ == msg_invalid_array_size(lexeme@, pos as nat),
{
    format!("Invalid array size '{}' at position {}", lexeme, pos)
}

/// Formats "Unexpected token {:?} when parsing {}" with `std::format!`.
#[verifier::external_body]
pub(crate) fn format_unexpected_when(kind: TokenKind, what: &str) -> (r: String)
    ensures
        r@ == msg_unexpected_when(kind, what@),
{
    format!("Unexpected token {:?} when parsing {}", kind, what)
}

/// A message that is fixed text.
pub(crate) fn text(s: &str) -> (r: String)
    ensures
        r@ == s@,
{
    s.to_string()
}

} // verus!
