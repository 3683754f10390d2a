//! Expressions: precedence climbing over prefix and infix forms.

use vstd::prelude::*;
use crate::lexer::{Token, TokenKind, TokView, literal_of};
use crate::ast::{Expr, Literal, TypedIdentifier, SpecExpr, SpecLiteral, expr_view, lemma_char_literal};
use crate::ast::operator::{binary_op_of, unary_op_of};
use crate::parser::{Parser, view_result, parse_decimal, str_is};
use crate::parser::grammar::{
    PState, rem, peek, p_expect, regions_extend, p_expression, p_expr_impl, p_infix_loop, p_prefix, p_primary, p_unary,
    p_infix, p_binary, p_reference, p_if, p_arguments, p_arguments_loop, p_literal, p_delimited,
    p_delimited_loop, is_literal_kind, parse_unsigned,
};
use crate::parser::messages::{format_unexpected_kind, format_unexpected_when, format_delimiter, text};
use crate::lexer::text::chars_of;

verus! {

/// Binding strength of an infix operator, from loosest to tightest.
#[derive(Debug, Clone, Copy, PartialEq, Eq, Structural, PartialOrd, Ord)]
pub enum Precedence {
    Lowest,
    Assignment,
    LogicalOr,
    LogicalAnd,
    Equality,
    Comparison,
    Term,
    Factor,
    Unary,
    Call,
    Primary,
}

/// The numeric level of each precedence: 0, 10, 20, ..., 100.
pub open spec fn level(p: Precedence) -> nat {
    match p {
        Precedence::Lowest => 0,
        Precedence::Assignment => 10,
        Precedence::LogicalOr => 20,
        Precedence::LogicalAnd => 30,
        Precedence::Equality => 40,
        Precedence::Comparison => 50,
        Precedence::Term => 60,
        Precedence::Factor => 70,
        Precedence::Unary => 80,
        Precedence::Call => 90,
        Precedence::Primary => 100,
    }
}

/// The precedence of the operator that a token stands for.
pub open spec fn precedence_of(kind: TokenKind) -> Precedence {
    match kind {
        TokenKind::Equals => Precedence::Assignment,
        TokenKind::Plus | TokenKind::Minus => Precedence::Term,
        TokenKind::Star | TokenKind::Slash => Precedence::Factor,
        TokenKind::DoubleEqual | TokenKind::BangEqual => Precedence::Equality,
        TokenKind::LessThan | TokenKind::LessThanEqual | TokenKind::GreaterThan
        | TokenKind::GreaterThanEqual => Precedence::Comparison,
        TokenKind::DoubleAmpersand => Precedence::LogicalAnd,
        TokenKind::DoublePipe => Precedence::LogicalOr,
        TokenKind::LParen => Precedence::Call,
        _ => Precedence::Lowest,
    }
}

/// The precedence one level tighter, if any.
pub open spec fn next_level(p: Precedence) -> Option<Precedence> {
    match p {
        Precedence::Lowest => Some(Precedence::Assignment),
        Precedence::Assignment => Some(Precedence::LogicalOr),
        Precedence::LogicalOr => Some(Precedence::LogicalAnd),
        Precedence::LogicalAnd => Some(Precedence::Equality),
        Precedence::Equality => Some(Precedence::Comparison),
        Precedence::Comparison => Some(Precedence::Term),
        Precedence::Term => Some(Precedence::Factor),
        Precedence::Factor => Some(Precedence::Unary),
        Precedence::Unary => Some(Precedence::Call),
        Precedence::Call => Some(Precedence::Primary),
        Precedence::Primary => None,
    }
}

impl Precedence {
    pub fn from_token_kind(kind: TokenKind) -> (r: Self)
        ensures
            r == precedence_of(kind),
    {
        match kind {
            TokenKind::Equals => Precedence::Assignment,
            TokenKind::Plus | TokenKind::Minus => Precedence::Term,
            TokenKind::Star | TokenKind::Slash => Precedence::Factor,
            TokenKind::DoubleEqual | TokenKind::BangEqual => Precedence::Equality,
            TokenKind::LessThan | TokenKind::LessThanEqual | TokenKind::GreaterThan
            | TokenKind::GreaterThanEqual => Precedence::Comparison,
            TokenKind::DoubleAmpersand => Precedence::LogicalAnd,
            TokenKind::DoublePipe => Precedence::LogicalOr,
            // A call's argument list binds more tightly than any operator
            TokenKind::LParen => Precedence::Call,
            _ => Precedence::Lowest,
        }
    }

    pub fn next_higher(&self) -> (r: Option<Self>)
        ensures
            r == next_level(*self),
    {
        match self {
            Precedence::Lowest => Some(Precedence::Assignment),
            Precedence::Assignment => Some(Precedence::LogicalOr),
            Precedence::LogicalOr => Some(Precedence::LogicalAnd),
            Precedence::LogicalAnd => Some(Precedence::Equality),
            Precedence::Equality => Some(Precedence::Comparison),
            Precedence::Comparison => Some(Precedence::Term),
            Precedence::Term => Some(Precedence::Factor),
            Precedence::Factor => Some(Precedence::Unary),
            Precedence::Unary => Some(Precedence::Call),
            Precedence::Call => Some(Precedence::Primary),
            Precedence::Primary => None,
        }
    }

    /// The numeric level of this precedence.
    pub fn level(&self) -> (r: u8)
        ensures
            r == level(*self),
    {
        match self {
            Precedence::Lowest => 0,
            Precedence::Assignment => 10,
            Precedence::LogicalOr => 20,
            Precedence::LogicalAnd => 30,
            Precedence::Equality => 40,
            Precedence::Comparison => 50,
            Precedence::Term => 60,
            Precedence::Factor => 70,
            Precedence::Unary => 80,
            Precedence::Call => 90,
            Precedence::Primary => 100,
        }
    }
}

/// Each step up the ladder is tighter, by exactly one level of ten.
pub proof fn lemma_next_higher_tighter(p: Precedence)
    ensures
        next_level(p) matches Some(q) ==> level(q) == level(p) + 10,
        next_level(p) is None <==> p == Precedence::Primary,
{
}

/// Levels order the precedences: distinct precedences have distinct levels.
pub proof fn lemma_level_injective(p: Precedence, q: Precedence)
    ensures
        level(p) == level(q) <==> p == q,
{
}

/// Only assignment, a call's `(` and the binary operators have a
/// precedence; compound assignments have none. A call binds more tightly
/// than any operator.
pub proof fn lemma_precedence_operators(kind: TokenKind)
    ensures
        precedence_of(kind) != Precedence::Lowest <==> (kind == TokenKind::Equals || kind
            == TokenKind::LParen || (crate::ast::operator::binary_op_of(kind) is Some && kind
            != TokenKind::PlusEquals && kind != TokenKind::MinusEquals && kind
            != TokenKind::StarEquals && kind != TokenKind::SlashEquals)),
        precedence_of(kind) == Precedence::Call <==> kind == TokenKind::LParen,
        level(precedence_of(kind)) <= level(Precedence::Call),
{
}

/// The binding strength of each operator, read off how it is written:
/// `=` 10, `||` 20, `&&` 30, `==` and `!=` 40, `<` `<=` `>` `>=` 50,
/// `+` and `-` 60, `*` and `/` 70, a call's `(` 90, anything else 0.
pub open spec fn table_level(l: Seq<char>) -> nat {
    if l.len() == 1 {
        if l[0] == '=' {
            10
        } else if l[0] == '<' || l[0] == '>' {
            50
        } else if l[0] == '+' || l[0] == '-' {
            60
        } else if l[0] == '*' || l[0] == '/' {
            70
        } else if l[0] == '(' {
            90
        } else {
            0
        }
    } else if l.len() == 2 {
        if l[0] == '|' && l[1] == '|' {
            20
        } else if l[0] == '&' && l[1] == '&' {
            30
        } else if (l[0] == '=' || l[0] == '!') && l[1] == '=' {
            40
        } else if (l[0] == '<' || l[0] == '>') && l[1] == '=' {
            50
        } else {
            0
        }
    } else {
        0
    }
}

/// Every token binds as the table says for the way it is written: `!=`
/// binds like `==`, looser than `<` and than `+` and `*`, tighter than `&&`;
/// a token that is not an operator has the lowest level.
pub proof fn law_precedence_table(kind: TokenKind)
    ensures
        level(precedence_of(kind)) == (match literal_of(kind) {
            Some(l) => table_level(l),
            None => 0,
        }),
{
    match kind {
        _ => {},
    }
}

/// Each argument's value.
pub open spec fn exprs_view(v: Seq<Expr>) -> Seq<SpecExpr> {
    v.map_values(|e: Expr| e@)
}

impl<'parse> Parser<'parse> {
    // Expressions
    // -------------------------
    // prefix
    //  = borrow
    //  | unary
    //  | primary
    // borrow = &expression "'" region_id

    pub fn parse_expression(&mut self) -> (r: Result<Expr, String>)
        requires
            old(self).wf(),
        ensures
            final(self).step(old(self)),
            (final(self).state(), view_result(r)) == p_expression(old(self).toks(), old(self).state()),
            r is Ok ==> old(self).state().idx < final(self).state().idx,
        decreases rem(old(self).toks(), old(self).state()), 8nat,
    {
        self.parse_expression_impl(Precedence::Lowest)
    }

    // Value parsing
    // -------------------------
    // literal = int | float | string | char | bool
    // primary = literal | identifier | "(" expression ")"

    fn parse_literal(&mut self, token: Token<'parse>) -> (r: Result<Literal, String>)
        requires
            token.kind != TokenKind::LBracket,
        ensures
            *final(self) == *old(self),
            view_result(r) == p_literal(token@),
    {
        let ghost t = token@;
        match token.kind {
            TokenKind::IntLit => {
                match parse_decimal(token.lexeme, i64::MAX as u64) {
                    Some(value) => {
                        proof {
                            assert(parse_unsigned(t.lexeme, i64::MAX as nat) == Some(value as nat));
                        }
                        Ok(Literal::Int(value as i64))
                    },
                    None => Err(text("Invalid integer literal")),
                }
            },
            TokenKind::FloatLit => Ok(Literal::Float(text(token.lexeme))),
            TokenKind::StringLit => {
                let value = text(token.lexeme);
                Ok(Literal::String(value))
            },
            TokenKind::BoolLit => {
                let value = if str_is(token.lexeme, "true") {
                    true
                } else if str_is(token.lexeme, "false") {
                    false
                } else {
                    return Err(text("Invalid boolean literal"));
                };
                Ok(Literal::Bool(value))
            },
            TokenKind::CharLit => {
                let chars = chars_of(token.lexeme);
                if chars.len() > 1 {
                    let c = chars[1];
                    proof {
                        lemma_char_literal(c);
                    }
                    Ok(Literal::Char(c))
                } else {
                    Err(text("Invalid character literal"))
                }
            },
            _ => Err(format_unexpected_kind(token.kind, token.span.start)),
        }
    }

    fn parse_expression_impl(&mut self, prec: Precedence) -> (r: Result<Expr, String>)
        requires
            old(self).wf(),
        ensures
            final(self).step(old(self)),
            (final(self).state(), view_result(r)) == p_expr_impl(old(self).toks(), old(self).state(), prec),
            r is Ok ==> old(self).state().idx < final(self).state().idx,
        decreases rem(old(self).toks(), old(self).state()), 7nat,
    {
        let ghost toks = self.toks();
        let ghost st0 = self.state();
        let mut lhs = self.parse_prefix()?;
        loop
            invariant
                self.wf(),
                self.toks() == toks,
                toks == old(self).toks(),
                st0 == old(self).state(),
                regions_extend(st0.regions, self.state().regions),
                st0.idx < self.state().idx <= toks.len(),
                p_expr_impl(toks, st0, prec) == p_infix_loop(toks, self.state(), lhs@, prec),
            decreases rem(toks, self.state()),
        {
            let next_prec = match self.peek() {
                Some(next_token) => Precedence::from_token_kind(next_token.kind),
                None => {
                    return Ok(lhs);
                },
            };
            if next_prec.level() < prec.level() || next_prec == Precedence::Lowest {
                return Ok(lhs);
            }
            lhs = self.parse_infix(lhs, next_prec)?;
        }
    }

    // Parse prefix expressions (unary operators and references)
    fn parse_prefix(&mut self) -> (r: Result<Expr, String>)
        requires
            old(self).wf(),
        ensures
            final(self).step(old(self)),
            (final(self).state(), view_result(r)) == p_prefix(old(self).toks(), old(self).state()),
            r is Ok ==> old(self).state().idx < final(self).state().idx,
        decreases rem(old(self).toks(), old(self).state()), 5nat,
    {
        let kind = match self.peek() {
            Some(token) => Some(token.kind),
            None => None,
        };
        match kind {
            Some(TokenKind::Ampersand) => self.parse_reference(),
            Some(TokenKind::Minus) | Some(TokenKind::Bang) | Some(TokenKind::Star) => self.parse_unary(),
            _ => self.parse_primary(),
        }
    }

    // Parse primary expressions such as identifiers, literals, and parenthesized expressions
    fn parse_primary(&mut self) -> (r: Result<Expr, String>)
        requires
            old(self).wf(),
        ensures
            final(self).step(old(self)),
            (final(self).state(), view_result(r)) == p_primary(old(self).toks(), old(self).state()),
            r is Ok ==> old(self).state().idx < final(self).state().idx,
        decreases rem(old(self).toks(), old(self).state()), 4nat,
    {
        // Handle blocks first
        if self.peek_is(TokenKind::LBrace) {
            let block = self.parse_block()?;
            return Ok(Expr::Block(block));
        }
        let token = match self.next() {
            Some(token) => token,
            None => {
                return Err(text("Unexpected end of input"));
            },
        };
        let is_literal = match token.kind {
            TokenKind::IntLit | TokenKind::FloatLit | TokenKind::StringLit | TokenKind::CharLit
            | TokenKind::BoolLit => true,
            _ => false,
        };
        if is_literal {
            let literal = self.parse_literal(token)?;
            return Ok(Expr::Literal(literal));
        } else {
            match token.kind {
                TokenKind::Ident => Ok(
                    Expr::Identifier(TypedIdentifier { name: text(token.lexeme), type_: None }),
                ),
                TokenKind::If => self.parse_if(),
                // Calls
                TokenKind::LParen => {
                    let expr = self.parse_expression_impl(Precedence::Lowest)?;
                    self.expect(TokenKind::RParen)?;
                    Ok(expr)
                },
                // Unexpected token
                _ => Err(format_unexpected_when(token.kind, "primary expression")),
            }
        }
    }

    // Parse unary operators — which include negation, logical not, and dereference
    fn parse_unary(&mut self) -> (r: Result<Expr, String>)
        requires
            old(self).wf(),
        ensures
            final(self).step(old(self)),
            (final(self).state(), view_result(r)) == p_unary(old(self).toks(), old(self).state()),
            r is Ok ==> old(self).state().idx < final(self).state().idx,
        decreases rem(old(self).toks(), old(self).state()), 4nat,
    {
        let token = match self.next() {
            Some(token) => token,
            None => {
                return Err(text("Unexpected end of input"));
            },
        };
        let op = match token.kind.to_unary_op() {
            Some(op) => op,
            None => {
                return Err(format_unexpected_when(token.kind, "unary expression"));
            },
        };
        let expr = self.parse_expression_impl(Precedence::Unary)?;
        Ok(Expr::UnaryOp { op, expr: Box::new(expr) })
    }

    // Parse infix operators — which include binary operators and function calls
    fn parse_infix(&mut self, lhs: Expr, prec: Precedence) -> (r: Result<Expr, String>)
        requires
            old(self).wf(),
        ensures
            final(self).step(old(self)),
            (final(self).state(), view_result(r)) == p_infix(old(self).toks(), old(self).state(), lhs@, prec),
            r is Ok ==> old(self).state().idx < final(self).state().idx,
        decreases rem(old(self).toks(), old(self).state()), 5nat,
    {
        let token = match self.next() {
            Some(token) => token,
            None => {
                return Err(text("Unexpected end of input"));
            },
        };
        match token.kind {
            TokenKind::LParen => {
                // Parse function call arguments
                let args = self.parse_arguments()?;
                let ghost args_view = exprs_view(args@);
                let call = Expr::Call { callee: Box::new(lhs), args };
                proof {
                    assert(call@->Call_args =~= args_view);
                }
                return Ok(call);
            },
            TokenKind::Equals => {
                // Parse assignment
                let rhs = self.parse_expression_impl(Precedence::Assignment)?;
                return Ok(Expr::Assign { target: Box::new(lhs), value: Box::new(rhs) });
            },
            TokenKind::PlusEquals | TokenKind::MinusEquals | TokenKind::StarEquals
            | TokenKind::SlashEquals => {
                // Parse post assignment (e.g., x += 1)
                let op = match token.kind.to_binary_op() {
                    Some(op) => op,
                    None => {
                        return Err(format_unexpected_when(token.kind, "post assignment"));
                    },
                };
                let rhs = self.parse_expression_impl(Precedence::Assignment)?;
                return Ok(Expr::PostAssign { target: Box::new(lhs), op, value: Box::new(rhs) });
            },
            TokenKind::Dot => {
                // Parse .[0] or .field_name
                let next_token = match self.next() {
                    Some(token) => token,
                    None => {
                        return Err(text("Unexpected end of input after '.'"));
                    },
                };
                match next_token.kind {
                    TokenKind::LBracket => {
                        let index_expr = self.parse_expression_impl(Precedence::Lowest)?;
                        self.expect(TokenKind::RBracket)?;
                        return Ok(Expr::Index { indexed: Box::new(lhs), index: Box::new(index_expr) });
                    },
                    // No need to handle anything else here
                    _ => {},
                }
            },
            _ => {},
        }
        // Parse binary operators
        match token.kind.to_binary_op() {
            Some(op) => {
                // The right-hand side binds one level tighter, which makes the
                // operators left associative
                let rhs_prec = match prec.next_higher() {
                    Some(p) => p,
                    None => Precedence::Primary,
                };
                let rhs = self.parse_expression_impl(rhs_prec)?;
                Ok(Expr::BinaryOp { left: Box::new(lhs), op, right: Box::new(rhs) })
            },
            None => Err(format_unexpected_when(token.kind, "infix expression")),
        }
    }

    fn parse_reference(&mut self) -> (r: Result<Expr, String>)
        requires
            old(self).wf(),
        ensures
            final(self).step(old(self)),
            (final(self).state(), view_result(r)) == p_reference(old(self).toks(), old(self).state()),
            r is Ok ==> old(self).state().idx < final(self).state().idx,
        decreases rem(old(self).toks(), old(self).state()), 4nat,
    {
        self.expect(TokenKind::Ampersand)?;
        let expr = self.parse_expression_impl(Precedence::Unary)?;
        self.expect(TokenKind::Apostrophe)?;
        let region_name = self.identifier()?;
        let region_id = self.intern_region(region_name.as_str());
        Ok(Expr::Borrow { expr: Box::new(expr), region_id })
    }

    fn parse_if(&mut self) -> (r: Result<Expr, String>)
        requires
            old(self).wf(),
        ensures
            final(self).step(old(self)),
            (final(self).state(), view_result(r)) == p_if(old(self).toks(), old(self).state()),
            r is Ok ==> old(self).state().idx < final(self).state().idx,
        decreases rem(old(self).toks(), old(self).state()), 8nat,
    {
        // `parse_primary` already consumed the if token
        // Parse the condition and then branch, mandatory
        let condition = self.parse_expression_impl(Precedence::Lowest)?;
        let then_branch = self.parse_block()?;
        if self.peek_is(TokenKind::Else) {
            // Parse the else branch: another `if`, or a block
            self.expect(TokenKind::Else)?;
            let else_branch = if self.peek_is(TokenKind::If) {
                self.next();
                self.parse_if()?
            } else {
                Expr::Block(self.parse_block()?)
            };
            let e = Expr::If {
                condition: Box::new(condition),
                then_branch,
                else_branch: Some(Box::new(else_branch)),
            };
            proof {
                assert(e@ == SpecExpr::If {
                    condition: Box::new(condition@),
                    then_branch: then_branch@,
                    else_branch: Some(Box::new(else_branch@)),
                });
            }
            Ok(e)
        } else {
            // No else branch to parse
            Ok(Expr::If { condition: Box::new(condition), then_branch, else_branch: None })
        }
    }

    fn parse_arguments(&mut self) -> (r: Result<Vec<Expr>, String>)
        requires
            old(self).wf(),
        ensures
            final(self).step(old(self)),
            (final(self).state(), match r {
                Ok(v) => Ok(exprs_view(v@)),
                Err(e) => Err(e@),
            }) == p_arguments(old(self).toks(), old(self).state()),
        decreases rem(old(self).toks(), old(self).state()), 8nat,
    {
        // The items loop of `between_delimited_by`, written out: an argument is
        // an expression, and parsing one recurses into this function. The
        // call's `(` is already consumed, and no other opener is taken.
        let ghost toks = self.toks();
        let ghost st0 = self.state();
        let mut items: Vec<Expr> = Vec::new();
        let position = self.position;
        let empty = match self.peek() {
            Some(token) => token.kind == TokenKind::RParen,
            None => false,
        };
        if empty {
            self.expect(TokenKind::RParen)?;
            proof {
                assert(exprs_view(items@) =~= seq![]);
            }
            return Ok(items);
        }
        let first = self.parse_expression_impl(Precedence::Lowest)?;
        proof {
            assert(exprs_view(seq![first]) =~= seq![first@]);
        }
        items.push(first);
        loop
            invariant_except_break
                p_arguments(toks, st0) == p_arguments_loop(
                    toks,
                    self.state(),
                    exprs_view(items@),
                    position as nat,
                ),
            invariant
                self.wf(),
                self.toks() == toks,
                toks == old(self).toks(),
                st0 == old(self).state(),
                regions_extend(st0.regions, self.state().regions),
                st0.idx < self.state().idx <= toks.len(),
                position == st0.position,
            ensures
                p_arguments(toks, st0) == ({
                    let (s1, r1) = p_expect(toks, self.state(), TokenKind::RParen);
                    (s1, match r1 {
                        Ok(_) => Ok(exprs_view(items@)),
                        Err(e) => Err(e),
                    })
                }),
            decreases rem(toks, self.state()),
        {
            let kind = match self.peek() {
                Some(token) => token.kind,
                None => {
                    break;
                },
            };
            if kind == TokenKind::RParen {
                break;
            }
            if kind == TokenKind::Comma {
                self.next();
                let trailing = match self.peek() {
                    Some(next_tok) => next_tok.kind == TokenKind::RParen,
                    None => false,
                };
                if trailing {
                    break;
                }
                let item = self.parse_expression_impl(Precedence::Lowest)?;
                proof {
                    assert(exprs_view(items@.push(item)) =~= exprs_view(items@).push(item@));
                }
                items.push(item);
            } else {
                return Err(format_delimiter(TokenKind::Comma, TokenKind::RParen, kind, position));
            }
        }
        self.expect(TokenKind::RParen)?;
        Ok(items)
    }
}

} // verus!
