//! AST for the Sorrel language
//!
//! This module defines the abstract syntax tree (AST) for the Sorrel language,
//! and beside each node a mathematical value of the same shape, which the
//! parser's contracts speak of.

use vstd::prelude::*;
use crate::ast::operator::{BinaryOp, UnaryOp};
use crate::ast::types::{RegionId, Type, SpecType, opt_type_view};

pub mod operator;
pub mod types;

verus! {

#[derive(Debug, PartialEq)]
pub enum Literal {
    UInt(u64),
    Int(i64),
    /// A floating-point literal, kept as the decimal text it was written as.
    Float(String),
    String(String),
    Char(char),
    Bool(bool),
    Array { elements: Vec<Expr>, element_type: Option<Type> },
}

#[derive(Debug, PartialEq)]
pub struct Block {
    pub region_id: RegionId,
    pub statements: Vec<Stmt>,
    pub tail: Option<Box<Expr>>,
}

#[derive(Debug, PartialEq)]
pub struct TypedIdentifier {
    pub name: String,
    pub type_: Option<Type>,
}

#[derive(Debug, PartialEq)]
pub enum Expr {
    Literal(Literal),
    /// Block in expression position, e.g. `if x > 0 { 1 } else { 0 }`
    Block(Block),
    Identifier(TypedIdentifier),
    BinaryOp { left: Box<Expr>, op: BinaryOp, right: Box<Expr> },
    UnaryOp { op: UnaryOp, expr: Box<Expr> },
    Assign { target: Box<Expr>, value: Box<Expr> },
    PostAssign { target: Box<Expr>, op: BinaryOp, value: Box<Expr> },
    Call { callee: Box<Expr>, args: Vec<Expr> },
    Index { indexed: Box<Expr>, index: Box<Expr> },
    Borrow { expr: Box<Expr>, region_id: RegionId },
    If { condition: Box<Expr>, then_branch: Block, else_branch: Option<Box<Expr>> },
}

#[derive(Debug, PartialEq)]
pub enum Stmt {
    /// A statement can be used in place of an expression
    Expr(Expr),
    Let { identifier: TypedIdentifier, value: Box<Expr> },
    For { iterator: TypedIdentifier, iterable: Box<Expr>, body: Block },
    While { condition: Box<Expr>, body: Block },
}

#[derive(Debug, PartialEq)]
pub enum ToplevelStmt {
    /// A statement can be used in place of a toplevel statement
    Stmt(Stmt),
    FunctionDecl {
        name: TypedIdentifier,
        params: Vec<TypedIdentifier>,
        return_type: Option<Type>,
        body: Block,
    },
    StructDecl { name: String, fields: Vec<TypedIdentifier> },
    EnumDecl { name: String, variants: Vec<TypedIdentifier> },
}

#[derive(Debug, PartialEq)]
pub struct AST {
    pub toplevel_stmts: Vec<ToplevelStmt>,
}

// The same shapes as mathematical values: text as `Seq<char>`, lists as `Seq`.
#[verifier::ext_equal]
pub enum SpecLiteral {
    UInt(u64),
    Int(i64),
    Float(Seq<char>),
    String(Seq<char>),
    Char(char),
    Bool(bool),
    Array { elements: Seq<SpecExpr>, element_type: Option<SpecType> },
}

#[verifier::ext_equal]
pub struct SpecBlock {
    pub region_id: RegionId,
    pub statements: Seq<SpecStmt>,
    pub tail: Option<Box<SpecExpr>>,
}

#[verifier::ext_equal]
pub struct SpecTypedIdentifier {
    pub name: Seq<char>,
    pub type_: Option<SpecType>,
}

#[verifier::ext_equal]
pub enum SpecExpr {
    Literal(SpecLiteral),
    Block(SpecBlock),
    Identifier(SpecTypedIdentifier),
    BinaryOp { left: Box<SpecExpr>, op: BinaryOp, right: Box<SpecExpr> },
    UnaryOp { op: UnaryOp, expr: Box<SpecExpr> },
    Assign { target: Box<SpecExpr>, value: Box<SpecExpr> },
    PostAssign { target: Box<SpecExpr>, op: BinaryOp, value: Box<SpecExpr> },
    Call { callee: Box<SpecExpr>, args: Seq<SpecExpr> },
    Index { indexed: Box<SpecExpr>, index: Box<SpecExpr> },
    Borrow { expr: Box<SpecExpr>, region_id: RegionId },
    If { condition: Box<SpecExpr>, then_branch: SpecBlock, else_branch: Option<Box<SpecExpr>> },
}

#[verifier::ext_equal]
pub enum SpecStmt {
    Expr(SpecExpr),
    Let { identifier: SpecTypedIdentifier, value: Box<SpecExpr> },
    For { iterator: SpecTypedIdentifier, iterable: Box<SpecExpr>, body: SpecBlock },
    While { condition: Box<SpecExpr>, body: SpecBlock },
}

#[verifier::ext_equal]
pub enum SpecToplevel {
    Stmt(SpecStmt),
    FunctionDecl {
        name: SpecTypedIdentifier,
        params: Seq<SpecTypedIdentifier>,
        return_type: Option<SpecType>,
        body: SpecBlock,
    },
    StructDecl { name: Seq<char>, fields: Seq<SpecTypedIdentifier> },
    EnumDecl { name: Seq<char>, variants: Seq<SpecTypedIdentifier> },
}

#[verifier::ext_equal]
pub struct SpecAst {
    pub toplevel_stmts: Seq<SpecToplevel>,
}

pub open spec fn typed_ident_view(t: TypedIdentifier) -> SpecTypedIdentifier {
    SpecTypedIdentifier { name: t.name@, type_: opt_type_view(t.type_) }
}

pub open spec fn typed_idents_view(v: Seq<TypedIdentifier>) -> Seq<SpecTypedIdentifier> {
    v.map_values(|t: TypedIdentifier| typed_ident_view(t))
}

pub open spec fn literal_view(l: Literal) -> SpecLiteral
    decreases l,
{
    match l {
        Literal::UInt(v) => SpecLiteral::UInt(v),
        Literal::Int(v) => SpecLiteral::Int(v),
        Literal::Float(s) => SpecLiteral::Float(s@),
        Literal::String(s) => SpecLiteral::String(s@),
        Literal::Char(c) => SpecLiteral::Char(c),
        Literal::Bool(b) => SpecLiteral::Bool(b),
        Literal::Array { elements, element_type } => SpecLiteral::Array {
            elements: Seq::new(
                elements@.len(),
                |i: int|
                    if 0 <= i < elements@.len() {
                        expr_view(elements@[i])
                    } else {
                        SpecExpr::Literal(SpecLiteral::Bool(false))
                    },
            ),
            element_type: opt_type_view(element_type),
        },
    }
}

pub open spec fn block_view(b: Block) -> SpecBlock
    decreases b,
{
    SpecBlock {
        region_id: b.region_id,
        statements: Seq::new(
            b.statements@.len(),
            |i: int|
                if 0 <= i < b.statements@.len() {
                    stmt_view(b.statements@[i])
                } else {
                    SpecStmt::Expr(SpecExpr::Literal(SpecLiteral::Bool(false)))
                },
        ),
        tail: match b.tail {
            Some(e) => Some(Box::new(expr_view(*e))),
            None => None,
        },
    }
}

pub open spec fn expr_view(e: Expr) -> SpecExpr
    decreases e,
{
    match e {
        Expr::Literal(l) => SpecExpr::Literal(literal_view(l)),
        Expr::Block(b) => SpecExpr::Block(block_view(b)),
        Expr::Identifier(t) => SpecExpr::Identifier(typed_ident_view(t)),
        Expr::BinaryOp { left, op, right } => SpecExpr::BinaryOp {
            left: Box::new(expr_view(*left)),
            op,
            right: Box::new(expr_view(*right)),
        },
        Expr::UnaryOp { op, expr } => SpecExpr::UnaryOp { op, expr: Box::new(expr_view(*expr)) },
        Expr::Assign { target, value } => SpecExpr::Assign {
            target: Box::new(expr_view(*target)),
            value: Box::new(expr_view(*value)),
        },
        Expr::PostAssign { target, op, value } => SpecExpr::PostAssign {
            target: Box::new(expr_view(*target)),
            op,
            value: Box::new(expr_view(*value)),
        },
        Expr::Call { callee, args } => SpecExpr::Call {
            callee: Box::new(expr_view(*callee)),
            args: Seq::new(
                args@.len(),
                |i: int|
                    if 0 <= i < args@.len() {
                        expr_view(args@[i])
                    } else {
                        SpecExpr::Literal(SpecLiteral::Bool(false))
                    },
            ),
        },
        Expr::Index { indexed, index } => SpecExpr::Index {
            indexed: Box::new(expr_view(*indexed)),
            index: Box::new(expr_view(*index)),
        },
        Expr::Borrow { expr, region_id } => SpecExpr::Borrow {
            expr: Box::new(expr_view(*expr)),
            region_id,
        },
        Expr::If { condition, then_branch, else_branch } => SpecExpr::If {
            condition: Box::new(expr_view(*condition)),
            then_branch: block_view(then_branch),
            else_branch: match else_branch {
                Some(x) => Some(Box::new(expr_view(*x))),
                None => None,
            },
        },
    }
}

pub open spec fn stmt_view(s: Stmt) -> SpecStmt
    decreases s,
{
    match s {
        Stmt::Expr(e) => SpecStmt::Expr(expr_view(e)),
        Stmt::Let { identifier, value } => SpecStmt::Let {
            identifier: typed_ident_view(identifier),
            value: Box::new(expr_view(*value)),
        },
        Stmt::For { iterator, iterable, body } => SpecStmt::For {
            iterator: typed_ident_view(iterator),
            iterable: Box::new(expr_view(*iterable)),
            body: block_view(body),
        },
        Stmt::While { condition, body } => SpecStmt::While {
            condition: Box::new(expr_view(*condition)),
            body: block_view(body),
        },
    }
}

pub open spec fn toplevel_view(t: ToplevelStmt) -> SpecToplevel {
    match t {
        ToplevelStmt::Stmt(s) => SpecToplevel::Stmt(stmt_view(s)),
        ToplevelStmt::FunctionDecl { name, params, return_type, body } => SpecToplevel::FunctionDecl {
            name: typed_ident_view(name),
            params: typed_idents_view(params@),
            return_type: opt_type_view(return_type),
            body: block_view(body),
        },
        ToplevelStmt::StructDecl { name, fields } => SpecToplevel::StructDecl {
            name: name@,
            fields: typed_idents_view(fields@),
        },
        ToplevelStmt::EnumDecl { name, variants } => SpecToplevel::EnumDecl {
            name: name@,
            variants: typed_idents_view(variants@),
        },
    }
}

impl View for Literal {
    type V = SpecLiteral;

    open spec fn view(&self) -> SpecLiteral {
        literal_view(*self)
    }
}

impl View for Block {
    type V = SpecBlock;

    open spec fn view(&self) -> SpecBlock {
        block_view(*self)
    }
}

impl View for TypedIdentifier {
    type V = SpecTypedIdentifier;

    open spec fn view(&self) -> SpecTypedIdentifier {
        typed_ident_view(*self)
    }
}

impl View for Expr {
    type V = SpecExpr;

    open spec fn view(&self) -> SpecExpr {
        expr_view(*self)
    }
}

impl View for Stmt {
    type V = SpecStmt;

    open spec fn view(&self) -> SpecStmt {
        stmt_view(*self)
    }
}

impl View for ToplevelStmt {
    type V = SpecToplevel;

    open spec fn view(&self) -> SpecToplevel {
        toplevel_view(*self)
    }
}

impl View for AST {
    type V = SpecAst;

    open spec fn view(&self) -> SpecAst {
        SpecAst {
            toplevel_stmts: self.toplevel_stmts@.map_values(|t: ToplevelStmt| toplevel_view(t)),
        }
    }
}

/// A character literal's value holds the same character.
pub proof fn lemma_char_literal(c: char)
    ensures
        Literal::Char(c)@ == SpecLiteral::Char(c),
{
}


// Copies
// -------------------------

/// A copy of an optional type.
fn clone_opt_type(t: &Option<Type>) -> (r: Option<Type>)
    ensures
        opt_type_view(r) == opt_type_view(*t),
{
    match t {
        Some(ty) => Some(ty.clone()),
        None => None,
    }
}

/// Copies of the expressions, in order.
fn clone_exprs(v: &Vec<Expr>) -> (r: Vec<Expr>)
    ensures
        r@.len() == v@.len(),
        forall|k: int| 0 <= k < v@.len() ==> #[trigger] r@[k]@ == v@[k]@,
    decreases v,
{
    let mut r: Vec<Expr> = Vec::new();
    let mut i: usize = 0;
    while i < v.len()
        invariant
            0 <= i <= v@.len(),
            r@.len() == i,
            forall|k: int| 0 <= k < i ==> #[trigger] r@[k]@ == v@[k]@,
        decreases v@.len() - i,
    {
        proof {
            assert(decreases_to!(*v => v@));
            assert(decreases_to!(v@ => v@[i as int]));
        }
        r.push(v[i].clone());
        i = i + 1;
    }
    r
}

/// Copies of the statements, in order.
fn clone_stmts(v: &Vec<Stmt>) -> (r: Vec<Stmt>)
    ensures
        r@.len() == v@.len(),
        forall|k: int| 0 <= k < v@.len() ==> #[trigger] r@[k]@ == v@[k]@,
    decreases v,
{
    let mut r: Vec<Stmt> = Vec::new();
    let mut i: usize = 0;
    while i < v.len()
        invariant
            0 <= i <= v@.len(),
            r@.len() == i,
            forall|k: int| 0 <= k < i ==> #[trigger] r@[k]@ == v@[k]@,
        decreases v@.len() - i,
    {
        proof {
            assert(decreases_to!(*v => v@));
            assert(decreases_to!(v@ => v@[i as int]));
        }
        r.push(v[i].clone());
        i = i + 1;
    }
    r
}

/// Copies of the typed identifiers, in order.
fn clone_typed_idents(v: &Vec<TypedIdentifier>) -> (r: Vec<TypedIdentifier>)
    ensures
        r@.len() == v@.len(),
        forall|k: int| 0 <= k < v@.len() ==> #[trigger] r@[k]@ == v@[k]@,
{
    let mut r: Vec<TypedIdentifier> = Vec::new();
    let mut i: usize = 0;
    while i < v.len()
        invariant
            0 <= i <= v@.len(),
            r@.len() == i,
            forall|k: int| 0 <= k < i ==> #[trigger] r@[k]@ == v@[k]@,
        decreases v@.len() - i,
    {
        r.push(v[i].clone());
        i = i + 1;
    }
    r
}

/// Copies of the declarations, in order.
fn clone_toplevels(v: &Vec<ToplevelStmt>) -> (r: Vec<ToplevelStmt>)
    ensures
        r@.len() == v@.len(),
        forall|k: int| 0 <= k < v@.len() ==> #[trigger] r@[k]@ == v@[k]@,
{
    let mut r: Vec<ToplevelStmt> = Vec::new();
    let mut i: usize = 0;
    while i < v.len()
        invariant
            0 <= i <= v@.len(),
            r@.len() == i,
            forall|k: int| 0 <= k < i ==> #[trigger] r@[k]@ == v@[k]@,
        decreases v@.len() - i,
    {
        r.push(v[i].clone());
        i = i + 1;
    }
    r
}


impl Clone for TypedIdentifier {
    fn clone(&self) -> (r: Self)
        ensures
            r@ == self@,
    {
        TypedIdentifier { name: self.name.clone(), type_: clone_opt_type(&self.type_) }
    }
}

impl Clone for Literal {
    fn clone(&self) -> (r: Self)
        ensures
            r@ == self@,
        decreases self,
    {
        match self {
            Literal::UInt(v) => Literal::UInt(*v),
            Literal::Int(v) => Literal::Int(*v),
            Literal::Float(t) => Literal::Float(t.clone()),
            Literal::String(t) => Literal::String(t.clone()),
            Literal::Char(c) => {
                proof {
                    lemma_char_literal(*c);
                }
                Literal::Char(*c)
            },
            Literal::Bool(b) => Literal::Bool(*b),
            Literal::Array { elements, element_type } => {
                let copies = clone_exprs(elements);
                let ghost g = copies@;
                let r = Literal::Array { elements: copies, element_type: clone_opt_type(element_type) };
                proof {
                    let a = r@->Array_elements;
                    let b = self@->Array_elements;
                    assert forall|k: int| 0 <= k < a.len() implies a[k] == b[k] by {
                        assert(a[k] == g[k]@ && b[k] == elements@[k]@);
                    }
                    assert(a =~= b);
                }
                r
            },
        }
    }
}

impl Clone for Block {
    fn clone(&self) -> (r: Self)
        ensures
            r@ == self@,
        decreases self,
    {
        let tail = match &self.tail {
            Some(e) => Some(Box::new((**e).clone())),
            None => None,
        };
        let copies = clone_stmts(&self.statements);
        let ghost g = copies@;
        let r = Block { region_id: self.region_id, statements: copies, tail };
        proof {
            let a = r@.statements;
            let b = self@.statements;
            assert forall|k: int| 0 <= k < a.len() implies a[k] == b[k] by {
                assert(a[k] == g[k]@ && b[k] == self.statements@[k]@);
            }
            assert(a =~= b);
        }
        r
    }
}

impl Clone for Expr {
    fn clone(&self) -> (r: Self)
        ensures
            r@ == self@,
        decreases self,
    {
        match self {
            Expr::Literal(l) => Expr::Literal(l.clone()),
            Expr::Block(b) => Expr::Block(b.clone()),
            Expr::Identifier(t) => Expr::Identifier(t.clone()),
            Expr::BinaryOp { left, op, right } => Expr::BinaryOp {
                left: Box::new((**left).clone()),
                op: *op,
                right: Box::new((**right).clone()),
            },
            Expr::UnaryOp { op, expr } => Expr::UnaryOp { op: *op, expr: Box::new((**expr).clone()) },
            Expr::Assign { target, value } => Expr::Assign {
                target: Box::new((**target).clone()),
                value: Box::new((**value).clone()),
            },
            Expr::PostAssign { target, op, value } => Expr::PostAssign {
                target: Box::new((**target).clone()),
                op: *op,
                value: Box::new((**value).clone()),
            },
            Expr::Call { callee, args } => {
                let copies = clone_exprs(args);
                let ghost g = copies@;
                let r = Expr::Call { callee: Box::new((**callee).clone()), args: copies };
                proof {
                    let a = r@->Call_args;
                    let b = self@->Call_args;
                    assert forall|k: int| 0 <= k < a.len() implies a[k] == b[k] by {
                        assert(a[k] == g[k]@ && b[k] == args@[k]@);
                    }
                    assert(a =~= b);
                }
                r
            },
            Expr::Index { indexed, index } => Expr::Index {
                indexed: Box::new((**indexed).clone()),
                index: Box::new((**index).clone()),
            },
            Expr::Borrow { expr, region_id } => Expr::Borrow {
                expr: Box::new((**expr).clone()),
                region_id: *region_id,
            },
            Expr::If { condition, then_branch, else_branch } => {
                let else_copy = match else_branch {
                    Some(e) => Some(Box::new((**e).clone())),
                    None => None,
                };
                Expr::If {
                    condition: Box::new((**condition).clone()),
                    then_branch: then_branch.clone(),
                    else_branch: else_copy,
                }
            },
        }
    }
}

impl Clone for Stmt {
    fn clone(&self) -> (r: Self)
        ensures
            r@ == self@,
        decreases self,
    {
        match self {
            Stmt::Expr(e) => Stmt::Expr(e.clone()),
            Stmt::Let { identifier, value } => Stmt::Let {
                identifier: identifier.clone(),
                value: Box::new((**value).clone()),
            },
            Stmt::For { iterator, iterable, body } => Stmt::For {
                iterator: iterator.clone(),
                iterable: Box::new((**iterable).clone()),
                body: body.clone(),
            },
            Stmt::While { condition, body } => Stmt::While {
                condition: Box::new((**condition).clone()),
                body: body.clone(),
            },
        }
    }
}

impl Clone for ToplevelStmt {
    fn clone(&self) -> (r: Self)
        ensures
            r@ == self@,
    {
        match self {
            ToplevelStmt::Stmt(s) => ToplevelStmt::Stmt(s.clone()),
            ToplevelStmt::FunctionDecl { name, params, return_type, body } => {
                let copies = clone_typed_idents(params);
                let ghost g = copies@;
                let r = ToplevelStmt::FunctionDecl {
                    name: name.clone(),
                    params: copies,
                    return_type: clone_opt_type(return_type),
                    body: body.clone(),
                };
                proof {
                    let a = r@->FunctionDecl_params;
                    let b = self@->FunctionDecl_params;
                    assert(a.len() == b.len());
                    assert forall|k: int| 0 <= k < a.len() implies a[k] == b[k] by {
                        assert(a[k] == g[k]@ && b[k] == params@[k]@);
                    }
                    assert(a =~= b);
                }
                r
            },
            ToplevelStmt::StructDecl { name, fields } => {
                let copies = clone_typed_idents(fields);
                let ghost g = copies@;
                let r = ToplevelStmt::StructDecl { name: name.clone(), fields: copies };
                proof {
                    let a = r@->StructDecl_fields;
                    let b = self@->StructDecl_fields;
                    assert(a.len() == b.len());
                    assert forall|k: int| 0 <= k < a.len() implies a[k] == b[k] by {
                        assert(a[k] == g[k]@ && b[k] == fields@[k]@);
                    }
                    assert(a =~= b);
                }
                r
            },
            ToplevelStmt::EnumDecl { name, variants } => {
                let copies = clone_typed_idents(variants);
                let ghost g = copies@;
                let r = ToplevelStmt::EnumDecl { name: name.clone(), variants: copies };
                proof {
                    let a = r@->EnumDecl_variants;
                    let b = self@->EnumDecl_variants;
                    assert(a.len() == b.len());
                    assert forall|k: int| 0 <= k < a.len() implies a[k] == b[k] by {
                        assert(a[k] == g[k]@ && b[k] == variants@[k]@);
                    }
                    assert(a =~= b);
                }
                r
            },
        }
    }
}

impl Clone for AST {
    fn clone(&self) -> (r: Self)
        ensures
            r@ == self@,
    {
        let copies = clone_toplevels(&self.toplevel_stmts);
        let ghost g = copies@;
        let r = AST { toplevel_stmts: copies };
        proof {
            let a = r@.toplevel_stmts;
            let b = self@.toplevel_stmts;
            assert(a.len() == b.len());
            assert forall|k: int| 0 <= k < a.len() implies a[k] == b[k] by {
                assert(a[k] == g[k]@ && b[k] == self.toplevel_stmts@[k]@);
            }
            assert(a =~= b);
        }
        r
    }
}

} // verus!
