//! What the grammar promises as a whole: how operators and calls group, how
//! call arguments are read, how region names are numbered, and how a block
//! takes its tail.

use vstd::prelude::*;
use crate::lexer::{TokenKind, TokView};
use crate::ast::{SpecExpr, SpecStmt, SpecTypedIdentifier};
use crate::ast::types::RegionId;
use crate::parser::messages::msg_delimiter;
use crate::parser::progress::lemma_expr_impl_moves_on;
use crate::ast::operator::{binary_op_of, unary_op_of};
use crate::parser::expression::{Precedence, level, precedence_of, next_level, lemma_next_higher_tighter, lemma_precedence_operators};
use crate::parser::grammar::{
    PState, intern, peek, p_expression, p_expr_impl, p_infix_loop, p_prefix, p_primary, p_unary, p_infix,
    p_binary, p_next, p_literal, is_literal_kind, make_block, p_arguments, p_arguments_loop, p_delimited_items, p_delimited_loop, rem, advance, peek_is,
};

verus! {

/// A token that joins two operands as a binary operation: a binary
/// operator that has a precedence (compound assignments have none).
pub open spec fn infix_operator(k: TokenKind) -> bool {
    binary_op_of(k) is Some && precedence_of(k) != Precedence::Lowest
}

/// A token that is an expression by itself: an identifier, or a literal
/// whose value can be read.
pub open spec fn operand(t: TokView) -> bool {
    t.kind == TokenKind::Ident || (is_literal_kind(t.kind) && p_literal(t) is Ok)
}

/// The expression an operand token stands for.
pub open spec fn operand_expr(t: TokView) -> SpecExpr {
    if t.kind == TokenKind::Ident {
        SpecExpr::Identifier(SpecTypedIdentifier { name: t.lexeme, type_: None })
    } else {
        SpecExpr::Literal(p_literal(t)->Ok_0)
    }
}

/// `l k r` as a binary operation.
pub open spec fn binary_expr(l: SpecExpr, k: TokenKind, r: SpecExpr) -> SpecExpr {
    SpecExpr::BinaryOp { left: Box::new(l), op: binary_op_of(k)->Some_0, right: Box::new(r) }
}

/// The state after the first `n` of `toks` are consumed from `st`.
pub open spec fn consumed(toks: Seq<TokView>, st: PState, n: nat) -> PState {
    PState {
        idx: n,
        position: if n == 0 {
            st.position
        } else {
            toks[n - 1].end
        },
        regions: st.regions,
    }
}

/// A three-operand expression `a op1 b op2 c` at the start of `toks`, each
/// operand a single token, followed by nothing that could continue it: the
/// end of the input, or a token that is no operator.
pub open spec fn two_operators(toks: Seq<TokView>) -> bool {
    &&& toks.len() >= 5
    &&& operand(toks[0])
    &&& operand(toks[2])
    &&& operand(toks[4])
    &&& (toks.len() > 5 ==> precedence_of(toks[5].kind) == Precedence::Lowest)
}

pub proof fn lemma_operand(toks: Seq<TokView>, st: PState, n: nat)
    requires
        n < toks.len(),
        operand(toks[n as int]),
        st.idx == 0,
    ensures
        p_prefix(toks, consumed(toks, st, n)) == (consumed(toks, st, n + 1), Ok::<SpecExpr, Seq<char>>(
            operand_expr(toks[n as int]),
        )),
{
    let s = consumed(toks, st, n);
    assert(p_next(toks, s) == (consumed(toks, st, n + 1), Some(toks[n as int])));
    assert(p_primary(toks, s) == (consumed(toks, st, n + 1), Ok::<SpecExpr, Seq<char>>(
        operand_expr(toks[n as int]),
    )));
}

/// An operand followed by the end of the input or by a token that is no
/// operator is the whole expression, whatever the binding asked for.
proof fn lemma_last_operand(toks: Seq<TokView>, st: PState, n: nat, prec: Precedence)
    requires
        n < toks.len(),
        operand(toks[n as int]),
        n + 1 < toks.len() ==> precedence_of(toks[n + 1int].kind) == Precedence::Lowest,
        st.idx == 0,
    ensures
        p_expr_impl(toks, consumed(toks, st, n), prec) == (consumed(toks, st, n + 1), Ok::<SpecExpr, Seq<char>>(
            operand_expr(toks[n as int]),
        )),
{
    lemma_operand(toks, st, n);
    let s = consumed(toks, st, n + 1);
    assert(p_infix_loop(toks, s, operand_expr(toks[n as int]), prec) == (s, Ok::<SpecExpr, Seq<char>>(
        operand_expr(toks[n as int]),
    )));
}

/// The operator whose binding is tighter takes its operands first, and of two
/// operators on one level the left one does: `a op1 b op2 c` is
/// `(a op1 b) op2 c` unless `op2` binds more tightly than `op1`, in which case
/// it is `a op1 (b op2 c)`; either way all five tokens are read.
pub proof fn law_operator_grouping(toks: Seq<TokView>, st: PState)
    requires
        two_operators(toks),
        st.idx == 0,
        infix_operator(toks[1].kind),
        infix_operator(toks[3].kind),
    ensures
        p_expression(toks, st) == (consumed(toks, st, 5), Ok::<SpecExpr, Seq<char>>(
            if level(precedence_of(toks[3].kind)) <= level(precedence_of(toks[1].kind)) {
                binary_expr(
                    binary_expr(operand_expr(toks[0]), toks[1].kind, operand_expr(toks[2])),
                    toks[3].kind,
                    operand_expr(toks[4]),
                )
            } else {
                binary_expr(
                    operand_expr(toks[0]),
                    toks[1].kind,
                    binary_expr(operand_expr(toks[2]), toks[3].kind, operand_expr(toks[4])),
                )
            },
        )),
{
    let k1 = toks[1].kind;
    let k3 = toks[3].kind;
    let p1 = precedence_of(k1);
    let p3 = precedence_of(k3);
    let a = operand_expr(toks[0]);
    let b = operand_expr(toks[2]);
    let c = operand_expr(toks[4]);
    let s0 = consumed(toks, st, 0);
    let s1 = consumed(toks, st, 1);
    let s2 = consumed(toks, st, 2);
    let s3 = consumed(toks, st, 3);
    let s4 = consumed(toks, st, 4);
    let s5 = consumed(toks, st, 5);
    assert(s0 == st);
    lemma_precedence_operators(k1);
    lemma_precedence_operators(k3);
    lemma_next_higher_tighter(p1);
    lemma_next_higher_tighter(p3);
    lemma_operand(toks, st, 0);
    lemma_operand(toks, st, 2);
    let q1 = next_level(p1)->Some_0;
    let q3 = next_level(p3)->Some_0;
    lemma_last_operand(toks, st, 4, q3);
    lemma_last_operand(toks, st, 4, q1);
    // The operand after `op2`, and the operation `op2` makes.
    assert(p_next(toks, s3) == (s4, Some(toks[3])));
    assert(p_infix_loop(toks, s5, a, Precedence::Lowest) == (s5, Ok::<SpecExpr, Seq<char>>(a)));
    if level(p3) <= level(p1) {
        let ab = binary_expr(a, k1, b);
        let abc = binary_expr(ab, k3, c);
        assert(p_infix_loop(toks, s3, b, q1) == (s3, Ok::<SpecExpr, Seq<char>>(b)));
        assert(p_expr_impl(toks, s2, q1) == (s3, Ok::<SpecExpr, Seq<char>>(b)));
        assert(p_binary(toks, s2, a, p1, toks[1]) == (s3, Ok::<SpecExpr, Seq<char>>(ab)));
        assert(p_next(toks, s1) == (s2, Some(toks[1])));
        assert(p_infix(toks, s1, a, p1) == (s3, Ok::<SpecExpr, Seq<char>>(ab)));
        assert(p_binary(toks, s4, ab, p3, toks[3]) == (s5, Ok::<SpecExpr, Seq<char>>(abc)));
        assert(p_infix(toks, s3, ab, p3) == (s5, Ok::<SpecExpr, Seq<char>>(abc)));
        assert(p_infix_loop(toks, s5, abc, Precedence::Lowest) == (s5, Ok::<SpecExpr, Seq<char>>(abc)));
        assert(p_infix_loop(toks, s3, ab, Precedence::Lowest) == (s5, Ok::<SpecExpr, Seq<char>>(abc)));
        assert(p_infix_loop(toks, s1, a, Precedence::Lowest) == (s5, Ok::<SpecExpr, Seq<char>>(abc)));
    } else {
        let bc = binary_expr(b, k3, c);
        let abc = binary_expr(a, k1, bc);
        assert(p_binary(toks, s4, b, p3, toks[3]) == (s5, Ok::<SpecExpr, Seq<char>>(bc)));
        assert(p_infix(toks, s3, b, p3) == (s5, Ok::<SpecExpr, Seq<char>>(bc)));
        assert(p_infix_loop(toks, s5, bc, q1) == (s5, Ok::<SpecExpr, Seq<char>>(bc)));
        assert(p_infix_loop(toks, s3, b, q1) == (s5, Ok::<SpecExpr, Seq<char>>(bc)));
        assert(p_expr_impl(toks, s2, q1) == (s5, Ok::<SpecExpr, Seq<char>>(bc)));
        assert(p_binary(toks, s2, a, p1, toks[1]) == (s5, Ok::<SpecExpr, Seq<char>>(abc)));
        assert(p_next(toks, s1) == (s2, Some(toks[1])));
        assert(p_infix(toks, s1, a, p1) == (s5, Ok::<SpecExpr, Seq<char>>(abc)));
        assert(p_infix_loop(toks, s5, abc, Precedence::Lowest) == (s5, Ok::<SpecExpr, Seq<char>>(abc)));
        assert(p_infix_loop(toks, s1, a, Precedence::Lowest) == (s5, Ok::<SpecExpr, Seq<char>>(abc)));
    }
    assert(p_expr_impl(toks, s0, Precedence::Lowest) == p_infix_loop(toks, s1, a, Precedence::Lowest));
}

/// Assignment groups to the right: `a = b = c` is `a = (b = c)`.
pub proof fn law_assignment_right_associative(toks: Seq<TokView>, st: PState)
    requires
        two_operators(toks),
        st.idx == 0,
        toks[1].kind == TokenKind::Equals,
        toks[3].kind == TokenKind::Equals,
    ensures
        p_expression(toks, st) == (consumed(toks, st, 5), Ok::<SpecExpr, Seq<char>>(
            SpecExpr::Assign {
                target: Box::new(operand_expr(toks[0])),
                value: Box::new(
                    SpecExpr::Assign {
                        target: Box::new(operand_expr(toks[2])),
                        value: Box::new(operand_expr(toks[4])),
                    },
                ),
            },
        )),
{
    let a = operand_expr(toks[0]);
    let b = operand_expr(toks[2]);
    let c = operand_expr(toks[4]);
    let bc = SpecExpr::Assign { target: Box::new(b), value: Box::new(c) };
    let abc = SpecExpr::Assign { target: Box::new(a), value: Box::new(bc) };
    let s0 = consumed(toks, st, 0);
    let s1 = consumed(toks, st, 1);
    let s2 = consumed(toks, st, 2);
    let s3 = consumed(toks, st, 3);
    let s4 = consumed(toks, st, 4);
    let s5 = consumed(toks, st, 5);
    assert(s0 == st);
    lemma_operand(toks, st, 0);
    lemma_operand(toks, st, 2);
    lemma_last_operand(toks, st, 4, Precedence::Assignment);
    assert(p_next(toks, s3) == (s4, Some(toks[3])));
    assert(p_infix(toks, s3, b, Precedence::Assignment) == (s5, Ok::<SpecExpr, Seq<char>>(bc)));
    assert(p_infix_loop(toks, s5, bc, Precedence::Assignment) == (s5, Ok::<SpecExpr, Seq<char>>(bc)));
    assert(p_infix_loop(toks, s3, b, Precedence::Assignment) == (s5, Ok::<SpecExpr, Seq<char>>(bc)));
    assert(p_expr_impl(toks, s2, Precedence::Assignment) == (s5, Ok::<SpecExpr, Seq<char>>(bc)));
    assert(p_next(toks, s1) == (s2, Some(toks[1])));
    assert(p_infix(toks, s1, a, Precedence::Assignment) == (s5, Ok::<SpecExpr, Seq<char>>(abc)));
    assert(p_infix_loop(toks, s5, abc, Precedence::Lowest) == (s5, Ok::<SpecExpr, Seq<char>>(abc)));
    assert(p_infix_loop(toks, s1, a, Precedence::Lowest) == (s5, Ok::<SpecExpr, Seq<char>>(abc)));
    assert(p_expr_impl(toks, s0, Precedence::Lowest) == p_infix_loop(toks, s1, a, Precedence::Lowest));
}

/// A unary operator binds more tightly than any binary one: `op a k b` is
/// `(op a) k b`.
pub proof fn law_unary_binds_tighter(toks: Seq<TokView>, st: PState)
    requires
        toks.len() >= 4,
        toks[0].kind == TokenKind::Minus || toks[0].kind == TokenKind::Bang || toks[0].kind
            == TokenKind::Star,
        operand(toks[1]),
        infix_operator(toks[2].kind),
        operand(toks[3]),
        toks.len() > 4 ==> precedence_of(toks[4].kind) == Precedence::Lowest,
        st.idx == 0,
    ensures
        p_expression(toks, st) == (consumed(toks, st, 4), Ok::<SpecExpr, Seq<char>>(
            binary_expr(
                SpecExpr::UnaryOp {
                    op: unary_op_of(toks[0].kind)->Some_0,
                    expr: Box::new(operand_expr(toks[1])),
                },
                toks[2].kind,
                operand_expr(toks[3]),
            ),
        )),
{
    let k = toks[2].kind;
    let p = precedence_of(k);
    let a = operand_expr(toks[1]);
    let ua = SpecExpr::UnaryOp { op: unary_op_of(toks[0].kind)->Some_0, expr: Box::new(a) };
    let uab = binary_expr(ua, k, operand_expr(toks[3]));
    let s0 = consumed(toks, st, 0);
    let s1 = consumed(toks, st, 1);
    let s2 = consumed(toks, st, 2);
    let s3 = consumed(toks, st, 3);
    let s4 = consumed(toks, st, 4);
    assert(s0 == st);
    lemma_precedence_operators(k);
    lemma_next_higher_tighter(p);
    let q = next_level(p)->Some_0;
    lemma_operand(toks, st, 1);
    lemma_last_operand(toks, st, 3, q);
    assert(p_infix_loop(toks, s2, a, Precedence::Unary) == (s2, Ok::<SpecExpr, Seq<char>>(a)));
    assert(p_expr_impl(toks, s1, Precedence::Unary) == (s2, Ok::<SpecExpr, Seq<char>>(a)));
    assert(p_next(toks, s0) == (s1, Some(toks[0])));
    assert(p_unary(toks, s0) == (s2, Ok::<SpecExpr, Seq<char>>(ua)));
    assert(p_prefix(toks, s0) == (s2, Ok::<SpecExpr, Seq<char>>(ua)));
    assert(p_next(toks, s2) == (s3, Some(toks[2])));
    assert(p_binary(toks, s3, ua, p, toks[2]) == (s4, Ok::<SpecExpr, Seq<char>>(uab)));
    assert(p_infix(toks, s2, ua, p) == (s4, Ok::<SpecExpr, Seq<char>>(uab)));
    assert(p_infix_loop(toks, s4, uab, Precedence::Lowest) == (s4, Ok::<SpecExpr, Seq<char>>(uab)));
    assert(p_infix_loop(toks, s2, ua, Precedence::Lowest) == (s4, Ok::<SpecExpr, Seq<char>>(uab)));
}

/// A call takes its argument list before anything else binds: `f(a)`,
/// followed by no operator and no further `(`, is the call of `f` with the
/// one argument `a`.
pub proof fn law_call(toks: Seq<TokView>, st: PState)
    requires
        toks.len() >= 4,
        operand(toks[0]),
        toks[1].kind == TokenKind::LParen,
        operand(toks[2]),
        toks[3].kind == TokenKind::RParen,
        toks.len() > 4 ==> precedence_of(toks[4].kind) == Precedence::Lowest,
        st.idx == 0,
    ensures
        p_expression(toks, st) == (consumed(toks, st, 4), Ok::<SpecExpr, Seq<char>>(
            SpecExpr::Call { callee: Box::new(operand_expr(toks[0])), args: seq![operand_expr(toks[2])] },
        )),
{
    let f = operand_expr(toks[0]);
    let a = operand_expr(toks[2]);
    let call = SpecExpr::Call { callee: Box::new(f), args: seq![a] };
    let s0 = consumed(toks, st, 0);
    let s1 = consumed(toks, st, 1);
    let s2 = consumed(toks, st, 2);
    let s3 = consumed(toks, st, 3);
    let s4 = consumed(toks, st, 4);
    assert(s0 == st);
    lemma_operand(toks, st, 0);
    lemma_last_operand(toks, st, 2, Precedence::Lowest);
    assert(p_arguments_loop(toks, s3, seq![a], s2.position) == (s4, Ok::<Seq<SpecExpr>, Seq<char>>(
        seq![a],
    )));
    assert(p_arguments(toks, s2) == (s4, Ok::<Seq<SpecExpr>, Seq<char>>(seq![a])));
    assert(p_next(toks, s1) == (s2, Some(toks[1])));
    assert(p_infix(toks, s1, f, Precedence::Call) == (s4, Ok::<SpecExpr, Seq<char>>(call)));
    assert(p_infix_loop(toks, s4, call, Precedence::Lowest) == (s4, Ok::<SpecExpr, Seq<char>>(call)));
    assert(p_infix_loop(toks, s1, f, Precedence::Lowest) == (s4, Ok::<SpecExpr, Seq<char>>(call)));
}

/// Region names are numbered consistently: interning `a` and then `b` into
/// a table without repeats gives them the same id exactly when they are the
/// same name, the table stays without repeats, and ids already given stay.
pub proof fn law_region_ids(regions: Seq<Seq<char>>, a: Seq<char>, b: Seq<char>)
    requires
        regions.no_duplicates(),
    ensures
        ({
            let (r1, i) = intern(regions, a);
            let (r2, j) = intern(r1, b);
            &&& (i == j <==> a == b)
            &&& r2.no_duplicates()
            &&& regions.is_prefix_of(r2)
            &&& r2[i as int] == a && r2[j as int] == b
        }),
{
    lemma_intern(regions, a);
    let (r1, i) = intern(regions, a);
    lemma_intern(r1, b);
}

/// Interning gives the name's index in a table that extends the old one and
/// still has no repeats.
pub proof fn lemma_intern(regions: Seq<Seq<char>>, name: Seq<char>)
    requires
        regions.no_duplicates(),
    ensures
        ({
            let (r, i) = intern(regions, name);
            &&& r.no_duplicates()
            &&& regions.is_prefix_of(r)
            &&& i < r.len()
            &&& r[i as int] == name
            &&& (regions.contains(name) <==> r == regions)
        }),
{
    if !regions.contains(name) {
        let r = regions.push(name);
        assert forall|i: int, j: int|
            0 <= i < r.len() && 0 <= j < r.len() && i != j implies #[trigger] r[i] != #[trigger] r[j] by {
            if i == regions.len() as int {
                assert(regions.contains(regions[j]));
            } else if j == regions.len() as int {
                assert(regions.contains(regions[i]));
            }
        }
        assert(regions.is_prefix_of(r));
        assert(r != regions) by {
            assert(r.len() != regions.len());
        }
    } else {
        assert(regions.is_prefix_of(regions));
    }
}


proof fn lemma_arguments_loop(toks: Seq<TokView>, st: PState, items: Seq<SpecExpr>, start_position: nat)
    ensures
        p_arguments_loop(toks, st, items, start_position) == p_delimited_loop(
            toks,
            st,
            TokenKind::RParen,
            TokenKind::Comma,
            |s: PState| p_expr_impl(toks, s, Precedence::Lowest),
            items,
            start_position,
        ),
    decreases rem(toks, st),
{
    let elem = |s: PState| p_expr_impl(toks, s, Precedence::Lowest);
    if let Some(t) = peek(toks, st) {
        if t.kind == TokenKind::Comma {
            let s1 = crate::parser::grammar::advance(toks, st);
            let (s2, r2) = p_expr_impl(toks, s1, Precedence::Lowest);
            assert(elem(s1) == (s2, r2));
            if let Ok(item) = r2 {
                if rem(toks, s2) < rem(toks, st) {
                    lemma_arguments_loop(toks, s2, items.push(item), start_position);
                }
            }
        }
    }
}

/// Call arguments are read as `between_delimited_by` reads the items of a
/// list once its opener is taken: separated by `,` up to `)`, each one an
/// expression.
pub proof fn law_arguments_delimited(toks: Seq<TokView>, st: PState)
    ensures
        p_arguments(toks, st) == p_delimited_items(
            toks,
            st,
            TokenKind::RParen,
            TokenKind::Comma,
            |s: PState| p_expr_impl(toks, s, Precedence::Lowest),
            st.position,
        ),
{
    let elem = |s: PState| p_expr_impl(toks, s, Precedence::Lowest);
    let (s2, r2) = p_expr_impl(toks, st, Precedence::Lowest);
    assert(elem(st) == (s2, r2));
    if st.idx <= toks.len() {
        // An argument that is read has consumed a token.
        lemma_expr_impl_moves_on(toks, st, Precedence::Lowest);
    } else {
        assert(p_prefix(toks, st).1 is Err);
    }
    if let Ok(first) = r2 {
        lemma_arguments_loop(toks, s2, seq![first], st.position);
    }
}


/// A block keeps every statement it read: a final expression statement
/// becomes its tail and leaves the list; otherwise there is no tail. Blocks
/// are all in region 0 for now.
pub proof fn law_block_tail(stmts: Seq<SpecStmt>)
    ensures
        make_block(stmts).region_id == RegionId(0),
        match make_block(stmts).tail {
            Some(e) => make_block(stmts).statements.push(SpecStmt::Expr(*e)) == stmts,
            None => make_block(stmts).statements == stmts && (stmts.len() == 0 || !(stmts.last() is Expr)),
        },
{
    if stmts.len() > 0 && stmts.last() is Expr {
        assert(stmts.drop_last().push(stmts.last()) =~= stmts);
    }
}


/// How a delimited list goes on after some items: a token that is neither
/// the delimiter nor the end is an error that names both; an element's error
/// after a delimiter is the list's error; and a list that is read keeps the
/// items read so far, in order, in front of the ones that follow, and ends
/// by consuming the end token.
pub proof fn law_delimited_list<V>(
    toks: Seq<TokView>,
    st: PState,
    end: TokenKind,
    delimiter: TokenKind,
    elem: spec_fn(PState) -> (PState, Result<V, Seq<char>>),
    items: Seq<V>,
    start_position: nat,
)
    ensures
        peek(toks, st) matches Some(t) ==> (t.kind != end && t.kind != delimiter ==> p_delimited_loop(
            toks,
            st,
            end,
            delimiter,
            elem,
            items,
            start_position,
        ) == (st, Err::<Seq<V>, Seq<char>>(msg_delimiter(delimiter, end, t.kind, start_position)))),
        ({
            let s1 = advance(toks, st);
            peek_is(toks, st, delimiter) && delimiter != end && !peek_is(toks, s1, end) && elem(s1).1 is Err
                ==> p_delimited_loop(toks, st, end, delimiter, elem, items, start_position) == (
                elem(s1).0,
                Err::<Seq<V>, Seq<char>>(elem(s1).1->Err_0),
            )
        }),
        ({
            let (s, r) = p_delimited_loop(toks, st, end, delimiter, elem, items, start_position);
            r matches Ok(v) ==> {
                &&& items.len() <= v.len()
                &&& v.subrange(0, items.len() as int) == items
                &&& 1 <= s.idx <= toks.len()
                &&& toks[s.idx - 1].kind == end
            }
        }),
    decreases rem(toks, st),
{
    if let Some(t) = peek(toks, st) {
        if t.kind != end && t.kind == delimiter {
            let s1 = advance(toks, st);
            if !peek_is(toks, s1, end) {
                let (s2, r2) = elem(s1);
                if let Ok(item) = r2 {
                    if rem(toks, s2) < rem(toks, st) {
                        law_delimited_list(toks, s2, end, delimiter, elem, items.push(item), start_position);
                        let (s, r) = p_delimited_loop(toks, s2, end, delimiter, elem, items.push(item), start_position);
                        if let Ok(v) = r {
                            assert(v.subrange(0, items.len() as int) =~= v.subrange(0, items.len() + 1int).subrange(0, items.len() as int));
                            assert(items.push(item).subrange(0, items.len() as int) =~= items);
                        }
                    }
                }
            }
        }
    }
}

} // verus!
