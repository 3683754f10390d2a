//! The precedence table as a statement of its own, and a proof that the
//! expression parser follows it.
//!
//! A chain of operands joined by binary operators and `=` is read as one
//! tree: the operator that binds most loosely stands at the top; of several
//! on that loosest level, the last one does (the binary levels group to the
//! left), unless the level is assignment, where the first one does (it
//! groups to the right). Each side is then read the same way. An operand is
//! any expression the parser reads before an operator: a literal, a name, a
//! parenthesized expression, a block, an `if`, a unary operation or a
//! borrow.

use vstd::prelude::*;
use crate::lexer::{TokenKind, TokView};
use crate::ast::SpecExpr;
use crate::parser::expression::{Precedence, level, precedence_of, next_level, lemma_next_higher_tighter, lemma_precedence_operators};
use crate::parser::grammar::{PState, rem, peek, peek_is, advance, p_if, p_block, p_expression, p_expr_impl, p_infix_loop, p_prefix, p_infix, p_binary, p_next};
use crate::parser::progress::{lemma_prefix_moves_on, lemma_expr_impl_moves_on};
use crate::parser::properties::{infix_operator, operand, operand_expr, binary_expr, consumed, lemma_operand};

verus! {

/// An operator that may join two operands of a chain: a binary operator with
/// a precedence, or `=`.
pub open spec fn chain_operator(k: TokenKind) -> bool {
    infix_operator(k) || k == TokenKind::Equals
}

/// How loosely an operator binds: the level of its precedence.
pub open spec fn op_level(k: TokenKind) -> nat {
    level(precedence_of(k))
}

/// The operator at `k` stands at the top of `ops`: every other operator binds
/// more tightly, or on the same level lies on the side its level groups to
/// (before it for a binary level, after it for assignment).
pub open spec fn top(ops: Seq<TokenKind>, k: int) -> bool {
    &&& 0 <= k < ops.len()
    &&& forall|i: int|
        0 <= i < ops.len() && i != k ==> #[trigger] op_level(ops[i]) > op_level(ops[k]) || (
        op_level(ops[i]) == op_level(ops[k]) && (i < k <==> ops[k] != TokenKind::Equals))
}

/// Two operands joined by an operator: an assignment for `=`, a binary
/// operation otherwise.
pub open spec fn combine(l: SpecExpr, k: TokenKind, r: SpecExpr) -> SpecExpr {
    if k == TokenKind::Equals {
        SpecExpr::Assign { target: Box::new(l), value: Box::new(r) }
    } else {
        binary_expr(l, k, r)
    }
}

/// The tree of the operands `es` joined by the operators `ops`, split at the
/// operator on top.
pub open spec fn tree(es: Seq<SpecExpr>, ops: Seq<TokenKind>) -> SpecExpr
    decreases ops.len(),
{
    if ops.len() > 0 && es.len() == ops.len() + 1 && exists|k: int| top(ops, k) {
        let k = choose|k: int| top(ops, k);
        combine(
            tree(es.subrange(0, k + 1), ops.subrange(0, k)),
            ops[k],
            tree(es.subrange(k + 1, es.len() as int), ops.subrange(k + 1, ops.len() as int)),
        )
    } else {
        es[0]
    }
}

/// `toks` begins with a chain of `m` operators: operands at the even
/// places up to `2m`, operators at the odd ones, and then the end of the
/// input or a token that is no operator.
pub open spec fn chain(toks: Seq<TokView>, m: nat) -> bool {
    &&& toks.len() >= 2 * m + 1
    &&& forall|k: int| 0 <= k <= m ==> operand(#[trigger] toks[2 * k])
    &&& forall|k: int| 0 <= k < m ==> chain_operator(#[trigger] toks[2 * k + 1].kind)
    &&& (toks.len() > 2 * m + 1 ==> precedence_of(toks[2 * m + 1int].kind) == Precedence::Lowest)
}

/// The operands of a chain of `m` operators, as expressions.
pub open spec fn chain_operands(toks: Seq<TokView>, m: nat) -> Seq<SpecExpr> {
    Seq::new(m + 1, |k: int| operand_expr(toks[2 * k]))
}

/// The operators of a chain of `m` operators.
pub open spec fn chain_operators(toks: Seq<TokView>, m: nat) -> Seq<TokenKind> {
    Seq::new(m, |k: int| toks[2 * k + 1].kind)
}

/// A chain whose operands are single tokens is read as its tree: the whole
/// chain is consumed, and the result nests the operators by the precedence
/// table, binary levels grouping to the left and assignment to the right.
pub proof fn law_precedence(toks: Seq<TokView>, st: PState, m: nat)
    requires
        chain(toks, m),
        st.idx == 0,
    ensures
        p_expression(toks, st) == (consumed(toks, st, 2 * m + 1), Ok::<SpecExpr, Seq<char>>(
            tree(chain_operands(toks, m), chain_operators(toks, m)),
        )),
{
    let es = chain_operands(toks, m);
    let os = chain_operators(toks, m);
    let pre = Seq::new(m + 1, |k: int| consumed(toks, st, (2 * k) as nat));
    let post = Seq::new(m + 1, |k: int| consumed(toks, st, (2 * k + 1) as nat));
    assert forall|k: int| 0 <= k < es.len() implies #[trigger] p_expr_impl(
        toks,
        pre[k],
        Precedence::Unary,
    ) == (post[k], Ok::<SpecExpr, Seq<char>>(es[k])) by {
        assert(operand(toks[2 * k]));
        lemma_operand(toks, st, (2 * k) as nat);
        if k < m {
            lemma_chain_levels(toks[2 * k + 1].kind);
        }
        assert(p_infix_loop(toks, post[k], es[k], Precedence::Unary) == (post[k], Ok::<
            SpecExpr,
            Seq<char>,
        >(es[k])));
    }
    assert forall|k: int| 0 <= k < os.len() implies {
        &&& chain_operator(#[trigger] os[k])
        &&& peek(toks, post[k]) matches Some(t) && t.kind == os[k]
        &&& pre[k + 1] == advance(toks, post[k])
    } by {
        assert(chain_operator(toks[2 * k + 1].kind));
    }
    assert(consumed(toks, st, 0) == st);
    law_precedence_general(toks, pre, post, es, os);
}

/// The tree of the operands `j..=e` and the operators between them.
pub open spec fn seg(es: Seq<SpecExpr>, os: Seq<TokenKind>, j: int, e: int) -> SpecExpr {
    tree(es.subrange(j, e + 1), os.subrange(j, e))
}

/// The first operator from `c` on that binds more loosely than `p`, or the
/// end of the operators.
pub open spec fn seg_end(os: Seq<TokenKind>, c: int, p: Precedence) -> int
    decreases os.len() - c,
{
    if c < 0 || c >= os.len() {
        os.len() as int
    } else if op_level(os[c]) < level(p) {
        c
    } else {
        seg_end(os, c + 1, p)
    }
}

proof fn lemma_seg_end(os: Seq<TokenKind>, c: int, p: Precedence)
    requires
        0 <= c <= os.len(),
    ensures
        c <= seg_end(os, c, p) <= os.len(),
        forall|k: int| c <= k < seg_end(os, c, p) ==> op_level(#[trigger] os[k]) >= level(p),
        seg_end(os, c, p) < os.len() ==> op_level(os[seg_end(os, c, p)]) < level(p),
    decreases os.len() - c,
{
    if c < os.len() && op_level(os[c]) >= level(p) {
        lemma_seg_end(os, c + 1, p);
    }
}

proof fn lemma_seg_end_skip(os: Seq<TokenKind>, c: int, d: int, p: Precedence)
    requires
        0 <= c <= d <= os.len(),
        forall|k: int| c <= k < d ==> op_level(#[trigger] os[k]) >= level(p),
    ensures
        seg_end(os, c, p) == seg_end(os, d, p),
    decreases d - c,
{
    if c < d {
        assert(op_level(os[c]) >= level(p));
        lemma_seg_end_skip(os, c + 1, d, p);
    }
}

proof fn lemma_top_unique(os: Seq<TokenKind>, k1: int, k2: int)
    requires
        top(os, k1),
        top(os, k2),
    ensures
        k1 == k2,
{
    if k1 != k2 {
        assert(op_level(os[k2]) > op_level(os[k1]) || op_level(os[k2]) == op_level(os[k1]));
        assert(op_level(os[k1]) > op_level(os[k2]) || op_level(os[k1]) == op_level(os[k2]));
    }
}

/// A chain splits at its top operator.
proof fn lemma_split(es: Seq<SpecExpr>, os: Seq<TokenKind>, j: int, c: int, e: int)
    requires
        es.len() == os.len() + 1,
        0 <= j <= c < e <= os.len(),
        top(os.subrange(j, e), c - j),
    ensures
        seg(es, os, j, e) == combine(seg(es, os, j, c), os[c], seg(es, os, c + 1, e)),
{
    let o = os.subrange(j, e);
    let x = es.subrange(j, e + 1);
    let k = choose|k: int| top(o, k);
    lemma_top_unique(o, k, c - j);
    assert(x.subrange(0, k + 1) =~= es.subrange(j, c + 1));
    assert(o.subrange(0, k) =~= os.subrange(j, c));
    assert(x.subrange(k + 1, x.len() as int) =~= es.subrange(c + 1, e + 1));
    assert(o.subrange(k + 1, o.len() as int) =~= os.subrange(c + 1, e));
}

/// The operators of a chain bind on levels 10 to 70.
proof fn lemma_chain_levels(k: TokenKind)
    requires
        chain_operator(k),
    ensures
        10 <= op_level(k) <= 70,
        op_level(k) % 10 == 0,
        op_level(k) == 10 <==> k == TokenKind::Equals,
        k != TokenKind::LParen,
{
    lemma_precedence_operators(k);
}

/// Operands of any form that binds at least as tightly as a unary operation
/// (literals, names, parenthesized expressions, blocks, `if`, unary
/// operations, borrows, and calls of any of these), joined by the operators
/// `os`: operand `k` is read at unary precedence from state `pre[k]` to
/// `post[k]` as `es[k]`; operator `k` is the next token there, and operand
/// `k + 1` begins after it; after the last operand comes the end of the
/// input or a token that is no operator.
pub open spec fn operand_chain(
    toks: Seq<TokView>,
    pre: Seq<PState>,
    post: Seq<PState>,
    es: Seq<SpecExpr>,
    os: Seq<TokenKind>,
) -> bool {
    &&& es.len() == os.len() + 1
    &&& pre.len() == es.len()
    &&& post.len() == es.len()
    &&& pre[0].idx <= toks.len()
    &&& forall|k: int|
        0 <= k < es.len() ==> #[trigger] p_expr_impl(toks, pre[k], Precedence::Unary) == (
            post[k],
            Ok::<SpecExpr, Seq<char>>(es[k]),
        )
    &&& forall|k: int|
        0 <= k < os.len() ==> {
            &&& chain_operator(#[trigger] os[k])
            &&& peek(toks, post[k]) matches Some(t) && t.kind == os[k]
            &&& pre[k + 1] == advance(toks, post[k])
        }
    &&& (peek(toks, post[os.len() as int]) matches Some(t) ==> precedence_of(t.kind)
        == Precedence::Lowest)
}

/// A chain of operands of any of those forms and operators is read as its
/// tree: the whole chain is consumed, and the result nests the operators by
/// the precedence table, binary levels grouping to the left and assignment
/// to the right.
pub proof fn law_precedence_general(
    toks: Seq<TokView>,
    pre: Seq<PState>,
    post: Seq<PState>,
    es: Seq<SpecExpr>,
    os: Seq<TokenKind>,
)
    requires
        operand_chain(toks, pre, post, es, os),
    ensures
        p_expression(toks, pre[0]) == (post[os.len() as int], Ok::<SpecExpr, Seq<char>>(tree(es, os))),
{
    let m = os.len() as int;
    lemma_seg_end(os, 0, Precedence::Lowest);
    lemma_expr(toks, pre, post, es, os, 0, Precedence::Lowest);
    assert(es.subrange(0, m + 1) =~= es);
    assert(os.subrange(0, m) =~= os);
}

/// An `if`'s condition is a whole expression: whatever chain of operands
/// and operators (`&&`, `||`, `==`, `!=` and the rest) stands before its
/// block, the condition is that chain's tree, just as an expression standing
/// alone would be read. With a block after the chain and no `else` after the
/// block, that `if` is the whole result.
pub proof fn law_if_condition(
    toks: Seq<TokView>,
    pre: Seq<PState>,
    post: Seq<PState>,
    es: Seq<SpecExpr>,
    os: Seq<TokenKind>,
)
    requires
        operand_chain(toks, pre, post, es, os),
    ensures
        p_if(toks, pre[0]).1 matches Ok(SpecExpr::If { condition, .. }) ==> *condition == tree(es, os),
        ({
            let (s2, r2) = p_block(toks, post[os.len() as int]);
            r2 matches Ok(b) ==> (!peek_is(toks, s2, TokenKind::Else) ==> p_if(toks, pre[0]) == (
                s2,
                Ok::<SpecExpr, Seq<char>>(
                    (SpecExpr::If { condition: Box::new(tree(es, os)), then_branch: b, else_branch: None }),
                ),
            ))
        }),
{
    law_precedence_general(toks, pre, post, es, os);
    lemma_expr_impl_moves_on(toks, pre[0], Precedence::Lowest);
    assert(p_expr_impl(toks, pre[0], Precedence::Lowest) == p_expression(toks, pre[0]));
}

/// The operands of a chain lie in order: each is read forwards, and each
/// operator sits between two of them.
proof fn lemma_chain_states(
    toks: Seq<TokView>,
    pre: Seq<PState>,
    post: Seq<PState>,
    es: Seq<SpecExpr>,
    os: Seq<TokenKind>,
    n: int,
)
    requires
        operand_chain(toks, pre, post, es, os),
        0 <= n <= os.len(),
    ensures
        forall|k: int| 0 <= k <= n ==> pre[k].idx <= #[trigger] post[k].idx <= toks.len(),
        forall|k: int| 0 <= k <= n ==> #[trigger] pre[k].idx <= toks.len(),
        forall|k: int| 0 <= k < n ==> #[trigger] pre[k + 1].idx == post[k].idx + 1,
        forall|a: int, b: int| 0 <= a < b <= n ==> #[trigger] post[a].idx < #[trigger] post[b].idx,
    decreases n,
{
    if n > 0 {
        lemma_chain_states(toks, pre, post, es, os, n - 1);
        assert(p_expr_impl(toks, pre[n - 1], Precedence::Unary) == (post[n - 1], Ok::<SpecExpr, Seq<char>>(es[n - 1])));
        assert(chain_operator(os[n - 1]));
        assert(pre[n] == advance(toks, post[n - 1]));
    }
    lemma_expr_impl_moves_on(toks, pre[n], Precedence::Unary);
    assert(p_expr_impl(toks, pre[n], Precedence::Unary) == (post[n], Ok::<SpecExpr, Seq<char>>(es[n])));
}

/// From operand `j`, reading at precedence `p` takes the operands up to the
/// first operator that binds more loosely than `p`, as their tree.
proof fn lemma_expr(
    toks: Seq<TokView>,
    pre: Seq<PState>,
    post: Seq<PState>,
    es: Seq<SpecExpr>,
    os: Seq<TokenKind>,
    j: int,
    p: Precedence,
)
    requires
        operand_chain(toks, pre, post, es, os),
        0 <= j <= os.len(),
        level(p) <= level(Precedence::Unary),
    ensures
        p_expr_impl(toks, pre[j], p) == (post[seg_end(os, j, p)], Ok::<SpecExpr, Seq<char>>(
            seg(es, os, j, seg_end(os, j, p)),
        )),
    decreases os.len() - j, 2int,
{
    lemma_chain_states(toks, pre, post, es, os, os.len() as int);
    assert(p_expr_impl(toks, pre[j], Precedence::Unary) == (post[j], Ok::<SpecExpr, Seq<char>>(es[j])));
    let (mid, r) = p_prefix(toks, pre[j]);
    lemma_prefix_moves_on(toks, pre[j]);
    lemma_call_suffix(toks, mid, r->Ok_0, p);
    assert(p_expr_impl(toks, pre[j], p) == p_infix_loop(toks, post[j], es[j], p));
    assert(es.subrange(j, j + 1) =~= seq![es[j]]);
    assert(seg(es, os, j, j) == es[j]);
    lemma_loop(toks, pre, post, es, os, j, j, p);
}

/// Calls after an operand are taken the same way whatever precedence the
/// loop reads at, up to the loosest of calls: reading them at unary
/// precedence and then going on at `p` is reading at `p` from the start.
proof fn lemma_call_suffix(toks: Seq<TokView>, x: PState, lhs: SpecExpr, p: Precedence)
    requires
        level(p) <= level(Precedence::Unary),
    ensures
        p_infix_loop(toks, x, lhs, Precedence::Unary) matches (s, Ok(e)) ==> p_infix_loop(
            toks,
            x,
            lhs,
            p,
        ) == p_infix_loop(toks, s, e, p),
    decreases rem(toks, x),
{
    if let Some(t) = peek(toks, x) {
        let np = precedence_of(t.kind);
        if !(level(np) < level(Precedence::Unary) || np == Precedence::Lowest) {
            let (s1, r1) = p_infix(toks, x, lhs, np);
            if r1 is Ok && rem(toks, s1) < rem(toks, x) {
                lemma_call_suffix(toks, s1, r1->Ok_0, p);
            }
        }
    }
}

/// What the loop after operand `c` may assume: the operators from `j` to
/// `c` bind at least as tightly as `p`, and none binds more loosely than the
/// next one, nor equally where that one is `=`.
pub open spec fn loop_ready(os: Seq<TokenKind>, j: int, c: int, p: Precedence) -> bool {
    &&& 0 <= j <= c <= os.len()
    &&& forall|k: int| j <= k < c ==> op_level(#[trigger] os[k]) >= level(p)
    &&& c < os.len() ==> forall|k: int|
        j <= k < c ==> op_level(#[trigger] os[k]) >= op_level(os[c]) && (op_level(os[k])
            == op_level(os[c]) ==> os[c] != TokenKind::Equals)
}

/// The loop after operand `c`, with the tree of operands `j..=c` read so far,
/// ends at the same place as reading from `j`, with the tree up to there.
proof fn lemma_loop(
    toks: Seq<TokView>,
    pre: Seq<PState>,
    post: Seq<PState>,
    es: Seq<SpecExpr>,
    os: Seq<TokenKind>,
    j: int,
    c: int,
    p: Precedence,
)
    requires
        operand_chain(toks, pre, post, es, os),
        loop_ready(os, j, c, p),
    ensures
        p_infix_loop(toks, post[c], seg(es, os, j, c), p) == (post[seg_end(os, j, p)], Ok::<
            SpecExpr,
            Seq<char>,
        >(seg(es, os, j, seg_end(os, j, p)))),
    decreases os.len() - c, 1int,
{
    let m = os.len() as int;
    let lhs = seg(es, os, j, c);
    lemma_seg_end_skip(os, j, c, p);
    lemma_seg_end(os, c, p);
    if c == m {
        assert(seg_end(os, c, p) == c);
        assert(p_infix_loop(toks, post[c], lhs, p) == (post[c], Ok::<SpecExpr, Seq<char>>(lhs)));
    } else {
        let op = os[c];
        assert(chain_operator(op));
        lemma_chain_levels(op);
        if op_level(op) < level(p) {
            assert(seg_end(os, c, p) == c);
            assert(p_infix_loop(toks, post[c], lhs, p) == (post[c], Ok::<SpecExpr, Seq<char>>(lhs)));
        } else if op == TokenKind::Equals {
            lemma_loop_assign(toks, pre, post, es, os, j, c, p);
        } else {
            lemma_loop_binary(toks, pre, post, es, os, j, c, p);
        }
    }
}

/// The loop goes on at an `=`, whose right side is the rest of the chain.
proof fn lemma_loop_assign(
    toks: Seq<TokView>,
    pre: Seq<PState>,
    post: Seq<PState>,
    es: Seq<SpecExpr>,
    os: Seq<TokenKind>,
    j: int,
    c: int,
    p: Precedence,
)
    requires
        operand_chain(toks, pre, post, es, os),
        loop_ready(os, j, c, p),
        c < os.len(),
        os[c] == TokenKind::Equals,
        op_level(os[c]) >= level(p),
    ensures
        p_infix_loop(toks, post[c], seg(es, os, j, c), p) == (post[seg_end(os, j, p)], Ok::<
            SpecExpr,
            Seq<char>,
        >(seg(es, os, j, seg_end(os, j, p)))),
    decreases os.len() - c, 0int,
{
    let m = os.len() as int;
    let lhs = seg(es, os, j, c);
    let op = os[c];
    lemma_chain_states(toks, pre, post, es, os, m);
    let t = peek(toks, post[c])->Some_0;
    assert(chain_operator(op));
    lemma_chain_levels(op);
    let pp = precedence_of(op);
    assert(p_next(toks, post[c]) == (pre[c + 1], Some(t)));
    assert forall|k: int| 0 <= k < m implies chain_operator(#[trigger] os[k]) by {}
    lemma_seg_end_skip(os, j, c, p);
    lemma_seg_end(os, c + 1, Precedence::Assignment);
    assert forall|k: int| c + 1 <= k < m implies op_level(#[trigger] os[k]) >= level(
        Precedence::Assignment,
    ) by {
        lemma_chain_levels(os[k]);
    }
    lemma_seg_end_skip(os, c + 1, m, Precedence::Assignment);
    assert(seg_end(os, c + 1, Precedence::Assignment) == m);
    lemma_expr(toks, pre, post, es, os, c + 1, Precedence::Assignment);
    let rhs = seg(es, os, c + 1, m);
    let new_lhs = combine(lhs, op, rhs);
    assert(p_infix(toks, post[c], lhs, pp) == (post[m], Ok::<SpecExpr, Seq<char>>(new_lhs)));
    // The `=` is on top of the operands `j..=m`.
    let o = os.subrange(j, m);
    assert forall|i: int| 0 <= i < o.len() && i != c - j implies #[trigger] op_level(o[i])
        > op_level(o[c - j]) || (op_level(o[i]) == op_level(o[c - j]) && (i < c - j
        <==> o[c - j] != TokenKind::Equals)) by {
        assert(o[i] == os[j + i]);
        lemma_chain_levels(os[j + i]);
    }
    lemma_split(es, os, j, c, m);
    assert forall|k: int| j <= k < m implies op_level(#[trigger] os[k]) >= level(p) by {
        lemma_chain_levels(os[k]);
    }
    lemma_loop(toks, pre, post, es, os, j, m, p);
    lemma_seg_end_skip(os, c, m, p);
    assert(post[c].idx < post[m].idx);
    assert(p_infix_loop(toks, post[c], lhs, p) == p_infix_loop(toks, post[m], new_lhs, p));
}

/// The loop goes on at a binary operator, whose right side binds one level
/// more tightly.
proof fn lemma_loop_binary(
    toks: Seq<TokView>,
    pre: Seq<PState>,
    post: Seq<PState>,
    es: Seq<SpecExpr>,
    os: Seq<TokenKind>,
    j: int,
    c: int,
    p: Precedence,
)
    requires
        operand_chain(toks, pre, post, es, os),
        loop_ready(os, j, c, p),
        c < os.len(),
        os[c] != TokenKind::Equals,
        op_level(os[c]) >= level(p),
    ensures
        p_infix_loop(toks, post[c], seg(es, os, j, c), p) == (post[seg_end(os, j, p)], Ok::<
            SpecExpr,
            Seq<char>,
        >(seg(es, os, j, seg_end(os, j, p)))),
    decreases os.len() - c, 0int,
{
    let m = os.len() as int;
    let lhs = seg(es, os, j, c);
    let op = os[c];
    lemma_chain_states(toks, pre, post, es, os, m);
    let t = peek(toks, post[c])->Some_0;
    assert(chain_operator(op));
    lemma_chain_levels(op);
    let pp = precedence_of(op);
    assert(p_next(toks, post[c]) == (pre[c + 1], Some(t)));
    lemma_seg_end_skip(os, j, c, p);
    lemma_next_higher_tighter(pp);
    let q = next_level(pp)->Some_0;
    lemma_seg_end(os, c + 1, q);
    let e2 = seg_end(os, c + 1, q);
    lemma_expr(toks, pre, post, es, os, c + 1, q);
    let rhs = seg(es, os, c + 1, e2);
    let new_lhs = combine(lhs, op, rhs);
    assert(p_binary(toks, pre[c + 1], lhs, pp, t) == (post[e2], Ok::<SpecExpr, Seq<char>>(new_lhs)));
    assert(p_infix(toks, post[c], lhs, pp) == (post[e2], Ok::<SpecExpr, Seq<char>>(new_lhs)));
    // The operator is on top of the operands `j..=e2`.
    let o = os.subrange(j, e2);
    assert forall|i: int| 0 <= i < o.len() && i != c - j implies #[trigger] op_level(o[i])
        > op_level(o[c - j]) || (op_level(o[i]) == op_level(o[c - j]) && (i < c - j
        <==> o[c - j] != TokenKind::Equals)) by {
        assert(o[i] == os[j + i]);
    }
    lemma_split(es, os, j, c, e2);
    if e2 < m {
        lemma_chain_levels(os[e2]);
        assert forall|k: int| j <= k < e2 implies op_level(#[trigger] os[k]) >= op_level(os[e2])
            && (op_level(os[k]) == op_level(os[e2]) ==> os[e2] != TokenKind::Equals) by {
            lemma_chain_levels(os[k]);
        }
    }
    lemma_loop(toks, pre, post, es, os, j, e2, p);
    lemma_seg_end_skip(os, c, e2, p);
    assert(post[c].idx < post[e2].idx);
    assert(p_infix_loop(toks, post[c], lhs, p) == p_infix_loop(toks, post[e2], new_lhs, p));
}

} // verus!
