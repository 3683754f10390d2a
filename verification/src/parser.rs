//! Recursive-descent parser for the Sorrel language.
//!
//! The parser reads the tokens of its source in order. Every parsing method
//! computes exactly the function of the same name in `grammar`: from the
//! tokens and the parse state before the call, the state after it and the
//! result or error message.

use vstd::prelude::*;
use lasso::{Key, Rodeo, Spur};
use crate::ast::types::{RegionId, Type, SpecType};
use crate::lexer::{Lexer, Token, TokenKind, TokView, SpecToken, lex, tokens_from, token_view, next_token_at};
use crate::parser::grammar::{
    PState, rem, peek, peek_is, advance, p_next, p_expect, p_optional, p_any_of, intern, p_region,
    p_between, p_between_loop, p_delimited, p_delimited_loop, p_identifier, p_typed_identifier,
    p_base_type, p_type, p_pointer_type, p_array_type, type_kinds, decimal_value, parse_unsigned,
    p_block, p_block_loop, p_statement, p_let, p_for, p_while, p_members, p_declaration,
    p_struct_declaration, p_enum_declaration, p_toplevel, p_module, make_block, regions_extend,
    p_delimited_items,
};
use crate::ast::{
    Block, Stmt, TypedIdentifier, ToplevelStmt, AST, SpecStmt, SpecToplevel, SpecAst,
    typed_idents_view, stmt_view, toplevel_view,
};
use crate::lexer::{digits, is_digit};
use crate::lexer::text::chars_of;
use crate::parser::messages::{
    format_expected, format_expected_eof, format_expected_any, format_expected_any_eof,
    format_delimiter, format_unexpected_kind, format_invalid_array_size, text,
};

pub mod expression;
pub mod grammar;
pub mod messages;
pub mod precedence;
pub mod progress;
pub mod properties;

verus! {

broadcast use vstd::seq_lib::group_seq_properties;

#[verifier::external_type_specification]
#[verifier::external_body]
#[verifier::reject_recursive_types(K)]
#[verifier::reject_recursive_types(S)]
pub struct ExRodeo<K, S>(Rodeo<K, S>);

#[verifier::external_type_specification]
#[verifier::external_body]
pub struct ExSpur(Spur);

/// The strings an interner holds, in the order they were first interned; a
/// string's key is its index.
pub uninterp spec fn interned(r: Rodeo) -> Seq<Seq<char>>;

/// `lasso::Rodeo::new`: an interner that holds no strings.
#[verifier::external_body]
fn new_interner() -> (r: Rodeo)
    ensures
        interned(r) == Seq::<Seq<char>>::empty(),
{
    Rodeo::new()
}

/// `lasso::Rodeo::get_or_intern`, with the key read back by
/// `lasso::Key::into_usize`: a string already held keeps its index and leaves
/// the interner as it was; a new one is appended and gets the next index. The
/// call panics when the key space (fewer than `u32::MAX` strings) is used up,
/// which `requires` rules out; that it may also panic when memory runs out is
/// not stated.
#[verifier::external_body]
fn get_or_intern(r: &mut Rodeo, s: &str) -> (key: usize)
    requires
        interned(*old(r)).len() < 0xFFFF_FFFF,
    ensures
        interned(*final(r)) == (if interned(*old(r)).contains(s@) {
            interned(*old(r))
        } else {
            interned(*old(r)).push(s@)
        }),
        key < interned(*final(r)).len(),
        interned(*final(r))[key as int] == s@,
{
    r.get_or_intern(s).into_usize()
}

/// Result of a parsing step as a mathematical value.
pub open spec fn view_result<T: View>(r: Result<T, String>) -> Result<T::V, Seq<char>> {
    match r {
        Ok(v) => Ok(v@),
        Err(e) => Err(e@),
    }
}

pub open spec fn opt_view(r: Option<Token>) -> Option<TokView> {
    match r {
        Some(t) => Some(t@),
        None => None,
    }
}

/// Whether `k` is among `kinds`.
fn kind_in(kinds: &[TokenKind], k: TokenKind) -> (r: bool)
    ensures
        r == kinds@.contains(k),
{
    let mut i: usize = 0;
    while i < kinds.len()
        invariant
            0 <= i <= kinds@.len(),
            forall|j: int| 0 <= j < i ==> kinds@[j] != k,
        decreases kinds@.len() - i,
    {
        if kinds[i] == k {
            return true;
        }
        i = i + 1;
    }
    false
}

proof fn lemma_decimal_prefix(t: Seq<char>, i: int)
    requires
        0 <= i <= t.len(),
    ensures
        decimal_value(t.take(i)) <= decimal_value(t),
    decreases t.len() - i,
{
    if i < t.len() {
        lemma_decimal_prefix(t, i + 1);
        assert(t.take(i + 1).drop_last() =~= t.take(i));
    } else {
        assert(t.take(i) =~= t);
    }
}

/// A string of decimal digits whose value is at most `max`, as a number.
fn parse_decimal(text: &str, max: u64) -> (r: Option<u64>)
    requires
        max >= 9,
    ensures
        match parse_unsigned(text@, max as nat) {
            Some(v) => r == Some(v as u64),
            None => r is None,
        },
{
    let cs = chars_of(text);
    let ghost t = text@;
    if cs.len() == 0 {
        return None;
    }
    let mut value: u64 = 0;
    let mut i: usize = 0;
    proof {
        assert(t.take(0) =~= Seq::<char>::empty());
    }
    while i < cs.len()
        invariant
            cs@ == t,
            t == text@,
            0 <= i <= t.len(),
            value == decimal_value(t.take(i as int)),
            value <= max,
            max >= 9,
            forall|j: int| 0 <= j < i ==> is_digit(#[trigger] t[j]),
        decreases t.len() - i,
    {
        let c = cs[i];
        if !('0' <= c && c <= '9') {
            proof {
                assert(!is_digit(t[i as int]));
                assert(!digits(t));
            }
            return None;
        }
        let d: u64 = (c as u32 - 48) as u64;
        proof {
            assert(t.take(i + 1).drop_last() =~= t.take(i as int));
            assert(t.take(i + 1).last() == c);
        }
        if value > (max - d) / 10 {
            proof {
                assert(value * 10 + d > max) by (nonlinear_arith)
                    requires
                        value > (max - d) / 10,
                        d <= 9,
                ;
                lemma_decimal_prefix(t, i + 1);
            }
            return None;
        }
        proof {
            assert(value * 10 + d <= max) by (nonlinear_arith)
                requires
                    value <= (max - d) / 10,
                    d <= 9,
            ;
        }
        value = value * 10 + d;
        i = i + 1;
    }
    proof {
        assert(t.take(t.len() as int) =~= t);
        assert(digits(t));
    }
    Some(value)
}

/// Whether two strings hold the same characters.
fn str_is(a: &str, b: &str) -> (r: bool)
    ensures
        r == (a@ == b@),
{
    let x = chars_of(a);
    let y = chars_of(b);
    if x.len() != y.len() {
        return false;
    }
    let mut i: usize = 0;
    while i < x.len()
        invariant
            x@ == a@,
            y@ == b@,
            x@.len() == y@.len(),
            0 <= i <= x@.len(),
            forall|j: int| 0 <= j < i ==> x@[j] == y@[j],
        decreases x@.len() - i,
    {
        if x[i] != y[i] {
            return false;
        }
        i = i + 1;
    }
    proof {
        assert(a@ =~= b@);
    }
    true
}

pub struct Parser<'parse> {
    tokens: Vec<Token<'parse>>,
    index: usize,
    position: usize,
    interner: Rodeo,
}

impl<'parse> Parser<'parse> {
    /// The tokens of the source.
    pub closed spec fn toks(&self) -> Seq<TokView> {
        self.tokens@.map_values(|t: Token<'parse>| t@)
    }

    /// Where the parser stands.
    pub closed spec fn state(&self) -> PState {
        PState {
            idx: self.index as nat,
            position: self.position as nat,
            regions: interned(self.interner),
        }
    }

    pub closed spec fn wf(&self) -> bool {
        &&& self.index <= self.tokens@.len()
        &&& self.tokens@.len() < 0xFFFF_FFFF
        &&& interned(self.interner).len() <= self.index
        &&& interned(self.interner).no_duplicates()
    }

    /// What a parsing step keeps: the tokens, well-formedness, that it never
    /// moves backwards, and that the region names interned so far keep their
    /// ids.
    pub open spec fn step(&self, before: &Self) -> bool {
        &&& self.wf()
        &&& self.toks() == before.toks()
        &&& before.state().idx <= self.state().idx <= self.toks().len()
        &&& regions_extend(before.state().regions, self.state().regions)
    }


    /// The next token, without consuming it.
    pub fn peek(&mut self) -> (r: Option<&Token<'parse>>)
        requires
            old(self).wf(),
        ensures
            *final(self) == *old(self),
            match r {
                Some(t) => peek(old(self).toks(), old(self).state()) == Some(t@),
                None => peek(old(self).toks(), old(self).state()) is None,
            },
    {
        if self.index < self.tokens.len() {
            Some(&self.tokens[self.index])
        } else {
            None
        }
    }

    pub fn peek_is(&mut self, kind: TokenKind) -> (r: bool)
        requires
            old(self).wf(),
        ensures
            *final(self) == *old(self),
            r == peek_is(old(self).toks(), old(self).state(), kind),
    {
        match self.peek() {
            Some(token) => token.kind == kind,
            None => false,
        }
    }

    /// Consume the next token.
    pub fn next(&mut self) -> (r: Option<Token<'parse>>)
        requires
            old(self).wf(),
        ensures
            final(self).step(old(self)),
            (final(self).state(), opt_view(r)) == p_next(old(self).toks(), old(self).state()),
    {
        if self.index < self.tokens.len() {
            let token = self.tokens[self.index].clone();
            self.index = self.index + 1;
            self.position = token.span.end;
            Some(token)
        } else {
            None
        }
    }

    /// Expect the next token to be of a specific kind, and consume it.
    pub fn expect(&mut self, expected_kind: TokenKind) -> (r: Result<Token<'parse>, String>)
        requires
            old(self).wf(),
        ensures
            final(self).step(old(self)),
            (final(self).state(), view_result(r)) == p_expect(old(self).toks(), old(self).state(), expected_kind),
    {
        match self.next() {
            Some(token) => if token.kind == expected_kind {
                Ok(token)
            } else {
                Err(format_expected(expected_kind, token.kind, token.span.start))
            },
            None => Err(format_expected_eof(expected_kind)),
        }
    }

    /// Whether the token consumed last, the one that ends where the parser
    /// stands, is of kind `kind`; `false` before any token is consumed.
    pub fn previous_was(&self, kind: TokenKind) -> (r: bool)
        requires
            self.wf(),
        ensures
            r == (self.state().idx > 0 && self.toks()[self.state().idx - 1].kind == kind),
    {
        if self.index == 0 {
            return false;
        }
        self.tokens[self.index - 1].kind == kind
    }

    /// Optionally consume the next token if it matches the expected kind.
    pub fn optional(&mut self, expected_kind: TokenKind) -> (r: Option<Token<'parse>>)
        requires
            old(self).wf(),
        ensures
            final(self).step(old(self)),
            (final(self).state(), opt_view(r)) == p_optional(old(self).toks(), old(self).state(), expected_kind),
    {
        let matches = match self.peek() {
            Some(token) => token.kind == expected_kind,
            None => false,
        };
        if matches {
            self.next()
        } else {
            None
        }
    }

    /// `Parser::expect`, but generalized to accept any token within a list of expected token kinds.
    pub fn any_of(&mut self, expected_kinds: &[TokenKind]) -> (r: Result<Token<'parse>, String>)
        requires
            old(self).wf(),
        ensures
            final(self).step(old(self)),
            (final(self).state(), view_result(r)) == p_any_of(old(self).toks(), old(self).state(), expected_kinds@),
    {
        match self.next() {
            Some(token) => if kind_in(expected_kinds, token.kind) {
                Ok(token)
            } else {
                Err(format_expected_any(expected_kinds, token.kind, token.span.start))
            },
            None => Err(format_expected_any_eof(expected_kinds)),
        }
    }

    /// Intern a region name and return its corresponding RegionId
    fn intern_region(&mut self, name: &str) -> (r: RegionId)
        requires
            old(self).wf(),
            old(self).state().regions.len() < old(self).state().idx,
        ensures
            final(self).step(old(self)),
            (final(self).state(), r) == p_region(old(self).state(), name@),
    {
        let ghost regions = interned(self.interner);
        let key = get_or_intern(&mut self.interner, name);
        proof {
            if regions.contains(name@) {
                let i = regions.index_of(name@);
                assert(regions[key as int] == name@);
                assert(key as int == i);
            } else {
                assert forall|i: int, j: int|
                    0 <= i < regions.len() + 1 && 0 <= j < regions.len() + 1 && i != j implies #[trigger] regions.push(name@)[i]
                        != #[trigger] regions.push(name@)[j] by {
                    if i == regions.len() as int {
                        assert(regions.contains(regions[j]));
                    } else if j == regions.len() as int {
                        assert(regions.contains(regions[i]));
                    }
                }
            }
        }
        RegionId(key)
    }

    /// Intern a string in the parser's interner and return its key's index;
    /// region names share the interner, so the index is the region id the
    /// string would get.
    fn intern_string(&mut self, s: &str) -> (key: usize)
        requires
            old(self).wf(),
            old(self).state().regions.len() < old(self).state().idx,
        ensures
            final(self).step(old(self)),
            (final(self).state(), RegionId(key)) == p_region(old(self).state(), s@),
    {
        let region = self.intern_region(s);
        region.0
    }

    /// A parser over the tokens of `source`, at its start.
    pub fn new(source: &'parse str) -> (p: Self)
        requires
            source@.len() < 0xFFFF_FFFF,
        ensures
            p.wf(),
            p.toks() == lex(source@),
            p.state() == (PState { idx: 0, position: 0, regions: Seq::empty() }),
    {
        let mut lexer = Lexer::new(source);
        let mut tokens: Vec<Token<'parse>> = Vec::new();
        let ghost s = source@;
        let ghost mut spec_toks: Seq<SpecToken> = Seq::empty();
        loop
            invariant
                lexer.wf(),
                lexer.text() == s,
                s == source@,
                s.len() < 0xFFFF_FFFF,
                tokens_from(s, 0) == spec_toks + tokens_from(s, lexer.position() as int),
                tokens@.len() == spec_toks.len(),
                tokens@.len() <= lexer.position(),
                forall|j: int| 0 <= j < tokens@.len() ==> #[trigger] tokens@[j]@ == token_view(s, spec_toks[j]),
                lexer.position() <= s.len(),
            decreases s.len() - lexer.position(),
        {
            let ghost p0 = lexer.position() as int;
            match lexer.next() {
                Some(t) => {
                    proof {
                        let st = next_token_at(s, p0)->0;
                        assert(p0 < st.end <= s.len());
                        assert(tokens_from(s, p0) == seq![st] + tokens_from(s, st.end as int));
                        assert(spec_toks + tokens_from(s, p0) =~= spec_toks.push(st) + tokens_from(s, st.end as int));
                        spec_toks = spec_toks.push(st);
                    }
                    tokens.push(t);
                },
                None => {
                    proof {
                        assert(tokens_from(s, p0) =~= Seq::<SpecToken>::empty());
                        assert(spec_toks =~= tokens_from(s, 0));
                        assert(tokens@.map_values(|t: Token<'parse>| t@) =~= lex(s));
                    }
                    let interner = new_interner();
                    let p = Parser { tokens, index: 0, position: 0, interner };
                    return p;
                },
            }
        }
    }
}

/// Each item's value.
pub open spec fn items_view<T: View>(v: Seq<T>) -> Seq<T::V> {
    v.map_values(|t: T| t@)
}

// Combinators
impl<'parse> Parser<'parse> {
    /// Items between `start_kind` and `end_kind`, each parsed by `f`, which
    /// `requires` asks to compute `elem` over the parser's tokens.
    /// `start_kind` is consumed only if it is next, since some callers have
    /// consumed it already.
    pub fn between<F>(
        &mut self,
        start_kind: TokenKind,
        end_kind: TokenKind,
        mut f: F,
        Ghost(elem): Ghost<spec_fn(PState) -> (PState, Result<TokView, Seq<char>>)>,
    ) -> (r: Result<Vec<Token<'parse>>, String>) where
        F: FnMut(&mut Self) -> Result<Token<'parse>, String>,

        requires
            old(self).wf(),
            forall|p: &mut Parser<'parse>|
                mut_ref_current(p).wf() && mut_ref_current(p).toks() == old(self).toks() ==> #[trigger] call_requires(
                    f,
                    (p,),
                ),
            forall|p: &mut Parser<'parse>, r: Result<Token<'parse>, String>|
                #[trigger] call_ensures(f, (p,), r) && mut_ref_current(p).wf() && mut_ref_current(
                    p,
                ).toks() == old(self).toks() ==> {
                    &&& mut_ref_future(p).step(&mut_ref_current(p))
                    &&& (mut_ref_future(p).state(), view_result(r)) == elem(mut_ref_current(p).state())
                    &&& (r is Ok ==> mut_ref_current(p).state().idx < mut_ref_future(p).state().idx)
                },
        ensures
            final(self).step(old(self)),
            (final(self).state(), match r {
                Ok(v) => Ok(items_view(v@)),
                Err(e) => Err(e@),
            }) == p_between(old(self).toks(), old(self).state(), start_kind, end_kind, elem),
    {
        let ghost toks = self.toks();
        let ghost st0 = self.state();
        let mut items: Vec<Token<'parse>> = Vec::new();
        let starts = match self.peek() {
            Some(t) => t.kind == start_kind,
            None => false,
        };
        if starts {
            self.next();
        }
        proof {
            assert(items_view(items@) =~= Seq::<TokView>::empty());
        }
        loop
            invariant
                self.wf(),
                self.toks() == toks,
                toks == old(self).toks(),
                st0 == old(self).state(),
                regions_extend(st0.regions, self.state().regions),
                st0.idx <= self.state().idx <= toks.len(),
                forall|p: &mut Parser<'parse>|
                    mut_ref_current(p).wf() && mut_ref_current(p).toks() == toks ==> #[trigger] call_requires(
                        f,
                        (p,),
                    ),
                forall|p: &mut Parser<'parse>, r: Result<Token<'parse>, String>|
                    #[trigger] call_ensures(f, (p,), r) && mut_ref_current(p).wf() && mut_ref_current(
                        p,
                    ).toks() == toks ==> {
                        &&& mut_ref_future(p).step(&mut_ref_current(p))
                        &&& (mut_ref_future(p).state(), view_result(r)) == elem(mut_ref_current(p).state())
                        &&& (r is Ok ==> mut_ref_current(p).state().idx < mut_ref_future(p).state().idx)
                    },
                p_between(toks, st0, start_kind, end_kind, elem) == p_between_loop(
                    toks,
                    self.state(),
                    end_kind,
                    elem,
                    items_view(items@),
                ),
            ensures
                peek(toks, self.state()) is None || peek_is(toks, self.state(), end_kind),
            decreases rem(toks, self.state()),
        {
            let at_end = match self.peek() {
                Some(token) => token.kind == end_kind,
                None => true,
            };
            if at_end {
                break;
            }
            let item = f(self)?;
            proof {
                assert(items_view(items@.push(item)) =~= items_view(items@).push(item@));
            }
            items.push(item);
        }
        self.expect(end_kind)?;
        Ok(items)
    }

    /// Items between `start` and `end`, separated by `delimiter`, each
    /// parsed by `parse_element`, which `requires` asks to compute `elem` over
    /// the parser's tokens; a trailing delimiter is allowed. `start` is
    /// consumed only if it is next.
    pub fn between_delimited_by<T: View, F>(
        &mut self,
        start: TokenKind,
        end: TokenKind,
        delimiter: TokenKind,
        mut parse_element: F,
        Ghost(elem): Ghost<spec_fn(PState) -> (PState, Result<T::V, Seq<char>>)>,
    ) -> (r: Result<Vec<T>, String>) where
        F: FnMut(&mut Self) -> Result<T, String>,

        requires
            old(self).wf(),
            forall|p: &mut Parser<'parse>|
                mut_ref_current(p).wf() && mut_ref_current(p).toks() == old(self).toks() ==> #[trigger] call_requires(
                    parse_element,
                    (p,),
                ),
            forall|p: &mut Parser<'parse>, r: Result<T, String>|
                #[trigger] call_ensures(parse_element, (p,), r) && mut_ref_current(p).wf() && mut_ref_current(
                    p,
                ).toks() == old(self).toks() ==> {
                    &&& mut_ref_future(p).step(&mut_ref_current(p))
                    &&& (mut_ref_future(p).state(), view_result(r)) == elem(mut_ref_current(p).state())
                },
        ensures
            final(self).step(old(self)),
            (final(self).state(), match r {
                Ok(v) => Ok(items_view(v@)),
                Err(e) => Err(e@),
            }) == p_delimited(old(self).toks(), old(self).state(), start, end, delimiter, elem),
    {
        let ghost toks = self.toks();
        let ghost st0 = self.state();
        let mut items: Vec<T> = Vec::new();
        let position = self.position;
        let starts = match self.peek() {
            Some(t) => t.kind == start,
            None => false,
        };
        if starts {
            self.next();
        }
        let empty = match self.peek() {
            Some(token) => token.kind == end,
            None => false,
        };
        if empty {
            self.expect(end)?;
            proof {
                assert(items_view(items@) =~= Seq::<T::V>::empty());
            }
            return Ok(items);
        }
        let first = parse_element(self)?;
        proof {
            assert(items_view(seq![first]) =~= seq![first@]);
        }
        items.push(first);
        loop
            invariant_except_break
                p_delimited(toks, st0, start, end, delimiter, elem) == p_delimited_loop(
                    toks,
                    self.state(),
                    end,
                    delimiter,
                    elem,
                    items_view(items@),
                    position as nat,
                ),
            invariant
                self.wf(),
                self.toks() == toks,
                toks == old(self).toks(),
                st0 == old(self).state(),
                regions_extend(st0.regions, self.state().regions),
                st0.idx <= self.state().idx <= toks.len(),
                forall|p: &mut Parser<'parse>|
                    mut_ref_current(p).wf() && mut_ref_current(p).toks() == toks ==> #[trigger] call_requires(
                        parse_element,
                        (p,),
                    ),
                forall|p: &mut Parser<'parse>, r: Result<T, String>|
                    #[trigger] call_ensures(parse_element, (p,), r) && mut_ref_current(p).wf() && mut_ref_current(
                        p,
                    ).toks() == toks ==> {
                        &&& mut_ref_future(p).step(&mut_ref_current(p))
                        &&& (mut_ref_future(p).state(), view_result(r)) == elem(mut_ref_current(p).state())
                        },
                position == st0.position,
            ensures
                p_delimited(toks, st0, start, end, delimiter, elem) == ({
                    let (s1, r1) = p_expect(toks, self.state(), end);
                    (s1, match r1 {
                        Ok(_) => Ok(items_view(items@)),
                        Err(e) => Err(e),
                    })
                }),
            decreases rem(toks, self.state()),
        {
            let kind = match self.peek() {
                Some(token) => token.kind,
                None => {
                    break;
                },
            };
            if kind == end {
                break;
            }
            if kind == delimiter {
                self.next();
                let trailing = match self.peek() {
                    Some(next_tok) => next_tok.kind == end,
                    None => false,
                };
                if trailing {
                    break;
                }
                let item = parse_element(self)?;
                proof {
                    assert(items_view(items@.push(item)) =~= items_view(items@).push(item@));
                }
                items.push(item);
            } else {
                return Err(format_delimiter(delimiter, end, kind, position));
            }
        }
        self.expect(end)?;
        Ok(items)
    }
}

// Parser rules
impl<'parse> Parser<'parse> {
    fn identifier(&mut self) -> (r: Result<String, String>)
        requires
            old(self).wf(),
        ensures
            final(self).step(old(self)),
            (final(self).state(), view_result(r)) == p_identifier(old(self).toks(), old(self).state()),
    {
        let token = self.expect(TokenKind::Ident)?;
        Ok(text(token.lexeme))
    }

    fn typed_identifier(&mut self) -> (r: Result<(String, Type), String>)
        requires
            old(self).wf(),
        ensures
            final(self).step(old(self)),
            (final(self).state(), view_result(r)) == p_typed_identifier(old(self).toks(), old(self).state()),
            r is Ok ==> old(self).state().idx < final(self).state().idx,
    {
        let identifier = self.identifier()?;
        self.expect(TokenKind::Colon)?;
        let ty = self.parse_type()?;
        Ok((identifier, ty))
    }

    // Type parsing
    // -------------------------

    fn base_type(&mut self) -> (r: Result<Type, String>)
        requires
            old(self).wf(),
        ensures
            final(self).step(old(self)),
            (final(self).state(), view_result(r)) == p_base_type(old(self).toks(), old(self).state()),
            r is Ok ==> old(self).state().idx < final(self).state().idx,
    {
        let kinds: [TokenKind; 16] = [
            TokenKind::U8,
            TokenKind::U16,
            TokenKind::U32,
            TokenKind::U64,
            TokenKind::I8,
            TokenKind::I16,
            TokenKind::I32,
            TokenKind::I64,
            TokenKind::F32,
            TokenKind::F64,
            TokenKind::ISize,
            TokenKind::USize,
            TokenKind::BoolType,
            TokenKind::CharType,
            TokenKind::StrType,
            TokenKind::VoidType,
        ];
        proof {
            assert(kinds@ =~= type_kinds());
        }
        let type_token = self.any_of(&kinds)?;
        match Type::from_token_kind(&type_token.kind) {
            Some(t) => Ok(t),
            None => Err(format_unexpected_kind(type_token.kind, type_token.span.start)),
        }
    }

    fn pointer_type(&mut self) -> (r: Result<Type, String>)
        requires
            old(self).wf(),
        ensures
            final(self).step(old(self)),
            (final(self).state(), view_result(r)) == p_pointer_type(old(self).toks(), old(self).state()),
            r is Ok ==> old(self).state().idx < final(self).state().idx,
        decreases rem(old(self).toks(), old(self).state()), 0nat,
    {
        self.expect(TokenKind::Star)?;
        let pointee = self.parse_type()?;
        self.expect(TokenKind::Apostrophe)?;
        let region_name = self.identifier()?;
        let region_id = self.intern_region(region_name.as_str());
        Ok(Type::Pointer(Box::new(pointee), region_id))
    }

    fn array_type(&mut self) -> (r: Result<Type, String>)
        requires
            old(self).wf(),
        ensures
            final(self).step(old(self)),
            (final(self).state(), view_result(r)) == p_array_type(old(self).toks(), old(self).state()),
            r is Ok ==> old(self).state().idx < final(self).state().idx,
        decreases rem(old(self).toks(), old(self).state()), 0nat,
    {
        self.expect(TokenKind::LBracket)?;
        let element_type = self.parse_type()?;
        self.expect(TokenKind::Semicolon)?;
        let size_token = self.expect(TokenKind::IntLit)?;
        let size: usize = match parse_decimal(size_token.lexeme, usize::MAX as u64) {
            Some(v) => v as usize,
            None => {
                return Err(format_invalid_array_size(size_token.lexeme, size_token.span.start));
            },
        };
        self.expect(TokenKind::RBracket)?;
        Ok(Type::Array { element_type: Box::new(element_type), size })
    }

    /// `type = primitive | "*" type "'" identifier | "[" type ";" integer "]"`
    pub fn parse_type(&mut self) -> (r: Result<Type, String>)
        requires
            old(self).wf(),
        ensures
            final(self).step(old(self)),
            (final(self).state(), view_result(r)) == p_type(old(self).toks(), old(self).state()),
            r is Ok ==> old(self).state().idx < final(self).state().idx,
        decreases rem(old(self).toks(), old(self).state()), 1nat,
    {
        let (kind, start) = match self.peek() {
            Some(token) => (token.kind, token.span.start),
            None => {
                return Err(text("Unexpected end of input while parsing type"));
            },
        };
        let token_kind_type = Type::from_token_kind(&kind);
        let is_primitive = match token_kind_type {
            Some(t) => t.is_primitive(),
            None => false,
        };
        match kind {
            TokenKind::Star => self.pointer_type(),
            TokenKind::LBracket => self.array_type(),
            // Primitive types: u8, u16, u32, u64, i8, i16, i32, i64, f32, f64, etc
            _ => if is_primitive {
                self.base_type()
            } else {
                Err(format_unexpected_kind(kind, start))
            },
        }
    }
}


/// Each statement's value.
pub open spec fn stmts_view(v: Seq<Stmt>) -> Seq<SpecStmt> {
    v.map_values(|s: Stmt| s@)
}

/// A block built from `statements` and `tail` is the block `make_block`
/// builds from the statements before the tail was split off.
proof fn lemma_block_view(b: Block, stmts: Seq<Stmt>)
    requires
        b.region_id == RegionId(0),
        match b.tail {
            Some(e) => stmts.len() > 0 && stmts.last() == Stmt::Expr(*e) && b.statements@
                == stmts.drop_last(),
            None => b.statements@ == stmts && (stmts.len() == 0 || !(stmts.last() is Expr)),
        },
    ensures
        b@ == make_block(stmts_view(stmts)),
{
    let sv = stmts_view(stmts);
    match b.tail {
        Some(e) => {
            assert(sv.last() == stmt_view(Stmt::Expr(*e)));
            assert(b@.statements =~= sv.drop_last());
        },
        None => {
            if stmts.len() > 0 {
                assert(sv.last() == stmt_view(stmts.last()));
            }
            assert(b@.statements =~= sv);
        },
    }
}

// Statements, blocks and declarations
impl<'parse> Parser<'parse> {
    /// `let identifier : type = expression`
    fn let_statement(&mut self) -> (r: Result<Stmt, String>)
        requires
            old(self).wf(),
        ensures
            final(self).step(old(self)),
            (final(self).state(), view_result(r)) == p_let(old(self).toks(), old(self).state()),
            r is Ok ==> old(self).state().idx < final(self).state().idx,
        decreases rem(old(self).toks(), old(self).state()), 8nat,
    {
        self.expect(TokenKind::Let)?;
        let (name, ty) = self.typed_identifier()?;
        self.expect(TokenKind::Equals)?;
        let value = self.parse_expression()?;
        let identifier = TypedIdentifier { name, type_: Some(ty) };
        Ok(Stmt::Let { identifier, value: Box::new(value) })
    }

    /// `for identifier : type in expression block`
    fn for_statement(&mut self) -> (r: Result<Stmt, String>)
        requires
            old(self).wf(),
        ensures
            final(self).step(old(self)),
            (final(self).state(), view_result(r)) == p_for(old(self).toks(), old(self).state()),
            r is Ok ==> old(self).state().idx < final(self).state().idx,
        decreases rem(old(self).toks(), old(self).state()), 8nat,
    {
        self.expect(TokenKind::For)?;
        let (iterator_name, iterator_type) = self.typed_identifier()?;
        let iterator = TypedIdentifier { name: iterator_name, type_: Some(iterator_type) };
        self.expect(TokenKind::In)?;
        let iterable = self.parse_expression()?;
        let body = self.parse_block()?;
        Ok(Stmt::For { iterator, iterable: Box::new(iterable), body })
    }

    /// `while expression block`
    fn while_statement(&mut self) -> (r: Result<Stmt, String>)
        requires
            old(self).wf(),
        ensures
            final(self).step(old(self)),
            (final(self).state(), view_result(r)) == p_while(old(self).toks(), old(self).state()),
            r is Ok ==> old(self).state().idx < final(self).state().idx,
        decreases rem(old(self).toks(), old(self).state()), 8nat,
    {
        self.expect(TokenKind::While)?;
        let condition = self.parse_expression()?;
        let body = self.parse_block()?;
        Ok(Stmt::While { condition: Box::new(condition), body })
    }

    /// A `let`, `for` or `while` statement, or an expression.
    pub fn parse_statement(&mut self) -> (r: Result<Stmt, String>)
        requires
            old(self).wf(),
        ensures
            final(self).step(old(self)),
            (final(self).state(), view_result(r)) == p_statement(old(self).toks(), old(self).state()),
            r is Ok ==> old(self).state().idx < final(self).state().idx,
        decreases rem(old(self).toks(), old(self).state()), 9nat,
    {
        let kind = match self.peek() {
            Some(token) => token.kind,
            None => {
                return Err(text("Unexpected end of input while parsing statement"));
            },
        };
        match kind {
            TokenKind::Let => self.let_statement(),
            TokenKind::For => self.for_statement(),
            TokenKind::While => self.while_statement(),
            _ => {
                let expr = self.parse_expression()?;
                Ok(Stmt::Expr(expr))
            },
        }
    }

    /// `{ statement* }`; a final expression statement becomes the tail.
    pub fn parse_block(&mut self) -> (r: Result<Block, String>)
        requires
            old(self).wf(),
        ensures
            final(self).step(old(self)),
            (final(self).state(), view_result(r)) == p_block(old(self).toks(), old(self).state()),
            r is Ok ==> old(self).state().idx < final(self).state().idx,
        decreases rem(old(self).toks(), old(self).state()), 3nat,
    {
        let ghost toks = self.toks();
        let ghost st0 = self.state();
        self.expect(TokenKind::LBrace)?;
        let mut statements: Vec<Stmt> = Vec::new();
        proof {
            assert(stmts_view(statements@) =~= seq![]);
        }
        loop
            invariant
                self.wf(),
                self.toks() == toks,
                toks == old(self).toks(),
                st0 == old(self).state(),
                regions_extend(st0.regions, self.state().regions),
                st0.idx < self.state().idx <= toks.len(),
                p_block(toks, st0) == p_block_loop(toks, self.state(), stmts_view(statements@)),
            ensures
                peek_is(toks, self.state(), TokenKind::RBrace),
            decreases rem(toks, self.state()),
        {
            if self.peek_is(TokenKind::RBrace) {
                break;
            }
            if self.peek().is_none() {
                return Err(text("Unexpected end of input while parsing block"));
            }
            let statement = self.parse_statement()?;
            proof {
                assert(stmts_view(statements@.push(statement)) =~= stmts_view(statements@).push(
                    statement@,
                ));
            }
            statements.push(statement);
        }
        self.expect(TokenKind::RBrace)?;
        let ghost all = statements@;
        let tail = match statements.pop() {
            Some(Stmt::Expr(expr)) => Some(Box::new(expr)),
            Some(statement) => {
                statements.push(statement);
                None
            },
            None => None,
        };
        proof {
            assert(statements@ =~= all || statements@ =~= all.drop_last());
        }
        let block = Block {
            // Replace when blocks declare/infer regions.
            region_id: RegionId(0),
            statements,
            tail,
        };
        proof {
            lemma_block_view(block, all);
        }
        Ok(block)
    }

    /// The fields or variants of a declaration, after its `{`, and the `}`.
    fn members(&mut self) -> (r: Result<Vec<TypedIdentifier>, String>)
        requires
            old(self).wf(),
        ensures
            final(self).step(old(self)),
            (final(self).state(), match r {
                Ok(v) => Ok(typed_idents_view(v@)),
                Err(e) => Err(e@),
            }) == p_members(old(self).toks(), old(self).state(), seq![]),
    {
        let ghost toks = self.toks();
        let ghost st0 = self.state();
        let mut members: Vec<TypedIdentifier> = Vec::new();
        proof {
            assert(typed_idents_view(members@) =~= seq![]);
        }
        loop
            invariant
                self.wf(),
                self.toks() == toks,
                toks == old(self).toks(),
                st0 == old(self).state(),
                regions_extend(st0.regions, self.state().regions),
                st0.idx <= self.state().idx <= toks.len(),
                p_members(toks, st0, seq![]) == p_members(
                    toks,
                    self.state(),
                    typed_idents_view(members@),
                ),
            ensures
                peek_is(toks, self.state(), TokenKind::RBrace),
            decreases rem(toks, self.state()),
        {
            if self.peek_is(TokenKind::RBrace) {
                break;
            }
            let (name, ty) = self.typed_identifier()?;
            let member = TypedIdentifier { name, type_: Some(ty) };
            proof {
                assert(typed_idents_view(members@.push(member)) =~= typed_idents_view(members@).push(
                    member@,
                ));
            }
            members.push(member);
            self.optional(TokenKind::Comma);
        }
        self.expect(TokenKind::RBrace)?;
        Ok(members)
    }

    fn parse_struct_declaration(&mut self) -> (r: Result<ToplevelStmt, String>)
        requires
            old(self).wf(),
        ensures
            final(self).step(old(self)),
            (final(self).state(), view_result(r)) == p_struct_declaration(old(self).toks(), old(self).state()),
            r is Ok ==> old(self).state().idx < final(self).state().idx,
    {
        self.expect(TokenKind::Struct)?;
        let name = self.identifier()?;
        self.expect(TokenKind::LBrace)?;
        let fields = self.members()?;
        Ok(ToplevelStmt::StructDecl { name, fields })
    }

    fn parse_enum_declaration(&mut self) -> (r: Result<ToplevelStmt, String>)
        requires
            old(self).wf(),
        ensures
            final(self).step(old(self)),
            (final(self).state(), view_result(r)) == p_enum_declaration(old(self).toks(), old(self).state()),
            r is Ok ==> old(self).state().idx < final(self).state().idx,
    {
        self.expect(TokenKind::Enum)?;
        let name = self.identifier()?;
        self.expect(TokenKind::LBrace)?;
        let variants = self.members()?;
        Ok(ToplevelStmt::EnumDecl { name, variants })
    }

    /// A struct or enum declaration.
    pub fn parse_toplevel(&mut self) -> (r: Result<ToplevelStmt, String>)
        requires
            old(self).wf(),
        ensures
            final(self).step(old(self)),
            (final(self).state(), view_result(r)) == p_toplevel(old(self).toks(), old(self).state()),
            r is Ok ==> old(self).state().idx < final(self).state().idx,
    {
        let (kind, start) = match self.peek() {
            Some(token) => (token.kind, token.span.start),
            None => {
                return Err(text("Unexpected end of input while parsing toplevel statement"));
            },
        };
        match kind {
            TokenKind::Struct => self.parse_struct_declaration(),
            TokenKind::Enum => self.parse_enum_declaration(),
            _ => Err(format_unexpected_kind(kind, start)),
        }
    }

    /// Declarations up to the end of the input.
    pub fn parse(&mut self) -> (r: Result<AST, String>)
        requires
            old(self).wf(),
        ensures
            final(self).step(old(self)),
            (final(self).state(), view_result(r)) == p_module(old(self).toks(), old(self).state(), seq![]),
    {
        let ghost toks = self.toks();
        let ghost st0 = self.state();
        let mut toplevel_statements: Vec<ToplevelStmt> = Vec::new();
        proof {
            assert(toplevel_statements@.map_values(|t: ToplevelStmt| toplevel_view(t)) =~= seq![]);
        }
        loop
            invariant
                self.wf(),
                self.toks() == toks,
                toks == old(self).toks(),
                st0 == old(self).state(),
                regions_extend(st0.regions, self.state().regions),
                st0.idx <= self.state().idx <= toks.len(),
                p_module(toks, st0, seq![]) == p_module(
                    toks,
                    self.state(),
                    toplevel_statements@.map_values(|t: ToplevelStmt| toplevel_view(t)),
                ),
            ensures
                peek(toks, self.state()) is None,
            decreases rem(toks, self.state()),
        {
            if self.peek().is_none() {
                break;
            }
            let stmt = self.parse_toplevel()?;
            proof {
                assert(toplevel_statements@.push(stmt).map_values(|t: ToplevelStmt| toplevel_view(t))
                    =~= toplevel_statements@.map_values(|t: ToplevelStmt| toplevel_view(t)).push(
                    stmt@,
                ));
            }
            toplevel_statements.push(stmt);
        }
        let ast = AST { toplevel_stmts: toplevel_statements };
        proof {
            assert(ast@ == SpecAst { toplevel_stmts: toplevel_statements@.map_values(|t: ToplevelStmt| toplevel_view(t)) });
        }
        Ok(ast)
    }
}


/// A pointer type read at state `st` names its region by the identifier it
/// consumed last, and its region id is that name's index in the regions after
/// the read (while the regions fit the range of a region id).
proof fn lemma_pointer_region(toks: Seq<TokView>, st: PState)
    ensures
        p_type(toks, st) matches (s, Ok(SpecType::Pointer(_, r))) ==> (s.regions.len() <= usize::MAX ==> {
            &&& 1 <= s.idx <= toks.len()
            &&& r.0 < s.regions.len()
            &&& s.regions[r.0 as int] == toks[s.idx - 1].lexeme
        }),
{
    if peek(toks, st) matches Some(t) && t.kind == TokenKind::Star {
        let (s1, r1) = p_expect(toks, st, TokenKind::Star);
        let (s2, r2) = p_type(toks, s1);
        let (s3, r3) = p_expect(toks, s2, TokenKind::Apostrophe);
        let (s4, r4) = p_identifier(toks, s3);
        assert(p_type(toks, st) == p_pointer_type(toks, st));
        if r1 is Ok && r2 is Ok && r3 is Ok && r4 is Ok {
            let name = r4->Ok_0;
            assert(name == toks[s3.idx as int].lexeme);
            assert(s4.idx == s3.idx + 1);
            let (s5, region) = p_region(s4, name);
            if s4.regions.contains(name) {
                assert(s4.regions[s4.regions.index_of(name)] == name);
            }
            if s5.regions.len() <= usize::MAX {
                assert(s5.regions[region.0 as int] == name);
            }
            assert(p_pointer_type(toks, st).0 == s5);
        }
    } else {
        if peek(toks, st) matches Some(t) && t.kind == TokenKind::LBracket {
            assert(p_type(toks, st) == p_array_type(toks, st));
        }
    }
}

/// Region ids agree across reads on one parser: a pointer type read by
/// `parse_type`, and another read later on the same parser, have the same
/// region id exactly when their region names are the same.
pub proof fn law_pointer_regions_agree(
    p0: Parser,
    r1: Result<Type, String>,
    p1: Parser,
    q: Parser,
    r2: Result<Type, String>,
    p2: Parser,
)
    requires
        p0.wf(),
        p1.step(&p0),
        (p1.state(), view_result(r1)) == p_type(p0.toks(), p0.state()),
        q.step(&p1),
        p2.step(&q),
        (p2.state(), view_result(r2)) == p_type(q.toks(), q.state()),
    ensures
        (r1, r2) matches (Ok(Type::Pointer(_, a)), Ok(Type::Pointer(_, b))) ==> (a == b
            <==> p1.toks()[p1.state().idx - 1].lexeme == p2.toks()[p2.state().idx - 1].lexeme),
{
    lemma_pointer_region(p0.toks(), p0.state());
    lemma_pointer_region(q.toks(), q.state());
    if let (Ok(Type::Pointer(_, a)), Ok(Type::Pointer(_, b))) = (r1, r2) {
        let regions = p2.state().regions;
        assert(regions[a.0 as int] == p1.toks()[p1.state().idx - 1].lexeme);
        assert(regions[b.0 as int] == p2.toks()[p2.state().idx - 1].lexeme);
    }
}

} // verus!
