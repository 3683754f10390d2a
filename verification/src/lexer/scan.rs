//! The scanner: one maximal-munch step over a character buffer.

use vstd::prelude::*;
use crate::lexer::{
    TokenKind, Step, literal_of, is_digit, is_ident_start, is_ident_continue, is_ws, kind_matches,
    digits, ident, whitespace, any_match, longest_match, winner, step_at, priority, bool_lit, str_body, delim_body,
    no_match_at,
};
use crate::lexer::rules::{
    can_start, lemma_can_start, lemma_literal_shape, lemma_ws_not_kind, lemma_step_token,
    lemma_step_ws, all_ident_continue, symbol_start, lemma_symbol, lemma_fail_pipe, lemma_fail_one,
    lemma_dead_start, lemma_string_to_end, lemma_string_closed, lemma_string_bad_escape,
    lemma_str_body_escape, lemma_str_body_concat, lemma_str_body_unit, lemma_line_comment,
    lemma_delim_unclosed, lemma_delim_closed, lemma_delim_body_pair, lemma_delim_body_unit,
    lemma_delim_body_concat, lemma_slash_plain, comment_kind,
};

verus! {

/// One step of the scanner, lengths in characters.
pub enum Scan {
    Skip(usize),
    Emit(TokenKind, usize),
    Fail(usize),
}

/// `r` is the step that maximal munch takes at `i`; a token that is emitted
/// belongs to the winning kind of its text, and a failure comes only where
/// no prefix matches.
pub open spec fn scan_agrees(s: Seq<char>, i: int, r: Scan) -> bool {
    match r {
        Scan::Skip(n) => step_at(s, i) == Step::Skip(n as nat),
        Scan::Emit(k, n) => step_at(s, i) == Step::Emit(k, n as nat) && winner(k, s.subrange(i, i + n)),
        Scan::Fail(n) => step_at(s, i) == Step::Fail(n as nat) && no_match_at(s, i),
    }
}

pub fn is_ws_char(c: char) -> (b: bool)
    ensures
        b == is_ws(c),
{
    c == ' ' || c == '\t' || c == '\n' || c == '\x0C'
}

pub fn is_digit_char(c: char) -> (b: bool)
    ensures
        b == is_digit(c),
{
    '0' <= c && c <= '9'
}

pub fn is_ident_start_char(c: char) -> (b: bool)
    ensures
        b == is_ident_start(c),
{
    ('a' <= c && c <= 'z') || ('A' <= c && c <= 'Z') || c == '_'
}

pub fn is_ident_continue_char(c: char) -> (b: bool)
    ensures
        b == is_ident_continue(c),
{
    is_ident_start_char(c) || is_digit_char(c)
}

/// Whitespace run starting at `i`.
fn scan_whitespace(s: &Vec<char>, i: usize) -> (r: Scan)
    requires
        i < s.len(),
        is_ws(s@[i as int]),
    ensures
        scan_agrees(s@, i as int, r),
        r matches Scan::Skip(n) && n >= 1 && i + n <= s@.len(),
{
    let mut j = i + 1;
    while j < s.len() && is_ws_char(s[j])
        invariant
            i < j <= s@.len(),
            forall|q: int| i <= q < j ==> is_ws(#[trigger] s@[q]),
        decreases s@.len() - j,
    {
        j = j + 1;
    }
    proof {
        let t = s@.subrange(i as int, j as int);
        assert(whitespace(t));
        assert forall|m: int| j < m <= s@.len() implies !any_match(
            #[trigger] s@.subrange(i as int, m),
        ) by {
            let t2 = s@.subrange(i as int, m);
            assert(t2[j - i] == s@[j as int]);
            assert(!whitespace(t2));
            assert forall|k: TokenKind| !kind_matches(k, t2) by {
                if kind_matches(k, t2) {
                    lemma_can_start(k, t2);
                    crate::lexer::rules::lemma_ws_starts_nothing(k, t2[0]);
                }
            }
        }
        lemma_step_ws(s@, i as int, (j - i) as int);
    }
    Scan::Skip(j - i)
}

/// The kind of a word (a maximal run of identifier characters): the keyword,
/// type name or boolean it spells, or `Ident`.
fn classify_word(s: &Vec<char>, i: usize, n: usize) -> (k: TokenKind)
    requires
        i + n <= s.len(),
        ident(s@.subrange(i as int, (i + n) as int)),
    ensures
        winner(k, s@.subrange(i as int, (i + n) as int)),
{
    let ghost t = s@.subrange(i as int, (i + n) as int);
    let k = if n == 2 {
        let (c0, c1) = (s[i + 0], s[i + 1]);
        if c0 == 'i' && c1 == 'f' {
            TokenKind::If
        } else if c0 == 'i' && c1 == 'n' {
            TokenKind::In
        } else if c0 == 'u' && c1 == '8' {
            TokenKind::U8
        } else if c0 == 'i' && c1 == '8' {
            TokenKind::I8
        } else {
            TokenKind::Ident
        }
    } else if n == 3 {
        let (c0, c1, c2) = (s[i + 0], s[i + 1], s[i + 2]);
        if c0 == 'f' && c1 == 'o' && c2 == 'r' {
            TokenKind::For
        } else if c0 == 'd' && c1 == 'e' && c2 == 'f' {
            TokenKind::Def
        } else if c0 == 'l' && c1 == 'e' && c2 == 't' {
            TokenKind::Let
        } else if c0 == 'u' && c1 == '1' && c2 == '6' {
            TokenKind::U16
        } else if c0 == 'u' && c1 == '3' && c2 == '2' {
            TokenKind::U32
        } else if c0 == 'u' && c1 == '6' && c2 == '4' {
            TokenKind::U64
        } else if c0 == 'i' && c1 == '1' && c2 == '6' {
            TokenKind::I16
        } else if c0 == 'i' && c1 == '3' && c2 == '2' {
            TokenKind::I32
        } else if c0 == 'i' && c1 == '6' && c2 == '4' {
            TokenKind::I64
        } else if c0 == 'f' && c1 == '3' && c2 == '2' {
            TokenKind::F32
        } else if c0 == 'f' && c1 == '6' && c2 == '4' {
            TokenKind::F64
        } else if c0 == 's' && c1 == 't' && c2 == 'r' {
            TokenKind::StrType
        } else {
            TokenKind::Ident
        }
    } else if n == 4 {
        let (c0, c1, c2, c3) = (s[i + 0], s[i + 1], s[i + 2], s[i + 3]);
        if c0 == 'e' && c1 == 'l' && c2 == 's' && c3 == 'e' {
            TokenKind::Else
        } else if c0 == 'e' && c1 == 'n' && c2 == 'u' && c3 == 'm' {
            TokenKind::Enum
        } else if c0 == 'c' && c1 == 'h' && c2 == 'a' && c3 == 'r' {
            TokenKind::CharType
        } else if c0 == 'b' && c1 == 'o' && c2 == 'o' && c3 == 'l' {
            TokenKind::BoolType
        } else if c0 == 'v' && c1 == 'o' && c2 == 'i' && c3 == 'd' {
            TokenKind::VoidType
        } else if c0 == 't' && c1 == 'r' && c2 == 'u' && c3 == 'e' {
            TokenKind::BoolLit
        } else {
            TokenKind::Ident
        }
    } else if n == 5 {
        let (c0, c1, c2, c3, c4) = (s[i + 0], s[i + 1], s[i + 2], s[i + 3], s[i + 4]);
        if c0 == 'w' && c1 == 'h' && c2 == 'i' && c3 == 'l' && c4 == 'e' {
            TokenKind::While
        } else if c0 == 'b' && c1 == 'r' && c2 == 'e' && c3 == 'a' && c4 == 'k' {
            TokenKind::Break
        } else if c0 == 'i' && c1 == 's' && c2 == 'i' && c3 == 'z' && c4 == 'e' {
            TokenKind::ISize
        } else if c0 == 'u' && c1 == 's' && c2 == 'i' && c3 == 'z' && c4 == 'e' {
            TokenKind::USize
        } else if c0 == 'f' && c1 == 'a' && c2 == 'l' && c3 == 's' && c4 == 'e' {
            TokenKind::BoolLit
        } else {
            TokenKind::Ident
        }
    } else if n == 6 {
        let (c0, c1, c2, c3, c4, c5) = (s[i + 0], s[i + 1], s[i + 2], s[i + 3], s[i + 4], s[i + 5]);
        if c0 == 'r' && c1 == 'e' && c2 == 't' && c3 == 'u' && c4 == 'r' && c5 == 'n' {
            TokenKind::Return
        } else if c0 == 's' && c1 == 't' && c2 == 'r' && c3 == 'u' && c4 == 'c' && c5 == 't' {
            TokenKind::Struct
        } else {
            TokenKind::Ident
        }
    } else {
        TokenKind::Ident
    };
    proof {
        assert forall|j: int| 0 <= j < n implies #[trigger] t[j] == s@[i + j] by {}
        if k != TokenKind::Ident && k != TokenKind::BoolLit {
            assert(t =~= literal_of(k)->0);
        }
        if k == TokenKind::BoolLit {
            assert(t =~= seq!['t', 'r', 'u', 'e'] || t =~= seq!['f', 'a', 'l', 's', 'e']);
        }
        assert forall|k2: TokenKind| #[trigger] kind_matches(k2, t) implies k2 == k || priority(k2) < priority(k) by {
            lemma_can_start(k2, t);
            lemma_literal_shape(k2);
        }
    }
    k
}


/// A word: identifier, keyword, type name or boolean.
fn scan_word(s: &Vec<char>, i: usize) -> (r: Scan)
    requires
        i < s.len(),
        is_ident_start(s@[i as int]),
    ensures
        scan_agrees(s@, i as int, r),
        r matches Scan::Emit(_, n) && n >= 1 && i + n <= s@.len(),
{
    let mut j = i + 1;
    while j < s.len() && is_ident_continue_char(s[j])
        invariant
            i < j <= s@.len(),
            is_ident_start(s@[i as int]),
            forall|q: int| i <= q < j ==> is_ident_continue(#[trigger] s@[q]),
        decreases s@.len() - j,
    {
        j = j + 1;
    }
    let n = j - i;
    proof {
        let t = s@.subrange(i as int, j as int);
        assert(t[0] == s@[i as int]);
        assert(ident(t));
    }
    let k = classify_word(s, i, n);
    proof {
        assert forall|m: int| j < m <= s@.len() implies !any_match(
            #[trigger] s@.subrange(i as int, m),
        ) by {
            let t2 = s@.subrange(i as int, m);
            assert(t2[n as int] == s@[j as int]);
            assert(t2[0] == s@[i as int]);
            assert(!whitespace(t2));
            assert forall|k2: TokenKind| !kind_matches(k2, t2) by {
                if kind_matches(k2, t2) {
                    lemma_can_start(k2, t2);
                    lemma_literal_shape(k2);
                    if k2 == TokenKind::BoolLit {
                        assert(t2 =~= seq!['t', 'r', 'u', 'e'] || t2 =~= seq!['f', 'a', 'l', 's', 'e']);
                    }
                    if literal_of(k2) is Some {
                        assert(all_ident_continue(t2));
                    }
                }
            }
        }
        lemma_step_token(s@, i as int, n as int, k);
    }
    Scan::Emit(k, n)
}

/// Digits, possibly a fractional part.
fn scan_number(s: &Vec<char>, i: usize) -> (r: Scan)
    requires
        i < s.len(),
        is_digit(s@[i as int]),
    ensures
        scan_agrees(s@, i as int, r),
        r matches Scan::Emit(_, n) && n >= 1 && i + n <= s@.len(),
{
    let mut j = i + 1;
    while j < s.len() && is_digit_char(s[j])
        invariant
            i < j <= s@.len(),
            forall|q: int| i <= q < j ==> is_digit(#[trigger] s@[q]),
        decreases s@.len() - j,
    {
        j = j + 1;
    }
    let int_end = j;
    if j < s.len() && s.len() - j >= 2 && s[j] == '.' && is_digit_char(s[j + 1]) {
        let mut e = j + 2;
        while e < s.len() && is_digit_char(s[e])
            invariant
                int_end + 2 <= e <= s@.len(),
                forall|q: int| int_end + 1 <= q < e ==> is_digit(#[trigger] s@[q]),
            decreases s@.len() - e,
        {
            e = e + 1;
        }
        let n = e - i;
        proof {
            let t = s@.subrange(i as int, e as int);
            let d = (int_end - i) as int;
            assert(t[d] == '.');
            assert(digits(t.subrange(0, d))) by {
                assert forall|q: int| 0 <= q < d implies is_digit(#[trigger] t.subrange(0, d)[q]) by {
                    assert(t.subrange(0, d)[q] == s@[i + q]);
                }
            }
            assert(digits(t.subrange(d + 1, t.len() as int))) by {
                assert forall|q: int| 0 <= q < t.len() - d - 1 implies is_digit(
                    #[trigger] t.subrange(d + 1, t.len() as int)[q],
                ) by {
                    assert(t.subrange(d + 1, t.len() as int)[q] == s@[int_end + 1 + q]);
                }
            }
            assert(kind_matches(TokenKind::FloatLit, t));
            assert forall|k2: TokenKind| #[trigger] kind_matches(k2, t) implies k2
                == TokenKind::FloatLit || priority(k2) < priority(TokenKind::FloatLit) by {
                lemma_can_start(k2, t);
                if k2 == TokenKind::IntLit {
                    assert(!is_digit(t[d]));
                }
            }
            assert forall|m: int| e < m <= s@.len() implies !any_match(
                #[trigger] s@.subrange(i as int, m),
            ) by {
                let t2 = s@.subrange(i as int, m);
                assert(t2[0] == s@[i as int]);
                assert(!whitespace(t2));
                assert forall|k2: TokenKind| !kind_matches(k2, t2) by {
                    if kind_matches(k2, t2) {
                        lemma_can_start(k2, t2);
                        if k2 == TokenKind::IntLit {
                            assert(t2[d] == '.');
                        } else if k2 == TokenKind::FloatLit {
                            let d2 = choose|d2: int|
                                0 < d2 < t2.len() && #[trigger] t2[d2] == '.' && digits(
                                    t2.subrange(0, d2),
                                ) && digits(t2.subrange(d2 + 1, t2.len() as int));
                            if d2 < d {
                                assert(t2[d2] == s@[i + d2]);
                            } else if d2 == d {
                                assert(t2.subrange(d2 + 1, t2.len() as int)[n - d - 1] == s@[e as int]);
                            } else {
                                assert(t2.subrange(0, d2)[d] == '.');
                            }
                        }
                    }
                }
            }
            lemma_step_token(s@, i as int, n as int, TokenKind::FloatLit);
        }
        Scan::Emit(TokenKind::FloatLit, n)
    } else {
        let n = j - i;
        proof {
            let t = s@.subrange(i as int, j as int);
            assert(digits(t)) by {
                assert forall|q: int| 0 <= q < t.len() implies is_digit(#[trigger] t[q]) by {
                    assert(t[q] == s@[i + q]);
                }
            }
            assert(kind_matches(TokenKind::IntLit, t));
            assert forall|k2: TokenKind| #[trigger] kind_matches(k2, t) implies k2
                == TokenKind::IntLit || priority(k2) < priority(TokenKind::IntLit) by {
                lemma_can_start(k2, t);
                if k2 == TokenKind::FloatLit {
                    let d2 = choose|d2: int|
                        0 < d2 < t.len() && #[trigger] t[d2] == '.' && digits(t.subrange(0, d2))
                            && digits(t.subrange(d2 + 1, t.len() as int));
                    assert(is_digit(t[d2]));
                }
            }
            assert forall|m: int| j < m <= s@.len() implies !any_match(
                #[trigger] s@.subrange(i as int, m),
            ) by {
                let t2 = s@.subrange(i as int, m);
                assert(t2[0] == s@[i as int]);
                assert(t2[n as int] == s@[j as int]);
                assert(!whitespace(t2));
                assert forall|k2: TokenKind| !kind_matches(k2, t2) by {
                    if kind_matches(k2, t2) {
                        lemma_can_start(k2, t2);
                        if k2 == TokenKind::FloatLit {
                            let d2 = choose|d2: int|
                                0 < d2 < t2.len() && #[trigger] t2[d2] == '.' && digits(
                                    t2.subrange(0, d2),
                                ) && digits(t2.subrange(d2 + 1, t2.len() as int));
                            if d2 < n {
                                assert(t2[d2] == s@[i + d2]);
                            } else if d2 == n {
                                assert(t2.subrange(d2 + 1, t2.len() as int)[0] == s@[j + 1]);
                            } else {
                                assert(t2.subrange(0, d2)[n as int] == s@[j as int]);
                            }
                        }
                    }
                }
            }
            lemma_step_token(s@, i as int, n as int, TokenKind::IntLit);
        }
        Scan::Emit(TokenKind::IntLit, n)
    }
}


/// Operators and punctuation.
fn scan_symbol(s: &Vec<char>, i: usize) -> (r: Scan)
    requires
        i < s.len(),
        symbol_start(s@[i as int]),
    ensures
        scan_agrees(s@, i as int, r),
        match r {
            Scan::Emit(_, n) => n >= 1 && i + n <= s@.len(),
            Scan::Fail(n) => n == 1,
            Scan::Skip(_) => false,
        },
{
    let c = s[i];
    let has1 = s.len() - i >= 2;
    let c1 = if has1 { s[i + 1] } else { ' ' };
    let has2 = s.len() - i >= 3;
    let c2 = if has2 { s[i + 2] } else { ' ' };
    let (k, n): (TokenKind, usize) = if c == '+' {
        if has1 && c1 == '=' {
            (TokenKind::PlusEquals, 2)
        } else {
            (TokenKind::Plus, 1)
        }
    } else if c == '-' {
        if has1 && c1 == '=' {
            (TokenKind::MinusEquals, 2)
        } else {
            (TokenKind::Minus, 1)
        }
    } else if c == '*' {
        if has1 && c1 == '=' {
            (TokenKind::StarEquals, 2)
        } else {
            (TokenKind::Star, 1)
        }
    } else if c == '%' {
        (TokenKind::Percent, 1)
    } else if c == '(' {
        (TokenKind::LParen, 1)
    } else if c == ')' {
        (TokenKind::RParen, 1)
    } else if c == '[' {
        (TokenKind::LBracket, 1)
    } else if c == ']' {
        (TokenKind::RBracket, 1)
    } else if c == '{' {
        (TokenKind::LBrace, 1)
    } else if c == '}' {
        (TokenKind::RBrace, 1)
    } else if c == ',' {
        (TokenKind::Comma, 1)
    } else if c == ':' {
        (TokenKind::Colon, 1)
    } else if c == ';' {
        (TokenKind::Semicolon, 1)
    } else if c == '=' {
        if has1 && c1 == '=' {
            (TokenKind::DoubleEqual, 2)
        } else {
            (TokenKind::Equals, 1)
        }
    } else if c == '&' {
        if has1 && c1 == '&' {
            (TokenKind::DoubleAmpersand, 2)
        } else {
            (TokenKind::Ampersand, 1)
        }
    } else if c == '<' {
        if has1 && c1 == '=' {
            (TokenKind::LessThanEqual, 2)
        } else {
            (TokenKind::LessThan, 1)
        }
    } else if c == '>' {
        if has1 && c1 == '=' {
            (TokenKind::GreaterThanEqual, 2)
        } else {
            (TokenKind::GreaterThan, 1)
        }
    } else if c == '!' {
        if has1 && c1 == '=' {
            (TokenKind::BangEqual, 2)
        } else {
            (TokenKind::Bang, 1)
        }
    } else if c == '.' {
        if has2 && c1 == '.' && c2 == '.' {
            (TokenKind::DotDotDot, 3)
        } else if has1 && c1 == '.' {
            (TokenKind::DotDot, 2)
        } else {
            (TokenKind::Dot, 1)
        }
    } else if c == '|' {
        if has1 && c1 == '|' {
            (TokenKind::DoublePipe, 2)
        } else {
            proof {
                lemma_fail_pipe(s@, i as int);
            }
            return Scan::Fail(1);
        }
    } else {
        proof {
            let t = s@.subrange(i as int, i + 1);
            assert(t[0] == c);
            assert forall|k: TokenKind| !can_start(k, #[trigger] t[0]) by {
                lemma_literal_shape(k);
            }
            lemma_dead_start(t);
            lemma_fail_one(s@, i as int);
        }
        return Scan::Fail(1);
    };
    proof {
        let t = s@.subrange(i as int, i + n);
        assert(t[0] == c);
        assert(n >= 2 ==> t[1] == c1);
        assert(n >= 3 ==> t[2] == c2);
        assert(t =~= literal_of(k)->0);
        assert forall|k2: TokenKind|
            #![trigger literal_of(k2)]
            literal_of(k2) matches Some(l) ==> (l.len() > n && i + l.len() <= s@.len() ==> l
                != s@.subrange(i as int, i + l.len())) by {
            if literal_of(k2) is Some {
                let l = literal_of(k2)->0;
                if l.len() > n && i + l.len() <= s@.len() {
                    let t2 = s@.subrange(i as int, i + l.len());
                    assert(t2[0] == c);
                    assert(t2[1] == s@[i + 1]);
                    assert(l.len() >= 3 ==> t2[2] == s@[i + 2]);
                }
            }
        }
        lemma_symbol(s@, i as int, n as int, k);
        lemma_step_token(s@, i as int, n as int, k);
    }
    Scan::Emit(k, n)
}


/// A character literal or a lone apostrophe.
fn scan_quote(s: &Vec<char>, i: usize) -> (r: Scan)
    requires
        i < s.len(),
        s@[i as int] == '\'',
    ensures
        scan_agrees(s@, i as int, r),
        r matches Scan::Emit(_, n) && n >= 1 && i + n <= s@.len(),
{
    let rest = s.len() - i;
    let (k, n): (TokenKind, usize) = if rest >= 3 && s[i + 1] != '\'' && s[i + 1] != '\\' && s[i
        + 2] == '\'' {
        (TokenKind::CharLit, 3)
    } else if rest >= 4 && s[i + 1] == '\\' && s[i + 2] != '\n' && s[i + 3] == '\'' {
        (TokenKind::CharLit, 4)
    } else {
        (TokenKind::Apostrophe, 1)
    };
    proof {
        let t = s@.subrange(i as int, i + n);
        assert(t[0] == '\'');
        if k == TokenKind::Apostrophe {
            assert(t =~= seq!['\'']);
        }
        assert(kind_matches(k, t));
        assert forall|k2: TokenKind| #[trigger] kind_matches(k2, t) implies k2 == k || priority(k2)
            < priority(k) by {
            lemma_can_start(k2, t);
        }
        assert forall|m: int| i + n < m <= s@.len() implies !any_match(
            #[trigger] s@.subrange(i as int, m),
        ) by {
            let t2 = s@.subrange(i as int, m);
            assert(t2[0] == '\'');
            assert(t2.len() >= 2 ==> t2[1] == s@[i + 1]);
            assert(t2.len() >= 3 ==> t2[2] == s@[i + 2]);
            assert(t2.len() >= 4 ==> t2[3] == s@[i + 3]);
            assert(!whitespace(t2));
            assert forall|k2: TokenKind| !kind_matches(k2, t2) by {
                if kind_matches(k2, t2) {
                    lemma_can_start(k2, t2);
                }
            }
        }
        lemma_step_token(s@, i as int, n as int, k);
    }
    Scan::Emit(k, n)
}


/// A string literal, or the error left by an unfinished one.
fn scan_string(s: &Vec<char>, i: usize) -> (r: Scan)
    requires
        i < s.len(),
        s@[i as int] == '"',
    ensures
        scan_agrees(s@, i as int, r),
        match r {
            Scan::Emit(_, n) => n >= 1 && i + n <= s@.len(),
            Scan::Fail(n) => n >= 1 && i + n <= s@.len(),
            Scan::Skip(_) => false,
        },
{
    let mut p = i + 1;
    proof {
        assert(s@.subrange(i + 1, i + 1) =~= Seq::<char>::empty());
    }
    loop
        invariant
            i < p <= s@.len(),
            s@[i as int] == '"',
            str_body(s@.subrange(i + 1, p as int)),
        decreases s@.len() - p,
    {
        if p >= s.len() {
            proof {
                lemma_string_to_end(s@, i as int, p as int);
            }
            return Scan::Fail(s.len() - i);
        }
        let c = s[p];
        if c == '"' {
            proof {
                lemma_string_closed(s@, i as int, p as int);
                lemma_step_token(s@, i as int, (p + 1 - i) as int, TokenKind::StringLit);
            }
            return Scan::Emit(TokenKind::StringLit, p + 1 - i);
        }
        if c == '\\' {
            if s.len() - p < 2 {
                proof {
                    lemma_string_to_end(s@, i as int, p as int);
                }
                return Scan::Fail(s.len() - i);
            }
            let c1 = s[p + 1];
            if c1 == '\n' {
                proof {
                    lemma_string_bad_escape(s@, i as int, p as int);
                }
                return Scan::Fail(p + 1 - i);
            }
            proof {
                lemma_str_body_escape(c1);
                lemma_str_body_concat(s@.subrange(i + 1, p as int), seq!['\\', c1]);
                assert(s@.subrange(i + 1, p + 2) =~= s@.subrange(i + 1, p as int) + seq!['\\', c1]);
            }
            p = p + 2;
        } else {
            proof {
                lemma_str_body_unit(c);
                lemma_str_body_concat(s@.subrange(i + 1, p as int), seq![c]);
                assert(s@.subrange(i + 1, p + 1) =~= s@.subrange(i + 1, p as int) + seq![c]);
            }
            p = p + 1;
        }
    }
}


/// A slash: a comment, `/=` or `/`.
fn scan_slash(s: &Vec<char>, i: usize) -> (r: Scan)
    requires
        i < s.len(),
        s@[i as int] == '/',
    ensures
        scan_agrees(s@, i as int, r),
        match r {
            Scan::Emit(_, n) => n >= 1 && i + n <= s@.len(),
            Scan::Skip(n) => n >= 1 && i + n <= s@.len(),
            Scan::Fail(_) => false,
        },
{
    let rest = s.len() - i;
    if rest >= 2 && s[i + 1] == '/' {
        let mut e = i + 2;
        while e < s.len() && s[e] != '\n'
            invariant
                i + 2 <= e <= s@.len(),
                forall|q: int| i + 2 <= q < e ==> #[trigger] s@[q] != '\n',
            decreases s@.len() - e,
        {
            e = e + 1;
        }
        proof {
            lemma_line_comment(s@, i as int, e as int);
            lemma_step_token(s@, i as int, (e - i) as int, TokenKind::Comment);
        }
        return Scan::Skip(e - i);
    }
    if rest >= 2 && (s[i + 1] == '*' || s[i + 1] == '+') {
        let d = s[i + 1];
        let mut p = i + 2;
        proof {
            assert(s@.subrange(i + 2, i + 2) =~= Seq::<char>::empty());
        }
        loop
            invariant
                i + 2 <= p <= s@.len(),
                d == '*' || d == '+',
                s@[i as int] == '/' && s@[i + 1] == d,
                delim_body(d, s@.subrange(i + 2, p as int)),
            decreases s@.len() - p,
        {
            if p >= s.len() || (s[p] == d && s.len() - p < 2) {
                proof {
                    lemma_delim_unclosed(s@, i as int, d, p as int);
                    lemma_step_token(s@, i as int, 1, TokenKind::Slash);
                }
                return Scan::Emit(TokenKind::Slash, 1);
            }
            let c = s[p];
            if c == d {
                let c1 = s[p + 1];
                if c1 == '/' {
                    let n = p + 2 - i;
                    proof {
                        lemma_delim_closed(s@, i as int, d, p as int);
                        lemma_step_token(s@, i as int, n as int, comment_kind(d));
                    }
                    if d == '*' {
                        return Scan::Skip(n);
                    } else {
                        return Scan::Emit(TokenKind::DocComment, n);
                    }
                }
                proof {
                    lemma_delim_body_pair(d, c1);
                    lemma_delim_body_concat(d, s@.subrange(i + 2, p as int), seq![d, c1]);
                    assert(s@.subrange(i + 2, p + 2) =~= s@.subrange(i + 2, p as int) + seq![d, c1]);
                }
                p = p + 2;
            } else {
                proof {
                    lemma_delim_body_unit(d, c);
                    lemma_delim_body_concat(d, s@.subrange(i + 2, p as int), seq![c]);
                    assert(s@.subrange(i + 2, p + 1) =~= s@.subrange(i + 2, p as int) + seq![c]);
                }
                p = p + 1;
            }
        }
    }
    if rest >= 2 && s[i + 1] == '=' {
        proof {
            lemma_slash_plain(s@, i as int, 2, TokenKind::SlashEquals);
            lemma_step_token(s@, i as int, 2, TokenKind::SlashEquals);
        }
        Scan::Emit(TokenKind::SlashEquals, 2)
    } else {
        proof {
            lemma_slash_plain(s@, i as int, 1, TokenKind::Slash);
            lemma_step_token(s@, i as int, 1, TokenKind::Slash);
        }
        Scan::Emit(TokenKind::Slash, 1)
    }
}

/// One maximal-munch step at `i`.
pub fn scan_at(s: &Vec<char>, i: usize) -> (r: Scan)
    requires
        i < s.len(),
    ensures
        scan_agrees(s@, i as int, r),
        match r {
            Scan::Emit(_, n) => n >= 1 && i + n <= s@.len(),
            Scan::Skip(n) => n >= 1 && i + n <= s@.len(),
            Scan::Fail(n) => n >= 1 && i + n <= s@.len(),
        },
{
    let c = s[i];
    if is_ws_char(c) {
        scan_whitespace(s, i)
    } else if is_ident_start_char(c) {
        scan_word(s, i)
    } else if is_digit_char(c) {
        scan_number(s, i)
    } else if c == '"' {
        scan_string(s, i)
    } else if c == '\'' {
        scan_quote(s, i)
    } else if c == '/' {
        scan_slash(s, i)
    } else {
        scan_symbol(s, i)
    }
}

} // verus!
