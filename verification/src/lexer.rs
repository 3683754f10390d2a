//! Lexer for the Sorrel language.
//!
//! The token grammar is stated as a set of regular languages over characters
//! (`kind_matches`, `whitespace`), and lexing is maximal munch over them: at
//! each position the longest prefix that lies in some language is taken; a tie
//! in length goes to the pattern of highest priority; whitespace and comments
//! are dropped; where no prefix matches, an `Error` token covers the longest
//! prefix that could still grow into a match (at least one character).
//! Spans are byte offsets into the UTF-8 source.

use core::ops::Range;
use vstd::prelude::*;
use vstd::utf8::*;
use crate::lexer::scan::{Scan, scan_at, scan_agrees};
use crate::lexer::text::{byte_offset, utf8_width, chars_of, slice_str, lemma_byte_offset_step, lemma_encode_slice};

pub mod properties;
pub mod rules;
pub mod scan;
pub mod text;

verus! {

broadcast use vstd::string::group_string_axioms;

#[derive(Debug, Clone, Copy, PartialEq, Eq, Structural)]
pub enum TokenKind {
    // Symbols
    Plus,
    Minus,
    Star,
    Slash,
    Percent,
    LParen,
    RParen,
    LBracket,
    RBracket,
    LBrace,
    RBrace,
    Equals,
    Dot,
    Comma,
    DotDot,
    DotDotDot,
    Colon,
    Semicolon,
    Ampersand,
    Apostrophe,
    // Multi-character symbols
    PlusEquals,
    MinusEquals,
    StarEquals,
    SlashEquals,
    DoubleEqual,
    BangEqual,
    LessThan,
    LessThanEqual,
    GreaterThan,
    GreaterThanEqual,
    DoubleAmpersand,
    DoublePipe,
    Bang,
    // Keywords
    If,
    Else,
    For,
    While,
    Return,
    Break,
    Def,
    Let,
    In,
    Struct,
    Enum,
    // Reserved types
    U8,
    U16,
    U32,
    U64,
    I8,
    I16,
    I32,
    I64,
    F32,
    F64,
    ISize,
    USize,
    CharType,
    StrType,
    BoolType,
    VoidType,
    // Literals don't store the lexed value to save on memory
    IntLit,
    FloatLit,
    CharLit,
    StringLit,
    BoolLit,
    Ident,
    // Comments (`//...` and `/* ... */`), never emitted
    Comment,
    // Documentation comments (`/+ ... +/`) are preserved
    DocComment,
    Error,
}

/// The text of each token that is a fixed string.
pub open spec fn literal_of(k: TokenKind) -> Option<Seq<char>> {
    match k {
        TokenKind::Plus => Some(seq!['+']),
        TokenKind::Minus => Some(seq!['-']),
        TokenKind::Star => Some(seq!['*']),
        TokenKind::Slash => Some(seq!['/']),
        TokenKind::Percent => Some(seq!['%']),
        TokenKind::LParen => Some(seq!['(']),
        TokenKind::RParen => Some(seq![')']),
        TokenKind::LBracket => Some(seq!['[']),
        TokenKind::RBracket => Some(seq![']']),
        TokenKind::LBrace => Some(seq!['{']),
        TokenKind::RBrace => Some(seq!['}']),
        TokenKind::Equals => Some(seq!['=']),
        TokenKind::Dot => Some(seq!['.']),
        TokenKind::Comma => Some(seq![',']),
        TokenKind::DotDot => Some(seq!['.', '.']),
        TokenKind::DotDotDot => Some(seq!['.', '.', '.']),
        TokenKind::Colon => Some(seq![':']),
        TokenKind::Semicolon => Some(seq![';']),
        TokenKind::Ampersand => Some(seq!['&']),
        TokenKind::Apostrophe => Some(seq!['\'']),
        TokenKind::PlusEquals => Some(seq!['+', '=']),
        TokenKind::MinusEquals => Some(seq!['-', '=']),
        TokenKind::StarEquals => Some(seq!['*', '=']),
        TokenKind::SlashEquals => Some(seq!['/', '=']),
        TokenKind::DoubleEqual => Some(seq!['=', '=']),
        TokenKind::BangEqual => Some(seq!['!', '=']),
        TokenKind::LessThan => Some(seq!['<']),
        TokenKind::LessThanEqual => Some(seq!['<', '=']),
        TokenKind::GreaterThan => Some(seq!['>']),
        TokenKind::GreaterThanEqual => Some(seq!['>', '=']),
        TokenKind::DoubleAmpersand => Some(seq!['&', '&']),
        TokenKind::DoublePipe => Some(seq!['|', '|']),
        TokenKind::Bang => Some(seq!['!']),
        TokenKind::If => Some(seq!['i', 'f']),
        TokenKind::Else => Some(seq!['e', 'l', 's', 'e']),
        TokenKind::For => Some(seq!['f', 'o', 'r']),
        TokenKind::While => Some(seq!['w', 'h', 'i', 'l', 'e']),
        TokenKind::Return => Some(seq!['r', 'e', 't', 'u', 'r', 'n']),
        TokenKind::Break => Some(seq!['b', 'r', 'e', 'a', 'k']),
        TokenKind::Def => Some(seq!['d', 'e', 'f']),
        TokenKind::Let => Some(seq!['l', 'e', 't']),
        TokenKind::In => Some(seq!['i', 'n']),
        TokenKind::Struct => Some(seq!['s', 't', 'r', 'u', 'c', 't']),
        TokenKind::Enum => Some(seq!['e', 'n', 'u', 'm']),
        TokenKind::U8 => Some(seq!['u', '8']),
        TokenKind::U16 => Some(seq!['u', '1', '6']),
        TokenKind::U32 => Some(seq!['u', '3', '2']),
        TokenKind::U64 => Some(seq!['u', '6', '4']),
        TokenKind::I8 => Some(seq!['i', '8']),
        TokenKind::I16 => Some(seq!['i', '1', '6']),
        TokenKind::I32 => Some(seq!['i', '3', '2']),
        TokenKind::I64 => Some(seq!['i', '6', '4']),
        TokenKind::F32 => Some(seq!['f', '3', '2']),
        TokenKind::F64 => Some(seq!['f', '6', '4']),
        TokenKind::ISize => Some(seq!['i', 's', 'i', 'z', 'e']),
        TokenKind::USize => Some(seq!['u', 's', 'i', 'z', 'e']),
        TokenKind::CharType => Some(seq!['c', 'h', 'a', 'r']),
        TokenKind::StrType => Some(seq!['s', 't', 'r']),
        TokenKind::BoolType => Some(seq!['b', 'o', 'o', 'l']),
        TokenKind::VoidType => Some(seq!['v', 'o', 'i', 'd']),
        _ => None,
    }
}

pub open spec fn is_digit(c: char) -> bool {
    '0' <= c <= '9'
}

pub open spec fn is_ident_start(c: char) -> bool {
    ('a' <= c <= 'z') || ('A' <= c <= 'Z') || c == '_'
}

pub open spec fn is_ident_continue(c: char) -> bool {
    is_ident_start(c) || is_digit(c)
}

/// `[ \t\n\f]`
pub open spec fn is_ws(c: char) -> bool {
    c == ' ' || c == '\t' || c == '\n' || c == '\x0C'
}

/// `[ \t\n\f]+`, skipped between tokens.
pub open spec fn whitespace(t: Seq<char>) -> bool {
    t.len() >= 1 && forall|j: int| 0 <= j < t.len() ==> is_ws(#[trigger] t[j])
}

/// `[a-zA-Z_][a-zA-Z0-9_]*`
pub open spec fn ident(t: Seq<char>) -> bool {
    t.len() >= 1 && is_ident_start(t[0]) && forall|j: int|
        0 <= j < t.len() ==> is_ident_continue(#[trigger] t[j])
}

/// `[0-9]+`
pub open spec fn digits(t: Seq<char>) -> bool {
    t.len() >= 1 && forall|j: int| 0 <= j < t.len() ==> is_digit(#[trigger] t[j])
}

/// `[0-9]+\.[0-9]+`
pub open spec fn float_lit(t: Seq<char>) -> bool {
    exists|d: int|
        0 < d < t.len() && #[trigger] t[d] == '.' && digits(t.subrange(0, d)) && digits(
            t.subrange(d + 1, t.len() as int),
        )
}

/// `'([^'\\]|\\.)'`, where `.` is any character but a line feed.
pub open spec fn char_lit(t: Seq<char>) -> bool {
    ||| (t.len() == 3 && t[0] == '\'' && t[1] != '\'' && t[1] != '\\' && t[2] == '\'')
    ||| (t.len() == 4 && t[0] == '\'' && t[1] == '\\' && t[2] != '\n' && t[3] == '\'')
}

/// `([^"\\]|\\.)*`: the inside of a string literal.
pub open spec fn str_body(b: Seq<char>) -> bool
    decreases b.len(),
{
    if b.len() == 0 {
        true
    } else if b[0] != '"' && b[0] != '\\' {
        str_body(b.drop_first())
    } else {
        b.len() >= 2 && b[0] == '\\' && b[1] != '\n' && str_body(b.subrange(2, b.len() as int))
    }
}

/// `"([^"\\]|\\.)*"`
pub open spec fn string_lit(t: Seq<char>) -> bool {
    t.len() >= 2 && t[0] == '"' && t[t.len() - 1] == '"' && str_body(t.subrange(1, t.len() - 1))
}

/// `([^d]|d[^/])*` with `d` the comment's delimiter character.
pub open spec fn delim_body(d: char, b: Seq<char>) -> bool
    decreases b.len(),
{
    if b.len() == 0 {
        true
    } else if b[0] != d {
        delim_body(d, b.drop_first())
    } else {
        b.len() >= 2 && b[1] != '/' && delim_body(d, b.subrange(2, b.len() as int))
    }
}

/// `/d([^d]|d[^/])*d/`: `/* ... */` for `d == '*'`, `/+ ... +/` for `d == '+'`.
pub open spec fn delimited_comment(d: char, t: Seq<char>) -> bool {
    &&& t.len() >= 4
    &&& t[0] == '/' && t[1] == d
    &&& t[t.len() - 2] == d && t[t.len() - 1] == '/'
    &&& delim_body(d, t.subrange(2, t.len() - 2))
}

/// `//[^\n]*`
pub open spec fn line_comment(t: Seq<char>) -> bool {
    t.len() >= 2 && t[0] == '/' && t[1] == '/' && forall|j: int|
        2 <= j < t.len() ==> #[trigger] t[j] != '\n'
}

/// `true|false`
pub open spec fn bool_lit(t: Seq<char>) -> bool {
    t == seq!['t', 'r', 'u', 'e'] || t == seq!['f', 'a', 'l', 's', 'e']
}

/// The language of each kind of token.
pub open spec fn kind_matches(k: TokenKind, t: Seq<char>) -> bool {
    match literal_of(k) {
        Some(l) => t == l,
        None => match k {
            TokenKind::IntLit => digits(t),
            TokenKind::FloatLit => float_lit(t),
            TokenKind::CharLit => char_lit(t),
            TokenKind::StringLit => string_lit(t),
            TokenKind::BoolLit => bool_lit(t),
            TokenKind::Ident => ident(t),
            TokenKind::Comment => line_comment(t) || delimited_comment('*', t),
            TokenKind::DocComment => delimited_comment('+', t),
            _ => false,
        },
    }
}

/// Priority of a pattern, which settles a tie between matches of one length:
/// two per character of a fixed string, two per character class, nothing for
/// a repetition that may be empty; the identifier pattern is given 2.
pub open spec fn priority(k: TokenKind) -> nat {
    match literal_of(k) {
        Some(l) => 2 * l.len(),
        None => match k {
            TokenKind::IntLit => 2,
            TokenKind::FloatLit => 6,
            TokenKind::CharLit => 6,
            TokenKind::StringLit => 4,
            TokenKind::BoolLit => 8,
            TokenKind::Ident => 2,
            TokenKind::Comment => 4,
            TokenKind::DocComment => 8,
            _ => 0,
        },
    }
}

/// Some pattern, skipped or not, matches all of `t`.
pub open spec fn any_match(t: Seq<char>) -> bool {
    whitespace(t) || exists|k: TokenKind| kind_matches(k, t)
}

/// No prefix of `s` from `i` lies in any language.
pub open spec fn no_match_at(s: Seq<char>, i: int) -> bool {
    forall|m: int| 1 <= m && i + m <= s.len() ==> !any_match(#[trigger] s.subrange(i, i + m))
}

/// `t` can still grow into a match.
pub open spec fn viable(t: Seq<char>) -> bool {
    exists|u: Seq<char>| any_match(#[trigger] (t + u))
}

/// `n` characters from `i` is the longest match at `i`.
pub open spec fn longest_match(s: Seq<char>, i: int, n: int) -> bool {
    &&& 1 <= n && 0 <= i && i + n <= s.len()
    &&& any_match(s.subrange(i, i + n))
    &&& forall|m: int| i + n < m <= s.len() ==> !any_match(#[trigger] s.subrange(i, m))
}

/// `k` matches `t` and beats every other kind that matches it.
pub open spec fn winner(k: TokenKind, t: Seq<char>) -> bool {
    kind_matches(k, t) && forall|k2: TokenKind|
        #[trigger] kind_matches(k2, t) ==> k2 == k || priority(k2) < priority(k)
}

/// Where nothing matches at `i`, the error covers the longest prefix that can
/// still grow into a match, and at least one character.
pub open spec fn error_extent(s: Seq<char>, i: int, n: int) -> bool {
    &&& 1 <= n && 0 <= i && i + n <= s.len()
    &&& (n == 1 || viable(s.subrange(i, i + n)))
    &&& (i + n == s.len() || !viable(s.subrange(i, i + n + 1)))
}

/// What the lexer does at position `i`.
pub enum Step {
    Skip(nat),
    Emit(TokenKind, nat),
    Fail(nat),
    End,
}

pub open spec fn step_at(s: Seq<char>, i: int) -> Step {
    if i < 0 || i >= s.len() {
        Step::End
    } else if exists|n: int| longest_match(s, i, n) {
        let n = choose|n: int| longest_match(s, i, n);
        let t = s.subrange(i, i + n);
        if whitespace(t) {
            Step::Skip(n as nat)
        } else {
            let k = choose|k: TokenKind| winner(k, t);
            if k == TokenKind::Comment {
                Step::Skip(n as nat)
            } else {
                Step::Emit(k, n as nat)
            }
        }
    } else {
        Step::Fail((choose|n: int| error_extent(s, i, n)) as nat)
    }
}

/// A token by kind and character positions.
pub struct SpecToken {
    pub kind: TokenKind,
    pub start: nat,
    pub end: nat,
}

/// The next token at or after character position `i`, skipping what is skipped.
pub open spec fn next_token_at(s: Seq<char>, i: int) -> Option<SpecToken>
    decreases s.len() - i,
{
    match step_at(s, i) {
        Step::Skip(n) => if n >= 1 {
            next_token_at(s, i + n)
        } else {
            None
        },
        Step::Emit(k, n) => Some(SpecToken { kind: k, start: i as nat, end: (i + n) as nat }),
        Step::Fail(n) => Some(SpecToken { kind: TokenKind::Error, start: i as nat, end: (i + n) as nat }),
        Step::End => None,
    }
}

/// All tokens from character position `i` on.
pub open spec fn tokens_from(s: Seq<char>, i: int) -> Seq<SpecToken>
    decreases s.len() - i,
{
    match next_token_at(s, i) {
        Some(t) => if i < t.end <= s.len() {
            seq![t] + tokens_from(s, t.end as int)
        } else {
            seq![]
        },
        None => seq![],
    }
}


/// A lexed token: its kind, its text, and the byte range of that text in the
/// source.
#[derive(Debug, PartialEq)]
pub struct Token<'a> {
    pub kind: TokenKind,
    pub lexeme: &'a str,
    pub span: Range<usize>,
}

impl<'a> Clone for Token<'a> {
    fn clone(&self) -> (r: Self)
        ensures
            r == *self,
    {
        Token {
            kind: self.kind,
            lexeme: self.lexeme,
            span: Range { start: self.span.start, end: self.span.end },
        }
    }
}

/// A token as a mathematical value.
pub struct TokView {
    pub kind: TokenKind,
    pub lexeme: Seq<char>,
    pub start: nat,
    pub end: nat,
}

impl<'a> View for Token<'a> {
    type V = TokView;

    open spec fn view(&self) -> TokView {
        TokView {
            kind: self.kind,
            lexeme: self.lexeme@,
            start: self.span.start as nat,
            end: self.span.end as nat,
        }
    }
}

/// A token of the source `s`, with its text and byte span.
pub open spec fn token_view(s: Seq<char>, t: SpecToken) -> TokView {
    TokView {
        kind: t.kind,
        lexeme: s.subrange(t.start as int, t.end as int),
        start: byte_offset(s, t.start as int),
        end: byte_offset(s, t.end as int),
    }
}

/// The tokens of the source `s`.
pub open spec fn lex(s: Seq<char>) -> Seq<TokView> {
    tokens_from(s, 0).map_values(|t: SpecToken| token_view(s, t))
}

/// A lexer over one source text; `next` hands out its tokens in order.
pub struct Lexer<'a> {
    source: &'a str,
    chars: Vec<char>,
    pos: usize,
    byte_pos: usize,
}

impl<'a> Lexer<'a> {
    /// The source text, as characters.
    pub closed spec fn text(&self) -> Seq<char> {
        self.source@
    }

    /// How many characters have been consumed.
    pub closed spec fn position(&self) -> nat {
        self.pos as nat
    }

    pub closed spec fn wf(&self) -> bool {
        &&& self.chars@ == self.source@
        &&& self.pos <= self.chars@.len()
        &&& self.byte_pos == byte_offset(self.source@, self.pos as int)
        &&& encode_utf8(self.source@).len() <= usize::MAX
    }

    pub fn new(source: &'a str) -> (l: Self)
        ensures
            l.wf(),
            l.text() == source@,
            l.position() == 0,
    {
        let chars = chars_of(source);
        let bytes = source.as_bytes();
        let _n = bytes.len();
        proof {
            assert(source@.subrange(0, 0) =~= Seq::<char>::empty());
            assert(encode_utf8(Seq::<char>::empty()) =~= Seq::<u8>::empty());
        }
        Lexer { source, chars, pos: 0, byte_pos: 0 }
    }

    /// Consume `n` characters.
    fn advance(&mut self, n: usize)
        requires
            old(self).wf(),
            old(self).pos + n <= old(self).chars.len(),
        ensures
            final(self).wf(),
            final(self).source == old(self).source,
            final(self).pos == old(self).pos + n,
    {
        let target = self.pos + n;
        while self.pos < target
            invariant
                self.wf(),
                self.source == old(self).source,
                old(self).pos <= self.pos <= target <= self.chars@.len(),
                target == old(self).pos + n,
            decreases target - self.pos,
        {
            let w = utf8_width(self.chars[self.pos]);
            proof {
                lemma_byte_offset_step(self.source@, self.pos as int);
                lemma_encode_slice(self.source@, self.pos + 1, self.source@.len() as int);
                assert(self.source@.subrange(0, self.source@.len() as int) =~= self.source@);
            }
            self.byte_pos = self.byte_pos + w;
            self.pos = self.pos + 1;
        }
    }

    /// The next token, skipping whitespace and comments; `None` at the end. A
    /// token that is not an error lies in the language of its kind, which
    /// beats every other kind whose language holds the same text; an error
    /// comes only where no prefix of the rest of the source matches.
    pub fn next(&mut self) -> (r: Option<Token<'a>>)
        requires
            old(self).wf(),
        ensures
            final(self).wf(),
            final(self).text() == old(self).text(),
            final(self).position() <= final(self).text().len(),
            match next_token_at(old(self).text(), old(self).position() as int) {
                Some(t) => r matches Some(tok) && tok@ == token_view(old(self).text(), t)
                    && final(self).position() == t.end && old(self).position() < t.end,
                None => r is None && final(self).position() == old(self).text().len(),
            },
            r matches Some(tok) ==> (tok.kind != TokenKind::Error ==> winner(tok.kind, tok.lexeme@)),
            next_token_at(old(self).text(), old(self).position() as int) matches Some(t) ==> (t.kind
                == TokenKind::Error ==> no_match_at(old(self).text(), t.start as int)),
    {
        let ghost s = self.source@;
        let ghost p0 = self.pos as int;
        loop
            invariant
                self.wf(),
                self.source == old(self).source,
                s == self.source@,
                p0 <= self.pos,
                p0 == old(self).pos,
                next_token_at(s, self.pos as int) == next_token_at(s, p0),
            decreases self.chars@.len() - self.pos,
        {
            if self.pos >= self.chars.len() {
                assert(step_at(s, self.pos as int) == Step::End);
                assert(next_token_at(s, self.pos as int) == None::<SpecToken>);
                return None;
            }
            let start = self.pos;
            let start_byte = self.byte_pos;
            let r = scan_at(&self.chars, self.pos);
            match r {
                Scan::Skip(n) => {
                    assert(next_token_at(s, start as int) == next_token_at(s, start + n));
                    self.advance(n);
                },
                Scan::Emit(k, n) => {
                    assert(next_token_at(s, start as int) == Some(
                        SpecToken { kind: k, start: start as nat, end: (start + n) as nat },
                    ));
                    self.advance(n);
                    let lexeme = slice_str(self.source, start_byte, self.byte_pos, Ghost(start as int), Ghost(self.pos as int));
                    return Some(Token { kind: k, lexeme, span: Range { start: start_byte, end: self.byte_pos } });
                },
                Scan::Fail(n) => {
                    assert(next_token_at(s, start as int) == Some(
                        SpecToken { kind: TokenKind::Error, start: start as nat, end: (start + n) as nat },
                    ));
                    self.advance(n);
                    let lexeme = slice_str(self.source, start_byte, self.byte_pos, Ghost(start as int), Ghost(self.pos as int));
                    return Some(Token { kind: TokenKind::Error, lexeme, span: Range { start: start_byte, end: self.byte_pos } });
                },
            }
        }
    }
}

} // verus!
