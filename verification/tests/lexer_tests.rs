use sorrel::lexer::{Lexer, Token, TokenKind};

fn tokens(source: &str) -> Vec<Token<'_>> {
    let mut lexer = Lexer::new(source);
    let mut out = Vec::new();
    while let Some(token) = lexer.next() {
        out.push(token);
    }
    out
}

fn tok(kind: TokenKind, lexeme: &str, start: usize, end: usize) -> Token<'_> {
    Token { kind, lexeme, span: start..end }
}

#[test]
fn test_comment_lexer() {
    let source = r#"
            // This is a comment
            let x: i32 = 10 // This is another comment

            /* 
             * Multi
             * line
             * comment
            */

            /+ Nested 
               /* Multi-line
                  comment */
            +/
            const y: f32 = 3.14
        "#;

    let mut lexer = Lexer::new(source);

    while let Some(token) = lexer.next() {
        println!("{:?}", token);
    }
}

#[test]
fn test_lexer() {
    let source = r#"
            let x: i32 = 10
            let y: f32 = 3.14
            if x > 5 {
              x += 1
            }
            else {
              x -= 1;
            }
        "#;

    let mut lexer = Lexer::new(source);

    while let Some(token) = lexer.next() {
        println!("{:?}", token);
    }
}

#[test]
fn comments_are_dropped_and_doc_comments_kept() {
    let found = tokens("a // c\n/* b */ /+ d +/ z");
    assert_eq!(
        found,
        vec![
            tok(TokenKind::Ident, "a", 0, 1),
            tok(TokenKind::DocComment, "/+ d +/", 15, 22),
            tok(TokenKind::Ident, "z", 23, 24),
        ]
    );
}

#[test]
fn keywords_beat_identifiers_only_on_whole_words() {
    let found = tokens("if iffy in int true truex");
    assert_eq!(
        found,
        vec![
            tok(TokenKind::If, "if", 0, 2),
            tok(TokenKind::Ident, "iffy", 3, 7),
            tok(TokenKind::In, "in", 8, 10),
            tok(TokenKind::Ident, "int", 11, 14),
            tok(TokenKind::BoolLit, "true", 15, 19),
            tok(TokenKind::Ident, "truex", 20, 25),
        ]
    );
}

#[test]
fn type_names_and_declaration_keywords() {
    let found = tokens("u8 isize usize struct enum void");
    let kinds: Vec<TokenKind> = found.iter().map(|t| t.kind).collect();
    assert_eq!(
        kinds,
        vec![
            TokenKind::U8,
            TokenKind::ISize,
            TokenKind::USize,
            TokenKind::Struct,
            TokenKind::Enum,
            TokenKind::VoidType,
        ]
    );
}

#[test]
fn numbers_take_the_longest_match() {
    let found = tokens("42 3.14 7.");
    assert_eq!(
        found,
        vec![
            tok(TokenKind::IntLit, "42", 0, 2),
            tok(TokenKind::FloatLit, "3.14", 3, 7),
            tok(TokenKind::IntLit, "7", 8, 9),
            tok(TokenKind::Dot, ".", 9, 10),
        ]
    );
}

#[test]
fn strings_and_characters_with_escapes() {
    let found = tokens(r#""a\"b" 'x' '\n'"#);
    assert_eq!(
        found,
        vec![
            tok(TokenKind::StringLit, r#""a\"b""#, 0, 6),
            tok(TokenKind::CharLit, "'x'", 7, 10),
            tok(TokenKind::CharLit, r"'\n'", 11, 15),
        ]
    );
}

#[test]
fn multi_character_operators() {
    let found = tokens("+= -= *= /= == != <= >= && || .. ...");
    let kinds: Vec<TokenKind> = found.iter().map(|t| t.kind).collect();
    assert_eq!(
        kinds,
        vec![
            TokenKind::PlusEquals,
            TokenKind::MinusEquals,
            TokenKind::StarEquals,
            TokenKind::SlashEquals,
            TokenKind::DoubleEqual,
            TokenKind::BangEqual,
            TokenKind::LessThanEqual,
            TokenKind::GreaterThanEqual,
            TokenKind::DoubleAmpersand,
            TokenKind::DoublePipe,
            TokenKind::DotDot,
            TokenKind::DotDotDot,
        ]
    );
}

#[test]
fn unknown_characters_become_error_tokens() {
    let found = tokens("a | b");
    assert_eq!(
        found,
        vec![
            tok(TokenKind::Ident, "a", 0, 1),
            tok(TokenKind::Error, "|", 2, 3),
            tok(TokenKind::Ident, "b", 4, 5),
        ]
    );
}

#[test]
fn spans_are_byte_offsets() {
    let found = tokens("é x");
    assert_eq!(
        found,
        vec![tok(TokenKind::Error, "é", 0, 2), tok(TokenKind::Ident, "x", 3, 4)]
    );
}

#[test]
fn unterminated_string_is_one_error() {
    let found = tokens("\"abc");
    assert_eq!(found, vec![tok(TokenKind::Error, "\"abc", 0, 4)]);
}

#[test]
fn unterminated_comment_falls_back_to_shorter_matches() {
    let found = tokens("/* open");
    assert_eq!(
        found,
        vec![
            tok(TokenKind::Slash, "/", 0, 1),
            tok(TokenKind::Star, "*", 1, 2),
            tok(TokenKind::Ident, "open", 3, 7),
        ]
    );
}

#[test]
fn tokens_follow_each_other_and_match_the_source() {
    let source = "let x: i32 = 10 // note\nx += 1 /* c */ é";
    let found = tokens(source);
    assert!(!found.is_empty());
    for window in found.windows(2) {
        assert!(window[0].span.end <= window[1].span.start);
    }
    for token in &found {
        assert!(token.span.start < token.span.end);
        assert_eq!(&source[token.span.clone()], token.lexeme);
        assert_ne!(token.kind, TokenKind::Comment);
    }
}

#[test]
fn empty_and_blank_sources_have_no_tokens() {
    assert!(tokens("").is_empty());
    assert!(tokens(" \t\n").is_empty());
    assert!(tokens("// only a comment").is_empty());
}
