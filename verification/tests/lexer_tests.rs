use termx::errors::LexerError;
use termx::lexer::Lexer;
use termx::lexer::Loc;
use termx::lexer::Token;
use termx::lexer::TokenEnum;

fn tokens_of(src: &str) -> (Vec<Token>, Option<LexerError>) {
    let mut lex = Lexer::new(src.to_string());
    let mut out = Vec::new();
    loop {
        match lex.next_token() {
            Ok(t) => out.push(t),
            Err(e) => return (out, Some(e)),
        }
    }
}

fn kinds_values(ts: &[Token]) -> Vec<(TokenEnum, String, usize, usize)> {
    ts.iter()
        .map(|t| (t.token, t.value.clone(), t.loc.row, t.loc.col))
        .collect()
}

#[test]
fn names_and_semicolon() {
    let (ts, err) = tokens_of("echo hello;");
    assert_eq!(
        kinds_values(&ts),
        vec![
            (TokenEnum::Name, "echo".to_string(), 0, 0),
            (TokenEnum::Name, "hello".to_string(), 0, 5),
            (TokenEnum::SemiColon, ";".to_string(), 0, 10),
        ]
    );
    assert!(matches!(err, Some(LexerError::EOF)));
}

#[test]
fn alphanumeric_name_and_number() {
    let (ts, _) = tokens_of("ab12 345x");
    assert_eq!(
        kinds_values(&ts),
        vec![
            (TokenEnum::Name, "ab12".to_string(), 0, 0),
            (TokenEnum::Number, "345".to_string(), 0, 5),
            (TokenEnum::Name, "x".to_string(), 0, 8),
        ]
    );
}

#[test]
fn punctuation_tokens() {
    let (ts, _) = tokens_of("(){};-/\\");
    let kinds: Vec<TokenEnum> = ts.iter().map(|t| t.token).collect();
    assert_eq!(
        kinds,
        vec![
            TokenEnum::OParan,
            TokenEnum::CParan,
            TokenEnum::OCurly,
            TokenEnum::CCurly,
            TokenEnum::SemiColon,
            TokenEnum::Dash,
            TokenEnum::ForwardSlash,
            TokenEnum::BackSlash,
        ]
    );
    let values: Vec<String> = ts.iter().map(|t| t.value.clone()).collect();
    assert_eq!(values, vec!["(", ")", "{", "}", ";", "-", "/", "\\"]);
}

#[test]
fn comment_line_is_skipped() {
    let (ts, _) = tokens_of("#whoami\nhelloworld");
    assert_eq!(
        kinds_values(&ts),
        vec![(TokenEnum::Name, "helloworld".to_string(), 1, 8)]
    );
    assert_eq!(ts[0].loc.to_string(), "2:9");
}

#[test]
fn whitespace_of_all_kinds_is_skipped() {
    let (ts, _) = tokens_of(" \t\r\n\n  id");
    assert_eq!(kinds_values(&ts), vec![(TokenEnum::Name, "id".to_string(), 2, 7)]);
}

#[test]
fn string_literal() {
    let (ts, err) = tokens_of("echo \"Hello world\" x");
    assert_eq!(
        kinds_values(&ts),
        vec![
            (TokenEnum::Name, "echo".to_string(), 0, 0),
            (TokenEnum::String, "Hello world".to_string(), 0, 5),
            (TokenEnum::Name, "x".to_string(), 0, 19),
        ]
    );
    assert!(matches!(err, Some(LexerError::EOF)));
}

#[test]
fn unclosed_string_literal() {
    let (ts, err) = tokens_of("a \"abc");
    assert_eq!(ts.len(), 1);
    match err {
        Some(LexerError::UnclosedStringLiteral(at)) => assert_eq!(at, "1:3"),
        other => panic!("unexpected {:?}", other),
    }
    let e = LexerError::UnclosedStringLiteral("1:3".to_string());
    assert_eq!(e.to_string(), "1:3 unclosed string literal");
}

#[test]
fn unknown_character_is_not_implemented() {
    let (ts, err) = tokens_of("ls $HOME");
    assert_eq!(ts.len(), 1);
    let e = err.unwrap();
    assert!(matches!(e, LexerError::NotImplemented));
    assert_eq!(e.to_string(), "lexer not implemented");
}

#[test]
fn lexer_error_messages() {
    assert_eq!(LexerError::EOF.to_string(), "EOF");
    assert_eq!(LexerError::Unknown.to_string(), "unknown lexer error");
}

#[test]
fn loc_display_counts_from_one() {
    assert_eq!(Loc::new(0, 0).to_string(), "1:1");
    assert_eq!(Loc::new(9, 41).to_string(), "10:42");
    assert_eq!(Loc::new(99, 0).to_string(), "100:1");
    let l = Loc::new(3, 4);
    assert_eq!((l.row, l.col), (3, 4));
}

#[test]
fn token_new_keeps_its_parts() {
    let t = Token::new(TokenEnum::Number, "12".to_string(), Loc::new(1, 2));
    assert_eq!(t.token, TokenEnum::Number);
    assert_eq!(t.value, "12");
    assert_eq!((t.loc.row, t.loc.col), (1, 2));
}

#[test]
fn lexer_character_access() {
    let mut lex = Lexer::new("ab\ncd".to_string());
    assert_eq!((lex.cur, lex.bol, lex.row), (0, 0, 0));
    assert!(lex.has_char());
    assert!(!lex.is_eof());
    assert_eq!(lex.current_char(), 'a');
    assert_eq!(lex.curent_char_peek(), Some('a'));
    assert_eq!(lex.peek(), Some('b'));
    lex.chop_char();
    lex.chop_char();
    assert_eq!(lex.current_char(), '\n');
    lex.chop_char();
    assert_eq!((lex.cur, lex.bol, lex.row), (3, 3, 1));
    assert_eq!(lex.loc().row, 1);
    assert_eq!(lex.loc().col, 3);
    lex.chop_char();
    assert_eq!(lex.peek(), None);
    assert_eq!(lex.curent_char_peek(), Some('d'));
    lex.chop_char();
    assert!(lex.is_eof());
    assert_eq!(lex.curent_char_peek(), None);
    lex.chop_char();
    assert_eq!(lex.cur, 5);
}

#[test]
fn trim_left_stops_at_text() {
    let mut lex = Lexer::new("  \n x".to_string());
    lex.trim_left();
    assert_eq!((lex.cur, lex.bol, lex.row), (4, 3, 1));
    let mut all_blank = Lexer::new(" \t ".to_string());
    all_blank.trim_left();
    assert!(all_blank.is_eof());
}

#[test]
fn has_char_counts_bytes() {
    let mut lex = Lexer::new("é".to_string());
    lex.chop_char();
    assert_eq!(lex.cur, 1);
    assert!(lex.has_char());
    assert_eq!(lex.curent_char_peek(), None);
}

#[test]
fn non_ascii_text_is_cut_at_byte_offsets() {
    let (ts, err) = tokens_of("\"éé\"$");
    assert_eq!(kinds_values(&ts), vec![(TokenEnum::String, "é".to_string(), 0, 0)]);
    assert!(matches!(err, Some(LexerError::NotImplemented)));
    let (ts, err) = tokens_of("$é");
    assert_eq!(ts.len(), 0);
    assert!(matches!(err, Some(LexerError::NotImplemented)));
}
