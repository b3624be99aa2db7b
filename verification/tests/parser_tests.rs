use termx::errors::ParserError;
use termx::lexer::Lexer;
use termx::lexer::Loc;
use termx::lexer::Token;
use termx::lexer::TokenEnum;
use termx::parser::Parser;
use termx::parser::ParserResult;

fn parse(src: &str, cmds: Vec<&str>) -> Result<Vec<ParserResult>, ParserError> {
    let mut p = Parser::new(Lexer::new(src.to_string()));
    p.parse(cmds)
}

fn values(ts: &[Token]) -> Vec<String> {
    ts.iter().map(|t| t.value.clone()).collect()
}

#[test]
fn statements_are_classified() {
    let rs = parse("echo hi there; foo(x) { bar } baz 1 2", vec!["echo"]).unwrap();
    assert_eq!(rs.len(), 3);
    match &rs[0] {
        ParserResult::SystemCmd(n, args) => {
            assert_eq!(n, "echo");
            assert_eq!(values(args), vec!["hi", "there"]);
            assert_eq!((args[1].loc.row, args[1].loc.col), (0, 8));
        }
        other => panic!("unexpected {:?}", other),
    }
    match &rs[1] {
        ParserResult::FunctionDeclaration(n, body) => {
            assert_eq!(n, "foo");
            assert_eq!(values(body), vec!["x", "bar"]);
        }
        other => panic!("unexpected {:?}", other),
    }
    match &rs[2] {
        ParserResult::FunctionCall(n, args) => {
            assert_eq!(n, "baz");
            assert_eq!(values(args), vec!["1", "2"]);
            assert_eq!(args[0].token, TokenEnum::Number);
        }
        other => panic!("unexpected {:?}", other),
    }
}

#[test]
fn same_name_is_a_call_without_system_commands() {
    let rs = parse("echo hi", vec![]).unwrap();
    assert!(matches!(&rs[0], ParserResult::FunctionCall(n, _) if n == "echo"));
}

#[test]
fn space_before_paren_makes_a_call() {
    let rs = parse("foo (x)", vec![]).unwrap();
    match &rs[0] {
        ParserResult::FunctionCall(n, args) => {
            assert_eq!(n, "foo");
            let kinds: Vec<TokenEnum> = args.iter().map(|t| t.token).collect();
            assert_eq!(kinds, vec![TokenEnum::OParan, TokenEnum::Name, TokenEnum::CParan]);
        }
        other => panic!("unexpected {:?}", other),
    }
}

#[test]
fn default_input_of_the_terminal_program() {
    let input = "#whoami\nhelloworld\nwhoami;\nid\n12;\necho\"Hello world\"";
    let rs = parse(input, vec![]).unwrap();
    assert_eq!(rs.len(), 3);
    match &rs[0] {
        ParserResult::FunctionCall(n, args) => {
            assert_eq!(n, "helloworld");
            assert_eq!(values(args), vec!["whoami"]);
        }
        other => panic!("unexpected {:?}", other),
    }
    match &rs[1] {
        ParserResult::FunctionCall(n, args) => {
            assert_eq!(n, "id");
            assert_eq!(values(args), vec!["12"]);
        }
        other => panic!("unexpected {:?}", other),
    }
    match &rs[2] {
        ParserResult::FunctionCall(n, args) => {
            assert_eq!(n, "echo");
            assert_eq!(values(args), vec!["Hello world"]);
            assert_eq!(args[0].token, TokenEnum::String);
        }
        other => panic!("unexpected {:?}", other),
    }
}

#[test]
fn statement_cannot_start_with_punctuation() {
    match parse("; echo", vec!["echo"]) {
        Err(ParserError::UnexpectedToken(at)) => assert_eq!(at, "1:1"),
        other => panic!("unexpected {:?}", other),
    }
    assert_eq!(
        ParserError::UnexpectedToken("1:1".to_string()).to_string(),
        "1:1 unexpected token"
    );
}

#[test]
fn trailing_blank_after_a_statement_is_an_error() {
    match parse("echo hi ", vec!["echo"]) {
        Err(ParserError::LexerError(m)) => assert_eq!(m, "EOF"),
        other => panic!("unexpected {:?}", other),
    }
    match parse("f( ", vec![]) {
        Err(e) => assert_eq!(e.to_string(), "lexer error EOF"),
        other => panic!("unexpected {:?}", other),
    }
}

#[test]
fn lexer_errors_become_parser_errors() {
    match parse("echo $x", vec!["echo"]) {
        Err(ParserError::LexerError(m)) => assert_eq!(m, "lexer not implemented"),
        other => panic!("unexpected {:?}", other),
    }
    match parse("echo \"open", vec!["echo"]) {
        Err(ParserError::LexerError(m)) => assert_eq!(m, "1:6 unclosed string literal"),
        other => panic!("unexpected {:?}", other),
    }
}

#[test]
fn parser_error_messages() {
    assert_eq!(ParserError::EOF.to_string(), "EOF");
    assert_eq!(ParserError::NotImplemented.to_string(), "parser implemented");
    assert_eq!(
        ParserError::LexerError("EOF".to_string()).to_string(),
        "lexer error EOF"
    );
}

#[test]
fn empty_and_comment_only_sources() {
    assert_eq!(parse("", vec![]).unwrap().len(), 0);
    match parse("# just a comment", vec![]) {
        Err(ParserError::LexerError(m)) => assert_eq!(m, "EOF"),
        other => panic!("unexpected {:?}", other),
    }
}

#[test]
fn debug_string_matches_debug_formatting() {
    let tok = |v: &str, row, col, k| Token::new(k, v.to_string(), Loc::new(row, col));
    let cases = vec![
        ParserResult::FunctionDeclaration(
            "f".to_string(),
            vec![tok("x", 0, 5, TokenEnum::Name)],
        ),
        ParserResult::SystemCmd(
            "echo".to_string(),
            vec![
                tok("a\"b\n'c\\\t\u{1}", 2, 10, TokenEnum::String),
                tok("\\", 3, 0, TokenEnum::BackSlash),
            ],
        ),
        ParserResult::FunctionCall("g".to_string(), vec![]),
        ParserResult::Error("é ü \u{301}".to_string()),
    ];
    for c in cases {
        assert_eq!(c.to_debug_string(), format!("{:?}", c));
    }
    let r = ParserResult::FunctionDeclaration("f".to_string(), vec![tok("x", 0, 5, TokenEnum::Name)]);
    assert_eq!(
        r.to_debug_string(),
        "FunctionDeclaration(\"f\", [Token { value: \"x\", loc: Loc { row: 0, col: 5 }, token: Name }])"
    );
}

#[test]
fn non_ascii_source_fails_to_parse() {
    match parse("ls $é", vec!["ls"]) {
        Err(ParserError::LexerError(m)) => assert_eq!(m, "lexer not implemented"),
        other => panic!("unexpected {:?}", other),
    }
}
