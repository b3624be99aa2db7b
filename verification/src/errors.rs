//! The errors of the lexer and of the parser, with the messages that they
//! display.
use vstd::prelude::*;

verus! {

/// An error of the lexer.
#[derive(Debug)]
pub enum LexerError {
    EOF,
    UnclosedStringLiteral(String),
    Unknown,
    NotImplemented,
}

/// An error of the parser.
#[derive(Debug)]
pub enum ParserError {
    EOF,
    UnexpectedToken(String),
    NotImplemented,
    LexerError(String),
}

/// The mathematical value of a [`LexerError`].
pub enum SpecLexerError {
    EOF,
    UnclosedStringLiteral(Seq<char>),
    Unknown,
    NotImplemented,
}

/// The mathematical value of a [`ParserError`].
pub enum SpecParserError {
    EOF,
    UnexpectedToken(Seq<char>),
    NotImplemented,
    LexerError(Seq<char>),
}

impl View for LexerError {
    type V = SpecLexerError;

    open spec fn view(&self) -> SpecLexerError {
        match self {
            LexerError::EOF => SpecLexerError::EOF,
            LexerError::UnclosedStringLiteral(s) => SpecLexerError::UnclosedStringLiteral(s@),
            LexerError::Unknown => SpecLexerError::Unknown,
            LexerError::NotImplemented => SpecLexerError::NotImplemented,
        }
    }
}

impl View for ParserError {
    type V = SpecParserError;

    open spec fn view(&self) -> SpecParserError {
        match self {
            ParserError::EOF => SpecParserError::EOF,
            ParserError::UnexpectedToken(s) => SpecParserError::UnexpectedToken(s@),
            ParserError::NotImplemented => SpecParserError::NotImplemented,
            ParserError::LexerError(s) => SpecParserError::LexerError(s@),
        }
    }
}

/// The message that a lexer error displays.
pub open spec fn lexer_error_message(e: SpecLexerError) -> Seq<char> {
    match e {
        SpecLexerError::EOF => "EOF"@,
        SpecLexerError::UnclosedStringLiteral(at) => at + " unclosed string literal"@,
        SpecLexerError::Unknown => "unknown lexer error"@,
        SpecLexerError::NotImplemented => "lexer not implemented"@,
    }
}

/// The message that a parser error displays.
pub open spec fn parser_error_message(e: SpecParserError) -> Seq<char> {
    match e {
        SpecParserError::EOF => "EOF"@,
        SpecParserError::UnexpectedToken(at) => at + " unexpected token"@,
        SpecParserError::NotImplemented => "parser implemented"@,
        SpecParserError::LexerError(msg) => "lexer error "@ + msg,
    }
}

impl LexerError {
    /// The message that this error displays.
    pub fn to_string(&self) -> (res: String)
        ensures
            res@ == lexer_error_message(self@),
    {
        match self {
            LexerError::EOF => String::from_str("EOF"),
            LexerError::UnclosedStringLiteral(at) => {
                let mut s = at.clone();
                s.append(" unclosed string literal");
                s
            },
            LexerError::Unknown => String::from_str("unknown lexer error"),
            LexerError::NotImplemented => String::from_str("lexer not implemented"),
        }
    }
}

impl ParserError {
    /// The message that this error displays.
    pub fn to_string(&self) -> (res: String)
        ensures
            res@ == parser_error_message(self@),
    {
        match self {
            ParserError::EOF => String::from_str("EOF"),
            ParserError::UnexpectedToken(at) => {
                let mut s = at.clone();
                s.append(" unexpected token");
                s
            },
            ParserError::NotImplemented => String::from_str("parser implemented"),
            ParserError::LexerError(msg) => {
                let mut s = String::from_str("lexer error ");
                s.append(msg.as_str());
                s
            },
        }
    }
}

} // verus!
