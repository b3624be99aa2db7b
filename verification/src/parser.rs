//! The parser: a statement is a name followed by its arguments up to `;`;
//! a name that is one of the system commands is a system command, a name
//! followed at once by `(` declares a function, any other name calls one.
use vstd::prelude::*;

use crate::errors::lexer_error_message;
use crate::errors::ParserError;
use crate::errors::SpecParserError;
use crate::lexer::lemma_next_token_lexable;
use crate::lexer::lemma_next_token_progress;
use crate::lexer::lemma_next_token_within;
use crate::lexer::loc_display;
use crate::lexer::LexState;
use crate::lexer::Lexer;
use crate::lexer::SpecToken;
use crate::lexer::Token;
use crate::lexer::TokenEnum;
use crate::text::str_equal;

verus! {

/// A parsed statement.
#[derive(Debug)]
pub enum ParserResult {
    SystemCmd(String, Vec<Token>),
    FunctionCall(String, Vec<Token>),
    FunctionDeclaration(String, Vec<Token>),
    Error(String),
}

/// The mathematical value of a [`ParserResult`].
pub enum SpecParserResult {
    SystemCmd(Seq<char>, Seq<SpecToken>),
    FunctionCall(Seq<char>, Seq<SpecToken>),
    FunctionDeclaration(Seq<char>, Seq<SpecToken>),
    Error(Seq<char>),
}

/// The values of a sequence of tokens.
pub open spec fn tokens_view(v: Seq<Token>) -> Seq<SpecToken> {
    v.map_values(|t: Token| t@)
}

impl View for ParserResult {
    type V = SpecParserResult;

    open spec fn view(&self) -> SpecParserResult {
        match self {
            ParserResult::SystemCmd(n, a) => SpecParserResult::SystemCmd(n@, tokens_view(a@)),
            ParserResult::FunctionCall(n, a) => SpecParserResult::FunctionCall(n@, tokens_view(a@)),
            ParserResult::FunctionDeclaration(n, a) => SpecParserResult::FunctionDeclaration(
                n@,
                tokens_view(a@),
            ),
            ParserResult::Error(m) => SpecParserResult::Error(m@),
        }
    }
}

/// The values of a sequence of parsed statements.
pub open spec fn results_view(v: Seq<ParserResult>) -> Seq<SpecParserResult> {
    v.map_values(|r: ParserResult| r@)
}

/// The values of the names of the system commands.
pub open spec fn str_views(v: Seq<&str>) -> Seq<Seq<char>> {
    v.map_values(|s: &str| s@)
}

/// A token sequence after `done`, or the error.
pub open spec fn after_tokens(
    done: Seq<SpecToken>,
    p: (LexState, Result<Seq<SpecToken>, SpecParserError>),
) -> (LexState, Result<Seq<SpecToken>, SpecParserError>) {
    match p.1 {
        Ok(rest) => (p.0, Ok(done + rest)),
        Err(e) => (p.0, Err(e)),
    }
}

/// A statement sequence after `done`, or the error.
pub open spec fn after_results(
    done: Seq<SpecParserResult>,
    p: (LexState, Result<Seq<SpecParserResult>, SpecParserError>),
) -> (LexState, Result<Seq<SpecParserResult>, SpecParserError>) {
    match p.1 {
        Ok(rest) => (p.0, Ok(done + rest)),
        Err(e) => (p.0, Err(e)),
    }
}

/// The parser error for a lexer error.
pub open spec fn lexer_failure(e: crate::errors::SpecLexerError) -> SpecParserError {
    SpecParserError::LexerError(lexer_error_message(e))
}

impl LexState {
    /// The arguments of a statement: the tokens up to and without the next
    /// `;`, or to the end.
    pub open spec fn parse_arguments(self) -> (LexState, Result<Seq<SpecToken>, SpecParserError>)
        decreases self.blen - self.cur,
    {
        if self.has_char() {
            let (s1, r) = self.next_token();
            match r {
                Err(e) => (s1, Err(lexer_failure(e))),
                Ok(t) => if t.token == TokenEnum::SemiColon {
                    (s1, Ok(seq![]))
                } else {
                    proof {
                        lemma_next_token_progress(self);
                    }
                    after_tokens(seq![t], s1.parse_arguments())
                },
            }
        } else {
            (self, Ok(seq![]))
        }
    }

    /// The body of a function declaration: the tokens up to and without the
    /// next `}`, or to the end, leaving out parentheses and `{`.
    pub open spec fn parse_function_declaration(self) -> (
        LexState,
        Result<Seq<SpecToken>, SpecParserError>,
    )
        decreases self.blen - self.cur,
    {
        if self.has_char() {
            let (s1, r) = self.next_token();
            match r {
                Err(e) => (s1, Err(lexer_failure(e))),
                Ok(t) => {
                    proof {
                        lemma_next_token_progress(self);
                    }
                    if t.token == TokenEnum::OParan || t.token == TokenEnum::CParan || t.token
                        == TokenEnum::OCurly {
                        s1.parse_function_declaration()
                    } else if t.token == TokenEnum::CCurly {
                        (s1, Ok(seq![]))
                    } else {
                        after_tokens(seq![t], s1.parse_function_declaration())
                    }
                },
            }
        } else {
            (self, Ok(seq![]))
        }
    }

    /// Whether the next character opens a parenthesis.
    pub open spec fn at_open_paren(self) -> bool {
        self.cur < self.src.len() && self.src[self.cur as int] == '('
    }

    /// The statements of the rest of the source.
    pub open spec fn parse(self, cmds: Seq<Seq<char>>) -> (
        LexState,
        Result<Seq<SpecParserResult>, SpecParserError>,
    )
        decreases self.blen - self.cur,
    {
        if !self.has_char() {
            (self, Ok(seq![]))
        } else {
            let (s1, r) = self.next_token();
            match r {
                Err(e) => (s1, Err(lexer_failure(e))),
                Ok(t) => if t.token == TokenEnum::Name {
                    proof {
                        lemma_next_token_progress(self);
                        lemma_parse_arguments(s1);
                        lemma_parse_function_declaration(s1);
                    }
                    if cmds.contains(t.value) {
                        let (s2, a) = s1.parse_arguments();
                        match a {
                            Err(e) => (s2, Err(e)),
                            Ok(args) => after_results(
                                seq![SpecParserResult::SystemCmd(t.value, args)],
                                s2.parse(cmds),
                            ),
                        }
                    } else if s1.at_open_paren() {
                        let (s2, a) = s1.parse_function_declaration();
                        match a {
                            Err(e) => (s2, Err(e)),
                            Ok(body) => after_results(
                                seq![SpecParserResult::FunctionDeclaration(t.value, body)],
                                s2.parse(cmds),
                            ),
                        }
                    } else {
                        let (s2, a) = s1.parse_arguments();
                        match a {
                            Err(e) => (s2, Err(e)),
                            Ok(args) => after_results(
                                seq![SpecParserResult::FunctionCall(t.value, args)],
                                s2.parse(cmds),
                            ),
                        }
                    }
                } else {
                    (s1, Err(SpecParserError::UnexpectedToken(loc_display(t.loc))))
                },
            }
        }
    }
}

impl LexState {
    /// Reading arguments never makes the lexer panic.
    pub open spec fn arguments_safe(self) -> bool
        decreases self.blen - self.cur,
    {
        if self.has_char() {
            let (s1, r) = self.next_token();
            &&& self.next_token_safe()
            &&& match r {
                Ok(t) => t.token != TokenEnum::SemiColon ==> {
                    proof {
                        lemma_next_token_progress(self);
                    }
                    s1.arguments_safe()
                },
                Err(_) => true,
            }
        } else {
            true
        }
    }

    /// Reading a function body never makes the lexer panic.
    pub open spec fn function_declaration_safe(self) -> bool
        decreases self.blen - self.cur,
    {
        if self.has_char() {
            let (s1, r) = self.next_token();
            &&& self.next_token_safe()
            &&& match r {
                Ok(t) => t.token != TokenEnum::CCurly ==> {
                    proof {
                        lemma_next_token_progress(self);
                    }
                    s1.function_declaration_safe()
                },
                Err(_) => true,
            }
        } else {
            true
        }
    }

    /// Parsing never makes the lexer panic.
    pub open spec fn parse_safe(self, cmds: Seq<Seq<char>>) -> bool
        decreases self.blen - self.cur,
    {
        if self.has_char() {
            let (s1, r) = self.next_token();
            &&& self.next_token_safe()
            &&& match r {
                Ok(t) => t.token == TokenEnum::Name ==> {
                    proof {
                        lemma_next_token_progress(self);
                        lemma_parse_arguments(s1);
                        lemma_parse_function_declaration(s1);
                    }
                    if cmds.contains(t.value) || !s1.at_open_paren() {
                        &&& s1.arguments_safe()
                        &&& s1.parse_arguments().1 is Ok ==> s1.parse_arguments().0.parse_safe(cmds)
                    } else {
                        &&& s1.function_declaration_safe()
                        &&& s1.parse_function_declaration().1 is Ok
                            ==> s1.parse_function_declaration().0.parse_safe(cmds)
                    }
                },
                Err(_) => true,
            }
        } else {
            true
        }
    }
}

/// Reading arguments keeps the source and never moves the lexer backward.
pub proof fn lemma_parse_arguments(s: LexState)
    ensures
        s.parse_arguments().0.src == s.src,
        s.parse_arguments().0.blen == s.blen,
        s.parse_arguments().0.cur >= s.cur,
        s.cur <= s.blen ==> s.parse_arguments().0.cur <= s.blen,
    decreases s.blen - s.cur,
{
    if s.has_char() {
        lemma_next_token_progress(s);
        let (s1, r) = s.next_token();
        if let Ok(t) = r {
            if t.token != TokenEnum::SemiColon {
                lemma_parse_arguments(s1);
            }
        }
    }
}

/// Reading a function body keeps the source and never moves the lexer
/// backward.
pub proof fn lemma_parse_function_declaration(s: LexState)
    ensures
        s.parse_function_declaration().0.src == s.src,
        s.parse_function_declaration().0.blen == s.blen,
        s.parse_function_declaration().0.cur >= s.cur,
        s.cur <= s.blen ==> s.parse_function_declaration().0.cur <= s.blen,
    decreases s.blen - s.cur,
{
    if s.has_char() {
        lemma_next_token_progress(s);
        let (s1, r) = s.next_token();
        if let Ok(t) = r {
            lemma_parse_function_declaration(s1);
        }
    }
}

/// Reading arguments from a lexable state is safe and leaves it lexable.
pub proof fn lemma_arguments_lexable(s: LexState)
    requires
        s.lexable(),
    ensures
        s.arguments_safe(),
        s.parse_arguments().0.lexable(),
    decreases s.blen - s.cur,
{
    if s.has_char() {
        lemma_next_token_lexable(s);
        lemma_next_token_progress(s);
        let (s1, r) = s.next_token();
        if let Ok(t) = r {
            if t.token != TokenEnum::SemiColon {
                lemma_arguments_lexable(s1);
            }
        }
    }
}

/// Reading a function body from a lexable state is safe and leaves it
/// lexable.
pub proof fn lemma_function_declaration_lexable(s: LexState)
    requires
        s.lexable(),
    ensures
        s.function_declaration_safe(),
        s.parse_function_declaration().0.lexable(),
    decreases s.blen - s.cur,
{
    if s.has_char() {
        lemma_next_token_lexable(s);
        lemma_next_token_progress(s);
        let (s1, r) = s.next_token();
        if let Ok(t) = r {
            lemma_function_declaration_lexable(s1);
        }
    }
}

/// Parsing a lexable state is safe.
pub proof fn lemma_parse_lexable(s: LexState, cmds: Seq<Seq<char>>)
    requires
        s.lexable(),
    ensures
        s.parse_safe(cmds),
    decreases s.blen - s.cur,
{
    if s.has_char() {
        lemma_next_token_lexable(s);
        lemma_next_token_progress(s);
        let (s1, r) = s.next_token();
        if let Ok(t) = r {
            if t.token == TokenEnum::Name {
                lemma_parse_arguments(s1);
                lemma_parse_function_declaration(s1);
                lemma_arguments_lexable(s1);
                lemma_function_declaration_lexable(s1);
                if cmds.contains(t.value) || !s1.at_open_paren() {
                    lemma_parse_lexable(s1.parse_arguments().0, cmds);
                } else {
                    lemma_parse_lexable(s1.parse_function_declaration().0, cmds);
                }
            }
        }
    }
}

/// Reading arguments safely from a character index within the characters
/// stays within them.
pub proof fn lemma_arguments_within(s: LexState)
    requires
        s.arguments_safe(),
        s.cur <= s.src.len(),
    ensures
        s.parse_arguments().0.cur <= s.src.len(),
    decreases s.blen - s.cur,
{
    if s.has_char() {
        lemma_next_token_within(s);
        lemma_next_token_progress(s);
        let (s1, r) = s.next_token();
        if let Ok(t) = r {
            if t.token != TokenEnum::SemiColon {
                lemma_arguments_within(s1);
            }
        }
    }
}

/// Reading a function body safely from a character index within the
/// characters stays within them.
pub proof fn lemma_function_declaration_within(s: LexState)
    requires
        s.function_declaration_safe(),
        s.cur <= s.src.len(),
    ensures
        s.parse_function_declaration().0.cur <= s.src.len(),
    decreases s.blen - s.cur,
{
    if s.has_char() {
        lemma_next_token_within(s);
        lemma_next_token_progress(s);
        let (s1, r) = s.next_token();
        if let Ok(t) = r {
            if t.token != TokenEnum::CCurly {
                lemma_function_declaration_within(s1);
            }
        }
    }
}

/// A parse that succeeds has consumed the whole source, by the byte length
/// that the lexer compares with, without going past its characters.
pub proof fn lemma_parse_ends(s: LexState, cmds: Seq<Seq<char>>)
    requires
        s.parse_safe(cmds),
        s.cur <= s.src.len(),
    ensures
        s.parse(cmds).1 is Ok ==> {
            &&& !s.parse(cmds).0.has_char()
            &&& s.parse(cmds).0.cur <= s.src.len()
            &&& s.parse(cmds).0.blen == s.blen
        },
    decreases s.blen - s.cur,
{
    if s.has_char() {
        lemma_next_token_within(s);
        lemma_next_token_progress(s);
        let (s1, r) = s.next_token();
        if let Ok(t) = r {
            if t.token == TokenEnum::Name {
                lemma_parse_arguments(s1);
                lemma_parse_function_declaration(s1);
                if cmds.contains(t.value) || !s1.at_open_paren() {
                    lemma_arguments_within(s1);
                    if s1.parse_arguments().1 is Ok {
                        lemma_parse_ends(s1.parse_arguments().0, cmds);
                    }
                } else {
                    lemma_function_declaration_within(s1);
                    if s1.parse_function_declaration().1 is Ok {
                        lemma_parse_ends(s1.parse_function_declaration().0, cmds);
                    }
                }
            }
        }
    }
}

/// The mathematical value of the result of `parse`.
pub open spec fn parse_result_view(r: Result<Vec<ParserResult>, ParserError>) -> Result<
    Seq<SpecParserResult>,
    SpecParserError,
> {
    match r {
        Ok(v) => Ok(results_view(v@)),
        Err(e) => Err(e@),
    }
}

/// The mathematical value of a token list or error.
pub open spec fn tokens_result_view(r: Result<Vec<Token>, ParserError>) -> Result<
    Seq<SpecToken>,
    SpecParserError,
> {
    match r {
        Ok(v) => Ok(tokens_view(v@)),
        Err(e) => Err(e@),
    }
}

/// The parser, which reads statements from its lexer.
#[derive(Debug)]
pub struct Parser {
    pub lexer: Lexer,
}

impl Parser {
    pub fn new(lexer: Lexer) -> (p: Self)
        ensures
            p.lexer == lexer,
    {
        Parser { lexer }
    }

    /// Parses the rest of the source into statements.
    pub fn parse(&mut self, system_commands: Vec<&str>) -> (res: Result<
        Vec<ParserResult>,
        ParserError,
    >)
        requires
            old(self).lexer@.parse_safe(str_views(system_commands@)),
        ensures
            (final(self).lexer@, parse_result_view(res)) == old(self).lexer@.parse(
                str_views(system_commands@),
            ),
    {
        let ghost cmds = str_views(system_commands@);
        let ghost start = self.lexer@;
        let mut results: Vec<ParserResult> = Vec::new();

        while !self.lexer.is_eof()
            invariant
                cmds == str_views(system_commands@),
                self.lexer@.parse_safe(cmds),
                self.lexer@.src == start.src,
                start == old(self).lexer@,
                start.parse(cmds) == after_results(results_view(results@), self.lexer@.parse(cmds)),
            decreases self.lexer@.blen - self.lexer@.cur,
        {
            let ghost s = self.lexer@;
            proof {
                lemma_next_token_progress(s);
            }
            let next_token = match self.lexer.next_token() {
                Ok(token) => token,
                Err(err) => {
                    proof {
                        assert(results_view(results@) + Seq::<SpecParserResult>::empty()
                            =~= results_view(results@));
                    }
                    return Err(ParserError::LexerError(err.to_string()));
                },
            };
            let ghost s1 = self.lexer@;
            proof {
                lemma_parse_arguments(s1);
                lemma_parse_function_declaration(s1);
            }

            match next_token.token {
                TokenEnum::Name => {
                    if self.is_valid_system_command(next_token.value.as_str(), &system_commands) {
                        let args = match self.parse_arguments() {
                            Ok(a) => a,
                            Err(e) => return Err(e),
                        };
                        let ghost item = SpecParserResult::SystemCmd(next_token.value@, tokens_view(args@));
                        let ghost before = results_view(results@);
                        results.push(ParserResult::SystemCmd(next_token.value, args));
                        proof {
                            assert(results_view(results@) =~= before.push(item));
                            lemma_after_results_push(before, item, self.lexer@.parse(cmds));
                        }
                    } else if self.is_function_declaration() {
                        let body = match self.parse_function_declaration() {
                            Ok(b) => b,
                            Err(e) => return Err(e),
                        };
                        let ghost item = SpecParserResult::FunctionDeclaration(next_token.value@, tokens_view(body@));
                        let ghost before = results_view(results@);
                        results.push(ParserResult::FunctionDeclaration(next_token.value, body));
                        proof {
                            assert(results_view(results@) =~= before.push(item));
                            lemma_after_results_push(before, item, self.lexer@.parse(cmds));
                        }
                    } else {
                        let args = match self.parse_arguments() {
                            Ok(a) => a,
                            Err(e) => return Err(e),
                        };
                        let ghost item = SpecParserResult::FunctionCall(next_token.value@, tokens_view(args@));
                        let ghost before = results_view(results@);
                        results.push(ParserResult::FunctionCall(next_token.value, args));
                        proof {
                            assert(results_view(results@) =~= before.push(item));
                            lemma_after_results_push(before, item, self.lexer@.parse(cmds));
                        }
                    }
                },
                _ => {
                    return Err(ParserError::UnexpectedToken(next_token.loc.to_string()));
                },
            }
        }

        proof {
            assert(results_view(results@) + Seq::<SpecParserResult>::empty() =~= results_view(results@));
        }
        Ok(results)
    }

    /// Whether `name` is one of the system commands.
    fn is_valid_system_command(&self, name: &str, system_commands: &Vec<&str>) -> (res: bool)
        ensures
            res == str_views(system_commands@).contains(name@),
    {
        let mut i: usize = 0;
        while i < system_commands.len()
            invariant
                i <= system_commands.len(),
                forall|j: int| 0 <= j < i ==> system_commands@[j]@ != name@,
            decreases system_commands.len() - i,
        {
            if str_equal(system_commands[i], name) {
                proof {
                    assert(str_views(system_commands@)[i as int] == name@);
                }
                return true;
            }
            i = i + 1;
        }
        proof {
            if str_views(system_commands@).contains(name@) {
                let j = choose|j: int|
                    0 <= j < str_views(system_commands@).len() && str_views(system_commands@)[j]
                        == name@;
                assert(system_commands@[j]@ == name@);
            }
        }
        false
    }

    /// Whether the name just read declares a function: the next character
    /// opens a parenthesis.
    fn is_function_declaration(&self) -> (res: bool)
        ensures
            res == self.lexer@.at_open_paren(),
    {
        match self.lexer.curent_char_peek() {
            Some(p) => p == '(',
            None => false,
        }
    }

    /// Reads the body of a function declaration.
    fn parse_function_declaration(&mut self) -> (res: Result<Vec<Token>, ParserError>)
        requires
            old(self).lexer@.function_declaration_safe(),
        ensures
            (final(self).lexer@, tokens_result_view(res)) == old(
                self,
            ).lexer@.parse_function_declaration(),
    {
        let ghost start = self.lexer@;
        let mut body: Vec<Token> = Vec::new();

        while self.lexer.has_char()
            invariant
                self.lexer@.function_declaration_safe(),
                start == old(self).lexer@,
                start.parse_function_declaration() == after_tokens(
                    tokens_view(body@),
                    self.lexer@.parse_function_declaration(),
                ),
            decreases self.lexer@.blen - self.lexer@.cur,
        {
            let ghost s = self.lexer@;
            proof {
                lemma_next_token_progress(s);
            }
            let next_token = match self.lexer.next_token() {
                Ok(token) => token,
                Err(err) => {
                    proof {
                        assert(tokens_view(body@) + Seq::<SpecToken>::empty() =~= tokens_view(body@));
                    }
                    return Err(ParserError::LexerError(err.to_string()));
                },
            };

            match next_token.token {
                TokenEnum::OParan => continue,
                TokenEnum::CParan => continue,
                TokenEnum::OCurly => continue,
                TokenEnum::CCurly => {
                    proof {
                        assert(tokens_view(body@) + Seq::<SpecToken>::empty() =~= tokens_view(body@));
                    }
                    return Ok(body);
                },
                _ => {
                    let ghost before = tokens_view(body@);
                    let ghost t = next_token@;
                    body.push(next_token);
                    proof {
                        assert(tokens_view(body@) =~= before.push(t));
                        lemma_after_tokens_push(before, t, self.lexer@.parse_function_declaration());
                    }
                },
            }
        }

        proof {
            assert(tokens_view(body@) + Seq::<SpecToken>::empty() =~= tokens_view(body@));
        }
        Ok(body)
    }

    /// Reads the arguments of a statement.
    fn parse_arguments(&mut self) -> (res: Result<Vec<Token>, ParserError>)
        requires
            old(self).lexer@.arguments_safe(),
        ensures
            (final(self).lexer@, tokens_result_view(res)) == old(self).lexer@.parse_arguments(),
    {
        let ghost start = self.lexer@;
        let mut args: Vec<Token> = Vec::new();

        while self.lexer.has_char()
            invariant
                self.lexer@.arguments_safe(),
                start == old(self).lexer@,
                start.parse_arguments() == after_tokens(
                    tokens_view(args@),
                    self.lexer@.parse_arguments(),
                ),
            decreases self.lexer@.blen - self.lexer@.cur,
        {
            let ghost s = self.lexer@;
            proof {
                lemma_next_token_progress(s);
            }
            let next_token = match self.lexer.next_token() {
                Ok(token) => token,
                Err(err) => {
                    proof {
                        assert(tokens_view(args@) + Seq::<SpecToken>::empty() =~= tokens_view(args@));
                    }
                    return Err(ParserError::LexerError(err.to_string()));
                },
            };

            match next_token.token {
                TokenEnum::SemiColon => {
                    proof {
                        assert(tokens_view(args@) + Seq::<SpecToken>::empty() =~= tokens_view(args@));
                    }
                    return Ok(args);
                },
                _ => {
                    let ghost before = tokens_view(args@);
                    let ghost t = next_token@;
                    args.push(next_token);
                    proof {
                        assert(tokens_view(args@) =~= before.push(t));
                        lemma_after_tokens_push(before, t, self.lexer@.parse_arguments());
                    }
                },
            }
        }

        proof {
            assert(tokens_view(args@) + Seq::<SpecToken>::empty() =~= tokens_view(args@));
        }
        Ok(args)
    }
}

proof fn lemma_after_tokens_push(
    done: Seq<SpecToken>,
    t: SpecToken,
    p: (LexState, Result<Seq<SpecToken>, SpecParserError>),
)
    ensures
        after_tokens(done, after_tokens(seq![t], p)) == after_tokens(done.push(t), p),
{
    if let Ok(rest) = p.1 {
        assert(done + (seq![t] + rest) =~= done.push(t) + rest);
    }
}

proof fn lemma_after_results_push(
    done: Seq<SpecParserResult>,
    r: SpecParserResult,
    p: (LexState, Result<Seq<SpecParserResult>, SpecParserError>),
)
    ensures
        after_results(done, after_results(seq![r], p)) == after_results(done.push(r), p),
{
    if let Ok(rest) = p.1 {
        assert(done + (seq![r] + rest) =~= done.push(r) + rest);
    }
}

} // verus!
