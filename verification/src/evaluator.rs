//! The evaluator: runs parsed statements against a command registry.
use vstd::prelude::*;

use crate::lexer::Loc;
use crate::lexer::SpecToken;
use crate::lexer::Token;
use crate::lexer::TokenEnum;
use crate::parser::results_view;
use crate::parser::ParserResult;
use crate::parser::SpecParserResult;
use crate::registries::CommandRegistry;
use crate::text::char_escape_debug;
use crate::text::decimal;
use crate::text::decimal_string;
use crate::text::escape_debug;
use crate::text::string_views;

verus! {

/// What running a statement gives.
#[derive(Debug)]
pub enum WebEvaluatorResult {
    Navigate(String),
    Display(String),
    Error(String),
}

/// The mathematical value of a [`WebEvaluatorResult`].
pub enum SpecWebEvaluatorResult {
    Navigate(Seq<char>),
    Display(Seq<char>),
    Error(Seq<char>),
}

/// What the output of a command is for.
#[derive(Debug, Clone, Copy, PartialEq, Eq, Structural)]
pub enum CmdResultActionType {
    Navigate,
    Display,
}

impl View for WebEvaluatorResult {
    type V = SpecWebEvaluatorResult;

    open spec fn view(&self) -> SpecWebEvaluatorResult {
        match self {
            WebEvaluatorResult::Navigate(s) => SpecWebEvaluatorResult::Navigate(s@),
            WebEvaluatorResult::Display(s) => SpecWebEvaluatorResult::Display(s@),
            WebEvaluatorResult::Error(s) => SpecWebEvaluatorResult::Error(s@),
        }
    }
}

/// The value of an optional result.
pub open spec fn option_result_view(o: Option<WebEvaluatorResult>) -> Option<SpecWebEvaluatorResult> {
    match o {
        Some(r) => Some(r@),
        None => None,
    }
}

/// The values of a sequence of results.
pub open spec fn eval_results_view(v: Seq<WebEvaluatorResult>) -> Seq<SpecWebEvaluatorResult> {
    v.map_values(|r: WebEvaluatorResult| r@)
}

// How `{:?}` shows parsed statements.

/// A character inside a quoted string shown with `{:?}`: escaped as
/// `char::escape_debug` does, except that a single quote stays as it is.
pub open spec fn debug_char(c: char) -> Seq<char> {
    if c == '\'' {
        "'"@
    } else {
        char_escape_debug(c)
    }
}

/// The escaped characters of a string.
pub open spec fn debug_chars(s: Seq<char>) -> Seq<char>
    decreases s.len(),
{
    if s.len() == 0 {
        seq![]
    } else {
        debug_chars(s.drop_last()) + debug_char(s.last())
    }
}

/// A string shown with `{:?}`.
pub open spec fn debug_str(s: Seq<char>) -> Seq<char> {
    "\""@ + debug_chars(s) + "\""@
}

/// A location shown with `{:?}`.
pub open spec fn debug_loc(l: Loc) -> Seq<char> {
    "Loc { row: "@ + decimal(l.row as nat) + ", col: "@ + decimal(l.col as nat) + " }"@
}

/// A token kind shown with `{:?}`.
pub open spec fn debug_kind(k: TokenEnum) -> Seq<char> {
    match k {
        TokenEnum::Name => "Name"@,
        TokenEnum::OParan => "OParan"@,
        TokenEnum::CParan => "CParan"@,
        TokenEnum::OCurly => "OCurly"@,
        TokenEnum::CCurly => "CCurly"@,
        TokenEnum::SemiColon => "SemiColon"@,
        TokenEnum::Number => "Number"@,
        TokenEnum::String => "String"@,
        TokenEnum::Dash => "Dash"@,
        TokenEnum::ForwardSlash => "ForwardSlash"@,
        TokenEnum::BackSlash => "BackSlash"@,
    }
}

/// A token shown with `{:?}`.
pub open spec fn debug_token(t: SpecToken) -> Seq<char> {
    "Token { value: "@ + debug_str(t.value) + ", loc: "@ + debug_loc(t.loc) + ", token: "@
        + debug_kind(t.token) + " }"@
}

/// Tokens shown with `{:?}`, separated by commas.
pub open spec fn debug_token_list(ts: Seq<SpecToken>) -> Seq<char>
    decreases ts.len(),
{
    if ts.len() == 0 {
        seq![]
    } else if ts.len() == 1 {
        debug_token(ts[0])
    } else {
        debug_token_list(ts.drop_last()) + ", "@ + debug_token(ts.last())
    }
}

/// A list of tokens shown with `{:?}`.
pub open spec fn debug_tokens(ts: Seq<SpecToken>) -> Seq<char> {
    "["@ + debug_token_list(ts) + "]"@
}

/// A parsed statement shown with `{:?}`.
pub open spec fn debug_result(r: SpecParserResult) -> Seq<char> {
    match r {
        SpecParserResult::SystemCmd(n, ts) => "SystemCmd("@ + debug_str(n) + ", "@ + debug_tokens(
            ts,
        ) + ")"@,
        SpecParserResult::FunctionCall(n, ts) => "FunctionCall("@ + debug_str(n) + ", "@
            + debug_tokens(ts) + ")"@,
        SpecParserResult::FunctionDeclaration(n, ts) => "FunctionDeclaration("@ + debug_str(n)
            + ", "@ + debug_tokens(ts) + ")"@,
        SpecParserResult::Error(m) => "Error("@ + debug_str(m) + ")"@,
    }
}

fn push_debug_str(out: &mut String, s: &str)
    ensures
        final(out)@ == old(out)@ + debug_str(s@),
{
    out.append("\"");
    let ghost start = out@;
    let n = s.unicode_len();
    let mut i: usize = 0;
    while i < n
        invariant
            n == s@.len(),
            i <= n,
            out@ == start + debug_chars(s@.take(i as int)),
        decreases n - i,
    {
        let c = s.get_char(i);
        proof {
            assert(s@.take(i + 1).drop_last() =~= s@.take(i as int));
        }
        if c == '\'' {
            out.append("'");
        } else {
            let e = escape_debug(c);
            out.append(e.as_str());
        }
        i = i + 1;
    }
    proof {
        assert(s@.take(n as int) =~= s@);
    }
    out.append("\"");
}

fn push_debug_loc(out: &mut String, l: Loc)
    ensures
        final(out)@ == old(out)@ + debug_loc(l),
{
    out.append("Loc { row: ");
    let r = decimal_string(l.row as u128);
    out.append(r.as_str());
    out.append(", col: ");
    let c = decimal_string(l.col as u128);
    out.append(c.as_str());
    out.append(" }");
}

fn kind_name(k: TokenEnum) -> (res: &'static str)
    ensures
        res@ == debug_kind(k),
{
    match k {
        TokenEnum::Name => "Name",
        TokenEnum::OParan => "OParan",
        TokenEnum::CParan => "CParan",
        TokenEnum::OCurly => "OCurly",
        TokenEnum::CCurly => "CCurly",
        TokenEnum::SemiColon => "SemiColon",
        TokenEnum::Number => "Number",
        TokenEnum::String => "String",
        TokenEnum::Dash => "Dash",
        TokenEnum::ForwardSlash => "ForwardSlash",
        TokenEnum::BackSlash => "BackSlash",
    }
}

fn push_debug_token(out: &mut String, t: &Token)
    ensures
        final(out)@ == old(out)@ + debug_token(t@),
{
    out.append("Token { value: ");
    push_debug_str(out, t.value.as_str());
    out.append(", loc: ");
    push_debug_loc(out, t.loc);
    out.append(", token: ");
    out.append(kind_name(t.token));
    out.append(" }");
}

fn push_debug_tokens(out: &mut String, ts: &Vec<Token>)
    ensures
        final(out)@ == old(out)@ + debug_tokens(crate::parser::tokens_view(ts@)),
{
    let ghost views = crate::parser::tokens_view(ts@);
    out.append("[");
    let ghost start = out@;
    let mut i: usize = 0;
    while i < ts.len()
        invariant
            views == crate::parser::tokens_view(ts@),
            i <= ts.len(),
            out@ == start + debug_token_list(views.take(i as int)),
        decreases ts.len() - i,
    {
        proof {
            assert(views.take(i + 1).drop_last() =~= views.take(i as int));
        }
        if i != 0 {
            out.append(", ");
        } else {
            assert(views.take(0) =~= Seq::<SpecToken>::empty());
        }
        push_debug_token(out, &ts[i]);
        proof {
            if i == 0 {
                assert(views.take(1) =~= seq![views[0]]);
            }
        }
        i = i + 1;
    }
    proof {
        assert(views.take(ts.len() as int) =~= views);
    }
    out.append("]");
}

impl ParserResult {
    /// The statement as `{:?}` shows it.
    pub fn to_debug_string(&self) -> (res: String)
        ensures
            res@ == debug_result(self@),
    {
        let mut out = String::new();
        match self {
            ParserResult::SystemCmd(n, ts) => {
                out.append("SystemCmd(");
                push_debug_str(&mut out, n.as_str());
                out.append(", ");
                push_debug_tokens(&mut out, ts);
                out.append(")");
            },
            ParserResult::FunctionCall(n, ts) => {
                out.append("FunctionCall(");
                push_debug_str(&mut out, n.as_str());
                out.append(", ");
                push_debug_tokens(&mut out, ts);
                out.append(")");
            },
            ParserResult::FunctionDeclaration(n, ts) => {
                out.append("FunctionDeclaration(");
                push_debug_str(&mut out, n.as_str());
                out.append(", ");
                push_debug_tokens(&mut out, ts);
                out.append(")");
            },
            ParserResult::Error(m) => {
                out.append("Error(");
                push_debug_str(&mut out, m.as_str());
                out.append(")");
            },
        }
        out
    }
}

/// The texts of tokens, which a system command gets as its arguments.
pub open spec fn token_values(ts: Seq<SpecToken>) -> Seq<Seq<char>> {
    ts.map_values(|t: SpecToken| t.value)
}

/// What running one statement adds to the results: the output of a system
/// command that the registry knows, an error for a function call or a
/// function declaration, and nothing for an error statement or an unknown
/// system command.
pub open spec fn eval_one<R: CommandRegistry>(node: SpecParserResult, reg: R) -> Seq<
    SpecWebEvaluatorResult,
> {
    match node {
        SpecParserResult::Error(_) => seq![],
        SpecParserResult::SystemCmd(cmd, ts) => match reg.spec_execute(cmd, token_values(ts)) {
            Some(r) => seq![r],
            None => seq![],
        },
        SpecParserResult::FunctionCall(cmd, _) => seq![
            SpecWebEvaluatorResult::Error("command not found: "@ + cmd),
        ],
        SpecParserResult::FunctionDeclaration(_, _) => seq![
            SpecWebEvaluatorResult::Error("failed to execute the command: "@ + debug_result(node)),
        ],
    }
}

/// What running statements gives, in order.
pub open spec fn eval_all<R: CommandRegistry>(stmt: Seq<SpecParserResult>, reg: R) -> Seq<
    SpecWebEvaluatorResult,
>
    decreases stmt.len(),
{
    if stmt.len() == 0 {
        seq![]
    } else {
        eval_all(stmt.drop_last(), reg) + eval_one(stmt.last(), reg)
    }
}

/// The statements of a program, to run on the web.
pub struct WebEvaluator {
    pub stmt: Vec<ParserResult>,
}

impl WebEvaluator {
    /// Runs the statements against the registry, in order.
    pub fn eval<R: CommandRegistry>(stmt: Vec<ParserResult>, registory: R) -> (results: Vec<
        WebEvaluatorResult,
    >)
        ensures
            eval_results_view(results@) == eval_all(results_view(stmt@), registory),
    {
        let ghost nodes = results_view(stmt@);
        let mut results: Vec<WebEvaluatorResult> = Vec::new();
        let mut i: usize = 0;
        while i < stmt.len()
            invariant
                nodes == results_view(stmt@),
                i <= stmt.len(),
                eval_results_view(results@) == eval_all(nodes.take(i as int), registory),
            decreases stmt.len() - i,
        {
            let ghost before = eval_results_view(results@);
            proof {
                assert(nodes.take(i + 1).drop_last() =~= nodes.take(i as int));
                assert(nodes.take(i + 1).last() == nodes[i as int]);
            }
            match &stmt[i] {
                ParserResult::Error(_data) => {},
                ParserResult::SystemCmd(cmd, tokens) => {
                    let mut args: Vec<String> = Vec::new();
                    let mut j: usize = 0;
                    while j < tokens.len()
                        invariant
                            j <= tokens.len(),
                            string_views(args@) =~= token_values(
                                crate::parser::tokens_view(tokens@),
                            ).take(j as int),
                        decreases tokens.len() - j,
                    {
                        let ghost prev = string_views(args@);
                        let v = tokens[j].value.clone();
                        args.push(v);
                        proof {
                            assert(string_views(args@) =~= prev.push(tokens@[j as int].value@));
                            assert(token_values(crate::parser::tokens_view(tokens@)).take(j + 1)
                                =~= token_values(crate::parser::tokens_view(tokens@)).take(
                                j as int,
                            ).push(tokens@[j as int].value@));
                        }
                        j = j + 1;
                    }
                    proof {
                        assert(token_values(crate::parser::tokens_view(tokens@)).take(
                            tokens.len() as int,
                        ) =~= token_values(crate::parser::tokens_view(tokens@)));
                    }
                    match registory.execute_command(cmd.as_str(), args) {
                        Some(data) => {
                            results.push(data);
                            proof {
                                assert(eval_results_view(results@) =~= before + eval_one(
                                    nodes[i as int],
                                    registory,
                                ));
                            }
                        },
                        _ => {
                            assert(before + eval_one(nodes[i as int], registory) =~= before);
                        },
                    };
                },
                ParserResult::FunctionCall(cmd, _) => {
                    let mut message = String::from_str("command not found: ");
                    message.append(cmd.as_str());
                    results.push(WebEvaluatorResult::Error(message));
                    proof {
                        assert(eval_results_view(results@) =~= before + eval_one(
                            nodes[i as int],
                            registory,
                        ));
                    }
                },
                parser_results => {
                    let mut message = String::from_str("failed to execute the command: ");
                    let shown = parser_results.to_debug_string();
                    message.append(shown.as_str());
                    results.push(WebEvaluatorResult::Error(message));
                    proof {
                        assert(eval_results_view(results@) =~= before + eval_one(
                            nodes[i as int],
                            registory,
                        ));
                    }
                },
            }
            proof {
                if nodes[i as int] is Error {
                    assert(before + eval_one(nodes[i as int], registory) =~= before);
                }
            }
            i = i + 1;
        }
        proof {
            assert(nodes.take(stmt.len() as int) =~= nodes);
        }
        results
    }
}

} // verus!
