//! A small shell language for a web terminal: a lexer, a parser, an
//! evaluator and the registries of commands that it runs.
use vstd::prelude::*;
use vstd::utf8::encode_utf8;
use vstd::utf8::is_ascii_chars_encode_utf8;

pub mod errors;
pub mod evaluator;
pub mod laws;
pub mod lexer;
pub mod parser;
pub mod registries;
pub mod termx_registry;
pub mod text;

use crate::evaluator::eval_all;
use crate::evaluator::eval_results_view;
use crate::evaluator::SpecWebEvaluatorResult;
use crate::evaluator::WebEvaluator;
use crate::evaluator::WebEvaluatorResult;
use crate::lexer::lemma_utf8_len;
use crate::lexer::newlines_from;
use crate::lexer::LexState;
use crate::lexer::Lexer;
use crate::parser::lemma_parse_ends;
use crate::parser::lemma_parse_lexable;
use crate::parser::Parser;
use crate::parser::SpecParserResult;
use crate::registries::CommandRegistry;
use crate::text::str_equal;

verus! {

/// The text that a new terminal shows.
pub fn default_help_short() -> (res: String)
    ensures
        res@
            == "\nWelcome to the Cloud Shell!\n\nCloud shell is a browser-based shell with bash commands pre-installed. \n\n- View supported commands: `help`\n    "@,
{
    return String::from_str(
        "\nWelcome to the Cloud Shell!\n\nCloud shell is a browser-based shell with bash commands pre-installed. \n\n- View supported commands: `help`\n    ",
    );
}

/// The state of a new lexer over `input`.
pub open spec fn initial_state(input: Seq<char>) -> LexState {
    LexState { src: input, blen: encode_utf8(input).len(), cur: 0, bol: 0, row: 0 }
}

/// The statements of `input`, with the names of the system commands, or the
/// parse error.
pub open spec fn parse_source(input: Seq<char>, cmds: Seq<Seq<char>>) -> Result<
    Seq<SpecParserResult>,
    crate::errors::SpecParserError,
> {
    initial_state(input).parse(cmds).1
}

/// Whether `run` can run `input`: parsing it does not panic, and it parses.
pub open spec fn runs(input: Seq<char>, cmds: Seq<Seq<char>>) -> bool {
    initial_state(input).parse_safe(cmds) && parse_source(input, cmds) is Ok
}

/// Only ASCII sources can be run: on any other source the lexer compares
/// character indices with the byte length, so it cannot reach the end.
pub proof fn lemma_runs_ascii(input: Seq<char>, cmds: Seq<Seq<char>>)
    requires
        runs(input, cmds),
    ensures
        vstd::utf8::is_ascii_chars(input),
{
    lemma_parse_ends(initial_state(input), cmds);
    lemma_utf8_len(input);
}

/// Parses `input` with the registry's commands as system commands and runs
/// the statements.
pub fn run<R: CommandRegistry>(input: String, registry: R) -> (res: Vec<WebEvaluatorResult>)
    requires
        runs(input@, registry.spec_command_names()),
    ensures
        eval_results_view(res@) == eval_all(
            parse_source(input@, registry.spec_command_names())->Ok_0,
            registry,
        ),
{
    let lex = Lexer::new(input);
    let mut parser = Parser::new(lex);
    let stmt = parser.parse(registry.list_available_commands()).unwrap();
    let eval = WebEvaluator::eval(stmt, registry);
    return eval;
}

/// The number of newlines ahead is at most the number of characters ahead.
pub proof fn lemma_newlines_bound(src: Seq<char>, i: int)
    requires
        0 <= i <= src.len(),
    ensures
        newlines_from(src, i) <= src.len() - i,
    decreases src.len() - i,
{
    if i < src.len() {
        lemma_newlines_bound(src, i + 1);
    }
}

/// Whether a string is ASCII and, so, can be lexed.
pub fn is_lexable(input: &String) -> (res: bool)
    ensures
        res == initial_state(input@).lexable(),
        res == vstd::utf8::is_ascii_chars(input@),
{
    let n = input.as_str().unicode_len();
    proof {
        lemma_newlines_bound(input@, 0);
        if vstd::utf8::is_ascii_chars(input@) {
            is_ascii_chars_encode_utf8(input@);
        }
    }
    input.is_ascii()
}

/// What the terminal shows for the results of a command line.
pub struct TermxOutput {
    pub display_content: String,
    pub do_redirect: bool,
    pub redirect_path: String,
}

/// What the terminal shows of a result: its text, or `Redirecting...` for a
/// navigation.
pub open spec fn shown(r: SpecWebEvaluatorResult) -> Seq<char> {
    match r {
        SpecWebEvaluatorResult::Display(x) => x,
        SpecWebEvaluatorResult::Error(x) => x,
        SpecWebEvaluatorResult::Navigate(_) => "Redirecting..."@,
    }
}

/// What the terminal shows of results, in order.
pub open spec fn display_content(rs: Seq<SpecWebEvaluatorResult>) -> Seq<char>
    decreases rs.len(),
{
    if rs.len() == 0 {
        seq![]
    } else {
        display_content(rs.drop_last()) + shown(rs.last())
    }
}

/// The paths of the navigations among the results, run together.
pub open spec fn redirect_path(rs: Seq<SpecWebEvaluatorResult>) -> Seq<char>
    decreases rs.len(),
{
    if rs.len() == 0 {
        seq![]
    } else {
        redirect_path(rs.drop_last()) + match rs.last() {
            SpecWebEvaluatorResult::Navigate(x) => x,
            _ => seq![],
        }
    }
}

/// Whether one of the results is a navigation.
pub open spec fn does_redirect(rs: Seq<SpecWebEvaluatorResult>) -> bool {
    exists|i: int| 0 <= i < rs.len() && rs[i] is Navigate
}

/// What the terminal shows for a command line, `None` where the command line
/// cannot be run: `help` shows the registry's help, and any other line the
/// results of running it.
pub open spec fn termx_spec<R: CommandRegistry>(cmd: Seq<char>, registry: R) -> Option<
    (Seq<char>, bool, Seq<char>),
> {
    if cmd == "help"@ {
        Some((registry.spec_help(), false, seq![]))
    } else if runs(cmd, registry.spec_command_names()) {
        let rs = eval_all(parse_source(cmd, registry.spec_command_names())->Ok_0, registry);
        Some((display_content(rs), does_redirect(rs), redirect_path(rs)))
    } else {
        None
    }
}

/// The value of a terminal output.
pub open spec fn output_view(o: Option<TermxOutput>) -> Option<(Seq<char>, bool, Seq<char>)> {
    match o {
        Some(o) => Some((o.display_content@, o.do_redirect, o.redirect_path@)),
        None => None,
    }
}

/// Runs a command line typed in the terminal and gathers what the terminal
/// shows; `None` where the line cannot be run (parsing it fails or panics).
pub fn termx_output<R: CommandRegistry>(cmd: String, registry: R) -> (res: Option<TermxOutput>)
    ensures
        output_view(res) == termx_spec(cmd@, registry),
{
    let mut display_content = String::new();
    let mut do_redirect = false;
    let mut redirect_path = String::new();

    if str_equal(cmd.as_str(), "help") {
        let help = registry.help();
        display_content.append(help.as_str());
        return Some(TermxOutput { display_content, do_redirect, redirect_path });
    }
    if !is_lexable(&cmd) {
        proof {
            if runs(cmd@, registry.spec_command_names()) {
                lemma_runs_ascii(cmd@, registry.spec_command_names());
            }
        }
        return None;
    }
    proof {
        lemma_parse_lexable(initial_state(cmd@), registry.spec_command_names());
    }
    let mut check = Parser::new(Lexer::new(cmd.clone()));
    match check.parse(registry.list_available_commands()) {
        Ok(_) => {},
        Err(_) => return None,
    }
    let ghost cmds = registry.spec_command_names();
    let ghost reg = registry;
    let results = run(cmd, registry);
    let ghost rs = eval_results_view(results@);

    let mut i: usize = 0;
    while i < results.len()
        invariant
            rs == eval_results_view(results@),
            i <= results.len(),
            display_content@ == crate::display_content(rs.take(i as int)),
            redirect_path@ == crate::redirect_path(rs.take(i as int)),
            do_redirect == does_redirect(rs.take(i as int)),
        decreases results.len() - i,
    {
        proof {
            assert(rs.take(i + 1).drop_last() =~= rs.take(i as int));
            assert(rs.take(i + 1).last() == rs[i as int]);
        }
        match &results[i] {
            WebEvaluatorResult::Display(x) => {
                display_content.append(x.as_str());
                proof {
                    assert(redirect_path@ =~= crate::redirect_path(rs.take(i + 1)));
                }
            },
            WebEvaluatorResult::Error(x) => {
                display_content.append(x.as_str());
                proof {
                    assert(redirect_path@ =~= crate::redirect_path(rs.take(i + 1)));
                }
            },
            WebEvaluatorResult::Navigate(x) => {
                do_redirect = true;
                redirect_path.append(x.as_str());
                display_content.append("Redirecting...");
            },
        }
        proof {
            if do_redirect {
                if rs[i as int] is Navigate {
                    assert(rs.take(i + 1)[i as int] is Navigate);
                } else {
                    let j = choose|j: int| 0 <= j < i && rs.take(i as int)[j] is Navigate;
                    assert(rs.take(i + 1)[j] is Navigate);
                }
            } else {
                assert forall|j: int| 0 <= j < i + 1 implies !(#[trigger] rs.take(i + 1)[j] is Navigate) by {
                    if j < i {
                        assert(rs.take(i + 1)[j] == rs.take(i as int)[j]);
                    }
                }
            }
        }
        i = i + 1;
    }
    proof {
        assert(rs.take(results.len() as int) =~= rs);
        reveal_strlit("help");
    }
    Some(TermxOutput { display_content, do_redirect, redirect_path })
}

} // verus!
