//! Properties of the library that relate several of its functions.
use vstd::prelude::*;

use crate::evaluator::eval_all;
use crate::evaluator::eval_one;
use crate::evaluator::SpecWebEvaluatorResult;
use crate::display_content;
use crate::does_redirect;
use crate::lexer::lemma_chop;
use crate::lexer::lemma_ascii_slice;
use crate::lexer::lemma_chop_lexable;
use crate::lexer::lemma_scan;
use crate::lexer::lemma_scan_lexable;
use crate::lexer::lemma_skip_blank_lexable;
use crate::lexer::lemma_next_token_progress;
use crate::lexer::literal_token;
use crate::lexer::loc_display;
use crate::lexer::CharClass;
use crate::lexer::LexState;
use crate::errors::SpecParserError;
use crate::lexer::SpecToken;
use crate::lexer::TokenEnum;
use crate::parser::lemma_parse_arguments;
use crate::parser::lexer_failure;
use crate::parser::lemma_parse_function_declaration;
use crate::parser::SpecParserResult;
use crate::redirect_path;
use crate::registries::fs_display;
use crate::registries::CommandFunction;
use crate::registries::CommandRegistry;
use crate::registries::SpecFS;
use crate::registries::SpecCommandDefinition;
use crate::termx_registry::web::execute;
use crate::termx_registry::web::find_command;
use crate::termx_registry::web::default_commands;
use crate::termx_registry::web::find_file;
use crate::termx_registry::web::help_text;
use crate::termx_registry::web::lemma_find_file;
use crate::termx_registry::web::ls_output;
use crate::termx_registry::web::lemma_default_names_distinct;
use crate::termx_registry::web::lemma_find_command;
use crate::termx_registry::web::lookup;
use crate::termx_registry::web::register;
use crate::text::char_is_alphabetic;
use crate::text::char_is_alphanumeric;
use crate::text::is_digit;
use crate::text::decimal;
use crate::text::digit_char;
use crate::text::join;
use crate::text::pad_right;

verus! {

// ---------------------------------------------------------------------------
// Tokens and the source
// ---------------------------------------------------------------------------

/// A token read up to index `end` of the source is the source text at its
/// location: a name is an alphabetic character followed by alphanumeric
/// ones, a number is a run of ASCII digits, a string literal is the text
/// between two double quotes and holds none, and a punctuation token is its
/// one character.
pub open spec fn token_matches_source(src: Seq<char>, t: SpecToken, end: int) -> bool {
    let col = t.loc.col as int;
    match t.token {
        TokenEnum::Name => {
            &&& t.value.len() >= 1
            &&& char_is_alphabetic(t.value[0])
            &&& forall|i: int| 0 <= i < t.value.len() ==> char_is_alphanumeric(#[trigger] t.value[i])
            &&& t.value == src.subrange(col, end)
        },
        TokenEnum::Number => {
            &&& t.value.len() >= 1
            &&& forall|i: int| 0 <= i < t.value.len() ==> is_digit(#[trigger] t.value[i])
            &&& t.value == src.subrange(col, end)
        },
        TokenEnum::String => {
            &&& col + 2 <= end <= src.len()
            &&& src[col] == '"'
            &&& src[end - 1] == '"'
            &&& t.value == src.subrange(col + 1, end - 1)
            &&& forall|i: int| 0 <= i < t.value.len() ==> #[trigger] t.value[i] != '"'
        },
        _ => {
            &&& end == col + 1
            &&& col < src.len()
            &&& t.value == seq![src[col]]
            &&& literal_token(src[col]) == Some(t.token)
        },
    }
}

/// Scanning a class from a character of that class consumes it.
proof fn lemma_scan_consumes(s: LexState, class: CharClass)
    requires
        s.has_char(),
        class.holds(s.src[s.cur as int]),
    ensures
        s.scan(class).cur > s.cur,
{
    lemma_scan(s.chop(), class);
}

/// Law: every token that the lexer reads is the text of the source at the
/// token's location, where skipping blanks and comments stopped, and the
/// lexer stops right after it.
pub proof fn law_token_matches_source(s: LexState)
    requires
        s.lexable(),
        s.next_token().1 is Ok,
    ensures
        token_matches_source(s.src, s.next_token().1->Ok_0, s.next_token().0.cur as int),
        s.next_token().1->Ok_0.loc == s.skip_blank().loc(),
        s.skip_blank().cur >= s.cur,
{
    lemma_skip_blank_lexable(s);
    lemma_next_token_progress(s);
    let t0 = s.trim_left();
    lemma_scan(s, CharClass::Whitespace);
    lemma_scan(t0, CharClass::NotNewline);
    lemma_chop(t0.scan(CharClass::NotNewline));
    lemma_scan(t0.drop_line(), CharClass::Whitespace);
    let b = s.skip_blank();
    let first = b.src[b.cur as int];
    lemma_chop(b);
    lemma_chop_lexable(b);
    if char_is_alphabetic(first) {
        lemma_scan(b, CharClass::Alphanumeric);
        lemma_scan_lexable(b, CharClass::Alphanumeric);
        lemma_scan_consumes(b, CharClass::Alphanumeric);
        let e = b.scan(CharClass::Alphanumeric);
        lemma_ascii_slice(b.src, b.cur as int, e.cur as int);
        let v = b.src.subrange(b.cur as int, e.cur as int);
        assert forall|i: int| 0 <= i < v.len() implies char_is_alphanumeric(#[trigger] v[i]) by {
            assert(v[i] == b.src[b.cur + i]);
        }
    } else if literal_token(first) is Some {
    } else if first == '"' {
        let c = b.chop();
        lemma_scan(c, CharClass::NotQuote);
        lemma_scan_lexable(c, CharClass::NotQuote);
        let e = c.scan(CharClass::NotQuote);
        if e.has_char() {
            lemma_chop(e);
            lemma_ascii_slice(b.src, c.cur as int, e.cur as int);
            let v = b.src.subrange(c.cur as int, e.cur as int);
            assert forall|i: int| 0 <= i < v.len() implies #[trigger] v[i] != '"' by {
                assert(v[i] == b.src[c.cur + i]);
            }
        }
    } else if is_digit(first) {
        lemma_scan(b, CharClass::AsciiDigit);
        lemma_scan_lexable(b, CharClass::AsciiDigit);
        lemma_scan_consumes(b, CharClass::AsciiDigit);
        let e = b.scan(CharClass::AsciiDigit);
        lemma_ascii_slice(b.src, b.cur as int, e.cur as int);
        let v = b.src.subrange(b.cur as int, e.cur as int);
        assert forall|i: int| 0 <= i < v.len() implies is_digit(#[trigger] v[i]) by {
            assert(v[i] == b.src[b.cur + i]);
        }
    }
}

// ---------------------------------------------------------------------------
// Line and position bookkeeping
// ---------------------------------------------------------------------------

/// The number of newlines among the first `n` characters.
pub open spec fn newlines_before(src: Seq<char>, n: int) -> nat
    decreases n,
{
    if n <= 0 || n > src.len() {
        0
    } else {
        newlines_before(src, n - 1) + (if src[n - 1] == '\n' {
            1nat
        } else {
            0nat
        })
    }
}

/// The lexer's counters agree with what it has consumed: `row` is the number
/// of newlines before `cur`, and `bol` is where the line of `cur` begins.
pub open spec fn positions_consistent(s: LexState) -> bool {
    &&& s.cur <= s.src.len()
    &&& s.row == newlines_before(s.src, s.cur as int)
    &&& s.bol <= s.cur
    &&& (s.bol == 0 || s.src[s.bol - 1] == '\n')
    &&& forall|i: int| s.bol <= i < s.cur ==> #[trigger] s.src[i] != '\n'
}

proof fn lemma_chop_consistent(s: LexState)
    requires
        positions_consistent(s),
        s.has_char() ==> s.cur < s.src.len(),
    ensures
        positions_consistent(s.chop()),
{
}

proof fn lemma_scan_consistent(s: LexState, class: CharClass)
    requires
        positions_consistent(s),
        s.scan_safe(class),
    ensures
        positions_consistent(s.scan(class)),
    decreases s.blen - s.cur,
{
    if s.has_char() && class.holds(s.src[s.cur as int]) {
        lemma_chop_consistent(s);
        lemma_scan_consistent(s.chop(), class);
    }
}

/// Law: a new lexer's counters agree with the source.
pub proof fn law_initial_positions(src: Seq<char>, blen: nat)
    ensures
        positions_consistent(LexState { src, blen, cur: 0, bol: 0, row: 0 }),
{
}

/// Law: reading a token keeps the lexer's line counter and line start in
/// agreement with what it has consumed.
pub proof fn law_next_token_keeps_positions(s: LexState)
    requires
        s.next_token_safe(),
        positions_consistent(s),
    ensures
        positions_consistent(s.next_token().0),
{
    lemma_scan_consistent(s, CharClass::Whitespace);
    let t0 = s.trim_left();
    if t0.cur < t0.src.len() && t0.src[t0.cur as int] == '#' {
        lemma_scan_consistent(t0, CharClass::NotNewline);
        lemma_chop_consistent(t0.scan(CharClass::NotNewline));
        lemma_scan_consistent(t0.drop_line(), CharClass::Whitespace);
    }
    let b = s.skip_blank();
    if b.has_char() {
        let first = b.src[b.cur as int];
        if char_is_alphabetic(first) {
            lemma_scan_consistent(b, CharClass::Alphanumeric);
        } else if literal_token(first) is Some {
            lemma_chop_consistent(b);
        } else if first == '"' {
            lemma_chop_consistent(b);
            let c = b.chop();
            lemma_scan_consistent(c, CharClass::NotQuote);
            lemma_chop_consistent(c.scan(CharClass::NotQuote));
        } else if is_digit(first) {
            lemma_scan_consistent(b, CharClass::AsciiDigit);
        }
    }
}

proof fn lemma_arguments_keep_positions(s: LexState)
    requires
        s.arguments_safe(),
        positions_consistent(s),
    ensures
        positions_consistent(s.parse_arguments().0),
    decreases s.blen - s.cur,
{
    if s.has_char() {
        lemma_next_token_progress(s);
        law_next_token_keeps_positions(s);
        let (s1, r) = s.next_token();
        if let Ok(t) = r {
            if t.token != TokenEnum::SemiColon {
                lemma_arguments_keep_positions(s1);
            }
        }
    }
}

proof fn lemma_body_keeps_positions(s: LexState)
    requires
        s.function_declaration_safe(),
        positions_consistent(s),
    ensures
        positions_consistent(s.parse_function_declaration().0),
    decreases s.blen - s.cur,
{
    if s.has_char() {
        lemma_next_token_progress(s);
        law_next_token_keeps_positions(s);
        let (s1, r) = s.next_token();
        if let Ok(t) = r {
            if t.token != TokenEnum::CCurly {
                lemma_body_keeps_positions(s1);
            }
        }
    }
}

/// Law: parsing, whether it succeeds or fails, leaves the lexer's line
/// counter and line start in agreement with what it has consumed.
pub proof fn law_parse_keeps_positions(s: LexState, cmds: Seq<Seq<char>>)
    requires
        s.parse_safe(cmds),
        positions_consistent(s),
    ensures
        positions_consistent(s.parse(cmds).0),
    decreases s.blen - s.cur,
{
    if s.has_char() {
        lemma_next_token_progress(s);
        law_next_token_keeps_positions(s);
        let (s1, r) = s.next_token();
        if let Ok(t) = r {
            if t.token == TokenEnum::Name {
                lemma_parse_arguments(s1);
                lemma_parse_function_declaration(s1);
                if cmds.contains(t.value) || !s1.at_open_paren() {
                    lemma_arguments_keep_positions(s1);
                    if s1.parse_arguments().1 is Ok {
                        law_parse_keeps_positions(s1.parse_arguments().0, cmds);
                    }
                } else {
                    lemma_body_keeps_positions(s1);
                    if s1.parse_function_declaration().1 is Ok {
                        law_parse_keeps_positions(s1.parse_function_declaration().0, cmds);
                    }
                }
            }
        }
    }
}

// ---------------------------------------------------------------------------
// Statements
// ---------------------------------------------------------------------------

/// No token of the sequence is a `;`.
pub open spec fn no_semicolon(ts: Seq<SpecToken>) -> bool {
    forall|i: int| 0 <= i < ts.len() ==> #[trigger] ts[i].token != TokenEnum::SemiColon
}

/// No token of the sequence is a parenthesis or `{` or `}`.
pub open spec fn no_brackets(ts: Seq<SpecToken>) -> bool {
    forall|i: int|
        0 <= i < ts.len() ==> {
            let k = #[trigger] ts[i].token;
            k != TokenEnum::OParan && k != TokenEnum::CParan && k != TokenEnum::OCurly && k
                != TokenEnum::CCurly
        }
}

/// A statement is well classified: a system command's name is one of the
/// system commands and its arguments hold no `;`, a called or declared
/// function's name is none of them, a call's arguments hold no `;` and a
/// declaration's body holds no brackets; the parser makes no error
/// statements.
pub open spec fn well_classified(r: SpecParserResult, cmds: Seq<Seq<char>>) -> bool {
    match r {
        SpecParserResult::SystemCmd(n, args) => cmds.contains(n) && no_semicolon(args),
        SpecParserResult::FunctionCall(n, args) => !cmds.contains(n) && no_semicolon(args),
        SpecParserResult::FunctionDeclaration(n, body) => !cmds.contains(n) && no_brackets(body),
        SpecParserResult::Error(_) => false,
    }
}

proof fn lemma_arguments_no_semicolon(s: LexState)
    ensures
        s.parse_arguments().1 matches Ok(ts) ==> no_semicolon(ts),
    decreases s.blen - s.cur,
{
    if s.has_char() {
        lemma_next_token_progress(s);
        let (s1, r) = s.next_token();
        if let Ok(t) = r {
            if t.token != TokenEnum::SemiColon {
                lemma_arguments_no_semicolon(s1);
                if let Ok(rest) = s1.parse_arguments().1 {
                    let ts = seq![t] + rest;
                    assert forall|i: int| 0 <= i < ts.len() implies #[trigger] ts[i].token
                        != TokenEnum::SemiColon by {
                        if i > 0 {
                            assert(ts[i] == rest[i - 1]);
                        }
                    }
                }
            }
        }
    }
}

proof fn lemma_body_no_brackets(s: LexState)
    ensures
        s.parse_function_declaration().1 matches Ok(ts) ==> no_brackets(ts),
    decreases s.blen - s.cur,
{
    if s.has_char() {
        lemma_next_token_progress(s);
        let (s1, r) = s.next_token();
        if let Ok(t) = r {
            lemma_body_no_brackets(s1);
            if !(t.token == TokenEnum::OParan || t.token == TokenEnum::CParan || t.token
                == TokenEnum::OCurly || t.token == TokenEnum::CCurly) {
                if let Ok(rest) = s1.parse_function_declaration().1 {
                    let ts = seq![t] + rest;
                    assert forall|i: int| 0 <= i < ts.len() implies {
                        let k = #[trigger] ts[i].token;
                        k != TokenEnum::OParan && k != TokenEnum::CParan && k != TokenEnum::OCurly
                            && k != TokenEnum::CCurly
                    } by {
                        if i > 0 {
                            assert(ts[i] == rest[i - 1]);
                        }
                    }
                }
            }
        }
    }
}

/// Law: every statement that the parser returns is well classified against
/// the system commands it was given.
pub proof fn law_parse_classifies(s: LexState, cmds: Seq<Seq<char>>)
    ensures
        s.parse(cmds).1 matches Ok(rs) ==> forall|i: int|
            0 <= i < rs.len() ==> well_classified(#[trigger] rs[i], cmds),
    decreases s.blen - s.cur,
{
    if s.has_char() {
        lemma_next_token_progress(s);
        let (s1, r) = s.next_token();
        if let Ok(t) = r {
            if t.token == TokenEnum::Name {
                lemma_parse_arguments(s1);
                lemma_parse_function_declaration(s1);
                lemma_arguments_no_semicolon(s1);
                lemma_body_no_brackets(s1);
                let s2 = if cmds.contains(t.value) || !s1.at_open_paren() {
                    s1.parse_arguments().0
                } else {
                    s1.parse_function_declaration().0
                };
                law_parse_classifies(s2, cmds);
                if let Ok(rs) = s.parse(cmds).1 {
                    let rest = s2.parse(cmds).1->Ok_0;
                    assert forall|i: int| 0 <= i < rs.len() implies well_classified(
                        #[trigger] rs[i],
                        cmds,
                    ) by {
                        if i > 0 {
                            assert(rs[i] == rest[i - 1]);
                        }
                    }
                }
            }
        }
    }
}

// ---------------------------------------------------------------------------
// The registry
// ---------------------------------------------------------------------------

/// Law: after a command is registered, looking up its name finds it, and
/// looking up any other name finds what it found before.
pub proof fn law_register_then_lookup(
    e: Seq<SpecCommandDefinition>,
    d: SpecCommandDefinition,
    other: Seq<char>,
)
    ensures
        lookup(register(e, d), d.name) == Some(d),
        other != d.name ==> lookup(register(e, d), other) == lookup(e, other),
{
    lemma_find_command(e, d.name, 0);
    lemma_find_command(e, other, 0);
    let e2 = register(e, d);
    lemma_find_command(e2, d.name, 0);
    lemma_find_command(e2, other, 0);
    match find_command(e, d.name, 0) {
        Some(k) => {
            assert(e2[k] == d);
        },
        None => {
            assert(e2[e.len() as int] == d);
        },
    }
    if other != d.name {
        match find_command(e, other, 0) {
            Some(k) => {
                assert(e2[k] == e[k]);
            },
            None => {
                assert forall|j: int| 0 <= j < e2.len() implies e2[j].name != other by {
                    if j < e.len() {
                        assert(e2[j].name == e[j].name || e2[j] == d);
                    }
                }
            },
        }
    }
}

/// Law: a name runs a command exactly when it is among the names that the
/// registry lists.
pub proof fn law_runs_iff_listed(
    e: Seq<SpecCommandDefinition>,
    fs: Seq<crate::registries::SpecFS>,
    name: Seq<char>,
    args: Seq<Seq<char>>,
)
    ensures
        execute(e, fs, name, args) is Some <==> e.map_values(|d: SpecCommandDefinition| d.name).contains(
            name,
        ),
{
    lemma_find_command(e, name, 0);
    let names = e.map_values(|d: SpecCommandDefinition| d.name);
    if names.contains(name) {
        let j = choose|j: int| 0 <= j < names.len() && names[j] == name;
        assert(e[j].name == name);
    }
    if let Some(k) = find_command(e, name, 0) {
        assert(names[k] == name);
    }
}

// ---------------------------------------------------------------------------
// Evaluation
// ---------------------------------------------------------------------------

/// Law: statements run one by one, so running two programs one after the
/// other gives the results of the first followed by those of the second,
/// and each statement gives at most one result.
pub proof fn law_eval_concat<R: CommandRegistry>(
    a: Seq<SpecParserResult>,
    b: Seq<SpecParserResult>,
    reg: R,
)
    ensures
        eval_all(a + b, reg) == eval_all(a, reg) + eval_all(b, reg),
        eval_all(a, reg).len() <= a.len(),
    decreases b.len(),
{
    lemma_eval_len(a, reg);
    if b.len() == 0 {
        assert(a + b =~= a);
        assert(eval_all(a, reg) + eval_all(b, reg) =~= eval_all(a, reg));
    } else {
        law_eval_concat(a, b.drop_last(), reg);
        assert((a + b).drop_last() =~= a + b.drop_last());
        assert((a + b).last() == b.last());
        assert(eval_all(a, reg) + eval_all(b.drop_last(), reg) + eval_one(b.last(), reg)
            =~= eval_all(a, reg) + (eval_all(b.drop_last(), reg) + eval_one(b.last(), reg)));
    }
}

/// Law: a program of one statement gives what running that statement gives.
pub proof fn law_eval_single<R: CommandRegistry>(x: SpecParserResult, reg: R)
    ensures
        eval_all(seq![x], reg) == eval_one(x, reg),
{
    let one = seq![x];
    assert(one.drop_last() =~= Seq::<SpecParserResult>::empty());
    assert(one.last() == x);
    assert(eval_all(one.drop_last(), reg) =~= Seq::<SpecWebEvaluatorResult>::empty());
    assert(eval_all(one, reg) =~= eval_one(x, reg));
}

proof fn lemma_eval_len<R: CommandRegistry>(a: Seq<SpecParserResult>, reg: R)
    ensures
        eval_all(a, reg).len() <= a.len(),
    decreases a.len(),
{
    if a.len() > 0 {
        lemma_eval_len(a.drop_last(), reg);
    }
}

// ---------------------------------------------------------------------------
// The commands of the web shell
// ---------------------------------------------------------------------------

/// What a command that shows its output gives: its output as a display
/// when it succeeds, as an error otherwise.
pub open spec fn displayed(
    f: CommandFunction,
    args: Seq<Seq<char>>,
    fs: Seq<SpecFS>,
) -> SpecWebEvaluatorResult {
    if f.spec_call(args, fs).1 {
        SpecWebEvaluatorResult::Display(f.spec_call(args, fs).0)
    } else {
        SpecWebEvaluatorResult::Error(f.spec_call(args, fs).0)
    }
}

proof fn lemma_default_finds(k: int)
    requires
        0 <= k < 6,
    ensures
        lookup(default_commands(), default_commands()[k].name) == Some(default_commands()[k]),
{
    let e = default_commands();
    lemma_default_names_distinct();
    lemma_find_command(e, e[k].name, 0);
}

/// Law: the commands of a new web registry run as their names say: `echo`,
/// `id`, `hostname`, `ls` and `cat` show what they print, or the error, and
/// `open` navigates to what it names, or shows the error.
pub proof fn law_default_commands(fs: Seq<SpecFS>, args: Seq<Seq<char>>)
    ensures
        execute(default_commands(), fs, "echo"@, args) == Some(
            displayed(CommandFunction::Echo, args, fs),
        ),
        execute(default_commands(), fs, "id"@, args) == Some(
            displayed(CommandFunction::Id, args, fs),
        ),
        execute(default_commands(), fs, "hostname"@, args) == Some(
            displayed(CommandFunction::Hostname, args, fs),
        ),
        execute(default_commands(), fs, "ls"@, args) == Some(
            displayed(CommandFunction::Ls, args, fs),
        ),
        execute(default_commands(), fs, "cat"@, args) == Some(
            displayed(CommandFunction::Cat, args, fs),
        ),
        execute(default_commands(), fs, "open"@, args) == Some(
            if CommandFunction::Open.spec_call(args, fs).1 {
                SpecWebEvaluatorResult::Navigate(CommandFunction::Open.spec_call(args, fs).0)
            } else {
                SpecWebEvaluatorResult::Error(CommandFunction::Open.spec_call(args, fs).0)
            },
        ),
{
    lemma_default_finds(0);
    lemma_default_finds(1);
    lemma_default_finds(2);
    lemma_default_finds(3);
    lemma_default_finds(4);
    lemma_default_finds(5);
}

/// Some file has the name.
pub open spec fn has_file(fs: Seq<SpecFS>, name: Seq<char>) -> bool {
    exists|j: int| 0 <= j < fs.len() && #[trigger] fs[j].name == name
}

/// `k` is the first file with the name.
pub open spec fn first_file(fs: Seq<SpecFS>, name: Seq<char>, k: int) -> bool {
    &&& 0 <= k < fs.len()
    &&& fs[k].name == name
    &&& forall|j: int| 0 <= j < k ==> #[trigger] fs[j].name != name
}

/// Law: looking a file up by name finds the first file with that name, and
/// finds nothing only where no file has it.
pub proof fn law_find_file(fs: Seq<SpecFS>, name: Seq<char>)
    ensures
        find_file(fs, name, 0) is Some <==> has_file(fs, name),
        find_file(fs, name, 0) matches Some(k) ==> first_file(fs, name, k),
{
    lemma_find_file(fs, name, 0);
}

/// Law: `cat` without arguments prints its usage and fails; otherwise it
/// succeeds exactly when some file is named by the arguments run together,
/// and then prints the title and summary of the first such file, else it
/// says that the file was not found.
pub proof fn law_cat(args: Seq<Seq<char>>, fs: Seq<SpecFS>)
    ensures
        args.len() == 0 ==> CommandFunction::Cat.spec_call(args, fs) == (
            "Usage: cat <filename>\n"@,
            false,
        ),
        args.len() > 0 ==> (CommandFunction::Cat.spec_call(args, fs).1 <==> has_file(
            fs,
            join(args, ""@),
        )),
        args.len() > 0 && !CommandFunction::Cat.spec_call(args, fs).1
            ==> CommandFunction::Cat.spec_call(args, fs).0 == "File not found\n"@,
        CommandFunction::Cat.spec_call(args, fs).1 ==> exists|k: int|
            #[trigger] first_file(fs, join(args, ""@), k) && CommandFunction::Cat.spec_call(
                args,
                fs,
            ).0 == "# "@ + fs[k].title + "\n"@ + fs[k].summary + "\n"@,
{
    law_find_file(fs, join(args, ""@));
    if args.len() > 0 {
        if let Some(k) = find_file(fs, join(args, ""@), 0) {
            assert(first_file(fs, join(args, ""@), k));
        }
    }
}

/// Law: `open` succeeds exactly when it has arguments and some file is named
/// by them run together, and then navigates to that name; otherwise it
/// prints its usage, or says that the file was not found.
pub proof fn law_open(args: Seq<Seq<char>>, fs: Seq<SpecFS>)
    ensures
        CommandFunction::Open.spec_call(args, fs).1 <==> args.len() > 0 && has_file(
            fs,
            join(args, ""@),
        ),
        CommandFunction::Open.spec_call(args, fs).1 ==> CommandFunction::Open.spec_call(
            args,
            fs,
        ).0 == join(args, ""@),
        args.len() == 0 ==> CommandFunction::Open.spec_call(args, fs).0
            == "Usage: open <filename>\n"@,
        args.len() > 0 && !CommandFunction::Open.spec_call(args, fs).1
            ==> CommandFunction::Open.spec_call(args, fs).0 == "File not found\n"@,
{
    law_find_file(fs, join(args, ""@));
}

/// Law: `ls` always succeeds, and its flags are whether `a` and `l` occur
/// anywhere among the arguments, so arguments with the same flags list the
/// same.
pub proof fn law_ls_flags(args: Seq<Seq<char>>, other: Seq<Seq<char>>, fs: Seq<SpecFS>)
    ensures
        CommandFunction::Ls.spec_call(args, fs) == (
            ls_output(fs, args.contains("a"@), args.contains("l"@)),
            true,
        ),
        args.contains("a"@) == other.contains("a"@) && args.contains("l"@) == other.contains(
            "l"@,
        ) ==> CommandFunction::Ls.spec_call(args, fs) == CommandFunction::Ls.spec_call(other, fs),
{
}

/// What `ls` prints for one file: with `all` every file, else only one whose
/// name does not start with a dot, as the long listing with `detailed`, else
/// the name, and a newline.
pub open spec fn ls_entry(f: SpecFS, all: bool, detailed: bool) -> Seq<char> {
    if all || !(f.name.len() > 0 && f.name[0] == '.') {
        (if detailed {
            fs_display(f)
        } else {
            f.name
        }) + "\n"@
    } else {
        seq![]
    }
}

/// Law: `ls` lists the files one by one, in order: the listing of two runs of
/// files is the listing of the first followed by that of the second, and
/// that of one file is its entry.
pub proof fn law_ls_output(a: Seq<SpecFS>, b: Seq<SpecFS>, f: SpecFS, all: bool, detailed: bool)
    ensures
        ls_output(a + b, all, detailed) == ls_output(a, all, detailed) + ls_output(
            b,
            all,
            detailed,
        ),
        ls_output(seq![f], all, detailed) == ls_entry(f, all, detailed),
    decreases b.len(),
{
    assert(seq![f].drop_last() =~= Seq::<SpecFS>::empty());
    assert(ls_output(seq![f].drop_last(), all, detailed) =~= seq![]);
    assert(ls_output(seq![f], all, detailed) =~= ls_entry(f, all, detailed));
    if b.len() == 0 {
        assert(a + b =~= a);
        assert(ls_output(a, all, detailed) + ls_output(b, all, detailed) =~= ls_output(
            a,
            all,
            detailed,
        ));
    } else {
        law_ls_output(a, b.drop_last(), f, all, detailed);
        assert((a + b).drop_last() =~= a + b.drop_last());
        assert((a + b).last() == b.last());
        let tail = if crate::termx_registry::web::ls_shows(b.last(), all) {
            crate::termx_registry::web::ls_line(b.last(), detailed)
        } else {
            seq![]
        };
        assert(ls_output(a, all, detailed) + ls_output(b.drop_last(), all, detailed) + tail
            =~= ls_output(a, all, detailed) + (ls_output(b.drop_last(), all, detailed) + tail));
    }
}

// ---------------------------------------------------------------------------
// What the terminal shows
// ---------------------------------------------------------------------------

/// What the terminal shows of one result: the text of a display or an
/// error, and `Redirecting...` for a navigation.
pub open spec fn result_text(r: SpecWebEvaluatorResult) -> Seq<char> {
    match r {
        SpecWebEvaluatorResult::Display(x) => x,
        SpecWebEvaluatorResult::Error(x) => x,
        SpecWebEvaluatorResult::Navigate(_) => "Redirecting..."@,
    }
}

/// The path of one result: that of a navigation, else nothing.
pub open spec fn result_path(r: SpecWebEvaluatorResult) -> Seq<char> {
    match r {
        SpecWebEvaluatorResult::Navigate(x) => x,
        _ => seq![],
    }
}

/// Law: the terminal shows every result, in order, a navigation included:
/// what it shows of two runs of results is what it shows of the first
/// followed by what it shows of the second, and of one result its text.
/// Likewise the redirect path gathers the paths of all navigations in
/// order, and the terminal redirects when either run holds a navigation.
pub proof fn law_output_concat(
    a: Seq<SpecWebEvaluatorResult>,
    b: Seq<SpecWebEvaluatorResult>,
    r: SpecWebEvaluatorResult,
)
    ensures
        display_content(a + b) == display_content(a) + display_content(b),
        display_content(seq![r]) == result_text(r),
        redirect_path(a + b) == redirect_path(a) + redirect_path(b),
        redirect_path(seq![r]) == result_path(r),
        does_redirect(a + b) <==> does_redirect(a) || does_redirect(b),
        does_redirect(seq![r]) <==> r is Navigate,
    decreases b.len(),
{
    let one = seq![r];
    assert(one.drop_last() =~= Seq::<SpecWebEvaluatorResult>::empty());
    assert(one.last() == r);
    assert(display_content(one.drop_last()) =~= Seq::<char>::empty());
    assert(redirect_path(one.drop_last()) =~= Seq::<char>::empty());
    assert(display_content(seq![r]) =~= result_text(r));
    assert(redirect_path(seq![r]) =~= result_path(r));
    assert(seq![r][0] == r);
    if b.len() == 0 {
        assert(a + b =~= a);
        assert(display_content(a) + display_content(b) =~= display_content(a));
        assert(redirect_path(a) + redirect_path(b) =~= redirect_path(a));
    } else {
        law_output_concat(a, b.drop_last(), r);
        assert((a + b).drop_last() =~= a + b.drop_last());
        assert((a + b).last() == b.last());
        assert(display_content(a) + display_content(b.drop_last()) + result_text(b.last())
            =~= display_content(a) + (display_content(b.drop_last()) + result_text(b.last())));
        assert(redirect_path(a) + redirect_path(b.drop_last()) + result_path(b.last())
            =~= redirect_path(a) + (redirect_path(b.drop_last()) + result_path(b.last())));
    }
    if does_redirect(a + b) {
        let i = choose|i: int| 0 <= i < (a + b).len() && (a + b)[i] is Navigate;
        if i < a.len() {
            assert(a[i] == (a + b)[i]);
        } else {
            assert(b[i - a.len()] == (a + b)[i]);
        }
    }
    if does_redirect(a) {
        let i = choose|i: int| 0 <= i < a.len() && a[i] is Navigate;
        assert((a + b)[i] == a[i]);
    }
    if does_redirect(b) {
        let i = choose|i: int| 0 <= i < b.len() && b[i] is Navigate;
        assert((a + b)[a.len() + i] == b[i]);
    }
}

// ---------------------------------------------------------------------------
// Arguments and the token stream
// ---------------------------------------------------------------------------

/// The first `n` tokens that the lexer reads from `s`, one after the other,
/// with the lexer after them; `None` where it fails before `n` tokens.
pub open spec fn read_tokens(s: LexState, n: nat) -> Option<(LexState, Seq<SpecToken>)>
    decreases n,
{
    if n == 0 {
        Some((s, seq![]))
    } else {
        match s.next_token() {
            (s1, Ok(t)) => match read_tokens(s1, (n - 1) as nat) {
                Some((e, ts)) => Some((e, seq![t] + ts)),
                None => None,
            },
            (_, Err(_)) => None,
        }
    }
}

/// No token of the sequence is of the kind `k`.
pub open spec fn none_of_kind(ts: Seq<SpecToken>, k: TokenEnum) -> bool {
    forall|i: int| 0 <= i < ts.len() ==> #[trigger] ts[i].token != k
}

/// The lexer reads `n` tokens from `s`, none of them of the kind `stop`, and
/// then fails on the next one with the error `err`, ending at `end`.
pub open spec fn lexer_fails_after(
    s: LexState,
    n: nat,
    stop: TokenEnum,
    err: SpecParserError,
    end: LexState,
) -> bool {
    match read_tokens(s, n) {
        Some((e, ts)) => {
            &&& none_of_kind(ts, stop)
            &&& e.has_char()
            &&& e.next_token().0 == end
            &&& match e.next_token().1 {
                Ok(_) => false,
                Err(le) => err == lexer_failure(le),
            }
        },
        None => false,
    }
}

/// Law: the arguments of a statement are exactly the tokens that the lexer
/// reads, in order and none left out, up to the first `;` or the end of the
/// input, and parsing them leaves the lexer after that `;` or at the end.
/// They fail only where the lexer fails on a token before any `;`.
pub proof fn law_arguments_are_tokens(s: LexState)
    ensures
        s.parse_arguments().1 matches Ok(args) ==> {
            &&& no_semicolon(args)
            &&& read_tokens(s, args.len()) matches Some((e, ts))
            &&& ts == args
            &&& {
                ||| !e.has_char() && s.parse_arguments().0 == e
                ||| e.next_token().1 matches Ok(t) && t.token == TokenEnum::SemiColon
                    && s.parse_arguments().0 == e.next_token().0
            }
        },
        s.parse_arguments().1 matches Err(err) ==> exists|n: nat|
            #[trigger] lexer_fails_after(s, n, TokenEnum::SemiColon, err, s.parse_arguments().0),
    decreases s.blen - s.cur,
{
    lemma_arguments_no_semicolon(s);
    if s.has_char() {
        lemma_next_token_progress(s);
        let (s1, r) = s.next_token();
        match r {
            Err(le) => {
                assert(read_tokens(s, 0) == Some((s, Seq::<SpecToken>::empty())));
                assert(no_semicolon(Seq::<SpecToken>::empty()));
                let end = s.parse_arguments().0;
                assert(lexer_fails_after(s, 0, TokenEnum::SemiColon, lexer_failure(le), end));
            },
            Ok(t) => {
                if t.token == TokenEnum::SemiColon {
                    assert(read_tokens(s, 0) == Some((s, Seq::<SpecToken>::empty())));
                } else {
                    law_arguments_are_tokens(s1);
                    match s1.parse_arguments().1 {
                        Ok(rest) => {
                            let args = seq![t] + rest;
                            assert(args.len() == rest.len() + 1);
                            assert((args.len() - 1) as nat == rest.len());
                        },
                        Err(err) => {
                            let n = choose|n: nat|
                                #[trigger] lexer_fails_after(
                                    s1,
                                    n,
                                    TokenEnum::SemiColon,
                                    err,
                                    s1.parse_arguments().0,
                                );
                            let (e, ts) = read_tokens(s1, n)->Some_0;
                            assert(((n + 1) as nat - 1) as nat == n);
                            assert(read_tokens(s, (n + 1) as nat) == Some((e, seq![t] + ts)));
                            let all = seq![t] + ts;
                            assert forall|i: int| 0 <= i < all.len() implies #[trigger] all[i].token
                                != TokenEnum::SemiColon by {
                                if i > 0 {
                                    assert(all[i] == ts[i - 1]);
                                }
                            }
                            let end = s.parse_arguments().0;
                            let k = (n + 1) as nat;
                            assert(lexer_fails_after(s, k, TokenEnum::SemiColon, err, end));
                        },
                    }
                }
            },
        }
    } else {
        assert(read_tokens(s, 0) == Some((s, Seq::<SpecToken>::empty())));
    }
}

/// Whether a function declaration's body leaves out a token of the kind:
/// parentheses and `{`.
pub open spec fn left_out_of_body(k: TokenEnum) -> bool {
    k == TokenEnum::OParan || k == TokenEnum::CParan || k == TokenEnum::OCurly
}

/// The tokens, in order, without those that a body leaves out.
pub open spec fn body_tokens(ts: Seq<SpecToken>) -> Seq<SpecToken>
    decreases ts.len(),
{
    if ts.len() == 0 {
        seq![]
    } else if left_out_of_body(ts[0].token) {
        body_tokens(ts.drop_first())
    } else {
        seq![ts[0]] + body_tokens(ts.drop_first())
    }
}

/// The lexer reads `n` tokens from `s`, none of them a `}`; `body` is those
/// tokens without parentheses and `{`; and the lexer then stands at the end,
/// which is `end`, or reads a `}` and ends at `end`.
pub open spec fn body_read(s: LexState, n: nat, body: Seq<SpecToken>, end: LexState) -> bool {
    match read_tokens(s, n) {
        Some((e, ts)) => {
            &&& none_of_kind(ts, TokenEnum::CCurly)
            &&& body == body_tokens(ts)
            &&& {
                ||| !e.has_char() && end == e
                ||| e.next_token().1 matches Ok(t) && t.token == TokenEnum::CCurly && end
                    == e.next_token().0
            }
        },
        None => false,
    }
}

/// Law: the body of a function declaration is the tokens that the lexer
/// reads, in order, up to the first `}` or the end of the input, with only
/// parentheses and `{` left out, and parsing it leaves the lexer after that
/// `}` or at the end. It fails only where the lexer fails on a token before
/// any `}`.
pub proof fn law_body_is_tokens(s: LexState)
    ensures
        s.parse_function_declaration().1 matches Ok(body) ==> exists|n: nat|
            #[trigger] body_read(s, n, body, s.parse_function_declaration().0),
        s.parse_function_declaration().1 matches Err(err) ==> exists|n: nat|
            #[trigger] lexer_fails_after(
                s,
                n,
                TokenEnum::CCurly,
                err,
                s.parse_function_declaration().0,
            ),
    decreases s.blen - s.cur,
{
    let empty = Seq::<SpecToken>::empty();
    if s.has_char() {
        lemma_next_token_progress(s);
        let (s1, r) = s.next_token();
        match r {
            Err(le) => {
                assert(read_tokens(s, 0) == Some((s, empty)));
                assert(lexer_fails_after(
                    s,
                    0,
                    TokenEnum::CCurly,
                    lexer_failure(le),
                    s.parse_function_declaration().0,
                ));
            },
            Ok(t) => {
                if t.token == TokenEnum::CCurly {
                    assert(read_tokens(s, 0) == Some((s, empty)));
                    assert(body_tokens(empty) == empty);
                    assert(s.parse_function_declaration().1->Ok_0 =~= empty);
        assert(body_read(s, 0, empty, s.parse_function_declaration().0));
                } else {
                    law_body_is_tokens(s1);
                    let end = s.parse_function_declaration().0;
                    assert(end == s1.parse_function_declaration().0);
                    match s1.parse_function_declaration().1 {
                        Ok(rest) => {
                            let n = choose|n: nat| #[trigger] body_read(s1, n, rest, end);
                            let (e, ts) = read_tokens(s1, n)->Some_0;
                            assert(((n + 1) as nat - 1) as nat == n);
                            assert(read_tokens(s, (n + 1) as nat) == Some((e, seq![t] + ts)));
                            let all = seq![t] + ts;
                            assert(all.drop_first() =~= ts);
                            assert(all[0] == t);
                            assert forall|i: int| 0 <= i < all.len() implies #[trigger] all[i].token
                                != TokenEnum::CCurly by {
                                if i > 0 {
                                    assert(all[i] == ts[i - 1]);
                                }
                            }
                            let body = s.parse_function_declaration().1->Ok_0;
                            if left_out_of_body(t.token) {
                                assert(body == rest);
                            } else {
                                assert(body == seq![t] + rest);
                            }
                            assert(body_read(s, (n + 1) as nat, body, end));
                        },
                        Err(err) => {
                            let n = choose|n: nat|
                                #[trigger] lexer_fails_after(s1, n, TokenEnum::CCurly, err, end);
                            let (e, ts) = read_tokens(s1, n)->Some_0;
                            assert(((n + 1) as nat - 1) as nat == n);
                            assert(read_tokens(s, (n + 1) as nat) == Some((e, seq![t] + ts)));
                            let all = seq![t] + ts;
                            assert forall|i: int| 0 <= i < all.len() implies #[trigger] all[i].token
                                != TokenEnum::CCurly by {
                                if i > 0 {
                                    assert(all[i] == ts[i - 1]);
                                }
                            }
                            let k = (n + 1) as nat;
                            assert(lexer_fails_after(s, k, TokenEnum::CCurly, err, end));
                        },
                    }
                }
            },
        }
    } else {
        assert(read_tokens(s, 0) == Some((s, empty)));
        assert(body_tokens(empty) == empty);
        assert(s.parse_function_declaration().1->Ok_0 =~= empty);
        assert(body_read(s, 0, empty, s.parse_function_declaration().0));
    }
}

/// The name of a statement.
pub open spec fn statement_name(r: SpecParserResult) -> Seq<char> {
    match r {
        SpecParserResult::SystemCmd(n, _) => n,
        SpecParserResult::FunctionCall(n, _) => n,
        SpecParserResult::FunctionDeclaration(n, _) => n,
        SpecParserResult::Error(_) => seq![],
    }
}

/// Law: a source parses to no statements exactly when nothing is left of
/// it; otherwise its first statement is named by the first token, which is a
/// name: a system command where the name is one of the system commands, a
/// function declaration where it is not and `(` follows it at once, and a
/// function call else. A first token that is not a name is refused at its
/// location.
pub proof fn law_parse_statement(s: LexState, cmds: Seq<Seq<char>>)
    ensures
        s.parse(cmds).1 matches Ok(rs) ==> (rs.len() == 0 <==> !s.has_char()),
        s.parse(cmds).1 matches Ok(rs) ==> (rs.len() > 0 ==> {
            &&& s.next_token().1 is Ok
            &&& s.next_token().1->Ok_0.token == TokenEnum::Name
            &&& statement_name(rs[0]) == s.next_token().1->Ok_0.value
            &&& (rs[0] is SystemCmd <==> cmds.contains(s.next_token().1->Ok_0.value))
            &&& (rs[0] is FunctionDeclaration <==> !cmds.contains(s.next_token().1->Ok_0.value)
                && s.next_token().0.at_open_paren())
            &&& !(rs[0] is Error)
        }),
        s.has_char() && s.next_token().1 is Ok && s.next_token().1->Ok_0.token != TokenEnum::Name
            ==> s.parse(cmds).1 == Err::<Seq<SpecParserResult>, SpecParserError>(
            SpecParserError::UnexpectedToken(loc_display(s.next_token().1->Ok_0.loc)),
        ),
{
    if s.has_char() {
        lemma_next_token_progress(s);
    }
}

// ---------------------------------------------------------------------------
// Text
// ---------------------------------------------------------------------------

/// Law: joining puts the separator between neighbouring parts and nowhere
/// else: no parts give nothing, one part gives itself, and two non-empty
/// runs of parts give the join of the first, the separator and the join of
/// the second.
pub proof fn law_join(a: Seq<Seq<char>>, b: Seq<Seq<char>>, x: Seq<char>, sep: Seq<char>)
    ensures
        join(Seq::<Seq<char>>::empty(), sep) == Seq::<char>::empty(),
        join(seq![x], sep) == x,
        a.len() > 0 && b.len() > 0 ==> join(a + b, sep) == join(a, sep) + sep + join(b, sep),
    decreases b.len(),
{
    assert(join(Seq::<Seq<char>>::empty(), sep) =~= Seq::<char>::empty());
    assert(seq![x][0] == x);
    if a.len() > 0 && b.len() > 0 {
        assert((a + b).drop_last() =~= a + b.drop_last());
        assert((a + b).last() == b.last());
        if b.len() == 1 {
            assert(a + b.drop_last() =~= a);
            assert(join(b, sep) == b[0]);
            assert(b.last() == b[0]);
        } else {
            law_join(a, b.drop_last(), x, sep);
            assert(join(a, sep) + sep + join(b.drop_last(), sep) + sep + b.last() =~= join(a, sep)
                + sep + (join(b.drop_last(), sep) + sep + b.last()));
        }
    }
}

/// The number that a run of decimal digits stands for.
pub open spec fn digits_value(s: Seq<char>) -> int
    decreases s.len(),
{
    if s.len() == 0 {
        0
    } else {
        digits_value(s.drop_last()) * 10 + ((s.last() as u32) - ('0' as u32))
    }
}

proof fn lemma_digit_char(d: nat)
    requires
        d < 10,
    ensures
        is_digit(digit_char(d)),
        (digit_char(d) as u32) - ('0' as u32) == d,
        digit_char(d) == '0' <==> d == 0,
{
}

/// Law: a number is written in decimal as ASCII digits that stand for it,
/// with no leading zero.
pub proof fn law_decimal(n: nat)
    ensures
        decimal(n).len() >= 1,
        forall|i: int| 0 <= i < decimal(n).len() ==> is_digit(#[trigger] decimal(n)[i]),
        digits_value(decimal(n)) == n,
        decimal(n).len() > 1 ==> decimal(n)[0] != '0',
    decreases n,
{
    if n < 10 {
        lemma_digit_char(n);
        let one = decimal(n);
        assert(one.drop_last() =~= Seq::<char>::empty());
        assert(one.last() == digit_char(n));
        assert(digits_value(one.drop_last()) == 0);
        let v = (one.last() as u32) - ('0' as u32);
        assert(digits_value(one) == digits_value(one.drop_last()) * 10 + v);
    } else {
        let q = n / 10;
        let r = n % 10;
        law_decimal(q);
        lemma_digit_char(r);
        let d = decimal(n);
        assert(d == decimal(q).push(digit_char(r)));
        assert(d.drop_last() =~= decimal(q));
        assert(d.last() == digit_char(r));
        assert(q * 10 + r == n);
        let v = (d.last() as u32) - ('0' as u32);
        assert(digits_value(d) == digits_value(d.drop_last()) * 10 + v);
        assert forall|i: int| 0 <= i < d.len() implies is_digit(#[trigger] d[i]) by {
            if i < decimal(q).len() {
                assert(d[i] == decimal(q)[i]);
            }
        }
        assert(d[0] == decimal(q)[0]);
        if decimal(q).len() == 1 {
            if q >= 10 {
                law_decimal(q / 10);
                assert(decimal(q) == decimal(q / 10).push(digit_char(q % 10)));
            }
            lemma_digit_char(q);
            assert(decimal(q) == seq![digit_char(q)]);
        }
    }
}

/// Law: padding a text to a width keeps the text in front, adds only spaces,
/// and makes it exactly as long as the width where it was shorter.
pub proof fn law_pad_right(s: Seq<char>, width: nat)
    ensures
        pad_right(s, width).len() == if s.len() >= width {
            s.len()
        } else {
            width
        },
        pad_right(s, width).take(s.len() as int) == s,
        forall|i: int|
            s.len() <= i < pad_right(s, width).len() ==> #[trigger] pad_right(s, width)[i] == ' ',
{
    assert(pad_right(s, width).take(s.len() as int) =~= s);
}

/// Law: the help text has one line per command, in order: that of two runs of
/// commands is the help of the first followed by that of the second, and
/// that of one command is its name and description.
pub proof fn law_help_text(
    a: Seq<SpecCommandDefinition>,
    b: Seq<SpecCommandDefinition>,
    d: SpecCommandDefinition,
)
    ensures
        help_text(a + b) == help_text(a) + help_text(b),
        help_text(seq![d]) == "  * "@ + d.name + " - "@ + d.description + "\n"@,
    decreases b.len(),
{
    let one = seq![d];
    assert(one.drop_last() =~= Seq::<SpecCommandDefinition>::empty());
    assert(one.last() == d);
    assert(help_text(one.drop_last()) =~= Seq::<char>::empty());
    assert(help_text(one) =~= "  * "@ + d.name + " - "@ + d.description + "\n"@);
    if b.len() == 0 {
        assert(a + b =~= a);
        assert(help_text(a) + help_text(b) =~= help_text(a));
    } else {
        law_help_text(a, b.drop_last(), d);
        assert((a + b).drop_last() =~= a + b.drop_last());
        assert((a + b).last() == b.last());
        let line = "  * "@ + b.last().name + " - "@ + b.last().description + "\n"@;
        assert(help_text(a + b) =~= help_text(a) + help_text(b.drop_last()) + line);
        assert(help_text(b) =~= help_text(b.drop_last()) + line);
        assert(help_text(a) + help_text(b.drop_last()) + line =~= help_text(a) + (help_text(
            b.drop_last(),
        ) + line));
    }
}

} // verus!
