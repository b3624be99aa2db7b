use termx::default_help_short;
use termx::evaluator::CmdResultActionType;
use termx::evaluator::WebEvaluator;
use termx::evaluator::WebEvaluatorResult;
use termx::is_lexable;
use termx::lexer::Lexer;
use termx::parser::Parser;
use termx::parser::ParserResult;
use termx::registries::CommandDefinition;
use termx::registries::CommandFunction;
use termx::registries::CommandRegistry;
use termx::registries::FS;
use termx::run;
use termx::termx_output;
use termx::termx_registry::web::WebCommandRegistry;

fn file(name: &str, created_at: &str, title: &str, summary: &str) -> FS {
    FS {
        name: name.to_string(),
        created_at: created_at.to_string(),
        owner: "z9fr".to_string(),
        group: "z9fr".to_string(),
        summary: summary.to_string(),
        title: title.to_string(),
    }
}

fn files() -> Vec<FS> {
    vec![
        file("hello-world", "2023-01-05T10:00:00", "Hello World", "<p>Hi</p>"),
        file(".secret", "2022-12-31", "Secret", "hidden"),
    ]
}

fn registry() -> WebCommandRegistry {
    WebCommandRegistry::new(files())
}

fn one(input: &str) -> WebEvaluatorResult {
    let mut rs = run(input.to_string(), registry());
    assert_eq!(rs.len(), 1, "input {:?}", input);
    rs.remove(0)
}

fn shows(r: &WebEvaluatorResult) -> (&'static str, String) {
    match r {
        WebEvaluatorResult::Display(x) => ("display", x.clone()),
        WebEvaluatorResult::Navigate(x) => ("navigate", x.clone()),
        WebEvaluatorResult::Error(x) => ("error", x.clone()),
    }
}

#[test]
fn echo_joins_arguments_with_commas() {
    assert_eq!(shows(&one("echo hello world")), ("display", "hello, world".to_string()));
    assert_eq!(shows(&one("echo")), ("display", "".to_string()));
    assert_eq!(shows(&one("echo \"a b\" 12")), ("display", "a b, 12".to_string()));
}

#[test]
fn id_and_hostname() {
    assert_eq!(
        shows(&one("id")),
        (
            "display",
            "uid=1000(z9fr) gid=1000(z9fr) groups=1000(z9fr),998(wheel)".to_string()
        )
    );
    assert_eq!(shows(&one("hostname")), ("display", "blog".to_string()));
    assert_eq!(WebCommandRegistry::get_hostname(), "blog");
    assert_eq!(WebCommandRegistry::get_user_name(), "z9fr");
}

#[test]
fn ls_lists_visible_files() {
    assert_eq!(shows(&one("ls")), ("display", "hello-world\n".to_string()));
    assert_eq!(
        shows(&one("ls -a")),
        ("display", "hello-world\n.secret\n".to_string())
    );
    let long = format!(
        "-rw-r--r-- {:10} {:20} {:10} {:10}\n",
        "z9fr", "z9fr", "2023-01-05", "hello-world"
    );
    assert_eq!(shows(&one("ls -l")), ("display", long));
    assert_eq!(shows(&one("ls -la")), ("display", "hello-world\n".to_string()));
}

#[test]
fn fs_long_listing_line() {
    let f = file("a", "2024", "t", "s");
    assert_eq!(
        f.to_string(),
        format!("-rw-r--r-- {:10} {:20} {:10} {:10}", "z9fr", "z9fr", "2024", "a")
    );
    let g = FS {
        name: "x".repeat(12),
        created_at: "2023-01-05T10:00:00".to_string(),
        owner: "ownername-long".to_string(),
        group: "g".to_string(),
        summary: String::new(),
        title: String::new(),
    };
    assert_eq!(
        g.to_string(),
        format!(
            "-rw-r--r-- {:10} {:20} {:10} {:10}",
            "ownername-long",
            "g",
            "2023-01-05",
            "x".repeat(12)
        )
    );
}

#[test]
fn cat_prints_title_and_summary() {
    assert_eq!(
        shows(&one("cat hello-world")),
        ("display", "# Hello World\n<p>Hi</p>\n".to_string())
    );
    assert_eq!(
        shows(&one("cat")),
        ("error", "Usage: cat <filename>\n".to_string())
    );
    assert_eq!(
        shows(&one("cat nope")),
        ("error", "File not found\n".to_string())
    );
}

#[test]
fn open_navigates_to_the_file() {
    assert_eq!(
        shows(&one("open hello-world")),
        ("navigate", "hello-world".to_string())
    );
    assert_eq!(
        shows(&one("open")),
        ("error", "Usage: open <filename>\n".to_string())
    );
    assert_eq!(
        shows(&one("open x")),
        ("error", "File not found\n".to_string())
    );
}

#[test]
fn unknown_names_and_declarations() {
    assert_eq!(
        shows(&one("whoami")),
        ("error", "command not found: whoami".to_string())
    );
    assert_eq!(
        shows(&one("f(){ x }")),
        (
            "error",
            "failed to execute the command: FunctionDeclaration(\"f\", [Token { value: \"x\", loc: Loc { row: 0, col: 5 }, token: Name }])"
                .to_string()
        )
    );
}

#[test]
fn several_statements_run_in_order() {
    let rs = run("echo a; whoami; hostname".to_string(), registry());
    let got: Vec<(&str, String)> = rs.iter().map(shows).collect();
    assert_eq!(
        got,
        vec![
            ("display", "a".to_string()),
            ("error", "command not found: whoami".to_string()),
            ("display", "blog".to_string()),
        ]
    );
}

#[test]
fn eval_skips_error_statements_and_unknown_system_commands() {
    let stmt = vec![
        ParserResult::Error("oops".to_string()),
        ParserResult::SystemCmd("nothere".to_string(), vec![]),
        ParserResult::SystemCmd("hostname".to_string(), vec![]),
    ];
    let rs = WebEvaluator::eval(stmt, registry());
    let got: Vec<(&str, String)> = rs.iter().map(shows).collect();
    assert_eq!(got, vec![("display", "blog".to_string())]);
}

#[test]
fn eval_of_two_programs_is_the_concatenation() {
    let parse = |s: &str| {
        let reg = registry();
        let mut p = Parser::new(Lexer::new(s.to_string()));
        p.parse(reg.list_available_commands()).unwrap()
    };
    let a = WebEvaluator::eval(parse("echo x; id"), registry());
    let b = WebEvaluator::eval(parse("hostname; nope"), registry());
    let ab = WebEvaluator::eval(parse("echo x; id; hostname; nope"), registry());
    let mut both: Vec<(&str, String)> = a.iter().map(shows).collect();
    both.extend(b.iter().map(shows));
    let whole: Vec<(&str, String)> = ab.iter().map(shows).collect();
    assert_eq!(both, whole);
}

#[test]
fn registry_lists_and_describes_its_commands() {
    let reg = registry();
    assert_eq!(
        reg.list_available_commands(),
        vec!["echo", "id", "hostname", "ls", "cat", "open"]
    );
    assert_eq!(
        reg.get_command_description("ls"),
        Some("list directory contents")
    );
    assert_eq!(reg.get_command_description("nope"), None);
    assert!(reg.execute_command("nope", vec![]).is_none());
}

#[test]
fn help_lists_every_command() {
    let reg = registry();
    let expected: String = [
        "  * echo - echo - display a line of text\n",
        "  * id - Print user and group information for each specified USER\n",
        "  * hostname - Show or set the system's host name.\n",
        "  * ls - list directory contents\n",
        "  * cat - concatenate files and print on the standard output\n",
        "  * open - open a file\n",
    ]
    .concat();
    assert_eq!(reg.help(), expected);
}

#[test]
fn registering_replaces_or_appends() {
    let mut reg = registry();
    reg.register_command(CommandDefinition {
        name: "echo".to_string(),
        description: "now the host".to_string(),
        function: CommandFunction::Hostname,
        action: CmdResultActionType::Navigate,
    });
    assert_eq!(reg.list_available_commands().len(), 6);
    assert_eq!(reg.get_command_description("echo"), Some("now the host"));
    assert_eq!(reg.get_command_description("id"), Some("Print user and group information for each specified USER"));
    match reg.execute_command("echo", vec!["x".to_string()]) {
        Some(WebEvaluatorResult::Navigate(x)) => assert_eq!(x, "blog"),
        _ => panic!("echo should now navigate to the host name"),
    }
    reg.register_command(CommandDefinition {
        name: "hi".to_string(),
        description: "greets".to_string(),
        function: CommandFunction::Echo,
        action: CmdResultActionType::Display,
    });
    assert_eq!(
        reg.list_available_commands(),
        vec!["echo", "id", "hostname", "ls", "cat", "open", "hi"]
    );
    assert_eq!(reg.get_command_description("hi"), Some("greets"));
}

#[test]
fn terminal_output_for_help_and_commands() {
    let help = termx_output("help".to_string(), registry()).unwrap();
    assert_eq!(help.display_content, registry().help());
    assert!(!help.do_redirect);
    assert_eq!(help.redirect_path, "");

    let out = termx_output("echo a; cat nope".to_string(), registry()).unwrap();
    assert_eq!(out.display_content, "aFile not found\n");
    assert!(!out.do_redirect);

    let nav = termx_output("open hello-world; echo b".to_string(), registry()).unwrap();
    assert_eq!(nav.display_content, "Redirecting...b");
    assert!(nav.do_redirect);
    assert_eq!(nav.redirect_path, "hello-world");
}

#[test]
fn terminal_refuses_lines_that_cannot_run() {
    assert!(termx_output("echo é".to_string(), registry()).is_none());
    assert!(termx_output("; echo".to_string(), registry()).is_none());
    assert!(termx_output("echo hi ".to_string(), registry()).is_none());
    assert!(is_lexable(&"echo hi".to_string()));
    assert!(!is_lexable(&"ü".to_string()));
}

#[test]
fn welcome_text() {
    assert_eq!(
        default_help_short(),
        "\nWelcome to the Cloud Shell!\n\nCloud shell is a browser-based shell with bash commands pre-installed. \n\n- View supported commands: `help`\n    "
    );
}
