//! The registry of the web shell: `echo`, `id`, `hostname`, `ls`, `cat` and
//! `open` over the files of the site.
use vstd::prelude::*;

use crate::evaluator::CmdResultActionType;
use crate::evaluator::SpecWebEvaluatorResult;
use crate::evaluator::WebEvaluatorResult;
use crate::parser::str_views;
use crate::registries::files_view;
use crate::registries::fs_display;
use crate::registries::CommandDefinition;
use crate::registries::CommandFunction;
use crate::registries::CommandFunctionResult;
use crate::registries::CommandRegistry;
use crate::registries::SpecCommandDefinition;
use crate::registries::SpecFS;
use crate::registries::FS;
use crate::text::join;
use crate::text::join_strings;
use crate::text::str_equal;
use crate::text::string_views;

verus! {

/// The user name that the shell reports.
pub open spec fn user_name() -> Seq<char> {
    "z9fr"@
}

/// The host name that the shell reports.
pub open spec fn host_name() -> Seq<char> {
    "blog"@
}

/// What `id` prints.
pub open spec fn id_output() -> Seq<char> {
    "uid=1000("@ + user_name() + ") gid=1000("@ + user_name() + ") groups=1000("@ + user_name()
        + "),998(wheel)"@
}

/// Whether `ls` shows a file: with `a` every file, else those whose name does
/// not start with a dot.
pub open spec fn ls_shows(f: SpecFS, all: bool) -> bool {
    all || !(f.name.len() > 0 && f.name[0] == '.')
}

/// The line `ls` prints for a file: the long listing with `l`, else the name.
pub open spec fn ls_line(f: SpecFS, detailed: bool) -> Seq<char> {
    if detailed {
        fs_display(f) + "\n"@
    } else {
        f.name + "\n"@
    }
}

/// What `ls` prints for the files, in order.
pub open spec fn ls_output(fs: Seq<SpecFS>, all: bool, detailed: bool) -> Seq<char>
    decreases fs.len(),
{
    if fs.len() == 0 {
        seq![]
    } else {
        ls_output(fs.drop_last(), all, detailed) + (if ls_shows(fs.last(), all) {
            ls_line(fs.last(), detailed)
        } else {
            seq![]
        })
    }
}

/// The index of the first file from `i` on with the name.
pub open spec fn find_file(fs: Seq<SpecFS>, name: Seq<char>, i: int) -> Option<int>
    decreases fs.len() - i,
{
    if 0 <= i < fs.len() {
        if fs[i].name == name {
            Some(i)
        } else {
            find_file(fs, name, i + 1)
        }
    } else {
        None
    }
}

impl CommandFunction {
    /// What the command prints for the arguments and the files, and whether
    /// it succeeds.
    pub open spec fn spec_call(self, args: Seq<Seq<char>>, fs: Seq<SpecFS>) -> (Seq<char>, bool) {
        match self {
            CommandFunction::Echo => (join(args, ", "@), true),
            CommandFunction::Id => (id_output(), true),
            CommandFunction::Hostname => (host_name(), true),
            CommandFunction::Ls => (ls_output(fs, args.contains("a"@), args.contains("l"@)), true),
            CommandFunction::Cat => if args.len() < 1 {
                ("Usage: cat <filename>\n"@, false)
            } else {
                match find_file(fs, join(args, ""@), 0) {
                    Some(k) => ("# "@ + fs[k].title + "\n"@ + fs[k].summary + "\n"@, true),
                    None => ("File not found\n"@, false),
                }
            },
            CommandFunction::Open => if args.len() < 1 {
                ("Usage: open <filename>\n"@, false)
            } else {
                match find_file(fs, join(args, ""@), 0) {
                    Some(k) => (fs[k].name, true),
                    None => ("File not found\n"@, false),
                }
            },
        }
    }

    /// Runs the command on the arguments and the files.
    pub fn call(&self, args: &Vec<String>, fs: &Vec<FS>) -> (res: CommandFunctionResult)
        ensures
            (res.result@, res.is_success) == self.spec_call(string_views(args@), files_view(fs@)),
    {
        match self {
            CommandFunction::Echo => CommandFunctionResult {
                result: join_strings(args, ", "),
                is_success: true,
            },
            CommandFunction::Id => {
                let user = WebCommandRegistry::get_user_name();
                let mut result = String::from_str("uid=1000(");
                result.append(user.as_str());
                result.append(") gid=1000(");
                result.append(user.as_str());
                result.append(") groups=1000(");
                result.append(user.as_str());
                result.append("),998(wheel)");
                CommandFunctionResult { result, is_success: true }
            },
            CommandFunction::Hostname => CommandFunctionResult {
                result: WebCommandRegistry::get_hostname(),
                is_success: true,
            },
            CommandFunction::Ls => ls(args, fs),
            CommandFunction::Cat => cat(args, fs),
            CommandFunction::Open => open(args, fs),
        }
    }
}

/// Whether one of the arguments is exactly `flag`.
fn has_arg(args: &Vec<String>, flag: &str) -> (res: bool)
    ensures
        res == string_views(args@).contains(flag@),
{
    let mut i: usize = 0;
    while i < args.len()
        invariant
            i <= args.len(),
            forall|j: int| 0 <= j < i ==> args@[j]@ != flag@,
        decreases args.len() - i,
    {
        if str_equal(args[i].as_str(), flag) {
            proof {
                assert(string_views(args@)[i as int] == flag@);
            }
            return true;
        }
        i = i + 1;
    }
    proof {
        if string_views(args@).contains(flag@) {
            let j = choose|j: int|
                0 <= j < string_views(args@).len() && string_views(args@)[j] == flag@;
            assert(args@[j]@ == flag@);
        }
    }
    false
}

/// Whether the name starts with a dot.
fn starts_with_dot(name: &str) -> (res: bool)
    ensures
        res == (name@.len() > 0 && name@[0] == '.'),
{
    name.unicode_len() > 0 && name.get_char(0) == '.'
}

fn ls(args: &Vec<String>, fs: &Vec<FS>) -> (res: CommandFunctionResult)
    ensures
        (res.result@, res.is_success) == CommandFunction::Ls.spec_call(
            string_views(args@),
            files_view(fs@),
        ),
{
    let mut result = String::new();

    let all_files = has_arg(args, "a");
    let detailed_output = has_arg(args, "l");
    let ghost files = files_view(fs@);

    let mut i: usize = 0;
    while i < fs.len()
        invariant
            files == files_view(fs@),
            i <= fs.len(),
            result@ == ls_output(files.take(i as int), all_files, detailed_output),
        decreases fs.len() - i,
    {
        proof {
            assert(files.take(i + 1).drop_last() =~= files.take(i as int));
        }
        let file = &fs[i];
        if all_files || !starts_with_dot(file.name.as_str()) {
            if detailed_output {
                let line = file.to_string();
                result.append(line.as_str());
                result.append("\n");
            } else {
                result.append(file.name.as_str());
                result.append("\n");
            }
        }
        i = i + 1;
    }
    proof {
        assert(files.take(fs.len() as int) =~= files);
    }
    CommandFunctionResult { result, is_success: true }
}

/// The index of the first file with the name.
fn find_file_index(fs: &Vec<FS>, name: &str) -> (res: Option<usize>)
    ensures
        match res {
            Some(k) => find_file(files_view(fs@), name@, 0) == Some(k as int) && k < fs@.len(),
            None => find_file(files_view(fs@), name@, 0) is None,
        },
        match res {
            Some(k) => fs@[k as int].name@ == name@ && forall|j: int|
                0 <= j < k ==> #[trigger] fs@[j].name@ != name@,
            None => forall|j: int| 0 <= j < fs@.len() ==> #[trigger] fs@[j].name@ != name@,
        },
{
    proof {
        lemma_find_file(files_view(fs@), name@, 0);
    }
    let ghost files = files_view(fs@);
    let mut i: usize = 0;
    while i < fs.len()
        invariant
            files == files_view(fs@),
            i <= fs.len(),
            find_file(files, name@, 0) == find_file(files, name@, i as int),
        decreases fs.len() - i,
    {
        if str_equal(fs[i].name.as_str(), name) {
            proof {
                assert(files[i as int] == fs@[i as int]@);
                assert(find_file(files, name@, i as int) == Some(i as int));
                lemma_find_file(files, name@, 0);
                assert forall|j: int| 0 <= j < i implies #[trigger] fs@[j].name@ != name@ by {
                    assert(files[j] == fs@[j]@);
                    assert(files[j].name != name@);
                }
            }
            return Some(i);
        }
        i = i + 1;
    }
    proof {
        assert(find_file(files, name@, i as int) is None);
        assert forall|j: int| 0 <= j < fs@.len() implies #[trigger] fs@[j].name@ != name@ by {
            assert(files[j] == fs@[j]@);
            assert(files[j].name != name@);
        }
    }
    None
}

fn cat(args: &Vec<String>, fs: &Vec<FS>) -> (res: CommandFunctionResult)
    ensures
        (res.result@, res.is_success) == CommandFunction::Cat.spec_call(
            string_views(args@),
            files_view(fs@),
        ),
{
    let mut result = String::new();

    if args.len() < 1 {
        result.append("Usage: cat <filename>\n");

        return CommandFunctionResult { result, is_success: false };
    }
    let filename = join_strings(args, "");

    match find_file_index(fs, filename.as_str()) {
        Some(k) => {
            let file = &fs[k];
            result.append("# ");
            result.append(file.title.as_str());
            result.append("\n");
            result.append(file.summary.as_str());
            result.append("\n");
            CommandFunctionResult { result, is_success: true }
        },
        None => {
            result.append("File not found\n");
            CommandFunctionResult { result, is_success: false }
        },
    }
}

fn open(args: &Vec<String>, fs: &Vec<FS>) -> (res: CommandFunctionResult)
    ensures
        (res.result@, res.is_success) == CommandFunction::Open.spec_call(
            string_views(args@),
            files_view(fs@),
        ),
{
    let mut result = String::new();

    if args.len() < 1 {
        result.append("Usage: open <filename>\n");

        return CommandFunctionResult { result, is_success: false };
    }
    let filename = join_strings(args, "");

    match find_file_index(fs, filename.as_str()) {
        Some(k) => {
            result.append(fs[k].name.as_str());
            CommandFunctionResult { result, is_success: true }
        },
        None => {
            result.append("File not found\n");
            CommandFunctionResult { result, is_success: false }
        },
    }
}

/// The values of a sequence of command definitions.
pub open spec fn definitions_view(v: Seq<CommandDefinition>) -> Seq<SpecCommandDefinition> {
    v.map_values(|d: CommandDefinition| d@)
}

/// No two commands have the same name.
pub open spec fn distinct_names(e: Seq<SpecCommandDefinition>) -> bool {
    forall|i: int, j: int| 0 <= i < j < e.len() ==> e[i].name != e[j].name
}

/// The index of the first command from `i` on with the name.
pub open spec fn find_command(e: Seq<SpecCommandDefinition>, name: Seq<char>, i: int) -> Option<int>
    decreases e.len() - i,
{
    if 0 <= i < e.len() {
        if e[i].name == name {
            Some(i)
        } else {
            find_command(e, name, i + 1)
        }
    } else {
        None
    }
}

/// The command with the name.
pub open spec fn lookup(e: Seq<SpecCommandDefinition>, name: Seq<char>) -> Option<
    SpecCommandDefinition,
> {
    match find_command(e, name, 0) {
        Some(k) => Some(e[k]),
        None => None,
    }
}

/// The commands after registering `d`: it takes the place of the command
/// with its name, or comes last.
pub open spec fn register(e: Seq<SpecCommandDefinition>, d: SpecCommandDefinition) -> Seq<
    SpecCommandDefinition,
> {
    match find_command(e, d.name, 0) {
        Some(k) => e.update(k, d),
        None => e.push(d),
    }
}

/// What running a command gives: its output, shown or navigated to as the
/// command says when it succeeds, an error otherwise.
pub open spec fn execute(
    e: Seq<SpecCommandDefinition>,
    fs: Seq<SpecFS>,
    name: Seq<char>,
    args: Seq<Seq<char>>,
) -> Option<SpecWebEvaluatorResult> {
    match lookup(e, name) {
        None => None,
        Some(d) => {
            let (out, ok) = d.function.spec_call(args, fs);
            Some(
                if ok {
                    match d.action {
                        CmdResultActionType::Display => SpecWebEvaluatorResult::Display(out),
                        CmdResultActionType::Navigate => SpecWebEvaluatorResult::Navigate(out),
                    }
                } else {
                    SpecWebEvaluatorResult::Error(out)
                },
            )
        },
    }
}

/// The help text: a line with the name and description of each command.
pub open spec fn help_text(e: Seq<SpecCommandDefinition>) -> Seq<char>
    decreases e.len(),
{
    if e.len() == 0 {
        seq![]
    } else {
        help_text(e.drop_last()) + "  * "@ + e.last().name + " - "@ + e.last().description
            + "\n"@
    }
}

/// The commands of a new web registry, in the order they are registered.
pub open spec fn default_commands() -> Seq<SpecCommandDefinition> {
    seq![
        SpecCommandDefinition {
            name: "echo"@,
            description: "echo - display a line of text"@,
            function: CommandFunction::Echo,
            action: CmdResultActionType::Display,
        },
        SpecCommandDefinition {
            name: "id"@,
            description: "Print user and group information for each specified USER"@,
            function: CommandFunction::Id,
            action: CmdResultActionType::Display,
        },
        SpecCommandDefinition {
            name: "hostname"@,
            description: "Show or set the system's host name."@,
            function: CommandFunction::Hostname,
            action: CmdResultActionType::Display,
        },
        SpecCommandDefinition {
            name: "ls"@,
            description: "list directory contents"@,
            function: CommandFunction::Ls,
            action: CmdResultActionType::Display,
        },
        SpecCommandDefinition {
            name: "cat"@,
            description: "concatenate files and print on the standard output"@,
            function: CommandFunction::Cat,
            action: CmdResultActionType::Display,
        },
        SpecCommandDefinition {
            name: "open"@,
            description: "open a file"@,
            function: CommandFunction::Open,
            action: CmdResultActionType::Navigate,
        },
    ]
}

/// The registry of the web shell: its commands, no two with one name, and
/// the files they work on.
pub struct WebCommandRegistry {
    commands: Vec<CommandDefinition>,
    fs: Vec<FS>,
}

impl WebCommandRegistry {
    /// The registered commands, in order.
    pub closed spec fn entries(&self) -> Seq<SpecCommandDefinition> {
        definitions_view(self.commands@)
    }

    /// The files that the commands work on.
    pub closed spec fn files(&self) -> Seq<SpecFS> {
        files_view(self.fs@)
    }

    #[verifier::type_invariant]
    spec fn names_distinct(self) -> bool {
        distinct_names(definitions_view(self.commands@))
    }

    /// The index of the command with the name.
    fn find(&self, cmd_name: &str) -> (res: Option<usize>)
        ensures
            match res {
                Some(k) => find_command(self.entries(), cmd_name@, 0) == Some(k as int) && k
                    < self.commands@.len(),
                None => find_command(self.entries(), cmd_name@, 0) is None,
            },
    {
        let ghost e = self.entries();
        let mut i: usize = 0;
        while i < self.commands.len()
            invariant
                e == self.entries(),
                i <= self.commands.len(),
                find_command(e, cmd_name@, 0) == find_command(e, cmd_name@, i as int),
            decreases self.commands.len() - i,
        {
            if str_equal(self.commands[i].name.as_str(), cmd_name) {
                return Some(i);
            }
            i = i + 1;
        }
        None
    }
}

impl CommandRegistry for WebCommandRegistry {
    type State = Vec<FS>;

    open spec fn spec_command_names(&self) -> Seq<Seq<char>> {
        self.entries().map_values(|d: SpecCommandDefinition| d.name)
    }

    open spec fn spec_execute(&self, cmd_name: Seq<char>, args: Seq<Seq<char>>) -> Option<
        SpecWebEvaluatorResult,
    > {
        execute(self.entries(), self.files(), cmd_name, args)
    }

    open spec fn spec_description(&self, cmd_name: Seq<char>) -> Option<Seq<char>> {
        match lookup(self.entries(), cmd_name) {
            Some(d) => Some(d.description),
            None => None,
        }
    }

    open spec fn spec_help(&self) -> Seq<char> {
        help_text(self.entries())
    }

    /// A registry of the six commands over the files.
    fn new(state: Vec<FS>) -> (registry: Self)
        ensures
            registry.entries() == default_commands(),
            registry.files() == files_view(state@),
            distinct_names(registry.entries()),
    {
        let mut registry = WebCommandRegistry { commands: Vec::new(), fs: state };
        proof {
            assert(registry.entries() =~= Seq::<SpecCommandDefinition>::empty());
            reveal_strlit("echo");
            reveal_strlit("id");
            reveal_strlit("hostname");
            reveal_strlit("ls");
            reveal_strlit("cat");
            reveal_strlit("open");
        }

        proof {
            lemma_default_names_distinct();
            lemma_find_command(registry.entries(), default_commands()[0].name, 0);
            assert(find_command(registry.entries(), default_commands()[0].name, 0) is None);
        }
        registry.register_command(
            CommandDefinition {
                name: String::from_str("echo"),
                description: String::from_str("echo - display a line of text"),
                function: CommandFunction::Echo,
                action: CmdResultActionType::Display,
            },
        );
        proof {
            assert(registry.entries() =~= default_commands().take(1));
        }

        proof {
            lemma_default_names_distinct();
            lemma_find_command(registry.entries(), default_commands()[1].name, 0);
            assert(find_command(registry.entries(), default_commands()[1].name, 0) is None);
        }
        registry.register_command(
            CommandDefinition {
                name: String::from_str("id"),
                description: String::from_str(
                    "Print user and group information for each specified USER",
                ),
                function: CommandFunction::Id,
                action: CmdResultActionType::Display,
            },
        );
        proof {
            assert(registry.entries() =~= default_commands().take(2));
        }

        proof {
            lemma_default_names_distinct();
            lemma_find_command(registry.entries(), default_commands()[2].name, 0);
            assert(find_command(registry.entries(), default_commands()[2].name, 0) is None);
        }
        registry.register_command(
            CommandDefinition {
                name: String::from_str("hostname"),
                description: String::from_str("Show or set the system's host name."),
                function: CommandFunction::Hostname,
                action: CmdResultActionType::Display,
            },
        );
        proof {
            assert(registry.entries() =~= default_commands().take(3));
        }

        proof {
            lemma_default_names_distinct();
            lemma_find_command(registry.entries(), default_commands()[3].name, 0);
            assert(find_command(registry.entries(), default_commands()[3].name, 0) is None);
        }
        registry.register_command(
            CommandDefinition {
                name: String::from_str("ls"),
                description: String::from_str("list directory contents"),
                function: CommandFunction::Ls,
                action: CmdResultActionType::Display,
            },
        );
        proof {
            assert(registry.entries() =~= default_commands().take(4));
        }

        proof {
            lemma_default_names_distinct();
            lemma_find_command(registry.entries(), default_commands()[4].name, 0);
            assert(find_command(registry.entries(), default_commands()[4].name, 0) is None);
        }
        registry.register_command(
            CommandDefinition {
                name: String::from_str("cat"),
                description: String::from_str(
                    "concatenate files and print on the standard output",
                ),
                function: CommandFunction::Cat,
                action: CmdResultActionType::Display,
            },
        );
        proof {
            assert(registry.entries() =~= default_commands().take(5));
        }

        proof {
            lemma_default_names_distinct();
            lemma_find_command(registry.entries(), default_commands()[5].name, 0);
            assert(find_command(registry.entries(), default_commands()[5].name, 0) is None);
        }
        registry.register_command(
            CommandDefinition {
                name: String::from_str("open"),
                description: String::from_str("open a file"),
                function: CommandFunction::Open,
                action: CmdResultActionType::Navigate,
            },
        );
        proof {
            assert(registry.entries() =~= default_commands().take(6));
        }

        proof {
            assert(registry.entries() =~= default_commands());
        }
        registry
    }

    /// Registers a command, in place of the command with its name if there
    /// is one.
    fn register_command(&mut self, command_definition: CommandDefinition)
        ensures
            final(self).entries() == register(old(self).entries(), command_definition@),
            final(self).files() == old(self).files(),
            distinct_names(final(self).entries()),
    {
        proof {
            use_type_invariant(&*self);
        }
        let ghost e = self.entries();
        let ghost d = command_definition@;
        let found = self.find(command_definition.name.as_str());
        let mut commands = Vec::new();
        std::mem::swap(&mut commands, &mut self.commands);
        proof {
            assert(definitions_view(commands@) == e);
        }
        match found {
            Some(k) => {
                commands.set(k, command_definition);
                proof {
                    assert(definitions_view(commands@) =~= e.update(k as int, d));
                    lemma_register_keeps_distinct(e, d);
                }
            },
            None => {
                commands.push(command_definition);
                proof {
                    assert(definitions_view(commands@) =~= e.push(d));
                    lemma_register_keeps_distinct(e, d);
                }
            },
        }
        self.commands = commands;
    }

    /// Runs the command with the name on the arguments and the files.
    fn execute_command(&self, cmd_name: &str, args: Vec<String>) -> (res: Option<
        WebEvaluatorResult,
    >) {
        if let Some(k) = self.find(cmd_name) {
            let command = &self.commands[k];
            let o = command.function.call(&args, &self.fs);

            if o.is_success {
                match command.action {
                    CmdResultActionType::Display => Some(WebEvaluatorResult::Display(o.result)),
                    CmdResultActionType::Navigate => Some(WebEvaluatorResult::Navigate(o.result)),
                }
            } else {
                Some(WebEvaluatorResult::Error(o.result))
            }
        } else {
            None
        }
    }

    fn get_command_description(&self, cmd_name: &str) -> (res: Option<&str>) {
        if let Some(k) = self.find(cmd_name) {
            Some(self.commands[k].description.as_str())
        } else {
            None
        }
    }

    fn list_available_commands(&self) -> (res: Vec<&str>) {
        let mut names: Vec<&str> = Vec::new();
        let ghost e = self.entries();
        let mut i: usize = 0;
        while i < self.commands.len()
            invariant
                e == self.entries(),
                i <= self.commands.len(),
                str_views(names@) =~= e.map_values(|d: SpecCommandDefinition| d.name).take(
                    i as int,
                ),
            decreases self.commands.len() - i,
        {
            let ghost prev = str_views(names@);
            names.push(self.commands[i].name.as_str());
            proof {
                assert(str_views(names@) =~= prev.push(e[i as int].name));
                assert(e.map_values(|d: SpecCommandDefinition| d.name).take(i + 1)
                    =~= e.map_values(|d: SpecCommandDefinition| d.name).take(i as int).push(
                    e[i as int].name,
                ));
            }
            i = i + 1;
        }
        proof {
            assert(e.map_values(|d: SpecCommandDefinition| d.name).take(self.commands.len() as int)
                =~= e.map_values(|d: SpecCommandDefinition| d.name));
        }
        names
    }

    fn get_hostname() -> (res: String)
        ensures
            res@ == host_name(),
    {
        return String::from_str("blog");
    }

    fn get_user_name() -> (res: String)
        ensures
            res@ == user_name(),
    {
        return String::from_str("z9fr");
    }

    fn help(&self) -> (output: String) {
        let mut output = String::new();
        let ghost e = self.entries();
        let mut i: usize = 0;
        while i < self.commands.len()
            invariant
                e == self.entries(),
                i <= self.commands.len(),
                output@ == help_text(e.take(i as int)),
            decreases self.commands.len() - i,
        {
            proof {
                assert(e.take(i + 1).drop_last() =~= e.take(i as int));
            }
            let f = &self.commands[i];
            output.append("  * ");
            output.append(f.name.as_str());
            output.append(" - ");
            output.append(f.description.as_str());
            output.append("\n");
            i = i + 1;
        }
        proof {
            assert(e.take(self.commands.len() as int) =~= e);
        }
        output
    }
}

/// The commands of a new registry have distinct names.
pub proof fn lemma_default_names_distinct()
    ensures
        distinct_names(default_commands()),
{
    reveal_strlit("echo");
    reveal_strlit("id");
    reveal_strlit("hostname");
    reveal_strlit("ls");
    reveal_strlit("cat");
    reveal_strlit("open");
    let d = default_commands();
    assert(d[0].name[0] != d[5].name[0]);
    assert(d[1].name[0] != d[3].name[0]);
    assert forall|i: int, j: int| 0 <= i < j < d.len() implies d[i].name != d[j].name by {
        if i == 0 && j == 5 {
            assert(d[i].name[0] != d[j].name[0]);
        } else if i == 1 && j == 3 {
            assert(d[i].name[0] != d[j].name[0]);
        } else {
            assert(d[i].name.len() != d[j].name.len());
        }
    }
}

/// Registering a command keeps the names distinct.
pub proof fn lemma_register_keeps_distinct(e: Seq<SpecCommandDefinition>, d: SpecCommandDefinition)
    requires
        distinct_names(e),
    ensures
        distinct_names(register(e, d)),
{
    lemma_find_command(e, d.name, 0);
}

/// The first file found from `i` on has the name, and no file between `i`
/// and it has; when none is found, no file from `i` on has the name.
pub proof fn lemma_find_file(fs: Seq<SpecFS>, name: Seq<char>, i: int)
    requires
        0 <= i,
    ensures
        match find_file(fs, name, i) {
            Some(k) => i <= k < fs.len() && fs[k].name == name && forall|j: int|
                i <= j < k ==> #[trigger] fs[j].name != name,
            None => forall|j: int| i <= j < fs.len() ==> #[trigger] fs[j].name != name,
        },
    decreases fs.len() - i,
{
    if 0 <= i < fs.len() && fs[i].name != name {
        lemma_find_file(fs, name, i + 1);
    }
}

/// The first command found from `i` on has the name, and no command between
/// `i` and it has; when none is found, no command from `i` on has the name.
pub proof fn lemma_find_command(e: Seq<SpecCommandDefinition>, name: Seq<char>, i: int)
    requires
        0 <= i,
    ensures
        match find_command(e, name, i) {
            Some(k) => i <= k < e.len() && e[k].name == name && forall|j: int|
                i <= j < k ==> e[j].name != name,
            None => forall|j: int| i <= j < e.len() ==> e[j].name != name,
        },
    decreases e.len() - i,
{
    if 0 <= i < e.len() && e[i].name != name {
        lemma_find_command(e, name, i + 1);
    }
}

} // verus!
