//! Commands, the files they read, and the registry that runs them.
use vstd::prelude::*;

use crate::evaluator::option_result_view;
use crate::evaluator::CmdResultActionType;
use crate::evaluator::SpecWebEvaluatorResult;
use crate::evaluator::WebEvaluatorResult;
use crate::parser::str_views;
use crate::text::pad_right;
use crate::text::push_padded;
use crate::text::string_views;

verus! {

/// A file that the commands list and read.
#[derive(Debug, Clone)]
pub struct FS {
    pub name: String,
    pub created_at: String,
    pub owner: String,
    pub group: String,
    pub summary: String,
    pub title: String,
}

/// The mathematical value of an [`FS`].
pub struct SpecFS {
    pub name: Seq<char>,
    pub created_at: Seq<char>,
    pub owner: Seq<char>,
    pub group: Seq<char>,
    pub summary: Seq<char>,
    pub title: Seq<char>,
}

impl View for FS {
    type V = SpecFS;

    open spec fn view(&self) -> SpecFS {
        SpecFS {
            name: self.name@,
            created_at: self.created_at@,
            owner: self.owner@,
            group: self.group@,
            summary: self.summary@,
            title: self.title@,
        }
    }
}

/// The values of a sequence of files.
pub open spec fn files_view(v: Seq<FS>) -> Seq<SpecFS> {
    v.map_values(|f: FS| f@)
}

/// At most the first ten characters.
pub open spec fn first_ten(s: Seq<char>) -> Seq<char> {
    if s.len() <= 10 {
        s
    } else {
        s.subrange(0, 10)
    }
}

/// How a file is displayed in a long listing: permissions, owner, group,
/// date and name, each padded to its column.
pub open spec fn fs_display(f: SpecFS) -> Seq<char> {
    "-rw-r--r-- "@ + pad_right(f.owner, 10) + " "@ + pad_right(f.group, 20) + " "@ + pad_right(
        first_ten(f.created_at),
        10,
    ) + " "@ + pad_right(f.name, 10)
}

impl FS {
    /// The file as a long listing displays it.
    pub fn to_string(&self) -> (res: String)
        ensures
            res@ == fs_display(self@),
    {
        let mut out = String::from_str("-rw-r--r-- ");
        push_padded(&mut out, self.owner.as_str(), 10);
        out.append(" ");
        push_padded(&mut out, self.group.as_str(), 20);
        out.append(" ");
        let date = self.created_at.as_str();
        let n = date.unicode_len();
        let k = if n <= 10 {
            n
        } else {
            10
        };
        let day = date.substring_char(0, k);
        proof {
            assert(day@ =~= first_ten(self.created_at@));
        }
        push_padded(&mut out, day, 10);
        out.append(" ");
        push_padded(&mut out, self.name.as_str(), 10);
        out
    }
}

/// The commands that a registry can hold.
#[derive(Debug, Clone, Copy, PartialEq, Eq, Structural)]
pub enum CommandFunction {
    Echo,
    Id,
    Hostname,
    Ls,
    Cat,
    Open,
}

/// What a command gives: its output and whether it succeeded.
pub struct CommandFunctionResult {
    pub result: String,
    pub is_success: bool,
}

/// A command: its name, its description, what it runs and what its output
/// is for.
pub struct CommandDefinition {
    pub name: String,
    pub description: String,
    pub function: CommandFunction,
    pub action: CmdResultActionType,
}

/// The mathematical value of a [`CommandDefinition`].
pub struct SpecCommandDefinition {
    pub name: Seq<char>,
    pub description: Seq<char>,
    pub function: CommandFunction,
    pub action: CmdResultActionType,
}

impl View for CommandDefinition {
    type V = SpecCommandDefinition;

    open spec fn view(&self) -> SpecCommandDefinition {
        SpecCommandDefinition {
            name: self.name@,
            description: self.description@,
            function: self.function,
            action: self.action,
        }
    }
}

/// A set of named commands that statements can run.
pub trait CommandRegistry: Sized {
    type State;

    /// The names of the commands, in the order in which they are listed.
    spec fn spec_command_names(&self) -> Seq<Seq<char>>;

    /// What running a command with arguments gives, `None` where no command
    /// has that name.
    spec fn spec_execute(&self, cmd_name: Seq<char>, args: Seq<Seq<char>>) -> Option<
        SpecWebEvaluatorResult,
    >;

    /// The description of a command, `None` where no command has that name.
    spec fn spec_description(&self, cmd_name: Seq<char>) -> Option<Seq<char>>;

    /// The help text.
    spec fn spec_help(&self) -> Seq<char>;

    fn new(sate: Self::State) -> Self;

    fn register_command(&mut self, command_definition: CommandDefinition);

    fn execute_command(&self, cmd_name: &str, args: Vec<String>) -> (res: Option<
        WebEvaluatorResult,
    >)
        ensures
            option_result_view(res) == self.spec_execute(cmd_name@, string_views(args@)),
    ;

    fn get_command_description(&self, cmd_name: &str) -> (res: Option<&str>)
        ensures
            res is Some <==> self.spec_description(cmd_name@) is Some,
            res matches Some(d) ==> d@ == self.spec_description(cmd_name@)->0,
    ;

    fn list_available_commands(&self) -> (res: Vec<&str>)
        ensures
            str_views(res@) == self.spec_command_names(),
    ;

    fn get_hostname() -> String;

    fn get_user_name() -> String;

    fn help(&self) -> (res: String)
        ensures
            res@ == self.spec_help(),
    ;
}

} // verus!
