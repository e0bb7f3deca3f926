//! The command line: which command the arguments ask for, or what is wrong with
//! them.
use vstd::prelude::*;
use crate::text::{concat, owned, str_eq, strings_view};

verus! {

/// A command of the package manager.
pub enum Command {
    Help,
    Install(String),
    Remove(String),
    Info(String),
    List,
    Update,
    Add { path: String, is_draft: bool, output_dir: Option<String> },
    RepoUpdate,
    Bundle(String),
}

pub enum CommandView {
    Help,
    Install(Seq<char>),
    Remove(Seq<char>),
    Info(Seq<char>),
    List,
    Update,
    Add { path: Seq<char>, is_draft: bool, output_dir: Option<Seq<char>> },
    RepoUpdate,
    Bundle(Seq<char>),
}

impl View for Command {
    type V = CommandView;

    open spec fn view(&self) -> CommandView {
        match self {
            Command::Help => CommandView::Help,
            Command::Install(p) => CommandView::Install(p@),
            Command::Remove(p) => CommandView::Remove(p@),
            Command::Info(p) => CommandView::Info(p@),
            Command::List => CommandView::List,
            Command::Update => CommandView::Update,
            Command::Add { path, is_draft, output_dir } => CommandView::Add {
                path: path@,
                is_draft: *is_draft,
                output_dir: match output_dir {
                    Some(o) => Some(o@),
                    None => None,
                },
            },
            Command::RepoUpdate => CommandView::RepoUpdate,
            Command::Bundle(b) => CommandView::Bundle(b@),
        }
    }
}

pub open spec fn parsed_view(r: Result<Command, String>) -> Result<CommandView, Seq<char>> {
    match r {
        Ok(c) => Ok(c@),
        Err(e) => Err(e@),
    }
}

/// The first position at or after `i` holding `--output` or `-o`.
pub open spec fn output_flag(args: Seq<Seq<char>>, i: int) -> Option<int>
    decreases args.len() - i,
{
    if i < 0 || i >= args.len() {
        None
    } else if args[i] == "--output"@ || args[i] == "-o"@ {
        Some(i)
    } else {
        output_flag(args, i + 1)
    }
}

/// `add [<path>] [--draft] [--output <dir>]`: the project path is the third
/// argument unless that starts with `-` or is missing (then `.`); `--draft` anywhere
/// asks for a debug build; the argument after the first `--output` or `-o` names the
/// output directory.
pub open spec fn add_command(args: Seq<Seq<char>>) -> CommandView {
    CommandView::Add {
        path: if args.len() >= 3 && !(args[2].len() > 0 && args[2][0] == '-') {
            args[2]
        } else {
            "."@
        },
        is_draft: exists|i: int| 0 <= i < args.len() && args[i] == "--draft"@,
        output_dir: match output_flag(args, 0) {
            Some(i) => if i + 1 < args.len() {
                Some(args[i + 1])
            } else {
                None
            },
            None => None,
        },
    }
}

/// The command that the arguments (the program name first) ask for, or the message
/// that refuses them.
pub open spec fn spec_command(args: Seq<Seq<char>>) -> Result<CommandView, Seq<char>> {
    if args.len() < 2 {
        Ok(CommandView::Help)
    } else {
        let c = args[1];
        if c == "help"@ || c == "--help"@ || c == "-h"@ {
            Ok(CommandView::Help)
        } else if c == "install"@ {
            if args.len() < 3 {
                Err("install what? give me a package name"@)
            } else {
                Ok(CommandView::Install(args[2]))
            }
        } else if c == "remove"@ || c == "rm"@ {
            if args.len() < 3 {
                Err("remove what?"@)
            } else {
                Ok(CommandView::Remove(args[2]))
            }
        } else if c == "info"@ {
            if args.len() < 3 {
                Err("info about what?"@)
            } else {
                Ok(CommandView::Info(args[2]))
            }
        } else if c == "list"@ || c == "ls"@ {
            Ok(CommandView::List)
        } else if c == "update"@ {
            Ok(CommandView::Update)
        } else if c == "add"@ {
            Ok(add_command(args))
        } else if c == "repo"@ {
            if args.len() < 3 {
                Err("repo what? try 'pls repo update'"@)
            } else if args[2] == "update"@ {
                Ok(CommandView::RepoUpdate)
            } else {
                Err("unknown repo command: "@ + args[2])
            }
        } else if c == "bundle"@ {
            if args.len() < 3 {
                Err("bundle what? try 'pls bundle gaming'"@)
            } else {
                Ok(CommandView::Bundle(args[2]))
            }
        } else {
            Err("nah '"@ + c + "' is not a thing, try 'pls help'"@)
        }
    }
}


/// Every command the help text documents is recognized, each alias the same as its
/// command: no command or `help`, `--help`, `-h` is help; `list` and `ls` list;
/// `remove` and `rm` remove; `install`, `info`, `bundle` take the argument after
/// them; `update`, `repo update` and `add` are recognized.
pub proof fn lemma_documented_commands(args: Seq<Seq<char>>)
    ensures
        args.len() < 2 ==> spec_command(args) == Ok::<CommandView, Seq<char>>(CommandView::Help),
        args.len() >= 2 && (args[1] == "help"@ || args[1] == "--help"@ || args[1] == "-h"@)
            ==> spec_command(args) == Ok::<CommandView, Seq<char>>(CommandView::Help),
        args.len() >= 2 && (args[1] == "list"@ || args[1] == "ls"@) ==> spec_command(args) == Ok::<
            CommandView,
            Seq<char>,
        >(CommandView::List),
        args.len() >= 2 && args[1] == "update"@ ==> spec_command(args) == Ok::<CommandView, Seq<char>>(
            CommandView::Update,
        ),
        args.len() >= 3 && (args[1] == "remove"@ || args[1] == "rm"@) ==> spec_command(args) == Ok::<
            CommandView,
            Seq<char>,
        >(CommandView::Remove(args[2])),
        args.len() >= 3 && args[1] == "install"@ ==> spec_command(args) == Ok::<CommandView, Seq<char>>(
            CommandView::Install(args[2]),
        ),
        args.len() >= 3 && args[1] == "info"@ ==> spec_command(args) == Ok::<CommandView, Seq<char>>(
            CommandView::Info(args[2]),
        ),
        args.len() >= 3 && args[1] == "bundle"@ ==> spec_command(args) == Ok::<CommandView, Seq<char>>(
            CommandView::Bundle(args[2]),
        ),
        args.len() >= 3 && args[1] == "repo"@ && args[2] == "update"@ ==> spec_command(args) == Ok::<
            CommandView,
            Seq<char>,
        >(CommandView::RepoUpdate),
        args.len() >= 2 && args[1] == "add"@ ==> spec_command(args) matches Ok(CommandView::Add { .. }),
{
    reveal_strlit("help");
    reveal_strlit("--help");
    reveal_strlit("-h");
    reveal_strlit("install");
    reveal_strlit("remove");
    reveal_strlit("rm");
    reveal_strlit("info");
    reveal_strlit("list");
    reveal_strlit("ls");
    reveal_strlit("update");
    reveal_strlit("add");
    reveal_strlit("repo");
    reveal_strlit("bundle");
    let firsts = seq![
        "help"@[0], "--help"@[0], "-h"@[0], "install"@[0], "remove"@[0], "rm"@[0], "info"@[0],
        "list"@[0], "ls"@[0], "update"@[0], "add"@[0], "repo"@[0],
    ];
    assert(firsts == seq!['h', '-', '-', 'i', 'r', 'r', 'i', 'l', 'l', 'u', 'a', 'r']);
    assert("install"@.len() == 7 && "info"@.len() == 4);
    assert("remove"@.len() == 6 && "rm"@.len() == 2 && "repo"@.len() == 4);
}

/// Whether any argument is `--draft`.
fn has_draft_flag(args: &Vec<String>) -> (r: bool)
    ensures
        r == exists|i: int| 0 <= i < args@.len() && strings_view(args@)[i] == "--draft"@,
{
    let mut i: usize = 0;
    while i < args.len()
        invariant
            i <= args@.len(),
            forall|j: int| 0 <= j < i ==> strings_view(args@)[j] != "--draft"@,
        decreases args@.len() - i,
    {
        if str_eq(args[i].as_str(), "--draft") {
            assert(strings_view(args@)[i as int] == "--draft"@);
            return true;
        }
        i = i + 1;
    }
    false
}

/// The output directory named after the first `--output` or `-o`.
fn output_dir_arg(args: &Vec<String>) -> (r: Option<String>)
    ensures
        match output_flag(strings_view(args@), 0) {
            Some(i) => if i + 1 < args@.len() {
                r matches Some(o) && o@ == strings_view(args@)[i + 1]
            } else {
                r is None
            },
            None => r is None,
        },
{
    let ghost sargs = strings_view(args@);
    let mut i: usize = 0;
    while i < args.len()
        invariant
            i <= args@.len(),
            sargs == strings_view(args@),
            output_flag(sargs, 0) == output_flag(sargs, i as int),
        decreases args@.len() - i,
    {
        if str_eq(args[i].as_str(), "--output") || str_eq(args[i].as_str(), "-o") {
            if i + 1 < args.len() {
                return Some(args[i + 1].clone());
            } else {
                return None;
            }
        }
        i = i + 1;
    }
    None
}

/// Reads the command line (the program name first).
pub fn parse_command(args: &Vec<String>) -> (r: Result<Command, String>)
    ensures
        parsed_view(r) == spec_command(strings_view(args@)),
{
    let ghost sargs = strings_view(args@);
    if args.len() < 2 {
        return Ok(Command::Help);
    }
    let c = args[1].as_str();
    assert(sargs[1] == c@);
    let has_target = args.len() >= 3;
    if has_target {
        assert(sargs[2] == args@[2]@);
    }
    if str_eq(c, "help") || str_eq(c, "--help") || str_eq(c, "-h") {
        Ok(Command::Help)
    } else if str_eq(c, "install") {
        if !has_target {
            Err(owned("install what? give me a package name"))
        } else {
            Ok(Command::Install(args[2].clone()))
        }
    } else if str_eq(c, "remove") || str_eq(c, "rm") {
        if !has_target {
            Err(owned("remove what?"))
        } else {
            Ok(Command::Remove(args[2].clone()))
        }
    } else if str_eq(c, "info") {
        if !has_target {
            Err(owned("info about what?"))
        } else {
            Ok(Command::Info(args[2].clone()))
        }
    } else if str_eq(c, "list") || str_eq(c, "ls") {
        Ok(Command::List)
    } else if str_eq(c, "update") {
        Ok(Command::Update)
    } else if str_eq(c, "add") {
        let path = if has_target && !args[2].as_str().is_empty() && args[2].as_str().get_char(0) == '-' {
            owned(".")
        } else if has_target {
            args[2].clone()
        } else {
            owned(".")
        };
        let is_draft = has_draft_flag(args);
        let output_dir = output_dir_arg(args);
        Ok(Command::Add { path, is_draft, output_dir })
    } else if str_eq(c, "repo") {
        if !has_target {
            Err(owned("repo what? try 'pls repo update'"))
        } else if str_eq(args[2].as_str(), "update") {
            Ok(Command::RepoUpdate)
        } else {
            Err(concat("unknown repo command: ", args[2].as_str()))
        }
    } else if str_eq(c, "bundle") {
        if !has_target {
            Err(owned("bundle what? try 'pls bundle gaming'"))
        } else {
            Ok(Command::Bundle(args[2].clone()))
        }
    } else {
        let mut msg = concat("nah '", c);
        msg.append("' is not a thing, try 'pls help'");
        Err(msg)
    }
}

} // verus!
