use vstd::prelude::*;

use crate::context::{opt_view, ShellCtx};
use crate::error::ShellError;
use crate::text::{
    append_str, decimal, decimal_value, digits_of, lemma_digits_value_nonneg, join, join_spec, parse_i32, parse_usize,
    strings_view, text_eq,
};

verus! {

/// `exit [n]`.
#[derive(Debug)]
pub struct Exit;

/// `echo ...`.
#[derive(Debug)]
pub struct Echo;

/// `type name`.
#[derive(Debug)]
pub struct Describe;

/// `cd [dir]`.
#[derive(Debug)]
pub struct Cd;

/// `pwd`.
#[derive(Debug)]
pub struct Pwd;

/// `history [n] | -r P | -w P | -a P`.
#[derive(Debug)]
pub struct History;

/// A command that is no builtin: a program looked up on `PATH`.
#[derive(Debug)]
pub struct External {
    cmd: String,
}

impl View for External {
    type V = Seq<char>;

    closed spec fn view(&self) -> Seq<char> {
        self.cmd@
    }
}

impl External {
    pub fn new(cmd: String) -> (r: External)
        ensures
            r@ == cmd@,
    {
        External { cmd }
    }

    /// The program's name as the user wrote it.
    pub fn name(&self) -> (r: &str)
        ensures
            r@ == self@,
    {
        self.cmd.as_str()
    }
}

/// The command in the first position of a stage.
#[derive(Debug)]
pub enum Commands {
    Exit(Exit),
    Echo(Echo),
    Type(Describe),
    Cd(Cd),
    Pwd(Pwd),
    History(History),
    External(External),
}

/// The mathematical value of [`Commands`].
pub enum CommandView {
    Exit,
    Echo,
    Type,
    Cd,
    Pwd,
    History,
    External(Seq<char>),
}

impl View for Commands {
    type V = CommandView;

    open spec fn view(&self) -> CommandView {
        match self {
            Commands::Exit(_) => CommandView::Exit,
            Commands::Echo(_) => CommandView::Echo,
            Commands::Type(_) => CommandView::Type,
            Commands::Cd(_) => CommandView::Cd,
            Commands::Pwd(_) => CommandView::Pwd,
            Commands::History(_) => CommandView::History,
            Commands::External(e) => CommandView::External(e@),
        }
    }
}

/// The verbs the shell runs itself, in the order completion offers them.
pub open spec fn builtin_names() -> Seq<Seq<char>> {
    seq!["exit"@, "echo"@, "pwd"@, "cd"@, "type"@, "history"@]
}

/// The command a name stands for: a builtin verb, else an external program.
pub open spec fn command_of(name: Seq<char>) -> CommandView {
    if name == "exit"@ {
        CommandView::Exit
    } else if name == "echo"@ {
        CommandView::Echo
    } else if name == "type"@ {
        CommandView::Type
    } else if name == "cd"@ {
        CommandView::Cd
    } else if name == "pwd"@ {
        CommandView::Pwd
    } else if name == "history"@ {
        CommandView::History
    } else {
        CommandView::External(name)
    }
}

/// The name a command is called by.
pub open spec fn name_of(c: CommandView) -> Seq<char> {
    match c {
        CommandView::Exit => "exit"@,
        CommandView::Echo => "echo"@,
        CommandView::Type => "type"@,
        CommandView::Cd => "cd"@,
        CommandView::Pwd => "pwd"@,
        CommandView::History => "history"@,
        CommandView::External(n) => n,
    }
}

/// What `type` says of a command; `location` is where `PATH` has the
/// program, for an external one.
pub open spec fn description_of(c: CommandView, location: Option<Seq<char>>) -> Seq<char> {
    match c {
        CommandView::External(n) => match location {
            Some(p) => n + " is "@ + p,
            None => n + ": not found"@,
        },
        _ => name_of(c) + " is a shell builtin"@,
    }
}

impl Commands {
    /// The builtin verbs.
    pub fn all_commands() -> (r: Vec<String>)
        ensures
            strings_view(r@) == builtin_names(),
    {
        let r = vec![
            String::from_str("exit"),
            String::from_str("echo"),
            String::from_str("pwd"),
            String::from_str("cd"),
            String::from_str("type"),
            String::from_str("history"),
        ];
        assert(strings_view(r@) =~= builtin_names());
        r
    }

    /// The command that `cmd` names.
    pub fn from_cmd(cmd: &str) -> (r: Commands)
        ensures
            r@ == command_of(cmd@),
    {
        if text_eq(cmd, "exit") {
            Commands::Exit(Exit)
        } else if text_eq(cmd, "echo") {
            Commands::Echo(Echo)
        } else if text_eq(cmd, "type") {
            Commands::Type(Describe)
        } else if text_eq(cmd, "cd") {
            Commands::Cd(Cd)
        } else if text_eq(cmd, "pwd") {
            Commands::Pwd(Pwd)
        } else if text_eq(cmd, "history") {
            Commands::History(History)
        } else {
            Commands::External(External::new(String::from_str(cmd)))
        }
    }

    /// The name the command is called by.
    pub fn name(&self) -> (r: String)
        ensures
            r@ == name_of(self@),
    {
        match self {
            Commands::Exit(_) => String::from_str("exit"),
            Commands::Echo(_) => String::from_str("echo"),
            Commands::Type(_) => String::from_str("type"),
            Commands::Cd(_) => String::from_str("cd"),
            Commands::Pwd(_) => String::from_str("pwd"),
            Commands::History(_) => String::from_str("history"),
            Commands::External(e) => String::from_str(e.name()),
        }
    }

    /// Whether the shell runs this command itself.
    pub fn is_builtin(&self) -> (r: bool)
        ensures
            r == !(self@ is External),
    {
        !matches!(self, Commands::External(_))
    }

    /// What `type` prints for this command. `location` is where the program
    /// was found on `PATH`; it is not read for a builtin.
    pub fn type_description(&self, location: &Option<String>) -> (r: String)
        ensures
            r@ == description_of(
                self@,
                match location {
                    Some(p) => Some(p@),
                    None => None,
                },
            ),
    {
        let name = self.name();
        match self {
            Commands::External(_) => match location {
                Some(p) => name.concat(" is ").concat(p.as_str()),
                None => name.concat(": not found"),
            },
            _ => name.concat(" is a shell builtin"),
        }
    }
}

impl Echo {
    /// The arguments joined by single spaces.
    pub fn execute(&self, args: &Vec<String>) -> (r: Option<String>)
        ensures
            r is Some,
            r->Some_0@ == join_spec(strings_view(args@), " "@),
    {
        Some(join(args, " "))
    }
}

/// `r` is the execution error whose text is `msg`.
pub open spec fn fails_with<T>(r: Result<T, ShellError>, msg: Seq<char>) -> bool {
    r is Err && r->Err_0 is Execution && r->Err_0->Execution_0@ == msg
}

impl Pwd {
    /// The working directory, given as `cwd`; `pwd` takes no arguments.
    pub fn execute(&self, args: &Vec<String>, cwd: Option<String>) -> (r: Result<
        Option<String>,
        ShellError,
    >)
        ensures
            args@.len() > 0 ==> fails_with(r, "pwd: too many arguments"@),
            args@.len() == 0 && cwd is Some ==> r is Ok && opt_view(r->Ok_0) == opt_view(cwd),
            args@.len() == 0 && cwd is None ==> fails_with(r, "Could not find current directory"@),
    {
        if args.len() > 0 {
            return Err(ShellError::Execution(String::from_str("pwd: too many arguments")));
        }
        match cwd {
            Some(d) => Ok(Some(d)),
            None => Err(ShellError::Execution(String::from_str("Could not find current directory"))),
        }
    }
}

/// The status `exit` ends the shell with: its first argument when that is a
/// number, else 0.
pub open spec fn exit_code(args: Seq<Seq<char>>) -> i32 {
    if args.len() == 0 {
        0
    } else {
        match decimal_value(args[0], true) {
            Some(v) => if i32::MIN <= v <= i32::MAX {
                v as i32
            } else {
                0
            },
            None => 0,
        }
    }
}

impl Exit {
    /// The status to exit with.
    pub fn execute(&self, args: &Vec<String>) -> (r: i32)
        ensures
            r == exit_code(strings_view(args@)),
    {
        if args.len() == 0 {
            return 0;
        }
        match parse_i32(args[0].as_str()) {
            Some(v) => v,
            None => 0,
        }
    }
}

/// The directory `cd` moves to: its argument with a leading `~` standing for
/// `home`, or `home` without an argument. `None` when that needs a home and
/// there is none.
pub open spec fn cd_target(arg: Option<Seq<char>>, home: Option<Seq<char>>) -> Option<Seq<char>> {
    match arg {
        None => home,
        Some(a) => if a.len() > 0 && a[0] == '~' {
            match home {
                Some(h) => Some(h + a.subrange(1, a.len() as int)),
                None => None,
            }
        } else {
            Some(a)
        },
    }
}

impl Cd {
    /// Where to change directory to; `home` is the value of `HOME`.
    pub fn execute(&self, args: &Vec<String>, home: &Option<String>) -> (r: Result<
        String,
        ShellError,
    >)
        ensures
            args@.len() > 1 ==> fails_with(r, "cd: too many arguments"@),
            args@.len() <= 1 ==> {
                let arg = if args@.len() == 0 {
                    None
                } else {
                    Some(args@[0]@)
                };
                match cd_target(arg, opt_view(*home)) {
                    Some(t) => r is Ok && r->Ok_0@ == t,
                    None => fails_with(r, "cd: HOME not set"@),
                }
            },
    {
        if args.len() > 1 {
            return Err(ShellError::Execution(String::from_str("cd: too many arguments")));
        }
        if args.len() == 0 {
            return match home {
                Some(h) => Ok(h.clone()),
                None => Err(ShellError::Execution(String::from_str("cd: HOME not set"))),
            };
        }
        let a = args[0].as_str();
        let n = a.unicode_len();
        if n > 0 && a.get_char(0) == '~' {
            match home {
                Some(h) => {
                    let mut t = h.clone();
                    append_str(&mut t, a.substring_char(1, n));
                    Ok(t)
                },
                None => Err(ShellError::Execution(String::from_str("cd: HOME not set"))),
            }
        } else {
            Ok(args[0].clone())
        }
    }

    /// The error for a directory that cannot be entered.
    pub fn missing_dir(dir: &str) -> (r: ShellError)
        ensures
            r is Execution && r->Execution_0@ == "cd: "@ + dir@ + ": No such file or directory"@,
    {
        ShellError::Execution(String::from_str("cd: ").concat(dir).concat(": No such file or directory"))
    }
}

impl Describe {
    /// What `type name` prints; `location` is where `PATH` has `name`, when
    /// it is no builtin. Without a name there is nothing to print.
    pub fn execute(&self, args: &Vec<String>, location: &Option<String>) -> (r: Option<String>)
        ensures
            args@.len() == 0 ==> r is None,
            args@.len() > 0 ==> r is Some && r->Some_0@ == description_of(
                command_of(args@[0]@),
                opt_view(*location),
            ),
    {
        if args.len() == 0 {
            return None;
        }
        let c = Commands::from_cmd(args[0].as_str());
        Some(c.type_description(location))
    }
}

/// One line of the history listing: the entry's number from 1, and the entry.
pub open spec fn history_line(index: int, entry: Seq<char>) -> Seq<char> {
    "    "@ + digits_of((index + 1) as nat) + "  "@ + entry
}

/// The listing of the entries from `from` on, one line each.
pub open spec fn listing(entries: Seq<Seq<char>>, from: int) -> Seq<char> {
    join_spec(
        Seq::new((entries.len() - from) as nat, |k: int| history_line(from + k, entries[from + k])),
        "\n"@,
    )
}

/// What a `history` command asks for.
#[derive(Debug)]
pub enum HistoryRequest {
    /// Text to print.
    Print(String),
    /// Put the lines of this file before the entries.
    Read(String),
    /// Write the unsaved entries to this file, replacing it.
    Write(String),
    /// Append the unsaved entries to this file.
    Append(String),
}

/// What `history` with `args` asks for, over `entries`.
pub open spec fn history_request(args: Seq<Seq<char>>, entries: Seq<Seq<char>>) -> Result<
    HistoryRequestView,
    ShellError,
> {
    if args.len() == 0 {
        Ok(HistoryRequestView::Print(listing(entries, 0)))
    } else if args[0] == "-r"@ || args[0] == "-w"@ || args[0] == "-a"@ {
        if args.len() < 2 {
            Err(ShellError::MissingArg)
        } else if args[0] == "-r"@ {
            Ok(HistoryRequestView::Read(args[1]))
        } else if args[0] == "-w"@ {
            Ok(HistoryRequestView::Write(args[1]))
        } else {
            Ok(HistoryRequestView::Append(args[1]))
        }
    } else {
        match decimal_value(args[0], false) {
            Some(n) => if n <= usize::MAX {
                Ok(
                    HistoryRequestView::Print(
                        listing(
                            entries,
                            if n >= entries.len() {
                                0
                            } else {
                                entries.len() - n
                            },
                        ),
                    ),
                )
            } else {
                Ok(HistoryRequestView::Print(Seq::empty()))
            },
            None => Ok(HistoryRequestView::Print(Seq::empty())),
        }
    }
}

/// The mathematical value of a [`HistoryRequest`].
pub enum HistoryRequestView {
    Print(Seq<char>),
    Read(Seq<char>),
    Write(Seq<char>),
    Append(Seq<char>),
}

impl View for HistoryRequest {
    type V = HistoryRequestView;

    open spec fn view(&self) -> HistoryRequestView {
        match self {
            HistoryRequest::Print(t) => HistoryRequestView::Print(t@),
            HistoryRequest::Read(p) => HistoryRequestView::Read(p@),
            HistoryRequest::Write(p) => HistoryRequestView::Write(p@),
            HistoryRequest::Append(p) => HistoryRequestView::Append(p@),
        }
    }
}

/// The listing of `entries[from..]`.
fn list_entries(entries: &Vec<String>, from: usize) -> (r: String)
    requires
        from <= entries@.len(),
    ensures
        r@ == listing(strings_view(entries@), from as int),
{
    let ghost ev = strings_view(entries@);
    let mut lines: Vec<String> = Vec::new();
    let mut i = from;
    while i < entries.len()
        invariant
            from <= i <= entries@.len(),
            ev == strings_view(entries@),
            strings_view(lines@) == Seq::new(
                (i - from) as nat,
                |k: int| history_line(from + k, ev[from + k]),
            ),
        decreases entries@.len() - i,
    {
        let mut line = String::from_str("    ");
        let num = decimal(i + 1);
        append_str(&mut line, num.as_str());
        append_str(&mut line, "  ");
        append_str(&mut line, entries[i].as_str());
        let ghost before = strings_view(lines@);
        lines.push(line);
        assert(strings_view(lines@) =~= Seq::new(
            (i + 1 - from) as nat,
            |k: int| history_line(from + k, ev[from + k]),
        )) by {
            assert(strings_view(lines@) =~= before.push(line@));
        }
        i = i + 1;
    }
    join(&lines, "\n")
}

impl History {
    /// What `history args` asks for: no argument lists every entry, a number
    /// `n` the last `n`, and `-r`, `-w`, `-a` with a path the file operations.
    pub fn execute(&self, args: &Vec<String>, ctx: &ShellCtx) -> (r: Result<
        HistoryRequest,
        ShellError,
    >)
        ensures
            match r {
                Ok(q) => history_request(strings_view(args@), ctx@.entries) == Ok::<
                    HistoryRequestView,
                    ShellError,
                >(q@),
                Err(e) => history_request(strings_view(args@), ctx@.entries) == Err::<
                    HistoryRequestView,
                    ShellError,
                >(e),
            },
    {
        let entries = ctx.get_history();
        if args.len() == 0 {
            return Ok(HistoryRequest::Print(list_entries(entries, 0)));
        }
        let a = args[0].as_str();
        assert(strings_view(args@)[0] == a@);
        if args.len() >= 2 {
            assert(strings_view(args@)[1] == args@[1]@);
        }
        let is_r = text_eq(a, "-r");
        let is_w = text_eq(a, "-w");
        let is_a = text_eq(a, "-a");
        if is_r || is_w || is_a {
            if args.len() < 2 {
                return Err(ShellError::MissingArg);
            }
            let p = args[1].clone();
            return if is_r {
                Ok(HistoryRequest::Read(p))
            } else if is_w {
                Ok(HistoryRequest::Write(p))
            } else {
                Ok(HistoryRequest::Append(p))
            };
        }
        match parse_usize(a) {
            Some(n) => {
                let len = entries.len();
                let from = if n >= len {
                    0
                } else {
                    len - n
                };
                proof {
                    let d = a@;
                    if d.len() > 0 && d[0] == '+' {
                        lemma_digits_value_nonneg(d.subrange(1, d.len() as int));
                    } else {
                        lemma_digits_value_nonneg(d);
                    }
                }
                Ok(HistoryRequest::Print(list_entries(entries, from)))
            },
            None => {
                Ok(HistoryRequest::Print(String::new()))
            },
        }
    }
}

} // verus!
