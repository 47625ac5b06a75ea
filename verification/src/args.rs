//! The command line.

use crate::context::explain;
use crate::context::explained;
use crate::error::Error;
use crate::error::ErrorView;
use crate::error::Item;
use crate::text::lines_of;
use crate::text::str_equal;
use crate::text::text_lines;
use vstd::prelude::*;

verus! {

/// The log level where none is given.
pub const DEFAULT_LOG_LEVEL: &'static str = "warn";

/// The cache directory where none is given.
pub const DEFAULT_CACHE_DIRECTORY: &'static str = "./ae-cache";

/// The log level where none is given.
pub fn default_log_level() -> (r: String)
    ensures
        r@ == DEFAULT_LOG_LEVEL@,
{
    DEFAULT_LOG_LEVEL.to_owned()
}

/// The cache directory where none is given.
pub fn default_cache_directory() -> (r: String)
    ensures
        r@ == DEFAULT_CACHE_DIRECTORY@,
{
    DEFAULT_CACHE_DIRECTORY.to_owned()
}

/// What the command line says: execute programs when inputs have changed.
#[derive(Debug, PartialEq, Eq)]
pub struct Args {
    /// The log level.
    pub log_level: String,
    /// The directory where data of earlier executions is stored.
    pub cache_directory: String,
    pub command: Command,
}

/// What the program is to do.
#[derive(Debug, PartialEq, Eq)]
pub enum Command {
    Execute(Execute),
}

/// Execute a program.
#[derive(Debug, PartialEq, Eq)]
pub struct Execute {
    /// The file where the program is stored.
    pub program: String,
    /// The file where the environment is stored, a `key=value` pair per
    /// line.
    pub environment: String,
    /// The file where the description of the inputs is stored.
    pub inputs: String,
    /// The file where the description of the outputs is stored.
    pub outputs: String,
}

/// Why no `Args` came of a command line.
#[derive(Debug, PartialEq, Eq)]
pub struct EarlyExit {
    /// What to show the user.
    pub output: String,
    /// `Ok` where the command line asked for help, `Err` where it is not
    /// accepted.
    pub status: Result<(), ()>,
}

/// A command line as contracts speak of it.
pub struct ArgsView {
    pub log_level: Seq<char>,
    pub cache_directory: Seq<char>,
    pub program: Seq<char>,
    pub environment: Seq<char>,
    pub inputs: Seq<char>,
    pub outputs: Seq<char>,
}

impl View for Args {
    type V = ArgsView;

    open spec fn view(&self) -> ArgsView {
        match self.command {
            Command::Execute(execute) => ArgsView {
                log_level: self.log_level@,
                cache_directory: self.cache_directory@,
                program: execute.program@,
                environment: execute.environment@,
                inputs: execute.inputs@,
                outputs: execute.outputs@,
            },
        }
    }
}

/// What a command line comes to.
pub enum Outcome {
    /// It is accepted, and says this.
    Accepted(ArgsView),
    /// It asks for help.
    Help,
    /// It is not accepted.
    Refused,
}

/// The options read so far; an option that was not given is `None`.
pub struct Options {
    pub log_level: Option<Seq<char>>,
    pub cache_directory: Option<Seq<char>>,
    pub program: Option<Seq<char>>,
    pub environment: Option<Seq<char>>,
    pub inputs: Option<Seq<char>>,
    pub outputs: Option<Seq<char>>,
}

/// The text of each argument.
pub open spec fn texts(args: Seq<&str>) -> Seq<Seq<char>> {
    Seq::new(args.len(), |i: int| args[i]@)
}

/// Whether an argument asks for help.
pub open spec fn asks_help(arg: Seq<char>) -> bool {
    arg == "--help"@ || arg == "help"@
}

/// Whether an argument has the form of an option.
pub open spec fn is_option(arg: Seq<char>) -> bool {
    arg.len() > 0 && arg[0] == '-'
}

/// What the arguments of `execute` from position `i` on come to. Each of
/// the four options must be given once, with a value; nothing else is
/// accepted but a request for help, and after that no option.
pub open spec fn execute_outcome(args: Seq<Seq<char>>, i: int, given: Options, help: bool) -> Outcome
    decreases args.len() - i,
{
    if i < 0 || i >= args.len() {
        if help {
            Outcome::Help
        } else if given.program is Some && given.environment is Some && given.inputs is Some
            && given.outputs is Some {
            Outcome::Accepted(
                ArgsView {
                    log_level: match given.log_level {
                        Some(level) => level,
                        None => DEFAULT_LOG_LEVEL@,
                    },
                    cache_directory: match given.cache_directory {
                        Some(directory) => directory,
                        None => DEFAULT_CACHE_DIRECTORY@,
                    },
                    program: given.program->0,
                    environment: given.environment->0,
                    inputs: given.inputs->0,
                    outputs: given.outputs->0,
                },
            )
        } else {
            Outcome::Refused
        }
    } else if asks_help(args[i]) {
        execute_outcome(args, i + 1, given, true)
    } else if !is_option(args[i]) || help || i + 1 >= args.len() {
        Outcome::Refused
    } else if args[i] == "--program"@ && given.program is None {
        execute_outcome(args, i + 2, Options { program: Some(args[i + 1]), ..given }, help)
    } else if args[i] == "--environment"@ && given.environment is None {
        execute_outcome(args, i + 2, Options { environment: Some(args[i + 1]), ..given }, help)
    } else if args[i] == "--inputs"@ && given.inputs is None {
        execute_outcome(args, i + 2, Options { inputs: Some(args[i + 1]), ..given }, help)
    } else if args[i] == "--outputs"@ && given.outputs is None {
        execute_outcome(args, i + 2, Options { outputs: Some(args[i + 1]), ..given }, help)
    } else {
        Outcome::Refused
    }
}

/// What the arguments from position `i` on come to. Before the command
/// `execute` the log level and the cache directory may be given, each
/// once, with a value; a request for help may stand anywhere, but no
/// option may follow it. The command must be there.
pub open spec fn outcome(args: Seq<Seq<char>>, i: int, given: Options, help: bool) -> Outcome
    decreases args.len() - i,
{
    if i < 0 || i >= args.len() {
        if help {
            Outcome::Help
        } else {
            Outcome::Refused
        }
    } else if asks_help(args[i]) {
        outcome(args, i + 1, given, true)
    } else if !is_option(args[i]) {
        if args[i] != "execute"@ {
            Outcome::Refused
        } else if help {
            Outcome::Help
        } else {
            execute_outcome(args, i + 1, given, false)
        }
    } else if help || i + 1 >= args.len() {
        Outcome::Refused
    } else if args[i] == "--log-level"@ && given.log_level is None {
        outcome(args, i + 2, Options { log_level: Some(args[i + 1]), ..given }, help)
    } else if args[i] == "--cache-directory"@ && given.cache_directory is None {
        outcome(args, i + 2, Options { cache_directory: Some(args[i + 1]), ..given }, help)
    } else {
        Outcome::Refused
    }
}

/// No option read yet.
pub open spec fn no_options() -> Options {
    Options {
        log_level: None,
        cache_directory: None,
        program: None,
        environment: None,
        inputs: None,
        outputs: None,
    }
}

/// Whether what was returned is what the command line comes to.
pub open spec fn agrees(r: Result<Args, EarlyExit>, outcome: Outcome) -> bool {
    match r {
        Ok(args) => outcome == Outcome::Accepted(args@),
        Err(exit) => if exit.status is Ok {
            outcome == Outcome::Help
        } else {
            outcome == Outcome::Refused
        },
    }
}

/// Whether an argument has the form of an option.
fn has_option_form(arg: &str) -> (r: bool)
    ensures
        r == is_option(arg@),
{
    !arg.is_empty() && arg.get_char(0) == '-'
}

/// An exit for a command line that is not accepted.
fn refusal(message: &str) -> (r: EarlyExit)
    ensures
        r.status is Err,
{
    EarlyExit { output: message.to_owned(), status: Err(()) }
}

/// An exit for a command line that asks for help.
fn help_text() -> (r: EarlyExit)
    ensures
        r.status is Ok,
{
    EarlyExit {
        output: "Usage: [--log-level <log-level>] [--cache-directory <cache-directory>] execute --program <program> --environment <environment> --inputs <inputs> --outputs <outputs>".to_owned(),
        status: Ok(()),
    }
}

/// The text of an option's value, if it was given.
pub open spec fn given_text(value: Option<String>) -> Option<Seq<char>> {
    match value {
        Some(text) => Some(text@),
        None => None,
    }
}

impl Execute {
    /// Reads the arguments of `execute` from position `start` on.
    fn parse(
        args: &[&str],
        start: usize,
        log_level: Option<String>,
        cache_directory: Option<String>,
    ) -> (r: Result<Args, EarlyExit>)
        requires
            start <= args.len(),
        ensures
            agrees(
                r,
                execute_outcome(
                    texts(args@),
                    start as int,
                    Options {
                        log_level: given_text(log_level),
                        cache_directory: given_text(cache_directory),
                        ..no_options()
                    },
                    false,
                ),
            ),
    {
        let ghost all = texts(args@);
        let ghost first = Options {
            log_level: given_text(log_level),
            cache_directory: given_text(cache_directory),
            ..no_options()
        };
        let mut program: Option<String> = None;
        let mut environment: Option<String> = None;
        let mut inputs: Option<String> = None;
        let mut outputs: Option<String> = None;
        let mut help: bool = false;
        let mut i: usize = start;
        while i < args.len()
            invariant
                start <= i <= args.len(),
                all == texts(args@),
                first == (Options {
                    log_level: given_text(log_level),
                    cache_directory: given_text(cache_directory),
                    ..no_options()
                }),
                execute_outcome(all, start as int, first, false) == execute_outcome(
                    all,
                    i as int,
                    Options {
                        program: given_text(program),
                        environment: given_text(environment),
                        inputs: given_text(inputs),
                        outputs: given_text(outputs),
                        ..first
                    },
                    help,
                ),
            decreases args.len() - i,
        {
            let arg = args[i];
            assert(all[i as int] == arg@);
            if str_equal(arg, "--help") || str_equal(arg, "help") {
                help = true;
                i += 1;
                continue ;
            }
            if !has_option_form(arg) {
                return Err(refusal("Unrecognized argument"));
            }
            if help {
                return Err(refusal("Trailing arguments are not allowed after `help`."));
            }
            if i + 1 >= args.len() {
                return Err(refusal("No value provided for option"));
            }
            let value = args[i + 1];
            assert(all[i + 1] == value@);
            if str_equal(arg, "--program") && program.is_none() {
                program = Some(value.to_owned());
            } else if str_equal(arg, "--environment") && environment.is_none() {
                environment = Some(value.to_owned());
            } else if str_equal(arg, "--inputs") && inputs.is_none() {
                inputs = Some(value.to_owned());
            } else if str_equal(arg, "--outputs") && outputs.is_none() {
                outputs = Some(value.to_owned());
            } else {
                return Err(refusal("Unrecognized argument or duplicate values provided"));
            }
            i += 2;
        }
        if help {
            return Err(help_text());
        }
        match (program, environment, inputs, outputs) {
            (Some(program), Some(environment), Some(inputs), Some(outputs)) => Ok(
                Args {
                    log_level: match log_level {
                        Some(level) => level,
                        None => default_log_level(),
                    },
                    cache_directory: match cache_directory {
                        Some(directory) => directory,
                        None => default_cache_directory(),
                    },
                    command: Command::Execute(Execute { program, environment, inputs, outputs }),
                },
            ),
            _ => Err(refusal("Required options not provided")),
        }
    }
}

impl Args {
    /// Reads a command line. `command_name` is how the program was called;
    /// `args` are the arguments behind it.
    pub fn from_args(command_name: &[&str], args: &[&str]) -> (r: Result<Self, EarlyExit>)
        ensures
            agrees(r, outcome(texts(args@), 0, no_options(), false)),
    {
        let ghost all = texts(args@);
        let mut log_level: Option<String> = None;
        let mut cache_directory: Option<String> = None;
        let mut help: bool = false;
        let mut i: usize = 0;
        while i < args.len()
            invariant
                0 <= i <= args.len(),
                all == texts(args@),
                outcome(all, 0, no_options(), false) == outcome(
                    all,
                    i as int,
                    Options {
                        log_level: given_text(log_level),
                        cache_directory: given_text(cache_directory),
                        ..no_options()
                    },
                    help,
                ),
            decreases args.len() - i,
        {
            let arg = args[i];
            assert(all[i as int] == arg@);
            if str_equal(arg, "--help") || str_equal(arg, "help") {
                help = true;
                i += 1;
                continue ;
            }
            if !has_option_form(arg) {
                if !str_equal(arg, "execute") {
                    return Err(refusal("Unrecognized argument"));
                }
                if help {
                    return Err(help_text());
                }
                return Execute::parse(args, i + 1, log_level, cache_directory);
            }
            if help {
                return Err(refusal("Trailing arguments are not allowed after `help`."));
            }
            if i + 1 >= args.len() {
                return Err(refusal("No value provided for option"));
            }
            let value = args[i + 1];
            assert(all[i + 1] == value@);
            if str_equal(arg, "--log-level") && log_level.is_none() {
                log_level = Some(value.to_owned());
            } else if str_equal(arg, "--cache-directory") && cache_directory.is_none() {
                cache_directory = Some(value.to_owned());
            } else {
                return Err(refusal("Unrecognized argument or duplicate values provided"));
            }
            i += 2;
        }
        if help {
            Err(help_text())
        } else {
            Err(refusal("One of the following subcommands must be present: execute"))
        }
    }
}

/// Where the first `=` of a line stands, from position `from` on.
pub open spec fn first_equals(line: Seq<char>, from: int) -> Option<int>
    decreases line.len() - from,
{
    if from < 0 || from >= line.len() {
        None
    } else if line[from] == '=' {
        Some(from)
    } else {
        first_equals(line, from + 1)
    }
}

/// Whether a variable of this name was stated.
pub open spec fn names(variables: Seq<(Seq<char>, Seq<char>)>, name: Seq<char>) -> bool {
    exists|i: int| 0 <= i < variables.len() && (#[trigger] variables[i]).0 == name
}

/// The variables that the lines state, behind those stated so far. A line
/// states a variable as its name, `=`, and its value; the first `=` parts
/// them, so that a value may hold one. Empty lines state nothing. A line
/// without `=` is an error, and so is a name that is stated twice.
pub open spec fn stated(lines: Seq<Seq<char>>, sofar: Seq<(Seq<char>, Seq<char>)>) -> Result<
    Seq<(Seq<char>, Seq<char>)>,
    ErrorView,
>
    decreases lines.len(),
{
    if lines.len() == 0 {
        Ok(sofar)
    } else if lines[0].len() == 0 {
        stated(lines.drop_first(), sofar)
    } else {
        match first_equals(lines[0], 0) {
            None => Err(ErrorView::Serialization),
            Some(at) => if names(sofar, lines[0].take(at)) {
                Err(
                    ErrorView::Duplicate(
                        Item::EnvironmentVariables,
                        explained::<(String, String)>(
                            sofar.push((lines[0].take(at), lines[0].skip(at + 1))),
                        ),
                    ),
                )
            } else {
                stated(
                    lines.drop_first(),
                    sofar.push((lines[0].take(at), lines[0].skip(at + 1))),
                )
            },
        }
    }
}

/// The variables that an environment file states.
pub open spec fn environment_stated(bytes: Seq<u8>) -> Result<
    Seq<(Seq<char>, Seq<char>)>,
    ErrorView,
> {
    match text_lines(bytes) {
        None => Err(ErrorView::Serialization),
        Some(lines) => stated(lines, Seq::empty()),
    }
}

/// The variables that the lines of an environment file state, in the
/// order of the lines.
pub fn environment_from_lines(lines: &Vec<String>) -> (r: Result<Vec<(String, String)>, Error>)
    ensures
        match r {
            Ok(variables) => stated(lines.deep_view(), Seq::empty()) == Ok::<
                Seq<(Seq<char>, Seq<char>)>,
                ErrorView,
            >(variables.deep_view()),
            Err(e) => stated(lines.deep_view(), Seq::empty()) == Err::<
                Seq<(Seq<char>, Seq<char>)>,
                ErrorView,
            >(e@),
        },
{
    let ghost all = lines.deep_view();
    let mut variables: Vec<(String, String)> = Vec::new();
    let mut i: usize = 0;
    assert(all.skip(0) =~= all);
    assert(variables.deep_view() =~= Seq::<(Seq<char>, Seq<char>)>::empty());
    while i < lines.len()
        invariant
            0 <= i <= lines.len(),
            all == lines.deep_view(),
            stated(all, Seq::empty()) == stated(all.skip(i as int), variables.deep_view()),
        decreases lines.len() - i,
    {
        assert(all.skip(i as int)[0] == lines[i as int]@);
        assert(all.skip(i as int).drop_first() =~= all.skip(i + 1));
        let line = lines[i].as_str();
        let n = line.unicode_len();
        if n > 0 {
            let mut at: usize = 0;
            while at < n && line.get_char(at) != '='
                invariant
                    0 <= at <= n,
                    n == line@.len(),
                    first_equals(line@, 0) == first_equals(line@, at as int),
                decreases n - at,
            {
                at += 1;
            }
            if at == n {
                return Err(Error::Serialization);
            }
            let name = line.substring_char(0, at);
            let value = line.substring_char(at + 1, n);
            assert(name@ =~= line@.take(at as int));
            assert(value@ =~= line@.skip(at + 1));
            let ghost known = variables.deep_view();
            let mut twice: bool = false;
            let mut k: usize = 0;
            while k < variables.len()
                invariant_except_break
                    !twice,
                invariant
                    0 <= k <= variables.len(),
                    known == variables.deep_view(),
                    forall|j: int| 0 <= j < k ==> (#[trigger] known[j]).0 != name@,
                ensures
                    twice == names(known, name@),
                decreases variables.len() - k,
            {
                assert(known[k as int] == variables[k as int].deep_view());
                if str_equal(variables[k].0.as_str(), name) {
                    assert(names(known, name@));
                    twice = true;
                    break ;
                }
                k += 1;
            }
            if twice {
                variables.push((name.to_owned(), value.to_owned()));
                assert(variables.deep_view() =~= known.push((name@, value@)));
                return Err(Error::Duplicate(Item::EnvironmentVariables, explain(&variables)));
            }
            variables.push((name.to_owned(), value.to_owned()));
            assert(variables.deep_view() =~= known.push((name@, value@)));
        }
        i += 1;
    }
    Ok(variables)
}

/// The variables that an environment file states, in the order of its
/// lines. A file that is no text is refused.
pub fn environment_from_bytes(bytes: &Vec<u8>) -> (r: Result<Vec<(String, String)>, Error>)
    ensures
        match r {
            Ok(variables) => environment_stated(bytes@) == Ok::<
                Seq<(Seq<char>, Seq<char>)>,
                ErrorView,
            >(variables.deep_view()),
            Err(e) => environment_stated(bytes@) == Err::<Seq<(Seq<char>, Seq<char>)>, ErrorView>(
                e@,
            ),
        },
{
    match lines_of(bytes) {
        None => Err(Error::Serialization),
        Some(lines) => environment_from_lines(&lines),
    }
}

} // verus!
