//! Running the program of a task.

use crate::canonical::TaskInputs;
use crate::canonical::TaskInputsView;
use crate::discovery::io_error;
use crate::error::Error;
use crate::error::ErrorView;
use crate::error::Operation;
use crate::fs::Filesystem;
use crate::identity::sha256;
use crate::path::is_absolute;
use crate::path::join;
use crate::path::joined;
use crate::path::path_is_absolute;
use crate::sorted::put;
use crate::transport::Sha256;
use vstd::prelude::*;

verus! {

/// Something that runs the program of a task to its end.
///
/// The program runs in the working directory of the filesystem, with
/// exactly the environment and the arguments of the task and with no
/// input; what it prints goes to the files at `stdout` and `stderr`. A
/// program that does not start, or does not report success, is an error.
pub trait Runner {
    fn run_task<F: Filesystem>(
        &mut self,
        filesystem: &mut F,
        inputs: &TaskInputs,
        stdout: &str,
        stderr: &str,
    ) -> Result<(), Error>;
}

/// How a program is started.
#[derive(Debug, PartialEq, Eq)]
pub struct Invocation {
    /// The program, from the root.
    pub program: String,
    /// The directory that it runs in.
    pub working_directory: String,
    /// Its whole environment.
    pub environment_variables: Vec<(String, String)>,
    /// Its arguments, in order.
    pub arguments: Vec<String>,
}

/// How a program is started, as contracts speak of it.
pub struct InvocationView {
    pub program: Seq<char>,
    pub working_directory: Seq<char>,
    pub environment_variables: Seq<(Seq<char>, Seq<char>)>,
    pub arguments: Seq<Seq<char>>,
}

impl DeepView for Invocation {
    type V = InvocationView;

    open spec fn deep_view(&self) -> InvocationView {
        InvocationView {
            program: self.program@,
            working_directory: self.working_directory@,
            environment_variables: self.environment_variables.deep_view(),
            arguments: self.arguments.deep_view(),
        }
    }
}

/// The runner that starts the program as it is.
#[derive(Clone, Copy, Debug)]
pub struct SimpleRunner;

/// How the program of a task is started from a working directory: the
/// program as it is where its path is absolute, else as seen from the
/// working directory; in that directory; with the environment and the
/// arguments of the task.
pub open spec fn invocation_of(working_directory: Seq<char>, inputs: TaskInputsView) -> InvocationView {
    InvocationView {
        program: if is_absolute(inputs.program) {
            inputs.program
        } else {
            joined(working_directory, inputs.program)
        },
        working_directory,
        environment_variables: inputs.environment_variables,
        arguments: inputs.arguments,
    }
}

impl SimpleRunner {
    /// How the program of the task is started. A filesystem without a
    /// working directory cannot run a program.
    pub fn invocation<F: Filesystem>(filesystem: &F, inputs: &TaskInputs) -> (r: Result<
        Invocation,
        Error,
    >)
        ensures
            match r {
                Ok(invocation) => filesystem.root() matches Some(directory) && invocation.deep_view()
                    == invocation_of(directory, inputs@),
                Err(e) => filesystem.root() is None && e@ == (ErrorView::Execution {
                    program: inputs@.program,
                    status: None,
                }),
            },
    {
        let working_directory = match filesystem.working_directory() {
            Some(directory) => directory,
            None => {
                return Err(Error::Execution { program: inputs.program().clone(), status: None });
            },
        };
        let program = if path_is_absolute(inputs.program().as_str()) {
            inputs.program().clone()
        } else {
            join(working_directory.as_str(), inputs.program().as_str())
        };
        Ok(
            Invocation {
                program,
                working_directory,
                environment_variables: crate::canonical::copy_pairs(inputs.environment_variables()),
                arguments: crate::canonical::copy_texts(inputs.arguments()),
            },
        )
    }
}

/// What the end of a program means: success where it ended with the status
/// zero; else an error with the status, if it ended with one.
pub open spec fn concluded(program: Seq<char>, status: Option<i32>) -> Result<(), ErrorView> {
    if status == Some(0i32) {
        Ok(())
    } else {
        Err(ErrorView::Execution { program, status })
    }
}

/// What the end of the program that was started means.
pub fn conclude(invocation: &Invocation, status: Option<i32>) -> (r: Result<(), Error>)
    ensures
        match r {
            Ok(_) => concluded(invocation.program@, status) is Ok,
            Err(e) => concluded(invocation.program@, status) == Err::<(), ErrorView>(e@),
        },
{
    match status {
        Some(code) => {
            if code == 0 {
                return Ok(());
            }
        },
        None => {},
    }
    Err(Error::Execution { program: invocation.program.clone(), status })
}

/// The inputs of a task that runs a tool on the program of another: the
/// tool is the program, its own arguments come first, then the old
/// program and its arguments; and the old program is an input file.
pub open spec fn wrapped<F: Filesystem>(
    fs: F,
    inputs: TaskInputsView,
    tool: Seq<char>,
    tool_arguments: Seq<Seq<char>>,
) -> Result<TaskInputsView, ErrorView> {
    match fs.content(inputs.program) {
        Err(failure) => Err(io_error(Operation::Read, inputs.program, failure)),
        Ok(bytes) => Ok(
            TaskInputsView {
                program: tool,
                arguments: tool_arguments + (seq![inputs.program] + inputs.arguments),
                input_files: put::<(String, Option<Sha256>)>(
                    inputs.input_files,
                    (inputs.program, Some(sha256(bytes))),
                ),
                ..inputs
            },
        ),
    }
}

/// The inputs of a task that runs a tool on the program of another.
pub fn wrap<F: Filesystem>(
    filesystem: &F,
    inputs: &TaskInputs,
    tool: &str,
    tool_arguments: Vec<String>,
) -> (r: Result<TaskInputs, Error>)
    ensures
        match r {
            Ok(task) => wrapped(*filesystem, inputs@, tool@, tool_arguments.deep_view()) == Ok::<
                TaskInputsView,
                ErrorView,
            >(task@),
            Err(e) => wrapped(*filesystem, inputs@, tool@, tool_arguments.deep_view()) == Err::<
                TaskInputsView,
                ErrorView,
            >(e@),
        },
{
    match inputs.clone().wrap_program(filesystem, tool) {
        Err(e) => Err(e),
        Ok(task) => Ok(task.prepend_arguments(tool_arguments)),
    }
}

/// The path of the utility that times a program.
pub const DEFAULT_TIME_UTILITY_PATH: &'static str = "/usr/bin/time";

/// What the timing utility is asked to write: one JSON object with the
/// seconds that passed, and the seconds spent in user and in kernel mode.
pub const TIME_FORMAT_SPECIFIER: &'static str =
    "{\"wall_clock_seconds\":%e,\"user_mode_seconds\":%U,\"kernel_mode_seconds\":%S}";

/// A runner that has another runner time the program.
pub struct TimedRunner<R: Runner> {
    time_program_path: String,
    time_output_path: String,
    delegate: R,
}

/// The arguments of the timing utility before the program: where to write,
/// and what.
pub open spec fn time_arguments(time_output_path: Seq<char>) -> Seq<Seq<char>> {
    seq!["-o"@, time_output_path, "-f"@, TIME_FORMAT_SPECIFIER@]
}

impl<R: Runner> TimedRunner<R> {
    /// Where the utility writes the times.
    pub closed spec fn output_path(&self) -> Seq<char> {
        self.time_output_path@
    }

    /// The path of the utility.
    pub closed spec fn program_path(&self) -> Seq<char> {
        self.time_program_path@
    }

    /// The other runner.
    pub closed spec fn inner(&self) -> R {
        self.delegate
    }

    /// A runner that has `delegate` run the timing utility on the program,
    /// with the times written to `time_output_path`.
    pub fn try_new(time_output_path: &str, delegate: R) -> (r: Result<Self, Error>)
        ensures
            r matches Ok(runner) && runner.output_path() == time_output_path@
                && runner.program_path() == DEFAULT_TIME_UTILITY_PATH@ && runner.inner()
                == delegate,
    {
        Ok(
            Self {
                time_program_path: DEFAULT_TIME_UTILITY_PATH.to_owned(),
                time_output_path: time_output_path.to_owned(),
                delegate,
            },
        )
    }

    /// The task that is handed to the other runner.
    pub fn timed<F: Filesystem>(&self, filesystem: &F, inputs: &TaskInputs) -> (r: Result<
        TaskInputs,
        Error,
    >)
        ensures
            match r {
                Ok(task) => wrapped(
                    *filesystem,
                    inputs@,
                    self.program_path(),
                    time_arguments(self.output_path()),
                ) == Ok::<TaskInputsView, ErrorView>(task@),
                Err(e) => wrapped(
                    *filesystem,
                    inputs@,
                    self.program_path(),
                    time_arguments(self.output_path()),
                ) == Err::<TaskInputsView, ErrorView>(e@),
            },
    {
        let mut arguments: Vec<String> = Vec::new();
        arguments.push("-o".to_owned());
        arguments.push(self.time_output_path.clone());
        arguments.push("-f".to_owned());
        arguments.push(TIME_FORMAT_SPECIFIER.to_owned());
        assert(arguments.deep_view() =~= time_arguments(self.output_path()));
        wrap(filesystem, inputs, self.time_program_path.as_str(), arguments)
    }

    /// The other runner.
    pub fn delegate(&self) -> (r: &R)
        ensures
            *r == self.inner(),
    {
        &self.delegate
    }
}

impl<R: Runner> Runner for TimedRunner<R> {
    /// Has the other runner run the timing utility on the program. Where
    /// the program cannot be read, nothing is run.
    fn run_task<F: Filesystem>(
        &mut self,
        filesystem: &mut F,
        inputs: &TaskInputs,
        stdout: &str,
        stderr: &str,
    ) -> (r: Result<(), Error>)
        ensures
            wrapped(
                *old(filesystem),
                inputs@,
                old(self).program_path(),
                time_arguments(old(self).output_path()),
            ) matches Err(e) ==> (r matches Err(returned) && returned@ == e) && *final(filesystem)
                == *old(filesystem) && *final(self) == *old(self),
            final(self).program_path() == old(self).program_path(),
            final(self).output_path() == old(self).output_path(),
    {
        let task = match self.timed(filesystem, inputs) {
            Ok(task) => task,
            Err(e) => {
                return Err(e);
            },
        };
        self.delegate.run_task(filesystem, &task, stdout, stderr)
    }
}

/// A runner that has another runner trace what the program does to
/// files.
pub struct TracedRunner<R: Runner> {
    fsatrace_path: String,
    fsatrace_output_path: String,
    delegate: R,
}

/// The arguments of the tracer before the program: what to trace (reads,
/// writes, moves and deletions), where to write, and the end of its own
/// arguments.
pub open spec fn trace_arguments(trace_output_path: Seq<char>) -> Seq<Seq<char>> {
    seq!["rwmd"@, trace_output_path, "--"@]
}

impl<R: Runner> TracedRunner<R> {
    /// Where the tracer writes.
    pub closed spec fn output_path(&self) -> Seq<char> {
        self.fsatrace_output_path@
    }

    /// The path of the tracer.
    pub closed spec fn program_path(&self) -> Seq<char> {
        self.fsatrace_path@
    }

    /// The other runner.
    pub closed spec fn inner(&self) -> R {
        self.delegate
    }

    /// A runner that has `delegate` run the tracer at `fsatrace_path` on
    /// the program, with the trace written to `fsatrace_output_path`.
    pub fn try_new(fsatrace_path: &str, fsatrace_output_path: &str, delegate: R) -> (r: Result<
        Self,
        Error,
    >)
        ensures
            r matches Ok(runner) && runner.output_path() == fsatrace_output_path@
                && runner.program_path() == fsatrace_path@ && runner.inner() == delegate,
    {
        Ok(
            Self {
                fsatrace_path: fsatrace_path.to_owned(),
                fsatrace_output_path: fsatrace_output_path.to_owned(),
                delegate,
            },
        )
    }

    /// The task that is handed to the other runner.
    pub fn traced<F: Filesystem>(&self, filesystem: &F, inputs: &TaskInputs) -> (r: Result<
        TaskInputs,
        Error,
    >)
        ensures
            match r {
                Ok(task) => wrapped(
                    *filesystem,
                    inputs@,
                    self.program_path(),
                    trace_arguments(self.output_path()),
                ) == Ok::<TaskInputsView, ErrorView>(task@),
                Err(e) => wrapped(
                    *filesystem,
                    inputs@,
                    self.program_path(),
                    trace_arguments(self.output_path()),
                ) == Err::<TaskInputsView, ErrorView>(e@),
            },
    {
        let mut arguments: Vec<String> = Vec::new();
        arguments.push("rwmd".to_owned());
        arguments.push(self.fsatrace_output_path.clone());
        arguments.push("--".to_owned());
        assert(arguments.deep_view() =~= trace_arguments(self.output_path()));
        wrap(filesystem, inputs, self.fsatrace_path.as_str(), arguments)
    }

    /// The other runner.
    pub fn delegate(&self) -> (r: &R)
        ensures
            *r == self.inner(),
    {
        &self.delegate
    }
}

impl<R: Runner> Runner for TracedRunner<R> {
    /// Has the other runner run the tracer on the program. Where the
    /// program cannot be read, nothing is run.
    fn run_task<F: Filesystem>(
        &mut self,
        filesystem: &mut F,
        inputs: &TaskInputs,
        stdout: &str,
        stderr: &str,
    ) -> (r: Result<(), Error>)
        ensures
            wrapped(
                *old(filesystem),
                inputs@,
                old(self).program_path(),
                trace_arguments(old(self).output_path()),
            ) matches Err(e) ==> (r matches Err(returned) && returned@ == e) && *final(filesystem)
                == *old(filesystem) && *final(self) == *old(self),
            final(self).program_path() == old(self).program_path(),
            final(self).output_path() == old(self).output_path(),
    {
        let task = match self.traced(filesystem, inputs) {
            Ok(task) => task,
            Err(e) => {
                return Err(e);
            },
        };
        self.delegate.run_task(filesystem, &task, stdout, stderr)
    }
}

} // verus!
