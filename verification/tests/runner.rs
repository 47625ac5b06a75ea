use artifact_executor::canonical::Arguments;
use artifact_executor::canonical::EnvironmentVariables;
use artifact_executor::canonical::FileIdentitiesManifest;
use artifact_executor::canonical::Outputs;
use artifact_executor::canonical::Program;
use artifact_executor::canonical::TaskInputs;
use artifact_executor::error::Error;
use artifact_executor::fs::Filesystem;
use artifact_executor::memory::MemoryFilesystem;
use artifact_executor::runner::Invocation;
use artifact_executor::runner::Runner;
use artifact_executor::runner::SimpleRunner;
use artifact_executor::runner::TimedRunner;
use artifact_executor::runner::TracedRunner;
use artifact_executor::runner::DEFAULT_TIME_UTILITY_PATH;
use artifact_executor::runner::TIME_FORMAT_SPECIFIER;
use artifact_executor::transport::ContentSha256;

struct AssertInputFileRunner {
    input_file_path: String,
}

impl AssertInputFileRunner {
    fn new(input_file_path: String) -> Self {
        Self { input_file_path }
    }
}

impl Runner for AssertInputFileRunner {
    fn run_task<F: Filesystem>(
        &mut self,
        _filesystem: &mut F,
        inputs: &TaskInputs,
        _stdout: &str,
        _stderr: &str,
    ) -> Result<(), Error> {
        for (input_file_path, _) in inputs.input_files() {
            if input_file_path == &self.input_file_path {
                return Ok(());
            }
        }
        Err(Error::Execution {
            program: format!("missing expected input: {:?}", self.input_file_path),
            status: None,
        })
    }
}

struct RecordingRunner {
    seen: Vec<(String, Vec<String>)>,
}

impl Runner for RecordingRunner {
    fn run_task<F: Filesystem>(
        &mut self,
        _filesystem: &mut F,
        inputs: &TaskInputs,
        _stdout: &str,
        _stderr: &str,
    ) -> Result<(), Error> {
        self.seen.push((inputs.program().clone(), inputs.arguments().clone()));
        Ok(())
    }
}

fn task(program: &str, arguments: &[&str]) -> TaskInputs {
    TaskInputs::new(
        EnvironmentVariables::new(vec![(String::from("K"), String::from("v"))]),
        Program::new(program),
        Arguments::new(arguments.iter().map(|a| String::from(*a)).collect()),
        FileIdentitiesManifest::empty(),
        Outputs::empty(),
    )
}

#[test]
fn test_time_forwards_input() {
    let mut filesystem = MemoryFilesystem::new(Some(String::from("/tmp/dir")));
    let bin_path = String::from("/tmp/dir/bin");
    filesystem.write_file(&bin_path, b"#!/usr/bin/env bash\n").expect("program");

    let mut runner =
        TimedRunner::try_new("/tmp/dir/time", AssertInputFileRunner::new(bin_path.clone()))
            .expect("timed runner");
    runner
        .run_task(
            &mut filesystem,
            &TaskInputs::new(
                EnvironmentVariables::empty(),
                Program::new(&bin_path),
                Arguments::empty(),
                FileIdentitiesManifest::empty(),
                Outputs::empty(),
            ),
            "/tmp/dir/stdout",
            "/tmp/dir/stderr",
        )
        .expect("run program");
}

#[test]
fn the_timed_runner_hands_on_the_time_utility() {
    let mut filesystem = MemoryFilesystem::new(Some(String::from("/w")));
    filesystem.write_file("bin", b"program").expect("program");
    let mut runner = TimedRunner::try_new("out/time", RecordingRunner { seen: vec![] })
        .expect("timed runner");
    runner.run_task(&mut filesystem, &task("bin", &["x", "y"]), "o", "e").expect("run");
    assert_eq!(
        vec![(
            String::from(DEFAULT_TIME_UTILITY_PATH),
            vec![
                String::from("-o"),
                String::from("out/time"),
                String::from("-f"),
                String::from(TIME_FORMAT_SPECIFIER),
                String::from("bin"),
                String::from("x"),
                String::from("y"),
            ]
        )],
        runner.delegate().seen
    );
    assert_eq!("/usr/bin/time", DEFAULT_TIME_UTILITY_PATH);
    assert_eq!(
        r#"{"wall_clock_seconds":%e,"user_mode_seconds":%U,"kernel_mode_seconds":%S}"#,
        TIME_FORMAT_SPECIFIER
    );
    let timed = runner.timed(&filesystem, &task("bin", &[])).expect("task");
    assert_eq!(
        &vec![(
            String::from("bin"),
            Some(ContentSha256::identify_content(b"program").expect("identity"))
        )],
        timed.input_files()
    );
    assert_eq!(&vec![(String::from("K"), String::from("v"))], timed.environment_variables());
}

#[test]
fn the_traced_runner_hands_on_the_tracer() {
    let mut filesystem = MemoryFilesystem::new(Some(String::from("/w")));
    filesystem.write_file("bin", b"program").expect("program");
    let mut runner = TracedRunner::try_new("fsatrace", "trace", RecordingRunner { seen: vec![] })
        .expect("traced runner");
    runner.run_task(&mut filesystem, &task("bin", &["x"]), "o", "e").expect("run");
    assert_eq!(
        vec![(
            String::from("fsatrace"),
            vec![
                String::from("rwmd"),
                String::from("trace"),
                String::from("--"),
                String::from("bin"),
                String::from("x"),
            ]
        )],
        runner.delegate().seen
    );
}

#[test]
fn a_program_that_cannot_be_read_cannot_be_wrapped() {
    let mut filesystem = MemoryFilesystem::new(Some(String::from("/w")));
    let mut runner = TimedRunner::try_new("time", RecordingRunner { seen: vec![] })
        .expect("timed runner");
    match runner.run_task(&mut filesystem, &task("bin", &[]), "o", "e") {
        Err(Error::Io { path, .. }) => assert_eq!("bin", path),
        other => panic!("expected a read error, got {:?}", other),
    }
    assert!(runner.delegate().seen.is_empty());
}

#[test]
fn a_program_is_started_from_the_working_directory() {
    let filesystem = MemoryFilesystem::new(Some(String::from("/w")));
    assert_eq!(
        Ok(Invocation {
            program: String::from("/w/bin/tool"),
            working_directory: String::from("/w"),
            environment_variables: vec![(String::from("K"), String::from("v"))],
            arguments: vec![String::from("a"), String::from("b")],
        }),
        SimpleRunner::invocation(&filesystem, &task("bin/tool", &["a", "b"]))
    );
    assert_eq!(
        Ok(String::from("/usr/bin/tool")),
        SimpleRunner::invocation(&filesystem, &task("/usr/bin/tool", &[]))
            .map(|invocation| invocation.program)
    );
    let nowhere = MemoryFilesystem::new(None);
    assert_eq!(
        Err(Error::Execution { program: String::from("bin/tool"), status: None }),
        SimpleRunner::invocation(&nowhere, &task("bin/tool", &[]))
    );
}

#[test]
fn a_program_succeeds_where_it_ends_with_zero() {
    let filesystem = MemoryFilesystem::new(Some(String::from("/w")));
    let invocation =
        SimpleRunner::invocation(&filesystem, &task("bin/tool", &[])).expect("an invocation");
    assert_eq!(Ok(()), artifact_executor::runner::conclude(&invocation, Some(0)));
    assert_eq!(
        Err(Error::Execution { program: String::from("/w/bin/tool"), status: Some(3) }),
        artifact_executor::runner::conclude(&invocation, Some(3))
    );
    assert_eq!(
        Err(Error::Execution { program: String::from("/w/bin/tool"), status: None }),
        artifact_executor::runner::conclude(&invocation, None)
    );
}
