use artifact_executor::args::Args;
use artifact_executor::args::environment_from_bytes;
use artifact_executor::args::environment_from_lines;
use artifact_executor::args::Command;
use artifact_executor::error::Error;
use artifact_executor::error::Item;

/// The result with an order error stripped of its diff, for the tests that
/// are about the kind of the error.
fn kind<T>(r: Result<T, Error>) -> Result<T, Error> {
    r.map_err(|e| match e {
        Error::Duplicate(item, _) => Error::Duplicate(item, String::new()),
        Error::NotSorted(item, _) => Error::NotSorted(item, String::new()),
        other => other,
    })
}

const OK_EXECUTE_ARGS: [&'static str; 8] = [
    "--program",
    "./exe",
    "--environment",
    "./env",
    "--inputs",
    "./in",
    "--outputs",
    "./out",
];

#[test]
fn test_defaults() {
    let cmd = ["test-artifact-executor"];
    let mut args: Vec<&str> = vec!["execute"];
    args.extend(OK_EXECUTE_ARGS);
    let _args = Args::from_args(&cmd, &args).expect("args with defaults to work");
}

#[test]
fn test_log_level() {
    let cmd = ["test-artifact-executor"];
    for log_level in ["trace", "debug", "info", "warn", "error"] {
        let mut args: Vec<&str> = vec!["--log-level", log_level, "execute"];
        args.extend(OK_EXECUTE_ARGS);
        let _args = Args::from_args(&cmd, &args).expect("args with valid log-level to work");
    }
}

#[test]
fn test_cache_dir() {
    let cmd = ["test-artifact-executor"];
    let mut args: Vec<&str> = vec!["--cache-directory", "/custom/cache/dir", "execute"];
    args.extend(OK_EXECUTE_ARGS);
    let _args = Args::from_args(&cmd, &args).expect("args with custom cache directory to work");
}

#[test]
fn test_log_level_and_cache_dir() {
    let cmd = ["test-artifact-executor"];
    for log_level in ["trace", "debug", "info", "warn", "error"] {
        let mut args: Vec<&str> = vec![
            "--cache-directory",
            "/custom/cache/dir",
            "--log-level",
            log_level,
            "execute",
        ];
        args.extend(OK_EXECUTE_ARGS);
        let _args = Args::from_args(&cmd, &args).expect("args with valid log-level to work");
    }
}

#[test]
fn test_missing_program() {
    let cmd = ["test-artifact-executor"];
    let args = vec![
        "execute",
        // Missing: `--program [program]`.
        "--environment",
        "./env",
        "--inputs",
        "./in",
        "--outputs",
        "./out",
    ];
    assert!(Args::from_args(&cmd, &args).is_err());
}

#[test]
fn test_missing_env() {
    let cmd = ["test-artifact-executor"];
    let args = vec![
        "execute",
        "--program",
        "./exe",
        // Missing: `--environment [environment]`.
        "--inputs",
        "./in",
        "--outputs",
        "./out",
    ];

    assert!(Args::from_args(&cmd, &args).is_err());
}

#[test]
fn test_missing_inputs() {
    let cmd = ["test-artifact-executor"];
    let args = vec![
        "execute",
        "--program",
        "./exe",
        "--environment",
        "./env",
        // Missing: `--inputs [inputs]`.
        "--outputs",
        "./out",
    ];
    assert!(Args::from_args(&cmd, &args).is_err());
}

#[test]
fn test_missing_outputs() {
    let cmd = ["test-artifact-executor"];
    let args = vec![
        "execute",
        "--program",
        "./exe",
        "--environment",
        "./env",
        "--inputs",
        "./in",
        // Missing: `--outputs [out]`.
    ];
    assert!(Args::from_args(&cmd, &args).is_err());
}

#[test]
fn defaults_are_filled_in() {
    let cmd = ["test-artifact-executor"];
    let mut args: Vec<&str> = vec!["execute"];
    args.extend(OK_EXECUTE_ARGS);
    let parsed = Args::from_args(&cmd, &args).expect("accepted");
    assert_eq!("warn", parsed.log_level);
    assert_eq!("./ae-cache", parsed.cache_directory);
    let Command::Execute(execute) = parsed.command;
    assert_eq!("./exe", execute.program);
    assert_eq!("./env", execute.environment);
    assert_eq!("./in", execute.inputs);
    assert_eq!("./out", execute.outputs);
}

#[test]
fn options_are_taken_in_any_order() {
    let cmd = ["test-artifact-executor"];
    let args = vec![
        "--log-level",
        "debug",
        "execute",
        "--outputs",
        "o",
        "--inputs",
        "i",
        "--environment",
        "e",
        "--program",
        "p",
    ];
    let parsed = Args::from_args(&cmd, &args).expect("accepted");
    assert_eq!("debug", parsed.log_level);
    let Command::Execute(execute) = parsed.command;
    assert_eq!("p", execute.program);
    assert_eq!("e", execute.environment);
    assert_eq!("i", execute.inputs);
    assert_eq!("o", execute.outputs);
}

#[test]
fn help_exits_early_with_success() {
    let cmd = ["test-artifact-executor"];
    let exit = Args::from_args(&cmd, &["--help"]).expect_err("help is no command line");
    assert!(exit.status.is_ok());
    let exit = Args::from_args(&cmd, &["help", "execute"]).expect_err("help is no command line");
    assert!(exit.status.is_ok());
    let exit = Args::from_args(&cmd, &["execute", "--help"]).expect_err("help is no command line");
    assert!(exit.status.is_ok());
}

#[test]
fn a_command_line_that_is_not_accepted_fails() {
    let cmd = ["test-artifact-executor"];
    for args in [
        vec![],
        vec!["run"],
        vec!["--log-level"],
        vec!["--log-level", "info"],
        vec!["--log-level", "info", "--log-level", "warn", "execute"],
        vec!["--verbose", "yes", "execute"],
        vec!["execute", "--program", "a", "--program", "b"],
        vec!["execute", "--program"],
        vec!["execute", "stray"],
        vec!["help", "--log-level", "info"],
    ] {
        let exit = Args::from_args(&cmd, &args).expect_err("refused");
        assert!(exit.status.is_err());
    }
}

#[test]
fn an_environment_file_states_a_variable_per_line() {
    let stated = environment_from_bytes(&b"B=2\n\nA=x=y\nC=\n=v\n".to_vec()).expect("stated");
    assert_eq!(
        vec![
            (String::from("B"), String::from("2")),
            (String::from("A"), String::from("x=y")),
            (String::from("C"), String::from("")),
            (String::from(""), String::from("v")),
        ],
        stated
    );
    assert_eq!(Ok(vec![]), environment_from_bytes(&b"".to_vec()));
    assert_eq!(Ok(vec![]), environment_from_bytes(&b"\n\n".to_vec()));
    assert_eq!(
        Err(Error::Duplicate(Item::EnvironmentVariables, String::new())),
        kind(environment_from_bytes(&b"A=1\nB=2\nA=3\n".to_vec()))
    );
    assert_eq!(Err(Error::Serialization), environment_from_bytes(&b"A=1\nB\n".to_vec()));
    assert_eq!(Err(Error::Serialization), environment_from_bytes(&vec![0x41, 0x3D, 0x80]));
    assert_eq!(
        Ok(vec![(String::from("K"), String::from("v"))]),
        environment_from_lines(&vec![String::new(), String::from("K=v")])
    );
}

#[test]
fn the_defaults_are_the_documented_ones() {
    assert_eq!("warn", artifact_executor::args::default_log_level());
    assert_eq!("./ae-cache", artifact_executor::args::default_cache_directory());
    assert_eq!("warn", artifact_executor::args::DEFAULT_LOG_LEVEL);
}
