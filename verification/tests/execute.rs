use artifact_executor::blob::Serialization;
use artifact_executor::cache::Cache;
use artifact_executor::cache::WriteOnDropIndex;
use artifact_executor::canonical::Arguments;
use artifact_executor::canonical::EnvironmentVariables;
use artifact_executor::canonical::FileIdentitiesManifest;
use artifact_executor::canonical::FilesManifest;
use artifact_executor::canonical::Outputs;
use artifact_executor::canonical::Program;
use artifact_executor::canonical::System;
use artifact_executor::canonical::TaskInputs;
use artifact_executor::canonical::TaskOutputs;
use artifact_executor::error::Error;
use artifact_executor::error::Failure;
use artifact_executor::error::Operation;
use artifact_executor::execute::fingerprint_of;
use artifact_executor::execute::CacheDirectoryTaskExecutor;
use artifact_executor::execute::TaskExecutor;
use artifact_executor::fs::Filesystem;
use artifact_executor::memory::MemoryFilesystem;
use artifact_executor::runner::Runner;
use artifact_executor::transport::Arguments as ArgumentsTransport;
use artifact_executor::transport::ContentSha256;
use artifact_executor::transport::EnvironmentVariables as EnvironmentVariablesTransport;
use artifact_executor::transport::FileIdentitiesManifest as FileIdentitiesManifestTransport;
use artifact_executor::transport::IdentityScheme;
use artifact_executor::transport::Match;
use artifact_executor::transport::MatchTransform;
use artifact_executor::transport::Metadata as MetadataTransport;
use artifact_executor::transport::Outputs as OutputsTransport;
use artifact_executor::transport::Program as ProgramTransport;
use artifact_executor::transport::Sha256;
use artifact_executor::transport::System as SystemTransport;
use artifact_executor::transport::TaskInput;
use artifact_executor::transport::TaskOutput;
use serde_json::Value;

struct Json;

fn texts(items: &[String]) -> Value {
    Value::Array(items.iter().map(|item| Value::String(item.clone())).collect())
}

fn read_texts(value: &Value) -> Result<Vec<String>, Error> {
    value
        .as_array()
        .ok_or(Error::Serialization)?
        .iter()
        .map(|item| item.as_str().map(String::from).ok_or(Error::Serialization))
        .collect()
}

fn identities(manifest: &FileIdentitiesManifestTransport) -> Value {
    Value::Array(
        manifest
            .identities
            .iter()
            .map(|(path, identity)| {
                Value::Array(vec![
                    Value::String(path.clone()),
                    match identity {
                        Some(identity) => Value::String(identity.to_string()),
                        None => Value::Null,
                    },
                ])
            })
            .collect(),
    )
}

fn read_identities(value: &Value) -> Result<FileIdentitiesManifestTransport, Error> {
    let mut identities = vec![];
    for entry in value.as_array().ok_or(Error::Serialization)? {
        let pair = entry.as_array().ok_or(Error::Serialization)?;
        if pair.len() != 2 {
            return Err(Error::Serialization);
        }
        let path = pair[0].as_str().ok_or(Error::Serialization)?;
        let identity = match &pair[1] {
            Value::Null => None,
            Value::String(text) => Some(Sha256::try_from(text)?),
            _ => return Err(Error::Serialization),
        };
        identities.push((String::from(path), identity));
    }
    Ok(FileIdentitiesManifestTransport { identity_scheme: IdentityScheme::ContentSha256, identities })
}

fn outputs_description(description: &OutputsTransport) -> Value {
    let mut object = serde_json::Map::new();
    object.insert(String::from("include_files"), texts(&description.include_files));
    object.insert(
        String::from("include_match_transforms"),
        Value::Array(
            description
                .include_match_transforms
                .iter()
                .map(|series| {
                    Value::Array(
                        series
                            .iter()
                            .map(|transform| {
                                Value::Array(vec![
                                    Value::String(transform.match_regular_expression.clone()),
                                    texts(&transform.match_transform_expressions),
                                ])
                            })
                            .collect(),
                    )
                })
                .collect(),
        ),
    );
    object.insert(
        String::from("exclude_matches"),
        Value::Array(
            description
                .exclude_matches
                .iter()
                .map(|exclude| Value::String(exclude.match_regular_expression.clone()))
                .collect(),
        ),
    );
    Value::Object(object)
}

fn read_outputs_description(value: &Value) -> Result<OutputsTransport, Error> {
    let mut include_match_transforms = vec![];
    for series in value["include_match_transforms"].as_array().ok_or(Error::Serialization)? {
        let mut transforms = vec![];
        for transform in series.as_array().ok_or(Error::Serialization)? {
            transforms.push(MatchTransform {
                match_regular_expression: String::from(
                    transform[0].as_str().ok_or(Error::Serialization)?,
                ),
                match_transform_expressions: read_texts(&transform[1])?,
            });
        }
        include_match_transforms.push(transforms);
    }
    Ok(OutputsTransport {
        include_files: read_texts(&value["include_files"])?,
        include_match_transforms,
        exclude_matches: read_texts(&value["exclude_matches"])?
            .into_iter()
            .map(|pattern| Match { match_regular_expression: pattern })
            .collect(),
    })
}

fn written(value: Value) -> Result<Vec<u8>, Error> {
    serde_json::to_vec(&value).map_err(|_| Error::Serialization)
}

fn read(bytes: &[u8]) -> Result<Value, Error> {
    serde_json::from_slice(bytes).map_err(|_| Error::Serialization)
}

impl Serialization for Json {
    fn inputs_to_bytes(value: &TaskInput) -> Result<Vec<u8>, Error> {
        let mut object = serde_json::Map::new();
        object.insert(
            String::from("environment_variables"),
            Value::Array(
                value
                    .environment_variables
                    .environment_variables
                    .iter()
                    .map(|(key, value)| texts(&[key.clone(), value.clone()]))
                    .collect(),
            ),
        );
        object.insert(String::from("program"), Value::String(value.program.program.clone()));
        object.insert(String::from("arguments"), texts(&value.arguments.arguments));
        object.insert(String::from("input_files"), identities(&value.input_files));
        object.insert(
            String::from("outputs_description"),
            outputs_description(&value.outputs_description),
        );
        written(Value::Object(object))
    }

    fn inputs_from_bytes(bytes: &[u8]) -> Result<TaskInput, Error> {
        let value = read(bytes)?;
        let mut environment_variables = vec![];
        for pair in value["environment_variables"].as_array().ok_or(Error::Serialization)? {
            let pair = read_texts(pair)?;
            if pair.len() != 2 {
                return Err(Error::Serialization);
            }
            environment_variables.push((pair[0].clone(), pair[1].clone()));
        }
        Ok(TaskInput {
            environment_variables: EnvironmentVariablesTransport { environment_variables },
            program: ProgramTransport {
                program: String::from(value["program"].as_str().ok_or(Error::Serialization)?),
            },
            arguments: ArgumentsTransport { arguments: read_texts(&value["arguments"])? },
            input_files: read_identities(&value["input_files"])?,
            outputs_description: read_outputs_description(&value["outputs_description"])?,
        })
    }

    fn outputs_to_bytes(value: &TaskOutput) -> Result<Vec<u8>, Error> {
        let mut object = serde_json::Map::new();
        object.insert(
            String::from("input_files_with_program"),
            identities(&value.input_files_with_program),
        );
        object.insert(String::from("output_files"), identities(&value.output_files));
        written(Value::Object(object))
    }

    fn outputs_from_bytes(bytes: &[u8]) -> Result<TaskOutput, Error> {
        let value = read(bytes)?;
        Ok(TaskOutput {
            input_files_with_program: read_identities(&value["input_files_with_program"])?,
            output_files: read_identities(&value["output_files"])?,
        })
    }

    fn metadata_to_bytes(value: &MetadataTransport) -> Result<Vec<u8>, Error> {
        let mut object = serde_json::Map::new();
        object.insert(String::from("timestamp_nanos"), Value::from(value.timestamp_nanos));
        object.insert(
            String::from("execution_duration_nanos"),
            Value::String(value.execution_duration_nanos.to_string()),
        );
        object.insert(
            String::from("distribution_id"),
            Value::String(value.system.distribution_id.clone()),
        );
        written(Value::Object(object))
    }

    fn metadata_from_bytes(bytes: &[u8]) -> Result<MetadataTransport, Error> {
        let value = read(bytes)?;
        Ok(MetadataTransport {
            timestamp_nanos: value["timestamp_nanos"].as_i64().ok_or(Error::Serialization)?,
            execution_duration_nanos: value["execution_duration_nanos"]
                .as_str()
                .and_then(|text| text.parse().ok())
                .ok_or(Error::Serialization)?,
            system: SystemTransport {
                name: None,
                long_os_version: None,
                kernel_version: None,
                distribution_id: String::from(
                    value["distribution_id"].as_str().ok_or(Error::Serialization)?,
                ),
                total_memory: 0,
                estimated_num_cpu_cores: 0,
            },
        })
    }
}

/// A runner in place of a program: it counts its runs and writes the
/// outputs that the task is to write.
struct CountingRunner {
    runs: usize,
    succeeds: bool,
}

impl Runner for CountingRunner {
    fn run_task<F: Filesystem>(
        &mut self,
        filesystem: &mut F,
        inputs: &TaskInputs,
        _stdout: &str,
        _stderr: &str,
    ) -> Result<(), Error> {
        self.runs += 1;
        if !self.succeeds {
            return Err(Error::Execution { program: inputs.program().clone(), status: Some(1) });
        }
        let content = format!("run {}", inputs.arguments().join(" "));
        filesystem.write_file("out/result", content.as_bytes()).expect("write");
        Ok(())
    }
}

fn system() -> System {
    System::new(None, None, None, String::from("test"), 0, 1)
}

fn task(filesystem: &MemoryFilesystem, argument: &str) -> TaskInputs {
    let mut description = OutputsTransport::empty();
    description.include_files = vec![String::from("out/result")];
    TaskInputs::new(
        EnvironmentVariables::empty(),
        Program::new("bin"),
        Arguments::new(vec![String::from(argument)]),
        FilesManifest::new(vec![String::from("in")]).into_identified(filesystem),
        Outputs::try_from(description).expect("outputs"),
    )
}

fn working_directory() -> MemoryFilesystem {
    let mut filesystem = MemoryFilesystem::new(Some(String::from("/w")));
    filesystem.write_file("bin", b"program").expect("write");
    filesystem.write_file("in", b"input").expect("write");
    filesystem
}

fn executor(succeeds: bool) -> CacheDirectoryTaskExecutor<MemoryFilesystem, CountingRunner> {
    CacheDirectoryTaskExecutor::new_with_runner(
        MemoryFilesystem::new(Some(String::from("/cache"))),
        system(),
        CountingRunner { runs: 0, succeeds },
    )
    .expect("executor")
}

#[test]
fn a_second_run_of_the_same_task_is_served_from_the_cache() {
    let mut working = working_directory();
    let mut executor = executor(true);
    let inputs = task(&working, "x");
    let first = executor.load_or_execute::<Json>(&mut working, &inputs).expect("first");
    assert_eq!(1, executor.runner().runs);
    let second = executor.load_or_execute::<Json>(&mut working, &inputs).expect("second");
    assert_eq!(1, executor.runner().runs);
    assert_eq!(first, second);

    let made = ContentSha256::identify_content(b"run x").expect("identity");
    assert_eq!(
        &vec![(String::from("out/result"), Some(made))],
        first.output_files().identities()
    );
    assert_eq!(
        &vec![
            (String::from("bin"), Some(ContentSha256::identify_content(b"program").expect("id"))),
            (String::from("in"), Some(ContentSha256::identify_content(b"input").expect("id"))),
        ],
        first.input_files_with_program().identities()
    );

    let serialized = Json::inputs_to_bytes(&inputs.as_transport()).expect("serialized");
    let fingerprint = fingerprint_of(&serialized);
    assert_eq!(ContentSha256::identify_content(&serialized), Ok(fingerprint));
    assert_eq!(&vec![fingerprint], executor.cache().index().listing().entries());
    assert_eq!(Ok(serialized.clone()), executor.cache().blobs_ref().read_blob(&fingerprint));
    let outputs_identity = executor
        .cache()
        .outputs_pointer_cache()
        .read_blob_pointer(&fingerprint)
        .expect("pointer");
    assert_eq!(
        Json::outputs_to_bytes(&first.as_transport()),
        executor.cache().blobs_ref().read_blob(&outputs_identity)
    );
    assert_eq!(Ok(Some(first.clone())), executor.load::<Json>(&fingerprint));
    assert_eq!(
        Ok(first.clone()),
        executor.load_or_execute_identity::<Json>(&mut working, &fingerprint)
    );
    assert_eq!(1, executor.runner().runs);
    assert!(executor.cache().get_metadata::<Json>(&fingerprint).expect("metadata").is_some());
    assert_eq!(Ok(Some(first)), executor.cache().get_outputs::<Json>(&fingerprint));
}

#[test]
fn another_task_runs_again() {
    let mut working = working_directory();
    let mut executor = executor(true);
    let x = task(&working, "x");
    let y = task(&working, "y");
    let first = executor.load_or_execute::<Json>(&mut working, &x).expect("x");
    let second = executor.load_or_execute::<Json>(&mut working, &y).expect("y");
    assert_eq!(2, executor.runner().runs);
    assert_ne!(first, second);
    assert_eq!(2, executor.cache().index().listing().entries().len());
}

#[test]
fn force_execute_runs_whatever_is_known() {
    let mut working = working_directory();
    let mut executor = executor(true);
    let inputs = task(&working, "x");
    executor.force_execute::<Json>(&mut working, &inputs).expect("first");
    executor.force_execute::<Json>(&mut working, &inputs).expect("second");
    assert_eq!(2, executor.runner().runs);
    let serialized = Json::inputs_to_bytes(&inputs.as_transport()).expect("serialized");
    let fingerprint = fingerprint_of(&serialized);
    executor.force_execute_identity::<Json>(&mut working, &fingerprint).expect("third");
    assert_eq!(3, executor.runner().runs);
    assert_eq!(&vec![fingerprint], executor.cache().index().listing().entries());
}

#[test]
fn a_run_that_fails_records_nothing() {
    let mut working = working_directory();
    let mut executor = executor(false);
    let inputs = task(&working, "x");
    assert_eq!(
        Err(Error::Execution { program: String::from("bin"), status: Some(1) }),
        executor.load_or_execute::<Json>(&mut working, &inputs)
    );
    assert_eq!(1, executor.runner().runs);
    assert_eq!(0, executor.cache().index().listing().entries().len());
    let fingerprint =
        fingerprint_of(&Json::inputs_to_bytes(&inputs.as_transport()).expect("serialized"));
    assert_eq!(Ok(None), executor.load::<Json>(&fingerprint));
    assert_eq!(Ok(None), executor.stored_outputs(&fingerprint));
    assert!(executor.force_execute_identity::<Json>(&mut working, &fingerprint).is_err());
}

#[test]
fn an_output_that_was_not_written_is_an_error() {
    let mut working = working_directory();
    let mut description = OutputsTransport::empty();
    description.include_files = vec![String::from("out/other")];
    let inputs = TaskInputs::new(
        EnvironmentVariables::empty(),
        Program::new("bin"),
        Arguments::empty(),
        FileIdentitiesManifest::empty(),
        Outputs::try_from(description).expect("outputs"),
    );
    let mut executor = executor(true);
    assert_eq!(
        Err(Error::Io {
            operation: Operation::Read,
            path: String::from("out/other"),
            failure: Failure::NotFound
        }),
        executor.load_or_execute::<Json>(&mut working, &inputs)
    );
    assert_eq!(0, executor.cache().index().listing().entries().len());
    assert_eq!(
        Err(Error::Io {
            operation: Operation::Read,
            path: String::from("out/other"),
            failure: Failure::NotFound
        }),
        TaskOutputs::try_from_run(&working, &inputs)
    );
}

#[test]
fn a_cache_records_a_task_and_finds_it_again() {
    let working = working_directory();
    let mut cache: Cache<MemoryFilesystem, WriteOnDropIndex<MemoryFilesystem>> =
        Cache::create(MemoryFilesystem::new(None), system()).expect("cache");
    let inputs = task(&working, "x");
    let outputs = TaskOutputs::new(
        FileIdentitiesManifest::empty(),
        FilesManifest::new(vec![String::from("in")]).into_identified(&working),
    );
    let fingerprint =
        fingerprint_of(&Json::inputs_to_bytes(&inputs.as_transport()).expect("serialized"));
    assert_eq!(Ok(None), cache.get_outputs::<Json>(&fingerprint));
    assert_eq!(Ok(None), cache.get_metadata::<Json>(&fingerprint));
    cache.put_task::<Json>(7, 11, &inputs, &outputs).expect("put task");
    assert_eq!(Ok(Some(outputs.clone())), cache.get_outputs::<Json>(&fingerprint));
    let metadata = cache.get_metadata::<Json>(&fingerprint).expect("metadata").expect("some");
    assert_eq!(7, metadata.clone().into_transport().timestamp_nanos);
    assert_eq!(11, metadata.into_transport().execution_duration_nanos);
    assert_eq!(&vec![fingerprint], cache.index().listing().entries());
    cache.put_blobs(&working, outputs.output_files()).expect("put blobs");
    let input = ContentSha256::identify_content(b"input").expect("identity");
    assert_eq!(Ok(b"input".to_vec()), cache.blobs_ref().read_blob(&input));
    let recorded = cache.record(b"i", b"o", b"m").expect("record");
    assert_eq!(ContentSha256::identify_content(b"i"), Ok(recorded));
    assert_eq!(Ok(Some(b"o".to_vec())), cache.outputs_of(&recorded));
    assert_eq!(Ok(Some(b"m".to_vec())), cache.metadata_of(&recorded));
    assert_eq!(2, cache.index().listing().entries().len());
    let changes = cache.index().files_mut().take_changes();
    assert_eq!(2, changes.len());
    for change in changes {
        match change {
            artifact_executor::memory::Change::Write { path, .. } => {
                assert_eq!("inputs.listing", path)
            }
            other => panic!("expected a write, got {:?}", other),
        }
    }
}

#[test]
fn a_cache_is_opened_where_its_index_is() {
    let mut filesystem = MemoryFilesystem::new(None);
    assert!(Cache::<MemoryFilesystem, WriteOnDropIndex<MemoryFilesystem>>::open(
        filesystem.sub_system("").expect("copy"),
        system()
    )
    .is_err());
    let cache: Cache<MemoryFilesystem, WriteOnDropIndex<MemoryFilesystem>> =
        Cache::open_or_create(filesystem.sub_system("").expect("copy"), system()).expect("cache");
    assert_eq!("test", cache.system().clone().into_transport().distribution_id);
    filesystem.write_file("inputs.listing", b"{\"entries\":[]}").expect("write");
    let mut cache: Cache<MemoryFilesystem, WriteOnDropIndex<MemoryFilesystem>> =
        Cache::open(filesystem, system()).expect("cache");
    assert_eq!(0, cache.index().listing().entries().len());
}

#[test]
fn a_run_is_dated_by_its_beginning_and_timed_by_its_length() {
    let ran = artifact_executor::execute::between(1_000, 1_250);
    assert_eq!(ran.timestamp_nanos, 1_000);
    assert_eq!(ran.execution_duration_nanos, 250);
    let back = artifact_executor::execute::between(1_250, 1_000);
    assert_eq!(back.timestamp_nanos, 1_250);
    assert_eq!(back.execution_duration_nanos, 0);
    let late = artifact_executor::execute::between(u128::MAX, u128::MAX);
    assert_eq!(late.timestamp_nanos, i64::MAX);
    assert_eq!(late.execution_duration_nanos, 0);
}
