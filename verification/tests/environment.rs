use artifact_executor::canonical::Arguments;
use artifact_executor::canonical::EnvironmentVariables;
use artifact_executor::canonical::FileIdentitiesManifest;
use artifact_executor::canonical::FilesManifest;
use artifact_executor::canonical::MatchTransform;
use artifact_executor::canonical::Metadata;
use artifact_executor::canonical::Outputs;
use artifact_executor::canonical::Program;
use artifact_executor::canonical::RegularExpression;
use artifact_executor::canonical::System;
use artifact_executor::canonical::TaskInputs;
use artifact_executor::canonical::TaskOutputs;
use artifact_executor::error::Error;
use artifact_executor::error::Item;
use artifact_executor::transport::ContentSha256;
use artifact_executor::transport::EnvironmentVariables as EnvironmentVariablesTransport;
use artifact_executor::transport::FileIdentitiesManifest as FileIdentitiesManifestTransport;
use artifact_executor::transport::FilesManifest as FilesManifestTransport;
use artifact_executor::transport::IdentityScheme;
use artifact_executor::transport::Match;
use artifact_executor::transport::MatchTransform as MatchTransformTransport;
use artifact_executor::transport::Outputs as OutputsTransport;
use artifact_executor::transport::Sha256;

/// The result with an order error stripped of its diff, for the tests that
/// are about the kind of the error.
fn kind<T>(r: Result<T, Error>) -> Result<T, Error> {
    r.map_err(|e| match e {
        Error::Duplicate(item, _) => Error::Duplicate(item, String::new()),
        Error::NotSorted(item, _) => Error::NotSorted(item, String::new()),
        other => other,
    })
}

fn pairs(items: &[(&str, &str)]) -> Vec<(String, String)> {
    items.iter().map(|(key, value)| (String::from(*key), String::from(*value))).collect()
}

fn variables(items: &[(&str, &str)]) -> EnvironmentVariablesTransport {
    EnvironmentVariablesTransport { environment_variables: pairs(items) }
}

fn identity_of(content: &[u8]) -> Sha256 {
    ContentSha256::identify_content(content).expect("identity")
}

fn transform(pattern: &str, templates: &[&str]) -> MatchTransformTransport {
    MatchTransformTransport {
        match_regular_expression: String::from(pattern),
        match_transform_expressions: templates.iter().map(|t| String::from(*t)).collect(),
    }
}

#[test]
fn a_configuration_is_sorted_by_name() {
    let environment =
        EnvironmentVariables::try_from_config(variables(&[("B", "2"), ("A", "1"), ("C", "3")]))
            .expect("environment");
    assert_eq!(&pairs(&[("A", "1"), ("B", "2"), ("C", "3")]), environment.environment_variables());
    let borrowed = EnvironmentVariables::try_from_borrowed_config(&variables(&[
        ("B", "2"),
        ("A", "1"),
        ("C", "3"),
    ]))
    .expect("environment");
    assert_eq!(environment, borrowed);
}

#[test]
fn variables_of_one_name_stay_as_they_came() {
    let environment =
        EnvironmentVariables::try_from_config(variables(&[("B", "2"), ("A", "z"), ("A", "a")]))
            .expect("environment");
    assert_eq!(&pairs(&[("A", "z"), ("A", "a"), ("B", "2")]), environment.environment_variables());
}

#[test]
fn a_configuration_with_a_pair_twice_is_refused() {
    assert_eq!(
        Err(Error::Duplicate(Item::EnvironmentVariables, String::new())),
        kind(EnvironmentVariables::try_from_config(variables(&[("A", "1"), ("B", "2"), ("A", "1")])))
    );
    assert_eq!(
        Err(Error::Duplicate(Item::EnvironmentVariables, String::new())),
        kind(EnvironmentVariables::try_from_borrowed_config(&variables(&[("A", "1"), ("A", "1")])))
    );
}

#[test]
fn a_manifest_must_be_sorted_and_free_of_duplicates() {
    assert_eq!(
        Err(Error::NotSorted(Item::EnvironmentVariables, String::new())),
        kind(EnvironmentVariables::try_from_manifest(variables(&[("B", "2"), ("A", "1")])))
    );
    assert_eq!(
        Err(Error::Duplicate(Item::EnvironmentVariables, String::new())),
        kind(EnvironmentVariables::try_from_manifest(variables(&[("A", "1"), ("A", "1")])))
    );
    assert_eq!(
        Err(Error::NotSorted(Item::EnvironmentVariables, String::new())),
        kind(EnvironmentVariables::try_from_borrowed_manifest(&variables(&[
            ("B", "2"),
            ("A", "1"),
            ("A", "1")
        ])))
    );
    let environment =
        EnvironmentVariables::try_from_manifest(variables(&[("A", "1"), ("B", "2")]))
            .expect("environment");
    assert_eq!(&pairs(&[("A", "1"), ("B", "2")]), environment.environment_variables());
    assert_eq!(
        Ok(environment),
        EnvironmentVariables::try_from_borrowed_manifest(&variables(&[("A", "1"), ("B", "2")]))
    );
}

#[test]
fn an_environment_is_read_back_from_its_manifest() {
    let environment = EnvironmentVariables::new(pairs(&[("B", "2"), ("A", "1"), ("B", "2")]));
    assert_eq!(&pairs(&[("A", "1"), ("B", "2")]), environment.environment_variables());
    assert_eq!(
        Ok(environment.clone()),
        EnvironmentVariables::try_from_manifest(environment.as_manifest())
    );
    assert_eq!(
        Ok(environment.clone()),
        EnvironmentVariables::try_from_config(environment.clone().into_manifest())
    );
    assert_eq!(
        &Vec::<(String, String)>::new(),
        EnvironmentVariables::empty().environment_variables()
    );
    assert_eq!(0, EnvironmentVariablesTransport::empty().environment_variables.len());
}

#[test]
fn plain_values_go_to_a_manifest_and_back() {
    let program = Program::new("bin/tool");
    assert_eq!("bin/tool", program.program());
    assert_eq!(program, Program::from(program.as_transport()));
    assert_eq!(program.clone(), Program::from(program.into_transport()));

    let arguments = Arguments::new(vec![String::from("-b"), String::from("a")]);
    assert_eq!(&vec![String::from("-b"), String::from("a")], arguments.arguments());
    assert_eq!(arguments, Arguments::from(arguments.as_transport()));
    assert_eq!(arguments.clone(), Arguments::from(arguments.into_transport()));
    assert_eq!(&Vec::<String>::new(), Arguments::empty().arguments());

    let system = System::new(
        Some(String::from("name")),
        None,
        Some(String::from("6.1")),
        String::from("id"),
        1 << 33,
        8,
    );
    assert_eq!(system, System::from(system.as_transport()));
    let transport = system.clone().into_transport();
    assert_eq!(Some(String::from("name")), transport.name);
    assert_eq!(None, transport.long_os_version);
    assert_eq!(1 << 33, transport.total_memory);
    assert_eq!(8, transport.estimated_num_cpu_cores);

    let metadata = Metadata::new(-5, u128::MAX, system);
    assert_eq!(metadata, Metadata::from(metadata.as_transport()));
    let transport = metadata.clone().into_transport();
    assert_eq!(-5, transport.timestamp_nanos);
    assert_eq!(u128::MAX, transport.execution_duration_nanos);
    assert_eq!("id", transport.system.distribution_id);
}

#[test]
fn a_files_manifest_is_read_back_as_it_was_written() {
    let manifest = FilesManifest::new(vec![String::from("b"), String::from("a")]);
    assert_eq!(
        Ok(manifest.clone()),
        FilesManifest::try_from_manifest(manifest.clone().into_transport())
    );
    assert_eq!(
        Err(Error::NotSorted(Item::Paths, String::new())),
        kind(FilesManifest::try_from_manifest(FilesManifestTransport {
            paths: vec![String::from("b"), String::from("a")]
        }))
    );
    assert_eq!(
        Err(Error::NotSorted(Item::Paths, String::new())),
        kind(FilesManifest::try_from_manifest(FilesManifestTransport {
            paths: vec![String::from("a"), String::from("a")]
        }))
    );
    assert_eq!(0, FilesManifestTransport::empty().paths.len());
}

#[test]
fn identified_files_are_kept_in_the_order_of_their_paths() {
    let one = identity_of(b"1");
    let two = identity_of(b"2");
    let manifest = FileIdentitiesManifest::new(vec![
        (String::from("b"), Some(one)),
        (String::from("a"), None),
        (String::from("b"), Some(two)),
    ]);
    assert_eq!(
        &vec![(String::from("a"), None), (String::from("b"), Some(two))],
        manifest.identities()
    );
    assert_eq!(
        Ok(manifest.clone()),
        FileIdentitiesManifest::try_from(manifest.clone().into_transport())
    );
    let unsorted = FileIdentitiesManifestTransport {
        identity_scheme: IdentityScheme::ContentSha256,
        identities: vec![(String::from("b"), Some(one)), (String::from("a"), None)],
    };
    assert_eq!(
        Err(Error::NotSorted(Item::FileIdentities, String::new())),
        kind(FileIdentitiesManifest::try_from(unsorted.clone()))
    );
    assert_eq!(
        &vec![(String::from("a"), None), (String::from("b"), Some(one))],
        FileIdentitiesManifest::from_borrowed_transport(&unsorted).identities()
    );
    assert_eq!(
        FileIdentitiesManifest::from_transport(unsorted.clone()),
        FileIdentitiesManifest::from_borrowed_transport(&unsorted)
    );
    let with_file = manifest.with_file(String::from("a"), Some(one));
    assert_eq!(
        &vec![(String::from("a"), Some(one)), (String::from("b"), Some(two))],
        with_file.identities()
    );
    assert_eq!(0, FileIdentitiesManifest::empty().identities().len());
    assert_eq!(0, FileIdentitiesManifestTransport::empty().identities.len());
}

#[test]
fn a_regular_expression_is_checked_when_it_is_made() {
    let expression = RegularExpression::try_from(String::from("^a+$")).expect("expression");
    assert_eq!("^a+$", expression.as_str());
    assert!(expression.is_match("aaa"));
    assert!(!expression.is_match("aab"));
    assert_eq!("^a+$", expression.clone().into_transport().match_regular_expression);
    assert_eq!(
        Err(Error::MalformedRegularExpression { pattern: String::from("(") }),
        RegularExpression::try_from(String::from("("))
    );
    assert_eq!(
        Ok(expression.clone()),
        RegularExpression::try_from_match(Match { match_regular_expression: String::from("^a+$") })
    );
    let made = MatchTransform::try_from(transform("^a+$", &["$0b"])).expect("transform");
    assert_eq!(&expression, made.match_regular_expression());
    assert_eq!(&vec![String::from("$0b")], made.match_transform_expressions());
    assert_eq!(MatchTransform::new(expression, vec![String::from("$0b")]), made);
    assert_eq!(transform("^a+$", &["$0b"]), made.into_transport());
    assert_eq!(
        Err(Error::MalformedRegularExpression { pattern: String::from("[") }),
        MatchTransform::try_from(transform("[", &[]))
    );
}

#[test]
fn a_description_of_outputs_is_put_in_order() {
    let description = OutputsTransport {
        include_files: vec![String::from("out/b"), String::from("out/a")],
        include_match_transforms: vec![
            vec![transform("b", &["2", "1"])],
            vec![transform("a", &["x"]), transform("a", &[])],
            vec![transform("a", &["x"])],
            vec![transform("b", &["1", "3"])],
            vec![],
        ],
        exclude_matches: vec![
            Match { match_regular_expression: String::from("z") },
            Match { match_regular_expression: String::from("y") },
        ],
    };
    let outputs = Outputs::try_from(description).expect("outputs");
    let canonical = outputs.clone().into_transport();
    assert_eq!(vec![String::from("out/a"), String::from("out/b")], canonical.include_files);
    assert_eq!(
        vec![
            vec![],
            vec![transform("a", &["x"])],
            vec![transform("a", &["x"]), transform("a", &[])],
            vec![transform("b", &["1", "3"])],
            vec![transform("b", &["2", "1"])],
        ],
        canonical.include_match_transforms
    );
    assert_eq!(
        vec![
            Match { match_regular_expression: String::from("y") },
            Match { match_regular_expression: String::from("z") },
        ],
        canonical.exclude_matches
    );
    assert_eq!(&canonical, outputs.description());
    assert_eq!(canonical, outputs.as_transport());
    assert_eq!(Ok(outputs), Outputs::try_from(canonical));
    assert_eq!(OutputsTransport::empty(), Outputs::empty().into_transport());
}

#[test]
fn a_description_of_outputs_that_states_something_twice_is_refused() {
    let mut description = OutputsTransport::empty();
    description.include_files = vec![String::from("a"), String::from("b"), String::from("a")];
    assert_eq!(Err(Error::Duplicate(Item::IncludeFiles, String::new())), kind(Outputs::try_from(description)));
    let mut description = OutputsTransport::empty();
    description.include_match_transforms =
        vec![vec![transform("a", &["x"])], vec![transform("a", &["x"])]];
    assert_eq!(
        Err(Error::Duplicate(Item::IncludeMatchTransforms, String::new())),
        kind(Outputs::try_from(description))
    );
    let mut description = OutputsTransport::empty();
    description.exclude_matches = vec![
        Match { match_regular_expression: String::from("a") },
        Match { match_regular_expression: String::from("a") },
    ];
    assert_eq!(Err(Error::Duplicate(Item::ExcludeMatches, String::new())), kind(Outputs::try_from(description)));
    let mut description = OutputsTransport::empty();
    description.include_match_transforms = vec![vec![transform("(", &["x"])]];
    description.exclude_matches = vec![Match { match_regular_expression: String::from("[") }];
    assert_eq!(
        Err(Error::MalformedRegularExpression { pattern: String::from("(") }),
        Outputs::try_from(description)
    );
    let mut description = OutputsTransport::empty();
    description.exclude_matches = vec![Match { match_regular_expression: String::from("[") }];
    assert_eq!(
        Err(Error::MalformedRegularExpression { pattern: String::from("[") }),
        Outputs::try_from(description)
    );
}

#[test]
fn task_inputs_and_outputs_are_read_back_as_they_were_written() {
    let one = identity_of(b"1");
    let mut description = OutputsTransport::empty();
    description.include_files = vec![String::from("out")];
    let inputs = TaskInputs::new(
        EnvironmentVariables::new(pairs(&[("A", "1")])),
        Program::new("bin"),
        Arguments::new(vec![String::from("x")]),
        FileIdentitiesManifest::new(vec![(String::from("in"), Some(one))]),
        Outputs::try_from(description).expect("outputs"),
    );
    assert_eq!("bin", inputs.program());
    assert_eq!(&vec![String::from("x")], inputs.arguments());
    assert_eq!(&pairs(&[("A", "1")]), inputs.environment_variables());
    assert_eq!(&vec![(String::from("in"), Some(one))], inputs.input_files());
    assert_eq!(vec![String::from("out")], inputs.outputs_description().description().include_files);
    assert_eq!(Ok(inputs.clone()), TaskInputs::try_from(inputs.as_transport()));
    assert_eq!(Ok(inputs.clone()), TaskInputs::try_from(inputs.clone().into_transport()));
    let mut unsorted = inputs.as_transport();
    unsorted.environment_variables = variables(&[("B", "1"), ("A", "1")]);
    assert_eq!(
        Err(Error::NotSorted(Item::EnvironmentVariables, String::new())),
        kind(TaskInputs::try_from(unsorted))
    );
    let mut unsorted = inputs.as_transport();
    unsorted.input_files.identities.push((String::from("a"), None));
    assert_eq!(Err(Error::NotSorted(Item::FileIdentities, String::new())), kind(TaskInputs::try_from(unsorted)));

    let outputs = TaskOutputs::new(
        FileIdentitiesManifest::new(vec![
            (String::from("in"), Some(one)),
            (String::from("bin"), None),
        ]),
        FileIdentitiesManifest::new(vec![(String::from("out"), Some(one))]),
    );
    assert_eq!(Ok(outputs.clone()), TaskOutputs::try_from(outputs.as_transport()));
    assert_eq!(Ok(outputs.clone()), TaskOutputs::try_from(outputs.clone().into_transport()));
    assert_eq!(2, outputs.input_files_with_program().identities().len());
    assert_eq!(1, outputs.output_files().identities().len());
    let mut unsorted = outputs.as_transport();
    unsorted.output_files.identities.push((String::from("a"), None));
    assert_eq!(Err(Error::NotSorted(Item::FileIdentities, String::new())), kind(TaskOutputs::try_from(unsorted)));
}

#[test]
fn arguments_are_prepended_in_order() {
    let inputs = TaskInputs::new(
        EnvironmentVariables::empty(),
        Program::new("bin"),
        Arguments::new(vec![String::from("x")]),
        FileIdentitiesManifest::empty(),
        Outputs::empty(),
    );
    let more = inputs.prepend_arguments(vec![String::from("-a"), String::from("-b")]);
    assert_eq!(
        &vec![String::from("-a"), String::from("-b"), String::from("x")],
        more.arguments()
    );
    assert_eq!("bin", more.program());
}

#[test]
fn outputs_of_given_parts_hold_each_once_and_in_order() {
    let transform = |pattern: &str, template: &str| {
        artifact_executor::canonical::MatchTransform::new(
            artifact_executor::canonical::RegularExpression::try_from(pattern.to_string())
                .expect("the pattern compiles"),
            vec![template.to_string()],
        )
    };
    let outputs = artifact_executor::canonical::Outputs::new(
        vec!["b".to_string(), "a".to_string(), "b".to_string()],
        vec![
            vec![transform("^z$", "y")],
            vec![transform("^a$", "b")],
            vec![transform("^z$", "y")],
        ],
        vec![
            artifact_executor::canonical::RegularExpression::try_from("q".to_string())
                .expect("the pattern compiles"),
            artifact_executor::canonical::RegularExpression::try_from("c".to_string())
                .expect("the pattern compiles"),
        ],
    );
    let description = outputs.into_transport();
    assert_eq!(description.include_files, vec!["a".to_string(), "b".to_string()]);
    assert_eq!(description.include_match_transforms.len(), 2);
    assert_eq!(description.include_match_transforms[0][0].match_regular_expression, "^a$");
    assert_eq!(description.include_match_transforms[1][0].match_regular_expression, "^z$");
    assert_eq!(description.exclude_matches.len(), 2);
    assert_eq!(description.exclude_matches[0].match_regular_expression, "c");
    assert_eq!(description.exclude_matches[1].match_regular_expression, "q");
}

#[test]
fn outputs_of_nothing_are_the_empty_description() {
    let outputs = artifact_executor::canonical::Outputs::new(
        Vec::new(),
        artifact_executor::canonical::Outputs::empty_include_match_transforms(),
        Vec::new(),
    );
    assert_eq!(outputs, artifact_executor::canonical::Outputs::empty());
}

#[test]
fn an_order_error_shows_the_items_beside_their_order() {
    let unsorted = EnvironmentVariables::try_from_manifest(variables(&[("B", "2"), ("A", "1")]));
    assert_eq!(
        Err(Error::NotSorted(
            Item::EnvironmentVariables,
            String::from(
                "input vs. sorted\n- \"B=2\"\n- \"A=1\"\n+ \"A=1\"\n+ \"B=2\"\n\
                 sorted vs. sorted+deduped\n  \"A=1\"\n  \"B=2\"\n"
            )
        )),
        unsorted
    );
    let twice = FilesManifest::try_from_manifest(FilesManifestTransport {
        paths: vec![String::from("a"), String::from("a")],
    });
    assert_eq!(
        Err(Error::NotSorted(
            Item::Paths,
            String::from(
                "input vs. sorted\n  \"a\"\n  \"a\"\n\
                 sorted vs. sorted+deduped\n  \"a\"\n- \"a\"\n"
            )
        )),
        twice
    );
    let mut description = OutputsTransport::empty();
    description.include_match_transforms =
        vec![vec![transform("a", &["x", "y"])], vec![transform("a", &["x", "y"])]];
    assert_eq!(
        Err(Error::Duplicate(
            Item::IncludeMatchTransforms,
            String::from(
                "input vs. sorted\n  \"a => x, y\"\n  \"a => x, y\"\n\
                 sorted vs. sorted+deduped\n  \"a => x, y\"\n- \"a => x, y\"\n"
            )
        )),
        Outputs::try_from(description)
    );
}
