use artifact_executor::canonical::FilesManifest;
use artifact_executor::error::Error;
use artifact_executor::fs::Filesystem;
use artifact_executor::memory::MemoryFilesystem;
use artifact_executor::transport::Inputs as InputsTransport;
use artifact_executor::transport::InterFileReferences;
use artifact_executor::transport::Match;
use artifact_executor::transport::MatchTransform;
use artifact_executor::transport::Outputs as OutputsTransport;

fn texts(items: &[&str]) -> Vec<String> {
    items.iter().map(|item| String::from(*item)).collect()
}

fn filesystem_with_references() -> MemoryFilesystem {
    let mut filesystem = MemoryFilesystem::new(None);
    for path in ["m.stu", "a/n.stu", "a/b/o.stu", "a/b/p.vwx", "a/b/c/p.vwx", "a/referenced2"] {
        filesystem.write_file(path, "".as_bytes()).expect("manually create file");
    }
    // Refer to "referenced", which will resolve to "__/referenced".
    filesystem
        .write_file("a/b/d/p.vwx", "\n\nINCLUDE_FILE(referenced)\n\n".as_bytes())
        .expect("write to pointer file");
    // Refer to "b/c/p.vwx" and "referenced2" inside directory "a". The first is
    // categorically excluded. The second should match.
    filesystem
        .write_file(
            "__/referenced",
            "\n\nINCLUDE_FILE(b/c/p.vwx)\nINCLUDE_FILE_INTERNAL(referenced2)\n".as_bytes(),
        )
        .expect("write to pointer file");
    filesystem
}

fn inputs_with_references() -> InputsTransport {
    InputsTransport {
        include_files: texts(&["a/n.stu"]),
        exclude_files: texts(&["a/b/p.vwx"]),
        include_globs: texts(&["a/b/**/*.vwx"]),
        exclude_globs: texts(&["**/c/*.vwx"]),
        inter_file_references: vec![
            InterFileReferences {
                files_to_match: None,
                // Match lines of the form `INCLUDE_FILE(file)`, resolving to path `file`.
                match_transforms: vec![MatchTransform {
                    match_regular_expression: String::from(r#"^INCLUDE_FILE\(([^)]+)\)$"#),
                    match_transform_expressions: vec![String::from(r#"$1"#)],
                }],
                // Search for resolved files in `__` directory.
                directories_to_search: Some(texts(&["__"])),
            },
            InterFileReferences {
                files_to_match: Some(InputsTransport {
                    include_files: vec![],
                    exclude_files: vec![],
                    include_globs: texts(&["__/*"]),
                    exclude_globs: vec![],
                    inter_file_references: vec![],
                }),
                match_transforms: vec![MatchTransform {
                    match_regular_expression: String::from(
                        r#"^INCLUDE_FILE_INTERNAL\(([^)]+)\)$"#,
                    ),
                    match_transform_expressions: vec![String::from(r#"$1"#)],
                }],
                directories_to_search: Some(texts(&["a"])),
            },
        ],
    }
}

fn outputs_with_transforms() -> OutputsTransport {
    OutputsTransport {
        include_files: texts(&["out/log"]),
        include_match_transforms: vec![
            vec![MatchTransform {
                match_regular_expression: String::from("^(.*)[.](stu|vwx)$"),
                match_transform_expressions: vec![
                    String::from("out/$1.out.1"),
                    String::from("out/$1.out.2"),
                ],
            }],
            vec![MatchTransform {
                match_regular_expression: String::from("^(.*)[.]stu$"),
                match_transform_expressions: vec![String::from("out/$1.out.stu")],
            }],
        ],
        exclude_matches: vec![
            Match { match_regular_expression: String::from("^.*/c/.*$") },
            Match { match_regular_expression: String::from("^.*/o[.]stu$") },
        ],
    }
}

#[test]
fn canonical_test_inputs_manifest() {
    let host_filesystem = filesystem_with_references();
    let inputs_config = inputs_with_references();
    let inputs_manifest: FilesManifest =
        FilesManifest::try_from_inputs(&host_filesystem, &inputs_config)
            .expect("create inputs manifest");
    assert_eq!(
        FilesManifest::new(texts(&[
            // Resolved via `INCLUDE_FILE(...)` inside `a/b/d/p.vwx` file.
            "__/referenced",
            "a/n.stu",
            "a/b/d/p.vwx",
            "a/referenced2",
        ])),
        inputs_manifest
    );
}

#[test]
fn canonical_test_outputs_manifest() {
    let inputs_manifest = FilesManifest::new(texts(&[
        "m.stu",
        "a/n.stu",
        "a/b/o.stu",
        "a/b/p.vwx",
        "a/b/c/p.vwx",
        "a/b/d/p.vwx",
    ]));
    let outputs_config = outputs_with_transforms();

    let outputs_manifest: FilesManifest =
        FilesManifest::try_from_outputs(&inputs_manifest, &outputs_config)
            .expect("create inputs manifest");
    assert_eq!(
        FilesManifest::new(texts(&[
            "out/a/b/d/p.out.1",
            "out/a/b/d/p.out.2",
            "out/a/b/p.out.1",
            "out/a/b/p.out.2",
            "out/a/n.out.1",
            "out/a/n.out.2",
            "out/a/n.out.stu",
            "out/log",
            "out/m.out.1",
            "out/m.out.2",
            "out/m.out.stu",
        ])),
        outputs_manifest
    );
}

#[test]
fn manifest_test_inputs_manifest() {
    let host_filesystem = filesystem_with_references();
    let inputs_config = inputs_with_references();
    let inputs_manifest: FilesManifest =
        FilesManifest::try_from_inputs(&host_filesystem, &inputs_config)
            .expect("create inputs manifest");
    assert_eq!(
        FilesManifest::from_paths(vec![
            String::from("__/referenced"),
            String::from("a/n.stu"),
            String::from("a/b/d/p.vwx"),
            String::from("a/referenced2"),
        ]),
        inputs_manifest
    );
}

#[test]
fn manifest_test_outputs_manifest() {
    let inputs_manifest = FilesManifest::from_paths(vec![
        String::from("m.stu"),
        String::from("a/n.stu"),
        String::from("a/b/o.stu"),
        String::from("a/b/p.vwx"),
        String::from("a/b/c/p.vwx"),
        String::from("a/b/d/p.vwx"),
    ]);
    let outputs_config = outputs_with_transforms();

    let outputs_manifest: FilesManifest =
        FilesManifest::try_from_outputs(&inputs_manifest, &outputs_config)
            .expect("create inputs manifest");
    assert_eq!(
        FilesManifest::from_paths(vec![
            String::from("out/a/b/d/p.out.1"),
            String::from("out/a/b/d/p.out.2"),
            String::from("out/a/b/p.out.1"),
            String::from("out/a/b/p.out.2"),
            String::from("out/a/n.out.1"),
            String::from("out/a/n.out.2"),
            String::from("out/a/n.out.stu"),
            String::from("out/log"),
            String::from("out/m.out.1"),
            String::from("out/m.out.2"),
            String::from("out/m.out.stu"),
        ]),
        outputs_manifest
    );
}

#[test]
fn discovered_paths_come_in_strict_order() {
    let inputs_manifest =
        FilesManifest::try_from_inputs(&filesystem_with_references(), &inputs_with_references())
            .expect("create inputs manifest");
    assert_eq!(
        &texts(&["__/referenced", "a/b/d/p.vwx", "a/n.stu", "a/referenced2"]),
        inputs_manifest.paths()
    );
}

#[test]
fn discovering_twice_gives_the_same_manifest() {
    let filesystem = filesystem_with_references();
    let config = inputs_with_references();
    let first = FilesManifest::try_from_inputs(&filesystem, &config).expect("first");
    let second = FilesManifest::try_from_inputs(&filesystem, &config).expect("second");
    assert_eq!(first, second);
    assert_eq!(first.into_transport().paths, second.into_transport().paths);
}

#[test]
fn a_manifest_has_each_path_once_and_sorted() {
    let manifest = FilesManifest::new(texts(&["b", "a/b", "a.b", "b", "a", "a/b"]));
    assert_eq!(&texts(&["a", "a.b", "a/b", "b"]), manifest.paths());
}

#[test]
fn a_description_that_surely_includes_none_is_refused() {
    let filesystem = filesystem_with_references();
    let nothing = InputsTransport {
        include_files: vec![],
        exclude_files: texts(&["a/n.stu"]),
        include_globs: vec![],
        exclude_globs: texts(&["**/*"]),
        inter_file_references: vec![InterFileReferences {
            files_to_match: Some(InputsTransport {
                include_files: vec![],
                exclude_files: vec![],
                include_globs: vec![],
                exclude_globs: vec![],
                inter_file_references: vec![],
            }),
            match_transforms: vec![],
            directories_to_search: None,
        }],
    };
    assert_eq!(
        Err(Error::SurelyIncludesNone),
        FilesManifest::try_from_inputs(&filesystem, &nothing)
    );
    assert!(artifact_executor::discovery::surely_includes_none(&nothing));
    assert!(!artifact_executor::discovery::surely_includes_none(&inputs_with_references()));
}

#[test]
fn a_rule_that_scans_the_files_found_is_not_surely_nothing() {
    let filesystem = filesystem_with_references();
    let only_a_rule = InputsTransport {
        include_files: vec![],
        exclude_files: vec![],
        include_globs: vec![],
        exclude_globs: vec![],
        inter_file_references: vec![InterFileReferences {
            files_to_match: Some(InputsTransport {
                include_files: texts(&["a/b/d/p.vwx"]),
                exclude_files: vec![],
                include_globs: vec![],
                exclude_globs: vec![],
                inter_file_references: vec![],
            }),
            match_transforms: vec![MatchTransform {
                match_regular_expression: String::from(r#"^INCLUDE_FILE\(([^)]+)\)$"#),
                match_transform_expressions: vec![String::from("__/$1")],
            }],
            directories_to_search: None,
        }],
    };
    let manifest =
        FilesManifest::try_from_inputs(&filesystem, &only_a_rule).expect("create manifest");
    assert_eq!(&texts(&["__/referenced"]), manifest.paths());
}

#[test]
fn discovery_reports_what_it_cannot_read() {
    let filesystem = filesystem_with_references();
    let mut config = inputs_with_references();
    config.include_files.push(String::from("missing"));
    match FilesManifest::try_from_inputs(&filesystem, &config) {
        Err(Error::Io { path, .. }) => assert_eq!("missing", path),
        other => panic!("expected a read error, got {:?}", other),
    }
}

#[test]
fn discovery_refuses_a_malformed_expression_and_a_malformed_pattern() {
    let filesystem = filesystem_with_references();
    let mut config = inputs_with_references();
    config.inter_file_references[0].match_transforms[0].match_regular_expression =
        String::from("(");
    assert_eq!(
        Err(Error::MalformedRegularExpression { pattern: String::from("(") }),
        FilesManifest::try_from_inputs(&filesystem, &config)
    );
    let mut config = inputs_with_references();
    config.include_globs.push(String::from("a/**b"));
    match FilesManifest::try_from_inputs(&filesystem, &config) {
        Err(Error::Io { path, failure, .. }) => {
            assert_eq!("a/**b", path);
            assert_eq!(artifact_executor::error::Failure::MalformedPattern, failure);
        }
        other => panic!("expected a pattern error, got {:?}", other),
    }
}

#[test]
fn a_file_that_is_no_text_cannot_be_scanned() {
    let mut filesystem = filesystem_with_references();
    filesystem.write_file("a/n.stu", &[0x66, 0x6f, 0x80, 0x6f]).expect("write");
    assert_eq!(
        Err(Error::NotText { path: String::from("a/n.stu") }),
        FilesManifest::try_from_inputs(&filesystem, &inputs_with_references())
    );
}

#[test]
fn shallow_exclusion_looks_at_files_and_patterns_only() {
    let filesystem = filesystem_with_references();
    let config = inputs_with_references();
    let excluded = |path: &str| {
        artifact_executor::discovery::is_shallowly_excluded(&filesystem, &config, path)
    };
    assert_eq!(Ok(true), excluded("a/b/p.vwx"));
    assert_eq!(Ok(true), excluded("x/c/y.vwx"));
    assert_eq!(Ok(false), excluded("a/b/d/p.vwx"));
    assert_eq!(Ok(false), excluded("__/referenced"));
}

#[test]
fn a_sequence_of_stages_feeds_each_stage_with_the_one_before() {
    let inputs = FilesManifest::new(texts(&["src/a.c", "src/b.h", "doc/c.c"]));
    let description = OutputsTransport {
        include_files: vec![],
        include_match_transforms: vec![vec![
            MatchTransform {
                match_regular_expression: String::from("^src/(.*)[.]c$"),
                match_transform_expressions: vec![
                    String::from("obj/$1.o"),
                    String::from("obj/$1.d"),
                ],
            },
            MatchTransform {
                match_regular_expression: String::from("^obj/(.*)[.]o$"),
                match_transform_expressions: vec![String::from("bin/$1")],
            },
        ]],
        exclude_matches: vec![],
    };
    let outputs = FilesManifest::try_from_outputs(&inputs, &description).expect("outputs");
    assert_eq!(&texts(&["bin/a"]), outputs.paths());
}

#[test]
fn projection_refuses_a_malformed_expression() {
    let inputs = FilesManifest::new(texts(&["a"]));
    let mut description = outputs_with_transforms();
    description.exclude_matches.push(Match { match_regular_expression: String::from("[") });
    assert_eq!(
        Err(Error::MalformedRegularExpression { pattern: String::from("[") }),
        FilesManifest::try_from_outputs(&inputs, &description)
    );
}

#[test]
fn replacing_replaces_every_match() {
    let inputs = FilesManifest::new(texts(&["a-b-c"]));
    let description = OutputsTransport {
        include_files: vec![],
        include_match_transforms: vec![vec![MatchTransform {
            match_regular_expression: String::from("-"),
            match_transform_expressions: vec![String::from("/")],
        }]],
        exclude_matches: vec![],
    };
    let outputs = FilesManifest::try_from_outputs(&inputs, &description).expect("outputs");
    assert_eq!(&texts(&["a/b/c"]), outputs.paths());
}
