use pywr_core::project::{ProjectManifest as AnyManifest, ProjectManifestValidationReport};
use pywr_core::manifest::composition::ComposedModelBuilder;
use pywr_core::manifest::paths::{
    base_model_field, check_contained, is_network_file_name, set_directory, set_directory_field, set_file_field,
    starts_with,
};
use pywr_core::manifest::{
    is_filename, sort_files_by_name, strict_relative_path, ComposeModelError, Definition, DefinitionSelection,
    NetworkSet, ProjectManifest, ProjectManifestValidationError, ResolvedNetworkFile, ResolvedNetworkSet,
    ValidationError,
};

fn manifest(base_model: &str, network_sets: Vec<NetworkSet>, selections: Vec<DefinitionSelection>) -> ProjectManifest {
    ProjectManifest {
        base_model: base_model.to_string(),
        network_sets,
        definitions: vec![Definition {
            name: "test".to_string(),
            includes: selections,
            overrides: None,
        }],
    }
}

fn set(name: &str, dir: Option<&str>, min_files: Option<usize>, max_files: Option<usize>) -> NetworkSet {
    NetworkSet {
        name: name.to_string(),
        dir: dir.map(str::to_string),
        min_files,
        max_files,
    }
}

fn selection(set: &str, files: Option<Vec<&str>>, include_all: bool) -> DefinitionSelection {
    DefinitionSelection {
        set: set.to_string(),
        files: files.map(|files| files.into_iter().map(str::to_string).collect()),
        include_all: Some(include_all),
    }
}

fn file(name: &str, dir: &str) -> ResolvedNetworkFile {
    ResolvedNetworkFile {
        name: name.to_string(),
        path: format!("{dir}/{name}"),
    }
}

/// The base model of a project at `/project` whose file exists.
fn base_found(base_model: &str) -> Result<String, ComposeModelError> {
    strict_relative_path(&base_model_field(), base_model).map(|p| format!("/project/{p}"))
}

/// A set whose directory exists under `/project` and holds `files`, in directory order.
fn set_found(set: &NetworkSet, files: &[&str]) -> Result<ResolvedNetworkSet, ComposeModelError> {
    let dir = strict_relative_path(&set_directory_field(&set.name), set_directory(set))?;
    let dir = format!("/project/{dir}");
    Ok(ResolvedNetworkSet::new(set, files.iter().map(|f| file(f, &dir)).collect()))
}

#[test]
fn validation_reports_missing_files_and_the_resulting_minimum_violation() {
    let manifest = manifest(
        "base.json",
        vec![set("nets", None, Some(1), None)],
        vec![selection("nets", Some(vec!["missing.json"]), false)],
    );
    let sets = vec![set_found(&manifest.network_sets[0], &[])];
    let report = manifest.validate_resolved(base_found("base.json"), sets).unwrap();
    assert!(matches!(
        report.errors.as_slice(),
        [
            ProjectManifestValidationError::FileNotFound { .. },
            ProjectManifestValidationError::MinFilesNotMet { actual_files: 0, .. }
        ]
    ));
}

#[test]
fn validation_reports_invalid_paths_without_aborting() {
    let manifest = manifest(
        "../base.json",
        vec![set("nets", Some("../nets"), None, None)],
        vec![selection("nets", Some(vec!["../outside.json"]), false)],
    );
    let sets = vec![set_found(&manifest.network_sets[0], &[])];
    let report = manifest.validate_resolved(base_found("../base.json"), sets).unwrap();
    assert!(report.errors.iter().any(|error| matches!(error, ProjectManifestValidationError::InvalidRelativePath { field, .. } if field == "base model")));
    assert!(report.errors.iter().any(|error| matches!(error, ProjectManifestValidationError::InvalidRelativePath { field, .. } if field.contains("network set 'nets' directory"))));
}

#[test]
fn composition_rejects_relative_path_escapes() {
    let manifest = manifest("../base.json", vec![], vec![]);
    assert!(
        matches!(manifest.compose_resolved("test", base_found("../base.json"), vec![]), Err(ComposeModelError::InvalidRelativePath { field, .. }) if field == "base model")
    );
}

#[test]
fn selected_filenames_must_be_single_portable_path_components() {
    let manifest = manifest(
        "base.json",
        vec![set("nets", None, None, None)],
        vec![selection("nets", Some(vec!["../outside.json"]), false)],
    );
    let report = manifest
        .validate_resolved(base_found("base.json"), vec![set_found(&manifest.network_sets[0], &["valid.json"])])
        .unwrap();
    assert!(report.errors.iter().any(|error| matches!(
        error,
        ProjectManifestValidationError::InvalidFilePath { file, .. } if file == "../outside.json"
    )));
    assert!(matches!(
        manifest.compose_resolved(
            "test",
            base_found("base.json"),
            vec![set_found(&manifest.network_sets[0], &["valid.json"])]
        ),
        Err(ComposeModelError::InvalidRelativePath { .. })
    ));
}

#[test]
fn include_all_is_sorted_and_composition_rejects_duplicate_set_selections() {
    let project_manifest = manifest(
        "base.json",
        vec![set("nets", None, None, None)],
        vec![selection("nets", None, true)],
    );
    let sets = vec![set_found(&project_manifest.network_sets[0], &["z.json", "a.json"])];
    let composed = project_manifest
        .compose_resolved("test", base_found("base.json"), sets)
        .unwrap();
    assert_eq!(
        composed.all_paths(),
        vec![
            "/project/base.json".to_string(),
            "/project/nets/a.json".to_string(),
            "/project/nets/z.json".to_string()
        ]
    );
    let duplicate = manifest(
        "base.json",
        vec![set("nets", None, None, None)],
        vec![
            selection("nets", None, true),
            selection("nets", Some(vec!["a.json"]), false),
        ],
    );
    let sets = vec![set_found(&duplicate.network_sets[0], &["z.json", "a.json"])];
    assert!(matches!(
        duplicate.compose_resolved("test", base_found("base.json"), sets),
        Err(ComposeModelError::DuplicateSelection { .. })
    ));
}

#[test]
fn symlinked_network_file_outside_its_set_is_rejected() {
    let manifest = manifest(
        "base.json",
        vec![set("nets", None, None, None)],
        vec![selection("nets", None, true)],
    );
    let field = set_file_field("nets");
    let escape = check_contained(
        &field,
        "/project/nets/escape.json",
        "/project/nets",
        "/elsewhere/outside.json".to_string(),
    );
    let sets: Vec<Result<ResolvedNetworkSet, ComposeModelError>> =
        vec![escape.map(|_| unreachable!("the file lies outside its set"))];
    let report = manifest.validate_resolved(base_found("base.json"), sets).unwrap();
    assert!(
        report
            .errors
            .iter()
            .any(|error| matches!(error, ProjectManifestValidationError::PathEscapesRoot { .. }))
    );
    let escape = check_contained(
        &field,
        "/project/nets/escape.json",
        "/project/nets",
        "/elsewhere/outside.json".to_string(),
    );
    let sets: Vec<Result<ResolvedNetworkSet, ComposeModelError>> = vec![escape.map(|_| unreachable!())];
    assert!(matches!(
        manifest.compose_resolved("test", base_found("base.json"), sets),
        Err(ComposeModelError::PathEscapesRoot { .. })
    ));
}

#[test]
fn validation_reports_duplicates_and_invalid_constraints() {
    let manifest = ProjectManifest {
        base_model: "base.json".to_string(),
        network_sets: vec![set("nets", None, Some(2), Some(1)), set("nets", None, None, None)],
        definitions: vec![
            Definition {
                name: "test".to_string(),
                includes: vec![],
                overrides: None,
            },
            Definition {
                name: "test".to_string(),
                includes: vec![],
                overrides: None,
            },
        ],
    };
    let sets = vec![
        set_found(&manifest.network_sets[0], &[]),
        set_found(&manifest.network_sets[1], &[]),
    ];
    let report = manifest.validate_resolved(base_found("base.json"), sets).unwrap();
    assert!(
        report
            .errors
            .iter()
            .any(|error| matches!(error, ProjectManifestValidationError::DuplicateNetworkSet { .. }))
    );
    assert!(
        report
            .errors
            .iter()
            .any(|error| matches!(error, ProjectManifestValidationError::DuplicateDefinition { .. }))
    );
    assert!(
        report
            .errors
            .iter()
            .any(|error| matches!(error, ProjectManifestValidationError::InvalidFileConstraints { .. }))
    );
}

#[test]
fn duplicate_counts_and_constraint_errors_are_exact() {
    let manifest = ProjectManifest {
        base_model: "base.json".to_string(),
        network_sets: vec![
            set("a", None, Some(3), Some(1)),
            set("b", None, None, None),
            set("a", None, None, None),
            set("a", None, None, None),
        ],
        definitions: vec![],
    };
    let errors = manifest.manifest_errors();
    assert_eq!(errors.len(), 2);
    assert!(matches!(&errors[0], ProjectManifestValidationError::DuplicateNetworkSet { set, count: 3 } if set == "a"));
    assert!(matches!(
        &errors[1],
        ProjectManifestValidationError::InvalidFileConstraints { set, min_files: 3, max_files: 1 } if set == "a"
    ));
}

#[test]
fn strict_relative_paths_and_file_names() {
    assert!(strict_relative_path("f", "nets").is_ok());
    assert!(strict_relative_path("f", "a/./b").is_ok());
    assert!(strict_relative_path("f", "a//b/").is_ok());
    for bad in ["", "/abs", "./a", "a/../b", "..", "a\\b"] {
        assert!(
            matches!(strict_relative_path("f", bad), Err(ComposeModelError::InvalidRelativePath { field, path }) if field == "f" && path == bad),
            "{bad}"
        );
    }
    assert!(is_filename("a.json"));
    assert!(is_filename("a.json/."));
    assert!(!is_filename("dir/a.json"));
    assert!(!is_filename(".."));
    assert!(!is_filename("."));
    assert!(!is_filename(""));
    assert!(!is_filename("/a.json"));
    assert!(!is_filename("a\\b.json"));
}

#[test]
fn network_file_names_have_the_json_extension() {
    assert!(is_network_file_name("a.json"));
    assert!(is_network_file_name("..json"));
    assert!(!is_network_file_name(".json"));
    assert!(!is_network_file_name("a.json5"));
    assert!(!is_network_file_name("a.yaml"));
    assert!(!is_network_file_name("json"));
}

#[test]
fn containment_compares_components() {
    assert!(starts_with("/project/nets/a.json", "/project/nets"));
    assert!(starts_with("/project/nets/", "/project//nets"));
    assert!(starts_with("/project/./nets/a", "/project/nets"));
    assert!(!starts_with("/project/netsx/a.json", "/project/nets"));
    assert!(!starts_with("/project", "/project/nets"));
    assert!(!starts_with("project/nets", "/project"));
    assert!(!starts_with("./a", "a"));
    let ok = check_contained("f", "/p/nets/a.json", "/p/nets", "/p/nets/a.json".to_string());
    assert_eq!(ok.unwrap(), "/p/nets/a.json");
    let escape = check_contained("f", "/p/nets/e.json", "/p/nets", "/q/e.json".to_string());
    assert!(matches!(
        escape,
        Err(ComposeModelError::PathEscapesRoot { field, path, root, resolved_path })
            if field == "f" && path == "/p/nets/e.json" && root == "/p/nets" && resolved_path == "/q/e.json"
    ));
}

#[test]
fn set_directories_and_field_names() {
    let named = set("nets", None, None, None);
    let elsewhere = set("nets", Some("fragments"), None, None);
    assert_eq!(set_directory(&named), "nets");
    assert_eq!(set_directory(&elsewhere), "fragments");
    assert_eq!(set_directory_field("nets"), "network set 'nets' directory");
    assert_eq!(set_file_field("nets"), "network set 'nets' file");
    assert_eq!(base_model_field(), "base model");
}

#[test]
fn files_are_sorted_by_name() {
    let files = vec![file("b.json", "/d"), file("a.json", "/d"), file("B.json", "/d"), file("a.jso", "/d")];
    let sorted: Vec<String> = sort_files_by_name(files).into_iter().map(|f| f.name).collect();
    assert_eq!(sorted, vec!["B.json", "a.jso", "a.json", "b.json"]);
}

#[test]
fn validation_checks_each_selection_against_its_set() {
    let manifest = ProjectManifest {
        base_model: "base.json".to_string(),
        network_sets: vec![set("nets", None, None, Some(1)), set("more", None, Some(1), None)],
        definitions: vec![Definition {
            name: "d".to_string(),
            includes: vec![
                selection("nets", Some(vec!["a.json", "a.json", "b.json", "c.json"]), false),
                selection("nets", None, true),
                selection("ghost", None, true),
            ],
            overrides: None,
        }],
    };
    let sets = vec![
        set_found(&manifest.network_sets[0], &["b.json", "a.json"]),
        set_found(&manifest.network_sets[1], &["x.json"]),
    ];
    let report = manifest.validate_resolved(base_found("base.json"), sets).unwrap();
    assert!(!report.is_valid());
    let errors = report.errors;
    assert_eq!(errors.len(), 6, "{errors:?}");
    assert!(matches!(&errors[0], ProjectManifestValidationError::DuplicateSet { definition, set, count: 2 } if definition == "d" && set == "nets"));
    assert!(matches!(&errors[1], ProjectManifestValidationError::DuplicateFile { file, .. } if file == "a.json"));
    assert!(matches!(&errors[2], ProjectManifestValidationError::FileNotFound { file, .. } if file == "c.json"));
    assert!(matches!(
        &errors[3],
        ProjectManifestValidationError::MaxFilesExceeded { set, max_files: 1, actual_files: 2, .. } if set == "nets"
    ));
    assert!(matches!(
        &errors[4],
        ProjectManifestValidationError::MinFilesNotMet { set, min_files: 1, actual_files: 0, .. } if set == "more"
    ));
    assert!(matches!(&errors[5], ProjectManifestValidationError::SetNotFound { set, .. } if set == "ghost"));
}

#[test]
fn a_valid_manifest_has_an_empty_report() {
    let manifest = manifest(
        "base.json",
        vec![set("nets", None, Some(1), Some(2))],
        vec![selection("nets", Some(vec!["a.json"]), false)],
    );
    let sets = vec![set_found(&manifest.network_sets[0], &["a.json", "b.json"])];
    let report = manifest.validate_resolved(base_found("base.json"), sets).unwrap();
    assert!(report.is_valid());
}

#[test]
fn validating_one_model_needs_its_definition() {
    let manifest = manifest("base.json", vec![], vec![]);
    assert!(matches!(
        manifest.validate_model_resolved("other", base_found("base.json"), vec![]),
        Err(ValidationError::DefinitionNotFound { definition }) if definition == "other"
    ));
    let report = manifest
        .validate_model_resolved("test", base_found("base.json"), vec![])
        .unwrap();
    assert!(report.is_valid());
}

#[test]
fn composition_errors_in_order_of_checks() {
    let duplicated = ProjectManifest {
        base_model: "base.json".to_string(),
        network_sets: vec![set("s", None, None, None), set("s", None, None, None)],
        definitions: vec![
            Definition { name: "d".to_string(), includes: vec![], overrides: None },
            Definition { name: "d".to_string(), includes: vec![], overrides: None },
        ],
    };
    assert!(matches!(duplicated.composition_definition("d"), Err(ComposeModelError::DuplicateDefinition { definition }) if definition == "d"));
    let sets_only = ProjectManifest {
        definitions: vec![Definition { name: "d".to_string(), includes: vec![], overrides: None }],
        ..duplicated
    };
    assert!(matches!(sets_only.composition_definition("d"), Err(ComposeModelError::DuplicateNetworkSet { set }) if set == "s"));
    let plain = manifest("base.json", vec![set("s", None, Some(1), None)], vec![]);
    assert!(matches!(plain.composition_definition("x"), Err(ComposeModelError::DefinitionNotFound { definition }) if definition == "x"));
    assert_eq!(plain.composition_definition("test").unwrap(), 0);
    let sets = vec![set_found(&plain.network_sets[0], &["a.json"])];
    assert!(matches!(
        plain.compose_resolved("test", base_found("base.json"), sets),
        Err(ComposeModelError::MinFilesNotMet { set, min_files: 1, actual_files: 0 }) if set == "s"
    ));
}

#[test]
fn composition_follows_the_selections_in_order() {
    let ordered = manifest(
        "base.json",
        vec![set("first", None, None, Some(2)), set("second", Some("other"), Some(1), None)],
        vec![
            selection("second", Some(vec!["y.json"]), false),
            selection("first", Some(vec!["b.json", "a.json"]), false),
        ],
    );
    let sets = vec![
        set_found(&ordered.network_sets[0], &["a.json", "b.json", "c.json"]),
        set_found(&ordered.network_sets[1], &["x.json", "y.json"]),
    ];
    let composed = ordered.compose_resolved("test", base_found("base.json"), sets).unwrap();
    assert_eq!(composed.name(), "test");
    assert_eq!(
        composed.all_paths(),
        vec![
            "/project/base.json".to_string(),
            "/project/other/y.json".to_string(),
            "/project/first/b.json".to_string(),
            "/project/first/a.json".to_string(),
        ]
    );
    let too_many = manifest(
        "base.json",
        vec![set("first", None, None, Some(1))],
        vec![selection("first", None, true)],
    );
    let sets = vec![set_found(&too_many.network_sets[0], &["a.json", "b.json"])];
    assert!(matches!(
        too_many.compose_resolved("test", base_found("base.json"), sets),
        Err(ComposeModelError::MaxFilesExceeded { max_files: 1, actual_files: 2, .. })
    ));
    let missing = manifest("base.json", vec![], vec![selection("nowhere", None, true)]);
    assert!(matches!(
        missing.compose_resolved("test", base_found("base.json"), vec![]),
        Err(ComposeModelError::SetNotFound { set }) if set == "nowhere"
    ));
    let bad_bounds = manifest(
        "base.json",
        vec![set("s", None, Some(2), Some(1))],
        vec![selection("s", None, true)],
    );
    let sets = vec![set_found(&bad_bounds.network_sets[0], &[])];
    assert!(matches!(
        bad_bounds.compose_resolved("test", base_found("base.json"), sets),
        Err(ComposeModelError::InvalidFileConstraints { min_files: 2, max_files: 1, .. })
    ));
    let not_found = manifest("base.json", vec![set("s", None, None, None)], vec![selection("s", Some(vec!["q.json"]), false)]);
    let sets = vec![set_found(&not_found.network_sets[0], &["a.json"])];
    assert!(matches!(
        not_found.compose_resolved("test", base_found("base.json"), sets),
        Err(ComposeModelError::FileNotFound { file, .. }) if file == "q.json"
    ));
    let twice = manifest("base.json", vec![set("s", None, None, None)], vec![selection("s", Some(vec!["a.json", "a.json"]), false)]);
    let sets = vec![set_found(&twice.network_sets[0], &["a.json"])];
    assert!(matches!(
        twice.compose_resolved("test", base_found("base.json"), sets),
        Err(ComposeModelError::DuplicateFile { file, .. }) if file == "a.json"
    ));
}

#[test]
fn resolution_errors_convert_to_validation_errors() {
    let e = ComposeModelError::DirectoryNotFound { set: "s".to_string(), path: "/p/s".to_string() };
    assert!(e.is_resolution_error());
    assert!(matches!(e.into_validation_error(), ProjectManifestValidationError::DirectoryNotFound { set, dir } if set == "s" && dir == "/p/s"));
    assert!(!ComposeModelError::SetNotFound { set: "s".to_string() }.is_resolution_error());
}

#[test]
fn builder_collects_paths_in_order() {
    let mut builder = ComposedModelBuilder::new("m".to_string(), "/b.json".to_string());
    builder.add_included_path("/x.json".to_string()).add_included_path("/y.json".to_string());
    let model = builder.build();
    assert_eq!(model.name(), "m");
    assert_eq!(model.all_paths(), vec!["/b.json", "/x.json", "/y.json"]);
    assert_eq!(model.overrides(), None);

    let mut builder = ComposedModelBuilder::new("m".to_string(), "/b.json".to_string());
    builder.overrides("{\"scenarios\":null}".to_string());
    assert_eq!(builder.build().overrides(), Some("{\"scenarios\":null}"));
}

#[test]
fn composition_carries_the_overrides_of_the_definition() {
    let mut with_overrides = manifest(
        "base.json",
        vec![set("nets", None, None, None)],
        vec![selection("nets", Some(vec!["a.json"]), false)],
    );
    let text = "{\"time\":{\"start\":\"2020-01-01\"}}";
    with_overrides.definitions[0].overrides = Some(text.to_string());
    let sets = vec![set_found(&with_overrides.network_sets[0], &["a.json"])];
    let model = with_overrides.compose_resolved("test", base_found("base.json"), sets).unwrap();
    assert_eq!(model.overrides(), Some(text));
    assert_eq!(model.all_paths(), vec!["/project/base.json", "/project/nets/a.json"]);
}

#[test]
fn a_definition_composes_exactly_when_its_model_validates() {
    let cases: Vec<(ProjectManifest, Vec<&[&str]>)> = vec![
        (
            manifest(
                "base.json",
                vec![set("nets", None, Some(1), Some(2))],
                vec![selection("nets", Some(vec!["a.json"]), false)],
            ),
            vec![&["a.json", "b.json"]],
        ),
        (
            manifest(
                "base.json",
                vec![set("nets", None, Some(1), Some(1))],
                vec![selection("nets", None, true)],
            ),
            vec![&["a.json", "b.json"]],
        ),
        (
            manifest(
                "base.json",
                vec![set("nets", None, None, None), set("other", None, Some(2), Some(1))],
                vec![selection("nets", None, true)],
            ),
            vec![&["a.json"], &[]],
        ),
        (
            manifest("base.json", vec![set("nets", None, None, None)], vec![selection("nets", Some(vec!["x.json"]), false)]),
            vec![&["a.json"]],
        ),
    ];
    let mut outcomes = vec![];
    for (manifest, files) in &cases {
        let resolve = || -> Vec<Result<ResolvedNetworkSet, ComposeModelError>> {
            manifest.network_sets.iter().zip(files.iter()).map(|(s, f)| set_found(s, f)).collect()
        };
        let report = manifest.validate_model_resolved("test", base_found("base.json"), resolve()).unwrap();
        let composed = manifest.compose_resolved("test", base_found("base.json"), resolve());
        assert_eq!(report.is_valid(), composed.is_ok(), "{:?}", report.errors);
        outcomes.push(composed.is_ok());
    }
    assert_eq!(outcomes, vec![true, false, false, false]);
}

#[test]
fn versioned_manifests_follow_their_format() {
    let v1 = manifest(
        "base.json",
        vec![set("nets", None, Some(1), Some(1))],
        vec![selection("nets", Some(vec!["a.json"]), false)],
    );
    let sets = vec![set_found(&v1.network_sets[0], &["a.json", "b.json"])];
    let project = AnyManifest::V1(v1);
    let report = project.validate_resolved(base_found("base.json"), sets).unwrap();
    assert!(report.is_valid());
    let ProjectManifestValidationReport::V1(inner) = &report;
    assert!(inner.errors.is_empty());

    let AnyManifest::V1(v1) = &project;
    let sets = vec![set_found(&v1.network_sets[0], &["a.json"])];
    let composed = project.compose_resolved("test", base_found("base.json"), sets).unwrap();
    assert_eq!(composed.name(), "test");
    assert!(matches!(
        project.compose_resolved("other", base_found("base.json"), vec![]),
        Err(ComposeModelError::DefinitionNotFound { .. })
    ));
}
