use context_builder::aggregate::aggregate_resolutions;
use context_builder::file_resolver::{
    create_resolved_file, fuzzy_candidates, keep_found, resolve_step, Observations, Request, Step,
    TargetKind,
};
use context_builder::types::{Config, InputResolution};

const WD: &str = "/work";

fn config() -> Config {
    Config::new(WD.to_string())
}

/// A small filesystem: the regular files (absolute paths) and directories.
struct FakeFs {
    files: Vec<&'static str>,
    dirs: Vec<&'static str>,
}

impl FakeFs {
    fn kind(&self, path: &str) -> TargetKind {
        if self.files.contains(&path) {
            TargetKind::File
        } else if self.dirs.contains(&path) {
            TargetKind::Directory
        } else {
            TargetKind::Missing
        }
    }

    fn under(&self, root: &str) -> Vec<String> {
        let prefix = format!("{}/", root.trim_end_matches('/'));
        self.files.iter().filter(|f| f.starts_with(&prefix)).map(|f| f.to_string()).collect()
    }

    fn glob(&self, pattern: &str) -> Result<Vec<Result<String, String>>, String> {
        if pattern.contains("[") && !pattern.contains("]") {
            return Err("Pattern syntax error near position 0: invalid range pattern".to_string());
        }
        let suffix = pattern.trim_start_matches('*');
        Ok(self.under(WD).into_iter().filter(|f| f.ends_with(suffix)).map(Ok).collect())
    }

    fn resolve(&self, input: &str) -> InputResolution {
        let config = config();
        let mut obs = Observations::new();
        loop {
            match resolve_step(input, &config, &obs) {
                Step::Done(r) => return r,
                Step::Need(Request::Inspect { path }) => obs.target = Some(self.kind(&path)),
                Step::Need(Request::CanonicalizeTarget { path }) => {
                    obs.target_canonical = Some(Ok(path))
                }
                Step::Need(Request::ListDirectory { path }) => {
                    obs.directory = Some(self.under(&path).into_iter().map(Ok).collect())
                }
                Step::Need(Request::ExpandGlob { directory, pattern }) => {
                    assert_eq!(directory, WD);
                    obs.glob = Some(self.glob(&pattern))
                }
                Step::Need(Request::WalkWorkingDir { root }) => obs.walk = Some(self.under(&root)),
                Step::Need(Request::CanonicalizeMatch { path }) => {
                    obs.match_canonical = Some(Ok(path))
                }
            }
        }
    }
}

fn project() -> FakeFs {
    FakeFs {
        files: vec![
            "/work/src/main.X",
            "/work/src/lib.rs",
            "/work/src/util/mod.rs",
            "/work/readme.md",
            "/work/docs/readme.txt",
        ],
        dirs: vec!["/work", "/work/src", "/work/src/util", "/work/docs"],
    }
}

fn success_paths(r: &InputResolution) -> Vec<(String, String)> {
    match r {
        InputResolution::Success(files) => files
            .iter()
            .map(|f| (f.display_path().to_string(), f.canonical_path().to_string()))
            .collect(),
        other => panic!("expected success, got {:?}", other),
    }
}

#[test]
fn existing_file_resolves_to_itself() {
    let r = project().resolve("src/lib.rs");
    assert_eq!(
        success_paths(&r),
        vec![("src/lib.rs".to_string(), "/work/src/lib.rs".to_string())]
    );
}

#[test]
fn absolute_file_path_resolves() {
    let r = project().resolve("/work/readme.md");
    assert_eq!(
        success_paths(&r),
        vec![("readme.md".to_string(), "/work/readme.md".to_string())]
    );
}

#[test]
fn directory_expands_to_nested_files() {
    let r = project().resolve("src");
    let paths = success_paths(&r);
    assert_eq!(paths.len(), 3);
    assert!(paths.contains(&("src/util/mod.rs".to_string(), "/work/src/util/mod.rs".to_string())));
}

#[test]
fn directory_drops_files_that_fail_canonicalization() {
    let list = vec![
        Ok("/work/a.rs".to_string()),
        Err("permission denied".to_string()),
        Ok("/work/b.rs".to_string()),
    ];
    let files = keep_found(&list, &config());
    assert_eq!(files.len(), 2);
    assert_eq!(files[0].display_path(), "a.rs");
    assert_eq!(files[1].canonical_path(), "/work/b.rs");
}

#[test]
fn glob_matching_many_files_is_success_not_ambiguous() {
    let r = project().resolve("*.rs");
    assert_eq!(success_paths(&r).len(), 2);
}

#[test]
fn glob_is_anchored_at_the_working_directory() {
    let mut obs = Observations::new();
    obs.target = Some(TargetKind::Missing);
    match resolve_step("src/*.rs", &config(), &obs) {
        Step::Need(Request::ExpandGlob { directory, pattern }) => {
            assert_eq!(directory, "/work");
            assert_eq!(pattern, "src/*.rs");
        }
        other => panic!("unexpected {:?}", other),
    }
}

#[test]
fn glob_matching_nothing_is_not_found() {
    let r = project().resolve("*.py");
    assert!(matches!(r, InputResolution::NotFound { ref input_string } if input_string == "*.py"));
}

#[test]
fn invalid_glob_reports_the_compiler_message() {
    let r = project().resolve("src/[a");
    match r {
        InputResolution::InvalidGlobPattern { input_string, error } => {
            assert_eq!(input_string, "src/[a");
            assert!(error.contains("invalid range pattern"));
        }
        other => panic!("unexpected {:?}", other),
    }
}

#[test]
fn fragment_with_one_match_resolves() {
    let r = project().resolve("main.X");
    assert_eq!(
        success_paths(&r),
        vec![("src/main.X".to_string(), "/work/src/main.X".to_string())]
    );
}

#[test]
fn fragment_matching_two_files_is_ambiguous() {
    let r = project().resolve("readme");
    match r {
        InputResolution::Ambiguous { input_string, conflicting_paths } => {
            assert_eq!(input_string, "readme");
            assert_eq!(conflicting_paths, vec!["docs/readme.txt".to_string(), "readme.md".to_string()]);
        }
        other => panic!("unexpected {:?}", other),
    }
}

#[test]
fn fragment_without_match_is_not_found() {
    let r = project().resolve("nonexistent123");
    assert!(matches!(r, InputResolution::NotFound { ref input_string } if input_string == "nonexistent123"));
}

#[test]
fn missing_path_with_separator_is_reported_as_such() {
    let r = project().resolve("src/nothing.rs");
    match r {
        InputResolution::PathDoesNotExist { input_string, path_tried } => {
            assert_eq!(input_string, "src/nothing.rs");
            assert_eq!(path_tried, "/work/src/nothing.rs");
        }
        other => panic!("unexpected {:?}", other),
    }
}

#[test]
fn canonicalization_failure_degrades_to_not_found() {
    let mut obs = Observations::new();
    obs.target = Some(TargetKind::File);
    obs.target_canonical = Some(Err("broken link".to_string()));
    match resolve_step("x.rs", &config(), &obs) {
        Step::Done(InputResolution::NotFound { input_string }) => assert_eq!(input_string, "x.rs"),
        other => panic!("unexpected {:?}", other),
    }
}

#[test]
fn first_request_inspects_the_joined_path() {
    match resolve_step("src/lib.rs", &config(), &Observations::new()) {
        Step::Need(Request::Inspect { path }) => assert_eq!(path, "/work/src/lib.rs"),
        other => panic!("unexpected {:?}", other),
    }
}

#[test]
fn resolving_twice_gives_the_same_outcome() {
    let fs = project();
    for input in ["src", "readme", "main.X", "*.rs", "nonexistent123", "src/nothing.rs"] {
        let a = format!("{:?}", fs.resolve(input));
        let b = format!("{:?}", fs.resolve(input));
        assert_eq!(a, b);
    }
}

#[test]
fn fuzzy_candidates_are_ordered_by_component() {
    let walk = vec![
        "/work/a.b".to_string(),
        "/work/a/b".to_string(),
        "/work/a/b".to_string(),
        "/work/b".to_string(),
    ];
    let c = fuzzy_candidates(&walk, "b", &config());
    assert_eq!(c, vec!["/work/a/b".to_string(), "/work/a.b".to_string(), "/work/b".to_string()]);
}

#[test]
fn resolved_file_shows_path_relative_to_working_dir() {
    let f = create_resolved_file("/work/src/util/mod.rs", &config());
    assert_eq!(f.display_path(), "src/util/mod.rs");
    assert_eq!(f.canonical_path(), "/work/src/util/mod.rs");
    let outside = create_resolved_file("/etc/hosts", &config());
    assert_eq!(outside.display_path(), "../etc/hosts");
}

#[test]
fn run_fails_when_one_input_is_not_found() {
    let fs = project();
    let rs = vec![fs.resolve("src/main.X"), fs.resolve("nonexistent123")];
    let agg = aggregate_resolutions(&rs);
    assert_eq!(agg.files.len(), 1);
    assert_eq!(agg.files[0].canonical_path(), "/work/src/main.X");
    assert_eq!(agg.not_found, vec![1]);
    assert!(agg.invalid_patterns.is_empty() && agg.missing_paths.is_empty() && agg.ambiguous.is_empty());
    assert!(agg.has_errors());
}

#[test]
fn overlapping_inputs_keep_each_file_once_in_first_order() {
    let fs = project();
    let rs = vec![fs.resolve("src/lib.rs"), fs.resolve("src"), fs.resolve("readme.md")];
    let agg = aggregate_resolutions(&rs);
    let got: Vec<&str> = agg.files.iter().map(|f| f.canonical_path()).collect();
    assert_eq!(got[0], "/work/src/lib.rs");
    assert_eq!(got.len(), 4);
    assert_eq!(got.iter().filter(|p| **p == "/work/src/lib.rs").count(), 1);
    assert_eq!(got[3], "/work/readme.md");
    assert!(!agg.has_errors());
}

#[test]
fn every_failure_kind_lands_in_its_bucket() {
    let fs = project();
    let rs = vec![
        fs.resolve("src/[a"),
        fs.resolve("src/nothing.rs"),
        fs.resolve("readme"),
        fs.resolve("zzz"),
        fs.resolve("src/lib.rs"),
    ];
    let agg = aggregate_resolutions(&rs);
    assert_eq!(agg.invalid_patterns, vec![0]);
    assert_eq!(agg.missing_paths, vec![1]);
    assert_eq!(agg.ambiguous, vec![2]);
    assert_eq!(agg.not_found, vec![3]);
    assert_eq!(agg.files.len(), 1);
    assert!(agg.has_errors());
}
