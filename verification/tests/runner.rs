use dprintx::config::{DprintxConfig, ProfileResolution};
use dprintx::matcher::ResolveError;
use dprintx::runner::{
    command_args, distinct_paths, group_file, is_help_request, resolves_to, split_files_and_dirs,
    DprintRunner,
};

#[test]
fn test_split_all_files() {
    let args: Vec<String> = vec!["foo.go".into(), "bar.rs".into()];
    let (files, dirs) = split_files_and_dirs(&args, &vec![]);
    assert_eq!(files, vec!["foo.go", "bar.rs"]);
    assert!(dirs.is_empty());
}

#[test]
fn test_split_all_dirs() {
    let dir = "/tmp/dprintx-test-split-dirs".to_string();
    let args = vec![dir.clone()];
    let (files, dirs) = split_files_and_dirs(&args, &vec![dir]);
    assert!(files.is_empty());
    assert_eq!(dirs.len(), 1);
}

#[test]
fn test_split_mixed() {
    let dir = "/tmp/dprintx-test-split-mixed".to_string();
    let args: Vec<String> = vec!["explicit.go".into(), dir.clone(), "another.rs".into()];
    let (files, dirs) = split_files_and_dirs(&args, &vec![dir.clone()]);
    assert_eq!(files, vec!["explicit.go", "another.rs"]);
    assert_eq!(dirs.len(), 1);
    assert_eq!(dirs, vec![dir]);
}

#[test]
fn runner_takes_the_expanded_binary() {
    let config = DprintxConfig::parse(
        r#"{"dprint": "~/.cargo/bin/dprint", "profiles": {}, "match": {}}"#,
        Some("/home/alice".to_string()),
    )
    .unwrap();
    assert_eq!(DprintRunner::new(&config).dprint_bin(), "/home/alice/.cargo/bin/dprint");
    let config =
        DprintxConfig::parse(r#"{"dprint": "/usr/bin/dprint", "profiles": {}, "match": {}}"#, None)
            .unwrap();
    assert_eq!(DprintRunner::new(&config).dprint_bin(), "/usr/bin/dprint");
}

#[test]
fn files_are_grouped_by_configuration() {
    let mut groups: Vec<(String, Vec<String>)> = Vec::new();
    group_file(&mut groups, "/a.json", "1.go");
    group_file(&mut groups, "/b.json", "2.go");
    group_file(&mut groups, "/a.json", "3.go");
    assert_eq!(
        groups,
        vec![
            ("/a.json".to_string(), vec!["1.go".to_string(), "3.go".to_string()]),
            ("/b.json".to_string(), vec!["2.go".to_string()]),
        ]
    );
    assert_eq!(
        command_args("fmt", "/a.json", &groups[0].1),
        vec!["fmt", "--config", "/a.json", "1.go", "3.go"]
    );
    assert_eq!(command_args("check", "/c", &vec![]), vec!["check", "--config", "/c"]);
}

#[test]
fn help_requests() {
    let args: Vec<String> = vec!["license".into(), "-h".into()];
    assert!(is_help_request(&args));
    let args: Vec<String> = vec!["--help".into()];
    assert!(is_help_request(&args));
    let args: Vec<String> = vec!["-help".into(), "h".into()];
    assert!(!is_help_request(&args));
    assert!(!is_help_request(&[]));
}

#[test]
fn paths_are_kept_once_in_first_seen_order() {
    let paths: Vec<String> = vec!["/b".into(), "/a".into(), "/b".into(), "/c".into(), "/a".into()];
    assert_eq!(distinct_paths(&paths), vec!["/b", "/a", "/c"]);
    assert!(distinct_paths(&vec![]).is_empty());
}

#[test]
fn a_file_belongs_to_the_profile_it_resolves_to() {
    assert!(resolves_to(&Ok(Some(ProfileResolution::Config("/a".to_string()))), "/a"));
    assert!(!resolves_to(&Ok(Some(ProfileResolution::Config("/a".to_string()))), "/b"));
    assert!(!resolves_to(&Ok(Some(ProfileResolution::Ignore)), "/a"));
    assert!(!resolves_to(&Ok(None), "/a"));
    assert!(!resolves_to(&Err(ResolveError::UnknownProfile("/a".to_string())), "/a"));
}
