use prefix_strip::error::StripError;
use prefix_strip::resolve::{resolve_candidates, select_source, Outcome, Probe, Source};
use std::path::PathBuf;

#[test]
fn explicit_files_and_directory_conflict() {
    let r = select_source(Some(vec![PathBuf::from("a")]), Some(PathBuf::from("d")));
    assert!(matches!(r, Err(StripError::ConflictingSources)));
}

#[test]
fn explicit_files_are_used_alone() {
    match select_source(Some(vec![PathBuf::from("a"), PathBuf::from("b")]), None) {
        Ok(Source::Files(f)) => assert_eq!(f, vec![PathBuf::from("a"), PathBuf::from("b")]),
        _ => panic!("expected the file list"),
    }
}

#[test]
fn directory_is_used_alone() {
    match select_source(None, Some(PathBuf::from("some/dir"))) {
        Ok(Source::Directory(d)) => assert_eq!(d, PathBuf::from("some/dir")),
        _ => panic!("expected the directory"),
    }
}

#[test]
fn current_directory_by_default() {
    match select_source(None, None) {
        Ok(Source::Directory(d)) => assert_eq!(d, PathBuf::from("./")),
        _ => panic!("expected the current directory"),
    }
}

#[test]
fn soft_failures_shrink_the_set() {
    let probes = vec![
        Probe::Found(PathBuf::from("a/x_1")),
        Probe::Missing,
        Probe::Failed,
        Probe::Found(PathBuf::from("/")),
        Probe::FoundDirectory(PathBuf::from("a/x_dir")),
        Probe::Found(PathBuf::from("a/x_2")),
    ];
    let r = resolve_candidates(probes, false);
    assert_eq!(
        r.outcomes,
        vec![
            Outcome::Kept,
            Outcome::Missing,
            Outcome::Failed,
            Outcome::NoFileName,
            Outcome::Excluded,
            Outcome::Kept
        ]
    );
    let names: Vec<&str> = r.named_paths.iter().map(|n| n.name()).collect();
    assert_eq!(names, vec!["x_1", "x_2"]);
}

#[test]
fn directories_included_on_request() {
    let probes = vec![
        Probe::FoundDirectory(PathBuf::from("x_dir")),
        Probe::Found(PathBuf::from("x_file")),
    ];
    let r = resolve_candidates(probes, true);
    assert_eq!(r.outcomes, vec![Outcome::Kept, Outcome::Kept]);
    let names: Vec<&str> = r.named_paths.iter().map(|n| n.name()).collect();
    assert_eq!(names, vec!["x_dir", "x_file"]);
}

#[test]
fn nothing_left_is_no_files_remaining() {
    let r = resolve_candidates(vec![Probe::Missing, Probe::Failed], false);
    assert_eq!(r.into_candidates().err(), Some(StripError::NoFilesRemaining));
    let empty = resolve_candidates(Vec::new(), false);
    assert_eq!(empty.into_candidates().err(), Some(StripError::NoFilesRemaining));
}

#[test]
fn candidates_kept_in_order() {
    let r = resolve_candidates(
        vec![Probe::Found(PathBuf::from("b")), Probe::Found(PathBuf::from("a"))],
        false,
    );
    let kept = r.into_candidates().unwrap();
    assert_eq!(kept[0].pathbuf(), &PathBuf::from("b"));
    assert_eq!(kept[1].pathbuf(), &PathBuf::from("a"));
}

#[test]
fn repeated_path_is_kept_once() {
    let probes = vec![
        Probe::Found(PathBuf::from("a/x_1")),
        Probe::Found(PathBuf::from("a/x_2")),
        Probe::Found(PathBuf::from("a/x_1")),
    ];
    let r = resolve_candidates(probes, false);
    assert_eq!(r.outcomes, vec![Outcome::Kept, Outcome::Kept, Outcome::Duplicate]);
    let names: Vec<&str> = r.named_paths.iter().map(|n| n.name()).collect();
    assert_eq!(names, vec!["x_1", "x_2"]);
}

#[test]
fn nameless_repeat_is_no_file_name() {
    let r = resolve_candidates(vec![Probe::Found(PathBuf::from("/")), Probe::Found(PathBuf::from("/"))], false);
    assert_eq!(r.outcomes, vec![Outcome::NoFileName, Outcome::NoFileName]);
}

#[test]
fn error_messages() {
    assert_eq!(
        StripError::NoFilesRemaining.message(),
        "Error: None of the specified files could be affected"
    );
    assert_eq!(StripError::PrefixNotFound.message(), "Couldn't guess a prefix!");
    assert!(StripError::ConflictingSources.message().contains("source directory"));
}
