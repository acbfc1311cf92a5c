use prefix_strip::error::StripError;
use prefix_strip::named_path::NamedPath;
use prefix_strip::prefix::{resolve_prefix, starts_with, try_find_prefix, vet_named_paths};
use std::path::PathBuf;

fn named(paths: &[&str]) -> Vec<NamedPath> {
    paths
        .iter()
        .map(|p| NamedPath::from_pathbuf(PathBuf::from(p)).unwrap())
        .collect()
}

fn names(paths: &[NamedPath]) -> Vec<String> {
    paths.iter().map(|p| p.name().to_string()).collect()
}

#[test]
fn name_is_final_component() {
    let p = NamedPath::from_pathbuf(PathBuf::from("some/dir/prefix_a.txt")).unwrap();
    assert_eq!(p.name(), "prefix_a.txt");
    assert_eq!(p.pathbuf(), &PathBuf::from("some/dir/prefix_a.txt"));
}

#[test]
fn path_without_final_component_is_refused() {
    assert!(NamedPath::from_pathbuf(PathBuf::from("/")).is_none());
    assert!(NamedPath::from_pathbuf(PathBuf::from("a/..")).is_none());
}

#[test]
fn from_parts_refuses_empty_name() {
    assert!(NamedPath::from_parts(PathBuf::from("x"), String::new()).is_none());
    let p = NamedPath::from_parts(PathBuf::from("x"), "x".to_string()).unwrap();
    assert_eq!(p.name(), "x");
}

#[test]
fn longest_common_prefix_of_three_names() {
    let paths = named(&["prefix_a.txt", "prefix_b.txt", "prefix_c.log"]);
    assert_eq!(try_find_prefix(&paths), Ok(Some("prefix_".to_string())));
}

#[test]
fn no_common_prefix_is_prefix_not_found() {
    let paths = named(&["abc", "xyz"]);
    assert_eq!(try_find_prefix(&paths), Ok(None));
    assert_eq!(resolve_prefix(None, paths).err(), Some(StripError::PrefixNotFound));
}

#[test]
fn identical_names_give_the_whole_name() {
    let paths = named(&["a/same.txt", "b/same.txt"]);
    assert_eq!(try_find_prefix(&paths), Ok(Some("same.txt".to_string())));
}

#[test]
fn prefix_bounded_by_shortest_name() {
    let paths = named(&["abc", "ab", "abcd"]);
    assert_eq!(try_find_prefix(&paths), Ok(Some("ab".to_string())));
}

#[test]
fn prefix_compares_whole_characters() {
    let paths = named(&["été_1", "été_2"]);
    assert_eq!(try_find_prefix(&paths), Ok(Some("été_".to_string())));
    let mixed = named(&["Abc", "abc"]);
    assert_eq!(try_find_prefix(&mixed), Ok(None));
}

#[test]
fn discovery_keeps_every_candidate() {
    let paths = named(&["x_1", "x_2"]);
    let (prefix, kept) = resolve_prefix(None, paths).unwrap();
    assert_eq!(prefix, "x_");
    assert_eq!(names(&kept), vec!["x_1", "x_2"]);
}

#[test]
fn validation_keeps_matching_names() {
    let paths = named(&["img_1.png", "doc.txt"]);
    let vetted = vet_named_paths(&"img_".to_string(), paths).unwrap();
    assert_eq!(names(&vetted), vec!["img_1.png"]);
}

#[test]
fn validation_with_no_match_fails() {
    let paths = named(&["doc.txt"]);
    assert_eq!(
        vet_named_paths(&"img_".to_string(), paths).err(),
        Some(StripError::NoFilesRemaining)
    );
}

#[test]
fn validation_mode_uses_prefix_verbatim() {
    let paths = named(&["img_1.png", "doc.txt", "img_2.png"]);
    let (prefix, kept) = resolve_prefix(Some("img".to_string()), paths).unwrap();
    assert_eq!(prefix, "img");
    assert_eq!(names(&kept), vec!["img_1.png", "img_2.png"]);
    let none = named(&["doc.txt"]);
    assert_eq!(
        resolve_prefix(Some("img_".to_string()), none).err(),
        Some(StripError::NoFilesRemaining)
    );
}

#[test]
fn starts_with_is_case_sensitive() {
    assert!(starts_with("img_1", "img_"));
    assert!(starts_with("img_1", ""));
    assert!(!starts_with("IMG_1", "img_"));
    assert!(!starts_with("im", "img_"));
}
