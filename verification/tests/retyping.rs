//! Extension replacement and the staging step on its own.

use cfg_stage::staging::{remove_all_files, set_ext_to_all, FsAction, StagedPath, TransformMode};
use cfg_stage::paths::{extension_matches, with_extension};

#[test]
fn with_extension_replaces_the_extension() {
    assert_eq!(with_extension("base_cfg.txt", "bsl"), "base_cfg.bsl");
    assert_eq!(with_extension("dir/file.txt", "bsl"), "dir/file.bsl");
}

#[test]
fn with_extension_appends_when_none() {
    assert_eq!(with_extension("config", "bsl"), "config.bsl");
    assert_eq!(with_extension("dir/config", "bsl"), "dir/config.bsl");
}

#[test]
fn with_extension_touches_only_the_last_extension() {
    assert_eq!(with_extension("archive.tar.gz", "bsl"), "archive.tar.bsl");
}

#[test]
fn with_extension_keeps_a_leading_dot_name_whole() {
    assert_eq!(with_extension(".hidden", "bsl"), ".hidden.bsl");
    assert_eq!(with_extension("dir/.hidden", "bsl"), "dir/.hidden.bsl");
}

#[test]
fn with_extension_ignores_dots_in_directories() {
    assert_eq!(with_extension("dir.d/file", "bsl"), "dir.d/file.bsl");
}

#[test]
fn with_extension_leaves_paths_without_a_file_name() {
    assert_eq!(with_extension("dir/", "bsl"), "dir/");
    assert_eq!(with_extension("", "bsl"), "");
}

#[test]
fn extension_matches_tells_staged_paths_apart() {
    assert!(extension_matches("base_cfg.bsl", "bsl"));
    assert!(!extension_matches("base_cfg.txt", "bsl"));
    assert!(!extension_matches("base_cfg", "bsl"));
    // a leading dot starts the file name, not an extension
    assert!(!extension_matches(".bsl", "bsl"));
    // nothing to retype without a file name
    assert!(extension_matches("dir/", "bsl"));
}

#[test]
fn retyping_twice_is_a_no_op() {
    let once = with_extension("base_cfg.txt", "bsl");
    assert!(extension_matches(&once, "bsl"));
    assert_eq!(with_extension(&once, "bsl"), once);
}

#[test]
fn set_ext_to_all_skips_already_staged_entries() {
    let mut files = vec![
        StagedPath::new("a.txt".to_string()),
        StagedPath::new("b.bsl".to_string()),
    ];
    let acts = set_ext_to_all(&mut files, "bsl", TransformMode::Copy);

    assert_eq!(files[0].original, "a.txt");
    assert_eq!(files[0].current, "a.bsl");
    assert_eq!(files[1].original, "b.bsl");
    assert_eq!(files[1].current, "b.bsl");

    assert_eq!(acts.len(), 1);
    match &acts[0] {
        FsAction::CopyFile { src, dst } => {
            assert_eq!(src, "a.txt");
            assert_eq!(dst, "a.bsl");
        }
        other => panic!("expected a copy, got {:?}", other),
    }
}

#[test]
fn remove_all_files_covers_the_current_names_of_a_prefix() {
    let mut files = vec![
        StagedPath::new("a.txt".to_string()),
        StagedPath::new("b.txt".to_string()),
        StagedPath::new("result.txt".to_string()),
    ];
    set_ext_to_all(&mut files, "bsl", TransformMode::Copy);
    // the last entry plays the output's part and is spared
    let acts = remove_all_files(&files, 2);
    assert_eq!(acts.len(), 2);
    let expected = ["a.bsl", "b.bsl"];
    for (act, want) in acts.iter().zip(expected.iter()) {
        match act {
            FsAction::RemoveFile { path } => assert_eq!(path, want),
            other => panic!("expected a removal, got {:?}", other),
        }
    }
}

#[test]
fn set_ext_to_all_renames_when_asked() {
    let mut files = vec![StagedPath::new("dir/a.txt".to_string())];
    let acts = set_ext_to_all(&mut files, "bsl", TransformMode::Rename);

    assert_eq!(files[0].current, "dir/a.bsl");
    assert_eq!(acts.len(), 1);
    match &acts[0] {
        FsAction::RenameFile { src, dst } => {
            assert_eq!(src, "dir/a.txt");
            assert_eq!(dst, "dir/a.bsl");
        }
        other => panic!("expected a rename, got {:?}", other),
    }
}
