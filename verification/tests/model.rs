//! The model file system and whole-plan runs on it.

use cfg_stage::fsmodel::ModelFs;
use cfg_stage::plan::{run_plan, Action, Program};
use cfg_stage::staging::{FsAction, RemovalPolicy, TransformMode};

#[test]
fn model_fs_reads_what_was_written() {
    let mut fs = ModelFs::new();
    assert!(!fs.file_exists("a.txt"));
    fs.write_file("a.txt", "one");
    assert!(fs.file_exists("a.txt"));
    assert_eq!(fs.read_file("a.txt").unwrap(), "one");
    fs.write_file("a.txt", "two");
    assert_eq!(fs.read_file("a.txt").unwrap(), "two");
}

#[test]
fn model_fs_remove_fails_on_a_missing_file() {
    let mut fs = ModelFs::new();
    fs.write_file("a.txt", "one");
    assert!(fs.remove_file("a.txt").is_ok());
    assert!(!fs.file_exists("a.txt"));
    let err = fs.remove_file("a.txt").unwrap_err();
    assert_eq!(err.path, "a.txt");
}

#[test]
fn model_fs_copy_fails_without_a_source() {
    let mut fs = ModelFs::new();
    let err = fs
        .apply(&FsAction::CopyFile {
            src: "missing.txt".to_string(),
            dst: "missing.bsl".to_string(),
        })
        .unwrap_err();
    assert_eq!(err.path, "missing.txt");
    assert!(!fs.file_exists("missing.bsl"));
}

#[test]
fn model_fs_rename_moves_the_content() {
    let mut fs = ModelFs::new();
    fs.write_file("a.txt", "payload");
    fs.apply(&FsAction::RenameFile {
        src: "a.txt".to_string(),
        dst: "a.bsl".to_string(),
    })
    .unwrap();
    assert!(!fs.file_exists("a.txt"));
    assert_eq!(fs.read_file("a.bsl").unwrap(), "payload");
}

#[test]
fn run_plan_propagates_the_tool_exit_code() {
    let mut fs = ModelFs::new();
    fs.write_file("base_cfg.txt", "");
    fs.write_file("second_cfg.txt", "");
    let prog = Program::new(
        Action::Diff {
            base_cfg: "base_cfg.txt".to_string(),
            second_cfg: "second_cfg.txt".to_string(),
        },
        RemovalPolicy::Keep,
        TransformMode::Copy,
    );
    let plan = prog.run();
    assert_eq!(run_plan(&mut fs, &plan, 5).unwrap(), 5);
}

#[test]
fn run_plan_fails_fast_and_names_the_missing_file() {
    let mut fs = ModelFs::new();
    fs.write_file("base_cfg.txt", "");
    // second_cfg.txt is never written
    let prog = Program::new(
        Action::Diff {
            base_cfg: "base_cfg.txt".to_string(),
            second_cfg: "second_cfg.txt".to_string(),
        },
        RemovalPolicy::Keep,
        TransformMode::Copy,
    );
    let plan = prog.run();
    let err = run_plan(&mut fs, &plan, 0).unwrap_err();
    assert_eq!(err.path, "second_cfg.txt");
    // the first input was staged before the failure and stays staged
    assert!(fs.file_exists("base_cfg.bsl"));
    assert!(!fs.file_exists("second_cfg.bsl"));
}

#[test]
fn a_seed_source_must_exist_for_a_merge() {
    let mut fs = ModelFs::new();
    let prog = Program::new(
        Action::Merge {
            base_cfg: "base_cfg.txt".to_string(),
            second_cfg: "second_cfg.txt".to_string(),
            old_vendor_cfg: "old_vendor_cfg.txt".to_string(),
            merged: "merged.txt".to_string(),
            from_second: false,
        },
        RemovalPolicy::Keep,
        TransformMode::Copy,
    );
    let plan = prog.run();
    let err = run_plan(&mut fs, &plan, 0).unwrap_err();
    assert_eq!(err.path, "base_cfg.txt");
    assert!(!fs.file_exists("merged.txt"));
}

#[test]
fn already_staged_inputs_are_diffed_in_place() {
    let mut fs = ModelFs::new();
    fs.write_file("base_cfg.bsl", "left");
    fs.write_file("second_cfg.bsl", "right");
    let prog = Program::new(
        Action::Diff {
            base_cfg: "base_cfg.bsl".to_string(),
            second_cfg: "second_cfg.bsl".to_string(),
        },
        RemovalPolicy::Keep,
        TransformMode::Copy,
    );
    let plan = prog.run();
    // no staging action at all: the extensions already match
    assert!(plan.pre.is_empty());
    assert_eq!(run_plan(&mut fs, &plan, 0).unwrap(), 0);
    assert_eq!(fs.read_file("base_cfg.bsl").unwrap(), "left");
    assert_eq!(fs.read_file("second_cfg.bsl").unwrap(), "right");
    assert_eq!(
        plan.tool_args,
        vec![
            "--new-window".to_string(),
            "--sync".to_string(),
            "off".to_string(),
            "--wait".to_string(),
            "--diff".to_string(),
            "base_cfg.bsl".to_string(),
            "second_cfg.bsl".to_string(),
        ]
    );
}

#[test]
fn merge_round_trip_leaves_only_the_merged_file() {
    let mut fs = ModelFs::new();
    fs.write_file("base_cfg.txt", "base_cfg");
    fs.write_file("second_cfg.txt", "second_cfg");
    fs.write_file("old_vendor_cfg.txt", "old_vendor_cfg");
    fs.write_file("bystander.txt", "untouched");
    let prog = Program::new(
        Action::Merge {
            base_cfg: "base_cfg.txt".to_string(),
            second_cfg: "second_cfg.txt".to_string(),
            old_vendor_cfg: "old_vendor_cfg.txt".to_string(),
            merged: "merged.txt".to_string(),
            from_second: false,
        },
        RemovalPolicy::Remove,
        TransformMode::Rename,
    );
    let plan = prog.run();
    assert_eq!(run_plan(&mut fs, &plan, 0).unwrap(), 0);

    // of the operation's eight names, exactly the merged original survives
    for gone in [
        "base_cfg.txt",
        "second_cfg.txt",
        "old_vendor_cfg.txt",
        "base_cfg.bsl",
        "second_cfg.bsl",
        "old_vendor_cfg.bsl",
        "merged.bsl",
    ] {
        assert!(!fs.file_exists(gone), "{} should be gone", gone);
    }
    assert_eq!(fs.read_file("merged.txt").unwrap(), "base_cfg");
    // and a file outside the operation is untouched
    assert_eq!(fs.read_file("bystander.txt").unwrap(), "untouched");
}
