//! The two operations, run end to end against the model file system.

use cfg_stage::fsmodel::ModelFs;
use cfg_stage::plan::{run_plan, Action, Program};
use cfg_stage::staging::{RemovalPolicy, TransformMode};

fn flags(remove_files: bool, rename_files: bool) -> (RemovalPolicy, TransformMode) {
    (
        if remove_files {
            RemovalPolicy::Remove
        } else {
            RemovalPolicy::Keep
        },
        if rename_files {
            TransformMode::Rename
        } else {
            TransformMode::Copy
        },
    )
}

fn prepare_diff(
    fs: &mut ModelFs,
    base_cfg: &str,
    second_cfg: &str,
    remove_files: bool,
    rename_files: bool,
) -> Program {
    fs.write_file(base_cfg, "");
    fs.write_file(second_cfg, "");
    let (removal, transform) = flags(remove_files, rename_files);
    Program::new(
        Action::Diff {
            base_cfg: base_cfg.to_string(),
            second_cfg: second_cfg.to_string(),
        },
        removal,
        transform,
    )
}

fn prepare_merge(
    fs: &mut ModelFs,
    base_cfg: &str,
    second_cfg: &str,
    old_vendor_cfg: &str,
    merged: &str,
    from_second: bool,
    remove_files: bool,
    rename_files: bool,
) -> Program {
    fs.write_file(base_cfg, "base_cfg");
    fs.write_file(second_cfg, "second_cfg");
    fs.write_file(old_vendor_cfg, "old_vendor_cfg");
    let (removal, transform) = flags(remove_files, rename_files);
    Program::new(
        Action::Merge {
            base_cfg: base_cfg.to_string(),
            second_cfg: second_cfg.to_string(),
            old_vendor_cfg: old_vendor_cfg.to_string(),
            merged: merged.to_string(),
            from_second,
        },
        removal,
        transform,
    )
}

fn expected_args(mode: &str, staged: &[&str]) -> Vec<String> {
    let mut expected: Vec<String> = vec![
        "--new-window".to_string(),
        "--sync".to_string(),
        "off".to_string(),
        "--wait".to_string(),
        mode.to_string(),
    ];
    expected.extend(staged.iter().map(|x| x.to_string()));
    expected
}

/// diff (no remove, no rename), inputs staged beside the originals
#[test]
fn main_test_cmd_diff() {
    let base_cfg = "base_cfg.txt";
    let second_cfg = "second_cfg.txt";
    let base_cfg_bsl = "base_cfg.bsl";
    let second_cfg_bsl = "second_cfg.bsl";

    let mut fs = ModelFs::new();
    let prog = prepare_diff(&mut fs, base_cfg, second_cfg, false, false);
    let plan = prog.run();

    // check status code
    assert_eq!(run_plan(&mut fs, &plan, 0).unwrap(), 0);

    // check original files exists
    assert!(fs.file_exists(base_cfg));
    assert!(fs.file_exists(second_cfg));

    // check bsl files exists
    assert!(fs.file_exists(base_cfg_bsl));
    assert!(fs.file_exists(second_cfg_bsl));

    // check args
    let expected = expected_args("--diff", &[base_cfg_bsl, second_cfg_bsl]);
    assert_eq!(expected, plan.tool_args);
}

/// test diff (no remove, no rename)
#[test]
fn test_test_cmd_diff() {
    let base_cfg = "base_cfg.txt";
    let second_cfg = "second_cfg.txt";
    let base_cfg_bsl = "base_cfg.bsl";
    let second_cfg_bsl = "second_cfg.bsl";

    let mut fs = ModelFs::new();
    let prog = prepare_diff(&mut fs, base_cfg, second_cfg, false, false);
    let plan = prog.run();

    assert_eq!(run_plan(&mut fs, &plan, 0).unwrap(), 0);

    assert!(fs.file_exists(base_cfg));
    assert!(fs.file_exists(second_cfg));

    assert!(fs.file_exists(base_cfg_bsl));
    assert!(fs.file_exists(second_cfg_bsl));

    let expected = expected_args("--diff", &[base_cfg_bsl, second_cfg_bsl]);
    assert_eq!(expected, plan.tool_args);
}

/// test diff (with remove, no rename)
#[test]
fn test_cmd_diff_r() {
    let base_cfg = "base_cfg.txt";
    let second_cfg = "second_cfg.txt";
    let base_cfg_bsl = "base_cfg.bsl";
    let second_cfg_bsl = "second_cfg.bsl";

    let mut fs = ModelFs::new();
    let prog = prepare_diff(&mut fs, base_cfg, second_cfg, true, false);
    let plan = prog.run();

    // check status code
    assert_eq!(run_plan(&mut fs, &plan, 0).unwrap(), 0);

    // check original files exists
    assert!(fs.file_exists(base_cfg));
    assert!(fs.file_exists(second_cfg));

    // check bsl files not exists
    assert!(!fs.file_exists(base_cfg_bsl));
    assert!(!fs.file_exists(second_cfg_bsl));

    // check args
    let expected = expected_args("--diff", &[base_cfg_bsl, second_cfg_bsl]);
    assert_eq!(expected, plan.tool_args);
}

/// test diff (no remove, with rename)
#[test]
fn test_cmd_diff_n() {
    let base_cfg = "base_cfg.txt";
    let second_cfg = "second_cfg.txt";
    let base_cfg_bsl = "base_cfg.bsl";
    let second_cfg_bsl = "second_cfg.bsl";

    let mut fs = ModelFs::new();
    let prog = prepare_diff(&mut fs, base_cfg, second_cfg, false, true);
    let plan = prog.run();

    // check status code
    assert_eq!(run_plan(&mut fs, &plan, 0).unwrap(), 0);

    // check original files not exists
    assert!(!fs.file_exists(base_cfg));
    assert!(!fs.file_exists(second_cfg));

    // check bsl files exists
    assert!(fs.file_exists(base_cfg_bsl));
    assert!(fs.file_exists(second_cfg_bsl));

    // check args
    let expected = expected_args("--diff", &[base_cfg_bsl, second_cfg_bsl]);
    assert_eq!(expected, plan.tool_args);
}

/// test diff (with remove, with rename)
#[test]
fn test_cmd_diff_rn() {
    let base_cfg = "base_cfg.txt";
    let second_cfg = "second_cfg.txt";
    let base_cfg_bsl = "base_cfg.bsl";
    let second_cfg_bsl = "second_cfg.bsl";

    let mut fs = ModelFs::new();
    let prog = prepare_diff(&mut fs, base_cfg, second_cfg, true, true);
    let plan = prog.run();

    // check status code
    assert_eq!(run_plan(&mut fs, &plan, 0).unwrap(), 0);

    // check original not exists
    assert!(!fs.file_exists(base_cfg));
    assert!(!fs.file_exists(second_cfg));

    // check bsl files not exists
    assert!(!fs.file_exists(base_cfg_bsl));
    assert!(!fs.file_exists(second_cfg_bsl));

    // check args
    let expected = expected_args("--diff", &[base_cfg_bsl, second_cfg_bsl]);
    assert_eq!(expected, plan.tool_args);
}

/// test merge (no remove, no rename, no from_second)
#[test]
fn test_cmd_merge() {
    let base_cfg = "base_cfg.txt";
    let second_cfg = "second_cfg.txt";
    let old_vendor_cfg = "old_vendor_cfg.txt";
    let merged = "merged.txt";
    let base_cfg_bsl = "base_cfg.bsl";
    let second_cfg_bsl = "second_cfg.bsl";
    let old_vendor_bsl = "old_vendor_cfg.bsl";
    let merged_bsl = "merged.bsl";

    let mut fs = ModelFs::new();
    let prog = prepare_merge(
        &mut fs,
        base_cfg,
        second_cfg,
        old_vendor_cfg,
        merged,
        false,
        false,
        false,
    );
    let plan = prog.run();

    // check status code
    assert_eq!(run_plan(&mut fs, &plan, 0).unwrap(), 0);

    // check original + merged files exists
    assert!(fs.file_exists(base_cfg));
    assert!(fs.file_exists(second_cfg));
    assert!(fs.file_exists(old_vendor_cfg));
    assert!(fs.file_exists(merged));

    // check bsl files exists
    assert!(fs.file_exists(base_cfg_bsl));
    assert!(fs.file_exists(second_cfg_bsl));
    assert!(fs.file_exists(old_vendor_bsl));

    // check merged_bsl not exist
    assert!(!fs.file_exists(merged_bsl));

    // check args
    let expected = expected_args(
        "--merge",
        &[base_cfg_bsl, second_cfg_bsl, old_vendor_bsl, merged_bsl],
    );
    assert_eq!(expected, plan.tool_args);

    // check merged (default) content
    assert_eq!(
        fs.read_file(merged).unwrap(),
        fs.read_file(base_cfg).unwrap()
    );
}

/// test merge (no remove, no rename, with from_second)
#[test]
fn test_cmd_merge_s() {
    let base_cfg = "base_cfg.txt";
    let second_cfg = "second_cfg.txt";
    let old_vendor_cfg = "old_vendor_cfg.txt";
    let merged = "merged.txt";
    let base_cfg_bsl = "base_cfg.bsl";
    let second_cfg_bsl = "second_cfg.bsl";
    let old_vendor_bsl = "old_vendor_cfg.bsl";
    let merged_bsl = "merged.bsl";

    let mut fs = ModelFs::new();
    let prog = prepare_merge(
        &mut fs,
        base_cfg,
        second_cfg,
        old_vendor_cfg,
        merged,
        true,
        false,
        false,
    );
    let plan = prog.run();

    assert_eq!(run_plan(&mut fs, &plan, 0).unwrap(), 0);

    assert!(fs.file_exists(base_cfg));
    assert!(fs.file_exists(second_cfg));
    assert!(fs.file_exists(old_vendor_cfg));
    assert!(fs.file_exists(merged));

    assert!(fs.file_exists(base_cfg_bsl));
    assert!(fs.file_exists(second_cfg_bsl));
    assert!(fs.file_exists(old_vendor_bsl));

    assert!(!fs.file_exists(merged_bsl));

    let expected = expected_args(
        "--merge",
        &[base_cfg_bsl, second_cfg_bsl, old_vendor_bsl, merged_bsl],
    );
    assert_eq!(expected, plan.tool_args);

    // check merged (default) content
    assert_eq!(
        fs.read_file(merged).unwrap(),
        fs.read_file(second_cfg).unwrap()
    );
}

/// test merge (with remove, no rename, no from_second)
#[test]
fn test_cmd_merge_r() {
    let base_cfg = "base_cfg.txt";
    let second_cfg = "second_cfg.txt";
    let old_vendor_cfg = "old_vendor_cfg.txt";
    let merged = "merged.txt";
    let base_cfg_bsl = "base_cfg.bsl";
    let second_cfg_bsl = "second_cfg.bsl";
    let old_vendor_bsl = "old_vendor_cfg.bsl";
    let merged_bsl = "merged.bsl";

    let mut fs = ModelFs::new();
    let prog = prepare_merge(
        &mut fs,
        base_cfg,
        second_cfg,
        old_vendor_cfg,
        merged,
        false,
        true,
        false,
    );
    let plan = prog.run();

    assert_eq!(run_plan(&mut fs, &plan, 0).unwrap(), 0);

    // check original files + merged exists
    assert!(fs.file_exists(base_cfg));
    assert!(fs.file_exists(second_cfg));
    assert!(fs.file_exists(old_vendor_cfg));
    assert!(fs.file_exists(merged));

    // check bsl files + merged_bsl not exists
    assert!(!fs.file_exists(base_cfg_bsl));
    assert!(!fs.file_exists(second_cfg_bsl));
    assert!(!fs.file_exists(old_vendor_bsl));
    assert!(!fs.file_exists(merged_bsl));

    let expected = expected_args(
        "--merge",
        &[base_cfg_bsl, second_cfg_bsl, old_vendor_bsl, merged_bsl],
    );
    assert_eq!(expected, plan.tool_args);

    assert_eq!(
        fs.read_file(merged).unwrap(),
        fs.read_file(base_cfg).unwrap()
    );
}

/// test merge (no remove, with rename, no from_second)
#[test]
fn test_cmd_merge_n() {
    let base_cfg = "base_cfg.txt";
    let second_cfg = "second_cfg.txt";
    let old_vendor_cfg = "old_vendor_cfg.txt";
    let merged = "merged.txt";
    let base_cfg_bsl = "base_cfg.bsl";
    let second_cfg_bsl = "second_cfg.bsl";
    let old_vendor_bsl = "old_vendor_cfg.bsl";
    let merged_bsl = "merged.bsl";

    let mut fs = ModelFs::new();
    let prog = prepare_merge(
        &mut fs,
        base_cfg,
        second_cfg,
        old_vendor_cfg,
        merged,
        false,
        false,
        true,
    );
    let plan = prog.run();

    assert_eq!(run_plan(&mut fs, &plan, 0).unwrap(), 0);

    // check original files not exists
    assert!(!fs.file_exists(base_cfg));
    assert!(!fs.file_exists(second_cfg));
    assert!(!fs.file_exists(old_vendor_cfg));

    // check merged exist
    assert!(fs.file_exists(merged));

    // check bsl files exists
    assert!(fs.file_exists(base_cfg_bsl));
    assert!(fs.file_exists(second_cfg_bsl));
    assert!(fs.file_exists(old_vendor_bsl));

    // check merged_bsl not exist
    assert!(!fs.file_exists(merged_bsl));

    let base_content = fs.read_file(base_cfg_bsl).unwrap();

    let expected = expected_args(
        "--merge",
        &[base_cfg_bsl, second_cfg_bsl, old_vendor_bsl, merged_bsl],
    );
    assert_eq!(expected, plan.tool_args);

    assert_eq!(fs.read_file(merged).unwrap(), base_content);
}

/// test merge (with remove, with rename, no from_second)
#[test]
fn test_cmd_merge_rn() {
    let base_cfg = "base_cfg.txt";
    let second_cfg = "second_cfg.txt";
    let old_vendor_cfg = "old_vendor_cfg.txt";
    let merged = "merged.txt";
    let base_cfg_bsl = "base_cfg.bsl";
    let second_cfg_bsl = "second_cfg.bsl";
    let old_vendor_bsl = "old_vendor_cfg.bsl";
    let merged_bsl = "merged.bsl";

    let mut fs = ModelFs::new();
    let prog = prepare_merge(
        &mut fs,
        base_cfg,
        second_cfg,
        old_vendor_cfg,
        merged,
        false,
        true,
        true,
    );

    let base_content = fs.read_file(base_cfg).unwrap();
    let plan = prog.run();

    assert_eq!(run_plan(&mut fs, &plan, 0).unwrap(), 0);

    // check original files not exists
    assert!(!fs.file_exists(base_cfg));
    assert!(!fs.file_exists(second_cfg));
    assert!(!fs.file_exists(old_vendor_cfg));

    // check merged exist
    assert!(fs.file_exists(merged));

    // check bsl files not exists
    assert!(!fs.file_exists(base_cfg_bsl));
    assert!(!fs.file_exists(second_cfg_bsl));
    assert!(!fs.file_exists(old_vendor_bsl));
    assert!(!fs.file_exists(merged_bsl));

    let expected = expected_args(
        "--merge",
        &[base_cfg_bsl, second_cfg_bsl, old_vendor_bsl, merged_bsl],
    );
    assert_eq!(expected, plan.tool_args);

    assert_eq!(fs.read_file(merged).unwrap(), base_content);
}
