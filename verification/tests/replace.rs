use duskterm::replace::{promote_failure_message, FileOp, ReplacePlan, ReplaceStage, ScratchKind};
use duskterm::terminal_transfer::{collision_exhausted_message, needs_free_name, CollisionSearch, DownloadCollisionPolicy};

fn rename(from: &str, to: &str) -> FileOp {
    FileOp::Rename { from: from.to_string(), to: to.to_string() }
}

fn remove(path: &str) -> FileOp {
    FileOp::Remove { path: path.to_string() }
}

#[test]
fn remote_plan_puts_scratch_files_next_to_the_target() {
    let plan = ReplacePlan::for_remote_path("/home/u/a.txt", ScratchKind::TextSave, 7, 9, true).unwrap();
    assert_eq!(plan.target, "/home/u/a.txt");
    assert_eq!(plan.temp, "/home/u/.a.txt.tmp.7.9");
    assert_eq!(plan.backup, "/home/u/.a.txt.bak.7.9");
    assert!(plan.had_original);
}

#[test]
fn remote_plan_for_uploads_at_root_and_bare_names() {
    let root = ReplacePlan::for_remote_path("/data.bin/", ScratchKind::Upload, 1, 22, false).unwrap();
    assert_eq!(root.target, "/data.bin/");
    assert_eq!(root.temp, "/.data.bin.upload.tmp.1.22");
    assert_eq!(root.backup, "/.data.bin.upload.bak.1.22");
    let bare = ReplacePlan::for_remote_path("notes", ScratchKind::TextSave, 3, 4, false).unwrap();
    assert_eq!(bare.temp, ".notes.tmp.3.4");
    assert_eq!(bare.backup, ".notes.bak.3.4");
}

#[test]
fn remote_plan_refuses_a_path_of_slashes() {
    assert_eq!(
        ReplacePlan::for_remote_path("///", ScratchKind::Upload, 1, 1, false).unwrap_err(),
        "Invalid filename or path"
    );
    assert!(ReplacePlan::for_remote_path("", ScratchKind::TextSave, 1, 1, false).is_err());
}

#[test]
fn rollback_undoes_each_stage() {
    let plan = ReplacePlan::new("t".to_string(), "p".to_string(), "b".to_string(), true);
    assert_eq!(plan.rollback_ops(ReplaceStage::TempWritten), vec![remove("p")]);
    assert_eq!(plan.rollback_ops(ReplaceStage::BackedUp), vec![rename("b", "t"), remove("p")]);
    assert_eq!(plan.rollback_ops(ReplaceStage::Promoted), vec![remove("t"), rename("b", "t")]);
    let fresh = ReplacePlan::new("t".to_string(), "p".to_string(), "b".to_string(), false);
    assert_eq!(fresh.rollback_ops(ReplaceStage::BackedUp), vec![remove("p")]);
    assert_eq!(fresh.rollback_ops(ReplaceStage::Promoted), vec![remove("t")]);
}

#[test]
fn commit_moves_the_old_file_aside_and_drops_it_at_the_end() {
    let plan = ReplacePlan::new("t".to_string(), "p".to_string(), "b".to_string(), true);
    assert_eq!(plan.backup_ops(), vec![rename("t", "b")]);
    assert_eq!(plan.promote_op(), rename("p", "t"));
    assert_eq!(plan.finish_ops(), vec![remove("b")]);
    let fresh = ReplacePlan::new("t".to_string(), "p".to_string(), "b".to_string(), false);
    assert!(fresh.backup_ops().is_empty());
    assert!(fresh.finish_ops().is_empty());
}

fn run(files: &mut std::collections::BTreeMap<String, u32>, ops: &[FileOp]) {
    for op in ops {
        match op {
            FileOp::Rename { from, to } => {
                if files.contains_key(from) && !files.contains_key(to) {
                    let v = files.remove(from).unwrap();
                    files.insert(to.clone(), v);
                }
            }
            FileOp::Remove { path } => {
                files.remove(path);
            }
        }
    }
}

#[test]
fn a_rolled_back_replacement_restores_the_target() {
    for stage in [ReplaceStage::TempWritten, ReplaceStage::BackedUp, ReplaceStage::Promoted] {
        let plan = ReplacePlan::for_remote_path("/srv/x.conf", ScratchKind::TextSave, 5, 6, true).unwrap();
        let mut files = std::collections::BTreeMap::new();
        files.insert(plan.target.clone(), 1u32);
        files.insert(plan.temp.clone(), 2u32);
        let mut ops = Vec::new();
        if stage != ReplaceStage::TempWritten {
            ops.extend(plan.backup_ops());
        }
        if stage == ReplaceStage::Promoted {
            ops.push(plan.promote_op());
        }
        run(&mut files, &ops);
        run(&mut files, &plan.rollback_ops(stage));
        assert_eq!(files.len(), 1);
        assert_eq!(files.get("/srv/x.conf"), Some(&1));
    }
}

#[test]
fn failed_promote_restores_backup_and_reports_both_errors() {
    let plan = ReplacePlan::new("/d/a.txt".to_string(), "/d/.a.tmp".to_string(), "/d/.a.bak".to_string(), true);
    assert_eq!(
        plan.restore_ops(),
        vec![FileOp::Rename { from: "/d/.a.bak".to_string(), to: "/d/a.txt".to_string() }]
    );
    let fresh = ReplacePlan::new("/d/a.txt".to_string(), "/d/.a.tmp".to_string(), "/d/.a.bak".to_string(), false);
    assert!(fresh.restore_ops().is_empty());
    assert_eq!(promote_failure_message("busy", None), "Local promote Error: busy".to_string());
    assert_eq!(
        promote_failure_message("busy", Some("gone")),
        "Local promote Error: busy; rollback Error: gone".to_string()
    );
}

#[test]
fn collision_search_tries_name_then_numbered_names() {
    assert!(needs_free_name(DownloadCollisionPolicy::AutoRename));
    assert!(!needs_free_name(DownloadCollisionPolicy::Overwrite));
    let mut search = CollisionSearch::new();
    assert_eq!(search.candidate("report.txt"), Some("report.txt".to_string()));
    search.taken();
    assert_eq!(search.candidate("report.txt"), Some("report (1).txt".to_string()));
    search.taken();
    assert_eq!(search.candidate("report.txt"), Some("report (2).txt".to_string()));
    let last = CollisionSearch { next_index: 9999 };
    assert_eq!(last.candidate("report"), Some("report (9999)".to_string()));
    let done = CollisionSearch { next_index: 10000 };
    assert_eq!(done.candidate("report"), None);
    assert_eq!(collision_exhausted_message(), "无法为下载文件生成不冲突的名称".to_string());
}
