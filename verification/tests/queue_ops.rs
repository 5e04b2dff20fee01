use openlist_uploader::adding::{
    add_file_to_queue, add_folder_to_queue, check_add_request, validate_large_file, AddCheck, FIVE_GB, FOUR_GB,
};
use openlist_uploader::models::{FileInfo, HistoryData, QueueData, TaskStatus, UploadConfig, UploadTask};
use openlist_uploader::queue::{
    add_to_history, claim_next_pending_task_at, clear_queue, recover_interrupted_tasks, remove_from_queue,
    resolve_history_task_at, retry_upload_at, update_task,
};

fn queued_task(id: &str, path: &str, dir: &str, now: i64) -> UploadTask {
    UploadTask::new_with_id(path.to_string(), dir.to_string(), id.to_string(), now)
}

#[test]
fn new_task_is_pending_and_named_after_file() {
    let t = queued_task("t1", "/v/a.mp4", "/dir", 5);
    assert_eq!(t.status, TaskStatus::Pending);
    assert_eq!(t.file.name, "a.mp4");
    let w = queued_task("t2", "C:\\v\\a.mp4", "/dir", 5);
    assert_eq!(w.file.name, "C:\\v\\a.mp4");
    assert_eq!(t.progress, 0);
    assert_eq!(t.created_at, 5);
    assert_eq!(t.updated_at, 5);
}

#[test]
fn completed_task_records_duration() {
    let mut t = queued_task("t1", "/a", "/dir", 0);
    t.mark_uploading_at(1_000);
    t.mark_completed_at(61_000);
    assert_eq!(t.status, TaskStatus::Completed);
    assert_eq!(t.progress, 100);
    assert_eq!(t.duration, Some(60));
    assert_eq!(t.end_time, Some(61_000));
}

#[test]
fn failed_task_keeps_error_and_retry_counts() {
    let mut t = queued_task("t1", "/a", "/dir", 0);
    t.mark_failed_at("boom".to_string(), 9);
    assert_eq!(t.status, TaskStatus::Failed);
    assert_eq!(t.error.as_deref(), Some("boom"));
    t.increment_retry_at(10);
    assert_eq!(t.retry_count, 1);
    assert_eq!(t.updated_at, 10);
}

#[test]
fn claim_takes_first_pending_task() {
    let mut q = QueueData { tasks: vec![queued_task("a", "/a", "/d", 0), queued_task("b", "/b", "/d", 0)], version: 1 };
    q.tasks[0].status = TaskStatus::Failed;
    let c = claim_next_pending_task_at(&mut q, 7).unwrap();
    assert_eq!(c.id, "b");
    assert_eq!(q.tasks[1].status, TaskStatus::Uploading);
    assert_eq!(q.tasks[1].start_time, Some(7));
    assert!(claim_next_pending_task_at(&mut q, 8).is_none());
}

#[test]
fn remove_and_clear_queue() {
    let mut q = QueueData { tasks: vec![queued_task("a", "/a", "/d", 0), queued_task("b", "/b", "/d", 0)], version: 1 };
    remove_from_queue(&mut q, "a");
    assert_eq!(q.tasks.len(), 1);
    assert_eq!(q.tasks[0].id, "b");
    clear_queue(&mut q);
    assert!(q.tasks.is_empty());
}

#[test]
fn update_task_replaces_matching_task() {
    let mut q = QueueData { tasks: vec![queued_task("a", "/a", "/d", 0)], version: 1 };
    let mut n = queued_task("a", "/a", "/d", 0);
    n.progress = 50;
    update_task(&mut q, "a", n);
    assert_eq!(q.tasks[0].progress, 50);
}

#[test]
fn interrupted_uploads_are_marked_failed() {
    let mut q = QueueData { tasks: vec![queued_task("a", "/a", "/d", 0), queued_task("b", "/b", "/d", 0)], version: 1 };
    q.tasks[1].status = TaskStatus::Uploading;
    q.tasks[1].progress = 40;
    assert_eq!(recover_interrupted_tasks(&mut q), 1);
    assert_eq!(q.tasks[1].status, TaskStatus::Failed);
    assert_eq!(q.tasks[1].progress, 0);
    assert!(q.tasks[1].error.as_deref().unwrap().starts_with("上传中断"));
}

#[test]
fn retry_resets_task() {
    let mut q = QueueData { tasks: vec![queued_task("a", "/a", "/d", 0)], version: 1 };
    q.tasks[0].mark_failed_at("x".to_string(), 1);
    q.tasks[0].retry_count = 3;
    retry_upload_at(&mut q, "a", 2);
    assert_eq!(q.tasks[0].status, TaskStatus::Pending);
    assert_eq!(q.tasks[0].retry_count, 0);
    assert!(q.tasks[0].error.is_none());
    assert_eq!(q.tasks[0].updated_at, 2);
}

#[test]
fn history_replaces_record_for_same_target() {
    let mut h = HistoryData { records: vec![queued_task("old", "/a", "/d", 0), queued_task("other", "/b", "/d", 0)], version: 1 };
    let t = queued_task("new", "/a", "/d", 5);
    add_to_history(&mut h, t, true, 30, 10);
    assert_eq!(h.records.len(), 2);
    assert_eq!(h.records[0].id, "new");
    assert_eq!(h.records[1].id, "other");
}

#[test]
fn history_drops_expired_records() {
    let day: i64 = 24 * 60 * 60 * 1000;
    let mut h = HistoryData { records: vec![queued_task("old", "/a", "/d", 0)], version: 1 };
    let t = queued_task("new", "/b", "/d", 40 * day);
    add_to_history(&mut h, t, false, 30, 40 * day);
    assert_eq!(h.records.len(), 1);
    assert_eq!(h.records[0].id, "new");
}

#[test]
fn resolving_missing_history_record_fails() {
    let mut h = HistoryData { records: vec![queued_task("a", "/a", "/d", 0)], version: 1 };
    assert_eq!(resolve_history_task_at(&mut h, "zz", 3), Err("历史记录不存在: zz".to_string()));
    assert_eq!(resolve_history_task_at(&mut h, "a", 3), Ok(()));
    assert!(h.records[0].resolved);
}

#[test]
fn add_request_rejects_root_and_duplicates() {
    let cfg = UploadConfig::default();
    let mut q = QueueData { tasks: vec![], version: 1 };
    match check_add_request(&q, &cfg, "/f", "/") {
        AddCheck::Rejected(m) => assert_eq!(m, "请选择 Alist 中的具体目录后再添加文件，根目录 / 仅用于浏览存储入口"),
        _ => panic!("root not rejected"),
    }
    q.tasks.push(queued_task("a", "/f", "/d", 0));
    match check_add_request(&q, &cfg, "/f", "d/") {
        AddCheck::AlreadyQueued(r) => assert_eq!(r.warnings, vec!["文件已在队列中，已跳过".to_string()]),
        _ => panic!("duplicate not found"),
    }
    match check_add_request(&q, &cfg, "/g", "d/") {
        AddCheck::Proceed(t) => assert_eq!(t, "/d"),
        _ => panic!("fresh file refused"),
    }
}

#[test]
fn large_file_rules() {
    let mut cfg = UploadConfig::default();
    cfg.block_files_over_5gb = true;
    cfg.warn_files_over_4gb = true;
    assert!(validate_large_file(&cfg, "a", FIVE_GB + 1).is_err());
    assert!(matches!(validate_large_file(&cfg, "a", FOUR_GB + 1), Ok(Some(_))));
    assert_eq!(validate_large_file(&cfg, "a", 10), Ok(None));
    cfg.block_files_over_5gb = false;
    assert!(matches!(validate_large_file(&cfg, "a", FIVE_GB + 1), Ok(Some(_))));
}

#[test]
fn add_file_queues_new_task_and_skips_duplicate() {
    let cfg = UploadConfig::default();
    let mut q = QueueData { tasks: vec![], version: 1 };
    let out = add_file_to_queue(&mut q, &cfg, "/f.txt", "/d", 3, "f.txt", "id1".to_string(), 9);
    let res = out.result.unwrap();
    assert_eq!(res.tasks.len(), 1);
    assert_eq!(q.tasks.len(), 1);
    assert_eq!(q.tasks[0].id, "id1");
    assert_eq!(q.tasks[0].alist_path, "/d");
    let out2 = add_file_to_queue(&mut q, &cfg, "/f.txt", "/d", 3, "f.txt", "id2".to_string(), 10);
    assert_eq!(q.tasks.len(), 1);
    assert!(out2.blocked.is_empty());
}

#[test]
fn add_file_refuses_long_name() {
    let cfg = UploadConfig::default();
    let mut q = QueueData { tasks: vec![], version: 1 };
    let name = "字".repeat(60);
    let out = add_file_to_queue(&mut q, &cfg, "/x", "/d", 3, &name, "id".to_string(), 1);
    assert_eq!(out.blocked.len(), 1);
    assert_eq!(out.result.unwrap_err(), format!("文件名过长，115Crypt 限制 175 字节，当前 180 字节: {}", name));
    assert!(q.tasks.is_empty());
}

#[test]
fn add_folder_queues_files_below_folder() {
    let cfg = UploadConfig::default();
    let mut q = QueueData { tasks: vec![], version: 1 };
    let files = vec![
        FileInfo { path: "C:\\pics\\a.jpg".to_string(), name: "a.jpg".to_string(), size: 1, relative_path: Some("a.jpg".to_string()) },
        FileInfo { path: "C:\\pics\\s\\b.jpg".to_string(), name: "b.jpg".to_string(), size: 2, relative_path: Some("s\\b.jpg".to_string()) },
    ];
    let ids = vec!["i1".to_string(), "i2".to_string()];
    let out = add_folder_to_queue(&mut q, &cfg, "C:\\pics", "pics", "/d", &files, &ids, 4);
    let res = out.result.unwrap();
    assert_eq!(res.tasks.len(), 2);
    assert_eq!(q.tasks.len(), 2);
    assert_eq!(q.tasks[0].alist_path, "/d/pics");
    assert_eq!(q.tasks[1].alist_path, "/d/pics/s");
    assert!(res.warnings.is_empty());
}

#[test]
fn add_folder_refuses_long_folder_name() {
    let cfg = UploadConfig::default();
    let mut q = QueueData { tasks: vec![], version: 1 };
    let folder = "名".repeat(60);
    let files: Vec<FileInfo> = vec![];
    let ids: Vec<String> = vec![];
    let out = add_folder_to_queue(&mut q, &cfg, "C:\\x", &folder, "/d", &files, &ids, 4);
    let res = out.result.unwrap();
    assert_eq!(res.warnings.len(), 1);
    assert!(res.warnings[0].starts_with("目标目录名过长"));
    assert_eq!(out.blocked.len(), 1);
}

#[test]
fn add_folder_with_only_refused_files_is_an_error() {
    let mut cfg = UploadConfig::default();
    cfg.block_files_over_5gb = true;
    let mut q = QueueData { tasks: vec![], version: 1 };
    let files = vec![FileInfo { path: "C:\\x\\big".to_string(), name: "big".to_string(), size: FIVE_GB + 1, relative_path: Some("big".to_string()) }];
    let ids = vec!["i".to_string()];
    let out = add_folder_to_queue(&mut q, &cfg, "C:\\x", "x", "/d", &files, &ids, 4);
    assert_eq!(out.result.unwrap_err(), "115 网盘非会员单个文件最大支持 5GB，big 超过限制，已阻止加入上传队列。");
    assert_eq!(out.blocked.len(), 1);
}

#[test]
fn add_request_rejects_all_slash_targets() {
    let cfg = UploadConfig::default();
    let q = QueueData { tasks: vec![], version: 1 };
    for target in ["//", " /// ", "", "  "] {
        match check_add_request(&q, &cfg, "/f", target) {
            AddCheck::Rejected(m) => assert_eq!(m, "请选择 Alist 中的具体目录后再添加文件，根目录 / 仅用于浏览存储入口"),
            _ => panic!("all-slash target {:?} not rejected", target),
        }
    }
}

#[test]
fn add_folder_skips_pending_files_and_reports_only_queued() {
    let mut cfg = UploadConfig::default();
    cfg.block_duplicate_file_upload = false;
    let files = vec![
        FileInfo { path: "C:\\pics\\a.jpg".to_string(), name: "a.jpg".to_string(), size: 1, relative_path: Some("a.jpg".to_string()) },
        FileInfo { path: "C:\\pics\\b.jpg".to_string(), name: "b.jpg".to_string(), size: 2, relative_path: Some("b.jpg".to_string()) },
    ];
    let ids = vec!["i1".to_string(), "i2".to_string()];
    // Same file pending for the same directory: not queued again; a fresh
    // task that is not in the queue stands for it in the result.
    let mut q = QueueData { tasks: vec![queued_task("p", "C:\\pics\\a.jpg", "/d/pics", 0)], version: 1 };
    let res = add_folder_to_queue(&mut q, &cfg, "C:\\pics", "pics", "/d", &files, &ids, 4).result.unwrap();
    assert_eq!(q.tasks.len(), 2);
    assert_eq!(res.tasks.len(), 2);
    assert_eq!(res.tasks[0].file.path, "C:\\pics\\a.jpg");
    assert_eq!(res.tasks[0].id, "i1");
    assert!(q.tasks.iter().all(|t| t.id != "i1"));
    assert_eq!(res.tasks[1].file.path, "C:\\pics\\b.jpg");
    // Pending elsewhere: queued again, unless duplicates are blocked.
    let mut q = QueueData { tasks: vec![queued_task("p", "C:\\pics\\a.jpg", "/other", 0)], version: 1 };
    let res = add_folder_to_queue(&mut q, &cfg, "C:\\pics", "pics", "/d", &files, &ids, 4).result.unwrap();
    assert_eq!(res.tasks.len(), 2);
    cfg.block_duplicate_file_upload = true;
    let mut q = QueueData { tasks: vec![queued_task("p", "C:\\pics\\a.jpg", "/other", 0)], version: 1 };
    let res = add_folder_to_queue(&mut q, &cfg, "C:\\pics", "pics", "/d", &files, &ids, 4).result.unwrap();
    assert_eq!(q.tasks.len(), 2);
    assert_eq!(res.tasks.iter().map(|t| t.file.path.clone()).collect::<Vec<_>>(), vec!["C:\\pics\\b.jpg".to_string()]);
}
