use openlist_uploader::compress::{
    archive_name, decode_rar_output, existing_parts_message, extract_part_suffix, folder_missing_message, hex_dump, numbered_folder_name,
    parse_rar_progress, rar_args, rar_parts, rename_note, renamed_part, short_folder_name, split_out_dir_name,
    source_missing_message, split_progress_line,
};
use openlist_uploader::log_sync::{
    dir_failed_result, encoded_target_path, get_local_log_files, no_log_files_result, hash_password, interval_sync_period, log_file_target, login_outcome,
    save_token_to_config, should_relogin, sync_start, sync_target_dir, upload_outcome, LogFileEntry, LogSyncLoginResp, LogSyncResponse,
    SyncStart, SyncTally, Transport, UploadBreak,
};
use openlist_uploader::models::{AppConfig, HistoryData, LogSyncConfig, LogSyncResult, QueueData, TaskStatus, UploadTask};
use openlist_uploader::startup::{
    check_alist_login, check_log_sync_login, count_interrupted_tasks, detect_abnormal_exit, is_interrupted,
    kill_alist_args, recover_after_restart, recovery_report, start_alist_poll, start_alist_precheck, store_alist_login,
    store_log_sync_login,
};

fn sync_config() -> LogSyncConfig {
    let mut c = LogSyncConfig::default();
    c.base_url = "http://logs".to_string();
    c.username = "u".to_string();
    c.password = "p".to_string();
    c
}

#[test]
fn password_hash_matches_alist() {
    assert_eq!(hash_password("123456"), "e166b45e39301021e897e3a6713e11171893217ad2901cf28c2c09c8d54e55d9");
}

#[test]
fn target_path_is_percent_encoded() {
    assert_eq!(encoded_target_path("/日志 a-b.log"), "%2F%E6%97%A5%E5%BF%97%20a%2Db%2Elog");
    assert_eq!(encoded_target_path("abcXYZ019"), "abcXYZ019");
}

#[test]
fn log_sync_login_outcomes() {
    let ok = LogSyncResponse { code: 200, message: "ok".to_string(), data: Some(LogSyncLoginResp { token: "t".to_string() }) };
    assert_eq!(login_outcome(Ok(("{}".to_string(), Ok(ok)))), Ok("t".to_string()));
    let empty = LogSyncResponse { code: 200, message: "ok".to_string(), data: Some(LogSyncLoginResp { token: String::new() }) };
    assert_eq!(login_outcome(Ok(("{}".to_string(), Ok(empty)))), Err("登录成功但未返回 token".to_string()));
    let denied: LogSyncResponse<LogSyncLoginResp> = LogSyncResponse { code: 400, message: "bad".to_string(), data: None };
    assert_eq!(login_outcome(Ok(("{}".to_string(), Ok(denied)))), Err("登录失败: code=400, message=bad".to_string()));
    assert_eq!(login_outcome(Err(Transport::SendFailed("dns".to_string()))), Err("登录请求失败: dns".to_string()));
}

#[test]
fn log_upload_outcomes() {
    assert_eq!(upload_outcome("a.log", Ok(("{}".to_string(), Some((200, "ok".to_string()))))), Ok(()));
    assert_eq!(
        upload_outcome("a.log", Ok(("<html>".to_string(), None))),
        Err("上传失败: file=a.log, code=-1, message=<html>".to_string())
    );
    assert_eq!(
        upload_outcome("a.log", Err(UploadBreak::ReadLocal("denied".to_string()))),
        Err("读取本地日志文件失败: file=a.log, error=denied".to_string())
    );
}

#[test]
fn sync_start_and_relogin() {
    let mut c = sync_config();
    assert!(matches!(sync_start(&c, None), SyncStart::LoginFirst));
    c.token = "t".to_string();
    assert!(matches!(sync_start(&c, None), SyncStart::Direct));
    c.base_url.clear();
    match sync_start(&c, Some("then".to_string())) {
        SyncStart::NoServer(r) => {
            assert_eq!(r.details, vec!["日志Alist地址为空，请先配置".to_string()]);
            assert_eq!(r.last_sync_at, Some("then".to_string()));
        },
        _ => panic!(),
    }
    let failed = LogSyncResult { total: 1, success: 0, failed: 1, details: vec!["✗ a.log: HTTP 401 Unauthorized".to_string()], last_sync_at: None };
    assert!(should_relogin(&failed, &sync_config()));
    let other = LogSyncResult { total: 1, success: 0, failed: 1, details: vec!["✗ a.log: disk".to_string()], last_sync_at: None };
    assert!(!should_relogin(&other, &sync_config()));
}

#[test]
fn sync_tally_and_targets() {
    let mut c = sync_config();
    c.target_path = "/logs//".to_string();
    let t = sync_target_dir(&c);
    assert_eq!(t, "/logs");
    assert_eq!(log_file_target(&t, "a.log"), "/logs/a.log");
    let mut tally = SyncTally::new();
    tally.record("a.log", Ok(()));
    tally.record("b.log", Err("boom".to_string()));
    let r = tally.finish(2, "now".to_string(), Some("before".to_string()));
    assert_eq!(r.success, 1);
    assert_eq!(r.failed, 1);
    assert_eq!(r.details, vec!["✓ a.log".to_string(), "✗ b.log: boom".to_string()]);
    assert_eq!(r.last_sync_at, Some("now".to_string()));
    c.enabled = true;
    c.sync_interval_minutes = 5;
    assert_eq!(interval_sync_period(&c), Some(300));
}

#[test]
fn local_logs_sorted_by_name() {
    let e = |n: &str| LogFileEntry { path: format!("/l/{}", n), name: n.to_string(), size: 1, modified: None };
    let found = vec![e("startup.log"), e("alist-2024-01-02.log"), e("debug.log"), e("alist-2024-01-01.log")];
    let names: Vec<String> = get_local_log_files(&found).into_iter().map(|f| f.name).collect();
    assert_eq!(names, vec!["alist-2024-01-01.log", "alist-2024-01-02.log", "debug.log", "startup.log"]);
}

#[test]
fn rar_progress_lines() {
    assert_eq!(parse_rar_progress("Adding  file.mp4    45%"), Some(45));
    assert_eq!(parse_rar_progress("  x 100%  "), Some(100));
    assert_eq!(parse_rar_progress("x 101%"), None);
    assert_eq!(parse_rar_progress("45%"), None);
    assert_eq!(parse_rar_progress("完成45%"), Some(45));
    assert_eq!(parse_rar_progress("添加  影片.mp4    7%"), Some(7));
    assert_eq!(parse_rar_progress("Creating archive a.rar"), None);
    assert_eq!(parse_rar_progress("x 7% y 300%"), None);
    let (line, rest) = split_progress_line("  12% \rnext").unwrap();
    assert_eq!(line, "12%");
    assert_eq!(rest, "next");
    assert!(split_progress_line("no break").is_none());
}

#[test]
fn rar_command_pieces() {
    assert_eq!(split_out_dir_name("movie.mkv"), "movie.mkv-dir");
    assert_eq!(archive_name("movie"), "movie.rar");
    assert_eq!(rar_args(2000, "out.rar", "in.mkv"), vec!["a", "-v2000m", "-m1", "-ep3", "out.rar", "in.mkv"]);
    let parts = rar_parts(&vec!["a.part1.rar".to_string(), "note.txt".to_string(), "a.part2.rar".to_string()]);
    assert_eq!(parts, vec!["a.part1.rar", "a.part2.rar"]);
    assert_eq!(
        existing_parts_message(&parts),
        "输出目录已存在 2 个 .rar 分卷文件，疑似此前压缩产物：\na.part1.rar\na.part2.rar\n请先删除该目录或对拦截记录使用\"改名重传\"，不要重复分卷压缩。"
    );
}

#[test]
fn rar_output_decoding_and_dump() {
    assert_eq!(decode_rar_output(&"完成".as_bytes().to_vec()), "完成");
    assert_eq!(decode_rar_output(&vec![0xD6, 0xD0, 0xCE, 0xC4]), "中文");
    assert_eq!(hex_dump(&vec![0x00, 0xAB, 0x10]), "00ab10");
    assert_eq!(hex_dump(&vec![]), "");
    let big = vec![0xFFu8; 3000];
    let d = hex_dump(&big);
    assert!(d.starts_with(&"ff".repeat(2048)));
    assert!(d.ends_with("...(truncated, total=3000B)"));
    assert_eq!(d.len(), 4096 + "...(truncated, total=3000B)".len());
}

#[test]
fn folder_renaming_pieces() {
    assert_eq!(extract_part_suffix("Movie.part1.rar"), Some("part1.rar".to_string()));
    assert_eq!(extract_part_suffix("MOVIE.PART12.RAR"), Some("PART12.RAR".to_string()));
    assert_eq!(extract_part_suffix("movie.rar"), None);
    assert_eq!(extract_part_suffix("\u{212A}.part1.rar"), Some("part1.rar".to_string()));
    assert_eq!(extract_part_suffix("İstanbul.Part2.rar"), Some("Part2.rar".to_string()));
    assert_eq!(renamed_part("b", "\u{212A}.part1.rar"), Some("b.part1.rar".to_string()));
    assert_eq!(renamed_part("short", "long name.part3.rar"), Some("short.part3.rar".to_string()));
    let long = format!("{}-dir", "长".repeat(60));
    let short = short_folder_name(&long).unwrap();
    assert_eq!(short, format!("{}-dir", "长".repeat(50)));
    assert_eq!(short_folder_name("ab-dir"), Err("新名称与原名称相同，无需改名".to_string()));
    assert_eq!(numbered_folder_name("base", 2), "base-2-dir");
    assert_eq!(
        rename_note("名", "n-dir", "T", "C:\\x"),
        "原始文件名: 名\n原始字节数: 3 字节\n改名原因: 超过 115Crypt 加密驱动 175 字节限制\n新文件夹名: n-dir\n改名时间: T\n源路径: C:\\x"
    );
}

#[test]
fn restart_recovery() {
    let mk = |id: &str, st: TaskStatus| {
        let mut t = UploadTask::new_with_id(format!("/{}", id), "/d".to_string(), id.to_string(), 0);
        t.status = st;
        t
    };
    let mut q = QueueData { tasks: vec![mk("a", TaskStatus::Uploading), mk("b", TaskStatus::Pending), mk("c", TaskStatus::Uploading)], version: 1 };
    q.tasks[2].progress = 70;
    let mut h = HistoryData { records: vec![], version: 1 };
    let counts = recover_after_restart(&mut q, &mut h, &vec![true, false], true, 30, 1_000);
    assert_eq!(counts.recovered, 1);
    assert_eq!(counts.skipped, 1);
    assert_eq!(q.tasks.len(), 2);
    assert_eq!(q.tasks[0].id, "b");
    assert_eq!(q.tasks[1].id, "c");
    assert_eq!(q.tasks[1].status, TaskStatus::Pending);
    assert_eq!(q.tasks[1].progress, 0);
    assert_eq!(h.records.len(), 1);
    assert_eq!(h.records[0].id, "a");
    assert_eq!(h.records[0].status, TaskStatus::Completed);
    let rep = recovery_report(true, 1, 1);
    assert!(rep.start_scheduler);
    assert_eq!(
        rep.message.unwrap(),
        "⚠️ 程序异常退出告警\n上次运行被强制终止（断电/蓝屏/强杀），中断了 2 个上传任务\n已自动恢复: 1 个重新上传，1 个已传完跳过\n上传调度器已自动启动"
    );
    let quiet = recovery_report(false, 0, 0);
    assert!(quiet.message.is_none() && !quiet.start_scheduler);
    assert!(detect_abnormal_exit(Some(true)));
    assert!(!detect_abnormal_exit(None));
}

#[test]
fn alist_process_helpers() {
    assert_eq!(kill_alist_args(&None, Some(5)), None);
    assert_eq!(
        kill_alist_args(&Some("C:\\tools\\openlist.exe".to_string()), Some(42)),
        Some(vec!["/PID".to_string(), "42".to_string(), "/T".to_string(), "/F".to_string()])
    );
    assert_eq!(
        kill_alist_args(&Some("C:\\tools\\openlist.exe".to_string()), None),
        Some(vec!["/IM".to_string(), "openlist.exe".to_string(), "/T".to_string(), "/F".to_string()])
    );
    assert_eq!(start_alist_precheck("", true, false, "u"), Some(Err("Alist 路径未配置，请先在设置页填写".to_string())));
    assert_eq!(start_alist_precheck("a.exe", true, true, "http://h"), Some(Ok("Alist 已在运行 (http://h 返回 pong)".to_string())));
    assert_eq!(start_alist_precheck("a.exe", true, false, "http://h"), None);
    assert_eq!(start_alist_poll(3, false, "u", 1), None);
    assert_eq!(start_alist_poll(3, true, "u", 1), Some("Alist 启动成功，u 已就绪 (pid=1, 等待 3s)".to_string()));
}

#[test]
fn login_form_checks() {
    assert_eq!(check_alist_login("http://h//", "u", "p"), Ok("http://h".to_string()));
    assert_eq!(check_alist_login("///", "u", "p"), Err("服务地址不能为空".to_string()));
    assert_eq!(check_alist_login("h", "  ", "p"), Err("用户名不能为空".to_string()));
    assert_eq!(check_alist_login("h", "u", ""), Err("密码不能为空".to_string()));
    let mut c = sync_config();
    assert_eq!(check_log_sync_login(&c), Ok(()));
    c.password.clear();
    assert_eq!(check_log_sync_login(&c), Err("密码不能为空".to_string()));
    let _ = AppConfig::default();
}

#[test]
fn recovery_leaves_no_interrupted_upload() {
    let mk = |id: &str, st: TaskStatus, error: Option<&str>| {
        let mut t = UploadTask::new_with_id(format!("/{}", id), "/d".to_string(), id.to_string(), 0);
        t.status = st;
        t.error = error.map(|e| e.to_string());
        t
    };
    let tasks = vec![
        mk("a", TaskStatus::Failed, Some("上传中断，可重试")),
        mk("b", TaskStatus::Failed, Some("网络错误")),
        mk("c", TaskStatus::Uploading, None),
        mk("d", TaskStatus::Uploading, None),
    ];
    let mut q = QueueData { tasks, version: 1 };
    assert_eq!(count_interrupted_tasks(&q.tasks), 3);
    let mut h = HistoryData { records: vec![], version: 1 };
    let counts = recover_after_restart(&mut q, &mut h, &vec![false, true, false], false, 30, 100_000_000_000);
    assert_eq!(counts.recovered + counts.skipped, 3);
    assert!(q.tasks.iter().all(|t| !is_interrupted(t)));
    assert_eq!(q.tasks.len() + counts.skipped, 4);
    assert_eq!(q.tasks.iter().map(|t| t.id.clone()).collect::<Vec<_>>(), vec!["a", "b", "d"]);
}

#[test]
fn sync_tally_has_a_line_per_file() {
    let mut tally = SyncTally::new();
    for (i, name) in ["x.log", "y.log", "z.log"].iter().enumerate() {
        let outcome = if i == 1 { Err("401 unauthorized".to_string()) } else { Ok(()) };
        tally.record(name, outcome);
        assert_eq!(tally.success + tally.failed, tally.details.len());
    }
    assert_eq!((tally.success, tally.failed), (2, 1));
}

#[test]
fn sync_results_that_upload_nothing() {
    let r = dir_failed_result("denied", Some("t0".to_string()));
    assert_eq!((r.total, r.success, r.failed), (0, 0, 0));
    assert_eq!(r.details, vec!["创建目录失败: denied".to_string()]);
    assert_eq!(r.last_sync_at, Some("t0".to_string()));
    let n = no_log_files_result(None);
    assert_eq!(n.details, vec!["未找到本地日志文件".to_string()]);
    assert_eq!(n.last_sync_at, None);
    assert_eq!(folder_missing_message("D:\\a-dir"), "文件夹不存在或不是目录: D:\\a-dir");
    assert_eq!(source_missing_message("x.bin"), "文件不存在: x.bin");
}

#[test]
fn storing_a_login_changes_only_the_login() {
    let mut c = AppConfig::default();
    c.alist.kill_on_exit = true;
    c.alist.exe_path = "C:\\alist.exe".to_string();
    c.log_sync.target_path = "/logs".to_string();
    store_alist_login(&mut c, "http://h".to_string(), "tok".to_string(), "u".to_string(), "p".to_string());
    assert_eq!((c.alist.base_url.as_str(), c.alist.token.as_str()), ("http://h", "tok"));
    assert!(c.alist.kill_on_exit);
    assert_eq!(c.alist.exe_path, "C:\\alist.exe");
    let mut login = c.log_sync.clone();
    login.base_url = "http://l".to_string();
    store_log_sync_login(&mut c, &login, "t2".to_string());
    assert_eq!(c.log_sync.token, "t2");
    assert_eq!(c.log_sync.target_path, "/logs");
    save_token_to_config(&mut c, "t3");
    assert_eq!(c.log_sync.token, "t3");
    assert_eq!(c.log_sync.base_url, "http://l");
    assert!(c.alist.kill_on_exit);
}
