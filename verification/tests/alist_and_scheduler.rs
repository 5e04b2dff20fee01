use openlist_uploader::alist::{
    api_url, auth_header, file_listed, get_task_progress, list_directory_reply, login_reply, mkdir_reply, plan_upload,
    refresh_reply, task_list_reply, test_connection_reply, upload_limit_reply, upload_limit_value, upload_reply,
    AlistError, AlistResponse, AlistTaskResp, ListResp, LoginResp, TaskListData,
};
use openlist_uploader::models::{NotificationConfig, ScheduledUpload, TaskStatus, UploadConfig, UploadTask};
use openlist_uploader::schedule::{clock_text, event_notification_enabled, schedule_tick, ScheduleEvents};
use openlist_uploader::scheduler::{
    after_claim, after_failure, average_speed, begin_run, check_notification_config, progress_message, collect_schedule_stats, completion_actions, format_duration,
    queue_complete_message, queue_complete_title, schedule_message, server_upload_limit_kb, shutdown_args,
    upload_attempt, upload_precheck, vanished_failure, AfterClaim, FailureStep, FinishReason, PollStep, Precheck,
    RunStart, ScheduleStats, SchedulerLoop, SchedulerStep, TaskWatch, UploadAttempt,
};

fn envelope<T>(code: i32, message: &str, data: Option<T>) -> AlistResponse<T> {
    AlistResponse { code, message: message.to_string(), data }
}

fn alist_task(id: &str, state: i32, status: &str, error: &str) -> AlistTaskResp {
    AlistTaskResp { id: id.to_string(), name: "n".to_string(), state, status: status.to_string(), error: error.to_string() }
}

#[test]
fn alist_error_texts() {
    assert_eq!(AlistError::Api("x".to_string()).to_string(), "Alist API 错误：x");
    assert_eq!(AlistError::FileExists.to_string(), "文件已存在");
    assert_eq!(
        AlistError::ApiWithResponse { message: "m".to_string(), raw: "r".to_string() }.to_string(),
        "Alist API 错误：m\n原始响应：r"
    );
    assert_eq!(AlistError::Request("timeout".to_string()).to_string(), "HTTP 请求失败：timeout");
    assert_eq!(AlistError::Io("gone".to_string()).to_string(), "IO 错误：gone");
}

#[test]
fn urls_and_headers() {
    assert_eq!(api_url("http://h:5244//", true, "/ping"), "http://h:5244/ping");
    assert_eq!(api_url("http://h:5244/", false, "/api/fs/put"), "http://h:5244//api/fs/put");
    assert_eq!(auth_header(""), None);
    assert_eq!(auth_header("tok"), Some("tok".to_string()));
}

#[test]
fn upload_plan_refuses_root_and_names_target() {
    assert!(matches!(plan_upload("http://h", "/a/b.txt", " / ", false, "stream"), Err(AlistError::Api(_))));
    let p = plan_upload("http://h", "C:\\x\\b.txt", "/dir/", true, "form").unwrap();
    assert_eq!(p.url, "http://h/api/fs/form");
    assert_eq!(p.target_path, "/dir/b.txt");
    assert_eq!(p.file_name, "b.txt");
    assert!(p.as_form && p.as_task);
    let q = plan_upload("http://h", "/b.txt", "/dir", false, "stream").unwrap();
    assert_eq!(q.url, "http://h/api/fs/put");
    assert!(!q.as_form);
}

#[test]
fn login_reply_meanings() {
    assert_eq!(login_reply("{}", Ok(envelope(200, "ok", Some(LoginResp { token: "t".to_string() })))).unwrap(), "t");
    match login_reply("{}", Ok(envelope::<LoginResp>(200, "ok", None))) {
        Err(AlistError::Api(m)) => assert_eq!(m, "登录成功但未返回 token"),
        _ => panic!(),
    }
    match login_reply("{}", Ok(envelope::<LoginResp>(400, "bad password", None))) {
        Err(AlistError::Api(m)) => assert_eq!(m, "bad password"),
        _ => panic!(),
    }
    match login_reply("<html>", Err("expected value".to_string())) {
        Err(AlistError::Api(m)) => assert_eq!(m, "解析响应失败: expected value; 原始响应: <html>"),
        _ => panic!(),
    }
}

#[test]
fn connection_reply_meanings() {
    assert!(matches!(test_connection_reply(401, "", Ok(envelope(200, "", None))), Ok(false)));
    assert!(matches!(test_connection_reply(200, "", Ok(envelope(200, "", None))), Ok(true)));
    assert!(matches!(test_connection_reply(200, "", Ok(envelope(401, "", None))), Ok(false)));
    assert!(matches!(test_connection_reply(200, "x", Err("e".to_string())), Err(AlistError::Api(_))));
}

#[test]
fn upload_reply_meanings() {
    assert_eq!(upload_reply("{}", Ok(envelope(200, "", Some(Some("77".to_string()))))).unwrap(), Some("77".to_string()));
    assert_eq!(upload_reply("{}", Ok(envelope(200, "", Some(Some(String::new()))))).unwrap(), None);
    assert_eq!(upload_reply("{}", Ok(envelope::<Option<String>>(200, "", None))).unwrap(), None);
    assert!(matches!(upload_reply("{}", Ok(envelope::<Option<String>>(403, "file exists", None))), Err(AlistError::FileExists)));
    match upload_reply("raw", Ok(envelope::<Option<String>>(500, "boom", None))) {
        Err(AlistError::ApiWithResponse { message, raw }) => {
            assert_eq!(message, "上传失败: code=500, message=boom");
            assert_eq!(raw, "raw");
        },
        _ => panic!(),
    }
}

#[test]
fn task_list_and_progress() {
    let tasks = vec![alist_task("1", 1, "running", ""), alist_task("2", 2, "done", "")];
    let r = task_list_reply("{}", Ok(envelope(200, "", Some(TaskListData::Tasks(Ok(tasks)))))).unwrap();
    assert_eq!(r.len(), 2);
    assert_eq!(task_list_reply("{}", Ok(envelope(200, "", Some(TaskListData::Other)))).unwrap().len(), 0);
    assert!(task_list_reply("{}", Ok(envelope::<TaskListData>(500, "no", None))).is_err());
    let found = get_task_progress(r, "2").unwrap();
    assert_eq!(found.state, 2);
    match get_task_progress(vec![], "9") {
        Err(AlistError::Api(m)) => assert_eq!(m, "任务 9 未找到"),
        _ => panic!(),
    }
}

#[test]
fn listing_and_directory_replies() {
    let names = Some(vec![Some("a.txt".to_string()), None, Some("b.txt".to_string())]);
    assert!(file_listed(200, &names, "b.txt"));
    assert!(!file_listed(200, &names, "c.txt"));
    assert!(!file_listed(404, &names, "b.txt"));
    assert!(mkdir_reply("already exist", Err("bad".to_string())).is_ok());
    assert!(mkdir_reply("{}", Ok(envelope(500, "denied", None))).is_err());
    assert!(refresh_reply("{}", Ok(envelope(200, "", None))).is_ok());
    match list_directory_reply(404, "404 Not Found", "", Err("x".to_string())) {
        Err(AlistError::Api(m)) => assert_eq!(m, "目录列表请求失败: HTTP 404 Not Found"),
        _ => panic!(),
    }
    let items = list_directory_reply(200, "200 OK", "", Ok(envelope(200, "", Some(ListResp { content: None })))).unwrap();
    assert!(items.is_empty());
    assert_eq!(upload_limit_value(-1), "-1");
    assert!(upload_limit_reply(Ok(envelope(200, "", None))).is_ok());
}

#[test]
fn scheduler_loop_steps() {
    let mut l = SchedulerLoop::new();
    assert_eq!(l.step(false, 0, 0, 0, false, 1), SchedulerStep::Finish(FinishReason::Stopped));
    assert_eq!(l.step(true, 2, 2, 1, false, 1), SchedulerStep::WaitForRunLimit { first: true });
    assert_eq!(l.step(true, 2, 2, 1, false, 1), SchedulerStep::WaitForRunLimit { first: false });
    assert_eq!(l.step(true, 2, 2, 0, false, 1), SchedulerStep::Finish(FinishReason::RunLimitReached));
    assert_eq!(l.step(true, 0, 5, 1, true, 3), SchedulerStep::Wait);
    assert_eq!(l.step(true, 0, 5, 0, true, 3), SchedulerStep::Finish(FinishReason::StopRequested));
    assert_eq!(l.step(true, 0, 5, 1, false, 2), SchedulerStep::Claim);
    assert_eq!(after_claim(true, 1, 1), AfterClaim::Launch { wait_idle: true });
    assert_eq!(after_claim(false, 0, 1), AfterClaim::Finish(FinishReason::QueueDrained));
    assert_eq!(after_claim(false, 2, 3), AfterClaim::Wait);
    assert_eq!(server_upload_limit_kb(0), None);
    assert_eq!(server_upload_limit_kb(2048), Some(2));
}

#[test]
fn failures_retry_with_growing_waits() {
    assert!(matches!(after_failure(3, 3, true, "x", "skip"), FailureStep::GiveUp { stop_queue: false }));
    assert!(matches!(after_failure(3, 3, true, "x", "stop"), FailureStep::GiveUp { stop_queue: true }));
    match after_failure(0, 3, false, "x", "stop") {
        FailureStep::AbortRetry(e) => assert_eq!(e, "x（调度器停止时中止重试）"),
        _ => panic!(),
    }
    assert!(matches!(after_failure(0, 9, true, "os error 2", "stop"), FailureStep::Retry { delay_secs: Some(30) }));
    assert!(matches!(after_failure(2, 9, true, "IO 错误：x", "stop"), FailureStep::Retry { delay_secs: Some(120) }));
    assert!(matches!(after_failure(7, 9, true, "系统找不到指定的文件", "stop"), FailureStep::Retry { delay_secs: Some(240) }));
    assert!(matches!(after_failure(1, 9, true, "timeout", "stop"), FailureStep::Retry { delay_secs: None }));
}

#[test]
fn upload_attempt_meanings() {
    assert!(matches!(upload_attempt(Ok(None)), UploadAttempt::Done));
    assert!(matches!(upload_attempt(Err(AlistError::FileExists)), UploadAttempt::Done));
    match upload_attempt(Ok(Some("5".to_string()))) {
        UploadAttempt::WaitForTask(id) => assert_eq!(id, "5"),
        _ => panic!(),
    }
    match upload_attempt(Err(AlistError::AuthFailed)) {
        UploadAttempt::Failed { error, api_response } => {
            assert_eq!(error, "认证失败");
            assert!(api_response.is_none());
        },
        _ => panic!(),
    }
}

#[test]
fn upload_precheck_rules() {
    let mut cfg = UploadConfig::default();
    let t = UploadTask::new_with_id("/a".to_string(), "/".to_string(), "i".to_string(), 0);
    assert!(matches!(upload_precheck(&t, &cfg), Precheck::Refuse(_)));
    let mut big = UploadTask::new_with_id("/a".to_string(), "/d".to_string(), "i".to_string(), 0);
    big.file.size = 6 * 1024 * 1024 * 1024;
    cfg.block_files_over_5gb = true;
    match upload_precheck(&big, &cfg) {
        Precheck::Refuse(e) => assert_eq!(e, "115 网盘非会员单个文件最大支持 5GB，a 超过限制，已阻止上传。"),
        _ => panic!(),
    }
    cfg.block_files_over_5gb = false;
    cfg.warn_files_over_4gb = true;
    assert!(matches!(upload_precheck(&big, &cfg), Precheck::Proceed { large_warning: true }));
}

#[test]
fn background_task_watch() {
    let mut w = TaskWatch::new();
    assert!(matches!(w.found(1, "running", ""), PollStep::Continue));
    assert!(matches!(w.found(2, "", ""), PollStep::Done));
    match w.found(4, "failed", "") {
        PollStep::Failed(e) => assert_eq!(e, "Alist 后台上传任务失败: state=4, status=failed"),
        _ => panic!(),
    }
    for _ in 0..14 {
        assert!(matches!(w.missing(false), PollStep::Continue));
    }
    assert!(matches!(w.missing(false), PollStep::LookUpFailure));
    assert!(matches!(w.missing(true), PollStep::Done));
    let (e, raw) = vanished_failure("f.mp4", "7", &Some(vec![alist_task("7", 4, "err", "quota")]));
    assert_eq!(e, "OpenList 后台任务失败: quota");
    assert_eq!(raw.unwrap(), "{\"state\":4,\"error\":\"quota\",\"status\":\"err\"}");
    let (e2, raw2) = vanished_failure("f.mp4", "7", &None);
    assert_eq!(e2, "Alist 后台上传任务已消失，但目标目录中未找到文件 f.mp4");
    assert!(raw2.is_none());
}

#[test]
fn durations_and_notices() {
    assert_eq!(format_duration(3725), "1小时2分钟5秒");
    assert_eq!(format_duration(125), "2分钟5秒");
    assert_eq!(format_duration(9), "9秒");
    assert_eq!(format_duration(-5), "-5秒");
    let (title, colour) = queue_complete_title(1);
    assert_eq!(title, "上传队列完成（含失败）");
    assert_eq!(colour, "orange");
    assert_eq!(
        queue_complete_message("s", "e", 61, 3, 2, 1),
        "## 上传队列已完成\n\n**开始时间**: s\n**结束时间**: e\n**耗时**: 1分钟1秒\n**总任务数**: 3\n**成功**: 2\n**失败**: 1"
    );
    assert_eq!(shutdown_args(120), vec!["/s".to_string(), "/t".to_string(), "120".to_string()]);
}

#[test]
fn completion_needs_work_done() {
    let mut cfg = UploadConfig::default();
    cfg.notify_feishu_on_queue_complete = true;
    cfg.shutdown_after_complete = true;
    cfg.shutdown_delay_minutes = 2;
    cfg.notification = Some(NotificationConfig { enabled: true, webhook_url: "http://hook".to_string(), channels: vec![] });
    let c = completion_actions(false, &cfg, 1, 0);
    assert!(c.notify);
    assert_eq!(c.shutdown_after_secs, Some(120));
    let idle = completion_actions(false, &cfg, 0, 0);
    assert!(!idle.notify);
    assert_eq!(idle.shutdown_after_secs, None);
    let stopped = completion_actions(true, &cfg, 3, 0);
    assert!(!stopped.notify);
}

#[test]
fn notification_config_checks() {
    let mut n = NotificationConfig { enabled: true, webhook_url: "  ".to_string(), channels: vec!["feishu".to_string()] };
    assert_eq!(check_notification_config(&n), Err("Webhook URL 不能为空".to_string()));
    n.webhook_url = "http://x".to_string();
    n.channels.clear();
    assert_eq!(check_notification_config(&n), Err("未配置通知渠道".to_string()));
}

#[test]
fn schedule_stats_and_messages() {
    let mut q = vec![
        UploadTask::new_with_id("/a".to_string(), "/d".to_string(), "1".to_string(), 0),
        UploadTask::new_with_id("/b".to_string(), "/d".to_string(), "2".to_string(), 0),
    ];
    q[0].file.size = 10;
    q[1].file.size = 5;
    q[1].status = TaskStatus::Uploading;
    let mut h = vec![UploadTask::new_with_id("/c".to_string(), "/d".to_string(), "3".to_string(), 0)];
    h[0].status = TaskStatus::Completed;
    h[0].file.size = 7;
    let s = collect_schedule_stats(&q, &h, 1, 2);
    assert_eq!(s.pending_count, 1);
    assert_eq!(s.pending_bytes, 10);
    assert_eq!(s.uploading_count, 1);
    assert_eq!(s.uploaded_bytes, 7);
    let stats = ScheduleStats { pending_count: 2, pending_bytes: 0, uploaded_count: 3, uploaded_bytes: 0, failed_count: 1, uploading_count: 0 };
    assert_eq!(
        schedule_message("stop", "T", "03:00", "07:00", &stats, "0 B", "1.00 KB").unwrap(),
        "⏹️ 定时上传结束\n时间: T\n定时时段: 03:00 ~ 07:00\n本轮已上传: 3 个 (1.00 KB)\n本轮失败: 1 个\n无正在上传的任务，已全部停止\n剩余未上传: 2 个"
    );
    assert_eq!(
        schedule_message("start", "T", "03:00", "07:00", &stats, "2.00 MB", "").unwrap(),
        "📤 定时上传开始\n时间: T\n定时时段: 03:00 ~ 07:00\n队列待上传: 2 个 (2.00 MB)"
    );
    assert!(schedule_message("other", "T", "a", "b", &stats, "", "").is_none());
}

#[test]
fn schedule_window_ticks() {
    assert_eq!(clock_text(3, 5), "03:05");
    assert_eq!(clock_text(13, 45), "13:45");
    let s = Some(ScheduledUpload {
        enabled: true,
        start_time: "03:00".to_string(),
        end_time: "07:00".to_string(),
        notify_on_start: true,
        notify_on_stop: false,
    });
    let t = schedule_tick(&s, "03:00", false, true, true);
    assert!(t.start_upload && t.notify_start && !t.stop_after_current);
    let busy = schedule_tick(&s, "03:00", true, true, true);
    assert!(!busy.start_upload);
    let end = schedule_tick(&s, "07:00", true, false, false);
    assert!(end.stop_after_current && !end.notify_stop);
    assert!(!schedule_tick(&None, "03:00", false, true, true).start_upload);
    assert!(event_notification_enabled(s.as_ref().unwrap(), "start"));
    assert!(!event_notification_enabled(s.as_ref().unwrap(), "stop"));
}

#[test]
fn window_events_sent_once_a_day() {
    let mut ev = ScheduleEvents::new();
    assert!(ev.should_send("2024-05-01", "start"));
    assert!(!ev.should_send("2024-05-01", "start"));
    assert!(ev.should_send("2024-05-01", "stop"));
    assert!(ev.should_send("2024-05-02", "start"));
}

#[test]
fn progress_report_text() {
    let current = Some(("movie.mkv".to_string(), "1.50 GB".to_string()));
    let msg = progress_message("2024-01-02 03:04:05", 3, 1, 4, 50, "3.00 GB", "1小时2分", "2.00 MB", &current);
    assert_eq!(
        msg,
        "📤 上传进度通知\n时间: 2024-01-02 03:04:05\n进度: 4/8 (50%)\n已上传: 3 个 (3.00 GB)\n失败: 1 个\n剩余: 4 个\n已运行: 1小时2分\n平均速度: 2.00 MB/s\n当前上传: movie.mkv (1.50 GB)"
    );
    let unnamed = Some((String::new(), "0.00 B".to_string()));
    assert!(progress_message("t", 0, 0, 0, 0, "a", "b", "c", &unnamed).ends_with("\n当前上传: 无"));
    assert!(progress_message("t", 0, 0, 0, 0, "a", "b", "c", &None).ends_with("\n当前上传: 无"));
    assert_eq!(average_speed(1000, 0), 1000);
    assert_eq!(average_speed(1000, 3), 333);
    assert_eq!(average_speed(1000, -5), 1000);
}

#[test]
fn run_start_cancels_leftover_shutdown() {
    assert_eq!(begin_run(true, true), RunStart::AlreadyRunning);
    assert_eq!(begin_run(false, true), RunStart::Start { cancel_shutdown: true });
    assert_eq!(begin_run(false, false), RunStart::Start { cancel_shutdown: false });
}
