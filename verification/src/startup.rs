//! Starting and stopping the application: recovering the uploads an
//! abnormal exit interrupted, starting and stopping the Alist server, and
//! checking the login forms. The caller does the file, process and network
//! work.
use vstd::prelude::*;
use crate::models::{AlistConfig, AppConfig, HistoryData, LogSyncConfig, QueueData, TaskStatus, UploadTask};
use crate::paths::{trim_end_slash, trim_white, upload_file_name};
use crate::queue::{add_to_history, filed_history, retention_cutoff, MIN_DATETIME_MS};
use crate::text::{chars_of, contains_seq, decimal, push_decimal, push_str, str_contains, string_of, trim_both, trim_end,
    Strip};

verus! {

// ---------------------------------------------------------------------------
// Interrupted uploads
// ---------------------------------------------------------------------------

/// An upload that a previous run left unfinished: still marked uploading,
/// or failed as interrupted.
pub open spec fn interrupted(t: UploadTask) -> bool {
    ||| t.status == TaskStatus::Uploading
    ||| t.status == TaskStatus::Failed && match t.error {
        Some(e) => contains_seq(e@, "上传中断"@),
        None => false,
    }
}

/// Whether `t` is an interrupted upload.
pub fn is_interrupted(t: &UploadTask) -> (b: bool)
    ensures
        b == interrupted(*t),
{
    if t.status == TaskStatus::Uploading {
        return true;
    }
    if t.status == TaskStatus::Failed {
        match &t.error {
            Some(e) => str_contains(e.as_str(), "上传中断"),
            None => false,
        }
    } else {
        false
    }
}

/// The number of interrupted uploads in `ts`.
pub open spec fn count_interrupted(ts: Seq<UploadTask>) -> nat
    decreases ts.len(),
{
    if ts.len() == 0 {
        0
    } else {
        count_interrupted(ts.drop_last()) + if interrupted(ts.last()) {
            1nat
        } else {
            0nat
        }
    }
}

proof fn lemma_count_interrupted_le(ts: Seq<UploadTask>)
    ensures
        count_interrupted(ts) <= ts.len(),
    decreases ts.len(),
{
    if ts.len() > 0 {
        lemma_count_interrupted_le(ts.drop_last());
    }
}

/// The number of interrupted uploads in `ts`.
pub fn count_interrupted_tasks(ts: &Vec<UploadTask>) -> (n: usize)
    ensures
        n == count_interrupted(ts@),
{
    let mut n: usize = 0;
    let mut i: usize = 0;
    while i < ts.len()
        invariant
            i <= ts.len(),
            n == count_interrupted(ts@.take(i as int)),
        decreases ts.len() - i,
    {
        assert(ts@.take(i + 1).drop_last() =~= ts@.take(i as int));
        proof {
            lemma_count_interrupted_le(ts@.take(i as int));
        }
        if is_interrupted(&ts[i]) {
            n += 1;
        }
        i += 1;
    }
    assert(ts@.take(ts.len() as int) =~= ts@);
    n
}

/// Recovery runs when an upload was interrupted or the last run ended
/// abnormally.
pub fn recovery_needed(has_interrupted: bool, was_abnormal: bool) -> (b: bool)
    ensures
        b == (has_interrupted || was_abnormal),
{
    has_interrupted || was_abnormal
}

/// An interrupted upload queued again from the start.
pub open spec fn requeued(t: UploadTask) -> UploadTask {
    UploadTask { status: TaskStatus::Pending, error: None, progress: 0, speed: 0, ..t }
}

/// The queue after recovery: an interrupted upload whose file is on the
/// drive leaves the queue, any other interrupted upload is queued again;
/// `on_drive[k]` tells whether the file of the `k`-th interrupted upload is
/// on the drive.
pub open spec fn recovered_queue(ts: Seq<UploadTask>, on_drive: Seq<bool>) -> Seq<UploadTask>
    decreases ts.len(),
{
    if ts.len() == 0 {
        Seq::empty()
    } else {
        let prev = recovered_queue(ts.drop_last(), on_drive);
        let t = ts.last();
        if !interrupted(t) {
            prev.push(t)
        } else if on_drive[count_interrupted(ts.drop_last()) as int] {
            prev
        } else {
            prev.push(requeued(t))
        }
    }
}

/// `t` finished at `now`.
pub open spec fn completed_at(t: UploadTask, now: i64) -> UploadTask {
    UploadTask {
        status: TaskStatus::Completed,
        end_time: Some(now),
        progress: 100,
        updated_at: now,
        speed: 0,
        duration: match t.start_time {
            Some(s) => Some(crate::models::seconds_between(s as int, now as int) as u64),
            None => t.duration,
        },
        ..t
    }
}

/// The history after recovery: each interrupted upload whose file is on the
/// drive is filed as completed at `now`, in queue order.
pub open spec fn recovered_history(
    history: Seq<UploadTask>,
    ts: Seq<UploadTask>,
    on_drive: Seq<bool>,
    never_clean: bool,
    retention_days: u32,
    now: i64,
) -> Seq<UploadTask>
    decreases ts.len(),
{
    if ts.len() == 0 {
        history
    } else {
        let prev = recovered_history(history, ts.drop_last(), on_drive, never_clean, retention_days, now);
        let t = ts.last();
        if interrupted(t) && on_drive[count_interrupted(ts.drop_last()) as int] {
            filed_history(prev, completed_at(t, now), never_clean, retention_days, now)
        } else {
            prev
        }
    }
}

/// The number of interrupted uploads of `ts` found on the drive.
pub open spec fn count_on_drive(ts: Seq<UploadTask>, on_drive: Seq<bool>) -> nat
    decreases ts.len(),
{
    if ts.len() == 0 {
        0
    } else {
        count_on_drive(ts.drop_last(), on_drive) + if interrupted(ts.last()) && on_drive[count_interrupted(
            ts.drop_last(),
        ) as int] {
            1nat
        } else {
            0nat
        }
    }
}

/// Recovery leaves no interrupted upload in the queue, and the queue loses
/// exactly the uploads whose files were found on the drive.
pub proof fn law_recovery_clears_interruptions(ts: Seq<UploadTask>, on_drive: Seq<bool>)
    ensures
        count_interrupted(recovered_queue(ts, on_drive)) == 0,
        recovered_queue(ts, on_drive).len() + count_on_drive(ts, on_drive) == ts.len(),
    decreases ts.len(),
{
    if ts.len() > 0 {
        law_recovery_clears_interruptions(ts.drop_last(), on_drive);
        let prev = recovered_queue(ts.drop_last(), on_drive);
        let t = ts.last();
        if !interrupted(t) {
            assert(prev.push(t).drop_last() =~= prev);
        } else if !on_drive[count_interrupted(ts.drop_last()) as int] {
            assert(prev.push(requeued(t)).drop_last() =~= prev);
        }
    }
}

/// The uploads recovered after a restart.
pub struct RecoveryCounts {
    /// Queued again.
    pub recovered: usize,
    /// Found on the drive and filed as completed.
    pub skipped: usize,
}

/// Recovers the uploads interrupted by the last run at `now` (see
/// `recovered_queue` and `recovered_history`).
pub fn recover_after_restart(
    queue: &mut QueueData,
    history: &mut HistoryData,
    on_drive: &Vec<bool>,
    never_clean: bool,
    retention_days: u32,
    now: i64,
) -> (r: RecoveryCounts)
    requires
        on_drive.len() == count_interrupted(old(queue).tasks@),
        never_clean || retention_cutoff(now, retention_days) >= MIN_DATETIME_MS,
    ensures
        final(queue).tasks@ == recovered_queue(old(queue).tasks@, on_drive@),
        final(queue).version == old(queue).version,
        final(history).records@ == recovered_history(
            old(history).records@,
            old(queue).tasks@,
            on_drive@,
            never_clean,
            retention_days,
            now,
        ),
        final(history).version == old(history).version,
        r.skipped == count_on_drive(old(queue).tasks@, on_drive@),
        r.recovered + r.skipped == count_interrupted(old(queue).tasks@),
{
    let ghost ts = queue.tasks@;
    let ghost h0 = history.records@;
    let mut kept: Vec<UploadTask> = Vec::new();
    let mut k: usize = 0;
    let mut recovered: usize = 0;
    let mut skipped: usize = 0;
    let mut i: usize = 0;
    while i < queue.tasks.len()
        invariant
            i <= queue.tasks.len(),
            queue.tasks@ == ts,
            queue.version == old(queue).version,
            history.version == old(history).version,
            on_drive.len() == count_interrupted(ts),
            never_clean || retention_cutoff(now, retention_days) >= MIN_DATETIME_MS,
            k == count_interrupted(ts.take(i as int)),
            k <= i,
            kept@ == recovered_queue(ts.take(i as int), on_drive@),
            history.records@ == recovered_history(h0, ts.take(i as int), on_drive@, never_clean, retention_days, now),
            skipped == count_on_drive(ts.take(i as int), on_drive@),
            recovered + skipped == k,
        decreases queue.tasks.len() - i,
    {
        assert(ts.take(i + 1).drop_last() =~= ts.take(i as int));
        proof {
            lemma_count_interrupted_prefix(ts, i as int);
        }
        let t = queue.tasks[i].clone();
        if is_interrupted(&t) {
            if on_drive[k] {
                let mut done = t;
                done.mark_completed_at(now);
                add_to_history(history, done, never_clean, retention_days, now);
                skipped += 1;
            } else {
                let mut again = t;
                again.status = TaskStatus::Pending;
                again.error = None;
                again.progress = 0;
                again.speed = 0;
                kept.push(again);
                recovered += 1;
            }
            k += 1;
        } else {
            kept.push(t);
        }
        i += 1;
    }
    assert(ts.take(ts.len() as int) =~= ts);
    queue.tasks = kept;
    RecoveryCounts { recovered, skipped }
}

proof fn lemma_count_interrupted_prefix(ts: Seq<UploadTask>, i: int)
    requires
        0 <= i < ts.len(),
    ensures
        count_interrupted(ts.take(i)) + (if interrupted(ts[i]) {
            1nat
        } else {
            0nat
        }) <= count_interrupted(ts),
    decreases ts.len() - i,
{
    assert(ts.take(i + 1).drop_last() =~= ts.take(i));
    if i + 1 < ts.len() {
        lemma_count_interrupted_prefix(ts, i + 1);
        assert(ts.take(i + 2).drop_last() =~= ts.take(i + 1));
    } else {
        assert(ts.take(i + 1) =~= ts);
    }
}

/// The alert sent after an abnormal exit: with what recovery did when an
/// upload was interrupted.
pub open spec fn abnormal_exit_alert(total: nat, recovered: nat, skipped: nat) -> Seq<char> {
    if total > 0 {
        "⚠️ 程序异常退出告警\n上次运行被强制终止（断电/蓝屏/强杀），中断了 "@ + decimal(total) + " 个上传任务\n已自动恢复: "@
            + decimal(recovered) + " 个重新上传，"@ + decimal(skipped) + " 个已传完跳过\n"@ + if recovered > 0 {
            "上传调度器已自动启动"@
        } else {
            "无需重新上传"@
        }
    } else {
        "⚠️ 程序异常退出告警\n上次运行被强制终止（断电/蓝屏/强杀）\n本次启动未发现中断的上传任务\n建议检查电脑供电稳定性"@
    }
}

/// The notice sent after a normal restart that found interrupted uploads.
pub open spec fn restart_notice(total: nat, recovered: nat, skipped: nat) -> Seq<char> {
    "系统重启恢复通知: 检测到 "@ + decimal(total) + " 个中断任务，"@ + decimal(recovered) + " 个重新排队，"@ + decimal(
        skipped,
    ) + " 个已传完跳过（可在队列页手动开始上传）"@
}

/// What follows recovery.
pub struct RecoveryReport {
    /// The text to notify, if any (sent when notifications are usable).
    pub message: Option<String>,
    /// Start the uploader on its own.
    pub start_scheduler: bool,
}

/// After recovery: an abnormal exit is always reported, and the uploader
/// restarts by itself when uploads were queued again; a normal restart
/// reports only when uploads were interrupted, and starts nothing.
pub fn recovery_report(was_abnormal: bool, recovered: usize, skipped: usize) -> (r: RecoveryReport)
    requires
        recovered + skipped <= usize::MAX,
    ensures
        was_abnormal ==> (r.message matches Some(m) && m@ == abnormal_exit_alert(
            (recovered + skipped) as nat,
            recovered as nat,
            skipped as nat,
        )),
        was_abnormal ==> r.start_scheduler == (recovered > 0),
        !was_abnormal && recovered + skipped > 0 ==> (r.message matches Some(m) && m@ == restart_notice(
            (recovered + skipped) as nat,
            recovered as nat,
            skipped as nat,
        )),
        !was_abnormal && recovered + skipped == 0 ==> r.message is None,
        !was_abnormal ==> !r.start_scheduler,
{
    let total = recovered + skipped;
    if was_abnormal {
        let m = if total > 0 {
            let mut m = "⚠️ 程序异常退出告警\n上次运行被强制终止（断电/蓝屏/强杀），中断了 ".to_owned();
            push_decimal(&mut m, total as u128);
            push_str(&mut m, " 个上传任务\n已自动恢复: ");
            push_decimal(&mut m, recovered as u128);
            push_str(&mut m, " 个重新上传，");
            push_decimal(&mut m, skipped as u128);
            push_str(&mut m, " 个已传完跳过\n");
            if recovered > 0 {
                push_str(&mut m, "上传调度器已自动启动");
            } else {
                push_str(&mut m, "无需重新上传");
            }
            m
        } else {
            "⚠️ 程序异常退出告警\n上次运行被强制终止（断电/蓝屏/强杀）\n本次启动未发现中断的上传任务\n建议检查电脑供电稳定性".to_owned()
        };
        RecoveryReport { message: Some(m), start_scheduler: recovered > 0 }
    } else if total > 0 {
        let mut m = "系统重启恢复通知: 检测到 ".to_owned();
        push_decimal(&mut m, total as u128);
        push_str(&mut m, " 个中断任务，");
        push_decimal(&mut m, recovered as u128);
        push_str(&mut m, " 个重新排队，");
        push_decimal(&mut m, skipped as u128);
        push_str(&mut m, " 个已传完跳过（可在队列页手动开始上传）");
        RecoveryReport { message: Some(m), start_scheduler: false }
    } else {
        RecoveryReport { message: None, start_scheduler: false }
    }
}

/// The last run ended abnormally when its running marker is still there
/// (`None` when the marker's place is unknown).
pub fn detect_abnormal_exit(marker_exists: Option<bool>) -> (b: bool)
    ensures
        b == (marker_exists == Some(true)),
{
    match marker_exists {
        Some(e) => e,
        None => false,
    }
}

// ---------------------------------------------------------------------------
// The Alist server
// ---------------------------------------------------------------------------

/// What the start-up does with the configured Alist executable.
pub struct AlistAutostart {
    /// Remember it, to stop it on exit.
    pub remember_for_exit: bool,
    /// Try to start it.
    pub start: bool,
}

/// A configured executable is started with the application, and
/// remembered for exit when it is to be stopped then.
pub fn alist_autostart(exe_path: &str, kill_on_exit: bool) -> (r: AlistAutostart)
    ensures
        r.start == (exe_path@.len() > 0),
        r.remember_for_exit == (exe_path@.len() > 0 && kill_on_exit),
{
    let set = chars_of(exe_path).len() > 0;
    AlistAutostart { remember_for_exit: set && kill_on_exit, start: set }
}

/// The arguments of taskkill that stop the Alist server on exit: by its
/// process id when this application started it, else by its executable's
/// file name ("alist.exe" when the path has none); nothing when no
/// executable is remembered.
pub fn kill_alist_args(exe_path: &Option<String>, pid: Option<u32>) -> (r: Option<Vec<String>>)
    ensures
        exe_path is None ==> r is None,
        exe_path is Some && pid is Some ==> (r matches Some(a) && a@.map_values(|s: String| s@) == seq![
            "/PID"@,
            decimal(pid->0 as nat),
            "/T"@,
            "/F"@,
        ]),
        exe_path is Some && pid is None ==> (r matches Some(a) && a@.map_values(|s: String| s@) == seq![
            "/IM"@,
            exe_image_name(exe_path->0@),
            "/T"@,
            "/F"@,
        ]),
{
    match exe_path {
        None => None,
        Some(exe) => {
            match pid {
                Some(p) => {
                    let mut ps = String::new();
                    push_decimal(&mut ps, p as u128);
                    let a = vec!["/PID".to_owned(), ps, "/T".to_owned(), "/F".to_owned()];
                    assert(a@.map_values(|s: String| s@) =~= seq!["/PID"@, decimal(p as nat), "/T"@, "/F"@]);
                    Some(a)
                },
                None => {
                    let name = image_name(exe.as_str());
                    let a = vec!["/IM".to_owned(), name, "/T".to_owned(), "/F".to_owned()];
                    assert(a@.map_values(|s: String| s@) =~= seq!["/IM"@, exe_image_name(exe@), "/T"@, "/F"@]);
                    Some(a)
                },
            }
        },
    }
}

/// The file name of the executable at `path`: its last '/' or '\\'
/// separated component, or "alist.exe" when that is empty.
pub open spec fn exe_image_name(path: Seq<char>) -> Seq<char> {
    if crate::paths::last_component(path).len() == 0 {
        "alist.exe"@
    } else {
        crate::paths::last_component(path)
    }
}

fn image_name(path: &str) -> (r: String)
    ensures
        r@ == exe_image_name(path@),
{
    let v = chars_of(path);
    let last = crate::paths::last_component_of(&v);
    if last.len() == 0 {
        "alist.exe".to_owned()
    } else {
        string_of(&last)
    }
}

/// The refusal when no Alist executable is configured.
pub open spec fn alist_path_missing() -> Seq<char> {
    "Alist 路径未配置，请先在设置页填写"@
}

/// The start of a test run of the Alist server: refused without an
/// executable, or when the executable does not exist; reported as running
/// when it already answers.
pub fn start_alist_precheck(exe_path: &str, exe_exists: bool, already_running: bool, base_url: &str) -> (r: Option<
    Result<String, String>,
>)
    ensures
        exe_path@.len() == 0 ==> (r matches Some(Err(m)) && m@ == alist_path_missing()),
        exe_path@.len() > 0 && !exe_exists ==> (r matches Some(Err(m)) && m@ == "文件不存在: "@ + exe_path@
            + "，请检查路径是否正确"@),
        exe_path@.len() > 0 && exe_exists && already_running ==> (r matches Some(Ok(m)) && m@ == "Alist 已在运行 ("@
            + base_url@ + " 返回 pong)"@),
        exe_path@.len() > 0 && exe_exists && !already_running ==> r is None,
{
    if chars_of(exe_path).len() == 0 {
        return Some(Err("Alist 路径未配置，请先在设置页填写".to_owned()));
    }
    if !exe_exists {
        let mut m = "文件不存在: ".to_owned();
        push_str(&mut m, exe_path);
        push_str(&mut m, "，请检查路径是否正确");
        return Some(Err(m));
    }
    if already_running {
        let mut m = "Alist 已在运行 (".to_owned();
        push_str(&mut m, base_url);
        push_str(&mut m, " 返回 pong)");
        return Some(Ok(m));
    }
    None
}

/// How many seconds a started Alist server is waited for.
pub const ALIST_READY_WAIT_SECS: u32 = 30;

/// One check, `attempt` seconds after starting the server with process id
/// `pid`: ready when it answers; after the last check, the report that it
/// did not become ready; otherwise nothing yet.
pub fn start_alist_poll(attempt: u32, healthy: bool, base_url: &str, pid: u32) -> (r: Option<String>)
    ensures
        healthy ==> (r matches Some(m) && m@ == "Alist 启动成功，"@ + base_url@ + " 已就绪 (pid="@ + decimal(pid as nat)
            + ", 等待 "@ + decimal(attempt as nat) + "s)"@),
        !healthy && attempt >= ALIST_READY_WAIT_SECS ==> (r matches Some(m) && m@ == "进程已启动 (pid="@ + decimal(
            pid as nat,
        ) + ")，但 "@ + base_url@ + " 30 秒内未就绪，请检查 Alist 配置或端口"@),
        !healthy && attempt < ALIST_READY_WAIT_SECS ==> r is None,
{
    if healthy {
        let mut m = "Alist 启动成功，".to_owned();
        push_str(&mut m, base_url);
        push_str(&mut m, " 已就绪 (pid=");
        push_decimal(&mut m, pid as u128);
        push_str(&mut m, ", 等待 ");
        push_decimal(&mut m, attempt as u128);
        push_str(&mut m, "s)");
        Some(m)
    } else if attempt >= ALIST_READY_WAIT_SECS {
        let mut m = "进程已启动 (pid=".to_owned();
        push_decimal(&mut m, pid as u128);
        push_str(&mut m, ")，但 ");
        push_str(&mut m, base_url);
        push_str(&mut m, " 30 秒内未就绪，请检查 Alist 配置或端口");
        Some(m)
    } else {
        None
    }
}

// ---------------------------------------------------------------------------
// Login forms
// ---------------------------------------------------------------------------

/// Checks the Alist login form: the server address (without trailing '/')
/// must not be empty, nor the trimmed user name, nor the password. Gives the
/// address without trailing '/'.
pub fn check_alist_login(base_url: &str, username: &str, password: &str) -> (r: Result<String, String>)
    ensures
        trim_end_slash(base_url@).len() == 0 ==> (r matches Err(m) && m@ == "服务地址不能为空"@),
        trim_end_slash(base_url@).len() > 0 && trim_white(username@).len() == 0 ==> (r matches Err(m) && m@
            == "用户名不能为空"@),
        trim_end_slash(base_url@).len() > 0 && trim_white(username@).len() > 0 && password@.len() == 0 ==> (r matches Err(
            m,
        ) && m@ == "密码不能为空"@),
        trim_end_slash(base_url@).len() > 0 && trim_white(username@).len() > 0 && password@.len() > 0 ==> (r matches Ok(
            b,
        ) && b@ == trim_end_slash(base_url@)),
{
    let bv = chars_of(base_url);
    let b = trim_end(&bv, &Strip::Char('/'));
    if b.len() == 0 {
        return Err("服务地址不能为空".to_owned());
    }
    let uv = chars_of(username);
    if trim_both(&uv, &Strip::WhiteSpace).len() == 0 {
        return Err("用户名不能为空".to_owned());
    }
    if chars_of(password).len() == 0 {
        return Err("密码不能为空".to_owned());
    }
    Ok(string_of(&b))
}

/// Stores a successful Alist login in the configuration.
pub fn store_alist_login(config: &mut AppConfig, base_url: String, token: String, username: String, password: String)
    ensures
        *final(config) == (AppConfig {
            alist: AlistConfig { base_url, token, username, password, ..old(config).alist },
            ..*old(config)
        }),
{
    config.alist.base_url = base_url;
    config.alist.token = token;
    config.alist.username = username;
    config.alist.password = password;
}

/// Checks the log server's login form: address, user name and password
/// must not be empty.
pub fn check_log_sync_login(config: &LogSyncConfig) -> (r: Result<(), String>)
    ensures
        config.base_url@.len() == 0 ==> (r matches Err(m) && m@ == "日志Alist服务地址不能为空"@),
        config.base_url@.len() > 0 && config.username@.len() == 0 ==> (r matches Err(m) && m@ == "用户名不能为空"@),
        config.base_url@.len() > 0 && config.username@.len() > 0 && config.password@.len() == 0 ==> (r matches Err(m)
            && m@ == "密码不能为空"@),
        config.base_url@.len() > 0 && config.username@.len() > 0 && config.password@.len() > 0 ==> r is Ok,
{
    if chars_of(config.base_url.as_str()).len() == 0 {
        return Err("日志Alist服务地址不能为空".to_owned());
    }
    if chars_of(config.username.as_str()).len() == 0 {
        return Err("用户名不能为空".to_owned());
    }
    if chars_of(config.password.as_str()).len() == 0 {
        return Err("密码不能为空".to_owned());
    }
    Ok(())
}

/// Stores a successful login to the log server in the configuration.
pub fn store_log_sync_login(full: &mut AppConfig, login: &LogSyncConfig, token: String)
    ensures
        final(full).log_sync.token == token,
        final(full).log_sync.base_url@ == login.base_url@,
        final(full).log_sync.username@ == login.username@,
        final(full).log_sync.password@ == login.password@,
        final(full).log_sync.target_path == old(full).log_sync.target_path,
        final(full).log_sync.enabled == old(full).log_sync.enabled,
        final(full).log_sync.sync_on_exit == old(full).log_sync.sync_on_exit,
        final(full).log_sync.sync_interval_minutes == old(full).log_sync.sync_interval_minutes,
        final(full).log_sync.use_system_proxy == old(full).log_sync.use_system_proxy,
        final(full).log_sync.last_sync_at == old(full).log_sync.last_sync_at,
        final(full).alist == old(full).alist,
        final(full).upload == old(full).upload,
        final(full).history == old(full).history,
{
    full.log_sync.token = token;
    full.log_sync.base_url = string_of(&chars_of(login.base_url.as_str()));
    full.log_sync.username = string_of(&chars_of(login.username.as_str()));
    full.log_sync.password = string_of(&chars_of(login.password.as_str()));
}

} // verus!
