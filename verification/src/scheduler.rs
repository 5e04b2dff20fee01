//! The decisions of the upload scheduler: when its loop claims, waits or
//! ends, what becomes of an upload attempt and of a failure, when a
//! background task of Alist is done, and the texts it sends. The caller
//! runs the loop, the timers and the network calls.
use vstd::prelude::*;
use crate::adding::{FIVE_GB, FOUR_GB};
use crate::alist::{alist_error_text, AlistError, AlistTaskResp};
use crate::models::{NotificationConfig, TaskStatus, UploadConfig, UploadTask};
use crate::paths::{is_root_alist_path, normalized_alist_path};
use crate::text::{chars_of, contains_seq, decimal, push_decimal, push_signed_decimal, push_str, signed_decimal,
    str_contains, str_eq};

verus! {

// ---------------------------------------------------------------------------
// The scheduler loop
// ---------------------------------------------------------------------------

/// Why the scheduler loop ends.
#[derive(PartialEq, Eq, Structural, Clone, Copy, Debug)]
pub enum FinishReason {
    /// Uploading was switched off.
    Stopped,
    /// The per-run task limit was met and nothing is uploading.
    RunLimitReached,
    /// Stopping after the current task was asked for and nothing is uploading.
    StopRequested,
    /// No task is pending and nothing is uploading.
    QueueDrained,
}

/// What the scheduler loop does next.
#[derive(PartialEq, Eq, Structural, Clone, Copy, Debug)]
pub enum SchedulerStep {
    Finish(FinishReason),
    /// Wait a second and look again; `first` when the per-run limit has
    /// just been met (it is logged once).
    WaitForRunLimit { first: bool },
    /// Wait a second and look again.
    Wait,
    /// Claim the next pending task.
    Claim,
}

/// How a run of the uploader begins.
#[derive(PartialEq, Eq, Structural, Clone, Copy, Debug)]
pub enum RunStart {
    /// A run is going on already: nothing more is done.
    AlreadyRunning,
    /// A run starts: the stop request is cleared and the run's counters are
    /// set to zero; with `cancel_shutdown`, the shutdown a previous run
    /// scheduled is cancelled first.
    Start { cancel_shutdown: bool },
}

/// The start of a run: skipped while `uploading`; otherwise it starts, and
/// cancels the shutdown still scheduled by the previous run, if any.
pub fn begin_run(uploading: bool, shutdown_scheduled: bool) -> (r: RunStart)
    ensures
        uploading ==> r == RunStart::AlreadyRunning,
        !uploading ==> r == (RunStart::Start { cancel_shutdown: shutdown_scheduled }),
{
    if uploading {
        RunStart::AlreadyRunning
    } else {
        RunStart::Start { cancel_shutdown: shutdown_scheduled }
    }
}

/// The state the scheduler loop keeps between its rounds.
pub struct SchedulerLoop {
    /// The per-run limit has been reported.
    pub limit_logged: bool,
}

impl SchedulerLoop {
    /// A loop that has reported nothing yet.
    pub fn new() -> (r: Self)
        ensures
            !r.limit_logged,
    {
        SchedulerLoop { limit_logged: false }
    }

    /// One round of the loop, before a task is claimed: stop when uploading
    /// was switched off; while the per-run limit (`max_tasks_per_run`, 0
    /// for none) is met, wait for the active uploads and then end; while
    /// stopping after the current task or at the concurrency limit, wait for
    /// the active uploads and end when there are none; otherwise claim.
    pub fn step(
        &mut self,
        uploading: bool,
        max_tasks_per_run: u32,
        uploaded_in_run: u32,
        active: usize,
        stop_after_current: bool,
        concurrency: u8,
    ) -> (s: SchedulerStep)
        ensures
            !uploading ==> s == SchedulerStep::Finish(FinishReason::Stopped),
            uploading && max_tasks_per_run > 0 && uploaded_in_run >= max_tasks_per_run ==> {
                &&& active == 0 ==> s == SchedulerStep::Finish(FinishReason::RunLimitReached)
                &&& active > 0 ==> s == (SchedulerStep::WaitForRunLimit { first: !old(self).limit_logged })
                &&& active > 0 ==> final(self).limit_logged
            },
            uploading && !(max_tasks_per_run > 0 && uploaded_in_run >= max_tasks_per_run) && (stop_after_current
                || active >= concurrency) ==> {
                &&& active == 0 ==> s == SchedulerStep::Finish(FinishReason::StopRequested)
                &&& active > 0 ==> s == SchedulerStep::Wait
            },
            uploading && !(max_tasks_per_run > 0 && uploaded_in_run >= max_tasks_per_run) && !stop_after_current
                && active < concurrency ==> s == SchedulerStep::Claim,
            !(s is WaitForRunLimit) ==> final(self).limit_logged == old(self).limit_logged,
    {
        if !uploading {
            return SchedulerStep::Finish(FinishReason::Stopped);
        }
        if max_tasks_per_run > 0 && uploaded_in_run >= max_tasks_per_run {
            if active == 0 {
                return SchedulerStep::Finish(FinishReason::RunLimitReached);
            }
            let first = !self.limit_logged;
            self.limit_logged = true;
            return SchedulerStep::WaitForRunLimit { first };
        }
        if stop_after_current || active >= concurrency as usize {
            if active == 0 {
                return SchedulerStep::Finish(FinishReason::StopRequested);
            }
            return SchedulerStep::Wait;
        }
        SchedulerStep::Claim
    }
}

/// What follows an attempt to claim a task.
#[derive(PartialEq, Eq, Structural, Clone, Copy, Debug)]
pub enum AfterClaim {
    /// Start uploading the claimed task; with `wait_idle`, wait until no
    /// upload is active before the next round.
    Launch { wait_idle: bool },
    Finish(FinishReason),
    Wait,
}

/// After claiming: a claimed task is launched (one at a time when the
/// concurrency is 1); with nothing pending the loop ends once no upload is
/// active, and waits otherwise.
pub fn after_claim(claimed: bool, active: usize, concurrency: u8) -> (r: AfterClaim)
    ensures
        claimed ==> r == (AfterClaim::Launch { wait_idle: concurrency == 1 }),
        !claimed && active == 0 ==> r == AfterClaim::Finish(FinishReason::QueueDrained),
        !claimed && active > 0 ==> r == AfterClaim::Wait,
{
    if claimed {
        AfterClaim::Launch { wait_idle: concurrency == 1 }
    } else if active == 0 {
        AfterClaim::Finish(FinishReason::QueueDrained)
    } else {
        AfterClaim::Wait
    }
}

/// The upload limit set on the server for a local limit of `speed_limit`
/// bytes per second: in KB/s, and none for no local limit.
pub fn server_upload_limit_kb(speed_limit: u64) -> (r: Option<i64>)
    ensures
        speed_limit == 0 ==> r is None,
        speed_limit > 0 ==> r == Some((speed_limit / 1024) as i64),
{
    if speed_limit > 0 {
        Some((speed_limit / 1024) as i64)
    } else {
        None
    }
}

/// Notifications are on and have somewhere to go.
pub open spec fn notification_ready(n: Option<NotificationConfig>) -> bool {
    match n {
        Some(c) => c.enabled && c.webhook_url@.len() > 0,
        None => false,
    }
}

/// Whether notifications are on and have a webhook.
pub fn notification_usable(n: &Option<NotificationConfig>) -> (b: bool)
    ensures
        b == notification_ready(*n),
{
    match n {
        Some(c) => c.enabled && chars_of(c.webhook_url.as_str()).len() > 0,
        None => false,
    }
}

/// What happens when the scheduler has ended.
pub struct Completion {
    /// Send the queue-complete notification.
    pub notify: bool,
    /// Schedule a shutdown after this many seconds.
    pub shutdown_after_secs: Option<u32>,
}

/// When the scheduler ends on its own (not stopped after the current task)
/// and this run uploaded or failed something: the queue-complete
/// notification goes out if it is wanted and notifications are usable, and
/// a shutdown is scheduled if it is wanted.
pub fn completion_actions(stop_after_current: bool, config: &UploadConfig, uploaded: u32, failed: u32) -> (r: Completion)
    requires
        config.shutdown_delay_minutes * 60 <= u32::MAX,
    ensures
        r.notify == (!stop_after_current && config.notify_feishu_on_queue_complete && (uploaded > 0 || failed > 0)
            && notification_ready(config.notification)),
        (!stop_after_current && config.shutdown_after_complete && (uploaded > 0 || failed > 0)) ==> r.shutdown_after_secs
            == Some((config.shutdown_delay_minutes * 60) as u32),
        !(!stop_after_current && config.shutdown_after_complete && (uploaded > 0 || failed > 0))
            ==> r.shutdown_after_secs is None,
{
    let worked = uploaded > 0 || failed > 0;
    let notify = !stop_after_current && config.notify_feishu_on_queue_complete && worked && notification_usable(
        &config.notification,
    );
    let shutdown_after_secs = if !stop_after_current && config.shutdown_after_complete && worked {
        Some(config.shutdown_delay_minutes * 60)
    } else {
        None
    };
    Completion { notify, shutdown_after_secs }
}

/// The arguments of the command that schedules a shutdown.
pub fn shutdown_args(delay_secs: u32) -> (r: Vec<String>)
    ensures
        r@.map_values(|a: String| a@) == seq!["/s"@, "/t"@, decimal(delay_secs as nat)],
{
    let mut secs = String::new();
    push_decimal(&mut secs, delay_secs as u128);
    let r = vec!["/s".to_owned(), "/t".to_owned(), secs];
    assert(r@.map_values(|a: String| a@) =~= seq!["/s"@, "/t"@, decimal(delay_secs as nat)]);
    r
}

/// The arguments of the command that cancels a scheduled shutdown.
pub fn cancel_shutdown_args() -> (r: Vec<String>)
    ensures
        r@.map_values(|a: String| a@) == seq!["/a"@],
{
    let r = vec!["/a".to_owned()];
    assert(r@.map_values(|a: String| a@) =~= seq!["/a"@]);
    r
}

// ---------------------------------------------------------------------------
// One upload
// ---------------------------------------------------------------------------

/// Whether a claimed task may be uploaded.
#[derive(Debug)]
pub enum Precheck {
    /// It fails at once with this error.
    Refuse(String),
    /// It is uploaded; `large_warning` when a warning about its size is due.
    Proceed { large_warning: bool },
}

/// The refusal of the remote root as a target.
pub open spec fn root_target_error() -> Seq<char> {
    "上传目标目录不能为根目录 /，请选择 Alist 中的具体目录"@
}

/// The refusal of a file over 5 GiB at upload time.
pub open spec fn over_5gb_upload_error(name: Seq<char>) -> Seq<char> {
    "115 网盘非会员单个文件最大支持 5GB，"@ + name + " 超过限制，已阻止上传。"@
}

/// Before an upload: a task for the remote root fails, as does a file over
/// 5 GiB while such files are blocked; a file over 4 GiB is warned about
/// while that is asked for.
pub fn upload_precheck(task: &UploadTask, config: &UploadConfig) -> (r: Precheck)
    ensures
        normalized_alist_path(task.alist_path@) == seq!['/'] ==> (r matches Precheck::Refuse(e) && e@
            == root_target_error()),
        normalized_alist_path(task.alist_path@) != seq!['/'] && config.block_files_over_5gb && task.file.size
            > FIVE_GB ==> (r matches Precheck::Refuse(e) && e@ == over_5gb_upload_error(task.file.name@)),
        normalized_alist_path(task.alist_path@) != seq!['/'] && !(config.block_files_over_5gb && task.file.size
            > FIVE_GB) ==> r == (Precheck::Proceed {
            large_warning: config.warn_files_over_4gb && task.file.size > FOUR_GB,
        }),
{
    if is_root_alist_path(task.alist_path.as_str()) {
        return Precheck::Refuse("上传目标目录不能为根目录 /，请选择 Alist 中的具体目录".to_owned());
    }
    if config.block_files_over_5gb && task.file.size > FIVE_GB {
        let mut e = "115 网盘非会员单个文件最大支持 5GB，".to_owned();
        push_str(&mut e, task.file.name.as_str());
        push_str(&mut e, " 超过限制，已阻止上传。");
        return Precheck::Refuse(e);
    }
    Precheck::Proceed { large_warning: config.warn_files_over_4gb && task.file.size > FOUR_GB }
}

/// What an upload call came to.
#[derive(Debug)]
pub enum UploadAttempt {
    /// The file is on the drive.
    Done,
    /// Alist goes on uploading in the background task with this id.
    WaitForTask(String),
    /// The upload failed, with Alist's raw reply when there is one.
    Failed { error: String, api_response: Option<String> },
}

/// The meaning of an upload call's result: a file that already exists on
/// the drive counts as uploaded; a refusal keeps Alist's raw reply.
pub fn upload_attempt(r: Result<Option<String>, AlistError>) -> (a: UploadAttempt)
    ensures
        match r {
            Ok(Some(id)) => a matches UploadAttempt::WaitForTask(i) && i@ == id@,
            Ok(None) => a is Done,
            Err(AlistError::FileExists) => a is Done,
            Err(AlistError::ApiWithResponse { message, raw }) => a matches UploadAttempt::Failed {
                error,
                api_response: Some(resp),
            } && error@ == message@ && resp@ == raw@,
            Err(e) => a matches UploadAttempt::Failed { error, api_response: None } && error@ == alist_error_text(e),
        },
{
    match r {
        Ok(Some(id)) => UploadAttempt::WaitForTask(id),
        Ok(None) => UploadAttempt::Done,
        Err(AlistError::FileExists) => UploadAttempt::Done,
        Err(AlistError::ApiWithResponse { message, raw }) => UploadAttempt::Failed {
            error: message,
            api_response: Some(raw),
        },
        Err(e) => {
            let error = e.to_string();
            UploadAttempt::Failed { error, api_response: None }
        },
    }
}

/// What follows a failed upload.
#[derive(Debug)]
pub enum FailureStep {
    /// The retries are used up: the task fails; with `stop_queue`, the whole
    /// queue stops.
    GiveUp { stop_queue: bool },
    /// The scheduler has stopped: the task fails with this error, no retry.
    AbortRetry(String),
    /// Retry, after this many seconds when given.
    Retry { delay_secs: Option<u64> },
}

/// The error looks like a failing disk or device (such as a USB drive that
/// dropped out).
pub open spec fn is_io_error(e: Seq<char>) -> bool {
    contains_seq(e, "os error"@) || contains_seq(e, "IO 错误"@) || contains_seq(e, "系统找不到"@)
}

/// The wait before retry number `retry_count + 1` after an I/O error:
/// 30, 60, 120, 150 seconds, then 240.
pub open spec fn io_retry_delay(retry_count: u32) -> u64 {
    if retry_count == 0 {
        30
    } else if retry_count == 1 {
        60
    } else if retry_count == 2 {
        120
    } else if retry_count == 3 {
        150
    } else {
        240
    }
}

/// After a failed upload with error `error`: give up once `max_retries`
/// retries are used (stopping the queue unless `fail_action` is "skip");
/// fail without retry when the scheduler has stopped; otherwise retry,
/// after a growing wait when the error looks like an I/O error.
pub fn after_failure(retry_count: u32, max_retries: u32, uploading: bool, error: &str, fail_action: &str) -> (r:
    FailureStep)
    ensures
        retry_count >= max_retries ==> (r matches FailureStep::GiveUp { stop_queue } && stop_queue == (fail_action@
            != "skip"@)),
        retry_count < max_retries && !uploading ==> (r matches FailureStep::AbortRetry(e) && e@ == error@
            + "（调度器停止时中止重试）"@),
        retry_count < max_retries && uploading && is_io_error(error@) ==> (r matches FailureStep::Retry {
            delay_secs: Some(d),
        } && d == io_retry_delay(retry_count)),
        retry_count < max_retries && uploading && !is_io_error(error@) ==> (r matches FailureStep::Retry {
            delay_secs: None,
        }),
{
    if retry_count >= max_retries {
        return FailureStep::GiveUp { stop_queue: !str_eq(fail_action, "skip") };
    }
    if !uploading {
        let mut e = error.to_owned();
        push_str(&mut e, "（调度器停止时中止重试）");
        return FailureStep::AbortRetry(e);
    }
    if str_contains(error, "os error") || str_contains(error, "IO 错误") || str_contains(error, "系统找不到") {
        let d: u64 = if retry_count == 0 {
            30
        } else if retry_count == 1 {
            60
        } else if retry_count == 2 {
            120
        } else if retry_count == 3 {
            150
        } else {
            240
        };
        FailureStep::Retry { delay_secs: Some(d) }
    } else {
        FailureStep::Retry { delay_secs: None }
    }
}

// ---------------------------------------------------------------------------
// Waiting for a background task of Alist
// ---------------------------------------------------------------------------

/// How many polls a background task may be missing from the list before
/// its fate is looked up.
pub const MISSING_CHECK_LIMIT: u32 = 15;

/// What a poll of a background task comes to.
#[derive(Debug)]
pub enum PollStep {
    /// The file is uploaded.
    Done,
    /// Poll again.
    Continue,
    /// The upload failed with this error.
    Failed(String),
    /// The task is gone and the file is not there: look up its fate.
    LookUpFailure,
}

/// The state kept while waiting for a background task.
pub struct TaskWatch {
    /// Polls in a row that did not find the task.
    pub missing_checks: u32,
}

impl TaskWatch {
    /// A watch that has missed nothing yet.
    pub fn new() -> (r: Self)
        ensures
            r.missing_checks == 0,
    {
        TaskWatch { missing_checks: 0 }
    }

    /// A poll that found the task in `state`: 2 is success; 3, 4 or any
    /// error text is failure (the error text, or the state and status when
    /// there is none); anything else goes on.
    pub fn found(&mut self, state: i32, status: &str, error: &str) -> (r: PollStep)
        ensures
            final(self).missing_checks == 0,
            state == 2 ==> r is Done,
            state != 2 && (state == 3 || state == 4 || error@.len() > 0) ==> (r matches PollStep::Failed(e) && e@
                == (if error@.len() > 0 {
                error@
            } else {
                "Alist 后台上传任务失败: state="@ + signed_decimal(state as int) + ", status="@ + status@
            })),
            state != 2 && !(state == 3 || state == 4 || error@.len() > 0) ==> r is Continue,
    {
        self.missing_checks = 0;
        if state == 2 {
            return PollStep::Done;
        }
        let has_error = chars_of(error).len() > 0;
        if state == 3 || state == 4 || has_error {
            if has_error {
                return PollStep::Failed(error.to_owned());
            }
            let mut e = "Alist 后台上传任务失败: state=".to_owned();
            push_signed_decimal(&mut e, state as i64);
            push_str(&mut e, ", status=");
            push_str(&mut e, status);
            return PollStep::Failed(e);
        }
        PollStep::Continue
    }

    /// A poll that did not find the task, after which the target directory
    /// did (`exists`) or did not show the file: done when it does; else the
    /// miss is counted, and after `MISSING_CHECK_LIMIT` misses in a row the
    /// failure is looked up.
    pub fn missing(&mut self, exists: bool) -> (r: PollStep)
        requires
            old(self).missing_checks < u32::MAX,
        ensures
            exists ==> r is Done && final(self).missing_checks == old(self).missing_checks,
            !exists ==> final(self).missing_checks == old(self).missing_checks + 1,
            !exists && final(self).missing_checks < MISSING_CHECK_LIMIT ==> r is Continue,
            !exists && final(self).missing_checks >= MISSING_CHECK_LIMIT ==> r is LookUpFailure,
    {
        if exists {
            return PollStep::Done;
        }
        self.missing_checks = self.missing_checks + 1;
        if self.missing_checks < MISSING_CHECK_LIMIT {
            PollStep::Continue
        } else {
            PollStep::LookUpFailure
        }
    }
}

/// The error of a background task that vanished while its file never
/// appeared, with the failed task's own record when the full task list
/// (`all_tasks`, when it could be fetched) holds it with an error.
pub fn vanished_failure(file_name: &str, task_id: &str, all_tasks: &Option<Vec<AlistTaskResp>>) -> (r: (
    String,
    Option<String>,
))
    ensures
        ({
            let default = "Alist 后台上传任务已消失，但目标目录中未找到文件 "@ + file_name@;
            match failed_record(*all_tasks, task_id@) {
                Some(t) => if t.error@.len() > 0 {
                    &&& r.0@ == "OpenList 后台任务失败: "@ + t.error@
                    &&& r.1 matches Some(raw) && raw@ == "{\"state\":"@ + signed_decimal(t.state as int)
                        + ",\"error\":\""@ + t.error@ + "\",\"status\":\""@ + t.status@ + "\"}"@
                } else {
                    r.0@ == default && r.1 is None
                },
                None => r.0@ == default && r.1 is None,
            }
        }),
{
    let mut default = "Alist 后台上传任务已消失，但目标目录中未找到文件 ".to_owned();
    push_str(&mut default, file_name);
    match all_tasks {
        None => (default, None),
        Some(ts) => {
            let mut i: usize = 0;
            while i < ts.len()
                invariant
                    i <= ts.len(),
                    *all_tasks == Some(*ts),
                    default@ == "Alist 后台上传任务已消失，但目标目录中未找到文件 "@ + file_name@,
                    forall|j: int| 0 <= j < i ==> (#[trigger] ts@[j]).id@ != task_id@,
                decreases ts.len() - i,
            {
                if str_eq(ts[i].id.as_str(), task_id) {
                    let t = &ts[i];
                    proof {
                        lemma_failed_record_at(ts@, task_id@, i as int);
                    }
                    let has_error = chars_of(t.error.as_str()).len() > 0;
                    if has_error {
                        let mut e = "OpenList 后台任务失败: ".to_owned();
                        push_str(&mut e, t.error.as_str());
                        let mut raw = "{\"state\":".to_owned();
                        push_signed_decimal(&mut raw, t.state as i64);
                        push_str(&mut raw, ",\"error\":\"");
                        push_str(&mut raw, t.error.as_str());
                        push_str(&mut raw, "\",\"status\":\"");
                        push_str(&mut raw, t.status.as_str());
                        push_str(&mut raw, "\"}");
                        return (e, Some(raw));
                    }
                    return (default, None);
                }
                i += 1;
            }
            proof {
                lemma_failed_record_none(ts@, task_id@);
            }
            (default, None)
        },
    }
}

/// The first task of `tasks` from position `i` on with identifier `id`.
pub open spec fn first_with_id_from(tasks: Seq<AlistTaskResp>, id: Seq<char>, i: int) -> Option<AlistTaskResp>
    decreases tasks.len() - i,
{
    if i < 0 || i >= tasks.len() {
        None
    } else if tasks[i].id@ == id {
        Some(tasks[i])
    } else {
        first_with_id_from(tasks, id, i + 1)
    }
}

/// The record of the task `id` in a full task list, when there is one.
pub open spec fn failed_record(all_tasks: Option<Vec<AlistTaskResp>>, id: Seq<char>) -> Option<AlistTaskResp> {
    match all_tasks {
        Some(ts) => first_with_id_from(ts@, id, 0),
        None => None,
    }
}

proof fn lemma_first_from(tasks: Seq<AlistTaskResp>, id: Seq<char>, k: int, i: int)
    requires
        0 <= k <= i <= tasks.len(),
        forall|j: int| k <= j < i ==> (#[trigger] tasks[j]).id@ != id,
    ensures
        first_with_id_from(tasks, id, k) == first_with_id_from(tasks, id, i),
    decreases i - k,
{
    if k < i {
        lemma_first_from(tasks, id, k + 1, i);
    }
}

proof fn lemma_failed_record_at(tasks: Seq<AlistTaskResp>, id: Seq<char>, i: int)
    requires
        0 <= i < tasks.len(),
        tasks[i].id@ == id,
        forall|j: int| 0 <= j < i ==> (#[trigger] tasks[j]).id@ != id,
    ensures
        first_with_id_from(tasks, id, 0) == Some(tasks[i]),
{
    lemma_first_from(tasks, id, 0, i);
}

proof fn lemma_failed_record_none(tasks: Seq<AlistTaskResp>, id: Seq<char>)
    requires
        forall|j: int| 0 <= j < tasks.len() ==> (#[trigger] tasks[j]).id@ != id,
    ensures
        first_with_id_from(tasks, id, 0) is None,
{
    lemma_first_from(tasks, id, 0, tasks.len() as int);
}

// ---------------------------------------------------------------------------
// Durations and messages
// ---------------------------------------------------------------------------

/// `a / b` rounded toward zero, as Rust's integer division does.
pub open spec fn trunc_div(a: int, b: int) -> int {
    if a >= 0 {
        a / b
    } else {
        -((-a) / b)
    }
}

/// The remainder of `trunc_div`, with the sign of `a`.
pub open spec fn trunc_rem(a: int, b: int) -> int {
    a - b * trunc_div(a, b)
}

/// A duration of `secs` seconds in hours, minutes and seconds; the larger
/// units are left out while they are not positive.
pub open spec fn duration_text(secs: int) -> Seq<char> {
    let h = trunc_div(secs, 3600);
    let m = trunc_div(trunc_rem(secs, 3600), 60);
    let s = trunc_rem(secs, 60);
    if h > 0 {
        signed_decimal(h) + "小时"@ + signed_decimal(m) + "分钟"@ + signed_decimal(s) + "秒"@
    } else if m > 0 {
        signed_decimal(m) + "分钟"@ + signed_decimal(s) + "秒"@
    } else {
        signed_decimal(s) + "秒"@
    }
}

/// The parts of a duration: whole hours, the minutes and the seconds left,
/// each rounded toward zero.
fn duration_parts(secs: i64) -> (r: (i64, i64, i64))
    ensures
        r.0 == trunc_div(secs as int, 3600),
        r.1 == trunc_div(trunc_rem(secs as int, 3600), 60),
        r.2 == trunc_rem(secs as int, 60),
{
    if secs >= 0 {
        let u = secs as u64;
        let h = u / 3600;
        let m = (u % 3600) / 60;
        let s = u % 60;
        assert(trunc_rem(secs as int, 3600) == u % 3600) by (nonlinear_arith)
            requires
                u == secs,
                secs >= 0,
        {
            assert(u == 3600 * (u / 3600) + u % 3600);
        }
        assert(trunc_rem(secs as int, 60) == u % 60) by (nonlinear_arith)
            requires
                u == secs,
                secs >= 0,
        {
            assert(u == 60 * (u / 60) + u % 60);
        }
        (h as i64, m as i64, s as i64)
    } else {
        let u: u64 = (0i128 - (secs as i128)) as u64;
        let h = u / 3600;
        let r = u % 3600;
        let m = r / 60;
        let s = u % 60;
        assert(trunc_rem(secs as int, 3600) == -(u % 3600) as int) by (nonlinear_arith)
            requires
                u == -secs,
                secs < 0,
        {
            assert(u == 3600 * (u / 3600) + u % 3600);
        }
        assert(trunc_rem(secs as int, 60) == -(u % 60) as int) by (nonlinear_arith)
            requires
                u == -secs,
                secs < 0,
        {
            assert(u == 60 * (u / 60) + u % 60);
        }
        let hi: i64 = 0i64 - (h as i64);
        let mi: i64 = 0i64 - (m as i64);
        let si: i64 = 0i64 - (s as i64);
        (hi, mi, si)
    }
}

/// The duration of `total_secs` seconds as shown in notifications.
pub fn format_duration(total_secs: i64) -> (r: String)
    ensures
        r@ == duration_text(total_secs as int),
{
    let (h, m, s) = duration_parts(total_secs);
    let mut r = String::new();
    if h > 0 {
        push_signed_decimal(&mut r, h);
        push_str(&mut r, "小时");
        push_signed_decimal(&mut r, m);
        push_str(&mut r, "分钟");
        push_signed_decimal(&mut r, s);
        push_str(&mut r, "秒");
    } else if m > 0 {
        push_signed_decimal(&mut r, m);
        push_str(&mut r, "分钟");
        push_signed_decimal(&mut r, s);
        push_str(&mut r, "秒");
    } else {
        push_signed_decimal(&mut r, s);
        push_str(&mut r, "秒");
    }
    r
}

/// The text sent when an upload finally failed.
pub fn failure_notification_text(file_name: &str, error: &str) -> (r: String)
    ensures
        r@ == "上传失败通知\n文件: "@ + file_name@ + "\n错误: "@ + error@
            + "\n状态: 队列已停止，等待人工处理\n请检查文件路径、OpenList 服务状态或网络连接"@,
{
    let mut r = "上传失败通知\n文件: ".to_owned();
    push_str(&mut r, file_name);
    push_str(&mut r, "\n错误: ");
    push_str(&mut r, error);
    push_str(&mut r, "\n状态: 队列已停止，等待人工处理\n请检查文件路径、OpenList 服务状态或网络连接");
    r
}

/// The card title and colour of the queue-complete notification: orange
/// when something failed.
pub fn queue_complete_title(failed: u32) -> (r: (String, String))
    ensures
        failed > 0 ==> r.0@ == "上传队列完成（含失败）"@ && r.1@ == "orange"@,
        failed == 0 ==> r.0@ == "上传队列完成"@ && r.1@ == "green"@,
{
    if failed > 0 {
        ("上传队列完成（含失败）".to_owned(), "orange".to_owned())
    } else {
        ("上传队列完成".to_owned(), "green".to_owned())
    }
}

/// The body of the queue-complete notification.
pub fn queue_complete_message(start: &str, end: &str, duration_secs: i64, total: u32, succeeded: u32, failed: u32) -> (r:
    String)
    ensures
        r@ == "## 上传队列已完成\n\n**开始时间**: "@ + start@ + "\n**结束时间**: "@ + end@ + "\n**耗时**: "@
            + duration_text(duration_secs as int) + "\n**总任务数**: "@ + decimal(total as nat) + "\n**成功**: "@
            + decimal(succeeded as nat) + "\n**失败**: "@ + decimal(failed as nat),
{
    let mut r = "## 上传队列已完成\n\n**开始时间**: ".to_owned();
    push_str(&mut r, start);
    push_str(&mut r, "\n**结束时间**: ");
    push_str(&mut r, end);
    push_str(&mut r, "\n**耗时**: ");
    let d = format_duration(duration_secs);
    push_str(&mut r, d.as_str());
    push_str(&mut r, "\n**总任务数**: ");
    push_decimal(&mut r, total as u128);
    push_str(&mut r, "\n**成功**: ");
    push_decimal(&mut r, succeeded as u128);
    push_str(&mut r, "\n**失败**: ");
    push_decimal(&mut r, failed as u128);
    r
}

/// The text of the test notification.
pub fn test_notification_text() -> (r: String)
    ensures
        r@ == "## 测试通知\n\n**内容**: 这是一条来自 Alist Uploader 的测试通知\n**状态**: 通知配置有效\n\n_如果你看到这条消息，说明 Webhook 配置正确_"@,
{
    "## 测试通知\n\n**内容**: 这是一条来自 Alist Uploader 的测试通知\n**状态**: 通知配置有效\n\n_如果你看到这条消息，说明 Webhook 配置正确_".to_owned()
}

/// A test notification needs a webhook and at least one channel.
pub fn check_notification_config(config: &NotificationConfig) -> (r: Result<(), String>)
    ensures
        crate::paths::trim_white(config.webhook_url@).len() == 0 ==> (r matches Err(e) && e@ == "Webhook URL 不能为空"@),
        crate::paths::trim_white(config.webhook_url@).len() > 0 && config.channels.len() == 0 ==> (r matches Err(e)
            && e@ == "未配置通知渠道"@),
        crate::paths::trim_white(config.webhook_url@).len() > 0 && config.channels.len() > 0 ==> r is Ok,
{
    let v = chars_of(config.webhook_url.as_str());
    let t = crate::text::trim_both(&v, &crate::text::Strip::WhiteSpace);
    if t.len() == 0 {
        return Err("Webhook URL 不能为空".to_owned());
    }
    if config.channels.len() == 0 {
        return Err("未配置通知渠道".to_owned());
    }
    Ok(())
}

// ---------------------------------------------------------------------------
// Run statistics
// ---------------------------------------------------------------------------

/// What a scheduled window reports.
#[derive(Debug, Clone)]
pub struct ScheduleStats {
    pub pending_count: usize,
    pub pending_bytes: u64,
    pub uploaded_count: u32,
    pub uploaded_bytes: u64,
    pub failed_count: u32,
    pub uploading_count: usize,
}

/// The number of tasks in `ts` with status `st`.
pub open spec fn count_status(ts: Seq<UploadTask>, st: TaskStatus) -> nat
    decreases ts.len(),
{
    if ts.len() == 0 {
        0
    } else {
        count_status(ts.drop_last(), st) + if ts.last().status == st {
            1nat
        } else {
            0nat
        }
    }
}

/// The total size of the files of the tasks in `ts` with status `st`.
pub open spec fn bytes_with_status(ts: Seq<UploadTask>, st: TaskStatus) -> nat
    decreases ts.len(),
{
    if ts.len() == 0 {
        0
    } else {
        bytes_with_status(ts.drop_last(), st) + if ts.last().status == st {
            ts.last().file.size as nat
        } else {
            0nat
        }
    }
}

proof fn lemma_bytes_prefix(ts: Seq<UploadTask>, st: TaskStatus, i: int)
    requires
        0 <= i <= ts.len(),
    ensures
        bytes_with_status(ts.take(i), st) <= bytes_with_status(ts, st),
    decreases ts.len() - i,
{
    if i < ts.len() {
        lemma_bytes_prefix(ts, st, i + 1);
        assert(ts.take(i + 1).drop_last() =~= ts.take(i));
    } else {
        assert(ts.take(i) =~= ts);
    }
}

proof fn lemma_count_le(ts: Seq<UploadTask>, st: TaskStatus)
    ensures
        count_status(ts, st) <= ts.len(),
    decreases ts.len(),
{
    if ts.len() > 0 {
        lemma_count_le(ts.drop_last(), st);
    }
}

/// The number of tasks of `ts` with status `st`.
pub fn count_with_status(ts: &Vec<UploadTask>, st: TaskStatus) -> (n: usize)
    ensures
        n == count_status(ts@, st),
{
    let mut n: usize = 0;
    let mut i: usize = 0;
    while i < ts.len()
        invariant
            i <= ts.len(),
            n == count_status(ts@.take(i as int), st),
        decreases ts.len() - i,
    {
        assert(ts@.take(i + 1).drop_last() =~= ts@.take(i as int));
        proof {
            lemma_count_le(ts@.take(i as int), st);
        }
        if ts[i].status == st {
            n += 1;
        }
        i += 1;
    }
    assert(ts@.take(ts.len() as int) =~= ts@);
    n
}

/// The total size of the files of the tasks of `ts` with status `st`.
pub fn sum_bytes_with_status(ts: &Vec<UploadTask>, st: TaskStatus) -> (n: u64)
    requires
        bytes_with_status(ts@, st) <= u64::MAX,
    ensures
        n == bytes_with_status(ts@, st),
{
    let mut n: u64 = 0;
    let mut i: usize = 0;
    while i < ts.len()
        invariant
            i <= ts.len(),
            bytes_with_status(ts@, st) <= u64::MAX,
            n == bytes_with_status(ts@.take(i as int), st),
        decreases ts.len() - i,
    {
        assert(ts@.take(i + 1).drop_last() =~= ts@.take(i as int));
        proof {
            lemma_bytes_prefix(ts@, st, i + 1);
        }
        if ts[i].status == st {
            n = n + ts[i].file.size;
        }
        i += 1;
    }
    assert(ts@.take(ts.len() as int) =~= ts@);
    n
}

/// The first history records counted as uploaded in this run.
pub open spec fn run_records(history: Seq<UploadTask>, uploaded_count: u32) -> Seq<UploadTask> {
    if uploaded_count < history.len() {
        history.take(uploaded_count as int)
    } else {
        history
    }
}

/// The records of a run are the newest ones: the first `uploaded_count`
/// records of the newest-first history (all of them when there are fewer),
/// in order; each further record of the run adds its size to the run's
/// uploaded bytes when it is completed.
pub proof fn law_run_records_are_the_newest(history: Seq<UploadTask>, uploaded_count: u32)
    ensures
        run_records(history, uploaded_count).len() == if uploaded_count < history.len() {
            uploaded_count as int
        } else {
            history.len() as int
        },
        forall|i: int|
            0 <= i < run_records(history, uploaded_count).len() ==> #[trigger] run_records(history, uploaded_count)[i]
                == history[i],
        uploaded_count < history.len() && uploaded_count < u32::MAX ==> bytes_with_status(
            run_records(history, (uploaded_count + 1) as u32),
            TaskStatus::Completed,
        ) == bytes_with_status(run_records(history, uploaded_count), TaskStatus::Completed) + if history[uploaded_count as int].status
            == TaskStatus::Completed {
            history[uploaded_count as int].file.size as nat
        } else {
            0nat
        },
{
    if uploaded_count < history.len() && uploaded_count < u32::MAX {
        let next = run_records(history, (uploaded_count + 1) as u32);
        let k = uploaded_count as int;
        if k + 1 < history.len() {
            assert(next =~= history.take(k + 1));
        } else {
            assert(next =~= history);
            assert(history.take(k + 1) =~= history);
        }
        assert(history.take(k + 1).drop_last() =~= history.take(k));
        assert(next.drop_last() =~= run_records(history, uploaded_count));
        assert(next.last() == history[k]);
    }
}

/// The statistics of a scheduled window: what is pending and uploading in
/// `queue`, the run's counters, and the size of the completed files among
/// the newest `uploaded_count` history records.
pub fn collect_schedule_stats(queue: &Vec<UploadTask>, history: &Vec<UploadTask>, uploaded_count: u32, failed_count: u32) -> (r:
    ScheduleStats)
    requires
        bytes_with_status(queue@, TaskStatus::Pending) <= u64::MAX,
        bytes_with_status(run_records(history@, uploaded_count), TaskStatus::Completed) <= u64::MAX,
    ensures
        r.pending_count == count_status(queue@, TaskStatus::Pending),
        r.pending_bytes == bytes_with_status(queue@, TaskStatus::Pending),
        r.uploading_count == count_status(queue@, TaskStatus::Uploading),
        r.uploaded_count == uploaded_count,
        r.failed_count == failed_count,
        r.uploaded_bytes == bytes_with_status(run_records(history@, uploaded_count), TaskStatus::Completed),
{
    let mut recent: Vec<UploadTask> = Vec::new();
    let mut i: usize = 0;
    while i < history.len() && (i as u64) < (uploaded_count as u64)
        invariant
            i <= history.len(),
            i <= uploaded_count,
            recent@ == history@.take(i as int),
        decreases history.len() - i,
    {
        recent.push(history[i].clone());
        i += 1;
        assert(recent@ =~= history@.take(i as int));
    }
    assert(recent@ == run_records(history@, uploaded_count)) by {
        if uploaded_count >= history.len() {
            assert(history@.take(history.len() as int) =~= history@);
        }
    }
    ScheduleStats {
        pending_count: count_with_status(queue, TaskStatus::Pending),
        pending_bytes: sum_bytes_with_status(queue, TaskStatus::Pending),
        uploaded_count,
        uploaded_bytes: sum_bytes_with_status(&recent, TaskStatus::Completed),
        failed_count,
        uploading_count: count_with_status(queue, TaskStatus::Uploading),
    }
}

/// The first task of `ts` that is uploading, when there is one.
pub open spec fn first_uploading(ts: Seq<UploadTask>, i: int) -> bool {
    &&& 0 <= i < ts.len()
    &&& ts[i].status == TaskStatus::Uploading
    &&& forall|j: int| 0 <= j < i ==> (#[trigger] ts[j]).status != TaskStatus::Uploading
}

/// The name and size of the file being uploaded, for progress reports.
pub fn current_upload(ts: &Vec<UploadTask>) -> (r: Option<(String, u64)>)
    ensures
        r is None ==> forall|j: int| 0 <= j < ts.len() ==> (#[trigger] ts@[j]).status != TaskStatus::Uploading,
        r matches Some(c) ==> exists|i: int| first_uploading(ts@, i) && c.0@ == ts@[i].file.name@ && c.1
            == ts@[i].file.size,
{
    let mut i: usize = 0;
    while i < ts.len()
        invariant
            i <= ts.len(),
            forall|j: int| 0 <= j < i ==> (#[trigger] ts@[j]).status != TaskStatus::Uploading,
        decreases ts.len() - i,
    {
        if ts[i].status == TaskStatus::Uploading {
            assert(first_uploading(ts@, i as int));
            return Some((ts[i].file.name.clone(), ts[i].file.size));
        }
        i += 1;
    }
    None
}

/// The average speed of a run in bytes per second: `bytes` over the
/// running time in whole seconds, counted as at least one.
pub fn average_speed(bytes: u64, elapsed_secs: i64) -> (r: u64)
    ensures
        r as int == bytes as int / (if elapsed_secs < 1 { 1int } else { elapsed_secs as int }),
{
    if elapsed_secs < 1 {
        bytes
    } else {
        bytes / (elapsed_secs as u64)
    }
}

/// The line of a progress report about the file being uploaded: its name
/// and size, or "无" when no file with a name is uploading.
pub open spec fn current_upload_line(current: Option<(String, String)>) -> Seq<char> {
    match current {
        Some(c) => if c.0@.len() > 0 {
            "\n当前上传: "@ + c.0@ + " ("@ + c.1@ + ")"@
        } else {
            "\n当前上传: 无"@
        },
        None => "\n当前上传: 无"@,
    }
}

/// The text of the periodic progress report sent at `now`: tasks processed
/// (succeeded and failed) out of those plus the remaining ones, the
/// percentage, the sizes, running time and average speed as written out by
/// the caller, and the file being uploaded.
pub open spec fn progress_text(
    now: Seq<char>,
    succeeded: nat,
    failed: nat,
    remaining: nat,
    percent: nat,
    uploaded_size: Seq<char>,
    elapsed: Seq<char>,
    average_size: Seq<char>,
    current: Option<(String, String)>,
) -> Seq<char> {
    "📤 上传进度通知\n时间: "@ + now + "\n进度: "@ + decimal(succeeded + failed) + "/"@ + decimal(
        succeeded + failed + remaining,
    ) + " ("@ + decimal(percent) + "%)\n已上传: "@ + decimal(succeeded) + " 个 ("@ + uploaded_size
        + ")\n失败: "@ + decimal(failed) + " 个\n剩余: "@ + decimal(remaining) + " 个\n已运行: "@ + elapsed
        + "\n平均速度: "@ + average_size + "/s"@ + current_upload_line(current)
}

/// The periodic progress report (see `progress_text`).
pub fn progress_message(
    now: &str,
    succeeded: u32,
    failed: u32,
    remaining: u32,
    percent: u32,
    uploaded_size: &str,
    elapsed: &str,
    average_size: &str,
    current: &Option<(String, String)>,
) -> (r: String)
    requires
        succeeded + failed + remaining <= u32::MAX,
    ensures
        r@ == progress_text(
            now@,
            succeeded as nat,
            failed as nat,
            remaining as nat,
            percent as nat,
            uploaded_size@,
            elapsed@,
            average_size@,
            *current,
        ),
{
    let processed = succeeded + failed;
    let total = processed + remaining;
    let mut m = "📤 上传进度通知\n时间: ".to_owned();
    push_str(&mut m, now);
    push_str(&mut m, "\n进度: ");
    push_decimal(&mut m, processed as u128);
    push_str(&mut m, "/");
    push_decimal(&mut m, total as u128);
    push_str(&mut m, " (");
    push_decimal(&mut m, percent as u128);
    push_str(&mut m, "%)\n已上传: ");
    push_decimal(&mut m, succeeded as u128);
    push_str(&mut m, " 个 (");
    push_str(&mut m, uploaded_size);
    push_str(&mut m, ")\n失败: ");
    push_decimal(&mut m, failed as u128);
    push_str(&mut m, " 个\n剩余: ");
    push_decimal(&mut m, remaining as u128);
    push_str(&mut m, " 个\n已运行: ");
    push_str(&mut m, elapsed);
    push_str(&mut m, "\n平均速度: ");
    push_str(&mut m, average_size);
    push_str(&mut m, "/s");
    let ghost head = m@;
    match current {
        Some(c) => {
            if chars_of(c.0.as_str()).len() > 0 {
                push_str(&mut m, "\n当前上传: ");
                push_str(&mut m, c.0.as_str());
                push_str(&mut m, " (");
                push_str(&mut m, c.1.as_str());
                push_str(&mut m, ")");
            } else {
                push_str(&mut m, "\n当前上传: 无");
            }
        },
        None => push_str(&mut m, "\n当前上传: 无"),
    }
    proof {
        let line = current_upload_line(*current);
        assert(m@ =~= head + line);
        assert(head =~= "📤 上传进度通知\n时间: "@ + now@ + "\n进度: "@ + decimal(processed as nat) + "/"@ + decimal(
            total as nat,
        ) + " ("@ + decimal(percent as nat) + "%)\n已上传: "@ + decimal(succeeded as nat) + " 个 ("@
            + uploaded_size@ + ")\n失败: "@ + decimal(failed as nat) + " 个\n剩余: "@ + decimal(remaining as nat)
            + " 个\n已运行: "@ + elapsed@ + "\n平均速度: "@ + average_size@ + "/s"@);
    }
    m
}

/// The text of a schedule notification for the event `event_type`
/// ("start" or "stop"; nothing for any other), sent at `now` for the window
/// `start_time` to `end_time`; the sizes come already written out.
pub fn schedule_message(
    event_type: &str,
    now: &str,
    start_time: &str,
    end_time: &str,
    stats: &ScheduleStats,
    pending_size: &str,
    uploaded_size: &str,
) -> (r: Option<String>)
    ensures
        event_type@ == "start"@ ==> (r matches Some(m) && m@ == "📤 定时上传开始\n时间: "@ + now@ + "\n定时时段: "@
            + start_time@ + " ~ "@ + end_time@ + "\n队列待上传: "@ + decimal(stats.pending_count as nat) + " 个 ("@
            + pending_size@ + ")"@),
        event_type@ == "stop"@ ==> (r matches Some(m) && m@ == "⏹️ 定时上传结束\n时间: "@ + now@ + "\n定时时段: "@
            + start_time@ + " ~ "@ + end_time@ + "\n本轮已上传: "@ + decimal(stats.uploaded_count as nat) + " 个 ("@
            + uploaded_size@ + ")\n本轮失败: "@ + decimal(stats.failed_count as nat) + " 个"@ + (if stats.uploading_count
            > 0 {
            "\n当前仍在上传: "@ + decimal(stats.uploading_count as nat) + " 个任务，等待完成后停止"@
        } else {
            "\n无正在上传的任务，已全部停止"@
        }) + (if stats.pending_count > 0 {
            "\n剩余未上传: "@ + decimal(stats.pending_count as nat) + " 个"@
        } else {
            Seq::empty()
        })),
        event_type@ != "start"@ && event_type@ != "stop"@ ==> r is None,
{
    proof {
        reveal_strlit("start");
        reveal_strlit("stop");
        assert("start"@.len() != "stop"@.len());
    }
    if str_eq(event_type, "start") {
        let mut m = "📤 定时上传开始\n时间: ".to_owned();
        push_str(&mut m, now);
        push_str(&mut m, "\n定时时段: ");
        push_str(&mut m, start_time);
        push_str(&mut m, " ~ ");
        push_str(&mut m, end_time);
        push_str(&mut m, "\n队列待上传: ");
        push_decimal(&mut m, stats.pending_count as u128);
        push_str(&mut m, " 个 (");
        push_str(&mut m, pending_size);
        push_str(&mut m, ")");
        Some(m)
    } else if str_eq(event_type, "stop") {
        let mut m = "⏹️ 定时上传结束\n时间: ".to_owned();
        push_str(&mut m, now);
        push_str(&mut m, "\n定时时段: ");
        push_str(&mut m, start_time);
        push_str(&mut m, " ~ ");
        push_str(&mut m, end_time);
        push_str(&mut m, "\n本轮已上传: ");
        push_decimal(&mut m, stats.uploaded_count as u128);
        push_str(&mut m, " 个 (");
        push_str(&mut m, uploaded_size);
        push_str(&mut m, ")\n本轮失败: ");
        push_decimal(&mut m, stats.failed_count as u128);
        push_str(&mut m, " 个");
        let ghost before = m@;
        if stats.uploading_count > 0 {
            push_str(&mut m, "\n当前仍在上传: ");
            push_decimal(&mut m, stats.uploading_count as u128);
            push_str(&mut m, " 个任务，等待完成后停止");
        } else {
            push_str(&mut m, "\n无正在上传的任务，已全部停止");
        }
        let ghost middle = m@;
        if stats.pending_count > 0 {
            push_str(&mut m, "\n剩余未上传: ");
            push_decimal(&mut m, stats.pending_count as u128);
            push_str(&mut m, " 个");
        }
        proof {
            let t1 = if stats.uploading_count > 0 {
                "\n当前仍在上传: "@ + decimal(stats.uploading_count as nat) + " 个任务，等待完成后停止"@
            } else {
                "\n无正在上传的任务，已全部停止"@
            };
            let t2 = if stats.pending_count > 0 {
                "\n剩余未上传: "@ + decimal(stats.pending_count as nat) + " 个"@
            } else {
                Seq::<char>::empty()
            };
            assert(middle =~= before + t1);
            assert(m@ =~= middle + t2);
            assert(m@ =~= before + t1 + t2);
            assert(before =~= "⏹️ 定时上传结束\n时间: "@ + now@ + "\n定时时段: "@
            + start_time@ + " ~ "@ + end_time@ + "\n本轮已上传: "@ + decimal(stats.uploaded_count as nat) + " 个 ("@
            + uploaded_size@ + ")\n本轮失败: "@ + decimal(stats.failed_count as nat) + " 个"@);
        }
        Some(m)
    } else {
        None
    }
}

} // verus!
