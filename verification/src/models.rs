//! The records the uploader keeps: upload tasks and their files, the
//! configuration, blocked-file records, the queue, the history, and the
//! results handed to the interface. Times are milliseconds since the Unix
//! epoch (UTC).
use vstd::prelude::*;
use crate::paths::{after_last_slash, name_after_last_slash};

verus! {

/// Where a task stands in its life cycle.
#[derive(Debug, PartialEq, Eq, Structural, Clone, Copy)]
pub enum TaskStatus {
    Pending,
    Uploading,
    Completed,
    Failed,
    Cancelled,
}

/// A local file to upload.
#[derive(Debug)]
pub struct FileInfo {
    pub path: String,
    pub name: String,
    pub size: u64,
    /// The file's path relative to the dropped folder, when it came from one.
    pub relative_path: Option<String>,
}

pub fn clone_opt_string(o: &Option<String>) -> (r: Option<String>)
    ensures
        r == *o,
{
    match o {
        Some(s) => Some(s.clone()),
        None => None,
    }
}

impl Clone for FileInfo {
    fn clone(&self) -> (r: Self)
        ensures
            r == *self,
    {
        FileInfo {
            path: self.path.clone(),
            name: self.name.clone(),
            size: self.size,
            relative_path: clone_opt_string(&self.relative_path),
        }
    }
}

/// One file's upload: its file, remote directory, state and timing.
#[derive(Debug)]
pub struct UploadTask {
    pub id: String,
    pub file: FileInfo,
    /// The remote directory the file goes to.
    pub alist_path: String,
    pub status: TaskStatus,
    /// Percent done, 0 to 100.
    pub progress: u8,
    pub retry_count: u32,
    pub error: Option<String>,
    pub start_time: Option<i64>,
    pub end_time: Option<i64>,
    /// Whole seconds from start to end.
    pub duration: Option<u64>,
    pub created_at: i64,
    pub updated_at: i64,
    /// Bytes per second while uploading.
    pub speed: u64,
    /// Marked as dealt with by the user (failed records only).
    pub resolved: bool,
    /// The server's raw reply when an upload failed.
    pub api_response: Option<String>,
}

impl Clone for UploadTask {
    fn clone(&self) -> (r: Self)
        ensures
            r == *self,
    {
        UploadTask {
            id: self.id.clone(),
            file: self.file.clone(),
            alist_path: self.alist_path.clone(),
            status: self.status,
            progress: self.progress,
            retry_count: self.retry_count,
            error: clone_opt_string(&self.error),
            start_time: self.start_time,
            end_time: self.end_time,
            duration: self.duration,
            created_at: self.created_at,
            updated_at: self.updated_at,
            speed: self.speed,
            resolved: self.resolved,
            api_response: clone_opt_string(&self.api_response),
        }
    }
}

/// The current time in milliseconds since the Unix epoch, from
/// `chrono::Utc::now().timestamp_millis()`. `Utc::now` panics on a clock set
/// before the epoch, so a returned value is never negative; nothing else is
/// claimed of it.
#[verifier::external_body]
pub(crate) fn now_millis() -> (t: i64)
    ensures
        t >= 0,
{
    chrono::Utc::now().timestamp_millis()
}

/// A fresh task identifier, from `uuid::Uuid::new_v4().to_string()`. The
/// value is random: nothing is claimed of it.
#[verifier::external_body]
pub(crate) fn new_task_id() -> (id: String) {
    uuid::Uuid::new_v4().to_string()
}

/// Whole seconds from `start` to `end`, rounded toward zero
/// (`TimeDelta::num_seconds` of `end - start`).
pub open spec fn seconds_between(start: int, end: int) -> int {
    if end >= start {
        (end - start) / 1000
    } else {
        -((start - end) / 1000)
    }
}

/// Whole seconds from `start` to `end`, as the task's duration stores them:
/// the signed count cast to `u64`.
pub fn duration_secs(start: i64, end: i64) -> (d: u64)
    ensures
        d == seconds_between(start as int, end as int) as u64,
{
    let diff: i128 = end as i128 - start as i128;
    let secs: i128 = if diff >= 0 {
        diff / 1000
    } else {
        0 - ((0 - diff) / 1000)
    };
    let s: i64 = secs as i64;
    s as u64
}

/// A task that has just been created for `file_path` and `alist_path`.
pub open spec fn is_new_task(t: UploadTask, file_path: Seq<char>, alist_path: Seq<char>, id: Seq<char>, now: i64) -> bool {
    &&& t.id@ == id
    &&& t.file.path@ == file_path
    &&& t.file.name@ == after_last_slash(file_path)
    &&& t.file.size == 0
    &&& t.file.relative_path is None
    &&& t.alist_path@ == alist_path
    &&& t.status == TaskStatus::Pending
    &&& t.progress == 0
    &&& t.retry_count == 0
    &&& t.error is None
    &&& t.start_time is None
    &&& t.end_time is None
    &&& t.duration is None
    &&& t.created_at == now
    &&& t.updated_at == now
    &&& t.speed == 0
    &&& !t.resolved
    &&& t.api_response is None
}

impl UploadTask {
    /// A pending task for `file_path`, named after the text that follows the
    /// last '/' of the path, with identifier `id`, created at `now`.
    pub fn new_with_id(file_path: String, alist_path: String, id: String, now: i64) -> (t: Self)
        ensures
            is_new_task(t, file_path@, alist_path@, id@, now),
    {
        let name = name_after_last_slash(file_path.as_str());
        UploadTask {
            id,
            file: FileInfo { path: file_path, name, size: 0, relative_path: None },
            alist_path,
            status: TaskStatus::Pending,
            progress: 0,
            retry_count: 0,
            error: None,
            start_time: None,
            end_time: None,
            duration: None,
            created_at: now,
            updated_at: now,
            speed: 0,
            resolved: false,
            api_response: None,
        }
    }

    /// A pending task for `file_path` with a fresh random identifier, created
    /// now.
    pub fn new(file_path: String, alist_path: String) -> (t: Self)
        ensures
            is_new_task(t, file_path@, alist_path@, t.id@, t.created_at),
            t.created_at >= 0,
    {
        let id = new_task_id();
        let now = now_millis();
        UploadTask::new_with_id(file_path, alist_path, id, now)
    }

    /// Sets the status, stamped at `now`.
    pub fn update_status_at(&mut self, status: TaskStatus, now: i64)
        ensures
            *final(self) == (UploadTask { status, updated_at: now, ..*old(self) }),
    {
        self.status = status;
        self.updated_at = now;
    }

    /// Sets the status, stamped with the current time.
    pub fn update_status(&mut self, status: TaskStatus)
        ensures
            final(self).updated_at >= 0,
            *final(self) == (UploadTask { status, updated_at: final(self).updated_at, ..*old(self) }),
    {
        let now = now_millis();
        self.update_status_at(status, now);
    }

    /// Starts the upload at `now`: clears the error and the speed.
    pub fn mark_uploading_at(&mut self, now: i64)
        ensures
            *final(self) == (UploadTask {
                status: TaskStatus::Uploading,
                start_time: Some(now),
                updated_at: now,
                error: None,
                speed: 0,
                ..*old(self)
            }),
    {
        self.status = TaskStatus::Uploading;
        self.start_time = Some(now);
        self.updated_at = now;
        self.error = None;
        self.speed = 0;
    }

    /// Starts the upload now.
    pub fn mark_uploading(&mut self)
        ensures
            final(self).updated_at >= 0,
            ({ let now = final(self).updated_at; *final(self) == (UploadTask {
                    status: TaskStatus::Uploading,
                    start_time: Some(now),
                    updated_at: now,
                    error: None,
                    speed: 0,
                    ..*old(self)
                }) }),
    {
        let now = now_millis();
        self.mark_uploading_at(now);
    }

    /// Finishes the upload at `now`: 100 percent, no speed, and the duration
    /// from the start when there was one.
    pub fn mark_completed_at(&mut self, now: i64)
        ensures
            *final(self) == (UploadTask {
                status: TaskStatus::Completed,
                end_time: Some(now),
                progress: 100,
                updated_at: now,
                speed: 0,
                duration: match old(self).start_time {
                    Some(s) => Some(seconds_between(s as int, now as int) as u64),
                    None => old(self).duration,
                },
                ..*old(self)
            }),
    {
        self.status = TaskStatus::Completed;
        self.end_time = Some(now);
        self.progress = 100;
        self.updated_at = now;
        self.speed = 0;
        if let Some(start) = self.start_time {
            self.duration = Some(duration_secs(start, now));
        }
    }

    /// Finishes the upload now.
    pub fn mark_completed(&mut self)
        ensures
            final(self).updated_at >= 0,
            ({ let now = final(self).updated_at; *final(self) == (UploadTask {
                    status: TaskStatus::Completed,
                    end_time: Some(now),
                    progress: 100,
                    updated_at: now,
                    speed: 0,
                    duration: match old(self).start_time {
                        Some(s) => Some(seconds_between(s as int, now as int) as u64),
                        None => old(self).duration,
                    },
                    ..*old(self)
                }) }),
    {
        let now = now_millis();
        self.mark_completed_at(now);
    }

    /// Fails the upload at `now` with `error`: no speed, and the duration from
    /// the start when there was one.
    pub fn mark_failed_at(&mut self, error: String, now: i64)
        ensures
            *final(self) == (UploadTask {
                status: TaskStatus::Failed,
                end_time: Some(now),
                error: Some(error),
                updated_at: now,
                speed: 0,
                duration: match old(self).start_time {
                    Some(s) => Some(seconds_between(s as int, now as int) as u64),
                    None => old(self).duration,
                },
                ..*old(self)
            }),
    {
        self.status = TaskStatus::Failed;
        self.end_time = Some(now);
        self.error = Some(error);
        self.updated_at = now;
        self.speed = 0;
        if let Some(start) = self.start_time {
            self.duration = Some(duration_secs(start, now));
        }
    }

    /// Fails the upload now with `error`.
    pub fn mark_failed(&mut self, error: String)
        ensures
            final(self).updated_at >= 0,
            ({ let now = final(self).updated_at; *final(self) == (UploadTask {
                    status: TaskStatus::Failed,
                    end_time: Some(now),
                    error: Some(error),
                    updated_at: now,
                    speed: 0,
                    duration: match old(self).start_time {
                        Some(s) => Some(seconds_between(s as int, now as int) as u64),
                        None => old(self).duration,
                    },
                    ..*old(self)
                }) }),
    {
        let now = now_millis();
        self.mark_failed_at(error, now);
    }

    /// Puts the task back in the queue at `now`, counting one more retry.
    pub fn increment_retry_at(&mut self, now: i64)
        requires
            old(self).retry_count < u32::MAX,
        ensures
            *final(self) == (UploadTask {
                retry_count: (old(self).retry_count + 1) as u32,
                status: TaskStatus::Pending,
                updated_at: now,
                ..*old(self)
            }),
    {
        self.retry_count = self.retry_count + 1;
        self.status = TaskStatus::Pending;
        self.updated_at = now;
    }

    /// Puts the task back in the queue now, counting one more retry.
    pub fn increment_retry(&mut self)
        requires
            old(self).retry_count < u32::MAX,
        ensures
            final(self).updated_at >= 0,
            ({ let now = final(self).updated_at; *final(self) == (UploadTask {
                    retry_count: (old(self).retry_count + 1) as u32,
                    status: TaskStatus::Pending,
                    updated_at: now,
                    ..*old(self)
                }) }),
    {
        let now = now_millis();
        self.increment_retry_at(now);
    }
}

/// What adding a path to the queue produced.
#[derive(Debug)]
pub struct AddToQueueResult {
    pub tasks: Vec<UploadTask>,
    pub warnings: Vec<String>,
}


/// Connection settings of the OpenList server.
#[derive(Debug, Clone)]
pub struct AlistConfig {
    pub base_url: String,
    pub token: String,
    pub username: String,
    pub password: String,
    pub auto_login: bool,
    /// Server executable started with the uploader, when set.
    pub exe_path: String,
    pub kill_on_exit: bool,
    pub run_in_background: bool,
    pub use_system_proxy: bool,
}

impl Default for AlistConfig {
    fn default() -> (r: Self)
        ensures
            r.base_url@ == "http://127.0.0.1:5244"@,
            r.token@.len() == 0,
            r.username@.len() == 0,
            r.password@.len() == 0,
            r.auto_login,
            r.exe_path@.len() == 0,
            r.kill_on_exit,
            r.run_in_background,
            !r.use_system_proxy,
    {
        AlistConfig {
            base_url: "http://127.0.0.1:5244".to_owned(),
            token: String::new(),
            username: String::new(),
            password: String::new(),
            auto_login: true,
            exe_path: String::new(),
            kill_on_exit: true,
            run_in_background: true,
            use_system_proxy: false,
        }
    }
}

/// The value a missing `auto_login` setting takes.
pub fn default_auto_login() -> (b: bool)
    ensures
        b,
{
    true
}

/// What to do when the remote file exists: "ask", "overwrite", "skip" or "rename".
#[derive(Debug, Clone)]
pub struct FileExistsStrategy {
    pub value: String,
}

impl Default for FileExistsStrategy {
    fn default() -> (r: Self)
        ensures
            r.value@ == "ask"@,
    {
        FileExistsStrategy { value: "ask".to_owned() }
    }
}

/// A daily upload window, "HH:MM" to "HH:MM".
#[derive(Debug, Clone)]
pub struct ScheduledUpload {
    pub enabled: bool,
    pub start_time: String,
    pub end_time: String,
    pub notify_on_start: bool,
    pub notify_on_stop: bool,
}

impl Default for ScheduledUpload {
    fn default() -> (r: Self)
        ensures
            !r.enabled,
            r.start_time@ == "03:00"@,
            r.end_time@ == "07:00"@,
            !r.notify_on_start,
            !r.notify_on_stop,
    {
        ScheduledUpload {
            enabled: false,
            start_time: "03:00".to_owned(),
            end_time: "07:00".to_owned(),
            notify_on_start: false,
            notify_on_stop: false,
        }
    }
}

/// Upload behaviour.
#[derive(Debug, Clone)]
pub struct UploadConfig {
    pub concurrency: u8,
    pub max_retries: u32,
    /// Bytes per second, 0 for no limit.
    pub speed_limit: u64,
    pub as_task: bool,
    pub upload_method: String,
    pub last_alist_path: String,
    pub block_files_over_5gb: bool,
    pub warn_files_over_4gb: bool,
    pub file_exists_strategy: FileExistsStrategy,
    /// "stop" (default) stops the queue after a failure, "skip" goes on.
    pub fail_action: String,
    pub show_progress: bool,
    /// Refuse the same file queued for another directory too.
    pub block_duplicate_file_upload: bool,
    pub notify_on_complete: bool,
    pub notify_feishu_on_queue_complete: bool,
    pub shutdown_after_complete: bool,
    pub shutdown_delay_minutes: u32,
    pub minimize_on_close: bool,
    /// Tasks per run, 0 for no limit.
    pub max_tasks_per_run: u32,
    pub check_update_on_startup: bool,
    pub auto_start_on_boot: bool,
    pub progress_notify_enabled: bool,
    /// Minutes between progress notifications.
    pub progress_notify_interval: u32,
    pub refresh_index_after_upload: bool,
    pub rar_path: String,
    /// Volume size of a split archive, in MB.
    pub split_volume_mb: u64,
    pub schedule: Option<ScheduledUpload>,
    pub notification: Option<NotificationConfig>,
}

/// The value a missing `progress_notify_interval` setting takes.
pub fn default_progress_notify_interval() -> (n: u32)
    ensures
        n == 30,
{
    30
}

/// The value a missing `rar_path` setting takes.
pub fn default_rar_path() -> (s: String)
    ensures
        s@ == "C:\\Program Files\\WinRAR\\rar.exe"@,
{
    "C:\\Program Files\\WinRAR\\rar.exe".to_owned()
}

/// The value a missing `split_volume_mb` setting takes.
pub fn default_volume_mb() -> (n: u64)
    ensures
        n == 2000,
{
    2000
}

/// The value a missing `upload_method` setting takes.
pub fn default_upload_method() -> (s: String)
    ensures
        s@ == "stream"@,
{
    "stream".to_owned()
}

/// The value a missing `shutdown_delay_minutes` setting takes.
pub fn default_shutdown_delay_minutes() -> (n: u32)
    ensures
        n == 10,
{
    10
}

/// The value a missing `last_alist_path` setting takes.
pub fn default_alist_path() -> (s: String)
    ensures
        s@ == "/"@,
{
    "/".to_owned()
}

/// The value a missing switch that defaults to on takes.
pub fn default_true() -> (b: bool)
    ensures
        b,
{
    true
}

/// The value a missing `fail_action` setting takes.
pub fn default_fail_action() -> (s: String)
    ensures
        s@ == "stop"@,
{
    "stop".to_owned()
}

impl Default for UploadConfig {
    fn default() -> (r: Self)
        ensures
            r.concurrency == 1,
            r.max_retries == 5,
            r.speed_limit == 0,
            r.as_task,
            r.upload_method@ == "stream"@,
            r.last_alist_path@ == "/"@,
            r.block_files_over_5gb,
            r.warn_files_over_4gb,
            r.file_exists_strategy.value@ == "ask"@,
            r.fail_action@ == "stop"@,
            !r.show_progress,
            r.block_duplicate_file_upload,
            !r.notify_on_complete,
            !r.notify_feishu_on_queue_complete,
            !r.shutdown_after_complete,
            r.shutdown_delay_minutes == 10,
            r.minimize_on_close,
            r.max_tasks_per_run == 0,
            r.check_update_on_startup,
            !r.auto_start_on_boot,
            !r.progress_notify_enabled,
            r.progress_notify_interval == 30,
            r.refresh_index_after_upload,
            r.rar_path@ == "C:\\Program Files\\WinRAR\\rar.exe"@,
            r.split_volume_mb == 2000,
            r.schedule matches Some(s) && !s.enabled && s.start_time@ == "03:00"@
                && s.end_time@ == "07:00"@ && !s.notify_on_start && !s.notify_on_stop,
            r.notification is None,
    {
        UploadConfig {
            concurrency: 1,
            max_retries: 5,
            speed_limit: 0,
            as_task: true,
            upload_method: "stream".to_owned(),
            last_alist_path: "/".to_owned(),
            block_files_over_5gb: true,
            warn_files_over_4gb: true,
            file_exists_strategy: FileExistsStrategy::default(),
            fail_action: "stop".to_owned(),
            show_progress: false,
            block_duplicate_file_upload: true,
            notify_on_complete: false,
            notify_feishu_on_queue_complete: false,
            shutdown_after_complete: false,
            shutdown_delay_minutes: 10,
            minimize_on_close: true,
            max_tasks_per_run: 0,
            check_update_on_startup: true,
            auto_start_on_boot: false,
            progress_notify_enabled: false,
            progress_notify_interval: 30,
            refresh_index_after_upload: true,
            rar_path: default_rar_path(),
            split_volume_mb: default_volume_mb(),
            schedule: Some(ScheduledUpload::default()),
            notification: None,
        }
    }
}

/// Webhook notifications ("feishu" is the channel that is sent).
#[derive(Debug, Clone)]
pub struct NotificationConfig {
    pub enabled: bool,
    pub webhook_url: String,
    pub channels: Vec<String>,
}

impl Default for NotificationConfig {
    fn default() -> (r: Self)
        ensures
            !r.enabled,
            r.webhook_url@.len() == 0,
            r.channels.len() == 1,
            r.channels[0]@ == "feishu"@,
    {
        let mut channels: Vec<String> = Vec::new();
        channels.push("feishu".to_owned());
        NotificationConfig { enabled: false, webhook_url: String::new(), channels }
    }
}

/// A file that was refused when it was added to the queue.
#[derive(Debug)]
pub struct BlockedFileRecord {
    pub file_path: String,
    pub file_name: String,
    pub file_size: u64,
    pub reason: String,
    pub blocked_at: i64,
    /// The remote directory chosen when the file was refused.
    pub target_path: String,
    /// Marked as dealt with by the user.
    pub resolved: bool,
}

/// The stored list of refused files.
#[derive(Debug)]
pub struct BlockedFileData {
    pub records: Vec<BlockedFileRecord>,
}

impl Default for BlockedFileData {
    fn default() -> (r: Self)
        ensures
            r.records.len() == 0,
    {
        BlockedFileData { records: Vec::new() }
    }
}

/// How long the history is kept.
#[derive(Debug, Clone)]
pub struct HistoryConfig {
    pub retention_days: u32,
    /// Keep the history for ever.
    pub never_clean: bool,
}

/// The value a missing `retention_days` setting takes.
pub fn default_history_retention_days() -> (n: u32)
    ensures
        n == 30,
{
    30
}

impl Default for HistoryConfig {
    fn default() -> (r: Self)
        ensures
            r.retention_days == 30,
            r.never_clean,
    {
        HistoryConfig { retention_days: 30, never_clean: true }
    }
}

/// Uploading the uploader's own logs to a second OpenList server.
#[derive(Debug, Clone)]
pub struct LogSyncConfig {
    pub enabled: bool,
    pub base_url: String,
    pub username: String,
    pub password: String,
    pub token: String,
    pub target_path: String,
    pub sync_on_exit: bool,
    /// Minutes between synchronisations, 0 for none.
    pub sync_interval_minutes: u32,
    pub use_system_proxy: bool,
    /// When the last synchronisation succeeded (RFC 3339).
    pub last_sync_at: Option<String>,
}

/// The value a missing `sync_interval_minutes` setting takes.
pub fn default_log_sync_interval() -> (n: u32)
    ensures
        n == 30,
{
    30
}

/// The value a missing `target_path` setting takes.
pub fn default_log_sync_target_path() -> (s: String)
    ensures
        s@ == "/本地磁盘/openlist-uploader-logs"@,
{
    "/本地磁盘/openlist-uploader-logs".to_owned()
}

impl Default for LogSyncConfig {
    fn default() -> (r: Self)
        ensures
            !r.enabled,
            r.base_url@.len() == 0,
            r.username@.len() == 0,
            r.password@.len() == 0,
            r.token@.len() == 0,
            r.target_path@ == "/本地磁盘/openlist-uploader-logs"@,
            r.sync_on_exit,
            r.sync_interval_minutes == 30,
            !r.use_system_proxy,
            r.last_sync_at is None,
    {
        LogSyncConfig {
            enabled: false,
            base_url: String::new(),
            username: String::new(),
            password: String::new(),
            token: String::new(),
            target_path: default_log_sync_target_path(),
            sync_on_exit: true,
            sync_interval_minutes: default_log_sync_interval(),
            use_system_proxy: false,
            last_sync_at: None,
        }
    }
}

/// A local log file offered for synchronisation.
#[derive(Debug)]
pub struct LocalLogFileInfo {
    pub name: String,
    pub size: u64,
    pub modified: Option<String>,
}

/// The outcome of a log synchronisation.
#[derive(Debug)]
pub struct LogSyncResult {
    pub total: usize,
    pub success: usize,
    pub failed: usize,
    pub details: Vec<String>,
    pub last_sync_at: Option<String>,
}

/// One page of the history.
#[derive(Debug)]
pub struct HistoryPage {
    pub tasks: Vec<UploadTask>,
    pub total: usize,
    pub page: usize,
    pub page_size: usize,
    pub total_pages: usize,
}

/// All settings.
#[derive(Debug, Clone)]
pub struct AppConfig {
    pub alist: AlistConfig,
    pub upload: UploadConfig,
    pub history: HistoryConfig,
    pub log_sync: LogSyncConfig,
}

impl Default for AppConfig {
    fn default() -> (r: Self)
        ensures
            r.alist.base_url@ == "http://127.0.0.1:5244"@,
            r.upload.concurrency == 1,
            r.upload.max_retries == 5,
            r.history.retention_days == 30,
            r.history.never_clean,
            !r.log_sync.enabled,
    {
        AppConfig {
            alist: AlistConfig::default(),
            upload: UploadConfig::default(),
            history: HistoryConfig::default(),
            log_sync: LogSyncConfig::default(),
        }
    }
}

/// The stored upload queue.
#[derive(Debug)]
pub struct QueueData {
    pub tasks: Vec<UploadTask>,
    pub version: u32,
}

impl Default for QueueData {
    fn default() -> (r: Self)
        ensures
            r.tasks.len() == 0,
            r.version == 1,
    {
        QueueData { tasks: Vec::new(), version: 1 }
    }
}

/// The stored upload history, newest first.
#[derive(Debug)]
pub struct HistoryData {
    pub records: Vec<UploadTask>,
    pub version: u32,
}

impl Default for HistoryData {
    fn default() -> (r: Self)
        ensures
            r.records.len() == 0,
            r.version == 1,
    {
        HistoryData { records: Vec::new(), version: 1 }
    }
}

} // verus!
