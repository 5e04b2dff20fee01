//! Adding a dropped file or folder to the upload queue: the request check,
//! the name-length and large-file rules, duplicate detection, and the
//! records of refused files.
use vstd::prelude::*;
use crate::models::{
    clone_opt_string, AddToQueueResult, BlockedFileRecord, FileInfo, QueueData, TaskStatus,
    UploadConfig, UploadTask,
};
use crate::paths::{
    build_target_dir, check_name_bytes_limit, first_long_segment, folder_target,
    folder_target_root, has_long_segment, is_root_alist_path, normalize_alist_path,
    normalized_alist_path, target_dir, trim_end_slash, trim_white, utf8_byte_count, utf8_len,
};
use crate::text::{chars_eq, chars_of, decimal, push_decimal, push_str, strip_leading, strip_trailing, strips, Strip};

verus! {

/// 4 GiB: larger files get a warning.
pub const FOUR_GB: u64 = 4 * 1024 * 1024 * 1024;

/// 5 GiB: larger files are refused (the drive's limit for free accounts).
pub const FIVE_GB: u64 = 5 * 1024 * 1024 * 1024;

/// The refusal of the remote root as an upload target.
pub open spec fn root_rejection_message() -> Seq<char> {
    "请选择 Alist 中的具体目录后再添加文件，根目录 / 仅用于浏览存储入口"@
}

/// The warning when the file is already queued.
pub open spec fn already_queued_warning() -> Seq<char> {
    "文件已在队列中，已跳过"@
}

/// The refusal of a file name longer than the drive accepts.
pub open spec fn name_too_long_message(over: Seq<char>) -> Seq<char> {
    "文件名过长，115Crypt 限制 175 字节，当前 "@ + decimal(utf8_len(over)) + " 字节: "@ + over
}

/// The refusal of a target directory name longer than the drive accepts.
pub open spec fn dir_name_too_long_message(over: Seq<char>) -> Seq<char> {
    "目标目录名过长，115Crypt 限制 175 字节，当前 "@ + decimal(utf8_len(over)) + " 字节: "@ + over
}

/// The refusal of a file over 5 GiB.
pub open spec fn over_5gb_message(name: Seq<char>) -> Seq<char> {
    "115 网盘非会员单个文件最大支持 5GB，"@ + name + " 超过限制，已阻止加入上传队列。"@
}

/// The warning for a file over 4 GiB.
pub open spec fn over_4gb_warning(name: Seq<char>) -> Seq<char> {
    name + " 超过 4GB。大文件上传耗时较长，若 1 小时内未完成可能因 Token 过期导致失败。建议在上传带宽较好时上传，或先压缩/分卷处理。"@
}

fn length_message(dir: bool, over: &String) -> (m: String)
    ensures
        dir ==> m@ == dir_name_too_long_message(over@),
        !dir ==> m@ == name_too_long_message(over@),
{
    let v = chars_of(over.as_str());
    let n = utf8_byte_count(&v);
    let mut m = if dir {
        "目标目录名过长，115Crypt 限制 175 字节，当前 ".to_owned()
    } else {
        "文件名过长，115Crypt 限制 175 字节，当前 ".to_owned()
    };
    push_decimal(&mut m, n);
    push_str(&mut m, " 字节: ");
    push_str(&mut m, over.as_str());
    m
}

/// The large-file rule: refused over 5 GiB when that is blocked, else
/// warned over 4 GiB when that is warned, else accepted.
pub fn validate_large_file(config: &UploadConfig, file_name: &str, size: u64) -> (r: Result<Option<String>, String>)
    ensures
        config.block_files_over_5gb && size > FIVE_GB ==> (r matches Err(e) && e@ == over_5gb_message(file_name@)),
        !(config.block_files_over_5gb && size > FIVE_GB) && config.warn_files_over_4gb && size > FOUR_GB
            ==> (r matches Ok(Some(w)) && w@ == over_4gb_warning(file_name@)),
        !(config.block_files_over_5gb && size > FIVE_GB) && !(config.warn_files_over_4gb && size > FOUR_GB)
            ==> r matches Ok(None),
{
    if config.block_files_over_5gb && size > FIVE_GB {
        let mut e = "115 网盘非会员单个文件最大支持 5GB，".to_owned();
        push_str(&mut e, file_name);
        push_str(&mut e, " 超过限制，已阻止加入上传队列。");
        return Err(e);
    }
    if config.warn_files_over_4gb && size > FOUR_GB {
        let mut w = file_name.to_owned();
        push_str(&mut w, " 超过 4GB。大文件上传耗时较长，若 1 小时内未完成可能因 Token 过期导致失败。建议在上传带宽较好时上传，或先压缩/分卷处理。");
        return Ok(Some(w));
    }
    Ok(None)
}

/// `r` records a refusal of the file at `path` named `name`.
pub open spec fn is_blocked_record(
    r: BlockedFileRecord,
    path: Seq<char>,
    name: Seq<char>,
    size: u64,
    reason: Seq<char>,
    target: Seq<char>,
    now: i64,
) -> bool {
    &&& r.file_path@ == path
    &&& r.file_name@ == name
    &&& r.file_size == size
    &&& r.reason@ == reason
    &&& r.blocked_at == now
    &&& r.target_path@ == target
    &&& !r.resolved
}

fn blocked_record(path: &str, name: &str, size: u64, reason: &String, target: &str, now: i64) -> (r: BlockedFileRecord)
    ensures
        is_blocked_record(r, path@, name@, size, reason@, target@, now),
{
    BlockedFileRecord {
        file_path: path.to_owned(),
        file_name: name.to_owned(),
        file_size: size,
        reason: reason.clone(),
        blocked_at: now,
        target_path: target.to_owned(),
        resolved: false,
    }
}

/// `t` is a pending task that uploads the file at `path` to `target` again:
/// the same file and directory, or, when duplicates are blocked, the same
/// file anywhere.
pub open spec fn is_queued_duplicate(t: UploadTask, path: Seq<char>, target: Seq<char>, block_dup: bool) -> bool {
    &&& t.status == TaskStatus::Pending
    &&& t.file.path@ == path
    &&& (t.alist_path@ == target || block_dup)
}

/// Some task of `tasks` is a queued duplicate (see `is_queued_duplicate`).
pub open spec fn has_queued_duplicate(tasks: Seq<UploadTask>, path: Seq<char>, target: Seq<char>, block_dup: bool) -> bool {
    exists|j: int| 0 <= j < tasks.len() && is_queued_duplicate(#[trigger] tasks[j], path, target, block_dup)
}

fn find_queued_duplicate(tasks: &Vec<UploadTask>, path: &Vec<char>, target: &Vec<char>, block_dup: bool) -> (b: bool)
    ensures
        b == has_queued_duplicate(tasks@, path@, target@, block_dup),
{
    let mut j: usize = 0;
    while j < tasks.len()
        invariant
            j <= tasks.len(),
            forall|k: int| 0 <= k < j ==> !is_queued_duplicate(#[trigger] tasks@[k], path@, target@, block_dup),
        decreases tasks.len() - j,
    {
        let t = &tasks[j];
        if t.status == TaskStatus::Pending {
            let p = chars_of(t.file.path.as_str());
            if chars_eq(&p, path) {
                let a = chars_of(t.alist_path.as_str());
                if chars_eq(&a, target) || block_dup {
                    return true;
                }
            }
        }
        j += 1;
    }
    false
}

/// What the first look at an add request decided.
pub enum AddCheck {
    /// Refused with this message.
    Rejected(String),
    /// Skipped: the file is already queued.
    AlreadyQueued(AddToQueueResult),
    /// Go on with this normalised target directory.
    Proceed(String),
}

/// The target `alist_path` comes to the remote root: its normal form names
/// the root when it is normalised once more. This holds of an empty target
/// and of one made only of '/' (see `lemma_all_slash_target_is_root`).
pub open spec fn root_target(alist_path: Seq<char>) -> bool {
    normalized_alist_path(normalized_alist_path(alist_path)) == seq!['/']
}

/// A target that is empty or made only of '/' once trimmed is the root.
pub proof fn lemma_all_slash_target_is_root(alist_path: Seq<char>)
    requires
        forall|i: int| 0 <= i < trim_white(alist_path).len() ==> #[trigger] trim_white(alist_path)[i] == '/',
    ensures
        root_target(alist_path),
{
    let t = trim_white(alist_path);
    if t.len() == 0 || t == seq!['/'] {
        assert(normalized_alist_path(alist_path) == seq!['/']);
        lemma_root_is_normal();
    } else {
        assert(t[0] == '/');
        lemma_trim_end_slash_all(t);
        assert(normalized_alist_path(alist_path).len() == 0);
        lemma_empty_is_root();
    }
}

/// The root normalises to itself.
proof fn lemma_root_is_normal()
    ensures
        normalized_alist_path(seq!['/']) == seq!['/'],
{
    let s = seq!['/'];
    let ws = strips(Strip::WhiteSpace);
    assert(!ws(s[0]));
    assert(strip_leading(s, ws) == s);
    assert(!ws(s.last()));
    assert(strip_trailing(s, ws) == s);
    assert(trim_white(s) == s);
}

/// The empty target normalises to the root.
proof fn lemma_empty_is_root()
    ensures
        normalized_alist_path(Seq::<char>::empty()) == seq!['/'],
{
    let e = Seq::<char>::empty();
    assert(trim_white(e) == e);
}

/// A text made only of '/' loses all of it to `trim_end_slash`.
proof fn lemma_trim_end_slash_all(t: Seq<char>)
    requires
        forall|i: int| 0 <= i < t.len() ==> #[trigger] t[i] == '/',
    ensures
        trim_end_slash(t).len() == 0,
    decreases t.len(),
{
    if t.len() > 0 {
        assert(t.last() == '/');
        let d = t.drop_last();
        assert forall|i: int| 0 <= i < d.len() implies #[trigger] d[i] == '/' by {
            assert(d[i] == t[i]);
        }
        lemma_trim_end_slash_all(d);
    }
}

/// The checks that come before the local file is read: a target that comes
/// to the root (see `root_target`) is refused, and a file that is already
/// queued (see `is_queued_duplicate`) is skipped with a warning.
pub fn check_add_request(queue: &QueueData, config: &UploadConfig, file_path: &str, alist_path: &str) -> (r: AddCheck)
    ensures
        root_target(alist_path@) ==> (r matches AddCheck::Rejected(e) && e@ == root_rejection_message()),
        !root_target(alist_path@) && has_queued_duplicate(
            queue.tasks@,
            file_path@,
            normalized_alist_path(alist_path@),
            config.block_duplicate_file_upload,
        ) ==> (r matches AddCheck::AlreadyQueued(res) && res.tasks.len() == 0
            && res.warnings.len() == 1 && res.warnings[0]@ == already_queued_warning()),
        !root_target(alist_path@) && !has_queued_duplicate(
            queue.tasks@,
            file_path@,
            normalized_alist_path(alist_path@),
            config.block_duplicate_file_upload,
        ) ==> (r matches AddCheck::Proceed(t) && t@ == normalized_alist_path(alist_path@)),
{
    let target_root = normalize_alist_path(alist_path);
    if is_root_alist_path(target_root.as_str()) {
        return AddCheck::Rejected("请选择 Alist 中的具体目录后再添加文件，根目录 / 仅用于浏览存储入口".to_owned());
    }
    let p = chars_of(file_path);
    let t = chars_of(target_root.as_str());
    if find_queued_duplicate(&queue.tasks, &p, &t, config.block_duplicate_file_upload) {
        let mut warnings: Vec<String> = Vec::new();
        warnings.push("文件已在队列中，已跳过".to_owned());
        return AddCheck::AlreadyQueued(AddToQueueResult { tasks: Vec::new(), warnings });
    }
    AddCheck::Proceed(target_root)
}

/// `t` is the task that queues `file` for `target`, with identifier `id`,
/// created at `now`.
pub open spec fn is_file_task(t: UploadTask, file: FileInfo, target: Seq<char>, id: Seq<char>, now: i64) -> bool {
    &&& t.id@ == id
    &&& t.file.path@ == file.path@
    &&& t.file.name@ == file.name@
    &&& t.file.size == file.size
    &&& t.file.relative_path == file.relative_path
    &&& t.alist_path@ == target
    &&& t.status == TaskStatus::Pending
    &&& t.progress == 0
    &&& t.retry_count == 0
    &&& t.error is None
    &&& t.start_time is None
    &&& t.end_time is None
    &&& t.duration is None
    &&& t.created_at == now
    &&& t.updated_at == now
    &&& t.speed == 0
    &&& !t.resolved
    &&& t.api_response is None
}

fn file_task(file: &FileInfo, target: String, id: String, now: i64) -> (t: UploadTask)
    ensures
        is_file_task(t, *file, target@, id@, now),
{
    UploadTask {
        id,
        file: file.clone(),
        alist_path: target,
        status: TaskStatus::Pending,
        progress: 0,
        retry_count: 0,
        error: None,
        start_time: None,
        end_time: None,
        duration: None,
        created_at: now,
        updated_at: now,
        speed: 0,
        resolved: false,
        api_response: None,
    }
}

/// What adding one path did: the result for the interface, and the
/// refusals to record.
pub struct AddOutcome {
    pub result: Result<AddToQueueResult, String>,
    pub blocked: Vec<BlockedFileRecord>,
}

/// Adds the single file at `file_path` (of `size` bytes, named `name`) to
/// `target_root`, which `check_add_request` let through. A name longer than
/// the drive accepts is refused with an error; a file over the large-file
/// limit is refused with a warning; a file already pending for that
/// directory is skipped; otherwise a task with identifier `id` created at
/// `now` joins the end of the queue.
pub fn add_file_to_queue(
    queue: &mut QueueData,
    config: &UploadConfig,
    file_path: &str,
    target_root: &str,
    size: u64,
    name: &str,
    id: String,
    now: i64,
) -> (out: AddOutcome)
    ensures
        final(queue).version == old(queue).version,
        has_long_segment(name@) ==> {
            &&& (out.result matches Err(e) && e@ == name_too_long_message(first_long_segment(name@)))
            &&& out.blocked.len() == 1
            &&& is_blocked_record(out.blocked[0], file_path@, name@, size,
                name_too_long_message(first_long_segment(name@)), target_root@, now)
            &&& final(queue).tasks@ == old(queue).tasks@
        },
        !has_long_segment(name@) && config.block_files_over_5gb && size > FIVE_GB ==> {
            &&& (out.result matches Ok(res) && res.tasks.len() == 0 && res.warnings.len() == 1
                && res.warnings[0]@ == over_5gb_message(name@))
            &&& out.blocked.len() == 1
            &&& is_blocked_record(out.blocked[0], file_path@, name@, size, over_5gb_message(name@), target_root@, now)
            &&& final(queue).tasks@ == old(queue).tasks@
        },
        !has_long_segment(name@) && !(config.block_files_over_5gb && size > FIVE_GB) ==> {
            let warned = config.warn_files_over_4gb && size > FOUR_GB;
            let dup = has_queued_duplicate(old(queue).tasks@, file_path@, target_root@, false);
            &&& out.blocked.len() == 0
            &&& (out.result matches Ok(res) && (if warned {
                res.warnings.len() == 1 && res.warnings[0]@ == over_4gb_warning(name@)
            } else {
                res.warnings.len() == 0
            }) && (if dup {
                res.tasks.len() == 0 && final(queue).tasks@ == old(queue).tasks@
            } else {
                res.tasks.len() == 1 && final(queue).tasks@ == old(queue).tasks@.push(res.tasks[0])
                    && is_file_task(res.tasks[0], FileInfo { path: res.tasks[0].file.path, name: res.tasks[0].file.name, size, relative_path: None }, target_root@, id@, now)
                    && res.tasks[0].file.path@ == file_path@ && res.tasks[0].file.name@ == name@
            }))
        },
{
    let mut blocked: Vec<BlockedFileRecord> = Vec::new();
    let mut warnings: Vec<String> = Vec::new();
    match check_name_bytes_limit(name) {
        Some(over) => {
            let msg = length_message(false, &over);
            blocked.push(blocked_record(file_path, name, size, &msg, target_root, now));
            return AddOutcome { result: Err(msg), blocked };
        },
        None => {},
    }
    match validate_large_file(config, name, size) {
        Ok(Some(w)) => {
            warnings.push(w);
        },
        Ok(None) => {},
        Err(m) => {
            blocked.push(blocked_record(file_path, name, size, &m, target_root, now));
            warnings.push(m);
            return AddOutcome { result: Ok(AddToQueueResult { tasks: Vec::new(), warnings }), blocked };
        },
    }
    let file = FileInfo { path: file_path.to_owned(), name: name.to_owned(), size, relative_path: None };
    let task = file_task(&file, target_root.to_owned(), id, now);
    let p = chars_of(file_path);
    let t = chars_of(target_root);
    if find_queued_duplicate(&queue.tasks, &p, &t, false) {
        return AddOutcome { result: Ok(AddToQueueResult { tasks: Vec::new(), warnings }), blocked };
    }
    queue.tasks.push(task.clone());
    let mut tasks: Vec<UploadTask> = Vec::new();
    tasks.push(task);
    AddOutcome { result: Ok(AddToQueueResult { tasks, warnings }), blocked }
}


// ---------------------------------------------------------------------------
// Folders
// ---------------------------------------------------------------------------

/// Why a file of a dropped folder is refused, if it is: a name longer than
/// the drive accepts, or a file over the large-file limit.
pub open spec fn file_refusal(f: FileInfo, config: UploadConfig) -> Option<Seq<char>> {
    if has_long_segment(f.name@) {
        Some(name_too_long_message(first_long_segment(f.name@)))
    } else if config.block_files_over_5gb && f.size > FIVE_GB {
        Some(over_5gb_message(f.name@))
    } else {
        None
    }
}

/// The warning for an accepted file over 4 GiB, if it is warned about.
pub open spec fn file_warning(f: FileInfo, config: UploadConfig) -> Option<Seq<char>> {
    if file_refusal(f, config) is None && config.warn_files_over_4gb && f.size > FOUR_GB {
        Some(over_4gb_warning(f.name@))
    } else {
        None
    }
}

/// The remote directory of a folder's file: below `ft` at its relative
/// location, or `ft` itself.
pub open spec fn file_target(f: FileInfo, ft: Seq<char>) -> Seq<char> {
    match f.relative_path {
        Some(rp) => target_dir(ft, rp@),
        None => normalized_alist_path(ft),
    }
}

/// For each of the first `n` files of the folder, whether it joins the
/// queue: it is not refused, and no pending task in the queue (one queued
/// earlier in this run included) already uploads it to the same directory.
pub open spec fn enqueued_flags(
    old_q: Seq<UploadTask>,
    files: Seq<FileInfo>,
    config: UploadConfig,
    ft: Seq<char>,
    n: nat,
) -> Seq<bool>
    decreases n,
{
    if n == 0 {
        Seq::empty()
    } else {
        let prev = enqueued_flags(old_q, files, config, ft, (n - 1) as nat);
        let k = n - 1;
        let f = files[k];
        let tgt = file_target(f, ft);
        let bd = config.block_duplicate_file_upload;
        let dup_old = has_queued_duplicate(old_q, f.path@, tgt, bd);
        let dup_new = exists|m: int|
            0 <= m < k && #[trigger] prev[m] && files[m].path@ == f.path@ && (file_target(files[m], ft)
                == tgt || bd);
        prev.push(file_refusal(f, config) is None && !dup_old && !dup_new)
    }
}

/// The number of `true` in `s`.
pub open spec fn count_true(s: Seq<bool>) -> nat
    decreases s.len(),
{
    if s.len() == 0 {
        0
    } else {
        count_true(s.drop_last()) + if s.last() { 1nat } else { 0nat }
    }
}

/// The number of files among the first `n` that are refused.
pub open spec fn count_refused(files: Seq<FileInfo>, config: UploadConfig, n: nat) -> nat
    decreases n,
{
    if n == 0 {
        0
    } else {
        count_refused(files, config, (n - 1) as nat) + if file_refusal(files[n - 1], config) is Some {
            1nat
        } else {
            0nat
        }
    }
}

/// The warnings produced by the first `n` files, in order: each refusal and
/// each large-file warning.
pub open spec fn folder_warnings(files: Seq<FileInfo>, config: UploadConfig, n: nat) -> Seq<Seq<char>>
    decreases n,
{
    if n == 0 {
        Seq::empty()
    } else {
        let prev = folder_warnings(files, config, (n - 1) as nat);
        let f = files[n - 1];
        match file_refusal(f, config) {
            Some(m) => prev.push(m),
            None => match file_warning(f, config) {
                Some(w) => prev.push(w),
                None => prev,
            },
        }
    }
}

/// The lines of `ws` joined by '\n'.
pub open spec fn join_lines(ws: Seq<Seq<char>>) -> Seq<char>
    decreases ws.len(),
{
    if ws.len() == 0 {
        Seq::empty()
    } else if ws.len() == 1 {
        ws[0]
    } else {
        join_lines(ws.drop_last()) + seq!['\n'] + ws.last()
    }
}

pub(crate) fn join_strings(ws: &Vec<String>) -> (r: String)
    ensures
        r@ == join_lines(ws@.map_values(|w: String| w@)),
{
    let mut r = String::new();
    let mut i: usize = 0;
    let ghost v = ws@.map_values(|w: String| w@);
    while i < ws.len()
        invariant
            i <= ws.len(),
            v == ws@.map_values(|w: String| w@),
            r@ == join_lines(v.take(i as int)),
        decreases ws.len() - i,
    {
        assert(v.take(i + 1).drop_last() =~= v.take(i as int));
        if i > 0 {
            r.push('\n');
        } else {
            assert(v.take(0).len() == 0);
        }
        push_str(&mut r, ws[i].as_str());
        i += 1;
    }
    assert(v.take(ws.len() as int) =~= v);
    r
}

/// Adds `file` (found in a dropped folder) below `alist_path`. When a
/// pending task already uploads it to that directory, the queue is left as
/// it is and a fresh task for the file (not queued) is returned. Otherwise,
/// when `block_dup` blocks duplicates and the file is pending for another
/// directory, nothing is queued or returned (see `is_queued_duplicate`).
/// Otherwise the task with identifier `id` created at `now` joins the end of
/// the queue and is returned.
pub fn add_single_file_to_queue(
    queue: &mut QueueData,
    file: &FileInfo,
    alist_path: &str,
    block_dup: bool,
    id: String,
    now: i64,
) -> (t: Option<UploadTask>)
    ensures
        final(queue).version == old(queue).version,
        has_queued_duplicate(old(queue).tasks@, file.path@, file_target(*file, alist_path@), false) ==> {
            &&& final(queue).tasks@ == old(queue).tasks@
            &&& t is Some
            &&& crate::models::is_new_task(t->0, file.path@, file_target(*file, alist_path@), id@, now)
        },
        !has_queued_duplicate(old(queue).tasks@, file.path@, file_target(*file, alist_path@), false)
            && has_queued_duplicate(old(queue).tasks@, file.path@, file_target(*file, alist_path@), block_dup) ==> {
            &&& final(queue).tasks@ == old(queue).tasks@
            &&& t is None
        },
        !has_queued_duplicate(old(queue).tasks@, file.path@, file_target(*file, alist_path@), block_dup) ==> {
            &&& t is Some
            &&& final(queue).tasks@ == old(queue).tasks@.push(t->0)
            &&& is_file_task(t->0, *file, file_target(*file, alist_path@), id@, now)
        },
{
    let target = match &file.relative_path {
        Some(rp) => build_target_dir(alist_path, rp.as_str()),
        None => normalize_alist_path(alist_path),
    };
    let p = chars_of(file.path.as_str());
    let tv = chars_of(target.as_str());
    if find_queued_duplicate(&queue.tasks, &p, &tv, false) {
        return Some(UploadTask::new_with_id(file.path.clone(), target, id, now));
    }
    if find_queued_duplicate(&queue.tasks, &p, &tv, block_dup) {
        return None;
    }
    let task = file_task(file, target, id, now);
    queue.tasks.push(task.clone());
    Some(task)
}

/// The queue after the first `k` files of a folder: the old tasks, then
/// one task for each file that joined, in order.
pub open spec fn folder_queue_inv(
    old_q: Seq<UploadTask>,
    q: Seq<UploadTask>,
    files: Seq<FileInfo>,
    config: UploadConfig,
    gft: Seq<char>,
    ids: Seq<String>,
    now: i64,
    k: nat,
) -> bool {
    let flags = enqueued_flags(old_q, files, config, gft, k);
    &&& q.len() == old_q.len() + count_true(flags)
    &&& forall|i: int| 0 <= i < old_q.len() ==> q[i] == old_q[i]
    &&& forall|m: int| 0 <= m < k && #[trigger] flags[m] ==> is_file_task(
        q[(old_q.len() + count_true(flags.take(m))) as int],
        files[m], file_target(files[m], gft), ids[m]@, now)
    &&& forall|j: int| old_q.len() <= j < q.len() ==> joined_in_run(#[trigger] q[j], files, flags, gft, ids, now, k)
}

/// `t` is the task that one of the first `k` files of the folder joined the
/// queue with.
pub open spec fn joined_in_run(
    t: UploadTask,
    files: Seq<FileInfo>,
    flags: Seq<bool>,
    gft: Seq<char>,
    ids: Seq<String>,
    now: i64,
    k: nat,
) -> bool {
    exists|m: int| 0 <= m < k && #[trigger] flags[m] && is_file_task(t, files[m], file_target(files[m], gft), ids[m]@, now)
}

proof fn lemma_flags_len(old_q: Seq<UploadTask>, files: Seq<FileInfo>, config: UploadConfig, ft: Seq<char>, n: nat)
    ensures
        enqueued_flags(old_q, files, config, ft, n).len() == n,
    decreases n,
{
    if n > 0 {
        lemma_flags_len(old_q, files, config, ft, (n - 1) as nat);
    }
}

/// For each of the first `n` files of the folder, whether it gives a task
/// in the result: it is not refused, and it either joins the queue (see
/// `enqueued_flags`) or is already pending for the same directory (a fresh
/// task that was not queued stands for it). A file skipped only because
/// duplicates are blocked gives none.
pub open spec fn reported_flags(
    old_q: Seq<UploadTask>,
    files: Seq<FileInfo>,
    config: UploadConfig,
    ft: Seq<char>,
    n: nat,
) -> Seq<bool>
    decreases n,
{
    if n == 0 {
        Seq::empty()
    } else {
        let k = n - 1;
        let f = files[k];
        let tgt = file_target(f, ft);
        let flags = enqueued_flags(old_q, files, config, ft, k as nat);
        let same = has_queued_duplicate(old_q, f.path@, tgt, false) || exists|m: int|
            0 <= m < k && #[trigger] flags[m] && files[m].path@ == f.path@ && file_target(files[m], ft) == tgt;
        reported_flags(old_q, files, config, ft, k as nat).push(
            file_refusal(f, config) is None && (enqueued_flags(old_q, files, config, ft, n)[k] || same),
        )
    }
}

proof fn lemma_reported_len(old_q: Seq<UploadTask>, files: Seq<FileInfo>, config: UploadConfig, ft: Seq<char>, n: nat)
    ensures
        reported_flags(old_q, files, config, ft, n).len() == n,
    decreases n,
{
    if n > 0 {
        lemma_reported_len(old_q, files, config, ft, (n - 1) as nat);
    }
}

/// The task that stands for a folder file in the result: the queued task
/// when it joined the queue, else a fresh task for it that was not queued.
pub open spec fn reported_task(t: UploadTask, f: FileInfo, target: Seq<char>, id: Seq<char>, now: i64, queued: bool) -> bool {
    if queued {
        is_file_task(t, f, target, id, now)
    } else {
        crate::models::is_new_task(t, f.path@, target, id, now)
    }
}

/// `tasks` holds, in order, one task for each of the first `k` files that
/// `reported` marks (see `reported_task`; `queued[m]` tells whether file `m`
/// joined the queue).
#[verifier::opaque]
pub open spec fn tasks_reported(
    tasks: Seq<UploadTask>,
    files: Seq<FileInfo>,
    ft: Seq<char>,
    ids: Seq<String>,
    now: i64,
    queued: Seq<bool>,
    reported: Seq<bool>,
    k: int,
) -> bool {
    &&& tasks.len() == count_true(reported.take(k))
    &&& forall|m: int|
        0 <= m < k && #[trigger] reported[m] ==> reported_task(
            tasks[count_true(reported.take(m)) as int],
            files[m],
            file_target(files[m], ft),
            ids[m]@,
            now,
            queued[m],
        )
}

proof fn lemma_tasks_reported_step(
    tasks: Seq<UploadTask>,
    tasks1: Seq<UploadTask>,
    files: Seq<FileInfo>,
    ft: Seq<char>,
    ids: Seq<String>,
    now: i64,
    queued: Seq<bool>,
    queued1: Seq<bool>,
    reported: Seq<bool>,
    reported1: Seq<bool>,
    k: int,
)
    requires
        0 <= k,
        reported.len() == k,
        reported1.len() == k + 1,
        reported1.drop_last() == reported,
        forall|i: int| 0 <= i < k ==> queued1[i] == queued[i],
        tasks_reported(tasks, files, ft, ids, now, queued, reported, k),
        !reported1[k] ==> tasks1 == tasks,
        reported1[k] ==> tasks1.len() == tasks.len() + 1 && tasks1.drop_last() == tasks && reported_task(
            tasks1.last(),
            files[k],
            file_target(files[k], ft),
            ids[k]@,
            now,
            queued1[k],
        ),
    ensures
        tasks_reported(tasks1, files, ft, ids, now, queued1, reported1, k + 1),
{
    reveal(tasks_reported);
    assert(reported1.take(k) =~= reported);
    assert(reported.take(k) =~= reported);
    assert(reported1.take(k + 1) =~= reported1);
    assert(reported1.drop_last() =~= reported1.take(k));
    assert forall|m: int|
        0 <= m < k + 1 && #[trigger] reported1[m] implies reported_task(
            tasks1[count_true(reported1.take(m)) as int],
            files[m],
            file_target(files[m], ft),
            ids[m]@,
            now,
            queued1[m],
        ) by {
        if m < k {
            assert(reported1.take(m) =~= reported.take(m));
            assert(reported[m] == reported1[m]);
            lemma_count_true_take(reported, m);
            assert(queued1[m] == queued[m]);
            if reported1[k] {
                assert(tasks1[count_true(reported.take(m)) as int] == tasks1.drop_last()[count_true(reported.take(m)) as int]);
            }
        } else {
            assert(count_true(reported1.take(m)) == count_true(reported));
        }
    }
}

/// Adds the files found in the folder at `file_path` (named `folder_name`)
/// to `target_root`, which `check_add_request` let through. The folder keeps
/// its name as a remote level; a level name longer than the drive accepts
/// refuses the whole folder. Each file is refused, warned about or accepted
/// (see `file_refusal`, `file_warning`), and an accepted file joins the queue
/// unless it is already pending there (see `enqueued_flags`); file `k` gets
/// identifier `ids[k]`. When nothing was added but something was said, the
/// result is an error holding the warnings, one per line.
pub fn add_folder_to_queue(
    queue: &mut QueueData,
    config: &UploadConfig,
    file_path: &str,
    folder_name: &str,
    target_root: &str,
    files: &Vec<FileInfo>,
    ids: &Vec<String>,
    now: i64,
) -> (out: AddOutcome)
    requires
        ids.len() == files.len(),
    ensures
        final(queue).version == old(queue).version,
        ({
            let ft = folder_target(target_root@, folder_name@);
            has_long_segment(ft) ==> {
                &&& (out.result matches Ok(res) && res.tasks.len() == 0 && res.warnings.len() == 1
                    && res.warnings[0]@ == dir_name_too_long_message(first_long_segment(ft)))
                &&& out.blocked.len() == 1
                &&& is_blocked_record(out.blocked[0], file_path@, folder_name@, 0,
                    dir_name_too_long_message(first_long_segment(ft)), ft, now)
                &&& final(queue).tasks@ == old(queue).tasks@
            }
        }),
        ({
            let ft = folder_target(target_root@, folder_name@);
            let n = files.len() as nat;
            let flags = enqueued_flags(old(queue).tasks@, files@, *config, ft, n);
            let reported = reported_flags(old(queue).tasks@, files@, *config, ft, n);
            let warnings = folder_warnings(files@, *config, n);
            !has_long_segment(ft) ==> {
                &&& final(queue).tasks@.len() == old(queue).tasks@.len() + count_true(flags)
                &&& forall|i: int| 0 <= i < old(queue).tasks@.len() ==> final(queue).tasks@[i] == old(queue).tasks@[i]
                &&& forall|m: int| 0 <= m < n && #[trigger] flags[m] ==> is_file_task(
                    final(queue).tasks@[(old(queue).tasks@.len() + count_true(flags.take(m))) as int],
                    files@[m], file_target(files@[m], ft), ids@[m]@, now)
                &&& out.blocked.len() == count_refused(files@, *config, n)
                &&& forall|m: int| 0 <= m < n && (#[trigger] file_refusal(files@[m], *config)) is Some ==> is_blocked_record(
                    out.blocked@[count_refused(files@, *config, m as nat) as int], files@[m].path@, files@[m].name@, files@[m].size,
                    file_refusal(files@[m], *config)->0, ft, now)
                &&& (count_true(reported) == 0 && warnings.len() > 0 ==> (out.result matches Err(e) && e@ == join_lines(warnings)))
                &&& (!(count_true(reported) == 0 && warnings.len() > 0) ==> (out.result matches Ok(res)
                    && res.warnings@.map_values(|w: String| w@) == warnings
                    && tasks_reported(res.tasks@, files@, ft, ids@, now, flags, reported, n as int)))
            }
        }),
{
    let ft = folder_target_root(target_root, folder_name);
    let mut blocked: Vec<BlockedFileRecord> = Vec::new();
    let mut warnings: Vec<String> = Vec::new();
    match check_name_bytes_limit(ft.as_str()) {
        Some(over) => {
            let msg = length_message(true, &over);
            blocked.push(blocked_record(file_path, folder_name, 0, &msg, ft.as_str(), now));
            warnings.push(msg);
            return AddOutcome { result: Ok(AddToQueueResult { tasks: Vec::new(), warnings }), blocked };
        },
        None => {},
    }
    let ghost old_q = queue.tasks@;
    let ghost gft = ft@;
    let mut added: Vec<UploadTask> = Vec::new();
    assert(tasks_reported(added@, files@, gft, ids@, now, enqueued_flags(old_q, files@, *config, gft, 0), reported_flags(
        old_q, files@, *config, gft, 0), 0)) by {
        reveal(tasks_reported);
        assert(reported_flags(old_q, files@, *config, gft, 0).take(0) =~= Seq::<bool>::empty());
    }
    let mut k: usize = 0;
    while k < files.len()
        invariant
            k <= files.len(),
            ids.len() == files.len(),
            gft == ft@,
            gft == folder_target(target_root@, folder_name@),
            queue.version == old(queue).version,
            old_q == old(queue).tasks@,
            folder_queue_inv(old_q, queue.tasks@, files@, *config, gft, ids@, now, k as nat),
            blocked.len() == count_refused(files@, *config, k as nat),
            forall|m: int| 0 <= m < k && (#[trigger] file_refusal(files@[m], *config)) is Some ==> is_blocked_record(
                blocked@[count_refused(files@, *config, m as nat) as int], files@[m].path@, files@[m].name@, files@[m].size,
                file_refusal(files@[m], *config)->0, gft, now),
            warnings@.map_values(|w: String| w@) == folder_warnings(files@, *config, k as nat),
            tasks_reported(added@, files@, gft, ids@, now, enqueued_flags(old_q, files@, *config, gft, k as nat), reported_flags(
                old_q, files@, *config, gft, k as nat), k as int),
        decreases files.len() - k,
    {
        proof {
            lemma_flags_len(old_q, files@, *config, gft, k as nat);
            lemma_flags_len(old_q, files@, *config, gft, (k + 1) as nat);
            lemma_count_refused_le(files@, *config, k as nat);
        }
        let f = &files[k];
        let ghost old_blocked = blocked@;
        let ghost flags = enqueued_flags(old_q, files@, *config, gft, k as nat);
        let ghost flags1 = enqueued_flags(old_q, files@, *config, gft, (k + 1) as nat);
        let ghost reps = reported_flags(old_q, files@, *config, gft, k as nat);
        let ghost reps1 = reported_flags(old_q, files@, *config, gft, (k + 1) as nat);
        proof {
            lemma_reported_len(old_q, files@, *config, gft, k as nat);
            lemma_reported_len(old_q, files@, *config, gft, (k + 1) as nat);
            assert(reps1.drop_last() =~= reps);
        }
        assert(flags1.drop_last() =~= flags);
        assert forall|m: int| 0 <= m <= k implies #[trigger] flags1.take(m) == flags.take(m) by {
            assert(flags1.take(m) =~= flags.take(m));
        }
        match check_name_bytes_limit(f.name.as_str()) {
            Some(over) => {
                let msg = length_message(false, &over);
                blocked.push(blocked_record(f.path.as_str(), f.name.as_str(), f.size, &msg, ft.as_str(), now));
                warnings.push(msg);
                proof {
                    assert(!flags1[k as int]);
                    assert(flags1 =~= flags.push(false));
                    assert(count_true(flags1) == count_true(flags));
                    assert(warnings@.map_values(|w: String| w@) =~= folder_warnings(files@, *config, (k + 1) as nat));
                    assert(blocked@.take(old_blocked.len() as int) =~= old_blocked);
                    lemma_same_queue_step(old_q, queue.tasks@, files@, *config, gft, ids@, now, k as nat);
                    lemma_blocked_step(files@, *config, gft, now, old_blocked, blocked@, k as nat);
                    assert(!reps1[k as int]);
                    lemma_tasks_reported_step(added@, added@, files@, gft, ids@, now, flags, flags1, reps, reps1, k as int);
                }
                k += 1;
                continue;
            },
            None => {},
        }
        match validate_large_file(config, f.name.as_str(), f.size) {
            Ok(Some(w)) => {
                warnings.push(w);
                assert(warnings@.map_values(|w: String| w@) =~= folder_warnings(files@, *config, (k + 1) as nat));
            },
            Ok(None) => {
                assert(warnings@.map_values(|w: String| w@) =~= folder_warnings(files@, *config, (k + 1) as nat));
            },
            Err(m) => {
                blocked.push(blocked_record(f.path.as_str(), f.name.as_str(), f.size, &m, ft.as_str(), now));
                warnings.push(m);
                proof {
                    assert(!flags1[k as int]);
                    assert(flags1 =~= flags.push(false));
                    assert(count_true(flags1) == count_true(flags));
                    assert(warnings@.map_values(|w: String| w@) =~= folder_warnings(files@, *config, (k + 1) as nat));
                    assert(blocked@.take(old_blocked.len() as int) =~= old_blocked);
                    lemma_same_queue_step(old_q, queue.tasks@, files@, *config, gft, ids@, now, k as nat);
                    lemma_blocked_step(files@, *config, gft, now, old_blocked, blocked@, k as nat);
                    assert(!reps1[k as int]);
                    lemma_tasks_reported_step(added@, added@, files@, gft, ids@, now, flags, flags1, reps, reps1, k as int);
                }
                k += 1;
                continue;
            },
        }
        let ghost before = queue.tasks@;
        let ghost before_added = added@;
        let id = ids[k].clone();
        let task = add_single_file_to_queue(queue, f, ft.as_str(), config.block_duplicate_file_upload, id, now);
        proof {
            let bd = config.block_duplicate_file_upload;
            let tgt = file_target(*f, gft);
            let dup_new = exists|m: int|
                0 <= m < k && #[trigger] flags[m] && files@[m].path@ == f.path@ && (file_target(files@[m], gft) == tgt
                    || bd);
            let dup_old = has_queued_duplicate(old_q, f.path@, tgt, bd);
            let dup = has_queued_duplicate(before, f.path@, tgt, bd);
            lemma_duplicate_in_run(old_q, before, files@, *config, gft, ids@, now, k as nat, f.path@, tgt, bd);
            lemma_duplicate_in_run(old_q, before, files@, *config, gft, ids@, now, k as nat, f.path@, tgt, false);
            assert(dup == (dup_old || dup_new));
            let same = has_queued_duplicate(before, f.path@, tgt, false);
            if same {
                let j = choose|j: int| 0 <= j < before.len() && is_queued_duplicate(#[trigger] before[j], f.path@, tgt, false);
                assert(is_queued_duplicate(before[j], f.path@, tgt, bd));
            }
            assert(file_refusal(*f, *config) is None);
            assert(flags1 == flags.push(file_refusal(*f, *config) is None && !dup_old && !dup_new));
            assert(flags1[k as int] == !dup);
            assert(reps1[k as int] == (flags1[k as int] || same));
            let t = if task is Some { task->0 } else { vstd::pervasive::arbitrary() };
            lemma_added_queue_step(old_q, before, queue.tasks@, files@, *config, gft, ids@, now, k as nat, dup, t);
            lemma_blocked_step(files@, *config, gft, now, old_blocked, blocked@, k as nat);
        }
        match task {
            Some(t) => {
                added.push(t);
                proof {
                    assert(added@.drop_last() =~= before_added);
                    lemma_tasks_reported_step(before_added, added@, files@, gft, ids@, now, flags, flags1, reps, reps1, k as int);
                }
            },
            None => {
                proof {
                    lemma_tasks_reported_step(added@, added@, files@, gft, ids@, now, flags, flags1, reps, reps1, k as int);
                }
            },
        }
        k += 1;
    }
    proof {
        let reps = reported_flags(old_q, files@, *config, gft, files.len() as nat);
        lemma_reported_len(old_q, files@, *config, gft, files.len() as nat);
        assert(reps.take(files.len() as int) =~= reps);
        assert(added.len() == count_true(reps)) by {
            reveal(tasks_reported);
        }
    }
    proof {
        lemma_count_refused_le(files@, *config, files.len() as nat);
    }
    if added.len() == 0 && warnings.len() > 0 {
        let e = join_strings(&warnings);
        return AddOutcome { result: Err(e), blocked };
    }
    AddOutcome { result: Ok(AddToQueueResult { tasks: added, warnings }), blocked }
}

proof fn lemma_count_refused_mono(files: Seq<FileInfo>, config: UploadConfig, a: nat, b: nat)
    requires
        a <= b,
    ensures
        count_refused(files, config, a) <= count_refused(files, config, b),
    decreases b,
{
    if a < b {
        lemma_count_refused_mono(files, config, a, (b - 1) as nat);
    }
}

proof fn lemma_count_true_take(s: Seq<bool>, m: int)
    requires
        0 <= m <= s.len(),
    ensures
        count_true(s.take(m)) <= count_true(s),
        m < s.len() && s[m] ==> count_true(s.take(m)) + 1 <= count_true(s),
    decreases s.len(),
{
    if m < s.len() {
        assert(s.drop_last().take(m) =~= s.take(m)) by {
            if m < s.len() {}
        };
        if m < s.len() - 1 {
            lemma_count_true_take(s.drop_last(), m);
            assert(s.drop_last()[m] == s[m]);
        } else {
            assert(s.take(m) =~= s.drop_last());
        }
    } else {
        assert(s.take(m) =~= s);
    }
}

/// Records after the block go after the earlier ones.
proof fn lemma_blocked_index(files: Seq<FileInfo>, config: UploadConfig, m: nat, k: nat)
    requires
        m < k,
        file_refusal(files[m as int], config) is Some,
    ensures
        count_refused(files, config, m) < count_refused(files, config, k),
{
    lemma_count_refused_mono(files, config, (m + 1) as nat, k);
}

/// The queue invariant survives a file that does not join the queue.
proof fn lemma_same_queue_step(
    old_q: Seq<UploadTask>,
    q: Seq<UploadTask>,
    files: Seq<FileInfo>,
    config: UploadConfig,
    gft: Seq<char>,
    ids: Seq<String>,
    now: i64,
    k: nat,
)
    requires
        k < files.len(),
        !enqueued_flags(old_q, files, config, gft, k + 1)[k as int],
        folder_queue_inv(old_q, q, files, config, gft, ids, now, k),
    ensures
        folder_queue_inv(old_q, q, files, config, gft, ids, now, k + 1),
{
    let flags = enqueued_flags(old_q, files, config, gft, k);
    let flags1 = enqueued_flags(old_q, files, config, gft, k + 1);
    lemma_flags_len(old_q, files, config, gft, k);
    assert(flags1 =~= flags.push(false));
    assert(flags1.drop_last() =~= flags);
    assert(count_true(flags1) == count_true(flags));
    lemma_flags_len(old_q, files, config, gft, k + 1);
    assert forall|m: int| 0 <= m < k + 1 && #[trigger] flags1[m] implies is_file_task(
        q[(old_q.len() + count_true(flags1.take(m))) as int],
        files[m], file_target(files[m], gft), ids[m]@, now) by {
        assert(m < k);
        assert(flags1.take(m) =~= flags.take(m));
        assert(flags[m]);
    }
    assert forall|j: int| old_q.len() <= j < q.len() implies joined_in_run(#[trigger] q[j], files, flags1, gft, ids, now, k + 1) by {
        assert(joined_in_run(q[j], files, flags, gft, ids, now, k));
        let m = choose|m: int| 0 <= m < k && #[trigger] flags[m] && is_file_task(q[j], files[m],
            file_target(files[m], gft), ids[m]@, now);
        assert(flags1[m]);
    }
}

/// The queue invariant survives a file that was handed to
/// `add_single_file_to_queue`: it joined exactly when nothing pending
/// already uploads it to the same directory.
proof fn lemma_added_queue_step(
    old_q: Seq<UploadTask>,
    q: Seq<UploadTask>,
    q1: Seq<UploadTask>,
    files: Seq<FileInfo>,
    config: UploadConfig,
    gft: Seq<char>,
    ids: Seq<String>,
    now: i64,
    k: nat,
    dup: bool,
    t: UploadTask,
)
    requires
        k < files.len(),
        enqueued_flags(old_q, files, config, gft, k + 1)[k as int] == !dup,
        enqueued_flags(old_q, files, config, gft, k + 1).drop_last() == enqueued_flags(old_q, files, config, gft, k),
        folder_queue_inv(old_q, q, files, config, gft, ids, now, k),
        dup ==> q1 == q,
        !dup ==> q1 == q.push(t) && is_file_task(t, files[k as int], file_target(files[k as int], gft), ids[k as int]@, now),
    ensures
        folder_queue_inv(old_q, q1, files, config, gft, ids, now, k + 1),
{
    if dup {
        lemma_same_queue_step(old_q, q, files, config, gft, ids, now, k);
    } else {
        let flags = enqueued_flags(old_q, files, config, gft, k);
        let flags1 = enqueued_flags(old_q, files, config, gft, k + 1);
        lemma_flags_len(old_q, files, config, gft, k);
        lemma_flags_len(old_q, files, config, gft, k + 1);
        assert(flags1 =~= flags.push(true));
        assert(flags1.drop_last() =~= flags);
        assert(count_true(flags1) == count_true(flags) + 1);
        assert forall|m: int| 0 <= m < k + 1 && #[trigger] flags1[m] implies is_file_task(
            q1[(old_q.len() + count_true(flags1.take(m))) as int],
            files[m], file_target(files[m], gft), ids[m]@, now) by {
            if m < k {
                assert(flags1.take(m) =~= flags.take(m));
                assert(flags[m]);
                lemma_count_true_take(flags, m);
            } else {
                assert(flags1.take(m) =~= flags);
            }
        }
        assert forall|j: int| old_q.len() <= j < q1.len() implies joined_in_run(#[trigger] q1[j], files, flags1, gft, ids, now, k + 1) by {
            if j < q.len() {
                assert(joined_in_run(q[j], files, flags, gft, ids, now, k));
                let m = choose|m: int| 0 <= m < k && #[trigger] flags[m] && is_file_task(q[j], files[m],
                    file_target(files[m], gft), ids[m]@, now);
                assert(flags1[m]);
                assert(q1[j] == q[j]);
            } else {
                assert(flags1[k as int]);
                assert(q1[j] == t);
            }
        }
    }
}

/// While a folder is added, the queue holds a pending task for `path` and
/// `tgt` exactly when the old queue did or a file already handled in this
/// run joined it with that path and target.
proof fn lemma_duplicate_in_run(
    old_q: Seq<UploadTask>,
    q: Seq<UploadTask>,
    files: Seq<FileInfo>,
    config: UploadConfig,
    gft: Seq<char>,
    ids: Seq<String>,
    now: i64,
    k: nat,
    path: Seq<char>,
    tgt: Seq<char>,
    bd: bool,
)
    requires
        k <= files.len(),
        folder_queue_inv(old_q, q, files, config, gft, ids, now, k),
    ensures
        has_queued_duplicate(q, path, tgt, bd) == (has_queued_duplicate(old_q, path, tgt, bd) || exists|m: int|
            0 <= m < k && #[trigger] enqueued_flags(old_q, files, config, gft, k)[m] && files[m].path@ == path
                && (file_target(files[m], gft) == tgt || bd)),
{
    let flags = enqueued_flags(old_q, files, config, gft, k);
    lemma_flags_len(old_q, files, config, gft, k);
    lemma_count_true_le(flags);
    if has_queued_duplicate(q, path, tgt, bd) {
        let j = choose|j: int| 0 <= j < q.len() && is_queued_duplicate(#[trigger] q[j], path, tgt, bd);
        if j < old_q.len() {
            assert(is_queued_duplicate(old_q[j], path, tgt, bd));
        } else {
            assert(joined_in_run(q[j], files, flags, gft, ids, now, k));
            let m = choose|m: int| 0 <= m < k && #[trigger] flags[m] && is_file_task(q[j], files[m],
                file_target(files[m], gft), ids[m]@, now);
            assert(flags[m] && files[m].path@ == path && (file_target(files[m], gft) == tgt || bd));
        }
    }
    if has_queued_duplicate(old_q, path, tgt, bd) {
        let j = choose|j: int| 0 <= j < old_q.len() && is_queued_duplicate(#[trigger] old_q[j], path, tgt, bd);
        assert(q[j] == old_q[j]);
        assert(is_queued_duplicate(q[j], path, tgt, bd));
    }
    if exists|m: int| 0 <= m < k && #[trigger] flags[m] && files[m].path@ == path && (file_target(files[m], gft) == tgt || bd) {
        let m = choose|m: int| 0 <= m < k && #[trigger] flags[m] && files[m].path@ == path && (file_target(files[m], gft) == tgt || bd);
        lemma_count_true_take(flags, m);
        let j = (old_q.len() + count_true(flags.take(m))) as int;
        assert(is_file_task(q[j], files[m], file_target(files[m], gft), ids[m]@, now));
        assert(is_queued_duplicate(q[j], path, tgt, bd));
    }
}

proof fn lemma_count_true_le(s: Seq<bool>)
    ensures
        count_true(s) <= s.len(),
    decreases s.len(),
{
    if s.len() > 0 {
        lemma_count_true_le(s.drop_last());
    }
}

/// The blocked-record invariant survives one more file.
proof fn lemma_blocked_step(
    files: Seq<FileInfo>,
    config: UploadConfig,
    gft: Seq<char>,
    now: i64,
    old_blocked: Seq<BlockedFileRecord>,
    blocked: Seq<BlockedFileRecord>,
    k: nat,
)
    requires
        k < files.len(),
        old_blocked.len() == count_refused(files, config, k),
        forall|m: int| 0 <= m < k && (#[trigger] file_refusal(files[m], config)) is Some ==> is_blocked_record(
            old_blocked[count_refused(files, config, m as nat) as int], files[m].path@, files[m].name@, files[m].size,
            file_refusal(files[m], config)->0, gft, now),
        file_refusal(files[k as int], config) is Some ==> blocked.len() == old_blocked.len() + 1
            && blocked.take(old_blocked.len() as int) == old_blocked
            && is_blocked_record(blocked[old_blocked.len() as int], files[k as int].path@, files[k as int].name@,
                files[k as int].size, file_refusal(files[k as int], config)->0, gft, now),
        file_refusal(files[k as int], config) is None ==> blocked == old_blocked,
    ensures
        blocked.len() == count_refused(files, config, k + 1),
        forall|m: int| 0 <= m < k + 1 && (#[trigger] file_refusal(files[m], config)) is Some ==> is_blocked_record(
            blocked[count_refused(files, config, m as nat) as int], files[m].path@, files[m].name@, files[m].size,
            file_refusal(files[m], config)->0, gft, now),
{
    assert forall|m: int| 0 <= m < k + 1 && (#[trigger] file_refusal(files[m], config)) is Some implies is_blocked_record(
        blocked[count_refused(files, config, m as nat) as int], files[m].path@, files[m].name@, files[m].size,
        file_refusal(files[m], config)->0, gft, now) by {
        if m < k {
            lemma_blocked_index(files, config, m as nat, k);
            if file_refusal(files[k as int], config) is Some {
                assert(blocked[count_refused(files, config, m as nat) as int] == blocked.take(old_blocked.len() as int)[count_refused(files, config, m as nat) as int]);
            }
        }
    }
}

proof fn lemma_count_refused_le(files: Seq<FileInfo>, config: UploadConfig, n: nat)
    ensures
        count_refused(files, config, n) <= n,
    decreases n,
{
    if n > 0 {
        lemma_count_refused_le(files, config, (n - 1) as nat);
    }
}

} // verus!
