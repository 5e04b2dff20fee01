//! The upload queue and the history: removing, replacing, claiming and
//! recovering tasks, filing finished tasks into the history, and the
//! user's corrections of history and blocked-file records.
use vstd::prelude::*;
use crate::models::{
    clone_opt_string, BlockedFileData, HistoryData, QueueData, TaskStatus, UploadTask,
};
use crate::text::{chars_of, chars_eq, push_str};

verus! {

/// `s[i]` is the first task of `s` whose identifier is `id`.
pub open spec fn first_with_id(s: Seq<UploadTask>, id: Seq<char>, i: int) -> bool {
    &&& 0 <= i < s.len()
    &&& s[i].id@ == id
    &&& forall|j: int| 0 <= j < i ==> s[j].id@ != id
}

/// No task of `s` has identifier `id`.
pub open spec fn no_task_with_id(s: Seq<UploadTask>, id: Seq<char>) -> bool {
    forall|j: int| 0 <= j < s.len() ==> s[j].id@ != id
}

/// `s[i]` is the first pending task of `s`.
pub open spec fn first_pending(s: Seq<UploadTask>, i: int) -> bool {
    &&& 0 <= i < s.len()
    &&& s[i].status == TaskStatus::Pending
    &&& forall|j: int| 0 <= j < i ==> s[j].status != TaskStatus::Pending
}

/// The tasks of `s` whose identifier is not `id`, in order.
pub open spec fn without_id(s: Seq<UploadTask>, id: Seq<char>) -> Seq<UploadTask> {
    s.filter(|t: UploadTask| t.id@ != id)
}

/// Whether `t` has identifier `id`.
fn has_id(t: &UploadTask, id: &Vec<char>) -> (b: bool)
    ensures
        b == (t.id@ == id@),
{
    let v = chars_of(t.id.as_str());
    chars_eq(&v, id)
}

/// The index of the first task with identifier `id`, if any.
pub fn find_task_index(tasks: &Vec<UploadTask>, task_id: &str) -> (r: Option<usize>)
    ensures
        match r {
            Some(i) => first_with_id(tasks@, task_id@, i as int),
            None => no_task_with_id(tasks@, task_id@),
        },
{
    let id = chars_of(task_id);
    let mut i: usize = 0;
    while i < tasks.len()
        invariant
            i <= tasks.len(),
            id@ == task_id@,
            forall|j: int| 0 <= j < i ==> tasks@[j].id@ != task_id@,
        decreases tasks.len() - i,
    {
        if has_id(&tasks[i], &id) {
            return Some(i);
        }
        i += 1;
    }
    None
}

/// Removes every task whose identifier is `task_id`; the others keep their
/// order.
pub fn remove_from_queue(queue: &mut QueueData, task_id: &str)
    ensures
        final(queue).tasks@ == without_id(old(queue).tasks@, task_id@),
        final(queue).version == old(queue).version,
{
    let id = chars_of(task_id);
    let mut kept: Vec<UploadTask> = Vec::new();
    let mut i: usize = 0;
    while i < queue.tasks.len()
        invariant
            i <= queue.tasks.len(),
            queue.tasks@ == old(queue).tasks@,
            queue.version == old(queue).version,
            id@ == task_id@,
            kept@ == without_id(queue.tasks@.take(i as int), task_id@),
        decreases queue.tasks.len() - i,
    {
        reveal_with_fuel(Seq::filter, 1);
        assert(queue.tasks@.take(i + 1).drop_last() =~= queue.tasks@.take(i as int));
        if !has_id(&queue.tasks[i], &id) {
            kept.push(queue.tasks[i].clone());
        }
        i += 1;
    }
    assert(queue.tasks@.take(queue.tasks.len() as int) =~= queue.tasks@);
    queue.tasks = kept;
}

/// Removes a task that has left the queue for the history (see
/// `remove_from_queue`).
pub fn remove_completed_from_queue(queue: &mut QueueData, task_id: &str)
    ensures
        final(queue).tasks@ == without_id(old(queue).tasks@, task_id@),
        final(queue).version == old(queue).version,
{
    remove_from_queue(queue, task_id);
}

/// Empties the queue.
pub fn clear_queue(queue: &mut QueueData)
    ensures
        final(queue).tasks@.len() == 0,
        final(queue).version == old(queue).version,
{
    queue.tasks = Vec::new();
}

/// Replaces the first task whose identifier is `task_id` by `task`; the
/// queue is unchanged when there is none.
pub fn update_task(queue: &mut QueueData, task_id: &str, task: UploadTask)
    ensures
        forall|i: int|
            first_with_id(old(queue).tasks@, task_id@, i) ==> final(queue).tasks@
                == old(queue).tasks@.update(i, task),
        no_task_with_id(old(queue).tasks@, task_id@) ==> final(queue).tasks@ == old(queue).tasks@,
        final(queue).version == old(queue).version,
{
    match find_task_index(&queue.tasks, task_id) {
        Some(i) => {
            queue.tasks.set(i, task);
        },
        None => {},
    }
}

/// `t` as `mark_uploading_at(now)` leaves it.
pub open spec fn uploading_at(t: UploadTask, now: i64) -> UploadTask {
    UploadTask {
        status: TaskStatus::Uploading,
        start_time: Some(now),
        updated_at: now,
        error: None,
        speed: 0,
        ..t
    }
}

/// Claims the first pending task at `now`: it is marked uploading in the
/// queue and a copy is returned. Nothing changes when no task is pending.
pub fn claim_next_pending_task_at(queue: &mut QueueData, now: i64) -> (r: Option<UploadTask>)
    ensures
        forall|i: int|
            first_pending(old(queue).tasks@, i) ==> {
                &&& final(queue).tasks@ == old(queue).tasks@.update(
                    i,
                    uploading_at(old(queue).tasks@[i], now),
                )
                &&& r == Some(uploading_at(old(queue).tasks@[i], now))
            },
        (forall|j: int| 0 <= j < old(queue).tasks@.len() ==> old(queue).tasks@[j].status
            != TaskStatus::Pending) ==> r is None && final(queue).tasks@ == old(queue).tasks@,
        final(queue).version == old(queue).version,
{
    let mut i: usize = 0;
    while i < queue.tasks.len()
        invariant
            i <= queue.tasks.len(),
            queue.tasks@ == old(queue).tasks@,
            queue.version == old(queue).version,
            forall|j: int| 0 <= j < i ==> queue.tasks@[j].status != TaskStatus::Pending,
        decreases queue.tasks.len() - i,
    {
        if queue.tasks[i].status == TaskStatus::Pending {
            let mut t = queue.tasks[i].clone();
            t.mark_uploading_at(now);
            let claimed = t.clone();
            queue.tasks.set(i, t);
            proof {
                assert(first_pending(old(queue).tasks@, i as int));
                assert forall|k: int| first_pending(old(queue).tasks@, k) implies k == i by {
                    if k < i {
                        assert(old(queue).tasks@[k].status != TaskStatus::Pending);
                    }
                    if k > i {
                        assert(old(queue).tasks@[i as int].status == TaskStatus::Pending);
                    }
                }
            }
            return Some(claimed);
        }
        i += 1;
    }
    None
}

/// Claims the first pending task now (see `claim_next_pending_task_at`).
pub fn claim_next_pending_task(queue: &mut QueueData) -> (r: Option<UploadTask>)
    ensures
        forall|i: int|
            first_pending(old(queue).tasks@, i) ==> ({
                let now = final(queue).tasks@[i].updated_at;
                &&& final(queue).tasks@ == old(queue).tasks@.update(
                    i,
                    uploading_at(old(queue).tasks@[i], now),
                )
                &&& r == Some(uploading_at(old(queue).tasks@[i], now))
            }),
        (forall|j: int| 0 <= j < old(queue).tasks@.len() ==> old(queue).tasks@[j].status
            != TaskStatus::Pending) ==> r is None && final(queue).tasks@ == old(queue).tasks@,
        final(queue).version == old(queue).version,
{
    let now = crate::models::now_millis();
    let r = claim_next_pending_task_at(queue, now);
    proof {
        assert forall|i: int| first_pending(old(queue).tasks@, i) implies final(queue).tasks@[i].updated_at == now by {
            assert(final(queue).tasks@[i] == uploading_at(old(queue).tasks@[i], now));
        }
    }
    r
}

/// Claiming a task marks exactly that task as uploading: every other task
/// is unchanged, and the claimed one was the first pending task.
pub proof fn law_claim_takes_first_pending(old_tasks: Seq<UploadTask>, i: int, now: i64)
    requires
        first_pending(old_tasks, i),
    ensures
        ({
            let new_tasks = old_tasks.update(i, uploading_at(old_tasks[i], now));
            &&& new_tasks[i].status == TaskStatus::Uploading
            &&& new_tasks[i].id == old_tasks[i].id
            &&& forall|j: int| 0 <= j < old_tasks.len() && j != i ==> new_tasks[j] == old_tasks[j]
            &&& forall|j: int| 0 <= j < i ==> old_tasks[j].status != TaskStatus::Pending
        }),
{
}

// ---------------------------------------------------------------------------
// Recovery after an abnormal exit
// ---------------------------------------------------------------------------

/// The error that marks a task interrupted by an abnormal exit.
pub open spec fn interrupted_error() -> Seq<char> {
    "上传中断：应用异常退出，原上传进程已丢失，请点击重试重新上传"@
}

/// The number of uploading tasks in `s`.
pub open spec fn count_uploading(s: Seq<UploadTask>) -> nat {
    s.filter(|t: UploadTask| t.status == TaskStatus::Uploading).len()
}

/// Marks every task that was uploading when the application stopped as
/// failed with the interruption error (its upload process is gone), and
/// returns how many there were.
pub fn recover_interrupted_tasks(queue: &mut QueueData) -> (count: usize)
    ensures
        final(queue).tasks@.len() == old(queue).tasks@.len(),
        forall|i: int|
            0 <= i < old(queue).tasks@.len() ==> {
                let o = old(queue).tasks@[i];
                let t = #[trigger] final(queue).tasks@[i];
                if o.status == TaskStatus::Uploading {
                    &&& t.status == TaskStatus::Failed
                    &&& (t.error matches Some(e) && e@ == interrupted_error())
                    &&& t.progress == 0
                    &&& t == (UploadTask { status: TaskStatus::Failed, error: t.error, progress: 0, ..o })
                } else {
                    t == o
                }
            },
        count == count_uploading(old(queue).tasks@),
        final(queue).version == old(queue).version,
{
    let mut count: usize = 0;
    let mut i: usize = 0;
    while i < queue.tasks.len()
        invariant
            i <= queue.tasks.len(),
            queue.tasks@.len() == old(queue).tasks@.len(),
            queue.version == old(queue).version,
            forall|k: int| i <= k < queue.tasks@.len() ==> queue.tasks@[k] == old(queue).tasks@[k],
            forall|k: int|
                0 <= k < i ==> {
                    let o = old(queue).tasks@[k];
                    let t = #[trigger] queue.tasks@[k];
                    if o.status == TaskStatus::Uploading {
                        &&& t.status == TaskStatus::Failed
                        &&& (t.error matches Some(e) && e@ == interrupted_error())
                        &&& t.progress == 0
                        &&& t == (UploadTask { status: TaskStatus::Failed, error: t.error, progress: 0, ..o })
                    } else {
                        t == o
                    }
                },
            count == count_uploading(old(queue).tasks@.take(i as int)),
            count <= i,
        decreases queue.tasks.len() - i,
    {
        reveal_with_fuel(Seq::filter, 1);
        assert(old(queue).tasks@.take(i + 1).drop_last() =~= old(queue).tasks@.take(i as int));
        if queue.tasks[i].status == TaskStatus::Uploading {
            let mut t = queue.tasks[i].clone();
            t.status = TaskStatus::Failed;
            t.error = Some("上传中断：应用异常退出，原上传进程已丢失，请点击重试重新上传".to_owned());
            t.progress = 0;
            queue.tasks.set(i, t);
            count += 1;
        }
        i += 1;
    }
    assert(old(queue).tasks@.take(old(queue).tasks@.len() as int) =~= old(queue).tasks@);
    count
}

// ---------------------------------------------------------------------------
// User corrections
// ---------------------------------------------------------------------------

/// `t` as the user's retry leaves it: pending again, with no retries, no
/// error and no progress, stamped at `now`.
pub open spec fn reset_for_retry(t: UploadTask, now: i64) -> UploadTask {
    UploadTask {
        status: TaskStatus::Pending,
        retry_count: 0,
        error: None,
        progress: 0,
        updated_at: now,
        ..t
    }
}

/// Puts the first task with identifier `task_id` back to pending for a new
/// attempt; the queue is unchanged when there is none.
pub fn retry_upload_at(queue: &mut QueueData, task_id: &str, now: i64)
    ensures
        forall|i: int|
            first_with_id(old(queue).tasks@, task_id@, i) ==> final(queue).tasks@
                == old(queue).tasks@.update(i, reset_for_retry(old(queue).tasks@[i], now)),
        no_task_with_id(old(queue).tasks@, task_id@) ==> final(queue).tasks@ == old(queue).tasks@,
        final(queue).version == old(queue).version,
{
    match find_task_index(&queue.tasks, task_id) {
        Some(i) => {
            let mut t = queue.tasks[i].clone();
            t.status = TaskStatus::Pending;
            t.retry_count = 0;
            t.error = None;
            t.progress = 0;
            t.updated_at = now;
            queue.tasks.set(i, t);
        },
        None => {},
    }
}

/// The message for a history record that does not exist.
pub open spec fn missing_record_message(id: Seq<char>) -> Seq<char> {
    "历史记录不存在: "@ + id
}

/// Marks the first history record with identifier `task_id` as dealt with,
/// stamped at `now`; an error names the identifier when there is none.
pub fn resolve_history_task_at(history: &mut HistoryData, task_id: &str, now: i64) -> (r: Result<(), String>)
    ensures
        forall|i: int|
            first_with_id(old(history).records@, task_id@, i) ==> r is Ok && final(history).records@ == old(history).records@.update(
                i,
                UploadTask { resolved: true, updated_at: now, ..old(history).records@[i] },
            ),
        no_task_with_id(old(history).records@, task_id@) ==> final(history).records@ == old(history).records@ && (r matches Err(e) && e@ == missing_record_message(task_id@)),
        final(history).version == old(history).version,
{
    match find_task_index(&history.records, task_id) {
        Some(i) => {
            let mut t = history.records[i].clone();
            t.resolved = true;
            t.updated_at = now;
            history.records.set(i, t);
            Ok(())
        },
        None => {
            let mut e = "历史记录不存在: ".to_owned();
            push_str(&mut e, task_id);
            Err(e)
        },
    }
}

/// Removes the blocked-file record at `index`; nothing happens when there is
/// none.
pub fn remove_blocked_file(data: &mut BlockedFileData, index: usize)
    ensures
        index < old(data).records.len() ==> final(data).records@ == old(data).records@.remove(
            index as int,
        ),
        index >= old(data).records.len() ==> final(data).records@ == old(data).records@,
{
    if index < data.records.len() {
        data.records.remove(index);
    }
}

/// Marks the blocked-file record at `index` as dealt with; nothing happens
/// when there is none.
pub fn resolve_blocked_file(data: &mut BlockedFileData, index: usize)
    ensures
        final(data).records.len() == old(data).records.len(),
        forall|i: int|
            0 <= i < old(data).records.len() ==> (#[trigger] final(data).records@[i] == if i
                == index {
                crate::models::BlockedFileRecord { resolved: true, ..old(data).records@[i] }
            } else {
                old(data).records@[i]
            }),
{
    if index < data.records.len() {
        let r = &data.records[index];
        let updated = crate::models::BlockedFileRecord {
            file_path: r.file_path.clone(),
            file_name: r.file_name.clone(),
            file_size: r.file_size,
            reason: r.reason.clone(),
            blocked_at: r.blocked_at,
            target_path: r.target_path.clone(),
            resolved: true,
        };
        data.records.set(index, updated);
    }
}


// ---------------------------------------------------------------------------
// History
// ---------------------------------------------------------------------------

/// A day in milliseconds.
pub const DAY_MS: i64 = 86_400_000;

/// The earliest time chrono's `DateTime<Utc>` holds, in milliseconds
/// (-262143-01-01T00:00:00Z); going below it makes `DateTime - TimeDelta`
/// panic.
pub const MIN_DATETIME_MS: i64 = -8_334_601_315_200_000;

/// `r` and `t` upload the same local file to the same remote directory.
pub open spec fn same_target(r: UploadTask, t: UploadTask) -> bool {
    r.file.path@ == t.file.path@ && r.alist_path@ == t.alist_path@
}

/// The time a history record is aged by: its end, or its creation.
pub open spec fn record_time(r: UploadTask) -> i64 {
    match r.end_time {
        Some(e) => e,
        None => r.created_at,
    }
}

/// The oldest record time kept when records expire after `days` days.
pub open spec fn retention_cutoff(now: i64, days: u32) -> int {
    now - days * DAY_MS
}

/// The history after `task` is filed into `old`: `task` first, followed by
/// the earlier records except those for the same file and directory; unless
/// the history is kept for ever, records not newer than the cutoff go.
pub open spec fn filed_history(
    old: Seq<UploadTask>,
    task: UploadTask,
    never_clean: bool,
    retention_days: u32,
    now: i64,
) -> Seq<UploadTask> {
    let with = seq![task] + old.filter(|r: UploadTask| !same_target(r, task));
    if never_clean {
        with
    } else {
        with.filter(|r: UploadTask| record_time(r) > retention_cutoff(now, retention_days))
    }
}

fn same_target_exec(r: &UploadTask, path: &Vec<char>, dir: &Vec<char>) -> (b: bool)
    ensures
        b == (r.file.path@ == path@ && r.alist_path@ == dir@),
{
    let p = chars_of(r.file.path.as_str());
    let d = chars_of(r.alist_path.as_str());
    chars_eq(&p, path) && chars_eq(&d, dir)
}

/// Files a finished `task` into the history at `now` (see `filed_history`).
pub fn add_to_history(
    history: &mut HistoryData,
    task: UploadTask,
    never_clean: bool,
    retention_days: u32,
    now: i64,
)
    requires
        never_clean || retention_cutoff(now, retention_days) >= MIN_DATETIME_MS,
    ensures
        final(history).records@ == filed_history(
            old(history).records@,
            task,
            never_clean,
            retention_days,
            now,
        ),
        final(history).version == old(history).version,
{
    let path = chars_of(task.file.path.as_str());
    let dir = chars_of(task.alist_path.as_str());
    let ghost pred = |r: UploadTask| !same_target(r, task);
    let mut kept: Vec<UploadTask> = Vec::new();
    kept.push(task.clone());
    let mut i: usize = 0;
    while i < history.records.len()
        invariant
            i <= history.records.len(),
            history.records@ == old(history).records@,
            history.version == old(history).version,
            path@ == task.file.path@,
            dir@ == task.alist_path@,
            pred == (|r: UploadTask| !same_target(r, task)),
            kept@ == seq![task] + history.records@.take(i as int).filter(pred),
        decreases history.records.len() - i,
    {
        reveal_with_fuel(Seq::filter, 1);
        assert(history.records@.take(i + 1).drop_last() =~= history.records@.take(i as int));
        if !same_target_exec(&history.records[i], &path, &dir) {
            kept.push(history.records[i].clone());
        }
        i += 1;
    }
    assert(history.records@.take(history.records.len() as int) =~= history.records@);
    if never_clean {
        history.records = kept;
        return;
    }
    let cutoff: i64 = now - (retention_days as i64) * DAY_MS;
    let ghost keep = |r: UploadTask| record_time(r) > retention_cutoff(now, retention_days);
    let mut fresh: Vec<UploadTask> = Vec::new();
    let mut k: usize = 0;
    while k < kept.len()
        invariant
            k <= kept.len(),
            cutoff == retention_cutoff(now, retention_days),
            keep == (|r: UploadTask| record_time(r) > retention_cutoff(now, retention_days)),
            fresh@ == kept@.take(k as int).filter(keep),
        decreases kept.len() - k,
    {
        reveal_with_fuel(Seq::filter, 1);
        assert(kept@.take(k + 1).drop_last() =~= kept@.take(k as int));
        let t = match kept[k].end_time {
            Some(e) => e,
            None => kept[k].created_at,
        };
        if t > cutoff {
            fresh.push(kept[k].clone());
        }
        k += 1;
    }
    assert(kept@.take(kept.len() as int) =~= kept@);
    history.records = fresh;
}

/// Filing a task into a history that is kept for ever puts the task first
/// and leaves no other record for the same file and directory; the other
/// records keep their order.
pub proof fn law_history_replaces_same_target(old: Seq<UploadTask>, task: UploadTask, days: u32, now: i64)
    ensures
        ({
            let h = filed_history(old, task, true, days, now);
            &&& h[0] == task
            &&& forall|j: int| 1 <= j < h.len() ==> !same_target(#[trigger] h[j], task)
            &&& forall|j: int|
                0 <= j < old.len() && !same_target(old[j], task) ==> h.contains(#[trigger] old[j])
        }),
{
    let pred = |r: UploadTask| !same_target(r, task);
    let f = old.filter(pred);
    let h = seq![task] + f;
    f.filter_lemma(pred);
    assert forall|j: int| 1 <= j < h.len() implies !same_target(#[trigger] h[j], task) by {
        assert(h[j] == f[j - 1]);
        assert(f.contains(f[j - 1]));
    }
    assert forall|j: int| 0 <= j < old.len() && !same_target(old[j], task) implies h.contains(
        #[trigger] old[j],
    ) by {
        assert(old.contains(old[j]));
        assert(f.contains(old[j]));
        let k = choose|k: int| 0 <= k < f.len() && f[k] == old[j];
        assert(h[k + 1] == old[j]);
    }
}

/// Filing a task replaces the records for its file and directory, whether
/// or not the history is kept for ever: the only record left for them is
/// the task itself, first; every record is the task or an earlier one; the
/// task is first unless it is already past the retention cutoff; and every
/// earlier record for another file or directory that is not past the
/// cutoff stays.
pub proof fn law_filed_history_replaces_same_target(
    old: Seq<UploadTask>,
    task: UploadTask,
    never_clean: bool,
    days: u32,
    now: i64,
)
    ensures
        ({
            let h = filed_history(old, task, never_clean, days, now);
            let fresh = |r: UploadTask| never_clean || record_time(r) > retention_cutoff(now, days);
            &&& forall|j: int| 0 <= j < h.len() && same_target(#[trigger] h[j], task) ==> j == 0 && h[j] == task
            &&& forall|j: int| 0 <= j < h.len() ==> #[trigger] h[j] == task || old.contains(h[j])
            &&& forall|j: int| 0 <= j < h.len() ==> fresh(#[trigger] h[j])
            &&& fresh(task) ==> h.len() > 0 && h[0] == task
            &&& forall|j: int|
                0 <= j < old.len() && !same_target(old[j], task) && fresh(old[j]) ==> h.contains(#[trigger] old[j])
        }),
{
    let pred = |r: UploadTask| !same_target(r, task);
    let keep = |r: UploadTask| record_time(r) > retention_cutoff(now, days);
    let f = old.filter(pred);
    let with = seq![task] + f;
    f.filter_lemma(pred);
    old.filter_lemma(pred);
    let h = filed_history(old, task, never_clean, days, now);
    let fresh = |r: UploadTask| never_clean || record_time(r) > retention_cutoff(now, days);
    // The records of `with` after the first are earlier records for another
    // file or directory.
    assert forall|j: int| 1 <= j < with.len() implies !same_target(#[trigger] with[j], task) && old.contains(with[j]) by {
        assert(with[j] == f[j - 1]);
        assert(f.contains(f[j - 1]));
        old.lemma_filter_contains_rev(pred, f[j - 1]);
    }
    if never_clean {
        assert(h == with);
        assert forall|j: int| 0 <= j < old.len() && !same_target(old[j], task) && fresh(old[j]) implies h.contains(
            #[trigger] old[j],
        ) by {
            assert(old.contains(old[j]));
            assert(f.contains(old[j]));
            let k = choose|k: int| 0 <= k < f.len() && f[k] == old[j];
            assert(h[k + 1] == old[j]);
        }
    } else {
        assert(h == with.filter(keep));
        let head = seq![task];
        Seq::filter_distributes_over_add(head, f, keep);
        reveal_with_fuel(Seq::filter, 2);
        assert(head.drop_last() =~= Seq::<UploadTask>::empty());
        let g = f.filter(keep);
        f.filter_lemma(keep);
        with.filter_lemma(keep);
        assert forall|i: int| 0 <= i < g.len() implies !same_target(#[trigger] g[i], task) && old.contains(g[i]) by {
            assert(g.contains(g[i]));
            f.lemma_filter_contains_rev(keep, g[i]);
            let k = choose|k: int| 0 <= k < f.len() && f[k] == g[i];
            assert(with[k + 1] == f[k]);
        }
        if keep(task) {
            assert(head.filter(keep) =~= head);
            assert(h == head + g);
            assert forall|j: int| 0 <= j < h.len() && same_target(#[trigger] h[j], task) implies j == 0 && h[j] == task by {
                if j > 0 {
                    assert(h[j] == g[j - 1]);
                }
            }
            assert forall|j: int| 0 <= j < h.len() implies #[trigger] h[j] == task || old.contains(h[j]) by {
                if j > 0 {
                    assert(h[j] == g[j - 1]);
                }
            }
            assert forall|j: int| 0 <= j < old.len() && !same_target(old[j], task) && fresh(old[j]) implies h.contains(
                #[trigger] old[j],
            ) by {
                assert(old.contains(old[j]));
                assert(f.contains(old[j]));
                let k = choose|k: int| 0 <= k < f.len() && f[k] == old[j];
                assert(g.contains(f[k]));
                let m = choose|m: int| 0 <= m < g.len() && g[m] == f[k];
                assert(h[m + 1] == old[j]);
            }
        } else {
            assert(head.filter(keep) =~= Seq::<UploadTask>::empty());
            assert(h =~= g);
            assert forall|j: int| 0 <= j < old.len() && !same_target(old[j], task) && fresh(old[j]) implies h.contains(
                #[trigger] old[j],
            ) by {
                assert(old.contains(old[j]));
                assert(f.contains(old[j]));
                let k = choose|k: int| 0 <= k < f.len() && f[k] == old[j];
                assert(g.contains(f[k]));
            }
        }
    }
}

/// Removing a task leaves no task with its identifier, and keeps every
/// other task.
pub proof fn law_removed_task_is_gone(old: Seq<UploadTask>, id: Seq<char>)
    ensures
        no_task_with_id(without_id(old, id), id),
        forall|j: int| 0 <= j < old.len() && old[j].id@ != id ==> without_id(old, id).contains(#[trigger] old[j]),
{
    let pred = |t: UploadTask| t.id@ != id;
    old.filter_lemma(pred);
    assert forall|j: int| 0 <= j < without_id(old, id).len() implies without_id(old, id)[j].id@ != id by {
        assert(without_id(old, id).contains(without_id(old, id)[j]));
    }
    assert forall|j: int| 0 <= j < old.len() && old[j].id@ != id implies without_id(old, id).contains(#[trigger] old[j]) by {
        assert(old.contains(old[j]));
    }
}

} // verus!
