use openlist_uploader::history::get_history_page;
use openlist_uploader::logging::{daily_log_file_name, log_debug, log_error, log_info, log_line, log_request, log_warn};
use openlist_uploader::models::{TaskStatus, UploadTask};
use openlist_uploader::redact::{is_cjk, LogRedactor};

fn record(id: &str, name: &str, status: TaskStatus, created: i64, end: Option<i64>) -> UploadTask {
    let mut t = UploadTask::new_with_id(format!("/x/{}", name), "/d".to_string(), id.to_string(), created);
    t.status = status;
    t.end_time = end;
    t
}

fn sample_history() -> Vec<UploadTask> {
    vec![
        record("a", "Alpha.mp4", TaskStatus::Completed, 10, Some(100)),
        record("b", "beta.txt", TaskStatus::Failed, 20, None),
        record("c", "ALPHA-2.mp4", TaskStatus::Completed, 30, Some(100)),
        record("d", "gamma.bin", TaskStatus::Completed, 40, Some(300)),
    ]
}

fn ids(p: &[UploadTask]) -> Vec<String> {
    p.iter().map(|t| t.id.clone()).collect()
}

#[test]
fn history_page_newest_first_and_stable() {
    let page = get_history_page(&sample_history(), 1, 10, None, None, None);
    assert_eq!(ids(&page.tasks), vec!["d", "a", "c", "b"]);
    assert_eq!(page.total, 4);
    assert_eq!(page.total_pages, 1);
}

#[test]
fn history_page_ascending() {
    let page = get_history_page(&sample_history(), 1, 10, None, None, Some("asc".to_string()));
    assert_eq!(ids(&page.tasks), vec!["b", "a", "c", "d"]);
}

#[test]
fn history_page_filters_and_searches() {
    let failed = get_history_page(&sample_history(), 1, 10, Some("failed".to_string()), None, None);
    assert_eq!(ids(&failed.tasks), vec!["b"]);
    let all = get_history_page(&sample_history(), 1, 10, Some("all".to_string()), None, None);
    assert_eq!(all.total, 4);
    let unknown = get_history_page(&sample_history(), 1, 10, Some("weird".to_string()), None, None);
    assert_eq!(unknown.total, 0);
    let search = get_history_page(&sample_history(), 1, 10, Some("completed".to_string()), Some("  alpha ".to_string()), None);
    assert_eq!(ids(&search.tasks), vec!["a", "c"]);
}

#[test]
fn history_page_cuts_pages() {
    let p2 = get_history_page(&sample_history(), 2, 3, None, None, None);
    assert_eq!(ids(&p2.tasks), vec!["b"]);
    assert_eq!(p2.total_pages, 2);
    assert_eq!(p2.page_size, 3);
    let p0 = get_history_page(&sample_history(), 0, 0, None, None, None);
    assert_eq!(p0.page_size, 1);
    assert_eq!(ids(&p0.tasks), vec!["d"]);
    assert_eq!(p0.total_pages, 4);
    let far = get_history_page(&sample_history(), 9, 3, None, None, None);
    assert!(far.tasks.is_empty());
}

#[test]
fn redactor_numbers_names_in_order() {
    let mut r = LogRedactor::new();
    let a = r.redact_line("上传: file=movie.mp4, size=12");
    assert_eq!(a, "上传: file=[N1], size=12");
    let b = r.redact_line("target=/115/movies, file=movie.mp4");
    assert_eq!(b, "target=[N2], file=[N1]");
}

#[test]
fn redactor_keeps_numbers_and_empty_values() {
    let mut r = LogRedactor::new();
    assert_eq!(r.redact_line("file=12345, file=, x=1"), "file=12345, file=, x=1");
}

#[test]
fn redactor_replaces_long_cjk_runs() {
    let mut r = LogRedactor::new();
    assert_eq!(r.redact_line("错误: 这是一个很长的中文文件名称"), "错误: [N1]");
    assert_eq!(r.redact_line("错误 这是一个很长的中文文件名称"), "[N2]");
    assert_eq!(r.redact_line("上传成功"), "上传成功");
    assert_eq!(r.redact_line("短句"), "短句");
}

#[test]
fn redactor_keeps_whitelisted_runs() {
    let mut r = LogRedactor::new();
    let line = "达到最大重试次数，已标记为失败";
    assert_eq!(r.redact_line(line), line);
}

#[test]
fn placeholders_stay_the_same() {
    let mut r = LogRedactor::new();
    let p1 = r.placeholder_for("a.txt");
    let p2 = r.placeholder_for("b.txt");
    let p3 = r.placeholder_for("a.txt");
    assert_eq!(p1, "[N1]");
    assert_eq!(p2, "[N2]");
    assert_eq!(p3, "[N1]");
}

#[test]
fn cjk_ranges() {
    assert!(is_cjk('中'));
    assert!(is_cjk('，'));
    assert!(is_cjk('【'));
    assert!(!is_cjk('a'));
    assert!(!is_cjk('·'));
}

#[test]
fn log_texts() {
    assert_eq!(log_error("save", "disk full"), "ERROR: save - disk full");
    assert_eq!(log_debug("x"), "DEBUG: x");
    assert_eq!(log_info("x"), "INFO: x");
    assert_eq!(log_warn("x"), "WARN: x");
    assert_eq!(log_request("GET", "/api", 200, 15), "REQUEST: GET /api -> 200 (15ms)");
    assert_eq!(log_line("2024-01-01T00:00:00+08:00", "hi"), "[2024-01-01T00:00:00+08:00] hi");
    assert_eq!(daily_log_file_name("2024-01-01"), "alist-2024-01-01.log");
}

#[test]
fn history_pages_together_hold_every_record() {
    let all = ids(&get_history_page(&sample_history(), 1, 10, None, None, None).tasks);
    for size in 1..=4usize {
        let first = get_history_page(&sample_history(), 1, size, None, None, None);
        let mut joined = Vec::new();
        for page in 1..=first.total_pages {
            joined.extend(ids(&get_history_page(&sample_history(), page, size, None, None, None).tasks));
        }
        assert_eq!(joined, all);
    }
}

#[test]
fn a_name_keeps_its_number_whichever_key_it_follows() {
    let mut r = LogRedactor::new();
    assert_eq!(r.redact_line("file=abc"), "file=[N1]");
    assert_eq!(r.redact_line("folder_target=abc"), "folder_target=[N1]");
    assert_eq!(r.redact_line("folder_target=xyz"), "folder_target=[N2]");
    assert_eq!(r.redact_line("target=xyz, file=abc"), "target=[N2], file=[N1]");
    assert_eq!(r.redact_line("file=[N7]"), "file=[N7]");
}

#[test]
fn whole_texts_are_redacted_line_by_line() {
    let mut r = LogRedactor::new();
    assert_eq!(r.redact_text("file=a\r\nfile=b\n\nfile=a"), "file=[N1]\nfile=[N2]\n\nfile=[N1]\n");
    assert_eq!(r.redact_text(""), "");
    assert_eq!(r.redact_text("\n"), "\n");
    assert_eq!(r.redact_text("x\r"), "x\r\n");
}
