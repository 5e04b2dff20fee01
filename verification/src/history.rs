//! Browsing the upload history: filtering by outcome, searching by file
//! name, ordering by time and cutting into pages.
use vstd::prelude::*;
use crate::models::{HistoryPage, TaskStatus, UploadTask};
use crate::paths::trim_white;
use crate::queue::record_time;
use crate::text::{chars_of, contains_chars, contains_seq, lowercase, str_eq, string_of, to_lowercase, trim_both, Strip};

verus! {

/// `t` passes the outcome filter: none, "all", or the matching outcome.
pub open spec fn passes_status_filter(t: UploadTask, filter: Option<Seq<char>>) -> bool {
    match filter {
        None => true,
        Some(f) => {
            ||| f == "all"@
            ||| f == "completed"@ && t.status == TaskStatus::Completed
            ||| f == "failed"@ && t.status == TaskStatus::Failed
        },
    }
}

/// The text searched for: the trimmed, lower-cased search text.
pub open spec fn search_key(text: Option<Seq<char>>) -> Seq<char> {
    match text {
        None => Seq::empty(),
        Some(s) => lowercase(trim_white(s)),
    }
}

/// `t` passes the search: the search is empty, or the lower-cased file name
/// contains it.
pub open spec fn passes_search(t: UploadTask, text: Option<Seq<char>>) -> bool {
    search_key(text).len() == 0 || contains_seq(lowercase(t.file.name@), search_key(text))
}

/// The test a record must pass to be listed.
pub open spec fn listed(filter: Option<Seq<char>>, text: Option<Seq<char>>) -> spec_fn(UploadTask) -> bool {
    |t: UploadTask| passes_status_filter(t, filter) && passes_search(t, text)
}

/// The records that pass both the outcome filter and the search, in their
/// stored order.
pub open spec fn selected_records(
    records: Seq<UploadTask>,
    filter: Option<Seq<char>>,
    text: Option<Seq<char>>,
) -> Seq<UploadTask> {
    records.filter(listed(filter, text))
}

/// The search ignores letter case and surrounding blanks: a record is
/// listed for the search text `s` exactly when it passes the outcome filter
/// and its lower-cased file name contains the trimmed, lower-cased `s` (or
/// that is empty).
pub proof fn law_search_ignores_case(records: Seq<UploadTask>, filter: Option<Seq<char>>, s: Seq<char>)
    ensures
        forall|i: int|
            0 <= i < records.len() ==> (selected_records(records, filter, Some(s)).contains(#[trigger] records[i])
                <==> passes_status_filter(records[i], filter) && (lowercase(trim_white(s)).len() == 0
                || contains_seq(lowercase(records[i].file.name@), lowercase(trim_white(s))))),
{
    let pred = listed(filter, Some(s));
    records.filter_lemma(pred);
    assert forall|i: int| 0 <= i < records.len() implies (selected_records(records, filter, Some(s)).contains(
        #[trigger] records[i],
    ) <==> passes_status_filter(records[i], filter) && (lowercase(trim_white(s)).len() == 0 || contains_seq(
        lowercase(records[i].file.name@),
        lowercase(trim_white(s)),
    ))) by {
        let sel = records.filter(pred);
        if sel.contains(records[i]) {
            let k = choose|k: int| 0 <= k < sel.len() && sel[k] == records[i];
            assert(pred(sel[k]));
        }
    }
}

/// The characters of an optional string.
pub open spec fn opt_chars(o: Option<String>) -> Option<Seq<char>> {
    match o {
        Some(s) => Some(s@),
        None => None,
    }
}

/// Time `a` may come before time `b`: oldest first when ascending, newest
/// first otherwise.
pub open spec fn in_time_order(a: i64, b: i64, ascending: bool) -> bool {
    if ascending {
        a <= b
    } else {
        a >= b
    }
}

/// `p` shows `r` to be `s` stably sorted by record time: `r[i]` is
/// `s[p[i]]`, `p` picks each position of `s` once, times follow the order,
/// and records with equal times keep their order in `s`.
pub open spec fn sort_witness(r: Seq<UploadTask>, s: Seq<UploadTask>, ascending: bool, p: Seq<int>) -> bool {
    &&& r.len() == s.len()
    &&& p.len() == s.len()
    &&& forall|i: int| 0 <= i < p.len() ==> 0 <= #[trigger] p[i] < s.len() && r[i] == s[p[i]]
    &&& forall|i: int, j: int| 0 <= i < j < p.len() ==> #[trigger] p[i] != #[trigger] p[j]
    &&& forall|i: int, j: int|
        0 <= i < j < r.len() ==> in_time_order(record_time(#[trigger] r[i]), record_time(#[trigger] r[j]), ascending)
            && (record_time(r[i]) == record_time(r[j]) ==> p[i] < p[j])
}

/// `r` is `s` stably sorted by record time in the given direction.
pub open spec fn stably_sorted(r: Seq<UploadTask>, s: Seq<UploadTask>, ascending: bool) -> bool {
    exists|p: Seq<int>| sort_witness(r, s, ascending, p)
}

/// The records of page `page` (counted from 1; 0 is taken as 1) when pages
/// hold `page_size` records.
pub open spec fn page_of(s: Seq<UploadTask>, page: int, page_size: int) -> Seq<UploadTask> {
    let start = if page <= 1 { 0 } else { (page - 1) * page_size };
    let lo = if start < s.len() { start } else { s.len() as int };
    let hi = if start + page_size < s.len() { start + page_size } else { s.len() as int };
    s.subrange(lo, hi)
}

/// The page size used: the one asked for, and at least one.
pub open spec fn effective_page_size(page_size: usize) -> int {
    if page_size == 0 {
        1
    } else {
        page_size as int
    }
}

/// The number of pages of `page_size` records that `total` records fill.
pub open spec fn page_count(total: int, page_size: int) -> int {
    total / page_size + if total % page_size == 0 { 0int } else { 1int }
}

/// Paging loses no record: with pages of `page_size` records, the record at
/// position `k` of the ordered selection is at position `k % page_size` of
/// page `k / page_size + 1`, and that page is within the page count.
pub proof fn law_every_record_on_its_page(s: Seq<UploadTask>, page_size: int, k: int)
    requires
        page_size >= 1,
        0 <= k < s.len(),
    ensures
        1 <= k / page_size + 1 <= page_count(s.len() as int, page_size),
        page_of(s, k / page_size + 1, page_size).len() > k % page_size,
        page_of(s, k / page_size + 1, page_size)[k % page_size] == s[k],
{
    let q = k / page_size;
    let r = k % page_size;
    let n = s.len() as int;
    assert(k == q * page_size + r && 0 <= r < page_size) by (nonlinear_arith)
        requires
            page_size >= 1,
            q == k / page_size,
            r == k % page_size,
    ;
    assert(q >= 0) by (nonlinear_arith)
        requires
            page_size >= 1,
            k >= 0,
            q == k / page_size,
    ;
    assert(q * page_size <= k) by (nonlinear_arith)
        requires
            k == q * page_size + r,
            r >= 0,
    ;
    assert(q + 1 <= page_count(n, page_size)) by (nonlinear_arith)
        requires
            page_size >= 1,
            0 <= k < n,
            q == k / page_size,
            page_count(n, page_size) == n / page_size + if n % page_size == 0 { 0int } else { 1int },
    ;
    let start = if q + 1 <= 1 { 0 } else { q * page_size };
    assert(start == q * page_size) by (nonlinear_arith)
        requires
            q >= 0,
            start == if q + 1 <= 1 { 0 } else { q * page_size },
    ;
}

fn record_time_of(t: &UploadTask) -> (r: i64)
    ensures
        r == record_time(*t),
{
    match t.end_time {
        Some(e) => e,
        None => t.created_at,
    }
}

fn status_filter_passes(t: &UploadTask, filter: &Option<String>) -> (b: bool)
    ensures
        b == passes_status_filter(*t, opt_chars(*filter)),
{
    match filter {
        None => true,
        Some(f) => {
            str_eq(f.as_str(), "all") || (str_eq(f.as_str(), "completed") && t.status == TaskStatus::Completed) || (
            str_eq(f.as_str(), "failed") && t.status == TaskStatus::Failed)
        },
    }
}

/// The records that pass the outcome filter and the search, in stored order.
pub fn select_records(records: &Vec<UploadTask>, status_filter: &Option<String>, search_text: &Option<String>) -> (r:
    Vec<UploadTask>)
    ensures
        r@ == selected_records(records@, opt_chars(*status_filter), opt_chars(*search_text)),
{
    let ghost filter = opt_chars(*status_filter);
    let ghost text = opt_chars(*search_text);
    let ghost pred = listed(filter, text);
    let key: Vec<char> = match search_text {
        Some(s) => {
            let v = chars_of(s.as_str());
            let trimmed = trim_both(&v, &Strip::WhiteSpace);
            let ts = string_of(&trimmed);
            let low = to_lowercase(ts.as_str());
            chars_of(low.as_str())
        },
        None => Vec::new(),
    };
    assert(key@ == search_key(text));
    let mut out: Vec<UploadTask> = Vec::new();
    let mut i: usize = 0;
    while i < records.len()
        invariant
            i <= records.len(),
            key@ == search_key(text),
            pred == listed(filter, text),
            filter == opt_chars(*status_filter),
            out@ == records@.take(i as int).filter(pred),
        decreases records.len() - i,
    {
        let t = &records[i];
        let mut keep = status_filter_passes(t, status_filter);
        if keep && key.len() > 0 {
            let low = to_lowercase(t.file.name.as_str());
            let lv = chars_of(low.as_str());
            keep = contains_chars(&lv, &key);
        }
        proof {
            reveal(Seq::filter);
            assert(records@.take(i + 1).drop_last() =~= records@.take(i as int));
            assert(keep == pred(records@[i as int]));
        }
        if keep {
            out.push(t.clone());
        }
        i += 1;
    }
    assert(records@.take(records.len() as int) =~= records@);
    out
}

/// The first position of `r` whose time must come after `kt`; every record
/// before it may come before `kt`.
fn insert_position(r: &Vec<UploadTask>, kt: i64, ascending: bool) -> (pos: usize)
    ensures
        pos <= r.len(),
        forall|j: int| 0 <= j < pos ==> in_time_order(record_time(#[trigger] r@[j]), kt, ascending),
        pos < r.len() ==> !in_time_order(record_time(r@[pos as int]), kt, ascending),
{
    let mut j: usize = 0;
    while j < r.len()
        invariant
            j <= r.len(),
            forall|m: int| 0 <= m < j ==> in_time_order(record_time(#[trigger] r@[m]), kt, ascending),
        decreases r.len() - j,
    {
        let tj = record_time_of(&r[j]);
        let ok = if ascending {
            tj <= kt
        } else {
            tj >= kt
        };
        if !ok {
            return j;
        }
        j += 1;
    }
    j
}

/// `s` stably sorted by record time: oldest first when `ascending`, newest
/// first otherwise; records with equal times keep their order.
pub fn sort_by_time(s: &Vec<UploadTask>, ascending: bool) -> (r: Vec<UploadTask>)
    ensures
        stably_sorted(r@, s@, ascending),
{
    let mut r: Vec<UploadTask> = Vec::new();
    let ghost mut p: Seq<int> = Seq::empty();
    let mut i: usize = 0;
    while i < s.len()
        invariant
            i <= s.len(),
            sort_witness(r@, s@.take(i as int), ascending, p),
        decreases s.len() - i,
    {
        let t = s[i].clone();
        let kt = record_time_of(&t);
        let pos = insert_position(&r, kt, ascending);
        let ghost old_r = r@;
        let ghost old_p = p;
        r.insert(pos, t);
        proof {
            p = old_p.insert(pos as int, i as int);
            let si = s@.take(i + 1);
            assert(s@.take(i as int) =~= si.take(i as int));
            assert forall|a: int| 0 <= a < p.len() implies 0 <= #[trigger] p[a] < si.len() && r@[a] == si[p[a]] by {
                if a < pos {
                    assert(p[a] == old_p[a]);
                } else if a > pos {
                    assert(p[a] == old_p[a - 1]);
                }
            }
            assert forall|a: int, b: int| 0 <= a < b < p.len() implies #[trigger] p[a] != #[trigger] p[b] by {
                if a < pos && b > pos {
                    assert(old_p[a] != old_p[b - 1]);
                } else if a > pos {
                    assert(old_p[a - 1] != old_p[b - 1]);
                } else if b < pos {
                    assert(old_p[a] != old_p[b]);
                }
            }
            assert forall|a: int, b: int| 0 <= a < b < r@.len() implies in_time_order(
                record_time(#[trigger] r@[a]),
                record_time(#[trigger] r@[b]),
                ascending,
            ) && (record_time(r@[a]) == record_time(r@[b]) ==> p[a] < p[b]) by {
                if a == pos {
                    let nb = old_r[b - 1];
                    assert(in_time_order(record_time(old_r[pos as int]), record_time(nb), ascending)
                        || b - 1 == pos);
                } else if b == pos {
                    assert(in_time_order(record_time(old_r[a]), kt, ascending));
                } else if a < pos && b > pos {
                    assert(r@[a] == old_r[a] && r@[b] == old_r[b - 1]);
                } else if a > pos {
                    assert(r@[a] == old_r[a - 1] && r@[b] == old_r[b - 1]);
                } else {
                    assert(r@[a] == old_r[a] && r@[b] == old_r[b]);
                }
            }
        }
        i += 1;
    }
    assert(s@.take(s.len() as int) =~= s@);
    r
}

/// One page of the history: the records that pass the outcome filter
/// (`"all"`, `"completed"`, `"failed"`) and the case-insensitive file-name
/// search, newest first unless `sort_order` is `"asc"`, cut into pages of
/// `page_size` records (at least one); `page` counts from 1.
pub fn get_history_page(
    records: &Vec<UploadTask>,
    page: usize,
    page_size: usize,
    status_filter: Option<String>,
    search_text: Option<String>,
    sort_order: Option<String>,
) -> (r: HistoryPage)
    ensures
        ({
            let sel = selected_records(records@, opt_chars(status_filter), opt_chars(search_text));
            let ascending = match sort_order {
                Some(o) => o@ == "asc"@,
                None => false,
            };
            let ps = effective_page_size(page_size);
            exists|sorted: Seq<UploadTask>|
                {
                    &&& stably_sorted(sorted, sel, ascending)
                    &&& #[trigger] page_of(sorted, page as int, ps) == r.tasks@
                }
                && r.total == sel.len()
                && r.page == page
                && r.page_size == ps
                && r.total_pages == page_count(sel.len() as int, ps)
        }),
{
    let selected = select_records(records, &status_filter, &search_text);
    let ascending = match &sort_order {
        Some(o) => str_eq(o.as_str(), "asc"),
        None => false,
    };
    let sorted = sort_by_time(&selected, ascending);
    let total = sorted.len();
    proof {
        let w = choose|w: Seq<int>| sort_witness(sorted@, selected@, ascending, w);
        assert(total == selected@.len());
    }
    let ps: usize = if page_size == 0 {
        1
    } else {
        page_size
    };
    assert(total % ps != 0 ==> total / ps < total) by (nonlinear_arith)
        requires
            ps >= 1,
    ;
    let total_pages = total / ps + if total % ps == 0 {
        0
    } else {
        1
    };
    let first: usize = if page <= 1 {
        0
    } else {
        page - 1
    };
    let mut tasks: Vec<UploadTask> = Vec::new();
    let (lo, hi) = match first.checked_mul(ps) {
        Some(start) => {
            let lo = if start < total {
                start
            } else {
                total
            };
            let hi = if ps < total - lo {
                lo + ps
            } else {
                total
            };
            (lo, hi)
        },
        None => (total, total),
    };
    let mut i = lo;
    while i < hi
        invariant
            lo <= i <= hi <= sorted.len(),
            tasks@ == sorted@.subrange(lo as int, i as int),
        decreases hi - i,
    {
        tasks.push(sorted[i].clone());
        i += 1;
        assert(tasks@ =~= sorted@.subrange(lo as int, i as int));
    }
    let out = HistoryPage { tasks, total, page, page_size: ps, total_pages };
    assert(page_of(sorted@, page as int, effective_page_size(page_size)) == out.tasks@);
    assert(stably_sorted(sorted@, selected@, ascending));
    out
}

} // verus!
