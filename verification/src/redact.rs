//! Redacting log lines before they leave the machine: file names and paths
//! become numbered placeholders, and the same name always gets the same
//! number for as long as one redactor is used.
use vstd::prelude::*;
use crate::text::{chars_of, contains_seq, decimal, find_from, lemma_decimal_injective, lemma_decimal_len, occurs_at, push_chars, push_decimal, push_str, slice_vec, str_contains, string_of};

verus! {

// ---------------------------------------------------------------------------
// Searching
// ---------------------------------------------------------------------------

/// The first index at or after `from` where `n` occurs in `h` (`str::find`).
pub open spec fn find_seq(h: Seq<char>, n: Seq<char>, from: int) -> Option<int>
    decreases h.len() + 1 - from,
{
    if from < 0 || from > h.len() {
        None
    } else if occurs_at(h, n, from) {
        Some(from)
    } else {
        find_seq(h, n, from + 1)
    }
}

pub proof fn lemma_find_seq_some(h: Seq<char>, n: Seq<char>, from: int)
    ensures
        find_seq(h, n, from) matches Some(i) ==> from <= i && occurs_at(h, n, i),
    decreases h.len() + 1 - from,
{
    if 0 <= from <= h.len() && !occurs_at(h, n, from) {
        lemma_find_seq_some(h, n, from + 1);
    }
}

proof fn lemma_find_seq_first(h: Seq<char>, n: Seq<char>, from: int, i: int)
    requires
        0 <= from <= i,
        occurs_at(h, n, i),
        forall|j: int| from <= j < i ==> !occurs_at(h, n, j),
    ensures
        find_seq(h, n, from) == Some(i),
    decreases i - from,
{
    if from < i {
        lemma_find_seq_first(h, n, from + 1, i);
    }
}

proof fn lemma_find_seq_none(h: Seq<char>, n: Seq<char>, from: int)
    requires
        0 <= from,
        forall|j: int| from <= j ==> !occurs_at(h, n, j),
    ensures
        find_seq(h, n, from) is None,
    decreases h.len() + 1 - from,
{
    if from <= h.len() {
        lemma_find_seq_none(h, n, from + 1);
    }
}

/// The first index at or after `from` where `n` occurs in `h`.
pub(crate) fn find_chars(h: &Vec<char>, n: &Vec<char>, from: usize) -> (r: Option<usize>)
    ensures
        r matches Some(i) ==> find_seq(h@, n@, from as int) == Some(i as int),
        r is None ==> find_seq(h@, n@, from as int) is None,
{
    let r = find_from(h, n, from);
    proof {
        match r {
            Some(i) => lemma_find_seq_first(h@, n@, from as int, i as int),
            None => lemma_find_seq_none(h@, n@, from as int),
        }
    }
    r
}

// ---------------------------------------------------------------------------
// Placeholders
// ---------------------------------------------------------------------------

/// The placeholder with number `n`: "[N" n "]".
pub open spec fn placeholder_text(n: nat) -> Seq<char> {
    seq!['[', 'N'] + decimal(n) + seq![']']
}

/// The names known after `raw` has been looked up: `raw` joins at the end
/// when it is new.
pub open spec fn named(names: Seq<Seq<char>>, raw: Seq<char>) -> Seq<Seq<char>> {
    if names.contains(raw) {
        names
    } else {
        names.push(raw)
    }
}

/// The placeholder of `raw` once it is named: numbered by its position among
/// the names, from 1.
pub open spec fn placeholder_of(names: Seq<Seq<char>>, raw: Seq<char>) -> Seq<char> {
    placeholder_text((named(names, raw).index_of(raw) + 1) as nat)
}

/// Replaces file names and paths in log lines by numbered placeholders.
pub struct LogRedactor {
    /// Every name replaced so far, in the order first met; name `k` has
    /// placeholder number `k + 1`.
    names: Vec<String>,
    /// How many placeholders have been handed out.
    counter: usize,
}

impl View for LogRedactor {
    type V = Seq<Seq<char>>;

    /// The names replaced so far, in the order first met.
    closed spec fn view(&self) -> Seq<Seq<char>> {
        self.names@.map_values(|s: String| s@)
    }
}

impl LogRedactor {
    /// The counter matches the names, and no name is stored twice.
    pub closed spec fn wf(&self) -> bool {
        &&& self.counter == self.names.len()
        &&& self@.no_duplicates()
    }

    /// A redactor that has replaced nothing yet.
    pub fn new() -> (r: Self)
        ensures
            r.wf(),
            r@ == Seq::<Seq<char>>::empty(),
    {
        let r = LogRedactor { names: Vec::new(), counter: 0 };
        assert(r@ =~= Seq::<Seq<char>>::empty());
        r
    }

    /// The placeholder for `raw`: the one it already has, or the next
    /// number when it is new.
    pub fn placeholder_for(&mut self, raw: &str) -> (p: String)
        requires
            old(self).wf(),
        ensures
            final(self).wf(),
            final(self)@ == named(old(self)@, raw@),
            p@ == placeholder_of(old(self)@, raw@),
    {
        let ghost names = self@;
        let mut k: usize = 0;
        while k < self.names.len()
            invariant
                k <= self.names.len(),
                self.wf(),
                self@ == names,
                forall|j: int| 0 <= j < k ==> names[j] != raw@,
            decreases self.names.len() - k,
        {
            if crate::text::str_eq(self.names[k].as_str(), raw) {
                let mut p = String::new();
                p.push('[');
                p.push('N');
                push_decimal(&mut p, k as u128 + 1);
                p.push(']');
                proof {
                    assert(names[k as int] == raw@);
                    assert(names.contains(raw@));
                    assert(names.index_of(raw@) == k);
                    assert(p@ =~= placeholder_text((k + 1) as nat));
                }
                return p;
            }
            k += 1;
        }
        proof {
            assert(!names.contains(raw@));
        }
        self.names.push(string_of(&chars_of(raw)));
        self.counter = self.names.len();
        let mut p = String::new();
        p.push('[');
        p.push('N');
        push_decimal(&mut p, self.counter as u128);
        p.push(']');
        proof {
            let nn = names.push(raw@);
            assert(self@ =~= nn);
            assert(nn[names.len() as int] == raw@);
            assert(nn.index_of(raw@) == names.len());
            assert(p@ =~= placeholder_text((names.len() + 1) as nat));
        }
        p
    }
}

// ---------------------------------------------------------------------------
// key=value fields
// ---------------------------------------------------------------------------

/// Every character of `s` is an ASCII digit.
pub open spec fn all_ascii_digits(s: Seq<char>) -> bool {
    forall|i: int| 0 <= i < s.len() ==> '0' <= #[trigger] s[i] <= '9'
}

/// `s` is written like a placeholder: "[N", digits, "]".
pub open spec fn placeholder_form(s: Seq<char>) -> bool {
    &&& s.len() >= 4
    &&& s[0] == '['
    &&& s[1] == 'N'
    &&& s.last() == ']'
    &&& all_ascii_digits(s.subrange(2, s.len() - 1))
}

/// A value left as it is: empty, all digits, or already a placeholder.
pub open spec fn kept_value(raw: Seq<char>) -> bool {
    raw.len() == 0 || all_ascii_digits(raw) || placeholder_form(raw)
}

/// Decimal notation is made of digits.
pub proof fn lemma_decimal_digits(n: nat)
    ensures
        all_ascii_digits(decimal(n)),
    decreases n,
{
    if n >= 10 {
        lemma_decimal_digits(n / 10);
        let d = decimal(n / 10);
        let e = d.push(crate::text::digit_char(n % 10));
        assert forall|i: int| 0 <= i < e.len() implies '0' <= #[trigger] e[i] <= '9' by {
            if i < d.len() {
                assert(e[i] == d[i]);
            }
        }
    }
}

/// Every placeholder handed out is written like one.
pub proof fn lemma_placeholder_form(n: nat)
    ensures
        placeholder_form(placeholder_text(n)),
{
    lemma_decimal_len(n);
    lemma_decimal_digits(n);
    let p = placeholder_text(n);
    assert(p.subrange(2, p.len() - 1) =~= decimal(n));
}

/// Where the value that starts at `vs` ends: at the next ", ", or at the end.
pub open spec fn value_end(rest: Seq<char>, vs: int) -> int {
    match find_seq(rest.skip(vs), seq![',', ' '], 0) {
        Some(i) => vs + i,
        None => rest.len() as int,
    }
}

pub proof fn lemma_value_end(rest: Seq<char>, vs: int)
    requires
        0 <= vs <= rest.len(),
    ensures
        vs <= value_end(rest, vs) <= rest.len(),
{
    lemma_find_seq_some(rest.skip(vs), seq![',', ' '], 0);
}

/// `rest` with the value after each occurrence of `key` replaced by its
/// placeholder, unless it is kept (empty, all digits, or already a
/// placeholder: a key such as "target=" also occurs inside
/// "folder_target=", and a name keeps the one number it got); and the
/// names known afterwards.
pub open spec fn kv_redact(names: Seq<Seq<char>>, rest: Seq<char>, key: Seq<char>) -> (Seq<char>, Seq<Seq<char>>)
    decreases rest.len(),
{
    if key.len() == 0 {
        (rest, names)
    } else {
        match find_seq(rest, key, 0) {
            None => (rest, names),
            Some(pos) => {
                proof {
                    lemma_find_seq_some(rest, key, 0);
                    lemma_value_end(rest, pos + key.len());
                }
                let vs = pos + key.len();
                let end = value_end(rest, vs);
                let raw = rest.subrange(vs, end);
                if kept_value(raw) {
                    let tail = kv_redact(names, rest.skip(end), key);
                    (rest.take(end) + tail.0, tail.1)
                } else {
                    let tail = kv_redact(named(names, raw), rest.skip(end), key);
                    (rest.take(vs) + placeholder_of(names, raw) + tail.0, tail.1)
                }
            },
        }
    }
}

fn all_digits(v: &Vec<char>) -> (b: bool)
    ensures
        b == all_ascii_digits(v@),
{
    let mut i: usize = 0;
    while i < v.len()
        invariant
            i <= v.len(),
            forall|j: int| 0 <= j < i ==> '0' <= #[trigger] v@[j] <= '9',
        decreases v.len() - i,
    {
        if !('0' <= v[i] && v[i] <= '9') {
            return false;
        }
        i += 1;
    }
    true
}

fn is_placeholder_form(v: &Vec<char>) -> (b: bool)
    ensures
        b == placeholder_form(v@),
{
    if v.len() < 4 || v[0] != '[' || v[1] != 'N' || v[v.len() - 1] != ']' {
        return false;
    }
    let mid = slice_vec(v, 2, v.len() - 1);
    assert(mid@ =~= v@.subrange(2, v@.len() - 1));
    all_digits(&mid)
}

/// Redacts the values of `key` in `line` (see `kv_redact`).
pub fn redact_kv(r: &mut LogRedactor, line: &str, key: &str) -> (out: String)
    requires
        old(r).wf(),
        key@.len() > 0,
    ensures
        final(r).wf(),
        (out@, final(r)@) == kv_redact(old(r)@, line@, key@),
        extends_names(old(r)@, final(r)@),
        forall|raw: Seq<char>|
            old(r)@.contains(raw) ==> #[trigger] placeholder_of(final(r)@, raw) == placeholder_of(old(r)@, raw),
{
    proof {
        lemma_kv_extends(old(r)@, line@, key@);
        assert forall|raw: Seq<char>| old(r)@.contains(raw) implies #[trigger] placeholder_of(
            kv_redact(old(r)@, line@, key@).1,
            raw,
        ) == placeholder_of(old(r)@, raw) by {
            law_placeholder_is_stable(old(r)@, kv_redact(old(r)@, line@, key@).1, raw);
        }
    }
    let kv = chars_of(key);
    let sep: Vec<char> = vec![',', ' '];
    let mut rest = chars_of(line);
    let mut result = String::new();
    loop
        invariant
            r.wf(),
            kv@ == key@,
            key@.len() > 0,
            sep@ == seq![',', ' '],
            extends_names(old(r)@, kv_redact(old(r)@, line@, key@).1),
            forall|raw: Seq<char>| old(r)@.contains(raw) ==> #[trigger] placeholder_of(
                kv_redact(old(r)@, line@, key@).1,
                raw,
            ) == placeholder_of(old(r)@, raw),
            kv_redact(old(r)@, line@, key@) == (result@ + kv_redact(r@, rest@, key@).0, kv_redact(
                r@,
                rest@,
                key@,
            ).1),
        decreases rest.len(),
    {
        match find_chars(&rest, &kv, 0) {
            None => {
                push_chars(&mut result, &rest);
                return result;
            },
            Some(pos) => {
                proof {
                    lemma_find_seq_some(rest@, kv@, 0);
                }
                let vs = pos + kv.len();
                let value_part = slice_vec(&rest, vs, rest.len());
                assert(value_part@ =~= rest@.skip(vs as int));
                proof {
                    lemma_find_seq_some(value_part@, sep@, 0);
                }
                let end = match find_chars(&value_part, &sep, 0) {
                    Some(i) => vs + i,
                    None => rest.len(),
                };
                proof {
                    lemma_value_end(rest@, vs as int);
                }
                assert(end == value_end(rest@, vs as int));
                let raw = slice_vec(&rest, vs, end);
                let ghost names = r@;
                let ghost prev = result@;
                if raw.len() == 0 || all_digits(&raw) || is_placeholder_form(&raw) {
                    let head = slice_vec(&rest, 0, end);
                    push_chars(&mut result, &head);
                    assert(head@ =~= rest@.take(end as int));
                } else {
                    let head = slice_vec(&rest, 0, vs);
                    push_chars(&mut result, &head);
                    let raw_s = string_of(&raw);
                    let p = r.placeholder_for(raw_s.as_str());
                    push_str(&mut result, p.as_str());
                    assert(head@ =~= rest@.take(vs as int));
                }
                let next = slice_vec(&rest, end, rest.len());
                assert(next@ =~= rest@.skip(end as int));
                proof {
                    let t = kv_redact(r@, next@, key@);
                    assert(kv_redact(names, rest@, key@).1 == t.1);
                    assert(prev + kv_redact(names, rest@, key@).0 =~= result@ + t.0);
                }
                rest = next;
            },
        }
    }
}

// ---------------------------------------------------------------------------
// Runs of CJK text
// ---------------------------------------------------------------------------

/// A CJK ideograph (basic block or extension A), CJK punctuation or a
/// full-width form.
pub open spec fn cjk_char(c: char) -> bool {
    let u = c as u32;
    ||| 0x4E00 <= u <= 0x9FFF
    ||| 0x3400 <= u <= 0x4DBF
    ||| 0x3000 <= u <= 0x303F
    ||| 0xFF00 <= u <= 0xFFEF
}

/// Whether `c` is a CJK character (see `cjk_char`).
pub fn is_cjk(c: char) -> (b: bool)
    ensures
        b == cjk_char(c),
{
    let u = c as u32;
    (0x4E00 <= u && u <= 0x9FFF) || (0x3400 <= u && u <= 0x4DBF) || (0x3000 <= u && u <= 0x303F) || (0xFF00
        <= u && u <= 0xFFEF)
}

/// Punctuation that a run of CJK text may hold besides CJK characters: the
/// middle dot, lenticular brackets, full-width parentheses and the
/// ideographic comma.
pub open spec fn run_joiner(c: char) -> bool {
    c == '·' || c == '【' || c == '】' || c == '（' || c == '）' || c == '、'
}

/// The character at `i` continues a run: CJK, run punctuation, or a space
/// followed by CJK.
pub open spec fn continues_run(s: Seq<char>, i: int) -> bool {
    ||| cjk_char(s[i])
    ||| run_joiner(s[i])
    ||| s[i] == ' ' && i + 1 < s.len() && cjk_char(s[i + 1])
}

/// The end of the run that covers position `i`.
pub open spec fn run_end(s: Seq<char>, i: int) -> int
    decreases s.len() - i,
{
    if 0 <= i < s.len() && continues_run(s, i) {
        run_end(s, i + 1)
    } else {
        i
    }
}

pub proof fn lemma_run_end(s: Seq<char>, i: int)
    requires
        0 <= i <= s.len(),
    ensures
        i <= run_end(s, i) <= s.len(),
        i < s.len() && continues_run(s, i) ==> i < run_end(s, i),
    decreases s.len() - i,
{
    if i < s.len() && continues_run(s, i) {
        lemma_run_end(s, i + 1);
    }
}

/// The number of CJK characters in `s`.
pub open spec fn cjk_count(s: Seq<char>) -> nat
    decreases s.len(),
{
    if s.len() == 0 {
        0
    } else {
        cjk_count(s.drop_last()) + if cjk_char(s.last()) {
            1nat
        } else {
            0nat
        }
    }
}

/// Fixed messages of the application that a run may hold; a run holding one
/// stays readable.
pub open spec fn whitelisted(run: Seq<char>) -> bool {
    ||| contains_seq(run, "上传失败通知"@)
    ||| contains_seq(run, "上传成功"@)
    ||| contains_seq(run, "上传出错"@)
    ||| contains_seq(run, "准备重试"@)
    ||| contains_seq(run, "达到最大重试次数"@)
    ||| contains_seq(run, "检测到上次异常退出"@)
    ||| contains_seq(run, "等待当前文件上传完成后停止"@)
    ||| contains_seq(run, "队列已停止，等待人工处理"@)
    ||| contains_seq(run, "文件已在队列中"@)
    ||| contains_seq(run, "已标记为失败"@)
}

/// `s` from position `i` on, with each run of CJK text that holds no fixed
/// message and at least six CJK characters replaced by its placeholder; and
/// the names known afterwards.
pub open spec fn cjk_redact(names: Seq<Seq<char>>, s: Seq<char>, i: int) -> (Seq<char>, Seq<Seq<char>>)
    decreases s.len() - i,
{
    if i < 0 || i >= s.len() {
        (Seq::empty(), names)
    } else if !cjk_char(s[i]) {
        let tail = cjk_redact(names, s, i + 1);
        (seq![s[i]] + tail.0, tail.1)
    } else {
        proof {
            lemma_run_end(s, i);
        }
        let e = run_end(s, i);
        let run = s.subrange(i, e);
        if whitelisted(run) || cjk_count(run) < 6 {
            let tail = cjk_redact(names, s, e);
            (run + tail.0, tail.1)
        } else {
            let tail = cjk_redact(named(names, run), s, e);
            (placeholder_of(names, run) + tail.0, tail.1)
        }
    }
}

fn continues_at(s: &Vec<char>, i: usize) -> (b: bool)
    requires
        i < s.len(),
    ensures
        b == continues_run(s@, i as int),
{
    let c = s[i];
    is_cjk(c) || c == '·' || c == '【' || c == '】' || c == '（' || c == '）' || c == '、' || (c == ' ' && i + 1
        < s.len() && is_cjk(s[i + 1]))
}

fn count_cjk(s: &Vec<char>) -> (n: usize)
    ensures
        n == cjk_count(s@),
{
    let mut n: usize = 0;
    let mut i: usize = 0;
    while i < s.len()
        invariant
            i <= s.len(),
            n == cjk_count(s@.take(i as int)),
            n <= i,
        decreases s.len() - i,
    {
        assert(s@.take(i + 1).drop_last() =~= s@.take(i as int));
        if is_cjk(s[i]) {
            n += 1;
        }
        i += 1;
    }
    assert(s@.take(s.len() as int) =~= s@);
    n
}

fn whitelist_hit(run: &str) -> (b: bool)
    ensures
        b == whitelisted(run@),
{
    str_contains(run, "上传失败通知") || str_contains(run, "上传成功") || str_contains(run, "上传出错")
        || str_contains(run, "准备重试") || str_contains(run, "达到最大重试次数") || str_contains(
        run,
        "检测到上次异常退出",
    ) || str_contains(run, "等待当前文件上传完成后停止") || str_contains(run, "队列已停止，等待人工处理")
        || str_contains(run, "文件已在队列中") || str_contains(run, "已标记为失败")
}

/// Redacts runs of CJK text in `line` (see `cjk_redact`).
pub fn redact_cjk_runs(r: &mut LogRedactor, line: &str) -> (out: String)
    requires
        old(r).wf(),
    ensures
        final(r).wf(),
        (out@, final(r)@) == cjk_redact(old(r)@, line@, 0),
{
    let chars = chars_of(line);
    let mut result = String::new();
    let mut i: usize = 0;
    while i < chars.len()
        invariant
            i <= chars.len(),
            chars@ == line@,
            r.wf(),
            cjk_redact(old(r)@, line@, 0) == (result@ + cjk_redact(r@, line@, i as int).0, cjk_redact(
                r@,
                line@,
                i as int,
            ).1),
        decreases chars.len() - i,
    {
        let c = chars[i];
        let ghost names = r@;
        let ghost prev = result@;
        let ghost i0 = i as int;
        if is_cjk(c) {
            let start = i;
            proof {
                lemma_run_end(chars@, i as int);
            }
            while i < chars.len() && continues_at(&chars, i)
                invariant
                    start <= i <= chars.len(),
                    run_end(chars@, start as int) == run_end(chars@, i as int),
                decreases chars.len() - i,
            {
                i += 1;
            }
            assert(run_end(chars@, i as int) == i as int);
            let run_v = slice_vec(&chars, start, i);
            let run = string_of(&run_v);
            if whitelist_hit(run.as_str()) {
                push_str(&mut result, run.as_str());
            } else if count_cjk(&run_v) >= 6 {
                let p = r.placeholder_for(run.as_str());
                push_str(&mut result, p.as_str());
            } else {
                push_str(&mut result, run.as_str());
            }
            proof {
                let t = cjk_redact(r@, line@, i as int);
                assert(cjk_redact(names, line@, i0).1 == t.1);
                assert(prev + cjk_redact(names, line@, i0).0 =~= result@ + t.0);
            }
        } else {
            result.push(c);
            i += 1;
            proof {
                let t = cjk_redact(r@, line@, i as int);
                assert(cjk_redact(names, line@, i0).1 == t.1);
                assert(prev + cjk_redact(names, line@, i0).0 =~= result@ + t.0);
            }
        }
    }
    result
}

// ---------------------------------------------------------------------------
// Whole lines
// ---------------------------------------------------------------------------

/// The keys whose values name files or directories, in the order they are
/// redacted.
pub open spec fn redaction_keys() -> Seq<Seq<char>> {
    seq![
        "file="@,
        "file_path="@,
        "alist_path="@,
        "target_path="@,
        "target="@,
        "folder_target="@,
        "target_dir="@,
        "out_dir="@,
        "src="@,
        "file_name="@,
        "folder_name="@,
        "task_name="@,
    ]
}

/// `line` with the values of `keys` redacted one key after the other; and
/// the names known afterwards.
pub open spec fn redact_keys(names: Seq<Seq<char>>, line: Seq<char>, keys: Seq<Seq<char>>) -> (Seq<char>, Seq<Seq<char>>)
    decreases keys.len(),
{
    if keys.len() == 0 {
        (line, names)
    } else {
        let a = redact_keys(names, line, keys.drop_last());
        kv_redact(a.1, a.0, keys.last())
    }
}

/// A redacted log line: the values of the file keys, then the long runs of
/// CJK text; and the names known afterwards.
pub open spec fn redacted_line(names: Seq<Seq<char>>, line: Seq<char>) -> (Seq<char>, Seq<Seq<char>>) {
    let a = redact_keys(names, line, redaction_keys());
    cjk_redact(a.1, a.0, 0)
}

impl LogRedactor {
    /// Redacts one log line: the value of each file key (`file=`,
    /// `alist_path=`, ...) up to the next ", " or the end of the line,
    /// unless it is empty, all digits or already a placeholder (see
    /// `law_one_number_whichever_key`), and then each run of CJK text that
    /// holds six CJK characters or more and no fixed message. A name gets the
    /// placeholder it already has, or the next number.
    pub fn redact_line(&mut self, line: &str) -> (out: String)
        requires
            old(self).wf(),
        ensures
            final(self).wf(),
            (out@, final(self)@) == redacted_line(old(self)@, line@),
    {
        let keys: Vec<&str> = vec![
            "file=",
            "file_path=",
            "alist_path=",
            "target_path=",
            "target=",
            "folder_target=",
            "target_dir=",
            "out_dir=",
            "src=",
            "file_name=",
            "folder_name=",
            "task_name=",
        ];
        let ghost kviews = keys@.map_values(|k: &str| k@);
        proof {
            reveal_strlit("file=");
            reveal_strlit("file_path=");
            reveal_strlit("alist_path=");
            reveal_strlit("target_path=");
            reveal_strlit("target=");
            reveal_strlit("folder_target=");
            reveal_strlit("target_dir=");
            reveal_strlit("out_dir=");
            reveal_strlit("src=");
            reveal_strlit("file_name=");
            reveal_strlit("folder_name=");
            reveal_strlit("task_name=");
            assert(kviews =~= redaction_keys());
        }
        let mut out = string_of(&chars_of(line));
        let mut i: usize = 0;
        while i < keys.len()
            invariant
                i <= keys.len(),
                keys.len() == 12,
                kviews == keys@.map_values(|k: &str| k@),
                kviews == redaction_keys(),
                forall|j: int| 0 <= j < keys.len() ==> (#[trigger] keys@[j])@.len() > 0,
                self.wf(),
                (out@, self@) == redact_keys(old(self)@, line@, kviews.take(i as int)),
            decreases keys.len() - i,
        {
            assert(kviews.take(i + 1).drop_last() =~= kviews.take(i as int));
            out = redact_kv(self, out.as_str(), keys[i]);
            i += 1;
        }
        assert(kviews.take(12) =~= kviews);
        redact_cjk_runs(self, out.as_str())
    }
}

// ---------------------------------------------------------------------------
// Whole texts
// ---------------------------------------------------------------------------

/// The first line of `s` as `str::lines` gives it: up to the first '\n',
/// without the '\r' before that '\n'; and where the rest of `s` starts.
pub open spec fn first_line(s: Seq<char>) -> (Seq<char>, int) {
    match find_seq(s, seq!['\n'], 0) {
        Some(i) => (if i > 0 && s[i - 1] == '\r' {
            s.take(i - 1)
        } else {
            s.take(i)
        }, i + 1),
        None => (s, s.len() as int),
    }
}

/// `s` redacted line by line (the lines of `str::lines`), each line
/// followed by '\n'; and the names known afterwards.
pub open spec fn redacted_text(names: Seq<Seq<char>>, s: Seq<char>) -> (Seq<char>, Seq<Seq<char>>)
    decreases s.len(),
{
    if s.len() == 0 {
        (Seq::empty(), names)
    } else {
        proof {
            lemma_find_seq_some(s, seq!['\n'], 0);
        }
        let fl = first_line(s);
        let a = redacted_line(names, fl.0);
        let b = redacted_text(a.1, s.skip(fl.1));
        (a.0 + seq!['\n'] + b.0, b.1)
    }
}

impl LogRedactor {
    /// Redacts a whole log text line by line (see `redacted_text`): each
    /// line comes out redacted and followed by '\n'.
    pub fn redact_text(&mut self, content: &str) -> (out: String)
        requires
            old(self).wf(),
        ensures
            final(self).wf(),
            (out@, final(self)@) == redacted_text(old(self)@, content@),
    {
        let v = chars_of(content);
        let nl: Vec<char> = vec!['\n'];
        let mut rest = v;
        let mut out = String::new();
        while rest.len() > 0
            invariant
                self.wf(),
                nl@ == seq!['\n'],
                redacted_text(old(self)@, content@) == (out@ + redacted_text(self@, rest@).0, redacted_text(
                    self@,
                    rest@,
                ).1),
            decreases rest.len(),
        {
            proof {
                lemma_find_seq_some(rest@, nl@, 0);
            }
            let (line, next) = match find_chars(&rest, &nl, 0) {
                Some(i) => {
                    let l = if i > 0 && rest[i - 1] == '\r' {
                        slice_vec(&rest, 0, i - 1)
                    } else {
                        slice_vec(&rest, 0, i)
                    };
                    (l, i + 1)
                },
                None => (slice_vec(&rest, 0, rest.len()), rest.len()),
            };
            proof {
                let fl = first_line(rest@);
                assert(line@ =~= fl.0);
                assert(next == fl.1);
            }
            let ghost names = self@;
            let ghost prev = out@;
            let red = self.redact_line(string_of(&line).as_str());
            push_str(&mut out, red.as_str());
            out.push('\n');
            let tail = slice_vec(&rest, next, rest.len());
            proof {
                assert(tail@ =~= rest@.skip(next as int));
                let t = redacted_text(self@, tail@);
                assert(redacted_text(names, rest@).1 == t.1);
                assert(prev + redacted_text(names, rest@).0 =~= out@ + t.0);
            }
            rest = tail;
        }
        proof {
            assert(redacted_text(self@, rest@).0 =~= Seq::<char>::empty());
            assert(out@ + Seq::<char>::empty() =~= out@);
        }
        out
    }
}

// ---------------------------------------------------------------------------
// Laws
// ---------------------------------------------------------------------------

/// Different numbers give different placeholders.
pub proof fn lemma_placeholder_text_injective(a: nat, b: nat)
    requires
        placeholder_text(a) == placeholder_text(b),
    ensures
        a == b,
{
    lemma_decimal_len(a);
    lemma_decimal_len(b);
    let da = placeholder_text(a).subrange(2, placeholder_text(a).len() - 1);
    let db = placeholder_text(b).subrange(2, placeholder_text(b).len() - 1);
    assert(da =~= decimal(a));
    assert(db =~= decimal(b));
    lemma_decimal_injective(a, b);
}

/// `names2` keeps the names of `names` in their places and adds none twice.
pub open spec fn extends_names(names: Seq<Seq<char>>, names2: Seq<Seq<char>>) -> bool {
    &&& names.len() <= names2.len()
    &&& names2.take(names.len() as int) == names
    &&& (names.no_duplicates() ==> names2.no_duplicates())
}

proof fn lemma_named_extends(names: Seq<Seq<char>>, raw: Seq<char>)
    ensures
        extends_names(names, named(names, raw)),
        named(names, raw).contains(raw),
{
    assert(names.take(names.len() as int) =~= names);
    if !names.contains(raw) {
        let n2 = names.push(raw);
        assert(n2.take(names.len() as int) =~= names);
        assert(n2[names.len() as int] == raw);
        if names.no_duplicates() {
            assert forall|i: int, j: int| 0 <= i < n2.len() && 0 <= j < n2.len() && i != j implies n2[i] != n2[j] by {
                if i < names.len() && j < names.len() {
                    assert(n2[i] == names[i] && n2[j] == names[j]);
                } else if i < names.len() {
                    assert(n2[i] == names[i]);
                } else if j < names.len() {
                    assert(n2[j] == names[j]);
                }
            }
        }
    }
}

proof fn lemma_extends_trans(a: Seq<Seq<char>>, b: Seq<Seq<char>>, c: Seq<Seq<char>>)
    requires
        extends_names(a, b),
        extends_names(b, c),
    ensures
        extends_names(a, c),
{
    assert(c.take(a.len() as int) =~= c.take(b.len() as int).take(a.len() as int));
}

proof fn lemma_kv_extends(names: Seq<Seq<char>>, rest: Seq<char>, key: Seq<char>)
    ensures
        extends_names(names, kv_redact(names, rest, key).1),
    decreases rest.len(),
{
    assert(names.take(names.len() as int) =~= names);
    if key.len() > 0 {
        match find_seq(rest, key, 0) {
            None => {},
            Some(pos) => {
                lemma_find_seq_some(rest, key, 0);
                lemma_value_end(rest, pos + key.len());
                let vs = pos + key.len();
                let end = value_end(rest, vs);
                let raw = rest.subrange(vs, end);
                if kept_value(raw) {
                    lemma_kv_extends(names, rest.skip(end), key);
                } else {
                    lemma_named_extends(names, raw);
                    lemma_kv_extends(named(names, raw), rest.skip(end), key);
                    lemma_extends_trans(names, named(names, raw), kv_redact(named(names, raw), rest.skip(end), key).1);
                }
            },
        }
    }
}

proof fn lemma_keys_extend(names: Seq<Seq<char>>, line: Seq<char>, keys: Seq<Seq<char>>)
    ensures
        extends_names(names, redact_keys(names, line, keys).1),
    decreases keys.len(),
{
    assert(names.take(names.len() as int) =~= names);
    if keys.len() > 0 {
        lemma_keys_extend(names, line, keys.drop_last());
        let a = redact_keys(names, line, keys.drop_last());
        lemma_kv_extends(a.1, a.0, keys.last());
        lemma_extends_trans(names, a.1, kv_redact(a.1, a.0, keys.last()).1);
    }
}

proof fn lemma_cjk_extends(names: Seq<Seq<char>>, s: Seq<char>, i: int)
    ensures
        extends_names(names, cjk_redact(names, s, i).1),
    decreases s.len() - i,
{
    assert(names.take(names.len() as int) =~= names);
    if 0 <= i < s.len() {
        if !cjk_char(s[i]) {
            lemma_cjk_extends(names, s, i + 1);
        } else {
            lemma_run_end(s, i);
            let e = run_end(s, i);
            let run = s.subrange(i, e);
            if whitelisted(run) || cjk_count(run) < 6 {
                lemma_cjk_extends(names, s, e);
            } else {
                lemma_named_extends(names, run);
                lemma_cjk_extends(named(names, run), s, e);
                lemma_extends_trans(names, named(names, run), cjk_redact(named(names, run), s, e).1);
            }
        }
    }
}

/// Redacting a line only adds names: the names known before keep their
/// places, so every placeholder handed out stays the same.
pub proof fn law_redaction_only_adds_names(names: Seq<Seq<char>>, line: Seq<char>)
    ensures
        extends_names(names, redacted_line(names, line).1),
{
    let a = redact_keys(names, line, redaction_keys());
    lemma_keys_extend(names, line, redaction_keys());
    lemma_cjk_extends(a.1, a.0, 0);
    lemma_extends_trans(names, a.1, cjk_redact(a.1, a.0, 0).1);
}

/// A known name keeps its placeholder once more names are known.
pub proof fn law_placeholder_is_stable(names: Seq<Seq<char>>, names2: Seq<Seq<char>>, raw: Seq<char>)
    requires
        names.no_duplicates(),
        names.contains(raw),
        extends_names(names, names2),
    ensures
        placeholder_of(names2, raw) == placeholder_of(names, raw),
{
    let k = names.index_of(raw);
    assert(names2[k] == names2.take(names.len() as int)[k]);
    assert(names2.contains(raw));
    assert(named(names2, raw) == names2);
    assert(names2.index_of(raw) == k);
}

/// The same name, met again in a later line, gets the same placeholder.
pub proof fn law_same_name_same_placeholder(names: Seq<Seq<char>>, line: Seq<char>, raw: Seq<char>)
    requires
        names.no_duplicates(),
        names.contains(raw),
    ensures
        placeholder_of(redacted_line(names, line).1, raw) == placeholder_of(names, raw),
{
    law_redaction_only_adds_names(names, line);
    law_placeholder_is_stable(names, redacted_line(names, line).1, raw);
}

/// A file key: it ends with its only '=', and all of it is ASCII.
pub open spec fn key_form(k: Seq<char>) -> bool {
    &&& k.len() > 0
    &&& k.last() == '='
    &&& forall|i: int| 0 <= i < k.len() - 1 ==> #[trigger] k[i] != '='
    &&& forall|i: int| 0 <= i < k.len() ==> (#[trigger] k[i] as u32) < 128
}

/// `line_key` ends with `key` ("folder_target=" ends with "target=").
pub open spec fn ends_with_key(line_key: Seq<char>, key: Seq<char>) -> bool {
    key.len() <= line_key.len() && line_key.subrange(line_key.len() - key.len(), line_key.len() as int) == key
}

/// A value that runs to the end of its line: no ", " (where a value ends)
/// and no '=' (where another key could end).
pub open spec fn whole_value(v: Seq<char>) -> bool {
    &&& forall|i: int| 0 <= i < v.len() ==> #[trigger] v[i] != '='
    &&& !contains_seq(v, seq![',', ' '])
}

proof fn lemma_keys_have_form()
    ensures
        forall|k: int| 0 <= k < redaction_keys().len() ==> key_form(#[trigger] redaction_keys()[k]),
{
    reveal_strlit("file=");
    reveal_strlit("file_path=");
    reveal_strlit("alist_path=");
    reveal_strlit("target_path=");
    reveal_strlit("target=");
    reveal_strlit("folder_target=");
    reveal_strlit("target_dir=");
    reveal_strlit("out_dir=");
    reveal_strlit("src=");
    reveal_strlit("file_name=");
    reveal_strlit("folder_name=");
    reveal_strlit("task_name=");
    assert(key_form("file="@));
    assert(key_form("file_path="@));
    assert(key_form("alist_path="@));
    assert(key_form("target_path="@));
    assert(key_form("target="@));
    assert(key_form("folder_target="@));
    assert(key_form("target_dir="@));
    assert(key_form("out_dir="@));
    assert(key_form("src="@));
    assert(key_form("file_name="@));
    assert(key_form("folder_name="@));
    assert(key_form("task_name="@));
}

proof fn lemma_placeholder_whole(p: Seq<char>)
    requires
        placeholder_form(p),
    ensures
        whole_value(p),
        forall|i: int| 0 <= i < p.len() ==> (#[trigger] p[i] as u32) < 128,
{
    let mid = p.subrange(2, p.len() - 1);
    assert forall|i: int| 0 <= i < p.len() implies #[trigger] p[i] != '=' && (p[i] as u32) < 128 && p[i] != ',' by {
        if 2 <= i < p.len() - 1 {
            assert(p[i] == mid[i - 2]);
        }
    }
    if contains_seq(p, seq![',', ' ']) {
        let j = choose|j: int| occurs_at(p, seq![',', ' '], j);
        assert(p.subrange(j, j + 2)[0] == p[j]);
    }
}

proof fn lemma_find_none_empty(key: Seq<char>)
    requires
        key.len() > 0,
    ensures
        find_seq(Seq::<char>::empty(), key, 0) is None,
{
    lemma_find_seq_none(Seq::<char>::empty(), key, 0);
}

/// Redacting `key` in a line made of the key `kk` and a whole value `val`.
proof fn lemma_kv_field(names: Seq<Seq<char>>, kk: Seq<char>, val: Seq<char>, key: Seq<char>)
    requires
        key_form(kk),
        key_form(key),
        whole_value(val),
    ensures
        kv_redact(names, kk + val, key) == if ends_with_key(kk, key) {
            if kept_value(val) {
                (kk + val, names)
            } else {
                (kk + placeholder_of(names, val), named(names, val))
            }
        } else {
            (kk + val, names)
        },
{
    let h = kk + val;
    let p = kk.len() - key.len();
    assert forall|j: int| occurs_at(h, key, j) implies j == p by {
        let q = j + key.len() - 1;
        assert(h.subrange(j, j + key.len())[key.len() - 1] == h[q]);
        assert(h[q] == '=');
        if q >= kk.len() {
            assert(h[q] == val[q - kk.len()]);
        } else if q < kk.len() - 1 {
            assert(h[q] == kk[q]);
        }
    }
    lemma_find_none_empty(key);
    if ends_with_key(kk, key) {
        assert(h.subrange(p, p + key.len()) =~= kk.subrange(p, kk.len() as int));
        assert(occurs_at(h, key, p));
        lemma_find_seq_first(h, key, 0, p);
        let vs = kk.len() as int;
        assert(h.skip(vs) =~= val);
        lemma_find_seq_none(val, seq![',', ' '], 0);
        assert(value_end(h, vs) == h.len());
        assert(h.subrange(vs, h.len() as int) =~= val);
        assert(h.skip(h.len() as int) =~= Seq::<char>::empty());
        let e = Seq::<char>::empty();
        assert(kv_redact(names, e, key) == (e, names));
        assert(kv_redact(named(names, val), e, key) == (e, named(names, val)));
        assert(find_seq(h, key, 0) == Some(p));
        assert(p + key.len() == vs);
        if kept_value(val) {
            assert(kv_redact(names, h, key) == (h.take(h.len() as int) + kv_redact(names, e, key).0, kv_redact(names, e, key).1));
        } else {
            assert(kv_redact(names, h, key) == (h.take(vs) + placeholder_of(names, val) + kv_redact(named(names, val), e, key).0,
                kv_redact(named(names, val), e, key).1));
        }
        assert(h.take(h.len() as int) =~= h);
        assert(h.take(vs) =~= kk);
        assert(Seq::<char>::empty() + Seq::<char>::empty() =~= Seq::<char>::empty());
        assert(h + Seq::<char>::empty() =~= h);
        assert(kk + placeholder_of(names, val) + Seq::<char>::empty() =~= kk + placeholder_of(names, val));
    } else {
        assert forall|j: int| 0 <= j implies !occurs_at(h, key, j) by {
            if occurs_at(h, key, j) {
                assert(h.subrange(p, p + key.len()) =~= kk.subrange(p, kk.len() as int));
            }
        }
        lemma_find_seq_none(h, key, 0);
    }
}

/// Redacting the keys `keys` one after the other in a line made of the key
/// `kk` and a whole value `v` that is a name.
proof fn lemma_keys_field(names: Seq<Seq<char>>, kk: Seq<char>, v: Seq<char>, keys: Seq<Seq<char>>)
    requires
        key_form(kk),
        forall|i: int| 0 <= i < keys.len() ==> key_form(#[trigger] keys[i]),
        whole_value(v),
        !kept_value(v),
    ensures
        redact_keys(names, kk + v, keys) == if exists|i: int| 0 <= i < keys.len() && ends_with_key(kk, #[trigger] keys[i]) {
            (kk + placeholder_of(names, v), named(names, v))
        } else {
            (kk + v, names)
        },
    decreases keys.len(),
{
    if keys.len() > 0 {
        let init = keys.drop_last();
        assert forall|i: int| 0 <= i < init.len() implies key_form(#[trigger] init[i]) by {
            assert(init[i] == keys[i]);
        }
        lemma_keys_field(names, kk, v, init);
        let key = keys.last();
        assert(key_form(keys[keys.len() - 1]));
        let p = placeholder_of(names, v);
        lemma_placeholder_form((named(names, v).index_of(v) + 1) as nat);
        lemma_placeholder_whole(p);
        if exists|i: int| 0 <= i < init.len() && ends_with_key(kk, #[trigger] init[i]) {
            let i = choose|i: int| 0 <= i < init.len() && ends_with_key(kk, #[trigger] init[i]);
            assert(keys[i] == init[i]);
            lemma_kv_field(named(names, v), kk, p, key);
        } else {
            lemma_kv_field(names, kk, v, key);
            if ends_with_key(kk, key) {
                assert(ends_with_key(kk, keys[keys.len() - 1]));
            } else {
                assert forall|i: int| 0 <= i < keys.len() implies !ends_with_key(kk, #[trigger] keys[i]) by {
                    if i < init.len() {
                        assert(keys[i] == init[i]);
                    }
                }
            }
        }
    }
}

proof fn lemma_cjk_ascii(names: Seq<Seq<char>>, s: Seq<char>, i: int)
    requires
        0 <= i <= s.len(),
        forall|j: int| 0 <= j < s.len() ==> (#[trigger] s[j] as u32) < 128,
    ensures
        cjk_redact(names, s, i) == (s.skip(i), names),
    decreases s.len() - i,
{
    if i < s.len() {
        assert((s[i] as u32) < 128);
        assert(!cjk_char(s[i]));
        lemma_cjk_ascii(names, s, i + 1);
        assert(seq![s[i]] + s.skip(i + 1) =~= s.skip(i));
    } else {
        assert(s.skip(i) =~= Seq::<char>::empty());
    }
}

/// One name, one number, whichever key it follows: a line holding one of
/// the file keys and then a name (not empty, not all digits, not already a
/// placeholder, running to the end of the line without ", " or '=') comes
/// out as the key and the placeholder of that name, the one it already has
/// or the next. "folder_target=" is no exception, though "target=" occurs
/// inside it.
pub proof fn law_one_number_whichever_key(names: Seq<Seq<char>>, k: int, v: Seq<char>)
    requires
        0 <= k < redaction_keys().len(),
        whole_value(v),
        !kept_value(v),
    ensures
        redacted_line(names, redaction_keys()[k] + v) == (redaction_keys()[k] + placeholder_of(names, v), named(
            names,
            v,
        )),
{
    let kk = redaction_keys()[k];
    lemma_keys_have_form();
    assert(ends_with_key(kk, redaction_keys()[k])) by {
        assert(kk.subrange(0, kk.len() as int) =~= kk);
    }
    lemma_keys_field(names, kk, v, redaction_keys());
    let p = placeholder_of(names, v);
    lemma_placeholder_form((named(names, v).index_of(v) + 1) as nat);
    lemma_placeholder_whole(p);
    let line = kk + p;
    assert forall|j: int| 0 <= j < line.len() implies (#[trigger] line[j] as u32) < 128 by {
        if j < kk.len() {
            assert(line[j] == kk[j]);
        } else {
            assert(line[j] == p[j - kk.len()]);
        }
    }
    lemma_cjk_ascii(named(names, v), line, 0);
    assert(line.skip(0) =~= line);
}

/// Every file key is redacted: after each of file=, file_path=,
/// alist_path=, target_path=, target=, folder_target=, target_dir=,
/// out_dir=, src=, file_name=, folder_name= and task_name=, a name that
/// runs to the end of the line (not empty, not all digits, not a
/// placeholder, without ", " or '=') becomes its placeholder.
pub proof fn law_every_file_key_is_redacted(names: Seq<Seq<char>>, v: Seq<char>)
    requires
        whole_value(v),
        !kept_value(v),
    ensures
        redacted_line(names, "file="@ + v) == ("file="@ + placeholder_of(names, v), named(names, v)),
        redacted_line(names, "file_path="@ + v) == ("file_path="@ + placeholder_of(names, v), named(names, v)),
        redacted_line(names, "alist_path="@ + v) == ("alist_path="@ + placeholder_of(names, v), named(names, v)),
        redacted_line(names, "target_path="@ + v) == ("target_path="@ + placeholder_of(names, v), named(names, v)),
        redacted_line(names, "target="@ + v) == ("target="@ + placeholder_of(names, v), named(names, v)),
        redacted_line(names, "folder_target="@ + v) == ("folder_target="@ + placeholder_of(names, v), named(names, v)),
        redacted_line(names, "target_dir="@ + v) == ("target_dir="@ + placeholder_of(names, v), named(names, v)),
        redacted_line(names, "out_dir="@ + v) == ("out_dir="@ + placeholder_of(names, v), named(names, v)),
        redacted_line(names, "src="@ + v) == ("src="@ + placeholder_of(names, v), named(names, v)),
        redacted_line(names, "file_name="@ + v) == ("file_name="@ + placeholder_of(names, v), named(names, v)),
        redacted_line(names, "folder_name="@ + v) == ("folder_name="@ + placeholder_of(names, v), named(names, v)),
        redacted_line(names, "task_name="@ + v) == ("task_name="@ + placeholder_of(names, v), named(names, v)),
{
    assert(redaction_keys()[0] == "file="@);
    law_one_number_whichever_key(names, 0, v);
    assert(redaction_keys()[1] == "file_path="@);
    law_one_number_whichever_key(names, 1, v);
    assert(redaction_keys()[2] == "alist_path="@);
    law_one_number_whichever_key(names, 2, v);
    assert(redaction_keys()[3] == "target_path="@);
    law_one_number_whichever_key(names, 3, v);
    assert(redaction_keys()[4] == "target="@);
    law_one_number_whichever_key(names, 4, v);
    assert(redaction_keys()[5] == "folder_target="@);
    law_one_number_whichever_key(names, 5, v);
    assert(redaction_keys()[6] == "target_dir="@);
    law_one_number_whichever_key(names, 6, v);
    assert(redaction_keys()[7] == "out_dir="@);
    law_one_number_whichever_key(names, 7, v);
    assert(redaction_keys()[8] == "src="@);
    law_one_number_whichever_key(names, 8, v);
    assert(redaction_keys()[9] == "file_name="@);
    law_one_number_whichever_key(names, 9, v);
    assert(redaction_keys()[10] == "folder_name="@);
    law_one_number_whichever_key(names, 10, v);
    assert(redaction_keys()[11] == "task_name="@);
    law_one_number_whichever_key(names, 11, v);
}

/// Different names never share a placeholder.
pub proof fn law_distinct_names_distinct_placeholders(names: Seq<Seq<char>>, a: Seq<char>, b: Seq<char>)
    requires
        names.no_duplicates(),
        names.contains(a),
        names.contains(b),
        a != b,
    ensures
        placeholder_of(names, a) != placeholder_of(names, b),
{
    let ka = names.index_of(a);
    let kb = names.index_of(b);
    if placeholder_of(names, a) == placeholder_of(names, b) {
        lemma_placeholder_text_injective((ka + 1) as nat, (kb + 1) as nat);
    }
}

} // verus!
