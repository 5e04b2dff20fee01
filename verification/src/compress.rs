//! Splitting a file into a multi-volume RAR archive and renaming such an
//! archive's folder when its name is too long for the drive: the arguments,
//! names and messages, the progress lines of rar's output, and the decoding
//! of that output. Running rar and touching the files is left to the caller.
use vstd::prelude::*;
use crate::paths::utf8_len;
use crate::text::{chars_of, decimal, hex_string, hex_text, push_decimal, push_str, slice_vec, string_of, trim_both,
    Strip};

verus! {

// ---------------------------------------------------------------------------
// Progress of rar
// ---------------------------------------------------------------------------

/// An ASCII digit.
pub open spec fn ascii_digit(c: char) -> bool {
    '0' <= c <= '9'
}

/// The last index before `i` where `s` holds `c`.
pub open spec fn last_index_of(s: Seq<char>, c: char, i: int) -> Option<int>
    decreases i,
{
    if i <= 0 || i > s.len() {
        None
    } else if s[i - 1] == c {
        Some(i - 1)
    } else {
        last_index_of(s, c, i - 1)
    }
}

/// The last index before `i` where `s` holds something other than an ASCII
/// digit.
pub open spec fn last_non_digit(s: Seq<char>, i: int) -> Option<int>
    decreases i,
{
    if i <= 0 || i > s.len() {
        None
    } else if !ascii_digit(s[i - 1]) {
        Some(i - 1)
    } else {
        last_non_digit(s, i - 1)
    }
}

/// The value of a string of ASCII digits.
pub open spec fn digits_value(s: Seq<char>) -> nat
    decreases s.len(),
{
    if s.len() == 0 {
        0
    } else {
        10 * digits_value(s.drop_last()) + (s.last() as nat - 48) as nat
    }
}

/// Where the percentage of a progress line of rar is read: in the trimmed
/// line, the digits right before the last '%', which must follow some other
/// character. Gives that character's index and the digits.
pub open spec fn progress_digits(line: Seq<char>) -> Option<(int, Seq<char>)> {
    let t = crate::paths::trim_white(line);
    match last_index_of(t, '%', t.len() as int) {
        None => None,
        Some(p) => {
            let before = t.take(p);
            match last_non_digit(before, before.len() as int) {
                None => None,
                Some(q) => Some((q, before.skip(q + 1))),
            }
        },
    }
}

/// The percentage a progress line of rar shows: the digits before the last
/// '%', when there are some, they follow another character, and they make
/// at most 100.
pub open spec fn rar_progress(line: Seq<char>) -> Option<u8> {
    match progress_digits(line) {
        Some((_, digits)) => if digits.len() > 0 && digits_value(digits) <= 100 {
            Some(digits_value(digits) as u8)
        } else {
            None
        },
        None => None,
    }
}

proof fn lemma_last_index_of(s: Seq<char>, c: char, i: int)
    ensures
        last_index_of(s, c, i) matches Some(p) ==> 0 <= p < i && p < s.len() && s[p] == c,
    decreases i,
{
    if 0 < i <= s.len() && s[i - 1] != c {
        lemma_last_index_of(s, c, i - 1);
    }
}

proof fn lemma_last_non_digit(s: Seq<char>, i: int)
    ensures
        last_non_digit(s, i) matches Some(q) ==> 0 <= q < i && q < s.len() && !ascii_digit(s[q]) && forall|j: int|
            q < j < i ==> ascii_digit(#[trigger] s[j]),
    decreases i,
{
    if 0 < i <= s.len() && ascii_digit(s[i - 1]) {
        lemma_last_non_digit(s, i - 1);
    }
}

proof fn lemma_digits_prefix(s: Seq<char>, k: int)
    requires
        0 <= k <= s.len(),
        forall|j: int| 0 <= j < s.len() ==> ascii_digit(#[trigger] s[j]),
    ensures
        digits_value(s.take(k)) <= digits_value(s),
    decreases s.len() - k,
{
    if k < s.len() {
        lemma_digits_prefix(s, k + 1);
        assert(s.take(k + 1).drop_last() =~= s.take(k));
    } else {
        assert(s.take(k) =~= s);
    }
}

/// The last index before `i` where `v` holds `c`.
fn find_last(v: &Vec<char>, c: char, i: usize) -> (r: Option<usize>)
    requires
        i <= v.len(),
    ensures
        r matches Some(p) ==> last_index_of(v@, c, i as int) == Some(p as int),
        r is None ==> last_index_of(v@, c, i as int) is None,
{
    let mut k = i;
    while k > 0
        invariant
            k <= i <= v.len(),
            last_index_of(v@, c, i as int) == last_index_of(v@, c, k as int),
        decreases k,
    {
        if v[k - 1] == c {
            return Some(k - 1);
        }
        k -= 1;
    }
    None
}

/// The last index before `i` where `v` holds a non-digit.
fn find_last_non_digit(v: &Vec<char>, i: usize) -> (r: Option<usize>)
    requires
        i <= v.len(),
    ensures
        r matches Some(p) ==> last_non_digit(v@, i as int) == Some(p as int),
        r is None ==> last_non_digit(v@, i as int) is None,
{
    let mut k = i;
    while k > 0
        invariant
            k <= i <= v.len(),
            last_non_digit(v@, i as int) == last_non_digit(v@, k as int),
        decreases k,
    {
        if !('0' <= v[k - 1] && v[k - 1] <= '9') {
            return Some(k - 1);
        }
        k -= 1;
    }
    None
}

/// The percentage shown by a progress line of rar (see `rar_progress`).
pub fn parse_rar_progress(line: &str) -> (r: Option<u8>)
    ensures
        r == rar_progress(line@),
{
    let v = chars_of(line);
    let t = trim_both(&v, &Strip::WhiteSpace);
    let p = match find_last(&t, '%', t.len()) {
        Some(p) => p,
        None => return None,
    };
    proof {
        lemma_last_index_of(t@, '%', t.len() as int);
    }
    let before = slice_vec(&t, 0, p);
    assert(before@ =~= t@.take(p as int));
    let q = match find_last_non_digit(&before, before.len()) {
        Some(q) => q,
        None => return None,
    };
    proof {
        lemma_last_non_digit(before@, before.len() as int);
    }
    let digits = slice_vec(&before, q + 1, before.len());
    assert(digits@ =~= before@.skip(q + 1));
    if digits.len() == 0 {
        return None;
    }
    assert(progress_digits(line@) == Some((q as int, digits@)));
    let mut value: u32 = 0;
    let mut k: usize = 0;
    while k < digits.len()
        invariant
            k <= digits.len(),
            forall|j: int| 0 <= j < digits.len() ==> ascii_digit(#[trigger] digits@[j]),
            value == digits_value(digits@.take(k as int)),
            value <= 100,
            digits.len() > 0,
            progress_digits(line@) == Some((q as int, digits@)),
        decreases digits.len() - k,
    {
        assert(digits@.take(k + 1).drop_last() =~= digits@.take(k as int));
        assert(ascii_digit(digits@[k as int]));
        let d = (digits[k] as u32) - 48;
        let next = 10 * value + d;
        assert(digits@.take(k + 1).last() == digits@[k as int]);
        assert(digits_value(digits@.take(k + 1)) == next);
        if next > 100 {
            proof {
                lemma_digits_prefix(digits@, k + 1);
            }
            return None;
        }
        value = next;
        k += 1;
    }
    assert(digits@.take(digits.len() as int) =~= digits@);
    Some(value as u8)
}

/// Splits off the first line of rar's output buffer: the text before the
/// first '\r' or '\n', trimmed, and what follows that break. Nothing when
/// the buffer holds no break yet.
pub fn split_progress_line(buf: &str) -> (r: Option<(String, String)>)
    ensures
        r is None <==> (forall|i: int| 0 <= i < buf@.len() ==> (#[trigger] buf@[i]) != '\r' && buf@[i] != '\n'),
        r matches Some((line, rest)) ==> exists|pos: int|
            0 <= pos < buf@.len() && (buf@[pos] == '\r' || buf@[pos] == '\n') && (forall|i: int|
                0 <= i < pos ==> (#[trigger] buf@[i]) != '\r' && buf@[i] != '\n') && line@ == crate::paths::trim_white(
                buf@.take(pos),
            ) && rest@ == buf@.skip(pos + 1),
{
    let v = chars_of(buf);
    let mut pos: usize = 0;
    while pos < v.len()
        invariant
            pos <= v.len(),
            v@ == buf@,
            forall|i: int| 0 <= i < pos ==> (#[trigger] v@[i]) != '\r' && v@[i] != '\n',
        decreases v.len() - pos,
    {
        if v[pos] == '\r' || v[pos] == '\n' {
            let head = slice_vec(&v, 0, pos);
            assert(head@ =~= buf@.take(pos as int));
            let line = string_of(&trim_both(&head, &Strip::WhiteSpace));
            let rest_v = slice_vec(&v, pos + 1, v.len());
            assert(rest_v@ =~= buf@.skip(pos + 1));
            assert(buf@[pos as int] == '\r' || buf@[pos as int] == '\n');
            return Some((line, string_of(&rest_v)));
        }
        pos += 1;
    }
    None
}

// ---------------------------------------------------------------------------
// Running rar
// ---------------------------------------------------------------------------

/// The refusal when rar is not where the settings say.
pub fn rar_missing_message(rar_path: &str) -> (r: String)
    ensures
        r@ == "找不到 WinRAR: "@ + rar_path@ + "，请在设置页配置 rar.exe 路径"@,
{
    let mut r = "找不到 WinRAR: ".to_owned();
    push_str(&mut r, rar_path);
    push_str(&mut r, "，请在设置页配置 rar.exe 路径");
    r
}

/// The refusal when the file to split does not exist.
pub fn source_missing_message(file_path: &str) -> (r: String)
    ensures
        r@ == "文件不存在: "@ + file_path@,
{
    let mut r = "文件不存在: ".to_owned();
    push_str(&mut r, file_path);
    r
}

/// The refusal when the folder to rename is missing or is not a folder.
pub fn folder_missing_message(folder_path: &str) -> (r: String)
    ensures
        r@ == "文件夹不存在或不是目录: "@ + folder_path@,
{
    let mut r = "文件夹不存在或不是目录: ".to_owned();
    push_str(&mut r, folder_path);
    r
}

/// The folder the volumes are written to, next to the file: its name
/// followed by "-dir".
pub fn split_out_dir_name(file_name: &str) -> (r: String)
    ensures
        r@ == file_name@ + "-dir"@,
{
    let mut r = file_name.to_owned();
    push_str(&mut r, "-dir");
    r
}

/// The archive's first volume name: the file's stem followed by ".rar".
pub fn archive_name(file_stem: &str) -> (r: String)
    ensures
        r@ == file_stem@ + ".rar"@,
{
    let mut r = file_stem.to_owned();
    push_str(&mut r, ".rar");
    r
}

/// The arguments of rar: add, volumes of `volume_mb` MB, fastest
/// compression, names without paths, the archive and the file.
pub fn rar_args(volume_mb: u64, archive: &str, file_path: &str) -> (r: Vec<String>)
    ensures
        r@.map_values(|a: String| a@) == seq![
            "a"@,
            "-v"@ + decimal(volume_mb as nat) + "m"@,
            "-m1"@,
            "-ep3"@,
            archive@,
            file_path@,
        ],
{
    let mut volume = "-v".to_owned();
    push_decimal(&mut volume, volume_mb as u128);
    push_str(&mut volume, "m");
    let r = vec!["a".to_owned(), volume, "-m1".to_owned(), "-ep3".to_owned(), archive.to_owned(), file_path.to_owned()];
    assert(r@.map_values(|a: String| a@) =~= seq![
        "a"@,
        "-v"@ + decimal(volume_mb as nat) + "m"@,
        "-m1"@,
        "-ep3"@,
        archive@,
        file_path@,
    ]);
    r
}

/// `name` ends with `suffix`.
pub open spec fn ends_with(name: Seq<char>, suffix: Seq<char>) -> bool {
    name.len() >= suffix.len() && name.skip(name.len() - suffix.len()) == suffix
}

fn str_ends_with(name: &Vec<char>, suffix: &Vec<char>) -> (b: bool)
    ensures
        b == ends_with(name@, suffix@),
{
    if name.len() < suffix.len() {
        return false;
    }
    let tail = slice_vec(name, name.len() - suffix.len(), name.len());
    assert(tail@ =~= name@.skip(name.len() - suffix.len()));
    crate::text::chars_eq(&tail, suffix)
}

/// The names among `names` that are volumes of an archive (end with
/// ".rar"), in their order.
pub fn rar_parts(names: &Vec<String>) -> (r: Vec<String>)
    ensures
        r@.map_values(|n: String| n@) == names@.map_values(|n: String| n@).filter(|n: Seq<char>| ends_with(n, ".rar"@)),
{
    let suffix = chars_of(".rar");
    let ghost all = names@.map_values(|n: String| n@);
    let ghost pred = |n: Seq<char>| ends_with(n, ".rar"@);
    let mut r: Vec<String> = Vec::new();
    let mut i: usize = 0;
    while i < names.len()
        invariant
            i <= names.len(),
            suffix@ == ".rar"@,
            all == names@.map_values(|n: String| n@),
            pred == (|n: Seq<char>| ends_with(n, ".rar"@)),
            r@.map_values(|n: String| n@) == all.take(i as int).filter(pred),
        decreases names.len() - i,
    {
        let v = chars_of(names[i].as_str());
        let keep = str_ends_with(&v, &suffix);
        proof {
            reveal(Seq::filter);
            assert(all.take(i + 1).drop_last() =~= all.take(i as int));
        }
        let ghost before = r@;
        if keep {
            r.push(names[i].clone());
            assert(r@.map_values(|n: String| n@) =~= before.map_values(|n: String| n@).push(names@[i as int]@));
        }
        i += 1;
    }
    assert(all.take(names.len() as int) =~= all);
    r
}

/// The refusal to split again into a folder that already holds volumes.
pub fn existing_parts_message(parts: &Vec<String>) -> (r: String)
    ensures
        r@ == "输出目录已存在 "@ + decimal(parts.len() as nat) + " 个 .rar 分卷文件，疑似此前压缩产物：\n"@
            + crate::adding::join_lines(parts@.map_values(|p: String| p@))
            + "\n请先删除该目录或对拦截记录使用\"改名重传\"，不要重复分卷压缩。"@,
{
    let mut r = "输出目录已存在 ".to_owned();
    push_decimal(&mut r, parts.len() as u128);
    push_str(&mut r, " 个 .rar 分卷文件，疑似此前压缩产物：\n");
    let joined = crate::adding::join_strings(parts);
    push_str(&mut r, joined.as_str());
    push_str(&mut r, "\n请先删除该目录或对拦截记录使用\"改名重传\"，不要重复分卷压缩。");
    r
}

/// The error when rar ended with a failure code.
pub fn rar_failed_message(code: i32, stderr_text: &str) -> (r: String)
    ensures
        r@ == "rar.exe 返回错误码 "@ + crate::text::signed_decimal(code as int) + ": "@ + stderr_text@,
{
    let mut r = "rar.exe 返回错误码 ".to_owned();
    crate::text::push_signed_decimal(&mut r, code as i64);
    push_str(&mut r, ": ");
    push_str(&mut r, stderr_text);
    r
}

// ---------------------------------------------------------------------------
// rar's output
// ---------------------------------------------------------------------------

/// What `encoding_rs::GBK.decode` gives for `bytes`.
pub uninterp spec fn gbk_decoded(bytes: Seq<u8>) -> Seq<char>;

/// Decodes `bytes` as GBK with `encoding_rs::GBK.decode` (a byte-order mark
/// selects its encoding instead; malformed input becomes U+FFFD). The
/// contract names the result; the decoder is not restated.
#[verifier::external_body]
fn decode_gbk(bytes: &[u8]) -> (r: String)
    ensures
        r@ == gbk_decoded(bytes@),
{
    encoding_rs::GBK.decode(bytes).0.into_owned()
}

/// The text of `bytes` as UTF-8, with `String::from_utf8`: there is one
/// exactly when the bytes are valid UTF-8, and its encoding is the bytes.
#[verifier::external_body]
fn utf8_text(bytes: Vec<u8>) -> (r: Option<String>)
    ensures
        r is Some <==> vstd::utf8::valid_utf8(bytes@),
        r matches Some(s) ==> vstd::utf8::encode_utf8(s@) == bytes@,
{
    String::from_utf8(bytes).ok()
}

/// rar's output as text: UTF-8 when it is valid UTF-8, else GBK (what rar
/// writes on a Chinese Windows).
pub fn decode_rar_output(bytes: &Vec<u8>) -> (r: String)
    ensures
        vstd::utf8::valid_utf8(bytes@) ==> vstd::utf8::encode_utf8(r@) == bytes@,
        !vstd::utf8::valid_utf8(bytes@) ==> r@ == gbk_decoded(bytes@),
{
    match utf8_text(bytes.clone()) {
        Some(s) => s,
        None => decode_gbk(bytes.as_slice()),
    }
}

/// How many characters of a hex dump are kept.
pub const HEX_DUMP_LIMIT: usize = 4096;

/// A hex dump of `bytes` for the log: two lower-case digits a byte, cut
/// after `HEX_DUMP_LIMIT` characters with a note of the full size.
pub open spec fn hex_dump_text(bytes: Seq<u8>) -> Seq<char> {
    let h = hex_text(bytes, false);
    if h.len() > HEX_DUMP_LIMIT {
        h.take(HEX_DUMP_LIMIT as int) + "...(truncated, total="@ + decimal(bytes.len()) + "B)"@
    } else {
        h
    }
}

/// A hex dump of `bytes` (see `hex_dump_text`).
pub fn hex_dump(bytes: &Vec<u8>) -> (r: String)
    ensures
        r@ == hex_dump_text(bytes@),
{
    let h = hex_string(bytes, false);
    let hv = chars_of(h.as_str());
    if hv.len() > HEX_DUMP_LIMIT {
        let head = slice_vec(&hv, 0, HEX_DUMP_LIMIT);
        assert(head@ =~= hv@.take(HEX_DUMP_LIMIT as int));
        let mut r = string_of(&head);
        push_str(&mut r, "...(truncated, total=");
        push_decimal(&mut r, bytes.len() as u128);
        push_str(&mut r, "B)");
        r
    } else {
        h
    }
}

// ---------------------------------------------------------------------------
// Renaming a folder of volumes
// ---------------------------------------------------------------------------

/// `name` without a trailing "-dir".
pub open spec fn without_dir_suffix(name: Seq<char>) -> Seq<char> {
    if ends_with(name, "-dir"@) {
        name.take(name.len() - 4)
    } else {
        name
    }
}

/// `name` without a trailing "-dir".
pub fn strip_dir_suffix(name: &str) -> (r: String)
    ensures
        r@ == without_dir_suffix(name@),
{
    let v = chars_of(name);
    let sfx = chars_of("-dir");
    proof {
        reveal_strlit("-dir");
    }
    if str_ends_with(&v, &sfx) {
        let head = slice_vec(&v, 0, v.len() - 4);
        assert(head@ =~= v@.take(v.len() - 4));
        string_of(&head)
    } else {
        string_of(&v)
    }
}

/// How many characters of the old name a shortened folder name keeps.
pub const SHORT_NAME_CHARS: usize = 50;

/// The kept part of a folder's name: its first `SHORT_NAME_CHARS`
/// characters, without the trailing "-dir".
pub open spec fn short_base(name: Seq<char>) -> Seq<char> {
    let b = without_dir_suffix(name);
    if b.len() > SHORT_NAME_CHARS {
        b.take(SHORT_NAME_CHARS as int)
    } else {
        b
    }
}

/// A shortened folder name keeps the start of the old one: its base is the
/// first characters of the name, as many as the name has without a final
/// "-dir", and at most `SHORT_NAME_CHARS` of them.
pub proof fn law_short_base_keeps_the_start(name: Seq<char>)
    ensures
        ({
            let d = seq!['-', 'd', 'i', 'r'];
            let whole = if name.len() >= 4 && name.subrange(name.len() - 4, name.len() as int) == d {
                name.len() - 4
            } else {
                name.len() as int
            };
            &&& short_base(name).len() == if whole > SHORT_NAME_CHARS { SHORT_NAME_CHARS as int } else { whole }
            &&& forall|i: int| 0 <= i < short_base(name).len() ==> #[trigger] short_base(name)[i] == name[i]
        }),
{
    reveal_strlit("-dir");
    let d = seq!['-', 'd', 'i', 'r'];
    assert("-dir"@ =~= d);
    if name.len() >= 4 {
        assert(name.skip(name.len() - 4) =~= name.subrange(name.len() - 4, name.len() as int));
    }
}

/// The kept part of a folder's name (see `short_base`).
pub fn shortened_base(name: &str) -> (r: String)
    ensures
        r@ == short_base(name@),
{
    let b = strip_dir_suffix(name);
    let v = chars_of(b.as_str());
    if v.len() > SHORT_NAME_CHARS {
        let head = slice_vec(&v, 0, SHORT_NAME_CHARS);
        assert(head@ =~= v@.take(SHORT_NAME_CHARS as int));
        string_of(&head)
    } else {
        b
    }
}

/// The new name of the folder `original_name`: its short base and "-dir";
/// refused when that is the name it has.
pub fn short_folder_name(original_name: &str) -> (r: Result<String, String>)
    ensures
        short_base(original_name@) + "-dir"@ == original_name@ ==> (r matches Err(e) && e@
            == "新名称与原名称相同，无需改名"@),
        short_base(original_name@) + "-dir"@ != original_name@ ==> (r matches Ok(n) && n@ == short_base(
            original_name@,
        ) + "-dir"@),
{
    let mut n = shortened_base(original_name);
    push_str(&mut n, "-dir");
    if crate::text::str_eq(n.as_str(), original_name) {
        Err("新名称与原名称相同，无需改名".to_owned())
    } else {
        Ok(n)
    }
}

/// The name tried when the short name is taken: base, "-", a number, "-dir".
pub fn numbered_folder_name(base: &str, number: u32) -> (r: String)
    ensures
        r@ == base@ + "-"@ + decimal(number as nat) + "-dir"@,
{
    let mut r = base.to_owned();
    push_str(&mut r, "-");
    push_decimal(&mut r, number as u128);
    push_str(&mut r, "-dir");
    r
}

/// The note left in a renamed folder.
pub fn rename_note(original_name: &str, final_name: &str, timestamp: &str, folder_path: &str) -> (r: String)
    ensures
        r@ == "原始文件名: "@ + original_name@ + "\n原始字节数: "@ + decimal(utf8_len(original_name@))
            + " 字节\n改名原因: 超过 115Crypt 加密驱动 175 字节限制\n新文件夹名: "@ + final_name@ + "\n改名时间: "@
            + timestamp@ + "\n源路径: "@ + folder_path@,
{
    let v = chars_of(original_name);
    let bytes = crate::paths::utf8_byte_count(&v);
    let mut r = "原始文件名: ".to_owned();
    push_str(&mut r, original_name);
    push_str(&mut r, "\n原始字节数: ");
    push_decimal(&mut r, bytes);
    push_str(&mut r, " 字节\n改名原因: 超过 115Crypt 加密驱动 175 字节限制\n新文件夹名: ");
    push_str(&mut r, final_name);
    push_str(&mut r, "\n改名时间: ");
    push_str(&mut r, timestamp);
    push_str(&mut r, "\n源路径: ");
    push_str(&mut r, folder_path);
    r
}

/// ".part" starts at index `i` of `name`, in any letter case. The only
/// characters that lower-case to the letters of ".part" are those letters
/// and their capitals, so this is where a search of the lower-cased name
/// finds it, counted in characters of the name.
pub open spec fn part_at(name: Seq<char>, i: int) -> bool {
    &&& 0 <= i
    &&& i + 5 <= name.len()
    &&& name[i] == '.'
    &&& (name[i + 1] == 'p' || name[i + 1] == 'P')
    &&& (name[i + 2] == 'a' || name[i + 2] == 'A')
    &&& (name[i + 3] == 'r' || name[i + 3] == 'R')
    &&& (name[i + 4] == 't' || name[i + 4] == 'T')
}

/// The first index from `i` on where ".part" starts in `name`.
pub open spec fn first_part_from(name: Seq<char>, i: int) -> Option<int>
    decreases name.len() - i,
{
    if i < 0 || i + 5 > name.len() {
        None
    } else if part_at(name, i) {
        Some(i)
    } else {
        first_part_from(name, i + 1)
    }
}

/// The part suffix of the volume `name` ("xxx.part1.rar" gives
/// "part1.rar"): what follows the '.' of the first ".part", in any letter
/// case.
pub open spec fn part_suffix(name: Seq<char>) -> Option<Seq<char>> {
    match first_part_from(name, 0) {
        Some(i) => Some(name.skip(i + 1)),
        None => None,
    }
}

fn part_at_of(v: &Vec<char>, i: usize) -> (b: bool)
    requires
        i + 5 <= v.len(),
    ensures
        b == part_at(v@, i as int),
{
    v[i] == '.' && (v[i + 1] == 'p' || v[i + 1] == 'P') && (v[i + 2] == 'a' || v[i + 2] == 'A') && (v[i + 3]
        == 'r' || v[i + 3] == 'R') && (v[i + 4] == 't' || v[i + 4] == 'T')
}

/// The part suffix of the volume `name` ("xxx.part1.rar" gives
/// "part1.rar"), searched case-insensitively; nothing when the name has
/// no ".part".
pub fn extract_part_suffix(name: &str) -> (r: Option<String>)
    ensures
        match part_suffix(name@) {
            Some(s) => r matches Some(t) && t@ == s,
            None => r is None,
        },
{
    let v = chars_of(name);
    let mut i: usize = 0;
    while v.len() >= 5 && i <= v.len() - 5
        invariant
            i <= v.len(),
            v@ == name@,
            first_part_from(v@, 0) == first_part_from(v@, i as int),
        decreases v.len() - i,
    {
        if part_at_of(&v, i) {
            let rest = slice_vec(&v, i + 1, v.len());
            assert(rest@ =~= v@.skip(i + 1));
            return Some(string_of(&rest));
        }
        i += 1;
    }
    None
}

/// The new name of the volume `name` in a renamed folder whose base is
/// `new_base`: the base, '.', and the volume's part suffix; nothing for a
/// file without one.
pub fn renamed_part(new_base: &str, name: &str) -> (r: Option<String>)
    ensures
        match part_suffix(name@) {
            Some(s) => r matches Some(t) && t@ == new_base@ + "."@ + s,
            None => r is None,
        },
{
    match extract_part_suffix(name) {
        Some(s) => {
            let mut r = new_base.to_owned();
            push_str(&mut r, ".");
            push_str(&mut r, s.as_str());
            Some(r)
        },
        None => None,
    }
}

} // verus!
