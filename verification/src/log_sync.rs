//! Copying the local log files to a second Alist server: the hashed login,
//! the replies, the order of the files, and the bookkeeping of one sync.
//! The caller reads the files and makes the HTTP calls.
use vstd::prelude::*;
use sha2::Digest;
use crate::models::{AppConfig, LocalLogFileInfo, LogSyncConfig, LogSyncResult};
use crate::paths::trim_end_slash;
use crate::text::{chars_of, contains_seq, hex_digit, hex_string, hex_text, lowercase, push_decimal, push_signed_decimal,
    push_str, signed_decimal, str_contains, string_of, to_lowercase, trim_end, Strip};

verus! {

/// The salt Alist appends to a password before hashing it.
pub open spec fn alist_salt() -> Seq<char> {
    "https://github.com/alist-org/alist"@
}

/// What the SHA-256 hash function (`sha2::Sha256`) gives for `data`.
pub uninterp spec fn sha256_digest(data: Seq<u8>) -> Seq<u8>;

/// The SHA-256 digest of `data`, computed by `sha2::Sha256` (`new`,
/// `update`, `finalize`). The contract names the result and states its
/// length, 32 bytes, which the digest's type fixes; the hash function
/// itself is not restated.
#[verifier::external_body]
fn sha256(data: &[u8]) -> (r: Vec<u8>)
    ensures
        r@ == sha256_digest(data@),
        r@.len() == 32,
{
    let mut hasher = sha2::Sha256::new();
    hasher.update(data);
    hasher.finalize().to_vec()
}

/// How Alist's hashed login expects a password: the lower-case hex of the
/// SHA-256 of the UTF-8 text "password-salt".
pub open spec fn hashed_password(password: Seq<char>) -> Seq<char> {
    hex_text(sha256_digest(vstd::utf8::encode_utf8(password + "-"@ + alist_salt())), false)
}

/// The password as Alist's hashed login expects it (see `hashed_password`).
pub fn hash_password(password: &str) -> (r: String)
    ensures
        r@ == hashed_password(password@),
        r@.len() == 64,
{
    let mut salted = password.to_owned();
    push_str(&mut salted, "-");
    push_str(&mut salted, "https://github.com/alist-org/alist");
    let digest = sha256(salted.as_str().as_bytes());
    let r = hex_string(&digest, false);
    proof {
        crate::text::lemma_hex_len(digest@, false);
    }
    r
}

/// Percent-encoding with every byte but ASCII letters and digits escaped.
pub open spec fn percent_encoded(bytes: Seq<u8>) -> Seq<char>
    decreases bytes.len(),
{
    if bytes.len() == 0 {
        Seq::empty()
    } else {
        let b = bytes.last();
        percent_encoded(bytes.drop_last()) + if (48 <= b <= 57) || (65 <= b <= 90) || (97 <= b <= 122) {
            seq![b as char]
        } else {
            seq!['%', hex_digit((b / 16) as nat, true), hex_digit((b % 16) as nat, true)]
        }
    }
}

/// `s` percent-encoded as a header value with
/// `percent_encoding::utf8_percent_encode(s, NON_ALPHANUMERIC)`: each byte
/// of its UTF-8 text that is not an ASCII letter or digit becomes "%XX"
/// (upper-case hex), as the crate's source shows for that set.
#[verifier::external_body]
fn percent_encode_all(s: &str) -> (r: String)
    ensures
        r@ == percent_encoded(vstd::utf8::encode_utf8(s@)),
{
    percent_encoding::utf8_percent_encode(s, percent_encoding::NON_ALPHANUMERIC).to_string()
}

/// The File-Path header of a log upload: the remote path, percent-encoded.
pub fn encoded_target_path(target_path: &str) -> (r: String)
    ensures
        r@ == percent_encoded(vstd::utf8::encode_utf8(target_path@)),
{
    percent_encode_all(target_path)
}

/// The envelope of a reply of the log server.
pub struct LogSyncResponse<T> {
    pub code: i32,
    pub message: String,
    pub data: Option<T>,
}

/// The reply to a login.
pub struct LogSyncLoginResp {
    pub token: String,
}

/// Why an HTTP exchange broke off: the request could not be sent, or its
/// reply could not be read; with the transport's message.
pub enum Transport {
    SendFailed(String),
    ReadFailed(String),
}

/// The meaning of a login exchange: the reply body and its parse, or where
/// the exchange broke off. Success needs code 200 and a token.
pub fn login_outcome(reply: Result<(String, Result<LogSyncResponse<LogSyncLoginResp>, String>), Transport>) -> (r:
    Result<String, String>)
    ensures
        match reply {
            Err(Transport::SendFailed(e)) => r matches Err(m) && m@ == "登录请求失败: "@ + e@,
            Err(Transport::ReadFailed(e)) => r matches Err(m) && m@ == "读取响应失败: "@ + e@,
            Ok((body, Err(e))) => r matches Err(m) && m@ == "解析响应失败: "@ + e@ + "; 原始: "@ + body@,
            Ok((_, Ok(resp))) => if resp.code == 200 {
                match resp.data {
                    Some(d) => if d.token@.len() > 0 {
                        r matches Ok(t) && t@ == d.token@
                    } else {
                        r matches Err(m) && m@ == "登录成功但未返回 token"@
                    },
                    None => r matches Err(m) && m@ == "登录成功但未返回 token"@,
                }
            } else {
                r matches Err(m) && m@ == "登录失败: code="@ + signed_decimal(resp.code as int) + ", message="@
                    + resp.message@
            },
        },
{
    match reply {
        Err(Transport::SendFailed(e)) => {
            let mut m = "登录请求失败: ".to_owned();
            push_str(&mut m, e.as_str());
            Err(m)
        },
        Err(Transport::ReadFailed(e)) => {
            let mut m = "读取响应失败: ".to_owned();
            push_str(&mut m, e.as_str());
            Err(m)
        },
        Ok((body, Err(e))) => {
            let mut m = "解析响应失败: ".to_owned();
            push_str(&mut m, e.as_str());
            push_str(&mut m, "; 原始: ");
            push_str(&mut m, body.as_str());
            Err(m)
        },
        Ok((_, Ok(resp))) => {
            if resp.code == 200 {
                match resp.data {
                    Some(d) => {
                        if chars_of(d.token.as_str()).len() > 0 {
                            Ok(d.token)
                        } else {
                            Err("登录成功但未返回 token".to_owned())
                        }
                    },
                    None => Err("登录成功但未返回 token".to_owned()),
                }
            } else {
                let mut m = "登录失败: code=".to_owned();
                push_signed_decimal(&mut m, resp.code as i64);
                push_str(&mut m, ", message=");
                push_str(&mut m, resp.message.as_str());
                Err(m)
            }
        },
    }
}

/// The meaning of a request to create the log directory: once the server
/// answered, the directory counts as ready whatever it said.
pub fn ensure_dir_outcome(reply: Result<(), Transport>) -> (r: Result<(), String>)
    ensures
        match reply {
            Err(Transport::SendFailed(e)) => r matches Err(m) && m@ == "创建目录请求失败: "@ + e@,
            Err(Transport::ReadFailed(e)) => r matches Err(m) && m@ == "读取响应失败: "@ + e@,
            Ok(()) => r is Ok,
        },
{
    match reply {
        Err(Transport::SendFailed(e)) => {
            let mut m = "创建目录请求失败: ".to_owned();
            push_str(&mut m, e.as_str());
            Err(m)
        },
        Err(Transport::ReadFailed(e)) => {
            let mut m = "读取响应失败: ".to_owned();
            push_str(&mut m, e.as_str());
            Err(m)
        },
        Ok(()) => Ok(()),
    }
}

/// Why a log upload broke off before the server's answer was read.
pub enum UploadBreak {
    /// The local file could not be read.
    ReadLocal(String),
    SendFailed(String),
    ReadFailed(String),
}

/// The meaning of uploading the log file `file_name`: the server's code and
/// message when its body is an Alist reply (`None` when it is not: then the
/// code counts as -1 and the body as the message).
pub fn upload_outcome(file_name: &str, reply: Result<(String, Option<(i32, String)>), UploadBreak>) -> (r: Result<
    (),
    String,
>)
    ensures
        match reply {
            Err(UploadBreak::ReadLocal(e)) => r matches Err(m) && m@ == "读取本地日志文件失败: file="@ + file_name@
                + ", error="@ + e@,
            Err(UploadBreak::SendFailed(e)) => r matches Err(m) && m@ == "上传请求失败: file="@ + file_name@
                + ", error="@ + e@,
            Err(UploadBreak::ReadFailed(e)) => r matches Err(m) && m@ == "读取上传响应失败: file="@ + file_name@
                + ", error="@ + e@,
            Ok((body, parsed)) => {
                let (code, message) = match parsed {
                    Some((c, m)) => (c, m@),
                    None => (-1i32, body@),
                };
                &&& code == 200 ==> r is Ok
                &&& code != 200 ==> (r matches Err(m) && m@ == "上传失败: file="@ + file_name@ + ", code="@
                    + signed_decimal(code as int) + ", message="@ + message)
            },
        },
{
    match reply {
        Err(UploadBreak::ReadLocal(e)) => {
            let mut m = "读取本地日志文件失败: file=".to_owned();
            push_str(&mut m, file_name);
            push_str(&mut m, ", error=");
            push_str(&mut m, e.as_str());
            Err(m)
        },
        Err(UploadBreak::SendFailed(e)) => {
            let mut m = "上传请求失败: file=".to_owned();
            push_str(&mut m, file_name);
            push_str(&mut m, ", error=");
            push_str(&mut m, e.as_str());
            Err(m)
        },
        Err(UploadBreak::ReadFailed(e)) => {
            let mut m = "读取上传响应失败: file=".to_owned();
            push_str(&mut m, file_name);
            push_str(&mut m, ", error=");
            push_str(&mut m, e.as_str());
            Err(m)
        },
        Ok((body, parsed)) => {
            let (code, message) = match parsed {
                Some((c, msg)) => (c, msg),
                None => (-1i32, body),
            };
            if code == 200 {
                Ok(())
            } else {
                let mut m = "上传失败: file=".to_owned();
                push_str(&mut m, file_name);
                push_str(&mut m, ", code=");
                push_signed_decimal(&mut m, code as i64);
                push_str(&mut m, ", message=");
                push_str(&mut m, message.as_str());
                Err(m)
            }
        },
    }
}

// ---------------------------------------------------------------------------
// One sync
// ---------------------------------------------------------------------------

/// How a sync begins.
pub enum SyncStart {
    /// No server is configured: the sync ends with this result.
    NoServer(LogSyncResult),
    /// Log in first (no token, but a user name and password).
    LoginFirst,
    /// Sync with the stored token.
    Direct,
}

/// A result that synced nothing, with one detail.
pub open spec fn empty_result(r: LogSyncResult, detail: Seq<char>, last_sync_at: Option<String>) -> bool {
    &&& r.total == 0 && r.success == 0 && r.failed == 0
    &&& r.details@.len() == 1 && r.details@[0]@ == detail
    &&& r.last_sync_at == last_sync_at
}

/// A result that synced nothing, with one detail.
pub fn nothing_synced(detail: String, last_sync_at: Option<String>) -> (r: LogSyncResult)
    ensures
        empty_result(r, detail@, last_sync_at),
{
    let mut details: Vec<String> = Vec::new();
    details.push(detail);
    LogSyncResult { total: 0, success: 0, failed: 0, details, last_sync_at }
}

/// The start of a sync: without a server address nothing happens (the
/// last sync time stays `last_sync_at`); without a token but with a user
/// name and password the client logs in first.
pub fn sync_start(config: &LogSyncConfig, last_sync_at: Option<String>) -> (r: SyncStart)
    ensures
        config.base_url@.len() == 0 ==> (r matches SyncStart::NoServer(res) && empty_result(
            res,
            "日志Alist地址为空，请先配置"@,
            last_sync_at,
        )),
        config.base_url@.len() > 0 && config.token@.len() == 0 && config.username@.len() > 0 && config.password@.len()
            > 0 ==> r is LoginFirst,
        config.base_url@.len() > 0 && !(config.token@.len() == 0 && config.username@.len() > 0
            && config.password@.len() > 0) ==> r is Direct,
{
    if chars_of(config.base_url.as_str()).len() == 0 {
        return SyncStart::NoServer(nothing_synced("日志Alist地址为空，请先配置".to_owned(), last_sync_at));
    }
    if chars_of(config.token.as_str()).len() == 0 && chars_of(config.username.as_str()).len() > 0 && chars_of(
        config.password.as_str(),
    ).len() > 0 {
        SyncStart::LoginFirst
    } else {
        SyncStart::Direct
    }
}

/// The result of a sync whose target directory could not be made.
pub fn dir_failed_result(error: &str, last_sync_at: Option<String>) -> (r: LogSyncResult)
    ensures
        empty_result(r, "创建目录失败: "@ + error@, last_sync_at),
{
    let mut m = "创建目录失败: ".to_owned();
    push_str(&mut m, error);
    nothing_synced(m, last_sync_at)
}

/// The result of a sync that found no log file to upload.
pub fn no_log_files_result(last_sync_at: Option<String>) -> (r: LogSyncResult)
    ensures
        empty_result(r, "未找到本地日志文件"@, last_sync_at),
{
    nothing_synced("未找到本地日志文件".to_owned(), last_sync_at)
}

/// The result of a sync whose login failed with `error`.
pub fn login_failed_result(error: &str, last_sync_at: Option<String>) -> (r: LogSyncResult)
    ensures
        empty_result(r, "登录失败: "@ + error@, last_sync_at),
{
    let mut m = "登录失败: ".to_owned();
    push_str(&mut m, error);
    nothing_synced(m, last_sync_at)
}

/// A detail that looks like an expired or refused token.
pub open spec fn auth_error_detail(d: Seq<char>) -> bool {
    let l = lowercase(d);
    contains_seq(l, "401"@) || contains_seq(l, "unauthorized"@) || contains_seq(l, "token"@) || contains_seq(l, "认证"@)
}

/// A sync is tried once more after logging in again when it uploaded
/// nothing, something failed, a user name and password are known, and a
/// detail looks like a token problem.
pub fn should_relogin(result: &LogSyncResult, config: &LogSyncConfig) -> (b: bool)
    ensures
        b == (result.failed > 0 && result.success == 0 && config.username@.len() > 0 && config.password@.len() > 0
            && exists|i: int| 0 <= i < result.details@.len() && auth_error_detail(#[trigger] result.details@[i]@)),
{
    if !(result.failed > 0 && result.success == 0 && chars_of(config.username.as_str()).len() > 0 && chars_of(
        config.password.as_str(),
    ).len() > 0) {
        return false;
    }
    let mut i: usize = 0;
    while i < result.details.len()
        invariant
            i <= result.details.len(),
            result.failed > 0 && result.success == 0 && config.username@.len() > 0 && config.password@.len() > 0,
            forall|j: int| 0 <= j < i ==> !auth_error_detail(#[trigger] result.details@[j]@),
        decreases result.details.len() - i,
    {
        let l = to_lowercase(result.details[i].as_str());
        if str_contains(l.as_str(), "401") || str_contains(l.as_str(), "unauthorized") || str_contains(
            l.as_str(),
            "token",
        ) || str_contains(l.as_str(), "认证") {
            assert(auth_error_detail(result.details@[i as int]@));
            return true;
        }
        i += 1;
    }
    false
}

/// The remote directory of the logs: the configured path without trailing
/// '/'.
pub fn sync_target_dir(config: &LogSyncConfig) -> (r: String)
    ensures
        r@ == trim_end_slash(config.target_path@),
{
    let v = chars_of(config.target_path.as_str());
    string_of(&trim_end(&v, &Strip::Char('/')))
}

/// The remote file of the log `name` in the directory `target`.
pub open spec fn log_target(target: Seq<char>, name: Seq<char>) -> Seq<char> {
    if target.len() > 0 && target.last() == '/' {
        target + name
    } else {
        target + seq!['/'] + name
    }
}

/// The remote file of the log `name` in the directory `target`.
pub fn log_file_target(target: &str, name: &str) -> (r: String)
    ensures
        r@ == log_target(target@, name@),
{
    let tv = chars_of(target);
    let mut r = string_of(&tv);
    if !(tv.len() > 0 && tv[tv.len() - 1] == '/') {
        r.push('/');
    }
    push_str(&mut r, name);
    r
}

/// The line recorded for an uploaded or failed log file.
pub open spec fn sync_detail(name: Seq<char>, outcome: Result<(), String>) -> Seq<char> {
    match outcome {
        Ok(()) => "✓ "@ + name,
        Err(e) => "✗ "@ + name + ": "@ + e@,
    }
}

/// The bookkeeping of one sync.
pub struct SyncTally {
    pub success: usize,
    pub failed: usize,
    pub details: Vec<String>,
}

impl SyncTally {
    /// Each counted file has its one line.
    pub open spec fn balanced(&self) -> bool {
        self.success + self.failed == self.details@.len()
    }

    /// Nothing counted yet.
    pub fn new() -> (r: Self)
        ensures
            r.success == 0 && r.failed == 0 && r.details@.len() == 0,
            r.balanced(),
    {
        SyncTally { success: 0, failed: 0, details: Vec::new() }
    }

    /// Counts the upload of the log `name`, with its line.
    pub fn record(&mut self, name: &str, outcome: Result<(), String>)
        requires
            old(self).success < usize::MAX,
            old(self).failed < usize::MAX,
        ensures
            outcome is Ok ==> final(self).success == old(self).success + 1 && final(self).failed == old(self).failed,
            outcome is Err ==> final(self).failed == old(self).failed + 1 && final(self).success == old(self).success,
            final(self).details@.len() == old(self).details@.len() + 1,
            final(self).details@.take(old(self).details@.len() as int) == old(self).details@,
            final(self).details@.last()@ == sync_detail(name@, outcome),
            old(self).balanced() ==> final(self).balanced(),
    {
        let ghost before = self.details@;
        match outcome {
            Ok(()) => {
                self.success = self.success + 1;
                let mut d = "✓ ".to_owned();
                push_str(&mut d, name);
                self.details.push(d);
            },
            Err(e) => {
                self.failed = self.failed + 1;
                let mut d = "✗ ".to_owned();
                push_str(&mut d, name);
                push_str(&mut d, ": ");
                push_str(&mut d, e.as_str());
                self.details.push(d);
            },
        }
        assert(self.details@.take(before.len() as int) =~= before);
    }

    /// The result of the sync of `total` files: the time of this sync
    /// (`now`) when something was uploaded, else the last one before.
    pub fn finish(self, total: usize, now: String, last_sync_at: Option<String>) -> (r: LogSyncResult)
        ensures
            r.total == total,
            r.success == self.success,
            r.failed == self.failed,
            r.details@ == self.details@,
            self.success > 0 ==> r.last_sync_at == Some(now),
            self.success == 0 ==> r.last_sync_at == last_sync_at,
    {
        let last = if self.success > 0 {
            Some(now)
        } else {
            last_sync_at
        };
        LogSyncResult { total, success: self.success, failed: self.failed, details: self.details, last_sync_at: last }
    }
}

// ---------------------------------------------------------------------------
// Local log files
// ---------------------------------------------------------------------------

/// `a` sorts before `b`: character by character, a prefix first (the order
/// of `str`).
pub open spec fn name_less(a: Seq<char>, b: Seq<char>) -> bool
    decreases a.len(),
{
    if a.len() == 0 {
        b.len() > 0
    } else if b.len() == 0 {
        false
    } else if a[0] != b[0] {
        (a[0] as u32) < (b[0] as u32)
    } else {
        name_less(a.drop_first(), b.drop_first())
    }
}

/// Whether `a` sorts before `b` (see `name_less`).
fn names_less(a: &Vec<char>, b: &Vec<char>) -> (r: bool)
    ensures
        r == name_less(a@, b@),
{
    let mut i: usize = 0;
    assert(a@.skip(0) =~= a@);
    assert(b@.skip(0) =~= b@);
    while i < a.len() && i < b.len()
        invariant
            i <= a.len() && i <= b.len(),
            forall|j: int| 0 <= j < i ==> a@[j] == b@[j],
            name_less(a@, b@) == name_less(a@.skip(i as int), b@.skip(i as int)),
        decreases a.len() - i,
    {
        if a[i] != b[i] {
            assert(a@.skip(i as int)[0] == a@[i as int]);
            assert(b@.skip(i as int)[0] == b@[i as int]);
            return (a[i] as u32) < (b[i] as u32);
        }
        assert(a@.skip(i as int).drop_first() =~= a@.skip(i + 1));
        assert(b@.skip(i as int).drop_first() =~= b@.skip(i + 1));
        i += 1;
    }
    i == a.len() && i < b.len()
}

/// A log file found on disk: where it is, its name, size and modification
/// time.
#[derive(Debug, Clone)]
pub struct LogFileEntry {
    pub path: String,
    pub name: String,
    pub size: u64,
    pub modified: Option<String>,
}

/// `p` shows `r` to be `s` stably sorted by name.
pub open spec fn name_sort_witness(r: Seq<LogFileEntry>, s: Seq<LogFileEntry>, p: Seq<int>) -> bool {
    &&& r.len() == s.len()
    &&& p.len() == s.len()
    &&& forall|i: int| 0 <= i < p.len() ==> 0 <= #[trigger] p[i] < s.len() && r[i] == s[p[i]]
    &&& forall|i: int, j: int| 0 <= i < j < p.len() ==> #[trigger] p[i] != #[trigger] p[j]
    &&& forall|i: int, j: int|
        0 <= i < j < r.len() ==> !name_less((#[trigger] r[j]).name@, (#[trigger] r[i]).name@) && (!name_less(
            r[i].name@,
            r[j].name@,
        ) ==> p[i] < p[j])
}

/// `r` is `s` stably sorted by name.
pub open spec fn sorted_by_name(r: Seq<LogFileEntry>, s: Seq<LogFileEntry>) -> bool {
    exists|p: Seq<int>| name_sort_witness(r, s, p)
}

proof fn lemma_name_less_irreflexive(a: Seq<char>)
    ensures
        !name_less(a, a),
    decreases a.len(),
{
    if a.len() > 0 {
        lemma_name_less_irreflexive(a.drop_first());
    }
}

proof fn lemma_name_less_asymmetric(a: Seq<char>, b: Seq<char>)
    requires
        name_less(a, b),
    ensures
        !name_less(b, a),
    decreases a.len(),
{
    if a.len() > 0 && b.len() > 0 && a[0] == b[0] {
        lemma_name_less_asymmetric(a.drop_first(), b.drop_first());
    }
}

proof fn lemma_name_less_trans(a: Seq<char>, b: Seq<char>, c: Seq<char>)
    requires
        !name_less(b, a),
        !name_less(c, b),
    ensures
        !name_less(c, a),
    decreases a.len(),
{
    if a.len() > 0 {
        assert(b.len() > 0);
        assert(c.len() > 0);
        assert((a[0] as u32) <= (b[0] as u32));
        assert((b[0] as u32) <= (c[0] as u32));
        if (a[0] as u32) == (c[0] as u32) {
            vstd::utf8::char_u32_cast(a[0], a[0] as u32);
            vstd::utf8::char_u32_cast(b[0], b[0] as u32);
            vstd::utf8::char_u32_cast(c[0], c[0] as u32);
            assert(a[0] == b[0] && b[0] == c[0]);
            lemma_name_less_trans(a.drop_first(), b.drop_first(), c.drop_first());
        }
    }
}

/// The first position of `r` whose name sorts after `name`; every entry
/// before it does not.
fn name_insert_position(r: &Vec<LogFileEntry>, name: &Vec<char>) -> (pos: usize)
    ensures
        pos <= r.len(),
        forall|j: int| 0 <= j < pos ==> !name_less(name@, (#[trigger] r@[j]).name@),
        pos < r.len() ==> name_less(name@, r@[pos as int].name@),
{
    let mut j: usize = 0;
    while j < r.len()
        invariant
            j <= r.len(),
            forall|m: int| 0 <= m < j ==> !name_less(name@, (#[trigger] r@[m]).name@),
        decreases r.len() - j,
    {
        let nj = chars_of(r[j].name.as_str());
        if names_less(name, &nj) {
            return j;
        }
        j += 1;
    }
    j
}

/// `s` stably sorted by name.
pub fn sort_log_files(s: &Vec<LogFileEntry>) -> (r: Vec<LogFileEntry>)
    ensures
        sorted_by_name(r@, s@),
{
    let mut r: Vec<LogFileEntry> = Vec::new();
    let ghost mut p: Seq<int> = Seq::empty();
    let mut i: usize = 0;
    while i < s.len()
        invariant
            i <= s.len(),
            name_sort_witness(r@, s@.take(i as int), p),
        decreases s.len() - i,
    {
        let t = LogFileEntry {
            path: s[i].path.clone(),
            name: s[i].name.clone(),
            size: s[i].size,
            modified: crate::models::clone_opt_string(&s[i].modified),
        };
        assert(t == s@[i as int]);
        let nt = chars_of(t.name.as_str());
        let pos = name_insert_position(&r, &nt);
        let ghost old_r = r@;
        let ghost old_p = p;
        r.insert(pos, t);
        proof {
            p = old_p.insert(pos as int, i as int);
            let si = s@.take(i + 1);
            assert(s@.take(i as int) =~= si.take(i as int));
            assert forall|a: int| 0 <= a < p.len() implies 0 <= #[trigger] p[a] < si.len() && r@[a] == si[p[a]] by {
                if a < pos {
                    assert(p[a] == old_p[a]);
                } else if a > pos {
                    assert(p[a] == old_p[a - 1]);
                }
            }
            assert forall|a: int, b: int| 0 <= a < b < p.len() implies #[trigger] p[a] != #[trigger] p[b] by {
                if a < pos && b > pos {
                    assert(old_p[a] != old_p[b - 1]);
                } else if a > pos {
                    assert(old_p[a - 1] != old_p[b - 1]);
                } else if b < pos {
                    assert(old_p[a] != old_p[b]);
                }
            }
            assert forall|a: int, b: int| 0 <= a < b < r@.len() implies !name_less(
                (#[trigger] r@[b]).name@,
                (#[trigger] r@[a]).name@,
            ) && (!name_less(r@[a].name@, r@[b].name@) ==> p[a] < p[b]) by {
                if a == pos {
                    let x = old_r[pos as int].name@;
                    let y = old_r[b - 1].name@;
                    lemma_name_less_irreflexive(x);
                    lemma_name_less_asymmetric(nt@, x);
                    lemma_name_less_trans(nt@, x, y);
                    if !name_less(nt@, y) {
                        lemma_name_less_trans(x, y, nt@);
                    }
                } else if b == pos {
                } else if a < pos && b > pos {
                    assert(r@[a] == old_r[a] && r@[b] == old_r[b - 1]);
                } else if a > pos {
                    assert(r@[a] == old_r[a - 1] && r@[b] == old_r[b - 1]);
                } else {
                    assert(r@[a] == old_r[a] && r@[b] == old_r[b]);
                }
            }
        }
        i += 1;
    }
    assert(s@.take(s.len() as int) =~= s@);
    r
}

/// The local log files as listed to the user, in name order.
pub fn get_local_log_files(found: &Vec<LogFileEntry>) -> (r: Vec<LocalLogFileInfo>)
    ensures
        exists|sorted: Seq<LogFileEntry>|
            #![trigger sorted_by_name(sorted, found@)]
            sorted_by_name(sorted, found@) && r@.len() == sorted.len() && forall|i: int|
                0 <= i < sorted.len() ==> (#[trigger] r@[i]).name@ == sorted[i].name@ && r@[i].size == sorted[i].size
                    && r@[i].modified == sorted[i].modified,
{
    let sorted = sort_log_files(found);
    let mut r: Vec<LocalLogFileInfo> = Vec::new();
    let mut i: usize = 0;
    while i < sorted.len()
        invariant
            i <= sorted.len(),
            r@.len() == i,
            forall|j: int|
                0 <= j < i ==> (#[trigger] r@[j]).name@ == sorted@[j].name@ && r@[j].size == sorted@[j].size
                    && r@[j].modified == sorted@[j].modified,
        decreases sorted.len() - i,
    {
        let e = &sorted[i];
        let m = crate::models::clone_opt_string(&e.modified);
        r.push(LocalLogFileInfo { name: e.name.clone(), size: e.size, modified: m });
        i += 1;
    }
    assert(sorted_by_name(sorted@, found@));
    r
}

// ---------------------------------------------------------------------------
// When to sync
// ---------------------------------------------------------------------------

/// Logs are synced when the application exits: when syncing is on, wanted
/// on exit, and a server is set.
pub fn sync_on_exit_wanted(config: &LogSyncConfig) -> (b: bool)
    ensures
        b == (config.enabled && config.sync_on_exit && config.base_url@.len() > 0),
{
    config.enabled && config.sync_on_exit && chars_of(config.base_url.as_str()).len() > 0
}

/// The period of the background sync in seconds, when it runs: syncing on,
/// a positive interval (in minutes), and a server set.
pub fn interval_sync_period(config: &LogSyncConfig) -> (r: Option<u64>)
    ensures
        (config.enabled && config.sync_interval_minutes > 0 && config.base_url@.len() > 0) ==> r == Some(
            (config.sync_interval_minutes * 60) as u64,
        ),
        !(config.enabled && config.sync_interval_minutes > 0 && config.base_url@.len() > 0) ==> r is None,
{
    if config.enabled && config.sync_interval_minutes > 0 && chars_of(config.base_url.as_str()).len() > 0 {
        Some((config.sync_interval_minutes as u64) * 60)
    } else {
        None
    }
}

/// The time of the last successful sync stored in a loaded configuration
/// (none when the configuration could not be loaded).
pub fn load_last_sync_at(loaded: Option<AppConfig>) -> (r: Option<String>)
    ensures
        match loaded {
            Some(c) => r == c.log_sync.last_sync_at,
            None => r is None,
        },
{
    match loaded {
        Some(c) => c.log_sync.last_sync_at,
        None => None,
    }
}

/// Stores a fresh token of the log server in the configuration.
pub fn save_token_to_config(config: &mut AppConfig, token: &str)
    ensures
        final(config).log_sync.token@ == token@,
        final(config).log_sync.base_url == old(config).log_sync.base_url,
        final(config).log_sync.username == old(config).log_sync.username,
        final(config).log_sync.password == old(config).log_sync.password,
        final(config).log_sync.last_sync_at == old(config).log_sync.last_sync_at,
        final(config).log_sync.target_path == old(config).log_sync.target_path,
        final(config).log_sync.enabled == old(config).log_sync.enabled,
        final(config).log_sync.sync_on_exit == old(config).log_sync.sync_on_exit,
        final(config).log_sync.sync_interval_minutes == old(config).log_sync.sync_interval_minutes,
        final(config).log_sync.use_system_proxy == old(config).log_sync.use_system_proxy,
        final(config).alist == old(config).alist,
        final(config).upload == old(config).upload,
        final(config).history == old(config).history,
{
    config.log_sync.token = token.to_owned();
}

} // verus!
