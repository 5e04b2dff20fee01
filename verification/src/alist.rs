//! The Alist (OpenList) HTTP API as this application uses it: the replies'
//! shapes, the requests it makes, and what each reply means. The caller
//! sends the requests and parses the JSON bodies into these types.
use vstd::prelude::*;
use crate::paths::{file_name_from_path, is_upload_root, join_alist_path, join_remote, names_upload_root, trim_end_slash,
    upload_file_name};
use crate::text::{chars_eq, chars_of, contains_seq, decimal, push_decimal, push_signed_decimal, push_str, signed_decimal,
    str_contains, str_eq, string_of, trim_end, Strip};

verus! {

/// Why a call to Alist failed.
#[derive(Debug, Clone)]
pub enum AlistError {
    /// The HTTP request could not be made; the transport's own message.
    Request(String),
    /// Alist answered with an error, or an answer could not be used.
    Api(String),
    /// Alist answered with an error; its raw reply is kept.
    ApiWithResponse { message: String, raw: String },
    /// The target file already exists on the drive.
    FileExists,
    AuthFailed,
    ServiceUnavailable,
    /// Reading the local file failed; the system's message.
    Io(String),
}

/// The text of an error, as shown to the user.
pub open spec fn alist_error_text(e: AlistError) -> Seq<char> {
    match e {
        AlistError::Request(m) => "HTTP 请求失败："@ + m@,
        AlistError::Api(m) => "Alist API 错误："@ + m@,
        AlistError::ApiWithResponse { message, raw } => "Alist API 错误："@ + message@ + "\n原始响应："@ + raw@,
        AlistError::FileExists => "文件已存在"@,
        AlistError::AuthFailed => "认证失败"@,
        AlistError::ServiceUnavailable => "服务不可用"@,
        AlistError::Io(m) => "IO 错误："@ + m@,
    }
}

impl AlistError {
    /// The text of the error (see `alist_error_text`).
    pub fn to_string(&self) -> (r: String)
        ensures
            r@ == alist_error_text(*self),
    {
        match self {
            AlistError::Request(m) => {
                let mut r = "HTTP 请求失败：".to_owned();
                push_str(&mut r, m.as_str());
                r
            },
            AlistError::Api(m) => {
                let mut r = "Alist API 错误：".to_owned();
                push_str(&mut r, m.as_str());
                r
            },
            AlistError::ApiWithResponse { message, raw } => {
                let mut r = "Alist API 错误：".to_owned();
                push_str(&mut r, message.as_str());
                push_str(&mut r, "\n原始响应：");
                push_str(&mut r, raw.as_str());
                r
            },
            AlistError::FileExists => "文件已存在".to_owned(),
            AlistError::AuthFailed => "认证失败".to_owned(),
            AlistError::ServiceUnavailable => "服务不可用".to_owned(),
            AlistError::Io(m) => {
                let mut r = "IO 错误：".to_owned();
                push_str(&mut r, m.as_str());
                r
            },
        }
    }
}

/// The envelope of every Alist reply.
#[derive(Debug)]
pub struct AlistResponse<T> {
    pub code: i32,
    pub message: String,
    pub data: Option<T>,
}

/// The current user.
#[derive(Debug, Clone)]
pub struct AlistUserResp {
    pub id: i64,
    pub username: String,
}

/// The reply to a login.
#[derive(Debug, Clone)]
pub struct LoginResp {
    pub token: String,
}

/// One background upload task of Alist. Its state: 0 pending, 1 running,
/// 2 succeeded, 3 cancelled, 4 error.
#[derive(Debug, Clone)]
pub struct AlistTaskResp {
    pub id: String,
    pub name: String,
    pub state: i32,
    pub status: String,
    pub error: String,
}

/// A list of background tasks.
#[derive(Debug)]
pub struct AlistTaskListResp {
    pub tasks: Vec<AlistTaskResp>,
    pub total: i32,
}

/// A directory listing.
#[derive(Debug)]
pub struct ListResp {
    pub content: Option<Vec<DirItem>>,
}

/// One entry of a directory listing.
#[derive(Debug, Clone)]
pub struct DirItem {
    pub name: String,
    pub size: u64,
    pub is_dir: bool,
    pub modified: Option<String>,
    pub sign: Option<String>,
}

/// How the `data` of a task-list reply was shaped: absent, a list of tasks,
/// an object with a `tasks` list, or anything else; a list that could not
/// be read as tasks holds the parser's message.
pub enum TaskListData {
    Absent,
    List(Result<Vec<AlistTaskResp>, String>),
    Tasks(Result<Vec<AlistTaskResp>, String>),
    Other,
}

// ---------------------------------------------------------------------------
// Requests
// ---------------------------------------------------------------------------

/// `base` followed by `endpoint`; with `trim`, the trailing '/' of `base`
/// are dropped first.
pub open spec fn endpoint_url(base: Seq<char>, trim: bool, endpoint: Seq<char>) -> Seq<char> {
    (if trim {
        trim_end_slash(base)
    } else {
        base
    }) + endpoint
}

/// The URL of `endpoint` (such as "/api/fs/list") on the server at `base`.
pub fn api_url(base: &str, trim: bool, endpoint: &str) -> (r: String)
    ensures
        r@ == endpoint_url(base@, trim, endpoint@),
{
    let mut r = if trim {
        let v = chars_of(base);
        let t = trim_end(&v, &Strip::Char('/'));
        string_of(&t)
    } else {
        string_of(&chars_of(base))
    };
    push_str(&mut r, endpoint);
    r
}

/// The Authorization header sent: the token, when there is one.
pub fn auth_header(token: &str) -> (r: Option<String>)
    ensures
        token@.len() == 0 ==> r is None,
        token@.len() > 0 ==> (r matches Some(t) && t@ == token@),
{
    let v = chars_of(token);
    if v.len() == 0 {
        None
    } else {
        Some(string_of(&v))
    }
}

/// What an upload sends: where, to which remote file, and its headers
/// besides authorization.
pub struct UploadPlan {
    /// The endpoint URL.
    pub url: String,
    /// The file's name, as the form part names it.
    pub file_name: String,
    /// The remote file, sent as the File-Path header.
    pub target_path: String,
    /// Sent as a multipart form (method "form") instead of a raw stream.
    pub as_form: bool,
    /// The As-Task header is sent.
    pub as_task: bool,
}

/// The refusal of the remote root as an upload target.
pub open spec fn root_upload_message() -> Seq<char> {
    "上传目标目录不能为根目录 /，请选择 Alist 中的具体目录"@
}

/// Plans the upload of the local file `file_path` into the remote
/// directory `alist_path`. The root is refused; otherwise the file keeps
/// its name below `alist_path`, and "form" selects the form endpoint
/// (anything else streams to "/api/fs/put"). Existing files are never
/// overwritten (the Overwrite header is always "false").
pub fn plan_upload(base_url: &str, file_path: &str, alist_path: &str, as_task: bool, upload_method: &str) -> (r: Result<
    UploadPlan,
    AlistError,
>)
    ensures
        names_upload_root(alist_path@) ==> (r matches Err(AlistError::Api(m)) && m@ == root_upload_message()),
        !names_upload_root(alist_path@) ==> (r matches Ok(p) && {
            &&& p.file_name@ == upload_file_name(file_path@)
            &&& p.target_path@ == join_remote(alist_path@, upload_file_name(file_path@))
            &&& p.as_form == (upload_method@ == "form"@)
            &&& p.as_task == as_task
            &&& p.url@ == endpoint_url(
                base_url@,
                false,
                if upload_method@ == "form"@ {
                    "/api/fs/form"@
                } else {
                    "/api/fs/put"@
                },
            )
        }),
{
    if is_upload_root(alist_path) {
        return Err(AlistError::Api("上传目标目录不能为根目录 /，请选择 Alist 中的具体目录".to_owned()));
    }
    let file_name = file_name_from_path(file_path);
    let target_path = join_alist_path(alist_path, file_name.as_str());
    let as_form = str_eq(upload_method, "form");
    let url = if as_form {
        api_url(base_url, false, "/api/fs/form")
    } else {
        api_url(base_url, false, "/api/fs/put")
    };
    Ok(UploadPlan { url, file_name, target_path, as_form, as_task })
}

// ---------------------------------------------------------------------------
// Replies
// ---------------------------------------------------------------------------

/// The error for a reply body that could not be read.
pub fn read_failure(error: &str) -> (e: AlistError)
    ensures
        e matches AlistError::Api(m) && m@ == "读取响应失败: "@ + error@,
{
    let mut m = "读取响应失败: ".to_owned();
    push_str(&mut m, error);
    AlistError::Api(m)
}

/// The meaning of a login reply `body`, parsed as `parsed` (or the parser's
/// message): the token on success.
pub fn login_reply(body: &str, parsed: Result<AlistResponse<LoginResp>, String>) -> (r: Result<String, AlistError>)
    ensures
        match parsed {
            Err(e) => r matches Err(AlistError::Api(m)) && m@ == "解析响应失败: "@ + e@ + "; 原始响应: "@ + body@,
            Ok(resp) => if resp.code == 200 {
                match resp.data {
                    Some(d) => r matches Ok(t) && t@ == d.token@,
                    None => r matches Err(AlistError::Api(m)) && m@ == "登录成功但未返回 token"@,
                }
            } else {
                r matches Err(AlistError::Api(m)) && m@ == resp.message@
            },
        },
{
    match parsed {
        Err(e) => {
            let mut m = "解析响应失败: ".to_owned();
            push_str(&mut m, e.as_str());
            push_str(&mut m, "; 原始响应: ");
            push_str(&mut m, body);
            Err(AlistError::Api(m))
        },
        Ok(resp) => {
            if resp.code == 200 {
                match resp.data {
                    Some(d) => Ok(d.token),
                    None => Err(AlistError::Api("登录成功但未返回 token".to_owned())),
                }
            } else {
                Err(AlistError::Api(resp.message))
            }
        },
    }
}

/// An HTTP status in the success class (200 to 299).
pub open spec fn is_success_status(status: u16) -> bool {
    200 <= status <= 299
}

/// The meaning of the reply to "/api/me" when testing a token: whether the
/// token is accepted. A reply that is not a success status means no.
pub fn test_connection_reply(status: u16, body: &str, parsed: Result<AlistResponse<()>, String>) -> (r: Result<
    bool,
    AlistError,
>)
    ensures
        !is_success_status(status) ==> r == Ok::<bool, AlistError>(false),
        is_success_status(status) ==> match parsed {
            Err(e) => r matches Err(AlistError::Api(m)) && m@ == "解析 /api/me 响应失败: "@ + e@ + "; 原始响应: "@
                + body@,
            Ok(resp) => r == Ok::<bool, AlistError>(resp.code == 200),
        },
{
    if !(200 <= status && status <= 299) {
        return Ok(false);
    }
    match parsed {
        Err(e) => {
            let mut m = "解析 /api/me 响应失败: ".to_owned();
            push_str(&mut m, e.as_str());
            push_str(&mut m, "; 原始响应: ");
            push_str(&mut m, body);
            Err(AlistError::Api(m))
        },
        Ok(resp) => Ok(resp.code == 200),
    }
}

/// The meaning of the reply to "/api/me" when asking for the current user.
pub fn current_user_reply(resp: AlistResponse<AlistUserResp>) -> (r: Result<AlistUserResp, AlistError>)
    ensures
        resp.code == 200 ==> match resp.data {
            Some(u) => r == Ok::<AlistUserResp, AlistError>(u),
            None => r matches Err(AlistError::Api(m)) && m@ == "无用户数据"@,
        },
        resp.code != 200 ==> (r matches Err(AlistError::Api(m)) && m@ == resp.message@),
{
    if resp.code == 200 {
        match resp.data {
            Some(u) => Ok(u),
            None => Err(AlistError::Api("无用户数据".to_owned())),
        }
    } else {
        Err(AlistError::Api(resp.message))
    }
}

/// The entry's name is `filename`.
pub open spec fn named_as(name: Option<String>, filename: Seq<char>) -> bool {
    match name {
        Some(n) => n@ == filename,
        None => false,
    }
}

/// Some listed name is `filename`.
pub open spec fn listed_name(names: Seq<Option<String>>, filename: Seq<char>) -> bool {
    exists|i: int| 0 <= i < names.len() && named_as(#[trigger] names[i], filename)
}

/// A listing with code `code` and entry names `names` shows `filename`.
pub open spec fn shows_file(code: i32, names: Option<Vec<Option<String>>>, filename: Seq<char>) -> bool {
    match names {
        Some(ns) => code == 200 && listed_name(ns@, filename),
        None => false,
    }
}

/// Whether a directory listing (code, and the names of its `content`
/// entries when `content` is a list; an entry without a string name is
/// `None`) shows `filename`. An error code means no.
pub fn file_listed(code: i32, names: &Option<Vec<Option<String>>>, filename: &str) -> (b: bool)
    ensures
        b == shows_file(code, *names, filename@),
{
    if code != 200 {
        return false;
    }
    match names {
        None => false,
        Some(ns) => {
            assert(*names == Some(*ns));
            let mut i: usize = 0;
            while i < ns.len()
                invariant
                    i <= ns.len(),
                    *names == Some(*ns),
                    code == 200,
                    forall|j: int| 0 <= j < i ==> !named_as(#[trigger] ns@[j], filename@),
                decreases ns.len() - i,
            {
                match &ns[i] {
                    Some(n) => {
                        if str_eq(n.as_str(), filename) {
                            assert(named_as(ns@[i as int], filename@));
                            assert(listed_name(ns@, filename@));
                            assert(shows_file(code, *names, filename@));
                            return true;
                        }
                    },
                    None => {},
                }
                i += 1;
            }
            false
        },
    }
}

/// The value sent as the server's upload limit, in KB/s (-1: none).
pub fn upload_limit_value(kb_per_sec: i64) -> (r: String)
    ensures
        r@ == signed_decimal(kb_per_sec as int),
{
    let mut r = String::new();
    push_signed_decimal(&mut r, kb_per_sec);
    r
}

/// The meaning of the reply to setting the server's upload limit.
pub fn upload_limit_reply(parsed: Result<AlistResponse<()>, String>) -> (r: Result<(), AlistError>)
    ensures
        match parsed {
            Err(e) => r matches Err(AlistError::Api(m)) && m@ == "解析响应失败: "@ + e@,
            Ok(resp) => if resp.code == 200 {
                r is Ok
            } else {
                r matches Err(AlistError::Api(m)) && m@ == "限速设置失败: "@ + resp.message@
            },
        },
{
    match parsed {
        Err(e) => {
            let mut m = "解析响应失败: ".to_owned();
            push_str(&mut m, e.as_str());
            Err(AlistError::Api(m))
        },
        Ok(resp) => {
            if resp.code == 200 {
                Ok(())
            } else {
                let mut m = "限速设置失败: ".to_owned();
                push_str(&mut m, resp.message.as_str());
                Err(AlistError::Api(m))
            }
        },
    }
}

/// The meaning of an upload reply `body`: parsed as `parsed` with the
/// background task's id, if the reply names one. A nonempty task id means
/// Alist goes on uploading in the background; a refusal because the file
/// exists is `FileExists`; other refusals keep the raw reply.
pub fn upload_reply(body: &str, parsed: Result<AlistResponse<Option<String>>, String>) -> (r: Result<
    Option<String>,
    AlistError,
>)
    ensures
        match parsed {
            Err(e) => r matches Err(AlistError::ApiWithResponse { message, raw }) && message@ == "解析响应失败: "@
                + e@ && raw@ == body@,
            Ok(resp) => if resp.code == 200 {
                match resp.data {
                    Some(Some(id)) => if id@.len() > 0 {
                        r matches Ok(Some(t)) && t@ == id@
                    } else {
                        r matches Ok(None)
                    },
                    _ => r matches Ok(None),
                }
            } else if contains_seq(resp.message@, "file exists"@) {
                r matches Err(AlistError::FileExists)
            } else {
                r matches Err(AlistError::ApiWithResponse { message, raw }) && message@ == "上传失败: code="@
                    + signed_decimal(resp.code as int) + ", message="@ + resp.message@ && raw@ == body@
            },
        },
{
    match parsed {
        Err(e) => {
            let mut m = "解析响应失败: ".to_owned();
            push_str(&mut m, e.as_str());
            Err(AlistError::ApiWithResponse { message: m, raw: body.to_owned() })
        },
        Ok(resp) => {
            if resp.code == 200 {
                match resp.data {
                    Some(Some(id)) => {
                        if chars_of(id.as_str()).len() > 0 {
                            Ok(Some(id))
                        } else {
                            Ok(None)
                        }
                    },
                    _ => Ok(None),
                }
            } else if str_contains(resp.message.as_str(), "file exists") {
                Err(AlistError::FileExists)
            } else {
                let mut m = "上传失败: code=".to_owned();
                push_signed_decimal(&mut m, resp.code as i64);
                push_str(&mut m, ", message=");
                push_str(&mut m, resp.message.as_str());
                Err(AlistError::ApiWithResponse { message: m, raw: body.to_owned() })
            }
        },
    }
}

/// The meaning of a task-list reply `body`: the tasks, found either as the
/// data itself or as its `tasks` field; no data or other data means none.
pub fn task_list_reply(body: &str, parsed: Result<AlistResponse<TaskListData>, String>) -> (r: Result<
    Vec<AlistTaskResp>,
    AlistError,
>)
    ensures
        match parsed {
            Err(e) => r matches Err(AlistError::Api(m)) && m@ == "解析任务列表响应失败: "@ + e@ + "; 原始响应: "@
                + body@,
            Ok(resp) => if resp.code == 200 {
                match resp.data {
                    None => r matches Ok(ts) && ts.len() == 0,
                    Some(TaskListData::Absent) => r matches Ok(ts) && ts.len() == 0,
                    Some(TaskListData::Other) => r matches Ok(ts) && ts.len() == 0,
                    Some(TaskListData::List(Ok(ts))) => r == Ok::<Vec<AlistTaskResp>, AlistError>(ts),
                    Some(TaskListData::Tasks(Ok(ts))) => r == Ok::<Vec<AlistTaskResp>, AlistError>(ts),
                    Some(TaskListData::List(Err(e))) => r matches Err(AlistError::Api(m)) && m@ == "解析任务数组失败: "@
                        + e@,
                    Some(TaskListData::Tasks(Err(e))) => r matches Err(AlistError::Api(m)) && m@ == "解析任务数组失败: "@
                        + e@,
                }
            } else {
                r matches Err(AlistError::Api(m)) && m@ == resp.message@
            },
        },
{
    match parsed {
        Err(e) => {
            let mut m = "解析任务列表响应失败: ".to_owned();
            push_str(&mut m, e.as_str());
            push_str(&mut m, "; 原始响应: ");
            push_str(&mut m, body);
            Err(AlistError::Api(m))
        },
        Ok(resp) => {
            if resp.code != 200 {
                return Err(AlistError::Api(resp.message));
            }
            match resp.data {
                None => Ok(Vec::new()),
                Some(TaskListData::Absent) => Ok(Vec::new()),
                Some(TaskListData::Other) => Ok(Vec::new()),
                Some(TaskListData::List(Ok(ts))) => Ok(ts),
                Some(TaskListData::Tasks(Ok(ts))) => Ok(ts),
                Some(TaskListData::List(Err(e))) => {
                    let mut m = "解析任务数组失败: ".to_owned();
                    push_str(&mut m, e.as_str());
                    Err(AlistError::Api(m))
                },
                Some(TaskListData::Tasks(Err(e))) => {
                    let mut m = "解析任务数组失败: ".to_owned();
                    push_str(&mut m, e.as_str());
                    Err(AlistError::Api(m))
                },
            }
        },
    }
}

/// The first task of `tasks` with identifier `id`.
pub open spec fn first_task_with_id(tasks: Seq<AlistTaskResp>, id: Seq<char>, i: int) -> bool {
    &&& 0 <= i < tasks.len()
    &&& tasks[i].id@ == id
    &&& forall|j: int| 0 <= j < i ==> (#[trigger] tasks[j]).id@ != id
}

/// The task of `tasks` with identifier `task_id`, or the error naming it.
pub fn get_task_progress(tasks: Vec<AlistTaskResp>, task_id: &str) -> (r: Result<AlistTaskResp, AlistError>)
    ensures
        (exists|i: int| first_task_with_id(tasks@, task_id@, i)) ==> (r matches Ok(t) && exists|i: int|
            first_task_with_id(tasks@, task_id@, i) && t == tasks@[i]),
        !(exists|i: int| 0 <= i < tasks.len() && (#[trigger] tasks@[i]).id@ == task_id@) ==> (r matches Err(
            AlistError::Api(m),
        ) && m@ == "任务 "@ + task_id@ + " 未找到"@),
{
    let mut i: usize = 0;
    while i < tasks.len()
        invariant
            i <= tasks.len(),
            forall|j: int| 0 <= j < i ==> (#[trigger] tasks@[j]).id@ != task_id@,
        decreases tasks.len() - i,
    {
        if str_eq(tasks[i].id.as_str(), task_id) {
            assert(first_task_with_id(tasks@, task_id@, i as int));
            let ghost all = tasks@;
            let mut rest = tasks;
            let t = rest.remove(i);
            assert(t == all[i as int]);
            return Ok(t);
        }
        i += 1;
    }
    let mut m = "任务 ".to_owned();
    push_str(&mut m, task_id);
    push_str(&mut m, " 未找到");
    Err(AlistError::Api(m))
}

/// The code and message of a reply that is read leniently: a body that is
/// not an Alist reply counts as code -1 with the body as its message.
pub open spec fn lenient_status(body: Seq<char>, parsed: Result<AlistResponse<()>, String>) -> (i32, Seq<char>) {
    match parsed {
        Ok(resp) => (resp.code, resp.message@),
        Err(_) => (-1i32, body),
    }
}

fn lenient(body: &str, parsed: Result<AlistResponse<()>, String>) -> (r: (i32, String))
    ensures
        (r.0, r.1@) == lenient_status(body@, parsed),
{
    match parsed {
        Ok(resp) => (resp.code, resp.message),
        Err(_) => (-1, body.to_owned()),
    }
}

/// The meaning of the reply to refreshing a directory.
pub fn refresh_reply(body: &str, parsed: Result<AlistResponse<()>, String>) -> (r: Result<(), AlistError>)
    ensures
        ({
            let (code, message) = lenient_status(body@, parsed);
            &&& code == 200 ==> r is Ok
            &&& code != 200 ==> (r matches Err(AlistError::Api(m)) && m@ == message)
        }),
{
    let (code, message) = lenient(body, parsed);
    if code == 200 {
        Ok(())
    } else {
        Err(AlistError::Api(message))
    }
}

/// The meaning of the reply to creating a directory: a directory that
/// already exists is no failure.
pub fn mkdir_reply(body: &str, parsed: Result<AlistResponse<()>, String>) -> (r: Result<(), AlistError>)
    ensures
        ({
            let (code, message) = lenient_status(body@, parsed);
            &&& (code == 200 || contains_seq(message, "exist"@)) ==> r is Ok
            &&& !(code == 200 || contains_seq(message, "exist"@)) ==> (r matches Err(AlistError::Api(m)) && m@
                == "创建目录失败: "@ + message)
        }),
{
    let (code, message) = lenient(body, parsed);
    if code == 200 || str_contains(message.as_str(), "exist") {
        Ok(())
    } else {
        let mut m = "创建目录失败: ".to_owned();
        push_str(&mut m, message.as_str());
        Err(AlistError::Api(m))
    }
}

/// The meaning of a directory listing reply `body`, whose HTTP status is
/// `status` (shown as `status_text`): the entries, none when the listing
/// has no content.
pub fn list_directory_reply(
    status: u16,
    status_text: &str,
    body: &str,
    parsed: Result<AlistResponse<ListResp>, String>,
) -> (r: Result<Vec<DirItem>, AlistError>)
    ensures
        !is_success_status(status) ==> (r matches Err(AlistError::Api(m)) && m@ == "目录列表请求失败: HTTP "@
            + status_text@),
        is_success_status(status) ==> match parsed {
            Err(e) => r matches Err(AlistError::Api(m)) && m@ == "解析目录列表响应失败: "@ + e@ + "; 原始响应: "@
                + body@,
            Ok(resp) => if resp.code == 200 {
                match resp.data {
                    Some(ListResp { content: Some(items) }) => r == Ok::<Vec<DirItem>, AlistError>(items),
                    _ => r matches Ok(items) && items.len() == 0,
                }
            } else {
                r matches Err(AlistError::Api(m)) && m@ == resp.message@
            },
        },
{
    if !(200 <= status && status <= 299) {
        let mut m = "目录列表请求失败: HTTP ".to_owned();
        push_str(&mut m, status_text);
        return Err(AlistError::Api(m));
    }
    match parsed {
        Err(e) => {
            let mut m = "解析目录列表响应失败: ".to_owned();
            push_str(&mut m, e.as_str());
            push_str(&mut m, "; 原始响应: ");
            push_str(&mut m, body);
            Err(AlistError::Api(m))
        },
        Ok(resp) => {
            if resp.code == 200 {
                match resp.data {
                    Some(ListResp { content: Some(items) }) => Ok(items),
                    _ => Ok(Vec::new()),
                }
            } else {
                Err(AlistError::Api(resp.message))
            }
        },
    }
}

} // verus!
