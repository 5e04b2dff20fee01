//! Remote (OpenList) path rules: normalising a target directory, deriving
//! the directory of a file found inside a dropped folder, joining a file
//! name to a directory, and the per-segment name length limit.
use vstd::prelude::*;
use crate::text::{chars_of, push_chars, push_str, slice_vec, string_of, strip_leading, strip_trailing, strips, trim_both, trim_end, trim_start, Strip};

verus! {

/// `s` without leading and trailing white space (`str::trim`).
pub open spec fn trim_white(s: Seq<char>) -> Seq<char> {
    strip_trailing(strip_leading(s, strips(Strip::WhiteSpace)), strips(Strip::WhiteSpace))
}

/// `s` without trailing '/' (`str::trim_end_matches('/')`).
pub open spec fn trim_end_slash(s: Seq<char>) -> Seq<char> {
    strip_trailing(s, strips(Strip::Char('/')))
}

/// `s` without leading '/' (`str::trim_start_matches('/')`).
pub open spec fn trim_start_slash(s: Seq<char>) -> Seq<char> {
    strip_leading(s, strips(Strip::Char('/')))
}

/// The canonical form of a remote directory: trimmed, starting with '/',
/// without trailing '/'; an empty or bare "/" input is the root "/".
pub open spec fn normalized_alist_path(p: Seq<char>) -> Seq<char> {
    let t = trim_white(p);
    if t.len() == 0 || t == seq!['/'] {
        seq!['/']
    } else if t[0] == '/' {
        trim_end_slash(t)
    } else {
        trim_end_slash(seq!['/'] + t)
    }
}

pub(crate) fn slash_string() -> (s: String)
    ensures
        s@ == seq!['/'],
{
    let mut s = String::new();
    s.push('/');
    assert(s@ =~= seq!['/']);
    s
}

fn normalized_chars(path: &str) -> (r: Vec<char>)
    ensures
        r@ == normalized_alist_path(path@),
{
    let v = chars_of(path);
    let t = trim_both(&v, &Strip::WhiteSpace);
    if t.len() == 0 || (t.len() == 1 && t[0] == '/') {
        let mut r: Vec<char> = Vec::new();
        r.push('/');
        proof {
            if t.len() == 1 {
                assert(t@ =~= seq!['/']);
            }
            assert(r@ =~= seq!['/']);
        }
        return r;
    }
    assert(!(t@ =~= seq!['/']));
    if t[0] == '/' {
        trim_end(&t, &Strip::Char('/'))
    } else {
        let mut w: Vec<char> = Vec::new();
        w.push('/');
        let mut i: usize = 0;
        while i < t.len()
            invariant
                i <= t.len(),
                w@ == seq!['/'] + t@.take(i as int),
            decreases t.len() - i,
        {
            w.push(t[i]);
            i += 1;
            assert(w@ =~= seq!['/'] + t@.take(i as int));
        }
        assert(t@.take(t.len() as int) =~= t@);
        trim_end(&w, &Strip::Char('/'))
    }
}

/// Canonical form of a remote directory path (see `normalized_alist_path`).
pub fn normalize_alist_path(path: &str) -> (r: String)
    ensures
        r@ == normalized_alist_path(path@),
{
    let v = normalized_chars(path);
    string_of(&v)
}

/// Whether `path` names the remote root, which is never a valid upload target.
pub fn is_root_alist_path(path: &str) -> (b: bool)
    ensures
        b == (normalized_alist_path(path@) == seq!['/']),
{
    let v = normalized_chars(path);
    let b = v.len() == 1 && v[0] == '/';
    if v.len() == 1 && v[0] == '/' {
        assert(v@ =~= seq!['/']);
    }
    b
}

/// A path separator of a local (Windows) path.
pub open spec fn is_path_sep(c: char) -> bool {
    c == '/' || c == '\\'
}

/// The index of the last separator in `s`, or -1.
pub open spec fn last_sep(s: Seq<char>) -> int
    decreases s.len(),
{
    if s.len() == 0 {
        -1
    } else if is_path_sep(s.last()) {
        s.len() - 1
    } else {
        last_sep(s.drop_last())
    }
}

/// `s` without trailing separators.
pub open spec fn strip_trailing_seps(s: Seq<char>) -> Seq<char>
    decreases s.len(),
{
    if s.len() > 0 && is_path_sep(s.last()) {
        strip_trailing_seps(s.drop_last())
    } else {
        s
    }
}

/// The parent directory of a relative local path whose components are
/// separated by '/' or '\\' (as on Windows): everything before the last
/// component, without the separators in between; empty when the path has
/// a single component.
pub open spec fn relative_parent(s: Seq<char>) -> Seq<char> {
    let t = strip_trailing_seps(s);
    let k = last_sep(t);
    if k < 0 {
        Seq::empty()
    } else {
        strip_trailing_seps(t.take(k))
    }
}

/// `s` with every '\\' replaced by '/'.
pub open spec fn backslash_to_slash(s: Seq<char>) -> Seq<char> {
    s.map_values(|c: char| if c == '\\' { '/' } else { c })
}

/// The remote directory of a file found at `relative` inside a dropped folder
/// that is uploaded to `root`.
pub open spec fn target_dir(root: Seq<char>, relative: Seq<char>) -> Seq<char> {
    let r = normalized_alist_path(root);
    let p = trim_end_slash(trim_start_slash(relative_parent(relative)));
    if p.len() == 0 {
        r
    } else if r == seq!['/'] {
        seq!['/'] + backslash_to_slash(p)
    } else {
        r + seq!['/'] + backslash_to_slash(p)
    }
}

fn strip_seps_end(v: &Vec<char>, len: usize) -> (j: usize)
    requires
        len <= v.len(),
    ensures
        j <= len,
        strip_trailing_seps(v@.take(len as int)) == v@.take(j as int),
{
    let mut j = len;
    while j > 0 && (v[j - 1] == '/' || v[j - 1] == '\\')
        invariant
            j <= len <= v.len(),
            strip_trailing_seps(v@.take(len as int)) == strip_trailing_seps(v@.take(j as int)),
        decreases j,
    {
        assert(v@.take(j as int).drop_last() =~= v@.take(j - 1));
        j -= 1;
    }
    j
}

fn parent_chars(v: &Vec<char>) -> (r: Vec<char>)
    ensures
        r@ == relative_parent(v@),
{
    assert(v@.take(v.len() as int) =~= v@);
    let t = strip_seps_end(v, v.len());
    let ghost ts = v@.take(t as int);
    // find the last separator before t
    let mut k = t;
    assert(ts.take(t as int) =~= ts);
    while k > 0 && !(v[k - 1] == '/' || v[k - 1] == '\\')
        invariant
            k <= t <= v.len(),
            ts == v@.take(t as int),
            last_sep(ts) == last_sep(ts.take(k as int)),
        decreases k,
    {
        assert(ts.take(k as int).drop_last() =~= ts.take(k - 1));
        assert(ts.take(k as int).last() == v@[k - 1]);
        k -= 1;
    }
    if k == 0 {
        assert(ts.take(0) =~= Seq::<char>::empty());
        return Vec::new();
    }
    assert(ts.take(k as int).last() == v@[k - 1]);
    assert(last_sep(ts) == k - 1);
    let j = strip_seps_end(v, k - 1);
    assert(ts.take(k - 1) =~= v@.take(k - 1));
    slice_vec(v, 0, j)
}

fn push_replacing_backslash(w: &mut Vec<char>, p: &Vec<char>)
    ensures
        final(w)@ == old(w)@ + backslash_to_slash(p@),
{
    let mut i: usize = 0;
    while i < p.len()
        invariant
            i <= p.len(),
            w@ == old(w)@ + backslash_to_slash(p@.take(i as int)),
        decreases p.len() - i,
    {
        let c = if p[i] == '\\' { '/' } else { p[i] };
        w.push(c);
        i += 1;
        assert(backslash_to_slash(p@.take(i as int)) =~= backslash_to_slash(p@.take(i - 1)).push(c));
    }
    assert(p@.take(p.len() as int) =~= p@);
}

/// The remote directory of a file at `relative_path` inside a folder uploaded
/// to `root` (see `target_dir`).
pub fn build_target_dir(root: &str, relative_path: &str) -> (r: String)
    ensures
        r@ == target_dir(root@, relative_path@),
{
    let root_v = normalized_chars(root);
    let rel = chars_of(relative_path);
    let parent = parent_chars(&rel);
    let p1 = trim_start(&parent, &Strip::Char('/'));
    let p = trim_end(&p1, &Strip::Char('/'));
    if p.len() == 0 {
        return string_of(&root_v);
    }
    let is_root = root_v.len() == 1 && root_v[0] == '/';
    if is_root {
        assert(root_v@ =~= seq!['/']);
    } else {
        assert(!(root_v@ =~= seq!['/']));
    }
    let mut w: Vec<char> = Vec::new();
    if is_root {
        w.push('/');
    } else {
        let mut i: usize = 0;
        while i < root_v.len()
            invariant
                i <= root_v.len(),
                w@ == root_v@.take(i as int),
            decreases root_v.len() - i,
        {
            w.push(root_v[i]);
            i += 1;
            assert(w@ =~= root_v@.take(i as int));
        }
        assert(root_v@.take(root_v.len() as int) =~= root_v@);
        w.push('/');
    }
    push_replacing_backslash(&mut w, &p);
    proof {
        if is_root {
            assert(w@ =~= seq!['/'] + backslash_to_slash(p@));
        } else {
            assert(w@ =~= root_v@ + seq!['/'] + backslash_to_slash(p@));
        }
    }
    string_of(&w)
}

/// The remote directory that keeps the dropped folder's own name as a level
/// below `target_root`; an empty name leaves `target_root` as it is.
pub open spec fn folder_target(target_root: Seq<char>, folder_name: Seq<char>) -> Seq<char> {
    if folder_name.len() == 0 {
        target_root
    } else if normalized_alist_path(target_root) == seq!['/'] {
        seq!['/'] + folder_name
    } else {
        normalized_alist_path(target_root) + seq!['/'] + folder_name
    }
}

/// The remote root for a dropped folder (see `folder_target`).
pub fn folder_target_root(target_root: &str, folder_name: &str) -> (r: String)
    ensures
        r@ == folder_target(target_root@, folder_name@),
{
    if folder_name.is_empty() {
        return target_root.to_owned();
    }
    let root_v = normalized_chars(target_root);
    let is_root = root_v.len() == 1 && root_v[0] == '/';
    let mut s: String;
    if is_root {
        assert(root_v@ =~= seq!['/']);
        s = slash_string();
    } else {
        assert(!(root_v@ =~= seq!['/']));
        s = string_of(&root_v);
        s.push('/');
    }
    push_str(&mut s, folder_name);
    s
}


// ---------------------------------------------------------------------------
// Name length limit of the encrypted remote drive
// ---------------------------------------------------------------------------

/// The longest directory or file name, in UTF-8 bytes, that the remote
/// encrypted drive accepts.
pub const NAME_BYTES_LIMIT: usize = 175;

/// The number of bytes in the UTF-8 encoding of `c`.
pub open spec fn char_utf8_width(c: char) -> nat {
    let u = c as u32;
    if u <= 0x7F {
        1
    } else if u <= 0x7FF {
        2
    } else if u <= 0xFFFF {
        3
    } else {
        4
    }
}

/// The number of bytes in the UTF-8 encoding of `s` (`str::len`).
pub open spec fn utf8_len(s: Seq<char>) -> nat
    decreases s.len(),
{
    if s.len() == 0 {
        0
    } else {
        utf8_len(s.drop_last()) + char_utf8_width(s.last())
    }
}

proof fn lemma_utf8_len_first(s: Seq<char>)
    requires
        s.len() > 0,
    ensures
        utf8_len(s) == char_utf8_width(s[0]) + utf8_len(s.drop_first()),
    decreases s.len(),
{
    if s.len() > 1 {
        lemma_utf8_len_first(s.drop_last());
        assert(s.drop_last().drop_first() =~= s.drop_first().drop_last());
        assert(s.drop_first().last() == s.last());
        assert(s.drop_last()[0] == s[0]);
        assert(utf8_len(s) == utf8_len(s.drop_last()) + char_utf8_width(s.last()));
        assert(utf8_len(s.drop_first()) == utf8_len(s.drop_first().drop_last())
            + char_utf8_width(s.drop_first().last()));
    } else {
        assert(s.drop_first().len() == 0);
        assert(s.drop_last().len() == 0);
        assert(utf8_len(s.drop_first()) == 0);
        assert(utf8_len(s.drop_last()) == 0);
        assert(utf8_len(s) == utf8_len(s.drop_last()) + char_utf8_width(s.last()));
    }
}

/// `utf8_len` is the length of vstd's UTF-8 encoding.
pub proof fn lemma_utf8_len_is_encoding_len(s: Seq<char>)
    ensures
        vstd::utf8::encode_utf8(s).len() == utf8_len(s),
    decreases s.len(),
{
    broadcast use vstd::utf8::char_is_scalar;
    if s.len() > 0 {
        lemma_utf8_len_first(s);
        lemma_utf8_len_is_encoding_len(s.drop_first());
        vstd::utf8::char_is_scalar(s[0]);
        assert(vstd::utf8::encode_scalar(s[0] as u32).len() == char_utf8_width(s[0]));
    }
}

pub(crate) fn char_width(c: char) -> (w: usize)
    ensures
        w == char_utf8_width(c),
{
    let u = c as u32;
    if u <= 0x7F {
        1
    } else if u <= 0x7FF {
        2
    } else if u <= 0xFFFF {
        3
    } else {
        4
    }
}

/// The number of bytes in the UTF-8 encoding of `v`.
pub fn utf8_byte_count(v: &Vec<char>) -> (n: u128)
    ensures
        n == utf8_len(v@),
{
    let mut n: u128 = 0;
    let mut k: usize = 0;
    while k < v.len()
        invariant
            k <= v.len(),
            n == utf8_len(v@.take(k as int)),
            n <= 4 * k,
        decreases v.len() - k,
    {
        assert(v@.take(k + 1).drop_last() =~= v@.take(k as int));
        n = n + char_width(v[k]) as u128;
        k += 1;
    }
    assert(v@.take(v.len() as int) =~= v@);
    n
}

/// `s[i..j]` is a non-empty '/'-separated segment of `s`.
pub open spec fn is_segment(s: Seq<char>, i: int, j: int) -> bool {
    &&& 0 <= i < j <= s.len()
    &&& (i == 0 || s[i - 1] == '/')
    &&& (j == s.len() || s[j] == '/')
    &&& forall|k: int| i <= k < j ==> s[k] != '/'
}

/// `s[i..j]` is a segment whose name is longer than the drive accepts.
pub open spec fn is_over_limit_segment(s: Seq<char>, i: int, j: int) -> bool {
    is_segment(s, i, j) && utf8_len(s.subrange(i, j)) > NAME_BYTES_LIMIT
}

/// Some segment of `s` is longer than the drive accepts.
pub open spec fn has_long_segment(s: Seq<char>) -> bool {
    exists|i: int, j: int| is_over_limit_segment(s, i, j)
}

/// `seg` is the first segment of `s` that is longer than the drive accepts.
pub open spec fn is_first_long_segment(s: Seq<char>, seg: Seq<char>) -> bool {
    exists|i: int, j: int|
        is_over_limit_segment(s, i, j) && seg == s.subrange(i, j) && forall|a: int, b: int|
            b <= i ==> !is_over_limit_segment(s, a, b)
}

/// The first segment of `s` that is longer than the drive accepts.
pub open spec fn first_long_segment(s: Seq<char>) -> Seq<char> {
    choose|seg: Seq<char>| is_first_long_segment(s, seg)
}

proof fn lemma_first_long_segment(s: Seq<char>, i: int, j: int)
    requires
        is_over_limit_segment(s, i, j),
        forall|a: int, b: int| b <= i ==> !is_over_limit_segment(s, a, b),
    ensures
        first_long_segment(s) == s.subrange(i, j),
{
    assert(is_first_long_segment(s, s.subrange(i, j)));
    let seg = first_long_segment(s);
    let (i2, j2) = choose|i2: int, j2: int|
        is_over_limit_segment(s, i2, j2) && seg == s.subrange(i2, j2) && forall|a: int, b: int|
            b <= i2 ==> !is_over_limit_segment(s, a, b);
    if i2 < i {
        // s[i-1] is '/', so the segment at i2 ends at or before i - 1
        assert(s[i - 1] == '/');
        if j2 > i - 1 {
            assert(s[i - 1] != '/');
        }
        assert(j2 <= i);
    } else if i < i2 {
        assert(s[i2 - 1] == '/');
        if j > i2 - 1 {
            assert(s[i2 - 1] != '/');
        }
        assert(j <= i2);
    } else {
        if j2 < j {
            assert(s[j2] == '/');
        }
        if j < j2 {
            assert(s[j] == '/');
        }
    }
}

/// Whether `v[i..j]` is longer than the limit, in UTF-8 bytes.
fn over_limit(v: &Vec<char>, i: usize, j: usize) -> (b: bool)
    requires
        i <= j <= v.len(),
    ensures
        b == (utf8_len(v@.subrange(i as int, j as int)) > NAME_BYTES_LIMIT),
{
    let mut k = i;
    let mut total: usize = 0;
    assert(v@.subrange(i as int, i as int) =~= Seq::<char>::empty());
    while k < j
        invariant
            i <= k <= j <= v.len(),
            total == if utf8_len(v@.subrange(i as int, k as int)) > NAME_BYTES_LIMIT {
                NAME_BYTES_LIMIT + 1
            } else {
                utf8_len(v@.subrange(i as int, k as int)) as int
            },
        decreases j - k,
    {
        let w = char_width(v[k]);
        assert(v@.subrange(i as int, k + 1).drop_last() =~= v@.subrange(i as int, k as int));
        if total + w > NAME_BYTES_LIMIT {
            total = NAME_BYTES_LIMIT + 1;
        } else {
            total = total + w;
        }
        k += 1;
    }
    total > NAME_BYTES_LIMIT
}

/// The first '/'-separated segment of `path` whose UTF-8 encoding is longer
/// than `NAME_BYTES_LIMIT` bytes, if any.
pub fn check_name_bytes_limit(path: &str) -> (r: Option<String>)
    ensures
        has_long_segment(path@) ==> (r matches Some(seg) && seg@ == first_long_segment(path@)),
        !has_long_segment(path@) ==> r is None,
{
    let v = chars_of(path);
    let n = v.len();
    let mut start: usize = 0;
    let mut k: usize = 0;
    while k < n
        invariant
            n == v.len(),
            v@ == path@,
            start <= k <= n,
            start == 0 || v@[start - 1] == '/',
            forall|m: int| start <= m < k ==> v@[m] != '/',
            forall|a: int, b: int| b < start ==> !is_over_limit_segment(v@, a, b),
        decreases n - k,
    {
        if v[k] == '/' {
            if k > start && over_limit(&v, start, k) {
                let seg = slice_vec(&v, start, k);
                proof {
                    lemma_first_over_limit(v@, start as int, k as int);
                    lemma_first_long_segment(v@, start as int, k as int);
                }
                return Some(string_of(&seg));
            }
            proof {
                lemma_segments_before(v@, start as int, k as int);
            }
            start = k + 1;
        }
        k += 1;
    }
    if k > start && over_limit(&v, start, k) {
        let seg = slice_vec(&v, start, k);
        proof {
            lemma_first_over_limit(v@, start as int, k as int);
            lemma_first_long_segment(v@, start as int, k as int);
        }
        return Some(string_of(&seg));
    }
    proof {
        lemma_segments_before(v@, start as int, k as int);
        assert forall|a: int, b: int| !is_over_limit_segment(v@, a, b) by {
            if is_over_limit_segment(v@, a, b) {
                assert(b <= k);
            }
        }
    }
    None
}

proof fn lemma_first_over_limit(v: Seq<char>, start: int, k: int)
    requires
        0 <= start < k <= v.len(),
        k == v.len() || v[k] == '/',
        start == 0 || v[start - 1] == '/',
        forall|m: int| start <= m < k ==> v[m] != '/',
        forall|a: int, b: int| b < start ==> !is_over_limit_segment(v, a, b),
        utf8_len(v.subrange(start, k)) > NAME_BYTES_LIMIT,
    ensures
        is_over_limit_segment(v, start, k),
        forall|a: int, b: int| b <= start ==> !is_over_limit_segment(v, a, b),
{
    assert forall|a: int, b: int| b <= start implies !is_over_limit_segment(v, a, b) by {
        if b == start && is_over_limit_segment(v, a, b) {
            assert(v[start - 1] == '/');
            assert(a <= start - 1 < b);
        }
    }
}

proof fn lemma_segments_before(v: Seq<char>, start: int, k: int)
    requires
        0 <= start <= k <= v.len(),
        k == v.len() || v[k] == '/',
        start == 0 || v[start - 1] == '/',
        forall|m: int| start <= m < k ==> v[m] != '/',
        forall|a: int, b: int| b < start ==> !is_over_limit_segment(v, a, b),
        k > start ==> utf8_len(v.subrange(start, k)) <= NAME_BYTES_LIMIT,
    ensures
        forall|a: int, b: int| b <= k ==> !is_over_limit_segment(v, a, b),
{
    assert forall|a: int, b: int| b <= k implies !is_over_limit_segment(v, a, b) by {
        if is_over_limit_segment(v, a, b) && b >= start {
            if a < start {
                assert(v[start - 1] == '/');
            }
            if b < k {
                assert(v[b] == '/');
            }
            assert(b == k);
            if a > start {
                assert(v[a - 1] == '/');
            }
            assert(a == start);
        }
    }
}

// ---------------------------------------------------------------------------
// Upload target of a single file
// ---------------------------------------------------------------------------

/// `path` names the remote root once white space and trailing '/' are gone.
/// This is the check the upload request makes before it sends anything.
pub open spec fn names_upload_root(path: Seq<char>) -> bool {
    trim_end_slash(trim_white(path)).len() == 0
}

/// Whether `path` names the remote root (see `names_upload_root`).
pub fn is_upload_root(path: &str) -> (b: bool)
    ensures
        b == names_upload_root(path@),
{
    let v = chars_of(path);
    let t = trim_both(&v, &Strip::WhiteSpace);
    let u = trim_end(&t, &Strip::Char('/'));
    u.len() == 0
}

/// The directory part of `join_remote`: root for an empty or "/" directory,
/// else the trimmed directory with a leading '/' and no trailing '/'.
pub open spec fn join_dir(dir: Seq<char>) -> Seq<char> {
    let t = trim_white(dir);
    if t.len() == 0 || t == seq!['/'] {
        seq!['/']
    } else if t[0] == '/' {
        trim_end_slash(t)
    } else {
        seq!['/'] + trim_end_slash(t)
    }
}

/// The remote path of `file_name` uploaded into `dir`.
pub open spec fn join_remote(dir: Seq<char>, file_name: Seq<char>) -> Seq<char> {
    let d = join_dir(dir);
    if d == seq!['/'] {
        seq!['/'] + trim_start_slash(file_name)
    } else {
        d + seq!['/'] + trim_start_slash(file_name)
    }
}

/// The remote path of `file_name` uploaded into `dir` (see `join_remote`).
pub fn join_alist_path(dir: &str, file_name: &str) -> (r: String)
    ensures
        r@ == join_remote(dir@, file_name@),
{
    let v = chars_of(dir);
    let t = trim_both(&v, &Strip::WhiteSpace);
    let mut d: Vec<char> = Vec::new();
    if t.len() == 0 || (t.len() == 1 && t[0] == '/') {
        d.push('/');
        proof {
            if t.len() == 1 {
                assert(t@ =~= seq!['/']);
            }
            assert(d@ =~= seq!['/']);
        }
    } else {
        assert(!(t@ =~= seq!['/']));
        if t[0] == '/' {
            d = trim_end(&t, &Strip::Char('/'));
        } else {
            let e = trim_end(&t, &Strip::Char('/'));
            d.push('/');
            let mut i: usize = 0;
            while i < e.len()
                invariant
                    i <= e.len(),
                    d@ == seq!['/'] + e@.take(i as int),
                decreases e.len() - i,
            {
                d.push(e[i]);
                i += 1;
                assert(d@ =~= seq!['/'] + e@.take(i as int));
            }
            assert(e@.take(e.len() as int) =~= e@);
        }
    }
    let fv = chars_of(file_name);
    let f = trim_start(&fv, &Strip::Char('/'));
    let is_root = d.len() == 1 && d[0] == '/';
    let mut s = string_of(&d);
    if is_root {
        assert(d@ =~= seq!['/']);
    } else {
        assert(!(d@ =~= seq!['/']));
        s.push('/');
    }
    push_chars(&mut s, &f);
    proof {
        if is_root {
            assert(s@ =~= seq!['/'] + f@);
        } else {
            assert(s@ =~= d@ + seq!['/'] + f@);
        }
    }
    s
}

/// The text after the last '/' or '\\' of `s` (all of `s` when there is none).
pub open spec fn last_component(s: Seq<char>) -> Seq<char> {
    s.skip(last_sep(s) + 1)
}

/// The file name that an upload uses for a local path: its last component,
/// or "unknown" when that is empty.
pub open spec fn upload_file_name(path: Seq<char>) -> Seq<char> {
    if last_component(path).len() == 0 {
        seq!['u', 'n', 'k', 'n', 'o', 'w', 'n']
    } else {
        last_component(path)
    }
}

pub(crate) fn unknown_string() -> (s: String)
    ensures
        s@ == seq!['u', 'n', 'k', 'n', 'o', 'w', 'n'],
{
    let mut s = String::new();
    s.push('u');
    s.push('n');
    s.push('k');
    s.push('n');
    s.push('o');
    s.push('w');
    s.push('n');
    assert(s@ =~= seq!['u', 'n', 'k', 'n', 'o', 'w', 'n']);
    s
}

/// The index just after the last separator of `v` (0 when there is none).
fn after_last_sep(v: &Vec<char>, slash_only: bool) -> (k: usize)
    ensures
        k <= v.len(),
        slash_only ==> k as int == last_slash(v@) + 1,
        !slash_only ==> k as int == last_sep(v@) + 1,
{
    let mut k = v.len();
    assert(v@.take(k as int) =~= v@);
    while k > 0 && !(v[k - 1] == '/' || (!slash_only && v[k - 1] == '\\'))
        invariant
            k <= v.len(),
            slash_only ==> last_slash(v@) == last_slash(v@.take(k as int)),
            !slash_only ==> last_sep(v@) == last_sep(v@.take(k as int)),
        decreases k,
    {
        assert(v@.take(k as int).drop_last() =~= v@.take(k - 1));
        assert(v@.take(k as int).last() == v@[k - 1]);
        k -= 1;
    }
    if k == 0 {
        assert(v@.take(0).len() == 0);
    } else {
        assert(v@.take(k as int).last() == v@[k - 1]);
    }
    k
}

/// The last component of `v` (see `last_component`).
pub(crate) fn last_component_of(v: &Vec<char>) -> (r: Vec<char>)
    ensures
        r@ == last_component(v@),
{
    let k = after_last_sep(v, false);
    let c = slice_vec(v, k, v.len());
    assert(c@ =~= v@.skip(k as int));
    c
}

/// The file name for an upload of the local file at `file_path` (see
/// `upload_file_name`).
pub fn file_name_from_path(file_path: &str) -> (r: String)
    ensures
        r@ == upload_file_name(file_path@),
{
    let v = chars_of(file_path);
    let k = after_last_sep(&v, false);
    if k == v.len() {
        return unknown_string();
    }
    let c = slice_vec(&v, k, v.len());
    assert(c@ =~= v@.skip(k as int));
    string_of(&c)
}

/// The index of the last '/' in `s`, or -1.
pub open spec fn last_slash(s: Seq<char>) -> int
    decreases s.len(),
{
    if s.len() == 0 {
        -1
    } else if s.last() == '/' {
        s.len() - 1
    } else {
        last_slash(s.drop_last())
    }
}

/// The text after the last '/' of `s` (`s.split('/').last()`), possibly empty.
pub open spec fn after_last_slash(s: Seq<char>) -> Seq<char> {
    s.skip(last_slash(s) + 1)
}

/// The text after the last '/' of `path`.
pub fn name_after_last_slash(path: &str) -> (r: String)
    ensures
        r@ == after_last_slash(path@),
{
    let v = chars_of(path);
    let k = after_last_sep(&v, true);
    let c = slice_vec(&v, k, v.len());
    assert(c@ =~= v@.skip(k as int));
    string_of(&c)
}

} // verus!
