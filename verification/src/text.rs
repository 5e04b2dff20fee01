//! Character-level string helpers shared by the rest of the library.
use vstd::prelude::*;

verus! {

broadcast use vstd::string::group_string_axioms;

pub assume_specification[ String::push ](s: &mut String, ch: char)
    ensures
        final(s)@ == old(s)@.push(ch),
;

/// The characters of `s`, in order.
pub fn chars_of(s: &str) -> (v: Vec<char>)
    ensures
        v@ == s@,
{
    let mut v: Vec<char> = Vec::new();
    for c in it: s.chars()
        invariant
            v@ == it.seq().take(it.index() as int),
    {
        v.push(c);
    }
    v
}

/// A `String` holding the characters of `v`.
pub fn string_of(v: &Vec<char>) -> (s: String)
    ensures
        s@ == v@,
{
    let mut s = String::new();
    let mut i: usize = 0;
    while i < v.len()
        invariant
            i <= v.len(),
            s@ == v@.take(i as int),
        decreases v.len() - i,
    {
        s.push(v[i]);
        i += 1;
        assert(v@.take(i as int) =~= v@.take(i - 1).push(v@[i - 1]));
    }
    assert(v@.take(v.len() as int) =~= v@);
    s
}


/// Appends the characters of `v` to `s`.
pub fn push_chars(s: &mut String, v: &Vec<char>)
    ensures
        final(s)@ == old(s)@ + v@,
{
    let mut i: usize = 0;
    while i < v.len()
        invariant
            i <= v.len(),
            s@ == old(s)@ + v@.take(i as int),
        decreases v.len() - i,
    {
        s.push(v[i]);
        i += 1;
        assert(v@.take(i as int) =~= v@.take(i - 1).push(v@[i - 1]));
    }
    assert(v@.take(v.len() as int) =~= v@);
}

/// Appends the characters of `t` to `s`.
pub fn push_str(s: &mut String, t: &str)
    ensures
        final(s)@ == old(s)@ + t@,
{
    let v = chars_of(t);
    push_chars(s, &v);
}

// ---------------------------------------------------------------------------
// Decimal notation
// ---------------------------------------------------------------------------

/// The ASCII digit for `d` (0 to 9).
pub open spec fn digit_char(d: nat) -> char {
    (48 + d) as char
}

/// The decimal notation of `n`, without leading zeros ("0" for zero).
pub open spec fn decimal(n: nat) -> Seq<char>
    decreases n,
{
    if n < 10 {
        seq![digit_char(n)]
    } else {
        decimal(n / 10).push(digit_char(n % 10))
    }
}

/// Decimal notation has at least one digit, and two or more from ten on.
pub proof fn lemma_decimal_len(n: nat)
    ensures
        decimal(n).len() >= 1,
        n >= 10 ==> decimal(n).len() >= 2,
    decreases n,
{
    if n >= 10 {
        lemma_decimal_len(n / 10);
    }
}

/// Different numbers have different decimal notations.
pub proof fn lemma_decimal_injective(a: nat, b: nat)
    requires
        decimal(a) == decimal(b),
    ensures
        a == b,
    decreases a,
{
    lemma_decimal_len(a);
    lemma_decimal_len(b);
    if a >= 10 && b >= 10 {
        assert(decimal(a).drop_last() =~= decimal(a / 10));
        assert(decimal(b).drop_last() =~= decimal(b / 10));
        lemma_decimal_injective(a / 10, b / 10);
        assert(decimal(a).last() == digit_char(a % 10));
        assert(decimal(b).last() == digit_char(b % 10));
        assert((48 + a % 10) as char as int == 48 + a % 10);
        assert((48 + b % 10) as char as int == 48 + b % 10);
        assert(a % 10 == b % 10);
        assert(a == 10 * (a / 10) + a % 10 && b == 10 * (b / 10) + b % 10) by (nonlinear_arith);
        assert(a == b);
    } else if a < 10 && b < 10 {
        assert(decimal(a) == seq![digit_char(a)]);
        assert(decimal(b) == seq![digit_char(b)]);
        assert(seq![digit_char(a)][0] == digit_char(a));
        assert(seq![digit_char(b)][0] == digit_char(b));
        assert(decimal(a)[0] == decimal(b)[0]);
        assert(digit_char(a) == digit_char(b));
        assert(digit_char(a) as int == 48 + a);
        assert(digit_char(b) as int == 48 + b);
        assert(a == b);
    } else {
        assert(decimal(a).len() == decimal(b).len());
    }
}

/// The decimal notation of the integer `n`, with a leading '-' when negative.
pub open spec fn signed_decimal(n: int) -> Seq<char> {
    if n < 0 {
        seq!['-'] + decimal((-n) as nat)
    } else {
        decimal(n as nat)
    }
}

fn digit(d: u128) -> (c: char)
    requires
        d < 10,
    ensures
        c == digit_char(d as nat),
{
    let b: u8 = 48u8 + (d as u8);
    b as char
}

/// Appends the decimal notation of `n` to `s`.
pub fn push_decimal(s: &mut String, n: u128)
    ensures
        final(s)@ == old(s)@ + decimal(n as nat),
    decreases n,
{
    if n >= 10 {
        push_decimal(s, n / 10);
    }
    let c = digit(n % 10);
    s.push(c);
    if n >= 10 {
        assert(decimal(n as nat) == decimal((n / 10) as nat).push(digit_char((n % 10) as nat)));
    } else {
        assert(decimal(n as nat) == seq![digit_char(n as nat)]);
    }
    assert(final(s)@ =~= old(s)@ + decimal(n as nat));
}

/// Appends the decimal notation of the signed `n` to `s`.
pub fn push_signed_decimal(s: &mut String, n: i64)
    ensures
        final(s)@ == old(s)@ + signed_decimal(n as int),
{
    if n < 0 {
        s.push('-');
        let m: u64 = (0i128 - (n as i128)) as u64;
        push_decimal(s, m as u128);
        assert(final(s)@ =~= old(s)@ + signed_decimal(n as int));
    } else {
        push_decimal(s, n as u128);
    }
}

/// The decimal notation of `n` as a `String`.
pub fn decimal_string(n: u64) -> (s: String)
    ensures
        s@ == decimal(n as nat),
{
    let mut s = String::new();
    push_decimal(&mut s, n as u128);
    assert(s@ =~= decimal(n as nat));
    s
}

// ---------------------------------------------------------------------------
// Whitespace and trimming
// ---------------------------------------------------------------------------

/// Unicode `White_Space`, the property that `char::is_whitespace` tests.
pub open spec fn is_white_space(c: char) -> bool {
    let u = c as u32;
    ||| 0x9 <= u <= 0xD
    ||| u == 0x20
    ||| u == 0x85
    ||| u == 0xA0
    ||| u == 0x1680
    ||| 0x2000 <= u <= 0x200A
    ||| u == 0x2028
    ||| u == 0x2029
    ||| u == 0x202F
    ||| u == 0x205F
    ||| u == 0x3000
}

pub fn white_space(c: char) -> (b: bool)
    ensures
        b == is_white_space(c),
{
    let u = c as u32;
    (0x9 <= u && u <= 0xD) || u == 0x20 || u == 0x85 || u == 0xA0 || u == 0x1680 || (0x2000
        <= u && u <= 0x200A) || u == 0x2028 || u == 0x2029 || u == 0x202F || u == 0x205F || u
        == 0x3000
}

/// `s` without its leading characters that satisfy `strip` (`str::trim_start_matches`).
pub open spec fn strip_leading(s: Seq<char>, strip: spec_fn(char) -> bool) -> Seq<char>
    decreases s.len(),
{
    if s.len() > 0 && strip(s[0]) {
        strip_leading(s.drop_first(), strip)
    } else {
        s
    }
}

/// `s` without its trailing characters that satisfy `strip` (`str::trim_end_matches`).
pub open spec fn strip_trailing(s: Seq<char>, strip: spec_fn(char) -> bool) -> Seq<char>
    decreases s.len(),
{
    if s.len() > 0 && strip(s.last()) {
        strip_trailing(s.drop_last(), strip)
    } else {
        s
    }
}

/// The class of characters that a trim removes.
pub enum Strip {
    WhiteSpace,
    Char(char),
}

pub open spec fn strips(k: Strip) -> spec_fn(char) -> bool {
    match k {
        Strip::WhiteSpace => |c: char| is_white_space(c),
        Strip::Char(x) => |c: char| c == x,
    }
}

fn strip_test(k: &Strip, c: char) -> (b: bool)
    ensures
        b == strips(*k)(c),
{
    match k {
        Strip::WhiteSpace => white_space(c),
        Strip::Char(x) => c == *x,
    }
}

proof fn lemma_strip_leading_skip(s: Seq<char>, p: spec_fn(char) -> bool, i: int)
    requires
        0 <= i < s.len(),
        p(s[i]),
    ensures
        strip_leading(s.skip(i), p) == strip_leading(s.skip(i + 1), p),
{
    assert(s.skip(i).drop_first() =~= s.skip(i + 1));
}

proof fn lemma_strip_trailing_take(s: Seq<char>, p: spec_fn(char) -> bool, j: int)
    requires
        0 < j <= s.len(),
        p(s[j - 1]),
    ensures
        strip_trailing(s.take(j), p) == strip_trailing(s.take(j - 1), p),
{
    assert(s.take(j).drop_last() =~= s.take(j - 1));
}

/// The index of the first character of `v[from..]` that `k` does not strip
/// (`v.len()` when there is none).
pub fn leading_end(v: &Vec<char>, k: &Strip) -> (i: usize)
    ensures
        i <= v.len(),
        strip_leading(v@, strips(*k)) == v@.skip(i as int),
{
    let mut i: usize = 0;
    assert(v@.skip(0) =~= v@);
    while i < v.len() && strip_test(k, v[i])
        invariant
            i <= v.len(),
            strip_leading(v@, strips(*k)) == strip_leading(v@.skip(i as int), strips(*k)),
        decreases v.len() - i,
    {
        proof {
            lemma_strip_leading_skip(v@, strips(*k), i as int);
        }
        i += 1;
    }
    proof {
        let t = v@.skip(i as int);
        assert(t.len() == 0 || !strips(*k)(t[0]));
    }
    i
}

/// The length of `v` once the trailing characters that `k` strips are gone.
pub fn trailing_start(v: &Vec<char>, k: &Strip) -> (j: usize)
    ensures
        j <= v.len(),
        strip_trailing(v@, strips(*k)) == v@.take(j as int),
{
    let mut j: usize = v.len();
    assert(v@.take(j as int) =~= v@);
    while j > 0 && strip_test(k, v[j - 1])
        invariant
            j <= v.len(),
            strip_trailing(v@, strips(*k)) == strip_trailing(v@.take(j as int), strips(*k)),
        decreases j,
    {
        proof {
            lemma_strip_trailing_take(v@, strips(*k), j as int);
        }
        j -= 1;
    }
    proof {
        let t = v@.take(j as int);
        assert(t.len() == 0 || !strips(*k)(t.last()));
    }
    j
}

/// `v[from..to]` as a new vector.
pub fn slice_vec(v: &Vec<char>, from: usize, to: usize) -> (r: Vec<char>)
    requires
        from <= to <= v.len(),
    ensures
        r@ == v@.subrange(from as int, to as int),
{
    let mut r: Vec<char> = Vec::new();
    let mut i: usize = from;
    while i < to
        invariant
            from <= i <= to <= v.len(),
            r@ == v@.subrange(from as int, i as int),
        decreases to - i,
    {
        r.push(v[i]);
        i += 1;
        assert(r@ =~= v@.subrange(from as int, i as int));
    }
    r
}

/// `v` without leading characters that `k` strips.
pub fn trim_start(v: &Vec<char>, k: &Strip) -> (r: Vec<char>)
    ensures
        r@ == strip_leading(v@, strips(*k)),
{
    let i = leading_end(v, k);
    let r = slice_vec(v, i, v.len());
    assert(r@ =~= v@.skip(i as int));
    r
}

/// `v` without trailing characters that `k` strips.
pub fn trim_end(v: &Vec<char>, k: &Strip) -> (r: Vec<char>)
    ensures
        r@ == strip_trailing(v@, strips(*k)),
{
    let j = trailing_start(v, k);
    let r = slice_vec(v, 0, j);
    assert(r@ =~= v@.take(j as int));
    r
}

/// `v` without leading and trailing characters that `k` strips.
pub fn trim_both(v: &Vec<char>, k: &Strip) -> (r: Vec<char>)
    ensures
        r@ == strip_trailing(strip_leading(v@, strips(*k)), strips(*k)),
{
    let a = trim_start(v, k);
    trim_end(&a, k)
}

// ---------------------------------------------------------------------------
// Searching
// ---------------------------------------------------------------------------

/// `n` occurs in `h` starting at index `i`.
pub open spec fn occurs_at(h: Seq<char>, n: Seq<char>, i: int) -> bool {
    0 <= i && i + n.len() <= h.len() && h.subrange(i, i + n.len()) == n
}

/// `n` occurs somewhere in `h` (`str::contains` with a string pattern).
pub open spec fn contains_seq(h: Seq<char>, n: Seq<char>) -> bool {
    exists|i: int| occurs_at(h, n, i)
}

/// Whether `n` occurs in `h` at index `i`.
pub fn matches_at(h: &Vec<char>, n: &Vec<char>, i: usize) -> (b: bool)
    ensures
        b == occurs_at(h@, n@, i as int),
{
    if i > h.len() || n.len() > h.len() - i {
        return false;
    }
    let mut k: usize = 0;
    while k < n.len()
        invariant
            i + n.len() <= h.len(),
            k <= n.len(),
            forall|j: int| 0 <= j < k ==> h@[i + j] == n@[j],
        decreases n.len() - k,
    {
        if h[i + k] != n[k] {
            assert(h@.subrange(i as int, i + n.len())[k as int] != n@[k as int]);
            return false;
        }
        k += 1;
    }
    assert(h@.subrange(i as int, i + n.len()) =~= n@);
    true
}

/// The first index at or after `from` where `n` occurs in `h` (`str::find`).
pub fn find_from(h: &Vec<char>, n: &Vec<char>, from: usize) -> (r: Option<usize>)
    ensures
        match r {
            Some(i) => from <= i && occurs_at(h@, n@, i as int) && forall|j: int|
                from <= j < i ==> !occurs_at(h@, n@, j),
            None => forall|j: int| from <= j ==> !occurs_at(h@, n@, j),
        },
{
    if from > h.len() {
        return None;
    }
    let mut i: usize = from;
    while i < h.len()
        invariant
            from <= i <= h.len(),
            forall|j: int| from <= j < i ==> !occurs_at(h@, n@, j),
        decreases h.len() - i,
    {
        if matches_at(h, n, i) {
            return Some(i);
        }
        i += 1;
    }
    if matches_at(h, n, i) {
        Some(i)
    } else {
        None
    }
}

/// Whether `n` occurs in `h`.
pub fn contains_chars(h: &Vec<char>, n: &Vec<char>) -> (b: bool)
    ensures
        b == contains_seq(h@, n@),
{
    match find_from(h, n, 0) {
        Some(i) => true,
        None => false,
    }
}

/// Whether `n` occurs in `h` (`str::contains`).
pub fn str_contains(h: &str, n: &str) -> (b: bool)
    ensures
        b == contains_seq(h@, n@),
{
    let hv = chars_of(h);
    let nv = chars_of(n);
    contains_chars(&hv, &nv)
}

/// Whether two character sequences are equal.
pub fn chars_eq(a: &Vec<char>, b: &Vec<char>) -> (r: bool)
    ensures
        r == (a@ == b@),
{
    if a.len() != b.len() {
        return false;
    }
    let r = matches_at(a, b, 0);
    if r {
        assert(a@ =~= a@.subrange(0, b.len() as int));
    } else {
        assert(!(a@.subrange(0, b.len() as int) =~= b@));
        assert(a@.subrange(0, b.len() as int) =~= a@);
    }
    r
}

/// Whether two strings are equal.
pub fn str_eq(a: &str, b: &str) -> (r: bool)
    ensures
        r == (a@ == b@),
{
    let av = chars_of(a);
    let bv = chars_of(b);
    chars_eq(&av, &bv)
}

// ---------------------------------------------------------------------------
// Case folding
// ---------------------------------------------------------------------------

/// What `str::to_lowercase` returns for a string of these characters.
pub uninterp spec fn lowercase(s: Seq<char>) -> Seq<char>;

/// Lower-cases `s` with `str::to_lowercase`. The contract names the result:
/// Unicode case mapping is not restated here.
#[verifier::external_body]
pub(crate) fn to_lowercase(s: &str) -> (r: String)
    ensures
        r@ == lowercase(s@),
{
    s.to_lowercase()
}

// ---------------------------------------------------------------------------
// Hexadecimal notation
// ---------------------------------------------------------------------------

/// The hexadecimal digit for `d` (0 to 15), lower case or upper case.
pub open spec fn hex_digit(d: nat, upper: bool) -> char {
    if d < 10 {
        (48 + d) as char
    } else if upper {
        (55 + d) as char
    } else {
        (87 + d) as char
    }
}

/// The bytes of `s`, each as two hexadecimal digits ("{:02x}" or "{:02X}").
pub open spec fn hex_text(s: Seq<u8>, upper: bool) -> Seq<char>
    decreases s.len(),
{
    if s.len() == 0 {
        Seq::empty()
    } else {
        hex_text(s.drop_last(), upper) + seq![hex_digit((s.last() / 16) as nat, upper), hex_digit((s.last() % 16) as nat, upper)]
    }
}

fn hex_char(d: u8, upper: bool) -> (c: char)
    requires
        d < 16,
    ensures
        c == hex_digit(d as nat, upper),
{
    if d < 10 {
        (48u8 + d) as char
    } else if upper {
        (55u8 + d) as char
    } else {
        (87u8 + d) as char
    }
}

/// Appends the two hexadecimal digits of `b` to `s`.
pub fn push_hex_byte(s: &mut String, b: u8, upper: bool)
    ensures
        final(s)@ == old(s)@ + seq![hex_digit((b / 16) as nat, upper), hex_digit((b % 16) as nat, upper)],
{
    s.push(hex_char(b / 16, upper));
    s.push(hex_char(b % 16, upper));
}

/// The bytes of `v` in hexadecimal, two digits each.
pub fn hex_string(v: &Vec<u8>, upper: bool) -> (s: String)
    ensures
        s@ == hex_text(v@, upper),
{
    let mut s = String::new();
    let mut i: usize = 0;
    while i < v.len()
        invariant
            i <= v.len(),
            s@ == hex_text(v@.take(i as int), upper),
        decreases v.len() - i,
    {
        assert(v@.take(i + 1).drop_last() =~= v@.take(i as int));
        push_hex_byte(&mut s, v[i], upper);
        i += 1;
    }
    assert(v@.take(v.len() as int) =~= v@);
    s
}

proof fn lemma_hex_text_len(s: Seq<u8>, upper: bool)
    ensures
        hex_text(s, upper).len() == 2 * s.len(),
    decreases s.len(),
{
    if s.len() > 0 {
        lemma_hex_text_len(s.drop_last(), upper);
    }
}

/// Hexadecimal notation takes two digits a byte.
pub proof fn lemma_hex_len(s: Seq<u8>, upper: bool)
    ensures
        hex_text(s, upper).len() == 2 * s.len(),
{
    lemma_hex_text_len(s, upper);
}

} // verus!
