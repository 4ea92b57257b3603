//! The executable response parser: [`parse`] turns a raw model reply into a
//! [`ClassificationResult`] or a `Decode` error, and is proved to return
//! exactly what [`pipeline`] says the reply decodes to.

use vstd::prelude::*;
use crate::error::ClassificationError;
use crate::grammar::{
    assemble, comma_member, count_at, cp_char, digit_val, digits_end, digits_val, empty_partial,
    hex4_at, hex_val, is_digit, is_hex_digit, is_outer_ws, is_ws, match_at, member, object_at,
    pipeline, shape_of_name, skip_outer_ws, skip_ws, str_at, str_body, strip_fence, trim,
    trim_end_idx, unescape, PartialView,
};
use crate::schema::{ClassificationResult, ShapeKind};

verus! {

/// Whether `c` is JSON whitespace.
fn is_ws_char(c: char) -> (b: bool)
    ensures
        b == is_ws(c),
{
    c == ' ' || c == '\t' || c == '\n' || c == '\r'
}

/// Whether `c` is whitespace that outer trimming removes.
fn is_outer_ws_char(c: char) -> (b: bool)
    ensures
        b == is_outer_ws(c),
{
    let u = c as u32;
    u == 0x20 || u == 0x09 || u == 0x0A || u == 0x0D || u == 0x0B || u == 0x0C || u == 0x85 || u
        == 0xA0 || u == 0x1680 || (0x2000 <= u && u <= 0x200A) || u == 0x2028 || u == 0x2029 || u
        == 0x202F || u == 0x205F || u == 0x3000
}

/// First index at or after `i` holding a non-whitespace character.
fn skip_ws_exec(s: &str, n: usize, i: usize) -> (r: usize)
    requires
        n == s@.len(),
        i <= n,
    ensures
        r == skip_ws(s@, i as int),
        i <= r <= n,
{
    let mut k = i;
    while k < n && is_ws_char(s.get_char(k))
        invariant
            i <= k <= n,
            n == s@.len(),
            skip_ws(s@, i as int) == skip_ws(s@, k as int),
        decreases n - k,
    {
        k = k + 1;
    }
    k
}

/// First index at or after `i` holding a character outer trimming keeps.
fn skip_outer_ws_exec(s: &str, n: usize, i: usize) -> (r: usize)
    requires
        n == s@.len(),
        i <= n,
    ensures
        r == skip_outer_ws(s@, i as int),
        i <= r <= n,
{
    let mut k = i;
    while k < n && is_outer_ws_char(s.get_char(k))
        invariant
            i <= k <= n,
            n == s@.len(),
            skip_outer_ws(s@, i as int) == skip_outer_ws(s@, k as int),
        decreases n - k,
    {
        k = k + 1;
    }
    k
}

/// The text with surrounding whitespace removed.
fn trim_exec<'a>(s: &'a str) -> (r: &'a str)
    ensures
        r@ == trim(s@),
{
    let n = s.unicode_len();
    let a = skip_outer_ws_exec(s, n, 0);
    let mut b = n;
    while b > 0 && is_outer_ws_char(s.get_char(b - 1))
        invariant
            0 <= b <= n,
            n == s@.len(),
            trim_end_idx(s@, n as int) == trim_end_idx(s@, b as int),
        decreases b,
    {
        b = b - 1;
    }
    if a <= b {
        s.substring_char(a, b)
    } else {
        let r = s.substring_char(0, 0);
        assert(r@ =~= trim(s@));
        r
    }
}

/// Whether the word `w` occurs in `s` starting at index `i`.
fn match_word(s: &str, n: usize, i: usize, w: &str) -> (b: bool)
    requires
        n == s@.len(),
        i <= n,
    ensures
        b == match_at(s@, i as int, w@),
{
    let m = w.unicode_len();
    if m > n - i {
        return false;
    }
    let mut k: usize = 0;
    while k < m
        invariant
            0 <= k <= m,
            i + m <= n,
            n == s@.len(),
            m == w@.len(),
            forall|t: int| 0 <= t < k ==> s@[i + t] == w@[t],
        decreases m - k,
    {
        if s.get_char(i + k) != w.get_char(k) {
            proof {
                if match_at(s@, i as int, w@) {
                    assert(s@.subrange(i as int, i + w@.len())[k as int] == w@[k as int]);
                }
            }
            return false;
        }
        k = k + 1;
    }
    proof {
        assert(s@.subrange(i as int, i + w@.len()) =~= w@);
    }
    true
}

/// One leading and one trailing code-fence marker removed, if present.
fn strip_fence_exec<'a>(s: &'a str) -> (r: &'a str)
    ensures
        r@ == strip_fence(s@),
{
    let n = s.unicode_len();
    let t: &'a str = if match_word(s, n, 0, "```json") {
        proof {
            reveal_strlit("```json");
        }
        let t = s.substring_char(7, n);
        assert(t@ =~= s@.skip(7));
        t
    } else if match_word(s, n, 0, "```") {
        proof {
            reveal_strlit("```");
        }
        let t = s.substring_char(3, n);
        assert(t@ =~= s@.skip(3));
        t
    } else {
        s
    };
    let tn = t.unicode_len();
    proof {
        reveal_strlit("```");
    }
    if tn >= 3 && match_word(t, tn, tn - 3, "```") {
        let r = t.substring_char(0, tn - 3);
        assert(r@ =~= t@.take(t@.len() - 3));
        r
    } else {
        assert(!match_at(t@, t@.len() - 3, "```"@));
        t
    }
}

/// Relies on `String::push`: appends the given character to the end of the
/// string. vstd gives `String` no specification for it.
#[verifier::external_body]
fn push_char(s: &mut String, c: char)
    ensures
        final(s)@ == old(s)@.push(c),
{
    s.push(c);
}

/// Relies on `char::from_u32`: the character with the given code point, for
/// every Unicode scalar value. vstd gives `char` no construction primitive.
#[verifier::external_body]
fn char_of_code(u: u32) -> (c: char)
    requires
        u < 0xD800 || (0xE000 <= u && u <= 0x10FFFF),
    ensures
        c as u32 == u,
{
    char::from_u32(u).unwrap_or('\u{FFFD}')
}

/// The value of one hexadecimal digit character.
fn hex_digit_val(c: char) -> (r: Option<u32>)
    ensures
        match r {
            Some(v) => is_hex_digit(c) && v as int == hex_val(c) && v < 16,
            None => !is_hex_digit(c),
        },
{
    let u = c as u32;
    if 48 <= u && u <= 57 {
        Some(u - 48)
    } else if 65 <= u && u <= 70 {
        Some(u - 55)
    } else if 97 <= u && u <= 102 {
        Some(u - 87)
    } else {
        None
    }
}

/// The code unit named by the four hexadecimal digits at index `i`.
fn scan_hex4(s: &str, n: usize, i: usize) -> (r: Option<u32>)
    requires
        n == s@.len(),
        i <= n,
    ensures
        match r {
            Some(u) => hex4_at(s@, i as int) == Some(u as int) && u <= 0xFFFF,
            None => hex4_at(s@, i as int) is None,
        },
{
    if n - i < 4 {
        return None;
    }
    let v0 = match hex_digit_val(s.get_char(i)) {
        None => {
            return None;
        },
        Some(v) => v,
    };
    let v1 = match hex_digit_val(s.get_char(i + 1)) {
        None => {
            return None;
        },
        Some(v) => v,
    };
    let v2 = match hex_digit_val(s.get_char(i + 2)) {
        None => {
            return None;
        },
        Some(v) => v,
    };
    let v3 = match hex_digit_val(s.get_char(i + 3)) {
        None => {
            return None;
        },
        Some(v) => v,
    };
    Some(((v0 * 16 + v1) * 16 + v2) * 16 + v3)
}

/// The decoded character of a `\c` escape pair.
fn unescape_exec(c: char) -> (r: Option<char>)
    ensures
        r == unescape(c),
{
    if c == '"' {
        Some('"')
    } else if c == '\\' {
        Some('\\')
    } else if c == '/' {
        Some('/')
    } else if c == 'n' {
        Some('\n')
    } else if c == 't' {
        Some('\t')
    } else if c == 'r' {
        Some('\r')
    } else if c == 'b' {
        Some('\u{0008}')
    } else if c == 'f' {
        Some('\u{000C}')
    } else {
        None
    }
}

/// What `str_body` yields once `pre` is put in front of the decoded content.
spec fn opt_prepend(pre: Seq<char>, r: Option<(Seq<char>, int)>) -> Option<
    (Seq<char>, int),
> {
    match r {
        Some((rest, j)) => Some((pre + rest, j)),
        None => None,
    }
}

/// The body of a quoted string starting at `i` (just after the opening
/// quote): its decoded content and the index just past the closing quote.
#[verifier::rlimit(60)]
fn scan_string(s: &str, n: usize, i: usize) -> (r: Option<(String, usize)>)
    requires
        n == s@.len(),
        i <= n,
    ensures
        match r {
            Some((out, j)) => str_body(s@, i as int) == Some((out@, j as int)) && i < j <= n,
            None => str_body(s@, i as int) is None,
        },
{
    let mut out = String::new();
    let mut k = i;
    loop
        invariant
            i <= k <= n,
            n == s@.len(),
            str_body(s@, i as int) == opt_prepend(out@, str_body(s@, k as int)),
        decreases n - k,
    {
        if k >= n {
            return None;
        }
        let c = s.get_char(k);
        if c == '"' {
            proof {
                assert(str_body(s@, k as int) == Some((Seq::<char>::empty(), k + 1)));
                assert(out@ + Seq::<char>::empty() =~= out@);
            }
            return Some((out, k + 1));
        } else if c == '\\' {
            if k + 1 >= n {
                return None;
            }
            let e = s.get_char(k + 1);
            if e == 'u' {
                let u1 = match scan_hex4(s, n, k + 2) {
                    None => {
                        return None;
                    },
                    Some(u) => u,
                };
                if !(0xD800 <= u1 && u1 < 0xE000) {
                    let ch = char_of_code(u1);
                    proof {
                        assert(ch == cp_char(u1 as int));
                        let ghost r2 = str_body(s@, k + 6);
                        if let Some((rest, j)) = r2 {
                            assert(out@ + (seq![ch] + rest) =~= out@.push(ch) + rest);
                        }
                    }
                    push_char(&mut out, ch);
                    k = k + 6;
                } else if u1 < 0xDC00 {
                    if !(n - k > 7 && s.get_char(k + 6) == '\\' && s.get_char(k + 7) == 'u') {
                        return None;
                    }
                    let u2 = match scan_hex4(s, n, k + 8) {
                        None => {
                            return None;
                        },
                        Some(u) => u,
                    };
                    if !(0xDC00 <= u2 && u2 < 0xE000) {
                        return None;
                    }
                    let cp = 0x10000 + (u1 - 0xD800) * 0x400 + (u2 - 0xDC00);
                    let ch = char_of_code(cp);
                    proof {
                        assert(ch == cp_char(cp as int));
                        let ghost r2 = str_body(s@, k + 12);
                        if let Some((rest, j)) = r2 {
                            assert(out@ + (seq![ch] + rest) =~= out@.push(ch) + rest);
                        }
                    }
                    push_char(&mut out, ch);
                    k = k + 12;
                } else {
                    return None;
                }
            } else {
                match unescape_exec(e) {
                    None => {
                        return None;
                    },
                    Some(u) => {
                        proof {
                            let ghost r2 = str_body(s@, k + 2);
                            if let Some((rest, j)) = r2 {
                                assert(out@ + (seq![u] + rest) =~= out@.push(u) + rest);
                            }
                        }
                        push_char(&mut out, u);
                        k = k + 2;
                    },
                }
            }
        } else if (c as u32) < 32 {
            return None;
        } else {
            proof {
                let ghost r2 = str_body(s@, k + 1);
                if let Some((rest, j)) = r2 {
                    assert(out@ + (seq![c] + rest) =~= out@.push(c) + rest);
                }
            }
            push_char(&mut out, c);
            k = k + 1;
        }
    }
}

/// Ten to the `k`.
spec fn pow10(k: nat) -> int
    decreases k,
{
    if k == 0 {
        1
    } else {
        10 * pow10((k - 1) as nat)
    }
}

proof fn lemma_pow10_pos(k: nat)
    ensures
        pow10(k) >= 1,
    decreases k,
{
    if k > 0 {
        lemma_pow10_pos((k - 1) as nat);
    }
}

proof fn lemma_pow10_mono(a: nat, b: nat)
    requires
        a <= b,
    ensures
        0 < pow10(a) <= pow10(b),
    decreases b,
{
    lemma_pow10_pos(a);
    if a < b {
        lemma_pow10_mono(a, (b - 1) as nat);
        lemma_pow10_pos((b - 1) as nat);
    }
}

proof fn lemma_pow10_ten()
    ensures
        pow10(10) == 10000000000,
{
    assert(pow10(0) == 1);
    assert(pow10(1) == 10);
    assert(pow10(2) == 100);
    assert(pow10(3) == 1000);
    assert(pow10(4) == 10000);
    assert(pow10(5) == 100000);
    assert(pow10(6) == 1000000);
    assert(pow10(7) == 10000000);
    assert(pow10(8) == 100000000);
    assert(pow10(9) == 1000000000);
}

/// Everything from `i` up to `digits_end(s, i)` is a digit, and the bound
/// stays within the text.
proof fn lemma_digits_end_props(s: Seq<char>, i: int)
    requires
        0 <= i <= s.len(),
    ensures
        i <= digits_end(s, i) <= s.len(),
        forall|t: int| i <= t < digits_end(s, i) ==> is_digit(s[t]),
        (i < s.len() && is_digit(s[i])) ==> digits_end(s, i) >= i + 1,
    decreases s.len() - i,
{
    if i < s.len() && is_digit(s[i]) {
        lemma_digits_end_props(s, i + 1);
    }
}

/// A digit run's value is bounded by ten to its length.
proof fn lemma_digits_val_upper(s: Seq<char>, i: int, j: int)
    requires
        0 <= i <= j <= s.len(),
        forall|t: int| i <= t < j ==> is_digit(s[t]),
    ensures
        0 <= digits_val(s, i, j) < pow10((j - i) as nat),
    decreases j - i,
{
    if i < j {
        lemma_digits_val_upper(s, i, j - 1);
    }
}

/// A digit run that does not start with zero is at least ten to one less
/// than its length.
proof fn lemma_digits_val_lower(s: Seq<char>, i: int, j: int)
    requires
        0 <= i < j <= s.len(),
        forall|t: int| i <= t < j ==> is_digit(s[t]),
        digit_val(s[i]) >= 1,
    ensures
        digits_val(s, i, j) >= pow10((j - i - 1) as nat),
    decreases j - i,
{
    if i == j - 1 {
        assert(digits_val(s, i, j) == digits_val(s, i, i) * 10 + digit_val(s[i]));
        assert(digits_val(s, i, i) == 0);
        assert(pow10((j - i - 1) as nat) == 1);
    } else {
        lemma_digits_val_lower(s, i, j - 1);
        assert(is_digit(s[j - 1]));
        assert(digit_val(s[j - 1]) >= 0);
        assert(pow10((j - i - 1) as nat) == 10 * pow10((j - i - 2) as nat));
        assert(digits_val(s, i, j) == digits_val(s, i, j - 1) * 10 + digit_val(s[j - 1]));
    }
}

/// Whether `c` is a decimal digit.
fn is_digit_char(c: char) -> (b: bool)
    ensures
        b == is_digit(c),
{
    let u = c as u32;
    48 <= u && u <= 57
}

/// First index at or after `i` holding a non-digit character.
fn digits_end_exec(s: &str, n: usize, i: usize) -> (r: usize)
    requires
        n == s@.len(),
        i <= n,
    ensures
        r == digits_end(s@, i as int),
        i <= r <= n,
{
    let mut k = i;
    while k < n && is_digit_char(s.get_char(k))
        invariant
            i <= k <= n,
            n == s@.len(),
            digits_end(s@, i as int) == digits_end(s@, k as int),
        decreases n - k,
    {
        k = k + 1;
    }
    k
}

/// A schema `count` value at index `i`: an optionally signed integer that
/// fits in `i32`.
fn scan_count(s: &str, n: usize, i: usize) -> (r: Option<(i32, usize)>)
    requires
        n == s@.len(),
        i <= n,
    ensures
        match r {
            Some((v, j)) => count_at(s@, i as int) == Some((v as int, j as int)) && i < j <= n,
            None => count_at(s@, i as int) is None,
        },
{
    if i >= n {
        return None;
    }
    let neg = s.get_char(i) == '-';
    let d0 = if neg {
        i + 1
    } else {
        i
    };
    if d0 >= n {
        return None;
    }
    let c0 = s.get_char(d0);
    if !is_digit_char(c0) {
        return None;
    }
    let e = digits_end_exec(s, n, d0);
    proof {
        lemma_digits_end_props(s@, d0 as int);
    }
    if c0 == '0' && e != d0 + 1 {
        return None;
    }
    if e - d0 > 10 {
        proof {
            lemma_digits_val_lower(s@, d0 as int, e as int);
            lemma_pow10_mono(10, (e - d0 - 1) as nat);
            lemma_pow10_ten();
        }
        return None;
    }
    let mut acc: i64 = 0;
    let mut k = d0;
    while k < e
        invariant
            d0 <= k <= e <= n,
            n == s@.len(),
            e - d0 <= 10,
            forall|t: int| d0 <= t < e ==> is_digit(s@[t]),
            acc == digits_val(s@, d0 as int, k as int),
            0 <= acc < pow10((k - d0) as nat),
        decreases e - k,
    {
        let c = s.get_char(k);
        let d = (c as u32 - 48) as i64;
        proof {
            lemma_pow10_mono((k - d0 + 1) as nat, 10);
            lemma_pow10_ten();
        }
        acc = acc * 10 + d;
        k = k + 1;
    }
    proof {
        lemma_pow10_mono((e - d0) as nat, 10);
        lemma_pow10_ten();
    }
    if neg {
        if acc > 0x8000_0000 {
            return None;
        }
        Some(((-acc) as i32, e))
    } else {
        if acc > 0x7fff_ffff {
            return None;
        }
        Some((acc as i32, e))
    }
}

/// A complete quoted string at index `i`.
fn scan_str_at(s: &str, n: usize, i: usize) -> (r: Option<(String, usize)>)
    requires
        n == s@.len(),
        i <= n,
    ensures
        match r {
            Some((out, j)) => str_at(s@, i as int) == Some((out@, j as int)) && i < j <= n,
            None => str_at(s@, i as int) is None,
        },
{
    if i < n && s.get_char(i) == '"' {
        scan_string(s, n, i + 1)
    } else {
        None
    }
}

/// Whether the string `a` reads exactly as the word `b`.
fn str_eq_lit(a: &String, b: &str) -> (r: bool)
    ensures
        r == (a@ == b@),
{
    let s = a.as_str();
    let n = s.unicode_len();
    let m = b.unicode_len();
    if n != m {
        proof {
            if a@ == b@ {
                assert(a@.len() == b@.len());
            }
        }
        return false;
    }
    let r = match_word(s, n, 0, b);
    proof {
        assert(s@.subrange(0, m as int) =~= s@);
    }
    r
}

/// The shape named by a decoded string value, if any.
fn shape_of_name_exec(name: &String) -> (r: Option<ShapeKind>)
    ensures
        r == shape_of_name(name@),
{
    if str_eq_lit(name, "None") {
        Some(ShapeKind::NoShape)
    } else if str_eq_lit(name, "Circle") {
        Some(ShapeKind::Circle)
    } else if str_eq_lit(name, "Square") {
        Some(ShapeKind::Square)
    } else if str_eq_lit(name, "Triangle") {
        Some(ShapeKind::Triangle)
    } else {
        None
    }
}

/// The fields decoded so far, as carried by the executable parser.
struct PartialFields {
    valid: Option<bool>,
    error: Option<String>,
    shape: Option<ShapeKind>,
    count: Option<i32>,
}

/// The mathematical value of the fields decoded so far.
spec fn pv(p: &PartialFields) -> PartialView {
    PartialView {
        valid: p.valid,
        error: match p.error {
            Some(e) => Some(e@),
            None => None,
        },
        shape: p.shape,
        count: match p.count {
            Some(c) => Some(c as int),
            None => None,
        },
    }
}

/// One `"key": value` member at index `i`, merged into `p`.
fn member_exec(s: &str, n: usize, i: usize, p: PartialFields) -> (r: Option<(PartialFields, usize)>)
    requires
        n == s@.len(),
        i <= n,
    ensures
        match r {
            Some((q, j)) => member(s@, i as int, pv(&p)) == Some((pv(&q), j as int)) && j <= n,
            None => member(s@, i as int, pv(&p)) is None,
        },
{
    proof {
        reveal_strlit("true");
        reveal_strlit("false");
    }
    let k0 = skip_ws_exec(s, n, i);
    let (key, k1) = match scan_str_at(s, n, k0) {
        None => {
            return None;
        },
        Some(kk) => kk,
    };
    let k2 = skip_ws_exec(s, n, k1);
    if !(k2 < n && s.get_char(k2) == ':') {
        return None;
    }
    let k3 = skip_ws_exec(s, n, k2 + 1);
    if str_eq_lit(&key, "valid") {
        let (b, k4) = if match_word(s, n, k3, "true") {
            (true, k3 + 4)
        } else if match_word(s, n, k3, "false") {
            (false, k3 + 5)
        } else {
            return None;
        };
        if p.valid.is_none() {
            let q = PartialFields { valid: Some(b), ..p };
            assert(pv(&q) =~= (PartialView { valid: Some(b), ..pv(&p) }));
            Some((q, k4))
        } else {
            None
        }
    } else if str_eq_lit(&key, "error") {
        match scan_str_at(s, n, k3) {
            Some((text, k4)) => {
                if p.error.is_none() {
                    let ghost tv = text@;
                    let q = PartialFields { error: Some(text), ..p };
                    assert(pv(&q) =~= (PartialView { error: Some(tv), ..pv(&p) }));
                    Some((q, k4))
                } else {
                    None
                }
            },
            None => None,
        }
    } else if str_eq_lit(&key, "shape") {
        match scan_str_at(s, n, k3) {
            Some((name, k4)) => match shape_of_name_exec(&name) {
                Some(sh) => {
                    if p.shape.is_none() {
                        let q = PartialFields { shape: Some(sh), ..p };
                        assert(pv(&q) =~= (PartialView { shape: Some(sh), ..pv(&p) }));
                        Some((q, k4))
                    } else {
                        None
                    }
                },
                None => None,
            },
            None => None,
        }
    } else if str_eq_lit(&key, "count") {
        match scan_count(s, n, k3) {
            Some((v, k4)) => {
                if p.count.is_none() {
                    let q = PartialFields { count: Some(v), ..p };
                    assert(pv(&q) =~= (PartialView { count: Some(v as int), ..pv(&p) }));
                    Some((q, k4))
                } else {
                    None
                }
            },
            None => None,
        }
    } else {
        None
    }
}

/// A comma followed by one more member.
fn comma_member_exec(s: &str, n: usize, i: usize, p: PartialFields) -> (r: Option<
    (PartialFields, usize),
>)
    requires
        n == s@.len(),
        i <= n,
    ensures
        match r {
            Some((q, j)) => comma_member(s@, i as int, pv(&p)) == Some((pv(&q), j as int)) && j
                <= n,
            None => comma_member(s@, i as int, pv(&p)) is None,
        },
{
    let k = skip_ws_exec(s, n, i);
    if k < n && s.get_char(k) == ',' {
        member_exec(s, n, k + 1, p)
    } else {
        None
    }
}

/// The whole text as one schema object.
fn object_exec(s: &str) -> (r: Option<ClassificationResult>)
    ensures
        match r {
            Some(res) => object_at(s@) == Some(res@),
            None => object_at(s@) is None,
        },
{
    let n = s.unicode_len();
    let i0 = skip_ws_exec(s, n, 0);
    if !(i0 < n && s.get_char(i0) == '{') {
        return None;
    }
    let p0 = PartialFields { valid: None, error: None, shape: None, count: None };
    assert(pv(&p0) =~= empty_partial());
    let (p1, j1) = match member_exec(s, n, i0 + 1, p0) {
        None => {
            return None;
        },
        Some(x) => x,
    };
    let (p2, j2) = match comma_member_exec(s, n, j1, p1) {
        None => {
            return None;
        },
        Some(x) => x,
    };
    let (p3, j3) = match comma_member_exec(s, n, j2, p2) {
        None => {
            return None;
        },
        Some(x) => x,
    };
    let (p4, j4) = match comma_member_exec(s, n, j3, p3) {
        None => {
            return None;
        },
        Some(x) => x,
    };
    let k = skip_ws_exec(s, n, j4);
    if !(k < n && s.get_char(k) == '}') {
        return None;
    }
    if skip_ws_exec(s, n, k + 1) != n {
        return None;
    }
    let ghost pview = pv(&p4);
    match (p4.valid, p4.error, p4.shape, p4.count) {
        (Some(valid), Some(error), Some(shape), Some(count)) => {
            let res = ClassificationResult { valid, error, shape, count };
            proof {
                assert(object_at(s@) == assemble(pview));
                assert(assemble(pview) == Some(res@));
            }
            Some(res)
        },
        _ => None,
    }
}

/// Decode a raw model reply: trim surrounding whitespace, strip one wrapping
/// code-fence pair if present, trim again, and read the remaining text as the
/// schema object.
///
/// Returns exactly what [`pipeline`] says the reply decodes to; any failure
/// is a [`ClassificationError::Decode`] carrying the original reply text,
/// unmodified, for diagnostics. Never a `Request` error, and never a panic,
/// whatever the input.
pub fn parse(raw: &str) -> (r: Result<ClassificationResult, ClassificationError>)
    ensures
        match r {
            Ok(res) => pipeline(raw@) == Some(res@),
            Err(e) => pipeline(raw@) is None && (e matches ClassificationError::Decode {
                raw_text,
            } && raw_text@ == raw@),
        },
{
    let t1 = trim_exec(raw);
    let t2 = strip_fence_exec(t1);
    let t3 = trim_exec(t2);
    match object_exec(t3) {
        Some(res) => Ok(res),
        None => Err(ClassificationError::Decode { raw_text: String::from_str(raw) }),
    }
}

} // verus!
