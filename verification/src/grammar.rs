//! The reply format, stated mathematically: what counts as whitespace, a code
//! fence, and a schema-conforming JSON object, all as spec functions over
//! `Seq<char>`. The executable parser is proved equal to [`pipeline`].
//!
//! The accepted text is a single JSON object with exactly the four schema
//! fields, each once, in any order, with JSON whitespace anywhere between
//! tokens; a member with a key outside the schema is rejected. Field values
//! are a JSON `true`/`false`, a string (the one-character escapes, and `\u`
//! escapes with surrogate pairs combined), a quoted shape name, and an
//! integer without leading zeros that fits in `i32`.

use vstd::prelude::*;
use crate::schema::{ResultView, ShapeKind};

verus! {

/// JSON whitespace: space, tab, line feed, carriage return. This is what may
/// stand between the tokens of the object.
pub open spec fn is_ws(c: char) -> bool {
    c == ' ' || c == '\t' || c == '\n' || c == '\r'
}

/// Whitespace as the outer trimming removes it: the Unicode `White_Space`
/// characters, written out.
pub open spec fn is_outer_ws(c: char) -> bool {
    is_ws(c) || c as u32 == 0x0B || c as u32 == 0x0C || c as u32 == 0x85 || c as u32 == 0xA0
        || c as u32 == 0x1680 || (0x2000 <= c as u32 && c as u32 <= 0x200A) || c as u32 == 0x2028
        || c as u32 == 0x2029 || c as u32 == 0x202F || c as u32 == 0x205F || c as u32 == 0x3000
}

/// First index at or after `i` holding a non-whitespace character (or the end).
pub open spec fn skip_ws(s: Seq<char>, i: int) -> int
    decreases s.len() - i,
{
    if 0 <= i < s.len() && is_ws(s[i]) {
        skip_ws(s, i + 1)
    } else {
        i
    }
}

/// `skip_ws` stays between its argument and the end of the text.
pub proof fn lemma_skip_ws_bounds(s: Seq<char>, i: int)
    requires
        0 <= i <= s.len(),
    ensures
        i <= skip_ws(s, i) <= s.len(),
    decreases s.len() - i,
{
    if i < s.len() && is_ws(s[i]) {
        lemma_skip_ws_bounds(s, i + 1);
    }
}

/// First index at or after `i` holding a character outer trimming keeps.
pub open spec fn skip_outer_ws(s: Seq<char>, i: int) -> int
    decreases s.len() - i,
{
    if 0 <= i < s.len() && is_outer_ws(s[i]) {
        skip_outer_ws(s, i + 1)
    } else {
        i
    }
}

/// Last bound at or before `j` so that everything from it up to `j` is
/// outer whitespace read from the right (or the start).
pub open spec fn trim_end_idx(s: Seq<char>, j: int) -> int
    decreases j,
{
    if 0 < j <= s.len() && is_outer_ws(s[j - 1]) {
        trim_end_idx(s, j - 1)
    } else {
        j
    }
}

/// The text with surrounding whitespace removed.
pub open spec fn trim(s: Seq<char>) -> Seq<char> {
    let a = skip_outer_ws(s, 0);
    let b = trim_end_idx(s, s.len() as int);
    if a <= b {
        s.subrange(a, b)
    } else {
        Seq::empty()
    }
}

/// The word `w` occurs in `s` starting at index `i`.
pub open spec fn match_at(s: Seq<char>, i: int, w: Seq<char>) -> bool {
    0 <= i && i + w.len() <= s.len() && s.subrange(i, i + w.len()) == w
}

/// One leading code-fence marker (language-tagged or bare) and one trailing
/// marker removed, each only if present. Nothing is stripped recursively:
/// a second fence layer is left in place and surfaces as a decode failure.
pub open spec fn strip_fence(s: Seq<char>) -> Seq<char> {
    let t = if match_at(s, 0, "```json"@) {
        s.skip(7)
    } else if match_at(s, 0, "```"@) {
        s.skip(3)
    } else {
        s
    };
    if match_at(t, t.len() - 3, "```"@) {
        t.take(t.len() - 3)
    } else {
        t
    }
}

/// The escape character `c` of a one-character `\c` pair, decoded; `None`
/// when `c` names no such escape. The four-digit `\u` form stands apart in
/// [`str_body`].
pub open spec fn unescape(c: char) -> Option<char> {
    if c == '"' {
        Some('"')
    } else if c == '\\' {
        Some('\\')
    } else if c == '/' {
        Some('/')
    } else if c == 'n' {
        Some('\n')
    } else if c == 't' {
        Some('\t')
    } else if c == 'r' {
        Some('\r')
    } else if c == 'b' {
        Some('\u{0008}')
    } else if c == 'f' {
        Some('\u{000C}')
    } else {
        None
    }
}

/// Whether `c` is a hexadecimal digit, either case.
pub open spec fn is_hex_digit(c: char) -> bool {
    48 <= c as u32 <= 57 || 65 <= c as u32 <= 70 || 97 <= c as u32 <= 102
}

/// The numeric value of a hexadecimal digit character.
pub open spec fn hex_val(c: char) -> int {
    if 48 <= c as u32 <= 57 {
        c as u32 - 48
    } else if 65 <= c as u32 <= 70 {
        c as u32 - 55
    } else {
        c as u32 - 87
    }
}

/// The value of the four hexadecimal digits at index `i`, as a `\uXXXX`
/// escape carries its code unit.
pub open spec fn hex4_at(s: Seq<char>, i: int) -> Option<int> {
    if 0 <= i && i + 4 <= s.len() && is_hex_digit(s[i]) && is_hex_digit(s[i + 1]) && is_hex_digit(
        s[i + 2],
    ) && is_hex_digit(s[i + 3]) {
        Some(
            ((hex_val(s[i]) * 16 + hex_val(s[i + 1])) * 16 + hex_val(s[i + 2])) * 16 + hex_val(
                s[i + 3],
            ),
        )
    } else {
        None
    }
}

/// The character with code point `n`.
pub open spec fn cp_char(n: int) -> char {
    (n as u32) as char
}

/// The body of a JSON string starting just after its opening quote: the
/// decoded content and the index just past the closing quote. Control
/// characters must be escaped; `\uXXXX` escapes decode to their code unit,
/// with a surrogate pair combined into one character and a lone surrogate
/// rejected; an unterminated string is a failure.
pub open spec fn str_body(s: Seq<char>, i: int) -> Option<(Seq<char>, int)>
    decreases s.len() - i,
{
    if !(0 <= i < s.len()) {
        None
    } else if s[i] == '"' {
        Some((Seq::empty(), i + 1))
    } else if s[i] == '\\' {
        if i + 1 >= s.len() {
            None
        } else if s[i + 1] == 'u' {
            match hex4_at(s, i + 2) {
                None => None,
                Some(u1) => if !(0xD800 <= u1 < 0xE000) {
                    match str_body(s, i + 6) {
                        Some((rest, j)) => Some((seq![cp_char(u1)] + rest, j)),
                        None => None,
                    }
                } else if u1 < 0xDC00 {
                    if i + 7 < s.len() && s[i + 6] == '\\' && s[i + 7] == 'u' {
                        match hex4_at(s, i + 8) {
                            None => None,
                            Some(u2) => if 0xDC00 <= u2 < 0xE000 {
                                match str_body(s, i + 12) {
                                    Some((rest, j)) => Some(
                                        (
                                            seq![
                                                cp_char(
                                                    0x10000 + (u1 - 0xD800) * 0x400 + (u2
                                                        - 0xDC00),
                                                ),
                                            ] + rest,
                                            j,
                                        ),
                                    ),
                                    None => None,
                                }
                            } else {
                                None
                            },
                        }
                    } else {
                        None
                    }
                } else {
                    None
                },
            }
        } else {
            match unescape(s[i + 1]) {
                Some(c) => match str_body(s, i + 2) {
                    Some((rest, j)) => Some((seq![c] + rest, j)),
                    None => None,
                },
                None => None,
            }
        }
    } else if (s[i] as u32) < 32 {
        None
    } else {
        match str_body(s, i + 1) {
            Some((rest, j)) => Some((seq![s[i]] + rest, j)),
            None => None,
        }
    }
}

/// A complete JSON string at index `i`: its decoded content and the index
/// just past the closing quote.
pub open spec fn str_at(s: Seq<char>, i: int) -> Option<(Seq<char>, int)> {
    if 0 <= i < s.len() && s[i] == '"' {
        str_body(s, i + 1)
    } else {
        None
    }
}

/// A JSON boolean literal at index `i`.
pub open spec fn bool_at(s: Seq<char>, i: int) -> Option<(bool, int)> {
    if match_at(s, i, "true"@) {
        Some((true, i + 4))
    } else if match_at(s, i, "false"@) {
        Some((false, i + 5))
    } else {
        None
    }
}

/// Whether `c` is a decimal digit.
pub open spec fn is_digit(c: char) -> bool {
    48 <= c as u32 <= 57
}

/// The numeric value of a digit character.
pub open spec fn digit_val(c: char) -> int {
    c as u32 - 48
}

/// First index at or after `i` holding a non-digit character (or the end).
pub open spec fn digits_end(s: Seq<char>, i: int) -> int
    decreases s.len() - i,
{
    if 0 <= i < s.len() && is_digit(s[i]) {
        digits_end(s, i + 1)
    } else {
        i
    }
}

/// The value of the digit run `s[i..j]`, read as a decimal numeral.
pub open spec fn digits_val(s: Seq<char>, i: int, j: int) -> int
    decreases j - i,
{
    if i < j {
        digits_val(s, i, j - 1) * 10 + digit_val(s[j - 1])
    } else {
        0
    }
}

/// A JSON integer at index `i` that fits in `i32`: an optional minus sign and
/// a digit run without leading zeros. A numeral outside the `i32` range, a
/// fraction or an exponent is a failure (the digits simply end where `.` or
/// `e` begins, and the object grammar then rejects the leftover character).
pub open spec fn count_at(s: Seq<char>, i: int) -> Option<(int, int)> {
    if !(0 <= i < s.len()) {
        None
    } else {
        let neg = s[i] == '-';
        let d0 = if neg { i + 1 } else { i };
        if !(d0 < s.len() && is_digit(s[d0])) {
            None
        } else {
            let e = digits_end(s, d0);
            if s[d0] == '0' && e != d0 + 1 {
                None
            } else {
                let n = if neg { -digits_val(s, d0, e) } else { digits_val(s, d0, e) };
                if -0x8000_0000 <= n <= 0x7fff_ffff {
                    Some((n, e))
                } else {
                    None
                }
            }
        }
    }
}

/// The shape named by a decoded string value, if it is one of the enumeration.
pub open spec fn shape_of_name(name: Seq<char>) -> Option<ShapeKind> {
    if name == "None"@ {
        Some(ShapeKind::NoShape)
    } else if name == "Circle"@ {
        Some(ShapeKind::Circle)
    } else if name == "Square"@ {
        Some(ShapeKind::Square)
    } else if name == "Triangle"@ {
        Some(ShapeKind::Triangle)
    } else {
        None
    }
}

/// The fields decoded so far while reading the object's members.
#[verifier::ext_equal]
pub struct PartialView {
    pub valid: Option<bool>,
    pub error: Option<Seq<char>>,
    pub shape: Option<ShapeKind>,
    pub count: Option<int>,
}

/// No field decoded yet.
pub open spec fn empty_partial() -> PartialView {
    PartialView { valid: None, error: None, shape: None, count: None }
}

/// One `"key": value` member at index `i` (leading whitespace allowed),
/// merged into `p`. A key outside the schema, a value of the wrong type, a
/// shape outside the enumeration, or a key already seen is a failure.
pub open spec fn member(s: Seq<char>, i: int, p: PartialView) -> Option<(PartialView, int)> {
    let k0 = skip_ws(s, i);
    match str_at(s, k0) {
        None => None,
        Some((key, k1)) => {
            let k2 = skip_ws(s, k1);
            if !(k2 < s.len() && s[k2] == ':') {
                None
            } else {
                let k3 = skip_ws(s, k2 + 1);
                if key == "valid"@ {
                    match bool_at(s, k3) {
                        Some((b, k4)) => if p.valid is None {
                            Some((PartialView { valid: Some(b), ..p }, k4))
                        } else {
                            None
                        },
                        None => None,
                    }
                } else if key == "error"@ {
                    match str_at(s, k3) {
                        Some((text, k4)) => if p.error is None {
                            Some((PartialView { error: Some(text), ..p }, k4))
                        } else {
                            None
                        },
                        None => None,
                    }
                } else if key == "shape"@ {
                    match str_at(s, k3) {
                        Some((name, k4)) => match shape_of_name(name) {
                            Some(sh) => if p.shape is None {
                                Some((PartialView { shape: Some(sh), ..p }, k4))
                            } else {
                                None
                            },
                            None => None,
                        },
                        None => None,
                    }
                } else if key == "count"@ {
                    match count_at(s, k3) {
                        Some((n, k4)) => if p.count is None {
                            Some((PartialView { count: Some(n), ..p }, k4))
                        } else {
                            None
                        },
                        None => None,
                    }
                } else {
                    None
                }
            }
        },
    }
}

/// A comma (leading whitespace allowed) followed by one more member.
pub open spec fn comma_member(s: Seq<char>, i: int, p: PartialView) -> Option<(PartialView, int)> {
    let k = skip_ws(s, i);
    if k < s.len() && s[k] == ',' {
        member(s, k + 1, p)
    } else {
        None
    }
}

/// The record assembled from a complete set of decoded fields.
pub open spec fn assemble(p: PartialView) -> Option<ResultView> {
    match (p.valid, p.error, p.shape, p.count) {
        (Some(valid), Some(error), Some(shape), Some(count)) => Some(
            ResultView { valid, error, shape, count },
        ),
        _ => None,
    }
}

/// The whole text as one schema object: `{` , the four members separated by
/// commas, `}` , nothing but whitespace around them, every field present.
pub open spec fn object_at(s: Seq<char>) -> Option<ResultView> {
    let i0 = skip_ws(s, 0);
    if !(i0 < s.len() && s[i0] == '{') {
        None
    } else {
        match member(s, i0 + 1, empty_partial()) {
            None => None,
            Some((p1, j1)) => match comma_member(s, j1, p1) {
                None => None,
                Some((p2, j2)) => match comma_member(s, j2, p2) {
                    None => None,
                    Some((p3, j3)) => match comma_member(s, j3, p3) {
                        None => None,
                        Some((p4, j4)) => {
                            let k = skip_ws(s, j4);
                            if k < s.len() && s[k] == '}' && skip_ws(s, k + 1) == s.len() {
                                assemble(p4)
                            } else {
                                None
                            }
                        },
                    },
                },
            },
        }
    }
}

/// What a raw model reply decodes to: trim, strip one fence pair, trim again,
/// read the schema object. `None` is a decode failure.
pub open spec fn pipeline(raw: Seq<char>) -> Option<ResultView> {
    object_at(trim(strip_fence(trim(raw))))
}

} // verus!
