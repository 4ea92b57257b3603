//! Properties of the reply format proved once and for all: a valid reply
//! decodes the same with or without a wrapping code fence, and a blank reply
//! never decodes.

use vstd::prelude::*;
use crate::grammar::{
    assemble, bool_at, comma_member, count_at, digit_val, digits_end, digits_val, empty_partial,
    is_digit, is_outer_ws, is_ws, lemma_skip_ws_bounds, match_at, member, object_at, pipeline,
    shape_of_name, skip_outer_ws, skip_ws, str_at, str_body, strip_fence, trim, trim_end_idx, unescape,
    PartialView,
};
use crate::schema::{ResultView, ShapeKind};

verus! {

/// `trim_end_idx` stays between the start of the text and its argument.
proof fn lemma_trim_end_bounds(s: Seq<char>, j: int)
    requires
        0 <= j <= s.len(),
    ensures
        0 <= trim_end_idx(s, j) <= j,
    decreases j,
{
    if 0 < j && is_outer_ws(s[j - 1]) {
        lemma_trim_end_bounds(s, j - 1);
    }
}

/// `skip_outer_ws` stays between its argument and the end of the text.
proof fn lemma_skip_outer_ws_bounds(s: Seq<char>, i: int)
    requires
        0 <= i <= s.len(),
    ensures
        i <= skip_outer_ws(s, i) <= s.len(),
    decreases s.len() - i,
{
    if i < s.len() && is_outer_ws(s[i]) {
        lemma_skip_outer_ws_bounds(s, i + 1);
    }
}

/// Everything skipped by `skip_ws` is whitespace.
proof fn lemma_skip_ws_all_ws(s: Seq<char>, i: int)
    requires
        0 <= i <= s.len(),
    ensures
        forall|t: int| i <= t < skip_ws(s, i) ==> is_ws(s[t]),
    decreases s.len() - i,
{
    if i < s.len() && is_ws(s[i]) {
        lemma_skip_ws_all_ws(s, i + 1);
        lemma_skip_ws_bounds(s, i + 1);
    }
}

/// A text that trimming leaves unchanged neither starts nor ends with
/// whitespace.
proof fn lemma_trim_identity_chars(s: Seq<char>)
    requires
        trim(s) == s,
        s.len() > 0,
    ensures
        !is_outer_ws(s[0]),
        !is_outer_ws(s[s.len() - 1]),
{
    let a = skip_outer_ws(s, 0);
    let b = trim_end_idx(s, s.len() as int);
    lemma_skip_outer_ws_bounds(s, 0);
    lemma_trim_end_bounds(s, s.len() as int);
    if a <= b {
        assert(s == s.subrange(a, b));
        assert(s.len() == b - a);
        if is_outer_ws(s[0]) {
            assert(skip_outer_ws(s, 0) == skip_outer_ws(s, 1));
            lemma_skip_outer_ws_bounds(s, 1);
            assert(false);
        }
        if is_outer_ws(s[s.len() - 1]) {
            assert(trim_end_idx(s, s.len() as int) == trim_end_idx(s, s.len() - 1));
            lemma_trim_end_bounds(s, s.len() - 1);
            assert(false);
        }
    } else {
        assert(s.len() == 0);
        assert(false);
    }
}

/// A text that neither starts nor ends with whitespace trims to itself.
proof fn lemma_trim_fixed(s: Seq<char>)
    requires
        s.len() > 0,
        !is_outer_ws(s[0]),
        !is_outer_ws(s[s.len() - 1]),
    ensures
        trim(s) == s,
{
    assert(skip_outer_ws(s, 0) == 0);
    assert(trim_end_idx(s, s.len() as int) == s.len());
    assert(s.subrange(0, s.len() as int) =~= s);
}

/// A trimmed text that reads as a schema object is brace to brace.
proof fn lemma_object_at_braces(s: Seq<char>)
    requires
        object_at(s) is Some,
        trim(s) == s,
    ensures
        s.len() > 0,
        s[0] == '{',
        s[s.len() - 1] == '}',
{
    let i0 = skip_ws(s, 0);
    assert(i0 < s.len() && s[i0] == '{');
    lemma_trim_identity_chars(s);
    assert(!is_ws(s[0]));
    assert(skip_ws(s, 0) == 0);
    if let Some((p1, j1)) = member(s, 1, empty_partial()) {
        if let Some((p2, j2)) = comma_member(s, j1, p1) {
            if let Some((p3, j3)) = comma_member(s, j2, p2) {
                if let Some((p4, j4)) = comma_member(s, j3, p3) {
                    let k = skip_ws(s, j4);
                    assert(k < s.len() && s[k] == '}' && skip_ws(s, k + 1) == s.len());
                    if k + 1 < s.len() {
                        lemma_skip_ws_all_ws(s, k + 1);
                        assert(is_ws(s[s.len() - 1]));
                        assert(is_outer_ws(s[s.len() - 1]));
                        assert(false);
                    }
                    assert(k == s.len() - 1);
                } else {
                    assert(false);
                }
            } else {
                assert(false);
            }
        } else {
            assert(false);
        }
    } else {
        assert(false);
    }
}

/// Fence stripping leaves a brace-to-brace text unchanged.
proof fn lemma_no_fence(s: Seq<char>)
    requires
        s.len() > 0,
        s[0] == '{',
        s[s.len() - 1] == '}',
    ensures
        strip_fence(s) == s,
{
    reveal_strlit("```json");
    reveal_strlit("```");
    if match_at(s, 0, "```json"@) {
        assert(s.subrange(0, 7)[0] == s[0]);
        assert(false);
    }
    if match_at(s, 0, "```"@) {
        assert(s.subrange(0, 3)[0] == s[0]);
        assert(false);
    }
    if match_at(s, s.len() - 3, "```"@) {
        assert(s.subrange(s.len() - 3, s.len() as int)[2] == s[s.len() - 1]);
        assert(false);
    }
}

/// The reply text wrapped in a language-tagged code fence, the way a model
/// most often wraps structured output.
pub open spec fn fenced(s: Seq<char>) -> Seq<char> {
    "```json\n"@ + s + "\n```"@
}

/// Fencing a brace-to-brace text and running it back through trimming and
/// fence stripping recovers the text.
#[verifier::rlimit(100)]
proof fn lemma_fenced_strips(s: Seq<char>)
    requires
        s.len() > 0,
        s[0] == '{',
        s[s.len() - 1] == '}',
    ensures
        trim(strip_fence(trim(fenced(s)))) == s,
{
    reveal_strlit("```json\n");
    reveal_strlit("```json");
    reveal_strlit("\n```");
    reveal_strlit("```");
    let w = fenced(s);
    let sl = s.len() as int;
    assert(w.len() == sl + 12);
    assert(w[0] == '`');
    assert(w[w.len() - 1] == '`');
    lemma_trim_fixed(w);

    assert(match_at(w, 0, "```json"@)) by {
        assert(w.subrange(0, 7) =~= "```json"@);
    }
    let t = w.skip(7);
    assert(t.len() == sl + 5);
    assert(match_at(t, t.len() - 3, "```"@)) by {
        assert(t.subrange(t.len() - 3, t.len() as int) =~= "```"@);
    }
    let u = t.take(t.len() - 3);
    assert(strip_fence(w) == u);
    assert(u.len() == sl + 2);
    assert(u[0] == '\n');
    assert(u[1] == s[0]);
    assert(u[u.len() - 1] == '\n');
    assert(u[u.len() - 2] == s[sl - 1]);

    assert(skip_outer_ws(u, 1) == 1);
    assert(skip_outer_ws(u, 0) == 1);
    assert(trim_end_idx(u, u.len() - 1) == u.len() - 1);
    assert(trim_end_idx(u, u.len() as int) == u.len() - 1);
    assert(trim(u) == u.subrange(1, sl + 1));
    assert(u.subrange(1, sl + 1) =~= s);
}

/// A schema-conforming reply decodes the same with or without a wrapping
/// code fence: for any trimmed text that reads as a schema object, the
/// parsing pipeline yields exactly that object's fields, for the bare text
/// and for the fenced text alike.
pub proof fn lemma_fence_invariance(s: Seq<char>)
    requires
        trim(s) == s,
        object_at(s) is Some,
    ensures
        pipeline(s) == object_at(s),
        pipeline(fenced(s)) == object_at(s),
{
    lemma_object_at_braces(s);
    lemma_no_fence(s);
    assert(pipeline(s) == object_at(s));
    lemma_fenced_strips(s);
    assert(pipeline(fenced(s)) == object_at(s));
}

/// How a character is written inside a rendered JSON string: the escapes
/// that [`unescape`] undoes, every other character as itself.
pub open spec fn esc_char(c: char) -> Seq<char> {
    if c == '"' {
        seq!['\\', '"']
    } else if c == '\\' {
        seq!['\\', '\\']
    } else if c == '\n' {
        seq!['\\', 'n']
    } else if c == '\t' {
        seq!['\\', 't']
    } else if c == '\r' {
        seq!['\\', 'r']
    } else if c == '\u{0008}' {
        seq!['\\', 'b']
    } else if c == '\u{000C}' {
        seq!['\\', 'f']
    } else {
        seq![c]
    }
}

/// A text written as the body of a rendered JSON string.
pub open spec fn esc_text(e: Seq<char>) -> Seq<char>
    decreases e.len(),
{
    if e.len() == 0 {
        Seq::empty()
    } else {
        esc_char(e[0]) + esc_text(e.drop_first())
    }
}

/// A character a rendered string can carry: printable, or one of the five
/// control characters that have a one-letter escape.
pub open spec fn renderable_char(c: char) -> bool {
    c as u32 >= 32 || c == '\n' || c == '\t' || c == '\r' || c == '\u{0008}' || c == '\u{000C}'
}

/// A character that is written as itself, unescaped.
pub open spec fn plain_char(c: char) -> bool {
    c != '"' && c != '\\' && c as u32 >= 32
}

/// A record the canonical rendering can carry: every character of the
/// explanation is renderable and the count fits the wire's integer.
pub open spec fn renderable(v: ResultView) -> bool {
    &&& forall|k: int| 0 <= k < v.error.len() ==> renderable_char(#[trigger] v.error[k])
    &&& -0x8000_0000 <= v.count <= 0x7fff_ffff
}

/// The decimal digit `d` as a character.
pub open spec fn digit_char(d: int) -> char {
    if d == 0 {
        '0'
    } else if d == 1 {
        '1'
    } else if d == 2 {
        '2'
    } else if d == 3 {
        '3'
    } else if d == 4 {
        '4'
    } else if d == 5 {
        '5'
    } else if d == 6 {
        '6'
    } else if d == 7 {
        '7'
    } else if d == 8 {
        '8'
    } else {
        '9'
    }
}

/// The decimal numeral of a non-negative integer.
pub open spec fn dec_text(n: int) -> Seq<char>
    decreases n,
{
    if n < 10 {
        seq![digit_char(n)]
    } else {
        dec_text(n / 10) + seq![digit_char(n % 10)]
    }
}

/// The wire form of a count value.
pub open spec fn int_text(n: int) -> Seq<char> {
    if n < 0 {
        seq!['-'] + dec_text(-n)
    } else {
        dec_text(n)
    }
}

/// The wire name of a shape.
pub open spec fn shape_text(sh: ShapeKind) -> Seq<char> {
    match sh {
        ShapeKind::NoShape => "None"@,
        ShapeKind::Circle => "Circle"@,
        ShapeKind::Square => "Square"@,
        ShapeKind::Triangle => "Triangle"@,
    }
}

/// The wire form of a boolean.
pub open spec fn bool_text(b: bool) -> Seq<char> {
    if b {
        "true"@
    } else {
        "false"@
    }
}

/// The canonical JSON text of a record: the four fields in schema order, no
/// whitespace, the explanation escaped as [`esc_text`] writes it.
pub open spec fn render(v: ResultView) -> Seq<char> {
    "{\"valid\":"@ + bool_text(v.valid) + ",\"error\":\""@ + esc_text(v.error) + "\",\"shape\":\""@
        + shape_text(v.shape) + "\",\"count\":"@ + int_text(v.count) + "}"@
}

/// A text of plain characters is written as itself.
proof fn lemma_esc_text_plain(e: Seq<char>)
    requires
        forall|k: int| 0 <= k < e.len() ==> plain_char(#[trigger] e[k]),
    ensures
        esc_text(e) == e,
    decreases e.len(),
{
    if e.len() == 0 {
        assert(esc_text(e) =~= e);
    } else {
        let c = e[0];
        assert(plain_char(c));
        assert(esc_char(c) == seq![c]);
        lemma_esc_text_plain(e.drop_first());
        assert(esc_char(c) + e.drop_first() =~= e);
    }
}

/// Reading back a rendered string body: from just after an opening quote,
/// `str_body` decodes exactly the text that was escaped into it and stops
/// just past the closing quote.
proof fn lemma_str_body_render(s: Seq<char>, i: int, e: Seq<char>)
    requires
        0 <= i,
        i + esc_text(e).len() + 1 <= s.len(),
        s.subrange(i, i + esc_text(e).len()) == esc_text(e),
        s[i + esc_text(e).len()] == '"',
        forall|k: int| 0 <= k < e.len() ==> renderable_char(#[trigger] e[k]),
    ensures
        str_body(s, i) == Some((e, i + esc_text(e).len() + 1)),
    decreases e.len(),
{
    if e.len() == 0 {
        assert(esc_text(e).len() == 0);
        assert(s[i] == '"');
        assert(e =~= Seq::<char>::empty());
    } else {
        let c = e[0];
        let rest = e.drop_first();
        let ec = esc_char(c);
        let el = esc_text(e).len() as int;
        let ell = ec.len() as int;
        assert(esc_text(e) == ec + esc_text(rest));
        assert(renderable_char(c));
        assert(forall|k: int| 0 <= k < rest.len() ==> renderable_char(#[trigger] rest[k])) by {
            assert(forall|k: int| 0 <= k < rest.len() ==> rest[k] == e[k + 1]);
        }
        assert(s.subrange(i + ell, i + el) =~= esc_text(rest)) by {
            assert forall|j: int| 0 <= j < el - ell implies s.subrange(i + ell, i + el)[j]
                == esc_text(rest)[j] by {
                assert(s.subrange(i + ell, i + el)[j] == s[i + ell + j]);
                assert(s.subrange(i, i + el)[ell + j] == s[i + ell + j]);
                assert((ec + esc_text(rest))[ell + j] == esc_text(rest)[j]);
            }
        }
        lemma_str_body_render(s, i + ell, rest);
        assert(s[i] == ec[0]) by {
            assert(s.subrange(i, i + el)[0] == s[i]);
            assert((ec + esc_text(rest))[0] == ec[0]);
        }
        assert(seq![c] + rest =~= e);
        if ec.len() == 2 {
            assert(s[i + 1] == ec[1]) by {
                assert(s.subrange(i, i + el)[1] == s[i + 1]);
                assert((ec + esc_text(rest))[1] == ec[1]);
            }
            assert(s[i] == '\\');
            assert(ec[1] != 'u');
            assert(unescape(ec[1]) == Some(c));
            assert(str_body(s, i) == Some((seq![c] + rest, i + el + 1)));
        } else {
            assert(ec == seq![c]);
            assert(s[i] == c);
            assert(c != '"' && c != '\\' && c as u32 >= 32);
            assert(str_body(s, i) == Some((seq![c] + rest, i + el + 1)));
        }
    }
}

/// Everything in a digit run up to its first non-digit is skipped.
proof fn lemma_digits_end_run(s: Seq<char>, i: int, j: int)
    requires
        0 <= i <= j < s.len(),
        forall|t: int| i <= t < j ==> is_digit(#[trigger] s[t]),
        !is_digit(s[j]),
    ensures
        digits_end(s, i) == j,
    decreases j - i,
{
    if i < j {
        lemma_digits_end_run(s, i + 1, j);
    }
}

/// A decimal numeral holds digits only, and starts with zero only for zero.
proof fn lemma_dec_text_props(n: int)
    requires
        n >= 0,
    ensures
        dec_text(n).len() >= 1,
        forall|k: int| 0 <= k < dec_text(n).len() ==> is_digit(#[trigger] dec_text(n)[k]),
        (dec_text(n)[0] == '0') == (n == 0),
    decreases n,
{
    if n >= 10 {
        lemma_dec_text_props(n / 10);
    }
}

/// Reading back a rendered numeral: the digit run's value is the number that
/// was written.
proof fn lemma_digits_val_dec_text(s: Seq<char>, i: int, n: int)
    requires
        n >= 0,
        0 <= i,
        i + dec_text(n).len() <= s.len(),
        s.subrange(i, i + dec_text(n).len()) == dec_text(n),
    ensures
        digits_val(s, i, i + dec_text(n).len()) == n,
    decreases n,
{
    let l = dec_text(n).len() as int;
    if n < 10 {
        assert(s[i] == digit_char(n)) by {
            assert(s.subrange(i, i + l)[0] == s[i]);
            assert(dec_text(n)[0] == digit_char(n));
        }
        assert(digits_val(s, i, i + 1) == digits_val(s, i, i) * 10 + digit_val(s[i]));
        assert(digit_val(digit_char(n)) == n);
    } else {
        let hd = dec_text(n / 10);
        let hl = hd.len() as int;
        assert(dec_text(n) == hd + seq![digit_char(n % 10)]);
        assert(s.subrange(i, i + hl) =~= hd) by {
            assert forall|j: int| 0 <= j < hl implies s.subrange(i, i + hl)[j] == hd[j] by {
                assert(s.subrange(i, i + hl)[j] == s[i + j]);
                assert(s.subrange(i, i + l)[j] == s[i + j]);
                assert((hd + seq![digit_char(n % 10)])[j] == hd[j]);
            }
        }
        lemma_digits_val_dec_text(s, i, n / 10);
        assert(s[i + l - 1] == digit_char(n % 10)) by {
            assert(s.subrange(i, i + l)[l - 1] == s[i + l - 1]);
            assert((hd + seq![digit_char(n % 10)])[l - 1] == digit_char(n % 10));
        }
        assert(digit_val(digit_char(n % 10)) == n % 10);
        assert(digits_val(s, i, i + l) == digits_val(s, i, i + l - 1) * 10 + digit_val(
            s[i + l - 1],
        ));
        assert(n / 10 * 10 + n % 10 == n);
    }
}

/// Reading back a rendered count: `count_at` yields the number that was
/// written and stops at the first character after it.
proof fn lemma_count_at_render(s: Seq<char>, i: int, n: int)
    requires
        0 <= i,
        i + int_text(n).len() < s.len(),
        s.subrange(i, i + int_text(n).len()) == int_text(n),
        !is_digit(s[i + int_text(n).len()]),
        -0x8000_0000 <= n <= 0x7fff_ffff,
    ensures
        count_at(s, i) == Some((n, i + int_text(n).len())),
{
    let l = int_text(n).len() as int;
    if n >= 0 {
        lemma_dec_text_props(n);
        assert(s[i] == dec_text(n)[0]) by {
            assert(s.subrange(i, i + l)[0] == s[i]);
        }
        assert(is_digit(s[i]));
        assert(s[i] != '-');
        assert forall|t: int| i <= t < i + l implies is_digit(s[t]) by {
            assert(s.subrange(i, i + l)[t - i] == s[t]);
            assert(is_digit(dec_text(n)[t - i]));
        }
        lemma_digits_end_run(s, i, i + l);
        if s[i] == '0' {
            assert(n == 0);
            assert(l == 1);
        }
        lemma_digits_val_dec_text(s, i, n);
    } else {
        let m = -n;
        lemma_dec_text_props(m);
        let dl = dec_text(m).len() as int;
        assert(int_text(n) == seq!['-'] + dec_text(m));
        assert(s[i] == '-') by {
            assert(s.subrange(i, i + l)[0] == s[i]);
            assert((seq!['-'] + dec_text(m))[0] == '-');
        }
        assert(s.subrange(i + 1, i + l) =~= dec_text(m)) by {
            assert forall|j: int| 0 <= j < dl implies s.subrange(i + 1, i + l)[j] == dec_text(
                m,
            )[j] by {
                assert(s.subrange(i + 1, i + l)[j] == s[i + 1 + j]);
                assert(s.subrange(i, i + l)[1 + j] == s[i + 1 + j]);
                assert((seq!['-'] + dec_text(m))[1 + j] == dec_text(m)[j]);
            }
        }
        assert(s[i + 1] == dec_text(m)[0]) by {
            assert(s.subrange(i + 1, i + l)[0] == s[i + 1]);
        }
        assert(is_digit(s[i + 1]));
        assert forall|t: int| i + 1 <= t < i + l implies is_digit(s[t]) by {
            assert(s.subrange(i + 1, i + l)[t - i - 1] == s[t]);
            assert(is_digit(dec_text(m)[t - i - 1]));
        }
        lemma_digits_end_run(s, i + 1, i + l);
        if s[i + 1] == '0' {
            assert(m == 0);
            assert(false);
        }
        lemma_digits_val_dec_text(s, i + 1, m);
    }
}

proof fn lemma_prefix_subrange(x: Seq<char>, y: Seq<char>, a: int, b: int)
    requires
        0 <= a <= b <= x.len(),
    ensures
        (x + y).subrange(a, b) == x.subrange(a, b),
{
    assert((x + y).subrange(a, b) =~= x.subrange(a, b));
}

proof fn lemma_concat_piece(x: Seq<char>, y: Seq<char>)
    ensures
        (x + y).subrange(x.len() as int, (x.len() + y.len()) as int) == y,
{
    assert((x + y).subrange(x.len() as int, (x.len() + y.len()) as int) =~= y);
}

proof fn lemma_subrange_index(s: Seq<char>, a: int, b: int, k: int)
    requires
        0 <= a <= b <= s.len(),
        0 <= k < b - a,
    ensures
        s.subrange(a, b)[k] == s[a + k],
{
}

/// The wire name of each shape is plain text and reads back as that shape.
proof fn lemma_shape_text_props(sh: ShapeKind)
    ensures
        forall|k: int|
            0 <= k < shape_text(sh).len() ==> plain_char(#[trigger] shape_text(sh)[k])
                && renderable_char(shape_text(sh)[k]),
        esc_text(shape_text(sh)) == shape_text(sh),
        shape_of_name(shape_text(sh)) == Some(sh),
{
    reveal_strlit("None");
    reveal_strlit("Circle");
    reveal_strlit("Square");
    reveal_strlit("Triangle");
    assert(forall|k: int|
        0 <= k < shape_text(sh).len() ==> plain_char(#[trigger] shape_text(sh)[k]));
    lemma_esc_text_plain(shape_text(sh));
    match sh {
        ShapeKind::NoShape => {},
        ShapeKind::Circle => {
            assert("Circle"@ != "None"@);
        },
        ShapeKind::Square => {
            assert("Square"@ != "None"@);
            assert("Square"@[0] != "Circle"@[0]);
        },
        ShapeKind::Triangle => {
            assert("Triangle"@ != "None"@);
            assert("Triangle"@ != "Circle"@);
            assert("Triangle"@ != "Square"@);
        },
    }
}

/// One rendered `"valid"` member, read off the established token facts.
proof fn lemma_member_valid(s: Seq<char>, i: int, p: PartialView, j: int, b: bool, e: int)
    requires
        skip_ws(s, i) == i,
        str_at(s, i) == Some(("valid"@, j)),
        skip_ws(s, j) == j,
        0 <= j < s.len(),
        s[j] == ':',
        skip_ws(s, j + 1) == j + 1,
        bool_at(s, j + 1) == Some((b, e)),
        p.valid is None,
    ensures
        member(s, i, p) == Some((PartialView { valid: Some(b), ..p }, e)),
{
}

/// One rendered `"error"` member, read off the established token facts.
proof fn lemma_member_error(s: Seq<char>, i: int, p: PartialView, j: int, text: Seq<char>, e: int)
    requires
        skip_ws(s, i) == i,
        str_at(s, i) == Some(("error"@, j)),
        skip_ws(s, j) == j,
        0 <= j < s.len(),
        s[j] == ':',
        skip_ws(s, j + 1) == j + 1,
        str_at(s, j + 1) == Some((text, e)),
        p.error is None,
    ensures
        member(s, i, p) == Some((PartialView { error: Some(text), ..p }, e)),
{
    reveal_strlit("valid");
    reveal_strlit("error");
    assert("error"@ != "valid"@) by {
        assert("error"@[0] == 'e' && "valid"@[0] == 'v');
    }
}

/// One rendered `"shape"` member, read off the established token facts.
proof fn lemma_member_shape(s: Seq<char>, i: int, p: PartialView, j: int, sh: ShapeKind, e: int)
    requires
        skip_ws(s, i) == i,
        str_at(s, i) == Some(("shape"@, j)),
        skip_ws(s, j) == j,
        0 <= j < s.len(),
        s[j] == ':',
        skip_ws(s, j + 1) == j + 1,
        str_at(s, j + 1) == Some((shape_text(sh), e)),
        p.shape is None,
    ensures
        member(s, i, p) == Some((PartialView { shape: Some(sh), ..p }, e)),
{
    reveal_strlit("valid");
    reveal_strlit("error");
    reveal_strlit("shape");
    assert("shape"@ != "valid"@) by {
        assert("shape"@[0] == 's' && "valid"@[0] == 'v');
    }
    assert("shape"@ != "error"@) by {
        assert("shape"@[0] == 's' && "error"@[0] == 'e');
    }
    lemma_shape_text_props(sh);
}

/// One rendered `"count"` member, read off the established token facts.
proof fn lemma_member_count(s: Seq<char>, i: int, p: PartialView, j: int, n: int, e: int)
    requires
        skip_ws(s, i) == i,
        str_at(s, i) == Some(("count"@, j)),
        skip_ws(s, j) == j,
        0 <= j < s.len(),
        s[j] == ':',
        skip_ws(s, j + 1) == j + 1,
        count_at(s, j + 1) == Some((n, e)),
        p.count is None,
    ensures
        member(s, i, p) == Some((PartialView { count: Some(n), ..p }, e)),
{
    reveal_strlit("valid");
    reveal_strlit("error");
    reveal_strlit("shape");
    reveal_strlit("count");
    assert("count"@ != "valid"@) by {
        assert("count"@[0] == 'c' && "valid"@[0] == 'v');
    }
    assert("count"@ != "error"@) by {
        assert("count"@[0] == 'c' && "error"@[0] == 'e');
    }
    assert("count"@ != "shape"@) by {
        assert("count"@[0] == 'c' && "shape"@[0] == 's');
    }
}

/// Reading back a rendered record: the canonical text is a schema object
/// holding exactly the record's fields.
#[verifier::rlimit(100)]
proof fn lemma_render_object(v: ResultView)
    requires
        renderable(v),
    ensures
        object_at(render(v)) == Some(v),
        render(v).len() > 0,
        !is_outer_ws(render(v)[0]),
        !is_outer_ws(render(v)[render(v).len() - 1]),
{
    reveal_strlit("{\"valid\":");
    reveal_strlit(",\"error\":\"");
    reveal_strlit("\",\"shape\":\"");
    reveal_strlit("\",\"count\":");
    reveal_strlit("}");
    reveal_strlit("valid");
    reveal_strlit("error");
    reveal_strlit("shape");
    reveal_strlit("count");
    reveal_strlit("true");
    reveal_strlit("false");

    let a1 = "{\"valid\":"@;
    let b = bool_text(v.valid);
    let a2 = ",\"error\":\""@;
    let e = esc_text(v.error);
    let a3 = "\",\"shape\":\""@;
    let sh = shape_text(v.shape);
    let a4 = "\",\"count\":"@;
    let nt = int_text(v.count);
    let a5 = "}"@;
    let w1 = a1 + b;
    let w2 = w1 + a2;
    let w3 = w2 + e;
    let w4 = w3 + a3;
    let w5 = w4 + sh;
    let w6 = w5 + a4;
    let w7 = w6 + nt;
    let w = w7 + a5;
    assert(w == render(v));

    let bl = b.len() as int;
    assert(if v.valid {
        bl == 4
    } else {
        bl == 5
    });
    let el = e.len() as int;
    lemma_shape_text_props(v.shape);
    let sl = sh.len() as int;
    let nl = nt.len() as int;
    if v.count >= 0 {
        lemma_dec_text_props(v.count);
    } else {
        lemma_dec_text_props(-v.count);
    }
    assert(nl >= 1);
    let o2 = 9 + bl;
    let oe = o2 + 10;
    let o3 = oe + el;
    let osh = o3 + 11;
    let o4 = osh + sl;
    let on = o4 + 10;
    let o5 = on + nl;
    let ln = o5 + 1;
    assert(w.len() == ln);

    // Where each piece of the rendered text stands.
    assert(w.subrange(0, 9) == a1) by {
        lemma_prefix_subrange(a1, b, 0, 9);
        assert(a1.subrange(0, 9) =~= a1);
        lemma_prefix_subrange(w1, a2, 0, 9);
        lemma_prefix_subrange(w2, e, 0, 9);
        lemma_prefix_subrange(w3, a3, 0, 9);
        lemma_prefix_subrange(w4, sh, 0, 9);
        lemma_prefix_subrange(w5, a4, 0, 9);
        lemma_prefix_subrange(w6, nt, 0, 9);
        lemma_prefix_subrange(w7, a5, 0, 9);
    }
    assert(w.subrange(9, o2) == b) by {
        lemma_concat_piece(a1, b);
        lemma_prefix_subrange(w1, a2, 9, o2);
        lemma_prefix_subrange(w2, e, 9, o2);
        lemma_prefix_subrange(w3, a3, 9, o2);
        lemma_prefix_subrange(w4, sh, 9, o2);
        lemma_prefix_subrange(w5, a4, 9, o2);
        lemma_prefix_subrange(w6, nt, 9, o2);
        lemma_prefix_subrange(w7, a5, 9, o2);
    }
    assert(w.subrange(o2, oe) == a2) by {
        lemma_concat_piece(w1, a2);
        lemma_prefix_subrange(w2, e, o2, oe);
        lemma_prefix_subrange(w3, a3, o2, oe);
        lemma_prefix_subrange(w4, sh, o2, oe);
        lemma_prefix_subrange(w5, a4, o2, oe);
        lemma_prefix_subrange(w6, nt, o2, oe);
        lemma_prefix_subrange(w7, a5, o2, oe);
    }
    assert(w.subrange(oe, o3) == e) by {
        lemma_concat_piece(w2, e);
        lemma_prefix_subrange(w3, a3, oe, o3);
        lemma_prefix_subrange(w4, sh, oe, o3);
        lemma_prefix_subrange(w5, a4, oe, o3);
        lemma_prefix_subrange(w6, nt, oe, o3);
        lemma_prefix_subrange(w7, a5, oe, o3);
    }
    assert(w.subrange(o3, osh) == a3) by {
        lemma_concat_piece(w3, a3);
        lemma_prefix_subrange(w4, sh, o3, osh);
        lemma_prefix_subrange(w5, a4, o3, osh);
        lemma_prefix_subrange(w6, nt, o3, osh);
        lemma_prefix_subrange(w7, a5, o3, osh);
    }
    assert(w.subrange(osh, o4) == sh) by {
        lemma_concat_piece(w4, sh);
        lemma_prefix_subrange(w5, a4, osh, o4);
        lemma_prefix_subrange(w6, nt, osh, o4);
        lemma_prefix_subrange(w7, a5, osh, o4);
    }
    assert(w.subrange(o4, on) == a4) by {
        lemma_concat_piece(w5, a4);
        lemma_prefix_subrange(w6, nt, o4, on);
        lemma_prefix_subrange(w7, a5, o4, on);
    }
    assert(w.subrange(on, o5) == nt) by {
        lemma_concat_piece(w6, nt);
        lemma_prefix_subrange(w7, a5, on, o5);
    }
    assert(w.subrange(o5, ln) == a5) by {
        lemma_concat_piece(w7, a5);
    }

    // The punctuation characters the object grammar looks at.
    assert(w[0] == '{') by {
        lemma_subrange_index(w, 0, 9, 0);
    }
    assert(w[1] == '"') by {
        lemma_subrange_index(w, 0, 9, 1);
    }
    assert(w[7] == '"') by {
        lemma_subrange_index(w, 0, 9, 7);
    }
    assert(w[8] == ':') by {
        lemma_subrange_index(w, 0, 9, 8);
    }
    assert(w[9] == b[0]) by {
        lemma_subrange_index(w, 9, o2, 0);
    }
    assert(w[o2] == ',' && w[o2 + 1] == '"' && w[o2 + 7] == '"' && w[o2 + 8] == ':' && w[o2 + 9]
        == '"') by {
        lemma_subrange_index(w, o2, oe, 0);
        lemma_subrange_index(w, o2, oe, 1);
        lemma_subrange_index(w, o2, oe, 7);
        lemma_subrange_index(w, o2, oe, 8);
        lemma_subrange_index(w, o2, oe, 9);
    }
    assert(w[o3] == '"' && w[o3 + 1] == ',' && w[o3 + 2] == '"' && w[o3 + 8] == '"' && w[o3 + 9]
        == ':' && w[o3 + 10] == '"') by {
        lemma_subrange_index(w, o3, osh, 0);
        lemma_subrange_index(w, o3, osh, 1);
        lemma_subrange_index(w, o3, osh, 2);
        lemma_subrange_index(w, o3, osh, 8);
        lemma_subrange_index(w, o3, osh, 9);
        lemma_subrange_index(w, o3, osh, 10);
    }
    assert(w[o4] == '"' && w[o4 + 1] == ',' && w[o4 + 2] == '"' && w[o4 + 8] == '"' && w[o4 + 9]
        == ':') by {
        lemma_subrange_index(w, o4, on, 0);
        lemma_subrange_index(w, o4, on, 1);
        lemma_subrange_index(w, o4, on, 2);
        lemma_subrange_index(w, o4, on, 8);
        lemma_subrange_index(w, o4, on, 9);
    }
    assert(w[on] == nt[0]) by {
        lemma_subrange_index(w, on, o5, 0);
    }
    assert(!is_ws(w[on]) && w[on] != '{') by {
        if v.count >= 0 {
            assert(is_digit(nt[0]));
        } else {
            assert((seq!['-'] + dec_text(-v.count))[0] == '-');
        }
    }
    assert(w[o5] == '}') by {
        lemma_subrange_index(w, o5, ln, 0);
    }

    // The first member: "valid".
    assert(forall|k: int| 0 <= k < 5 ==> plain_char(#[trigger] "valid"@[k]));
    lemma_esc_text_plain("valid"@);
    assert(w.subrange(2, 7) =~= "valid"@) by {
        assert forall|j: int| 0 <= j < 5 implies w.subrange(2, 7)[j] == "valid"@[j] by {
            lemma_subrange_index(w, 2, 7, j);
            lemma_subrange_index(w, 0, 9, 2 + j);
        }
    }
    lemma_str_body_render(w, 2, "valid"@);
    assert(skip_ws(w, 1) == 1);
    assert(skip_ws(w, 8) == 8);
    assert(skip_ws(w, 9) == 9) by {
        if v.valid {
            assert(b[0] == 't');
        } else {
            assert(b[0] == 'f');
        }
    }
    assert(bool_at(w, 9) == Some((v.valid, o2))) by {
        if v.valid {
            assert(match_at(w, 9, "true"@));
        } else {
            if match_at(w, 9, "true"@) {
                lemma_subrange_index(w, 9, 13, 0);
                assert(false);
            }
            assert(match_at(w, 9, "false"@));
        }
    }
    assert(str_at(w, 1) == Some(("valid"@, 8int)));
    lemma_member_valid(w, 1, empty_partial(), 8int, v.valid, o2);

    // The second member: "error".
    assert(forall|k: int| 0 <= k < 5 ==> plain_char(#[trigger] "error"@[k]));
    lemma_esc_text_plain("error"@);
    assert(w.subrange(o2 + 2, o2 + 7) =~= "error"@) by {
        assert forall|j: int| 0 <= j < 5 implies w.subrange(o2 + 2, o2 + 7)[j] == "error"@[j] by {
            lemma_subrange_index(w, o2 + 2, o2 + 7, j);
            lemma_subrange_index(w, o2, oe, 2 + j);
        }
    }
    lemma_str_body_render(w, o2 + 2, "error"@);
    lemma_str_body_render(w, oe, v.error);
    assert(skip_ws(w, o2) == o2);
    assert(skip_ws(w, o2 + 1) == o2 + 1);
    assert(skip_ws(w, o2 + 8) == o2 + 8);
    assert(skip_ws(w, o2 + 9) == o2 + 9);
    let p1 = PartialView {
        valid: Some(v.valid),
        error: None,
        shape: None,
        count: None,
    };
    let p2 = PartialView { error: Some(v.error), ..p1 };
    assert(str_at(w, o2 + 1) == Some(("error"@, o2 + 8)));
    assert(str_at(w, o2 + 9) == Some((v.error, o3 + 1)));
    lemma_member_error(w, o2 + 1, p1, o2 + 8, v.error, o3 + 1);
    assert(comma_member(w, o2, p1) == Some((p2, o3 + 1)));

    // The third member: "shape".
    assert(forall|k: int| 0 <= k < 5 ==> plain_char(#[trigger] "shape"@[k]));
    lemma_esc_text_plain("shape"@);
    assert(w.subrange(o3 + 3, o3 + 8) =~= "shape"@) by {
        assert forall|j: int| 0 <= j < 5 implies w.subrange(o3 + 3, o3 + 8)[j] == "shape"@[j] by {
            lemma_subrange_index(w, o3 + 3, o3 + 8, j);
            lemma_subrange_index(w, o3, osh, 3 + j);
        }
    }
    lemma_str_body_render(w, o3 + 3, "shape"@);
    lemma_str_body_render(w, osh, sh);
    assert(skip_ws(w, o3 + 1) == o3 + 1);
    assert(skip_ws(w, o3 + 2) == o3 + 2);
    assert(skip_ws(w, o3 + 9) == o3 + 9);
    assert(skip_ws(w, o3 + 10) == o3 + 10);
    let p3 = PartialView { shape: Some(v.shape), ..p2 };
    assert(str_at(w, o3 + 2) == Some(("shape"@, o3 + 9)));
    assert(str_at(w, o3 + 10) == Some((shape_text(v.shape), o4 + 1)));
    lemma_member_shape(w, o3 + 2, p2, o3 + 9, v.shape, o4 + 1);
    assert(comma_member(w, o3 + 1, p2) == Some((p3, o4 + 1)));

    // The fourth member: "count".
    assert(forall|k: int| 0 <= k < 5 ==> plain_char(#[trigger] "count"@[k]));
    lemma_esc_text_plain("count"@);
    assert(w.subrange(o4 + 3, o4 + 8) =~= "count"@) by {
        assert forall|j: int| 0 <= j < 5 implies w.subrange(o4 + 3, o4 + 8)[j] == "count"@[j] by {
            lemma_subrange_index(w, o4 + 3, o4 + 8, j);
            lemma_subrange_index(w, o4, on, 3 + j);
        }
    }
    lemma_str_body_render(w, o4 + 3, "count"@);
    assert(skip_ws(w, o4 + 1) == o4 + 1);
    assert(skip_ws(w, o4 + 2) == o4 + 2);
    assert(skip_ws(w, o4 + 9) == o4 + 9);
    assert(skip_ws(w, on) == on);
    assert(!is_digit(w[o5]));
    lemma_count_at_render(w, on, v.count);
    let p4 = PartialView { count: Some(v.count), ..p3 };
    assert(str_at(w, o4 + 2) == Some(("count"@, o4 + 9)));
    lemma_member_count(w, o4 + 2, p3, o4 + 9, v.count, o5);
    assert(comma_member(w, o4 + 1, p3) == Some((p4, o5)));

    // The closing brace and the end of the text.
    assert(skip_ws(w, 0) == 0);
    assert(skip_ws(w, o5) == o5);
    assert(skip_ws(w, ln) == ln);
    assert(assemble(p4) == Some(v)) by {
        assert(ResultView { valid: v.valid, error: v.error, shape: v.shape, count: v.count } =~= v);
    }
    assert(object_at(w) == Some(v));
    assert(!is_outer_ws(w[0]));
    assert(!is_outer_ws(w[ln - 1]));
}

/// Rendering and parsing are inverse: the canonical JSON text of any
/// renderable record — bare, or wrapped in a code fence — parses back to
/// exactly that record.
pub proof fn lemma_render_round_trip(v: ResultView)
    requires
        renderable(v),
    ensures
        object_at(render(v)) == Some(v),
        pipeline(render(v)) == Some(v),
        pipeline(fenced(render(v))) == Some(v),
{
    lemma_render_object(v);
    lemma_trim_fixed(render(v));
    lemma_fence_invariance(render(v));
}

/// An empty reply and a whitespace-only reply are decode failures: the
/// pipeline accepts neither, and the parser turns them into `Decode` errors
/// rather than panicking.
pub proof fn lemma_blank_reply_rejected()
    ensures
        pipeline(""@) is None,
        pipeline("   "@) is None,
{
    reveal_strlit("");
    reveal_strlit("   ");
    reveal_strlit("```json");
    reveal_strlit("```");
    let e = ""@;
    assert(e.len() == 0);
    assert(skip_outer_ws(e, 0) == 0);
    assert(skip_ws(e, 0) == 0);
    assert(trim_end_idx(e, 0) == 0);
    assert(trim(e) =~= e);
    assert(strip_fence(e) == e);
    assert(object_at(e) is None);
    assert(pipeline(e) is None);

    let b = "   "@;
    assert(b.len() == 3);
    assert(is_outer_ws(b[0]) && is_outer_ws(b[1]) && is_outer_ws(b[2]));
    assert(skip_outer_ws(b, 3) == 3);
    assert(skip_outer_ws(b, 2) == 3);
    assert(skip_outer_ws(b, 1) == 3);
    assert(skip_outer_ws(b, 0) == 3);
    assert(trim_end_idx(b, 0) == 0);
    assert(trim_end_idx(b, 1) == 0);
    assert(trim_end_idx(b, 2) == 0);
    assert(trim_end_idx(b, 3) == 0);
    assert(trim(b) =~= e);
    assert(pipeline(b) is None);
}

} // verus!
