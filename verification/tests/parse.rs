use llm_arena::error::ClassificationError;
use llm_arena::parser::parse;
use llm_arena::schema::ShapeKind;

fn expect_decode(raw: &str) {
    match parse(raw) {
        Ok(_) => panic!("expected a decode failure for {:?}", raw),
        Err(ClassificationError::Decode { raw_text }) => assert_eq!(raw_text, raw),
        Err(ClassificationError::Request) => panic!("parse never yields a request error"),
    }
}

#[test]
fn fenced_reply_decodes() {
    let raw = "```json\n{\"valid\":true,\"error\":\"\",\"shape\":\"Circle\",\"count\":3}\n```";
    let r = parse(raw).unwrap();
    assert_eq!(r.valid, true);
    assert_eq!(r.error, "");
    assert_eq!(r.shape, ShapeKind::Circle);
    assert_eq!(r.count, 3);
}

#[test]
fn bare_reply_decodes() {
    let raw = "{\"valid\":false,\"error\":\"not a shape\",\"shape\":\"None\",\"count\":0}";
    let r = parse(raw).unwrap();
    assert_eq!(r.valid, false);
    assert_eq!(r.error, "not a shape");
    assert_eq!(r.shape, ShapeKind::NoShape);
    assert_eq!(r.count, 0);
}

#[test]
fn refusal_text_is_decode_error() {
    expect_decode("I cannot help with that.");
}

#[test]
fn empty_reply_is_decode_error() {
    expect_decode("");
}

#[test]
fn blank_reply_is_decode_error() {
    expect_decode("   ");
}

#[test]
fn untagged_fence_decodes() {
    let raw = "```\n{\"valid\":true,\"error\":\"\",\"shape\":\"Square\",\"count\":1}\n```";
    let r = parse(raw).unwrap();
    assert_eq!(r.shape, ShapeKind::Square);
    assert_eq!(r.count, 1);
}

#[test]
fn fence_with_outer_whitespace_decodes() {
    let raw = "  \n```json\n{\"valid\":true,\"error\":\"\",\"shape\":\"Triangle\",\"count\":7}\n```\n  ";
    let r = parse(raw).unwrap();
    assert_eq!(r.shape, ShapeKind::Triangle);
    assert_eq!(r.count, 7);
}

#[test]
fn field_order_is_free() {
    let raw = "{\"count\":2,\"shape\":\"Circle\",\"valid\":true,\"error\":\"\"}";
    let r = parse(raw).unwrap();
    assert_eq!(r.valid, true);
    assert_eq!(r.shape, ShapeKind::Circle);
    assert_eq!(r.count, 2);
}

#[test]
fn whitespace_between_tokens_is_free() {
    let raw = "{ \"valid\" : true ,\n  \"error\" : \"\" ,\n  \"shape\" : \"Circle\" ,\n  \"count\" : 3 }";
    let r = parse(raw).unwrap();
    assert_eq!(r.shape, ShapeKind::Circle);
    assert_eq!(r.count, 3);
}

#[test]
fn negative_and_zero_counts_decode() {
    let r = parse("{\"valid\":true,\"error\":\"\",\"shape\":\"Circle\",\"count\":-5}").unwrap();
    assert_eq!(r.count, -5);
    let r = parse("{\"valid\":true,\"error\":\"\",\"shape\":\"Circle\",\"count\":-0}").unwrap();
    assert_eq!(r.count, 0);
}

#[test]
fn count_extremes_decode() {
    let r = parse("{\"valid\":true,\"error\":\"\",\"shape\":\"Circle\",\"count\":2147483647}")
        .unwrap();
    assert_eq!(r.count, 2147483647);
    let r = parse("{\"valid\":true,\"error\":\"\",\"shape\":\"Circle\",\"count\":-2147483648}")
        .unwrap();
    assert_eq!(r.count, -2147483648);
}

#[test]
fn count_out_of_range_is_decode_error() {
    expect_decode("{\"valid\":true,\"error\":\"\",\"shape\":\"Circle\",\"count\":2147483648}");
    expect_decode("{\"valid\":true,\"error\":\"\",\"shape\":\"Circle\",\"count\":-2147483649}");
    expect_decode("{\"valid\":true,\"error\":\"\",\"shape\":\"Circle\",\"count\":99999999999999999999}");
}

#[test]
fn leading_zero_count_is_decode_error() {
    expect_decode("{\"valid\":true,\"error\":\"\",\"shape\":\"Circle\",\"count\":007}");
}

#[test]
fn fractional_count_is_decode_error() {
    expect_decode("{\"valid\":true,\"error\":\"\",\"shape\":\"Circle\",\"count\":3.5}");
}

#[test]
fn missing_field_is_decode_error() {
    expect_decode("{\"valid\":true,\"error\":\"\",\"shape\":\"Circle\"}");
}

#[test]
fn duplicate_field_is_decode_error() {
    expect_decode("{\"valid\":true,\"valid\":false,\"shape\":\"Circle\",\"count\":3}");
}

#[test]
fn unknown_field_is_decode_error() {
    expect_decode(
        "{\"valid\":true,\"error\":\"\",\"shape\":\"Circle\",\"count\":3,\"extra\":1}",
    );
}

#[test]
fn shape_outside_enumeration_is_decode_error() {
    expect_decode("{\"valid\":true,\"error\":\"\",\"shape\":\"Hexagon\",\"count\":3}");
    expect_decode("{\"valid\":true,\"error\":\"\",\"shape\":\"circle\",\"count\":3}");
}

#[test]
fn wrong_value_type_is_decode_error() {
    expect_decode("{\"valid\":\"true\",\"error\":\"\",\"shape\":\"Circle\",\"count\":3}");
    expect_decode("{\"valid\":true,\"error\":\"\",\"shape\":\"Circle\",\"count\":\"3\"}");
    expect_decode("{\"valid\":true,\"error\":0,\"shape\":\"Circle\",\"count\":3}");
}

#[test]
fn escapes_in_error_text_decode() {
    let raw = "{\"valid\":false,\"error\":\"a \\\"quote\\\" and a\\nbreak\",\"shape\":\"None\",\"count\":0}";
    let r = parse(raw).unwrap();
    assert_eq!(r.error, "a \"quote\" and a\nbreak");
}

#[test]
fn unicode_escapes_decode() {
    let r = parse("{\"valid\":false,\"error\":\"\\u0041\",\"shape\":\"None\",\"count\":0}").unwrap();
    assert_eq!(r.error, "A");
    let r = parse("{\"valid\":false,\"error\":\"\\u00e9\\u00C9\",\"shape\":\"None\",\"count\":0}")
        .unwrap();
    assert_eq!(r.error, "\u{e9}\u{c9}");
    let r = parse("{\"valid\":false,\"error\":\"\\u0009\",\"shape\":\"None\",\"count\":0}").unwrap();
    assert_eq!(r.error, "\t");
}

#[test]
fn surrogate_pair_escape_decodes() {
    let r = parse("{\"valid\":false,\"error\":\"\\ud83d\\ude00!\",\"shape\":\"None\",\"count\":0}")
        .unwrap();
    assert_eq!(r.error, "\u{1F600}!");
}

#[test]
fn broken_unicode_escape_is_decode_error() {
    // A lone high surrogate, a lone low surrogate, a bad hex digit, and a
    // truncated escape.
    expect_decode("{\"valid\":false,\"error\":\"\\ud83d\",\"shape\":\"None\",\"count\":0}");
    expect_decode("{\"valid\":false,\"error\":\"\\ude00\",\"shape\":\"None\",\"count\":0}");
    expect_decode("{\"valid\":false,\"error\":\"\\u00g1\",\"shape\":\"None\",\"count\":0}");
    expect_decode("{\"valid\":false,\"error\":\"\\u00\",\"shape\":\"None\",\"count\":0}");
}

#[test]
fn unicode_whitespace_padding_is_trimmed() {
    let raw = "\u{a0}\u{2003}{\"valid\":true,\"error\":\"\",\"shape\":\"Circle\",\"count\":2}\u{3000}";
    let r = parse(raw).unwrap();
    assert_eq!(r.shape, ShapeKind::Circle);
    assert_eq!(r.count, 2);
}

#[test]
fn unicode_whitespace_between_tokens_is_decode_error() {
    // Only the four JSON whitespace characters may stand between tokens.
    expect_decode("{\"valid\":\u{a0}true,\"error\":\"\",\"shape\":\"Circle\",\"count\":2}");
}

#[test]
fn raw_control_character_is_decode_error() {
    expect_decode("{\"valid\":false,\"error\":\"a\tb\",\"shape\":\"None\",\"count\":0}");
}

#[test]
fn unterminated_string_is_decode_error() {
    expect_decode("{\"valid\":false,\"error\":\"oops,\"shape\":\"None\",\"count\":0}");
}

#[test]
fn broken_fence_is_decode_error() {
    expect_decode("```json");
    expect_decode("``json\n{\"valid\":true,\"error\":\"\",\"shape\":\"Circle\",\"count\":3}");
    expect_decode("```json\n{\"valid\":true,\"error\":\"\",\"shape\":\"Circle\",\"count\":3}\n``");
}

#[test]
fn nested_fences_are_not_stripped_twice() {
    expect_decode(
        "```json\n```json\n{\"valid\":true,\"error\":\"\",\"shape\":\"Circle\",\"count\":3}\n```\n```",
    );
}

#[test]
fn every_shape_name_decodes() {
    let cases = [
        ("None", ShapeKind::NoShape),
        ("Circle", ShapeKind::Circle),
        ("Square", ShapeKind::Square),
        ("Triangle", ShapeKind::Triangle),
    ];
    for (name, kind) in cases {
        let raw = format!("{{\"valid\":true,\"error\":\"\",\"shape\":\"{}\",\"count\":1}}", name);
        let r = parse(&raw).unwrap();
        assert_eq!(r.shape, kind);
    }
}
