use llm_arena::client::{classify_reply, instruction, outcome_of};
use llm_arena::error::{ClassificationError, ClassificationOutcome};
use llm_arena::schema::{schema_description, ShapeKind};

#[test]
fn schema_description_is_exact() {
    assert_eq!(
        schema_description(),
        "{ \"valid\": boolean, \"error\": string, \"shape\": \"None\" | \"Circle\" | \"Square\" | \"Triangle\", \"count\": integer }",
    );
}

#[test]
fn schema_description_names_every_field_and_shape() {
    let d = schema_description();
    for needle in ["valid", "error", "shape", "count", "None", "Circle", "Square", "Triangle"] {
        assert!(d.contains(needle), "schema description misses {:?}", needle);
    }
}

#[test]
fn instruction_embeds_the_schema() {
    let i = instruction();
    assert_eq!(
        i,
        format!(
            "You classify the user's description of a shape. Only include the properties field. Respond in formatted json following this schema: {}",
            schema_description(),
        ),
    );
}

#[test]
fn transport_failure_is_request_error() {
    match classify_reply(None) {
        Err(ClassificationError::Request) => {},
        _ => panic!("a missing reply must be a request error"),
    }
}

#[test]
fn received_reply_is_parsed() {
    let r = classify_reply(Some("{\"valid\":true,\"error\":\"\",\"shape\":\"Square\",\"count\":4}"))
        .unwrap();
    assert_eq!(r.shape, ShapeKind::Square);
    assert_eq!(r.count, 4);
}

#[test]
fn unparseable_reply_is_decode_error() {
    match classify_reply(Some("no json here")) {
        Err(ClassificationError::Decode { raw_text }) => assert_eq!(raw_text, "no json here"),
        _ => panic!("an unparseable reply must be a decode error"),
    }
}

#[test]
fn outcomes_tag_successes_and_failures() {
    let ok = classify_reply(Some("{\"valid\":true,\"error\":\"\",\"shape\":\"Circle\",\"count\":1}"));
    match outcome_of(ok) {
        ClassificationOutcome::Success(res) => assert_eq!(res.shape, ShapeKind::Circle),
        ClassificationOutcome::Failure(_) => panic!("a parsed reply is a success"),
    }
    match outcome_of(classify_reply(None)) {
        ClassificationOutcome::Failure(ClassificationError::Request) => {},
        _ => panic!("a transport failure is a failure outcome"),
    }
}
