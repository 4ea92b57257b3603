use llm_arena::client::{classify_reply, outcome_of};
use llm_arena::dispatch::RequestDispatcher;
use llm_arena::error::{ClassificationError, ClassificationOutcome};
use llm_arena::schema::{ClassificationResult, ShapeKind};
use llm_arena::store::ResultStore;

fn success(count: i32) -> ClassificationOutcome {
    ClassificationOutcome::Success(ClassificationResult {
        valid: true,
        error: String::new(),
        shape: ShapeKind::Circle,
        count,
    })
}

#[test]
fn store_starts_empty() {
    let store = ResultStore::new();
    assert!(store.read().is_none());
}

#[test]
fn store_returns_the_written_outcome() {
    let store = ResultStore::new();
    store.write(success(3));
    match store.read() {
        Some(ClassificationOutcome::Success(res)) => {
            assert_eq!(res.shape, ShapeKind::Circle);
            assert_eq!(res.count, 3);
        },
        _ => panic!("the stored success must be read back"),
    }
}

#[test]
fn store_keeps_only_the_last_write() {
    let store = ResultStore::new();
    store.write(success(1));
    store.write(success(2));
    store.write(ClassificationOutcome::Failure(ClassificationError::Request));
    match store.read() {
        Some(ClassificationOutcome::Failure(ClassificationError::Request)) => {},
        _ => panic!("a later failure overwrites an earlier success"),
    }
    store.write(success(9));
    match store.read() {
        Some(ClassificationOutcome::Success(res)) => assert_eq!(res.count, 9),
        _ => panic!("a later success overwrites an earlier failure"),
    }
}

#[test]
fn store_reads_have_no_side_effect() {
    let store = ResultStore::new();
    store.write(success(5));
    for _ in 0..3 {
        match store.read() {
            Some(ClassificationOutcome::Success(res)) => assert_eq!(res.count, 5),
            _ => panic!("polling must not change the stored value"),
        }
    }
}

#[test]
fn dispatcher_starts_idle() {
    let d = RequestDispatcher::new();
    assert!(!d.is_busy());
}

#[test]
fn empty_prompt_is_ignored() {
    let mut d = RequestDispatcher::new();
    assert!(d.try_begin(&String::new()).is_none());
    assert!(!d.is_busy());
}

#[test]
fn trigger_takes_a_prompt_snapshot() {
    let mut d = RequestDispatcher::new();
    let mut prompt = String::from("three circles");
    let req = d.try_begin(&prompt).unwrap();
    assert!(d.is_busy());
    prompt.push_str(" and a square");
    assert_eq!(req.prompt(), "three circles");
}

#[test]
fn trigger_while_busy_is_ignored() {
    let mut d = RequestDispatcher::new();
    let prompt = String::from("one square");
    assert!(d.try_begin(&prompt).is_some());
    assert!(d.try_begin(&prompt).is_none());
    assert!(d.is_busy());
}

#[test]
fn finish_writes_the_store_and_frees_the_dispatcher() {
    let store = ResultStore::new();
    let mut d = RequestDispatcher::new();
    let req = d.try_begin(&String::from("two triangles")).unwrap();
    let reply = "{\"valid\":true,\"error\":\"\",\"shape\":\"Triangle\",\"count\":2}";
    assert!(!req.prompt().is_empty());
    let outcome = outcome_of(classify_reply(Some(reply)));
    d.finish(&store, outcome);
    assert!(!d.is_busy());
    match store.read() {
        Some(ClassificationOutcome::Success(res)) => {
            assert_eq!(res.shape, ShapeKind::Triangle);
            assert_eq!(res.count, 2);
        },
        _ => panic!("the completed attempt must be readable"),
    }
}

#[test]
fn unreachable_endpoint_reports_a_request_failure() {
    let store = ResultStore::new();
    let mut d = RequestDispatcher::new();
    let _req = d.try_begin(&String::from("four circles")).unwrap();
    let outcome = outcome_of(classify_reply(None));
    d.finish(&store, outcome);
    match store.read() {
        Some(ClassificationOutcome::Failure(ClassificationError::Request)) => {},
        _ => panic!("an unreachable endpoint must surface as a request failure"),
    }
    assert!(!d.is_busy());
}
