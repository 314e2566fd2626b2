use qa_server::query::{accept, check_content_length, Incoming, RequestError, MAX_BODY_BYTES};

fn some(s: &str) -> Option<String> {
    Some(s.to_string())
}

#[test]
fn query_with_both_fields_is_accepted() {
    let q = accept(Incoming::Query { question: some("Where does Amy live ?"), context: some("Amy lives in Amsterdam") }).unwrap();
    assert_eq!(q.question, "Where does Amy live ?");
    assert_eq!(q.context, "Amy lives in Amsterdam");
}

#[test]
fn missing_context_is_refused() {
    let r = accept(Incoming::Query { question: some("Where does Amy live ?"), context: None });
    assert_eq!(r.err(), Some(RequestError::MissingField));
}

#[test]
fn missing_question_is_refused() {
    let r = accept(Incoming::Body { declared_len: Some(10), question: None, context: some("c") });
    assert_eq!(r.err(), Some(RequestError::MissingField));
}

#[test]
fn empty_fields_are_refused() {
    let r = accept(Incoming::Query { question: some(""), context: some("c") });
    assert_eq!(r.err(), Some(RequestError::EmptyField));
    let r = accept(Incoming::Query { question: some("q"), context: some("") });
    assert_eq!(r.err(), Some(RequestError::EmptyField));
}

#[test]
fn unreadable_request_is_refused() {
    assert_eq!(accept(Incoming::Unreadable).err(), Some(RequestError::Unreadable));
}

#[test]
fn body_length_ceiling() {
    assert_eq!(MAX_BODY_BYTES, 16384);
    assert_eq!(check_content_length(Some(0)), Ok(()));
    assert_eq!(check_content_length(Some(16384)), Ok(()));
    assert_eq!(check_content_length(Some(16385)), Err(RequestError::PayloadTooLarge));
    assert_eq!(check_content_length(None), Err(RequestError::LengthRequired));
}

#[test]
fn oversized_body_is_refused_before_its_fields() {
    let r = accept(Incoming::Body { declared_len: Some(16385), question: some("q"), context: some("c") });
    assert_eq!(r.err(), Some(RequestError::PayloadTooLarge));
    let r = accept(Incoming::Body { declared_len: None, question: None, context: None });
    assert_eq!(r.err(), Some(RequestError::LengthRequired));
    let q = accept(Incoming::Body { declared_len: Some(16384), question: some("q"), context: some("c") }).unwrap();
    assert_eq!(q.question, "q");
}

#[test]
fn error_statuses_and_messages() {
    assert_eq!(RequestError::MissingField.status(), 400);
    assert_eq!(RequestError::EmptyField.status(), 400);
    assert_eq!(RequestError::Unreadable.status(), 400);
    assert_eq!(RequestError::LengthRequired.status(), 411);
    assert_eq!(RequestError::PayloadTooLarge.status(), 413);
    assert_eq!(RequestError::InferenceFailure.status(), 500);
    assert_eq!(RequestError::PayloadTooLarge.message(), "payload too large");
    assert_eq!(RequestError::InferenceFailure.message(), "inference failed");
}
