use qa_server::answer::{take_top_candidate, AnswerResult, Candidate};

fn cand(answer: &str, score: &str) -> Candidate {
    Candidate { answer: answer.to_string(), score: score.to_string() }
}

#[test]
fn amy_answer_renders_exactly() {
    let a = AnswerResult {
        question: "Where does Amy live ?".to_string(),
        context: "Amy lives in Amsterdam".to_string(),
        answer: "Amsterdam".to_string(),
        score: 0.98f64.to_string(),
    };
    assert_eq!(
        a.to_json(),
        "{\"question\":\"Where does Amy live ?\",\"context\":\"Amy lives in Amsterdam\",\"answer\":\"Amsterdam\",\"score\":\"0.98\"}"
    );
}

#[test]
fn strings_are_escaped_in_json() {
    let a = AnswerResult {
        question: "say \"hi\"".to_string(),
        context: "a\\b\nc".to_string(),
        answer: "\u{1}".to_string(),
        score: "1".to_string(),
    };
    assert_eq!(
        a.to_json(),
        "{\"question\":\"say \\\"hi\\\"\",\"context\":\"a\\\\b\\nc\",\"answer\":\"\\u0001\",\"score\":\"1\"}"
    );
}

#[test]
fn rendering_is_repeatable() {
    let a = AnswerResult {
        question: "q".to_string(),
        context: "c".to_string(),
        answer: "x".to_string(),
        score: "0.5".to_string(),
    };
    assert_eq!(a.to_json(), a.to_json());
}

#[test]
fn top_candidate_is_first_of_first() {
    let c = take_top_candidate(vec![vec![cand("a", "0.9"), cand("b", "0.1")], vec![cand("z", "1")]]).unwrap();
    assert_eq!(c.answer, "a");
    assert_eq!(c.score, "0.9");
}

#[test]
fn no_candidate_gives_none() {
    assert!(take_top_candidate(vec![]).is_none());
    assert!(take_top_candidate(vec![vec![]]).is_none());
}

