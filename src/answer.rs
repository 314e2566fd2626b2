//! The engine's candidates and the JSON reply built from the best of them.
use vstd::prelude::*;

verus! {

/// One answer span proposed by the engine, with its score as text.
pub struct Candidate {
    pub answer: String,
    pub score: String,
}

/// What a [`Candidate`] holds, as character sequences.
pub struct CandidateView {
    pub answer: Seq<char>,
    pub score: Seq<char>,
}

impl View for Candidate {
    type V = CandidateView;

    open spec fn view(&self) -> CandidateView {
        CandidateView { answer: self.answer@, score: self.score@ }
    }
}

impl DeepView for Candidate {
    type V = CandidateView;

    open spec fn deep_view(&self) -> CandidateView {
        self@
    }
}

/// The answer to one query: the query echoed, the answer span and its score.
pub struct AnswerResult {
    pub question: String,
    pub context: String,
    pub answer: String,
    pub score: String,
}

/// What an [`AnswerResult`] holds, as character sequences.
pub struct AnswerView {
    pub question: Seq<char>,
    pub context: Seq<char>,
    pub answer: Seq<char>,
    pub score: Seq<char>,
}

impl View for AnswerResult {
    type V = AnswerView;

    open spec fn view(&self) -> AnswerView {
        AnswerView {
            question: self.question@,
            context: self.context@,
            answer: self.answer@,
            score: self.score@,
        }
    }
}

/// The JSON string literal, quotes and escapes included, that `serde_json`
/// writes for a string.
pub uninterp spec fn json_quoted(s: Seq<char>) -> Seq<char>;

/// Relies on `serde_json::to_string` applied to a `str`: it writes the JSON
/// string literal of its argument. It writes into a `Vec`, which cannot fail.
#[verifier::external_body]
fn quote(s: &str) -> (r: String)
    ensures
        r@ == json_quoted(s@),
{
    match serde_json::to_string(s) {
        Ok(t) => t,
        Err(_) => String::new(),
    }
}

/// The JSON object of an answer: its four fields in a fixed order, each as a
/// JSON string, the score included.
pub open spec fn answer_json(a: AnswerView) -> Seq<char> {
    "{\"question\":"@ + json_quoted(a.question) + ",\"context\":"@ + json_quoted(a.context)
        + ",\"answer\":"@ + json_quoted(a.answer) + ",\"score\":"@ + json_quoted(a.score)
        + "}"@
}

/// The candidate an answer is made of: the first one proposed for the first
/// (and only) input, if there is one.
pub open spec fn top_candidate(outputs: Seq<Seq<CandidateView>>) -> Option<CandidateView> {
    if outputs.len() > 0 && outputs[0].len() > 0 {
        Some(outputs[0][0])
    } else {
        None
    }
}

impl AnswerResult {
    /// The JSON text of this answer.
    pub fn to_json(&self) -> (r: String)
        ensures
            r@ == answer_json(self@),
    {
        let mut out = String::from_str("{\"question\":");
        let q = quote(self.question.as_str());
        out.append(q.as_str());
        out.append(",\"context\":");
        let c = quote(self.context.as_str());
        out.append(c.as_str());
        out.append(",\"answer\":");
        let a = quote(self.answer.as_str());
        out.append(a.as_str());
        out.append(",\"score\":");
        let s = quote(self.score.as_str());
        out.append(s.as_str());
        out.append("}");
        out
    }
}

/// Takes the candidate an answer is made of out of the engine's output.
pub fn take_top_candidate(outputs: Vec<Vec<Candidate>>) -> (r: Option<Candidate>)
    ensures
        match (r, top_candidate(outputs.deep_view())) {
            (Some(c), Some(v)) => c@ == v,
            (None, None) => true,
            _ => false,
        },
{
    let mut outputs = outputs;
    if outputs.len() > 0 && outputs[0].len() > 0 {
        let ghost first = outputs.deep_view()[0][0];
        let mut answers = outputs.remove(0);
        let c = answers.remove(0);
        assert(c@ == first);
        Some(c)
    } else {
        proof {
            assert(outputs.deep_view().len() == outputs@.len());
            if outputs@.len() > 0 {
                assert(outputs.deep_view()[0] == outputs@[0].deep_view());
            }
        }
        None
    }
}

} // verus!
